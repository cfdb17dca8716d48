//! Finding a program on a disk and reading it.
use vstd::prelude::*;

use crate::d64::{asked_for, directory_of, file_of, D64Error, DirEntry, EntryView, D64};
use crate::image::{
    image_lists_the_program, image_of, image_reads_back_the_program, name_finds_the_program,
    only_entry, sectors_needed, MAX_SECTORS, PAYLOAD,
};
use crate::petscii::{position_of, PAD, STAR};
use crate::via::word;

verus! {

/// What comes of looking for a program on a disk.
pub enum Lookup {
    /// No entry has the name.
    NotFound,
    /// The sectors of the file cannot be read.
    Unreadable { entry: DirEntry, error: D64Error },
    /// The file has no room for a load address.
    TooShort { entry: DirEntry, size: usize },
    /// The file, load address included.
    Found { entry: DirEntry, bytes: Vec<u8> },
}

/// What comes of looking for a program on a disk.
pub enum LookupView {
    NotFound,
    Unreadable { entry: EntryView, error: D64Error },
    TooShort { entry: EntryView, size: nat },
    Found { entry: EntryView, bytes: Seq<u8> },
}

impl View for Lookup {
    type V = LookupView;

    open spec fn view(&self) -> LookupView {
        match *self {
            Lookup::NotFound => LookupView::NotFound,
            Lookup::Unreadable { entry, error } => LookupView::Unreadable { entry: entry@, error },
            Lookup::TooShort { entry, size } => LookupView::TooShort {
                entry: entry@,
                size: size as nat,
            },
            Lookup::Found { entry, bytes } => LookupView::Found { entry: entry@, bytes: bytes@ },
        }
    }
}

/// What comes of looking for `name` on an image.
pub open spec fn looked_up(image: Seq<u8>, name: Seq<u8>) -> LookupView {
    match asked_for(directory_of(image), name) {
        None => LookupView::NotFound,
        Some(entry) => match file_of(image, entry) {
            Err(error) => LookupView::Unreadable { entry, error },
            Ok(bytes) => if bytes.len() < 2 {
                LookupView::TooShort { entry, size: bytes.len() }
            } else {
                LookupView::Found { entry, bytes }
            },
        },
    }
}

/// Looks for the first program that the name asks for.
pub fn look_up(disk: &D64, name: &[u8]) -> (r: Lookup)
    ensures
        r@ == looked_up(disk@, name@),
{
    match disk.find_file(name) {
        None => Lookup::NotFound,
        Some(entry) => match disk.read_file(&entry) {
            Err(error) => Lookup::Unreadable { entry, error },
            Ok(bytes) => {
                let size: usize = bytes.len();
                if size < 2 {
                    Lookup::TooShort { entry, size }
                } else {
                    Lookup::Found { entry, bytes }
                }
            },
        },
    }
}

/// The load address in front of a program.
pub open spec fn load_address_of(bytes: Seq<u8>) -> u16 {
    word(bytes[1], bytes[0])
}

/// The load address in front of a program.
pub fn load_address(bytes: &[u8]) -> (r: u16)
    requires
        bytes@.len() >= 2,
    ensures
        r == load_address_of(bytes@),
{
    let (hi, lo): (u16, u16) = (bytes[1] as u16, bytes[0] as u16);
    (hi << 8) | lo
}

/// A program that was put on an image is found under its name, with every byte in place, unless the
/// name is too long for the directory or holds the padding byte.
pub proof fn built_program_is_found(pet: Seq<u8>, prg: Seq<u8>)
    requires
        2 <= prg.len() <= MAX_SECTORS * PAYLOAD,
        position_of(pet, STAR) <= 16,
        position_of(pet, STAR) <= position_of(pet, PAD),
    ensures
        looked_up(image_of(pet, prg), pet) == (LookupView::Found {
            entry: only_entry(pet, sectors_needed(prg.len() as int)),
            bytes: prg,
        }),
{
    image_lists_the_program(pet, prg);
    image_reads_back_the_program(pet, prg);
    name_finds_the_program(pet, sectors_needed(prg.len() as int));
}

/// The load address of a program is in its first two bytes, the low one first.
pub proof fn load_address_is_low_byte_first(bytes: Seq<u8>)
    requires
        bytes.len() >= 2,
    ensures
        load_address_of(bytes) == bytes[0] + 256 * bytes[1],
{
    crate::via::word_is_both_bytes(bytes[1], bytes[0]);
}

/// What comes of looking for a program: nothing exactly where no entry is asked for; otherwise the
/// first entry that is, with its file if that can be read and has a load address, with the error if
/// it cannot be read, with its size if it is too short.
pub proof fn lookup_gives_the_file_of_the_entry(image: Seq<u8>, name: Seq<u8>)
    ensures
        match looked_up(image, name) {
            LookupView::NotFound => asked_for(directory_of(image), name) is None,
            LookupView::Unreadable { entry, error } => asked_for(directory_of(image), name) == Some(
                entry,
            ) && file_of(image, entry) == Err::<Seq<u8>, D64Error>(error),
            LookupView::TooShort { entry, size } => asked_for(directory_of(image), name) == Some(
                entry,
            ) && file_of(image, entry) is Ok && file_of(image, entry)->Ok_0.len() == size && size < 2,
            LookupView::Found { entry, bytes } => asked_for(directory_of(image), name) == Some(entry)
                && file_of(image, entry) == Ok::<Seq<u8>, D64Error>(bytes) && bytes.len() >= 2,
        },
{
}

} // verus!
