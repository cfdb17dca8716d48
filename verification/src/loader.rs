//! Programs on their way into the computer's memory: from a file, and from a mounted disk in place
//! of the KERNAL's LOAD.
//!
//! What is to be stored is handed out as a list of pokes, in the order in which they are made.
use vstd::prelude::*;

use crate::d64::{asked_for, directory_of, D64Error, D64};
use crate::image::{image_of, MAX_SECTORS, PAYLOAD};
use crate::listing::shown_name;
use crate::lookup::{
    built_program_is_found, load_address, load_address_of, look_up, looked_up, Lookup, LookupView,
};
use crate::petscii::{position_of, PAD, STAR};
use crate::via::word;

verus! {

/// The KERNAL's LOAD from a serial device.
pub const LOAD_ROUTINE: u16 = 0xF4A5;

/// The device that the disk is mounted on.
pub const DISK_DEVICE: u8 = 8;

/// The KERNAL's error for a file that is not there.
pub const FILE_NOT_FOUND: u8 = 4;

/// The KERNAL's error for a device that does not answer.
pub const DEVICE_NOT_PRESENT: u8 = 5;

/// The keyboard buffer.
pub const KEY_BUFFER: u16 = 0x0277;

/// The number of keys in it.
pub const KEY_COUNT: u16 = 0x00C6;

/// A byte to be stored.
#[derive(Debug, Clone, Copy, PartialEq, Eq, Structural)]
pub struct Poke {
    pub addr: u16,
    pub val: u8,
}

/// A memory of 64 KB after some pokes.
pub open spec fn poked(mem: Seq<u8>, pokes: Seq<Poke>) -> Seq<u8>
    decreases pokes.len(),
{
    if pokes.len() == 0 {
        mem
    } else {
        poked(mem, pokes.drop_last()).update(pokes.last().addr as int, pokes.last().val)
    }
}

/// The pokes that store `bytes` from `start` on; past the end of memory they go on at its start.
pub open spec fn pokes_at(start: u16, bytes: Seq<u8>) -> Seq<Poke> {
    Seq::new(
        bytes.len(),
        |i: int| Poke { addr: ((start + i) % 0x10000) as u16, val: bytes[i] },
    )
}

/// The low byte of an address.
pub open spec fn low(addr: u16) -> u8 {
    (addr % 256) as u8
}

/// The high byte of an address.
pub open spec fn high(addr: u16) -> u8 {
    (addr / 256) as u8
}

/// Appends the pokes that store `bytes` from `start` on.
fn push_pokes(pokes: &mut Vec<Poke>, start: u16, bytes: &[u8])
    ensures
        final(pokes)@ == old(pokes)@ + pokes_at(start, bytes@),
{
    let ghost before = pokes@;
    let mut addr: u16 = start;
    let mut i: usize = 0;
    while i < bytes.len()
        invariant
            i <= bytes@.len(),
            addr == (start + i) % 0x10000,
            pokes@ =~= before + pokes_at(start, bytes@.take(i as int)),
        decreases bytes@.len() - i,
    {
        pokes.push(Poke { addr, val: bytes[i] });
        addr = addr.wrapping_add(1);
        i = i + 1;
    }
    assert(bytes@.take(i as int) =~= bytes@);
}

/// The two bytes of an address.
fn split(addr: u16) -> (r: (u8, u8))
    ensures
        r.0 == low(addr),
        r.1 == high(addr),
{
    ((addr % 256) as u8, (addr / 256) as u8)
}

/// What is typed to load the first program of the disk.
pub open spec fn load_keys() -> Seq<u8> {
    seq![0x4Cu8, 0x4F, 0x41, 0x44, 0x22, 0x2A, 0x22, 0x2C, 0x38, 0x0D]
}

/// What is typed to run a program.
pub open spec fn run_keys() -> Seq<u8> {
    seq![0x52u8, 0x55, 0x4E, 0x0D]
}

/// The pokes that put keys into the keyboard buffer.
pub open spec fn typed(keys: Seq<u8>) -> Seq<Poke> {
    pokes_at(KEY_BUFFER, keys) + seq![Poke { addr: KEY_COUNT, val: keys.len() as u8 }]
}

/// Types `LOAD"*",8` and RETURN.
pub fn type_load() -> (pokes: Vec<Poke>)
    ensures
        pokes@ == typed(load_keys()),
{
    let keys: [u8; 10] = [0x4C, 0x4F, 0x41, 0x44, 0x22, 0x2A, 0x22, 0x2C, 0x38, 0x0D];
    let mut pokes: Vec<Poke> = Vec::new();
    push_pokes(&mut pokes, KEY_BUFFER, keys.as_slice());
    pokes.push(Poke { addr: KEY_COUNT, val: 10 });
    assert(keys@ =~= load_keys());
    assert(pokes@ =~= typed(load_keys()));
    pokes
}

/// The pokes that tell BASIC where its program ends and run it.
pub open spec fn basic_pokes(end: u16) -> Seq<Poke> {
    seq![
        Poke { addr: 0x002D, val: low(end) },
        Poke { addr: 0x002E, val: high(end) },
        Poke { addr: 0x002F, val: low(end) },
        Poke { addr: 0x0030, val: high(end) },
        Poke { addr: 0x0031, val: low(end) },
        Poke { addr: 0x0032, val: high(end) },
    ] + typed(run_keys())
}

/// Tells BASIC where its program ends, so that it finds the program and puts variables behind it,
/// and types `RUN` and RETURN.
pub fn fix_basic_pointers_and_inject_run(end_plus_1: u16) -> (pokes: Vec<Poke>)
    ensures
        pokes@ == basic_pokes(end_plus_1),
{
    let (lo, hi): (u8, u8) = split(end_plus_1);
    let mut pokes: Vec<Poke> = Vec::new();
    pokes.push(Poke { addr: 0x002D, val: lo });
    pokes.push(Poke { addr: 0x002E, val: hi });
    pokes.push(Poke { addr: 0x002F, val: lo });
    pokes.push(Poke { addr: 0x0030, val: hi });
    pokes.push(Poke { addr: 0x0031, val: lo });
    pokes.push(Poke { addr: 0x0032, val: hi });
    let keys: [u8; 4] = [0x52, 0x55, 0x4E, 0x0D];
    push_pokes(&mut pokes, KEY_BUFFER, keys.as_slice());
    pokes.push(Poke { addr: KEY_COUNT, val: 4 });
    assert(keys@ =~= run_keys());
    assert(pokes@ =~= basic_pokes(end_plus_1));
    pokes
}

/// A program file fits into memory at its load address.
pub open spec fn program_fits(prg: Seq<u8>) -> bool {
    &&& prg.len() >= 2
    &&& prg.len() > 2 ==> load_address_of(prg) + prg.len() - 1 <= 0xFFFF
}

/// The address behind the last byte of `size` bytes at `start`.
pub open spec fn end_of(start: u16, size: int) -> u16 {
    ((start + size) % 0x10000) as u16
}

/// The pokes that store a program file, and run it where that is wanted.
pub open spec fn program_pokes(prg: Seq<u8>, run: bool) -> Seq<Poke> {
    let start = load_address_of(prg);
    pokes_at(start, prg.skip(2)) + if run {
        basic_pokes(end_of(start, prg.len() - 2))
    } else {
        Seq::empty()
    }
}

/// A program file fits into memory at its load address.
pub fn program_has_room(prg: &[u8]) -> (r: bool)
    ensures
        r == program_fits(prg@),
{
    if prg.len() <= 2 {
        return prg.len() == 2;
    }
    if prg.len() > 0x10000 {
        return false;
    }
    let start: u16 = load_address(prg);
    start as usize + prg.len() - 1 <= 0xFFFF
}

/// Stores a program file, and runs it where that is wanted. The program's start comes first.
pub fn store_program(prg: &[u8], auto_run: bool) -> (r: (u16, Vec<Poke>))
    requires
        program_fits(prg@),
    ensures
        r.0 == load_address_of(prg@),
        r.1@ == program_pokes(prg@, auto_run),
{
    let start: u16 = load_address(prg);
    let len: usize = prg.len();
    let body = vstd::slice::slice_subrange(prg, 2, len);
    assert(body@ =~= prg@.skip(2));
    let mut pokes: Vec<Poke> = Vec::new();
    push_pokes(&mut pokes, start, body);
    if auto_run {
        let size: u16 = if len == 2 {
            0
        } else {
            (len - 2) as u16
        };
        let end: u16 = start.wrapping_add(size);
        let mut more = fix_basic_pointers_and_inject_run(end);
        pokes.append(&mut more);
    }
    assert(pokes@ =~= program_pokes(prg@, auto_run));
    (start, pokes)
}

/// What the KERNAL's LOAD finds when it is entered.
#[derive(Debug, Clone, Copy, PartialEq, Eq, Structural)]
pub struct LoadCall {
    /// The KERNAL is what the processor sees there.
    pub kernal_on: bool,
    /// 0 to load, 1 to verify.
    pub a: u8,
    /// The device, `$BA`.
    pub device: u8,
    /// The secondary address, `$B9`: 0 to load where the caller says.
    pub secondary: u8,
    /// The length of the name, `$B7`.
    pub name_len: u8,
    /// Where the name is, `$BB` and `$BC`.
    pub name_ptr: u16,
    /// Where the caller wants the program, `$C3` and `$C4`.
    pub x: u8,
    pub y: u8,
}

/// Why a program could not be loaded.
#[derive(Debug, Clone, Copy, PartialEq, Eq, Structural)]
pub enum LoadFailure {
    Unreadable { error: D64Error },
    TooShort,
}

/// What the processor's registers hold after LOAD.
#[derive(Debug, Clone, Copy, PartialEq, Eq)]
pub struct LoadRegisters {
    pub a: u8,
    pub carry: bool,
    /// X and Y, where they change.
    pub xy: Option<(u8, u8)>,
}

/// What comes of LOAD.
pub enum LoadOutcome {
    /// It is left to the KERNAL.
    Ignored,
    /// It is answered with an error.
    Failed { why: LoadFailure, registers: LoadRegisters },
    /// The program is stored.
    Loaded { name: String, start: u16, end: u16, pokes: Vec<Poke>, registers: LoadRegisters },
}

/// What comes of LOAD.
pub enum LoadView {
    Ignored,
    Failed { why: LoadFailure, registers: LoadRegisters },
    Loaded {
        name: Seq<char>,
        start: u16,
        end: u16,
        pokes: Seq<Poke>,
        registers: LoadRegisters,
    },
}

impl View for LoadOutcome {
    type V = LoadView;

    open spec fn view(&self) -> LoadView {
        match *self {
            LoadOutcome::Ignored => LoadView::Ignored,
            LoadOutcome::Failed { why, registers } => LoadView::Failed { why, registers },
            LoadOutcome::Loaded { name, start, end, pokes, registers } => LoadView::Loaded {
                name: name@,
                start,
                end,
                pokes: pokes@,
                registers,
            },
        }
    }
}

impl LoadCall {
    /// The call is a LOAD from the device that the disk is mounted on.
    pub open spec fn is_disk_load(self) -> bool {
        self.kernal_on && self.a == 0 && self.device == DISK_DEVICE
    }

    /// Where the name's bytes are.
    pub open spec fn name_places(self) -> Seq<u16> {
        Seq::new(
            self.name_len as nat,
            |i: int| ((self.name_ptr + i) % 0x10000) as u16,
        )
    }

    /// Where a program goes.
    pub open spec fn start_of(self, bytes: Seq<u8>) -> u16 {
        if self.secondary == 0 {
            word(self.y, self.x)
        } else {
            load_address_of(bytes)
        }
    }

    /// The call is a LOAD from the device that the disk is mounted on.
    pub fn wants_disk(&self) -> (r: bool)
        ensures
            r == self.is_disk_load(),
    {
        self.kernal_on && self.a == 0 && self.device == DISK_DEVICE
    }

    /// Where the name's bytes are.
    pub fn name_addresses(&self) -> (r: Vec<u16>)
        ensures
            r@ == self.name_places(),
    {
        let mut r: Vec<u16> = Vec::new();
        let mut addr: u16 = self.name_ptr;
        let mut i: u8 = 0;
        while i < self.name_len
            invariant
                i <= self.name_len,
                addr == (self.name_ptr + i) % 0x10000,
                r@ =~= self.name_places().take(i as int),
            decreases self.name_len - i,
        {
            r.push(addr);
            addr = addr.wrapping_add(1);
            i = i + 1;
        }
        assert(r@ =~= self.name_places());
        r
    }
}

/// The registers after an error.
pub open spec fn error_registers(code: u8) -> LoadRegisters {
    LoadRegisters { a: code, carry: true, xy: None }
}

/// The registers after a program was loaded.
pub open spec fn end_registers(end: u16) -> LoadRegisters {
    LoadRegisters { a: 0, carry: false, xy: Some((low(end), high(end))) }
}

/// The pokes that store a program and tell BASIC where it ends.
pub open spec fn load_pokes(start: u16, payload: Seq<u8>) -> Seq<Poke> {
    let end = end_of(start, payload.len() as int);
    pokes_at(start, payload) + seq![
        Poke { addr: 0x00AE, val: low(end) },
        Poke { addr: 0x00AF, val: high(end) },
    ]
}

/// What comes of a call of LOAD with a name and a disk. A LOAD of something that is not on the disk
/// is left to the KERNAL.
pub open spec fn load_outcome(image: Seq<u8>, call: LoadCall, name: Seq<u8>) -> LoadView {
    if !call.is_disk_load() {
        LoadView::Ignored
    } else {
        match looked_up(image, name) {
            LookupView::NotFound => LoadView::Ignored,
            LookupView::Unreadable { entry, error } => LoadView::Failed {
                why: LoadFailure::Unreadable { error },
                registers: error_registers(DEVICE_NOT_PRESENT),
            },
            LookupView::TooShort { entry, size } => LoadView::Failed {
                why: LoadFailure::TooShort,
                registers: error_registers(FILE_NOT_FOUND),
            },
            LookupView::Found { entry, bytes } => {
                let start = call.start_of(bytes);
                let end = end_of(start, bytes.len() - 2);
                LoadView::Loaded {
                    name: shown_name(entry),
                    start,
                    end,
                    pokes: load_pokes(start, bytes.skip(2)),
                    registers: end_registers(end),
                }
            },
        }
    }
}

/// Answers LOAD with an error.
fn return_load_error(why: LoadFailure, code: u8) -> (r: LoadOutcome)
    ensures
        r@ == (LoadView::Failed { why, registers: error_registers(code) }),
{
    LoadOutcome::Failed { why, registers: LoadRegisters { a: code, carry: true, xy: None } }
}

/// Answers the KERNAL's LOAD from a disk.
#[verifier::spinoff_prover]
#[verifier::rlimit(40)]
pub fn answer_load(disk: &D64, call: &LoadCall, name: &[u8]) -> (r: LoadOutcome)
    ensures
        r@ == load_outcome(disk@, *call, name@),
{
    if !call.wants_disk() {
        return LoadOutcome::Ignored;
    }
    match look_up(disk, name) {
        Lookup::NotFound => LoadOutcome::Ignored,
        Lookup::Unreadable { entry: _, error } => return_load_error(
            LoadFailure::Unreadable { error },
            DEVICE_NOT_PRESENT,
        ),
        Lookup::TooShort { entry: _, size: _ } => return_load_error(
            LoadFailure::TooShort,
            FILE_NOT_FOUND,
        ),
        Lookup::Found { entry, bytes } => {
            let start: u16 = if call.secondary == 0 {
                ((call.y as u16) << 8) | (call.x as u16)
            } else {
                load_address(bytes.as_slice())
            };
            let len: usize = bytes.len();
            let payload = vstd::slice::slice_subrange(bytes.as_slice(), 2, len);
            assert(payload@ =~= bytes@.skip(2));
            let mut pokes: Vec<Poke> = Vec::new();
            push_pokes(&mut pokes, start, payload);
            let size: u16 = ((len - 2) % 0x10000) as u16;
            let end: u16 = start.wrapping_add(size);
            assert(end == end_of(start, len - 2));
            let (lo, hi): (u8, u8) = split(end);
            pokes.push(Poke { addr: 0x00AE, val: lo });
            pokes.push(Poke { addr: 0x00AF, val: hi });
            assert(pokes@ =~= load_pokes(start, bytes@.skip(2)));
            LoadOutcome::Loaded {
                name: entry.name_ascii(),
                start,
                end,
                pokes,
                registers: LoadRegisters { a: 0, carry: false, xy: Some((lo, hi)) },
            }
        },
    }
}

/// Where a subroutine returns to, from the two bytes that are pulled off the stack.
pub fn do_rts(lo: u8, hi: u8) -> (pc: u16)
    ensures
        pc == (word(hi, lo) + 1) % 0x10000,
{
    let back: u16 = ((hi as u16) << 8) | (lo as u16);
    back.wrapping_add(1)
}

/// Pokes keep the size of the memory, and change it only where one of them goes.
proof fn lemma_poked_elsewhere(mem: Seq<u8>, pokes: Seq<Poke>, at: int)
    requires
        mem.len() == 0x10000,
        0 <= at < 0x10000,
        forall|k: int| 0 <= k < pokes.len() ==> (#[trigger] pokes[k]).addr != at,
    ensures
        poked(mem, pokes).len() == 0x10000,
        poked(mem, pokes)[at] == mem[at],
    decreases pokes.len(),
{
    if pokes.len() > 0 {
        let rest = pokes.drop_last();
        assert forall|k: int| 0 <= k < rest.len() implies (#[trigger] rest[k]).addr != at by {
            assert(pokes[k].addr != at);
        }
        lemma_poked_elsewhere(mem, rest, at);
        assert(pokes[pokes.len() - 1].addr != at);
    }
}

/// Pokes keep the size of the memory.
proof fn lemma_poked_len(mem: Seq<u8>, pokes: Seq<Poke>)
    requires
        mem.len() == 0x10000,
    ensures
        poked(mem, pokes).len() == mem.len(),
    decreases pokes.len(),
{
    if pokes.len() > 0 {
        lemma_poked_len(mem, pokes.drop_last());
    }
}

/// Pokes that come first are made first.
proof fn lemma_poked_add(mem: Seq<u8>, a: Seq<Poke>, b: Seq<Poke>)
    ensures
        poked(mem, a + b) == poked(poked(mem, a), b),
    decreases b.len(),
{
    if b.len() == 0 {
        assert(a + b =~= a);
    } else {
        lemma_poked_add(mem, a, b.drop_last());
        assert((a + b).drop_last() =~= a + b.drop_last());
    }
}

/// Bytes that are stored from an address on can be read there, as long as they do not go round
/// the whole memory, and nothing else has changed.
pub proof fn pokes_store_the_bytes(mem: Seq<u8>, start: u16, bytes: Seq<u8>, i: int, other: int)
    requires
        mem.len() == 0x10000,
        0 <= i < bytes.len() <= 0x10000,
        0 <= other < 0x10000,
        (other - start) % 0x10000 >= bytes.len(),
    ensures
        poked(mem, pokes_at(start, bytes))[(start + i) % 0x10000] == bytes[i],
        poked(mem, pokes_at(start, bytes))[other] == mem[other],
        poked(mem, pokes_at(start, bytes)).len() == 0x10000,
{
    lemma_stored(mem, start, bytes, i);
    let pokes = pokes_at(start, bytes);
    assert forall|k: int| 0 <= k < pokes.len() implies (#[trigger] pokes[k]).addr != other by {}
    lemma_poked_elsewhere(mem, pokes, other);
}

/// The first part of it.
proof fn lemma_stored(mem: Seq<u8>, start: u16, bytes: Seq<u8>, i: int)
    requires
        mem.len() == 0x10000,
        0 <= i < bytes.len() <= 0x10000,
    ensures
        poked(mem, pokes_at(start, bytes))[(start + i) % 0x10000] == bytes[i],
    decreases bytes.len(),
{
    let pokes = pokes_at(start, bytes);
    lemma_poked_len(mem, pokes.drop_last());
    if i < bytes.len() - 1 {
        assert(pokes.drop_last() =~= pokes_at(start, bytes.drop_last()));
        lemma_stored(mem, start, bytes.drop_last(), i);
    }
}

/// What is typed stands in the keyboard buffer, and its length in the counter.
pub proof fn typed_keys_are_in_the_buffer(mem: Seq<u8>, keys: Seq<u8>, i: int)
    requires
        mem.len() == 0x10000,
        0 <= i < keys.len() <= 10,
    ensures
        poked(mem, typed(keys))[KEY_BUFFER + i] == keys[i],
        poked(mem, typed(keys))[KEY_COUNT as int] == keys.len(),
{
    let count = seq![Poke { addr: KEY_COUNT, val: keys.len() as u8 }];
    let a = pokes_at(KEY_BUFFER, keys);
    lemma_poked_add(mem, a, count);
    lemma_poked_len(mem, a);
    lemma_stored(mem, KEY_BUFFER, keys, i);
    lemma_poked_elsewhere(poked(mem, a), count, KEY_BUFFER + i);
    reveal_with_fuel(poked, 2);
    assert(count.drop_last() =~= Seq::empty());
}

/// A program file stands in memory from its load address on, where the pokes that run it do not go.
pub proof fn program_is_stored(mem: Seq<u8>, prg: Seq<u8>, run: bool, i: int)
    requires
        mem.len() == 0x10000,
        program_fits(prg),
        2 <= i < prg.len(),
        run ==> load_address_of(prg) >= KEY_BUFFER + 4,
    ensures
        poked(mem, program_pokes(prg, run))[load_address_of(prg) + i - 2] == prg[i],
{
    let start = load_address_of(prg);
    let body = prg.skip(2);
    let a = pokes_at(start, body);
    lemma_stored(mem, start, body, i - 2);
    lemma_poked_len(mem, a);
    if run {
        let more = basic_pokes(end_of(start, prg.len() - 2));
        lemma_poked_add(mem, a, more);
        lemma_poked_elsewhere(poked(mem, a), more, start + i - 2);
    } else {
        assert(program_pokes(prg, run) =~= a);
    }
}

/// After LOAD the program stands in memory from where it was to go, except where the KERNAL keeps
/// its end, and the end is what the KERNAL and the registers say.
pub proof fn load_stores_the_file(mem: Seq<u8>, image: Seq<u8>, call: LoadCall, name: Seq<u8>, i: int)
    requires
        mem.len() == 0x10000,
        call.is_disk_load(),
        looked_up(image, name) matches LookupView::Found { entry, bytes } && 2 <= i < bytes.len()
            && bytes.len() <= 0x10002 && (call.start_of(bytes) + i - 2) % 0x10000 != 0xAE && (
        call.start_of(bytes) + i - 2) % 0x10000 != 0xAF,
    ensures
        ({
            let bytes = looked_up(image, name)->Found_bytes;
            let start = call.start_of(bytes);
            &&& load_outcome(image, call, name) matches LoadView::Loaded {
                start: s,
                end,
                pokes,
                registers,
                ..
            }
            &&& s == start
            &&& end == end_of(start, bytes.len() - 2)
            &&& poked(mem, pokes)[(start + i - 2) % 0x10000] == bytes[i]
            &&& poked(mem, pokes)[0xAE] == low(end)
            &&& poked(mem, pokes)[0xAF] == high(end)
            &&& registers == end_registers(end)
        }),
{
    let bytes = looked_up(image, name)->Found_bytes;
    let start = call.start_of(bytes);
    let payload = bytes.skip(2);
    let end = end_of(start, payload.len() as int);
    let a = pokes_at(start, payload);
    let b = seq![Poke { addr: 0x00AE, val: low(end) }, Poke { addr: 0x00AF, val: high(end) }];
    lemma_stored(mem, start, payload, i - 2);
    lemma_poked_len(mem, a);
    lemma_poked_add(mem, a, b);
    lemma_poked_elsewhere(poked(mem, a), b, (start + i - 2) % 0x10000);
    reveal_with_fuel(poked, 3);
    assert(b.drop_last() =~= seq![Poke { addr: 0x00AE, val: low(end) }]);
    assert(b.drop_last().drop_last() =~= Seq::empty());
}

/// A program that was put on an image is loaded from it under its name, byte for byte: LOAD with
/// the name answers with the pokes that store the program where it belongs.
pub proof fn built_program_loads(pet: Seq<u8>, prg: Seq<u8>, call: LoadCall)
    requires
        2 <= prg.len() <= MAX_SECTORS * PAYLOAD,
        position_of(pet, STAR) <= 16,
        position_of(pet, STAR) <= position_of(pet, PAD),
        call.is_disk_load(),
    ensures
        load_outcome(image_of(pet, prg), call, pet) matches LoadView::Loaded {
            start,
            end,
            pokes,
            ..
        } && start == call.start_of(prg) && end == end_of(start, prg.len() - 2) && pokes
            == load_pokes(start, prg.skip(2)),
{
    built_program_is_found(pet, prg);
}

/// What is not a LOAD from the disk, or asks for something that is not on it, is left to the KERNAL;
/// nothing else is.
pub proof fn only_disk_loads_are_answered(image: Seq<u8>, call: LoadCall, name: Seq<u8>)
    ensures
        load_outcome(image, call, name) is Ignored <==> !call.is_disk_load() || asked_for(
            directory_of(image),
            name,
        ) is None,
{
}

/// An address is its low byte and 256 times its high byte.
pub proof fn address_is_both_bytes(addr: u16)
    ensures
        low(addr) + 256 * high(addr) == addr,
{
}

/// LOAD is answered for device 8 alone, where it is to load and not to verify, and where the KERNAL is
/// what the processor sees. The program goes where the caller says for secondary address 0, and where
/// the file says for any other. The name is read byte by byte, round the end of memory.
pub proof fn load_call_says_what_it_wants(call: LoadCall, bytes: Seq<u8>, i: int)
    requires
        bytes.len() >= 2,
        0 <= i < call.name_len,
    ensures
        call.is_disk_load() <==> call.kernal_on && call.a == 0 && call.device == 8,
        call.secondary == 0 ==> call.start_of(bytes) == call.x + 256 * call.y,
        call.secondary != 0 ==> call.start_of(bytes) == bytes[0] + 256 * bytes[1],
        call.name_places().len() == call.name_len,
        call.name_places()[i] == (call.name_ptr + i) % 0x10000,
{
    crate::via::word_is_both_bytes(call.y, call.x);
    crate::via::word_is_both_bytes(bytes[1], bytes[0]);
}

/// LOAD comes back as the KERNAL's callers expect: with carry clear and the end of the program in X
/// and Y where it was loaded, with carry set and an error in A where it was not. A file that cannot be
/// read is error 5, one without a load address error 4.
pub proof fn load_comes_back_with_its_result(image: Seq<u8>, call: LoadCall, name: Seq<u8>)
    requires
        call.kernal_on,
        call.a == 0,
        call.device == 8,
    ensures
        match looked_up(image, name) {
            LookupView::NotFound => load_outcome(image, call, name) is Ignored,
            LookupView::Unreadable { entry, error } => load_outcome(
                image,
                call,
                name,
            ) matches LoadView::Failed { why, registers } && why == (LoadFailure::Unreadable { error })
                && registers.carry && registers.a == 5 && registers.xy is None,
            LookupView::TooShort { entry, size } => load_outcome(
                image,
                call,
                name,
            ) matches LoadView::Failed { why, registers } && why is TooShort && registers.carry
                && registers.a == 4 && registers.xy is None,
            LookupView::Found { entry, bytes } => load_outcome(
                image,
                call,
                name,
            ) matches LoadView::Loaded { name: shown, start, end, pokes, registers } && {
                &&& start == call.start_of(bytes)
                &&& end == (start + bytes.len() - 2) % 0x10000
                &&& pokes.len() == bytes.len()
                &&& !registers.carry && registers.a == 0
                &&& registers.xy matches Some(xy) && xy.0 + 256 * xy.1 == end
                &&& shown == entry.name().map_values(|b: u8| crate::petscii::ascii_of(b))
            },
        },
{
    if let LookupView::Found { entry, bytes } = looked_up(image, name) {
        let end = end_of(call.start_of(bytes), bytes.len() - 2);
        address_is_both_bytes(end);
    }
}

/// What is typed to load is `LOAD"*",8` and RETURN, what is typed to run is `RUN` and RETURN.
pub proof fn typed_commands_are_these()
    ensures
        load_keys() == seq![
            'L' as u8,
            'O' as u8,
            'A' as u8,
            'D' as u8,
            '"' as u8,
            '*' as u8,
            '"' as u8,
            ',' as u8,
            '8' as u8,
            13u8,
        ],
        run_keys() == seq!['R' as u8, 'U' as u8, 'N' as u8, 13u8],
{
}

/// BASIC is told where its program ends: all three pointers behind it say so, and `RUN` waits in the
/// keyboard buffer.
pub proof fn basic_finds_the_end_of_its_program(mem: Seq<u8>, end: u16, i: int)
    requires
        mem.len() == 0x10000,
        0 <= i < 4,
    ensures
        ({
            let after = poked(mem, basic_pokes(end));
            &&& after[0x2D] + 256 * after[0x2E] == end
            &&& after[0x2F] + 256 * after[0x30] == end
            &&& after[0x31] + 256 * after[0x32] == end
            &&& after[0x277 + i] == run_keys()[i]
            &&& after[0xC6] == 4
        }),
{
    let p = seq![
        Poke { addr: 0x002D, val: low(end) },
        Poke { addr: 0x002E, val: high(end) },
        Poke { addr: 0x002F, val: low(end) },
        Poke { addr: 0x0030, val: high(end) },
        Poke { addr: 0x0031, val: low(end) },
        Poke { addr: 0x0032, val: high(end) },
    ];
    let t = typed(run_keys());
    let mid = poked(mem, p);
    lemma_poked_add(mem, p, t);
    lemma_poked_len(mem, p);
    typed_keys_are_in_the_buffer(mid, run_keys(), i);
    lemma_poked_elsewhere(mid, t, 0x2D);
    lemma_poked_elsewhere(mid, t, 0x2E);
    lemma_poked_elsewhere(mid, t, 0x2F);
    lemma_poked_elsewhere(mid, t, 0x30);
    lemma_poked_elsewhere(mid, t, 0x31);
    lemma_poked_elsewhere(mid, t, 0x32);
    reveal_with_fuel(poked, 7);
    let (p5, p4, p3) = (p.take(5), p.take(4), p.take(3));
    let (p2, p1, p0) = (p.take(2), p.take(1), p.take(0));
    assert(p.drop_last() =~= p5 && p5.drop_last() =~= p4 && p4.drop_last() =~= p3);
    assert(p3.drop_last() =~= p2 && p2.drop_last() =~= p1 && p1.drop_last() =~= p0);
    address_is_both_bytes(end);
}

/// A program that is run is told to BASIC with its own end, and one that is not run changes nothing
/// but the memory that it takes.
pub proof fn stored_program_is_run_where_wanted(mem: Seq<u8>, prg: Seq<u8>, other: int)
    requires
        mem.len() == 0x10000,
        program_fits(prg),
        0 <= other < 0x10000,
        other < load_address_of(prg) || other >= load_address_of(prg) + prg.len() - 2,
    ensures
        poked(mem, program_pokes(prg, false))[other] == mem[other],
        ({
            let after = poked(mem, program_pokes(prg, true));
            after[0x2D] + 256 * after[0x2E] == (load_address_of(prg) + prg.len() - 2) % 0x10000
        }),
{
    let start = load_address_of(prg);
    let a = pokes_at(start, prg.skip(2));
    assert(program_pokes(prg, false) =~= a);
    lemma_poked_elsewhere(mem, a, other);
    lemma_poked_len(mem, a);
    let end = end_of(start, prg.len() - 2);
    lemma_poked_add(mem, a, basic_pokes(end));
    basic_finds_the_end_of_its_program(poked(mem, a), end, 0);
}

/// A program file fits exactly if it has a load address and, where it has more, no address on the way
/// to its last byte is beyond the end of memory, counted with the two bytes in front.
pub proof fn program_fits_below_the_end_of_memory(prg: Seq<u8>)
    ensures
        program_fits(prg) <==> prg.len() == 2 || (prg.len() > 2 && prg[0] + 256 * prg[1] + (prg.len()
            - 1) <= 0xFFFF),
{
    crate::via::word_is_both_bytes(prg[1], prg[0]);
}

} // verus!
