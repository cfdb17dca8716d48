//! The lines of a directory listing.
use vstd::prelude::*;

use crate::d64::{directory_of, entry_views, DirEntry, EntryView, D64};
use crate::petscii::{ascii_of, ascii_upper, name_to_ascii_upper};
use crate::text::{decimal, push_decimal, push_text};

verus! {

/// The three letters of a file type.
pub open spec fn kind_text(file_type: u8) -> Seq<char> {
    let kind = file_type & 0x0F;
    if kind == 1 {
        "SEQ"@
    } else if kind == 2 {
        "PRG"@
    } else if kind == 3 {
        "USR"@
    } else if kind == 4 {
        "REL"@
    } else {
        "???"@
    }
}

/// The three letters of a file type.
pub fn kind_name(file_type: u8) -> (r: &'static str)
    ensures
        r@ == kind_text(file_type),
{
    let kind: u8 = file_type & 0x0F;
    if kind == 1 {
        "SEQ"
    } else if kind == 2 {
        "PRG"
    } else if kind == 3 {
        "USR"
    } else if kind == 4 {
        "REL"
    } else {
        "???"
    }
}

/// The name of an entry as it is shown.
pub open spec fn shown_name(e: EntryView) -> Seq<char> {
    e.name().map_values(|b: u8| ascii_of(b))
}

/// A line of the machine-readable list: size, tab, name in upper case.
pub open spec fn list_text(e: EntryView) -> Seq<char> {
    decimal(e.size_sectors as nat) + seq!['\t'] + e.name().map_values(
        |b: u8| ascii_upper(ascii_of(b) as u8) as char,
    )
}

/// The lines of the machine-readable list of the first `n` entries: one for each closed program.
pub open spec fn list_texts(dir: Seq<EntryView>, n: int) -> Seq<Seq<char>>
    decreases n,
{
    if n <= 0 {
        Seq::empty()
    } else if dir[n - 1].is_loadable() {
        list_texts(dir, n - 1).push(list_text(dir[n - 1]))
    } else {
        list_texts(dir, n - 1)
    }
}

/// `text` with spaces in front, to a width of four.
pub open spec fn right_aligned(text: Seq<char>) -> Seq<char> {
    Seq::new(
        if text.len() < 4 {
            (4 - text.len()) as nat
        } else {
            0
        },
        |i: int| ' ',
    ) + text
}

/// A line of the listing: size, name, kind, and a star for a file that was not closed.
pub open spec fn info_text(e: EntryView, star: bool) -> Seq<char> {
    "  "@ + right_aligned(decimal(e.size_sectors as nat)) + " \""@ + shown_name(e) + "\" "@
        + kind_text(e.file_type) + if star && !e.is_closed() {
        "*"@
    } else {
        Seq::<char>::empty()
    }
}

/// What strings say.
pub open spec fn texts(s: Seq<String>) -> Seq<Seq<char>> {
    s.map_values(|t: String| t@)
}

/// A name in upper case.
fn push_upper(s: &mut String, name: &[u8])
    ensures
        final(s)@ == old(s)@ + name@.map_values(|b: u8| ascii_upper(ascii_of(b) as u8) as char),
{
    let ghost before = s@;
    let mut i: usize = 0;
    while i < name.len()
        invariant
            i <= name@.len(),
            s@ =~= before + name@.take(i as int).map_values(
                |b: u8| ascii_upper(ascii_of(b) as u8) as char,
            ),
        decreases name@.len() - i,
    {
        let c: char = crate::petscii::petscii_to_ascii(name[i]);
        s.push(name_to_ascii_upper(c as u8) as char);
        i = i + 1;
        assert(name@.take(i as int) =~= name@.take(i - 1).push(name@[i - 1]));
    }
    assert(name@.take(i as int) =~= name@);
}

/// A line of the machine-readable list.
pub fn list_line(e: &DirEntry) -> (r: String)
    ensures
        r@ == list_text(e@),
{
    let mut r = String::new();
    push_decimal(&mut r, e.size_sectors as usize);
    r.push('\t');
    let n: usize = crate::petscii::position(&e.filename, crate::petscii::PAD);
    proof {
        crate::petscii::lemma_position_of(e.filename@, crate::petscii::PAD);
    }
    let name = vstd::slice::slice_subrange(e.filename.as_slice(), 0, n);
    assert(name@ =~= e@.name());
    push_upper(&mut r, name);
    assert(r@ =~= list_text(e@));
    r
}

/// The machine-readable list of a disk: one line for each closed program.
pub fn list(disk: &D64) -> (lines: Vec<String>)
    ensures
        texts(lines@) == list_texts(directory_of(disk@), directory_of(disk@).len() as int),
{
    let dir = disk.directory();
    let ghost views = directory_of(disk@);
    let mut lines: Vec<String> = Vec::new();
    let mut i: usize = 0;
    while i < dir.len()
        invariant
            i <= dir@.len(),
            views == entry_views(dir@),
            texts(lines@) =~= list_texts(views, i as int),
        decreases dir@.len() - i,
    {
        assert(views[i as int] == dir@[i as int]@);
        if dir[i].is_prg() && dir[i].is_closed() {
            lines.push(list_line(&dir[i]));
        }
        i = i + 1;
    }
    lines
}

/// A line of the listing.
pub fn info_line(e: &DirEntry, star: bool) -> (r: String)
    ensures
        r@ == info_text(e@, star),
{
    let mut r = String::new();
    push_text(&mut r, "  ");
    let size: usize = e.size_sectors as usize;
    if size < 1000 {
        r.push(' ');
    }
    if size < 100 {
        r.push(' ');
    }
    if size < 10 {
        r.push(' ');
    }
    push_decimal(&mut r, size);
    proof {
        reveal_with_fuel(decimal, 5);
        assert(r@ =~= "  "@ + right_aligned(decimal(size as nat)));
    }
    push_text(&mut r, " \"");
    push_text(&mut r, e.name_ascii().as_str());
    push_text(&mut r, "\" ");
    push_text(&mut r, kind_name(e.file_type));
    if star && !e.is_closed() {
        push_text(&mut r, "*");
    }
    assert(r@ =~= info_text(e@, star));
    r
}

/// What is shown of a name has no small letters, so upper case is what it is in already.
pub proof fn shown_names_are_upper_case(e: EntryView)
    ensures
        list_text(e) == decimal(e.size_sectors as nat) + seq!['\t'] + shown_name(e),
{
    assert forall|b: u8| ascii_upper(ascii_of(b) as u8) as char == #[trigger] ascii_of(b) by {}
    assert(list_text(e) =~= decimal(e.size_sectors as nat) + seq!['\t'] + shown_name(e));
}

/// The list has as many lines as the directory has closed programs, in the same order.
pub proof fn list_shows_closed_programs(dir: Seq<EntryView>, n: int)
    requires
        0 <= n <= dir.len(),
    ensures
        list_texts(dir, n) == dir.take(n).filter(|e: EntryView| e.is_loadable()).map_values(
            |e: EntryView| list_text(e),
        ),
    decreases n,
{
    let loadable = |e: EntryView| e.is_loadable();
    reveal(Seq::filter);
    if n > 0 {
        list_shows_closed_programs(dir, n - 1);
        assert(dir.take(n).drop_last() =~= dir.take(n - 1));
        assert(dir.take(n).last() == dir[n - 1]);
    }
    assert(list_texts(dir, n) =~= dir.take(n).filter(loadable).map_values(
        |e: EntryView| list_text(e),
    ));
}

/// The letters of a file type go by its low four bits.
pub proof fn kinds_have_their_letters(file_type: u8)
    ensures
        file_type % 16 == 1 ==> kind_text(file_type) == "SEQ"@,
        file_type % 16 == 2 ==> kind_text(file_type) == "PRG"@,
        file_type % 16 == 3 ==> kind_text(file_type) == "USR"@,
        file_type % 16 == 4 ==> kind_text(file_type) == "REL"@,
        file_type % 16 == 0 || file_type % 16 > 4 ==> kind_text(file_type) == "???"@,
{
    let e = EntryView { file_type, track: 0, sector: 0, filename: Seq::empty(), size_sectors: 0 };
    crate::d64::low_bits_of_the_type(e);
}

/// A number of up to four digits stands at the right of four columns, with spaces before it.
pub proof fn sizes_stand_at_the_right(text: Seq<char>, i: int)
    ensures
        text.len() <= 4 ==> right_aligned(text).len() == 4,
        text.len() > 4 ==> right_aligned(text) == text,
        0 <= i < right_aligned(text).len() - text.len() ==> right_aligned(text)[i] == ' ',
        right_aligned(text).skip(right_aligned(text).len() - text.len()) == text,
{
    assert(right_aligned(text).skip(right_aligned(text).len() - text.len()) =~= text);
    assert(text.len() > 4 ==> right_aligned(text) =~= text);
}

/// A line of the listing shows the size in columns 2 to 5, then the name in quotes, then the kind.
/// The star at its end is all that the choice of it changes, and only a file that was not closed has
/// one.
pub proof fn info_line_shows_size_name_and_kind(e: EntryView, i: int)
    requires
        decimal(e.size_sectors as nat).len() <= 4,
    ensures
        ({
            let line = info_text(e, false);
            let n = e.name().len() as int;
            &&& line.len() == 8 + n + 2 + kind_text(e.file_type).len()
            &&& line.subrange(2, 6) == right_aligned(decimal(e.size_sectors as nat))
            &&& line[0] == ' ' && line[1] == ' ' && line[6] == ' ' && line[7] == '"'
            &&& 0 <= i < n ==> line[8 + i] == ascii_of(e.name()[i])
            &&& line[8 + n] == '"' && line[9 + n] == ' '
            &&& line.skip(10 + n) == kind_text(e.file_type)
            &&& e.file_type >= 128 ==> info_text(e, true) == line
            &&& e.file_type < 128 ==> info_text(e, true) == line.push('*')
        }),
{
    let size = right_aligned(decimal(e.size_sectors as nat));
    let line = info_text(e, false);
    let n = e.name().len() as int;
    reveal_strlit("  ");
    reveal_strlit(" \"");
    reveal_strlit("\" ");
    reveal_strlit("*");
    crate::d64::only_closed_programs_are_asked_for(Seq::empty(), e);
    assert(size.len() == 4);
    assert(line.subrange(2, 6) =~= size);
    assert(line.skip(10 + n) =~= kind_text(e.file_type));
    assert(e.file_type >= 128 ==> info_text(e, true) =~= line);
    assert(e.file_type < 128 ==> info_text(e, true) =~= line.push('*'));
}

} // verus!
