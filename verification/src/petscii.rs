//! PETSCII, the character set of file names on disk and in memory.
use vstd::prelude::*;

verus! {

/// The byte that pads a file name on disk.
pub const PAD: u8 = 0xA0;

/// The byte that stands for "any ending" in a file name pattern.
pub const STAR: u8 = 0x2A;

/// The first position of `b` in `s`, or the length of `s` where `b` does not occur.
pub open spec fn position_of(s: Seq<u8>, b: u8) -> int
    decreases s.len(),
{
    if s.len() == 0 || s[0] == b {
        0
    } else {
        1 + position_of(s.drop_first(), b)
    }
}

/// `position_of` is a position at which `b` stands, and `b` stands at none before it.
pub proof fn lemma_position_of(s: Seq<u8>, b: u8)
    ensures
        0 <= position_of(s, b) <= s.len(),
        position_of(s, b) < s.len() ==> s[position_of(s, b)] == b,
        forall|i: int| 0 <= i < position_of(s, b) ==> #[trigger] s[i] != b,
    decreases s.len(),
{
    if s.len() > 0 && s[0] != b {
        let rest = s.drop_first();
        lemma_position_of(rest, b);
        assert forall|i: int| 0 <= i < position_of(s, b) implies #[trigger] s[i] != b by {
            if i > 0 {
                assert(s[i] == rest[i - 1]);
            }
        }
    }
}

/// A position with `b` (or the end) and no `b` before it is `position_of`.
pub proof fn lemma_position_of_unique(s: Seq<u8>, b: u8, p: int)
    requires
        0 <= p <= s.len(),
        p < s.len() ==> s[p] == b,
        forall|i: int| 0 <= i < p ==> #[trigger] s[i] != b,
    ensures
        position_of(s, b) == p,
{
    lemma_position_of(s, b);
    let q = position_of(s, b);
    if q < p {
        assert(s[q] != b);
    }
}

/// Finds the first `b` in `s`; the length of `s` where there is none.
pub fn position(s: &[u8], b: u8) -> (p: usize)
    ensures
        p == position_of(s@, b),
{
    let mut p: usize = 0;
    while p < s.len() && s[p] != b
        invariant
            p <= s@.len(),
            forall|i: int| 0 <= i < p ==> #[trigger] s@[i] != b,
        decreases s@.len() - p,
    {
        p = p + 1;
    }
    proof {
        lemma_position_of_unique(s@, b, p as int);
    }
    p
}

/// The part of a padded name before its padding.
pub open spec fn stem(name: Seq<u8>) -> Seq<u8> {
    name.take(position_of(name, PAD))
}

/// `b` with the case of letters removed: both alphabets go to `$41`-`$5A`.
pub open spec fn upper(b: u8) -> u8 {
    if 0x61 <= b <= 0x7A {
        (b - 0x20) as u8
    } else if 0xC1 <= b <= 0xDA {
        (b - 0x80) as u8
    } else {
        b
    }
}

/// Removes the case of a PETSCII letter; the ASCII lower case letters are taken along.
pub fn petscii_upper(b: u8) -> (r: u8)
    ensures
        r == upper(b),
{
    if 0x61 <= b && b <= 0x7A {
        b - 0x20
    } else if 0xC1 <= b && b <= 0xDA {
        b - 0x80
    } else {
        b
    }
}

/// Compares two PETSCII bytes without regard to case.
pub fn petscii_eq_ci(a: u8, b: u8) -> (r: bool)
    ensures
        r == (upper(a) == upper(b)),
{
    petscii_upper(a) == petscii_upper(b)
}

/// The ASCII character shown for a PETSCII byte; `?` where there is none.
pub open spec fn ascii_of(b: u8) -> char {
    if 0x20 <= b <= 0x5F {
        b as char
    } else if 0xC1 <= b <= 0xDA {
        ((b - 0x80) as u8) as char
    } else {
        '?'
    }
}

/// The ASCII character shown for a PETSCII byte; `?` where there is none.
pub fn petscii_to_ascii(b: u8) -> (c: char)
    ensures
        c == ascii_of(b),
{
    if 0x20 <= b && b <= 0x5F {
        b as char
    } else if 0xC1 <= b && b <= 0xDA {
        (b - 0x80) as char
    } else {
        '?'
    }
}

/// `b` with ASCII lower case letters turned into upper case.
pub open spec fn ascii_upper(b: u8) -> u8 {
    if 0x61 <= b <= 0x7A {
        (b - 0x20) as u8
    } else {
        b
    }
}

/// Turns an ASCII lower case letter into upper case and leaves every other byte.
pub fn name_to_ascii_upper(b: u8) -> (r: u8)
    ensures
        r == ascii_upper(b),
{
    if 0x61 <= b && b <= 0x7A {
        b - 0x20
    } else {
        b
    }
}

/// The PETSCII form of an ASCII name, byte by byte.
pub open spec fn petscii_of(name: Seq<u8>) -> Seq<u8> {
    name.map_values(|b: u8| ascii_upper(b))
}

/// Turns an ASCII name into the PETSCII of the unshifted character set.
pub fn ascii_to_petscii(s: &str) -> (r: Vec<u8>)
    ensures
        r@ == petscii_of(vstd::utf8::encode_utf8(s@)),
{
    let bytes = s.as_bytes();
    let mut r: Vec<u8> = Vec::new();
    let mut i: usize = 0;
    while i < bytes.len()
        invariant
            i <= bytes@.len(),
            r@.len() == i,
            forall|k: int| 0 <= k < i ==> #[trigger] r@[k] == ascii_upper(bytes@[k]),
        decreases bytes@.len() - i,
    {
        r.push(name_to_ascii_upper(bytes[i]));
        i = i + 1;
    }
    assert(r@ =~= petscii_of(bytes@));
    r
}

/// Which letter a byte is, counted from 0, in any of the three alphabets; -1 where it is none.
pub open spec fn letter(b: u8) -> int {
    if 0x41 <= b <= 0x5A {
        b - 0x41
    } else if 0x61 <= b <= 0x7A {
        b - 0x61
    } else if 0xC1 <= b <= 0xDA {
        b - 0xC1
    } else {
        -1
    }
}

/// Two bytes are the same up to case.
pub open spec fn same_but_for_case(a: u8, b: u8) -> bool {
    a == b || (letter(a) >= 0 && letter(a) == letter(b))
}

/// Case is all that is removed: two bytes come out alike exactly if they are the same byte or the
/// same letter.
pub proof fn only_case_is_removed(a: u8, b: u8)
    ensures
        upper(a) == upper(b) <==> same_but_for_case(a, b),
        letter(b) < 0 ==> upper(b) == b,
        letter(b) >= 0 ==> upper(b) == 0x41 + letter(b),
{
}

/// What is shown of a byte is the character of that code, or the letter that it is; what PETSCII
/// does not show is a question mark. Two bytes that are shown alike are the same up to case.
pub proof fn shown_characters_tell_the_bytes(a: u8, b: u8)
    ensures
        0x20 <= a <= 0x5F ==> ascii_of(a) as int == a,
        a >= 0xC1 && letter(a) >= 0 ==> ascii_of(a) as int == 0x41 + letter(a),
        (a < 0x20 || a > 0x5F) && !(a >= 0xC1 && letter(a) >= 0) ==> ascii_of(a) == '?',
        ascii_of(a) == ascii_of(b) && ascii_of(a) != '?' ==> same_but_for_case(a, b),
{
}

/// A name typed in ASCII loses its small letters and nothing else.
pub proof fn typed_names_are_in_capitals(name: Seq<u8>, i: int)
    requires
        0 <= i < name.len(),
    ensures
        petscii_of(name).len() == name.len(),
        0x61 <= name[i] <= 0x7A ==> petscii_of(name)[i] == 0x41 + (name[i] - 0x61),
        !(0x61 <= name[i] <= 0x7A) ==> petscii_of(name)[i] == name[i],
{
}

/// A padded name ends where its padding begins.
pub proof fn stem_ends_at_the_padding(name: Seq<u8>, n: int)
    requires
        0 <= n <= name.len(),
        n < name.len() ==> name[n] == 0xA0,
        forall|i: int| 0 <= i < n ==> #[trigger] name[i] != 0xA0,
    ensures
        stem(name) == name.subrange(0, n),
{
    lemma_position_of_unique(name, PAD, n);
}

/// Removing the case twice is removing it once.
pub proof fn upper_is_idempotent(b: u8)
    ensures
        upper(upper(b)) == upper(b),
{
}

/// A byte and its upper case form are shown by the same letter, except for the ASCII lower case
/// letters, which PETSCII does not show.
pub proof fn upper_keeps_what_is_shown(b: u8)
    requires
        !(0x61 <= b <= 0x7A),
    ensures
        ascii_of(upper(b)) == ascii_of(b),
{
}

/// What a name typed in ASCII becomes on disk is found again whatever the case it is typed in.
pub proof fn typed_case_does_not_matter(b: u8)
    ensures
        upper(ascii_upper(b)) == upper(b),
{
}

} // verus!
