//! D64 disk images: sectors, the directory, and the files it leads to.
use vstd::prelude::*;

use crate::geometry::{
    sector_index, sector_off, sectors_before, sectors_on, sectors_per_track, valid_track, DIR_TRACK,
    IMAGE_SIZE, LAST_TRACK, SECTOR_SIZE,
};
use crate::petscii::{
    ascii_of, petscii_eq_ci, petscii_to_ascii, position, position_of, stem, upper, PAD, STAR,
};
use crate::petscii::{
    lemma_position_of, lemma_position_of_unique, only_case_is_removed, same_but_for_case,
    stem_ends_at_the_padding,
};
use crate::text::{decimal, push_decimal, push_text};

verus! {

/// What can be wrong with an image, a sector address or a file.
#[derive(Debug, Clone, Copy, PartialEq, Eq, Structural)]
pub enum D64Error {
    /// The image holds fewer bytes than 35 tracks take.
    TooSmall { size: usize },
    /// There is no such track.
    InvalidTrack { track: u8 },
    /// There is no such sector on the track.
    InvalidSector { track: u8, sector: u8 },
    /// The sector lies beyond the end of the image.
    OutOfBounds { track: u8, sector: u8 },
    /// The sectors of a file do not come to an end.
    ChainTooLong,
}

impl D64Error {
    /// The text of the error.
    pub open spec fn text(self) -> Seq<char> {
        match self {
            D64Error::TooSmall { size } => "D64 too small: "@ + decimal(size as nat)
                + " bytes (need >= 174848)"@,
            D64Error::InvalidTrack { track } => "invalid track "@ + decimal(track as nat),
            D64Error::InvalidSector { track, sector } => "invalid sector "@ + decimal(
                sector as nat,
            ) + " for track "@ + decimal(track as nat),
            D64Error::OutOfBounds { track, sector } => "sector out of bounds: t"@ + decimal(
                track as nat,
            ) + " s"@ + decimal(sector as nat),
            D64Error::ChainTooLong => "file sector chain too long (possible cycle)"@,
        }
    }

    /// The text of the error.
    pub fn message(&self) -> (r: String)
        ensures
            r@ == self.text(),
    {
        let mut r = String::new();
        match *self {
            D64Error::TooSmall { size } => {
                push_text(&mut r, "D64 too small: ");
                push_decimal(&mut r, size);
                push_text(&mut r, " bytes (need >= 174848)");
            },
            D64Error::InvalidTrack { track } => {
                push_text(&mut r, "invalid track ");
                push_decimal(&mut r, track as usize);
            },
            D64Error::InvalidSector { track, sector } => {
                push_text(&mut r, "invalid sector ");
                push_decimal(&mut r, sector as usize);
                push_text(&mut r, " for track ");
                push_decimal(&mut r, track as usize);
            },
            D64Error::OutOfBounds { track, sector } => {
                push_text(&mut r, "sector out of bounds: t");
                push_decimal(&mut r, track as usize);
                push_text(&mut r, " s");
                push_decimal(&mut r, sector as usize);
            },
            D64Error::ChainTooLong => {
                push_text(&mut r, "file sector chain too long (possible cycle)");
            },
        }
        assert(r@ =~= self.text());
        r
    }
}

/// A directory entry.
#[derive(Debug)]
pub struct DirEntry {
    /// Bit 7: closed; bit 6: locked; bits 0 to 3: the type, 2 being PRG.
    pub file_type: u8,
    /// Track of the first sector.
    pub track: u8,
    /// First sector.
    pub sector: u8,
    /// The name in PETSCII, padded with `$A0`.
    pub filename: [u8; 16],
    /// Size in sectors, as the directory has it.
    pub size_sectors: u16,
}

/// What a directory entry says.
pub struct EntryView {
    pub file_type: u8,
    pub track: u8,
    pub sector: u8,
    pub filename: Seq<u8>,
    pub size_sectors: u16,
}

impl EntryView {
    /// The file is a program.
    pub open spec fn is_prg(self) -> bool {
        self.file_type & 0x0F == 2
    }

    /// The file was closed after writing.
    pub open spec fn is_closed(self) -> bool {
        self.file_type & 0x80 != 0
    }

    /// The file is a closed program, the only kind that is loaded.
    pub open spec fn is_loadable(self) -> bool {
        self.is_prg() && self.is_closed()
    }

    /// The name without its padding.
    pub open spec fn name(self) -> Seq<u8> {
        stem(self.filename)
    }
}

impl View for DirEntry {
    type V = EntryView;

    open spec fn view(&self) -> EntryView {
        EntryView {
            file_type: self.file_type,
            track: self.track,
            sector: self.sector,
            filename: self.filename@,
            size_sectors: self.size_sectors,
        }
    }
}

impl Clone for DirEntry {
    fn clone(&self) -> (r: Self)
        ensures
            r == *self,
    {
        DirEntry {
            file_type: self.file_type,
            track: self.track,
            sector: self.sector,
            filename: self.filename,
            size_sectors: self.size_sectors,
        }
    }
}

impl DirEntry {
    /// The file is a program.
    pub fn is_prg(&self) -> (r: bool)
        ensures
            r == self@.is_prg(),
    {
        (self.file_type & 0x0F) == 2
    }

    /// The file was closed after writing.
    pub fn is_closed(&self) -> (r: bool)
        ensures
            r == self@.is_closed(),
    {
        (self.file_type & 0x80) != 0
    }

    /// The name as ASCII text, without its padding.
    pub fn name_ascii(&self) -> (s: String)
        ensures
            s@ == self@.name().map_values(|b: u8| ascii_of(b)),
    {
        let mut s = String::new();
        let n: usize = position(&self.filename, PAD);
        proof {
            lemma_position_of(self.filename@, PAD);
        }
        let mut i: usize = 0;
        while i < n
            invariant
                i <= n <= 16,
                n == position_of(self.filename@, PAD),
                s@ =~= self@.name().take(i as int).map_values(|b: u8| ascii_of(b)),
            decreases n - i,
        {
            s.push(petscii_to_ascii(self.filename[i]));
            i = i + 1;
        }
        assert(self@.name().take(n as int) =~= self@.name());
        s
    }
}

/// What a list of entries says.
pub open spec fn entry_views(s: Seq<DirEntry>) -> Seq<EntryView> {
    s.map_values(|e: DirEntry| e@)
}

/// The bytes of a sector of an image, or what is wrong with the address.
pub open spec fn sector_of(image: Seq<u8>, t: u8, s: u8) -> Result<Seq<u8>, D64Error> {
    let off = sector_index(t as int, s as int) * 256;
    if !valid_track(t as int) {
        Err(D64Error::InvalidTrack { track: t })
    } else if s >= sectors_on(t as int) {
        Err(D64Error::InvalidSector { track: t, sector: s })
    } else if off + 256 > image.len() {
        Err(D64Error::OutOfBounds { track: t, sector: s })
    } else {
        Ok(image.subrange(off, off + 256))
    }
}

/// Entry `i` of a directory sector.
pub open spec fn entry_at(sector: Seq<u8>, i: int) -> EntryView {
    EntryView {
        file_type: sector[32 * i + 2],
        track: sector[32 * i + 3],
        sector: sector[32 * i + 4],
        filename: sector.subrange(32 * i + 5, 32 * i + 21),
        size_sectors: ((sector[32 * i + 31] as u16) << 8) | sector[32 * i + 30] as u16,
    }
}

/// The used ones among the first `n` entries of a directory sector; an entry of type 0 is a
/// scratched one.
pub open spec fn entries_in(sector: Seq<u8>, n: int) -> Seq<EntryView>
    decreases n,
{
    if n <= 0 {
        Seq::empty()
    } else if entry_at(sector, n - 1).file_type & 0x0F == 0 {
        entries_in(sector, n - 1)
    } else {
        entries_in(sector, n - 1).push(entry_at(sector, n - 1))
    }
}

/// The used entries of the directory from sector `(t, s)` on, over at most `limit` sectors.
pub open spec fn entries_from(image: Seq<u8>, t: u8, s: u8, limit: nat) -> Seq<EntryView>
    decreases limit,
{
    if limit == 0 {
        Seq::empty()
    } else {
        match sector_of(image, t, s) {
            Err(_) => Seq::empty(),
            Ok(b) => entries_in(b, 8) + if b[0] == 0 {
                Seq::empty()
            } else {
                entries_from(image, b[0], b[1], (limit - 1) as nat)
            },
        }
    }
}

/// The directory of an image. It starts at track 18, sector 1; forty sectors are more than any
/// directory takes, and a chain that loops ends there.
pub open spec fn directory_of(image: Seq<u8>) -> Seq<EntryView> {
    entries_from(image, DIR_TRACK, 1, 40)
}

/// The bytes of the file whose sectors begin at `(t, s)`, over at most `limit` sectors: bytes 2
/// to 255 of every sector but the last, and of the last those up to the index in its byte 1.
pub open spec fn file_from(image: Seq<u8>, t: u8, s: u8, limit: nat) -> Result<Seq<u8>, D64Error>
    decreases limit,
{
    if limit == 0 {
        Err(D64Error::ChainTooLong)
    } else {
        match sector_of(image, t, s) {
            Err(e) => Err(e),
            Ok(b) => if b[0] == 0 {
                Ok(
                    if b[1] >= 2 {
                        b.subrange(2, b[1] + 1)
                    } else {
                        Seq::empty()
                    },
                )
            } else {
                match file_from(image, b[0], b[1], (limit - 1) as nat) {
                    Err(e) => Err(e),
                    Ok(rest) => Ok(b.subrange(2, 256) + rest),
                }
            },
        }
    }
}

/// The file that an entry leads to. No file has more sectors than the disk.
pub open spec fn file_of(image: Seq<u8>, entry: EntryView) -> Result<Seq<u8>, D64Error> {
    file_from(image, entry.track, entry.sector, 683)
}

/// A file name pattern asks for an entry: the entry is a closed program, and its name is the
/// pattern up to case, or begins with what stands before the first star. An empty pattern asks
/// for any program.
pub open spec fn asks_for(pattern: Seq<u8>, entry: EntryView) -> bool {
    let fixed = position_of(pattern, STAR);
    entry.is_loadable() && (pattern.len() == 0 || {
        &&& fixed <= entry.name().len()
        &&& forall|i: int| 0 <= i < fixed ==> upper(#[trigger] pattern[i]) == upper(entry.name()[i])
        &&& fixed < pattern.len() || fixed == entry.name().len()
    })
}

/// `found` is the first entry of `dir` that the pattern asks for, if there is one.
pub open spec fn first_asked_for(
    dir: Seq<EntryView>,
    pattern: Seq<u8>,
    found: Option<EntryView>,
) -> bool {
    match found {
        Some(e) => exists|i: int|
            0 <= i < dir.len() && #[trigger] dir[i] == e && asks_for(pattern, e) && forall|j: int|
                0 <= j < i ==> !asks_for(pattern, #[trigger] dir[j]),
        None => forall|j: int| 0 <= j < dir.len() ==> !asks_for(pattern, #[trigger] dir[j]),
    }
}

/// The first entry of `dir` that the pattern asks for, if there is one.
pub open spec fn asked_for(dir: Seq<EntryView>, pattern: Seq<u8>) -> Option<EntryView>
    decreases dir.len(),
{
    if dir.len() == 0 {
        None
    } else if asks_for(pattern, dir[0]) {
        Some(dir[0])
    } else {
        asked_for(dir.drop_first(), pattern)
    }
}

/// What is found first is what is found.
proof fn lemma_asked_for(dir: Seq<EntryView>, pattern: Seq<u8>, i: int)
    requires
        0 <= i <= dir.len(),
        forall|j: int| 0 <= j < i ==> !asks_for(pattern, #[trigger] dir[j]),
        i < dir.len() ==> asks_for(pattern, dir[i]),
    ensures
        asked_for(dir, pattern) == (if i < dir.len() {
            Some(dir[i])
        } else {
            None
        }),
    decreases dir.len(),
{
    if i > 0 {
        assert(!asks_for(pattern, dir[0]));
        assert forall|j: int| 0 <= j < i - 1 implies !asks_for(
            pattern,
            #[trigger] dir.drop_first()[j],
        ) by {
            assert(!asks_for(pattern, dir[j + 1]));
        }
        lemma_asked_for(dir.drop_first(), pattern, i - 1);
    }
}

/// A disk image.
pub struct D64 {
    data: Vec<u8>,
}

impl View for D64 {
    type V = Seq<u8>;

    closed spec fn view(&self) -> Seq<u8> {
        self.data@
    }
}

impl Clone for D64 {
    fn clone(&self) -> (r: Self)
        ensures
            r@ == self@,
    {
        let mut data: Vec<u8> = Vec::new();
        data.extend_from_slice(self.data.as_slice());
        assert(data@ =~= self.data@);
        D64 { data }
    }
}

impl D64 {
    /// The image holds all the tracks that the drive uses.
    pub open spec fn wf(&self) -> bool {
        self@.len() >= IMAGE_SIZE
    }

    /// Takes the bytes of an image file.
    pub fn from_bytes(data: Vec<u8>) -> (r: Result<Self, D64Error>)
        ensures
            match r {
                Ok(d) => data@.len() >= IMAGE_SIZE && d@ == data@ && d.wf(),
                Err(e) => data@.len() < IMAGE_SIZE && e == (D64Error::TooSmall {
                    size: data@.len() as usize,
                }),
            },
    {
        if data.len() < IMAGE_SIZE {
            return Err(D64Error::TooSmall { size: data.len() });
        }
        Ok(D64 { data })
    }

    /// The offset of a sector.
    pub fn sector_offset(&self, track: u8, sector: u8) -> (r: Result<usize, D64Error>)
        ensures
            match r {
                Ok(off) => valid_track(track as int) && sector < sectors_on(track as int) && off
                    == sector_index(track as int, sector as int) * 256,
                Err(e) => if valid_track(track as int) {
                    sector >= sectors_on(track as int) && e == (D64Error::InvalidSector {
                        track,
                        sector,
                    })
                } else {
                    e == (D64Error::InvalidTrack { track })
                },
            },
    {
        if track == 0 || track > LAST_TRACK {
            return Err(D64Error::InvalidTrack { track });
        }
        if sector >= sectors_per_track(track) {
            return Err(D64Error::InvalidSector { track, sector });
        }
        Ok(sector_off(track, sector))
    }

    /// The 256 bytes of a sector.
    pub fn sector(&self, track: u8, sector: u8) -> (r: Result<&[u8], D64Error>)
        ensures
            match r {
                Ok(b) => b@.len() == 256 && sector_of(self@, track, sector) == Ok::<
                    Seq<u8>,
                    D64Error,
                >(b@),
                Err(e) => sector_of(self@, track, sector) == Err::<Seq<u8>, D64Error>(e),
            },
    {
        match self.sector_offset(track, sector) {
            Err(e) => Err(e),
            Ok(off) => {
                proof {
                    crate::geometry::lemma_sectors_before(track as int);
                }
                if off + SECTOR_SIZE > self.data.len() {
                    return Err(D64Error::OutOfBounds { track, sector });
                }
                Ok(vstd::slice::slice_subrange(self.data.as_slice(), off, off + SECTOR_SIZE))
            },
        }
    }

    /// The used entries of the directory, in order.
    pub fn directory(&self) -> (entries: Vec<DirEntry>)
        ensures
            entry_views(entries@) == directory_of(self@),
    {
        let mut entries: Vec<DirEntry> = Vec::new();
        let mut track: u8 = DIR_TRACK;
        let mut sector: u8 = 1;
        let mut k: usize = 0;
        while k < 40
            invariant
                k <= 40,
                entry_views(entries@) + entries_from(self@, track, sector, (40 - k) as nat)
                    == directory_of(self@),
            decreases 40 - k,
        {
            let s = match self.sector(track, sector) {
                Ok(s) => s,
                Err(_) => {
                    assert(entry_views(entries@) =~= directory_of(self@));
                    return entries;
                },
            };
            let ghost before = entry_views(entries@);
            let mut i: usize = 0;
            while i < 8
                invariant
                    i <= 8,
                    s@.len() == 256,
                    entry_views(entries@) == before + entries_in(s@, i as int),
                decreases 8 - i,
            {
                let ghost so_far = entries@;
                let off: usize = i * 32;
                let ft: u8 = s[off + 2];
                if (ft & 0x0F) != 0 {
                    let mut fname: [u8; 16] = [0u8; 16];
                    let mut j: usize = 0;
                    while j < 16
                        invariant
                            j <= 16,
                            off == i * 32,
                            i < 8,
                            s@.len() == 256,
                            forall|m: int| 0 <= m < j ==> #[trigger] fname@[m] == s@[off + 5 + m],
                        decreases 16 - j,
                    {
                        fname[j] = s[off + 5 + j];
                        j = j + 1;
                    }
                    entries.push(
                        DirEntry {
                            file_type: ft,
                            track: s[off + 3],
                            sector: s[off + 4],
                            filename: fname,
                            size_sectors: ((s[off + 0x1F] as u16) << 8) | (s[off + 0x1E] as u16),
                        },
                    );
                    assert(fname@ =~= entry_at(s@, i as int).filename);
                    assert(entry_views(entries@) =~= entry_views(so_far).push(
                        entry_at(s@, i as int),
                    ));
                }
                i = i + 1;
                assert(entry_views(entries@) =~= before + entries_in(s@, i as int));
            }
            let next_t: u8 = s[0];
            let next_s: u8 = s[1];
            if next_t == 0 {
                assert(entry_views(entries@) =~= directory_of(self@));
                return entries;
            }
            assert(entry_views(entries@) + entries_from(self@, next_t, next_s, (39 - k) as nat)
                =~= directory_of(self@));
            track = next_t;
            sector = next_s;
            k = k + 1;
        }
        assert(entry_views(entries@) =~= directory_of(self@));
        entries
    }

    /// The bytes of a file, the load address in front among them.
    pub fn read_file(&self, entry: &DirEntry) -> (r: Result<Vec<u8>, D64Error>)
        ensures
            match r {
                Ok(bytes) => file_of(self@, entry@) == Ok::<Seq<u8>, D64Error>(bytes@),
                Err(e) => file_of(self@, entry@) == Err::<Seq<u8>, D64Error>(e),
            },
    {
        let mut bytes: Vec<u8> = Vec::new();
        let mut track: u8 = entry.track;
        let mut sector: u8 = entry.sector;
        let mut k: usize = 0;
        while k < 683
            invariant
                k <= 683,
                file_of(self@, entry@) == prefixed(
                    bytes@,
                    file_from(self@, track, sector, (683 - k) as nat),
                ),
            decreases 683 - k,
        {
            let s = match self.sector(track, sector) {
                Ok(s) => s,
                Err(e) => {
                    return Err(e);
                },
            };
            let next_t: u8 = s[0];
            let next_s: u8 = s[1];
            let ghost before = bytes@;
            if next_t == 0 {
                let last: usize = next_s as usize;
                if last >= 2 {
                    bytes.extend_from_slice(vstd::slice::slice_subrange(s, 2, last + 1));
                    assert(bytes@ =~= before + s@.subrange(2, last + 1));
                } else {
                    assert(bytes@ =~= before + Seq::<u8>::empty());
                }
                return Ok(bytes);
            }
            bytes.extend_from_slice(vstd::slice::slice_subrange(s, 2, 256));
            proof {
                let rest = file_from(self@, next_t, next_s, (682 - k) as nat);
                assert(bytes@ =~= before + s@.subrange(2, 256));
                if let Ok(r) = rest {
                    assert(before + (s@.subrange(2, 256) + r) =~= bytes@ + r);
                }
            }
            track = next_t;
            sector = next_s;
            k = k + 1;
        }
        Err(D64Error::ChainTooLong)
    }

    /// The first entry that a file name pattern asks for.
    pub fn find_file(&self, name: &[u8]) -> (found: Option<DirEntry>)
        ensures
            first_asked_for(
                directory_of(self@),
                name@,
                match found {
                    Some(e) => Some(e@),
                    None => None,
                },
            ),
            asked_for(directory_of(self@), name@) == (match found {
                Some(e) => Some(e@),
                None => None,
            }),
    {
        let mut dir = self.directory();
        let fixed: usize = position(name, STAR);
        let mut i: usize = 0;
        proof {
            lemma_position_of(name@, STAR);
        }
        while i < dir.len()
            invariant
                entry_views(dir@) == directory_of(self@),
                fixed == position_of(name@, STAR),
                fixed <= name@.len(),
                i <= dir@.len(),
                forall|j: int|
                    0 <= j < i ==> !asks_for(name@, #[trigger] directory_of(self@)[j]),
            decreases dir@.len() - i,
        {
            assert(directory_of(self@)[i as int] == dir@[i as int]@);
            if pattern_asks_for(name, fixed, &dir[i]) {
                let entry = dir.swap_remove(i);
                assert(entry@ == directory_of(self@)[i as int]);
                proof {
                    lemma_asked_for(directory_of(self@), name@, i as int);
                }
                return Some(entry);
            }
            i = i + 1;
        }
        proof {
            lemma_asked_for(directory_of(self@), name@, i as int);
        }
        None
    }
}

/// `bytes` in front of what `rest` holds; an error stays what it is.
spec fn prefixed(bytes: Seq<u8>, rest: Result<Seq<u8>, D64Error>) -> Result<Seq<u8>, D64Error> {
    match rest {
        Ok(r) => Ok(bytes + r),
        Err(e) => Err(e),
    }
}

/// Whether a pattern asks for an entry; `fixed` is the number of bytes before the first star.
fn pattern_asks_for(name: &[u8], fixed: usize, entry: &DirEntry) -> (r: bool)
    requires
        fixed == position_of(name@, STAR),
        fixed <= name@.len(),
    ensures
        r == asks_for(name@, entry@),
{
    if !entry.is_prg() || !entry.is_closed() {
        return false;
    }
    if name.len() == 0 {
        return true;
    }
    let len: usize = position(&entry.filename, PAD);
    proof {
        lemma_position_of(entry.filename@, PAD);
    }
    if fixed > len {
        return false;
    }
    let mut i: usize = 0;
    while i < fixed
        invariant
            i <= fixed <= len <= 16,
            fixed == position_of(name@, STAR),
            fixed <= name@.len(),
            name@.len() > 0,
            len == position_of(entry.filename@, PAD),
            forall|k: int|
                0 <= k < i ==> upper(#[trigger] name@[k]) == upper(entry@.name()[k]),
        decreases fixed - i,
    {
        if !petscii_eq_ci(name[i], entry.filename[i]) {
            assert(upper(name@[i as int]) != upper(entry@.name()[i as int]));
            return false;
        }
        i = i + 1;
    }
    fixed < name.len() || fixed == len
}

/// A sector is the 256 bytes that follow the sectors in front of it. It can be read exactly if its
/// track is one of 1 to 40, it lies on the track, and the image reaches that far; otherwise the
/// error tells the first of these that does not hold.
pub proof fn sector_is_its_place_in_the_image(image: Seq<u8>, t: u8, s: u8, i: int)
    requires
        0 <= i < 256,
    ensures
        match sector_of(image, t, s) {
            Ok(b) => {
                let at = 256 * (sectors_before(t as int) + s);
                &&& 1 <= t <= 40 && s < sectors_on(t as int) && at + 256 <= image.len()
                &&& b.len() == 256
                &&& b[i] == image[at + i]
            },
            Err(D64Error::InvalidTrack { track }) => track == t && !(1 <= t <= 40),
            Err(D64Error::InvalidSector { track, sector }) => track == t && sector == s && 1 <= t
                <= 40 && s >= sectors_on(t as int),
            Err(D64Error::OutOfBounds { track, sector }) => track == t && sector == s && 1 <= t
                <= 40 && s < sectors_on(t as int) && 256 * (sectors_before(t as int) + s) + 256
                > image.len(),
            Err(_) => false,
        },
{
    if 1 <= t <= 40 {
        crate::geometry::lemma_sectors_before(t as int);
    }
}

/// The sectors of an image that `c` names can all be read, and each leads to the next one by its
/// first two bytes.
pub open spec fn linked(image: Seq<u8>, c: Seq<(u8, u8)>) -> bool {
    &&& forall|i: int|
        0 <= i < c.len() ==> (#[trigger] sector_of(image, c[i].0, c[i].1)) is Ok
    &&& forall|i: int|
        0 <= i < c.len() - 1 ==> {
            let b = (#[trigger] sector_of(image, c[i].0, c[i].1))->Ok_0;
            b[0] != 0 && b[0] == c[i + 1].0 && b[1] == c[i + 1].1
        }
}

/// The bytes of sector `i` of a chain.
pub open spec fn link(image: Seq<u8>, c: Seq<(u8, u8)>, i: int) -> Seq<u8> {
    sector_of(image, c[i].0, c[i].1)->Ok_0
}

/// A slot of a directory holds an entry.
pub open spec fn slot_in_use(e: EntryView) -> bool {
    e.file_type & 0x0F != 0
}

/// A sector that can be read has 256 bytes.
proof fn lemma_sector_size(image: Seq<u8>, t: u8, s: u8)
    requires
        sector_of(image, t, s) is Ok,
    ensures
        sector_of(image, t, s)->Ok_0.len() == 256,
{
    crate::geometry::lemma_sectors_before(t as int);
}

/// A directory sector's used entries are its eight slots without the unused ones.
proof fn lemma_entries_in(b: Seq<u8>, n: int)
    requires
        0 <= n <= 8,
    ensures
        entries_in(b, n) == Seq::new(n as nat, |j: int| entry_at(b, j)).filter(
            |e: EntryView| slot_in_use(e),
        ),
    decreases n,
{
    reveal(Seq::filter);
    let slots = Seq::new(n as nat, |j: int| entry_at(b, j));
    if n > 0 {
        lemma_entries_in(b, n - 1);
        assert(slots.drop_last() =~= Seq::new((n - 1) as nat, |j: int| entry_at(b, j)));
    }
}

/// Where a chain can go no further there is nothing more of a directory, and an error for a file.
proof fn lemma_end_of_chain(image: Seq<u8>, t: u8, s: u8, limit: nat)
    ensures
        limit == 0 || sector_of(image, t, s) is Err ==> entries_from(image, t, s, limit)
            == Seq::<EntryView>::empty(),
        limit == 0 ==> file_from(image, t, s, limit) == Err::<Seq<u8>, D64Error>(
            D64Error::ChainTooLong,
        ),
        limit > 0 && sector_of(image, t, s) is Err ==> file_from(image, t, s, limit) == sector_of(
            image,
            t,
            s,
        ),
{
}

/// The directory from sector `k` of a chain on.
proof fn lemma_entries_from(image: Seq<u8>, c: Seq<(u8, u8)>, slots: Seq<EntryView>, k: int)
    requires
        linked(image, c),
        0 <= k < c.len() <= 40,
        slots.len() == 8 * c.len(),
        forall|i: int|
            0 <= i < slots.len() ==> #[trigger] slots[i] == entry_at(link(image, c, i / 8), i % 8),
        c.len() == 40 || link(image, c, c.len() - 1)[0] == 0 || sector_of(
            image,
            link(image, c, c.len() - 1)[0],
            link(image, c, c.len() - 1)[1],
        ) is Err,
    ensures
        entries_from(image, c[k].0, c[k].1, (40 - k) as nat) == slots.skip(8 * k).filter(
            |e: EntryView| slot_in_use(e),
        ),
    decreases c.len() - k,
{
    let used = |e: EntryView| slot_in_use(e);
    let b = link(image, c, k);
    assert(sector_of(image, c[k].0, c[k].1) is Ok);
    lemma_entries_in(b, 8);
    let here = Seq::new(8, |j: int| entry_at(b, j));
    let rest = slots.skip(8 * (k + 1));
    assert(slots.skip(8 * k) =~= here + rest) by {
        assert forall|q: int| 8 * k <= q < 8 * k + 8 implies #[trigger] slots[q] == entry_at(
            b,
            q - 8 * k,
        ) by {
            assert(q / 8 == k && q % 8 == q - 8 * k);
        }
    }
    Seq::filter_distributes_over_add(here, rest, used);
    if k + 1 < c.len() {
        lemma_entries_from(image, c, slots, k + 1);
    } else {
        reveal(Seq::filter);
        assert(rest =~= Seq::empty());
        lemma_end_of_chain(image, b[0], b[1], (39 - k) as nat);
        assert(entries_from(image, c[k].0, c[k].1, (40 - k) as nat) =~= entries_in(b, 8));
        assert(here.filter(used) + rest.filter(used) =~= here.filter(used));
    }
}

/// The directory holds every used slot of every sector that is reached from track 18, sector 1,
/// along the links, slot after slot and sector after sector, and nothing else. The chain ends at a
/// link of 0, at a link to a sector that cannot be read, or after forty sectors.
pub proof fn directory_follows_the_links(
    image: Seq<u8>,
    c: Seq<(u8, u8)>,
    slots: Seq<EntryView>,
)
    requires
        linked(image, c),
        1 <= c.len() <= 40,
        c[0] == (18u8, 1u8),
        c.len() == 40 || link(image, c, c.len() - 1)[0] == 0 || sector_of(
            image,
            link(image, c, c.len() - 1)[0],
            link(image, c, c.len() - 1)[1],
        ) is Err,
        slots.len() == 8 * c.len(),
        forall|i: int|
            0 <= i < slots.len() ==> {
                let e = #[trigger] slots[i];
                let b = link(image, c, i / 8);
                let at = 32 * (i % 8);
                &&& e.file_type == b[at + 2]
                &&& e.track == b[at + 3]
                &&& e.sector == b[at + 4]
                &&& e.filename == b.subrange(at + 5, at + 21)
                &&& e.size_sectors == b[at + 30] + 256 * b[at + 31]
            },
    ensures
        directory_of(image) == slots.filter(|e: EntryView| e.file_type & 0x0F != 0),
{
    assert forall|i: int| 0 <= i < slots.len() implies #[trigger] slots[i] == entry_at(
        link(image, c, i / 8),
        i % 8,
    ) by {
        let b = link(image, c, i / 8);
        let at = 32 * (i % 8);
        crate::via::word_is_both_bytes(b[at + 31], b[at + 30]);
        assert(slots[i].filename == entry_at(b, i % 8).filename);
    }
    lemma_entries_from(image, c, slots, 0);
    assert(slots.skip(0) =~= slots);
    assert((|e: EntryView| slot_in_use(e)) =~= (|e: EntryView| e.file_type & 0x0F != 0));
}

/// What of a file lies in sector `k` of its chain and behind it.
proof fn lemma_file_from_chain(image: Seq<u8>, c: Seq<(u8, u8)>, f: Seq<u8>, k: int)
    requires
        linked(image, c),
        0 <= k < c.len() <= 683,
        link(image, c, c.len() - 1)[0] == 0,
        f.len() == 254 * (c.len() - 1) + if link(image, c, c.len() - 1)[1] >= 2 {
            link(image, c, c.len() - 1)[1] - 1
        } else {
            0
        },
        forall|p: int|
            0 <= p < f.len() ==> #[trigger] f[p] == link(image, c, p / 254)[2 + p % 254],
    ensures
        file_from(image, c[k].0, c[k].1, (683 - k) as nat) == Ok::<Seq<u8>, D64Error>(
            f.skip(254 * k),
        ),
    decreases c.len() - k,
{
    let b = link(image, c, k);
    assert(sector_of(image, c[k].0, c[k].1) is Ok);
    lemma_sector_size(image, c[k].0, c[k].1);
    assert forall|q: int| 254 * k <= q < 254 * k + 254 && q < f.len() implies #[trigger] f[q] == b[2
        + q - 254 * k] by {
        assert(q / 254 == k && q % 254 == q - 254 * k);
    }
    if k + 1 < c.len() {
        lemma_file_from_chain(image, c, f, k + 1);
        assert(b.subrange(2, 256) + f.skip(254 * (k + 1)) =~= f.skip(254 * k));
    } else if b[1] >= 2 {
        assert(b.subrange(2, b[1] + 1) =~= f.skip(254 * k));
    } else {
        assert(f.skip(254 * k) =~= Seq::empty());
    }
}

/// A file is what its sectors carry behind their links: 254 bytes of every sector but the last, and
/// of the last those up to the place that its second byte names.
pub proof fn file_is_what_its_sectors_carry(
    image: Seq<u8>,
    entry: EntryView,
    c: Seq<(u8, u8)>,
    p: int,
)
    requires
        linked(image, c),
        1 <= c.len() <= 683,
        c[0] == (entry.track, entry.sector),
        link(image, c, c.len() - 1)[0] == 0,
    ensures
        file_of(image, entry) matches Ok(f) && {
            let last = link(image, c, c.len() - 1)[1];
            &&& f.len() == 254 * (c.len() - 1) + if last >= 2 {
                last - 1
            } else {
                0
            }
            &&& 0 <= p < f.len() ==> f[p] == link(image, c, p / 254)[2 + p % 254]
        },
{
    let last = link(image, c, c.len() - 1)[1];
    let f = Seq::new(
        (254 * (c.len() - 1) + if last >= 2 {
            last - 1
        } else {
            0
        }) as nat,
        |q: int| link(image, c, q / 254)[2 + q % 254],
    );
    lemma_file_from_chain(image, c, f, 0);
    assert(f.skip(0) =~= f);
}

/// What comes of a chain that is broken off, from its sector `k` on.
proof fn lemma_broken_chain(image: Seq<u8>, c: Seq<(u8, u8)>, e: D64Error, k: int)
    requires
        linked(image, c),
        0 <= k < c.len() <= 683,
        ({
            let b = link(image, c, c.len() - 1);
            &&& b[0] != 0
            &&& c.len() < 683 ==> sector_of(image, b[0], b[1]) == Err::<Seq<u8>, D64Error>(e)
            &&& c.len() == 683 ==> e == D64Error::ChainTooLong
        }),
    ensures
        file_from(image, c[k].0, c[k].1, (683 - k) as nat) == Err::<Seq<u8>, D64Error>(e),
    decreases c.len() - k,
{
    assert(sector_of(image, c[k].0, c[k].1) is Ok);
    if k + 1 < c.len() {
        lemma_broken_chain(image, c, e, k + 1);
    } else {
        let b = link(image, c, k);
        lemma_end_of_chain(image, b[0], b[1], (682 - k) as nat);
    }
}

/// A file whose sectors lead to one that cannot be read is not read at all, and the error is that
/// of the sector; one whose sectors lead on after as many as the disk has is an endless one.
pub proof fn broken_file_is_an_error(
    image: Seq<u8>,
    entry: EntryView,
    c: Seq<(u8, u8)>,
    e: D64Error,
)
    requires
        linked(image, c),
        1 <= c.len() <= 683,
        c[0] == (entry.track, entry.sector),
        ({
            let b = link(image, c, c.len() - 1);
            &&& b[0] != 0
            &&& c.len() < 683 ==> sector_of(image, b[0], b[1]) == Err::<Seq<u8>, D64Error>(e)
            &&& c.len() == 683 ==> e == D64Error::ChainTooLong
        }),
    ensures
        file_of(image, entry) == Err::<Seq<u8>, D64Error>(e),
{
    lemma_broken_chain(image, c, e, 0);
}

/// A file whose first sector cannot be read is not read.
pub proof fn unreadable_file_is_an_error(image: Seq<u8>, entry: EntryView)
    requires
        sector_of(image, entry.track, entry.sector) is Err,
    ensures
        file_of(image, entry) == sector_of(image, entry.track, entry.sector),
{
}

/// The type of an entry is in its low four bits, and bit 7 says that it was closed.
pub proof fn low_bits_of_the_type(entry: EntryView)
    ensures
        entry.file_type & 0x0F == entry.file_type % 16,
        entry.file_type & 0x80 != 0 <==> entry.file_type >= 128,
{
    let t = entry.file_type;
    assert(t & 0x0F == t % 16 && (t & 0x80 != 0 <==> t >= 128)) by (bit_vector);
}

/// Only closed programs are asked for: bit 7 of the type says closed, the low four bits say program
/// by a 2.
pub proof fn only_closed_programs_are_asked_for(pattern: Seq<u8>, entry: EntryView)
    ensures
        entry.is_prg() <==> entry.file_type % 16 == 2,
        entry.is_closed() <==> entry.file_type >= 128,
        asks_for(pattern, entry) ==> entry.file_type % 16 == 2 && entry.file_type >= 128,
        pattern.len() == 0 ==> (asks_for(pattern, entry) <==> entry.file_type % 16 == 2
            && entry.file_type >= 128),
{
    low_bits_of_the_type(entry);
}

/// A pattern without a star asks for a closed program exactly if the whole name is the pattern up to
/// case; one with a star, exactly if the whole part before the first star is what the name begins
/// with up to case. Here `n` is the length of the name and `star` that of the part before the star.
pub proof fn whole_name_is_compared(pattern: Seq<u8>, entry: EntryView, n: int, star: int)
    requires
        pattern.len() > 0,
        entry.filename.len() == 16,
        0 <= n <= 16,
        n < 16 ==> entry.filename[n] == 0xA0,
        forall|i: int| 0 <= i < n ==> #[trigger] entry.filename[i] != 0xA0,
        0 <= star <= pattern.len(),
        star < pattern.len() ==> pattern[star] == 0x2A,
        forall|i: int| 0 <= i < star ==> #[trigger] pattern[i] != 0x2A,
    ensures
        asks_for(pattern, entry) <==> {
            &&& entry.file_type % 16 == 2 && entry.file_type >= 128
            &&& star <= n
            &&& star == pattern.len() ==> star == n
            &&& forall|i: int|
                0 <= i < star ==> same_but_for_case(#[trigger] pattern[i], entry.filename[i])
        },
{
    only_closed_programs_are_asked_for(pattern, entry);
    lemma_position_of_unique(pattern, STAR, star);
    stem_ends_at_the_padding(entry.filename, n);
    assert forall|i: int| 0 <= i < star && star <= n implies (upper(#[trigger] pattern[i]) == upper(
        entry.name()[i],
    ) <==> same_but_for_case(pattern[i], entry.filename[i])) by {
        only_case_is_removed(pattern[i], entry.filename[i]);
    }
}

/// Two names that differ anywhere by more than case do not ask for each other, however long they are
/// alike before.
pub proof fn names_that_differ_are_told_apart(pattern: Seq<u8>, entry: EntryView, i: int)
    requires
        forall|k: int| 0 <= k < pattern.len() ==> #[trigger] pattern[k] != 0x2A,
        entry.filename.len() == 16,
        0 <= i < pattern.len(),
        i >= entry.name().len() || !same_but_for_case(pattern[i], entry.name()[i]),
    ensures
        !asks_for(pattern, entry),
{
    lemma_position_of(entry.filename, PAD);
    let n = position_of(entry.filename, PAD);
    whole_name_is_compared(pattern, entry, n, pattern.len() as int);
    stem_ends_at_the_padding(entry.filename, n);
}

/// The entry that is found is in the directory, is asked for, and none before it is; where none is
/// found, none is asked for.
pub proof fn first_entry_asked_for_is_found(dir: Seq<EntryView>, pattern: Seq<u8>)
    ensures
        match asked_for(dir, pattern) {
            Some(e) => exists|i: int|
                0 <= i < dir.len() && #[trigger] dir[i] == e && asks_for(pattern, e) && forall|j: int|
                    0 <= j < i ==> !asks_for(pattern, #[trigger] dir[j]),
            None => forall|j: int| 0 <= j < dir.len() ==> !asks_for(pattern, #[trigger] dir[j]),
        },
    decreases dir.len(),
{
    if dir.len() > 0 && !asks_for(pattern, dir[0]) {
        let rest = dir.drop_first();
        first_entry_asked_for_is_found(rest, pattern);
        if let Some(e) = asked_for(rest, pattern) {
            let i = choose|i: int|
                0 <= i < rest.len() && #[trigger] rest[i] == e && asks_for(pattern, e) && forall|
                    j: int,
                |
                    0 <= j < i ==> !asks_for(pattern, #[trigger] rest[j]);
            assert(dir[i + 1] == e);
            assert forall|j: int| 0 <= j < i + 1 implies !asks_for(pattern, #[trigger] dir[j]) by {
                if j > 0 {
                    assert(rest[j - 1] == dir[j]);
                }
            }
        } else {
            assert forall|j: int| 0 <= j < dir.len() implies !asks_for(
                pattern,
                #[trigger] dir[j],
            ) by {
                if j > 0 {
                    assert(rest[j - 1] == dir[j]);
                }
            }
        }
    } else if dir.len() > 0 {
        assert(dir[0] == asked_for(dir, pattern)->Some_0);
    }
}

/// The texts of the errors name what is wrong.
pub proof fn errors_name_what_is_wrong(size: usize, track: u8, sector: u8)
    ensures
        (D64Error::TooSmall { size }).text() == "D64 too small: "@ + decimal(size as nat)
            + " bytes (need >= 174848)"@,
        (D64Error::InvalidTrack { track }).text() == "invalid track "@ + decimal(track as nat),
        (D64Error::InvalidSector { track, sector }).text() == "invalid sector "@ + decimal(
            sector as nat,
        ) + " for track "@ + decimal(track as nat),
        (D64Error::OutOfBounds { track, sector }).text() == "sector out of bounds: t"@ + decimal(
            track as nat,
        ) + " s"@ + decimal(sector as nat),
        D64Error::ChainTooLong.text() == "file sector chain too long (possible cycle)"@,
{
}

} // verus!
