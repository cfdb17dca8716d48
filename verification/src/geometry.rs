//! The layout of a 1541 disk: how many sectors each track holds and where each sector lies in
//! an image file.
use vstd::prelude::*;

verus! {

/// Bytes in a sector.
pub const SECTOR_SIZE: usize = 256;

/// The track that holds the block availability map and the directory.
pub const DIR_TRACK: u8 = 18;

/// The highest track that an image can hold; the drive itself uses tracks 1 to 35.
pub const LAST_TRACK: u8 = 40;

/// The smallest image: 35 tracks, 683 sectors.
pub const IMAGE_SIZE: usize = 174848;

/// Sectors on tracks before each track.
pub const SECTORS_BEFORE: [u16; 41] = [
    0, 0, 21, 42, 63, 84, 105, 126, 147, 168, 189, 210, 231, 252, 273, 294, 315, 336, 357, 376, 395,
    414, 433, 452, 471, 490, 508, 526, 544, 562, 580, 598, 615, 632, 649, 666, 683, 700, 717, 734,
    751,
];

/// Sectors on each track.
pub const SECTORS_PER_TRACK: [u8; 41] = [
    0, 21, 21, 21, 21, 21, 21, 21, 21, 21, 21, 21, 21, 21, 21, 21, 21, 21, 19, 19, 19, 19, 19, 19,
    19, 18, 18, 18, 18, 18, 18, 17, 17, 17, 17, 17, 17, 17, 17, 17, 17,
];

/// How many sectors track `t` holds: the outer zones hold more.
pub open spec fn sectors_on(t: int) -> int {
    if t < 1 {
        0
    } else if t <= 17 {
        21
    } else if t <= 24 {
        19
    } else if t <= 30 {
        18
    } else {
        17
    }
}

/// How many sectors the tracks before `t` hold together.
pub open spec fn sectors_before(t: int) -> int
    decreases t,
{
    if t <= 1 {
        0
    } else {
        sectors_before(t - 1) + sectors_on(t - 1)
    }
}

/// The number of sectors before track `t`, zone by zone.
pub proof fn lemma_sectors_before(t: int)
    requires
        1 <= t <= 41,
    ensures
        t <= 18 ==> sectors_before(t) == 21 * (t - 1),
        18 <= t <= 25 ==> sectors_before(t) == 357 + 19 * (t - 18),
        25 <= t <= 31 ==> sectors_before(t) == 490 + 18 * (t - 25),
        31 <= t ==> sectors_before(t) == 598 + 17 * (t - 31),
    decreases t,
{
    if t > 1 {
        lemma_sectors_before(t - 1);
    }
}

/// The tracks an image can hold.
pub open spec fn valid_track(t: int) -> bool {
    1 <= t <= LAST_TRACK
}

/// A sector that exists on its track.
pub open spec fn valid_sector(t: int, s: int) -> bool {
    valid_track(t) && 0 <= s < sectors_on(t)
}

/// The number of a sector, counted from the first sector of track 1.
pub open spec fn sector_index(t: int, s: int) -> int {
    sectors_before(t) + s
}

/// The number of sectors on a track.
pub fn sectors_per_track(t: u8) -> (n: u8)
    requires
        t <= LAST_TRACK,
    ensures
        n == sectors_on(t as int),
{
    SECTORS_PER_TRACK[t as usize]
}

/// The offset of a sector in an image.
pub fn sector_off(track: u8, sector: u8) -> (off: usize)
    requires
        track <= LAST_TRACK,
    ensures
        off == sector_index(track as int, sector as int) * 256,
{
    proof {
        if track > 0 {
            lemma_sectors_before(track as int);
        }
    }
    (SECTORS_BEFORE[track as usize] as usize + sector as usize) * SECTOR_SIZE
}

/// Sectors do not overlap: two different sectors have different numbers.
pub proof fn sectors_are_distinct(t1: int, s1: int, t2: int, s2: int)
    requires
        valid_sector(t1, s1),
        valid_sector(t2, s2),
        sector_index(t1, s1) == sector_index(t2, s2),
    ensures
        t1 == t2,
        s1 == s2,
{
    lemma_sectors_before(t1);
    lemma_sectors_before(t2);
    lemma_sectors_before(t1 + 1);
    lemma_sectors_before(t2 + 1);
}

/// The sectors of tracks 1 to 35 fill an image of the smallest size exactly.
pub proof fn drive_tracks_fill_the_image(t: int, s: int)
    requires
        valid_sector(t, s),
    ensures
        sector_index(36, 0) * 256 == IMAGE_SIZE,
        0 <= sector_index(t, s),
        t <= 35 <==> (sector_index(t, s) + 1) * 256 <= IMAGE_SIZE,
{
    lemma_sectors_before(36);
    lemma_sectors_before(t);
    lemma_sectors_before(t + 1);
}

/// The sector with number `n`, as track and sector.
pub open spec fn sector_at(n: int) -> (int, int) {
    if n < 357 {
        (1 + n / 21, n % 21)
    } else if n < 490 {
        (18 + (n - 357) / 19, (n - 357) % 19)
    } else if n < 598 {
        (25 + (n - 490) / 18, (n - 490) % 18)
    } else {
        (31 + (n - 598) / 17, (n - 598) % 17)
    }
}

/// Every number below 768 is the number of exactly one sector.
pub proof fn every_number_is_a_sector(n: int)
    requires
        0 <= n < 768,
    ensures
        valid_sector(sector_at(n).0, sector_at(n).1),
        sector_index(sector_at(n).0, sector_at(n).1) == n,
{
    lemma_sectors_before(sector_at(n).0);
}

} // verus!
