//! Builds a disk image that holds one program.
use vstd::prelude::*;

use crate::d64::{
    asks_for, directory_of, entries_from, entries_in, entry_at, file_from, file_of, sector_of,
    D64Error, EntryView,
};
use crate::geometry::{
    every_number_is_a_sector, lemma_sectors_before, sector_at, sector_index, sector_off,
    sectors_before, sectors_on, sectors_per_track, valid_sector, DIR_TRACK, IMAGE_SIZE,
    SECTOR_SIZE,
};
use crate::petscii::{
    ascii_to_petscii, lemma_position_of, lemma_position_of_unique, petscii_of, position_of, upper,
    PAD, STAR,
};

verus! {

/// Bytes of a file that one sector carries; two more link it to the next sector.
pub const PAYLOAD: usize = 254;

/// The most sectors that a program can take.
pub const MAX_SECTORS: usize = 327;

/// The name of the disk, in PETSCII.
pub const DISK_NAME: [u8; 11] = [
    0x52, 0x55, 0x53, 0x54, 0x36, 0x34, 0x20, 0x54, 0x45, 0x53, 0x54,
];

/// A block as a whole sector: cut at 256 bytes, filled up with zeros.
pub open spec fn padded(data: Seq<u8>) -> Seq<u8> {
    Seq::new(
        256,
        |i: int|
            if i < data.len() {
                data[i]
            } else {
                0u8
            },
    )
}

/// An image with the 256 bytes from `off` on replaced.
pub open spec fn placed(image: Seq<u8>, off: int, block: Seq<u8>) -> Seq<u8> {
    Seq::new(
        image.len(),
        |p: int|
            if off <= p < off + 256 {
                block[p - off]
            } else {
                image[p]
            },
    )
}

/// Writes a sector: the data, then zeros to the end of the sector.
pub fn put_sector(image: &mut [u8], track: u8, sector: u8, data: &[u8])
    requires
        track <= 35,
        (sector_index(track as int, sector as int) + 1) * 256 <= old(image)@.len(),
    ensures
        final(image)@ == placed(
            old(image)@,
            sector_index(track as int, sector as int) * 256,
            padded(data@),
        ),
{
    let off: usize = sector_off(track, sector);
    let len: usize = image.len();
    let mut i: usize = 0;
    while i < SECTOR_SIZE
        invariant
            i <= 256,
            off + 256 <= len,
            image@.len() == len,
            image@.len() == old(image)@.len(),
            forall|p: int|
                0 <= p < image@.len() ==> #[trigger] image@[p] == if off <= p < off + i {
                    padded(data@)[p - off]
                } else {
                    old(image)@[p]
                },
        decreases 256 - i,
    {
        let b: u8 = if i < data.len() {
            data[i]
        } else {
            0
        };
        image[off + i] = b;
        i = i + 1;
    }
    assert(image@ =~= placed(old(image)@, off as int, padded(data@)));
}

/// How many sectors `len` bytes take.
pub open spec fn sectors_needed(len: int) -> int {
    (len + 253) / 254
}

/// The number of the sector that the `i`-th part of the program goes to: from track 17 on, in
/// order, the directory track left out.
pub open spec fn chain_index(i: int) -> int {
    if i < 21 {
        336 + i
    } else {
        355 + i
    }
}

/// The sector that the `i`-th part of the program goes to.
pub open spec fn chain_sector(i: int) -> (int, int) {
    sector_at(chain_index(i))
}

/// The chain stays on the tracks that the drive uses and keeps off the directory track.
proof fn lemma_chain_sector(i: int)
    requires
        0 <= i < 328,
    ensures
        ({
            let (t, s) = chain_sector(i);
            &&& valid_sector(t, s)
            &&& 17 <= t <= 35
            &&& t != 18
            &&& sector_index(t, s) == chain_index(i)
        }),
{
    every_number_is_a_sector(chain_index(i));
}

/// Chooses the sectors for a program of `n` sectors.
pub fn allocate(n: usize) -> (chain: Vec<(u8, u8)>)
    requires
        n <= MAX_SECTORS,
    ensures
        chain@.len() == n,
        forall|i: int|
            0 <= i < n ==> (#[trigger] chain@[i]).0 == chain_sector(i).0 && chain@[i].1
                == chain_sector(i).1,
{
    let mut chain: Vec<(u8, u8)> = Vec::new();
    let mut t: u8 = 17;
    let mut s: u8 = 0;
    let mut i: usize = 0;
    while i < n
        invariant
            i <= n <= 327,
            chain@.len() == i,
            t == chain_sector(i as int).0,
            s == chain_sector(i as int).1,
            forall|k: int|
                0 <= k < i ==> (#[trigger] chain@[k]).0 == chain_sector(k).0 && chain@[k].1
                    == chain_sector(k).1,
        decreases n - i,
    {
        chain.push((t, s));
        proof {
            lemma_chain_sector(i as int);
            lemma_chain_sector(i + 1);
        }
        s = s + 1;
        if s >= sectors_per_track(t) {
            s = 0;
            t = t + 1;
            if t == DIR_TRACK {
                t = t + 1;
            }
        }
        i = i + 1;
    }
    chain
}

/// The part of the program that the `i`-th sector carries.
pub open spec fn part(prg: Seq<u8>, i: int) -> Seq<u8> {
    prg.subrange(
        254 * i,
        if 254 * i + 254 < prg.len() {
            254 * i + 254
        } else {
            prg.len() as int
        },
    )
}

/// The `i`-th sector of the program: the address of the next sector, or 0 and the index of the
/// last byte in use; then the program's bytes.
pub open spec fn part_block(prg: Seq<u8>, i: int) -> Seq<u8> {
    let link = if i + 1 < sectors_needed(prg.len() as int) {
        seq![chain_sector(i + 1).0 as u8, chain_sector(i + 1).1 as u8]
    } else {
        seq![0u8, (1 + part(prg, i).len()) as u8]
    };
    padded(link + part(prg, i))
}

/// How many sectors of track `t` are in use once the disk holds a program of `n` sectors; they are
/// the first ones of the track. On the directory track they are the map and the directory.
pub open spec fn used_on(t: int, n: int) -> int {
    let left = n - part_of_sector(sectors_before(t));
    if t == DIR_TRACK {
        2
    } else if t < 17 || left < 0 {
        0
    } else if left < sectors_on(t) {
        left
    } else {
        sectors_on(t)
    }
}

/// A byte of the map for eight sectors of which the first `m` are in use: a bit is set where its
/// sector is free.
pub open spec fn free_bits(m: int) -> u8 {
    if m <= 0 {
        0xFFu8
    } else if m >= 8 {
        0u8
    } else {
        0xFFu8 << (m as u8)
    }
}

/// The block availability map of a disk that holds a program of `n` sectors: for each track how
/// many sectors are free, and which; then the name and the format of the disk.
pub open spec fn bam_block(n: int) -> Seq<u8> {
    Seq::new(
        256,
        |j: int|
            if j == 0 {
                18u8
            } else if j == 1 {
                1u8
            } else if j == 2 {
                0x41u8
            } else if 4 <= j < 144 {
                if j % 4 == 0 {
                    (sectors_on(j / 4) - used_on(j / 4, n)) as u8
                } else {
                    free_bits(used_on(j / 4, n) - 8 * (j % 4 - 1))
                }
            } else if 144 <= j < 155 {
                DISK_NAME@[j - 144]
            } else if j == 0xA2 {
                0x30u8
            } else if j == 0xA3 {
                0x31u8
            } else if j == 0xA5 {
                0x32u8
            } else if j == 0xA6 {
                0x41u8
            } else if 155 <= j <= 0xA8 {
                PAD
            } else {
                0u8
            },
    )
}

/// A name in the sixteen bytes of a directory entry.
pub open spec fn name_field(pet: Seq<u8>) -> Seq<u8> {
    Seq::new(
        16,
        |i: int|
            if i < pet.len() {
                pet[i]
            } else {
                PAD
            },
    )
}

/// The directory: one closed program of `n` sectors.
pub open spec fn dir_block(pet: Seq<u8>, n: int) -> Seq<u8> {
    Seq::new(
        256,
        |j: int|
            if j == 1 {
                0xFFu8
            } else if j == 2 {
                0x82u8
            } else if j == 3 {
                17u8
            } else if 5 <= j < 21 {
                name_field(pet)[j - 5]
            } else if j == 30 {
                (n % 256) as u8
            } else if j == 31 {
                (n / 256) as u8
            } else {
                0u8
            },
    )
}

/// Which part of the program lies in sector number `x`, if it is one of the chain; -1 for a
/// sector before it or on the directory track.
pub open spec fn part_of_sector(x: int) -> int {
    if 336 <= x < 357 {
        x - 336
    } else if x >= 376 {
        x - 355
    } else {
        -1
    }
}

/// What sector number `x` holds once the first `k` parts of the program are written.
spec fn data_sector(prg: Seq<u8>, k: int, x: int) -> Seq<u8> {
    let i = part_of_sector(x);
    if 0 <= i < k {
        part_block(prg, i)
    } else {
        padded(Seq::empty())
    }
}

/// What sector number `x` of the image holds.
pub open spec fn image_sector(pet: Seq<u8>, prg: Seq<u8>, x: int) -> Seq<u8> {
    let n = sectors_needed(prg.len() as int);
    let i = part_of_sector(x);
    if x == 357 {
        bam_block(n)
    } else if x == 358 {
        dir_block(pet, n)
    } else if 0 <= i < n {
        part_block(prg, i)
    } else {
        padded(Seq::empty())
    }
}

/// The image that holds the program `prg` under the name `pet`, and nothing else.
pub open spec fn image_of(pet: Seq<u8>, prg: Seq<u8>) -> Seq<u8> {
    Seq::new(IMAGE_SIZE as nat, |p: int| image_sector(pet, prg, p / 256)[p % 256])
}

/// The bytes of the `i`-th sector of the program.
fn make_part(prg: &[u8], chain: &Vec<(u8, u8)>, i: usize) -> (buf: [u8; 256])
    requires
        1 <= prg@.len() <= 327 * 254,
        chain@.len() == sectors_needed(prg@.len() as int),
        i < chain@.len(),
        forall|k: int|
            0 <= k < chain@.len() ==> (#[trigger] chain@[k]).0 == chain_sector(k).0 && chain@[k].1
                == chain_sector(k).1,
    ensures
        buf@ == part_block(prg@, i as int),
{
    let mut buf: [u8; 256] = [0u8; 256];
    let start: usize = i * PAYLOAD;
    let end: usize = if start + PAYLOAD < prg.len() {
        start + PAYLOAD
    } else {
        prg.len()
    };
    if i + 1 < chain.len() {
        buf[0] = chain[i + 1].0;
        buf[1] = chain[i + 1].1;
    } else {
        buf[0] = 0;
        buf[1] = (1 + (end - start)) as u8;
    }
    let (b0, b1): (u8, u8) = (buf[0], buf[1]);
    let mut j: usize = start;
    while j < end
        invariant
            start <= j <= end <= prg@.len(),
            end - start <= 254,
            buf@[0] == b0,
            buf@[1] == b1,
            forall|m: int|
                2 <= m < 256 ==> #[trigger] buf@[m] == if m < 2 + (j - start) {
                    prg@[start + m - 2]
                } else {
                    0u8
                },
        decreases end - j,
    {
        buf[2 + (j - start)] = prg[j];
        j = j + 1;
    }
    assert(buf@ =~= part_block(prg@, i as int));
    buf
}

/// How many sectors of a track are in use.
fn sectors_used(t: u8, n: usize) -> (used: u8)
    requires
        1 <= t <= 35,
        n <= MAX_SECTORS,
    ensures
        used == used_on(t as int, n as int),
        used <= sectors_on(t as int),
{
    proof {
        lemma_sectors_before(t as int);
    }
    if t == DIR_TRACK {
        return 2;
    }
    if t < 17 {
        return 0;
    }
    let first: usize = if t == 17 {
        0
    } else {
        sector_off(t, 0) / SECTOR_SIZE - 355
    };
    let all: u8 = sectors_per_track(t);
    if n <= first {
        0
    } else if n - first < all as usize {
        (n - first) as u8
    } else {
        all
    }
}

/// The byte of the map for eight sectors, where `used` sectors of the track are in use and `first`
/// is the first of the eight.
fn map_byte(used: u8, first: u8) -> (b: u8)
    ensures
        b == free_bits(used - first),
{
    if used <= first {
        0xFF
    } else if used - first >= 8 {
        0
    } else {
        0xFFu8 << (used - first)
    }
}

/// The block availability map.
fn make_bam(n: usize) -> (bam: [u8; 256])
    requires
        n <= MAX_SECTORS,
    ensures
        bam@ == bam_block(n as int),
{
    let mut bam: [u8; 256] = [0u8; 256];
    bam[0] = DIR_TRACK;
    bam[1] = 1;
    bam[2] = 0x41;
    let mut tr: u8 = 1;
    while tr <= 35
        invariant
            1 <= tr <= 36,
            n <= MAX_SECTORS,
            bam@[0] == 18,
            bam@[1] == 1,
            bam@[2] == 0x41,
            bam@[3] == 0,
            forall|j: int|
                4 <= j < 256 ==> #[trigger] bam@[j] == if j < 4 * tr {
                    if j % 4 == 0 {
                        (sectors_on(j / 4) - used_on(j / 4, n as int)) as u8
                    } else {
                        free_bits(used_on(j / 4, n as int) - 8 * (j % 4 - 1))
                    }
                } else {
                    0u8
                },
        decreases 36 - tr,
    {
        let off: usize = 4 + (tr as usize - 1) * 4;
        let used: u8 = sectors_used(tr, n);
        bam[off] = sectors_per_track(tr) - used;
        bam[off + 1] = map_byte(used, 0);
        bam[off + 2] = map_byte(used, 8);
        bam[off + 3] = map_byte(used, 16);
        tr = tr + 1;
    }
    let mut i: usize = 0;
    while i < 16
        invariant
            i <= 16,
            forall|j: int| 0 <= j < 144 ==> #[trigger] bam@[j] == bam_block(n as int)[j],
            forall|j: int|
                144 <= j < 256 ==> #[trigger] bam@[j] == if j < 144 + i {
                    if j < 155 {
                        DISK_NAME@[j - 144]
                    } else {
                        PAD
                    }
                } else {
                    0u8
                },
        decreases 16 - i,
    {
        bam[0x90 + i] = if i < 11 {
            DISK_NAME[i]
        } else {
            PAD
        };
        i = i + 1;
    }
    bam[0xA0] = PAD;
    bam[0xA1] = PAD;
    bam[0xA2] = 0x30;
    bam[0xA3] = 0x31;
    bam[0xA4] = PAD;
    bam[0xA5] = 0x32;
    bam[0xA6] = 0x41;
    bam[0xA7] = PAD;
    bam[0xA8] = PAD;
    assert(bam@ =~= bam_block(n as int));
    bam
}

/// The directory sector.
fn make_dir(pet: &[u8], n: u16, first: (u8, u8)) -> (dir: [u8; 256])
    requires
        first == (17u8, 0u8),
    ensures
        dir@ == dir_block(pet@, n as int),
{
    let mut dir: [u8; 256] = [0u8; 256];
    dir[1] = 0xFF;
    dir[2] = 0x82;
    dir[3] = first.0;
    dir[4] = first.1;
    let mut i: usize = 0;
    while i < 16
        invariant
            i <= 16,
            dir@[0] == 0,
            dir@[1] == 0xFF,
            dir@[2] == 0x82,
            dir@[3] == 17,
            dir@[4] == 0,
            forall|j: int|
                5 <= j < 256 ==> #[trigger] dir@[j] == if j < 5 + i {
                    name_field(pet@)[j - 5]
                } else {
                    0u8
                },
        decreases 16 - i,
    {
        dir[5 + i] = if i < pet.len() {
            pet[i]
        } else {
            PAD
        };
        i = i + 1;
    }
    dir[30] = (n % 256) as u8;
    dir[31] = (n / 256) as u8;
    assert(dir@ =~= dir_block(pet@, n as int));
    dir
}

/// Builds a disk image that holds `prg` under `name`.
pub fn build_image(name: &str, prg: &[u8]) -> (image: Vec<u8>)
    requires
        1 <= prg@.len() <= MAX_SECTORS * PAYLOAD,
    ensures
        image@ == image_of(petscii_of(vstd::utf8::encode_utf8(name@)), prg@),
{
    let n: usize = (prg.len() + PAYLOAD - 1) / PAYLOAD;
    let chain = allocate(n);
    let mut image: Vec<u8> = vec![0u8; IMAGE_SIZE];
    let mut i: usize = 0;
    assert forall|p: int| 0 <= p < IMAGE_SIZE implies #[trigger] image@[p] == data_sector(
        prg@,
        0,
        p / 256,
    )[p % 256] by {}
    while i < n
        invariant
            i <= n <= 327,
            1 <= prg@.len() <= 327 * 254,
            n == sectors_needed(prg@.len() as int),
            chain@.len() == n,
            forall|k: int|
                0 <= k < n ==> (#[trigger] chain@[k]).0 == chain_sector(k).0 && chain@[k].1
                    == chain_sector(k).1,
            image@.len() == IMAGE_SIZE,
            forall|p: int|
                0 <= p < IMAGE_SIZE ==> #[trigger] image@[p] == data_sector(
                    prg@,
                    i as int,
                    p / 256,
                )[p % 256],
        decreases n - i,
    {
        let buf = make_part(prg, &chain, i);
        proof {
            lemma_chain_sector(i as int);
        }
        let (t, s): (u8, u8) = chain[i];
        let ghost before = image@;
        put_sector(image.as_mut_slice(), t, s, buf.as_slice());
        assert forall|p: int| 0 <= p < IMAGE_SIZE implies #[trigger] image@[p] == data_sector(
            prg@,
            i + 1,
            p / 256,
        )[p % 256] by {
            let off = chain_index(i as int) * 256;
            assert(before[p] == data_sector(prg@, i as int, p / 256)[p % 256]);
            if off <= p < off + 256 {
                assert(p / 256 == chain_index(i as int) && p % 256 == p - off);
            } else {
                assert(p / 256 != chain_index(i as int));
            }
        }
        i = i + 1;
    }
    let ghost data = image@;
    let pet = ascii_to_petscii(name);
    let bam = make_bam(n);
    proof {
        lemma_sectors_before(18);
    }
    put_sector(image.as_mut_slice(), 18, 0, bam.as_slice());
    proof {
        lemma_chain_sector(0);
    }
    let dir = make_dir(pet.as_slice(), n as u16, chain[0]);
    put_sector(image.as_mut_slice(), 18, 1, dir.as_slice());
    assert forall|p: int| 0 <= p < IMAGE_SIZE implies #[trigger] image@[p] == image_of(
        pet@,
        prg@,
    )[p] by {
        assert(data[p] == data_sector(prg@, n as int, p / 256)[p % 256]);
    }
    assert(image@ =~= image_of(pet@, prg@));
    image
}

/// A sector of the image holds what `image_sector` says.
proof fn lemma_image_sector(pet: Seq<u8>, prg: Seq<u8>, t: u8, s: u8)
    requires
        valid_sector(t as int, s as int),
        t <= 35,
    ensures
        sector_of(image_of(pet, prg), t, s) == Ok::<Seq<u8>, D64Error>(
            image_sector(pet, prg, sector_index(t as int, s as int)),
        ),
{
    crate::geometry::drive_tracks_fill_the_image(t as int, s as int);
    let x = sector_index(t as int, s as int);
    let image = image_of(pet, prg);
    let block = image_sector(pet, prg, x);
    assert forall|j: int| 0 <= j < 256 implies image.subrange(x * 256, x * 256 + 256)[j]
        == #[trigger] block[j] by {
        let p = x * 256 + j;
        assert(p / 256 == x && p % 256 == j);
    }
    assert(image.subrange(x * 256, x * 256 + 256) =~= block);
}

/// The map says of a sector that it is free.
pub open spec fn marked_free(map: Seq<u8>, t: int, s: int) -> bool {
    map[4 * t + 1 + s / 8] & (1u8 << ((s % 8) as u8)) != 0
}

/// A sector holds something, once the disk holds a program of `n` sectors: the map, the directory
/// or a part of the program.
pub open spec fn in_use(n: int, t: int, s: int) -> bool {
    ||| (t, s) == (DIR_TRACK as int, 0int)
    ||| (t, s) == (DIR_TRACK as int, 1int)
    ||| exists|i: int| 0 <= i < n && #[trigger] chain_sector(i) == (t, s)
}

/// The sectors in use are the first ones of each track.
proof fn lemma_in_use(n: int, t: int, s: int)
    requires
        0 <= n <= MAX_SECTORS,
        valid_sector(t, s),
        t <= 35,
    ensures
        in_use(n, t, s) <==> s < used_on(t, n),
{
    lemma_sectors_before(t);
    lemma_sectors_before(t + 1);
    let x = sector_index(t, s);
    if exists|i: int| 0 <= i < n && #[trigger] chain_sector(i) == (t, s) {
        let i = choose|i: int| 0 <= i < n && #[trigger] chain_sector(i) == (t, s);
        lemma_chain_sector(i);
        assert(x == chain_index(i));
    }
    if s < used_on(t, n) && t != DIR_TRACK {
        let i = part_of_sector(x);
        assert(0 <= i < n && chain_index(i) == x);
        lemma_chain_sector(i);
        let c = chain_sector(i);
        crate::geometry::sectors_are_distinct(c.0, c.1, t, s);
        assert(chain_sector(i) == (t, s));
    }
}

/// The map tells which sectors are in use: of each track it counts those that are not, and marks
/// free exactly those.
pub proof fn map_marks_the_sectors_in_use(n: int, t: int, s: int)
    requires
        0 <= n <= MAX_SECTORS,
        valid_sector(t, s),
        t <= 35,
    ensures
        marked_free(bam_block(n), t, s) <==> !in_use(n, t, s),
        bam_block(n)[4 * t] == sectors_on(t) - used_on(t, n),
        in_use(n, t, s) <==> s < used_on(t, n),
{
    lemma_in_use(n, t, s);
    lemma_sectors_before(t);
    let j = 4 * t + 1 + s / 8;
    assert(j / 4 == t && j % 4 == 1 + s / 8);
    let b = bam_block(n)[j];
    let m = used_on(t, n) - 8 * (s / 8);
    assert(b == free_bits(m));
    let k = (s % 8) as u8;
    assert(0xFFu8 & (1u8 << k) != 0 && 0u8 & (1u8 << k) == 0) by (bit_vector)
        requires
            k < 8,
    ;
    if 0 < m < 8 {
        let c = m as u8;
        assert((0xFFu8 << c) & (1u8 << k) != 0 <==> c <= k) by (bit_vector)
            requires
                c < 8,
                k < 8,
        ;
    }
}

/// From its `i`-th sector on, the file holds the program from byte `254 * i` on.
#[verifier::spinoff_prover]
#[verifier::rlimit(40)]
proof fn lemma_file_from(pet: Seq<u8>, prg: Seq<u8>, i: int, limit: nat)
    requires
        1 <= prg.len() <= MAX_SECTORS * PAYLOAD,
        0 <= i < sectors_needed(prg.len() as int),
        limit >= sectors_needed(prg.len() as int) - i,
    ensures
        file_from(
            image_of(pet, prg),
            chain_sector(i).0 as u8,
            chain_sector(i).1 as u8,
            limit,
        ) == Ok::<Seq<u8>, D64Error>(prg.skip(254 * i)),
    decreases sectors_needed(prg.len() as int) - i,
{
    let image = image_of(pet, prg);
    let n = sectors_needed(prg.len() as int);
    lemma_chain_sector(i);
    let (t, s) = (chain_sector(i).0 as u8, chain_sector(i).1 as u8);
    lemma_image_sector(pet, prg, t, s);
    assert(part_of_sector(chain_index(i)) == i);
    let b = part_block(prg, i);
    assert(image_sector(pet, prg, chain_index(i)) == b);
    if i + 1 < n {
        lemma_chain_sector(i + 1);
        lemma_file_from(pet, prg, i + 1, (limit - 1) as nat);
        assert(b[0] == chain_sector(i + 1).0);
        assert(b.subrange(2, 256) =~= part(prg, i));
        assert(part(prg, i) + prg.skip(254 * (i + 1)) =~= prg.skip(254 * i));
    } else {
        assert(b[0] == 0 && b[1] == 1 + part(prg, i).len());
        assert(b.subrange(2, b[1] + 1) =~= prg.skip(254 * i));
    }
}

/// The one entry of the directory of an image.
pub open spec fn only_entry(pet: Seq<u8>, n: int) -> EntryView {
    EntryView {
        file_type: 0x82,
        track: 17,
        sector: 0,
        filename: name_field(pet),
        size_sectors: n as u16,
    }
}

/// The directory of a built image lists the program and nothing else.
#[verifier::spinoff_prover]
#[verifier::rlimit(40)]
pub proof fn image_lists_the_program(pet: Seq<u8>, prg: Seq<u8>)
    requires
        1 <= prg.len() <= MAX_SECTORS * PAYLOAD,
    ensures
        directory_of(image_of(pet, prg)) == seq![
            only_entry(pet, sectors_needed(prg.len() as int)),
        ],
{
    let image = image_of(pet, prg);
    let n = sectors_needed(prg.len() as int);
    lemma_sectors_before(18);
    lemma_image_sector(pet, prg, 18, 1);
    let b = dir_block(pet, n);
    let (lo, hi) = (b[30], b[31]);
    let m = n as u16;
    assert(((hi as u16) << 8) | lo as u16 == m) by (bit_vector)
        requires
            lo == m % 256,
            hi == m / 256,
    ;
    assert(0x82u8 & 0x0F == 2 && 0u8 & 0x0F == 0) by (bit_vector);
    assert(entry_at(b, 0).filename =~= name_field(pet));
    reveal_with_fuel(entries_in, 9);
    assert(entries_in(b, 8) =~= seq![only_entry(pet, n)]);
    assert(entries_from(image, DIR_TRACK, 1, 40) =~= seq![only_entry(pet, n)]);
}

/// What is read back of a built image is the program that was put there.
pub proof fn image_reads_back_the_program(pet: Seq<u8>, prg: Seq<u8>)
    requires
        1 <= prg.len() <= MAX_SECTORS * PAYLOAD,
    ensures
        file_of(
            image_of(pet, prg),
            only_entry(pet, sectors_needed(prg.len() as int)),
        ) == Ok::<Seq<u8>, D64Error>(prg),
{
    lemma_file_from(pet, prg, 0, 683);
    assert(prg.skip(0) =~= prg);
}

/// The name that a program was stored under asks for it, unless the name is too long for the
/// directory or holds the padding byte; a star counts as "any ending" and cuts the name there.
pub proof fn name_finds_the_program(pet: Seq<u8>, n: int)
    ensures
        asks_for(pet, only_entry(pet, n)) <==> position_of(pet, STAR) <= 16 && position_of(pet, STAR)
            <= position_of(pet, PAD),
{
    let e = only_entry(pet, n);
    let f = position_of(pet, STAR);
    let q = position_of(pet, PAD);
    assert(0x82u8 & 0x0F == 2 && 0x82u8 & 0x80 != 0) by (bit_vector);
    lemma_position_of(pet, STAR);
    lemma_position_of(pet, PAD);
    let field = name_field(pet);
    let len = if q < 16 {
        q
    } else {
        16
    };
    assert forall|i: int| 0 <= i < len implies #[trigger] field[i] != PAD by {
        assert(pet[i] != PAD);
    }
    lemma_position_of_unique(field, PAD, len);
    assert(e.name() =~= pet.take(len));
    if f <= len {
        assert forall|i: int| 0 <= i < f implies upper(#[trigger] pet[i]) == upper(e.name()[i]) by {}
    }
}

/// A sector that is written reads back, what is short of it as zeros, and every other sector stays
/// what it was.
pub proof fn written_sector_reads_back(
    image: Seq<u8>,
    t: u8,
    s: u8,
    other_t: u8,
    other_s: u8,
    data: Seq<u8>,
    i: int,
)
    requires
        sector_of(image, t, s) is Ok,
        (other_t, other_s) != (t, s),
        0 <= i < 256,
    ensures
        ({
            let at = 256 * sector_index(t as int, s as int);
            let after = placed(image, at, padded(data));
            &&& after.len() == image.len()
            &&& sector_of(after, t, s) matches Ok(b) && b[i] == if i < data.len() {
                data[i]
            } else {
                0
            }
            &&& sector_of(after, other_t, other_s) == sector_of(image, other_t, other_s)
        }),
{
    let at = 256 * sector_index(t as int, s as int);
    let after = placed(image, at, padded(data));
    lemma_sectors_before(t as int);
    if sector_of(image, other_t, other_s) is Ok {
        lemma_sectors_before(other_t as int);
        let off = 256 * sector_index(other_t as int, other_s as int);
        if sector_index(other_t as int, other_s as int) == sector_index(t as int, s as int) {
            crate::geometry::sectors_are_distinct(
                t as int,
                s as int,
                other_t as int,
                other_s as int,
            );
        }
        assert(after.subrange(off, off + 256) =~= image.subrange(off, off + 256));
    }
}

/// The sectors of a program run on from track 17, sector 0: sector after sector, and after the last of
/// a track on to the first of the next one, the directory track left out. No sector comes twice.
pub proof fn chain_runs_on_from_track_17(i: int, j: int)
    requires
        0 <= i < 327,
        0 <= j < 327,
        i != j,
    ensures
        chain_sector(0) == (17int, 0int),
        chain_sector(i) != chain_sector(j),
        chain_sector(i).0 != 18,
        valid_sector(chain_sector(i).0, chain_sector(i).1),
        ({
            let ((t, s), (u, v)) = (chain_sector(i), chain_sector(i + 1));
            if s + 1 < sectors_on(t) {
                u == t && v == s + 1
            } else {
                v == 0 && u == if t == 17 {
                    19
                } else {
                    t + 1
                }
            }
        }),
{
    lemma_chain_sector(0);
    lemma_chain_sector(i);
    lemma_chain_sector(j);
    lemma_chain_sector(i + 1);
    lemma_sectors_before(chain_sector(i).0);
}

/// A program takes as many sectors as it needs and no more.
pub proof fn program_takes_the_sectors_it_needs(len: int)
    requires
        1 <= len,
    ensures
        len <= 254 * sectors_needed(len),
        254 * (sectors_needed(len) - 1) < len,
{
}

/// The one entry of a built image says: a closed program, at track 17, sector 0, under the first
/// sixteen bytes of its name, filled up with the padding byte, and with its size in sectors.
pub proof fn built_entry_says_what_it_is(pet: Seq<u8>, prg: Seq<u8>, i: int)
    requires
        1 <= prg.len() <= 327 * 254,
        0 <= i < 16,
    ensures
        ({
            let dir = directory_of(image_of(pet, prg));
            &&& dir.len() == 1
            &&& dir[0].file_type == 0x82
            &&& dir[0].track == 17 && dir[0].sector == 0
            &&& dir[0].filename.len() == 16
            &&& dir[0].filename[i] == if i < pet.len() {
                pet[i]
            } else {
                0xA0
            }
            &&& 254 * (dir[0].size_sectors - 1) < prg.len() <= 254 * dir[0].size_sectors
        }),
{
    image_lists_the_program(pet, prg);
}

/// The map of a built image leads to the directory, and gives the version of the format, the name of
/// the disk and its id.
pub proof fn map_names_the_disk(pet: Seq<u8>, prg: Seq<u8>, i: int)
    requires
        1 <= prg.len() <= 327 * 254,
        0 <= i < 16,
    ensures
        sector_of(image_of(pet, prg), 18, 0) matches Ok(map) && {
            let name = "RUST64 TEST"@;
            &&& map == bam_block(sectors_needed(prg.len() as int))
            &&& map[0] == 18 && map[1] == 1 && map[2] == 'A' as u8
            &&& map[0x90 + i] == if i < name.len() {
                name[i] as u8
            } else {
                0xA0
            }
            &&& map[0xA2] == '0' as u8 && map[0xA3] == '1' as u8
            &&& map[0xA5] == '2' as u8 && map[0xA6] == 'A' as u8
        },
{
    reveal_strlit("RUST64 TEST");
    lemma_sectors_before(18);
    lemma_image_sector(pet, prg, 18, 0);
}

/// What a built image does not use is blank.
pub proof fn unused_sectors_are_blank(pet: Seq<u8>, prg: Seq<u8>, t: u8, s: u8, i: int)
    requires
        1 <= prg.len() <= 327 * 254,
        valid_sector(t as int, s as int),
        t <= 35,
        !in_use(sectors_needed(prg.len() as int), t as int, s as int),
        0 <= i < 256,
    ensures
        sector_of(image_of(pet, prg), t, s) matches Ok(b) && b[i] == 0,
{
    let n = sectors_needed(prg.len() as int);
    let x = sector_index(t as int, s as int);
    lemma_image_sector(pet, prg, t, s);
    lemma_in_use(n, t as int, s as int);
    lemma_sectors_before(t as int);
    lemma_sectors_before(t + 1);
    lemma_sectors_before(18);
    let k = part_of_sector(x);
    if 0 <= k < n {
        lemma_chain_sector(k);
        let c = chain_sector(k);
        crate::geometry::sectors_are_distinct(c.0, c.1, t as int, s as int);
        assert(chain_sector(k) == (t as int, s as int));
    }
}

} // verus!
