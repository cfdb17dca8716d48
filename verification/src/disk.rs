//! The disk under the drive's read head.
//!
//! One revolution of the current track is laid out as encoded bytes, and turning the disk moves
//! them past the head. While the head is over a sync mark no byte is reported as ready.
use vstd::prelude::*;
use vstd::arithmetic::div_mod::{
    lemma_add_mod_noop, lemma_fundamental_div_mod, lemma_fundamental_div_mod_converse,
};

use crate::d64::{sector_of, D64};
use crate::gcr::{decoded, decoding_undoes_encoding, encode, gcr_encoded, SYNC_BYTE};
use crate::geometry::{lemma_sectors_before, sectors_before, sectors_on, sectors_per_track};

verus! {

/// Cycles that a byte takes to pass the head, by density setting.
pub const CYCLES_PER_BYTE: [u32; 4] = [32, 30, 28, 26];

/// The outer stop of the head, at track 1.
pub const FIRST_HALF_TRACK: u8 = 2;

/// The inner stop of the head, at track 35.
pub const LAST_HALF_TRACK: u8 = 70;

/// The byte that gaps are made of, and that the head sees without a disk.
pub const GAP_BYTE: u8 = 0x55;

/// The disk and the mechanics around it.
pub struct Disk {
    /// The mounted image.
    image: Option<D64>,
    /// The track under the head, 1 to 35.
    track: u8,
    /// Where the head is, in half tracks, 2 to 70.
    half_track: u8,
    motor_on: bool,
    /// 0 to 3; the higher, the faster bytes pass.
    density: u8,
    /// Encoded bytes of the current track.
    track_buffer: Vec<u8>,
    /// Which of them belong to a sync mark.
    sync_mask: Vec<bool>,
    byte_pos: usize,
    rotation_counter: u32,
    /// A new byte is under the head; whoever takes it clears this.
    byte_ready: bool,
}

/// What a disk is.
pub struct DiskView {
    pub image: Option<Seq<u8>>,
    pub track: u8,
    pub half_track: u8,
    pub motor_on: bool,
    pub density: u8,
    pub track_buffer: Seq<u8>,
    pub sync_mask: Seq<bool>,
    pub byte_pos: int,
    pub rotation_counter: int,
    pub byte_ready: bool,
}

/// The exclusive or of all bytes.
pub open spec fn xor_all(s: Seq<u8>) -> u8
    decreases s.len(),
{
    if s.len() == 0 {
        0
    } else {
        xor_all(s.drop_last()) ^ s.last()
    }
}

/// The two bytes that identify the disk, from its block availability map.
pub open spec fn disk_id(image: Seq<u8>) -> (u8, u8) {
    match sector_of(image, 18, 0) {
        Ok(bam) => (bam[0xA2], bam[0xA3]),
        Err(_) => (0x30, 0x31),
    }
}

/// The header of a sector: mark, checksum, address, disk id, filler.
pub open spec fn header_block(image: Seq<u8>, track: u8, sector: u8) -> Seq<u8> {
    let (id1, id2) = disk_id(image);
    seq![0x08u8, sector ^ track ^ id2 ^ id1, sector, track, id2, id1, 0x0Fu8, 0x0Fu8]
}

/// The 256 bytes that the track shows for a sector; zeros where the image has none.
pub open spec fn sector_data(image: Seq<u8>, track: u8, sector: u8) -> Seq<u8> {
    match sector_of(image, track, sector) {
        Ok(b) => b,
        Err(_) => Seq::new(256, |i: int| 0u8),
    }
}

/// The data of a sector: mark, bytes, checksum, filler.
pub open spec fn data_block(image: Seq<u8>, track: u8, sector: u8) -> Seq<u8> {
    let d = sector_data(image, track, sector);
    seq![0x07u8] + d + seq![xor_all(d), 0u8, 0u8]
}

/// `n` times the same byte.
pub open spec fn run(b: u8, n: nat) -> Seq<u8> {
    Seq::new(n, |i: int| b)
}

/// A sector as it stands on the track: sync, header, gap, sync, data, gap.
#[verifier::opaque]
pub open spec fn sector_on_track(image: Seq<u8>, track: u8, sector: u8) -> Seq<u8> {
    run(SYNC_BYTE, 5) + gcr_encoded(header_block(image, track, sector)) + run(GAP_BYTE, 9) + run(
        SYNC_BYTE,
        5,
    ) + gcr_encoded(data_block(image, track, sector)) + run(GAP_BYTE, 8)
}

/// The first `n` sectors of a track, one after the other.
pub open spec fn track_bytes(image: Seq<u8>, track: u8, n: int) -> Seq<u8>
    decreases n,
{
    if n <= 0 {
        Seq::empty()
    } else {
        track_bytes(image, track, n - 1) + sector_on_track(image, track, (n - 1) as u8)
    }
}

/// The places of the sync marks on a track of `n` sectors: the first five bytes of each sector's
/// header and of its data.
pub open spec fn sync_places(n: int) -> Seq<bool> {
    Seq::new((362 * n) as nat, |i: int| i % 362 < 5 || 24 <= i % 362 < 29)
}

impl DiskView {
    /// The head is between its stops, and the track is the one that its place belongs to: the
    /// second half of a track counts to that track.
    pub open spec fn wf(self) -> bool {
        &&& FIRST_HALF_TRACK <= self.half_track <= LAST_HALF_TRACK
        &&& self.track == self.half_track as int / 2
        &&& self.density < 4
        &&& self.sync_mask.len() == self.track_buffer.len()
        &&& 0 <= self.byte_pos
        &&& self.track_buffer.len() > 0 ==> self.byte_pos < self.track_buffer.len()
        &&& 0 <= self.rotation_counter < 32
    }

    /// With the track laid out anew.
    pub open spec fn rebuilt(self) -> DiskView {
        match self.image {
            Some(image) if 1 <= self.track <= 35 => DiskView {
                track_buffer: track_bytes(image, self.track, sectors_on(self.track as int)),
                sync_mask: sync_places(sectors_on(self.track as int)),
                byte_pos: 0,
                rotation_counter: 0,
                ..self
            },
            _ => DiskView { track_buffer: Seq::empty(), sync_mask: Seq::empty(), ..self },
        }
    }

    /// With an image mounted.
    pub open spec fn mounted(self, image: Seq<u8>) -> DiskView {
        DiskView { image: Some(image), ..self }.rebuilt()
    }

    /// With the head on a track. Nothing happens where it is there already.
    pub open spec fn on_track(self, t: int) -> DiskView {
        let to = if t < 1 {
            1
        } else if t > 35 {
            35
        } else {
            t
        };
        if to == self.track && self.track_buffer.len() > 0 {
            self
        } else {
            DiskView {
                track: to as u8,
                half_track: (2 * to) as u8,
                byte_pos: 0,
                rotation_counter: 0,
                ..self
            }.rebuilt()
        }
    }

    /// With the head on a half track; it cannot go beyond its stops.
    pub open spec fn on_half_track(self, h: int) -> DiskView {
        let to = if h < FIRST_HALF_TRACK {
            FIRST_HALF_TRACK as int
        } else if h > LAST_HALF_TRACK {
            LAST_HALF_TRACK as int
        } else {
            h
        };
        DiskView { half_track: to as u8, ..self.on_track(to / 2) }
    }

    /// With the motor switched.
    pub open spec fn with_motor(self, on: bool) -> DiskView {
        DiskView { motor_on: on, byte_ready: on && self.byte_ready, ..self }
    }

    /// With another density.
    pub open spec fn with_density(self, density: u8) -> DiskView {
        DiskView { density: density & 0x03, ..self }
    }

    /// Cycles that a byte takes at the current density.
    pub open spec fn period(self) -> int {
        CYCLES_PER_BYTE@[(self.density & 0x03) as int] as int
    }

    /// The position `j` bytes further on.
    pub open spec fn ahead(self, j: int) -> int {
        (self.byte_pos + j) % (self.track_buffer.len() as int)
    }

    /// The disk turned for a number of cycles: the head moves on one byte per period, and a byte
    /// is ready if any that came past was not part of a sync mark.
    pub open spec fn rotated(self, cycles: int) -> DiskView {
        if !self.motor_on || self.track_buffer.len() == 0 {
            self
        } else {
            let total = self.rotation_counter + cycles;
            let steps = total / self.period();
            DiskView {
                byte_pos: self.ahead(steps),
                rotation_counter: total % self.period(),
                byte_ready: self.byte_ready || self.data_within(steps),
                ..self
            }
        }
    }

    /// Among the next `steps` bytes is one that is not part of a sync mark.
    pub open spec fn data_within(self, steps: int) -> bool {
        exists|j: int| 1 <= j <= steps && !self.sync_mask[#[trigger] self.ahead(j)]
    }

    /// The byte under the head.
    pub open spec fn current(self) -> u8 {
        if 0 <= self.byte_pos < self.track_buffer.len() {
            self.track_buffer[self.byte_pos]
        } else {
            GAP_BYTE
        }
    }

    /// The head is over a sync mark.
    pub open spec fn over_sync(self) -> bool {
        0 <= self.byte_pos < self.sync_mask.len() && self.sync_mask[self.byte_pos]
    }
}

impl View for Disk {
    type V = DiskView;

    closed spec fn view(&self) -> DiskView {
        DiskView {
            image: match self.image {
                Some(d) => Some(d@),
                None => None,
            },
            track: self.track,
            half_track: self.half_track,
            motor_on: self.motor_on,
            density: self.density,
            track_buffer: self.track_buffer@,
            sync_mask: self.sync_mask@,
            byte_pos: self.byte_pos as int,
            rotation_counter: self.rotation_counter as int,
            byte_ready: self.byte_ready,
        }
    }
}

/// A drive without a disk, the head on the directory track.
pub open spec fn empty_disk() -> DiskView {
    DiskView {
        image: None,
        track: 18,
        half_track: 36,
        motor_on: false,
        density: 3,
        track_buffer: Seq::empty(),
        sync_mask: Seq::empty(),
        byte_pos: 0,
        rotation_counter: 0,
        byte_ready: false,
    }
}

/// Appends a run of one byte to a track.
fn push_run(track: &mut Vec<u8>, mask: &mut Vec<bool>, b: u8, n: usize, sync: bool)
    ensures
        final(track)@ == old(track)@ + run(b, n as nat),
        final(mask)@ == old(mask)@ + Seq::new(n as nat, |i: int| sync),
{
    let mut i: usize = 0;
    while i < n
        invariant
            i <= n,
            track@ =~= old(track)@ + run(b, i as nat),
            mask@ =~= old(mask)@ + Seq::new(i as nat, |i: int| sync),
        decreases n - i,
    {
        track.push(b);
        mask.push(sync);
        i = i + 1;
    }
}

/// Appends encoded bytes to a track.
fn push_encoded(track: &mut Vec<u8>, mask: &mut Vec<bool>, raw: &[u8])
    requires
        raw@.len() % 4 == 0,
    ensures
        final(track)@ == old(track)@ + gcr_encoded(raw@),
        final(mask)@ == old(mask)@ + Seq::new(gcr_encoded(raw@).len(), |i: int| false),
{
    let g = encode(raw);
    let mut i: usize = 0;
    while i < g.len()
        invariant
            i <= g@.len(),
            track@ =~= old(track)@ + g@.take(i as int),
            mask@ =~= old(mask)@ + Seq::new(i as nat, |i: int| false),
        decreases g@.len() - i,
    {
        track.push(g[i]);
        mask.push(false);
        i = i + 1;
    }
    assert(g@.take(i as int) =~= g@);
}

/// Every density setting counts modulo four.
proof fn lemma_density(d: u8)
    ensures
        d & 0x03 < 4,
        d < 4 ==> d & 0x03 == d,
{
    assert(d & 0x03 < 4 && (d < 4 ==> d & 0x03 == d)) by (bit_vector);
}

/// The length of a sector on the track.
proof fn lemma_sector_len(image: Seq<u8>, track: u8, sector: u8)
    requires
        1 <= track <= 35,
    ensures
        sector_data(image, track, sector).len() == 256,
        sector_on_track(image, track, sector).len() == 362,
{
    reveal(sector_on_track);
    crate::geometry::lemma_sectors_before(track as int);
    assert(header_block(image, track, sector).len() == 8);
    assert(data_block(image, track, sector).len() == 260);
}

impl Disk {
    /// A drive without a disk, the head on the directory track.
    pub fn new_shared() -> (r: Disk)
        ensures
            r@ == empty_disk(),
            r@.wf(),
    {
        let r = Disk {
            image: None,
            track: 18,
            half_track: 36,
            motor_on: false,
            density: 3,
            track_buffer: Vec::new(),
            sync_mask: Vec::new(),
            byte_pos: 0,
            rotation_counter: 0,
            byte_ready: false,
        };
        assert(r@.track_buffer =~= Seq::empty() && r@.sync_mask =~= Seq::empty());
        r
    }

    /// The track under the head.
    pub fn track(&self) -> (r: u8)
        ensures
            r == self@.track,
    {
        self.track
    }

    /// Where the head is, in half tracks.
    pub fn half_track(&self) -> (r: u8)
        ensures
            r == self@.half_track,
    {
        self.half_track
    }

    /// The motor is running.
    pub fn motor_on(&self) -> (r: bool)
        ensures
            r == self@.motor_on,
    {
        self.motor_on
    }

    /// The density setting.
    pub fn density(&self) -> (r: u8)
        ensures
            r == self@.density,
    {
        self.density
    }

    /// A new byte is under the head and has not been taken.
    pub fn byte_ready(&self) -> (r: bool)
        ensures
            r == self@.byte_ready,
    {
        self.byte_ready
    }

    /// Puts a disk into the drive.
    pub fn mount(&mut self, image: D64)
        ensures
            final(self)@ == old(self)@.mounted(image@),
            old(self)@.wf() ==> final(self)@.wf(),
    {
        self.image = Some(image);
        self.rebuild_track();
    }

    /// Moves the head to a track; the head cannot leave tracks 1 to 35.
    pub fn set_track(&mut self, t: u8)
        ensures
            final(self)@ == old(self)@.on_track(t as int),
            old(self)@.wf() ==> final(self)@.wf(),
    {
        let t: u8 = if t < 1 {
            1
        } else if t > 35 {
            35
        } else {
            t
        };
        if t == self.track && self.track_buffer.len() > 0 {
            return;
        }
        self.track = t;
        self.half_track = 2 * t;
        self.byte_pos = 0;
        self.rotation_counter = 0;
        self.rebuild_track();
    }

    /// Moves the head to a half track; it cannot go beyond its stops.
    pub fn set_half_track(&mut self, h: u8)
        ensures
            final(self)@ == old(self)@.on_half_track(h as int),
            old(self)@.wf() ==> final(self)@.wf(),
    {
        let h: u8 = if h < FIRST_HALF_TRACK {
            FIRST_HALF_TRACK
        } else if h > LAST_HALF_TRACK {
            LAST_HALF_TRACK
        } else {
            h
        };
        self.set_track(h / 2);
        self.half_track = h;
    }

    /// Switches the motor. A byte that was ready is lost when it stops.
    pub fn set_motor(&mut self, on: bool)
        ensures
            final(self)@ == old(self)@.with_motor(on),
            old(self)@.wf() ==> final(self)@.wf(),
    {
        self.motor_on = on;
        if !on {
            self.byte_ready = false;
        }
    }

    /// Sets the density; only the low two bits count.
    pub fn set_density(&mut self, density: u8)
        ensures
            final(self)@ == old(self)@.with_density(density),
            old(self)@.wf() ==> final(self)@.wf(),
    {
        proof {
            lemma_density(density);
        }
        self.density = density & 0x03;
    }

    /// Turns the disk for a number of cycles.
    pub fn rotate(&mut self, cycles: u32)
        requires
            old(self)@.wf(),
            old(self)@.rotation_counter + cycles <= u32::MAX,
        ensures
            final(self)@ == old(self)@.rotated(cycles as int),
            final(self)@.wf(),
    {
        if !self.motor_on || self.track_buffer.len() == 0 {
            return;
        }
        proof {
            lemma_density(self.density);
        }
        let period: u32 = CYCLES_PER_BYTE[(self.density & 0x03) as usize];
        let ghost start = self@;
        let ghost total = start.rotation_counter + cycles;
        let ghost len = start.track_buffer.len() as int;
        self.rotation_counter = self.rotation_counter + cycles;
        let ghost mut steps: int = 0;
        proof {
            vstd::arithmetic::div_mod::lemma_small_mod(start.byte_pos as nat, len as nat);
        }
        while self.rotation_counter >= period
            invariant
                start.wf(),
                start.motor_on,
                len == start.track_buffer.len(),
                len > 0,
                26 <= period <= 32,
                period == start.period(),
                0 <= steps,
                total == steps * period + self.rotation_counter,
                self@ == (DiskView {
                    byte_pos: start.ahead(steps),
                    rotation_counter: self.rotation_counter as int,
                    byte_ready: start.byte_ready || start.data_within(steps),
                    ..start
                }),
            decreases self.rotation_counter,
        {
            proof {
                lemma_add_mod_noop(start.byte_pos + steps, 1, len);
                vstd::arithmetic::div_mod::lemma_mod_bound(start.byte_pos + steps, len);
                vstd::arithmetic::div_mod::lemma_mod_bound(start.byte_pos + steps + 1, len);
                if len > 1 {
                    vstd::arithmetic::div_mod::lemma_small_mod(1, len as nat);
                }
                assert((steps + 1) * period == steps * period + period) by (nonlinear_arith);
            }
            self.rotation_counter = self.rotation_counter - period;
            let n: usize = self.track_buffer.len();
            self.byte_pos = (self.byte_pos + 1) % n;
            assert(self.byte_pos == start.ahead(steps + 1));
            if !self.sync_mask[self.byte_pos] {
                self.byte_ready = true;
            }
            proof {
                assert(start.data_within(steps + 1) == (start.data_within(steps)
                    || !start.sync_mask[start.ahead(steps + 1)])) by {
                    if start.data_within(steps + 1) {
                        let j = choose|j: int|
                            1 <= j <= steps + 1 && !start.sync_mask[#[trigger] start.ahead(j)];
                        if j <= steps {
                            assert(start.data_within(steps));
                        }
                    }
                    if start.data_within(steps) {
                        let j = choose|j: int|
                            1 <= j <= steps && !start.sync_mask[#[trigger] start.ahead(j)];
                        assert(1 <= j <= steps + 1);
                    }
                }
                steps = steps + 1;
            }
        }
        proof {
            lemma_fundamental_div_mod_converse(
                total,
                period as int,
                steps,
                self.rotation_counter as int,
            );
            vstd::arithmetic::div_mod::lemma_mod_bound(start.byte_pos + steps, len);
        }
    }

    /// The byte under the head.
    pub fn current_byte(&self) -> (r: u8)
        ensures
            r == self@.current(),
    {
        if self.byte_pos < self.track_buffer.len() {
            self.track_buffer[self.byte_pos]
        } else {
            GAP_BYTE
        }
    }

    /// The head is over a sync mark.
    pub fn sync_under_head(&self) -> (r: bool)
        ensures
            r == self@.over_sync(),
    {
        self.byte_pos < self.sync_mask.len() && self.sync_mask[self.byte_pos]
    }

    /// Takes the byte that was ready.
    pub fn clear_byte_ready(&mut self)
        ensures
            final(self)@ == (DiskView { byte_ready: false, ..old(self)@ }),
            old(self)@.wf() ==> final(self)@.wf(),
    {
        self.byte_ready = false;
    }

    /// Lays out the current track.
    fn rebuild_track(&mut self)
        ensures
            final(self)@ == old(self)@.rebuilt(),
            2 <= old(self)@.half_track <= 70 && old(self)@.track == old(self)@.half_track as int / 2
                && old(self)@.density < 4 && 0 <= old(self)@.rotation_counter < 32
                ==> final(self)@.wf(),
    {
        let mut buffer: Vec<u8> = Vec::new();
        let mut mask: Vec<bool> = Vec::new();
        if let Some(img) = &self.image {
            if 1 <= self.track && self.track <= 35 {
                layout_track(img, self.track, &mut buffer, &mut mask);
                self.byte_pos = 0;
                self.rotation_counter = 0;
            }
        }
        self.track_buffer = buffer;
        self.sync_mask = mask;
        assert(self@.track_buffer =~= old(self)@.rebuilt().track_buffer);
        assert(self@.sync_mask =~= old(self)@.rebuilt().sync_mask);
    }
}

/// Lays out a track of an image.
fn layout_track(img: &D64, track: u8, buffer: &mut Vec<u8>, mask: &mut Vec<bool>)
    requires
        1 <= track <= 35,
        old(buffer)@.len() == 0,
        old(mask)@.len() == 0,
    ensures
        final(buffer)@ == track_bytes(img@, track, sectors_on(track as int)),
        final(mask)@ == sync_places(sectors_on(track as int)),
        final(buffer)@.len() == final(mask)@.len(),
        final(buffer)@.len() > 0,
{
    let count: u8 = sectors_per_track(track);
    let (id1, id2): (u8, u8) = match img.sector(18, 0) {
        Ok(bam) => (bam[0xA2], bam[0xA3]),
        Err(_) => (0x30, 0x31),
    };
    let mut sector: u8 = 0;
    while sector < count
        invariant
            sector <= count,
            count == sectors_on(track as int),
            17 <= count <= 21,
            1 <= track <= 35,
            (id1, id2) == disk_id(img@),
            buffer@ =~= track_bytes(img@, track, sector as int),
            mask@ =~= sync_places(sector as int),
            buffer@.len() == mask@.len(),
        decreases count - sector,
    {
        proof {
            lemma_sector_len(img@, track, sector);
        }
        let header: [u8; 8] = [
            0x08,
            sector ^ track ^ id2 ^ id1,
            sector,
            track,
            id2,
            id1,
            0x0F,
            0x0F,
        ];
        assert(header@ =~= header_block(img@, track, sector));
        let data = make_data_block(img, track, sector);
        push_run(buffer, mask, SYNC_BYTE, 5, true);
        push_encoded(buffer, mask, header.as_slice());
        push_run(buffer, mask, GAP_BYTE, 9, false);
        push_run(buffer, mask, SYNC_BYTE, 5, true);
        push_encoded(buffer, mask, data.as_slice());
        push_run(buffer, mask, GAP_BYTE, 8, false);
        proof {
            reveal(sector_on_track);
        }
        assert(buffer@ =~= track_bytes(img@, track, sector + 1));
        sector = sector + 1;
    }
}

/// The data of a sector: mark, bytes, checksum, filler.
fn make_data_block(img: &D64, track: u8, sector: u8) -> (block: Vec<u8>)
    requires
        1 <= track <= 35,
    ensures
        block@ == data_block(img@, track, sector),
        block@.len() == 260,
{
    proof {
        lemma_sector_len(img@, track, sector);
    }
    let ghost d = sector_data(img@, track, sector);
    let mut block: Vec<u8> = Vec::new();
    block.push(0x07);
    match img.sector(track, sector) {
        Ok(s) => {
            block.extend_from_slice(s);
        },
        Err(_) => {
            let mut i: usize = 0;
            while i < 256
                invariant
                    i <= 256,
                    block@ =~= seq![0x07u8] + run(0, i as nat),
                decreases 256 - i,
            {
                block.push(0);
                i = i + 1;
            }
        },
    }
    assert(block@ =~= seq![0x07u8] + d);
    let mut cs: u8 = 0;
    let mut i: usize = 1;
    while i <= 256
        invariant
            1 <= i <= 257,
            block@.len() == 257,
            d.len() == 256,
            block@ == seq![0x07u8] + d,
            cs == xor_all(d.take(i - 1)),
        decreases 257 - i,
    {
        cs = cs ^ block[i];
        assert(d.take(i as int).drop_last() =~= d.take(i - 1));
        i = i + 1;
    }
    assert(d.take(256) =~= d);
    block.push(cs);
    block.push(0);
    block.push(0);
    assert(block@ =~= data_block(img@, track, sector));
    block
}

/// Turning the disk in two goes is turning it in one.
pub proof fn rotation_adds_up(d: DiskView, a: int, b: int)
    requires
        d.wf(),
        0 <= a,
        0 <= b,
    ensures
        d.rotated(a).rotated(b) == d.rotated(a + b),
{
    if d.motor_on && d.track_buffer.len() > 0 {
        lemma_density(d.density);
        let p = d.period();
        let len = d.track_buffer.len() as int;
        let t1 = d.rotation_counter + a;
        let (k1, r1) = (t1 / p, t1 % p);
        let (k2, r2) = ((r1 + b) / p, (r1 + b) % p);
        lemma_fundamental_div_mod(t1, p);
        lemma_fundamental_div_mod(r1 + b, p);
        assert(p * k1 + p * k2 == (k1 + k2) * p) by (nonlinear_arith);
        lemma_fundamental_div_mod_converse(t1 + b, p, k1 + k2, r2);
        vstd::arithmetic::div_mod::lemma_div_pos_is_pos(t1, p);
        vstd::arithmetic::div_mod::lemma_div_pos_is_pos(r1 + b, p);
        let mid = d.rotated(a);
        assert forall|j: int| mid.ahead(j) == #[trigger] d.ahead(k1 + j) by {
            lemma_add_mod_noop(d.byte_pos + k1, j, len);
            lemma_add_mod_noop((d.byte_pos + k1) % len, j, len);
            vstd::arithmetic::div_mod::lemma_mod_twice(d.byte_pos + k1, len);
        }
        assert(mid.ahead(k2) == d.ahead(k1 + k2));
        assert(d.data_within(k1 + k2) == (d.data_within(k1) || mid.data_within(k2))) by {
            if d.data_within(k1 + k2) {
                let j = choose|j: int| 1 <= j <= k1 + k2 && !d.sync_mask[#[trigger] d.ahead(j)];
                if j > k1 {
                    assert(mid.ahead(j - k1) == d.ahead(k1 + (j - k1)));
                    assert(!mid.sync_mask[mid.ahead(j - k1)]);
                }
            }
            if d.data_within(k1) {
                let j = choose|j: int| 1 <= j <= k1 && !d.sync_mask[#[trigger] d.ahead(j)];
                assert(1 <= j <= k1 + k2);
            }
            if mid.data_within(k2) {
                let j = choose|j: int| 1 <= j <= k2 && !mid.sync_mask[#[trigger] mid.ahead(j)];
                assert(mid.ahead(j) == d.ahead(k1 + j));
                assert(!d.sync_mask[d.ahead(k1 + j)]);
            }
        }
    }
}

/// After a whole revolution the head is where it was, unless a change of density has left it due
/// for a step.
pub proof fn revolution_returns(d: DiskView)
    requires
        d.wf(),
        d.motor_on,
        d.track_buffer.len() > 0,
        d.rotation_counter < d.period(),
    ensures
        ({
            let after = d.rotated(d.track_buffer.len() * d.period());
            &&& after.byte_pos == d.byte_pos
            &&& after.track_buffer == d.track_buffer
        }),
{
    lemma_density(d.density);
    let p = d.period();
    let len = d.track_buffer.len() as int;
    let total = d.rotation_counter + len * p;
    lemma_fundamental_div_mod_converse(total, p, len, d.rotation_counter);
    vstd::arithmetic::div_mod::lemma_mod_add_multiples_vanish(d.byte_pos, len);
    vstd::arithmetic::div_mod::lemma_small_mod(d.byte_pos as nat, len as nat);
}

/// The sync marks of a sector are sync bytes.
#[verifier::spinoff_prover]
#[verifier::rlimit(40)]
proof fn lemma_sync_in_sector(image: Seq<u8>, track: u8, sector: u8, j: int)
    requires
        1 <= track <= 35,
        0 <= j < 5 || 24 <= j < 29,
    ensures
        sector_on_track(image, track, sector)[j] == SYNC_BYTE,
{
    reveal(sector_on_track);
    lemma_sector_len(image, track, sector);
    let mark = run(SYNC_BYTE, 5);
    let head = gcr_encoded(header_block(image, track, sector));
    let data = gcr_encoded(data_block(image, track, sector));
    assert(head.len() == 10);
    let front = mark + head + run(GAP_BYTE, 9);
    assert(front.len() == 24);
    if j < 5 {
        assert(front[j] == mark[j]);
        assert(sector_on_track(image, track, sector)[j] == front[j]);
    } else {
        assert((front + mark)[j] == mark[j - 24]);
        assert(sector_on_track(image, track, sector)[j] == (front + mark)[j]);
    }
}

/// The bytes of a sync mark are sync bytes.
pub proof fn sync_mark_is_all_ones(image: Seq<u8>, track: u8, n: int, i: int)
    requires
        1 <= track <= 35,
        0 <= n <= 21,
        0 <= i < 362 * n,
        sync_places(n)[i],
    ensures
        track_bytes(image, track, n).len() == 362 * n,
        track_bytes(image, track, n)[i] == SYNC_BYTE,
{
    let s = i / 362;
    let j = i % 362;
    sector_lies_on_its_track(image, track, n, s);
    lemma_sync_in_sector(image, track, s as u8, j);
    let whole = track_bytes(image, track, n);
    assert(whole.subrange(362 * s, 362 * s + 362)[j] == whole[i]);
}

/// The length of a track.
proof fn lemma_track_len(image: Seq<u8>, track: u8, n: int)
    requires
        1 <= track <= 35,
        0 <= n <= 21,
    ensures
        track_bytes(image, track, n).len() == 362 * n,
    decreases n,
{
    if n > 0 {
        lemma_track_len(image, track, n - 1);
        lemma_sector_len(image, track, (n - 1) as u8);
    }
}

/// Where sector `s` of a track lies in the track's bytes, and what it is there.
pub proof fn sector_lies_on_its_track(image: Seq<u8>, track: u8, n: int, s: int)
    requires
        1 <= track <= 35,
        0 <= s < n <= 21,
    ensures
        track_bytes(image, track, n).len() == 362 * n,
        track_bytes(image, track, n).subrange(362 * s, 362 * s + 362) == sector_on_track(
            image,
            track,
            s as u8,
        ),
    decreases n,
{
    lemma_track_len(image, track, n);
    lemma_track_len(image, track, n - 1);
    lemma_sector_len(image, track, (n - 1) as u8);
    let whole = track_bytes(image, track, n);
    if s < n - 1 {
        sector_lies_on_its_track(image, track, n - 1, s);
        assert(whole.subrange(362 * s, 362 * s + 362) =~= track_bytes(image, track, n - 1).subrange(
            362 * s,
            362 * s + 362,
        ));
    } else {
        assert(whole.subrange(362 * s, 362 * s + 362) =~= sector_on_track(image, track, s as u8));
    }
}

/// Turning the disk by a cycle that brings a sync mark under the head makes no byte ready.
pub proof fn sync_mark_holds_byte_ready_back(d: DiskView)
    requires
        d.wf(),
        !d.byte_ready,
        d.rotated(1).over_sync(),
    ensures
        !d.rotated(1).byte_ready,
{
    if d.motor_on && d.track_buffer.len() > 0 {
        lemma_density(d.density);
        let p = d.period();
        let steps = (d.rotation_counter + 1) / p;
        assert(0 <= steps <= 1) by (nonlinear_arith)
            requires
                26 <= p <= 32,
                0 <= d.rotation_counter < 32,
                steps == (d.rotation_counter + 1) / p,
        ;
        assert(d.rotated(1).byte_pos == d.ahead(steps));
        if d.data_within(steps) {
            let j = choose|j: int| 1 <= j <= steps && !d.sync_mask[#[trigger] d.ahead(j)];
            assert(j == steps);
        }
    }
}

/// Nothing of a sector is lost on the track: two images that give the same sector on the track
/// show the same 256 bytes there.
pub proof fn track_keeps_the_sector(a: Seq<u8>, b: Seq<u8>, track: u8, sector: u8)
    requires
        1 <= track <= 35,
        sector_on_track(a, track, sector) == sector_on_track(b, track, sector),
    ensures
        sector_data(a, track, sector) == sector_data(b, track, sector),
{
    reveal(sector_on_track);
    lemma_sector_len(a, track, sector);
    lemma_sector_len(b, track, sector);
    let (x, y) = (data_block(a, track, sector), data_block(b, track, sector));
    let (s, t) = (sector_on_track(a, track, sector), sector_on_track(b, track, sector));
    assert(x.len() == 260 && y.len() == 260);
    assert(s.subrange(29, 354) =~= gcr_encoded(x));
    assert(t.subrange(29, 354) =~= gcr_encoded(y));
    crate::gcr::encoded_bits(x);
    crate::gcr::encoded_bits(y);
    crate::gcr::encoding_is_injective(x, y, gcr_encoded(x));
    assert(x.subrange(1, 257) =~= sector_data(a, track, sector));
    assert(y.subrange(1, 257) =~= sector_data(b, track, sector));
}

/// Whatever is done to the drive, the head stays on one of its tracks and within its layout.
pub proof fn disk_stays_well_formed(d: DiskView, t: int, on: bool, density: u8, image: Seq<u8>)
    requires
        d.wf(),
    ensures
        d.on_track(t).wf(),
        d.on_half_track(t).wf(),
        d.with_motor(on).wf(),
        d.with_density(density).wf(),
        d.mounted(image).wf(),
{
    lemma_density(density);
    let to: u8 = d.on_track(t).track;
    let half: u8 = d.on_half_track(t).track;
    if let Some(at) = d.image {
        lemma_track_len(at, to, sectors_on(to as int));
        lemma_track_len(at, half, sectors_on(half as int));
    }
    lemma_track_len(image, d.track, sectors_on(d.track as int));
}

/// Turning keeps the disk well formed and the image what it is.
pub proof fn turning_keeps_the_disk(d: DiskView)
    requires
        d.wf(),
    ensures
        d.rotated(1).wf(),
        d.rotated(1).image == d.image,
        d.rotated(1).track == d.track,
        d.rotated(1).track_buffer == d.track_buffer,
{
    if d.motor_on && d.track_buffer.len() > 0 {
        lemma_density(d.density);
        let total = d.rotation_counter + 1;
        vstd::arithmetic::div_mod::lemma_mod_bound(total, d.period());
        vstd::arithmetic::div_mod::lemma_mod_bound(
            d.byte_pos + total / d.period(),
            d.track_buffer.len() as int,
        );
    }
}

/// The checksum follows every byte: changing one of them changes it by the bits that differ, and
/// zeros have the checksum 0.
pub proof fn checksum_follows_every_byte(s: Seq<u8>, i: int, x: u8)
    requires
        0 <= i < s.len(),
    ensures
        xor_all(s.update(i, x)) == xor_all(s) ^ s[i] ^ x,
        (forall|k: int| 0 <= k < s.len() ==> #[trigger] s[k] == 0) ==> xor_all(s) == 0,
    decreases s.len(),
{
    let last = s.len() - 1;
    let (front, changed) = (s.drop_last(), s.update(i, x));
    let (f, a, b) = (xor_all(front), s[i], s[last]);
    assert((f ^ a) ^ a ^ x == f ^ x && (f ^ a ^ x) ^ b == (f ^ b) ^ a ^ x && 0u8 ^ 0u8 == 0)
        by (bit_vector);
    if i == last {
        assert(changed.drop_last() =~= front);
    } else {
        checksum_follows_every_byte(front, i, x);
        assert(changed.drop_last() =~= front.update(i, x));
    }
    if last > 0 {
        checksum_follows_every_byte(front, 0, 0);
    }
}

/// Where the parts of a sector lie on the track.
proof fn lemma_parts_of_sector(image: Seq<u8>, track: u8, sector: u8)
    requires
        1 <= track <= 35,
    ensures
        ({
            let s = sector_on_track(image, track, sector);
            &&& s.len() == 362
            &&& decoded(s.subrange(5, 15)) == header_block(image, track, sector)
            &&& decoded(s.subrange(29, 354)) == data_block(image, track, sector)
            &&& forall|j: int| 15 <= j < 24 || 354 <= j < 362 ==> #[trigger] s[j] == GAP_BYTE
        }),
{
    reveal(sector_on_track);
    lemma_sector_len(image, track, sector);
    let s = sector_on_track(image, track, sector);
    let (h, d) = (header_block(image, track, sector), data_block(image, track, sector));
    assert(h.len() == 8 && d.len() == 260);
    decoding_undoes_encoding(h);
    decoding_undoes_encoding(d);
    assert(s.subrange(5, 15) =~= gcr_encoded(h));
    assert(s.subrange(29, 354) =~= gcr_encoded(d));
}

/// A part of a sector is the same part of the track.
proof fn lemma_part_of_track(d: DiskView, s: int, from: int, to: int)
    requires
        d.image is Some,
        1 <= d.track <= 35,
        0 <= s < sectors_on(d.track as int),
        0 <= from <= to <= 362,
    ensures
        d.rebuilt().track_buffer.len() == 362 * sectors_on(d.track as int),
        d.rebuilt().track_buffer.subrange(362 * s + from, 362 * s + to) == sector_on_track(
            d.image->Some_0,
            d.track,
            s as u8,
        ).subrange(from, to),
{
    let image = d.image->Some_0;
    let n = sectors_on(d.track as int);
    sector_lies_on_its_track(image, d.track, n, s);
    let whole = d.rebuilt().track_buffer;
    assert(whole == track_bytes(image, d.track, n));
    assert(whole.subrange(362 * s + from, 362 * s + to) =~= whole.subrange(
        362 * s,
        362 * s + 362,
    ).subrange(from, to));
}

/// Behind the first sync mark of a sector stands its header. Decoded, that is the mark 8, a checksum,
/// the number of the sector, that of the track, the two bytes that identify the disk, the second one
/// first, and filler. The checksum is the exclusive or of the four bytes behind it.
pub proof fn header_names_its_sector(d: DiskView, s: int)
    requires
        d.image is Some,
        1 <= d.track <= 35,
        0 <= s < sectors_on(d.track as int),
    ensures
        ({
            let image = d.image->Some_0;
            let map: int = 91392;
            let h = decoded(d.rebuilt().track_buffer.subrange(362 * s + 5, 362 * s + 15));
            &&& h.len() == 8
            &&& h[0] == 0x08
            &&& h[1] == h[2] ^ h[3] ^ h[4] ^ h[5]
            &&& h[2] == s
            &&& h[3] == d.track
            &&& image.len() >= map + 256 ==> h[4] == image[map + 0xA3] && h[5] == image[map + 0xA2]
            &&& image.len() < map + 256 ==> h[4] == 0x31 && h[5] == 0x30
            &&& h[6] == 0x0F && h[7] == 0x0F
        }),
{
    lemma_part_of_track(d, s, 5, 15);
    lemma_parts_of_sector(d.image->Some_0, d.track, s as u8);
    lemma_sectors_before(18);
}

/// Behind the second sync mark of a sector stands its data. Decoded, that is the mark 7, the 256 bytes
/// of the sector in the image, their checksum, and two zeros; a sector that the image does not reach
/// is shown as zeros.
#[verifier::spinoff_prover]
#[verifier::rlimit(40)]
pub proof fn data_is_that_of_the_image(d: DiskView, s: int, i: int)
    requires
        d.image is Some,
        1 <= d.track <= 35,
        0 <= s < sectors_on(d.track as int),
        0 <= i < 256,
    ensures
        ({
            let image = d.image->Some_0;
            let b = decoded(d.rebuilt().track_buffer.subrange(362 * s + 29, 362 * s + 354));
            let at = 256 * (sectors_before(d.track as int) + s);
            &&& b.len() == 260
            &&& b[0] == 0x07
            &&& at + 256 <= image.len() ==> b[1 + i] == image[at + i]
            &&& at + 256 > image.len() ==> b[1 + i] == 0
            &&& b[257] == xor_all(b.subrange(1, 257))
            &&& b[258] == 0 && b[259] == 0
        }),
{
    let image = d.image->Some_0;
    lemma_part_of_track(d, s, 29, 354);
    lemma_parts_of_sector(image, d.track, s as u8);
    lemma_sector_len(image, d.track, s as u8);
    lemma_sectors_before(d.track as int);
    let b = data_block(image, d.track, s as u8);
    assert(b.subrange(1, 257) =~= sector_data(image, d.track, s as u8));
}

/// A track is its sectors one after the other, 362 bytes each. Five bytes of ones in front of the
/// header and five in front of the data are sync marks and nothing else is; behind header and data
/// stand gaps. A track that is laid out is seen from its start.
pub proof fn track_is_sync_marks_blocks_and_gaps(d: DiskView, i: int)
    requires
        d.image is Some,
        1 <= d.track <= 35,
        0 <= i < 362 * sectors_on(d.track as int),
    ensures
        ({
            let r = d.rebuilt();
            let j = i % 362;
            &&& r.track_buffer.len() == 362 * sectors_on(d.track as int)
            &&& r.sync_mask.len() == r.track_buffer.len()
            &&& r.sync_mask[i] <==> j < 5 || 24 <= j < 29
            &&& r.sync_mask[i] ==> r.track_buffer[i] == 0xFF
            &&& 15 <= j < 24 || 354 <= j ==> r.track_buffer[i] == 0x55
            &&& r.byte_pos == 0 && r.rotation_counter == 0
            &&& r.image == d.image && r.track == d.track && r.half_track == d.half_track
            &&& r.motor_on == d.motor_on && r.density == d.density && r.byte_ready == d.byte_ready
        }),
{
    let image = d.image->Some_0;
    let n = sectors_on(d.track as int);
    let (s, j) = (i / 362, i % 362);
    lemma_part_of_track(d, s, j, j + 1);
    lemma_parts_of_sector(image, d.track, s as u8);
    let r = d.rebuilt();
    assert(r.track_buffer.subrange(362 * s + j, 362 * s + j + 1)[0] == r.track_buffer[i]);
    assert(sector_on_track(image, d.track, s as u8).subrange(j, j + 1)[0] == sector_on_track(
        image,
        d.track,
        s as u8,
    )[j]);
    if r.sync_mask[i] {
        sync_mark_is_all_ones(image, d.track, n, i);
    }
}

/// A disk that is put in is what the head sees; without one it sees nothing but gap.
pub proof fn mounted_disk_is_under_the_head(d: DiskView, image: Seq<u8>)
    requires
        d.wf(),
    ensures
        d.mounted(image).image == Some(image),
        d.mounted(image) == d.mounted(image).rebuilt(),
        d.mounted(image).track == d.track,
        d.mounted(image).half_track == d.half_track,
        d.track_buffer.len() == 0 ==> d.current() == 0x55,
        d.track_buffer.len() > 0 ==> d.current() == d.track_buffer[d.byte_pos] && d.over_sync()
            == d.sync_mask[d.byte_pos],
{
    assert(d.mounted(image).rebuilt().track_buffer == d.mounted(image).track_buffer);
}

/// The head goes to the track that it is sent to, or to the nearest one that there is. On another
/// track it sees that track of the same disk, from its start; where it stays, nothing changes.
pub proof fn head_sees_the_track_it_goes_to(d: DiskView, t: int)
    requires
        d.wf(),
    ensures
        ({
            let e = d.on_track(t);
            &&& t < 1 ==> e.track == 1
            &&& t > 35 ==> e.track == 35
            &&& 1 <= t <= 35 ==> e.track == t
            &&& e.track == d.track && d.track_buffer.len() > 0 ==> e == d
            &&& e.track != d.track ==> e == (DiskView {
                track: e.track,
                half_track: (2 * e.track) as u8,
                byte_pos: 0,
                rotation_counter: 0,
                ..d
            }).rebuilt()
            &&& e.image == d.image
        }),
{
}

/// A byte passes the head every 32, 30, 28 or 26 cycles, the faster the higher the density. Cycle by
/// cycle the disk counts up to that; then the next byte comes, after the last one the first, and it
/// is ready unless it belongs to a sync mark. Without a motor or a disk nothing turns.
pub proof fn disk_turns_cycle_by_cycle(d: DiskView)
    requires
        d.wf(),
    ensures
        d.period() == 32 - 2 * d.density,
        !d.motor_on || d.track_buffer.len() == 0 ==> d.rotated(1) == d,
        d.motor_on && d.track_buffer.len() > 0 && d.rotation_counter + 1 < 32 - 2 * d.density
            ==> d.rotated(1) == (DiskView { rotation_counter: d.rotation_counter + 1, ..d }),
        d.motor_on && d.track_buffer.len() > 0 && d.rotation_counter + 1 == 32 - 2 * d.density ==> {
            let e = d.rotated(1);
            let next = if d.byte_pos + 1 == d.track_buffer.len() {
                0
            } else {
                d.byte_pos + 1
            };
            &&& e.byte_pos == next
            &&& e.rotation_counter == 0
            &&& e.byte_ready <==> d.byte_ready || !d.sync_mask[next]
            &&& e == (DiskView { byte_pos: next, rotation_counter: 0, byte_ready: e.byte_ready, ..d })
        },
{
    lemma_density(d.density);
    assert(d.period() == 32 - 2 * d.density);
    if d.motor_on && d.track_buffer.len() > 0 {
        let p = d.period();
        let len = d.track_buffer.len() as int;
        let total = d.rotation_counter + 1;
        if total < p {
            lemma_fundamental_div_mod_converse(total, p, 0, total);
            vstd::arithmetic::div_mod::lemma_small_mod(d.byte_pos as nat, len as nat);
        } else if total == p {
            lemma_fundamental_div_mod_converse(total, p, 1, 0);
            if d.byte_pos + 1 == len {
                vstd::arithmetic::div_mod::lemma_mod_self_0(len);
            } else {
                vstd::arithmetic::div_mod::lemma_small_mod((d.byte_pos + 1) as nat, len as nat);
            }
            let next = d.ahead(1);
            if !d.sync_mask[next] {
                assert(d.data_within(1));
            }
            if d.data_within(1) {
                let j = choose|j: int| 1 <= j <= 1 && !d.sync_mask[#[trigger] d.ahead(j)];
                assert(j == 1);
            }
        }
    }
}

/// Density counts modulo four, and a motor that stops loses the byte that was ready; nothing else of
/// the disk changes by either.
pub proof fn motor_and_density_are_set(d: DiskView, on: bool, density: u8)
    ensures
        d.with_density(density) == (DiskView { density: (density % 4) as u8, ..d }),
        d.with_motor(true) == (DiskView { motor_on: true, ..d }),
        d.with_motor(false) == (DiskView { motor_on: false, byte_ready: false, ..d }),
{
    assert(density & 0x03 == density % 4) by (bit_vector);
}

/// Half a track is not a track: the head that stays on its track sees on, and one that comes to
/// another track sees that. The head never leaves half tracks 2 to 70.
pub proof fn half_tracks_belong_to_their_track(d: DiskView, h: int)
    requires
        d.wf(),
    ensures
        ({
            let e = d.on_half_track(h);
            &&& h < 2 ==> e.half_track == 2
            &&& h > 70 ==> e.half_track == 70
            &&& 2 <= h <= 70 ==> e.half_track == h
            &&& e.track == e.half_track as int / 2
            &&& e.track == d.track && d.track_buffer.len() > 0 ==> e == (DiskView {
                half_track: e.half_track,
                ..d
            })
            &&& e.track != d.track ==> e == (DiskView {
                half_track: e.half_track,
                ..d.on_track(e.track as int)
            })
        }),
{
}

/// At power-on the head stands on the directory track, the motor is off, and there is no disk.
pub proof fn drive_starts_on_the_directory_track()
    ensures
        ({
            let d = empty_disk();
            &&& d.wf()
            &&& d.track == 18 && d.half_track == 36 && d.density == 3
            &&& !d.motor_on && !d.byte_ready && d.image is None && d.track_buffer.len() == 0
        }),
{
}

} // verus!
