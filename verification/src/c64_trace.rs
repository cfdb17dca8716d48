//! What the computer reports of its own doings while a drive is attached: places in the loaders
//! that talk to the drive, bytes of memory and port registers that change, and transfers that hang.
use vstd::prelude::*;

use crate::iec::IecBus;
use crate::probe::{ByteWatch, EdgeWatch, HangWatch, HoldWatch, Tally, WordWatch};
use crate::via::word;

verus! {

/// Something that the computer reports.
#[derive(Debug, Clone, Copy, PartialEq, Eq, Structural)]
pub enum C64Event {
    /// The processor is in the fast loader.
    FastLoaderPc,
    /// The processor is in the code that sets a game up.
    GameInitPc,
    /// The byte that the fast loader waits for has changed.
    ReadyByte { from: u8, to: u8 },
    /// ATN and CLK are no longer held together.
    HoldEnded { start: u32, duration: u32 },
    /// ATN and CLK are held together for very long.
    HoldSticks { start: u32, duration: u32 },
    /// The drive runs code in its RAM.
    DriveInRam,
    /// The processor port has changed.
    CpuPort { from: u8, to: u8 },
    /// The lines of the serial bus have changed.
    SerialLines,
    /// The processor is in low memory.
    LowPc,
    /// Port A of CIA 2 has changed.
    Cia2PortA { from: u8, to: u8 },
    /// The interrupt mask of CIA 1 has changed.
    Cia1Mask { from: u8, to: u8 },
    /// The interrupt vector has changed.
    IrqVector { before: u16, after: u16 },
    /// Code has turned up at `$6160`.
    CodeSeen,
    /// A byte of a watched block has changed.
    BlockByte { base: u16, index: u8, from: u8, to: u8 },
    /// Some millions of cycles have passed.
    Milestone { cycle: u32 },
    /// The processor is in page 4.
    Page4Pc,
    /// The bytes that become the interrupt vector have changed.
    VectorSource { before: u16, after: u16 },
    /// A byte is stored in the page of those bytes.
    VectorSourceStore,
    /// The watch on `$4293` is alive.
    Heartbeat { hits: u32, now: u8, last: u8 },
    /// The byte at `$4293` is seen first, or has changed.
    SourceByte { first: bool, from: u8, to: u8 },
    /// The processor is in a routine that receives.
    ReceivePc,
    /// ATN is pulled low.
    AtnSequence,
    /// The KERNAL receives a byte.
    ReceiveEntry,
    /// The KERNAL waits for a bit for very long.
    ReceiveHang { cycles: u32 },
    /// The processor is in page 8.
    Page8Pc,
    /// Another million cycles have passed.
    Watchdog,
}

/// What the probes look at.
#[derive(Clone, Copy)]
pub struct C64Sample {
    /// The program counter.
    pub pc: u16,
    /// `$033E`.
    pub ready: u8,
    /// `$01`.
    pub cpu_port: u8,
    /// `$FFFE` and `$FFFF`.
    pub irq_lo: u8,
    pub irq_hi: u8,
    /// `$6160`-`$616F`.
    pub at_6160: [u8; 16],
    /// `$CA60`-`$CA6F`.
    pub at_ca60: [u8; 16],
    /// `$4293`.
    pub at_4293: u8,
    /// `$FF`.
    pub dest_page: u8,
    /// The interrupt mask of CIA 1.
    pub cia1_ier: u8,
    /// Port A of CIA 2.
    pub cia2_pra: u8,
}

/// The probes of the computer, but for those that watch a block.
#[derive(Debug, Clone, Copy, PartialEq, Eq, Structural)]
pub struct C64Trace {
    pub fastload_loop: WordWatch,
    pub game_init: WordWatch,
    pub mem_033e: ByteWatch,
    pub hold: HoldWatch,
    pub drv_ram: Tally,
    pub cpu_port: ByteWatch,
    pub pre_iec: ByteWatch,
    pub low_pc: WordWatch,
    pub cia2_pra: ByteWatch,
    pub cia1_ier: ByteWatch,
    pub irq_vector: WordWatch,
    pub seen_50m: bool,
    pub seen_80m: bool,
    pub seen_100m: bool,
    pub seen_120m: bool,
    pub page4: WordWatch,
    pub ca_bytes: WordWatch,
    pub sloop: Tally,
    pub mem_4293: ByteWatch,
    pub recv_pc: WordWatch,
    pub atn_seq: EdgeWatch,
    pub iecin: Tally,
    pub hang: HangWatch,
    pub page8: WordWatch,
}

/// Probes that have seen nothing yet.
pub open spec fn fresh_c64_trace() -> C64Trace {
    C64Trace {
        fastload_loop: WordWatch { last: 0xFFFF, hits: 0 },
        game_init: WordWatch { last: 0xFFFF, hits: 0 },
        mem_033e: ByteWatch { last: 0, hits: 0 },
        hold: HoldWatch { active: false, start: 0, long_reported: false, hits: 0 },
        drv_ram: Tally { hits: 0 },
        cpu_port: ByteWatch { last: 0xFF, hits: 0 },
        pre_iec: ByteWatch { last: 0xFF, hits: 0 },
        low_pc: WordWatch { last: 0xFFFF, hits: 0 },
        cia2_pra: ByteWatch { last: 0xFF, hits: 0 },
        cia1_ier: ByteWatch { last: 0, hits: 0 },
        irq_vector: WordWatch { last: 0xFF48, hits: 0 },
        seen_50m: false,
        seen_80m: false,
        seen_100m: false,
        seen_120m: false,
        page4: WordWatch { last: 0xFFFF, hits: 0 },
        ca_bytes: WordWatch { last: 0, hits: 0 },
        sloop: Tally { hits: 0 },
        mem_4293: ByteWatch { last: 0xFF, hits: 0 },
        recv_pc: WordWatch { last: 0xFFFF, hits: 0 },
        atn_seq: EdgeWatch { last: false, hits: 0 },
        iecin: Tally { hits: 0 },
        hang: HangWatch { cycles: 0, reported: false },
        page8: WordWatch { last: 0xFFFF, hits: 0 },
    }
}

/// The fast loader.
pub open spec fn in_fast_loader(pc: u16) -> bool {
    0x6000 <= pc <= 0x6300
}

/// The KERNAL's wait for a bit.
pub open spec fn in_bit_wait(pc: u16) -> bool {
    0xE5C0 <= pc <= 0xE5E0
}

/// A line as a bit.
pub open spec fn bit_of(line: bool, bit: u8) -> u8 {
    if line {
        bit
    } else {
        0
    }
}

/// Who pulls which line, as one byte.
pub open spec fn lines_byte(b: IecBus) -> u8 {
    bit_of(b.c64_atn, 1) | bit_of(b.c64_clk, 2) | bit_of(b.c64_data, 4) | bit_of(
        b.drive_clk,
        8,
    ) | bit_of(b.drive_data, 16)
}

/// Who pulls which line, as one byte.
fn lines(b: IecBus) -> (r: u8)
    ensures
        r == lines_byte(b),
{
    bit(b.c64_atn, 1) | bit(b.c64_clk, 2) | bit(b.c64_data, 4) | bit(b.drive_clk, 8) | bit(
        b.drive_data,
        16,
    )
}

/// A line as a bit.
pub(crate) fn bit(line: bool, b: u8) -> (r: u8)
    ensures
        r == bit_of(line, b),
{
    if line {
        b
    } else {
        0
    }
}

/// One event, or none.
pub open spec fn told(due: bool, e: C64Event) -> Seq<C64Event> {
    if due {
        seq![e]
    } else {
        seq![]
    }
}

/// Appends an event, if it is due.
fn tell(events: &mut Vec<C64Event>, due: bool, e: C64Event)
    ensures
        final(events)@ == old(events)@ + told(due, e),
{
    if due {
        events.push(e);
    }
    assert(events@ =~= old(events)@ + told(due, e));
}

/// Watches a block of 16 bytes.
pub struct BlockWatch {
    snap: [u8; 16],
    hits: u32,
}

/// What a block watch is.
pub struct BlockView {
    pub snap: Seq<u8>,
    pub hits: u32,
}

impl View for BlockWatch {
    type V = BlockView;

    closed spec fn view(&self) -> BlockView {
        BlockView { snap: self.snap@, hits: self.hits }
    }
}

/// A block watch that has seen nothing yet.
pub open spec fn fresh_block() -> BlockView {
    BlockView { snap: Seq::new(16, |i: int| 0u8), hits: 0 }
}

/// The changes among the first `n` bytes of a block.
pub open spec fn block_changes(snap: Seq<u8>, now: Seq<u8>, base: u16, n: int) -> Seq<C64Event>
    decreases n,
{
    if n <= 0 {
        Seq::empty()
    } else if now[n - 1] != snap[n - 1] {
        block_changes(snap, now, base, n - 1).push(
            C64Event::BlockByte { base, index: (n - 1) as u8, from: snap[n - 1], to: now[n - 1] },
        )
    } else {
        block_changes(snap, now, base, n - 1)
    }
}

impl BlockView {
    /// After the changes of a block have been reported.
    pub open spec fn followed(self, now: Seq<u8>) -> BlockView {
        BlockView {
            snap: now,
            hits: (self.hits + block_changes(self.snap, now, 0, 16).len()) as u32,
        }
    }

    /// A block of code is looked for until its first byte is that of `LDA`, and watched then.
    pub open spec fn code_seen(self, on: bool, now: Seq<u8>) -> bool {
        on && self.snap[0] == 0 && now[0] == 0xAD
    }

    /// The block of code is watched.
    pub open spec fn code_watched(self, on: bool) -> bool {
        on && self.snap[0] != 0
    }

    /// After a look at a block of code.
    pub open spec fn after_code(self, on: bool, now: Seq<u8>) -> BlockView {
        if self.code_seen(on, now) {
            BlockView { snap: now, ..self }
        } else if self.code_watched(on) {
            self.followed(now)
        } else {
            self
        }
    }

    /// With what a look at a block of code reports.
    pub open spec fn code_events(
        self,
        so_far: Seq<C64Event>,
        on: bool,
        now: Seq<u8>,
        base: u16,
    ) -> Seq<C64Event> {
        so_far + if self.code_seen(on, now) {
            seq![C64Event::CodeSeen]
        } else if self.code_watched(on) {
            block_changes(self.snap, now, base, 16)
        } else {
            seq![]
        }
    }

    /// After a look at a block of data.
    pub open spec fn after_data(self, on: bool, now: Seq<u8>) -> BlockView {
        if on {
            self.followed(now)
        } else {
            self
        }
    }

    /// With what a look at a block of data reports.
    pub open spec fn data_events(
        self,
        so_far: Seq<C64Event>,
        on: bool,
        now: Seq<u8>,
        base: u16,
    ) -> Seq<C64Event> {
        so_far + if on {
            block_changes(self.snap, now, base, 16)
        } else {
            seq![]
        }
    }
}

/// There are as many changes wherever the block is, and no more than bytes.
proof fn lemma_block_changes(snap: Seq<u8>, now: Seq<u8>, base: u16, n: int)
    requires
        0 <= n,
    ensures
        block_changes(snap, now, base, n).len() == block_changes(snap, now, 0, n).len(),
        block_changes(snap, now, base, n).len() <= n,
    decreases n,
{
    if n > 0 {
        lemma_block_changes(snap, now, base, n - 1);
    }
}

impl BlockWatch {
    /// A block watch that has seen nothing yet.
    pub fn new() -> (r: Self)
        ensures
            r@ == fresh_block(),
    {
        let r = BlockWatch { snap: [0u8; 16], hits: 0 };
        assert(r@.snap =~= fresh_block().snap);
        r
    }

    /// Changes that were reported.
    pub fn hits(&self) -> (r: u32)
        ensures
            r == self@.hits,
    {
        self.hits
    }

    /// The block as it was reported last.
    pub fn snap(&self) -> (r: [u8; 16])
        ensures
            r@ == self@.snap,
    {
        self.snap
    }

    /// Reports the changes of the block.
    fn follow(&mut self, now: &[u8; 16], base: u16, events: &mut Vec<C64Event>)
        requires
            old(self)@.hits < 0x1000,
        ensures
            final(self)@ == old(self)@.followed(now@),
            final(events)@ == old(events)@ + block_changes(old(self)@.snap, now@, base, 16),
    {
        let ghost before = events@;
        let ghost snap = self.snap@;
        let mut i: usize = 0;
        assert(before =~= before + block_changes(snap, now@, base, 0));
        while i < 16
            invariant
                i <= 16,
                snap.len() == 16,
                snap == old(self)@.snap,
                old(self)@.hits < 0x1000,
                events@ =~= before + block_changes(snap, now@, base, i as int),
                self.hits == old(self)@.hits + block_changes(snap, now@, base, i as int).len(),
                block_changes(snap, now@, base, i as int).len() <= i,
                self.snap@ == snap,
            decreases 16 - i,
        {
            if now[i] != self.snap[i] {
                events.push(
                    C64Event::BlockByte { base, index: i as u8, from: self.snap[i], to: now[i] },
                );
                self.hits = self.hits + 1;
            }
            i = i + 1;
        }
        proof {
            lemma_block_changes(snap, now@, base, 16);
        }
        self.snap = *now;
    }

    /// Looks at a block of code.
    fn note_code(&mut self, on: bool, now: &[u8; 16], base: u16, events: &mut Vec<C64Event>)
        requires
            on ==> old(self)@.hits < 0x1000,
        ensures
            final(self)@ == old(self)@.after_code(on, now@),
            final(events)@ == old(self)@.code_events(old(events)@, on, now@, base),
    {
        let ghost before = events@;
        if on {
            if self.snap[0] == 0 {
                if now[0] == 0xAD {
                    self.snap = *now;
                    events.push(C64Event::CodeSeen);
                }
            } else {
                self.follow(now, base, events);
            }
        }
        assert(events@ =~= old(self)@.code_events(before, on, now@, base));
    }

    /// Looks at a block of data.
    fn note_data(&mut self, on: bool, now: &[u8; 16], base: u16, events: &mut Vec<C64Event>)
        requires
            on ==> old(self)@.hits < 0x1000,
        ensures
            final(self)@ == old(self)@.after_data(on, now@),
            final(events)@ == old(self)@.data_events(old(events)@, on, now@, base),
    {
        let ghost before = events@;
        if on {
            self.follow(now, base, events);
        }
        assert(events@ =~= old(self)@.data_events(before, on, now@, base));
    }
}

/// The state of the machine around what the probes look at.
#[derive(Debug, Clone, Copy, PartialEq, Eq, Structural)]
pub struct Setting {
    /// Cycles of the computer.
    pub cycle: u32,
    /// The fast loader has been seen.
    pub fast: bool,
    /// Where the drive's processor is.
    pub drive_pc: u16,
    /// The serial bus.
    pub iec: Option<IecBus>,
}

impl Setting {
    /// The computer holds ATN and CLK.
    pub open spec fn held(self) -> bool {
        self.iec matches Some(b) && b.c64_atn && b.c64_clk
    }

    /// The computer holds ATN.
    pub open spec fn atn(self) -> bool {
        self.iec matches Some(b) && b.c64_atn
    }

    /// Who pulls which line.
    pub open spec fn lines(self) -> u8 {
        match self.iec {
            Some(b) => lines_byte(b),
            None => 0,
        }
    }
}

impl C64Trace {
    /// Edges of ATN are looked for.
    pub open spec fn atn_watched(self, g: Setting) -> bool {
        self.atn_seq.hits < 80 && g.iec is Some
    }

    /// The probes after a look at the loaders, the memory they share with the drive and the ports.
    pub open spec fn after_ports(self, s: C64Sample, g: Setting) -> C64Trace {
        C64Trace {
            fastload_loop: self.fastload_loop.after(100, g.fast && in_fast_loader(s.pc), s.pc),
            game_init: self.game_init.after(100, !g.fast && 0xC000 <= s.pc <= 0xD000, s.pc),
            mem_033e: self.mem_033e.after(20, true, s.ready),
            hold: if g.iec is Some {
                self.hold.after(40, 50_000, g.cycle, g.held())
            } else {
                self.hold
            },
            drv_ram: self.drv_ram.after(50, g.drive_pc <= 0x07FF),
            cpu_port: self.cpu_port.after(60, g.cycle > 75_000_000, s.cpu_port),
            ..self
        }
    }

    /// With what such a look reports.
    pub open spec fn port_events(
        self,
        so_far: Seq<C64Event>,
        s: C64Sample,
        g: Setting,
    ) -> Seq<C64Event> {
        so_far + told(
            self.fastload_loop.reports(100, g.fast && in_fast_loader(s.pc), s.pc),
            C64Event::FastLoaderPc,
        ) + told(
            self.game_init.reports(100, !g.fast && 0xC000 <= s.pc <= 0xD000, s.pc),
            C64Event::GameInitPc,
        ) + told(
            self.mem_033e.reports(20, true, s.ready),
            C64Event::ReadyByte { from: self.mem_033e.last, to: s.ready },
        ) + told(
            g.iec is Some && self.hold.ends(40, g.held()),
            C64Event::HoldEnded {
                start: self.hold.start,
                duration: self.hold.duration(g.cycle),
            },
        ) + told(
            g.iec is Some && self.hold.sticks(50_000, g.cycle, g.held()),
            C64Event::HoldSticks {
                start: self.hold.start,
                duration: self.hold.duration(g.cycle),
            },
        ) + told(
            self.drv_ram.reports(50, g.drive_pc <= 0x07FF),
            C64Event::DriveInRam,
        ) + told(
            self.cpu_port.reports(60, g.cycle > 75_000_000, s.cpu_port),
            C64Event::CpuPort { from: self.cpu_port.last, to: s.cpu_port },
        )
    }

    /// The probes after a look at the serial bus, the CIAs and the interrupt vector.
    pub open spec fn after_chips(self, s: C64Sample, g: Setting) -> C64Trace {
        C64Trace {
            pre_iec: self.pre_iec.after(
                50,
                !g.fast && g.cycle >= 77_000_000 && g.iec is Some,
                g.lines(),
            ),
            low_pc: self.low_pc.after(
                150,
                !g.fast && g.cycle > 105_000_000 && s.pc <= 0x03FF,
                s.pc,
            ),
            cia2_pra: self.cia2_pra.after(50, g.cycle > 80_000_000, s.cia2_pra),
            cia1_ier: self.cia1_ier.after(50, true, s.cia1_ier),
            irq_vector: self.irq_vector.after(
                30,
                g.cycle > 75_000_000,
                word(s.irq_hi, s.irq_lo),
            ),
            ..self
        }
    }

    /// With what such a look reports.
    pub open spec fn chip_events(
        self,
        so_far: Seq<C64Event>,
        s: C64Sample,
        g: Setting,
    ) -> Seq<C64Event> {
        so_far + told(
            self.pre_iec.reports(
                50,
                !g.fast && g.cycle >= 77_000_000 && g.iec is Some,
                g.lines(),
            ),
            C64Event::SerialLines,
        ) + told(
            self.low_pc.reports(
                150,
                !g.fast && g.cycle > 105_000_000 && s.pc <= 0x03FF,
                s.pc,
            ),
            C64Event::LowPc,
        ) + told(
            self.cia2_pra.reports(50, g.cycle > 80_000_000, s.cia2_pra),
            C64Event::Cia2PortA { from: self.cia2_pra.last, to: s.cia2_pra },
        ) + told(
            self.cia1_ier.reports(50, true, s.cia1_ier),
            C64Event::Cia1Mask { from: self.cia1_ier.last, to: s.cia1_ier },
        ) + told(
            self.irq_vector.reports(30, g.cycle > 75_000_000, word(s.irq_hi, s.irq_lo)),
            C64Event::IrqVector {
                before: self.irq_vector.last,
                after: word(s.irq_hi, s.irq_lo),
            },
        )
    }

    /// The probes after a look at how the interrupt vector comes about.
    pub open spec fn after_unpacking(self, s: C64Sample, g: Setting) -> C64Trace {
        C64Trace {
            seen_50m: self.seen_50m || g.cycle >= 50_000_000,
            seen_80m: self.seen_80m || g.cycle >= 80_000_000,
            seen_100m: self.seen_100m || g.cycle >= 100_000_000,
            seen_120m: self.seen_120m || g.cycle >= 120_000_000,
            page4: self.page4.after(
                2000,
                g.cycle > 90_000_000 && 0x0400 <= s.pc <= 0x04FF,
                s.pc,
            ),
            ca_bytes: self.ca_bytes.after(
                40,
                g.cycle > 75_000_000,
                word(s.at_ca60@[8], s.at_ca60@[7]),
            ),
            sloop: self.sloop.after(
                200,
                g.cycle > 90_000_000 && s.pc == 0x0472 && s.dest_page == 0xCA,
            ),
            mem_4293: self.mem_4293.after_first(10, g.cycle > 79_000_000, s.at_4293),
            ..self
        }
    }

    /// With what such a look reports.
    pub open spec fn unpacking_events(
        self,
        so_far: Seq<C64Event>,
        s: C64Sample,
        g: Setting,
    ) -> Seq<C64Event> {
        so_far + told(
            !self.seen_50m && g.cycle >= 50_000_000,
            C64Event::Milestone { cycle: 50_000_000 },
        ) + told(
            !self.seen_80m && g.cycle >= 80_000_000,
            C64Event::Milestone { cycle: 80_000_000 },
        ) + told(
            !self.seen_100m && g.cycle >= 100_000_000,
            C64Event::Milestone { cycle: 100_000_000 },
        ) + told(
            !self.seen_120m && g.cycle >= 120_000_000,
            C64Event::Milestone { cycle: 120_000_000 },
        ) + told(
            self.page4.reports(
                2000,
                g.cycle > 90_000_000 && 0x0400 <= s.pc <= 0x04FF,
                s.pc,
            ),
            C64Event::Page4Pc,
        ) + told(
            self.ca_bytes.reports(
                40,
                g.cycle > 75_000_000,
                word(s.at_ca60@[8], s.at_ca60@[7]),
            ),
            C64Event::VectorSource {
                before: self.ca_bytes.last,
                after: word(s.at_ca60@[8], s.at_ca60@[7]),
            },
        ) + told(
            self.sloop.reports(
                200,
                g.cycle > 90_000_000 && s.pc == 0x0472 && s.dest_page == 0xCA,
            ),
            C64Event::VectorSourceStore,
        ) + told(
            79_000_000 < g.cycle < 79_000_010,
            C64Event::Heartbeat {
                hits: self.mem_4293.hits,
                now: s.at_4293,
                last: self.mem_4293.last,
            },
        ) + told(
            self.mem_4293.reports_first(10, g.cycle > 79_000_000, s.at_4293),
            C64Event::SourceByte {
                first: self.mem_4293.hits == 0,
                from: self.mem_4293.last,
                to: s.at_4293,
            },
        )
    }

    /// The probes after a look at transfers.
    pub open spec fn after_transfer(self, s: C64Sample, g: Setting) -> C64Trace {
        C64Trace {
            recv_pc: self.recv_pc.after(300, g.cycle > 93_000_000 && s.pc <= 0x03FF, s.pc),
            atn_seq: self.atn_seq.after(
                80,
                self.atn_watched(g),
                self.atn_watched(g),
                g.atn(),
                true,
            ),
            iecin: self.iecin.after(10, g.cycle > 89_000_000 && s.pc == 0xEE56),
            hang: self.hang.after(2_000_000, in_bit_wait(s.pc)),
            page8: self.page8.after(
                80,
                !g.fast && g.cycle > 90_000_000 && 0x0800 <= s.pc <= 0x08FF,
                s.pc,
            ),
            ..self
        }
    }

    /// With what such a look reports.
    pub open spec fn transfer_events(
        self,
        so_far: Seq<C64Event>,
        s: C64Sample,
        g: Setting,
    ) -> Seq<C64Event> {
        so_far + told(
            self.recv_pc.reports(300, g.cycle > 93_000_000 && s.pc <= 0x03FF, s.pc),
            C64Event::ReceivePc,
        ) + told(
            self.atn_seq.reports(80, self.atn_watched(g), g.atn(), true),
            C64Event::AtnSequence,
        ) + told(
            self.iecin.reports(10, g.cycle > 89_000_000 && s.pc == 0xEE56),
            C64Event::ReceiveEntry,
        ) + told(
            self.hang.reports(2_000_000, in_bit_wait(s.pc)),
            C64Event::ReceiveHang { cycles: (self.hang.cycles + 1) as u32 },
        ) + told(
            self.page8.reports(
                80,
                !g.fast && g.cycle > 90_000_000 && 0x0800 <= s.pc <= 0x08FF,
                s.pc,
            ),
            C64Event::Page8Pc,
        ) + told(g.cycle % 1_000_000 == 0, C64Event::Watchdog)
    }

    /// Probes that have seen nothing yet.
    pub fn new() -> (r: Self)
        ensures
            r == fresh_c64_trace(),
    {
        C64Trace {
            fastload_loop: WordWatch { last: 0xFFFF, hits: 0 },
            game_init: WordWatch { last: 0xFFFF, hits: 0 },
            mem_033e: ByteWatch { last: 0, hits: 0 },
            hold: HoldWatch { active: false, start: 0, long_reported: false, hits: 0 },
            drv_ram: Tally { hits: 0 },
            cpu_port: ByteWatch { last: 0xFF, hits: 0 },
            pre_iec: ByteWatch { last: 0xFF, hits: 0 },
            low_pc: WordWatch { last: 0xFFFF, hits: 0 },
            cia2_pra: ByteWatch { last: 0xFF, hits: 0 },
            cia1_ier: ByteWatch { last: 0, hits: 0 },
            irq_vector: WordWatch { last: 0xFF48, hits: 0 },
            seen_50m: false,
            seen_80m: false,
            seen_100m: false,
            seen_120m: false,
            page4: WordWatch { last: 0xFFFF, hits: 0 },
            ca_bytes: WordWatch { last: 0, hits: 0 },
            sloop: Tally { hits: 0 },
            mem_4293: ByteWatch { last: 0xFF, hits: 0 },
            recv_pc: WordWatch { last: 0xFFFF, hits: 0 },
            atn_seq: EdgeWatch { last: false, hits: 0 },
            iecin: Tally { hits: 0 },
            hang: HangWatch { cycles: 0, reported: false },
            page8: WordWatch { last: 0xFFFF, hits: 0 },
        }
    }

    fn observe_ports(&mut self, s: &C64Sample, g: Setting, events: &mut Vec<C64Event>)
        requires
            old(self).hold.hits < u32::MAX,
        ensures
            *final(self) == old(self).after_ports(*s, g),
            final(events)@ == old(self).port_events(old(events)@, *s, g),
    {
        let in_loader = 0x6000 <= s.pc && s.pc <= 0x6300;
        let due = self.fastload_loop.note(100, g.fast && in_loader, s.pc);
        tell(events, due, C64Event::FastLoaderPc);
        let in_init = 0xC000 <= s.pc && s.pc <= 0xD000;
        let due = self.game_init.note(100, !g.fast && in_init, s.pc);
        tell(events, due, C64Event::GameInitPc);
        let from: u8 = self.mem_033e.last;
        let due = self.mem_033e.note(20, true, s.ready);
        tell(events, due, C64Event::ReadyByte { from, to: s.ready });
        let start: u32 = self.hold.start;
        let duration: u32 = g.cycle.wrapping_sub(start);
        let (ends, sticks): (bool, bool) = match g.iec {
            Some(b) => self.hold.note(40, 50_000, g.cycle, b.c64_atn && b.c64_clk),
            None => (false, false),
        };
        tell(events, ends, C64Event::HoldEnded { start, duration });
        tell(events, sticks, C64Event::HoldSticks { start, duration });
        let due = self.drv_ram.note(50, g.drive_pc <= 0x07FF);
        tell(events, due, C64Event::DriveInRam);
        let from: u8 = self.cpu_port.last;
        let due = self.cpu_port.note(60, g.cycle > 75_000_000, s.cpu_port);
        tell(events, due, C64Event::CpuPort { from, to: s.cpu_port });
    }

    fn observe_chips(&mut self, s: &C64Sample, g: Setting, events: &mut Vec<C64Event>)
        ensures
            *final(self) == old(self).after_chips(*s, g),
            final(events)@ == old(self).chip_events(old(events)@, *s, g),
    {
        let (attached, now): (bool, u8) = match g.iec {
            Some(b) => (true, lines(b)),
            None => (false, 0),
        };
        let due = self.pre_iec.note(50, !g.fast && g.cycle >= 77_000_000 && attached, now);
        tell(events, due, C64Event::SerialLines);
        let low = g.cycle > 105_000_000 && s.pc <= 0x03FF;
        let due = self.low_pc.note(150, !g.fast && low, s.pc);
        tell(events, due, C64Event::LowPc);
        let from: u8 = self.cia2_pra.last;
        let due = self.cia2_pra.note(50, g.cycle > 80_000_000, s.cia2_pra);
        tell(events, due, C64Event::Cia2PortA { from, to: s.cia2_pra });
        let from: u8 = self.cia1_ier.last;
        let due = self.cia1_ier.note(50, true, s.cia1_ier);
        tell(events, due, C64Event::Cia1Mask { from, to: s.cia1_ier });
        let before: u16 = self.irq_vector.last;
        let after: u16 = ((s.irq_hi as u16) << 8) | (s.irq_lo as u16);
        let due = self.irq_vector.note(30, g.cycle > 75_000_000, after);
        tell(events, due, C64Event::IrqVector { before, after });
    }

    fn observe_unpacking(&mut self, s: &C64Sample, g: Setting, events: &mut Vec<C64Event>)
        ensures
            *final(self) == old(self).after_unpacking(*s, g),
            final(events)@ == old(self).unpacking_events(old(events)@, *s, g),
    {
        let due = !self.seen_50m && g.cycle >= 50_000_000;
        self.seen_50m = self.seen_50m || due;
        tell(events, due, C64Event::Milestone { cycle: 50_000_000 });
        let due = !self.seen_80m && g.cycle >= 80_000_000;
        self.seen_80m = self.seen_80m || due;
        tell(events, due, C64Event::Milestone { cycle: 80_000_000 });
        let due = !self.seen_100m && g.cycle >= 100_000_000;
        self.seen_100m = self.seen_100m || due;
        tell(events, due, C64Event::Milestone { cycle: 100_000_000 });
        let due = !self.seen_120m && g.cycle >= 120_000_000;
        self.seen_120m = self.seen_120m || due;
        tell(events, due, C64Event::Milestone { cycle: 120_000_000 });
        let there = 0x0400 <= s.pc && s.pc <= 0x04FF;
        let due = self.page4.note(2000, g.cycle > 90_000_000 && there, s.pc);
        tell(events, due, C64Event::Page4Pc);
        let before: u16 = self.ca_bytes.last;
        let after: u16 = ((s.at_ca60[8] as u16) << 8) | (s.at_ca60[7] as u16);
        let due = self.ca_bytes.note(40, g.cycle > 75_000_000, after);
        tell(events, due, C64Event::VectorSource { before, after });
        let storing = s.pc == 0x0472 && s.dest_page == 0xCA;
        let due = self.sloop.note(200, g.cycle > 90_000_000 && storing);
        tell(events, due, C64Event::VectorSourceStore);
        let from: u8 = self.mem_4293.last;
        let hits: u32 = self.mem_4293.hits;
        let due = 79_000_000 < g.cycle && g.cycle < 79_000_010;
        tell(events, due, C64Event::Heartbeat { hits, now: s.at_4293, last: from });
        let due = self.mem_4293.note_first(10, g.cycle > 79_000_000, s.at_4293);
        tell(events, due, C64Event::SourceByte { first: hits == 0, from, to: s.at_4293 });
    }

    fn observe_transfer(&mut self, s: &C64Sample, g: Setting, events: &mut Vec<C64Event>)
        requires
            old(self).hang.cycles < u32::MAX,
        ensures
            *final(self) == old(self).after_transfer(*s, g),
            final(events)@ == old(self).transfer_events(old(events)@, *s, g),
    {
        let due = self.recv_pc.note(300, g.cycle > 93_000_000 && s.pc <= 0x03FF, s.pc);
        tell(events, due, C64Event::ReceivePc);
        let (attached, atn): (bool, bool) = match g.iec {
            Some(b) => (true, b.c64_atn),
            None => (false, false),
        };
        let watched = self.atn_seq.hits < 80 && attached;
        let due = self.atn_seq.note(80, watched, watched, atn, true);
        tell(events, due, C64Event::AtnSequence);
        let due = self.iecin.note(10, g.cycle > 89_000_000 && s.pc == 0xEE56);
        tell(events, due, C64Event::ReceiveEntry);
        let cycles: u32 = self.hang.cycles + 1;
        let due = self.hang.note(2_000_000, 0xE5C0 <= s.pc && s.pc <= 0xE5E0);
        tell(events, due, C64Event::ReceiveHang { cycles });
        let there = 0x0800 <= s.pc && s.pc <= 0x08FF;
        let due = self.page8.note(80, !g.fast && g.cycle > 90_000_000 && there, s.pc);
        tell(events, due, C64Event::Page8Pc);
        tell(events, g.cycle % 1_000_000 == 0, C64Event::Watchdog);
    }
}

/// All probes of the computer.
pub struct C64Probes {
    trace: C64Trace,
    code: BlockWatch,
    data: BlockWatch,
}

/// What the probes are.
pub struct ProbesView {
    pub trace: C64Trace,
    pub code: BlockView,
    pub data: BlockView,
}

/// Probes that have seen nothing yet.
pub open spec fn fresh_probes() -> ProbesView {
    ProbesView { trace: fresh_c64_trace(), code: fresh_block(), data: fresh_block() }
}

impl ProbesView {
    /// No count is at its end.
    pub open spec fn counting(self) -> bool {
        self.trace.hold.hits < u32::MAX && self.trace.hang.cycles < u32::MAX
    }

    /// The block of code is looked at.
    pub open spec fn code_on(self, g: Setting) -> bool {
        self.code.hits < 40 && g.cycle > 75_000_000
    }

    /// The block of data is looked at.
    pub open spec fn data_on(self, g: Setting) -> bool {
        self.data.hits < 60 && g.cycle > 75_000_000
    }

    /// After a look at the computer.
    pub open spec fn after(self, s: C64Sample, g: Setting) -> ProbesView {
        ProbesView {
            trace: self.trace.after_ports(s, g).after_chips(s, g).after_unpacking(
                s,
                g,
            ).after_transfer(s, g),
            code: self.code.after_code(self.code_on(g), s.at_6160@),
            data: self.data.after_data(self.data_on(g), s.at_ca60@),
        }
    }

    /// What a look at the computer reports.
    pub open spec fn events(self, s: C64Sample, g: Setting) -> Seq<C64Event> {
        let ports = self.trace.port_events(seq![], s, g);
        let chips = self.trace.chip_events(ports, s, g);
        let code = self.code.code_events(chips, self.code_on(g), s.at_6160@, 0x6160);
        let data = self.data.data_events(code, self.data_on(g), s.at_ca60@, 0xCA60);
        let unpacking = self.trace.unpacking_events(data, s, g);
        self.trace.transfer_events(unpacking, s, g)
    }
}

impl View for C64Probes {
    type V = ProbesView;

    closed spec fn view(&self) -> ProbesView {
        ProbesView { trace: self.trace, code: self.code@, data: self.data@ }
    }
}

impl C64Probes {
    /// Probes that have seen nothing yet.
    pub fn new() -> (r: Self)
        ensures
            r@ == fresh_probes(),
    {
        C64Probes { trace: C64Trace::new(), code: BlockWatch::new(), data: BlockWatch::new() }
    }

    /// No count is at its end.
    pub fn can_count(&self) -> (r: bool)
        ensures
            r == self@.counting(),
    {
        self.trace.hold.hits < u32::MAX && self.trace.hang.cycles < u32::MAX
    }

    /// The block of data that is watched, as it was reported last, and how often it was.
    pub fn data_block(&self) -> (r: ([u8; 16], u32))
        ensures
            r.0@ == self@.data.snap,
            r.1 == self@.data.hits,
    {
        (self.data.snap(), self.data.hits())
    }

    /// Looks at the computer.
    pub fn observe(&mut self, s: &C64Sample, g: Setting) -> (events: Vec<C64Event>)
        requires
            old(self)@.counting(),
        ensures
            final(self)@ == old(self)@.after(*s, g),
            events@ == old(self)@.events(*s, g),
    {
        let mut events: Vec<C64Event> = Vec::new();
        self.trace.observe_ports(s, g, &mut events);
        self.trace.observe_chips(s, g, &mut events);
        let late = g.cycle > 75_000_000;
        let on = self.code.hits() < 40 && late;
        self.code.note_code(on, &s.at_6160, 0x6160, &mut events);
        let on = self.data.hits() < 60 && late;
        self.data.note_data(on, &s.at_ca60, 0xCA60, &mut events);
        self.trace.observe_unpacking(s, g, &mut events);
        self.trace.observe_transfer(s, g, &mut events);
        events
    }
}

/// The number of reports that a probe has made stays within its limit; a block is reported whole,
/// and may take its watch beyond the limit by what is left of it.
pub open spec fn within_c64_limits(p: ProbesView) -> bool {
    &&& p.trace.fastload_loop.hits <= 100
    &&& p.trace.game_init.hits <= 100
    &&& p.trace.mem_033e.hits <= 20
    &&& p.trace.drv_ram.hits <= 50
    &&& p.trace.cpu_port.hits <= 60
    &&& p.trace.pre_iec.hits <= 50
    &&& p.trace.low_pc.hits <= 150
    &&& p.trace.cia2_pra.hits <= 50
    &&& p.trace.cia1_ier.hits <= 50
    &&& p.trace.irq_vector.hits <= 30
    &&& p.code.hits <= 55
    &&& p.data.hits <= 75
    &&& p.trace.page4.hits <= 2000
    &&& p.trace.ca_bytes.hits <= 40
    &&& p.trace.sloop.hits <= 200
    &&& p.trace.mem_4293.hits <= 10
    &&& p.trace.recv_pc.hits <= 300
    &&& p.trace.atn_seq.hits <= 80
    &&& p.trace.iecin.hits <= 10
    &&& p.trace.page8.hits <= 80
}

/// The probes keep to their limits, whatever they look at.
pub proof fn c64_probes_keep_to_their_limits(p: ProbesView, s: C64Sample, g: Setting)
    requires
        within_c64_limits(p),
    ensures
        within_c64_limits(fresh_probes()),
        within_c64_limits(p.after(s, g)),
{
    lemma_block_changes(p.code.snap, s.at_6160@, 0, 16);
    lemma_block_changes(p.data.snap, s.at_ca60@, 0, 16);
}

/// A milestone that has been passed is noted, and stays noted, so it is reported once.
pub proof fn milestones_are_reported_once(p: ProbesView, s: C64Sample, g: Setting)
    ensures
        g.cycle >= 50_000_000 || p.trace.seen_50m ==> p.after(s, g).trace.seen_50m,
        g.cycle >= 80_000_000 || p.trace.seen_80m ==> p.after(s, g).trace.seen_80m,
        g.cycle >= 100_000_000 || p.trace.seen_100m ==> p.after(s, g).trace.seen_100m,
        g.cycle >= 120_000_000 || p.trace.seen_120m ==> p.after(s, g).trace.seen_120m,
{
}

/// What is appended is in the list, and what was in it stays.
proof fn lemma_contains_add(a: Seq<C64Event>, b: Seq<C64Event>, x: C64Event)
    ensures
        (a + b).contains(x) <==> a.contains(x) || b.contains(x),
{
    let all = a + b;
    if a.contains(x) {
        let i = choose|i: int| 0 <= i < a.len() && a[i] == x;
        assert(all[i] == x);
    }
    if b.contains(x) {
        let i = choose|i: int| 0 <= i < b.len() && b[i] == x;
        assert(all[a.len() + i] == x);
    }
    if all.contains(x) {
        let i = choose|i: int| 0 <= i < all.len() && all[i] == x;
        if i < a.len() {
            assert(a[i] == x);
        } else {
            assert(b[i - a.len()] == x);
        }
    }
}

/// The same for one event.
broadcast proof fn lemma_told(so_far: Seq<C64Event>, due: bool, e: C64Event, x: C64Event)
    ensures
        #[trigger] (so_far + told(due, e)).contains(x) <==> so_far.contains(x) || (due && x == e),
{
    lemma_contains_add(so_far, told(due, e), x);
    if due {
        assert(told(due, e)[0] == e);
    }
}

/// Of a block exactly the bytes are reported that have changed.
proof fn lemma_changes_reported(snap: Seq<u8>, now: Seq<u8>, base: u16, n: int, x: C64Event)
    requires
        0 <= n <= 16,
    ensures
        block_changes(snap, now, base, n).contains(x) <==> (x matches C64Event::BlockByte {
            base: b,
            index,
            from,
            to,
        } && b == base && index < n && from == snap[index as int] && to == now[index as int] && from
            != to),
    decreases n,
{
    if n > 0 {
        lemma_changes_reported(snap, now, base, n - 1, x);
        let before = block_changes(snap, now, base, n - 1);
        let e = C64Event::BlockByte {
            base,
            index: (n - 1) as u8,
            from: snap[n - 1],
            to: now[n - 1],
        };
        if now[n - 1] != snap[n - 1] {
            assert(before.push(e) =~= before + seq![e]);
            lemma_contains_add(before, seq![e], x);
            assert(seq![e][0] == e);
        }
    }
}

/// An event of the loaders, of the memory they share with the drive or of the ports is due.
pub open spec fn port_event_due(t: C64Trace, s: C64Sample, g: Setting, e: C64Event) -> bool {
    let held = g.iec matches Some(b) && b.c64_atn && b.c64_clk;
    match e {
        C64Event::FastLoaderPc => g.fast && 0x6000 <= s.pc <= 0x6300 && t.fastload_loop.hits < 100
            && s.pc != t.fastload_loop.last,
        C64Event::GameInitPc => !g.fast && 0xC000 <= s.pc <= 0xD000 && t.game_init.hits < 100 && s.pc
            != t.game_init.last,
        C64Event::ReadyByte { from, to } => from == t.mem_033e.last && to == s.ready && from != to
            && t.mem_033e.hits < 20,
        C64Event::HoldEnded { start, duration } => g.iec is Some && t.hold.active && !held
            && t.hold.hits < 40 && start == t.hold.start && duration == g.cycle.wrapping_sub(start),
        C64Event::HoldSticks { start, duration } => t.hold.active && held && !t.hold.long_reported
            && start == t.hold.start && duration == g.cycle.wrapping_sub(start) && duration >= 50_000,
        C64Event::DriveInRam => g.drive_pc <= 0x07FF && t.drv_ram.hits < 50,
        C64Event::CpuPort { from, to } => g.cycle > 75_000_000 && from == t.cpu_port.last && to
            == s.cpu_port && from != to && t.cpu_port.hits < 60,
        _ => false,
    }
}

/// An event of the serial bus, of the CIAs or of the interrupt vector is due.
pub open spec fn chip_event_due(t: C64Trace, s: C64Sample, g: Setting, e: C64Event) -> bool {
    match e {
        C64Event::SerialLines => !g.fast && g.cycle >= 77_000_000 && g.iec is Some && t.pre_iec.hits
            < 50 && g.lines() != t.pre_iec.last,
        C64Event::LowPc => !g.fast && g.cycle > 105_000_000 && s.pc <= 0x03FF && t.low_pc.hits < 150
            && s.pc != t.low_pc.last,
        C64Event::Cia2PortA { from, to } => g.cycle > 80_000_000 && from == t.cia2_pra.last && to
            == s.cia2_pra && from != to && t.cia2_pra.hits < 50,
        C64Event::Cia1Mask { from, to } => from == t.cia1_ier.last && to == s.cia1_ier && from != to
            && t.cia1_ier.hits < 50,
        C64Event::IrqVector { before, after } => g.cycle > 75_000_000 && before == t.irq_vector.last
            && after == s.irq_lo + 256 * s.irq_hi && before != after && t.irq_vector.hits < 30,
        _ => false,
    }
}

/// An event of one of the watched blocks is due.
pub open spec fn block_event_due(p: ProbesView, s: C64Sample, g: Setting, e: C64Event) -> bool {
    match e {
        C64Event::CodeSeen => g.cycle > 75_000_000 && p.code.hits < 40 && p.code.snap[0] == 0
            && s.at_6160@[0] == 0xAD,
        C64Event::BlockByte { base, index, from, to } => g.cycle > 75_000_000 && index < 16 && from
            != to && ((base == 0x6160 && p.code.hits < 40 && p.code.snap[0] != 0 && from
            == p.code.snap[index as int] && to == s.at_6160@[index as int]) || (base == 0xCA60
            && p.data.hits < 60 && from == p.data.snap[index as int] && to
            == s.at_ca60@[index as int])),
        _ => false,
    }
}

/// An event of how the interrupt vector comes about is due.
pub open spec fn unpacking_event_due(t: C64Trace, s: C64Sample, g: Setting, e: C64Event) -> bool {
    match e {
        C64Event::Milestone { cycle } => g.cycle >= cycle && ((cycle == 50_000_000 && !t.seen_50m) || (
        cycle == 80_000_000 && !t.seen_80m) || (cycle == 100_000_000 && !t.seen_100m) || (cycle
            == 120_000_000 && !t.seen_120m)),
        C64Event::Page4Pc => g.cycle > 90_000_000 && 0x0400 <= s.pc <= 0x04FF && t.page4.hits < 2000
            && s.pc != t.page4.last,
        C64Event::VectorSource { before, after } => g.cycle > 75_000_000 && before == t.ca_bytes.last
            && after == s.at_ca60@[7] + 256 * s.at_ca60@[8] && before != after && t.ca_bytes.hits < 40,
        C64Event::VectorSourceStore => g.cycle > 90_000_000 && s.pc == 0x0472 && s.dest_page == 0xCA
            && t.sloop.hits < 200,
        C64Event::Heartbeat { hits, now, last } => 79_000_000 < g.cycle < 79_000_010 && hits
            == t.mem_4293.hits && now == s.at_4293 && last == t.mem_4293.last,
        C64Event::SourceByte { first, from, to } => g.cycle > 79_000_000 && t.mem_4293.hits < 10
            && first == (t.mem_4293.hits == 0) && from == t.mem_4293.last && to == s.at_4293 && (first
            || from != to),
        _ => false,
    }
}

/// An event of a transfer is due.
pub open spec fn transfer_event_due(t: C64Trace, s: C64Sample, g: Setting, e: C64Event) -> bool {
    match e {
        C64Event::ReceivePc => g.cycle > 93_000_000 && s.pc <= 0x03FF && t.recv_pc.hits < 300 && s.pc
            != t.recv_pc.last,
        C64Event::AtnSequence => (g.iec matches Some(b) && b.c64_atn) && !t.atn_seq.last
            && t.atn_seq.hits < 80,
        C64Event::ReceiveEntry => g.cycle > 89_000_000 && s.pc == 0xEE56 && t.iecin.hits < 10,
        C64Event::ReceiveHang { cycles } => 0xE5C0 <= s.pc <= 0xE5E0 && !t.hang.reported && cycles
            == t.hang.cycles + 1 && cycles > 2_000_000,
        C64Event::Page8Pc => !g.fast && g.cycle > 90_000_000 && 0x0800 <= s.pc <= 0x08FF
            && t.page8.hits < 80 && s.pc != t.page8.last,
        C64Event::Watchdog => g.cycle % 1_000_000 == 0,
        _ => false,
    }
}

proof fn lemma_port_events(t: C64Trace, so_far: Seq<C64Event>, s: C64Sample, g: Setting, e: C64Event)
    ensures
        t.port_events(so_far, s, g).contains(e) <==> so_far.contains(e) || port_event_due(t, s, g, e),
{
    broadcast use lemma_told;

}

proof fn lemma_chip_events(t: C64Trace, so_far: Seq<C64Event>, s: C64Sample, g: Setting, e: C64Event)
    ensures
        t.chip_events(so_far, s, g).contains(e) <==> so_far.contains(e) || chip_event_due(t, s, g, e),
{
    broadcast use lemma_told;

    crate::via::word_is_both_bytes(s.irq_hi, s.irq_lo);
}

proof fn lemma_block_events(p: ProbesView, so_far: Seq<C64Event>, s: C64Sample, g: Setting, e: C64Event)
    ensures
        ({
            let code = p.code.code_events(so_far, p.code_on(g), s.at_6160@, 0x6160);
            p.data.data_events(code, p.data_on(g), s.at_ca60@, 0xCA60).contains(e)
        }) <==> so_far.contains(e) || block_event_due(p, s, g, e),
{
    let on = p.code_on(g);
    let first = if p.code.code_seen(on, s.at_6160@) {
        seq![C64Event::CodeSeen]
    } else if p.code.code_watched(on) {
        block_changes(p.code.snap, s.at_6160@, 0x6160, 16)
    } else {
        seq![]
    };
    let second = if p.data_on(g) {
        block_changes(p.data.snap, s.at_ca60@, 0xCA60, 16)
    } else {
        seq![]
    };
    let code = p.code.code_events(so_far, on, s.at_6160@, 0x6160);
    assert(code == so_far + first);
    lemma_contains_add(so_far, first, e);
    lemma_contains_add(code, second, e);
    lemma_changes_reported(p.code.snap, s.at_6160@, 0x6160, 16, e);
    lemma_changes_reported(p.data.snap, s.at_ca60@, 0xCA60, 16, e);
    assert(seq![C64Event::CodeSeen][0] == C64Event::CodeSeen);
    assert(first.contains(e) <==> ((e is CodeSeen && p.code.code_seen(on, s.at_6160@)) || (
    p.code.code_watched(on) && block_changes(p.code.snap, s.at_6160@, 0x6160, 16).contains(e))));
}

proof fn lemma_unpacking_events(
    t: C64Trace,
    so_far: Seq<C64Event>,
    s: C64Sample,
    g: Setting,
    e: C64Event,
)
    ensures
        t.unpacking_events(so_far, s, g).contains(e) <==> so_far.contains(e) || unpacking_event_due(
            t,
            s,
            g,
            e,
        ),
{
    broadcast use lemma_told;

    crate::via::word_is_both_bytes(s.at_ca60@[8], s.at_ca60@[7]);
}

proof fn lemma_transfer_events(
    t: C64Trace,
    so_far: Seq<C64Event>,
    s: C64Sample,
    g: Setting,
    e: C64Event,
)
    requires
        t.hang.cycles < u32::MAX,
    ensures
        t.transfer_events(so_far, s, g).contains(e) <==> so_far.contains(e) || transfer_event_due(
            t,
            s,
            g,
            e,
        ),
{
    broadcast use lemma_told;

}

/// An event is reported exactly if the computer is where it belongs, when it belongs there, and it has
/// not been reported too often.
pub proof fn computer_events_are_reported_when_due(
    p: ProbesView,
    s: C64Sample,
    g: Setting,
    e: C64Event,
)
    requires
        p.counting(),
    ensures
        p.events(s, g).contains(e) <==> port_event_due(p.trace, s, g, e) || chip_event_due(
            p.trace,
            s,
            g,
            e,
        ) || block_event_due(p, s, g, e) || unpacking_event_due(p.trace, s, g, e)
            || transfer_event_due(p.trace, s, g, e),
{
    let t = p.trace;
    let none = Seq::<C64Event>::empty();
    let ports = t.port_events(none, s, g);
    let chips = t.chip_events(ports, s, g);
    let code = p.code.code_events(chips, p.code_on(g), s.at_6160@, 0x6160);
    let data = p.data.data_events(code, p.data_on(g), s.at_ca60@, 0xCA60);
    lemma_port_events(t, none, s, g, e);
    lemma_chip_events(t, ports, s, g, e);
    lemma_block_events(p, chips, s, g, e);
    lemma_unpacking_events(t, data, s, g, e);
    lemma_transfer_events(t, t.unpacking_events(data, s, g), s, g, e);
}

/// Who pulls which line is told by one bit each, so any change of it is seen.
pub proof fn lines_byte_tells_who_pulls(a: IecBus, b: IecBus)
    ensures
        lines_byte(a) == lines_byte(b) <==> a.c64_atn == b.c64_atn && a.c64_clk == b.c64_clk
            && a.c64_data == b.c64_data && a.drive_clk == b.drive_clk && a.drive_data == b.drive_data,
{
    let f = |x: bool|
        if x {
            1u8
        } else {
            0u8
        };
    let (a0, a1, a2) = (f(a.c64_atn), f(a.c64_clk), f(a.c64_data));
    let (a3, a4) = (f(a.drive_clk), f(a.drive_data));
    let (b0, b1, b2) = (f(b.c64_atn), f(b.c64_clk), f(b.c64_data));
    let (b3, b4) = (f(b.drive_clk), f(b.drive_data));
    let (x, y) = (lines_byte(a), lines_byte(b));
    assert(x == y <==> a0 == b0 && a1 == b1 && a2 == b2 && a3 == b3 && a4 == b4) by (bit_vector)
        requires
            a0 <= 1 && a1 <= 1 && a2 <= 1 && a3 <= 1 && a4 <= 1,
            b0 <= 1 && b1 <= 1 && b2 <= 1 && b3 <= 1 && b4 <= 1,
            x == a0 | (2 * a1) as u8 | (4 * a2) as u8 | (8 * a3) as u8 | (16 * a4) as u8,
            y == b0 | (2 * b1) as u8 | (4 * b2) as u8 | (8 * b3) as u8 | (16 * b4) as u8,
    ;
}

/// 1 for an event that is reported, 0 for one that is not.
pub open spec fn counted(events: Seq<C64Event>, e: C64Event) -> int {
    if events.contains(e) {
        1
    } else {
        0
    }
}

/// Every report counts towards the limit of its probe, and nothing else does.
#[verifier::spinoff_prover]
#[verifier::rlimit(60)]
pub proof fn computer_reports_are_counted(p: ProbesView, s: C64Sample, g: Setting)
    requires
        p.counting(),
    ensures
        ({
            let (t, t2) = (p.trace, p.after(s, g).trace);
            let all = p.events(s, g);
            &&& t2.fastload_loop.hits == t.fastload_loop.hits + counted(all, C64Event::FastLoaderPc)
            &&& t2.game_init.hits == t.game_init.hits + counted(all, C64Event::GameInitPc)
            &&& t2.mem_033e.hits == t.mem_033e.hits + counted(all, C64Event::ReadyByte { from: t.mem_033e.last, to: s.ready })
            &&& t2.drv_ram.hits == t.drv_ram.hits + counted(all, C64Event::DriveInRam)
            &&& t2.cpu_port.hits == t.cpu_port.hits + counted(all, C64Event::CpuPort { from: t.cpu_port.last, to: s.cpu_port })
            &&& t2.pre_iec.hits == t.pre_iec.hits + counted(all, C64Event::SerialLines)
            &&& t2.low_pc.hits == t.low_pc.hits + counted(all, C64Event::LowPc)
            &&& t2.cia2_pra.hits == t.cia2_pra.hits + counted(all, C64Event::Cia2PortA { from: t.cia2_pra.last, to: s.cia2_pra })
            &&& t2.cia1_ier.hits == t.cia1_ier.hits + counted(all, C64Event::Cia1Mask { from: t.cia1_ier.last, to: s.cia1_ier })
            &&& t2.irq_vector.hits == t.irq_vector.hits + counted(all, C64Event::IrqVector { before: t.irq_vector.last, after: word(s.irq_hi, s.irq_lo) })
            &&& t2.page4.hits == t.page4.hits + counted(all, C64Event::Page4Pc)
            &&& t2.ca_bytes.hits == t.ca_bytes.hits + counted(all, C64Event::VectorSource { before: t.ca_bytes.last, after: word(s.at_ca60@[8], s.at_ca60@[7]) })
            &&& t2.sloop.hits == t.sloop.hits + counted(all, C64Event::VectorSourceStore)
            &&& t2.recv_pc.hits == t.recv_pc.hits + counted(all, C64Event::ReceivePc)
            &&& t2.atn_seq.hits == t.atn_seq.hits + counted(all, C64Event::AtnSequence)
            &&& t2.iecin.hits == t.iecin.hits + counted(all, C64Event::ReceiveEntry)
            &&& t2.page8.hits == t.page8.hits + counted(all, C64Event::Page8Pc)
        }),
{
    let t = p.trace;
    crate::via::word_is_both_bytes(s.irq_hi, s.irq_lo);
    crate::via::word_is_both_bytes(s.at_ca60@[8], s.at_ca60@[7]);
    computer_events_are_reported_when_due(p, s, g, C64Event::FastLoaderPc);
    computer_events_are_reported_when_due(p, s, g, C64Event::GameInitPc);
    computer_events_are_reported_when_due(p, s, g, C64Event::ReadyByte { from: t.mem_033e.last, to: s.ready });
    computer_events_are_reported_when_due(p, s, g, C64Event::DriveInRam);
    computer_events_are_reported_when_due(p, s, g, C64Event::CpuPort { from: t.cpu_port.last, to: s.cpu_port });
    computer_events_are_reported_when_due(p, s, g, C64Event::SerialLines);
    computer_events_are_reported_when_due(p, s, g, C64Event::LowPc);
    computer_events_are_reported_when_due(p, s, g, C64Event::Cia2PortA { from: t.cia2_pra.last, to: s.cia2_pra });
    computer_events_are_reported_when_due(p, s, g, C64Event::Cia1Mask { from: t.cia1_ier.last, to: s.cia1_ier });
    computer_events_are_reported_when_due(p, s, g, C64Event::IrqVector { before: t.irq_vector.last, after: word(s.irq_hi, s.irq_lo) });
    computer_events_are_reported_when_due(p, s, g, C64Event::Page4Pc);
    computer_events_are_reported_when_due(p, s, g, C64Event::VectorSource { before: t.ca_bytes.last, after: word(s.at_ca60@[8], s.at_ca60@[7]) });
    computer_events_are_reported_when_due(p, s, g, C64Event::VectorSourceStore);
    computer_events_are_reported_when_due(p, s, g, C64Event::ReceivePc);
    computer_events_are_reported_when_due(p, s, g, C64Event::AtnSequence);
    computer_events_are_reported_when_due(p, s, g, C64Event::ReceiveEntry);
    computer_events_are_reported_when_due(p, s, g, C64Event::Page8Pc);
}

/// What has been reported as a change is not reported again while it stays.
#[verifier::spinoff_prover]
#[verifier::rlimit(60)]
pub proof fn same_sight_is_not_reported_twice(p: ProbesView, s: C64Sample, g: Setting, e: C64Event)
    requires
        p.counting(),
        p.after(s, g).counting(),
        !(e is HoldEnded || e is HoldSticks || e is DriveInRam || e is CodeSeen || e is BlockByte),
        !(e is VectorSourceStore || e is Heartbeat || e is ReceiveEntry || e is ReceiveHang),
        !(e is Watchdog),
    ensures
        !p.after(s, g).events(s, g).contains(e),
{
    computer_events_are_reported_when_due(p.after(s, g), s, g, e);
    crate::via::word_is_both_bytes(s.irq_hi, s.irq_lo);
    crate::via::word_is_both_bytes(s.at_ca60@[8], s.at_ca60@[7]);
}

/// The watched blocks are remembered as they were reported.
pub proof fn blocks_are_remembered(p: ProbesView, s: C64Sample, g: Setting)
    ensures
        g.cycle > 75_000_000 && p.data.hits < 60 ==> p.after(s, g).data.snap == s.at_ca60@,
        g.cycle > 75_000_000 && p.code.hits < 40 && (p.code.snap[0] != 0 || s.at_6160@[0] == 0xAD)
            ==> p.after(s, g).code.snap == s.at_6160@,
        p.after(s, g).data.hits >= p.data.hits || p.data.hits >= 0x1000,
{
    lemma_block_changes(p.data.snap, s.at_ca60@, 0, 16);
}

} // verus!
