//! The 6522 VIA, which the drive has twice: one on the serial bus, one on the disk.
//!
//! Sixteen registers with their side effects on the interrupt flags, and two countdown timers:
//! timer 1 one-shot or free-running, timer 2 one-shot. The VIA on the serial bus drives and reads
//! the bus lines through port B and flags every edge of ATN. The VIA on the disk sees the byte
//! under the head on port A, runs motor, head and density through port B, and flags every byte
//! that is ready. Shift register, pulse counting and handshake outputs are stored and read back
//! only.
use vstd::prelude::*;

use crate::d64::D64;
use crate::disk::{
    disk_stays_well_formed, Disk, DiskView, FIRST_HALF_TRACK, LAST_HALF_TRACK,
};
use crate::iec::IecBus;

verus! {

/// Register numbers.
pub const R_ORB: usize = 0x0;
pub const R_ORA: usize = 0x1;
pub const R_DDRB: usize = 0x2;
pub const R_DDRA: usize = 0x3;
pub const R_T1CL: usize = 0x4;
pub const R_T1CH: usize = 0x5;
pub const R_T1LL: usize = 0x6;
pub const R_T1LH: usize = 0x7;
pub const R_T2CL: usize = 0x8;
pub const R_T2CH: usize = 0x9;
pub const R_SR: usize = 0xA;
pub const R_ACR: usize = 0xB;
pub const R_PCR: usize = 0xC;
pub const R_IFR: usize = 0xD;
pub const R_IER: usize = 0xE;
pub const R_ORA_NH: usize = 0xF;

/// Interrupt flags: the CA2 and CA1 pins, timer 2, timer 1.
pub const IFR_CA2: u8 = 0x01;
pub const IFR_CA1: u8 = 0x02;
pub const IFR_T2: u8 = 0x20;
pub const IFR_T1: u8 = 0x40;

/// Port B of the VIA on the serial bus.
pub const IEC_PB_DATA_IN: u8 = 0x01;
pub const IEC_PB_DATA_OUT: u8 = 0x02;
pub const IEC_PB_CLK_IN: u8 = 0x04;
pub const IEC_PB_CLK_OUT: u8 = 0x08;
pub const IEC_PB_ATNA: u8 = 0x10;
pub const IEC_PB_DEVICE: u8 = 0x60;
pub const IEC_PB_ATN_IN: u8 = 0x80;

/// Port B of the VIA on the disk.
pub const DSK_PB_STEP: u8 = 0x03;
pub const DSK_PB_MOTOR: u8 = 0x04;
pub const DSK_PB_DENSITY: u8 = 0x60;
pub const DSK_PB_SYNC: u8 = 0x80;

/// What a VIA is wired to.
#[derive(Debug, Clone, Copy, PartialEq, Eq, Structural)]
pub enum ViaKind {
    /// The serial bus, at `$1800`.
    Iec,
    /// The disk, at `$1C00`.
    Disk,
}

/// What a VIA makes of a write to its port B.
#[derive(Debug, Clone, Copy, PartialEq, Eq, Structural)]
pub enum PortBEffect {
    /// What the drive then does on the serial bus.
    Serial { data: bool, clk: bool, atna: bool },
    /// How motor, stepper and density are then set.
    Disk { motor: bool, phase: u8, density: u8 },
}

/// A write to port B of a VIA, as a trace shows it.
#[derive(Debug, Clone, Copy, PartialEq, Eq, Structural)]
pub struct OrbWrite {
    /// The byte written.
    pub val: u8,
    /// Where the processor was.
    pub pc: u16,
    /// What came of it.
    pub effect: PortBEffect,
}

/// A VIA with what it is wired to.
pub struct Via {
    kind: ViaKind,
    regs: [u8; 16],
    t1_counter: u16,
    t1_running: bool,
    t2_counter: u16,
    t2_running: bool,
    iec: Option<IecBus>,
    prev_atn_low: bool,
    disk: Option<Disk>,
    step_phase: u8,
    irq_pending: bool,
    trace: bool,
    trace_pc: u16,
    orb_log: Vec<OrbWrite>,
}

/// What a VIA is.
pub struct ViaView {
    pub kind: ViaKind,
    pub regs: Seq<u8>,
    pub t1_counter: u16,
    pub t1_running: bool,
    pub t2_counter: u16,
    pub t2_running: bool,
    pub iec: Option<IecBus>,
    pub prev_atn_low: bool,
    pub disk: Option<DiskView>,
    pub step_phase: u8,
    pub irq_pending: bool,
    pub trace: bool,
    pub trace_pc: u16,
    pub orb_log: Seq<OrbWrite>,
}

/// A 16-bit value from its two bytes.
pub open spec fn word(hi: u8, lo: u8) -> u16 {
    ((hi as u16) << 8) | (lo as u16)
}

/// A 16-bit value is its low byte and 256 times its high byte.
pub proof fn word_is_both_bytes(hi: u8, lo: u8)
    ensures
        word(hi, lo) == lo + 256 * hi,
{
    assert(((hi as u16) << 8) | (lo as u16) == lo + 256 * hi) by (bit_vector);
}

impl ViaView {
    /// A flag is pending that is also enabled.
    pub open spec fn irq_due(self) -> bool {
        self.regs[0xD] & self.regs[0xE] & 0x7F != 0
    }

    /// The interrupt line follows the flags, and a disk that is attached is well formed.
    pub open spec fn wf(self) -> bool {
        &&& self.regs.len() == 16
        &&& self.irq_pending == self.irq_due()
        &&& self.step_phase < 4
        &&& self.disk matches Some(d) ==> d.wf()
    }

    /// With one register changed.
    pub open spec fn with_reg(self, r: int, val: u8) -> ViaView {
        ViaView { regs: self.regs.update(r, val), ..self }
    }

    /// With interrupt flags cleared.
    pub open spec fn without_flags(self, flags: u8) -> ViaView {
        self.with_reg(0xD, self.regs[0xD] & !flags)
    }

    /// With interrupt flags set.
    pub open spec fn with_flags(self, flags: u8) -> ViaView {
        self.with_reg(0xD, self.regs[0xD] | flags)
    }

    /// With the interrupt line brought up to date.
    pub open spec fn settled(self) -> ViaView {
        ViaView { irq_pending: self.irq_due(), ..self }
    }

    /// After a reset: registers cleared, timers stopped, the bus released by the drive.
    pub open spec fn after_reset(self) -> ViaView {
        ViaView {
            regs: Seq::new(16, |i: int| 0u8),
            t1_counter: 0xFFFF,
            t1_running: false,
            t2_counter: 0xFFFF,
            t2_running: false,
            prev_atn_low: false,
            step_phase: 0,
            irq_pending: false,
            iec: match self.iec {
                Some(b) => Some(
                    IecBus { drive_clk: false, drive_data: false, drive_atna: false, ..b },
                ),
                None => None,
            },
            ..self
        }
    }

    /// What the pins of port A carry from outside.
    pub open spec fn pa_pins(self) -> u8 {
        match (self.kind, self.disk) {
            (ViaKind::Disk, Some(d)) => d.current(),
            _ => 0xFF,
        }
    }

    /// What the pins of port B carry from outside: a bus line that is low reads 0, and so do the
    /// two jumpers that make the drive device 8; the disk pulls bit 7 low over a sync mark.
    pub open spec fn pb_pins(self) -> u8 {
        match self.kind {
            ViaKind::Iec => match self.iec {
                None => 0xFF,
                Some(b) => {
                    let data: u8 = if b.data() {
                        !IEC_PB_DATA_IN
                    } else {
                        0xFF
                    };
                    let clk: u8 = if b.clk() {
                        !IEC_PB_CLK_IN
                    } else {
                        0xFF
                    };
                    let atn: u8 = if b.atn() {
                        !IEC_PB_ATN_IN
                    } else {
                        0xFF
                    };
                    data & clk & atn & !IEC_PB_DEVICE
                },
            },
            ViaKind::Disk => match self.disk {
                Some(d) if d.over_sync() => !DSK_PB_SYNC,
                _ => 0xFF,
            },
        }
    }

    /// A port as the processor reads it: its own output where the direction register says so,
    /// the pins elsewhere.
    pub open spec fn port(out: u8, ddr: u8, pins: u8) -> u8 {
        (out & ddr) | (pins & !ddr)
    }

    /// What reading register `r` gives.
    #[verifier::opaque]
    pub open spec fn read_value(self, r: int) -> u8 {
        if r == R_ORB {
            Self::port(self.regs[0], self.regs[2], self.pb_pins())
        } else if r == R_ORA || r == R_ORA_NH {
            Self::port(self.regs[1], self.regs[3], self.pa_pins())
        } else if r == R_T1CL {
            (self.t1_counter & 0xFF) as u8
        } else if r == R_T1CH {
            (self.t1_counter >> 8) as u8
        } else if r == R_T2CL {
            (self.t2_counter & 0xFF) as u8
        } else if r == R_T2CH {
            (self.t2_counter >> 8) as u8
        } else if r == R_IFR {
            (self.regs[0xD] & 0x7F) | if self.irq_due() {
                0x80u8
            } else {
                0u8
            }
        } else if r == R_IER {
            self.regs[0xE] | 0x80
        } else {
            self.regs[r]
        }
    }

    /// What reading register `r` leaves: port A with handshake and the low bytes of the timers
    /// take their flags back.
    #[verifier::opaque]
    pub open spec fn after_read(self, r: int) -> ViaView {
        if r == R_ORA {
            self.without_flags(IFR_CA1 | IFR_CA2).settled()
        } else if r == R_T1CL {
            self.without_flags(IFR_T1).settled()
        } else if r == R_T2CL {
            self.without_flags(IFR_T2).settled()
        } else {
            self
        }
    }

    /// The bits of port B that the VIA drives.
    pub open spec fn driven(self) -> u8 {
        self.regs[0] & self.regs[2]
    }

    /// How many half tracks the head moves when the stepper goes from the last phase to the one on
    /// port B: one phase forward is half a track in, one back is half a track out.
    pub open spec fn head_steps(self) -> int {
        let diff = ((self.driven() & DSK_PB_STEP) as int - self.step_phase) % 4;
        if diff == 1 {
            1
        } else if diff == 3 {
            -1
        } else {
            0
        }
    }

    /// The disk as port B sets it.
    pub open spec fn disk_as_driven(self, d: DiskView) -> DiskView {
        let set = d.with_motor(self.driven() & DSK_PB_MOTOR != 0).with_density(
            (self.driven() & DSK_PB_DENSITY) >> 5,
        );
        if ((self.driven() & DSK_PB_STEP) as int - self.step_phase) % 4 != 0 {
            set.on_half_track(set.half_track + self.head_steps())
        } else {
            set
        }
    }

    /// With port B passed on to what the VIA is wired to.
    pub open spec fn port_b_driven(self) -> ViaView {
        match self.kind {
            ViaKind::Iec => match self.iec {
                Some(b) => ViaView {
                    iec: Some(
                        IecBus {
                            drive_data: self.regs[2] & IEC_PB_DATA_OUT != 0 && self.regs[0]
                                & IEC_PB_DATA_OUT != 0,
                            drive_clk: self.regs[2] & IEC_PB_CLK_OUT != 0 && self.regs[0]
                                & IEC_PB_CLK_OUT != 0,
                            drive_atna: self.regs[2] & IEC_PB_ATNA != 0 && self.regs[0]
                                & IEC_PB_ATNA != 0,
                            ..b
                        },
                    ),
                    ..self
                },
                None => self,
            },
            ViaKind::Disk => match self.disk {
                Some(d) => ViaView {
                    disk: Some(self.disk_as_driven(d)),
                    step_phase: self.driven() & DSK_PB_STEP,
                    ..self
                },
                None => self,
            },
        }
    }

    /// What port B as it is does.
    pub open spec fn port_b_effect(self) -> PortBEffect {
        match self.kind {
            ViaKind::Iec => PortBEffect::Serial {
                data: self.iec matches Some(b) && b.drive_data,
                clk: self.iec matches Some(b) && b.drive_clk,
                atna: self.iec matches Some(b) && b.drive_atna,
            },
            ViaKind::Disk => PortBEffect::Disk {
                motor: self.driven() & DSK_PB_MOTOR != 0,
                phase: self.driven() & DSK_PB_STEP,
                density: (self.driven() & DSK_PB_DENSITY) >> 5,
            },
        }
    }

    /// With a write to port B noted, where a trace is wanted.
    pub open spec fn orb_logged(self, val: u8) -> ViaView {
        if self.trace {
            ViaView {
                orb_log: self.orb_log.push(
                    OrbWrite { val, pc: self.trace_pc, effect: self.port_b_effect() },
                ),
                ..self
            }
        } else {
            self
        }
    }

    /// What a write to register `r` does, the interrupt line aside.
    pub open spec fn written(self, r: int, val: u8) -> ViaView {
        if r == R_ORB {
            self.with_reg(0, val).port_b_driven().orb_logged(val)
        } else if r == R_ORA {
            self.without_flags(IFR_CA1 | IFR_CA2).with_reg(1, val)
        } else if r == R_ORA_NH {
            self.with_reg(1, val)
        } else if r == R_DDRB {
            self.with_reg(2, val).port_b_driven()
        } else if r == R_T1CL {
            self.with_reg(6, val)
        } else if r == R_T1CH {
            ViaView {
                t1_counter: word(val, self.regs[6]),
                t1_running: true,
                ..self.with_reg(7, val).without_flags(IFR_T1)
            }
        } else if r == R_T2CH {
            ViaView {
                t2_counter: word(val, self.regs[8]),
                t2_running: true,
                ..self.without_flags(IFR_T2)
            }
        } else if r == R_IFR {
            self.without_flags(val & 0x7F)
        } else if r == R_IER {
            self.with_reg(
                0xE,
                if val & 0x80 != 0 {
                    self.regs[0xE] | (val & 0x7F)
                } else {
                    self.regs[0xE] & !(val & 0x7F)
                },
            )
        } else {
            self.with_reg(r, val)
        }
    }

    /// What a write to register `r` does.
    #[verifier::opaque]
    pub open spec fn after_write(self, r: int, val: u8) -> ViaView {
        self.written(r, val).settled()
    }

    /// Timer 1 reaches zero and goes below it within `n` cycles.
    pub open spec fn t1_underflows(self, n: int) -> bool {
        self.t1_running && n > self.t1_counter
    }

    /// Timer 2 reaches zero and goes below it within `n` cycles.
    pub open spec fn t2_underflows(self, n: int) -> bool {
        self.t2_running && n > self.t2_counter
    }

    /// Timer 1 starts again by itself.
    pub open spec fn t1_free_running(self) -> bool {
        self.regs[0xB] & 0x40 != 0
    }

    /// The value that timer 1 starts again from.
    pub open spec fn t1_latch(self) -> u16 {
        word(self.regs[7], self.regs[6])
    }

    /// Timer 1 after `n` cycles. It stops at `$FFFF` when it has run out, or, free-running, starts
    /// from the latch and runs out again every latch + 1 cycles.
    pub open spec fn t1_after(self, n: int) -> int {
        if !self.t1_running {
            self.t1_counter as int
        } else if n <= self.t1_counter {
            self.t1_counter - n
        } else if self.t1_free_running() {
            self.t1_latch() - (n - self.t1_counter - 1) % (self.t1_latch() + 1)
        } else {
            0xFFFF
        }
    }

    /// Timer 2 after `n` cycles. It stops at `$FFFF` when it has run out.
    pub open spec fn t2_after(self, n: int) -> int {
        if !self.t2_running {
            self.t2_counter as int
        } else if n <= self.t2_counter {
            self.t2_counter - n
        } else {
            0xFFFF
        }
    }

    /// The timers after `n` cycles, with the flags of those that have run out.
    pub open spec fn timers_after(self, n: int) -> ViaView {
        let t1_flag: u8 = if self.t1_underflows(n) {
            IFR_T1
        } else {
            0
        };
        let t2_flag: u8 = if self.t2_underflows(n) {
            IFR_T2
        } else {
            0
        };
        ViaView {
            t1_counter: self.t1_after(n) as u16,
            t1_running: self.t1_running && (!self.t1_underflows(n) || self.t1_free_running()),
            t2_counter: self.t2_after(n) as u16,
            t2_running: self.t2_running && !self.t2_underflows(n),
            ..self.with_flags(t1_flag | t2_flag)
        }
    }

    /// With an edge of ATN noticed.
    pub open spec fn atn_noticed(self) -> ViaView {
        match (self.kind, self.iec) {
            (ViaKind::Iec, Some(b)) => ViaView {
                prev_atn_low: b.atn(),
                ..if b.atn() != self.prev_atn_low {
                    self.with_flags(IFR_CA1)
                } else {
                    self
                }
            },
            _ => self,
        }
    }

    /// With a byte that is ready taken over as a flag.
    pub open spec fn byte_noticed(self) -> ViaView {
        match (self.kind, self.disk) {
            (ViaKind::Disk, Some(d)) if d.byte_ready => ViaView {
                disk: Some(DiskView { byte_ready: false, ..d }),
                ..self.with_flags(IFR_CA1)
            },
            _ => self,
        }
    }

    /// With the attached disk turned for one cycle.
    pub open spec fn disk_turned(self) -> ViaView {
        ViaView {
            disk: match self.disk {
                Some(d) => Some(d.rotated(1)),
                None => None,
            },
            ..self
        }
    }

    /// After `n` cycles.
    #[verifier::opaque]
    pub open spec fn ticked(self, n: int) -> ViaView {
        self.timers_after(n).atn_noticed().byte_noticed().settled()
    }
}

impl View for Via {
    type V = ViaView;

    closed spec fn view(&self) -> ViaView {
        ViaView {
            kind: self.kind,
            regs: self.regs@,
            t1_counter: self.t1_counter,
            t1_running: self.t1_running,
            t2_counter: self.t2_counter,
            t2_running: self.t2_running,
            iec: self.iec,
            prev_atn_low: self.prev_atn_low,
            disk: match self.disk {
                Some(d) => Some(d@),
                None => None,
            },
            step_phase: self.step_phase,
            irq_pending: self.irq_pending,
            trace: self.trace,
            trace_pc: self.trace_pc,
            orb_log: self.orb_log@,
        }
    }
}

/// A VIA at power-on, wired to nothing.
pub open spec fn fresh_via(kind: ViaKind) -> ViaView {
    ViaView {
        kind,
        regs: Seq::new(16, |i: int| 0u8),
        t1_counter: 0xFFFF,
        t1_running: false,
        t2_counter: 0xFFFF,
        t2_running: false,
        iec: None,
        prev_atn_low: false,
        disk: None,
        step_phase: 0,
        irq_pending: false,
        trace: false,
        trace_pc: 0,
        orb_log: Seq::empty(),
    }
}

proof fn lemma_bits(a: u8, b: u8)
    ensures
        0u8 & b & 0x7F == 0,
        a & DSK_PB_STEP < 4,
        a & 0x0F < 16,
        a | 0 == a,
{
    assert(0u8 & b & 0x7F == 0 && a & 0x03 < 4 && a & 0x0F < 16 && a | 0 == a) by (bit_vector);
}

/// Timer 1 stays a 16-bit value.
proof fn lemma_t1_range(v: ViaView, n: int)
    requires
        0 <= n,
    ensures
        0 <= v.t1_after(n) <= 0xFFFF,
{
    let l = v.t1_latch() as int;
    if v.t1_underflows(n) {
        vstd::arithmetic::div_mod::lemma_mod_bound(n - v.t1_counter - 1, l + 1);
    }
}

/// Flags that are set one after the other are set together.
proof fn lemma_flags_add(x: u8, p: u8, q: u8, r: u8, s: u8)
    ensures
        (x | (p | q)) | (r | s) == x | ((p | r) | (q | s)),
        p | 0 == p,
        0 | p == p,
        p | p == p,
{
    assert((x | (p | q)) | (r | s) == x | ((p | r) | (q | s)) && p | 0 == p && 0 | p == p && p | p
        == p) by (bit_vector);
}

/// Letting the timers run in two goes is letting them run in one.
pub proof fn timers_add_up(v: ViaView, a: int, b: int)
    requires
        v.regs.len() == 16,
        0 <= a,
        0 <= b,
    ensures
        v.timers_after(a).timers_after(b) == v.timers_after(a + b),
{
    let mid = v.timers_after(a);
    lemma_t1_range(v, a);
    lemma_t1_range(v, a + b);
    assert(mid.regs[6] == v.regs[6] && mid.regs[7] == v.regs[7] && mid.regs[0xB] == v.regs[0xB]);
    lemma_t1_range(mid, b);
    let c = v.t1_counter as int;
    let m = v.t1_latch() + 1;
    if v.t1_underflows(a) && v.t1_free_running() {
        let e = a - c - 1;
        let q = e % m;
        vstd::arithmetic::div_mod::lemma_mod_bound(e, m);
        vstd::arithmetic::div_mod::lemma_add_mod_noop(e, b, m);
        vstd::arithmetic::div_mod::lemma_add_mod_noop(q, b, m);
        vstd::arithmetic::div_mod::lemma_mod_twice(e, m);
        assert((q + b) % m == (e + b) % m);
        if q + b < m {
            vstd::arithmetic::div_mod::lemma_small_mod((q + b) as nat, m as nat);
        } else {
            vstd::arithmetic::div_mod::lemma_mod_sub_multiples_vanish(q + b, m);
        }
    }
    assert(mid.t1_after(b) == v.t1_after(a + b));
    assert(mid.t2_after(b) == v.t2_after(a + b));
    let f = |w: bool, flag: u8|
        if w {
            flag
        } else {
            0u8
        };
    let (p, q) = (f(v.t1_underflows(a), IFR_T1), f(v.t2_underflows(a), IFR_T2));
    let (r, s) = (f(mid.t1_underflows(b), IFR_T1), f(mid.t2_underflows(b), IFR_T2));
    lemma_flags_add(v.regs[0xD], p, q, r, s);
    lemma_flags_add(0, p, 0, 0, 0);
    lemma_flags_add(0, q, 0, 0, 0);
    lemma_flags_add(0, r, 0, 0, 0);
    lemma_flags_add(0, s, 0, 0, 0);
    assert(p | r == f(v.t1_underflows(a + b), IFR_T1));
    assert(q | s == f(v.t2_underflows(a + b), IFR_T2));
    assert(mid.timers_after(b).regs =~= v.timers_after(a + b).regs);
}

/// Nothing happens to the timers in no time.
proof fn lemma_timers_after_none(v: ViaView)
    requires
        v.regs.len() == 16,
    ensures
        v.timers_after(0) == v,
{
    lemma_flags_add(v.regs[0xD], 0, 0, 0, 0);
    lemma_flags_add(0, v.regs[0xD], 0, 0, 0);
    assert(v.timers_after(0).regs =~= v.regs);
}

impl Via {
    /// A VIA at power-on, wired to nothing.
    pub fn new(kind: ViaKind) -> (r: Self)
        ensures
            r@ == fresh_via(kind),
            r@.wf(),
    {
        let r = Via {
            kind,
            regs: [0u8; 16],
            t1_counter: 0xFFFF,
            t1_running: false,
            t2_counter: 0xFFFF,
            t2_running: false,
            iec: None,
            prev_atn_low: false,
            disk: None,
            step_phase: 0,
            irq_pending: false,
            trace: false,
            trace_pc: 0,
            orb_log: Vec::new(),
        };
        proof {
            lemma_bits(0, 0);
        }
        assert(r@.regs =~= fresh_via(kind).regs);
        assert(r@.orb_log =~= Seq::empty());
        r
    }

    /// What the VIA is wired to.
    pub fn kind(&self) -> (r: ViaKind)
        ensures
            r == self@.kind,
    {
        self.kind
    }

    /// The VIA asks for an interrupt.
    pub fn irq_pending(&self) -> (r: bool)
        ensures
            r == self@.irq_pending,
    {
        self.irq_pending
    }

    /// The interrupt flags as they are stored.
    pub fn ifr(&self) -> (r: u8)
        ensures
            r == self@.regs[0xD],
    {
        self.regs[R_IFR]
    }

    /// The interrupt enable bits as they are stored.
    pub fn ier(&self) -> (r: u8)
        ensures
            r == self@.regs[0xE],
    {
        self.regs[R_IER]
    }

    /// The serial bus, if one is attached.
    pub fn iec_opt(&self) -> (r: Option<IecBus>)
        ensures
            r == self@.iec,
    {
        self.iec
    }

    /// The disk, if one is attached.
    pub fn disk_opt(&self) -> (r: Option<&Disk>)
        ensures
            match r {
                Some(d) => self@.disk == Some(d@),
                None => self@.disk is None,
            },
    {
        match &self.disk {
            Some(d) => Some(d),
            None => None,
        }
    }

    /// Attaches the serial bus, or puts it into another state.
    pub fn set_iec(&mut self, iec: IecBus)
        ensures
            final(self)@ == (ViaView { iec: Some(iec), ..old(self)@ }),
            old(self)@.wf() ==> final(self)@.wf(),
    {
        self.iec = Some(iec);
    }

    /// Attaches a disk.
    pub fn set_disk(&mut self, disk: Disk)
        ensures
            final(self)@ == (ViaView { disk: Some(disk@), ..old(self)@ }),
            old(self)@.wf() && disk@.wf() ==> final(self)@.wf(),
    {
        self.disk = Some(disk);
    }

    /// Switches the trace of writes to port B.
    pub fn set_trace(&mut self, on: bool)
        ensures
            final(self)@ == (ViaView { trace: on, ..old(self)@ }),
            old(self)@.wf() ==> final(self)@.wf(),
    {
        self.trace = on;
    }

    /// Tells the trace where the processor is.
    pub fn set_trace_pc(&mut self, pc: u16)
        ensures
            final(self)@ == (ViaView { trace_pc: pc, ..old(self)@ }),
            old(self)@.wf() ==> final(self)@.wf(),
    {
        self.trace_pc = pc;
    }

    /// Hands out the writes to port B that were noted.
    pub fn take_orb_log(&mut self) -> (log: Vec<OrbWrite>)
        ensures
            log@ == old(self)@.orb_log,
            final(self)@ == (ViaView { orb_log: Seq::empty(), ..old(self)@ }),
            old(self)@.wf() ==> final(self)@.wf(),
    {
        let mut log: Vec<OrbWrite> = Vec::new();
        std::mem::swap(&mut log, &mut self.orb_log);
        assert(self@.orb_log =~= Seq::empty());
        log
    }

    /// Resets the VIA.
    pub fn reset(&mut self)
        ensures
            final(self)@ == old(self)@.after_reset(),
            old(self)@.wf() ==> final(self)@.wf(),
    {
        self.regs = [0u8; 16];
        self.t1_counter = 0xFFFF;
        self.t1_running = false;
        self.t2_counter = 0xFFFF;
        self.t2_running = false;
        self.prev_atn_low = false;
        self.step_phase = 0;
        self.irq_pending = false;
        if let Some(b) = self.iec {
            self.iec = Some(
                IecBus {
                    c64_atn: b.c64_atn,
                    c64_clk: b.c64_clk,
                    c64_data: b.c64_data,
                    drive_clk: false,
                    drive_data: false,
                    drive_atna: false,
                },
            );
        }
        proof {
            lemma_bits(0, 0);
        }
        assert(self@.regs =~= old(self)@.after_reset().regs);
    }

    fn recompute_irq(&mut self)
        ensures
            final(self)@ == old(self)@.settled(),
    {
        self.irq_pending = (self.regs[R_IFR] & self.regs[R_IER] & 0x7F) != 0;
    }

    fn pa_pin_value(&self) -> (r: u8)
        ensures
            r == ViaView::port(self@.regs[1], self@.regs[3], self@.pa_pins()),
    {
        let ddr: u8 = self.regs[R_DDRA];
        let ora: u8 = self.regs[R_ORA];
        let pin: u8 = match self.kind {
            ViaKind::Iec => 0xFF,
            ViaKind::Disk => match &self.disk {
                Some(d) => d.current_byte(),
                None => 0xFF,
            },
        };
        (ora & ddr) | (pin & !ddr)
    }

    fn iec_pb_pin(&self) -> (r: u8)
        requires
            self@.kind == ViaKind::Iec,
        ensures
            r == self@.pb_pins(),
    {
        match self.iec {
            None => 0xFF,
            Some(b) => {
                let data: u8 = if b.data_low() {
                    !IEC_PB_DATA_IN
                } else {
                    0xFF
                };
                let clk: u8 = if b.clk_low() {
                    !IEC_PB_CLK_IN
                } else {
                    0xFF
                };
                let atn: u8 = if b.atn_low() {
                    !IEC_PB_ATN_IN
                } else {
                    0xFF
                };
                data & clk & atn & !IEC_PB_DEVICE
            },
        }
    }

    fn disk_pb_pin(&self) -> (r: u8)
        requires
            self@.kind == ViaKind::Disk,
        ensures
            r == self@.pb_pins(),
    {
        if let Some(d) = &self.disk {
            if d.sync_under_head() {
                return !DSK_PB_SYNC;
            }
        }
        0xFF
    }

    fn pb_pin(&self) -> (r: u8)
        ensures
            r == self@.pb_pins(),
    {
        match self.kind {
            ViaKind::Iec => self.iec_pb_pin(),
            ViaKind::Disk => self.disk_pb_pin(),
        }
    }

    /// What reading a register would give; only the low four bits of its number count.
    pub fn peek(&self, reg: u8) -> (val: u8)
        ensures
            val == self@.read_value((reg & 0x0F) as int),
    {
        proof {
            reveal(ViaView::read_value);
            lemma_bits(reg, 0);
        }
        let r: usize = (reg & 0x0F) as usize;
        if r == R_ORB {
            let ddr: u8 = self.regs[R_DDRB];
            let orb: u8 = self.regs[R_ORB];
            let pin: u8 = self.pb_pin();
            (orb & ddr) | (pin & !ddr)
        } else if r == R_ORA || r == R_ORA_NH {
            self.pa_pin_value()
        } else if r == R_T1CL {
            (self.t1_counter & 0xFF) as u8
        } else if r == R_T1CH {
            (self.t1_counter >> 8) as u8
        } else if r == R_T2CL {
            (self.t2_counter & 0xFF) as u8
        } else if r == R_T2CH {
            (self.t2_counter >> 8) as u8
        } else if r == R_IFR {
            let any = (self.regs[R_IFR] & self.regs[R_IER] & 0x7F) != 0;
            (self.regs[R_IFR] & 0x7F) | if any {
                0x80u8
            } else {
                0u8
            }
        } else if r == R_IER {
            self.regs[R_IER] | 0x80
        } else {
            self.regs[r]
        }
    }

    /// Reads a register; only the low four bits of its number count.
    pub fn read(&mut self, reg: u8) -> (val: u8)
        ensures
            val == old(self)@.read_value((reg & 0x0F) as int),
            final(self)@ == old(self)@.after_read((reg & 0x0F) as int),
            old(self)@.wf() ==> final(self)@.wf(),
    {
        proof {
            reveal(ViaView::after_read);
            lemma_bits(reg, 0);
        }
        let val: u8 = self.peek(reg);
        let r: usize = (reg & 0x0F) as usize;
        if r == R_ORA {
            self.regs[R_IFR] = self.regs[R_IFR] & !(IFR_CA1 | IFR_CA2);
            self.recompute_irq();
        } else if r == R_T1CL {
            self.regs[R_IFR] = self.regs[R_IFR] & !IFR_T1;
            self.recompute_irq();
        } else if r == R_T2CL {
            self.regs[R_IFR] = self.regs[R_IFR] & !IFR_T2;
            self.recompute_irq();
        }
        val
    }

    fn push_iec_pb(&mut self)
        requires
            old(self)@.kind == ViaKind::Iec,
        ensures
            final(self)@ == old(self)@.port_b_driven(),
    {
        if let Some(b) = self.iec {
            let ddr: u8 = self.regs[R_DDRB];
            let orb: u8 = self.regs[R_ORB];
            self.iec = Some(
                IecBus {
                    c64_atn: b.c64_atn,
                    c64_clk: b.c64_clk,
                    c64_data: b.c64_data,
                    drive_data: (ddr & IEC_PB_DATA_OUT != 0) && (orb & IEC_PB_DATA_OUT != 0),
                    drive_clk: (ddr & IEC_PB_CLK_OUT != 0) && (orb & IEC_PB_CLK_OUT != 0),
                    drive_atna: (ddr & IEC_PB_ATNA != 0) && (orb & IEC_PB_ATNA != 0),
                },
            );
        }
    }

    fn push_disk_pb(&mut self)
        requires
            old(self)@.kind == ViaKind::Disk,
        ensures
            final(self)@ == old(self)@.port_b_driven(),
            old(self)@.step_phase < 4 ==> final(self)@.step_phase < 4,
            (old(self)@.disk matches Some(d) ==> d.wf()) ==> (final(self)@.disk matches Some(d)
                ==> d.wf()),
    {
        let driven: u8 = self.regs[R_ORB] & self.regs[R_DDRB];
        let motor = driven & DSK_PB_MOTOR != 0;
        let density: u8 = (driven & DSK_PB_DENSITY) >> 5;
        let new_phase: u8 = driven & DSK_PB_STEP;
        proof {
            lemma_bits(driven, 0);
        }
        let diff: u8 = (new_phase + 4 - self.step_phase % 4) % 4;
        if let Some(mut d) = self.disk.take() {
            d.set_motor(motor);
            d.set_density(density);
            if diff != 0 {
                let at: u8 = d.half_track();
                let to: u8 = if diff == 1 && at < LAST_HALF_TRACK {
                    at + 1
                } else if diff == 3 && at > FIRST_HALF_TRACK {
                    at - 1
                } else {
                    at
                };
                d.set_half_track(to);
            }
            self.disk = Some(d);
            self.step_phase = new_phase;
        }
    }

    fn on_port_b_change(&mut self)
        ensures
            final(self)@ == old(self)@.port_b_driven(),
            old(self)@.step_phase < 4 ==> final(self)@.step_phase < 4,
            (old(self)@.disk matches Some(d) ==> d.wf()) ==> (final(self)@.disk matches Some(d)
                ==> d.wf()),
    {
        match self.kind {
            ViaKind::Iec => self.push_iec_pb(),
            ViaKind::Disk => self.push_disk_pb(),
        }
    }

    fn log_orb(&mut self, val: u8)
        ensures
            final(self)@ == old(self)@.orb_logged(val),
    {
        if self.trace {
            let effect = match self.kind {
                ViaKind::Iec => {
                    let (data, clk, atna): (bool, bool, bool) = match self.iec {
                        Some(b) => (b.drive_data, b.drive_clk, b.drive_atna),
                        None => (false, false, false),
                    };
                    PortBEffect::Serial { data, clk, atna }
                },
                ViaKind::Disk => {
                    let driven: u8 = self.regs[R_ORB] & self.regs[R_DDRB];
                    PortBEffect::Disk {
                        motor: driven & DSK_PB_MOTOR != 0,
                        phase: driven & DSK_PB_STEP,
                        density: (driven & DSK_PB_DENSITY) >> 5,
                    }
                },
            };
            self.orb_log.push(OrbWrite { val, pc: self.trace_pc, effect });
        }
    }

    /// Starts timer 1 from the latch, whose high byte is `val`.
    fn start_t1(&mut self, val: u8)
        ensures
            final(self)@ == old(self)@.written(R_T1CH as int, val),
    {
        self.regs[R_T1LH] = val;
        self.t1_counter = ((val as u16) << 8) | (self.regs[R_T1LL] as u16);
        self.t1_running = true;
        self.regs[R_IFR] = self.regs[R_IFR] & !IFR_T1;
    }

    /// Starts timer 2 with the high byte `val`.
    fn start_t2(&mut self, val: u8)
        ensures
            final(self)@ == old(self)@.written(R_T2CH as int, val),
    {
        self.t2_counter = ((val as u16) << 8) | (self.regs[R_T2CL] as u16);
        self.t2_running = true;
        self.regs[R_IFR] = self.regs[R_IFR] & !IFR_T2;
    }

    /// Enables or disables interrupts.
    fn enable(&mut self, val: u8)
        ensures
            final(self)@ == old(self)@.written(R_IER as int, val),
    {
        if val & 0x80 != 0 {
            self.regs[R_IER] = self.regs[R_IER] | (val & 0x7F);
        } else {
            self.regs[R_IER] = self.regs[R_IER] & !(val & 0x7F);
        }
    }

    /// Writes a register and leaves the interrupt line as it is.
    fn store(&mut self, r: usize, val: u8)
        requires
            r < 16,
        ensures
            final(self)@ == old(self)@.written(r as int, val),
            final(self)@.regs.len() == 16,
            old(self)@.step_phase < 4 ==> final(self)@.step_phase < 4,
            (old(self)@.disk matches Some(d) ==> d.wf()) ==> (final(self)@.disk matches Some(d)
                ==> d.wf()),
    {
        if r == R_ORB {
            self.regs[R_ORB] = val;
            self.on_port_b_change();
            self.log_orb(val);
        } else if r == R_ORA {
            self.regs[R_IFR] = self.regs[R_IFR] & !(IFR_CA1 | IFR_CA2);
            self.regs[R_ORA] = val;
        } else if r == R_ORA_NH {
            self.regs[R_ORA] = val;
        } else if r == R_DDRB {
            self.regs[R_DDRB] = val;
            self.on_port_b_change();
        } else if r == R_T1CL {
            self.regs[R_T1LL] = val;
        } else if r == R_T1CH {
            self.start_t1(val);
        } else if r == R_T2CH {
            self.start_t2(val);
        } else if r == R_IFR {
            self.regs[R_IFR] = self.regs[R_IFR] & !(val & 0x7F);
        } else if r == R_IER {
            self.enable(val);
        } else {
            self.regs[r] = val;
        }
    }

    /// Writes a register; only the low four bits of its number count.
    pub fn write(&mut self, reg: u8, val: u8)
        ensures
            final(self)@ == old(self)@.after_write((reg & 0x0F) as int, val),
            old(self)@.wf() ==> final(self)@.wf(),
    {
        proof {
            reveal(ViaView::after_write);
            lemma_bits(reg, 0);
        }
        self.store((reg & 0x0F) as usize, val);
        self.recompute_irq();
    }

    /// Lets the timers run for one cycle.
    fn tick_timers(&mut self)
        ensures
            final(self)@ == old(self)@.timers_after(1),
    {
        proof {
            lemma_flags_add(self.regs@[0xD], IFR_T1, IFR_T2, 0, 0);
            lemma_flags_add(self.regs@[0xD], 0, 0, IFR_T1, IFR_T2);
            lemma_flags_add(self.regs@[0xD], IFR_T1, 0, 0, IFR_T2);
            lemma_flags_add(0, self.regs@[0xD], 0, 0, 0);
            lemma_flags_add(0, IFR_T1, 0, 0, 0);
            lemma_flags_add(0, IFR_T2, 0, 0, 0);
            lemma_flags_add(0, 0, 0, 0, 0);
            vstd::arithmetic::div_mod::lemma_small_mod(0, (self@.t1_latch() + 1) as nat);
        }
        if self.t1_running {
            self.t1_counter = self.t1_counter.wrapping_sub(1);
            if self.t1_counter == 0xFFFF {
                self.regs[R_IFR] = self.regs[R_IFR] | IFR_T1;
                if self.regs[R_ACR] & 0x40 != 0 {
                    self.t1_counter = ((self.regs[R_T1LH] as u16) << 8) | (self.regs[R_T1LL] as u16);
                } else {
                    self.t1_running = false;
                }
            }
        }
        if self.t2_running {
            self.t2_counter = self.t2_counter.wrapping_sub(1);
            if self.t2_counter == 0xFFFF {
                self.regs[R_IFR] = self.regs[R_IFR] | IFR_T2;
                self.t2_running = false;
            }
        }
        assert(self@.regs =~= old(self)@.timers_after(1).regs);
    }

    fn notice_atn(&mut self)
        ensures
            final(self)@ == old(self)@.atn_noticed(),
    {
        if self.kind == ViaKind::Iec {
            if let Some(b) = self.iec {
                let atn_low = b.atn_low();
                if atn_low != self.prev_atn_low {
                    self.regs[R_IFR] = self.regs[R_IFR] | IFR_CA1;
                }
                self.prev_atn_low = atn_low;
            }
        }
    }

    fn notice_byte(&mut self)
        ensures
            final(self)@ == old(self)@.byte_noticed(),
            (old(self)@.disk matches Some(d) ==> d.wf()) ==> (final(self)@.disk matches Some(d)
                ==> d.wf()),
    {
        if self.kind == ViaKind::Disk {
            if let Some(mut d) = self.disk.take() {
                if d.byte_ready() {
                    self.regs[R_IFR] = self.regs[R_IFR] | IFR_CA1;
                    d.clear_byte_ready();
                }
                self.disk = Some(d);
            }
        }
    }

    /// Lets a number of cycles pass: the timers run, then edges of ATN and bytes that are ready
    /// are flagged.
    pub fn tick(&mut self, cycles: u32)
        ensures
            final(self)@ == old(self)@.ticked(cycles as int),
            old(self)@.wf() ==> final(self)@.wf(),
    {
        let ghost start = self@;
        let mut i: u32 = 0;
        proof {
            reveal(ViaView::ticked);
            lemma_timers_after_none(start);
        }
        while i < cycles
            invariant
                i <= cycles,
                start.regs.len() == 16,
                self@ == start.timers_after(i as int),
            decreases cycles - i,
        {
            proof {
                timers_add_up(start, i as int, 1);
            }
            self.tick_timers();
            i = i + 1;
        }
        self.notice_atn();
        self.notice_byte();
        self.recompute_irq();
    }

    /// Turns the attached disk for one cycle; tells whether a byte is ready.
    pub fn rotate_disk(&mut self) -> (ready: bool)
        requires
            old(self)@.wf(),
        ensures
            final(self)@ == old(self)@.disk_turned(),
            ready == (final(self)@.disk matches Some(d) && d.byte_ready),
            final(self)@.wf(),
    {
        match self.disk.take() {
            Some(mut d) => {
                d.rotate(1);
                let ready = d.byte_ready();
                self.disk = Some(d);
                ready
            },
            None => false,
        }
    }

    /// Puts an image into the attached disk drive.
    pub fn mount(&mut self, image: D64)
        ensures
            final(self)@ == (ViaView {
                disk: match old(self)@.disk {
                    Some(d) => Some(d.mounted(image@)),
                    None => None,
                },
                ..old(self)@
            }),
            old(self)@.wf() ==> final(self)@.wf(),
    {
        if let Some(mut d) = self.disk.take() {
            d.mount(image);
            self.disk = Some(d);
        }
    }
}

/// The interrupt line is up exactly when an enabled flag is, whatever is done to the VIA.
pub proof fn irq_follows_the_flags(v: ViaView, r: int, val: u8, n: int)
    requires
        v.wf(),
    ensures
        v.after_write(r, val).irq_pending == v.after_write(r, val).irq_due(),
        v.after_read(r).irq_pending == v.after_read(r).irq_due(),
        v.ticked(n).irq_pending == v.ticked(n).irq_due(),
        v.after_reset().irq_pending == v.after_reset().irq_due(),
{
    reveal(ViaView::after_read);
    reveal(ViaView::after_write);
    reveal(ViaView::ticked);
    lemma_bits(0, v.after_reset().regs[0xE]);
}

/// The registers that only store are read back as they were written.
pub proof fn stored_registers_read_back(v: ViaView, r: int, val: u8)
    requires
        v.regs.len() == 16,
        r == R_DDRB || r == R_DDRA || r == R_T1LL || r == R_T1LH || r == R_SR || r == R_ACR || r
            == R_PCR,
    ensures
        v.after_write(r, val).read_value(r) == val,
{
    reveal(ViaView::after_write);
    reveal(ViaView::read_value);
}

/// Writing ones to the flag register takes exactly those flags back.
pub proof fn flags_are_cleared_by_ones(v: ViaView, val: u8)
    requires
        v.regs.len() == 16,
    ensures
        v.after_write(R_IFR as int, val).regs[0xD] & val & 0x7F == 0,
        v.after_write(R_IFR as int, val).regs[0xD] & !val == v.regs[0xD] & !val,
{
    reveal(ViaView::after_write);
    let x = v.regs[0xD];
    assert((x & !(val & 0x7F)) & val & 0x7F == 0 && (x & !(val & 0x7F)) & !val == x & !val)
        by (bit_vector);
}

/// Timer 1, loaded with `t`, raises its flag after `t + 1` cycles and not before.
pub proof fn timer_1_runs_out_on_time(v: ViaView, hi: u8, n: int)
    requires
        v.regs.len() == 16,
        0 <= n,
    ensures
        ({
            let started = v.after_write(R_T1CH as int, hi);
            let t = word(hi, v.regs[6]);
            &&& started.t1_underflows(n) <==> n >= t + 1
            &&& started.timers_after(n).regs[0xD] & IFR_T1 != 0 <==> n >= t + 1
        }),
{
    reveal(ViaView::after_write);
    let started = v.after_write(R_T1CH as int, hi);
    let x = v.regs[0xD];
    let y: u8 = if started.t2_underflows(n) {
        IFR_T2
    } else {
        0
    };
    assert(((x & !0x40u8) | (0x40u8 | y)) & 0x40 != 0 && (y == 0 || y == 0x20 ==> ((x & !0x40u8) | (
    0u8 | y)) & 0x40 == 0)) by (bit_vector);
}

/// A drive reads its own address as 8: both jumper bits are 0.
pub proof fn device_number_is_8(v: ViaView)
    requires
        v.kind == ViaKind::Iec,
        v.iec is Some,
    ensures
        v.pb_pins() & IEC_PB_DEVICE == 0,
{
    let p = v.pb_pins();
    let b = v.iec->Some_0;
    let data: u8 = if b.data() {
        !IEC_PB_DATA_IN
    } else {
        0xFF
    };
    let clk: u8 = if b.clk() {
        !IEC_PB_CLK_IN
    } else {
        0xFF
    };
    let atn: u8 = if b.atn() {
        !IEC_PB_ATN_IN
    } else {
        0xFF
    };
    assert((data & clk & atn & !0x60u8) & 0x60 == 0) by (bit_vector);
}

/// Nothing that the drive's processor does through a VIA changes what the computer does on the
/// bus.
pub proof fn computer_lines_are_kept(v: ViaView, r: int, val: u8, n: int)
    ensures
        same_computer_side(v.iec, v.after_write(r, val).iec),
        same_computer_side(v.iec, v.after_read(r).iec),
        same_computer_side(v.iec, v.ticked(n).iec),
        same_computer_side(v.iec, v.after_reset().iec),
{
    reveal(ViaView::after_read);
    reveal(ViaView::after_write);
    reveal(ViaView::ticked);
}

/// Two states of the bus with the computer doing the same.
pub open spec fn same_computer_side(a: Option<IecBus>, b: Option<IecBus>) -> bool {
    match (a, b) {
        (None, None) => true,
        (Some(x), Some(y)) => x.c64_atn == y.c64_atn && x.c64_clk == y.c64_clk && x.c64_data
            == y.c64_data,
        _ => false,
    }
}

/// What a write to port B does to the head, where the stepper is driven.
proof fn lemma_step(v: ViaView, out: u8)
    requires
        v.wf(),
        v.kind == ViaKind::Disk,
        v.disk is Some,
        v.regs[2] & DSK_PB_STEP == DSK_PB_STEP,
    ensures
        ({
            let w = v.after_write(R_ORB as int, out);
            let moved = ((out & DSK_PB_STEP) as int - v.step_phase) % 4;
            let at = v.disk->Some_0.half_track;
            &&& w.wf()
            &&& w.kind == ViaKind::Disk
            &&& w.disk is Some
            &&& w.regs[2] == v.regs[2]
            &&& w.step_phase == out & DSK_PB_STEP
            &&& w.disk->Some_0.half_track == if moved == 1 && at < LAST_HALF_TRACK {
                at + 1
            } else if moved == 3 && at > FIRST_HALF_TRACK {
                at - 1
            } else {
                at as int
            }
        }),
{
    via_stays_well_formed(v, 0, out);
    reveal(ViaView::after_write);
    lemma_driven_step(out, v.regs[2]);
    assert(v.with_reg(0, out).driven() & DSK_PB_STEP == out & DSK_PB_STEP);
}

/// Where the stepper is driven, a phase forward moves the head half a track in and a phase back half
/// a track out, up to its stops; any other change of the phase leaves the head where it is.
pub proof fn phase_moves_the_head_half_a_track(v: ViaView, out: u8)
    requires
        v.wf(),
        v.kind == ViaKind::Disk,
        v.disk is Some,
        v.regs[2] & DSK_PB_STEP == DSK_PB_STEP,
    ensures
        ({
            let w = v.after_write(R_ORB as int, out);
            let moved = ((out & DSK_PB_STEP) as int - v.step_phase) % 4;
            let at = v.disk->Some_0.half_track;
            &&& w.wf()
            &&& w.kind == ViaKind::Disk
            &&& w.disk is Some
            &&& w.regs[2] == v.regs[2]
            &&& w.step_phase == out & DSK_PB_STEP
            &&& w.disk->Some_0.half_track == if moved == 1 && at < LAST_HALF_TRACK {
                at + 1
            } else if moved == 3 && at > FIRST_HALF_TRACK {
                at - 1
            } else {
                at as int
            }
        }),
{
    lemma_step(v, out);
}

/// A step of the head and the step back leave it where it came from, unless the first one met a
/// stop.
pub proof fn step_back_returns(v: ViaView, out: u8, back: u8)
    requires
        v.wf(),
        v.kind == ViaKind::Disk,
        v.disk is Some,
        v.regs[2] & DSK_PB_STEP == DSK_PB_STEP,
        back & DSK_PB_STEP == v.step_phase,
        v.after_write(R_ORB as int, out).disk->Some_0.half_track != v.disk->Some_0.half_track,
    ensures
        ({
            let there = v.after_write(R_ORB as int, out);
            let again = there.after_write(R_ORB as int, back);
            &&& again.disk->Some_0.half_track == v.disk->Some_0.half_track
            &&& again.disk->Some_0.track == v.disk->Some_0.track
        }),
{
    lemma_step(v, out);
    lemma_driven_step(out, v.regs[2]);
    lemma_step(v.after_write(R_ORB as int, out), back);
}

/// Two phases forward move the head one track in, and two phases back one track out, as long as no
/// stop is met.
pub proof fn two_phases_are_a_track(v: ViaView, one: u8, two: u8)
    requires
        v.wf(),
        v.kind == ViaKind::Disk,
        v.disk is Some,
        v.regs[2] & DSK_PB_STEP == DSK_PB_STEP,
    ensures
        ({
            let d = v.disk->Some_0;
            let p = v.step_phase;
            let after = v.after_write(R_ORB as int, one).after_write(R_ORB as int, two);
            &&& (one & DSK_PB_STEP == (p + 1) % 4 && two & DSK_PB_STEP == (p + 2) % 4
                && d.half_track + 2 <= LAST_HALF_TRACK) ==> after.disk->Some_0.track == d.track + 1
            &&& (one & DSK_PB_STEP == (p + 3) % 4 && two & DSK_PB_STEP == (p + 2) % 4
                && d.half_track - 2 >= FIRST_HALF_TRACK) ==> after.disk->Some_0.track == d.track - 1
        }),
{
    lemma_step(v, one);
    lemma_driven_step(one, v.regs[2]);
    lemma_step(v.after_write(R_ORB as int, one), two);
}

proof fn lemma_driven_step(out: u8, ddr: u8)
    requires
        ddr & DSK_PB_STEP == DSK_PB_STEP,
    ensures
        (out & ddr) & DSK_PB_STEP == out & DSK_PB_STEP,
        out & DSK_PB_STEP < 4,
{
    assert((out & ddr) & 0x03 == out & 0x03 && out & 0x03 < 4) by (bit_vector)
        requires
            ddr & 0x03 == 0x03,
    ;
}

/// Port B passed on keeps the phase of the stepper and the disk within their bounds.
proof fn lemma_port_b_driven(v: ViaView)
    requires
        v.step_phase < 4,
        v.disk matches Some(d) ==> d.wf(),
    ensures
        v.port_b_driven().step_phase < 4,
        v.port_b_driven().disk matches Some(d) ==> d.wf(),
{
    lemma_bits(v.driven(), 0);
    if let Some(d) = v.disk {
        let on = v.driven() & DSK_PB_MOTOR != 0;
        let density = (v.driven() & DSK_PB_DENSITY) >> 5;
        disk_stays_well_formed(d, 1, on, density, Seq::empty());
        let spun = d.with_motor(on);
        disk_stays_well_formed(spun, 1, on, density, Seq::empty());
        let set = spun.with_density(density);
        disk_stays_well_formed(set, set.half_track + v.head_steps(), on, density, Seq::empty());
    }
}

/// Reads and writes keep a VIA well formed and wired as it is, with the same image in the drive.
pub proof fn via_stays_well_formed(v: ViaView, r: int, val: u8)
    requires
        v.wf(),
        0 <= r < 16,
    ensures
        v.after_read(r).wf(),
        v.after_write(r, val).wf(),
        v.after_read(r).kind == v.kind,
        v.after_write(r, val).kind == v.kind,
        v.after_read(r).disk == v.disk,
        v.after_write(r, val).disk is Some == v.disk is Some,
        (v.after_write(r, val).disk matches Some(e) ==> v.disk matches Some(d) && e.image
            == d.image),
{
    reveal(ViaView::after_read);
    reveal(ViaView::after_write);
    lemma_port_b_driven(v.with_reg(r, val));
}

/// Time that passes keeps a VIA well formed and wired as it is, with the same image in the drive.
pub proof fn via_keeps_time(v: ViaView, n: int)
    requires
        v.wf(),
    ensures
        v.ticked(n).wf(),
        v.ticked(n).kind == v.kind,
        v.ticked(n).disk is Some == v.disk is Some,
        (v.ticked(n).disk matches Some(e) ==> v.disk matches Some(d) && e.image == d.image),
{
    reveal(ViaView::ticked);
}

/// A bit of a port is the output where it is driven, and the pin where it is not.
proof fn lemma_port_bit(out: u8, ddr: u8, pins: u8, m: u8)
    ensures
        ddr & m == 0 ==> ViaView::port(out, ddr, pins) & m == pins & m,
        ddr & m == m ==> ViaView::port(out, ddr, pins) & m == out & m,
{
    assert((ddr & m == 0 ==> ((out & ddr) | (pins & !ddr)) & m == pins & m) && (ddr & m == m ==> ((out
        & ddr) | (pins & !ddr)) & m == out & m)) by (bit_vector);
}

/// Where a port is driven it reads what was put out, on either VIA.
pub proof fn driven_bits_read_what_was_put_out(v: ViaView, m: u8)
    requires
        v.regs.len() == 16,
    ensures
        v.regs[2] & m == m ==> v.read_value(0x0) & m == v.regs[0] & m,
        v.regs[3] & m == m ==> v.read_value(0x1) & m == v.regs[1] & m && v.read_value(0xF) & m
            == v.regs[1] & m,
{
    reveal(ViaView::read_value);
    lemma_port_bit(v.regs[0], v.regs[2], v.pb_pins(), m);
    lemma_port_bit(v.regs[1], v.regs[3], v.pa_pins(), m);
}

/// On the serial bus each input of port B tells its own line and no other: bit 0 reads 0 exactly
/// when DATA is low, bit 2 exactly when CLK is, bit 7 exactly when ATN is. The two bits that make
/// the drive device 8 read 0, and what nothing is wired to reads 1.
pub proof fn port_b_tells_each_line(v: ViaView)
    requires
        v.regs.len() == 16,
        v.kind == ViaKind::Iec,
        v.iec is Some,
    ensures
        ({
            let b = v.iec->Some_0;
            let ddr = v.regs[2];
            let val = v.read_value(0x0);
            &&& ddr & 0x01 == 0 ==> (val & 0x01 == 0 <==> b.c64_data || b.drive_data || (b.c64_atn
                && !b.drive_atna))
            &&& ddr & 0x04 == 0 ==> (val & 0x04 == 0 <==> b.c64_clk || b.drive_clk)
            &&& ddr & 0x80 == 0 ==> (val & 0x80 == 0 <==> b.c64_atn)
            &&& ddr & 0x20 == 0 ==> val & 0x20 == 0
            &&& ddr & 0x40 == 0 ==> val & 0x40 == 0
            &&& ddr & 0x02 == 0 ==> val & 0x02 != 0
            &&& ddr & 0x08 == 0 ==> val & 0x08 != 0
            &&& ddr & 0x10 == 0 ==> val & 0x10 != 0
        }),
{
    reveal(ViaView::read_value);
    let b = v.iec->Some_0;
    let pins = v.pb_pins();
    let line = |low: bool, mask: u8|
        if low {
            !mask
        } else {
            0xFFu8
        };
    let (d, c, a) = (line(b.data(), 0x01), line(b.clk(), 0x04), line(b.atn(), 0x80));
    assert(pins & 0x01 == d & 0x01 && pins & 0x04 == c & 0x04 && pins & 0x80 == a & 0x80 && pins & 0x20
        == 0 && pins & 0x40 == 0 && pins & 0x02 != 0 && pins & 0x08 != 0 && pins & 0x10 != 0 && !0x01u8
        & 0x01 == 0 && !0x04u8 & 0x04 == 0 && !0x80u8 & 0x80 == 0 && 0xFFu8 & 0x01 != 0 && 0xFFu8
        & 0x04 != 0 && 0xFFu8 & 0x80 != 0) by (bit_vector)
        requires
            pins == d & c & a & !0x60u8,
            d == !0x01u8 || d == 0xFF,
            c == !0x04u8 || c == 0xFF,
            a == !0x80u8 || a == 0xFF,
    ;
    let (out, ddr) = (v.regs[0], v.regs[2]);
    lemma_port_bit(out, ddr, pins, 0x01);
    lemma_port_bit(out, ddr, pins, 0x04);
    lemma_port_bit(out, ddr, pins, 0x80);
    lemma_port_bit(out, ddr, pins, 0x20);
    lemma_port_bit(out, ddr, pins, 0x40);
    lemma_port_bit(out, ddr, pins, 0x02);
    lemma_port_bit(out, ddr, pins, 0x08);
    lemma_port_bit(out, ddr, pins, 0x10);
}

/// On the disk the inputs of port A read the byte under the head, bit by bit. Bit 7 of port B reads 0
/// exactly over a sync mark, and its other inputs read 1.
pub proof fn disk_ports_tell_what_is_under_the_head(v: ViaView, m: u8)
    requires
        v.regs.len() == 16,
        v.kind == ViaKind::Disk,
        v.disk is Some,
    ensures
        ({
            let d = v.disk->Some_0;
            &&& v.regs[3] & m == 0 ==> v.read_value(0x1) & m == d.current() & m && v.read_value(0xF)
                & m == d.current() & m
            &&& v.regs[2] & 0x80 == 0 ==> (v.read_value(0x0) & 0x80 == 0 <==> d.over_sync())
            &&& v.regs[2] & m == 0 && m & 0x80 == 0 ==> v.read_value(0x0) & m == m
        }),
{
    reveal(ViaView::read_value);
    assert(!0x80u8 & 0x80 == 0 && 0xFFu8 & 0x80 != 0 && (m & 0x80 == 0 ==> !0x80u8 & m == m) && 0xFFu8
        & m == m) by (bit_vector);
    lemma_port_bit(v.regs[1], v.regs[3], v.pa_pins(), m);
    lemma_port_bit(v.regs[0], v.regs[2], v.pb_pins(), 0x80);
    lemma_port_bit(v.regs[0], v.regs[2], v.pb_pins(), m);
}

/// What nothing is wired to reads 1: port A of the VIA on the serial bus, and port B where no bus or no
/// disk is attached.
pub proof fn open_inputs_read_one(v: ViaView, m: u8)
    requires
        v.regs.len() == 16,
    ensures
        v.kind == ViaKind::Iec && v.regs[3] & m == 0 ==> v.read_value(0x1) & m == m && v.read_value(
            0xF,
        ) & m == m,
        v.kind == ViaKind::Iec && v.iec is None && v.regs[2] & m == 0 ==> v.read_value(0x0) & m == m,
        v.kind == ViaKind::Disk && v.disk is None && v.regs[2] & m == 0 ==> v.read_value(0x0) & m == m,
{
    reveal(ViaView::read_value);
    assert(0xFFu8 & m == m) by (bit_vector);
    lemma_port_bit(v.regs[1], v.regs[3], v.pa_pins(), m);
    lemma_port_bit(v.regs[0], v.regs[2], v.pb_pins(), m);
}

/// On the serial bus each output of port B that is driven pulls its own line by a 1 and lets it go by
/// a 0: bit 1 DATA, bit 3 CLK, bit 4 acknowledges ATN. An output that is not driven pulls nothing.
/// The same holds when the direction is set.
pub proof fn port_b_pulls_each_line(v: ViaView, val: u8)
    requires
        v.regs.len() == 16,
        v.kind == ViaKind::Iec,
        v.iec is Some,
    ensures
        v.after_write(0x0, val).iec == Some(
            IecBus {
                drive_data: v.regs[2] & 0x02 != 0 && val & 0x02 != 0,
                drive_clk: v.regs[2] & 0x08 != 0 && val & 0x08 != 0,
                drive_atna: v.regs[2] & 0x10 != 0 && val & 0x10 != 0,
                ..v.iec->Some_0
            },
        ),
        v.after_write(0x2, val).iec == Some(
            IecBus {
                drive_data: val & 0x02 != 0 && v.regs[0] & 0x02 != 0,
                drive_clk: val & 0x08 != 0 && v.regs[0] & 0x08 != 0,
                drive_atna: val & 0x10 != 0 && v.regs[0] & 0x10 != 0,
                ..v.iec->Some_0
            },
        ),
{
    reveal(ViaView::after_write);
}

/// A line that the drive pulls through port B is low on port B.
pub proof fn pulled_lines_read_low(v: ViaView, val: u8)
    requires
        v.regs.len() == 16,
        v.kind == ViaKind::Iec,
        v.iec is Some,
        v.regs[2] & 0x01 == 0,
        v.regs[2] & 0x04 == 0,
    ensures
        ({
            let after = v.after_write(0x0, val);
            &&& v.regs[2] & 0x02 != 0 && val & 0x02 != 0 ==> after.read_value(0x0) & 0x01 == 0
            &&& v.regs[2] & 0x08 != 0 && val & 0x08 != 0 ==> after.read_value(0x0) & 0x04 == 0
        }),
{
    let after = v.after_write(0x0, val);
    port_b_pulls_each_line(v, val);
    assert(after.regs.len() == 16 && after.kind == v.kind && after.regs[2] == v.regs[2]) by {
        reveal(ViaView::after_write);
    }
    port_b_tells_each_line(after);
}

/// On the disk port B runs the motor by bit 2 and sets the density by bits 5 and 6; a bit that is not
/// driven counts as 0. The same holds when the direction is set. The image stays what it is.
pub proof fn port_b_sets_motor_and_density(v: ViaView, val: u8)
    requires
        v.wf(),
        v.kind == ViaKind::Disk,
        v.disk is Some,
    ensures
        v.after_write(0x0, val).disk matches Some(e) && {
            let driven = val & v.regs[2];
            &&& e.motor_on <==> driven & 0x04 != 0
            &&& e.density == driven as int / 32 % 4
            &&& e.image == v.disk->Some_0.image
        },
        v.after_write(0x2, val).disk matches Some(e) && {
            let driven = v.regs[0] & val;
            &&& e.motor_on <==> driven & 0x04 != 0
            &&& e.density == driven as int / 32 % 4
            &&& e.image == v.disk->Some_0.image
        },
{
    reveal(ViaView::after_write);
    let (x, y) = (val & v.regs[2], v.regs[0] & val);
    assert(((x & 0x60) >> 5) & 0x03 == x / 32 % 4 && ((y & 0x60) >> 5) & 0x03 == y / 32 % 4)
        by (bit_vector);
    assert(v.with_reg(0, val).driven() == x);
    assert(v.with_reg(2, val).driven() == y);
}

/// What is left of the flags without those of the pins, of timer 1 and of timer 2.
proof fn lemma_flag_masks()
    ensures
        !(IFR_CA1 | IFR_CA2) == 0xFC,
        !IFR_T1 == 0xBF,
        !IFR_T2 == 0xDF,
{
    assert(!(0x02u8 | 0x01u8) == 0xFC && !0x40u8 == 0xBF && !0x20u8 == 0xDF) by (bit_vector);
}

/// Reading takes flags back only where it should: port A with handshake those of its pins, the low
/// byte of a timer that of the timer. Nothing else changes by a read but the interrupt line.
pub proof fn reading_takes_only_its_flags_back(v: ViaView, r: int)
    requires
        v.wf(),
        0 <= r < 16,
    ensures
        ({
            let flags = v.regs[0xD];
            let after = v.after_read(r);
            &&& after == (ViaView { regs: after.regs, irq_pending: after.irq_pending, ..v })
            &&& after.regs == v.regs.update(
                0xD,
                if r == 0x1 {
                    flags & 0xFC
                } else if r == 0x4 {
                    flags & 0xBF
                } else if r == 0x8 {
                    flags & 0xDF
                } else {
                    flags
                },
            )
        }),
{
    reveal(ViaView::after_read);
    lemma_flag_masks();
    assert(v.regs.update(0xD, v.regs[0xD]) =~= v.regs);
}

/// The register that a write goes to, -1 where it only starts a timer.
pub open spec fn register_written(r: int) -> int {
    if r == 0xF {
        0x1
    } else if r == 0x4 {
        0x6
    } else if r == 0x5 {
        0x7
    } else if r == 0x9 {
        -1
    } else {
        r
    }
}

/// A write changes the register that it goes to and no other, but for the flags. Flags go where port
/// A is written with handshake, where a timer is started and where they are written; only port B and
/// its direction reach what the VIA is wired to.
pub proof fn write_changes_only_its_register(v: ViaView, r: int, val: u8, k: int)
    requires
        v.wf(),
        0 <= r < 16,
        0 <= k < 16,
    ensures
        ({
            let after = v.after_write(r, val);
            let flags = v.regs[0xD];
            &&& after.regs.len() == 16
            &&& k == register_written(r) && k != 0xD && k != 0xE ==> after.regs[k] == val
            &&& k != register_written(r) && k != 0xD ==> after.regs[k] == v.regs[k]
            &&& after.regs[0xD] == if r == 0x1 {
                flags & 0xFC
            } else if r == 0x5 {
                flags & 0xBF
            } else if r == 0x9 {
                flags & 0xDF
            } else if r == 0xD {
                flags & !(val & 0x7F)
            } else {
                flags
            }
            &&& r != 0x5 ==> after.t1_counter == v.t1_counter && after.t1_running == v.t1_running
            &&& r != 0x9 ==> after.t2_counter == v.t2_counter && after.t2_running == v.t2_running
            &&& r != 0x0 && r != 0x2 ==> after.iec == v.iec && after.disk == v.disk
                && after.step_phase == v.step_phase
            &&& r != 0x0 ==> after.orb_log == v.orb_log
            &&& after.prev_atn_low == v.prev_atn_low && after.kind == v.kind
            &&& after.trace == v.trace && after.trace_pc == v.trace_pc
        }),
{
    reveal(ViaView::after_write);
    lemma_flag_masks();
}

/// Writing the high byte of a timer starts it from both bytes: timer 1 from its latch, timer 2 from
/// the low byte that was written last.
pub proof fn timers_start_from_both_bytes(v: ViaView, lo: u8, hi: u8)
    requires
        v.regs.len() == 16,
    ensures
        ({
            let one = v.after_write(0x4, lo).after_write(0x5, hi);
            let two = v.after_write(0x8, lo).after_write(0x9, hi);
            &&& one.t1_running && one.t1_counter == lo + 256 * hi
            &&& two.t2_running && two.t2_counter == lo + 256 * hi
        }),
{
    reveal(ViaView::after_write);
    word_is_both_bytes(hi, lo);
}

/// The two bytes of a timer read what it counts.
pub proof fn timers_read_what_they_count(v: ViaView)
    ensures
        v.read_value(0x4) + 256 * v.read_value(0x5) == v.t1_counter,
        v.read_value(0x8) + 256 * v.read_value(0x9) == v.t2_counter,
{
    reveal(ViaView::read_value);
    let (a, b) = (v.t1_counter, v.t2_counter);
    assert(((a & 0xFF) as u8) + 256 * ((a >> 8) as u8) == a && ((b & 0xFF) as u8) + 256 * ((b >> 8)
        as u8) == b) by (bit_vector);
}

/// Writing the interrupt enables with bit 7 set switches those on that are named by a one, without
/// it those off; the others stay. They read with bit 7 set.
pub proof fn interrupts_are_enabled_by_name(v: ViaView, val: u8, m: u8)
    requires
        v.regs.len() == 16,
        m & 0x80 == 0,
    ensures
        ({
            let after = v.after_write(0xE, val);
            &&& val & 0x80 != 0 && val & m == m ==> after.regs[0xE] & m == m
            &&& val & 0x80 == 0 && val & m == m ==> after.regs[0xE] & m == 0
            &&& val & m == 0 ==> after.regs[0xE] & m == v.regs[0xE] & m
            &&& v.read_value(0xE) & 0x80 != 0
            &&& v.read_value(0xE) & m == v.regs[0xE] & m
        }),
{
    reveal(ViaView::after_write);
    reveal(ViaView::read_value);
    let e = v.regs[0xE];
    assert((val & m == m ==> (e | (val & 0x7F)) & m == m && (e & !(val & 0x7F)) & m == 0) && (val & m
        == 0 ==> (e | (val & 0x7F)) & m == e & m && (e & !(val & 0x7F)) & m == e & m) && (e | 0x80)
        & 0x80 != 0 && (e | 0x80) & m == e & m) by (bit_vector)
        requires
            m & 0x80 == 0,
    ;
}

/// The interrupt line is up exactly when a flag and its enable are both set, after whatever is done
/// to the VIA; the flags read with that in bit 7.
pub proof fn interrupt_line_is_flags_and_enables(v: ViaView, r: int, val: u8, n: int)
    requires
        v.wf(),
        0 <= r < 16,
    ensures
        v.irq_pending <==> v.regs[0xD] & v.regs[0xE] & 0x7F != 0,
        v.after_write(r, val).irq_pending <==> v.after_write(r, val).regs[0xD] & v.after_write(
            r,
            val,
        ).regs[0xE] & 0x7F != 0,
        v.after_read(r).irq_pending <==> v.after_read(r).regs[0xD] & v.after_read(r).regs[0xE] & 0x7F
            != 0,
        v.ticked(n).irq_pending <==> v.ticked(n).regs[0xD] & v.ticked(n).regs[0xE] & 0x7F != 0,
        v.read_value(0xD) & 0x7F == v.regs[0xD] & 0x7F,
        v.read_value(0xD) & 0x80 != 0 <==> v.irq_pending,
{
    irq_follows_the_flags(v, r, val, n);
    reveal(ViaView::read_value);
    let f = v.regs[0xD];
    assert(((f & 0x7F) | 0x80u8) & 0x7F == f & 0x7F && ((f & 0x7F) | 0u8) & 0x7F == f & 0x7F && ((f
        & 0x7F) | 0x80u8) & 0x80 != 0 && ((f & 0x7F) | 0u8) & 0x80 == 0) by (bit_vector);
}

/// In a cycle a running timer counts down by one. One that is at 0 raises its flag: timer 1 starts
/// again from its latch where it is free-running, and otherwise both stop. A timer that is stopped
/// stays. Registers other than the flags stay, and so do the wiring and the trace.
pub proof fn timers_count_cycle_by_cycle(v: ViaView, k: int)
    requires
        v.wf(),
        0 <= k < 16,
        k != 0xD,
    ensures
        ({
            let w = v.ticked(1);
            let free = v.regs[0xB] & 0x40 != 0;
            &&& !v.t1_running ==> w.t1_counter == v.t1_counter && !w.t1_running
            &&& v.t1_running && v.t1_counter > 0 ==> w.t1_counter == v.t1_counter - 1 && w.t1_running
            &&& v.t1_running && v.t1_counter == 0 && free ==> w.t1_counter == v.regs[6] + 256
                * v.regs[7] && w.t1_running
            &&& v.t1_running && v.t1_counter == 0 && !free ==> w.t1_counter == 0xFFFF && !w.t1_running
            &&& !v.t2_running ==> w.t2_counter == v.t2_counter && !w.t2_running
            &&& v.t2_running && v.t2_counter > 0 ==> w.t2_counter == v.t2_counter - 1 && w.t2_running
            &&& v.t2_running && v.t2_counter == 0 ==> w.t2_counter == 0xFFFF && !w.t2_running
            &&& w.regs.len() == 16 && w.regs[k] == v.regs[k]
            &&& w.kind == v.kind && w.iec == v.iec && w.step_phase == v.step_phase
            &&& w.trace == v.trace && w.trace_pc == v.trace_pc && w.orb_log == v.orb_log
        }),
{
    reveal(ViaView::ticked);
    word_is_both_bytes(v.regs[7], v.regs[6]);
    vstd::arithmetic::div_mod::lemma_small_mod(0, (v.t1_latch() + 1) as nat);
}

/// In a cycle exactly those flags are raised that are due: bit 6 where timer 1 runs out, bit 5 where
/// timer 2 does, and bit 1 where ATN has changed or a byte is ready. ATN is noted as it is, and a
/// byte that was ready is taken; the rest of the disk stays.
pub proof fn flags_are_raised_when_due(v: ViaView)
    requires
        v.wf(),
    ensures
        ({
            let w = v.ticked(1);
            let atn = v.kind == ViaKind::Iec && (v.iec matches Some(b) && b.c64_atn
                != v.prev_atn_low);
            let byte = v.kind == ViaKind::Disk && (v.disk matches Some(d) && d.byte_ready);
            let due = (if v.t1_running && v.t1_counter == 0 {
                0x40u8
            } else {
                0
            }) | (if v.t2_running && v.t2_counter == 0 {
                0x20u8
            } else {
                0
            }) | (if atn || byte {
                0x02u8
            } else {
                0
            });
            &&& w.regs[0xD] == v.regs[0xD] | due
            &&& v.kind == ViaKind::Iec ==> (v.iec matches Some(b) ==> w.prev_atn_low == b.c64_atn)
            &&& byte ==> w.disk == Some(DiskView { byte_ready: false, ..v.disk->Some_0 })
            &&& !byte ==> w.disk == v.disk
        }),
{
    reveal(ViaView::ticked);
    let x = v.regs[0xD];
    let p: u8 = if v.t1_underflows(1) {
        IFR_T1
    } else {
        0
    };
    let q: u8 = if v.t2_underflows(1) {
        IFR_T2
    } else {
        0
    };
    assert((x | (p | q)) | 0x02u8 == x | (p | q | 0x02u8) && x | (p | q) == x | (p | q | 0u8))
        by (bit_vector);
}

/// Many cycles at once count the timers as often, and flag what has run out.
pub proof fn ticks_count_the_timers(v: ViaView, n: int)
    requires
        v.wf(),
        0 <= n,
    ensures
        ({
            let w = v.ticked(n);
            &&& v.t1_running && n <= v.t1_counter ==> w.t1_counter == v.t1_counter - n
                && w.t1_running
            &&& v.t2_running && n <= v.t2_counter ==> w.t2_counter == v.t2_counter - n
                && w.t2_running
            &&& v.t1_running && n > v.t1_counter ==> w.regs[0xD] & 0x40 != 0
            &&& v.t2_running && n > v.t2_counter ==> w.regs[0xD] & 0x20 != 0
            &&& w.t1_counter == v.timers_after(n).t1_counter
            &&& w.t2_counter == v.timers_after(n).t2_counter
        }),
{
    reveal(ViaView::ticked);
    let x = v.regs[0xD];
    let p: u8 = if v.t1_underflows(n) {
        IFR_T1
    } else {
        0
    };
    let q: u8 = if v.t2_underflows(n) {
        IFR_T2
    } else {
        0
    };
    assert((p == 0x40 ==> (x | (p | q)) & 0x40 != 0 && ((x | (p | q)) | 0x02u8) & 0x40 != 0) && (q
        == 0x20 ==> (x | (p | q)) & 0x20 != 0 && ((x | (p | q)) | 0x02u8) & 0x20 != 0))
        by (bit_vector);
}

/// A reset clears the registers, stops the timers and lets go of what the drive pulled, and of
/// nothing that the computer pulls; the disk stays in.
pub proof fn reset_lets_everything_go(v: ViaView, k: int)
    requires
        0 <= k < 16,
    ensures
        ({
            let w = v.after_reset();
            &&& w.regs.len() == 16 && w.regs[k] == 0
            &&& !w.t1_running && !w.t2_running && w.t1_counter == 0xFFFF && w.t2_counter == 0xFFFF
            &&& !w.irq_pending && !w.prev_atn_low && w.step_phase == 0
            &&& w.disk == v.disk && w.kind == v.kind && w.orb_log == v.orb_log && w.trace == v.trace
            &&& w.iec is Some == v.iec is Some
            &&& w.iec matches Some(b) ==> !b.drive_clk && !b.drive_data && !b.drive_atna
            &&& same_computer_side(v.iec, w.iec)
        }),
{
}

/// A traced write to port B is noted once, with the byte, the place and what it did; one that is not
/// traced is not noted.
pub proof fn traced_writes_are_noted(v: ViaView, val: u8)
    requires
        v.wf(),
        v.kind == ViaKind::Iec ==> v.iec is Some,
        v.kind == ViaKind::Disk ==> v.disk is Some,
    ensures
        ({
            let after = v.after_write(0x0, val);
            &&& !v.trace ==> after.orb_log == v.orb_log
            &&& v.trace ==> {
                let note = after.orb_log.last();
                &&& after.orb_log.len() == v.orb_log.len() + 1
                &&& after.orb_log.drop_last() == v.orb_log
                &&& note.val == val && note.pc == v.trace_pc
                &&& v.kind == ViaKind::Iec ==> {
                    let b = after.iec->Some_0;
                    note.effect == (PortBEffect::Serial {
                        data: b.drive_data,
                        clk: b.drive_clk,
                        atna: b.drive_atna,
                    })
                }
                &&& v.kind == ViaKind::Disk ==> {
                    let d = after.disk->Some_0;
                    note.effect == (PortBEffect::Disk {
                        motor: d.motor_on,
                        phase: after.step_phase,
                        density: d.density,
                    })
                }
            }
        }),
{
    reveal(ViaView::after_write);
    let w = v.with_reg(0, val);
    let x = w.driven();
    assert(((x & 0x60) >> 5) & 0x03 == (x & 0x60) >> 5) by (bit_vector);
    if v.trace {
        let driven = w.port_b_driven();
        assert(v.after_write(0x0, val).orb_log.drop_last() =~= v.orb_log);
    }
}

/// A VIA at power-on is as after a reset, wired to nothing and not traced.
pub proof fn power_on_is_a_reset(kind: ViaKind)
    ensures
        fresh_via(kind).after_reset() == fresh_via(kind),
        fresh_via(kind).kind == kind,
        fresh_via(kind).iec is None && fresh_via(kind).disk is None,
        !fresh_via(kind).trace && fresh_via(kind).orb_log.len() == 0,
{
    assert(fresh_via(kind).after_reset().regs =~= fresh_via(kind).regs);
}

} // verus!
