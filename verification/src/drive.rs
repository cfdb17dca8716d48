//! The 1541 disk drive: a computer of its own, with a processor, RAM, ROM and two VIAs, that runs
//! in step with the computer it serves.
use vstd::prelude::*;

use crate::bus::{
    fresh_bus, kept_by_processor, processor_keeps, rom_size_text, BusAccess, BusView, DriveBus,
    ROM_SIZE,
};
use crate::cpu::{fresh_cpu, Cpu, Registers, FLAG_V};
use crate::d64::D64;
use crate::disk::{rotation_adds_up, DiskView};
use crate::drive_trace::{fresh_trace, DriveEvent, DriveTrace, Scene};
use crate::iec::IecBus;
use crate::via::{timers_count_cycle_by_cycle, via_keeps_time, word, OrbWrite, ViaView};

verus! {

/// Cycles that a step may add while the drive is busy with the disk.
pub const EXTRA_CYCLES: u32 = 512;

/// A disk drive.
pub struct Drive1541 {
    cpu: Cpu,
    bus: DriveBus,
    enabled: bool,
    cycle_count: u64,
    trace: DriveTrace,
}

/// What a drive is.
pub struct DriveView {
    pub cpu: Cpu,
    pub bus: BusView,
    pub enabled: bool,
    pub cycle_count: u64,
    pub trace: DriveTrace,
}

/// What a step of the drive has to tell.
pub struct StepReport {
    /// What the probes report.
    pub events: Vec<DriveEvent>,
    /// The drive as it was then, if they report anything.
    pub scene: Option<Scene>,
    /// The program in the drive has run into something that cannot be run.
    pub stalled: bool,
}

impl StepReport {
    /// It is what a step of the drive has to tell.
    pub open spec fn tells(self, d: DriveView) -> bool {
        &&& self.events@ == d.step_events()
        &&& self.stalled == d.step_stalls()
        &&& match self.scene {
            Some(scene) => self.events@.len() > 0 && scene.shows(
                d.observed().cpu.regs.pc,
                d.observed().cycle_count,
                d.observed().bus,
            ),
            None => self.events@.len() == 0,
        }
    }
}

/// The routine that reads the serial port twice until both reads agree.
pub open spec fn in_debounce(pc: u16) -> bool {
    0xE9C0 <= pc <= 0xE9C8
}

/// The part of the ROM that deals with the disk.
pub open spec fn in_disk_code(pc: u16) -> bool {
    pc >= 0xF000
}

impl DriveView {
    /// The bus is well formed.
    pub open spec fn wf(self) -> bool {
        self.bus.wf()
    }

    /// After what happens around the processor in a cycle: the disk turns, a byte that is ready
    /// sets the overflow flag, and the VIAs run.
    pub open spec fn prepared(self) -> DriveView {
        let turned = self.bus.disk_turned();
        DriveView {
            cpu: if turned.byte_ready() {
                Cpu {
                    regs: Registers { status: self.cpu.regs.status | FLAG_V, ..self.cpu.regs },
                    ..self.cpu
                }
            } else {
                self.cpu
            },
            bus: turned.ticked(),
            ..self
        }
    }

    /// With an interrupt of the VIAs passed on, but for one in the routine that reads the port
    /// twice: an interrupt between the reads would miss the answer of the computer.
    pub open spec fn signalled(self) -> DriveView {
        if self.bus.irq() && !in_debounce(self.cpu.regs.pc) {
            DriveView { cpu: Cpu { irq_pending: true, ..self.cpu }, ..self }
        } else {
            self
        }
    }

    /// The processor can run a cycle.
    pub open spec fn can_run(self) -> bool {
        self.cpu.can_run(self.bus)
    }

    /// After a cycle of the processor.
    pub open spec fn ran(self) -> DriveView {
        DriveView {
            cpu: self.cpu.after_cycle(self.bus),
            bus: self.bus.run(self.cpu.cycle_accesses(self.bus)),
            cycle_count: self.cycle_count.wrapping_add(1),
            ..self
        }
    }

    /// Before the first cycle of a step, with the probes' look taken.
    pub open spec fn observed(self) -> DriveView {
        let p = self.prepared();
        let s = DriveView { bus: p.bus.traced_at(p.cpu.regs.pc), ..p }.signalled();
        DriveView { trace: s.trace.after(s.cpu.regs.pc, s.cycle_count, s.bus), ..s }
    }

    /// Before another cycle of a step.
    pub open spec fn readied(self) -> DriveView {
        self.prepared().signalled()
    }

    /// After up to `n` more cycles, as long as the processor is busy with the disk and can run.
    pub open spec fn hurried(self, n: nat) -> DriveView
        decreases n,
    {
        if n == 0 || !in_disk_code(self.cpu.regs.pc) {
            self
        } else if !self.readied().can_run() {
            self.readied()
        } else {
            self.readied().ran().hurried((n - 1) as nat)
        }
    }

    /// How many of them there are.
    pub open spec fn hurried_cycles(self, n: nat) -> nat
        decreases n,
    {
        if n == 0 || !in_disk_code(self.cpu.regs.pc) || !self.readied().can_run() {
            0
        } else {
            1 + self.readied().ran().hurried_cycles((n - 1) as nat)
        }
    }

    /// One of them could not be run.
    pub open spec fn hurry_stalls(self, n: nat) -> bool
        decreases n,
    {
        if n == 0 || !in_disk_code(self.cpu.regs.pc) {
            false
        } else if !self.readied().can_run() {
            true
        } else {
            self.readied().ran().hurry_stalls((n - 1) as nat)
        }
    }

    /// After a step.
    pub open spec fn stepped(self) -> DriveView {
        if !self.enabled {
            self
        } else if !self.observed().can_run() {
            self.observed()
        } else {
            self.observed().ran().hurried(EXTRA_CYCLES as nat)
        }
    }

    /// Cycles that a step runs.
    pub open spec fn step_cycles(self) -> nat {
        if !self.enabled || !self.observed().can_run() {
            0
        } else {
            1 + self.observed().ran().hurried_cycles(EXTRA_CYCLES as nat)
        }
    }

    /// A step comes to something that cannot be run.
    pub open spec fn step_stalls(self) -> bool {
        self.enabled && (!self.observed().can_run() || self.observed().ran().hurry_stalls(
            EXTRA_CYCLES as nat,
        ))
    }

    /// What a step reports.
    pub open spec fn step_events(self) -> Seq<DriveEvent> {
        if self.enabled {
            let o = self.observed();
            self.trace.events(o.cpu.regs.pc, o.cycle_count, o.bus)
        } else {
            seq![]
        }
    }

    /// After a reset: both VIAs, then the processor, which goes where the vector in the ROM says.
    pub open spec fn after_reset(self) -> DriveView {
        let bus = BusView {
            via1: self.bus.via1.after_reset(),
            via2: self.bus.via2.after_reset(),
            ..self.bus
        };
        DriveView {
            cpu: self.cpu.after_reset(word(self.bus.rom[0x3FFD], self.bus.rom[0x3FFC])),
            bus,
            cycle_count: 0,
            ..self
        }
    }
}

impl View for Drive1541 {
    type V = DriveView;

    closed spec fn view(&self) -> DriveView {
        DriveView {
            cpu: self.cpu,
            bus: self.bus@,
            enabled: self.enabled,
            cycle_count: self.cycle_count,
            trace: self.trace,
        }
    }
}

/// A drive that is switched off and has no ROM.
pub open spec fn no_drive() -> DriveView {
    DriveView {
        cpu: fresh_cpu(),
        bus: fresh_bus(),
        enabled: false,
        cycle_count: 0,
        trace: fresh_trace(),
    }
}

impl Drive1541 {
    /// A drive that is switched off and has no ROM.
    pub fn disabled() -> (r: Self)
        ensures
            r@ == no_drive(),
            r@.wf(),
    {
        Drive1541 {
            cpu: Cpu::new(),
            bus: DriveBus::new(),
            enabled: false,
            cycle_count: 0,
            trace: DriveTrace::new(),
        }
    }

    /// A drive with a ROM. It is switched on and reset if the ROM has the right size, and switched
    /// off with an error if it has not.
    pub fn new(rom: &[u8]) -> (r: (Self, Result<(), String>))
        ensures
            r.0@.wf(),
            match r.1 {
                Ok(_) => rom@.len() == ROM_SIZE && r.0@ == (DriveView {
                    bus: BusView { rom: rom@, rom_loaded: true, ..fresh_bus() },
                    enabled: true,
                    ..no_drive()
                }).after_reset(),
                Err(e) => rom@.len() != ROM_SIZE && e@ == rom_size_text(rom@.len()) && r.0@
                    == no_drive(),
            },
    {
        let mut drive = Drive1541::disabled();
        match drive.bus.load_rom(rom) {
            Ok(_) => {
                drive.enabled = true;
                drive.reset();
                (drive, Ok(()))
            },
            Err(e) => (drive, Err(e)),
        }
    }

    /// The drive is switched on.
    pub fn enabled(&self) -> (r: bool)
        ensures
            r == self@.enabled,
    {
        self.enabled
    }

    /// Cycles since the last reset.
    pub fn cycle_count(&self) -> (r: u64)
        ensures
            r == self@.cycle_count,
    {
        self.cycle_count
    }

    /// Cycles that the drive has waited for CLK so far.
    pub fn clk_wait_cycles(&self) -> (r: u32)
        ensures
            r == self@.trace.e87b.cycles,
    {
        self.trace.e87b.cycles
    }

    /// What the drive's processor sees.
    pub fn bus(&self) -> (r: &DriveBus)
        ensures
            r@ == self@.bus,
    {
        &self.bus
    }

    /// The serial bus as it is, if one is attached.
    pub fn iec(&self) -> (r: Option<IecBus>)
        ensures
            r == self@.bus.via1.iec,
    {
        self.bus.via1().iec_opt()
    }

    /// Attaches the serial bus, or puts it into another state.
    pub fn set_iec(&mut self, iec: IecBus)
        ensures
            final(self)@ == (DriveView { bus: old(self)@.bus.with_iec(iec), ..old(self)@ }),
            old(self)@.wf() ==> final(self)@.wf(),
    {
        self.bus.set_iec(iec);
    }

    /// Switches the trace of the VIAs.
    pub fn set_trace(&mut self, on: bool)
        ensures
            final(self)@ == (DriveView { bus: old(self)@.bus.traced(on), ..old(self)@ }),
            old(self)@.wf() ==> final(self)@.wf(),
    {
        self.bus.set_trace(on);
    }

    /// Hands out what the VIAs noted of writes to their port B, that on the serial bus first.
    pub fn take_orb_log(&mut self) -> (log: (Vec<OrbWrite>, Vec<OrbWrite>))
        ensures
            log.0@ == old(self)@.bus.via1.orb_log,
            log.1@ == old(self)@.bus.via2.orb_log,
            final(self)@ == (DriveView { bus: old(self)@.bus.log_taken(), ..old(self)@ }),
            old(self)@.wf() ==> final(self)@.wf(),
    {
        self.bus.take_orb_log()
    }

    /// Puts a disk in.
    pub fn mount_d64(&mut self, image: D64)
        ensures
            final(self)@ == (DriveView { bus: old(self)@.bus.mounted(image@), ..old(self)@ }),
            old(self)@.wf() ==> final(self)@.wf(),
    {
        self.bus.mount(image);
    }

    /// Resets the drive.
    pub fn reset(&mut self)
        ensures
            final(self)@ == old(self)@.after_reset(),
            old(self)@.wf() ==> final(self)@.wf(),
    {
        self.bus.reset_chips();
        self.cpu.reset(&mut self.bus);
        self.cycle_count = 0;
    }

    /// Where the drive's processor is.
    pub fn pc(&self) -> (r: u16)
        ensures
            r == self@.cpu.regs.pc,
    {
        self.cpu.regs.pc
    }

    /// Lets a cycle pass around the processor.
    fn prepare(&mut self)
        requires
            old(self)@.wf(),
        ensures
            final(self)@ == old(self)@.prepared(),
            final(self)@.wf(),
    {
        if self.bus.rotate_disk() {
            self.cpu.regs.status = self.cpu.regs.status | FLAG_V;
        }
        self.bus.tick();
    }

    /// Passes an interrupt of the VIAs on.
    fn signal(&mut self)
        ensures
            final(self)@ == old(self)@.signalled(),
    {
        let pc: u16 = self.cpu.regs.pc;
        if self.bus.irq_asserted() && !(0xE9C0 <= pc && pc <= 0xE9C8) {
            self.cpu.irq_pending = true;
        }
    }

    /// Runs a cycle of the processor.
    fn run_cycle(&mut self)
        requires
            old(self)@.wf(),
            old(self)@.can_run(),
        ensures
            final(self)@ == old(self)@.ran(),
            final(self)@.wf(),
    {
        self.cpu.cycle(&mut self.bus);
        self.cycle_count = self.cycle_count.wrapping_add(1);
    }

    /// Runs more cycles as long as the processor is busy with the disk; tells whether one could
    /// not be run.
    fn hurry(&mut self) -> (stalled: bool)
        requires
            old(self)@.wf(),
        ensures
            final(self)@ == old(self)@.hurried(EXTRA_CYCLES as nat),
            stalled == old(self)@.hurry_stalls(EXTRA_CYCLES as nat),
            final(self)@.wf(),
    {
        let mut left: u32 = EXTRA_CYCLES;
        while left > 0
            invariant
                self@.wf(),
                left <= EXTRA_CYCLES,
                old(self)@.hurried(EXTRA_CYCLES as nat) == self@.hurried(left as nat),
                old(self)@.hurry_stalls(EXTRA_CYCLES as nat) == self@.hurry_stalls(left as nat),
            decreases left,
        {
            if self.cpu.regs.pc < 0xF000 {
                return false;
            }
            self.prepare();
            self.signal();
            if !self.cpu.check_run(&self.bus) {
                return true;
            }
            self.run_cycle();
            left = left - 1;
        }
        false
    }

    /// Lets the drive run for one cycle of the computer. While its processor is busy with the disk
    /// it runs faster, by up to `EXTRA_CYCLES` cycles.
    pub fn step(&mut self) -> (r: StepReport)
        requires
            old(self)@.wf(),
            old(self)@.trace.e87b.cycles < u32::MAX,
        ensures
            final(self)@ == old(self)@.stepped(),
            final(self)@.wf(),
            r.tells(old(self)@),
    {
        if !self.enabled {
            return StepReport { events: Vec::new(), scene: None, stalled: false };
        }
        self.prepare();
        let pc: u16 = self.cpu.regs.pc;
        self.bus.set_trace_pc(pc);
        self.signal();
        let events = self.trace.observe(pc, self.cycle_count, &self.bus);
        let scene = if events.len() > 0 {
            Some(Scene::of(pc, self.cycle_count, &self.bus))
        } else {
            None
        };
        if !self.cpu.check_run(&self.bus) {
            return StepReport { events, scene, stalled: true };
        }
        self.run_cycle();
        let stalled = self.hurry();
        StepReport { events, scene, stalled }
    }
}

/// What happens around the processor keeps what the processor cannot change.
proof fn lemma_readied(d: DriveView)
    requires
        d.wf(),
    ensures
        d.readied().wf(),
        kept_by_processor(d.bus, d.readied().bus),
        d.observed().wf(),
        kept_by_processor(d.bus, d.observed().bus),
{
    reveal(ViaView::ticked);
    crate::via::computer_lines_are_kept(d.bus.via1, 0, 0, 1);
    crate::via::computer_lines_are_kept(d.bus.disk_turned().via2, 0, 0, 1);
    crate::via::via_keeps_time(d.bus.via1, 1);
    crate::disk::turning_keeps_the_disk(d.bus.via2.disk->Some_0);
    crate::via::via_keeps_time(d.bus.disk_turned().via2, 1);
}

/// More cycles keep what the processor cannot change.
#[verifier::spinoff_prover]
#[verifier::rlimit(40)]
proof fn lemma_hurried(d: DriveView, n: nat)
    requires
        d.wf(),
    ensures
        d.hurried(n).wf(),
        kept_by_processor(d.bus, d.hurried(n).bus),
        d.hurried(n).enabled == d.enabled,
        d.hurried(n).trace == d.trace,
        d.hurried_cycles(n) <= n,
        d.hurried(n).cycle_count == (d.cycle_count + d.hurried_cycles(n)) % 0x1_0000_0000_0000_0000,
    decreases n,
{
    lemma_readied(d);
    if n > 0 && in_disk_code(d.cpu.regs.pc) && d.readied().can_run() {
        let r = d.readied();
        processor_keeps(r.bus, r.cpu.cycle_accesses(r.bus));
        lemma_hurried(r.ran(), (n - 1) as nat);
    }
}

/// However the drive's program runs, a step changes neither its ROM nor the image in it, nor what
/// the computer does on the serial bus, and it never leaves the state that a drive can be in.
pub proof fn step_keeps(d: DriveView)
    requires
        d.wf(),
    ensures
        d.stepped().wf(),
        d.stepped().enabled == d.enabled,
        kept_by_processor(d.bus, d.stepped().bus),
{
    lemma_readied(d);
    let o = d.observed();
    processor_keeps(o.bus, o.cpu.cycle_accesses(o.bus));
    lemma_hurried(o.ran(), EXTRA_CYCLES as nat);
}

/// A step that is not stopped runs at least one cycle and at most one more than `EXTRA_CYCLES`,
/// and the counter goes on by just as many.
pub proof fn step_counts_its_cycles(d: DriveView)
    requires
        d.wf(),
    ensures
        d.stepped().cycle_count == (d.cycle_count + d.step_cycles()) % 0x1_0000_0000_0000_0000,
        d.step_cycles() <= 1 + EXTRA_CYCLES,
        d.enabled && !d.step_stalls() ==> d.step_cycles() >= 1,
{
    lemma_readied(d);
    let o = d.observed();
    processor_keeps(o.bus, o.cpu.cycle_accesses(o.bus));
    lemma_hurried(o.ran(), EXTRA_CYCLES as nat);
}

/// Outside the part of the ROM that deals with the disk the drive runs cycle for cycle with the
/// computer.
pub proof fn serial_code_runs_in_lockstep(d: DriveView)
    requires
        d.enabled,
        d.observed().can_run(),
        !in_disk_code(d.observed().ran().cpu.regs.pc),
    ensures
        d.stepped() == d.observed().ran(),
        d.step_cycles() == 1,
{
}

/// A drive that is switched off does nothing and reports nothing.
pub proof fn switched_off_drive_stands_still(d: DriveView)
    requires
        !d.enabled,
    ensures
        d.stepped() == d,
        d.step_events() == Seq::<DriveEvent>::empty(),
        !d.step_stalls(),
{
}

/// While the port is read twice no interrupt reaches the processor; elsewhere one that a VIA asks
/// for always does.
pub proof fn interrupts_wait_for_the_port(d: DriveView)
    ensures
        in_debounce(d.cpu.regs.pc) ==> d.signalled() == d,
        !in_debounce(d.cpu.regs.pc) && d.bus.irq() ==> d.signalled().cpu.irq_pending,
{
}

/// A byte that comes ready under the head sets the overflow flag of the processor in that cycle.
pub proof fn byte_ready_sets_overflow(d: DriveView)
    requires
        d.bus.disk_turned().byte_ready(),
    ensures
        d.prepared().cpu.regs.status & FLAG_V == FLAG_V,
{
    let p = d.cpu.regs.status;
    assert((p | 0x40u8) & 0x40 == 0x40) by (bit_vector);
}

/// A drive that is reset twice is as if reset once.
pub proof fn reset_is_idempotent(d: DriveView)
    ensures
        d.after_reset().after_reset() == d.after_reset(),
{
    assert(d.after_reset().bus.via1.after_reset().regs =~= d.after_reset().bus.via1.regs);
    assert(d.after_reset().bus.via2.after_reset().regs =~= d.after_reset().bus.via2.regs);
}

/// What the processor finds on its bus in a cycle: the disk has turned by one cycle, and both VIAs
/// have counted one. In the first cycle of a step their trace is told where the processor is.
pub open spec fn bus_in_cycle(d: DriveView, first: bool) -> BusView {
    let pc = d.cpu.regs.pc;
    let turned = d.bus.via2.disk->Some_0.rotated(1);
    let one = d.bus.via1.ticked(1);
    let two = ViaView { disk: Some(turned), ..d.bus.via2 }.ticked(1);
    BusView {
        via1: ViaView {
            trace_pc: if first {
                pc
            } else {
                one.trace_pc
            },
            ..one
        },
        via2: ViaView {
            trace_pc: if first {
                pc
            } else {
                two.trace_pc
            },
            ..two
        },
        ..d.bus
    }
}

/// The processor in a cycle: a byte that has come sets its overflow flag, and an interrupt of either
/// VIA waits for it, but for one in the routine that reads the port twice.
pub open spec fn cpu_in_cycle(d: DriveView, first: bool) -> Cpu {
    let pc = d.cpu.regs.pc;
    let bus = bus_in_cycle(d, first);
    Cpu {
        regs: Registers {
            status: if d.bus.via2.disk->Some_0.rotated(1).byte_ready {
                d.cpu.regs.status | 0x40
            } else {
                d.cpu.regs.status
            },
            ..d.cpu.regs
        },
        irq_pending: d.cpu.irq_pending || ((bus.via1.irq_pending || bus.via2.irq_pending) && !(0xE9C0
            <= pc <= 0xE9C8)),
        ..d.cpu
    }
}

/// One cycle takes the drive from `a` to `b`: time passes for disk and VIAs, the processor runs a
/// cycle on what it then finds, and the cycle is counted.
pub open spec fn is_one_cycle(a: DriveView, b: DriveView, first: bool) -> bool {
    let (cpu, bus) = (cpu_in_cycle(a, first), bus_in_cycle(a, first));
    &&& cpu.can_run(bus)
    &&& b.cpu == cpu.after_cycle(bus)
    &&& b.bus == bus.run(cpu.cycle_accesses(bus))
    &&& b.cycle_count == (a.cycle_count + 1) % 0x1_0000_0000_0000_0000
    &&& b.enabled == a.enabled
}

/// The states of a drive in a step, cycle by cycle. There is one cycle; as long as the processor is
/// then busy with the disk, there are more, up to 512.
pub open spec fn is_step(d: DriveView, s: Seq<DriveView>) -> bool {
    let cycles = s.len() - 1;
    &&& 1 <= cycles <= 513
    &&& s[0] == d
    &&& forall|i: int|
        0 <= i < cycles ==> is_one_cycle(#[trigger] s[i], s[i + 1], i == 0)
    &&& forall|i: int| 1 <= i < cycles ==> (#[trigger] s[i]).cpu.regs.pc >= 0xF000
    &&& cycles < 513 ==> s[cycles].cpu.regs.pc < 0xF000
}

/// The states of the further cycles of a step.
spec fn hurried_states(d: DriveView, n: nat) -> Seq<DriveView>
    decreases n,
{
    if n == 0 || !in_disk_code(d.cpu.regs.pc) || !d.readied().can_run() {
        seq![d]
    } else {
        seq![d] + hurried_states(d.readied().ran(), (n - 1) as nat)
    }
}

/// What the processor finds in a further cycle of a step.
#[verifier::spinoff_prover]
#[verifier::rlimit(40)]
proof fn lemma_readied_in_cycle(d: DriveView)
    requires
        d.wf(),
    ensures
        d.readied().bus == bus_in_cycle(d, false),
        d.readied().cpu == cpu_in_cycle(d, false),
        d.readied().cycle_count == d.cycle_count,
        d.readied().enabled == d.enabled,
{
    let p = d.prepared();
    let b = bus_in_cycle(d, false);
    assert(p.bus.via1 == b.via1);
    assert(p.bus.via2 == b.via2);
    assert(p.bus == b);
}

/// What the processor finds in the first cycle of a step.
#[verifier::spinoff_prover]
#[verifier::rlimit(40)]
proof fn lemma_observed_in_cycle(d: DriveView)
    requires
        d.wf(),
    ensures
        d.observed().bus == bus_in_cycle(d, true),
        d.observed().cpu == cpu_in_cycle(d, true),
        d.observed().cycle_count == d.cycle_count,
        d.observed().enabled == d.enabled,
{
    let p = d.prepared();
    let t = p.bus.traced_at(p.cpu.regs.pc);
    let b = bus_in_cycle(d, true);
    assert(t.via1 == b.via1);
    assert(t.via2 == b.via2);
    assert(t == b);
}

/// A further cycle of a step is a cycle.
#[verifier::spinoff_prover]
#[verifier::rlimit(40)]
proof fn lemma_further_cycle(d: DriveView)
    requires
        d.wf(),
        d.readied().can_run(),
    ensures
        is_one_cycle(d, d.readied().ran(), false),
        d.readied().ran().wf(),
{
    lemma_readied(d);
    lemma_readied_in_cycle(d);
    let r = d.readied();
    processor_keeps(r.bus, r.cpu.cycle_accesses(r.bus));
}

/// The first cycle of a step is a cycle.
#[verifier::spinoff_prover]
#[verifier::rlimit(40)]
proof fn lemma_first_cycle(d: DriveView)
    requires
        d.wf(),
        d.observed().can_run(),
    ensures
        is_one_cycle(d, d.observed().ran(), true),
        d.observed().ran().wf(),
{
    lemma_readied(d);
    lemma_observed_in_cycle(d);
    let o = d.observed();
    processor_keeps(o.bus, o.cpu.cycle_accesses(o.bus));
}

/// The further cycles of a step, one by one.
proof fn lemma_hurried_states(d: DriveView, n: nat)
    requires
        d.wf(),
        !d.hurry_stalls(n),
    ensures
        ({
            let s = hurried_states(d, n);
            let cycles = s.len() - 1;
            &&& s.len() > 0
            &&& cycles == d.hurried_cycles(n)
            &&& cycles <= n
            &&& s[0] == d
            &&& s[cycles] == d.hurried(n)
            &&& forall|i: int|
                0 <= i < cycles ==> is_one_cycle(#[trigger] s[i], s[i + 1], false)
            &&& forall|i: int| 0 <= i < cycles ==> (#[trigger] s[i]).cpu.regs.pc >= 0xF000
            &&& cycles < n ==> s[cycles].cpu.regs.pc < 0xF000
        }),
    decreases n,
{
    if n > 0 && in_disk_code(d.cpu.regs.pc) {
        lemma_further_cycle(d);
        let next = d.readied().ran();
        lemma_hurried_states(next, (n - 1) as nat);
        let rest = hurried_states(next, (n - 1) as nat);
        let s = hurried_states(d, n);
        assert forall|i: int| 0 <= i < s.len() - 1 implies is_one_cycle(
            #[trigger] s[i],
            s[i + 1],
            false,
        ) && s[i].cpu.regs.pc >= 0xF000 by {
            if i > 0 {
                assert(s[i] == rest[i - 1] && s[i + 1] == rest[i - 1 + 1]);
            }
        }
        assert(s[s.len() - 1] == rest[rest.len() - 1]);
    }
}

/// A step that is not stopped is made of whole cycles, each of them alike: in every cycle of the
/// processor, the extra ones of a busy drive among them, the disk turns by a cycle and both VIAs
/// count one. The counter goes on by as many as there are.
pub proof fn step_is_made_of_whole_cycles(d: DriveView)
    requires
        d.wf(),
        d.enabled,
        !d.step_stalls(),
    ensures
        exists|s: Seq<DriveView>|
            #[trigger] is_step(d, s) && s.len() == d.step_cycles() + 1 && s[s.len() - 1].cpu
                == d.stepped().cpu && s[s.len() - 1].bus == d.stepped().bus && s[s.len()
                - 1].cycle_count == d.stepped().cycle_count,
{
    lemma_first_cycle(d);
    let first = d.observed().ran();
    lemma_hurried_states(first, EXTRA_CYCLES as nat);
    let rest = hurried_states(first, EXTRA_CYCLES as nat);
    let s = seq![d] + rest;
    assert forall|i: int| 0 <= i < s.len() - 1 implies is_one_cycle(
        #[trigger] s[i],
        s[i + 1],
        i == 0,
    ) by {
        if i > 0 {
            assert(s[i] == rest[i - 1] && s[i + 1] == rest[i - 1 + 1]);
        }
    }
    assert forall|i: int| 1 <= i < s.len() - 1 implies (#[trigger] s[i]).cpu.regs.pc >= 0xF000 by {
        assert(s[i] == rest[i - 1]);
    }
    assert(s[s.len() - 1] == rest[rest.len() - 1]);
    assert(is_step(d, s));
}

/// The processor's accesses all go past both VIAs.
pub open spec fn go_past_the_vias(accesses: Seq<BusAccess>) -> bool {
    forall|k: int|
        0 <= k < accesses.len() ==> match #[trigger] accesses[k] {
            BusAccess::Read { addr } => addr < 0x1800 || addr >= 0x2000,
            BusAccess::Write { addr, val } => addr < 0x1800 || addr >= 0x2000,
        }
}

/// In no cycle of a step does the processor reach for a VIA.
pub open spec fn leaves_the_vias_alone(s: Seq<DriveView>) -> bool {
    forall|i: int|
        0 <= i < s.len() - 1 ==> go_past_the_vias(
            cpu_in_cycle(#[trigger] s[i], i == 0).cycle_accesses(bus_in_cycle(s[i], i == 0)),
        )
}

/// Accesses that go past the VIAs leave them as they are.
proof fn lemma_vias_alone(b: BusView, accesses: Seq<BusAccess>)
    requires
        go_past_the_vias(accesses),
    ensures
        b.run(accesses).via1 == b.via1,
        b.run(accesses).via2 == b.via2,
    decreases accesses.len(),
{
    if accesses.len() > 0 {
        let first = accesses[0];
        let rest = accesses.drop_first();
        assert(go_past_the_vias(rest)) by {
            assert forall|k: int| 0 <= k < rest.len() implies #[trigger] rest[k] == accesses[k + 1] by {}
        }
        lemma_vias_alone(b.accessed(first), rest);
    }
}

/// What has become of disk and timers after `i` cycles in which the processor left the VIAs alone.
pub open spec fn time_has_passed(from: BusView, to: BusView, i: int) -> bool {
    let (d, e) = (from.via2.disk->Some_0, to.via2.disk->Some_0);
    &&& e == (DiskView { byte_ready: e.byte_ready, ..d.rotated(i) })
    &&& from.via1.t1_running && i <= from.via1.t1_counter ==> to.via1.t1_running
        && to.via1.t1_counter == from.via1.t1_counter - i
    &&& from.via1.t2_running && i <= from.via1.t2_counter ==> to.via1.t2_running
        && to.via1.t2_counter == from.via1.t2_counter - i
    &&& from.via2.t1_running && i <= from.via2.t1_counter ==> to.via2.t1_running
        && to.via2.t1_counter == from.via2.t1_counter - i
    &&& from.via2.t2_running && i <= from.via2.t2_counter ==> to.via2.t2_running
        && to.via2.t2_counter == from.via2.t2_counter - i
}

/// One cycle of it.
proof fn lemma_time_passes(from: BusView, a: DriveView, b: DriveView, i: int, first: bool)
    requires
        from.wf(),
        a.wf(),
        0 <= i,
        i == 0 ==> a.bus == from,
        i > 0 ==> time_has_passed(from, a.bus, i),
        is_one_cycle(a, b, first),
        go_past_the_vias(cpu_in_cycle(a, first).cycle_accesses(bus_in_cycle(a, first))),
    ensures
        b.wf(),
        time_has_passed(from, b.bus, i + 1),
{
    let bus = bus_in_cycle(a, first);
    let accesses = cpu_in_cycle(a, first).cycle_accesses(bus);
    lemma_vias_alone(bus, accesses);
    let (d, e) = (from.via2.disk->Some_0, a.bus.via2.disk->Some_0);
    rotation_adds_up(d, i, 1);
    crate::disk::turning_keeps_the_disk(e);
    let turned = ViaView { disk: Some(e.rotated(1)), ..a.bus.via2 };
    timers_count_cycle_by_cycle(a.bus.via1, 0);
    timers_count_cycle_by_cycle(turned, 0);
    crate::via::flags_are_raised_when_due(turned);
    crate::via::flags_are_raised_when_due(a.bus.via1);
    via_keeps_time(a.bus.via1, 1);
    via_keeps_time(turned, 1);
    assert(bus.wf());
    processor_keeps(bus, accesses);
    if i > 0 {
        let mid = d.rotated(i);
        assert(e == (DiskView { byte_ready: e.byte_ready, ..mid }));
        let (p, q) = (mid.rotated(1), e.rotated(1));
        assert(q == (DiskView { byte_ready: q.byte_ready, ..p }));
    }
}

/// Disk and VIAs keep time with the processor: over a step in which the processor leaves the VIAs
/// alone, the disk turns by exactly as many cycles as the step runs, and every timer that does not
/// run out counts down by exactly as many.
pub proof fn disk_and_vias_keep_time(d: DriveView, s: Seq<DriveView>, i: int)
    requires
        d.wf(),
        is_step(d, s),
        leaves_the_vias_alone(s),
        1 <= i < s.len(),
    ensures
        s[i].wf(),
        time_has_passed(d.bus, s[i].bus, i),
    decreases i,
{
    if i > 1 {
        disk_and_vias_keep_time(d, s, i - 1);
    }
    assert(is_one_cycle(s[i - 1], s[i - 1 + 1], i - 1 == 0));
    lemma_time_passes(d.bus, s[i - 1], s[i], i - 1, i - 1 == 0);
}

/// A step is stopped only where the processor cannot go on.
pub proof fn stopped_drive_cannot_go_on(d: DriveView)
    ensures
        d.step_stalls() ==> d.enabled && !d.stepped().can_run(),
{
    lemma_hurry_stopped(d.observed().ran(), EXTRA_CYCLES as nat);
}

proof fn lemma_hurry_stopped(d: DriveView, n: nat)
    ensures
        d.hurry_stalls(n) ==> !d.hurried(n).can_run(),
    decreases n,
{
    if n > 0 {
        lemma_hurry_stopped(d.readied().ran(), (n - 1) as nat);
    }
}

/// A reset sends the processor where the two bytes at `$FFFC` say and starts the count of cycles
/// again; ROM, RAM and the disk stay.
pub proof fn reset_starts_from_the_vector(d: DriveView)
    requires
        d.wf(),
    ensures
        d.after_reset().cpu.regs.pc == d.bus.rom[0x3FFC] + 256 * d.bus.rom[0x3FFD],
        d.after_reset().cycle_count == 0,
        d.after_reset().bus.rom == d.bus.rom,
        d.after_reset().bus.ram == d.bus.ram,
        d.after_reset().bus.via2.disk == d.bus.via2.disk,
        d.after_reset().bus.via1 == d.bus.via1.after_reset(),
        d.after_reset().bus.via2 == d.bus.via2.after_reset(),
        d.after_reset().enabled == d.enabled,
{
    crate::via::word_is_both_bytes(d.bus.rom[0x3FFD], d.bus.rom[0x3FFC]);
}

/// A step reports what its probes saw before the first cycle of the processor, when disk and VIAs had
/// moved on, and shows the drive as it was then.
pub proof fn step_reports_what_was_seen(d: DriveView, r: StepReport)
    requires
        d.wf(),
        r.tells(d),
    ensures
        !d.enabled ==> r.events@.len() == 0 && !r.stalled,
        d.enabled ==> r.events@ == d.trace.events(
            d.cpu.regs.pc,
            d.cycle_count,
            bus_in_cycle(d, true),
        ),
        r.scene is Some <==> r.events@.len() > 0,
        r.scene matches Some(scene) ==> {
            let b = bus_in_cycle(d, true);
            &&& scene.pc == d.cpu.regs.pc && scene.cycle == d.cycle_count
            &&& scene.irq == (b.via1.irq_pending || b.via2.irq_pending)
            &&& scene.ifr1 == b.via1.regs[0xD] && scene.ier1 == b.via1.regs[0xE]
            &&& scene.ifr2 == b.via2.regs[0xD] && scene.ier2 == b.via2.regs[0xE]
            &&& scene.iec == b.via1.iec && scene.ram@ == d.bus.ram
        },
        d.enabled ==> d.stepped().trace == d.trace.after(
            d.cpu.regs.pc,
            d.cycle_count,
            bus_in_cycle(d, true),
        ),
{
    lemma_observed_in_cycle(d);
    lemma_readied(d);
    let o = d.observed();
    processor_keeps(o.bus, o.cpu.cycle_accesses(o.bus));
    lemma_hurried(o.ran(), EXTRA_CYCLES as nat);
}

} // verus!
