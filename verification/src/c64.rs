//! The computer's side: when programs are loaded, when the drive runs, and what its answers on the
//! serial bus do to the computer.
//!
//! Processor, memory and the other chips are outside; what is decided here goes by what they hold,
//! and what is to be done to them is handed out.
use vstd::prelude::*;

use crate::bus::{fresh_bus, kept_by_processor, rom_size_text, BusView, ROM_SIZE};
use crate::c64_trace::{
    bit, bit_of, fresh_probes, in_fast_loader, C64Event, C64Probes, C64Sample, ProbesView, Setting,
};
use crate::d64::D64;
use crate::drive::{no_drive, step_keeps, Drive1541, DriveView, StepReport};
use crate::iec::{idle_bus, IecBus};
use crate::loader::{
    answer_load, load_keys, load_outcome, poked, program_fits, program_pokes, store_program, type_load,
    typed, LoadCall, LoadOutcome, LoadView, Poke, LOAD_ROUTINE,
};
use crate::lookup::load_address_of;
use crate::probe::Tally;
use crate::via::OrbWrite;

verus! {

/// Width of the screen, borders included.
pub const SCREEN_WIDTH: usize = 384;

/// Height of the screen, borders included.
pub const SCREEN_HEIGHT: usize = 272;

/// The routine that starts the computer.
pub const POWER_ON: u16 = 0xFCE2;

/// The routine in which BASIC waits for input.
pub const WARM_START: u16 = 0xA480;

/// The bit of CIA 1 for its FLAG line.
pub const CIA_FLAG: u8 = 0x10;

/// Cycles between two reports of where the drive is.
pub const DRIVE_BEAT: u32 = 50_000;

/// Where a pass of the computer is.
#[derive(Clone, Copy, Debug, PartialEq, Eq, Structural)]
pub enum Phase {
    /// At its start.
    Start,
    /// LOAD has been entered and waits for its answer.
    Load,
    /// What comes next depends on the clock.
    Clock,
    /// The cycle has run, and the probes are to look.
    Watch,
    /// The cycle is to be ended.
    End,
}

/// What has happened outside.
pub enum HostEvent {
    /// A pass begins.
    Pass {
        pc: u16,
        at_fetch: bool,
    },
    /// What LOAD was called with.
    Called {
        call: LoadCall,
        name: Vec<u8>,
    },
    /// It was time for a cycle, and the chips have run theirs. ATN, CLK and DATA are as the
    /// computer pulls them.
    Ticked {
        lines: (bool, bool, bool),
        ba_low: bool,
        pc: u16,
    },
    /// It was not yet time for a cycle.
    Waited,
    /// What the probes look at.
    Seen {
        sample: C64Sample,
    },
    /// Screen and keys have been looked after.
    Ended,
}

impl HostEvent {
    /// The place of a pass at which it can happen.
    pub open spec fn turn(self) -> Phase {
        match self {
            HostEvent::Pass { .. } => Phase::Start,
            HostEvent::Called { .. } => Phase::Load,
            HostEvent::Ticked { .. } => Phase::Clock,
            HostEvent::Waited => Phase::Clock,
            HostEvent::Seen { .. } => Phase::Watch,
            HostEvent::Ended => Phase::End,
        }
    }
}

/// What is to be done outside.
pub enum HostAction {
    /// What the start of the computer asks for; then LOAD is to be read off, or the clock is to be
    /// looked at.
    Booted {
        boot: BootActions,
        load: bool,
    },
    /// The answer to LOAD.
    Answered {
        outcome: LoadOutcome,
    },
    /// What the drive's side of the cycle has come to.
    Ran {
        actions: RunActions,
    },
    /// What the probes tell.
    Reported {
        events: Vec<C64Event>,
    },
    /// Nothing more.
    Done,
    /// It is not the turn of what has happened; nothing has changed.
    OutOfTurn,
}

/// A computer.
pub struct C64 {
    phase: Phase,
    file_to_load: String,
    crt_to_load: String,
    powered_on: bool,
    boot_complete: bool,
    cycle_count: u32,
    disk_image: Option<D64>,
    load_trap_armed: bool,
    auto_run: bool,
    autoload: bool,
    autoload_done: bool,
    truedrive: bool,
    drive: Drive1541,
    tracedrive: bool,
    prev_trace_state: u8,
    trace_pc_counter: u32,
    fastload_seen: bool,
    prev_iec_data_low: bool,
    cia1_flag: Tally,
    late_cia1_flag: Tally,
    probes: C64Probes,
}

/// What a computer is.
pub struct C64View {
    pub file_to_load: Seq<char>,
    pub crt_to_load: Seq<char>,
    pub powered_on: bool,
    pub boot_complete: bool,
    pub cycle_count: u32,
    pub disk_image: Option<Seq<u8>>,
    pub load_trap_armed: bool,
    pub auto_run: bool,
    pub autoload: bool,
    pub autoload_done: bool,
    pub truedrive: bool,
    pub drive: DriveView,
    pub tracedrive: bool,
    pub prev_trace_state: u8,
    pub trace_pc_counter: u32,
    pub fastload_seen: bool,
    pub prev_iec_data_low: bool,
    pub cia1_flag: Tally,
    pub late_cia1_flag: Tally,
    pub probes: ProbesView,
}

impl View for C64 {
    type V = C64View;

    closed spec fn view(&self) -> C64View {
        C64View {
            file_to_load: self.file_to_load@,
            crt_to_load: self.crt_to_load@,
            powered_on: self.powered_on,
            boot_complete: self.boot_complete,
            cycle_count: self.cycle_count,
            disk_image: match self.disk_image {
                Some(d) => Some(d@),
                None => None,
            },
            load_trap_armed: self.load_trap_armed,
            auto_run: self.auto_run,
            autoload: self.autoload,
            autoload_done: self.autoload_done,
            truedrive: self.truedrive,
            drive: self.drive@,
            tracedrive: self.tracedrive,
            prev_trace_state: self.prev_trace_state,
            trace_pc_counter: self.trace_pc_counter,
            fastload_seen: self.fastload_seen,
            prev_iec_data_low: self.prev_iec_data_low,
            cia1_flag: self.cia1_flag,
            late_cia1_flag: self.late_cia1_flag,
            probes: self.probes@,
        }
    }
}

/// What is to be done while the computer starts.
pub struct BootActions {
    /// The cartridge is to be plugged in.
    pub cartridge: bool,
    /// The program is to be loaded.
    pub program: bool,
    /// Then this is to be stored.
    pub keys: Vec<Poke>,
}

impl BootActions {
    /// It is what the start of a computer asks for.
    pub open spec fn tells(self, c: C64View, pc: u16) -> bool {
        &&& self.cartridge == (c.starts(pc) && c.crt_to_load.len() > 0)
        &&& self.program == (c.becomes_ready(pc) && c.file_to_load.len() > 0)
        &&& self.keys@ == (if c.types_load(pc) {
            typed(load_keys())
        } else {
            Seq::empty()
        })
    }
}

/// What a cycle of the drive has come to.
pub struct DriveCycle {
    /// What the drive reports, if it ran.
    pub step: Option<StepReport>,
    /// DATA has gone low: CIA 1 is to be told.
    pub flag: bool,
    /// That is worth a line in the trace.
    pub flag_told: bool,
    /// That is worth a line in the trace of the later part of a run.
    pub late_flag_told: bool,
    /// The lines of the serial bus have changed, which is worth a line.
    pub lines_told: bool,
    /// It is time to tell where the drive is.
    pub beat: bool,
}

impl DriveCycle {
    /// It is what comes of a cycle of the drive in a computer.
    #[verifier::opaque]
    pub open spec fn tells(self, c: C64View, ba_low: bool, pc: u16) -> bool {
        let runs = c.drive_runs(ba_low, pc);
        let s = c.drive_stepped();
        let f = s.flag_seen();
        &&& self.step is Some == runs
        &&& self.step matches Some(report) ==> report.tells(c.drive)
        &&& self.flag == (runs && s.flag_due())
        &&& self.flag_told == (runs && s.cia1_flag.reports(20, s.flag_due()))
        &&& self.late_flag_told == (runs && s.late_cia1_flag.reports(
            30,
            s.flag_due() && s.late(),
        ))
        &&& self.lines_told == (runs && f.lines_due())
        &&& self.beat == (runs && f.beat_due())
    }
}

/// What the drive's side of a cycle has come to.
pub struct RunActions {
    /// What the drive did.
    pub drive: DriveCycle,
    /// What is to be stored, where the fast loader has been entered.
    pub vector: Option<[Poke; 2]>,
}

impl RunActions {
    /// It is what comes of the drive's side of a cycle in a computer.
    #[verifier::opaque]
    pub open spec fn tells(
        self,
        c: C64View,
        lines: (bool, bool, bool),
        ba_low: bool,
        pc: u16,
    ) -> bool {
        &&& self.drive.tells(c.lines_pulled(lines.0, lines.1, lines.2), ba_low, pc)
        &&& match self.vector {
            Some(pokes) => c.enters_fast_loader(pc) && pokes@ == vector_pokes(),
            None => !c.enters_fast_loader(pc),
        }
    }
}

impl HostAction {
    /// It is what is to be done when `e` has happened in a pass.
    pub open spec fn tells(self, p: PassView, e: HostEvent) -> bool {
        let c = p.c64;
        if e.turn() != p.at {
            self is OutOfTurn
        } else {
            match e {
                HostEvent::Pass { pc, at_fetch } => {
                    &&& self matches HostAction::Booted { boot, load }
                    &&& boot.tells(c, pc)
                    &&& load == c.load_due(pc, at_fetch)
                },
                HostEvent::Called { call, name } => {
                    &&& self matches HostAction::Answered { outcome }
                    &&& outcome@ == c.load_answer(call, name@)
                },
                HostEvent::Ticked { lines, ba_low, pc } => {
                    &&& self matches HostAction::Ran { actions }
                    &&& actions.tells(c, lines, ba_low, pc)
                },
                HostEvent::Seen { sample } => {
                    &&& self matches HostAction::Reported { events }
                    &&& events@ == c.watch_events(sample)
                },
                HostEvent::Waited => self is Done,
                HostEvent::Ended => self is Done,
            }
        }
    }
}

/// The interrupt vector that the fast loader needs.
pub open spec fn vector_pokes() -> Seq<Poke> {
    seq![Poke { addr: 0xFFFE, val: 0x66 }, Poke { addr: 0xFFFF, val: 0xFE }]
}

/// The KERNAL's routine that receives a bit.
pub open spec fn in_receive_loop(pc: u16) -> bool {
    0xEE56 <= pc <= 0xEE76
}

/// The lines of the serial bus and who pulls them, as one byte.
#[verifier::opaque]
pub open spec fn trace_byte(b: IecBus) -> u8 {
    bit_of(b.atn(), 0x01) | bit_of(b.clk(), 0x02) | bit_of(b.data(), 0x04) | bit_of(
        b.drive_atna,
        0x08,
    ) | bit_of(b.c64_atn, 0x10) | bit_of(b.c64_clk, 0x20) | bit_of(b.c64_data, 0x40) | bit_of(
        b.drive_clk,
        0x80,
    )
}

/// The lines of the serial bus and who pulls them, as one byte.
fn trace_state(b: IecBus) -> (r: u8)
    ensures
        r == trace_byte(b),
{
    proof {
        reveal(trace_byte);
    }
    bit(b.atn_low(), 0x01) | bit(b.clk_low(), 0x02) | bit(b.data_low(), 0x04) | bit(
        b.drive_atna,
        0x08,
    ) | bit(b.c64_atn, 0x10) | bit(b.c64_clk, 0x20) | bit(b.c64_data, 0x40) | bit(
        b.drive_clk,
        0x80,
    )
}

/// The drive's side of a computer that is put together.
pub open spec fn assembled_drive(
    image: Option<Seq<u8>>,
    drive: DriveView,
    truedrive: bool,
    tracedrive: bool,
) -> DriveView {
    if truedrive && drive.enabled {
        let wired = drive.bus.with_iec(idle_bus());
        let traced = if tracedrive {
            wired.traced(true)
        } else {
            wired
        };
        DriveView {
            bus: match image {
                Some(i) => traced.mounted(i),
                None => traced,
            },
            ..drive
        }
    } else {
        drive
    }
}

impl C64View {
    /// The drive is well formed.
    pub open spec fn wf(self) -> bool {
        self.drive.wf()
    }

    /// No count is at its end.
    pub open spec fn counting(self) -> bool {
        self.drive.trace.e87b.cycles < u32::MAX && self.probes.counting()
    }

    /// LOAD is answered from the image, since no drive runs that could answer.
    pub open spec fn traps_load(self) -> bool {
        !(self.truedrive && self.drive.enabled)
    }

    /// LOAD has just been entered, and is to be answered.
    pub open spec fn load_due(self, pc: u16, at_fetch: bool) -> bool {
        self.traps_load() && pc == LOAD_ROUTINE && at_fetch && self.load_trap_armed
            && self.disk_image is Some
    }

    /// After a look whether LOAD has been entered: elsewhere the trap is set again.
    pub open spec fn after_load_watch(self, pc: u16) -> C64View {
        C64View {
            load_trap_armed: self.load_trap_armed || (self.traps_load() && pc != LOAD_ROUTINE),
            ..self
        }
    }

    /// The answer to LOAD.
    #[verifier::opaque]
    pub open spec fn load_answer(self, call: LoadCall, name: Seq<u8>) -> LoadView {
        match self.disk_image {
            Some(image) => load_outcome(image, call, name),
            None => LoadView::Ignored,
        }
    }

    /// After it.
    pub open spec fn after_load(self, call: LoadCall, name: Seq<u8>) -> C64View {
        C64View {
            load_trap_armed: self.load_trap_armed && self.load_answer(call, name) is Ignored,
            ..self
        }
    }

    /// The drive runs in this cycle. It stands still while the video chip takes the bus from a
    /// processor that waits for a bit, which would be over before the processor can see it.
    pub open spec fn drive_runs(self, ba_low: bool, pc: u16) -> bool {
        self.truedrive && !(ba_low && in_receive_loop(pc))
    }

    /// The serial bus.
    pub open spec fn iec(self) -> Option<IecBus> {
        self.drive.bus.via1.iec
    }

    /// With the computer's lines pulled, where there is a bus.
    pub open spec fn lines_pulled(self, atn: bool, clk: bool, data: bool) -> C64View {
        match self.iec() {
            Some(b) => C64View {
                drive: DriveView {
                    bus: self.drive.bus.with_iec(
                        IecBus { c64_atn: atn, c64_clk: clk, c64_data: data, ..b },
                    ),
                    ..self.drive
                },
                ..self
            },
            None => self,
        }
    }

    /// The fast loader is entered for the first time.
    pub open spec fn enters_fast_loader(self, pc: u16) -> bool {
        self.truedrive && !self.fastload_seen && in_fast_loader(pc)
    }

    /// After a look whether it is.
    pub open spec fn fast_loader_seen(self, pc: u16) -> C64View {
        C64View { fastload_seen: self.fastload_seen || self.enters_fast_loader(pc), ..self }
    }

    /// DATA is low.
    pub open spec fn data_low(self) -> bool {
        self.iec() matches Some(b) && b.data()
    }

    /// With the drive a step further.
    pub open spec fn drive_stepped(self) -> C64View {
        C64View { drive: self.drive.stepped(), ..self }
    }

    /// DATA has gone low since the last look.
    pub open spec fn flag_due(self) -> bool {
        self.iec() is Some && self.data_low() && !self.prev_iec_data_low
    }

    /// It is late enough for the second trace of that.
    pub open spec fn late(self) -> bool {
        self.cycle_count > 80_000_000
    }

    /// After a look at DATA.
    pub open spec fn flag_seen(self) -> C64View {
        C64View {
            prev_iec_data_low: if self.iec() is Some {
                self.data_low()
            } else {
                self.prev_iec_data_low
            },
            cia1_flag: self.cia1_flag.after(20, self.flag_due()),
            late_cia1_flag: self.late_cia1_flag.after(30, self.flag_due() && self.late()),
            ..self
        }
    }

    /// The lines have changed since the last look.
    pub open spec fn lines_due(self) -> bool {
        self.tracedrive && (self.iec() matches Some(b) && trace_byte(b) != self.prev_trace_state)
    }

    /// It is time to tell where the drive is.
    pub open spec fn beat_due(self) -> bool {
        self.tracedrive && self.iec() is Some && self.trace_pc_counter.wrapping_add(1) >= DRIVE_BEAT
    }

    /// After a look at the lines.
    pub open spec fn lines_seen(self) -> C64View {
        match self.iec() {
            Some(b) if self.tracedrive => C64View {
                prev_trace_state: trace_byte(b),
                trace_pc_counter: if self.beat_due() {
                    0
                } else {
                    self.trace_pc_counter.wrapping_add(1)
                },
                ..self
            },
            _ => self,
        }
    }

    /// After a cycle of the drive.
    #[verifier::opaque]
    pub open spec fn after_drive_cycle(self, ba_low: bool, pc: u16) -> C64View {
        if self.drive_runs(ba_low, pc) {
            self.drive_stepped().flag_seen().lines_seen()
        } else {
            self
        }
    }

    /// After the drive's side of a cycle.
    #[verifier::opaque]
    pub open spec fn after_run(self, lines: (bool, bool, bool), ba_low: bool, pc: u16) -> C64View {
        self.lines_pulled(lines.0, lines.1, lines.2).after_drive_cycle(
            ba_low,
            pc,
        ).fast_loader_seen(pc)
    }

    /// The state around what the probes look at.
    pub open spec fn setting(self) -> Setting {
        Setting {
            cycle: self.cycle_count,
            fast: self.fastload_seen,
            drive_pc: self.drive.cpu.regs.pc,
            iec: self.iec(),
        }
    }

    /// What the probes tell, where the computer has a drive.
    #[verifier::opaque]
    pub open spec fn watch_events(self, sample: C64Sample) -> Seq<C64Event> {
        if self.truedrive {
            self.probes.events(sample, self.setting())
        } else {
            Seq::empty()
        }
    }

    /// After a look of the probes, where the computer has a drive.
    #[verifier::opaque]
    pub open spec fn after_watch(self, sample: C64Sample) -> C64View {
        C64View {
            probes: if self.truedrive {
                self.probes.after(sample, self.setting())
            } else {
                self.probes
            },
            ..self
        }
    }

    /// After a cycle.
    pub open spec fn after_cycle(self) -> C64View {
        C64View { cycle_count: self.cycle_count.wrapping_add(1), ..self }
    }

    /// The computer has just started.
    pub open spec fn starts(self, pc: u16) -> bool {
        !self.powered_on && pc == POWER_ON
    }

    /// BASIC has just become ready.
    pub open spec fn becomes_ready(self, pc: u16) -> bool {
        !self.boot_complete && pc == WARM_START
    }

    /// A LOAD is to be typed.
    pub open spec fn types_load(self, pc: u16) -> bool {
        self.becomes_ready(pc) && self.autoload && !self.autoload_done
    }

    /// After a look at where a starting computer is.
    pub open spec fn after_boot(self, pc: u16) -> C64View {
        C64View {
            powered_on: self.powered_on || pc == POWER_ON,
            boot_complete: self.boot_complete || pc == WARM_START,
            autoload_done: self.autoload_done || self.types_load(pc),
            ..self
        }
    }
}

/// A computer at a place of a pass.
pub struct PassView {
    pub at: Phase,
    pub c64: C64View,
}

impl PassView {
    /// After what has happened outside. A pass first looks whether the computer starts and whether
    /// LOAD has been entered; LOAD is answered if that is due; then, if it is time, the cycle runs,
    /// the probes look, and the cycle is ended. What comes out of turn changes nothing.
    pub open spec fn after(self, e: HostEvent) -> PassView {
        let c = self.c64;
        if e.turn() != self.at {
            self
        } else {
            match e {
                HostEvent::Pass { pc, at_fetch } => PassView {
                    at: if c.load_due(pc, at_fetch) {
                        Phase::Load
                    } else {
                        Phase::Clock
                    },
                    c64: c.after_boot(pc).after_load_watch(pc),
                },
                HostEvent::Called { call, name } => PassView {
                    at: Phase::Clock,
                    c64: c.after_load(call, name@),
                },
                HostEvent::Ticked { lines, ba_low, pc } => PassView {
                    at: if c.truedrive {
                        Phase::Watch
                    } else {
                        Phase::End
                    },
                    c64: c.after_run(lines, ba_low, pc),
                },
                HostEvent::Waited => PassView { at: Phase::Start, c64: c },
                HostEvent::Seen { sample } => PassView {
                    at: Phase::End,
                    c64: c.after_watch(sample),
                },
                HostEvent::Ended => PassView { at: Phase::Start, c64: c.after_cycle() },
            }
        }
    }
}

impl C64 {
    /// Where a pass is.
    pub closed spec fn place(&self) -> Phase {
        self.phase
    }

    /// The computer at that place.
    pub open spec fn pass(&self) -> PassView {
        PassView { at: self.place(), c64: self@ }
    }

    /// Puts a computer together. With `truedrive` it gets a drive, which runs if a fitting ROM is
    /// given; what is wrong with the ROM is handed out beside the computer.
    pub fn new(
        prg_to_load: &str,
        crt_to_load: &str,
        disk_image: Option<D64>,
        drive_rom: Option<&[u8]>,
        auto_run: bool,
        truedrive: bool,
        tracedrive: bool,
        autoload: bool,
    ) -> (r: (C64, Option<String>))
        ensures
            r.0@.wf(),
            r.0@.counting(),
            r.0.place() == Phase::Start,
            ({
                let image = match disk_image {
                    Some(d) => Some(d@),
                    None => None,
                };
                let drive = match drive_rom {
                    Some(rom) if truedrive && rom@.len() == ROM_SIZE => (DriveView {
                        bus: BusView {
                            rom: rom@,
                            rom_loaded: true,
                            ..fresh_bus()
                        },
                        enabled: true,
                        ..no_drive()
                    }).after_reset(),
                    _ => no_drive(),
                };
                r.0@ == (C64View {
                    file_to_load: prg_to_load@,
                    crt_to_load: crt_to_load@,
                    powered_on: false,
                    boot_complete: false,
                    cycle_count: 0,
                    disk_image: image,
                    load_trap_armed: true,
                    auto_run,
                    autoload,
                    autoload_done: false,
                    truedrive,
                    drive: assembled_drive(image, drive, truedrive, tracedrive),
                    tracedrive,
                    prev_trace_state: 0,
                    trace_pc_counter: 0,
                    fastload_seen: false,
                    prev_iec_data_low: false,
                    cia1_flag: Tally { hits: 0 },
                    late_cia1_flag: Tally { hits: 0 },
                    probes: fresh_probes(),
                })
            }),
            match r.1 {
                Some(e) => truedrive && (drive_rom matches Some(rom) && rom@.len()
                    != ROM_SIZE && e@ == rom_size_text(rom@.len())),
                None => !truedrive || (drive_rom matches Some(rom) ==> rom@.len()
                    == ROM_SIZE),
            },
    {
        let (mut drive, error): (Drive1541, Option<String>) = match drive_rom {
            Some(rom) if truedrive => {
                let (drive, loaded): (Drive1541, Result<(), String>) = Drive1541::new(rom);
                match loaded {
                    Ok(_) => (drive, None),
                    Err(e) => (drive, Some(e)),
                }
            },
            _ => (Drive1541::disabled(), None),
        };
        if truedrive && drive.enabled() {
            drive.set_iec(IecBus::new_shared());
            if tracedrive {
                drive.set_trace(true);
            }
            if let Some(img) = &disk_image {
                drive.mount_d64(img.clone());
            }
        }
        let c64 = C64 {
            phase: Phase::Start,
            file_to_load: prg_to_load.to_string(),
            crt_to_load: crt_to_load.to_string(),
            powered_on: false,
            boot_complete: false,
            cycle_count: 0,
            disk_image,
            load_trap_armed: true,
            auto_run,
            autoload,
            autoload_done: false,
            truedrive,
            drive,
            tracedrive,
            prev_trace_state: 0,
            trace_pc_counter: 0,
            fastload_seen: false,
            prev_iec_data_low: false,
            cia1_flag: Tally { hits: 0 },
            late_cia1_flag: Tally { hits: 0 },
            probes: C64Probes::new(),
        };
        (c64, error)
    }

    /// Resets the drive, where there is one.
    pub fn reset(&mut self)
        ensures
            final(self).place() == old(self).place(),
            final(self)@ == (C64View {
                drive: if old(self)@.truedrive {
                    old(self)@.drive.after_reset()
                } else {
                    old(self)@.drive
                },
                ..old(self)@
            }),
            old(self)@.wf() ==> final(self)@.wf(),
    {
        if self.truedrive {
            self.drive.reset();
        }
    }

    /// Looks at where a starting computer is.
    pub fn boot(&mut self, pc: u16) -> (r: BootActions)
        ensures
            final(self).place() == old(self).place(),
            final(self)@ == old(self)@.after_boot(pc),
            r.tells(old(self)@, pc),
    {
        let starts = !self.powered_on && pc == POWER_ON;
        let ready = !self.boot_complete && pc == WARM_START;
        let cartridge = starts && self.crt_to_load.as_str().unicode_len() > 0;
        let program = ready && self.file_to_load.as_str().unicode_len() > 0;
        let mut keys: Vec<Poke> = Vec::new();
        if starts {
            self.powered_on = true;
        }
        if ready {
            self.boot_complete = true;
            if self.autoload && !self.autoload_done {
                self.autoload_done = true;
                keys = type_load();
            }
        }
        assert(keys@ =~= if old(self)@.types_load(pc) {
            typed(load_keys())
        } else {
            Seq::empty()
        });
        BootActions { cartridge, program, keys }
    }

    /// Stores a program file, and runs it where that was wanted. The program's start comes first.
    pub fn load_prg(&self, prg: &[u8]) -> (r: (u16, Vec<Poke>))
        requires
            program_fits(prg@),
        ensures
            r.0 == load_address_of(prg@),
            r.1@ == program_pokes(prg@, self@.auto_run),
    {
        store_program(prg, self.auto_run)
    }

    /// Looks whether LOAD has been entered and is to be answered.
    #[verifier::spinoff_prover]
    #[verifier::rlimit(40)]
    pub fn watch_load(&mut self, pc: u16, at_fetch: bool) -> (due: bool)
        ensures
            final(self).place() == old(self).place(),
            due == old(self)@.load_due(pc, at_fetch),
            final(self)@ == old(self)@.after_load_watch(pc),
    {
        if self.truedrive && self.drive.enabled() {
            return false;
        }
        if pc != LOAD_ROUTINE {
            self.load_trap_armed = true;
            return false;
        }
        at_fetch && self.load_trap_armed && self.disk_image.is_some()
    }

    /// Answers LOAD from the mounted image. The trap is set again when the processor has left.
    pub fn handle_load_trap(&mut self, call: &LoadCall, name: &[u8]) -> (r: LoadOutcome)
        ensures
            final(self).place() == old(self).place(),
            r@ == old(self)@.load_answer(*call, name@),
            final(self)@ == old(self)@.after_load(*call, name@),
    {
        proof {
            reveal(C64View::load_answer);
        }
        let r = match &self.disk_image {
            Some(disk) => answer_load(disk, call, name),
            None => LoadOutcome::Ignored,
        };
        match r {
            LoadOutcome::Ignored => {},
            _ => {
                self.load_trap_armed = false;
            },
        }
        r
    }

    /// The serial bus as it is, if there is one.
    pub fn serial_bus(&self) -> (r: Option<IecBus>)
        ensures
            r == self@.iec(),
    {
        self.drive.iec()
    }

    /// Pulls the computer's lines of the serial bus, where there is one.
    pub fn pull_lines(&mut self, atn: bool, clk: bool, data: bool)
        ensures
            final(self).place() == old(self).place(),
            final(self)@ == old(self)@.lines_pulled(atn, clk, data),
            old(self)@.wf() ==> final(self)@.wf(),
    {
        if let Some(b) = self.drive.iec() {
            self.drive.set_iec(
                IecBus {
                    c64_atn: atn,
                    c64_clk: clk,
                    c64_data: data,
                    drive_clk: b.drive_clk,
                    drive_data: b.drive_data,
                    drive_atna: b.drive_atna,
                },
            );
        }
    }

    /// Looks at DATA: tells whether CIA 1 is to be told, and whether the two traces are.
    fn see_flag(&mut self) -> (r: (bool, bool, bool))
        ensures
            final(self).place() == old(self).place(),
            final(self)@ == old(self)@.flag_seen(),
            final(self)@.drive == old(self)@.drive,
            r.0 == old(self)@.flag_due(),
            r.1 == old(self)@.cia1_flag.reports(20, old(self)@.flag_due()),
            r.2 == old(self)@.late_cia1_flag.reports(
                30,
                old(self)@.flag_due() && old(self)@.late(),
            ),
    {
        match self.drive.iec() {
            None => (false, false, false),
            Some(b) => {
                let low = b.data_low();
                let flag = low && !self.prev_iec_data_low;
                let told = self.cia1_flag.note(20, flag);
                let late = self.late_cia1_flag.note(30, flag && self.cycle_count > 80_000_000);
                self.prev_iec_data_low = low;
                (flag, told, late)
            },
        }
    }

    /// Looks at the lines of the serial bus: tells whether they have changed, and whether it is
    /// time to tell where the drive is.
    #[verifier::spinoff_prover]
    #[verifier::rlimit(40)]
    fn trace_step(&mut self) -> (r: (bool, bool))
        ensures
            final(self).place() == old(self).place(),
            final(self)@ == old(self)@.lines_seen(),
            final(self)@.drive == old(self)@.drive,
            r.0 == old(self)@.lines_due(),
            r.1 == old(self)@.beat_due(),
    {
        if !self.tracedrive {
            return (false, false);
        }
        match self.drive.iec() {
            None => (false, false),
            Some(b) => {
                let state: u8 = trace_state(b);
                let changed = state != self.prev_trace_state;
                self.prev_trace_state = state;
                self.trace_pc_counter = self.trace_pc_counter.wrapping_add(1);
                let beat = self.trace_pc_counter >= DRIVE_BEAT;
                if beat {
                    self.trace_pc_counter = 0;
                }
                (changed, beat)
            },
        }
    }

    /// No count of the drive or the probes is at its end.
    pub fn can_count(&self) -> (r: bool)
        ensures
            r == self@.counting(),
    {
        self.drive.clk_wait_cycles() < u32::MAX && self.probes.can_count()
    }

    /// Runs the drive for a cycle, unless it has to wait for the processor, and looks at what it
    /// does on the serial bus.
    #[verifier::spinoff_prover]
    #[verifier::rlimit(40)]
    pub fn drive_cycle(&mut self, ba_low: bool, pc: u16) -> (r: DriveCycle)
        requires
            old(self)@.wf(),
            old(self)@.counting(),
        ensures
            final(self).place() == old(self).place(),
            final(self)@ == old(self)@.after_drive_cycle(ba_low, pc),
            final(self)@.wf(),
            r.tells(old(self)@, ba_low, pc),
    {
        proof {
            reveal(C64View::after_drive_cycle);
            reveal(DriveCycle::tells);
        }
        if !self.truedrive || (ba_low && 0xEE56 <= pc && pc <= 0xEE76) {
            return DriveCycle {
                step: None,
                flag: false,
                flag_told: false,
                late_flag_told: false,
                lines_told: false,
                beat: false,
            };
        }
        let step = self.drive.step();
        assert(self@ == old(self)@.drive_stepped());
        let (flag, flag_told, late_flag_told): (bool, bool, bool) = self.see_flag();
        let (lines_told, beat): (bool, bool) = self.trace_step();
        DriveCycle { step: Some(step), flag, flag_told, late_flag_told, lines_told, beat }
    }

    /// Looks whether the fast loader has been entered for the first time. Its interrupt vector is
    /// then to be put right, before the loader uses it.
    pub fn enter_fast_loader(&mut self, pc: u16) -> (r: Option<[Poke; 2]>)
        ensures
            final(self).place() == old(self).place(),
            final(self)@ == old(self)@.fast_loader_seen(pc),
            match r {
                Some(pokes) => old(self)@.enters_fast_loader(pc) && pokes@ == vector_pokes(),
                None => !old(self)@.enters_fast_loader(pc),
            },
    {
        if self.truedrive && !self.fastload_seen && 0x6000 <= pc && pc <= 0x6300 {
            self.fastload_seen = true;
            let pokes: [Poke; 2] = [
                Poke { addr: 0xFFFE, val: 0x66 },
                Poke { addr: 0xFFFF, val: 0xFE },
            ];
            assert(pokes@ =~= vector_pokes());
            Some(pokes)
        } else {
            None
        }
    }

    /// Runs the drive's side of a cycle, after the chips have run theirs: the computer's lines are
    /// pulled as `lines` says (ATN, CLK and DATA), the drive runs, and the fast loader is looked
    /// for.
    pub fn run_drive(&mut self, lines: (bool, bool, bool), ba_low: bool, pc: u16) -> (r: RunActions)
        requires
            old(self)@.wf(),
            old(self)@.counting(),
        ensures
            final(self).place() == old(self).place(),
            final(self)@ == old(self)@.after_run(lines, ba_low, pc),
            final(self)@.wf(),
            r.tells(old(self)@, lines, ba_low, pc),
    {
        proof {
            reveal(C64View::after_run);
            reveal(RunActions::tells);
            lemma_run_frame(self@, lines, ba_low, pc);
        }
        self.pull_lines(lines.0, lines.1, lines.2);
        let drive = self.drive_cycle(ba_low, pc);
        let vector = self.enter_fast_loader(pc);
        RunActions { drive, vector }
    }

    /// Lets the probes look at the computer, where it has a drive.
    pub fn observe(&mut self, s: &C64Sample) -> (events: Vec<C64Event>)
        requires
            old(self)@.counting(),
        ensures
            final(self).place() == old(self).place(),
            events@ == old(self)@.watch_events(*s),
            final(self)@ == old(self)@.after_watch(*s),
            final(self)@.wf() == old(self)@.wf(),
    {
        proof {
            reveal(C64View::watch_events);
            reveal(C64View::after_watch);
        }
        if !self.truedrive {
            return Vec::new();
        }
        let g = Setting {
            cycle: self.cycle_count,
            fast: self.fastload_seen,
            drive_pc: self.drive.pc(),
            iec: self.drive.iec(),
        };
        self.probes.observe(s, g)
    }

    /// The program that is to be loaded, empty for none.
    pub fn file_to_load(&self) -> (r: &str)
        ensures
            r@ == self@.file_to_load,
    {
        self.file_to_load.as_str()
    }

    /// The cartridge that is to be plugged in, empty for none.
    pub fn crt_to_load(&self) -> (r: &str)
        ensures
            r@ == self@.crt_to_load,
    {
        self.crt_to_load.as_str()
    }

    /// Cycles so far.
    pub fn cycle_count(&self) -> (r: u32)
        ensures
            r == self@.cycle_count,
    {
        self.cycle_count
    }

    /// The computer has a drive of its own.
    pub fn truedrive(&self) -> (r: bool)
        ensures
            r == self@.truedrive,
    {
        self.truedrive
    }

    /// The drive.
    pub fn drive(&self) -> (r: &Drive1541)
        ensures
            r@ == self@.drive,
    {
        &self.drive
    }

    /// The mounted image.
    pub fn disk_image(&self) -> (r: &Option<D64>)
        ensures
            self@.disk_image == (match *r {
                Some(d) => Some(d@),
                None => None,
            }),
    {
        &self.disk_image
    }

    /// The probes.
    pub fn probes(&self) -> (r: &C64Probes)
        ensures
            r@ == self@.probes,
    {
        &self.probes
    }

    /// Hands out what the drive's VIAs noted of writes to their port B, that on the serial bus
    /// first.
    pub fn take_orb_log(&mut self) -> (log: (Vec<OrbWrite>, Vec<OrbWrite>))
        ensures
            final(self).place() == old(self).place(),
            log.0@ == old(self)@.drive.bus.via1.orb_log,
            log.1@ == old(self)@.drive.bus.via2.orb_log,
            final(self)@ == (C64View {
                drive: DriveView {
                    bus: old(self)@.drive.bus.log_taken(),
                    ..old(self)@.drive
                },
                ..old(self)@
            }),
            old(self)@.wf() ==> final(self)@.wf(),
    {
        self.drive.take_orb_log()
    }

    /// Ends a cycle.
    pub fn end_cycle(&mut self)
        ensures
            final(self).place() == old(self).place(),
            final(self)@ == old(self)@.after_cycle(),
    {
        self.cycle_count = self.cycle_count.wrapping_add(1);
    }

    /// Where a pass is.
    pub fn phase(&self) -> (r: Phase)
        ensures
            r == self.place(),
    {
        self.phase
    }

    /// Goes to another place of a pass.
    fn go_to(&mut self, phase: Phase)
        ensures
            final(self).place() == phase,
            final(self)@ == old(self)@,
    {
        self.phase = phase;
    }

    /// Runs the computer over and over: takes what has happened outside, and tells what is to be
    /// done there.
    #[verifier::spinoff_prover]
    #[verifier::rlimit(40)]
    pub fn run(&mut self, e: HostEvent) -> (r: HostAction)
        requires
            old(self)@.wf(),
            old(self)@.counting(),
        ensures
            final(self).pass() == old(self).pass().after(e),
            final(self)@.wf(),
            r.tells(old(self).pass(), e),
    {
        match e {
            HostEvent::Pass { pc, at_fetch } => {
                if self.phase != Phase::Start {
                    return HostAction::OutOfTurn;
                }
                let boot = self.boot(pc);
                let load = self.watch_load(pc, at_fetch);
                self.go_to(
                    if load {
                        Phase::Load
                    } else {
                        Phase::Clock
                    },
                );
                HostAction::Booted { boot, load }
            },
            HostEvent::Called { call, name } => {
                if self.phase != Phase::Load {
                    return HostAction::OutOfTurn;
                }
                let outcome = self.handle_load_trap(&call, name.as_slice());
                self.go_to(Phase::Clock);
                HostAction::Answered { outcome }
            },
            HostEvent::Ticked { lines, ba_low, pc } => {
                if self.phase != Phase::Clock {
                    return HostAction::OutOfTurn;
                }
                let next = if self.truedrive {
                    Phase::Watch
                } else {
                    Phase::End
                };
                let actions = self.run_drive(lines, ba_low, pc);
                self.go_to(next);
                HostAction::Ran { actions }
            },
            HostEvent::Waited => {
                if self.phase != Phase::Clock {
                    return HostAction::OutOfTurn;
                }
                self.go_to(Phase::Start);
                HostAction::Done
            },
            HostEvent::Seen { sample } => {
                if self.phase != Phase::Watch {
                    return HostAction::OutOfTurn;
                }
                let events = self.observe(&sample);
                self.go_to(Phase::End);
                HostAction::Reported { events }
            },
            HostEvent::Ended => {
                if self.phase != Phase::End {
                    return HostAction::OutOfTurn;
                }
                self.end_cycle();
                self.go_to(Phase::Start);
                HostAction::Done
            },
        }
    }
}

/// What the drive's side of a cycle leaves alone.
proof fn lemma_run_frame(c: C64View, lines: (bool, bool, bool), ba_low: bool, pc: u16)
    ensures
        ({
            let l = c.lines_pulled(lines.0, lines.1, lines.2);
            &&& l.counting() == c.counting()
            &&& l.after_drive_cycle(ba_low, pc).enters_fast_loader(pc) == c.enters_fast_loader(pc)
        }),
{
    reveal(C64View::after_drive_cycle);
}

/// What of the computer the drive's side of a cycle leaves alone.
proof fn lemma_run_keeps(c: C64View, lines: (bool, bool, bool), ba_low: bool, pc: u16)
    ensures
        c.after_run(lines, ba_low, pc).truedrive == c.truedrive,
        c.after_run(lines, ba_low, pc).cycle_count == c.cycle_count,
        c.after_run(lines, ba_low, pc).load_trap_armed == c.load_trap_armed,
{
    reveal(C64View::after_run);
    reveal(C64View::after_drive_cycle);
}

/// What of the computer the probes leave alone.
proof fn lemma_watch_keeps(c: C64View, sample: C64Sample)
    ensures
        c.after_watch(sample).drive == c.drive,
        c.after_watch(sample).cycle_count == c.cycle_count,
        c.after_watch(sample).load_trap_armed == c.load_trap_armed,
        !c.truedrive ==> c.after_watch(sample) == c,
{
    reveal(C64View::after_watch);
}

/// A pass keeps its order: what comes out of turn changes nothing, LOAD waits for an answer only
/// where it was seen to be due, the drive changes only when the cycle runs, and cycles are counted
/// only at the end.
pub proof fn pass_keeps_its_order(p: PassView, e: HostEvent)
    ensures
        e.turn() != p.at ==> p.after(e) == p,
        p.at != Phase::Load && p.after(e).at == Phase::Load ==> (e matches HostEvent::Pass {
            pc,
            at_fetch,
        } && p.c64.load_due(pc, at_fetch)),
        p.at != Phase::Clock && p.after(e).at == Phase::Clock ==> p.at == Phase::Start || p.at
            == Phase::Load,
        p.c64.load_trap_armed && !p.after(e).c64.load_trap_armed ==> p.at == Phase::Load,
        p.after(e).c64.drive != p.c64.drive ==> p.at == Phase::Clock && e is Ticked,
        p.after(e).c64.cycle_count != p.c64.cycle_count ==> p.at == Phase::End,
{
    match e {
        HostEvent::Ticked { lines, ba_low, pc } => {
            lemma_run_keeps(p.c64, lines, ba_low, pc);
        },
        HostEvent::Seen { sample } => {
            lemma_watch_keeps(p.c64, sample);
        },
        _ => {},
    }
}

/// A whole pass is its parts in order: the start of the computer, the look for LOAD, the answer to
/// LOAD where that is due, the cycle, the look of the probes, and the count of the cycle.
pub proof fn pass_is_its_parts_in_order(
    c: C64View,
    pc: u16,
    at_fetch: bool,
    call: LoadCall,
    name: Vec<u8>,
    lines: (bool, bool, bool),
    ba_low: bool,
    pc_after: u16,
    sample: C64Sample,
)
    ensures
        ({
            let watched = c.after_boot(pc).after_load_watch(pc);
            let answered = if c.load_due(pc, at_fetch) {
                watched.after_load(call, name@)
            } else {
                watched
            };
            (PassView { at: Phase::Start, c64: c }).after(HostEvent::Pass { pc, at_fetch }).after(
                HostEvent::Called { call, name },
            ).after(HostEvent::Ticked { lines, ba_low, pc: pc_after }).after(
                HostEvent::Seen { sample },
            ).after(HostEvent::Ended) == (PassView {
                at: Phase::Start,
                c64: answered.after_run(lines, ba_low, pc_after).after_watch(sample).after_cycle(),
            })
        }),
{
    let watched = c.after_boot(pc).after_load_watch(pc);
    let answered = if c.load_due(pc, at_fetch) {
        watched.after_load(call, name@)
    } else {
        watched
    };
    lemma_run_keeps(answered, lines, ba_low, pc_after);
    lemma_watch_keeps(answered.after_run(lines, ba_low, pc_after), sample);
}

/// LOAD is answered once each time it is entered: when it has been, the trap stays down as long as
/// the processor is there, and is set again when it has left.
pub proof fn load_is_answered_once(c: C64View, at_fetch: bool, pc: u16)
    requires
        !c.load_trap_armed,
    ensures
        !c.load_due(LOAD_ROUTINE, at_fetch),
        c.after_load_watch(LOAD_ROUTINE) == c,
        c.traps_load() && pc != LOAD_ROUTINE ==> c.after_load_watch(pc).load_trap_armed,
{
}

/// A computer whose drive runs never answers LOAD from the image.
pub proof fn running_drive_answers_itself(c: C64View, pc: u16, at_fetch: bool)
    requires
        c.truedrive,
        c.drive.enabled,
    ensures
        !c.load_due(pc, at_fetch),
        c.after_load_watch(pc) == c,
{
}

/// While the video chip holds a processor that waits for a bit, the drive stands still.
pub proof fn drive_waits_for_the_processor(c: C64View, pc: u16)
    requires
        in_receive_loop(pc),
    ensures
        c.after_drive_cycle(true, pc) == c,
{
    reveal(C64View::after_drive_cycle);
}

/// Each time DATA goes low CIA 1 is told once: not again before DATA was high in between.
pub proof fn flag_comes_once_per_edge(c: C64View)
    ensures
        !c.flag_seen().flag_due(),
        c.flag_due() ==> c.data_low() && !c.prev_iec_data_low,
        c.iec() is Some ==> c.flag_seen().prev_iec_data_low == c.data_low(),
{
}

/// A cycle of the drive changes neither what the computer does on the serial bus nor the ROM and
/// the image in the drive, nor anything of the computer but what it notes of the bus.
pub proof fn drive_cycle_keeps(c: C64View, ba_low: bool, pc: u16)
    requires
        c.wf(),
    ensures
        c.after_drive_cycle(ba_low, pc).wf(),
        kept_by_processor(c.drive.bus, c.after_drive_cycle(ba_low, pc).drive.bus),
        c.after_drive_cycle(ba_low, pc).disk_image == c.disk_image,
        c.after_drive_cycle(ba_low, pc).cycle_count == c.cycle_count,
        c.after_drive_cycle(ba_low, pc).load_trap_armed == c.load_trap_armed,
{
    reveal(C64View::after_drive_cycle);
    step_keeps(c.drive);
}

/// Where the drive is, is told every `DRIVE_BEAT` cycles: the counter stays below that and starts
/// again when it gets there.
pub proof fn drive_is_told_at_a_steady_beat(c: C64View)
    requires
        c.trace_pc_counter < DRIVE_BEAT,
        c.tracedrive,
        c.iec() is Some,
    ensures
        c.lines_seen().trace_pc_counter == (c.trace_pc_counter + 1) % DRIVE_BEAT as int,
        c.beat_due() <==> c.trace_pc_counter + 1 == DRIVE_BEAT,
{
}

/// A computer starts once, and BASIC becomes ready once.
pub proof fn start_happens_once(c: C64View, pc: u16, later: u16)
    ensures
        c.starts(pc) ==> !c.after_boot(pc).starts(later),
        c.becomes_ready(pc) ==> !c.after_boot(pc).becomes_ready(later),
        c.types_load(pc) ==> !c.after_boot(pc).types_load(later),
{
}

/// The computer's lines are pulled as it says, and what the drive pulls stays.
pub proof fn computer_pulls_its_own_lines(c: C64View, atn: bool, clk: bool, data: bool)
    ensures
        ({
            let after = c.lines_pulled(atn, clk, data);
            &&& after.iec() is Some == c.iec() is Some
            &&& c.iec() matches Some(b) ==> after.iec() == Some(
                IecBus {
                    c64_atn: atn,
                    c64_clk: clk,
                    c64_data: data,
                    drive_clk: b.drive_clk,
                    drive_data: b.drive_data,
                    drive_atna: b.drive_atna,
                },
            )
            &&& after.drive.cpu == c.drive.cpu && after.drive.bus.ram == c.drive.bus.ram
            &&& after.drive.bus.via2 == c.drive.bus.via2 && after.disk_image == c.disk_image
        }),
{
}

/// LOAD is answered from the image where the processor is about to fetch at `$F4A5`, the trap is set
/// and a disk is mounted, and no drive runs that would answer. A start is noticed at `$FCE2`, BASIC at
/// `$A480`.
pub proof fn computer_is_watched_at_its_places(c: C64View, pc: u16, at_fetch: bool)
    ensures
        c.load_due(pc, at_fetch) <==> pc == 0xF4A5 && at_fetch && c.load_trap_armed && c.disk_image is Some
            && !(c.truedrive && c.drive.enabled),
        c.starts(pc) <==> !c.powered_on && pc == 0xFCE2,
        c.becomes_ready(pc) <==> !c.boot_complete && pc == 0xA480,
        c.types_load(pc) <==> !c.boot_complete && pc == 0xA480 && c.autoload && !c.autoload_done,
{
}

/// The drive runs in every cycle, but for those in which the video chip holds a processor that waits
/// for a bit between `$EE56` and `$EE76`. Then one step of it is made.
pub proof fn drive_runs_with_the_computer(c: C64View, ba_low: bool, pc: u16)
    ensures
        c.drive_runs(ba_low, pc) <==> c.truedrive && !(ba_low && 0xEE56 <= pc <= 0xEE76),
        c.drive_runs(ba_low, pc) ==> c.after_drive_cycle(ba_low, pc).drive == c.drive.stepped(),
        !c.drive_runs(ba_low, pc) ==> c.after_drive_cycle(ba_low, pc) == c,
{
    reveal(C64View::after_drive_cycle);
}

/// CIA 1 is told exactly when DATA goes from high to low: it was high at the last look and is now
/// pulled by somebody.
pub proof fn flag_is_the_falling_edge_of_data(c: C64View)
    ensures
        c.flag_due() <==> !c.prev_iec_data_low && (c.iec() matches Some(b) && (b.c64_data
            || b.drive_data || (b.c64_atn && !b.drive_atna))),
        c.iec() matches Some(b) ==> c.flag_seen().prev_iec_data_low == (b.c64_data || b.drive_data || (
        b.c64_atn && !b.drive_atna)),
        c.flag_seen().drive == c.drive,
{
}

/// The fast loader is seen the first time that a processor with a drive is between `$6000` and `$6300`;
/// the interrupt vector that is then stored is `$FE66`.
pub proof fn fast_loader_is_seen_once(c: C64View, pc: u16, mem: Seq<u8>)
    requires
        mem.len() == 0x10000,
    ensures
        c.enters_fast_loader(pc) <==> c.truedrive && !c.fastload_seen && 0x6000 <= pc <= 0x6300,
        c.enters_fast_loader(pc) ==> !c.fast_loader_seen(pc).enters_fast_loader(pc),
        c.fast_loader_seen(pc).fastload_seen <==> c.fastload_seen || c.enters_fast_loader(pc),
        poked(mem, vector_pokes())[0xFFFE] == 0x66,
        poked(mem, vector_pokes())[0xFFFF] == 0xFE,
{
    reveal_with_fuel(poked, 3);
    let p = vector_pokes();
    assert(p.drop_last() =~= seq![Poke { addr: 0xFFFE, val: 0x66 }]);
    assert(p.drop_last().drop_last() =~= Seq::empty());
}

/// A change of any line, or of who pulls it, is a change of the traced state, and nothing else is.
pub proof fn traced_state_tells_every_line(a: IecBus, b: IecBus)
    ensures
        trace_byte(a) == trace_byte(b) <==> {
            &&& a.c64_atn == b.c64_atn && a.c64_clk == b.c64_clk && a.c64_data == b.c64_data
            &&& a.drive_clk == b.drive_clk && a.drive_atna == b.drive_atna && a.data() == b.data()
        },
{
    reveal(trace_byte);
    let f = |x: bool|
        if x {
            1u8
        } else {
            0u8
        };
    let (a0, a1, a2, a3) = (f(a.atn()), f(a.clk()), f(a.data()), f(a.drive_atna));
    let (a4, a5, a6, a7) = (f(a.c64_atn), f(a.c64_clk), f(a.c64_data), f(a.drive_clk));
    let (b0, b1, b2, b3) = (f(b.atn()), f(b.clk()), f(b.data()), f(b.drive_atna));
    let (b4, b5, b6, b7) = (f(b.c64_atn), f(b.c64_clk), f(b.c64_data), f(b.drive_clk));
    let (x, y) = (trace_byte(a), trace_byte(b));
    assert(x == y <==> a0 == b0 && a1 == b1 && a2 == b2 && a3 == b3 && a4 == b4 && a5 == b5 && a6 == b6
        && a7 == b7) by (bit_vector)
        requires
            a0 <= 1 && a1 <= 1 && a2 <= 1 && a3 <= 1 && a4 <= 1 && a5 <= 1 && a6 <= 1 && a7 <= 1,
            b0 <= 1 && b1 <= 1 && b2 <= 1 && b3 <= 1 && b4 <= 1 && b5 <= 1 && b6 <= 1 && b7 <= 1,
            x == a0 | (2 * a1) as u8 | (4 * a2) as u8 | (8 * a3) as u8 | (16 * a4) as u8 | (32 * a5) as u8
                | (64 * a6) as u8 | (128 * a7) as u8,
            y == b0 | (2 * b1) as u8 | (4 * b2) as u8 | (8 * b3) as u8 | (16 * b4) as u8 | (32 * b5) as u8
                | (64 * b6) as u8 | (128 * b7) as u8,
    ;
}

/// Lines are traced exactly when the traced state is another than at the last look, which then is
/// what it is now.
pub proof fn lines_are_traced_when_they_change(c: C64View)
    ensures
        c.lines_due() <==> c.tracedrive && (c.iec() matches Some(b) && trace_byte(b)
            != c.prev_trace_state),
        c.tracedrive ==> (c.iec() matches Some(b) ==> c.lines_seen().prev_trace_state == trace_byte(
            b,
        )),
        !c.lines_seen().lines_due(),
        c.lines_seen().drive == c.drive,
{
}

/// A computer is put together with a drive that runs only where one is wanted and there is a ROM for
/// it. Such a drive is on a serial bus that nobody pulls, and has the disk in it that the computer has
/// mounted.
pub proof fn running_drive_is_wired_up(
    image: Option<Seq<u8>>,
    drive: DriveView,
    truedrive: bool,
    tracedrive: bool,
)
    requires
        drive.wf(),
    ensures
        ({
            let d = assembled_drive(image, drive, truedrive, tracedrive);
            &&& !truedrive || !drive.enabled ==> d == drive
            &&& truedrive && drive.enabled ==> {
                &&& d.bus.via1.iec == Some(idle_bus())
                &&& tracedrive ==> d.bus.via1.trace && d.bus.via2.trace
                &&& image matches Some(i) ==> d.bus.via2.disk->Some_0.image == Some(i)
                    && d.bus.via2.disk == Some(drive.bus.via2.disk->Some_0.mounted(i))
                &&& image is None ==> d.bus.via2.disk == drive.bus.via2.disk
                &&& d.bus.rom == drive.bus.rom && d.bus.ram == drive.bus.ram && d.cpu == drive.cpu
                &&& d.enabled
            }
        }),
{
}

/// In a cycle the computer's lines are pulled first, and the drive then runs on the bus as it is with
/// them.
pub proof fn drive_sees_the_lines_of_the_cycle(
    c: C64View,
    lines: (bool, bool, bool),
    ba_low: bool,
    pc: u16,
)
    ensures
        ({
            let pulled = c.lines_pulled(lines.0, lines.1, lines.2);
            let after = c.after_run(lines, ba_low, pc);
            &&& c.drive_runs(ba_low, pc) ==> after.drive == pulled.drive.stepped()
            &&& !c.drive_runs(ba_low, pc) ==> after.drive == pulled.drive
            &&& after.fastload_seen <==> c.fastload_seen || (c.truedrive && 0x6000 <= pc <= 0x6300)
        }),
{
    reveal(C64View::after_run);
    reveal(C64View::after_drive_cycle);
}

/// LOAD is answered from the mounted image, and once it is, it is not due again before the processor
/// has left; one that is left to the KERNAL changes nothing.
pub proof fn answered_load_is_not_due_again(
    c: C64View,
    call: LoadCall,
    name: Seq<u8>,
    at_fetch: bool,
)
    ensures
        c.disk_image matches Some(image) ==> c.load_answer(call, name) == load_outcome(
            image,
            call,
            name,
        ),
        c.disk_image is None ==> c.load_answer(call, name) is Ignored,
        c.load_answer(call, name) is Ignored ==> c.after_load(call, name) == c,
        !(c.load_answer(call, name) is Ignored) ==> !c.after_load(call, name).load_due(
            LOAD_ROUTINE,
            at_fetch,
        ),
{
    reveal(C64View::load_answer);
}

/// What is asked for at the start is what was wanted: the cartridge when the computer starts, the
/// program when BASIC is ready, and then the keys that load from the disk.
pub proof fn start_asks_for_what_was_wanted(c: C64View, pc: u16, r: BootActions)
    requires
        r.tells(c, pc),
    ensures
        r.cartridge <==> !c.powered_on && pc == 0xFCE2 && c.crt_to_load.len() > 0,
        r.program <==> !c.boot_complete && pc == 0xA480 && c.file_to_load.len() > 0,
        r.keys@.len() > 0 <==> !c.boot_complete && pc == 0xA480 && c.autoload && !c.autoload_done,
        r.keys@.len() > 0 ==> r.keys@ == typed(load_keys()),
{
}

/// What a cycle of the drive has come to is told: its step where it ran, the edge of DATA, and what of
/// that is worth a line in the trace.
pub proof fn cycle_tells_what_it_came_to(c: C64View, ba_low: bool, pc: u16, r: DriveCycle)
    requires
        r.tells(c, ba_low, pc),
    ensures
        ({
            let runs = c.truedrive && !(ba_low && 0xEE56 <= pc <= 0xEE76);
            let d = c.drive.stepped();
            let low = d.bus.via1.iec matches Some(b) && (b.c64_data || b.drive_data || (b.c64_atn
                && !b.drive_atna));
            &&& r.step is Some <==> runs
            &&& r.step matches Some(report) ==> report.tells(c.drive)
            &&& r.flag <==> runs && low && !c.prev_iec_data_low
            &&& r.flag_told <==> r.flag && c.cia1_flag.hits < 20
            &&& r.late_flag_told <==> r.flag && c.cycle_count > 80_000_000 && c.late_cia1_flag.hits < 30
            &&& r.lines_told <==> runs && c.tracedrive && (d.bus.via1.iec matches Some(b) && trace_byte(
                b,
            ) != c.prev_trace_state)
            &&& c.trace_pc_counter < 50_000 ==> (r.beat <==> runs && c.tracedrive
                && d.bus.via1.iec is Some && c.trace_pc_counter == 49_999)
        }),
{
    reveal(DriveCycle::tells);
}

/// What is to be done answers what has happened: out of turn nothing, at the start whether LOAD is
/// next, then its answer, the drive's side of the cycle and what the probes tell.
pub proof fn actions_answer_events(p: PassView, e: HostEvent, r: HostAction)
    requires
        r.tells(p, e),
    ensures
        r is OutOfTurn <==> e.turn() != p.at,
        r matches HostAction::Booted { boot, load } ==> e matches HostEvent::Pass { pc, at_fetch }
            && boot.tells(p.c64, pc) && (load <==> p.after(e).at == Phase::Load),
        r matches HostAction::Answered { outcome } ==> e matches HostEvent::Called { call, name }
            && outcome@ == p.c64.load_answer(call, name@) && p.after(e).at == Phase::Clock,
        r matches HostAction::Ran { actions } ==> e matches HostEvent::Ticked { lines, ba_low, pc }
            && actions.tells(p.c64, lines, ba_low, pc),
        r matches HostAction::Reported { events } ==> e matches HostEvent::Seen { sample } && (
        p.c64.truedrive ==> events@ == p.c64.probes.events(sample, p.c64.setting())),
        r is Done ==> e is Waited || e is Ended,
{
    reveal(C64View::watch_events);
}

/// What the drive's side of a cycle has come to is told for the bus with the computer's lines pulled;
/// the interrupt vector is handed out when the fast loader is entered.
pub proof fn run_tells_what_it_came_to(
    c: C64View,
    lines: (bool, bool, bool),
    ba_low: bool,
    pc: u16,
    r: RunActions,
)
    requires
        r.tells(c, lines, ba_low, pc),
    ensures
        r.drive.tells(c.lines_pulled(lines.0, lines.1, lines.2), ba_low, pc),
        r.vector is Some <==> c.truedrive && !c.fastload_seen && 0x6000 <= pc <= 0x6300,
        r.vector matches Some(pokes) ==> pokes@ == vector_pokes(),
{
    reveal(RunActions::tells);
}

/// A cycle is counted, round the end of the counter, and the probes look at the computer as it is.
pub proof fn cycles_are_counted(c: C64View, sample: C64Sample)
    ensures
        c.after_cycle() == (C64View {
            cycle_count: ((c.cycle_count + 1) % 0x1_0000_0000) as u32,
            ..c
        }),
        c.setting().cycle == c.cycle_count,
        c.setting().fast == c.fastload_seen,
        c.setting().drive_pc == c.drive.cpu.regs.pc,
        c.setting().iec == c.drive.bus.via1.iec,
        c.truedrive ==> c.after_watch(sample).probes == c.probes.after(sample, c.setting()),
        !c.truedrive ==> c.after_watch(sample) == c,
{
    reveal(C64View::after_watch);
}

} // verus!
