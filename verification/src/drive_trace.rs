//! What the drive reports of its own doings: the places in its ROM that matter to the serial bus
//! and the bytes of its RAM that tell how far a transfer has come.
use vstd::prelude::*;

use crate::bus::{BusView, DriveBus};
use crate::iec::IecBus;
use crate::probe::{trail_of, ByteWatch, EdgeWatch, FlagWatch, StuckWatch, Tally, Trail, WordWatch};

verus! {

/// Cycles before which most probes keep still.
pub const QUIET_CYCLES: u64 = 77_000_000;

/// Cycles before which edges of ATN are not reported.
pub const QUIET_ATN_CYCLES: u64 = 88_000_000;

/// Something that the drive reports.
#[derive(Debug, Clone, Copy, PartialEq, Eq, Structural)]
pub enum DriveEvent {
    /// The command loop runs while ATN is low.
    AtnCommand,
    /// The command loop has been left.
    CommandLoopLeft,
    /// `$EC00`: commands are about to be received.
    CommandEntry,
    /// `$DF93`: the command processor.
    CommandProcessor,
    /// Where the command processor goes.
    AfterCommandProcessor,
    /// `$EC98`: the drive idles.
    IdleEntry,
    /// `$E85B`: ATN is served.
    AtnService,
    /// Where the service of ATN goes.
    AfterAtnService,
    /// `$E8D7`: ATN has been released.
    AtnExit,
    /// `$E909`: is there something to send?
    ReadyCheck,
    /// The drive has waited for CLK at `$E87B` for this many cycles.
    ClkWait { cycles: u32 },
    /// The slot of the command channel has changed.
    CommandChannel { from: u8, to: u8 },
    /// The slot of channel 1 has changed.
    ChannelOne { from: u8, to: u8 },
    /// The first byte of the command buffer has changed.
    CommandBuffer { from: u8, to: u8 },
    /// A place of the routine that sends a byte.
    Talk,
    /// `$E9B7`: CLK is released.
    ClkRelease,
    /// An interrupt is pending while the drive waits for an acknowledgement.
    IrqInAckWait,
    /// Where the drive goes after such an interrupt.
    AfterIrq,
    /// The flags of channel 1 have changed.
    ChannelOneFlags { from: u8, to: u8 },
    /// The computer has pulled ATN low.
    AtnRise,
    /// The command loop has been entered or left.
    Zone { entered: bool },
}

/// The probes of the drive.
#[derive(Debug, Clone, Copy, PartialEq, Eq, Structural)]
pub struct DriveTrace {
    pub atn_cmd: WordWatch,
    pub cmd_loop: EdgeWatch,
    pub ec00: Tally,
    pub df93: Tally,
    pub df93_trail: Trail,
    pub ec98: Tally,
    pub e85b: Tally,
    pub e85b_trail: Trail,
    pub e8d7: Tally,
    pub e909: Tally,
    pub e87b: StuckWatch,
    pub cmd_chan: ByteWatch,
    pub ch1_slot: ByteWatch,
    pub cmdbuf: ByteWatch,
    pub talk: Tally,
    pub clk_rel: Tally,
    pub irq_ack: Tally,
    pub irq_trail: Trail,
    pub f2_ch1: ByteWatch,
    pub atn_rise: EdgeWatch,
    pub zone: FlagWatch,
}

/// Probes that have seen nothing yet.
pub open spec fn fresh_trace() -> DriveTrace {
    DriveTrace {
        atn_cmd: WordWatch { last: 0xFFFF, hits: 0 },
        cmd_loop: EdgeWatch { last: false, hits: 0 },
        ec00: Tally { hits: 0 },
        df93: Tally { hits: 0 },
        df93_trail: Trail { left: 0, last: 0xFFFF },
        ec98: Tally { hits: 0 },
        e85b: Tally { hits: 0 },
        e85b_trail: Trail { left: 0, last: 0xFFFF },
        e8d7: Tally { hits: 0 },
        e909: Tally { hits: 0 },
        e87b: StuckWatch { cycles: 0, reported: false },
        cmd_chan: ByteWatch { last: 0xFF, hits: 0 },
        ch1_slot: ByteWatch { last: 0xFF, hits: 0 },
        cmdbuf: ByteWatch { last: 0, hits: 0 },
        talk: Tally { hits: 0 },
        clk_rel: Tally { hits: 0 },
        irq_ack: Tally { hits: 0 },
        irq_trail: Trail { left: 0, last: 0 },
        f2_ch1: ByteWatch { last: 0, hits: 0 },
        atn_rise: EdgeWatch { last: false, hits: 0 },
        zone: FlagWatch { last: false, hits: 0 },
    }
}

/// The command loop.
pub open spec fn in_command_loop(pc: u16) -> bool {
    0xEC00 <= pc <= 0xEC80
}

/// The places of the routine that sends a byte.
pub open spec fn at_talk(pc: u16) -> bool {
    pc == 0xE913 || pc == 0xE931 || pc == 0xEA4E || pc == 0xDCFA || pc == 0xE142 || pc == 0xE14F
}

/// The loop that waits for an acknowledgement.
pub open spec fn in_ack_wait(pc: u16) -> bool {
    0xE987 <= pc <= 0xE990
}

/// ATN is low on the bus that is attached.
pub open spec fn atn_is_low(bus: BusView) -> bool {
    bus.via1.iec matches Some(b) && b.atn()
}

/// One event, or none.
pub open spec fn reported(due: bool, e: DriveEvent) -> Seq<DriveEvent> {
    if due {
        seq![e]
    } else {
        seq![]
    }
}

impl DriveTrace {
    /// The trail of the command processor, which a visit there starts anew.
    pub open spec fn df93_trail_at(self, pc: u16, cycle: u64) -> Trail {
        if self.df93.reports(15, cycle > QUIET_CYCLES && pc == 0xDF93) {
            trail_of(60)
        } else {
            self.df93_trail
        }
    }

    /// The trail of the service of ATN, which a visit there starts anew.
    pub open spec fn e85b_trail_at(self, pc: u16, cycle: u64) -> Trail {
        if self.e85b.reports(6, cycle > QUIET_CYCLES && pc == 0xE85B) {
            trail_of(80)
        } else {
            self.e85b_trail
        }
    }

    /// The trail after an interrupt, which is started where it is not under way.
    pub open spec fn irq_trail_at(self, pc: u16, bus: BusView) -> Trail {
        if self.irq_ack.reports(200, bus.irq() && in_ack_wait(pc)) && self.irq_trail.left == 0 {
            trail_of(500)
        } else {
            self.irq_trail
        }
    }

    /// Edges of ATN are looked for.
    pub open spec fn atn_watched(self, cycle: u64, bus: BusView) -> bool {
        self.atn_rise.hits < 10 && cycle > QUIET_ATN_CYCLES && bus.via1.iec is Some
    }

    /// The probes after a look at the drive.
    pub open spec fn after(self, pc: u16, cycle: u64, bus: BusView) -> DriveTrace {
        let late = cycle > QUIET_CYCLES;
        let atn = atn_is_low(bus);
        let in_cmd = in_command_loop(pc);
        let e85b = self.e85b.after(6, late && pc == 0xE85B);
        DriveTrace {
            atn_cmd: self.atn_cmd.after(200, late && in_cmd && atn, pc),
            cmd_loop: self.cmd_loop.after(50, late, true, in_cmd, false),
            ec00: self.ec00.after(15, late && pc == 0xEC00 && atn),
            df93: self.df93.after(15, late && pc == 0xDF93),
            df93_trail: self.df93_trail_at(pc, cycle).after(pc),
            ec98: self.ec98.after(3, late && pc == 0xEC98),
            e85b,
            e85b_trail: self.e85b_trail_at(pc, cycle).after(pc),
            e8d7: self.e8d7.after(6, e85b.hits > 0 && pc == 0xE8D7),
            e909: self.e909.after(40, late && pc == 0xE909),
            e87b: self.e87b.after(10_000, pc == 0xE87B),
            cmd_chan: self.cmd_chan.after(100, true, bus.ram[0x23A]),
            ch1_slot: self.ch1_slot.after(30, true, bus.ram[0x22C]),
            cmdbuf: self.cmdbuf.after(20, true, bus.ram[0x200]),
            talk: self.talk.after(5000, at_talk(pc)),
            clk_rel: self.clk_rel.after(200, pc == 0xE9B7),
            irq_ack: self.irq_ack.after(200, bus.irq() && in_ack_wait(pc)),
            irq_trail: self.irq_trail_at(pc, bus).after_cycle(pc),
            f2_ch1: self.f2_ch1.after(20, true, bus.ram[0xF3]),
            atn_rise: self.atn_rise.after(
                10,
                self.atn_watched(cycle, bus),
                self.atn_watched(cycle, bus),
                atn,
                true,
            ),
            zone: self.zone.after(500, late, in_cmd),
        }
    }

    /// With what a look at the drive reports of the command loop and the service of ATN.
    pub open spec fn command_events(
        self,
        so_far: Seq<DriveEvent>,
        pc: u16,
        cycle: u64,
        bus: BusView,
    ) -> Seq<DriveEvent> {
        let late = cycle > QUIET_CYCLES;
        let atn = atn_is_low(bus);
        let in_cmd = in_command_loop(pc);
        so_far + reported(
            self.atn_cmd.reports(200, late && in_cmd && atn, pc),
            DriveEvent::AtnCommand,
        ) + reported(
            self.cmd_loop.reports(50, late, in_cmd, false),
            DriveEvent::CommandLoopLeft,
        ) + reported(
            self.ec00.reports(15, late && pc == 0xEC00 && atn),
            DriveEvent::CommandEntry,
        ) + reported(
            self.df93.reports(15, late && pc == 0xDF93),
            DriveEvent::CommandProcessor,
        ) + reported(
            self.df93_trail_at(pc, cycle).reports(pc),
            DriveEvent::AfterCommandProcessor,
        ) + reported(
            self.ec98.reports(3, late && pc == 0xEC98),
            DriveEvent::IdleEntry,
        ) + reported(
            self.e85b.reports(6, late && pc == 0xE85B),
            DriveEvent::AtnService,
        ) + reported(
            self.e85b_trail_at(pc, cycle).reports(pc),
            DriveEvent::AfterAtnService,
        ) + reported(
            self.e8d7.reports(
                6,
                self.e85b.after(6, late && pc == 0xE85B).hits > 0 && pc == 0xE8D7,
            ),
            DriveEvent::AtnExit,
        ) + reported(
            self.e909.reports(40, late && pc == 0xE909),
            DriveEvent::ReadyCheck,
        ) + reported(
            self.e87b.reports(10_000, pc == 0xE87B),
            DriveEvent::ClkWait { cycles: (self.e87b.cycles + 1) as u32 },
        )
    }

    /// With what a look at the drive reports of its channels, of what it sends and of interrupts.
    pub open spec fn channel_events(
        self,
        so_far: Seq<DriveEvent>,
        pc: u16,
        cycle: u64,
        bus: BusView,
    ) -> Seq<DriveEvent> {
        let late = cycle > QUIET_CYCLES;
        let in_cmd = in_command_loop(pc);
        so_far + reported(
            self.cmd_chan.reports(100, true, bus.ram[0x23A]),
            DriveEvent::CommandChannel { from: self.cmd_chan.last, to: bus.ram[0x23A] },
        ) + reported(
            self.ch1_slot.reports(30, true, bus.ram[0x22C]),
            DriveEvent::ChannelOne { from: self.ch1_slot.last, to: bus.ram[0x22C] },
        ) + reported(
            self.cmdbuf.reports(20, true, bus.ram[0x200]),
            DriveEvent::CommandBuffer { from: self.cmdbuf.last, to: bus.ram[0x200] },
        ) + reported(
            self.talk.reports(5000, at_talk(pc)),
            DriveEvent::Talk,
        ) + reported(
            self.clk_rel.reports(200, pc == 0xE9B7),
            DriveEvent::ClkRelease,
        ) + reported(
            self.irq_ack.reports(200, bus.irq() && in_ack_wait(pc)),
            DriveEvent::IrqInAckWait,
        ) + reported(
            self.irq_trail_at(pc, bus).reports(pc),
            DriveEvent::AfterIrq,
        ) + reported(
            self.f2_ch1.reports(20, true, bus.ram[0xF3]),
            DriveEvent::ChannelOneFlags { from: self.f2_ch1.last, to: bus.ram[0xF3] },
        ) + reported(
            self.atn_rise.reports(10, self.atn_watched(cycle, bus), atn_is_low(bus), true),
            DriveEvent::AtnRise,
        ) + reported(
            self.zone.reports(500, late, in_cmd),
            DriveEvent::Zone { entered: in_cmd },
        )
    }

    /// What a look at the drive reports.
    pub open spec fn events(self, pc: u16, cycle: u64, bus: BusView) -> Seq<DriveEvent> {
        self.channel_events(self.command_events(seq![], pc, cycle, bus), pc, cycle, bus)
    }

    /// Probes that have seen nothing yet.
    pub fn new() -> (r: Self)
        ensures
            r == fresh_trace(),
    {
        DriveTrace {
            atn_cmd: WordWatch { last: 0xFFFF, hits: 0 },
            cmd_loop: EdgeWatch { last: false, hits: 0 },
            ec00: Tally { hits: 0 },
            df93: Tally { hits: 0 },
            df93_trail: Trail { left: 0, last: 0xFFFF },
            ec98: Tally { hits: 0 },
            e85b: Tally { hits: 0 },
            e85b_trail: Trail { left: 0, last: 0xFFFF },
            e8d7: Tally { hits: 0 },
            e909: Tally { hits: 0 },
            e87b: StuckWatch { cycles: 0, reported: false },
            cmd_chan: ByteWatch { last: 0xFF, hits: 0 },
            ch1_slot: ByteWatch { last: 0xFF, hits: 0 },
            cmdbuf: ByteWatch { last: 0, hits: 0 },
            talk: Tally { hits: 0 },
            clk_rel: Tally { hits: 0 },
            irq_ack: Tally { hits: 0 },
            irq_trail: Trail { left: 0, last: 0 },
            f2_ch1: ByteWatch { last: 0, hits: 0 },
            atn_rise: EdgeWatch { last: false, hits: 0 },
            zone: FlagWatch { last: false, hits: 0 },
        }
    }

    /// Looks at the command loop and the service of ATN.
    fn observe_commands(
        &mut self,
        pc: u16,
        cycle: u64,
        bus: &DriveBus,
        events: &mut Vec<DriveEvent>,
    )
        requires
            old(self).e87b.cycles < u32::MAX,
        ensures
            final(events)@ == old(self).command_events(old(events)@, pc, cycle, bus@),
            ({
                let all = old(self).after(pc, cycle, bus@);
                *final(self) == (DriveTrace {
                    atn_cmd: all.atn_cmd,
                    cmd_loop: all.cmd_loop,
                    ec00: all.ec00,
                    df93: all.df93,
                    df93_trail: all.df93_trail,
                    ec98: all.ec98,
                    e85b: all.e85b,
                    e85b_trail: all.e85b_trail,
                    e8d7: all.e8d7,
                    e909: all.e909,
                    e87b: all.e87b,
                    ..*old(self)
                })
            }),
    {
        let late = cycle > QUIET_CYCLES;
        let in_cmd = 0xEC00 <= pc && pc <= 0xEC80;
        let atn = atn_low(bus);
        let due = self.atn_cmd.note(200, late && in_cmd && atn, pc);
        report(events, due, DriveEvent::AtnCommand);
        let due = self.cmd_loop.note(50, late, true, in_cmd, false);
        report(events, due, DriveEvent::CommandLoopLeft);
        let due = self.ec00.note(15, late && pc == 0xEC00 && atn);
        report(events, due, DriveEvent::CommandEntry);
        let due = self.df93.note(15, late && pc == 0xDF93);
        report(events, due, DriveEvent::CommandProcessor);
        if due {
            self.df93_trail.start(60);
        }
        let due = self.df93_trail.note(pc);
        report(events, due, DriveEvent::AfterCommandProcessor);
        let due = self.ec98.note(3, late && pc == 0xEC98);
        report(events, due, DriveEvent::IdleEntry);
        let due = self.e85b.note(6, late && pc == 0xE85B);
        report(events, due, DriveEvent::AtnService);
        if due {
            self.e85b_trail.start(80);
        }
        let due = self.e85b_trail.note(pc);
        report(events, due, DriveEvent::AfterAtnService);
        let due = self.e8d7.note(6, self.e85b.hits > 0 && pc == 0xE8D7);
        report(events, due, DriveEvent::AtnExit);
        let due = self.e909.note(40, late && pc == 0xE909);
        report(events, due, DriveEvent::ReadyCheck);
        let cycles: u32 = self.e87b.cycles + 1;
        let due = self.e87b.note(10_000, pc == 0xE87B);
        report(events, due, DriveEvent::ClkWait { cycles });
    }

    /// Looks at the channels, at what is sent and at interrupts.
    fn observe_channels(
        &mut self,
        pc: u16,
        cycle: u64,
        bus: &DriveBus,
        events: &mut Vec<DriveEvent>,
    )
        ensures
            final(events)@ == old(self).channel_events(old(events)@, pc, cycle, bus@),
            ({
                let all = old(self).after(pc, cycle, bus@);
                *final(self) == (DriveTrace {
                    cmd_chan: all.cmd_chan,
                    ch1_slot: all.ch1_slot,
                    cmdbuf: all.cmdbuf,
                    talk: all.talk,
                    clk_rel: all.clk_rel,
                    irq_ack: all.irq_ack,
                    irq_trail: all.irq_trail,
                    f2_ch1: all.f2_ch1,
                    atn_rise: all.atn_rise,
                    zone: all.zone,
                    ..*old(self)
                })
            }),
    {
        let late = cycle > QUIET_CYCLES;
        let in_cmd = 0xEC00 <= pc && pc <= 0xEC80;
        let ram = bus.ram();
        let from: u8 = self.cmd_chan.last;
        let to: u8 = ram[0x23A];
        let due = self.cmd_chan.note(100, true, to);
        report(events, due, DriveEvent::CommandChannel { from, to });
        let from: u8 = self.ch1_slot.last;
        let to: u8 = ram[0x22C];
        let due = self.ch1_slot.note(30, true, to);
        report(events, due, DriveEvent::ChannelOne { from, to });
        let from: u8 = self.cmdbuf.last;
        let to: u8 = ram[0x200];
        let due = self.cmdbuf.note(20, true, to);
        report(events, due, DriveEvent::CommandBuffer { from, to });
        let talking = match pc {
            0xE913 | 0xE931 | 0xEA4E | 0xDCFA | 0xE142 | 0xE14F => true,
            _ => false,
        };
        let due = self.talk.note(5000, talking);
        report(events, due, DriveEvent::Talk);
        let due = self.clk_rel.note(200, pc == 0xE9B7);
        report(events, due, DriveEvent::ClkRelease);
        let waiting = 0xE987 <= pc && pc <= 0xE990;
        let due = self.irq_ack.note(200, bus.irq_asserted() && waiting);
        report(events, due, DriveEvent::IrqInAckWait);
        if due && self.irq_trail.left == 0 {
            self.irq_trail.start(500);
        }
        let due = self.irq_trail.note_cycle(pc);
        report(events, due, DriveEvent::AfterIrq);
        let from: u8 = self.f2_ch1.last;
        let to: u8 = ram[0xF3];
        let due = self.f2_ch1.note(20, true, to);
        report(events, due, DriveEvent::ChannelOneFlags { from, to });
        let watched = self.atn_rise.hits < 10 && cycle > QUIET_ATN_CYCLES
            && bus.via1().iec_opt().is_some();
        let due = self.atn_rise.note(10, watched, watched, atn_low(bus), true);
        report(events, due, DriveEvent::AtnRise);
        let due = self.zone.note(500, late, in_cmd);
        report(events, due, DriveEvent::Zone { entered: in_cmd });
    }

    /// Looks at the drive before the processor goes on at `pc`.
    pub fn observe(&mut self, pc: u16, cycle: u64, bus: &DriveBus) -> (events: Vec<DriveEvent>)
        requires
            old(self).e87b.cycles < u32::MAX,
        ensures
            events@ == old(self).events(pc, cycle, bus@),
            *final(self) == old(self).after(pc, cycle, bus@),
    {
        let mut events: Vec<DriveEvent> = Vec::new();
        self.observe_commands(pc, cycle, bus, &mut events);
        self.observe_channels(pc, cycle, bus, &mut events);
        events
    }
}

/// ATN is low on the bus that is attached.
fn atn_low(bus: &DriveBus) -> (r: bool)
    ensures
        r == atn_is_low(bus@),
{
    match bus.via1().iec_opt() {
        Some(b) => b.atn_low(),
        None => false,
    }
}

/// Appends an event, if it is due.
fn report(events: &mut Vec<DriveEvent>, due: bool, e: DriveEvent)
    ensures
        final(events)@ == old(events)@ + reported(due, e),
{
    if due {
        events.push(e);
    }
    assert(events@ =~= old(events)@ + reported(due, e));
}

/// A drive as it was when it reported something.
pub struct Scene {
    pub pc: u16,
    pub cycle: u64,
    pub irq: bool,
    pub ifr1: u8,
    pub ier1: u8,
    pub ifr2: u8,
    pub ier2: u8,
    pub iec: Option<IecBus>,
    pub ram: Vec<u8>,
}

impl Scene {
    /// It shows the drive as it is.
    pub open spec fn shows(self, pc: u16, cycle: u64, bus: BusView) -> bool {
        &&& self.pc == pc
        &&& self.cycle == cycle
        &&& self.irq == bus.irq()
        &&& self.ifr1 == bus.via1.regs[0xD]
        &&& self.ier1 == bus.via1.regs[0xE]
        &&& self.ifr2 == bus.via2.regs[0xD]
        &&& self.ier2 == bus.via2.regs[0xE]
        &&& self.iec == bus.via1.iec
        &&& self.ram@ == bus.ram
    }

    /// Keeps the drive as it is.
    pub fn of(pc: u16, cycle: u64, bus: &DriveBus) -> (r: Self)
        ensures
            r.shows(pc, cycle, bus@),
    {
        let from = bus.ram();
        let mut ram: Vec<u8> = Vec::new();
        let mut i: usize = 0;
        while i < 2048
            invariant
                i <= 2048,
                from@.len() == 2048,
                ram@ =~= from@.take(i as int),
            decreases 2048 - i,
        {
            ram.push(from[i]);
            i = i + 1;
        }
        assert(ram@ =~= bus@.ram);
        Scene {
            pc,
            cycle,
            irq: bus.irq_asserted(),
            ifr1: bus.via1().ifr(),
            ier1: bus.via1().ier(),
            ifr2: bus.via2().ifr(),
            ier2: bus.via2().ier(),
            iec: bus.via1().iec_opt(),
            ram,
        }
    }

    /// The flags of the current channel, `$FF` where there is no such channel.
    pub fn channel_flags(&self) -> (r: u8)
        requires
            self.ram@.len() == 2048,
        ensures
            r == (if self.ram@[0x82] < 16 {
                self.ram@[0xF2 + self.ram@[0x82]]
            } else {
                0xFF
            }),
    {
        let ch: usize = self.ram[0x82] as usize;
        if ch < 16 {
            self.ram[0xF2 + ch]
        } else {
            0xFF
        }
    }

    /// The kind of the file on the current channel, `$FF` where there is no such channel.
    pub fn channel_type(&self) -> (r: u8)
        requires
            self.ram@.len() == 2048,
        ensures
            r == (if self.ram@[0x82] < 16 {
                self.ram@[0xEC + self.ram@[0x82]]
            } else {
                0xFF
            }),
    {
        let ch: usize = self.ram[0x82] as usize;
        if ch < 16 {
            self.ram[0xEC + ch]
        } else {
            0xFF
        }
    }

    /// The byte that the current channel sends next.
    pub fn channel_byte(&self) -> (r: u8)
        requires
            self.ram@.len() == 2048,
        ensures
            r == self.ram@[0x23E + self.ram@[0x82]],
    {
        let ch: usize = self.ram[0x82] as usize;
        self.ram[0x23E + ch]
    }
}

/// No probe but the one for a drive that is stuck reports beyond its limit: the number of reports
/// that a probe has made is part of it, and stays within the limit.
pub open spec fn within_limits(t: DriveTrace) -> bool {
    &&& t.atn_cmd.hits <= 200
    &&& t.cmd_loop.hits <= 50
    &&& t.ec00.hits <= 15
    &&& t.df93.hits <= 15
    &&& t.df93_trail.left <= 60
    &&& t.ec98.hits <= 3
    &&& t.e85b.hits <= 6
    &&& t.e85b_trail.left <= 80
    &&& t.e8d7.hits <= 6
    &&& t.e909.hits <= 40
    &&& t.cmd_chan.hits <= 100
    &&& t.ch1_slot.hits <= 30
    &&& t.cmdbuf.hits <= 20
    &&& t.talk.hits <= 5000
    &&& t.clk_rel.hits <= 200
    &&& t.irq_ack.hits <= 200
    &&& t.irq_trail.left <= 500
    &&& t.f2_ch1.hits <= 20
    &&& t.atn_rise.hits <= 10
    &&& t.zone.hits <= 500
}

/// The probes keep to their limits, whatever they look at.
pub proof fn probes_keep_to_their_limits(t: DriveTrace, pc: u16, cycle: u64, bus: BusView)
    requires
        within_limits(t),
    ensures
        within_limits(fresh_trace()),
        within_limits(t.after(pc, cycle, bus)),
{
}

/// For the first part of a run only changes of RAM, the routine that sends, interrupts and a stuck
/// drive are reported.
pub proof fn first_cycles_are_quiet(t: DriveTrace, pc: u16, cycle: u64, bus: BusView)
    requires
        cycle <= QUIET_CYCLES,
        t.df93_trail.left == 0,
        t.e85b_trail.left == 0,
        t.e85b.hits == 0,
        t.e87b.cycles + 1 < 10_000 || pc != 0xE87B,
    ensures
        t.command_events(seq![], pc, cycle, bus) == Seq::<DriveEvent>::empty(),
        t.after(pc, cycle, bus).df93_trail.left == 0,
        t.after(pc, cycle, bus).e85b_trail.left == 0,
        t.after(pc, cycle, bus).e85b.hits == 0,
{
    assert(t.command_events(seq![], pc, cycle, bus) =~= Seq::<DriveEvent>::empty());
}

/// What is appended is in the list, and what was in it stays.
broadcast proof fn lemma_reported(so_far: Seq<DriveEvent>, due: bool, e: DriveEvent, x: DriveEvent)
    ensures
        #[trigger] (so_far + reported(due, e)).contains(x) <==> so_far.contains(x) || (due && x == e),
{
    let all = so_far + reported(due, e);
    if so_far.contains(x) {
        let i = choose|i: int| 0 <= i < so_far.len() && so_far[i] == x;
        assert(all[i] == x);
    }
    if due && x == e {
        assert(all[so_far.len() as int] == x);
    }
    if all.contains(x) {
        let i = choose|i: int| 0 <= i < all.len() && all[i] == x;
        if i < so_far.len() {
            assert(so_far[i] == x);
        }
    }
}

/// An event of the command loop or the service of ATN is due.
pub open spec fn command_event_due(
    t: DriveTrace,
    pc: u16,
    cycle: u64,
    bus: BusView,
    e: DriveEvent,
) -> bool {
    let late = cycle > 77_000_000;
    let atn = bus.via1.iec matches Some(b) && b.c64_atn;
    let in_loop = 0xEC00 <= pc <= 0xEC80;
    match e {
        DriveEvent::AtnCommand => late && in_loop && atn && t.atn_cmd.hits < 200 && pc
            != t.atn_cmd.last,
        DriveEvent::CommandLoopLeft => late && t.cmd_loop.last && !in_loop && t.cmd_loop.hits < 50,
        DriveEvent::CommandEntry => late && pc == 0xEC00 && atn && t.ec00.hits < 15,
        DriveEvent::CommandProcessor => late && pc == 0xDF93 && t.df93.hits < 15,
        DriveEvent::AfterCommandProcessor => (late && pc == 0xDF93 && t.df93.hits < 15) || (
        t.df93_trail.left > 0 && pc != t.df93_trail.last),
        DriveEvent::IdleEntry => late && pc == 0xEC98 && t.ec98.hits < 3,
        DriveEvent::AtnService => late && pc == 0xE85B && t.e85b.hits < 6,
        DriveEvent::AfterAtnService => (late && pc == 0xE85B && t.e85b.hits < 6) || (t.e85b_trail.left
            > 0 && pc != t.e85b_trail.last),
        DriveEvent::AtnExit => pc == 0xE8D7 && t.e85b.hits > 0 && t.e8d7.hits < 6,
        DriveEvent::ReadyCheck => late && pc == 0xE909 && t.e909.hits < 40,
        DriveEvent::ClkWait { cycles } => pc == 0xE87B && !t.e87b.reported && cycles == t.e87b.cycles
            + 1 && cycles >= 10_000,
        _ => false,
    }
}

/// An event of the channels, of what is sent or of interrupts is due.
pub open spec fn channel_event_due(
    t: DriveTrace,
    pc: u16,
    cycle: u64,
    bus: BusView,
    e: DriveEvent,
) -> bool {
    let late = cycle > 77_000_000;
    let atn = bus.via1.iec matches Some(b) && b.c64_atn;
    let irq = bus.via1.irq_pending || bus.via2.irq_pending;
    let in_loop = 0xEC00 <= pc <= 0xEC80;
    let in_wait = 0xE987 <= pc <= 0xE990;
    match e {
        DriveEvent::CommandChannel { from, to } => from == t.cmd_chan.last && to == bus.ram[0x23A]
            && from != to && t.cmd_chan.hits < 100,
        DriveEvent::ChannelOne { from, to } => from == t.ch1_slot.last && to == bus.ram[0x22C] && from
            != to && t.ch1_slot.hits < 30,
        DriveEvent::CommandBuffer { from, to } => from == t.cmdbuf.last && to == bus.ram[0x200]
            && from != to && t.cmdbuf.hits < 20,
        DriveEvent::Talk => (pc == 0xE913 || pc == 0xE931 || pc == 0xEA4E || pc == 0xDCFA || pc
            == 0xE142 || pc == 0xE14F) && t.talk.hits < 5000,
        DriveEvent::ClkRelease => pc == 0xE9B7 && t.clk_rel.hits < 200,
        DriveEvent::IrqInAckWait => irq && in_wait && t.irq_ack.hits < 200,
        DriveEvent::AfterIrq => (t.irq_trail.left > 0 && pc != t.irq_trail.last) || (irq && in_wait
            && t.irq_ack.hits < 200 && t.irq_trail.left == 0),
        DriveEvent::ChannelOneFlags { from, to } => from == t.f2_ch1.last && to == bus.ram[0xF3]
            && from != to && t.f2_ch1.hits < 20,
        DriveEvent::AtnRise => cycle > 88_000_000 && atn && !t.atn_rise.last && t.atn_rise.hits < 10,
        DriveEvent::Zone { entered } => late && entered == in_loop && entered != t.zone.last
            && t.zone.hits < 500,
        _ => false,
    }
}

/// Of the command loop and the service of ATN exactly what is due is reported.
proof fn lemma_command_events(
    t: DriveTrace,
    so_far: Seq<DriveEvent>,
    pc: u16,
    cycle: u64,
    bus: BusView,
    e: DriveEvent,
)
    requires
        t.e87b.cycles < u32::MAX,
    ensures
        t.command_events(so_far, pc, cycle, bus).contains(e) <==> so_far.contains(e)
            || command_event_due(t, pc, cycle, bus, e),
{
    broadcast use lemma_reported;

}

/// Of the channels, of what is sent and of interrupts exactly what is due is reported.
proof fn lemma_channel_events(
    t: DriveTrace,
    so_far: Seq<DriveEvent>,
    pc: u16,
    cycle: u64,
    bus: BusView,
    e: DriveEvent,
)
    ensures
        t.channel_events(so_far, pc, cycle, bus).contains(e) <==> so_far.contains(e)
            || channel_event_due(t, pc, cycle, bus, e),
{
    broadcast use lemma_reported;

}

/// An event is reported exactly if the drive is where it belongs, when it belongs there, and it has
/// not been reported too often.
pub proof fn drive_events_are_reported_when_due(
    t: DriveTrace,
    pc: u16,
    cycle: u64,
    bus: BusView,
    e: DriveEvent,
)
    requires
        t.e87b.cycles < u32::MAX,
    ensures
        t.events(pc, cycle, bus).contains(e) <==> command_event_due(t, pc, cycle, bus, e)
            || channel_event_due(t, pc, cycle, bus, e),
{
    let none = Seq::<DriveEvent>::empty();
    lemma_command_events(t, none, pc, cycle, bus, e);
    lemma_channel_events(t, t.command_events(none, pc, cycle, bus), pc, cycle, bus, e);
}

/// 1 for an event that is reported, 0 for one that is not.
pub open spec fn counted(events: Seq<DriveEvent>, e: DriveEvent) -> int {
    if events.contains(e) {
        1
    } else {
        0
    }
}

/// Every report counts towards the limit of its probe, and nothing else does.
#[verifier::spinoff_prover]
#[verifier::rlimit(60)]
pub proof fn drive_reports_are_counted(t: DriveTrace, pc: u16, cycle: u64, bus: BusView)
    requires
        t.e87b.cycles < u32::MAX,
    ensures
        ({
            let t2 = t.after(pc, cycle, bus);
            let all = t.events(pc, cycle, bus);
            &&& t2.atn_cmd.hits == t.atn_cmd.hits + counted(all, DriveEvent::AtnCommand)
            &&& t2.cmd_loop.hits == t.cmd_loop.hits + counted(all, DriveEvent::CommandLoopLeft)
            &&& t2.ec00.hits == t.ec00.hits + counted(all, DriveEvent::CommandEntry)
            &&& t2.df93.hits == t.df93.hits + counted(all, DriveEvent::CommandProcessor)
            &&& t2.ec98.hits == t.ec98.hits + counted(all, DriveEvent::IdleEntry)
            &&& t2.e85b.hits == t.e85b.hits + counted(all, DriveEvent::AtnService)
            &&& t2.e8d7.hits == t.e8d7.hits + counted(all, DriveEvent::AtnExit)
            &&& t2.e909.hits == t.e909.hits + counted(all, DriveEvent::ReadyCheck)
            &&& t2.cmd_chan.hits == t.cmd_chan.hits + counted(all, DriveEvent::CommandChannel { from: t.cmd_chan.last, to: bus.ram[0x23A] })
            &&& t2.ch1_slot.hits == t.ch1_slot.hits + counted(all, DriveEvent::ChannelOne { from: t.ch1_slot.last, to: bus.ram[0x22C] })
            &&& t2.cmdbuf.hits == t.cmdbuf.hits + counted(all, DriveEvent::CommandBuffer { from: t.cmdbuf.last, to: bus.ram[0x200] })
            &&& t2.talk.hits == t.talk.hits + counted(all, DriveEvent::Talk)
            &&& t2.clk_rel.hits == t.clk_rel.hits + counted(all, DriveEvent::ClkRelease)
            &&& t2.irq_ack.hits == t.irq_ack.hits + counted(all, DriveEvent::IrqInAckWait)
            &&& t2.f2_ch1.hits == t.f2_ch1.hits + counted(all, DriveEvent::ChannelOneFlags { from: t.f2_ch1.last, to: bus.ram[0xF3] })
            &&& t2.atn_rise.hits == t.atn_rise.hits + counted(all, DriveEvent::AtnRise)
            &&& t2.zone.hits == t.zone.hits + counted(all, DriveEvent::Zone { entered: 0xEC00 <= pc <= 0xEC80 })
        }),
{
    drive_events_are_reported_when_due(t, pc, cycle, bus, DriveEvent::AtnCommand);
    drive_events_are_reported_when_due(t, pc, cycle, bus, DriveEvent::CommandLoopLeft);
    drive_events_are_reported_when_due(t, pc, cycle, bus, DriveEvent::CommandEntry);
    drive_events_are_reported_when_due(t, pc, cycle, bus, DriveEvent::CommandProcessor);
    drive_events_are_reported_when_due(t, pc, cycle, bus, DriveEvent::IdleEntry);
    drive_events_are_reported_when_due(t, pc, cycle, bus, DriveEvent::AtnService);
    drive_events_are_reported_when_due(t, pc, cycle, bus, DriveEvent::AtnExit);
    drive_events_are_reported_when_due(t, pc, cycle, bus, DriveEvent::ReadyCheck);
    drive_events_are_reported_when_due(t, pc, cycle, bus, DriveEvent::CommandChannel { from: t.cmd_chan.last, to: bus.ram[0x23A] });
    drive_events_are_reported_when_due(t, pc, cycle, bus, DriveEvent::ChannelOne { from: t.ch1_slot.last, to: bus.ram[0x22C] });
    drive_events_are_reported_when_due(t, pc, cycle, bus, DriveEvent::CommandBuffer { from: t.cmdbuf.last, to: bus.ram[0x200] });
    drive_events_are_reported_when_due(t, pc, cycle, bus, DriveEvent::Talk);
    drive_events_are_reported_when_due(t, pc, cycle, bus, DriveEvent::ClkRelease);
    drive_events_are_reported_when_due(t, pc, cycle, bus, DriveEvent::IrqInAckWait);
    drive_events_are_reported_when_due(t, pc, cycle, bus, DriveEvent::ChannelOneFlags { from: t.f2_ch1.last, to: bus.ram[0xF3] });
    drive_events_are_reported_when_due(t, pc, cycle, bus, DriveEvent::AtnRise);
    drive_events_are_reported_when_due(t, pc, cycle, bus, DriveEvent::Zone { entered: 0xEC00 <= pc <= 0xEC80 });
}

/// What has been reported as a change is not reported again while it stays, and the time at `$E87B`
/// is counted look by look.
#[verifier::spinoff_prover]
#[verifier::rlimit(60)]
pub proof fn same_place_is_not_reported_twice(
    t: DriveTrace,
    pc: u16,
    cycle: u64,
    bus: BusView,
    e: DriveEvent,
)
    requires
        t.e87b.cycles < u32::MAX - 1,
        pc != 0xFFFF,
        e is AtnCommand || e is CommandLoopLeft || e is CommandChannel || e is ChannelOne
            || e is CommandBuffer || e is ChannelOneFlags || e is AtnRise || e is Zone,
    ensures
        !t.after(pc, cycle, bus).events(pc, cycle, bus).contains(e),
        pc == 0xE87B ==> t.after(pc, cycle, bus).e87b.cycles == t.e87b.cycles + 1,
        pc != 0xE87B ==> t.after(pc, cycle, bus).e87b.cycles == 0,
{
    drive_events_are_reported_when_due(t.after(pc, cycle, bus), pc, cycle, bus, e);
}

} // verus!
