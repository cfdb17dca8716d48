//! The drive's processor. Its instructions are run by the `emulator_6502` crate; when they are run,
//! and when an interrupt is taken instead, is decided here.
use vstd::prelude::*;

use emulator_6502::MOS6502;

use crate::bus::{processor_keeps, BusAccess, BusView, DriveBus};
use crate::via::word;

verus! {

/// The flag of the status register that keeps interrupts off.
pub const FLAG_I: u8 = 0x04;

/// The bit of the status register that is set where an interrupt pushes it.
pub const FLAG_UNUSED: u8 = 0x20;

/// The overflow flag of the status register.
pub const FLAG_V: u8 = 0x40;

/// The registers of a 6502.
#[derive(Debug, Clone, Copy, PartialEq, Eq, Structural)]
pub struct Registers {
    pub a: u8,
    pub x: u8,
    pub y: u8,
    pub pc: u16,
    pub sp: u8,
    pub status: u8,
}

/// A processor.
#[derive(Debug, Clone, Copy, PartialEq, Eq, Structural)]
pub struct Cpu {
    pub regs: Registers,
    /// Cycles that the instruction under way still takes.
    pub remaining: u8,
    /// An interrupt waits to be taken.
    pub irq_pending: bool,
}

/// What `MOS6502::cycle` makes of registers and a bus, where an instruction is to be run: the
/// registers, the cycles that the instruction takes beyond this one, and the accesses to the bus in
/// their order.
pub uninterp spec fn executed(regs: Registers, bus: BusView) -> (Registers, u8, Seq<BusAccess>);

/// A processor at power-on.
pub open spec fn fresh_cpu() -> Cpu {
    Cpu {
        regs: Registers { a: 0, x: 0, y: 0, pc: 0x0400, sp: 0xFD, status: 0x24 },
        remaining: 0,
        irq_pending: false,
    }
}

/// The opcodes that lock a 6502 up.
pub open spec fn locks_up(op: u8) -> bool {
    ||| op == 0x02
    ||| op == 0x12
    ||| op == 0x22
    ||| op == 0x32
    ||| op == 0x42
    ||| op == 0x52
    ||| op == 0x62
    ||| op == 0x72
    ||| op == 0x92
    ||| op == 0xB2
    ||| op == 0xD2
    ||| op == 0xF2
}

/// The opcodes that add X to an address of two bytes.
pub open spec fn indexed_by_x(op: u8) -> bool {
    op % 32 >= 0x1C && op != 0x9E && op != 0x9F && op != 0xBE && op != 0xBF
}

/// The bytes of an instruction. `BRK` counts for two: it is returned from behind the byte that
/// follows it.
pub open spec fn length(op: u8) -> int {
    let column = op % 32;
    if op == 0x20 || column == 0x19 || column == 0x1B || op % 16 >= 0x0C {
        3
    } else if op == 0x40 || op == 0x60 || column == 0x08 || column == 0x0A || column == 0x12
        || column == 0x18 || column == 0x1A || (column == 0x02 && op < 0x80) {
        1
    } else {
        2
    }
}

/// A place on the stack, `n` bytes above the stack pointer.
pub open spec fn stack_place(sp: u8, n: int) -> u16 {
    (0x100 + (sp + n) % 256) as u16
}

/// The next instruction can be run: it stays within the address space and does not lock the
/// processor up.
pub open spec fn can_execute(r: Registers, bus: BusView) -> bool {
    let op = bus.read_value(r.pc);
    let operand = word(bus.read_value((r.pc + 2) as u16), bus.read_value((r.pc + 1) as u16));
    let back = word(
        bus.read_value(stack_place(r.sp, 2)),
        bus.read_value(stack_place(r.sp, 1)),
    );
    &&& r.pc + length(op) <= 0xFFFF
    &&& !locks_up(op)
    &&& indexed_by_x(op) ==> operand + r.x <= 0xFFFF
    &&& op == 0x6C ==> operand != 0xFFFF
    &&& op == 0x60 ==> back != 0xFFFF
}

/// What the processor does on the bus when it takes an interrupt: it pushes where it was and its
/// status, and reads where to go.
pub open spec fn interrupt_accesses(r: Registers) -> Seq<BusAccess> {
    seq![
        BusAccess::Write { addr: stack_place(r.sp, 0), val: (r.pc / 256) as u8 },
        BusAccess::Write { addr: stack_place(r.sp, -1), val: (r.pc % 256) as u8 },
        BusAccess::Write { addr: stack_place(r.sp, -2), val: r.status | FLAG_UNUSED },
        BusAccess::Read { addr: 0xFFFE },
        BusAccess::Read { addr: 0xFFFF },
    ]
}

/// The registers after an interrupt was taken; `vector` is where it goes.
pub open spec fn interrupted(r: Registers, vector: u16) -> Registers {
    Registers {
        pc: vector,
        sp: ((r.sp - 3) % 256) as u8,
        status: r.status | FLAG_UNUSED | FLAG_I,
        ..r
    }
}

/// Where the interrupt vector in the ROM points.
pub open spec fn irq_vector(bus: BusView) -> u16 {
    word(bus.rom[0x3FFF], bus.rom[0x3FFE])
}

impl Cpu {
    /// An interrupt is taken in the next cycle.
    pub open spec fn takes_interrupt(self) -> bool {
        self.remaining == 0 && self.irq_pending && self.regs.status & FLAG_I == 0
    }

    /// The next cycle can be run.
    pub open spec fn can_run(self, bus: BusView) -> bool {
        self.remaining > 0 || self.takes_interrupt() || can_execute(self.regs, bus)
    }

    /// After a cycle: it belongs to the instruction under way, or an interrupt is taken, or the
    /// next instruction is run.
    pub open spec fn after_cycle(self, bus: BusView) -> Cpu {
        if self.remaining > 0 {
            Cpu { remaining: (self.remaining - 1) as u8, ..self }
        } else if self.takes_interrupt() {
            Cpu {
                regs: interrupted(self.regs, irq_vector(bus)),
                remaining: 6,
                irq_pending: false,
            }
        } else {
            let (regs, remaining, _) = executed(self.regs, bus);
            Cpu { regs, remaining, ..self }
        }
    }

    /// What the processor does on the bus in a cycle.
    pub open spec fn cycle_accesses(self, bus: BusView) -> Seq<BusAccess> {
        if self.remaining > 0 {
            seq![]
        } else if self.takes_interrupt() {
            interrupt_accesses(self.regs)
        } else {
            executed(self.regs, bus).2
        }
    }

    /// After a reset, with the address that the reset vector holds. An interrupt that waits goes on
    /// waiting.
    pub open spec fn after_reset(self, vector: u16) -> Cpu {
        Cpu {
            regs: Registers { a: 0, x: 0, y: 0, pc: vector, sp: 0xFD, status: 0x34 },
            remaining: 8,
            ..self
        }
    }
}

/// `MOS6502::cycle` on a processor with these registers and nothing pending, which runs the next
/// instruction: what comes of it is named, not stated. It depends on the registers and on what the
/// bus answers, and the bus changes by the processor's accesses alone. The crate computes addresses
/// and the cycles of an instruction with plain `+` and `-`, which a build with overflow checks does
/// not let wrap; so the bytes of the instruction, an address indexed by X, the vector of an
/// indirect jump and the address that `RTS` goes back to must lie within the address space, and the
/// instruction must take a cycle at all.
#[verifier::external_body]
fn execute(regs: Registers, bus: &mut DriveBus) -> (r: (Registers, u8))
    requires
        can_execute(regs, old(bus)@),
    ensures
        r.0 == executed(regs, old(bus)@).0,
        r.1 == executed(regs, old(bus)@).1,
        final(bus)@ == old(bus)@.run(executed(regs, old(bus)@).2),
{
    let mut cpu = MOS6502::new();
    cpu.set_accumulator(regs.a);
    cpu.set_x_register(regs.x);
    cpu.set_y_register(regs.y);
    cpu.set_program_counter(regs.pc);
    cpu.set_stack_pointer(regs.sp);
    cpu.set_status_register(regs.status);
    cpu.cycle(bus);
    let (a, x, y) = (cpu.get_accumulator(), cpu.get_x_register(), cpu.get_y_register());
    let (pc, sp) = (cpu.get_program_counter(), cpu.get_stack_pointer());
    let status = cpu.get_status_register();
    (Registers { a, x, y, pc, sp, status }, cpu.get_remaining_cycles())
}

/// `MOS6502::interrupt_request` and then `MOS6502::cycle` on a processor with these registers, whose
/// status lets interrupts through: the address and the status are pushed, with the unused bit of
/// the status set, interrupts are kept off, and the processor goes on where the vector at `$FFFE`
/// points. Of the seven cycles this was the first.
#[verifier::external_body]
fn interrupt(regs: Registers, bus: &mut DriveBus) -> (r: (Registers, u8))
    requires
        regs.status & FLAG_I == 0,
        old(bus)@.wf(),
    ensures
        r.0 == interrupted(regs, irq_vector(old(bus)@)),
        r.1 == 6,
        final(bus)@ == old(bus)@.run(interrupt_accesses(regs)),
{
    let mut cpu = MOS6502::new();
    cpu.set_accumulator(regs.a);
    cpu.set_x_register(regs.x);
    cpu.set_y_register(regs.y);
    cpu.set_program_counter(regs.pc);
    cpu.set_stack_pointer(regs.sp);
    cpu.set_status_register(regs.status);
    cpu.interrupt_request();
    cpu.cycle(bus);
    let (a, x, y) = (cpu.get_accumulator(), cpu.get_x_register(), cpu.get_y_register());
    let (pc, sp) = (cpu.get_program_counter(), cpu.get_stack_pointer());
    let status = cpu.get_status_register();
    (Registers { a, x, y, pc, sp, status }, cpu.get_remaining_cycles())
}

/// Two bytes as a 16-bit value.
fn join(hi: u8, lo: u8) -> (r: u16)
    ensures
        r == word(hi, lo),
{
    ((hi as u16) << 8) | (lo as u16)
}

/// The bytes of an instruction.
fn instruction_length(op: u8) -> (n: u16)
    ensures
        n == length(op),
{
    let column: u8 = op % 32;
    if op == 0x20 || column == 0x19 || column == 0x1B || op % 16 >= 0x0C {
        3
    } else if op == 0x40 || op == 0x60 || column == 0x08 || column == 0x0A || column == 0x12
        || column == 0x18 || column == 0x1A || (column == 0x02 && op < 0x80) {
        1
    } else {
        2
    }
}

/// Whether the next instruction can be run.
fn check_instruction(regs: Registers, bus: &DriveBus) -> (r: bool)
    ensures
        r == can_execute(regs, bus@),
{
    let pc: u16 = regs.pc;
    let op: u8 = bus.peek(pc);
    let len: u16 = instruction_length(op);
    if pc > 0xFFFF - len {
        return false;
    }
    match op {
        0x02 | 0x12 | 0x22 | 0x32 | 0x42 | 0x52 | 0x62 | 0x72 | 0x92 | 0xB2 | 0xD2 | 0xF2 => {
            return false;
        },
        _ => {},
    }
    if op == 0x60 {
        let lo: u8 = bus.peek(0x100 + regs.sp.wrapping_add(1) as u16);
        let hi: u8 = bus.peek(0x100 + regs.sp.wrapping_add(2) as u16);
        return join(hi, lo) != 0xFFFF;
    }
    if len < 3 {
        return true;
    }
    let operand: u16 = join(bus.peek(pc + 2), bus.peek(pc + 1));
    if op == 0x6C {
        return operand != 0xFFFF;
    }
    if op % 32 >= 0x1C && op != 0x9E && op != 0x9F && op != 0xBE && op != 0xBF {
        return operand <= 0xFFFF - regs.x as u16;
    }
    true
}

impl Cpu {
    /// A processor at power-on.
    pub fn new() -> (r: Self)
        ensures
            r == fresh_cpu(),
    {
        Cpu {
            regs: Registers { a: 0, x: 0, y: 0, pc: 0x0400, sp: 0xFD, status: 0x24 },
            remaining: 0,
            irq_pending: false,
        }
    }

    /// Resets the processor: it goes where the vector at `$FFFC` points.
    pub fn reset(&mut self, bus: &mut DriveBus)
        ensures
            *final(self) == old(self).after_reset(
                word(
                    old(bus)@.after_read(0xFFFC).read_value(0xFFFD),
                    old(bus)@.read_value(0xFFFC),
                ),
            ),
            final(bus)@ == old(bus)@.after_read(0xFFFC).after_read(0xFFFD),
    {
        let lo: u8 = bus.read_byte(0xFFFC);
        let hi: u8 = bus.read_byte(0xFFFD);
        self.regs = Registers { a: 0, x: 0, y: 0, pc: join(hi, lo), sp: 0xFD, status: 0x34 };
        self.remaining = 8;
    }

    /// Whether the next cycle can be run.
    pub fn check_run(&self, bus: &DriveBus) -> (r: bool)
        ensures
            r == self.can_run(bus@),
    {
        self.remaining > 0 || (self.irq_pending && self.regs.status & FLAG_I == 0)
            || check_instruction(self.regs, bus)
    }

    /// Runs a cycle.
    pub fn cycle(&mut self, bus: &mut DriveBus)
        requires
            old(bus)@.wf(),
            old(self).can_run(old(bus)@),
        ensures
            *final(self) == old(self).after_cycle(old(bus)@),
            final(bus)@ == old(bus)@.run(old(self).cycle_accesses(old(bus)@)),
            final(bus)@.wf(),
    {
        proof {
            processor_keeps(bus@, self.cycle_accesses(bus@));
        }
        if self.remaining > 0 {
            self.remaining = self.remaining - 1;
        } else if self.irq_pending && self.regs.status & FLAG_I == 0 {
            let (regs, remaining): (Registers, u8) = interrupt(self.regs, bus);
            self.regs = regs;
            self.remaining = remaining;
            self.irq_pending = false;
        } else {
            let (regs, remaining): (Registers, u8) = execute(self.regs, bus);
            self.regs = regs;
            self.remaining = remaining;
        }
    }
}

/// A processor in the middle of an instruction leaves the bus alone and only counts on.
pub proof fn instruction_under_way_is_left_alone(cpu: Cpu, bus: BusView)
    requires
        cpu.remaining > 0,
    ensures
        cpu.can_run(bus),
        bus.run(cpu.cycle_accesses(bus)) == bus,
        cpu.after_cycle(bus).regs == cpu.regs,
        cpu.after_cycle(bus).irq_pending == cpu.irq_pending,
        cpu.after_cycle(bus).remaining == cpu.remaining - 1,
{
}

/// An interrupt that is pushed can be gone back from: the address and the status are on the stack,
/// in the order in which `RTI` pulls them, and no second interrupt is taken before the status says
/// so.
pub proof fn interrupt_leaves_a_way_back(cpu: Cpu, bus: BusView)
    requires
        bus.wf(),
        cpu.takes_interrupt(),
    ensures
        ({
            let after = cpu.after_cycle(bus);
            let b = bus.run(cpu.cycle_accesses(bus));
            &&& b.read_value(stack_place(after.regs.sp, 1)) == cpu.regs.status | FLAG_UNUSED
            &&& b.read_value(stack_place(after.regs.sp, 2)) == cpu.regs.pc % 256
            &&& b.read_value(stack_place(after.regs.sp, 3)) == cpu.regs.pc / 256
            &&& after.regs.pc == irq_vector(bus)
            &&& !after.takes_interrupt()
            &&& after.regs.status & FLAG_I == FLAG_I
        }),
{
    let r = cpu.regs;
    let s = r.status;
    assert(((s | 0x20u8) | 0x04) & 0x04 == 0x04) by (bit_vector);
    let ops = interrupt_accesses(r);
    reveal_with_fuel(BusView::run, 6);
    assert(ops.drop_first()[0] == ops[1]);
    assert(ops.drop_first().drop_first()[0] == ops[2]);
    assert(ops.drop_first().drop_first().drop_first()[0] == ops[3]);
    assert(ops.drop_first().drop_first().drop_first().drop_first()[0] == ops[4]);
    let b1 = bus.after_write(stack_place(r.sp, 0), (r.pc / 256) as u8);
    let b2 = b1.after_write(stack_place(r.sp, -1), (r.pc % 256) as u8);
    let b3 = b2.after_write(stack_place(r.sp, -2), r.status | FLAG_UNUSED);
    assert(bus.run(ops) == b3);
}

/// An instruction that stays away from the end of memory can be run, unless it is one of the twelve
/// that lock the processor up, or the address that it indexes, jumps through or returns to is at the
/// end.
pub proof fn ordinary_instructions_can_be_run(r: Registers, bus: BusView)
    requires
        r.pc <= 0xFFFC,
        ({
            let op = bus.read_value(r.pc) as int;
            let operand = bus.read_value((r.pc + 1) as u16) + 256 * bus.read_value(
                (r.pc + 2) as u16,
            );
            let back = bus.read_value((0x100 + (r.sp + 1) % 256) as u16) + 256 * bus.read_value(
                (0x100 + (r.sp + 2) % 256) as u16,
            );
            &&& op % 32 != 0x12 && op != 0x02 && op != 0x22 && op != 0x42 && op != 0x62
            &&& op % 16 >= 0x0C ==> operand + r.x <= 0xFFFF && operand != 0xFFFF
            &&& back != 0xFFFF
        }),
    ensures
        can_execute(r, bus),
{
    crate::via::word_is_both_bytes(
        bus.read_value((r.pc + 2) as u16),
        bus.read_value((r.pc + 1) as u16),
    );
    crate::via::word_is_both_bytes(
        bus.read_value(stack_place(r.sp, 2)),
        bus.read_value(stack_place(r.sp, 1)),
    );
}

/// What cannot be run is not run: an opcode that locks the processor up, an instruction that does not
/// end before the end of memory, a jump through it and a return to it.
pub proof fn locked_up_instructions_cannot_be_run(r: Registers, bus: BusView)
    ensures
        ({
            let op = bus.read_value(r.pc) as int;
            &&& op == 0x02 || op == 0x22 || op == 0x42 || op == 0x62 || op == 0x12 || op == 0x32 || op
                == 0x52 || op == 0x72 || op == 0x92 || op == 0xB2 || op == 0xD2 || op == 0xF2
                ==> !can_execute(r, bus)
            &&& r.pc == 0xFFFF ==> !can_execute(r, bus)
            &&& can_execute(r, bus) && op % 16 >= 0x0C ==> r.pc <= 0xFFFC
        }),
{
}

/// An interrupt is taken between two instructions, where one waits and the status lets it through; it
/// takes seven cycles. A processor that is reset goes where the vector says after eight more cycles,
/// with interrupts off.
pub proof fn interrupts_are_taken_between_instructions(cpu: Cpu, bus: BusView, vector: u16)
    ensures
        cpu.takes_interrupt() <==> cpu.remaining == 0 && cpu.irq_pending && cpu.regs.status & 0x04
            == 0,
        cpu.takes_interrupt() ==> cpu.can_run(bus) && cpu.after_cycle(bus).remaining == 6
            && !cpu.after_cycle(bus).irq_pending && cpu.after_cycle(bus).regs.a == cpu.regs.a
            && cpu.after_cycle(bus).regs.x == cpu.regs.x && cpu.after_cycle(bus).regs.y == cpu.regs.y
            && cpu.after_cycle(bus).regs.sp == (cpu.regs.sp - 3) % 256,
        cpu.after_reset(vector).regs.pc == vector,
        cpu.after_reset(vector).remaining == 8,
        cpu.after_reset(vector).regs.sp == 0xFD,
        cpu.after_reset(vector).regs.status == 0x34,
{
}

/// Between instructions, where no interrupt is taken, the next instruction is run on the registers as
/// they are, and an interrupt that waits goes on waiting.
pub proof fn instructions_are_run_in_between(cpu: Cpu, bus: BusView)
    requires
        cpu.remaining == 0,
        !(cpu.irq_pending && cpu.regs.status & 0x04 == 0),
    ensures
        cpu.can_run(bus) <==> can_execute(cpu.regs, bus),
        cpu.after_cycle(bus).regs == executed(cpu.regs, bus).0,
        cpu.after_cycle(bus).remaining == executed(cpu.regs, bus).1,
        cpu.after_cycle(bus).irq_pending == cpu.irq_pending,
        cpu.cycle_accesses(bus) == executed(cpu.regs, bus).2,
{
}

/// A reset clears the registers of the processor, and leaves an interrupt waiting that waits.
pub proof fn reset_clears_the_registers(cpu: Cpu, vector: u16)
    ensures
        cpu.after_reset(vector).regs.a == 0,
        cpu.after_reset(vector).regs.x == 0,
        cpu.after_reset(vector).regs.y == 0,
        cpu.after_reset(vector).irq_pending == cpu.irq_pending,
        !fresh_cpu().irq_pending && fresh_cpu().remaining == 0,
        fresh_cpu().regs == (Registers { a: 0, x: 0, y: 0, pc: 0x0400, sp: 0xFD, status: 0x24 }),
{
}

/// An interrupt goes where the two bytes at `$FFFE` say, the low one first.
pub proof fn interrupts_go_where_the_vector_says(cpu: Cpu, bus: BusView)
    requires
        bus.wf(),
        cpu.takes_interrupt(),
    ensures
        cpu.after_cycle(bus).regs.pc == bus.read_value(0xFFFE) + 256 * bus.read_value(0xFFFF),
{
    crate::via::word_is_both_bytes(bus.rom[0x3FFF], bus.rom[0x3FFE]);
}

} // verus!
