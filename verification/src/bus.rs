//! The address space of the drive's processor.
//!
//! `$0000`-`$07FF` RAM, `$1800`-`$1BFF` the VIA on the serial bus, `$1C00`-`$1FFF` the VIA on the
//! disk, `$C000`-`$FFFF` ROM. Nothing answers elsewhere.
use vstd::prelude::*;

use emulator_6502::Interface6502;

use crate::d64::D64;
use crate::disk::{empty_disk, Disk};
use crate::iec::IecBus;
use crate::text::{decimal, push_decimal, push_text};
use crate::via::{
    computer_lines_are_kept, fresh_via, same_computer_side, via_stays_well_formed, OrbWrite, Via,
    ViaKind, ViaView,
};

verus! {

/// Bytes of RAM.
pub const RAM_SIZE: usize = 0x0800;

/// Bytes of ROM.
pub const ROM_SIZE: usize = 0x4000;

/// The text of the error on a ROM of `n` bytes.
pub open spec fn rom_size_text(n: nat) -> Seq<char> {
    "1541 ROM must be 16384 bytes, got "@ + decimal(n)
}

/// What the drive's processor sees.
pub struct DriveBus {
    ram: [u8; 2048],
    rom: [u8; 16384],
    rom_loaded: bool,
    via1: Via,
    via2: Via,
}

/// What a bus is.
pub struct BusView {
    pub ram: Seq<u8>,
    pub rom: Seq<u8>,
    pub rom_loaded: bool,
    pub via1: ViaView,
    pub via2: ViaView,
}

/// One access of the processor to the bus.
pub enum BusAccess {
    Read { addr: u16 },
    Write { addr: u16, val: u8 },
}

impl BusView {
    /// Sizes and wiring are what they are, and both VIAs are well formed.
    pub open spec fn wf(self) -> bool {
        &&& self.ram.len() == 2048
        &&& self.rom.len() == 16384
        &&& self.via1.wf()
        &&& self.via1.kind == ViaKind::Iec
        &&& self.via1.disk is None
        &&& self.via2.wf()
        &&& self.via2.kind == ViaKind::Disk
        &&& self.via2.disk is Some
    }

    /// What reading an address gives.
    pub open spec fn read_value(self, addr: u16) -> u8 {
        if addr <= 0x07FF {
            self.ram[addr as int]
        } else if 0x1800 <= addr <= 0x1BFF {
            self.via1.read_value(addr as int % 16)
        } else if 0x1C00 <= addr <= 0x1FFF {
            self.via2.read_value(addr as int % 16)
        } else if addr >= 0xC000 {
            self.rom[addr - 0xC000]
        } else {
            0xFF
        }
    }

    /// What reading an address leaves: only the VIAs notice.
    pub open spec fn after_read(self, addr: u16) -> BusView {
        if 0x1800 <= addr <= 0x1BFF {
            BusView { via1: self.via1.after_read(addr as int % 16), ..self }
        } else if 0x1C00 <= addr <= 0x1FFF {
            BusView { via2: self.via2.after_read(addr as int % 16), ..self }
        } else {
            self
        }
    }

    /// What writing an address does.
    pub open spec fn after_write(self, addr: u16, val: u8) -> BusView {
        if addr <= 0x07FF {
            BusView { ram: self.ram.update(addr as int, val), ..self }
        } else if 0x1800 <= addr <= 0x1BFF {
            BusView { via1: self.via1.after_write(addr as int % 16, val), ..self }
        } else if 0x1C00 <= addr <= 0x1FFF {
            BusView { via2: self.via2.after_write(addr as int % 16, val), ..self }
        } else {
            self
        }
    }

    /// What an access does.
    pub open spec fn accessed(self, a: BusAccess) -> BusView {
        match a {
            BusAccess::Read { addr } => self.after_read(addr),
            BusAccess::Write { addr, val } => self.after_write(addr, val),
        }
    }

    /// What a series of accesses does.
    pub open spec fn run(self, accesses: Seq<BusAccess>) -> BusView
        decreases accesses.len(),
    {
        if accesses.len() == 0 {
            self
        } else {
            self.accessed(accesses[0]).run(accesses.drop_first())
        }
    }

    /// With the serial bus in a given state.
    pub open spec fn with_iec(self, iec: IecBus) -> BusView {
        BusView { via1: ViaView { iec: Some(iec), ..self.via1 }, ..self }
    }

    /// With the trace of the VIAs switched.
    pub open spec fn traced(self, on: bool) -> BusView {
        BusView {
            via1: ViaView { trace: on, ..self.via1 },
            via2: ViaView { trace: on, ..self.via2 },
            ..self
        }
    }

    /// With the trace of the VIAs told where the processor is.
    pub open spec fn traced_at(self, pc: u16) -> BusView {
        BusView {
            via1: ViaView { trace_pc: pc, ..self.via1 },
            via2: ViaView { trace_pc: pc, ..self.via2 },
            ..self
        }
    }

    /// With what the VIAs noted handed out.
    pub open spec fn log_taken(self) -> BusView {
        BusView {
            via1: ViaView { orb_log: Seq::empty(), ..self.via1 },
            via2: ViaView { orb_log: Seq::empty(), ..self.via2 },
            ..self
        }
    }

    /// With a disk put in.
    pub open spec fn mounted(self, image: Seq<u8>) -> BusView {
        BusView {
            via2: ViaView {
                disk: match self.via2.disk {
                    Some(d) => Some(d.mounted(image)),
                    None => None,
                },
                ..self.via2
            },
            ..self
        }
    }

    /// With the disk turned for one cycle.
    pub open spec fn disk_turned(self) -> BusView {
        BusView { via2: self.via2.disk_turned(), ..self }
    }

    /// The disk has a byte ready.
    pub open spec fn byte_ready(self) -> bool {
        self.via2.disk matches Some(d) && d.byte_ready
    }

    /// After one cycle of both VIAs.
    pub open spec fn ticked(self) -> BusView {
        BusView { via1: self.via1.ticked(1), via2: self.via2.ticked(1), ..self }
    }

    /// A VIA asks for an interrupt.
    pub open spec fn irq(self) -> bool {
        self.via1.irq_pending || self.via2.irq_pending
    }
}

impl View for DriveBus {
    type V = BusView;

    closed spec fn view(&self) -> BusView {
        BusView {
            ram: self.ram@,
            rom: self.rom@,
            rom_loaded: self.rom_loaded,
            via1: self.via1@,
            via2: self.via2@,
        }
    }
}

/// A bus at power-on: no ROM, no disk, no serial bus.
pub open spec fn fresh_bus() -> BusView {
    BusView {
        ram: Seq::new(2048, |i: int| 0u8),
        rom: Seq::new(16384, |i: int| 0u8),
        rom_loaded: false,
        via1: fresh_via(ViaKind::Iec),
        via2: ViaView { disk: Some(empty_disk()), ..fresh_via(ViaKind::Disk) },
    }
}

/// A cycle keeps what a VIA is wired to.
proof fn lemma_ticked_wiring(v: ViaView)
    ensures
        v.ticked(1).kind == v.kind,
        v.ticked(1).disk is Some == v.disk is Some,
{
    reveal(ViaView::ticked);
}

/// The register of a VIA that an address selects.
fn via_register(addr: u16) -> (r: u8)
    ensures
        r & 0x0F == addr as int % 16,
{
    let r: u8 = (addr & 0x0F) as u8;
    assert(((addr & 0x0F) as u8) & 0x0F == addr % 16) by (bit_vector);
    r
}

impl DriveBus {
    /// A bus at power-on.
    pub fn new() -> (r: Self)
        ensures
            r@ == fresh_bus(),
            r@.wf(),
    {
        let mut via2 = Via::new(ViaKind::Disk);
        via2.set_disk(Disk::new_shared());
        let r = DriveBus {
            ram: [0u8; 2048],
            rom: [0u8; 16384],
            rom_loaded: false,
            via1: Via::new(ViaKind::Iec),
            via2,
        };
        assert(r@.ram =~= fresh_bus().ram);
        assert(r@.rom =~= fresh_bus().rom);
        r
    }

    /// Puts the ROM in place; it must have the right size.
    pub fn load_rom(&mut self, bytes: &[u8]) -> (r: Result<(), String>)
        ensures
            match r {
                Ok(_) => bytes@.len() == ROM_SIZE && final(self)@ == (BusView {
                    rom: bytes@,
                    rom_loaded: true,
                    ..old(self)@
                }),
                Err(e) => bytes@.len() != ROM_SIZE && e@ == rom_size_text(bytes@.len())
                    && final(self)@ == old(self)@,
            },
            old(self)@.wf() ==> final(self)@.wf(),
    {
        if bytes.len() != ROM_SIZE {
            let mut e = String::new();
            push_text(&mut e, "1541 ROM must be 16384 bytes, got ");
            push_decimal(&mut e, bytes.len());
            assert(e@ =~= rom_size_text(bytes@.len()));
            return Err(e);
        }
        let mut rom: [u8; 16384] = [0u8; 16384];
        let mut i: usize = 0;
        while i < ROM_SIZE
            invariant
                i <= 16384,
                bytes@.len() == 16384,
                forall|k: int| 0 <= k < i ==> #[trigger] rom@[k] == bytes@[k],
            decreases 16384 - i,
        {
            rom[i] = bytes[i];
            i = i + 1;
        }
        self.rom = rom;
        self.rom_loaded = true;
        assert(self@.rom =~= bytes@);
        Ok(())
    }

    /// The RAM.
    pub fn ram(&self) -> (r: &[u8; 2048])
        ensures
            r@ == self@.ram,
    {
        &self.ram
    }

    /// A ROM is in place.
    pub fn rom_loaded(&self) -> (r: bool)
        ensures
            r == self@.rom_loaded,
    {
        self.rom_loaded
    }

    /// The VIA on the serial bus.
    pub fn via1(&self) -> (r: &Via)
        ensures
            r@ == self@.via1,
    {
        &self.via1
    }

    /// The VIA on the disk.
    pub fn via2(&self) -> (r: &Via)
        ensures
            r@ == self@.via2,
    {
        &self.via2
    }

    /// Attaches the serial bus, or puts it into another state.
    pub fn set_iec(&mut self, iec: IecBus)
        ensures
            final(self)@ == old(self)@.with_iec(iec),
            old(self)@.wf() ==> final(self)@.wf(),
    {
        self.via1.set_iec(iec);
    }

    /// Switches the trace of both VIAs.
    pub fn set_trace(&mut self, on: bool)
        ensures
            final(self)@ == old(self)@.traced(on),
            old(self)@.wf() ==> final(self)@.wf(),
    {
        self.via1.set_trace(on);
        self.via2.set_trace(on);
    }

    /// Tells the trace of both VIAs where the processor is.
    pub fn set_trace_pc(&mut self, pc: u16)
        ensures
            final(self)@ == old(self)@.traced_at(pc),
            old(self)@.wf() ==> final(self)@.wf(),
    {
        self.via1.set_trace_pc(pc);
        self.via2.set_trace_pc(pc);
    }

    /// Hands out what the VIAs noted of writes to their port B, that on the serial bus first.
    pub fn take_orb_log(&mut self) -> (log: (Vec<OrbWrite>, Vec<OrbWrite>))
        ensures
            log.0@ == old(self)@.via1.orb_log,
            log.1@ == old(self)@.via2.orb_log,
            final(self)@ == old(self)@.log_taken(),
            old(self)@.wf() ==> final(self)@.wf(),
    {
        (self.via1.take_orb_log(), self.via2.take_orb_log())
    }

    /// Puts a disk in.
    pub fn mount(&mut self, image: D64)
        ensures
            final(self)@ == old(self)@.mounted(image@),
            old(self)@.wf() ==> final(self)@.wf(),
    {
        self.via2.mount(image);
    }

    /// Turns the disk for one cycle; tells whether a byte is ready.
    pub fn rotate_disk(&mut self) -> (ready: bool)
        requires
            old(self)@.wf(),
        ensures
            final(self)@ == old(self)@.disk_turned(),
            ready == final(self)@.byte_ready(),
            final(self)@.wf(),
    {
        self.via2.rotate_disk()
    }

    /// Lets one cycle pass in both VIAs.
    pub fn tick(&mut self)
        ensures
            final(self)@ == old(self)@.ticked(),
            old(self)@.wf() ==> final(self)@.wf(),
    {
        let ghost before = self@;
        self.via1.tick(1);
        self.via2.tick(1);
        proof {
            lemma_ticked_wiring(before.via1);
            lemma_ticked_wiring(before.via2);
        }
    }

    /// Resets both VIAs.
    pub fn reset_chips(&mut self)
        ensures
            final(self)@ == (BusView {
                via1: old(self)@.via1.after_reset(),
                via2: old(self)@.via2.after_reset(),
                ..old(self)@
            }),
            old(self)@.wf() ==> final(self)@.wf(),
    {
        self.via1.reset();
        self.via2.reset();
    }

    /// A VIA asks for an interrupt.
    pub fn irq_asserted(&self) -> (r: bool)
        ensures
            r == self@.irq(),
    {
        self.via1.irq_pending() || self.via2.irq_pending()
    }

    /// What reading an address would give.
    pub fn peek(&self, addr: u16) -> (val: u8)
        ensures
            val == self@.read_value(addr),
    {
        if addr <= 0x07FF {
            self.ram[addr as usize]
        } else if 0x1800 <= addr && addr <= 0x1BFF {
            self.via1.peek(via_register(addr))
        } else if 0x1C00 <= addr && addr <= 0x1FFF {
            self.via2.peek(via_register(addr))
        } else if addr >= 0xC000 {
            self.rom[(addr - 0xC000) as usize]
        } else {
            0xFF
        }
    }

    /// Reads an address.
    pub fn read_byte(&mut self, addr: u16) -> (val: u8)
        ensures
            val == old(self)@.read_value(addr),
            final(self)@ == old(self)@.after_read(addr),
            old(self)@.wf() ==> final(self)@.wf(),
    {
        proof {
            if self@.wf() {
                lemma_accessed(self@, BusAccess::Read { addr });
            }
        }
        if addr <= 0x07FF {
            self.ram[addr as usize]
        } else if 0x1800 <= addr && addr <= 0x1BFF {
            self.via1.read(via_register(addr))
        } else if 0x1C00 <= addr && addr <= 0x1FFF {
            self.via2.read(via_register(addr))
        } else if addr >= 0xC000 {
            self.rom[(addr - 0xC000) as usize]
        } else {
            0xFF
        }
    }

    /// Writes an address.
    pub fn write_byte(&mut self, addr: u16, val: u8)
        ensures
            final(self)@ == old(self)@.after_write(addr, val),
            old(self)@.wf() ==> final(self)@.wf(),
    {
        proof {
            if self@.wf() {
                lemma_accessed(self@, BusAccess::Write { addr, val });
            }
        }
        if addr <= 0x07FF {
            self.ram[addr as usize] = val;
        } else if 0x1800 <= addr && addr <= 0x1BFF {
            self.via1.write(via_register(addr), val);
        } else if 0x1C00 <= addr && addr <= 0x1FFF {
            self.via2.write(via_register(addr), val);
        }
    }
}

/// The processor's way to the bus.
impl Interface6502 for DriveBus {
    fn read(&mut self, addr: u16) -> (val: u8)
        ensures
            val == old(self)@.read_value(addr),
            final(self)@ == old(self)@.after_read(addr),
    {
        self.read_byte(addr)
    }

    fn write(&mut self, addr: u16, val: u8)
        ensures
            final(self)@ == old(self)@.after_write(addr, val),
    {
        self.write_byte(addr, val);
    }
}

/// What the processor can never do through the bus: it changes neither the ROM nor what the
/// computer does on the serial bus, nor the image in the drive, nor what is wired to what.
pub open spec fn kept_by_processor(a: BusView, b: BusView) -> bool {
    &&& b.rom == a.rom
    &&& b.rom_loaded == a.rom_loaded
    &&& same_computer_side(a.via1.iec, b.via1.iec)
    &&& same_computer_side(a.via2.iec, b.via2.iec)
    &&& b.via1.kind == a.via1.kind
    &&& b.via2.kind == a.via2.kind
    &&& b.via1.disk is Some == a.via1.disk is Some
    &&& match (a.via2.disk, b.via2.disk) {
        (Some(x), Some(y)) => x.image == y.image,
        (None, None) => true,
        _ => false,
    }
}

/// One access keeps the bus well formed and what the processor cannot change.
proof fn lemma_accessed(b: BusView, a: BusAccess)
    requires
        b.wf(),
    ensures
        b.accessed(a).wf(),
        kept_by_processor(b, b.accessed(a)),
{
    let (at, val) = match a {
        BusAccess::Read { addr } => (addr, 0u8),
        BusAccess::Write { addr, val } => (addr, val),
    };
    via_stays_well_formed(b.via1, at as int % 16, val);
    via_stays_well_formed(b.via2, at as int % 16, val);
    computer_lines_are_kept(b.via1, at as int % 16, val, 0);
    computer_lines_are_kept(b.via2, at as int % 16, val, 0);
}

/// Whatever the processor does on the bus, the bus stays well formed, and ROM, image, wiring and
/// the computer's side of the serial bus stay what they were.
pub proof fn processor_keeps(b: BusView, accesses: Seq<BusAccess>)
    requires
        b.wf(),
    ensures
        b.run(accesses).wf(),
        kept_by_processor(b, b.run(accesses)),
    decreases accesses.len(),
{
    if accesses.len() > 0 {
        lemma_accessed(b, accesses[0]);
        processor_keeps(b.accessed(accesses[0]), accesses.drop_first());
    }
}

/// A byte written to RAM is what is read there next, and no other byte of RAM has changed.
pub proof fn ram_reads_back(b: BusView, addr: u16, other: u16, val: u8)
    requires
        b.wf(),
        addr < RAM_SIZE,
        other < RAM_SIZE,
        other != addr,
    ensures
        b.after_write(addr, val).read_value(addr) == val,
        b.after_write(addr, val).read_value(other) == b.read_value(other),
{
}

/// ROM and addresses at which nothing answers read the same whatever was written.
pub proof fn rom_and_open_bus_ignore_writes(b: BusView, addr: u16, at: u16, val: u8)
    requires
        b.wf(),
        at >= 0xC000 || 0x0800 <= at < 0x1800 || 0x2000 <= at < 0xC000,
    ensures
        b.after_write(addr, val).read_value(at) == b.read_value(at),
        b.after_write(at, val) == b,
        at < 0xC000 ==> b.read_value(at) == 0xFF,
{
}

/// The registers of a VIA repeat every 16 bytes through its block of addresses.
pub proof fn via_registers_repeat(b: BusView, addr: u16, val: u8)
    requires
        b.wf(),
        0x1800 <= addr < 0x1FF0,
        addr as int / 0x400 == (addr + 16) / 0x400,
    ensures
        b.read_value(addr) == b.read_value((addr + 16) as u16),
        b.after_read(addr) == b.after_read((addr + 16) as u16),
        b.after_write(addr, val) == b.after_write((addr + 16) as u16, val),
{
}

/// The addresses reach the chips: the sixteen registers of the VIA on the serial bus fill `$1800` to
/// `$1BFF`, those of the VIA on the disk `$1C00` to `$1FFF`, again and again. What is read or written
/// there goes to that VIA and to nothing else.
pub proof fn addresses_reach_their_via(b: BusView, r: int, k: int, val: u8)
    requires
        b.wf(),
        0 <= r < 16,
        0 <= k < 64,
    ensures
        ({
            let one = (0x1800 + 16 * k + r) as u16;
            let two = (0x1C00 + 16 * k + r) as u16;
            &&& b.read_value(one) == b.via1.read_value(r)
            &&& b.after_read(one) == (BusView { via1: b.via1.after_read(r), ..b })
            &&& b.after_write(one, val) == (BusView { via1: b.via1.after_write(r, val), ..b })
            &&& b.read_value(two) == b.via2.read_value(r)
            &&& b.after_read(two) == (BusView { via2: b.via2.after_read(r), ..b })
            &&& b.after_write(two, val) == (BusView { via2: b.via2.after_write(r, val), ..b })
        }),
{
    let one = (0x1800 + 16 * k + r) as u16;
    let two = (0x1C00 + 16 * k + r) as u16;
    assert(one as int % 16 == r && two as int % 16 == r);
}

/// Memory is read where it is: RAM from `$0000`, ROM from `$C000`; and reading it changes nothing. A
/// write to RAM changes nothing but RAM.
pub proof fn memory_is_read_where_it_is(b: BusView, addr: u16, val: u8)
    requires
        b.wf(),
    ensures
        addr < 0x0800 ==> b.read_value(addr) == b.ram[addr as int] && b.after_read(addr) == b
            && b.after_write(addr, val) == (BusView { ram: b.ram.update(addr as int, val), ..b }),
        addr >= 0xC000 ==> b.read_value(addr) == b.rom[addr - 0xC000] && b.after_read(addr) == b,
{
}

/// Accesses are made one after the other.
pub proof fn accesses_are_made_in_order(b: BusView, a: Seq<BusAccess>, more: Seq<BusAccess>)
    ensures
        b.run(a + more) == b.run(a).run(more),
        more.len() == 1 ==> b.run(more) == b.accessed(more[0]),
        more.len() == 0 ==> b.run(more) == b,
    decreases a.len(),
{
    reveal_with_fuel(BusView::run, 2);
    if a.len() == 0 {
        assert(a + more =~= more);
    } else {
        accesses_are_made_in_order(b.accessed(a[0]), a.drop_first(), more);
        assert((a + more).drop_first() =~= a.drop_first() + more);
    }
    if more.len() == 1 {
        assert(more.drop_first() =~= Seq::empty());
    }
}

/// An interrupt is asked for exactly when one of the VIAs asks for it, and a byte is ready exactly
/// when the disk has one.
pub proof fn either_via_asks_for_interrupts(b: BusView)
    requires
        b.wf(),
    ensures
        b.irq() <==> b.via1.irq_pending || b.via2.irq_pending,
        b.byte_ready() <==> b.via2.disk->Some_0.byte_ready,
{
}

/// In a cycle both VIAs count one and the disk turns by one; nothing else changes.
pub proof fn both_vias_and_the_disk_share_the_clock(b: BusView)
    requires
        b.wf(),
    ensures
        b.ticked() == (BusView { via1: b.via1.ticked(1), via2: b.via2.ticked(1), ..b }),
        b.disk_turned() == (BusView {
            via2: ViaView { disk: Some(b.via2.disk->Some_0.rotated(1)), ..b.via2 },
            ..b
        }),
{
}

/// Wiring the bus up, tracing it and putting a disk in change what they are for and nothing else.
pub proof fn wiring_changes_only_its_part(b: BusView, iec: IecBus, on: bool, pc: u16, image: Seq<u8>)
    requires
        b.wf(),
    ensures
        b.with_iec(iec) == (BusView { via1: ViaView { iec: Some(iec), ..b.via1 }, ..b }),
        b.traced(on).via1.trace == on && b.traced(on).via2.trace == on,
        b.traced_at(pc).via1.trace_pc == pc && b.traced_at(pc).via2.trace_pc == pc,
        b.log_taken().via1.orb_log.len() == 0 && b.log_taken().via2.orb_log.len() == 0,
        b.mounted(image) == (BusView {
            via2: ViaView { disk: Some(b.via2.disk->Some_0.mounted(image)), ..b.via2 },
            ..b
        }),
        b.traced(on).ram == b.ram && b.traced(on).rom == b.rom && b.traced_at(pc).ram == b.ram,
        b.traced(on).via1.regs == b.via1.regs && b.traced(on).via2.regs == b.via2.regs,
        b.traced(on).via1.iec == b.via1.iec && b.traced(on).via2.disk == b.via2.disk,
        b.log_taken().via1.regs == b.via1.regs && b.log_taken().via2.disk == b.via2.disk,
        b.log_taken().via1.iec == b.via1.iec && b.log_taken().ram == b.ram,
{
}

} // verus!
