use emulator_6502::MOS6502;
use rust64::bus::DriveBus;
use rust64::d64::D64;
use rust64::drive::Drive1541;
use rust64::drive_trace::{DriveEvent, Scene};
use rust64::iec::IecBus;
use rust64::image::build_image;
use rust64::via::PortBEffect;

/// A ROM with a program at `$C000`, an interrupt routine at `$D000`, and vectors to both.
fn rom(program: &[u8], irq: &[u8]) -> Vec<u8> {
    let mut rom = vec![0xEAu8; 16384];
    rom[..program.len()].copy_from_slice(program);
    rom[0x1000..0x1000 + irq.len()].copy_from_slice(irq);
    rom[0x3FFC] = 0x00;
    rom[0x3FFD] = 0xC0;
    rom[0x3FFE] = 0x00;
    rom[0x3FFF] = 0xD0;
    rom
}

fn drive(program: &[u8]) -> Drive1541 {
    let (d, r) = Drive1541::new(&rom(program, &[0x40]));
    assert_eq!(r, Ok(()));
    d
}

fn run(d: &mut Drive1541, n: usize) {
    for _ in 0..n {
        let r = d.step();
        assert!(!r.stalled);
    }
}

#[test]
fn drive_without_a_rom_stands_still() {
    let mut d = Drive1541::disabled();
    assert!(!d.enabled());
    let pc = d.pc();
    for _ in 0..100 {
        let r = d.step();
        assert!(!r.stalled && r.events.is_empty() && r.scene.is_none());
    }
    assert_eq!(d.pc(), pc);
    assert_eq!(d.cycle_count(), 0);
}

#[test]
fn drive_with_a_bad_rom_is_off() {
    let (d, r) = Drive1541::new(&[0; 100]);
    assert_eq!(r, Err("1541 ROM must be 16384 bytes, got 100".to_string()));
    assert!(!d.enabled());
    assert!(!d.bus().rom_loaded());
}

#[test]
fn fresh_processor_stands_at_its_start() {
    assert_eq!(Drive1541::disabled().pc(), 0x0400);
}

#[test]
fn drive_starts_where_the_vector_says() {
    let d = drive(&[0x4C, 0x00, 0xC0]);
    assert!(d.enabled());
    assert_eq!(d.pc(), 0xC000);
}

#[test]
fn program_runs_and_stores() {
    // LDA #$42, STA $0200, JMP *
    let mut d = drive(&[0xA9, 0x42, 0x8D, 0x00, 0x02, 0x4C, 0x05, 0xC0]);
    // The reset takes eight cycles.
    run(&mut d, 8);
    assert_eq!(d.pc(), 0xC000);
    run(&mut d, 1);
    assert_eq!(d.pc(), 0xC002);
    run(&mut d, 2);
    assert_eq!(d.bus().ram()[0x200], 0x42);
    assert_eq!(d.cycle_count(), 11);
    run(&mut d, 100);
    assert_eq!(d.pc(), 0xC005);
    assert_eq!(d.cycle_count(), 111);
}

#[test]
fn reset_starts_again() {
    let mut d = drive(&[0xA9, 0x42, 0x4C, 0x00, 0xC0]);
    run(&mut d, 20);
    d.reset();
    assert_eq!(d.pc(), 0xC000);
    assert_eq!(d.cycle_count(), 0);
    d.reset();
    assert_eq!(d.pc(), 0xC000);
}

#[test]
fn interrupts_reach_the_program() {
    // Timer 1 of VIA 1 runs out after 20 cycles; the routine stores X and reads the timer.
    let program = [
        0xA2, 0x77, 0xA9, 0xC0, 0x8D, 0x0E, 0x18, 0xA9, 0x14, 0x8D, 0x04, 0x18, 0xA9, 0x00, 0x8D, 0x05,
        0x18, 0x58, 0x4C, 0x12, 0xC0,
    ];
    let irq = [0x8E, 0x00, 0x03, 0xAD, 0x04, 0x18, 0x40];
    let (mut d, _) = Drive1541::new(&rom(&program, &irq));
    run(&mut d, 30);
    assert_eq!(d.bus().ram()[0x300], 0x00);
    run(&mut d, 60);
    assert_eq!(d.bus().ram()[0x300], 0x77);
    assert_eq!(d.pc(), 0xC012);
}

#[test]
fn interrupts_wait_while_they_are_masked() {
    // As above, but without CLI.
    let program = [
        0xA2, 0x77, 0xA9, 0xC0, 0x8D, 0x0E, 0x18, 0xA9, 0x14, 0x8D, 0x04, 0x18, 0xA9, 0x00, 0x8D, 0x05,
        0x18, 0xEA, 0x4C, 0x12, 0xC0,
    ];
    let irq = [0x8E, 0x00, 0x03, 0xAD, 0x04, 0x18, 0x40];
    let (mut d, _) = Drive1541::new(&rom(&program, &irq));
    run(&mut d, 200);
    assert_eq!(d.bus().ram()[0x300], 0x00);
    assert!(d.bus().irq_asserted());
}

#[test]
fn byte_that_comes_ready_sets_overflow() {
    // Port B as output, motor on, CLV, then wait for the flag and store a byte.
    let program = [
        0xA9, 0x6F, 0x8D, 0x02, 0x1C, 0xA9, 0x04, 0x8D, 0x00, 0x1C, 0xB8, 0x50, 0xFE, 0xA9, 0x01, 0x8D,
        0x10, 0x03, 0x4C, 0x12, 0xC0,
    ];
    let mut d = drive(&program);
    run(&mut d, 400);
    assert_eq!(d.bus().ram()[0x310], 0);
    assert_eq!(d.pc(), 0xC00B);
    match D64::from_bytes(build_image("T", &[1, 8, 0x60])) {
        Ok(image) => d.mount_d64(image),
        Err(_) => panic!("refused"),
    }
    run(&mut d, 400);
    assert_eq!(d.bus().ram()[0x310], 1);
}

#[test]
fn disk_code_runs_faster() {
    // JMP $F000, where a loop stands.
    let mut r = rom(&[0x4C, 0x00, 0xF0], &[0x40]);
    r[0x3000] = 0x4C;
    r[0x3001] = 0x00;
    r[0x3002] = 0xF0;
    let (mut d, _) = Drive1541::new(&r);
    run(&mut d, 8);
    assert_eq!(d.cycle_count(), 8);
    run(&mut d, 1);
    assert_eq!(d.cycle_count(), 9 + 512);
    run(&mut d, 1);
    assert_eq!(d.cycle_count(), 9 + 512 + 513);
}

#[test]
fn what_cannot_be_run_stops_the_drive() {
    // An opcode that locks up; a load from beyond the end of memory; a return to its end.
    let programs: [&[u8]; 4] = [
        &[0x02],
        &[0xA2, 0xFF, 0xBD, 0xFF, 0xFF],
        &[0xA9, 0xFF, 0x48, 0x48, 0x60],
        &[0x6C, 0xFF, 0xFF],
    ];
    for program in programs {
        let mut d = drive(program);
        let mut stalled = false;
        for _ in 0..40 {
            stalled = d.step().stalled;
        }
        assert!(stalled);
        let count = d.cycle_count();
        assert!(d.step().stalled);
        assert_eq!(d.cycle_count(), count);
    }
}

#[test]
fn short_instructions_run_up_to_the_end_of_memory() {
    // JMP $FFFE, where a NOP stands.
    let mut last = rom(&[0x4C, 0xFE, 0xFF], &[0x40]);
    last[0x3FFE] = 0xEA;
    // JMP $FFFD, where a CPY #$EA stands.
    let mut before = rom(&[0x4C, 0xFD, 0xFF], &[0x40]);
    before[0x3FFE] = 0xEA;
    for bytes in [last, before] {
        let (mut d, r) = Drive1541::new(&bytes);
        assert_eq!(r, Ok(()));
        let mut stalled = false;
        for _ in 0..40 {
            stalled = d.step().stalled;
        }
        assert!(stalled);
        assert_eq!(d.pc(), 0xFFFF);
    }
}

#[test]
fn indexed_loads_within_memory_run() {
    // LDX #$10, LDA $FFE0,X, STA $0300, JMP *
    let mut d = drive(&[0xA2, 0x10, 0xBD, 0xE0, 0xFF, 0x8D, 0x00, 0x03, 0x4C, 0x08, 0xC0]);
    run(&mut d, 60);
    assert_eq!(d.bus().ram()[0x300], 0xEA);
    assert_eq!(d.pc(), 0xC008);
}

#[test]
fn subroutines_return() {
    // JSR $C010, LDA #$33, STA $0301, JMP *
    let mut program = vec![0x20, 0x10, 0xC0, 0xA9, 0x33, 0x8D, 0x01, 0x03, 0x4C, 0x08, 0xC0];
    program.resize(16, 0xEA);
    program.push(0x60);
    let mut d = drive(&program);
    run(&mut d, 60);
    assert_eq!(d.bus().ram()[0x301], 0x33);
}

#[test]
fn changes_of_the_command_buffer_are_reported() {
    let mut d = drive(&[0xA9, 0x4D, 0x8D, 0x00, 0x02, 0x4C, 0x05, 0xC0]);
    let mut seen: Vec<DriveEvent> = Vec::new();
    let mut scene: Option<Scene> = None;
    for _ in 0..40 {
        let r = d.step();
        if r.events.contains(&DriveEvent::CommandBuffer { from: 0, to: 0x4D }) {
            scene = r.scene;
        }
        seen.extend(r.events);
    }
    assert_eq!(
        seen,
        vec![
            DriveEvent::CommandChannel { from: 0xFF, to: 0 },
            DriveEvent::ChannelOne { from: 0xFF, to: 0 },
            DriveEvent::CommandBuffer { from: 0, to: 0x4D },
        ]
    );
    match scene {
        Some(s) => {
            assert_eq!(s.ram[0x200], 0x4D);
            assert_eq!(s.ram.len(), 2048);
            assert_eq!(s.iec, None);
            assert!(!s.irq);
            assert_eq!(s.channel_flags(), s.ram[0xF2]);
            assert_eq!(s.channel_type(), s.ram[0xEC]);
            assert_eq!(s.channel_byte(), s.ram[0x23E]);
        }
        None => panic!("no scene"),
    }
}

#[test]
fn waiting_for_clk_is_reported_once() {
    let mut r = rom(&[0x4C, 0x7B, 0xE8], &[0x40]);
    r[0x287B] = 0x4C;
    r[0x287C] = 0x7B;
    r[0x287D] = 0xE8;
    let (mut d, _) = Drive1541::new(&r);
    let mut reports = 0;
    for _ in 0..25000 {
        for e in d.step().events {
            if let DriveEvent::ClkWait { cycles } = e {
                assert_eq!(cycles, 10000);
                reports += 1;
            }
        }
    }
    assert_eq!(reports, 1);
    assert!(d.clk_wait_cycles() > 10000);
}

#[test]
fn interrupt_waits_for_the_port_to_be_read() {
    // The interrupt is pending while the processor loops in the routine that reads the port twice.
    let program = [
        0xA9, 0xC0, 0x8D, 0x0E, 0x18, 0xA9, 0x14, 0x8D, 0x04, 0x18, 0xA9, 0x00, 0x8D, 0x05, 0x18, 0x58,
        0x4C, 0xC0, 0xE9,
    ];
    let irq = [0xA9, 0x99, 0x8D, 0x00, 0x03, 0x40];
    let mut r = rom(&program, &irq);
    // NOP, NOP, JMP $E9C0: the loop stays in the routine.
    r[0x29C0] = 0xEA;
    r[0x29C1] = 0xEA;
    r[0x29C2] = 0x4C;
    r[0x29C3] = 0xC0;
    r[0x29C4] = 0xE9;
    let (mut d, _) = Drive1541::new(&r);
    run(&mut d, 500);
    assert!(d.bus().irq_asserted());
    assert_eq!(d.bus().ram()[0x300], 0);
}

#[test]
fn computer_side_is_what_the_computer_makes_of_it() {
    // Pull DATA and CLK over and over.
    let program = [
        0xA9, 0x1A, 0x8D, 0x02, 0x18, 0xA9, 0x0A, 0x8D, 0x00, 0x18, 0xA9, 0x00, 0x8D, 0x00, 0x18, 0x4C,
        0x05, 0xC0,
    ];
    let mut d = drive(&program);
    let mut b = IecBus::new_shared();
    b.c64_atn = true;
    b.c64_data = true;
    d.set_iec(b);
    let mut pulled = false;
    for _ in 0..200 {
        d.step();
        match d.iec() {
            Some(b) => {
                assert!(b.c64_atn && !b.c64_clk && b.c64_data);
                pulled = pulled || b.drive_clk;
            }
            None => panic!("no bus"),
        }
    }
    assert!(pulled);
}

#[test]
fn port_writes_are_traced_with_their_place() {
    let program = [
        0xA9, 0x1A, 0x8D, 0x02, 0x18, 0xA9, 0x0A, 0x8D, 0x00, 0x18, 0x4C, 0x0A, 0xC0,
    ];
    let mut d = drive(&program);
    d.set_iec(IecBus::new_shared());
    d.set_trace(true);
    run(&mut d, 60);
    let (log, disk) = d.take_orb_log();
    assert!(disk.is_empty());
    assert_eq!(log.len(), 1);
    assert_eq!((log[0].val, log[0].pc), (0x0A, 0xC007));
    assert_eq!(log[0].effect, PortBEffect::Serial { data: true, clk: true, atna: false });
    assert!(d.take_orb_log().0.is_empty());
}

/// Runs a drive beside a processor that is kept from cycle to cycle.
fn compare(rom: &[u8], cycles: usize) {
    let (mut d, _) = Drive1541::new(rom);
    let mut bus = DriveBus::new();
    assert_eq!(bus.load_rom(rom), Ok(()));
    bus.reset_chips();
    let mut cpu = MOS6502::new();
    cpu.reset(&mut bus);
    for _ in 0..cycles {
        d.step();
        if bus.rotate_disk() {
            cpu.set_status_register(cpu.get_status_register() | 0x40);
        }
        bus.tick();
        bus.set_trace_pc(cpu.get_program_counter());
        if bus.irq_asserted() {
            cpu.interrupt_request();
        }
        cpu.cycle(&mut bus);
        assert_eq!(d.pc(), cpu.get_program_counter());
    }
    assert!(d.bus().ram()[..] == bus.ram()[..]);
}

#[test]
fn processor_runs_as_one_that_is_kept() {
    // Fill a page by a loop with a subroutine, while timer 1 interrupts.
    let mut program = vec![
        0xA9, 0x40, 0x8D, 0x0B, 0x18, 0xA9, 0xC0, 0x8D, 0x0E, 0x18, 0xA9, 0x25, 0x8D, 0x04, 0x18, 0xA9,
        0x00, 0x8D, 0x05, 0x18, 0x58, 0xA2, 0x00, 0x8A, 0x20, 0x30, 0xC0, 0x9D, 0x00, 0x04, 0xE8, 0xD0,
        0xF6, 0x4C, 0x15, 0xC0,
    ];
    program.resize(0x30, 0xEA);
    // ASL, EOR #$5A, PHP, PLP, ADC $10, RTS
    program.extend([0x0A, 0x49, 0x5A, 0x08, 0x28, 0x65, 0x10, 0x60]);
    // INC $10, PHA, LDA $1804, PLA, RTI
    let irq = [0xE6, 0x10, 0x48, 0xAD, 0x04, 0x18, 0x68, 0x40];
    compare(&rom(&program, &irq), 20000);
}

#[test]
fn masked_interrupt_is_taken_when_it_is_let_through() {
    // The timer runs out while interrupts are off; CLI and SEI let it through once in each round.
    let program = [
        0xA9, 0xC0, 0x8D, 0x0E, 0x18, 0xA9, 0x40, 0x8D, 0x0B, 0x18, 0xA9, 0x30, 0x8D, 0x04, 0x18, 0xA9,
        0x00, 0x8D, 0x05, 0x18, 0xEA, 0xEA, 0x58, 0xEA, 0x78, 0xEA, 0xEA, 0x4C, 0x14, 0xC0,
    ];
    let irq = [0xE6, 0x11, 0x48, 0xAD, 0x04, 0x18, 0x68, 0x40];
    let r = rom(&program, &irq);
    compare(&r, 5000);
    let (mut d, _) = Drive1541::new(&r);
    run(&mut d, 5000);
    assert!(d.bus().ram()[0x11] > 10);
}
