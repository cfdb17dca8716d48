use rust64::bus::DriveBus;
use rust64::d64::D64;
use rust64::disk::{Disk, GAP_BYTE};
use rust64::iec::IecBus;
use rust64::image::build_image;
use rust64::via::{PortBEffect, Via, ViaKind};

fn image() -> D64 {
    match D64::from_bytes(build_image("TEST", &[0x01, 0x08, 0x60])) {
        Ok(d) => d,
        Err(_) => panic!("refused"),
    }
}

fn spinning() -> Disk {
    let mut d = Disk::new_shared();
    d.mount(image());
    d.set_motor(true);
    d
}

#[test]
fn bus_lines_are_wired_or() {
    let mut b = IecBus::new_shared();
    assert!(!b.atn_low() && !b.clk_low() && !b.data_low());
    b.c64_clk = true;
    assert!(b.clk_low());
    b.c64_clk = false;
    b.drive_clk = true;
    assert!(b.clk_low());
    b.drive_data = true;
    assert!(b.data_low());
    assert_eq!(IecBus::default(), IecBus::new_shared());
}

#[test]
fn drive_that_has_not_acknowledged_atn_pulls_data() {
    let mut b = IecBus::new_shared();
    b.c64_atn = true;
    assert!(b.atn_low());
    assert!(b.data_low());
    b.drive_atna = true;
    assert!(!b.data_low());
}

#[test]
fn disk_turns_one_byte_per_period() {
    let mut d = spinning();
    d.set_density(0);
    // A sync mark comes first, in which no byte is ready.
    assert!(d.sync_under_head());
    d.rotate(31);
    assert!(!d.byte_ready());
    for _ in 0..5 {
        d.rotate(32);
    }
    // Five bytes of sync mark are past, the header has begun.
    assert!(!d.sync_under_head());
    assert!(d.byte_ready());
    d.clear_byte_ready();
    assert!(!d.byte_ready());
}

#[test]
fn header_follows_the_sync_mark() {
    let mut d = spinning();
    d.set_track(18);
    d.set_density(3);
    let mut bytes: Vec<u8> = Vec::new();
    for _ in 0..16 {
        bytes.push(d.current_byte());
        d.rotate(26);
    }
    assert_eq!(&bytes[0..5], &[0xFF; 5]);
    assert_eq!(bytes[5], 0x52);
}

#[test]
fn revolution_comes_back() {
    let mut d = spinning();
    d.set_track(1);
    d.set_density(0);
    let mut first: Vec<u8> = Vec::new();
    for _ in 0..21 * 362 {
        first.push(d.current_byte());
        d.rotate(32);
    }
    for k in 0..400usize {
        assert_eq!(d.current_byte(), first[k]);
        d.rotate(32);
    }
    assert!(first.contains(&GAP_BYTE));
}

#[test]
fn rotation_adds_up_over_calls() {
    let mut a = spinning();
    let mut b = spinning();
    a.rotate(1000);
    for _ in 0..1000 {
        b.rotate(1);
    }
    assert_eq!(a.current_byte(), b.current_byte());
    assert_eq!(a.byte_ready(), b.byte_ready());
    assert_eq!(a.sync_under_head(), b.sync_under_head());
}

#[test]
fn head_stays_on_the_disk() {
    let mut d = Disk::new_shared();
    d.set_track(0);
    assert_eq!(d.track(), 1);
    d.set_track(200);
    assert_eq!(d.track(), 35);
    d.set_density(7);
    assert_eq!(d.density(), 3);
}

#[test]
fn stopped_motor_loses_the_byte() {
    let mut d = spinning();
    d.rotate(32 * 8);
    assert!(d.byte_ready());
    d.set_motor(false);
    assert!(!d.motor_on());
    assert!(!d.byte_ready());
    let before = d.current_byte();
    d.rotate(1000);
    assert_eq!(d.current_byte(), before);
}

#[test]
fn timer_1_runs_out_after_its_count() {
    let mut v = Via::new(ViaKind::Iec);
    v.write(0xE, 0xC0);
    v.write(0x4, 0x10);
    v.write(0x5, 0x00);
    v.tick(16);
    assert!(!v.irq_pending());
    v.tick(1);
    assert!(v.irq_pending());
    assert_eq!(v.read(0xD) & 0xC0, 0xC0);
    v.read(0x4);
    assert!(!v.irq_pending());
}

#[test]
fn free_running_timer_starts_again() {
    let mut v = Via::new(ViaKind::Iec);
    v.write(0xB, 0x40);
    v.write(0xE, 0xC0);
    v.write(0x4, 0x03);
    v.write(0x5, 0x00);
    v.tick(4);
    assert!(v.irq_pending());
    v.read(0x4);
    v.tick(4);
    assert!(v.irq_pending());
}

#[test]
fn timer_2_fires_once() {
    let mut v = Via::new(ViaKind::Iec);
    v.write(0xE, 0xA0);
    v.write(0x8, 0x05);
    v.write(0x9, 0x00);
    v.tick(6);
    assert!(v.irq_pending());
    v.read(0x8);
    v.tick(0x1_0000);
    assert!(!v.irq_pending());
}

#[test]
fn ticks_add_up() {
    let mut a = Via::new(ViaKind::Iec);
    let mut b = Via::new(ViaKind::Iec);
    for v in [&mut a, &mut b] {
        v.write(0xB, 0x40);
        v.write(0x4, 0x07);
        v.write(0x5, 0x00);
    }
    a.tick(100);
    for _ in 0..100 {
        b.tick(1);
    }
    assert_eq!(a.peek(0x4), b.peek(0x4));
    assert_eq!(a.ifr(), b.ifr());
}

#[test]
fn flags_are_cleared_by_writing_ones() {
    let mut v = Via::new(ViaKind::Iec);
    v.write(0x4, 0);
    v.write(0x5, 0);
    v.write(0x8, 0);
    v.write(0x9, 0);
    v.tick(1);
    assert_eq!(v.ifr(), 0x60);
    v.write(0xD, 0x40);
    assert_eq!(v.ifr(), 0x20);
    v.write(0xE, 0xA0);
    assert_eq!(v.ier(), 0x20);
    assert!(v.irq_pending());
    v.write(0xE, 0x20);
    assert_eq!(v.ier(), 0);
    assert!(!v.irq_pending());
}

#[test]
fn peek_leaves_the_flags() {
    let mut v = Via::new(ViaKind::Iec);
    v.write(0x4, 0);
    v.write(0x5, 0);
    v.tick(1);
    let value = v.peek(0x4);
    assert_eq!(v.ifr(), 0x40);
    assert_eq!(v.read(0x4), value);
    assert_eq!(v.ifr(), 0);
}

#[test]
fn port_b_drives_the_serial_bus() {
    let mut v = Via::new(ViaKind::Iec);
    v.set_iec(IecBus::new_shared());
    v.write(0x2, 0x1A);
    v.write(0x0, 0x0A);
    match v.iec_opt() {
        Some(b) => {
            assert!(b.drive_data && b.drive_clk && !b.drive_atna);
            assert!(b.data_low() && b.clk_low());
        }
        None => panic!("no bus"),
    }
    v.write(0x2, 0x00);
    match v.iec_opt() {
        Some(b) => assert!(!b.drive_data && !b.drive_clk),
        None => panic!("no bus"),
    }
}

#[test]
fn port_b_shows_device_8() {
    let mut v = Via::new(ViaKind::Iec);
    v.set_iec(IecBus::new_shared());
    assert_eq!(v.read(0x0), 0x9F);
    let mut b = IecBus::new_shared();
    b.c64_atn = true;
    b.drive_atna = true;
    v.set_iec(b);
    assert_eq!(v.read(0x0), 0x1F);
}

#[test]
fn atn_edges_are_flagged() {
    let mut v = Via::new(ViaKind::Iec);
    v.set_iec(IecBus::new_shared());
    v.write(0xE, 0x82);
    v.tick(1);
    assert!(!v.irq_pending());
    let mut b = IecBus::new_shared();
    b.c64_atn = true;
    v.set_iec(b);
    v.tick(1);
    assert!(v.irq_pending());
    v.read(0x1);
    assert!(!v.irq_pending());
}

#[test]
fn writes_to_port_b_are_noted_when_traced() {
    let mut v = Via::new(ViaKind::Iec);
    v.set_iec(IecBus::new_shared());
    v.write(0x2, 0x1A);
    v.write(0x0, 0x02);
    assert_eq!(v.take_orb_log().len(), 0);
    v.set_trace(true);
    v.set_trace_pc(0xE9AE);
    v.write(0x0, 0x02);
    let log = v.take_orb_log();
    assert_eq!(log.len(), 1);
    assert_eq!(log[0].val, 0x02);
    assert_eq!(log[0].pc, 0xE9AE);
    assert_eq!(log[0].effect, PortBEffect::Serial { data: true, clk: false, atna: false });
    assert_eq!(v.take_orb_log().len(), 0);
}

#[test]
fn writes_to_the_disk_port_are_noted_too() {
    let mut b = stepper();
    b.set_trace(true);
    b.set_trace_pc(0xF98F);
    b.write_byte(0x1C00, 0x46);
    b.write_byte(0x1C00, 0x21);
    let (serial, disk) = b.take_orb_log();
    assert!(serial.is_empty());
    assert_eq!(disk.len(), 2);
    assert_eq!((disk[0].val, disk[0].pc), (0x46, 0xF98F));
    assert_eq!(disk[0].effect, PortBEffect::Disk { motor: true, phase: 2, density: 2 });
    assert_eq!(disk[1].effect, PortBEffect::Disk { motor: false, phase: 1, density: 1 });
    let (serial, disk) = b.take_orb_log();
    assert!(serial.is_empty() && disk.is_empty());
}

fn stepper() -> DriveBus {
    let mut b = DriveBus::new();
    b.mount(image());
    b.write_byte(0x1C02, 0x6F);
    b
}

fn track(b: &DriveBus) -> u8 {
    match b.via2().disk_opt() {
        Some(d) => d.track(),
        None => panic!("no disk"),
    }
}

fn half_track(b: &DriveBus) -> u8 {
    match b.via2().disk_opt() {
        Some(d) => d.half_track(),
        None => panic!("no disk"),
    }
}

#[test]
fn stepper_moves_the_head_and_back() {
    let mut b = stepper();
    assert_eq!((half_track(&b), track(&b)), (36, 18));
    // Two phases one way are a track.
    b.write_byte(0x1C00, 0x65);
    assert_eq!((half_track(&b), track(&b)), (37, 18));
    b.write_byte(0x1C00, 0x66);
    assert_eq!((half_track(&b), track(&b)), (38, 19));
    // Two phases at once move nothing.
    b.write_byte(0x1C00, 0x64);
    assert_eq!((half_track(&b), track(&b)), (38, 19));
    b.write_byte(0x1C00, 0x67);
    assert_eq!((half_track(&b), track(&b)), (37, 18));
    b.write_byte(0x1C00, 0x64);
    assert_eq!((half_track(&b), track(&b)), (38, 19));
    b.write_byte(0x1C00, 0x67);
    b.write_byte(0x1C00, 0x66);
    assert_eq!((half_track(&b), track(&b)), (36, 18));
}

#[test]
fn stepper_stops_at_both_ends() {
    let mut b = stepper();
    for i in 1..=100u8 {
        b.write_byte(0x1C00, 0x64 | (i % 4));
    }
    assert_eq!((half_track(&b), track(&b)), (70, 35));
    for i in 1..=100u8 {
        b.write_byte(0x1C00, 0x64 | ((100 - i) % 4));
    }
    assert_eq!((half_track(&b), track(&b)), (2, 1));
    b.write_byte(0x1C00, 0x65);
    b.write_byte(0x1C00, 0x66);
    assert_eq!((half_track(&b), track(&b)), (4, 2));
}

#[test]
fn port_b_sets_motor_and_density() {
    let mut b = stepper();
    b.write_byte(0x1C00, 0x44);
    match b.via2().disk_opt() {
        Some(d) => {
            assert!(d.motor_on());
            assert_eq!(d.density(), 2);
        }
        None => panic!("no disk"),
    }
    assert!(b.via1().disk_opt().is_none());
}

#[test]
fn motor_lets_bytes_come() {
    let mut b = stepper();
    let mut any = false;
    for _ in 0..1000 {
        any = any || b.rotate_disk();
    }
    assert!(!any);
    b.write_byte(0x1C00, 0x04);
    for _ in 0..1000 {
        any = any || b.rotate_disk();
    }
    assert!(any);
}

#[test]
fn sync_is_seen_on_port_b() {
    let mut b = stepper();
    b.write_byte(0x1C00, 0x04);
    assert_eq!(b.read_byte(0x1C00) & 0x80, 0);
    for _ in 0..32 * 6 {
        b.rotate_disk();
    }
    assert_eq!(b.read_byte(0x1C00) & 0x80, 0x80);
}

#[test]
fn memory_map_of_the_drive() {
    let mut b = DriveBus::new();
    let mut rom = vec![0u8; 16384];
    rom[0] = 0xAA;
    rom[0x3FFF] = 0xBB;
    assert_eq!(b.load_rom(&rom), Ok(()));
    assert!(b.rom_loaded());
    b.write_byte(0x07FF, 0x12);
    assert_eq!(b.read_byte(0x07FF), 0x12);
    assert_eq!(b.ram()[0x7FF], 0x12);
    assert_eq!(b.read_byte(0x0800), 0xFF);
    assert_eq!(b.read_byte(0x2000), 0xFF);
    assert_eq!(b.read_byte(0xBFFF), 0xFF);
    assert_eq!(b.read_byte(0xC000), 0xAA);
    assert_eq!(b.read_byte(0xFFFF), 0xBB);
    b.write_byte(0xC000, 0x00);
    assert_eq!(b.peek(0xC000), 0xAA);
    b.write_byte(0x1803, 0x5A);
    assert_eq!(b.read_byte(0x1813), 0x5A);
    assert_eq!(b.read_byte(0x1BF3), 0x5A);
    assert_eq!(b.read_byte(0x1C03), 0x00);
}

#[test]
fn rom_of_the_wrong_size_is_refused() {
    let mut b = DriveBus::new();
    assert_eq!(
        b.load_rom(&[0; 8192]),
        Err("1541 ROM must be 16384 bytes, got 8192".to_string())
    );
    assert!(!b.rom_loaded());
}

#[test]
fn either_via_asks_for_an_interrupt() {
    for base in [0x1800u16, 0x1C00] {
        let mut b = DriveBus::new();
        b.write_byte(base + 0xE, 0xC0);
        b.write_byte(base + 0x4, 0x00);
        b.write_byte(base + 0x5, 0x00);
        assert!(!b.irq_asserted());
        b.tick();
        assert!(b.irq_asserted());
        b.reset_chips();
        assert!(!b.irq_asserted());
    }
}
