use rust64::c64::{
    HostAction, HostEvent, Phase, C64, CIA_FLAG, DRIVE_BEAT, SCREEN_HEIGHT, SCREEN_WIDTH,
};
use rust64::c64_trace::{C64Event, C64Sample};
use rust64::d64::{D64Error, D64};
use rust64::geometry::sector_off;
use rust64::image::build_image;
use rust64::loader::{
    answer_load, do_rts, fix_basic_pointers_and_inject_run, program_has_room, store_program,
    type_load, LoadCall, LoadFailure, LoadOutcome, Poke,
};

fn image(name: &str, prg: &[u8]) -> D64 {
    match D64::from_bytes(build_image(name, prg)) {
        Ok(d) => d,
        Err(_) => panic!("refused"),
    }
}

fn memory(pokes: &[Poke]) -> Vec<u8> {
    let mut mem = vec![0u8; 65536];
    for p in pokes {
        mem[p.addr as usize] = p.val;
    }
    mem
}

fn call() -> LoadCall {
    LoadCall {
        kernal_on: true,
        a: 0,
        device: 8,
        secondary: 1,
        name_len: 4,
        name_ptr: 0xFFFE,
        x: 0x34,
        y: 0x12,
    }
}

fn plain(disk: Option<D64>) -> C64 {
    C64::new("", "", disk, None, false, false, false, false).0
}

/// A ROM whose program pulls DATA low and lets it go, over and over.
fn pulling_rom() -> Vec<u8> {
    let program = [
        0xA9, 0x1A, 0x8D, 0x02, 0x18, 0xA9, 0x02, 0x8D, 0x00, 0x18, 0xA9, 0x00, 0x8D, 0x00, 0x18, 0x4C,
        0x05, 0xC0,
    ];
    let mut rom = vec![0xEAu8; 16384];
    rom[..program.len()].copy_from_slice(&program);
    rom[0x3FFD] = 0xC0;
    rom[0x3FFC] = 0x00;
    rom
}

fn with_drive(traced: bool) -> C64 {
    let (c, e) = C64::new("", "", None, Some(&pulling_rom()), false, true, traced, false);
    assert_eq!(e, None);
    c
}

fn sample(pc: u16) -> C64Sample {
    C64Sample {
        pc,
        ready: 0,
        cpu_port: 0x37,
        irq_lo: 0x48,
        irq_hi: 0xFF,
        at_6160: [0; 16],
        at_ca60: [0; 16],
        at_4293: 0,
        dest_page: 0,
        cia1_ier: 0,
        cia2_pra: 0,
    }
}

#[test]
fn screen_has_its_size() {
    assert_eq!((SCREEN_WIDTH, SCREEN_HEIGHT), (384, 272));
    assert_eq!(CIA_FLAG, 0x10);
}

#[test]
fn keys_for_load_fill_the_buffer() {
    let mem = memory(&type_load());
    assert_eq!(&mem[0x277..0x281], b"LOAD\"*\",8\r");
    assert_eq!(mem[0xC6], 10);
}

#[test]
fn run_is_typed_and_basic_is_told_the_end() {
    let mem = memory(&fix_basic_pointers_and_inject_run(0x1234));
    assert_eq!(&mem[0x2D..0x33], &[0x34, 0x12, 0x34, 0x12, 0x34, 0x12]);
    assert_eq!(&mem[0x277..0x27B], b"RUN\r");
    assert_eq!(mem[0xC6], 4);
}

#[test]
fn program_file_is_stored_at_its_address() {
    let prg = [0x01, 0x08, 0xAA, 0xBB, 0xCC];
    assert!(program_has_room(&prg));
    let (start, pokes) = store_program(&prg, false);
    assert_eq!(start, 0x0801);
    assert_eq!(pokes.len(), 3);
    let mem = memory(&pokes);
    assert_eq!(&mem[0x801..0x804], &[0xAA, 0xBB, 0xCC]);
    let (_, pokes) = store_program(&prg, true);
    let mem = memory(&pokes);
    assert_eq!(&mem[0x801..0x804], &[0xAA, 0xBB, 0xCC]);
    assert_eq!((mem[0x2D], mem[0x2E]), (0x04, 0x08));
}

#[test]
fn program_file_must_have_room() {
    assert!(!program_has_room(&[]));
    assert!(!program_has_room(&[1]));
    assert!(program_has_room(&[0xFF, 0xFF]));
    assert!(!program_has_room(&[0xFF, 0xFF, 0]));
    assert!(program_has_room(&[0xFD, 0xFF, 0]));
    assert!(!program_has_room(&[0xFD, 0xFF, 0, 0]));
    assert!(!program_has_room(&vec![0u8; 70000]));
    assert!(program_has_room(&vec![0u8; 65536]));
    assert!(!program_has_room(&vec![0u8; 65537]));
}

#[test]
fn computer_loads_and_runs_where_that_was_wanted() {
    let prg = [0x01, 0x08, 0x60];
    let run = C64::new("a.prg", "", None, None, true, false, false, false).0;
    assert_eq!(run.load_prg(&prg), store_program(&prg, true));
    assert_eq!(plain(None).load_prg(&prg), store_program(&prg, false));
}

#[test]
fn returns_go_behind_the_call() {
    assert_eq!(do_rts(0x34, 0x12), 0x1235);
    assert_eq!(do_rts(0xFF, 0x12), 0x1300);
    assert_eq!(do_rts(0xFF, 0xFF), 0x0000);
}

#[test]
fn name_is_where_the_call_says() {
    assert_eq!(call().name_addresses(), vec![0xFFFE, 0xFFFF, 0x0000, 0x0001]);
    assert!(call().wants_disk());
}

#[test]
fn load_from_the_disk_stores_the_program() {
    let prg = [0x00, 0xC0, 1, 2, 3, 4, 5];
    let d = image("PROG", &prg);
    match answer_load(&d, &call(), b"PROG") {
        LoadOutcome::Loaded { name, start, end, pokes, registers } => {
            assert_eq!(name, "PROG");
            assert_eq!((start, end), (0xC000, 0xC005));
            let mem = memory(&pokes);
            assert_eq!(&mem[0xC000..0xC005], &prg[2..]);
            assert_eq!((mem[0xAE], mem[0xAF]), (0x05, 0xC0));
            assert_eq!((registers.a, registers.carry), (0, false));
            assert_eq!(registers.xy, Some((0x05, 0xC0)));
        }
        _ => panic!("not loaded"),
    }
}

#[test]
fn secondary_address_0_loads_where_the_caller_says() {
    let d = image("PROG", &[0x00, 0xC0, 9]);
    let mut c = call();
    c.secondary = 0;
    match answer_load(&d, &c, b"*") {
        LoadOutcome::Loaded { start, end, pokes, .. } => {
            assert_eq!((start, end), (0x1234, 0x1235));
            assert_eq!(pokes[0], Poke { addr: 0x1234, val: 9 });
        }
        _ => panic!("not loaded"),
    }
}

#[test]
fn load_goes_round_the_end_of_memory() {
    let d = image("PROG", &[0xFF, 0xFF, 1, 2]);
    match answer_load(&d, &call(), b"PROG") {
        LoadOutcome::Loaded { start, end, pokes, .. } => {
            assert_eq!((start, end), (0xFFFF, 0x0001));
            assert_eq!(pokes[1], Poke { addr: 0x0000, val: 2 });
        }
        _ => panic!("not loaded"),
    }
}

fn failure(d: &D64, name: &[u8]) -> (LoadFailure, u8) {
    match answer_load(d, &call(), name) {
        LoadOutcome::Failed { why, registers } => {
            assert!(registers.carry);
            assert_eq!(registers.xy, None);
            (why, registers.a)
        }
        _ => panic!("no failure"),
    }
}

#[test]
fn load_fails_with_the_errors_of_the_kernal() {
    assert_eq!(failure(&image("S", &[1]), b"S"), (LoadFailure::TooShort, 4));
    let mut bytes = build_image("BAD", &[1, 8, 0x60]);
    bytes[sector_off(18, 1) + 3] = 99;
    match D64::from_bytes(bytes) {
        Ok(d) => assert_eq!(
            failure(&d, b"BAD"),
            (LoadFailure::Unreadable { error: D64Error::InvalidTrack { track: 99 } }, 5)
        ),
        Err(_) => panic!("refused"),
    }
}

#[test]
fn other_calls_are_left_to_the_kernal() {
    let d = image("PROG", &[1, 8, 0x60]);
    let mut verify = call();
    verify.a = 1;
    let mut tape = call();
    tape.device = 1;
    let mut banked = call();
    banked.kernal_on = false;
    for c in [verify, tape, banked] {
        assert!(!c.wants_disk());
        assert!(matches!(answer_load(&d, &c, b"PROG"), LoadOutcome::Ignored));
    }
}

#[test]
fn load_of_what_is_not_there_is_left_to_the_kernal() {
    let d = image("PROG", &[1, 8, 0x60]);
    assert!(matches!(answer_load(&d, &call(), b"NOPE"), LoadOutcome::Ignored));
    assert!(matches!(answer_load(&d, &call(), b"PRO"), LoadOutcome::Ignored));
    assert!(matches!(answer_load(&d, &call(), b"PRO*"), LoadOutcome::Loaded { .. }));
    let mut c = plain(Some(d));
    assert!(c.watch_load(0xF4A5, true));
    assert!(matches!(c.handle_load_trap(&call(), b"NOPE"), LoadOutcome::Ignored));
    assert!(c.watch_load(0xF4A5, true));
}

#[test]
fn load_is_answered_once_per_visit() {
    let mut c = plain(Some(image("PROG", &[1, 8, 0x60])));
    assert!(!c.watch_load(0xF4A4, true));
    assert!(!c.watch_load(0xF4A5, false));
    assert!(c.watch_load(0xF4A5, true));
    assert!(matches!(c.handle_load_trap(&call(), b"PROG"), LoadOutcome::Loaded { .. }));
    assert!(!c.watch_load(0xF4A5, true));
    assert!(!c.watch_load(0xF4A6, true));
    assert!(c.watch_load(0xF4A5, true));
    // A call that is left to the KERNAL leaves the trap set.
    let mut tape = call();
    tape.device = 1;
    assert!(matches!(c.handle_load_trap(&tape, b"PROG"), LoadOutcome::Ignored));
    assert!(c.watch_load(0xF4A5, true));
}

#[test]
fn no_disk_no_trap() {
    let mut c = plain(None);
    assert!(!c.watch_load(0xF4A5, true));
    assert!(matches!(c.handle_load_trap(&call(), b"PROG"), LoadOutcome::Ignored));
    assert!(c.disk_image().is_none());
}

#[test]
fn running_drive_answers_load_itself() {
    let d = image("PROG", &[1, 8, 0x60]);
    let (mut c, _) =
        C64::new("", "", Some(d.clone()), Some(&pulling_rom()), false, true, false, false);
    assert!(!c.watch_load(0xF4A5, true));
    // Without a ROM the image answers again.
    let (mut c, _) = C64::new("", "", Some(d), None, false, true, false, false);
    assert!(c.watch_load(0xF4A5, true));
    assert!(!c.drive().enabled());
}

#[test]
fn bad_drive_rom_is_told() {
    let (c, e) = C64::new("", "", None, Some(&[1, 2, 3]), false, true, false, false);
    assert_eq!(e, Some("1541 ROM must be 16384 bytes, got 3".to_string()));
    assert!(!c.drive().enabled());
    assert_eq!(c.serial_bus(), None);
    // Without a drive of its own the computer does not look at the ROM.
    let (c, e) = C64::new("", "", None, Some(&[1, 2, 3]), false, false, false, false);
    assert_eq!(e, None);
    assert!(!c.truedrive());
}

#[test]
fn start_loads_what_was_asked_for_once() {
    let (mut c, _) = C64::new("game.prg", "game.crt", None, None, false, false, false, true);
    assert_eq!(c.file_to_load(), "game.prg");
    assert_eq!(c.crt_to_load(), "game.crt");
    let a = c.boot(0x1000);
    assert!(!a.cartridge && !a.program && a.keys.is_empty());
    let a = c.boot(0xFCE2);
    assert!(a.cartridge && !a.program && a.keys.is_empty());
    assert!(!c.boot(0xFCE2).cartridge);
    let a = c.boot(0xA480);
    assert!(!a.cartridge && a.program);
    assert_eq!(a.keys, type_load());
    let a = c.boot(0xA480);
    assert!(!a.program && a.keys.is_empty());
}

#[test]
fn start_without_wishes_does_nothing() {
    let mut c = plain(None);
    let a = c.boot(0xFCE2);
    assert!(!a.cartridge);
    let a = c.boot(0xA480);
    assert!(!a.program && a.keys.is_empty());
}

#[test]
fn computer_without_a_drive_of_its_own_runs_none() {
    let mut c = plain(None);
    let r = c.drive_cycle(false, 0x1000);
    assert!(r.step.is_none() && !r.flag && !r.beat && !r.lines_told);
    assert!(c.enter_fast_loader(0x6100).is_none());
    assert!(c.observe(&sample(0x6100)).is_empty());
}

#[test]
fn drive_waits_for_a_processor_that_is_held() {
    let mut c = with_drive(false);
    for _ in 0..50 {
        assert!(c.drive_cycle(true, 0xEE56).step.is_none());
        assert!(c.drive_cycle(true, 0xEE76).step.is_none());
    }
    assert_eq!(c.drive().cycle_count(), 0);
    assert!(c.drive_cycle(true, 0xEE77).step.is_some());
    assert!(c.drive_cycle(false, 0xEE60).step.is_some());
    assert_eq!(c.drive().cycle_count(), 2);
}

#[test]
fn flag_comes_with_each_falling_edge_of_data() {
    let mut c = with_drive(false);
    let mut flags = 0;
    let mut told = 0;
    let mut falls = 0;
    let mut low = false;
    for _ in 0..2000 {
        let r = c.drive_cycle(false, 0x1000);
        let now = match c.serial_bus() {
            Some(b) => b.data_low(),
            None => panic!("no bus"),
        };
        if now && !low {
            falls += 1;
            assert!(r.flag);
        } else {
            assert!(!r.flag);
        }
        low = now;
        flags += r.flag as u32;
        told += r.flag_told as u32;
        assert!(!r.late_flag_told);
    }
    assert!(falls > 20);
    assert_eq!(flags, falls);
    assert_eq!(told, 20);
}

#[test]
fn lines_are_traced_when_they_change() {
    let mut c = with_drive(true);
    let mut lines = 0;
    let mut last = match c.serial_bus() {
        Some(b) => b,
        None => panic!("no bus"),
    };
    for _ in 0..300 {
        let r = c.drive_cycle(false, 0x1000);
        let now = match c.serial_bus() {
            Some(b) => b,
            None => panic!("no bus"),
        };
        assert_eq!(r.lines_told, now != last);
        last = now;
        lines += r.lines_told as u32;
        assert!(!r.beat);
    }
    assert!(lines > 10);
    assert!(!c.take_orb_log().0.is_empty());
    let mut quiet = with_drive(false);
    for _ in 0..300 {
        assert!(!quiet.drive_cycle(false, 0x1000).lines_told);
    }
    assert!(quiet.take_orb_log().0.is_empty());
}

#[test]
fn computer_pulls_its_lines() {
    let mut c = with_drive(false);
    c.pull_lines(true, false, true);
    match c.serial_bus() {
        Some(b) => assert!(b.c64_atn && !b.c64_clk && b.c64_data),
        None => panic!("no bus"),
    }
    for _ in 0..100 {
        c.drive_cycle(false, 0x1000);
    }
    match c.serial_bus() {
        Some(b) => assert!(b.c64_atn && !b.c64_clk && b.c64_data),
        None => panic!("no bus"),
    }
    let mut none = plain(None);
    none.pull_lines(true, true, true);
    assert_eq!(none.serial_bus(), None);
}

#[test]
fn reset_resets_the_drive() {
    let mut c = with_drive(false);
    for _ in 0..100 {
        c.drive_cycle(false, 0x1000);
    }
    c.reset();
    assert_eq!(c.drive().cycle_count(), 0);
    assert_eq!(c.drive().pc(), 0xC000);
}

#[test]
fn fast_loader_is_put_right_once() {
    let mut c = with_drive(false);
    assert!(c.enter_fast_loader(0x5FFF).is_none());
    assert_eq!(
        c.enter_fast_loader(0x6161),
        Some([Poke { addr: 0xFFFE, val: 0x66 }, Poke { addr: 0xFFFF, val: 0xFE }])
    );
    assert!(c.enter_fast_loader(0x6161).is_none());
}

#[test]
fn watchdog_comes_every_million_cycles() {
    let mut c = with_drive(false);
    let first = c.observe(&sample(0x1000));
    assert!(first.contains(&C64Event::Watchdog));
    c.end_cycle();
    assert_eq!(c.cycle_count(), 1);
    for _ in 0..100 {
        assert!(!c.observe(&sample(0x1000)).contains(&C64Event::Watchdog));
        c.end_cycle();
    }
}

#[test]
fn places_are_told_when_they_change() {
    let mut c = with_drive(false);
    assert!(c.observe(&sample(0xC123)).contains(&C64Event::GameInitPc));
    assert!(!c.observe(&sample(0xC123)).contains(&C64Event::GameInitPc));
    assert!(c.observe(&sample(0xC124)).contains(&C64Event::GameInitPc));
    c.enter_fast_loader(0x6000);
    assert!(!c.observe(&sample(0xC125)).contains(&C64Event::GameInitPc));
    assert!(c.observe(&sample(0x6001)).contains(&C64Event::FastLoaderPc));
    let mut told = 1;
    for i in 0..300u16 {
        told += c.observe(&sample(0x6002 + i % 7)).contains(&C64Event::FastLoaderPc) as u32;
    }
    assert_eq!(told, 100);
}

#[test]
fn bytes_are_told_when_they_change() {
    let mut c = with_drive(false);
    let mut s = sample(0x1000);
    s.ready = 5;
    s.cia1_ier = 0x81;
    let e = c.observe(&s);
    assert!(e.contains(&C64Event::ReadyByte { from: 0, to: 5 }));
    assert!(e.contains(&C64Event::Cia1Mask { from: 0, to: 0x81 }));
    let e = c.observe(&s);
    assert!(!e.contains(&C64Event::ReadyByte { from: 0, to: 5 }));
    let mut told = 1;
    for i in 0..100u8 {
        s.ready = i;
        for e in c.observe(&s) {
            told += matches!(e, C64Event::ReadyByte { .. }) as u32;
        }
    }
    assert_eq!(told, 20);
}

#[test]
fn holding_atn_and_clk_is_timed() {
    let mut c = with_drive(false);
    c.pull_lines(true, true, false);
    let e = c.observe(&sample(0x1000));
    assert!(e.contains(&C64Event::AtnSequence));
    for _ in 0..49_999 {
        c.end_cycle();
        assert!(c.observe(&sample(0x1000)).is_empty());
    }
    c.end_cycle();
    assert_eq!(
        c.observe(&sample(0x1000)),
        vec![C64Event::HoldSticks { start: 0, duration: 50_000 }]
    );
    c.end_cycle();
    c.pull_lines(false, false, false);
    assert_eq!(
        c.observe(&sample(0x1000)),
        vec![C64Event::HoldEnded { start: 0, duration: 50_001 }]
    );
}

#[test]
fn kernal_that_hangs_is_told_once() {
    let mut c = with_drive(false);
    let mut told = 0;
    for _ in 0..2_100_000 {
        for e in c.observe(&sample(0xE5C4)) {
            if let C64Event::ReceiveHang { cycles } = e {
                assert_eq!(cycles, 2_000_001);
                told += 1;
            }
        }
    }
    assert_eq!(told, 1);
    assert!(c.can_count());
    assert!(c.probes().can_count());
    assert_eq!(c.probes().data_block(), ([0u8; 16], 0));
}

#[test]
fn cycle_pulls_lines_runs_the_drive_and_sees_the_fast_loader() {
    let mut c = with_drive(false);
    let r = c.run_drive((true, false, false), false, 0x1000);
    assert!(r.drive.step.is_some());
    assert!(r.vector.is_none());
    // The drive has not acknowledged ATN, so its hardware pulls DATA at once.
    assert!(r.drive.flag);
    match c.serial_bus() {
        Some(b) => assert!(b.c64_atn && !b.c64_clk && !b.c64_data),
        None => panic!("no bus"),
    }
    let r = c.run_drive((false, false, false), true, 0x6161);
    assert!(r.drive.step.is_some());
    assert_eq!(
        r.vector,
        Some([Poke { addr: 0xFFFE, val: 0x66 }, Poke { addr: 0xFFFF, val: 0xFE }])
    );
    let r = c.run_drive((false, false, false), true, 0xEE60);
    assert!(r.drive.step.is_none());
    assert!(r.vector.is_none());
    assert_eq!(c.drive().cycle_count(), 2);
}

#[test]
fn drive_is_told_at_its_beat() {
    assert_eq!(DRIVE_BEAT, 50_000);
    let mut c = with_drive(true);
    for i in 1..=100_001u32 {
        assert_eq!(c.drive_cycle(false, 0x1000).beat, i % 50_000 == 0);
        c.take_orb_log();
    }
}

#[test]
fn page_4_is_watched_late_in_a_run() {
    let mut c = with_drive(false);
    for _ in 0..90_000_000 {
        c.end_cycle();
    }
    assert!(!c.observe(&sample(0x0400)).contains(&C64Event::Page4Pc));
    c.end_cycle();
    assert!(!c.observe(&sample(0x03FF)).contains(&C64Event::Page4Pc));
    assert!(c.observe(&sample(0x0400)).contains(&C64Event::Page4Pc));
    assert!(c.observe(&sample(0x04FF)).contains(&C64Event::Page4Pc));
    assert!(!c.observe(&sample(0x0500)).contains(&C64Event::Page4Pc));
}

fn tick() -> HostEvent {
    HostEvent::Ticked { lines: (true, false, false), ba_low: false, pc: 0x1000 }
}

#[test]
fn pass_starts_answers_load_and_then_runs_the_cycle() {
    let mut c = plain(Some(image("PROG", &[0x00, 0xC0, 7])));
    assert_eq!(c.phase(), Phase::Start);
    assert!(matches!(c.run(tick()), HostAction::OutOfTurn));
    assert!(matches!(c.run(HostEvent::Ended), HostAction::OutOfTurn));
    match c.run(HostEvent::Pass { pc: 0xF4A5, at_fetch: true }) {
        HostAction::Booted { boot, load } => assert!(load && !boot.cartridge && !boot.program),
        _ => panic!("not started"),
    }
    assert_eq!(c.phase(), Phase::Load);
    assert!(matches!(c.run(tick()), HostAction::OutOfTurn));
    match c.run(HostEvent::Called { call: call(), name: b"PROG".to_vec() }) {
        HostAction::Answered { outcome: LoadOutcome::Loaded { start, .. } } => {
            assert_eq!(start, 0xC000)
        }
        _ => panic!("not answered"),
    }
    assert_eq!(c.phase(), Phase::Clock);
    // Without a drive nothing is looked at after the cycle.
    match c.run(tick()) {
        HostAction::Ran { actions } => assert!(actions.drive.step.is_none()),
        _ => panic!("not run"),
    }
    assert_eq!(c.phase(), Phase::End);
    assert!(matches!(c.run(HostEvent::Seen { sample: sample(0x1000) }), HostAction::OutOfTurn));
    assert_eq!(c.cycle_count(), 0);
    assert!(matches!(c.run(HostEvent::Ended), HostAction::Done));
    assert_eq!((c.cycle_count(), c.phase()), (1, Phase::Start));
}

#[test]
fn pass_with_a_drive_runs_it_and_lets_the_probes_look() {
    let (mut c, _) =
        C64::new("a.prg", "a.crt", None, Some(&pulling_rom()), false, true, false, true);
    match c.run(HostEvent::Pass { pc: 0xFCE2, at_fetch: true }) {
        HostAction::Booted { boot, load } => assert!(!load && boot.cartridge && !boot.program),
        _ => panic!("not started"),
    }
    // The clock is not there yet: nothing runs, and the next pass begins.
    assert!(matches!(c.run(HostEvent::Waited), HostAction::Done));
    assert_eq!((c.cycle_count(), c.drive().cycle_count()), (0, 0));
    match c.run(HostEvent::Pass { pc: 0xA480, at_fetch: true }) {
        HostAction::Booted { boot, load } => {
            assert!(!load && !boot.cartridge && boot.program);
            assert_eq!(boot.keys, type_load());
        }
        _ => panic!("not started"),
    }
    assert!(matches!(
        c.run(HostEvent::Called { call: call(), name: b"PROG".to_vec() }),
        HostAction::OutOfTurn
    ));
    match c.run(tick()) {
        HostAction::Ran { actions } => assert!(actions.drive.step.is_some() && actions.drive.flag),
        _ => panic!("not run"),
    }
    assert_eq!((c.phase(), c.drive().cycle_count()), (Phase::Watch, 1));
    match c.run(HostEvent::Seen { sample: sample(0xC123) }) {
        HostAction::Reported { events } => {
            assert!(events.contains(&C64Event::GameInitPc));
            assert!(events.contains(&C64Event::Watchdog));
        }
        _ => panic!("not looked"),
    }
    assert!(matches!(c.run(HostEvent::Ended), HostAction::Done));
    assert_eq!((c.cycle_count(), c.phase()), (1, Phase::Start));
}
