use rust64::d64::{D64Error, D64};
use rust64::gcr::{encode, encode_4_bytes};
use rust64::geometry::{sector_off, sectors_per_track};
use rust64::image::{allocate, build_image, put_sector};
use rust64::listing::{info_line, kind_name, list, list_line};
use rust64::lookup::{load_address, look_up, Lookup};
use rust64::petscii::{
    ascii_to_petscii, name_to_ascii_upper, petscii_eq_ci, petscii_to_ascii, petscii_upper, position,
};
use rust64::text::{push_decimal, push_text};

fn disk(name: &str, prg: &[u8]) -> D64 {
    match D64::from_bytes(build_image(name, prg)) {
        Ok(d) => d,
        Err(e) => panic!("{}", e.message()),
    }
}

fn program(n: usize) -> Vec<u8> {
    let mut prg: Vec<u8> = vec![0x01, 0x08];
    for i in 0..n {
        prg.push((i * 7 % 251) as u8);
    }
    prg
}

#[test]
fn four_zero_bytes_encode_to_the_code_of_zero() {
    let mut out: [u8; 5] = [0; 5];
    encode_4_bytes([0, 0, 0, 0], &mut out);
    assert_eq!(out, [0x52, 0x94, 0xA5, 0x29, 0x4A]);
}

#[test]
fn header_mark_encodes_to_its_known_code() {
    assert_eq!(encode(&[0x08, 0x00, 0x00, 0x00])[0], 0x52);
    assert_eq!(encode(&[0x07, 0x00, 0x00, 0x00])[0], 0x55);
}

#[test]
fn encoding_makes_five_bytes_of_four() {
    assert_eq!(encode(&[]).len(), 0);
    assert_eq!(encode(&vec![0u8; 260]).len(), 325);
}

#[test]
fn encoded_bytes_hold_no_two_sync_bytes_and_no_three_zeros() {
    let mut input: Vec<u8> = Vec::new();
    for i in 0..=255u8 {
        input.push(i);
        input.push(255 - i);
        input.push(i ^ 0x5A);
        input.push(i.wrapping_mul(3));
    }
    let out = encode(&input);
    let mut ones = 0;
    let mut zeros = 0;
    for k in 0..out.len() {
        if k > 0 {
            assert!(!(out[k] == 0xFF && out[k - 1] == 0xFF));
        }
        for b in (0..8).rev() {
            if (out[k] >> b) & 1 == 1 {
                ones += 1;
                zeros = 0;
            } else {
                zeros += 1;
                ones = 0;
            }
            assert!(ones < 9);
            assert!(zeros < 3);
        }
    }
}

#[test]
fn one_sync_byte_can_stand_in_encoded_data() {
    // Low nibble 5 and high nibble E meet in the middle of a byte.
    let mut found = false;
    for a in 0..=255u8 {
        let out = encode(&[0x05, a, 0xE0, 0x0E]);
        found = found || out.contains(&0xFF);
    }
    let all: Vec<u8> = (0..=255u8).collect();
    for a in &all {
        for b in &all {
            found = found || encode(&[*a, *b, 0, 0]).contains(&0xFF);
        }
    }
    assert!(found);
}

#[test]
fn different_data_encode_differently() {
    let a = encode(&[1, 2, 3, 4]);
    let b = encode(&[1, 2, 3, 5]);
    assert_ne!(a, b);
}

#[test]
fn tracks_have_their_sectors() {
    assert_eq!(sectors_per_track(1), 21);
    assert_eq!(sectors_per_track(17), 21);
    assert_eq!(sectors_per_track(18), 19);
    assert_eq!(sectors_per_track(24), 19);
    assert_eq!(sectors_per_track(25), 18);
    assert_eq!(sectors_per_track(30), 18);
    assert_eq!(sectors_per_track(31), 17);
    assert_eq!(sectors_per_track(35), 17);
}

#[test]
fn sectors_stand_one_after_another() {
    assert_eq!(sector_off(1, 0), 0);
    assert_eq!(sector_off(1, 20), 20 * 256);
    assert_eq!(sector_off(2, 0), 21 * 256);
    assert_eq!(sector_off(18, 0), 357 * 256);
    assert_eq!(sector_off(35, 16), 174848 - 256);
}

#[test]
fn image_that_is_too_small_is_refused() {
    match D64::from_bytes(vec![0; 174847]) {
        Ok(_) => panic!("accepted"),
        Err(e) => {
            assert_eq!(e, D64Error::TooSmall { size: 174847 });
            assert_eq!(e.message(), "D64 too small: 174847 bytes (need >= 174848)");
        }
    }
}

#[test]
fn bad_sector_addresses_are_told() {
    let d = disk("X", &program(10));
    assert_eq!(d.sector(0, 0), Err(D64Error::InvalidTrack { track: 0 }));
    assert_eq!(d.sector(41, 0), Err(D64Error::InvalidTrack { track: 41 }));
    assert_eq!(d.sector(18, 19), Err(D64Error::InvalidSector { track: 18, sector: 19 }));
    assert_eq!(d.sector(36, 0), Err(D64Error::OutOfBounds { track: 36, sector: 0 }));
    assert_eq!(d.sector_offset(36, 0), Ok(174848));
    assert_eq!(D64Error::InvalidTrack { track: 41 }.message(), "invalid track 41");
    assert_eq!(
        D64Error::InvalidSector { track: 18, sector: 19 }.message(),
        "invalid sector 19 for track 18"
    );
    assert_eq!(D64Error::OutOfBounds { track: 36, sector: 0 }.message(), "sector out of bounds: t36 s0");
}

#[test]
fn cyclic_file_is_told() {
    let mut bytes = build_image("LOOP", &program(10));
    // The only sector of the file points to itself.
    bytes[sector_off(17, 0)] = 17;
    bytes[sector_off(17, 0) + 1] = 0;
    let d = match D64::from_bytes(bytes) {
        Ok(d) => d,
        Err(_) => panic!("refused"),
    };
    let entry = match d.find_file(b"LOOP") {
        Some(e) => e,
        None => panic!("not found"),
    };
    match d.read_file(&entry) {
        Ok(_) => panic!("read"),
        Err(e) => {
            assert_eq!(e, D64Error::ChainTooLong);
            assert_eq!(e.message(), "file sector chain too long (possible cycle)");
        }
    }
}

#[test]
fn built_image_gives_the_program_back() {
    for n in [0usize, 1, 251, 252, 253, 254, 1000, 20000] {
        let prg = program(n);
        let d = disk("HELLO", &prg);
        let dir = d.directory();
        assert_eq!(dir.len(), 1);
        assert!(dir[0].is_prg());
        assert!(dir[0].is_closed());
        assert_eq!(dir[0].name_ascii(), "HELLO");
        assert_eq!(dir[0].size_sectors as usize, (prg.len() + 253) / 254);
        assert_eq!((dir[0].track, dir[0].sector), (17, 0));
        assert_eq!(d.read_file(&dir[0]), Ok(prg));
    }
}

#[test]
fn largest_program_fits() {
    let prg = program(327 * 254 - 2);
    let d = disk("BIG", &prg);
    let dir = d.directory();
    assert_eq!(dir[0].size_sectors, 327);
    assert_eq!(d.read_file(&dir[0]), Ok(prg));
}

#[test]
fn names_find_programs_up_to_case_and_star() {
    let d = disk("Hello World", &program(5));
    for name in ["HELLO WORLD", "hello world", "HELLO*", "*", "H*ZZZ", ""] {
        assert!(d.find_file(name.as_bytes()).is_some(), "{}", name);
    }
    for name in ["HELLO", "HELLO WORLDS", "HALLO*", "WORLD"] {
        assert!(d.find_file(name.as_bytes()).is_none(), "{}", name);
    }
}

#[test]
fn long_names_are_cut_and_found_with_a_star_only() {
    let name = "ABCDEFGHIJKLMNOPQRST";
    let d = disk(name, &program(5));
    assert_eq!(d.directory()[0].name_ascii(), "ABCDEFGHIJKLMNOP");
    assert!(d.find_file(name.as_bytes()).is_none());
    assert!(d.find_file(b"ABCDEFGHIJKLMNOP").is_some());
    assert!(d.find_file(b"ABCDEFGHIJKLMNOP*").is_some());
}

#[test]
fn programs_that_were_not_closed_are_not_found() {
    let mut bytes = build_image("OPEN", &program(5));
    bytes[sector_off(18, 1) + 2] = 0x02;
    let d = match D64::from_bytes(bytes) {
        Ok(d) => d,
        Err(_) => panic!("refused"),
    };
    assert_eq!(d.directory().len(), 1);
    assert!(d.find_file(b"OPEN").is_none());
    assert_eq!(list(&d).len(), 0);
    assert_eq!(info_line(&d.directory()[0], true), "     1 \"OPEN\" PRG*");
    assert_eq!(info_line(&d.directory()[0], false), "     1 \"OPEN\" PRG");
}

#[test]
fn scratched_entries_are_left_out() {
    let mut bytes = build_image("GONE", &program(5));
    bytes[sector_off(18, 1) + 2] = 0x80;
    match D64::from_bytes(bytes) {
        Ok(d) => assert_eq!(d.directory().len(), 0),
        Err(_) => panic!("refused"),
    }
}

#[test]
fn sectors_are_given_out_from_the_directory_outwards() {
    let chain = allocate(25);
    assert_eq!(chain.len(), 25);
    assert_eq!(chain[0], (17, 0));
    for i in 0..25 {
        for j in 0..i {
            assert_ne!(chain[i], chain[j]);
        }
        assert_ne!(chain[i].0, 18);
    }
}

/// The entry of a track in the map: how many sectors are free, and which.
fn map_entry(image: &[u8], t: u8) -> [u8; 4] {
    let at = sector_off(18, 0) + 4 * t as usize;
    [image[at], image[at + 1], image[at + 2], image[at + 3]]
}

#[test]
fn map_marks_what_is_in_use() {
    let short = build_image("A", &program(0));
    assert_eq!(map_entry(&short, 1), [21, 0xFF, 0xFF, 0xFF]);
    assert_eq!(map_entry(&short, 17), [20, 0xFE, 0xFF, 0xFF]);
    assert_eq!(map_entry(&short, 18), [17, 0xFC, 0xFF, 0xFF]);
    assert_eq!(map_entry(&short, 19), [19, 0xFF, 0xFF, 0xFF]);
    let longer = build_image("A", &program(20000));
    assert_eq!(map_entry(&longer, 16), [21, 0xFF, 0xFF, 0xFF]);
    assert_eq!(map_entry(&longer, 17), [0, 0x00, 0x00, 0xE0]);
    assert_eq!(map_entry(&longer, 18), [17, 0xFC, 0xFF, 0xFF]);
    assert_eq!(map_entry(&longer, 19), [0, 0x00, 0x00, 0xF8]);
    assert_eq!(map_entry(&longer, 22), [18, 0xFE, 0xFF, 0xFF]);
    let full = build_image("A", &vec![1u8; 327 * 254]);
    assert_eq!(map_entry(&full, 35), [1, 0x00, 0x00, 0xFF]);
}

#[test]
fn map_agrees_with_the_sectors_given_out() {
    for n in [1usize, 20, 21, 22, 40, 41, 79, 200, 327] {
        let image = build_image("A", &vec![1u8; n * 254]);
        let chain = allocate(n);
        for t in 1..=35u8 {
            let entry = map_entry(&image, t);
            let mut free = 0;
            for s in 0..sectors_per_track(t) {
                let used = (t == 18 && s < 2) || chain.contains(&(t, s));
                let marked = entry[1 + s as usize / 8] & (1 << (s % 8)) != 0;
                assert_eq!(marked, !used);
                free += marked as u8;
            }
            assert_eq!(entry[0], free);
        }
    }
}

#[test]
fn sector_is_stored_where_it_belongs() {
    let mut image = vec![0u8; 174848];
    put_sector(&mut image, 2, 1, &[7u8; 256]);
    assert_eq!(image[22 * 256 - 1], 0);
    assert_eq!(image[22 * 256], 7);
    assert_eq!(image[23 * 256 - 1], 7);
    assert_eq!(image[23 * 256], 0);
}

#[test]
fn letters_lose_their_case() {
    assert_eq!(petscii_upper(0x61), 0x41);
    assert_eq!(petscii_upper(0xC1), 0x41);
    assert_eq!(petscii_upper(0x41), 0x41);
    assert_eq!(petscii_upper(0x40), 0x40);
    assert!(petscii_eq_ci(0x7A, 0xDA));
    assert!(!petscii_eq_ci(0x41, 0x42));
    for b in 0..=255u8 {
        assert_eq!(petscii_upper(petscii_upper(b)), petscii_upper(b));
        assert!(petscii_eq_ci(name_to_ascii_upper(b), b));
    }
}

#[test]
fn petscii_is_shown_as_ascii() {
    assert_eq!(petscii_to_ascii(0x41), 'A');
    assert_eq!(petscii_to_ascii(0xC1), 'A');
    assert_eq!(petscii_to_ascii(0x20), ' ');
    assert_eq!(petscii_to_ascii(0x00), '?');
    assert_eq!(petscii_to_ascii(0xA0), '?');
    assert_eq!(name_to_ascii_upper(b'a'), b'A');
    assert_eq!(name_to_ascii_upper(b'1'), b'1');
    assert_eq!(ascii_to_petscii("aB1"), vec![0x41, 0x42, 0x31]);
    assert_eq!(position(b"AB*C", 0x2A), 2);
    assert_eq!(position(b"ABC", 0x2A), 3);
}

#[test]
fn numbers_and_texts_are_appended() {
    let mut s = String::new();
    push_text(&mut s, "n=");
    push_decimal(&mut s, 0);
    push_text(&mut s, " ");
    push_decimal(&mut s, 174848);
    assert_eq!(s, "n=0 174848");
}

#[test]
fn list_is_machine_readable() {
    let d = disk("hello", &program(600));
    assert_eq!(list(&d), vec!["3\tHELLO".to_string()]);
    assert_eq!(list_line(&d.directory()[0]), "3\tHELLO");
    assert_eq!(info_line(&d.directory()[0], true), "     3 \"HELLO\" PRG");
}

#[test]
fn sizes_are_aligned() {
    let d = disk("A", &program(25400));
    assert_eq!(info_line(&d.directory()[0], true), "   101 \"A\" PRG");
}

#[test]
fn kinds_have_their_letters() {
    assert_eq!(kind_name(0x81), "SEQ");
    assert_eq!(kind_name(0x82), "PRG");
    assert_eq!(kind_name(0x83), "USR");
    assert_eq!(kind_name(0x84), "REL");
    assert_eq!(kind_name(0x80), "???");
    assert_eq!(kind_name(0x05), "???");
}

#[test]
fn lookup_tells_what_came_of_it() {
    let prg = program(10);
    let d = disk("PROG", &prg);
    match look_up(&d, b"PROG") {
        Lookup::Found { entry, bytes } => {
            assert_eq!(entry.name_ascii(), "PROG");
            assert_eq!(load_address(&bytes), 0x0801);
            assert_eq!(bytes, prg);
        }
        _ => panic!("not found"),
    }
    assert!(matches!(look_up(&d, b"NOPE"), Lookup::NotFound));
    let short = disk("SHORT", &[0x55]);
    match look_up(&short, b"*") {
        Lookup::TooShort { entry: _, size } => assert_eq!(size, 1),
        _ => panic!("long enough"),
    }
    let mut bytes = build_image("BAD", &prg);
    bytes[sector_off(18, 1) + 3] = 77;
    let bad = match D64::from_bytes(bytes) {
        Ok(d) => d,
        Err(_) => panic!("refused"),
    };
    match look_up(&bad, b"BAD") {
        Lookup::Unreadable { entry: _, error } => {
            assert_eq!(error, D64Error::InvalidTrack { track: 77 })
        }
        _ => panic!("readable"),
    }
}
