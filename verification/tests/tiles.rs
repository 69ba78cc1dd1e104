use net::tiles::{count, present_tiles, report, tile};

#[test]
fn tile_names() {
    let named = [
        (12u8, "DFREEZE"),
        (16, "WALLJUMP"),
        (17, "EHOOK_START"),
        (19, "HIT_START"),
        (21, "SOLO_START"),
        (96, "TELE_GUN"),
        (104, "NPC_START"),
        (105, "SUPER_START"),
        (106, "JETPACK_START"),
        (107, "NPH_START"),
        (112, "TELE_GRENADE"),
        (128, "TELE_LASER"),
        (199, "WEAPON_SHOTGUN"),
        (200, "WEAPON_GRENADE"),
        (201, "POWERUP_NINJA"),
        (202, "WEAPON_RIFLE"),
    ];
    for index in 0..=255u8 {
        let expected = named.iter().find(|&&(i, _)| i == index).map(|&(_, name)| name);
        assert_eq!(tile(index), expected);
    }
    assert_eq!(tile(0), None);
    assert_eq!(tile(18), None);
    assert_eq!(tile(203), None);
    assert_eq!(tile(255), None);
}

#[test]
fn count_adds_occurrences() {
    let mut counts = [0u64; 256];
    count(&[1, 12, 12, 255, 0, 12], &mut counts);
    assert_eq!(counts[0], 1);
    assert_eq!(counts[1], 1);
    assert_eq!(counts[12], 3);
    assert_eq!(counts[255], 1);
    assert_eq!(counts.iter().sum::<u64>(), 6);

    // A second layer adds to what is there.
    count(&[12, 16], &mut counts);
    assert_eq!(counts[12], 4);
    assert_eq!(counts[16], 1);
    assert_eq!(counts.iter().sum::<u64>(), 8);

    count(&[], &mut counts);
    assert_eq!(counts.iter().sum::<u64>(), 8);
}

#[test]
fn present_tiles_lists_named_tiles_in_index_order() {
    let mut counts = [0u64; 256];
    assert!(present_tiles(&counts).is_empty());

    count(&[202, 1, 12, 12, 96, 0, 255, 18], &mut counts);
    assert_eq!(present_tiles(&counts), vec!["DFREEZE", "TELE_GUN", "WEAPON_RIFLE"]);

    let all = [1u64; 256];
    assert_eq!(present_tiles(&all).len(), 16);
    assert_eq!(present_tiles(&all)[0], "DFREEZE");
    assert_eq!(present_tiles(&all)[15], "WEAPON_RIFLE");
}

fn entry(name: &str) -> Vec<u8> {
    assert!(name.len() < 32);
    let mut bytes = vec![0xa0 + name.len() as u8];
    bytes.extend_from_slice(name.as_bytes());
    bytes.push(0xc3);
    bytes
}

#[test]
fn report_of_an_empty_layer() {
    let counts = [0u64; 256];
    assert_eq!(report(1, 2, &counts), vec![0x01, 0x02, 0x80]);
    assert_eq!(report(0, 0, &counts), vec![0x00, 0x00, 0x80]);
}

#[test]
fn report_sizes_take_the_shortest_form() {
    let counts = [0u64; 256];
    let cases: [(u64, Vec<u8>); 10] = [
        (0x7f, vec![0x7f]),
        (0x80, vec![0xcc, 0x80]),
        (0xff, vec![0xcc, 0xff]),
        (0x100, vec![0xcd, 0x01, 0x00]),
        (0xffff, vec![0xcd, 0xff, 0xff]),
        (0x1_0000, vec![0xce, 0x00, 0x01, 0x00, 0x00]),
        (0x1234_5678, vec![0xce, 0x12, 0x34, 0x56, 0x78]),
        (0xffff_ffff, vec![0xce, 0xff, 0xff, 0xff, 0xff]),
        (0x1_0000_0000, vec![0xcf, 0x00, 0x00, 0x00, 0x01, 0x00, 0x00, 0x00, 0x00]),
        (u64::MAX, vec![0xcf, 0xff, 0xff, 0xff, 0xff, 0xff, 0xff, 0xff, 0xff]),
    ];
    for (size, encoded) in cases.iter() {
        let mut expected = encoded.clone();
        expected.push(0x05);
        expected.push(0x80);
        assert_eq!(&report(*size, 5, &counts), &expected);

        let mut expected = vec![0x05];
        expected.extend_from_slice(encoded);
        expected.push(0x80);
        assert_eq!(&report(5, *size, &counts), &expected);
    }
}

#[test]
fn report_lists_the_tiles_that_occur() {
    let mut counts = [0u64; 256];
    count(&[202, 12, 12, 1, 0], &mut counts);
    let mut expected = vec![0x32, 0xcc, 0xc8, 0x82];
    expected.extend(entry("DFREEZE"));
    expected.extend(entry("WEAPON_RIFLE"));
    assert_eq!(report(50, 200, &counts), expected);
    assert_eq!(entry("DFREEZE"), vec![0xa7, b'D', b'F', b'R', b'E', b'E', b'Z', b'E', 0xc3]);
}

#[test]
fn report_with_every_tile_has_a_long_map_header() {
    let all = [1u64; 256];
    let names = present_tiles(&all);
    assert_eq!(names.len(), 16);
    let mut expected = vec![0x0a, 0x14, 0xde, 0x00, 0x10];
    for name in names.iter() {
        expected.extend(entry(name));
    }
    assert_eq!(report(10, 20, &all), expected);

    // One tile fewer fits the short header.
    let mut fewer = all;
    fewer[202] = 0;
    let mut expected = vec![0x0a, 0x14, 0x8f];
    for name in names[..15].iter() {
        expected.extend(entry(name));
    }
    assert_eq!(report(10, 20, &fewer), expected);
}

#[test]
fn report_reads_back() {
    let mut counts = [0u64; 256];
    count(&[16, 17, 17, 128, 3], &mut counts);
    let bytes = report(70_000, 300, &counts);
    let mut input = &bytes[..];
    assert_eq!(rmp::decode::read_int::<u64, _>(&mut input).unwrap(), 70_000);
    assert_eq!(rmp::decode::read_int::<u64, _>(&mut input).unwrap(), 300);
    assert_eq!(rmp::decode::read_map_len(&mut input).unwrap(), 3);
    for name in ["WALLJUMP", "EHOOK_START", "TELE_LASER"] {
        let len = rmp::decode::read_str_len(&mut input).unwrap() as usize;
        assert_eq!(&input[..len], name.as_bytes());
        input = &input[len..];
        assert_eq!(rmp::decode::read_bool(&mut input).unwrap(), true);
    }
    assert!(input.is_empty());
}
