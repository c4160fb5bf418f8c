use qrcodegen::{DataTooLong, Mask, QrCode, QrCodeEcc, QrSegment, QrSegmentMode, Version};

fn rows(qr: &QrCode) -> Vec<String> {
    let mut out = Vec::new();
    for y in 0..qr.size() {
        let mut row = String::new();
        for x in 0..qr.size() {
            row.push(if qr.get_module(x, y) { '#' } else { '.' });
        }
        out.push(row);
    }
    out
}

#[test]
fn hello_world_quartile_is_alphanumeric_version_1() {
    let segs = QrSegment::make_segments("HELLO WORLD");
    assert_eq!(segs.len(), 1);
    assert_eq!(segs[0].mode(), QrSegmentMode::Alphanumeric);
    let qr = QrCode::encode_text("HELLO WORLD", QrCodeEcc::Quartile).unwrap();
    assert_eq!(qr.version().value(), 1);
    assert_eq!(qr.size(), i32::from(qr.version().value()) * 4 + 17);
    assert_eq!(qr.error_correction_level(), QrCodeEcc::Quartile);
    assert_eq!(qr.mask().value(), 0);
    let expected = vec![
        "#######.##....#######",
        "#.....#.#..#..#.....#",
        "#.###.#.#..##.#.###.#",
        "#.###.#.#.....#.###.#",
        "#.###.#.#.#...#.###.#",
        "#.....#...#...#.....#",
        "#######.#.#.#.#######",
        "........#............",
        ".##.#.##....#.#.#####",
        ".#......####....#...#",
        "..##.###.##...#.##...",
        ".##.##.#..##.#.#.###.",
        "#...#.#.#.###.###.#.#",
        "........##.#..#...#.#",
        "#######.#.#....#.##..",
        "#.....#..#.##.##.#...",
        "#.###.#.#.#...#######",
        "#.###.#..#.#.#.#...#.",
        "#.###.#.#..#.###.#..#",
        "#.....#.#.####...#.##",
        "#######....#.###....#",
    ];
    assert_eq!(rows(&qr), expected);
}

fn fingerprint(qr: &QrCode) -> u64 {
    let mut h: u64 = 0;
    for y in 0..qr.size() {
        for x in 0..qr.size() {
            h = h.wrapping_mul(31).wrapping_add(u64::from(qr.get_module(x, y)) + 7);
        }
    }
    h
}

fn check(qr: &QrCode, version: u8, ecl: QrCodeEcc, mask: u8, print: u64) {
    assert_eq!(qr.version().value(), version);
    assert_eq!(qr.size(), i32::from(version) * 4 + 17);
    assert_eq!(qr.error_correction_level(), ecl);
    assert_eq!(qr.mask().value(), mask);
    assert_eq!(fingerprint(qr), print);
}

#[test]
fn three_thousand_bytes_at_high_are_over_capacity() {
    let data: Vec<u8> = (0..3000u32).map(|i| (i * 31 + 5) as u8).collect();
    match QrCode::encode_binary(&data, QrCodeEcc::High) {
        Err(DataTooLong::DataOverCapacity(used, capacity)) => {
            assert_eq!(used, 24020);
            assert_eq!(capacity, 10208);
        }
        _ => panic!("expected DataOverCapacity"),
    }
}

#[test]
fn errors_tell_the_largest_version_tried() {
    let seg = [QrSegment::make_bytes(&[0u8; 300])];
    let out = QrCode::encode_segments_advanced(&seg, QrCodeEcc::Low, Version::new(1), Version::new(9), None, true);
    assert!(matches!(out, Err(DataTooLong::SegmentTooLong)));
    let seg = [QrSegment::make_bytes(&[0u8; 20])];
    let out = QrCode::encode_segments_advanced(&seg, QrCodeEcc::Low, Version::new(1), Version::new(1), None, true);
    assert!(matches!(out, Err(DataTooLong::DataOverCapacity(172, 152))));
    let seg = [QrSegment::make_bytes(&[0u8; 18])];
    let out = QrCode::encode_segments_advanced(&seg, QrCodeEcc::High, Version::new(1), Version::new(2), None, true);
    assert!(matches!(out, Err(DataTooLong::DataOverCapacity(156, 128))));
    let digits = "9".repeat(7090);
    assert!(matches!(
        QrCode::encode_text(&digits, QrCodeEcc::Low),
        Err(DataTooLong::DataOverCapacity(23652, 23648))
    ));
    let out = QrCode::encode_segments_to_codewords(&seg, QrCodeEcc::High, Version::new(1), Version::new(2), false);
    assert!(matches!(out, Err(DataTooLong::DataOverCapacity(156, 128))));
}

#[test]
fn data_codewords_of_hello_world() {
    let segs = QrSegment::make_segments("HELLO WORLD");
    let (codewords, ecl, version) =
        QrCode::encode_segments_to_codewords(&segs, QrCodeEcc::Quartile, Version::min(), Version::max(), true)
            .unwrap();
    assert_eq!(codewords, vec![32, 91, 11, 120, 209, 114, 220, 77, 67, 64, 236, 17, 236]);
    assert_eq!(ecl, QrCodeEcc::Quartile);
    assert_eq!(version.value(), 1);
}

#[test]
fn data_codewords_with_boost_and_padding() {
    let segs = [QrSegment::make_numeric("01234567")];
    let (codewords, ecl, version) =
        QrCode::encode_segments_to_codewords(&segs, QrCodeEcc::Medium, Version::min(), Version::max(), true)
            .unwrap();
    assert_eq!(codewords, vec![16, 32, 12, 86, 97, 128, 236, 17, 236]);
    assert_eq!(ecl, QrCodeEcc::High);
    assert_eq!(version.value(), 1);

    let (codewords, ecl, version) =
        QrCode::encode_segments_to_codewords(&[], QrCodeEcc::Low, Version::new(1), Version::new(1), false).unwrap();
    assert_eq!(
        codewords,
        vec![0, 236, 17, 236, 17, 236, 17, 236, 17, 236, 17, 236, 17, 236, 17, 236, 17, 236, 17]
    );
    assert_eq!(ecl, QrCodeEcc::Low);
    assert_eq!(version.value(), 1);

    let segs = [QrSegment::make_eci(26), QrSegment::make_bytes("\u{E9}".as_bytes())];
    let (codewords, _, _) =
        QrCode::encode_segments_to_codewords(&segs, QrCodeEcc::Low, Version::new(1), Version::new(1), false)
            .unwrap();
    assert_eq!(
        codewords,
        vec![113, 164, 2, 195, 169, 0, 236, 17, 236, 17, 236, 17, 236, 17, 236, 17, 236, 17, 236]
    );
}

#[test]
fn terminator_is_clipped_to_the_capacity() {
    // 17 bytes at 1-L take 4 + 8 + 136 = 148 of 152 bits: the terminator fills the rest.
    let segs = [QrSegment::make_bytes(&[0xFFu8; 17])];
    let (codewords, _, _) =
        QrCode::encode_segments_to_codewords(&segs, QrCodeEcc::Low, Version::new(1), Version::new(1), false)
            .unwrap();
    assert_eq!(codewords.len(), 19);
    assert_eq!(codewords[0], 0x41);
    assert_eq!(codewords[1], 0x1F);
    assert_eq!(codewords[18], 0xF0);
    // 41 digits at 1-L take 4 + 10 + 137 = 151 of 152 bits: one terminator bit.
    let digits = "9".repeat(41);
    let segs = [QrSegment::make_numeric(&digits)];
    let (codewords, _, _) =
        QrCode::encode_segments_to_codewords(&segs, QrCodeEcc::Low, Version::new(1), Version::new(1), false)
            .unwrap();
    assert_eq!(codewords.len(), 19);
    assert_eq!(codewords[18] & 1, 0);
}

#[test]
fn boost_raises_the_level_at_the_same_version() {
    let segs = QrSegment::make_segments("boost off");
    let qr = QrCode::encode_segments_advanced(
        &segs,
        QrCodeEcc::Low,
        Version::min(),
        Version::max(),
        Some(Mask::new(3)),
        false,
    )
    .unwrap();
    check(&qr, 1, QrCodeEcc::Low, 3, 4335959933649259995);
    let segs = QrSegment::make_segments("boost on");
    let qr = QrCode::encode_segments_advanced(
        &segs,
        QrCodeEcc::Low,
        Version::min(),
        Version::max(),
        Some(Mask::new(3)),
        true,
    )
    .unwrap();
    check(&qr, 1, QrCodeEcc::Quartile, 3, 15074295100324761359);
}

#[test]
fn boost_never_lowers_the_level_nor_changes_the_version() {
    let levels = [QrCodeEcc::Low, QrCodeEcc::Medium, QrCodeEcc::Quartile, QrCodeEcc::High];
    for n in [0usize, 5, 9, 10, 14, 17, 30, 100] {
        let segs = [QrSegment::make_bytes(&vec![0x55u8; n])];
        for &ecl in levels.iter() {
            let plain =
                QrCode::encode_segments_advanced(&segs, ecl, Version::min(), Version::max(), None, false).unwrap();
            let boosted =
                QrCode::encode_segments_advanced(&segs, ecl, Version::min(), Version::max(), None, true).unwrap();
            assert_eq!(plain.error_correction_level(), ecl);
            assert_eq!(plain.version(), boosted.version());
            assert!(boosted.error_correction_level().ordinal() >= ecl.ordinal());
        }
    }
}

#[test]
fn forced_masks_of_hello_world() {
    let segs = QrSegment::make_segments("HELLO WORLD");
    let expected: [u64; 8] = [
        16531750055715749827,
        13007559899462260623,
        4735467141998186183,
        18152276613714475513,
        4534019554066158039,
        2895880076763829223,
        3813169985890644707,
        10163414886619426889,
    ];
    for m in 0u8..8 {
        let qr = QrCode::encode_segments_advanced(
            &segs,
            QrCodeEcc::Quartile,
            Version::min(),
            Version::max(),
            Some(Mask::new(m)),
            true,
        )
        .unwrap();
        check(&qr, 1, QrCodeEcc::Quartile, m, expected[usize::from(m)]);
    }
}

#[test]
fn symbols_of_several_texts() {
    check(&QrCode::encode_text("Hello, world!", QrCodeEcc::Low).unwrap(), 1, QrCodeEcc::Medium, 2, 11746312134322906327);
    check(
        &QrCode::encode_text("314159265358979323846264338327950288419716939937510", QrCodeEcc::Medium).unwrap(),
        2,
        QrCodeEcc::Medium,
        3,
        3093850132505980801,
    );
    check(
        &QrCode::encode_text("DOLLAR-AMOUNT:$39.87 PERCENTAGE:100.00% OPERATIONS:+-*/", QrCodeEcc::High).unwrap(),
        5,
        QrCodeEcc::High,
        1,
        13475285742451702035,
    );
    check(
        &QrCode::encode_text(
            "\u{3053}\u{3093}\u{306B}\u{3061}wa\u{3001}\u{4E16}\u{754C}\u{FF01} \u{3B1}\u{3B2}\u{3B3}\u{3B4}",
            QrCodeEcc::Quartile,
        )
        .unwrap(),
        4,
        QrCodeEcc::Quartile,
        6,
        11964335759236666680,
    );
    check(&QrCode::encode_text("", QrCodeEcc::Low).unwrap(), 1, QrCodeEcc::High, 6, 12302224655361055577);
}

#[test]
fn symbol_of_all_byte_values() {
    let data: Vec<u8> = (0..=255u8).collect();
    check(&QrCode::encode_binary(&data, QrCodeEcc::Medium).unwrap(), 12, QrCodeEcc::Medium, 5, 15869729878014348988);
}

#[test]
fn symbol_with_version_information() {
    let segs = QrSegment::make_segments(
        "Version seven test payload with enough bytes to need it, really. 0123456789 0123456789 ABCDEFGHIJ",
    );
    let qr = QrCode::encode_segments_advanced(&segs, QrCodeEcc::High, Version::new(7), Version::max(), None, false)
        .unwrap();
    check(&qr, 9, QrCodeEcc::High, 2, 7028721384294537069);
}

#[test]
fn largest_symbols() {
    let text: String = (0..4296u32).map(|i| char::from(b'A' + ((i * 7) % 26) as u8)).collect();
    check(&QrCode::encode_text(&text, QrCodeEcc::Low).unwrap(), 40, QrCodeEcc::Low, 0, 15817807407588949351);
    let data: Vec<u8> = (0..2953u32).map(|i| ((i * 37 + 11) % 256) as u8).collect();
    check(&QrCode::encode_binary(&data, QrCodeEcc::Low).unwrap(), 40, QrCodeEcc::Low, 6, 4902187089925606757);
    let digits = "9".repeat(7089);
    check(&QrCode::encode_text(&digits, QrCodeEcc::Low).unwrap(), 40, QrCodeEcc::Low, 3, 10508781160161927531);
}

#[test]
fn symbol_from_codewords_with_four_blocks() {
    let data: Vec<u8> = (0..62u8).collect();
    let qr = QrCode::encode_codewords(Version::new(5), QrCodeEcc::Quartile, &data, Some(Mask::new(2)));
    check(&qr, 5, QrCodeEcc::Quartile, 2, 4371148287749694283);
}

#[test]
fn symbol_of_zero_codewords() {
    let qr = QrCode::encode_codewords(Version::new(1), QrCodeEcc::Low, &[0u8; 19], Some(Mask::new(0)));
    let expected = vec![
        "#######...#.#.#######",
        "#.....#..#.#..#.....#",
        "#.###.#.#.#.#.#.###.#",
        "#.###.#..#.#..#.###.#",
        "#.###.#...#.#.#.###.#",
        "#.....#..#.#..#.....#",
        "#######.#.#.#.#######",
        "........##.#.........",
        "###.#####.#.###...#..",
        ".#.#.#.#.#.#.#.#.#.#.",
        "#.#.#.#.#.#.#.#.#.#.#",
        ".#.#.#.#.#.#.#.#.#.#.",
        "#.#.#.#.#.#.#.#.#.#.#",
        "........##.#.#.#.#.#.",
        "#######.#.#.#.#.#.#.#",
        "#.....#.##.#.#.#.#.#.",
        "#.###.#.#.#.#.#.#.#.#",
        "#.###.#..#.#.#.#.#.#.",
        "#.###.#.#.#.#.#.#.#.#",
        "#.....#.##.#.#.#.#.#.",
        "#######.#.#.#.#.#.#.#",
    ];
    assert_eq!(rows(&qr), expected);
}

#[test]
fn modules_outside_the_grid_are_light() {
    let qr = QrCode::encode_text("HELLO WORLD", QrCodeEcc::Quartile).unwrap();
    assert!(qr.get_module(0, 0));
    assert!(qr.get_module(20, 0));
    assert!(qr.get_module(0, 20));
    for k in -3..25 {
        assert!(!qr.get_module(-1, k));
        assert!(!qr.get_module(k, -1));
        assert!(!qr.get_module(21, k));
        assert!(!qr.get_module(k, 21));
    }
    assert!(!qr.get_module(i32::MIN, i32::MIN));
    assert!(!qr.get_module(i32::MAX, i32::MAX));
    assert!(!qr.get_module(i32::MAX, 0));
    assert!(!qr.get_module(0, i32::MIN));
}

#[test]
fn trial_masks_leave_no_trace() {
    // Automatic selection applies each mask and takes it off again before it
    // settles: the symbol must be the one that the chosen mask alone gives.
    for text in ["HELLO WORLD", "mask twice", "0123456789012345678901234567890123456789"] {
        let segs = QrSegment::make_segments(text);
        let (codewords, ecl, version) =
            QrCode::encode_segments_to_codewords(&segs, QrCodeEcc::Medium, Version::min(), Version::max(), true)
                .unwrap();
        let auto = QrCode::encode_codewords(version, ecl, &codewords, None);
        let forced = QrCode::encode_codewords(version, ecl, &codewords, Some(auto.mask()));
        assert!(auto == forced);
        assert!(auto.clone() == auto);
        let again = QrCode::encode_codewords(version, ecl, &codewords, None);
        assert!(again == auto);
    }
}

#[test]
fn masks_differ_by_their_patterns_only() {
    // Two masks change the same modules of the version 1 symbol outside the
    // function patterns: at (20, 20) mask 0 inverts and mask 2 does not.
    let data = [0u8; 19];
    let plain: Vec<QrCode> = (0u8..8)
        .map(|m| QrCode::encode_codewords(Version::new(1), QrCodeEcc::Low, &data, Some(Mask::new(m))))
        .collect();
    // The codewords are zero, so a data module is dark exactly where its mask inverts it.
    let (x, y) = (20, 20);
    assert_eq!(plain[0].get_module(x, y), (x + y) % 2 == 0);
    assert_eq!(plain[1].get_module(x, y), y % 2 == 0);
    assert_eq!(plain[2].get_module(x, y), x % 3 == 0);
    assert_eq!(plain[3].get_module(x, y), (x + y) % 3 == 0);
    assert_eq!(plain[4].get_module(x, y), (x / 3 + y / 2) % 2 == 0);
    assert_eq!(plain[5].get_module(x, y), x * y % 2 + x * y % 3 == 0);
    assert_eq!(plain[6].get_module(x, y), (x * y % 2 + x * y % 3) % 2 == 0);
    assert_eq!(plain[7].get_module(x, y), ((x + y) % 2 + x * y % 3) % 2 == 0);
    let (x, y) = (13, 17);
    assert_eq!(plain[0].get_module(x, y), (x + y) % 2 == 0);
    assert_eq!(plain[4].get_module(x, y), (x / 3 + y / 2) % 2 == 0);
    assert_eq!(plain[5].get_module(x, y), x * y % 2 + x * y % 3 == 0);
    assert_eq!(plain[7].get_module(x, y), ((x + y) % 2 + x * y % 3) % 2 == 0);
}

fn next_random(state: &mut u64) -> u8 {
    *state = state.wrapping_mul(6364136223846793005).wrapping_add(1442695040888963407);
    (*state >> 56) as u8
}

#[test]
fn every_codeword_bit_is_shown() {
    // The symbols of many sets of codewords differ in no more modules than
    // there are codeword bits, and in no fewer if every bit has its module.
    let mut state: u64 = 0x1234_5678_9ABC_DEF0;
    for v in [1u8, 2, 6, 7, 13, 14, 20, 21, 27, 28, 32, 34, 35, 40] {
        let version = Version::new(v);
        let ecl = QrCodeEcc::High;
        let count = QrCode::get_num_data_codewords(version, ecl);
        let zero = QrCode::encode_codewords(version, ecl, &vec![0u8; count], Some(Mask::new(0)));
        let size = zero.size();
        let mut differs = vec![false; (size * size) as usize];
        for _ in 0..24 {
            let data: Vec<u8> = (0..count).map(|_| next_random(&mut state)).collect();
            let qr = QrCode::encode_codewords(version, ecl, &data, Some(Mask::new(0)));
            for y in 0..size {
                for x in 0..size {
                    if qr.get_module(x, y) != zero.get_module(x, y) {
                        differs[(y * size + x) as usize] = true;
                    }
                }
            }
        }
        let shown = differs.iter().filter(|&&d| d).count();
        assert_eq!(shown, QrCode::get_num_raw_data_modules(version) / 8 * 8);
    }
}

#[test]
fn the_most_bytes_that_fit() {
    let most = vec![0xA5u8; 2953];
    let qr = QrCode::encode_binary(&most, QrCodeEcc::Low).unwrap();
    assert_eq!(qr.version().value(), 40);
    assert_eq!(qr.error_correction_level(), QrCodeEcc::Low);
    let more = vec![0xA5u8; 2954];
    for ecl in [QrCodeEcc::Low, QrCodeEcc::Medium, QrCodeEcc::Quartile, QrCodeEcc::High] {
        assert!(matches!(
            QrCode::encode_binary(&more, ecl),
            Err(DataTooLong::DataOverCapacity(23652, _))
        ));
    }
    assert!(matches!(
        QrCode::encode_binary(&more, QrCodeEcc::Low),
        Err(DataTooLong::DataOverCapacity(23652, 23648))
    ));
}

#[test]
fn a_text_of_738_code_points_fits() {
    let widest: String = std::iter::repeat('\u{1F600}').take(738).collect();
    let qr = QrCode::encode_text(&widest, QrCodeEcc::Low).unwrap();
    assert_eq!(qr.version().value(), 40);
    let digits = "7".repeat(738);
    assert!(QrCode::encode_text(&digits, QrCodeEcc::Low).is_ok());
    let letters = "Z".repeat(738);
    assert!(QrCode::encode_text(&letters, QrCodeEcc::Low).is_ok());
    let one_more: String = std::iter::repeat('\u{1F600}').take(739).collect();
    assert!(QrCode::encode_text(&one_more, QrCodeEcc::Low).is_err());
}
