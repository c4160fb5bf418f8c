use qrcodegen::tables::{ECC_CODEWORDS_PER_BLOCK, NUM_ERROR_CORRECTION_BLOCKS};
use qrcodegen::{Mask, QrCode, QrCodeEcc, Version};

const LEVELS: [QrCodeEcc; 4] = [QrCodeEcc::Low, QrCodeEcc::Medium, QrCodeEcc::Quartile, QrCodeEcc::High];

#[test]
fn raw_data_modules_of_every_version() {
    let expected: [usize; 40] = [
        208, 359, 567, 807, 1079, 1383, 1568, 1936, 2336, 2768, 3232, 3728, 4256, 4651, 5243, 5867, 6523,
        7211, 7931, 8683, 9252, 10068, 10916, 11796, 12708, 13652, 14628, 15371, 16411, 17483, 18587, 19723,
        20891, 22091, 23008, 24272, 25568, 26896, 28256, 29648,
    ];
    for v in 1u8..=40 {
        assert_eq!(QrCode::get_num_raw_data_modules(Version::new(v)), expected[usize::from(v) - 1]);
    }
}

#[test]
fn data_codewords_of_every_version_and_level() {
    let expected: [[usize; 40]; 4] = [
        [
            19, 34, 55, 80, 108, 136, 156, 194, 232, 274, 324, 370, 428, 461, 523, 589, 647, 721, 795, 861,
            932, 1006, 1094, 1174, 1276, 1370, 1468, 1531, 1631, 1735, 1843, 1955, 2071, 2191, 2306, 2434,
            2566, 2702, 2812, 2956,
        ],
        [
            16, 28, 44, 64, 86, 108, 124, 154, 182, 216, 254, 290, 334, 365, 415, 453, 507, 563, 627, 669,
            714, 782, 860, 914, 1000, 1062, 1128, 1193, 1267, 1373, 1455, 1541, 1631, 1725, 1812, 1914, 1992,
            2102, 2216, 2334,
        ],
        [
            13, 22, 34, 48, 62, 76, 88, 110, 132, 154, 180, 206, 244, 261, 295, 325, 367, 397, 445, 485, 512,
            568, 614, 664, 718, 754, 808, 871, 911, 985, 1033, 1115, 1171, 1231, 1286, 1354, 1426, 1502, 1582,
            1666,
        ],
        [
            9, 16, 26, 36, 46, 60, 66, 86, 100, 122, 140, 158, 180, 197, 223, 253, 283, 313, 341, 385, 406,
            442, 464, 514, 538, 596, 628, 661, 701, 745, 793, 845, 901, 961, 986, 1054, 1096, 1142, 1222, 1276,
        ],
    ];
    for (row, &ecl) in LEVELS.iter().enumerate() {
        for v in 1u8..=40 {
            assert_eq!(QrCode::get_num_data_codewords(Version::new(v), ecl), expected[row][usize::from(v) - 1]);
        }
    }
}

#[test]
fn capacity_stays_within_the_raw_modules() {
    for v in 1u8..=40 {
        let raw = QrCode::get_num_raw_data_modules(Version::new(v));
        assert!((208..=29648).contains(&raw));
        for &ecl in LEVELS.iter() {
            assert!(QrCode::get_num_data_codewords(Version::new(v), ecl) * 8 <= raw);
        }
    }
}

#[test]
fn table_get_reads_the_two_tables() {
    assert_eq!(QrCode::table_get(&ECC_CODEWORDS_PER_BLOCK, Version::new(1), QrCodeEcc::Low), 7);
    assert_eq!(QrCode::table_get(&ECC_CODEWORDS_PER_BLOCK, Version::new(5), QrCodeEcc::Quartile), 18);
    assert_eq!(QrCode::table_get(&ECC_CODEWORDS_PER_BLOCK, Version::new(40), QrCodeEcc::Medium), 28);
    assert_eq!(QrCode::table_get(&NUM_ERROR_CORRECTION_BLOCKS, Version::new(1), QrCodeEcc::High), 1);
    assert_eq!(QrCode::table_get(&NUM_ERROR_CORRECTION_BLOCKS, Version::new(5), QrCodeEcc::Quartile), 4);
    assert_eq!(QrCode::table_get(&NUM_ERROR_CORRECTION_BLOCKS, Version::new(40), QrCodeEcc::High), 81);
}

#[test]
fn alignment_positions_of_some_versions() {
    let positions = |v: u8| {
        let data = vec![0u8; QrCode::get_num_data_codewords(Version::new(v), QrCodeEcc::Low)];
        QrCode::encode_codewords(Version::new(v), QrCodeEcc::Low, &data, Some(Mask::new(0)))
            .get_alignment_pattern_positions()
    };
    assert_eq!(positions(1), Vec::<i32>::new());
    assert_eq!(positions(2), vec![6, 18]);
    assert_eq!(positions(7), vec![6, 22, 38]);
    assert_eq!(positions(14), vec![6, 26, 46, 66]);
    assert_eq!(positions(32), vec![6, 34, 60, 86, 112, 138]);
    assert_eq!(positions(36), vec![6, 24, 50, 76, 102, 128, 154]);
    assert_eq!(positions(40), vec![6, 30, 58, 86, 114, 142, 170]);
}

#[test]
fn alignment_positions_ascend_from_6_to_the_far_edge() {
    for v in 2u8..=40 {
        let data = vec![0u8; QrCode::get_num_data_codewords(Version::new(v), QrCodeEcc::High)];
        let qr = QrCode::encode_codewords(Version::new(v), QrCodeEcc::High, &data, Some(Mask::new(1)));
        let positions = qr.get_alignment_pattern_positions();
        assert_eq!(positions.len(), usize::from(v) / 7 + 2);
        assert_eq!(positions[0], 6);
        assert_eq!(*positions.last().unwrap(), qr.size() - 7);
        for pair in positions.windows(2) {
            assert!(pair[0] < pair[1]);
        }
        // All steps but the first are equal and even.
        for triple in positions.windows(3).skip(1) {
            assert_eq!(triple[1] - triple[0], triple[2] - triple[1]);
        }
        if positions.len() >= 3 {
            let step = positions[2] - positions[1];
            assert_eq!(step % 2, 0);
            if v == 32 {
                assert_eq!(step, 26);
            } else {
                let intervals = i32::from(v) / 7 + 1;
                let span = qr.size() - 13;
                assert_eq!(step, (span + 2 * intervals - 1) / (2 * intervals) * 2);
            }
        }
    }
}
