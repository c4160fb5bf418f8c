use qrcodegen::{
    is_encodable_as_kanji, is_kanji, make_kanji, make_segments_optimally, QrCode, QrCodeEcc, QrSegment,
    QrSegmentAdvanced, QrSegmentMode, Version,
};

fn code_points(text: &str) -> Vec<char> {
    text.chars().collect()
}

fn weight(bits: &[bool]) -> usize {
    bits.iter().enumerate().map(|(i, &b)| (i + 1) * usize::from(b)).sum::<usize>() % 1000003
}

fn summary(segs: &[QrSegment]) -> Vec<(QrSegmentMode, usize, usize, usize)> {
    segs.iter().map(|s| (s.mode(), s.num_chars(), s.data().len(), weight(s.data()))).collect()
}

fn small_kanji_table() -> Vec<i16> {
    let mut table = vec![-1i16; 65536];
    table['\u{70B9}' as usize] = 0x0FFF;
    table['\u{8317}' as usize] = 0x1ABC;
    table['\u{8377}' as usize] = 5;
    table
}

fn optimal(text: &str, ecl: QrCodeEcc, min: u8, max: u8, encoder: &QrSegmentAdvanced) -> Option<Vec<QrSegment>> {
    make_segments_optimally(&code_points(text), ecl, Version::new(min), Version::new(max), encoder)
}

#[test]
fn single_characters_take_their_narrowest_mode() {
    let plain = QrSegmentAdvanced::new();
    assert_eq!(summary(&optimal("A", QrCodeEcc::Low, 1, 40, &plain).unwrap()), vec![(QrSegmentMode::Alphanumeric, 1, 6, 8)]);
    assert_eq!(summary(&optimal("1", QrCodeEcc::High, 1, 40, &plain).unwrap()), vec![(QrSegmentMode::Numeric, 1, 4, 4)]);
    assert_eq!(summary(&optimal("a", QrCodeEcc::Medium, 10, 40, &plain).unwrap()), vec![(QrSegmentMode::Byte, 1, 8, 13)]);
}

#[test]
fn mixed_texts_split_into_runs() {
    let plain = QrSegmentAdvanced::new();
    for (ecl, min) in [(QrCodeEcc::Low, 1u8), (QrCodeEcc::High, 1), (QrCodeEcc::Medium, 10), (QrCodeEcc::Quartile, 27)] {
        assert_eq!(
            summary(&optimal("ABCDEF123456", ecl, min, 40, &plain).unwrap()),
            vec![(QrSegmentMode::Alphanumeric, 12, 66, 1018)]
        );
        assert_eq!(
            summary(&optimal("abc123456789012345XYZ", ecl, min, 40, &plain).unwrap()),
            vec![(QrSegmentMode::Byte, 3, 24, 133), (QrSegmentMode::Numeric, 15, 50, 528), (QrSegmentMode::Alphanumeric, 3, 17, 102)]
        );
        assert_eq!(
            summary(&optimal("12345678901234567890ab", ecl, min, 40, &plain).unwrap()),
            vec![(QrSegmentMode::Numeric, 20, 67, 1058), (QrSegmentMode::Byte, 2, 16, 49)]
        );
        assert_eq!(
            summary(&optimal("AAAAAAAAAAAAAAAAAAAAAAAAAAa", ecl, min, 40, &plain).unwrap()),
            vec![(QrSegmentMode::Alphanumeric, 26, 143, 4667), (QrSegmentMode::Byte, 1, 8, 13)]
        );
        assert_eq!(
            summary(
                &optimal(
                    "https://www.example.com/QR?ID=12345678901234567890&X=ABCDEFGHIJKLMNOP",
                    ecl,
                    min,
                    40,
                    &plain
                )
                .unwrap()
            ),
            vec![
                (QrSegmentMode::Byte, 30, 240, 15241),
                (QrSegmentMode::Numeric, 20, 67, 1058),
                (QrSegmentMode::Byte, 3, 24, 157),
                (QrSegmentMode::Alphanumeric, 16, 88, 2044)
            ]
        );
    }
}

#[test]
fn golden_ratio_splits_in_two() {
    let plain = QrSegmentAdvanced::new();
    let text = "Golden ratio 1.6180339887498948482045868343656381177203091798057628621354486227052604628189024497072072041893911374";
    assert_eq!(
        summary(&optimal(text, QrCodeEcc::Low, 1, 40, &plain).unwrap()),
        vec![(QrSegmentMode::Byte, 15, 120, 3226), (QrSegmentMode::Numeric, 100, 334, 26771)]
    );
}

#[test]
fn optimal_segments_take_no_more_bits_than_other_splits() {
    let plain = QrSegmentAdvanced::new();
    let texts = [
        "abc123456789012345XYZ",
        "HELLO WORLD",
        "0123",
        "x",
        "A1b2C3d4E5f6G7h8",
        "https://example.org/?q=1234567890",
        "12345ABCDE12345abcde12345",
    ];
    for text in texts {
        for (min, version) in [(1u8, 40u8), (10, 10), (27, 27)] {
            let best = optimal(text, QrCodeEcc::Low, min, 40, &plain).unwrap();
            let at = if min == 1 { QrCode::encode_segments(&best, QrCodeEcc::Low).unwrap().version() } else { Version::new(version) };
            let best_bits = QrSegment::get_total_bits(&best, at).unwrap();
            // One segment for the whole text.
            let whole = QrSegment::make_segments(text);
            assert!(best_bits <= QrSegment::get_total_bits(&whole, at).unwrap());
            // All in byte mode.
            let bytes = [QrSegment::make_bytes(text.as_bytes())];
            assert!(best_bits <= QrSegment::get_total_bits(&bytes, at).unwrap());
            // Every split in two, each part in its narrowest mode.
            for cut in 1..text.len() {
                let mut two = QrSegment::make_segments(&text[..cut]);
                two.extend(QrSegment::make_segments(&text[cut..]));
                assert!(best_bits <= QrSegment::get_total_bits(&two, at).unwrap());
            }
        }
    }
}

#[test]
fn optimal_segments_need_no_larger_symbol() {
    let plain = QrSegmentAdvanced::new();
    for text in ["abc123456789012345XYZ", "A1b2C3d4E5f6G7h8", "https://example.org/?q=1234567890"] {
        let best = optimal(text, QrCodeEcc::Medium, 1, 40, &plain).unwrap();
        let qr = QrCode::encode_segments(&best, QrCodeEcc::Medium).unwrap();
        let plain_qr = QrCode::encode_text(text, QrCodeEcc::Medium).unwrap();
        assert!(qr.version().value() <= plain_qr.version().value());
    }
}

#[test]
fn no_version_in_the_range_gives_none() {
    let plain = QrSegmentAdvanced::new();
    assert!(optimal("AAAAAAAAAAAAAAAAAAAAAAAAAAAAAA", QrCodeEcc::High, 1, 1, &plain).is_none());
    assert!(optimal("A", QrCodeEcc::Low, 5, 4, &plain).is_none());
    assert!(optimal("AAAAAAAAAAAAAAAAAAAAAAAAAAAAAA", QrCodeEcc::High, 1, 3, &plain).is_some());
}

#[test]
fn kanji_table_is_checked() {
    assert!(QrSegmentAdvanced::with_kanji_table(small_kanji_table()).is_some());
    assert!(QrSegmentAdvanced::with_kanji_table(vec![]).is_none());
    assert!(QrSegmentAdvanced::with_kanji_table(vec![-1; 65535]).is_none());
    assert!(QrSegmentAdvanced::with_kanji_table(vec![-1; 65537]).is_none());
    let mut table = small_kanji_table();
    table[77] = 8192;
    assert!(QrSegmentAdvanced::with_kanji_table(table).is_none());
    let mut table = small_kanji_table();
    table[65535] = -2;
    assert!(QrSegmentAdvanced::with_kanji_table(table).is_none());
    let mut table = small_kanji_table();
    table[0] = 8191;
    assert!(QrSegmentAdvanced::with_kanji_table(table).is_some());
}

#[test]
fn kanji_characters_are_those_of_the_table() {
    let kanji = QrSegmentAdvanced::with_kanji_table(small_kanji_table()).unwrap();
    let plain = QrSegmentAdvanced::new();
    assert!(is_kanji('\u{70B9}', &kanji));
    assert!(is_kanji('\u{8377}', &kanji));
    assert!(!is_kanji('A', &kanji));
    assert!(!is_kanji('\u{70BA}', &kanji));
    assert!(!is_kanji('\u{1F600}', &kanji));
    assert!(!is_kanji('\u{70B9}', &plain));
    assert!(is_encodable_as_kanji(&code_points("\u{70B9}\u{8317}\u{8377}"), &kanji));
    assert!(is_encodable_as_kanji(&[], &kanji));
    assert!(is_encodable_as_kanji(&[], &plain));
    assert!(!is_encodable_as_kanji(&code_points("\u{70B9}a"), &kanji));
    assert!(!is_encodable_as_kanji(&code_points("\u{70B9}"), &plain));
}

#[test]
fn kanji_segment_takes_thirteen_bits_for_each_character() {
    let kanji = QrSegmentAdvanced::with_kanji_table(small_kanji_table()).unwrap();
    let seg = make_kanji(&code_points("\u{70B9}\u{8317}\u{8377}"), &kanji);
    assert_eq!(seg.mode(), QrSegmentMode::Kanji);
    assert_eq!(seg.num_chars(), 3);
    let bits: String = seg.data().iter().map(|&b| if b { '1' } else { '0' }).collect();
    assert_eq!(bits, "011111111111111010101111000000000000101");
    assert_eq!(make_kanji(&[], &kanji).data().len(), 0);
}

#[test]
fn kanji_runs_get_kanji_segments_where_there_is_a_table() {
    let kanji = QrSegmentAdvanced::with_kanji_table(small_kanji_table()).unwrap();
    let plain = QrSegmentAdvanced::new();
    let text = "\u{70B9}\u{8317}\u{8377}";
    assert_eq!(summary(&optimal(text, QrCodeEcc::Low, 1, 40, &kanji).unwrap()), vec![(QrSegmentMode::Kanji, 3, 39, 321)]);
    assert_eq!(summary(&optimal(text, QrCodeEcc::Low, 1, 40, &plain).unwrap()), vec![(QrSegmentMode::Byte, 9, 72, 1453)]);
    let text = "a\u{70B9}\u{8317}1\u{8377}\u{8377}\u{8377}\u{8377}\u{8377}b";
    assert_eq!(
        summary(&optimal(text, QrCodeEcc::Low, 1, 40, &kanji).unwrap()),
        vec![(QrSegmentMode::Byte, 8, 64, 989), (QrSegmentMode::Kanji, 5, 65, 380), (QrSegmentMode::Byte, 1, 8, 12)]
    );
    assert_eq!(summary(&optimal(text, QrCodeEcc::Low, 1, 40, &plain).unwrap()), vec![(QrSegmentMode::Byte, 24, 192, 10333)]);
    let text = "\u{70B9}1";
    assert_eq!(
        summary(&optimal(text, QrCodeEcc::Low, 1, 40, &kanji).unwrap()),
        vec![(QrSegmentMode::Kanji, 1, 13, 90), (QrSegmentMode::Numeric, 1, 4, 4)]
    );
    assert_eq!(summary(&optimal(text, QrCodeEcc::Low, 1, 40, &plain).unwrap()), vec![(QrSegmentMode::Byte, 4, 32, 239)]);
    let text = "ABC\u{70B9}";
    assert_eq!(
        summary(&optimal(text, QrCodeEcc::Low, 1, 40, &kanji).unwrap()),
        vec![(QrSegmentMode::Alphanumeric, 3, 17, 69), (QrSegmentMode::Kanji, 1, 13, 90)]
    );
    assert_eq!(summary(&optimal(text, QrCodeEcc::Low, 1, 40, &plain).unwrap()), vec![(QrSegmentMode::Byte, 6, 48, 564)]);
}

#[test]
fn byte_runs_hold_utf8_of_every_width() {
    let plain = QrSegmentAdvanced::new();
    let text = "a\u{E9}\u{20AC}\u{1F600}";
    let segs = optimal(text, QrCodeEcc::Low, 1, 40, &plain).unwrap();
    assert_eq!(segs.len(), 1);
    assert!(segs[0] == QrSegment::make_bytes(text.as_bytes()));
    assert_eq!(segs[0].num_chars(), 10);
}
