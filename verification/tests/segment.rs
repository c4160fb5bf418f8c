use qrcodegen::{QrSegment, QrSegmentMode, Version};

fn bit_string(bits: &[bool]) -> String {
    bits.iter().map(|&b| if b { '1' } else { '0' }).collect()
}

#[test]
fn numeric_segment_packs_three_digits_in_ten_bits() {
    let seg = QrSegment::make_numeric("01234567");
    assert_eq!(seg.mode(), QrSegmentMode::Numeric);
    assert_eq!(seg.num_chars(), 8);
    assert_eq!(bit_string(seg.data()), "000000110001010110011000011");
    let seg = QrSegment::make_numeric("0123456789012345");
    assert_eq!(seg.num_chars(), 16);
    assert_eq!(bit_string(seg.data()), "000000110001010110011010100110111000010100111010100101");
}

#[test]
fn numeric_segment_tails_take_four_and_seven_bits() {
    assert_eq!(bit_string(QrSegment::make_numeric("").data()), "");
    assert_eq!(bit_string(QrSegment::make_numeric("7").data()), "0111");
    assert_eq!(bit_string(QrSegment::make_numeric("42").data()), "0101010");
    assert_eq!(bit_string(QrSegment::make_numeric("999").data()), "1111100111");
    assert_eq!(bit_string(QrSegment::make_numeric("0000").data()), "00000000000000");
}

#[test]
fn alphanumeric_segment_packs_two_characters_in_eleven_bits() {
    let seg = QrSegment::make_alphanumeric("AC-42");
    assert_eq!(seg.mode(), QrSegmentMode::Alphanumeric);
    assert_eq!(seg.num_chars(), 5);
    assert_eq!(bit_string(seg.data()), "0011100111011100111001000010");
    let seg = QrSegment::make_alphanumeric("HELLO WORLD");
    assert_eq!(seg.num_chars(), 11);
    assert_eq!(bit_string(seg.data()), "0110000101101111000110100010111001011011100010011010100001101");
}

#[test]
fn alphanumeric_charset_indices() {
    let charset = "0123456789ABCDEFGHIJKLMNOPQRSTUVWXYZ $%*+-./:";
    for (i, c) in charset.chars().enumerate() {
        let seg = QrSegment::make_alphanumeric(&c.to_string());
        let expected: String = (0..6).rev().map(|k| if (i >> k) & 1 == 1 { '1' } else { '0' }).collect();
        assert_eq!(bit_string(seg.data()), expected);
    }
    // ":" then ":" is 44 * 45 + 44 = 2024
    assert_eq!(bit_string(QrSegment::make_alphanumeric("::").data()), "11111101000");
}

#[test]
fn byte_segment_keeps_the_bytes() {
    let seg = QrSegment::make_bytes(&[0, 1, 0x80, 0xFF]);
    assert_eq!(seg.mode(), QrSegmentMode::Byte);
    assert_eq!(seg.num_chars(), 4);
    assert_eq!(bit_string(seg.data()), "00000000000000011000000011111111");
    let seg = QrSegment::make_bytes(&[]);
    assert_eq!(seg.num_chars(), 0);
    assert!(seg.data().is_empty());
}

#[test]
fn eci_designator_has_three_forms() {
    let check = |value: u32, expected: &str| {
        let seg = QrSegment::make_eci(value);
        assert_eq!(seg.mode(), QrSegmentMode::Eci);
        assert_eq!(seg.num_chars(), 0);
        assert_eq!(bit_string(seg.data()), expected);
    };
    check(0, "00000000");
    check(127, "01111111");
    check(128, "1000000010000000");
    check(16383, "1011111111111111");
    check(16384, "110000000100000000000000");
    check(999999, "110011110100001000111111");
}

#[test]
fn segment_constructor_keeps_its_arguments() {
    let seg = QrSegment::new(QrSegmentMode::Kanji, 3, vec![true, false, true]);
    assert_eq!(seg.mode(), QrSegmentMode::Kanji);
    assert_eq!(seg.num_chars(), 3);
    assert_eq!(seg.data(), &vec![true, false, true]);
    let copy = seg.clone();
    assert!(copy == seg);
}

#[test]
fn make_segments_picks_the_narrowest_mode() {
    assert!(QrSegment::make_segments("").is_empty());
    let segs = QrSegment::make_segments("0123456789");
    assert_eq!(segs.len(), 1);
    assert_eq!(segs[0].mode(), QrSegmentMode::Numeric);
    assert!(segs[0] == QrSegment::make_numeric("0123456789"));
    let segs = QrSegment::make_segments("HELLO WORLD");
    assert_eq!(segs.len(), 1);
    assert_eq!(segs[0].mode(), QrSegmentMode::Alphanumeric);
    assert!(segs[0] == QrSegment::make_alphanumeric("HELLO WORLD"));
    let segs = QrSegment::make_segments("Hello, world!");
    assert_eq!(segs.len(), 1);
    assert_eq!(segs[0].mode(), QrSegmentMode::Byte);
    assert!(segs[0] == QrSegment::make_bytes("Hello, world!".as_bytes()));
    let segs = QrSegment::make_segments("\u{3053}\u{3093}");
    assert_eq!(segs[0].mode(), QrSegmentMode::Byte);
    assert_eq!(segs[0].num_chars(), 6);
    assert_eq!(bit_string(segs[0].data()), "111000111000000110010011111000111000001010010011");
}

#[test]
fn is_numeric_accepts_digits_only() {
    assert!(QrSegment::is_numeric(""));
    assert!(QrSegment::is_numeric("0"));
    assert!(QrSegment::is_numeric("0123456789"));
    assert!(!QrSegment::is_numeric("12a"));
    assert!(!QrSegment::is_numeric("1 2"));
    assert!(!QrSegment::is_numeric("/"));
    assert!(!QrSegment::is_numeric(":"));
    assert!(!QrSegment::is_numeric("\u{FF11}"));
    assert!(!QrSegment::is_numeric("12\u{663}"));
}

#[test]
fn is_alphanumeric_accepts_the_charset_only() {
    assert!(QrSegment::is_alphanumeric(""));
    assert!(QrSegment::is_alphanumeric("0123456789ABCDEFGHIJKLMNOPQRSTUVWXYZ $%*+-./:"));
    assert!(!QrSegment::is_alphanumeric("a"));
    assert!(!QrSegment::is_alphanumeric("HELLO world"));
    assert!(!QrSegment::is_alphanumeric("#"));
    assert!(!QrSegment::is_alphanumeric(","));
    assert!(!QrSegment::is_alphanumeric("@"));
    assert!(!QrSegment::is_alphanumeric("["));
    assert!(!QrSegment::is_alphanumeric("A\u{C9}"));
}

#[test]
fn mode_indicator_bits() {
    assert_eq!(QrSegmentMode::Numeric.mode_bits(), 0x1);
    assert_eq!(QrSegmentMode::Alphanumeric.mode_bits(), 0x2);
    assert_eq!(QrSegmentMode::Byte.mode_bits(), 0x4);
    assert_eq!(QrSegmentMode::Kanji.mode_bits(), 0x8);
    assert_eq!(QrSegmentMode::Eci.mode_bits(), 0x7);
}

#[test]
fn character_count_field_widths_by_tier() {
    let widths = |mode: QrSegmentMode| {
        [1u8, 9, 10, 26, 27, 40].map(|v| mode.num_char_count_bits(Version::new(v)))
    };
    assert_eq!(widths(QrSegmentMode::Numeric), [10, 10, 12, 12, 14, 14]);
    assert_eq!(widths(QrSegmentMode::Alphanumeric), [9, 9, 11, 11, 13, 13]);
    assert_eq!(widths(QrSegmentMode::Byte), [8, 8, 16, 16, 16, 16]);
    assert_eq!(widths(QrSegmentMode::Kanji), [8, 8, 10, 10, 12, 12]);
    assert_eq!(widths(QrSegmentMode::Eci), [0, 0, 0, 0, 0, 0]);
}

#[test]
fn total_bits_counts_headers_and_data() {
    let segs = [QrSegment::make_alphanumeric("HELLO WORLD")];
    assert_eq!(QrSegment::get_total_bits(&segs, Version::new(1)), Some(4 + 9 + 61));
    assert_eq!(QrSegment::get_total_bits(&segs, Version::new(10)), Some(4 + 11 + 61));
    assert_eq!(QrSegment::get_total_bits(&segs, Version::new(27)), Some(4 + 13 + 61));
    assert_eq!(QrSegment::get_total_bits(&[], Version::new(1)), Some(0));
    let segs = [QrSegment::make_eci(26), QrSegment::make_bytes(&[1, 2, 3]), QrSegment::make_numeric("12345")];
    assert_eq!(QrSegment::get_total_bits(&segs, Version::new(5)), Some((4 + 8) + (4 + 8 + 24) + (4 + 10 + 17)));
}

#[test]
fn total_bits_is_none_when_a_count_overflows_its_field() {
    let long = [QrSegment::make_bytes(&[7u8; 256])];
    assert_eq!(QrSegment::get_total_bits(&long, Version::new(9)), None);
    assert_eq!(QrSegment::get_total_bits(&long, Version::new(10)), Some(4 + 16 + 2048));
    let fits = [QrSegment::make_bytes(&[7u8; 255])];
    assert_eq!(QrSegment::get_total_bits(&fits, Version::new(9)), Some(4 + 8 + 2040));
    let mixed = [QrSegment::make_numeric("1"), QrSegment::make_bytes(&[7u8; 256])];
    assert_eq!(QrSegment::get_total_bits(&mixed, Version::new(1)), None);
    let lying = [QrSegment::new(QrSegmentMode::Numeric, 1024, vec![])];
    assert_eq!(QrSegment::get_total_bits(&lying, Version::new(1)), None);
    assert_eq!(QrSegment::get_total_bits(&lying, Version::new(10)), Some(16));
}

#[test]
fn buffer_sizes_by_mode() {
    assert_eq!(QrSegment::calc_buffer_size(QrSegmentMode::Numeric, 0), Some(0));
    assert_eq!(QrSegment::calc_buffer_size(QrSegmentMode::Numeric, 1), Some(1));
    assert_eq!(QrSegment::calc_buffer_size(QrSegmentMode::Numeric, 3), Some(2));
    assert_eq!(QrSegment::calc_buffer_size(QrSegmentMode::Numeric, 7089), Some(2954));
    assert_eq!(QrSegment::calc_buffer_size(QrSegmentMode::Alphanumeric, 11), Some(8));
    assert_eq!(QrSegment::calc_buffer_size(QrSegmentMode::Alphanumeric, 4296), Some(2954));
    assert_eq!(QrSegment::calc_buffer_size(QrSegmentMode::Byte, 2953), Some(2953));
    assert_eq!(QrSegment::calc_buffer_size(QrSegmentMode::Kanji, 3), Some(5));
    assert_eq!(QrSegment::calc_buffer_size(QrSegmentMode::Eci, 0), Some(3));
    assert_eq!(QrSegment::calc_buffer_size(QrSegmentMode::Byte, usize::MAX / 4), None);
    assert_eq!(QrSegment::calc_buffer_size(QrSegmentMode::Numeric, usize::MAX / 10 + 1), None);
}

#[test]
fn bit_lengths_by_mode() {
    assert_eq!(QrSegment::calc_bit_length(QrSegmentMode::Numeric, 8), Some(27));
    assert_eq!(QrSegment::calc_bit_length(QrSegmentMode::Alphanumeric, 5), Some(28));
    assert_eq!(QrSegment::calc_bit_length(QrSegmentMode::Byte, 4), Some(32));
    assert_eq!(QrSegment::calc_bit_length(QrSegmentMode::Kanji, 3), Some(39));
    assert_eq!(QrSegment::calc_bit_length(QrSegmentMode::Eci, 0), Some(24));
    assert_eq!(QrSegment::calc_bit_length(QrSegmentMode::Kanji, usize::MAX / 13 + 1), None);
}
