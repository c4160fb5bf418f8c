use qrcodegen::{get_bit, BitBuffer, Mask, QrCodeEcc, Version};

#[test]
fn version_holds_its_number() {
    assert_eq!(Version::new(1).value(), 1);
    assert_eq!(Version::new(17).value(), 17);
    assert_eq!(Version::new(40).value(), 40);
    assert_eq!(Version::min().value(), 1);
    assert_eq!(Version::max().value(), 40);
    assert_eq!(Version::new(7), Version::new(7));
    assert_ne!(Version::new(7), Version::new(8));
    assert!(Version::new(7) < Version::new(8));
    assert!(Version::min() <= Version::max());
    assert!(QrCodeEcc::Low < QrCodeEcc::Medium);
    assert!(QrCodeEcc::Medium < QrCodeEcc::Quartile);
    assert!(QrCodeEcc::Quartile < QrCodeEcc::High);
    assert!(Mask::new(0) < Mask::new(7));
}

#[test]
fn version_buffer_len_counts_packed_modules() {
    // (21 * 21 + 7) / 8 + 1
    assert_eq!(Version::new(1).buffer_len(), 57);
    // (177 * 177 + 7) / 8 + 1
    assert_eq!(Version::new(40).buffer_len(), 3918);
    assert_eq!(Version::new(7).buffer_len(), (45 * 45 + 7) / 8 + 1);
}

#[test]
fn mask_holds_its_number() {
    for i in 0u8..8 {
        assert_eq!(Mask::new(i).value(), i);
    }
    assert_eq!(Mask::new(3), Mask::new(3));
}

#[test]
fn ecc_ordinal_and_format_bits() {
    assert_eq!(QrCodeEcc::Low.ordinal(), 0);
    assert_eq!(QrCodeEcc::Medium.ordinal(), 1);
    assert_eq!(QrCodeEcc::Quartile.ordinal(), 2);
    assert_eq!(QrCodeEcc::High.ordinal(), 3);
    assert_eq!(QrCodeEcc::Low.format_bits(), 1);
    assert_eq!(QrCodeEcc::Medium.format_bits(), 0);
    assert_eq!(QrCodeEcc::Quartile.format_bits(), 3);
    assert_eq!(QrCodeEcc::High.format_bits(), 2);
}

#[test]
fn get_bit_reads_single_bits() {
    assert!(get_bit(1, 0));
    assert!(!get_bit(1, 1));
    assert!(get_bit(0x8000_0000, 31));
    assert!(!get_bit(0x7FFF_FFFF, 31));
    assert!(get_bit(0b1010, 3));
    assert!(!get_bit(0b1010, 2));
    assert!(get_bit(0b1010, 1));
    assert!(!get_bit(0b1010, 0));
    assert!(!get_bit(0, 17));
}

#[test]
fn bit_buffer_appends_most_significant_bit_first() {
    let mut bb = BitBuffer::new();
    assert_eq!(bb.len(), 0);
    bb.append_bits(0b101, 3);
    assert_eq!(bb.0, vec![true, false, true]);
    bb.append_bits(0, 0);
    assert_eq!(bb.len(), 3);
    bb.append_bits(1, 4);
    assert_eq!(bb.0, vec![true, false, true, false, false, false, true]);
    bb.append_bits(0x7FFF_FFFF, 31);
    assert_eq!(bb.len(), 38);
    assert!(bb.0[7..].iter().all(|&b| b));
}
