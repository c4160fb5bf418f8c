use qrcodegen::QrCode;

#[test]
fn multiply_in_the_field() {
    assert_eq!(QrCode::reed_solomon_multiply(2, 0x80), 29);
    assert_eq!(QrCode::reed_solomon_multiply(0x53, 0xCA), 143);
    assert_eq!(QrCode::reed_solomon_multiply(255, 255), 226);
    assert_eq!(QrCode::reed_solomon_multiply(1, 77), 77);
    assert_eq!(QrCode::reed_solomon_multiply(77, 1), 77);
    assert_eq!(QrCode::reed_solomon_multiply(0, 5), 0);
    assert_eq!(QrCode::reed_solomon_multiply(5, 0), 0);
    assert_eq!(QrCode::reed_solomon_multiply(3, 7), 9);
    assert_eq!(QrCode::reed_solomon_multiply(0x1D, 2), 58);
    assert_eq!(QrCode::reed_solomon_multiply(0x80, 0x80), 19);
}

#[test]
fn multiply_commutes_and_distributes() {
    for x in 0u16..256 {
        for y in (0u16..256).step_by(7) {
            let (x, y) = (x as u8, y as u8);
            assert_eq!(QrCode::reed_solomon_multiply(x, y), QrCode::reed_solomon_multiply(y, x));
            let z = 0xA7u8;
            assert_eq!(
                QrCode::reed_solomon_multiply(x, y ^ z),
                QrCode::reed_solomon_multiply(x, y) ^ QrCode::reed_solomon_multiply(x, z)
            );
        }
    }
}

#[test]
fn divisors_of_some_degrees() {
    assert_eq!(QrCode::reed_solomon_compute_divisor(1), vec![1]);
    assert_eq!(QrCode::reed_solomon_compute_divisor(2), vec![3, 2]);
    assert_eq!(QrCode::reed_solomon_compute_divisor(7), vec![127, 122, 154, 164, 11, 68, 117]);
    assert_eq!(
        QrCode::reed_solomon_compute_divisor(10),
        vec![216, 194, 159, 111, 199, 94, 95, 113, 157, 193]
    );
    assert_eq!(
        QrCode::reed_solomon_compute_divisor(30),
        vec![
            212, 246, 77, 73, 195, 192, 75, 98, 5, 70, 103, 177, 22, 217, 138, 51, 181, 246, 72, 25, 18, 46,
            228, 74, 216, 195, 11, 106, 130, 150
        ]
    );
    assert_eq!(QrCode::reed_solomon_compute_divisor(255).len(), 255);
}

#[test]
fn remainder_of_a_known_block() {
    let data: [u8; 16] = [32, 91, 11, 120, 209, 114, 220, 77, 67, 64, 236, 17, 236, 17, 236, 17];
    let divisor = QrCode::reed_solomon_compute_divisor(10);
    assert_eq!(
        QrCode::reed_solomon_compute_remainder(&data, &divisor),
        vec![196, 35, 39, 119, 235, 215, 231, 226, 93, 23]
    );
    assert_eq!(QrCode::reed_solomon_compute_remainder(&[], &divisor), vec![0; 10]);
}

#[test]
fn data_with_its_remainder_divides_evenly() {
    for degree in [1usize, 2, 7, 10, 17, 30] {
        let divisor = QrCode::reed_solomon_compute_divisor(degree);
        let data: Vec<u8> = (0..50u32).map(|i| (i * 73 + 19) as u8).collect();
        let ecc = QrCode::reed_solomon_compute_remainder(&data, &divisor);
        assert_eq!(ecc.len(), degree);
        let mut whole = data.clone();
        whole.extend_from_slice(&ecc);
        assert_eq!(QrCode::reed_solomon_compute_remainder(&whole, &divisor), vec![0u8; degree]);
    }
}
