use qrcodegen::{FinderPenalty, Mask, QrCode, QrCodeEcc, QrSegment, Version};

#[test]
fn no_runs_no_finder_like_pattern() {
    assert_eq!(FinderPenalty::new(21).count_patterns(), 0);
    assert_eq!(FinderPenalty::new(21).terminate_and_count(false, 21), 0);
    assert_eq!(FinderPenalty::new(21).terminate_and_count(true, 21), 0);
}

#[test]
fn finder_like_pattern_with_wide_borders_counts_twice() {
    let mut fp = FinderPenalty::new(21);
    fp.add_history(0); // light, at the edge: counts as 21
    fp.add_history(1); // dark
    fp.add_history(1); // light
    fp.add_history(3); // dark
    fp.add_history(1); // light
    fp.add_history(1); // dark
    fp.add_history(5); // light
    assert_eq!(fp.count_patterns(), 2);
}

#[test]
fn finder_like_pattern_with_one_wide_border_counts_once() {
    let mut fp = FinderPenalty::new(21);
    fp.add_history(0);
    fp.add_history(1);
    fp.add_history(1);
    fp.add_history(3);
    fp.add_history(1);
    fp.add_history(1);
    fp.add_history(2);
    assert_eq!(fp.count_patterns(), 1);

    let mut fp = FinderPenalty::new(21);
    fp.add_history(3); // light run of 3 away from the edge rule: first run takes the border
    fp.add_history(2);
    fp.add_history(2);
    fp.add_history(6);
    fp.add_history(2);
    fp.add_history(2);
    fp.add_history(7);
    assert_eq!(fp.count_patterns(), 1);
}

#[test]
fn wrong_ratio_is_no_pattern() {
    let mut fp = FinderPenalty::new(21);
    fp.add_history(0);
    fp.add_history(1);
    fp.add_history(1);
    fp.add_history(2);
    fp.add_history(1);
    fp.add_history(1);
    fp.add_history(5);
    assert_eq!(fp.count_patterns(), 0);
}

#[test]
fn terminate_closes_a_dark_run_and_adds_the_border() {
    let mut fp = FinderPenalty::new(21);
    fp.add_history(0);
    fp.add_history(1);
    fp.add_history(1);
    fp.add_history(3);
    fp.add_history(1);
    assert_eq!(fp.terminate_and_count(true, 1), 2);

    let mut fp = FinderPenalty::new(21);
    fp.add_history(0);
    fp.add_history(1);
    fp.add_history(1);
    fp.add_history(3);
    fp.add_history(1);
    fp.add_history(1);
    assert_eq!(fp.terminate_and_count(false, 0), 2);

    let mut fp = FinderPenalty::new(21);
    fp.add_history(4);
    fp.add_history(1);
    fp.add_history(1);
    fp.add_history(3);
    fp.add_history(1);
    assert_eq!(fp.terminate_and_count(true, 2), 0);
}

#[test]
fn penalty_scores_of_each_mask() {
    let segs = QrSegment::make_segments("HELLO WORLD");
    let expected = [1067, 1230, 1266, 1161, 1339, 1276, 1074, 1278];
    for m in 0u8..8 {
        let qr = QrCode::encode_segments_advanced(
            &segs,
            QrCodeEcc::Quartile,
            Version::min(),
            Version::max(),
            Some(Mask::new(m)),
            true,
        )
        .unwrap();
        assert_eq!(qr.get_penalty_score(), expected[usize::from(m)]);
    }
}

#[test]
fn penalty_score_of_an_empty_symbol() {
    let qr = QrCode::encode_codewords(Version::new(1), QrCodeEcc::Low, &[0u8; 19], Some(Mask::new(0)));
    assert_eq!(qr.get_penalty_score(), 914);
}

#[test]
fn automatic_mask_has_the_lowest_penalty() {
    let texts = ["HELLO WORLD", "Hello, world!", "314159265358979323846264338327950288419716939937510", ""];
    let expected_masks = [0u8, 2, 3, 6];
    for (text, &expected_mask) in texts.iter().zip(expected_masks.iter()) {
        let segs = QrSegment::make_segments(text);
        let auto = QrCode::encode_segments_advanced(
            &segs,
            QrCodeEcc::Low,
            Version::min(),
            Version::max(),
            None,
            true,
        )
        .unwrap();
        let mut lowest = i32::MAX;
        let mut first = 0u8;
        for m in 0u8..8 {
            let forced = QrCode::encode_segments_advanced(
                &segs,
                QrCodeEcc::Low,
                Version::min(),
                Version::max(),
                Some(Mask::new(m)),
                true,
            )
            .unwrap();
            assert_eq!(forced.mask().value(), m);
            assert!(auto.get_penalty_score() <= forced.get_penalty_score());
            if forced.get_penalty_score() < lowest {
                lowest = forced.get_penalty_score();
                first = m;
            }
            if m == auto.mask().value() {
                assert!(forced == auto);
            }
        }
        assert_eq!(auto.get_penalty_score(), lowest);
        assert_eq!(auto.mask().value(), first);
        assert_eq!(auto.mask().value(), expected_mask);
    }
}
