//! Building a symbol from codewords, from segments, from bytes and from text.

use vstd::prelude::*;
use crate::assemble::{spec_boosted, spec_data_codewords, spec_fits, spec_too_long, DataTooLong};
use crate::interleave::spec_add_ecc_and_interleave;
use crate::segment::{spec_byte_segments, spec_models, spec_text_segments, spec_total_bits, QrSegment, SegmentModel};
use crate::pattern::{spec_format_bit_index, spec_function_dark, spec_is_function_module};
use crate::penalty::{spec_penalty_score, Picture};
use crate::qr_code::QrCode;
use crate::symbol::{spec_codeword_dark, spec_symbol_module};
use crate::tables::spec_num_data_codewords;
use crate::version::{spec_size, Mask, QrCodeEcc, Version};

verus! {

/// The finished symbol as a picture.
pub open spec fn spec_symbol_picture(ver: int, ecl: QrCodeEcc, codewords: Seq<u8>, mask: int) -> Picture {
    |x: int, y: int| spec_symbol_module(ver, ecl, codewords, mask, x, y)
}

/// The penalty score of the finished symbol under the given mask.
pub open spec fn spec_mask_penalty(ver: int, ecl: QrCodeEcc, codewords: Seq<u8>, mask: int) -> int {
    spec_penalty_score(spec_symbol_picture(ver, ecl, codewords, mask), spec_size(ver))
}

/// Whether `mask` is the mask that automatic selection chooses: its penalty
/// score is the lowest of the eight, and it is the first mask with that score.
pub open spec fn spec_is_best_mask(ver: int, ecl: QrCodeEcc, codewords: Seq<u8>, mask: int) -> bool {
    &&& 0 <= mask <= 7
    &&& forall|m: int|
        0 <= m <= 7 ==> spec_mask_penalty(ver, ecl, codewords, mask) <= #[trigger] spec_mask_penalty(
            ver,
            ecl,
            codewords,
            m,
        )
    &&& forall|m: int|
        0 <= m < mask ==> spec_mask_penalty(ver, ecl, codewords, mask) < #[trigger] spec_mask_penalty(
            ver,
            ecl,
            codewords,
            m,
        )
}

/// Automatic mask selection's penalty score is at most the score obtained by
/// forcing any single mask from 0 to 7 on the same codewords, version and level.
pub proof fn lemma_best_mask_penalty(ver: int, ecl: QrCodeEcc, codewords: Seq<u8>, best: int, forced: int)
    requires
        spec_is_best_mask(ver, ecl, codewords, best),
        0 <= forced <= 7,
    ensures
        spec_mask_penalty(ver, ecl, codewords, best) <= spec_mask_penalty(ver, ecl, codewords, forced),
{
}

/// Automatic mask selection has one outcome: two best masks are the same mask.
pub proof fn lemma_best_mask_unique(ver: int, ecl: QrCodeEcc, codewords: Seq<u8>, a: int, b: int)
    requires
        spec_is_best_mask(ver, ecl, codewords, a),
        spec_is_best_mask(ver, ecl, codewords, b),
    ensures
        a == b,
{
    if a < b {
        assert(spec_mask_penalty(ver, ecl, codewords, b) < spec_mask_penalty(ver, ecl, codewords, a));
    } else if b < a {
        assert(spec_mask_penalty(ver, ecl, codewords, a) < spec_mask_penalty(ver, ecl, codewords, b));
    }
}

/// What encoding the given segments gives, with the given level, range of
/// versions, mask (or none, for automatic selection) and boost flag.
///
/// A symbol comes out if and only if the segments fit a version of the
/// range at the given level. It has the smallest such version; the given
/// level, or with the boost the highest level that the data still fits; the
/// given mask, or the one with the lowest penalty score; and each module as
/// the data codewords of the segments, their error correction and the mask
/// make it. Else the error tells why the largest version does not do.
pub open spec fn spec_encoding(
    outcome: Result<QrCode, DataTooLong>,
    segs: Seq<SegmentModel>,
    ecl: QrCodeEcc,
    min: int,
    max: int,
    mask: Option<Mask>,
    boost: bool,
) -> bool {
    match outcome {
        Ok(qr) => {
            let ver = qr.spec_version().spec_value();
            let level = qr.spec_error_correction_level();
            let codewords = spec_add_ecc_and_interleave(ver, level, spec_data_codewords(segs, ver, level));
            &&& min <= ver <= max
            &&& qr.spec_side() == spec_size(ver)
            &&& spec_fits(segs, ver, ecl)
            &&& forall|u: int| min <= u < ver ==> !#[trigger] spec_fits(segs, u, ecl)
            &&& level == spec_boosted(ecl, spec_total_bits(segs, ver)->Some_0, ver, boost)
            &&& mask matches Some(m) ==> qr.spec_mask() == m
            &&& mask is None ==> spec_is_best_mask(ver, level, codewords, qr.spec_mask().spec_value())
            &&& forall|x: int, y: int|
                qr.spec_module(x, y) == spec_symbol_module(
                    ver,
                    level,
                    codewords,
                    qr.spec_mask().spec_value(),
                    x,
                    y,
                )
        },
        Err(e) => {
            &&& forall|u: int| min <= u <= max ==> !#[trigger] spec_fits(segs, u, ecl)
            &&& e == spec_too_long(segs, max, ecl)
        },
    }
}

/// Automatic mask selection's penalty score is at most the score obtained by
/// forcing any single mask on the same segments, range of versions, level
/// and boost flag. The two symbols have the same version and level.
#[verifier::spinoff_prover]
#[verifier::rlimit(40)]
pub proof fn lemma_automatic_mask_is_best(
    automatic: QrCode,
    forced: QrCode,
    segs: Seq<SegmentModel>,
    ecl: QrCodeEcc,
    min: int,
    max: int,
    mask: Mask,
    boost: bool,
)
    requires
        mask.in_range(),
        spec_encoding(Ok(automatic), segs, ecl, min, max, None, boost),
        spec_encoding(Ok(forced), segs, ecl, min, max, Some(mask), boost),
    ensures
        automatic.spec_version() == forced.spec_version(),
        automatic.spec_error_correction_level() == forced.spec_error_correction_level(),
        spec_penalty_score(automatic.spec_picture(), automatic.spec_side()) <= spec_penalty_score(
            forced.spec_picture(),
            forced.spec_side(),
        ),
{
    let ver = automatic.spec_version().spec_value();
    automatic.spec_version().lemma_same_value(forced.spec_version());
    let level = automatic.spec_error_correction_level();
    let codewords = spec_add_ecc_and_interleave(ver, level, spec_data_codewords(segs, ver, level));
    assert(automatic.spec_picture() =~= spec_symbol_picture(
        ver,
        level,
        codewords,
        automatic.spec_mask().spec_value(),
    ));
    assert(forced.spec_picture() =~= spec_symbol_picture(ver, level, codewords, mask.spec_value()));
    assert(spec_mask_penalty(ver, level, codewords, automatic.spec_mask().spec_value())
        <= spec_mask_penalty(ver, level, codewords, mask.spec_value()));
}

/// A character takes at most four bytes in UTF-8.
pub proof fn lemma_utf8_len(text: Seq<char>)
    ensures
        vstd::utf8::encode_utf8(text).len() <= 4 * text.len(),
    decreases text.len(),
{
    if text.len() > 0 {
        lemma_utf8_len(text.drop_first());
    }
}

/// Up to 2953 bytes fit the largest symbol at the lowest level, and no more
/// bytes fit any symbol.
#[verifier::spinoff_prover]
#[verifier::rlimit(40)]
pub proof fn lemma_bytes_fit(data: Seq<u8>, ver: int, ecl: QrCodeEcc)
    requires
        1 <= ver <= 40,
    ensures
        data.len() <= 2953 ==> spec_fits(spec_byte_segments(data), 40, QrCodeEcc::Low),
        data.len() > 2953 ==> !spec_fits(spec_byte_segments(data), ver, ecl),
{
    let segs = spec_byte_segments(data);
    crate::tables::lemma_largest_capacity(ver, ecl);
    vstd::arithmetic::power2::lemma2_to64();
    assert(spec_total_bits(segs.drop_last(), ver) == Some(0int));
    assert(spec_total_bits(segs.drop_last(), 40) == Some(0int));
}

/// A text of up to 738 code points fits the largest symbol at the lowest level.
#[verifier::spinoff_prover]
#[verifier::rlimit(40)]
pub proof fn lemma_text_fits(text: Seq<char>)
    requires
        text.len() <= 738,
    ensures
        spec_fits(spec_text_segments(text), 40, QrCodeEcc::Low),
{
    let segs = spec_text_segments(text);
    crate::tables::lemma_largest_capacity(40, QrCodeEcc::Low);
    vstd::arithmetic::power2::lemma2_to64();
    if text.len() > 0 {
        assert(spec_total_bits(segs.drop_last(), 40) == Some(0int));
        crate::split_cost::lemma_numeric_bits_len(text);
        crate::split_cost::lemma_alphanumeric_bits_len(text);
        lemma_utf8_len(text);
        lemma_bytes_fit(vstd::utf8::encode_utf8(text), 40, QrCodeEcc::Low);
    }
}

impl QrCode {
    /// Returns a QR Code representing the given Unicode text string at the given error correction level.
    ///
    /// As a conservative upper bound, this function is guaranteed to succeed for strings that have 738 or fewer Unicode
    /// code points (not UTF-8 code units) if the low error correction level is used. The smallest possible
    /// QR Code version is automatically chosen for the output. The ECC level of the result may be higher than
    /// the ecl argument if it can be done without increasing the version.
    ///
    /// Returns a wrapped `QrCode` if successful, or `Err` if the
    /// data is too long to fit in any version at the given ECC level.
    pub fn encode_text(text: &str, ecl: QrCodeEcc) -> (outcome: Result<QrCode, DataTooLong>)
        ensures
            spec_encoding(outcome, spec_text_segments(text@), ecl, 1, 40, None, true),
            text@.len() <= 738 && ecl == QrCodeEcc::Low ==> outcome is Ok,
    {
        proof {
            if text@.len() <= 738 {
                lemma_text_fits(text@);
            }
        }
        let segs: Vec<QrSegment> = QrSegment::make_segments(text);
        QrCode::encode_segments(segs.as_slice(), ecl)
    }

    /// Returns a QR Code representing the given binary data at the given error correction level.
    ///
    /// This function always encodes using the binary segment mode, not any text mode. The maximum number of
    /// bytes allowed is 2953. The smallest possible QR Code version is automatically chosen for the output.
    /// The ECC level of the result may be higher than the ecl argument if it can be done without increasing the version.
    ///
    /// Returns a wrapped `QrCode` if successful, or `Err` if the
    /// data is too long to fit in any version at the given ECC level.
    pub fn encode_binary(data: &[u8], ecl: QrCodeEcc) -> (outcome: Result<QrCode, DataTooLong>)
        ensures
            spec_encoding(outcome, spec_byte_segments(data@), ecl, 1, 40, None, true),
            data@.len() <= 2953 && ecl == QrCodeEcc::Low ==> outcome is Ok,
            data@.len() > 2953 ==> outcome is Err,
    {
        let mut segs: Vec<QrSegment> = Vec::new();
        segs.push(QrSegment::make_bytes(data));
        assert(spec_models(segs@) =~= spec_byte_segments(data@));
        let outcome = QrCode::encode_segments(segs.as_slice(), ecl);
        proof {
            lemma_bytes_fit(data@, 40, ecl);
            if outcome is Ok {
                lemma_bytes_fit(data@, outcome->Ok_0.spec_version().spec_value(), ecl);
            }
        }
        outcome
    }

    /// Returns a QR Code representing the given segments at the given error correction level.
    ///
    /// The smallest possible QR Code version is automatically chosen for the output. The ECC level
    /// of the result may be higher than the ecl argument if it can be done without increasing the version.
    ///
    /// This function allows the user to create a custom sequence of segments that switches
    /// between modes (such as alphanumeric and byte) to encode text in less space.
    /// This is a mid-level API; the high-level API is `encode_text()` and `encode_binary()`.
    ///
    /// Returns a wrapped `QrCode` if successful, or `Err` if the
    /// data is too long to fit in any version at the given ECC level.
    pub fn encode_segments(segs: &[QrSegment], ecl: QrCodeEcc) -> (outcome: Result<QrCode, DataTooLong>)
        ensures
            spec_encoding(outcome, spec_models(segs@), ecl, 1, 40, None, true),
    {
        QrCode::encode_segments_advanced(segs, ecl, Version::min(), Version::max(), None, true)
    }

    /// Returns a QR Code representing the given segments with the given encoding parameters.
    ///
    /// The smallest possible QR Code version within the given range is automatically
    /// chosen for the output. Iff boostecl is `true`, then the ECC level of the result
    /// may be higher than the ecl argument if it can be done without increasing the
    /// version. The mask number is either between 0 to 7 (inclusive) to force that
    /// mask, or `None` to automatically choose an appropriate mask (which may be slow).
    ///
    /// This function allows the user to create a custom sequence of segments that switches
    /// between modes (such as alphanumeric and byte) to encode text in less space.
    /// This is a mid-level API; the high-level API is `encode_text()` and `encode_binary()`.
    ///
    /// Returns a wrapped `QrCode` if successful, or `Err` if the data is too
    /// long to fit in any version in the given range at the given ECC level.
    /// The range must not be empty.
    pub fn encode_segments_advanced(
        segs: &[QrSegment],
        ecl: QrCodeEcc,
        minversion: Version,
        maxversion: Version,
        mask: Option<Mask>,
        boostecl: bool,
    ) -> (outcome: Result<QrCode, DataTooLong>)
        requires
            minversion.spec_value() <= maxversion.spec_value(),
        ensures
            spec_encoding(
                outcome,
                spec_models(segs@),
                ecl,
                minversion.spec_value(),
                maxversion.spec_value(),
                mask,
                boostecl,
            ),
    {
        match QrCode::encode_segments_to_codewords(segs, ecl, minversion, maxversion, boostecl) {
            Err(e) => Err(e),
            Ok((datacodewords, level, version)) => {
                // Create the QR Code object
                Ok(QrCode::encode_codewords(version, level, datacodewords.as_slice(), mask))
            },
        }
    }

    /// The symbol under construction holds the function patterns and the
    /// codewords, no mask applied; its format information may be that of any mask.
    pub open spec fn spec_unmasked(&self, codewords: Seq<u8>) -> bool {
        let ver = self.spec_version().spec_value();
        let ecl = self.spec_error_correction_level();
        &&& self.spec_marks_held()
        &&& self.spec_side() == spec_size(ver)
        &&& forall|a: int, b: int|
            #![trigger self.spec_is_function(a, b)]
            self.spec_is_function(a, b) == spec_is_function_module(ver, a, b)
        &&& forall|a: int, b: int|
            #![trigger self.spec_module(a, b)]
            self.spec_inside(a, b) ==> self.spec_module(a, b) == if spec_is_function_module(ver, a, b) {
                if spec_format_bit_index(ver, a, b) >= 0 {
                    self.spec_module(a, b)
                } else {
                    spec_function_dark(ver, ecl, 0, a, b)
                }
            } else {
                spec_codeword_dark(ver, codewords, a, b)
            }
    }

    /// The symbol under construction is the finished symbol for the given mask.
    pub open spec fn spec_shows(&self, codewords: Seq<u8>, mask: int) -> bool {
        forall|a: int, b: int|
            #![trigger self.spec_module(a, b)]
            self.spec_module(a, b) == spec_symbol_module(
                self.spec_version().spec_value(),
                self.spec_error_correction_level(),
                codewords,
                mask,
                a,
                b,
            )
    }

    /// Applies the mask and draws its format bits: the symbol as it would be finished with this mask.
    #[verifier::spinoff_prover]
    #[verifier::rlimit(40)]
    fn put_mask(&mut self, mask: Mask, Ghost(codewords): Ghost<Seq<u8>>)
        requires
            old(self).spec_unmasked(codewords),
        ensures
            final(self).same_frame(old(self)),
            final(self).spec_shows(codewords, mask.spec_value()),
            forall|a: int, b: int| final(self).spec_is_function(a, b) == old(self).spec_is_function(a, b),
            final(self).spec_picture() == spec_symbol_picture(
                old(self).spec_version().spec_value(),
                old(self).spec_error_correction_level(),
                codewords,
                mask.spec_value(),
            ),
    {
        let ghost ver = self.spec_version().spec_value();
        self.apply_mask(mask);
        self.draw_format_bits(mask);
        proof {
            assert forall|a: int, b: int|
                #![trigger self.spec_module(a, b)]
                self.spec_module(a, b) == spec_symbol_module(
                    ver,
                    self.spec_error_correction_level(),
                    codewords,
                    mask.spec_value(),
                    a,
                    b,
                ) by {
                self.lemma_outside_is_light(a, b);
            }
            assert(self.spec_picture() =~= spec_symbol_picture(
                ver,
                self.spec_error_correction_level(),
                codewords,
                mask.spec_value(),
            ));
        }
    }

    /// Takes the mask off again; the format bits stay as they are.
    #[verifier::spinoff_prover]
    #[verifier::rlimit(40)]
    fn take_mask(&mut self, mask: Mask, Ghost(codewords): Ghost<Seq<u8>>, Ghost(before): Ghost<QrCode>)
        requires
            before.spec_unmasked(codewords),
            old(self).same_frame(&before),
            old(self).spec_shows(codewords, mask.spec_value()),
            forall|a: int, b: int| old(self).spec_is_function(a, b) == before.spec_is_function(a, b),
        ensures
            final(self).same_frame(old(self)),
            final(self).spec_unmasked(codewords),
    {
        let ghost ver = self.spec_version().spec_value();
        self.apply_mask(mask);
        proof {
            assert forall|a: int, b: int|
                #![trigger self.spec_is_function(a, b)]
                self.spec_is_function(a, b) == spec_is_function_module(ver, a, b) by {
                assert(before.spec_is_function(a, b) == spec_is_function_module(ver, a, b));
            }
            assert forall|a: int, b: int|
                #![trigger self.spec_module(a, b)]
                self.spec_inside(a, b) implies self.spec_module(a, b) == if spec_is_function_module(ver, a, b) {
                    if spec_format_bit_index(ver, a, b) >= 0 {
                        self.spec_module(a, b)
                    } else {
                        spec_function_dark(ver, self.spec_error_correction_level(), 0, a, b)
                    }
                } else {
                    spec_codeword_dark(ver, codewords, a, b)
                } by {
            }
        }
    }

    /// Creates a new QR Code with the given version number,
    /// error correction level, data codeword bytes, and mask number.
    ///
    /// This is a low-level API that most users should not use directly.
    /// A mid-level API is the `encode_segments()` function.
    ///
    /// The data must have as many codewords as the version and level hold.
    /// With no mask given, the mask with the lowest penalty score is chosen,
    /// and of several the first.
    #[verifier::spinoff_prover]
    #[verifier::rlimit(40)]
    pub fn encode_codewords(ver: Version, ecl: QrCodeEcc, datacodewords: &[u8], msk: Option<Mask>) -> (qr:
        QrCode)
        requires
            datacodewords@.len() == spec_num_data_codewords(ver.spec_value(), ecl),
        ensures
            qr.spec_version() == ver,
            qr.spec_error_correction_level() == ecl,
            qr.spec_side() == spec_size(ver.spec_value()),
            msk matches Some(m) ==> qr.spec_mask() == m,
            msk is None ==> spec_is_best_mask(
                ver.spec_value(),
                ecl,
                spec_add_ecc_and_interleave(ver.spec_value(), ecl, datacodewords@),
                qr.spec_mask().spec_value(),
            ),
            forall|x: int, y: int|
                qr.spec_module(x, y) == spec_symbol_module(
                    ver.spec_value(),
                    ecl,
                    spec_add_ecc_and_interleave(ver.spec_value(), ecl, datacodewords@),
                    qr.spec_mask().spec_value(),
                    x,
                    y,
                ),
    {
        let ghost v = ver.spec_value();
        let ghost codewords = spec_add_ecc_and_interleave(v, ecl, datacodewords@);
        // Initialize fields
        let mut result: QrCode = QrCode::blank(ver, ecl);

        // Compute ECC, draw modules
        result.draw_function_patterns();
        let allcodewords: Vec<u8> = result.add_ecc_and_interleave(datacodewords);
        result.draw_codewords(allcodewords.as_slice());

        // Do masking
        let mut chosen: Option<Mask> = msk;
        if msk.is_none() {  // Automatically choose best mask
            let mut minpenalty: i32 = i32::MAX;
            for i in 0u8..8
                invariant
                    result.spec_unmasked(codewords),
                    result.spec_version() == ver,
                    result.spec_error_correction_level() == ecl,
                    v == ver.spec_value(),
                    i == 0 ==> chosen is None && minpenalty == i32::MAX,
                    i > 0 ==> chosen is Some,
                    chosen matches Some(best) ==> {
                        &&& 0 <= best.spec_value() < i
                        &&& minpenalty == spec_mask_penalty(v, ecl, codewords, best.spec_value())
                        &&& forall|m: int|
                            0 <= m < i ==> minpenalty <= #[trigger] spec_mask_penalty(v, ecl, codewords, m)
                        &&& forall|m: int|
                            0 <= m < best.spec_value() ==> minpenalty < #[trigger] spec_mask_penalty(
                                v,
                                ecl,
                                codewords,
                                m,
                            )
                    },
            {
                let mask: Mask = Mask::new(i);
                let ghost before = result;
                result.put_mask(mask, Ghost(codewords));
                let penalty: i32 = result.get_penalty_score();
                if penalty < minpenalty {
                    chosen = Some(mask);
                    minpenalty = penalty;
                }
                result.take_mask(mask, Ghost(codewords), Ghost(before));  // Undoes the mask due to XOR
            }
        }
        let mask: Mask = match chosen {
            Some(m) => m,
            None => Mask::new(0),
        };
        result.set_mask(mask);
        result.put_mask(mask, Ghost(codewords));  // Apply the final choice of mask, overwrite old format bits
        result.discard_marks();
        result
    }
}

} // verus!
