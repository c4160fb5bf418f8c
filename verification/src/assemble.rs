//! From segments to data codewords: choosing the version, raising the error
//! correction level, and laying out the bit string with its padding.

use vstd::prelude::*;
use vstd::arithmetic::power2::{lemma2_to64, pow2};
use crate::bit_buffer::{lemma_value_fits, spec_bits, BitBuffer};
use crate::qr_code::QrCode;
use crate::segment::{
    spec_mode_bits, spec_models, spec_num_char_count_bits, spec_segment_total_bits, spec_total_bits,
    QrSegment, SegmentModel,
};
use crate::tables::spec_num_data_codewords;
use crate::version::{spec_bit, QrCodeEcc, Version};

verus! {

/// The error type when the supplied data does not fit any QR Code version.
///
/// Ways to handle this exception include:
///
/// - Decrease the error correction level if it was greater than `QrCodeEcc::Low`.
/// - If the `encode_segments_advanced()` function was called, then increase the maxversion
///   argument if it was less than `Version::max()`. (This advice does not apply to the
///   other factory functions because they search all versions up to `Version::max()`.)
/// - Split the text data into better or optimal segments in order to reduce the number of bits required.
/// - Change the text or binary data to be shorter.
/// - Change the text to fit the character set of a particular segment mode (e.g. alphanumeric).
/// - Propagate the error upward to the caller/user.
#[derive(Debug, Clone, Copy, PartialEq, Eq, Structural)]
pub enum DataTooLong {
    /// A segment has more characters than its count field can tell, at the largest version tried.
    SegmentTooLong,
    /// The data needs the first number of bits, and the largest version tried holds the second.
    DataOverCapacity(usize, usize),
}

/// The number of data bits that a symbol of the given version and level holds.
pub open spec fn spec_capacity_bits(ver: int, ecl: QrCodeEcc) -> int {
    spec_num_data_codewords(ver, ecl) * 8
}

/// Whether the segments fit a symbol of the given version and level.
pub open spec fn spec_fits(segs: Seq<SegmentModel>, ver: int, ecl: QrCodeEcc) -> bool {
    match spec_total_bits(segs, ver) {
        Some(used) => used <= spec_capacity_bits(ver, ecl),
        None => false,
    }
}

/// The error that tells why the segments do not fit the given version, the
/// largest one tried.
pub open spec fn spec_too_long(segs: Seq<SegmentModel>, ver: int, ecl: QrCodeEcc) -> DataTooLong {
    match spec_total_bits(segs, ver) {
        Some(used) => DataTooLong::DataOverCapacity(used as usize, spec_capacity_bits(ver, ecl) as usize),
        None => DataTooLong::SegmentTooLong,
    }
}

/// The error correction levels above the lowest, in rising order, counted from 1.
pub open spec fn spec_level(k: int) -> QrCodeEcc {
    if k <= 1 {
        QrCodeEcc::Medium
    } else if k == 2 {
        QrCodeEcc::Quartile
    } else {
        QrCodeEcc::High
    }
}

/// The level after the first `k` of the three steps of the boost: each step
/// goes to the next level above the lowest if the data fits that level too,
/// and else stays.
pub open spec fn spec_boosted_after(ecl: QrCodeEcc, used: int, ver: int, k: int) -> QrCodeEcc
    decreases k,
{
    if k <= 0 {
        ecl
    } else if used <= spec_capacity_bits(ver, spec_level(k)) {
        spec_level(k)
    } else {
        spec_boosted_after(ecl, used, ver, k - 1)
    }
}

/// The error correction level that a symbol gets: the one asked for, or with
/// the boost the highest level that the data still fits at the same version.
pub open spec fn spec_boosted(ecl: QrCodeEcc, used: int, ver: int, boost: bool) -> QrCodeEcc {
    if boost {
        spec_boosted_after(ecl, used, ver, 3)
    } else {
        ecl
    }
}

/// The boost never lowers the level, the data fits the level that it gives,
/// and with the boost the data fits no higher level.
pub proof fn lemma_boost_is_monotonic(ecl: QrCodeEcc, used: int, ver: int, boost: bool, higher: QrCodeEcc)
    requires
        1 <= ver <= 40,
        used <= spec_capacity_bits(ver, ecl),
    ensures
        spec_boosted(ecl, used, ver, boost).spec_ordinal() >= ecl.spec_ordinal(),
        used <= spec_capacity_bits(ver, spec_boosted(ecl, used, ver, boost)),
        !boost ==> spec_boosted(ecl, used, ver, boost) == ecl,
        boost && higher.spec_ordinal() > spec_boosted(ecl, used, ver, boost).spec_ordinal() ==> used
            > spec_capacity_bits(ver, higher),
{
    crate::tables::lemma_table_entries(ver, ecl);
    assert(spec_boosted_after(ecl, used, ver, 0) == ecl);
    let one = spec_boosted_after(ecl, used, ver, 1);
    let two = spec_boosted_after(ecl, used, ver, 2);
    let three = spec_boosted_after(ecl, used, ver, 3);
    assert(one == if used <= spec_capacity_bits(ver, QrCodeEcc::Medium) {
        QrCodeEcc::Medium
    } else {
        ecl
    });
    assert(two == if used <= spec_capacity_bits(ver, QrCodeEcc::Quartile) {
        QrCodeEcc::Quartile
    } else {
        one
    });
    assert(three == if used <= spec_capacity_bits(ver, QrCodeEcc::High) {
        QrCodeEcc::High
    } else {
        two
    });
}

/// The bits of one segment in a symbol of the given version: the four bits of
/// the mode indicator, the character count in the width of its field, the data.
pub open spec fn spec_segment_bits(seg: SegmentModel, ver: int) -> Seq<bool> {
    spec_bits(spec_mode_bits(seg.mode), 4) + spec_bits(
        seg.num_chars as u32,
        spec_num_char_count_bits(seg.mode, ver) as nat,
    ) + seg.bits
}

/// The bits of the segments, one segment after the other.
pub open spec fn spec_segments_bits(segs: Seq<SegmentModel>, ver: int) -> Seq<bool>
    decreases segs.len(),
{
    if segs.len() == 0 {
        Seq::empty()
    } else {
        spec_segments_bits(segs.drop_last(), ver) + spec_segment_bits(segs.last(), ver)
    }
}

/// Where the padding bytes start: after the data, a terminator of up to four
/// zero bits as far as the capacity allows, and zero bits up to the next byte.
pub open spec fn spec_terminated_len(used: int, capacity: int) -> int {
    let terminated = if used + 4 <= capacity {
        used + 4
    } else {
        capacity
    };
    (terminated + 7) / 8 * 8
}

/// Bit `i` of the padded bit string: the data; zeros up to the end of the
/// terminator's byte; then the bytes 0xEC and 0x11 in turn.
pub open spec fn spec_padded_bit(bits: Seq<bool>, capacity: int, i: int) -> bool {
    let start = spec_terminated_len(bits.len() as int, capacity);
    if i < bits.len() {
        bits[i]
    } else if i < start {
        false
    } else {
        spec_bit(
            if ((i - start) / 8) % 2 == 0 {
                0xECu32
            } else {
                0x11u32
            },
            7 - (i - start) % 8,
        )
    }
}

/// The bit string of the data padded to the capacity of the symbol.
pub open spec fn spec_padded_bits(bits: Seq<bool>, capacity: int) -> Seq<bool> {
    Seq::new(capacity as nat, |i: int| spec_padded_bit(bits, capacity, i))
}

/// The number that a bit string writes, most significant bit first.
pub open spec fn spec_bits_value(bits: Seq<bool>) -> int
    decreases bits.len(),
{
    if bits.len() == 0 {
        0
    } else {
        2 * spec_bits_value(bits.drop_last()) + (if bits.last() {
            1int
        } else {
            0
        })
    }
}

/// The bytes of a bit string, eight bits to the byte, most significant bit first.
pub open spec fn spec_pack_bytes(bits: Seq<bool>) -> Seq<u8> {
    Seq::new(bits.len() / 8, |k: int| spec_bits_value(bits.subrange(8 * k, 8 * k + 8)) as u8)
}

/// The data codewords of the segments in a symbol of the given version and level.
pub open spec fn spec_data_codewords(segs: Seq<SegmentModel>, ver: int, ecl: QrCodeEcc) -> Seq<u8> {
    spec_pack_bytes(spec_padded_bits(spec_segments_bits(segs, ver), spec_capacity_bits(ver, ecl)))
}

/// Where the segments have a total, each has its own, and the total is the
/// length of their bits.
pub proof fn lemma_total_is_length(segs: Seq<SegmentModel>, ver: int)
    requires
        spec_total_bits(segs, ver) is Some,
    ensures
        spec_total_bits(segs, ver) == Some(spec_segments_bits(segs, ver).len() as int),
        forall|i: int| 0 <= i < segs.len() ==> (#[trigger] spec_segment_total_bits(segs[i], ver)) is Some,
    decreases segs.len(),
{
    if segs.len() > 0 {
        lemma_total_is_length(segs.drop_last(), ver);
        assert forall|i: int| 0 <= i < segs.len() implies (#[trigger] spec_segment_total_bits(
            segs[i],
            ver,
        )) is Some by {
            if i < segs.len() - 1 {
                assert(segs.drop_last()[i] == segs[i]);
            }
        }
    }
}

proof fn lemma_zero_has_no_bit(s: u32)
    by (bit_vector)
    ensures
        (0u32 >> s) & 1 == 0,
{
}

/// The low-order bits of zero are all light, however many.
pub proof fn lemma_zero_bits(len: nat)
    ensures
        forall|i: int| 0 <= i < len ==> !(#[trigger] spec_bits(0, len)[i]),
{
    assert forall|i: int| 0 <= i < len implies !(#[trigger] spec_bits(0, len)[i]) by {
        lemma_zero_has_no_bit((len - 1 - i) as u32);
    }
}

/// Finds the smallest version in the range that the segments fit at the
/// given level, and the number of bits they take there.
#[verifier::spinoff_prover]
#[verifier::rlimit(40)]
fn find_version(segs: &[QrSegment], ecl: QrCodeEcc, minversion: Version, maxversion: Version) -> (outcome:
    Result<(Version, usize), DataTooLong>)
    requires
        minversion.spec_value() <= maxversion.spec_value(),
    ensures
        match outcome {
            Ok((version, used)) => {
                let ver = version.spec_value();
                &&& minversion.spec_value() <= ver <= maxversion.spec_value()
                &&& spec_fits(spec_models(segs@), ver, ecl)
                &&& spec_total_bits(spec_models(segs@), ver) == Some(used as int)
                &&& forall|u: int|
                    minversion.spec_value() <= u < ver ==> !#[trigger] spec_fits(spec_models(segs@), u, ecl)
            },
            Err(e) => {
                &&& forall|u: int|
                    minversion.spec_value() <= u <= maxversion.spec_value() ==> !#[trigger] spec_fits(
                        spec_models(segs@),
                        u,
                        ecl,
                    )
                &&& e == spec_too_long(spec_models(segs@), maxversion.spec_value(), ecl)
            },
        },
{
    let ghost models = spec_models(segs@);
    let min: u8 = minversion.value();
    let max: u8 = maxversion.value();
    let mut version: Version = minversion;
    let mut datacapacitybits: usize = QrCode::get_num_data_codewords(version, ecl) * 8;  // Number of data bits available
    let mut dataused: Option<usize> = QrSegment::get_total_bits(segs, version);
    let mut found: bool = match dataused {
        Some(n) => n <= datacapacitybits,
        None => false,
    };
    while !found
        invariant
            models == spec_models(segs@),
            min == minversion.spec_value(),
            max == maxversion.spec_value(),
            min <= version.spec_value() <= max <= 40,
            datacapacitybits == spec_capacity_bits(version.spec_value(), ecl),
            match dataused {
                Some(n) => spec_total_bits(models, version.spec_value()) == Some(n as int),
                None => spec_total_bits(models, version.spec_value()) is None,
            },
            found == spec_fits(models, version.spec_value(), ecl),
            forall|u: int| min <= u < version.spec_value() ==> !#[trigger] spec_fits(models, u, ecl),
        decreases max - version.spec_value(),
    {
        if version.value() >= max {  // All versions in the range could not fit the given data
            return Err(
                match dataused {
                    None => DataTooLong::SegmentTooLong,
                    Some(n) => DataTooLong::DataOverCapacity(n, datacapacitybits),
                },
            );
        }
        version = Version::new(version.value() + 1);
        datacapacitybits = QrCode::get_num_data_codewords(version, ecl) * 8;
        dataused = QrSegment::get_total_bits(segs, version);
        found = match dataused {
            Some(n) => n <= datacapacitybits,
            None => false,
        };
    }
    match dataused {
        Some(n) => Ok((version, n)),
        None => Ok((version, 0)),
    }
}

/// Increases the error correction level while the data still fits in the given version.
fn boost_level(ecl: QrCodeEcc, used: usize, version: Version, boostecl: bool) -> (level: QrCodeEcc)
    requires
        used <= spec_capacity_bits(version.spec_value(), ecl),
    ensures
        level == spec_boosted(ecl, used as int, version.spec_value(), boostecl),
        used <= spec_capacity_bits(version.spec_value(), level),
{
    let ghost ver = version.spec_value();
    let mut level: QrCodeEcc = ecl;
    let levels: [QrCodeEcc; 3] = [QrCodeEcc::Medium, QrCodeEcc::Quartile, QrCodeEcc::High];
    for k in 0..3usize
        invariant
            ver == version.spec_value(),
            levels[0] == QrCodeEcc::Medium,
            levels[1] == QrCodeEcc::Quartile,
            levels[2] == QrCodeEcc::High,
            used <= spec_capacity_bits(ver, level),
            boostecl ==> level == spec_boosted_after(ecl, used as int, ver, k as int),
            !boostecl ==> level == ecl,
    {
        // From low to high
        let newecl: QrCodeEcc = levels[k];
        if boostecl && used <= QrCode::get_num_data_codewords(version, newecl) * 8 {
            level = newecl;
        }
    }
    level
}

/// Concatenates all segments to create the data bit string.
#[verifier::spinoff_prover]
#[verifier::rlimit(40)]
fn concatenate(segs: &[QrSegment], version: Version) -> (bb: BitBuffer)
    requires
        spec_total_bits(spec_models(segs@), version.spec_value()) is Some,
    ensures
        bb@ == spec_segments_bits(spec_models(segs@), version.spec_value()),
{
    let ghost models = spec_models(segs@);
    let ghost ver = version.spec_value();
    let mut bb = BitBuffer::new();
    proof {
        lemma_total_is_length(models, ver);
    }
    for i in 0..segs.len()
        invariant
            models == spec_models(segs@),
            ver == version.spec_value(),
            forall|m: int|
                0 <= m < models.len() ==> (#[trigger] spec_segment_total_bits(models[m], ver)) is Some,
            bb@ == spec_segments_bits(models.take(i as int), ver),
    {
        let seg: &QrSegment = &segs[i];
        let ccbits: u8 = seg.mode().num_char_count_bits(version);
        let numchars: usize = seg.num_chars();
        proof {
            lemma2_to64();
            assert(spec_segment_total_bits(models[i as int], ver) is Some);
            vstd::arithmetic::power2::lemma_pow2_strictly_increases(ccbits as nat, 17);
            lemma_value_fits(spec_mode_bits(seg@.mode), 4);
            lemma_value_fits(numchars as u32, ccbits);
        }
        bb.append_bits(seg.mode().mode_bits(), 4);
        bb.append_bits(numchars as u32, ccbits);
        let bits: &Vec<bool> = seg.data();
        let ghost head = bb@;
        for n in 0..bits.len()
            invariant
                bb@ == head + bits@.take(n as int),
        {
            bb.0.push(bits[n]);
        }
        proof {
            let now = models.take(i + 1);
            assert(now.drop_last() =~= models.take(i as int));
        }
    }
    assert(models.take(segs@.len() as int) =~= models);
    bb
}

/// Adds the terminator, pads up to a byte, and pads with alternating bytes
/// until the data capacity is reached.
#[verifier::spinoff_prover]
#[verifier::rlimit(40)]
fn pad_to_capacity(bb: &mut BitBuffer, datacapacitybits: usize)
    requires
        old(bb)@.len() <= datacapacitybits <= 29648,
        datacapacitybits % 8 == 0,
    ensures
        final(bb)@ == spec_padded_bits(old(bb)@, datacapacitybits as int),
{
    let ghost data = bb@;
    // Add terminator and pad up to a byte if applicable
    let room: usize = datacapacitybits - bb.len();
    let numzerobits: usize = if room < 4 {
        room
    } else {
        4
    };
    proof {
        lemma2_to64();
        lemma_value_fits(0, numzerobits as u8);
        lemma_zero_bits(numzerobits as nat);
    }
    bb.append_bits(0, numzerobits as u8);
    let numzerobits: usize = (8 - bb.len() % 8) % 8;
    proof {
        lemma_value_fits(0, numzerobits as u8);
        lemma_zero_bits(numzerobits as nat);
    }
    bb.append_bits(0, numzerobits as u8);
    let ghost start = spec_terminated_len(data.len() as int, datacapacitybits as int);

    // Pad with alternating bytes until data capacity is reached
    let mut padbyte: u32 = 0xEC;
    while bb.len() < datacapacitybits
        invariant
            datacapacitybits % 8 == 0,
            datacapacitybits <= 29648,
            start == spec_terminated_len(data.len() as int, datacapacitybits as int),
            data.len() <= start <= bb@.len() <= datacapacitybits,
            bb@.len() % 8 == 0,
            padbyte == (if ((bb@.len() - start) / 8) % 2 == 0 {
                0xECu32
            } else {
                0x11u32
            }),
            forall|i: int|
                0 <= i < bb@.len() ==> #[trigger] bb@[i] == spec_padded_bit(data, datacapacitybits as int, i),
        decreases datacapacitybits - bb@.len(),
    {
        proof {
            lemma2_to64();
            lemma_value_fits(padbyte, 8);
        }
        bb.append_bits(padbyte, 8);
        padbyte = if padbyte == 0xEC {
            0x11
        } else {
            0xEC
        };
    }
}

/// Packs bits into bytes in big endian.
#[verifier::spinoff_prover]
#[verifier::rlimit(40)]
fn pack_bytes(bits: &Vec<bool>) -> (bytes: Vec<u8>)
    requires
        bits@.len() % 8 == 0,
    ensures
        bytes@ == spec_pack_bytes(bits@),
{
    let total: usize = bits.len();
    let count: usize = total / 8;
    let mut bytes: Vec<u8> = Vec::new();
    for k in 0..count
        invariant
            total == bits@.len(),
            count == bits@.len() / 8,
            bits@.len() % 8 == 0,
            bytes@.len() == k,
            forall|m: int| 0 <= m < k ==> #[trigger] bytes@[m] == spec_pack_bytes(bits@)[m],
    {
        let mut byte: u8 = 0;
        let ghost group = bits@.subrange(8 * k, 8 * k + 8);
        proof {
            lemma2_to64();
        }
        for j in 0..8usize
            invariant
                k < count,
                count == bits@.len() / 8,
                bits@.len() % 8 == 0,
                total == bits@.len(),
                group == bits@.subrange(8 * k, 8 * k + 8),
                byte == spec_bits_value(group.take(j as int)),
                byte < pow2(j as nat),
        {
            proof {
                lemma2_to64();
                let now = group.take(j + 1);
                assert(now.drop_last() =~= group.take(j as int));
                vstd::arithmetic::power2::lemma_pow2_unfold((j + 1) as nat);
            }
            let bit: u8 = if bits[8 * k + j] {
                1
            } else {
                0
            };
            byte = byte * 2 + bit;
        }
        assert(group.take(8) =~= group);
        bytes.push(byte);
    }
    bytes
}

impl QrCode {
    /// Returns the data codewords that represent the given segments, with the
    /// error correction level and the version that the symbol gets.
    ///
    /// The smallest possible QR Code version within the given range is automatically
    /// chosen for the output. Iff boostecl is `true`, then the ECC level of the result
    /// may be higher than the ecl argument if it can be done without increasing the
    /// version.
    ///
    /// Returns `Err` if the data is too long to fit in any version in the given
    /// range at the given ECC level.
    pub fn encode_segments_to_codewords(
        segs: &[QrSegment],
        ecl: QrCodeEcc,
        minversion: Version,
        maxversion: Version,
        boostecl: bool,
    ) -> (outcome: Result<(Vec<u8>, QrCodeEcc, Version), DataTooLong>)
        requires
            minversion.spec_value() <= maxversion.spec_value(),
        ensures
            match outcome {
                Ok((codewords, level, version)) => {
                    let ver = version.spec_value();
                    &&& minversion.spec_value() <= ver <= maxversion.spec_value()
                    &&& spec_fits(spec_models(segs@), ver, ecl)
                    &&& forall|u: int|
                        minversion.spec_value() <= u < ver ==> !#[trigger] spec_fits(
                            spec_models(segs@),
                            u,
                            ecl,
                        )
                    &&& level == spec_boosted(
                        ecl,
                        spec_total_bits(spec_models(segs@), ver)->Some_0,
                        ver,
                        boostecl,
                    )
                    &&& codewords@ == spec_data_codewords(spec_models(segs@), ver, level)
                    &&& codewords@.len() == spec_num_data_codewords(ver, level)
                },
                Err(e) => {
                    &&& forall|u: int|
                        minversion.spec_value() <= u <= maxversion.spec_value() ==> !#[trigger] spec_fits(
                            spec_models(segs@),
                            u,
                            ecl,
                        )
                    &&& e == spec_too_long(spec_models(segs@), maxversion.spec_value(), ecl)
                },
            },
    {
        // Find the minimal version number to use
        let (version, datausedbits): (Version, usize) = match find_version(segs, ecl, minversion, maxversion) {
            Ok(found) => found,
            Err(e) => {
                return Err(e);
            },
        };
        let level: QrCodeEcc = boost_level(ecl, datausedbits, version, boostecl);
        let mut bb: BitBuffer = concatenate(segs, version);
        proof {
            lemma_total_is_length(spec_models(segs@), version.spec_value());
        }
        let datacapacitybits: usize = QrCode::get_num_data_codewords(version, level) * 8;
        pad_to_capacity(&mut bb, datacapacitybits);
        let datacodewords: Vec<u8> = pack_bytes(&bb.0);
        Ok((datacodewords, level, version))
    }
}

} // verus!
