//! Segments: mode-tagged, bit-packed chunks of the payload.

use vstd::prelude::*;
use vstd::arithmetic::power2::{lemma2_to64, pow2};
use vstd::utf8::{is_ascii_chars, is_ascii_chars_encode_utf8};
use crate::bit_buffer::{lemma_value_fits, spec_bits, BitBuffer};
use crate::version::{spec_bit, Version};

verus! {

/// Describes how a segment's data bits are interpreted.
#[derive(Clone, Copy, PartialEq, Eq, Structural, Debug)]
pub enum QrSegmentMode {
    Numeric,
    Alphanumeric,
    Byte,
    Kanji,
    Eci,
}

/// The four mode indicator bits of a mode, as a number.
pub open spec fn spec_mode_bits(mode: QrSegmentMode) -> u32 {
    match mode {
        QrSegmentMode::Numeric => 0x1,
        QrSegmentMode::Alphanumeric => 0x2,
        QrSegmentMode::Byte => 0x4,
        QrSegmentMode::Kanji => 0x8,
        QrSegmentMode::Eci => 0x7,
    }
}

/// The tier of a version for the width of the character count field:
/// 0 for versions 1 to 9, 1 for 10 to 26, 2 for 27 to 40.
pub open spec fn spec_version_tier(ver: int) -> int {
    if ver <= 9 {
        0
    } else if ver <= 26 {
        1
    } else {
        2
    }
}

/// The bit width of the character count field of a segment in the given mode
/// in a symbol of the given version.
pub open spec fn spec_num_char_count_bits(mode: QrSegmentMode, ver: int) -> int {
    let tier = spec_version_tier(ver);
    match mode {
        QrSegmentMode::Numeric => 10 + 2 * tier,
        QrSegmentMode::Alphanumeric => 9 + 2 * tier,
        QrSegmentMode::Byte => if tier == 0 {
            8
        } else {
            16
        },
        QrSegmentMode::Kanji => 8 + 2 * tier,
        QrSegmentMode::Eci => 0,
    }
}

impl QrSegmentMode {
    /// Returns an unsigned 4-bit integer value (range 0 to 15)
    /// representing the mode indicator bits for this mode object.
    pub fn mode_bits(self) -> (bits: u32)
        ensures
            bits == spec_mode_bits(self),
            bits < 16,
    {
        match self {
            QrSegmentMode::Numeric => 0x1,
            QrSegmentMode::Alphanumeric => 0x2,
            QrSegmentMode::Byte => 0x4,
            QrSegmentMode::Kanji => 0x8,
            QrSegmentMode::Eci => 0x7,
        }
    }

    /// Returns the bit width of the character count field for a segment in this mode
    /// in a QR Code at the given version number. The result is in the range [0, 16].
    pub fn num_char_count_bits(self, ver: Version) -> (bits: u8)
        ensures
            bits == spec_num_char_count_bits(self, ver.spec_value()),
            bits <= 16,
    {
        let tier: usize = ((ver.value() + 7) / 17) as usize;
        let widths: [u8; 3] = match self {
            QrSegmentMode::Numeric => [10, 12, 14],
            QrSegmentMode::Alphanumeric => [9, 11, 13],
            QrSegmentMode::Byte => [8, 16, 16],
            QrSegmentMode::Kanji => [8, 10, 12],
            QrSegmentMode::Eci => [0, 0, 0],
        };
        widths[tier]
    }
}

/// Whether the character is a decimal digit.
pub open spec fn spec_is_digit(c: char) -> bool {
    '0' <= c <= '9'
}

/// The index of a character in the alphanumeric charset
/// `0123456789ABCDEFGHIJKLMNOPQRSTUVWXYZ $%*+-./:`, or -1 if it is not in it.
pub open spec fn spec_alphanumeric_index(c: char) -> int {
    if '0' <= c <= '9' {
        c as int - 48
    } else if 'A' <= c <= 'Z' {
        c as int - 65 + 10
    } else if c == ' ' {
        36
    } else if c == '$' {
        37
    } else if c == '%' {
        38
    } else if c == '*' {
        39
    } else if c == '+' {
        40
    } else if c == '-' {
        41
    } else if c == '.' {
        42
    } else if c == '/' {
        43
    } else if c == ':' {
        44
    } else {
        -1
    }
}

/// Whether every character of the text is a decimal digit.
pub open spec fn spec_is_numeric(text: Seq<char>) -> bool {
    forall|i: int| 0 <= i < text.len() ==> spec_is_digit(#[trigger] text[i])
}

/// Whether every character of the text is in the alphanumeric charset.
pub open spec fn spec_is_alphanumeric(text: Seq<char>) -> bool {
    forall|i: int| 0 <= i < text.len() ==> spec_alphanumeric_index(#[trigger] text[i]) >= 0
}

/// The number that a run of characters writes in the given base, each
/// character standing for its index in the alphanumeric charset (for a digit,
/// its value).
pub open spec fn spec_group_value(group: Seq<char>, base: int) -> int
    decreases group.len(),
{
    if group.len() == 0 {
        0
    } else {
        spec_group_value(group.drop_last(), base) * base + spec_alphanumeric_index(group.last())
    }
}

/// The data bits of a numeric segment: each group of three digits as a
/// 10-bit number, a last group of one or two digits in 4 or 7 bits.
pub open spec fn spec_numeric_bits(text: Seq<char>) -> Seq<bool>
    decreases text.len(),
{
    if text.len() == 0 {
        Seq::empty()
    } else {
        let n: int = if text.len() >= 3 {
            3
        } else {
            text.len() as int
        };
        spec_bits(spec_group_value(text.take(n), 10) as u32, (3 * n + 1) as nat) + spec_numeric_bits(
            text.skip(n),
        )
    }
}

/// The data bits of an alphanumeric segment: each pair of characters as an
/// 11-bit number, a last single character in 6 bits.
pub open spec fn spec_alphanumeric_bits(text: Seq<char>) -> Seq<bool>
    decreases text.len(),
{
    if text.len() == 0 {
        Seq::empty()
    } else {
        let n: int = if text.len() >= 2 {
            2
        } else {
            1
        };
        spec_bits(spec_group_value(text.take(n), 45) as u32, (5 * n + 1) as nat)
            + spec_alphanumeric_bits(text.skip(n))
    }
}

/// The data bits of a byte segment: eight bits for each byte, most
/// significant bit first, in input order.
pub open spec fn spec_byte_bits(data: Seq<u8>) -> Seq<bool> {
    Seq::new(8 * data.len(), |i: int| spec_bit(data[i / 8] as u32, 7 - i % 8))
}

/// The data bits of an ECI designator with the given assignment value.
pub open spec fn spec_eci_bits(assignval: u32) -> Seq<bool> {
    if assignval < 128 {
        spec_bits(assignval, 8)
    } else if assignval < 16384 {
        spec_bits(0b10, 2) + spec_bits(assignval, 14)
    } else {
        spec_bits(0b110, 3) + spec_bits(assignval, 21)
    }
}

/// A segment of character/binary/control data in a QR Code symbol.
///
/// Instances of this struct are immutable.
///
/// The mid-level way to create a segment is to take the payload data
/// and call a static factory function such as `QrSegment::make_numeric()`.
/// The low-level way to create a segment is to custom-make the bit buffer
/// and call the `QrSegment::new()` constructor with appropriate values.
///
/// This segment struct imposes no length restrictions, but QR Codes have restrictions.
/// Even in the most favorable conditions, a QR Code can only hold 7089 characters of data.
/// Any segment longer than this is meaningless for the purpose of generating QR Codes.
#[derive(PartialEq, Eq)]
pub struct QrSegment {
    // The mode indicator of this segment. Accessed through mode().
    mode: QrSegmentMode,
    // The length of this segment's unencoded data. Measured in characters for
    // numeric/alphanumeric/kanji mode, bytes for byte mode, and 0 for ECI mode.
    // Not the same as the data's bit length. Accessed through num_chars().
    numchars: usize,
    // The data bits of this segment. Accessed through data().
    data: Vec<bool>,
}

/// What a segment stands for in contracts.
pub ghost struct SegmentModel {
    /// The mode indicator.
    pub mode: QrSegmentMode,
    /// The length of the unencoded data, in characters (bytes in byte mode).
    pub num_chars: int,
    /// The data bits.
    pub bits: Seq<bool>,
}

impl View for QrSegment {
    type V = SegmentModel;

    closed spec fn view(&self) -> SegmentModel {
        SegmentModel { mode: self.mode, num_chars: self.numchars as int, bits: self.data@ }
    }
}

impl Clone for QrSegment {
    /// Returns a segment with the same mode, character count and data bits.
    fn clone(&self) -> (copy: Self)
        ensures
            copy@ == self@,
    {
        let data: Vec<bool> = self.data.clone();
        QrSegment { mode: self.mode, numchars: self.numchars, data: data }
    }
}

/// The models of a list of segments, in order.
pub open spec fn spec_models(segs: Seq<QrSegment>) -> Seq<SegmentModel> {
    Seq::new(segs.len(), |i: int| segs[i]@)
}

/// The segments that stand for a text: none for the empty text, and else
/// one: numeric where every character is a digit, alphanumeric where every
/// character is in that charset, and else the bytes of the text in UTF-8.
pub open spec fn spec_text_segments(text: Seq<char>) -> Seq<SegmentModel> {
    if text.len() == 0 {
        Seq::empty()
    } else if spec_is_numeric(text) {
        seq![
            SegmentModel {
                mode: QrSegmentMode::Numeric,
                num_chars: text.len() as int,
                bits: spec_numeric_bits(text),
            },
        ]
    } else if spec_is_alphanumeric(text) {
        seq![
            SegmentModel {
                mode: QrSegmentMode::Alphanumeric,
                num_chars: text.len() as int,
                bits: spec_alphanumeric_bits(text),
            },
        ]
    } else {
        spec_byte_segments(vstd::utf8::encode_utf8(text))
    }
}

/// The one segment that stands for binary data: its bytes in byte mode.
pub open spec fn spec_byte_segments(data: Seq<u8>) -> Seq<SegmentModel> {
    seq![SegmentModel { mode: QrSegmentMode::Byte, num_chars: data.len() as int, bits: spec_byte_bits(data) }]
}

/// The bits that one segment takes in a symbol of the given version: mode
/// indicator, character count field and data. `None` if the character count
/// does not fit its field.
pub open spec fn spec_segment_total_bits(seg: SegmentModel, ver: int) -> Option<int> {
    let ccbits = spec_num_char_count_bits(seg.mode, ver);
    if seg.num_chars >= pow2(ccbits as nat) {
        None
    } else {
        Some(4 + ccbits + seg.bits.len())
    }
}

/// The bits that the segments take together in a symbol of the given
/// version. `None` if a character count does not fit its field, or if the
/// sum is more than a `usize` holds.
pub open spec fn spec_total_bits(segs: Seq<SegmentModel>, ver: int) -> Option<int>
    decreases segs.len(),
{
    if segs.len() == 0 {
        Some(0)
    } else {
        match (spec_total_bits(segs.drop_last(), ver), spec_segment_total_bits(segs.last(), ver)) {
            (Some(before), Some(this)) => if before + this <= usize::MAX {
                Some(before + this)
            } else {
                None
            },
            _ => None,
        }
    }
}

/// Returns the index of an ASCII code in the alphanumeric charset, if it is in it.
fn alphanumeric_index(b: u8) -> (r: Option<u32>)
    ensures
        match r {
            Some(i) => i == spec_alphanumeric_index(b as char) && i < 45,
            None => spec_alphanumeric_index(b as char) < 0,
        },
{
    if 48 <= b && b <= 57 {
        Some((b - 48) as u32)
    } else if 65 <= b && b <= 90 {
        Some((b - 65 + 10) as u32)
    } else if b == 32 {
        Some(36)
    } else if b == 36 {
        Some(37)
    } else if b == 37 {
        Some(38)
    } else if b == 42 {
        Some(39)
    } else if b == 43 {
        Some(40)
    } else if b == 45 {
        Some(41)
    } else if b == 46 {
        Some(42)
    } else if b == 47 {
        Some(43)
    } else if b == 58 {
        Some(44)
    } else {
        None
    }
}

/// A character of the alphanumeric charset is an ASCII character.
pub proof fn lemma_alphanumeric_is_ascii(text: Seq<char>)
    requires
        spec_is_alphanumeric(text),
    ensures
        is_ascii_chars(text),
{
    assert forall|i: int| 0 <= i < text.len() implies '\0' <= #[trigger] text[i] <= '\u{7f}' by {
    }
}

/// A digit is in the alphanumeric charset, at the index of its value.
pub proof fn lemma_numeric_is_alphanumeric(text: Seq<char>)
    requires
        spec_is_numeric(text),
    ensures
        spec_is_alphanumeric(text),
{
    assert forall|i: int| 0 <= i < text.len() implies spec_alphanumeric_index(#[trigger] text[i]) >= 0 by {
    }
}

impl QrSegment {
    /// Returns a segment representing the given binary data encoded in byte mode.
    ///
    /// All input byte slices are acceptable.
    ///
    /// Any text string can be converted to UTF-8 bytes and encoded as a byte mode segment.
    pub fn make_bytes(data: &[u8]) -> (seg: QrSegment)
        ensures
            seg@.mode == QrSegmentMode::Byte,
            seg@.num_chars == data@.len(),
            seg@.bits == spec_byte_bits(data@),
    {
        let mut bb = BitBuffer::new();
        for i in 0..data.len()
            invariant
                bb@ == spec_byte_bits(data@.take(i as int)),
        {
            let b: u8 = data[i];
            assert((b as u32) >> 8u8 == 0) by (bit_vector);
            bb.append_bits(b as u32, 8);
        }
        QrSegment::new(QrSegmentMode::Byte, data.len(), bb.0)
    }

    /// Packs a text of the alphanumeric charset in groups of `group` characters,
    /// each group read as a number in the given base and written in `per_char`
    /// bits for each of its characters and one more.
    #[verifier::spinoff_prover]
    #[verifier::rlimit(40)]
    fn pack_groups(bytes: &[u8], Ghost(text): Ghost<Seq<char>>, group: usize, base: u32, per_char: u8) -> (bits:
        Vec<bool>)
        requires
            bytes@.len() == text.len(),
            forall|k: int| 0 <= k < text.len() ==> text[k] as u8 == #[trigger] bytes@[k],
            spec_is_alphanumeric(text),
            (group == 3 && base == 10 && per_char == 3 && spec_is_numeric(text)) || (group == 2 && base
                == 45 && per_char == 5),
        ensures
            group == 3 ==> bits@ == spec_numeric_bits(text),
            group == 2 ==> bits@ == spec_alphanumeric_bits(text),
    {
        let n: usize = bytes.len();
        let mut bb = BitBuffer::new();
        let mut i: usize = 0;
        assert(text.skip(0) =~= text);
        while i < n
            invariant
                i <= n,
                n == text.len(),
                bytes@.len() == n,
                forall|k: int| 0 <= k < n ==> text[k] as u8 == #[trigger] bytes@[k],
                spec_is_alphanumeric(text),
                (group == 3 && base == 10 && per_char == 3 && spec_is_numeric(text)) || (group == 2
                    && base == 45 && per_char == 5),
                group == 3 ==> spec_numeric_bits(text) == bb@ + spec_numeric_bits(text.skip(i as int)),
                group == 2 ==> spec_alphanumeric_bits(text) == bb@ + spec_alphanumeric_bits(
                    text.skip(i as int),
                ),
            decreases n - i,
        {
            let len: usize = if n - i >= group {
                group
            } else {
                n - i
            };
            let ghost rest = text.skip(i as int);
            let mut data: u32 = 0;
            let mut j: usize = 0;
            while j < len
                invariant
                    j <= len <= group,
                    i + len <= n,
                    n == text.len(),
                    bytes@.len() == n,
                    rest == text.skip(i as int),
                    forall|k: int| 0 <= k < n ==> text[k] as u8 == #[trigger] bytes@[k],
                    spec_is_alphanumeric(text),
                    (group == 3 && base == 10 && per_char == 3 && spec_is_numeric(text)) || (group
                        == 2 && base == 45 && per_char == 5),
                    data == spec_group_value(rest.take(j as int), base as int),
                    group == 3 ==> data <= (if j == 0 {
                        0int
                    } else if j == 1 {
                        9
                    } else if j == 2 {
                        99
                    } else {
                        999
                    }),
                    group == 2 ==> data <= (if j == 0 {
                        0int
                    } else if j == 1 {
                        44
                    } else {
                        2024
                    }),
                decreases len - j,
            {
                let b: u8 = bytes[i + j];
                let index: Option<u32> = alphanumeric_index(b);
                let value: u32 = match index {
                    Some(v) => v,
                    None => 0,
                };
                proof {
                    let now = rest.take(j + 1);
                    assert(now.drop_last() =~= rest.take(j as int));
                }
                data = data * base + value;
                j += 1;
            }
            proof {
                lemma2_to64();
                lemma_value_fits(data, (len as u8 * per_char + 1) as u8);
                assert(rest.skip(len as int) =~= text.skip(i + len));
            }
            bb.append_bits(data, (len as u8) * per_char + 1);
            proof {
                if group != 3 {
                    assert(spec_alphanumeric_bits(text) =~= bb@ + spec_alphanumeric_bits(
                        text.skip(i + len),
                    ));
                }
            }
            i += len;
        }
        bb.0
    }

    /// Returns a segment representing the given string of decimal digits encoded in numeric mode.
    ///
    /// The string must not contain non-digit characters.
    pub fn make_numeric(text: &str) -> (seg: QrSegment)
        requires
            spec_is_numeric(text@),
        ensures
            seg@.mode == QrSegmentMode::Numeric,
            seg@.num_chars == text@.len(),
            seg@.bits == spec_numeric_bits(text@),
    {
        proof {
            lemma_numeric_is_alphanumeric(text@);
            lemma_alphanumeric_is_ascii(text@);
            is_ascii_chars_encode_utf8(text@);
        }
        let bytes: &[u8] = text.as_bytes();
        let bits: Vec<bool> = QrSegment::pack_groups(bytes, Ghost(text@), 3, 10, 3);
        QrSegment::new(QrSegmentMode::Numeric, bytes.len(), bits)
    }

    /// Returns a segment representing the given text string encoded in alphanumeric mode.
    ///
    /// The characters allowed are: 0 to 9, A to Z (uppercase only), space,
    /// dollar, percent, asterisk, plus, hyphen, period, slash, colon.
    ///
    /// The string must not contain other characters.
    pub fn make_alphanumeric(text: &str) -> (seg: QrSegment)
        requires
            spec_is_alphanumeric(text@),
        ensures
            seg@.mode == QrSegmentMode::Alphanumeric,
            seg@.num_chars == text@.len(),
            seg@.bits == spec_alphanumeric_bits(text@),
    {
        proof {
            lemma_alphanumeric_is_ascii(text@);
            is_ascii_chars_encode_utf8(text@);
        }
        let bytes: &[u8] = text.as_bytes();
        let bits: Vec<bool> = QrSegment::pack_groups(bytes, Ghost(text@), 2, 45, 5);
        QrSegment::new(QrSegmentMode::Alphanumeric, bytes.len(), bits)
    }

    /// Returns a segment representing the given code points in numeric mode,
    /// if that is asked for, and else in alphanumeric mode. They must all be
    /// digits, or all be in the alphanumeric charset.
    pub(crate) fn make_from_code_points(code_points: &[char], numeric: bool) -> (seg: QrSegment)
        requires
            numeric ==> spec_is_numeric(code_points@),
            !numeric ==> spec_is_alphanumeric(code_points@),
        ensures
            seg@.num_chars == code_points@.len(),
            numeric ==> seg@.mode == QrSegmentMode::Numeric && seg@.bits == spec_numeric_bits(code_points@),
            !numeric ==> seg@.mode == QrSegmentMode::Alphanumeric && seg@.bits == spec_alphanumeric_bits(
                code_points@,
            ),
    {
        proof {
            if numeric {
                lemma_numeric_is_alphanumeric(code_points@);
            }
        }
        let mut bytes: Vec<u8> = Vec::new();
        for i in 0..code_points.len()
            invariant
                spec_is_alphanumeric(code_points@),
                bytes@.len() == i,
                forall|k: int| 0 <= k < i ==> code_points@[k] as u8 == #[trigger] bytes@[k],
        {
            let c: char = code_points[i];
            bytes.push(c as u8);
        }
        if numeric {
            let bits: Vec<bool> = QrSegment::pack_groups(bytes.as_slice(), Ghost(code_points@), 3, 10, 3);
            QrSegment::new(QrSegmentMode::Numeric, code_points.len(), bits)
        } else {
            let bits: Vec<bool> = QrSegment::pack_groups(bytes.as_slice(), Ghost(code_points@), 2, 45, 5);
            QrSegment::new(QrSegmentMode::Alphanumeric, code_points.len(), bits)
        }
    }

    /// Returns a list of zero or more segments to represent the given Unicode text string.
    ///
    /// The result is empty for the empty string, and else one segment: numeric
    /// where every character is a digit, alphanumeric where every character is
    /// in that charset, and else the bytes of the text in UTF-8.
    pub fn make_segments(text: &str) -> (segs: Vec<QrSegment>)
        ensures
            spec_models(segs@) == spec_text_segments(text@),
    {
        let mut segs: Vec<QrSegment> = Vec::new();
        if !text.is_empty() {
            proof {
                if spec_is_numeric(text@) {
                    lemma_numeric_is_alphanumeric(text@);
                }
            }
            let seg: QrSegment = if QrSegment::is_numeric(text) {
                QrSegment::make_numeric(text)
            } else if QrSegment::is_alphanumeric(text) {
                QrSegment::make_alphanumeric(text)
            } else {
                QrSegment::make_bytes(text.as_bytes())
            };
            segs.push(seg);
        }
        segs
    }

    /// Returns a segment representing an Extended Channel Interpretation
    /// (ECI) designator with the given assignment value, which must be below 1,000,000.
    pub fn make_eci(assignval: u32) -> (seg: QrSegment)
        requires
            assignval < 1_000_000,
        ensures
            seg@.mode == QrSegmentMode::Eci,
            seg@.num_chars == 0,
            seg@.bits == spec_eci_bits(assignval),
    {
        let mut bb = BitBuffer::new();
        proof {
            lemma2_to64();
        }
        if assignval < 128 {
            proof {
                lemma_value_fits(assignval, 8);
            }
            bb.append_bits(assignval, 8);
        } else if assignval < 16384 {
            proof {
                lemma_value_fits(0b10, 2);
                lemma_value_fits(assignval, 14);
            }
            bb.append_bits(0b10, 2);
            bb.append_bits(assignval, 14);
        } else {
            proof {
                lemma_value_fits(0b110, 3);
                lemma_value_fits(assignval, 21);
            }
            bb.append_bits(0b110, 3);
            bb.append_bits(assignval, 21);
        }
        QrSegment::new(QrSegmentMode::Eci, 0, bb.0)
    }

    /// Creates a new QR Code segment with the given attributes and data.
    ///
    /// The character count (numchars) must agree with the mode and
    /// the bit buffer length, but the constraint isn't checked.
    pub fn new(mode: QrSegmentMode, numchars: usize, data: Vec<bool>) -> (seg: QrSegment)
        ensures
            seg@ == (SegmentModel { mode: mode, num_chars: numchars as int, bits: data@ }),
    {
        QrSegment { mode, numchars, data }
    }

    /// Returns the mode indicator of this segment.
    pub fn mode(&self) -> (mode: QrSegmentMode)
        ensures
            mode == self@.mode,
    {
        self.mode
    }

    /// Returns the character count field of this segment.
    pub fn num_chars(&self) -> (n: usize)
        ensures
            n == self@.num_chars,
    {
        self.numchars
    }

    /// Returns the data bits of this segment.
    pub fn data(&self) -> (bits: &Vec<bool>)
        ensures
            bits@ == self@.bits,
    {
        &self.data
    }

    /// Calculates and returns the number of bits needed to encode the given
    /// segments at the given version. The result is None if a segment has too many
    /// characters to fit its length field, or the total bits exceeds usize::MAX.
    #[verifier::spinoff_prover]
    #[verifier::rlimit(40)]
    pub fn get_total_bits(segs: &[QrSegment], version: Version) -> (total: Option<usize>)
        ensures
            match total {
                Some(n) => spec_total_bits(spec_models(segs@), version.spec_value()) == Some(n as int),
                None => spec_total_bits(spec_models(segs@), version.spec_value()) is None,
            },
    {
        let mut result: usize = 0;
        let ghost models = spec_models(segs@);
        for i in 0..segs.len()
            invariant
                models == spec_models(segs@),
                spec_total_bits(models.take(i as int), version.spec_value()) == Some(result as int),
        {
            let seg: &QrSegment = &segs[i];
            let ccbits: u8 = seg.mode.num_char_count_bits(version);
            proof {
                lemma2_to64();
                vstd::bits::lemma_u32_shl_is_mul(1, ccbits as u32);
                let now = models.take(i + 1);
                assert(now.drop_last() =~= models.take(i as int));
            }
            let limit: u32 = 1u32 << ccbits;
            if seg.numchars >= limit as usize {
                proof {
                    lemma_total_bits_none(models, i + 1, version.spec_value());
                }
                return None;  // The segment's length doesn't fit the field's bit width
            }
            let header: usize = 4 + ccbits as usize;
            let with_header: Option<usize> = result.checked_add(header);
            match with_header {
                None => {
                    proof {
                        lemma_total_bits_none(models, i + 1, version.spec_value());
                    }
                    return None;
                },
                Some(h) => {
                    match h.checked_add(seg.data.len()) {
                        None => {
                            proof {
                                lemma_total_bits_none(models, i + 1, version.spec_value());
                            }
                            return None;
                        },
                        Some(t) => {
                            result = t;
                        },
                    }
                },
            }
        }
        assert(models.take(segs@.len() as int) =~= models);
        Some(result)
    }

    /// Returns the number of bytes needed for the data buffer of a segment
    /// containing the given number of characters using the given mode, or None if the
    /// internal calculation of the number of needed bits exceeds usize::MAX. Notes:
    ///
    /// - For byte mode, numchars measures the number of bytes, not Unicode code points.
    /// - For ECI mode, numchars must be 0, and the worst-case number of bytes is returned.
    ///   An actual ECI segment can have shorter data. For non-ECI modes, the result is exact.
    pub fn calc_buffer_size(mode: QrSegmentMode, numchars: usize) -> (size: Option<usize>)
        requires
            mode == QrSegmentMode::Eci ==> numchars == 0,
        ensures
            match size {
                Some(n) => n == (spec_bit_length(mode, numchars as int) + 7) / 8
                    && spec_bit_length_reach(mode, numchars as int) <= usize::MAX,
                None => spec_bit_length_reach(mode, numchars as int) > usize::MAX,
            },
    {
        match QrSegment::calc_bit_length(mode, numchars) {
            None => None,
            Some(temp) => {
                let extra: usize = if temp % 8 != 0 {
                    1
                } else {
                    0
                };
                Some(temp / 8 + extra)
            },
        }
    }

    /// Returns the number of data bits needed to represent a segment
    /// containing the given number of characters using the given mode,
    /// or None if the the number of needed bits exceeds usize::MAX. Notes:
    /// - For byte mode, numchars measures the number of bytes, not Unicode code points.
    /// - For ECI mode, numchars must be 0, and the worst-case number of bits is returned.
    ///   An actual ECI segment can have shorter data. For non-ECI modes, the result is exact.
    pub fn calc_bit_length(mode: QrSegmentMode, numchars: usize) -> (bits: Option<usize>)
        requires
            mode == QrSegmentMode::Eci ==> numchars == 0,
        ensures
            match bits {
                Some(n) => n == spec_bit_length(mode, numchars as int) && spec_bit_length_reach(
                    mode,
                    numchars as int,
                ) <= usize::MAX,
                None => spec_bit_length_reach(mode, numchars as int) > usize::MAX,
            },
    {
        let (numer, denom): (usize, usize) = match mode {
            QrSegmentMode::Numeric => (10, 3),
            QrSegmentMode::Alphanumeric => (11, 2),
            QrSegmentMode::Byte => (8, 1),
            QrSegmentMode::Kanji => (13, 1),
            QrSegmentMode::Eci => {
                return Some(3 * 8);
            },
        };
        // Returns ceil((numer / denom) * numchars)
        match numchars.checked_mul(numer) {
            None => None,
            Some(product) => match product.checked_add(denom - 1) {
                None => None,
                Some(sum) => Some(sum / denom),
            },
        }
    }

    /// Tests whether the given string can be encoded as a segment in numeric mode.
    ///
    /// A string is encodable iff each character is in the range 0 to 9.
    pub fn is_numeric(text: &str) -> (b: bool)
        ensures
            b == spec_is_numeric(text@),
    {
        let mut all: bool = true;
        for c in it: text.chars()
            invariant
                it.seq() == text@,
                all == spec_is_numeric(text@.take(it.index())),
        {
            let ghost k = it.index();
            if !('0' <= c && c <= '9') {
                all = false;
            }
            proof {
                let now = text@.take(k + 1);
                let was = text@.take(k);
                assert(now[k] == c);
                if all {
                    assert forall|i: int| 0 <= i < now.len() implies spec_is_digit(#[trigger] now[i]) by {
                    }
                } else if spec_is_numeric(now) {
                    assert forall|i: int| 0 <= i < was.len() implies spec_is_digit(#[trigger] was[i]) by {
                    }
                }
            }
        }
        assert(text@.take(text@.len() as int) =~= text@);
        all
    }

    /// Tests whether the given string can be encoded as a segment in alphanumeric mode.
    ///
    /// A string is encodable iff each character is in the following set: 0 to 9, A to Z
    /// (uppercase only), space, dollar, percent, asterisk, plus, hyphen, period, slash, colon.
    pub fn is_alphanumeric(text: &str) -> (b: bool)
        ensures
            b == spec_is_alphanumeric(text@),
    {
        let mut all: bool = true;
        for c in it: text.chars()
            invariant
                it.seq() == text@,
                all == spec_is_alphanumeric(text@.take(it.index())),
        {
            let ghost k = it.index();
            if !is_alphanumeric_char(c) {
                all = false;
            }
            proof {
                let now = text@.take(k + 1);
                let was = text@.take(k);
                assert(now[k] == c);
                if all {
                    assert forall|i: int| 0 <= i < now.len() implies spec_alphanumeric_index(
                        #[trigger] now[i],
                    ) >= 0 by {
                    }
                } else if spec_is_alphanumeric(now) {
                    assert forall|i: int| 0 <= i < was.len() implies spec_alphanumeric_index(
                        #[trigger] was[i],
                    ) >= 0 by {
                    }
                }
            }
        }
        assert(text@.take(text@.len() as int) =~= text@);
        all
    }
}

/// Tests whether the character is in the alphanumeric charset.
pub fn is_alphanumeric_char(c: char) -> (b: bool)
    ensures
        b == (spec_alphanumeric_index(c) >= 0),
{
    ('0' <= c && c <= '9') || ('A' <= c && c <= 'Z') || c == ' ' || c == '$' || c == '%' || c == '*'
        || c == '+' || c == '-' || c == '.' || c == '/' || c == ':'
}

/// The number of data bits of a segment of the given mode and character
/// count: 10 bits for 3 digits, 11 for 2 alphanumeric characters, 8 for a
/// byte, 13 for a kanji character, each rounded up; for an ECI designator
/// its longest form.
pub open spec fn spec_bit_length(mode: QrSegmentMode, numchars: int) -> int {
    match mode {
        QrSegmentMode::Numeric => (numchars * 10 + 2) / 3,
        QrSegmentMode::Alphanumeric => (numchars * 11 + 1) / 2,
        QrSegmentMode::Byte => numchars * 8,
        QrSegmentMode::Kanji => numchars * 13,
        QrSegmentMode::Eci => 24,
    }
}

/// The largest number that the rounding in `spec_bit_length` passes through;
/// the calculation gives up where it is more than a `usize` holds.
pub open spec fn spec_bit_length_reach(mode: QrSegmentMode, numchars: int) -> int {
    match mode {
        QrSegmentMode::Numeric => numchars * 10 + 2,
        QrSegmentMode::Alphanumeric => numchars * 11 + 1,
        QrSegmentMode::Byte => numchars * 8,
        QrSegmentMode::Kanji => numchars * 13,
        QrSegmentMode::Eci => 24,
    }
}

/// A character count that does not fit its field at one version fits it at
/// no smaller version: the fields do not shrink as the version grows.
pub proof fn lemma_count_fits_later(seg: SegmentModel, smaller: int, larger: int)
    requires
        smaller <= larger,
        spec_segment_total_bits(seg, larger) is None,
    ensures
        spec_segment_total_bits(seg, smaller) is None,
{
    let narrow = spec_num_char_count_bits(seg.mode, smaller);
    let wide = spec_num_char_count_bits(seg.mode, larger);
    if narrow < wide {
        vstd::arithmetic::power2::lemma_pow2_strictly_increases(narrow as nat, wide as nat);
    }
}

/// Once a prefix of the segments has no total, no longer prefix has one.
pub proof fn lemma_total_bits_none(segs: Seq<SegmentModel>, k: int, ver: int)
    requires
        0 <= k <= segs.len(),
        spec_total_bits(segs.take(k), ver) is None,
    ensures
        spec_total_bits(segs, ver) is None,
    decreases segs.len() - k,
{
    if k < segs.len() {
        let next = segs.take(k + 1);
        assert(next.drop_last() =~= segs.take(k));
        lemma_total_bits_none(segs, k + 1, ver);
    } else {
        assert(segs.take(k) =~= segs);
    }
}

} // verus!
