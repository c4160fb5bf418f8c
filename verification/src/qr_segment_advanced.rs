//! Splitting a text into segments of several modes so that it takes the
//! fewest bits, and the kanji mode.

use vstd::prelude::*;
use vstd::arithmetic::power2::lemma2_to64;
use vstd::utf8::{encode_scalar, encode_utf8};
use crate::bit_buffer::{lemma_value_fits, spec_bits, BitBuffer};
use crate::segment::{
    is_alphanumeric_char, spec_alphanumeric_bits, spec_alphanumeric_index, spec_byte_bits,
    spec_is_digit, spec_num_char_count_bits, spec_numeric_bits,
    QrSegment, QrSegmentMode, SegmentModel,
};
use crate::assemble::spec_fits;
use crate::segment::{spec_models, spec_version_tier};
use crate::split_cost::{lemma_row_modes_hold, spec_costs_ok, spec_heads_ok};
use crate::qr_code::QrCode;
use crate::version::{QrCodeEcc, Version};

verus! {

/// The number of entries of a kanji table: one for each code point of the
/// Basic Multilingual Plane.
pub const KANJI_TABLE_LEN: usize = 65536;

/// Splits text into optimal segments and encodes kanji segments.
///
/// It holds the table that gives each code point its 13-bit value in kanji
/// mode, or -1 for a code point that kanji mode cannot encode. Without a
/// table there is no kanji mode.
pub struct QrSegmentAdvanced {
    unicode_to_qr_kanji: Vec<i16>,
}

impl QrSegmentAdvanced {
    /// A kanji table has an entry for each code point below 65536, and each
    /// entry is -1 or a value of 13 bits. No table at all is in order too.
    #[verifier::type_invariant]
    pub closed spec fn well_formed(&self) -> bool {
        self.unicode_to_qr_kanji@.len() == 0 || spec_is_kanji_table(self.unicode_to_qr_kanji@)
    }

    /// Whether kanji mode is available.
    pub closed spec fn spec_has_kanji(&self) -> bool {
        self.unicode_to_qr_kanji@.len() != 0
    }

    /// The 13-bit value of the character in kanji mode; -1 if kanji mode
    /// cannot encode it or is not available.
    pub closed spec fn spec_kanji_value(&self, c: char) -> int {
        if 0 <= (c as int) < self.unicode_to_qr_kanji@.len() {
            self.unicode_to_qr_kanji@[c as int] as int
        } else {
            -1
        }
    }

    /// The table that this encoder holds; empty without kanji mode.
    pub closed spec fn spec_table(&self) -> Seq<i16> {
        self.unicode_to_qr_kanji@
    }

    /// An encoder without kanji mode: it holds no table, so kanji mode can
    /// encode no character.
    pub fn new() -> (encoder: QrSegmentAdvanced)
        ensures
            encoder.spec_table() == Seq::<i16>::empty(),
            !encoder.spec_has_kanji(),
            forall|c: char| #[trigger] encoder.spec_kanji_value(c) == -1,
    {
        let encoder = QrSegmentAdvanced { unicode_to_qr_kanji: Vec::new() };
        assert forall|c: char| #[trigger] encoder.spec_kanji_value(c) == -1 by {
        }
        encoder
    }

    /// An encoder with kanji mode by the given table, if it is a kanji table.
    pub fn with_kanji_table(table: Vec<i16>) -> (encoder: Option<QrSegmentAdvanced>)
        ensures
            encoder is Some <==> spec_is_kanji_table(table@),
            encoder matches Some(e) ==> e.spec_has_kanji() && e.spec_table() == table@,
    {
        if table.len() != KANJI_TABLE_LEN {
            return None;
        }
        for i in 0..table.len()
            invariant
                table@.len() == KANJI_TABLE_LEN,
                forall|k: int| 0 <= k < i ==> -1 <= #[trigger] table@[k] < 8192,
        {
            if table[i] < -1 || table[i] >= 8192 {
                return None;
            }
        }
        Some(QrSegmentAdvanced { unicode_to_qr_kanji: table })
    }
}

/// Whether the sequence is a kanji table: an entry for each code point
/// below 65536, each of them -1 or a value of 13 bits.
pub open spec fn spec_is_kanji_table(table: Seq<i16>) -> bool {
    &&& table.len() == KANJI_TABLE_LEN
    &&& forall|k: int| 0 <= k < table.len() ==> -1 <= #[trigger] table[k] < 8192
}

/// Whether the encoder can encode the character in kanji mode.
pub open spec fn spec_is_kanji(c: char, encoder: &QrSegmentAdvanced) -> bool {
    encoder.spec_kanji_value(c) != -1
}

/// Whether the encoder can encode every one of the code points in kanji mode.
pub open spec fn spec_is_encodable_as_kanji(code_points: Seq<char>, encoder: &QrSegmentAdvanced) -> bool {
    forall|i: int| 0 <= i < code_points.len() ==> spec_is_kanji(#[trigger] code_points[i], encoder)
}

/// The data bits of a kanji segment: the 13-bit value of each character.
pub open spec fn spec_kanji_bits(code_points: Seq<char>, encoder: &QrSegmentAdvanced) -> Seq<bool>
    decreases code_points.len(),
{
    if code_points.len() == 0 {
        Seq::empty()
    } else {
        spec_kanji_bits(code_points.drop_last(), encoder) + spec_bits(
            encoder.spec_kanji_value(code_points.last()) as u32,
            13,
        )
    }
}

/// Looks the character up in the kanji table.
fn kanji_value(c: char, encoder: &QrSegmentAdvanced) -> (value: i16)
    ensures
        value == encoder.spec_kanji_value(c),
        -1 <= value < 8192,
        value != -1 ==> encoder.spec_has_kanji(),
{
    proof {
        use_type_invariant(encoder);
    }
    let code: usize = c as u32 as usize;
    if code < encoder.unicode_to_qr_kanji.len() {
        encoder.unicode_to_qr_kanji[code]
    } else {
        -1
    }
}

/// Tests whether the character can be encoded in kanji mode.
pub fn is_kanji(c: char, encoder: &QrSegmentAdvanced) -> (b: bool)
    ensures
        b == spec_is_kanji(c, encoder),
        b ==> encoder.spec_has_kanji(),
{
    kanji_value(c, encoder) != -1
}

/// Tests whether the specified string can be encoded as a segment in kanji mode.
pub fn is_encodable_as_kanji(code_points: &[char], encoder: &QrSegmentAdvanced) -> (b: bool)
    ensures
        b == spec_is_encodable_as_kanji(code_points@, encoder),
{
    for i in 0..code_points.len()
        invariant
            forall|k: int| 0 <= k < i ==> spec_is_kanji(#[trigger] code_points@[k], encoder),
    {
        if !is_kanji(code_points[i], encoder) {
            return false;
        }
    }
    true
}

/// Returns a segment representing the specified text string encoded in kanji mode.
/// Every character must be one that kanji mode can encode.
pub fn make_kanji(code_points: &[char], encoder: &QrSegmentAdvanced) -> (seg: QrSegment)
    requires
        spec_is_encodable_as_kanji(code_points@, encoder),
    ensures
        seg@.mode == QrSegmentMode::Kanji,
        seg@.num_chars == code_points@.len(),
        seg@.bits == spec_kanji_bits(code_points@, encoder),
{
    let mut bb = BitBuffer::new();
    for i in 0..code_points.len()
        invariant
            spec_is_encodable_as_kanji(code_points@, encoder),
            bb@ == spec_kanji_bits(code_points@.take(i as int), encoder),
    {
        let c: char = code_points[i];
        proof {
            let now = code_points@.take(i + 1);
            assert(now.drop_last() =~= code_points@.take(i as int));
            lemma2_to64();
        }
        let val: i16 = kanji_value(c, encoder);
        let bits: u32 = val as u32;
        proof {
            lemma_value_fits(bits, 13);
        }
        bb.append_bits(bits, 13);
    }
    assert(code_points@.take(code_points@.len() as int) =~= code_points@);
    QrSegment::new(QrSegmentMode::Kanji, code_points.len(), bb.0)
}

/// The number of bytes of a character in UTF-8.
pub open spec fn spec_utf8_len(c: char) -> int {
    encode_scalar(c as u32).len() as int
}

proof fn lemma_utf8_bytes(v: u32)
    by (bit_vector)
    ensures
        v < 0x80 ==> (v & 0x7F) as u8 == v as u8,
        (0xC0u8 | ((v >> 6) & 0x1F) as u8) == (0xC0u32 | ((v >> 6) & 0x1F)) as u8,
        (0xE0u8 | ((v >> 12) & 0x0F) as u8) == (0xE0u32 | ((v >> 12) & 0x0F)) as u8,
        (0xF0u8 | ((v >> 18) & 0x7) as u8) == (0xF0u32 | ((v >> 18) & 0x7)) as u8,
        (0x80u8 | (v & 0x3F) as u8) == (0x80u32 | (v & 0x3F)) as u8,
        (0x80u8 | ((v >> 6) & 0x3F) as u8) == (0x80u32 | ((v >> 6) & 0x3F)) as u8,
        (0x80u8 | ((v >> 12) & 0x3F) as u8) == (0x80u32 | ((v >> 12) & 0x3F)) as u8,
        (0xC0u32 | ((v >> 6) & 0x1F)) < 256,
        (0xE0u32 | ((v >> 12) & 0x0F)) < 256,
        (0xF0u32 | ((v >> 18) & 0x7)) < 256,
        (0x80u32 | (v & 0x3F)) < 256,
        (0x80u32 | ((v >> 6) & 0x3F)) < 256,
        (0x80u32 | ((v >> 12) & 0x3F)) < 256,
{
}

/// Appends the bytes of a character in UTF-8.
fn push_utf8(bytes: &mut Vec<u8>, c: char)
    ensures
        final(bytes)@ == old(bytes)@ + encode_scalar(c as u32),
{
    let v: u32 = c as u32;
    proof {
        lemma_utf8_bytes(v);
    }
    if v < 0x80 {
        bytes.push(v as u8);
    } else if v < 0x800 {
        bytes.push((0xC0 | ((v >> 6) & 0x1F)) as u8);
        bytes.push((0x80 | (v & 0x3F)) as u8);
    } else if v < 0x10000 {
        bytes.push((0xE0 | ((v >> 12) & 0x0F)) as u8);
        bytes.push((0x80 | ((v >> 6) & 0x3F)) as u8);
        bytes.push((0x80 | (v & 0x3F)) as u8);
    } else {
        bytes.push((0xF0 | ((v >> 18) & 0x7)) as u8);
        bytes.push((0x80 | ((v >> 12) & 0x3F)) as u8);
        bytes.push((0x80 | ((v >> 6) & 0x3F)) as u8);
        bytes.push((0x80 | (v & 0x3F)) as u8);
    }
}

/// Returns the number of bytes of a character in UTF-8.
fn utf8_len(c: char) -> (n: usize)
    ensures
        n == spec_utf8_len(c),
        1 <= n <= 4,
{
    let v: u32 = c as u32;
    if v < 0x80 {
        1
    } else if v < 0x800 {
        2
    } else if v < 0x10000 {
        3
    } else {
        4
    }
}

/// The bytes of a run of characters in UTF-8 follow from those of its parts.
pub proof fn lemma_encode_utf8_append(a: Seq<char>, c: char)
    ensures
        encode_utf8(a.push(c)) == encode_utf8(a) + encode_scalar(c as u32),
    decreases a.len(),
{
    if a.len() == 0 {
        assert(a.push(c).drop_first() =~= Seq::<char>::empty());
        assert(encode_utf8(a.push(c)) =~= encode_scalar(c as u32) + encode_utf8(Seq::<char>::empty()));
    } else {
        lemma_encode_utf8_append(a.drop_first(), c);
        assert(a.push(c).drop_first() =~= a.drop_first().push(c));
    }
}

/// Returns a segment representing the UTF-8 bytes of the code points in byte mode.
fn make_bytes_from_code_points(code_points: &[char]) -> (seg: QrSegment)
    ensures
        seg@.mode == QrSegmentMode::Byte,
        seg@.num_chars == encode_utf8(code_points@).len(),
        seg@.bits == spec_byte_bits(encode_utf8(code_points@)),
{
    let mut bytes: Vec<u8> = Vec::new();
    for i in 0..code_points.len()
        invariant
            bytes@ == encode_utf8(code_points@.take(i as int)),
    {
        proof {
            lemma_encode_utf8_append(code_points@.take(i as int), code_points@[i as int]);
            assert(code_points@.take(i + 1) =~= code_points@.take(i as int).push(code_points@[i as int]));
        }
        push_utf8(&mut bytes, code_points[i]);
    }
    assert(code_points@.take(code_points@.len() as int) =~= code_points@);
    QrSegment::make_bytes(bytes.as_slice())
}

/// The modes among which the text is split, in the order in which the
/// split tries them: byte, alphanumeric, numeric, and kanji where there is a
/// kanji table.
pub open spec fn spec_mode_type(j: int) -> QrSegmentMode {
    if j == 0 {
        QrSegmentMode::Byte
    } else if j == 1 {
        QrSegmentMode::Alphanumeric
    } else if j == 2 {
        QrSegmentMode::Numeric
    } else {
        QrSegmentMode::Kanji
    }
}

/// The place of a mode in that order; 4 for the one mode that does not hold text.
pub open spec fn spec_mode_index(mode: QrSegmentMode) -> int {
    match mode {
        QrSegmentMode::Byte => 0,
        QrSegmentMode::Alphanumeric => 1,
        QrSegmentMode::Numeric => 2,
        QrSegmentMode::Kanji => 3,
        QrSegmentMode::Eci => 4,
    }
}

/// The number of modes among which the text is split: 4 with kanji mode, 3 without.
pub open spec fn spec_num_modes(encoder: &QrSegmentAdvanced) -> int {
    if encoder.spec_has_kanji() {
        4
    } else {
        3
    }
}

/// Whether a segment of the mode can hold the character.
pub open spec fn spec_mode_encodes(mode: QrSegmentMode, c: char, encoder: &QrSegmentAdvanced) -> bool {
    match mode {
        QrSegmentMode::Byte => true,
        QrSegmentMode::Alphanumeric => spec_alphanumeric_index(c) >= 0,
        QrSegmentMode::Numeric => spec_is_digit(c),
        QrSegmentMode::Kanji => spec_is_kanji(c, encoder),
        QrSegmentMode::Eci => false,
    }
}

/// The cost of one more character in a segment of the mode with the given
/// place, in sixths of a bit: 8 bits for each byte of the character in
/// UTF-8, 5.5 bits in alphanumeric mode, 3 1/3 bits in numeric mode, 13 bits
/// in kanji mode.
pub open spec fn spec_char_cost(j: int, c: char) -> int {
    if j == 0 {
        spec_utf8_len(c) * 8 * 6
    } else if j == 1 {
        33
    } else if j == 2 {
        20
    } else {
        78
    }
}

/// The cost of the header of a segment of each mode at the given version, in
/// sixths of a bit: the mode indicator and the character count field.
pub open spec fn spec_head_costs(ver: int) -> Seq<int> {
    Seq::new(4, |j: int| (4 + spec_num_char_count_bits(spec_mode_type(j), ver)) * 6)
}

/// A cost in sixths of a bit, rounded up to whole bits.
pub open spec fn spec_whole_bits(cost: int) -> int {
    (cost + 5) / 6 * 6
}

/// One row of the table of the split, for one code point: for each mode,
/// the least cost of the text up to this code point when the text goes on in
/// that mode after it, and the mode that holds this code point then.
pub ghost struct CostRow {
    /// The least cost for each mode, in sixths of a bit.
    pub costs: Seq<int>,
    /// The mode of this code point for each mode, where there is one.
    pub modes: Seq<Option<QrSegmentMode>>,
}

/// The row of a code point when the segment that the text is in just goes
/// on: possible for each mode that can hold the code point.
pub open spec fn spec_extended(prev: Seq<int>, c: char, encoder: &QrSegmentAdvanced) -> CostRow {
    CostRow {
        costs: Seq::new(
            4,
            |j: int|
                if j < spec_num_modes(encoder) && spec_mode_encodes(spec_mode_type(j), c, encoder) {
                    prev[j] + spec_char_cost(j, c)
                } else {
                    0
                },
        ),
        modes: Seq::new(
            4,
            |j: int|
                if j < spec_num_modes(encoder) && spec_mode_encodes(spec_mode_type(j), c, encoder) {
                    Some(spec_mode_type(j))
                } else {
                    None
                },
        ),
    }
}

/// The row after one try to start a new segment of mode `j` behind a code
/// point that mode `k` holds: the cost so far rounded up to whole bits and
/// the header of the new segment. The try is taken where mode `k` has a
/// cost and mode `j` has none yet or a higher one.
pub open spec fn spec_switch(row: CostRow, head: Seq<int>, j: int, k: int) -> CostRow {
    let new_cost = spec_whole_bits(row.costs[k]) + head[j];
    if row.modes[k] is Some && (row.modes[j] is None || new_cost < row.costs[j]) {
        CostRow { costs: row.costs.update(j, new_cost), modes: row.modes.update(j, Some(spec_mode_type(k))) }
    } else {
        row
    }
}

/// The row after the tries to start a segment of mode `j` behind each of the first `k` modes.
pub open spec fn spec_switched_from(row: CostRow, head: Seq<int>, j: int, k: int) -> CostRow
    decreases k,
{
    if k <= 0 {
        row
    } else {
        spec_switch(spec_switched_from(row, head, j, k - 1), head, j, k - 1)
    }
}

/// The row after all tries to start a segment of one of the first `j` modes, of `n` modes.
pub open spec fn spec_switched(row: CostRow, head: Seq<int>, n: int, j: int) -> CostRow
    decreases j,
{
    if j <= 0 {
        row
    } else {
        spec_switched_from(spec_switched(row, head, n, j - 1), head, j - 1, n)
    }
}

/// The row of a code point, from the costs of the code point before it.
pub open spec fn spec_next_row(prev: Seq<int>, head: Seq<int>, c: char, encoder: &QrSegmentAdvanced) -> CostRow {
    spec_switched(spec_extended(prev, c, encoder), head, spec_num_modes(encoder), spec_num_modes(encoder))
}

/// The costs before code point `i`: those of the row before it, and for the
/// first code point the costs of the headers.
pub open spec fn spec_costs_before(
    code_points: Seq<char>,
    head: Seq<int>,
    encoder: &QrSegmentAdvanced,
    i: int,
) -> Seq<int>
    decreases i,
{
    if i <= 0 {
        head
    } else {
        spec_next_row(
            spec_costs_before(code_points, head, encoder, i - 1),
            head,
            code_points[i - 1],
            encoder,
        ).costs
    }
}

/// The row of code point `i`.
pub open spec fn spec_row_at(code_points: Seq<char>, head: Seq<int>, encoder: &QrSegmentAdvanced, i: int) -> CostRow {
    spec_next_row(spec_costs_before(code_points, head, encoder, i), head, code_points[i], encoder)
}

/// The place of the first of the least of the first `m` costs.
pub open spec fn spec_cheapest(costs: Seq<int>, m: int) -> int
    decreases m,
{
    if m <= 1 {
        0
    } else {
        let best = spec_cheapest(costs, m - 1);
        if costs[m - 1] < costs[best] {
            m - 1
        } else {
            best
        }
    }
}

/// The mode of a row for the given mode behind it; byte mode where the row has none.
pub open spec fn spec_mode_in_row(row: CostRow, after: QrSegmentMode) -> QrSegmentMode {
    match row.modes[spec_mode_index(after)] {
        Some(mode) => mode,
        None => QrSegmentMode::Byte,
    }
}

/// The mode that holds code point `i` in the cheapest split: found from the
/// end, where the text ends in the mode of the least cost, back to the front.
pub open spec fn spec_mode_at(code_points: Seq<char>, head: Seq<int>, encoder: &QrSegmentAdvanced, i: int) -> QrSegmentMode
    decreases code_points.len() - i,
{
    if i >= code_points.len() {
        spec_mode_type(
            spec_cheapest(
                spec_costs_before(code_points, head, encoder, code_points.len() as int),
                spec_num_modes(encoder),
            ),
        )
    } else {
        spec_mode_in_row(
            spec_row_at(code_points, head, encoder, i),
            spec_mode_at(code_points, head, encoder, i + 1),
        )
    }
}

/// The mode of each code point in the split of the text that takes the fewest bits.
pub open spec fn spec_character_modes(code_points: Seq<char>, head: Seq<int>, encoder: &QrSegmentAdvanced) -> Seq<
    QrSegmentMode,
> {
    Seq::new(code_points.len(), |i: int| spec_mode_at(code_points, head, encoder, i))
}

/// The row that a pair of vectors holds.
pub open spec fn spec_row_of(costs: Seq<usize>, modes: Seq<Option<QrSegmentMode>>) -> CostRow {
    CostRow { costs: Seq::new(costs.len(), |m: int| costs[m] as int), modes: modes }
}

/// The costs that a vector holds, as numbers without a limit.
pub open spec fn spec_costs_of(costs: Seq<usize>) -> Seq<int> {
    Seq::new(costs.len(), |m: int| costs[m] as int)
}

/// What the split needs of the header costs: whole bits, from 4 to 20 of them.
pub open spec fn spec_head_ok(head: Seq<usize>) -> bool {
    &&& head.len() == 4
    &&& forall|m: int| 0 <= m < 4 ==> 24 <= #[trigger] head[m] <= 120 && head[m] % 6 == 0
}

/// Every mode of a finished row has a cost, and the mode that holds the
/// code point then can hold it.
pub open spec fn spec_row_ok(modes: Seq<Option<QrSegmentMode>>, c: char, encoder: &QrSegmentAdvanced) -> bool {
    forall|m: int|
        0 <= m < spec_num_modes(encoder) ==> match #[trigger] modes[m] {
            Some(x) => spec_mode_encodes(x, c, encoder) && spec_mode_index(x) < spec_num_modes(encoder),
            None => false,
        }
}

/// Returns the mode with the given place in the order of the split.
fn mode_type(j: usize) -> (mode: QrSegmentMode)
    requires
        j < 4,
    ensures
        mode == spec_mode_type(j as int),
        spec_mode_index(mode) == j,
{
    if j == 0 {
        QrSegmentMode::Byte
    } else if j == 1 {
        QrSegmentMode::Alphanumeric
    } else if j == 2 {
        QrSegmentMode::Numeric
    } else {
        QrSegmentMode::Kanji
    }
}

/// Tells whether a segment of the mode with the given place can hold the character.
fn mode_encodes(j: usize, c: char, encoder: &QrSegmentAdvanced) -> (b: bool)
    requires
        j < 4,
    ensures
        b == spec_mode_encodes(spec_mode_type(j as int), c, encoder),
{
    if j == 0 {
        true
    } else if j == 1 {
        is_alphanumeric_char(c)
    } else if j == 2 {
        '0' <= c && c <= '9'
    } else {
        is_kanji(c, encoder)
    }
}

/// Extends each segment that can hold the character by it.
#[verifier::spinoff_prover]
#[verifier::rlimit(40)]
fn extend_row(prev: &Vec<usize>, c: char, encoder: &QrSegmentAdvanced, n: usize, Ghost(limit): Ghost<int>) -> (row: (
    Vec<usize>,
    Vec<Option<QrSegmentMode>>,
))
    requires
        prev@.len() == 4,
        n == spec_num_modes(encoder),
        0 <= limit,
        limit + 192 <= usize::MAX,
        forall|m: int| 0 <= m < 4 ==> #[trigger] prev@[m] <= limit,
    ensures
        row.0@.len() == 4,
        row.1@.len() == 4,
        spec_row_of(row.0@, row.1@) == spec_extended(spec_costs_of(prev@), c, encoder),
        forall|m: int| 0 <= m < 4 ==> #[trigger] row.0@[m] <= limit + 192,
{
    let mut costs: Vec<usize> = Vec::new();
    let mut modes: Vec<Option<QrSegmentMode>> = Vec::new();
    let ghost want = spec_extended(spec_costs_of(prev@), c, encoder);
    for j in 0..4usize
        invariant
            prev@.len() == 4,
            n == spec_num_modes(encoder),
            0 <= limit,
            limit + 192 <= usize::MAX,
            forall|m: int| 0 <= m < 4 ==> #[trigger] prev@[m] <= limit,
            want == spec_extended(spec_costs_of(prev@), c, encoder),
            costs@.len() == j,
            modes@.len() == j,
            forall|m: int| 0 <= m < j ==> #[trigger] costs@[m] == want.costs[m] && costs@[m] <= limit + 192,
            forall|m: int| 0 <= m < j ==> #[trigger] modes@[m] == want.modes[m],
    {
        if j < n && mode_encodes(j, c, encoder) {
            let step: usize = if j == 0 {
                utf8_len(c) * 8 * 6
            } else if j == 1 {
                33  // 5.5 bits per alphanumeric char
            } else if j == 2 {
                20  // 3.33 bits per digit
            } else {
                78  // 13 bits per Shift JIS char
            };
            costs.push(prev[j] + step);
            modes.push(Some(mode_type(j)));
        } else {
            costs.push(0);
            modes.push(None);
        }
    }
    assert(spec_row_of(costs@, modes@).costs =~= want.costs);
    assert(spec_row_of(costs@, modes@).modes =~= want.modes);
    (costs, modes)
}

/// Tries to start a new segment of each mode behind each mode, to switch modes.
#[verifier::spinoff_prover]
#[verifier::rlimit(40)]
fn switch_row(
    costs: &mut Vec<usize>,
    modes: &mut Vec<Option<QrSegmentMode>>,
    head: &Vec<usize>,
    n: usize,
    c: char,
    encoder: &QrSegmentAdvanced,
    Ghost(prev): Ghost<Seq<int>>,
    Ghost(limit): Ghost<int>,
)
    requires
        old(costs)@.len() == 4,
        old(modes)@.len() == 4,
        spec_head_ok(head@),
        n == spec_num_modes(encoder),
        spec_costs_ok(prev),
        spec_row_of(old(costs)@, old(modes)@) == spec_extended(prev, c, encoder),
        0 <= limit,
        limit + 700 <= usize::MAX,
        forall|m: int| 0 <= m < 4 ==> #[trigger] old(costs)@[m] <= limit,
    ensures
        final(costs)@.len() == 4,
        final(modes)@.len() == 4,
        spec_row_of(final(costs)@, final(modes)@) == spec_next_row(prev, spec_costs_of(head@), c, encoder),
        spec_row_ok(final(modes)@, c, encoder),
        forall|m: int| 0 <= m < 4 ==> #[trigger] final(costs)@[m] <= limit + 500,
{
    let ghost start = spec_extended(prev, c, encoder);
    let ghost heads = spec_costs_of(head@);
    for j in 0..n
        invariant
            costs@.len() == 4,
            modes@.len() == 4,
            spec_head_ok(head@),
            heads == spec_costs_of(head@),
            3 <= n <= 4,
            n == spec_num_modes(encoder),
            spec_row_of(costs@, modes@) == spec_switched(start, heads, n as int, j as int),
            0 <= limit,
            limit + 700 <= usize::MAX,
            forall|m: int| 0 <= m < 4 ==> #[trigger] costs@[m] <= limit + 125 * j,
    {
        let ghost row_before = spec_row_of(costs@, modes@);
        for k in 0..n
            invariant
                costs@.len() == 4,
                modes@.len() == 4,
                spec_head_ok(head@),
                heads == spec_costs_of(head@),
                3 <= n <= 4,
                0 <= j < n,
                spec_row_of(costs@, modes@) == spec_switched_from(row_before, heads, j as int, k as int),
                0 <= limit,
                limit + 700 <= usize::MAX,
                forall|m: int| 0 <= m < 4 && m != j ==> #[trigger] costs@[m] <= limit + 125 * j,
                costs@[j as int] <= limit + 125 * j + 125,
        {
            let ghost row_now = spec_row_of(costs@, modes@);
            let new_cost: usize = (costs[k] + 5) / 6 * 6 + head[j];
            let taken: bool = match modes[k] {
                Some(_) => match modes[j] {
                    None => true,
                    Some(_) => new_cost < costs[j],
                },
                None => false,
            };
            if taken {
                costs[j] = new_cost;
                modes[j] = Some(mode_type(k));
            }
            proof {
                let next_row = spec_switch(row_now, heads, j as int, k as int);
                assert(spec_row_of(costs@, modes@).costs =~= next_row.costs);
            }
        }
    }
    proof {
        assert(spec_heads_ok(heads));
        assert forall|m: int| 0 <= m < spec_num_modes(encoder) implies match #[trigger] modes@[m] {
            Some(x) => spec_mode_encodes(x, c, encoder) && spec_mode_index(x) < spec_num_modes(encoder),
            None => false,
        } by {
            lemma_row_modes_hold(prev, heads, c, encoder, m);
        }
    }
}

/// Whether the costs of a text of the given number of code points are
/// sure to fit a `usize`: each code point adds less than 700 sixths of a bit.
pub open spec fn spec_costs_fit(len: int) -> bool {
    700 * len + 400 <= usize::MAX
}

/// Returns the place of a mode in the order of the split.
fn mode_index(mode: QrSegmentMode) -> (j: usize)
    ensures
        j == spec_mode_index(mode),
{
    match mode {
        QrSegmentMode::Byte => 0,
        QrSegmentMode::Alphanumeric => 1,
        QrSegmentMode::Numeric => 2,
        QrSegmentMode::Kanji => 3,
        QrSegmentMode::Eci => 4,
    }
}

/// Returns a new array representing the optimal mode per code point based on the given text and version.
#[verifier::spinoff_prover]
#[verifier::rlimit(40)]
fn compute_character_modes(code_points: &[char], version: Version, encoder: &QrSegmentAdvanced) -> (result: Vec<
    QrSegmentMode,
>)
    requires
        spec_costs_fit(code_points@.len() as int),
    ensures
        result@ == spec_character_modes(code_points@, spec_head_costs(version.spec_value()), encoder),
        forall|i: int|
            0 <= i < result@.len() ==> spec_mode_encodes(#[trigger] result@[i], code_points@[i], encoder),
{
    let n: usize = if encoder.unicode_to_qr_kanji.len() != 0 {
        4
    } else {
        3
    };
    let ghost heads = spec_head_costs(version.spec_value());
    // Segment header sizes, measured in 1/6 bits
    let mut head_costs: Vec<usize> = Vec::new();
    for i in 0..4usize
        invariant
            head_costs@.len() == i,
            forall|m: int|
                0 <= m < i ==> #[trigger] head_costs@[m] == (4 + spec_num_char_count_bits(
                    spec_mode_type(m),
                    version.spec_value(),
                )) * 6,
    {
        head_costs.push((4 + mode_type(i).num_char_count_bits(version) as usize) * 6);
    }

    // charModes[i][j] represents the mode to encode the code point at index i
    // such that the final segment ends in modeTypes[j] and the total number of bits is minimized over all possible choices
    let mut char_modes: Vec<Vec<Option<QrSegmentMode>>> = Vec::new();

    // At the beginning of each iteration of the loop below,
    // prevCosts[j] is the exact minimum number of 1/6 bits needed to encode the entire string prefix of length i, and end in modeTypes[j]
    let mut prev_costs: Vec<usize> = Vec::new();
    for i in 0..4usize
        invariant
            head_costs@.len() == 4,
            prev_costs@.len() == i,
            forall|m: int| 0 <= m < i ==> #[trigger] prev_costs@[m] == head_costs@[m],
    {
        prev_costs.push(head_costs[i]);
    }

    // Calculate costs using dynamic programming
    for i in 0..code_points.len()
        invariant
            spec_costs_fit(code_points@.len() as int),
            n == spec_num_modes(encoder),
            heads == spec_head_costs(version.spec_value()),
            spec_costs_of(head_costs@) == heads,
            spec_head_ok(head_costs@),
            prev_costs@.len() == 4,
            spec_costs_of(prev_costs@) == spec_costs_before(code_points@, heads, encoder, i as int),
            forall|m: int| 0 <= m < 4 ==> #[trigger] prev_costs@[m] <= 120 + 700 * i,
            char_modes@.len() == i,
            forall|r: int|
                0 <= r < i ==> (#[trigger] char_modes@[r])@ == spec_row_at(code_points@, heads, encoder, r).modes,
            forall|r: int|
                0 <= r < i ==> (#[trigger] char_modes@[r])@.len() == 4 && spec_row_ok(
                    char_modes@[r]@,
                    code_points@[r],
                    encoder,
                ),
    {
        let c: char = code_points[i];
        let ghost limit: int = 120 + 700 * i;
        let (mut cur_costs, mut row): (Vec<usize>, Vec<Option<QrSegmentMode>>) = extend_row(
            &prev_costs,
            c,
            encoder,
            n,
            Ghost(limit),
        );
        // Start new segment at the end to switch modes
        switch_row(
            &mut cur_costs,
            &mut row,
            &head_costs,
            n,
            c,
            encoder,
            Ghost(spec_costs_of(prev_costs@)),
            Ghost(limit + 192),
        );
        char_modes.push(row);
        prev_costs = cur_costs;
    }

    // Find optimal ending mode
    let mut best: usize = 0;
    for i in 1..n
        invariant
            3 <= n <= 4,
            prev_costs@.len() == 4,
            0 <= best < i,
            best == spec_cheapest(spec_costs_of(prev_costs@), i as int),
    {
        if prev_costs[i] < prev_costs[best] {
            best = i;
        }
    }
    let mut cur_mode: QrSegmentMode = mode_type(best);
    let len: usize = code_points.len();
    let mut result: Vec<QrSegmentMode> = Vec::new();
    for i in 0..len
        invariant
            result@.len() == i,
    {
        result.push(QrSegmentMode::Byte);
    }

    // Get optimal mode for each code point by tracing backwards
    let mut i: usize = len;
    while i > 0
        invariant
            0 <= i <= len,
            len == code_points@.len(),
            n == spec_num_modes(encoder),
            result@.len() == len,
            char_modes@.len() == len,
            spec_mode_index(cur_mode) < n,
            cur_mode == spec_mode_at(code_points@, heads, encoder, i as int),
            forall|r: int|
                0 <= r < len ==> (#[trigger] char_modes@[r])@ == spec_row_at(code_points@, heads, encoder, r).modes,
            forall|r: int|
                0 <= r < len ==> (#[trigger] char_modes@[r])@.len() == 4 && spec_row_ok(
                    char_modes@[r]@,
                    code_points@[r],
                    encoder,
                ),
            forall|r: int|
                i <= r < len ==> #[trigger] result@[r] == spec_mode_at(code_points@, heads, encoder, r)
                    && spec_mode_encodes(result@[r], code_points@[r], encoder),
        decreases i,
    {
        i -= 1;
        let j: usize = mode_index(cur_mode);
        let row: &Vec<Option<QrSegmentMode>> = &char_modes[i];
        cur_mode = match row[j] {
            Some(mode) => mode,
            None => QrSegmentMode::Byte,
        };
        result[i] = cur_mode;
    }
    result
}

/// The length of the run of equal modes at the front of a list of modes.
pub open spec fn spec_run_len(modes: Seq<QrSegmentMode>) -> int
    decreases modes.len(),
{
    if modes.len() <= 1 {
        modes.len() as int
    } else if modes[1] == modes[0] {
        1 + spec_run_len(modes.drop_first())
    } else {
        1
    }
}

/// The segment that holds a run of code points in one mode.
pub open spec fn spec_run_segment(run: Seq<char>, mode: QrSegmentMode, encoder: &QrSegmentAdvanced) -> SegmentModel {
    match mode {
        QrSegmentMode::Numeric => SegmentModel {
            mode: mode,
            num_chars: run.len() as int,
            bits: spec_numeric_bits(run),
        },
        QrSegmentMode::Alphanumeric => SegmentModel {
            mode: mode,
            num_chars: run.len() as int,
            bits: spec_alphanumeric_bits(run),
        },
        QrSegmentMode::Kanji => SegmentModel {
            mode: mode,
            num_chars: run.len() as int,
            bits: spec_kanji_bits(run, encoder),
        },
        _ => SegmentModel {
            mode: QrSegmentMode::Byte,
            num_chars: encode_utf8(run).len() as int,
            bits: spec_byte_bits(encode_utf8(run)),
        },
    }
}

/// The segments of a text whose code points have the given modes: one
/// segment for each longest run of code points of one mode, in the order of
/// the text.
pub open spec fn spec_split_segments(
    code_points: Seq<char>,
    modes: Seq<QrSegmentMode>,
    encoder: &QrSegmentAdvanced,
) -> Seq<SegmentModel>
    decreases modes.len(),
{
    if modes.len() == 0 {
        Seq::empty()
    } else {
        let run = spec_run_len(modes);
        if 0 < run <= modes.len() {
            seq![spec_run_segment(code_points.take(run), modes[0], encoder)] + spec_split_segments(
                code_points.skip(run),
                modes.skip(run),
                encoder,
            )
        } else {
            Seq::empty()
        }
    }
}

/// A run of equal modes that ends where the list ends or another mode
/// follows is the run at the front.
proof fn lemma_run_len(modes: Seq<QrSegmentMode>, end: int)
    requires
        0 < end <= modes.len(),
        forall|i: int| 0 <= i < end ==> #[trigger] modes[i] == modes[0],
        end == modes.len() || modes[end] != modes[0],
    ensures
        spec_run_len(modes) == end,
    decreases modes.len(),
{
    if modes.len() > 1 {
        if end > 1 {
            let rest = modes.drop_first();
            assert forall|i: int| 0 <= i < end - 1 implies #[trigger] rest[i] == rest[0] by {
            }
            lemma_run_len(rest, end - 1);
        }
    }
}

/// The segments of the rest of a text start with the segment of its first run.
#[verifier::spinoff_prover]
#[verifier::rlimit(40)]
proof fn lemma_split_step(
    code_points: Seq<char>,
    modes: Seq<QrSegmentMode>,
    encoder: &QrSegmentAdvanced,
    start: int,
    end: int,
)
    requires
        0 <= start < end <= modes.len(),
        modes.len() == code_points.len(),
        forall|r: int| start <= r < end ==> #[trigger] modes[r] == modes[start],
        end == modes.len() || modes[end] != modes[start],
    ensures
        spec_split_segments(code_points.skip(start), modes.skip(start), encoder) == seq![
            spec_run_segment(code_points.subrange(start, end), modes[start], encoder),
        ] + spec_split_segments(code_points.skip(end), modes.skip(end), encoder),
{
    let rest_modes = modes.skip(start);
    let rest_points = code_points.skip(start);
    assert forall|r: int| 0 <= r < end - start implies #[trigger] rest_modes[r] == rest_modes[0] by {
    }
    lemma_run_len(rest_modes, end - start);
    assert(rest_points.take(end - start) =~= code_points.subrange(start, end));
    assert(rest_points.skip(end - start) =~= code_points.skip(end));
    assert(rest_modes.skip(end - start) =~= modes.skip(end));
}

/// Returns a new list of segments based on the given text and modes, such that
/// consecutive code points in the same mode are put into the same segment.
#[verifier::spinoff_prover]
#[verifier::rlimit(40)]
fn split_into_segments(code_points: &[char], char_modes: &Vec<QrSegmentMode>, encoder: &QrSegmentAdvanced) -> (result: Vec<
    QrSegment,
>)
    requires
        code_points@.len() > 0,
        char_modes@.len() == code_points@.len(),
        forall|i: int|
            0 <= i < char_modes@.len() ==> spec_mode_encodes(#[trigger] char_modes@[i], code_points@[i], encoder),
    ensures
        spec_models(result@) == spec_split_segments(code_points@, char_modes@, encoder),
{
    let mut result: Vec<QrSegment> = Vec::new();
    let len: usize = code_points.len();

    // Accumulate run of modes
    let mut start: usize = 0;
    assert(code_points@.skip(0) =~= code_points@);
    assert(char_modes@.skip(0) =~= char_modes@);
    while start < len
        invariant
            0 <= start <= len,
            len == code_points@.len(),
            char_modes@.len() == len,
            forall|i: int|
                0 <= i < len ==> spec_mode_encodes(#[trigger] char_modes@[i], code_points@[i], encoder),
            spec_split_segments(code_points@, char_modes@, encoder) == spec_models(result@)
                + spec_split_segments(code_points@.skip(start as int), char_modes@.skip(start as int), encoder),
        decreases len - start,
    {
        let cur_mode: QrSegmentMode = char_modes[start];
        let mut run: Vec<char> = Vec::new();
        run.push(code_points[start]);
        let mut i: usize = start + 1;
        while i < len && char_modes[i] == cur_mode
            invariant
                start < i <= len,
                len == code_points@.len(),
                char_modes@.len() == len,
                cur_mode == char_modes@[start as int],
                forall|r: int| start <= r < i ==> #[trigger] char_modes@[r] == cur_mode,
                run@ == code_points@.subrange(start as int, i as int),
            decreases len - i,
        {
            run.push(code_points[i]);
            i += 1;
        }
        proof {
            lemma_split_step(code_points@, char_modes@, encoder, start as int, i as int);
            assert forall|r: int| 0 <= r < run@.len() implies spec_mode_encodes(
                cur_mode,
                #[trigger] run@[r],
                encoder,
            ) by {
                assert(char_modes@[start + r] == cur_mode);
            }
        }
        let seg: QrSegment = match cur_mode {
            QrSegmentMode::Numeric => QrSegment::make_from_code_points(run.as_slice(), true),
            QrSegmentMode::Alphanumeric => QrSegment::make_from_code_points(run.as_slice(), false),
            QrSegmentMode::Kanji => make_kanji(run.as_slice(), encoder),
            _ => make_bytes_from_code_points(run.as_slice()),
        };
        let ghost before = spec_models(result@);
        result.push(seg);
        proof {
            assert(before + (seq![seg@] + spec_split_segments(
                code_points@.skip(i as int),
                char_modes@.skip(i as int),
                encoder,
            )) =~= spec_models(result@) + spec_split_segments(
                code_points@.skip(i as int),
                char_modes@.skip(i as int),
                encoder,
            ));
        }
        start = i;
    }
    assert(spec_split_segments(code_points@.skip(len as int), char_modes@.skip(len as int), encoder)
        =~= Seq::<SegmentModel>::empty());
    result
}

/// The segments of the text that take the fewest bits at the given version.
pub open spec fn spec_optimal_segments(code_points: Seq<char>, ver: int, encoder: &QrSegmentAdvanced) -> Seq<
    SegmentModel,
> {
    spec_split_segments(
        code_points,
        spec_character_modes(code_points, spec_head_costs(ver), encoder),
        encoder,
    )
}

/// Whether the segments of the text that take the fewest bits at the given
/// version fit a symbol of that version and the given level.
pub open spec fn spec_optimal_fits(code_points: Seq<char>, ver: int, ecc: QrCodeEcc, encoder: &QrSegmentAdvanced) -> bool {
    spec_fits(spec_optimal_segments(code_points, ver, encoder), ver, ecc)
}

/// The split depends on the version only by the width of the character
/// count fields: versions of one tier give the same segments.
pub proof fn lemma_optimal_by_tier(code_points: Seq<char>, a: int, b: int, encoder: &QrSegmentAdvanced)
    requires
        spec_version_tier(a) == spec_version_tier(b),
    ensures
        spec_optimal_segments(code_points, a, encoder) == spec_optimal_segments(code_points, b, encoder),
{
    assert(spec_head_costs(a) =~= spec_head_costs(b));
}

/// Returns a new list of segments that is optimal for the given text at the given version number.
fn make_segments_optimally_at_version(code_points: &[char], version: Version, encoder: &QrSegmentAdvanced) -> (segs: Vec<
    QrSegment,
>)
    requires
        0 < code_points@.len(),
        spec_costs_fit(code_points@.len() as int),
    ensures
        spec_models(segs@) == spec_optimal_segments(code_points@, version.spec_value(), encoder),
{
    let char_modes: Vec<QrSegmentMode> = compute_character_modes(code_points, version, encoder);
    split_into_segments(code_points, &char_modes, encoder)
}

/// Returns a list of zero or more segments to represent the specified Unicode text string.
///
/// The segments are those that take the fewest bits at the smallest version
/// of the range at which such segments fit a symbol of the given level.
/// Returns `None` if there is no such version, and if the range is empty.
/// The text must not be empty, and so short that its costs fit a `usize`.
#[verifier::spinoff_prover]
#[verifier::rlimit(40)]
pub fn make_segments_optimally(
    code_points: &[char],
    ecc: QrCodeEcc,
    min_version: Version,
    max_version: Version,
    encoder: &QrSegmentAdvanced,
) -> (result: Option<Vec<QrSegment>>)
    requires
        0 < code_points@.len(),
        spec_costs_fit(code_points@.len() as int),
    ensures
        match result {
            Some(segs) => exists|ver: int|
                {
                    &&& min_version.spec_value() <= ver <= max_version.spec_value()
                    &&& #[trigger] spec_optimal_fits(code_points@, ver, ecc, encoder)
                    &&& spec_models(segs@) == spec_optimal_segments(code_points@, ver, encoder)
                    &&& forall|u: int|
                        min_version.spec_value() <= u < ver ==> !#[trigger] spec_optimal_fits(
                            code_points@,
                            u,
                            ecc,
                            encoder,
                        )
                },
            None => forall|u: int|
                min_version.spec_value() <= u <= max_version.spec_value() ==> !#[trigger] spec_optimal_fits(
                    code_points@,
                    u,
                    ecc,
                    encoder,
                ),
        },
{
    let min: u8 = min_version.value();
    let max: u8 = max_version.value();

    // Check arguments
    if min > max {
        return None;
    }
    // Iterate through version numbers, and make tentative segments

    let mut segs: Vec<QrSegment> = make_segments_optimally_at_version(code_points, min_version, encoder);
    let mut number: u8 = min;
    while number <= max
        invariant
            0 < code_points@.len(),
            spec_costs_fit(code_points@.len() as int),
            min == min_version.spec_value(),
            max == max_version.spec_value(),
            1 <= min <= number <= max + 1 <= 41,
            number <= max ==> spec_models(segs@) == spec_optimal_segments(code_points@, number as int, encoder),
            forall|u: int| min <= u < number ==> !#[trigger] spec_optimal_fits(code_points@, u, ecc, encoder),
        decreases max + 1 - number,
    {
        let version: Version = Version::new(number);

        // Check if the segments fit
        let data_capacity_bits: usize = QrCode::get_num_data_codewords(version, ecc) * 8;
        let data_used_bits: Option<usize> = QrSegment::get_total_bits(segs.as_slice(), version);
        match data_used_bits {
            Some(used) => {
                if used <= data_capacity_bits {
                    assert(spec_optimal_fits(code_points@, number as int, ecc, encoder));
                    return Some(segs);  // This version number is found to be suitable
                }
            },
            None => {},
        }
        number += 1;
        if number <= max {
            if number == 10 || number == 27 {
                segs = make_segments_optimally_at_version(code_points, Version::new(number), encoder);
            } else {
                proof {
                    lemma_optimal_by_tier(code_points@, number - 1, number as int, encoder);
                }
            }
        }
    }
    None
}

} // verus!
