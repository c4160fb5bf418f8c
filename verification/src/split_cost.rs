//! Why the split of a text into segments of several modes is a cheapest one.

use vstd::prelude::*;
use crate::qr_segment_advanced::{
    spec_character_modes, spec_char_cost, spec_cheapest, spec_costs_before, spec_extended, spec_mode_at,
    spec_mode_encodes, spec_mode_index, spec_mode_type, spec_next_row, spec_num_modes, spec_row_at,
    spec_switch, spec_switched, spec_switched_from, spec_whole_bits, CostRow, QrSegmentAdvanced,
};
use vstd::utf8::encode_utf8;
use crate::assemble::{spec_segment_bits, spec_segments_bits};
use crate::qr_segment_advanced::{
    lemma_encode_utf8_append, spec_head_costs, spec_kanji_bits, spec_run_len, spec_run_segment,
    spec_split_segments,
};
use crate::segment::{spec_alphanumeric_bits, spec_numeric_bits, QrSegmentMode, SegmentModel};

verus! {

/// What the proof needs of the header costs: whole bits, from 4 to 20 of them.
pub open spec fn spec_heads_ok(head: Seq<int>) -> bool {
    &&& head.len() == 4
    &&& 24 <= head[0] <= 120 && head[0] % 6 == 0
    &&& 24 <= head[1] <= 120 && head[1] % 6 == 0
    &&& 24 <= head[2] <= 120 && head[2] % 6 == 0
    &&& 24 <= head[3] <= 120 && head[3] % 6 == 0
}

/// What holds of one entry of a row in which each segment that can hold
/// the code point just goes on: it has a cost and a mode if and only if its
/// mode can hold the code point, and then the mode is its own.
spec fn extension_at(ext: CostRow, n: int, m: int) -> bool {
    &&& ext.costs[m] >= 0
    &&& match ext.modes[m] {
        Some(x) => x == spec_mode_type(m) && m < n,
        None => true,
    }
}

/// What holds of a row in which each segment that can hold the code point
/// just goes on. Byte mode can hold every code point.
spec fn extension(ext: CostRow, n: int) -> bool {
    &&& ext.costs.len() == 4
    &&& ext.modes.len() == 4
    &&& 3 <= n <= 4
    &&& ext.modes[0] is Some
    &&& extension_at(ext, n, 0)
    &&& extension_at(ext, n, 1)
    &&& extension_at(ext, n, 2)
    &&& extension_at(ext, n, 3)
}

/// The cost of mode `m` is at most that of a new segment behind mode `k`,
/// where mode `k` can hold the code point.
spec fn below(row: CostRow, ext: CostRow, head: Seq<int>, m: int, k: int) -> bool {
    k != m && ext.modes[k] is Some ==> row.costs[m] <= spec_whole_bits(ext.costs[k]) + head[m]
}

/// What holds of an entry of a row once all new segments of its mode have
/// been tried: it has a cost; the mode that holds the code point can hold
/// it; the cost is that of the segment going on, or that of a new segment
/// behind the mode that holds the code point; and no other way is cheaper.
spec fn done(row: CostRow, ext: CostRow, head: Seq<int>, n: int, m: int) -> bool {
    &&& match row.modes[m] {
        Some(x) => {
            let hx = spec_mode_index(x);
            &&& 0 <= hx < n
            &&& x == spec_mode_type(hx)
            &&& ext.modes[hx] is Some
            &&& if hx == m {
                row.costs[m] == ext.costs[m]
            } else {
                row.costs[m] == spec_whole_bits(ext.costs[hx]) + head[m]
            }
        },
        None => false,
    }
    &&& ext.modes[m] is Some ==> row.costs[m] <= ext.costs[m]
    &&& below(row, ext, head, m, 0)
    &&& below(row, ext, head, m, 1)
    &&& below(row, ext, head, m, 2)
    &&& below(row, ext, head, m, 3)
}

/// An entry of a row that no new segment has been tried for yet.
spec fn fresh(row: CostRow, ext: CostRow, m: int) -> bool {
    row.modes[m] == ext.modes[m] && row.costs[m] == ext.costs[m]
}

/// What holds of entry `m` of a row while new segments of mode `j` are tried
/// or about to be tried.
spec fn aside(row: CostRow, ext: CostRow, head: Seq<int>, n: int, j: int, m: int) -> bool {
    &&& m < j && m < n ==> done(row, ext, head, n, m)
    &&& m > j || m >= n ==> fresh(row, ext, m)
}

/// Once a new segment of mode `j` has been tried behind mode `s`, mode `j`
/// costs no more than that.
spec fn tried(row: CostRow, head: Seq<int>, j: int, k: int, s: int) -> bool {
    s < k && s != j && row.modes[s] is Some ==> row.modes[j] is Some && row.costs[j] <= spec_whole_bits(
        row.costs[s],
    ) + head[j]
}

/// What holds of entry `j` of a row while new segments of mode `j` are
/// tried behind the modes before `k`. The cost may for now come from a mode
/// whose own cost came from a new segment, as long as a mode that is still
/// to be tried gives less.
spec fn progress(row: CostRow, ext: CostRow, head: Seq<int>, n: int, j: int, k: int, pend: int) -> bool {
    &&& ext.modes[j] is Some ==> row.modes[j] is Some && row.costs[j] <= ext.costs[j]
    &&& match row.modes[j] {
        Some(x) => {
            let hx = spec_mode_index(x);
            &&& 0 <= hx < n
            &&& x == spec_mode_type(hx)
            &&& {
                ||| hx == j && ext.modes[j] is Some && row.costs[j] == ext.costs[j]
                ||| hx != j && ext.modes[hx] is Some && row.costs[j] == spec_whole_bits(ext.costs[hx])
                    + head[j]
                ||| k <= pend < n && pend != j && ext.modes[pend] is Some && spec_whole_bits(
                    row.costs[pend],
                ) + head[j] < row.costs[j]
            }
        },
        None => ext.modes[j] is None,
    }
    &&& tried(row, head, j, k, 0)
    &&& tried(row, head, j, k, 1)
    &&& tried(row, head, j, k, 2)
    &&& tried(row, head, j, k, 3)
}

/// What holds of a row while new segments of mode `j` are tried behind the modes before `k`.
spec fn switching(row: CostRow, ext: CostRow, head: Seq<int>, n: int, j: int, k: int, pend: int) -> bool {
    &&& row.costs.len() == 4
    &&& row.modes.len() == 4
    &&& 0 <= j < n
    &&& aside(row, ext, head, n, j, 0)
    &&& aside(row, ext, head, n, j, 1)
    &&& aside(row, ext, head, n, j, 2)
    &&& aside(row, ext, head, n, j, 3)
    &&& progress(row, ext, head, n, j, k, pend)
}

/// What holds of a row between the tries for mode `j - 1` and those for mode `j`.
spec fn between(row: CostRow, ext: CostRow, head: Seq<int>, n: int, j: int) -> bool {
    &&& row.costs.len() == 4
    &&& row.modes.len() == 4
    &&& aside(row, ext, head, n, j - 1, 0) && (0 == j - 1 && 0 < n ==> done(row, ext, head, n, 0))
    &&& aside(row, ext, head, n, j - 1, 1) && (1 == j - 1 && 1 < n ==> done(row, ext, head, n, 1))
    &&& aside(row, ext, head, n, j - 1, 2) && (2 == j - 1 && 2 < n ==> done(row, ext, head, n, 2))
    &&& aside(row, ext, head, n, j - 1, 3) && (3 == j - 1 && 3 < n ==> done(row, ext, head, n, 3))
}

/// An entry for another mode than the one whose new segments are tried
/// has a cost if its mode can hold the code point, and the cost is no more
/// than that of its segment going on.
proof fn lemma_entry_cost(row: CostRow, ext: CostRow, head: Seq<int>, n: int, j: int, m: int)
    requires
        0 <= m < 4,
        m != j,
        aside(row, ext, head, n, j, m),
        ext.modes[m] is Some,
        extension(ext, n),
    ensures
        row.modes[m] is Some,
        row.costs[m] <= ext.costs[m],
{
}

/// A try that is not taken keeps what holds of the row.
#[verifier::spinoff_prover]
#[verifier::rlimit(40)]
proof fn lemma_step_left(row: CostRow, ext: CostRow, head: Seq<int>, n: int, j: int, k: int, pend: int)
    requires
        switching(row, ext, head, n, j, k, pend),
        extension(ext, n),
        spec_heads_ok(head),
        0 <= k < n,
        !(row.modes[k] is Some && (row.modes[j] is None || spec_whole_bits(row.costs[k]) + head[j]
            < row.costs[j])),
    ensures
        spec_switch(row, head, j, k) == row,
        switching(row, ext, head, n, j, k + 1, pend),
{
    if k != j && ext.modes[k] is Some {
        lemma_entry_cost(row, ext, head, n, j, k);
    }
}

/// A try that is taken keeps what holds of the row. Gives the cheaper mode
/// that is still to be tried, where there is one.
#[verifier::spinoff_prover]
#[verifier::rlimit(40)]
proof fn lemma_step_taken(row: CostRow, ext: CostRow, head: Seq<int>, n: int, j: int, k: int, pend: int) -> (next:
    int)
    requires
        switching(row, ext, head, n, j, k, pend),
        extension(ext, n),
        spec_heads_ok(head),
        0 <= k < n,
        row.modes[k] is Some,
        row.modes[j] is None || spec_whole_bits(row.costs[k]) + head[j] < row.costs[j],
    ensures
        switching(spec_switch(row, head, j, k), ext, head, n, j, k + 1, next),
{
    let mut next = pend;
    if k <= j {
        let hk = spec_mode_index(row.modes[k]->Some_0);
        if hk != k {
            lemma_entry_cost(row, ext, head, n, j, hk);
            next = hk;
        }
    }
    next
}

/// The tries for mode `j` behind the first `k` modes keep what holds of the row.
#[verifier::spinoff_prover]
#[verifier::rlimit(40)]
proof fn lemma_switched_from(row: CostRow, ext: CostRow, head: Seq<int>, n: int, j: int, k: int) -> (pend: int)
    requires
        switching(row, ext, head, n, j, 0, 0),
        extension(ext, n),
        spec_heads_ok(head),
        0 <= k <= n,
    ensures
        switching(spec_switched_from(row, head, j, k), ext, head, n, j, k, pend),
    decreases k,
{
    if k <= 0 {
        0
    } else {
        let before = lemma_switched_from(row, ext, head, n, j, k - 1);
        let mid = spec_switched_from(row, head, j, k - 1);
        if mid.modes[k - 1] is Some && (mid.modes[j] is None || spec_whole_bits(mid.costs[k - 1]) + head[j]
            < mid.costs[j]) {
            lemma_step_taken(mid, ext, head, n, j, k - 1, before)
        } else {
            lemma_step_left(mid, ext, head, n, j, k - 1, before);
            before
        }
    }
}

/// The tries for the first `j` modes keep what holds of the row.
#[verifier::spinoff_prover]
#[verifier::rlimit(40)]
proof fn lemma_switched(ext: CostRow, head: Seq<int>, n: int, j: int)
    requires
        extension(ext, n),
        spec_heads_ok(head),
        0 <= j <= n,
    ensures
        between(spec_switched(ext, head, n, j), ext, head, n, j),
    decreases j,
{
    if j > 0 {
        lemma_switched(ext, head, n, j - 1);
        let row = spec_switched(ext, head, n, j - 1);
        assert(extension_at(ext, n, 0) && extension_at(ext, n, 1) && extension_at(ext, n, 2)
            && extension_at(ext, n, 3));
        lemma_switched_from(row, ext, head, n, j - 1, n);
        let after = spec_switched_from(row, head, j - 1, n);
        if 0 != j - 1 {
            lemma_entry_cost(after, ext, head, n, j - 1, 0);
        }
        if 1 != j - 1 && ext.modes[1] is Some {
            lemma_entry_cost(after, ext, head, n, j - 1, 1);
        }
        if 2 != j - 1 && ext.modes[2] is Some {
            lemma_entry_cost(after, ext, head, n, j - 1, 2);
        }
        if 3 != j - 1 && ext.modes[3] is Some {
            lemma_entry_cost(after, ext, head, n, j - 1, 3);
        }
    } else {
        assert(extension_at(ext, n, 0) && extension_at(ext, n, 1) && extension_at(ext, n, 2)
            && extension_at(ext, n, 3));
    }
}

/// Whether every entry of the costs is a cost: there are four, none below zero.
pub open spec fn spec_costs_ok(costs: Seq<int>) -> bool {
    &&& costs.len() == 4
    &&& costs[0] >= 0
    &&& costs[1] >= 0
    &&& costs[2] >= 0
    &&& costs[3] >= 0
}

/// What holds of the row of a code point: each mode of the split has a cost
/// and a mode that can hold the code point, and the cost is the least of
/// the segment going on and of a new segment behind each mode that can hold
/// the code point.
#[verifier::opaque]
spec fn row_done(row: CostRow, ext: CostRow, head: Seq<int>, n: int) -> bool {
    &&& row.costs.len() == 4
    &&& row.modes.len() == 4
    &&& spec_costs_ok(row.costs)
    &&& extension(ext, n)
    &&& done(row, ext, head, n, 0)
    &&& done(row, ext, head, n, 1)
    &&& done(row, ext, head, n, 2)
    &&& n == 4 ==> done(row, ext, head, n, 3)
}

/// The row of a code point is as it should be.
#[verifier::spinoff_prover]
#[verifier::rlimit(40)]
proof fn lemma_next_row(prev: Seq<int>, head: Seq<int>, c: char, encoder: &QrSegmentAdvanced)
    requires
        spec_costs_ok(prev),
        spec_heads_ok(head),
    ensures
        row_done(
            spec_next_row(prev, head, c, encoder),
            spec_extended(prev, c, encoder),
            head,
            spec_num_modes(encoder),
        ),
{
    reveal(row_done);
    let n = spec_num_modes(encoder);
    let ext = spec_extended(prev, c, encoder);
    lemma_switched(ext, head, n, n);
}

/// What a finished row says of its entry `m` and of the mode `k`.
proof fn lemma_row_entry(row: CostRow, ext: CostRow, head: Seq<int>, n: int, m: int, k: int)
    requires
        row_done(row, ext, head, n),
        0 <= m < n,
        0 <= k < 4,
    ensures
        3 <= n <= 4,
        row.costs.len() == 4,
        row.modes.len() == 4,
        spec_costs_ok(row.costs),
        row.modes[m] is Some,
        0 <= spec_mode_index(row.modes[m]->Some_0) < n,
        row.modes[m]->Some_0 == spec_mode_type(spec_mode_index(row.modes[m]->Some_0)),
        ext.modes[spec_mode_index(row.modes[m]->Some_0)] is Some,
        row.costs[m] == (if spec_mode_index(row.modes[m]->Some_0) == m {
            ext.costs[m]
        } else {
            spec_whole_bits(ext.costs[spec_mode_index(row.modes[m]->Some_0)]) + head[m]
        }),
        ext.modes[m] is Some ==> row.costs[m] <= ext.costs[m],
        k != m && ext.modes[k] is Some ==> row.costs[m] <= spec_whole_bits(ext.costs[k]) + head[m],
{
    reveal(row_done);
    assert(done(row, ext, head, n, m));
}

/// The row in which each segment just goes on, entry by entry.
proof fn lemma_extended_entry(prev: Seq<int>, c: char, encoder: &QrSegmentAdvanced, m: int)
    requires
        0 <= m < 4,
    ensures
        (spec_extended(prev, c, encoder).modes[m] is Some) == (m < spec_num_modes(encoder)
            && spec_mode_encodes(spec_mode_type(m), c, encoder)),
        spec_extended(prev, c, encoder).modes[m] is Some ==> spec_extended(prev, c, encoder).costs[m]
            == prev[m] + spec_char_cost(m, c),
{
}

/// The costs before each code point are costs, and each row is as it should be.
proof fn lemma_costs_before(code_points: Seq<char>, head: Seq<int>, encoder: &QrSegmentAdvanced, i: int)
    requires
        spec_heads_ok(head),
        0 <= i <= code_points.len(),
    ensures
        spec_costs_ok(spec_costs_before(code_points, head, encoder, i)),
        i < code_points.len() ==> row_done(
            spec_row_at(code_points, head, encoder, i),
            spec_extended(spec_costs_before(code_points, head, encoder, i), code_points[i], encoder),
            head,
            spec_num_modes(encoder),
        ),
        i > 0 ==> spec_costs_before(code_points, head, encoder, i) == spec_row_at(
            code_points,
            head,
            encoder,
            i - 1,
        ).costs,
    decreases i,
{
    if i > 0 {
        lemma_costs_before(code_points, head, encoder, i - 1);
        let row = spec_row_at(code_points, head, encoder, i - 1);
        let ext = spec_extended(
            spec_costs_before(code_points, head, encoder, i - 1),
            code_points[i - 1],
            encoder,
        );
        lemma_row_entry(row, ext, head, spec_num_modes(encoder), 0, 0);
    }
    if i < code_points.len() {
        lemma_next_row(spec_costs_before(code_points, head, encoder, i), head, code_points[i], encoder);
    }
}

/// In the row of a code point every mode of the split has a cost, and the
/// mode that holds the code point then is one that can hold it.
pub proof fn lemma_row_modes_hold(prev: Seq<int>, head: Seq<int>, c: char, encoder: &QrSegmentAdvanced, m: int)
    requires
        spec_costs_ok(prev),
        spec_heads_ok(head),
        0 <= m < spec_num_modes(encoder),
    ensures
        spec_next_row(prev, head, c, encoder).modes.len() == 4,
        spec_next_row(prev, head, c, encoder).costs.len() == 4,
        match spec_next_row(prev, head, c, encoder).modes[m] {
            Some(x) => spec_mode_encodes(x, c, encoder) && spec_mode_index(x) < spec_num_modes(encoder),
            None => false,
        },
{
    let row = spec_next_row(prev, head, c, encoder);
    let ext = spec_extended(prev, c, encoder);
    lemma_next_row(prev, head, c, encoder);
    lemma_row_entry(row, ext, head, spec_num_modes(encoder), m, 0);
    lemma_extended_entry(prev, c, encoder, spec_mode_index(row.modes[m]->Some_0));
}

/// Whether the modes are a way to split the text: one mode of the split for
/// each code point, and one that can hold it.
pub open spec fn spec_modes_apply(code_points: Seq<char>, modes: Seq<QrSegmentMode>, encoder: &QrSegmentAdvanced) -> bool {
    &&& modes.len() == code_points.len()
    &&& forall|i: int|
        0 <= i < modes.len() ==> spec_mode_index(#[trigger] modes[i]) < spec_num_modes(encoder)
            && spec_mode_encodes(modes[i], code_points[i], encoder)
}

/// The cost, in sixths of a bit, of the text up to code point `i` when the
/// code points are held by the given modes: each new segment costs its
/// header, each code point its cost in its mode, and a segment that ends is
/// rounded up to whole bits. The segment of code point `i` is not rounded yet.
pub open spec fn spec_split_cost(code_points: Seq<char>, modes: Seq<QrSegmentMode>, head: Seq<int>, i: int) -> int
    decreases i,
{
    let j = spec_mode_index(modes[i]);
    if i <= 0 {
        head[j] + spec_char_cost(j, code_points[0])
    } else if modes[i] == modes[i - 1] {
        spec_split_cost(code_points, modes, head, i - 1) + spec_char_cost(j, code_points[i])
    } else {
        spec_whole_bits(spec_split_cost(code_points, modes, head, i - 1)) + head[j] + spec_char_cost(
            j,
            code_points[i],
        )
    }
}

/// The cost of the whole text, in sixths of a bit, when the code points are
/// held by the given modes: a whole number of bits.
pub open spec fn spec_split_total(code_points: Seq<char>, modes: Seq<QrSegmentMode>, head: Seq<int>) -> int {
    if code_points.len() == 0 {
        0
    } else {
        spec_whole_bits(spec_split_cost(code_points, modes, head, code_points.len() - 1))
    }
}

/// The cost of the text up to code point `i` when the text goes on in mode
/// `j` after it: the cost so far if that is the mode of code point `i`, and
/// else with the segment ended and the header of a new one.
spec fn cost_into(code_points: Seq<char>, modes: Seq<QrSegmentMode>, head: Seq<int>, i: int, j: int) -> int {
    if spec_mode_index(modes[i]) == j {
        spec_split_cost(code_points, modes, head, i)
    } else {
        spec_whole_bits(spec_split_cost(code_points, modes, head, i)) + head[j]
    }
}

/// A mode of the split is the mode of its place.
proof fn lemma_mode_of_index(mode: QrSegmentMode)
    ensures
        0 <= spec_mode_index(mode) <= 4,
        spec_mode_index(mode) < 4 ==> spec_mode_type(spec_mode_index(mode)) == mode,
{
}

/// Rounding up to whole bits keeps the order of costs and adds nothing to whole bits.
proof fn lemma_whole_bits(a: int, b: int)
    requires
        a <= b,
    ensures
        spec_whole_bits(a) <= spec_whole_bits(b),
        a <= spec_whole_bits(a),
{
}

/// No way to hold the code points up to `i` costs less than the row of code point `i` says.
#[verifier::spinoff_prover]
#[verifier::rlimit(40)]
proof fn lemma_row_is_lower_bound(
    code_points: Seq<char>,
    head: Seq<int>,
    encoder: &QrSegmentAdvanced,
    modes: Seq<QrSegmentMode>,
    i: int,
    j: int,
)
    requires
        spec_heads_ok(head),
        spec_modes_apply(code_points, modes, encoder),
        0 <= i < code_points.len(),
        0 <= j < spec_num_modes(encoder),
    ensures
        spec_row_at(code_points, head, encoder, i).costs[j] <= cost_into(code_points, modes, head, i, j),
    decreases i,
{
    let n = spec_num_modes(encoder);
    let before = spec_costs_before(code_points, head, encoder, i);
    let ext = spec_extended(before, code_points[i], encoder);
    let row = spec_row_at(code_points, head, encoder, i);
    lemma_costs_before(code_points, head, encoder, i);
    let a = spec_mode_index(modes[i]);
    lemma_mode_of_index(modes[i]);
    lemma_extended_entry(before, code_points[i], encoder, a);
    let cost = spec_split_cost(code_points, modes, head, i);
    if i > 0 {
        lemma_row_is_lower_bound(code_points, head, encoder, modes, i - 1, a);
        lemma_mode_of_index(modes[i - 1]);
    }
    lemma_row_entry(row, ext, head, n, a, a);
    lemma_row_entry(row, ext, head, n, j, a);
    lemma_whole_bits(ext.costs[a], cost);
}

/// The place of the first of the least of the first costs holds a least cost.
proof fn lemma_cheapest(costs: Seq<int>, m: int, k: int)
    requires
        0 <= k < m <= costs.len(),
    ensures
        0 <= spec_cheapest(costs, m) < m,
        costs[spec_cheapest(costs, m)] <= costs[k],
    decreases m,
{
    if m > 1 {
        if k < m - 1 {
            lemma_cheapest(costs, m - 1, k);
        } else {
            lemma_cheapest(costs, m - 1, 0);
        }
    }
}

/// The mode in which the text goes on after code point `i` in the split
/// that is found, by its place: the mode of the next code point, and after
/// the last code point the mode of the least cost.
spec fn goes_on(code_points: Seq<char>, head: Seq<int>, encoder: &QrSegmentAdvanced, i: int) -> int {
    spec_mode_index(spec_mode_at(code_points, head, encoder, i + 1))
}

/// The mode in which the text goes on after a code point is a mode of the
/// split, and the mode of the code point is one that can hold it.
#[verifier::spinoff_prover]
#[verifier::rlimit(40)]
proof fn lemma_goes_on(code_points: Seq<char>, head: Seq<int>, encoder: &QrSegmentAdvanced, i: int)
    requires
        spec_heads_ok(head),
        0 <= i < code_points.len(),
    ensures
        0 <= goes_on(code_points, head, encoder, i) < spec_num_modes(encoder),
        spec_mode_at(code_points, head, encoder, i + 1) == spec_mode_type(goes_on(code_points, head, encoder, i)),
        0 <= spec_mode_index(spec_mode_at(code_points, head, encoder, i)) < spec_num_modes(encoder),
        spec_mode_encodes(spec_mode_at(code_points, head, encoder, i), code_points[i], encoder),
        spec_row_at(code_points, head, encoder, i).modes[goes_on(code_points, head, encoder, i)] == Some(
            spec_mode_at(code_points, head, encoder, i),
        ),
    decreases code_points.len() - i,
{
    let n = spec_num_modes(encoder);
    if i + 1 >= code_points.len() {
        let last = spec_costs_before(code_points, head, encoder, code_points.len() as int);
        lemma_costs_before(code_points, head, encoder, code_points.len() as int);
        lemma_cheapest(last, n, 0);
    } else {
        lemma_goes_on(code_points, head, encoder, i + 1);
    }
    let j = goes_on(code_points, head, encoder, i);
    lemma_mode_of_index(spec_mode_at(code_points, head, encoder, i + 1));
    let before = spec_costs_before(code_points, head, encoder, i);
    let row = spec_row_at(code_points, head, encoder, i);
    let ext = spec_extended(before, code_points[i], encoder);
    lemma_costs_before(code_points, head, encoder, i);
    lemma_row_entry(row, ext, head, n, j, 0);
    let mode = spec_mode_at(code_points, head, encoder, i);
    lemma_extended_entry(before, code_points[i], encoder, spec_mode_index(mode));
}

/// The split that is found holds the code points up to `i` at the cost that
/// the row of code point `i` says, or less.
#[verifier::spinoff_prover]
#[verifier::rlimit(40)]
proof fn lemma_split_reaches_row(code_points: Seq<char>, head: Seq<int>, encoder: &QrSegmentAdvanced, i: int)
    requires
        spec_heads_ok(head),
        0 <= i < code_points.len(),
    ensures
        cost_into(
            code_points,
            spec_character_modes(code_points, head, encoder),
            head,
            i,
            goes_on(code_points, head, encoder, i),
        ) <= spec_row_at(code_points, head, encoder, i).costs[goes_on(code_points, head, encoder, i)],
    decreases i,
{
    let n = spec_num_modes(encoder);
    let modes = spec_character_modes(code_points, head, encoder);
    lemma_goes_on(code_points, head, encoder, i);
    let j = goes_on(code_points, head, encoder, i);
    let before = spec_costs_before(code_points, head, encoder, i);
    let ext = spec_extended(before, code_points[i], encoder);
    let row = spec_row_at(code_points, head, encoder, i);
    lemma_costs_before(code_points, head, encoder, i);
    lemma_row_entry(row, ext, head, n, j, 0);
    let mode = spec_mode_at(code_points, head, encoder, i);
    let hx = spec_mode_index(mode);
    lemma_extended_entry(before, code_points[i], encoder, hx);
    let cost = spec_split_cost(code_points, modes, head, i);
    if i > 0 {
        lemma_split_reaches_row(code_points, head, encoder, i - 1);
        lemma_mode_of_index(modes[i]);
        lemma_mode_of_index(modes[i - 1]);
        lemma_goes_on(code_points, head, encoder, i - 1);
    }
    lemma_whole_bits(cost, ext.costs[hx]);
}

/// The split that is found is a way to split the text, and no way to split
/// the text costs less: not one can do with fewer bits.
#[verifier::spinoff_prover]
#[verifier::rlimit(40)]
pub proof fn lemma_split_is_cheapest(
    code_points: Seq<char>,
    ver: int,
    encoder: &QrSegmentAdvanced,
    other: Seq<QrSegmentMode>,
)
    requires
        spec_modes_apply(code_points, other, encoder),
    ensures
        spec_modes_apply(
            code_points,
            spec_character_modes(code_points, spec_head_costs(ver), encoder),
            encoder,
        ),
        spec_split_total(
            code_points,
            spec_character_modes(code_points, spec_head_costs(ver), encoder),
            spec_head_costs(ver),
        ) <= spec_split_total(code_points, other, spec_head_costs(ver)),
{
    let head = spec_head_costs(ver);
    let modes = spec_character_modes(code_points, head, encoder);
    let n = spec_num_modes(encoder);
    let len = code_points.len() as int;
    assert forall|i: int| 0 <= i < modes.len() implies spec_mode_index(#[trigger] modes[i]) < n
        && spec_mode_encodes(modes[i], code_points[i], encoder) by {
        lemma_goes_on(code_points, head, encoder, i);
    }
    if len > 0 {
        let last = len - 1;
        lemma_goes_on(code_points, head, encoder, last);
        let best = goes_on(code_points, head, encoder, last);
        let costs = spec_costs_before(code_points, head, encoder, len);
        lemma_costs_before(code_points, head, encoder, len);
        let a = spec_mode_index(other[last]);
        lemma_cheapest(costs, n, a);
        assert(best == spec_cheapest(costs, n)) by {
            lemma_cheapest(costs, n, 0);
        }
        lemma_split_reaches_row(code_points, head, encoder, last);
        lemma_row_is_lower_bound(code_points, head, encoder, other, last, a);
        let mine = spec_split_cost(code_points, modes, head, last);
        let theirs = spec_split_cost(code_points, other, head, last);
        lemma_whole_bits(mine, mine);
        lemma_whole_bits(mine, theirs);
    }
}

/// The cost of a run of code points in the mode with the given place, in
/// sixths of a bit, header left out.
pub open spec fn spec_run_cost(run: Seq<char>, j: int) -> int
    decreases run.len(),
{
    if run.len() == 0 {
        0
    } else {
        spec_run_cost(run.drop_last(), j) + spec_char_cost(j, run.last())
    }
}

/// The number of data bits of a numeric segment.
pub proof fn lemma_numeric_bits_len(text: Seq<char>)
    ensures
        spec_numeric_bits(text).len() == (10 * text.len() + 2) / 3,
    decreases text.len(),
{
    if text.len() > 0 {
        let n: int = if text.len() >= 3 {
            3
        } else {
            text.len() as int
        };
        lemma_numeric_bits_len(text.skip(n));
    }
}

/// The number of data bits of an alphanumeric segment.
pub proof fn lemma_alphanumeric_bits_len(text: Seq<char>)
    ensures
        spec_alphanumeric_bits(text).len() == (11 * text.len() + 1) / 2,
    decreases text.len(),
{
    if text.len() > 0 {
        let n: int = if text.len() >= 2 {
            2
        } else {
            1
        };
        lemma_alphanumeric_bits_len(text.skip(n));
    }
}

/// The number of data bits of a kanji segment.
pub proof fn lemma_kanji_bits_len(text: Seq<char>, encoder: &QrSegmentAdvanced)
    ensures
        spec_kanji_bits(text, encoder).len() == 13 * text.len(),
    decreases text.len(),
{
    if text.len() > 0 {
        lemma_kanji_bits_len(text.drop_last(), encoder);
    }
}

/// The cost of a run in numeric, alphanumeric or kanji mode, and in byte mode by its bytes.
proof fn lemma_run_cost(run: Seq<char>, j: int)
    ensures
        j == 0 ==> spec_run_cost(run, j) == 48 * encode_utf8(run).len(),
        j == 1 ==> spec_run_cost(run, j) == 33 * run.len(),
        j == 2 ==> spec_run_cost(run, j) == 20 * run.len(),
        j == 3 ==> spec_run_cost(run, j) == 78 * run.len(),
    decreases run.len(),
{
    if run.len() > 0 {
        lemma_run_cost(run.drop_last(), j);
        lemma_encode_utf8_append(run.drop_last(), run.last());
        assert(run.drop_last().push(run.last()) =~= run);
    }
}

/// The bits of the segment of a run, with its header, are its cost in whole bits.
proof fn lemma_run_segment_bits(run: Seq<char>, mode: QrSegmentMode, ver: int, encoder: &QrSegmentAdvanced)
    requires
        0 <= spec_mode_index(mode) < 4,
    ensures
        spec_segment_bits(spec_run_segment(run, mode, encoder), ver).len() * 6 == spec_head_costs(
            ver,
        )[spec_mode_index(mode)] + spec_whole_bits(spec_run_cost(run, spec_mode_index(mode))),
{
    let j = spec_mode_index(mode);
    lemma_run_cost(run, j);
    lemma_numeric_bits_len(run);
    lemma_alphanumeric_bits_len(run);
    lemma_kanji_bits_len(run, encoder);
    lemma_mode_of_index(mode);
}

/// The bits of two lists of segments, one after the other, are as many as both have.
proof fn lemma_segments_bits_concat(a: Seq<SegmentModel>, b: Seq<SegmentModel>, ver: int)
    ensures
        spec_segments_bits(a + b, ver).len() == spec_segments_bits(a, ver).len() + spec_segments_bits(
            b,
            ver,
        ).len(),
    decreases b.len(),
{
    if b.len() > 0 {
        lemma_segments_bits_concat(a, b.drop_last(), ver);
        assert((a + b).drop_last() =~= a + b.drop_last());
    }
}

/// The first run of a list of modes: it is not empty, its modes are all
/// the first mode, and it ends where the list ends or another mode follows.
proof fn lemma_first_run(modes: Seq<QrSegmentMode>)
    requires
        modes.len() > 0,
    ensures
        0 < spec_run_len(modes) <= modes.len(),
        forall|i: int| 0 <= i < spec_run_len(modes) ==> #[trigger] modes[i] == modes[0],
        spec_run_len(modes) == modes.len() || modes[spec_run_len(modes)] != modes[0],
    decreases modes.len(),
{
    if modes.len() > 1 && modes[1] == modes[0] {
        let rest = modes.drop_first();
        lemma_first_run(rest);
        assert forall|i: int| 0 <= i < spec_run_len(modes) implies #[trigger] modes[i] == modes[0] by {
            if i > 0 {
                assert(rest[i - 1] == modes[i]);
            }
        }
    }
}

/// Within the first run, the cost is the header and the cost of the run so far.
proof fn lemma_cost_in_first_run(code_points: Seq<char>, modes: Seq<QrSegmentMode>, head: Seq<int>, i: int)
    requires
        modes.len() == code_points.len(),
        0 <= i < modes.len(),
        forall|k: int| 0 <= k <= i ==> #[trigger] modes[k] == modes[0],
    ensures
        spec_split_cost(code_points, modes, head, i) == head[spec_mode_index(modes[0])] + spec_run_cost(
            code_points.take(i + 1),
            spec_mode_index(modes[0]),
        ),
    decreases i,
{
    let run = code_points.take(i + 1);
    assert(run.drop_last() =~= code_points.take(i));
    if i > 0 {
        lemma_cost_in_first_run(code_points, modes, head, i - 1);
    } else {
        assert(spec_run_cost(run.drop_last(), spec_mode_index(modes[0])) == 0);
    }
}

/// Behind the first run, the cost is that of the first run in whole bits
/// and the cost of the rest of the text by itself.
#[verifier::spinoff_prover]
#[verifier::rlimit(40)]
proof fn lemma_cost_behind_first_run(
    code_points: Seq<char>,
    modes: Seq<QrSegmentMode>,
    head: Seq<int>,
    run: int,
    i: int,
)
    requires
        spec_heads_ok(head),
        modes.len() == code_points.len(),
        0 < run <= i < modes.len(),
        modes[run] != modes[run - 1],
        forall|k: int| 0 <= k < modes.len() ==> 0 <= spec_mode_index(#[trigger] modes[k]) < 4,
    ensures
        spec_split_cost(code_points, modes, head, i) == spec_whole_bits(
            spec_split_cost(code_points, modes, head, run - 1),
        ) + spec_split_cost(code_points.skip(run), modes.skip(run), head, i - run),
    decreases i,
{
    let rest_modes = modes.skip(run);
    if i > run {
        lemma_cost_behind_first_run(code_points, modes, head, run, i - 1);
        assert(rest_modes[i - run - 1] == modes[i - 1]);
    }
}

/// The segments of a way to split a text take as many bits as its cost says.
#[verifier::spinoff_prover]
#[verifier::rlimit(40)]
pub proof fn lemma_split_total_is_bits(
    code_points: Seq<char>,
    modes: Seq<QrSegmentMode>,
    ver: int,
    encoder: &QrSegmentAdvanced,
)
    requires
        modes.len() == code_points.len(),
        forall|k: int| 0 <= k < modes.len() ==> 0 <= spec_mode_index(#[trigger] modes[k]) < 4,
    ensures
        spec_segments_bits(spec_split_segments(code_points, modes, encoder), ver).len() * 6
            == spec_split_total(code_points, modes, spec_head_costs(ver)),
    decreases modes.len(),
{
    let head = spec_head_costs(ver);
    if modes.len() > 0 {
        lemma_first_run(modes);
        let run = spec_run_len(modes);
        let len = modes.len() as int;
        let first = spec_run_segment(code_points.take(run), modes[0], encoder);
        let rest_points = code_points.skip(run);
        let rest_modes = modes.skip(run);
        let rest = spec_split_segments(rest_points, rest_modes, encoder);
        assert forall|k: int| 0 <= k < rest_modes.len() implies 0 <= spec_mode_index(
            #[trigger] rest_modes[k],
        ) < 4 by {
        }
        lemma_split_total_is_bits(rest_points, rest_modes, ver, encoder);
        lemma_segments_bits_concat(seq![first], rest, ver);
        assert(spec_segments_bits(seq![first], ver) =~= spec_segments_bits(seq![first].drop_last(), ver)
            + spec_segment_bits(first, ver));
        lemma_run_segment_bits(code_points.take(run), modes[0], ver, encoder);
        lemma_cost_in_first_run(code_points, modes, head, run - 1);
        let in_run = spec_split_cost(code_points, modes, head, run - 1);
        if run < len {
            lemma_cost_behind_first_run(code_points, modes, head, run, len - 1);
            let behind = spec_split_cost(rest_points, rest_modes, head, len - 1 - run);
            assert(spec_whole_bits(spec_whole_bits(in_run) + behind) == spec_whole_bits(in_run)
                + spec_whole_bits(behind));
        }
    }
}

/// The split that is found takes the fewest bits: no other way to split
/// the text into segments of the modes of the split, each code point in a
/// mode that can hold it, gives segments of fewer bits at this version.
pub proof fn lemma_split_takes_fewest_bits(
    code_points: Seq<char>,
    ver: int,
    encoder: &QrSegmentAdvanced,
    other: Seq<QrSegmentMode>,
)
    requires
        spec_modes_apply(code_points, other, encoder),
    ensures
        spec_segments_bits(crate::qr_segment_advanced::spec_optimal_segments(code_points, ver, encoder), ver).len()
            <= spec_segments_bits(spec_split_segments(code_points, other, encoder), ver).len(),
{
    let head = spec_head_costs(ver);
    let modes = spec_character_modes(code_points, head, encoder);
    lemma_split_is_cheapest(code_points, ver, encoder, other);
    assert forall|k: int| 0 <= k < modes.len() implies 0 <= spec_mode_index(#[trigger] modes[k]) < 4 by {
        lemma_mode_of_index(modes[k]);
    }
    assert forall|k: int| 0 <= k < other.len() implies 0 <= spec_mode_index(#[trigger] other[k]) < 4 by {
        lemma_mode_of_index(other[k]);
    }
    lemma_split_total_is_bits(code_points, modes, ver, encoder);
    lemma_split_total_is_bits(code_points, other, ver, encoder);
}

} // verus!
