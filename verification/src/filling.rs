//! The modules that take codeword bits are as many as the version has room for.

use vstd::prelude::*;
use crate::alignment::{
    lemma_alignment_gap, lemma_alignment_near, lemma_alignment_range, lemma_alignment_step,
    spec_alignment_near, spec_alignment_near_among, spec_alignment_position,
};
use crate::pattern::{spec_in_grid, spec_is_function_module};
use crate::symbol::{
    spec_codeword_bit_index, spec_free, spec_free_before_pair, spec_free_in_rows, spec_pair_before,
    spec_pair_right, spec_scan_row, spec_upward,
};
use crate::tables::{spec_num_align, spec_num_raw_data_modules};
use crate::version::spec_size;

verus! {

/// 1 if the module is a function module, 0 if it takes a codeword bit.
pub open spec fn spec_taken(ver: int, x: int, y: int) -> int {
    if spec_is_function_module(ver, x, y) {
        1
    } else {
        0
    }
}

/// The number of function modules among the first `rows` modules of column `x`.
pub open spec fn spec_column_taken(ver: int, x: int, rows: int) -> int
    decreases rows,
{
    if rows <= 0 {
        0
    } else {
        spec_column_taken(ver, x, rows - 1) + spec_taken(ver, x, rows - 1)
    }
}

/// The free modules that the scan of a pair of columns visits in its first
/// rows, by the function modules of the two columns.
proof fn lemma_free_in_rows(ver: int, right: int, rows: int)
    requires
        0 <= rows <= spec_size(ver),
    ensures
        spec_free_in_rows(ver, right, rows) == 2 * rows - (if spec_upward(right) {
            spec_column_taken(ver, right, spec_size(ver)) - spec_column_taken(ver, right, spec_size(ver) - rows)
                + spec_column_taken(ver, right - 1, spec_size(ver)) - spec_column_taken(
                ver,
                right - 1,
                spec_size(ver) - rows,
            )
        } else {
            spec_column_taken(ver, right, rows) + spec_column_taken(ver, right - 1, rows)
        }),
    decreases rows,
{
    if rows > 0 {
        lemma_free_in_rows(ver, right, rows - 1);
        let y = spec_scan_row(ver, right, rows - 1);
        if spec_upward(right) {
            assert(spec_column_taken(ver, right, y + 1) == spec_column_taken(ver, right, y) + spec_taken(
                ver,
                right,
                y,
            ));
            assert(spec_column_taken(ver, right - 1, y + 1) == spec_column_taken(ver, right - 1, y)
                + spec_taken(ver, right - 1, y));
        }
    }
}

/// The number of function modules in the columns right of column `x`.
pub open spec fn spec_taken_right_of(ver: int, x: int) -> int
    decreases spec_size(ver) - x,
{
    if x >= spec_size(ver) - 1 {
        0
    } else {
        spec_taken_right_of(ver, x + 1) + spec_column_taken(ver, x + 1, spec_size(ver))
    }
}

/// Every module of column 6 is a function module: it holds a timing pattern.
proof fn lemma_column_6(ver: int, rows: int)
    requires
        1 <= ver <= 40,
        0 <= rows <= spec_size(ver),
    ensures
        spec_column_taken(ver, 6, rows) == rows,
    decreases rows,
{
    if rows > 0 {
        lemma_column_6(ver, rows - 1);
    }
}

/// The free modules in the pairs of columns that the scan visits before a
/// pair, by the function modules of their columns.
#[verifier::spinoff_prover]
#[verifier::rlimit(40)]
proof fn lemma_free_before_pair(ver: int, right: int)
    requires
        1 <= ver <= 40,
        -1 <= right <= spec_size(ver) - 1,
        right != 6,
        right >= 6 ==> right % 2 == 0,
        right < 6 ==> right % 2 != 0,
    ensures
        spec_free_before_pair(ver, right) == (if right > 6 {
            spec_size(ver) * (spec_size(ver) - 1 - right) - spec_taken_right_of(ver, right)
        } else {
            spec_size(ver) * (spec_size(ver) - 1 - right) - spec_taken_right_of(ver, right)
        }),
    decreases spec_size(ver) - right,
{
    let size = spec_size(ver);
    if right < size - 1 {
        let before = spec_pair_before(right);
        lemma_free_before_pair(ver, before);
        lemma_free_in_rows(ver, before, size);
        assert(spec_free_in_rows(ver, before, size) == 2 * size - spec_column_taken(ver, before, size)
            - spec_column_taken(ver, before - 1, size));
        if right == 5 {
            lemma_column_6(ver, size);
            assert(spec_taken_right_of(ver, 6) == spec_taken_right_of(ver, 7) + spec_column_taken(ver, 7, size));
            assert(size * (size - 1 - 5) == size * (size - 1 - 8) + 3 * size) by (nonlinear_arith);
        } else {
            assert(spec_taken_right_of(ver, right) == spec_taken_right_of(ver, right + 1) + spec_column_taken(
                ver,
                right + 1,
                size,
            ));
            assert(spec_taken_right_of(ver, right + 1) == spec_taken_right_of(ver, right + 2)
                + spec_column_taken(ver, right + 2, size));
            assert(size * (size - 1 - right) == size * (size - 1 - (right + 2)) + 2 * size)
                by (nonlinear_arith);
        }
    } else {
        assert(size * (size - 1 - right) == 0) by (nonlinear_arith)
            requires
                right == size - 1,
        ;
    }
}

/// `v` kept between 0 and `most`.
pub open spec fn spec_clamp(v: int, most: int) -> int {
    if v < 0 {
        0
    } else if v > most {
        most
    } else {
        v
    }
}

/// The number of coordinates below `upto` that lie within two modules of an
/// alignment position with an index from `lo` to `hi`.
pub open spec fn spec_near_count(ver: int, upto: int, lo: int, hi: int) -> int
    decreases upto,
{
    if upto <= 0 {
        0
    } else {
        spec_near_count(ver, upto - 1, lo, hi) + (if lo <= spec_alignment_near(ver, upto - 1) <= hi {
            1int
        } else {
            0
        })
    }
}

/// The same number, position by position: each position has five
/// coordinates within two modules of it.
spec fn near_closed(ver: int, upto: int, lo: int, hi: int) -> int
    decreases hi - lo + 1,
{
    if hi < lo {
        0
    } else {
        near_closed(ver, upto, lo, hi - 1) + spec_clamp(upto - (spec_alignment_position(ver, hi) - 2), 5)
    }
}

/// One more coordinate adds one to the count if it lies near one of the positions.
proof fn lemma_near_closed_step(ver: int, upto: int, lo: int, hi: int)
    requires
        2 <= ver <= 40,
        0 <= lo,
        hi < spec_num_align(ver),
        0 <= upto,
    ensures
        near_closed(ver, upto + 1, lo, hi) == near_closed(ver, upto, lo, hi) + (if lo
            <= spec_alignment_near(ver, upto) <= hi {
            1int
        } else {
            0
        }),
        near_closed(ver, 0, lo, hi) == 0,
        -1 <= spec_alignment_near(ver, upto) < spec_num_align(ver),
    decreases hi - lo + 1,
{
    lemma_near_range(ver, upto);
    if hi >= lo {
        lemma_near_closed_step(ver, upto, lo, hi - 1);
        lemma_alignment_near(ver, upto, hi);
        lemma_alignment_range(ver, hi);
    }
}

/// The index that the search for a near position gives is -1 or the index of a position.
proof fn lemma_near_range(ver: int, c: int)
    ensures
        -1 <= spec_alignment_near(ver, c) < (if spec_num_align(ver) > 0 {
            spec_num_align(ver)
        } else {
            0
        }),
{
    lemma_near_among_range(ver, c, spec_num_align(ver));
}

proof fn lemma_near_among_range(ver: int, c: int, n: int)
    ensures
        -1 <= spec_alignment_near_among(ver, c, n) < (if n > 0 {
            n
        } else {
            0
        }),
    decreases n,
{
    if n > 0 {
        lemma_near_among_range(ver, c, n - 1);
    }
}

/// The count of the coordinates near positions is the count position by position.
proof fn lemma_near_count(ver: int, upto: int, lo: int, hi: int)
    requires
        2 <= ver <= 40,
        0 <= lo,
        hi < spec_num_align(ver),
        0 <= upto,
    ensures
        spec_near_count(ver, upto, lo, hi) == near_closed(ver, upto, lo, hi),
    decreases upto,
{
    if upto > 0 {
        lemma_near_count(ver, upto - 1, lo, hi);
        lemma_near_closed_step(ver, upto - 1, lo, hi);
    } else {
        lemma_near_closed_step(ver, 0, lo, hi);
    }
}

/// Along a whole side of the symbol, five coordinates lie near each position.
proof fn lemma_near_count_whole(ver: int, lo: int, hi: int)
    requires
        2 <= ver <= 40,
        0 <= lo <= hi + 1,
        hi < spec_num_align(ver),
    ensures
        spec_near_count(ver, spec_size(ver), lo, hi) == 5 * (hi - lo + 1),
{
    lemma_near_count(ver, spec_size(ver), lo, hi);
    lemma_near_closed_whole(ver, lo, hi);
}

proof fn lemma_near_closed_whole(ver: int, lo: int, hi: int)
    requires
        2 <= ver <= 40,
        0 <= lo <= hi + 1,
        hi < spec_num_align(ver),
    ensures
        near_closed(ver, spec_size(ver), lo, hi) == 5 * (hi - lo + 1),
    decreases hi - lo + 1,
{
    if hi >= lo {
        lemma_near_closed_whole(ver, lo, hi - 1);
        lemma_alignment_range(ver, hi);
    }
}

/// Where a coordinate lies when it is near an alignment position: near the
/// first position from 4 to 8, near the last one from `size - 9` to
/// `size - 5`, and near another one from 16 to `size - 17`.
proof fn lemma_coordinate(ver: int, c: int)
    requires
        1 <= ver <= 40,
    ensures
        -1 <= spec_alignment_near(ver, c) < (if ver >= 2 {
            spec_num_align(ver)
        } else {
            0
        }),
        ver >= 2 ==> (spec_alignment_near(ver, c) == 0 <==> 4 <= c <= 8),
        ver >= 2 ==> (spec_alignment_near(ver, c) == spec_num_align(ver) - 1 <==> spec_size(ver) - 9 <= c
            <= spec_size(ver) - 5),
        1 <= spec_alignment_near(ver, c) <= spec_num_align(ver) - 2 ==> 16 <= c <= spec_size(ver) - 17,
        ver >= 2 ==> 2 <= spec_num_align(ver) <= 7,
        ver == 1 ==> spec_num_align(ver) == 0,
{
    lemma_near_range(ver, c);
    if ver >= 2 {
        lemma_alignment_step(ver);
        let n = spec_num_align(ver);
        let k = spec_alignment_near(ver, c);
        lemma_alignment_near(ver, c, 0);
        lemma_alignment_near(ver, c, n - 1);
        assert((n - 1 - (n - 1)) * crate::alignment::spec_alignment_step(ver) == 0) by (nonlinear_arith);
        if 1 <= k <= n - 2 {
            lemma_alignment_near(ver, c, k);
            lemma_alignment_gap(ver, 0, k);
            lemma_alignment_gap(ver, k, n - 1);
        }
    }
}

/// The first of the indices of the alignment positions whose patterns stand in column `x`.
pub open spec fn spec_rows_lo(ver: int, x: int) -> int {
    let i = spec_alignment_near(ver, x);
    if 1 <= i <= spec_num_align(ver) - 2 {
        0
    } else {
        1
    }
}

/// The last of the indices of the alignment positions whose patterns stand
/// in column `x`; below the first where there is none. Column 6 counts as
/// a column of the timing pattern.
pub open spec fn spec_rows_hi(ver: int, x: int) -> int {
    let i = spec_alignment_near(ver, x);
    let n = spec_num_align(ver);
    if i < 0 || x == 6 {
        0
    } else if i == 0 {
        n - 2
    } else {
        n - 1
    }
}

/// The number of function modules among the first `rows` modules of column
/// `x` that belong to no alignment pattern, or to a timing pattern too.
pub open spec fn spec_fixed_prefix(ver: int, x: int, rows: int) -> int {
    let size = spec_size(ver);
    let i = spec_alignment_near(ver, x);
    if x == 6 {
        rows
    } else if x <= 8 {
        spec_clamp(rows, 9) + spec_clamp(rows - (size - 8), 8) + (if x <= 5 && ver >= 7 {
            spec_clamp(rows - (size - 11), 3)
        } else {
            0
        })
    } else if x >= size - 8 {
        spec_clamp(rows, 9)
    } else if 1 <= i <= spec_num_align(ver) - 2 {
        0
    } else if size - 11 <= x && ver >= 7 {
        spec_clamp(rows, 6) + spec_clamp(rows - 6, 1)
    } else {
        spec_clamp(rows - 6, 1)
    }
}

/// The function modules of a column are those of the fixed patterns and
/// those of the alignment patterns that stand in it.
#[verifier::spinoff_prover]
#[verifier::rlimit(40)]
proof fn lemma_column_prefix(ver: int, x: int, rows: int)
    requires
        1 <= ver <= 40,
        0 <= x < spec_size(ver),
        0 <= rows <= spec_size(ver),
    ensures
        spec_column_taken(ver, x, rows) == spec_fixed_prefix(ver, x, rows) + spec_near_count(
            ver,
            rows,
            spec_rows_lo(ver, x),
            spec_rows_hi(ver, x),
        ),
    decreases rows,
{
    if rows > 0 {
        lemma_column_prefix(ver, x, rows - 1);
        let y = rows - 1;
        lemma_coordinate(ver, x);
        lemma_coordinate(ver, y);
    }
}

/// No coordinate lies near a position with an index from `lo` up where
/// there is no such position.
proof fn lemma_near_count_none(ver: int, upto: int, lo: int, hi: int)
    requires
        1 <= ver <= 40,
        hi < lo || (ver == 1 && 0 <= lo),
    ensures
        spec_near_count(ver, upto, lo, hi) == 0,
    decreases upto,
{
    if upto > 0 {
        lemma_near_count_none(ver, upto - 1, lo, hi);
        lemma_near_range(ver, upto - 1);
    }
}

/// What the alignment patterns add to the function modules of a column
/// right of the top left finder pattern: the patterns of a column take five
/// modules each, one of them from the timing pattern in the columns of the
/// positions between the first and the last.
pub open spec fn spec_column_extra(ver: int, x: int) -> int {
    let i = spec_alignment_near(ver, x);
    let n = spec_num_align(ver);
    if ver >= 2 && 1 <= i <= n - 2 {
        5 * n - 1
    } else if ver >= 2 && 1 <= i && i == n - 1 {
        5 * (n - 1)
    } else {
        0
    }
}

/// The number of function modules of column `x`.
pub open spec fn spec_column_total(ver: int, x: int) -> int {
    let size = spec_size(ver);
    let n = spec_num_align(ver);
    if x == 6 {
        size
    } else if x <= 8 {
        17 + (if x <= 5 && ver >= 7 {
            3int
        } else {
            0
        }) + (if ver >= 2 && 4 <= x {
            5 * (n - 2)
        } else {
            0
        })
    } else {
        1 + (if x >= size - 8 {
            8int
        } else {
            0
        }) + (if ver >= 7 && size - 11 <= x <= size - 9 {
            6int
        } else {
            0
        }) + spec_column_extra(ver, x)
    }
}

/// The function modules of a whole column.
#[verifier::spinoff_prover]
#[verifier::rlimit(40)]
proof fn lemma_column_total(ver: int, x: int)
    requires
        1 <= ver <= 40,
        0 <= x < spec_size(ver),
    ensures
        spec_column_taken(ver, x, spec_size(ver)) == spec_column_total(ver, x),
{
    let size = spec_size(ver);
    lemma_column_prefix(ver, x, size);
    lemma_coordinate(ver, x);
    let lo = spec_rows_lo(ver, x);
    let hi = spec_rows_hi(ver, x);
    if ver >= 2 && lo <= hi {
        lemma_near_count_whole(ver, lo, hi);
    } else {
        lemma_near_count_none(ver, size, lo, hi);
    }
}

/// The number of function modules in the columns left of column `upto`.
pub open spec fn spec_taken_prefix(ver: int, upto: int) -> int
    decreases upto,
{
    if upto <= 0 {
        0
    } else {
        spec_taken_prefix(ver, upto - 1) + spec_column_taken(ver, upto - 1, spec_size(ver))
    }
}

/// The columns right of a column and those up to it make up the symbol.
proof fn lemma_right_and_left(ver: int, x: int)
    requires
        -1 <= x <= spec_size(ver) - 1,
    ensures
        spec_taken_right_of(ver, x) + spec_taken_prefix(ver, x + 1) == spec_taken_prefix(ver, spec_size(ver)),
    decreases spec_size(ver) - x,
{
    if x < spec_size(ver) - 1 {
        lemma_right_and_left(ver, x + 1);
    }
}

/// What the alignment patterns add to the function modules of the columns left of column `upto`.
pub open spec fn spec_extra_prefix(ver: int, upto: int) -> int
    decreases upto,
{
    if upto <= 0 {
        0
    } else {
        spec_extra_prefix(ver, upto - 1) + spec_column_extra(ver, upto - 1)
    }
}

/// What the alignment patterns add, by the number of columns that lie near positions.
proof fn lemma_extra_prefix(ver: int, upto: int)
    requires
        2 <= ver <= 40,
        0 <= upto,
    ensures
        spec_extra_prefix(ver, upto) == (5 * spec_num_align(ver) - 1) * spec_near_count(
            ver,
            upto,
            1,
            spec_num_align(ver) - 2,
        ) + (5 * (spec_num_align(ver) - 1)) * spec_near_count(
            ver,
            upto,
            spec_num_align(ver) - 1,
            spec_num_align(ver) - 1,
        ),
    decreases upto,
{
    let n = spec_num_align(ver);
    lemma_alignment_step(ver);
    if upto > 0 {
        lemma_extra_prefix(ver, upto - 1);
        let mid = spec_near_count(ver, upto - 1, 1, n - 2);
        let last = spec_near_count(ver, upto - 1, n - 1, n - 1);
        assert((5 * n - 1) * (mid + 1) == (5 * n - 1) * mid + (5 * n - 1)) by (nonlinear_arith);
        assert((5 * (n - 1)) * (last + 1) == (5 * (n - 1)) * last + 5 * (n - 1)) by (nonlinear_arith);
    }
}

/// The function modules of the nine columns at the left edge.
proof fn lemma_left_columns(ver: int)
    requires
        1 <= ver <= 40,
    ensures
        spec_taken_prefix(ver, 9) == 136 + spec_size(ver) + (if ver >= 7 {
            18int
        } else {
            0
        }) + (if ver >= 2 {
            20 * (spec_num_align(ver) - 2)
        } else {
            0
        }),
        spec_extra_prefix(ver, 9) == 0,
{
    lemma_column_total(ver, 0);
    lemma_column_total(ver, 1);
    lemma_column_total(ver, 2);
    lemma_column_total(ver, 3);
    lemma_column_total(ver, 4);
    lemma_column_total(ver, 5);
    lemma_column_total(ver, 6);
    lemma_column_total(ver, 7);
    lemma_column_total(ver, 8);
    assert(spec_taken_prefix(ver, 0) == 0);
    assert(spec_taken_prefix(ver, 2) == spec_taken_prefix(ver, 1) + spec_column_taken(ver, 1, spec_size(ver)));
    assert(spec_taken_prefix(ver, 4) == spec_taken_prefix(ver, 3) + spec_column_taken(ver, 3, spec_size(ver)));
    assert(spec_taken_prefix(ver, 6) == spec_taken_prefix(ver, 5) + spec_column_taken(ver, 5, spec_size(ver)));
    assert(spec_taken_prefix(ver, 8) == spec_taken_prefix(ver, 7) + spec_column_taken(ver, 7, spec_size(ver)));
    lemma_extra_left(ver, 9);
}

/// The alignment patterns add nothing in the nine columns at the left edge.
proof fn lemma_extra_left(ver: int, upto: int)
    requires
        1 <= ver <= 40,
        0 <= upto <= 9,
    ensures
        spec_extra_prefix(ver, upto) == 0,
    decreases upto,
{
    if upto > 0 {
        lemma_extra_left(ver, upto - 1);
        lemma_coordinate(ver, upto - 1);
    }
}

/// The function modules of the columns left of a column right of the left edge.
#[verifier::spinoff_prover]
#[verifier::rlimit(40)]
proof fn lemma_taken_prefix(ver: int, upto: int)
    requires
        1 <= ver <= 40,
        9 <= upto <= spec_size(ver),
    ensures
        spec_taken_prefix(ver, upto) == spec_taken_prefix(ver, 9) + (upto - 9) + 8 * spec_clamp(
            upto - (spec_size(ver) - 8),
            8,
        ) + (if ver >= 7 {
            6 * spec_clamp(upto - (spec_size(ver) - 11), 3)
        } else {
            0
        }) + spec_extra_prefix(ver, upto),
    decreases upto,
{
    if upto > 9 {
        lemma_taken_prefix(ver, upto - 1);
        lemma_column_total(ver, upto - 1);
    } else {
        lemma_extra_left(ver, 9);
    }
}

/// The modules that take codeword bits are as many as the version has room
/// for: the scan of the symbol finds all of them, and no others.
#[verifier::spinoff_prover]
#[verifier::rlimit(40)]
pub proof fn lemma_free_modules(ver: int)
    requires
        1 <= ver <= 40,
    ensures
        spec_free_before_pair(ver, -1) == spec_num_raw_data_modules(ver),
{
    let size = spec_size(ver);
    let n = spec_num_align(ver);
    lemma_free_before_pair(ver, -1);
    lemma_right_and_left(ver, -1);
    lemma_taken_prefix(ver, size);
    lemma_left_columns(ver);
    let taken = spec_taken_prefix(ver, size);
    assert(spec_free_before_pair(ver, -1) == size * size - taken);
    if ver >= 2 {
        lemma_alignment_step(ver);
        lemma_extra_prefix(ver, size);
        lemma_near_count_whole(ver, 1, n - 2);
        lemma_near_count_whole(ver, n - 1, n - 1);
        let extra = spec_extra_prefix(ver, size);
        assert(extra == 25 * n * n - 30 * n - 15) by (nonlinear_arith)
            requires
                extra == (5 * n - 1) * (5 * (n - 2)) + (5 * (n - 1)) * 5,
        ;
        let version: int = if ver >= 7 {
            36
        } else {
            0
        };
        assert(size * size - taken == spec_num_raw_data_modules(ver)) by (nonlinear_arith)
            requires
                size == 4 * ver + 17,
                taken == 136 + 2 * size + version + 25 * n * n - 10 * n,
                n == ver / 7 + 2,
                version == (if ver >= 7 {
                    36int
                } else {
                    0
                }),
                ver >= 2,
        ;
    } else {
        lemma_extra_none(ver, size);
        assert(size * size == 441) by (nonlinear_arith)
            requires
                size == 21,
        ;
        assert(spec_num_raw_data_modules(1) == 208) by (nonlinear_arith);
    }
}

/// Version 1 has no alignment pattern.
proof fn lemma_extra_none(ver: int, upto: int)
    requires
        ver == 1,
        0 <= upto,
    ensures
        spec_extra_prefix(ver, upto) == 0,
    decreases upto,
{
    if upto > 0 {
        lemma_extra_none(ver, upto - 1);
    }
}

/// Whether a column is the right column of a pair of columns of the scan.
spec fn is_pair(ver: int, right: int) -> bool {
    &&& 1 <= right <= spec_size(ver) - 1
    &&& right != 6
    &&& right >= 6 ==> right % 2 == 0
    &&& right < 6 ==> right % 2 != 0
}

/// Finds the module of a bit in the rows of a pair of columns.
proof fn lemma_find_in_rows(ver: int, right: int, rows: int, k: int) -> (place: (int, int))
    requires
        1 <= ver <= 40,
        is_pair(ver, right),
        0 <= rows <= spec_size(ver),
        spec_free_before_pair(ver, right) <= k < spec_free_before_pair(ver, right) + spec_free_in_rows(
            ver,
            right,
            rows,
        ),
    ensures
        spec_in_grid(ver, place.0, place.1),
        !spec_is_function_module(ver, place.0, place.1),
        spec_codeword_bit_index(ver, place.0, place.1) == k,
    decreases rows,
{
    let base = spec_free_before_pair(ver, right);
    let y = spec_scan_row(ver, right, rows - 1);
    let before = base + spec_free_in_rows(ver, right, rows - 1);
    if rows <= 0 {
        (0, 0)
    } else if k < before {
        lemma_find_in_rows(ver, right, rows - 1, k)
    } else if spec_free(ver, right, y) == 1 && k == before {
        (right, y)
    } else {
        (right - 1, y)
    }
}

/// Finds the module of a bit in the pairs of columns before a pair.
proof fn lemma_find_in_pairs(ver: int, right: int, k: int) -> (place: (int, int))
    requires
        1 <= ver <= 40,
        is_pair(ver, right) || right == -1,
        0 <= k < spec_free_before_pair(ver, right),
    ensures
        spec_in_grid(ver, place.0, place.1),
        !spec_is_function_module(ver, place.0, place.1),
        spec_codeword_bit_index(ver, place.0, place.1) == k,
    decreases spec_size(ver) - right,
{
    let before = spec_pair_before(right);
    if right >= spec_size(ver) - 1 {
        (0, 0)
    } else if k < spec_free_before_pair(ver, before) {
        lemma_find_in_pairs(ver, before, k)
    } else {
        lemma_find_in_rows(ver, before, spec_size(ver), k)
    }
}

/// Every codeword bit that the version has room for has its module: one
/// that is no function module and shows the bit with this index.
pub proof fn lemma_every_bit_has_its_module(ver: int, k: int) -> (place: (int, int))
    requires
        1 <= ver <= 40,
        0 <= k < spec_num_raw_data_modules(ver),
    ensures
        spec_in_grid(ver, place.0, place.1),
        !spec_is_function_module(ver, place.0, place.1),
        spec_codeword_bit_index(ver, place.0, place.1) == k,
{
    lemma_free_modules(ver);
    lemma_find_in_pairs(ver, -1, k)
}

/// The step of the scan of its pair of columns at which a row is visited.
spec fn scan_step(ver: int, right: int, y: int) -> int {
    if spec_upward(right) {
        spec_size(ver) - 1 - y
    } else {
        y
    }
}

/// Whether the scan visits the first module before the second.
spec fn scanned_before(ver: int, x1: int, y1: int, x2: int, y2: int) -> bool {
    let r1 = spec_pair_right(x1);
    let r2 = spec_pair_right(x2);
    r1 > r2 || (r1 == r2 && (scan_step(ver, r1, y1) < scan_step(ver, r2, y2) || (scan_step(ver, r1, y1)
        == scan_step(ver, r2, y2) && x1 > x2)))
}

/// The scan of a pair of columns finds no fewer free modules in more rows.
proof fn lemma_rows_grow(ver: int, right: int, fewer: int, more: int)
    requires
        0 <= fewer <= more,
    ensures
        spec_free_in_rows(ver, right, fewer) <= spec_free_in_rows(ver, right, more),
        0 <= spec_free_in_rows(ver, right, fewer),
    decreases more,
{
    if more > fewer {
        lemma_rows_grow(ver, right, fewer, more - 1);
    } else if fewer > 0 {
        lemma_rows_grow(ver, right, fewer - 1, fewer - 1);
    }
}

/// The free modules before a pair of columns that the scan visits later
/// include all those of an earlier pair.
proof fn lemma_pairs_grow(ver: int, earlier: int, later: int)
    requires
        1 <= ver <= 40,
        is_pair(ver, earlier),
        is_pair(ver, later) || later == -1,
        later < earlier,
    ensures
        spec_free_before_pair(ver, earlier) + spec_free_in_rows(ver, earlier, spec_size(ver))
            <= spec_free_before_pair(ver, later),
    decreases earlier - later,
{
    let next = spec_pair_before(later);
    if next < earlier {
        lemma_pairs_grow(ver, earlier, next);
        lemma_rows_grow(ver, next, 0, spec_size(ver));
    }
}

/// A module that takes a codeword bit takes a later bit than each such
/// module that the scan visits before it.
#[verifier::spinoff_prover]
#[verifier::rlimit(40)]
proof fn lemma_index_grows(ver: int, x1: int, y1: int, x2: int, y2: int)
    requires
        1 <= ver <= 40,
        spec_in_grid(ver, x1, y1),
        spec_in_grid(ver, x2, y2),
        !spec_is_function_module(ver, x1, y1),
        !spec_is_function_module(ver, x2, y2),
        scanned_before(ver, x1, y1, x2, y2),
    ensures
        spec_codeword_bit_index(ver, x1, y1) < spec_codeword_bit_index(ver, x2, y2),
{
    let size = spec_size(ver);
    let r1 = spec_pair_right(x1);
    let r2 = spec_pair_right(x2);
    let s1 = scan_step(ver, r1, y1);
    let s2 = scan_step(ver, r2, y2);
    assert(spec_free_in_rows(ver, r1, s1 + 1) == spec_free_in_rows(ver, r1, s1) + spec_free(ver, r1, y1)
        + spec_free(ver, r1 - 1, y1));
    lemma_rows_grow(ver, r2, 0, s2);
    if r1 > r2 {
        lemma_pairs_grow(ver, r1, r2);
        lemma_rows_grow(ver, r1, s1 + 1, size);
    } else if s1 < s2 {
        lemma_rows_grow(ver, r1, s1 + 1, s2);
    }
}

/// No two modules show the same codeword bit.
pub proof fn lemma_one_module_for_each_bit(ver: int, x1: int, y1: int, x2: int, y2: int)
    requires
        1 <= ver <= 40,
        spec_in_grid(ver, x1, y1),
        spec_in_grid(ver, x2, y2),
        !spec_is_function_module(ver, x1, y1),
        !spec_is_function_module(ver, x2, y2),
        spec_codeword_bit_index(ver, x1, y1) == spec_codeword_bit_index(ver, x2, y2),
    ensures
        x1 == x2,
        y1 == y2,
{
    if scanned_before(ver, x1, y1, x2, y2) {
        lemma_index_grows(ver, x1, y1, x2, y2);
    } else if scanned_before(ver, x2, y2, x1, y1) {
        lemma_index_grows(ver, x2, y2, x1, y1);
    }
}

} // verus!
