//! Where the alignment patterns of a symbol stand.

use vstd::prelude::*;
use crate::qr_code::QrCode;
use crate::tables::spec_num_align;
use crate::version::spec_size;

verus! {

/// The distance between neighbouring alignment positions but the first two:
/// the smallest even number that lets the positions span the grid from 6 to
/// `size - 7`, except for version 32, where it is 26.
pub open spec fn spec_alignment_step(ver: int) -> int {
    let intervals = spec_num_align(ver) - 1;
    if ver == 32 {
        26
    } else {
        (spec_size(ver) - 13 + 2 * intervals - 1) / (2 * intervals) * 2
    }
}

/// The `i`-th alignment position of a version, counted from 0.
pub open spec fn spec_alignment_position(ver: int, i: int) -> int {
    if i == 0 {
        6
    } else {
        spec_size(ver) - 7 - (spec_num_align(ver) - 1 - i) * spec_alignment_step(ver)
    }
}

/// The ascending list of the positions of the alignment patterns of a
/// version, which hold for the x and the y axis alike: none for version 1;
/// else from 6 up to `size - 7`, all but the first one step apart.
pub open spec fn spec_alignment_positions(ver: int) -> Seq<int> {
    Seq::new(spec_num_align(ver) as nat, |i: int| spec_alignment_position(ver, i))
}

/// The number of alignment positions for each range of versions, and the
/// step as the quotient that executable code computes.
#[verifier::spinoff_prover]
#[verifier::rlimit(40)]
pub proof fn lemma_alignment_step(ver: int)
    requires
        2 <= ver <= 40,
    ensures
        spec_num_align(ver) == ver / 7 + 2,
        2 <= spec_num_align(ver) <= 7,
        spec_alignment_step(ver) == (ver * 8 + spec_num_align(ver) * 3 + 5) / (spec_num_align(ver) * 4
            - 4) * 2,
        12 <= spec_alignment_step(ver) <= 28,
        spec_alignment_position(ver, 1) >= 18,
{
    let n = spec_num_align(ver);
    let span = spec_size(ver) - 13 + 2 * (n - 1) - 1;
    let quotient = ver * 8 + n * 3 + 5;
    let step = spec_alignment_step(ver);
    if ver < 7 {
        lemma_fixed_divisor(span, 2 * (n - 1), 2);
        lemma_fixed_divisor(quotient, n * 4 - 4, 4);
        lemma_fixed_factor(n - 1 - 1, step, 0);
        assert(step == quotient / 4 * 2);
    } else if ver < 14 {
        lemma_fixed_divisor(span, 2 * (n - 1), 4);
        lemma_fixed_divisor(quotient, n * 4 - 4, 8);
        lemma_fixed_factor(n - 1 - 1, step, 1);
    } else if ver < 21 {
        lemma_fixed_divisor(span, 2 * (n - 1), 6);
        lemma_fixed_divisor(quotient, n * 4 - 4, 12);
        lemma_fixed_factor(n - 1 - 1, step, 2);
    } else if ver < 28 {
        lemma_fixed_divisor(span, 2 * (n - 1), 8);
        lemma_fixed_divisor(quotient, n * 4 - 4, 16);
        lemma_fixed_factor(n - 1 - 1, step, 3);
        assert(step == quotient / 16 * 2);
    } else if ver < 35 {
        lemma_fixed_divisor(span, 2 * (n - 1), 10);
        lemma_fixed_divisor(quotient, n * 4 - 4, 20);
        lemma_fixed_factor(n - 1 - 1, step, 4);
    } else {
        lemma_fixed_divisor(span, 2 * (n - 1), 12);
        lemma_fixed_divisor(quotient, n * 4 - 4, 24);
        lemma_fixed_factor(n - 1 - 1, step, 5);
    }
}

/// A quotient by a divisor whose value is known.
proof fn lemma_fixed_divisor(a: int, d: int, c: int)
    requires
        d == c,
    ensures
        a / d == a / c,
{
}

/// A product with a factor whose value is known.
proof fn lemma_fixed_factor(a: int, b: int, c: int)
    requires
        a == c,
    ensures
        a * b == c * b,
{
}

/// Alignment positions for version 32 use the special step of 26; for every
/// other version the step is twice the rounded-up quotient of the span
/// `size - 13` by twice the number of intervals. The list is strictly
/// ascending, starts at 6 and ends at `size - 7`, and neighbours are at least
/// 12 apart.
pub proof fn lemma_alignment_positions(ver: int)
    requires
        2 <= ver <= 40,
    ensures
        spec_alignment_positions(ver).len() == ver / 7 + 2,
        spec_alignment_positions(ver).first() == 6,
        spec_alignment_positions(ver).last() == spec_size(ver) - 7,
        ver == 32 ==> spec_alignment_step(ver) == 26,
        ver != 32 ==> spec_alignment_step(ver) == 2 * ((spec_size(ver) - 13 + 2 * (spec_num_align(ver)
            - 1) - 1) / (2 * (spec_num_align(ver) - 1))),
        forall|i: int, k: int|
            0 <= i < k < spec_alignment_positions(ver).len() ==> #[trigger] spec_alignment_positions(
                ver,
            )[i] + 12 <= #[trigger] spec_alignment_positions(ver)[k],
{
    lemma_alignment_step(ver);
    let n = spec_num_align(ver);
    let step = spec_alignment_step(ver);
    let positions = spec_alignment_positions(ver);
    assert((n - 1 - (n - 1)) * step == 0) by (nonlinear_arith);
    assert forall|i: int, k: int| 0 <= i < k < positions.len() implies #[trigger] positions[i] + 12
        <= #[trigger] positions[k] by {
        lemma_alignment_gap(ver, i, k);
    }
}

/// Two different alignment positions of one version are at least 12 apart.
#[verifier::spinoff_prover]
#[verifier::rlimit(40)]
pub proof fn lemma_alignment_gap(ver: int, i: int, k: int)
    requires
        2 <= ver <= 40,
        0 <= i < k < spec_num_align(ver),
    ensures
        spec_alignment_position(ver, i) + 12 <= spec_alignment_position(ver, k),
        6 <= spec_alignment_position(ver, i),
        spec_alignment_position(ver, k) <= spec_size(ver) - 7,
{
    lemma_alignment_step(ver);
    let n = spec_num_align(ver);
    let step = spec_alignment_step(ver);
    assert((n - 1 - k) * step >= 0) by (nonlinear_arith)
        requires
            n - 1 - k >= 0,
            step >= 12,
    ;
    if i == 0 {
        assert((n - 1 - k) * step <= (n - 2) * step) by (nonlinear_arith)
            requires
                1 <= k,
                step >= 12,
        ;
    } else {
        assert((n - 1 - i) * step - (n - 1 - k) * step == (k - i) * step) by (nonlinear_arith);
        assert((k - i) * step >= 12) by (nonlinear_arith)
            requires
                k - i >= 1,
                step >= 12,
        ;
        assert((n - 1 - i) * step <= (n - 2) * step) by (nonlinear_arith)
            requires
                1 <= i,
                step >= 12,
        ;
    }
}

/// Every alignment position leaves room for its pattern: it lies between 6 and `size - 7`.
pub proof fn lemma_alignment_range(ver: int, i: int)
    requires
        2 <= ver <= 40,
        0 <= i < spec_num_align(ver),
    ensures
        6 <= spec_alignment_position(ver, i) <= spec_size(ver) - 7,
{
    lemma_alignment_step(ver);
    if i == 0 {
        lemma_alignment_gap(ver, 0, 1);
    } else {
        lemma_alignment_gap(ver, 0, i);
    }
}

/// The index of the alignment position, among the first `n`, that lies
/// within two modules of the coordinate `c`; -1 if there is none.
pub open spec fn spec_alignment_near_among(ver: int, c: int, n: int) -> int
    decreases n,
{
    if n <= 0 {
        -1
    } else if -2 <= c - spec_alignment_position(ver, n - 1) <= 2 {
        n - 1
    } else {
        spec_alignment_near_among(ver, c, n - 1)
    }
}

/// The index of the alignment position that lies within two modules of the
/// coordinate `c`; -1 if there is none.
pub open spec fn spec_alignment_near(ver: int, c: int) -> int {
    spec_alignment_near_among(ver, c, spec_num_align(ver))
}

/// A coordinate is near at most one alignment position: the one that the
/// search finds.
pub proof fn lemma_alignment_near(ver: int, c: int, i: int)
    requires
        2 <= ver <= 40,
        0 <= i < spec_num_align(ver),
    ensures
        (-2 <= c - spec_alignment_position(ver, i) <= 2) <==> spec_alignment_near(ver, c) == i,
{
    lemma_alignment_near_among(ver, c, i, spec_num_align(ver));
}

proof fn lemma_alignment_near_among(ver: int, c: int, i: int, n: int)
    requires
        2 <= ver <= 40,
        0 <= i < spec_num_align(ver),
        0 <= n <= spec_num_align(ver),
    ensures
        (i < n && -2 <= c - spec_alignment_position(ver, i) <= 2) <==> spec_alignment_near_among(ver, c, n)
            == i,
        -1 <= spec_alignment_near_among(ver, c, n) < n,
    decreases n,
{
    if n > 0 {
        lemma_alignment_near_among(ver, c, i, n - 1);
        if i < n - 1 {
            lemma_alignment_gap(ver, i, n - 1);
        }
    }
}

impl QrCode {
    /// Returns an ascending list of positions of alignment patterns for this version number.
    /// Each position is in the range [0,177), and are used on both the x and y axes.
    #[verifier::spinoff_prover]
    #[verifier::rlimit(40)]
    pub fn get_alignment_pattern_positions(&self) -> (result: Vec<i32>)
        ensures
            result@.len() == spec_num_align(self.spec_version().spec_value()),
            forall|i: int|
                0 <= i < result@.len() ==> #[trigger] result@[i] == spec_alignment_position(
                    self.spec_version().spec_value(),
                    i,
                ),
    {
        let ver: i32 = self.version().value() as i32;
        let size: i32 = self.size();
        if ver == 1 {
            Vec::new()
        } else {
            proof {
                lemma_alignment_step(ver as int);
            }
            let numalign: i32 = ver / 7 + 2;
            let step: i32 = (ver * 8 + numalign * 3 + 5) / (numalign * 4 - 4) * 2;
            let mut result: Vec<i32> = vec![6i32; numalign as usize];
            for i in 0..numalign - 1
                invariant
                    2 <= ver <= 40,
                    2 <= numalign <= 7,
                    numalign == spec_num_align(ver as int),
                    step == spec_alignment_step(ver as int),
                    size == spec_size(ver as int),
                    result@.len() == numalign,
                    result@[0] == 6,
                    forall|k: int|
                        numalign - i <= k < numalign ==> #[trigger] result@[k] == spec_alignment_position(
                            ver as int,
                            k,
                        ),
            {
                proof {
                    lemma_alignment_step(ver as int);
                    lemma_alignment_gap(ver as int, 0, numalign - 1 - i);
                    assert(0 <= i * step <= 6 * 28) by (nonlinear_arith)
                        requires
                            0 <= i <= 6,
                            12 <= step <= 28,
                    ;
                }
                result[(numalign - 1 - i) as usize] = size - 7 - i * step;
            }
            result
        }
    }
}

} // verus!
