//! The penalty score by which a mask is chosen.

use vstd::prelude::*;
use crate::qr_code::QrCode;

verus! {

/// The score for a run of five modules of one colour in a line; each further
/// module of the run scores 1.
pub const PENALTY_N1: i32 = 3;

/// The score for each 2*2 block of modules of one colour.
pub const PENALTY_N2: i32 = 3;

/// The score for each finder-like pattern in a line.
pub const PENALTY_N3: i32 = 40;

/// The score for each step of 5% by which the share of dark modules is off one half.
pub const PENALTY_N4: i32 = 10;

/// A grid of modules as contracts see it: the colour at each pair of coordinates.
pub type Picture = spec_fn(int, int) -> bool;

/// The history of run lengths before any run is added: seven zeros.
pub open spec fn spec_empty_history() -> Seq<int> {
    Seq::new(7, |i: int| 0int)
}

/// The history after a run is added: the run stands first and the oldest
/// run is dropped. The first run of a line counts with a light border as
/// wide as the grid before it.
pub open spec fn spec_add_history(history: Seq<int>, run: int, size: int) -> Seq<int> {
    let first = if history[0] == 0 {
        run + size
    } else {
        run
    };
    Seq::new(
        7,
        |i: int|
            if i == 0 {
                first
            } else {
                history[i - 1]
            },
    )
}

/// The number of finder-like patterns that end with the light run just
/// added: the runs before it in the ratio 1:1:3:1:1, dark first, with a light
/// run at least four times as wide on one side and one at least as wide on
/// the other. It is 0, 1 or 2.
pub open spec fn spec_count_patterns(history: Seq<int>) -> int {
    let n = history[1];
    let core = n > 0 && history[2] == n && history[3] == n * 3 && history[4] == n && history[5] == n;
    (if core && history[0] >= n * 4 && history[6] >= n {
        1int
    } else {
        0
    }) + (if core && history[6] >= n * 4 && history[0] >= n {
        1int
    } else {
        0
    })
}

/// The number of finder-like patterns found at the end of a line, where the
/// last run has the given colour and length: a dark run is closed first, and
/// the last light run counts with a light border as wide as the grid after it.
pub open spec fn spec_terminate_and_count(history: Seq<int>, dark: bool, run: int, size: int) -> int {
    let closed = if dark {
        spec_add_history(history, run, size)
    } else {
        history
    };
    let last = if dark {
        size
    } else {
        run + size
    };
    spec_count_patterns(spec_add_history(closed, last, size))
}

/// Where the scan of a line stands: the colour and length of the run it is
/// in, the history of the runs before, and the score so far.
pub ghost struct RunState {
    /// The colour of the current run (true for dark).
    pub dark: bool,
    /// The length of the current run.
    pub run: int,
    /// The lengths of the last seven runs before the current one, newest first.
    pub history: Seq<int>,
    /// The score of the line so far.
    pub score: int,
}

/// The scan before the first module: a light run of length 0.
pub open spec fn spec_run_start() -> RunState {
    RunState { dark: false, run: 0, history: spec_empty_history(), score: 0 }
}

/// The scan after one more module. A module of the run's colour makes the
/// run longer: the fifth module of a run scores 3 and each further one 1. A
/// module of the other colour ends the run; where a light run ends, each
/// finder-like pattern that ends with it scores 40.
pub open spec fn spec_run_step(s: RunState, dark: bool, size: int) -> RunState {
    if dark == s.dark {
        RunState {
            dark: s.dark,
            run: s.run + 1,
            history: s.history,
            score: s.score + (if s.run + 1 == 5 {
                3int
            } else if s.run + 1 > 5 {
                1
            } else {
                0
            }),
        }
    } else {
        let history = spec_add_history(s.history, s.run, size);
        RunState {
            dark: dark,
            run: 1,
            history: history,
            score: s.score + (if !s.dark {
                spec_count_patterns(history) * 40
            } else {
                0
            }),
        }
    }
}

/// The scan after the first `n` modules of a line.
pub open spec fn spec_run_scan(line: Seq<bool>, n: int) -> RunState
    decreases n,
{
    if n <= 0 {
        spec_run_start()
    } else {
        spec_run_step(spec_run_scan(line, n - 1), line[n - 1], line.len() as int)
    }
}

/// The score of one line, a row or a column: its runs of five and more
/// modules of one colour and its finder-like patterns.
pub open spec fn spec_line_penalty(line: Seq<bool>) -> int {
    let s = spec_run_scan(line, line.len() as int);
    s.score + spec_terminate_and_count(s.history, s.dark, s.run, line.len() as int) * 40
}

/// The length of the run of modules of one colour that ends with module
/// `n - 1` of the line.
pub open spec fn spec_run_length(line: Seq<bool>, n: int) -> int
    decreases n,
{
    if n <= 1 {
        n
    } else if line[n - 1] == line[n - 2] {
        spec_run_length(line, n - 1) + 1
    } else {
        1
    }
}

/// The score of the runs among the first `n` modules of a line: a run of
/// five modules of one colour scores 3 and each further module of it 1.
pub open spec fn spec_runs_penalty(line: Seq<bool>, n: int) -> int
    decreases n,
{
    if n <= 0 {
        0
    } else {
        spec_runs_penalty(line, n - 1) + (if spec_run_length(line, n) == 5 {
            3int
        } else if spec_run_length(line, n) > 5 {
            1
        } else {
            0
        })
    }
}

/// The number of finder-like patterns that the scan of the first `n`
/// modules of a line finds: those that end with a light run that a dark
/// module ends.
pub open spec fn spec_finder_hits(line: Seq<bool>, n: int) -> int
    decreases n,
{
    if n <= 0 {
        0
    } else {
        let before = spec_run_scan(line, n - 1);
        spec_finder_hits(line, n - 1) + (if line[n - 1] && !before.dark {
            spec_count_patterns(spec_add_history(before.history, before.run, line.len() as int))
        } else {
            0
        })
    }
}

/// The scan of a line keeps the colour and the length of the run that it is
/// in, and its score is the score of the runs and 40 for each finder-like pattern.
pub proof fn lemma_scan_parts(line: Seq<bool>, n: int)
    requires
        0 <= n <= line.len(),
    ensures
        n >= 1 ==> spec_run_scan(line, n).dark == line[n - 1],
        n >= 1 ==> spec_run_scan(line, n).run == spec_run_length(line, n),
        spec_run_scan(line, n).score == spec_runs_penalty(line, n) + 40 * spec_finder_hits(line, n),
    decreases n,
{
    if n > 0 {
        lemma_scan_parts(line, n - 1);
    }
}

/// The score of a line in parts: the score of its runs, and 40 for each
/// finder-like pattern found along the line and at its end.
pub proof fn lemma_line_penalty_parts(line: Seq<bool>)
    ensures
        spec_line_penalty(line) == spec_runs_penalty(line, line.len() as int) + 40 * (spec_finder_hits(
            line,
            line.len() as int,
        ) + spec_terminate_and_count(
            spec_run_scan(line, line.len() as int).history,
            spec_run_scan(line, line.len() as int).dark,
            spec_run_scan(line, line.len() as int).run,
            line.len() as int,
        )),
{
    lemma_scan_parts(line, line.len() as int);
}

/// Row `y` of a picture.
pub open spec fn spec_row(pic: Picture, size: int, y: int) -> Seq<bool> {
    Seq::new(size as nat, |x: int| pic(x, y))
}

/// Column `x` of a picture.
pub open spec fn spec_column(pic: Picture, size: int, x: int) -> Seq<bool> {
    Seq::new(size as nat, |y: int| pic(x, y))
}

/// The scores of the first `n` rows together.
pub open spec fn spec_rows_penalty(pic: Picture, size: int, n: int) -> int
    decreases n,
{
    if n <= 0 {
        0
    } else {
        spec_rows_penalty(pic, size, n - 1) + spec_line_penalty(spec_row(pic, size, n - 1))
    }
}

/// The scores of the first `n` columns together.
pub open spec fn spec_columns_penalty(pic: Picture, size: int, n: int) -> int
    decreases n,
{
    if n <= 0 {
        0
    } else {
        spec_columns_penalty(pic, size, n - 1) + spec_line_penalty(spec_column(pic, size, n - 1))
    }
}

/// Whether the 2*2 block with its top left module at (x, y) has one colour.
pub open spec fn spec_is_block(pic: Picture, x: int, y: int) -> bool {
    pic(x, y) == pic(x + 1, y) && pic(x, y) == pic(x, y + 1) && pic(x, y) == pic(x + 1, y + 1)
}

/// The number of 2*2 blocks of one colour whose top left module is among
/// the first `n` modules of row `y`.
pub open spec fn spec_blocks_in_row(pic: Picture, y: int, n: int) -> int
    decreases n,
{
    if n <= 0 {
        0
    } else {
        spec_blocks_in_row(pic, y, n - 1) + (if spec_is_block(pic, n - 1, y) {
            1int
        } else {
            0
        })
    }
}

/// The number of 2*2 blocks of one colour whose top left module is in one
/// of the first `rows` rows.
pub open spec fn spec_blocks(pic: Picture, size: int, rows: int) -> int
    decreases rows,
{
    if rows <= 0 {
        0
    } else {
        spec_blocks(pic, size, rows - 1) + spec_blocks_in_row(pic, rows - 1, size - 1)
    }
}

/// The number of dark modules among the first `n` modules of row `y`.
pub open spec fn spec_dark_in_row(pic: Picture, y: int, n: int) -> int
    decreases n,
{
    if n <= 0 {
        0
    } else {
        spec_dark_in_row(pic, y, n - 1) + (if pic(n - 1, y) {
            1int
        } else {
            0
        })
    }
}

/// The number of dark modules in the first `rows` rows.
pub open spec fn spec_dark(pic: Picture, size: int, rows: int) -> int
    decreases rows,
{
    if rows <= 0 {
        0
    } else {
        spec_dark(pic, size, rows - 1) + spec_dark_in_row(pic, rows - 1, size)
    }
}

/// The score for the balance of dark and light modules: 10 for each step of
/// 5% by which the share of dark modules lies outside 45% to 55%.
pub open spec fn spec_balance_penalty(dark: int, total: int) -> int {
    let off = if dark * 20 - total * 10 >= 0 {
        dark * 20 - total * 10
    } else {
        total * 10 - dark * 20
    };
    let k = (off + total - 1) / total - 1;
    if k >= 0 {
        k * 10
    } else {
        0
    }
}

/// The penalty score of a picture of the given side: the scores of its rows
/// and columns, 3 for each 2*2 block of one colour, and the score for the
/// balance of dark and light.
pub open spec fn spec_penalty_score(pic: Picture, size: int) -> int {
    spec_rows_penalty(pic, size, size) + spec_columns_penalty(pic, size, size) + 3 * spec_blocks(
        pic,
        size,
        size - 1,
    ) + spec_balance_penalty(spec_dark(pic, size, size), size * size)
}

/// The run lengths of the scan of one line, for finding finder-like patterns.
pub struct FinderPenalty {
    qr_size: i32,
    run_history: [i32; 7],
}

impl FinderPenalty {
    /// The side of the grid whose lines are scanned.
    pub closed spec fn spec_size(&self) -> int {
        self.qr_size as int
    }

    /// The lengths of the last seven runs, newest first.
    pub closed spec fn spec_history(&self) -> Seq<int> {
        Seq::new(7, |i: int| self.run_history@[i] as int)
    }

    /// The side is not negative and no run is longer than three times the side.
    #[verifier::type_invariant]
    pub closed spec fn well_formed(&self) -> bool {
        &&& 0 <= self.qr_size <= 100_000_000
        &&& forall|i: int| 0 <= i < 7 ==> 0 <= #[trigger] self.run_history@[i] <= 3 * self.qr_size
    }

    /// Starts the scan of a line of a grid of the given side.
    pub fn new(size: i32) -> (fp: FinderPenalty)
        requires
            0 <= size <= 100_000_000,
        ensures
            fp.spec_size() == size,
            fp.spec_history() == spec_empty_history(),
    {
        let fp = FinderPenalty { qr_size: size, run_history: [0i32;7] };
        fp
    }

    /// Pushes the given value to the front and drops the last value.
    pub fn add_history(&mut self, currentrunlength: i32)
        requires
            0 <= currentrunlength <= 2 * old(self).spec_size(),
        ensures
            final(self).spec_size() == old(self).spec_size(),
            final(self).spec_history() == spec_add_history(
                old(self).spec_history(),
                currentrunlength as int,
                old(self).spec_size(),
            ),
    {
        proof {
            use_type_invariant(&*self);
        }
        let mut length: i32 = currentrunlength;
        if self.run_history[0] == 0 {
            length += self.qr_size;  // Add light border to initial run
        }
        let rh: [i32; 7] = self.run_history;
        self.run_history = [length, rh[0], rh[1], rh[2], rh[3], rh[4], rh[5]];
        assert(self.spec_history() =~= spec_add_history(
            old(self).spec_history(),
            currentrunlength as int,
            old(self).spec_size(),
        ));
    }

    /// Can only be called immediately after a light run is added, and returns either 0, 1, or 2.
    pub fn count_patterns(&self) -> (count: i32)
        ensures
            count == spec_count_patterns(self.spec_history()),
            0 <= count <= 2,
    {
        proof {
            use_type_invariant(self);
        }
        let rh: [i32; 7] = self.run_history;
        let n: i32 = rh[1];
        let core: bool = n > 0 && rh[2] == n && rh[3] == n * 3 && rh[4] == n && rh[5] == n;
        let before: i32 = if core && rh[0] >= n * 4 && rh[6] >= n {
            1
        } else {
            0
        };
        let after: i32 = if core && rh[6] >= n * 4 && rh[0] >= n {
            1
        } else {
            0
        };
        before + after
    }

    /// Must be called at the end of a line (row or column) of modules.
    pub fn terminate_and_count(self, currentruncolor: bool, currentrunlength: i32) -> (count: i32)
        requires
            0 <= currentrunlength <= self.spec_size(),
        ensures
            count == spec_terminate_and_count(
                self.spec_history(),
                currentruncolor,
                currentrunlength as int,
                self.spec_size(),
            ),
            0 <= count <= 2,
    {
        let mut this = self;
        proof {
            use_type_invariant(&this);
        }
        let mut length: i32 = currentrunlength;
        if currentruncolor {  // Terminate dark run
            this.add_history(length);
            length = 0;
        }
        length += this.qr_size;  // Add light border to final run
        this.add_history(length);
        this.count_patterns()
    }
}

impl QrCode {
    /// The grid of this symbol as a picture.
    pub open spec fn spec_picture(&self) -> Picture {
        |x: int, y: int| self.spec_module(x, y)
    }

    /// Scores one line of the grid: row `k` if `across`, else column `k`.
    #[verifier::spinoff_prover]
    #[verifier::rlimit(40)]
    fn line_penalty(&self, k: i32, across: bool) -> (score: i32)
        requires
            0 <= k < self.spec_side(),
        ensures
            across ==> score == spec_line_penalty(spec_row(self.spec_picture(), self.spec_side(), k as int)),
            !across ==> score == spec_line_penalty(
                spec_column(self.spec_picture(), self.spec_side(), k as int),
            ),
            0 <= score <= 14400,
    {
        let size: i32 = self.size();
        let ghost line = if across {
            spec_row(self.spec_picture(), size as int, k as int)
        } else {
            spec_column(self.spec_picture(), size as int, k as int)
        };
        let mut result: i32 = 0;
        let mut runcolor: bool = false;
        let mut run: i32 = 0;
        let mut runhistory = FinderPenalty::new(size);
        for n in 0..size
            invariant
                size == self.spec_side(),
                21 <= size <= 177,
                0 <= k < size,
                line.len() == size,
                forall|m: int|
                    0 <= m < size ==> #[trigger] line[m] == (if across {
                        self.spec_module(m, k as int)
                    } else {
                        self.spec_module(k as int, m)
                    }),
                runhistory.spec_size() == size,
                runcolor == spec_run_scan(line, n as int).dark,
                run == spec_run_scan(line, n as int).run,
                runhistory.spec_history() == spec_run_scan(line, n as int).history,
                result == spec_run_scan(line, n as int).score,
                0 <= run <= n,
                0 <= result <= 80 * n,
        {
            let dark: bool = if across {
                self.module(n, k)
            } else {
                self.module(k, n)
            };
            if dark == runcolor {
                run += 1;
                if run == 5 {
                    result += PENALTY_N1;
                } else if run > 5 {
                    result += 1;
                }
            } else {
                runhistory.add_history(run);
                if !runcolor {
                    result += runhistory.count_patterns() * PENALTY_N3;
                }
                runcolor = dark;
                run = 1;
            }
        }
        result += runhistory.terminate_and_count(runcolor, run) * PENALTY_N3;
        result
    }

    /// Counts the 2*2 blocks of modules having same color.
    fn count_blocks(&self) -> (count: i32)
        ensures
            count == spec_blocks(self.spec_picture(), self.spec_side(), self.spec_side() - 1),
            0 <= count <= 176 * 176,
    {
        let size: i32 = self.size();
        let ghost pic = self.spec_picture();
        let mut count: i32 = 0;
        for y in 0..size - 1
            invariant
                size == self.spec_side(),
                21 <= size <= 177,
                pic == self.spec_picture(),
                count == spec_blocks(pic, size as int, y as int),
                0 <= count <= y * 176,
        {
            let ghost base = count;
            for x in 0..size - 1
                invariant
                    size == self.spec_side(),
                    21 <= size <= 177,
                    0 <= y < size - 1,
                    pic == self.spec_picture(),
                    count == base + spec_blocks_in_row(pic, y as int, x as int),
                    base <= count <= base + x,
                    0 <= base <= y * 176,
            {
                let color: bool = self.module(x, y);
                if color == self.module(x + 1, y) && color == self.module(x, y + 1) && color
                    == self.module(x + 1, y + 1) {
                    count += 1;
                }
            }
        }
        count
    }

    /// Counts the dark modules.
    fn count_dark(&self) -> (dark: i32)
        ensures
            dark == spec_dark(self.spec_picture(), self.spec_side(), self.spec_side()),
            0 <= dark <= 177 * 177,
    {
        let size: i32 = self.size();
        let ghost pic = self.spec_picture();
        let mut dark: i32 = 0;
        for y in 0..size
            invariant
                size == self.spec_side(),
                21 <= size <= 177,
                pic == self.spec_picture(),
                dark == spec_dark(pic, size as int, y as int),
                0 <= dark <= y * 177,
        {
            let ghost base = dark;
            for x in 0..size
                invariant
                    size == self.spec_side(),
                    21 <= size <= 177,
                    0 <= y < size,
                    pic == self.spec_picture(),
                    dark == base + spec_dark_in_row(pic, y as int, x as int),
                    base <= dark <= base + x,
                    0 <= base <= y * 177,
            {
                if self.module(x, y) {
                    dark += 1;
                }
            }
        }
        dark
    }

    /// Calculates and returns the penalty score based on state of this QR Code's current modules.
    /// This is used by the automatic mask choice algorithm to find the mask pattern that yields the lowest score.
    #[verifier::spinoff_prover]
    #[verifier::rlimit(40)]
    pub fn get_penalty_score(&self) -> (result: i32)
        ensures
            result == spec_penalty_score(self.spec_picture(), self.spec_side()),
            0 <= result <= 20_000_000,
    {
        let mut result: i32 = 0;
        let size: i32 = self.size();
        let ghost pic = self.spec_picture();

        // Adjacent modules in row having same color, and finder-like patterns
        for y in 0..size
            invariant
                size == self.spec_side(),
                21 <= size <= 177,
                pic == self.spec_picture(),
                result == spec_rows_penalty(pic, size as int, y as int),
                0 <= result <= y * 14400,
        {
            result += self.line_penalty(y, true);
        }
        let ghost rows = result;
        // Adjacent modules in column having same color, and finder-like patterns
        for x in 0..size
            invariant
                size == self.spec_side(),
                21 <= size <= 177,
                pic == self.spec_picture(),
                0 <= rows <= 177 * 14400,
                result == rows + spec_columns_penalty(pic, size as int, x as int),
                rows <= result <= rows + x * 14400,
        {
            result += self.line_penalty(x, false);
        }

        // 2*2 blocks of modules having same color
        result += self.count_blocks() * PENALTY_N2;

        // Balance of dark and light modules
        let dark: i32 = self.count_dark();
        assert(size * size <= 177 * 177 && size * size >= 1) by (nonlinear_arith)
            requires
                21 <= size <= 177,
        ;
        let total: i32 = size * size;  // Note that size is odd, so dark/total != 1/2
        // Compute the smallest integer k >= 0 such that (45-5k)% <= dark/total <= (55+5k)%
        let off: i32 = if dark * 20 - total * 10 >= 0 {
            dark * 20 - total * 10
        } else {
            total * 10 - dark * 20
        };
        proof {
            vstd::arithmetic::div_mod::lemma_div_nonincreasing(off + total - 1, total as int);
            vstd::arithmetic::div_mod::lemma_div_pos_is_pos(off + total - 1, total as int);
        }
        let k: i32 = (off + total - 1) / total - 1;
        if k >= 0 {
            result += k * PENALTY_N4;
        }
        result
    }
}

} // verus!
