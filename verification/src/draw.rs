//! Drawing the function patterns onto a symbol under construction.

use vstd::prelude::*;
use crate::alignment::{lemma_alignment_near, lemma_alignment_range, spec_alignment_near};
use crate::pattern::{
    spec_alignment_dark, spec_finder_dark, spec_format_bit_index, spec_format_bits,
    spec_format_remainder, spec_function_dark, spec_is_alignment, spec_is_finder,
    spec_is_function_module, spec_is_timing, spec_ring, spec_timing_dark, spec_version_bit_index,
    spec_version_bits, spec_version_remainder,
};
use crate::qr_code::QrCode;
use crate::version::{get_bit, spec_bit, spec_size, Mask};

verus! {

proof fn lemma_format_step_exec(rem: u32)
    by (bit_vector)
    requires
        rem < 1024,
    ensures
        (rem >> 9) <= 1,
        (rem << 1) ^ (((rem >> 9) * 0x537) as u32) == (if rem >> 9 == 0 {
            rem << 1
        } else {
            (rem << 1) ^ 0x537
        }),
        (rem << 1) ^ (((rem >> 9) * 0x537) as u32) < 1024,
{
}

proof fn lemma_format_data_exec(level: u8, mask: u8)
    by (bit_vector)
    requires
        level <= 3,
        mask <= 7,
    ensures
        ((level << 3) | mask) < 32,
{
}

proof fn lemma_version_step_exec(rem: u32)
    by (bit_vector)
    requires
        rem < 4096,
    ensures
        (rem >> 11) <= 1,
        (rem << 1) ^ (((rem >> 11) * 0x1F25) as u32) == (if rem >> 11 == 0 {
            rem << 1
        } else {
            (rem << 1) ^ 0x1F25
        }),
        (rem << 1) ^ (((rem >> 11) * 0x1F25) as u32) < 4096,
{
}

impl QrCode {
    /// Draws a 9*9 finder pattern including the border separator,
    /// with the center module at (x, y). Modules can be out of bounds.
    #[verifier::spinoff_prover]
    #[verifier::rlimit(40)]
    pub(crate) fn draw_finder_pattern(&mut self, x: i32, y: i32)
        requires
            old(self).spec_marks_held(),
            -200 <= x <= 200,
            -200 <= y <= 200,
        ensures
            final(self).painted(
                old(self),
                |a: int, b: int| -4 <= a - x <= 4 && -4 <= b - y <= 4,
                |a: int, b: int| spec_ring(a - x, b - y) != 2 && spec_ring(a - x, b - y) != 4,
            ),
    {
        let size: i32 = self.size();
        let mut dy: i32 = -4;
        while dy <= 4
            invariant
                -4 <= dy <= 5,
                -200 <= x <= 200,
                -200 <= y <= 200,
                size == self.spec_side(),
                self.painted(
                    old(self),
                    |a: int, b: int| -4 <= a - x <= 4 && -4 <= b - y < dy,
                    |a: int, b: int| spec_ring(a - x, b - y) != 2 && spec_ring(a - x, b - y) != 4,
                ),
            decreases 5 - dy,
        {
            let mut dx: i32 = -4;
            while dx <= 4
                invariant
                    -4 <= dx <= 5,
                    -4 <= dy <= 4,
                    -200 <= x <= 200,
                    -200 <= y <= 200,
                    size == self.spec_side(),
                    self.painted(
                        old(self),
                        |a: int, b: int|
                            -4 <= a - x <= 4 && (-4 <= b - y < dy || (b - y == dy && a - x < dx)),
                        |a: int, b: int| spec_ring(a - x, b - y) != 2 && spec_ring(a - x, b - y) != 4,
                    ),
                decreases 5 - dx,
            {
                let xx: i32 = x + dx;
                let yy: i32 = y + dy;
                if 0 <= xx && xx < size && 0 <= yy && yy < size {
                    let adx: i32 = if dx < 0 {
                        -dx
                    } else {
                        dx
                    };
                    let ady: i32 = if dy < 0 {
                        -dy
                    } else {
                        dy
                    };
                    let dist: i32 = if adx >= ady {
                        adx
                    } else {
                        ady
                    };  // Chebyshev/infinity norm
                    self.set_function_module(xx, yy, dist != 2 && dist != 4);
                }
                dx += 1;
            }
            dy += 1;
        }
    }

    /// Draws a 5*5 alignment pattern, with the center module
    /// at (x, y). All modules must be in bounds.
    #[verifier::spinoff_prover]
    #[verifier::rlimit(40)]
    pub(crate) fn draw_alignment_pattern(&mut self, x: i32, y: i32)
        requires
            old(self).spec_marks_held(),
            2 <= x < old(self).spec_side() - 2,
            2 <= y < old(self).spec_side() - 2,
        ensures
            final(self).painted(
                old(self),
                |a: int, b: int| -2 <= a - x <= 2 && -2 <= b - y <= 2,
                |a: int, b: int| spec_ring(a - x, b - y) != 1,
            ),
    {
        let size: i32 = self.size();
        let mut dy: i32 = -2;
        while dy <= 2
            invariant
                -2 <= dy <= 3,
                size == self.spec_side(),
                2 <= x < size - 2,
                2 <= y < size - 2,
                self.painted(
                    old(self),
                    |a: int, b: int| -2 <= a - x <= 2 && -2 <= b - y < dy,
                    |a: int, b: int| spec_ring(a - x, b - y) != 1,
                ),
            decreases 3 - dy,
        {
            let mut dx: i32 = -2;
            while dx <= 2
                invariant
                    -2 <= dx <= 3,
                    -2 <= dy <= 2,
                    size == self.spec_side(),
                    2 <= x < size - 2,
                    2 <= y < size - 2,
                    self.painted(
                        old(self),
                        |a: int, b: int|
                            -2 <= a - x <= 2 && (-2 <= b - y < dy || (b - y == dy && a - x < dx)),
                        |a: int, b: int| spec_ring(a - x, b - y) != 1,
                    ),
                decreases 3 - dx,
            {
                let adx: i32 = if dx < 0 {
                    -dx
                } else {
                    dx
                };
                let ady: i32 = if dy < 0 {
                    -dy
                } else {
                    dy
                };
                let dist: i32 = if adx >= ady {
                    adx
                } else {
                    ady
                };
                self.set_function_module(x + dx, y + dy, dist != 1);
                dx += 1;
            }
            dy += 1;
        }
    }

    /// Draws two copies of the format bits (with its own error correction code)
    /// based on the given mask and this object's error correction level field.
    #[verifier::loop_isolation(false)]
    #[verifier::spinoff_prover]
    #[verifier::rlimit(40)]
    pub(crate) fn draw_format_bits(&mut self, mask: Mask)
        requires
            old(self).spec_marks_held(),
        ensures
            final(self).painted(
                old(self),
                |a: int, b: int| spec_format_bit_index(old(self).spec_version().spec_value(), a, b) >= 0,
                |a: int, b: int|
                    spec_format_bit_index(old(self).spec_version().spec_value(), a, b) == 15 || spec_bit(
                        spec_format_bits(old(self).spec_error_correction_level(), mask.spec_value()),
                        spec_format_bit_index(old(self).spec_version().spec_value(), a, b),
                    ),
            ),
    {
        let ghost ver = self.spec_version().spec_value();
        // Calculate error correction code and pack bits
        let level: u8 = self.error_correction_level().format_bits();
        let m: u8 = mask.value();
        proof {
            lemma_format_data_exec(level, m);
        }
        // errcorrlvl is uint2, mask is uint3
        let data: u32 = ((level << 3) | m) as u32;
        let mut rem: u32 = data;
        for i in 0..10
            invariant
                rem < 1024,
                rem == spec_format_remainder(data, i as nat),
        {
            proof {
                lemma_format_step_exec(rem);
            }
            rem = (rem << 1) ^ ((rem >> 9) * 0x537);
        }
        let bits: u32 = ((data << 10) | rem) ^ 0x5412;  // uint15
        let ghost dark = |a: int, b: int|
            spec_format_bit_index(ver, a, b) == 15 || spec_bit(bits, spec_format_bit_index(ver, a, b));
        let size: i32 = self.size();

        // Draw first copy
        for i in 0..6
            invariant
                size == self.spec_side(),
                size == spec_size(ver),
                1 <= ver <= 40,
                self.painted(old(self), |a: int, b: int| a == 8 && 0 <= b < i, dark),
        {
            self.set_function_module(8, i, get_bit(bits, i));
        }
        self.set_function_module(8, 7, get_bit(bits, 6));
        self.set_function_module(8, 8, get_bit(bits, 7));
        self.set_function_module(7, 8, get_bit(bits, 8));
        assert(self.painted(
            old(self),
            |a: int, b: int| 0 <= spec_format_bit_index(ver, a, b) <= 8 && a <= 8 && b <= 8,
            dark,
        ));
        for i in 9..15
            invariant
                size == self.spec_side(),
                size == spec_size(ver),
                1 <= ver <= 40,
                self.painted(
                    old(self),
                    |a: int, b: int| 0 <= spec_format_bit_index(ver, a, b) < i && a <= 8 && b <= 8,
                    dark,
                ),
        {
            self.set_function_module(14 - i, 8, get_bit(bits, i));
        }

        // Draw second copy
        for i in 0..8
            invariant
                size == self.spec_side(),
                size == spec_size(ver),
                1 <= ver <= 40,
                self.painted(
                    old(self),
                    |a: int, b: int|
                        0 <= spec_format_bit_index(ver, a, b) <= 14 && (a <= 8 && b <= 8 || (b == 8
                            && spec_format_bit_index(ver, a, b) < i)),
                    dark,
                ),
        {
            self.set_function_module(size - 1 - i, 8, get_bit(bits, i));
        }
        for i in 8..15
            invariant
                size == self.spec_side(),
                size == spec_size(ver),
                1 <= ver <= 40,
                self.painted(
                    old(self),
                    |a: int, b: int|
                        0 <= spec_format_bit_index(ver, a, b) <= 14 && (a <= 8 && b <= 8 || b == 8 || (a
                            == 8 && spec_format_bit_index(ver, a, b) < i)),
                    dark,
                ),
        {
            self.set_function_module(8, size - 15 + i, get_bit(bits, i));
        }
        self.set_function_module(8, size - 8, true);  // Always dark
    }

    /// Draws two copies of the version bits (with its own error correction code),
    /// based on this object's version field, iff 7 <= version <= 40.
    #[verifier::loop_isolation(false)]
    #[verifier::spinoff_prover]
    #[verifier::rlimit(40)]
    pub(crate) fn draw_version(&mut self)
        requires
            old(self).spec_marks_held(),
        ensures
            final(self).painted(
                old(self),
                |a: int, b: int| spec_version_bit_index(old(self).spec_version().spec_value(), a, b) >= 0,
                |a: int, b: int|
                    spec_bit(
                        spec_version_bits(old(self).spec_version().spec_value()),
                        spec_version_bit_index(old(self).spec_version().spec_value(), a, b),
                    ),
            ),
    {
        let ghost ver = self.spec_version().spec_value();
        let version: u8 = self.version().value();
        let size: i32 = self.size();
        if version < 7 {
            return ;
        }
        // Calculate error correction code and pack bits
        let data: u32 = version as u32;  // uint6, in the range [7, 40]
        let mut rem: u32 = data;
        for i in 0..12
            invariant
                rem < 4096,
                rem == spec_version_remainder(data, i as nat),
        {
            proof {
                lemma_version_step_exec(rem);
            }
            rem = (rem << 1) ^ ((rem >> 11) * 0x1F25);
        }
        let bits: u32 = (data << 12) | rem;  // uint18
        let ghost dark = |a: int, b: int| spec_bit(bits, spec_version_bit_index(ver, a, b));

        // Draw two copies
        for i in 0..18
            invariant
                size == self.spec_side(),
                size == spec_size(ver),
                7 <= ver <= 40,
                self.painted(old(self), |a: int, b: int| 0 <= spec_version_bit_index(ver, a, b) < i, dark),
        {
            let bit: bool = get_bit(bits, i);
            let a: i32 = size - 11 + i % 3;
            let b: i32 = i / 3;
            self.set_function_module(a, b, bit);
            self.set_function_module(b, a, bit);
        }
    }

    /// Reads this object's version field, and draws and marks all function modules.
    /// The format information is drawn for mask 0; the mask is chosen later.
    #[verifier::loop_isolation(false)]
    #[verifier::spinoff_prover]
    #[verifier::rlimit(40)]
    pub(crate) fn draw_function_patterns(&mut self)
        requires
            old(self).spec_marks_held(),
            forall|a: int, b: int| !old(self).spec_module(a, b),
            forall|a: int, b: int| !old(self).spec_is_function(a, b),
        ensures
            final(self).same_frame(old(self)),
            forall|a: int, b: int|
                final(self).spec_is_function(a, b) == spec_is_function_module(
                    old(self).spec_version().spec_value(),
                    a,
                    b,
                ),
            forall|a: int, b: int|
                final(self).spec_module(a, b) == (spec_is_function_module(
                    old(self).spec_version().spec_value(),
                    a,
                    b,
                ) && spec_function_dark(
                    old(self).spec_version().spec_value(),
                    old(self).spec_error_correction_level(),
                    0,
                    a,
                    b,
                )),
    {
        let ghost ver = self.spec_version().spec_value();
        // Draw horizontal and vertical timing patterns
        let size: i32 = self.size();
        for i in 0..size
            invariant
                size == self.spec_side(),
                self.painted(
                    old(self),
                    |a: int, b: int| (a == 6 && b < i) || (b == 6 && a < i),
                    |a: int, b: int| spec_timing_dark(a, b),
                ),
        {
            self.set_function_module(6, i, i % 2 == 0);
            self.set_function_module(i, 6, i % 2 == 0);
        }

        // Draw 3 finder patterns (all corners except bottom right; overwrites some timing modules)
        self.draw_finder_pattern(3, 3);
        self.draw_finder_pattern(size - 4, 3);
        self.draw_finder_pattern(3, size - 4);
        assert(self.painted(
            old(self),
            |a: int, b: int| spec_is_timing(a, b) || spec_is_finder(ver, a, b),
            |a: int, b: int|
                if spec_is_finder(ver, a, b) {
                    spec_finder_dark(ver, a, b)
                } else {
                    spec_timing_dark(a, b)
                },
        ));
        let ghost cornered = *self;

        // Draw numerous alignment patterns
        let alignpatpos: Vec<i32> = self.get_alignment_pattern_positions();
        let numalign: usize = alignpatpos.len();
        for i in 0..numalign
            invariant
                size == self.spec_side(),
                self.painted(
                    &cornered,
                    |a: int, b: int|
                        spec_is_alignment(ver, a, b) && spec_alignment_near(ver, a) < i,
                    |a: int, b: int| spec_alignment_dark(ver, a, b),
                ),
        {
            for j in 0..numalign
                invariant
                    size == self.spec_side(),
                    self.painted(
                        &cornered,
                        |a: int, b: int|
                            spec_is_alignment(ver, a, b) && (spec_alignment_near(ver, a) < i || (
                            spec_alignment_near(ver, a) == i && spec_alignment_near(ver, b) < j)),
                        |a: int, b: int| spec_alignment_dark(ver, a, b),
                    ),
            {
                // Don't draw on the three finder corners
                if !(i == 0 && j == 0 || i == 0 && j == numalign - 1 || i == numalign - 1 && j == 0) {
                    proof {
                        lemma_alignment_range(ver, i as int);
                        lemma_alignment_range(ver, j as int);
                        assert forall|a: int| (-2 <= a - alignpatpos@[i as int] <= 2) == (
                        #[trigger] spec_alignment_near(ver, a) == i) by {
                            lemma_alignment_near(ver, a, i as int);
                        }
                        assert forall|b: int| (-2 <= b - alignpatpos@[j as int] <= 2) == (
                        #[trigger] spec_alignment_near(ver, b) == j) by {
                            lemma_alignment_near(ver, b, j as int);
                        }
                    }
                    self.draw_alignment_pattern(alignpatpos[i], alignpatpos[j]);
                }
            }
        }
        assert(self.painted(
            old(self),
            |a: int, b: int| spec_is_timing(a, b) || spec_is_finder(ver, a, b) || spec_is_alignment(ver, a, b),
            |a: int, b: int|
                if spec_is_alignment(ver, a, b) {
                    spec_alignment_dark(ver, a, b)
                } else if spec_is_finder(ver, a, b) {
                    spec_finder_dark(ver, a, b)
                } else {
                    spec_timing_dark(a, b)
                },
        ));

        // Draw configuration data
        self.draw_format_bits(Mask::new(0));  // Dummy mask value; overwritten later in the constructor
        self.draw_version();
    }
}

} // verus!
