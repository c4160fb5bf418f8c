//! Drawing the codewords onto a symbol under construction, and masking them.

use vstd::prelude::*;
use crate::pattern::spec_is_function_module;
use crate::qr_code::QrCode;
use crate::symbol::{
    spec_codeword_dark, spec_free, spec_free_before_pair, spec_free_in_rows, spec_masked,
    spec_pair_right, spec_scan_row, spec_upward,
};
use crate::tables::spec_num_raw_codewords;
use crate::version::{get_bit, spec_size, Mask};

verus! {

proof fn lemma_upward_exec(r: u32)
    by (bit_vector)
    requires
        r <= 200,
    ensures
        ((r + 1) as u32 & 2 == 0) == (((r + 1) / 2) % 2 == 0),
{
}

impl QrCode {
    /// Draws the given sequence of 8-bit codewords (data and error correction) onto the entire
    /// data area of this QR Code. Function modules need to be marked off before this is called,
    /// and the other modules need to be light.
    #[verifier::spinoff_prover]
    #[verifier::rlimit(40)]
    pub(crate) fn draw_codewords(&mut self, data: &[u8])
        requires
            old(self).spec_marks_held(),
            data@.len() == spec_num_raw_codewords(old(self).spec_version().spec_value()),
            forall|a: int, b: int|
                old(self).spec_is_function(a, b) == spec_is_function_module(
                    old(self).spec_version().spec_value(),
                    a,
                    b,
                ),
            forall|a: int, b: int| !old(self).spec_is_function(a, b) ==> !old(self).spec_module(a, b),
        ensures
            final(self).same_frame(old(self)),
            forall|a: int, b: int| final(self).spec_is_function(a, b) == old(self).spec_is_function(a, b),
            forall|a: int, b: int|
                #![trigger final(self).spec_module(a, b)]
                final(self).spec_module(a, b) == if old(self).spec_is_function(a, b) {
                    old(self).spec_module(a, b)
                } else {
                    old(self).spec_inside(a, b) && spec_codeword_dark(
                        old(self).spec_version().spec_value(),
                        data@,
                        a,
                        b,
                    )
                },
    {
        let ghost ver = self.spec_version().spec_value();
        let size: i32 = self.size();
        proof {
            crate::tables::lemma_raw_data_modules_bounds(ver);
        }
        let nbits: usize = data.len() * 8;
        let mut i: usize = 0;  // Bit index into the data
        let ghost mut seen: int = 0;
        // Do the funny zigzag scan
        let mut right: i32 = size - 1;
        while right >= 1  // Index of right column in each column pair
            invariant
                1 <= ver <= 40,
                size == spec_size(ver),
                size == self.spec_side(),
                self.same_frame(old(self)),
                nbits == data@.len() * 8,
                nbits <= 29648,
                -1 <= right <= size - 1,
                right >= 6 ==> right % 2 == 0,
                right < 6 ==> right % 2 != 0,
                seen == spec_free_before_pair(
                    ver,
                    if right == 6 {
                        5
                    } else {
                        right as int
                    },
                ),
                0 <= seen,
                i == (if seen < nbits {
                    seen
                } else {
                    nbits as int
                }),
                forall|a: int, b: int|
                    old(self).spec_is_function(a, b) == spec_is_function_module(ver, a, b),
                forall|a: int, b: int| !old(self).spec_is_function(a, b) ==> !old(self).spec_module(a, b),
                forall|a: int, b: int| self.spec_is_function(a, b) == old(self).spec_is_function(a, b),
                forall|a: int, b: int|
                    #![trigger self.spec_module(a, b)]
                    self.spec_module(a, b) == if old(self).spec_is_function(a, b) {
                        old(self).spec_module(a, b)
                    } else {
                        self.spec_inside(a, b) && spec_pair_right(a) > right && spec_codeword_dark(
                            ver,
                            data@,
                            a,
                            b,
                        )
                    },
            decreases right + 1,
        {
            if right == 6 {
                right = 5;
            }
            proof {
                lemma_upward_exec(right as u32);
            }
            let upward: bool = (right + 1) & 2 == 0;
            let ghost base = seen;
            for vert in 0..size  // Vertical counter
                invariant
                    1 <= ver <= 40,
                    size == spec_size(ver),
                    size == self.spec_side(),
                    self.same_frame(old(self)),
                    nbits == data@.len() * 8,
                    nbits <= 29648,
                    1 <= right <= size - 1,
                    right != 6,
                    right >= 6 ==> right % 2 == 0,
                    right < 6 ==> right % 2 != 0,
                    upward == spec_upward(right as int),
                    base == spec_free_before_pair(ver, right as int),
                    seen == base + spec_free_in_rows(ver, right as int, vert as int),
                    0 <= base <= seen,
                    i == (if seen < nbits {
                        seen
                    } else {
                        nbits as int
                    }),
                    forall|a: int, b: int|
                        old(self).spec_is_function(a, b) == spec_is_function_module(ver, a, b),
                    forall|a: int, b: int|
                        !old(self).spec_is_function(a, b) ==> !old(self).spec_module(a, b),
                    forall|a: int, b: int| self.spec_is_function(a, b) == old(self).spec_is_function(a, b),
                    forall|a: int, b: int|
                        #![trigger self.spec_module(a, b)]
                        self.spec_module(a, b) == if old(self).spec_is_function(a, b) {
                            old(self).spec_module(a, b)
                        } else {
                            self.spec_inside(a, b) && (spec_pair_right(a) > right || (spec_pair_right(a)
                                == right && (if upward {
                                size - 1 - b
                            } else {
                                b
                            }) < vert)) && spec_codeword_dark(ver, data@, a, b)
                        },
            {
                let y: i32 = if upward {
                    size - 1 - vert
                } else {
                    vert
                };  // Actual y coordinate
                let ghost row_base = seen;
                for j in 0..2
                    invariant
                        1 <= ver <= 40,
                        size == spec_size(ver),
                        size == self.spec_side(),
                        self.same_frame(old(self)),
                        nbits == data@.len() * 8,
                        nbits <= 29648,
                        1 <= right <= size - 1,
                        right != 6,
                        right >= 6 ==> right % 2 == 0,
                        right < 6 ==> right % 2 != 0,
                        0 <= vert < size,
                        upward == spec_upward(right as int),
                        y == spec_scan_row(ver, right as int, vert as int),
                        base == spec_free_before_pair(ver, right as int),
                        row_base == base + spec_free_in_rows(ver, right as int, vert as int),
                        seen == row_base + (if j >= 1 {
                            spec_free(ver, right as int, y as int)
                        } else {
                            0
                        }) + (if j >= 2 {
                            spec_free(ver, right - 1, y as int)
                        } else {
                            0
                        }),
                        0 <= base <= row_base <= seen,
                        i == (if seen < nbits {
                            seen
                        } else {
                            nbits as int
                        }),
                        forall|a: int, b: int|
                            old(self).spec_is_function(a, b) == spec_is_function_module(ver, a, b),
                        forall|a: int, b: int|
                            !old(self).spec_is_function(a, b) ==> !old(self).spec_module(a, b),
                        forall|a: int, b: int|
                            self.spec_is_function(a, b) == old(self).spec_is_function(a, b),
                        forall|a: int, b: int|
                            #![trigger self.spec_module(a, b)]
                            self.spec_module(a, b) == if old(self).spec_is_function(a, b) {
                                old(self).spec_module(a, b)
                            } else {
                                self.spec_inside(a, b) && (spec_pair_right(a) > right || (
                                spec_pair_right(a) == right && ((if upward {
                                    size - 1 - b
                                } else {
                                    b
                                }) < vert || (b == y && right - a < j)))) && spec_codeword_dark(
                                    ver,
                                    data@,
                                    a,
                                    b,
                                )
                            },
                {
                    let x: i32 = right - j;  // Actual x coordinate
                    let marked: bool = self.is_function(x, y);
                    if !marked {
                        if i < nbits {
                            let bit: bool = get_bit(data[i / 8] as u32, 7 - (i % 8) as i32);
                            self.set_module(x, y, bit);
                            i += 1;
                        }
                        proof {
                            seen = seen + 1;
                        }
                    }
                    // If this QR Code has any remainder bits (0 to 7), they were assigned as
                    // 0/false/light by the constructor and are left unchanged by this method

                }
            }
            proof {
                assert forall|a: int, b: int|
                    #![trigger self.spec_module(a, b)]
                    self.spec_module(a, b) == if old(self).spec_is_function(a, b) {
                        old(self).spec_module(a, b)
                    } else {
                        self.spec_inside(a, b) && spec_pair_right(a) > right - 2 && spec_codeword_dark(
                            ver,
                            data@,
                            a,
                            b,
                        )
                    } by {
                    if self.spec_inside(a, b) && !old(self).spec_is_function(a, b) {
                        assert(!spec_is_function_module(ver, a, b));
                    }
                }
            }
            right -= 2;
        }
        proof {
            crate::filling::lemma_free_modules(ver);
        }
    }

    /// XORs the codeword modules in this QR Code with the given mask pattern.
    /// The function modules must be marked and the codeword bits must be drawn
    /// before masking. Due to the arithmetic of XOR, calling apply_mask() with
    /// the same mask value a second time will undo the mask. A final well-formed
    /// QR Code needs exactly one (not zero, two, etc.) mask applied.
    #[verifier::spinoff_prover]
    #[verifier::rlimit(40)]
    pub(crate) fn apply_mask(&mut self, mask: Mask)
        requires
            old(self).spec_marks_held(),
        ensures
            final(self).masked_from(old(self), mask.spec_value()),
    {
        let size: i32 = self.size();
        let m: u8 = mask.value();
        for y in 0..size
            invariant
                size == self.spec_side(),
                21 <= size <= 177,
                m == mask.spec_value(),
                self.same_frame(old(self)),
                forall|a: int, b: int| self.spec_is_function(a, b) == old(self).spec_is_function(a, b),
                forall|a: int, b: int|
                    #![trigger self.spec_module(a, b)]
                    self.spec_module(a, b) == if self.spec_inside(a, b) && b < y {
                        spec_masked(old(self).spec_module(a, b), old(self).spec_is_function(a, b), m as int, a, b)
                    } else {
                        old(self).spec_module(a, b)
                    },
        {
            for x in 0..size
                invariant
                    size == self.spec_side(),
                    21 <= size <= 177,
                    0 <= y < size,
                    m == mask.spec_value(),
                    self.same_frame(old(self)),
                    forall|a: int, b: int| self.spec_is_function(a, b) == old(self).spec_is_function(a, b),
                    forall|a: int, b: int|
                        #![trigger self.spec_module(a, b)]
                        self.spec_module(a, b) == if self.spec_inside(a, b) && (b < y || (b == y && a
                            < x)) {
                            spec_masked(
                                old(self).spec_module(a, b),
                                old(self).spec_is_function(a, b),
                                m as int,
                                a,
                                b,
                            )
                        } else {
                            old(self).spec_module(a, b)
                        },
            {
                assert(0 <= x * y <= 176 * 176) by (nonlinear_arith)
                    requires
                        0 <= x <= 176,
                        0 <= y <= 176,
                ;
                let invert: bool = match m {
                    0 => (x + y) % 2 == 0,
                    1 => y % 2 == 0,
                    2 => x % 3 == 0,
                    3 => (x + y) % 3 == 0,
                    4 => (x / 3 + y / 2) % 2 == 0,
                    5 => x * y % 2 + x * y % 3 == 0,
                    6 => (x * y % 2 + x * y % 3) % 2 == 0,
                    _ => ((x + y) % 2 + x * y % 3) % 2 == 0,
                };
                let marked: bool = self.is_function(x, y);
                let dark: bool = self.module(x, y);
                self.set_module(x, y, dark != (invert && !marked));
            }
        }
        proof {
            assert forall|a: int, b: int|
                #![trigger self.spec_module(a, b)]
                self.spec_module(a, b) == (old(self).spec_inside(a, b) && spec_masked(
                    old(self).spec_module(a, b),
                    old(self).spec_is_function(a, b),
                    mask.spec_value(),
                    a,
                    b,
                )) by {
                old(self).lemma_outside_is_light(a, b);
            }
        }
    }

    /// This state comes from an earlier one by applying the mask: function
    /// modules kept their colour, the others are inverted where the mask says so.
    pub open spec fn masked_from(&self, before: &QrCode, mask: int) -> bool {
        &&& self.same_frame(before)
        &&& forall|a: int, b: int| self.spec_is_function(a, b) == before.spec_is_function(a, b)
        &&& forall|a: int, b: int|
            #![trigger self.spec_module(a, b)]
            self.spec_module(a, b) == (before.spec_inside(a, b) && spec_masked(
                before.spec_module(a, b),
                before.spec_is_function(a, b),
                mask,
                a,
                b,
            ))
    }

    /// Mask involution on whole grids: a grid that comes from another by
    /// applying the same mask twice has every module as it was.
    pub proof fn lemma_masked_twice(&self, once: &QrCode, before: &QrCode, mask: int)
        requires
            once.masked_from(before, mask),
            self.masked_from(once, mask),
        ensures
            forall|a: int, b: int| self.spec_module(a, b) == before.spec_module(a, b),
            forall|a: int, b: int| self.spec_is_function(a, b) == before.spec_is_function(a, b),
    {
        assert forall|a: int, b: int| self.spec_module(a, b) == before.spec_module(a, b) by {
            before.lemma_outside_is_light(a, b);
        }
    }
}

} // verus!
