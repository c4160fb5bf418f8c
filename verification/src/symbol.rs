//! The colour of every module of a finished symbol.

use vstd::prelude::*;
use crate::pattern::{spec_function_dark, spec_in_grid, spec_is_function_module};
use crate::version::{spec_bit, spec_size, QrCodeEcc};

verus! {

/// The right column of the pair of columns that holds column `x` in the
/// zigzag scan. The pairs go from the right edge to the left and skip
/// column 6, which holds a timing pattern.
pub open spec fn spec_pair_right(x: int) -> int {
    if x > 6 {
        if x % 2 == 0 {
            x
        } else {
            x + 1
        }
    } else {
        if x % 2 == 1 {
            x
        } else {
            x + 1
        }
    }
}

/// The pair of columns that the scan takes just before the pair with the
/// given right column.
pub open spec fn spec_pair_before(right: int) -> int {
    if right == 5 {
        8
    } else {
        right + 2
    }
}

/// Whether the scan goes up the pair of columns with the given right column.
/// The direction changes from each pair to the next.
pub open spec fn spec_upward(right: int) -> bool {
    ((right + 1) / 2) % 2 == 0
}

/// The row that the scan of a pair of columns reaches at its step `vert`.
pub open spec fn spec_scan_row(ver: int, right: int, vert: int) -> int {
    if spec_upward(right) {
        spec_size(ver) - 1 - vert
    } else {
        vert
    }
}

/// 1 if the module takes a codeword bit, 0 if it is a function module.
pub open spec fn spec_free(ver: int, x: int, y: int) -> int {
    if spec_is_function_module(ver, x, y) {
        0
    } else {
        1
    }
}

/// The number of modules that take codeword bits in the first `rows` rows
/// that the scan visits in the pair of columns with the given right column.
pub open spec fn spec_free_in_rows(ver: int, right: int, rows: int) -> int
    decreases rows,
{
    if rows <= 0 {
        0
    } else {
        let y = spec_scan_row(ver, right, rows - 1);
        spec_free_in_rows(ver, right, rows - 1) + spec_free(ver, right, y) + spec_free(ver, right - 1, y)
    }
}

/// The number of modules that take codeword bits in the pairs of columns
/// that the scan visits before the pair with the given right column.
pub open spec fn spec_free_before_pair(ver: int, right: int) -> int
    decreases spec_size(ver) - right,
{
    if right >= spec_size(ver) - 1 {
        0
    } else {
        spec_free_before_pair(ver, spec_pair_before(right)) + spec_free_in_rows(
            ver,
            spec_pair_before(right),
            spec_size(ver),
        )
    }
}

/// The index of the codeword bit that the module (x, y) shows, if it is no
/// function module: the number of such modules that the zigzag scan visits
/// before it. The scan takes the pairs of columns from the right, each pair
/// row by row, upward and downward in turn, and in each row the right
/// module before the left one.
pub open spec fn spec_codeword_bit_index(ver: int, x: int, y: int) -> int {
    let right = spec_pair_right(x);
    let vert = if spec_upward(right) {
        spec_size(ver) - 1 - y
    } else {
        y
    };
    spec_free_before_pair(ver, right) + spec_free_in_rows(ver, right, vert) + (if x < right {
        spec_free(ver, right, y)
    } else {
        0
    })
}

/// The colour that the codewords give to the module (x, y), if it is no
/// function module: bit by bit in scan order, each codeword from its most
/// significant bit down. Modules beyond the last codeword stay light.
pub open spec fn spec_codeword_dark(ver: int, codewords: Seq<u8>, x: int, y: int) -> bool {
    let k = spec_codeword_bit_index(ver, x, y);
    k < 8 * codewords.len() && spec_bit(codewords[k / 8] as u32, 7 - k % 8)
}

/// Whether the mask with the given index inverts the module (x, y).
pub open spec fn spec_mask_bit(mask: int, x: int, y: int) -> bool {
    if mask == 0 {
        (x + y) % 2 == 0
    } else if mask == 1 {
        y % 2 == 0
    } else if mask == 2 {
        x % 3 == 0
    } else if mask == 3 {
        (x + y) % 3 == 0
    } else if mask == 4 {
        (x / 3 + y / 2) % 2 == 0
    } else if mask == 5 {
        x * y % 2 + x * y % 3 == 0
    } else if mask == 6 {
        (x * y % 2 + x * y % 3) % 2 == 0
    } else {
        ((x + y) % 2 + x * y % 3) % 2 == 0
    }
}

/// The colour of a module after the mask is applied: function modules keep
/// their colour, the others are inverted where the mask says so.
pub open spec fn spec_masked(dark: bool, function: bool, mask: int, x: int, y: int) -> bool {
    dark != (!function && spec_mask_bit(mask, x, y))
}

/// Mask involution: applying a mask twice gives every module its colour back.
pub proof fn lemma_mask_involution(dark: bool, function: bool, mask: int, x: int, y: int)
    ensures
        spec_masked(spec_masked(dark, function, mask, x, y), function, mask, x, y) == dark,
{
}

/// The colour of the module (x, y) of the finished symbol of the given
/// version and level that shows the given codewords (data and error
/// correction, interleaved) under the given mask. Outside the grid every
/// module is light.
pub open spec fn spec_symbol_module(
    ver: int,
    ecl: QrCodeEcc,
    codewords: Seq<u8>,
    mask: int,
    x: int,
    y: int,
) -> bool {
    if !spec_in_grid(ver, x, y) {
        false
    } else if spec_is_function_module(ver, x, y) {
        spec_function_dark(ver, ecl, mask, x, y)
    } else {
        spec_masked(spec_codeword_dark(ver, codewords, x, y), false, mask, x, y)
    }
}

} // verus!
