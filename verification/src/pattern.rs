//! The function patterns of a symbol: which modules they take and how they
//! colour them.

use vstd::prelude::*;
use crate::alignment::{spec_alignment_near, spec_alignment_position};
use crate::tables::spec_num_align;
use crate::version::{spec_bit, spec_size, QrCodeEcc};

verus! {

/// The absolute value of an integer.
pub open spec fn spec_abs(a: int) -> int {
    if a < 0 {
        -a
    } else {
        a
    }
}

/// The Chebyshev distance of an offset from the origin.
pub open spec fn spec_ring(dx: int, dy: int) -> int {
    if spec_abs(dx) >= spec_abs(dy) {
        spec_abs(dx)
    } else {
        spec_abs(dy)
    }
}

/// Whether (x, y) lies in the grid of a symbol of the given version.
pub open spec fn spec_in_grid(ver: int, x: int, y: int) -> bool {
    0 <= x < spec_size(ver) && 0 <= y < spec_size(ver)
}

/// Whether (x, y) lies on one of the two timing patterns: column 6 and row 6.
pub open spec fn spec_is_timing(x: int, y: int) -> bool {
    x == 6 || y == 6
}

/// The colour of a timing module: dark and light in turn, dark at even places.
pub open spec fn spec_timing_dark(x: int, y: int) -> bool {
    if x == 6 {
        y % 2 == 0
    } else {
        x % 2 == 0
    }
}

/// Whether (x, y) lies in one of the three finder patterns with their
/// separators: the 8 by 8 corners of the grid but the bottom right one.
pub open spec fn spec_is_finder(ver: int, x: int, y: int) -> bool {
    let far = spec_size(ver) - 8;
    (x <= 7 || x >= far) && (y <= 7 || y >= far) && !(x >= far && y >= far)
}

/// The colour of a module of a finder pattern: dark unless its Chebyshev
/// distance from the pattern's centre is 2 or 4.
pub open spec fn spec_finder_dark(ver: int, x: int, y: int) -> bool {
    let cx = if x <= 7 {
        3
    } else {
        spec_size(ver) - 4
    };
    let cy = if y <= 7 {
        3
    } else {
        spec_size(ver) - 4
    };
    spec_ring(x - cx, y - cy) != 2 && spec_ring(x - cx, y - cy) != 4
}

/// Whether an alignment pattern is drawn round the pair of alignment
/// positions with the given indices: round every pair but the three that
/// fall on finder patterns.
pub open spec fn spec_alignment_drawn(ver: int, i: int, j: int) -> bool {
    let last = spec_num_align(ver) - 1;
    &&& 0 <= i <= last
    &&& 0 <= j <= last
    &&& !(i == 0 && j == 0 || i == 0 && j == last || i == last && j == 0)
}

/// Whether (x, y) lies in one of the 5 by 5 alignment patterns.
pub open spec fn spec_is_alignment(ver: int, x: int, y: int) -> bool {
    spec_alignment_drawn(ver, spec_alignment_near(ver, x), spec_alignment_near(ver, y))
}

/// The colour of a module of an alignment pattern: dark unless its Chebyshev
/// distance from the pattern's centre is 1.
pub open spec fn spec_alignment_dark(ver: int, x: int, y: int) -> bool {
    spec_ring(
        x - spec_alignment_position(ver, spec_alignment_near(ver, x)),
        y - spec_alignment_position(ver, spec_alignment_near(ver, y)),
    ) != 1
}

/// The place of (x, y) in the format information: the index, from 0 to 14,
/// of the format bit that it shows; 15 for the module that is always dark;
/// -1 for a module outside the format information. Each bit stands twice,
/// once beside the top left finder pattern and once split between the other two.
pub open spec fn spec_format_bit_index(ver: int, x: int, y: int) -> int {
    let size = spec_size(ver);
    if x == 8 && 0 <= y <= 5 {
        y
    } else if x == 8 && y == 7 {
        6
    } else if x == 8 && y == 8 {
        7
    } else if x == 7 && y == 8 {
        8
    } else if y == 8 && 0 <= x <= 5 {
        14 - x
    } else if y == 8 && size - 8 <= x <= size - 1 {
        size - 1 - x
    } else if x == 8 && size - 7 <= y <= size - 1 {
        y - (size - 15)
    } else if x == 8 && y == size - 8 {
        15
    } else {
        -1
    }
}

/// The place of (x, y) in the version information: the index, from 0 to 17,
/// of the version bit that it shows; -1 for a module outside it. Versions
/// below 7 have no version information. Each bit stands twice, in a 3 by 6
/// block above the bottom left finder pattern and in its mirror image.
pub open spec fn spec_version_bit_index(ver: int, x: int, y: int) -> int {
    let low = spec_size(ver) - 11;
    if ver < 7 {
        -1
    } else if low <= x <= low + 2 && 0 <= y <= 5 {
        y * 3 + (x - low)
    } else if 0 <= x <= 5 && low <= y <= low + 2 {
        x * 3 + (y - low)
    } else {
        -1
    }
}

/// One step of the division that gives the format information its error
/// correction: a remainder of ten bits, doubled and reduced by 0x537.
pub open spec fn spec_format_step(rem: u32) -> u32 {
    if rem >> 9 == 0 {
        rem << 1
    } else {
        (rem << 1) ^ 0x537
    }
}

/// The remainder of the format data after the given number of steps.
pub open spec fn spec_format_remainder(data: u32, steps: nat) -> u32
    decreases steps,
{
    if steps == 0 {
        data
    } else {
        spec_format_step(spec_format_remainder(data, (steps - 1) as nat))
    }
}

/// The five data bits of the format information: the two bits of the error
/// correction level above the three bits of the mask.
pub open spec fn spec_format_data(ecl: QrCodeEcc, mask: int) -> u32 {
    (((ecl.spec_format_bits() as u8) << 3) | (mask as u8)) as u32
}

/// The 15 bits of the format information: the data, its ten bits of error
/// correction under the generator 0x537, all masked with 0x5412.
pub open spec fn spec_format_bits(ecl: QrCodeEcc, mask: int) -> u32 {
    let data = spec_format_data(ecl, mask);
    ((data << 10) | spec_format_remainder(data, 10)) ^ 0x5412
}

/// One step of the division that gives the version information its error
/// correction: a remainder of twelve bits, doubled and reduced by 0x1F25.
pub open spec fn spec_version_step(rem: u32) -> u32 {
    if rem >> 11 == 0 {
        rem << 1
    } else {
        (rem << 1) ^ 0x1F25
    }
}

/// The remainder of the version number after the given number of steps.
pub open spec fn spec_version_remainder(data: u32, steps: nat) -> u32
    decreases steps,
{
    if steps == 0 {
        data
    } else {
        spec_version_step(spec_version_remainder(data, (steps - 1) as nat))
    }
}

/// The 18 bits of the version information: the six bits of the version
/// number and their twelve bits of error correction under the generator 0x1F25.
pub open spec fn spec_version_bits(ver: int) -> u32 {
    ((ver as u32) << 12) | spec_version_remainder(ver as u32, 12)
}

/// Whether (x, y) is a function module of a symbol of the given version: a
/// module of a timing, finder or alignment pattern or of the format or
/// version information.
pub open spec fn spec_is_function_module(ver: int, x: int, y: int) -> bool {
    spec_in_grid(ver, x, y) && (spec_is_timing(x, y) || spec_is_finder(ver, x, y) || spec_is_alignment(
        ver,
        x,
        y,
    ) || spec_format_bit_index(ver, x, y) >= 0 || spec_version_bit_index(ver, x, y) >= 0)
}

/// The colour of a function module when the format information is that of
/// the given error correction level and mask. Where patterns share a
/// module, the version information goes before the format information,
/// that before the alignment patterns, those before the finder patterns and
/// those before the timing patterns.
pub open spec fn spec_function_dark(ver: int, ecl: QrCodeEcc, mask: int, x: int, y: int) -> bool {
    if spec_version_bit_index(ver, x, y) >= 0 {
        spec_bit(spec_version_bits(ver), spec_version_bit_index(ver, x, y))
    } else if spec_format_bit_index(ver, x, y) >= 0 {
        spec_format_bit_index(ver, x, y) == 15 || spec_bit(
            spec_format_bits(ecl, mask),
            spec_format_bit_index(ver, x, y),
        )
    } else if spec_is_alignment(ver, x, y) {
        spec_alignment_dark(ver, x, y)
    } else if spec_is_finder(ver, x, y) {
        spec_finder_dark(ver, x, y)
    } else {
        spec_timing_dark(x, y)
    }
}

} // verus!
