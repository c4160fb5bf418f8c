//! The symbol itself: its scalar parameters and its grid of modules.

use vstd::prelude::*;
use crate::version::{spec_size, Mask, QrCodeEcc, Version};

verus! {

/// A QR Code symbol, which is a type of two-dimension barcode.
///
/// Instances of this struct represent an immutable square grid of dark and light cells.
/// The struct covers the QR Code Model 2 standard, supporting all versions
/// (sizes) from 1 to 40, all 4 error correction levels, and 4 character encoding modes.
///
/// Ways to create a QR Code object:
///
/// - High level: Take the payload data and call `QrCode::encode_text()` or `QrCode::encode_binary()`.
/// - Mid level: Custom-make the list of segments and call
///   `QrCode::encode_segments()` or `QrCode::encode_segments_advanced()`.
/// - Low level: Custom-make the array of data codeword bytes (including segment
///   headers and final padding, excluding error correction codewords), supply the
///   appropriate version number, and call the `QrCode::encode_codewords()` constructor.
///
/// (Note that all ways require supplying the desired error correction level.)
#[derive(PartialEq, Eq)]
pub struct QrCode {
    // The version number of this QR Code, which is between 1 and 40 (inclusive).
    pub(crate) version: Version,
    // The width and height of this QR Code, measured in modules: version * 4 + 17.
    pub(crate) size: i32,
    // The error correction level used in this QR Code.
    pub(crate) errorcorrectionlevel: QrCodeEcc,
    // The index of the mask pattern used in this QR Code.
    pub(crate) mask: Mask,
    // The modules of this QR Code (false = light, true = dark), row by row.
    pub(crate) modules: Vec<bool>,
    // Marks the function modules, which masking leaves alone. Emptied when the
    // symbol is finished.
    pub(crate) isfunction: Vec<bool>,
}

/// The place of module (x, y) in a grid of the given side that is stored row by row.
pub open spec fn spec_index(size: int, x: int, y: int) -> int {
    y * size + x
}

/// A module inside the grid has its place inside the stored rows, and two
/// different modules have different places.
pub proof fn lemma_index(size: int, x: int, y: int)
    requires
        0 <= x < size,
        0 <= y < size,
    ensures
        0 <= spec_index(size, x, y) < size * size,
        spec_index(size, x, y) / size == y,
        spec_index(size, x, y) % size == x,
{
    assert(0 <= y * size && y * size + size <= size * size) by (nonlinear_arith)
        requires
            0 <= y < size,
    ;
    vstd::arithmetic::div_mod::lemma_fundamental_div_mod_converse(y * size + x, size, y, x);
}

impl QrCode {
    /// The shape that every symbol has, finished or under construction.
    #[verifier::type_invariant]
    pub closed spec fn well_formed(&self) -> bool {
        &&& self.version.in_range()
        &&& self.mask.in_range()
        &&& self.size == spec_size(self.version.spec_value())
        &&& self.modules@.len() == self.size * self.size
        &&& (self.isfunction@.len() == 0 || self.isfunction@.len() == self.size * self.size)
    }

    /// The version of this symbol.
    pub closed spec fn spec_version(&self) -> Version {
        self.version
    }

    /// The side length of this symbol, in modules.
    pub closed spec fn spec_side(&self) -> int {
        self.size as int
    }

    /// The error correction level of this symbol.
    pub closed spec fn spec_error_correction_level(&self) -> QrCodeEcc {
        self.errorcorrectionlevel
    }

    /// The mask of this symbol.
    pub closed spec fn spec_mask(&self) -> Mask {
        self.mask
    }

    /// The colour of the module at (x, y): true for dark. Outside the grid it is light.
    pub closed spec fn spec_module(&self, x: int, y: int) -> bool {
        0 <= x < self.size && 0 <= y < self.size && self.modules@[spec_index(self.size as int, x, y)]
    }

    /// Whether the module at (x, y) is marked as a function module.
    pub closed spec fn spec_is_function(&self, x: int, y: int) -> bool {
        0 <= x < self.size && 0 <= y < self.size && self.isfunction@.len() > 0
            && self.isfunction@[spec_index(self.size as int, x, y)]
    }

    /// Outside the grid every module is light and unmarked.
    pub proof fn lemma_outside_is_light(&self, x: int, y: int)
        ensures
            !self.spec_inside(x, y) ==> !self.spec_module(x, y) && !self.spec_is_function(x, y),
    {
    }

    /// Whether the function module marks are still held.
    pub closed spec fn spec_marks_held(&self) -> bool {
        self.isfunction@.len() == self.size * self.size
    }

    /// Starts a symbol of the given version and level: every module light,
    /// none marked as a function module, the mask not yet chosen.
    pub(crate) fn blank(ver: Version, ecl: QrCodeEcc) -> (qr: QrCode)
        ensures
            qr.spec_version() == ver,
            qr.spec_error_correction_level() == ecl,
            qr.spec_side() == spec_size(ver.spec_value()),
            qr.spec_marks_held(),
            forall|a: int, b: int| !qr.spec_module(a, b),
            forall|a: int, b: int| !qr.spec_is_function(a, b),
    {
        let size: usize = (ver.value() as usize) * 4 + 17;
        assert(size * size <= 177 * 177) by (nonlinear_arith)
            requires
                size <= 177,
        ;
        let qr = QrCode {
            version: ver,
            size: size as i32,
            mask: Mask::new(0),  // Dummy value
            errorcorrectionlevel: ecl,
            modules: vec![false; size * size],  // Initially all light
            isfunction: vec![false; size * size],
        };
        proof {
            assert forall|a: int, b: int| !qr.spec_module(a, b) && !qr.spec_is_function(a, b) by {
                if 0 <= a < size && 0 <= b < size {
                    lemma_index(size as int, a, b);
                }
            }
        }
        qr
    }

    /// Records the mask that is applied to this symbol.
    pub(crate) fn set_mask(&mut self, mask: Mask)
        ensures
            final(self).spec_mask() == mask,
            final(self).spec_version() == old(self).spec_version(),
            final(self).spec_side() == old(self).spec_side(),
            final(self).spec_error_correction_level() == old(self).spec_error_correction_level(),
            final(self).spec_marks_held() == old(self).spec_marks_held(),
            forall|a: int, b: int| final(self).spec_module(a, b) == old(self).spec_module(a, b),
            forall|a: int, b: int| final(self).spec_is_function(a, b) == old(self).spec_is_function(a, b),
    {
        proof {
            use_type_invariant(&*self);
            use_type_invariant(&mask);
        }
        self.mask = mask;
    }

    /// Lets go of the function module marks: the symbol is finished. The
    /// marks are no longer held and no module is marked; the parameters and
    /// the colour of every module stay as they are.
    pub(crate) fn discard_marks(&mut self)
        ensures
            !final(self).spec_marks_held(),
            forall|a: int, b: int| !final(self).spec_is_function(a, b),
            final(self).spec_mask() == old(self).spec_mask(),
            final(self).spec_version() == old(self).spec_version(),
            final(self).spec_side() == old(self).spec_side(),
            final(self).spec_error_correction_level() == old(self).spec_error_correction_level(),
            forall|a: int, b: int| final(self).spec_module(a, b) == old(self).spec_module(a, b),
    {
        proof {
            use_type_invariant(&*self);
            assert(self.size * self.size >= 21 * 21) by (nonlinear_arith)
                requires
                    self.size >= 21,
            ;
        }
        self.isfunction = Vec::new();
    }

    /// Returns this QR Code's version, in the range [1, 40].
    pub fn version(&self) -> (v: Version)
        ensures
            v == self.spec_version(),
    {
        self.version
    }

    /// Returns this QR Code's size, in the range [21, 177].
    pub fn size(&self) -> (n: i32)
        ensures
            n == self.spec_side(),
            n == spec_size(self.spec_version().spec_value()),
            1 <= self.spec_version().spec_value() <= 40,
            21 <= n <= 177,
    {
        proof {
            use_type_invariant(self);
        }
        self.size
    }

    /// Returns this QR Code's error correction level.
    pub fn error_correction_level(&self) -> (e: QrCodeEcc)
        ensures
            e == self.spec_error_correction_level(),
    {
        self.errorcorrectionlevel
    }

    /// Returns this QR Code's mask, in the range [0, 7].
    pub fn mask(&self) -> (m: Mask)
        ensures
            m == self.spec_mask(),
    {
        self.mask
    }

    /// Returns the color of the module (pixel) at the given coordinates,
    /// which is `false` for light or `true` for dark.
    ///
    /// The top left corner has the coordinates (x=0, y=0). If the given
    /// coordinates are out of bounds, then `false` (light) is returned.
    pub fn get_module(&self, x: i32, y: i32) -> (dark: bool)
        ensures
            dark == self.spec_module(x as int, y as int),
            !self.spec_inside(x as int, y as int) ==> !dark,
    {
        proof {
            use_type_invariant(self);
        }
        0 <= x && x < self.size && 0 <= y && y < self.size && self.module(x, y)
    }

    /// Returns the color of the module at the given coordinates, which must be in bounds.
    pub(crate) fn module(&self, x: i32, y: i32) -> (dark: bool)
        requires
            0 <= x < self.spec_side(),
            0 <= y < self.spec_side(),
        ensures
            dark == self.spec_module(x as int, y as int),
    {
        proof {
            use_type_invariant(self);
            lemma_index(self.size as int, x as int, y as int);
            assert(self.size * self.size <= 177 * 177) by (nonlinear_arith)
                requires
                    0 <= self.size <= 177,
            ;
        }
        self.modules[(y * self.size + x) as usize]
    }

    /// Tells whether the module at the given coordinates, which must be in
    /// bounds, is marked as a function module.
    pub(crate) fn is_function(&self, x: i32, y: i32) -> (marked: bool)
        requires
            0 <= x < self.spec_side(),
            0 <= y < self.spec_side(),
            self.spec_marks_held(),
        ensures
            marked == self.spec_is_function(x as int, y as int),
    {
        proof {
            use_type_invariant(self);
            lemma_index(self.size as int, x as int, y as int);
            assert(self.size * self.size <= 177 * 177) by (nonlinear_arith)
                requires
                    0 <= self.size <= 177,
            ;
        }
        self.isfunction[(y * self.size + x) as usize]
    }

    /// Sets the color of the module at the given coordinates, which must be in bounds.
    pub(crate) fn set_module(&mut self, x: i32, y: i32, isdark: bool)
        requires
            0 <= x < old(self).spec_side(),
            0 <= y < old(self).spec_side(),
        ensures
            final(self).same_parameters(old(self)),
            forall|a: int, b: int|
                final(self).spec_is_function(a, b) == old(self).spec_is_function(a, b),
            forall|a: int, b: int|
                #![trigger final(self).spec_module(a, b)]
                final(self).spec_module(a, b) == if a == x && b == y {
                    isdark
                } else {
                    old(self).spec_module(a, b)
                },
    {
        proof {
            use_type_invariant(&*self);
            lemma_index(self.size as int, x as int, y as int);
            assert(self.size * self.size <= 177 * 177) by (nonlinear_arith)
                requires
                    0 <= self.size <= 177,
            ;
        }
        let i: usize = (y * self.size + x) as usize;
        self.modules[i] = isdark;
        proof {
            assert forall|a: int, b: int|
                self.spec_module(a, b) == if a == x && b == y {
                    isdark
                } else {
                    old(self).spec_module(a, b)
                } by {
                if 0 <= a < self.size && 0 <= b < self.size {
                    lemma_index(self.size as int, a, b);
                }
            }
        }
    }

    /// Sets the color of a module and marks it as a function module.
    /// Only used while the symbol is drawn. Coordinates must be in bounds.
    pub(crate) fn set_function_module(&mut self, x: i32, y: i32, isdark: bool)
        requires
            0 <= x < old(self).spec_side(),
            0 <= y < old(self).spec_side(),
            old(self).spec_marks_held(),
        ensures
            final(self).painted(old(self), |a: int, b: int| a == x && b == y, |a: int, b: int| isdark),
    {
        proof {
            use_type_invariant(&*self);
            lemma_index(self.size as int, x as int, y as int);
            assert(self.size * self.size <= 177 * 177) by (nonlinear_arith)
                requires
                    0 <= self.size <= 177,
            ;
        }
        let i: usize = (y * self.size + x) as usize;
        self.modules[i] = isdark;
        self.isfunction[i] = true;
        proof {
            assert forall|a: int, b: int|
                self.spec_module(a, b) == if a == x && b == y {
                    isdark
                } else {
                    old(self).spec_module(a, b)
                } by {
                if 0 <= a < self.size && 0 <= b < self.size {
                    lemma_index(self.size as int, a, b);
                }
            }
            assert forall|a: int, b: int|
                self.spec_is_function(a, b) == ((a == x && b == y) || old(self).spec_is_function(a, b)) by {
                if 0 <= a < self.size && 0 <= b < self.size {
                    lemma_index(self.size as int, a, b);
                }
            }
        }
    }

    /// This state comes from an earlier one by painting a region as function
    /// modules: inside the region, as far as it lies in the grid, each module
    /// has the colour that `dark` gives and is marked; outside it nothing changed.
    pub open spec fn painted(
        &self,
        before: &QrCode,
        region: spec_fn(int, int) -> bool,
        dark: spec_fn(int, int) -> bool,
    ) -> bool {
        &&& self.same_frame(before)
        &&& forall|a: int, b: int|
            #![trigger self.spec_module(a, b)]
            self.spec_module(a, b) == if self.spec_inside(a, b) && region(a, b) {
                dark(a, b)
            } else {
                before.spec_module(a, b)
            }
        &&& forall|a: int, b: int|
            #![trigger self.spec_is_function(a, b)]
            self.spec_is_function(a, b) == (self.spec_inside(a, b) && region(a, b)
                || before.spec_is_function(a, b))
    }

    /// Whether (x, y) lies in the grid of this symbol.
    pub open spec fn spec_inside(&self, x: int, y: int) -> bool {
        0 <= x < self.spec_side() && 0 <= y < self.spec_side()
    }

    /// Two states of one symbol under construction: same parameters, marks held in both.
    pub open spec fn same_frame(&self, other: &QrCode) -> bool {
        &&& self.same_parameters(other)
        &&& self.spec_marks_held()
        &&& other.spec_marks_held()
    }

    /// Two states of one symbol: same version, side, level, mask, and the
    /// function module marks held in both or in neither.
    pub open spec fn same_parameters(&self, other: &QrCode) -> bool {
        &&& self.spec_version() == other.spec_version()
        &&& self.spec_side() == other.spec_side()
        &&& self.spec_error_correction_level() == other.spec_error_correction_level()
        &&& self.spec_mask() == other.spec_mask()
        &&& self.spec_marks_held() == other.spec_marks_held()
    }
}

impl Clone for QrCode {
    /// Returns a symbol with the same parameters and the same modules.
    fn clone(&self) -> (copy: Self)
        ensures
            copy.same_parameters(self),
            forall|a: int, b: int| copy.spec_module(a, b) == self.spec_module(a, b),
            forall|a: int, b: int| copy.spec_is_function(a, b) == self.spec_is_function(a, b),
    {
        proof {
            use_type_invariant(self);
        }
        let modules: Vec<bool> = self.modules.clone();
        let isfunction: Vec<bool> = self.isfunction.clone();
        QrCode {
            version: self.version,
            size: self.size,
            errorcorrectionlevel: self.errorcorrectionlevel,
            mask: self.mask,
            modules: modules,
            isfunction: isfunction,
        }
    }
}

} // verus!
