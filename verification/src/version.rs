//! The scalar parameters of a symbol: version, mask index and error correction level.

use vstd::prelude::*;

verus! {

/// A QR Code version number: an integer between 1 and 40 (inclusive).
#[derive(Copy, Clone, PartialEq, Eq, Structural, PartialOrd, Ord, Debug)]
pub struct Version(u8);

impl Version {
    /// The number held by this version, as a mathematical integer.
    pub closed spec fn spec_value(self) -> int {
        self.0 as int
    }

    /// A version lies in the standard's range; nothing outside it can be built.
    #[verifier::type_invariant]
    pub open spec fn in_range(self) -> bool {
        1 <= self.spec_value() <= 40
    }

    /// Two versions with the same number are the same version.
    pub proof fn lemma_same_value(self, other: Version)
        requires
            self.spec_value() == other.spec_value(),
        ensures
            self == other,
    {
    }

    /// The minimum version number supported in the QR Code Model 2 standard.
    pub fn min() -> (v: Version)
        ensures
            v.spec_value() == 1,
    {
        Version(1)
    }

    /// The maximum version number supported in the QR Code Model 2 standard.
    pub fn max() -> (v: Version)
        ensures
            v.spec_value() == 40,
    {
        Version(40)
    }

    /// Creates a version object from the given number, which must lie in [1, 40].
    pub fn new(ver: u8) -> (v: Version)
        requires
            1 <= ver <= 40,
        ensures
            v.spec_value() == ver,
    {
        Version(ver)
    }

    /// Returns the value, which is in the range [1, 40].
    pub fn value(self) -> (n: u8)
        ensures
            n == self.spec_value(),
            1 <= n <= 40,
    {
        proof {
            use_type_invariant(&self);
        }
        self.0
    }

    /// Returns the number of bytes that hold one bit per module of a symbol of
    /// this version, rounded up, plus one byte for the side length.
    pub fn buffer_len(self) -> (n: usize)
        ensures
            n == spec_buffer_len(self.spec_value()),
    {
        proof {
            use_type_invariant(&self);
        }
        let sidelen: usize = (self.0 as usize) * 4 + 17;
        assert(sidelen * sidelen <= 177 * 177) by (nonlinear_arith)
            requires
                sidelen <= 177,
        ;
        (sidelen * sidelen + 7) / 8 + 1
    }
}

/// The side length, in modules, of a symbol of the given version.
pub open spec fn spec_size(ver: int) -> int {
    4 * ver + 17
}

/// The byte count for a packed grid of the given version: one bit per module,
/// rounded up to whole bytes, and one more byte.
pub open spec fn spec_buffer_len(ver: int) -> int {
    (spec_size(ver) * spec_size(ver) + 7) / 8 + 1
}

/// A mask pattern index: an integer between 0 and 7 (inclusive).
#[derive(Copy, Clone, PartialEq, Eq, Structural, PartialOrd, Ord, Debug)]
pub struct Mask(u8);

impl Mask {
    /// The index held by this mask, as a mathematical integer.
    pub closed spec fn spec_value(self) -> int {
        self.0 as int
    }

    /// A mask index lies in [0, 7]; nothing outside it can be built.
    #[verifier::type_invariant]
    pub open spec fn in_range(self) -> bool {
        0 <= self.spec_value() <= 7
    }

    /// Creates a mask object from the given number, which must lie in [0, 7].
    pub fn new(mask: u8) -> (m: Mask)
        requires
            mask <= 7,
        ensures
            m.spec_value() == mask,
    {
        Mask(mask)
    }

    /// Returns the value, which is in the range [0, 7].
    pub fn value(self) -> (n: u8)
        ensures
            n == self.spec_value(),
            n <= 7,
    {
        proof {
            use_type_invariant(&self);
        }
        self.0
    }
}

/// The error correction level in a QR Code symbol.
#[derive(Clone, Copy, PartialEq, Eq, Structural, PartialOrd, Ord, Debug)]
pub enum QrCodeEcc {
    /// The QR Code can tolerate about  7% erroneous codewords.
    Low,
    /// The QR Code can tolerate about 15% erroneous codewords.
    Medium,
    /// The QR Code can tolerate about 25% erroneous codewords.
    Quartile,
    /// The QR Code can tolerate about 30% erroneous codewords.
    High,
}

impl QrCodeEcc {
    /// The row of this level in the capacity tables.
    pub open spec fn spec_ordinal(self) -> int {
        match self {
            QrCodeEcc::Low => 0,
            QrCodeEcc::Medium => 1,
            QrCodeEcc::Quartile => 2,
            QrCodeEcc::High => 3,
        }
    }

    /// The two bits that stand for this level in the format information.
    pub open spec fn spec_format_bits(self) -> int {
        match self {
            QrCodeEcc::Low => 1,
            QrCodeEcc::Medium => 0,
            QrCodeEcc::Quartile => 3,
            QrCodeEcc::High => 2,
        }
    }

    /// Returns an unsigned 2-bit integer (in the range 0 to 3): the table row.
    pub fn ordinal(self) -> (n: usize)
        ensures
            n == self.spec_ordinal(),
    {
        match self {
            QrCodeEcc::Low => 0,
            QrCodeEcc::Medium => 1,
            QrCodeEcc::Quartile => 2,
            QrCodeEcc::High => 3,
        }
    }

    /// Returns an unsigned 2-bit integer (in the range 0 to 3): the format bits.
    pub fn format_bits(self) -> (n: u8)
        ensures
            n == self.spec_format_bits(),
    {
        match self {
            QrCodeEcc::Low => 1,
            QrCodeEcc::Medium => 0,
            QrCodeEcc::Quartile => 3,
            QrCodeEcc::High => 2,
        }
    }
}

/// Whether bit `i` of `x` is set, counting from the least significant bit.
pub open spec fn spec_bit(x: u32, i: int) -> bool {
    (x >> (i as u32)) & 1 != 0
}

/// Returns true iff the i'th bit of x is set to 1.
pub fn get_bit(x: u32, i: i32) -> (b: bool)
    requires
        0 <= i < 32,
    ensures
        b == spec_bit(x, i as int),
{
    (x >> i) & 1 != 0
}

} // verus!
