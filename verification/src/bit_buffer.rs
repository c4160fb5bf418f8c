//! An appendable sequence of bits, and the bit strings of numbers.

use vstd::prelude::*;
use vstd::arithmetic::power2::{lemma2_to64, lemma_pow2_strictly_increases, pow2};
use vstd::bits::lemma_u32_shr_is_div;
use crate::version::{get_bit, spec_bit};

verus! {

/// The `len` low-order bits of `val`, most significant bit first.
pub open spec fn spec_bits(val: u32, len: nat) -> Seq<bool> {
    Seq::new(len, |i: int| spec_bit(val, len - 1 - i))
}

/// A value below `2^len` has no bit set at or above position `len`.
pub proof fn lemma_value_fits(val: u32, len: u8)
    requires
        len <= 31,
        val < pow2(len as nat),
    ensures
        val >> len == 0,
{
    lemma_u32_shr_is_div(val, len as u32);
    lemma_pow2_strictly_increases(len as nat, 32);
    lemma2_to64();
    vstd::arithmetic::div_mod::lemma_basic_div(val as int, pow2(len as nat) as int);
}

/// An appendable sequence of bits (0s and 1s).
///
/// Mainly used by QrSegment.
pub struct BitBuffer(pub Vec<bool>);

impl View for BitBuffer {
    type V = Seq<bool>;

    open spec fn view(&self) -> Seq<bool> {
        self.0@
    }
}

impl BitBuffer {
    /// Creates an empty bit buffer.
    pub fn new() -> (bb: BitBuffer)
        ensures
            bb@ == Seq::<bool>::empty(),
    {
        BitBuffer(Vec::new())
    }

    /// Returns the length of this bit buffer, in bits.
    pub fn len(&self) -> (n: usize)
        ensures
            n == self@.len(),
    {
        self.0.len()
    }

    /// Appends the given number of low-order bits of the given value to this buffer.
    ///
    /// Requires len &#x2264; 31 and val &lt; 2<sup>len</sup>.
    pub fn append_bits(&mut self, val: u32, len: u8)
        requires
            len <= 31,
            val >> len == 0,
        ensures
            final(self)@ == old(self)@ + spec_bits(val, len as nat),
    {
        let mut i: u8 = len;
        while i > 0
            invariant
                i <= len <= 31,
                self@ == old(self)@ + spec_bits(val, len as nat).take(len - i),
            decreases i,
        {
            i -= 1;
            let bit: bool = get_bit(val, i as i32);
            self.0.push(bit);  // Append bit by bit
        }
    }
}

} // verus!
