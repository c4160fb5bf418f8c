//! Reed-Solomon error correction over GF(2^8) with the field modulus 0x11D.

use vstd::prelude::*;
use crate::qr_code::QrCode;

verus! {

/// A field element times the generator element 0x02: a shift to the left,
/// folded back with 0x1D when the top bit falls off.
pub open spec fn spec_gf_double(z: u8) -> u8 {
    if z >= 0x80 {
        (z << 1) ^ 0x1D
    } else {
        z << 1
    }
}

/// The product of `x` and the top `n` bits of `y`, by doubling and adding
/// from the most significant bit down.
pub open spec fn spec_multiply_bits(x: u8, y: u8, n: nat) -> u8
    decreases n,
{
    if n == 0 {
        0
    } else {
        let z = spec_multiply_bits(x, y, (n - 1) as nat);
        if (y >> ((8 - n) as u8)) & 1 == 1 {
            spec_gf_double(z) ^ x
        } else {
            spec_gf_double(z)
        }
    }
}

/// The product of two field elements modulo GF(2^8/0x11D).
pub open spec fn spec_multiply(x: u8, y: u8) -> u8 {
    spec_multiply_bits(x, y, 8)
}

/// The `i`-th power of the generator element 0x02.
pub open spec fn spec_generator_power(i: nat) -> u8
    decreases i,
{
    if i == 0 {
        1
    } else {
        spec_multiply(spec_generator_power((i - 1) as nat), 0x02)
    }
}

/// The polynomial `p` times `(x - root)`, both without their leading
/// coefficient 1, coefficients from the highest power down. `p` may have
/// leading zeros that make room for the product.
pub open spec fn spec_times_linear(p: Seq<u8>, root: u8) -> Seq<u8> {
    Seq::new(
        p.len(),
        |j: int|
            if j + 1 < p.len() {
                spec_multiply(p[j], root) ^ p[j + 1]
            } else {
                spec_multiply(p[j], root)
            },
    )
}

/// The polynomial of the given degree that is 1, written without a leading coefficient.
pub open spec fn spec_monomial_one(degree: nat) -> Seq<u8> {
    Seq::new(
        degree,
        |j: int|
            if j + 1 == degree {
                1u8
            } else {
                0u8
            },
    )
}

/// The product of the first `k` factors `(x - 2^i)`, in `degree` coefficients.
pub open spec fn spec_divisor_product(degree: nat, k: nat) -> Seq<u8>
    decreases k,
{
    if k == 0 {
        spec_monomial_one(degree)
    } else {
        spec_times_linear(spec_divisor_product(degree, (k - 1) as nat), spec_generator_power((k - 1) as nat))
    }
}

/// The Reed-Solomon divisor polynomial of the given degree: the product of
/// `(x - 2^i)` for `i` in `[0, degree)`, as `degree` coefficients from the
/// highest power down, the leading 1 left out.
pub open spec fn spec_divisor(degree: nat) -> Seq<u8> {
    spec_divisor_product(degree, degree)
}

/// A run of `n` zero bytes.
pub open spec fn spec_zeros(n: nat) -> Seq<u8> {
    Seq::new(n, |i: int| 0u8)
}

/// One step of polynomial long division: the accumulator `r` after the byte `b`.
pub open spec fn spec_remainder_step(r: Seq<u8>, divisor: Seq<u8>, b: u8) -> Seq<u8> {
    let factor = b ^ r[0];
    Seq::new(
        r.len(),
        |i: int|
            if i + 1 < r.len() {
                r[i + 1] ^ spec_multiply(divisor[i], factor)
            } else {
                spec_multiply(divisor[i], factor)
            },
    )
}

/// The remainder of the data polynomial, shifted up by the divisor's degree,
/// divided by the divisor: the error correction codewords of the data.
pub open spec fn spec_remainder(data: Seq<u8>, divisor: Seq<u8>) -> Seq<u8>
    decreases data.len(),
{
    if data.len() == 0 {
        spec_zeros(divisor.len())
    } else {
        spec_remainder_step(spec_remainder(data.drop_last(), divisor), divisor, data.last())
    }
}

proof fn lemma_double_exec(z: u8)
    by (bit_vector)
    ensures
        (z >> 7) <= 1,
        (z << 1) ^ ((z >> 7) * 0x1D) as u8 == (if z >= 0x80 {
            (z << 1) ^ 0x1D
        } else {
            z << 1
        }),
{
}

proof fn lemma_select_exec(y: u8, i: u8)
    by (bit_vector)
    requires
        i < 8,
    ensures
        (y >> i) & 1 <= 1,
{
}

proof fn lemma_xor_facts(a: u8)
    by (bit_vector)
    ensures
        a ^ a == 0,
        a ^ 0 == a,
        0 ^ a == a,
{
}

/// Anything times zero is zero.
pub proof fn lemma_multiply_zero(x: u8)
    ensures
        spec_multiply(x, 0) == 0,
{
    lemma_multiply_bits_zero(x, 8);
}

proof fn lemma_multiply_bits_zero(x: u8, n: nat)
    requires
        n <= 8,
    ensures
        spec_multiply_bits(x, 0, n) == 0,
    decreases n,
{
    if n > 0 {
        lemma_multiply_bits_zero(x, (n - 1) as nat);
        let s = (8 - n) as u8;
        assert((0u8 >> s) & 1 != 1) by (bit_vector);
        assert(0u8 << 1 == 0) by (bit_vector);
    }
}

proof fn lemma_double_is_linear(a: u8, b: u8)
    by (bit_vector)
    ensures
        (if (a ^ b) >= 0x80 {
            ((a ^ b) << 1) ^ 0x1D
        } else {
            (a ^ b) << 1
        }) == (if a >= 0x80 {
            (a << 1) ^ 0x1D
        } else {
            a << 1
        }) ^ (if b >= 0x80 {
            (b << 1) ^ 0x1D
        } else {
            b << 1
        }),
{
}

proof fn lemma_xor_swap(a: u8, b: u8, c: u8, d: u8)
    by (bit_vector)
    ensures
        (a ^ b) ^ (c ^ d) == (a ^ c) ^ (b ^ d),
        (a ^ b) ^ 0 == a ^ b,
        a ^ b == b ^ a,
{
}

proof fn lemma_multiply_bits_is_linear(x: u8, w: u8, y: u8, n: nat)
    requires
        n <= 8,
    ensures
        spec_multiply_bits(x ^ w, y, n) == spec_multiply_bits(x, y, n) ^ spec_multiply_bits(w, y, n),
    decreases n,
{
    if n == 0 {
        lemma_xor_facts(0);
    } else {
        lemma_multiply_bits_is_linear(x, w, y, (n - 1) as nat);
        let a = spec_multiply_bits(x, y, (n - 1) as nat);
        let b = spec_multiply_bits(w, y, (n - 1) as nat);
        lemma_double_is_linear(a, b);
        lemma_xor_swap(spec_gf_double(a), x, spec_gf_double(b), w);
    }
}

/// Multiplication distributes over addition in the field, which is XOR.
pub proof fn lemma_multiply_is_linear(x: u8, w: u8, y: u8)
    ensures
        spec_multiply(x ^ w, y) == spec_multiply(x, y) ^ spec_multiply(w, y),
{
    lemma_multiply_bits_is_linear(x, w, y, 8);
}

proof fn lemma_bits_of_one(s: u8)
    by (bit_vector)
    requires
        s < 8,
    ensures
        ((1u8 >> s) & 1 == 1) == (s == 0),
        0u8 << 1 == 0,
{
}

proof fn lemma_multiply_bits_one(x: u8, n: nat)
    requires
        n <= 7,
    ensures
        spec_multiply_bits(x, 1, n) == 0,
    decreases n,
{
    if n > 0 {
        lemma_multiply_bits_one(x, (n - 1) as nat);
        lemma_bits_of_one((8 - n) as u8);
    }
}

/// Anything times one is itself.
pub proof fn lemma_multiply_one(x: u8)
    ensures
        spec_multiply(x, 1) == x,
{
    lemma_multiply_bits_one(x, 7);
    lemma_bits_of_one(0);
    lemma_xor_facts(x);
}

impl QrCode {
    /// Returns the product of the two given field elements modulo GF(2^8/0x11D).
    /// All inputs are valid.
    pub fn reed_solomon_multiply(x: u8, y: u8) -> (z: u8)
        ensures
            z == spec_multiply(x, y),
    {
        // Russian peasant multiplication
        let mut z: u8 = 0;
        let mut i: u8 = 8;
        while i > 0
            invariant
                i <= 8,
                z == spec_multiply_bits(x, y, (8 - i) as nat),
            decreases i,
        {
            i -= 1;
            proof {
                lemma_double_exec(z);
                lemma_select_exec(y, i);
            }
            z = (z << 1) ^ ((z >> 7) * 0x1D);
            let selected: u8 = (y >> i) & 1;
            assert(selected * x == if selected == 1 { x as int } else { 0 }) by (nonlinear_arith)
                requires
                    selected == 0 || selected == 1,
            ;
            proof {
                lemma_xor_facts(z);
            }
            z ^= selected * x;
        }
        z
    }

    /// Returns a Reed-Solomon ECC generator polynomial for the given degree.
    #[verifier::spinoff_prover]
    #[verifier::rlimit(40)]
    pub fn reed_solomon_compute_divisor(degree: usize) -> (result: Vec<u8>)
        requires
            1 <= degree <= 255,
        ensures
            result@ == spec_divisor(degree as nat),
            result@.len() == degree,
    {
        // Polynomial coefficients are stored from highest to lowest power, excluding the leading term which is always 1.
        // For example the polynomial x^3 + 255x^2 + 8x + 93 is stored as the uint8 array [255, 8, 93].
        let mut result: Vec<u8> = vec![0u8; degree - 1];
        result.push(1);  // Start off with the monomial x^0

        // Compute the product polynomial (x - r^0) * (x - r^1) * (x - r^2) * ... * (x - r^{degree-1}),
        // and drop the highest monomial term which is always 1x^degree.
        // Note that r = 0x02, which is a generator element of this field GF(2^8/0x11D).
        let mut root: u8 = 1;
        for i in 0..degree
            invariant
                result@ == spec_divisor_product(degree as nat, i as nat),
                result@.len() == degree,
                root == spec_generator_power(i as nat),
        {
            // Multiply the current product by (x - r^i)
            let ghost before = result@;
            for j in 0..degree
                invariant
                    result@.len() == degree,
                    before.len() == degree,
                    forall|k: int| 0 <= k < j ==> result@[k] == spec_times_linear(before, root)[k],
                    forall|k: int| j <= k < degree ==> result@[k] == before[k],
            {
                let mut c: u8 = QrCode::reed_solomon_multiply(result[j], root);
                if j + 1 < result.len() {
                    c ^= result[j + 1];
                }
                result[j] = c;
            }
            root = QrCode::reed_solomon_multiply(root, 0x02);
        }
        result
    }

    /// Returns the Reed-Solomon error correction codeword for the given data and divisor polynomials.
    /// Where there is data, the divisor must not be empty.
    #[verifier::spinoff_prover]
    #[verifier::rlimit(40)]
    pub fn reed_solomon_compute_remainder(data: &[u8], divisor: &[u8]) -> (result: Vec<u8>)
        requires
            divisor@.len() >= 1 || data@.len() == 0,
        ensures
            result@ == spec_remainder(data@, divisor@),
            result@.len() == divisor@.len(),
    {
        let degree: usize = divisor.len();
        let mut result: Vec<u8> = vec![0u8; degree];
        for n in 0..data.len()
            invariant
                degree == divisor@.len(),
                degree >= 1 || data@.len() == 0,
                result@.len() == degree,
                result@ == spec_remainder(data@.take(n as int), divisor@),
        {
            // Polynomial division
            let ghost before = result@;
            let factor: u8 = data[n] ^ result[0];
            for i in 0..degree
                invariant
                    degree == divisor@.len(),
                    result@.len() == degree,
                    before.len() == degree,
                    factor == data@[n as int] ^ before[0],
                    forall|k: int| 0 <= k < i ==> result@[k] == spec_remainder_step(before, divisor@, data@[n as int])[k],
                    forall|k: int| i <= k < degree ==> result@[k] == before[k],
            {
                let m: u8 = QrCode::reed_solomon_multiply(divisor[i], factor);
                if i + 1 < degree {
                    let next: u8 = result[i + 1];
                    result[i] = next ^ m;
                } else {
                    result[i] = m;
                }
            }
            proof {
                let prefix = data@.take(n as int + 1);
                assert(prefix.drop_last() =~= data@.take(n as int));
            }
        }
        assert(data@.take(data@.len() as int) =~= data@);
        result
    }
}

/// After `k` of its own bytes the accumulator of a division holds the rest of
/// them, followed by `k` zeros.
#[verifier::spinoff_prover]
#[verifier::rlimit(40)]
proof fn lemma_remainder_absorbs(data: Seq<u8>, divisor: Seq<u8>, k: nat)
    requires
        divisor.len() >= 1,
        k <= divisor.len(),
    ensures
        spec_remainder(data + spec_remainder(data, divisor).take(k as int), divisor)
            =~= spec_remainder(data, divisor).skip(k as int) + spec_zeros(k),
    decreases k,
{
    lemma_remainder_len(data, divisor);
    let ecc = spec_remainder(data, divisor);
    if k > 0 {
        let j = (k - 1) as nat;
        lemma_remainder_absorbs(data, divisor, j);
        let before = data + ecc.take(j as int);
        let now = data + ecc.take(k as int);
        assert(now.drop_last() =~= before);
        let r = spec_remainder(before, divisor);
        lemma_xor_facts(ecc[j as int]);
        assert forall|i: int| 0 <= i < divisor.len() implies spec_remainder_step(r, divisor, ecc[j as int])[i]
            == (ecc.skip(k as int) + spec_zeros(k))[i] by {
            lemma_multiply_zero(divisor[i]);
            if i + 1 < r.len() {
                lemma_xor_facts(r[i + 1]);
            }
        }
    }
}

/// The divisor of a degree has that many coefficients.
pub proof fn lemma_divisor_len(degree: nat)
    ensures
        spec_divisor(degree).len() == degree,
{
    lemma_divisor_product_len(degree, degree);
}

proof fn lemma_divisor_product_len(degree: nat, k: nat)
    ensures
        spec_divisor_product(degree, k).len() == degree,
    decreases k,
{
    if k > 0 {
        lemma_divisor_product_len(degree, (k - 1) as nat);
    }
}

/// A remainder has as many bytes as the divisor has coefficients.
pub proof fn lemma_remainder_len(data: Seq<u8>, divisor: Seq<u8>)
    ensures
        spec_remainder(data, divisor).len() == divisor.len(),
    decreases data.len(),
{
    if data.len() > 0 {
        lemma_remainder_len(data.drop_last(), divisor);
    }
}

/// Reed-Solomon correctness: a block of data followed by its error correction
/// codewords leaves the remainder zero when it is divided by the same divisor.
pub proof fn lemma_codeword_remainder_is_zero(data: Seq<u8>, divisor: Seq<u8>)
    requires
        divisor.len() >= 1,
    ensures
        spec_remainder(data + spec_remainder(data, divisor), divisor) == spec_zeros(divisor.len()),
{
    lemma_remainder_len(data, divisor);
    lemma_remainder_absorbs(data, divisor, divisor.len());
    let ecc = spec_remainder(data, divisor);
    assert(ecc.take(divisor.len() as int) =~= ecc);
}

} // verus!
