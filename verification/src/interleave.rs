//! Splitting the data codewords into blocks, giving each block its error
//! correction codewords, and interleaving the blocks.

use vstd::prelude::*;
use crate::qr_code::QrCode;
use crate::reed_solomon::{lemma_divisor_len, lemma_remainder_len, spec_divisor, spec_remainder};
use crate::tables::{
    lemma_table_entries,
    spec_ecc_codewords_per_block, spec_num_data_codewords, spec_num_error_correction_blocks,
    spec_num_raw_codewords, ECC_CODEWORDS_PER_BLOCK, NUM_ERROR_CORRECTION_BLOCKS,
};
use crate::version::{QrCodeEcc, Version};

verus! {

/// The number of blocks of a symbol of the given version and level.
pub open spec fn spec_num_blocks(ver: int, ecl: QrCodeEcc) -> int {
    spec_num_error_correction_blocks(ecl.spec_ordinal(), ver)
}

/// The number of error correction codewords of each block.
pub open spec fn spec_block_ecc_len(ver: int, ecl: QrCodeEcc) -> int {
    spec_ecc_codewords_per_block(ecl.spec_ordinal(), ver)
}

/// The number of blocks that are short: the others hold one data codeword more.
pub open spec fn spec_num_short_blocks(ver: int, ecl: QrCodeEcc) -> int {
    spec_num_blocks(ver, ecl) - spec_num_raw_codewords(ver) % spec_num_blocks(ver, ecl)
}

/// The number of codewords, data and error correction, of a short block.
pub open spec fn spec_short_block_len(ver: int, ecl: QrCodeEcc) -> int {
    spec_num_raw_codewords(ver) / spec_num_blocks(ver, ecl)
}

/// The number of data codewords of a short block.
pub open spec fn spec_short_data_len(ver: int, ecl: QrCodeEcc) -> int {
    spec_short_block_len(ver, ecl) - spec_block_ecc_len(ver, ecl)
}

/// The number of data codewords of block `j`: the short blocks come first.
pub open spec fn spec_block_data_len(ver: int, ecl: QrCodeEcc, j: int) -> int {
    if j >= spec_num_short_blocks(ver, ecl) {
        spec_short_data_len(ver, ecl) + 1
    } else {
        spec_short_data_len(ver, ecl)
    }
}

/// Where the data codewords of block `j` start in the data.
pub open spec fn spec_block_start(ver: int, ecl: QrCodeEcc, j: int) -> int
    decreases j,
{
    if j <= 0 {
        0
    } else {
        spec_block_start(ver, ecl, j - 1) + spec_block_data_len(ver, ecl, j - 1)
    }
}

/// The data codewords of block `j`.
pub open spec fn spec_block_data(ver: int, ecl: QrCodeEcc, data: Seq<u8>, j: int) -> Seq<u8> {
    data.subrange(
        spec_block_start(ver, ecl, j),
        spec_block_start(ver, ecl, j) + spec_block_data_len(ver, ecl, j),
    )
}

/// The error correction codewords of block `j`.
pub open spec fn spec_block_ecc(ver: int, ecl: QrCodeEcc, data: Seq<u8>, j: int) -> Seq<u8> {
    spec_remainder(spec_block_data(ver, ecl, data, j), spec_divisor(spec_block_ecc_len(ver, ecl) as nat))
}

/// Block `j` as it is laid out for interleaving: its data, one padding byte
/// if the block is short, and its error correction codewords.
pub open spec fn spec_block(ver: int, ecl: QrCodeEcc, data: Seq<u8>, j: int) -> Seq<u8> {
    let padding = if j < spec_num_short_blocks(ver, ecl) {
        seq![0u8]
    } else {
        Seq::<u8>::empty()
    };
    spec_block_data(ver, ecl, data, j) + padding + spec_block_ecc(ver, ecl, data, j)
}

/// Whether the byte of block `j` at index `i` goes out: all but the padding bytes.
pub open spec fn spec_goes_out(ver: int, ecl: QrCodeEcc, i: int, j: int) -> bool {
    i != spec_short_data_len(ver, ecl) || j >= spec_num_short_blocks(ver, ecl)
}

/// The bytes at index `i` of the first `blocks` blocks, padding left out.
pub open spec fn spec_interleaved_row(ver: int, ecl: QrCodeEcc, data: Seq<u8>, i: int, blocks: int) -> Seq<
    u8,
>
    decreases blocks,
{
    if blocks <= 0 {
        Seq::empty()
    } else {
        let before = spec_interleaved_row(ver, ecl, data, i, blocks - 1);
        if spec_goes_out(ver, ecl, i, blocks - 1) {
            before.push(spec_block(ver, ecl, data, blocks - 1)[i])
        } else {
            before
        }
    }
}

/// The first `rows` rows of the interleaved blocks, one after the other.
pub open spec fn spec_interleaved_rows(ver: int, ecl: QrCodeEcc, data: Seq<u8>, rows: int) -> Seq<u8>
    decreases rows,
{
    if rows <= 0 {
        Seq::empty()
    } else {
        spec_interleaved_rows(ver, ecl, data, rows - 1) + spec_interleaved_row(
            ver,
            ecl,
            data,
            rows - 1,
            spec_num_blocks(ver, ecl),
        )
    }
}

/// All codewords of a symbol, in the order in which they are drawn: the
/// blocks taken byte by byte in turn, the data codewords of all blocks before
/// their error correction codewords.
pub open spec fn spec_add_ecc_and_interleave(ver: int, ecl: QrCodeEcc, data: Seq<u8>) -> Seq<u8> {
    spec_interleaved_rows(ver, ecl, data, spec_short_block_len(ver, ecl) + 1)
}

/// The numbers of the block layout, and how they add up.
#[verifier::spinoff_prover]
#[verifier::rlimit(40)]
pub proof fn lemma_block_layout(ver: int, ecl: QrCodeEcc)
    requires
        1 <= ver <= 40,
    ensures
        1 <= spec_num_blocks(ver, ecl) <= 81,
        7 <= spec_block_ecc_len(ver, ecl) <= 30,
        1 <= spec_num_short_blocks(ver, ecl) <= spec_num_blocks(ver, ecl),
        1 <= spec_short_data_len(ver, ecl),
        spec_short_block_len(ver, ecl) <= 3706,
        spec_num_data_codewords(ver, ecl) == spec_num_blocks(ver, ecl) * spec_short_data_len(ver, ecl)
            + (spec_num_blocks(ver, ecl) - spec_num_short_blocks(ver, ecl)),
        spec_num_raw_codewords(ver) == spec_num_blocks(ver, ecl) * spec_short_block_len(ver, ecl) + (
        spec_num_blocks(ver, ecl) - spec_num_short_blocks(ver, ecl)),
{
    lemma_table_entries(ver, ecl);
    crate::tables::lemma_raw_data_modules_bounds(ver);
    let blocks = spec_num_blocks(ver, ecl);
    let ecc = spec_block_ecc_len(ver, ecl);
    let raw = spec_num_raw_codewords(ver);
    vstd::arithmetic::div_mod::lemma_fundamental_div_mod(raw, blocks);
    vstd::arithmetic::div_mod::lemma_mod_bound(raw, blocks);
    let len = raw / blocks;
    assert(len >= ecc + 1) by (nonlinear_arith)
        requires
            (ecc + 1) * blocks <= raw,
            raw == blocks * len + raw % blocks,
            0 <= raw % blocks < blocks,
            blocks >= 1,
    ;
    assert(len <= raw) by (nonlinear_arith)
        requires
            raw == blocks * len + raw % blocks,
            0 <= raw % blocks,
            blocks >= 1,
            len >= 0,
    ;
    assert(blocks * (len - ecc) == blocks * len - ecc * blocks) by (nonlinear_arith);
}

/// Where block `j` starts, in closed form.
#[verifier::spinoff_prover]
#[verifier::rlimit(40)]
pub proof fn lemma_block_start(ver: int, ecl: QrCodeEcc, j: int)
    requires
        1 <= ver <= 40,
        0 <= j <= spec_num_blocks(ver, ecl),
    ensures
        spec_block_start(ver, ecl, j) == j * spec_short_data_len(ver, ecl) + (if j
            > spec_num_short_blocks(ver, ecl) {
            j - spec_num_short_blocks(ver, ecl)
        } else {
            0
        }),
        0 <= spec_block_start(ver, ecl, j) <= spec_num_data_codewords(ver, ecl),
        j < spec_num_blocks(ver, ecl) ==> spec_block_start(ver, ecl, j) + spec_block_data_len(ver, ecl, j)
            <= spec_num_data_codewords(ver, ecl),
    decreases j,
{
    lemma_block_layout(ver, ecl);
    let d = spec_short_data_len(ver, ecl);
    let blocks = spec_num_blocks(ver, ecl);
    if j > 0 {
        lemma_block_start(ver, ecl, j - 1);
        assert(j * d == (j - 1) * d + d) by (nonlinear_arith);
    }
    assert(0 <= j * d <= blocks * d) by (nonlinear_arith)
        requires
            0 <= j <= blocks,
            d >= 1,
    ;
    if j < blocks {
        assert((j + 1) * d <= blocks * d) by (nonlinear_arith)
            requires
                0 <= j < blocks,
                d >= 1,
        ;
        assert((j + 1) * d == j * d + d) by (nonlinear_arith);
    }
}

/// The length of the first rows of the interleaved blocks.
pub proof fn lemma_interleaved_len(ver: int, ecl: QrCodeEcc, data: Seq<u8>, rows: int)
    requires
        1 <= ver <= 40,
        0 <= rows <= spec_short_block_len(ver, ecl) + 1,
    ensures
        spec_interleaved_rows(ver, ecl, data, rows).len() == rows * spec_num_blocks(ver, ecl) - (if rows
            > spec_short_data_len(ver, ecl) {
            spec_num_short_blocks(ver, ecl)
        } else {
            0
        }),
    decreases rows,
{
    let blocks = spec_num_blocks(ver, ecl);
    lemma_block_layout(ver, ecl);
    if rows > 0 {
        lemma_interleaved_len(ver, ecl, data, rows - 1);
        lemma_interleaved_row_len(ver, ecl, data, rows - 1, blocks);
        assert(rows * blocks == (rows - 1) * blocks + blocks) by (nonlinear_arith);
    } else {
        assert(0 * blocks == 0);
    }
}

/// The length of a row of the interleaved blocks, as far as it has been taken.
pub proof fn lemma_interleaved_row_len(ver: int, ecl: QrCodeEcc, data: Seq<u8>, i: int, blocks: int)
    requires
        1 <= ver <= 40,
        0 <= blocks <= spec_num_blocks(ver, ecl),
    ensures
        spec_interleaved_row(ver, ecl, data, i, blocks).len() == (if i == spec_short_data_len(ver, ecl) {
            if blocks > spec_num_short_blocks(ver, ecl) {
                blocks - spec_num_short_blocks(ver, ecl)
            } else {
                0
            }
        } else {
            blocks
        }),
    decreases blocks,
{
    lemma_block_layout(ver, ecl);
    if blocks > 0 {
        lemma_interleaved_row_len(ver, ecl, data, i, blocks - 1);
    }
}

/// The interleaved codewords fill the symbol: there are as many as the
/// version has room for.
pub proof fn lemma_all_codewords_len(ver: int, ecl: QrCodeEcc, data: Seq<u8>)
    requires
        1 <= ver <= 40,
    ensures
        spec_add_ecc_and_interleave(ver, ecl, data).len() == spec_num_raw_codewords(ver),
{
    lemma_block_layout(ver, ecl);
    let rows = spec_short_block_len(ver, ecl) + 1;
    let blocks = spec_num_blocks(ver, ecl);
    lemma_interleaved_len(ver, ecl, data, rows);
    assert(rows * blocks == blocks * spec_short_block_len(ver, ecl) + blocks) by (nonlinear_arith)
        requires
            rows == spec_short_block_len(ver, ecl) + 1,
    ;
}

impl QrCode {
    /// Returns a new byte string representing the given data with the appropriate error correction
    /// codewords appended to it, based on this object's version and error correction level.
    /// The data must have the length that the version and level fix.
    #[verifier::spinoff_prover]
    #[verifier::rlimit(40)]
    pub(crate) fn add_ecc_and_interleave(&self, data: &[u8]) -> (result: Vec<u8>)
        requires
            data@.len() == spec_num_data_codewords(
                self.spec_version().spec_value(),
                self.spec_error_correction_level(),
            ),
        ensures
            result@ == spec_add_ecc_and_interleave(
                self.spec_version().spec_value(),
                self.spec_error_correction_level(),
                data@,
            ),
            result@.len() == spec_num_raw_codewords(self.spec_version().spec_value()),
    {
        let ver: Version = self.version();
        let ecl: QrCodeEcc = self.error_correction_level();
        let ghost v = ver.spec_value();
        proof {
            use_type_invariant(&ver);
            lemma_table_entries(v, ecl);
            lemma_block_layout(v, ecl);
            lemma_all_codewords_len(v, ecl, data@);
        }

        // Calculate parameter numbers
        let numblocks: usize = QrCode::table_get(&NUM_ERROR_CORRECTION_BLOCKS, ver, ecl);
        let blockecclen: usize = QrCode::table_get(&ECC_CODEWORDS_PER_BLOCK, ver, ecl);
        let rawcodewords: usize = QrCode::get_num_raw_data_modules(ver) / 8;
        let numshortblocks: usize = numblocks - rawcodewords % numblocks;
        let shortblocklen: usize = rawcodewords / numblocks;

        // Split data into blocks and append ECC to each block
        let mut blocks: Vec<Vec<u8>> = Vec::new();
        let rsdiv: Vec<u8> = QrCode::reed_solomon_compute_divisor(blockecclen);
        let mut k: usize = 0;
        for i in 0..numblocks
            invariant
                1 <= v <= 40,
                data@.len() == spec_num_data_codewords(v, ecl),
                numblocks == spec_num_blocks(v, ecl),
                blockecclen == spec_block_ecc_len(v, ecl),
                numshortblocks == spec_num_short_blocks(v, ecl),
                shortblocklen == spec_short_block_len(v, ecl),
                rsdiv@ == spec_divisor(blockecclen as nat),
                rsdiv@.len() == blockecclen,
                k == spec_block_start(v, ecl, i as int),
                blocks@.len() == i,
                forall|m: int| 0 <= m < i ==> (#[trigger] blocks@[m])@ == spec_block(v, ecl, data@, m),
        {
            proof {
                lemma_block_layout(v, ecl);
                lemma_block_start(v, ecl, i as int);
                crate::tables::lemma_capacity_bounds(v, ecl);
            }
            let extra: usize = if i >= numshortblocks {
                1
            } else {
                0
            };
            let datlen: usize = shortblocklen - blockecclen + extra;
            let mut dat: Vec<u8> = Vec::new();
            for n in 0..datlen
                invariant
                    k + datlen <= data@.len() <= 29648,
                    dat@ == data@.subrange(k as int, k + n),
            {
                dat.push(data[k + n]);
            }
            k += datlen;
            let ecc: Vec<u8> = QrCode::reed_solomon_compute_remainder(dat.as_slice(), rsdiv.as_slice());
            if i < numshortblocks {
                dat.push(0);
            }
            let ghost head = dat@;
            for n in 0..blockecclen
                invariant
                    ecc@.len() == blockecclen,
                    dat@ == head + ecc@.take(n as int),
            {
                dat.push(ecc[n]);
            }
            blocks.push(dat);
        }

        // Interleave (not concatenate) the bytes from every block into a single sequence
        let mut result: Vec<u8> = Vec::new();
        for i in 0..shortblocklen + 1
            invariant
                1 <= v <= 40,
                numblocks == spec_num_blocks(v, ecl),
                blockecclen == spec_block_ecc_len(v, ecl),
                numshortblocks == spec_num_short_blocks(v, ecl),
                shortblocklen == spec_short_block_len(v, ecl),
                blocks@.len() == numblocks,
                data@.len() == spec_num_data_codewords(v, ecl),
                forall|m: int| 0 <= m < numblocks ==> (#[trigger] blocks@[m])@ == spec_block(v, ecl, data@, m),
                result@ == spec_interleaved_rows(v, ecl, data@, i as int),
        {
            let ghost before = result@;
            for j in 0..numblocks
                invariant
                    1 <= v <= 40,
                    i <= shortblocklen,
                    numblocks == spec_num_blocks(v, ecl),
                    blockecclen == spec_block_ecc_len(v, ecl),
                    numshortblocks == spec_num_short_blocks(v, ecl),
                    shortblocklen == spec_short_block_len(v, ecl),
                    blocks@.len() == numblocks,
                    data@.len() == spec_num_data_codewords(v, ecl),
                    forall|m: int|
                        0 <= m < numblocks ==> (#[trigger] blocks@[m])@ == spec_block(v, ecl, data@, m),
                    result@ == before + spec_interleaved_row(v, ecl, data@, i as int, j as int),
            {
                proof {
                    lemma_block_layout(v, ecl);
                    lemma_block_start(v, ecl, j as int);
                    lemma_remainder_len(spec_block_data(v, ecl, data@, j as int), spec_divisor(blockecclen as nat));
                    lemma_divisor_len(blockecclen as nat);
                }
                // Skip the padding byte in short blocks
                if i != shortblocklen - blockecclen || j >= numshortblocks {
                    let block: &Vec<u8> = &blocks[j];
                    result.push(block[i]);
                }
            }
        }
        result
    }
}

} // verus!
