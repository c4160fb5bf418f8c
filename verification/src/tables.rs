//! The capacity tables of the standard and what follows from them.

use vstd::prelude::*;
use crate::qr_code::QrCode;
use crate::version::{QrCodeEcc, Version};

verus! {

/// The number of error correction codewords in each block, by level and version.
/// Index 0 of each row is padding and holds an illegal value.
pub const ECC_CODEWORDS_PER_BLOCK: [[i8; 41]; 4] = [
    [-1, 7, 10, 15, 20, 26, 18, 20, 24, 30, 18, 20, 24, 26, 30, 22, 24, 28, 30, 28, 28, 28, 28, 30, 30, 26, 28, 30, 30, 30, 30, 30, 30, 30, 30, 30, 30, 30, 30, 30, 30],
    [-1, 10, 16, 26, 18, 24, 16, 18, 22, 22, 26, 30, 22, 22, 24, 24, 28, 28, 26, 26, 26, 26, 28, 28, 28, 28, 28, 28, 28, 28, 28, 28, 28, 28, 28, 28, 28, 28, 28, 28, 28],
    [-1, 13, 22, 18, 26, 18, 24, 18, 22, 20, 24, 28, 26, 24, 20, 30, 24, 28, 28, 26, 30, 28, 30, 30, 30, 30, 28, 30, 30, 30, 30, 30, 30, 30, 30, 30, 30, 30, 30, 30, 30],
    [-1, 17, 28, 22, 16, 22, 28, 26, 26, 24, 28, 24, 28, 22, 24, 24, 30, 28, 28, 26, 28, 30, 24, 30, 30, 30, 30, 30, 30, 30, 30, 30, 30, 30, 30, 30, 30, 30, 30, 30, 30],
];

/// The number of error correction blocks, by level and version.
/// Index 0 of each row is padding and holds an illegal value.
pub const NUM_ERROR_CORRECTION_BLOCKS: [[i8; 41]; 4] = [
    [-1, 1, 1, 1, 1, 1, 2, 2, 2, 2, 4, 4, 4, 4, 4, 6, 6, 6, 6, 7, 8, 8, 9, 9, 10, 12, 12, 12, 13, 14, 15, 16, 17, 18, 19, 19, 20, 21, 22, 24, 25],
    [-1, 1, 1, 1, 2, 2, 4, 4, 4, 5, 5, 5, 8, 9, 9, 10, 10, 11, 13, 14, 16, 17, 17, 18, 20, 21, 23, 25, 26, 28, 29, 31, 33, 35, 37, 38, 40, 43, 45, 47, 49],
    [-1, 1, 1, 2, 2, 4, 4, 6, 6, 8, 8, 8, 10, 12, 16, 12, 17, 16, 18, 21, 20, 23, 23, 25, 27, 29, 34, 34, 35, 38, 40, 43, 45, 48, 51, 53, 56, 59, 62, 65, 68],
    [-1, 1, 1, 2, 4, 4, 4, 5, 6, 8, 8, 11, 11, 16, 16, 18, 16, 19, 21, 25, 25, 25, 34, 30, 32, 35, 37, 40, 42, 45, 48, 51, 54, 57, 60, 63, 66, 70, 74, 77, 81],
];

/// The error correction codewords per block at the given level row and version.
pub open spec fn spec_ecc_codewords_per_block(ecl: int, ver: int) -> int {
    ECC_CODEWORDS_PER_BLOCK@[ecl]@[ver] as int
}

/// The number of error correction blocks at the given level row and version.
pub open spec fn spec_num_error_correction_blocks(ecl: int, ver: int) -> int {
    NUM_ERROR_CORRECTION_BLOCKS@[ecl]@[ver] as int
}

/// The number of alignment pattern positions along one axis.
pub open spec fn spec_num_align(ver: int) -> int {
    if ver == 1 {
        0
    } else {
        ver / 7 + 2
    }
}

/// The number of modules that are left for codewords once all function
/// modules are taken out of a symbol of the given version. This counts the
/// remainder bits too, so it need not be a multiple of 8.
pub open spec fn spec_num_raw_data_modules(ver: int) -> int {
    let all = (16 * ver + 128) * ver + 64;
    let numalign = ver / 7 + 2;
    let align = if ver >= 2 {
        (25 * numalign - 10) * numalign - 55
    } else {
        0
    };
    let version_info: int = if ver >= 7 {
        36
    } else {
        0
    };
    all - align - version_info
}

/// The number of 8-bit data codewords (error correction left out, remainder
/// bits discarded) of a symbol of the given version and level.
pub open spec fn spec_num_data_codewords(ver: int, ecl: QrCodeEcc) -> int {
    spec_num_raw_data_modules(ver) / 8 - spec_ecc_codewords_per_block(ecl.spec_ordinal(), ver)
        * spec_num_error_correction_blocks(ecl.spec_ordinal(), ver)
}

/// The number of codewords, data and error correction together, that a
/// symbol of the given version holds.
pub open spec fn spec_num_raw_codewords(ver: int) -> int {
    spec_num_raw_data_modules(ver) / 8
}

/// What the block layout needs of one table entry: between 1 and 81 blocks,
/// between 7 and 30 error correction codewords in each, and room in every
/// block for at least one data codeword.
pub open spec fn entry_in_bounds(ecl: int, ver: int) -> bool {
    let blocks = spec_num_error_correction_blocks(ecl, ver);
    let ecc = spec_ecc_codewords_per_block(ecl, ver);
    &&& 1 <= blocks <= 81
    &&& 7 <= ecc <= 30
    &&& (ecc + 1) * blocks <= spec_num_raw_codewords(ver)
}

/// The higher the error correction level, the fewer data codewords a
/// symbol of one version holds.
pub open spec fn levels_ordered(ver: int) -> bool {
    &&& spec_num_data_codewords(ver, QrCodeEcc::Low) >= spec_num_data_codewords(ver, QrCodeEcc::Medium)
    &&& spec_num_data_codewords(ver, QrCodeEcc::Medium) >= spec_num_data_codewords(ver, QrCodeEcc::Quartile)
    &&& spec_num_data_codewords(ver, QrCodeEcc::Quartile) >= spec_num_data_codewords(ver, QrCodeEcc::High)
}

/// Every entry of the two tables is in bounds, and the levels are in
/// order, shown version by version.
pub proof fn lemma_table_entries(ver: int, ecl: QrCodeEcc)
    requires
        1 <= ver <= 40,
    ensures
        entry_in_bounds(ecl.spec_ordinal(), ver),
        levels_ordered(ver),
        spec_num_data_codewords(ver, ecl) <= 2956,
        spec_num_data_codewords(40, QrCodeEcc::Low) == 2956 || ver != 40,
{
    if ver <= 5 {
        lemma_table_entries_1_to_5(ver);
    }     else if ver <= 10 {
        lemma_table_entries_6_to_10(ver);
    }     else if ver <= 15 {
        lemma_table_entries_11_to_15(ver);
    }     else if ver <= 20 {
        lemma_table_entries_16_to_20(ver);
    }     else if ver <= 25 {
        lemma_table_entries_21_to_25(ver);
    }     else if ver <= 30 {
        lemma_table_entries_26_to_30(ver);
    }     else if ver <= 35 {
        lemma_table_entries_31_to_35(ver);
    }     else if ver <= 40 {
        lemma_table_entries_36_to_40(ver);
    }
}

/// The entries of versions 1 to 5.
#[verifier::spinoff_prover]
#[verifier::rlimit(40)]
proof fn lemma_table_entries_1_to_5(ver: int)
    requires
        1 <= ver <= 5,
    ensures
        entry_in_bounds(0, ver),
        entry_in_bounds(1, ver),
        entry_in_bounds(2, ver),
        entry_in_bounds(3, ver),
        levels_ordered(ver),
        spec_num_data_codewords(ver, QrCodeEcc::Low) <= 2956,
{
    if ver == 1 {
        assert(spec_num_raw_codewords(1) == 26) by (nonlinear_arith);
        lemma_version_entries(1, 26, 7, 1, 10, 1, 13, 1, 17, 1);
    }     else if ver == 2 {
        assert(spec_num_raw_codewords(2) == 44) by (nonlinear_arith);
        lemma_version_entries(2, 44, 10, 1, 16, 1, 22, 1, 28, 1);
    }     else if ver == 3 {
        assert(spec_num_raw_codewords(3) == 70) by (nonlinear_arith);
        lemma_version_entries(3, 70, 15, 1, 26, 1, 18, 2, 22, 2);
    }     else if ver == 4 {
        assert(spec_num_raw_codewords(4) == 100) by (nonlinear_arith);
        lemma_version_entries(4, 100, 20, 1, 18, 2, 26, 2, 16, 4);
    }     else if ver == 5 {
        assert(spec_num_raw_codewords(5) == 134) by (nonlinear_arith);
        lemma_version_entries(5, 134, 26, 1, 24, 2, 18, 4, 22, 4);
    }
}

/// The entries of versions 6 to 10.
#[verifier::spinoff_prover]
#[verifier::rlimit(40)]
proof fn lemma_table_entries_6_to_10(ver: int)
    requires
        6 <= ver <= 10,
    ensures
        entry_in_bounds(0, ver),
        entry_in_bounds(1, ver),
        entry_in_bounds(2, ver),
        entry_in_bounds(3, ver),
        levels_ordered(ver),
        spec_num_data_codewords(ver, QrCodeEcc::Low) <= 2956,
{
    if ver == 6 {
        assert(spec_num_raw_codewords(6) == 172) by (nonlinear_arith);
        lemma_version_entries(6, 172, 18, 2, 16, 4, 24, 4, 28, 4);
    }     else if ver == 7 {
        assert(spec_num_raw_codewords(7) == 196) by (nonlinear_arith);
        lemma_version_entries(7, 196, 20, 2, 18, 4, 18, 6, 26, 5);
    }     else if ver == 8 {
        assert(spec_num_raw_codewords(8) == 242) by (nonlinear_arith);
        lemma_version_entries(8, 242, 24, 2, 22, 4, 22, 6, 26, 6);
    }     else if ver == 9 {
        assert(spec_num_raw_codewords(9) == 292) by (nonlinear_arith);
        lemma_version_entries(9, 292, 30, 2, 22, 5, 20, 8, 24, 8);
    }     else if ver == 10 {
        assert(spec_num_raw_codewords(10) == 346) by (nonlinear_arith);
        lemma_version_entries(10, 346, 18, 4, 26, 5, 24, 8, 28, 8);
    }
}

/// The entries of versions 11 to 15.
#[verifier::spinoff_prover]
#[verifier::rlimit(40)]
proof fn lemma_table_entries_11_to_15(ver: int)
    requires
        11 <= ver <= 15,
    ensures
        entry_in_bounds(0, ver),
        entry_in_bounds(1, ver),
        entry_in_bounds(2, ver),
        entry_in_bounds(3, ver),
        levels_ordered(ver),
        spec_num_data_codewords(ver, QrCodeEcc::Low) <= 2956,
{
    if ver == 11 {
        assert(spec_num_raw_codewords(11) == 404) by (nonlinear_arith);
        lemma_version_entries(11, 404, 20, 4, 30, 5, 28, 8, 24, 11);
    }     else if ver == 12 {
        assert(spec_num_raw_codewords(12) == 466) by (nonlinear_arith);
        lemma_version_entries(12, 466, 24, 4, 22, 8, 26, 10, 28, 11);
    }     else if ver == 13 {
        assert(spec_num_raw_codewords(13) == 532) by (nonlinear_arith);
        lemma_version_entries(13, 532, 26, 4, 22, 9, 24, 12, 22, 16);
    }     else if ver == 14 {
        assert(spec_num_raw_codewords(14) == 581) by (nonlinear_arith);
        lemma_version_entries(14, 581, 30, 4, 24, 9, 20, 16, 24, 16);
    }     else if ver == 15 {
        assert(spec_num_raw_codewords(15) == 655) by (nonlinear_arith);
        lemma_version_entries(15, 655, 22, 6, 24, 10, 30, 12, 24, 18);
    }
}

/// The entries of versions 16 to 20.
#[verifier::spinoff_prover]
#[verifier::rlimit(40)]
proof fn lemma_table_entries_16_to_20(ver: int)
    requires
        16 <= ver <= 20,
    ensures
        entry_in_bounds(0, ver),
        entry_in_bounds(1, ver),
        entry_in_bounds(2, ver),
        entry_in_bounds(3, ver),
        levels_ordered(ver),
        spec_num_data_codewords(ver, QrCodeEcc::Low) <= 2956,
{
    if ver == 16 {
        assert(spec_num_raw_codewords(16) == 733) by (nonlinear_arith);
        lemma_version_entries(16, 733, 24, 6, 28, 10, 24, 17, 30, 16);
    }     else if ver == 17 {
        assert(spec_num_raw_codewords(17) == 815) by (nonlinear_arith);
        lemma_version_entries(17, 815, 28, 6, 28, 11, 28, 16, 28, 19);
    }     else if ver == 18 {
        assert(spec_num_raw_codewords(18) == 901) by (nonlinear_arith);
        lemma_version_entries(18, 901, 30, 6, 26, 13, 28, 18, 28, 21);
    }     else if ver == 19 {
        assert(spec_num_raw_codewords(19) == 991) by (nonlinear_arith);
        lemma_version_entries(19, 991, 28, 7, 26, 14, 26, 21, 26, 25);
    }     else if ver == 20 {
        assert(spec_num_raw_codewords(20) == 1085) by (nonlinear_arith);
        lemma_version_entries(20, 1085, 28, 8, 26, 16, 30, 20, 28, 25);
    }
}

/// The entries of versions 21 to 25.
#[verifier::spinoff_prover]
#[verifier::rlimit(40)]
proof fn lemma_table_entries_21_to_25(ver: int)
    requires
        21 <= ver <= 25,
    ensures
        entry_in_bounds(0, ver),
        entry_in_bounds(1, ver),
        entry_in_bounds(2, ver),
        entry_in_bounds(3, ver),
        levels_ordered(ver),
        spec_num_data_codewords(ver, QrCodeEcc::Low) <= 2956,
{
    if ver == 21 {
        assert(spec_num_raw_codewords(21) == 1156) by (nonlinear_arith);
        lemma_version_entries(21, 1156, 28, 8, 26, 17, 28, 23, 30, 25);
    }     else if ver == 22 {
        assert(spec_num_raw_codewords(22) == 1258) by (nonlinear_arith);
        lemma_version_entries(22, 1258, 28, 9, 28, 17, 30, 23, 24, 34);
    }     else if ver == 23 {
        assert(spec_num_raw_codewords(23) == 1364) by (nonlinear_arith);
        lemma_version_entries(23, 1364, 30, 9, 28, 18, 30, 25, 30, 30);
    }     else if ver == 24 {
        assert(spec_num_raw_codewords(24) == 1474) by (nonlinear_arith);
        lemma_version_entries(24, 1474, 30, 10, 28, 20, 30, 27, 30, 32);
    }     else if ver == 25 {
        assert(spec_num_raw_codewords(25) == 1588) by (nonlinear_arith);
        lemma_version_entries(25, 1588, 26, 12, 28, 21, 30, 29, 30, 35);
    }
}

/// The entries of versions 26 to 30.
#[verifier::spinoff_prover]
#[verifier::rlimit(40)]
proof fn lemma_table_entries_26_to_30(ver: int)
    requires
        26 <= ver <= 30,
    ensures
        entry_in_bounds(0, ver),
        entry_in_bounds(1, ver),
        entry_in_bounds(2, ver),
        entry_in_bounds(3, ver),
        levels_ordered(ver),
        spec_num_data_codewords(ver, QrCodeEcc::Low) <= 2956,
{
    if ver == 26 {
        assert(spec_num_raw_codewords(26) == 1706) by (nonlinear_arith);
        lemma_version_entries(26, 1706, 28, 12, 28, 23, 28, 34, 30, 37);
    }     else if ver == 27 {
        assert(spec_num_raw_codewords(27) == 1828) by (nonlinear_arith);
        lemma_version_entries(27, 1828, 30, 12, 28, 25, 30, 34, 30, 40);
    }     else if ver == 28 {
        assert(spec_num_raw_codewords(28) == 1921) by (nonlinear_arith);
        lemma_version_entries(28, 1921, 30, 13, 28, 26, 30, 35, 30, 42);
    }     else if ver == 29 {
        assert(spec_num_raw_codewords(29) == 2051) by (nonlinear_arith);
        lemma_version_entries(29, 2051, 30, 14, 28, 28, 30, 38, 30, 45);
    }     else if ver == 30 {
        assert(spec_num_raw_codewords(30) == 2185) by (nonlinear_arith);
        lemma_version_entries(30, 2185, 30, 15, 28, 29, 30, 40, 30, 48);
    }
}

/// The entries of versions 31 to 35.
#[verifier::spinoff_prover]
#[verifier::rlimit(40)]
proof fn lemma_table_entries_31_to_35(ver: int)
    requires
        31 <= ver <= 35,
    ensures
        entry_in_bounds(0, ver),
        entry_in_bounds(1, ver),
        entry_in_bounds(2, ver),
        entry_in_bounds(3, ver),
        levels_ordered(ver),
        spec_num_data_codewords(ver, QrCodeEcc::Low) <= 2956,
{
    if ver == 31 {
        assert(spec_num_raw_codewords(31) == 2323) by (nonlinear_arith);
        lemma_version_entries(31, 2323, 30, 16, 28, 31, 30, 43, 30, 51);
    }     else if ver == 32 {
        assert(spec_num_raw_codewords(32) == 2465) by (nonlinear_arith);
        lemma_version_entries(32, 2465, 30, 17, 28, 33, 30, 45, 30, 54);
    }     else if ver == 33 {
        assert(spec_num_raw_codewords(33) == 2611) by (nonlinear_arith);
        lemma_version_entries(33, 2611, 30, 18, 28, 35, 30, 48, 30, 57);
    }     else if ver == 34 {
        assert(spec_num_raw_codewords(34) == 2761) by (nonlinear_arith);
        lemma_version_entries(34, 2761, 30, 19, 28, 37, 30, 51, 30, 60);
    }     else if ver == 35 {
        assert(spec_num_raw_codewords(35) == 2876) by (nonlinear_arith);
        lemma_version_entries(35, 2876, 30, 19, 28, 38, 30, 53, 30, 63);
    }
}

/// The entries of versions 36 to 40.
#[verifier::spinoff_prover]
#[verifier::rlimit(40)]
proof fn lemma_table_entries_36_to_40(ver: int)
    requires
        36 <= ver <= 40,
    ensures
        entry_in_bounds(0, ver),
        entry_in_bounds(1, ver),
        entry_in_bounds(2, ver),
        entry_in_bounds(3, ver),
        levels_ordered(ver),
        spec_num_data_codewords(ver, QrCodeEcc::Low) <= 2956,
        ver == 40 ==> spec_num_data_codewords(ver, QrCodeEcc::Low) == 2956,
{
    if ver == 36 {
        assert(spec_num_raw_codewords(36) == 3034) by (nonlinear_arith);
        lemma_version_entries(36, 3034, 30, 20, 28, 40, 30, 56, 30, 66);
    }     else if ver == 37 {
        assert(spec_num_raw_codewords(37) == 3196) by (nonlinear_arith);
        lemma_version_entries(37, 3196, 30, 21, 28, 43, 30, 59, 30, 70);
    }     else if ver == 38 {
        assert(spec_num_raw_codewords(38) == 3362) by (nonlinear_arith);
        lemma_version_entries(38, 3362, 30, 22, 28, 45, 30, 62, 30, 74);
    }     else if ver == 39 {
        assert(spec_num_raw_codewords(39) == 3532) by (nonlinear_arith);
        lemma_version_entries(39, 3532, 30, 24, 28, 47, 30, 65, 30, 77);
    }     else if ver == 40 {
        assert(spec_num_raw_codewords(40) == 3706) by (nonlinear_arith);
        lemma_version_entries(40, 3706, 30, 25, 28, 49, 30, 68, 30, 81);
    }
}

/// The table entry at the given row and version holds the given two numbers.
pub open spec fn entry_is(ecl: int, ver: int, ecc: int, blocks: int) -> bool {
    &&& spec_ecc_codewords_per_block(ecl, ver) == ecc
    &&& spec_num_error_correction_blocks(ecl, ver) == blocks
}

/// Whether the two numbers are in bounds for a version with the given count of codewords.
pub open spec fn numbers_in_bounds(raw: int, ecc: int, blocks: int) -> bool {
    &&& 1 <= blocks <= 81
    &&& 7 <= ecc <= 30
    &&& (ecc + 1) * blocks <= raw
}

/// From the numbers of the four entries of a version, what the block layout
/// and the order of the levels need.
proof fn lemma_version_entries(
    ver: int,
    raw: int,
    ecc0: int,
    blocks0: int,
    ecc1: int,
    blocks1: int,
    ecc2: int,
    blocks2: int,
    ecc3: int,
    blocks3: int,
)
    requires
        spec_num_raw_codewords(ver) == raw,
        entry_is(0, ver, ecc0, blocks0),
        entry_is(1, ver, ecc1, blocks1),
        entry_is(2, ver, ecc2, blocks2),
        entry_is(3, ver, ecc3, blocks3),
        numbers_in_bounds(raw, ecc0, blocks0),
        numbers_in_bounds(raw, ecc1, blocks1),
        numbers_in_bounds(raw, ecc2, blocks2),
        numbers_in_bounds(raw, ecc3, blocks3),
        ecc0 * blocks0 <= ecc1 * blocks1,
        ecc1 * blocks1 <= ecc2 * blocks2,
        ecc2 * blocks2 <= ecc3 * blocks3,
        raw - ecc0 * blocks0 <= 2956,
    ensures
        entry_in_bounds(0, ver),
        entry_in_bounds(1, ver),
        entry_in_bounds(2, ver),
        entry_in_bounds(3, ver),
        levels_ordered(ver),
        spec_num_data_codewords(ver, QrCodeEcc::Low) <= 2956,
        spec_num_data_codewords(ver, QrCodeEcc::Low) == raw - ecc0 * blocks0,
{
}

/// The raw module count of every version lies in [208, 29648], and at each of
/// the four levels eight times the data codeword count is at most that count.
pub proof fn lemma_capacity_bounds(ver: int, ecl: QrCodeEcc)
    requires
        1 <= ver <= 40,
    ensures
        208 <= spec_num_raw_data_modules(ver) <= 29648,
        1 <= spec_num_data_codewords(ver, ecl),
        spec_num_data_codewords(ver, ecl) * 8 <= spec_num_raw_data_modules(ver),
{
    lemma_table_entries(ver, ecl);
    lemma_raw_data_modules_bounds(ver);
    let blocks = spec_num_error_correction_blocks(ecl.spec_ordinal(), ver);
    let ecc = spec_ecc_codewords_per_block(ecl.spec_ordinal(), ver);
    assert((ecc + 1) * blocks == ecc * blocks + blocks) by (nonlinear_arith);
    assert(0 <= ecc * blocks) by (nonlinear_arith)
        requires
            0 <= ecc,
            0 <= blocks,
    ;
}

/// The largest symbol at the lowest level holds 2956 data codewords, and no
/// symbol holds more.
pub proof fn lemma_largest_capacity(ver: int, ecl: QrCodeEcc)
    requires
        1 <= ver <= 40,
    ensures
        spec_num_data_codewords(40, QrCodeEcc::Low) == 2956,
        spec_num_data_codewords(ver, ecl) <= 2956,
{
    lemma_table_entries(ver, ecl);
    lemma_table_entries(40, QrCodeEcc::Low);
}

/// The raw module count grows with the version and stays in [208, 29648].
pub proof fn lemma_raw_data_modules_bounds(ver: int)
    requires
        1 <= ver <= 40,
    ensures
        208 <= spec_num_raw_data_modules(ver) <= 29648,
{
    let numalign = ver / 7 + 2;
    assert(2 <= numalign <= 7);
    assert(16 * 1 + 128 <= (16 * ver + 128) * ver + 64 - 64) by (nonlinear_arith)
        requires
            1 <= ver,
    ;
    if ver < 7 {
        assert(numalign == 2);
    } else if ver < 14 {
        assert(numalign == 3);
        assert((16 * ver + 128) * ver >= (16 * 7 + 128) * 7) by (nonlinear_arith)
            requires
                7 <= ver,
        ;
    } else if ver < 21 {
        assert(numalign == 4);
        assert((16 * ver + 128) * ver >= (16 * 14 + 128) * 14) by (nonlinear_arith)
            requires
                14 <= ver,
        ;
    } else if ver < 28 {
        assert(numalign == 5);
        assert((16 * ver + 128) * ver >= (16 * 21 + 128) * 21) by (nonlinear_arith)
            requires
                21 <= ver,
        ;
    } else if ver < 35 {
        assert(numalign == 6);
        assert((16 * ver + 128) * ver >= (16 * 28 + 128) * 28) by (nonlinear_arith)
            requires
                28 <= ver,
        ;
    } else {
        assert(numalign == 7);
        assert((16 * ver + 128) * ver >= (16 * 35 + 128) * 35) by (nonlinear_arith)
            requires
                35 <= ver,
        ;
    }
    assert((16 * ver + 128) * ver <= (16 * 40 + 128) * 40) by (nonlinear_arith)
        requires
            1 <= ver <= 40,
    ;
}

impl QrCode {
    /// Returns the number of data bits that can be stored in a QR Code of the given version number, after
    /// all function modules are excluded. This includes remainder bits, so it might not be a multiple of 8.
    /// The result is in the range [208, 29648].
    pub fn get_num_raw_data_modules(ver: Version) -> (n: usize)
        ensures
            n == spec_num_raw_data_modules(ver.spec_value()),
            208 <= n <= 29648,
    {
        let ver: usize = ver.value() as usize;
        proof {
            lemma_raw_data_modules_bounds(ver as int);
            assert((16 * ver + 128) * ver <= (16 * 40 + 128) * 40) by (nonlinear_arith)
                requires
                    1 <= ver <= 40,
            ;
        }
        let mut result: usize = (16 * ver + 128) * ver + 64;
        if ver >= 2 {
            let numalign: usize = ver / 7 + 2;
            assert((25 * numalign - 10) * numalign <= (25 * 7 - 10) * 7) by (nonlinear_arith)
                requires
                    2 <= numalign <= 7,
            ;
            assert((25 * numalign - 10) * numalign >= (25 * 2 - 10) * 2) by (nonlinear_arith)
                requires
                    2 <= numalign <= 7,
            ;
            result -= (25 * numalign - 10) * numalign - 55;
            if ver >= 7 {
                result -= 36;
            }
        }
        result
    }

    /// Returns an entry from the given table based on the given values.
    /// The entry must not be the padding value.
    pub fn table_get(table: &[[i8; 41]; 4], ver: Version, ecl: QrCodeEcc) -> (n: usize)
        requires
            table@[ecl.spec_ordinal()]@[ver.spec_value()] >= 0,
        ensures
            n == table@[ecl.spec_ordinal()]@[ver.spec_value()],
    {
        table[ecl.ordinal()][ver.value() as usize] as usize
    }

    /// Returns the number of 8-bit data (i.e. not error correction) codewords contained in any
    /// QR Code of the given version number and error correction level, with remainder bits discarded.
    pub fn get_num_data_codewords(ver: Version, ecl: QrCodeEcc) -> (n: usize)
        ensures
            n == spec_num_data_codewords(ver.spec_value(), ecl),
            1 <= n,
            n * 8 <= 29648,
    {
        proof {
            use_type_invariant(&ver);
            lemma_table_entries(ver.spec_value(), ecl);
            lemma_capacity_bounds(ver.spec_value(), ecl);
        }
        let ecc: usize = QrCode::table_get(&ECC_CODEWORDS_PER_BLOCK, ver, ecl);
        let blocks: usize = QrCode::table_get(&NUM_ERROR_CORRECTION_BLOCKS, ver, ecl);
        assert(ecc * blocks <= 30 * 81) by (nonlinear_arith)
            requires
                ecc <= 30,
                blocks <= 81,
        ;
        assert((ecc + 1) * blocks == ecc * blocks + blocks) by (nonlinear_arith);
        QrCode::get_num_raw_data_modules(ver) / 8 - ecc * blocks
    }
}

} // verus!
