//! Generates QR Code Model 2 symbols from text, bytes or hand-made segments.
//!
//! Every executable item carries a contract stated over mathematical models of
//! the symbol: the capacity tables, the Reed-Solomon arithmetic, the bit
//! strings of the segments and the colour of each module of the finished grid.
//!
//! The way from a payload to a symbol, and the module of each step:
//!
//! - `segment`: a payload becomes segments, each with a mode and its data bits;
//!   `qr_segment_advanced` splits a text into segments of several modes.
//! - `assemble`: the smallest version that holds the segments is chosen, the
//!   error correction level is raised if asked for, and the segments become
//!   data codewords with terminator and padding.
//! - `reed_solomon`, `interleave`: the data codewords are split into blocks,
//!   each block gets its error correction codewords, and the blocks are
//!   interleaved.
//! - `pattern`, `draw`: the function patterns are drawn.
//! - `symbol`, `codewords`: the codewords are drawn in a zigzag scan, and a
//!   mask is applied.
//! - `penalty`, `encode`: the mask with the lowest penalty score is chosen,
//!   and the symbol is finished.
//!
//! Beside the contracts, the library proves theorems about its models:
//!
//! - `tables::lemma_capacity_bounds`: the capacity of every version.
//! - `reed_solomon::lemma_codeword_remainder_is_zero`: data with its error
//!   correction codewords divides evenly by the divisor.
//! - `symbol::lemma_mask_involution`, `QrCode::lemma_masked_twice`: a mask
//!   applied twice changes nothing.
//! - `encode::lemma_automatic_mask_is_best`: no forced mask scores lower than
//!   the mask that is chosen.
//! - `alignment::lemma_alignment_positions`: where the alignment patterns stand.
//! - `filling::lemma_free_modules`, `filling::lemma_every_bit_has_its_module`,
//!   `filling::lemma_one_module_for_each_bit`: the codewords fill the symbol,
//!   each bit in a module of its own.
//! - `split_cost::lemma_split_takes_fewest_bits`: no other split of a text
//!   into segments takes fewer bits.
//! - `assemble::lemma_boost_is_monotonic`: the boost never lowers the level.

pub mod alignment;
pub mod assemble;
pub mod bit_buffer;
pub mod codewords;
pub mod draw;
pub mod encode;
pub mod filling;
pub mod interleave;
pub mod pattern;
pub mod penalty;
pub mod qr_code;
pub mod qr_segment_advanced;
pub mod reed_solomon;
pub mod segment;
pub mod split_cost;
pub mod symbol;
pub mod tables;
pub mod version;

pub use crate::assemble::DataTooLong;
pub use crate::bit_buffer::BitBuffer;
pub use crate::penalty::FinderPenalty;
pub use crate::qr_code::QrCode;
pub use crate::qr_segment_advanced::{
    is_encodable_as_kanji, is_kanji, make_kanji, make_segments_optimally, QrSegmentAdvanced,
};
pub use crate::segment::{QrSegment, QrSegmentMode};
pub use crate::version::{get_bit, Mask, QrCodeEcc, Version};
