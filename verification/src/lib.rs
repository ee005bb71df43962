//! Cache-efficient, stack-allocated string types with verified contracts.
//!
//! String data lives inline in fixed-size byte buffers, avoiding heap
//! allocations and pointer indirection:
//!
//! - [`BoundedStr`]: variable-length string with a fixed capacity
//! - [`FixedStr`]: exactly-N-byte, NUL-padded string
//! - [`StrVec`]: small string vector multiplexed into one buffer through a
//!   positional bit-mask

mod alignment;
mod alignment_resolver;
mod bitmap;
mod bitmap_resolver;
mod bitmap_words;
mod bounded_str;
mod errors;
mod fixed_str;
mod laws;
mod str_vec;
mod strutil;

pub use alignment::Align8;
pub use alignment::Align16;
pub use alignment::Align32;
pub use alignment::Align64;
pub use alignment::Align128;
pub use alignment_resolver::AlignmentForLength;
pub use alignment_resolver::AlignmentMarker;
pub use alignment_resolver::AlignmentType;
pub use bitmap::Bitmap;
pub use bitmap_resolver::BitmapForLength;
pub use bitmap_resolver::BitmapMarker;
pub use bitmap_resolver::BitmapType;
pub use bitmap::count_set_bits;
pub use bitmap::find_nth_span;
pub use bitmap::ones;
pub use bitmap::span_start;
pub use bitmap::lemma_ones_props;
pub use bounded_str::BoundedStr;
pub use bounded_str::match_at;
pub use bounded_str::first_match_from;
pub use bounded_str::lemma_first_match_from;
pub use bounded_str::split_chars;
pub use bounded_str::split_stored;
pub use errors::ExceedsCapacity;
pub use errors::dec_str;
pub use errors::dec_string;
pub use errors::digit_char;
pub use errors::msg_chars;
pub use fixed_str::FixedStr;
pub use laws::lemma_encode_injective;
pub use laws::lemma_encode_nul;
pub use laws::lemma_bounded_round_trip;
pub use laws::lemma_fixed_round_trip;
pub use laws::lemma_read_after_push;
pub use laws::lemma_vector_round_trip;
pub use laws::lemma_empty_nul_ambiguity;
pub use str_vec::StrVec;
pub use str_vec::stored_item;
pub use str_vec::decoded_item;
pub use str_vec::total_len;
pub use str_vec::stored_items;
pub use str_vec::stored_items_owned;
pub use str_vec::lemma_total_len_push;
pub use str_vec::lemma_total_len_prefix_monotone;
pub use strutil::first_nul;
pub use strutil::nul_seq;
pub use strutil::lemma_first_nul;
pub use strutil::lemma_nul_bytes_valid;

use vstd::prelude::*;

verus! {

/// Variable-length string with a maximum capacity of 7 bytes (8 bytes total).
pub type BStr7 = BoundedStr<7, Align8>;

/// Variable-length string with a maximum capacity of 15 bytes (16 bytes total).
pub type BStr15 = BoundedStr<15, Align16>;

/// Variable-length string with a maximum capacity of 31 bytes (32 bytes total).
pub type BStr31 = BoundedStr<31, Align32>;

/// Variable-length string with a maximum capacity of 63 bytes (64 bytes total).
pub type BStr63 = BoundedStr<63, Align64>;

/// Variable-length string with a maximum capacity of 127 bytes (128 bytes total).
pub type BStr127 = BoundedStr<127, Align128>;

/// Fixed-length string with a capacity of 8 bytes.
pub type FStr8 = FixedStr<8, Align8>;

/// Fixed-length string with a capacity of 16 bytes.
pub type FStr16 = FixedStr<16, Align16>;

/// Fixed-length string with a capacity of 24 bytes.
pub type FStr24 = FixedStr<24, Align8>;

/// Fixed-length string with a capacity of 32 bytes.
pub type FStr32 = FixedStr<32, Align32>;

/// Fixed-length string with a capacity of 64 bytes.
pub type FStr64 = FixedStr<64, Align64>;

/// Fixed-length string with a capacity of 128 bytes.
pub type FStr128 = FixedStr<128, Align128>;

/// String vector with up to 28 items in 28 shared bytes (32 bytes total).
pub type StrVec28 = StrVec<u32, 28, Align32>;

/// String vector with up to 56 items in 56 shared bytes (64 bytes total).
pub type StrVec56 = StrVec<u64, 56, Align64>;

/// String vector with up to 112 items in 112 shared bytes (128 bytes total).
pub type StrVec112 = StrVec<u128, 112, Align128>;

} // verus!
