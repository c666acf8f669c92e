//! A binary serialization library for statically-typed records, with a
//! compact self-describing payload and cursor-based zero-copy decoding.
//!
//! A payload is four regions: an eight-byte header (total length and
//! offset-table offset, both little-endian), the fixed region, the offset
//! table (one little-endian u32 per variable segment) and the data region.
//! [`Encoder`] accumulates field pushes and assembles a payload;
//! [`Decoder`] validates a buffer's header and hands out borrowed slices.
//! Fields are classified as fixed, var1 (one variable segment) or var2
//! (one segment per inner sequence); a var2 field must be a record's last
//! field, and the derivation walk in [`collect_field_flags`] enforces that
//! rule.  The roundtrip laws are stated and proved over the record model:
//! see [`lemma_record_roundtrip`].

use vstd::prelude::*;

mod codec;
mod config;
mod decode;
mod decoder;
mod encode;
mod encoder;
mod properties;
mod record;
mod scalar;

pub use codec::CodecError;
pub use decode::{
    decode_bytes_field, decode_fixed_array_u16_2, decode_fixed_slice_u16, decode_fixed_slice_u32,
    decode_fixed_slice_u8_ref, decode_fixed_value_i16, decode_fixed_value_i32,
    decode_fixed_value_i64, decode_fixed_value_i8, decode_fixed_value_u16, decode_fixed_value_u32,
    decode_fixed_value_u64, decode_fixed_value_u8, decode_var2_bytes_field,
    decode_var2_vec_u16_field, decode_vec_u16_field, decode_vec_u32_field, spec_same_stream,
};
pub use record::{
    cat, collect_field_flags, decode_record, encode_record, field_metas, is_fixed_ty, kind_of,
    lemma_derivation_rejects_misplaced_var2, lemma_record_roundtrip,
    lemma_record_roundtrip_fixed_only, push_field_value, spec_data_parts, spec_decoded_field,
    spec_field_decodable, spec_fields_ok, spec_fix_parts, spec_flag_index, spec_is_fixed_ty,
    spec_is_var_ty, spec_kind_of, spec_last_var_before, spec_len_parts, spec_meta_of_val,
    spec_metas_flag_index, spec_metas_last_var_before, spec_metas_of_vals, spec_record_data,
    spec_record_decodable, spec_record_encodable, spec_record_fixed, spec_record_lengths,
    spec_record_payload, spec_segs_fit, spec_tail_segments_ok, spec_val_data, spec_val_fits,
    spec_val_fixed, spec_val_lengths, spec_val_ok, spec_vals_flag_index,
    spec_vals_last_var_before, spec_vals_view, spec_vpre, spec_wpre, FieldKind, FieldMeta,
    FieldTy, FieldVal, FieldValue,
};
pub use encode::{
    spec_var2_u16_data, spec_var2_u16_lengths, spec_var2_u8_data, spec_var2_u8_lengths, Encode,
};
pub use decoder::{
    spec_buf_data_offset, spec_buf_entry, spec_buf_fixed, spec_buf_segment, spec_buf_segment_end,
    spec_buf_segment_ok, spec_buf_total, spec_buf_var_count, spec_buf_vio, spec_header_ok,
    spec_le32_at, Decoder,
};
pub use encoder::{
    index_bytes, lemma_index_bytes_len, lemma_payload_len, lemma_sum_prefix_mono, spec_data_start,
    spec_entry, spec_finalize_ok, spec_payload, spec_total_len, spec_var_index_offset, sum_prefix,
    Encoder,
};
pub use config::{Config, ConfigBuilder, DEFAULT_MAGIC};
pub use properties::{
    lemma_header_consistency, lemma_index_bytes_entry, lemma_monotone_index, lemma_payload_parses,
    lemma_structure_endian_independent,
};
pub use scalar::{
    lemma_endian_bytes, lemma_reverse_reverse, lemma_u16_roundtrip, lemma_u16_seq_bytes_len,
    lemma_u16_seq_extract, lemma_u16_seq_roundtrip, lemma_u32_roundtrip, lemma_u32_seq_bytes_len,
    lemma_u32_seq_extract, lemma_u32_seq_roundtrip, lemma_u64_roundtrip, push_bytes, push_u16,
    push_u32, push_u64, push_u8, read_u16, read_u32, read_u64, read_u8, reverse_bytes,
    spec_u16_bytes, spec_u16_of_bytes, spec_u16_seq_bytes, spec_u16_seq_of_bytes, spec_u32_bytes,
    spec_u32_of_bytes, spec_u32_seq_bytes, spec_u32_seq_of_bytes, spec_u64_bytes,
    spec_u64_of_bytes, spec_u8_bytes, spec_u8_of_bytes,
};

verus! {

/// Byte order used when encoding or decoding multi-byte scalar values.
///
/// The choice is never written to the wire: encoder and decoder must agree on
/// it out of band.  `Native` is treated as little-endian on the wire, so the
/// payload header and offset table stay decodable without prior agreement.
#[derive(Debug, Clone, Copy, PartialEq, Eq, Structural)]
pub enum Endian {
    /// Little-endian byte order.
    Little,
    /// Big-endian byte order.
    Big,
    /// Native byte order of the host (treated as little-endian on the wire).
    Native,
}

} // verus!
