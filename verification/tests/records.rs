use pufu::{
    collect_field_flags, decode_record, encode_record, field_metas, kind_of, push_field_value,
    CodecError, Config, Decoder, Encoder, FieldKind, FieldMeta, FieldTy, FieldValue,
};

// ---------------------------------------------------------------------------
// Classification and the placement rule.
// ---------------------------------------------------------------------------

#[test]
fn classification_by_nesting_depth() {
    assert_eq!(kind_of(&FieldTy::Scalar(4)), Some(FieldKind::Fixed));
    assert_eq!(
        kind_of(&FieldTy::Array(Box::new(FieldTy::Scalar(2)), 2)),
        Some(FieldKind::Fixed)
    );
    assert_eq!(
        kind_of(&FieldTy::Vector(Box::new(FieldTy::Scalar(2)))),
        Some(FieldKind::Var1)
    );
    assert_eq!(
        kind_of(&FieldTy::Vector(Box::new(FieldTy::Vector(Box::new(
            FieldTy::Scalar(2)
        ))))),
        Some(FieldKind::Var2)
    );
    assert_eq!(
        kind_of(&FieldTy::Record(vec![FieldTy::Scalar(1)])),
        Some(FieldKind::Var1)
    );
    // A sequence nested three deep cannot be classified.
    assert_eq!(
        kind_of(&FieldTy::Vector(Box::new(FieldTy::Vector(Box::new(
            FieldTy::Vector(Box::new(FieldTy::Scalar(1)))
        ))))),
        None
    );
}

#[test]
fn derivation_rejects_var2_not_last() {
    // payload: Vec<u8>, nested: Vec<Vec<u16>>, tail: u32 -- var2 not last.
    let fields = vec![
        FieldTy::Vector(Box::new(FieldTy::Scalar(1))),
        FieldTy::Vector(Box::new(FieldTy::Vector(Box::new(FieldTy::Scalar(2))))),
        FieldTy::Scalar(4),
    ];
    assert_eq!(collect_field_flags(&fields), Err(CodecError::InvalidLength));
}

#[test]
fn derivation_rejects_triple_nested_vector() {
    let fields = vec![FieldTy::Vector(Box::new(FieldTy::Vector(Box::new(
        FieldTy::Vector(Box::new(FieldTy::Scalar(1))),
    ))))];
    assert_eq!(collect_field_flags(&fields), Err(CodecError::InvalidLength));
}

#[test]
fn derivation_flags_mark_last_variable_field() {
    // fixed, var1, fixed: the var1 field carries the flag.
    let fields = vec![
        FieldTy::Scalar(1),
        FieldTy::Vector(Box::new(FieldTy::Scalar(1))),
        FieldTy::Scalar(4),
    ];
    assert_eq!(collect_field_flags(&fields), Ok(vec![false, true, false]));

    // All fixed: the last field trivially carries the flag.
    let fields = vec![FieldTy::Scalar(1), FieldTy::Scalar(2)];
    assert_eq!(collect_field_flags(&fields), Ok(vec![false, true]));

    // A var2 field in last position is accepted.
    let fields = vec![
        FieldTy::Vector(Box::new(FieldTy::Scalar(1))),
        FieldTy::Vector(Box::new(FieldTy::Vector(Box::new(FieldTy::Scalar(2))))),
    ];
    assert_eq!(collect_field_flags(&fields), Ok(vec![false, true]));
}

// ---------------------------------------------------------------------------
// The runtime engine: encode_record / decode_record.
// ---------------------------------------------------------------------------

#[test]
fn record_engine_roundtrips_mixed_fields() {
    let fields = vec![
        FieldValue::Fixed(vec![0xaa, 0xbb]),
        FieldValue::Var1(vec![1, 2, 3]),
        FieldValue::Var2(vec![vec![4], vec![5, 6], vec![]]),
    ];
    let out = encode_record(&fields, Config::default()).expect("encode");

    let metas = field_metas(&fields);
    assert_eq!(metas, vec![FieldMeta::Fixed(2), FieldMeta::Var1, FieldMeta::Var2]);
    let decoded = decode_record(&out, &metas).expect("decode");
    assert_eq!(decoded, fields);
    assert_eq!(decoded.len(), 3);
    match &decoded[0] {
        FieldValue::Fixed(b) => assert_eq!(b, &vec![0xaa, 0xbb]),
        _ => panic!("expected a fixed field"),
    }
    match &decoded[1] {
        FieldValue::Var1(b) => assert_eq!(b, &vec![1, 2, 3]),
        _ => panic!("expected a var1 field"),
    }
    match &decoded[2] {
        FieldValue::Var2(ss) => assert_eq!(ss, &vec![vec![4], vec![5, 6], vec![]]),
        _ => panic!("expected a var2 field"),
    }
}

#[test]
fn record_engine_empty_record_is_bare_header() {
    let out = encode_record(&vec![], Config::default()).expect("encode");
    assert_eq!(out, vec![0x08, 0x00, 0x00, 0x00, 0x08, 0x00, 0x00, 0x00]);
    let decoded = decode_record(&out, &vec![]).expect("decode");
    assert_eq!(decoded.len(), 0);
}

#[test]
fn record_engine_refuses_var2_before_var1() {
    // The var2 value is not the last variable field, so its flag is false
    // and the push is refused at runtime.
    let fields = vec![
        FieldValue::Var2(vec![vec![1]]),
        FieldValue::Var1(vec![2]),
    ];
    assert_eq!(
        encode_record(&fields, Config::default()),
        Err(CodecError::InvalidLength)
    );
}

#[test]
fn push_field_value_refuses_unflagged_var2() {
    let mut enc = Encoder::new(Config::default());
    let v = FieldValue::Var2(vec![vec![1, 2], vec![3]]);
    assert_eq!(
        push_field_value(&mut enc, &v, false),
        Err(CodecError::InvalidLength)
    );
    // Nothing was pushed.
    assert_eq!(enc.fixed, Vec::<u8>::new());
    assert_eq!(enc.var_length, Vec::<u32>::new());
    assert_eq!(enc.data, Vec::<u8>::new());
    // With the flag the same value is accepted.
    assert_eq!(push_field_value(&mut enc, &v, true), Ok(()));
    assert_eq!(enc.var_length, vec![2, 1]);
    assert_eq!(enc.data, vec![1, 2, 3]);
}

#[test]
fn decode_record_refuses_unflagged_var2_meta() {
    let buf = vec![8, 0, 0, 0, 8, 0, 0, 0];
    // A var2 shape that is not the last variable shape is refused.
    let metas = vec![FieldMeta::Var2, FieldMeta::Var1];
    assert_eq!(decode_record(&buf, &metas), Err(CodecError::InvalidLength));
}

// ---------------------------------------------------------------------------
// Malformed buffers.
// ---------------------------------------------------------------------------

fn header(total: u32, vio: u32) -> Vec<u8> {
    let mut b = Vec::new();
    b.extend_from_slice(&total.to_le_bytes());
    b.extend_from_slice(&vio.to_le_bytes());
    b
}

#[test]
fn decoder_rejects_truncated_header() {
    let buf = vec![0x08, 0x00, 0x00];
    assert!(Decoder::new(&buf).is_err());
}

#[test]
fn decoder_rejects_total_longer_than_buffer() {
    let buf = header(9, 8);
    assert!(Decoder::new(&buf).is_err());
}

#[test]
fn decoder_rejects_var_index_offset_below_header() {
    let buf = header(8, 4);
    assert!(Decoder::new(&buf).is_err());
}

#[test]
fn decoder_rejects_var_index_offset_beyond_total() {
    let mut buf = header(12, 16);
    buf.extend_from_slice(&[0, 0, 0, 0]);
    assert!(Decoder::new(&buf).is_err());
}

#[test]
fn decoder_rejects_data_offset_beyond_total() {
    // One entry claiming the data region starts past the end.
    let mut buf = header(12, 8);
    buf.extend_from_slice(&20u32.to_le_bytes());
    assert!(Decoder::new(&buf).is_err());
}

#[test]
fn decoder_rejects_non_multiple_entry_stride() {
    // data_offset - var_index_offset == 6, not a multiple of four.
    let mut buf = header(16, 8);
    buf.extend_from_slice(&14u32.to_le_bytes());
    buf.extend_from_slice(&[0, 0, 0, 0]);
    assert!(Decoder::new(&buf).is_err());
}

#[test]
fn decoder_rejects_segment_outside_data_region() {
    // Two entries; the second points back before the data region, so the
    // first segment's claimed span is inverted.
    let mut buf = header(20, 8);
    buf.extend_from_slice(&16u32.to_le_bytes());
    buf.extend_from_slice(&15u32.to_le_bytes());
    buf.extend_from_slice(&[0, 0, 0, 0]);
    let mut d = Decoder::new(&buf).expect("decoder");
    assert_eq!(d.next_var(), Err(CodecError::InvalidLength));
}

#[test]
fn empty_payload_reports_no_fields_and_refuses_reads() {
    let buf = header(8, 8);
    let mut d = Decoder::new(&buf).expect("decoder");
    assert_eq!(d.var_count(), 0);
    assert_eq!(d.next_fixed_bytes(1), Err(CodecError::InvalidLength));
    assert_eq!(d.next_var(), Err(CodecError::InvalidLength));
}

#[test]
fn decoder_rejects_entries_without_data() {
    // total > var_index_offset but data_offset == var_index_offset:
    // a non-empty tail must carry at least one entry.
    let mut buf = header(12, 8);
    buf.extend_from_slice(&8u32.to_le_bytes());
    assert!(Decoder::new(&buf).is_err());
}

#[test]
fn codec_error_describes_itself() {
    assert_eq!(CodecError::InvalidLength.describe(), "invalid length");
    assert_eq!(CodecError::ValidationFailed.describe(), "validation failed");
    assert_eq!(
        CodecError::Message("bad magic".to_string()).describe(),
        "bad magic"
    );
}
