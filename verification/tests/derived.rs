// The encode/decode routines a record derivation produces, written out by
// hand for a few concrete record shapes: each record encodes as one var1
// segment holding its own payload, and decodes through a nested decoder
// borrowing that segment.

use pufu::{
    decode_bytes_field, decode_fixed_value_u16, decode_fixed_value_u32, decode_fixed_value_u64,
    decode_fixed_value_u8, decode_var2_bytes_field, decode_var2_vec_u16_field,
    decode_vec_u16_field, Config, Decoder, Encode, Encoder,
};

struct SimplePayload {
    id: u16,
    payload: Vec<u8>,
}

#[test]
fn derive_encode_decode_roundtrip_var1() {
    let value = SimplePayload {
        id: 0x1234,
        payload: vec![0xaa, 0xbb, 0xcc],
    };

    let mut encoder = Encoder::new(Config::default());
    // The record encodes into a nested encoder, and its payload becomes one
    // var1 segment of the outer encoder.
    let mut nested = Encoder::new(Config::default());
    value.id.encode_field(false, &mut nested);
    value.payload.encode_field(true, &mut nested);
    let mut nested_payload = Vec::new();
    nested.finalize(&mut nested_payload).expect("finalize");
    nested_payload.encode_field(true, &mut encoder);

    let mut out = Vec::new();
    encoder.finalize(&mut out).expect("finalize");

    let mut decoder = Decoder::new(&out).expect("decoder");
    let record_bytes = decode_bytes_field(&mut decoder).expect("view");
    let mut inner = Decoder::new(record_bytes).expect("decoder");
    let view_id = decode_fixed_value_u16(&mut inner).expect("view");
    let view_payload = decode_bytes_field(&mut inner).expect("view");

    assert_eq!(view_id, value.id);
    assert_eq!(view_payload, value.payload.as_slice());
}

struct NestedPayload {
    fixed: u8,
    payload: Vec<u8>,
    nested: Vec<Vec<u16>>,
}

#[test]
fn derive_encode_decode_roundtrip_var2_last() {
    let value = NestedPayload {
        fixed: 0x7f,
        payload: vec![0x10, 0x20],
        nested: vec![vec![1, 2], vec![3]],
    };

    let mut encoder = Encoder::new(Config::default());
    let mut nested = Encoder::new(Config::default());
    value.fixed.encode_field(false, &mut nested);
    value.payload.encode_field(false, &mut nested);
    value.nested.encode_field(true, &mut nested);
    let mut nested_payload = Vec::new();
    nested.finalize(&mut nested_payload).expect("finalize");
    nested_payload.encode_field(true, &mut encoder);

    let mut out = Vec::new();
    encoder.finalize(&mut out).expect("finalize");

    let mut decoder = Decoder::new(&out).expect("decoder");
    let record_bytes = decode_bytes_field(&mut decoder).expect("view");
    let mut inner = Decoder::new(record_bytes).expect("decoder");
    let view_fixed = decode_fixed_value_u8(&mut inner).expect("view");
    let view_payload = decode_bytes_field(&mut inner).expect("view");
    let view_nested = decode_var2_vec_u16_field(&mut inner, true).expect("view");

    assert_eq!(view_fixed, value.fixed);
    assert_eq!(view_payload, value.payload.as_slice());
    assert_eq!(view_nested, value.nested);
}

struct InnerPayload {
    tag: u16,
    data: Vec<u8>,
}

struct OuterPayload {
    version: u8,
    inner: InnerPayload,
    tail: u32,
}

#[test]
fn derive_encode_decode_roundtrip_nested() {
    let value = OuterPayload {
        version: 1,
        inner: InnerPayload {
            tag: 0x0203,
            data: vec![0xde, 0xad, 0xbe, 0xef],
        },
        tail: 0x0a0b0c0d,
    };

    let mut encoder = Encoder::new(Config::default());
    let mut outer_enc = Encoder::new(Config::default());
    value.version.encode_field(false, &mut outer_enc);
    // The nested record is one var1 segment holding its own payload.
    let mut inner_enc = Encoder::new(Config::default());
    value.inner.tag.encode_field(false, &mut inner_enc);
    value.inner.data.encode_field(true, &mut inner_enc);
    let mut inner_payload = Vec::new();
    inner_enc.finalize(&mut inner_payload).expect("finalize");
    inner_payload.encode_field(false, &mut outer_enc);
    value.tail.encode_field(true, &mut outer_enc);
    let mut outer_payload = Vec::new();
    outer_enc.finalize(&mut outer_payload).expect("finalize");
    outer_payload.encode_field(true, &mut encoder);

    let mut out = Vec::new();
    encoder.finalize(&mut out).expect("finalize");

    let mut decoder = Decoder::new(&out).expect("decoder");
    let record_bytes = decode_bytes_field(&mut decoder).expect("view");
    let mut outer_dec = Decoder::new(record_bytes).expect("decoder");
    let view_version = decode_fixed_value_u8(&mut outer_dec).expect("view");
    let inner_bytes = decode_bytes_field(&mut outer_dec).expect("view");
    let mut inner_dec = Decoder::new(inner_bytes).expect("decoder");
    let view_tag = decode_fixed_value_u16(&mut inner_dec).expect("view");
    let view_data = decode_bytes_field(&mut inner_dec).expect("view");
    let view_tail = decode_fixed_value_u32(&mut outer_dec).expect("view");

    assert_eq!(view_version, value.version);
    assert_eq!(view_tag, value.inner.tag);
    assert_eq!(view_data, value.inner.data.as_slice());
    assert_eq!(view_tail, value.tail);
}

struct EncodeEncodeExpand {
    fixed_a: u32,
    fixed_b: u16,
    var1_a: Vec<u16>,
    var1_c: Vec<u8>,
    fixed_c: u8,
    var1_b: Vec<u16>,
    fixed_d: u64,
    var2: Vec<Vec<u8>>,
}

struct EncodeEncodeExpandOuter {
    prefix: u8,
    inner: EncodeEncodeExpand,
    suffix: Vec<u8>,
}

#[test]
fn derive_encode_matches_encode_encode_expand_fixture() {
    let inner = EncodeEncodeExpand {
        fixed_a: 0x0102_0304,
        fixed_b: 0x0506,
        var1_a: vec![10, 20, 30],
        var1_c: vec![9, 8, 7, 6],
        fixed_c: 0x07,
        var1_b: vec![0x0a0b, 0x0c0d],
        fixed_d: 0x1213_1415_1617_1819,
        var2: vec![vec![1, 2, 3], vec![4, 5]],
    };

    let value = EncodeEncodeExpandOuter {
        prefix: 0x42,
        inner,
        suffix: vec![0x0f, 0xee, 0xdd],
    };

    let mut encoder = Encoder::new(Config::default());
    let mut outer_enc = Encoder::new(Config::default());
    value.prefix.encode_field(false, &mut outer_enc);
    let mut inner_enc = Encoder::new(Config::default());
    value.inner.fixed_a.encode_field(false, &mut inner_enc);
    value.inner.fixed_b.encode_field(false, &mut inner_enc);
    value.inner.var1_a.encode_field(false, &mut inner_enc);
    value.inner.var1_c.encode_field(false, &mut inner_enc);
    value.inner.fixed_c.encode_field(false, &mut inner_enc);
    value.inner.var1_b.encode_field(false, &mut inner_enc);
    value.inner.fixed_d.encode_field(false, &mut inner_enc);
    value.inner.var2.encode_field(true, &mut inner_enc);
    let mut inner_payload = Vec::new();
    inner_enc.finalize(&mut inner_payload).expect("finalize");
    inner_payload.encode_field(false, &mut outer_enc);
    value.suffix.encode_field(true, &mut outer_enc);
    let mut outer_payload = Vec::new();
    outer_enc.finalize(&mut outer_payload).expect("finalize");
    outer_payload.encode_field(true, &mut encoder);

    let mut out = Vec::new();
    encoder.finalize(&mut out).expect("finalize");

    let expected = "5e000000080000000c000000520000000900000042110000004f0000003e000000170000000403020106050719181716151413122b0000003100000035000000390000003c0000000a0014001e00090807060b0a0d0c01020304050feedd";
    assert_eq!(hex::encode(&out), expected);

    // The same record decodes back field for field.
    let mut decoder = Decoder::new(&out).expect("decoder");
    let record_bytes = decode_bytes_field(&mut decoder).expect("view");
    let mut outer_dec = Decoder::new(record_bytes).expect("decoder");
    let view_prefix = decode_fixed_value_u8(&mut outer_dec).expect("view");
    let inner_bytes = decode_bytes_field(&mut outer_dec).expect("view");
    let mut inner_dec = Decoder::new(inner_bytes).expect("decoder");
    let view_fixed_a = decode_fixed_value_u32(&mut inner_dec).expect("view");
    let view_fixed_b = decode_fixed_value_u16(&mut inner_dec).expect("view");
    let view_var1_a = decode_vec_u16_field(&mut inner_dec).expect("view");
    let view_var1_c = decode_bytes_field(&mut inner_dec).expect("view");
    let view_fixed_c = decode_fixed_value_u8(&mut inner_dec).expect("view");
    let view_var1_b = decode_vec_u16_field(&mut inner_dec).expect("view");
    let view_fixed_d = decode_fixed_value_u64(&mut inner_dec).expect("view");
    let view_var2 = decode_var2_bytes_field(&mut inner_dec, true).expect("view");
    let view_suffix = decode_bytes_field(&mut outer_dec).expect("view");

    assert_eq!(view_prefix, value.prefix);
    assert_eq!(view_fixed_a, value.inner.fixed_a);
    assert_eq!(view_fixed_b, value.inner.fixed_b);
    assert_eq!(view_var1_a, value.inner.var1_a);
    assert_eq!(view_var1_c, value.inner.var1_c.as_slice());
    assert_eq!(view_fixed_c, value.inner.fixed_c);
    assert_eq!(view_var1_b, value.inner.var1_b);
    assert_eq!(view_fixed_d, value.inner.fixed_d);
    assert_eq!(view_var2.len(), value.inner.var2.len());
    for (decoded_item, expected_item) in view_var2.iter().zip(value.inner.var2.iter()) {
        assert_eq!(*decoded_item, expected_item.as_slice());
    }
    assert_eq!(view_suffix, value.suffix.as_slice());
}
