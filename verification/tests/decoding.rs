use pufu::{
    decode_bytes_field, decode_fixed_array_u16_2, decode_fixed_value_u16, decode_fixed_value_u32,
    decode_fixed_value_u8, decode_var2_vec_u16_field, decode_vec_u16_field, CodecError, Config,
    Decoder, Encode, Encoder, Endian,
};

#[test]
fn decode_fixed_and_var1_vec_fixed() {
    let mut encoder = Encoder::new(Config::default());

    let fixed_u8: u8 = 0xaa;
    let fixed_array: [u16; 2] = [0x0102, 0x0304];
    let var_vec: Vec<u8> = vec![0x0a, 0x0b, 0x0c, 0x0d];

    fixed_u8.encode_field(false, &mut encoder);
    fixed_array.encode_field(false, &mut encoder);
    var_vec.encode_field(true, &mut encoder);

    let mut out = Vec::new();
    encoder.finalize(&mut out).expect("finalize");
    let mut decoder = Decoder::new(&out).expect("decoder");

    let decoded_u8 = decode_fixed_value_u8(&mut decoder).expect("u8");
    let decoded_array = decode_fixed_array_u16_2(&mut decoder).expect("array");
    let decoded_vec = decode_bytes_field(&mut decoder).expect("vec");

    assert_eq!(decoded_u8, fixed_u8);
    assert_eq!(decoded_array, fixed_array);
    assert_eq!(decoded_vec, var_vec.as_slice());
}

#[test]
fn decode_var2_vec_vec_fixed() {
    let mut encoder = Encoder::new(Config::default());
    let outer: Vec<Vec<u16>> = vec![vec![1, 2], vec![3]];

    outer.encode_field(true, &mut encoder);

    let mut out = Vec::new();
    encoder.finalize(&mut out).expect("finalize");
    let mut decoder = Decoder::new(&out).expect("decoder");

    let decoded = decode_var2_vec_u16_field(&mut decoder, true).expect("vec vec");
    assert_eq!(decoded, outer);
}

#[test]
fn decode_fixed_array_rejects_short_fixed_region() {
    let buf = vec![8, 0, 0, 0, 8, 0, 0, 0];
    let mut decoder = Decoder::new(&buf).expect("decoder");
    let decoded = decode_fixed_array_u16_2(&mut decoder);
    assert_eq!(decoded, Err(CodecError::InvalidLength));
}

#[test]
fn decode_vec_fixed_rejects_non_multiple_length() {
    let mut buf = Vec::new();
    let total_len: u32 = 15;
    let var_idx_offset: u32 = 8;
    let data_offset: u32 = 12;
    buf.extend_from_slice(&total_len.to_le_bytes());
    buf.extend_from_slice(&var_idx_offset.to_le_bytes());
    buf.extend_from_slice(&data_offset.to_le_bytes());
    buf.extend_from_slice(&[0x01, 0x02, 0x03]);

    let mut decoder = Decoder::new(&buf).expect("decoder");
    let decoded = decode_vec_u16_field(&mut decoder);
    assert_eq!(decoded, Err(CodecError::InvalidLength));
}

#[test]
fn decode_vec_vec_requires_last_var() {
    let buf = vec![8, 0, 0, 0, 8, 0, 0, 0];
    let mut decoder = Decoder::new(&buf).expect("decoder");
    let decoded = decode_var2_vec_u16_field(&mut decoder, false);
    assert_eq!(decoded, Err(CodecError::InvalidLength));
}

#[test]
fn decode_fixed_big_endian() {
    let mut encoder = Encoder::new(Config::builder().big().build());
    let fixed_u16: u16 = 0x0102;
    fixed_u16.encode_field(true, &mut encoder);

    let mut out = Vec::new();
    encoder.finalize(&mut out).expect("finalize");

    let mut decoder = Decoder::with_endian(&out, Endian::Big).expect("decoder");
    let decoded_u16 = decode_fixed_value_u16(&mut decoder).expect("u16");
    assert_eq!(decoded_u16, fixed_u16);
}

#[test]
fn decode_only_fixed_fields() {
    let mut encoder = Encoder::new(Config::default());
    let a: u8 = 0xaa;
    let b: u32 = 0x01020304;
    let c: [u16; 2] = [0x0a0b, 0x0c0d];

    a.encode_field(false, &mut encoder);
    b.encode_field(false, &mut encoder);
    c.encode_field(true, &mut encoder);

    let mut out = Vec::new();
    encoder.finalize(&mut out).expect("finalize");

    let mut decoder = Decoder::new(&out).expect("decoder");
    let decoded_a = decode_fixed_value_u8(&mut decoder).expect("a");
    let decoded_b = decode_fixed_value_u32(&mut decoder).expect("b");
    let decoded_c = decode_fixed_array_u16_2(&mut decoder).expect("c");

    assert_eq!(decoded_a, a);
    assert_eq!(decoded_b, b);
    assert_eq!(decoded_c, c);
}
