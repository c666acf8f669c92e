use pufu::{
    decode_fixed_slice_u16, decode_fixed_slice_u32, decode_fixed_slice_u8_ref,
    decode_fixed_value_i16, decode_fixed_value_i32, CodecError, Config, Encode, Encoder, Decoder,
    Endian, push_u16, push_u32, push_u64, push_u8, read_u16, read_u32, read_u64, read_u8,
    reverse_bytes,
};

#[test]
fn scalar_wire_bytes_little_and_big() {
    let mut out = Vec::new();
    push_u8(&mut out, 0xaa, Endian::Little);
    push_u16(&mut out, 0x0102, Endian::Little);
    push_u32(&mut out, 0x01020304, Endian::Little);
    push_u64(&mut out, 0x0102030405060708, Endian::Little);
    assert_eq!(
        out,
        vec![
            0xaa, 0x02, 0x01, 0x04, 0x03, 0x02, 0x01, 0x08, 0x07, 0x06, 0x05, 0x04, 0x03, 0x02,
            0x01
        ]
    );

    let mut out = Vec::new();
    push_u16(&mut out, 0x0102, Endian::Big);
    push_u32(&mut out, 0x01020304, Endian::Big);
    assert_eq!(out, vec![0x01, 0x02, 0x01, 0x02, 0x03, 0x04]);

    // Native encodes as little-endian on the wire.
    let mut out = Vec::new();
    push_u16(&mut out, 0x0102, Endian::Native);
    assert_eq!(out, vec![0x02, 0x01]);
}

#[test]
fn scalar_read_back_roundtrips() {
    for e in [Endian::Little, Endian::Big, Endian::Native] {
        let mut out = Vec::new();
        push_u8(&mut out, 0x7f, e);
        assert_eq!(read_u8(&out, e), 0x7f);

        let mut out = Vec::new();
        push_u16(&mut out, 0xbeef, e);
        assert_eq!(read_u16(&out, e), 0xbeef);

        let mut out = Vec::new();
        push_u32(&mut out, 0xdeadbeef, e);
        assert_eq!(read_u32(&out, e), 0xdeadbeef);

        let mut out = Vec::new();
        push_u64(&mut out, 0x0123456789abcdef, e);
        assert_eq!(read_u64(&out, e), 0x0123456789abcdef);
    }
}

#[test]
fn reverse_bytes_reverses() {
    assert_eq!(reverse_bytes(&[1, 2, 3]), vec![3, 2, 1]);
    assert_eq!(reverse_bytes(&[]), Vec::<u8>::new());
}

#[test]
fn fixed_slice_reinterprets_element_runs() {
    let bytes = [0x01, 0x00, 0x02, 0x00];
    assert_eq!(
        decode_fixed_slice_u16(&bytes, Endian::Little),
        Ok(vec![1, 2])
    );
    assert_eq!(
        decode_fixed_slice_u16(&bytes, Endian::Big),
        Ok(vec![0x0100, 0x0200])
    );
    assert_eq!(
        decode_fixed_slice_u16(&[1, 2, 3], Endian::Little),
        Err(CodecError::InvalidLength)
    );
    assert_eq!(
        decode_fixed_slice_u32(&bytes, Endian::Little),
        Ok(vec![0x00020001])
    );
    assert_eq!(
        decode_fixed_slice_u32(&[1, 2, 3], Endian::Little),
        Err(CodecError::InvalidLength)
    );
    let raw = [9u8, 8, 7];
    assert_eq!(decode_fixed_slice_u8_ref(&raw), Ok(&raw[..]));
}

#[test]
fn signed_scalars_roundtrip_through_the_wire() {
    let mut encoder = Encoder::new(Config::default());
    let a: i16 = -2;
    let b: i32 = -70000;
    a.encode_field(false, &mut encoder);
    b.encode_field(true, &mut encoder);
    let mut out = Vec::new();
    encoder.finalize(&mut out).expect("finalize");

    let mut d = Decoder::new(&out).expect("decoder");
    assert_eq!(decode_fixed_value_i16(&mut d), Ok(a));
    assert_eq!(decode_fixed_value_i32(&mut d), Ok(b));
}
