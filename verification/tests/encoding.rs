use pufu::{Config, Encode, Encoder, Endian};

#[test]
fn encode_fixed_and_var1_vec_fixed() {
    let mut encoder = Encoder::new(Config::default());

    let fixed_u8: u8 = 0xaa;
    let fixed_array: [u16; 2] = [0x0102, 0x0304];
    let var_vec: Vec<u32> = vec![0x0a0b0c0d, 0x01020304];

    fixed_u8.encode_field(false, &mut encoder);
    fixed_array.encode_field(false, &mut encoder);
    var_vec.encode_field(true, &mut encoder);

    assert_eq!(encoder.fixed, vec![0xaa, 0x02, 0x01, 0x04, 0x03]);
    assert_eq!(encoder.var_length, vec![8]);
    assert_eq!(
        encoder.data,
        vec![0x0d, 0x0c, 0x0b, 0x0a, 0x04, 0x03, 0x02, 0x01]
    );

    let mut out = Vec::new();
    encoder.finalize(&mut out).expect("finalize");
    assert_eq!(
        out,
        vec![
            0x19, 0x00, 0x00, 0x00, 0x0d, 0x00, 0x00, 0x00, 0xaa, 0x02, 0x01, 0x04, 0x03, 0x11,
            0x00, 0x00, 0x00, 0x0d, 0x0c, 0x0b, 0x0a, 0x04, 0x03, 0x02, 0x01,
        ]
    );
}

#[test]
fn encode_var2_vec_vec_fixed() {
    let mut encoder = Encoder::new(Config::default());
    let outer: Vec<Vec<u16>> = vec![vec![1, 2], vec![3]];

    outer.encode_field(true, &mut encoder);
    assert_eq!(encoder.var_length, vec![4, 2]);
    assert_eq!(encoder.data, vec![0x01, 0x00, 0x02, 0x00, 0x03, 0x00]);

    let mut out = Vec::new();
    encoder.finalize(&mut out).expect("finalize");
    assert_eq!(
        out,
        vec![
            0x16, 0x00, 0x00, 0x00, 0x08, 0x00, 0x00, 0x00, 0x10, 0x00, 0x00, 0x00, 0x14, 0x00,
            0x00, 0x00, 0x01, 0x00, 0x02, 0x00, 0x03, 0x00,
        ]
    );

    let mut encoder = Encoder::new(Config::default());
    outer.encode_field(true, &mut encoder);
    assert_eq!(encoder.var_length, vec![4, 2]);
    assert_eq!(encoder.data, vec![0x01, 0x00, 0x02, 0x00, 0x03, 0x00]);
}

#[test]
fn encode_big_endian_swaps_only_field_bytes() {
    let value: u16 = 0x0102;

    let mut little = Encoder::new(Config::builder().little().build());
    value.encode_field(true, &mut little);
    let mut out_le = Vec::new();
    little.finalize(&mut out_le).expect("finalize");

    let mut big = Encoder::new(Config::builder().big().build());
    value.encode_field(true, &mut big);
    let mut out_be = Vec::new();
    big.finalize(&mut out_be).expect("finalize");

    // Headers are little-endian in both payloads.
    assert_eq!(out_le[0..8], out_be[0..8]);
    // The fixed field's bytes are reversed between the two.
    assert_eq!(out_le[8..10], [0x02, 0x01]);
    assert_eq!(out_be[8..10], [0x01, 0x02]);
}

#[test]
fn finalize_with_magic_version_prefixes_payload() {
    let config = Config::builder()
        .magic([0x73, 0x76, 0x73, 0x64])
        .version(7)
        .little()
        .build();
    let mut encoder = Encoder::new(config);
    0xaau8.encode_field(true, &mut encoder);
    let mut out = Vec::new();
    encoder.finalize_with_magic_version(&mut out).expect("finalize");
    assert_eq!(
        out,
        vec![0x73, 0x76, 0x73, 0x64, 0x07, 0x09, 0x00, 0x00, 0x00, 0x09, 0x00, 0x00, 0x00, 0xaa]
    );
}

#[test]
fn config_builder_defaults_and_overrides() {
    let d = Config::default();
    assert_eq!(d.magic, [0x73, 0x76, 0x73, 0x64]);
    assert_eq!(d.version, 1);
    assert_eq!(d.endian, Endian::Little);

    let c = Config::builder()
        .magic([1, 2, 3, 4])
        .version(9)
        .native()
        .build();
    assert_eq!(c.magic, [1, 2, 3, 4]);
    assert_eq!(c.version, 9);
    assert_eq!(c.endian, Endian::Native);

    let b = Config::builder().big().build();
    assert_eq!(b.endian, Endian::Big);
    assert_eq!(b.magic, [0x73, 0x76, 0x73, 0x64]);
    assert_eq!(b.version, 1);
}
