use iguana::encoding::{decode_i64, encode_bool, encode_int, encode_int_fixed, trim_minimal};

#[test]
fn encode_zero_is_empty() {
    assert_eq!(encode_int(0), Vec::<u8>::new());
}

#[test]
fn encode_small_positive() {
    assert_eq!(encode_int(1), vec![0x01]);
    assert_eq!(encode_int(127), vec![0x7f]);
}

#[test]
fn encode_positive_with_sign_spill() {
    // 128 has the top bit set, so the sign needs a byte of its own
    assert_eq!(encode_int(128), vec![0x80, 0x00]);
}

#[test]
fn encode_negative() {
    assert_eq!(encode_int(-1), vec![0x81]);
    assert_eq!(encode_int(-128), vec![0x80, 0x80]);
    assert_eq!(encode_int(-300), vec![0x2c, 0x81]);
}

#[test]
fn decode_inverts_encode() {
    for x in [0i64, 1, -1, 127, -127, 128, -128, 255, 256, -32769, 0x7fff_ffff_ffff_ffff] {
        let e = encode_int(x);
        assert_eq!(decode_i64(&e), x);
    }
}

#[test]
fn decode_largest_magnitudes() {
    assert_eq!(
        encode_int(0x7fff_ffff_ffff_ffff),
        vec![0xff, 0xff, 0xff, 0xff, 0xff, 0xff, 0xff, 0x7f]
    );
    assert_eq!(
        encode_int(-0x7fff_ffff_ffff_ffff),
        vec![0xff, 0xff, 0xff, 0xff, 0xff, 0xff, 0xff, 0xff]
    );
}

#[test]
fn bool_encodings() {
    assert_eq!(encode_bool(false), Vec::<u8>::new());
    assert_eq!(encode_bool(true), vec![0x01]);
}

#[test]
fn trim_drops_padding() {
    assert_eq!(trim_minimal(&vec![0x01, 0x00]), vec![0x01]);
    assert_eq!(trim_minimal(&vec![0x00]), Vec::<u8>::new());
    assert_eq!(trim_minimal(&vec![0x00, 0x80]), Vec::<u8>::new());
    assert_eq!(trim_minimal(&vec![0x2c, 0x01, 0x00]), vec![0x2c, 0x01]);
    assert_eq!(trim_minimal(&vec![0x2c, 0x00, 0x80]), vec![0xac]);
}

#[test]
fn trim_keeps_minimal_forms() {
    assert_eq!(trim_minimal(&vec![0x01, 0x80, 0x00]), vec![0x01, 0x80, 0x00]);
    assert_eq!(trim_minimal(&vec![0x81]), vec![0x81]);
}

#[test]
fn fixed_width_encodings() {
    assert_eq!(encode_int_fixed(1, 4), vec![0x01, 0x00, 0x00, 0x00]);
    assert_eq!(encode_int_fixed(-1, 2), vec![0x01, 0x80]);
    assert_eq!(encode_int_fixed(0, 0), Vec::<u8>::new());
    assert_eq!(encode_int_fixed(0, 3), vec![0x00, 0x00, 0x00]);
    assert_eq!(encode_int_fixed(-300, 5), vec![0x2c, 0x01, 0x00, 0x00, 0x80]);
}
