use madproxy::error::ProxyError;
use madproxy::varint::{encode_var_int, read_var_int, write_var_int, MAX_VAR_INT_LEN};

#[test]
fn var_int_known_encodings() {
    assert_eq!(encode_var_int(0), vec![0x00]);
    assert_eq!(encode_var_int(1), vec![0x01]);
    assert_eq!(encode_var_int(2), vec![0x02]);
    assert_eq!(encode_var_int(127), vec![0x7f]);
    assert_eq!(encode_var_int(128), vec![0x80, 0x01]);
    assert_eq!(encode_var_int(255), vec![0xff, 0x01]);
    assert_eq!(encode_var_int(760), vec![0xf8, 0x05]);
    assert_eq!(encode_var_int(25565), vec![0xdd, 0xc7, 0x01]);
    assert_eq!(encode_var_int(2097151), vec![0xff, 0xff, 0x7f]);
    assert_eq!(encode_var_int(i32::MAX), vec![0xff, 0xff, 0xff, 0xff, 0x07]);
    assert_eq!(encode_var_int(-1), vec![0xff, 0xff, 0xff, 0xff, 0x0f]);
    assert_eq!(encode_var_int(i32::MIN), vec![0x80, 0x80, 0x80, 0x80, 0x08]);
}

#[test]
fn var_int_round_trip_on_samples() {
    let mut samples: Vec<i32> = vec![
        0,
        1,
        -1,
        127,
        128,
        16383,
        16384,
        2097151,
        2097152,
        268435455,
        268435456,
        i32::MAX,
        i32::MIN,
        i32::MIN + 1,
        -128,
        -129,
    ];
    let mut v: i32 = 1;
    for _ in 0..2000 {
        v = v.wrapping_mul(1103515245).wrapping_add(12345);
        samples.push(v);
    }
    for value in samples {
        let bytes = encode_var_int(value);
        assert!(!bytes.is_empty() && bytes.len() <= MAX_VAR_INT_LEN);
        assert_eq!(read_var_int(&bytes), Ok((value, bytes.len())));
    }
}

#[test]
fn var_int_write_appends() {
    let mut buf = vec![0xaa, 0xbb];
    write_var_int(&mut buf, 300);
    assert_eq!(buf, vec![0xaa, 0xbb, 0xac, 0x02]);
    write_var_int(&mut buf, 0);
    assert_eq!(buf, vec![0xaa, 0xbb, 0xac, 0x02, 0x00]);
}

#[test]
fn var_int_read_leaves_the_rest() {
    assert_eq!(read_var_int(&[0xac, 0x02, 0xff, 0xff]), Ok((300, 2)));
    assert_eq!(read_var_int(&[0x05, 0x80]), Ok((5, 1)));
}

#[test]
fn var_int_sixth_byte_is_malformed() {
    assert_eq!(
        read_var_int(&[0x80, 0x80, 0x80, 0x80, 0x80, 0x00]),
        Err(ProxyError::Malformed)
    );
    assert_eq!(
        read_var_int(&[0xff, 0xff, 0xff, 0xff, 0xff, 0x0f]),
        Err(ProxyError::Malformed)
    );
    assert_eq!(read_var_int(&[0xff, 0xff, 0xff, 0xff, 0xff]), Err(ProxyError::Malformed));
}

#[test]
fn var_int_cut_short_is_malformed() {
    assert_eq!(read_var_int(&[]), Err(ProxyError::Malformed));
    assert_eq!(read_var_int(&[0x80]), Err(ProxyError::Malformed));
    assert_eq!(read_var_int(&[0xff, 0xff, 0xff, 0xff]), Err(ProxyError::Malformed));
}

#[test]
fn var_int_padded_forms_are_read() {
    assert_eq!(read_var_int(&[0x80, 0x00]), Ok((0, 2)));
    assert_eq!(read_var_int(&[0x81, 0x80, 0x80, 0x80, 0x00]), Ok((1, 5)));
}

#[test]
fn var_int_fifth_byte_keeps_its_low_four_bits() {
    assert_eq!(read_var_int(&[0xff, 0xff, 0xff, 0xff, 0x7f]), Ok((-1, 5)));
    assert_eq!(read_var_int(&[0x00 | 0x80, 0x80, 0x80, 0x80, 0x10]), Ok((0, 5)));
    assert_eq!(read_var_int(&[0x80, 0x80, 0x80, 0x80, 0x18]), Ok((i32::MIN, 5)));
}
