use mrubyedge::error::Error;
use mrubyedge::integer::{
    integer_and, integer_inspect, integer_not, integer_or, integer_xor,
    integer_abs, integer_bitref, integer_chr, integer_lshift, integer_mod, integer_negative, integer_power,
    integer_rshift,
};

#[test]
fn integer_mod_is_floored() {
    assert_eq!(integer_mod(7, 3).unwrap(), 1);
    assert_eq!(integer_mod(-7, 3).unwrap(), 2);
    assert_eq!(integer_mod(7, -3).unwrap(), -2);
    assert_eq!(integer_mod(-7, -3).unwrap(), -1);
    assert_eq!(integer_mod(6, -3).unwrap(), 0);
    assert_eq!(integer_mod(i64::MIN, -1).unwrap(), 0);
    assert_eq!(integer_mod(i64::MIN, 7).unwrap(), i64::MIN.rem_euclid(7));
    match integer_mod(7, 0) {
        Err(Error::RuntimeError(m)) => assert_eq!(m, "divided by 0"),
        _ => panic!("expected a division error"),
    }
}

#[test]
fn integer_bits_and_signs() {
    assert_eq!(integer_bitref(5, 0), 1);
    assert_eq!(integer_bitref(5, 1), 0);
    assert_eq!(integer_bitref(-1, 63), 1);
    assert_eq!(integer_bitref(5, -1), 0);
    assert_eq!(integer_negative(5), -5);
    assert_eq!(integer_abs(-5), 5);
    assert_eq!(integer_abs(5), 5);
}

#[test]
fn integer_shifts() {
    assert_eq!(integer_lshift(1, 4).unwrap(), 16);
    assert_eq!(integer_rshift(-16, 2).unwrap(), -4);
    for r in [integer_lshift(1, -1), integer_rshift(1, -1)] {
        match r {
            Err(Error::ArgumentError(m)) => assert_eq!(m, "negative shift count"),
            _ => panic!("expected an argument error"),
        }
    }
}

#[test]
fn integer_powers() {
    assert_eq!(integer_power(2, 10), 1024);
    assert_eq!(integer_power(-3, 3), -27);
    assert_eq!(integer_power(7, 0), 1);
    assert_eq!(integer_power(0, 0), 1);
    assert_eq!(integer_power(0, 5), 0);
    assert_eq!(integer_power(-1, 1 << 33), 1);
    assert_eq!(integer_power(0, 1 << 32), 0);
    assert_eq!(integer_power(-1, (1 << 32) + 1), -1);
    assert_eq!(integer_power(1, i64::MAX), 1);
}

#[test]
fn integer_chr_encodes_utf8() {
    assert_eq!(integer_chr(65).unwrap(), b"A".to_vec());
    assert_eq!(integer_chr(0xe9).unwrap(), "é".as_bytes().to_vec());
    assert_eq!(integer_chr(0x1F600).unwrap(), "\u{1F600}".as_bytes().to_vec());
    match integer_chr(-1) {
        Err(Error::RangeError(m)) => assert_eq!(m, "-1 out of char range"),
        _ => panic!("expected a range error"),
    }
    match integer_chr(0x110000) {
        Err(Error::RangeError(m)) => assert_eq!(m, "1114112 out of char range"),
        _ => panic!("expected a range error"),
    }
    match integer_chr(0xD800) {
        Err(Error::RangeError(m)) => assert_eq!(m, "invalid codepoint: 55296"),
        _ => panic!("expected a range error"),
    }
}

#[test]
fn integer_bitwise_and_inspect() {
    assert_eq!(integer_and(12, 10), 8);
    assert_eq!(integer_or(12, 10), 14);
    assert_eq!(integer_xor(12, 10), 6);
    assert_eq!(integer_not(5), -6);
    assert_eq!(integer_not(-1), 0);
    assert_eq!(integer_inspect(-42), "-42");
    assert_eq!(integer_inspect(i64::MAX), "9223372036854775807");
}
