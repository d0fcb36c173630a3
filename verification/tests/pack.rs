use mrubyedge::pack::{pack, pack_runs_out, unpack};
use mrubyedge::value::{RObject, RValue};
use mrubyedge::array::mrb_array_get_index;
use mrubyedge::prelude::Runtime;
use mrubyedge::error::Error;

#[test]
fn test_mrb_string_unpack() {
    let (rt, _) = Runtime::with_prelude();
    let mut data = RObject::string_from_vec(vec![
        0x01, 0x02, 0x03, 0x04, 0x05, 0x06, 0x07, 0x04, 0x04, 0x03, 0x03, 0x02, 0x02, 0x00, 0x00,
    ]);
    let format = RObject::string("c s l q".to_string());
    let mut ret = rt
        .funcall(&mut data, "unpack", &[format])
        .expect("unpack runs")
        .expect("unpack failed");
    let answers: [i64; 4] = [
        0x01,
        0x02 | 0x03 << 8,
        0x04 | 0x05 << 8 | 0x06 << 16 | 0x07 << 24,
        (0x04 | 0x04 << 8 | 0x03 << 16 | 0x03 << 24 | 0x02 << 32 | 0x02 << 40),
    ];
    for (i, expected) in answers.iter().enumerate() {
        let value = mrb_array_get_index(&ret, &RObject::integer(i as i64)).expect("getting index failed");
        let value: i64 = value.to_i64().expect("value is not integer");
        assert_eq!(value, *expected);
    }
    // the same through `[]` on the array
    let first = rt.funcall(&mut ret, "[]", &[RObject::integer(3)]).expect("runs").expect("index");
    assert_eq!(first.to_i64().unwrap(), answers[3]);
    assert_eq!(unpack(&[1, 2, 3, 4], b"S S").unwrap(), vec![0x0201, 0x0403]);
}

#[test]
fn test_mrb_array_pack() {
    let (rt, _) = Runtime::with_prelude();
    let mut items = RObject::array(vec![RObject::integer(1), RObject::integer(2), RObject::integer(3), RObject::integer(4)]);
    let value = rt
        .funcall(&mut items, "pack", &[RObject::string("c s l q".to_string())])
        .expect("pack runs")
        .expect("pack failed");
    let expected: Vec<u8> = vec![
        0x01, 0x02, 0x00, 0x03, 0x00, 0x00, 0x00, 0x04, 0x00, 0x00, 0x00, 0x00, 0x00, 0x00, 0x00,
    ];
    match &value.value {
        RValue::String(bytes) => {
            for (i, v) in bytes.iter().enumerate() {
                assert_eq!(*v, expected[i]);
            }
        },
        _ => panic!("pack did not answer a string"),
    }
    let direct = pack(&[RObject::integer(1)], b"c").expect("pack failed");
    assert_eq!(direct, vec![1]);
}

#[test]
fn unpack_signed_and_unsigned() {
    let data = vec![0xff, 0xff, 0xff, 0xff];
    assert_eq!(unpack(&data, b"s S").unwrap(), vec![-1, 0xffff]);
    assert_eq!(unpack(&data, b"l").unwrap(), vec![-1]);
    assert_eq!(unpack(&data, b"L").unwrap(), vec![0xffff_ffff]);
    assert_eq!(unpack(&data, b"cC").unwrap(), vec![-1, 255]);
}

#[test]
fn unpack_errors() {
    match unpack(&[1, 2], b"l") {
        Err(Error::RuntimeError(m)) => assert_eq!(m, "Not enough bytes"),
        _ => panic!("expected an error"),
    }
    match unpack(&[1, 2], b"x") {
        Err(Error::RuntimeError(m)) => assert_eq!(m, "Unsupported format"),
        _ => panic!("expected an error"),
    }
}

#[test]
fn pack_negative_and_booleans() {
    let items = vec![RObject::integer(-2), RObject::boolean(true)];
    assert_eq!(pack(&items, b"s C").unwrap(), vec![0xfe, 0xff, 0x01]);
    let bad = vec![RObject::nil()];
    assert!(matches!(pack(&bad, b"C"), Err(Error::TypeMismatch)));
    match pack(&items, b"z") {
        Err(Error::RuntimeError(m)) => assert_eq!(m, "Unsupported format"),
        _ => panic!("expected an error"),
    }
}

#[test]
fn pack_unpack_roundtrip() {
    let items = vec![RObject::integer(-5), RObject::integer(300), RObject::integer(-70000), RObject::integer(i64::MIN)];
    let bytes = pack(&items, b"c s l q").unwrap();
    assert_eq!(unpack(&bytes, b"c s l q").unwrap(), vec![-5, 300, -70000, i64::MIN]);
}

#[test]
fn pack_runs_out_of_items() {
    let items = vec![RObject::integer(1)];
    assert!(pack_runs_out(&items, b"c c"));
    assert!(!pack_runs_out(&items, b"c"));
    assert!(!pack_runs_out(&items, b"x c c"));
    assert!(!pack_runs_out(&[RObject::nil()], b"c c"));
}

#[test]
fn pack_unpack_wraps_to_width() {
    // values outside a directive's range come back reduced to its width
    let items = vec![RObject::integer(300), RObject::integer(-1), RObject::integer(70000)];
    let bytes = pack(&items, b"C C s").expect("pack");
    assert_eq!(unpack(&bytes, b"C C s").expect("unpack"), vec![44, 255, 4464]);
}

#[test]
fn pack_too_few_items() {
    let items = vec![RObject::integer(1)];
    match pack(&items, b"c c") {
        Err(Error::ArgumentError(m)) => assert_eq!(m, "too few arguments"),
        _ => panic!("expected an argument error"),
    }
}
