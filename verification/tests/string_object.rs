use mrubyedge::error::Error;
use mrubyedge::string::{mrb_string_append, mrb_string_b, mrb_string_bytes, mrb_string_size};
use mrubyedge::value::{RObject, RValue};

#[test]
fn test_mrb_string_size() {
    let data = RObject::string("".into());
    let ret = mrb_string_size(&data).expect("size failed");
    assert_eq!(ret, 0);

    let data = RObject::string("Hello, World".into());
    let ret = mrb_string_size(&data).expect("size failed");
    assert_eq!(ret, 12);
}

#[test]
fn string_object_bytes() {
    let s = RObject::string("hé".into());
    assert_eq!(mrb_string_size(&s).unwrap(), 3);
    let bytes: Vec<i64> = mrb_string_bytes(&s)
        .unwrap()
        .iter()
        .map(|o| match o.value {
            RValue::Integer(i) => i,
            _ => panic!("not an integer"),
        })
        .collect();
    assert_eq!(bytes, vec![104, 0xc3, 0xa9]);
    match mrb_string_b(&s).unwrap().value {
        RValue::String(b) => assert_eq!(b, "hé".as_bytes()),
        _ => panic!("not a string"),
    }
    assert!(matches!(mrb_string_size(&RObject::nil()), Err(Error::TypeMismatch)));
    assert!(matches!(mrb_string_bytes(&RObject::integer(1)), Err(Error::TypeMismatch)));
}

#[test]
fn string_object_append() {
    let mut s = RObject::string("ab".into());
    mrb_string_append(&mut s, "cé").unwrap();
    match &s.value {
        RValue::String(b) => assert_eq!(b.as_slice(), "abcé".as_bytes()),
        _ => panic!("not a string"),
    }
    let mut n = RObject::nil();
    assert!(matches!(mrb_string_append(&mut n, "x"), Err(Error::TypeMismatch)));
}
