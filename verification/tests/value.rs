use mrubyedge::array::{mrb_array_get_index, mrb_array_push, mrb_array_set_index, mrb_array_size};
use mrubyedge::error::Error;
use mrubyedge::value::{mrb_object_is_equal, mrb_object_is_not_equal, RObject, RPool, RSym, RType, RValue, ValueHasher};

fn int_of(o: &RObject) -> i64 {
    match o.value {
        RValue::Integer(i) => i,
        _ => panic!("value is not integer"),
    }
}

#[test]
fn test_mrb_array_push_and_index() {
    let mut array = RObject::array(vec![]);
    let args = vec![RObject::integer(1), RObject::integer(2), RObject::integer(3)];
    mrb_array_push(&mut array, args).expect("push failed");

    let answers = [1, 2, 3];

    for (i, expected) in answers.iter().enumerate() {
        let index = RObject::integer(i as i64);
        let value = mrb_array_get_index(&array, &index).expect("getting index failed");
        assert_eq!(int_of(&value), *expected);
    }
}

#[test]
fn test_mrb_array_set_and_index() {
    let mut array = RObject::array(vec![]);
    let args = vec![RObject::nil(), RObject::nil(), RObject::integer(0)];
    mrb_array_push(&mut array, args).expect("push failed");

    let upd_index = RObject::integer(2);
    let newval = RObject::integer(42);

    mrb_array_set_index(&mut array, &upd_index, newval).expect("set index failed");

    let value = mrb_array_get_index(&array, &upd_index).expect("getting index failed");
    assert_eq!(int_of(&value), 42);
}

#[test]
fn array_set_index_appends_at_length() {
    let mut array = RObject::array(vec![RObject::integer(7)]);
    mrb_array_set_index(&mut array, &RObject::integer(1), RObject::integer(8)).expect("set");
    assert_eq!(mrb_array_size(&array).unwrap(), 2);
    assert_eq!(int_of(&mrb_array_get_index(&array, &RObject::boolean(true)).unwrap()), 8);
    assert_eq!(int_of(&mrb_array_get_index(&array, &RObject::boolean(false)).unwrap()), 7);
}

#[test]
fn array_set_index_pads_with_nil() {
    let mut array = RObject::array(vec![]);
    let stored = mrb_array_set_index(&mut array, &RObject::integer(2), RObject::integer(5)).expect("set");
    assert_eq!(int_of(&stored), 5);
    assert_eq!(mrb_array_size(&array).unwrap(), 3);
    assert!(mrb_array_get_index(&array, &RObject::integer(0)).unwrap().is_nil());
    assert!(mrb_array_get_index(&array, &RObject::integer(1)).unwrap().is_nil());
    assert_eq!(int_of(&mrb_array_get_index(&array, &RObject::integer(2)).unwrap()), 5);
    // reading past the end gives nil
    assert!(mrb_array_get_index(&array, &RObject::integer(9)).unwrap().is_nil());
}

#[test]
fn test_mrb_array_size() {
    let (rt, _) = mrubyedge::prelude::Runtime::with_prelude();
    let mut data = RObject::array(vec![]);
    let ret = rt.funcall(&mut data, "size", &[]).expect("size runs").expect("size failed");
    assert_eq!(ret.to_i64().expect("size is not integer"), 0);
    mrb_array_push(&mut data, vec![RObject::integer(1)]).expect("push failed");
    mrb_array_push(&mut data, vec![RObject::integer(2)]).expect("push failed");
    mrb_array_push(&mut data, vec![RObject::integer(3)]).expect("push failed");
    let ret = rt.funcall(&mut data, "size", &[]).expect("size runs").expect("size failed");
    assert_eq!(ret.to_i64().expect("size is not integer"), 3);
    assert_eq!(mrb_array_size(&data).unwrap(), 3);
}

#[test]
fn array_errors() {
    let mut not_array = RObject::integer(3);
    assert!(matches!(mrb_array_push(&mut not_array, vec![]), Err(Error::TypeMismatch)));
    match mrb_array_get_index(&not_array, &RObject::integer(0)) {
        Err(Error::RuntimeError(m)) => assert_eq!(m, "Array#push must be called on an Array"),
        _ => panic!("expected a runtime error"),
    }
    let array = RObject::array(vec![RObject::nil()]);
    assert!(matches!(mrb_array_get_index(&array, &RObject::nil()), Err(Error::TypeMismatch)));
    let mut array = RObject::array(vec![]);
    assert!(matches!(mrb_array_set_index(&mut array, &RObject::nil(), RObject::nil()), Err(Error::TypeMismatch)));
    assert!(matches!(mrb_array_size(&RObject::nil()), Err(Error::TypeMismatch)));
    assert_eq!(mrb_array_size(&array).unwrap(), 0);
}

#[test]
fn array_index_truncates_to_u32() {
    let array = RObject::array(vec![RObject::integer(10), RObject::integer(11)]);
    let index = RObject::integer((1i64 << 32) + 1);
    assert_eq!(int_of(&mrb_array_get_index(&array, &index).unwrap()), 11);
}

#[test]
fn test_mrb_object_is_equal_range() {
    let range = |a: RObject, b: RObject, ex: bool| RObject::range(a, b, ex);
    let lhs = range(RObject::integer(1), RObject::integer(10), true);
    let rhs = range(RObject::integer(1), RObject::integer(10), true);
    assert!(mrb_object_is_equal(&lhs, &rhs));

    let lhs = range(RObject::integer(1), RObject::integer(10), true);
    let rhs = range(RObject::integer(1), RObject::integer(10), false);
    assert!(!mrb_object_is_equal(&lhs, &rhs));

    let lhs = range(RObject::integer(1), RObject::integer(10), true);
    let rhs = range(RObject::integer(1), RObject::integer(11), true);
    assert!(!mrb_object_is_equal(&lhs, &rhs));

    let s = || RObject::string("a".into());
    let lhs = range(s(), RObject::string("z".into()), true);
    let rhs = range(s(), RObject::string("z".into()), true);
    assert!(mrb_object_is_equal(&lhs, &rhs));

    let lhs = range(s(), RObject::string("z".into()), true);
    let rhs = range(s(), RObject::string("A".into()), true);
    assert!(!mrb_object_is_equal(&lhs, &rhs));
}

#[test]
fn test_mrb_object_is_equal_array() {
    let lhs = RObject::array(vec![]);
    let rhs = RObject::array(vec![]);
    assert!(mrb_object_is_equal(&lhs, &rhs));

    let lhs = RObject::array(vec![RObject::integer(1), RObject::integer(2), RObject::integer(3)]);
    let rhs = RObject::array(vec![RObject::integer(1), RObject::integer(2), RObject::integer(3)]);
    assert!(mrb_object_is_equal(&lhs, &rhs));

    let lhs = RObject::array(vec![RObject::integer(1), RObject::integer(2), RObject::integer(3)]);
    let rhs = RObject::array(vec![RObject::integer(1), RObject::integer(2), RObject::integer(4)]);
    assert!(!mrb_object_is_equal(&lhs, &rhs));
}

#[test]
fn test_mrb_object_is_equal() {
    assert!(mrb_object_is_equal(&RObject::integer(1), &RObject::integer(1)));
    assert!(!mrb_object_is_equal(&RObject::integer(1), &RObject::integer(3)));
    let st = |s: &str| RObject::string(s.into());
    assert!(mrb_object_is_equal(&st("mruby/edge is Ruby"), &st("mruby/edge is Ruby")));
    assert!(!mrb_object_is_equal(&st("mruby/edge is Ruby"), &st("mruby/edge is not Ruby")));
    let sym = |s: &str| RObject::symbol(RSym::new(s.into()));
    assert!(mrb_object_is_equal(&sym("some"), &sym("some")));
    assert!(!mrb_object_is_equal(&sym("some"), &sym("other")));
    assert!(mrb_object_is_equal(&RObject::boolean(true), &RObject::boolean(true)));
    assert!(mrb_object_is_equal(&RObject::boolean(false), &RObject::boolean(false)));
    assert!(!mrb_object_is_equal(&RObject::boolean(true), &RObject::boolean(false)));
    assert!(mrb_object_is_equal(&RObject::nil(), &RObject::nil()));
    assert!(!mrb_object_is_equal(&RObject::integer(100), &RObject::nil()));
    assert!(mrb_object_is_not_equal(&RObject::integer(100), &RObject::nil()));
    // a symbol and a string with the same text differ
    assert!(!mrb_object_is_equal(&sym("a"), &st("a")));
    // nested arrays compare element by element
    let nested = || RObject::array(vec![RObject::array(vec![RObject::integer(1)]), RObject::nil()]);
    assert!(mrb_object_is_equal(&nested(), &nested()));
}

#[test]
fn object_constructors_and_truthiness() {
    let n = RObject::nil();
    assert!(n.is_nil() && n.is_falsy() && !n.is_truthy());
    assert_eq!(n.object_id, 4);
    let f = RObject::boolean(false);
    assert!(f.is_falsy() && !f.is_nil());
    assert_eq!(f.object_id, 0);
    let t = RObject::boolean(true);
    assert!(t.is_truthy());
    assert_eq!(t.object_id, 20);
    assert_eq!(RObject::integer(0).object_id, 1);
    assert_eq!(RObject::integer(5).object_id, 11);
    assert_eq!(RObject::integer(-1).object_id, u64::MAX);
    assert_eq!(RObject::integer(-3).object_id, u64::MAX - 4);
    assert_eq!(RObject::integer(0x7fff_ffff).object_id, u64::MAX);
    assert_eq!(RObject::integer(-0x8000_0000).object_id, 0x8000_0000_0000_0000);
    assert!(RObject::integer(0).is_truthy());
    assert_eq!(RObject::string("x".into()).tt, RType::String);
    match RObject::string("héllo".into()).value {
        RValue::String(b) => assert_eq!(b, "héllo".as_bytes()),
        _ => panic!("not a string"),
    }
}

#[test]
fn object_hash_keys() {
    assert_eq!(RObject::integer(3).as_hash_key().unwrap(), ValueHasher::Integer(3));
    assert_eq!(RObject::boolean(true).as_hash_key().unwrap(), ValueHasher::Bool(true));
    assert_eq!(RObject::symbol(RSym::new("k".into())).as_hash_key().unwrap(), ValueHasher::Symbol("k".into()));
    assert_eq!(RObject::string("s".into()).as_hash_key().unwrap(), ValueHasher::String(b"s".to_vec()));
    assert!(matches!(RObject::nil().as_hash_key(), Err(Error::TypeMismatch)));
    assert!(matches!(RObject::array(vec![]).as_hash_key(), Err(Error::TypeMismatch)));
}

#[test]
fn pool_and_symbol() {
    let p = RPool::Str("abc".into());
    assert_eq!(p.as_str(), "abc");
    assert_eq!(RSym::new("name".into()).name, "name");
}

#[test]
fn object_conversions() {
    assert_eq!(RObject::integer(-1).to_i64().unwrap(), -1);
    assert_eq!(RObject::integer(-1).to_u32().unwrap(), u32::MAX);
    assert_eq!(RObject::integer(-1).to_u64().unwrap(), u64::MAX);
    assert_eq!(RObject::integer(1 << 32).to_i32().unwrap(), 0);
    assert_eq!(RObject::integer(7).to_usize().unwrap(), 7);
    assert_eq!(RObject::boolean(true).to_i64().unwrap(), 1);
    assert_eq!(RObject::boolean(false).to_u32().unwrap(), 0);
    assert!(matches!(RObject::nil().to_i64(), Err(Error::TypeMismatch)));
    assert!(matches!(RObject::string("1".into()).to_u64(), Err(Error::TypeMismatch)));
    assert_eq!(RObject::integer(0).to_bool().unwrap(), false);
    assert_eq!(RObject::integer(3).to_bool().unwrap(), true);
    assert_eq!(RObject::nil().to_bool().unwrap(), false);
    assert_eq!(RObject::boolean(true).to_bool().unwrap(), true);
    assert!(matches!(RObject::array(vec![]).to_bool(), Err(Error::TypeMismatch)));
    assert_eq!(RObject::string("ab".into()).to_bytes().unwrap(), b"ab".to_vec());
    assert!(matches!(RObject::integer(1).to_bytes(), Err(Error::TypeMismatch)));
}
