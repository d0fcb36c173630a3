use mrubyedge::array::{mrb_array_inspect, mrb_array_join};
use mrubyedge::array::{
    mrb_array_add, mrb_array_and, mrb_array_clear, mrb_array_delete_at, mrb_array_dup, mrb_array_empty,
    mrb_array_first, mrb_array_include, mrb_array_last, mrb_array_or, mrb_array_pop, mrb_array_shift,
    mrb_array_size, mrb_array_uniq, mrb_array_uniq_self, mrb_array_unshift,
};
use mrubyedge::error::Error;
use mrubyedge::value::{RObject, RValue};

fn ints(v: &[i64]) -> RObject {
    RObject::array(v.iter().map(|&i| RObject::integer(i)).collect())
}

fn as_ints(o: &RObject) -> Vec<i64> {
    match &o.value {
        RValue::Array(a) => a
            .iter()
            .map(|e| match e.value {
                RValue::Integer(i) => i,
                _ => panic!("not an integer"),
            })
            .collect(),
        _ => panic!("not an array"),
    }
}

fn int_of(o: &RObject) -> i64 {
    match o.value {
        RValue::Integer(i) => i,
        _ => panic!("not an integer"),
    }
}

#[test]
fn array_first_and_last() {
    let a = ints(&[1, 2, 3]);
    assert_eq!(int_of(&mrb_array_first(&a, None).unwrap()), 1);
    assert_eq!(int_of(&mrb_array_last(&a, None).unwrap()), 3);
    assert_eq!(as_ints(&mrb_array_first(&a, Some(&RObject::integer(2))).unwrap()), vec![1, 2]);
    assert_eq!(as_ints(&mrb_array_last(&a, Some(&RObject::integer(2))).unwrap()), vec![2, 3]);
    assert_eq!(as_ints(&mrb_array_first(&a, Some(&RObject::integer(10))).unwrap()), vec![1, 2, 3]);
    assert_eq!(as_ints(&mrb_array_last(&a, Some(&RObject::integer(0))).unwrap()), Vec::<i64>::new());
    // a trailing nil counts as no argument
    assert_eq!(int_of(&mrb_array_first(&a, Some(&RObject::nil())).unwrap()), 1);
    assert!(mrb_array_first(&ints(&[]), None).unwrap().is_nil());
    assert!(mrb_array_last(&ints(&[]), None).unwrap().is_nil());
    match mrb_array_first(&a, Some(&RObject::integer(-1))) {
        Err(Error::ArgumentError(m)) => assert_eq!(m, "negative array size"),
        _ => panic!("expected an argument error"),
    }
    assert!(matches!(mrb_array_first(&a, Some(&RObject::string("x".into()))), Err(Error::TypeMismatch)));
    assert!(matches!(mrb_array_last(&RObject::nil(), None), Err(Error::TypeMismatch)));
}

#[test]
fn array_set_operations() {
    let a = ints(&[1, 2, 2, 3, 1]);
    let b = ints(&[3, 4, 1, 1]);
    assert_eq!(as_ints(&mrb_array_uniq(&a).unwrap()), vec![1, 2, 3]);
    assert_eq!(as_ints(&mrb_array_or(&a, &b).unwrap()), vec![1, 2, 3, 4]);
    assert_eq!(as_ints(&mrb_array_and(&a, &b).unwrap()), vec![1, 3]);
    assert_eq!(as_ints(&mrb_array_and(&b, &a).unwrap()), vec![3, 1]);
    assert_eq!(as_ints(&mrb_array_add(&a, &b).unwrap()), vec![1, 2, 2, 3, 1, 3, 4, 1, 1]);
    assert_eq!(as_ints(&mrb_array_dup(&b).unwrap()), vec![3, 4, 1, 1]);
    assert!(matches!(mrb_array_or(&a, &RObject::nil()), Err(Error::TypeMismatch)));
    assert!(matches!(mrb_array_and(&RObject::nil(), &b), Err(Error::TypeMismatch)));
    // mixed values are compared by value
    let m = RObject::array(vec![RObject::string("x".into()), RObject::string("x".into()), RObject::nil(), RObject::nil()]);
    let u = mrb_array_uniq(&m).unwrap();
    assert_eq!(mrb_array_size(&u).unwrap(), 2);
}

#[test]
fn array_uniq_self() {
    let mut a = ints(&[5, 5, 6]);
    assert_eq!(mrb_array_uniq_self(&mut a).unwrap(), true);
    assert_eq!(as_ints(&a), vec![5, 6]);
    assert_eq!(mrb_array_uniq_self(&mut a).unwrap(), false);
    assert_eq!(as_ints(&a), vec![5, 6]);
}

#[test]
fn array_include_and_empty() {
    let a = ints(&[1, 2]);
    assert!(mrb_array_include(&a, &RObject::integer(2)).unwrap());
    assert!(!mrb_array_include(&a, &RObject::integer(3)).unwrap());
    assert!(!mrb_array_include(&a, &RObject::nil()).unwrap());
    assert!(!mrb_array_empty(&a).unwrap());
    assert!(mrb_array_empty(&ints(&[])).unwrap());
    assert!(matches!(mrb_array_empty(&RObject::integer(1)), Err(Error::TypeMismatch)));
}

#[test]
fn array_destructive_operations() {
    let mut a = ints(&[1, 2, 3, 4]);
    assert_eq!(int_of(&mrb_array_pop(&mut a).unwrap()), 4);
    assert_eq!(int_of(&mrb_array_shift(&mut a).unwrap()), 1);
    assert_eq!(as_ints(&a), vec![2, 3]);
    mrb_array_unshift(&mut a, vec![RObject::integer(8), RObject::integer(9), RObject::nil()]).unwrap();
    assert_eq!(as_ints(&a), vec![8, 9, 2, 3]);
    assert_eq!(int_of(&mrb_array_delete_at(&mut a, &RObject::integer(-1)).unwrap()), 3);
    assert_eq!(int_of(&mrb_array_delete_at(&mut a, &RObject::integer(0)).unwrap()), 8);
    assert!(mrb_array_delete_at(&mut a, &RObject::integer(5)).unwrap().is_nil());
    assert!(mrb_array_delete_at(&mut a, &RObject::integer(-3)).unwrap().is_nil());
    assert_eq!(as_ints(&a), vec![9, 2]);
    mrb_array_clear(&mut a).unwrap();
    assert_eq!(as_ints(&a), Vec::<i64>::new());
    assert!(mrb_array_pop(&mut a).unwrap().is_nil());
    assert!(mrb_array_shift(&mut a).unwrap().is_nil());
    let mut n = RObject::nil();
    assert!(matches!(mrb_array_pop(&mut n), Err(Error::TypeMismatch)));
    assert!(matches!(mrb_array_clear(&mut n), Err(Error::TypeMismatch)));
    assert!(matches!(mrb_array_delete_at(&mut a, &RObject::nil()), Err(Error::TypeMismatch)));
}

#[test]
fn array_join_and_inspect_from_parts() {
    let parts = vec!["1".to_string(), "two".to_string(), "".to_string()];
    assert_eq!(mrb_array_join(&parts, "-"), "1-two-");
    assert_eq!(mrb_array_join(&parts, ""), "1two");
    assert_eq!(mrb_array_join(&[], ","), "");
    assert_eq!(mrb_array_join(&["x".to_string()], ","), "x");
    assert_eq!(mrb_array_inspect(&["1".to_string(), "\"a\"".to_string()]), "[1, \"a\"]");
    assert_eq!(mrb_array_inspect(&[]), "[]");
}
