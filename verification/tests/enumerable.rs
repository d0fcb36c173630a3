use mrubyedge::enumerable::{
    mrb_enumerable_compact, mrb_enumerable_count, mrb_enumerable_max, mrb_enumerable_min,
    mrb_enumerable_minmax, mrb_enumerable_sort, mrb_enumerable_sum, mrb_enumerable_to_a,
    mrb_enumerable_uniq,
};
use mrubyedge::error::Error;
use mrubyedge::value::{RObject, RValue};

fn ints(v: &[i64]) -> RObject {
    RObject::array(v.iter().map(|i| RObject::integer(*i)).collect())
}

fn as_ints(o: &RObject) -> Vec<i64> {
    match &o.value {
        RValue::Array(v) => v
            .iter()
            .map(|e| match e.value {
                RValue::Integer(i) => i,
                _ => panic!("element is not an integer"),
            })
            .collect(),
        _ => panic!("not an array"),
    }
}

fn int_of(o: &RObject) -> i64 {
    match o.value {
        RValue::Integer(i) => i,
        _ => panic!("not an integer"),
    }
}

#[test]
fn enumerable_sort_orders_integers() {
    let r = mrb_enumerable_sort(&ints(&[3, 1, 2, -5, 1])).unwrap();
    assert_eq!(as_ints(&r), vec![-5, 1, 1, 2, 3]);
    let empty = mrb_enumerable_sort(&ints(&[])).unwrap();
    assert_eq!(as_ints(&empty), Vec::<i64>::new());
}

#[test]
fn enumerable_sort_keeps_order_of_incomparable_elements() {
    let mixed = RObject::array(vec![RObject::integer(2), RObject::string("a".to_string()), RObject::integer(1)]);
    match mrb_enumerable_sort(&mixed).unwrap().value {
        RValue::Array(v) => {
            assert_eq!(v.len(), 3);
            assert!(matches!(v[0].value, RValue::Integer(2)));
            assert!(matches!(&v[1].value, RValue::String(b) if b == b"a"));
            assert!(matches!(v[2].value, RValue::Integer(1)));
        }
        _ => panic!("sort did not answer an array"),
    }
    assert!(matches!(mrb_enumerable_sort(&RObject::integer(1)), Err(Error::TypeMismatch)));
}

#[test]
fn enumerable_min_max_of_one_element_and_of_mixed_arrays() {
    let one = RObject::array(vec![RObject::string("only".to_string())]);
    assert!(matches!(&mrb_enumerable_min(&one).unwrap().value, RValue::String(b) if b == b"only"));
    assert!(matches!(&mrb_enumerable_max(&one).unwrap().value, RValue::String(b) if b == b"only"));
    match mrb_enumerable_minmax(&one).unwrap().value {
        RValue::Array(v) => assert_eq!(v.len(), 2),
        _ => panic!("minmax did not answer an array"),
    }
    let mixed = RObject::array(vec![RObject::integer(1), RObject::nil()]);
    assert!(matches!(mrb_enumerable_min(&mixed), Err(Error::TypeMismatch)));
    assert!(matches!(mrb_enumerable_minmax(&mixed), Err(Error::TypeMismatch)));
}

#[test]
fn enumerable_min_max_and_minmax() {
    let a = ints(&[4, -2, 9, -2, 9]);
    assert_eq!(int_of(&mrb_enumerable_min(&a).unwrap()), -2);
    assert_eq!(int_of(&mrb_enumerable_max(&a).unwrap()), 9);
    let mm = mrb_enumerable_minmax(&a).unwrap();
    assert_eq!(as_ints(&mm), vec![-2, 9]);
}

#[test]
fn enumerable_min_max_of_empty_is_nil() {
    let e = ints(&[]);
    assert!(mrb_enumerable_min(&e).unwrap().is_nil());
    assert!(mrb_enumerable_max(&e).unwrap().is_nil());
    match mrb_enumerable_minmax(&e).unwrap().value {
        RValue::Array(v) => {
            assert_eq!(v.len(), 2);
            assert!(v[0].is_nil() && v[1].is_nil());
        }
        _ => panic!("minmax is not an array"),
    }
}

#[test]
fn enumerable_sum_with_and_without_init() {
    let a = ints(&[1, 2, 3, 4]);
    assert_eq!(int_of(&mrb_enumerable_sum(&a, None).unwrap()), 10);
    let init = RObject::integer(100);
    assert_eq!(int_of(&mrb_enumerable_sum(&a, Some(&init)).unwrap()), 110);
    let nil = RObject::nil();
    assert_eq!(int_of(&mrb_enumerable_sum(&a, Some(&nil)).unwrap()), 10);
    assert_eq!(int_of(&mrb_enumerable_sum(&ints(&[]), None).unwrap()), 0);
}

#[test]
fn enumerable_sum_overflow_is_range_error() {
    let a = ints(&[i64::MAX, 1]);
    assert!(matches!(mrb_enumerable_sum(&a, None), Err(Error::RangeError(_))));
    // an intermediate overflow that comes back in range is fine
    let b = ints(&[i64::MAX, 1, -2]);
    assert_eq!(int_of(&mrb_enumerable_sum(&b, None).unwrap()), i64::MAX - 1);
}

#[test]
fn enumerable_count_to_a_uniq_compact() {
    let a = ints(&[1, 2, 2, 3, 1]);
    assert_eq!(mrb_enumerable_count(&a).unwrap(), 5);
    assert_eq!(as_ints(&mrb_enumerable_to_a(&a).unwrap()), vec![1, 2, 2, 3, 1]);
    assert_eq!(as_ints(&mrb_enumerable_uniq(&a).unwrap()), vec![1, 2, 3]);
    let with_nils = RObject::array(vec![
        RObject::nil(),
        RObject::integer(7),
        RObject::nil(),
        RObject::integer(8),
    ]);
    assert_eq!(as_ints(&mrb_enumerable_compact(&with_nils).unwrap()), vec![7, 8]);
    assert!(matches!(mrb_enumerable_count(&RObject::nil()), Err(Error::TypeMismatch)));
}
