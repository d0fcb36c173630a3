use mrubyedge::error::{Error, StaticError};
use mrubyedge::fmt::{append_padded, dec_len, digit_str, i64_to_string};
use mrubyedge::random::{reduce_below, seed_bytes, Random};
use mrubyedge::value::RObject;
use mrubyedge::vm::{RFnStack, RFnTable};
use std::rc::Rc;

#[test]
fn error_messages() {
    assert_eq!(Error::General.message(), "General error");
    assert_eq!(Error::internal("boom").message(), "[Internal Error] boom");
    assert_eq!(Error::InvalidOpCode.message(), "Invalid opcode");
    assert_eq!(Error::RuntimeError("x".into()).message(), "x");
    assert_eq!(Error::ArgumentError("x".into()).message(), "Invalid argument: x");
    assert_eq!(Error::RangeError("x".into()).message(), "Out of range: x");
    assert_eq!(Error::TypeMismatch.message(), "Type mismatch");
    assert_eq!(Error::NoMethodError("m".into()).message(), "Method not found: m");
    assert_eq!(Error::NameError("n".into()).message(), "Cannot found name: n");
    assert_eq!(Error::Break(Rc::new(RObject::nil())).message(), "[Break]");
    assert_eq!(Error::BlockReturn(1, Rc::new(RObject::nil())).message(), "[BlockReturn]");
}

#[test]
fn error_classes() {
    assert!(Error::RuntimeError("x".into()).is_instance_of("RuntimeError"));
    assert!(!Error::RuntimeError("x".into()).is_instance_of("StandardError"));
    assert!(Error::General.is_instance_of("StandardError"));
    assert!(Error::TypeMismatch.is_instance_of("StandardError"));
    assert!(Error::internal("i").is_instance_of("InternalError"));
    assert!(Error::ArgumentError("a".into()).is_instance_of("ArgumentError"));
    assert!(Error::RangeError("a".into()).is_instance_of("RangeError"));
    assert!(Error::NoMethodError("a".into()).is_instance_of("NoMethodError"));
    assert!(Error::NameError("a".into()).is_instance_of("NameError"));
    assert!(!Error::Break(Rc::new(RObject::nil())).is_instance_of("StandardError"));
}

#[test]
fn static_error_keeps_message() {
    match StaticError::from_error(Error::ArgumentError("bad".into())) {
        StaticError::General(m) => assert_eq!(m, "Invalid argument: bad"),
    }
}

#[test]
fn fn_table_registers_in_order() {
    let mut t: RFnTable<u32> = RFnTable::new();
    assert!(t.is_empty());
    t.set(10);
    t.set(20);
    assert_eq!(t.len(), 2);
    assert_eq!(t.get(0), Some(&10));
    assert_eq!(t.get(1), Some(&20));
    assert_eq!(t.get(2), None);
}

#[test]
fn fn_stack_push_pop() {
    let mut s: RFnStack<u32> = RFnStack::new();
    assert!(s.is_empty());
    match s.pop() {
        Err(Error::Internal(m)) => assert_eq!(m, "RFnStack underflow"),
        _ => panic!("expected underflow"),
    }
    for i in 0..64 {
        s.push(i).expect("push");
    }
    assert_eq!(s.len(), 64);
    match s.push(99) {
        Err(Error::Internal(m)) => assert_eq!(m, "RFnStack overflow"),
        _ => panic!("expected overflow"),
    }
    assert_eq!(s.len(), 64);
    assert_eq!(s.pop().unwrap(), 63);
    s.push(7).expect("push");
    assert_eq!(s.pop().unwrap(), 7);
    assert_eq!(s.len(), 63);
}

#[test]
fn random_draws_stay_below_bound() {
    let mut r = Random::new(42);
    assert_eq!(r.seed(), 42);
    for _ in 0..100 {
        let v = r.rand_int(10).unwrap();
        assert!((0..10).contains(&v));
    }
    match r.rand_int(0) {
        Err(Error::ArgumentError(m)) => assert_eq!(m, "max must be positive"),
        _ => panic!("expected an argument error"),
    }
    // the same seed draws the same numbers
    let mut a = Random::new(7);
    let mut b = Random::new(7);
    for _ in 0..10 {
        assert_eq!(a.rand_int(1000).unwrap(), b.rand_int(1000).unwrap());
        assert_eq!(a.next_u32(), b.next_u32());
    }
}

#[test]
fn random_seed_bytes_and_reduction() {
    assert_eq!(
        seed_bytes(0x0102_0304_0506_0708),
        [8, 7, 6, 5, 4, 3, 2, 1, 1, 2, 3, 4, 5, 6, 7, 8]
    );
    assert_eq!(reduce_below(17, 5), 2);
    assert_eq!(reduce_below(u64::MAX, i64::MAX), 1);
}

#[test]
fn decimal_formatting() {
    assert_eq!(i64_to_string(0), "0");
    assert_eq!(i64_to_string(-1234), "-1234");
    assert_eq!(i64_to_string(i64::MIN), "-9223372036854775808");
    assert_eq!(dec_len(0), 1);
    assert_eq!(dec_len(12345), 5);
    assert_eq!(digit_str(7), "7");
    let mut s = String::from("x");
    append_padded(&mut s, 42, 5);
    assert_eq!(s, "x00042");
    let mut s = String::new();
    append_padded(&mut s, 123456, 3);
    assert_eq!(s, "123456");
}
