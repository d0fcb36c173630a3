use mrubyedge::error::Error;
use mrubyedge::prelude::Runtime;
use mrubyedge::value::{RObject, RValue};

fn call(rt: &Runtime, recv: &mut RObject, name: &str, args: &[RObject]) -> Result<RObject, Error> {
    rt.funcall(recv, name, args).expect("the native function runs here")
}

fn int_of(r: Result<RObject, Error>) -> i64 {
    match r {
        Ok(o) => match o.value {
            RValue::Integer(i) => i,
            v => panic!("not an integer: {:?}", v),
        },
        Err(e) => panic!("error: {:?}", e),
    }
}

fn bool_of(r: Result<RObject, Error>) -> bool {
    match r {
        Ok(o) => match o.value {
            RValue::Bool(b) => b,
            v => panic!("not a boolean: {:?}", v),
        },
        Err(e) => panic!("error: {:?}", e),
    }
}

fn text_of(r: Result<RObject, Error>) -> String {
    match r {
        Ok(o) => match o.value {
            RValue::String(b) => String::from_utf8(b).expect("utf-8"),
            v => panic!("not a string: {:?}", v),
        },
        Err(e) => panic!("error: {:?}", e),
    }
}

fn ints_of(o: &RObject) -> Vec<i64> {
    match &o.value {
        RValue::Array(v) => v
            .iter()
            .map(|e| match e.value {
                RValue::Integer(i) => i,
                _ => panic!("not an integer element"),
            })
            .collect(),
        _ => panic!("not an array"),
    }
}

fn int_array(v: &[i64]) -> RObject {
    RObject::array(v.iter().map(|i| RObject::integer(*i)).collect())
}

#[test]
fn funcall_integer_operators() {
    let (rt, _) = Runtime::with_prelude();
    let i = |n: i64| RObject::integer(n);
    assert_eq!(int_of(call(&rt, &mut i(7), "%", &[i(3)])), 1);
    assert_eq!(int_of(call(&rt, &mut i(7), "%", &[i(-3)])), -2);
    assert!(matches!(call(&rt, &mut i(7), "%", &[i(0)]), Err(Error::RuntimeError(m)) if m == "divided by 0"));
    assert_eq!(int_of(call(&rt, &mut i(2), "**", &[i(10)])), 1024);
    assert!(rt.funcall(&mut i(2), "**", &[i(-1)]).is_none());
    assert!(matches!(call(&rt, &mut i(2), "**", &[RObject::nil()]), Err(Error::ArgumentError(m)) if m == "exponent must be numeric"));
    assert_eq!(int_of(call(&rt, &mut i(12), "&", &[i(10)])), 8);
    assert_eq!(int_of(call(&rt, &mut i(12), "|", &[i(3)])), 15);
    assert_eq!(int_of(call(&rt, &mut i(12), "^", &[i(10)])), 6);
    assert_eq!(int_of(call(&rt, &mut i(5), "~", &[])), -6);
    assert_eq!(int_of(call(&rt, &mut i(1), "<<", &[i(4)])), 16);
    assert_eq!(int_of(call(&rt, &mut i(-16), ">>", &[i(2)])), -4);
    assert!(matches!(call(&rt, &mut i(1), "<<", &[i(-1)]), Err(Error::ArgumentError(m)) if m == "negative shift count"));
    assert_eq!(int_of(call(&rt, &mut i(5), "[]", &[i(2)])), 1);
    assert_eq!(int_of(call(&rt, &mut i(5), "[]", &[i(-1)])), 0);
    assert_eq!(int_of(call(&rt, &mut i(5), "-@", &[])), -5);
    assert_eq!(int_of(call(&rt, &mut i(-5), "abs", &[])), 5);
    assert_eq!(int_of(call(&rt, &mut i(9), "to_i", &[])), 9);
    assert_eq!(text_of(call(&rt, &mut i(-42), "inspect", &[])), "-42");
    assert_eq!(text_of(call(&rt, &mut i(97), "chr", &[])), "a");
    assert!(matches!(call(&rt, &mut i(-1), "chr", &[]), Err(Error::RangeError(_))));
    assert!(matches!(call(&rt, &mut i(1), "&", &[RObject::nil()]), Err(Error::TypeMismatch)));
}

#[test]
fn funcall_array_queries() {
    let (rt, _) = Runtime::with_prelude();
    let mut a = int_array(&[3, 1, 2, 3]);
    assert_eq!(int_of(call(&rt, &mut a, "length", &[])), 4);
    assert!(!bool_of(call(&rt, &mut a, "empty?", &[])));
    assert!(bool_of(call(&rt, &mut a, "include?", &[RObject::integer(2)])));
    assert!(!bool_of(call(&rt, &mut a, "include?", &[RObject::integer(9)])));
    assert_eq!(int_of(call(&rt, &mut a, "[]", &[RObject::integer(1)])), 1);
    assert!(matches!(call(&rt, &mut a, "[]", &[RObject::integer(10)]), Ok(o) if matches!(o.value, RValue::Nil)));
    let sum = call(&rt, &mut a, "+", &[int_array(&[4])]).unwrap();
    assert_eq!(ints_of(&sum), vec![3, 1, 2, 3, 4]);
    let both = call(&rt, &mut a, "&", &[int_array(&[3, 2, 8])]).unwrap();
    assert_eq!(ints_of(&both), vec![3, 2]);
    let either = call(&rt, &mut a, "|", &[int_array(&[5, 1])]).unwrap();
    assert_eq!(ints_of(&either), vec![3, 1, 2, 5]);
    assert_eq!(ints_of(&call(&rt, &mut a, "dup", &[]).unwrap()), vec![3, 1, 2, 3]);
    assert_eq!(ints_of(&a), vec![3, 1, 2, 3]);
}

#[test]
fn funcall_array_mutators_change_the_receiver() {
    let (rt, _) = Runtime::with_prelude();
    let mut a = int_array(&[1, 2, 3]);
    let pushed = call(&rt, &mut a, "push", &[RObject::integer(4), RObject::nil()]).unwrap();
    assert_eq!(ints_of(&pushed), vec![1, 2, 3, 4]);
    assert_eq!(ints_of(&a), vec![1, 2, 3, 4]);
    assert_eq!(int_of(call(&rt, &mut a, "pop", &[])), 4);
    assert_eq!(int_of(call(&rt, &mut a, "shift", &[])), 1);
    assert_eq!(ints_of(&a), vec![2, 3]);
    call(&rt, &mut a, "unshift", &[RObject::integer(0), RObject::nil()]).unwrap();
    assert_eq!(ints_of(&a), vec![0, 2, 3]);
    assert_eq!(int_of(call(&rt, &mut a, "[]=", &[RObject::integer(1), RObject::integer(9)])), 9);
    assert_eq!(ints_of(&a), vec![0, 9, 3]);
    assert_eq!(int_of(call(&rt, &mut a, "delete_at", &[RObject::integer(-1)])), 3);
    assert_eq!(ints_of(&a), vec![0, 9]);
    let cleared = call(&rt, &mut a, "clear", &[]).unwrap();
    assert_eq!(ints_of(&cleared), Vec::<i64>::new());
    assert_eq!(ints_of(&a), Vec::<i64>::new());
    assert!(matches!(call(&rt, &mut a, "pop", &[]), Ok(o) if matches!(o.value, RValue::Nil)));
}

#[test]
fn funcall_enumerable_methods() {
    let (rt, _) = Runtime::with_prelude();
    let mut a = int_array(&[3, 1, 2, 3]);
    assert_eq!(ints_of(&call(&rt, &mut a, "sort", &[]).unwrap()), vec![1, 2, 3, 3]);
    assert_eq!(int_of(call(&rt, &mut a, "min", &[])), 1);
    assert_eq!(int_of(call(&rt, &mut a, "max", &[])), 3);
    assert_eq!(ints_of(&call(&rt, &mut a, "minmax", &[]).unwrap()), vec![1, 3]);
    assert_eq!(ints_of(&call(&rt, &mut a, "uniq", &[]).unwrap()), vec![3, 1, 2]);
    assert_eq!(int_of(call(&rt, &mut a, "count", &[])), 4);
    assert_eq!(int_of(call(&rt, &mut a, "sum", &[])), 9);
    assert_eq!(int_of(call(&rt, &mut a, "sum", &[RObject::integer(10)])), 19);
    let mut b = RObject::array(vec![RObject::integer(1), RObject::nil(), RObject::integer(2)]);
    assert_eq!(ints_of(&call(&rt, &mut b, "compact", &[]).unwrap()), vec![1, 2]);
    assert_eq!(ints_of(&call(&rt, &mut a, "to_a", &[]).unwrap()), vec![3, 1, 2, 3]);
}

#[test]
fn funcall_string_methods() {
    let (rt, _) = Runtime::with_prelude();
    let s = |t: &str| RObject::string(t.to_string());
    assert_eq!(text_of(call(&rt, &mut s("héllo"), "upcase", &[])), "HÉLLO");
    assert_eq!(text_of(call(&rt, &mut s("HeLLo"), "downcase", &[])), "hello");
    assert_eq!(text_of(call(&rt, &mut s("  x y \n"), "strip", &[])), "x y");
    assert_eq!(text_of(call(&rt, &mut s("  x "), "lstrip", &[])), "x ");
    assert_eq!(text_of(call(&rt, &mut s("  x "), "rstrip", &[])), "  x");
    assert_eq!(text_of(call(&rt, &mut s("line\n"), "chomp", &[])), "line");
    assert_eq!(text_of(call(&rt, &mut s("ab"), "+", &[s("cd")])), "abcd");
    assert!(bool_of(call(&rt, &mut s("hello"), "start_with?", &[s("he")])));
    assert!(!bool_of(call(&rt, &mut s("hello"), "end_with?", &[s("he")])));
    assert!(bool_of(call(&rt, &mut s("hello"), "include?", &[s("ll")])));
    assert!(bool_of(call(&rt, &mut s(""), "empty?", &[])));
    assert_eq!(int_of(call(&rt, &mut s(" -123 "), "to_i", &[])), -123);
    assert_eq!(int_of(call(&rt, &mut s("-123abc"), "to_i", &[])), 0);
    assert_eq!(text_of(call(&rt, &mut s("ab"), "inspect", &[])), "\"ab\"");
    assert_eq!(int_of(call(&rt, &mut s("abc"), "getbyte", &[RObject::integer(-1)])), 99);
    assert!(matches!(call(&rt, &mut s("abc"), "getbyte", &[RObject::integer(5)]), Ok(o) if matches!(o.value, RValue::Nil)));
    assert_eq!(text_of(call(&rt, &mut s("abc"), "b", &[])), "abc");
    // a non-string argument is formatted by the host, which is not run here
    assert!(rt.funcall(&mut s("ab"), "+", &[RObject::integer(1)]).is_none());
}

#[test]
fn funcall_string_text_is_read_lossily() {
    let (rt, _) = Runtime::with_prelude();
    let mut bad = RObject::string_from_vec(vec![b'a', 0xff, b'b']);
    assert_eq!(text_of(call(&rt, &mut bad, "upcase", &[])), "A\u{FFFD}B");
    assert_eq!(int_of(call(&rt, &mut bad, "size", &[])), 3);
}

#[test]
fn funcall_object_methods() {
    let (rt, _) = Runtime::with_prelude();
    assert!(bool_of(call(&rt, &mut RObject::integer(3), "==", &[RObject::integer(3)])));
    assert!(!bool_of(call(&rt, &mut RObject::integer(3), "==", &[RObject::integer(4)])));
    assert!(bool_of(call(&rt, &mut RObject::nil(), "nil?", &[])));
    let mut s = RObject::string("x".to_string());
    assert_eq!(text_of(call(&rt, &mut s, "to_s", &[])), "x");
}

fn bytes_of(o: &RObject) -> Vec<u8> {
    match &o.value {
        RValue::String(b) => b.clone(),
        v => panic!("not a string: {:?}", v),
    }
}

#[test]
fn funcall_string_queries() {
    let (rt, _) = Runtime::with_prelude();
    let s = |t: &str| RObject::string(t.to_string());
    assert_eq!(text_of(call(&rt, &mut s("ab"), "*", &[RObject::integer(3)])), "ababab");
    assert!(matches!(call(&rt, &mut s("ab"), "*", &[RObject::integer(-1)]), Err(Error::ArgumentError(m)) if m == "negative argument"));
    assert_eq!(int_of(call(&rt, &mut s("é"), "ord", &[])), 233);
    assert!(matches!(call(&rt, &mut s(""), "ord", &[]), Err(Error::ArgumentError(m)) if m == "empty string"));
    assert_eq!(int_of(call(&rt, &mut s("héllo"), "index", &[s("l")])), 3);
    assert!(matches!(call(&rt, &mut s("hello"), "index", &[s("z")]), Ok(o) if matches!(o.value, RValue::Nil)));
    let bytes = call(&rt, &mut s("hi"), "bytes", &[]).unwrap();
    assert_eq!(ints_of(&bytes), vec![104, 105]);
    let parts = call(&rt, &mut s("a,b,,c"), "split", &[s(",")]).unwrap();
    match &parts.value {
        RValue::Array(v) => {
            let texts: Vec<Vec<u8>> = v.iter().map(bytes_of).collect();
            assert_eq!(texts, vec![b"a".to_vec(), b"b".to_vec(), b"".to_vec(), b"c".to_vec()]);
        },
        _ => panic!("split did not answer an array"),
    }
    let words = call(&rt, &mut s("  one two  "), "split", &[]).unwrap();
    match &words.value {
        RValue::Array(v) => assert_eq!(v.iter().map(bytes_of).collect::<Vec<_>>(), vec![b"one".to_vec(), b"two".to_vec()]),
        _ => panic!("split did not answer an array"),
    }
}

#[test]
fn funcall_string_bang_methods_change_the_receiver() {
    let (rt, _) = Runtime::with_prelude();
    let mut s = RObject::string("  Hi \n".to_string());
    let r = call(&rt, &mut s, "strip!", &[]).unwrap();
    assert_eq!(bytes_of(&r), b"Hi".to_vec());
    assert_eq!(bytes_of(&s), b"Hi".to_vec());
    assert!(matches!(call(&rt, &mut s, "strip!", &[]), Ok(o) if matches!(o.value, RValue::Nil)));
    call(&rt, &mut s, "upcase!", &[]).unwrap();
    assert_eq!(bytes_of(&s), b"HI".to_vec());
    assert!(matches!(call(&rt, &mut s, "upcase!", &[]), Ok(o) if matches!(o.value, RValue::Nil)));
    call(&rt, &mut s, "downcase!", &[]).unwrap();
    assert_eq!(bytes_of(&s), b"hi".to_vec());
    call(&rt, &mut s, "<<", &[RObject::string("!\n".to_string())]).unwrap();
    assert_eq!(bytes_of(&s), b"hi!\n".to_vec());
    call(&rt, &mut s, "chomp!", &[]).unwrap();
    assert_eq!(bytes_of(&s), b"hi!".to_vec());
    assert_eq!(int_of(call(&rt, &mut s, "setbyte", &[RObject::integer(0), RObject::integer(72)])), 72);
    assert_eq!(bytes_of(&s), b"Hi!".to_vec());
    assert!(matches!(call(&rt, &mut s, "setbyte", &[RObject::integer(9), RObject::integer(72)]), Err(Error::ArgumentError(m)) if m == "index 9 out of string"));
    assert!(matches!(call(&rt, &mut s, "setbyte", &[RObject::integer(0), RObject::integer(300)]), Err(Error::ArgumentError(m)) if m == "300 out of char range"));
    let mut t = RObject::string("x  ".to_string());
    call(&rt, &mut t, "rstrip!", &[]).unwrap();
    assert_eq!(bytes_of(&t), b"x".to_vec());
    let mut u = RObject::string("  x".to_string());
    call(&rt, &mut u, "lstrip!", &[]).unwrap();
    assert_eq!(bytes_of(&u), b"x".to_vec());
}

#[test]
fn funcall_array_first_last_and_uniq_bang() {
    let (rt, _) = Runtime::with_prelude();
    let mut a = int_array(&[1, 2, 2, 3]);
    assert_eq!(int_of(call(&rt, &mut a, "first", &[])), 1);
    assert_eq!(int_of(call(&rt, &mut a, "last", &[RObject::nil()])), 3);
    assert_eq!(ints_of(&call(&rt, &mut a, "first", &[RObject::integer(2)]).unwrap()), vec![1, 2]);
    assert_eq!(ints_of(&call(&rt, &mut a, "last", &[RObject::integer(9), RObject::nil()]).unwrap()), vec![1, 2, 2, 3]);
    assert!(matches!(call(&rt, &mut a, "first", &[RObject::integer(-1)]), Err(Error::ArgumentError(_))));
    let r = call(&rt, &mut a, "uniq!", &[]).unwrap();
    assert_eq!(ints_of(&r), vec![1, 2, 3]);
    assert_eq!(ints_of(&a), vec![1, 2, 3]);
    assert!(matches!(call(&rt, &mut a, "uniq!", &[]), Ok(o) if matches!(o.value, RValue::Nil)));
}

#[test]
fn funcall_nil_true_false_methods() {
    let (rt, _) = Runtime::with_prelude();
    let t = || RObject::boolean(true);
    let f = || RObject::boolean(false);
    assert_eq!(text_of(call(&rt, &mut RObject::nil(), "to_s", &[])), "");
    assert_eq!(text_of(call(&rt, &mut RObject::nil(), "inspect", &[])), "nil");
    assert_eq!(text_of(call(&rt, &mut t(), "to_s", &[])), "true");
    assert_eq!(text_of(call(&rt, &mut f(), "inspect", &[])), "false");
    assert!(!bool_of(call(&rt, &mut t(), "&", &[RObject::nil()])));
    assert!(bool_of(call(&rt, &mut t(), "&", &[RObject::integer(0)])));
    assert!(bool_of(call(&rt, &mut t(), "|", &[RObject::nil()])));
    assert!(bool_of(call(&rt, &mut t(), "^", &[f()])));
    assert!(!bool_of(call(&rt, &mut f(), "&", &[t()])));
    assert!(bool_of(call(&rt, &mut f(), "|", &[t()])));
    assert!(!bool_of(call(&rt, &mut f(), "^", &[RObject::nil()])));
    assert!(!bool_of(call(&rt, &mut RObject::integer(1), "nil?", &[])));
}

#[test]
fn funcall_object_id_maps_the_id_into_i64() {
    let (rt, _) = Runtime::with_prelude();
    assert_eq!(int_of(call(&rt, &mut RObject::integer(1), "object_id", &[])), i64::MIN + 3);
    assert_eq!(int_of(call(&rt, &mut RObject::nil(), "__id__", &[])), i64::MIN + 4);
    assert_eq!(int_of(call(&rt, &mut RObject::integer(-1), "object_id", &[])), i64::MAX);
}

#[test]
fn funcall_string_slice_dup_clear_and_symbols() {
    let (rt, _) = Runtime::with_prelude();
    let s = |t: &str| RObject::string(t.to_string());
    let i = |n: i64| RObject::integer(n);
    assert_eq!(text_of(call(&rt, &mut s("héllo"), "[]", &[i(1)])), "é");
    assert_eq!(text_of(call(&rt, &mut s("héllo"), "slice", &[i(-3), i(2)])), "ll");
    assert_eq!(text_of(call(&rt, &mut s("héllo"), "[]", &[i(3), i(10)])), "lo");
    assert!(matches!(call(&rt, &mut s("abc"), "[]", &[i(5)]), Ok(o) if matches!(o.value, RValue::Nil)));
    assert!(matches!(call(&rt, &mut s("abc"), "[]", &[i(0), i(-1)]), Ok(o) if matches!(o.value, RValue::Nil)));
    assert!(matches!(call(&rt, &mut s("abc"), "[]", &[]), Err(Error::ArgumentError(m)) if m == "wrong number of arguments"));
    assert!(matches!(call(&rt, &mut s("abc"), "[]", &[RObject::nil()]), Err(Error::TypeMismatch)));
    assert_eq!(text_of(call(&rt, &mut s("abc"), "dup", &[])), "abc");
    assert_eq!(text_of(call(&rt, &mut s("abc"), "clear", &[])), "");
    for name in ["to_sym", "intern"] {
        match call(&rt, &mut s("abc"), name, &[]) {
            Ok(o) => assert!(matches!(&o.value, RValue::Symbol(sym) if sym.name == "abc")),
            Err(e) => panic!("error: {:?}", e),
        }
    }
}

#[test]
fn funcall_string_slice_bang_cuts_the_receiver() {
    let (rt, _) = Runtime::with_prelude();
    let mut s = RObject::string("héllo".to_string());
    assert_eq!(text_of(call(&rt, &mut s, "slice!", &[RObject::integer(1), RObject::integer(2), RObject::nil()])), "él");
    assert_eq!(bytes_of(&s), "hlo".as_bytes().to_vec());
    assert_eq!(text_of(call(&rt, &mut s, "slice!", &[RObject::integer(-1)])), "o");
    assert_eq!(bytes_of(&s), b"hl".to_vec());
    assert!(matches!(call(&rt, &mut s, "slice!", &[RObject::integer(7)]), Ok(o) if matches!(o.value, RValue::Nil)));
    assert_eq!(bytes_of(&s), b"hl".to_vec());
    assert!(matches!(call(&rt, &mut s, "slice!", &[]), Err(Error::ArgumentError(_))));
}
