use mrubyedge::args::{check_args_count, strip_trailing_nil};
use mrubyedge::error::Error;
use mrubyedge::value::RObject;

#[test]
fn trailing_nil_is_dropped() {
    let args = vec![RObject::integer(1), RObject::nil()];
    assert_eq!(strip_trailing_nil(&args).len(), 1);
    let args = vec![RObject::nil(), RObject::integer(1)];
    assert_eq!(strip_trailing_nil(&args).len(), 2);
    assert_eq!(strip_trailing_nil(&[]).len(), 0);
}

#[test]
fn argument_count_is_checked() {
    let args = vec![RObject::integer(1), RObject::integer(2), RObject::nil()];
    assert_eq!(check_args_count(&args, 2).unwrap().len(), 2);
    match check_args_count(&args, 1) {
        Err(Error::ArgumentError(m)) => assert_eq!(m, "wrong number of arguments (given 2, expected 1)"),
        _ => panic!("expected an argument error"),
    }
    match check_args_count(&[], 3) {
        Err(Error::ArgumentError(m)) => assert_eq!(m, "wrong number of arguments (given 0, expected 3)"),
        _ => panic!("expected an argument error"),
    }
}
