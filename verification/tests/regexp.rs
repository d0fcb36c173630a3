use mrubyedge::error::Error;
use mrubyedge::regexp::mrb_regexp_new;
use mrubyedge::value::RObject;
use mrubyedge::vm::Breadcrumb;

#[test]
fn regexp_new_keeps_the_pattern_text() {
    let re = mrb_regexp_new(&RObject::string("a+b?".to_string())).expect("pattern");
    assert_eq!(re.pattern, "a+b?");
    let re = mrb_regexp_new(&RObject::string("é.*".to_string())).expect("pattern");
    assert_eq!(re.pattern, "é.*");
}

#[test]
fn regexp_new_refuses_non_strings_and_bad_utf8() {
    match mrb_regexp_new(&RObject::integer(1)) {
        Err(Error::RuntimeError(m)) => assert_eq!(m, "Regexp.new requires a string pattern"),
        _ => panic!("expected a runtime error"),
    }
    match mrb_regexp_new(&RObject::string_from_vec(vec![b'a', 0xff])) {
        Err(Error::RuntimeError(m)) => assert!(m.starts_with("Invalid regexp expression: ")),
        _ => panic!("expected a runtime error"),
    }
}

#[test]
fn breadcrumbs_stack_newest_first() {
    let root = Breadcrumb::push(None, "root", None, None);
    let run = Breadcrumb::push(Some(root), "run", Some("main".to_string()), Some(2));
    assert_eq!(run.event, "run");
    assert_eq!(run.caller.as_deref(), Some("main"));
    assert_eq!(run.return_reg, Some(2));
    let upper = run.upper.as_ref().expect("upper");
    assert_eq!(upper.event, "root");
    assert!(upper.upper.is_none());
}
