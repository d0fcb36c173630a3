use mrubyedge::class::ConstValue;
use mrubyedge::error::Error;
use mrubyedge::prelude::{Native, Runtime};
use mrubyedge::value::{RObject, RValue};

fn class_named(rt: &Runtime, class_name: &str) -> Option<usize> {
    match rt.classes.get_const_by_name(class_name)? {
        ConstValue::Class(c) => Some(c),
        ConstValue::Module(_) => None,
    }
}

fn method(rt: &Runtime, class_name: &str, name: &str) -> Option<Native> {
    let c = class_named(rt, class_name)?;
    let id = rt.classes.find_method(c, name)?;
    Some(rt.fns[id as usize])
}

fn class_method(rt: &Runtime, class_name: &str, name: &str) -> Option<Native> {
    let c = class_named(rt, class_name)?;
    let m = rt.singletons[c]?;
    let id = rt.classes.module_find_method(m, name)?;
    Some(rt.fns[id as usize])
}

#[test]
fn prelude_binds_array_methods() {
    let (rt, _) = Runtime::with_prelude();
    assert_eq!(method(&rt, "Array", "length"), Some(Native::ArraySize));
    assert_eq!(method(&rt, "Array", "size"), Some(Native::ArraySize));
    assert_eq!(method(&rt, "Array", "<<"), Some(Native::ArrayPushSelf));
    assert_eq!(method(&rt, "Array", "to_s"), Some(Native::ArrayInspect));
    // from the Enumerable mixin
    assert_eq!(method(&rt, "Array", "map"), Some(Native::EnumerableMap));
    assert_eq!(method(&rt, "Array", "sum"), Some(Native::EnumerableSum));
    // from Object
    assert_eq!(method(&rt, "Array", "object_id"), Some(Native::ObjectObjectId));
    assert_eq!(method(&rt, "Array", "no_such_method"), None);
    assert_eq!(class_method(&rt, "Array", "new"), Some(Native::ArrayNew));
}

#[test]
fn prelude_binds_scalar_classes() {
    let (rt, _) = Runtime::with_prelude();
    assert_eq!(method(&rt, "Integer", "to_s"), Some(Native::IntegerInspect));
    assert_eq!(method(&rt, "Integer", "%"), Some(Native::IntegerMod));
    assert_eq!(method(&rt, "NilClass", "nil?"), Some(Native::NilclassNilP));
    assert_eq!(method(&rt, "Object", "nil?"), Some(Native::ObjectNilP));
    assert_eq!(method(&rt, "String", "to_s"), Some(Native::ObjectSelf));
    assert_eq!(method(&rt, "String", "length"), Some(Native::StringSize));
    assert_eq!(class_method(&rt, "String", "new"), Some(Native::StringNew));
    assert_eq!(method(&rt, "Symbol", "to_proc"), Some(Native::SymbolToProc));
    assert_eq!(method(&rt, "TrueClass", "^"), Some(Native::TrueclassXor));
}

#[test]
fn prelude_exceptions_random_and_classes() {
    let (rt, _) = Runtime::with_prelude();
    assert_eq!(method(&rt, "RuntimeError", "message"), Some(Native::ExceptionMessage));
    assert_eq!(method(&rt, "NoMethodError", "message"), Some(Native::ExceptionMessage));
    let re = rt.classes.get_class_by_name("RuntimeError");
    let se = rt.classes.get_class_by_name("StandardError");
    assert_eq!(rt.classes.classes[re].super_class, Some(se));
    assert_eq!(method(&rt, "Random", "rand"), Some(Native::RandomRand));
    assert_eq!(class_method(&rt, "Random", "rand"), Some(Native::RandomClassRand));
    assert_eq!(class_method(&rt, "Random", "srand"), Some(Native::RandomClassSrand));
    assert_eq!(method(&rt, "Object", "rand"), Some(Native::KernelRand));
    assert_eq!(method(&rt, "Class", "attr_accessor"), Some(Native::ClassAttrAccessor));
    assert_eq!(method(&rt, "Class", "attr"), Some(Native::ClassAttrAccessor));
    assert_eq!(method(&rt, "Class", "inspect"), Some(Native::ModuleInspect));
    assert_eq!(class_method(&rt, "Proc", "new"), Some(Native::ProcNew));
    assert_eq!(method(&rt, "Proc", "call"), Some(Native::ProcCall));
}

#[test]
fn prelude_answers_where_the_classes_are() {
    let (rt, b) = Runtime::with_prelude();
    assert_eq!(rt.classes.get_class_by_name("Array"), b.array);
    assert_eq!(rt.classes.get_class_by_name("String"), b.string);
    assert_eq!(rt.classes.get_class_by_name("Object"), 0);
    // Random is a constant, not a built-in class
    assert_eq!(rt.classes.find_class_by_name("Random"), None);
    assert_eq!(rt.classes.get_const_by_name("Random"), Some(ConstValue::Class(b.random)));
    assert_eq!(rt.classes.get_const_by_name("Enumerable"), Some(ConstValue::Module(b.enumerable)));
    assert_eq!(rt.classes.full_name(b.enumerable), "Enumerable");
    assert_eq!(rt.classes.modules[rt.classes.classes[b.array].module].mixed_in_modules, vec![b.enumerable]);
    assert_eq!(rt.classes.classes[b.class].super_class, Some(b.module));
    let chain = rt.classes.build_lookup_chain(b.array);
    assert_eq!(chain, vec![rt.classes.classes[b.array].module, b.enumerable, 0]);
}

#[test]
fn values_reach_the_natives_of_their_classes() {
    let (rt, _) = Runtime::with_prelude();
    let arr = RObject::array(vec![RObject::integer(1)]);
    assert_eq!(rt.native_method(&arr, "size"), Some(Native::ArraySize));
    assert_eq!(rt.native_method(&arr, "sort"), Some(Native::EnumerableSort));
    assert_eq!(rt.native_method(&RObject::integer(3), "%"), Some(Native::IntegerMod));
    assert_eq!(rt.native_method(&RObject::integer(3), "object_id"), Some(Native::ObjectObjectId));
    assert_eq!(rt.native_method(&RObject::nil(), "nil?"), Some(Native::NilclassNilP));
    assert_eq!(rt.native_method(&RObject::boolean(false), "^"), Some(Native::FalseclassXor));
    assert_eq!(rt.native_method(&RObject::string("s".to_string()), "upcase"), Some(Native::StringUpcase));
    assert_eq!(rt.native_method(&RObject::integer(3), "no_such"), None);
    // ranges have no class in this runtime
    let range = RObject::range(RObject::integer(1), RObject::integer(2), false);
    assert_eq!(rt.native_method(&range, "to_s"), None);
}

#[test]
fn funcall_runs_the_natives_it_holds() {
    let (rt, _) = Runtime::with_prelude();
    let mut s = RObject::string("héllo".to_string());
    for name in ["size", "length", "bytesize"] {
        match rt.funcall(&mut s, name, &[]) {
            Some(Ok(o)) => assert!(matches!(o.value, RValue::Integer(6))),
            _ => panic!("String#{} did not answer an integer", name),
        }
    }
    match rt.funcall(&mut s, "to_s", &[]) {
        Some(Ok(o)) => assert!(matches!(&o.value, RValue::String(b) if b == "héllo".as_bytes())),
        _ => panic!("String#to_s did not answer the string"),
    }
    let mut arr = RObject::array(vec![RObject::nil(), RObject::nil()]);
    assert!(matches!(rt.funcall(&mut arr, "size", &[]), Some(Ok(o)) if matches!(o.value, RValue::Integer(2))));
    assert!(matches!(rt.funcall(&mut RObject::nil(), "nil?", &[]), Some(Ok(o)) if matches!(o.value, RValue::Bool(true))));
    assert!(matches!(rt.funcall(&mut RObject::integer(1), "nil?", &[]), Some(Ok(o)) if matches!(o.value, RValue::Bool(false))));
    match rt.funcall(&mut s, "no_such_method", &[]) {
        Some(Err(Error::NoMethodError(m))) => assert_eq!(m, "no_such_method"),
        _ => panic!("a missing method is not a NoMethodError"),
    }
    // a method whose native function takes a block is not run here
    assert!(rt.funcall(&mut arr, "each", &[RObject::nil()]).is_none());
}

#[test]
fn init_time_binds_the_time_methods() {
    let (mut rt, _) = Runtime::with_prelude();
    let t = rt.init_time();
    assert_eq!(rt.classes.get_const_by_name("Time"), Some(ConstValue::Class(t)));
    assert_eq!(method(&rt, "Time", "mon"), Some(Native::TimeMonth));
    assert_eq!(method(&rt, "Time", "gmt_offset"), Some(Native::TimeUtcOffset));
    assert_eq!(method(&rt, "Time", "object_id"), Some(Native::ObjectObjectId));
    assert_eq!(class_method(&rt, "Time", "at"), Some(Native::TimeAt));
    assert_eq!(class_method(&rt, "Time", "__source"), Some(Native::TimeSourceDefault));
}
