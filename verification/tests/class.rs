use mrubyedge::class::{ClassTable, ConstValue};
use mrubyedge::value::RObject;
use mrubyedge::error::Error;
use mrubyedge::vm::{find_next_handler_pos, next_step, NextStep};
use std::rc::Rc;

#[test]
fn class_table_starts_with_object() {
    let t = ClassTable::new();
    assert_eq!(t.classes.len(), 1);
    assert_eq!(t.full_name(0), "Object");
    assert_eq!(t.find_class_by_name("Object"), None);
    assert_eq!(t.get_const_by_name("Object"), None);
    assert_eq!(t.build_lookup_chain(0), vec![0]);
}

#[test]
fn define_class_registers_constants() {
    let mut t = ClassTable::new();
    let foo = t.define_class("Foo".to_string(), None, None);
    assert_eq!(t.get_const_by_name("Foo"), Some(ConstValue::Class(foo)));
    assert_eq!(t.getmcnst(0, "Foo"), Some(ConstValue::Class(foo)));
    assert_eq!(t.full_name(t.classes[foo].module), "Foo");
    let outer = t.define_module("Outer".to_string(), None);
    assert_eq!(t.get_const_by_name("Outer"), Some(ConstValue::Module(outer)));
    assert_eq!(t.getmcnst(0, "Outer"), Some(ConstValue::Module(outer)));
    let inner = t.define_class("Inner".to_string(), Some(foo), Some(outer));
    assert_eq!(t.classes[inner].super_class, Some(foo));
    assert_eq!(t.getmcnst(outer, "Inner"), Some(ConstValue::Class(inner)));
    assert_eq!(t.getmcnst(0, "Inner"), None);
    assert_eq!(t.get_const_by_name("Inner"), Some(ConstValue::Class(inner)));
    assert_eq!(t.full_name(t.classes[inner].module), "Outer::Inner");
    // a class defined this way is not a built-in class
    assert_eq!(t.find_class_by_name("Foo"), None);
}

#[test]
fn builtin_class_table_keeps_the_last_registration() {
    let mut t = ClassTable::new();
    let a = t.define_standard_class("String".to_string(), None);
    assert_eq!(t.get_class_by_name("String"), a);
    let b = t.define_standard_class("String".to_string(), None);
    assert_ne!(a, b);
    assert_eq!(t.get_class_by_name("String"), b);
    assert_eq!(t.get_class(&RObject::string("x".to_string())), b);
    assert_eq!(t.get_const_by_name("String"), Some(ConstValue::Class(b)));
    assert_eq!(t.find_class_by_name("NoSuchClass"), None);
}

#[test]
fn class_defined_without_superclass_inherits_from_object() {
    let mut t = ClassTable::new();
    t.define_method(0, "to_s".to_string(), 1);
    let foo = t.define_class("Foo".to_string(), None, None);
    assert_eq!(t.classes[foo].super_class, Some(0));
    assert_eq!(t.find_method(foo, "to_s"), Some(1));
    assert_eq!(t.resolve_method(foo, "to_s"), Some((0, 1)));
    assert_eq!(t.find_method(foo, "missing"), None);
}

#[test]
fn own_method_shadows_superclass_and_super_reaches_it() {
    let mut t = ClassTable::new();
    let base = t.define_class("Base".to_string(), None, None);
    let derived = t.define_class("Derived".to_string(), Some(base), None);
    let base_module = t.classes[base].module;
    let derived_module = t.classes[derived].module;
    t.define_method(base_module, "greet".to_string(), 10);
    t.define_method(derived_module, "greet".to_string(), 20);
    assert_eq!(t.resolve_method(derived, "greet"), Some((derived_module, 20)));
    assert_eq!(t.resolve_next_method(derived, "greet", derived_module), Some((base_module, 10)));
    assert_eq!(t.resolve_next_method(derived, "greet", base_module), None);
    // redefining replaces the procedure
    t.define_method(derived_module, "greet".to_string(), 30);
    assert_eq!(t.find_method(derived, "greet"), Some(30));
    assert_eq!(t.modules[derived_module].procs.len(), 1);
}

#[test]
fn mixins_come_before_the_superclass_and_each_module_once() {
    let mut t = ClassTable::new();
    let m1 = t.define_module("M1".to_string(), None);
    let m2 = t.define_module("M2".to_string(), None);
    let c = t.define_class("C".to_string(), None, None);
    let cm = t.classes[c].module;
    t.include_module(cm, m1);
    t.include_module(cm, m2);
    t.include_module(m1, m2);
    // C, then M1 and what M1 includes (M2), then M2 again (skipped), then Object
    assert_eq!(t.build_lookup_chain(c), vec![cm, m1, m2, 0]);
    t.define_method(m2, "hello".to_string(), 7);
    t.define_method(0, "hello".to_string(), 8);
    assert_eq!(t.resolve_method(c, "hello"), Some((m2, 7)));
    assert_eq!(t.module_find_method(m1, "hello"), Some(7));
    assert_eq!(t.module_find_method(cm, "hello"), Some(7));
    assert_eq!(t.module_find_method(0, "hello"), Some(8));
}

#[test]
fn include_cycle_terminates() {
    let mut t = ClassTable::new();
    let a = t.define_module("A".to_string(), None);
    let b = t.define_module("B".to_string(), None);
    t.include_module(a, b);
    t.include_module(b, a);
    assert_eq!(t.module_find_method(a, "nothing"), None);
    let c = t.define_class("C".to_string(), None, None);
    let cm = t.classes[c].module;
    t.include_module(cm, a);
    assert_eq!(t.build_lookup_chain(c), vec![cm, a, b, 0]);
}

#[test]
fn nested_names_and_value_classes() {
    let mut t = ClassTable::new();
    let outer = t.define_module("Outer".to_string(), None);
    let inner = t.define_class("Inner".to_string(), None, Some(outer));
    assert_eq!(t.full_name(t.classes[inner].module), "Outer::Inner");
    let int_class = t.define_standard_class("Integer".to_string(), None);
    let nil_class = t.define_standard_class("NilClass".to_string(), None);
    assert_eq!(t.get_class(&RObject::integer(3)), int_class);
    assert_eq!(t.get_class(&RObject::nil()), nil_class);
    assert_eq!(t.find_class_by_name("TrueClass"), None);
}

#[test]
fn handler_after_pc_is_chosen() {
    let targets = [3usize, 8, 12];
    assert_eq!(find_next_handler_pos(&targets, 0), Some(3));
    assert_eq!(find_next_handler_pos(&targets, 3), Some(8));
    assert_eq!(find_next_handler_pos(&targets, 11), Some(12));
    assert_eq!(find_next_handler_pos(&targets, 12), None);
    assert_eq!(find_next_handler_pos(&[], 0), None);
}

#[test]
fn interpreter_step_decisions() {
    let targets = [5usize, 9];
    assert!(matches!(next_step(2, 12, 0, None, false, &targets), NextStep::Execute(2)));
    assert!(matches!(next_step(12, 12, 0, None, false, &targets), NextStep::Finished));
    let err = Error::RuntimeError("boom".to_string());
    assert!(matches!(next_step(6, 12, 0, Some(&err), false, &targets), NextStep::Rescue(9)));
    // just rescued: run the handler instead of rescuing again
    assert!(matches!(next_step(9, 12, 0, Some(&err), true, &targets), NextStep::Execute(9)));
    assert!(matches!(next_step(10, 12, 0, Some(&err), false, &targets), NextStep::Unwind));
    let ret = Error::BlockReturn(3, Rc::new(RObject::integer(1)));
    assert!(matches!(next_step(10, 12, 3, Some(&ret), false, &targets), NextStep::ReturnFromBlock));
    assert!(matches!(next_step(10, 12, 4, Some(&ret), false, &targets), NextStep::Unwind));
    let brk = Error::Break(Rc::new(RObject::nil()));
    assert!(matches!(next_step(10, 12, 0, Some(&brk), false, &targets), NextStep::UnwindBreak));
}
