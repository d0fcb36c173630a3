//! The built-in classes of a fresh runtime and their method tables: each
//! Ruby method name bound to the native function that implements it.
use vstd::prelude::*;
use crate::class::{ClassTable, ConstValue, RClass, RModule, same_but_consts, method_of, module_ok, class_ok, builtin_class_name, first_resolving, lookup_chain, lemma_own_method_wins};
use crate::value::{RObject, RValue, RType, ObjectModel, ValueModel, model, integer_object_id};
use crate::error::Error;
use crate::array::elems;

verus! {

/// A runtime's classes and its registry of native functions; a native
/// method's procedure id is its index in the registry.
pub struct Runtime {
    pub classes: ClassTable,
    pub fns: Vec<Native>,
    pub singletons: Vec<Option<usize>>,
}

/// The texts of a method table.
pub open spec fn table_view(t: Seq<(&str, Native)>) -> Seq<(Seq<char>, Native)> {
    t.map_values(|e: (&str, Native)| (e.0@, e.1))
}

/// The native function that the last entry named `name` of `table` binds.
pub open spec fn last_native(table: Seq<(Seq<char>, Native)>, name: Seq<char>) -> Option<Native>
    decreases table.len(),
{
    if table.len() == 0 {
        None
    } else if table.last().0 == name {
        Some(table.last().1)
    } else {
        last_native(table.drop_last(), name)
    }
}

/// Method `name` of module `module` runs native function `f`.
pub open spec fn runs(rt: Runtime, module: int, name: Seq<char>, f: Native) -> bool {
    match method_of(rt.classes.modules@[module].procs@, name) {
        Some(id) => id < rt.fns@.len() && rt.fns@[id as int] == f,
        None => false,
    }
}

/// Module `module` has every method of `table`, bound as its last entry of
/// that name binds it.
pub open spec fn installed(rt: Runtime, module: int, table: Seq<(Seq<char>, Native)>) -> bool {
    forall|name: Seq<char>| #[trigger] last_native(table, name) is Some ==> runs(rt, module, name, last_native(table, name)->Some_0)
}

impl Runtime {
    /// Well-formedness: the class table is well formed and every class has
    /// at most one singleton module, a module of the table.
    pub open spec fn wf(&self) -> bool {
        &&& self.classes.wf()
        &&& self.singletons@.len() == self.classes.classes@.len()
        &&& forall|c: int| 0 <= c < self.singletons@.len() && #[trigger] self.singletons@[c] is Some
            ==> self.singletons@[c]->Some_0 < self.classes.modules@.len()
    }

    /// Binds method `name` of module `module` to native function `f`,
    /// registered at the next index.
    pub fn define_cmethod(&mut self, module: usize, name: &str, f: Native)
        requires
            old(self).wf(),
            module < old(self).classes.modules@.len(),
            old(self).fns@.len() < u64::MAX,
        ensures
            final(self).classes.consts@ == old(self).classes.consts@,
            final(self).classes.builtins@ == old(self).classes.builtins@,
            final(self).wf(),
            final(self).fns@ == old(self).fns@.push(f),
            final(self).classes.classes@ == old(self).classes.classes@,
            final(self).singletons@ == old(self).singletons@,
            final(self).classes.modules@.len() == old(self).classes.modules@.len(),
            forall|i: int| 0 <= i < old(self).classes.modules@.len() && i != module
                ==> final(self).classes.modules@[i] == old(self).classes.modules@[i],
            final(self).classes.modules@[module as int].mixed_in_modules@ == old(self).classes.modules@[module as int].mixed_in_modules@,
            final(self).classes.modules@[module as int].name@ == old(self).classes.modules@[module as int].name@,
            final(self).classes.modules@[module as int].parent == old(self).classes.modules@[module as int].parent,
            method_of(final(self).classes.modules@[module as int].procs@, name@) == Some(old(self).fns@.len() as u64),
            forall|other: Seq<char>| other != name@ ==> method_of(final(self).classes.modules@[module as int].procs@, other)
                == method_of(old(self).classes.modules@[module as int].procs@, other),
    {
        let id = self.fns.len() as u64;
        self.fns.push(f);
        self.classes.define_method(module, String::from_str(name), id);
    }

    /// Binds the methods of `table` on module `module`, in order, so that a
    /// name given twice keeps its last binding.
    pub fn install(&mut self, module: usize, table: &Vec<(&str, Native)>)
        requires
            old(self).wf(),
            module < old(self).classes.modules@.len(),
            old(self).fns@.len() + table@.len() < u64::MAX,
        ensures
            final(self).classes.consts@ == old(self).classes.consts@,
            final(self).classes.builtins@ == old(self).classes.builtins@,
            final(self).wf(),
            installed(*final(self), module as int, table_view(table@)),
            final(self).classes.classes@ == old(self).classes.classes@,
            final(self).singletons@ == old(self).singletons@,
            final(self).classes.modules@.len() == old(self).classes.modules@.len(),
            final(self).fns@.len() == old(self).fns@.len() + table@.len(),
            final(self).fns@.subrange(0, old(self).fns@.len() as int) == old(self).fns@,
            forall|i: int| 0 <= i < old(self).classes.modules@.len() && i != module
                ==> final(self).classes.modules@[i] == old(self).classes.modules@[i],
            final(self).classes.modules@[module as int].mixed_in_modules@ == old(self).classes.modules@[module as int].mixed_in_modules@,
            final(self).classes.modules@[module as int].name@ == old(self).classes.modules@[module as int].name@,
            final(self).classes.modules@[module as int].parent == old(self).classes.modules@[module as int].parent,
            forall|name: Seq<char>| #[trigger] last_native(table_view(table@), name) is None
                ==> method_of(final(self).classes.modules@[module as int].procs@, name)
                == method_of(old(self).classes.modules@[module as int].procs@, name),
    {
        let ghost t = table_view(table@);
        let mut i: usize = 0;
        while i < table.len()
            invariant
                self.wf(),
                i <= table@.len(),
                t == table_view(table@),
                module < self.classes.modules@.len(),
                self.fns@.len() == old(self).fns@.len() + i,
                old(self).fns@.len() + table@.len() < u64::MAX,
                self.fns@.subrange(0, old(self).fns@.len() as int) == old(self).fns@,
                installed(*self, module as int, t.subrange(0, i as int)),
                self.classes.classes@ == old(self).classes.classes@,
                self.classes.builtins@ == old(self).classes.builtins@,
                self.classes.consts@ == old(self).classes.consts@,
                self.singletons@ == old(self).singletons@,
                self.classes.modules@.len() == old(self).classes.modules@.len(),
                forall|j: int| 0 <= j < old(self).classes.modules@.len() && j != module
                    ==> self.classes.modules@[j] == old(self).classes.modules@[j],
                self.classes.modules@[module as int].mixed_in_modules@ == old(self).classes.modules@[module as int].mixed_in_modules@,
                self.classes.modules@[module as int].name@ == old(self).classes.modules@[module as int].name@,
                self.classes.modules@[module as int].parent == old(self).classes.modules@[module as int].parent,
                forall|name: Seq<char>| #[trigger] last_native(t.subrange(0, i as int), name) is None
                    ==> method_of(self.classes.modules@[module as int].procs@, name)
                    == method_of(old(self).classes.modules@[module as int].procs@, name),
            decreases table@.len() - i,
        {
            let ghost before = *self;
            let (name, f) = table[i];
            self.define_cmethod(module, name, f);
            proof {
                let prev = t.subrange(0, i as int);
                let next = t.subrange(0, i + 1);
                assert(next.drop_last() =~= prev);
                assert(next.last() == (name@, f));
                assert(self.fns@.subrange(0, old(self).fns@.len() as int) =~= old(self).fns@) by {
                    assert(self.fns@ == before.fns@.push(f));
                    assert forall|k: int| 0 <= k < old(self).fns@.len() implies self.fns@[k] == old(self).fns@[k] by {
                        assert(before.fns@.subrange(0, old(self).fns@.len() as int)[k] == before.fns@[k]);
                    }
                }
                assert forall|nm: Seq<char>| #[trigger] last_native(next, nm) is Some implies runs(*self, module as int, nm, last_native(next, nm)->Some_0) by {
                    if nm == name@ {
                        assert(self.fns@[before.fns@.len() as int] == f);
                    } else {
                        assert(last_native(next, nm) == last_native(prev, nm));
                        let id = method_of(before.classes.modules@[module as int].procs@, nm)->Some_0;
                        assert(self.fns@[id as int] == before.fns@[id as int]);
                    }
                }
                assert forall|nm: Seq<char>| #[trigger] last_native(next, nm) is None implies method_of(
                    self.classes.modules@[module as int].procs@,
                    nm,
                ) == method_of(old(self).classes.modules@[module as int].procs@, nm) by {
                    assert(nm != name@);
                    assert(last_native(next, nm) == last_native(prev, nm));
                }
            }
            i = i + 1;
        }
        assert(t.subrange(0, table@.len() as int) =~= t);
    }
}


/// Class `r` named `name` was added under `superclass` (or `Object`) with a
/// new module of its own, as the constant `name` of the runtime and of
/// `Object`; no other module changed, and no method.
pub open spec fn class_added(a: Runtime, b: Runtime, r: usize, name: Seq<char>, superclass: Option<usize>) -> bool {
    &&& r == a.classes.classes@.len()
    &&& b.classes.classes@ == a.classes.classes@.push(RClass {
        module: a.classes.modules@.len() as usize,
        super_class: Some(match superclass { Some(s) => s, None => 0usize }),
    })
    &&& b.classes.modules@.len() == a.classes.modules@.len() + 1
    &&& forall|i: int| 0 < i < a.classes.modules@.len() ==> b.classes.modules@[i] == a.classes.modules@[i]
    &&& same_but_consts(b.classes.modules@[0], a.classes.modules@[0])
    &&& forall|i: int| 0 <= i < a.classes.modules@.len() ==> #[trigger] same_methods(b.classes.modules@[i], a.classes.modules@[i])
    &&& method_of(b.classes.modules@[0].consts@, name) == Some(ConstValue::Class(r))
    &&& b.classes.modules@[a.classes.modules@.len() as int].name@ == name
    &&& b.classes.modules@[a.classes.modules@.len() as int].procs@.len() == 0
    &&& b.classes.modules@[a.classes.modules@.len() as int].mixed_in_modules@.len() == 0
    &&& method_of(b.classes.consts@, name) == Some(ConstValue::Class(r))
    &&& b.fns@ == a.fns@
    &&& b.singletons@ == a.singletons@.push(None)
}

/// Two modules with the same methods and mixins.
pub open spec fn same_methods(a: RModule, b: RModule) -> bool {
    &&& a.procs@ == b.procs@
    &&& a.mixed_in_modules@ == b.mixed_in_modules@
}

/// Room to grow: the tables are far from the limits of their index types.
pub open spec fn has_room(rt: Runtime) -> bool {
    &&& rt.fns@.len() < 0x4000_0000
    &&& rt.classes.modules@.len() < 0x4000_0000
    &&& rt.classes.classes@.len() < 0x4000_0000
}

/// The tables are far enough from the limits of their index types for a
/// few more entries.
pub open spec fn fits(rt: Runtime) -> bool {
    &&& rt.fns@.len() < 0x7000_0000
    &&& rt.classes.modules@.len() < 0x7000_0000
    &&& rt.classes.classes@.len() < 0x7000_0000
}

/// How much an initializer grows the tables: at most `k` of each.
pub open spec fn grows_by_at_most(a: Runtime, b: Runtime, k: int) -> bool {
    &&& a.fns@.len() <= b.fns@.len() <= a.fns@.len() + k
    &&& a.classes.modules@.len() <= b.classes.modules@.len() <= a.classes.modules@.len() + k
    &&& a.classes.classes@.len() <= b.classes.classes@.len() <= a.classes.classes@.len() + k
}

/// What an installation keeps holding while other modules change and new
/// native functions are registered after the old ones.
proof fn lemma_installed_frame(a: Runtime, b: Runtime, m: int, table: Seq<(Seq<char>, Native)>)
    requires
        installed(a, m, table),
        b.classes.modules@[m].procs@ == a.classes.modules@[m].procs@,
        a.fns@.len() <= b.fns@.len(),
        b.fns@.subrange(0, a.fns@.len() as int) == a.fns@,
    ensures
        installed(b, m, table),
{
    assert forall|name: Seq<char>| #[trigger] last_native(table, name) is Some implies runs(b, m, name, last_native(table, name)->Some_0) by {
        let id = method_of(a.classes.modules@[m].procs@, name)->Some_0;
        assert(runs(a, m, name, last_native(table, name)->Some_0));
        assert(b.fns@.subrange(0, a.fns@.len() as int)[id as int] == b.fns@[id as int]);
    }
}

impl Runtime {
    /// A runtime that holds only `Object`, with no native function.
    pub fn new() -> (r: Self)
        ensures
            r.wf(),
            has_room(r),
            r.classes.classes@.len() == 1,
            r.classes.modules@.len() == 1,
            r.fns@.len() == 0,
    {
        let classes = ClassTable::new();
        let mut singletons: Vec<Option<usize>> = Vec::new();
        singletons.push(None);
        Runtime { classes, fns: Vec::new(), singletons }
    }

    /// Defines class `name` under `superclass`, or else `Object`, as the
    /// constant `name`; a standard class is also registered as the built-in
    /// class of that name. Answers the new class.
    fn add_class(&mut self, name: &str, superclass: Option<usize>, standard: bool) -> (r: usize)
        requires
            old(self).wf(),
            fits(*old(self)),
            superclass matches Some(s) ==> s < old(self).classes.classes@.len(),
        ensures
            final(self).wf(),
            class_added(*old(self), *final(self), r, name@, superclass),
            standard ==> method_of(final(self).classes.builtins@, name@) == Some(r),
            standard ==> forall|other: Seq<char>| other != name@ ==> method_of(final(self).classes.builtins@, other)
                == method_of(old(self).classes.builtins@, other),
            !standard ==> final(self).classes.builtins@ == old(self).classes.builtins@,
    {
        let r = if standard {
            self.classes.define_standard_class(String::from_str(name), superclass)
        } else {
            self.classes.define_class(String::from_str(name), superclass, None)
        };
        self.singletons.push(None);
        proof {
            assert forall|c: int| 0 <= c < self.singletons@.len() && #[trigger] self.singletons@[c] is Some
                implies self.singletons@[c]->Some_0 < self.classes.modules@.len() by {
                assert(c < old(self).singletons@.len());
            }
            assert forall|i: int| 0 <= i < old(self).classes.modules@.len() implies #[trigger] same_methods(
                self.classes.modules@[i],
                old(self).classes.modules@[i],
            ) by {
                if i > 0 {
                    assert(self.classes.modules@[i] == old(self).classes.modules@[i]);
                }
            }
        }
        r
    }

    /// Defines the standard class `name` under `superclass`, or else
    /// `Object`, as the constant and the built-in class `name`.
    pub fn define_standard_class(&mut self, name: &str, superclass: Option<usize>) -> (r: usize)
        requires
            old(self).wf(),
            fits(*old(self)),
            superclass matches Some(s) ==> s < old(self).classes.classes@.len(),
        ensures
            final(self).wf(),
            class_added(*old(self), *final(self), r, name@, superclass),
            method_of(final(self).classes.builtins@, name@) == Some(r),
            forall|other: Seq<char>| other != name@ ==> method_of(final(self).classes.builtins@, other)
                == method_of(old(self).classes.builtins@, other),
    {
        self.add_class(name, superclass, true)
    }

    /// Defines class `name` under `superclass`, or else `Object`, as the
    /// constant `name`, without registering it as a built-in class.
    pub fn define_class(&mut self, name: &str, superclass: Option<usize>) -> (r: usize)
        requires
            old(self).wf(),
            fits(*old(self)),
            superclass matches Some(s) ==> s < old(self).classes.classes@.len(),
        ensures
            final(self).wf(),
            class_added(*old(self), *final(self), r, name@, superclass),
            final(self).classes.builtins@ == old(self).classes.builtins@,
    {
        self.add_class(name, superclass, false)
    }

    /// Defines module `name` at the top level, as the constant `name`.
    pub fn define_module(&mut self, name: &str) -> (r: usize)
        requires
            old(self).wf(),
            fits(*old(self)),
        ensures
            final(self).wf(),
            r == old(self).classes.modules@.len(),
            final(self).classes.modules@.len() == r + 1,
            forall|i: int| 0 < i < r ==> final(self).classes.modules@[i] == old(self).classes.modules@[i],
            same_but_consts(final(self).classes.modules@[0], old(self).classes.modules@[0]),
            final(self).classes.modules@[r as int].name@ == name@,
            final(self).classes.modules@[r as int].procs@.len() == 0,
            final(self).classes.modules@[r as int].mixed_in_modules@.len() == 0,
            final(self).classes.classes@ == old(self).classes.classes@,
            final(self).classes.builtins@ == old(self).classes.builtins@,
            method_of(final(self).classes.consts@, name@) == Some(ConstValue::Module(r)),
            final(self).fns@ == old(self).fns@,
            final(self).singletons@ == old(self).singletons@,
    {
        self.classes.define_module(String::from_str(name), None)
    }

    /// The module that holds the class methods of class `class`, made on
    /// first use with the class's name.
    pub fn singleton_module(&mut self, class: usize) -> (r: usize)
        requires
            old(self).wf(),
            fits(*old(self)),
            class < old(self).classes.classes@.len(),
        ensures
            final(self).classes.consts@ == old(self).classes.consts@,
            final(self).wf(),
            r < final(self).classes.modules@.len(),
            final(self).singletons@[class as int] == Some(r),
            final(self).singletons@.len() == old(self).singletons@.len(),
            forall|c: int| 0 <= c < old(self).singletons@.len() && c != class ==> final(self).singletons@[c] == old(self).singletons@[c],
            final(self).classes.classes@ == old(self).classes.classes@,
            final(self).classes.builtins@ == old(self).classes.builtins@,
            final(self).fns@ == old(self).fns@,
            old(self).classes.modules@.len() <= final(self).classes.modules@.len() <= old(self).classes.modules@.len() + 1,
            forall|i: int| 0 <= i < old(self).classes.modules@.len() ==> final(self).classes.modules@[i] == old(self).classes.modules@[i],
            old(self).singletons@[class as int] is None ==> r == old(self).classes.modules@.len(),
            old(self).singletons@[class as int] matches Some(m) ==> r == m,
    {
        match self.singletons[class] {
            Some(m) => m,
            None => {
                let ghost n = self.classes.modules@.len();
                let cm = self.classes.classes[class].module;
                assert(class_ok(self.classes.classes@[class as int], class as int, n as int));
                let name = self.classes.modules[cm].name.clone();
                let m = self.classes.add_module(name, None);
                proof {
                    assert forall|i: int| 0 <= i < n implies self.classes.modules@[i] == old(self).classes.modules@[i] by {
                        assert(self.classes.modules@.subrange(0, n as int)[i] == self.classes.modules@[i]);
                    }
                }
                self.singletons.set(class, Some(m));
                proof {
                    assert forall|c: int| 0 <= c < self.singletons@.len() && #[trigger] self.singletons@[c] is Some
                        implies self.singletons@[c]->Some_0 < self.classes.modules@.len() by {
                        if c != class as int {
                            assert(self.singletons@[c] == old(self).singletons@[c]);
                        }
                    }
                }
                m
            },
        }
    }

    /// Mixes module `mixin` into module `module` (`Module#include`).
    pub fn include_module(&mut self, module: usize, mixin: usize)
        requires
            old(self).wf(),
            module < old(self).classes.modules@.len(),
            mixin < old(self).classes.modules@.len(),
        ensures
            final(self).classes.builtins@ == old(self).classes.builtins@,
            final(self).wf(),
            final(self).fns@ == old(self).fns@,
            final(self).singletons@ == old(self).singletons@,
            final(self).classes.classes@ == old(self).classes.classes@,
            final(self).classes.modules@.len() == old(self).classes.modules@.len(),
            forall|i: int| 0 <= i < old(self).classes.modules@.len() && i != module
                ==> final(self).classes.modules@[i] == old(self).classes.modules@[i],
            final(self).classes.modules@[module as int].procs@ == old(self).classes.modules@[module as int].procs@,
            final(self).classes.modules@[module as int].name@ == old(self).classes.modules@[module as int].name@,
            final(self).classes.modules@[module as int].mixed_in_modules@ == old(self).classes.modules@[module as int].mixed_in_modules@.push(mixin),
    {
        self.classes.include_module(module, mixin);
    }
}

/// What an initializer keeps: the registered native functions, and every
/// module that existed before but `touched`.
pub open spec fn keeps(a: Runtime, b: Runtime, touched: int) -> bool {
    &&& b.fns@.subrange(0, a.fns@.len() as int) == a.fns@
    &&& forall|i: int| 0 <= i < a.classes.modules@.len() && i != touched ==> #[trigger] same_methods(b.classes.modules@[i], a.classes.modules@[i])
    &&& a.classes.classes@.len() <= b.classes.classes@.len()
    &&& forall|c: int| 0 <= c < a.classes.classes@.len() ==> b.classes.classes@[c] == a.classes.classes@[c]
    &&& a.singletons@.len() <= b.singletons@.len()
    &&& forall|c: int| 0 < c < a.singletons@.len() ==> b.singletons@[c] == a.singletons@[c]
}

/// Every table installed on a module that a step keeps stays installed.
proof fn lemma_keeps_installed(a: Runtime, b: Runtime, touched: int)
    requires
        keeps(a, b, touched),
        a.fns@.len() <= b.fns@.len(),
    ensures
        forall|m: int, t: Seq<(Seq<char>, Native)>| #[trigger] installed(a, m, t) && 0 <= m < a.classes.modules@.len() && m != touched
            ==> installed(b, m, t),
{
    assert forall|m: int, t: Seq<(Seq<char>, Native)>| #[trigger] installed(a, m, t) && 0 <= m < a.classes.modules@.len() && m != touched
        implies installed(b, m, t) by {
        assert(same_methods(b.classes.modules@[m], a.classes.modules@[m]));
        lemma_installed_frame(a, b, m, t);
    }
}

/// A table without an entry named `name` binds nothing to it.
proof fn lemma_last_native_absent(t: Seq<(Seq<char>, Native)>, name: Seq<char>)
    requires
        forall|k: int| 0 <= k < t.len() ==> t[k].0 != name,
    ensures
        last_native(t, name) is None,
    decreases t.len(),
{
    if t.len() > 0 {
        assert(t.last() == t[t.len() - 1]);
        assert forall|k: int| 0 <= k < t.drop_last().len() implies t.drop_last()[k].0 != name by {
            assert(t.drop_last()[k] == t[k]);
        }
        lemma_last_native_absent(t.drop_last(), name);
    }
}

/// No entry of the table of `Object` is named `rand`.
proof fn lemma_object_table_has_no_rand()
    ensures
        last_native(object_methods(), "rand"@) is None,
{
    reveal_strlit("rand");
    reveal_strlit("initialize");
    reveal_strlit("==");
    reveal_strlit("===");
    reveal_strlit("object_id");
    reveal_strlit("__id__");
    reveal_strlit("to_s");
    reveal_strlit("inspect");
    reveal_strlit("raise");
    reveal_strlit("nil?");
    reveal_strlit("lambda");
    reveal_strlit("proc");
    reveal_strlit("is_a?");
    reveal_strlit("kind_of?");
    reveal_strlit("wasm?");
    let t = object_methods();
    assert forall|k: int| 0 <= k < t.len() implies t[k].0 != "rand"@ by {
        assert(t[k].0.len() != 4 || t[k].0[0] != 'r');
    }
    lemma_last_native_absent(t, "rand"@);
}

/// A table stays installed on a module whose other methods are kept when
/// one name that the table does not hold changes.
proof fn lemma_installed_but(a: Runtime, b: Runtime, m: int, t: Seq<(Seq<char>, Native)>, changed: Seq<char>)
    requires
        installed(a, m, t),
        last_native(t, changed) is None,
        forall|name: Seq<char>| name != changed ==> method_of(b.classes.modules@[m].procs@, name)
            == method_of(a.classes.modules@[m].procs@, name),
        a.fns@.len() <= b.fns@.len(),
        b.fns@.subrange(0, a.fns@.len() as int) == a.fns@,
    ensures
        installed(b, m, t),
{
    assert forall|name: Seq<char>| #[trigger] last_native(t, name) is Some implies runs(b, m, name, last_native(t, name)->Some_0) by {
        assert(name != changed);
        let id = method_of(a.classes.modules@[m].procs@, name)->Some_0;
        assert(runs(a, m, name, last_native(t, name)->Some_0));
        assert(b.fns@.subrange(0, a.fns@.len() as int)[id as int] == b.fns@[id as int]);
    }
}

/// Two steps that keep everything but new entries keep it together.
proof fn lemma_keeps_trans(a: Runtime, b: Runtime, c: Runtime)
    requires
        keeps(a, b, -1),
        keeps(b, c, -1),
        a.classes.modules@.len() <= b.classes.modules@.len(),
        a.fns@.len() <= b.fns@.len(),
        b.fns@.len() <= c.fns@.len(),
    ensures
        keeps(a, c, -1),
{
    assert(c.fns@.subrange(0, a.fns@.len() as int) =~= c.fns@.subrange(0, b.fns@.len() as int).subrange(0, a.fns@.len() as int));
    assert forall|i: int| 0 <= i < a.classes.modules@.len() implies #[trigger] same_methods(c.classes.modules@[i], a.classes.modules@[i]) by {
        assert(same_methods(c.classes.modules@[i], b.classes.modules@[i]));
        assert(same_methods(b.classes.modules@[i], a.classes.modules@[i]));
    }
}

/// The last entry of a table named `name` gives its binding.
proof fn lemma_last_native_at(t: Seq<(Seq<char>, Native)>, k: int, name: Seq<char>)
    requires
        0 <= k < t.len(),
        t[k].0 == name,
        forall|j: int| k < j < t.len() ==> t[j].0 != name,
    ensures
        last_native(t, name) == Some(t[k].1),
    decreases t.len(),
{
    if k < t.len() - 1 {
        assert(t.last() == t[t.len() - 1]);
        assert forall|j: int| k < j < t.drop_last().len() implies t.drop_last()[j].0 != name by {
            assert(t.drop_last()[j] == t[j]);
        }
        assert(t.drop_last()[k] == t[k]);
        lemma_last_native_at(t.drop_last(), k, name);
    }
}

/// How the table of `String` binds the names that share a native function.
pub(crate) proof fn lemma_string_table_bindings()
    ensures
        last_native(string_methods(), "size"@) == Some(Native::StringSize),
        last_native(string_methods(), "bytesize"@) == Some(Native::StringSize),
        last_native(string_methods(), "length"@) == Some(Native::StringSize),
        last_native(string_methods(), "to_s"@) == Some(Native::ObjectSelf),
        last_native(string_methods(), "slice"@) == Some(Native::StringSlice),
        last_native(string_methods(), "[]"@) == Some(Native::StringSlice),
        last_native(string_methods(), "to_sym"@) == Some(Native::StringToSym),
        last_native(string_methods(), "intern"@) == Some(Native::StringToSym),
{
    reveal_strlit("+");
    reveal_strlit("*");
    reveal_strlit("<<");
    reveal_strlit("[]");
    reveal_strlit("b");
    reveal_strlit("clear");
    reveal_strlit("chomp");
    reveal_strlit("chomp!");
    reveal_strlit("dup");
    reveal_strlit("empty?");
    reveal_strlit("getbyte");
    reveal_strlit("setbyte");
    reveal_strlit("index");
    reveal_strlit("ord");
    reveal_strlit("slice");
    reveal_strlit("slice!");
    reveal_strlit("split");
    reveal_strlit("lstrip");
    reveal_strlit("lstrip!");
    reveal_strlit("rstrip");
    reveal_strlit("rstrip!");
    reveal_strlit("strip");
    reveal_strlit("strip!");
    reveal_strlit("to_sym");
    reveal_strlit("intern");
    reveal_strlit("start_with?");
    reveal_strlit("end_with?");
    reveal_strlit("include?");
    reveal_strlit("bytes");
    reveal_strlit("upcase");
    reveal_strlit("upcase!");
    reveal_strlit("downcase");
    reveal_strlit("downcase!");
    reveal_strlit("to_i");
    reveal_strlit("to_f");
    reveal_strlit("unpack");
    reveal_strlit("size");
    reveal_strlit("bytesize");
    reveal_strlit("length");
    reveal_strlit("inspect");
    reveal_strlit("to_s");
    let t = string_methods();
    assert(t[36].0 == "size"@);
    assert forall|j: int| 36 < j < t.len() implies t[j].0 != "size"@ by {
        if j == 37 { assert(t[37].0.len() != 4); }
        if j == 38 { assert(t[38].0.len() != 4); }
        if j == 39 { assert(t[39].0.len() != 4); }
        if j == 40 { assert(t[40].0.len() != 4 || t[40].0[0] != 's'); }
    }
    lemma_last_native_at(t, 36, "size"@);
    assert(t[37].0 == "bytesize"@);
    assert forall|j: int| 37 < j < t.len() implies t[j].0 != "bytesize"@ by {
        if j == 38 { assert(t[38].0.len() != 8); }
        if j == 39 { assert(t[39].0.len() != 8); }
        if j == 40 { assert(t[40].0.len() != 8); }
    }
    lemma_last_native_at(t, 37, "bytesize"@);
    assert(t[38].0 == "length"@);
    assert forall|j: int| 38 < j < t.len() implies t[j].0 != "length"@ by {
        if j == 39 { assert(t[39].0.len() != 6); }
        if j == 40 { assert(t[40].0.len() != 6); }
    }
    lemma_last_native_at(t, 38, "length"@);
    assert(t[40].0 == "to_s"@);
    assert forall|j: int| 40 < j < t.len() implies t[j].0 != "to_s"@ by {

    }
    lemma_last_native_at(t, 40, "to_s"@);
    assert(t[14].0 == "slice"@);
    assert forall|j: int| 14 < j < t.len() implies t[j].0 != "slice"@ by {
        if j == 15 { assert(t[15].0.len() != 5); }
        if j == 16 { assert(t[16].0.len() != 5 || t[16].0[1] != 'l'); }
        if j == 17 { assert(t[17].0.len() != 5); }
        if j == 18 { assert(t[18].0.len() != 5); }
        if j == 19 { assert(t[19].0.len() != 5); }
        if j == 20 { assert(t[20].0.len() != 5); }
        if j == 21 { assert(t[21].0.len() != 5 || t[21].0[1] != 'l'); }
        if j == 22 { assert(t[22].0.len() != 5); }
        if j == 23 { assert(t[23].0.len() != 5); }
        if j == 24 { assert(t[24].0.len() != 5); }
        if j == 25 { assert(t[25].0.len() != 5); }
        if j == 26 { assert(t[26].0.len() != 5); }
        if j == 27 { assert(t[27].0.len() != 5); }
        if j == 28 { assert(t[28].0.len() != 5 || t[28].0[0] != 's'); }
        if j == 29 { assert(t[29].0.len() != 5); }
        if j == 30 { assert(t[30].0.len() != 5); }
        if j == 31 { assert(t[31].0.len() != 5); }
        if j == 32 { assert(t[32].0.len() != 5); }
        if j == 33 { assert(t[33].0.len() != 5); }
        if j == 34 { assert(t[34].0.len() != 5); }
        if j == 35 { assert(t[35].0.len() != 5); }
        if j == 36 { assert(t[36].0.len() != 5); }
        if j == 37 { assert(t[37].0.len() != 5); }
        if j == 38 { assert(t[38].0.len() != 5); }
        if j == 39 { assert(t[39].0.len() != 5); }
        if j == 40 { assert(t[40].0.len() != 5); }
    }
    lemma_last_native_at(t, 14, "slice"@);
    assert(t[3].0 == "[]"@);
    assert forall|j: int| 3 < j < t.len() implies t[j].0 != "[]"@ by {
        if j == 4 { assert(t[4].0.len() != 2); }
        if j == 5 { assert(t[5].0.len() != 2); }
        if j == 6 { assert(t[6].0.len() != 2); }
        if j == 7 { assert(t[7].0.len() != 2); }
        if j == 8 { assert(t[8].0.len() != 2); }
        if j == 9 { assert(t[9].0.len() != 2); }
        if j == 10 { assert(t[10].0.len() != 2); }
        if j == 11 { assert(t[11].0.len() != 2); }
        if j == 12 { assert(t[12].0.len() != 2); }
        if j == 13 { assert(t[13].0.len() != 2); }
        if j == 14 { assert(t[14].0.len() != 2); }
        if j == 15 { assert(t[15].0.len() != 2); }
        if j == 16 { assert(t[16].0.len() != 2); }
        if j == 17 { assert(t[17].0.len() != 2); }
        if j == 18 { assert(t[18].0.len() != 2); }
        if j == 19 { assert(t[19].0.len() != 2); }
        if j == 20 { assert(t[20].0.len() != 2); }
        if j == 21 { assert(t[21].0.len() != 2); }
        if j == 22 { assert(t[22].0.len() != 2); }
        if j == 23 { assert(t[23].0.len() != 2); }
        if j == 24 { assert(t[24].0.len() != 2); }
        if j == 25 { assert(t[25].0.len() != 2); }
        if j == 26 { assert(t[26].0.len() != 2); }
        if j == 27 { assert(t[27].0.len() != 2); }
        if j == 28 { assert(t[28].0.len() != 2); }
        if j == 29 { assert(t[29].0.len() != 2); }
        if j == 30 { assert(t[30].0.len() != 2); }
        if j == 31 { assert(t[31].0.len() != 2); }
        if j == 32 { assert(t[32].0.len() != 2); }
        if j == 33 { assert(t[33].0.len() != 2); }
        if j == 34 { assert(t[34].0.len() != 2); }
        if j == 35 { assert(t[35].0.len() != 2); }
        if j == 36 { assert(t[36].0.len() != 2); }
        if j == 37 { assert(t[37].0.len() != 2); }
        if j == 38 { assert(t[38].0.len() != 2); }
        if j == 39 { assert(t[39].0.len() != 2); }
        if j == 40 { assert(t[40].0.len() != 2); }
    }
    lemma_last_native_at(t, 3, "[]"@);
    assert(t[23].0 == "to_sym"@);
    assert forall|j: int| 23 < j < t.len() implies t[j].0 != "to_sym"@ by {
        if j == 24 { assert(t[24].0.len() != 6 || t[24].0[0] != 't'); }
        if j == 25 { assert(t[25].0.len() != 6); }
        if j == 26 { assert(t[26].0.len() != 6); }
        if j == 27 { assert(t[27].0.len() != 6); }
        if j == 28 { assert(t[28].0.len() != 6); }
        if j == 29 { assert(t[29].0.len() != 6 || t[29].0[0] != 't'); }
        if j == 30 { assert(t[30].0.len() != 6); }
        if j == 31 { assert(t[31].0.len() != 6); }
        if j == 32 { assert(t[32].0.len() != 6); }
        if j == 33 { assert(t[33].0.len() != 6); }
        if j == 34 { assert(t[34].0.len() != 6); }
        if j == 35 { assert(t[35].0.len() != 6 || t[35].0[0] != 't'); }
        if j == 36 { assert(t[36].0.len() != 6); }
        if j == 37 { assert(t[37].0.len() != 6); }
        if j == 38 { assert(t[38].0.len() != 6 || t[38].0[0] != 't'); }
        if j == 39 { assert(t[39].0.len() != 6); }
        if j == 40 { assert(t[40].0.len() != 6); }
    }
    lemma_last_native_at(t, 23, "to_sym"@);
    assert(t[24].0 == "intern"@);
    assert forall|j: int| 24 < j < t.len() implies t[j].0 != "intern"@ by {
        if j == 25 { assert(t[25].0.len() != 6); }
        if j == 26 { assert(t[26].0.len() != 6); }
        if j == 27 { assert(t[27].0.len() != 6); }
        if j == 28 { assert(t[28].0.len() != 6); }
        if j == 29 { assert(t[29].0.len() != 6 || t[29].0[0] != 'i'); }
        if j == 30 { assert(t[30].0.len() != 6); }
        if j == 31 { assert(t[31].0.len() != 6); }
        if j == 32 { assert(t[32].0.len() != 6); }
        if j == 33 { assert(t[33].0.len() != 6); }
        if j == 34 { assert(t[34].0.len() != 6); }
        if j == 35 { assert(t[35].0.len() != 6 || t[35].0[0] != 'i'); }
        if j == 36 { assert(t[36].0.len() != 6); }
        if j == 37 { assert(t[37].0.len() != 6); }
        if j == 38 { assert(t[38].0.len() != 6 || t[38].0[0] != 'i'); }
        if j == 39 { assert(t[39].0.len() != 6); }
        if j == 40 { assert(t[40].0.len() != 6); }
    }
    lemma_last_native_at(t, 24, "intern"@);
}

/// The module of class `c`.
pub open spec fn module_of(rt: Runtime, c: int) -> int {
    rt.classes.classes@[c].module as int
}

impl Runtime {
    /// Defines class `name` under `superclass` (or `Object`) and binds the
    /// methods of `table` on it.
    fn class_with_methods(&mut self, name: &str, superclass: Option<usize>, standard: bool, table: &Vec<(&str, Native)>) -> (r: usize)
        requires
            old(self).wf(),
            fits(*old(self)),
            table@.len() <= 64,
            superclass matches Some(s) ==> s < old(self).classes.classes@.len(),
        ensures
            method_of(final(self).classes.consts@, name@) == Some(ConstValue::Class(r)),
            standard ==> method_of(final(self).classes.builtins@, name@) == Some(r),
            standard ==> forall|other: Seq<char>| other != name@ ==> method_of(final(self).classes.builtins@, other)
                == method_of(old(self).classes.builtins@, other),
            !standard ==> final(self).classes.builtins@ == old(self).classes.builtins@,
            final(self).wf(),
            grows_by_at_most(*old(self), *final(self), 64),
            keeps(*old(self), *final(self), -1),
            r == old(self).classes.classes@.len(),
            final(self).classes.classes@.len() == r + 1,
            module_of(*final(self), r as int) == old(self).classes.modules@.len(),
            module_of(*final(self), r as int) < final(self).classes.modules@.len(),
            final(self).classes.modules@[module_of(*final(self), r as int)].name@ == name@,
            final(self).classes.classes@[r as int].super_class == Some(match superclass { Some(s) => s, None => 0usize }),
            final(self).singletons@[r as int] is None,
            final(self).classes.modules@[module_of(*final(self), r as int)].mixed_in_modules@.len() == 0,
            installed(*final(self), module_of(*final(self), r as int), table_view(table@)),
    {
        let c = self.add_class(name, superclass, standard);
        let m = self.classes.classes[c].module;
        self.install(m, table);
        proof {
            let a = *old(self);
            let b = *self;
            assert forall|i: int| 0 <= i < a.classes.modules@.len() implies #[trigger] same_methods(b.classes.modules@[i], a.classes.modules@[i]) by {
                assert(i != m);
            }
            assert(b.fns@.subrange(0, a.fns@.len() as int) =~= a.fns@);
        }
        c
    }

    /// Binds the methods of `table` on module `module` of a runtime that
    /// has room for them.
    fn install_more(&mut self, module: usize, table: &Vec<(&str, Native)>)
        requires
            old(self).wf(),
            fits(*old(self)),
            table@.len() <= 64,
            module < old(self).classes.modules@.len(),
        ensures
            final(self).classes.consts@ == old(self).classes.consts@,
            final(self).classes.builtins@ == old(self).classes.builtins@,
            final(self).wf(),
            grows_by_at_most(*old(self), *final(self), 64),
            keeps(*old(self), *final(self), module as int),
            forall|i: int| 0 <= i < old(self).classes.modules@.len() && i != module
                ==> final(self).classes.modules@[i] == old(self).classes.modules@[i],
            final(self).classes.classes@ == old(self).classes.classes@,
            final(self).singletons@ == old(self).singletons@,
            final(self).classes.modules@.len() == old(self).classes.modules@.len(),
            final(self).classes.modules@[module as int].name@ == old(self).classes.modules@[module as int].name@,
            final(self).classes.modules@[module as int].mixed_in_modules@ == old(self).classes.modules@[module as int].mixed_in_modules@,
            installed(*final(self), module as int, table_view(table@)),
            forall|name: Seq<char>| #[trigger] last_native(table_view(table@), name) is None
                ==> method_of(final(self).classes.modules@[module as int].procs@, name)
                == method_of(old(self).classes.modules@[module as int].procs@, name),
    {
        self.install(module, table);
    }

    /// `initialize_object`: binds the methods of `Object`.
    pub fn initialize_object(&mut self)
        requires
            old(self).wf(),
            has_room(*old(self)),
        ensures
            final(self).wf(),
            grows_by_at_most(*old(self), *final(self), 64),
            keeps(*old(self), *final(self), 0),
            final(self).classes.classes@ == old(self).classes.classes@,
            installed(*final(self), 0, object_methods()),
            method_of(final(self).classes.consts@, "Object"@) == Some(ConstValue::Class(0)),
            method_of(final(self).classes.builtins@, "Object"@) == Some(0usize),
    {
        self.classes.set_const(String::from_str("Object"), ConstValue::Class(0));
        self.classes.register_builtin(String::from_str("Object"), 0);
        let t = object_method_table();
        self.install_more(0, &t);
    }

    /// `initialize_exception`: defines `Exception` and the standard
    /// exception classes under it, and binds `Exception#message`; answers
    /// `Exception`.
    pub fn initialize_exception(&mut self) -> (r: usize)
        requires
            old(self).wf(),
            has_room(*old(self)),
        ensures
            final(self).wf(),
            grows_by_at_most(*old(self), *final(self), 64),
            keeps(*old(self), *final(self), -1),
            r == old(self).classes.classes@.len(),
            r < final(self).classes.classes@.len(),
            module_of(*final(self), r as int) == old(self).classes.modules@.len(),
            module_of(*final(self), r as int) < final(self).classes.modules@.len(),
            final(self).classes.modules@[module_of(*final(self), r as int)].name@ == "Exception"@,
            installed(*final(self), module_of(*final(self), r as int), exception_methods()),
    {
        let exp = self.define_standard_class("Exception", None);
        let m = self.classes.classes[exp].module;
        let ghost after_exp = *self;
        let _ = self.define_standard_class("InternalError", Some(exp));
        let std_exp = self.define_standard_class("StandardError", Some(exp));
        let _ = self.define_standard_class("RuntimeError", Some(std_exp));
        let _ = self.define_standard_class("TypeError", Some(std_exp));
        let _ = self.define_standard_class("ArgumentError", Some(std_exp));
        let _ = self.define_standard_class("NoMemoryError", Some(exp));
        let _ = self.define_standard_class("ScriptError", Some(exp));
        let _ = self.define_standard_class("LoadError", Some(exp));
        let _ = self.define_standard_class("NotImplementedError", Some(std_exp));
        let _ = self.define_standard_class("SyntaxError", Some(exp));
        let _ = self.define_standard_class("SecurityError", Some(std_exp));
        let _ = self.define_standard_class("SignalException", Some(exp));
        let _ = self.define_standard_class("Interrupt", Some(exp));
        let _ = self.define_standard_class("SystemExit", Some(exp));
        let _ = self.define_standard_class("SystemStackError", Some(exp));
        let _ = self.define_standard_class("SystemCallError", Some(std_exp));
        let _ = self.define_standard_class("NoMethodError", Some(std_exp));
        let _ = self.define_standard_class("NameError", Some(std_exp));
        let _ = self.define_standard_class("_Break", None);
        let ghost before_install = *self;
        assert(self.classes.modules@[m as int] == after_exp.classes.modules@[m as int]);
        let t = exception_method_table();
        self.install_more(m, &t);
        proof {
            let a = *old(self);
            let b = *self;
            assert forall|i: int| 0 <= i < a.classes.modules@.len() implies #[trigger] same_methods(b.classes.modules@[i], a.classes.modules@[i]) by {
                assert(i != m);
                assert(same_methods(b.classes.modules@[i], before_install.classes.modules@[i]));
                assert(before_install.classes.modules@[i].procs@ == a.classes.modules@[i].procs@);
                assert(before_install.classes.modules@[i].mixed_in_modules@ == a.classes.modules@[i].mixed_in_modules@);
            }
        }
        exp
    }

    /// `initialize_module`: defines `Module`; answers it.
    pub fn initialize_module(&mut self) -> (r: usize)
        requires
            old(self).wf(),
            has_room(*old(self)),
        ensures
            final(self).wf(),
            grows_by_at_most(*old(self), *final(self), 64),
            keeps(*old(self), *final(self), -1),
            r == old(self).classes.classes@.len(),
            final(self).classes.classes@.len() == r + 1,
            module_of(*final(self), r as int) == old(self).classes.modules@.len(),
            final(self).classes.modules@[module_of(*final(self), r as int)].name@ == "Module"@,
    {
        let r = self.define_standard_class("Module", None);
        proof {
            let a = *old(self);
            let b = *self;
            assert forall|i: int| 0 <= i < a.classes.modules@.len() implies #[trigger] same_methods(b.classes.modules@[i], a.classes.modules@[i]) by {
                if i > 0 {
                    assert(b.classes.modules@[i] == a.classes.modules@[i]);
                }
            }
            assert(b.fns@.subrange(0, a.fns@.len() as int) =~= a.fns@);
        }
        r
    }

    /// `initialize_class`: binds `Module#inspect`, defines `Class` under
    /// `Module` with its methods, and gives `Object` its singleton module;
    /// answers `Class`.
    pub fn initialize_class(&mut self, module_class: usize) -> (r: usize)
        requires
            old(self).wf(),
            has_room(*old(self)),
            module_class < old(self).classes.classes@.len(),
        ensures
            final(self).wf(),
            grows_by_at_most(*old(self), *final(self), 128),
            keeps(*old(self), *final(self), module_of(*old(self), module_class as int)),
            r == old(self).classes.classes@.len(),
            final(self).classes.classes@.len() == r + 1,
            final(self).classes.classes@[r as int].super_class == Some(module_class),
            old(self).classes.modules@.len() <= module_of(*final(self), r as int) < final(self).classes.modules@.len(),
            final(self).classes.modules@[module_of(*final(self), r as int)].name@ == "Class"@,
            installed(*final(self), module_of(*final(self), module_class as int), module_methods()),
            installed(*final(self), module_of(*final(self), r as int), class_methods()),
            final(self).singletons@[0] is Some,
    {
        let mm = self.classes.classes[module_class].module;
        proof {
            assert(class_ok(self.classes.classes@[module_class as int], module_class as int, self.classes.modules@.len() as int));
        }
        let t1 = module_method_table();
        self.install_more(mm, &t1);
        let ghost s1 = *self;
        let class_class = self.define_standard_class("Class", Some(module_class));
        let ghost s2 = *self;
        let _ = self.singleton_module(0);
        let ghost s3 = *self;
        let cm = self.classes.classes[class_class].module;
        let t2 = class_method_table();
        self.install_more(cm, &t2);
        proof {
            let a = *old(self);
            let b = *self;
            assert(same_methods(s2.classes.modules@[mm as int], s1.classes.modules@[mm as int]));
            assert(s3.classes.modules@[mm as int] == s2.classes.modules@[mm as int]);
            assert(cm != mm);
            assert(same_methods(b.classes.modules@[mm as int], s3.classes.modules@[mm as int]));
            assert(b.fns@.subrange(0, s1.fns@.len() as int) =~= s1.fns@);
            lemma_installed_frame(s1, b, mm as int, module_methods());
            assert forall|i: int| 0 <= i < a.classes.modules@.len() && i != mm implies #[trigger] same_methods(b.classes.modules@[i], a.classes.modules@[i]) by {
                assert(same_methods(s1.classes.modules@[i], a.classes.modules@[i]));
                assert(same_methods(s2.classes.modules@[i], s1.classes.modules@[i]));
                assert(s3.classes.modules@[i] == s2.classes.modules@[i]);
                assert(same_methods(b.classes.modules@[i], s3.classes.modules@[i]));
            }
            assert(b.fns@.subrange(0, a.fns@.len() as int) =~= a.fns@);
        }
        class_class
    }

    /// `initialize_integer`: defines `Integer` with its methods; answers it.
    pub fn initialize_integer(&mut self) -> (r: usize)
        requires
            old(self).wf(),
            has_room(*old(self)),
        ensures
            final(self).wf(),
            grows_by_at_most(*old(self), *final(self), 64),
            keeps(*old(self), *final(self), -1),
            r == old(self).classes.classes@.len(),
            final(self).classes.classes@.len() == r + 1,
            module_of(*final(self), r as int) == old(self).classes.modules@.len(),
            module_of(*final(self), r as int) < final(self).classes.modules@.len(),
            final(self).classes.modules@[module_of(*final(self), r as int)].name@ == "Integer"@,
            installed(*final(self), module_of(*final(self), r as int), integer_methods()),
    {
        let t = integer_method_table();
        self.class_with_methods("Integer", None, true, &t)
    }

    /// `initialize_float`: defines `Float` with its methods; answers it.
    pub fn initialize_float(&mut self) -> (r: usize)
        requires
            old(self).wf(),
            has_room(*old(self)),
        ensures
            final(self).wf(),
            grows_by_at_most(*old(self), *final(self), 64),
            keeps(*old(self), *final(self), -1),
            r == old(self).classes.classes@.len(),
            final(self).classes.classes@.len() == r + 1,
            module_of(*final(self), r as int) == old(self).classes.modules@.len(),
            module_of(*final(self), r as int) < final(self).classes.modules@.len(),
            final(self).classes.modules@[module_of(*final(self), r as int)].name@ == "Float"@,
            installed(*final(self), module_of(*final(self), r as int), float_methods()),
    {
        let t = float_method_table();
        self.class_with_methods("Float", None, true, &t)
    }

    /// `initialize_nilclass`: defines `NilClass` with its methods; answers it.
    pub fn initialize_nilclass(&mut self) -> (r: usize)
        requires
            old(self).wf(),
            has_room(*old(self)),
        ensures
            final(self).wf(),
            grows_by_at_most(*old(self), *final(self), 64),
            keeps(*old(self), *final(self), -1),
            r == old(self).classes.classes@.len(),
            final(self).classes.classes@.len() == r + 1,
            module_of(*final(self), r as int) == old(self).classes.modules@.len(),
            module_of(*final(self), r as int) < final(self).classes.modules@.len(),
            final(self).classes.modules@[module_of(*final(self), r as int)].name@ == "NilClass"@,
            installed(*final(self), module_of(*final(self), r as int), nil_methods()),
    {
        let t = nil_method_table();
        self.class_with_methods("NilClass", None, true, &t)
    }

    /// `initialize_trueclass`: defines `TrueClass` with its methods; answers it.
    pub fn initialize_trueclass(&mut self) -> (r: usize)
        requires
            old(self).wf(),
            has_room(*old(self)),
        ensures
            final(self).wf(),
            grows_by_at_most(*old(self), *final(self), 64),
            keeps(*old(self), *final(self), -1),
            r == old(self).classes.classes@.len(),
            final(self).classes.classes@.len() == r + 1,
            module_of(*final(self), r as int) == old(self).classes.modules@.len(),
            module_of(*final(self), r as int) < final(self).classes.modules@.len(),
            final(self).classes.modules@[module_of(*final(self), r as int)].name@ == "TrueClass"@,
            installed(*final(self), module_of(*final(self), r as int), true_methods()),
    {
        let t = true_method_table();
        self.class_with_methods("TrueClass", None, true, &t)
    }

    /// `initialize_falseclass`: defines `FalseClass` with its methods; answers it.
    pub fn initialize_falseclass(&mut self) -> (r: usize)
        requires
            old(self).wf(),
            has_room(*old(self)),
        ensures
            final(self).wf(),
            grows_by_at_most(*old(self), *final(self), 64),
            keeps(*old(self), *final(self), -1),
            r == old(self).classes.classes@.len(),
            final(self).classes.classes@.len() == r + 1,
            module_of(*final(self), r as int) == old(self).classes.modules@.len(),
            module_of(*final(self), r as int) < final(self).classes.modules@.len(),
            final(self).classes.modules@[module_of(*final(self), r as int)].name@ == "FalseClass"@,
            installed(*final(self), module_of(*final(self), r as int), false_methods()),
    {
        let t = false_method_table();
        self.class_with_methods("FalseClass", None, true, &t)
    }

    /// `initialize_symbol`: defines `Symbol` with its methods; answers it.
    pub fn initialize_symbol(&mut self) -> (r: usize)
        requires
            old(self).wf(),
            has_room(*old(self)),
        ensures
            final(self).wf(),
            grows_by_at_most(*old(self), *final(self), 64),
            keeps(*old(self), *final(self), -1),
            r == old(self).classes.classes@.len(),
            final(self).classes.classes@.len() == r + 1,
            module_of(*final(self), r as int) == old(self).classes.modules@.len(),
            module_of(*final(self), r as int) < final(self).classes.modules@.len(),
            final(self).classes.modules@[module_of(*final(self), r as int)].name@ == "Symbol"@,
            installed(*final(self), module_of(*final(self), r as int), symbol_methods()),
    {
        let t = symbol_method_table();
        self.class_with_methods("Symbol", None, true, &t)
    }
}

/// The classes and modules that the prelude defines.
pub struct Builtins {
    pub exception: usize,
    pub module: usize,
    pub class: usize,
    pub integer: usize,
    pub float: usize,
    pub nilclass: usize,
    pub trueclass: usize,
    pub falseclass: usize,
    pub symbol: usize,
    pub string: usize,
    pub enumerable: usize,
    pub array: usize,
    pub proc_class: usize,
    pub random: usize,
}

/// Every built-in class of `b` answers the methods of its table.
pub open spec fn prelude_installed(rt: Runtime, b: Builtins) -> bool {
    &&& installed(rt, 0, object_methods())
    &&& installed(rt, 0, kernel_rand_methods())
    &&& installed(rt, module_of(rt, b.exception as int), exception_methods())
    &&& installed(rt, module_of(rt, b.module as int), module_methods())
    &&& installed(rt, module_of(rt, b.class as int), class_methods())
    &&& installed(rt, module_of(rt, b.integer as int), integer_methods())
    &&& installed(rt, module_of(rt, b.float as int), float_methods())
    &&& installed(rt, module_of(rt, b.nilclass as int), nil_methods())
    &&& installed(rt, module_of(rt, b.trueclass as int), true_methods())
    &&& installed(rt, module_of(rt, b.falseclass as int), false_methods())
    &&& installed(rt, module_of(rt, b.symbol as int), symbol_methods())
    &&& installed(rt, module_of(rt, b.string as int), string_methods())
    &&& installed(rt, rt.singletons@[b.string as int]->Some_0 as int, string_class_methods())
    &&& installed(rt, b.enumerable as int, enumerable_methods())
    &&& installed(rt, module_of(rt, b.array as int), array_methods())
    &&& installed(rt, rt.singletons@[b.array as int]->Some_0 as int, array_class_methods())
    &&& rt.classes.modules@[module_of(rt, b.array as int)].mixed_in_modules@ == seq![b.enumerable]
    &&& installed(rt, module_of(rt, b.proc_class as int), proc_methods())
    &&& installed(rt, rt.singletons@[b.proc_class as int]->Some_0 as int, proc_class_methods())
    &&& installed(rt, module_of(rt, b.random as int), random_methods())
    &&& installed(rt, rt.singletons@[b.random as int]->Some_0 as int, random_class_methods())
}

impl Runtime {
    /// Defines class `name` with instance methods `table` and class methods
    /// `class_table`.
    fn class_with_class_methods(
        &mut self,
        name: &str,
        standard: bool,
        table: &Vec<(&str, Native)>,
        class_table: &Vec<(&str, Native)>,
    ) -> (r: usize)
        requires
            old(self).wf(),
            has_room(*old(self)),
            table@.len() <= 64,
            class_table@.len() <= 64,
        ensures
            method_of(final(self).classes.consts@, name@) == Some(ConstValue::Class(r)),
            standard ==> method_of(final(self).classes.builtins@, name@) == Some(r),
            standard ==> forall|other: Seq<char>| other != name@ ==> method_of(final(self).classes.builtins@, other)
                == method_of(old(self).classes.builtins@, other),
            !standard ==> final(self).classes.builtins@ == old(self).classes.builtins@,
            final(self).wf(),
            grows_by_at_most(*old(self), *final(self), 128),
            keeps(*old(self), *final(self), -1),
            r == old(self).classes.classes@.len(),
            final(self).classes.classes@.len() == r + 1,
            module_of(*final(self), r as int) == old(self).classes.modules@.len(),
            final(self).classes.modules@[module_of(*final(self), r as int)].name@ == name@,
            final(self).classes.modules@[module_of(*final(self), r as int)].mixed_in_modules@.len() == 0,
            final(self).singletons@[r as int] is Some,
            final(self).singletons@[r as int]->Some_0 >= old(self).classes.modules@.len(),
            final(self).singletons@[r as int]->Some_0 < final(self).classes.modules@.len(),
            module_of(*final(self), r as int) < final(self).classes.modules@.len(),
            installed(*final(self), module_of(*final(self), r as int), table_view(table@)),
            installed(*final(self), final(self).singletons@[r as int]->Some_0 as int, table_view(class_table@)),
    {
        let c = self.class_with_methods(name, None, standard, table);
        let ghost s1 = *self;
        let m = self.classes.classes[c].module;
        assert(class_ok(self.classes.classes@[c as int], c as int, self.classes.modules@.len() as int));
        let sm = self.singleton_module(c);
        let ghost s2 = *self;
        self.install_more(sm, class_table);
        proof {
            let a = *old(self);
            let b = *self;
            assert(sm != m);
            assert(s2.classes.modules@[m as int] == s1.classes.modules@[m as int]);
            assert(same_methods(b.classes.modules@[m as int], s2.classes.modules@[m as int]));
            assert(b.fns@.subrange(0, s1.fns@.len() as int) =~= s1.fns@);
            lemma_installed_frame(s1, b, m as int, table_view(table@));
            assert forall|i: int| 0 <= i < a.classes.modules@.len() implies #[trigger] same_methods(b.classes.modules@[i], a.classes.modules@[i]) by {
                assert(same_methods(s1.classes.modules@[i], a.classes.modules@[i]));
                assert(s2.classes.modules@[i] == s1.classes.modules@[i]);
                assert(same_methods(b.classes.modules@[i], s2.classes.modules@[i]));
            }
            assert(b.fns@.subrange(0, a.fns@.len() as int) =~= a.fns@);
            assert(s1.classes.modules@[m as int].mixed_in_modules@.len() == 0);
        }
        c
    }

    /// `initialize_string`: defines `String` with its methods and
    /// `String.new`; answers it.
    pub fn initialize_string(&mut self) -> (r: usize)
        requires
            old(self).wf(),
            has_room(*old(self)),
        ensures
            method_of(final(self).classes.builtins@, "String"@) == Some(r),
            forall|other: Seq<char>| other != "String"@ ==> method_of(final(self).classes.builtins@, other)
                == method_of(old(self).classes.builtins@, other),
            final(self).wf(),
            grows_by_at_most(*old(self), *final(self), 128),
            keeps(*old(self), *final(self), -1),
            r == old(self).classes.classes@.len(),
            final(self).classes.classes@.len() == r + 1,
            module_of(*final(self), r as int) == old(self).classes.modules@.len(),
            module_of(*final(self), r as int) < final(self).classes.modules@.len(),
            old(self).classes.modules@.len() <= final(self).singletons@[r as int]->Some_0 < final(self).classes.modules@.len(),
            final(self).classes.modules@[module_of(*final(self), r as int)].name@ == "String"@,
            final(self).singletons@[r as int] is Some,
            installed(*final(self), module_of(*final(self), r as int), string_methods()),
            installed(*final(self), final(self).singletons@[r as int]->Some_0 as int, string_class_methods()),
    {
        let t = string_method_table();
        let ct = string_class_method_table();
        self.class_with_class_methods("String", true, &t, &ct)
    }

    /// `initialize_proc`: defines `Proc` with `Proc#call` and `Proc.new`;
    /// answers it.
    pub fn initialize_proc(&mut self) -> (r: usize)
        requires
            old(self).wf(),
            has_room(*old(self)),
        ensures
            method_of(final(self).classes.builtins@, "Proc"@) == Some(r),
            forall|other: Seq<char>| other != "Proc"@ ==> method_of(final(self).classes.builtins@, other)
                == method_of(old(self).classes.builtins@, other),
            final(self).wf(),
            grows_by_at_most(*old(self), *final(self), 128),
            keeps(*old(self), *final(self), -1),
            r == old(self).classes.classes@.len(),
            final(self).classes.classes@.len() == r + 1,
            module_of(*final(self), r as int) == old(self).classes.modules@.len(),
            module_of(*final(self), r as int) < final(self).classes.modules@.len(),
            old(self).classes.modules@.len() <= final(self).singletons@[r as int]->Some_0 < final(self).classes.modules@.len(),
            final(self).classes.modules@[module_of(*final(self), r as int)].name@ == "Proc"@,
            final(self).singletons@[r as int] is Some,
            installed(*final(self), module_of(*final(self), r as int), proc_methods()),
            installed(*final(self), final(self).singletons@[r as int]->Some_0 as int, proc_class_methods()),
    {
        let t = proc_method_table();
        let ct = proc_class_method_table();
        self.class_with_class_methods("Proc", true, &t, &ct)
    }

    /// `initialize_enumerable`: defines the module `Enumerable` with its
    /// methods; answers it.
    pub fn initialize_enumerable(&mut self) -> (r: usize)
        requires
            old(self).wf(),
            has_room(*old(self)),
        ensures
            final(self).classes.builtins@ == old(self).classes.builtins@,
            final(self).wf(),
            grows_by_at_most(*old(self), *final(self), 64),
            keeps(*old(self), *final(self), -1),
            r == old(self).classes.modules@.len(),
            r < final(self).classes.modules@.len(),
            final(self).classes.modules@[r as int].name@ == "Enumerable"@,
            final(self).classes.classes@ == old(self).classes.classes@,
            installed(*final(self), r as int, enumerable_methods()),
    {
        let m = self.define_module("Enumerable");
        let ghost s1 = *self;
        let t = enumerable_method_table();
        self.install_more(m, &t);
        proof {
            let a = *old(self);
            let b = *self;
            assert forall|i: int| 0 <= i < a.classes.modules@.len() implies #[trigger] same_methods(b.classes.modules@[i], a.classes.modules@[i]) by {
                assert(i != m);
                assert(same_methods(b.classes.modules@[i], s1.classes.modules@[i]));
                if i > 0 {
                    assert(s1.classes.modules@[i] == a.classes.modules@[i]);
                }
            }
            assert(b.fns@.subrange(0, a.fns@.len() as int) =~= a.fns@);
        }
        m
    }

    /// `initialize_array`: defines `Array` with its methods and `Array.new`,
    /// and mixes `enumerable` into it; answers it.
    pub fn initialize_array(&mut self, enumerable: usize) -> (r: usize)
        requires
            old(self).wf(),
            has_room(*old(self)),
            enumerable < old(self).classes.modules@.len(),
        ensures
            method_of(final(self).classes.builtins@, "Array"@) == Some(r),
            forall|other: Seq<char>| other != "Array"@ ==> method_of(final(self).classes.builtins@, other)
                == method_of(old(self).classes.builtins@, other),
            final(self).wf(),
            grows_by_at_most(*old(self), *final(self), 128),
            keeps(*old(self), *final(self), -1),
            r == old(self).classes.classes@.len(),
            final(self).classes.classes@.len() == r + 1,
            module_of(*final(self), r as int) == old(self).classes.modules@.len(),
            module_of(*final(self), r as int) < final(self).classes.modules@.len(),
            old(self).classes.modules@.len() <= final(self).singletons@[r as int]->Some_0 < final(self).classes.modules@.len(),
            final(self).classes.modules@[module_of(*final(self), r as int)].name@ == "Array"@,
            final(self).classes.modules@[module_of(*final(self), r as int)].mixed_in_modules@ == seq![enumerable],
            final(self).singletons@[r as int] is Some,
            installed(*final(self), module_of(*final(self), r as int), array_methods()),
            installed(*final(self), final(self).singletons@[r as int]->Some_0 as int, array_class_methods()),
    {
        let t = array_method_table();
        let ct = array_class_method_table();
        let c = self.class_with_class_methods("Array", true, &t, &ct);
        let ghost s1 = *self;
        let m = self.classes.classes[c].module;
        assert(class_ok(self.classes.classes@[c as int], c as int, self.classes.modules@.len() as int));
        self.include_module(m, enumerable);
        proof {
            let b = *self;
            assert(b.fns@.subrange(0, s1.fns@.len() as int) =~= s1.fns@);
            lemma_installed_frame(s1, b, m as int, array_methods());
            lemma_installed_frame(s1, b, s1.singletons@[c as int]->Some_0 as int, array_class_methods());
            assert(b.classes.modules@[m as int].mixed_in_modules@ =~= seq![enumerable]);
        }
        c
    }

    /// `initialize_rand`: defines `Random` with its methods and class
    /// methods, and gives `Object` the method `rand`; answers `Random`.
    pub fn initialize_rand(&mut self) -> (r: usize)
        requires
            old(self).wf(),
            has_room(*old(self)),
        ensures
            final(self).classes.builtins@ == old(self).classes.builtins@,
            final(self).wf(),
            grows_by_at_most(*old(self), *final(self), 192),
            keeps(*old(self), *final(self), 0),
            r == old(self).classes.classes@.len(),
            final(self).classes.classes@.len() == r + 1,
            module_of(*final(self), r as int) == old(self).classes.modules@.len(),
            module_of(*final(self), r as int) < final(self).classes.modules@.len(),
            old(self).classes.modules@.len() <= final(self).singletons@[r as int]->Some_0 < final(self).classes.modules@.len(),
            final(self).classes.modules@[module_of(*final(self), r as int)].name@ == "Random"@,
            final(self).singletons@[r as int] is Some,
            installed(*final(self), module_of(*final(self), r as int), random_methods()),
            installed(*final(self), final(self).singletons@[r as int]->Some_0 as int, random_class_methods()),
            installed(*final(self), 0, kernel_rand_methods()),
            forall|name: Seq<char>| name != "rand"@ ==> method_of(final(self).classes.modules@[0].procs@, name)
                == method_of(old(self).classes.modules@[0].procs@, name),
    {
        let t = random_method_table();
        let ct = random_class_method_table();
        let c = self.class_with_class_methods("Random", false, &t, &ct);
        let ghost s1 = *self;
        let m = self.classes.classes[c].module;
        assert(class_ok(self.classes.classes@[c as int], c as int, self.classes.modules@.len() as int));
        let sm = self.singletons[c].unwrap();
        let kt = kernel_rand_method_table();
        self.install_more(0, &kt);
        proof {
            let a = *old(self);
            let b = *self;
            assert(m != 0);
            assert(sm != 0);
            assert(same_methods(b.classes.modules@[m as int], s1.classes.modules@[m as int]));
            assert(same_methods(b.classes.modules@[sm as int], s1.classes.modules@[sm as int]));
            assert(b.fns@.subrange(0, s1.fns@.len() as int) =~= s1.fns@);
            lemma_installed_frame(s1, b, m as int, random_methods());
            lemma_installed_frame(s1, b, sm as int, random_class_methods());
            assert forall|name: Seq<char>| name != "rand"@ implies method_of(b.classes.modules@[0].procs@, name)
                == method_of(a.classes.modules@[0].procs@, name) by {
                assert(last_native(kernel_rand_methods(), name) is None) by {
                    lemma_last_native_absent(kernel_rand_methods(), name);
                }
                assert(same_methods(s1.classes.modules@[0], a.classes.modules@[0]));
            }
            assert forall|i: int| 0 <= i < a.classes.modules@.len() && i != 0 implies #[trigger] same_methods(b.classes.modules@[i], a.classes.modules@[i]) by {
                assert(same_methods(s1.classes.modules@[i], a.classes.modules@[i]));
                assert(same_methods(b.classes.modules@[i], s1.classes.modules@[i]));
            }
            assert(b.fns@.subrange(0, a.fns@.len() as int) =~= a.fns@);
        }
        c
    }

    /// The built-in classes of a fresh runtime, set up in order; answers
    /// where they are.
    #[verifier::rlimit(60)]
    #[verifier::spinoff_prover]
    pub fn prelude(&mut self) -> (b: Builtins)
        requires
            old(self).wf(),
            old(self).fns@.len() < 0x1000_0000,
            old(self).classes.modules@.len() < 0x1000_0000,
            old(self).classes.classes@.len() < 0x1000_0000,
        ensures
            final(self).wf(),
            prelude_installed(*final(self), b),
            method_of(final(self).classes.builtins@, "String"@) == Some(b.string),
    {
        let ghost s0 = *self;
        self.initialize_object();
        let ghost s1 = *self;
        let exception = self.initialize_exception();
        let ghost s2 = *self;
        let module = self.initialize_module();
        let ghost s3 = *self;
        let class = self.initialize_class(module);
        let ghost s4 = *self;
        let integer = self.initialize_integer();
        let ghost s5 = *self;
        let float = self.initialize_float();
        let ghost s6 = *self;
        let nilclass = self.initialize_nilclass();
        let ghost s7 = *self;
        let trueclass = self.initialize_trueclass();
        let ghost s8 = *self;
        let falseclass = self.initialize_falseclass();
        let ghost s9 = *self;
        let symbol = self.initialize_symbol();
        let ghost s10 = *self;
        let string = self.initialize_string();
        let ghost s11 = *self;
        let enumerable = self.initialize_enumerable();
        let ghost s12 = *self;
        let array = self.initialize_array(enumerable);
        let ghost s13 = *self;
        let proc_class = self.initialize_proc();
        let ghost s14 = *self;
        let random = self.initialize_rand();
        let ghost s15 = *self;
        proof {
            lemma_keeps_trans(s12, s13, s14);
            lemma_keeps_trans(s11, s12, s14);
            lemma_keeps_trans(s10, s11, s14);
            lemma_keeps_trans(s9, s10, s14);
            lemma_keeps_trans(s8, s9, s14);
            lemma_keeps_trans(s7, s8, s14);
            lemma_keeps_trans(s6, s7, s14);
            lemma_keeps_trans(s5, s6, s14);
            lemma_keeps_trans(s4, s5, s14);
            lemma_keeps_trans(s1, s2, s3);
            lemma_keeps_installed(s1, s3, -1);
            lemma_keeps_installed(s2, s3, -1);
            lemma_keeps_installed(s3, s4, module_of(s3, module as int));
            lemma_keeps_installed(s4, s14, -1);
            lemma_keeps_installed(s5, s14, -1);
            lemma_keeps_installed(s6, s14, -1);
            lemma_keeps_installed(s7, s14, -1);
            lemma_keeps_installed(s8, s14, -1);
            lemma_keeps_installed(s9, s14, -1);
            lemma_keeps_installed(s10, s14, -1);
            lemma_keeps_installed(s11, s14, -1);
            lemma_keeps_installed(s12, s14, -1);
            lemma_keeps_installed(s13, s14, -1);
            lemma_keeps_installed(s14, s15, 0);
            lemma_object_table_has_no_rand();
            lemma_installed_but(s14, s15, 0, object_methods(), "rand"@);
            reveal_strlit("String");
            reveal_strlit("Array");
            reveal_strlit("Proc");
            assert("Array"@ != "String"@) by {
                assert("Array"@[0] != "String"@[0]);
            }
            assert("Proc"@ != "String"@) by {
                assert("Proc"@.len() != "String"@.len());
            }
            let f = s15;
            let am = module_of(s13, array as int);
            assert(module_of(f, array as int) == am);
            assert(same_methods(s14.classes.modules@[am], s13.classes.modules@[am]));
            assert(same_methods(s15.classes.modules@[am], s14.classes.modules@[am]));
            assert(installed(f, 0, object_methods()));
            assert(installed(f, 0, kernel_rand_methods()));
            assert(installed(f, module_of(f, exception as int), exception_methods()));
            assert(installed(f, module_of(f, module as int), module_methods()));
            assert(installed(f, module_of(f, class as int), class_methods()));
            assert(installed(f, module_of(f, integer as int), integer_methods()));
            assert(installed(f, module_of(f, string as int), string_methods()));
            assert(installed(f, f.singletons@[string as int]->Some_0 as int, string_class_methods()));
            assert(installed(f, enumerable as int, enumerable_methods()));
            assert(installed(f, module_of(f, array as int), array_methods()));
            assert(installed(f, f.singletons@[array as int]->Some_0 as int, array_class_methods()));
            assert(f.classes.modules@[module_of(f, array as int)].mixed_in_modules@ == seq![enumerable]);
            assert(installed(f, module_of(f, random as int), random_methods()));
        }
        Builtins {
            exception,
            module,
            class,
            integer,
            float,
            nilclass,
            trueclass,
            falseclass,
            symbol,
            string,
            enumerable,
            array,
            proc_class,
            random,
        }
    }

    /// A runtime with the built-in classes, as it stands before any code
    /// runs.
    pub fn with_prelude() -> (r: (Self, Builtins))
        ensures
            r.0.wf(),
            prelude_installed(r.0, r.1),
    {
        let mut rt = Runtime::new();
        let b = rt.prelude();
        (rt, b)
    }
}

/// The native function that a call of `name` on value `o` runs: the method
/// found along the lookup chain of the value's built-in class.
pub open spec fn native_for(rt: Runtime, o: RObject, name: Seq<char>) -> Option<Native> {
    match method_of(rt.classes.builtins@, builtin_class_name(o.value)) {
        Some(c) => match first_resolving(rt.classes.modules@, lookup_chain(rt.classes, c as int), name) {
            Some(found) => if found.1 < rt.fns@.len() {
                Some(rt.fns@[found.1 as int])
            } else {
                None
            },
            None => None,
        },
        None => None,
    }
}

impl Runtime {
    /// The native function that a call of `name` on value `o` runs, if its
    /// class answers `name` with a native method.
    pub fn native_method(&self, o: &RObject, name: &str) -> (r: Option<Native>)
        requires
            self.wf(),
        ensures
            r == native_for(*self, *o, name@),
    {
        let cname: &str = match &o.value {
            RValue::Bool(b) => if *b { "TrueClass" } else { "FalseClass" },
            RValue::Symbol(_) => "Symbol",
            RValue::Integer(_) => "Integer",
            RValue::String(_) => "String",
            RValue::Array(_) => "Array",
            RValue::Range(_, _, _) => "Range",
            RValue::Nil => "NilClass",
        };
        match self.classes.find_class_by_name(cname) {
            Some(c) => {
                match self.classes.resolve_method(c, name) {
                    Some(found) => {
                        let id = found.1;
                        if id < self.fns.len() as u64 {
                            Some(self.fns[id as usize])
                        } else {
                            None
                        }
                    },
                    None => None,
                }
            },
            None => None,
        }
    }
}

/// A method that a class's own table binds is what a call of that name on
/// its instances runs, whatever its superclasses and mixins bind.
pub proof fn lemma_table_method_wins(rt: Runtime, c: usize, table: Seq<(Seq<char>, Native)>, name: Seq<char>)
    requires
        rt.wf(),
        c < rt.classes.classes@.len(),
        installed(rt, module_of(rt, c as int), table),
        last_native(table, name) is Some,
    ensures
        first_resolving(rt.classes.modules@, lookup_chain(rt.classes, c as int), name) matches Some(found)
            && found.0 == module_of(rt, c as int) && found.1 < rt.fns@.len()
            && rt.fns@[found.1 as int] == last_native(table, name)->Some_0,
{
    let m = module_of(rt, c as int);
    let id = method_of(rt.classes.modules@[m].procs@, name)->Some_0;
    assert(runs(rt, m, name, last_native(table, name)->Some_0));
    lemma_own_method_wins(rt.classes, c, name, id);
}

/// The model of the integer object `v`.
pub open spec fn int_model(v: i64) -> ObjectModel {
    ObjectModel { tt: RType::Integer, object_id: integer_object_id(v), value: ValueModel::Integer(v) }
}

/// The model of the boolean object `b`.
pub open spec fn bool_model(b: bool) -> ObjectModel {
    ObjectModel { tt: RType::Bool, object_id: if b { 20u64 } else { 0u64 }, value: ValueModel::Bool(b) }
}

impl Runtime {
    /// `init_time`: defines `Time` with its methods and its class methods
    /// (`now`, `at` and the clock source `__source`); answers it.
    pub fn init_time(&mut self) -> (r: usize)
        requires
            old(self).wf(),
            has_room(*old(self)),
        ensures
            final(self).wf(),
            grows_by_at_most(*old(self), *final(self), 128),
            keeps(*old(self), *final(self), -1),
            r == old(self).classes.classes@.len(),
            final(self).classes.classes@.len() == r + 1,
            final(self).classes.modules@[module_of(*final(self), r as int)].name@ == "Time"@,
            method_of(final(self).classes.consts@, "Time"@) == Some(ConstValue::Class(r)),
            final(self).classes.builtins@ == old(self).classes.builtins@,
            final(self).singletons@[r as int] is Some,
            installed(*final(self), module_of(*final(self), r as int), time_methods()),
            installed(*final(self), final(self).singletons@[r as int]->Some_0 as int, time_class_methods()),
    {
        let t = time_method_table();
        let ct = time_class_method_table();
        self.class_with_class_methods("Time", false, &t, &ct)
    }
}

/// A native function of the runtime, named after the method it implements.
#[derive(Clone, Copy, Debug, PartialEq, Eq, Structural)]
pub enum Native {
    TimeYear,
    TimeMonth,
    TimeDay,
    TimeWday,
    TimeHour,
    TimeMin,
    TimeSec,
    TimeNsec,
    TimeToS,
    TimeAdd,
    TimeSub,
    TimeCmp,
    TimeUtcOffset,
    TimeLocaltime,
    TimeToI,
    TimeToF,
    TimeNow,
    TimeAt,
    TimeSourceDefault,
    ObjectInitialize,
    ObjectDoubleEq,
    ObjectTripleEq,
    ObjectObjectId,
    ObjectToS,
    ObjectRaise,
    ObjectNilP,
    ObjectLambda,
    ObjectIsA,
    IsWasm,
    ExceptionMessage,
    ModuleInspect,
    ClassNew,
    ClassAttrReader,
    ClassAttrWriter,
    ClassAttrAccessor,
    ClassAncestors,
    IntegerBitref,
    IntegerNegative,
    IntegerPower,
    IntegerMod,
    IntegerAnd,
    IntegerOr,
    IntegerXor,
    IntegerNot,
    IntegerLshift,
    IntegerRshift,
    IntegerAbs,
    IntegerToI,
    IntegerToF,
    IntegerChr,
    IntegerTimes,
    IntegerInspect,
    FloatToI,
    FloatToF,
    FloatInspect,
    FloatClamp,
    NilclassToS,
    NilclassInspect,
    NilclassNilP,
    TrueclassToS,
    TrueclassInspect,
    TrueclassAnd,
    TrueclassOr,
    TrueclassXor,
    FalseclassToS,
    FalseclassInspect,
    FalseclassAnd,
    FalseclassOr,
    FalseclassXor,
    SymbolToS,
    SymbolInspect,
    SymbolToProc,
    StringAdd,
    StringMul,
    StringAppend,
    StringSlice,
    StringB,
    StringClear,
    StringChomp,
    StringChompSelf,
    StringDup,
    StringEmpty,
    StringGetbyte,
    StringSetbyte,
    StringIndex,
    StringOrd,
    StringSliceSelf,
    StringSplit,
    StringLstrip,
    StringLstripSelf,
    StringRstrip,
    StringRstripSelf,
    StringStrip,
    StringStripSelf,
    StringToSym,
    StringStartWith,
    StringEndWith,
    StringInclude,
    StringBytes,
    StringUpcase,
    StringUpcaseSelf,
    StringDowncase,
    StringDowncaseSelf,
    StringToI,
    StringToF,
    StringUnpack,
    StringSize,
    StringInspect,
    ObjectSelf,
    StringNew,
    EnumerableMap,
    EnumerableFind,
    EnumerableSelect,
    EnumerableAll,
    EnumerableAny,
    EnumerableDeleteIf,
    EnumerableEachWithIndex,
    EnumerableSort,
    EnumerableSortBy,
    EnumerableMax,
    EnumerableMin,
    EnumerableMinmax,
    EnumerableCompact,
    EnumerableCount,
    EnumerableToA,
    EnumerableUniq,
    EnumerableReduce,
    EnumerableSum,
    ArrayAdd,
    ArrayPushSelf,
    ArrayGetIndexSelf,
    ArraySetIndexSelf,
    ArrayClear,
    ArrayDeleteAt,
    ArrayEach,
    ArrayEmpty,
    ArraySize,
    ArrayInclude,
    ArrayAnd,
    ArrayOr,
    ArrayFirst,
    ArrayLast,
    ArrayPop,
    ArrayShift,
    ArrayUnshift,
    ArrayDup,
    ArrayUniqSelf,
    ArrayMapSelf,
    ArraySelectSelf,
    ArrayRejectSelf,
    ArraySortSelf,
    ArraySortBySelf,
    ArrayPack,
    ArrayInspect,
    ArrayJoin,
    ArrayNew,
    ProcCall,
    ProcNew,
    RandomRand,
    RandomSeed,
    RandomNew,
    RandomClassRand,
    RandomClassSrand,
    KernelRand,
}

/// Names and native functions of the methods of `Object`.
pub open spec fn object_methods() -> Seq<(Seq<char>, Native)> {
    seq![
        ("initialize"@, Native::ObjectInitialize),
        ("=="@, Native::ObjectDoubleEq),
        ("==="@, Native::ObjectTripleEq),
        ("object_id"@, Native::ObjectObjectId),
        ("__id__"@, Native::ObjectObjectId),
        ("to_s"@, Native::ObjectToS),
        ("inspect"@, Native::ObjectToS),
        ("raise"@, Native::ObjectRaise),
        ("nil?"@, Native::ObjectNilP),
        ("lambda"@, Native::ObjectLambda),
        ("proc"@, Native::ObjectLambda),
        ("is_a?"@, Native::ObjectIsA),
        ("kind_of?"@, Native::ObjectIsA),
        ("wasm?"@, Native::IsWasm),
    ]
}

fn object_method_table() -> (r: Vec<(&'static str, Native)>)
    ensures
        r@.len() == 14,
        table_view(r@) == object_methods(),
{
    let r = vec![
        ("initialize", Native::ObjectInitialize),
        ("==", Native::ObjectDoubleEq),
        ("===", Native::ObjectTripleEq),
        ("object_id", Native::ObjectObjectId),
        ("__id__", Native::ObjectObjectId),
        ("to_s", Native::ObjectToS),
        ("inspect", Native::ObjectToS),
        ("raise", Native::ObjectRaise),
        ("nil?", Native::ObjectNilP),
        ("lambda", Native::ObjectLambda),
        ("proc", Native::ObjectLambda),
        ("is_a?", Native::ObjectIsA),
        ("kind_of?", Native::ObjectIsA),
        ("wasm?", Native::IsWasm),
    ];
    assert(table_view(r@) =~= object_methods());
    r
}

/// Names and native functions of the methods of `Exception`.
pub open spec fn exception_methods() -> Seq<(Seq<char>, Native)> {
    seq![
        ("message"@, Native::ExceptionMessage),
    ]
}

fn exception_method_table() -> (r: Vec<(&'static str, Native)>)
    ensures
        r@.len() == 1,
        table_view(r@) == exception_methods(),
{
    let r = vec![
        ("message", Native::ExceptionMessage),
    ];
    assert(table_view(r@) =~= exception_methods());
    r
}

/// Names and native functions of the methods of `Module`.
pub open spec fn module_methods() -> Seq<(Seq<char>, Native)> {
    seq![
        ("inspect"@, Native::ModuleInspect),
    ]
}

fn module_method_table() -> (r: Vec<(&'static str, Native)>)
    ensures
        r@.len() == 1,
        table_view(r@) == module_methods(),
{
    let r = vec![
        ("inspect", Native::ModuleInspect),
    ];
    assert(table_view(r@) =~= module_methods());
    r
}

/// Names and native functions of the methods of `Class`.
pub open spec fn class_methods() -> Seq<(Seq<char>, Native)> {
    seq![
        ("new"@, Native::ClassNew),
        ("attr_reader"@, Native::ClassAttrReader),
        ("attr_writer"@, Native::ClassAttrWriter),
        ("attr_accessor"@, Native::ClassAttrAccessor),
        ("attr"@, Native::ClassAttrAccessor),
        ("ancestors"@, Native::ClassAncestors),
    ]
}

fn class_method_table() -> (r: Vec<(&'static str, Native)>)
    ensures
        r@.len() == 6,
        table_view(r@) == class_methods(),
{
    let r = vec![
        ("new", Native::ClassNew),
        ("attr_reader", Native::ClassAttrReader),
        ("attr_writer", Native::ClassAttrWriter),
        ("attr_accessor", Native::ClassAttrAccessor),
        ("attr", Native::ClassAttrAccessor),
        ("ancestors", Native::ClassAncestors),
    ];
    assert(table_view(r@) =~= class_methods());
    r
}

/// Names and native functions of the methods of `Integer`.
pub open spec fn integer_methods() -> Seq<(Seq<char>, Native)> {
    seq![
        ("[]"@, Native::IntegerBitref),
        ("-@"@, Native::IntegerNegative),
        ("**"@, Native::IntegerPower),
        ("%"@, Native::IntegerMod),
        ("&"@, Native::IntegerAnd),
        ("|"@, Native::IntegerOr),
        ("^"@, Native::IntegerXor),
        ("~"@, Native::IntegerNot),
        ("<<"@, Native::IntegerLshift),
        (">>"@, Native::IntegerRshift),
        ("abs"@, Native::IntegerAbs),
        ("to_i"@, Native::IntegerToI),
        ("to_f"@, Native::IntegerToF),
        ("chr"@, Native::IntegerChr),
        ("times"@, Native::IntegerTimes),
        ("inspect"@, Native::IntegerInspect),
        ("to_s"@, Native::IntegerInspect),
    ]
}

fn integer_method_table() -> (r: Vec<(&'static str, Native)>)
    ensures
        r@.len() == 17,
        table_view(r@) == integer_methods(),
{
    let r = vec![
        ("[]", Native::IntegerBitref),
        ("-@", Native::IntegerNegative),
        ("**", Native::IntegerPower),
        ("%", Native::IntegerMod),
        ("&", Native::IntegerAnd),
        ("|", Native::IntegerOr),
        ("^", Native::IntegerXor),
        ("~", Native::IntegerNot),
        ("<<", Native::IntegerLshift),
        (">>", Native::IntegerRshift),
        ("abs", Native::IntegerAbs),
        ("to_i", Native::IntegerToI),
        ("to_f", Native::IntegerToF),
        ("chr", Native::IntegerChr),
        ("times", Native::IntegerTimes),
        ("inspect", Native::IntegerInspect),
        ("to_s", Native::IntegerInspect),
    ];
    assert(table_view(r@) =~= integer_methods());
    r
}

/// Names and native functions of the methods of `Float`.
pub open spec fn float_methods() -> Seq<(Seq<char>, Native)> {
    seq![
        ("to_i"@, Native::FloatToI),
        ("to_f"@, Native::FloatToF),
        ("inspect"@, Native::FloatInspect),
        ("to_s"@, Native::FloatInspect),
        ("clamp"@, Native::FloatClamp),
    ]
}

fn float_method_table() -> (r: Vec<(&'static str, Native)>)
    ensures
        r@.len() == 5,
        table_view(r@) == float_methods(),
{
    let r = vec![
        ("to_i", Native::FloatToI),
        ("to_f", Native::FloatToF),
        ("inspect", Native::FloatInspect),
        ("to_s", Native::FloatInspect),
        ("clamp", Native::FloatClamp),
    ];
    assert(table_view(r@) =~= float_methods());
    r
}

/// Names and native functions of the methods of `NilClass`.
pub open spec fn nil_methods() -> Seq<(Seq<char>, Native)> {
    seq![
        ("to_s"@, Native::NilclassToS),
        ("inspect"@, Native::NilclassInspect),
        ("nil?"@, Native::NilclassNilP),
    ]
}

fn nil_method_table() -> (r: Vec<(&'static str, Native)>)
    ensures
        r@.len() == 3,
        table_view(r@) == nil_methods(),
{
    let r = vec![
        ("to_s", Native::NilclassToS),
        ("inspect", Native::NilclassInspect),
        ("nil?", Native::NilclassNilP),
    ];
    assert(table_view(r@) =~= nil_methods());
    r
}

/// Names and native functions of the methods of `TrueClass`.
pub open spec fn true_methods() -> Seq<(Seq<char>, Native)> {
    seq![
        ("to_s"@, Native::TrueclassToS),
        ("inspect"@, Native::TrueclassInspect),
        ("&"@, Native::TrueclassAnd),
        ("|"@, Native::TrueclassOr),
        ("^"@, Native::TrueclassXor),
    ]
}

fn true_method_table() -> (r: Vec<(&'static str, Native)>)
    ensures
        r@.len() == 5,
        table_view(r@) == true_methods(),
{
    let r = vec![
        ("to_s", Native::TrueclassToS),
        ("inspect", Native::TrueclassInspect),
        ("&", Native::TrueclassAnd),
        ("|", Native::TrueclassOr),
        ("^", Native::TrueclassXor),
    ];
    assert(table_view(r@) =~= true_methods());
    r
}

/// Names and native functions of the methods of `FalseClass`.
pub open spec fn false_methods() -> Seq<(Seq<char>, Native)> {
    seq![
        ("to_s"@, Native::FalseclassToS),
        ("inspect"@, Native::FalseclassInspect),
        ("&"@, Native::FalseclassAnd),
        ("|"@, Native::FalseclassOr),
        ("^"@, Native::FalseclassXor),
    ]
}

fn false_method_table() -> (r: Vec<(&'static str, Native)>)
    ensures
        r@.len() == 5,
        table_view(r@) == false_methods(),
{
    let r = vec![
        ("to_s", Native::FalseclassToS),
        ("inspect", Native::FalseclassInspect),
        ("&", Native::FalseclassAnd),
        ("|", Native::FalseclassOr),
        ("^", Native::FalseclassXor),
    ];
    assert(table_view(r@) =~= false_methods());
    r
}

/// Names and native functions of the methods of `Symbol`.
pub open spec fn symbol_methods() -> Seq<(Seq<char>, Native)> {
    seq![
        ("to_s"@, Native::SymbolToS),
        ("inspect"@, Native::SymbolInspect),
        ("to_proc"@, Native::SymbolToProc),
    ]
}

fn symbol_method_table() -> (r: Vec<(&'static str, Native)>)
    ensures
        r@.len() == 3,
        table_view(r@) == symbol_methods(),
{
    let r = vec![
        ("to_s", Native::SymbolToS),
        ("inspect", Native::SymbolInspect),
        ("to_proc", Native::SymbolToProc),
    ];
    assert(table_view(r@) =~= symbol_methods());
    r
}

/// Names and native functions of the methods of `String`.
pub open spec fn string_methods() -> Seq<(Seq<char>, Native)> {
    seq![
        ("+"@, Native::StringAdd),
        ("*"@, Native::StringMul),
        ("<<"@, Native::StringAppend),
        ("[]"@, Native::StringSlice),
        ("b"@, Native::StringB),
        ("clear"@, Native::StringClear),
        ("chomp"@, Native::StringChomp),
        ("chomp!"@, Native::StringChompSelf),
        ("dup"@, Native::StringDup),
        ("empty?"@, Native::StringEmpty),
        ("getbyte"@, Native::StringGetbyte),
        ("setbyte"@, Native::StringSetbyte),
        ("index"@, Native::StringIndex),
        ("ord"@, Native::StringOrd),
        ("slice"@, Native::StringSlice),
        ("slice!"@, Native::StringSliceSelf),
        ("split"@, Native::StringSplit),
        ("lstrip"@, Native::StringLstrip),
        ("lstrip!"@, Native::StringLstripSelf),
        ("rstrip"@, Native::StringRstrip),
        ("rstrip!"@, Native::StringRstripSelf),
        ("strip"@, Native::StringStrip),
        ("strip!"@, Native::StringStripSelf),
        ("to_sym"@, Native::StringToSym),
        ("intern"@, Native::StringToSym),
        ("start_with?"@, Native::StringStartWith),
        ("end_with?"@, Native::StringEndWith),
        ("include?"@, Native::StringInclude),
        ("bytes"@, Native::StringBytes),
        ("upcase"@, Native::StringUpcase),
        ("upcase!"@, Native::StringUpcaseSelf),
        ("downcase"@, Native::StringDowncase),
        ("downcase!"@, Native::StringDowncaseSelf),
        ("to_i"@, Native::StringToI),
        ("to_f"@, Native::StringToF),
        ("unpack"@, Native::StringUnpack),
        ("size"@, Native::StringSize),
        ("bytesize"@, Native::StringSize),
        ("length"@, Native::StringSize),
        ("inspect"@, Native::StringInspect),
        ("to_s"@, Native::ObjectSelf),
    ]
}

fn string_method_table() -> (r: Vec<(&'static str, Native)>)
    ensures
        r@.len() == 41,
        table_view(r@) == string_methods(),
{
    let r = vec![
        ("+", Native::StringAdd),
        ("*", Native::StringMul),
        ("<<", Native::StringAppend),
        ("[]", Native::StringSlice),
        ("b", Native::StringB),
        ("clear", Native::StringClear),
        ("chomp", Native::StringChomp),
        ("chomp!", Native::StringChompSelf),
        ("dup", Native::StringDup),
        ("empty?", Native::StringEmpty),
        ("getbyte", Native::StringGetbyte),
        ("setbyte", Native::StringSetbyte),
        ("index", Native::StringIndex),
        ("ord", Native::StringOrd),
        ("slice", Native::StringSlice),
        ("slice!", Native::StringSliceSelf),
        ("split", Native::StringSplit),
        ("lstrip", Native::StringLstrip),
        ("lstrip!", Native::StringLstripSelf),
        ("rstrip", Native::StringRstrip),
        ("rstrip!", Native::StringRstripSelf),
        ("strip", Native::StringStrip),
        ("strip!", Native::StringStripSelf),
        ("to_sym", Native::StringToSym),
        ("intern", Native::StringToSym),
        ("start_with?", Native::StringStartWith),
        ("end_with?", Native::StringEndWith),
        ("include?", Native::StringInclude),
        ("bytes", Native::StringBytes),
        ("upcase", Native::StringUpcase),
        ("upcase!", Native::StringUpcaseSelf),
        ("downcase", Native::StringDowncase),
        ("downcase!", Native::StringDowncaseSelf),
        ("to_i", Native::StringToI),
        ("to_f", Native::StringToF),
        ("unpack", Native::StringUnpack),
        ("size", Native::StringSize),
        ("bytesize", Native::StringSize),
        ("length", Native::StringSize),
        ("inspect", Native::StringInspect),
        ("to_s", Native::ObjectSelf),
    ];
    assert(table_view(r@) =~= string_methods());
    r
}

/// Names and native functions of the class methods of `String`.
pub open spec fn string_class_methods() -> Seq<(Seq<char>, Native)> {
    seq![
        ("new"@, Native::StringNew),
    ]
}

fn string_class_method_table() -> (r: Vec<(&'static str, Native)>)
    ensures
        r@.len() == 1,
        table_view(r@) == string_class_methods(),
{
    let r = vec![
        ("new", Native::StringNew),
    ];
    assert(table_view(r@) =~= string_class_methods());
    r
}

/// Names and native functions of the methods of the module `Enumerable`.
pub open spec fn enumerable_methods() -> Seq<(Seq<char>, Native)> {
    seq![
        ("map"@, Native::EnumerableMap),
        ("find"@, Native::EnumerableFind),
        ("select"@, Native::EnumerableSelect),
        ("all?"@, Native::EnumerableAll),
        ("any?"@, Native::EnumerableAny),
        ("delete_if"@, Native::EnumerableDeleteIf),
        ("each_with_index"@, Native::EnumerableEachWithIndex),
        ("sort"@, Native::EnumerableSort),
        ("sort_by"@, Native::EnumerableSortBy),
        ("max"@, Native::EnumerableMax),
        ("min"@, Native::EnumerableMin),
        ("minmax"@, Native::EnumerableMinmax),
        ("compact"@, Native::EnumerableCompact),
        ("count"@, Native::EnumerableCount),
        ("to_a"@, Native::EnumerableToA),
        ("uniq"@, Native::EnumerableUniq),
        ("reduce"@, Native::EnumerableReduce),
        ("sum"@, Native::EnumerableSum),
    ]
}

fn enumerable_method_table() -> (r: Vec<(&'static str, Native)>)
    ensures
        r@.len() == 18,
        table_view(r@) == enumerable_methods(),
{
    let r = vec![
        ("map", Native::EnumerableMap),
        ("find", Native::EnumerableFind),
        ("select", Native::EnumerableSelect),
        ("all?", Native::EnumerableAll),
        ("any?", Native::EnumerableAny),
        ("delete_if", Native::EnumerableDeleteIf),
        ("each_with_index", Native::EnumerableEachWithIndex),
        ("sort", Native::EnumerableSort),
        ("sort_by", Native::EnumerableSortBy),
        ("max", Native::EnumerableMax),
        ("min", Native::EnumerableMin),
        ("minmax", Native::EnumerableMinmax),
        ("compact", Native::EnumerableCompact),
        ("count", Native::EnumerableCount),
        ("to_a", Native::EnumerableToA),
        ("uniq", Native::EnumerableUniq),
        ("reduce", Native::EnumerableReduce),
        ("sum", Native::EnumerableSum),
    ];
    assert(table_view(r@) =~= enumerable_methods());
    r
}

/// Names and native functions of the methods of `Array`.
pub open spec fn array_methods() -> Seq<(Seq<char>, Native)> {
    seq![
        ("+"@, Native::ArrayAdd),
        ("push"@, Native::ArrayPushSelf),
        ("<<"@, Native::ArrayPushSelf),
        ("[]"@, Native::ArrayGetIndexSelf),
        ("at"@, Native::ArrayGetIndexSelf),
        ("[]="@, Native::ArraySetIndexSelf),
        ("clear"@, Native::ArrayClear),
        ("delete_at"@, Native::ArrayDeleteAt),
        ("each"@, Native::ArrayEach),
        ("empty?"@, Native::ArrayEmpty),
        ("size"@, Native::ArraySize),
        ("length"@, Native::ArraySize),
        ("include?"@, Native::ArrayInclude),
        ("&"@, Native::ArrayAnd),
        ("|"@, Native::ArrayOr),
        ("first"@, Native::ArrayFirst),
        ("last"@, Native::ArrayLast),
        ("pop"@, Native::ArrayPop),
        ("shift"@, Native::ArrayShift),
        ("unshift"@, Native::ArrayUnshift),
        ("dup"@, Native::ArrayDup),
        ("uniq!"@, Native::ArrayUniqSelf),
        ("map!"@, Native::ArrayMapSelf),
        ("select!"@, Native::ArraySelectSelf),
        ("reject!"@, Native::ArrayRejectSelf),
        ("sort!"@, Native::ArraySortSelf),
        ("sort_by!"@, Native::ArraySortBySelf),
        ("pack"@, Native::ArrayPack),
        ("inspect"@, Native::ArrayInspect),
        ("to_s"@, Native::ArrayInspect),
        ("join"@, Native::ArrayJoin),
    ]
}

fn array_method_table() -> (r: Vec<(&'static str, Native)>)
    ensures
        r@.len() == 31,
        table_view(r@) == array_methods(),
{
    let r = vec![
        ("+", Native::ArrayAdd),
        ("push", Native::ArrayPushSelf),
        ("<<", Native::ArrayPushSelf),
        ("[]", Native::ArrayGetIndexSelf),
        ("at", Native::ArrayGetIndexSelf),
        ("[]=", Native::ArraySetIndexSelf),
        ("clear", Native::ArrayClear),
        ("delete_at", Native::ArrayDeleteAt),
        ("each", Native::ArrayEach),
        ("empty?", Native::ArrayEmpty),
        ("size", Native::ArraySize),
        ("length", Native::ArraySize),
        ("include?", Native::ArrayInclude),
        ("&", Native::ArrayAnd),
        ("|", Native::ArrayOr),
        ("first", Native::ArrayFirst),
        ("last", Native::ArrayLast),
        ("pop", Native::ArrayPop),
        ("shift", Native::ArrayShift),
        ("unshift", Native::ArrayUnshift),
        ("dup", Native::ArrayDup),
        ("uniq!", Native::ArrayUniqSelf),
        ("map!", Native::ArrayMapSelf),
        ("select!", Native::ArraySelectSelf),
        ("reject!", Native::ArrayRejectSelf),
        ("sort!", Native::ArraySortSelf),
        ("sort_by!", Native::ArraySortBySelf),
        ("pack", Native::ArrayPack),
        ("inspect", Native::ArrayInspect),
        ("to_s", Native::ArrayInspect),
        ("join", Native::ArrayJoin),
    ];
    assert(table_view(r@) =~= array_methods());
    r
}

/// Names and native functions of the class methods of `Array`.
pub open spec fn array_class_methods() -> Seq<(Seq<char>, Native)> {
    seq![
        ("new"@, Native::ArrayNew),
    ]
}

fn array_class_method_table() -> (r: Vec<(&'static str, Native)>)
    ensures
        r@.len() == 1,
        table_view(r@) == array_class_methods(),
{
    let r = vec![
        ("new", Native::ArrayNew),
    ];
    assert(table_view(r@) =~= array_class_methods());
    r
}

/// Names and native functions of the methods of `Proc`.
pub open spec fn proc_methods() -> Seq<(Seq<char>, Native)> {
    seq![
        ("call"@, Native::ProcCall),
    ]
}

fn proc_method_table() -> (r: Vec<(&'static str, Native)>)
    ensures
        r@.len() == 1,
        table_view(r@) == proc_methods(),
{
    let r = vec![
        ("call", Native::ProcCall),
    ];
    assert(table_view(r@) =~= proc_methods());
    r
}

/// Names and native functions of the class methods of `Proc`.
pub open spec fn proc_class_methods() -> Seq<(Seq<char>, Native)> {
    seq![
        ("new"@, Native::ProcNew),
    ]
}

fn proc_class_method_table() -> (r: Vec<(&'static str, Native)>)
    ensures
        r@.len() == 1,
        table_view(r@) == proc_class_methods(),
{
    let r = vec![
        ("new", Native::ProcNew),
    ];
    assert(table_view(r@) =~= proc_class_methods());
    r
}

/// Names and native functions of the methods of `Random`.
pub open spec fn random_methods() -> Seq<(Seq<char>, Native)> {
    seq![
        ("rand"@, Native::RandomRand),
        ("seed"@, Native::RandomSeed),
    ]
}

fn random_method_table() -> (r: Vec<(&'static str, Native)>)
    ensures
        r@.len() == 2,
        table_view(r@) == random_methods(),
{
    let r = vec![
        ("rand", Native::RandomRand),
        ("seed", Native::RandomSeed),
    ];
    assert(table_view(r@) =~= random_methods());
    r
}

/// Names and native functions of the class methods of `Random`.
pub open spec fn random_class_methods() -> Seq<(Seq<char>, Native)> {
    seq![
        ("new"@, Native::RandomNew),
        ("rand"@, Native::RandomClassRand),
        ("srand"@, Native::RandomClassSrand),
    ]
}

fn random_class_method_table() -> (r: Vec<(&'static str, Native)>)
    ensures
        r@.len() == 3,
        table_view(r@) == random_class_methods(),
{
    let r = vec![
        ("new", Native::RandomNew),
        ("rand", Native::RandomClassRand),
        ("srand", Native::RandomClassSrand),
    ];
    assert(table_view(r@) =~= random_class_methods());
    r
}

/// Names and native functions of the methods of `Object`.
pub open spec fn kernel_rand_methods() -> Seq<(Seq<char>, Native)> {
    seq![
        ("rand"@, Native::KernelRand),
    ]
}

fn kernel_rand_method_table() -> (r: Vec<(&'static str, Native)>)
    ensures
        r@.len() == 1,
        table_view(r@) == kernel_rand_methods(),
{
    let r = vec![
        ("rand", Native::KernelRand),
    ];
    assert(table_view(r@) =~= kernel_rand_methods());
    r
}

/// Names and native functions of the methods of `Time`.
pub open spec fn time_methods() -> Seq<(Seq<char>, Native)> {
    seq![
        ("year"@, Native::TimeYear),
        ("month"@, Native::TimeMonth),
        ("mon"@, Native::TimeMonth),
        ("day"@, Native::TimeDay),
        ("mday"@, Native::TimeDay),
        ("wday"@, Native::TimeWday),
        ("hour"@, Native::TimeHour),
        ("min"@, Native::TimeMin),
        ("sec"@, Native::TimeSec),
        ("nsec"@, Native::TimeNsec),
        ("to_s"@, Native::TimeToS),
        ("inspect"@, Native::TimeToS),
        ("+"@, Native::TimeAdd),
        ("-"@, Native::TimeSub),
        ("<=>"@, Native::TimeCmp),
        ("utc_offset"@, Native::TimeUtcOffset),
        ("gmt_offset"@, Native::TimeUtcOffset),
        ("localtime"@, Native::TimeLocaltime),
        ("to_i"@, Native::TimeToI),
        ("to_f"@, Native::TimeToF),
    ]
}

fn time_method_table() -> (r: Vec<(&'static str, Native)>)
    ensures
        r@.len() == 20,
        table_view(r@) == time_methods(),
{
    let r = vec![
        ("year", Native::TimeYear),
        ("month", Native::TimeMonth),
        ("mon", Native::TimeMonth),
        ("day", Native::TimeDay),
        ("mday", Native::TimeDay),
        ("wday", Native::TimeWday),
        ("hour", Native::TimeHour),
        ("min", Native::TimeMin),
        ("sec", Native::TimeSec),
        ("nsec", Native::TimeNsec),
        ("to_s", Native::TimeToS),
        ("inspect", Native::TimeToS),
        ("+", Native::TimeAdd),
        ("-", Native::TimeSub),
        ("<=>", Native::TimeCmp),
        ("utc_offset", Native::TimeUtcOffset),
        ("gmt_offset", Native::TimeUtcOffset),
        ("localtime", Native::TimeLocaltime),
        ("to_i", Native::TimeToI),
        ("to_f", Native::TimeToF),
    ];
    assert(table_view(r@) =~= time_methods());
    r
}

/// Names and native functions of the class methods of `Time`.
pub open spec fn time_class_methods() -> Seq<(Seq<char>, Native)> {
    seq![
        ("now"@, Native::TimeNow),
        ("at"@, Native::TimeAt),
        ("__source"@, Native::TimeSourceDefault),
    ]
}

fn time_class_method_table() -> (r: Vec<(&'static str, Native)>)
    ensures
        r@.len() == 3,
        table_view(r@) == time_class_methods(),
{
    let r = vec![
        ("now", Native::TimeNow),
        ("at", Native::TimeAt),
        ("__source", Native::TimeSourceDefault),
    ];
    assert(table_view(r@) =~= time_class_methods());
    r
}

} // verus!
