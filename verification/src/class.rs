//! Classes and modules of the runtime, held in one table and referred to by
//! index: their method tables, the modules mixed into them, their nesting and
//! their superclasses, and the method lookup that walks them.
use vstd::prelude::*;
use crate::bytes::str_eq;
use crate::value::{RObject, RValue};

verus! {

/// A module: its name, its methods (each a name and the id of the procedure
/// that implements it), its constants, the modules mixed into it in the
/// order they were included, and the module it is nested in.
pub struct RModule {
    pub name: String,
    pub procs: Vec<(String, u64)>,
    pub consts: Vec<(String, ConstValue)>,
    pub mixed_in_modules: Vec<usize>,
    pub parent: Option<usize>,
}

/// The value of a constant that names a class or a module.
#[derive(Clone, Copy, Debug, PartialEq, Eq, Structural)]
pub enum ConstValue {
    Class(usize),
    Module(usize),
}

/// A class: the module that holds its methods and constants, and its
/// superclass.
#[derive(Clone, Copy)]
pub struct RClass {
    pub module: usize,
    pub super_class: Option<usize>,
}

/// Every module and class of a runtime, the runtime's constants, and its
/// table of built-in classes by name. Class 0 is `Object`, whose module is
/// module 0; a class defined without a superclass inherits from it.
pub struct ClassTable {
    pub modules: Vec<RModule>,
    pub classes: Vec<RClass>,
    pub consts: Vec<(String, ConstValue)>,
    pub builtins: Vec<(String, usize)>,
}

/// Two modules that differ at most in their constants.
pub open spec fn same_but_consts(a: RModule, b: RModule) -> bool {
    &&& a.name@ == b.name@
    &&& a.procs@ == b.procs@
    &&& a.mixed_in_modules@ == b.mixed_in_modules@
    &&& a.parent == b.parent
}

/// A module refers only to modules of the table, and is nested only in a
/// module defined before it.
pub open spec fn module_ok(m: RModule, i: int, n: int) -> bool {
    &&& forall|k: int| 0 <= k < m.mixed_in_modules@.len() ==> m.mixed_in_modules@[k] < n
    &&& m.parent matches Some(p) ==> p < i
}

/// A class's module is in the table, and its superclass was defined before
/// it.
pub open spec fn class_ok(c: RClass, i: int, n: int) -> bool {
    &&& c.module < n
    &&& c.super_class matches Some(s) ==> s < i
}

/// For each module, the modules mixed into it.
pub open spec fn mixin_graph(modules: Seq<RModule>) -> Seq<Seq<usize>> {
    Seq::new(modules.len(), |i: int| modules[i].mixed_in_modules@)
}

/// The modules whose methods a lookup visits, in order: a depth-first walk
/// that takes the module on top of `stack` (its last element), skips it when
/// it was visited already, and otherwise visits it and puts the modules mixed
/// into it on the stack so that the first of them is visited next. The walk
/// stops when the stack is empty or every module was visited.
pub open spec fn chain_walk(g: Seq<Seq<usize>>, stack: Seq<usize>, chain: Seq<usize>) -> Seq<usize>
    decreases g.len() - chain.len(), stack.len(),
{
    if stack.len() == 0 || chain.len() >= g.len() {
        chain
    } else {
        let m = stack.last();
        if chain.contains(m) {
            chain_walk(g, stack.drop_last(), chain)
        } else {
            chain_walk(g, stack.drop_last() + g[m as int].reverse(), chain.push(m))
        }
    }
}

/// The modules of class `c` and of its superclasses, nearest first.
pub open spec fn ancestor_modules(classes: Seq<RClass>, c: int) -> Seq<usize>
    decreases c,
{
    if c < 0 || c >= classes.len() {
        Seq::empty()
    } else {
        let own = seq![classes[c].module];
        match classes[c].super_class {
            Some(s) => if (s as int) < c {
                own + ancestor_modules(classes, s as int)
            } else {
                own
            },
            None => own,
        }
    }
}

/// The lookup chain of class `c`: its module and the modules mixed into it,
/// then those of its superclass, and so on, each module once.
pub open spec fn lookup_chain(t: ClassTable, c: int) -> Seq<usize> {
    chain_walk(mixin_graph(t.modules@), ancestor_modules(t.classes@, c).reverse(), Seq::empty())
}

/// The lookup chain of module `m` alone: `m`, then the modules mixed into it.
pub open spec fn module_chain(t: ClassTable, m: usize) -> Seq<usize> {
    chain_walk(mixin_graph(t.modules@), seq![m], Seq::empty())
}

/// The procedure that a method table gives for `name`: that of its first
/// entry of that name.
pub open spec fn method_of<V>(procs: Seq<(String, V)>, name: Seq<char>) -> Option<V>
    decreases procs.len(),
{
    if procs.len() == 0 {
        None
    } else if procs[0].0@ == name {
        Some(procs[0].1)
    } else {
        method_of(procs.drop_first(), name)
    }
}

/// The first module of `chain` that defines `name`, with the procedure it
/// gives.
pub open spec fn first_resolving(modules: Seq<RModule>, chain: Seq<usize>, name: Seq<char>) -> Option<(usize, u64)>
    decreases chain.len(),
{
    if chain.len() == 0 {
        None
    } else {
        match method_of(modules[chain[0] as int].procs@, name) {
            Some(p) => Some((chain[0], p)),
            None => first_resolving(modules, chain.drop_first(), name),
        }
    }
}

/// What follows the first occurrence of `owner` in `chain` (nothing when it
/// does not occur).
pub open spec fn after_owner(chain: Seq<usize>, owner: usize) -> Seq<usize>
    decreases chain.len(),
{
    if chain.len() == 0 {
        chain
    } else if chain[0] == owner {
        chain.drop_first()
    } else {
        after_owner(chain.drop_first(), owner)
    }
}

/// The name of module `m` with the names of the modules it is nested in,
/// outermost first, joined by `::`.
pub open spec fn full_name_of(modules: Seq<RModule>, m: int) -> Seq<char>
    decreases m,
{
    if m < 0 || m >= modules.len() {
        Seq::empty()
    } else {
        match modules[m].parent {
            Some(p) => if (p as int) < m {
                full_name_of(modules, p as int) + "::"@ + modules[m].name@
            } else {
                modules[m].name@
            },
            None => modules[m].name@,
        }
    }
}

/// The name of the built-in class of a value.
pub open spec fn builtin_class_name(v: RValue) -> Seq<char> {
    match v {
        RValue::Bool(b) => if b { "TrueClass"@ } else { "FalseClass"@ },
        RValue::Symbol(_) => "Symbol"@,
        RValue::Integer(_) => "Integer"@,
        RValue::String(_) => "String"@,
        RValue::Array(_) => "Array"@,
        RValue::Range(_, _, _) => "Range"@,
        RValue::Nil => "NilClass"@,
    }
}

proof fn lemma_method_of_from<V>(procs: Seq<(String, V)>, name: Seq<char>, i: int)
    requires
        0 <= i < procs.len(),
    ensures
        method_of(procs.subrange(i, procs.len() as int), name) == (if procs[i].0@ == name {
            Some(procs[i].1)
        } else {
            method_of(procs.subrange(i + 1, procs.len() as int), name)
        }),
{
    let s = procs.subrange(i, procs.len() as int);
    assert(s.drop_first() =~= procs.subrange(i + 1, procs.len() as int));
}

/// What the table `procs` gives for `name`.
fn method_in<V: Copy>(procs: &Vec<(String, V)>, name: &str) -> (r: Option<V>)
    ensures
        r == method_of(procs@, name@),
{
    let mut i: usize = 0;
    assert(procs@.subrange(0, procs@.len() as int) =~= procs@);
    while i < procs.len()
        invariant
            0 <= i <= procs@.len(),
            method_of(procs@.subrange(i as int, procs@.len() as int), name@) == method_of(procs@, name@),
        decreases procs@.len() - i,
    {
        proof {
            lemma_method_of_from(procs@, name@, i as int);
        }
        if str_eq(procs[i].0.as_str(), name) {
            return Some(procs[i].1);
        }
        i = i + 1;
    }
    assert(procs@.subrange(i as int, procs@.len() as int).len() == 0);
    None
}

/// Gives `name` the value `val` in the table `entries`, in place of the
/// value it had, or as a new last entry.
fn put_entry<V>(entries: &mut Vec<(String, V)>, name: String, val: V)
    ensures
        method_of(final(entries)@, name@) == Some(val),
        forall|other: Seq<char>| other != name@ ==> method_of(final(entries)@, other) == method_of(old(entries)@, other),
{
    let ghost old_entries = entries@;
    let mut idx: usize = 0;
    let mut found = false;
    while idx < entries.len() && !found
        invariant
            idx <= entries@.len(),
            entries@ == old_entries,
            found ==> idx < old_entries.len() && old_entries[idx as int].0@ == name@,
            forall|j: int| 0 <= j < idx ==> old_entries[j].0@ != name@,
        decreases entries@.len() - idx + (if found { 0int } else { 1int }),
    {
        if str_eq(entries[idx].0.as_str(), name.as_str()) {
            found = true;
        } else {
            idx = idx + 1;
        }
    }
    let ghost name_v = name@;
    let pair = (name, val);
    if found {
        proof {
            lemma_method_of_update(old_entries, idx as int, pair);
        }
        entries.set(idx, pair);
    } else {
        proof {
            lemma_method_of_push(old_entries, pair);
            lemma_method_of_absent(old_entries, name_v);
        }
        entries.push(pair);
    }
}

impl ClassTable {
    /// Well-formedness: `Object` is class 0 on module 0, and every index
    /// that a module or class holds is in the table.
    pub open spec fn wf(&self) -> bool {
        &&& self.modules@.len() >= 1
        &&& self.classes@.len() >= 1
        &&& self.classes@[0].module == 0
        &&& self.classes@[0].super_class is None
        &&& forall|i: int| 0 <= i < self.modules@.len() ==> #[trigger] module_ok(self.modules@[i], i, self.modules@.len() as int)
        &&& forall|c: int| 0 <= c < self.classes@.len() ==> #[trigger] class_ok(self.classes@[c], c, self.modules@.len() as int)
        &&& forall|name: Seq<char>| #[trigger] method_of(self.builtins@, name) is Some ==> method_of(self.builtins@, name)->Some_0 < self.classes@.len()
    }

    /// A table that holds only `Object`, with no constant and no built-in
    /// class registered yet.
    pub fn new() -> (r: Self)
        ensures
            r.wf(),
            r.modules@.len() == 1,
            r.classes@.len() == 1,
            r.modules@[0].name@ == "Object"@,
            r.modules@[0].procs@.len() == 0,
            r.modules@[0].consts@.len() == 0,
            r.modules@[0].mixed_in_modules@.len() == 0,
            r.modules@[0].parent is None,
            r.consts@.len() == 0,
            r.builtins@.len() == 0,
    {
        let object = RModule {
            name: String::from_str("Object"),
            procs: Vec::new(),
            consts: Vec::new(),
            mixed_in_modules: Vec::new(),
            parent: None,
        };
        let mut modules: Vec<RModule> = Vec::new();
        modules.push(object);
        let mut classes: Vec<RClass> = Vec::new();
        classes.push(RClass { module: 0, super_class: None });
        let r = ClassTable { modules, classes, consts: Vec::new(), builtins: Vec::new() };
        assert(module_ok(r.modules@[0], 0, 1));
        assert(class_ok(r.classes@[0], 0, 1));
        r
    }

    /// The full name of module `module`, such as `Outer::Inner`
    /// (its path of nesting).
    pub fn full_name(&self, module: usize) -> (r: String)
        requires
            self.wf(),
            module < self.modules@.len(),
        ensures
            r@ == full_name_of(self.modules@, module as int),
        decreases module,
    {
        assert(module_ok(self.modules@[module as int], module as int, self.modules@.len() as int));
        match self.modules[module].parent {
            Some(p) => {
                let mut s = self.full_name(p);
                s.append("::");
                s.append(self.modules[module].name.as_str());
                proof {
                    reveal_strlit("::");
                }
                s
            },
            None => self.modules[module].name.clone(),
        }
    }

    /// The built-in class registered under `name`, if there is one.
    pub fn find_class_by_name(&self, name: &str) -> (r: Option<usize>)
        requires
            self.wf(),
        ensures
            r == method_of(self.builtins@, name@),
            r matches Some(c) ==> c < self.classes@.len(),
    {
        method_in(&self.builtins, name)
    }

    /// The built-in class registered under `name`; the last class
    /// registered under it.
    pub fn get_class_by_name(&self, name: &str) -> (r: usize)
        requires
            self.wf(),
            method_of(self.builtins@, name@) is Some,
        ensures
            method_of(self.builtins@, name@) == Some(r),
            r < self.classes@.len(),
    {
        match self.find_class_by_name(name) {
            Some(c) => c,
            None => 0,
        }
    }

    /// The class of value `o`: the built-in class of its kind.
    pub fn get_class(&self, o: &RObject) -> (r: usize)
        requires
            self.wf(),
            method_of(self.builtins@, builtin_class_name(o.value)) is Some,
        ensures
            method_of(self.builtins@, builtin_class_name(o.value)) == Some(r),
            r < self.classes@.len(),
    {
        let name: &str = match &o.value {
            RValue::Bool(b) => if *b { "TrueClass" } else { "FalseClass" },
            RValue::Symbol(_) => "Symbol",
            RValue::Integer(_) => "Integer",
            RValue::String(_) => "String",
            RValue::Array(_) => "Array",
            RValue::Range(_, _, _) => "Range",
            RValue::Nil => "NilClass",
        };
        self.get_class_by_name(name)
    }

    /// The constant `name` of the runtime.
    pub fn get_const_by_name(&self, name: &str) -> (r: Option<ConstValue>)
        ensures
            r == method_of(self.consts@, name@),
    {
        method_in(&self.consts, name)
    }

    /// The constant `name` of module `module`.
    pub fn getmcnst(&self, module: usize, name: &str) -> (r: Option<ConstValue>)
        requires
            module < self.modules@.len(),
        ensures
            r == method_of(self.modules@[module as int].consts@, name@),
    {
        method_in(&self.modules[module].consts, name)
    }

    /// Sets the constant `name` of the runtime to `val`.
    pub fn set_const(&mut self, name: String, val: ConstValue)
        requires
            old(self).wf(),
        ensures
            final(self).wf(),
            final(self).modules@ == old(self).modules@,
            final(self).classes@ == old(self).classes@,
            final(self).builtins@ == old(self).builtins@,
            method_of(final(self).consts@, name@) == Some(val),
            forall|other: Seq<char>| other != name@ ==> method_of(final(self).consts@, other) == method_of(old(self).consts@, other),
    {
        put_entry(&mut self.consts, name, val);
    }

    /// Registers class `class` as the built-in class named `name`.
    pub fn register_builtin(&mut self, name: String, class: usize)
        requires
            old(self).wf(),
            class < old(self).classes@.len(),
        ensures
            final(self).wf(),
            final(self).modules@ == old(self).modules@,
            final(self).classes@ == old(self).classes@,
            final(self).consts@ == old(self).consts@,
            method_of(final(self).builtins@, name@) == Some(class),
            forall|other: Seq<char>| other != name@ ==> method_of(final(self).builtins@, other) == method_of(old(self).builtins@, other),
    {
        let ghost nm = name@;
        put_entry(&mut self.builtins, name, class);
        assert forall|n2: Seq<char>| #[trigger] method_of(self.builtins@, n2) is Some implies method_of(self.builtins@, n2)->Some_0 < self.classes@.len() by {
            if n2 != nm {
                assert(method_of(self.builtins@, n2) == method_of(old(self).builtins@, n2));
            }
        }
    }

    /// Sets the constant `name` of module `module` to `val`.
    fn put_module_const(&mut self, module: usize, name: String, val: ConstValue)
        requires
            old(self).wf(),
            module < old(self).modules@.len(),
        ensures
            final(self).wf(),
            final(self).classes@ == old(self).classes@,
            final(self).consts@ == old(self).consts@,
            final(self).builtins@ == old(self).builtins@,
            final(self).modules@.len() == old(self).modules@.len(),
            forall|i: int| 0 <= i < old(self).modules@.len() && i != module ==> final(self).modules@[i] == old(self).modules@[i],
            same_but_consts(final(self).modules@[module as int], old(self).modules@[module as int]),
            method_of(final(self).modules@[module as int].consts@, name@) == Some(val),
            forall|other: Seq<char>| other != name@ ==> method_of(final(self).modules@[module as int].consts@, other)
                == method_of(old(self).modules@[module as int].consts@, other),
    {
        let ghost n = self.modules@.len();
        let mut entry = self.modules.remove(module);
        assert(entry == old(self).modules@[module as int]);
        put_entry(&mut entry.consts, name, val);
        self.modules.insert(module, entry);
        assert(self.modules@ =~= old(self).modules@.update(module as int, entry));
        assert forall|i: int| 0 <= i < self.modules@.len() implies #[trigger] module_ok(self.modules@[i], i, n as int) by {
            assert(module_ok(old(self).modules@[i], i, n as int));
        }
        assert forall|c: int| 0 <= c < self.classes@.len() implies #[trigger] class_ok(self.classes@[c], c, n as int) by {
            assert(class_ok(old(self).classes@[c], c, n as int));
        }
    }

    /// Visits the modules from `stack` as `chain_walk` does.
    fn walk(&self, stack0: Vec<usize>) -> (r: Vec<usize>)
        requires
            self.wf(),
            forall|k: int| 0 <= k < stack0@.len() ==> stack0@[k] < self.modules@.len(),
        ensures
            r@ == chain_walk(mixin_graph(self.modules@), stack0@, Seq::empty()),
            forall|k: int| 0 <= k < r@.len() ==> r@[k] < self.modules@.len(),
    {
        proof {
            lemma_walk_in_range(*self, stack0@, Seq::empty());
        }
        let ghost g = mixin_graph(self.modules@);
        let n = self.modules.len();
        let mut seen: Vec<bool> = Vec::new();
        let mut i: usize = 0;
        while i < n
            invariant
                i <= n,
                seen@.len() == i,
                forall|j: int| 0 <= j < i ==> !seen@[j],
            decreases n - i,
        {
            seen.push(false);
            i = i + 1;
        }
        let mut stack = stack0;
        let mut chain: Vec<usize> = Vec::new();
        while stack.len() > 0 && chain.len() < n
            invariant
                self.wf(),
                n == self.modules@.len(),
                g == mixin_graph(self.modules@),
                g.len() == n,
                seen@.len() == n,
                forall|j: int| 0 <= j < n ==> seen@[j] == chain@.contains(j as usize),
                forall|k: int| 0 <= k < stack@.len() ==> stack@[k] < n,
                chain_walk(g, stack@, chain@) == chain_walk(g, stack0@, Seq::empty()),
            decreases n - chain@.len(), stack@.len(),
        {
            let ghost s = stack@;
            let m = stack.pop().unwrap();
            assert(m == s.last() && stack@ == s.drop_last());
            if seen[m] {
                assert(chain@.contains(m));
            } else {
                assert(!chain@.contains(m));
                let ghost old_chain = chain@;
                seen.set(m, true);
                chain.push(m);
                assert forall|j: int| 0 <= j < n implies seen@[j] == chain@.contains(j as usize) by {
                    if j == m as int {
                        assert(chain@[chain@.len() - 1] == m);
                    } else {
                        if chain@.contains(j as usize) {
                            let q = choose|q: int| 0 <= q < chain@.len() && chain@[q] == j as usize;
                            assert(q < old_chain.len());
                            assert(old_chain[q] == j as usize);
                        }
                        if old_chain.contains(j as usize) {
                            let q = choose|q: int| 0 <= q < old_chain.len() && old_chain[q] == j as usize;
                            assert(chain@[q] == j as usize);
                        }
                    }
                }
                let mix = &self.modules[m].mixed_in_modules;
                assert(module_ok(self.modules@[m as int], m as int, n as int));
                assert(g[m as int] == mix@);
                let ghost base = stack@;
                let mut j: usize = mix.len();
                while j > 0
                    invariant
                        j <= mix@.len(),
                        stack@ =~= base + mix@.reverse().subrange(0, mix@.len() - j),
                        forall|k: int| 0 <= k < mix@.len() ==> mix@[k] < n,
                        forall|k: int| 0 <= k < base.len() ==> base[k] < n,
                    decreases j,
                {
                    j = j - 1;
                    stack.push(mix[j]);
                    assert(mix@.reverse()[mix@.len() - 1 - j] == mix@[j as int]);
                    assert(mix@.reverse().subrange(0, mix@.len() - j) =~= mix@.reverse().subrange(
                        0,
                        mix@.len() - 1 - j,
                    ).push(mix@[j as int]));
                }
                assert(mix@.reverse().subrange(0, mix@.len() as int) =~= mix@.reverse());
                assert forall|k: int| 0 <= k < stack@.len() implies stack@[k] < n by {
                    if k >= base.len() {
                        let q = k - base.len();
                        assert(stack@[k] == mix@.reverse()[q]);
                        assert(mix@.reverse()[q] == mix@[mix@.len() - 1 - q]);
                    }
                }
            }
        }
        chain
    }

    /// The lookup chain of class `class`.
    pub fn build_lookup_chain(&self, class: usize) -> (r: Vec<usize>)
        requires
            self.wf(),
            class < self.classes@.len(),
        ensures
            r@ == lookup_chain(*self, class as int),
            forall|k: int| 0 <= k < r@.len() ==> r@[k] < self.modules@.len(),
    {
        let ghost cls = self.classes@;
        let n = self.modules.len();
        let mut anc: Vec<usize> = Vec::new();
        let mut cur: usize = class;
        loop
            invariant_except_break
                cur < cls.len(),
                anc@ + ancestor_modules(cls, cur as int) =~= ancestor_modules(cls, class as int),
            invariant
                self.wf(),
                cls == self.classes@,
                n == self.modules@.len(),
                forall|k: int| 0 <= k < anc@.len() ==> anc@[k] < n,
            ensures
                anc@ =~= ancestor_modules(cls, class as int),
            decreases cur,
        {
            let entry = self.classes[cur];
            assert(class_ok(cls[cur as int], cur as int, n as int));
            let ghost before = anc@;
            anc.push(entry.module);
            match entry.super_class {
                Some(s) => {
                    assert(ancestor_modules(cls, cur as int) =~= seq![entry.module] + ancestor_modules(cls, s as int));
                    assert(anc@ + ancestor_modules(cls, s as int) =~= before + (seq![entry.module] + ancestor_modules(cls, s as int)));
                    cur = s;
                },
                None => {
                    assert(ancestor_modules(cls, cur as int) =~= seq![entry.module]);
                    break;
                },
            }
        }
        let mut stack: Vec<usize> = Vec::new();
        let mut j: usize = anc.len();
        while j > 0
            invariant
                j <= anc@.len(),
                stack@ =~= anc@.reverse().subrange(0, anc@.len() - j),
            decreases j,
        {
            j = j - 1;
            stack.push(anc[j]);
            assert(anc@.reverse()[anc@.len() - 1 - j] == anc@[j as int]);
            assert(anc@.reverse().subrange(0, anc@.len() - j) =~= anc@.reverse().subrange(
                0,
                anc@.len() - 1 - j,
            ).push(anc@[j as int]));
        }
        assert(anc@.reverse().subrange(0, anc@.len() as int) =~= anc@.reverse());
        assert forall|k: int| 0 <= k < stack@.len() implies stack@[k] < n by {
            assert(stack@[k] == anc@[anc@.len() - 1 - k]);
        }
        self.walk(stack)
    }

    /// The first module of `chain`, from position `start` on, that defines
    /// `name`, with its procedure.
    fn resolve_in(&self, chain: &Vec<usize>, start: usize, name: &str) -> (r: Option<(usize, u64)>)
        requires
            self.wf(),
            start <= chain@.len(),
            forall|k: int| 0 <= k < chain@.len() ==> chain@[k] < self.modules@.len(),
        ensures
            r == first_resolving(self.modules@, chain@.subrange(start as int, chain@.len() as int), name@),
    {
        let mut k: usize = start;
        while k < chain.len()
            invariant
                start <= k <= chain@.len(),
                forall|q: int| 0 <= q < chain@.len() ==> chain@[q] < self.modules@.len(),
                first_resolving(self.modules@, chain@.subrange(k as int, chain@.len() as int), name@)
                    == first_resolving(self.modules@, chain@.subrange(start as int, chain@.len() as int), name@),
            decreases chain@.len() - k,
        {
            let ghost rest = chain@.subrange(k as int, chain@.len() as int);
            assert(rest.drop_first() =~= chain@.subrange(k + 1, chain@.len() as int));
            assert(rest[0] == chain@[k as int]);
            let m = chain[k];
            match method_in(&self.modules[m].procs, name) {
                Some(p) => {
                    return Some((m, p));
                },
                None => {},
            }
            k = k + 1;
        }
        None
    }

    /// The module and procedure that a call of `name` on an instance of
    /// `class` reaches: the first module of the lookup chain that defines it.
    pub fn resolve_method(&self, class: usize, name: &str) -> (r: Option<(usize, u64)>)
        requires
            self.wf(),
            class < self.classes@.len(),
        ensures
            r == first_resolving(self.modules@, lookup_chain(*self, class as int), name@),
    {
        let chain = self.build_lookup_chain(class);
        assert(chain@.subrange(0, chain@.len() as int) =~= chain@);
        self.resolve_in(&chain, 0, name)
    }

    /// The method that `super` reaches from a method of module `owner`: the
    /// first module after `owner` in the lookup chain of `class` that defines
    /// `name`.
    pub fn resolve_next_method(&self, class: usize, name: &str, owner: usize) -> (r: Option<(usize, u64)>)
        requires
            self.wf(),
            class < self.classes@.len(),
        ensures
            r == first_resolving(self.modules@, after_owner(lookup_chain(*self, class as int), owner), name@),
    {
        let chain = self.build_lookup_chain(class);
        let mut k: usize = 0;
        assert(chain@.subrange(0, chain@.len() as int) =~= chain@);
        while k < chain.len()
            invariant
                self.wf(),
                k <= chain@.len(),
                forall|q: int| 0 <= q < chain@.len() ==> chain@[q] < self.modules@.len(),
                chain@ == lookup_chain(*self, class as int),
                after_owner(chain@.subrange(k as int, chain@.len() as int), owner) == after_owner(chain@, owner),
            decreases chain@.len() - k,
        {
            let ghost rest = chain@.subrange(k as int, chain@.len() as int);
            assert(rest.drop_first() =~= chain@.subrange(k + 1, chain@.len() as int));
            if chain[k] == owner {
                assert(after_owner(rest, owner) == rest.drop_first());
                return self.resolve_in(&chain, k + 1, name);
            }
            k = k + 1;
        }
        None
    }

    /// The procedure that a call of `name` on an instance of `class` runs.
    pub fn find_method(&self, class: usize, name: &str) -> (r: Option<u64>)
        requires
            self.wf(),
            class < self.classes@.len(),
        ensures
            r == (match first_resolving(self.modules@, lookup_chain(*self, class as int), name@) {
                Some(found) => Some(found.1),
                None => None,
            }),
    {
        match self.resolve_method(class, name) {
            Some(found) => Some(found.1),
            None => None,
        }
    }

    /// The procedure that module `module`, or a module mixed into it, gives
    /// for `name`.
    pub fn module_find_method(&self, module: usize, name: &str) -> (r: Option<u64>)
        requires
            self.wf(),
            module < self.modules@.len(),
        ensures
            r == (match first_resolving(self.modules@, module_chain(*self, module), name@) {
                Some(found) => Some(found.1),
                None => None,
            }),
    {
        let mut stack: Vec<usize> = Vec::new();
        stack.push(module);
        assert(stack@ =~= seq![module]);
        let chain = self.walk(stack);
        assert(chain@.subrange(0, chain@.len() as int) =~= chain@);
        match self.resolve_in(&chain, 0, name) {
            Some(found) => Some(found.1),
            None => None,
        }
    }

    /// Adds module `name`, nested in `parent` when given, with no methods,
    /// constants or mixins, registering no constant for it.
    pub(crate) fn add_module(&mut self, name: String, parent: Option<usize>) -> (r: usize)
        requires
            old(self).wf(),
            old(self).modules@.len() < usize::MAX,
            parent matches Some(p) ==> p < old(self).modules@.len(),
        ensures
            final(self).wf(),
            r == old(self).modules@.len(),
            final(self).modules@.len() == old(self).modules@.len() + 1,
            final(self).modules@.subrange(0, r as int) == old(self).modules@,
            final(self).modules@[r as int].name@ == name@,
            final(self).modules@[r as int].procs@.len() == 0,
            final(self).modules@[r as int].consts@.len() == 0,
            final(self).modules@[r as int].mixed_in_modules@.len() == 0,
            final(self).modules@[r as int].parent == parent,
            final(self).classes@ == old(self).classes@,
            final(self).consts@ == old(self).consts@,
            final(self).builtins@ == old(self).builtins@,
    {
        let r = self.modules.len();
        let ghost n = r as int;
        self.modules.push(RModule { name, procs: Vec::new(), consts: Vec::new(), mixed_in_modules: Vec::new(), parent });
        assert forall|i: int| 0 <= i < self.modules@.len() implies #[trigger] module_ok(self.modules@[i], i, n + 1) by {
            if i < n {
                assert(module_ok(old(self).modules@[i], i, n));
            }
        }
        assert forall|c: int| 0 <= c < self.classes@.len() implies #[trigger] class_ok(self.classes@[c], c, n + 1) by {
            assert(class_ok(old(self).classes@[c], c, n));
        }
        assert(self.modules@.subrange(0, n) =~= old(self).modules@);
        r
    }

    /// Defines module `name`, nested in `parent` when given, with no
    /// methods and no mixins, and makes it the constant `name` of the
    /// runtime and of `Object`.
    pub fn define_module(&mut self, name: String, parent: Option<usize>) -> (r: usize)
        requires
            old(self).wf(),
            old(self).modules@.len() < usize::MAX,
            parent matches Some(p) ==> p < old(self).modules@.len(),
        ensures
            final(self).wf(),
            r == old(self).modules@.len(),
            final(self).modules@.len() == old(self).modules@.len() + 1,
            forall|i: int| 0 < i < r ==> final(self).modules@[i] == old(self).modules@[i],
            same_but_consts(final(self).modules@[0], old(self).modules@[0]),
            final(self).modules@[r as int].name@ == name@,
            final(self).modules@[r as int].procs@.len() == 0,
            final(self).modules@[r as int].consts@.len() == 0,
            final(self).modules@[r as int].mixed_in_modules@.len() == 0,
            final(self).modules@[r as int].parent == parent,
            final(self).classes@ == old(self).classes@,
            final(self).builtins@ == old(self).builtins@,
            method_of(final(self).consts@, name@) == Some(ConstValue::Module(r)),
            forall|other: Seq<char>| other != name@ ==> method_of(final(self).consts@, other) == method_of(old(self).consts@, other),
            method_of(final(self).modules@[0].consts@, name@) == Some(ConstValue::Module(r)),
            forall|other: Seq<char>| other != name@ ==> method_of(final(self).modules@[0].consts@, other)
                == method_of(old(self).modules@[0].consts@, other),
    {
        let r = self.add_module(name.clone(), parent);
        let ghost after_add = self.modules@;
        self.set_const(name.clone(), ConstValue::Module(r));
        self.put_module_const(0, name, ConstValue::Module(r));
        proof {
            assert forall|i: int| 0 < i < r implies self.modules@[i] == old(self).modules@[i] by {
                assert(after_add.subrange(0, r as int)[i] == after_add[i]);
            }
            assert(after_add.subrange(0, r as int)[0] == after_add[0]);
        }
        r
    }

    /// Defines class `name` with its own module, nested in `parent` when
    /// given, inheriting from `superclass` or else from `Object`, and makes
    /// it the constant `name` of the runtime and of `parent` (or of
    /// `Object`); answers the new class.
    pub fn define_class(&mut self, name: String, superclass: Option<usize>, parent: Option<usize>) -> (r: usize)
        requires
            old(self).wf(),
            old(self).modules@.len() < usize::MAX,
            old(self).classes@.len() < usize::MAX,
            parent matches Some(p) ==> p < old(self).modules@.len(),
            superclass matches Some(s) ==> s < old(self).classes@.len(),
        ensures
            final(self).wf(),
            r == old(self).classes@.len(),
            final(self).classes@ == old(self).classes@.push(RClass {
                module: old(self).modules@.len() as usize,
                super_class: Some(match superclass { Some(s) => s, None => 0 }),
            }),
            final(self).modules@.len() == old(self).modules@.len() + 1,
            ({
                let holder: int = match parent { Some(p) => p as int, None => 0 };
                &&& forall|i: int| 0 <= i < old(self).modules@.len() && i != holder ==> final(self).modules@[i] == old(self).modules@[i]
                &&& same_but_consts(final(self).modules@[holder], old(self).modules@[holder])
                &&& method_of(final(self).modules@[holder].consts@, name@) == Some(ConstValue::Class(r))
                &&& forall|other: Seq<char>| other != name@ ==> method_of(final(self).modules@[holder].consts@, other)
                    == method_of(old(self).modules@[holder].consts@, other)
            }),
            final(self).modules@[old(self).modules@.len() as int].name@ == name@,
            final(self).modules@[old(self).modules@.len() as int].procs@.len() == 0,
            final(self).modules@[old(self).modules@.len() as int].consts@.len() == 0,
            final(self).modules@[old(self).modules@.len() as int].mixed_in_modules@.len() == 0,
            final(self).modules@[old(self).modules@.len() as int].parent == parent,
            final(self).builtins@ == old(self).builtins@,
            method_of(final(self).consts@, name@) == Some(ConstValue::Class(r)),
            forall|other: Seq<char>| other != name@ ==> method_of(final(self).consts@, other) == method_of(old(self).consts@, other),
    {
        let sup: usize = match superclass {
            Some(s) => s,
            None => 0,
        };
        let m = self.add_module(name.clone(), parent);
        let ghost after_add = self.modules@;
        let r = self.classes.len();
        let ghost n = self.modules@.len();
        self.classes.push(RClass { module: m, super_class: Some(sup) });
        assert forall|c: int| 0 <= c < self.classes@.len() implies #[trigger] class_ok(self.classes@[c], c, n as int) by {
            if c < r {
                assert(class_ok(old(self).classes@[c], c, n - 1));
            }
        }
        assert forall|nm: Seq<char>| #[trigger] method_of(self.builtins@, nm) is Some implies method_of(self.builtins@, nm)->Some_0 < self.classes@.len() by {
            assert(method_of(old(self).builtins@, nm) == method_of(self.builtins@, nm));
        }
        self.set_const(name.clone(), ConstValue::Class(r));
        let holder: usize = match parent {
            Some(p) => p,
            None => 0,
        };
        self.put_module_const(holder, name, ConstValue::Class(r));
        proof {
            assert forall|i: int| 0 <= i < old(self).modules@.len() implies self.modules@[i] == old(self).modules@[i] || i == holder by {
                assert(after_add.subrange(0, m as int)[i] == after_add[i]);
            }
            assert(after_add.subrange(0, m as int)[holder as int] == after_add[holder as int]);
        }
        r
    }

    /// Defines class `name` at the top level as `define_class` does and
    /// registers it as the built-in class of that name.
    pub fn define_standard_class(&mut self, name: String, superclass: Option<usize>) -> (r: usize)
        requires
            old(self).wf(),
            old(self).modules@.len() < usize::MAX,
            old(self).classes@.len() < usize::MAX,
            superclass matches Some(s) ==> s < old(self).classes@.len(),
        ensures
            final(self).wf(),
            r == old(self).classes@.len(),
            final(self).classes@ == old(self).classes@.push(RClass {
                module: old(self).modules@.len() as usize,
                super_class: Some(match superclass { Some(s) => s, None => 0 }),
            }),
            final(self).modules@.len() == old(self).modules@.len() + 1,
            forall|i: int| 0 < i < old(self).modules@.len() ==> final(self).modules@[i] == old(self).modules@[i],
            same_but_consts(final(self).modules@[0], old(self).modules@[0]),
            method_of(final(self).modules@[0].consts@, name@) == Some(ConstValue::Class(r)),
            final(self).modules@[old(self).modules@.len() as int].name@ == name@,
            final(self).modules@[old(self).modules@.len() as int].procs@.len() == 0,
            final(self).modules@[old(self).modules@.len() as int].consts@.len() == 0,
            final(self).modules@[old(self).modules@.len() as int].mixed_in_modules@.len() == 0,
            final(self).modules@[old(self).modules@.len() as int].parent is None,
            method_of(final(self).consts@, name@) == Some(ConstValue::Class(r)),
            forall|other: Seq<char>| other != name@ ==> method_of(final(self).consts@, other) == method_of(old(self).consts@, other),
            method_of(final(self).builtins@, name@) == Some(r),
            forall|other: Seq<char>| other != name@ ==> method_of(final(self).builtins@, other) == method_of(old(self).builtins@, other),
    {
        let r = self.define_class(name.clone(), superclass, None);
        self.register_builtin(name, r);
        r
    }

    /// Gives module `module` the method `name`, run by procedure `proc_id`,
    /// in place of any it had of that name.
    pub fn define_method(&mut self, module: usize, name: String, proc_id: u64)
        requires
            old(self).wf(),
            module < old(self).modules@.len(),
        ensures
            final(self).wf(),
            final(self).classes@ == old(self).classes@,
            final(self).modules@.len() == old(self).modules@.len(),
            forall|i: int| 0 <= i < old(self).modules@.len() && i != module ==> final(self).modules@[i] == old(self).modules@[i],
            final(self).modules@[module as int].name@ == old(self).modules@[module as int].name@,
            final(self).modules@[module as int].mixed_in_modules@ == old(self).modules@[module as int].mixed_in_modules@,
            final(self).modules@[module as int].parent == old(self).modules@[module as int].parent,
            final(self).modules@[module as int].consts@ == old(self).modules@[module as int].consts@,
            final(self).consts@ == old(self).consts@,
            final(self).builtins@ == old(self).builtins@,
            method_of(final(self).modules@[module as int].procs@, name@) == Some(proc_id),
            forall|other: Seq<char>| other != name@ ==> method_of(final(self).modules@[module as int].procs@, other)
                == method_of(old(self).modules@[module as int].procs@, other),
    {
        let ghost n = self.modules@.len();
        let mut entry = self.modules.remove(module);
        assert(entry == old(self).modules@[module as int]);
        put_entry(&mut entry.procs, name, proc_id);
        self.modules.insert(module, entry);
        assert(self.modules@ =~= old(self).modules@.update(module as int, entry));
        assert forall|i: int| 0 <= i < self.modules@.len() implies #[trigger] module_ok(self.modules@[i], i, n as int) by {
            assert(module_ok(old(self).modules@[i], i, n as int));
        }
        assert forall|c: int| 0 <= c < self.classes@.len() implies #[trigger] class_ok(self.classes@[c], c, n as int) by {
            assert(class_ok(old(self).classes@[c], c, n as int));
        }
    }

    /// Mixes module `mixin` into module `module`, after the modules mixed
    /// into it before.
    pub fn include_module(&mut self, module: usize, mixin: usize)
        requires
            old(self).wf(),
            module < old(self).modules@.len(),
            mixin < old(self).modules@.len(),
        ensures
            final(self).wf(),
            final(self).classes@ == old(self).classes@,
            final(self).modules@.len() == old(self).modules@.len(),
            forall|i: int| 0 <= i < old(self).modules@.len() && i != module ==> final(self).modules@[i] == old(self).modules@[i],
            final(self).modules@[module as int].name@ == old(self).modules@[module as int].name@,
            final(self).modules@[module as int].procs@ == old(self).modules@[module as int].procs@,
            final(self).modules@[module as int].parent == old(self).modules@[module as int].parent,
            final(self).modules@[module as int].mixed_in_modules@ == old(self).modules@[module as int].mixed_in_modules@.push(mixin),
            final(self).modules@[module as int].consts@ == old(self).modules@[module as int].consts@,
            final(self).consts@ == old(self).consts@,
            final(self).builtins@ == old(self).builtins@,
    {
        let ghost n = self.modules@.len();
        let mut entry = self.modules.remove(module);
        assert(entry == old(self).modules@[module as int]);
        assert(module_ok(entry, module as int, n as int));
        entry.mixed_in_modules.push(mixin);
        self.modules.insert(module, entry);
        assert(self.modules@ =~= old(self).modules@.update(module as int, entry));
        assert forall|i: int| 0 <= i < self.modules@.len() implies #[trigger] module_ok(self.modules@[i], i, n as int) by {
            assert(module_ok(old(self).modules@[i], i, n as int));
            if i == module as int {
                assert forall|k: int| 0 <= k < entry.mixed_in_modules@.len() implies entry.mixed_in_modules@[k] < n by {
                    if k < entry.mixed_in_modules@.len() - 1 {
                        assert(entry.mixed_in_modules@[k] == old(self).modules@[i].mixed_in_modules@[k]);
                    }
                }
            }
        }
        assert forall|c: int| 0 <= c < self.classes@.len() implies #[trigger] class_ok(self.classes@[c], c, n as int) by {
            assert(class_ok(old(self).classes@[c], c, n as int));
        }
    }
}

/// Replacing the entry of `name` at its first position gives `name` the new
/// procedure and leaves every other name as it was.
proof fn lemma_method_of_update<V>(s: Seq<(String, V)>, i: int, x: (String, V))
    requires
        0 <= i < s.len(),
        s[i].0@ == x.0@,
        forall|j: int| 0 <= j < i ==> s[j].0@ != x.0@,
    ensures
        method_of(s.update(i, x), x.0@) == Some(x.1),
        forall|other: Seq<char>| other != x.0@ ==> method_of(s.update(i, x), other) == method_of(s, other),
    decreases i,
{
    let u = s.update(i, x);
    if i == 0 {
        assert(u.drop_first() =~= s.drop_first());
        assert forall|other: Seq<char>| other != x.0@ implies method_of(u, other) == method_of(s, other) by {
            assert(method_of(u, other) == method_of(u.drop_first(), other));
            assert(method_of(s, other) == method_of(s.drop_first(), other));
        }
    } else {
        assert(u.drop_first() =~= s.drop_first().update(i - 1, x));
        assert forall|j: int| 0 <= j < i - 1 implies s.drop_first()[j].0@ != x.0@ by {
            assert(s.drop_first()[j] == s[j + 1]);
        }
        lemma_method_of_update(s.drop_first(), i - 1, x);
        assert(u[0] == s[0]);
        assert forall|other: Seq<char>| other != x.0@ implies method_of(u, other) == method_of(s, other) by {
            if s[0].0@ != other {
                assert(method_of(u, other) == method_of(u.drop_first(), other));
                assert(method_of(s, other) == method_of(s.drop_first(), other));
            }
        }
    }
}

/// A new last entry answers only for a name that no earlier entry has.
proof fn lemma_method_of_push<V>(s: Seq<(String, V)>, x: (String, V))
    ensures
        forall|other: Seq<char>| #[trigger] method_of(s.push(x), other) == (match method_of(s, other) {
            Some(p) => Some(p),
            None => if x.0@ == other { Some(x.1) } else { None },
        }),
    decreases s.len(),
{
    if s.len() > 0 {
        assert(s.push(x).drop_first() =~= s.drop_first().push(x));
        lemma_method_of_push(s.drop_first(), x);
        assert forall|other: Seq<char>| #[trigger] method_of(s.push(x), other) == (match method_of(s, other) {
            Some(p) => Some(p),
            None => if x.0@ == other { Some(x.1) } else { None },
        }) by {
            assert(s.push(x)[0] == s[0]);
            if s[0].0@ != other {
                assert(method_of(s.push(x), other) == method_of(s.push(x).drop_first(), other));
            }
        }
    } else {
        assert forall|other: Seq<char>| #[trigger] method_of(s.push(x), other) == (match method_of(s, other) {
            Some(p) => Some(p),
            None => if x.0@ == other { Some(x.1) } else { None },
        }) by {
            assert(s.push(x).drop_first().len() == 0);
            assert(method_of(s.push(x).drop_first(), other) is None);
            assert(s.push(x)[0] == x);
            assert(method_of(s, other) is None);
        }
    }
}

/// A table none of whose entries has `name` gives nothing for it.
proof fn lemma_method_of_absent<V>(s: Seq<(String, V)>, name: Seq<char>)
    requires
        forall|j: int| 0 <= j < s.len() ==> s[j].0@ != name,
    ensures
        method_of(s, name) is None,
    decreases s.len(),
{
    if s.len() > 0 {
        assert forall|j: int| 0 <= j < s.drop_first().len() implies s.drop_first()[j].0@ != name by {
            assert(s.drop_first()[j] == s[j + 1]);
        }
        lemma_method_of_absent(s.drop_first(), name);
    }
}

/// A walk from modules of the table visits only modules of the table.
proof fn lemma_walk_in_range(t: ClassTable, stack: Seq<usize>, chain: Seq<usize>)
    requires
        t.wf(),
        forall|k: int| 0 <= k < stack.len() ==> stack[k] < t.modules@.len(),
        forall|k: int| 0 <= k < chain.len() ==> chain[k] < t.modules@.len(),
    ensures
        forall|k: int| 0 <= k < chain_walk(mixin_graph(t.modules@), stack, chain).len()
            ==> chain_walk(mixin_graph(t.modules@), stack, chain)[k] < t.modules@.len(),
    decreases t.modules@.len() - chain.len(), stack.len(),
{
    let g = mixin_graph(t.modules@);
    if stack.len() == 0 || chain.len() >= g.len() {
        assert(chain_walk(g, stack, chain) == chain);
    } else {
        let m = stack.last();
        assert(m < t.modules@.len());
        if chain.contains(m) {
            assert(chain_walk(g, stack, chain) == chain_walk(g, stack.drop_last(), chain));
            lemma_walk_in_range(t, stack.drop_last(), chain);
        } else {
            let n = t.modules@.len();
            assert(module_ok(t.modules@[m as int], m as int, n as int));
            let next = stack.drop_last() + g[m as int].reverse();
            assert forall|k: int| 0 <= k < next.len() implies next[k] < n by {
                if k >= stack.len() - 1 {
                    let q = k - (stack.len() - 1);
                    assert(g[m as int].reverse()[q] == g[m as int][g[m as int].len() - 1 - q]);
                }
            }
            assert(chain_walk(g, stack, chain) == chain_walk(g, next, chain.push(m)));
            lemma_walk_in_range(t, next, chain.push(m));
        }
    }
}

/// A walk only adds to the modules it started with.
proof fn lemma_walk_extends(g: Seq<Seq<usize>>, stack: Seq<usize>, chain: Seq<usize>)
    ensures
        chain_walk(g, stack, chain).len() >= chain.len(),
        chain_walk(g, stack, chain).subrange(0, chain.len() as int) == chain,
    decreases g.len() - chain.len(), stack.len(),
{
    if stack.len() == 0 || chain.len() >= g.len() {
        assert(chain.subrange(0, chain.len() as int) =~= chain);
    } else {
        let m = stack.last();
        if chain.contains(m) {
            lemma_walk_extends(g, stack.drop_last(), chain);
        } else {
            let next = stack.drop_last() + g[m as int].reverse();
            lemma_walk_extends(g, next, chain.push(m));
            let r = chain_walk(g, next, chain.push(m));
            assert(r.subrange(0, chain.len() as int) =~= r.subrange(0, chain.len() + 1int).subrange(0, chain.len() as int));
            assert(chain.push(m).subrange(0, chain.len() as int) =~= chain);
        }
    }
}

/// A walk never visits a module twice.
proof fn lemma_walk_no_duplicates(g: Seq<Seq<usize>>, stack: Seq<usize>, chain: Seq<usize>)
    requires
        chain.no_duplicates(),
    ensures
        chain_walk(g, stack, chain).no_duplicates(),
    decreases g.len() - chain.len(), stack.len(),
{
    if stack.len() == 0 || chain.len() >= g.len() {
    } else {
        let m = stack.last();
        if chain.contains(m) {
            lemma_walk_no_duplicates(g, stack.drop_last(), chain);
        } else {
            let next = stack.drop_last() + g[m as int].reverse();
            assert(chain.push(m).no_duplicates()) by {
                assert forall|i: int, j: int| 0 <= i < j < chain.push(m).len() implies chain.push(m)[i] != chain.push(m)[j] by {
                    if j == chain.len() {
                        assert(chain[i] == chain.push(m)[i]);
                    }
                }
            }
            lemma_walk_no_duplicates(g, next, chain.push(m));
        }
    }
}

/// The lookup chain of a class starts with the class's own module and holds
/// each module at most once.
pub proof fn lemma_lookup_chain_shape(t: ClassTable, c: usize)
    requires
        t.wf(),
        c < t.classes@.len(),
    ensures
        lookup_chain(t, c as int).len() >= 1,
        lookup_chain(t, c as int)[0] == t.classes@[c as int].module,
        lookup_chain(t, c as int).no_duplicates(),
{
    let g = mixin_graph(t.modules@);
    let anc = ancestor_modules(t.classes@, c as int);
    let stack = anc.reverse();
    let m = t.classes@[c as int].module;
    assert(anc[0] == m);
    assert(stack.len() >= 1 && stack.last() == m);
    let empty = Seq::<usize>::empty();
    assert(!empty.contains(m));
    assert(g.len() >= 1);
    let next = stack.drop_last() + g[m as int].reverse();
    assert(chain_walk(g, stack, empty) == chain_walk(g, next, empty.push(m)));
    lemma_walk_extends(g, next, empty.push(m));
    assert(chain_walk(g, next, empty.push(m)).subrange(0, 1)[0] == chain_walk(g, next, empty.push(m))[0]);
    lemma_walk_no_duplicates(g, stack, empty);
}

/// A method that a class defines itself is the one that a call on its
/// instances finds, whatever its superclasses and mixins define.
pub proof fn lemma_own_method_wins(t: ClassTable, c: usize, name: Seq<char>, p: u64)
    requires
        t.wf(),
        c < t.classes@.len(),
        method_of(t.modules@[t.classes@[c as int].module as int].procs@, name) == Some(p),
    ensures
        first_resolving(t.modules@, lookup_chain(t, c as int), name) == Some((t.classes@[c as int].module, p)),
{
    lemma_lookup_chain_shape(t, c);
}

} // verus!
