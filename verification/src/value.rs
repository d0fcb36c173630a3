//! Runtime values: type tags, symbols, constant-pool entries, objects and the
//! keys under which objects are stored in hashes.
use vstd::prelude::*;
use crate::error::Error;
use crate::bytes::{bytes_eq, str_eq};
use vstd::string::StringSliceAdditionalSpecFns;

verus! {

/// Tag identifying each kind of runtime object.
#[derive(Debug, Clone, Copy, PartialEq, Eq, Structural)]
pub enum RType {
    Bool,
    Symbol,
    Integer,
    Float,
    Class,
    Module,
    Instance,
    Proc,
    Array,
    Hash,
    String,
    Range,
    SharedMemory,
    Data,
    Exception,
    Nil,
}

/// A symbol: a name used for methods and constants.
#[derive(Debug, Clone, PartialEq, Eq)]
pub struct RSym {
    pub name: String,
}

impl RSym {
    /// The symbol named `name`.
    pub fn new(name: String) -> (r: Self)
        ensures
            r.name@ == name@,
    {
        RSym { name }
    }
}

/// A constant-pool entry as the virtual machine reads it: a string, a
/// binary blob, an integer, or a float kept as its IEEE-754 bits.
#[derive(Debug, Clone)]
pub enum RPool {
    Str(String),
    Data(Vec<u8>),
    Int(i64),
    Float(u64),
}

impl RPool {
    /// The string of a string entry.
    pub fn as_str(&self) -> (r: &str)
        requires
            self is Str,
        ensures
            r@ == self->Str_0@,
    {
        match self {
            RPool::Str(s) => s.as_str(),
            _ => {
                proof {
                    assert(false);
                }
                ""
            },
        }
    }
}

/// Canonical form of an object used as a hash key.
#[derive(Debug, Clone, PartialEq, Eq, Hash)]
pub enum ValueHasher {
    Bool(bool),
    Integer(i64),
    Float(Vec<u8>),
    Symbol(String),
    String(Vec<u8>),
    Class(String),
}

/// The value an object holds. Floating-point numbers, classes, modules,
/// procedures, hashes and native data live outside this model.
#[derive(Debug)]
pub enum RValue {
    Bool(bool),
    Symbol(RSym),
    Integer(i64),
    String(Vec<u8>),
    Array(Vec<RObject>),
    Range(Box<RObject>, Box<RObject>, bool),
    Nil,
}

/// A runtime object: its type tag, its value and its object id.
#[derive(Debug)]
pub struct RObject {
    pub tt: RType,
    pub value: RValue,
    pub object_id: u64,
}

/// Object id that marks an object whose id is its address once allocated.
pub const UNASSIGNED_ID: u64 = 0xffff_ffff_ffff_ffff;

/// Object id of the integer `n`: `2n + 1` (wrapping) for integers strictly
/// inside the `i32` range, and fixed markers outside it.
pub open spec fn integer_object_id(n: i64) -> u64 {
    if n >= 0x7fff_ffff {
        0xffff_ffff_ffff_ffff
    } else if n <= -0x8000_0000 {
        0x8000_0000_0000_0000
    } else {
        ((2 * n + 1) % 0x1_0000_0000_0000_0000) as u64
    }
}

impl RObject {
    /// `nil`.
    pub fn nil() -> (r: Self)
        ensures
            r.tt == RType::Nil,
            r.value == RValue::Nil,
            r.object_id == 4,
    {
        RObject { tt: RType::Nil, value: RValue::Nil, object_id: 4 }
    }

    /// `true` or `false`.
    pub fn boolean(b: bool) -> (r: Self)
        ensures
            r.tt == RType::Bool,
            r.value == RValue::Bool(b),
            r.object_id == (if b { 20u64 } else { 0u64 }),
    {
        RObject { tt: RType::Bool, value: RValue::Bool(b), object_id: if b { 20 } else { 0 } }
    }

    /// A symbol.
    pub fn symbol(sym: RSym) -> (r: Self)
        ensures
            r.tt == RType::Symbol,
            r.value == RValue::Symbol(sym),
            r.object_id == 2,
    {
        RObject { tt: RType::Symbol, value: RValue::Symbol(sym), object_id: 2 }
    }

    /// An integer.
    pub fn integer(n: i64) -> (r: Self)
        ensures
            r.tt == RType::Integer,
            r.value == RValue::Integer(n),
            r.object_id == integer_object_id(n),
    {
        let object_id: u64 = if n >= 0x7fff_ffff {
            0xffff_ffff_ffff_ffff
        } else if n <= -0x8000_0000 {
            0x8000_0000_0000_0000
        } else if n >= 0 {
            (n as u64) * 2 + 1
        } else {
            (0xffff_ffff_ffff_ffff - ((-n) as u64) * 2) + 2
        };
        RObject { tt: RType::Integer, value: RValue::Integer(n), object_id }
    }

    /// A string holding the UTF-8 bytes of `s`.
    pub fn string(s: String) -> (r: Self)
        ensures
            r.tt == RType::String,
            r.value is String,
            r.value->String_0@ == vstd::utf8::encode_utf8(s@),
            r.object_id == UNASSIGNED_ID,
    {
        let bytes = s.as_str().as_bytes();
        let mut v: Vec<u8> = Vec::new();
        let mut i: usize = 0;
        while i < bytes.len()
            invariant
                0 <= i <= bytes@.len(),
                v@ == bytes@.subrange(0, i as int),
            decreases bytes@.len() - i,
        {
            v.push(bytes[i]);
            i = i + 1;
            assert(v@ =~= bytes@.subrange(0, i as int));
        }
        assert(v@ =~= bytes@);
        RObject { tt: RType::String, value: RValue::String(v), object_id: UNASSIGNED_ID }
    }

    /// A string holding the bytes `v`.
    pub fn string_from_vec(v: Vec<u8>) -> (r: Self)
        ensures
            r.tt == RType::String,
            r.value == RValue::String(v),
            r.object_id == UNASSIGNED_ID,
    {
        RObject { tt: RType::String, value: RValue::String(v), object_id: UNASSIGNED_ID }
    }

    /// An array of the objects `v`.
    pub fn array(v: Vec<RObject>) -> (r: Self)
        ensures
            r.tt == RType::Array,
            r.value == RValue::Array(v),
            r.object_id == UNASSIGNED_ID,
    {
        RObject { tt: RType::Array, value: RValue::Array(v), object_id: UNASSIGNED_ID }
    }

    /// A range from `start` to `end`, excluding the end when `exclusive`.
    pub fn range(start: RObject, end: RObject, exclusive: bool) -> (r: Self)
        ensures
            r.tt == RType::Range,
            r.value == RValue::Range(Box::new(start), Box::new(end), exclusive),
            r.object_id == UNASSIGNED_ID,
    {
        RObject {
            tt: RType::Range,
            value: RValue::Range(Box::new(start), Box::new(end), exclusive),
            object_id: UNASSIGNED_ID,
        }
    }

    /// Whether the object counts as false: `nil` or `false`.
    pub open spec fn spec_is_falsy(&self) -> bool {
        match self.tt {
            RType::Nil => true,
            RType::Bool => self.value == RValue::Bool(false),
            _ => false,
        }
    }

    /// Whether the object counts as false: `nil` or `false`.
    pub fn is_falsy(&self) -> (r: bool)
        ensures
            r == self.spec_is_falsy(),
    {
        match self.tt {
            RType::Nil => true,
            RType::Bool => match self.value {
                RValue::Bool(b) => !b,
                _ => false,
            },
            _ => false,
        }
    }

    /// Whether the object counts as true: anything but `nil` and `false`.
    pub fn is_truthy(&self) -> (r: bool)
        ensures
            r == !self.spec_is_falsy(),
    {
        !self.is_falsy()
    }

    /// Whether the object is `nil`.
    pub fn is_nil(&self) -> (r: bool)
        ensures
            r == (self.tt == RType::Nil),
    {
        match self.tt {
            RType::Nil => true,
            _ => false,
        }
    }

    /// The key under which the object is stored in a hash; only booleans,
    /// integers, symbols and strings can be keys.
    pub fn as_hash_key(&self) -> (r: Result<ValueHasher, Error>)
        ensures
            match self.value {
                RValue::Bool(b) => r == Ok::<ValueHasher, Error>(ValueHasher::Bool(b)),
                RValue::Integer(i) => r == Ok::<ValueHasher, Error>(ValueHasher::Integer(i)),
                RValue::Symbol(s) => r matches Ok(ValueHasher::Symbol(n)) && n@ == s.name@,
                RValue::String(s) => r matches Ok(ValueHasher::String(b)) && b@ == s@,
                _ => r matches Err(Error::TypeMismatch),
            },
    {
        match &self.value {
            RValue::Bool(b) => Ok(ValueHasher::Bool(*b)),
            RValue::Integer(i) => Ok(ValueHasher::Integer(*i)),
            RValue::Symbol(s) => Ok(ValueHasher::Symbol(s.name.clone())),
            RValue::String(s) => Ok(ValueHasher::String(s.clone())),
            _ => Err(Error::TypeMismatch),
        }
    }
}

// ---------------------------------------------------------------------------
// Equality
// ---------------------------------------------------------------------------

/// The canonical form under which objects compare equal (`==`): the value
/// an object holds, with its type tag and object id set aside.
pub enum EqValue {
    Bool(bool),
    Symbol(Seq<char>),
    Integer(i64),
    String(Seq<u8>),
    Array(Seq<EqValue>),
    Range(Box<EqValue>, Box<EqValue>, bool),
    Nil,
}

/// The canonical form of an object: booleans, integers, symbol names and
/// string bytes as they are; arrays element by element; ranges by their
/// ends and exclusiveness.
pub open spec fn eq_value(o: RObject) -> EqValue
    decreases o,
{
    match o.value {
        RValue::Bool(b) => EqValue::Bool(b),
        RValue::Symbol(s) => EqValue::Symbol(s.name@),
        RValue::Integer(i) => EqValue::Integer(i),
        RValue::String(v) => EqValue::String(v@),
        RValue::Array(v) => EqValue::Array(
            Seq::new(
                v@.len(),
                |i: int|
                    if 0 <= i < v@.len() {
                        eq_value(v@[i])
                    } else {
                        EqValue::Nil
                    },
            ),
        ),
        RValue::Range(s, e, x) => EqValue::Range(Box::new(eq_value(*s)), Box::new(eq_value(*e)), x),
        RValue::Nil => EqValue::Nil,
    }
}

/// `lhs == rhs`: whether the two objects have the same canonical form.
pub fn mrb_object_is_equal(lhs: &RObject, rhs: &RObject) -> (r: bool)
    ensures
        r == (eq_value(*lhs) == eq_value(*rhs)),
    decreases lhs,
{
    match (&lhs.value, &rhs.value) {
        (RValue::Bool(a), RValue::Bool(b)) => *a == *b,
        (RValue::Symbol(a), RValue::Symbol(b)) => str_eq(a.name.as_str(), b.name.as_str()),
        (RValue::Integer(a), RValue::Integer(b)) => *a == *b,
        (RValue::String(a), RValue::String(b)) => bytes_eq(a.as_slice(), b.as_slice()),
        (RValue::Array(a), RValue::Array(b)) => {
            let ghost ea = eq_value(*lhs);
            let ghost eb = eq_value(*rhs);
            if a.len() != b.len() {
                proof {
                    assert(ea->Array_0.len() != eb->Array_0.len());
                }
                return false;
            }
            let mut i: usize = 0;
            while i < a.len()
                invariant
                    a@.len() == b@.len(),
                    0 <= i <= a@.len(),
                    lhs.value == RValue::Array(*a),
                    rhs.value == RValue::Array(*b),
                    ea == eq_value(*lhs),
                    eb == eq_value(*rhs),
                    forall|j: int| 0 <= j < i ==> eq_value(#[trigger] a@[j]) == eq_value(b@[j]),
                decreases a@.len() - i,
            {
                proof {
                    assert(decreases_to!(*lhs => lhs.value));
                    assert(decreases_to!(lhs.value => *a));
                    assert(decreases_to!(*a => a@));
                    assert(decreases_to!(a@ => a@[i as int]));
                }
                if !mrb_object_is_equal(&a[i], &b[i]) {
                    proof {
                        assert(ea->Array_0[i as int] == eq_value(a@[i as int]));
                        assert(eb->Array_0[i as int] == eq_value(b@[i as int]));
                    }
                    return false;
                }
                i = i + 1;
            }
            proof {
                assert(ea->Array_0 =~= eb->Array_0);
            }
            true
        },
        (RValue::Range(s1, e1, x1), RValue::Range(s2, e2, x2)) => {
            if *x1 != *x2 {
                return false;
            }
            if !mrb_object_is_equal(s1, s2) {
                return false;
            }
            mrb_object_is_equal(e1, e2)
        },
        (RValue::Nil, RValue::Nil) => true,
        _ => false,
    }
}

/// `lhs != rhs`.
pub fn mrb_object_is_not_equal(lhs: &RObject, rhs: &RObject) -> (r: bool)
    ensures
        r == (eq_value(*lhs) != eq_value(*rhs)),
{
    !mrb_object_is_equal(lhs, rhs)
}

// ---------------------------------------------------------------------------
// Models and copies
// ---------------------------------------------------------------------------

/// Mathematical model of an object: its tag, its id and its value.
pub struct ObjectModel {
    pub tt: RType,
    pub object_id: u64,
    pub value: ValueModel,
}

/// Mathematical model of a value; arrays and ranges hold models of objects.
pub enum ValueModel {
    Bool(bool),
    Symbol(Seq<char>),
    Integer(i64),
    String(Seq<u8>),
    Array(Seq<ObjectModel>),
    Range(Box<ObjectModel>, Box<ObjectModel>, bool),
    Nil,
}

/// The model of an object.
pub open spec fn model(o: RObject) -> ObjectModel
    decreases o,
{
    ObjectModel {
        tt: o.tt,
        object_id: o.object_id,
        value: match o.value {
            RValue::Bool(b) => ValueModel::Bool(b),
            RValue::Symbol(s) => ValueModel::Symbol(s.name@),
            RValue::Integer(i) => ValueModel::Integer(i),
            RValue::String(v) => ValueModel::String(v@),
            RValue::Array(v) => ValueModel::Array(
                Seq::new(
                    v@.len(),
                    |i: int|
                        if 0 <= i < v@.len() {
                            model(v@[i])
                        } else {
                            ObjectModel { tt: RType::Nil, object_id: 0, value: ValueModel::Nil }
                        },
                ),
            ),
            RValue::Range(s, e, x) => ValueModel::Range(Box::new(model(*s)), Box::new(model(*e)), x),
            RValue::Nil => ValueModel::Nil,
        },
    }
}

/// The models of a sequence of objects.
pub open spec fn models(v: Seq<RObject>) -> Seq<ObjectModel> {
    Seq::new(v.len(), |i: int| model(v[i]))
}

/// Objects with the same model compare equal.
pub proof fn lemma_model_determines_equality(a: RObject, b: RObject)
    requires
        model(a) == model(b),
    ensures
        eq_value(a) == eq_value(b),
    decreases a,
{
    match (a.value, b.value) {
        (RValue::Array(x), RValue::Array(y)) => {
            assert(x@.len() == y@.len()) by {
                assert(model(a).value->Array_0.len() == x@.len());
            }
            assert forall|i: int| 0 <= i < x@.len() implies eq_value(x@[i]) == eq_value(y@[i]) by {
                assert(model(a).value->Array_0[i] == model(x@[i]));
                assert(model(b).value->Array_0[i] == model(y@[i]));
                assert(decreases_to!(a => a.value));
                lemma_model_determines_equality(x@[i], y@[i]);
            }
            assert(eq_value(a)->Array_0 =~= eq_value(b)->Array_0);
        },
        (RValue::Range(s1, e1, _), RValue::Range(s2, e2, _)) => {
            lemma_model_determines_equality(*s1, *s2);
            lemma_model_determines_equality(*e1, *e2);
        },
        _ => {},
    }
}

impl RObject {
    /// A copy of the object, element by element.
    pub fn duplicate(&self) -> (r: RObject)
        ensures
            model(r) == model(*self),
        decreases self,
    {
        let value = match &self.value {
            RValue::Bool(b) => RValue::Bool(*b),
            RValue::Symbol(s) => RValue::Symbol(RSym { name: s.name.clone() }),
            RValue::Integer(i) => RValue::Integer(*i),
            RValue::String(v) => RValue::String(v.clone()),
            RValue::Array(v) => {
                let mut out: Vec<RObject> = Vec::new();
                let mut i: usize = 0;
                while i < v.len()
                    invariant
                        0 <= i <= v@.len(),
                        self.value == RValue::Array(*v),
                        out@.len() == i,
                        forall|k: int| 0 <= k < i ==> model(#[trigger] out@[k]) == model(v@[k]),
                    decreases v@.len() - i,
                {
                    proof {
                        assert(decreases_to!(*self => self.value));
                        assert(self.value->Array_0 == *v);
                        assert(decreases_to!(self.value => self.value->Array_0));
                        assert(decreases_to!(*v => v@));
                        assert(decreases_to!(v@ => v@[i as int]));
                    }
                    let c = v[i].duplicate();
                    out.push(c);
                    i = i + 1;
                }
                proof {
                    let ghost r = RObject { tt: self.tt, value: RValue::Array(out), object_id: self.object_id };
                    assert(model(r).value->Array_0 =~= model(*self).value->Array_0);
                }
                RValue::Array(out)
            },
            RValue::Range(s, e, x) => RValue::Range(Box::new(s.duplicate()), Box::new(e.duplicate()), *x),
            RValue::Nil => RValue::Nil,
        };
        RObject { tt: self.tt, value, object_id: self.object_id }
    }
}

// ---------------------------------------------------------------------------
// Conversions of arguments
// ---------------------------------------------------------------------------

/// The integer an object stands for as a numeric argument: an integer as
/// it is, 1 or 0 for a boolean; no other object converts.
pub open spec fn integer_like(o: RObject) -> Option<int> {
    match o.value {
        RValue::Integer(i) => Some(i as int),
        RValue::Bool(b) => Some(if b { 1int } else { 0int }),
        _ => None,
    }
}

impl RObject {
    /// The object as an `i64` argument.
    pub fn to_i64(&self) -> (r: Result<i64, Error>)
        ensures
            match integer_like(*self) {
                Some(n) => r == Ok::<i64, Error>(n as i64),
                None => r matches Err(Error::TypeMismatch),
            },
    {
        match &self.value {
            RValue::Integer(i) => Ok(*i),
            RValue::Bool(b) => Ok(if *b { 1 } else { 0 }),
            _ => Err(Error::TypeMismatch),
        }
    }

    /// The object as an `i32` argument: an integer's low 32 bits.
    pub fn to_i32(&self) -> (r: Result<i32, Error>)
        ensures
            match integer_like(*self) {
                Some(n) => r == Ok::<i32, Error>(n as i32),
                None => r matches Err(Error::TypeMismatch),
            },
    {
        match &self.value {
            RValue::Integer(i) => Ok(*i as i32),
            RValue::Bool(b) => Ok(if *b { 1 } else { 0 }),
            _ => Err(Error::TypeMismatch),
        }
    }

    /// The object as a `u32` argument: an integer's low 32 bits.
    pub fn to_u32(&self) -> (r: Result<u32, Error>)
        ensures
            match integer_like(*self) {
                Some(n) => r == Ok::<u32, Error>(n as u32),
                None => r matches Err(Error::TypeMismatch),
            },
    {
        match &self.value {
            RValue::Integer(i) => Ok(*i as u32),
            RValue::Bool(b) => Ok(if *b { 1 } else { 0 }),
            _ => Err(Error::TypeMismatch),
        }
    }

    /// The object as a `u64` argument: an integer's bits read as unsigned.
    pub fn to_u64(&self) -> (r: Result<u64, Error>)
        ensures
            match integer_like(*self) {
                Some(n) => r == Ok::<u64, Error>(n as u64),
                None => r matches Err(Error::TypeMismatch),
            },
    {
        match &self.value {
            RValue::Integer(i) => Ok(*i as u64),
            RValue::Bool(b) => Ok(if *b { 1 } else { 0 }),
            _ => Err(Error::TypeMismatch),
        }
    }

    /// The object as a `usize` argument: an integer's bits read as unsigned.
    pub fn to_usize(&self) -> (r: Result<usize, Error>)
        ensures
            match integer_like(*self) {
                Some(n) => r == Ok::<usize, Error>(n as usize),
                None => r matches Err(Error::TypeMismatch),
            },
    {
        match &self.value {
            RValue::Integer(i) => Ok(*i as usize),
            RValue::Bool(b) => Ok(if *b { 1 } else { 0 }),
            _ => Err(Error::TypeMismatch),
        }
    }

    /// The object as a `bool` argument: a boolean as it is, an integer as
    /// whether it is non-zero, `nil` as false.
    pub fn to_bool(&self) -> (r: Result<bool, Error>)
        ensures
            self.value matches RValue::Bool(b) ==> r == Ok::<bool, Error>(b),
            self.value matches RValue::Integer(i) ==> r == Ok::<bool, Error>(i != 0),
            self.value is Nil ==> r == Ok::<bool, Error>(false),
            !(self.value is Bool || self.value is Integer || self.value is Nil) ==> r matches Err(Error::TypeMismatch),
    {
        match &self.value {
            RValue::Bool(b) => Ok(*b),
            RValue::Integer(i) => Ok(*i != 0),
            RValue::Nil => Ok(false),
            _ => Err(Error::TypeMismatch),
        }
    }

    /// The bytes of a string object.
    pub fn to_bytes(&self) -> (r: Result<Vec<u8>, Error>)
        ensures
            self.value matches RValue::String(v) ==> (r matches Ok(b) && b@ == v@),
            !(self.value is String) ==> r matches Err(Error::TypeMismatch),
    {
        match &self.value {
            RValue::String(v) => Ok(v.clone()),
            _ => Err(Error::TypeMismatch),
        }
    }
}

} // verus!
