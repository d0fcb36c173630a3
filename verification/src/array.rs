//! Index access and growth of `Array` objects.
use vstd::prelude::*;
use crate::error::Error;
use crate::args::without_trailing_nil;
use crate::value::{RObject, RValue, RType, UNASSIGNED_ID, eq_value, integer_like, model, models, mrb_object_is_equal, lemma_model_determines_equality};

verus! {

/// The elements of an array object (empty for any other object).
pub open spec fn elems(o: RObject) -> Seq<RObject> {
    match o.value {
        RValue::Array(v) => v@,
        _ => Seq::empty(),
    }
}

/// An index argument read as a `u32`: an integer's low 32 bits, 1 or 0 for
/// a boolean; nothing else converts.
pub open spec fn index_u32(o: RObject) -> Option<nat> {
    match integer_like(o) {
        Some(n) => Some((n as u32) as nat),
        None => None,
    }
}

/// An index argument read as a `usize`: an integer reinterpreted as
/// unsigned, 1 or 0 for a boolean; nothing else converts.
pub open spec fn index_usize(o: RObject) -> Option<nat> {
    match integer_like(o) {
        Some(n) => Some((n as usize) as nat),
        None => None,
    }
}

/// The message of an index operation on something that is not an array.
pub open spec fn not_array_message() -> Seq<char> {
    "Array#push must be called on an Array"@
}

/// `Array#push`: appends `args` to the array `this`; anything but an array
/// is refused and left as it was.
pub fn mrb_array_push(this: &mut RObject, args: Vec<RObject>) -> (r: Result<(), Error>)
    ensures
        old(this).value is Array ==> r is Ok && final(this).value is Array && elems(*final(this))
            == elems(*old(this)) + args@,
        !(old(this).value is Array) ==> (r matches Err(Error::TypeMismatch) && *final(this) == *old(
            this,
        )),
        final(this).tt == old(this).tt,
        final(this).object_id == old(this).object_id,
{
    match &mut this.value {
        RValue::Array(a) => {
            let mut args = args;
            a.append(&mut args);
            Ok(())
        },
        _ => Err(Error::TypeMismatch),
    }
}

/// `Array#[]`: a copy of the element of `this` at `index`, or `nil` when
/// the index lies past the end.
pub fn mrb_array_get_index(this: &RObject, index: &RObject) -> (r: Result<RObject, Error>)
    ensures
        !(this.value is Array) ==> (r matches Err(Error::RuntimeError(m)) && m@ == not_array_message()),
        this.value is Array && index_u32(*index) is None ==> r matches Err(Error::TypeMismatch),
        this.value is Array && index_u32(*index) is Some ==> (r matches Ok(e) && model(e) == (if index_u32(
            *index,
        )->Some_0 < elems(*this).len() {
            model(elems(*this)[index_u32(*index)->Some_0 as int])
        } else {
            nil_model()
        })),
{
    let a = match &this.value {
        RValue::Array(a) => a,
        _ => {
            return Err(Error::RuntimeError(String::from_str("Array#push must be called on an Array")));
        },
    };
    let i = index.to_u32()?;
    if (i as usize) < a.len() {
        Ok(a[i as usize].duplicate())
    } else {
        Ok(RObject::nil())
    }
}

/// The `nil` object.
pub open spec fn nil_object() -> RObject {
    RObject { tt: RType::Nil, value: RValue::Nil, object_id: 4 }
}

/// The elements after storing `value` at `i`: replaced inside the array,
/// and past the end appended after as many `nil`s as fill the gap.
pub open spec fn stored_at(v: Seq<RObject>, i: nat, value: RObject) -> Seq<RObject> {
    if i < v.len() {
        v.update(i as int, value)
    } else {
        v + Seq::new((i - v.len()) as nat, |_k: int| nil_object()) + seq![value]
    }
}

/// `Array#[]=`: stores `value` at `index` of `this`, filling any gap past
/// the end with `nil`, and gives back (a copy of) the stored value.
pub fn mrb_array_set_index(this: &mut RObject, index: &RObject, value: RObject) -> (r: Result<RObject, Error>)
    ensures
        index_usize(*index) is None ==> (r matches Err(Error::TypeMismatch) && *final(this) == *old(this)),
        index_usize(*index) is Some && !(old(this).value is Array) ==> (r matches Err(Error::RuntimeError(m))
            && m@ == not_array_message() && *final(this) == *old(this)),
        index_usize(*index) is Some && old(this).value is Array ==> (r matches Ok(o) && model(o) == model(value)
            && final(this).value is Array && elems(*final(this)) == stored_at(
            elems(*old(this)),
            index_usize(*index)->Some_0,
            value,
        )),
        final(this).tt == old(this).tt,
        final(this).object_id == old(this).object_id,
{
    let i = index.to_usize()?;
    match &mut this.value {
        RValue::Array(a) => {
            let stored = value.duplicate();
            if i < a.len() {
                a.set(i, value);
            } else {
                let ghost start = a@;
                while a.len() < i
                    invariant
                        start.len() <= a@.len() <= i,
                        a@ == start + Seq::new((a@.len() - start.len()) as nat, |_k: int| nil_object()),
                    decreases i - a@.len(),
                {
                    let ghost before = a@;
                    a.push(RObject::nil());
                    assert(a@ =~= start + Seq::new((a@.len() - start.len()) as nat, |_k: int| nil_object()));
                }
                a.push(value);
            }
            Ok(stored)
        },
        _ => Err(Error::RuntimeError(String::from_str("Array#push must be called on an Array"))),
    }
}

/// `Array#size`: the number of elements; anything but an array is refused.
pub fn mrb_array_size(this: &RObject) -> (r: Result<i64, Error>)
    requires
        elems(*this).len() <= i64::MAX,
    ensures
        this.value is Array ==> r == Ok::<i64, Error>(elems(*this).len() as i64),
        !(this.value is Array) ==> r matches Err(Error::TypeMismatch),
{
    match &this.value {
        RValue::Array(a) => Ok(a.len() as i64),
        _ => Err(Error::TypeMismatch),
    }
}

/// After `Array#[]=` at an index inside the array, `Array#[]` at that index
/// gives the stored value and every other element is unchanged.
pub proof fn lemma_set_index_then_get_index(before: Seq<RObject>, after: Seq<RObject>, i: int, value: RObject, other: int)
    requires
        0 <= i < before.len(),
        after == before.update(i, value),
    ensures
        after.len() == before.len(),
        after[i] == value,
        0 <= other < before.len() && other != i ==> after[other] == before[other],
{
}

/// After `Array#push`, the pushed values follow the earlier elements in
/// order.
pub proof fn lemma_push_then_get(before: Seq<RObject>, args: Seq<RObject>, after: Seq<RObject>, k: int)
    requires
        after == before + args,
    ensures
        after.len() == before.len() + args.len(),
        0 <= k < args.len() ==> after[before.len() + k] == args[k],
        0 <= k < before.len() ==> after[k] == before[k],
{
}

// ---------------------------------------------------------------------------
// Copies, membership and duplicates
// ---------------------------------------------------------------------------

/// Whether some element of `s` compares equal (`==`) to `x`.
pub open spec fn eq_in(s: Seq<RObject>, x: RObject) -> bool {
    exists|k: int| 0 <= k < s.len() && eq_value(#[trigger] s[k]) == eq_value(x)
}

/// `s` without the elements that compare equal to an earlier one.
pub open spec fn dedup(s: Seq<RObject>) -> Seq<RObject>
    decreases s.len(),
{
    if s.len() == 0 {
        s
    } else {
        let p = dedup(s.drop_last());
        if eq_in(p, s.last()) {
            p
        } else {
            p.push(s.last())
        }
    }
}

/// Membership depends on the models of the elements only.
proof fn lemma_eq_in_models(a: Seq<RObject>, b: Seq<RObject>, x: RObject)
    requires
        models(a) == models(b),
    ensures
        eq_in(a, x) == eq_in(b, x),
{
    assert(a.len() == models(a).len());
    assert(b.len() == models(b).len());
    if eq_in(a, x) {
        let k = choose|k: int| 0 <= k < a.len() && eq_value(#[trigger] a[k]) == eq_value(x);
        assert(models(a)[k] == model(a[k]));
        assert(models(b)[k] == model(b[k]));
        lemma_model_determines_equality(a[k], b[k]);
        assert(eq_value(b[k]) == eq_value(x));
    }
    if eq_in(b, x) {
        let k = choose|k: int| 0 <= k < b.len() && eq_value(#[trigger] b[k]) == eq_value(x);
        assert(models(a)[k] == model(a[k]));
        assert(models(b)[k] == model(b[k]));
        lemma_model_determines_equality(a[k], b[k]);
        assert(eq_value(a[k]) == eq_value(x));
    }
}

/// The models of a sequence with one more object.
proof fn lemma_models_push(s: Seq<RObject>, x: RObject)
    ensures
        models(s.push(x)) == models(s).push(model(x)),
{
    assert(models(s.push(x)) =~= models(s).push(model(x)));
}

/// The model of the object `RObject::nil()` makes.
pub open spec fn nil_model() -> crate::value::ObjectModel {
    model(RObject { tt: RType::Nil, value: RValue::Nil, object_id: 4 })
}

/// Copies of `v[lo..hi]`.
pub(crate) fn copy_range(v: &[RObject], lo: usize, hi: usize) -> (r: Vec<RObject>)
    requires
        lo <= hi <= v@.len(),
    ensures
        models(r@) == models(v@.subrange(lo as int, hi as int)),
{
    let mut out: Vec<RObject> = Vec::new();
    let mut i = lo;
    while i < hi
        invariant
            lo <= i <= hi <= v@.len(),
            models(out@) == models(v@.subrange(lo as int, i as int)),
        decreases hi - i,
    {
        let c = v[i].duplicate();
        let ghost before = out@;
        out.push(c);
        proof {
            lemma_models_push(before, c);
            lemma_models_push(v@.subrange(lo as int, i as int), v@[i as int]);
            assert(v@.subrange(lo as int, i as int).push(v@[i as int]) =~= v@.subrange(lo as int, i + 1));
        }
        i = i + 1;
    }
    out
}

/// Whether some element of `v` compares equal to `x`.
fn contains_eq(v: &[RObject], x: &RObject) -> (r: bool)
    ensures
        r == eq_in(v@, *x),
{
    let mut k: usize = 0;
    while k < v.len()
        invariant
            0 <= k <= v@.len(),
            forall|j: int| 0 <= j < k ==> eq_value(#[trigger] v@[j]) != eq_value(*x),
        decreases v@.len() - k,
    {
        if mrb_object_is_equal(&v[k], x) {
            return true;
        }
        k = k + 1;
    }
    false
}

/// Appends a copy of `x` to `out` unless an equal element is already there.
fn push_unique(out: &mut Vec<RObject>, x: &RObject, Ghost(shadow): Ghost<Seq<RObject>>)
    requires
        models(old(out)@) == models(shadow),
    ensures
        models(final(out)@) == models(if eq_in(shadow, *x) { shadow } else { shadow.push(*x) }),
{
    proof {
        lemma_eq_in_models(old(out)@, shadow, *x);
    }
    if !contains_eq(out.as_slice(), x) {
        let c = x.duplicate();
        let ghost before = out@;
        out.push(c);
        proof {
            lemma_models_push(before, c);
            lemma_models_push(shadow, *x);
        }
    }
}

/// Appends to `out` the elements of `src` that do not compare equal to an
/// element already there.
fn push_all_unique(out: &mut Vec<RObject>, src: &[RObject], Ghost(prefix): Ghost<Seq<RObject>>)
    requires
        models(old(out)@) == models(dedup(prefix)),
    ensures
        models(final(out)@) == models(dedup(prefix + src@)),
{
    let mut i: usize = 0;
    while i < src.len()
        invariant
            0 <= i <= src@.len(),
            models(out@) == models(dedup(prefix + src@.subrange(0, i as int))),
        decreases src@.len() - i,
    {
        let ghost before = prefix + src@.subrange(0, i as int);
        let ghost after = prefix + src@.subrange(0, i + 1);
        assert(after.drop_last() =~= before);
        assert(after.last() == src@[i as int]);
        push_unique(out, &src[i], Ghost(dedup(before)));
        i = i + 1;
    }
    assert(src@.subrange(0, src@.len() as int) =~= src@);
}

/// The elements of `xs` that compare equal to some element of `ys`, each
/// taken once, in the order of `xs`.
pub open spec fn intersect(xs: Seq<RObject>, ys: Seq<RObject>) -> Seq<RObject> {
    dedup(xs.filter(|x: RObject| eq_in(ys, x)))
}

/// A new array object holding `v`.
pub open spec fn is_new_array(o: RObject, v: Seq<crate::value::ObjectModel>) -> bool {
    &&& o.tt == RType::Array
    &&& o.value is Array
    &&& o.object_id == UNASSIGNED_ID
    &&& models(elems(o)) == v
}

/// The elements of an array object, or a type error.
fn array_of(this: &RObject) -> (r: Result<&Vec<RObject>, Error>)
    ensures
        this.value is Array ==> (r matches Ok(v) && v@ == elems(*this)),
        !(this.value is Array) ==> r matches Err(Error::TypeMismatch),
{
    match &this.value {
        RValue::Array(a) => Ok(a),
        _ => Err(Error::TypeMismatch),
    }
}

/// `Array#uniq`: the elements of `this`, each taken once.
pub fn mrb_array_uniq(this: &RObject) -> (r: Result<RObject, Error>)
    ensures
        this.value is Array ==> (r matches Ok(o) && is_new_array(o, models(dedup(elems(*this))))),
        !(this.value is Array) ==> r matches Err(Error::TypeMismatch),
{
    let v = array_of(this)?;
    let mut out: Vec<RObject> = Vec::new();
    assert(models(out@) =~= models(dedup(Seq::<RObject>::empty())));
    push_all_unique(&mut out, v.as_slice(), Ghost(Seq::empty()));
    assert(Seq::<RObject>::empty() + v@ =~= v@);
    Ok(RObject::array(out))
}

/// `Array#|`: the elements of both arrays, each taken once.
pub fn mrb_array_or(this: &RObject, other: &RObject) -> (r: Result<RObject, Error>)
    ensures
        this.value is Array && other.value is Array ==> (r matches Ok(o) && is_new_array(
            o,
            models(dedup(elems(*this) + elems(*other))),
        )),
        !(this.value is Array && other.value is Array) ==> r matches Err(Error::TypeMismatch),
{
    let a = array_of(this)?;
    let b = array_of(other)?;
    let mut out: Vec<RObject> = Vec::new();
    assert(models(out@) =~= models(dedup(Seq::<RObject>::empty())));
    push_all_unique(&mut out, a.as_slice(), Ghost(Seq::empty()));
    assert(Seq::<RObject>::empty() + a@ =~= a@);
    push_all_unique(&mut out, b.as_slice(), Ghost(a@));
    Ok(RObject::array(out))
}

/// `Array#&`: the elements of `this` that also occur in `other`, each taken
/// once.
pub fn mrb_array_and(this: &RObject, other: &RObject) -> (r: Result<RObject, Error>)
    ensures
        this.value is Array && other.value is Array ==> (r matches Ok(o) && is_new_array(
            o,
            models(intersect(elems(*this), elems(*other))),
        )),
        !(this.value is Array && other.value is Array) ==> r matches Err(Error::TypeMismatch),
{
    let a = array_of(this)?;
    let b = array_of(other)?;
    let ghost p = |x: RObject| eq_in(b@, x);
    let mut out: Vec<RObject> = Vec::new();
    let mut i: usize = 0;
    assert(a@.subrange(0, 0).filter(p) =~= Seq::<RObject>::empty());
    assert(models(out@) =~= models(dedup(Seq::<RObject>::empty())));
    while i < a.len()
        invariant
            0 <= i <= a@.len(),
            p == (|x: RObject| eq_in(b@, x)),
            models(out@) == models(dedup(a@.subrange(0, i as int).filter(p))),
        decreases a@.len() - i,
    {
        let ghost before = a@.subrange(0, i as int);
        let ghost after = a@.subrange(0, i + 1);
        assert(after.drop_last() =~= before);
        assert(after.last() == a@[i as int]);
        proof {
            reveal(Seq::filter);
        }
        if contains_eq(b.as_slice(), &a[i]) {
            let ghost f = before.filter(p);
            assert(after.filter(p) == f.push(a@[i as int]));
            assert(f.push(a@[i as int]).drop_last() =~= f);
            push_unique(&mut out, &a[i], Ghost(dedup(f)));
        } else {
            assert(after.filter(p) == before.filter(p));
        }
        i = i + 1;
    }
    assert(a@.subrange(0, a@.len() as int) =~= a@);
    Ok(RObject::array(out))
}

/// `Array#uniq!`: removes the later duplicates; `None` (nil) when there
/// were none, leaving the array as it was.
pub fn mrb_array_uniq_self(this: &mut RObject) -> (r: Result<bool, Error>)
    ensures
        !(old(this).value is Array) ==> (r matches Err(Error::TypeMismatch) && *final(this) == *old(this)),
        old(this).value is Array && dedup(elems(*old(this))).len() == elems(*old(this)).len() ==> (r == Ok::<
            bool,
            Error,
        >(false) && *final(this) == *old(this)),
        old(this).value is Array && dedup(elems(*old(this))).len() != elems(*old(this)).len() ==> (r == Ok::<
            bool,
            Error,
        >(true) && final(this).value is Array && models(elems(*final(this))) == models(
            dedup(elems(*old(this))),
        ) && final(this).tt == old(this).tt && final(this).object_id == old(this).object_id),
{
    let unique = mrb_array_uniq(this)?;
    let n = match &this.value {
        RValue::Array(a) => a.len(),
        _ => 0,
    };
    let m = match &unique.value {
        RValue::Array(u) => u.len(),
        _ => 0,
    };
    proof {
        assert(models(elems(unique)).len() == elems(unique).len());
    }
    if m == n {
        return Ok(false);
    }
    match unique.value {
        RValue::Array(u) => {
            this.value = RValue::Array(u);
        },
        _ => {},
    }
    Ok(true)
}

// ---------------------------------------------------------------------------
// Reading and taking elements
// ---------------------------------------------------------------------------

/// Whether an optional count argument is absent: not given, or `nil` (the
/// trailing block slot).
pub open spec fn no_count(n: Option<RObject>) -> bool {
    match n {
        None => true,
        Some(o) => o.value is Nil,
    }
}

/// An optional argument by value.
pub open spec fn opt_obj(n: Option<&RObject>) -> Option<RObject> {
    match n {
        Some(o) => Some(*o),
        None => None,
    }
}

/// The message of a negative count.
pub open spec fn negative_size_message() -> Seq<char> {
    "negative array size"@
}

/// `Array#first` and `Array#last`: what they answer for the elements `v`, a
/// count argument `n` and which end they take from.
pub open spec fn first_last_ok(v: Seq<RObject>, n: Option<RObject>, from_end: bool, r: Result<RObject, Error>) -> bool {
    if no_count(n) {
        r matches Ok(o) && model(o) == (if v.len() == 0 {
            nil_model()
        } else if from_end {
            model(v.last())
        } else {
            model(v[0])
        })
    } else {
        match integer_like(n->Some_0) {
            None => r matches Err(Error::TypeMismatch),
            Some(k) => if k < 0 {
                r matches Err(Error::ArgumentError(m)) && m@ == negative_size_message()
            } else {
                let c = if k < v.len() { k } else { v.len() as int };
                r matches Ok(o) && is_new_array(
                    o,
                    models(if from_end { v.subrange(v.len() - c, v.len() as int) } else { v.subrange(0, c) }),
                )
            },
        }
    }
}

fn first_last(this: &RObject, n: Option<&RObject>, from_end: bool) -> (r: Result<RObject, Error>)
    ensures
        !(this.value is Array) ==> r matches Err(Error::TypeMismatch),
        this.value is Array ==> first_last_ok(elems(*this), opt_obj(n), from_end, r),
{
    let v = array_of(this)?;
    let len = v.len();
    let count = match n {
        None => None,
        Some(o) => match &o.value {
            RValue::Nil => None,
            _ => Some(o.to_i64()?),
        },
    };
    match count {
        None => {
            if len == 0 {
                Ok(RObject::nil())
            } else if from_end {
                Ok(v[len - 1].duplicate())
            } else {
                Ok(v[0].duplicate())
            }
        },
        Some(k) => {
            if k < 0 {
                return Err(Error::ArgumentError(String::from_str("negative array size")));
            }
            let c: usize = if (k as u64) < (len as u64) { k as usize } else { len };
            let out = if from_end {
                copy_range(v.as_slice(), len - c, len)
            } else {
                copy_range(v.as_slice(), 0, c)
            };
            Ok(RObject::array(out))
        },
    }
}

/// `Array#first`: the first element (nil when empty), or a new array of the
/// first `n` elements.
pub fn mrb_array_first(this: &RObject, n: Option<&RObject>) -> (r: Result<RObject, Error>)
    ensures
        !(this.value is Array) ==> r matches Err(Error::TypeMismatch),
        this.value is Array ==> first_last_ok(elems(*this), opt_obj(n), false, r),
{
    first_last(this, n, false)
}

/// `Array#last`: the last element (nil when empty), or a new array of the
/// last `n` elements.
pub fn mrb_array_last(this: &RObject, n: Option<&RObject>) -> (r: Result<RObject, Error>)
    ensures
        !(this.value is Array) ==> r matches Err(Error::TypeMismatch),
        this.value is Array ==> first_last_ok(elems(*this), opt_obj(n), true, r),
{
    first_last(this, n, true)
}

/// `Array#include?`: whether some element compares equal to `search`.
pub fn mrb_array_include(this: &RObject, search: &RObject) -> (r: Result<bool, Error>)
    ensures
        this.value is Array ==> r == Ok::<bool, Error>(eq_in(elems(*this), *search)),
        !(this.value is Array) ==> r matches Err(Error::TypeMismatch),
{
    let v = array_of(this)?;
    Ok(contains_eq(v.as_slice(), search))
}

/// `Array#empty?`.
pub fn mrb_array_empty(this: &RObject) -> (r: Result<bool, Error>)
    ensures
        this.value is Array ==> r == Ok::<bool, Error>(elems(*this).len() == 0),
        !(this.value is Array) ==> r matches Err(Error::TypeMismatch),
{
    let v = array_of(this)?;
    Ok(v.len() == 0)
}

/// `Array#+`: a new array of the elements of `this` followed by those of
/// `other`.
pub fn mrb_array_add(this: &RObject, other: &RObject) -> (r: Result<RObject, Error>)
    ensures
        this.value is Array && other.value is Array ==> (r matches Ok(o) && is_new_array(
            o,
            models(elems(*this) + elems(*other)),
        )),
        !(this.value is Array && other.value is Array) ==> r matches Err(Error::TypeMismatch),
{
    let a = array_of(this)?;
    let b = array_of(other)?;
    let mut out = copy_range(a.as_slice(), 0, a.len());
    let mut rest = copy_range(b.as_slice(), 0, b.len());
    let ghost m1 = out@;
    let ghost m2 = rest@;
    out.append(&mut rest);
    proof {
        assert(a@.subrange(0, a@.len() as int) =~= a@);
        assert(b@.subrange(0, b@.len() as int) =~= b@);
        assert(out@ == m1 + m2);
        assert(models(m1 + m2) =~= models(m1) + models(m2));
        assert(models(a@ + b@) =~= models(a@) + models(b@));
    }
    Ok(RObject::array(out))
}

/// `Array#dup`: a new array of copies of the elements.
pub fn mrb_array_dup(this: &RObject) -> (r: Result<RObject, Error>)
    ensures
        this.value is Array ==> (r matches Ok(o) && is_new_array(o, models(elems(*this)))),
        !(this.value is Array) ==> r matches Err(Error::TypeMismatch),
{
    let a = array_of(this)?;
    let out = copy_range(a.as_slice(), 0, a.len());
    assert(a@.subrange(0, a@.len() as int) =~= a@);
    Ok(RObject::array(out))
}

/// `Array#pop`: removes and gives the last element (nil when empty).
pub fn mrb_array_pop(this: &mut RObject) -> (r: Result<RObject, Error>)
    ensures
        !(old(this).value is Array) ==> (r matches Err(Error::TypeMismatch) && *final(this) == *old(this)),
        old(this).value is Array && elems(*old(this)).len() == 0 ==> (r matches Ok(o) && model(o) == nil_model()
            && *final(this) == *old(this)),
        old(this).value is Array && elems(*old(this)).len() > 0 ==> (r == Ok::<RObject, Error>(
            elems(*old(this)).last(),
        ) && final(this).value is Array && elems(*final(this)) == elems(*old(this)).drop_last()),
        final(this).tt == old(this).tt,
        final(this).object_id == old(this).object_id,
{
    match &mut this.value {
        RValue::Array(a) => {
            if a.len() == 0 {
                return Ok(RObject::nil());
            }
            match a.pop() {
                Some(x) => Ok(x),
                None => Ok(RObject::nil()),
            }
        },
        _ => Err(Error::TypeMismatch),
    }
}

/// `Array#shift`: removes and gives the first element (nil when empty).
pub fn mrb_array_shift(this: &mut RObject) -> (r: Result<RObject, Error>)
    ensures
        !(old(this).value is Array) ==> (r matches Err(Error::TypeMismatch) && *final(this) == *old(this)),
        old(this).value is Array && elems(*old(this)).len() == 0 ==> (r matches Ok(o) && model(o) == nil_model()
            && *final(this) == *old(this)),
        old(this).value is Array && elems(*old(this)).len() > 0 ==> (r == Ok::<RObject, Error>(elems(*old(this))[0])
            && final(this).value is Array && elems(*final(this)) == elems(*old(this)).drop_first()),
        final(this).tt == old(this).tt,
        final(this).object_id == old(this).object_id,
{
    match &mut this.value {
        RValue::Array(a) => {
            if a.len() == 0 {
                Ok(RObject::nil())
            } else {
                let x = a.remove(0);
                Ok(x)
            }
        },
        _ => Err(Error::TypeMismatch),
    }
}

/// `Array#unshift`: puts `args` (but a trailing `nil`) in front of the
/// elements, in order.
pub fn mrb_array_unshift(this: &mut RObject, args: Vec<RObject>) -> (r: Result<(), Error>)
    requires
        old(this).value is Array ==> args@.len() > 0,
    ensures
        !(old(this).value is Array) ==> (r matches Err(Error::TypeMismatch) && *final(this) == *old(this)),
        old(this).value is Array ==> r is Ok && final(this).value is Array && elems(*final(this))
            == without_trailing_nil(args@) + elems(*old(this)),
        final(this).tt == old(this).tt,
        final(this).object_id == old(this).object_id,
{
    match &mut this.value {
        RValue::Array(a) => {
            let mut front = args;
            let n = front.len();
            let drop_last = match &front[n - 1].value {
                RValue::Nil => true,
                _ => false,
            };
            if drop_last {
                front.pop();
            }
            let ghost f = front@;
            let ghost old_a = a@;
            let mut rest: Vec<RObject> = Vec::new();
            std::mem::swap(&mut rest, a);
            front.append(&mut rest);
            *a = front;
            assert(a@ == f + old_a);
            Ok(())
        },
        _ => Err(Error::TypeMismatch),
    }
}

/// `Array#delete_at`: removes and gives the element at `index` (counted
/// from the end when negative); nil when there is none.
pub fn mrb_array_delete_at(this: &mut RObject, index: &RObject) -> (r: Result<RObject, Error>)
    requires
        elems(*old(this)).len() <= i64::MAX,
    ensures
        integer_like(*index) is None ==> (r matches Err(Error::TypeMismatch) && *final(this) == *old(this)),
        integer_like(*index) is Some && !(old(this).value is Array) ==> (r matches Err(Error::TypeMismatch)
            && *final(this) == *old(this)),
        integer_like(*index) is Some && old(this).value is Array ==> ({
            let len = elems(*old(this)).len() as int;
            let k = integer_like(*index)->Some_0;
            let idx = if k < 0 { len + k } else { k };
            &&& (idx < 0 || idx >= len) ==> (r matches Ok(o) && model(o) == nil_model() && *final(this) == *old(this))
            &&& (0 <= idx < len) ==> (r == Ok::<RObject, Error>(elems(*old(this))[idx]) && final(this).value is Array
                && elems(*final(this)) == elems(*old(this)).remove(idx))
        }),
        final(this).tt == old(this).tt,
        final(this).object_id == old(this).object_id,
{
    let index = index.to_i64()?;
    match &mut this.value {
        RValue::Array(a) => {
            let len = a.len() as i64;
            if index < 0 && index < -len {
                return Ok(RObject::nil());
            }
            let idx = if index < 0 { len + index } else { index };
            if idx >= len {
                return Ok(RObject::nil());
            }
            let x = a.remove(idx as usize);
            Ok(x)
        },
        _ => Err(Error::TypeMismatch),
    }
}

/// `Array#clear`: removes every element.
pub fn mrb_array_clear(this: &mut RObject) -> (r: Result<(), Error>)
    ensures
        !(old(this).value is Array) ==> (r matches Err(Error::TypeMismatch) && *final(this) == *old(this)),
        old(this).value is Array ==> r is Ok && final(this).value is Array && elems(*final(this)).len() == 0,
        final(this).tt == old(this).tt,
        final(this).object_id == old(this).object_id,
{
    match &mut this.value {
        RValue::Array(a) => {
            a.clear();
            Ok(())
        },
        _ => Err(Error::TypeMismatch),
    }
}

// ---------------------------------------------------------------------------
// Laws of uniq, | and &
// ---------------------------------------------------------------------------

/// Removing duplicates keeps exactly the values that occur, each once, and
/// only elements of the original sequence.
pub proof fn lemma_dedup(s: Seq<RObject>)
    ensures
        forall|y: RObject| #[trigger] eq_in(dedup(s), y) == eq_in(s, y),
        forall|i: int, j: int|
            0 <= i < j < dedup(s).len() ==> eq_value(#[trigger] dedup(s)[i]) != eq_value(#[trigger] dedup(s)[j]),
        forall|i: int| 0 <= i < dedup(s).len() ==> s.contains(#[trigger] dedup(s)[i]),
    decreases s.len(),
{
    if s.len() > 0 {
        let p = s.drop_last();
        let x = s.last();
        lemma_dedup(p);
        let d0 = dedup(p);
        assert forall|y: RObject| #[trigger] eq_in(s, y) == (eq_in(p, y) || eq_value(x) == eq_value(y)) by {
            if eq_in(s, y) {
                let k = choose|k: int| 0 <= k < s.len() && eq_value(#[trigger] s[k]) == eq_value(y);
                if k < p.len() {
                    assert(p[k] == s[k]);
                }
            }
            if eq_in(p, y) {
                let k = choose|k: int| 0 <= k < p.len() && eq_value(#[trigger] p[k]) == eq_value(y);
                assert(s[k] == p[k]);
            }
            if eq_value(x) == eq_value(y) {
                assert(s[s.len() - 1] == x);
            }
        }
        if eq_in(d0, x) {
            assert forall|y: RObject| #[trigger] eq_in(dedup(s), y) == eq_in(s, y) by {
                assert(eq_in(s, y) == (eq_in(p, y) || eq_value(x) == eq_value(y)));
                if eq_value(x) == eq_value(y) {
                    let k = choose|k: int| 0 <= k < d0.len() && eq_value(#[trigger] d0[k]) == eq_value(x);
                    assert(eq_value(d0[k]) == eq_value(y));
                }
            }
            assert forall|i: int| 0 <= i < dedup(s).len() implies s.contains(#[trigger] dedup(s)[i]) by {
                let k = choose|k: int| 0 <= k < p.len() && p[k] == d0[i];
                assert(s[k] == p[k]);
            }
        } else {
            let d = d0.push(x);
            assert(dedup(s) == d);
            assert forall|y: RObject| #[trigger] eq_in(dedup(s), y) == eq_in(s, y) by {
                assert(eq_in(s, y) == (eq_in(p, y) || eq_value(x) == eq_value(y)));
                if eq_in(d, y) {
                    let k = choose|k: int| 0 <= k < d.len() && eq_value(#[trigger] d[k]) == eq_value(y);
                    if k < d0.len() {
                        assert(d0[k] == d[k]);
                        assert(eq_in(d0, y));
                    }
                }
                if eq_in(d0, y) {
                    let k = choose|k: int| 0 <= k < d0.len() && eq_value(#[trigger] d0[k]) == eq_value(y);
                    assert(d[k] == d0[k]);
                }
                if eq_value(x) == eq_value(y) {
                    assert(d[d.len() - 1] == x);
                }
            }
            assert forall|i: int, j: int| 0 <= i < j < d.len() implies eq_value(#[trigger] d[i]) != eq_value(
                #[trigger] d[j],
            ) by {
                if j == d.len() - 1 {
                    assert(d[i] == d0[i]);
                    if eq_value(d0[i]) == eq_value(x) {
                        assert(eq_in(d0, x));
                    }
                } else {
                    assert(d[i] == d0[i] && d[j] == d0[j]);
                }
            }
            assert forall|i: int| 0 <= i < d.len() implies s.contains(#[trigger] d[i]) by {
                if i == d.len() - 1 {
                    assert(s[s.len() - 1] == x);
                } else {
                    assert(d[i] == d0[i]);
                    let k = choose|k: int| 0 <= k < p.len() && p[k] == d0[i];
                    assert(s[k] == p[k]);
                }
            }
        }
    }
}

/// Membership by `==` depends on the value compared only.
proof fn lemma_eq_in_same_value(s: Seq<RObject>, x: RObject, y: RObject)
    requires
        eq_value(x) == eq_value(y),
    ensures
        eq_in(s, x) == eq_in(s, y),
{
    if eq_in(s, x) {
        let k = choose|k: int| 0 <= k < s.len() && eq_value(#[trigger] s[k]) == eq_value(x);
        assert(eq_value(s[k]) == eq_value(y));
    }
    if eq_in(s, y) {
        let k = choose|k: int| 0 <= k < s.len() && eq_value(#[trigger] s[k]) == eq_value(y);
        assert(eq_value(s[k]) == eq_value(x));
    }
}

/// The elements of `a` kept by the filter of `&` are those equal to an
/// element of `b`.
proof fn lemma_filter_in(a: Seq<RObject>, b: Seq<RObject>, y: RObject)
    ensures
        eq_in(a.filter(|x: RObject| eq_in(b, x)), y) == (eq_in(a, y) && eq_in(b, y)),
    decreases a.len(),
{
    reveal(Seq::filter);
    let p = |x: RObject| eq_in(b, x);
    if a.len() > 0 {
        let q = a.drop_last();
        let x = a.last();
        lemma_filter_in(q, b, y);
        let f0 = q.filter(p);
        let f = a.filter(p);
        assert(eq_in(a, y) == (eq_in(q, y) || eq_value(x) == eq_value(y))) by {
            if eq_in(a, y) {
                let k = choose|k: int| 0 <= k < a.len() && eq_value(#[trigger] a[k]) == eq_value(y);
                if k < q.len() {
                    assert(q[k] == a[k]);
                }
            }
            if eq_in(q, y) {
                let k = choose|k: int| 0 <= k < q.len() && eq_value(#[trigger] q[k]) == eq_value(y);
                assert(a[k] == q[k]);
            }
            if eq_value(x) == eq_value(y) {
                assert(a[a.len() - 1] == x);
            }
        }
        if eq_value(x) == eq_value(y) {
            lemma_eq_in_same_value(b, x, y);
        }
        if p(x) {
            assert(f == f0.push(x));
            if eq_in(f, y) {
                let k = choose|k: int| 0 <= k < f.len() && eq_value(#[trigger] f[k]) == eq_value(y);
                if k < f0.len() {
                    assert(f0[k] == f[k]);
                }
            }
            if eq_in(f0, y) {
                let k = choose|k: int| 0 <= k < f0.len() && eq_value(#[trigger] f0[k]) == eq_value(y);
                assert(f[k] == f0[k]);
            }
            if eq_value(x) == eq_value(y) {
                assert(f[f.len() - 1] == x);
            }
        } else {
            assert(f == f0);
        }
    }
}

/// `a | b` holds, once each, the values that occur in `a` or in `b`; `a & b`
/// those that occur in both.
pub proof fn lemma_union_intersection(a: Seq<RObject>, b: Seq<RObject>, y: RObject)
    ensures
        eq_in(dedup(a + b), y) == (eq_in(a, y) || eq_in(b, y)),
        eq_in(intersect(a, b), y) == (eq_in(a, y) && eq_in(b, y)),
{
    lemma_dedup(a + b);
    let ab = a + b;
    if eq_in(ab, y) {
        let k = choose|k: int| 0 <= k < ab.len() && eq_value(#[trigger] ab[k]) == eq_value(y);
        if k < a.len() {
            assert(a[k] == ab[k]);
        } else {
            assert(b[k - a.len()] == ab[k]);
        }
    }
    if eq_in(a, y) {
        let k = choose|k: int| 0 <= k < a.len() && eq_value(#[trigger] a[k]) == eq_value(y);
        assert(ab[k] == a[k]);
    }
    if eq_in(b, y) {
        let k = choose|k: int| 0 <= k < b.len() && eq_value(#[trigger] b[k]) == eq_value(y);
        assert(ab[a.len() + k] == b[k]);
    }
    lemma_dedup(a.filter(|x: RObject| eq_in(b, x)));
    lemma_filter_in(a, b, y);
}

/// The texts of `parts` with `sep` between each two of them.
pub open spec fn joined(parts: Seq<Seq<char>>, sep: Seq<char>) -> Seq<char>
    decreases parts.len(),
{
    if parts.len() == 0 {
        Seq::empty()
    } else if parts.len() == 1 {
        parts[0]
    } else {
        joined(parts.drop_last(), sep) + sep + parts.last()
    }
}

/// The texts of some strings.
pub open spec fn texts(parts: Seq<String>) -> Seq<Seq<char>> {
    parts.map_values(|p: String| p@)
}

/// `Array#join(sep)`, given the `to_s` of each element: the texts with `sep`
/// between each two of them.
pub fn mrb_array_join(parts: &[String], sep: &str) -> (r: String)
    ensures
        r@ == joined(texts(parts@), sep@),
{
    let mut out = String::new();
    let mut i: usize = 0;
    while i < parts.len()
        invariant
            i <= parts@.len(),
            out@ == joined(texts(parts@).subrange(0, i as int), sep@),
        decreases parts@.len() - i,
    {
        let ghost before = out@;
        if i > 0 {
            out.append(sep);
        }
        out.append(parts[i].as_str());
        proof {
            let t = texts(parts@);
            assert(t.subrange(0, i + 1).drop_last() =~= t.subrange(0, i as int));
            assert(t.subrange(0, i + 1).last() == parts@[i as int]@);
            if i == 0 {
                assert(before =~= Seq::<char>::empty());
                assert(out@ =~= t.subrange(0, 1)[0]);
            } else {
                assert(out@ =~= before + sep@ + parts@[i as int]@);
            }
        }
        i = i + 1;
    }
    assert(texts(parts@).subrange(0, parts@.len() as int) =~= texts(parts@));
    out
}

/// `Array#inspect`, given the `inspect` of each element: the texts between
/// brackets, separated by `, `.
pub fn mrb_array_inspect(parts: &[String]) -> (r: String)
    ensures
        r@ == "["@ + joined(texts(parts@), ", "@) + "]"@,
{
    let inner = mrb_array_join(parts, ", ");
    let mut out = String::from_str("[");
    out.append(inner.as_str());
    out.append("]");
    out
}

} // verus!
