//! The `Enumerable` methods that take no block, on arrays: `to_a`,
//! `compact`, `count`, `uniq`, `sort`, `min`, `max`, `minmax` and `sum`.
//! Ordering and adding go through `<=>` and `+`, which this library holds
//! for integers only. `sort` leaves an array holding anything else in its
//! order (no two of its elements compare), `min` and `max` answer the
//! element of a one-element array whatever it is, and otherwise those
//! methods refuse such arrays.
use vstd::prelude::*;
use crate::error::Error;
use crate::value::{RObject, RValue, ObjectModel, ValueModel, model, models};
use crate::array::{elems, is_new_array, nil_model, copy_range, dedup, mrb_array_uniq};

verus! {

broadcast use vstd::seq_lib::group_to_multiset_ensures;

/// The integer an object model holds (zero for any other).
pub open spec fn model_int(m: ObjectModel) -> int {
    match m.value {
        ValueModel::Integer(i) => i as int,
        _ => 0,
    }
}

/// Whether every element is an integer.
pub open spec fn all_integers(v: Seq<RObject>) -> bool {
    forall|k: int| 0 <= k < v.len() ==> (#[trigger] v[k]).value is Integer
}

/// Whether the models are in ascending order of their integers.
pub open spec fn sorted_models(s: Seq<ObjectModel>) -> bool {
    forall|i: int, j: int| 0 <= i < j < s.len() ==> model_int(#[trigger] s[i]) <= model_int(#[trigger] s[j])
}

/// The integer of an integer object.
fn int_of(o: &RObject) -> (r: i64)
    requires
        o.value is Integer,
    ensures
        r == model_int(model(*o)),
{
    match &o.value {
        RValue::Integer(i) => *i,
        _ => 0,
    }
}

/// Whether every element of `v` is an integer.
fn check_integers(v: &[RObject]) -> (r: bool)
    ensures
        r == all_integers(v@),
{
    let mut k: usize = 0;
    while k < v.len()
        invariant
            0 <= k <= v@.len(),
            forall|j: int| 0 <= j < k ==> (#[trigger] v@[j]).value is Integer,
        decreases v@.len() - k,
    {
        match &v[k].value {
            RValue::Integer(_) => {},
            _ => {
                return false;
            },
        }
        k = k + 1;
    }
    true
}

/// The elements of an array object, or a type error.
fn array_elems(this: &RObject) -> (r: Result<&Vec<RObject>, Error>)
    ensures
        this.value is Array ==> (r matches Ok(v) && v@ == elems(*this)),
        !(this.value is Array) ==> r matches Err(Error::TypeMismatch),
{
    match &this.value {
        RValue::Array(a) => Ok(a),
        _ => Err(Error::TypeMismatch),
    }
}

proof fn lemma_models_insert(s: Seq<RObject>, pos: int, x: RObject)
    requires
        0 <= pos <= s.len(),
    ensures
        models(s.insert(pos, x)) == models(s).insert(pos, model(x)),
{
    assert(models(s.insert(pos, x)) =~= models(s).insert(pos, model(x)));
}

proof fn lemma_insert_to_multiset(s: Seq<ObjectModel>, pos: int, x: ObjectModel)
    requires
        0 <= pos <= s.len(),
    ensures
        s.insert(pos, x).to_multiset() == s.to_multiset().insert(x),
{
    let t = s.insert(pos, x);
    assert(t.remove(pos) =~= s);
    assert(t[pos] == x);
    assert(t.to_multiset().remove(x) == s.to_multiset());
    assert(t.contains(x));
    assert(t.to_multiset().count(x) > 0);
    assert(t.to_multiset() =~= s.to_multiset().insert(x));
}

/// `Enumerable#sort`: on an array of integers, a new array of its elements
/// in ascending order; on an array holding anything else, whose elements do
/// not compare, a new array of its elements in their order.
pub fn mrb_enumerable_sort(this: &RObject) -> (r: Result<RObject, Error>)
    ensures
        !(this.value is Array) ==> r matches Err(Error::TypeMismatch),
        this.value is Array && !all_integers(elems(*this)) ==> (r matches Ok(o) && is_new_array(o, models(elems(*this)))),
        this.value is Array && all_integers(elems(*this)) ==> (r matches Ok(o) && is_new_array(
            o,
            models(elems(o)),
        ) && sorted_models(models(elems(o))) && models(elems(o)).to_multiset() == models(
            elems(*this),
        ).to_multiset()),
{
    let v = array_elems(this)?;
    if !check_integers(v.as_slice()) {
        let same = copy_range(v.as_slice(), 0, v.len());
        assert(v@.subrange(0, v@.len() as int) =~= v@);
        return Ok(RObject::array(same));
    }
    let mut out: Vec<RObject> = Vec::new();
    let mut i: usize = 0;
    while i < v.len()
        invariant
            0 <= i <= v@.len(),
            all_integers(v@),
            all_integers(out@),
            out@.len() == i,
            sorted_models(models(out@)),
            models(out@).to_multiset() == models(v@.subrange(0, i as int)).to_multiset(),
        decreases v@.len() - i,
    {
        let x = v[i].duplicate();
        let xi = int_of(&v[i]);
        let mut pos: usize = 0;
        while pos < out.len() && int_of(&out[pos]) <= xi
            invariant
                0 <= pos <= out@.len(),
                all_integers(out@),
                forall|j: int| 0 <= j < pos ==> model_int(#[trigger] models(out@)[j]) <= xi,
            decreases out@.len() - pos,
        {
            proof {
                assert(models(out@)[pos as int] == model(out@[pos as int]));
            }
            pos = pos + 1;
        }
        let ghost before = out@;
        proof {
            assert(all_integers(before));
            if pos < before.len() {
                assert(models(before)[pos as int] == model(before[pos as int]));
                assert(model_int(models(before)[pos as int]) > xi);
            }
        }
        out.insert(pos, x);
        proof {
            lemma_models_insert(before, pos as int, x);
            lemma_insert_to_multiset(models(before), pos as int, model(x));
            let mb = models(before);
            let ma = models(out@);
            assert(model_int(model(x)) == xi);
            assert forall|a: int, b: int| 0 <= a < b < ma.len() implies model_int(#[trigger] ma[a]) <= model_int(
                #[trigger] ma[b],
            ) by {
                if b < pos {
                    assert(ma[a] == mb[a] && ma[b] == mb[b]);
                } else if b == pos {
                    assert(ma[a] == mb[a]);
                } else if a == pos {
                    assert(ma[b] == mb[b - 1]);
                    assert(model_int(mb[pos as int]) > xi);
                    if b - 1 > pos {
                        assert(model_int(mb[pos as int]) <= model_int(mb[b - 1]));
                    }
                } else if a < pos {
                    assert(ma[a] == mb[a] && ma[b] == mb[b - 1]);
                } else {
                    assert(ma[a] == mb[a - 1] && ma[b] == mb[b - 1]);
                }
            }
            assert(v@.subrange(0, i + 1) =~= v@.subrange(0, i as int).push(v@[i as int]));
            assert(models(v@.subrange(0, i + 1)) =~= models(v@.subrange(0, i as int)).push(model(v@[i as int])));
            assert forall|k: int| 0 <= k < out@.len() implies (#[trigger] out@[k]).value is Integer by {
                if k < pos {
                    assert(out@[k] == before[k]);
                } else if k > pos {
                    assert(out@[k] == before[k - 1]);
                } else {
                    assert(model(out@[k]) == model(v@[i as int]));
                    assert(v@[i as int].value is Integer);
                }
            }
        }
        i = i + 1;
    }
    assert(v@.subrange(0, v@.len() as int) =~= v@);
    Ok(RObject::array(out))
}

/// The integer of an element.
pub open spec fn int_at(v: Seq<RObject>, k: int) -> int {
    model_int(model(v[k]))
}

/// Whether `v[k]` is the first of the smallest (`least`) or of the largest
/// integers of `v`.
pub open spec fn first_extreme_at(v: Seq<RObject>, k: int, least: bool) -> bool {
    &&& 0 <= k < v.len()
    &&& forall|j: int| 0 <= j < v.len() ==> (if least { int_at(v, k) <= #[trigger] int_at(v, j) } else { int_at(v, j) <= int_at(v, k) })
    &&& forall|j: int| 0 <= j < k ==> (if least { int_at(v, k) < #[trigger] int_at(v, j) } else { int_at(v, j) < int_at(v, k) })
}

/// The index of the first smallest (or largest) integer of a non-empty
/// array of integers.
fn extreme_index(v: &[RObject], least: bool) -> (r: usize)
    requires
        v@.len() > 0,
        all_integers(v@),
    ensures
        first_extreme_at(v@, r as int, least),
{
    let mut best: usize = 0;
    let mut j: usize = 1;
    while j < v.len()
        invariant
            1 <= j <= v@.len(),
            all_integers(v@),
            best < j,
            forall|t: int| 0 <= t < j ==> (if least { int_at(v@, best as int) <= #[trigger] int_at(v@, t) } else { int_at(v@, t) <= int_at(v@, best as int) }),
            forall|t: int| 0 <= t < best ==> (if least { int_at(v@, best as int) < #[trigger] int_at(v@, t) } else { int_at(v@, t) < int_at(v@, best as int) }),
        decreases v@.len() - j,
    {
        let x = int_of(&v[j]);
        let b = int_of(&v[best]);
        if (least && x < b) || (!least && b < x) {
            best = j;
        }
        j = j + 1;
    }
    best
}

/// What `min` or `max` answers for the elements `v` of an array.
pub open spec fn extreme_ok(v: Seq<RObject>, least: bool, r: Result<RObject, Error>) -> bool {
    if v.len() == 0 {
        r matches Ok(o) && model(o) == nil_model()
    } else if v.len() == 1 {
        r matches Ok(o) && model(o) == model(v[0])
    } else if !all_integers(v) {
        r matches Err(Error::TypeMismatch)
    } else {
        r matches Ok(o) && exists|k: int| first_extreme_at(v, k, least) && model(o) == model(#[trigger] v[k])
    }
}

fn extreme(this: &RObject, least: bool) -> (r: Result<RObject, Error>)
    ensures
        !(this.value is Array) ==> r matches Err(Error::TypeMismatch),
        this.value is Array ==> extreme_ok(elems(*this), least, r),
{
    let v = array_elems(this)?;
    if v.len() == 0 {
        return Ok(RObject::nil());
    }
    if v.len() == 1 {
        return Ok(v[0].duplicate());
    }
    if !check_integers(v.as_slice()) {
        return Err(Error::TypeMismatch);
    }
    let k = extreme_index(v.as_slice(), least);
    Ok(v[k].duplicate())
}

/// `Enumerable#min`: (a copy of) the first smallest integer, the only
/// element of a one-element array, `nil` for an empty array.
pub fn mrb_enumerable_min(this: &RObject) -> (r: Result<RObject, Error>)
    ensures
        !(this.value is Array) ==> r matches Err(Error::TypeMismatch),
        this.value is Array ==> extreme_ok(elems(*this), true, r),
{
    extreme(this, true)
}

/// `Enumerable#max`: (a copy of) the first largest integer, the only
/// element of a one-element array, `nil` for an empty array.
pub fn mrb_enumerable_max(this: &RObject) -> (r: Result<RObject, Error>)
    ensures
        !(this.value is Array) ==> r matches Err(Error::TypeMismatch),
        this.value is Array ==> extreme_ok(elems(*this), false, r),
{
    extreme(this, false)
}

/// `Enumerable#minmax`: a new array of what `min` and `max` answer,
/// `[nil, nil]` when empty.
pub fn mrb_enumerable_minmax(this: &RObject) -> (r: Result<RObject, Error>)
    ensures
        !(this.value is Array) ==> r matches Err(Error::TypeMismatch),
        this.value is Array && !all_integers(elems(*this)) && elems(*this).len() >= 2 ==> r matches Err(Error::TypeMismatch),
        this.value is Array && (all_integers(elems(*this)) || elems(*this).len() < 2) ==> (r matches Ok(o) && o.value is Array && elems(
            o,
        ).len() == 2 && extreme_ok(elems(*this), true, Ok::<RObject, Error>(elems(o)[0])) && extreme_ok(
            elems(*this),
            false,
            Ok::<RObject, Error>(elems(o)[1]),
        )),
{
    let lo = extreme(this, true)?;
    let hi = extreme(this, false)?;
    let out = vec![lo, hi];
    Ok(RObject::array(out))
}

/// The sum of the integers of `v`.
pub open spec fn sum_ints(v: Seq<RObject>) -> int
    decreases v.len(),
{
    if v.len() == 0 {
        0
    } else {
        sum_ints(v.drop_last()) + int_at(v, v.len() - 1)
    }
}

/// The message of a sum that leaves the 64-bit integers (where mruby turns
/// to floating point, which this library does not hold).
pub open spec fn overflow_message() -> Seq<char> {
    "integer overflow"@
}

/// `Enumerable#sum(init = 0)` on an array of integers: `init` plus the
/// elements; a trailing `nil` argument counts as none.
pub fn mrb_enumerable_sum(this: &RObject, init: Option<&RObject>) -> (r: Result<RObject, Error>)
    requires
        elems(*this).len() < 0x4000_0000_0000_0000,
    ensures
        ({
            let start: Option<int> = match init {
                None => Some(0int),
                Some(o) => match o.value {
                    RValue::Nil => Some(0int),
                    RValue::Integer(i) => Some(i as int),
                    _ => None,
                },
            };
            &&& !(this.value is Array) ==> (r matches Err(Error::TypeMismatch))
            &&& this.value is Array && (start is None || !all_integers(elems(*this))) ==> (r matches Err(Error::TypeMismatch))
            &&& this.value is Array && start is Some && all_integers(elems(*this)) ==> {
                let total = start->Some_0 + sum_ints(elems(*this));
                &&& i64::MIN <= total <= i64::MAX ==> (r matches Ok(o) && o.value == RValue::Integer(total as i64)
                    && o.tt == crate::value::RType::Integer && o.object_id == crate::value::integer_object_id(total as i64))
                &&& !(i64::MIN <= total <= i64::MAX) ==> (r matches Err(Error::RangeError(m)) && m@ == overflow_message())
            }
        }),
{
    let v = array_elems(this)?;
    let start: i64 = match init {
        None => 0,
        Some(o) => match &o.value {
            RValue::Nil => 0,
            RValue::Integer(i) => *i,
            _ => {
                return Err(Error::TypeMismatch);
            },
        },
    };
    if !check_integers(v.as_slice()) {
        return Err(Error::TypeMismatch);
    }
    let mut acc: i128 = start as i128;
    let mut k: usize = 0;
    while k < v.len()
        invariant
            0 <= k <= v@.len(),
            v@.len() < 0x4000_0000_0000_0000,
            all_integers(v@),
            acc == start + sum_ints(v@.subrange(0, k as int)),
            -(k + 1) * 0x8000_0000_0000_0000 <= acc <= (k + 1) * 0x8000_0000_0000_0000,
        decreases v@.len() - k,
    {
        let x = int_of(&v[k]);
        proof {
            assert(v@.subrange(0, k + 1).drop_last() =~= v@.subrange(0, k as int));
            assert(int_at(v@.subrange(0, k + 1), k as int) == int_at(v@, k as int));
        }
        acc = acc + x as i128;
        k = k + 1;
    }
    assert(v@.subrange(0, v@.len() as int) =~= v@);
    if acc < i64::MIN as i128 || acc > i64::MAX as i128 {
        return Err(Error::RangeError(String::from_str("integer overflow")));
    }
    Ok(RObject::integer(acc as i64))
}

/// `Enumerable#count` with no argument: the number of elements.
pub fn mrb_enumerable_count(this: &RObject) -> (r: Result<i64, Error>)
    requires
        elems(*this).len() <= i64::MAX,
    ensures
        this.value is Array ==> r == Ok::<i64, Error>(elems(*this).len() as i64),
        !(this.value is Array) ==> r matches Err(Error::TypeMismatch),
{
    let v = array_elems(this)?;
    Ok(v.len() as i64)
}

/// `Enumerable#to_a`: a new array of (copies of) the elements.
pub fn mrb_enumerable_to_a(this: &RObject) -> (r: Result<RObject, Error>)
    ensures
        this.value is Array ==> (r matches Ok(o) && is_new_array(o, models(elems(*this)))),
        !(this.value is Array) ==> r matches Err(Error::TypeMismatch),
{
    let v = array_elems(this)?;
    let out = copy_range(v.as_slice(), 0, v.len());
    assert(v@.subrange(0, v@.len() as int) =~= v@);
    Ok(RObject::array(out))
}

/// `Enumerable#uniq`: the elements, each value taken once.
pub fn mrb_enumerable_uniq(this: &RObject) -> (r: Result<RObject, Error>)
    ensures
        this.value is Array ==> (r matches Ok(o) && is_new_array(o, models(dedup(elems(*this))))),
        !(this.value is Array) ==> r matches Err(Error::TypeMismatch),
{
    mrb_array_uniq(this)
}

/// The elements that are not `nil`, in order.
pub open spec fn non_nil(v: Seq<RObject>) -> Seq<RObject>
    decreases v.len(),
{
    if v.len() == 0 {
        v
    } else if v.last().value is Nil {
        non_nil(v.drop_last())
    } else {
        non_nil(v.drop_last()).push(v.last())
    }
}

/// `Enumerable#compact`: a new array of the elements that are not `nil`.
pub fn mrb_enumerable_compact(this: &RObject) -> (r: Result<RObject, Error>)
    ensures
        this.value is Array ==> (r matches Ok(o) && is_new_array(o, models(non_nil(elems(*this))))),
        !(this.value is Array) ==> r matches Err(Error::TypeMismatch),
{
    let v = array_elems(this)?;
    let mut out: Vec<RObject> = Vec::new();
    let mut k: usize = 0;
    while k < v.len()
        invariant
            0 <= k <= v@.len(),
            models(out@) == models(non_nil(v@.subrange(0, k as int))),
        decreases v@.len() - k,
    {
        let ghost before = out@;
        proof {
            assert(v@.subrange(0, k + 1).drop_last() =~= v@.subrange(0, k as int));
            assert(v@.subrange(0, k + 1).last() == v@[k as int]);
        }
        match &v[k].value {
            RValue::Nil => {},
            _ => {
                let c = v[k].duplicate();
                out.push(c);
                proof {
                    assert(models(out@) =~= models(before).push(model(c)));
                    assert(models(non_nil(v@.subrange(0, k as int)).push(v@[k as int])) =~= models(
                        non_nil(v@.subrange(0, k as int)),
                    ).push(model(v@[k as int])));
                }
            },
        }
        k = k + 1;
    }
    assert(v@.subrange(0, v@.len() as int) =~= v@);
    Ok(RObject::array(out))
}

} // verus!
