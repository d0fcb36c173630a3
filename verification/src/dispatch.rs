//! Method calls on values: the method is looked up along the receiver's
//! class and its native function is run on the receiver and the arguments.
use vstd::prelude::*;
use crate::args::{strip_trailing_nil, without_trailing_nil};
use crate::array::{
    elems, index_u32, index_usize, is_new_array, nil_model, not_array_message, stored_at, eq_in, dedup,
    intersect, mrb_array_add, mrb_array_and, mrb_array_or, mrb_array_dup, mrb_array_empty,
    mrb_array_include, mrb_array_size, mrb_array_get_index, mrb_array_set_index, mrb_array_pop,
    mrb_array_shift, mrb_array_clear, mrb_array_delete_at, mrb_array_push, mrb_array_unshift,
    mrb_array_first, mrb_array_last, mrb_array_uniq_self, first_last_ok,
};
use crate::enumerable::{
    all_integers, sorted_models, extreme_ok, sum_ints, overflow_message, non_nil, mrb_enumerable_sort,
    mrb_enumerable_min, mrb_enumerable_max, mrb_enumerable_minmax, mrb_enumerable_sum,
    mrb_enumerable_count, mrb_enumerable_to_a, mrb_enumerable_uniq, mrb_enumerable_compact,
};
use crate::error::Error;
use crate::integer::{
    floor_mod, zero_division_message, chr_range_message, chr_invalid_message, integer_mod, integer_bitref,
    integer_negative, integer_abs, integer_lshift, integer_rshift, integer_power, integer_chr, integer_and,
    integer_or, integer_xor, integer_not, integer_inspect,
};
use crate::prelude::{Runtime, Native, int_model, bool_model, native_for, installed, module_of, string_methods, lemma_string_table_bindings, lemma_table_method_wins};
use crate::class::{method_of, builtin_class_name, first_resolving, lookup_chain};
use crate::string::{
    upcase_of, downcase_of, spec_strip, spec_lstrip, spec_rstrip, spec_chomp, has_prefix, has_suffix,
    find_from, spec_to_i, spec_inspect, byte_index, string_upcase, string_downcase, string_strip,
    string_lstrip, string_rstrip, string_chomp, string_add, string_start_with, string_end_with,
    string_include, string_to_i, string_inspect, string_getbyte, string_empty, mrb_string_size, mrb_string_b,
    repeat, utf8_len, spec_split, spec_words, string_mul, string_ord, string_index, string_split,
    string_split_whitespace, string_strip_bang, string_lstrip_bang, string_rstrip_bang, string_chomp_bang,
    string_upcase_bang, string_downcase_bang, string_setbyte, mrb_string_append, mrb_string_bytes,
    spec_slice, spec_slice_rest, norm_index, string_slice, string_slice_bang,
};
use crate::value::{RObject, RValue, RType, RSym, UNASSIGNED_ID, model, models, eq_value, integer_like, mrb_object_is_equal};
use crate::pack::{PackFailure, pack_from, unpack_from, pack, unpack};
use vstd::arithmetic::power::pow;

verus! {

/// What `String::from_utf8_lossy` makes of `bytes`: the text they encode,
/// with U+FFFD in place of each ill-formed sequence.
pub uninterp spec fn lossy(bytes: Seq<u8>) -> Seq<char>;

/// Calls std's `String::from_utf8_lossy`. Its result is named
/// `lossy(bytes@)`, which depends on the bytes alone; for well-formed UTF-8
/// it is the text the bytes encode, as std documents.
#[verifier::external_body]
pub(crate) fn text_of(bytes: &[u8]) -> (r: String)
    ensures
        r@ == lossy(bytes@),
        vstd::utf8::valid_utf8(bytes@) ==> r@ == vstd::utf8::decode_utf8(bytes@),
{
    String::from_utf8_lossy(bytes).into_owned()
}

/// The text of a string object as the string methods read it.
pub open spec fn text(o: RObject) -> Seq<char> {
    lossy(o.value->String_0@)
}

/// An object as an `i64` argument.
pub open spec fn as_i64(o: RObject) -> Option<i64> {
    match integer_like(o) {
        Some(n) => Some(n as i64),
        None => None,
    }
}

/// The first of `args`, if any.
pub open spec fn first_of(args: Seq<RObject>) -> Option<RObject> {
    if args.len() > 0 {
        Some(args[0])
    } else {
        None
    }
}

/// `r` is the integer `v`.
pub open spec fn ok_int(r: Result<RObject, Error>, v: i64) -> bool {
    r matches Ok(o) && model(o) == int_model(v)
}

/// `r` is the boolean `b`.
pub open spec fn ok_bool(r: Result<RObject, Error>, b: bool) -> bool {
    r matches Ok(o) && model(o) == bool_model(b)
}

/// `r` is a new string object holding the bytes `b`.
pub open spec fn ok_bytes(r: Result<RObject, Error>, b: Seq<u8>) -> bool {
    r matches Ok(o) && o.tt == RType::String && o.value is String && o.value->String_0@ == b
        && o.object_id == UNASSIGNED_ID
}

/// `r` is a new string object holding the UTF-8 encoding of `t`.
pub open spec fn ok_text(r: Result<RObject, Error>, t: Seq<char>) -> bool {
    ok_bytes(r, vstd::utf8::encode_utf8(t))
}

/// `r` answers a slice: the text, or `nil` where there is none.
pub open spec fn slice_answer(r: Result<RObject, Error>, o: Option<Seq<char>>) -> bool {
    match o {
        Some(u) => ok_text(r, u),
        None => ok_model(r, nil_model()),
    }
}

/// `r` is the symbol named `t`.
pub open spec fn ok_symbol(r: Result<RObject, Error>, t: Seq<char>) -> bool {
    r matches Ok(o) && o.tt == RType::Symbol && o.value is Symbol && o.value->Symbol_0.name@ == t && o.object_id == 2
}

/// `r` is an object of model `m`.
pub open spec fn ok_model(r: Result<RObject, Error>, m: crate::value::ObjectModel) -> bool {
    r matches Ok(o) && model(o) == m
}

/// The native functions of `Integer` that this library runs.
pub open spec fn is_integer_native(n: Native) -> bool {
    n is IntegerMod || n is IntegerPower || n is IntegerAnd || n is IntegerOr || n is IntegerXor
        || n is IntegerNot || n is IntegerLshift || n is IntegerRshift || n is IntegerBitref
        || n is IntegerNegative || n is IntegerAbs || n is IntegerToI || n is IntegerInspect
        || n is IntegerChr
}

/// The native functions of `Array` and `Enumerable` that this library runs.
pub open spec fn is_array_native(n: Native) -> bool {
    n is ArraySize || n is ArrayEmpty || n is ArrayInclude || n is ArrayAdd || n is ArrayAnd
        || n is ArrayOr || n is ArrayDup || n is ArrayGetIndexSelf || n is ArraySetIndexSelf
        || n is ArrayPop || n is ArrayShift || n is ArrayClear || n is ArrayDeleteAt
        || n is ArrayPushSelf || n is ArrayUnshift || n is EnumerableSort || n is EnumerableMin
        || n is EnumerableMax || n is EnumerableMinmax || n is EnumerableCompact
        || n is EnumerableCount || n is EnumerableToA || n is EnumerableUniq || n is EnumerableSum
        || n is ArrayFirst || n is ArrayLast || n is ArrayUniqSelf || n is ArrayPack
}

/// The native functions of `String` that this library runs.
pub open spec fn is_string_native(n: Native) -> bool {
    n is StringSize || n is StringEmpty || n is StringUpcase || n is StringDowncase
        || n is StringStrip || n is StringLstrip || n is StringRstrip || n is StringChomp
        || n is StringAdd || n is StringStartWith || n is StringEndWith || n is StringInclude
        || n is StringToI || n is StringInspect || n is StringGetbyte || n is StringB
        || n is StringMul || n is StringOrd || n is StringIndex || n is StringBytes || n is StringSplit
        || n is StringUnpack || n is StringSlice || n is StringToSym || n is StringDup || n is StringClear
}

/// The native functions of `String` that change the receiver in place and
/// that this library runs.
pub open spec fn is_string_mut_native(n: Native) -> bool {
    n is StringAppend || n is StringSetbyte || n is StringStripSelf || n is StringLstripSelf
        || n is StringRstripSelf || n is StringChompSelf || n is StringUpcaseSelf || n is StringDowncaseSelf
        || n is StringSliceSelf
}

/// The native functions of `Object` and `NilClass` that this library runs.
pub open spec fn is_object_native(n: Native) -> bool {
    n is ObjectSelf || n is ObjectNilP || n is NilclassNilP || n is ObjectDoubleEq || n is ObjectInitialize
        || n is ObjectObjectId || n is NilclassToS || n is NilclassInspect || n is TrueclassToS
        || n is TrueclassInspect || n is TrueclassAnd || n is TrueclassOr || n is TrueclassXor
        || n is FalseclassToS || n is FalseclassInspect || n is FalseclassAnd || n is FalseclassOr
        || n is FalseclassXor
}

/// How many arguments native function `n` reads at fixed positions.
pub open spec fn arity(n: Native) -> nat {
    match n {
        Native::IntegerMod | Native::IntegerPower | Native::IntegerAnd | Native::IntegerOr
        | Native::IntegerXor | Native::IntegerLshift | Native::IntegerRshift | Native::IntegerBitref
        | Native::ArrayInclude | Native::ArrayAdd | Native::ArrayAnd | Native::ArrayOr
        | Native::ArrayGetIndexSelf | Native::ArrayDeleteAt | Native::ArrayPushSelf
        | Native::ArrayUnshift | Native::StringAdd | Native::StringStartWith | Native::StringEndWith
        | Native::StringInclude | Native::StringGetbyte | Native::ObjectDoubleEq | Native::StringMul
        | Native::StringIndex | Native::StringAppend | Native::ArrayPack | Native::StringUnpack
        | Native::TrueclassAnd | Native::TrueclassXor | Native::FalseclassOr | Native::FalseclassXor => 1,
        Native::ArraySetIndexSelf | Native::StringSetbyte => 2,
        _ => 0,
    }
}

/// The inputs on which native function `n` runs without a panic: enough
/// arguments, shift counts and bit indexes below 64, a power that fits in
/// 64 bits, no negation of the least integer, and bounded lengths.
pub open spec fn native_pre(n: Native, recv: RObject, args: Seq<RObject>) -> bool {
    &&& args.len() >= arity(n)
    &&& elems(recv).len() < 0x4000_0000_0000_0000
    &&& (recv.value is String ==> recv.value->String_0@.len() <= i64::MAX)
    &&& ((n is IntegerLshift || n is IntegerRshift || n is IntegerBitref) ==> (as_i64(args[0]) matches Some(
        a,
    ) ==> a < 64))
    &&& ((n is IntegerNegative || n is IntegerAbs) ==> as_i64(recv) != Some(i64::MIN))
    &&& (n is StringSliceSelf ==> (args.len() > 0 ==> without_trailing_nil(args).len() > 0))
    &&& (n is ArrayPack ==> (recv.value is Array && args[0].value is String ==> !(pack_from(
        elems(recv),
        args[0].value->String_0@,
        0,
        0,
    ) matches Err(PackFailure::OutOfItems))))
    &&& (n is IntegerPower ==> (as_i64(recv) matches Some(b) ==> (as_i64(args[0]) matches Some(e) ==> (e >= 0
        ==> i64::MIN <= pow(b as int, (e % 0x1_0000_0000) as nat) <= i64::MAX))))
}

/// What an `Integer` native function answers for the integer receiver `i`.
pub open spec fn integer_ok(n: Native, i: i64, args: Seq<RObject>, r: Option<Result<RObject, Error>>) -> bool {
    match n {
        Native::IntegerMod => r matches Some(rr) && match as_i64(args[0]) {
            None => rr matches Err(Error::TypeMismatch),
            Some(a) => if a == 0 {
                rr matches Err(Error::RuntimeError(m)) && m@ == zero_division_message()
            } else {
                ok_int(rr, floor_mod(i as int, a as int) as i64)
            },
        },
        Native::IntegerPower => match as_i64(args[0]) {
            None => r matches Some(Err(Error::ArgumentError(m))) && m@ == "exponent must be numeric"@,
            Some(e) => if e < 0 {
                r is None
            } else {
                r matches Some(rr) && ok_int(rr, pow(i as int, (e % 0x1_0000_0000) as nat) as i64)
            },
        },
        Native::IntegerAnd | Native::IntegerOr | Native::IntegerXor | Native::IntegerLshift
        | Native::IntegerRshift | Native::IntegerBitref => r matches Some(rr) && match as_i64(args[0]) {
            None => rr matches Err(Error::TypeMismatch),
            Some(a) => match n {
                Native::IntegerAnd => ok_int(rr, i & a),
                Native::IntegerOr => ok_int(rr, i | a),
                Native::IntegerXor => ok_int(rr, i ^ a),
                Native::IntegerBitref => ok_int(rr, if a < 0 { 0 } else { (i >> (a as u64)) & 1 }),
                Native::IntegerLshift => if a < 0 {
                    rr matches Err(Error::ArgumentError(m)) && m@ == "negative shift count"@
                } else {
                    ok_int(rr, i << (a as u64))
                },
                _ => if a < 0 {
                    rr matches Err(Error::ArgumentError(m)) && m@ == "negative shift count"@
                } else {
                    ok_int(rr, i >> (a as u64))
                },
            },
        },
        Native::IntegerNot => r matches Some(rr) && ok_int(rr, !i),
        Native::IntegerNegative => r matches Some(rr) && ok_int(rr, (-i) as i64),
        Native::IntegerAbs => r matches Some(rr) && ok_int(rr, (if i < 0 { -i } else { i as int }) as i64),
        Native::IntegerInspect => r matches Some(rr) && ok_text(rr, crate::fmt::int_str(i as int)),
        Native::IntegerChr => r matches Some(rr) && if i < 0 || i > 0x10FFFF {
            rr matches Err(Error::RangeError(m)) && m@ == chr_range_message(i as int)
        } else if 0xD800 <= i <= 0xDFFF {
            rr matches Err(Error::RangeError(m)) && m@ == chr_invalid_message(i as int)
        } else {
            ok_bytes(rr, vstd::utf8::encode_scalar(i as u32))
        },
        _ => false,
    }
}

/// What an `Array` or `Enumerable` native function answers on `recv`
/// (which it leaves as `after`).
pub open spec fn array_ok(n: Native, recv: RObject, after: RObject, args: Seq<RObject>, rr: Result<RObject, Error>) -> bool {
    let a = recv.value is Array;
    let v = elems(recv);
    match n {
        Native::ArraySize | Native::EnumerableCount => after == recv && (if a {
            ok_int(rr, v.len() as i64)
        } else {
            rr matches Err(Error::TypeMismatch)
        }),
        Native::ArrayEmpty => after == recv && (if a {
            ok_bool(rr, v.len() == 0)
        } else {
            rr matches Err(Error::TypeMismatch)
        }),
        Native::ArrayInclude => after == recv && (if a {
            ok_bool(rr, eq_in(v, args[0]))
        } else {
            rr matches Err(Error::TypeMismatch)
        }),
        Native::ArrayAdd | Native::ArrayAnd | Native::ArrayOr => after == recv && (if a && args[0].value is Array {
            rr matches Ok(o) && is_new_array(o, models(match n {
                Native::ArrayAdd => v + elems(args[0]),
                Native::ArrayOr => dedup(v + elems(args[0])),
                _ => intersect(v, elems(args[0])),
            }))
        } else {
            rr matches Err(Error::TypeMismatch)
        }),
        Native::ArrayDup | Native::EnumerableToA | Native::EnumerableUniq | Native::EnumerableCompact => after
            == recv && (if a {
            rr matches Ok(o) && is_new_array(o, models(match n {
                Native::EnumerableUniq => dedup(v),
                Native::EnumerableCompact => non_nil(v),
                _ => v,
            }))
        } else {
            rr matches Err(Error::TypeMismatch)
        }),
        Native::ArrayGetIndexSelf => after == recv && (if !a {
            rr matches Err(Error::RuntimeError(m)) && m@ == not_array_message()
        } else if index_u32(args[0]) is None {
            rr matches Err(Error::TypeMismatch)
        } else {
            ok_model(rr, if index_u32(args[0])->Some_0 < v.len() {
                model(v[index_u32(args[0])->Some_0 as int])
            } else {
                nil_model()
            })
        }),
        Native::ArraySetIndexSelf => if index_usize(args[0]) is None {
            rr matches Err(Error::TypeMismatch) && after == recv
        } else if !a {
            rr matches Err(Error::RuntimeError(m)) && m@ == not_array_message() && after == recv
        } else {
            ok_model(rr, model(args[1])) && after.value is Array && after.tt == recv.tt && after.object_id
                == recv.object_id && models(elems(after)) == models(
                stored_at(v, index_usize(args[0])->Some_0, args[1]),
            )
        },
        Native::ArrayPop | Native::ArrayShift => if !a {
            rr matches Err(Error::TypeMismatch) && after == recv
        } else if v.len() == 0 {
            ok_model(rr, nil_model()) && after == recv
        } else {
            after.value is Array && after.tt == recv.tt && after.object_id == recv.object_id && (if n is ArrayPop {
                rr == Ok::<RObject, Error>(v.last()) && elems(after) == v.drop_last()
            } else {
                rr == Ok::<RObject, Error>(v[0]) && elems(after) == v.drop_first()
            })
        },
        Native::ArrayClear => if !a {
            rr matches Err(Error::TypeMismatch) && after == recv
        } else {
            after.value is Array && elems(after).len() == 0 && after.tt == recv.tt && after.object_id
                == recv.object_id && ok_model(rr, model(after))
        },
        Native::ArrayDeleteAt => match integer_like(args[0]) {
            None => rr matches Err(Error::TypeMismatch) && after == recv,
            Some(k) => if !a {
                rr matches Err(Error::TypeMismatch) && after == recv
            } else {
                let idx = if k < 0 { v.len() + k } else { k };
                if idx < 0 || idx >= v.len() {
                    ok_model(rr, nil_model()) && after == recv
                } else {
                    rr == Ok::<RObject, Error>(v[idx]) && after.value is Array && after.tt == recv.tt
                        && after.object_id == recv.object_id && elems(after) == v.remove(idx)
                }
            },
        },
        Native::ArrayPushSelf | Native::ArrayUnshift => if !a {
            rr matches Err(Error::TypeMismatch) && after == recv
        } else {
            after.value is Array && after.tt == recv.tt && after.object_id == recv.object_id && ok_model(
                rr,
                model(after),
            ) && models(elems(after)) == models(if n is ArrayPushSelf {
                v + without_trailing_nil(args)
            } else {
                without_trailing_nil(args) + v
            })
        },
        Native::ArrayFirst | Native::ArrayLast => after == recv && (if !a {
            rr matches Err(Error::TypeMismatch)
        } else {
            first_last_ok(v, first_of(without_trailing_nil(args)), n is ArrayLast, rr)
        }),
        Native::ArrayPack => after == recv && (if !(args[0].value is String) {
            rr matches Err(Error::TypeMismatch)
        } else if !a {
            rr matches Err(Error::RuntimeError(m)) && m@ == "Array#pack must be called on an Array"@
        } else {
            match pack_from(v, args[0].value->String_0@, 0, 0) {
                Ok(b) => ok_bytes(rr, b),
                Err(PackFailure::TypeMismatch) => rr matches Err(Error::TypeMismatch),
                Err(PackFailure::Unsupported) => rr matches Err(Error::RuntimeError(m)) && m@ == "Unsupported format"@,
                Err(PackFailure::OutOfItems) => rr matches Err(Error::ArgumentError(m)) && m@ == "too few arguments"@,
            }
        }),
        Native::ArrayUniqSelf => if !a {
            rr matches Err(Error::TypeMismatch) && after == recv
        } else if dedup(v).len() == v.len() {
            ok_model(rr, nil_model()) && after == recv
        } else {
            after.value is Array && after.tt == recv.tt && after.object_id == recv.object_id && models(elems(after))
                == models(dedup(v)) && ok_model(rr, model(after))
        },
        Native::EnumerableSort => after == recv && (if !a {
            rr matches Err(Error::TypeMismatch)
        } else if !all_integers(v) {
            rr matches Ok(o) && is_new_array(o, models(v))
        } else {
            rr matches Ok(o) && is_new_array(o, models(elems(o))) && sorted_models(models(elems(o)))
                && models(elems(o)).to_multiset() == models(v).to_multiset()
        }),
        Native::EnumerableMin | Native::EnumerableMax => after == recv && (if !a {
            rr matches Err(Error::TypeMismatch)
        } else {
            extreme_ok(v, n is EnumerableMin, rr)
        }),
        Native::EnumerableMinmax => after == recv && (if !a {
            rr matches Err(Error::TypeMismatch)
        } else if !all_integers(v) && v.len() >= 2 {
            rr matches Err(Error::TypeMismatch)
        } else {
            rr matches Ok(o) && o.value is Array && elems(o).len() == 2 && extreme_ok(
                v,
                true,
                Ok::<RObject, Error>(elems(o)[0]),
            ) && extreme_ok(v, false, Ok::<RObject, Error>(elems(o)[1]))
        }),
        Native::EnumerableSum => after == recv && {
            let start: Option<int> = if args.len() == 0 {
                Some(0int)
            } else {
                match args[0].value {
                    RValue::Nil => Some(0int),
                    RValue::Integer(i) => Some(i as int),
                    _ => None,
                }
            };
            if !a || start is None || !all_integers(v) {
                rr matches Err(Error::TypeMismatch)
            } else {
                let total = start->Some_0 + sum_ints(v);
                if i64::MIN <= total <= i64::MAX {
                    ok_int(rr, total as i64)
                } else {
                    rr matches Err(Error::RangeError(m)) && m@ == overflow_message()
                }
            }
        },
        _ => false,
    }
}

/// What a `String` native function answers on `recv`. Those that read the
/// receiver or an argument as text run on string objects only.
pub open spec fn string_ok(n: Native, recv: RObject, args: Seq<RObject>, r: Option<Result<RObject, Error>>) -> bool {
    let s = recv.value is String;
    let t = text(recv);
    match n {
        Native::StringSize => r matches Some(rr) && if s {
            ok_int(rr, recv.value->String_0@.len() as i64)
        } else {
            rr matches Err(Error::TypeMismatch)
        },
        Native::StringB => r matches Some(rr) && if s {
            ok_bytes(rr, recv.value->String_0@)
        } else {
            rr matches Err(Error::TypeMismatch)
        },
        Native::StringGetbyte => r matches Some(rr) && if !s {
            rr matches Err(Error::TypeMismatch)
        } else {
            match as_i64(args[0]) {
                None => rr matches Err(Error::TypeMismatch),
                Some(k) => match byte_index(k as int, recv.value->String_0@.len() as int) {
                    Some(j) => ok_int(rr, recv.value->String_0@[j] as i64),
                    None => ok_model(rr, nil_model()),
                },
            }
        },
        Native::StringAdd | Native::StringStartWith | Native::StringEndWith | Native::StringInclude => if !s
            || !(args[0].value is String) {
            r is None
        } else {
            let u = text(args[0]);
            r matches Some(rr) && match n {
                Native::StringAdd => ok_text(rr, t + u),
                Native::StringStartWith => ok_bool(rr, has_prefix(t, u)),
                Native::StringEndWith => ok_bool(rr, has_suffix(t, u)),
                _ => ok_bool(rr, find_from(t, u, 0) is Some),
            }
        },
        Native::StringBytes => r matches Some(rr) && if !s {
            rr matches Err(Error::TypeMismatch)
        } else {
            rr matches Ok(o) && o.tt == RType::Array && o.value is Array && o.object_id == UNASSIGNED_ID
                && elems(o).len() == recv.value->String_0@.len() && forall|i: int| 0 <= i < elems(o).len() ==> model(
                #[trigger] elems(o)[i],
            ) == int_model(recv.value->String_0@[i] as i64)
        },
        Native::StringClear => r matches Some(rr) && ok_text(rr, ""@),
        Native::StringSlice => if !s || t.len() > i64::MAX {
            r is None
        } else if args.len() == 0 {
            r matches Some(Err(Error::ArgumentError(m))) && m@ == "wrong number of arguments"@
        } else {
            match as_i64(args[0]) {
                None => r matches Some(Err(Error::TypeMismatch)),
                Some(k) => {
                    let idx = norm_index(k as int, t.len() as int);
                    if args.len() == 1 || idx < 0 || idx >= t.len() {
                        r matches Some(rr) && slice_answer(rr, spec_slice(t, k as int, None))
                    } else {
                        match as_i64(args[1]) {
                            None => r matches Some(Err(Error::TypeMismatch)),
                            Some(l) => if l >= 0 && idx + l > i64::MAX {
                                r is None
                            } else {
                                r matches Some(rr) && slice_answer(rr, spec_slice(t, k as int, Some(l as int)))
                            },
                        }
                    }
                },
            }
        },
        Native::StringUnpack => r matches Some(rr) && if !s || !(args[0].value is String) {
            rr matches Err(Error::TypeMismatch)
        } else {
            match unpack_from(recv.value->String_0@, args[0].value->String_0@, 0, 0) {
                Ok(xs) => rr matches Ok(o) && o.tt == RType::Array && o.value is Array && o.object_id == UNASSIGNED_ID
                    && elems(o).len() == xs.len() && forall|k: int| 0 <= k < xs.len() ==> model(#[trigger] elems(o)[k])
                    == int_model(xs[k] as i64),
                Err(crate::pack::UnpackFailure::NotEnoughBytes) => rr matches Err(Error::RuntimeError(m)) && m@
                    == "Not enough bytes"@,
                Err(crate::pack::UnpackFailure::Unsupported) => rr matches Err(Error::RuntimeError(m)) && m@
                    == "Unsupported format"@,
            }
        },
        Native::StringMul => if !s {
            r is None
        } else {
            r matches Some(rr) && match as_i64(args[0]) {
                None => rr matches Err(Error::TypeMismatch),
                Some(k) => if k < 0 {
                    rr matches Err(Error::ArgumentError(m)) && m@ == "negative argument"@
                } else {
                    ok_text(rr, repeat(t, k as nat))
                },
            }
        },
        Native::StringOrd => if !s {
            r is None
        } else {
            r matches Some(rr) && if t.len() == 0 {
                rr matches Err(Error::ArgumentError(m)) && m@ == "empty string"@
            } else {
                ok_int(rr, (t[0] as u32) as i64)
            }
        },
        Native::StringIndex => if !s || !(args[0].value is String) {
            r is None
        } else {
            r matches Some(rr) && match find_from(t, text(args[0]), 0) {
                Some(k) => ok_int(rr, (utf8_len(t.subrange(0, k)) as usize) as i64),
                None => ok_model(rr, nil_model()),
            }
        },
        Native::StringSplit => if !s || (args.len() > 0 && !(args[0].value is String)) {
            r is None
        } else {
            let parts = if args.len() == 0 { spec_words(t) } else { spec_split(t, text(args[0])) };
            r matches Some(rr) && (rr matches Ok(o) && o.tt == RType::Array && o.value is Array && o.object_id
                == UNASSIGNED_ID && elems(o).len() == parts.len() && forall|i: int| 0 <= i < parts.len() ==> ok_text(
                Ok::<RObject, Error>(#[trigger] elems(o)[i]),
                parts[i],
            ))
        },
        _ => if !s {
            r is None
        } else {
            r matches Some(rr) && match n {
                Native::StringEmpty => ok_bool(rr, t.len() == 0),
                Native::StringUpcase => ok_text(rr, upcase_of(t)),
                Native::StringDowncase => ok_text(rr, downcase_of(t)),
                Native::StringStrip => ok_text(rr, spec_strip(t)),
                Native::StringLstrip => ok_text(rr, spec_lstrip(t)),
                Native::StringRstrip => ok_text(rr, spec_rstrip(t)),
                Native::StringChomp => ok_text(rr, spec_chomp(t)),
                Native::StringToI => ok_int(rr, spec_to_i(t) as i64),
                Native::StringInspect => ok_text(rr, spec_inspect(t)),
                Native::StringDup => ok_text(rr, t),
                Native::StringToSym => ok_symbol(rr, t),
                _ => false,
            }
        },
    }
}

/// The receiver holding the bytes `b`.
pub open spec fn replaced_bytes(recv: RObject, after: RObject, b: Seq<u8>) -> bool {
    after.tt == recv.tt && after.object_id == recv.object_id && after.value is String && after.value->String_0@ == b
}

/// The receiver with its bytes replaced by the UTF-8 encoding of `t`.
pub open spec fn replaced(recv: RObject, after: RObject, t: Seq<char>) -> bool {
    after.tt == recv.tt && after.object_id == recv.object_id && after.value is String && after.value->String_0@
        == vstd::utf8::encode_utf8(t)
}

/// What a `String` native function that may change its receiver answers,
/// leaving the receiver as `after`: a bang method answers the changed
/// receiver, or `nil` when nothing changed.
pub open spec fn string_mut_ok(n: Native, recv: RObject, after: RObject, args: Seq<RObject>, r: Option<Result<RObject, Error>>) -> bool {
    let s = recv.value is String;
    let t = text(recv);
    let bytes = recv.value->String_0@;
    match n {
        Native::StringAppend => if !(args[0].value is String) {
            r is None && after == recv
        } else if !s {
            r matches Some(Err(Error::TypeMismatch)) && after == recv
        } else {
            after.tt == recv.tt && after.object_id == recv.object_id && after.value is String
                && after.value->String_0@ == bytes + vstd::utf8::encode_utf8(text(args[0])) && (r matches Some(
                rr,
            ) && ok_model(rr, model(after)))
        },
        Native::StringSetbyte => r matches Some(rr) && if !s {
            rr matches Err(Error::TypeMismatch) && after == recv
        } else {
            match (as_i64(args[0]), as_i64(args[1])) {
                (Some(k), Some(v)) => match byte_index(k as int, bytes.len() as int) {
                    None => rr matches Err(Error::ArgumentError(m)) && m@ == "index "@ + crate::fmt::int_str(k as int)
                        + " out of string"@ && replaced_bytes(recv, after, bytes),
                    Some(j) => if 0 <= v <= 255 {
                        ok_int(rr, v) && replaced_bytes(recv, after, bytes.update(j, v as u8))
                    } else {
                        rr matches Err(Error::ArgumentError(m)) && m@ == crate::fmt::int_str(v as int)
                            + " out of char range"@ && replaced_bytes(recv, after, bytes)
                    },
                },
                _ => rr matches Err(Error::TypeMismatch) && after == recv,
            }
        },
        Native::StringSliceSelf => if !s || t.len() > i64::MAX {
            r is None && after == recv
        } else if args.len() == 0 {
            r matches Some(Err(Error::ArgumentError(m))) && m@ == "wrong number of arguments"@ && after == recv
        } else {
            let a = without_trailing_nil(args);
            match as_i64(a[0]) {
                None => r matches Some(Err(Error::TypeMismatch)) && after == recv,
                Some(k) => {
                    let idx = norm_index(k as int, t.len() as int);
                    if a.len() == 1 || idx < 0 || idx >= t.len() {
                        r matches Some(rr) && slice_bang_ok(recv, after, t, k as int, None, rr)
                    } else {
                        match as_i64(a[1]) {
                            None => r matches Some(Err(Error::TypeMismatch)) && after == recv,
                            Some(l) => if l >= 0 && idx + l > i64::MAX {
                                r is None && after == recv
                            } else {
                                r matches Some(rr) && slice_bang_ok(recv, after, t, k as int, Some(l as int), rr)
                            },
                        }
                    }
                },
            }
        },
        _ => if !s {
            r is None && after == recv
        } else {
            let u = match n {
                Native::StringStripSelf => spec_strip(t),
                Native::StringLstripSelf => spec_lstrip(t),
                Native::StringRstripSelf => spec_rstrip(t),
                Native::StringChompSelf => spec_chomp(t),
                Native::StringUpcaseSelf => upcase_of(t),
                _ => downcase_of(t),
            };
            let changed = if n is StringUpcaseSelf || n is StringDowncaseSelf { u != t } else { u.len() != t.len() };
            r matches Some(rr) && if changed {
                replaced(recv, after, u) && ok_model(rr, model(after))
            } else {
                after == recv && ok_model(rr, nil_model())
            }
        },
    }
}

/// What `slice!` answers for the slice `(k, lo)` of text `t`: the cut-out
/// text, the receiver keeping the rest; `nil` and the receiver unchanged
/// where there is no such slice.
pub open spec fn slice_bang_ok(recv: RObject, after: RObject, t: Seq<char>, k: int, lo: Option<int>, rr: Result<RObject, Error>) -> bool {
    match spec_slice(t, k, lo) {
        None => ok_model(rr, nil_model()) && after == recv,
        Some(u) => ok_text(rr, u) && replaced(recv, after, spec_slice_rest(t, k, lo)),
    }
}

/// What an `Object` or `NilClass` native function answers on `recv`.
pub open spec fn object_ok(n: Native, recv: RObject, args: Seq<RObject>, rr: Result<RObject, Error>) -> bool {
    match n {
        Native::ObjectSelf => ok_model(rr, model(recv)),
        Native::ObjectNilP => ok_bool(rr, false),
        Native::NilclassNilP => ok_bool(rr, true),
        Native::ObjectDoubleEq => ok_bool(rr, eq_value(recv) == eq_value(args[0])),
        Native::ObjectInitialize => ok_model(rr, nil_model()),
        Native::ObjectObjectId => ok_int(rr, (recv.object_id - 0x8000_0000_0000_0000) as i64),
        Native::NilclassToS => ok_text(rr, ""@),
        Native::NilclassInspect => ok_text(rr, "nil"@),
        Native::TrueclassToS | Native::TrueclassInspect => ok_text(rr, "true"@),
        Native::FalseclassToS | Native::FalseclassInspect => ok_text(rr, "false"@),
        Native::TrueclassAnd | Native::FalseclassOr | Native::FalseclassXor => ok_bool(rr, !args[0].spec_is_falsy()),
        Native::TrueclassOr => ok_bool(rr, true),
        Native::TrueclassXor => ok_bool(rr, args[0].spec_is_falsy()),
        Native::FalseclassAnd => ok_bool(rr, false),
        _ => false,
    }
}

/// What native function `n` answers on `recv` with `args`, leaving the
/// receiver as `after`: `None` where this library does not run it (or where
/// the answer would be a float).
pub open spec fn native_ok(n: Native, recv: RObject, after: RObject, args: Seq<RObject>, r: Option<Result<RObject, Error>>) -> bool {
    if is_integer_native(n) {
        after == recv && if n is IntegerToI {
            r matches Some(rr) && ok_model(rr, model(recv))
        } else {
            match as_i64(recv) {
                None => r matches Some(Err(Error::TypeMismatch)),
                Some(i) => integer_ok(n, i, args, r),
            }
        }
    } else if is_array_native(n) {
        r matches Some(rr) && array_ok(n, recv, after, args, rr)
    } else if is_string_native(n) {
        after == recv && string_ok(n, recv, args, r)
    } else if is_string_mut_native(n) {
        string_mut_ok(n, recv, after, args, r)
    } else if is_object_native(n) {
        after == recv && (r matches Some(rr) && object_ok(n, recv, args, rr))
    } else {
        after == recv && r is None
    }
}

/// The class of `recv`: the built-in class of its kind.
pub open spec fn class_of(rt: Runtime, recv: RObject) -> int {
    method_of(rt.classes.builtins@, builtin_class_name(recv.value))->Some_0 as int
}

/// The inputs on which a call of `name` on `recv` runs without a panic.
pub open spec fn call_pre(rt: Runtime, recv: RObject, name: Seq<char>, args: Seq<RObject>) -> bool {
    native_for(rt, recv, name) matches Some(n) ==> native_pre(n, recv, args)
}

/// What a call of `name` on `recv` with `args` answers, the receiver left
/// as `after`: no such method is a `NoMethodError` naming it; a method
/// answers what its native function does (`native_ok`).
pub open spec fn call_ok(rt: Runtime, recv: RObject, after: RObject, name: Seq<char>, args: Seq<RObject>, r: Option<Result<RObject, Error>>) -> bool {
    match first_resolving(rt.classes.modules@, lookup_chain(rt.classes, class_of(rt, recv)), name) {
        None => after == recv && (r matches Some(Err(Error::NoMethodError(m))) && m@ == name),
        Some(found) => if found.1 < rt.fns@.len() {
            native_ok(rt.fns@[found.1 as int], recv, after, args, r)
        } else {
            after == recv && r is None
        },
    }
}

/// Arguments with the same models lose a trailing `nil` alike.
proof fn lemma_strip_models(a: Seq<RObject>, b: Seq<RObject>)
    requires
        models(a) == models(b),
    ensures
        models(without_trailing_nil(a)) == models(without_trailing_nil(b)),
{
    assert(a.len() == models(a).len());
    assert(b.len() == models(b).len());
    if a.len() > 0 {
        assert(models(a)[a.len() - 1] == model(a.last()));
        assert(models(b)[b.len() - 1] == model(b.last()));
        assert(a.last().value is Nil <==> model(a.last()).value is Nil);
        assert(b.last().value is Nil <==> model(b.last()).value is Nil);
        assert(models(a.drop_last()) =~= models(b.drop_last())) by {
            assert forall|i: int| 0 <= i < a.len() - 1 implies models(a.drop_last())[i] == models(b.drop_last())[i] by {
                assert(models(a)[i] == models(b)[i]);
                assert(a.drop_last()[i] == a[i]);
                assert(b.drop_last()[i] == b[i]);
                assert(models(a)[i] == model(a[i]));
                assert(models(b)[i] == model(b[i]));
            }
        }
    }
}

/// Runs an `Integer` native function on `recv`.
fn run_integer(n: Native, recv: &RObject, args: &[RObject]) -> (r: Option<Result<RObject, Error>>)
    requires
        is_integer_native(n),
        native_pre(n, *recv, args@),
    ensures
        n is IntegerToI ==> (r matches Some(rr) && ok_model(rr, model(*recv))),
        !(n is IntegerToI) ==> match as_i64(*recv) {
            None => r matches Some(Err(Error::TypeMismatch)),
            Some(i) => integer_ok(n, i, args@, r),
        },
{
    if let Native::IntegerToI = n {
        return Some(Ok(recv.duplicate()));
    }
    let i = match recv.to_i64() {
        Ok(i) => i,
        Err(e) => return Some(Err(e)),
    };
    match n {
        Native::IntegerNot => Some(Ok(RObject::integer(integer_not(i)))),
        Native::IntegerNegative => Some(Ok(RObject::integer(integer_negative(i)))),
        Native::IntegerAbs => Some(Ok(RObject::integer(integer_abs(i)))),
        Native::IntegerInspect => Some(Ok(RObject::string(integer_inspect(i)))),
        Native::IntegerChr => match integer_chr(i) {
            Ok(b) => Some(Ok(RObject::string_from_vec(b))),
            Err(e) => Some(Err(e)),
        },
        Native::IntegerPower => match args[0].to_i64() {
            Err(_) => Some(Err(Error::ArgumentError(String::from_str("exponent must be numeric")))),
            Ok(e) => if e < 0 {
                None
            } else {
                Some(Ok(RObject::integer(integer_power(i, e % 0x1_0000_0000))))
            },
        },
        _ => {
            let a = match args[0].to_i64() {
                Ok(a) => a,
                Err(e) => return Some(Err(e)),
            };
            match n {
                Native::IntegerMod => match integer_mod(i, a) {
                    Ok(v) => Some(Ok(RObject::integer(v))),
                    Err(e) => Some(Err(e)),
                },
                Native::IntegerAnd => Some(Ok(RObject::integer(integer_and(i, a)))),
                Native::IntegerOr => Some(Ok(RObject::integer(integer_or(i, a)))),
                Native::IntegerXor => Some(Ok(RObject::integer(integer_xor(i, a)))),
                Native::IntegerBitref => Some(Ok(RObject::integer(integer_bitref(i, a)))),
                Native::IntegerLshift => match integer_lshift(i, a) {
                    Ok(v) => Some(Ok(RObject::integer(v))),
                    Err(e) => Some(Err(e)),
                },
                _ => match integer_rshift(i, a) {
                    Ok(v) => Some(Ok(RObject::integer(v))),
                    Err(e) => Some(Err(e)),
                },
            }
        },
    }
}

/// Wraps an integer answer as an integer object.
fn int_answer(r: Result<i64, Error>) -> (o: Result<RObject, Error>)
    ensures
        r matches Ok(v) ==> ok_int(o, v),
        r matches Err(e) ==> o == Err::<RObject, Error>(e),
{
    match r {
        Ok(v) => Ok(RObject::integer(v)),
        Err(e) => Err(e),
    }
}

/// Wraps a boolean answer as a boolean object.
fn bool_answer(r: Result<bool, Error>) -> (o: Result<RObject, Error>)
    ensures
        r matches Ok(b) ==> ok_bool(o, b),
        r matches Err(e) ==> o == Err::<RObject, Error>(e),
{
    match r {
        Ok(b) => Ok(RObject::boolean(b)),
        Err(e) => Err(e),
    }
}

/// Runs an `Array` or `Enumerable` native function on `recv`.
fn run_array(n: Native, recv: &mut RObject, args: &[RObject]) -> (r: Result<RObject, Error>)
    requires
        is_array_native(n),
        native_pre(n, *old(recv), args@),
    ensures
        array_ok(n, *old(recv), *final(recv), args@, r),
{
    match n {
        Native::ArraySize => int_answer(mrb_array_size(recv)),
        Native::EnumerableCount => int_answer(mrb_enumerable_count(recv)),
        Native::ArrayEmpty => bool_answer(mrb_array_empty(recv)),
        Native::ArrayInclude => bool_answer(mrb_array_include(recv, &args[0])),
        Native::ArrayAdd => mrb_array_add(recv, &args[0]),
        Native::ArrayAnd => mrb_array_and(recv, &args[0]),
        Native::ArrayOr => mrb_array_or(recv, &args[0]),
        Native::ArrayDup => mrb_array_dup(recv),
        Native::EnumerableToA => mrb_enumerable_to_a(recv),
        Native::EnumerableUniq => mrb_enumerable_uniq(recv),
        Native::EnumerableCompact => mrb_enumerable_compact(recv),
        Native::ArrayGetIndexSelf => mrb_array_get_index(recv, &args[0]),
        Native::ArraySetIndexSelf => {
            let value = args[1].duplicate();
            let ghost before = *recv;
            let r = mrb_array_set_index(recv, &args[0], value);
            proof {
                if index_usize(args@[0]) is Some && before.value is Array {
                    let k = index_usize(args@[0])->Some_0;
                    assert(models(stored_at(elems(before), k, value)) =~= models(stored_at(elems(before), k, args@[1])));
                }
            }
            r
        },
        Native::ArrayPop => mrb_array_pop(recv),
        Native::ArrayShift => mrb_array_shift(recv),
        Native::ArrayClear => match mrb_array_clear(recv) {
            Ok(()) => Ok(recv.duplicate()),
            Err(e) => Err(e),
        },
        Native::ArrayDeleteAt => mrb_array_delete_at(recv, &args[0]),
        Native::ArrayPushSelf => {
            let stripped = strip_trailing_nil(args);
            let items = crate::array::copy_range(stripped, 0, stripped.len());
            proof {
                assert(stripped@.subrange(0, stripped@.len() as int) =~= stripped@);
            }
            let ghost before = *recv;
            match mrb_array_push(recv, items) {
                Ok(()) => {
                    proof {
                        let x = elems(before) + items@;
                        let y = elems(before) + stripped@;
                        assert(items@.len() == models(items@).len());
                        assert forall|i: int| 0 <= i < x.len() implies models(x)[i] == models(y)[i] by {
                            if i >= elems(before).len() {
                                let j = i - elems(before).len();
                                assert(models(items@)[j] == models(stripped@)[j]);
                                assert(models(items@)[j] == model(items@[j]));
                                assert(models(stripped@)[j] == model(stripped@[j]));
                            }
                        }
                        assert(models(x) =~= models(y));
                    }
                    Ok(recv.duplicate())
                },
                Err(e) => Err(e),
            }
        },
        Native::ArrayUnshift => {
            let items = crate::array::copy_range(args, 0, args.len());
            proof {
                assert(args@.subrange(0, args@.len() as int) =~= args@);
                lemma_strip_models(items@, args@);
                assert(items@.len() == models(items@).len());
                assert(args@.len() == models(args@).len());
            }
            let ghost before = *recv;
            match mrb_array_unshift(recv, items) {
                Ok(()) => {
                    proof {
                        assert(models(without_trailing_nil(items@) + elems(before)) =~= models(
                            without_trailing_nil(args@) + elems(before),
                        )) by {
                            let p = without_trailing_nil(items@);
                            let q = without_trailing_nil(args@);
                            assert(models(p).len() == p.len());
                            assert(models(q).len() == q.len());
                            assert forall|i: int| 0 <= i < p.len() + elems(before).len() implies models(p + elems(before))[i]
                                == models(q + elems(before))[i] by {
                                if i < p.len() {
                                    assert(models(p)[i] == models(q)[i]);
                                    assert(models(p)[i] == model(p[i]));
                                    assert(models(q)[i] == model(q[i]));
                                }
                            }
                        }
                    }
                    Ok(recv.duplicate())
                },
                Err(e) => Err(e),
            }
        },
        Native::ArrayFirst | Native::ArrayLast => {
            let stripped = strip_trailing_nil(args);
            let count: Option<&RObject> = if stripped.len() > 0 {
                Some(&stripped[0])
            } else {
                None
            };
            if let Native::ArrayFirst = n {
                mrb_array_first(recv, count)
            } else {
                mrb_array_last(recv, count)
            }
        },
        Native::ArrayPack => {
            let format = match &args[0].value {
                RValue::String(b) => b,
                _ => return Err(Error::TypeMismatch),
            };
            match &recv.value {
                RValue::Array(items) => match pack(items.as_slice(), format.as_slice()) {
                    Ok(b) => Ok(RObject::string_from_vec(b)),
                    Err(e) => Err(e),
                },
                _ => Err(Error::RuntimeError(String::from_str("Array#pack must be called on an Array"))),
            }
        },
        Native::ArrayUniqSelf => match mrb_array_uniq_self(recv) {
            Ok(true) => Ok(recv.duplicate()),
            Ok(false) => Ok(RObject::nil()),
            Err(e) => Err(e),
        },
        Native::EnumerableSort => mrb_enumerable_sort(recv),
        Native::EnumerableMin => mrb_enumerable_min(recv),
        Native::EnumerableMax => mrb_enumerable_max(recv),
        Native::EnumerableMinmax => mrb_enumerable_minmax(recv),
        _ => {
            let init: Option<&RObject> = if args.len() == 0 {
                None
            } else {
                Some(&args[0])
            };
            mrb_enumerable_sum(recv, init)
        },
    }
}

/// An array object of new integer objects holding `xs`.
fn ints_to_array(xs: &Vec<i64>) -> (o: RObject)
    ensures
        o.tt == RType::Array,
        o.value is Array,
        o.object_id == UNASSIGNED_ID,
        elems(o).len() == xs@.len(),
        forall|k: int| 0 <= k < xs@.len() ==> model(#[trigger] elems(o)[k]) == int_model(xs@[k]),
{
    let mut out: Vec<RObject> = Vec::new();
    let mut i: usize = 0;
    while i < xs.len()
        invariant
            0 <= i <= xs@.len(),
            out@.len() == i,
            forall|k: int| 0 <= k < i ==> model(#[trigger] out@[k]) == int_model(xs@[k]),
        decreases xs@.len() - i,
    {
        out.push(RObject::integer(xs[i]));
        i = i + 1;
    }
    RObject::array(out)
}

/// An array object of new string objects holding `parts`.
fn strings_to_array(parts: Vec<String>) -> (o: RObject)
    ensures
        o.tt == RType::Array,
        o.value is Array,
        o.object_id == UNASSIGNED_ID,
        elems(o).len() == parts@.len(),
        forall|i: int| 0 <= i < parts@.len() ==> ok_text(Ok::<RObject, Error>(#[trigger] elems(o)[i]), parts@[i]@),
{
    let mut out: Vec<RObject> = Vec::new();
    let mut i: usize = 0;
    while i < parts.len()
        invariant
            0 <= i <= parts@.len(),
            out@.len() == i,
            forall|k: int| 0 <= k < i ==> ok_text(Ok::<RObject, Error>(#[trigger] out@[k]), parts@[k]@),
        decreases parts@.len() - i,
    {
        let p = parts[i].clone();
        out.push(RObject::string(p));
        i = i + 1;
    }
    RObject::array(out)
}

/// Runs a `String` native function on `recv`.
fn run_string(n: Native, recv: &RObject, args: &[RObject]) -> (r: Option<Result<RObject, Error>>)
    requires
        is_string_native(n),
        native_pre(n, *recv, args@),
    ensures
        string_ok(n, *recv, args@, r),
{
    match n {
        Native::StringSize => return Some(int_answer(mrb_string_size(recv))),
        Native::StringB => return Some(mrb_string_b(recv)),
        Native::StringClear => return Some(Ok(RObject::string(String::from_str("")))),
        Native::StringUnpack => return Some(match (&recv.value, &args[0].value) {
            (RValue::String(value), RValue::String(format)) => match unpack(value.as_slice(), format.as_slice()) {
                Ok(xs) => Ok(ints_to_array(&xs)),
                Err(e) => Err(e),
            },
            _ => Err(Error::TypeMismatch),
        }),
        Native::StringBytes => return Some(match mrb_string_bytes(recv) {
            Ok(v) => {
                let o = RObject::array(v);
                proof {
                    assert forall|i: int| 0 <= i < elems(o).len() implies model(#[trigger] elems(o)[i]) == int_model(
                        recv.value->String_0@[i] as i64,
                    ) by {
                        assert(elems(o)[i] == v@[i]);
                    }
                }
                Ok(o)
            },
            Err(e) => Err(e),
        }),
        _ => {},
    }
    let bytes = match &recv.value {
        RValue::String(b) => b,
        _ => return if let Native::StringGetbyte = n {
            Some(Err(Error::TypeMismatch))
        } else {
            None
        },
    };
    if let Native::StringGetbyte = n {
        return Some(match args[0].to_i64() {
            Err(e) => Err(e),
            Ok(k) => match string_getbyte(bytes.as_slice(), k) {
                Some(b) => Ok(RObject::integer(b as i64)),
                None => Ok(RObject::nil()),
            },
        });
    }
    let t = text_of(bytes.as_slice());
    let s = t.as_str();
    match n {
        Native::StringMul => return Some(match args[0].to_i64() {
            Err(e) => Err(e),
            Ok(k) => match string_mul(s, k) {
                Ok(u) => Ok(RObject::string(u)),
                Err(e) => Err(e),
            },
        }),
        Native::StringSlice => {
            let n_chars = s.unicode_len();
            if n_chars as u64 > 0x7fff_ffff_ffff_ffff {
                return None;
            }
            if args.len() == 0 {
                return Some(Err(Error::ArgumentError(String::from_str("wrong number of arguments"))));
            }
            let k = match args[0].to_i64() {
                Ok(k) => k,
                Err(e) => return Some(Err(e)),
            };
            let len = n_chars as i64;
            let idx: i64 = if k < 0 { len + k } else { k };
            let length: Option<i64> = if args.len() == 1 || idx < 0 || idx >= len {
                None
            } else {
                match args[1].to_i64() {
                    Ok(l) => {
                        if l >= 0 && idx > 0x7fff_ffff_ffff_ffff - l {
                            return None;
                        }
                        Some(l)
                    },
                    Err(e) => return Some(Err(e)),
                }
            };
            return Some(Ok(match string_slice(s, k, length) {
                Some(u) => RObject::string(u),
                None => RObject::nil(),
            }));
        },
        Native::StringDup => return Some(Ok(RObject::string(String::from_str(s)))),
        Native::StringToSym => return Some(Ok(RObject::symbol(RSym::new(String::from_str(s))))),
        Native::StringOrd => return Some(match string_ord(s) {
            Ok(c) => Ok(RObject::integer(c as i64)),
            Err(e) => Err(e),
        }),
        Native::StringSplit => {
            let parts = if args.len() == 0 {
                string_split_whitespace(s)
            } else {
                match &args[0].value {
                    RValue::String(b) => {
                        let sep = text_of(b.as_slice());
                        string_split(s, sep.as_str())
                    },
                    _ => return None,
                }
            };
            return Some(Ok(strings_to_array(parts)));
        },
        Native::StringIndex => {
            let other = match &args[0].value {
                RValue::String(b) => text_of(b.as_slice()),
                _ => return None,
            };
            return Some(match string_index(s, other.as_str()) {
                Some(k) => Ok(RObject::integer(k as i64)),
                None => Ok(RObject::nil()),
            });
        },
        _ => {},
    }
    match n {
        Native::StringAdd | Native::StringStartWith | Native::StringEndWith | Native::StringInclude => {
            let other = match &args[0].value {
                RValue::String(b) => text_of(b.as_slice()),
                _ => return None,
            };
            let u = other.as_str();
            Some(match n {
                Native::StringAdd => Ok(RObject::string(string_add(s, u))),
                Native::StringStartWith => Ok(RObject::boolean(string_start_with(s, u))),
                Native::StringEndWith => Ok(RObject::boolean(string_end_with(s, u))),
                _ => Ok(RObject::boolean(string_include(s, u))),
            })
        },
        Native::StringEmpty => Some(Ok(RObject::boolean(string_empty(s)))),
        Native::StringUpcase => Some(Ok(RObject::string(string_upcase(s)))),
        Native::StringDowncase => Some(Ok(RObject::string(string_downcase(s)))),
        Native::StringStrip => Some(Ok(RObject::string(string_strip(s)))),
        Native::StringLstrip => Some(Ok(RObject::string(string_lstrip(s)))),
        Native::StringRstrip => Some(Ok(RObject::string(string_rstrip(s)))),
        Native::StringChomp => Some(Ok(RObject::string(string_chomp(s)))),
        Native::StringToI => Some(Ok(RObject::integer(string_to_i(s)))),
        _ => Some(Ok(RObject::string(string_inspect(s)))),
    }
}

/// Replaces the bytes of string object `recv` by the UTF-8 encoding of `t`.
fn replace_text(recv: &mut RObject, t: String)
    requires
        old(recv).value is String,
    ensures
        replaced(*old(recv), *final(recv), t@),
{
    let o = RObject::string(t);
    recv.value = o.value;
}

/// Runs a `String` native function that may change the receiver.
fn run_string_mut(n: Native, recv: &mut RObject, args: &[RObject]) -> (r: Option<Result<RObject, Error>>)
    requires
        is_string_mut_native(n),
        native_pre(n, *old(recv), args@),
    ensures
        string_mut_ok(n, *old(recv), *final(recv), args@, r),
{
    if let Native::StringAppend = n {
        let other = match &args[0].value {
            RValue::String(b) => text_of(b.as_slice()),
            _ => return None,
        };
        return match mrb_string_append(recv, other.as_str()) {
            Ok(()) => Some(Ok(recv.duplicate())),
            Err(e) => Some(Err(e)),
        };
    }
    let is_string = match &recv.value {
        RValue::String(_) => true,
        _ => false,
    };
    if !is_string {
        return if let Native::StringSetbyte = n {
            Some(Err(Error::TypeMismatch))
        } else {
            None
        };
    }
    if let Native::StringSetbyte = n {
        let k = match args[0].to_i64() {
            Ok(k) => k,
            Err(e) => return Some(Err(e)),
        };
        let v = match args[1].to_i64() {
            Ok(v) => v,
            Err(e) => return Some(Err(e)),
        };
        return match &mut recv.value {
            RValue::String(bytes) => Some(match string_setbyte(bytes, k, v) {
                Ok(v) => Ok(RObject::integer(v)),
                Err(e) => Err(e),
            }),
            _ => None,
        };
    }
    let t = match &recv.value {
        RValue::String(b) => text_of(b.as_slice()),
        _ => return None,
    };
    let s = t.as_str();
    if let Native::StringSliceSelf = n {
        let n_chars = s.unicode_len();
        if n_chars as u64 > 0x7fff_ffff_ffff_ffff {
            return None;
        }
        if args.len() == 0 {
            return Some(Err(Error::ArgumentError(String::from_str("wrong number of arguments"))));
        }
        let a = strip_trailing_nil(args);
        let k = match a[0].to_i64() {
            Ok(k) => k,
            Err(e) => return Some(Err(e)),
        };
        let len = n_chars as i64;
        let idx: i64 = if k < 0 { len + k } else { k };
        let length: Option<i64> = if a.len() == 1 || idx < 0 || idx >= len {
            None
        } else {
            match a[1].to_i64() {
                Ok(l) => {
                    if l >= 0 && idx > 0x7fff_ffff_ffff_ffff - l {
                        return None;
                    }
                    Some(l)
                },
                Err(e) => return Some(Err(e)),
            }
        };
        return Some(Ok(match string_slice_bang(s, k, length) {
            Some((removed, rest)) => {
                replace_text(recv, rest);
                RObject::string(removed)
            },
            None => RObject::nil(),
        }));
    }
    let changed = match n {
        Native::StringStripSelf => string_strip_bang(s),
        Native::StringLstripSelf => string_lstrip_bang(s),
        Native::StringRstripSelf => string_rstrip_bang(s),
        Native::StringChompSelf => string_chomp_bang(s),
        Native::StringUpcaseSelf => string_upcase_bang(s),
        _ => string_downcase_bang(s),
    };
    match changed {
        Some(u) => {
            replace_text(recv, u);
            Some(Ok(recv.duplicate()))
        },
        None => Some(Ok(RObject::nil())),
    }
}

/// Runs an `Object` or `NilClass` native function on `recv`.
fn run_object(n: Native, recv: &RObject, args: &[RObject]) -> (r: Result<RObject, Error>)
    requires
        is_object_native(n),
        native_pre(n, *recv, args@),
    ensures
        object_ok(n, *recv, args@, r),
{
    match n {
        Native::ObjectSelf => Ok(recv.duplicate()),
        Native::ObjectNilP => Ok(RObject::boolean(false)),
        Native::NilclassNilP => Ok(RObject::boolean(true)),
        Native::ObjectDoubleEq => Ok(RObject::boolean(mrb_object_is_equal(recv, &args[0]))),
        Native::ObjectInitialize => Ok(RObject::nil()),
        Native::ObjectObjectId => {
            let x = recv.object_id;
            let v: i64 = if x >= 0x8000_0000_0000_0000 {
                (x - 0x8000_0000_0000_0000) as i64
            } else {
                (x as i64) - 0x7fff_ffff_ffff_ffff - 1
            };
            Ok(RObject::integer(v))
        },
        Native::NilclassToS => Ok(RObject::string(String::from_str(""))),
        Native::NilclassInspect => Ok(RObject::string(String::from_str("nil"))),
        Native::TrueclassToS | Native::TrueclassInspect => Ok(RObject::string(String::from_str("true"))),
        Native::FalseclassToS | Native::FalseclassInspect => Ok(RObject::string(String::from_str("false"))),
        Native::TrueclassAnd | Native::FalseclassOr | Native::FalseclassXor => Ok(
            RObject::boolean(args[0].is_truthy()),
        ),
        Native::TrueclassOr => Ok(RObject::boolean(true)),
        Native::TrueclassXor => Ok(RObject::boolean(!args[0].is_truthy())),
        _ => Ok(RObject::boolean(false)),
    }
}

/// Whether this library runs native function `n`.
fn runs(n: Native) -> (r: (bool, bool, bool, bool, bool))
    ensures
        r.0 == is_integer_native(n),
        r.1 == is_array_native(n),
        r.2 == is_string_native(n),
        r.3 == is_object_native(n),
        r.4 == is_string_mut_native(n),
{
    let i = match n {
        Native::IntegerMod | Native::IntegerPower | Native::IntegerAnd | Native::IntegerOr
        | Native::IntegerXor | Native::IntegerNot | Native::IntegerLshift | Native::IntegerRshift
        | Native::IntegerBitref | Native::IntegerNegative | Native::IntegerAbs | Native::IntegerToI
        | Native::IntegerInspect | Native::IntegerChr => true,
        _ => false,
    };
    let a = match n {
        Native::ArraySize | Native::ArrayEmpty | Native::ArrayInclude | Native::ArrayAdd
        | Native::ArrayAnd | Native::ArrayOr | Native::ArrayDup | Native::ArrayGetIndexSelf
        | Native::ArraySetIndexSelf | Native::ArrayPop | Native::ArrayShift | Native::ArrayClear
        | Native::ArrayDeleteAt | Native::ArrayPushSelf | Native::ArrayUnshift
        | Native::EnumerableSort | Native::EnumerableMin | Native::EnumerableMax
        | Native::EnumerableMinmax | Native::EnumerableCompact | Native::EnumerableCount
        | Native::EnumerableToA | Native::EnumerableUniq | Native::EnumerableSum | Native::ArrayFirst
        | Native::ArrayLast | Native::ArrayUniqSelf | Native::ArrayPack => true,
        _ => false,
    };
    let s = match n {
        Native::StringSize | Native::StringEmpty | Native::StringUpcase | Native::StringDowncase
        | Native::StringStrip | Native::StringLstrip | Native::StringRstrip | Native::StringChomp
        | Native::StringAdd | Native::StringStartWith | Native::StringEndWith | Native::StringInclude
        | Native::StringToI | Native::StringInspect | Native::StringGetbyte | Native::StringB
        | Native::StringMul | Native::StringOrd | Native::StringIndex | Native::StringBytes
        | Native::StringSplit | Native::StringUnpack | Native::StringSlice | Native::StringToSym
        | Native::StringDup | Native::StringClear => true,
        _ => false,
    };
    let m = match n {
        Native::StringAppend | Native::StringSetbyte | Native::StringStripSelf | Native::StringLstripSelf
        | Native::StringRstripSelf | Native::StringChompSelf | Native::StringUpcaseSelf
        | Native::StringDowncaseSelf | Native::StringSliceSelf => true,
        _ => false,
    };
    let o = match n {
        Native::ObjectSelf | Native::ObjectNilP | Native::NilclassNilP | Native::ObjectDoubleEq
        | Native::ObjectInitialize | Native::ObjectObjectId | Native::NilclassToS | Native::NilclassInspect
        | Native::TrueclassToS | Native::TrueclassInspect | Native::TrueclassAnd | Native::TrueclassOr
        | Native::TrueclassXor | Native::FalseclassToS | Native::FalseclassInspect | Native::FalseclassAnd
        | Native::FalseclassOr | Native::FalseclassXor => true,
        _ => false,
    };
    (i, a, s, o, m)
}

impl Runtime {
    /// Calls method `name` on `recv` with `args`: looks the method up along
    /// the lookup chain of the receiver's built-in class and runs its native
    /// function, which may change the receiver in place. Answers `None` for
    /// a native function that this library does not run.
    pub fn funcall(&self, recv: &mut RObject, name: &str, args: &[RObject]) -> (r: Option<Result<RObject, Error>>)
        requires
            self.wf(),
            method_of(self.classes.builtins@, builtin_class_name(old(recv).value)) is Some,
            call_pre(*self, *old(recv), name@, args@),
        ensures
            call_ok(*self, *old(recv), *final(recv), name@, args@, r),
    {
        let cname: &str = match &recv.value {
            RValue::Bool(b) => if *b { "TrueClass" } else { "FalseClass" },
            RValue::Symbol(_) => "Symbol",
            RValue::Integer(_) => "Integer",
            RValue::String(_) => "String",
            RValue::Array(_) => "Array",
            RValue::Range(_, _, _) => "Range",
            RValue::Nil => "NilClass",
        };
        let c = self.classes.get_class_by_name(cname);
        match self.classes.resolve_method(c, name) {
            None => Some(Err(Error::NoMethodError(String::from_str(name)))),
            Some(found) => {
                let id = found.1;
                if id >= self.fns.len() as u64 {
                    return None;
                }
                let n = self.fns[id as usize];
                proof {
                    assert(native_for(*self, *old(recv), name@) == Some(n));
                }
                let (i, a, s, o, m) = runs(n);
                if i {
                    run_integer(n, recv, args)
                } else if a {
                    Some(run_array(n, recv, args))
                } else if s {
                    run_string(n, recv, args)
                } else if o {
                    Some(run_object(n, recv, args))
                } else if m {
                    run_string_mut(n, recv, args)
                } else {
                    None
                }
            },
        }
    }
}

/// The methods that the `String` initializer binds to one native function
/// answer alike on every string and every argument list: `size`, `length`
/// and `bytesize` answer the number of bytes and leave the string as it
/// was, `to_s` answers the receiver, `slice` answers what `[]` answers and
/// `to_sym` what `intern` answers. Its hypotheses are what
/// `initialize_string` ensures of the class it defines.
pub proof fn lemma_string_methods(rt: Runtime, c: usize, s: RObject, args: Seq<RObject>)
    requires
        rt.wf(),
        c < rt.classes.classes@.len(),
        method_of(rt.classes.builtins@, "String"@) == Some(c),
        installed(rt, module_of(rt, c as int), string_methods()),
        s.value is String,
    ensures
        forall|after: RObject, r: Option<Result<RObject, Error>>| #[trigger] call_ok(rt, s, after, "size"@, args, r)
            ==> after == s && (r matches Some(Ok(o)) && model(o) == int_model(s.value->String_0@.len() as i64)),
        forall|after: RObject, r: Option<Result<RObject, Error>>| #[trigger] call_ok(rt, s, after, "length"@, args, r)
            ==> after == s && (r matches Some(Ok(o)) && model(o) == int_model(s.value->String_0@.len() as i64)),
        forall|after: RObject, r: Option<Result<RObject, Error>>| #[trigger] call_ok(rt, s, after, "bytesize"@, args, r)
            ==> after == s && (r matches Some(Ok(o)) && model(o) == int_model(s.value->String_0@.len() as i64)),
        forall|after: RObject, r: Option<Result<RObject, Error>>| #[trigger] call_ok(rt, s, after, "to_s"@, args, r)
            ==> after == s && (r matches Some(Ok(o)) && model(o) == model(s)),
        forall|after: RObject, r: Option<Result<RObject, Error>>| #[trigger] call_ok(rt, s, after, "slice"@, args, r)
            <==> call_ok(rt, s, after, "[]"@, args, r),
        forall|after: RObject, r: Option<Result<RObject, Error>>| #[trigger] call_ok(rt, s, after, "to_sym"@, args, r)
            <==> call_ok(rt, s, after, "intern"@, args, r),
        native_for(rt, s, "size"@) == Some(Native::StringSize),
        native_for(rt, s, "slice"@) == Some(Native::StringSlice),
        native_for(rt, s, "[]"@) == Some(Native::StringSlice),
        native_for(rt, s, "to_sym"@) == Some(Native::StringToSym),
        native_for(rt, s, "intern"@) == Some(Native::StringToSym),
{
    reveal_strlit("String");
    assert(builtin_class_name(s.value) == "String"@);
    assert(class_of(rt, s) == c as int);
    lemma_string_table_bindings();
    lemma_table_method_wins(rt, c, string_methods(), "size"@);
    lemma_table_method_wins(rt, c, string_methods(), "length"@);
    lemma_table_method_wins(rt, c, string_methods(), "bytesize"@);
    lemma_table_method_wins(rt, c, string_methods(), "to_s"@);
    lemma_table_method_wins(rt, c, string_methods(), "slice"@);
    lemma_table_method_wins(rt, c, string_methods(), "[]"@);
    lemma_table_method_wins(rt, c, string_methods(), "to_sym"@);
    lemma_table_method_wins(rt, c, string_methods(), "intern"@);
}

} // verus!
