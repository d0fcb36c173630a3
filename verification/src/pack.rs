//! `Array#pack` and `String#unpack` for the integer directives
//! `Q q L I l i S s C c` (little-endian), with spaces ignored.
use vstd::prelude::*;
use crate::error::Error;
use crate::value::{RObject, RValue};

verus! {

/// Number of bytes a directive covers, or `None` for anything that is not a
/// supported integer directive.
pub open spec fn directive_width(c: u8) -> Option<nat> {
    if c == 81 || c == 113 {
        Some(8)  // Q q
    } else if c == 76 || c == 73 || c == 108 || c == 105 {
        Some(4)  // L I l i
    } else if c == 83 || c == 115 {
        Some(2)  // S s
    } else if c == 67 || c == 99 {
        Some(1)  // C c
    } else {
        None
    }
}

/// Whether a directive reads its bytes as a two's-complement number. `Q`
/// counts as signed: its 64 bits are reinterpreted as an `i64`.
pub open spec fn directive_signed(c: u8) -> bool {
    c == 81 || c == 113 || c == 108 || c == 105 || c == 115 || c == 99
}

/// The space character, which directives may be separated by.
pub open spec fn is_space(c: u8) -> bool {
    c == 32
}

/// `256` to the power `w`.
pub open spec fn pow256(w: nat) -> nat
    decreases w,
{
    if w == 0 {
        1
    } else {
        256 * pow256((w - 1) as nat)
    }
}

/// Little-endian value of the `w` bytes of `v` from `at`.
pub open spec fn le_value(v: Seq<u8>, at: int, w: nat) -> nat
    decreases w,
{
    if w == 0 {
        0
    } else {
        (v[at] as nat) + 256 * le_value(v, at + 1, (w - 1) as nat)
    }
}

/// The `w` low bytes of `x`, least significant first.
pub open spec fn le_bytes(x: nat, w: nat) -> Seq<u8>
    decreases w,
{
    if w == 0 {
        Seq::empty()
    } else {
        seq![(x % 256) as u8] + le_bytes(x / 256, (w - 1) as nat)
    }
}

/// Two's-complement reading of an unsigned value `u` of `w` bytes.
pub open spec fn to_signed(u: nat, w: nat) -> int {
    if u >= pow256(w) / 2 {
        u - pow256(w)
    } else {
        u as int
    }
}

/// What stopped an unpacking.
pub enum UnpackFailure {
    NotEnoughBytes,
    Unsupported,
}

/// The integers read from `v` at `cursor` for the directives `fmt[i..]`.
pub open spec fn unpack_from(v: Seq<u8>, fmt: Seq<u8>, i: int, cursor: int) -> Result<Seq<int>, UnpackFailure>
    decreases fmt.len() - i,
{
    if i >= fmt.len() {
        Ok(Seq::empty())
    } else if is_space(fmt[i]) {
        unpack_from(v, fmt, i + 1, cursor)
    } else {
        match directive_width(fmt[i]) {
            None => Err(UnpackFailure::Unsupported),
            Some(w) => if cursor + w > v.len() {
                Err(UnpackFailure::NotEnoughBytes)
            } else {
                let u = le_value(v, cursor, w);
                let x = if directive_signed(fmt[i]) {
                    to_signed(u, w)
                } else {
                    u as int
                };
                match unpack_from(v, fmt, i + 1, cursor + w) {
                    Ok(rest) => Ok(seq![x] + rest),
                    Err(e) => Err(e),
                }
            },
        }
    }
}

/// The bytes written for the object `o` under a directive of width `w`:
/// an integer's low bytes, 1 or 0 for a boolean; nothing else converts.
pub open spec fn packed_item(o: RObject, w: nat) -> Option<Seq<u8>> {
    match o.value {
        RValue::Integer(n) => Some(le_bytes((n as int % 0x1_0000_0000_0000_0000) as nat, w)),
        RValue::Bool(b) => Some(le_bytes(if b { 1 } else { 0 }, w)),
        _ => None,
    }
}

/// What stopped a packing.
pub enum PackFailure {
    TypeMismatch,
    Unsupported,
    OutOfItems,
}

/// The bytes packed from `items[index..]` for the directives `fmt[i..]`.
pub open spec fn pack_from(items: Seq<RObject>, fmt: Seq<u8>, i: int, index: int) -> Result<Seq<u8>, PackFailure>
    decreases fmt.len() - i,
{
    if i >= fmt.len() {
        Ok(Seq::empty())
    } else if is_space(fmt[i]) {
        pack_from(items, fmt, i + 1, index)
    } else {
        match directive_width(fmt[i]) {
            None => Err(PackFailure::Unsupported),
            Some(w) => if index >= items.len() {
                Err(PackFailure::OutOfItems)
            } else {
                match packed_item(items[index], w) {
                    None => Err(PackFailure::TypeMismatch),
                    Some(b) => match pack_from(items, fmt, i + 1, index + 1) {
                        Ok(rest) => Ok(b + rest),
                        Err(e) => Err(e),
                    },
                }
            },
        }
    }
}

/// The width of a supported directive.
fn width_of(c: u8) -> (r: Option<usize>)
    ensures
        match directive_width(c) {
            Some(w) => r == Some(w as usize),
            None => r is None,
        },
{
    if c == 81u8 || c == 113u8 {
        Some(8)
    } else if c == 76u8 || c == 73u8 || c == 108u8 || c == 105u8 {
        Some(4)
    } else if c == 83u8 || c == 115u8 {
        Some(2)
    } else if c == 67u8 || c == 99u8 {
        Some(1)
    } else {
        None
    }
}

/// `256^w` for widths up to eight.
proof fn lemma_pow256_values()
    ensures
        pow256(0) == 1,
        pow256(1) == 0x100,
        pow256(2) == 0x10000,
        pow256(4) == 0x1_0000_0000,
        pow256(7) == 0x100_0000_0000_0000,
        pow256(8) == 0x1_0000_0000_0000_0000,
{
    reveal_with_fuel(pow256, 9);
}

/// A little-endian value of `w` bytes is below `256^w`.
proof fn lemma_le_value_bound(v: Seq<u8>, at: int, w: nat)
    ensures
        le_value(v, at, w) < pow256(w),
    decreases w,
{
    if w > 0 {
        lemma_le_value_bound(v, at + 1, (w - 1) as nat);
    }
}

/// `256^w` grows with `w`.
proof fn lemma_pow256_mono(a: nat, b: nat)
    requires
        a <= b,
    ensures
        pow256(a) <= pow256(b),
    decreases b,
{
    if a < b {
        lemma_pow256_mono(a, (b - 1) as nat);
    }
}

/// Reads the little-endian value of `w <= 8` bytes of `v` from `at`.
fn read_le(v: &[u8], at: usize, w: usize) -> (r: u64)
    requires
        w <= 8,
        at + w <= v@.len(),
    ensures
        r as nat == le_value(v@, at as int, w as nat),
    decreases w,
{
    let _len = v.len();
    if w == 0 {
        0
    } else {
        let rest = read_le(v, at + 1, w - 1);
        proof {
            lemma_le_value_bound(v@, at + 1, (w - 1) as nat);
            lemma_pow256_mono((w - 1) as nat, 7);
            lemma_pow256_values();
        }
        (v[at] as u64) + 256 * rest
    }
}

/// Reads a directive's integer of width `w` from `v` at `at`.
fn read_directive(v: &[u8], at: usize, c: u8, w: usize) -> (r: i64)
    requires
        directive_width(c) == Some(w as nat),
        at + w <= v@.len(),
    ensures
        r == (if directive_signed(c) {
            to_signed(le_value(v@, at as int, w as nat), w as nat)
        } else {
            le_value(v@, at as int, w as nat) as int
        }),
{
    let u = read_le(v, at, w);
    proof {
        lemma_le_value_bound(v@, at as int, w as nat);
        lemma_pow256_values();
    }
    let signed = c == 81u8 || c == 113u8 || c == 108u8 || c == 105u8 || c == 115u8 || c == 99u8;
    if !signed {
        return u as i64;
    }
    if w == 8 {
        if u >= 0x8000_0000_0000_0000 {
            ((u - 0x8000_0000_0000_0000) as i64) - 0x7fff_ffff_ffff_ffff - 1
        } else {
            u as i64
        }
    } else if w == 4 {
        if u >= 0x8000_0000 {
            (u as i64) - 0x1_0000_0000
        } else {
            u as i64
        }
    } else if w == 2 {
        if u >= 0x8000 {
            (u as i64) - 0x10000
        } else {
            u as i64
        }
    } else {
        if u >= 0x80 {
            (u as i64) - 0x100
        } else {
            u as i64
        }
    }
}

/// Model of an unpacking outcome as errors of the runtime.
pub open spec fn unpack_matches(r: Result<Vec<i64>, Error>, s: Result<Seq<int>, UnpackFailure>) -> bool {
    match s {
        Ok(xs) => r matches Ok(v) && v@.len() == xs.len() && forall|k: int|
            0 <= k < xs.len() ==> v@[k] as int == #[trigger] xs[k],
        Err(UnpackFailure::NotEnoughBytes) => r matches Err(Error::RuntimeError(m)) && m@ == "Not enough bytes"@,
        Err(UnpackFailure::Unsupported) => r matches Err(Error::RuntimeError(m)) && m@ == "Unsupported format"@,
    }
}

/// Reads integers from the bytes `value` as the directives of `format` say.
pub fn unpack(value: &[u8], format: &[u8]) -> (r: Result<Vec<i64>, Error>)
    ensures
        unpack_matches(r, unpack_from(value@, format@, 0, 0)),
{
    let mut out: Vec<i64> = Vec::new();
    let mut cursor: usize = 0;
    let mut i: usize = 0;
    let len = value.len();
    while i < format.len()
        invariant
            i <= format@.len(),
            cursor <= len,
            len == value@.len(),
            match unpack_from(value@, format@, i as int, cursor as int) {
                Ok(rest) => unpack_from(value@, format@, 0, 0) == Ok::<Seq<int>, UnpackFailure>(
                    out@.map_values(|x: i64| x as int) + rest),
                Err(e) => unpack_from(value@, format@, 0, 0) == Err::<Seq<int>, UnpackFailure>(e),
            },
        decreases format@.len() - i,
    {
        let c = format[i];
        if c == 32u8 {
            i = i + 1;
            continue;
        }
        match width_of(c) {
            None => {
                return Err(Error::RuntimeError(String::from_str("Unsupported format")));
            },
            Some(w) => {
                if len - cursor < w {
                    return Err(Error::RuntimeError(String::from_str("Not enough bytes")));
                }
                let x = read_directive(value, cursor, c, w);
                let ghost before = out@.map_values(|x: i64| x as int);
                out.push(x);
                proof {
                    assert(out@.map_values(|x: i64| x as int) =~= before.push(x as int));
                    match unpack_from(value@, format@, i + 1, cursor + w) {
                        Ok(rest) => {
                            assert(before + (seq![x as int] + rest) =~= before.push(x as int) + rest);
                        },
                        Err(_) => {},
                    }
                }
                cursor = cursor + w;
                i = i + 1;
            },
        }
    }
    proof {
        let xs = out@.map_values(|x: i64| x as int);
        assert(xs + Seq::<int>::empty() =~= xs);
    }
    Ok(out)
}

/// Appends the `w` low bytes of `x`, least significant first.
fn write_le(buf: &mut Vec<u8>, x: u64, w: usize)
    ensures
        final(buf)@ == old(buf)@ + le_bytes(x as nat, w as nat),
{
    let ghost start = buf@;
    let mut cur = x;
    let mut k: usize = 0;
    while k < w
        invariant
            k <= w,
            start + le_bytes(x as nat, w as nat) == buf@ + le_bytes(cur as nat, (w - k) as nat),
        decreases w - k,
    {
        let ghost before = buf@;
        buf.push((cur % 256) as u8);
        proof {
            let m = (w - k) as nat;
            assert(le_bytes(cur as nat, m) == seq![(cur % 256) as u8] + le_bytes((cur / 256) as nat, (m - 1) as nat));
            assert(before + le_bytes(cur as nat, m) =~= buf@ + le_bytes((cur / 256) as nat, (m - 1) as nat));
        }
        cur = cur / 256;
        k = k + 1;
    }
    assert(buf@ + le_bytes(cur as nat, 0) =~= buf@);
}

/// The unsigned 64-bit pattern of an integer object, or of a boolean as 1 or
/// 0; `None` for anything else.
fn item_bits(o: &RObject) -> (r: Option<u64>)
    ensures
        match o.value {
            RValue::Integer(n) => r == Some((n as int % 0x1_0000_0000_0000_0000) as u64),
            RValue::Bool(b) => r == Some(if b { 1u64 } else { 0u64 }),
            _ => r is None,
        },
{
    match &o.value {
        RValue::Integer(n) => {
            let n = *n;
            if n >= 0 {
                Some(n as u64)
            } else {
                Some(0xffff_ffff_ffff_ffff - ((-(n + 1)) as u64))
            }
        },
        RValue::Bool(b) => Some(if *b { 1 } else { 0 }),
        _ => None,
    }
}

/// Whether packing `items` under `format` would need an item past the end,
/// which `pack` answers with an argument error.
pub fn pack_runs_out(items: &[RObject], format: &[u8]) -> (r: bool)
    ensures
        r == (pack_from(items@, format@, 0, 0) matches Err(PackFailure::OutOfItems)),
{
    let mut index: usize = 0;
    let mut i: usize = 0;
    while i < format.len()
        invariant
            i <= format@.len(),
            index <= items@.len(),
            (pack_from(items@, format@, 0, 0) matches Err(PackFailure::OutOfItems)) == (pack_from(
                items@,
                format@,
                i as int,
                index as int,
            ) matches Err(PackFailure::OutOfItems)),
        decreases format@.len() - i,
    {
        let c = format[i];
        if c == 32u8 {
            i = i + 1;
            continue;
        }
        match width_of(c) {
            None => {
                return false;
            },
            Some(_) => {
                if index >= items.len() {
                    return true;
                }
                if item_bits(&items[index]).is_none() {
                    return false;
                }
                index = index + 1;
                i = i + 1;
            },
        }
    }
    false
}

/// Writes the integers (or booleans) of `items` as the directives of
/// `format` say.
pub fn pack(items: &[RObject], format: &[u8]) -> (r: Result<Vec<u8>, Error>)
    ensures
        match pack_from(items@, format@, 0, 0) {
            Ok(b) => r matches Ok(v) && v@ == b,
            Err(PackFailure::TypeMismatch) => r matches Err(Error::TypeMismatch),
            Err(PackFailure::Unsupported) => r matches Err(Error::RuntimeError(m)) && m@ == "Unsupported format"@,
            Err(PackFailure::OutOfItems) => r matches Err(Error::ArgumentError(m)) && m@ == "too few arguments"@,
        },
{
    let mut buf: Vec<u8> = Vec::new();
    let mut index: usize = 0;
    let mut i: usize = 0;
    while i < format.len()
        invariant
            i <= format@.len(),
            index <= items@.len(),
            match pack_from(items@, format@, i as int, index as int) {
                Ok(rest) => pack_from(items@, format@, 0, 0) == Ok::<Seq<u8>, PackFailure>(buf@ + rest),
                Err(e) => pack_from(items@, format@, 0, 0) == Err::<Seq<u8>, PackFailure>(e),
            },
        decreases format@.len() - i,
    {
        let c = format[i];
        if c == 32u8 {
            i = i + 1;
            continue;
        }
        match width_of(c) {
            None => {
                return Err(Error::RuntimeError(String::from_str("Unsupported format")));
            },
            Some(w) => {
                if index >= items.len() {
                    return Err(Error::ArgumentError(String::from_str("too few arguments")));
                }
                let x = match item_bits(&items[index]) {
                    Some(x) => x,
                    None => {
                        return Err(Error::TypeMismatch);
                    },
                };
                let ghost before = buf@;
                write_le(&mut buf, x, w);
                proof {
                    match pack_from(items@, format@, i + 1, index + 1) {
                        Ok(rest) => {
                            assert(before + (le_bytes(x as nat, w as nat) + rest) =~= buf@ + rest);
                        },
                        Err(_) => {},
                    }
                }
                index = index + 1;
                i = i + 1;
            },
        }
    }
    assert(buf@ + Seq::<u8>::empty() =~= buf@);
    Ok(buf)
}

} // verus!

verus! {

// ---------------------------------------------------------------------------
// Laws
// ---------------------------------------------------------------------------

/// The directives of `fmt[i..]`: its bytes other than spaces, in order.
pub open spec fn directive_seq(fmt: Seq<u8>, i: int) -> Seq<u8>
    decreases fmt.len() - i,
{
    if i >= fmt.len() {
        Seq::empty()
    } else if is_space(fmt[i]) {
        directive_seq(fmt, i + 1)
    } else {
        seq![fmt[i]] + directive_seq(fmt, i + 1)
    }
}

/// The integer an object holds (zero for any other object).
pub open spec fn item_int(o: RObject) -> int {
    match o.value {
        RValue::Integer(n) => n as int,
        _ => 0,
    }
}

/// What reading back the bytes written for `n` under directive `c` gives:
/// `n` modulo `256^w`, taken as two's complement for a signed directive.
pub open spec fn reread(n: int, c: u8) -> int {
    let w = directive_width(c).unwrap();
    let u = (n % (pow256(w) as int)) as nat;
    if directive_signed(c) {
        to_signed(u, w)
    } else {
        u as int
    }
}

/// The range of values a directive carries unchanged.
pub open spec fn fits_directive(n: int, c: u8) -> bool {
    let w = directive_width(c).unwrap();
    if directive_signed(c) {
        -(pow256(w) as int) / 2 <= n < (pow256(w) as int) / 2
    } else {
        0 <= n < pow256(w)
    }
}

proof fn lemma_pow256_add(a: nat, b: nat)
    ensures
        pow256(a + b) == pow256(a) * pow256(b),
    decreases a,
{
    if a > 0 {
        lemma_pow256_add((a - 1) as nat, b);
        let pa = pow256((a - 1) as nat);
        let pb = pow256(b);
        assert(pow256(a + b) == 256 * pow256((a - 1 + b) as nat));
        assert(256 * (pa * pb) == (256 * pa) * pb) by (nonlinear_arith);
    } else {
        assert(pow256(a + b) == pow256(b));
        assert(1 * pow256(b) == pow256(b));
    }
}

proof fn lemma_pow256_pos(w: nat)
    ensures
        pow256(w) > 0,
    decreases w,
{
    if w > 0 {
        lemma_pow256_pos((w - 1) as nat);
    }
}

proof fn lemma_le_bytes_len(x: nat, w: nat)
    ensures
        le_bytes(x, w).len() == w,
    decreases w,
{
    if w > 0 {
        lemma_le_bytes_len(x / 256, (w - 1) as nat);
    }
}

/// A little-endian value depends only on the bytes it covers.
proof fn lemma_le_value_ext(s: Seq<u8>, at: int, t: Seq<u8>, at2: int, w: nat)
    requires
        0 <= at,
        at + w <= s.len(),
        0 <= at2,
        at2 + w <= t.len(),
        s.subrange(at, at + w) == t.subrange(at2, at2 + w),
    ensures
        le_value(s, at, w) == le_value(t, at2, w),
    decreases w,
{
    if w > 0 {
        assert(s[at] == s.subrange(at, at + w)[0]);
        assert(t[at2] == t.subrange(at2, at2 + w)[0]);
        assert(s.subrange(at + 1, at + w) =~= s.subrange(at, at + w).subrange(1, w as int));
        assert(t.subrange(at2 + 1, at2 + w) =~= t.subrange(at2, at2 + w).subrange(1, w as int));
        lemma_le_value_ext(s, at + 1, t, at2 + 1, (w - 1) as nat);
    }
}

/// Reading back the `w` low bytes of `x` gives `x` modulo `256^w`.
proof fn lemma_le_value_of_bytes(x: nat, w: nat)
    ensures
        le_value(le_bytes(x, w), 0, w) == x % pow256(w),
    decreases w,
{
    if w == 0 {
    } else {
        let s = le_bytes(x, w);
        let tail = le_bytes(x / 256, (w - 1) as nat);
        lemma_le_bytes_len(x / 256, (w - 1) as nat);
        assert(s == seq![(x % 256) as u8] + tail);
        assert(s.subrange(1, w as int) =~= tail.subrange(0, w - 1));
        lemma_le_value_ext(s, 1, tail, 0, (w - 1) as nat);
        lemma_le_value_of_bytes(x / 256, (w - 1) as nat);
        lemma_pow256_pos((w - 1) as nat);
        vstd::arithmetic::div_mod::lemma_mod_breakdown(x as int, 256, pow256((w - 1) as nat) as int);
    }
}

/// Reading back a value written under a directive gives the value modulo
/// the directive's width, for values that fit it the value itself.
pub proof fn lemma_reread_fits(n: int, c: u8)
    requires
        directive_width(c) is Some,
        fits_directive(n, c),
    ensures
        reread(n, c) == n,
{
    lemma_pow256_values();
    let w = directive_width(c).unwrap();
    let p = pow256(w) as int;
    if n >= 0 {
        vstd::arithmetic::div_mod::lemma_small_mod(n as nat, p as nat);
    } else {
        vstd::arithmetic::div_mod::lemma_fundamental_div_mod_converse(n, p, -1, n + p);
    }
}

/// The bytes packed for `items[idx..]` under `fmt[i..]`, read back from
/// behind any prefix, give each integer as its directive rereads it.
proof fn lemma_pack_unpack_from(items: Seq<RObject>, fmt: Seq<u8>, i: int, idx: int, pre: Seq<u8>)
    requires
        0 <= i <= fmt.len(),
        0 <= idx <= items.len(),
        pack_from(items, fmt, i, idx) is Ok,
        forall|k: int| 0 <= k < items.len() ==> #[trigger] items[k].value is Integer,
    ensures
        ({
            let d = directive_seq(fmt, i);
            &&& idx + d.len() <= items.len()
            &&& unpack_from(pre + pack_from(items, fmt, i, idx)->Ok_0, fmt, i, pre.len() as int)
                == Ok::<Seq<int>, UnpackFailure>(Seq::new(d.len(), |k: int| reread(item_int(items[idx + k]), d[k])))
        }),
    decreases fmt.len() - i,
{
    let d = directive_seq(fmt, i);
    let b = pack_from(items, fmt, i, idx)->Ok_0;
    if i >= fmt.len() {
        assert(pre + b =~= pre);
        assert(Seq::new(d.len(), |k: int| reread(item_int(items[idx + k]), d[k])) =~= Seq::<int>::empty());
    } else if is_space(fmt[i]) {
        lemma_pack_unpack_from(items, fmt, i + 1, idx, pre);
        assert(Seq::new(d.len(), |k: int| reread(item_int(items[idx + k]), d[k])) =~= Seq::new(
            directive_seq(fmt, i + 1).len(), |k: int| reread(item_int(items[idx + k]), directive_seq(fmt, i + 1)[k])));
    } else {
        let c = fmt[i];
        let w = directive_width(c).unwrap();
        let o = items[idx];
        assert(o.value is Integer);
        let n = item_int(o);
        let x = (n % 0x1_0000_0000_0000_0000) as nat;
        let bytes = le_bytes(x, w);
        let rest = pack_from(items, fmt, i + 1, idx + 1)->Ok_0;
        assert(b == bytes + rest);
        lemma_le_bytes_len(x, w);
        let pre2 = pre + bytes;
        lemma_pack_unpack_from(items, fmt, i + 1, idx + 1, pre2);
        let v = pre + b;
        assert(v =~= pre2 + rest);
        // the value read at the cursor
        assert(v.subrange(pre.len() as int, pre.len() + w as int) =~= bytes.subrange(0, w as int));
        lemma_le_value_ext(v, pre.len() as int, bytes, 0, w);
        lemma_le_value_of_bytes(x, w);
        lemma_pow256_values();
        assert(w <= 8);
        lemma_pow256_add(w, (8 - w) as nat);
        lemma_pow256_pos(w);
        lemma_pow256_pos((8 - w) as nat);
        vstd::arithmetic::div_mod::lemma_mod_mod(n, pow256(w) as int, pow256((8 - w) as nat) as int);
        assert(le_value(v, pre.len() as int, w) == n % (pow256(w) as int));
        let d2 = directive_seq(fmt, i + 1);
        assert(d == seq![c] + d2);
        let tail = Seq::new(d2.len(), |k: int| reread(item_int(items[idx + 1 + k]), d2[k]));
        assert(seq![reread(n, c)] + tail =~= Seq::new(d.len(), |k: int| reread(item_int(items[idx + k]), d[k])));
    }
}

/// Unpacking what was packed, under the same format, gives back each
/// integer as its directive rereads it; with `lemma_reread_fits`, the
/// integers themselves where they fit their directives.
pub proof fn lemma_pack_then_unpack(items: Seq<RObject>, fmt: Seq<u8>)
    requires
        pack_from(items, fmt, 0, 0) is Ok,
        forall|k: int| 0 <= k < items.len() ==> #[trigger] items[k].value is Integer,
    ensures
        ({
            let d = directive_seq(fmt, 0);
            &&& d.len() <= items.len()
            &&& unpack_from(pack_from(items, fmt, 0, 0)->Ok_0, fmt, 0, 0)
                == Ok::<Seq<int>, UnpackFailure>(Seq::new(d.len(), |k: int| reread(item_int(items[k]), d[k])))
        }),
{
    lemma_pack_unpack_from(items, fmt, 0, 0, Seq::empty());
    let b = pack_from(items, fmt, 0, 0)->Ok_0;
    assert(Seq::<u8>::empty() + b =~= b);
    let d = directive_seq(fmt, 0);
    assert(Seq::new(d.len(), |k: int| reread(item_int(items[0 + k]), d[k])) =~= Seq::new(d.len(), |k: int| reread(item_int(items[k]), d[k])));
}

/// Whether every byte of `fmt[i..]` is a space or a supported directive.
pub open spec fn directives_supported(fmt: Seq<u8>, i: int) -> bool {
    forall|k: int| i <= k < fmt.len() ==> is_space(fmt[k]) || directive_width(#[trigger] fmt[k]) is Some
}

/// The total width of the directives `d`.
pub open spec fn width_sum(d: Seq<u8>) -> nat
    decreases d.len(),
{
    if d.len() == 0 {
        0
    } else {
        directive_width(d[0]).unwrap() + width_sum(d.drop_first())
    }
}

/// Integer items, enough of them, under supported directives pack without
/// fail into as many bytes as the directives are wide.
proof fn lemma_pack_succeeds(items: Seq<RObject>, fmt: Seq<u8>, i: int, idx: int)
    requires
        0 <= i <= fmt.len(),
        0 <= idx,
        directives_supported(fmt, i),
        idx + directive_seq(fmt, i).len() <= items.len(),
        forall|k: int| 0 <= k < items.len() ==> #[trigger] items[k].value is Integer,
    ensures
        pack_from(items, fmt, i, idx) is Ok,
        pack_from(items, fmt, i, idx)->Ok_0.len() == width_sum(directive_seq(fmt, i)),
    decreases fmt.len() - i,
{
    if i < fmt.len() {
        assert(directives_supported(fmt, i + 1));
        if is_space(fmt[i]) {
            lemma_pack_succeeds(items, fmt, i + 1, idx);
        } else {
            let d = directive_seq(fmt, i);
            assert(d.drop_first() =~= directive_seq(fmt, i + 1));
            lemma_pack_succeeds(items, fmt, i + 1, idx + 1);
            assert(items[idx].value is Integer);
            let w = directive_width(fmt[i]).unwrap();
            let n = item_int(items[idx]);
            lemma_le_bytes_len((n % 0x1_0000_0000_0000_0000) as nat, w);
        }
    }
}

/// Packing `n` integers under `n` supported directives, each integer in its
/// directive's range, succeeds with as many bytes as the directives are
/// wide, and unpacking those bytes under the same format gives the integers
/// back.
pub proof fn lemma_pack_unpack_roundtrip(items: Seq<RObject>, fmt: Seq<u8>)
    requires
        directives_supported(fmt, 0),
        directive_seq(fmt, 0).len() == items.len(),
        forall|k: int| 0 <= k < items.len() ==> #[trigger] items[k].value is Integer,
        forall|k: int| 0 <= k < items.len() ==> fits_directive(item_int(#[trigger] items[k]), directive_seq(fmt, 0)[k]),
    ensures
        pack_from(items, fmt, 0, 0) is Ok,
        pack_from(items, fmt, 0, 0)->Ok_0.len() == width_sum(directive_seq(fmt, 0)),
        unpack_from(pack_from(items, fmt, 0, 0)->Ok_0, fmt, 0, 0) == Ok::<Seq<int>, UnpackFailure>(
            Seq::new(items.len(), |k: int| item_int(items[k])),
        ),
{
    lemma_pack_succeeds(items, fmt, 0, 0);
    lemma_pack_then_unpack(items, fmt);
    let d = directive_seq(fmt, 0);
    assert forall|k: int| 0 <= k < d.len() implies directive_width(#[trigger] d[k]) is Some by {
        lemma_directive_seq_supported(fmt, 0, k);
    }
    assert forall|k: int| 0 <= k < d.len() implies reread(item_int(items[k]), d[k]) == item_int(items[k]) by {
        assert(fits_directive(item_int(items[k]), d[k]));
        assert(directive_width(d[k]) is Some);
        lemma_reread_fits(item_int(items[k]), d[k]);
    }
    assert(Seq::new(d.len(), |k: int| reread(item_int(items[k]), d[k])) =~= Seq::new(items.len(), |k: int| item_int(items[k])));
}

/// The directives picked out of a supported format are supported.
proof fn lemma_directive_seq_supported(fmt: Seq<u8>, i: int, k: int)
    requires
        0 <= i <= fmt.len(),
        directives_supported(fmt, i),
        0 <= k < directive_seq(fmt, i).len(),
    ensures
        directive_width(directive_seq(fmt, i)[k]) is Some,
    decreases fmt.len() - i,
{
    if i < fmt.len() {
        assert(directives_supported(fmt, i + 1));
        if is_space(fmt[i]) {
            lemma_directive_seq_supported(fmt, i + 1, k);
        } else if k > 0 {
            lemma_directive_seq_supported(fmt, i + 1, k - 1);
        } else {
            assert(directive_width(fmt[i]) is Some);
        }
    }
}

/// The little-endian unsigned value of the first four bytes of `v`.
pub open spec fn first_u32(v: Seq<u8>) -> int {
    v[0] as int + 0x100 * (v[1] as int) + 0x10000 * (v[2] as int) + 0x1000000 * (v[3] as int)
}

/// The little-endian unsigned value of the first eight bytes of `v`.
pub open spec fn first_u64(v: Seq<u8>) -> int {
    first_u32(v) + 0x1_0000_0000 * (v[4] as int + 0x100 * (v[5] as int) + 0x10000 * (v[6] as int) + 0x1000000
        * (v[7] as int))
}

/// The unsigned directives `L`, `I`, `S` and `C` read their 4, 4, 2 and 1
/// bytes as an unsigned little-endian number; `I` and `L` read alike.
pub proof fn lemma_unpack_unsigned_directives(v: Seq<u8>)
    ensures
        v.len() >= 4 ==> unpack_from(v, seq![76u8], 0, 0) == Ok::<Seq<int>, UnpackFailure>(seq![first_u32(v)]),
        v.len() >= 4 ==> unpack_from(v, seq![73u8], 0, 0) == Ok::<Seq<int>, UnpackFailure>(seq![first_u32(v)]),
        v.len() >= 4 ==> unpack_from(v, seq![73u8], 0, 0) == unpack_from(v, seq![76u8], 0, 0),
        v.len() >= 4 ==> 0 <= first_u32(v) < 0x1_0000_0000,
        v.len() >= 2 ==> unpack_from(v, seq![83u8], 0, 0) == Ok::<Seq<int>, UnpackFailure>(
            seq![v[0] as int + 0x100 * (v[1] as int)],
        ),
        v.len() >= 1 ==> unpack_from(v, seq![67u8], 0, 0) == Ok::<Seq<int>, UnpackFailure>(seq![v[0] as int]),
{
    reveal_with_fuel(unpack_from, 3);
    reveal_with_fuel(le_value, 5);
    if v.len() >= 4 {
        assert(unpack_from(v, seq![76u8], 1, 4) == Ok::<Seq<int>, UnpackFailure>(Seq::empty()));
        assert(unpack_from(v, seq![73u8], 1, 4) == Ok::<Seq<int>, UnpackFailure>(Seq::empty()));
        assert(seq![first_u32(v)] + Seq::<int>::empty() =~= seq![first_u32(v)]);
    }
    if v.len() >= 2 {
        assert(unpack_from(v, seq![83u8], 1, 2) == Ok::<Seq<int>, UnpackFailure>(Seq::empty()));
        assert(seq![v[0] as int + 0x100 * (v[1] as int)] + Seq::<int>::empty() =~= seq![v[0] as int + 0x100 * (v[1] as int)]);
    }
    if v.len() >= 1 {
        assert(unpack_from(v, seq![67u8], 1, 1) == Ok::<Seq<int>, UnpackFailure>(Seq::empty()));
        assert(seq![v[0] as int] + Seq::<int>::empty() =~= seq![v[0] as int]);
    }
}

/// The signed directives `l`, `i`, `s` and `c` read their bytes as a
/// two's-complement little-endian number, and `q` and `Q` read eight bytes
/// as an `i64`.
pub proof fn lemma_unpack_signed_directives(v: Seq<u8>)
    ensures
        v.len() >= 4 ==> unpack_from(v, seq![108u8], 0, 0) == Ok::<Seq<int>, UnpackFailure>(
            seq![if first_u32(v) >= 0x8000_0000 { first_u32(v) - 0x1_0000_0000 } else { first_u32(v) }],
        ),
        v.len() >= 4 ==> unpack_from(v, seq![105u8], 0, 0) == unpack_from(v, seq![108u8], 0, 0),
        v.len() >= 2 ==> unpack_from(v, seq![115u8], 0, 0) == Ok::<Seq<int>, UnpackFailure>(
            seq![
                if v[0] as int + 0x100 * (v[1] as int) >= 0x8000 {
                    v[0] as int + 0x100 * (v[1] as int) - 0x1_0000
                } else {
                    v[0] as int + 0x100 * (v[1] as int)
                },
            ],
        ),
        v.len() >= 1 ==> unpack_from(v, seq![99u8], 0, 0) == Ok::<Seq<int>, UnpackFailure>(
            seq![if v[0] >= 0x80 { v[0] as int - 0x100 } else { v[0] as int }],
        ),
        v.len() >= 8 ==> unpack_from(v, seq![113u8], 0, 0) == Ok::<Seq<int>, UnpackFailure>(
            seq![
                if first_u64(v) >= 0x8000_0000_0000_0000 {
                    first_u64(v) - 0x1_0000_0000_0000_0000
                } else {
                    first_u64(v)
                },
            ],
        ),
        v.len() >= 8 ==> unpack_from(v, seq![81u8], 0, 0) == unpack_from(v, seq![113u8], 0, 0),
{
    reveal_with_fuel(unpack_from, 3);
    reveal_with_fuel(le_value, 9);
    reveal_with_fuel(pow256, 9);
    if v.len() >= 4 {
        let x = if first_u32(v) >= 0x8000_0000 { first_u32(v) - 0x1_0000_0000 } else { first_u32(v) };
        assert(unpack_from(v, seq![108u8], 1, 4) == Ok::<Seq<int>, UnpackFailure>(Seq::empty()));
        assert(unpack_from(v, seq![105u8], 1, 4) == Ok::<Seq<int>, UnpackFailure>(Seq::empty()));
        assert(seq![x] + Seq::<int>::empty() =~= seq![x]);
    }
    if v.len() >= 2 {
        let u = v[0] as int + 0x100 * (v[1] as int);
        let x = if u >= 0x8000 { u - 0x1_0000 } else { u };
        assert(unpack_from(v, seq![115u8], 1, 2) == Ok::<Seq<int>, UnpackFailure>(Seq::empty()));
        assert(seq![x] + Seq::<int>::empty() =~= seq![x]);
    }
    if v.len() >= 1 {
        let x = if v[0] >= 0x80 { v[0] as int - 0x100 } else { v[0] as int };
        assert(unpack_from(v, seq![99u8], 1, 1) == Ok::<Seq<int>, UnpackFailure>(Seq::empty()));
        assert(seq![x] + Seq::<int>::empty() =~= seq![x]);
    }
    if v.len() >= 8 {
        let x = if first_u64(v) >= 0x8000_0000_0000_0000 {
            first_u64(v) - 0x1_0000_0000_0000_0000
        } else {
            first_u64(v)
        };
        assert(unpack_from(v, seq![113u8], 1, 8) == Ok::<Seq<int>, UnpackFailure>(Seq::empty()));
        assert(unpack_from(v, seq![81u8], 1, 8) == Ok::<Seq<int>, UnpackFailure>(Seq::empty()));
        assert(seq![x] + Seq::<int>::empty() =~= seq![x]);
    }
}

} // verus!
