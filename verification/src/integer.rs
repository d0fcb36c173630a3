//! The arithmetic and bit operations of the `Integer` class on 64-bit
//! integers.
use vstd::prelude::*;
use vstd::arithmetic::power::pow;
use crate::error::Error;
use crate::fmt::{int_str, append_i64};

verus! {

/// The remainder with the dividend's sign (division rounded toward zero).
pub open spec fn trem(a: int, b: int) -> int {
    let m = if b < 0 {
        -b
    } else {
        b
    };
    if a >= 0 {
        a % m
    } else {
        -((-a) % m)
    }
}

/// Ruby's `a % b`: the remainder of division rounded toward negative
/// infinity, which takes the divisor's sign.
pub open spec fn floor_mod(a: int, b: int) -> int {
    let e = a % b;
    if b < 0 && e != 0 {
        e + b
    } else {
        e
    }
}

/// The message of a division by zero.
pub open spec fn zero_division_message() -> Seq<char> {
    "divided by 0"@
}

/// The remainder with the dividend's sign, computed on magnitudes.
fn truncated_rem(lhs: i64, rhs: i64) -> (r: i64)
    requires
        rhs != 0,
    ensures
        r == trem(lhs as int, rhs as int),
{
    let a: u64 = if lhs >= 0 {
        lhs as u64
    } else if lhs == i64::MIN {
        0x8000_0000_0000_0000
    } else {
        (-lhs) as u64
    };
    let b: u64 = if rhs >= 0 {
        rhs as u64
    } else if rhs == i64::MIN {
        0x8000_0000_0000_0000
    } else {
        (-rhs) as u64
    };
    let m = a % b;
    proof {
        vstd::arithmetic::div_mod::lemma_mod_bound(a as int, b as int);
    }
    if lhs >= 0 {
        m as i64
    } else {
        -(m as i64)
    }
}

/// How the truncated remainder becomes the floored one.
proof fn lemma_floor_mod_from_trem(a: int, b: int)
    requires
        b != 0,
    ensures
        floor_mod(a, b) == (if trem(a, b) != 0 && ((trem(a, b) < 0) != (b < 0)) {
            trem(a, b) + b
        } else {
            trem(a, b)
        }),
{
    let m = if b < 0 { -b } else { b };
    vstd::arithmetic::div_mod::lemma_fundamental_div_mod(a, b);
    let e = a % b;
    let q = a / b;
    let qm = if b < 0 { -q } else { q };
    assert(a == qm * m + e) by (nonlinear_arith)
        requires
            a == b * q + e,
            m == (if b < 0 { -b } else { b }),
            qm == (if b < 0 { -q } else { q }),
    ;
    vstd::arithmetic::div_mod::lemma_fundamental_div_mod_converse(a, m, qm, e);
    if a < 0 {
        let u = (-a) % m;
        vstd::arithmetic::div_mod::lemma_fundamental_div_mod(-a, m);
        let k = (-a) / m;
        if u == 0 {
            assert(a == (-k) * m + 0) by (nonlinear_arith)
                requires
                    -a == m * k + u,
                    u == 0,
            ;
            vstd::arithmetic::div_mod::lemma_fundamental_div_mod_converse(a, m, -k, 0);
        } else {
            assert(a == (-k - 1) * m + (m - u)) by (nonlinear_arith)
                requires
                    -a == m * k + u,
            ;
            vstd::arithmetic::div_mod::lemma_fundamental_div_mod_converse(a, m, -k - 1, m - u);
        }
    }
}

/// `lhs % rhs` as Ruby computes it: the remainder takes the divisor's sign;
/// a zero divisor is refused.
pub fn integer_mod(lhs: i64, rhs: i64) -> (r: Result<i64, Error>)
    ensures
        rhs == 0 ==> (r matches Err(Error::RuntimeError(m)) && m@ == zero_division_message()),
        rhs != 0 ==> r == Ok::<i64, Error>(floor_mod(lhs as int, rhs as int) as i64),
        rhs != 0 ==> (rhs > 0 ==> 0 <= floor_mod(lhs as int, rhs as int) < rhs) && (rhs < 0 ==> rhs < floor_mod(
            lhs as int,
            rhs as int,
        ) <= 0),
{
    if rhs == 0 {
        return Err(Error::RuntimeError(String::from_str("divided by 0")));
    }
    let t = truncated_rem(lhs, rhs);
    proof {
        lemma_floor_mod_from_trem(lhs as int, rhs as int);
        vstd::arithmetic::div_mod::lemma_fundamental_div_mod(lhs as int, rhs as int);
    }
    if t != 0 && ((t < 0) != (rhs < 0)) {
        Ok(t + rhs)
    } else {
        Ok(t)
    }
}

/// Bit `index` of `this`, counting from the least significant; 0 for a
/// negative index.
pub fn integer_bitref(this: i64, index: i64) -> (r: i64)
    requires
        index < 64,
    ensures
        index < 0 ==> r == 0,
        index >= 0 ==> r == ((this >> (index as u64)) & 1),
{
    if index < 0 {
        return 0;
    }
    (this >> (index as u64)) & 1
}

/// `-this`.
pub fn integer_negative(this: i64) -> (r: i64)
    requires
        this != i64::MIN,
    ensures
        r == -this,
{
    -this
}

/// `|this|`.
pub fn integer_abs(this: i64) -> (r: i64)
    requires
        this != i64::MIN,
    ensures
        r == (if this < 0 { -this } else { this as int }),
{
    if this < 0 {
        -this
    } else {
        this
    }
}

/// `lhs << rhs`; a negative shift count is refused.
pub fn integer_lshift(lhs: i64, rhs: i64) -> (r: Result<i64, Error>)
    requires
        rhs < 64,
    ensures
        rhs < 0 ==> (r matches Err(Error::ArgumentError(m)) && m@ == "negative shift count"@),
        rhs >= 0 ==> r == Ok::<i64, Error>(lhs << (rhs as u64)),
{
    if rhs < 0 {
        return Err(Error::ArgumentError(String::from_str("negative shift count")));
    }
    Ok(lhs << (rhs as u64))
}

/// `lhs >> rhs` (arithmetic); a negative shift count is refused.
pub fn integer_rshift(lhs: i64, rhs: i64) -> (r: Result<i64, Error>)
    requires
        rhs < 64,
    ensures
        rhs < 0 ==> (r matches Err(Error::ArgumentError(m)) && m@ == "negative shift count"@),
        rhs >= 0 ==> r == Ok::<i64, Error>(lhs >> (rhs as u64)),
{
    if rhs < 0 {
        return Err(Error::ArgumentError(String::from_str("negative shift count")));
    }
    Ok(lhs >> (rhs as u64))
}

/// `|b^k| < |b^n|` for `k < n` when `|b| >= 2`, and `b^k` is never zero.
proof fn lemma_pow_abs_strict(b: int, k: nat, n: nat)
    requires
        k <= n,
        b != 0,
        b != 1,
        b != -1,
    ensures
        pow(b, k) != 0,
        k < n ==> (if pow(b, k) < 0 { -pow(b, k) } else { pow(b, k) }) < (if pow(b, n) < 0 { -pow(b, n) } else { pow(b, n) }),
    decreases n,
{
    reveal(pow);
    if k < n {
        lemma_pow_abs_strict(b, k, (n - 1) as nat);
        lemma_pow_abs_strict(b, (n - 1) as nat, (n - 1) as nat);
        let p = pow(b, (n - 1) as nat);
        let q = pow(b, n);
        assert(q == b * p);
        assert((if p < 0 { -p } else { p }) < (if q < 0 { -q } else { q })) by (nonlinear_arith)
            requires
                q == b * p,
                b != 0,
                b != 1,
                b != -1,
                p != 0,
        ;
    } else if k > 0 {
        lemma_pow_abs_strict(b, (k - 1) as nat, (k - 1) as nat);
        let p = pow(b, (k - 1) as nat);
        assert(pow(b, k) == b * p);
        assert(b * p != 0) by (nonlinear_arith)
            requires
                b != 0,
                p != 0,
        ;
    }
}

/// `(-1)^e` is 1 for even `e` and -1 for odd `e`.
proof fn lemma_pow_minus_one(e: nat)
    ensures
        pow(-1, e) == (if e % 2 == 0 { 1int } else { -1int }),
    decreases e,
{
    reveal(pow);
    if e > 0 {
        lemma_pow_minus_one((e - 1) as nat);
    }
}

/// `0^e` is 1 for `e == 0` and 0 otherwise; `1^e` is 1.
proof fn lemma_pow_zero_one(e: nat)
    ensures
        pow(0, e) == (if e == 0 { 1int } else { 0int }),
        pow(1, e) == 1,
    decreases e,
{
    reveal(pow);
    if e > 0 {
        lemma_pow_zero_one((e - 1) as nat);
    }
}

/// `base ** exp` for a non-negative exponent.
pub fn integer_power(base: i64, exp: i64) -> (r: i64)
    requires
        exp >= 0,
        i64::MIN <= pow(base as int, exp as nat) <= i64::MAX,
    ensures
        r == pow(base as int, exp as nat),
{
    let e: u64 = exp as u64;
    if base == 0 {
        proof {
            lemma_pow_zero_one(e as nat);
        }
        return if e == 0 { 1 } else { 0 };
    }
    if base == 1 {
        proof {
            lemma_pow_zero_one(e as nat);
        }
        return 1;
    }
    if base == -1 {
        proof {
            lemma_pow_minus_one(e as nat);
        }
        return if e % 2 == 0 { 1 } else { -1 };
    }
    let mut acc: i64 = 1;
    let mut k: u64 = 0;
    proof {
        reveal(pow);
    }
    while k < e
        invariant
            k <= e,
            base != 0,
            base != 1,
            base != -1,
            acc == pow(base as int, k as nat),
            i64::MIN <= pow(base as int, e as nat) <= i64::MAX,
        decreases e - k,
    {
        proof {
            lemma_pow_abs_strict(base as int, (k + 1) as nat, e as nat);
            assert(pow(base as int, (k + 1) as nat) == base * pow(base as int, k as nat)) by {
                reveal(pow);
            }
        }
        acc = acc * base;
        k = k + 1;
    }
    acc
}

/// The message of a code point outside `0..=0x10FFFF`.
pub open spec fn chr_range_message(n: int) -> Seq<char> {
    int_str(n) + " out of char range"@
}

/// The message of a surrogate code point.
pub open spec fn chr_invalid_message(n: int) -> Seq<char> {
    "invalid codepoint: "@ + int_str(n)
}

/// The UTF-8 bytes of the one-character string of code point `this`.
pub fn integer_chr(this: i64) -> (r: Result<Vec<u8>, Error>)
    ensures
        (this < 0 || this > 0x10FFFF) ==> (r matches Err(Error::RangeError(m)) && m@ == chr_range_message(this as int)),
        (0xD800 <= this <= 0xDFFF) ==> (r matches Err(Error::RangeError(m)) && m@ == chr_invalid_message(this as int)),
        (0 <= this <= 0x10FFFF && !(0xD800 <= this <= 0xDFFF)) ==> (r matches Ok(b)
            && vstd::utf8::is_scalar(this as u32) && b@ == vstd::utf8::encode_scalar(this as u32)),
{
    if this < 0 || this > 0x10FFFF {
        let mut m = String::new();
        append_i64(&mut m, this);
        let m = m.concat(" out of char range");
        assert(m@ =~= chr_range_message(this as int));
        return Err(Error::RangeError(m));
    }
    if 0xD800 <= this && this <= 0xDFFF {
        let mut m = String::from_str("invalid codepoint: ");
        append_i64(&mut m, this);
        return Err(Error::RangeError(m));
    }
    let c = this as u32;
    let mut b: Vec<u8> = Vec::new();
    if c <= 0x7F {
        b.push((c & 0x7F) as u8);
    } else if c <= 0x7FF {
        b.push(0xC0 | ((c >> 6) & 0x1F) as u8);
        b.push(0x80 | (c & 0x3F) as u8);
    } else if c <= 0xFFFF {
        b.push(0xE0 | ((c >> 12) & 0x0F) as u8);
        b.push(0x80 | ((c >> 6) & 0x3F) as u8);
        b.push(0x80 | (c & 0x3F) as u8);
    } else {
        b.push(0xF0 | ((c >> 18) & 0x7) as u8);
        b.push(0x80 | ((c >> 12) & 0x3F) as u8);
        b.push(0x80 | ((c >> 6) & 0x3F) as u8);
        b.push(0x80 | (c & 0x3F) as u8);
    }
    assert(b@ =~= vstd::utf8::encode_scalar(c));
    Ok(b)
}

} // verus!

verus! {

/// `Integer#&`.
pub fn integer_and(lhs: i64, rhs: i64) -> (r: i64)
    ensures
        r == lhs & rhs,
{
    lhs & rhs
}

/// `Integer#|`.
pub fn integer_or(lhs: i64, rhs: i64) -> (r: i64)
    ensures
        r == lhs | rhs,
{
    lhs | rhs
}

/// `Integer#^`.
pub fn integer_xor(lhs: i64, rhs: i64) -> (r: i64)
    ensures
        r == lhs ^ rhs,
{
    lhs ^ rhs
}

/// `Integer#~`: the bitwise complement, `-x - 1`.
pub fn integer_not(this: i64) -> (r: i64)
    ensures
        r == !this,
        r == -this - 1,
{
    let r = !this;
    assert(!this == -this - 1) by (bit_vector);
    r
}

/// `Integer#inspect` and `Integer#to_s`: the decimal digits.
pub fn integer_inspect(this: i64) -> (r: String)
    ensures
        r@ == crate::fmt::int_str(this as int),
{
    crate::fmt::i64_to_string(this)
}

} // verus!
