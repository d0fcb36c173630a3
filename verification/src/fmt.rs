//! Decimal formatting of integers, as `{}` and `{:0w}` print them.
use vstd::prelude::*;

verus! {

/// The character of decimal digit `d`.
pub open spec fn digit_char(d: int) -> char {
    (d + 48) as char
}

/// Decimal digits of `n`, most significant first, without leading zeros.
pub open spec fn dec(n: nat) -> Seq<char>
    decreases n,
{
    if n < 10 {
        seq![digit_char(n as int)]
    } else {
        dec(n / 10).push(digit_char((n % 10) as int))
    }
}

/// `s` preceded by as many `'0'` as needed to reach width `w`.
pub open spec fn zero_pad(s: Seq<char>, w: nat) -> Seq<char> {
    if s.len() >= w {
        s
    } else {
        Seq::new((w - s.len()) as nat, |_i: int| '0') + s
    }
}

/// `v` in decimal, zero-padded to `w` characters counting a leading minus
/// sign, as `{:0w}` prints it.
pub open spec fn signed_padded(v: int, w: nat) -> Seq<char> {
    if v < 0 {
        seq!['-'] + zero_pad(dec((-v) as nat), (w - 1) as nat)
    } else {
        zero_pad(dec(v as nat), w)
    }
}

/// The one-character string of decimal digit `d`.
pub fn digit_str(d: u64) -> (r: &'static str)
    requires
        d < 10,
    ensures
        r@ == seq![digit_char(d as int)],
{
    proof {
        reveal_strlit("0");
        reveal_strlit("1");
        reveal_strlit("2");
        reveal_strlit("3");
        reveal_strlit("4");
        reveal_strlit("5");
        reveal_strlit("6");
        reveal_strlit("7");
        reveal_strlit("8");
        reveal_strlit("9");
    }
    if d == 0 {
        "0"
    } else if d == 1 {
        "1"
    } else if d == 2 {
        "2"
    } else if d == 3 {
        "3"
    } else if d == 4 {
        "4"
    } else if d == 5 {
        "5"
    } else if d == 6 {
        "6"
    } else if d == 7 {
        "7"
    } else if d == 8 {
        "8"
    } else {
        "9"
    }
}

/// Appends the decimal digits of `n`.
pub fn append_dec(out: &mut String, n: u64)
    ensures
        final(out)@ == old(out)@ + dec(n as nat),
    decreases n,
{
    if n >= 10 {
        append_dec(out, n / 10);
        out.append(digit_str(n % 10));
        assert(final(out)@ =~= old(out)@ + dec(n as nat)) by {
            assert(old(out)@ + dec((n / 10) as nat) + seq![digit_char((n % 10) as int)] =~= old(out)@ + dec(n as nat));
        }
    } else {
        out.append(digit_str(n));
    }
}

/// Ten to the power `k`.
pub open spec fn pow10(k: nat) -> nat
    decreases k,
{
    if k == 0 {
        1
    } else {
        10 * pow10((k - 1) as nat)
    }
}

/// A number below `10^k` has at most `k` digits.
pub proof fn lemma_dec_len_bound(n: nat, k: nat)
    requires
        k >= 1,
        n < pow10(k),
    ensures
        dec(n).len() <= k,
    decreases k,
{
    if n >= 10 {
        assert(k >= 2) by {
            if k == 1 {
                assert(pow10(1) == 10 * pow10(0));
            }
        }
        assert(n / 10 < pow10((k - 1) as nat)) by {
            assert(pow10(k) == 10 * pow10((k - 1) as nat));
            vstd::arithmetic::div_mod::lemma_div_by_multiple_is_strongly_ordered(
                n as int, pow10(k) as int, pow10((k - 1) as nat) as int, 10);
            vstd::arithmetic::mul::lemma_mul_is_commutative(10, pow10((k - 1) as nat) as int);
            vstd::arithmetic::div_mod::lemma_div_multiples_vanish(pow10((k - 1) as nat) as int, 10);
        }
        lemma_dec_len_bound(n / 10, (k - 1) as nat);
    }
}

/// Number of decimal digits of `n`.
pub fn dec_len(n: u64) -> (r: usize)
    ensures
        r == dec(n as nat).len(),
    decreases n,
{
    proof {
        reveal_with_fuel(pow10, 21);
        assert(pow10(20) == 100000000000000000000);
        lemma_dec_len_bound(n as nat, 20);
    }
    if n >= 10 {
        dec_len(n / 10) + 1
    } else {
        1
    }
}

/// Appends `n` in decimal, zero-padded to width `w`.
pub fn append_padded(out: &mut String, n: u64, w: usize)
    ensures
        final(out)@ == old(out)@ + zero_pad(dec(n as nat), w as nat),
{
    let len = dec_len(n);
    let mut k = len;
    let ghost start = out@;
    while k < w
        invariant
            len <= k,
            k == len || k <= w,
            len == dec(n as nat).len(),
            out@ == start + Seq::new((k - len) as nat, |_i: int| '0'),
        decreases w - k,
    {
        proof {
            reveal_strlit("0");
        }
        out.append("0");
        k = k + 1;
        assert(out@ =~= start + Seq::new((k - len) as nat, |_i: int| '0'));
    }
    let ghost pad = out@;
    append_dec(out, n);
    proof {
        if len >= w {
            assert(k == len);
            assert(out@ =~= start + zero_pad(dec(n as nat), w as nat));
        } else {
            assert(k == w);
            assert(out@ =~= start + zero_pad(dec(n as nat), w as nat));
        }
    }
}

/// `v` in decimal with a leading minus sign when negative.
pub open spec fn int_str(v: int) -> Seq<char> {
    if v < 0 {
        seq!['-'] + dec((-v) as nat)
    } else {
        dec(v as nat)
    }
}

/// Appends `v` in decimal.
pub fn append_i64(out: &mut String, v: i64)
    ensures
        final(out)@ == old(out)@ + int_str(v as int),
{
    if v < 0 {
        proof {
            reveal_strlit("-");
        }
        out.append("-");
        let mag: u64 = if v == i64::MIN {
            0x8000_0000_0000_0000
        } else {
            (-v) as u64
        };
        append_dec(out, mag);
        assert(final(out)@ =~= old(out)@ + int_str(v as int));
    } else {
        append_dec(out, v as u64);
    }
}

/// `v` in decimal.
pub fn i64_to_string(v: i64) -> (r: String)
    ensures
        r@ == int_str(v as int),
{
    let mut out = String::new();
    append_i64(&mut out, v);
    assert(out@ =~= int_str(v as int));
    out
}

} // verus!
