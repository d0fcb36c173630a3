//! The text operations of the `String` class on Unicode strings: affixes,
//! searching, splitting, stripping, slicing, repetition and integer parsing.
use vstd::prelude::*;
use vstd::string::StrSliceExecFns;
use crate::error::Error;
use crate::fmt::{int_str, append_i64};
use crate::value::{RObject, RValue};
use crate::bytes::str_eq;

verus! {

/// `s` surrounded by double quotes.
pub open spec fn spec_inspect(s: Seq<char>) -> Seq<char> {
    seq!['"'] + s + seq!['"']
}

/// `s` surrounded by double quotes (its characters are not escaped).
pub fn string_inspect(s: &str) -> (r: String)
    ensures
        r@ == spec_inspect(s@),
{
    proof {
        reveal_strlit("\"");
    }
    let r = String::from_str("\"").concat(s).concat("\"");
    assert(r@ =~= spec_inspect(s@));
    r
}

/// `s` repeated `n` times.
pub open spec fn repeat(s: Seq<char>, n: nat) -> Seq<char>
    decreases n,
{
    if n == 0 {
        Seq::empty()
    } else {
        repeat(s, (n - 1) as nat) + s
    }
}

/// `s * times`: `s` repeated `times` times; a negative count is refused.
pub fn string_mul(s: &str, times: i64) -> (r: Result<String, Error>)
    ensures
        times < 0 ==> (r matches Err(Error::ArgumentError(m)) && m@ == "negative argument"@),
        times >= 0 ==> (r matches Ok(t) && t@ == repeat(s@, times as nat)),
{
    if times < 0 {
        return Err(Error::ArgumentError(String::from_str("negative argument")));
    }
    let mut out = String::new();
    if s.unicode_len() == 0 {
        proof {
            assert(s@ =~= Seq::<char>::empty());
            lemma_repeat_empty(times as nat);
        }
        assert(out@ =~= repeat(s@, times as nat));
        return Ok(out);
    }
    let mut k: i64 = 0;
    while k < times
        invariant
            0 <= k <= times,
            out@ == repeat(s@, k as nat),
        decreases times - k,
    {
        out.append(s);
        k = k + 1;
    }
    Ok(out)
}

/// Repeating the empty string gives the empty string.
proof fn lemma_repeat_empty(n: nat)
    ensures
        repeat(Seq::<char>::empty(), n) == Seq::<char>::empty(),
    decreases n,
{
    if n > 0 {
        lemma_repeat_empty((n - 1) as nat);
        assert(repeat(Seq::<char>::empty(), (n - 1) as nat) + Seq::<char>::empty() =~= Seq::<char>::empty());
    }
}

/// Whether `s` starts with `p`.
pub open spec fn has_prefix(s: Seq<char>, p: Seq<char>) -> bool {
    p.len() <= s.len() && s.subrange(0, p.len() as int) == p
}

/// Whether `s` ends with `p`.
pub open spec fn has_suffix(s: Seq<char>, p: Seq<char>) -> bool {
    p.len() <= s.len() && s.subrange(s.len() - p.len(), s.len() as int) == p
}

/// Whether `p` occurs in `s` at position `k`.
pub open spec fn occurs_at(s: Seq<char>, p: Seq<char>, k: int) -> bool {
    0 <= k && k + p.len() <= s.len() && s.subrange(k, k + p.len()) == p
}

/// The first position from `k` on where `p` occurs in `s`.
pub open spec fn find_from(s: Seq<char>, p: Seq<char>, k: int) -> Option<int>
    decreases s.len() + 1 - k,
{
    if k < 0 || k + p.len() > s.len() {
        None
    } else if s.subrange(k, k + p.len()) == p {
        Some(k)
    } else {
        find_from(s, p, k + 1)
    }
}

/// What `find_from` returns: the first occurrence at or after `k`.
pub proof fn lemma_find_from(s: Seq<char>, p: Seq<char>, k: int)
    requires
        k >= 0,
    ensures
        find_from(s, p, k) matches Some(j) ==> k <= j && occurs_at(s, p, j) && forall|i: int|
            k <= i < j ==> !occurs_at(s, p, i),
        find_from(s, p, k) is None ==> forall|i: int| k <= i ==> !occurs_at(s, p, i),
    decreases s.len() + 1 - k,
{
    if k + p.len() <= s.len() && s.subrange(k, k + p.len()) != p {
        lemma_find_from(s, p, k + 1);
    }
}

/// Whether `p` occurs in `s` at character `k` (checked character by character).
fn matches_at(s: &str, p: &str, k: usize) -> (r: bool)
    requires
        k + p@.len() <= s@.len(),
    ensures
        r == (s@.subrange(k as int, k + p@.len()) == p@),
{
    let sl = s.unicode_len();
    let n = p.unicode_len();
    let mut i: usize = 0;
    while i < n
        invariant
            sl == s@.len(),
            n == p@.len(),
            k + n <= s@.len(),
            0 <= i <= n,
            forall|j: int| 0 <= j < i ==> s@[k + j] == p@[j],
        decreases n - i,
    {
        if s.get_char(k + i) != p.get_char(i) {
            assert(s@.subrange(k as int, k + n)[i as int] != p@[i as int]);
            return false;
        }
        i = i + 1;
    }
    assert(s@.subrange(k as int, k + n) =~= p@);
    true
}

/// The first character position at which `p` occurs in `s`.
fn find_char_pos(s: &str, p: &str) -> (r: Option<usize>)
    ensures
        match find_from(s@, p@, 0) {
            Some(k) => r matches Some(x) && x as int == k,
            None => r is None,
        },
{
    let n = s.unicode_len();
    let m = p.unicode_len();
    if m > n {
        return None;
    }
    if m == 0 {
        assert(s@.subrange(0, 0) =~= p@);
        return Some(0);
    }
    let mut k: usize = 0;
    while k <= n - m
        invariant
            n == s@.len(),
            m == p@.len(),
            1 <= m <= n,
            k <= n - m + 1,
            find_from(s@, p@, 0) == find_from(s@, p@, k as int),
        decreases n - m + 1 - k,
    {
        if matches_at(s, p, k) {
            return Some(k);
        }
        k = k + 1;
    }
    None
}

/// Whether `s` starts with `prefix`.
pub fn string_start_with(s: &str, prefix: &str) -> (r: bool)
    ensures
        r == has_prefix(s@, prefix@),
{
    let n = s.unicode_len();
    let m = prefix.unicode_len();
    if m > n {
        return false;
    }
    matches_at(s, prefix, 0)
}

/// Whether `s` ends with `suffix`.
pub fn string_end_with(s: &str, suffix: &str) -> (r: bool)
    ensures
        r == has_suffix(s@, suffix@),
{
    let n = s.unicode_len();
    let m = suffix.unicode_len();
    if m > n {
        return false;
    }
    matches_at(s, suffix, n - m)
}

/// Whether `search` occurs in `s`.
pub fn string_include(s: &str, search: &str) -> (r: bool)
    ensures
        r == (find_from(s@, search@, 0) is Some),
{
    find_char_pos(s, search).is_some()
}

/// Byte length of the UTF-8 encoding of `s`.
pub open spec fn utf8_len(s: Seq<char>) -> nat {
    vstd::utf8::encode_utf8(s).len()
}

/// The byte offset at which `search` first occurs in `s`.
pub fn string_index(s: &str, search: &str) -> (r: Option<usize>)
    ensures
        match find_from(s@, search@, 0) {
            Some(k) => r == Some(utf8_len(s@.subrange(0, k)) as usize),
            None => r is None,
        },
{
    proof {
        lemma_find_from(s@, search@, 0);
    }
    let _n = s.unicode_len();
    match find_char_pos(s, search) {
        Some(k) => {
            let prefix = s.substring_char(0, k);
            Some(prefix.len())
        },
        None => None,
    }
}

/// `s` without one trailing `"\r\n"`, `"\n"` or `"\r"`.
pub open spec fn spec_chomp(s: Seq<char>) -> Seq<char> {
    let n = s.len() as int;
    if n >= 2 && s[n - 2] == '\r' && s[n - 1] == '\n' {
        s.subrange(0, n - 2)
    } else if n >= 1 && s[n - 1] == '\n' {
        s.subrange(0, n - 1)
    } else if n >= 1 && s[n - 1] == '\r' {
        s.subrange(0, n - 1)
    } else {
        s
    }
}

/// `s` without one trailing line ending.
pub fn string_chomp(s: &str) -> (r: String)
    ensures
        r@ == spec_chomp(s@),
{
    let n = s.unicode_len();
    let cut: usize = if n >= 2 && s.get_char(n - 2) == '\r' && s.get_char(n - 1) == '\n' {
        2
    } else if n >= 1 && s.get_char(n - 1) == '\n' {
        1
    } else if n >= 1 && s.get_char(n - 1) == '\r' {
        1
    } else {
        0
    };
    let r = String::from_str(s.substring_char(0, n - cut));
    assert(r@ =~= spec_chomp(s@));
    r
}

/// The new contents when removing a trailing line ending changes `s`.
pub fn string_chomp_bang(s: &str) -> (r: Option<String>)
    ensures
        spec_chomp(s@).len() != s@.len() ==> (r matches Some(t) && t@ == spec_chomp(s@)),
        spec_chomp(s@).len() == s@.len() ==> r is None,
{
    let n = s.unicode_len();
    let t = string_chomp(s);
    if t.as_str().unicode_len() != n {
        Some(t)
    } else {
        None
    }
}

/// Whether `c` is white space in Unicode (the `White_Space` property).
pub open spec fn is_ws(c: char) -> bool {
    let u = c as u32;
    ||| 9 <= u <= 13
    ||| u == 32
    ||| u == 0x85
    ||| u == 0xA0
    ||| u == 0x1680
    ||| 0x2000 <= u <= 0x200A
    ||| u == 0x2028
    ||| u == 0x2029
    ||| u == 0x202F
    ||| u == 0x205F
    ||| u == 0x3000
}

/// Whether `c` is white space in Unicode.
fn char_is_ws(c: char) -> (r: bool)
    ensures
        r == is_ws(c),
{
    let u = c as u32;
    (9 <= u && u <= 13) || u == 32 || u == 0x85 || u == 0xA0 || u == 0x1680 || (0x2000 <= u && u
        <= 0x200A) || u == 0x2028 || u == 0x2029 || u == 0x202F || u == 0x205F || u == 0x3000
}

/// Position of the first non-white-space character of `s` at or after `k`.
pub open spec fn skip_ws(s: Seq<char>, k: int) -> int
    decreases s.len() - k,
{
    if 0 <= k < s.len() && is_ws(s[k]) {
        skip_ws(s, k + 1)
    } else {
        k
    }
}

/// End of `s[..e]` once its trailing white space is removed.
pub open spec fn skip_ws_back(s: Seq<char>, e: int) -> int
    decreases e,
{
    if 0 < e <= s.len() && is_ws(s[e - 1]) {
        skip_ws_back(s, e - 1)
    } else {
        e
    }
}

/// `s` without leading white space.
pub open spec fn spec_lstrip(s: Seq<char>) -> Seq<char> {
    s.subrange(skip_ws(s, 0), s.len() as int)
}

/// `s` without trailing white space.
pub open spec fn spec_rstrip(s: Seq<char>) -> Seq<char> {
    s.subrange(0, skip_ws_back(s, s.len() as int))
}

/// `s` without leading or trailing white space.
pub open spec fn spec_strip(s: Seq<char>) -> Seq<char> {
    spec_rstrip(spec_lstrip(s))
}

/// `skip_ws` stops inside the string at a character that is not white
/// space, or at the end; `skip_ws_back` stops after such a character, or at
/// the start.
proof fn lemma_skip_ws_stops(s: Seq<char>, k: int, e: int)
    requires
        0 <= k <= s.len(),
        0 <= e <= s.len(),
    ensures
        k <= skip_ws(s, k) <= s.len(),
        skip_ws(s, k) < s.len() ==> !is_ws(s[skip_ws(s, k)]),
        0 <= skip_ws_back(s, e) <= e,
        skip_ws_back(s, e) > 0 ==> !is_ws(s[skip_ws_back(s, e) - 1]),
    decreases s.len() - k + e,
{
    if k < s.len() && is_ws(s[k]) {
        lemma_skip_ws_stops(s, k + 1, e);
    }
    if 0 < e && is_ws(s[e - 1]) {
        lemma_skip_ws_stops(s, k, e - 1);
    }
}

/// Index of the first non-white-space character of `s`.
fn first_non_ws(s: &str) -> (r: usize)
    ensures
        r == skip_ws(s@, 0),
        r <= s@.len(),
{
    let n = s.unicode_len();
    let mut k: usize = 0;
    while k < n && char_is_ws(s.get_char(k))
        invariant
            n == s@.len(),
            k <= n,
            skip_ws(s@, 0) == skip_ws(s@, k as int),
        decreases n - k,
    {
        k = k + 1;
    }
    k
}

/// End of `s` once its trailing white space is removed.
fn last_non_ws_end(s: &str) -> (r: usize)
    ensures
        r == skip_ws_back(s@, s@.len() as int),
        r <= s@.len(),
{
    let n = s.unicode_len();
    let mut e: usize = n;
    while e > 0 && char_is_ws(s.get_char(e - 1))
        invariant
            n == s@.len(),
            e <= n,
            skip_ws_back(s@, n as int) == skip_ws_back(s@, e as int),
        decreases e,
    {
        e = e - 1;
    }
    e
}

/// `s` without leading white space.
pub fn string_lstrip(s: &str) -> (r: String)
    ensures
        r@ == spec_lstrip(s@),
{
    let n = s.unicode_len();
    let a = first_non_ws(s);
    String::from_str(s.substring_char(a, n))
}

/// `s` without trailing white space.
pub fn string_rstrip(s: &str) -> (r: String)
    ensures
        r@ == spec_rstrip(s@),
{
    let e = last_non_ws_end(s);
    String::from_str(s.substring_char(0, e))
}

/// `s` without leading or trailing white space.
pub fn string_strip(s: &str) -> (r: String)
    ensures
        r@ == spec_strip(s@),
{
    let left = string_lstrip(s);
    string_rstrip(left.as_str())
}

/// The new contents when removing leading white space changes `s`.
pub fn string_lstrip_bang(s: &str) -> (r: Option<String>)
    ensures
        spec_lstrip(s@).len() != s@.len() ==> (r matches Some(t) && t@ == spec_lstrip(s@)),
        spec_lstrip(s@).len() == s@.len() ==> r is None,
{
    let t = string_lstrip(s);
    if t.as_str().unicode_len() != s.unicode_len() {
        Some(t)
    } else {
        None
    }
}

/// The new contents when removing trailing white space changes `s`.
pub fn string_rstrip_bang(s: &str) -> (r: Option<String>)
    ensures
        spec_rstrip(s@).len() != s@.len() ==> (r matches Some(t) && t@ == spec_rstrip(s@)),
        spec_rstrip(s@).len() == s@.len() ==> r is None,
{
    let t = string_rstrip(s);
    if t.as_str().unicode_len() != s.unicode_len() {
        Some(t)
    } else {
        None
    }
}

/// The new contents when removing surrounding white space changes `s`.
pub fn string_strip_bang(s: &str) -> (r: Option<String>)
    ensures
        spec_strip(s@).len() != s@.len() ==> (r matches Some(t) && t@ == spec_strip(s@)),
        spec_strip(s@).len() == s@.len() ==> r is None,
{
    let t = string_strip(s);
    if t.as_str().unicode_len() != s.unicode_len() {
        Some(t)
    } else {
        None
    }
}

/// The code point of the first character of `s`; an empty string is refused.
pub fn string_ord(s: &str) -> (r: Result<u32, Error>)
    ensures
        s@.len() == 0 ==> (r matches Err(Error::ArgumentError(m)) && m@ == "empty string"@),
        s@.len() > 0 ==> r == Ok::<u32, Error>(s@[0] as u32),
{
    if s.unicode_len() == 0 {
        return Err(Error::ArgumentError(String::from_str("empty string")));
    }
    Ok(s.get_char(0) as u32)
}

/// An optional machine integer as a mathematical one.
pub open spec fn opt_int(o: Option<i64>) -> Option<int> {
    match o {
        Some(l) => Some(l as int),
        None => None,
    }
}

/// A character index counted from the end when negative.
pub open spec fn norm_index(index: int, len: int) -> int {
    if index < 0 {
        len + index
    } else {
        index
    }
}

/// End of a slice of `length` characters from `idx` in a string of `len`.
pub open spec fn slice_end(idx: int, length: int, len: int) -> int {
    if idx + length < len {
        idx + length
    } else {
        len
    }
}

/// `s[index]` (one character) or `s[index, length]`; `None` when the index is
/// outside the string or the length is negative.
pub open spec fn spec_slice(s: Seq<char>, index: int, length: Option<int>) -> Option<Seq<char>> {
    let len = s.len() as int;
    let idx = norm_index(index, len);
    if idx < 0 || idx >= len {
        None
    } else {
        match length {
            None => Some(seq![s[idx]]),
            Some(l) => if l < 0 {
                None
            } else {
                Some(s.subrange(idx, slice_end(idx, l, len)))
            },
        }
    }
}

/// What remains of `s` once the slice `spec_slice(s, index, length)` is cut out.
pub open spec fn spec_slice_rest(s: Seq<char>, index: int, length: Option<int>) -> Seq<char> {
    let len = s.len() as int;
    let idx = norm_index(index, len);
    let end = match length {
        None => idx + 1,
        Some(l) => slice_end(idx, l, len),
    };
    s.subrange(0, idx) + s.subrange(end, len)
}

/// Whether the slice end can be computed without overflow.
pub open spec fn slice_in_range(s: Seq<char>, index: int, length: Option<int>) -> bool {
    &&& s.len() <= i64::MAX
    &&& match length {
        Some(l) => l >= 0 ==> norm_index(index, s.len() as int) + l <= i64::MAX,
        None => true,
    }
}

/// Normalised index and end of a slice, when the slice exists.
fn slice_bounds(s: &str, index: i64, length: Option<i64>) -> (r: Option<(usize, usize)>)
    requires
        slice_in_range(s@, index as int, opt_int(length)),
    ensures
        match spec_slice(s@, index as int, opt_int(length)) {
            None => r is None,
            Some(t) => r matches Some((a, b)) && a as int == norm_index(index as int, s@.len() as int)
                && a <= b <= s@.len() && t == s@.subrange(a as int, b as int) && b as int == (match length {
                    None => a + 1,
                    Some(l) => slice_end(a as int, l as int, s@.len() as int),
                }),
        },
{
    let n = s.unicode_len();
    let len = n as i64;
    let idx: i64 = if index < 0 { len + index } else { index };
    if idx < 0 || idx >= len {
        return None;
    }
    let a = idx as usize;
    match length {
        None => {
            assert(s@.subrange(a as int, a + 1) =~= seq![s@[a as int]]);
            Some((a, a + 1))
        },
        Some(l) => {
            if l < 0 {
                return None;
            }
            let end: i64 = if idx + l < len { idx + l } else { len };
            if l == 0 {
                return Some((a, a));
            }
            Some((a, end as usize))
        },
    }
}

/// `s[index]` or `s[index, length]` by character.
pub fn string_slice(s: &str, index: i64, length: Option<i64>) -> (r: Option<String>)
    requires
        slice_in_range(s@, index as int, opt_int(length)),
    ensures
        match spec_slice(s@, index as int, opt_int(length)) {
            None => r is None,
            Some(t) => r matches Some(u) && u@ == t,
        },
{
    match slice_bounds(s, index, length) {
        None => None,
        Some((a, b)) => Some(String::from_str(s.substring_char(a, b))),
    }
}

/// `slice!`: the cut-out slice and what remains of `s`, when the slice exists.
pub fn string_slice_bang(s: &str, index: i64, length: Option<i64>) -> (r: Option<(String, String)>)
    requires
        slice_in_range(s@, index as int, opt_int(length)),
    ensures
        match spec_slice(s@, index as int, opt_int(length)) {
            None => r is None,
            Some(t) => r matches Some((removed, rest)) && removed@ == t && rest@ == spec_slice_rest(
                s@,
                index as int,
                opt_int(length),
            ),
        },
{
    let n = s.unicode_len();
    match slice_bounds(s, index, length) {
        None => None,
        Some((a, b)) => {
            let removed = String::from_str(s.substring_char(a, b));
            let rest = String::from_str(s.substring_char(0, a)).concat(s.substring_char(b, n));
            Some((removed, rest))
        },
    }
}

/// Whether `c` is an ASCII decimal digit.
pub open spec fn is_digit(c: char) -> bool {
    48 <= (c as u32) <= 57
}

/// Value of a string of decimal digits.
pub open spec fn digits_value(d: Seq<char>) -> nat
    decreases d.len(),
{
    if d.len() == 0 {
        0
    } else {
        digits_value(d.drop_last()) * 10 + ((d.last() as u32) - 48) as nat
    }
}

/// Whether every character of `d` is a decimal digit.
pub open spec fn all_digits(d: Seq<char>) -> bool {
    forall|i: int| 0 <= i < d.len() ==> is_digit(#[trigger] d[i])
}

/// The digits part of `t`: `t` without a leading sign.
pub open spec fn unsigned_part(t: Seq<char>) -> Seq<char> {
    if t.len() > 0 && (t[0] == '-' || t[0] == '+') {
        t.drop_first()
    } else {
        t
    }
}

/// `t` read as an `i64` the way Rust parses one: an optional sign, then one
/// or more decimal digits, the value fitting the type.
pub open spec fn parse_i64(t: Seq<char>) -> Option<int> {
    let body = unsigned_part(t);
    if t.len() == 0 || body.len() == 0 || !all_digits(body) {
        None
    } else {
        let v = digits_value(body);
        let x = if t[0] == '-' {
            -v
        } else {
            v as int
        };
        if i64::MIN <= x <= i64::MAX {
            Some(x)
        } else {
            None
        }
    }
}

/// `to_i`: the integer the stripped string spells, or 0.
pub open spec fn spec_to_i(s: Seq<char>) -> int {
    match parse_i64(spec_strip(s)) {
        Some(x) => x,
        None => 0,
    }
}

/// Saturating bound used while accumulating digits.
pub open spec fn digit_cap() -> int {
    0x1_0000_0000_0000_0000
}

/// The integer the stripped string spells, or 0 when it spells none.
pub fn string_to_i(s: &str) -> (r: i64)
    ensures
        r == spec_to_i(s@),
{
    let trimmed = string_strip(s);
    let t = trimmed.as_str();
    let n = t.unicode_len();
    if n == 0 {
        return 0;
    }
    let c0 = t.get_char(0);
    let neg = c0 == '-';
    let start: usize = if c0 == '-' || c0 == '+' { 1 } else { 0 };
    let ghost body = if c0 == '-' || c0 == '+' { t@.drop_first() } else { t@ };
    assert(body =~= t@.subrange(start as int, n as int));
    if start == n {
        return 0;
    }
    let mut acc: u128 = 0;
    let mut k: usize = start;
    while k < n
        invariant
            n == t@.len(),
            n > 0,
            t@ == spec_strip(s@),
            c0 == t@[0],
            neg == (c0 == '-'),
            body == unsigned_part(t@),
            start <= k <= n,
            body == t@.subrange(start as int, n as int),
            forall|i: int| 0 <= i < k - start ==> is_digit(#[trigger] body[i]),
            acc == (if digits_value(body.subrange(0, k - start)) < digit_cap() {
                digits_value(body.subrange(0, k - start)) as int
            } else {
                digit_cap()
            }),
        decreases n - k,
    {
        let c = t.get_char(k);
        let u = c as u32;
        if u < 48 || u > 57 {
            proof {
                let j = (k - start) as int;
                assert(body[j] == t@[k as int]);
                assert(!is_digit(body[j]));
                assert(!all_digits(body));
            }
            return 0;
        }
        let d = (u - 48) as u128;
        let ghost pre = body.subrange(0, k - start);
        let ghost pre1 = body.subrange(0, k + 1 - start);
        assert(pre1.drop_last() =~= pre);
        acc = if acc * 10 + d >= 0x1_0000_0000_0000_0000 { 0x1_0000_0000_0000_0000 } else { acc * 10 + d };
        k = k + 1;
    }
    assert(body.subrange(0, n - start) =~= body);
    if neg {
        if acc > 0x8000_0000_0000_0000 {
            return 0;
        }
        if acc == 0x8000_0000_0000_0000 {
            return i64::MIN;
        }
        -(acc as i64)
    } else {
        if acc > 0x7fff_ffff_ffff_ffff {
            return 0;
        }
        acc as i64
    }
}

/// The pieces of `s` between the occurrences of a non-empty `sep`, taken
/// from the left without overlap.
pub open spec fn split_nonempty(s: Seq<char>, sep: Seq<char>) -> Seq<Seq<char>>
    decreases s.len(),
{
    if sep.len() == 0 {
        seq![s]
    } else {
        match find_from(s, sep, 0) {
            None => seq![s],
            Some(k) => {
                proof {
                    lemma_find_from(s, sep, 0);
                }
                seq![s.subrange(0, k)] + split_nonempty(s.subrange(k + sep.len(), s.len() as int), sep)
            },
        }
    }
}

/// `s.split(sep)`: with an empty separator, an empty piece, each character,
/// and another empty piece.
pub open spec fn spec_split(s: Seq<char>, sep: Seq<char>) -> Seq<Seq<char>> {
    if sep.len() == 0 {
        seq![Seq::<char>::empty()] + Seq::new(s.len(), |i: int| seq![s[i]]) + seq![Seq::<char>::empty()]
    } else {
        split_nonempty(s, sep)
    }
}

/// Model of a vector of strings.
pub open spec fn strings_view(v: Seq<String>) -> Seq<Seq<char>> {
    v.map_values(|x: String| x@)
}

/// `s.split(sep)` as Rust splits a string by a string pattern.
pub fn string_split(s: &str, sep: &str) -> (r: Vec<String>)
    ensures
        strings_view(r@) == spec_split(s@, sep@),
{
    let mut out: Vec<String> = Vec::new();
    let n = s.unicode_len();
    let m = sep.unicode_len();
    if m == 0 {
        out.push(String::new());
        let mut k: usize = 0;
        while k < n
            invariant
                n == s@.len(),
                k <= n,
                strings_view(out@) == seq![Seq::<char>::empty()] + Seq::new(k as nat, |i: int| seq![s@[i]]),
            decreases n - k,
        {
            let piece = String::from_str(s.substring_char(k, k + 1));
            let ghost before = strings_view(out@);
            out.push(piece);
            proof {
                assert(piece@ =~= seq![s@[k as int]]);
                assert(strings_view(out@) =~= before.push(piece@));
                assert(strings_view(out@) =~= seq![Seq::<char>::empty()] + Seq::new((k + 1) as nat, |i: int| seq![s@[i]]));
            }
            k = k + 1;
        }
        let ghost before = strings_view(out@);
        out.push(String::new());
        assert(strings_view(out@) =~= before.push(Seq::<char>::empty()));
        assert(strings_view(out@) =~= spec_split(s@, sep@));
        return out;
    }
    let mut rest: &str = s;
    loop
        invariant
            m == sep@.len(),
            m > 0,
            spec_split(s@, sep@) == strings_view(out@) + split_nonempty(rest@, sep@),
        decreases rest@.len(),
    {
        let rn = rest.unicode_len();
        proof {
            lemma_find_from(rest@, sep@, 0);
        }
        let ghost before = strings_view(out@);
        match find_char_pos(rest, sep) {
            None => {
                out.push(String::from_str(rest));
                assert(strings_view(out@) =~= before.push(rest@));
                assert(strings_view(out@) =~= before + split_nonempty(rest@, sep@));
                return out;
            },
            Some(k) => {
                let piece = String::from_str(rest.substring_char(0, k));
                out.push(piece);
                let next = rest.substring_char(k + m, rn);
                proof {
                    assert(strings_view(out@) =~= before.push(piece@));
                    assert(before + split_nonempty(rest@, sep@) =~= strings_view(out@) + split_nonempty(next@, sep@));
                }
                rest = next;
            },
        }
    }
}

/// End of the run of non-white-space characters of `s` starting at `k`.
pub open spec fn run_end(s: Seq<char>, k: int) -> int
    decreases s.len() - k,
{
    if 0 <= k < s.len() && !is_ws(s[k]) {
        run_end(s, k + 1)
    } else {
        k
    }
}

/// `run_end` never moves backwards nor past the end.
pub proof fn lemma_run_end(s: Seq<char>, k: int)
    requires
        0 <= k <= s.len(),
    ensures
        k <= run_end(s, k) <= s.len(),
    decreases s.len() - k,
{
    if k < s.len() && !is_ws(s[k]) {
        lemma_run_end(s, k + 1);
    }
}

/// The maximal runs of non-white-space characters of `s`, in order.
pub open spec fn spec_words(s: Seq<char>) -> Seq<Seq<char>>
    decreases s.len(),
{
    if s.len() == 0 {
        Seq::empty()
    } else if is_ws(s[0]) {
        spec_words(s.drop_first())
    } else {
        let e = run_end(s, 1);
        proof {
            lemma_run_end(s, 1);
        }
        seq![s.subrange(0, e)] + spec_words(s.subrange(e, s.len() as int))
    }
}

/// `s.split_whitespace()`: the words of `s`.
pub fn string_split_whitespace(s: &str) -> (r: Vec<String>)
    ensures
        strings_view(r@) == spec_words(s@),
{
    let mut out: Vec<String> = Vec::new();
    let mut rest: &str = s;
    loop
        invariant
            spec_words(s@) == strings_view(out@) + spec_words(rest@),
        decreases rest@.len(),
    {
        let rn = rest.unicode_len();
        let ghost before = strings_view(out@);
        if rn == 0 {
            assert(strings_view(out@) + spec_words(rest@) =~= strings_view(out@));
            return out;
        }
        if char_is_ws(rest.get_char(0)) {
            let next = rest.substring_char(1, rn);
            assert(next@ =~= rest@.drop_first());
            rest = next;
        } else {
            let mut e: usize = 1;
            while e < rn && !char_is_ws(rest.get_char(e))
                invariant
                    rn == rest@.len(),
                    1 <= e <= rn,
                    run_end(rest@, 1) == run_end(rest@, e as int),
                decreases rn - e,
            {
                e = e + 1;
            }
            let piece = String::from_str(rest.substring_char(0, e));
            out.push(piece);
            let next = rest.substring_char(e, rn);
            proof {
                assert(strings_view(out@) =~= before.push(piece@));
                assert(before + spec_words(rest@) =~= strings_view(out@) + spec_words(next@));
            }
            rest = next;
        }
    }
}

/// A byte index counted from the end when negative, if it falls inside.
pub open spec fn byte_index(index: int, len: int) -> Option<int> {
    let idx = norm_index(index, len);
    if idx < 0 || idx >= len {
        None
    } else {
        Some(idx)
    }
}

/// The byte at `index` (from the end when negative), if there is one.
pub fn string_getbyte(bytes: &[u8], index: i64) -> (r: Option<u8>)
    requires
        bytes@.len() <= i64::MAX,
    ensures
        match byte_index(index as int, bytes@.len() as int) {
            Some(i) => r == Some(bytes@[i]),
            None => r is None,
        },
{
    let len = bytes.len() as i64;
    let idx: i64 = if index < 0 { len + index } else { index };
    if idx < 0 || idx >= len {
        return None;
    }
    Some(bytes[idx as usize])
}

/// Sets the byte at `index` (from the end when negative) to `value`,
/// returning `value`; an index outside the string or a value outside
/// `0..=255` is refused and the bytes are left as they were.
pub fn string_setbyte(bytes: &mut Vec<u8>, index: i64, value: i64) -> (r: Result<i64, Error>)
    requires
        old(bytes)@.len() <= i64::MAX,
    ensures
        byte_index(index as int, old(bytes)@.len() as int) is None ==> (r matches Err(Error::ArgumentError(m))
            && m@ == "index "@ + int_str(index as int) + " out of string"@ && final(bytes)@ == old(bytes)@),
        byte_index(index as int, old(bytes)@.len() as int) is Some && !(0 <= value <= 255) ==> (r matches Err(Error::ArgumentError(m))
            && m@ == int_str(value as int) + " out of char range"@ && final(bytes)@ == old(bytes)@),
        byte_index(index as int, old(bytes)@.len() as int) is Some && 0 <= value <= 255 ==> (r == Ok::<i64, Error>(value)
            && final(bytes)@ == old(bytes)@.update(byte_index(index as int, old(bytes)@.len() as int)->Some_0, value as u8)),
{
    let len = bytes.len() as i64;
    let idx: i64 = if index < 0 { len + index } else { index };
    if idx < 0 || idx >= len {
        let mut m = String::from_str("index ");
        append_i64(&mut m, index);
        let m = m.concat(" out of string");
        return Err(Error::ArgumentError(m));
    }
    if !(0 <= value && value <= 255) {
        let mut m = String::new();
        append_i64(&mut m, value);
        let m = m.concat(" out of char range");
        assert(m@ =~= int_str(value as int) + " out of char range"@);
        return Err(Error::ArgumentError(m));
    }
    bytes.set(idx as usize, value as u8);
    Ok(value)
}

/// The part of a file name before its first `.` (the whole name when it has
/// none).
pub open spec fn spec_file_prefix(name: Seq<char>) -> Seq<char> {
    match find_from(name, seq!['.'], 0) {
        Some(k) => name.subrange(0, k),
        None => name,
    }
}

/// The prefix of the file name `file_name` up to its first `.`, from which
/// the generated module takes its name.
pub fn file_prefix_of(file_name: &str) -> (r: String)
    ensures
        r@ == spec_file_prefix(file_name@),
{
    proof {
        reveal_strlit(".");
    }
    assert("."@ =~= seq!['.']);
    proof {
        lemma_find_from(file_name@, "."@, 0);
    }
    assert(find_from(file_name@, "."@, 0) == find_from(file_name@, seq!['.'], 0));
    match find_char_pos(file_name, ".") {
        Some(k) => {
            let r = String::from_str(file_name.substring_char(0, k));
            assert(r@ =~= file_name@.subrange(0, k as int));
            r
        },
        None => {
            let r = String::from_str(file_name);
            assert(r@ =~= file_name@);
            r
        },
    }
}

// ---------------------------------------------------------------------------
// Case mapping and string objects
// ---------------------------------------------------------------------------

/// What `str::to_uppercase` gives for `s` (Unicode upper-case mapping).
pub uninterp spec fn upcase_of(s: Seq<char>) -> Seq<char>;

/// What `str::to_lowercase` gives for `s` (Unicode lower-case mapping).
pub uninterp spec fn downcase_of(s: Seq<char>) -> Seq<char>;

/// Calls `str::to_uppercase`, std's Unicode upper-case mapping; its result
/// is named `upcase_of(s@)`, which depends on `s` alone.
#[verifier::external_body]
fn to_uppercase(s: &str) -> (r: String)
    ensures
        r@ == upcase_of(s@),
{
    s.to_uppercase()
}

/// Calls `str::to_lowercase`, std's Unicode lower-case mapping; its result
/// is named `downcase_of(s@)`, which depends on `s` alone.
#[verifier::external_body]
fn to_lowercase(s: &str) -> (r: String)
    ensures
        r@ == downcase_of(s@),
{
    s.to_lowercase()
}

/// `String#upcase`.
pub fn string_upcase(s: &str) -> (r: String)
    ensures
        r@ == upcase_of(s@),
{
    to_uppercase(s)
}

/// `String#downcase`.
pub fn string_downcase(s: &str) -> (r: String)
    ensures
        r@ == downcase_of(s@),
{
    to_lowercase(s)
}

/// What a destructive case mapping answers given the original and mapped
/// strings: the new contents when they differ, `None` (nil) otherwise.
pub fn replace_if_changed(original: &str, mapped: String) -> (r: Option<String>)
    ensures
        mapped@ != original@ ==> (r matches Some(t) && t@ == mapped@),
        mapped@ == original@ ==> r is None,
{
    if str_eq(mapped.as_str(), original) {
        None
    } else {
        Some(mapped)
    }
}

/// `String#upcase!`: the new contents, or `None` when nothing changes.
pub fn string_upcase_bang(s: &str) -> (r: Option<String>)
    ensures
        upcase_of(s@) != s@ ==> (r matches Some(t) && t@ == upcase_of(s@)),
        upcase_of(s@) == s@ ==> r is None,
{
    let mapped = to_uppercase(s);
    replace_if_changed(s, mapped)
}

/// `String#downcase!`: the new contents, or `None` when nothing changes.
pub fn string_downcase_bang(s: &str) -> (r: Option<String>)
    ensures
        downcase_of(s@) != s@ ==> (r matches Some(t) && t@ == downcase_of(s@)),
        downcase_of(s@) == s@ ==> r is None,
{
    let mapped = to_lowercase(s);
    replace_if_changed(s, mapped)
}

/// `String#+`.
pub fn string_add(s: &str, other: &str) -> (r: String)
    ensures
        r@ == s@ + other@,
{
    String::from_str(s).concat(other)
}

/// `String#empty?`.
pub fn string_empty(s: &str) -> (r: bool)
    ensures
        r == (s@.len() == 0),
{
    s.unicode_len() == 0
}

/// The bytes of a string object, or a type error.
fn string_bytes_of(this: &RObject) -> (r: Result<&Vec<u8>, Error>)
    ensures
        this.value is String ==> (r matches Ok(v) && v@ == this.value->String_0@),
        !(this.value is String) ==> r matches Err(Error::TypeMismatch),
{
    match &this.value {
        RValue::String(v) => Ok(v),
        _ => Err(Error::TypeMismatch),
    }
}

/// `String#size` and `String#length`: the number of bytes.
pub fn mrb_string_size(this: &RObject) -> (r: Result<i64, Error>)
    ensures
        this.value is String ==> r == Ok::<i64, Error>(this.value->String_0@.len() as i64),
        !(this.value is String) ==> r matches Err(Error::TypeMismatch),
{
    let v = string_bytes_of(this)?;
    Ok(v.len() as i64)
}

/// `String#bytes`: the bytes as integer objects.
pub fn mrb_string_bytes(this: &RObject) -> (r: Result<Vec<RObject>, Error>)
    ensures
        this.value is String ==> (r matches Ok(v) && v@.len() == this.value->String_0@.len() && forall|i: int|
            0 <= i < v@.len() ==> (#[trigger] v@[i]).value == RValue::Integer(
                this.value->String_0@[i] as i64,
            ) && v@[i].tt == crate::value::RType::Integer && v@[i].object_id == crate::value::integer_object_id(
                this.value->String_0@[i] as i64,
            )),
        !(this.value is String) ==> r matches Err(Error::TypeMismatch),
{
    let b = string_bytes_of(this)?;
    let mut out: Vec<RObject> = Vec::new();
    let mut i: usize = 0;
    while i < b.len()
        invariant
            0 <= i <= b@.len(),
            out@.len() == i,
            forall|k: int| 0 <= k < i ==> (#[trigger] out@[k]).value == RValue::Integer(b@[k] as i64)
                && out@[k].tt == crate::value::RType::Integer && out@[k].object_id
                == crate::value::integer_object_id(b@[k] as i64),
        decreases b@.len() - i,
    {
        out.push(RObject::integer(b[i] as i64));
        i = i + 1;
    }
    Ok(out)
}

/// `String#b`: a new string object holding the same bytes.
pub fn mrb_string_b(this: &RObject) -> (r: Result<RObject, Error>)
    ensures
        this.value is String ==> (r matches Ok(o) && o.value is String && o.value->String_0@
            == this.value->String_0@ && o.tt == crate::value::RType::String && o.object_id
            == crate::value::UNASSIGNED_ID),
        !(this.value is String) ==> r matches Err(Error::TypeMismatch),
{
    let v = string_bytes_of(this)?;
    Ok(RObject::string_from_vec(v.clone()))
}

/// `String#<<`: appends the UTF-8 bytes of `other` to the string object.
pub fn mrb_string_append(this: &mut RObject, other: &str) -> (r: Result<(), Error>)
    ensures
        old(this).value is String ==> r is Ok && final(this).value is String && final(this).value->String_0@
            == old(this).value->String_0@ + vstd::utf8::encode_utf8(other@),
        !(old(this).value is String) ==> (r matches Err(Error::TypeMismatch) && *final(this) == *old(this)),
        final(this).tt == old(this).tt,
        final(this).object_id == old(this).object_id,
{
    match &mut this.value {
        RValue::String(v) => {
            let b = other.as_bytes();
            let ghost start = v@;
            let mut i: usize = 0;
            while i < b.len()
                invariant
                    0 <= i <= b@.len(),
                    v@ == start + b@.subrange(0, i as int),
                decreases b@.len() - i,
            {
                v.push(b[i]);
                i = i + 1;
                assert(v@ =~= start + b@.subrange(0, i as int));
            }
            assert(b@.subrange(0, b@.len() as int) =~= b@);
            Ok(())
        },
        _ => Err(Error::TypeMismatch),
    }
}

// ---------------------------------------------------------------------------
// Laws
// ---------------------------------------------------------------------------

/// Stripping leaves neither leading nor trailing white space, so stripping
/// again changes nothing; the same holds of each side alone.
pub proof fn lemma_strip_idempotent(s: Seq<char>)
    ensures
        spec_lstrip(spec_lstrip(s)) == spec_lstrip(s),
        spec_rstrip(spec_rstrip(s)) == spec_rstrip(s),
        spec_strip(spec_strip(s)) == spec_strip(s),
        spec_strip(s).len() > 0 ==> !is_ws(spec_strip(s)[0]) && !is_ws(spec_strip(s).last()),
{
    lemma_skip_ws_stops(s, 0, s.len() as int);
    let t = spec_lstrip(s);
    lemma_skip_ws_stops(t, 0, t.len() as int);
    let u = spec_rstrip(t);
    lemma_skip_ws_stops(u, 0, u.len() as int);
    let r = spec_rstrip(s);
    lemma_skip_ws_stops(r, 0, r.len() as int);
    // lstrip of a string that starts with a non-space is the string itself
    if t.len() > 0 {
        assert(!is_ws(t[0]));
        assert(skip_ws(t, 0) == 0);
    }
    assert(spec_lstrip(t) =~= t);
    if r.len() > 0 {
        assert(!is_ws(r[r.len() - 1]));
        assert(skip_ws_back(r, r.len() as int) == r.len());
    }
    assert(spec_rstrip(r) =~= r);
    if u.len() > 0 {
        assert(u[0] == t[0]);
        assert(skip_ws(u, 0) == 0);
        assert(u[u.len() - 1] == t[u.len() - 1]);
        assert(skip_ws_back(u, u.len() as int) == u.len());
    }
    assert(spec_lstrip(u) =~= u);
    assert(spec_rstrip(u) =~= u);
}

/// `chomp` removes exactly one line ending, if `s` ends with one.
pub proof fn lemma_chomp_removes_line_ending(s: Seq<char>)
    ensures
        ({
            let c = spec_chomp(s);
            let e = s.subrange(c.len() as int, s.len() as int);
            &&& c.len() <= s.len()
            &&& s == c + e
            &&& e == Seq::<char>::empty() || e == seq!['\n'] || e == seq!['\r'] || e == seq!['\r', '\n']
        }),
{
    let c = spec_chomp(s);
    let e = s.subrange(c.len() as int, s.len() as int);
    assert(s =~= c + e);
    let n = s.len() as int;
    if n >= 2 && s[n - 2] == '\r' && s[n - 1] == '\n' {
        assert(e =~= seq!['\r', '\n']);
    } else if n >= 1 && s[n - 1] == '\n' {
        assert(e =~= seq!['\n']);
    } else if n >= 1 && s[n - 1] == '\r' {
        assert(e =~= seq!['\r']);
    } else {
        assert(e =~= Seq::<char>::empty());
    }
}

/// Putting the piece cut out by `slice!` back at its index gives the
/// string back.
pub proof fn lemma_slice_bang_reassembles(s: Seq<char>, index: int, length: Option<int>)
    requires
        spec_slice(s, index, length) is Some,
    ensures
        ({
            let idx = norm_index(index, s.len() as int);
            let rest = spec_slice_rest(s, index, length);
            &&& 0 <= idx <= rest.len()
            &&& s == rest.subrange(0, idx) + spec_slice(s, index, length)->Some_0 + rest.subrange(
                idx,
                rest.len() as int,
            )
        }),
{
    let len = s.len() as int;
    let idx = norm_index(index, len);
    let end = match length {
        None => idx + 1,
        Some(l) => slice_end(idx, l, len),
    };
    let t = spec_slice(s, index, length)->Some_0;
    assert(t =~= s.subrange(idx, end));
    let rest = spec_slice_rest(s, index, length);
    assert(rest.subrange(0, idx) =~= s.subrange(0, idx));
    assert(rest.subrange(idx, rest.len() as int) =~= s.subrange(end, len));
    assert(s =~= s.subrange(0, idx) + s.subrange(idx, end) + s.subrange(end, len));
}

/// The pieces `parts` joined with `sep` between each two of them.
pub open spec fn join(parts: Seq<Seq<char>>, sep: Seq<char>) -> Seq<char>
    decreases parts.len(),
{
    if parts.len() == 0 {
        Seq::empty()
    } else if parts.len() == 1 {
        parts[0]
    } else {
        parts[0] + sep + join(parts.drop_first(), sep)
    }
}

proof fn lemma_split_nonempty_len(s: Seq<char>, sep: Seq<char>)
    ensures
        split_nonempty(s, sep).len() >= 1,
    decreases s.len(),
{
    if sep.len() > 0 {
        lemma_find_from(s, sep, 0);
        if let Some(k) = find_from(s, sep, 0) {
            lemma_split_nonempty_len(s.subrange(k + sep.len(), s.len() as int), sep);
        }
    }
}

proof fn lemma_join_split_nonempty(s: Seq<char>, sep: Seq<char>)
    requires
        sep.len() > 0,
    ensures
        join(split_nonempty(s, sep), sep) == s,
    decreases s.len(),
{
    lemma_find_from(s, sep, 0);
    match find_from(s, sep, 0) {
        None => {},
        Some(k) => {
            let rest = s.subrange(k + sep.len(), s.len() as int);
            lemma_join_split_nonempty(rest, sep);
            lemma_split_nonempty_len(rest, sep);
            let parts = split_nonempty(s, sep);
            assert(parts.drop_first() =~= split_nonempty(rest, sep));
            assert(s =~= s.subrange(0, k) + sep + rest);
        },
    }
}

proof fn lemma_join_chars(s: Seq<char>, k: int)
    requires
        0 <= k <= s.len(),
    ensures
        join(Seq::new((s.len() - k) as nat, |i: int| seq![s[k + i]]) + seq![Seq::<char>::empty()], Seq::empty())
            == s.subrange(k, s.len() as int),
    decreases s.len() - k,
{
    let parts = Seq::new((s.len() - k) as nat, |i: int| seq![s[k + i]]) + seq![Seq::<char>::empty()];
    if k == s.len() {
        assert(parts =~= seq![Seq::<char>::empty()]);
        assert(s.subrange(k, s.len() as int) =~= Seq::<char>::empty());
    } else {
        lemma_join_chars(s, k + 1);
        let next = Seq::new((s.len() - (k + 1)) as nat, |i: int| seq![s[(k + 1) + i]]) + seq![Seq::<char>::empty()];
        assert(parts.drop_first() =~= next);
        assert(parts[0] == seq![s[k]]);
        assert(s.subrange(k, s.len() as int) =~= seq![s[k]] + Seq::<char>::empty() + s.subrange(k + 1, s.len() as int));
    }
}

/// Joining the pieces of `split` with the separator gives the string back.
pub proof fn lemma_split_then_join(s: Seq<char>, sep: Seq<char>)
    ensures
        join(spec_split(s, sep), sep) == s,
{
    if sep.len() == 0 {
        lemma_join_chars(s, 0);
        let chars = Seq::new(s.len(), |i: int| seq![s[i]]);
        let parts = seq![Seq::<char>::empty()] + chars + seq![Seq::<char>::empty()];
        let tail = Seq::new((s.len() - 0) as nat, |i: int| seq![s[0 + i]]) + seq![Seq::<char>::empty()];
        assert(parts.drop_first() =~= tail);
        assert(sep =~= Seq::<char>::empty());
        assert(s.subrange(0, s.len() as int) =~= s);
        assert(Seq::<char>::empty() + Seq::<char>::empty() + s =~= s);
    } else {
        lemma_join_split_nonempty(s, sep);
    }
}

/// The words of `split_whitespace` are non-empty and hold no white space.
pub proof fn lemma_words_have_no_space(s: Seq<char>)
    ensures
        forall|i: int| 0 <= i < spec_words(s).len() ==> #[trigger] spec_words(s)[i].len() > 0
            && forall|j: int| 0 <= j < spec_words(s)[i].len() ==> !is_ws(spec_words(s)[i][j]),
    decreases s.len(),
{
    if s.len() == 0 {
    } else if is_ws(s[0]) {
        lemma_words_have_no_space(s.drop_first());
        assert(spec_words(s) == spec_words(s.drop_first()));
    } else {
        let e = run_end(s, 1);
        lemma_run_end(s, 1);
        lemma_run_end_no_space(s, 1);
        let rest = s.subrange(e, s.len() as int);
        lemma_words_have_no_space(rest);
        let w = spec_words(s);
        assert forall|i: int| 0 <= i < w.len() implies #[trigger] w[i].len() > 0
            && forall|j: int| 0 <= j < w[i].len() ==> !is_ws(w[i][j]) by {
            if i == 0 {
                assert(w[0] == s.subrange(0, e));
                assert forall|j: int| 0 <= j < w[0].len() implies !is_ws(w[0][j]) by {
                    assert(w[0][j] == s[j]);
                    if j >= 1 {
                        assert(!is_ws(s[j]));
                    }
                }
            } else {
                assert(w[i] == spec_words(rest)[i - 1]);
            }
        }
    }
}

/// The characters from `k` up to `run_end(s, k)` are not white space.
proof fn lemma_run_end_no_space(s: Seq<char>, k: int)
    requires
        0 <= k <= s.len(),
    ensures
        forall|j: int| k <= j < run_end(s, k) ==> !is_ws(#[trigger] s[j]),
    decreases s.len() - k,
{
    if k < s.len() && !is_ws(s[k]) {
        lemma_run_end_no_space(s, k + 1);
    }
}

/// Setting a byte and then getting it at the same index gives the value
/// that was set, and the other bytes are as they were.
pub proof fn lemma_setbyte_then_getbyte(before: Seq<u8>, after: Seq<u8>, index: int, value: int, other: int)
    requires
        byte_index(index, before.len() as int) is Some,
        0 <= value <= 255,
        after == before.update(byte_index(index, before.len() as int)->Some_0, value as u8),
    ensures
        byte_index(index, after.len() as int) == byte_index(index, before.len() as int),
        after[byte_index(index, after.len() as int)->Some_0] == value,
        0 <= other < before.len() && other != byte_index(index, before.len() as int)->Some_0 ==> after[other]
            == before[other],
{
}

} // verus!
