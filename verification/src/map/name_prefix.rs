//! Numeric ids inside OpenTCS / protocol names such as `Point_3` or `Path_12`.
use vstd::prelude::*;
use crate::text::{
    all_digits, chars_of, decimal, digit_char, digit_value, digits_value, is_digit, is_digit_char,
    is_white_space, lemma_digits_value_nonneg, trim, trim_bounds, trim_end, trim_end_in, trim_start,
};

verus! {

/// What `str::parse::<i32>` gives: an optional `+` or `-` followed by at least one
/// ASCII digit and nothing else, with a value in the range of `i32`.
pub open spec fn spec_parse_i32(s: Seq<char>) -> Option<i32> {
    if s.len() == 0 {
        None
    } else if s[0] == '+' || s[0] == '-' {
        let d = s.drop_first();
        if d.len() == 0 || !all_digits(d) {
            None
        } else {
            let v = if s[0] == '-' { -digits_value(d) } else { digits_value(d) };
            if i32::MIN <= v <= i32::MAX { Some(v as i32) } else { None }
        }
    } else if all_digits(s) && digits_value(s) <= i32::MAX {
        Some(digits_value(s) as i32)
    } else {
        None
    }
}

/// Number of ASCII digits at the very end of `s`.
pub open spec fn trailing_digit_count(s: Seq<char>) -> nat
    decreases s.len(),
{
    if s.len() > 0 && is_digit(s.last()) {
        1 + trailing_digit_count(s.drop_last())
    } else {
        0
    }
}

/// The run of digits that ends `s` once its trailing whitespace is cut, if it is not empty.
pub open spec fn spec_trailing_digits(s: Seq<char>) -> Option<Seq<char>> {
    let t = trim_end(s);
    let n = trailing_digit_count(t);
    if n == 0 {
        None
    } else {
        Some(t.subrange(t.len() - n, t.len() as int))
    }
}

/// `t` without `prefix` when `prefix` is non-empty and starts `t`; else `t`.
pub open spec fn spec_after_prefix(t: Seq<char>, prefix: Seq<char>) -> Seq<char> {
    if prefix.len() > 0 && prefix.is_prefix_of(t) {
        t.skip(prefix.len() as int)
    } else {
        t
    }
}

/// The id in `value`: trim it, drop `prefix` if it starts the text, parse the rest as an
/// `i32`; failing that, parse its trailing digit run; failing both (or for blank text), 0.
pub open spec fn spec_strip_prefix_and_parse_int(value: Seq<char>, prefix: Seq<char>) -> i32 {
    let t = trim(value);
    if t.len() == 0 {
        0
    } else {
        let a = spec_after_prefix(t, prefix);
        match spec_parse_i32(a) {
            Some(n) => n,
            None => match spec_trailing_digits(a) {
                Some(d) => match spec_parse_i32(d) {
                    Some(n) => n,
                    None => 0,
                },
                None => 0,
            },
        }
    }
}

/// `str::parse::<i32>` on the characters `v[lo..hi]`.
pub fn parse_i32_in(v: &Vec<char>, lo: usize, hi: usize) -> (r: Option<i32>)
    requires
        lo <= hi <= v.len(),
    ensures
        r == spec_parse_i32(v@.subrange(lo as int, hi as int)),
{
    let ghost s = v@.subrange(lo as int, hi as int);
    if lo == hi {
        return None;
    }
    let first = v[lo];
    let signed = first == '+' || first == '-';
    let start = if signed { lo + 1 } else { lo };
    assert(s.drop_first() =~= v@.subrange(lo + 1, hi as int));
    if start == hi {
        return None;
    }
    let mut acc: u64 = 0;
    let mut overflow = false;
    let mut i = start;
    while i < hi
        invariant
            lo <= start <= i <= hi <= v.len(),
            s == v@.subrange(lo as int, hi as int),
            s.len() > 0,
            signed == (s[0] == '+' || s[0] == '-'),
            start == if signed { lo + 1 } else { lo as int },
            all_digits(v@.subrange(start as int, i as int)),
            !overflow ==> acc == digits_value(v@.subrange(start as int, i as int)),
            !overflow ==> acc <= 2147483648,
            overflow ==> digits_value(v@.subrange(start as int, i as int)) > 2147483648,
        decreases hi - i,
    {
        let c = v[i];
        let ghost pre = v@.subrange(start as int, i as int);
        let ghost next = v@.subrange(start as int, i + 1);
        assert(next.drop_last() =~= pre);
        if !is_digit_char(c) {
            assert(!all_digits(v@.subrange(start as int, hi as int))) by {
                assert(v@.subrange(start as int, hi as int)[i - start] == c);
            }
            assert(v@.subrange(start as int, hi as int) =~= if signed { s.drop_first() } else { s });
            return None;
        }
        proof {
            lemma_digits_value_nonneg(pre);
        }
        if !overflow {
            let d = (c as u32 - '0' as u32) as u64;
            let nv = acc * 10 + d;
            if nv > 2147483648 {
                overflow = true;
            } else {
                acc = nv;
            }
        }
        i = i + 1;
    }
    assert(v@.subrange(start as int, i as int) =~= if signed { s.drop_first() } else { s });
    if overflow {
        return None;
    }
    if first == '-' {
        Some((0 - acc as i64) as i32)
    } else if acc <= 2147483647 {
        Some(acc as i32)
    } else {
        None
    }
}

/// Bounds of `spec_trailing_digits(v@.subrange(lo, hi))` inside `v`.
pub fn trailing_digits_in(v: &Vec<char>, lo: usize, hi: usize) -> (r: Option<(usize, usize)>)
    requires
        lo <= hi <= v.len(),
    ensures
        match spec_trailing_digits(v@.subrange(lo as int, hi as int)) {
            Some(d) => r matches Some((a, b)) && lo <= a < b <= hi && v@.subrange(a as int, b as int) == d,
            None => r is None,
        },
{
    let e = trim_end_in(v, lo, hi);
    let mut j = e;
    while j > lo && is_digit_char(v[j - 1])
        invariant
            lo <= j <= e <= hi <= v.len(),
            trailing_digit_count(v@.subrange(lo as int, e as int)) == (e - j) + trailing_digit_count(
                v@.subrange(lo as int, j as int),
            ),
        decreases j,
    {
        assert(v@.subrange(lo as int, j as int).drop_last() =~= v@.subrange(lo as int, j - 1));
        j = j - 1;
    }
    let ghost t = v@.subrange(lo as int, e as int);
    assert(trailing_digit_count(v@.subrange(lo as int, j as int)) == 0);
    if j == e {
        None
    } else {
        assert(t.subrange(t.len() - (e - j), t.len() as int) =~= v@.subrange(j as int, e as int));
        Some((j, e))
    }
}

/// Whether `p` is non-empty and starts `v[lo..hi]`.
fn has_prefix_at(v: &Vec<char>, lo: usize, hi: usize, p: &Vec<char>) -> (b: bool)
    requires
        lo <= hi <= v.len(),
    ensures
        b == (p@.len() > 0 && p@.is_prefix_of(v@.subrange(lo as int, hi as int))),
{
    if p.len() == 0 || p.len() > hi - lo {
        return false;
    }
    let mut k: usize = 0;
    while k < p.len()
        invariant
            k <= p.len() <= hi - lo,
            lo <= hi <= v.len(),
            forall|m: int| 0 <= m < k ==> p@[m] == v@[lo + m],
        decreases p.len() - k,
    {
        if p[k] != v[lo + k] {
            assert(v@.subrange(lo as int, hi as int).subrange(0, p@.len() as int)[k as int] == v@[lo + k]);
            return false;
        }
        k = k + 1;
    }
    assert(p@ =~= v@.subrange(lo as int, hi as int).subrange(0, p@.len() as int));
    true
}

/// The trailing run of ASCII digits of `s` once trailing whitespace is cut, if there is one.
pub fn trailing_digits_at_end(s: &str) -> (r: Option<&str>)
    ensures
        r matches Some(d) ==> spec_trailing_digits(s@) == Some(d@),
        r is None <==> spec_trailing_digits(s@) is None,
{
    let v = chars_of(s);
    assert(v@.subrange(0, v@.len() as int) =~= v@);
    match trailing_digits_in(&v, 0, v.len()) {
        Some((a, b)) => Some(s.substring_char(a, b)),
        None => None,
    }
}

/// The numeric id in an OpenTCS or protocol name: trim `value`, strip `prefix` when it is
/// non-empty and starts the text, and parse the rest as an `i32`; when that fails, parse the
/// run of digits that ends the text. Yields 0 for blank text or when no number is found.
pub fn strip_prefix_and_parse_int(value: &str, prefix: &str) -> (n: i32)
    ensures
        n == spec_strip_prefix_and_parse_int(value@, prefix@),
{
    let v = chars_of(value);
    let p = chars_of(prefix);
    let (lo, hi) = trim_bounds(&v);
    let ghost t = trim(v@);
    if lo == hi {
        return 0;
    }
    let start = if has_prefix_at(&v, lo, hi, &p) {
        lo + p.len()
    } else {
        lo
    };
    assert(v@.subrange(start as int, hi as int) =~= spec_after_prefix(t, p@));
    match parse_i32_in(&v, start, hi) {
        Some(n) => n,
        None => match trailing_digits_in(&v, start, hi) {
            Some((a, b)) => match parse_i32_in(&v, a, b) {
                Some(n) => n,
                None => 0,
            },
            None => 0,
        },
    }
}

proof fn lemma_decimal(n: nat)
    ensures
        decimal(n).len() > 0,
        all_digits(decimal(n)),
        digits_value(decimal(n)) == n,
        is_digit(decimal(n)[0]),
    decreases n,
{
    let d = digit_char(n % 10);
    assert(digit_value(d) == n % 10);
    assert(n == (n / 10) * 10 + n % 10) by (nonlinear_arith);
    if n < 10 {
        assert(decimal(n) =~= seq![d]);
        assert(decimal(n).drop_last() =~= Seq::<char>::empty());
        assert(digits_value(Seq::<char>::empty()) == 0);
        assert(n % 10 == n);
        assert(digits_value(decimal(n)) == digits_value(Seq::<char>::empty()) * 10 + digit_value(d));
    } else {
        lemma_decimal(n / 10);
        let s = decimal(n / 10);
        assert(decimal(n) == s.push(d));
        assert(s.push(d).drop_last() =~= s);
        assert(s.push(d)[0] == s[0]);
        assert(digits_value(s.push(d)) == digits_value(s) * 10 + digit_value(d));
    }
}

proof fn lemma_trim_end_keeps(s: Seq<char>)
    requires
        s.len() > 0,
        !is_white_space(s.last()),
    ensures
        trim_end(s) == s,
{
}

proof fn lemma_trim_start_concat(p: Seq<char>, d: Seq<char>, i: int)
    requires
        0 <= i < p.len(),
        !is_white_space(p[i]),
    ensures
        trim_start(p + d) == trim_start(p) + d,
        trim_start(p).len() > 0,
        trim_start(p).last() == p.last(),
        trim_start(p).len() <= p.len(),
        trim_start(p) == p.subrange(p.len() - trim_start(p).len(), p.len() as int),
    decreases p.len(),
{
    if is_white_space(p[0]) {
        assert((p + d).drop_first() =~= p.drop_first() + d);
        lemma_trim_start_concat(p.drop_first(), d, i - 1);
        let q = p.drop_first();
        assert(q.subrange(q.len() - trim_start(q).len(), q.len() as int) =~= p.subrange(
            p.len() - trim_start(q).len(),
            p.len() as int,
        ));
    } else {
        assert(p.subrange(0, p.len() as int) =~= p);
    }
}

proof fn lemma_trailing_digit_count_concat(x: Seq<char>, d: Seq<char>)
    requires
        x.len() > 0,
        !is_digit(x.last()),
        all_digits(d),
    ensures
        trailing_digit_count(x + d) == d.len(),
    decreases d.len(),
{
    if d.len() == 0 {
        assert(x + d =~= x);
    } else {
        assert((x + d).drop_last() =~= x + d.drop_last());
        assert(is_digit(d[d.len() - 1]));
        lemma_trailing_digit_count_concat(x, d.drop_last());
    }
}

/// The id read back from a canonical name (a prefix that ends with `_`, followed by the
/// decimal rendering of a positive `i32`) is the id the name was made from.
pub proof fn lemma_canonical_name_id(prefix: Seq<char>, n: i32)
    requires
        prefix.len() > 0,
        prefix.last() == '_',
        n > 0,
    ensures
        spec_strip_prefix_and_parse_int(prefix + decimal(n as nat), prefix) == n,
{
    let d = decimal(n as nat);
    lemma_decimal(n as nat);
    let full = prefix + d;
    assert(full.last() == d.last());
    assert(is_digit(d[d.len() - 1]));
    lemma_trim_end_keeps(full);
    lemma_trim_start_concat(prefix, d, prefix.len() - 1);
    let t = trim(full);
    assert(t == trim_start(prefix) + d);
    let tp = trim_start(prefix);
    assert(t.len() > 0);
    assert(d.drop_first().len() == d.len() - 1);
    assert(spec_parse_i32(d) == Some(n)) by {
        assert(d[0] != '+' && d[0] != '-');
    }
    if prefix.is_prefix_of(t) {
        assert(t.skip(prefix.len() as int) =~= d) by {
            assert(tp.len() <= prefix.len());
            assert(t.subrange(0, prefix.len() as int) =~= prefix);
            assert(t[prefix.len() - 1] == '_');
            assert(tp.len() == prefix.len()) by {
                if tp.len() < prefix.len() {
                    assert(t[prefix.len() - 1] == d[prefix.len() - 1 - tp.len()]);
                    assert(is_digit(d[prefix.len() - 1 - tp.len()]));
                }
            }
        }
    } else {
        let u = tp.len() - 1;
        assert(t[u] == '_');
        assert(spec_parse_i32(t) is None) by {
            if t[0] == '+' || t[0] == '-' {
                assert(u > 0);
                assert(t.drop_first()[u - 1] == '_');
            } else {
                assert(!is_digit(t[u]));
            }
        }
        assert(trim_end(t) == t) by {
            lemma_trim_end_keeps(t);
        }
        lemma_trailing_digit_count_concat(tp, d);
        assert(t.subrange(t.len() - d.len(), t.len() as int) =~= d);
    }
}

/// The id read back from the bare decimal rendering of a positive `i32` is that number,
/// whatever prefix ending with `_` is given.
pub proof fn lemma_bare_id(prefix: Seq<char>, n: i32)
    requires
        prefix.len() > 0,
        prefix.last() == '_',
        n > 0,
    ensures
        spec_strip_prefix_and_parse_int(decimal(n as nat), prefix) == n,
{
    let d = decimal(n as nat);
    lemma_decimal(n as nat);
    assert(is_digit(d[d.len() - 1]));
    lemma_trim_end_keeps(d);
    assert(trim_start(d) == d);
    if prefix.is_prefix_of(d) {
        assert(d[prefix.len() - 1] == prefix.last());
        assert(is_digit(d[prefix.len() - 1]));
    }
    assert(spec_parse_i32(d) == Some(n)) by {
        assert(d[0] != '+' && d[0] != '-');
    }
}

/// `n` written out as `i32::to_string` writes it: decimal, with `-` before a negative number.
pub open spec fn signed_decimal(n: int) -> Seq<char> {
    if n < 0 {
        seq!['-'] + decimal((-n) as nat)
    } else {
        decimal(n as nat)
    }
}

/// The id read back from `prefix` followed by any `i32` written out is that `i32`, for every
/// prefix that does not start with whitespace (the empty prefix included).
pub proof fn lemma_decimal_name_round_trip(prefix: Seq<char>, n: i32)
    requires
        prefix.len() == 0 || !is_white_space(prefix[0]),
    ensures
        spec_strip_prefix_and_parse_int(prefix + signed_decimal(n as int), prefix) == n,
{
    let m: nat = if n < 0 { (-n) as nat } else { n as nat };
    lemma_decimal(m);
    let digits = decimal(m);
    let d = signed_decimal(n as int);
    assert(d.len() > 0);
    assert(d.last() == digits.last());
    assert(is_digit(digits[digits.len() - 1]));
    let full = prefix + d;
    assert(full.last() == d.last());
    lemma_trim_end_keeps(full);
    assert(!is_white_space(full[0])) by {
        if prefix.len() == 0 {
            assert(full[0] == d[0]);
            if n >= 0 {
                assert(is_digit(digits[0]));
            }
        }
    }
    assert(trim(full) == full);
    if prefix.len() > 0 {
        assert(prefix.is_prefix_of(full)) by {
            assert(full.subrange(0, prefix.len() as int) =~= prefix);
        }
        assert(full.skip(prefix.len() as int) =~= d);
    } else {
        assert(full =~= d);
    }
    if n < 0 {
        assert(d[0] == '-');
        assert(d.drop_first() =~= digits);
    } else {
        assert(is_digit(d[0]));
        assert(d[0] != '+' && d[0] != '-');
    }
    assert(spec_parse_i32(d) == Some(n));
}

} // verus!
