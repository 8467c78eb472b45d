//! Recognizers for numeric literals, as the standard library's `FromStr`
//! for `f32` and `i32` accept them.
use crate::text::chars_of;
use vstd::prelude::*;

verus! {

/// `Digit ::= [0-9]`
pub open spec fn is_digit(c: char) -> bool {
    '0' <= c <= '9'
}

/// `Sign ::= [+-]`
pub open spec fn is_sign(c: char) -> bool {
    c == '+' || c == '-'
}

/// `c` is the lower-case letter `w`, or the same letter in upper case.
pub open spec fn same_letter(c: char, w: char) -> bool {
    c == w || ('A' <= c <= 'Z' && (c as u32) + 32 == (w as u32))
}

/// `s` spells the lower-case word `w`, letters in either case.
pub open spec fn eq_ignore_case(s: Seq<char>, w: Seq<char>) -> bool {
    s.len() == w.len() && forall|i: int| 0 <= i < s.len() ==> same_letter(#[trigger] s[i], w[i])
}

/// The end of the run of digits that starts at `from`: the first position
/// at or after `from` that holds no digit, or the length of `s`.
pub open spec fn digit_run_end(s: Seq<char>, from: int) -> int
    decreases s.len() - from,
{
    if from < 0 || from >= s.len() || !is_digit(s[from]) {
        from
    } else {
        digit_run_end(s, from + 1)
    }
}

/// `Exp ::= 'e' Sign? Digit+` (the `e` in either case).
pub open spec fn is_exponent(x: Seq<char>) -> bool {
    let j: int = if x.len() >= 2 && is_sign(x[1]) { 2 } else { 1 };
    &&& x.len() >= 1
    &&& same_letter(x[0], 'e')
    &&& j < x.len()
    &&& digit_run_end(x, j) == x.len()
}

/// `Number ::= ( Digit+ | Digit+ '.' Digit* | Digit* '.' Digit+ ) Exp?`
pub open spec fn is_number(b: Seq<char>) -> bool {
    let e1 = digit_run_end(b, 0);
    if e1 < b.len() && b[e1] == '.' {
        let e2 = digit_run_end(b, e1 + 1);
        &&& (e1 >= 1 || e2 > e1 + 1)
        &&& (e2 == b.len() || is_exponent(b.skip(e2)))
    } else {
        &&& e1 >= 1
        &&& (e1 == b.len() || is_exponent(b.skip(e1)))
    }
}

/// The number of sign characters that open `s` (0 or 1).
pub open spec fn sign_len(s: Seq<char>) -> int {
    if s.len() >= 1 && is_sign(s[0]) {
        1
    } else {
        0
    }
}

/// `Float ::= Sign? ( 'inf' | 'infinity' | 'nan' | Number )`, read with
/// letters in either case: the strings on which `str::parse::<f32>`
/// returns `Ok`.
pub open spec fn float_literal(s: Seq<char>) -> bool {
    let b = s.skip(sign_len(s));
    ||| eq_ignore_case(b, "inf"@)
    ||| eq_ignore_case(b, "infinity"@)
    ||| eq_ignore_case(b, "nan"@)
    ||| is_number(b)
}

/// The value of a sequence of decimal digits.
pub open spec fn digits_value(s: Seq<char>) -> nat
    decreases s.len(),
{
    if s.len() == 0 {
        0
    } else {
        digits_value(s.drop_last()) * 10 + ((s.last() as u32) - ('0' as u32)) as nat
    }
}

/// An optional sign followed by one or more digits whose value fits in an
/// `i32`: the strings on which `str::parse::<i32>` returns `Ok`.
pub open spec fn i32_literal(s: Seq<char>) -> bool {
    let d = s.skip(sign_len(s));
    &&& d.len() >= 1
    &&& digit_run_end(d, 0) == d.len()
    &&& if sign_len(s) == 1 && s[0] == '-' {
        digits_value(d) <= 0x8000_0000
    } else {
        digits_value(d) <= 0x7fff_ffff
    }
}

/// Whether `s` parses as an `i32`.
///
/// Trusted: calls `str::parse::<i32>`, whose documentation accepts an
/// optional `+` or `-` followed by digits only, and reports an error for
/// any other character and for a value outside the range of `i32`; the
/// contract claims that `Ok` comes back exactly on those strings.
#[verifier::external_body]
pub fn parses_as_i32(s: &str) -> (r: bool)
    ensures
        r == i32_literal(s@),
{
    s.parse::<i32>().is_ok()
}

/// A run of digits ends no earlier than it starts and no later than the end
/// of the sequence, and holds only digits.
proof fn lemma_digit_run_bounds(s: Seq<char>, from: int)
    requires
        0 <= from <= s.len(),
    ensures
        from <= digit_run_end(s, from) <= s.len(),
        forall|i: int| from <= i < digit_run_end(s, from) ==> is_digit(#[trigger] s[i]),
        digit_run_end(s, from) < s.len() ==> !is_digit(s[digit_run_end(s, from)]),
    decreases s.len() - from,
{
    if from < s.len() && is_digit(s[from]) {
        lemma_digit_run_bounds(s, from + 1);
    }
}

/// Runs of digits are found at the same places in a suffix.
proof fn lemma_digit_run_skip(s: Seq<char>, k: int, j: int)
    requires
        0 <= k <= s.len(),
        0 <= j,
    ensures
        digit_run_end(s.skip(k), j) == digit_run_end(s, k + j) - k,
    decreases s.len() - (k + j),
{
    if k + j < s.len() && is_digit(s[k + j]) {
        lemma_digit_run_skip(s, k, j + 1);
    }
}

fn digit_end(s: &Vec<char>, from: usize) -> (r: usize)
    requires
        from <= s.len(),
    ensures
        r == digit_run_end(s@, from as int),
{
    let mut i = from;
    while i < s.len() && '0' <= s[i] && s[i] <= '9'
        invariant
            from <= i <= s.len(),
            digit_run_end(s@, i as int) == digit_run_end(s@, from as int),
        decreases s.len() - i,
    {
        i = i + 1;
    }
    i
}

fn word_ci_at(s: &Vec<char>, from: usize, w: &str) -> (r: bool)
    requires
        from <= s.len(),
    ensures
        r == eq_ignore_case(s@.skip(from as int), w@),
{
    let n = w.unicode_len();
    if s.len() - from != n {
        return false;
    }
    let mut i: usize = 0;
    while i < n
        invariant
            n == w@.len(),
            s.len() - from == n,
            0 <= i <= n,
            forall|j: int| 0 <= j < i ==> same_letter(#[trigger] s@.skip(from as int)[j], w@[j]),
        decreases n - i,
    {
        let c = s[from + i];
        let wc = w.get_char(i);
        if !(c == wc || ('A' <= c && c <= 'Z' && (c as u32) + 32 == (wc as u32))) {
            assert(!same_letter(s@.skip(from as int)[i as int], w@[i as int]));
            return false;
        }
        i = i + 1;
    }
    true
}

fn exponent_at(s: &Vec<char>, k: usize) -> (r: bool)
    requires
        k <= s.len(),
    ensures
        r == is_exponent(s@.skip(k as int)),
{
    let ghost x = s@.skip(k as int);
    let n = s.len();
    if n - k < 1 || !(s[k] == 'e' || s[k] == 'E') {
        return false;
    }
    let j: usize = if n - k >= 2 && (s[k + 1] == '+' || s[k + 1] == '-') { 2 } else { 1 };
    assert(j as int == if x.len() >= 2 && is_sign(x[1]) { 2int } else { 1int });
    if j >= n - k {
        return false;
    }
    let e = digit_end(s, k + j);
    proof {
        lemma_digit_run_skip(s@, k as int, j as int);
    }
    e == n
}

fn number_at(s: &Vec<char>, k: usize) -> (r: bool)
    requires
        k <= s.len(),
    ensures
        r == is_number(s@.skip(k as int)),
{
    let ghost b = s@.skip(k as int);
    let n = s.len();
    let e1 = digit_end(s, k);
    proof {
        lemma_digit_run_skip(s@, k as int, 0);
        lemma_digit_run_bounds(s@, k as int);
    }
    if e1 < n && s[e1] == '.' {
        assert(b[e1 - k] == s@[e1 as int]);
        let e2 = digit_end(s, e1 + 1);
        proof {
            lemma_digit_run_skip(s@, k as int, e1 - k + 1);
            lemma_digit_run_bounds(s@, e1 + 1);
        }
        if !(e1 - k >= 1 || e2 > e1 + 1) {
            return false;
        }
        if e2 == n {
            return true;
        }
        assert(b.skip(e2 - k) == s@.skip(e2 as int));
        exponent_at(s, e2)
    } else {
        if e1 < n {
            assert(b[e1 - k] == s@[e1 as int]);
        }
        if e1 - k < 1 {
            return false;
        }
        if e1 == n {
            return true;
        }
        assert(b.skip(e1 - k) == s@.skip(e1 as int));
        exponent_at(s, e1)
    }
}

/// Whether `s` is a floating-point literal that `str::parse::<f32>` would
/// accept.
pub fn is_float_literal(s: &str) -> (r: bool)
    ensures
        r == float_literal(s@),
{
    let c = chars_of(s);
    let n = c.len();
    let st: usize = if n >= 1 && (c[0] == '+' || c[0] == '-') { 1 } else { 0 };
    assert(st as int == sign_len(s@));
    if word_ci_at(&c, st, "inf") || word_ci_at(&c, st, "infinity") || word_ci_at(&c, st, "nan") {
        return true;
    }
    number_at(&c, st)
}

/// Every string that parses as an `i32` also parses as an `f32`.
pub proof fn lemma_i32_literal_is_float_literal(s: Seq<char>)
    ensures
        i32_literal(s) ==> float_literal(s),
{
    if i32_literal(s) {
        let d = s.skip(sign_len(s));
        lemma_digit_run_bounds(d, 0);
        assert(is_number(d));
    }
}

} // verus!
