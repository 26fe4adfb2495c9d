//! Number text: the grammar of float literals that `f64::from_str`
//! accepts, the cleanup of percentage strings such as `" 55% "`, and
//! decimal rendering of integers.

use vstd::prelude::*;
use crate::text::{chars_of, is_ws, string_from_chars, trim, trim_bounds, trim_end, trim_start};

verus! {

/// ASCII digit.
pub open spec fn is_digit_char(c: char) -> bool {
    '0' <= c <= '9'
}

/// ASCII lowercase of one character (other characters unchanged).
pub open spec fn lower_char(c: char) -> char {
    if 'A' <= c <= 'Z' {
        ((c as u32) + 32) as char
    } else {
        c
    }
}

/// `s` equals the lowercase word `w`, ignoring ASCII case.
pub open spec fn eq_ignore_case(s: Seq<char>, w: Seq<char>) -> bool {
    &&& s.len() == w.len()
    &&& forall|j: int| 0 <= j < s.len() ==> lower_char(#[trigger] s[j]) == w[j]
}

/// End of the run of ASCII digits of `s` that starts at `i`.
pub open spec fn digits_end(s: Seq<char>, i: int) -> int
    decreases s.len() - i,
{
    if 0 <= i < s.len() && is_digit_char(s[i]) {
        digits_end(s, i + 1)
    } else {
        i
    }
}

/// `+` or `-`.
pub open spec fn is_sign(c: char) -> bool {
    c == '+' || c == '-'
}

/// The decimal-number part of the float grammar:
/// `( Digit+ | Digit+ '.' Digit* | Digit* '.' Digit+ ) Exp?` with
/// `Exp ::= ('e' | 'E') Sign? Digit+`.
pub open spec fn is_number_literal(s: Seq<char>) -> bool {
    let a = digits_end(s, 0);
    let has_dot = a < s.len() && s[a] == '.';
    let b = if has_dot {
        digits_end(s, a + 1)
    } else {
        a
    };
    let mantissa = a > 0 || (has_dot && b > a + 1);
    let exponent = b == s.len() || ((s[b] == 'e' || s[b] == 'E') && {
        let c = if b + 1 < s.len() && is_sign(s[b + 1]) {
            b + 2
        } else {
            b + 1
        };
        let d = digits_end(s, c);
        d > c && d == s.len()
    });
    mantissa && exponent
}

/// The words `inf`, `infinity` and `nan`.
pub open spec fn special_word(n: int) -> Seq<char> {
    if n == 0 {
        seq!['i', 'n', 'f']
    } else if n == 1 {
        seq!['i', 'n', 'f', 'i', 'n', 'i', 't', 'y']
    } else {
        seq!['n', 'a', 'n']
    }
}

/// The strings that `f64::from_str` accepts, per its documented grammar
/// `Sign? ( 'inf' | 'infinity' | 'nan' | Number )`, case-insensitively.
pub open spec fn is_float_literal(s: Seq<char>) -> bool {
    let body = if s.len() > 0 && is_sign(s[0]) {
        s.skip(1)
    } else {
        s
    };
    ||| eq_ignore_case(body, special_word(0))
    ||| eq_ignore_case(body, special_word(1))
    ||| eq_ignore_case(body, special_word(2))
    ||| is_number_literal(body)
}

/// The body of a float literal, without its leading sign.
pub open spec fn unsigned_part(s: Seq<char>) -> Seq<char> {
    if s.len() > 0 && is_sign(s[0]) {
        s.skip(1)
    } else {
        s
    }
}

/// A float literal that denotes NaN (`nan`, `-NaN`, ...): no probability.
pub open spec fn is_nan_literal(s: Seq<char>) -> bool {
    eq_ignore_case(unsigned_part(s), special_word(2))
}

/// `s` without its trailing `%` characters.
pub open spec fn trim_end_percent(s: Seq<char>) -> Seq<char>
    decreases s.len(),
{
    if s.len() > 0 && s.last() == '%' {
        trim_end_percent(s.drop_last())
    } else {
        s
    }
}

/// The text of a percentage string once surrounding whitespace and
/// trailing `%` signs are removed (`" 55% "` gives `"55"`).
pub open spec fn percent_body(s: Seq<char>) -> Seq<char> {
    trim(trim_end_percent(trim(s)))
}

fn is_digit(c: char) -> (b: bool)
    ensures
        b == is_digit_char(c),
{
    '0' <= c && c <= '9'
}

fn digits_end_exec(cs: &Vec<char>, lo: usize, hi: usize, i: usize) -> (e: usize)
    requires
        lo <= i <= hi <= cs@.len(),
    ensures
        i <= e <= hi,
        e == digits_end(cs@.subrange(lo as int, hi as int), i - lo) + lo,
{
    let ghost s = cs@.subrange(lo as int, hi as int);
    let mut e = i;
    while e < hi && is_digit(cs[e])
        invariant
            i <= e <= hi <= cs@.len(),
            lo <= i,
            s == cs@.subrange(lo as int, hi as int),
            digits_end(s, i - lo) == digits_end(s, e - lo),
        decreases hi - e,
    {
        e = e + 1;
    }
    e
}

fn lower_eq(c: char, w: char) -> (b: bool)
    ensures
        b == (lower_char(c) == w),
{
    if 'A' <= c && c <= 'Z' {
        ((c as u32) + 32) == (w as u32)
    } else {
        c == w
    }
}

fn eq_ignore_case_exec(cs: &Vec<char>, lo: usize, hi: usize, w: &Vec<char>) -> (b: bool)
    requires
        lo <= hi <= cs@.len(),
    ensures
        b == eq_ignore_case(cs@.subrange(lo as int, hi as int), w@),
{
    let ghost s = cs@.subrange(lo as int, hi as int);
    if hi - lo != w.len() {
        return false;
    }
    let mut j: usize = 0;
    while j < w.len()
        invariant
            j <= w@.len(),
            w@.len() == hi - lo,
            hi <= cs@.len(),
            s == cs@.subrange(lo as int, hi as int),
            forall|m: int| 0 <= m < j ==> lower_char(#[trigger] s[m]) == w@[m],
        decreases w@.len() - j,
    {
        if !lower_eq(cs[lo + j], w[j]) {
            proof {
                assert(s[j as int] == cs@[lo + j]);
            }
            return false;
        }
        j = j + 1;
    }
    true
}

fn special_word_exec(n: usize) -> (w: Vec<char>)
    requires
        n < 3,
    ensures
        w@ == special_word(n as int),
{
    let w = if n == 0 {
        vec!['i', 'n', 'f']
    } else if n == 1 {
        vec!['i', 'n', 'f', 'i', 'n', 'i', 't', 'y']
    } else {
        vec!['n', 'a', 'n']
    };
    proof {
        assert(w@ =~= special_word(n as int));
    }
    w
}

fn number_literal_exec(cs: &Vec<char>, lo: usize, hi: usize) -> (b: bool)
    requires
        lo <= hi <= cs@.len(),
    ensures
        b == is_number_literal(cs@.subrange(lo as int, hi as int)),
{
    let ghost s = cs@.subrange(lo as int, hi as int);
    let a = digits_end_exec(cs, lo, hi, lo);
    let has_dot = a < hi && cs[a] == '.';
    let b = if has_dot {
        digits_end_exec(cs, lo, hi, a + 1)
    } else {
        a
    };
    let mantissa = a > lo || (has_dot && b > a + 1);
    let exponent = if b == hi {
        true
    } else if cs[b] == 'e' || cs[b] == 'E' {
        let c = if b + 1 < hi && (cs[b + 1] == '+' || cs[b + 1] == '-') {
            b + 2
        } else {
            b + 1
        };
        let d = digits_end_exec(cs, lo, hi, c);
        d > c && d == hi
    } else {
        false
    };
    mantissa && exponent
}

/// Whether `cs[lo..hi]` is a float literal that `f64::from_str` accepts.
fn float_literal_exec(cs: &Vec<char>, lo: usize, hi: usize) -> (b: bool)
    requires
        lo <= hi <= cs@.len(),
    ensures
        b == is_float_literal(cs@.subrange(lo as int, hi as int)),
{
    let ghost s = cs@.subrange(lo as int, hi as int);
    let start = if lo < hi && (cs[lo] == '+' || cs[lo] == '-') {
        lo + 1
    } else {
        lo
    };
    let ghost body = if s.len() > 0 && is_sign(s[0]) {
        s.skip(1)
    } else {
        s
    };
    proof {
        assert(body =~= cs@.subrange(start as int, hi as int));
    }
    let mut n: usize = 0;
    while n < 3
        invariant
            n <= 3,
            lo <= start <= hi <= cs@.len(),
            s == cs@.subrange(lo as int, hi as int),
            body == (if s.len() > 0 && is_sign(s[0]) {
                s.skip(1)
            } else {
                s
            }),
            body == cs@.subrange(start as int, hi as int),
            forall|m: int|
                0 <= m < n ==> !eq_ignore_case(
                    cs@.subrange(start as int, hi as int),
                    #[trigger] special_word(m),
                ),
        decreases 3 - n,
    {
        let w = special_word_exec(n);
        if eq_ignore_case_exec(cs, start, hi, &w) {
            return true;
        }
        n = n + 1;
    }
    number_literal_exec(cs, start, hi)
}

/// Whether `s` is a float literal that `f64::from_str` accepts.
pub fn is_float_str(s: &str) -> (b: bool)
    ensures
        b == is_float_literal(s@),
{
    let cs = chars_of(s);
    proof {
        assert(cs@.subrange(0, cs@.len() as int) =~= cs@);
    }
    float_literal_exec(&cs, 0, cs.len())
}

fn skip_percent_backward(cs: &Vec<char>, lo: usize, hi: usize) -> (j: usize)
    requires
        lo <= hi <= cs@.len(),
    ensures
        lo <= j <= hi,
        trim_end_percent(cs@.subrange(lo as int, hi as int)) == cs@.subrange(lo as int, j as int),
{
    let mut j = hi;
    while j > lo && cs[j - 1] == '%'
        invariant
            lo <= j <= hi <= cs@.len(),
            trim_end_percent(cs@.subrange(lo as int, hi as int)) == trim_end_percent(
                cs@.subrange(lo as int, j as int),
            ),
        decreases j - lo,
    {
        proof {
            assert(cs@.subrange(lo as int, j as int).drop_last() =~= cs@.subrange(
                lo as int,
                j - 1,
            ));
        }
        j = j - 1;
    }
    j
}

/// The number text of a percentage string (surrounding whitespace and
/// trailing `%` removed), when it is a float literal that `f64::from_str`
/// accepts; `None` otherwise.
pub fn percent_literal(s: &str) -> (r: Option<&str>)
    ensures
        r is Some <==> is_float_literal(percent_body(s@)),
        r matches Some(t) ==> t@ == percent_body(s@),
{
    let cs = chars_of(s);
    let n = cs.len();
    let (a, b) = trim_bounds(&cs, 0, n);
    proof {
        assert(cs@.subrange(0, n as int) =~= cs@);
    }
    let p = skip_percent_backward(&cs, a, b);
    let (c, d) = trim_bounds(&cs, a, p);
    if float_literal_exec(&cs, c, d) {
        Some(s.substring_char(c, d))
    } else {
        None
    }
}

/// Whether `s` spells NaN (with an optional sign, in any case).
pub fn is_nan_str(s: &str) -> (b: bool)
    ensures
        b == is_nan_literal(s@),
{
    let cs = chars_of(s);
    let n = cs.len();
    let start = if n > 0 && (cs[0] == '+' || cs[0] == '-') {
        1
    } else {
        0
    };
    proof {
        assert(unsigned_part(s@) =~= cs@.subrange(start as int, n as int));
    }
    let w = special_word_exec(2);
    eq_ignore_case_exec(&cs, start, n, &w)
}

/// The number text of a percentage string, when it is a float literal that
/// denotes a number (not NaN); `None` otherwise.
pub fn percent_probability(s: &str) -> (r: Option<&str>)
    ensures
        r is Some <==> (is_float_literal(percent_body(s@)) && !is_nan_literal(percent_body(s@))),
        r matches Some(t) ==> t@ == percent_body(s@),
{
    match percent_literal(s) {
        Some(t) => if is_nan_str(t) {
            None
        } else {
            Some(t)
        },
        None => None,
    }
}

/// The character of a decimal digit.
pub open spec fn digit_char(d: nat) -> char {
    ((d + 48) as u32) as char
}

/// Decimal rendering of a natural number, without leading zeros.
pub open spec fn spec_decimal(n: nat) -> Seq<char>
    decreases n,
{
    if n < 10 {
        seq![digit_char(n)]
    } else {
        spec_decimal(n / 10).push(digit_char(n % 10))
    }
}

fn decimal_chars(n: u64) -> (cs: Vec<char>)
    ensures
        cs@ == spec_decimal(n as nat),
    decreases n,
{
    if n < 10 {
        let c = ((n as u8) + 48) as char;
        assert(c == digit_char(n as nat));
        vec![c]
    } else {
        let mut cs = decimal_chars(n / 10);
        let d = n % 10;
        let c = ((d as u8) + 48) as char;
        assert(c == digit_char(d as nat));
        cs.push(c);
        cs
    }
}

/// Decimal rendering of `n`.
pub fn decimal_string(n: u64) -> (s: String)
    ensures
        s@ == spec_decimal(n as nat),
{
    let cs = decimal_chars(n);
    string_from_chars(cs.as_slice())
}

/// `s` is a plain decimal: ASCII digits `0`-`9` and at most one `.`, with
/// at least one digit.
pub open spec fn is_plain_decimal(s: Seq<char>) -> bool {
    &&& forall|j: int| 0 <= j < s.len() ==> ('0' <= #[trigger] s[j] <= '9' || s[j] == '.')
    &&& forall|j: int, k: int|
        0 <= j < k < s.len() && #[trigger] s[j] == '.' ==> #[trigger] s[k] != '.'
    &&& exists|j: int| 0 <= j < s.len() && '0' <= #[trigger] s[j] <= '9'
}

proof fn lemma_digits_end_at(s: Seq<char>, i: int, e: int)
    requires
        0 <= i <= e <= s.len(),
        forall|m: int| i <= m < e ==> '0' <= #[trigger] s[m] <= '9',
        e == s.len() || !('0' <= s[e] <= '9'),
    ensures
        digits_end(s, i) == e,
    decreases e - i,
{
    if i < e {
        lemma_digits_end_at(s, i + 1, e);
    }
}

/// Every plain decimal (`95`, `0.9`, `19.5`, `5.`, `.5`) is a float literal
/// that `f64::from_str` accepts, and it is not NaN.
pub proof fn lemma_plain_decimal_is_literal(s: Seq<char>)
    requires
        is_plain_decimal(s),
    ensures
        is_float_literal(s),
        !is_nan_literal(s),
{
    let w = choose|j: int| 0 <= j < s.len() && '0' <= #[trigger] s[j] <= '9';
    assert(!is_sign(s[0]));
    assert(unsigned_part(s) == s);
    if exists|k: int| 0 <= k < s.len() && s[k] == '.' {
        let k = choose|k: int| 0 <= k < s.len() && s[k] == '.';
        assert forall|m: int| 0 <= m < k implies '0' <= #[trigger] s[m] <= '9' by {
            if s[m] == '.' {
                assert(s[k] != '.');
            }
        }
        lemma_digits_end_at(s, 0, k);
        assert forall|m: int| k + 1 <= m < s.len() implies '0' <= #[trigger] s[m] <= '9' by {
            assert(s[m] != '.');
        }
        lemma_digits_end_at(s, k + 1, s.len() as int);
        assert(is_number_literal(s));
    } else {
        lemma_digits_end_at(s, 0, s.len() as int);
        assert(is_number_literal(s));
    }
    if eq_ignore_case(s, special_word(2)) {
        assert(lower_char(s[0]) == 'n');
    }
}

/// A plain decimal followed by `%` is read as that decimal: the percentage
/// string `"95%"` gives the number text `"95"`.
pub proof fn lemma_percent_of_plain_decimal(d: Seq<char>)
    requires
        is_plain_decimal(d),
    ensures
        percent_body(d.push('%')) == d,
        is_float_literal(percent_body(d.push('%'))),
        !is_nan_literal(percent_body(d.push('%'))),
{
    let s = d.push('%');
    assert(!is_ws(s[0]));
    assert(trim_start(s) == s);
    assert(trim_end(s) == s);
    assert(s.drop_last() =~= d);
    assert(!(d.last() == '%'));
    assert(trim_end_percent(d) == d);
    assert(trim_end_percent(s) == d);
    assert(!is_ws(d[0]));
    assert(!is_ws(d.last()));
    assert(trim_start(d) == d);
    assert(trim_end(d) == d);
    lemma_plain_decimal_is_literal(d);
}

} // verus!
