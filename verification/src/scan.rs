//! Last-resort probability extraction: finds an `NN%` figure in free text
//! that stands near a word about probability, so that percentages such as
//! interest rates are not read as forecasts.

use vstd::prelude::*;
use vstd::string::StringSliceAdditionalSpecFns;

verus! {

/// ASCII digit.
pub open spec fn is_digit_byte(x: u8) -> bool {
    48 <= x <= 57
}

/// ASCII digit or `.`.
pub open spec fn is_number_byte(x: u8) -> bool {
    is_digit_byte(x) || x == 46
}

/// ASCII lowercase of one byte (other bytes unchanged).
pub open spec fn lower_byte(x: u8) -> u8 {
    if 65 <= x <= 90 {
        (x + 32) as u8
    } else {
        x
    }
}

/// Start of the run of digits and dots that ends just before index `k`.
pub open spec fn run_start(b: Seq<u8>, k: int) -> int
    decreases k,
{
    if 0 < k <= b.len() && is_number_byte(b[k - 1]) {
        run_start(b, k - 1)
    } else {
        k
    }
}

/// Number of `.` bytes in `s`.
pub open spec fn dot_count(s: Seq<u8>) -> nat
    decreases s.len(),
{
    if s.len() == 0 {
        0
    } else {
        dot_count(s.drop_last()) + if s.last() == 46 {
            1nat
        } else {
            0nat
        }
    }
}

/// A run of digits and dots is a valid decimal float literal (`5`, `5.`,
/// `.5`, `5.25`): at most one dot and at least one digit.
pub open spec fn is_decimal_literal(s: Seq<u8>) -> bool {
    &&& dot_count(s) <= 1
    &&& exists|j: int| 0 <= j < s.len() && is_digit_byte(#[trigger] s[j])
}

/// Index of the first `.` in `s`, or its length.
pub open spec fn dot_index(s: Seq<u8>) -> int
    decreases s.len(),
{
    if s.len() == 0 {
        0
    } else if s[0] == 46 {
        0
    } else {
        1 + dot_index(s.drop_first())
    }
}

/// Value of a string of ASCII digits.
pub open spec fn digits_value(s: Seq<u8>) -> nat
    decreases s.len(),
{
    if s.len() == 0 {
        0
    } else {
        digits_value(s.drop_last()) * 10 + (s.last() - 48) as nat
    }
}

/// A decimal literal of digits and at most one dot denotes a value of at
/// most 100.
pub open spec fn at_most_hundred(s: Seq<u8>) -> bool {
    let d = dot_index(s);
    let whole = digits_value(s.take(d));
    whole < 100 || (whole == 100 && forall|m: int| d < m < s.len() ==> #[trigger] s[m] == 48)
}

/// The words whose nearness marks a percentage as a probability.
pub open spec fn keyword(n: int) -> Seq<u8> {
    if n == 0 {
        seq![112u8, 114, 111, 98, 97, 98]  // "probab"

    } else if n == 1 {
        seq![99u8, 104, 97, 110, 99, 101]  // "chance"

    } else if n == 2 {
        seq![108u8, 105, 107, 101, 108, 105, 104, 111, 111, 100]  // "likelihood"

    } else {
        seq![111u8, 100, 100, 115]  // "odds"

    }
}

/// `w` occurs at `k` in the ASCII-lowercased `b`.
pub open spec fn occurs_at(b: Seq<u8>, k: int, w: Seq<u8>) -> bool {
    &&& 0 <= k
    &&& k + w.len() <= b.len()
    &&& forall|j: int| 0 <= j < w.len() ==> lower_byte(#[trigger] b[k + j]) == w[j]
}

/// The lowercased window `b[lo..hi]` contains `w`.
pub open spec fn window_contains(b: Seq<u8>, lo: int, hi: int, w: Seq<u8>) -> bool {
    exists|k: int| lo <= k && k + w.len() <= hi && #[trigger] occurs_at(b, k, w)
}

/// The window of 80 bytes on each side of `i` mentions a probability word.
/// The window is taken on bytes: the words are ASCII, so a multi-byte
/// character cut at either edge can neither make nor break a match.
pub open spec fn near_probability_word(b: Seq<u8>, i: int) -> bool {
    let lo = if i >= 80 {
        i - 80
    } else {
        0
    };
    let hi = if i + 80 <= b.len() {
        i + 80
    } else {
        b.len() as int
    };
    exists|n: int| 0 <= n < 4 && window_contains(b, lo, hi, #[trigger] keyword(n))
}

/// How a scan for a probability percentage ends.
#[derive(Debug, Clone, Copy, PartialEq, Eq)]
pub enum ScanOutcome {
    /// The number `b[start..end]` followed by `%` at `end`.
    Found(usize, usize),
    /// No percentage qualifies.
    NotFound,
}

/// `%` at `i` with a run of one to six digits and dots before it that forms a
/// float literal.
pub open spec fn parsable_percent_at(b: Seq<u8>, i: int) -> bool {
    let s = run_start(b, i);
    &&& 0 <= i < b.len()
    &&& b[i] == 37
    &&& s != i
    &&& i - s <= 6
    &&& is_decimal_literal(b.subrange(s, i))
}

/// The scan from position `i` onwards, percentage by percentage.
pub open spec fn scan_from(b: Seq<u8>, i: int) -> ScanOutcome
    decreases b.len() - i,
{
    if i < 0 || i >= b.len() {
        ScanOutcome::NotFound
    } else if !parsable_percent_at(b, i) {
        scan_from(b, i + 1)
    } else if near_probability_word(b, i) && at_most_hundred(b.subrange(run_start(b, i), i)) {
        ScanOutcome::Found(run_start(b, i) as usize, i as usize)
    } else {
        scan_from(b, i + 1)
    }
}

/// The scan of a whole text, given as its UTF-8 bytes.
pub open spec fn spec_scan(b: Seq<u8>) -> ScanOutcome {
    scan_from(b, 0)
}

/// The characters of an ASCII byte string.
pub open spec fn ascii_chars(b: Seq<u8>) -> Seq<char> {
    b.map_values(|x: u8| x as char)
}

/// What the scan of `text` yields: the digits of the first qualifying
/// percentage, or nothing.
pub open spec fn spec_extract_probability(text: Seq<u8>) -> Option<Seq<char>> {
    match spec_scan(text) {
        ScanOutcome::Found(s, e) => Some(ascii_chars(text.subrange(s as int, e as int))),
        _ => None,
    }
}

proof fn lemma_run_start_bounds(b: Seq<u8>, k: int)
    requires
        0 <= k <= b.len(),
    ensures
        0 <= run_start(b, k) <= k,
    decreases k,
{
    if 0 < k && is_number_byte(b[k - 1]) {
        lemma_run_start_bounds(b, k - 1);
    }
}

/// A found percentage lies inside the text, its number before its `%`.
pub proof fn lemma_scan_found_bounds(b: Seq<u8>, i: int)
    requires
        b.len() <= usize::MAX,
    ensures
        scan_from(b, i) matches ScanOutcome::Found(s, e) ==> s <= e < b.len() && b[e as int] == 37,
    decreases b.len() - i,
{
    if 0 <= i < b.len() {
        lemma_run_start_bounds(b, i);
        lemma_scan_found_bounds(b, i + 1);
    }
}

/// Powers of ten.
pub open spec fn pow10(n: nat) -> nat
    decreases n,
{
    if n == 0 {
        1
    } else {
        10 * pow10((n - 1) as nat)
    }
}

proof fn lemma_pow10_le_million(n: nat)
    requires
        n <= 6,
    ensures
        1 <= pow10(n) <= 1000000,
{
    reveal_with_fuel(pow10, 7);
}

proof fn lemma_dot_index(s: Seq<u8>, k: int)
    requires
        0 <= k <= s.len(),
        forall|m: int| 0 <= m < k ==> s[m] != 46,
        k == s.len() || s[k] == 46,
    ensures
        dot_index(s) == k,
    decreases s.len(),
{
    if s.len() > 0 && s[0] != 46 {
        lemma_dot_index(s.drop_first(), k - 1);
    }
}

fn is_digit(x: u8) -> (r: bool)
    ensures
        r == is_digit_byte(x),
{
    48 <= x && x <= 57
}

fn is_number(x: u8) -> (r: bool)
    ensures
        r == is_number_byte(x),
{
    (48 <= x && x <= 57) || x == 46
}

fn lower(x: u8) -> (r: u8)
    ensures
        r == lower_byte(x),
{
    if 65 <= x && x <= 90 {
        x + 32
    } else {
        x
    }
}

/// Start of the run of digits and dots that ends before `k`.
fn number_run_start(b: &[u8], k: usize) -> (s: usize)
    requires
        k <= b@.len(),
    ensures
        s == run_start(b@, k as int),
        s <= k,
        forall|m: int| s <= m < k ==> is_number_byte(#[trigger] b@[m]),
{
    let mut s = k;
    while s > 0 && is_number(b[s - 1])
        invariant
            s <= k <= b@.len(),
            run_start(b@, k as int) == run_start(b@, s as int),
            forall|m: int| s <= m < k ==> is_number_byte(#[trigger] b@[m]),
        decreases s,
    {
        s = s - 1;
    }
    s
}

/// Whether `b[lo..hi]` (digits and dots) is a float literal.
fn decimal_literal(b: &[u8], lo: usize, hi: usize) -> (r: bool)
    requires
        lo <= hi <= b@.len(),
    ensures
        r == is_decimal_literal(b@.subrange(lo as int, hi as int)),
{
    let mut dots: usize = 0;
    let mut digit = false;
    let mut j = lo;
    while j < hi
        invariant
            lo <= j <= hi <= b@.len(),
            dots == dot_count(b@.subrange(lo as int, j as int)),
            dots <= j - lo,
            digit == exists|m: int| lo <= m < j && is_digit_byte(#[trigger] b@[m]),
        decreases hi - j,
    {
        proof {
            assert(b@.subrange(lo as int, j + 1).drop_last() =~= b@.subrange(lo as int, j as int));
        }
        if b[j] == 46 {
            dots = dots + 1;
        }
        if is_digit(b[j]) {
            digit = true;
        }
        j = j + 1;
    }
    let ghost t = b@.subrange(lo as int, hi as int);
    proof {
        if digit {
            let m = choose|m: int| lo <= m < hi && is_digit_byte(#[trigger] b@[m]);
            assert(t[m - lo] == b@[m]);
        }
        if exists|j: int| 0 <= j < t.len() && is_digit_byte(#[trigger] t[j]) {
            let jj = choose|j: int| 0 <= j < t.len() && is_digit_byte(#[trigger] t[j]);
            assert(b@[lo + jj] == t[jj]);
        }
    }
    dots <= 1 && digit
}

/// Whether the literal `b[lo..hi]` (digits, at most one dot, length at most
/// six) denotes a value of at most 100.
fn literal_at_most_hundred(b: &[u8], lo: usize, hi: usize) -> (r: bool)
    requires
        lo <= hi <= b@.len(),
        hi - lo <= 6,
        forall|m: int| lo <= m < hi ==> is_number_byte(#[trigger] b@[m]),
    ensures
        r == at_most_hundred(b@.subrange(lo as int, hi as int)),
{
    let ghost t = b@.subrange(lo as int, hi as int);
    let mut j = lo;
    let mut whole: u64 = 0;
    while j < hi && b[j] != 46
        invariant
            lo <= j <= hi <= b@.len(),
            hi - lo <= 6,
            forall|m: int| lo <= m < hi ==> is_number_byte(#[trigger] b@[m]),
            forall|m: int| lo <= m < j ==> b@[m] != 46,
            t == b@.subrange(lo as int, hi as int),
            whole == digits_value(t.take(j - lo)),
            whole < pow10((j - lo) as nat),
        decreases hi - j,
    {
        proof {
            lemma_pow10_le_million((j - lo) as nat);
            assert(t.take(j + 1 - lo).drop_last() =~= t.take(j - lo));
            assert(t.take(j + 1 - lo).last() == b@[j as int]);
        }
        whole = whole * 10 + (b[j] - 48) as u64;
        j = j + 1;
    }
    proof {
        lemma_dot_index(t, j - lo);
    }
    if whole < 100 {
        return true;
    }
    if whole > 100 {
        return false;
    }
    if j == hi {
        return true;
    }
    let mut k = j + 1;
    while k < hi
        invariant
            lo <= j < hi,
            j + 1 <= k <= hi <= b@.len(),
            t == b@.subrange(lo as int, hi as int),
            whole == 100,
            whole == digits_value(t.take(j - lo)),
            dot_index(t) == j - lo,
            forall|m: int| j + 1 <= m < k ==> b@[m] == 48,
        decreases hi - k,
    {
        if b[k] != 48 {
            proof {
                assert(t[k - lo] == b@[k as int]);
            }
            return false;
        }
        k = k + 1;
    }
    proof {
        assert forall|m: int| j - lo < m < t.len() implies #[trigger] t[m] == 48 by {
            assert(t[m] == b@[lo + m]);
        }
    }
    true
}

/// Whether the lowercased `b[lo..hi]` contains `w`.
fn window_has(b: &[u8], lo: usize, hi: usize, w: &Vec<u8>) -> (r: bool)
    requires
        lo <= hi <= b@.len(),
    ensures
        r == window_contains(b@, lo as int, hi as int, w@),
{
    let wl = w.len();
    if wl > hi - lo {
        return false;
    }
    let mut k = lo;
    while k <= hi - wl
        invariant
            lo <= k,
            wl == w@.len(),
            wl <= hi - lo,
            hi <= b@.len(),
            forall|k2: int| lo <= k2 < k ==> !occurs_at(b@, k2, w@),
        decreases hi - k,
    {
        let mut j: usize = 0;
        let mut ok = true;
        while j < wl
            invariant
                j <= wl,
                wl == w@.len(),
                k + wl <= hi <= b@.len(),
                ok == forall|m: int| 0 <= m < j ==> lower_byte(#[trigger] b@[k + m]) == w@[m],
            decreases wl - j,
        {
            if lower(b[k + j]) != w[j] {
                ok = false;
            }
            j = j + 1;
        }
        if ok {
            proof {
                assert(occurs_at(b@, k as int, w@));
            }
            return true;
        }
        k = k + 1;
    }
    proof {
        assert forall|k2: int| lo <= k2 && k2 + w@.len() <= hi implies !#[trigger] occurs_at(
            b@,
            k2,
            w@,
        ) by {}
    }
    false
}

/// The probability words as byte strings.
fn keyword_bytes(n: usize) -> (w: Vec<u8>)
    requires
        n < 4,
    ensures
        w@ == keyword(n as int),
{
    let w: Vec<u8> = if n == 0 {
        vec![112, 114, 111, 98, 97, 98]
    } else if n == 1 {
        vec![99, 104, 97, 110, 99, 101]
    } else if n == 2 {
        vec![108, 105, 107, 101, 108, 105, 104, 111, 111, 100]
    } else {
        vec![111, 100, 100, 115]
    };
    proof {
        assert(w@ =~= keyword(n as int));
    }
    w
}

/// Whether a probability word occurs within 80 bytes of `i`.
fn near_word(b: &[u8], i: usize) -> (r: bool)
    requires
        i < b@.len(),
    ensures
        r == near_probability_word(b@, i as int),
{
    let lo = if i >= 80 {
        i - 80
    } else {
        0
    };
    let hi = if b.len() >= 80 && i <= b.len() - 80 {
        i + 80
    } else {
        b.len()
    };
    let mut n: usize = 0;
    while n < 4
        invariant
            n <= 4,
            i < b@.len(),
            lo == (if i >= 80 { i - 80 } else { 0 }),
            hi == (if i + 80 <= b@.len() { i + 80 } else { b@.len() as int }),
            forall|n2: int| 0 <= n2 < n ==> !window_contains(b@, lo as int, hi as int, #[trigger] keyword(n2)),
        decreases 4 - n,
    {
        let w = keyword_bytes(n);
        if window_has(b, lo, hi, &w) {
            return true;
        }
        n = n + 1;
    }
    false
}

/// Scans `text` for the first `NN%` that is a float literal of at most
/// 100, written with at most six digits and dots and within 80 bytes of a
/// probability word.
pub fn scan_percent(text: &str) -> (r: ScanOutcome)
    ensures
        r == spec_scan(text.spec_bytes()),
{
    let b = text.as_bytes();
    let n = b.len();
    let mut i: usize = 0;
    while i < n
        invariant
            n == b@.len(),
            b@ == text.spec_bytes(),
            i <= n,
            spec_scan(b@) == scan_from(b@, i as int),
        decreases n - i,
    {
        if b[i] == 37 {
            let st = number_run_start(b, i);
            if st != i && i - st <= 6 && decimal_literal(b, st, i) {
                proof {
                    assert(parsable_percent_at(b@, i as int));
                }
                if near_word(b, i) && literal_at_most_hundred(b, st, i) {
                    proof {
                        assert(scan_from(b@, i as int) == ScanOutcome::Found(st, i));
                    }
                    return ScanOutcome::Found(st, i);
                }
            }
        }
        i = i + 1;
    }
    ScanOutcome::NotFound
}

/// The digits of the first qualifying percentage of `text`, if any.
pub fn extract_probability_from_text(text: &str) -> (r: Option<String>)
    ensures
        r is None <==> spec_extract_probability(text.spec_bytes()) is None,
        r matches Some(s) ==> spec_extract_probability(text.spec_bytes()) == Some(s@),
{
    let b = text.as_bytes();
    if b.len() == 0 {
        return None;
    }
    proof {
        lemma_scan_found_bounds(b@, 0);
    }
    match scan_percent(text) {
        ScanOutcome::Found(s, e) => Some(ascii_string(text.as_bytes(), s, e)),
        _ => None,
    }
}

/// The string of the ASCII bytes `b[lo..hi]`.
fn ascii_string(b: &[u8], lo: usize, hi: usize) -> (s: String)
    requires
        lo <= hi <= b@.len(),
    ensures
        s@ == ascii_chars(b@.subrange(lo as int, hi as int)),
{
    let mut cs: Vec<char> = Vec::new();
    let mut k = lo;
    while k < hi
        invariant
            lo <= k <= hi <= b@.len(),
            cs@ == ascii_chars(b@.subrange(lo as int, k as int)),
        decreases hi - k,
    {
        cs.push(b[k] as char);
        proof {
            assert(cs@ =~= ascii_chars(b@.subrange(lo as int, k + 1)));
        }
        k = k + 1;
    }
    crate::text::string_from_chars(cs.as_slice())
}

proof fn lemma_scan_from_needs_word(b: Seq<u8>, i: int)
    requires
        forall|n: int, k: int| 0 <= n < 4 ==> !#[trigger] occurs_at(b, k, keyword(n)),
    ensures
        !(scan_from(b, i) is Found),
    decreases b.len() - i,
{
    if 0 <= i < b.len() {
        if near_probability_word(b, i) {
            let n = choose|n: int|
                0 <= n < 4 && window_contains(
                    b,
                    if i >= 80 {
                        i - 80
                    } else {
                        0
                    },
                    if i + 80 <= b.len() {
                        i + 80
                    } else {
                        b.len() as int
                    },
                    #[trigger] keyword(n),
                );
            let lo = if i >= 80 {
                i - 80
            } else {
                0
            };
            let hi = if i + 80 <= b.len() {
                i + 80
            } else {
                b.len() as int
            };
            let k = choose|k: int| lo <= k && k + keyword(n).len() <= hi && #[trigger] occurs_at(b, k, keyword(n));
            assert(!occurs_at(b, k, keyword(n)));
        }
        lemma_scan_from_needs_word(b, i + 1);
    }
}

/// Percentages are read as probabilities only near a probability word:
/// in a text where none of "probab", "chance", "likelihood" and "odds"
/// occurs (in any case), such as one quoting an interest rate, the scan
/// finds nothing.
pub proof fn lemma_scan_needs_probability_word(b: Seq<u8>)
    requires
        forall|n: int, k: int| 0 <= n < 4 ==> !#[trigger] occurs_at(b, k, keyword(n)),
    ensures
        spec_extract_probability(b) is None,
{
    lemma_scan_from_needs_word(b, 0);
}

proof fn lemma_scan_from_found(b: Seq<u8>, i: int)
    requires
        b.len() <= usize::MAX,
    ensures
        scan_from(b, i) matches ScanOutcome::Found(s, e) ==> {
            &&& b[e as int] == 37
            &&& s as int == run_start(b, e as int)
            &&& e - s <= 6
            &&& is_decimal_literal(b.subrange(s as int, e as int))
            &&& near_probability_word(b, e as int)
            &&& at_most_hundred(b.subrange(s as int, e as int))
        },
    decreases b.len() - i,
{
    if 0 <= i < b.len() {
        lemma_run_start_bounds(b, i);
        lemma_scan_from_found(b, i + 1);
    }
}

/// What the scan finds is a float literal of one to six digits and dots,
/// directly before a `%`, of value at most 100, with a probability word
/// within 80 bytes.
pub proof fn lemma_scan_found_qualifies(b: Seq<u8>)
    requires
        b.len() <= usize::MAX,
    ensures
        spec_scan(b) matches ScanOutcome::Found(s, e) ==> {
            &&& b[e as int] == 37
            &&& s < e
            &&& e - s <= 6
            &&& is_decimal_literal(b.subrange(s as int, e as int))
            &&& near_probability_word(b, e as int)
            &&& at_most_hundred(b.subrange(s as int, e as int))
        },
{
    lemma_scan_from_found(b, 0);
    lemma_scan_found_bounds(b, 0);
    if let ScanOutcome::Found(s, e) = spec_scan(b) {
        assert(s != e) by {
            lemma_scan_from_found_distinct(b, 0);
        }
    }
}

proof fn lemma_scan_from_found_distinct(b: Seq<u8>, i: int)
    requires
        b.len() <= usize::MAX,
    ensures
        scan_from(b, i) matches ScanOutcome::Found(s, e) ==> s != e,
    decreases b.len() - i,
{
    if 0 <= i < b.len() {
        lemma_run_start_bounds(b, i);
        lemma_scan_from_found_distinct(b, i + 1);
    }
}

/// `%` at `i` qualifies as a probability: one to six digits and dots before
/// it forming a float literal of value at most 100, and a probability word
/// within 80 bytes.
pub open spec fn qualifying_percent(b: Seq<u8>, i: int) -> bool {
    &&& parsable_percent_at(b, i)
    &&& near_probability_word(b, i)
    &&& at_most_hundred(b.subrange(run_start(b, i), i))
}

proof fn lemma_scan_skips_to(b: Seq<u8>, j: int, i: int)
    requires
        0 <= j <= i < b.len(),
        forall|k: int| j <= k < i ==> !#[trigger] qualifying_percent(b, k),
    ensures
        scan_from(b, j) == scan_from(b, i),
    decreases i - j,
{
    if j < i {
        assert(!qualifying_percent(b, j));
        lemma_scan_skips_to(b, j + 1, i);
    }
}

/// The scan is complete: it finds the first qualifying percentage of the
/// text. A percentage that fails the word or value test (such as a rate far
/// from any probability word) never ends the scan; the scan goes on to the
/// next one.
pub proof fn lemma_scan_finds_first_qualifying(b: Seq<u8>, i: int)
    requires
        b.len() <= usize::MAX,
        0 <= i < b.len(),
        qualifying_percent(b, i),
        forall|k: int| 0 <= k < i ==> !#[trigger] qualifying_percent(b, k),
    ensures
        spec_scan(b) == ScanOutcome::Found(run_start(b, i) as usize, i as usize),
        spec_extract_probability(b) == Some(ascii_chars(b.subrange(run_start(b, i), i))),
{
    lemma_scan_skips_to(b, 0, i);
    lemma_run_start_bounds(b, i);
}

/// The scan finds nothing only when no percentage in the text qualifies.
pub proof fn lemma_scan_none_means_no_qualifying(b: Seq<u8>)
    requires
        b.len() <= usize::MAX,
        spec_scan(b) == ScanOutcome::NotFound,
    ensures
        forall|i: int| 0 <= i < b.len() ==> !#[trigger] qualifying_percent(b, i),
{
    assert forall|i: int| 0 <= i < b.len() implies !#[trigger] qualifying_percent(b, i) by {
        if qualifying_percent(b, i) {
            lemma_first_qualifying_exists(b, i);
        }
    }
}

proof fn lemma_first_qualifying_exists(b: Seq<u8>, i: int)
    requires
        b.len() <= usize::MAX,
        0 <= i < b.len(),
        qualifying_percent(b, i),
    ensures
        spec_scan(b) is Found,
    decreases i,
{
    if exists|k: int| 0 <= k < i && #[trigger] qualifying_percent(b, k) {
        let k = choose|k: int| 0 <= k < i && #[trigger] qualifying_percent(b, k);
        lemma_first_qualifying_exists(b, k);
    } else {
        lemma_scan_finds_first_qualifying(b, i);
    }
}

} // verus!
