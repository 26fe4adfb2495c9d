//! Character-level text utilities: Unicode whitespace trimming, truncation
//! with an ellipsis, and removal of Markdown code fences around a reply.

use vstd::prelude::*;

verus! {

broadcast use vstd::string::group_string_axioms;

/// The Unicode `White_Space` property, the set that `char::is_whitespace`
/// and `str::trim` use.
pub open spec fn is_ws(c: char) -> bool {
    let u = c as u32;
    ||| 0x09 <= u <= 0x0d
    ||| u == 0x20
    ||| u == 0x85
    ||| u == 0xa0
    ||| u == 0x1680
    ||| 0x2000 <= u <= 0x200a
    ||| u == 0x2028
    ||| u == 0x2029
    ||| u == 0x202f
    ||| u == 0x205f
    ||| u == 0x3000
}

/// Whether `c` has the Unicode `White_Space` property.
pub fn is_whitespace(c: char) -> (b: bool)
    ensures
        b == is_ws(c),
{
    let u = c as u32;
    (0x09 <= u && u <= 0x0d) || u == 0x20 || u == 0x85 || u == 0xa0 || u == 0x1680 || (0x2000
        <= u && u <= 0x200a) || u == 0x2028 || u == 0x2029 || u == 0x202f || u == 0x205f || u
        == 0x3000
}

/// ASCII letters and digits.
pub open spec fn is_alnum(c: char) -> bool {
    let u = c as u32;
    ||| 0x30 <= u <= 0x39
    ||| 0x41 <= u <= 0x5a
    ||| 0x61 <= u <= 0x7a
}

/// Whether `c` is an ASCII letter or digit.
pub fn is_ascii_alphanumeric(c: char) -> (b: bool)
    ensures
        b == is_alnum(c),
{
    let u = c as u32;
    (0x30 <= u && u <= 0x39) || (0x41 <= u && u <= 0x5a) || (0x61 <= u && u <= 0x7a)
}

/// `s` without its leading whitespace.
pub open spec fn trim_start(s: Seq<char>) -> Seq<char>
    decreases s.len(),
{
    if s.len() > 0 && is_ws(s[0]) {
        trim_start(s.drop_first())
    } else {
        s
    }
}

/// `s` without its trailing whitespace.
pub open spec fn trim_end(s: Seq<char>) -> Seq<char>
    decreases s.len(),
{
    if s.len() > 0 && is_ws(s.last()) {
        trim_end(s.drop_last())
    } else {
        s
    }
}

/// `s` without leading and trailing whitespace (what `str::trim` returns).
pub open spec fn trim(s: Seq<char>) -> Seq<char> {
    trim_end(trim_start(s))
}

/// `s` without its leading ASCII letters and digits.
pub open spec fn skip_alnum(s: Seq<char>) -> Seq<char>
    decreases s.len(),
{
    if s.len() > 0 && is_alnum(s[0]) {
        skip_alnum(s.drop_first())
    } else {
        s
    }
}

/// The ellipsis appended to truncated text.
pub open spec fn ellipsis() -> char {
    '\u{2026}'
}

/// `s` cut to its first `max` characters, followed by an ellipsis when
/// something was cut.
pub open spec fn spec_truncate(s: Seq<char>, max: nat) -> Seq<char> {
    if s.len() <= max {
        s
    } else {
        s.take(max as int).push(ellipsis())
    }
}

/// The characters of `s`, in order.
pub fn chars_of(s: &str) -> (cs: Vec<char>)
    ensures
        cs@ == s@,
{
    let mut cs: Vec<char> = Vec::new();
    let mut it = s.chars();
    loop
        invariant
            cs@ + vstd::std_specs::iter::IteratorSpec::remaining(&it) == s@,
            vstd::std_specs::iter::IteratorSpec::decrease(&it) is Some,
        decreases vstd::std_specs::iter::IteratorSpec::decrease(&it)->0,
    {
        let ghost before = vstd::std_specs::iter::IteratorSpec::remaining(&it);
        match it.next() {
            Some(c) => {
                cs.push(c);
                proof {
                    assert(cs@ + vstd::std_specs::iter::IteratorSpec::remaining(&it) =~= s@);
                }
            },
            None => {
                proof {
                    assert(cs@ =~= s@);
                }
                return cs;
            },
        }
    }
}

/// `a` followed by `b`.
pub fn concat(a: &str, b: &str) -> (s: String)
    ensures
        s@ == a@ + b@,
{
    let mut s = a.to_owned();
    s.append(b);
    s
}

/// The string made of the characters `cs`, in order.
#[verifier::external_body]
pub fn string_from_chars(cs: &[char]) -> (s: String)
    ensures
        s@ == cs@,
{
    cs.iter().collect()
}

/// Index of the first non-whitespace character of `cs[lo..hi]` (or `hi`).
fn skip_ws_forward(cs: &Vec<char>, lo: usize, hi: usize) -> (i: usize)
    requires
        lo <= hi <= cs@.len(),
    ensures
        lo <= i <= hi,
        trim_start(cs@.subrange(lo as int, hi as int)) == cs@.subrange(i as int, hi as int),
{
    let mut i = lo;
    while i < hi && is_whitespace(cs[i])
        invariant
            lo <= i <= hi <= cs@.len(),
            trim_start(cs@.subrange(lo as int, hi as int)) == trim_start(
                cs@.subrange(i as int, hi as int),
            ),
        decreases hi - i,
    {
        proof {
            assert(cs@.subrange(i as int, hi as int).drop_first() =~= cs@.subrange(
                i + 1,
                hi as int,
            ));
        }
        i = i + 1;
    }
    i
}

/// End of `cs[lo..hi]` once its trailing whitespace is removed.
fn skip_ws_backward(cs: &Vec<char>, lo: usize, hi: usize) -> (j: usize)
    requires
        lo <= hi <= cs@.len(),
    ensures
        lo <= j <= hi,
        trim_end(cs@.subrange(lo as int, hi as int)) == cs@.subrange(lo as int, j as int),
{
    let mut j = hi;
    while j > lo && is_whitespace(cs[j - 1])
        invariant
            lo <= j <= hi <= cs@.len(),
            trim_end(cs@.subrange(lo as int, hi as int)) == trim_end(
                cs@.subrange(lo as int, j as int),
            ),
        decreases j - lo,
    {
        proof {
            assert(cs@.subrange(lo as int, j as int).drop_last() =~= cs@.subrange(
                lo as int,
                j - 1,
            ));
        }
        j = j - 1;
    }
    j
}

/// Index of the first character of `cs[lo..hi]` that is not an ASCII letter
/// or digit (or `hi`).
fn skip_alnum_forward(cs: &Vec<char>, lo: usize, hi: usize) -> (i: usize)
    requires
        lo <= hi <= cs@.len(),
    ensures
        lo <= i <= hi,
        skip_alnum(cs@.subrange(lo as int, hi as int)) == cs@.subrange(i as int, hi as int),
{
    let mut i = lo;
    while i < hi && is_ascii_alphanumeric(cs[i])
        invariant
            lo <= i <= hi <= cs@.len(),
            skip_alnum(cs@.subrange(lo as int, hi as int)) == skip_alnum(
                cs@.subrange(i as int, hi as int),
            ),
        decreases hi - i,
    {
        proof {
            assert(cs@.subrange(i as int, hi as int).drop_first() =~= cs@.subrange(
                i + 1,
                hi as int,
            ));
        }
        i = i + 1;
    }
    i
}

/// Bounds `(a, b)` of `trim(cs[lo..hi])` inside `cs`.
pub(crate) fn trim_bounds(cs: &Vec<char>, lo: usize, hi: usize) -> (r: (usize, usize))
    requires
        lo <= hi <= cs@.len(),
    ensures
        lo <= r.0 <= r.1 <= hi,
        trim(cs@.subrange(lo as int, hi as int)) == cs@.subrange(r.0 as int, r.1 as int),
{
    let a = skip_ws_forward(cs, lo, hi);
    let b = skip_ws_backward(cs, a, hi);
    (a, b)
}

/// `s` with leading and trailing Unicode whitespace removed.
pub fn trim_str(s: &str) -> (t: &str)
    ensures
        t@ == trim(s@),
{
    let cs = chars_of(s);
    let (a, b) = trim_bounds(&cs, 0, cs.len());
    proof {
        assert(cs@.subrange(0, cs@.len() as int) =~= cs@);
    }
    s.substring_char(a, b)
}

/// `s` cut to its first `max_chars` characters, with an ellipsis appended
/// when it was longer.
pub fn truncate(s: &str, max_chars: usize) -> (res: String)
    ensures
        res@ == spec_truncate(s@, max_chars as nat),
{
    let cs = chars_of(s);
    if cs.len() <= max_chars {
        s.to_owned()
    } else {
        let mut out: Vec<char> = Vec::new();
        let mut i: usize = 0;
        while i < max_chars
            invariant
                i <= max_chars < cs@.len(),
                out@ == cs@.take(i as int),
            decreases max_chars - i,
        {
            out.push(cs[i]);
            proof {
                assert(out@ =~= cs@.take(i + 1));
            }
            i = i + 1;
        }
        out.push('\u{2026}');
        string_from_chars(out.as_slice())
    }
}

/// Three backticks, the Markdown code-fence marker.
pub open spec fn fence() -> Seq<char> {
    seq!['`', '`', '`']
}

/// What is left of a model reply once surrounding whitespace and an
/// enclosing Markdown code fence (with its language tag) are removed.
pub open spec fn spec_strip_code_fences(s: Seq<char>) -> Seq<char> {
    let t = trim(s);
    if t.len() >= 3 && t.take(3) == fence() {
        let rest = trim_start(skip_alnum(t.skip(3)));
        let body = if rest.len() >= 3 && rest.skip(rest.len() - 3) == fence() {
            rest.take(rest.len() - 3)
        } else {
            rest
        };
        trim_end(body)
    } else {
        t
    }
}

/// Whether `cs[at..at + 3]` is a code fence.
fn fence_at(cs: &Vec<char>, at: usize) -> (b: bool)
    requires
        at + 3 <= cs.len(),
    ensures
        b == (cs@.subrange(at as int, at + 3) == fence()),
{
    let b = cs[at] == '`' && cs[at + 1] == '`' && cs[at + 2] == '`';
    proof {
        if b {
            assert(cs@.subrange(at as int, at + 3) =~= fence());
        } else {
            if cs@.subrange(at as int, at + 3) == fence() {
                assert(cs@.subrange(at as int, at + 3)[0] == fence()[0]);
                assert(cs@.subrange(at as int, at + 3)[1] == fence()[1]);
                assert(cs@.subrange(at as int, at + 3)[2] == fence()[2]);
            }
        }
    }
    b
}

/// Removes surrounding whitespace and, when the reply opens with a Markdown
/// code fence, the fence, its language tag and a closing fence.
pub fn strip_code_fences(s: &str) -> (t: &str)
    ensures
        t@ == spec_strip_code_fences(s@),
{
    let cs = chars_of(s);
    let n = cs.len();
    let (a, b) = trim_bounds(&cs, 0, n);
    proof {
        assert(cs@.subrange(0, n as int) =~= cs@);
    }
    let ghost tv = cs@.subrange(a as int, b as int);
    if b - a >= 3 && fence_at(&cs, a) {
        proof {
            assert(tv.take(3) =~= cs@.subrange(a as int, a + 3));
            assert(tv.skip(3) =~= cs@.subrange(a + 3, b as int));
        }
        let r1 = skip_alnum_forward(&cs, a + 3, b);
        let r2 = skip_ws_forward(&cs, r1, b);
        let ghost rest = cs@.subrange(r2 as int, b as int);
        let e = if b - r2 >= 3 && fence_at(&cs, b - 3) {
            proof {
                assert(rest.skip(rest.len() - 3) =~= cs@.subrange(b - 3, b as int));
                assert(rest.take(rest.len() - 3) =~= cs@.subrange(r2 as int, b - 3));
            }
            b - 3
        } else {
            proof {
                if rest.len() >= 3 {
                    assert(rest.skip(rest.len() - 3) =~= cs@.subrange(b - 3, b as int));
                }
            }
            b
        };
        let e2 = skip_ws_backward(&cs, r2, e);
        s.substring_char(r2, e2)
    } else {
        proof {
            if tv.len() >= 3 {
                assert(tv.take(3) =~= cs@.subrange(a as int, a + 3));
            }
        }
        s.substring_char(a, b)
    }
}

proof fn lemma_skip_alnum_prefix(tag: Seq<char>, x: Seq<char>)
    requires
        forall|j: int| 0 <= j < tag.len() ==> is_alnum(#[trigger] tag[j]),
    ensures
        skip_alnum(tag + x) == skip_alnum(x),
    decreases tag.len(),
{
    if tag.len() > 0 {
        assert((tag + x)[0] == tag[0]);
        assert((tag + x).drop_first() =~= tag.drop_first() + x);
        lemma_skip_alnum_prefix(tag.drop_first(), x);
    } else {
        assert(tag + x =~= x);
    }
}

/// A reply wrapped in a code fence with a language tag on its own line,
/// "```tag\n" + body + "\n```", is stripped back to the body, for any body
/// that does not start or end with whitespace.
pub proof fn lemma_strip_fenced_body(tag: Seq<char>, body: Seq<char>)
    requires
        forall|j: int| 0 <= j < tag.len() ==> is_alnum(#[trigger] tag[j]),
        body.len() > 0,
        !is_ws(body[0]),
        !is_ws(body.last()),
    ensures
        spec_strip_code_fences(fence() + tag + seq!['\n'] + body + seq!['\n'] + fence()) == body,
{
    let nl = seq!['\n'];
    let s = fence() + tag + nl + body + nl + fence();
    assert(trim_start(s) == s);
    assert(s.last() == '`');
    assert(trim_end(s) == s);
    assert(trim(s) == s);
    assert(s.take(3) =~= fence());
    assert(s.skip(3) =~= tag + (nl + body + nl + fence()));
    lemma_skip_alnum_prefix(tag, nl + body + nl + fence());
    let x = nl + body + nl + fence();
    assert(skip_alnum(x) == x);
    assert(x.drop_first() =~= body + nl + fence());
    let y = body + nl + fence();
    assert(y[0] == body[0]);
    assert(trim_start(x) == trim_start(y));
    assert(trim_start(y) == y);
    assert(y.skip(y.len() - 3) =~= fence());
    assert(y.take(y.len() - 3) =~= body + nl);
    let z = body + nl;
    assert(z.drop_last() =~= body);
    assert(trim_end(z) == trim_end(body));
    assert(trim_end(body) == body);
}

} // verus!
