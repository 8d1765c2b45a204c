//! Mathematical models of the text operations that searching relies on,
//! and the standard library calls that carry them out.

use vstd::prelude::*;

verus! {

/// Unicode `White_Space` characters, the set that `str::trim` removes.
pub open spec fn is_whitespace_char(c: char) -> bool {
    let n = c as u32;
    ||| 0x9 <= n <= 0xD
    ||| n == 0x20
    ||| n == 0x85
    ||| n == 0xA0
    ||| n == 0x1680
    ||| 0x2000 <= n <= 0x200A
    ||| n == 0x2028
    ||| n == 0x2029
    ||| n == 0x202F
    ||| n == 0x205F
    ||| n == 0x3000
}

/// `s` without its leading whitespace.
pub open spec fn trim_start(s: Seq<char>) -> Seq<char>
    decreases s.len(),
{
    if s.len() > 0 && is_whitespace_char(s[0]) {
        trim_start(s.drop_first())
    } else {
        s
    }
}

/// `s` without its trailing whitespace.
pub open spec fn trim_end(s: Seq<char>) -> Seq<char>
    decreases s.len(),
{
    if s.len() > 0 && is_whitespace_char(s.last()) {
        trim_end(s.drop_last())
    } else {
        s
    }
}

/// `s` without leading or trailing whitespace.
pub open spec fn trim_whitespace(s: Seq<char>) -> Seq<char> {
    trim_end(trim_start(s))
}

/// Trimming the start drops a run of whitespace and stops at a character
/// that is not whitespace; the result is the rest of `s` from index `a`.
proof fn lemma_trim_start_shape(s: Seq<char>) -> (a: int)
    ensures
        0 <= a <= s.len(),
        trim_start(s) == s.subrange(a, s.len() as int),
        forall|i: int| 0 <= i < a ==> is_whitespace_char(#[trigger] s[i]),
        a < s.len() ==> !is_whitespace_char(s[a]),
    decreases s.len(),
{
    if s.len() > 0 && is_whitespace_char(s[0]) {
        let a0 = lemma_trim_start_shape(s.drop_first());
        assert(s.drop_first().subrange(a0, s.len() - 1) =~= s.subrange(a0 + 1, s.len() as int));
        assert forall|i: int| 0 <= i < a0 + 1 implies is_whitespace_char(#[trigger] s[i]) by {
            if i > 0 {
                assert(s[i] == s.drop_first()[i - 1]);
            }
        }
        a0 + 1
    } else {
        assert(s.subrange(0, s.len() as int) =~= s);
        0
    }
}

/// Trimming the end drops a run of whitespace and stops at a character that
/// is not whitespace; the result is the part of `s` before index `b`.
proof fn lemma_trim_end_shape(s: Seq<char>) -> (b: int)
    ensures
        0 <= b <= s.len(),
        trim_end(s) == s.subrange(0, b),
        forall|i: int| b <= i < s.len() ==> is_whitespace_char(#[trigger] s[i]),
        b > 0 ==> !is_whitespace_char(s[b - 1]),
    decreases s.len(),
{
    if s.len() > 0 && is_whitespace_char(s.last()) {
        let b0 = lemma_trim_end_shape(s.drop_last());
        assert(s.drop_last().subrange(0, b0) =~= s.subrange(0, b0));
        assert forall|i: int| b0 <= i < s.len() implies is_whitespace_char(#[trigger] s[i]) by {
            if i < s.len() - 1 {
                assert(s[i] == s.drop_last()[i]);
            }
        }
        b0
    } else {
        assert(s.subrange(0, s.len() as int) =~= s);
        s.len() as int
    }
}

/// Trimming removes whitespace at the two ends of `s` and nothing else: what
/// remains is a contiguous part of `s`, everything outside it is whitespace,
/// and it neither starts nor ends with whitespace.
pub proof fn lemma_trim_whitespace_shape(s: Seq<char>)
    ensures
        exists|a: int, b: int|
            {
                &&& 0 <= a <= b <= s.len()
                &&& trim_whitespace(s) == #[trigger] s.subrange(a, b)
                &&& forall|i: int|
                    0 <= i < s.len() && (i < a || b <= i) ==> is_whitespace_char(#[trigger] s[i])
                &&& a < b ==> !is_whitespace_char(s[a]) && !is_whitespace_char(s[b - 1])
            },
{
    let a = lemma_trim_start_shape(s);
    let u = trim_start(s);
    let b0 = lemma_trim_end_shape(u);
    let b = a + b0;
    assert(u.subrange(0, b0) =~= s.subrange(a, b));
    assert forall|i: int| 0 <= i < s.len() && (i < a || b <= i) implies is_whitespace_char(
        #[trigger] s[i],
    ) by {
        if b <= i {
            assert(s[i] == u[i - a]);
        }
    }
    if a < b {
        assert(s[a] == u[0]);
        assert(s[b - 1] == u[b0 - 1]);
    }
}

/// Relies on `str::trim`: the slice of `s` without leading and trailing
/// Unicode whitespace.
#[verifier::external_body]
pub(crate) fn trim<'a>(s: &'a str) -> (r: &'a str)
    ensures
        r@ == trim_whitespace(s@),
{
    s.trim()
}

/// The pieces of `t` between `'\n'` characters, as `str::split` on `'\n'`
/// yields them: one more piece than there are newlines.
pub open spec fn newline_pieces(t: Seq<char>) -> Seq<Seq<char>>
    decreases t.len(),
{
    if t.len() == 0 {
        seq![Seq::empty()]
    } else {
        let rest = newline_pieces(t.drop_first());
        if t[0] == '\n' {
            seq![Seq::empty()] + rest
        } else {
            rest.update(0, seq![t[0]] + rest[0])
        }
    }
}

/// A line that was ended by `'\n'`, without the `'\r'` of a `"\r\n"` ending.
pub open spec fn strip_carriage_return(s: Seq<char>) -> Seq<char> {
    if s.len() > 0 && s.last() == '\r' {
        s.drop_last()
    } else {
        s
    }
}

/// The lines of `t`: split at `"\n"` or `"\r\n"`, terminators removed, a final
/// line ending optional, and no line at all for an empty text. A bare `'\r'`
/// stays in its line.
pub open spec fn lines_of(t: Seq<char>) -> Seq<Seq<char>> {
    if t.len() == 0 {
        Seq::empty()
    } else {
        let pieces = newline_pieces(t);
        let ended = pieces.drop_last().map_values(|p: Seq<char>| strip_carriage_return(p));
        if t.last() == '\n' {
            ended
        } else {
            ended.push(pieces.last())
        }
    }
}

/// `q` occurs in `s` as a contiguous run of characters.
pub open spec fn is_substring(q: Seq<char>, s: Seq<char>) -> bool {
    exists|i: int| 0 <= i <= s.len() - q.len() && #[trigger] s.subrange(i, i + q.len()) == q
}

/// What `str::to_lowercase` returns for a string: its full Unicode lowercase
/// mapping, which depends on the characters alone.
pub uninterp spec fn lowercase_of(s: Seq<char>) -> Seq<char>;

/// The views of a sequence of string slices.
pub open spec fn str_views(v: Seq<&str>) -> Seq<Seq<char>> {
    v.map_values(|s: &str| s@)
}

/// Relies on `str::lines`: the lines of `t` in order, each a slice of `t`.
#[verifier::external_body]
pub(crate) fn split_lines<'a>(t: &'a str) -> (r: Vec<&'a str>)
    ensures
        str_views(r@) == lines_of(t@),
{
    t.lines().collect()
}

/// Relies on `str::contains`: whether `q` occurs in `s`.
#[verifier::external_body]
pub(crate) fn contains(s: &str, q: &str) -> (r: bool)
    ensures
        r == is_substring(q@, s@),
{
    s.contains(q)
}

/// Relies on `str::to_lowercase`: the lowercase form of `s`.
#[verifier::external_body]
pub(crate) fn lowercase(s: &str) -> (r: String)
    ensures
        r@ == lowercase_of(s@),
{
    s.to_lowercase()
}

} // verus!
