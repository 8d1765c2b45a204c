//! Facts about what the two searches return, proved from their models.

use vstd::prelude::*;

use crate::search::{matching_lines, matching_lines_ignore_case, trimmed_lines};
use crate::text::{
    is_substring, is_whitespace_char, lemma_trim_whitespace_shape, lines_of, lowercase_of,
    trim_whitespace,
};

verus! {

/// `r` is `s` with some entries left out: the entries of `r` stand in `s`
/// at strictly increasing places.
pub open spec fn is_ordered_selection(r: Seq<Seq<char>>, s: Seq<Seq<char>>) -> bool {
    exists|places: Seq<int>|
        {
            &&& #[trigger] places.len() == r.len()
            &&& forall|k: int| 0 <= k < r.len() ==> 0 <= #[trigger] places[k] < s.len()
            &&& forall|k: int| 0 <= k < r.len() ==> r[k] == s[#[trigger] places[k]]
            &&& forall|k1: int, k2: int|
                0 <= k1 < k2 < r.len() ==> #[trigger] places[k1] < #[trigger] places[k2]
        }
}

/// Filtering keeps the entries it keeps in their order: the places in `s`
/// of the entries of `s.filter(p)`.
proof fn lemma_filter_places(
    s: Seq<Seq<char>>,
    p: spec_fn(Seq<char>) -> bool,
) -> (places: Seq<int>)
    ensures
        places.len() == s.filter(p).len(),
        forall|k: int| 0 <= k < places.len() ==> 0 <= #[trigger] places[k] < s.len(),
        forall|k: int| 0 <= k < places.len() ==> s.filter(p)[k] == s[#[trigger] places[k]],
        forall|k1: int, k2: int|
            0 <= k1 < k2 < places.len() ==> #[trigger] places[k1] < #[trigger] places[k2],
    decreases s.len(),
{
    if s.len() == 0 {
        reveal(Seq::filter);
        Seq::empty()
    } else {
        let init = s.drop_last();
        let rest = lemma_filter_places(init, p);
        init.lemma_filter_push(s.last(), p);
        assert(init.push(s.last()) =~= s);
        if p(s.last()) {
            let places = rest.push(s.len() - 1);
            assert forall|k: int| 0 <= k < places.len() implies s.filter(p)[k] == s[
                #[trigger] places[k]
            ] by {
                if k < rest.len() {
                    assert(s.filter(p)[k] == init.filter(p)[k]);
                    assert(s[places[k]] == init[rest[k]]);
                }
            }
            places
        } else {
            assert forall|k: int| 0 <= k < rest.len() implies s.filter(p)[k] == s[
                #[trigger] rest[k]
            ] by {
                assert(s[rest[k]] == init[rest[k]]);
            }
            rest
        }
    }
}

/// Filtering by a predicate that holds of every entry keeps them all.
proof fn lemma_filter_keeps_all(s: Seq<Seq<char>>, p: spec_fn(Seq<char>) -> bool)
    requires
        forall|i: int| 0 <= i < s.len() ==> p(#[trigger] s[i]),
    ensures
        s.filter(p) == s,
    decreases s.len(),
{
    if s.len() == 0 {
        reveal(Seq::filter);
    } else {
        let init = s.drop_last();
        lemma_filter_keeps_all(init, p);
        init.lemma_filter_push(s.last(), p);
        assert(init.push(s.last()) =~= s);
    }
}

/// Where `p` implies `q` on every entry of `s`, filtering by `p` is filtering
/// first by `q` and then by `p`.
proof fn lemma_filter_narrower(
    s: Seq<Seq<char>>,
    p: spec_fn(Seq<char>) -> bool,
    q: spec_fn(Seq<char>) -> bool,
)
    requires
        forall|i: int| 0 <= i < s.len() && p(#[trigger] s[i]) ==> q(s[i]),
    ensures
        s.filter(p) == s.filter(q).filter(p),
    decreases s.len(),
{
    if s.len() == 0 {
        reveal(Seq::filter);
    } else {
        let init = s.drop_last();
        lemma_filter_narrower(init, p, q);
        init.lemma_filter_push(s.last(), p);
        init.lemma_filter_push(s.last(), q);
        init.filter(q).lemma_filter_push(s.last(), p);
        assert(init.push(s.last()) =~= s);
    }
}

/// Exact search returns precisely the trimmed lines of the text that contain
/// the query: each line it returns is a trimmed line of the text holding the
/// query, and each trimmed line holding the query is among those returned.
pub proof fn lemma_search_exact(q: Seq<char>, t: Seq<char>)
    ensures
        forall|k: int|
            0 <= k < matching_lines(q, t).len() ==> trimmed_lines(t).contains(
                #[trigger] matching_lines(q, t)[k],
            ) && is_substring(q, matching_lines(q, t)[k]),
        forall|j: int|
            0 <= j < trimmed_lines(t).len() && is_substring(q, #[trigger] trimmed_lines(t)[j])
                ==> matching_lines(q, t).contains(trimmed_lines(t)[j]),
{
    let s = trimmed_lines(t);
    let p = |l: Seq<char>| is_substring(q, l);
    assert forall|k: int| 0 <= k < s.filter(p).len() implies s.contains(#[trigger] s.filter(p)[k])
        && is_substring(q, s.filter(p)[k]) by {
        s.lemma_filter_pred(p, k);
        assert(s.filter(p).contains(s.filter(p)[k]));
        s.lemma_filter_contains_rev(p, s.filter(p)[k]);
    }
    assert forall|j: int| 0 <= j < s.len() && is_substring(q, #[trigger] s[j]) implies s.filter(
        p,
    ).contains(s[j]) by {
        s.lemma_filter_contains(p, j);
    }
}

/// Both searches return lines in the order they stand in the text.
pub proof fn lemma_search_keeps_order(q: Seq<char>, t: Seq<char>)
    ensures
        is_ordered_selection(matching_lines(q, t), trimmed_lines(t)),
        is_ordered_selection(matching_lines_ignore_case(q, t), trimmed_lines(t)),
{
    let exact = lemma_filter_places(trimmed_lines(t), |l: Seq<char>| is_substring(q, l));
    assert(exact.len() == matching_lines(q, t).len());
    let folded = lemma_filter_places(
        trimmed_lines(t),
        |l: Seq<char>| is_substring(lowercase_of(trim_whitespace(q)), lowercase_of(l)),
    );
    assert(folded.len() == matching_lines_ignore_case(q, t).len());
}

/// The empty query matches every line: exact search for it returns every
/// trimmed line of the text.
pub proof fn lemma_empty_query_matches_all(t: Seq<char>)
    ensures
        matching_lines(Seq::empty(), t) == trimmed_lines(t),
{
    let s = trimmed_lines(t);
    let p = |l: Seq<char>| is_substring(Seq::<char>::empty(), l);
    assert forall|i: int| 0 <= i < s.len() implies p(#[trigger] s[i]) by {
        assert(s[i].subrange(0, 0) =~= Seq::<char>::empty());
    }
    lemma_filter_keeps_all(s, p);
}

/// Every line that exact search returns is a line of the text with the
/// whitespace at its two ends removed, and it neither starts nor ends with
/// whitespace.
pub proof fn lemma_search_trims(q: Seq<char>, t: Seq<char>)
    ensures
        forall|k: int|
            0 <= k < matching_lines(q, t).len() ==> {
                let m = #[trigger] matching_lines(q, t)[k];
                &&& exists|j: int|
                    0 <= j < lines_of(t).len() && m == trim_whitespace(#[trigger] lines_of(t)[j])
                &&& m.len() > 0 ==> !is_whitespace_char(m[0]) && !is_whitespace_char(m.last())
            },
{
    lemma_search_exact(q, t);
    let s = trimmed_lines(t);
    assert forall|k: int| 0 <= k < matching_lines(q, t).len() implies {
        let m = #[trigger] matching_lines(q, t)[k];
        &&& exists|j: int|
            0 <= j < lines_of(t).len() && m == trim_whitespace(#[trigger] lines_of(t)[j])
        &&& m.len() > 0 ==> !is_whitespace_char(m[0]) && !is_whitespace_char(m.last())
    } by {
        let m = matching_lines(q, t)[k];
        assert(s.contains(m));
        let j = choose|j: int| 0 <= j < s.len() && s[j] == m;
        let line = lines_of(t)[j];
        assert(m == trim_whitespace(line));
        lemma_trim_whitespace_shape(line);
        let (a, b) = choose|a: int, b: int|
            {
                &&& 0 <= a <= b <= line.len()
                &&& trim_whitespace(line) == #[trigger] line.subrange(a, b)
                &&& forall|i: int|
                    0 <= i < line.len() && (i < a || b <= i) ==> is_whitespace_char(
                        #[trigger] line[i],
                    )
                &&& a < b ==> !is_whitespace_char(line[a]) && !is_whitespace_char(line[b - 1])
            };
        if m.len() > 0 {
            assert(m[0] == line[a]);
            assert(m.last() == line[b - 1]);
        }
    }
}

/// Ignoring case is never stricter than exact search: the lines that exact
/// search returns are those that case-insensitive search returns, narrowed
/// to the ones that hold the query exactly. This holds wherever lowercasing
/// keeps each exact occurrence of the query, that is, wherever every trimmed
/// line holding the query also holds the query's lowercase form once
/// lowercased. Context-dependent case mappings (a final Greek sigma) can
/// break that.
pub proof fn lemma_ignore_case_not_stricter(q: Seq<char>, t: Seq<char>)
    requires
        forall|j: int|
            0 <= j < trimmed_lines(t).len() && is_substring(q, #[trigger] trimmed_lines(t)[j])
                ==> is_substring(lowercase_of(trim_whitespace(q)), lowercase_of(trimmed_lines(t)[j])),
    ensures
        matching_lines(q, t) == matching_lines_ignore_case(q, t).filter(
            |l: Seq<char>| is_substring(q, l),
        ),
        forall|l: Seq<char>|
            matching_lines(q, t).contains(l) ==> #[trigger] matching_lines_ignore_case(
                q,
                t,
            ).contains(l),
{
    let s = trimmed_lines(t);
    let p = |l: Seq<char>| is_substring(q, l);
    let f = |l: Seq<char>| is_substring(lowercase_of(trim_whitespace(q)), lowercase_of(l));
    lemma_filter_narrower(s, p, f);
    assert forall|l: Seq<char>| s.filter(p).contains(l) implies #[trigger] s.filter(f).contains(
        l,
    ) by {
        s.filter(f).lemma_filter_contains_rev(p, l);
    }
}

} // verus!
