//! Picking out the lines of a text that contain a query, with or without
//! regard to letter case.

use vstd::prelude::*;

use crate::text::{
    contains, is_substring, lines_of, lowercase, lowercase_of, split_lines, str_views, trim,
    trim_whitespace,
};

verus! {

/// The lines of `t`, each with its surrounding whitespace removed.
pub open spec fn trimmed_lines(t: Seq<char>) -> Seq<Seq<char>> {
    lines_of(t).map_values(|l: Seq<char>| trim_whitespace(l))
}

/// The trimmed lines of `t` that contain `q` exactly, in text order.
pub open spec fn matching_lines(q: Seq<char>, t: Seq<char>) -> Seq<Seq<char>> {
    trimmed_lines(t).filter(|l: Seq<char>| is_substring(q, l))
}

/// The trimmed lines of `t` whose lowercase form contains the lowercase form
/// of the trimmed `q`, in text order and in their original casing.
pub open spec fn matching_lines_ignore_case(q: Seq<char>, t: Seq<char>) -> Seq<Seq<char>> {
    trimmed_lines(t).filter(
        |l: Seq<char>| is_substring(lowercase_of(trim_whitespace(q)), lowercase_of(l)),
    )
}

/// The entries of `lines` whose matching entry of `keys` contains `q`, in order.
pub open spec fn select_by_key(
    q: Seq<char>,
    lines: Seq<Seq<char>>,
    keys: Seq<Seq<char>>,
) -> Seq<Seq<char>>
    decreases lines.len(),
{
    if lines.len() == 0 {
        Seq::empty()
    } else {
        let rest = select_by_key(q, lines.drop_last(), keys.drop_last());
        if is_substring(q, keys.last()) {
            rest.push(lines.last())
        } else {
            rest
        }
    }
}

/// Selecting by keys is filtering by any predicate that agrees with the keys.
proof fn lemma_select_is_filter(
    q: Seq<char>,
    lines: Seq<Seq<char>>,
    keys: Seq<Seq<char>>,
    pred: spec_fn(Seq<char>) -> bool,
)
    requires
        lines.len() == keys.len(),
        forall|i: int| 0 <= i < lines.len() ==> pred(lines[i]) == is_substring(q, keys[i]),
    ensures
        select_by_key(q, lines, keys) == lines.filter(pred),
    decreases lines.len(),
{
    if lines.len() > 0 {
        let init = lines.drop_last();
        lemma_select_is_filter(q, init, keys.drop_last(), pred);
        init.lemma_filter_push(lines.last(), pred);
        assert(init.push(lines.last()) =~= lines);
    } else {
        reveal(Seq::filter);
    }
}

/// The lines of `contents`, each trimmed, as slices of `contents`.
fn trimmed_line_slices<'a>(contents: &'a str) -> (r: Vec<&'a str>)
    ensures
        str_views(r@) == trimmed_lines(contents@),
{
    let lines = split_lines(contents);
    let mut out: Vec<&'a str> = Vec::new();
    let mut i: usize = 0;
    while i < lines.len()
        invariant
            i <= lines.len(),
            str_views(lines@) == lines_of(contents@),
            out.len() == i,
            forall|j: int| 0 <= j < i ==> #[trigger] out[j]@ == trim_whitespace(lines[j]@),
        decreases lines.len() - i,
    {
        let line: &'a str = lines[i];
        out.push(trim(line));
        i = i + 1;
    }
    assert(str_views(out@) =~= trimmed_lines(contents@)) by {
        assert forall|j: int| 0 <= j < out.len() implies str_views(out@)[j] == trimmed_lines(
            contents@,
        )[j] by {
            assert(lines_of(contents@)[j] == str_views(lines@)[j]);
        }
    }
    out
}

/// The entries of `lines` whose entry at the same place in `keys` contains
/// `key`, in order. Both ways of searching come down to this: exact search
/// keys each line by itself, case-insensitive search by its lowercase form.
pub fn select_matching<'a>(key: &str, lines: &Vec<&'a str>, keys: &Vec<&str>) -> (r: Vec<&'a str>)
    requires
        lines.len() == keys.len(),
    ensures
        str_views(r@) == select_by_key(key@, str_views(lines@), str_views(keys@)),
{
    let mut out: Vec<&'a str> = Vec::new();
    let mut i: usize = 0;
    while i < lines.len()
        invariant
            i <= lines.len() == keys.len(),
            str_views(out@) == select_by_key(
                key@,
                str_views(lines@).take(i as int),
                str_views(keys@).take(i as int),
            ),
        decreases lines.len() - i,
    {
        let line: &'a str = lines[i];
        let found = contains(keys[i], key);
        assert(str_views(lines@).take(i + 1).drop_last() =~= str_views(lines@).take(i as int));
        assert(str_views(keys@).take(i + 1).drop_last() =~= str_views(keys@).take(i as int));
        if found {
            out.push(line);
            assert(str_views(out@) =~= str_views(out@).drop_last().push(line@));
        }
        i = i + 1;
    }
    assert(str_views(lines@).take(i as int) =~= str_views(lines@));
    assert(str_views(keys@).take(i as int) =~= str_views(keys@));
    out
}

/// The lines of `contents` that contain `query` exactly, each trimmed of
/// surrounding whitespace, in the order they stand in `contents`.
/// An empty query matches every line.
pub fn search<'a>(query: &str, contents: &'a str) -> (r: Vec<&'a str>)
    ensures
        str_views(r@) == matching_lines(query@, contents@),
{
    let lines = trimmed_line_slices(contents);
    let r = select_matching(query, &lines, &lines);
    proof {
        lemma_select_is_filter(
            query@,
            str_views(lines@),
            str_views(lines@),
            |l: Seq<char>| is_substring(query@, l),
        );
    }
    r
}

/// The lines of `contents` whose lowercase form contains the lowercase form
/// of the trimmed `query`, each trimmed of surrounding whitespace and in its
/// original casing, in the order they stand in `contents`.
pub fn search_case_sensitive<'a>(query: &str, contents: &'a str) -> (r: Vec<&'a str>)
    ensures
        str_views(r@) == matching_lines_ignore_case(query@, contents@),
{
    let lines = trimmed_line_slices(contents);
    let mut folded: Vec<String> = Vec::new();
    let mut i: usize = 0;
    while i < lines.len()
        invariant
            i <= lines.len(),
            folded.len() == i,
            forall|j: int| 0 <= j < i ==> #[trigger] folded[j]@ == lowercase_of(lines[j]@),
        decreases lines.len() - i,
    {
        folded.push(lowercase(lines[i]));
        i = i + 1;
    }
    let mut keys: Vec<&str> = Vec::new();
    let mut k: usize = 0;
    while k < folded.len()
        invariant
            k <= folded.len() == lines.len(),
            keys.len() == k,
            forall|j: int| 0 <= j < folded.len() ==> #[trigger] folded[j]@ == lowercase_of(lines[j]@),
            forall|j: int| 0 <= j < k ==> #[trigger] keys[j]@ == folded[j]@,
        decreases folded.len() - k,
    {
        keys.push(folded[k].as_str());
        k = k + 1;
    }
    let key = lowercase(trim(query));
    let r = select_matching(key.as_str(), &lines, &keys);
    proof {
        lemma_select_is_filter(
            key@,
            str_views(lines@),
            str_views(keys@),
            |l: Seq<char>| is_substring(lowercase_of(trim_whitespace(query@)), lowercase_of(l)),
        );
    }
    r
}

} // verus!
