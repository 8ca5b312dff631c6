//! Query-parameter names and custom header names.

use vstd::prelude::*;
use crate::matching::{collect_matches, matches_or_empty};
use crate::result_set::{first_seen, merge, push_new};

verus! {

/// The pattern for a parameter: `?` or `&`, a name, then `=`.
pub open spec fn parameter_pattern() -> Seq<char> {
    "[?&][A-Za-z0-9~_-]+="@
}

/// The pattern for a custom header: `X-` followed by a name.
pub open spec fn header_pattern() -> Seq<char> {
    "X-[a-zA-Z0-9_-]+"@
}

/// The names in the parameter matches `ms`: each match without its first
/// and last character; a match too short to have both is passed over.
pub open spec fn parameter_names(ms: Seq<Seq<char>>) -> Seq<Seq<char>>
    decreases ms.len(),
{
    if ms.len() == 0 {
        ms
    } else if ms.last().len() >= 2 {
        parameter_names(ms.drop_last()).push(ms.last().subrange(1, ms.last().len() - 1))
    } else {
        parameter_names(ms.drop_last())
    }
}

/// The parameter names in `text`.
pub open spec fn parameters_of(text: Seq<char>) -> Seq<Seq<char>> {
    first_seen(parameter_names(matches_or_empty(parameter_pattern(), text)))
}

/// The custom header names in `text`.
pub open spec fn headers_of(text: Seq<char>) -> Seq<Seq<char>> {
    first_seen(matches_or_empty(header_pattern(), text))
}

/// The names in the parameter matches `ms`, without the leading `?` or `&`
/// and the trailing `=`, each once, in first-seen order.
pub fn parameters_from_matches(ms: &Vec<String>) -> (r: Vec<String>)
    ensures
        r.deep_view() == first_seen(parameter_names(ms.deep_view())),
{
    let mut out: Vec<String> = Vec::new();
    let mut i: usize = 0;
    while i < ms.len()
        invariant
            0 <= i <= ms.len(),
            out.deep_view() == first_seen(parameter_names(ms.deep_view().take(i as int))),
        decreases ms.len() - i,
    {
        let ghost before = ms.deep_view().take(i as int);
        assert(ms.deep_view().take(i + 1).drop_last() =~= before);
        let m = ms[i].as_str();
        let n = m.unicode_len();
        if n >= 2 {
            let name = String::from_str(m.substring_char(1, n - 1));
            let ghost names = parameter_names(before);
            assert(names.push(name@).drop_last() =~= names);
            push_new(&mut out, name);
        }
        i += 1;
    }
    assert(ms.deep_view().take(i as int) =~= ms.deep_view());
    out
}

/// The query-parameter names in `content`: a name of letters, digits, `~`,
/// `_` and `-` between `?` or `&` and `=`, each once, in first-seen order.
pub fn find_parameters(content: &str) -> (r: Vec<String>)
    ensures
        r.deep_view() == parameters_of(content@),
{
    let ms = collect_matches("[?&][A-Za-z0-9~_-]+=", content);
    parameters_from_matches(&ms)
}

/// The header matches `ms`, each once, in first-seen order.
pub fn headers_from_matches(ms: Vec<String>) -> (r: Vec<String>)
    ensures
        r.deep_view() == first_seen(ms.deep_view()),
{
    let mut out: Vec<String> = Vec::new();
    assert(out.deep_view() =~= Seq::<Seq<char>>::empty());
    merge(&mut out, ms);
    out
}

/// The custom header names in `content`: `X-` followed by letters, digits,
/// `_` and `-`, each once, in first-seen order.
pub fn find_header(content: &str) -> (r: Vec<String>)
    ensures
        r.deep_view() == headers_of(content@),
{
    let ms = collect_matches("X-[a-zA-Z0-9_-]+", content);
    headers_from_matches(ms)
}

} // verus!
