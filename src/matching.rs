//! Regular-expression search, provided by the regex crate.

use vstd::prelude::*;

verus! {

/// The successive non-overlapping matches of the regular expression
/// `pattern` in `text`, or `None` where `pattern` is not a valid expression.
pub uninterp spec fn regex_matches(pattern: Seq<char>, text: Seq<char>) -> Option<Seq<Seq<char>>>;

/// What a search hands back, as values.
pub open spec fn view_found(r: Option<Vec<String>>) -> Option<Seq<Seq<char>>> {
    match r {
        Some(v) => Some(v.deep_view()),
        None => None,
    }
}

/// The matches of `pattern` in `text`; none where `pattern` is invalid.
pub open spec fn matches_or_empty(pattern: Seq<char>, text: Seq<char>) -> Seq<Seq<char>> {
    match regex_matches(pattern, text) {
        Some(ms) => ms,
        None => Seq::empty(),
    }
}

/// Relies on regex::Regex::new, which compiles `pattern` or reports an
/// error, and on Regex::find_iter, which yields the successive
/// non-overlapping matches in `text`; both depend on their arguments alone.
#[verifier::external_body]
fn find_all(pattern: &str, text: &str) -> (r: Option<Vec<String>>)
    ensures
        view_found(r) == regex_matches(pattern@, text@),
{
    match regex::Regex::new(pattern) {
        Ok(re) => {
            let mut found = Vec::new();
            for m in re.find_iter(text) {
                found.push(m.as_str().to_string());
            }
            Some(found)
        },
        Err(_) => None,
    }
}

/// The matched strings of `pattern` in `text`, in order; empty where
/// `pattern` is invalid.
pub fn collect_matches(pattern: &str, text: &str) -> (r: Vec<String>)
    ensures
        r.deep_view() == matches_or_empty(pattern@, text@),
{
    match find_all(pattern, text) {
        Some(v) => v,
        None => Vec::new(),
    }
}

/// `domain` with each `.` written as `\.`, so that a pattern matches the
/// dots literally.
pub open spec fn escape_dots(domain: Seq<char>) -> Seq<char>
    decreases domain.len(),
{
    if domain.len() == 0 {
        Seq::empty()
    } else if domain.last() == '.' {
        escape_dots(domain.drop_last()) + "\\."@
    } else {
        escape_dots(domain.drop_last()).push(domain.last())
    }
}

/// Writes `domain` with its dots escaped, for use inside a pattern.
pub fn escape_domain(domain: &str) -> (r: String)
    ensures
        r@ == escape_dots(domain@),
{
    let n = domain.unicode_len();
    let mut out = String::new();
    let mut i: usize = 0;
    while i < n
        invariant
            n == domain@.len(),
            0 <= i <= n,
            out@ == escape_dots(domain@.take(i as int)),
        decreases n - i,
    {
        let c = domain.get_char(i);
        assert(domain@.take(i + 1).drop_last() =~= domain@.take(i as int));
        if c == '.' {
            out.append("\\.");
        } else {
            let one = domain.substring_char(i, i + 1);
            assert(one@ =~= seq![c]);
            out.append(one);
            assert(out@ =~= escape_dots(domain@.take(i as int)).push(c));
        }
        i += 1;
    }
    assert(domain@.take(n as int) =~= domain@);
    out
}

} // verus!
