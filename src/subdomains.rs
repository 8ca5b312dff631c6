//! Subdomains of a root domain, with the structural checks on their labels.

use vstd::prelude::*;
use crate::matching::{collect_matches, escape_domain, escape_dots, matches_or_empty};
use crate::result_set::{first_seen, lemma_add_all_contains, push_new};

verus! {

/// The longest accepted name, in characters.
pub const MAX_NAME_LEN: usize = 255;

/// The longest accepted label, in characters.
pub const MAX_LABEL_LEN: usize = 63;

/// The labels of `s`: the pieces between its dots, empty ones included.
pub open spec fn split_dots(s: Seq<char>) -> Seq<Seq<char>>
    decreases s.len(),
{
    if s.len() == 0 {
        seq![Seq::empty()]
    } else {
        let prev = split_dots(s.drop_last());
        if s.last() == '.' {
            prev.push(Seq::empty())
        } else {
            prev.update(prev.len() - 1, prev.last().push(s.last()))
        }
    }
}

/// Whether `c` may begin or end a label: its code lies from `0` to `z` and
/// outside the gap from `:` to `@`.
pub open spec fn boundary_ok(c: char) -> bool {
    &&& 0x30 <= (c as u32) <= 0x7a
    &&& !(0x39 < (c as u32) && (c as u32) < 0x41)
}

/// A label is non-empty, at most 63 characters long, and begins and ends
/// with an accepted boundary character.
pub open spec fn label_ok(l: Seq<char>) -> bool {
    &&& 1 <= l.len() <= MAX_LABEL_LEN
    &&& boundary_ok(l[0])
    &&& boundary_ok(l[l.len() - 1])
}

/// A candidate is accepted when it is at most 255 characters long and every
/// one of its labels is well formed.
pub open spec fn subdomain_valid(s: Seq<char>) -> bool {
    &&& s.len() <= MAX_NAME_LEN
    &&& forall|k: int| 0 <= k < split_dots(s).len() ==> label_ok(#[trigger] split_dots(s)[k])
}

/// The pattern for names that end in `.` followed by `domain`.
pub open spec fn subdomain_pattern(domain: Seq<char>) -> Seq<char> {
    "[A-Za-z0-9.-]+\\."@ + escape_dots(domain)
}

/// The accepted candidates among `ms`, in order.
pub open spec fn valid_only(ms: Seq<Seq<char>>) -> Seq<Seq<char>>
    decreases ms.len(),
{
    if ms.len() == 0 {
        ms
    } else if subdomain_valid(ms.last()) {
        valid_only(ms.drop_last()).push(ms.last())
    } else {
        valid_only(ms.drop_last())
    }
}

/// The subdomains of `domain` in `text`; none for an empty domain.
pub open spec fn subdomains_of(domain: Seq<char>, text: Seq<char>) -> Seq<Seq<char>> {
    if domain.len() == 0 {
        Seq::empty()
    } else {
        first_seen(valid_only(matches_or_empty(subdomain_pattern(domain), text)))
    }
}

proof fn lemma_split_nonempty(s: Seq<char>)
    ensures
        split_dots(s).len() >= 1,
    decreases s.len(),
{
    if s.len() > 0 {
        lemma_split_nonempty(s.drop_last());
    }
}

/// Every label of a prefix but its last is a label of the whole.
proof fn lemma_split_prefix(s: Seq<char>, i: int)
    requires
        0 <= i <= s.len(),
    ensures
        split_dots(s.take(i)).len() <= split_dots(s).len(),
        forall|k: int|
            0 <= k < split_dots(s.take(i)).len() - 1 ==> split_dots(s)[k] == #[trigger] split_dots(
                s.take(i),
            )[k],
    decreases s.len(),
{
    if i == s.len() {
        assert(s.take(i) =~= s);
    } else {
        assert(s.drop_last().take(i) =~= s.take(i));
        lemma_split_prefix(s.drop_last(), i);
        lemma_split_nonempty(s.drop_last());
    }
}

fn boundary_char(c: char) -> (r: bool)
    ensures
        r == boundary_ok(c),
{
    let v = c as u32;
    !(v > 0x7a || v < 0x30 || (v > 0x39 && v < 0x41))
}

/// Checks the label of `s` from `a` to `b`.
fn label_fits(s: &str, a: usize, b: usize) -> (r: bool)
    requires
        a <= b <= s@.len(),
    ensures
        r == label_ok(s@.subrange(a as int, b as int)),
{
    if b == a || b - a > MAX_LABEL_LEN {
        return false;
    }
    boundary_char(s.get_char(a)) && boundary_char(s.get_char(b - 1))
}

/// Whether candidate `s` passes the length and label checks.
pub fn is_valid_subdomain(s: &str) -> (r: bool)
    ensures
        r == subdomain_valid(s@),
{
    let n = s.unicode_len();
    if n > MAX_NAME_LEN {
        return false;
    }
    let mut start: usize = 0;
    let mut i: usize = 0;
    let ghost mut done: Seq<Seq<char>> = Seq::empty();
    assert(s@.take(0) =~= Seq::<char>::empty());
    assert(done.push(s@.subrange(0, 0)) =~= seq![Seq::<char>::empty()]);
    while i < n
        invariant
            n == s@.len(),
            n <= MAX_NAME_LEN,
            start <= i <= n,
            split_dots(s@.take(i as int)) == done.push(s@.subrange(start as int, i as int)),
            forall|k: int| 0 <= k < done.len() ==> label_ok(#[trigger] done[k]),
        decreases n - i,
    {
        let c = s.get_char(i);
        assert(s@.take(i + 1).drop_last() =~= s@.take(i as int));
        if c == '.' {
            if !label_fits(s, start, i) {
                proof {
                    lemma_split_prefix(s@, i + 1);
                    assert(split_dots(s@.take(i + 1))[done.len() as int] == s@.subrange(
                        start as int,
                        i as int,
                    ));
                    assert(s@.take(s@.len() as int) =~= s@);
                }
                return false;
            }
            proof {
                done = done.push(s@.subrange(start as int, i as int));
                assert(s@.subrange(i + 1, i + 1) =~= Seq::<char>::empty());
            }
            start = i + 1;
        } else {
            assert(s@.subrange(start as int, i as int).push(c) =~= s@.subrange(
                start as int,
                i + 1,
            ));
        }
        i += 1;
    }
    assert(s@.take(n as int) =~= s@);
    let last = label_fits(s, start, n);
    if !last {
        assert(split_dots(s@)[done.len() as int] == s@.subrange(start as int, n as int));
    }
    last
}

/// The accepted candidates among `ms`, each once, in first-seen order.
pub fn subdomains_from_matches(ms: &Vec<String>) -> (r: Vec<String>)
    ensures
        r.deep_view() == first_seen(valid_only(ms.deep_view())),
{
    let mut out: Vec<String> = Vec::new();
    let mut i: usize = 0;
    while i < ms.len()
        invariant
            0 <= i <= ms.len(),
            out.deep_view() == first_seen(valid_only(ms.deep_view().take(i as int))),
        decreases ms.len() - i,
    {
        let ghost before = ms.deep_view().take(i as int);
        assert(ms.deep_view().take(i + 1).drop_last() =~= before);
        if is_valid_subdomain(ms[i].as_str()) {
            let ghost kept = valid_only(before);
            assert(kept.push(ms[i as int]@).drop_last() =~= kept);
            push_new(&mut out, ms[i].clone());
        }
        i += 1;
    }
    assert(ms.deep_view().take(i as int) =~= ms.deep_view());
    out
}

/// The subdomains of `domain` found in `text`: names made of letters,
/// digits, dots and hyphens that end in `.` followed by `domain`, kept when
/// they pass the length and label checks, each once, in first-seen order.
pub fn find_subdomains(domain: &str, content: &str) -> (r: Vec<String>)
    ensures
        r.deep_view() == subdomains_of(domain@, content@),
{
    if domain.unicode_len() == 0 {
        return Vec::new();
    }
    let mut pattern = String::new();
    pattern.append("[A-Za-z0-9.-]+\\.");
    let escaped = escape_domain(domain);
    pattern.append(escaped.as_str());
    let ms = collect_matches(pattern.as_str(), content);
    subdomains_from_matches(&ms)
}

/// A candidate with a label that begins with `-` is rejected whole.
pub proof fn leading_hyphen_rejected(s: Seq<char>, k: int)
    requires
        0 <= k < split_dots(s).len(),
        split_dots(s)[k].len() > 0,
        split_dots(s)[k][0] == '-',
    ensures
        !subdomain_valid(s),
{
    assert(!label_ok(split_dots(s)[k]));
}

/// A candidate with a label longer than 63 characters is rejected whole.
pub proof fn long_label_rejected(s: Seq<char>, k: int)
    requires
        0 <= k < split_dots(s).len(),
        split_dots(s)[k].len() > MAX_LABEL_LEN,
    ensures
        !subdomain_valid(s),
{
    assert(!label_ok(split_dots(s)[k]));
}

proof fn lemma_valid_only(ms: Seq<Seq<char>>, y: Seq<char>)
    requires
        valid_only(ms).contains(y),
    ensures
        subdomain_valid(y),
    decreases ms.len(),
{
    if ms.len() > 0 {
        let prev = valid_only(ms.drop_last());
        if !(subdomain_valid(ms.last()) && y == ms.last()) {
            if subdomain_valid(ms.last()) {
                let k = choose|k: int| 0 <= k < prev.len() + 1 && prev.push(ms.last())[k] == y;
                assert(prev[k] == y);
            }
            assert(prev.contains(y));
            lemma_valid_only(ms.drop_last(), y);
        }
    }
}

/// Every subdomain that is found passes the length and label checks.
pub proof fn found_subdomains_are_valid(domain: Seq<char>, text: Seq<char>, y: Seq<char>)
    requires
        subdomains_of(domain, text).contains(y),
    ensures
        subdomain_valid(y),
{
    let ms = matches_or_empty(subdomain_pattern(domain), text);
    if domain.len() > 0 {
        lemma_add_all_contains(Seq::empty(), valid_only(ms), y);
        lemma_valid_only(ms, y);
    }
}

} // verus!
