//! Relative and domain-qualified endpoints.

use vstd::prelude::*;
use crate::matching::{collect_matches, escape_domain, escape_dots, matches_or_empty};
use crate::result_set::{add_all, first_seen, merge, push_new};

verus! {

/// The pattern for quoted relative paths after `=` or `+`.
pub open spec fn relative_pattern() -> Seq<char> {
    "[=+][ ]*['\"]/[a-zA-Z0-9.!_:-][a-zA-Z0-9.!_:/-]+[;\"'#?]"@
}

/// The pattern for URLs on `domain`, with optional scheme and `//`.
pub open spec fn qualified_pattern(domain: Seq<char>) -> Seq<char> {
    "(https?:){0,1}(//){0,1}"@ + escape_dots(domain) + "/([A-Za-z0-9._~!/-]|%[a-zA-Z0-9]{2})+"@
}

/// The characters that are not part of a relative path: quotes, space,
/// `+`, `=`, `#`, `?` and `;`.
pub open spec fn is_noise(c: char) -> bool {
    c == '"' || c == '\'' || c == ' ' || c == '+' || c == '=' || c == '#' || c == '?' || c == ';'
}

/// `s` without its noise characters.
pub open spec fn strip_noise(s: Seq<char>) -> Seq<char>
    decreases s.len(),
{
    if s.len() == 0 {
        s
    } else if is_noise(s.last()) {
        strip_noise(s.drop_last())
    } else {
        strip_noise(s.drop_last()).push(s.last())
    }
}

/// Whether `d` occurs in `m` at position `k`.
pub open spec fn occurs_at(m: Seq<char>, d: Seq<char>, k: int) -> bool {
    &&& 0 <= k
    &&& k + d.len() <= m.len()
    &&& m.subrange(k, k + d.len()) == d
}

/// The first position from `k` on where `d` occurs in `m`.
pub open spec fn first_index_from(m: Seq<char>, d: Seq<char>, k: int) -> Option<int>
    decreases m.len() + 1 - k,
{
    if k < 0 || k + d.len() > m.len() {
        None
    } else if occurs_at(m, d, k) {
        Some(k)
    } else {
        first_index_from(m, d, k + 1)
    }
}

/// What follows the first occurrence of `d` in `m`, if `d` occurs.
pub open spec fn after_first(m: Seq<char>, d: Seq<char>) -> Option<Seq<char>> {
    match first_index_from(m, d, 0) {
        Some(k) => Some(m.subrange(k + d.len(), m.len() as int)),
        None => None,
    }
}

/// The relative paths of the matches `ms`, stripped of noise.
pub open spec fn relative_paths(ms: Seq<Seq<char>>) -> Seq<Seq<char>>
    decreases ms.len(),
{
    if ms.len() == 0 {
        ms
    } else {
        relative_paths(ms.drop_last()).push(strip_noise(ms.last()))
    }
}

/// The paths of the URL matches `ms`: each cut after its first occurrence
/// of `domain`.
pub open spec fn domain_paths(ms: Seq<Seq<char>>, domain: Seq<char>) -> Seq<Seq<char>>
    decreases ms.len(),
{
    if ms.len() == 0 {
        ms
    } else {
        match after_first(ms.last(), domain) {
            Some(p) => domain_paths(ms.drop_last(), domain).push(p),
            None => domain_paths(ms.drop_last(), domain),
        }
    }
}

/// The endpoints that the two passes yield from their matches.
pub open spec fn endpoints_from(
    relative: Seq<Seq<char>>,
    qualified: Seq<Seq<char>>,
    domain: Seq<char>,
) -> Seq<Seq<char>> {
    add_all(first_seen(relative_paths(relative)), domain_paths(qualified, domain))
}

/// The endpoints in `text`; the domain-qualified pass finds nothing for an
/// empty domain.
pub open spec fn endpoints_of(domain: Seq<char>, text: Seq<char>) -> Seq<Seq<char>> {
    let qualified = if domain.len() == 0 {
        Seq::empty()
    } else {
        matches_or_empty(qualified_pattern(domain), text)
    };
    endpoints_from(matches_or_empty(relative_pattern(), text), qualified, domain)
}

/// `s` with its noise characters removed.
pub fn strip_path_noise(s: &str) -> (r: String)
    ensures
        r@ == strip_noise(s@),
{
    let n = s.unicode_len();
    let mut out = String::new();
    let mut i: usize = 0;
    while i < n
        invariant
            n == s@.len(),
            0 <= i <= n,
            out@ == strip_noise(s@.take(i as int)),
        decreases n - i,
    {
        let c = s.get_char(i);
        assert(s@.take(i + 1).drop_last() =~= s@.take(i as int));
        if !(c == '"' || c == '\'' || c == ' ' || c == '+' || c == '=' || c == '#' || c == '?'
            || c == ';') {
            let one = s.substring_char(i, i + 1);
            assert(one@ =~= seq![c]);
            out.append(one);
        }
        i += 1;
    }
    assert(s@.take(n as int) =~= s@);
    out
}

fn occurs(m: &str, d: &str, k: usize, ml: usize, dl: usize) -> (r: bool)
    requires
        ml == m@.len(),
        dl == d@.len(),
        k + dl <= ml,
    ensures
        r == occurs_at(m@, d@, k as int),
{
    let mut j: usize = 0;
    while j < dl
        invariant
            ml == m@.len(),
            dl == d@.len(),
            k + dl <= ml,
            0 <= j <= dl,
            forall|t: int| 0 <= t < j ==> m@[k + t] == d@[t],
        decreases dl - j,
    {
        if m.get_char(k + j) != d.get_char(j) {
            assert(m@.subrange(k as int, k + dl)[j as int] != d@[j as int]);
            return false;
        }
        j += 1;
    }
    assert(m@.subrange(k as int, k + dl) =~= d@);
    true
}

/// The first position of `d` in `m`, if it occurs.
pub fn first_index(m: &str, d: &str) -> (r: Option<usize>)
    ensures
        r matches Some(k) ==> first_index_from(m@, d@, 0) == Some(k as int),
        r is None ==> first_index_from(m@, d@, 0) is None,
{
    let ml = m.unicode_len();
    let dl = d.unicode_len();
    if dl > ml {
        return None;
    }
    let last = ml - dl;
    let mut k: usize = 0;
    loop
        invariant
            ml == m@.len(),
            dl == d@.len(),
            last == ml - dl,
            k <= last,
            first_index_from(m@, d@, 0) == first_index_from(m@, d@, k as int),
        decreases last - k,
    {
        if occurs(m, d, k, ml, dl) {
            return Some(k);
        }
        if k == last {
            assert(first_index_from(m@, d@, k + 1) is None);
            return None;
        }
        k += 1;
    }
}

proof fn lemma_first_index_occurs(m: Seq<char>, d: Seq<char>, j: int, k: int)
    requires
        first_index_from(m, d, j) == Some(k),
    ensures
        occurs_at(m, d, k),
    decreases m.len() + 1 - j,
{
    if !(j < 0 || j + d.len() > m.len()) && !occurs_at(m, d, j) {
        lemma_first_index_occurs(m, d, j + 1, k);
    }
}

/// What follows the first occurrence of `d` in `m`, if `d` occurs.
pub fn cut_after(m: &str, d: &str) -> (r: Option<String>)
    ensures
        r matches Some(p) ==> after_first(m@, d@) == Some(p@),
        r is None ==> after_first(m@, d@) is None,
{
    match first_index(m, d) {
        Some(k) => {
            proof {
                lemma_first_index_occurs(m@, d@, 0, k as int);
            }
            let ml = m.unicode_len();
            let dl = d.unicode_len();
            Some(String::from_str(m.substring_char(k + dl, ml)))
        },
        None => None,
    }
}

/// The endpoints that the two passes yield: first the relative matches
/// stripped of noise, then the URL matches cut after their first occurrence
/// of `domain`, each once, in first-seen order.
pub fn endpoints_from_matches(domain: &str, relative: &Vec<String>, qualified: &Vec<String>) -> (r:
    Vec<String>)
    ensures
        r.deep_view() == endpoints_from(relative.deep_view(), qualified.deep_view(), domain@),
{
    let mut stripped: Vec<String> = Vec::new();
    let mut i: usize = 0;
    while i < relative.len()
        invariant
            0 <= i <= relative.len(),
            stripped.deep_view() == relative_paths(relative.deep_view().take(i as int)),
        decreases relative.len() - i,
    {
        assert(relative.deep_view().take(i + 1).drop_last() =~= relative.deep_view().take(
            i as int,
        ));
        let p = strip_path_noise(relative[i].as_str());
        stripped.push(p);
        assert(stripped.deep_view() =~= relative_paths(relative.deep_view().take(i + 1)));
        i += 1;
    }
    assert(relative.deep_view().take(i as int) =~= relative.deep_view());
    let mut out: Vec<String> = Vec::new();
    assert(out.deep_view() =~= Seq::<Seq<char>>::empty());
    merge(&mut out, stripped);
    assert(out.deep_view() == first_seen(relative_paths(relative.deep_view())));
    let ghost base = out.deep_view();
    let mut j: usize = 0;
    while j < qualified.len()
        invariant
            0 <= j <= qualified.len(),
            out.deep_view() == add_all(base, domain_paths(qualified.deep_view().take(j as int), domain@)),
        decreases qualified.len() - j,
    {
        let ghost before = domain_paths(qualified.deep_view().take(j as int), domain@);
        assert(qualified.deep_view().take(j + 1).drop_last() =~= qualified.deep_view().take(
            j as int,
        ));
        match cut_after(qualified[j].as_str(), domain) {
            Some(p) => {
                assert(before.push(p@).drop_last() =~= before);
                push_new(&mut out, p);
            },
            None => {},
        }
        j += 1;
    }
    assert(qualified.deep_view().take(j as int) =~= qualified.deep_view());
    out
}

/// The endpoints in `content`: quoted relative paths after `=` or `+`,
/// stripped of quotes, spaces, `+`, `=`, `#`, `?` and `;`; then URLs on
/// `domain`, each cut after its first occurrence of `domain`. Each endpoint
/// is kept once, in first-seen order.
pub fn find_endpoints(domain: &str, content: &str) -> (r: Vec<String>)
    ensures
        r.deep_view() == endpoints_of(domain@, content@),
{
    let relative = collect_matches(
        "[=+][ ]*['\"]/[a-zA-Z0-9.!_:-][a-zA-Z0-9.!_:/-]+[;\"'#?]",
        content,
    );
    let qualified = if domain.unicode_len() == 0 {
        Vec::new()
    } else {
        let mut pattern = String::new();
        pattern.append("(https?:){0,1}(//){0,1}");
        let escaped = escape_domain(domain);
        pattern.append(escaped.as_str());
        pattern.append("/([A-Za-z0-9._~!/-]|%[a-zA-Z0-9]{2})+");
        collect_matches(pattern.as_str(), content)
    };
    proof {
        if domain@.len() == 0 {
            assert(qualified.deep_view() =~= Seq::<Seq<char>>::empty());
        }
    }
    endpoints_from_matches(domain, &relative, &qualified)
}

} // verus!
