//! Properties that hold across calls of the extractors.

use vstd::prelude::*;
use crate::endpoints::{
    after_first, domain_paths, endpoints_of, qualified_pattern, relative_paths, relative_pattern,
    strip_noise,
};
use crate::parameters::{header_pattern, headers_of, parameter_names, parameter_pattern, parameters_of};
use crate::result_set::{
    add_all, first_seen, first_seen_is_a_set, lemma_add_all_contains, lemma_add_all_no_duplicates,
    merge_twice_is_merge_once,
};
use crate::secrets::{api_keys_of, keys_from, labeled, labeled_all, scan_table, signatures};
use crate::subdomains::{subdomain_pattern, subdomains_of, valid_only};
use crate::matching::matches_or_empty;

verus! {

/// Scanning the same text a second time and merging what it yields into a
/// result set changes nothing, for every extractor.
pub proof fn rescanning_adds_nothing(acc: Seq<Seq<char>>, domain: Seq<char>, text: Seq<char>)
    ensures
        add_all(add_all(acc, endpoints_of(domain, text)), endpoints_of(domain, text)) == add_all(
            acc,
            endpoints_of(domain, text),
        ),
        add_all(add_all(acc, subdomains_of(domain, text)), subdomains_of(domain, text)) == add_all(
            acc,
            subdomains_of(domain, text),
        ),
        add_all(add_all(acc, parameters_of(text)), parameters_of(text)) == add_all(
            acc,
            parameters_of(text),
        ),
        add_all(add_all(acc, headers_of(text)), headers_of(text)) == add_all(acc, headers_of(text)),
        add_all(add_all(acc, api_keys_of(text)), api_keys_of(text)) == add_all(
            acc,
            api_keys_of(text),
        ),
{
    merge_twice_is_merge_once(acc, endpoints_of(domain, text));
    merge_twice_is_merge_once(acc, subdomains_of(domain, text));
    merge_twice_is_merge_once(acc, parameters_of(text));
    merge_twice_is_merge_once(acc, headers_of(text));
    merge_twice_is_merge_once(acc, api_keys_of(text));
}

proof fn lemma_keys_no_duplicates(found: Seq<(Seq<char>, Seq<Seq<char>>)>)
    ensures
        keys_from(found).no_duplicates(),
    decreases found.len(),
{
    if found.len() > 0 {
        lemma_keys_no_duplicates(found.drop_last());
        lemma_add_all_no_duplicates(
            keys_from(found.drop_last()),
            labeled_all(found.last().0, found.last().1),
        );
    }
}

/// Every extractor yields each finding once: its result is a set kept in
/// first-seen order.
pub proof fn findings_are_unique(domain: Seq<char>, text: Seq<char>)
    ensures
        endpoints_of(domain, text).no_duplicates(),
        subdomains_of(domain, text).no_duplicates(),
        parameters_of(text).no_duplicates(),
        headers_of(text).no_duplicates(),
        api_keys_of(text).no_duplicates(),
{
    let ms = matches_or_empty(relative_pattern(), text);
    first_seen_is_a_set(relative_paths(ms));
    let qualified = if domain.len() == 0 {
        Seq::empty()
    } else {
        matches_or_empty(qualified_pattern(domain), text)
    };
    lemma_add_all_no_duplicates(first_seen(relative_paths(ms)), domain_paths(qualified, domain));
    if domain.len() > 0 {
        first_seen_is_a_set(valid_only(matches_or_empty(subdomain_pattern(domain), text)));
    }
    first_seen_is_a_set(parameter_names(matches_or_empty(parameter_pattern(), text)));
    first_seen_is_a_set(matches_or_empty(header_pattern(), text));
    lemma_keys_no_duplicates(scan_table(text));
}

proof fn lemma_labeled_contains(kind: Seq<char>, ms: Seq<Seq<char>>, m: Seq<char>)
    requires
        ms.contains(m),
    ensures
        labeled_all(kind, ms).contains(labeled(kind, m)),
    decreases ms.len(),
{
    let prev = labeled_all(kind, ms.drop_last());
    if m == ms.last() {
        assert(prev.push(labeled(kind, m))[prev.len() as int] == labeled(kind, m));
    } else {
        let k = choose|k: int| 0 <= k < ms.len() && ms[k] == m;
        assert(ms.drop_last()[k] == m);
        lemma_labeled_contains(kind, ms.drop_last(), m);
        let t = choose|t: int| 0 <= t < prev.len() && prev[t] == labeled(kind, m);
        assert(prev.push(labeled(kind, ms.last()))[t] == labeled(kind, m));
    }
}

proof fn lemma_keys_contains(found: Seq<(Seq<char>, Seq<Seq<char>>)>, i: int, x: Seq<char>)
    requires
        0 <= i < found.len(),
        labeled_all(found[i].0, found[i].1).contains(x),
    ensures
        keys_from(found).contains(x),
    decreases found.len(),
{
    let prev = found.drop_last();
    let last = labeled_all(found.last().0, found.last().1);
    lemma_add_all_contains(keys_from(prev), last, x);
    if i < found.len() - 1 {
        assert(prev[i] == found[i]);
        lemma_keys_contains(prev, i, x);
    }
}

/// Every match of a signature's pattern is reported, labeled with the
/// signature's kind.
pub proof fn every_signature_match_is_reported(text: Seq<char>, i: int, m: Seq<char>)
    requires
        0 <= i < signatures().len(),
        matches_or_empty(signatures()[i].1, text).contains(m),
    ensures
        api_keys_of(text).contains(labeled(signatures()[i].0, m)),
{
    let found = scan_table(text);
    assert(found[i] == (signatures()[i].0, matches_or_empty(signatures()[i].1, text)));
    lemma_labeled_contains(signatures()[i].0, matches_or_empty(signatures()[i].1, text), m);
    lemma_keys_contains(found, i, labeled(signatures()[i].0, m));
}

proof fn lemma_relative_contains(ms: Seq<Seq<char>>, m: Seq<char>)
    requires
        ms.contains(m),
    ensures
        relative_paths(ms).contains(strip_noise(m)),
    decreases ms.len(),
{
    let prev = relative_paths(ms.drop_last());
    let x = strip_noise(m);
    if m == ms.last() {
        assert(prev.push(x)[prev.len() as int] == x);
    } else {
        let k = choose|k: int| 0 <= k < ms.len() && ms[k] == m;
        assert(ms.drop_last()[k] == m);
        lemma_relative_contains(ms.drop_last(), m);
        let t = choose|t: int| 0 <= t < prev.len() && prev[t] == x;
        assert(prev.push(strip_noise(ms.last()))[t] == x);
    }
}

proof fn lemma_domain_paths_contains(ms: Seq<Seq<char>>, d: Seq<char>, m: Seq<char>, p: Seq<char>)
    requires
        ms.contains(m),
        after_first(m, d) == Some(p),
    ensures
        domain_paths(ms, d).contains(p),
    decreases ms.len(),
{
    let prev = domain_paths(ms.drop_last(), d);
    if m == ms.last() {
        assert(prev.push(p)[prev.len() as int] == p);
    } else {
        let k = choose|k: int| 0 <= k < ms.len() && ms[k] == m;
        assert(ms.drop_last()[k] == m);
        lemma_domain_paths_contains(ms.drop_last(), d, m, p);
        let t = choose|t: int| 0 <= t < prev.len() && prev[t] == p;
        if let Some(q) = after_first(ms.last(), d) {
            assert(prev.push(q)[t] == p);
        }
    }
}

proof fn lemma_parameter_names_contains(ms: Seq<Seq<char>>, m: Seq<char>)
    requires
        ms.contains(m),
        m.len() >= 2,
    ensures
        parameter_names(ms).contains(m.subrange(1, m.len() - 1)),
    decreases ms.len(),
{
    let prev = parameter_names(ms.drop_last());
    let x = m.subrange(1, m.len() - 1);
    if m == ms.last() {
        assert(prev.push(x)[prev.len() as int] == x);
    } else {
        let k = choose|k: int| 0 <= k < ms.len() && ms[k] == m;
        assert(ms.drop_last()[k] == m);
        lemma_parameter_names_contains(ms.drop_last(), m);
        let t = choose|t: int| 0 <= t < prev.len() && prev[t] == x;
        if ms.last().len() >= 2 {
            assert(prev.push(ms.last().subrange(1, ms.last().len() - 1))[t] == x);
        }
    }
}

/// Every quoted relative path that the search finds is reported, stripped
/// of its noise characters.
pub proof fn every_relative_match_is_reported(domain: Seq<char>, text: Seq<char>, m: Seq<char>)
    requires
        matches_or_empty(relative_pattern(), text).contains(m),
    ensures
        endpoints_of(domain, text).contains(strip_noise(m)),
{
    let ms = matches_or_empty(relative_pattern(), text);
    let qualified = if domain.len() == 0 {
        Seq::empty()
    } else {
        matches_or_empty(qualified_pattern(domain), text)
    };
    lemma_relative_contains(ms, m);
    lemma_add_all_contains(Seq::empty(), relative_paths(ms), strip_noise(m));
    lemma_add_all_contains(
        first_seen(relative_paths(ms)),
        domain_paths(qualified, domain),
        strip_noise(m),
    );
}

/// Every URL on a non-empty domain that the search finds is reported, cut
/// after its first occurrence of the domain.
pub proof fn every_domain_match_is_reported(
    domain: Seq<char>,
    text: Seq<char>,
    m: Seq<char>,
    p: Seq<char>,
)
    requires
        domain.len() > 0,
        matches_or_empty(qualified_pattern(domain), text).contains(m),
        after_first(m, domain) == Some(p),
    ensures
        endpoints_of(domain, text).contains(p),
{
    let ms = matches_or_empty(relative_pattern(), text);
    let qualified = matches_or_empty(qualified_pattern(domain), text);
    lemma_domain_paths_contains(qualified, domain, m, p);
    lemma_add_all_contains(first_seen(relative_paths(ms)), domain_paths(qualified, domain), p);
}

/// Every parameter that the search finds is reported, without its leading
/// `?` or `&` and its trailing `=`.
pub proof fn every_parameter_match_is_reported(text: Seq<char>, m: Seq<char>)
    requires
        matches_or_empty(parameter_pattern(), text).contains(m),
        m.len() >= 2,
    ensures
        parameters_of(text).contains(m.subrange(1, m.len() - 1)),
{
    let ms = matches_or_empty(parameter_pattern(), text);
    lemma_parameter_names_contains(ms, m);
    lemma_add_all_contains(Seq::empty(), parameter_names(ms), m.subrange(1, m.len() - 1));
}

/// Every header name that the search finds is reported as it was matched.
pub proof fn every_header_match_is_reported(text: Seq<char>, m: Seq<char>)
    requires
        matches_or_empty(header_pattern(), text).contains(m),
    ensures
        headers_of(text).contains(m),
{
    lemma_add_all_contains(Seq::empty(), matches_or_empty(header_pattern(), text), m);
}

} // verus!
