//! Hard-coded vendor secrets, found by a fixed table of signatures.

use vstd::prelude::*;
use crate::matching::{collect_matches, matches_or_empty};
use crate::result_set::{add_all, push_new};

verus! {

/// The signature table: each kind of secret with the pattern that finds it.
pub open spec fn signatures() -> Seq<(Seq<char>, Seq<char>)> {
    seq![
        ("Artifactory Token"@, "AKC[a-zA-Z0-9]{10,}"@),
        ("Artifactory Password"@, "AP[0-9A-F][a-zA-Z0-9]{8,}"@),
        ("MailChimp API Key"@, "[0-9a-f]{32}-us[0-9]{1,2}"@),
        ("Mailgun API Key"@, "key-[0-9a-zA-Z]{32}"@),
        ("Picatic API Key"@, "sk_live_[0-9a-z]{32}"@),
        ("Slack Token"@, "xox[baprs]-[0-9a-zA-Z]{10,48}"@),
        ("Stripe API Key"@, "(?:r|s)k_live_[0-9a-zA-Z]{24}"@),
        ("Twilio API Key"@, "SK[0-9a-fA-F]{32}"@),
    ]
}

/// A finding of kind `kind` with value `value`, written `kind|value`.
pub open spec fn labeled(kind: Seq<char>, value: Seq<char>) -> Seq<char> {
    kind + "|"@ + value
}

/// The values `ms`, each labeled with `kind`.
pub open spec fn labeled_all(kind: Seq<char>, ms: Seq<Seq<char>>) -> Seq<Seq<char>>
    decreases ms.len(),
{
    if ms.len() == 0 {
        ms
    } else {
        labeled_all(kind, ms.drop_last()).push(labeled(kind, ms.last()))
    }
}

/// The labeled findings of `found`, a list of kinds with their matches,
/// each once, kind after kind, in first-seen order.
pub open spec fn keys_from(found: Seq<(Seq<char>, Seq<Seq<char>>)>) -> Seq<Seq<char>>
    decreases found.len(),
{
    if found.len() == 0 {
        Seq::empty()
    } else {
        add_all(keys_from(found.drop_last()), labeled_all(found.last().0, found.last().1))
    }
}

/// Each kind of the table with the matches of its pattern in `text`.
pub open spec fn scan_table(text: Seq<char>) -> Seq<(Seq<char>, Seq<Seq<char>>)> {
    signatures().map_values(|e: (Seq<char>, Seq<char>)| (e.0, matches_or_empty(e.1, text)))
}

/// The labeled secrets in `text`.
pub open spec fn api_keys_of(text: Seq<char>) -> Seq<Seq<char>> {
    keys_from(scan_table(text))
}

/// The signature table, kind and pattern.
pub fn signature_table() -> (r: Vec<(&'static str, &'static str)>)
    ensures
        r@.len() == signatures().len(),
        forall|i: int| 0 <= i < r@.len() ==> (r@[i].0@, r@[i].1@) == #[trigger] signatures()[i],
{
    vec![
        ("Artifactory Token", "AKC[a-zA-Z0-9]{10,}"),
        ("Artifactory Password", "AP[0-9A-F][a-zA-Z0-9]{8,}"),
        ("MailChimp API Key", "[0-9a-f]{32}-us[0-9]{1,2}"),
        ("Mailgun API Key", "key-[0-9a-zA-Z]{32}"),
        ("Picatic API Key", "sk_live_[0-9a-z]{32}"),
        ("Slack Token", "xox[baprs]-[0-9a-zA-Z]{10,48}"),
        ("Stripe API Key", "(?:r|s)k_live_[0-9a-zA-Z]{24}"),
        ("Twilio API Key", "SK[0-9a-fA-F]{32}"),
    ]
}

/// `kind|value`.
pub fn label(kind: &str, value: &str) -> (r: String)
    ensures
        r@ == labeled(kind@, value@),
{
    let mut out = String::from_str(kind);
    out.append("|");
    out.append(value);
    out
}

/// The labeled findings of `found`, a list of kinds with their matches:
/// every match becomes `kind|value`, each once, in the order of `found` and
/// of the matches.
pub fn api_keys_from_matches(found: &Vec<(String, Vec<String>)>) -> (r: Vec<String>)
    ensures
        r.deep_view() == keys_from(found.deep_view()),
{
    let mut out: Vec<String> = Vec::new();
    let mut i: usize = 0;
    assert(out.deep_view() =~= keys_from(found.deep_view().take(0)));
    while i < found.len()
        invariant
            0 <= i <= found.len(),
            out.deep_view() == keys_from(found.deep_view().take(i as int)),
        decreases found.len() - i,
    {
        assert(found.deep_view().take(i + 1).drop_last() =~= found.deep_view().take(i as int));
        let kind = found[i].0.as_str();
        let ms = &found[i].1;
        let ghost base = out.deep_view();
        let mut j: usize = 0;
        while j < ms.len()
            invariant
                0 <= j <= ms.len(),
                i < found.len(),
                kind@ == found.deep_view()[i as int].0,
                ms.deep_view() == found.deep_view()[i as int].1,
                out.deep_view() == add_all(base, labeled_all(kind@, ms.deep_view().take(j as int))),
            decreases ms.len() - j,
        {
            let ghost done = labeled_all(kind@, ms.deep_view().take(j as int));
            assert(ms.deep_view().take(j + 1).drop_last() =~= ms.deep_view().take(j as int));
            assert(ms.deep_view().take(j + 1).last() == ms.deep_view()[j as int]);
            let finding = label(kind, ms[j].as_str());
            push_new(&mut out, finding);
            assert(done.push(finding@).drop_last() =~= done);
            j += 1;
        }
        assert(ms.deep_view().take(j as int) =~= ms.deep_view());
        i += 1;
    }
    assert(found.deep_view().take(i as int) =~= found.deep_view());
    out
}

/// The vendor secrets in `content`: every match of every pattern of the
/// signature table, written `kind|value`, each once, in table order and
/// then in first-seen order.
pub fn find_api_keys(content: &str) -> (r: Vec<String>)
    ensures
        r.deep_view() == api_keys_of(content@),
{
    let table = signature_table();
    let mut found: Vec<(String, Vec<String>)> = Vec::new();
    let mut i: usize = 0;
    while i < table.len()
        invariant
            0 <= i <= table.len(),
            table@.len() == signatures().len(),
            forall|k: int| 0 <= k < table@.len() ==> (table@[k].0@, table@[k].1@) == #[trigger] signatures()[k],
            found.deep_view() == scan_table(content@).take(i as int),
        decreases table.len() - i,
    {
        let (kind, pattern) = table[i];
        let ms = collect_matches(pattern, content);
        assert((table@[i as int].0@, table@[i as int].1@) == signatures()[i as int]);
        let ghost before = found.deep_view();
        let entry = (String::from_str(kind), ms);
        assert(entry.deep_view() == scan_table(content@)[i as int]);
        found.push(entry);
        assert(found.deep_view() =~= before.push(entry.deep_view()));
        assert(found.deep_view() =~= scan_table(content@).take(i + 1));
        i += 1;
    }
    assert(scan_table(content@).take(i as int) =~= scan_table(content@));
    api_keys_from_matches(&found)
}

/// Two labeled findings are equal exactly when their kinds and their
/// values are: for kinds without `|`, deduplicating the labeled strings is
/// deduplicating by kind and value.
pub proof fn labeled_is_by_kind_and_value(
    k1: Seq<char>,
    v1: Seq<char>,
    k2: Seq<char>,
    v2: Seq<char>,
)
    requires
        !k1.contains('|'),
        !k2.contains('|'),
    ensures
        labeled(k1, v1) == labeled(k2, v2) <==> (k1 == k2 && v1 == v2),
{
    reveal_strlit("|");
    let a = labeled(k1, v1);
    let b = labeled(k2, v2);
    if a == b {
        assert(a[k1.len() as int] == '|');
        assert(b[k2.len() as int] == '|');
        if k1.len() < k2.len() {
            assert(b[k1.len() as int] == k2[k1.len() as int]);
            assert(k2.contains(k2[k1.len() as int]));
        }
        if k2.len() < k1.len() {
            assert(a[k2.len() as int] == k1[k2.len() as int]);
            assert(k1.contains(k1[k2.len() as int]));
        }
        assert(k1 =~= a.take(k1.len() as int));
        assert(k2 =~= b.take(k2.len() as int));
        assert(v1 =~= a.skip(k1.len() as int + 1));
        assert(v2 =~= b.skip(k2.len() as int + 1));
    }
}

/// No kind of the signature table contains `|`.
pub proof fn signature_kinds_have_no_bar()
    ensures
        forall|i: int|
            0 <= i < signatures().len() ==> !(#[trigger] signatures()[i]).0.contains('|'),
{
    reveal_strlit("Artifactory Token");
    reveal_strlit("Artifactory Password");
    reveal_strlit("MailChimp API Key");
    reveal_strlit("Mailgun API Key");
    reveal_strlit("Picatic API Key");
    reveal_strlit("Slack Token");
    reveal_strlit("Stripe API Key");
    reveal_strlit("Twilio API Key");
}

} // verus!
