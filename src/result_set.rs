//! Ordered, duplicate-free collections of findings: a value is kept at the
//! place where it was first seen, later copies are dropped.

use vstd::prelude::*;

verus! {

/// `acc` with `x` added at the end, unless `acc` already holds it.
pub open spec fn insert_new(acc: Seq<Seq<char>>, x: Seq<char>) -> Seq<Seq<char>> {
    if acc.contains(x) {
        acc
    } else {
        acc.push(x)
    }
}

/// `acc` with each of `xs` added in turn by `insert_new`.
pub open spec fn add_all(acc: Seq<Seq<char>>, xs: Seq<Seq<char>>) -> Seq<Seq<char>>
    decreases xs.len(),
{
    if xs.len() == 0 {
        acc
    } else {
        insert_new(add_all(acc, xs.drop_last()), xs.last())
    }
}

/// The distinct values of `xs`, in the order of their first occurrence.
pub open spec fn first_seen(xs: Seq<Seq<char>>) -> Seq<Seq<char>> {
    add_all(Seq::empty(), xs)
}

/// Whether `set` holds a string equal to `x`.
pub fn contains_string(set: &Vec<String>, x: &String) -> (r: bool)
    ensures
        r == set.deep_view().contains(x@),
{
    let mut i: usize = 0;
    while i < set.len()
        invariant
            0 <= i <= set.len(),
            forall|j: int| 0 <= j < i ==> set.deep_view()[j] != x@,
        decreases set.len() - i,
    {
        if set[i] == *x {
            assert(set.deep_view()[i as int] == x@);
            return true;
        }
        i += 1;
    }
    assert(!set.deep_view().contains(x@)) by {
        assert forall|j: int| 0 <= j < set.deep_view().len() implies set.deep_view()[j] != x@ by {}
    }
    false
}

/// Adds `x` to `set` unless it is already there.
pub fn push_new(set: &mut Vec<String>, x: String)
    ensures
        final(set).deep_view() == insert_new(old(set).deep_view(), x@),
{
    if !contains_string(set, &x) {
        set.push(x);
        assert(final(set).deep_view() =~= old(set).deep_view().push(x@));
    }
}

/// Adds each of `items` to `set` in turn, keeping first-seen order and
/// dropping values that are already present.
pub fn merge(set: &mut Vec<String>, items: Vec<String>)
    ensures
        final(set).deep_view() == add_all(old(set).deep_view(), items.deep_view()),
{
    let ghost start = set.deep_view();
    let mut i: usize = 0;
    while i < items.len()
        invariant
            0 <= i <= items.len(),
            set.deep_view() == add_all(start, items.deep_view().take(i as int)),
        decreases items.len() - i,
    {
        assert(items.deep_view().take(i + 1).drop_last() =~= items.deep_view().take(i as int));
        push_new(set, items[i].clone());
        i += 1;
    }
    assert(items.deep_view().take(i as int) =~= items.deep_view());
}

/// Everything `add_all` keeps was in `acc` or in `xs`, and everything in
/// either is kept.
pub proof fn lemma_add_all_contains(acc: Seq<Seq<char>>, xs: Seq<Seq<char>>, y: Seq<char>)
    ensures
        add_all(acc, xs).contains(y) <==> (acc.contains(y) || xs.contains(y)),
    decreases xs.len(),
{
    if xs.len() > 0 {
        lemma_add_all_contains(acc, xs.drop_last(), y);
        let prev = add_all(acc, xs.drop_last());
        if xs.contains(y) && y != xs.last() {
            let k = choose|k: int| 0 <= k < xs.len() && xs[k] == y;
            assert(xs.drop_last()[k] == y);
        }
        if xs.drop_last().contains(y) {
            let k = choose|k: int| 0 <= k < xs.drop_last().len() && xs.drop_last()[k] == y;
            assert(xs[k] == y);
        }
        if !prev.contains(xs.last()) {
            if prev.push(xs.last()).contains(y) && y != xs.last() {
                let k = choose|k: int| 0 <= k < prev.len() + 1 && prev.push(xs.last())[k] == y;
                assert(prev[k] == y);
            }
            if prev.contains(y) {
                let k = choose|k: int| 0 <= k < prev.len() && prev[k] == y;
                assert(prev.push(xs.last())[k] == y);
            }
            assert(prev.push(xs.last())[prev.len() as int] == xs.last());
        }
        assert(xs[xs.len() - 1] == xs.last());
    }
}

/// A set built from a duplicate-free start stays duplicate-free.
pub proof fn lemma_add_all_no_duplicates(acc: Seq<Seq<char>>, xs: Seq<Seq<char>>)
    requires
        acc.no_duplicates(),
    ensures
        add_all(acc, xs).no_duplicates(),
    decreases xs.len(),
{
    if xs.len() > 0 {
        lemma_add_all_no_duplicates(acc, xs.drop_last());
        let prev = add_all(acc, xs.drop_last());
        if !prev.contains(xs.last()) {
            let next = prev.push(xs.last());
            assert forall|i: int, j: int| 0 <= i < next.len() && 0 <= j < next.len() && i != j
                implies next[i] != next[j] by {
                if j == prev.len() {
                    assert(prev[i] == next[i]);
                } else if i == prev.len() {
                    assert(prev[j] == next[j]);
                }
            }
        }
    }
}

/// Adding values that are all present already changes nothing.
pub proof fn lemma_add_all_present(acc: Seq<Seq<char>>, xs: Seq<Seq<char>>)
    requires
        forall|i: int| 0 <= i < xs.len() ==> acc.contains(#[trigger] xs[i]),
    ensures
        add_all(acc, xs) == acc,
    decreases xs.len(),
{
    if xs.len() > 0 {
        assert forall|i: int| 0 <= i < xs.drop_last().len() implies acc.contains(
            #[trigger] xs.drop_last()[i],
        ) by {
            assert(xs.drop_last()[i] == xs[i]);
        }
        lemma_add_all_present(acc, xs.drop_last());
        assert(acc.contains(xs[xs.len() - 1]));
    }
}

/// Merging the same findings a second time leaves the set as it was: a
/// repeated scan of the same text adds nothing.
pub proof fn merge_twice_is_merge_once(acc: Seq<Seq<char>>, xs: Seq<Seq<char>>)
    ensures
        add_all(add_all(acc, xs), xs) == add_all(acc, xs),
{
    assert forall|i: int| 0 <= i < xs.len() implies add_all(acc, xs).contains(#[trigger] xs[i]) by {
        lemma_add_all_contains(acc, xs, xs[i]);
        assert(xs.contains(xs[i]));
    }
    lemma_add_all_present(add_all(acc, xs), xs);
}

/// A result set holds each value at most once, and holds exactly the values
/// that were found.
pub proof fn first_seen_is_a_set(xs: Seq<Seq<char>>)
    ensures
        first_seen(xs).no_duplicates(),
        forall|y: Seq<char>| first_seen(xs).contains(y) <==> xs.contains(y),
{
    lemma_add_all_no_duplicates(Seq::empty(), xs);
    assert forall|y: Seq<char>| first_seen(xs).contains(y) <==> xs.contains(y) by {
        lemma_add_all_contains(Seq::empty(), xs, y);
    }
}

/// Merging never moves what a set already holds: earlier findings keep
/// their places, new ones come after them.
pub proof fn merge_keeps_earlier_order(acc: Seq<Seq<char>>, xs: Seq<Seq<char>>)
    ensures
        add_all(acc, xs).len() >= acc.len(),
        add_all(acc, xs).take(acc.len() as int) == acc,
    decreases xs.len(),
{
    if xs.len() > 0 {
        merge_keeps_earlier_order(acc, xs.drop_last());
        let prev = add_all(acc, xs.drop_last());
        assert(prev.push(xs.last()).take(acc.len() as int) =~= prev.take(acc.len() as int));
    }
}

} // verus!
