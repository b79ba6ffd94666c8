//! Lists of keyed entries that are searched from the front, and a fact on
//! filtered lists that their proofs share.

use vstd::prelude::*;

verus! {

/// The value of the first entry of `pairs` under `key`, if there is one.
pub open spec fn first_of<K, V>(pairs: Seq<(K, V)>, key: K) -> Option<V>
    decreases pairs.len(),
{
    if pairs.len() == 0 {
        None
    } else if pairs[0].0 == key {
        Some(pairs[0].1)
    } else {
        first_of(pairs.drop_first(), key)
    }
}

/// A search in two lists one after the other finds what the first list
/// holds, and falls back to the second.
pub proof fn lemma_first_of_concat<K, V>(a: Seq<(K, V)>, b: Seq<(K, V)>, key: K)
    ensures
        first_of(a + b, key) == (match first_of(a, key) {
            Some(v) => Some(v),
            None => first_of(b, key),
        }),
    decreases a.len(),
{
    if a.len() == 0 {
        assert(a + b =~= b);
    } else {
        assert((a + b).drop_first() =~= a.drop_first() + b);
        assert((a + b)[0] == a[0]);
        if a[0].0 != key {
            lemma_first_of_concat(a.drop_first(), b, key);
        }
    }
}

/// A search in a list of one entry.
pub proof fn lemma_first_of_one<K, V>(entry: (K, V), key: K)
    ensures
        first_of(seq![entry], key) == if entry.0 == key {
            Some(entry.1)
        } else {
            None
        },
{
    assert(seq![entry].drop_first() =~= Seq::<(K, V)>::empty());
    assert(first_of(Seq::<(K, V)>::empty(), key) is None);
    assert(first_of(seq![entry].drop_first(), key) is None);
}

/// A search answers with a listed entry, and misses only keys that are not
/// listed.
pub proof fn lemma_first_of_listed<K, V>(pairs: Seq<(K, V)>, key: K)
    ensures
        match first_of(pairs, key) {
            Some(v) => exists|i: int| 0 <= i < pairs.len() && #[trigger] pairs[i] == (key, v),
            None => forall|i: int| 0 <= i < pairs.len() ==> (#[trigger] pairs[i]).0 != key,
        },
    decreases pairs.len(),
{
    if pairs.len() > 0 {
        if pairs[0].0 == key {
            assert(pairs[0] == (key, pairs[0].1));
        } else {
            let rest = pairs.drop_first();
            lemma_first_of_listed(rest, key);
            match first_of(rest, key) {
                Some(v) => {
                    let i = choose|i: int| 0 <= i < rest.len() && #[trigger] rest[i] == (key, v);
                    assert(pairs[i + 1] == (key, v));
                },
                None => {
                    assert forall|i: int| 0 <= i < pairs.len() implies (#[trigger] pairs[i]).0
                        != key by {
                        if i > 0 {
                            assert(rest[i - 1] == pairs[i]);
                        }
                    }
                },
            }
        }
    }
}

/// A new entry changes no search for another key, and answers the search for
/// its own key where that key was not listed before.
pub proof fn lemma_first_of_insert<K, V>(pairs: Seq<(K, V)>, j: int, key: K, value: V, other: K)
    requires
        0 <= j <= pairs.len(),
    ensures
        other != key ==> first_of(pairs.insert(j, (key, value)), other) == first_of(pairs, other),
        first_of(pairs, key) is None ==> first_of(pairs.insert(j, (key, value)), key) == Some(
            value,
        ),
        first_of(pairs, key) is Some ==> first_of(pairs.insert(j, (key, value)), key) is Some,
    decreases pairs.len(),
{
    let grown = pairs.insert(j, (key, value));
    if j == 0 {
        assert(grown.drop_first() =~= pairs);
    } else {
        assert(grown[0] == pairs[0]);
        assert(grown.drop_first() =~= pairs.drop_first().insert(j - 1, (key, value)));
        lemma_first_of_insert(pairs.drop_first(), j - 1, key, value, other);
    }
}

/// A filter that no entry passes leaves nothing.
pub proof fn lemma_filter_none<A>(s: Seq<A>, pred: spec_fn(A) -> bool)
    requires
        forall|i: int| 0 <= i < s.len() ==> !pred(#[trigger] s[i]),
    ensures
        s.filter(pred) == Seq::<A>::empty(),
    decreases s.len(),
{
    if s.len() == 0 {
        assert(s.filter(pred) =~= Seq::<A>::empty()) by {
            reveal(Seq::filter);
        }
    } else {
        let front = s.drop_last();
        assert forall|i: int| 0 <= i < front.len() implies !pred(#[trigger] front[i]) by {
            assert(front[i] == s[i]);
        }
        lemma_filter_none(front, pred);
        assert(s =~= front.push(s.last()));
        front.lemma_filter_push(s.last(), pred);
        assert(!pred(s[s.len() - 1]));
    }
}

/// A filter keeps the order of what passes: two entries of the filtered
/// list stand in the same order in the list they were taken from.
pub proof fn lemma_filter_keeps_order<A>(s: Seq<A>, pred: spec_fn(A) -> bool, i: int, j: int)
    requires
        0 <= i < j < s.filter(pred).len(),
    ensures
        exists|a: int, b: int|
            0 <= a < b < s.len() && #[trigger] s[a] == s.filter(pred)[i] && #[trigger] s[b]
                == s.filter(pred)[j],
    decreases s.len(),
{
    if s.len() == 0 {
        assert(s.filter(pred).len() == 0) by {
            reveal(Seq::filter);
        }
    } else {
        let front = s.drop_last();
        let kept = front.filter(pred);
        assert(s =~= front.push(s.last()));
        front.lemma_filter_push(s.last(), pred);
        if pred(s.last()) && j == kept.len() {
            assert(kept.contains(kept[i]));
            front.lemma_filter_contains_rev(pred, kept[i]);
            let a = choose|a: int| 0 <= a < front.len() && front[a] == kept[i];
            assert(s[a] == s.filter(pred)[i]);
            assert(s[s.len() - 1] == s.filter(pred)[j]);
        } else {
            lemma_filter_keeps_order(front, pred, i, j);
            let (a, b) = choose|a: int, b: int|
                0 <= a < b < front.len() && #[trigger] front[a] == kept[i] && #[trigger] front[b]
                    == kept[j];
            assert(s[a] == s.filter(pred)[i]);
            assert(s[b] == s.filter(pred)[j]);
        }
    }
}

} // verus!
