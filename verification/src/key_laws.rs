//! What holds of maps that are put together, or whose keys are changed.
use crate::maps;
use crate::maps::{ByPath, ByText, KeyOrder};
use crate::path;
use vstd::prelude::*;

verus! {

/// A map that others are put into has, for each key, what they have for it, and what it had itself
/// where they have nothing.
pub proof fn law_extended<O: KeyOrder, V>(
    entries: Seq<(Seq<char>, V)>,
    others: Seq<(Seq<char>, V)>,
    key: Seq<char>,
)
    requires
        maps::ordered::<O, V>(entries),
        maps::ordered::<O, V>(others),
    ensures
        maps::ordered::<O, V>(maps::extended::<O, V>(entries, others)),
        maps::found::<O, V>(maps::extended::<O, V>(entries, others), key) == (
        match maps::found::<O, V>(others, key) {
            Some(value) => Some(value),
            None => maps::found::<O, V>(entries, key),
        }),
    decreases others.len(),
{
    if others.len() > 0 {
        let rest = others.drop_last();
        let last = others.last();
        assert(rest.push((last.0, last.1)) =~= others);
        maps::lemma_inserted_last::<O, V>(rest, last.0, last.1);
        law_extended::<O, V>(entries, rest, key);
        let before = maps::extended::<O, V>(entries, rest);
        maps::law_inserted::<O, V>(before, last.0, last.1, key);
        maps::law_inserted::<O, V>(rest, last.0, last.1, key);
        if O::key(last.0) == O::key(key) {
            let n = others.len() - 1;
            assert(others[n] == last);
            maps::lemma_found::<O, V>(others, key, n);
            let all = maps::extended::<O, V>(entries, others);
            maps::lemma_slot::<O, V>(all, last.0);
            let at = maps::slot::<O, V>(all, last.0);
            assert(O::key(all[at].0) == O::key(key));
            maps::lemma_found::<O, V>(all, key, at);
        }
    }
}

/// The entries with each key changed. Where two keys become the same, the later entry stays.
spec fn rekeyed<O: KeyOrder, V>(
    entries: Seq<(Seq<char>, V)>,
    change: spec_fn(Seq<char>) -> Seq<char>,
) -> Seq<(Seq<char>, V)>
    decreases entries.len(),
{
    if entries.len() == 0 {
        Seq::empty()
    } else {
        maps::inserted::<O, V>(
            rekeyed::<O, V>(entries.drop_last(), change),
            change(entries.last().0),
            entries.last().1,
        )
    }
}

/// Whether each entry comes from one of the others by a change of its key, and the last of those
/// that get the same key is found under it.
pub open spec fn is_rekeyed<O: KeyOrder, V>(
    res: Seq<(Seq<char>, V)>,
    entries: Seq<(Seq<char>, V)>,
    change: spec_fn(Seq<char>) -> Seq<char>,
) -> bool {
    &&& maps::ordered::<O, V>(res)
    &&& forall|k: int|
        #![trigger res[k]]
        0 <= k < res.len() ==> {
            &&& exists|i: int| 0 <= i < entries.len() && res[k].0 == change((#[trigger] entries[i]).0)
            &&& exists|i: int|
                0 <= i < entries.len() && O::key(res[k].0) == O::key(
                    change((#[trigger] entries[i]).0),
                ) && res[k].1 == entries[i].1
        }
    &&& forall|i: int|
        #![trigger entries[i]]
        0 <= i < entries.len() && (forall|j: int|
            i < j < entries.len() ==> O::key(change((#[trigger] entries[j]).0)) != O::key(
                change(entries[i].0),
            )) ==> maps::found::<O, V>(res, change(entries[i].0)) == Some(entries[i].1)
}

proof fn lemma_rekeyed<O: KeyOrder, V>(
    entries: Seq<(Seq<char>, V)>,
    change: spec_fn(Seq<char>) -> Seq<char>,
)
    ensures
        is_rekeyed::<O, V>(rekeyed::<O, V>(entries, change), entries, change),
{
    let res = rekeyed::<O, V>(entries, change);
    lemma_rekeyed_ordered::<O, V>(entries, change);
    assert forall|k: int| #![trigger res[k]] 0 <= k < res.len() implies {
        &&& exists|i: int| 0 <= i < entries.len() && res[k].0 == change((#[trigger] entries[i]).0)
        &&& exists|i: int|
            0 <= i < entries.len() && O::key(res[k].0) == O::key(change((#[trigger] entries[i]).0))
                && res[k].1 == entries[i].1
    } by {
        let (i, j) = lemma_rekeyed_origin::<O, V>(entries, change, k);
        assert(res[k].0 == change(entries[i].0));
        assert(res[k].1 == entries[j].1);
    }
    assert forall|i: int|
        #![trigger entries[i]]
        0 <= i < entries.len() && (forall|j: int|
            i < j < entries.len() ==> O::key(change((#[trigger] entries[j]).0)) != O::key(
                change(entries[i].0),
            )) implies maps::found::<O, V>(res, change(entries[i].0)) == Some(entries[i].1) by {
        lemma_rekeyed_found::<O, V>(entries, change, i);
    }
}

proof fn lemma_rekeyed_ordered<O: KeyOrder, V>(
    entries: Seq<(Seq<char>, V)>,
    change: spec_fn(Seq<char>) -> Seq<char>,
)
    ensures
        maps::ordered::<O, V>(rekeyed::<O, V>(entries, change)),
    decreases entries.len(),
{
    if entries.len() > 0 {
        let rest = entries.drop_last();
        let key = change(entries.last().0);
        lemma_rekeyed_ordered::<O, V>(rest, change);
        maps::law_inserted::<O, V>(rekeyed::<O, V>(rest, change), key, entries.last().1, key);
    }
}

/// The entries that the key and the value of a changed entry come from.
proof fn lemma_rekeyed_origin<O: KeyOrder, V>(
    entries: Seq<(Seq<char>, V)>,
    change: spec_fn(Seq<char>) -> Seq<char>,
    k: int,
) -> (origin: (int, int))
    requires
        0 <= k < rekeyed::<O, V>(entries, change).len(),
    ensures
        0 <= origin.0 < entries.len(),
        0 <= origin.1 < entries.len(),
        rekeyed::<O, V>(entries, change)[k].0 == change(entries[origin.0].0),
        O::key(rekeyed::<O, V>(entries, change)[k].0) == O::key(change(entries[origin.1].0)),
        rekeyed::<O, V>(entries, change)[k].1 == entries[origin.1].1,
    decreases entries.len(),
{
    let res = rekeyed::<O, V>(entries, change);
    let rest = entries.drop_last();
    let n = entries.len() - 1;
    let before = rekeyed::<O, V>(rest, change);
    let key = change(entries[n].0);
    lemma_rekeyed_ordered::<O, V>(rest, change);
    maps::lemma_slot::<O, V>(before, key);
    let at = maps::slot::<O, V>(before, key);
    if k == at && res.len() > before.len() {
        (n, n)
    } else {
        let from = if res.len() > before.len() && k > at {
            k - 1
        } else {
            k
        };
        assert(res[k].0 == before[from].0);
        let (i, j) = lemma_rekeyed_origin::<O, V>(rest, change, from);
        assert(rest[i] == entries[i] && rest[j] == entries[j]);
        if k == at {
            (i, n)
        } else {
            (i, j)
        }
    }
}

proof fn lemma_rekeyed_found<O: KeyOrder, V>(
    entries: Seq<(Seq<char>, V)>,
    change: spec_fn(Seq<char>) -> Seq<char>,
    i: int,
)
    requires
        0 <= i < entries.len(),
        forall|j: int|
            i < j < entries.len() ==> O::key(change((#[trigger] entries[j]).0)) != O::key(
                change(entries[i].0),
            ),
    ensures
        maps::found::<O, V>(rekeyed::<O, V>(entries, change), change(entries[i].0)) == Some(
            entries[i].1,
        ),
    decreases entries.len(),
{
    let rest = entries.drop_last();
    let n = entries.len() - 1;
    let before = rekeyed::<O, V>(rest, change);
    let key = change(entries[n].0);
    lemma_rekeyed_ordered::<O, V>(rest, change);
    maps::law_inserted::<O, V>(before, key, entries[n].1, change(entries[i].0));
    if i < n {
        assert(rest[i] == entries[i]);
        assert forall|j: int| i < j < rest.len() implies O::key(change((#[trigger] rest[j]).0))
            != O::key(change(rest[i].0)) by {
            assert(rest[j] == entries[j]);
        }
        lemma_rekeyed_found::<O, V>(rest, change, i);
        assert(O::key(change(entries[n].0)) != O::key(change(entries[i].0)));
    }
}

/// Joining the keys of a map to a path changes each key so, keeps the values, and loses an entry
/// only where a later one gets the same key.
pub proof fn law_joined_keys<V>(entries: Seq<(Seq<char>, V)>, root: Seq<char>)
    ensures
        is_rekeyed::<ByText, V>(
            maps::joined_keys(entries, root),
            entries,
            |key: Seq<char>| path::join_path(root, key),
        ),
{
    let change = |key: Seq<char>| path::join_path(root, key);
    lemma_joined_is_rekeyed(entries, root, change);
    lemma_rekeyed::<ByText, V>(entries, change);
}

proof fn lemma_joined_is_rekeyed<V>(
    entries: Seq<(Seq<char>, V)>,
    root: Seq<char>,
    change: spec_fn(Seq<char>) -> Seq<char>,
)
    requires
        forall|key: Seq<char>| #[trigger] change(key) == path::join_path(root, key),
    ensures
        maps::joined_keys(entries, root) == rekeyed::<ByText, V>(entries, change),
    decreases entries.len(),
{
    if entries.len() > 0 {
        lemma_joined_is_rekeyed(entries.drop_last(), root, change);
        assert(change(entries.last().0) == path::join_path(root, entries.last().0));
    }
}

/// Taking a path off the keys of a map changes each key that it is in front of so, leaves the
/// others, keeps the values, and loses an entry only where a later one gets the same key.
pub proof fn law_stripped_keys<V>(entries: Seq<(Seq<char>, V)>, base: Seq<char>)
    ensures
        is_rekeyed::<ByPath, V>(
            maps::stripped_keys(entries, base),
            entries,
            |key: Seq<char>|
                if path::stripped(key, base) is Some {
                    path::stripped(key, base)->0
                } else {
                    key
                },
        ),
{
    let change = |key: Seq<char>|
        if path::stripped(key, base) is Some {
            path::stripped(key, base)->0
        } else {
            key
        };
    lemma_stripped_is_rekeyed(entries, base, change);
    lemma_rekeyed::<ByPath, V>(entries, change);
}

proof fn lemma_stripped_is_rekeyed<V>(
    entries: Seq<(Seq<char>, V)>,
    base: Seq<char>,
    change: spec_fn(Seq<char>) -> Seq<char>,
)
    requires
        forall|key: Seq<char>|
            #[trigger] change(key) == (if path::stripped(key, base) is Some {
                path::stripped(key, base)->0
            } else {
                key
            }),
    ensures
        maps::stripped_keys(entries, base) == rekeyed::<ByPath, V>(entries, change),
    decreases entries.len(),
{
    if entries.len() > 0 {
        lemma_stripped_is_rekeyed(entries.drop_last(), base, change);
        let key = entries.last().0;
        assert(change(key) == (if path::stripped(key, base) is Some {
            path::stripped(key, base)->0
        } else {
            key
        }));
    }
}

/// Slashing the keys of a map changes each key so, keeps the values, and loses an entry only where
/// a later one gets the same key.
pub proof fn law_slashed_entries<O: KeyOrder, V>(entries: Seq<(Seq<char>, V)>)
    ensures
        is_rekeyed::<O, V>(
            maps::slashed_keys::<O, V>(entries),
            entries,
            |key: Seq<char>| path::slashed(key),
        ),
{
    let change = |key: Seq<char>| path::slashed(key);
    lemma_slashed_is_rekeyed::<O, V>(entries, change);
    lemma_rekeyed::<O, V>(entries, change);
}

proof fn lemma_slashed_is_rekeyed<O: KeyOrder, V>(
    entries: Seq<(Seq<char>, V)>,
    change: spec_fn(Seq<char>) -> Seq<char>,
)
    requires
        forall|key: Seq<char>| #[trigger] change(key) == path::slashed(key),
    ensures
        maps::slashed_keys::<O, V>(entries) == rekeyed::<O, V>(entries, change),
    decreases entries.len(),
{
    if entries.len() > 0 {
        lemma_slashed_is_rekeyed::<O, V>(entries.drop_last(), change);
        assert(change(entries.last().0) == path::slashed(entries.last().0));
    }
}

/// A list of a map has one more item where it is pushed, and all other lists are as before.
pub proof fn law_pushed<O: KeyOrder, T>(
    entries: Seq<(Seq<char>, Seq<T>)>,
    key: Seq<char>,
    item: T,
    other: Seq<char>,
)
    requires
        maps::ordered::<O, Seq<T>>(entries),
    ensures
        maps::ordered::<O, Seq<T>>(maps::pushed::<O, T>(entries, key, item)),
        maps::found::<O, Seq<T>>(maps::pushed::<O, T>(entries, key, item), key) == Some(
            match maps::found::<O, Seq<T>>(entries, key) {
                Some(list) => list.push(item),
                None => seq![item],
            },
        ),
        O::key(other) != O::key(key) ==> maps::found::<O, Seq<T>>(
            maps::pushed::<O, T>(entries, key, item),
            other,
        ) == maps::found::<O, Seq<T>>(entries, other),
{
    maps::law_inserted::<O, Seq<T>>(
        entries,
        key,
        maps::list_of::<O, T>(entries, key).push(item),
        other,
    );
    assert(Seq::<T>::empty().push(item) =~= seq![item]);
}

} // verus!
