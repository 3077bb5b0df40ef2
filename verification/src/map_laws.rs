//! What holds of maps, and of the order of their keys.
use crate::key_laws;
use crate::maps;
use crate::maps::{ByPath, ByText, KeyOrder, OrderedMap, PathMap, TextMap};
use crate::path;
use vstd::prelude::*;
use vstd::string::*;

verus! {

/// Just the keys that have an entry are found, each with the value of its entry.
pub proof fn law_get<O: KeyOrder, V>(
    map: &OrderedMap<O, V>,
    key: &str,
    value: Option<&V>,
    is_there: bool,
    i: int,
)
    requires
        maps::ordered::<O, V>(map@),
        call_ensures(OrderedMap::<O, V>::get, (map, key), value),
        call_ensures(OrderedMap::<O, V>::contains, (map, key), is_there),
    ensures
        0 <= i < map@.len() && O::key(map@[i].0) == O::key(key@) ==> is_there && value is Some
            && *value->0 == map@[i].1,
        (forall|j: int| 0 <= j < map@.len() ==> O::key((#[trigger] map@[j]).0) != O::key(key@))
            ==> !is_there && value is None,
        is_there <==> value is Some,
{
    maps::lemma_has::<O, V>(map@, key@);
    if 0 <= i < map@.len() && O::key(map@[i].0) == O::key(key@) {
        maps::lemma_found::<O, V>(map@, key@, i);
    }
}

/// The entries of a map are those that it is made of, in their order, and can be taken out again.
pub proof fn law_entries<V>(
    entries: Vec<(String, V)>,
    map: TextMap<V>,
    back: Vec<(String, V)>,
    count: usize,
    empty: TextMap<V>,
    i: int,
)
    requires
        call_ensures(TextMap::<V>::from_entries, (entries,), map),
        call_ensures(TextMap::<V>::into_entries, (map,), back),
        call_ensures(TextMap::<V>::len, (&map,), count),
        call_ensures(TextMap::<V>::new, (), empty),
    ensures
        empty@.len() == 0,
        map@.len() == entries@.len(),
        count == entries@.len(),
        back@.len() == entries@.len(),
        0 <= i < entries@.len() ==> map@[i].0 == entries@[i].0@ && map@[i].1 == entries@[i].1,
        0 <= i < entries@.len() ==> back@[i].0@ == entries@[i].0@ && back@[i].1 == entries@[i].1,
{
    let (a, b) = (maps::entry_views(entries@), maps::entry_views(back@));
    assert(a.len() == entries@.len() && b.len() == back@.len());
    if 0 <= i < entries@.len() {
        assert(a[i] == (entries@[i].0@, entries@[i].1));
        assert(b[i] == (back@[i].0@, back@[i].1));
    }
}

/// Putting a value in adds one entry if the key had none, and none otherwise. An entry of another
/// key stays, and the key of an entry stays written as it was.
pub proof fn law_inserted_entries<O: KeyOrder, V>(
    entries: Seq<(Seq<char>, V)>,
    key: Seq<char>,
    value: V,
    i: int,
)
    requires
        maps::ordered::<O, V>(entries),
    ensures
        ({
            let after = maps::inserted::<O, V>(entries, key, value);
            &&& maps::has::<O, V>(entries, key) ==> after.len() == entries.len()
            &&& !maps::has::<O, V>(entries, key) ==> after.len() == entries.len() + 1
                && after.contains((key, value))
            &&& 0 <= i < entries.len() && O::key(entries[i].0) != O::key(key) ==> after.contains(
                entries[i],
            )
            &&& 0 <= i < entries.len() && O::key(entries[i].0) == O::key(key) ==> after.contains(
                (entries[i].0, value),
            )
        }),
{
    let after = maps::inserted::<O, V>(entries, key, value);
    let at = maps::slot::<O, V>(entries, key);
    maps::lemma_slot::<O, V>(entries, key);
    maps::lemma_has::<O, V>(entries, key);
    if maps::has::<O, V>(entries, key) {
        assert(after =~= entries.update(at, (entries[at].0, value)));
        if 0 <= i < entries.len() {
            if O::key(entries[i].0) == O::key(key) {
                maps::lemma_found::<O, V>(entries, key, i);
                assert(after[i] == (entries[i].0, value));
            } else {
                assert(i != at);
                assert(after[i] == entries[i]);
            }
        }
    } else {
        assert(after =~= entries.insert(at, (key, value)));
        assert(after[at] == (key, value));
        if 0 <= i < entries.len() {
            if i < at {
                assert(after[i] == entries[i]);
            } else {
                assert(after[i + 1] == entries[i]);
            }
        }
    }
}

/// Keys are changed one by one, each keeps its value, and where two become the same the later one
/// has its value kept.
pub proof fn law_changed_keys<V>(
    texts: TextMap<V>,
    paths: PathMap<V>,
    base: &str,
    joined: TextMap<V>,
    stripped: PathMap<V>,
    slashed: TextMap<V>,
)
    requires
        call_ensures(maps::join_keys::<V>, (texts, base), joined),
        call_ensures(maps::strip_keys::<V>, (paths, base), stripped),
        call_ensures(maps::slash_keys::<ByText, V>, (texts,), slashed),
    ensures
        key_laws::is_rekeyed::<ByText, V>(
            joined@,
            texts@,
            |key: Seq<char>| path::join_path(base@, key),
        ),
        key_laws::is_rekeyed::<ByPath, V>(
            stripped@,
            paths@,
            |key: Seq<char>|
                if path::stripped(key, base@) is Some {
                    path::stripped(key, base@)->0
                } else {
                    key
                },
        ),
        key_laws::is_rekeyed::<ByText, V>(
            slashed@,
            texts@,
            |key: Seq<char>| path::slashed(key),
        ),
{
    key_laws::law_joined_keys::<V>(texts@, base@);
    key_laws::law_stripped_keys::<V>(paths@, base@);
    key_laws::law_slashed_entries::<ByText, V>(texts@);
}

/// A copy of a map has the same texts for the same keys.
pub proof fn law_copied_texts(map: &TextMap<String>, res: TextMap<String>, i: int)
    requires
        call_ensures(maps::copy_texts, (map,), res),
    ensures
        res@.len() == map@.len(),
        0 <= i < map@.len() ==> res@[i].0 == map@[i].0 && res@[i].1@ == map@[i].1@,
{
    let (a, b) = (maps::text_entries(map@), maps::text_entries(res@));
    assert(a.len() == map@.len() && b.len() == res@.len());
    if 0 <= i < map@.len() {
        assert(a[i] == (map@[i].0, map@[i].1@) && b[i] == (res@[i].0, res@[i].1@));
    }
}

/// Sequences of numbers are ordered by the first number in which they differ, and one that another
/// one begins with comes before that.
pub proof fn law_precedes(a: Seq<u32>, b: Seq<u32>, i: int)
    requires
        0 <= i <= a.len(),
        i < b.len(),
        forall|j: int| 0 <= j < i ==> #[trigger] a[j] == b[j],
        i == a.len() || a[i] < b[i],
    ensures
        maps::precedes(a, b),
        !maps::precedes(b, a),
    decreases i,
{
    if i > 0 {
        let (x, y) = (a.drop_first(), b.drop_first());
        assert(a[0] == b[0]);
        assert forall|j: int| 0 <= j < i - 1 implies #[trigger] x[j] == y[j] by {
            assert(a[j + 1] == b[j + 1]);
        }
        law_precedes(x, y, i - 1);
    }
}

/// Whether a text comes before another one: by the first character in which they differ, or as
/// what the other one begins with.
pub open spec fn text_precedes(a: Seq<char>, b: Seq<char>, i: int) -> bool {
    &&& 0 <= i <= a.len()
    &&& i < b.len()
    &&& forall|j: int| 0 <= j < i ==> #[trigger] a[j] == b[j]
    &&& i == a.len() || a[i] < b[i]
}

/// Texts are ordered by their characters.
pub proof fn law_text_order(a: Seq<char>, b: Seq<char>, i: int)
    requires
        text_precedes(a, b, i),
    ensures
        ByText::key(a) == a,
        maps::precedes(ByText::rank(ByText::key(a)), ByText::rank(ByText::key(b))),
        !maps::precedes(ByText::rank(ByText::key(b)), ByText::rank(ByText::key(a))),
{
    let (x, y) = (maps::code_points(a), maps::code_points(b));
    assert forall|j: int| 0 <= j < i implies #[trigger] x[j] == y[j] by {
        assert(a[j] == b[j]);
    }
    if i < a.len() {
        assert(x[i] == a[i] as u32 && y[i] == b[i] as u32);
        lemma_code_points(a[i], b[i]);
    }
    law_precedes(x, y, i);
}

proof fn lemma_code_points(a: char, b: char)
    ensures
        a < b ==> (a as u32) < (b as u32),
        a < b ==> ((a as u32 + 1) as u32) < ((b as u32 + 1) as u32),
        0 < (b as u32 + 1) as u32,
{
}

proof fn lemma_path_rank_split(list: Seq<Seq<char>>, i: int)
    requires
        0 <= i <= list.len(),
    ensures
        maps::path_rank(list) == maps::path_rank(list.take(i)) + maps::path_rank(list.skip(i)),
    decreases list.len() - i,
{
    if i == list.len() {
        assert(list.take(i) =~= list);
        assert(list.skip(i) =~= Seq::<Seq<char>>::empty());
        assert(maps::path_rank(list) =~= maps::path_rank(list.take(i)) + maps::path_rank(
            list.skip(i),
        ));
    } else {
        lemma_path_rank_split(list, i + 1);
        let rest = list.skip(i);
        maps::lemma_path_rank_first(rest);
        assert(rest.skip(1) =~= list.skip(i + 1));
        assert(list.take(i + 1).drop_last() =~= list.take(i));
        assert(list.take(i + 1).last() == list[i]);
        assert(maps::path_rank(list) =~= maps::path_rank(list.take(i)) + maps::path_rank(rest));
    }
}

/// Which kind of component comes first: the root directory, then the current directory, then the
/// parent directory, then names.
pub open spec fn kind(component: Seq<char>) -> int {
    if component == "/"@ {
        1
    } else if component == "."@ {
        2
    } else if component == ".."@ {
        3
    } else {
        4
    }
}

/// Paths are ordered component by component: by the first in which they differ, or as what the
/// other one begins with. Components are ordered by their kinds, and names by their characters.
pub proof fn law_path_order(a: Seq<char>, b: Seq<char>, i: int, k: int)
    requires
        0 <= i <= path::components(a).len(),
        i < path::components(b).len(),
        forall|j: int|
            0 <= j < i ==> #[trigger] path::components(a)[j] == path::components(b)[j],
        i == path::components(a).len() || kind(path::components(a)[i]) < kind(
            path::components(b)[i],
        ) || (kind(path::components(a)[i]) == 4 && kind(path::components(b)[i]) == 4
            && text_precedes(path::components(a)[i], path::components(b)[i], k)),
    ensures
        maps::precedes(ByPath::rank(ByPath::key(a)), ByPath::rank(ByPath::key(b))),
        !maps::precedes(ByPath::rank(ByPath::key(b)), ByPath::rank(ByPath::key(a))),
{
    reveal_strlit("/");
    reveal_strlit(".");
    reveal_strlit("..");
    assert("/"@ =~= path::root_dir());
    assert("."@ =~= path::cur_dir());
    assert(".."@ =~= path::parent_dir());
    let (x, y) = (path::components(a), path::components(b));
    lemma_path_rank_split(x, i);
    lemma_path_rank_split(y, i);
    assert(x.take(i) =~= y.take(i));
    let common = maps::path_rank(x.take(i));
    let (p, q) = (maps::path_rank(x), maps::path_rank(y));
    let n = common.len() as int;
    maps::lemma_path_rank_first(y.skip(i));
    let second = maps::component_rank(y[i]);
    assert(y.skip(i)[0] == y[i]);
    assert(second.len() > 0);
    assert(q[n] == second[0]);
    if i == x.len() {
        assert(x.skip(i) =~= Seq::<Seq<char>>::empty());
        assert(p =~= common);
        law_precedes(p, q, n);
    } else {
        maps::lemma_path_rank_first(x.skip(i));
        assert(x.skip(i)[0] == x[i]);
        let first = maps::component_rank(x[i]);
        assert(first.len() > 0);
        assert(p[n] == first[0]);
        if kind(x[i]) < kind(y[i]) {
            law_precedes(p, q, n);
        } else {
            let (c, d) = (x[i], y[i]);
            let change = |c: char| (c as u32 + 1) as u32;
            assert(first =~= seq![4u32] + c.map_values(change).push(0u32));
            assert(second =~= seq![4u32] + d.map_values(change).push(0u32));
            assert forall|j: int| 0 <= j < n + 1 + k implies #[trigger] p[j] == q[j] by {
                if j > n {
                    assert(p[j] == first[j - n] && q[j] == second[j - n]);
                    assert(c[j - n - 1] == d[j - n - 1]);
                } else if j < n {
                    assert(p[j] == common[j] && q[j] == common[j]);
                }
            }
            assert(p[n + 1 + k] == first[1 + k]);
            assert(q[n + 1 + k] == second[1 + k]);
            if k < c.len() {
                assert(first[1 + k] == change(c[k]) && second[1 + k] == change(d[k]));
                lemma_code_points(c[k], d[k]);
            } else {
                assert(first[1 + k] == 0u32);
                assert(second[1 + k] == change(d[k]));
                lemma_code_points(d[k], d[k]);
            }
            law_precedes(p, q, n + 1 + k);
        }
    }
}

} // verus!
