//! Maps and sets that keep their keys in order.
//!
//! A map is a list of entries in the order of their keys, without two entries for the same
//! key. Keys are texts or paths: texts are ordered by their characters, paths component by
//! component.
use crate::path;
use crate::text;
use std::marker::PhantomData;
use vstd::prelude::*;
use vstd::string::*;

verus! {

/// The order of a map's keys.
///
/// A key is written as a text. The text is mapped to what it stands for, and that to a
/// sequence of numbers: keys are ordered as these sequences are, number by number.
pub trait KeyOrder {
    type Key;

    /// What a key stands for
    spec fn key(written: Seq<char>) -> Self::Key;

    /// The numbers by which keys are ordered
    spec fn rank(key: Self::Key) -> Seq<u32>;

    /// Keys with the same rank are the same key.
    proof fn rank_tells_keys_apart(a: Seq<char>, b: Seq<char>)
        requires
            Self::rank(Self::key(a)) == Self::rank(Self::key(b)),
        ensures
            Self::key(a) == Self::key(b),
    ;

    fn rank_of(written: &str) -> (res: Vec<u32>)
        ensures
            res@ == Self::rank(Self::key(written@)),
    ;
}

/// Whether a sequence of numbers comes before another one.
pub open spec fn precedes(a: Seq<u32>, b: Seq<u32>) -> bool
    decreases a.len(),
{
    if b.len() == 0 {
        false
    } else if a.len() == 0 {
        true
    } else if a[0] != b[0] {
        a[0] < b[0]
    } else {
        precedes(a.drop_first(), b.drop_first())
    }
}

proof fn lemma_precedes_irreflexive(a: Seq<u32>)
    ensures
        !precedes(a, a),
    decreases a.len(),
{
    if a.len() > 0 {
        lemma_precedes_irreflexive(a.drop_first());
    }
}

proof fn lemma_precedes_transitive(a: Seq<u32>, b: Seq<u32>, c: Seq<u32>)
    requires
        precedes(a, b),
        precedes(b, c),
    ensures
        precedes(a, c),
    decreases a.len(),
{
    if a.len() > 0 && a[0] == b[0] && b[0] == c[0] {
        lemma_precedes_transitive(a.drop_first(), b.drop_first(), c.drop_first());
    }
}

proof fn lemma_precedes_total(a: Seq<u32>, b: Seq<u32>)
    ensures
        precedes(a, b) || precedes(b, a) || a == b,
    decreases a.len(),
{
    if a.len() > 0 && b.len() > 0 {
        if a[0] == b[0] {
            lemma_precedes_total(a.drop_first(), b.drop_first());
            assert(a =~= seq![a[0]] + a.drop_first());
            assert(b =~= seq![b[0]] + b.drop_first());
        }
    } else if a.len() == 0 && b.len() == 0 {
        assert(a =~= b);
    }
}

/// The order of two keys.
#[derive(Clone, Copy, PartialEq, Eq, Structural)]
enum Place {
    Before,
    Same,
    After,
}

fn compare_ranks(a: &Vec<u32>, b: &Vec<u32>) -> (res: Place)
    ensures
        match res {
            Place::Before => precedes(a@, b@),
            Place::Same => a@ == b@,
            Place::After => precedes(b@, a@),
        },
{
    let mut i: usize = 0;
    assert(a@.skip(0) =~= a@ && b@.skip(0) =~= b@);
    while i < a.len() && i < b.len()
        invariant
            i <= a.len(),
            i <= b.len(),
            a@.take(i as int) == b@.take(i as int),
            precedes(a@.skip(i as int), b@.skip(i as int)) == precedes(a@, b@),
            precedes(b@.skip(i as int), a@.skip(i as int)) == precedes(b@, a@),
        decreases a.len() - i,
    {
        let ghost x = a@.skip(i as int);
        let ghost y = b@.skip(i as int);
        if a[i] != b[i] {
            return if a[i] < b[i] {
                Place::Before
            } else {
                Place::After
            };
        }
        assert(x.drop_first() =~= a@.skip(i + 1));
        assert(y.drop_first() =~= b@.skip(i + 1));
        assert(a@.take(i + 1) =~= a@.take(i as int).push(a@[i as int]));
        assert(b@.take(i + 1) =~= b@.take(i as int).push(b@[i as int]));
        i = i + 1;
    }
    if i < b.len() {
        Place::Before
    } else if i < a.len() {
        Place::After
    } else {
        assert(a@.take(i as int) =~= a@);
        assert(b@.take(i as int) =~= b@);
        Place::Same
    }
}

/// A character's code point.
fn code_point(c: char) -> (res: u32)
    ensures
        res == c as u32,
        res <= 0x10FFFF,
{
    c as u32
}

proof fn lemma_code_points_apart(a: char, b: char)
    ensures
        a as u32 <= 0x10FFFF,
        b as u32 <= 0x10FFFF,
        (a as u32 + 1) as u32 == a as u32 + 1,
        (b as u32 + 1) as u32 == b as u32 + 1,
        a as u32 == b as u32 ==> a == b,
{
}

/// Keys that are ordered by their characters.
pub struct ByText;

/// The code points of a text.
pub open spec fn code_points(s: Seq<char>) -> Seq<u32> {
    s.map_values(|c: char| c as u32)
}

impl KeyOrder for ByText {
    type Key = Seq<char>;

    open spec fn key(written: Seq<char>) -> Seq<char> {
        written
    }

    open spec fn rank(key: Seq<char>) -> Seq<u32> {
        code_points(key)
    }

    proof fn rank_tells_keys_apart(a: Seq<char>, b: Seq<char>) {
        let x = code_points(a);
        let y = code_points(b);
        assert(x.len() == a.len() && y.len() == b.len());
        assert forall|i: int| 0 <= i < a.len() implies a[i] == b[i] by {
            assert(x[i] == a[i] as u32 && y[i] == b[i] as u32);
            lemma_code_points_apart(a[i], b[i]);
        }
        assert(a =~= b);
    }

    fn rank_of(written: &str) -> (res: Vec<u32>) {
        let chars = text::chars_of(written);
        let mut res: Vec<u32> = Vec::new();
        let mut i: usize = 0;
        while i < chars.len()
            invariant
                chars@ == written@,
                i <= chars.len(),
                res@ =~= code_points(written@.take(i as int)),
            decreases chars.len() - i,
        {
            assert(written@.take(i + 1) =~= written@.take(i as int).push(written@[i as int]));
            res.push(code_point(chars[i]));
            i = i + 1;
        }
        assert(written@.take(i as int) =~= written@);
        res
    }
}

/// Keys that are paths, ordered component by component.
pub struct ByPath;

/// The numbers by which a component is ordered: the root directory first, then the current
/// and the parent directory, then names by their characters.
pub open spec fn component_rank(component: Seq<char>) -> Seq<u32> {
    if component == path::root_dir() {
        seq![1u32]
    } else if component == path::cur_dir() {
        seq![2u32]
    } else if component == path::parent_dir() {
        seq![3u32]
    } else {
        seq![4u32] + component.map_values(|c: char| (c as u32 + 1) as u32).push(0u32)
    }
}

/// The numbers by which components are ordered.
pub open spec fn path_rank(components: Seq<Seq<char>>) -> Seq<u32>
    decreases components.len(),
{
    if components.len() == 0 {
        Seq::empty()
    } else {
        path_rank(components.drop_last()) + component_rank(components.last())
    }
}

/// The numbers of the first component stand in front of those of all others.
pub proof fn lemma_path_rank_first(list: Seq<Seq<char>>)
    requires
        list.len() > 0,
    ensures
        path_rank(list) == component_rank(list[0]) + path_rank(list.skip(1)),
    decreases list.len(),
{
    reveal_with_fuel(path_rank, 2);
    if list.len() == 1 {
        assert(list.drop_last() =~= Seq::<Seq<char>>::empty());
        assert(list.skip(1) =~= Seq::<Seq<char>>::empty());
        assert(path_rank(list) =~= component_rank(list[0]) + path_rank(list.skip(1)));
    } else {
        lemma_path_rank_first(list.drop_last());
        assert(list.drop_last().skip(1) =~= list.skip(1).drop_last());
        assert(path_rank(list) =~= component_rank(list[0]) + path_rank(list.skip(1)));
    }
}

proof fn lemma_component_rank_apart(a: Seq<char>, x: Seq<u32>, b: Seq<char>, y: Seq<u32>)
    requires
        component_rank(a) + x == component_rank(b) + y,
    ensures
        a == b,
        x == y,
{
    let (ra, rb) = (component_rank(a), component_rank(b));
    let (s, t) = (ra + x, rb + y);
    assert(s[0] == ra[0] && t[0] == rb[0]);
    if ra[0] == 4 {
        assert forall|i: int| 0 <= i < a.len() implies s[i + 1] == (a[i] as u32 + 1) as u32 by {}
        assert forall|i: int| 0 <= i < b.len() implies t[i + 1] == (b[i] as u32 + 1) as u32 by {}
        assert(s[a.len() as int + 1] == 0);
        assert(t[b.len() as int + 1] == 0);
        if a.len() < b.len() {
            lemma_code_points_apart(b[a.len() as int], b[a.len() as int]);
            assert(t[a.len() as int + 1] == (b[a.len() as int] as u32 + 1) as u32);
        } else if b.len() < a.len() {
            lemma_code_points_apart(a[b.len() as int], a[b.len() as int]);
            assert(s[b.len() as int + 1] == (a[b.len() as int] as u32 + 1) as u32);
        }
        assert forall|i: int| 0 <= i < a.len() implies a[i] == b[i] by {
            assert(s[i + 1] == t[i + 1]);
            lemma_code_points_apart(a[i], b[i]);
        }
        assert(a =~= b);
    }
    assert(ra == rb);
    assert(x.len() == y.len());
    assert forall|i: int| 0 <= i < x.len() implies x[i] == y[i] by {
        assert(s[ra.len() + i] == x[i] && t[rb.len() + i] == y[i]);
    }
    assert(x =~= y);
}

proof fn lemma_path_rank_apart(a: Seq<Seq<char>>, b: Seq<Seq<char>>)
    requires
        path_rank(a) == path_rank(b),
    ensures
        a == b,
    decreases a.len(),
{
    if a.len() > 0 {
        lemma_path_rank_first(a);
        assert(component_rank(a[0]).len() > 0);
        if b.len() == 0 {
            assert(path_rank(b).len() == 0);
        } else {
            lemma_path_rank_first(b);
            lemma_component_rank_apart(a[0], path_rank(a.skip(1)), b[0], path_rank(b.skip(1)));
            lemma_path_rank_apart(a.skip(1), b.skip(1));
            assert(a =~= seq![a[0]] + a.skip(1));
            assert(b =~= seq![b[0]] + b.skip(1));
        }
    } else {
        if b.len() > 0 {
            lemma_path_rank_first(b);
            assert(component_rank(b[0]).len() > 0);
        }
        assert(a =~= b);
    }
}

fn push_component_rank(res: &mut Vec<u32>, component: &str)
    ensures
        final(res)@ == old(res)@ + component_rank(component@),
{
    proof {
        reveal_strlit("/");
        reveal_strlit(".");
        reveal_strlit("..");
        assert("/"@ =~= path::root_dir());
        assert("."@ =~= path::cur_dir());
        assert(".."@ =~= path::parent_dir());
    }
    let ghost before = res@;
    if text::equal(component, "/") {
        res.push(1);
    } else if text::equal(component, ".") {
        res.push(2);
    } else if text::equal(component, "..") {
        res.push(3);
    } else {
        res.push(4);
        let chars = text::chars_of(component);
        let ghost codes = component@.map_values(|c: char| (c as u32 + 1) as u32);
        let mut i: usize = 0;
        while i < chars.len()
            invariant
                chars@ == component@,
                codes == component@.map_values(|c: char| (c as u32 + 1) as u32),
                i <= chars.len(),
                res@ =~= before.push(4u32) + codes.take(i as int),
            decreases chars.len() - i,
        {
            let c: u32 = code_point(chars[i]);
            res.push(c + 1);
            assert(codes.take(i + 1) =~= codes.take(i as int).push(codes[i as int]));
            i = i + 1;
        }
        res.push(0);
    }
    assert(res@ =~= before + component_rank(component@));
}

impl KeyOrder for ByPath {
    type Key = Seq<Seq<char>>;

    open spec fn key(written: Seq<char>) -> Seq<Seq<char>> {
        path::components(written)
    }

    open spec fn rank(key: Seq<Seq<char>>) -> Seq<u32> {
        path_rank(key)
    }

    proof fn rank_tells_keys_apart(a: Seq<char>, b: Seq<char>) {
        lemma_path_rank_apart(path::components(a), path::components(b));
    }

    fn rank_of(written: &str) -> (res: Vec<u32>) {
        let list = path::split_path(written);
        let ghost all = path::components(written@);
        let mut res: Vec<u32> = Vec::new();
        let mut i: usize = 0;
        assert(all.len() == list.len());
        while i < list.len()
            invariant
                text::texts(list@) == all,
                all.len() == list.len(),
                i <= list.len(),
                res@ == path_rank(all.take(i as int)),
            decreases list.len() - i,
        {
            assert(all.take(i + 1).drop_last() =~= all.take(i as int));
            assert(list@[i as int]@ == all[i as int]);
            push_component_rank(&mut res, list[i].as_str());
            i = i + 1;
        }
        assert(all.take(i as int) =~= all);
        res
    }
}

/// Whether entries are in the order of their keys, without two for the same key.
pub open spec fn ordered<O: KeyOrder, V>(entries: Seq<(Seq<char>, V)>) -> bool {
    forall|i: int, j: int|
        #![trigger entries[i], entries[j]]
        0 <= i < j < entries.len() ==> precedes(
            O::rank(O::key(entries[i].0)),
            O::rank(O::key(entries[j].0)),
        )
}

/// Whether there is an entry for a key.
pub open spec fn has<O: KeyOrder, V>(entries: Seq<(Seq<char>, V)>, key: Seq<char>) -> bool {
    exists|i: int| 0 <= i < entries.len() && O::key(#[trigger] entries[i].0) == O::key(key)
}

/// How many of the ordered entries come before a key.
pub open spec fn slot<O: KeyOrder, V>(entries: Seq<(Seq<char>, V)>, key: Seq<char>) -> int
    decreases entries.len(),
{
    if entries.len() == 0 {
        0
    } else if precedes(O::rank(O::key(entries.last().0)), O::rank(O::key(key))) {
        entries.len() as int
    } else {
        slot::<O, V>(entries.drop_last(), key)
    }
}

/// The value of a key.
pub open spec fn found<O: KeyOrder, V>(entries: Seq<(Seq<char>, V)>, key: Seq<char>) -> Option<V> {
    let at = slot::<O, V>(entries, key);
    if at < entries.len() && O::key(entries[at].0) == O::key(key) {
        Some(entries[at].1)
    } else {
        None
    }
}

/// Ordered entries with a value for a key: in place of its value before, if it had one.
pub open spec fn inserted<O: KeyOrder, V>(
    entries: Seq<(Seq<char>, V)>,
    key: Seq<char>,
    value: V,
) -> Seq<(Seq<char>, V)> {
    let at = slot::<O, V>(entries, key);
    if at < entries.len() && O::key(entries[at].0) == O::key(key) {
        entries.update(at, (entries[at].0, value))
    } else {
        entries.insert(at, (key, value))
    }
}

/// The entries before a key's slot are those with a lesser key.
pub proof fn lemma_slot<O: KeyOrder, V>(entries: Seq<(Seq<char>, V)>, key: Seq<char>)
    requires
        ordered::<O, V>(entries),
    ensures
        0 <= slot::<O, V>(entries, key) <= entries.len(),
        forall|i: int|
            #![trigger entries[i]]
            0 <= i < slot::<O, V>(entries, key) ==> precedes(
                O::rank(O::key(entries[i].0)),
                O::rank(O::key(key)),
            ),
        forall|i: int|
            #![trigger entries[i]]
            slot::<O, V>(entries, key) <= i < entries.len() ==> !precedes(
                O::rank(O::key(entries[i].0)),
                O::rank(O::key(key)),
            ),
    decreases entries.len(),
{
    if entries.len() > 0 {
        let rank = O::rank(O::key(key));
        let last = O::rank(O::key(entries.last().0));
        if precedes(last, rank) {
            assert forall|i: int| #![trigger entries[i]] 0 <= i < entries.len() implies precedes(
                O::rank(O::key(entries[i].0)),
                rank,
            ) by {
                if i < entries.len() - 1 {
                    assert(entries[entries.len() - 1] == entries.last());
                    lemma_precedes_transitive(O::rank(O::key(entries[i].0)), last, rank);
                }
            }
        } else {
            let rest = entries.drop_last();
            assert(forall|i: int| 0 <= i < rest.len() ==> rest[i] == entries[i]);
            lemma_slot::<O, V>(rest, key);
            assert forall|i: int|
                #![trigger entries[i]]
                0 <= i < slot::<O, V>(entries, key) implies precedes(
                O::rank(O::key(entries[i].0)),
                rank,
            ) by {
                assert(rest[i] == entries[i]);
            }
            assert forall|i: int|
                #![trigger entries[i]]
                slot::<O, V>(entries, key) <= i < entries.len() implies !precedes(
                O::rank(O::key(entries[i].0)),
                rank,
            ) by {
                if i < rest.len() {
                    assert(rest[i] == entries[i]);
                }
            }
        }
    }
}

/// The slot of a key is the only one with what comes before it and what does not.
proof fn lemma_slot_is<O: KeyOrder, V>(entries: Seq<(Seq<char>, V)>, key: Seq<char>, at: int)
    requires
        ordered::<O, V>(entries),
        0 <= at <= entries.len(),
        at > 0 ==> precedes(O::rank(O::key(entries[at - 1].0)), O::rank(O::key(key))),
        at < entries.len() ==> !precedes(O::rank(O::key(entries[at].0)), O::rank(O::key(key))),
    ensures
        slot::<O, V>(entries, key) == at,
{
    lemma_slot::<O, V>(entries, key);
    let s = slot::<O, V>(entries, key);
    if s < at {
        let rank = O::rank(O::key(key));
        let a = O::rank(O::key(entries[s].0));
        let b = O::rank(O::key(entries[at - 1].0));
        if s < at - 1 {
            lemma_precedes_transitive(a, b, rank);
        }
    }
}

/// A key with an entry has it at the key's slot.
pub proof fn lemma_found<O: KeyOrder, V>(entries: Seq<(Seq<char>, V)>, key: Seq<char>, i: int)
    requires
        ordered::<O, V>(entries),
        0 <= i < entries.len(),
        O::key(entries[i].0) == O::key(key),
    ensures
        slot::<O, V>(entries, key) == i,
        found::<O, V>(entries, key) == Some(entries[i].1),
{
    lemma_precedes_irreflexive(O::rank(O::key(key)));
    lemma_slot_is::<O, V>(entries, key, i);
}

/// A value is found for the keys that have an entry, and for no others.
pub proof fn lemma_has<O: KeyOrder, V>(entries: Seq<(Seq<char>, V)>, key: Seq<char>)
    requires
        ordered::<O, V>(entries),
    ensures
        has::<O, V>(entries, key) <==> found::<O, V>(entries, key) is Some,
{
    lemma_slot::<O, V>(entries, key);
    if has::<O, V>(entries, key) {
        let i = choose|i: int|
            0 <= i < entries.len() && O::key(#[trigger] entries[i].0) == O::key(key);
        lemma_found::<O, V>(entries, key, i);
    }
    if found::<O, V>(entries, key) is Some {
        let at = slot::<O, V>(entries, key);
        assert(O::key(entries[at].0) == O::key(key));
    }
}

/// What holds of a map after a value was put in for a key: its entries are ordered as before,
/// the key has that value, and each other key has what it had.
pub proof fn law_inserted<O: KeyOrder, V>(
    entries: Seq<(Seq<char>, V)>,
    key: Seq<char>,
    value: V,
    other: Seq<char>,
)
    requires
        ordered::<O, V>(entries),
    ensures
        ordered::<O, V>(inserted::<O, V>(entries, key, value)),
        found::<O, V>(inserted::<O, V>(entries, key, value), key) == Some(value),
        O::key(other) != O::key(key) ==> found::<O, V>(
            inserted::<O, V>(entries, key, value),
            other,
        ) == found::<O, V>(entries, other),
{
    let res = inserted::<O, V>(entries, key, value);
    let at = slot::<O, V>(entries, key);
    let rank = O::rank(O::key(key));
    lemma_slot::<O, V>(entries, key);
    if at < entries.len() && O::key(entries[at].0) == O::key(key) {
        assert forall|i: int, j: int|
            #![trigger res[i], res[j]]
            0 <= i < j < res.len() implies precedes(
            O::rank(O::key(res[i].0)),
            O::rank(O::key(res[j].0)),
        ) by {
            assert(res[i].0 == entries[i].0 && res[j].0 == entries[j].0);
        }
        lemma_found::<O, V>(res, key, at);
        if O::key(other) != O::key(key) {
            lemma_slot::<O, V>(entries, other);
            let s = slot::<O, V>(entries, other);
            assert(s > 0 ==> res[s - 1].0 == entries[s - 1].0);
            assert(s < entries.len() ==> res[s].0 == entries[s].0);
            lemma_slot_is::<O, V>(res, other, s);
        }
    } else {
        assert(forall|i: int| 0 <= i < at ==> res[i] == entries[i]);
        assert(res[at] == (key, value));
        assert(forall|i: int| at < i < res.len() ==> res[i] == entries[i - 1]);
        assert forall|i: int| #![trigger entries[i]] at <= i < entries.len() implies precedes(
            rank,
            O::rank(O::key(entries[i].0)),
        ) by {
            let here = O::rank(O::key(entries[i].0));
            lemma_precedes_total(rank, here);
            if here == rank {
                O::rank_tells_keys_apart(entries[i].0, key);
                if i > at {
                    lemma_precedes_total(O::rank(O::key(entries[at].0)), rank);
                    assert(precedes(O::rank(O::key(entries[at].0)), here));
                }
            }
        }
        assert forall|i: int, j: int|
            #![trigger res[i], res[j]]
            0 <= i < j < res.len() implies precedes(
            O::rank(O::key(res[i].0)),
            O::rank(O::key(res[j].0)),
        ) by {
            if i < at {
                assert(res[i] == entries[i]);
                if j > at {
                    assert(res[j] == entries[j - 1]);
                }
            } else {
                assert(res[j] == entries[j - 1]);
                if i > at {
                    assert(res[i] == entries[i - 1]);
                }
            }
        }
        lemma_found::<O, V>(res, key, at);
        if O::key(other) != O::key(key) {
            lemma_slot::<O, V>(entries, other);
            let s = slot::<O, V>(entries, other);
            let mark = O::rank(O::key(other));
            lemma_precedes_total(rank, mark);
            if rank == mark {
                O::rank_tells_keys_apart(key, other);
            }
            if precedes(rank, mark) {
                if s < at {
                    // what lies between would come before the key and not before the other
                    assert(precedes(O::rank(O::key(entries[s].0)), rank));
                    lemma_precedes_transitive(O::rank(O::key(entries[s].0)), rank, mark);
                }
                assert(res[s] == (if s == at {
                    (key, value)
                } else {
                    entries[s - 1]
                }));
                assert(s < entries.len() ==> res[s + 1] == entries[s]);
                lemma_slot_is::<O, V>(res, other, s + 1);
            } else {
                if s > at {
                    assert(precedes(rank, O::rank(O::key(entries[s - 1].0))));
                    lemma_precedes_transitive(rank, O::rank(O::key(entries[s - 1].0)), mark);
                    lemma_precedes_transitive(rank, mark, rank);
                    lemma_precedes_irreflexive(rank);
                }
                assert(s > 0 ==> res[s - 1] == entries[s - 1]);
                assert(res[s] == (if s == at {
                    (key, value)
                } else {
                    entries[s]
                }));
                if precedes(rank, mark) {
                    lemma_precedes_irreflexive(rank);
                }
                lemma_slot_is::<O, V>(res, other, s);
            }
        }
    }
}

/// The second of two values for a key is the one that stays.
pub proof fn law_inserted_twice<O: KeyOrder, V>(
    entries: Seq<(Seq<char>, V)>,
    key: Seq<char>,
    first: V,
    second: V,
)
    requires
        ordered::<O, V>(entries),
    ensures
        inserted::<O, V>(inserted::<O, V>(entries, key, first), key, second) == inserted::<O, V>(
            entries,
            key,
            second,
        ),
{
    let once = inserted::<O, V>(entries, key, first);
    let at = slot::<O, V>(entries, key);
    law_inserted::<O, V>(entries, key, first, key);
    lemma_slot::<O, V>(entries, key);
    assert(O::key(once[at].0) == O::key(key));
    lemma_found::<O, V>(once, key, at);
    assert(inserted::<O, V>(once, key, second) =~= inserted::<O, V>(entries, key, second));
}

/// A map whose keys are in the order `O`.
pub struct OrderedMap<O: KeyOrder, V> {
    entries: Vec<(String, V)>,
    order: PhantomData<O>,
}

/// A map from texts.
pub type TextMap<V> = OrderedMap<ByText, V>;

/// A map from paths.
pub type PathMap<V> = OrderedMap<ByPath, V>;

/// A set of paths.
pub type PathSet = OrderedMap<ByPath, ()>;

/// The entries with their keys as texts.
pub open spec fn entry_views<V>(entries: Seq<(String, V)>) -> Seq<(Seq<char>, V)> {
    entries.map_values(|e: (String, V)| (e.0@, e.1))
}

impl<O: KeyOrder, V> View for OrderedMap<O, V> {
    type V = Seq<(Seq<char>, V)>;

    closed spec fn view(&self) -> Seq<(Seq<char>, V)> {
        entry_views(self.entries@)
    }
}

impl<O: KeyOrder, V> OrderedMap<O, V> {
    /// The entries are in the order of their keys, without two for the same key.
    #[verifier::type_invariant]
    pub open spec fn in_order(&self) -> bool {
        ordered::<O, V>(self@)
    }

    pub fn new() -> (res: Self)
        ensures
            res@ == Seq::<(Seq<char>, V)>::empty(),
    {
        let entries: Vec<(String, V)> = Vec::new();
        assert(entry_views(entries@) =~= Seq::<(Seq<char>, V)>::empty());
        OrderedMap { entries, order: PhantomData }
    }

    /// The number of entries
    pub fn len(&self) -> (res: usize)
        ensures
            res == self@.len(),
    {
        self.entries.len()
    }

    /// The key at a place in the order
    pub fn key_at(&self, i: usize) -> (res: &String)
        requires
            i < self@.len(),
        ensures
            res@ == self@[i as int].0,
    {
        &self.entries[i].0
    }

    /// The value at a place in the order
    pub fn value_at(&self, i: usize) -> (res: &V)
        requires
            i < self@.len(),
        ensures
            *res == self@[i as int].1,
    {
        &self.entries[i].1
    }

    /// All entries, in the order of their keys
    pub fn into_entries(self) -> (res: Vec<(String, V)>)
        ensures
            entry_views(res@) == self@,
    {
        self.entries
    }

    /// A key's slot, and whether the key has its entry there
    fn find(&self, key: &str) -> (res: (usize, bool))
        ensures
            res.0 == slot::<O, V>(self@, key@),
            res.0 <= self@.len(),
            res.1 <==> res.0 < self@.len() && O::key(self@[res.0 as int].0) == O::key(key@),
    {
        proof {
            use_type_invariant(self);
        }
        let rank = O::rank_of(key);
        let mut i: usize = self.entries.len();
        assert(self@.take(i as int) =~= self@);
        while i > 0
            invariant
                i <= self@.len(),
                self.entries.len() == self@.len(),
                rank@ == O::rank(O::key(key@)),
                ordered::<O, V>(self@),
                slot::<O, V>(self@, key@) == slot::<O, V>(self@.take(i as int), key@),
                i < self@.len() ==> !precedes(O::rank(O::key(self@[i as int].0)), rank@),
            decreases i,
        {
            let last = O::rank_of(self.entries[i - 1].0.as_str());
            let ghost part = self@.take(i as int);
            assert(part.last() == self@[i - 1]);
            assert(part.drop_last() =~= self@.take(i - 1));
            if let Place::Before = compare_ranks(&last, &rank) {
                if i < self.entries.len() {
                    let next = O::rank_of(self.entries[i].0.as_str());
                    if let Place::Same = compare_ranks(&next, &rank) {
                        proof {
                            O::rank_tells_keys_apart(self@[i as int].0, key@);
                        }
                        return (i, true);
                    }
                }
                return (i, false);
            }
            proof {
                if precedes(last@, rank@) {
                    lemma_precedes_total(last@, rank@);
                    if last@ == rank@ {
                        lemma_precedes_irreflexive(rank@);
                    } else {
                        lemma_precedes_transitive(last@, rank@, last@);
                        lemma_precedes_irreflexive(last@);
                    }
                }
            }
            i = i - 1;
        }
        if self.entries.len() > 0 {
            let next = O::rank_of(self.entries[0].0.as_str());
            if let Place::Same = compare_ranks(&next, &rank) {
                proof {
                    O::rank_tells_keys_apart(self@[0].0, key@);
                }
                return (0, true);
            }
        }
        (0, false)
    }

    /// The value of a key
    pub fn get(&self, key: &str) -> (res: Option<&V>)
        ensures
            match res {
                Some(value) => found::<O, V>(self@, key@) == Some(*value),
                None => found::<O, V>(self@, key@) is None,
            },
    {
        let (at, there) = self.find(key);
        if there {
            Some(&self.entries[at].1)
        } else {
            None
        }
    }

    /// Whether there is an entry for a key
    pub fn contains(&self, key: &str) -> (res: bool)
        ensures
            res == has::<O, V>(self@, key@),
    {
        proof {
            use_type_invariant(self);
            lemma_has::<O, V>(self@, key@);
        }
        let (_, there) = self.find(key);
        there
    }

    /// Puts in a value for a key and returns the value that it had before
    pub fn insert(&mut self, key: String, value: V) -> (res: Option<V>)
        ensures
            final(self)@ == inserted::<O, V>(old(self)@, key@, value),
            res == found::<O, V>(old(self)@, key@),
    {
        proof {
            use_type_invariant(&*self);
            law_inserted::<O, V>(self@, key@, value, key@);
        }
        let ghost before = self@;
        let ghost was = self.entries@;
        let (at, there) = self.find(key.as_str());
        let mut entries: Vec<(String, V)> = Vec::new();
        assert(entry_views(entries@) =~= Seq::<(Seq<char>, V)>::empty());
        std::mem::swap(&mut entries, &mut self.entries);
        let ghost after = inserted::<O, V>(before, key@, value);
        let res = if there {
            let (written, previous) = entries.remove(at);
            entries.insert(at, (written, value));
            assert(entries@ =~= was.update(at as int, (written, value)));
            Some(previous)
        } else {
            entries.insert(at, (key, value));
            None
        };
        assert(entry_views(entries@) =~= after);
        self.entries = entries;
        res
    }
}

impl<O: KeyOrder, V: Clone> Clone for OrderedMap<O, V> {
    fn clone(&self) -> (res: Self)
        ensures
            res@.len() == self@.len(),
            forall|i: int|
                #![trigger res@[i]]
                #![trigger self@[i]]
                0 <= i < res@.len() ==> res@[i].0 == self@[i].0 && cloned::<V>(
                    self@[i].1,
                    res@[i].1,
                ),
    {
        proof {
            use_type_invariant(self);
        }
        let mut entries: Vec<(String, V)> = Vec::new();
        let mut i: usize = 0;
        while i < self.entries.len()
            invariant
                i <= self.entries.len(),
                entries.len() == i,
                forall|j: int|
                    #![trigger entries[j]]
                    0 <= j < i ==> entries[j].0@ == self@[j].0 && cloned::<V>(
                        self@[j].1,
                        entries[j].1,
                    ),
            decreases self.entries.len() - i,
        {
            let key = self.entries[i].0.clone();
            let value = self.entries[i].1.clone();
            entries.push((key, value));
            i = i + 1;
        }
        let ghost views = entry_views(entries@);
        assert forall|a: int, b: int|
            #![trigger views[a], views[b]]
            0 <= a < b < views.len() implies precedes(
            O::rank(O::key(views[a].0)),
            O::rank(O::key(views[b].0)),
        ) by {
            assert(views[a].0 == self@[a].0 && views[b].0 == self@[b].0);
        }
        OrderedMap { entries, order: PhantomData }
    }
}

/// What a map from texts to texts holds.
pub open spec fn text_entries(entries: Seq<(Seq<char>, String)>) -> Seq<(Seq<char>, Seq<char>)> {
    entries.map_values(|e: (Seq<char>, String)| (e.0, e.1@))
}

/// Copies a map from texts to texts.
pub fn copy_texts(map: &TextMap<String>) -> (res: TextMap<String>)
    ensures
        text_entries(res@) == text_entries(map@),
{
    let res = map.clone();
    assert(text_entries(res@) =~= text_entries(map@));
    res
}

/// The entries with what `view` makes of their values.
pub open spec fn map_entries<V, W>(
    entries: Seq<(Seq<char>, V)>,
    view: spec_fn(V) -> W,
) -> Seq<(Seq<char>, W)> {
    entries.map_values(|e: (Seq<char>, V)| (e.0, view(e.1)))
}

proof fn lemma_map_slot<O: KeyOrder, V, W>(
    entries: Seq<(Seq<char>, V)>,
    view: spec_fn(V) -> W,
    key: Seq<char>,
)
    ensures
        slot::<O, W>(map_entries(entries, view), key) == slot::<O, V>(entries, key),
    decreases entries.len(),
{
    if entries.len() > 0 {
        let mapped = map_entries(entries, view);
        assert(mapped.drop_last() =~= map_entries(entries.drop_last(), view));
        assert(mapped.last().0 == entries.last().0);
        lemma_map_slot::<O, V, W>(entries.drop_last(), view, key);
    }
}

/// Looking up does not depend on what the values are.
pub proof fn lemma_map_found<O: KeyOrder, V, W>(
    entries: Seq<(Seq<char>, V)>,
    view: spec_fn(V) -> W,
    key: Seq<char>,
)
    requires
        ordered::<O, V>(entries),
    ensures
        ordered::<O, W>(map_entries(entries, view)),
        found::<O, W>(map_entries(entries, view), key) == (match found::<O, V>(entries, key) {
            Some(v) => Some(view(v)),
            None => None,
        }),
{
    let mapped = map_entries(entries, view);
    lemma_map_slot::<O, V, W>(entries, view, key);
    lemma_slot::<O, V>(entries, key);
    assert forall|i: int, j: int|
        #![trigger mapped[i], mapped[j]]
        0 <= i < j < mapped.len() implies precedes(
        O::rank(O::key(mapped[i].0)),
        O::rank(O::key(mapped[j].0)),
    ) by {
        assert(mapped[i].0 == entries[i].0 && mapped[j].0 == entries[j].0);
    }
}

/// Putting in does not depend on what the values are.
pub proof fn lemma_map_inserted<O: KeyOrder, V, W>(
    entries: Seq<(Seq<char>, V)>,
    view: spec_fn(V) -> W,
    key: Seq<char>,
    value: V,
)
    requires
        ordered::<O, V>(entries),
    ensures
        map_entries(inserted::<O, V>(entries, key, value), view) == inserted::<O, W>(
            map_entries(entries, view),
            key,
            view(value),
        ),
{
    lemma_map_slot::<O, V, W>(entries, view, key);
    lemma_slot::<O, V>(entries, key);
    assert(map_entries(inserted::<O, V>(entries, key, value), view) =~= inserted::<O, W>(
        map_entries(entries, view),
        key,
        view(value),
    ));
}

/// The entries with their lists as sequences.
pub open spec fn lists<T>(entries: Seq<(Seq<char>, Vec<T>)>) -> Seq<(Seq<char>, Seq<T>)> {
    map_entries(entries, |list: Vec<T>| list@)
}

/// The list of a key, empty where it has none.
pub open spec fn list_of<O: KeyOrder, T>(
    entries: Seq<(Seq<char>, Seq<T>)>,
    key: Seq<char>,
) -> Seq<T> {
    match found::<O, Seq<T>>(entries, key) {
        Some(list) => list,
        None => Seq::empty(),
    }
}

/// The entries with one more item in the list of a key.
pub open spec fn pushed<O: KeyOrder, T>(
    entries: Seq<(Seq<char>, Seq<T>)>,
    key: Seq<char>,
    item: T,
) -> Seq<(Seq<char>, Seq<T>)> {
    inserted::<O, Seq<T>>(entries, key, list_of::<O, T>(entries, key).push(item))
}

/// Adds an item to the list of a key.
pub fn push_value<O: KeyOrder, T>(map: &mut OrderedMap<O, Vec<T>>, key: &str, item: T)
    ensures
        lists(final(map)@) == pushed::<O, T>(lists(old(map)@), key@, item),
{
    proof {
        use_type_invariant(&*map);
    }
    let ghost before = map@;
    let ghost view = |list: Vec<T>| list@;
    let nothing: Vec<T> = Vec::new();
    let ghost empty = nothing;
    let mut list: Vec<T> = match map.insert(key.to_string(), nothing) {
        Some(list) => list,
        None => Vec::new(),
    };
    list.push(item);
    proof {
        law_inserted_twice::<O, Vec<T>>(before, key@, empty, list);
        lemma_map_found::<O, Vec<T>, Seq<T>>(before, view, key@);
        lemma_map_inserted::<O, Vec<T>, Seq<T>>(before, view, key@, list);
    }
    map.insert(key.to_string(), list);
}

/// What the values of a map hold, as sequences of what their items hold.
pub open spec fn item_views<T: View>(
    entries: Seq<(Seq<char>, Seq<T>)>,
) -> Seq<(Seq<char>, Seq<T::V>)> {
    map_entries(entries, |list: Seq<T>| list.map_values(|item: T| item@))
}

/// Adding an item adds what it holds.
pub proof fn lemma_item_views<O: KeyOrder, T: View>(
    entries: Seq<(Seq<char>, Seq<T>)>,
    key: Seq<char>,
    item: T,
)
    requires
        ordered::<O, Seq<T>>(entries),
    ensures
        item_views(pushed::<O, T>(entries, key, item)) == pushed::<O, T::V>(
            item_views(entries),
            key,
            item@,
        ),
        ordered::<O, Seq<T::V>>(item_views(entries)),
{
    let view = |list: Seq<T>| list.map_values(|item: T| item@);
    let list = list_of::<O, T>(entries, key);
    lemma_map_found::<O, Seq<T>, Seq<T::V>>(entries, view, key);
    lemma_map_inserted::<O, Seq<T>, Seq<T::V>>(entries, view, key, list.push(item));
    assert(view(list.push(item)) =~= view(list).push(item@));
    assert(view(Seq::<T>::empty()) =~= Seq::<T::V>::empty());
}

/// The entries of a map with all entries of another one put in.
pub open spec fn extended<O: KeyOrder, V>(
    entries: Seq<(Seq<char>, V)>,
    others: Seq<(Seq<char>, V)>,
) -> Seq<(Seq<char>, V)>
    decreases others.len(),
{
    if others.len() == 0 {
        entries
    } else {
        inserted::<O, V>(
            extended::<O, V>(entries, others.drop_last()),
            others.last().0,
            others.last().1,
        )
    }
}

/// Puts all entries of a map into another one.
pub fn extend<O: KeyOrder, V>(map: &mut OrderedMap<O, V>, others: OrderedMap<O, V>)
    ensures
        final(map)@ == extended::<O, V>(old(map)@, others@),
{
    let ghost before = map@;
    let ghost all = others@;
    let list = others.into_entries();
    assert(all.len() == list.len());
    for entry in it: list
        invariant
            entry_views(it.seq()) == all,
            all.len() == it.seq().len(),
            map@ == extended::<O, V>(before, all.take(it.index() as int)),
    {
        let ghost i = it.index() as int;
        assert(all[i] == (entry.0@, entry.1));
        assert(all.take(i + 1).drop_last() =~= all.take(i));
        map.insert(entry.0, entry.1);
    }
    assert(all.take(all.len() as int) =~= all);
}

/// The entries with each key joined to a path. Where two keys become the same, the later
/// entry stays.
pub open spec fn joined_keys<V>(
    entries: Seq<(Seq<char>, V)>,
    root: Seq<char>,
) -> Seq<(Seq<char>, V)>
    decreases entries.len(),
{
    if entries.len() == 0 {
        Seq::empty()
    } else {
        inserted::<ByText, V>(
            joined_keys(entries.drop_last(), root),
            path::join_path(root, entries.last().0),
            entries.last().1,
        )
    }
}

/// Joins each key to a path.
pub fn join_keys<V>(map: TextMap<V>, root: &str) -> (res: TextMap<V>)
    ensures
        res@ == joined_keys(map@, root@),
{
    let ghost all = map@;
    let list = map.into_entries();
    assert(all.len() == list.len());
    let mut res: TextMap<V> = TextMap::new();
    assert(all.take(0) =~= Seq::<(Seq<char>, V)>::empty());
    for entry in it: list
        invariant
            entry_views(it.seq()) == all,
            all.len() == it.seq().len(),
            res@ == joined_keys(all.take(it.index() as int), root@),
    {
        let ghost i = it.index() as int;
        assert(all[i] == (entry.0@, entry.1));
        assert(all.take(i + 1).drop_last() =~= all.take(i));
        res.insert(path::join(root, entry.0.as_str()), entry.1);
    }
    assert(all.take(all.len() as int) =~= all);
    res
}

/// The entries with a path taken off the front of each key that begins with it. Where two
/// keys become the same, the later entry stays.
pub open spec fn stripped_keys<V>(
    entries: Seq<(Seq<char>, V)>,
    base: Seq<char>,
) -> Seq<(Seq<char>, V)>
    decreases entries.len(),
{
    if entries.len() == 0 {
        Seq::empty()
    } else {
        let key = entries.last().0;
        inserted::<ByPath, V>(
            stripped_keys(entries.drop_last(), base),
            match path::stripped(key, base) {
                Some(rest) => rest,
                None => key,
            },
            entries.last().1,
        )
    }
}

/// Takes a path off the front of each key that begins with it.
pub fn strip_keys<V>(map: PathMap<V>, base: &str) -> (res: PathMap<V>)
    ensures
        res@ == stripped_keys(map@, base@),
{
    let ghost all = map@;
    let list = map.into_entries();
    assert(all.len() == list.len());
    let mut res: PathMap<V> = PathMap::new();
    assert(all.take(0) =~= Seq::<(Seq<char>, V)>::empty());
    for entry in it: list
        invariant
            entry_views(it.seq()) == all,
            all.len() == it.seq().len(),
            res@ == stripped_keys(all.take(it.index() as int), base@),
    {
        let ghost i = it.index() as int;
        assert(all[i] == (entry.0@, entry.1));
        assert(all.take(i + 1).drop_last() =~= all.take(i));
        let key = match path::strip_prefix(entry.0.as_str(), base) {
            Some(rest) => rest,
            None => entry.0,
        };
        res.insert(key, entry.1);
    }
    assert(all.take(all.len() as int) =~= all);
    res
}

/// Whether entries are ordered depends on their keys alone.
pub proof fn lemma_same_keys<O: KeyOrder, V, W>(
    entries: Seq<(Seq<char>, V)>,
    others: Seq<(Seq<char>, W)>,
)
    requires
        ordered::<O, V>(entries),
        others.len() == entries.len(),
        forall|i: int| 0 <= i < entries.len() ==> (#[trigger] others[i]).0 == entries[i].0,
    ensures
        ordered::<O, W>(others),
{
    assert forall|i: int, j: int|
        #![trigger others[i], others[j]]
        0 <= i < j < others.len() implies precedes(
        O::rank(O::key(others[i].0)),
        O::rank(O::key(others[j].0)),
    ) by {
        assert(others[i].0 == entries[i].0 && others[j].0 == entries[j].0);
    }
}

impl<O: KeyOrder, V> OrderedMap<O, V> {
    /// The map of ordered entries
    pub fn from_entries(entries: Vec<(String, V)>) -> (res: Self)
        requires
            ordered::<O, V>(entry_views(entries@)),
        ensures
            res@ == entry_views(entries@),
    {
        OrderedMap { entries, order: PhantomData }
    }
}

/// A key behind all others is put in at the end.
pub proof fn lemma_inserted_last<O: KeyOrder, V>(
    entries: Seq<(Seq<char>, V)>,
    key: Seq<char>,
    value: V,
)
    requires
        ordered::<O, V>(entries.push((key, value))),
    ensures
        ordered::<O, V>(entries),
        inserted::<O, V>(entries, key, value) == entries.push((key, value)),
{
    let more = entries.push((key, value));
    let n = entries.len() as int;
    assert forall|i: int, j: int|
        #![trigger entries[i], entries[j]]
        0 <= i < j < n implies precedes(
        O::rank(O::key(entries[i].0)),
        O::rank(O::key(entries[j].0)),
    ) by {
        assert(more[i] == entries[i] && more[j] == entries[j]);
    }
    if n > 0 {
        assert(precedes(O::rank(O::key(more[n - 1].0)), O::rank(O::key(more[n].0))));
    }
    assert(slot::<O, V>(entries, key) == n);
    assert(entries.insert(n, (key, value)) =~= more);
}

/// Some of the entries, in the same order, are ordered too.
pub proof fn lemma_filtered_ordered<O: KeyOrder, V>(
    entries: Seq<(Seq<char>, V)>,
    keep: spec_fn((Seq<char>, V)) -> bool,
)
    requires
        ordered::<O, V>(entries),
    ensures
        ordered::<O, V>(entries.filter(keep)),
        forall|i: int|
            0 <= i < entries.filter(keep).len() ==> entries.contains(
                #[trigger] entries.filter(keep)[i],
            ),
    decreases entries.len(),
{
    reveal(Seq::filter);
    if entries.len() > 0 {
        let rest = entries.drop_last();
        let last = entries.last();
        let kept = rest.filter(keep);
        let n = entries.len() - 1;
        assert forall|i: int, j: int|
            #![trigger rest[i], rest[j]]
            0 <= i < j < rest.len() implies precedes(
            O::rank(O::key(rest[i].0)),
            O::rank(O::key(rest[j].0)),
        ) by {
            assert(rest[i] == entries[i] && rest[j] == entries[j]);
        }
        lemma_filtered_ordered::<O, V>(rest, keep);
        let all = entries.filter(keep);
        assert forall|i: int| 0 <= i < all.len() implies entries.contains(#[trigger] all[i]) by {
            if i < kept.len() {
                assert(all[i] == kept[i]);
                assert(rest.contains(kept[i]));
                let k = rest.index_of(kept[i]);
                assert(entries[k] == kept[i]);
            } else {
                assert(entries[n] == last);
            }
        }
        assert forall|i: int, j: int|
            #![trigger all[i], all[j]]
            0 <= i < j < all.len() implies precedes(
            O::rank(O::key(all[i].0)),
            O::rank(O::key(all[j].0)),
        ) by {
            assert(all[i] == kept[i]);
            if j < kept.len() {
                assert(all[j] == kept[j]);
            } else {
                assert(rest.contains(kept[i]));
                let k = rest.index_of(kept[i]);
                assert(entries[k] == kept[i] && entries[n] == last);
            }
        }
    }
}

/// Joining the keys to a path does not depend on what the values are.
pub proof fn lemma_map_joined_keys<V, W>(
    entries: Seq<(Seq<char>, V)>,
    view: spec_fn(V) -> W,
    root: Seq<char>,
)
    ensures
        ordered::<ByText, V>(joined_keys(entries, root)),
        map_entries(joined_keys(entries, root), view) == joined_keys(
            map_entries(entries, view),
            root,
        ),
    decreases entries.len(),
{
    if entries.len() > 0 {
        let rest = entries.drop_last();
        let last = entries.last();
        let mapped = map_entries(entries, view);
        lemma_map_joined_keys(rest, view, root);
        assert(mapped.drop_last() =~= map_entries(rest, view));
        assert(mapped.last() == (last.0, view(last.1)));
        let key = path::join_path(root, last.0);
        law_inserted::<ByText, V>(joined_keys(rest, root), key, last.1, key);
        lemma_map_inserted::<ByText, V, W>(joined_keys(rest, root), view, key, last.1);
    } else {
        assert(map_entries(entries, view) =~= Seq::<(Seq<char>, W)>::empty());
        assert(map_entries(joined_keys(entries, root), view) =~= Seq::<(Seq<char>, W)>::empty());
    }
}

/// Taking a path off the keys does not depend on what the values are.
pub proof fn lemma_map_stripped_keys<V, W>(
    entries: Seq<(Seq<char>, V)>,
    view: spec_fn(V) -> W,
    base: Seq<char>,
)
    ensures
        ordered::<ByPath, V>(stripped_keys(entries, base)),
        map_entries(stripped_keys(entries, base), view) == stripped_keys(
            map_entries(entries, view),
            base,
        ),
    decreases entries.len(),
{
    if entries.len() > 0 {
        let rest = entries.drop_last();
        let last = entries.last();
        let mapped = map_entries(entries, view);
        lemma_map_stripped_keys(rest, view, base);
        assert(mapped.drop_last() =~= map_entries(rest, view));
        assert(mapped.last() == (last.0, view(last.1)));
        let key = match path::stripped(last.0, base) {
            Some(rest) => rest,
            None => last.0,
        };
        law_inserted::<ByPath, V>(stripped_keys(rest, base), key, last.1, key);
        lemma_map_inserted::<ByPath, V, W>(stripped_keys(rest, base), view, key, last.1);
    } else {
        assert(map_entries(entries, view) =~= Seq::<(Seq<char>, W)>::empty());
        assert(map_entries(stripped_keys(entries, base), view) =~= Seq::<(Seq<char>, W)>::empty());
    }
}

/// The entries with `/` in place of each `\\` of their keys. Where two keys become the same, the
/// later entry stays.
pub open spec fn slashed_keys<O: KeyOrder, V>(entries: Seq<(Seq<char>, V)>) -> Seq<(Seq<char>, V)>
    decreases entries.len(),
{
    if entries.len() == 0 {
        Seq::empty()
    } else {
        inserted::<O, V>(
            slashed_keys::<O, V>(entries.drop_last()),
            path::slashed(entries.last().0),
            entries.last().1,
        )
    }
}

/// Writes `/` in place of each `\\` of the keys.
pub fn slash_keys<O: KeyOrder, V>(map: OrderedMap<O, V>) -> (res: OrderedMap<O, V>)
    ensures
        res@ == slashed_keys::<O, V>(map@),
{
    let ghost all = map@;
    let list = map.into_entries();
    assert(all.len() == list.len());
    let mut res: OrderedMap<O, V> = OrderedMap::new();
    assert(all.take(0) =~= Seq::<(Seq<char>, V)>::empty());
    for entry in it: list
        invariant
            entry_views(it.seq()) == all,
            all.len() == it.seq().len(),
            res@ == slashed_keys::<O, V>(all.take(it.index() as int)),
    {
        let ghost i = it.index() as int;
        assert(all[i] == (entry.0@, entry.1));
        assert(all.take(i + 1).drop_last() =~= all.take(i));
        res.insert(path::slash(entry.0.as_str()), entry.1);
    }
    assert(all.take(all.len() as int) =~= all);
    res
}

/// Writing `/` in the keys does not depend on what the values are.
pub proof fn lemma_map_slashed_keys<O: KeyOrder, V, W>(
    entries: Seq<(Seq<char>, V)>,
    view: spec_fn(V) -> W,
)
    ensures
        ordered::<O, V>(slashed_keys::<O, V>(entries)),
        map_entries(slashed_keys::<O, V>(entries), view) == slashed_keys::<O, W>(
            map_entries(entries, view),
        ),
    decreases entries.len(),
{
    if entries.len() > 0 {
        let rest = entries.drop_last();
        let last = entries.last();
        let mapped = map_entries(entries, view);
        lemma_map_slashed_keys::<O, V, W>(rest, view);
        assert(mapped.drop_last() =~= map_entries(rest, view));
        assert(mapped.last() == (last.0, view(last.1)));
        let key = path::slashed(last.0);
        law_inserted::<O, V>(slashed_keys::<O, V>(rest), key, last.1, key);
        lemma_map_inserted::<O, V, W>(slashed_keys::<O, V>(rest), view, key, last.1);
    } else {
        assert(map_entries(entries, view) =~= Seq::<(Seq<char>, W)>::empty());
        assert(map_entries(slashed_keys::<O, V>(entries), view) =~= Seq::<
            (Seq<char>, W),
        >::empty());
    }
}

/// No slashed key holds a `\\`, and nothing but the values of the entries is there.
pub proof fn law_slashed_keys<O: KeyOrder, V>(entries: Seq<(Seq<char>, V)>, i: int)
    requires
        0 <= i < slashed_keys::<O, V>(entries).len(),
    ensures
        !slashed_keys::<O, V>(entries)[i].0.contains('\\'),
        exists|j: int|
            0 <= j < entries.len() && slashed_keys::<O, V>(entries)[i].1 == (
            #[trigger] entries[j]).1,
{
    lemma_slashed_keys::<O, V>(entries);
}

proof fn lemma_slashed_keys<O: KeyOrder, V>(entries: Seq<(Seq<char>, V)>)
    ensures
        ordered::<O, V>(slashed_keys::<O, V>(entries)),
        forall|i: int|
            #![trigger slashed_keys::<O, V>(entries)[i]]
            0 <= i < slashed_keys::<O, V>(entries).len() ==> {
                &&& !slashed_keys::<O, V>(entries)[i].0.contains('\\')
                &&& exists|j: int|
                    0 <= j < entries.len() && slashed_keys::<O, V>(entries)[i].1 == (
                    #[trigger] entries[j]).1
            },
    decreases entries.len(),
{
    let all = slashed_keys::<O, V>(entries);
    if entries.len() > 0 {
        let rest = entries.drop_last();
        let before = slashed_keys::<O, V>(rest);
        let key = path::slashed(entries.last().0);
        let value = entries.last().1;
        lemma_slashed_keys::<O, V>(rest);
        path::law_slashed(entries.last().0);
        law_inserted::<O, V>(before, key, value, key);
        lemma_slot::<O, V>(before, key);
        let at = slot::<O, V>(before, key);
        assert forall|i: int| #![trigger all[i]] 0 <= i < all.len() implies {
            &&& !all[i].0.contains('\\')
            &&& exists|j: int| 0 <= j < entries.len() && all[i].1 == (#[trigger] entries[j]).1
        } by {
            let from = if all.len() > before.len() && i > at {
                i - 1
            } else {
                i
            };
            if i == at {
                assert(entries[entries.len() - 1].1 == value);
                if all.len() == before.len() {
                    assert(before[at].0 == all[at].0);
                }
            } else {
                assert(all[i] == before[from]);
                let j = choose|j: int|
                    0 <= j < rest.len() && before[from].1 == (#[trigger] rest[j]).1;
                assert(rest[j] == entries[j]);
            }
        }
    }
}

/// A path that begins at the root, taken off the front of keys, is in front of none of them any
/// more.
pub proof fn law_stripped_keys_are_relative<V>(
    entries: Seq<(Seq<char>, V)>,
    base: Seq<char>,
    i: int,
)
    requires
        path::is_absolute(base),
        0 <= i < stripped_keys(entries, base).len(),
    ensures
        !path::is_under(stripped_keys(entries, base)[i].0, base),
    decreases entries.len(),
{
    let rest = entries.drop_last();
    let last = entries.last();
    let before = stripped_keys(rest, base);
    let key = match path::stripped(last.0, base) {
        Some(short) => short,
        None => last.0,
    };
    let res = stripped_keys(entries, base);
    lemma_map_stripped_keys(rest, |v: V| v, base);
    lemma_slot::<ByPath, V>(before, key);
    let at = slot::<ByPath, V>(before, key);
    if res.len() > before.len() && i == at {
        assert(res[i].0 == key);
        lemma_stripped_is_relative(last.0, base);
    } else {
        let k = if res.len() > before.len() && i > at {
            i - 1
        } else {
            i
        };
        assert(res[i].0 == before[k].0);
        law_stripped_keys_are_relative(rest, base, k);
    }
}

proof fn lemma_stripped_is_relative(path: Seq<char>, base: Seq<char>)
    requires
        path::is_absolute(base),
    ensures
        path::stripped(path, base) matches Some(short) ==> !path::is_under(short, base),
{
    if path::is_under(path, base) {
        let short = path::stripped(path, base)->0;
        path::lemma_rest_is_relative(path, base);
        assert(path::components(base)[0] == path::root_dir());
        assert(path::root_dir()[0] == '/');
        if path::components(short).len() > 0 {
            assert(path::has_no_separator(path::components(short)[0]));
        }
    }
}

/// No entry is lost when a path is taken off the front of keys, unless another one takes its
/// place.
pub proof fn law_stripped_keys_stay<V>(entries: Seq<(Seq<char>, V)>, base: Seq<char>, i: int)
    requires
        0 <= i < entries.len(),
    ensures
        has::<ByPath, V>(
            stripped_keys(entries, base),
            match path::stripped(entries[i].0, base) {
                Some(short) => short,
                None => entries[i].0,
            },
        ),
    decreases entries.len(),
{
    let rest = entries.drop_last();
    let last = entries.last();
    let before = stripped_keys(rest, base);
    let key = match path::stripped(last.0, base) {
        Some(short) => short,
        None => last.0,
    };
    let wanted = match path::stripped(entries[i].0, base) {
        Some(short) => short,
        None => entries[i].0,
    };
    let res = stripped_keys(entries, base);
    lemma_map_stripped_keys(rest, |v: V| v, base);
    law_inserted::<ByPath, V>(before, key, last.1, wanted);
    lemma_has::<ByPath, V>(res, wanted);
    if i < rest.len() {
        assert(rest[i] == entries[i]);
        law_stripped_keys_stay(rest, base, i);
        lemma_has::<ByPath, V>(before, wanted);
        if path::components(wanted) == path::components(key) {
            lemma_has::<ByPath, V>(res, key);
            let k = choose|k: int|
                0 <= k < res.len() && ByPath::key(#[trigger] res[k].0) == ByPath::key(key);
            assert(ByPath::key(res[k].0) == ByPath::key(wanted));
        }
    }
}

} // verus!
