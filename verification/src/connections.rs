//! The connection index: the explicit table of directed, weighted edges.
//!
//! The table is a `dashmap::DashMap` keyed by `(source, target)`. Verus does
//! not look inside it: what the table holds is named by [`table`], and the
//! few operations used on it are stated over that name.
use vstd::prelude::*;
use dashmap::DashMap;
use crate::scalar::{abs_less_than, abs_lt, ZERO};

verus! {

/// `dashmap::DashMap`, declared so that it can be held in a field and passed
/// to the functions below; nothing inside it is visible.
#[verifier::external_type_specification]
#[verifier::external_body]
#[verifier::reject_recursive_types(K)]
#[verifier::reject_recursive_types(V)]
#[verifier::reject_recursive_types(S)]
pub struct ExDashMap<K, V, S>(DashMap<K, V, S>);

/// Key of the connection table: `(source, target)`.
pub type EdgeKey = (u32, u32);

/// The connection table of the outside crate.
pub type EdgeTable = DashMap<EdgeKey, u32>;

/// The entries held by a connection table.
pub uninterp spec fn table(m: EdgeTable) -> Map<(u32, u32), u32>;

/// The table without entries.
pub open spec fn no_edges() -> Map<(u32, u32), u32> {
    Map::empty()
}

/// What a lookup of `key` in `m` gives.
pub open spec fn lookup(m: Map<(u32, u32), u32>, key: (u32, u32)) -> Option<u32> {
    if m.contains_key(key) {
        Some(m[key])
    } else {
        None
    }
}

/// `DashMap::new`: a table without entries.
#[verifier::external_body]
fn table_new() -> (m: EdgeTable)
    ensures
        table(m) == no_edges(),
{
    DashMap::new()
}

/// `DashMap::insert`: the key is bound to the value, replacing an earlier
/// binding, which is returned; no other entry changes.
#[verifier::external_body]
fn table_insert(m: &mut EdgeTable, key: (u32, u32), value: u32) -> (previous:
    Option<u32>)
    ensures
        table(*final(m)) == table(*old(m)).insert(key, value),
        previous == lookup(table(*old(m)), key),
{
    m.insert(key, value)
}

/// `DashMap::get`: the value bound to the key, if any.
#[verifier::external_body]
fn table_get(m: &EdgeTable, key: (u32, u32)) -> (found: Option<u32>)
    ensures
        found == lookup(table(*m), key),
{
    m.get(&key).map(|entry| *entry.value())
}

/// `DashMap::remove`: the binding of the key, if any, is removed and its
/// value returned; no other entry changes.
#[verifier::external_body]
fn table_remove(m: &mut EdgeTable, key: (u32, u32)) -> (removed: Option<u32>)
    ensures
        table(*final(m)) == table(*old(m)).remove(key),
        removed == lookup(table(*old(m)), key),
{
    m.remove(&key).map(|entry| entry.1)
}

/// `DashMap::iter`: every entry of the table exactly once, in an order that
/// the table does not promise.
#[verifier::external_body]
fn table_entries(m: &EdgeTable) -> (entries: Vec<((u32, u32), u32)>)
    ensures
        forall|i: int|
            0 <= i < entries@.len() ==> lookup(table(*m), (#[trigger] entries@[i]).0) == Some(
                entries@[i].1,
            ),
        forall|key: (u32, u32)| #[trigger]
            table(*m).contains_key(key) ==> exists|i: int|
                0 <= i < entries@.len() && (#[trigger] entries@[i]).0 == key,
        forall|i: int, j: int|
            0 <= i < j < entries@.len() ==> (#[trigger] entries@[i]).0 != (#[trigger] entries@[j]).0,
{
    m.iter().map(|entry| (*entry.key(), *entry.value())).collect()
}

/// A directed edge with its strength, an IEEE-754 single-precision encoding
/// that may be negative (inhibitory).
#[derive(Clone, Copy, Debug, PartialEq, Eq, Structural)]
pub struct Edge {
    pub source: u32,
    pub target: u32,
    pub strength: u32,
}

impl Edge {
    /// The key under which the edge is stored.
    pub open spec fn key(self) -> (u32, u32) {
        (self.source, self.target)
    }
}

/// Order of keys: by source, then by target.
pub open spec fn key_lt(a: (u32, u32), b: (u32, u32)) -> bool {
    a.0 < b.0 || (a.0 == b.0 && a.1 < b.1)
}

/// The edges are in strictly increasing order of their keys.
pub open spec fn edges_sorted(edges: Seq<Edge>) -> bool {
    forall|i: int, j: int|
        0 <= i < j < edges.len() ==> key_lt((#[trigger] edges[i]).key(), (#[trigger] edges[j]).key())
}

/// `edges` lists exactly the entries of `m`, in increasing order of keys.
pub open spec fn lists_table(edges: Seq<Edge>, m: Map<(u32, u32), u32>) -> bool {
    &&& edges_sorted(edges)
    &&& forall|i: int|
        0 <= i < edges.len() ==> lookup(m, (#[trigger] edges[i]).key()) == Some(edges[i].strength)
    &&& forall|key: (u32, u32)| #[trigger]
        m.contains_key(key) ==> exists|i: int|
            0 <= i < edges.len() && (#[trigger] edges[i]).key() == key
}

/// `pairs` lists exactly the targets reached from `source` in `m`, each with
/// its strength, in increasing order of target.
pub open spec fn lists_neighbors(pairs: Seq<(u32, u32)>, m: Map<(u32, u32), u32>, source: u32) -> bool {
    &&& forall|i: int, j: int|
        0 <= i < j < pairs.len() ==> (#[trigger] pairs[i]).0 < (#[trigger] pairs[j]).0
    &&& forall|i: int|
        0 <= i < pairs.len() ==> lookup(m, (source, (#[trigger] pairs[i]).0)) == Some(pairs[i].1)
    &&& forall|target: u32| #[trigger]
        m.contains_key((source, target)) ==> exists|i: int|
            0 <= i < pairs.len() && (#[trigger] pairs[i]).0 == target
}

/// The table after `connect`.
pub open spec fn connected(
    m: Map<(u32, u32), u32>,
    source: u32,
    target: u32,
    strength: u32,
    bidirectional: bool,
) -> Map<(u32, u32), u32> {
    if bidirectional {
        m.insert((source, target), strength).insert((target, source), strength)
    } else {
        m.insert((source, target), strength)
    }
}

/// The strength of the edge from `source` to `target`, zero when absent.
pub open spec fn strength_in(m: Map<(u32, u32), u32>, source: u32, target: u32) -> u32 {
    if m.contains_key((source, target)) {
        m[(source, target)]
    } else {
        ZERO
    }
}

/// The table without the entries whose strength is, in absolute value,
/// below the threshold.
pub open spec fn pruned(m: Map<(u32, u32), u32>, threshold: u32) -> Map<(u32, u32), u32> {
    Map::new(|key: (u32, u32)| m.contains_key(key) && !abs_lt(m[key], threshold), |key: (u32, u32)| m[key])
}

/// The explicit adjacency table: `(source, target)` to strength.
pub struct ConnectionIndex {
    entries: EdgeTable,
}

impl ConnectionIndex {
    /// The entries of the index.
    pub closed spec fn view(&self) -> Map<(u32, u32), u32> {
        table(self.entries)
    }

    /// An index without edges.
    pub fn new() -> (r: ConnectionIndex)
        ensures
            r@ == no_edges(),
    {
        ConnectionIndex { entries: table_new() }
    }

    /// Inserts the edge from `source` to `target`, or overwrites its
    /// strength; with `bidirectional`, the reverse edge as well, as an
    /// independent entry.
    pub fn connect(&mut self, source: u32, target: u32, strength: u32, bidirectional: bool)
        ensures
            final(self)@ == connected(old(self)@, source, target, strength, bidirectional),
    {
        let _ = table_insert(&mut self.entries, (source, target), strength);
        if bidirectional {
            let _ = table_insert(&mut self.entries, (target, source), strength);
        }
    }

    /// The strength of the edge from `source` to `target`, or zero when
    /// there is none.
    pub fn strength_of(&self, source: u32, target: u32) -> (r: u32)
        ensures
            r == strength_in(self@, source, target),
    {
        match table_get(&self.entries, (source, target)) {
            Some(strength) => strength,
            None => ZERO,
        }
    }

    /// Whether there is an edge from `source` to `target`.
    pub fn is_connected(&self, source: u32, target: u32) -> (r: bool)
        ensures
            r == self@.contains_key((source, target)),
    {
        table_get(&self.entries, (source, target)).is_some()
    }

    /// Removes the edge from `source` to `target` and returns its strength,
    /// if there was one.
    pub fn disconnect(&mut self, source: u32, target: u32) -> (r: Option<u32>)
        ensures
            final(self)@ == old(self)@.remove((source, target)),
            r == lookup(old(self)@, (source, target)),
    {
        table_remove(&mut self.entries, (source, target))
    }

    /// Every edge, in increasing order of `(source, target)`.
    pub fn edges(&self) -> (r: Vec<Edge>)
        ensures
            lists_table(r@, self@),
    {
        let snapshot = table_entries(&self.entries);
        let sorted = sort_entries(&snapshot);
        proof {
            let m = self@;
            assert forall|i: int| 0 <= i < sorted@.len() implies lookup(
                m,
                (#[trigger] sorted@[i]).key(),
            ) == Some(sorted@[i].strength) by {
                assert(drawn_from(snapshot@, snapshot@.len() as int, sorted@[i]));
                let p = choose|p: int|
                    0 <= p < snapshot@.len() && #[trigger] snapshot@[p] == entry_of(sorted@[i]);
                assert(lookup(m, snapshot@[p].0) == Some(snapshot@[p].1));
            }
            assert forall|key: (u32, u32)| #[trigger] m.contains_key(key) implies exists|i: int|
                0 <= i < sorted@.len() && (#[trigger] sorted@[i]).key() == key by {
                let p = choose|p: int| 0 <= p < snapshot@.len() && (#[trigger] snapshot@[p]).0 == key;
                assert(holds_entry(sorted@, snapshot@[p]));
                let i = choose|i: int|
                    0 <= i < sorted@.len() && entry_of(#[trigger] sorted@[i]) == snapshot@[p];
                assert(sorted@[i].key() == key);
            }
        }
        sorted
    }

    /// The targets reached from `source`, each with the strength of its
    /// edge, in increasing order of target.
    pub fn neighbors(&self, source: u32) -> (r: Vec<(u32, u32)>)
        ensures
            lists_neighbors(r@, self@, source),
    {
        let all = self.edges();
        let mut r: Vec<(u32, u32)> = Vec::new();
        let mut i: usize = 0;
        while i < all.len()
            invariant
                i <= all.len(),
                lists_table(all@, self@),
                forall|a: int, b: int|
                    0 <= a < b < r@.len() ==> (#[trigger] r@[a]).0 < (#[trigger] r@[b]).0,
                forall|a: int|
                    0 <= a < r@.len() ==> lookup(self@, (source, (#[trigger] r@[a]).0)) == Some(
                        r@[a].1,
                    ),
                forall|a: int, k: int|
                    0 <= a < r@.len() && i <= k < all@.len() ==> key_lt(
                        (source, (#[trigger] r@[a]).0),
                        (#[trigger] all@[k]).key(),
                    ),
                forall|k: int|
                    0 <= k < i && (#[trigger] all@[k]).source == source ==> exists|a: int|
                        0 <= a < r@.len() && (#[trigger] r@[a]).0 == all@[k].target,
            decreases all.len() - i,
        {
            let e: Edge = all[i];
            if e.source == source {
                let ghost before = r@;
                r.push((e.target, e.strength));
                proof {
                    assert forall|k: int|
                        0 <= k < i + 1 && (#[trigger] all@[k]).source == source implies exists|
                        a: int,
                    | 0 <= a < r@.len() && (#[trigger] r@[a]).0 == all@[k].target by {
                        if k < i {
                            let a = choose|a: int|
                                0 <= a < before.len() && (#[trigger] before[a]).0 == all@[k].target;
                            assert(r@[a] == before[a]);
                        } else {
                            assert(r@[before.len() as int].0 == all@[k].target);
                        }
                    }
                    assert forall|a: int, k: int|
                        0 <= a < r@.len() && i + 1 <= k < all@.len() implies key_lt(
                        (source, (#[trigger] r@[a]).0),
                        (#[trigger] all@[k]).key(),
                    ) by {
                        if a == before.len() {
                            assert(key_lt(all@[i as int].key(), all@[k].key()));
                        } else {
                            assert(r@[a] == before[a]);
                        }
                    }
                    assert forall|a: int, b: int| 0 <= a < b < r@.len() implies (#[trigger] r@[a]).0 < (
                    #[trigger] r@[b]).0 by {
                        if b == before.len() {
                            assert(r@[a] == before[a]);
                            assert(key_lt((source, before[a].0), all@[i as int].key()));
                        } else {
                            assert(r@[a] == before[a]);
                            assert(r@[b] == before[b]);
                        }
                    }
                }
            }
            i = i + 1;
        }
        proof {
            assert forall|target: u32| #[trigger] self@.contains_key((source, target)) implies exists|
                a: int,
            | 0 <= a < r@.len() && (#[trigger] r@[a]).0 == target by {
                let k = choose|k: int|
                    0 <= k < all@.len() && (#[trigger] all@[k]).key() == (source, target);
                assert(all@[k].source == source);
            }
        }
        r
    }

    /// Removes every edge whose strength is, in absolute value, below the
    /// threshold; the other edges keep their strength.
    pub fn prune(&mut self, threshold: u32)
        ensures
            final(self)@ == pruned(old(self)@, threshold),
    {
        let snapshot = table_entries(&self.entries);
        let ghost before = self@;
        let mut i: usize = 0;
        while i < snapshot.len()
            invariant
                i <= snapshot.len(),
                before == old(self)@,
                forall|p: int|
                    0 <= p < snapshot@.len() ==> lookup(before, (#[trigger] snapshot@[p]).0) == Some(
                        snapshot@[p].1,
                    ),
                forall|key: (u32, u32)| #[trigger]
                    before.contains_key(key) ==> exists|p: int|
                        0 <= p < snapshot@.len() && (#[trigger] snapshot@[p]).0 == key,
                forall|p: int, q: int|
                    0 <= p < q < snapshot@.len() ==> (#[trigger] snapshot@[p]).0 != (
                    #[trigger] snapshot@[q]).0,
                forall|key: (u32, u32)| #[trigger]
                    self@.contains_key(key) ==> before.contains_key(key) && self@[key] == before[key],
                forall|p: int|
                    0 <= p < i ==> (self@.contains_key((#[trigger] snapshot@[p]).0) <==> !abs_lt(
                        snapshot@[p].1,
                        threshold,
                    )),
                forall|p: int|
                    i <= p < snapshot@.len() ==> self@.contains_key((#[trigger] snapshot@[p]).0),
            decreases snapshot.len() - i,
        {
            let entry: ((u32, u32), u32) = snapshot[i];
            if abs_less_than(entry.1, threshold) {
                let ghost current = self@;
                let _ = table_remove(&mut self.entries, entry.0);
                proof {
                    assert forall|p: int| 0 <= p < i + 1 implies (self@.contains_key(
                        (#[trigger] snapshot@[p]).0,
                    ) <==> !abs_lt(snapshot@[p].1, threshold)) by {
                        if p < i {
                            assert(snapshot@[p].0 != snapshot@[i as int].0);
                            assert(current.contains_key(snapshot@[p].0) <==> !abs_lt(
                                snapshot@[p].1,
                                threshold,
                            ));
                        }
                    }
                    assert forall|p: int| i + 1 <= p < snapshot@.len() implies self@.contains_key(
                        (#[trigger] snapshot@[p]).0,
                    ) by {
                        assert(snapshot@[i as int].0 != snapshot@[p].0);
                        assert(current.contains_key(snapshot@[p].0));
                    }
                }
            }
            i = i + 1;
        }
        proof {
            let expected = pruned(before, threshold);
            assert forall|key: (u32, u32)| self@.contains_key(key) <==> expected.contains_key(
                key,
            ) by {
                if before.contains_key(key) {
                    let p = choose|p: int| 0 <= p < snapshot@.len() && (#[trigger] snapshot@[p]).0 == key;
                    assert(lookup(before, snapshot@[p].0) == Some(snapshot@[p].1));
                }
            }
            assert(self@ =~= expected);
        }
    }
}

/// The table entry that an edge stands for.
pub open spec fn entry_of(e: Edge) -> ((u32, u32), u32) {
    (e.key(), e.strength)
}

/// Some edge of `edges` stands for the entry.
pub open spec fn holds_entry(edges: Seq<Edge>, entry: ((u32, u32), u32)) -> bool {
    exists|i: int| 0 <= i < edges.len() && entry_of(#[trigger] edges[i]) == entry
}

/// The edge stands for one of the first `n` entries.
pub open spec fn drawn_from(entries: Seq<((u32, u32), u32)>, n: int, e: Edge) -> bool {
    exists|p: int| 0 <= p < n && #[trigger] entries[p] == entry_of(e)
}

/// Inserting an edge keeps every entry that was held and adds its own.
proof fn lemma_insert_keeps_entries(before: Seq<Edge>, pos: int, e: Edge, entry: ((u32, u32), u32))
    requires
        0 <= pos <= before.len(),
    ensures
        holds_entry(before, entry) ==> holds_entry(before.insert(pos, e), entry),
        holds_entry(before.insert(pos, e), entry_of(e)),
{
    let after = before.insert(pos, e);
    assert(entry_of(after[pos]) == entry_of(e));
    if holds_entry(before, entry) {
        let i = choose|i: int| 0 <= i < before.len() && entry_of(#[trigger] before[i]) == entry;
        let j = if i < pos {
            i
        } else {
            i + 1
        };
        assert(after[j] == before[i]);
        assert(entry_of(after[j]) == entry);
    }
}

/// Arranges entries with pairwise distinct keys in increasing order of key.
fn sort_entries(entries: &Vec<((u32, u32), u32)>) -> (out: Vec<Edge>)
    requires
        forall|i: int, j: int|
            0 <= i < j < entries@.len() ==> (#[trigger] entries@[i]).0 != (#[trigger] entries@[j]).0,
    ensures
        edges_sorted(out@),
        forall|i: int| 0 <= i < out@.len() ==> drawn_from(entries@, entries@.len() as int, #[trigger] out@[i]),
        forall|p: int| 0 <= p < entries@.len() ==> holds_entry(out@, #[trigger] entries@[p]),
{
    let mut out: Vec<Edge> = Vec::new();
    let mut n: usize = 0;
    while n < entries.len()
        invariant
            n <= entries.len(),
            forall|i: int, j: int|
                0 <= i < j < entries@.len() ==> (#[trigger] entries@[i]).0 != (
                #[trigger] entries@[j]).0,
            edges_sorted(out@),
            forall|i: int| 0 <= i < out@.len() ==> drawn_from(entries@, n as int, #[trigger] out@[i]),
            forall|p: int| 0 <= p < n ==> holds_entry(out@, #[trigger] entries@[p]),
        decreases entries.len() - n,
    {
        let entry: ((u32, u32), u32) = entries[n];
        let e = Edge { source: entry.0.0, target: entry.0.1, strength: entry.1 };
        let mut pos: usize = 0;
        while pos < out.len() && precedes(&out[pos], &e)
            invariant
                pos <= out.len(),
                forall|i: int| 0 <= i < pos ==> key_lt((#[trigger] out@[i]).key(), e.key()),
            decreases out.len() - pos,
        {
            pos = pos + 1;
        }
        let ghost before = out@;
        proof {
            assert forall|i: int| 0 <= i < before.len() implies (#[trigger] before[i]).key()
                != e.key() by {
                assert(drawn_from(entries@, n as int, before[i]));
                let p = choose|p: int| 0 <= p < n && #[trigger] entries@[p] == entry_of(before[i]);
                assert(entries@[p].0 != entries@[n as int].0);
            }
            assert forall|i: int| pos <= i < before.len() implies key_lt(
                e.key(),
                (#[trigger] before[i]).key(),
            ) by {
                if pos < i {
                    assert(key_lt(before[pos as int].key(), before[i].key()));
                }
                assert(before[pos as int].key() != e.key());
            }
        }
        out.insert(pos, e);
        proof {
            assert(out@ == before.insert(pos as int, e));
            assert forall|i: int, j: int| 0 <= i < j < out@.len() implies key_lt(
                (#[trigger] out@[i]).key(),
                (#[trigger] out@[j]).key(),
            ) by {
                if j < pos {
                    assert(out@[i] == before[i] && out@[j] == before[j]);
                } else if j == pos {
                    assert(out@[i] == before[i]);
                } else if i < pos {
                    assert(out@[i] == before[i] && out@[j] == before[j - 1]);
                } else if i == pos {
                    assert(out@[j] == before[j - 1]);
                } else {
                    assert(out@[i] == before[i - 1] && out@[j] == before[j - 1]);
                }
            }
            assert forall|i: int| 0 <= i < out@.len() implies drawn_from(
                entries@,
                n + 1,
                #[trigger] out@[i],
            ) by {
                if i == pos {
                    assert(entries@[n as int] == entry_of(out@[i]));
                } else {
                    let old_i = if i < pos {
                        i
                    } else {
                        i - 1
                    };
                    assert(out@[i] == before[old_i]);
                    assert(drawn_from(entries@, n as int, before[old_i]));
                    let p = choose|p: int|
                        0 <= p < n && #[trigger] entries@[p] == entry_of(before[old_i]);
                    assert(entries@[p] == entry_of(out@[i]));
                }
            }
            assert forall|p: int| 0 <= p < n + 1 implies holds_entry(out@, #[trigger] entries@[p]) by {
                lemma_insert_keeps_entries(before, pos as int, e, entries@[p]);
                if p == n {
                    assert(entries@[p] == entry_of(e));
                }
            }
        }
        n = n + 1;
    }
    out
}

/// Whether the key of `a` comes before the key of `b`.
fn precedes(a: &Edge, b: &Edge) -> (r: bool)
    ensures
        r == key_lt(a.key(), b.key()),
{
    a.source < b.source || (a.source == b.source && a.target < b.target)
}

/// Pruning keeps exactly the edges at or above the threshold, removes a
/// reverse edge independently of its forward edge, and pruning twice with
/// the same threshold changes nothing more.
pub proof fn lemma_prune_threshold(m: Map<(u32, u32), u32>, threshold: u32, key: (u32, u32))
    ensures
        pruned(m, threshold).contains_key(key) <==> m.contains_key(key) && !abs_lt(m[key], threshold),
        pruned(m, threshold).contains_key(key) ==> pruned(m, threshold)[key] == m[key],
        pruned(pruned(m, threshold), threshold) == pruned(m, threshold),
{
    assert(pruned(pruned(m, threshold), threshold) =~= pruned(m, threshold));
}

/// After a bidirectional `connect`, both directions carry the strength; a
/// threshold above its absolute value prunes both, and a threshold at or
/// below it keeps both.
pub proof fn lemma_connect_then_prune(
    m: Map<(u32, u32), u32>,
    source: u32,
    target: u32,
    strength: u32,
    threshold: u32,
)
    ensures
        strength_in(connected(m, source, target, strength, true), source, target) == strength,
        strength_in(connected(m, source, target, strength, true), target, source) == strength,
        abs_lt(strength, threshold) ==> !pruned(
            connected(m, source, target, strength, true),
            threshold,
        ).contains_key((source, target)) && !pruned(
            connected(m, source, target, strength, true),
            threshold,
        ).contains_key((target, source)),
        !abs_lt(strength, threshold) ==> strength_in(
            pruned(connected(m, source, target, strength, true), threshold),
            source,
            target,
        ) == strength && strength_in(
            pruned(connected(m, source, target, strength, true), threshold),
            target,
            source,
        ) == strength,
{
}

/// Two listings of the same table agree on their first `i` edges.
proof fn lemma_listing_prefix(a: Seq<Edge>, b: Seq<Edge>, m: Map<(u32, u32), u32>, i: int)
    requires
        lists_table(a, m),
        lists_table(b, m),
        0 <= i <= a.len(),
    ensures
        i <= b.len(),
        forall|j: int| 0 <= j < i ==> a[j] == b[j],
    decreases i,
{
    if i > 0 {
        lemma_listing_prefix(a, b, m, i - 1);
        let key = a[i - 1].key();
        assert(lookup(m, a[i - 1].key()) == Some(a[i - 1].strength));
        let in_b = choose|j: int| 0 <= j < b.len() && (#[trigger] b[j]).key() == key;
        if in_b < i - 1 {
            assert(a[in_b] == b[in_b]);
            assert(key_lt(a[in_b].key(), a[i - 1].key()));
        }
        assert(lookup(m, b[i - 1].key()) == Some(b[i - 1].strength));
        let in_a = choose|j: int| 0 <= j < a.len() && (#[trigger] a[j]).key() == b[i - 1].key();
        if in_a < i - 1 {
            assert(a[in_a] == b[in_a]);
            assert(key_lt(b[in_a].key(), b[i - 1].key()));
        }
        if i - 1 < in_b {
            assert(key_lt(b[i - 1].key(), b[in_b].key()));
        }
        if i - 1 < in_a {
            assert(key_lt(a[i - 1].key(), a[in_a].key()));
        }
        assert(a[i - 1].key() == b[i - 1].key());
        assert(a[i - 1] == b[i - 1]);
    }
}

/// A table has exactly one listing: the order of keys and the entries of
/// the table determine the sequence of edges.
pub proof fn lemma_listing_is_unique(a: Seq<Edge>, b: Seq<Edge>, m: Map<(u32, u32), u32>)
    requires
        lists_table(a, m),
        lists_table(b, m),
    ensures
        a == b,
{
    lemma_listing_prefix(a, b, m, a.len() as int);
    lemma_listing_prefix(b, a, m, b.len() as int);
    assert(a =~= b);
}

/// Two listings of the neighbours of a node agree on their first `i`
/// pairs.
proof fn lemma_neighbors_prefix(
    a: Seq<(u32, u32)>,
    b: Seq<(u32, u32)>,
    m: Map<(u32, u32), u32>,
    source: u32,
    i: int,
)
    requires
        lists_neighbors(a, m, source),
        lists_neighbors(b, m, source),
        0 <= i <= a.len(),
    ensures
        i <= b.len(),
        forall|j: int| 0 <= j < i ==> a[j] == b[j],
    decreases i,
{
    if i > 0 {
        lemma_neighbors_prefix(a, b, m, source, i - 1);
        let target = a[i - 1].0;
        assert(lookup(m, (source, a[i - 1].0)) == Some(a[i - 1].1));
        assert(m.contains_key((source, target)));
        let in_b = choose|j: int| 0 <= j < b.len() && (#[trigger] b[j]).0 == target;
        if in_b < i - 1 {
            assert(a[in_b] == b[in_b]);
            assert(a[in_b].0 < a[i - 1].0);
        }
        assert(lookup(m, (source, b[i - 1].0)) == Some(b[i - 1].1));
        assert(m.contains_key((source, b[i - 1].0)));
        let in_a = choose|j: int| 0 <= j < a.len() && (#[trigger] a[j]).0 == b[i - 1].0;
        if in_a < i - 1 {
            assert(a[in_a] == b[in_a]);
            assert(b[in_a].0 < b[i - 1].0);
        }
        if i - 1 < in_b {
            assert(b[i - 1].0 < b[in_b].0);
        }
        if i - 1 < in_a {
            assert(a[i - 1].0 < a[in_a].0);
        }
        assert(a[i - 1].0 == b[i - 1].0);
        assert(a[i - 1] == b[i - 1]);
    }
}

/// A node has exactly one listing of neighbours.
pub proof fn lemma_neighbors_are_unique(
    a: Seq<(u32, u32)>,
    b: Seq<(u32, u32)>,
    m: Map<(u32, u32), u32>,
    source: u32,
)
    requires
        lists_neighbors(a, m, source),
        lists_neighbors(b, m, source),
    ensures
        a == b,
{
    lemma_neighbors_prefix(a, b, m, source, a.len() as int);
    lemma_neighbors_prefix(b, a, m, source, b.len() as int);
    assert(a =~= b);
}

} // verus!
