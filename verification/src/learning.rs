//! Learning, decay and consolidation.
//!
//! Hebbian strengthening raises the connections between co-active nodes;
//! decay lets attention weights and resonance scores fade and forgets the
//! faint ones; consolidation strengthens what was co-active often, prunes
//! weak edges and settles flagged conflicts. The products, sums and
//! averages involved are computed by the caller; what is decided and
//! stored here is stated exactly.
use vstd::prelude::*;
use crate::connections::{connected, pruned};
use crate::error::LoomError;
use crate::layout::{Region, ACTIVATION_START};
use crate::vector::shifted_activation;
use crate::runtime::{with_semantic, Antibody, LoomRuntime};
use crate::scalar::{clamp_unit, clip_unit, less_than, lt};

verus! {

/// Encoding of `0.1`: two nodes are strengthened when their correlation
/// exceeds it.
pub const HEBBIAN_THRESHOLD: u32 = 0x3DCC_CCCD;

/// Encoding of `0.001`: consolidation prunes edges weaker than this.
pub const PRUNE_FLOOR: u32 = 0x3A83_126F;

/// Encoding of `0.9`: the strength given to pairs that were co-active
/// often.
pub const CRYSTALLIZED_STRENGTH: u32 = 0x3F66_6666;

/// Encoding of `0.95`: factor by which attention weights decay per tick.
pub const ATTENTION_DECAY: u32 = 0x3F73_3333;

/// Encoding of `0.98`: factor by which resonance scores decay per tick.
pub const RESONANCE_DECAY: u32 = 0x3F7A_E148;

/// Encoding of `0.01`: attention weights at or below it are forgotten.
pub const ATTENTION_FLOOR: u32 = 0x3C23_D70A;

/// Encoding of `0.1`: resonance scores at or below it are forgotten.
pub const RESONANCE_FLOOR: u32 = 0x3DCC_CCCD;

/// The key of an ordered pair of nodes.
pub open spec fn pair_key_of(a: u32, b: u32) -> u64 {
    (a * 0x1_0000_0000 + b) as u64
}

/// The key of an unordered pair of nodes: that of the pair with the
/// smaller id first.
pub open spec fn unordered_key_of(a: u32, b: u32) -> u64 {
    if a <= b {
        pair_key_of(a, b)
    } else {
        pair_key_of(b, a)
    }
}

/// The key of a single node.
pub fn node_key(id: u32) -> (r: u64)
    ensures
        r == id,
{
    id as u64
}

/// The key of an ordered pair of nodes.
pub fn pair_key(a: u32, b: u32) -> (r: u64)
    ensures
        r == pair_key_of(a, b),
{
    let shift: u64 = 0x1_0000_0000;
    (a as u64) * shift + (b as u64)
}

/// The key of an unordered pair of nodes.
pub fn unordered_key(a: u32, b: u32) -> (r: u64)
    ensures
        r == unordered_key_of(a, b),
        r == unordered_key_of(b, a),
{
    if a <= b {
        pair_key(a, b)
    } else {
        pair_key(b, a)
    }
}

/// The pair that a key stands for.
pub fn key_pair(key: u64) -> (r: (u32, u32))
    ensures
        pair_key_of(r.0, r.1) == key,
{
    let shift: u64 = 0x1_0000_0000;
    ((key / shift) as u32, (key % shift) as u32)
}

/// Different pairs have different keys.
pub proof fn lemma_pair_key_injective(a: u32, b: u32, c: u32, d: u32)
    ensures
        pair_key_of(a, b) == pair_key_of(c, d) <==> a == c && b == d,
{
}

/// The position of the entry with the given key, if there is one.
pub open spec fn slot_of(entries: Seq<(u64, u32)>, key: u64) -> Option<int> {
    if exists|i: int| 0 <= i < entries.len() && (#[trigger] entries[i]).0 == key {
        Some(choose|i: int| 0 <= i < entries.len() && (#[trigger] entries[i]).0 == key)
    } else {
        None
    }
}

/// The value stored under the key, if any.
pub open spec fn score(entries: Seq<(u64, u32)>, key: u64) -> Option<u32> {
    match slot_of(entries, key) {
        Some(i) => Some(entries[i].1),
        None => None,
    }
}

/// The entries after the key was given the value: in place if the key was
/// present, at the end if it was not.
pub open spec fn assigned(entries: Seq<(u64, u32)>, key: u64, value: u32) -> Seq<(u64, u32)> {
    match slot_of(entries, key) {
        Some(i) => entries.update(i, (key, value)),
        None => entries.push((key, value)),
    }
}

/// The count after one more occurrence; it stops at the largest value.
pub open spec fn bumped(count: Option<u32>) -> u32 {
    match count {
        Some(n) => if n < u32::MAX {
            (n + 1) as u32
        } else {
            n
        },
        None => 1,
    }
}

/// The value that entry `i` has after scaling: the scaled value if one was
/// supplied for it, else the one it had.
pub open spec fn scaled_value(entries: Seq<(u64, u32)>, scaled: Seq<u32>, i: int) -> u32 {
    if i < scaled.len() {
        scaled[i]
    } else {
        entries[i].1
    }
}

/// The first `n` entries after a tick of decay: each takes its scaled
/// value, and only those whose value then exceeds the floor are kept, in
/// their order.
pub open spec fn retained(entries: Seq<(u64, u32)>, scaled: Seq<u32>, floor: u32, n: int) -> Seq<
    (u64, u32),
>
    decreases n,
{
    if n <= 0 {
        Seq::empty()
    } else if n <= entries.len() && lt(floor, scaled_value(entries, scaled, n - 1)) {
        retained(entries, scaled, floor, n - 1).push(
            (entries[n - 1].0, scaled_value(entries, scaled, n - 1)),
        )
    } else {
        retained(entries, scaled, floor, n - 1)
    }
}

/// The keys, among the first `n` entries, whose count exceeds `support`.
pub open spec fn keys_above(entries: Seq<(u64, u32)>, support: u32, n: int) -> Seq<u64>
    decreases n,
{
    if n <= 0 {
        Seq::empty()
    } else if n <= entries.len() && entries[n - 1].1 > support {
        keys_above(entries, support, n - 1).push(entries[n - 1].0)
    } else {
        keys_above(entries, support, n - 1)
    }
}

/// The entries after one more occurrence of each of the first `n` pairs
/// was counted.
pub open spec fn counted(entries: Seq<(u64, u32)>, pairs: Seq<(u32, u32)>, n: int) -> Seq<(u64, u32)>
    decreases n,
{
    if n <= 0 {
        entries
    } else {
        let before = counted(entries, pairs, n - 1);
        let key = unordered_key_of(pairs[n - 1].0, pairs[n - 1].1);
        assigned(before, key, bumped(score(before, key)))
    }
}

/// A small table from key to 32-bit value, in order of first insertion.
/// It holds attention weights by node, resonance scores by unordered pair,
/// or co-activation counts by unordered pair.
pub struct WeightTable {
    entries: Vec<(u64, u32)>,
}

impl WeightTable {
    /// The entries, in order of first insertion.
    pub closed spec fn view(&self) -> Seq<(u64, u32)> {
        self.entries@
    }

    /// No key occurs twice.
    pub open spec fn well_formed(&self) -> bool {
        distinct_keys(self@)
    }

    /// A table without entries.
    pub fn new() -> (r: WeightTable)
        ensures
            r@.len() == 0,
            r.well_formed(),
    {
        WeightTable { entries: Vec::new() }
    }

    /// Number of entries.
    pub fn len(&self) -> (r: usize)
        ensures
            r == self@.len(),
    {
        self.entries.len()
    }

    /// The position of the entry with the given key.
    fn find(&self, key: u64) -> (r: Option<usize>)
        requires
            self.well_formed(),
        ensures
            match r {
                Some(i) => slot_of(self@, key) == Some(i as int) && i < self@.len() && self@[i as int].0
                    == key,
                None => slot_of(self@, key).is_none(),
            },
    {
        let mut i: usize = 0;
        while i < self.entries.len()
            invariant
                i <= self.entries@.len(),
                self.well_formed(),
                forall|j: int| 0 <= j < i ==> (#[trigger] self.entries@[j]).0 != key,
            decreases self.entries.len() - i,
        {
            if self.entries[i].0 == key {
                proof {
                    assert(self@[i as int].0 == key);
                    let chosen = slot_of(self@, key).unwrap();
                    assert(0 <= chosen < self@.len() && self@[chosen].0 == key);
                    if chosen < i {
                        assert(self@[chosen].0 != self@[i as int].0);
                    } else if chosen > i {
                        assert(self@[i as int].0 != self@[chosen].0);
                    }
                }
                return Some(i);
            }
            i = i + 1;
        }
        None
    }

    /// The value stored under the key, if any.
    pub fn get(&self, key: u64) -> (r: Option<u32>)
        requires
            self.well_formed(),
        ensures
            r == score(self@, key),
    {
        match self.find(key) {
            Some(i) => Some(self.entries[i].1),
            None => None,
        }
    }

    /// Stores the value under the key, replacing an earlier value.
    pub fn set(&mut self, key: u64, value: u32)
        requires
            old(self).well_formed(),
        ensures
            final(self).well_formed(),
            final(self)@ == assigned(old(self)@, key, value),
            score(final(self)@, key) == Some(value),
    {
        match self.find(key) {
            Some(i) => {
                self.entries.set(i, (key, value));
                proof {
                    assert(self@[i as int].0 == key);
                    let chosen = slot_of(self@, key).unwrap();
                    assert(0 <= chosen < self@.len() && self@[chosen].0 == key);
                    if chosen != i {
                        assert(old(self)@[chosen].0 == key);
                    }
                }
            },
            None => {
                self.entries.push((key, value));
                proof {
                    let last = self@.len() - 1;
                    assert(self@[last].0 == key);
                    let chosen = slot_of(self@, key).unwrap();
                    assert(0 <= chosen < self@.len() && self@[chosen].0 == key);
                    if chosen != last {
                        assert(old(self)@[chosen].0 == key);
                    }
                }
            },
        }
    }

    /// Counts one more occurrence under the key.
    pub fn bump(&mut self, key: u64)
        requires
            old(self).well_formed(),
        ensures
            final(self).well_formed(),
            final(self)@ == assigned(old(self)@, key, bumped(score(old(self)@, key))),
    {
        let next: u32 = match self.get(key) {
            Some(n) => if n < u32::MAX {
                n + 1
            } else {
                n
            },
            None => 1,
        };
        self.set(key, next);
    }

    /// The values, in the order of the entries.
    pub fn values(&self) -> (r: Vec<u32>)
        ensures
            r@.len() == self@.len(),
            forall|i: int| 0 <= i < self@.len() ==> r@[i] == (#[trigger] self@[i]).1,
    {
        let mut r: Vec<u32> = Vec::new();
        let mut i: usize = 0;
        while i < self.entries.len()
            invariant
                i <= self.entries@.len(),
                r@.len() == i,
                forall|j: int| 0 <= j < i ==> r@[j] == (#[trigger] self.entries@[j]).1,
            decreases self.entries.len() - i,
        {
            r.push(self.entries[i].1);
            i = i + 1;
        }
        r
    }

    /// One tick of decay. Entry `i` takes the value `scaled[i]`, its old
    /// value multiplied by the decay factor; an entry for which no scaled
    /// value is supplied keeps its value. Entries whose value does not
    /// exceed the floor are then forgotten.
    pub fn decay(&mut self, scaled: &Vec<u32>, floor: u32)
        requires
            old(self).well_formed(),
        ensures
            final(self).well_formed(),
            final(self)@ == retained(old(self)@, scaled@, floor, old(self)@.len() as int),
            final(self)@.len() <= old(self)@.len(),
    {
        let mut kept: Vec<(u64, u32)> = Vec::new();
        let ghost mut origin: Seq<int> = Seq::empty();
        let mut i: usize = 0;
        while i < self.entries.len()
            invariant
                i <= self.entries@.len(),
                self.entries@ == old(self).entries@,
                distinct_keys(self.entries@),
                kept@ == retained(self.entries@, scaled@, floor, i as int),
                origin.len() == kept@.len(),
                kept@.len() <= i,
                forall|a: int|
                    0 <= a < origin.len() ==> 0 <= (#[trigger] origin[a]) < i && kept@[a].0
                        == self.entries@[origin[a]].0,
                forall|a: int, b: int|
                    0 <= a < b < origin.len() ==> (#[trigger] origin[a]) < (#[trigger] origin[b]),
            decreases self.entries.len() - i,
        {
            let entry: (u64, u32) = self.entries[i];
            let value: u32 = if i < scaled.len() {
                scaled[i]
            } else {
                entry.1
            };
            if less_than(floor, value) {
                kept.push((entry.0, value));
                proof {
                    origin = origin.push(i as int);
                }
            }
            i = i + 1;
        }
        proof {
            assert forall|a: int, b: int| 0 <= a < b < kept@.len() implies (#[trigger] kept@[a]).0 != (
            #[trigger] kept@[b]).0 by {
                assert(origin[a] < origin[b]);
                assert(self.entries@[origin[a]].0 != self.entries@[origin[b]].0);
            }
        }
        self.entries = kept;
    }

    /// The keys whose count exceeds `support`, in the order of the
    /// entries.
    pub fn above(&self, support: u32) -> (r: Vec<u64>)
        ensures
            r@ == keys_above(self@, support, self@.len() as int),
    {
        let mut r: Vec<u64> = Vec::new();
        let mut i: usize = 0;
        while i < self.entries.len()
            invariant
                i <= self.entries@.len(),
                r@ == keys_above(self.entries@, support, i as int),
            decreases self.entries.len() - i,
        {
            if self.entries[i].1 > support {
                r.push(self.entries[i].0);
            }
            i = i + 1;
        }
        r
    }

    /// Counts one more co-activation for each of the given pairs,
    /// regardless of the order within a pair.
    pub fn record_coactivation(&mut self, pairs: &Vec<(u32, u32)>)
        requires
            old(self).well_formed(),
        ensures
            final(self).well_formed(),
            final(self)@ == counted(old(self)@, pairs@, pairs@.len() as int),
    {
        let mut i: usize = 0;
        while i < pairs.len()
            invariant
                i <= pairs.len(),
                self.well_formed(),
                self@ == counted(old(self)@, pairs@, i as int),
            decreases pairs.len() - i,
        {
            let pair: (u32, u32) = pairs[i];
            self.bump(unordered_key(pair.0, pair.1));
            i = i + 1;
        }
    }
}

/// No key occurs twice.
pub open spec fn distinct_keys(entries: Seq<(u64, u32)>) -> bool {
    forall|i: int, j: int|
        0 <= i < j < entries.len() ==> (#[trigger] entries[i]).0 != (#[trigger] entries[j]).0
}

/// Decay forgets and never adds: the table does not grow, every entry
/// that is kept exceeds the floor, and an entry is kept only if it was
/// there before.
pub proof fn lemma_decay_forgets(entries: Seq<(u64, u32)>, scaled: Seq<u32>, floor: u32, n: int)
    requires
        0 <= n <= entries.len(),
    ensures
        retained(entries, scaled, floor, n).len() <= n,
        forall|a: int|
            0 <= a < retained(entries, scaled, floor, n).len() ==> lt(
                floor,
                (#[trigger] retained(entries, scaled, floor, n)[a]).1,
            ),
        forall|a: int|
            0 <= a < retained(entries, scaled, floor, n).len() ==> exists|i: int|
                0 <= i < n && (#[trigger] entries[i]).0 == (#[trigger] retained(
                    entries,
                    scaled,
                    floor,
                    n,
                )[a]).0,
    decreases n,
{
    if n > 0 {
        lemma_decay_forgets(entries, scaled, floor, n - 1);
        let before = retained(entries, scaled, floor, n - 1);
        let now = retained(entries, scaled, floor, n);
        assert forall|a: int| 0 <= a < now.len() implies exists|i: int|
            0 <= i < n && (#[trigger] entries[i]).0 == (#[trigger] now[a]).0 by {
            if a < before.len() {
                let i = choose|i: int| 0 <= i < n - 1 && (#[trigger] entries[i]).0 == before[a].0;
                assert(entries[i].0 == now[a].0);
            } else {
                assert(entries[n - 1].0 == now[a].0);
            }
        }
    }
}

/// The unordered pairs `(active[i], active[k])` with `i < k < j` of two
/// different allocated nodes, in order of `k`.
pub open spec fn pair_row(active: Seq<u32>, live: nat, i: int, j: int) -> Seq<(u32, u32)>
    decreases j - i,
{
    if i < 0 || j <= i + 1 {
        Seq::empty()
    } else if j <= active.len() && active[i] < live && active[j - 1] < live && active[i] != active[j
        - 1] {
        pair_row(active, live, i, j - 1).push((active[i], active[j - 1]))
    } else {
        pair_row(active, live, i, j - 1)
    }
}

/// The unordered pairs of two different allocated nodes among the active
/// ones, for first positions below `n`.
pub open spec fn pairs_upto(active: Seq<u32>, live: nat, n: int) -> Seq<(u32, u32)>
    decreases n,
{
    if n <= 0 {
        Seq::empty()
    } else {
        pairs_upto(active, live, n - 1) + pair_row(active, live, n - 1, active.len() as int)
    }
}

/// Encoding of `0.1`: a node is active when its most recent activation
/// exceeds it.
pub const ACTIVITY_THRESHOLD: u32 = 0x3DCC_CCCD;

/// The nodes, among the first `n`, whose most recent activation exceeds
/// the threshold, in order of id.
pub open spec fn active_among(vectors: Seq<Seq<u32>>, threshold: u32, n: int) -> Seq<u32>
    decreases n,
{
    if n <= 0 {
        Seq::empty()
    } else if n <= vectors.len() && lt(threshold, vectors[n - 1][ACTIVATION_START as int]) {
        active_among(vectors, threshold, n - 1).push((n - 1) as u32)
    } else {
        active_among(vectors, threshold, n - 1)
    }
}

/// The vectors after a conflict between two nodes was settled: both take
/// `averaged` as their semantic region, the first node before the second.
pub open spec fn settled(
    vectors: Seq<Seq<u32>>,
    node1: u32,
    node2: u32,
    averaged: Seq<u32>,
) -> Seq<Seq<u32>> {
    let first = vectors.update(node1 as int, with_semantic(vectors[node1 as int], averaged));
    first.update(node2 as int, with_semantic(first[node2 as int], averaged))
}

/// Most experiences that one consolidation replays.
pub const REPLAY_LIMIT: usize = 100;

/// The counts after the `n` most recent experiences were replayed, the
/// most recent first: every unordered pair of two different allocated
/// nodes of an experience is counted once more.
pub open spec fn replayed(
    entries: Seq<(u64, u32)>,
    live: nat,
    experiences: Seq<Vec<u32>>,
    n: int,
) -> Seq<(u64, u32)>
    decreases n,
{
    if n <= 0 {
        entries
    } else {
        let experience = experiences[experiences.len() - n];
        let pairs = pairs_upto(experience@, live, experience@.len() as int);
        counted(replayed(entries, live, experiences, n - 1), pairs, pairs.len() as int)
    }
}

/// What the Hebbian rule reads for one pair of nodes.
pub struct HebbianJob {
    pub a: u32,
    pub b: u32,
    /// Activation history of `a`.
    pub history_a: Vec<u32>,
    /// Activation history of `b`.
    pub history_b: Vec<u32>,
    /// Strength of the edge from `a` to `b`, zero when absent.
    pub strength_ab: u32,
    /// Strength of the edge from `b` to `a`, zero when absent.
    pub strength_ba: u32,
}

/// Whether `job` holds what the Hebbian rule reads for the pair `(a, b)`.
pub open spec fn hebbian_job_for(
    vectors: Seq<Seq<u32>>,
    connections: Map<(u32, u32), u32>,
    a: u32,
    b: u32,
    job: HebbianJob,
) -> bool {
    &&& job.a == a
    &&& job.b == b
    &&& job.history_a@ == vectors[a as int].subrange(
        Region::Activation.lower(),
        Region::Activation.upper(),
    )
    &&& job.history_b@ == vectors[b as int].subrange(
        Region::Activation.lower(),
        Region::Activation.upper(),
    )
    &&& job.strength_ab == crate::connections::strength_in(connections, a, b)
    &&& job.strength_ba == crate::connections::strength_in(connections, b, a)
}

/// The result of the Hebbian rule for one pair: the correlation of the
/// two activation histories and both strengths raised by rate times
/// correlation, before clipping.
#[derive(Clone, Copy, Debug, PartialEq, Eq, Structural)]
pub struct HebbianOutcome {
    pub correlation: u32,
    pub raised_ab: u32,
    pub raised_ba: u32,
}

/// The connections after the Hebbian outcome for a pair was applied: if
/// the correlation exceeds the threshold, both directions take their
/// raised strength clipped to `[0, 1]`; otherwise nothing changes.
pub open spec fn strengthened(
    m: Map<(u32, u32), u32>,
    a: u32,
    b: u32,
    outcome: HebbianOutcome,
) -> Map<(u32, u32), u32> {
    if lt(HEBBIAN_THRESHOLD, outcome.correlation) {
        m.insert((a, b), clamp_unit(outcome.raised_ab)).insert((b, a), clamp_unit(outcome.raised_ba))
    } else {
        m
    }
}

/// The connections after each of the first `n` keys was connected both
/// ways with the crystallized strength.
pub open spec fn crystallized(m: Map<(u32, u32), u32>, keys: Seq<u64>, n: int) -> Map<(u32, u32), u32>
    decreases n,
{
    if n <= 0 {
        m
    } else {
        let key = keys[n - 1];
        connected(
            crystallized(m, keys, n - 1),
            (key / 0x1_0000_0000) as u32,
            (key % 0x1_0000_0000) as u32,
            CRYSTALLIZED_STRENGTH,
            true,
        )
    }
}

impl LoomRuntime {
    /// Records an activation of node `id`: its activation history moves
    /// one place towards the past and `strength` becomes its most recent
    /// entry. Nothing else changes. Fails with `OutOfRange`, changing
    /// nothing, when no such node is allocated.
    pub fn activate(&mut self, id: u32, strength: u32) -> (r: Result<(), LoomError>)
        requires
            old(self).well_formed(),
        ensures
            final(self).well_formed(),
            final(self).same_graph(old(self)),
            match r {
                Ok(()) => final(self).store.rewritten_from(
                    old(self).store,
                    id,
                    shifted_activation(old(self).store@[id as int], strength),
                ),
                Err(e) => {
                    &&& e == LoomError::OutOfRange
                    &&& id >= old(self).store.live()
                    &&& final(self).store.same_as(old(self).store)
                },
            },
    {
        match self.store.read_vector(id) {
            Err(e) => Err(e),
            Ok(v) => {
                let mut v = v;
                v.propagate_activation(strength);
                let _ = self.store.write_vector(id, &v);
                Ok(())
            },
        }
    }

    /// The active nodes: those whose most recent activation exceeds the
    /// threshold, in order of id.
    pub fn active_nodes(&self, threshold: u32) -> (r: Vec<u32>)
        requires
            self.well_formed(),
        ensures
            r@ == active_among(self.store@, threshold, self.store.live() as int),
    {
        let count: usize = self.store.node_count();
        let mut r: Vec<u32> = Vec::new();
        let mut id: usize = 0;
        while id < count
            invariant
                id <= count,
                count == self.store.live(),
                count <= u32::MAX,
                self.well_formed(),
                r@ == active_among(self.store@, threshold, id as int),
            decreases count - id,
        {
            match self.store.read_vector(id as u32) {
                Ok(v) => {
                    if less_than(threshold, v.get(ACTIVATION_START)) {
                        r.push(id as u32);
                    }
                },
                Err(_) => {},
            }
            id = id + 1;
        }
        r
    }

    /// The pairs of nodes to which a Hebbian step applies: every
    /// unordered pair of two different allocated nodes among the active
    /// ones, in order of position.
    pub fn hebbian_pairs(&self, active: &Vec<u32>) -> (r: Vec<(u32, u32)>)
        requires
            self.well_formed(),
        ensures
            r@ == pairs_upto(active@, self.store.live(), active@.len() as int),
    {
        let mut r: Vec<(u32, u32)> = Vec::new();
        let mut i: usize = 0;
        while i < active.len()
            invariant
                i <= active.len(),
                self.well_formed(),
                r@ == pairs_upto(active@, self.store.live(), i as int),
            decreases active.len() - i,
        {
            let ghost done = r@;
            let mut j: usize = i + 1;
            while j < active.len()
                invariant
                    i < active.len(),
                    i + 1 <= j <= active.len(),
                    self.well_formed(),
                    r@ == done + pair_row(active@, self.store.live(), i as int, j as int),
                decreases active.len() - j,
            {
                if self.store.contains(active[i]) && self.store.contains(active[j]) && active[i]
                    != active[j] {
                    r.push((active[i], active[j]));
                }
                j = j + 1;
                assert(r@ =~= done + pair_row(active@, self.store.live(), i as int, j as int));
            }
            i = i + 1;
        }
        r
    }

    /// What the Hebbian rule reads for the pair `(a, b)`: the activation
    /// histories of both nodes and the strengths of both edges between
    /// them. `None` when one of the nodes is not allocated.
    pub fn hebbian_job(&self, a: u32, b: u32) -> (r: Option<HebbianJob>)
        requires
            self.well_formed(),
        ensures
            r.is_some() == (a < self.store.live() && b < self.store.live()),
            match r {
                Some(job) => hebbian_job_for(self.store@, self.connections@, a, b, job),
                None => true,
            },
    {
        let history_a = match self.store.read_region(a, Region::Activation) {
            Ok(words) => words,
            Err(_) => {
                return None;
            },
        };
        let history_b = match self.store.read_region(b, Region::Activation) {
            Ok(words) => words,
            Err(_) => {
                return None;
            },
        };
        Some(
            HebbianJob {
                a,
                b,
                history_a,
                history_b,
                strength_ab: self.connections.strength_of(a, b),
                strength_ba: self.connections.strength_of(b, a),
            },
        )
    }

    /// Applies the outcome of the Hebbian rule for the pair `(a, b)` and
    /// tells whether the pair was strengthened: it is when the correlation
    /// exceeds the threshold, and then both directions take their raised
    /// strength, clipped to `[0, 1]`.
    pub fn apply_hebbian(&mut self, a: u32, b: u32, outcome: HebbianOutcome) -> (r: bool)
        ensures
            r == lt(HEBBIAN_THRESHOLD, outcome.correlation),
            final(self).connections@ == strengthened(old(self).connections@, a, b, outcome),
            final(self).store == old(self).store,
            final(self).names@ == old(self).names@,
            final(self).registry@ == old(self).registry@,
            final(self).antibodies@ == old(self).antibodies@,
            old(self).well_formed() ==> final(self).well_formed(),
    {
        if less_than(HEBBIAN_THRESHOLD, outcome.correlation) {
            self.connections.connect(a, b, clip_unit(outcome.raised_ab), false);
            self.connections.connect(b, a, clip_unit(outcome.raised_ba), false);
            true
        } else {
            false
        }
    }

    /// Replays the most recent experiences, at most `REPLAY_LIMIT` of them
    /// and the most recent first, and counts one more co-activation for
    /// every unordered pair of two different allocated nodes of each.
    pub fn replay(&self, experiences: &Vec<Vec<u32>>, counts: &mut WeightTable)
        requires
            self.well_formed(),
            old(counts).well_formed(),
        ensures
            final(counts).well_formed(),
            final(counts)@ == replayed(
                old(counts)@,
                self.store.live(),
                experiences@,
                if experiences@.len() <= REPLAY_LIMIT {
                    experiences@.len() as int
                } else {
                    REPLAY_LIMIT as int
                },
            ),
    {
        let total: usize = experiences.len();
        let limit: usize = if total <= REPLAY_LIMIT {
            total
        } else {
            REPLAY_LIMIT
        };
        let mut n: usize = 0;
        while n < limit
            invariant
                n <= limit <= total,
                total == experiences@.len(),
                self.well_formed(),
                counts.well_formed(),
                counts@ == replayed(old(counts)@, self.store.live(), experiences@, n as int),
            decreases limit - n,
        {
            let pairs = self.hebbian_pairs(&experiences[total - n - 1]);
            counts.record_coactivation(&pairs);
            n = n + 1;
        }
    }

    /// Consolidates the connections: every pair whose co-activation count
    /// exceeds `support` is connected both ways with the crystallized
    /// strength, and then every edge weaker than the pruning floor is
    /// removed.
    pub fn consolidate(&mut self, counts: &WeightTable, support: u32)
        ensures
            final(self).connections@ == pruned(
                crystallized(
                    old(self).connections@,
                    keys_above(counts@, support, counts@.len() as int),
                    keys_above(counts@, support, counts@.len() as int).len() as int,
                ),
                PRUNE_FLOOR,
            ),
            final(self).store == old(self).store,
            final(self).names@ == old(self).names@,
            final(self).registry@ == old(self).registry@,
            final(self).antibodies@ == old(self).antibodies@,
            old(self).well_formed() ==> final(self).well_formed(),
    {
        let keys = counts.above(support);
        let mut i: usize = 0;
        while i < keys.len()
            invariant
                i <= keys.len(),
                self.store == old(self).store,
                self.names == old(self).names,
                self.registry == old(self).registry,
                self.antibodies == old(self).antibodies,
                self.connections@ == crystallized(old(self).connections@, keys@, i as int),
            decreases keys.len() - i,
        {
            let pair = key_pair(keys[i]);
            self.connections.connect(pair.0, pair.1, CRYSTALLIZED_STRENGTH, true);
            i = i + 1;
        }
        self.connections.prune(PRUNE_FLOOR);
    }

    /// Takes the oldest flagged conflict off the list.
    pub fn take_conflict(&mut self) -> (r: Option<Antibody>)
        ensures
            match r {
                Some(antibody) => old(self).antibodies@.len() > 0 && antibody == old(
                    self,
                ).antibodies@[0] && final(self).antibodies@ == old(self).antibodies@.drop_first(),
                None => old(self).antibodies@.len() == 0 && final(self).antibodies@ == old(
                    self,
                ).antibodies@,
            },
            final(self).store == old(self).store,
            final(self).names@ == old(self).names@,
            final(self).connections@ == old(self).connections@,
            final(self).registry@ == old(self).registry@,
            old(self).well_formed() ==> final(self).well_formed(),
    {
        if self.antibodies.len() == 0 {
            None
        } else {
            let antibody = self.antibodies.remove(0);
            assert(self.antibodies@ =~= old(self).antibodies@.drop_first());
            Some(antibody)
        }
    }

    /// Settles a conflict between two nodes: both take `averaged`, the
    /// average of their semantic regions, as their semantic region.
    /// Nothing else changes. When one of the nodes is not allocated,
    /// nothing changes at all and the result is false.
    pub fn settle_conflict(&mut self, node1: u32, node2: u32, averaged: &Vec<u32>) -> (r: bool)
        requires
            old(self).well_formed(),
        ensures
            final(self).well_formed(),
            final(self).same_graph(old(self)),
            final(self).store.live() == old(self).store.live(),
            final(self).store.slots() == old(self).store.slots(),
            r == (node1 < old(self).store.live() && node2 < old(self).store.live()),
            r ==> final(self).store@ == settled(old(self).store@, node1, node2, averaged@),
            !r ==> final(self).store.same_as(old(self).store),
    {
        if !self.store.contains(node1) || !self.store.contains(node2) {
            return false;
        }
        let _ = self.store.write_region(node1, Region::Semantic, averaged);
        let _ = self.store.write_region(node2, Region::Semantic, averaged);
        true
    }
}

/// A pair whose raised strength lies in the unit interval takes exactly
/// that strength, in both directions, when its correlation exceeds the
/// threshold; a pair at or below the threshold keeps its connections.
pub proof fn lemma_hebbian_strengthening(
    m: Map<(u32, u32), u32>,
    a: u32,
    b: u32,
    outcome: HebbianOutcome,
)
    requires
        a != b,
    ensures
        lt(HEBBIAN_THRESHOLD, outcome.correlation) && crate::scalar::le(
            crate::scalar::ZERO,
            outcome.raised_ab,
        ) && crate::scalar::le(outcome.raised_ab, crate::scalar::ONE) ==> strengthened(
            m,
            a,
            b,
            outcome,
        )[(a, b)] == outcome.raised_ab,
        lt(HEBBIAN_THRESHOLD, outcome.correlation) && crate::scalar::le(
            crate::scalar::ZERO,
            outcome.raised_ba,
        ) && crate::scalar::le(outcome.raised_ba, crate::scalar::ONE) ==> strengthened(
            m,
            a,
            b,
            outcome,
        )[(b, a)] == outcome.raised_ba,
        !lt(HEBBIAN_THRESHOLD, outcome.correlation) ==> strengthened(m, a, b, outcome) == m,
        forall|key: (u32, u32)|
            key != (a, b) && key != (b, a) ==> (#[trigger] strengthened(m, a, b, outcome).contains_key(
                key,
            ) == m.contains_key(key)),
{
}

} // verus!
