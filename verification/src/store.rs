//! The vector store: a fixed-capacity array of node vectors, one per node
//! id, held as one flat sequence of words in the order of the persisted
//! image.
use vstd::prelude::*;
use crate::error::LoomError;
use crate::layout::{Region, NODE_DIM};
use crate::vector::{overlay, NodeVector};

verus! {

/// The words of slot `id` of an image.
pub open spec fn slot(image: Seq<u32>, id: int) -> Seq<u32> {
    image.subrange(id * NODE_DIM, id * NODE_DIM + NODE_DIM)
}

/// `image` with slot `id` replaced by `words`.
pub open spec fn with_slot(image: Seq<u32>, id: int, words: Seq<u32>) -> Seq<u32> {
    Seq::new(
        image.len(),
        |i: int|
            if id * NODE_DIM <= i < id * NODE_DIM + NODE_DIM {
                words[i - id * NODE_DIM]
            } else {
                image[i]
            },
    )
}

/// The verdict on opening an image of `len` words for `capacity` nodes.
pub open spec fn open_verdict(len: int, capacity: int) -> Result<(), LoomError> {
    if len % (NODE_DIM as int) != 0 {
        Err(LoomError::Malformed)
    } else if len != capacity * NODE_DIM || capacity > u32::MAX {
        Err(LoomError::CapacityMismatch)
    } else {
        Ok(())
    }
}

/// Fixed-capacity storage of node vectors. Ids are handed out in sequence
/// from 0 and never reused; the slot of node `id` is words
/// `[id * NODE_DIM, (id + 1) * NODE_DIM)` of the image.
pub struct VectorStore {
    words: Vec<u32>,
    count: usize,
    capacity: usize,
}

impl VectorStore {
    /// The image has one slot per unit of capacity, no more nodes are
    /// allocated than there are slots, and every id fits in 32 bits.
    pub closed spec fn well_formed(self) -> bool {
        &&& self.words@.len() == self.capacity * NODE_DIM
        &&& self.capacity * NODE_DIM <= usize::MAX
        &&& self.count <= self.capacity
        &&& self.capacity <= u32::MAX
    }

    /// All words of the store, allocated or not, in image order.
    pub closed spec fn image(self) -> Seq<u32> {
        self.words@
    }

    /// Number of slots.
    pub closed spec fn slots(self) -> nat {
        self.capacity as nat
    }

    /// Number of allocated nodes.
    pub closed spec fn live(self) -> nat {
        self.count as nat
    }

    /// The vectors of the allocated nodes, by id.
    pub open spec fn view(self) -> Seq<Seq<u32>> {
        Seq::new(self.live(), |id: int| slot(self.image(), id))
    }

    /// The two stores hold the same words, the same number of nodes and
    /// the same number of slots.
    pub open spec fn same_as(self, other: VectorStore) -> bool {
        &&& self.image() == other.image()
        &&& self.live() == other.live()
        &&& self.slots() == other.slots()
    }

    /// `self` is `before` after node `id` was allocated, with an initial
    /// vector or without.
    pub open spec fn allocated_from(self, before: VectorStore, id: u32, initial: Option<NodeVector>) -> bool {
        &&& self.slots() == before.slots()
        &&& before.live() < before.slots()
        &&& id == before.live()
        &&& self.live() == before.live() + 1
        &&& self.image() == match initial {
            Some(v) => with_slot(before.image(), id as int, v@),
            None => before.image(),
        }
        &&& self@ == before@.push(
            match initial {
                Some(v) => v@,
                None => slot(before.image(), id as int),
            },
        )
    }

    /// `self` is `before` with the vector of node `id` replaced by `words`.
    pub open spec fn rewritten_from(self, before: VectorStore, id: u32, words: Seq<u32>) -> bool {
        &&& self.slots() == before.slots()
        &&& self.live() == before.live()
        &&& id < before.live()
        &&& self.image() == with_slot(before.image(), id as int, words)
        &&& self@ == before@.update(id as int, words)
    }

    /// What `well_formed` means for the abstract state.
    pub proof fn lemma_well_formed(self)
        requires
            self.well_formed(),
        ensures
            self.image().len() == self.slots() * NODE_DIM,
            self.live() <= self.slots(),
            self.slots() <= u32::MAX,
            self@.len() == self.live(),
            forall|id: int| 0 <= id < self.live() ==> (#[trigger] self@[id]).len() == NODE_DIM,
            open_verdict(self.image().len() as int, self.slots() as int) is Ok,
    {
        assert((self.capacity * NODE_DIM) % (NODE_DIM as int) == 0) by (nonlinear_arith);
        assert forall|id: int| 0 <= id < self.live() implies (#[trigger] self@[id]).len()
            == NODE_DIM by {
            assert(id * NODE_DIM + NODE_DIM <= self.capacity * NODE_DIM);
        }
    }

    /// A store of `capacity` zeroed slots and no nodes.
    pub fn create(capacity: usize) -> (s: VectorStore)
        requires
            capacity * NODE_DIM <= usize::MAX,
            capacity <= u32::MAX,
        ensures
            s.well_formed(),
            s.slots() == capacity,
            s.live() == 0,
            s.image() == Seq::new((capacity * NODE_DIM) as nat, |i: int| 0u32),
    {
        let total: usize = capacity * NODE_DIM;
        let words: Vec<u32> = vec![0u32; total];
        assert(words@ =~= Seq::new((capacity * NODE_DIM) as nat, |i: int| 0u32));
        VectorStore { words, count: 0, capacity }
    }

    /// Takes over an existing image. The image must hold exactly `capacity`
    /// slots. No node is allocated yet: the slots keep their words until
    /// they are allocated again.
    pub fn open(words: Vec<u32>, capacity: usize) -> (r: Result<VectorStore, LoomError>)
        ensures
            match r {
                Ok(s) => {
                    &&& open_verdict(words@.len() as int, capacity as int) is Ok
                    &&& s.well_formed()
                    &&& s.image() == words@
                    &&& s.slots() == capacity
                    &&& s.live() == 0
                },
                Err(e) => open_verdict(words@.len() as int, capacity as int) == Err::<(), LoomError>(e),
            },
    {
        VectorStore::open_with_nodes(words, capacity, 0)
    }

    /// Takes over an existing image together with the nodes it holds: the
    /// first `count` slots are allocated, with the vectors that the image
    /// holds for them. The image carries no count of its own, so the
    /// caller supplies it, as it supplies the capacity. Fails as `open`
    /// does on an image of the wrong size, and with `OutOfRange` when the
    /// image is right but has fewer than `count` slots.
    pub fn open_with_nodes(words: Vec<u32>, capacity: usize, count: usize) -> (r: Result<
        VectorStore,
        LoomError,
    >)
        ensures
            match r {
                Ok(s) => {
                    &&& open_verdict(words@.len() as int, capacity as int) is Ok
                    &&& count <= capacity
                    &&& s.well_formed()
                    &&& s.image() == words@
                    &&& s.slots() == capacity
                    &&& s.live() == count
                },
                Err(e) => match open_verdict(words@.len() as int, capacity as int) {
                    Err(refused) => e == refused,
                    Ok(()) => e == LoomError::OutOfRange && count > capacity,
                },
            },
    {
        if words.len() % NODE_DIM != 0 {
            return Err(LoomError::Malformed);
        }
        let held: usize = words.len() / NODE_DIM;
        if held != capacity || capacity > 0xFFFF_FFFF {
            return Err(LoomError::CapacityMismatch);
        }
        if count > capacity {
            return Err(LoomError::OutOfRange);
        }
        Ok(VectorStore { words, count, capacity })
    }

    /// Number of allocated nodes.
    pub fn node_count(&self) -> (r: usize)
        requires
            self.well_formed(),
        ensures
            r == self.live(),
            r <= self.slots(),
            r <= u32::MAX,
    {
        self.count
    }

    /// Number of slots.
    pub fn capacity(&self) -> (r: usize)
        requires
            self.well_formed(),
        ensures
            r == self.slots(),
    {
        self.capacity
    }

    /// Whether every slot is taken.
    pub fn is_full(&self) -> (r: bool)
        requires
            self.well_formed(),
        ensures
            r == (self.live() == self.slots()),
    {
        self.count == self.capacity
    }

    /// Whether `id` names an allocated node.
    pub fn contains(&self, id: u32) -> (r: bool)
        requires
            self.well_formed(),
        ensures
            r == (id < self.live()),
    {
        (id as usize) < self.count
    }

    /// The whole image, for persisting.
    pub fn words(&self) -> (r: &Vec<u32>)
        requires
            self.well_formed(),
        ensures
            r@ == self.image(),
            r@.len() == self.slots() * NODE_DIM,
    {
        &self.words
    }

    /// Allocates the next node and returns its id. With an initial vector
    /// the slot is overwritten; without one it keeps the words it holds.
    /// Fails with `StoreFull`, changing nothing, when every slot is taken.
    pub fn allocate_node(&mut self, initial: Option<NodeVector>) -> (r: Result<u32, LoomError>)
        requires
            old(self).well_formed(),
        ensures
            final(self).well_formed(),
            final(self).slots() == old(self).slots(),
            match r {
                Ok(id) => final(self).allocated_from(*old(self), id, initial),
                Err(e) => {
                    &&& e == LoomError::StoreFull
                    &&& old(self).live() == old(self).slots()
                    &&& final(self).same_as(*old(self))
                },
            },
    {
        if self.count >= self.capacity {
            return Err(LoomError::StoreFull);
        }
        let id: usize = self.count;
        match initial {
            Some(v) => {
                self.fill_slot(id, &v);
            },
            None => {},
        }
        self.count = id + 1;
        proof {
            let expected = old(self)@.push(
                match initial {
                    Some(v) => v@,
                    None => slot(old(self).image(), id as int),
                },
            );
            assert(self@.len() == expected.len());
            assert forall|j: int| 0 <= j < expected.len() implies self@[j] == expected[j] by {
                assert(slot(self.image(), j) =~= expected[j]);
            }
            assert(self@ =~= expected);
        }
        Ok(id as u32)
    }

    /// Overwrites slot `id` with `v`, whether the slot is allocated or not.
    fn fill_slot(&mut self, id: usize, v: &NodeVector)
        requires
            id < old(self).capacity,
            old(self).well_formed(),
        ensures
            final(self).count == old(self).count,
            final(self).capacity == old(self).capacity,
            final(self).words@ == with_slot(old(self).words@, id as int, v@),
            final(self).well_formed(),
    {
        proof {
            lemma_slot_bounds(id as int, self.capacity as int);
        }
        let base: usize = id * NODE_DIM;
        let mut k: usize = 0;
        while k < NODE_DIM
            invariant
                k <= NODE_DIM,
                base == id * NODE_DIM,
                id < self.capacity,
                self.count == old(self).count,
                self.capacity == old(self).capacity,
                self.words@.len() == old(self).words@.len(),
                self.well_formed(),
                v@.len() == NODE_DIM,
                forall|j: int| base <= j < base + k ==> self.words@[j] == v@[j - base],
                forall|j: int|
                    0 <= j < self.words@.len() && !(base <= j < base + k) ==> self.words@[j] == old(
                        self,
                    ).words@[j],
            decreases NODE_DIM - k,
        {
            let w: u32 = v.data[k];
            self.words.set(base + k, w);
            k = k + 1;
        }
        assert(self.words@ =~= with_slot(old(self).words@, id as int, v@));
    }

    /// The vector of node `id`, or `OutOfRange` when no such node is
    /// allocated.
    pub fn read_vector(&self, id: u32) -> (r: Result<NodeVector, LoomError>)
        requires
            self.well_formed(),
        ensures
            match r {
                Ok(v) => id < self.live() && v@ == self@[id as int],
                Err(e) => e == LoomError::OutOfRange && id >= self.live(),
            },
    {
        if id as usize >= self.count {
            return Err(LoomError::OutOfRange);
        }
        proof {
            lemma_slot_bounds(id as int, self.capacity as int);
        }
        let base: usize = (id as usize) * NODE_DIM;
        let mut v = NodeVector::zeroed();
        let mut k: usize = 0;
        while k < NODE_DIM
            invariant
                k <= NODE_DIM,
                base == id * NODE_DIM,
                base + NODE_DIM <= self.words@.len(),
                v@.len() == NODE_DIM,
                forall|j: int| 0 <= j < k ==> v@[j] == self.words@[base + j],
            decreases NODE_DIM - k,
        {
            v.data[k] = self.words[base + k];
            k = k + 1;
        }
        assert(v@ =~= self@[id as int]);
        Ok(v)
    }

    /// Replaces the vector of node `id`. Fails with `OutOfRange`, changing
    /// nothing, when no such node is allocated. No other slot changes.
    pub fn write_vector(&mut self, id: u32, v: &NodeVector) -> (r: Result<(), LoomError>)
        requires
            old(self).well_formed(),
        ensures
            final(self).well_formed(),
            final(self).slots() == old(self).slots(),
            final(self).live() == old(self).live(),
            match r {
                Ok(()) => final(self).rewritten_from(*old(self), id, v@),
                Err(e) => {
                    &&& e == LoomError::OutOfRange
                    &&& id >= old(self).live()
                    &&& final(self).same_as(*old(self))
                },
            },
    {
        if id as usize >= self.count {
            return Err(LoomError::OutOfRange);
        }
        self.fill_slot(id as usize, v);
        proof {
            let expected = old(self)@.update(id as int, v@);
            assert forall|j: int| 0 <= j < expected.len() implies self@[j] == expected[j] by {
                assert(slot(self.image(), j) =~= expected[j]);
            }
            assert(self@ =~= expected);
        }
        Ok(())
    }

    /// Grants `f` exclusive access to the vector of node `id` for the
    /// length of the call: `f` receives the vector and what it returns is
    /// stored in its place. Fails with `OutOfRange`, without calling `f`,
    /// when no such node is allocated.
    pub fn with_vector_mut<F: FnOnce(NodeVector) -> NodeVector>(&mut self, id: u32, f: F) -> (r:
        Result<(), LoomError>)
        requires
            old(self).well_formed(),
            forall|v: NodeVector| id < old(self).live() && v@ == old(self)@[id as int] ==> call_requires(f, (v,)),
        ensures
            final(self).well_formed(),
            final(self).slots() == old(self).slots(),
            final(self).live() == old(self).live(),
            match r {
                Ok(()) => {
                    &&& id < old(self).live()
                    &&& exists|before: NodeVector, after: NodeVector|
                        {
                            &&& before@ == old(self)@[id as int]
                            &&& call_ensures(f, (before,), after)
                            &&& final(self).rewritten_from(*old(self), id, after@)
                        }
                },
                Err(e) => {
                    &&& e == LoomError::OutOfRange
                    &&& id >= old(self).live()
                    &&& final(self).same_as(*old(self))
                },
            },
    {
        match self.read_vector(id) {
            Err(e) => Err(e),
            Ok(before) => {
                let after = f(before);
                let _ = self.write_vector(id, &after);
                Ok(())
            },
        }
    }

    /// The words of one region of node `id`.
    pub fn read_region(&self, id: u32, region: Region) -> (r: Result<Vec<u32>, LoomError>)
        requires
            self.well_formed(),
        ensures
            match r {
                Ok(words) => id < self.live() && words@ == self@[id as int].subrange(
                    region.lower(),
                    region.upper(),
                ),
                Err(e) => e == LoomError::OutOfRange && id >= self.live(),
            },
    {
        match self.read_vector(id) {
            Err(e) => Err(e),
            Ok(v) => Ok(v.region(region)),
        }
    }

    /// Writes `values` into the window of `width` words that starts at
    /// word `start` of node `id`, as far as both reach; every other word of
    /// the store keeps its value.
    pub fn write_window(&mut self, id: u32, start: usize, width: usize, values: &Vec<u32>) -> (r:
        Result<(), LoomError>)
        requires
            old(self).well_formed(),
            start + width <= NODE_DIM,
        ensures
            final(self).well_formed(),
            final(self).slots() == old(self).slots(),
            final(self).live() == old(self).live(),
            match r {
                Ok(()) => final(self).rewritten_from(
                    *old(self),
                    id,
                    overlay(old(self)@[id as int], start as int, width as int, values@),
                ),
                Err(e) => {
                    &&& e == LoomError::OutOfRange
                    &&& id >= old(self).live()
                    &&& final(self).same_as(*old(self))
                },
            },
    {
        match self.read_vector(id) {
            Err(e) => Err(e),
            Ok(v) => {
                let mut v = v;
                v.set_window(start, width, values);
                let _ = self.write_vector(id, &v);
                Ok(())
            },
        }
    }

    /// Writes `values` into one region of node `id`, as far as both reach;
    /// every other word of the store keeps its value.
    pub fn write_region(&mut self, id: u32, region: Region, values: &Vec<u32>) -> (r: Result<
        (),
        LoomError,
    >)
        requires
            old(self).well_formed(),
        ensures
            final(self).well_formed(),
            final(self).slots() == old(self).slots(),
            final(self).live() == old(self).live(),
            match r {
                Ok(()) => final(self).rewritten_from(
                    *old(self),
                    id,
                    overlay(old(self)@[id as int], region.lower(), region.width(), values@),
                ),
                Err(e) => {
                    &&& e == LoomError::OutOfRange
                    &&& id >= old(self).live()
                    &&& final(self).same_as(*old(self))
                },
            },
    {
        match self.read_vector(id) {
            Err(e) => Err(e),
            Ok(v) => {
                let mut v = v;
                v.set_region(region, values);
                let _ = self.write_vector(id, &v);
                Ok(())
            },
        }
    }
}

/// A slot below the capacity lies within the image.
proof fn lemma_slot_bounds(id: int, capacity: int)
    requires
        0 <= id < capacity,
    ensures
        0 <= id * NODE_DIM,
        id * NODE_DIM + NODE_DIM <= capacity * NODE_DIM,
{
    assert(id * NODE_DIM + NODE_DIM <= capacity * NODE_DIM) by (nonlinear_arith)
        requires
            0 <= id < capacity,
    ;
    assert(0 <= id * NODE_DIM) by (nonlinear_arith)
        requires
            0 <= id,
    ;
}

/// Reopening is idempotent: an image opened twice with the same capacity
/// and the same node count gives two stores with the same words, the same
/// capacity, the same node count and the same vectors.
pub proof fn lemma_reopen_idempotent(
    words: Seq<u32>,
    capacity: int,
    count: int,
    first: VectorStore,
    second: VectorStore,
)
    requires
        open_verdict(words.len() as int, capacity) is Ok,
        first.image() == words && first.slots() == capacity && first.live() == count,
        second.image() == words && second.slots() == capacity && second.live() == count,
    ensures
        first.image() == second.image(),
        first.live() == second.live(),
        first.slots() == second.slots(),
        first@ == second@,
{
    assert(first@ =~= second@);
}

/// Writing a slot and reading it back gives what was written, and every
/// other slot reads as before.
pub proof fn lemma_with_slot(image: Seq<u32>, id: int, words: Seq<u32>, other: int)
    requires
        0 <= id,
        0 <= other,
        words.len() == NODE_DIM,
        id * NODE_DIM + NODE_DIM <= image.len(),
        other * NODE_DIM + NODE_DIM <= image.len(),
    ensures
        slot(with_slot(image, id, words), id) == words,
        other != id ==> slot(with_slot(image, id, words), other) == slot(image, other),
{
    assert(slot(with_slot(image, id, words), id) =~= words);
    if other != id {
        assert(slot(with_slot(image, id, words), other) =~= slot(image, other));
    }
}

} // verus!
