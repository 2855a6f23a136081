//! The runtime: store, name index, connection index and processor registry
//! behind one interface.
//!
//! Executing a processor is split in two. `prepare` decides whether the
//! processor runs and gathers what its update rule reads; `commit` takes
//! the result of the rule and writes it where the kind of the processor is
//! allowed to write. The rule itself is arithmetic on the vectors and is
//! applied by the caller between the two.
use vstd::prelude::*;
use crate::connections::{connected, lists_neighbors, ConnectionIndex};
use crate::error::LoomError;
use crate::instruction::ResolutionStrategy;
use crate::layout::{Region, NODE_DIM, SEMANTIC_DIM, SEMANTIC_START};
use crate::names::NameIndex;
use crate::processor::{
    copy_words,
    position_of,
    ComputeFunction,
    HyperedgeProcessor,
    ProcessorParams,
    ProcessorRegistry,
    ProcessorType,
};
use crate::scalar::ZERO;
use crate::store::VectorStore;
use crate::vector::{identity_of, identity_words, overlay, NodeVector};

verus! {

/// A node, named by its label or by its id.
pub enum NodeRef {
    Label(String),
    Id(u32),
}

/// What the update rule of a processor reads.
pub struct Job {
    /// The processor to execute.
    pub processor: u32,
    /// Its kind.
    pub kind: ProcessorType,
    /// Its parameters.
    pub params: ProcessorParams,
    /// The matrix of a custom transform; empty for the other kinds.
    pub matrix: Vec<u32>,
    /// The processor's own vector.
    pub state: NodeVector,
    /// The ids of the members, in order.
    pub members: Vec<u32>,
    /// The vectors of the members, in the same order.
    pub inputs: Vec<NodeVector>,
}

/// The decision of `prepare`.
pub enum Plan {
    /// The processor does nothing this time: a member is missing, or the
    /// processor has too few members for its kind. Its change is zero.
    Idle,
    /// The processor runs on what the job holds.
    Run(Job),
}

/// The result of an update rule: new words for the processor and for its
/// members, by position, and the largest absolute change of any word. The
/// words are those of the window that the kind writes, from its first word
/// on: the whole vector for aggregation and coupling, the semantic region
/// for the other kinds.
pub struct Update {
    pub state: Option<Vec<u32>>,
    pub members: Vec<Option<Vec<u32>>>,
    pub delta: u32,
}

/// `v` with its semantic region overwritten by `values`, as far as they
/// reach.
pub open spec fn with_semantic(v: Seq<u32>, values: Seq<u32>) -> Seq<u32> {
    overlay(v, SEMANTIC_START as int, SEMANTIC_DIM as int, values)
}

/// `v` with the window that the kind writes overwritten by `values`, as
/// far as they reach: the whole vector for aggregation and coupling, the
/// semantic region for the other kinds.
pub open spec fn with_window(v: Seq<u32>, kind: ProcessorType, values: Seq<u32>) -> Seq<u32> {
    overlay(v, kind.window().0, kind.window().1, values)
}

/// The vector with which node `id` is woven: the identity region holds the
/// encodings of the bytes of the id, the semantic region holds `semantic`
/// as far as it reaches, and every other word is zero.
pub open spec fn woven(id: u32, semantic: Seq<u32>) -> Seq<u32> {
    with_semantic(
        overlay(
            Seq::new(NODE_DIM as nat, |i: int| 0u32),
            Region::Identity.lower(),
            Region::Identity.width(),
            identity_of(id),
        ),
        semantic,
    )
}

/// The vectors after the first `n` member updates were applied, in order
/// of position. An update is applied when the kind may write that member,
/// the update holds a value for it and the member is an allocated node.
pub open spec fn member_writes(
    vectors: Seq<Seq<u32>>,
    kind: ProcessorType,
    members: Seq<u32>,
    updates: Seq<Option<Vec<u32>>>,
    n: int,
) -> Seq<Seq<u32>>
    decreases n,
{
    if n <= 0 {
        vectors
    } else {
        let before = member_writes(vectors, kind, members, updates, n - 1);
        if n <= members.len() && n <= updates.len() && kind.writes_member(n - 1) && updates[n
            - 1] is Some && members[n - 1] < before.len() {
            before.update(
                members[n - 1] as int,
                with_window(before[members[n - 1] as int], kind, updates[n - 1].unwrap()@),
            )
        } else {
            before
        }
    }
}

/// The vectors after the processor's own update was applied, if its kind
/// writes the processor and the update holds a value for it.
pub open spec fn state_write(
    vectors: Seq<Seq<u32>>,
    id: u32,
    kind: ProcessorType,
    state: Option<Vec<u32>>,
) -> Seq<Seq<u32>> {
    if kind.writes_state() && state is Some && id < vectors.len() {
        vectors.update(id as int, with_window(vectors[id as int], kind, state.unwrap()@))
    } else {
        vectors
    }
}

/// The vectors after an update was committed: first the processor's own
/// vector, then the members in order of position.
pub open spec fn committed(
    vectors: Seq<Seq<u32>>,
    id: u32,
    kind: ProcessorType,
    members: Seq<u32>,
    update: Update,
) -> Seq<Seq<u32>> {
    member_writes(
        state_write(vectors, id, kind, update.state),
        kind,
        members,
        update.members@,
        members.len() as int,
    )
}

/// Whether `job` holds what the update rule of processor `p` reads when the
/// vectors are as given: the processor's kind, parameters and matrix, its
/// own vector, and the ids and vectors of its members in order.
pub open spec fn job_for(vectors: Seq<Seq<u32>>, p: HyperedgeProcessor, job: Job) -> bool {
    &&& job.processor == p.id
    &&& job.kind == p.compute_fn.kind()
    &&& job.params == p.params
    &&& job.matrix@ == p.compute_fn.matrix_view()
    &&& job.state@ == vectors[p.id as int]
    &&& job.members@ == p.members@
    &&& job.inputs@.len() == p.members@.len()
    &&& forall|i: int|
        0 <= i < p.members@.len() ==> (#[trigger] job.inputs@[i])@ == vectors[p.members@[i] as int]
}

/// Whether a processor runs: it has enough members for its kind and every
/// member is an allocated node.
pub open spec fn runnable(live: nat, kind: ProcessorType, members: Seq<u32>) -> bool {
    &&& members.len() >= kind.min_members()
    &&& forall|i: int| 0 <= i < members.len() ==> (#[trigger] members[i]) < live
}

/// A flagged conflict between two nodes, to be resolved during
/// consolidation.
#[derive(Debug)]
pub struct Antibody {
    pub node1: u32,
    pub node2: u32,
    pub conflict_type: String,
    pub priority: u32,
    pub resolution: ResolutionStrategy,
}

/// Encoding of `0.5`, the priority of a newly flagged conflict.
pub const DEFAULT_PRIORITY: u32 = 0x3F00_0000;

/// The runtime.
pub struct LoomRuntime {
    pub store: VectorStore,
    pub names: NameIndex,
    pub connections: ConnectionIndex,
    pub registry: ProcessorRegistry,
    pub antibodies: Vec<Antibody>,
}

impl LoomRuntime {
    /// The parts are well formed and every processor's id names an
    /// allocated node: the slot that holds the processor's own vector.
    pub open spec fn well_formed(&self) -> bool {
        &&& self.store.well_formed()
        &&& self.registry.well_formed()
        &&& forall|i: int|
            0 <= i < self.registry@.len() ==> (#[trigger] self.registry@[i]).id < self.store.live()
    }

    /// Names, connections, processors and flagged conflicts are those of
    /// `before`.
    pub open spec fn same_graph(&self, before: &LoomRuntime) -> bool {
        &&& self.names@ == before.names@
        &&& self.connections@ == before.connections@
        &&& self.registry@ == before.registry@
        &&& self.antibodies@ == before.antibodies@
    }

    /// Nothing differs from `before`.
    pub open spec fn same_as(&self, before: &LoomRuntime) -> bool {
        &&& self.same_graph(before)
        &&& self.store.same_as(before.store)
    }

    /// The node that a reference names, if the reference resolves.
    pub open spec fn resolve(&self, target: NodeRef) -> Option<u32> {
        match target {
            NodeRef::Id(id) => Some(id),
            NodeRef::Label(label) => if self.names@.contains_key(label@) {
                Some(self.names@[label@])
            } else {
                None
            },
        }
    }

    /// `self` is `before` after the creation of a processor was asked for
    /// and answered with `r`: on success the processor has the next node
    /// id, its vector is zero but for the semantic region, which holds
    /// `cold_start` as far as it reaches, its name is bound to its id and
    /// it is the last of the registry; on failure nothing has changed, and
    /// the error is `EmptyMembers` for no members and `StoreFull` for a
    /// full store.
    pub open spec fn created_from(
        &self,
        before: &LoomRuntime,
        name: Seq<char>,
        members: Vec<u32>,
        compute_fn: ComputeFunction,
        params: ProcessorParams,
        cold_start: Seq<u32>,
        r: Result<u32, LoomError>,
    ) -> bool {
        match r {
            Ok(id) => {
                &&& members@.len() >= 1
                &&& exists|initial: NodeVector|
                    {
                        &&& initial@ == with_semantic(
                            Seq::new(NODE_DIM as nat, |i: int| 0u32),
                            cold_start,
                        )
                        &&& #[trigger] self.store.allocated_from(before.store, id, Some(initial))
                    }
                &&& self.names@ == before.names@.insert(name, id)
                &&& self.registry@.len() == before.registry@.len() + 1
                &&& self.registry@.drop_last() == before.registry@
                &&& self.registry@.last().id == id
                &&& self.registry@.last().name@ == name
                &&& self.registry@.last().members == members
                &&& self.registry@.last().compute_fn == compute_fn
                &&& self.registry@.last().params == params
            },
            Err(e) => {
                &&& self.same_as(before)
                &&& e == (if members@.len() == 0 {
                    LoomError::EmptyMembers
                } else {
                    LoomError::StoreFull
                })
                &&& members@.len() == 0 || before.store.live() == before.store.slots()
            },
        }
    }

    /// A runtime over the given store, without names, connections or
    /// processors.
    pub fn new(store: VectorStore) -> (r: LoomRuntime)
        requires
            store.well_formed(),
        ensures
            r.well_formed(),
            r.store == store,
            r.names@ == Map::<Seq<char>, u32>::empty(),
            r.connections@ == crate::connections::no_edges(),
            r.registry@.len() == 0,
            r.antibodies@.len() == 0,
    {
        LoomRuntime {
            store,
            names: NameIndex::new(),
            connections: ConnectionIndex::new(),
            registry: ProcessorRegistry::new(),
            antibodies: Vec::new(),
        }
    }

    /// Creates a node, with an initial vector or without, and binds the
    /// label to it. Fails with `StoreFull`, changing nothing, when the
    /// store has no free slot.
    pub fn weave(&mut self, label: String, initial: Option<NodeVector>) -> (r: Result<
        u32,
        LoomError,
    >)
        requires
            old(self).well_formed(),
        ensures
            final(self).well_formed(),
            final(self).connections@ == old(self).connections@,
            final(self).registry@ == old(self).registry@,
            final(self).antibodies@ == old(self).antibodies@,
            match r {
                Ok(id) => {
                    &&& final(self).store.allocated_from(old(self).store, id, initial)
                    &&& final(self).names@ == old(self).names@.insert(label@, id)
                },
                Err(e) => {
                    &&& e == LoomError::StoreFull
                    &&& old(self).store.live() == old(self).store.slots()
                    &&& final(self).same_as(old(self))
                },
            },
    {
        match self.store.allocate_node(initial) {
            Err(e) => Err(e),
            Ok(id) => {
                self.names.register(label, id);
                Ok(id)
            },
        }
    }

    /// Creates a node without a label. Its identity region holds the
    /// encodings of the four bytes of its id, its semantic region holds
    /// `semantic` as far as it reaches, and every other word is zero. Fails
    /// with `StoreFull`, changing nothing, when the store has no free slot.
    pub fn weave_node(&mut self, semantic: Option<&Vec<u32>>) -> (r: Result<u32, LoomError>)
        requires
            old(self).well_formed(),
        ensures
            final(self).well_formed(),
            final(self).same_graph(old(self)),
            match r {
                Ok(id) => exists|initial: NodeVector|
                    {
                        &&& initial@ == woven(
                            id,
                            match semantic {
                                Some(words) => words@,
                                None => Seq::empty(),
                            },
                        )
                        &&& #[trigger] final(self).store.allocated_from(
                            old(self).store,
                            id,
                            Some(initial),
                        )
                    },
                Err(e) => {
                    &&& e == LoomError::StoreFull
                    &&& old(self).store.live() == old(self).store.slots()
                    &&& final(self).same_as(old(self))
                },
            },
    {
        if self.store.is_full() {
            return Err(LoomError::StoreFull);
        }
        let id: u32 = self.store.node_count() as u32;
        let mut initial = NodeVector::zeroed();
        initial.set_region(Region::Identity, &identity_words(id));
        match semantic {
            Some(words) => {
                initial.set_region(Region::Semantic, words);
            },
            None => {
                assert(initial@ =~= with_semantic(initial@, Seq::empty()));
            },
        }
        let r = self.store.allocate_node(Some(initial));
        proof {
            assert(self.store.allocated_from(old(self).store, id, Some(initial)));
        }
        r
    }

    /// Inserts or overwrites the edge from `source` to `target`; with
    /// `bidirectional`, the reverse edge as well.
    pub fn connect(&mut self, source: u32, target: u32, strength: u32, bidirectional: bool)
        ensures
            final(self).connections@ == connected(
                old(self).connections@,
                source,
                target,
                strength,
                bidirectional,
            ),
            final(self).store == old(self).store,
            final(self).names@ == old(self).names@,
            final(self).registry@ == old(self).registry@,
            final(self).antibodies@ == old(self).antibodies@,
            old(self).well_formed() ==> final(self).well_formed(),
    {
        self.connections.connect(source, target, strength, bidirectional);
    }

    /// The semantic regions of those of the given nodes that are
    /// allocated, in the given order: what the cold start of a processor
    /// over these members is computed from.
    pub fn member_semantics(&self, members: &Vec<u32>) -> (r: Vec<Vec<u32>>)
        requires
            self.well_formed(),
        ensures
            r@.map_values(|v: Vec<u32>| v@) == live_semantics(self.store@, members@, members@.len() as int),
    {
        let mut r: Vec<Vec<u32>> = Vec::new();
        let mut i: usize = 0;
        while i < members.len()
            invariant
                i <= members.len(),
                self.well_formed(),
                r@.map_values(|v: Vec<u32>| v@) == live_semantics(self.store@, members@, i as int),
            decreases members.len() - i,
        {
            let ghost before = r@.map_values(|v: Vec<u32>| v@);
            match self.store.read_region(members[i], Region::Semantic) {
                Ok(words) => {
                    r.push(words);
                    assert(r@.map_values(|v: Vec<u32>| v@) =~= before.push(words@));
                },
                Err(_) => {},
            }
            i = i + 1;
        }
        r
    }

    /// Creates a processor over the given members. The processor takes the
    /// next node id; its vector is zero but for the semantic region, which
    /// holds `cold_start` as far as it reaches; its name is bound to its id.
    /// Fails with `EmptyMembers` when there are no members and with
    /// `StoreFull` when the store has no free slot, in both cases changing
    /// nothing.
    pub fn create_processor(
        &mut self,
        name: String,
        members: Vec<u32>,
        compute_fn: ComputeFunction,
        params: ProcessorParams,
        cold_start: &Vec<u32>,
    ) -> (r: Result<u32, LoomError>)
        requires
            old(self).well_formed(),
        ensures
            final(self).well_formed(),
            final(self).connections@ == old(self).connections@,
            final(self).antibodies@ == old(self).antibodies@,
            final(self).created_from(old(self), name@, members, compute_fn, params, cold_start@, r),
    {
        if members.len() == 0 {
            return Err(LoomError::EmptyMembers);
        }
        let mut initial = NodeVector::zeroed();
        initial.set_region(Region::Semantic, cold_start);
        match self.store.allocate_node(Some(initial)) {
            Err(e) => Err(e),
            Ok(id) => {
                let label = name.clone();
                self.names.register(label, id);
                let _ = self.registry.register(
                    HyperedgeProcessor { id, name, members, compute_fn, params },
                );
                assert(self.registry@.drop_last() == old(self).registry@);
                assert(self.store.allocated_from(old(self).store, id, Some(initial)));
                Ok(id)
            },
        }
    }

    /// Whether every one of the given nodes is allocated.
    fn all_live(&self, members: &Vec<u32>) -> (r: bool)
        requires
            self.store.well_formed(),
        ensures
            r == (forall|i: int| 0 <= i < members@.len() ==> (#[trigger] members@[i]) < self.store.live()),
    {
        let mut i: usize = 0;
        while i < members.len()
            invariant
                i <= members.len(),
                self.store.well_formed(),
                forall|j: int| 0 <= j < i ==> (#[trigger] members@[j]) < self.store.live(),
            decreases members.len() - i,
        {
            if !self.store.contains(members[i]) {
                return false;
            }
            i = i + 1;
        }
        true
    }

    /// Decides whether processor `id` runs and, if it does, gathers its
    /// own vector and the vectors of its members. Fails with `NotFound`
    /// when no processor carries the id. A processor with a member that
    /// is not allocated, or with too few members for its kind, is idle.
    pub fn prepare(&self, id: u32) -> (r: Result<Plan, LoomError>)
        requires
            self.well_formed(),
        ensures
            match r {
                Err(e) => e == LoomError::NotFound && position_of(self.registry@, id).is_none(),
                Ok(plan) => {
                    &&& position_of(self.registry@, id).is_some()
                    &&& {
                        let p = self.registry@[position_of(self.registry@, id).unwrap()];
                        match plan {
                            Plan::Idle => !runnable(
                                self.store.live(),
                                p.compute_fn.kind(),
                                p.members@,
                            ),
                            Plan::Run(job) => {
                                &&& runnable(self.store.live(), p.compute_fn.kind(), p.members@)
                                &&& job_for(self.store@, p, job)
                            },
                        }
                    }
                },
            },
    {
        let p = match self.registry.get(id) {
            Err(e) => {
                return Err(e);
            },
            Ok(p) => p,
        };
        let kind = p.compute_fn.processor_type();
        if p.members.len() < kind.required_members() || !self.all_live(&p.members) {
            return Ok(Plan::Idle);
        }
        let state = match self.store.read_vector(id) {
            Ok(v) => v,
            Err(_) => {
                return Ok(Plan::Idle);
            },
        };
        let mut inputs: Vec<NodeVector> = Vec::new();
        let mut i: usize = 0;
        while i < p.members.len()
            invariant
                i <= p.members@.len(),
                self.well_formed(),
                inputs@.len() == i,
                forall|j: int| 0 <= j < p.members@.len() ==> (#[trigger] p.members@[j]) < self.store.live(),
                forall|j: int|
                    0 <= j < i ==> (#[trigger] inputs@[j])@ == self.store@[p.members@[j] as int],
            decreases p.members.len() - i,
        {
            match self.store.read_vector(p.members[i]) {
                Ok(v) => {
                    inputs.push(v);
                },
                Err(_) => {
                    return Ok(Plan::Idle);
                },
            }
            i = i + 1;
        }
        Ok(
            Plan::Run(
                Job {
                    processor: id,
                    kind,
                    params: p.params,
                    matrix: p.compute_fn.matrix(),
                    state,
                    members: copy_words(&p.members),
                    inputs,
                },
            ),
        )
    }

    /// Stores the result of a processor's update rule and returns the
    /// change it reports. Only the window of the kind is written, the
    /// whole vector for aggregation and coupling and the semantic region
    /// for the other kinds: that of the processor's own vector if its kind
    /// writes it, and those of the members that its kind writes;
    /// everything else keeps its value. An
    /// idle processor changes nothing and its change is zero. Fails with
    /// `NotFound`, changing nothing, when no processor carries the id.
    pub fn commit(&mut self, id: u32, update: &Update) -> (r: Result<u32, LoomError>)
        requires
            old(self).well_formed(),
        ensures
            final(self).well_formed(),
            final(self).same_graph(old(self)),
            final(self).store.live() == old(self).store.live(),
            final(self).store.slots() == old(self).store.slots(),
            match r {
                Err(e) => {
                    &&& e == LoomError::NotFound
                    &&& position_of(old(self).registry@, id).is_none()
                    &&& final(self).store.same_as(old(self).store)
                },
                Ok(delta) => {
                    &&& position_of(old(self).registry@, id).is_some()
                    &&& {
                        let p = old(self).registry@[position_of(old(self).registry@, id).unwrap()];
                        if runnable(old(self).store.live(), p.compute_fn.kind(), p.members@) {
                            &&& delta == update.delta
                            &&& final(self).store@ == committed(
                                old(self).store@,
                                id,
                                p.compute_fn.kind(),
                                p.members@,
                                *update,
                            )
                        } else {
                            &&& delta == ZERO
                            &&& final(self).store.same_as(old(self).store)
                        }
                    }
                },
            },
    {
        let (kind, members) = match self.registry.get(id) {
            Err(e) => {
                return Err(e);
            },
            Ok(p) => (p.compute_fn.processor_type(), copy_words(&p.members)),
        };
        if members.len() < kind.required_members() || !self.all_live(&members) {
            return Ok(ZERO);
        }
        let (first, width) = kind.write_window();
        if kind.may_write_state() {
            match &update.state {
                Some(values) => {
                    let _ = self.store.write_window(id, first, width, values);
                },
                None => {},
            }
        }
        let ghost start = self.store@;
        assert(start == state_write(old(self).store@, id, kind, update.state));
        let mut n: usize = 0;
        while n < members.len()
            invariant
                n <= members.len(),
                first == kind.window().0,
                width == kind.window().1,
                first + width <= NODE_DIM,
                self.store.well_formed(),
                self.registry == old(self).registry,
                self.names == old(self).names,
                self.connections == old(self).connections,
                self.antibodies == old(self).antibodies,
                self.store.live() == old(self).store.live(),
                self.store.slots() == old(self).store.slots(),
                self.store@ == member_writes(start, kind, members@, update.members@, n as int),
            decreases members.len() - n,
        {
            if n < update.members.len() && kind.may_write_member(n) {
                match &update.members[n] {
                    Some(values) => {
                        let _ = self.store.write_window(members[n], first, width, values);
                    },
                    None => {},
                }
            }
            n = n + 1;
        }
        Ok(update.delta)
    }

    /// The vector of a node and its neighbours, in increasing order of
    /// target. Fails with `NotFound` when the label is not bound and with
    /// `OutOfRange` when the id does not name an allocated node.
    pub fn query(&self, target: &NodeRef) -> (r: Result<(NodeVector, Vec<(u32, u32)>), LoomError>)
        requires
            self.well_formed(),
        ensures
            match r {
                Ok((vector, neighbors)) => {
                    &&& self.resolve(*target).is_some()
                    &&& self.resolve(*target).unwrap() < self.store.live()
                    &&& vector@ == self.store@[self.resolve(*target).unwrap() as int]
                    &&& lists_neighbors(neighbors@, self.connections@, self.resolve(*target).unwrap())
                },
                Err(e) => match self.resolve(*target) {
                    None => e == LoomError::NotFound,
                    Some(id) => e == LoomError::OutOfRange && id >= self.store.live(),
                },
            },
    {
        let id: u32 = match target {
            NodeRef::Id(id) => *id,
            NodeRef::Label(label) => match self.names.lookup(label) {
                Ok(id) => id,
                Err(e) => {
                    return Err(e);
                },
            },
        };
        match self.store.read_vector(id) {
            Err(e) => Err(e),
            Ok(vector) => Ok((vector, self.connections.neighbors(id))),
        }
    }

    /// Flags a conflict between two nodes, to be resolved during
    /// consolidation by averaging.
    pub fn flag_conflict(&mut self, node1: u32, node2: u32, conflict_type: String)
        ensures
            final(self).antibodies@.len() == old(self).antibodies@.len() + 1,
            final(self).antibodies@.drop_last() == old(self).antibodies@,
            final(self).antibodies@.last().node1 == node1,
            final(self).antibodies@.last().node2 == node2,
            final(self).antibodies@.last().conflict_type == conflict_type,
            final(self).antibodies@.last().priority == DEFAULT_PRIORITY,
            final(self).antibodies@.last().resolution == ResolutionStrategy::AbstractToInvariant,
            final(self).store == old(self).store,
            final(self).names@ == old(self).names@,
            final(self).connections@ == old(self).connections@,
            final(self).registry@ == old(self).registry@,
            old(self).well_formed() ==> final(self).well_formed(),
    {
        self.antibodies.push(
            Antibody {
                node1,
                node2,
                conflict_type,
                priority: DEFAULT_PRIORITY,
                resolution: ResolutionStrategy::AbstractToInvariant,
            },
        );
        assert(self.antibodies@.drop_last() == old(self).antibodies@);
    }
}

/// The semantic regions of those of the first `n` members that are
/// allocated, in order.
pub open spec fn live_semantics(vectors: Seq<Seq<u32>>, members: Seq<u32>, n: int) -> Seq<Seq<u32>>
    decreases n,
{
    if n <= 0 {
        Seq::empty()
    } else if n <= members.len() && members[n - 1] < vectors.len() {
        live_semantics(vectors, members, n - 1).push(
            vectors[members[n - 1] as int].subrange(
                Region::Semantic.lower(),
                Region::Semantic.upper(),
            ),
        )
    } else {
        live_semantics(vectors, members, n - 1)
    }
}

/// What the window of a kind means: for aggregation and coupling a result
/// of full length replaces the whole vector; for the other kinds a result
/// replaces the semantic region, as far as it reaches, and nothing else.
pub proof fn lemma_window(v: Seq<u32>, kind: ProcessorType, values: Seq<u32>)
    requires
        v.len() == NODE_DIM,
    ensures
        (kind == ProcessorType::PartOf || kind == ProcessorType::Correlates) && values.len()
            == NODE_DIM ==> with_window(v, kind, values) == values,
        kind != ProcessorType::PartOf && kind != ProcessorType::Correlates ==> with_window(
            v,
            kind,
            values,
        ) == with_semantic(v, values),
{
    if (kind == ProcessorType::PartOf || kind == ProcessorType::Correlates) && values.len()
        == NODE_DIM {
        assert(with_window(v, kind, values) =~= values);
    }
}

/// Committing an update changes only what the kind of the processor is
/// allowed to change: a word that differs afterwards lies in the window
/// of the kind, and it belongs either to the processor's own vector, if
/// the kind writes it, or to a member at a position that the kind writes.
pub proof fn lemma_commit_frame(
    vectors: Seq<Seq<u32>>,
    id: u32,
    kind: ProcessorType,
    members: Seq<u32>,
    update: Update,
    node: int,
    word: int,
)
    requires
        0 <= node < vectors.len(),
        0 <= word < NODE_DIM,
        forall|j: int| 0 <= j < vectors.len() ==> (#[trigger] vectors[j]).len() == NODE_DIM,
    ensures
        committed(vectors, id, kind, members, update).len() == vectors.len(),
        committed(vectors, id, kind, members, update)[node].len() == NODE_DIM,
        committed(vectors, id, kind, members, update)[node][word] != vectors[node][word] ==> {
            &&& kind.window().0 <= word < kind.window().0 + kind.window().1
            &&& (node == id && kind.writes_state()) || exists|p: int|
                0 <= p < members.len() && #[trigger] members[p] == node && kind.writes_member(p)
        },
{
    let start = state_write(vectors, id, kind, update.state);
    assert(start.len() == vectors.len());
    assert forall|j: int| 0 <= j < start.len() implies (#[trigger] start[j]).len() == NODE_DIM by {}
    lemma_member_writes_frame(start, kind, members, update.members@, members.len() as int, node, word);
}

/// The frame of the member updates alone.
proof fn lemma_member_writes_frame(
    vectors: Seq<Seq<u32>>,
    kind: ProcessorType,
    members: Seq<u32>,
    updates: Seq<Option<Vec<u32>>>,
    n: int,
    node: int,
    word: int,
)
    requires
        0 <= n <= members.len(),
        0 <= node < vectors.len(),
        0 <= word < NODE_DIM,
        forall|j: int| 0 <= j < vectors.len() ==> (#[trigger] vectors[j]).len() == NODE_DIM,
    ensures
        member_writes(vectors, kind, members, updates, n).len() == vectors.len(),
        forall|j: int|
            0 <= j < vectors.len() ==> (#[trigger] member_writes(
                vectors,
                kind,
                members,
                updates,
                n,
            )[j]).len() == NODE_DIM,
        member_writes(vectors, kind, members, updates, n)[node][word] != vectors[node][word] ==> {
            &&& kind.window().0 <= word < kind.window().0 + kind.window().1
            &&& exists|p: int| 0 <= p < n && #[trigger] members[p] == node && kind.writes_member(p)
        },
    decreases n,
{
    if n > 0 {
        lemma_member_writes_frame(vectors, kind, members, updates, n - 1, node, word);
        let before = member_writes(vectors, kind, members, updates, n - 1);
        let after = member_writes(vectors, kind, members, updates, n);
        if after[node][word] != before[node][word] {
            assert(members[n - 1] == node && kind.writes_member(n - 1));
        }
    }
}

} // verus!
