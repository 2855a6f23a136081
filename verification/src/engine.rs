//! The engine: creation, execution, steps, runs and Hebbian learning with
//! the arithmetic supplied as functions.
//!
//! Every operation here decides and stores; what it computes on scalars it
//! asks of a function handed in by the caller: the mean for the cold start
//! of a processor, the update rule of a compute kind, the rescaling to the
//! norm bound, the correlation of two activation histories. The contracts
//! say what is handed to those functions, in which order, and where their
//! results go.
use vstd::prelude::*;
use crate::error::LoomError;
use crate::layout::Region;
use crate::learning::{
    hebbian_job_for,
    pairs_upto,
    settled,
    strengthened,
    HebbianJob,
    HebbianOutcome,
    HEBBIAN_THRESHOLD,
};
use crate::processor::{
    execution_order,
    position_of,
    ComputeFunction,
    HyperedgeProcessor,
    ProcessorParams,
    ProcessorType,
    Schedule,
};
use crate::runtime::{
    committed,
    job_for,
    live_semantics,
    runnable,
    Antibody,
    Job,
    LoomRuntime,
    Plan,
    Update,
};
use crate::scalar::{less_than, lt, ZERO};
use crate::scheduler::{Run, RunStatus, StepTracker, NORM_BOUND};
use crate::vector::NodeVector;

verus! {

/// One execution of processor `id` on `vectors` with update rule `kernel`
/// leads to `after` and reports `delta`: an idle or unknown processor
/// changes nothing and reports zero; a processor that runs hands its job
/// to the rule and commits what the rule returns.
pub open spec fn executes<K: Fn(Job) -> Update>(
    vectors: Seq<Seq<u32>>,
    processors: Seq<HyperedgeProcessor>,
    id: u32,
    kernel: K,
    after: Seq<Seq<u32>>,
    delta: u32,
) -> bool {
    match position_of(processors, id) {
        None => after == vectors && delta == ZERO,
        Some(at) => {
            let p = processors[at];
            if runnable(vectors.len(), p.compute_fn.kind(), p.members@) {
                exists|job: Job, update: Update|
                    #![trigger call_ensures(kernel, (job,), update)]
                    {
                        &&& job_for(vectors, p, job)
                        &&& call_ensures(kernel, (job,), update)
                        &&& delta == update.delta
                        &&& after == committed(vectors, id, p.compute_fn.kind(), p.members@, update)
                    }
            } else {
                after == vectors && delta == ZERO
            }
        },
    }
}

/// `output` is `input` held to the norm bound: `norm` returns the length
/// of the vector; when the length exceeds the bound, the vector is
/// replaced by what `rescale` returns for it and its length, and
/// otherwise it stays as it is.
pub open spec fn bounds<L: Fn(NodeVector) -> u32, S: Fn(NodeVector, u32) -> NodeVector>(
    input: Seq<u32>,
    norm: L,
    rescale: S,
    output: Seq<u32>,
) -> bool {
    exists|v: NodeVector, length: u32|
        #![trigger call_ensures(norm, (v,), length)]
        {
            &&& v@ == input
            &&& call_ensures(norm, (v,), length)
            &&& if lt(NORM_BOUND, length) {
                rescales(v, length, rescale, output)
            } else {
                output == input
            }
        }
}

/// `output` is what `rescale` returns for the vector and its length.
pub open spec fn rescales<S: Fn(NodeVector, u32) -> NodeVector>(
    v: NodeVector,
    length: u32,
    rescale: S,
    output: Seq<u32>,
) -> bool {
    exists|r: NodeVector|
        #![trigger call_ensures(rescale, (v, length), r)]
        call_ensures(rescale, (v, length), r) && r@ == output
}

/// The words are those of some vector held to the norm bound.
pub open spec fn is_normalized<L: Fn(NodeVector) -> u32, S: Fn(NodeVector, u32) -> NodeVector>(
    norm: L,
    rescale: S,
    words: Seq<u32>,
) -> bool {
    exists|input: Seq<u32>| #![trigger bounds(input, norm, rescale, words)] bounds(input, norm, rescale, words)
}

/// Normalizing node `node` of `vectors` leads to `after`: the vector of
/// the node is held to the norm bound, and no other vector changes.
pub open spec fn normalizes<L: Fn(NodeVector) -> u32, S: Fn(NodeVector, u32) -> NodeVector>(
    vectors: Seq<Seq<u32>>,
    node: u32,
    norm: L,
    rescale: S,
    after: Seq<Seq<u32>>,
) -> bool {
    if node < vectors.len() {
        &&& after.len() == vectors.len()
        &&& bounds(vectors[node as int], norm, rescale, after[node as int])
        &&& after == vectors.update(node as int, after[node as int])
    } else {
        after == vectors
    }
}

/// Holds a vector to the norm bound: a vector whose length, as `norm`
/// computes it, exceeds the bound is replaced by what `rescale` makes of
/// it; any other vector is returned as it is.
pub fn bounded<L: Fn(NodeVector) -> u32, S: Fn(NodeVector, u32) -> NodeVector>(
    v: NodeVector,
    norm: &L,
    rescale: &S,
) -> (r: NodeVector)
    requires
        forall|x: NodeVector| #[trigger] call_requires(*norm, (x,)),
        forall|x: NodeVector, length: u32| #[trigger] call_requires(*rescale, (x, length)),
    ensures
        exists|length: u32|
            #![trigger call_ensures(*norm, (v,), length)]
            {
                &&& call_ensures(*norm, (v,), length)
                &&& if lt(NORM_BOUND, length) {
                    call_ensures(*rescale, (v, length), r)
                } else {
                    r == v
                }
            },
        bounds(v@, *norm, *rescale, r@),
{
    let length = norm(v);
    if less_than(NORM_BOUND, length) {
        let r = rescale(v, length);
        assert(call_ensures(*norm, (v,), length));
        assert(rescales(v, length, *rescale, r@));
        r
    } else {
        assert(call_ensures(*norm, (v,), length));
        v
    }
}

/// One whole step leads from `start` to `end` with largest change
/// `largest`: the processors are executed one after the other in schedule
/// order, each on the vectors that the one before it left, then the
/// vectors are normalized one after the other in order of id, and
/// `largest` is the largest change reported by an execution.
pub open spec fn step_leads<K: Fn(Job) -> Update, L: Fn(NodeVector) -> u32, S: Fn(NodeVector, u32) -> NodeVector>(
    start: Seq<Seq<u32>>,
    processors: Seq<HyperedgeProcessor>,
    order: Seq<ProcessorType>,
    kernel: K,
    norm: L,
    rescale: S,
    end: Seq<Seq<u32>>,
    largest: u32,
) -> bool {
    exists|executed: Seq<Seq<Seq<u32>>>, deltas: Seq<u32>, normalized: Seq<Seq<Seq<u32>>>|
        #![trigger step_trace(start, processors, order, kernel, norm, rescale, executed, deltas, normalized)]
        {
            &&& step_trace(start, processors, order, kernel, norm, rescale, executed, deltas, normalized)
            &&& end == normalized.last()
            &&& largest == crate::scheduler::largest(deltas, deltas.len() as int)
        }
}

/// The states through which a step passes: `executed[k]` holds the
/// vectors before the `k`-th execution and `deltas[k]` the change that it
/// reports; `normalized[j]` holds the vectors before node `j` is
/// normalized.
pub open spec fn step_trace<K: Fn(Job) -> Update, L: Fn(NodeVector) -> u32, S: Fn(NodeVector, u32) -> NodeVector>(
    start: Seq<Seq<u32>>,
    processors: Seq<HyperedgeProcessor>,
    order: Seq<ProcessorType>,
    kernel: K,
    norm: L,
    rescale: S,
    executed: Seq<Seq<Seq<u32>>>,
    deltas: Seq<u32>,
    normalized: Seq<Seq<Seq<u32>>>,
) -> bool {
    let ids = execution_order(processors, order, order.len() as int);
    &&& executed.len() == ids.len() + 1
    &&& deltas.len() == ids.len()
    &&& normalized.len() == start.len() + 1
    &&& executed[0] == start
    &&& normalized[0] == executed.last()
    &&& forall|k: int|
        0 <= k < ids.len() ==> executes(
            executed[k],
            processors,
            ids[k],
            kernel,
            executed[k + 1],
            #[trigger] deltas[k],
        )
    &&& forall|j: int|
        0 <= j < start.len() ==> normalizes(
            #[trigger] normalized[j],
            j as u32,
            norm, rescale,
            normalized[j + 1],
        )
}

/// A run leads from `start` to `end` and ends as `run`: `states[k]` holds
/// the vectors before step `k`, `runs[k]` the bookkeeping before it and
/// `deltas[k]` its largest change; every step is taken while the run is
/// still running.
pub open spec fn run_trace<K: Fn(Job) -> Update, L: Fn(NodeVector) -> u32, S: Fn(NodeVector, u32) -> NodeVector>(
    start: Seq<Seq<u32>>,
    processors: Seq<HyperedgeProcessor>,
    order: Seq<ProcessorType>,
    begin: Run,
    kernel: K,
    norm: L,
    rescale: S,
    states: Seq<Seq<Seq<u32>>>,
    runs: Seq<Run>,
    deltas: Seq<u32>,
) -> bool {
    &&& states.len() == deltas.len() + 1
    &&& runs.len() == deltas.len() + 1
    &&& states[0] == start
    &&& runs[0] == begin
    &&& forall|k: int|
        0 <= k < deltas.len() ==> {
            &&& runs[k].status == RunStatus::Running
            &&& step_leads(
                states[k],
                processors,
                order,
                kernel,
                norm, rescale,
                states[k + 1],
                #[trigger] deltas[k],
            )
            &&& runs[k + 1] == runs[k].spec_record(deltas[k])
        }
}

/// Taking steps while the run is running leads from `start` to `end` and
/// leaves the run as `run`.
pub open spec fn run_leads<K: Fn(Job) -> Update, L: Fn(NodeVector) -> u32, S: Fn(NodeVector, u32) -> NodeVector>(
    start: Seq<Seq<u32>>,
    processors: Seq<HyperedgeProcessor>,
    order: Seq<ProcessorType>,
    begin: Run,
    kernel: K,
    norm: L,
    rescale: S,
    end: Seq<Seq<u32>>,
    run: Run,
) -> bool {
    exists|states: Seq<Seq<Seq<u32>>>, runs: Seq<Run>, deltas: Seq<u32>|
        #![trigger run_trace(start, processors, order, begin, kernel, norm, rescale, states, runs, deltas)]
        {
            &&& run_trace(start, processors, order, begin, kernel, norm, rescale, states, runs, deltas)
            &&& end == states.last()
            &&& run == runs.last()
        }
}

/// The connections through which a Hebbian step passes: `tables[k]` holds
/// the connections, and `counts[k]` the number of pairs strengthened,
/// before the rule is applied to pair `k`.
pub open spec fn hebbian_trace<H: Fn(HebbianJob, u32) -> HebbianOutcome>(
    start: Map<(u32, u32), u32>,
    vectors: Seq<Seq<u32>>,
    pairs: Seq<(u32, u32)>,
    rate: u32,
    kernel: H,
    tables: Seq<Map<(u32, u32), u32>>,
    counts: Seq<int>,
) -> bool {
    &&& tables.len() == pairs.len() + 1
    &&& counts.len() == pairs.len() + 1
    &&& tables[0] == start
    &&& counts[0] == 0
    &&& forall|k: int|
        0 <= k < pairs.len() ==> hebbian_applies(
            #[trigger] tables[k],
            counts[k],
            vectors,
            pairs[k],
            rate,
            kernel,
            tables[k + 1],
            counts[k + 1],
        )
}

/// Applying the Hebbian rule to the pairs, in order, leads from the
/// connections `start` to `end` and strengthens `count` pairs. A pair
/// with a node that is not allocated is passed over.
pub open spec fn hebbian_leads<H: Fn(HebbianJob, u32) -> HebbianOutcome>(
    start: Map<(u32, u32), u32>,
    vectors: Seq<Seq<u32>>,
    pairs: Seq<(u32, u32)>,
    rate: u32,
    kernel: H,
    end: Map<(u32, u32), u32>,
    count: int,
) -> bool {
    exists|tables: Seq<Map<(u32, u32), u32>>, counts: Seq<int>|
        #![trigger hebbian_trace(start, vectors, pairs, rate, kernel, tables, counts)]
        {
            &&& hebbian_trace(start, vectors, pairs, rate, kernel, tables, counts)
            &&& end == tables.last()
            &&& count == counts.last()
        }
}

/// Resolving one flagged conflict leads from `vectors` and `count` settled
/// conflicts to `after` and `after_count`: a conflict that is to be
/// averaged, between two allocated nodes, is settled with what `average`
/// returns for their semantic regions; any other conflict changes
/// nothing.
pub open spec fn resolves<A: Fn(Vec<u32>, Vec<u32>) -> Vec<u32>>(
    vectors: Seq<Seq<u32>>,
    count: int,
    antibody: Antibody,
    average: A,
    after: Seq<Seq<u32>>,
    after_count: int,
) -> bool {
    if antibody.resolution.averages() && antibody.node1 < vectors.len() && antibody.node2
        < vectors.len() {
        &&& after_count == count + 1
        &&& exists|a: Vec<u32>, b: Vec<u32>, averaged: Vec<u32>|
            #![trigger call_ensures(average, (a, b), averaged)]
            {
                &&& a@ == vectors[antibody.node1 as int].subrange(
                    Region::Semantic.lower(),
                    Region::Semantic.upper(),
                )
                &&& b@ == vectors[antibody.node2 as int].subrange(
                    Region::Semantic.lower(),
                    Region::Semantic.upper(),
                )
                &&& call_ensures(average, (a, b), averaged)
                &&& after == settled(vectors, antibody.node1, antibody.node2, averaged@)
            }
    } else {
        after == vectors && after_count == count
    }
}

/// The vectors through which the resolution of the flagged conflicts
/// passes: `states[k]` holds the vectors, and `counts[k]` the number of
/// conflicts settled, before conflict `k` is resolved.
pub open spec fn conflict_trace<A: Fn(Vec<u32>, Vec<u32>) -> Vec<u32>>(
    start: Seq<Seq<u32>>,
    antibodies: Seq<Antibody>,
    average: A,
    states: Seq<Seq<Seq<u32>>>,
    counts: Seq<int>,
) -> bool {
    &&& states.len() == antibodies.len() + 1
    &&& counts.len() == antibodies.len() + 1
    &&& states[0] == start
    &&& counts[0] == 0
    &&& forall|k: int|
        0 <= k < antibodies.len() ==> resolves(
            #[trigger] states[k],
            counts[k],
            antibodies[k],
            average,
            states[k + 1],
            counts[k + 1],
        )
}

/// Resolving the flagged conflicts, oldest first, leads from `start` to
/// `end` and settles `count` of them.
pub open spec fn conflicts_lead<A: Fn(Vec<u32>, Vec<u32>) -> Vec<u32>>(
    start: Seq<Seq<u32>>,
    antibodies: Seq<Antibody>,
    average: A,
    end: Seq<Seq<u32>>,
    count: int,
) -> bool {
    exists|states: Seq<Seq<Seq<u32>>>, counts: Seq<int>|
        #![trigger conflict_trace(start, antibodies, average, states, counts)]
        {
            &&& conflict_trace(start, antibodies, average, states, counts)
            &&& end == states.last()
            &&& count == counts.last()
        }
}

/// Applying the Hebbian rule to one pair leads from the connections `mid`
/// and the count `before` to `end` and `count`.
pub open spec fn hebbian_applies<H: Fn(HebbianJob, u32) -> HebbianOutcome>(
    mid: Map<(u32, u32), u32>,
    before: int,
    vectors: Seq<Seq<u32>>,
    pair: (u32, u32),
    rate: u32,
    kernel: H,
    end: Map<(u32, u32), u32>,
    count: int,
) -> bool {
    if pair.0 < vectors.len() && pair.1 < vectors.len() {
        exists|job: HebbianJob, outcome: HebbianOutcome|
            #![trigger call_ensures(kernel, (job, rate), outcome)]
            {
                &&& hebbian_job_for(vectors, mid, pair.0, pair.1, job)
                &&& call_ensures(kernel, (job, rate), outcome)
                &&& end == strengthened(mid, pair.0, pair.1, outcome)
                &&& count == before + (if lt(HEBBIAN_THRESHOLD, outcome.correlation) {
                    1int
                } else {
                    0int
                })
            }
    } else {
        end == mid && count == before
    }
}

/// After a step every vector is within whatever `norm` and `rescale`
/// stand for: if a length at or below the bound means that the vector is
/// within bounds, and every result of `rescale` is within bounds, then so
/// is every vector that was held to the norm bound. This is the
/// boundedness of every node and processor vector after a step.
pub proof fn lemma_step_bounds<L: Fn(NodeVector) -> u32, S: Fn(NodeVector, u32) -> NodeVector>(
    norm: L,
    rescale: S,
    within: spec_fn(Seq<u32>) -> bool,
    words: Seq<u32>,
)
    requires
        forall|v: NodeVector, length: u32| #[trigger]
            call_ensures(norm, (v,), length) && !lt(NORM_BOUND, length) ==> within(v@),
        forall|v: NodeVector, length: u32, r: NodeVector| #[trigger]
            call_ensures(rescale, (v, length), r) ==> within(r@),
        is_normalized(norm, rescale, words),
    ensures
        within(words),
{
    let input = choose|input: Seq<u32>| #![trigger bounds(input, norm, rescale, words)]
        bounds(input, norm, rescale, words);
    let (v, length) = choose|v: NodeVector, length: u32|
        #![trigger call_ensures(norm, (v,), length)]
        {
            &&& v@ == input
            &&& call_ensures(norm, (v,), length)
            &&& if lt(NORM_BOUND, length) {
                rescales(v, length, rescale, words)
            } else {
                words == input
            }
        };
    if lt(NORM_BOUND, length) {
        let r = choose|r: NodeVector|
            #![trigger call_ensures(rescale, (v, length), r)]
            call_ensures(rescale, (v, length), r) && r@ == words;
        assert(within(r@));
    }
}

/// The largest of the first `n` changes does not depend on later ones.
proof fn lemma_largest_prefix(deltas: Seq<u32>, next: u32, n: int)
    requires
        0 <= n <= deltas.len(),
    ensures
        crate::scheduler::largest(deltas.push(next), n) == crate::scheduler::largest(deltas, n),
    decreases n,
{
    if n > 0 {
        lemma_largest_prefix(deltas, next, n - 1);
        assert(deltas.push(next)[n - 1] == deltas[n - 1]);
    }
}

impl LoomRuntime {
    /// Creates a processor over the given members, with the mean of the
    /// semantic regions of its allocated members, as `mean` computes it,
    /// as the semantic region of its vector. Fails with `EmptyMembers`
    /// when there are no members and with `StoreFull` when the store has
    /// no free slot, in both cases changing nothing.
    pub fn create<M: Fn(Vec<Vec<u32>>) -> Vec<u32>>(
        &mut self,
        name: String,
        members: Vec<u32>,
        compute_fn: ComputeFunction,
        params: ProcessorParams,
        mean: &M,
    ) -> (r: Result<u32, LoomError>)
        requires
            old(self).well_formed(),
            forall|semantics: Vec<Vec<u32>>| #[trigger] call_requires(*mean, (semantics,)),
        ensures
            final(self).well_formed(),
            final(self).connections@ == old(self).connections@,
            final(self).antibodies@ == old(self).antibodies@,
            exists|semantics: Vec<Vec<u32>>, cold_start: Vec<u32>|
                #![trigger call_ensures(*mean, (semantics,), cold_start)]
                {
                    &&& semantics@.map_values(|v: Vec<u32>| v@) == live_semantics(
                        old(self).store@,
                        members@,
                        members@.len() as int,
                    )
                    &&& call_ensures(*mean, (semantics,), cold_start)
                    &&& final(self).created_from(
                        old(self),
                        name@,
                        members,
                        compute_fn,
                        params,
                        cold_start@,
                        r,
                    )
                },
    {
        let semantics = self.member_semantics(&members);
        let ghost handed = semantics;
        let cold_start = mean(semantics);
        let r = self.create_processor(name, members, compute_fn, params, &cold_start);
        assert(call_ensures(*mean, (handed,), cold_start));
        r
    }

    /// Executes processor `id` with the update rule `kernel` and returns
    /// the largest absolute change that the rule reports. A processor
    /// with a member that is not allocated, or with too few members for
    /// its kind, changes nothing and returns zero. Fails with `NotFound`,
    /// changing nothing, when no processor carries the id.
    pub fn execute<K: Fn(Job) -> Update>(&mut self, id: u32, kernel: &K) -> (r: Result<
        u32,
        LoomError,
    >)
        requires
            old(self).well_formed(),
            forall|job: Job| #[trigger] call_requires(*kernel, (job,)),
        ensures
            final(self).well_formed(),
            final(self).same_graph(old(self)),
            final(self).store.live() == old(self).store.live(),
            final(self).store.slots() == old(self).store.slots(),
            match r {
                Err(e) => {
                    &&& e == LoomError::NotFound
                    &&& position_of(old(self).registry@, id).is_none()
                    &&& final(self).store.same_as(old(self).store)
                },
                Ok(delta) => {
                    &&& position_of(old(self).registry@, id).is_some()
                    &&& executes(old(self).store@, old(self).registry@, id, *kernel, final(self).store@, delta)
                },
            },
    {
        match self.prepare(id) {
            Err(e) => Err(e),
            Ok(Plan::Idle) => Ok(ZERO),
            Ok(Plan::Run(job)) => {
                let ghost handed = job;
                let update = kernel(job);
                let r = self.commit(id, &update);
                assert(call_ensures(*kernel, (handed,), update));
                r
            },
        }
    }

    /// Takes one step: executes the processors kind after kind in the
    /// given order of kinds, within a kind in creation order, then holds
    /// every vector of the store to the norm bound: a vector whose length,
    /// as `norm` computes it, exceeds the bound is replaced by what
    /// `rescale` makes of it. Returns the largest change that an execution
    /// reported.
    pub fn step<K: Fn(Job) -> Update, L: Fn(NodeVector) -> u32, S: Fn(NodeVector, u32) -> NodeVector>(
        &mut self,
        order: &Vec<ProcessorType>,
        kernel: &K,
        norm: &L,
        rescale: &S,
    ) -> (largest: u32)
        requires
            old(self).well_formed(),
            forall|job: Job| #[trigger] call_requires(*kernel, (job,)),
            forall|v: NodeVector| #[trigger] call_requires(*norm, (v,)),
            forall|v: NodeVector, length: u32| #[trigger] call_requires(*rescale, (v, length)),
        ensures
            final(self).well_formed(),
            final(self).same_graph(old(self)),
            final(self).store.live() == old(self).store.live(),
            final(self).store.slots() == old(self).store.slots(),
            step_leads(
                old(self).store@,
                old(self).registry@,
                order@,
                *kernel,
                *norm, *rescale,
                final(self).store@,
                largest,
            ),
            forall|node: int|
                0 <= node < final(self).store@.len() ==> is_normalized(
                    *norm, *rescale,
                    #[trigger] final(self).store@[node],
                ),
    {
        let ids = self.registry.execution_order(order);
        let ghost start = self.store@;
        let ghost processors = self.registry@;
        let ghost mut executed: Seq<Seq<Seq<u32>>> = seq![start];
        let ghost mut deltas: Seq<u32> = Seq::empty();
        let mut tracker = StepTracker::new();
        let mut i: usize = 0;
        while i < ids.len()
            invariant
                i <= ids.len(),
                self.well_formed(),
                self.same_graph(old(self)),
                self.store.live() == old(self).store.live(),
                self.store.slots() == old(self).store.slots(),
                start == old(self).store@,
                processors == old(self).registry@,
                ids@ == execution_order(processors, order@, order@.len() as int),
                forall|job: Job| #[trigger] call_requires(*kernel, (job,)),
                executed.len() == i + 1,
                deltas.len() == i,
                executed[0] == start,
                executed[i as int] == self.store@,
                tracker.max_delta == crate::scheduler::largest(deltas, i as int),
                forall|k: int|
                    0 <= k < i ==> executes(
                        executed[k],
                        processors,
                        ids@[k],
                        *kernel,
                        executed[k + 1],
                        #[trigger] deltas[k],
                    ),
            decreases ids.len() - i,
        {
            let ghost mid = self.store@;
            let delta: u32 = match self.execute(ids[i], kernel) {
                Ok(delta) => delta,
                Err(_) => ZERO,
            };
            tracker.observe(delta);
            proof {
                assert(executes(mid, processors, ids@[i as int], *kernel, self.store@, delta));
                lemma_largest_prefix(deltas, delta, i as int);
                let ghost earlier = executed;
                let ghost reported = deltas;
                executed = executed.push(self.store@);
                deltas = deltas.push(delta);
                assert forall|k: int| 0 <= k < i + 1 implies executes(
                    executed[k],
                    processors,
                    ids@[k],
                    *kernel,
                    executed[k + 1],
                    #[trigger] deltas[k],
                ) by {
                    if k < i {
                        assert(executed[k] == earlier[k]);
                        assert(executed[k + 1] == earlier[k + 1]);
                        assert(deltas[k] == reported[k]);
                        assert(executes(
                            earlier[k],
                            processors,
                            ids@[k],
                            *kernel,
                            earlier[k + 1],
                            reported[k],
                        ));
                    }
                }
            }
            i = i + 1;
        }
        let count: usize = self.store.node_count();
        let ghost mut normalized: Seq<Seq<Seq<u32>>> = seq![self.store@];
        let mut node: usize = 0;
        while node < count
            invariant
                node <= count,
                count == self.store.live(),
                count <= u32::MAX,
                self.well_formed(),
                self.same_graph(old(self)),
                self.store.live() == old(self).store.live(),
                self.store.slots() == old(self).store.slots(),
                start.len() == count,
                forall|v: NodeVector| #[trigger] call_requires(*norm, (v,)),
            forall|v: NodeVector, length: u32| #[trigger] call_requires(*rescale, (v, length)),
                normalized.len() == node + 1,
                normalized[0] == executed.last(),
                normalized[node as int] == self.store@,
                forall|j: int|
                    0 <= j < node ==> normalizes(
                        #[trigger] normalized[j],
                        j as u32,
                        *norm, *rescale,
                        normalized[j + 1],
                    ),
                forall|done: int|
                    0 <= done < node ==> is_normalized(*norm, *rescale, #[trigger] self.store@[done]),
            decreases count - node,
        {
            let ghost mid = self.store@;
            match self.store.read_vector(node as u32) {
                Ok(input) => {
                    let output = bounded(input, norm, rescale);
                    let _ = self.store.write_vector(node as u32, &output);
                    proof {
                        assert(bounds(mid[node as int], *norm, *rescale, output@));
                        assert(self.store@ == mid.update(node as int, output@));
                        assert(is_normalized(*norm, *rescale, self.store@[node as int]));
                        assert forall|done: int| 0 <= done < node + 1 implies is_normalized(
                            *norm, *rescale,
                            #[trigger] self.store@[done],
                        ) by {
                            if done < node {
                                assert(self.store@[done] == mid[done]);
                            }
                        }
                    }
                },
                Err(_) => {},
            }
            proof {
                assert(normalizes(mid, node as u32, *norm, *rescale, self.store@));
                let ghost earlier = normalized;
                normalized = normalized.push(self.store@);
                assert forall|j: int| 0 <= j < node + 1 implies normalizes(
                    #[trigger] normalized[j],
                    j as u32,
                    *norm, *rescale,
                    normalized[j + 1],
                ) by {
                    if j < node {
                        assert(normalized[j] == earlier[j]);
                        assert(normalized[j + 1] == earlier[j + 1]);
                        assert(normalizes(earlier[j], j as u32, *norm, *rescale, earlier[j + 1]));
                    }
                }
            }
            node = node + 1;
        }
        proof {
            assert(step_trace(
                start,
                processors,
                order@,
                *kernel,
                *norm, *rescale,
                executed,
                deltas,
                normalized,
            ));
        }
        tracker.max_delta
    }

    /// Runs the schedule: takes steps until the largest change of a step
    /// is below epsilon or the allowed number of steps is used up, and
    /// reports how the run ended.
    pub fn run<K: Fn(Job) -> Update, L: Fn(NodeVector) -> u32, S: Fn(NodeVector, u32) -> NodeVector>(
        &mut self,
        schedule: &Schedule,
        kernel: &K,
        norm: &L,
        rescale: &S,
    ) -> (run: Run)
        requires
            old(self).well_formed(),
            forall|job: Job| #[trigger] call_requires(*kernel, (job,)),
            forall|v: NodeVector| #[trigger] call_requires(*norm, (v,)),
            forall|v: NodeVector, length: u32| #[trigger] call_requires(*rescale, (v, length)),
        ensures
            final(self).well_formed(),
            final(self).same_graph(old(self)),
            final(self).store.live() == old(self).store.live(),
            final(self).store.slots() == old(self).store.slots(),
            run.well_formed(),
            run.status != RunStatus::Running,
            run.max_steps == schedule.steps,
            run.epsilon == schedule.epsilon,
            run.status == RunStatus::Converged ==> lt(run.last_delta, schedule.epsilon),
            run.status == RunStatus::Exhausted ==> run.steps_done == schedule.steps,
            run_leads(
                old(self).store@,
                old(self).registry@,
                schedule.order@,
                Run::spec_begin(schedule.steps, schedule.epsilon),
                *kernel,
                *norm, *rescale,
                final(self).store@,
                run,
            ),
    {
        let mut run = Run::begin(schedule.steps, schedule.epsilon);
        let ghost begin = run;
        let ghost mut states: Seq<Seq<Seq<u32>>> = seq![self.store@];
        let ghost mut runs: Seq<Run> = seq![run];
        let ghost mut deltas: Seq<u32> = Seq::empty();
        while run.is_running()
            invariant
                self.well_formed(),
                self.same_graph(old(self)),
                self.store.live() == old(self).store.live(),
                self.store.slots() == old(self).store.slots(),
                begin == Run::spec_begin(schedule.steps, schedule.epsilon),
                run.well_formed(),
                run.max_steps == schedule.steps,
                run.epsilon == schedule.epsilon,
                run.status == RunStatus::Converged ==> lt(run.last_delta, schedule.epsilon),
                run.status == RunStatus::Exhausted ==> run.steps_done == schedule.steps,
                forall|job: Job| #[trigger] call_requires(*kernel, (job,)),
                forall|v: NodeVector| #[trigger] call_requires(*norm, (v,)),
            forall|v: NodeVector, length: u32| #[trigger] call_requires(*rescale, (v, length)),
                states.last() == self.store@,
                runs.last() == run,
                run_trace(
                    old(self).store@,
                    old(self).registry@,
                    schedule.order@,
                    begin,
                    *kernel,
                    *norm, *rescale,
                    states,
                    runs,
                    deltas,
                ),
            decreases run.max_steps - run.steps_done,
        {
            let ghost mid = self.store@;
            let ghost before = run;
            let delta = self.step(&schedule.order, kernel, norm, rescale);
            run.record_step(delta);
            proof {
                let ghost earlier_states = states;
                let ghost earlier_runs = runs;
                let ghost earlier_deltas = deltas;
                let n = deltas.len() as int;
                states = states.push(self.store@);
                runs = runs.push(run);
                deltas = deltas.push(delta);
                assert forall|k: int| 0 <= k < deltas.len() implies {
                    &&& runs[k].status == RunStatus::Running
                    &&& step_leads(
                        states[k],
                        old(self).registry@,
                        schedule.order@,
                        *kernel,
                        *norm, *rescale,
                        states[k + 1],
                        #[trigger] deltas[k],
                    )
                    &&& runs[k + 1] == runs[k].spec_record(deltas[k])
                } by {
                    if k < n {
                        assert(states[k] == earlier_states[k]);
                        assert(states[k + 1] == earlier_states[k + 1]);
                        assert(runs[k] == earlier_runs[k]);
                        assert(runs[k + 1] == earlier_runs[k + 1]);
                        assert(deltas[k] == earlier_deltas[k]);
                    } else {
                        assert(states[k] == mid);
                        assert(runs[k] == before);
                    }
                }
            }
        }
        run
    }

    /// One Hebbian step over the active nodes: for every unordered pair
    /// of two different allocated nodes among them, `kernel` computes the
    /// correlation of their activation histories and both strengths
    /// raised by `rate` times the correlation; a pair whose correlation
    /// exceeds the threshold takes the raised strengths, clipped to
    /// `[0, 1]`. Returns the number of pairs strengthened.
    pub fn hebbian_step<H: Fn(HebbianJob, u32) -> HebbianOutcome>(
        &mut self,
        active: &Vec<u32>,
        rate: u32,
        kernel: &H,
    ) -> (count: usize)
        requires
            old(self).well_formed(),
            forall|job: HebbianJob| #[trigger] call_requires(*kernel, (job, rate)),
        ensures
            final(self).well_formed(),
            final(self).store == old(self).store,
            final(self).names@ == old(self).names@,
            final(self).registry@ == old(self).registry@,
            final(self).antibodies@ == old(self).antibodies@,
            hebbian_leads(
                old(self).connections@,
                old(self).store@,
                pairs_upto(active@, old(self).store.live(), active@.len() as int),
                rate,
                *kernel,
                final(self).connections@,
                count as int,
            ),
    {
        let pairs = self.hebbian_pairs(active);
        let ghost mut tables: Seq<Map<(u32, u32), u32>> = seq![self.connections@];
        let ghost mut counts: Seq<int> = seq![0int];
        let mut count: usize = 0;
        let mut i: usize = 0;
        while i < pairs.len()
            invariant
                i <= pairs.len(),
                count <= i,
                self.well_formed(),
                self.store == old(self).store,
                self.names@ == old(self).names@,
                self.registry@ == old(self).registry@,
                self.antibodies@ == old(self).antibodies@,
                forall|job: HebbianJob| #[trigger] call_requires(*kernel, (job, rate)),
                tables.len() == i + 1,
                counts.len() == i + 1,
                tables[0] == old(self).connections@,
                counts[0] == 0,
                tables[i as int] == self.connections@,
                counts[i as int] == count,
                forall|k: int|
                    0 <= k < i ==> hebbian_applies(
                        #[trigger] tables[k],
                        counts[k],
                        old(self).store@,
                        pairs@[k],
                        rate,
                        *kernel,
                        tables[k + 1],
                        counts[k + 1],
                    ),
            decreases pairs.len() - i,
        {
            let pair: (u32, u32) = pairs[i];
            let ghost mid = self.connections@;
            let ghost before = count as int;
            match self.hebbian_job(pair.0, pair.1) {
                Some(job) => {
                    let ghost handed = job;
                    let outcome = kernel(job, rate);
                    if self.apply_hebbian(pair.0, pair.1, outcome) {
                        count = count + 1;
                    }
                    assert(call_ensures(*kernel, (handed, rate), outcome));
                },
                None => {},
            }
            proof {
                assert(hebbian_applies(
                    mid,
                    before,
                    old(self).store@,
                    pairs@[i as int],
                    rate,
                    *kernel,
                    self.connections@,
                    count as int,
                ));
                let ghost earlier_tables = tables;
                let ghost earlier_counts = counts;
                tables = tables.push(self.connections@);
                counts = counts.push(count as int);
                assert forall|k: int| 0 <= k < i + 1 implies hebbian_applies(
                    #[trigger] tables[k],
                    counts[k],
                    old(self).store@,
                    pairs@[k],
                    rate,
                    *kernel,
                    tables[k + 1],
                    counts[k + 1],
                ) by {
                    if k < i {
                        assert(tables[k] == earlier_tables[k]);
                        assert(tables[k + 1] == earlier_tables[k + 1]);
                        assert(counts[k] == earlier_counts[k]);
                        assert(counts[k + 1] == earlier_counts[k + 1]);
                        assert(hebbian_applies(
                            earlier_tables[k],
                            earlier_counts[k],
                            old(self).store@,
                            pairs@[k],
                            rate,
                            *kernel,
                            earlier_tables[k + 1],
                            earlier_counts[k + 1],
                        ));
                    } else {
                        assert(tables[k] == mid);
                        assert(counts[k] == before);
                    }
                }
            }
            i = i + 1;
        }
        proof {
            assert(hebbian_trace(
                old(self).connections@,
                old(self).store@,
                pairs@,
                rate,
                *kernel,
                tables,
                counts,
            ));
        }
        count
    }

    /// Resolves every flagged conflict, oldest first, and returns how many
    /// were settled. A conflict that is to be averaged, between two
    /// allocated nodes, is settled: both nodes take what `average` returns
    /// for their semantic regions as their semantic region. Any other
    /// conflict is dropped. Afterwards no conflict is flagged.
    pub fn resolve_conflicts<A: Fn(Vec<u32>, Vec<u32>) -> Vec<u32>>(&mut self, average: &A) -> (count:
        usize)
        requires
            old(self).well_formed(),
            forall|a: Vec<u32>, b: Vec<u32>| #[trigger] call_requires(*average, (a, b)),
        ensures
            final(self).well_formed(),
            final(self).antibodies@.len() == 0,
            final(self).names@ == old(self).names@,
            final(self).connections@ == old(self).connections@,
            final(self).registry@ == old(self).registry@,
            final(self).store.live() == old(self).store.live(),
            final(self).store.slots() == old(self).store.slots(),
            conflicts_lead(
                old(self).store@,
                old(self).antibodies@,
                *average,
                final(self).store@,
                count as int,
            ),
    {
        let ghost mut states: Seq<Seq<Seq<u32>>> = seq![self.store@];
        let ghost mut counts: Seq<int> = seq![0int];
        let mut count: usize = 0;
        let mut i: usize = 0;
        while i < self.antibodies.len()
            invariant
                i <= self.antibodies@.len(),
                count <= i,
                self.well_formed(),
                self.antibodies@ == old(self).antibodies@,
                self.names@ == old(self).names@,
                self.connections@ == old(self).connections@,
                self.registry@ == old(self).registry@,
                self.store.live() == old(self).store.live(),
                self.store.slots() == old(self).store.slots(),
                forall|a: Vec<u32>, b: Vec<u32>| #[trigger] call_requires(*average, (a, b)),
                states.len() == i + 1,
                counts.len() == i + 1,
                states[0] == old(self).store@,
                counts[0] == 0,
                states[i as int] == self.store@,
                counts[i as int] == count,
                forall|k: int|
                    0 <= k < i ==> resolves(
                        #[trigger] states[k],
                        counts[k],
                        old(self).antibodies@[k],
                        *average,
                        states[k + 1],
                        counts[k + 1],
                    ),
            decreases self.antibodies.len() - i,
        {
            let node1: u32 = self.antibodies[i].node1;
            let node2: u32 = self.antibodies[i].node2;
            let averaging: bool = self.antibodies[i].resolution.is_averaging();
            let ghost mid = self.store@;
            let ghost before = count as int;
            if averaging && self.store.contains(node1) && self.store.contains(node2) {
                let first = self.store.read_region(node1, Region::Semantic);
                let second = self.store.read_region(node2, Region::Semantic);
                match (first, second) {
                    (Ok(a), Ok(b)) => {
                        let ghost handed = (a, b);
                        let averaged = average(a, b);
                        let _ = self.settle_conflict(node1, node2, &averaged);
                        count = count + 1;
                        assert(call_ensures(*average, handed, averaged));
                    },
                    _ => {},
                }
            }
            proof {
                assert(resolves(
                    mid,
                    before,
                    old(self).antibodies@[i as int],
                    *average,
                    self.store@,
                    count as int,
                ));
                let ghost earlier_states = states;
                let ghost earlier_counts = counts;
                states = states.push(self.store@);
                counts = counts.push(count as int);
                assert forall|k: int| 0 <= k < i + 1 implies resolves(
                    #[trigger] states[k],
                    counts[k],
                    old(self).antibodies@[k],
                    *average,
                    states[k + 1],
                    counts[k + 1],
                ) by {
                    if k < i {
                        assert(states[k] == earlier_states[k]);
                        assert(states[k + 1] == earlier_states[k + 1]);
                        assert(counts[k] == earlier_counts[k]);
                        assert(counts[k + 1] == earlier_counts[k + 1]);
                        assert(resolves(
                            earlier_states[k],
                            earlier_counts[k],
                            old(self).antibodies@[k],
                            *average,
                            earlier_states[k + 1],
                            earlier_counts[k + 1],
                        ));
                    } else {
                        assert(states[k] == mid);
                        assert(counts[k] == before);
                    }
                }
            }
            i = i + 1;
        }
        proof {
            assert(conflict_trace(
                old(self).store@,
                old(self).antibodies@,
                *average,
                states,
                counts,
            ));
        }
        self.antibodies.clear();
        count
    }
}

} // verus!
