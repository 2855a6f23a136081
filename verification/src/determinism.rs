//! Determinism of steps and runs.
//!
//! The engine adds no choice of its own: when the update rule, the norm
//! and the rescaling are functions of what they read, a step is a function of the
//! vectors it starts from, and so is a run.
use vstd::prelude::*;
use crate::engine::{
    bounds,
    executes,
    normalizes,
    rescales,
    run_leads,
    run_trace,
    step_leads,
    step_trace,
};
use crate::processor::{execution_order, position_of, HyperedgeProcessor, ProcessorType};
use crate::runtime::{committed, job_for, member_writes, runnable, state_write, Job, Update};
use crate::scalar::lt;
use crate::scheduler::{largest, Run, RunStatus, NORM_BOUND};
use crate::vector::NodeVector;

verus! {

/// Two jobs hold the same readings.
pub open spec fn same_reading(a: Job, b: Job) -> bool {
    &&& a.processor == b.processor
    &&& a.kind == b.kind
    &&& a.params == b.params
    &&& a.matrix@ == b.matrix@
    &&& a.state@ == b.state@
    &&& a.members@ == b.members@
    &&& a.inputs@.len() == b.inputs@.len()
    &&& forall|i: int| 0 <= i < a.inputs@.len() ==> (#[trigger] a.inputs@[i])@ == b.inputs@[i]@
}

/// Two optional regions hold the same words, or are both absent.
pub open spec fn same_words(a: Option<Vec<u32>>, b: Option<Vec<u32>>) -> bool {
    match (a, b) {
        (Some(x), Some(y)) => x@ == y@,
        (None, None) => true,
        _ => false,
    }
}

/// Two updates hold the same results.
pub open spec fn same_result(a: Update, b: Update) -> bool {
    &&& a.delta == b.delta
    &&& same_words(a.state, b.state)
    &&& a.members@.len() == b.members@.len()
    &&& forall|i: int| 0 <= i < a.members@.len() ==> same_words(#[trigger] a.members@[i], b.members@[i])
}

/// The update rule is a function of the readings of the job: there is no
/// hidden randomness inside it.
pub open spec fn rule_is_function<K: Fn(Job) -> Update>(kernel: K) -> bool {
    forall|a: Job, b: Job, x: Update, y: Update|
        same_reading(a, b) && #[trigger] call_ensures(kernel, (a,), x) && #[trigger] call_ensures(
            kernel,
            (b,),
            y,
        ) ==> same_result(x, y)
}

/// The norm and the rescaling are functions of the words of the vector.
pub open spec fn normalizer_is_function<L: Fn(NodeVector) -> u32, S: Fn(NodeVector, u32) -> NodeVector>(
    norm: L,
    rescale: S,
) -> bool {
    &&& forall|a: NodeVector, b: NodeVector, x: u32, y: u32|
        a@ == b@ && #[trigger] call_ensures(norm, (a,), x) && #[trigger] call_ensures(norm, (b,), y)
            ==> x == y
    &&& forall|a: NodeVector, b: NodeVector, length: u32, x: NodeVector, y: NodeVector|
        a@ == b@ && #[trigger] call_ensures(rescale, (a, length), x) && #[trigger] call_ensures(
            rescale,
            (b, length),
            y,
        ) ==> x@ == y@
}

/// Member updates with the same results lead to the same vectors.
proof fn lemma_member_writes_agree(
    vectors: Seq<Seq<u32>>,
    kind: ProcessorType,
    members: Seq<u32>,
    a: Seq<Option<Vec<u32>>>,
    b: Seq<Option<Vec<u32>>>,
    n: int,
)
    requires
        a.len() == b.len(),
        forall|i: int| 0 <= i < a.len() ==> same_words(#[trigger] a[i], b[i]),
    ensures
        member_writes(vectors, kind, members, a, n) == member_writes(vectors, kind, members, b, n),
    decreases n,
{
    if n > 0 {
        lemma_member_writes_agree(vectors, kind, members, a, b, n - 1);
        if n <= a.len() {
            assert(same_words(a[n - 1], b[n - 1]));
        }
    }
}

/// Updates with the same results commit to the same vectors.
proof fn lemma_committed_agree(
    vectors: Seq<Seq<u32>>,
    id: u32,
    kind: ProcessorType,
    members: Seq<u32>,
    a: Update,
    b: Update,
)
    requires
        same_result(a, b),
    ensures
        committed(vectors, id, kind, members, a) == committed(vectors, id, kind, members, b),
{
    assert(state_write(vectors, id, kind, a.state) == state_write(vectors, id, kind, b.state));
    lemma_member_writes_agree(
        state_write(vectors, id, kind, a.state),
        kind,
        members,
        a.members@,
        b.members@,
        members.len() as int,
    );
}

/// With a rule that is a function, an execution has one outcome.
pub proof fn lemma_execution_is_deterministic<K: Fn(Job) -> Update>(
    vectors: Seq<Seq<u32>>,
    processors: Seq<HyperedgeProcessor>,
    id: u32,
    kernel: K,
    first: Seq<Seq<u32>>,
    first_delta: u32,
    second: Seq<Seq<u32>>,
    second_delta: u32,
)
    requires
        rule_is_function(kernel),
        executes(vectors, processors, id, kernel, first, first_delta),
        executes(vectors, processors, id, kernel, second, second_delta),
    ensures
        first == second,
        first_delta == second_delta,
{
    match position_of(processors, id) {
        None => {},
        Some(at) => {
            let p = processors[at];
            if runnable(vectors.len(), p.compute_fn.kind(), p.members@) {
                let (job1, update1) = choose|job: Job, update: Update|
                    #![trigger call_ensures(kernel, (job,), update)]
                    {
                        &&& job_for(vectors, p, job)
                        &&& call_ensures(kernel, (job,), update)
                        &&& first_delta == update.delta
                        &&& first == committed(vectors, id, p.compute_fn.kind(), p.members@, update)
                    };
                let (job2, update2) = choose|job: Job, update: Update|
                    #![trigger call_ensures(kernel, (job,), update)]
                    {
                        &&& job_for(vectors, p, job)
                        &&& call_ensures(kernel, (job,), update)
                        &&& second_delta == update.delta
                        &&& second == committed(vectors, id, p.compute_fn.kind(), p.members@, update)
                    };
                assert(same_reading(job1, job2)) by {
                    assert forall|i: int| 0 <= i < job1.inputs@.len() implies (
                    #[trigger] job1.inputs@[i])@ == job2.inputs@[i]@ by {
                        assert(job1.inputs@[i]@ == vectors[p.members@[i] as int]);
                        assert(job2.inputs@[i]@ == vectors[p.members@[i] as int]);
                    }
                }
                assert(same_result(update1, update2));
                lemma_committed_agree(
                    vectors,
                    id,
                    p.compute_fn.kind(),
                    p.members@,
                    update1,
                    update2,
                );
            }
        },
    }
}

/// With a norm and a rescaling that are functions, holding a vector to
/// the norm bound has one outcome.
pub proof fn lemma_bounding_is_deterministic<L: Fn(NodeVector) -> u32, S: Fn(NodeVector, u32) -> NodeVector>(
    input: Seq<u32>,
    norm: L,
    rescale: S,
    first: Seq<u32>,
    second: Seq<u32>,
)
    requires
        normalizer_is_function(norm, rescale),
        bounds(input, norm, rescale, first),
        bounds(input, norm, rescale, second),
    ensures
        first == second,
{
    let (v1, n1) = choose|v: NodeVector, length: u32|
        #![trigger call_ensures(norm, (v,), length)]
        {
            &&& v@ == input
            &&& call_ensures(norm, (v,), length)
            &&& if lt(NORM_BOUND, length) {
                rescales(v, length, rescale, first)
            } else {
                first == input
            }
        };
    let (v2, n2) = choose|v: NodeVector, length: u32|
        #![trigger call_ensures(norm, (v,), length)]
        {
            &&& v@ == input
            &&& call_ensures(norm, (v,), length)
            &&& if lt(NORM_BOUND, length) {
                rescales(v, length, rescale, second)
            } else {
                second == input
            }
        };
    assert(n1 == n2);
    if lt(NORM_BOUND, n1) {
        let r1 = choose|r: NodeVector|
            #![trigger call_ensures(rescale, (v1, n1), r)]
            call_ensures(rescale, (v1, n1), r) && r@ == first;
        let r2 = choose|r: NodeVector|
            #![trigger call_ensures(rescale, (v2, n2), r)]
            call_ensures(rescale, (v2, n2), r) && r@ == second;
        assert(r1@ == r2@);
    }
}

/// With a norm and a rescaling that are functions, a normalization has
/// one outcome.
pub proof fn lemma_normalization_is_deterministic<L: Fn(NodeVector) -> u32, S: Fn(NodeVector, u32) -> NodeVector>(
    vectors: Seq<Seq<u32>>,
    node: u32,
    norm: L,
    rescale: S,
    first: Seq<Seq<u32>>,
    second: Seq<Seq<u32>>,
)
    requires
        normalizer_is_function(norm, rescale),
        normalizes(vectors, node, norm, rescale, first),
        normalizes(vectors, node, norm, rescale, second),
    ensures
        first == second,
{
    if node < vectors.len() {
        lemma_bounding_is_deterministic(
            vectors[node as int],
            norm,
            rescale,
            first[node as int],
            second[node as int],
        );
    }
}

/// Two traces of the same step agree up to execution `k`.
proof fn lemma_executions_agree<K: Fn(Job) -> Update, L: Fn(NodeVector) -> u32, S: Fn(NodeVector, u32) -> NodeVector>(
    start: Seq<Seq<u32>>,
    processors: Seq<HyperedgeProcessor>,
    order: Seq<ProcessorType>,
    kernel: K,
    norm: L,
    rescale: S,
    executed1: Seq<Seq<Seq<u32>>>,
    deltas1: Seq<u32>,
    normalized1: Seq<Seq<Seq<u32>>>,
    executed2: Seq<Seq<Seq<u32>>>,
    deltas2: Seq<u32>,
    normalized2: Seq<Seq<Seq<u32>>>,
    k: int,
)
    requires
        rule_is_function(kernel),
        step_trace(start, processors, order, kernel, norm, rescale, executed1, deltas1, normalized1),
        step_trace(start, processors, order, kernel, norm, rescale, executed2, deltas2, normalized2),
        0 <= k <= deltas1.len(),
    ensures
        executed1[k] == executed2[k],
        forall|i: int| 0 <= i < k ==> deltas1[i] == deltas2[i],
    decreases k,
{
    if k > 0 {
        lemma_executions_agree(
            start,
            processors,
            order,
            kernel,
            norm, rescale,
            executed1,
            deltas1,
            normalized1,
            executed2,
            deltas2,
            normalized2,
            k - 1,
        );
        let ids = execution_order(processors, order, order.len() as int);
        let d1 = deltas1[k - 1];
        let d2 = deltas2[k - 1];
        assert(executes(executed1[k - 1], processors, ids[k - 1], kernel, executed1[k - 1 + 1], d1));
        assert(executes(executed2[k - 1], processors, ids[k - 1], kernel, executed2[k - 1 + 1], d2));
        lemma_execution_is_deterministic(
            executed1[k - 1],
            processors,
            ids[k - 1],
            kernel,
            executed1[k],
            d1,
            executed2[k],
            d2,
        );
    }
}

/// Two traces of the same step agree up to normalization `j`.
proof fn lemma_normalizations_agree<K: Fn(Job) -> Update, L: Fn(NodeVector) -> u32, S: Fn(NodeVector, u32) -> NodeVector>(
    start: Seq<Seq<u32>>,
    processors: Seq<HyperedgeProcessor>,
    order: Seq<ProcessorType>,
    kernel: K,
    norm: L,
    rescale: S,
    executed1: Seq<Seq<Seq<u32>>>,
    deltas1: Seq<u32>,
    normalized1: Seq<Seq<Seq<u32>>>,
    executed2: Seq<Seq<Seq<u32>>>,
    deltas2: Seq<u32>,
    normalized2: Seq<Seq<Seq<u32>>>,
    j: int,
)
    requires
        rule_is_function(kernel),
        normalizer_is_function(norm, rescale),
        step_trace(start, processors, order, kernel, norm, rescale, executed1, deltas1, normalized1),
        step_trace(start, processors, order, kernel, norm, rescale, executed2, deltas2, normalized2),
        0 <= j <= start.len(),
    ensures
        normalized1[j] == normalized2[j],
    decreases j,
{
    if j == 0 {
        lemma_executions_agree(
            start,
            processors,
            order,
            kernel,
            norm, rescale,
            executed1,
            deltas1,
            normalized1,
            executed2,
            deltas2,
            normalized2,
            deltas1.len() as int,
        );
    } else {
        lemma_normalizations_agree(
            start,
            processors,
            order,
            kernel,
            norm, rescale,
            executed1,
            deltas1,
            normalized1,
            executed2,
            deltas2,
            normalized2,
            j - 1,
        );
        assert(normalizes(normalized1[j - 1], (j - 1) as u32, norm, rescale, normalized1[j - 1 + 1]));
        assert(normalizes(normalized2[j - 1], (j - 1) as u32, norm, rescale, normalized2[j - 1 + 1]));
        lemma_normalization_is_deterministic(
            normalized1[j - 1],
            (j - 1) as u32,
            norm, rescale,
            normalized1[j],
            normalized2[j],
        );
    }
}

/// A step is deterministic: when the update rule, the norm and the
/// rescaling are functions of what they read, two steps from the same vectors, with the
/// same processors and the same order of kinds, end in the same vectors
/// and report the same largest change.
pub proof fn lemma_step_is_deterministic<K: Fn(Job) -> Update, L: Fn(NodeVector) -> u32, S: Fn(NodeVector, u32) -> NodeVector>(
    start: Seq<Seq<u32>>,
    processors: Seq<HyperedgeProcessor>,
    order: Seq<ProcessorType>,
    kernel: K,
    norm: L,
    rescale: S,
    first: Seq<Seq<u32>>,
    first_largest: u32,
    second: Seq<Seq<u32>>,
    second_largest: u32,
)
    requires
        rule_is_function(kernel),
        normalizer_is_function(norm, rescale),
        step_leads(start, processors, order, kernel, norm, rescale, first, first_largest),
        step_leads(start, processors, order, kernel, norm, rescale, second, second_largest),
    ensures
        first == second,
        first_largest == second_largest,
{
    let (executed1, deltas1, normalized1) = choose|
        executed: Seq<Seq<Seq<u32>>>,
        deltas: Seq<u32>,
        normalized: Seq<Seq<Seq<u32>>>,
    |
        #![trigger step_trace(start, processors, order, kernel, norm, rescale, executed, deltas, normalized)]
        {
            &&& step_trace(start, processors, order, kernel, norm, rescale, executed, deltas, normalized)
            &&& first == normalized.last()
            &&& first_largest == largest(deltas, deltas.len() as int)
        };
    let (executed2, deltas2, normalized2) = choose|
        executed: Seq<Seq<Seq<u32>>>,
        deltas: Seq<u32>,
        normalized: Seq<Seq<Seq<u32>>>,
    |
        #![trigger step_trace(start, processors, order, kernel, norm, rescale, executed, deltas, normalized)]
        {
            &&& step_trace(start, processors, order, kernel, norm, rescale, executed, deltas, normalized)
            &&& second == normalized.last()
            &&& second_largest == largest(deltas, deltas.len() as int)
        };
    lemma_executions_agree(
        start,
        processors,
        order,
        kernel,
        norm, rescale,
        executed1,
        deltas1,
        normalized1,
        executed2,
        deltas2,
        normalized2,
        deltas1.len() as int,
    );
    assert(deltas1 =~= deltas2);
    lemma_normalizations_agree(
        start,
        processors,
        order,
        kernel,
        norm, rescale,
        executed1,
        deltas1,
        normalized1,
        executed2,
        deltas2,
        normalized2,
        start.len() as int,
    );
}

/// Two traces of runs from the same start agree for as long as both last.
proof fn lemma_runs_agree<K: Fn(Job) -> Update, L: Fn(NodeVector) -> u32, S: Fn(NodeVector, u32) -> NodeVector>(
    start: Seq<Seq<u32>>,
    processors: Seq<HyperedgeProcessor>,
    order: Seq<ProcessorType>,
    begin: Run,
    kernel: K,
    norm: L,
    rescale: S,
    states1: Seq<Seq<Seq<u32>>>,
    runs1: Seq<Run>,
    deltas1: Seq<u32>,
    states2: Seq<Seq<Seq<u32>>>,
    runs2: Seq<Run>,
    deltas2: Seq<u32>,
    k: int,
)
    requires
        rule_is_function(kernel),
        normalizer_is_function(norm, rescale),
        run_trace(start, processors, order, begin, kernel, norm, rescale, states1, runs1, deltas1),
        run_trace(start, processors, order, begin, kernel, norm, rescale, states2, runs2, deltas2),
        0 <= k <= deltas1.len(),
        k <= deltas2.len(),
    ensures
        states1[k] == states2[k],
        runs1[k] == runs2[k],
    decreases k,
{
    if k > 0 {
        lemma_runs_agree(
            start,
            processors,
            order,
            begin,
            kernel,
            norm, rescale,
            states1,
            runs1,
            deltas1,
            states2,
            runs2,
            deltas2,
            k - 1,
        );
        let d1 = deltas1[k - 1];
        let d2 = deltas2[k - 1];
        assert(step_leads(states1[k - 1], processors, order, kernel, norm, rescale, states1[k - 1 + 1], d1));
        assert(step_leads(states2[k - 1], processors, order, kernel, norm, rescale, states2[k - 1 + 1], d2));
        lemma_step_is_deterministic(
            states1[k - 1],
            processors,
            order,
            kernel,
            norm, rescale,
            states1[k],
            d1,
            states2[k],
            d2,
        );
        assert(runs1[k - 1 + 1] == runs1[k - 1].spec_record(d1));
        assert(runs2[k - 1 + 1] == runs2[k - 1].spec_record(d2));
    }
}

/// A run is deterministic: when the update rule, the norm and the
/// rescaling are functions of what they read, two runs from the same vectors that both
/// went on until they ended take the same number of steps, end in the
/// same vectors and end the same way.
pub proof fn lemma_run_is_deterministic<K: Fn(Job) -> Update, L: Fn(NodeVector) -> u32, S: Fn(NodeVector, u32) -> NodeVector>(
    start: Seq<Seq<u32>>,
    processors: Seq<HyperedgeProcessor>,
    order: Seq<ProcessorType>,
    begin: Run,
    kernel: K,
    norm: L,
    rescale: S,
    first: Seq<Seq<u32>>,
    first_run: Run,
    second: Seq<Seq<u32>>,
    second_run: Run,
)
    requires
        rule_is_function(kernel),
        normalizer_is_function(norm, rescale),
        run_leads(start, processors, order, begin, kernel, norm, rescale, first, first_run),
        run_leads(start, processors, order, begin, kernel, norm, rescale, second, second_run),
        first_run.status != RunStatus::Running,
        second_run.status != RunStatus::Running,
    ensures
        first == second,
        first_run == second_run,
{
    let (states1, runs1, deltas1) = choose|
        states: Seq<Seq<Seq<u32>>>,
        runs: Seq<Run>,
        deltas: Seq<u32>,
    |
        #![trigger run_trace(start, processors, order, begin, kernel, norm, rescale, states, runs, deltas)]
        {
            &&& run_trace(start, processors, order, begin, kernel, norm, rescale, states, runs, deltas)
            &&& first == states.last()
            &&& first_run == runs.last()
        };
    let (states2, runs2, deltas2) = choose|
        states: Seq<Seq<Seq<u32>>>,
        runs: Seq<Run>,
        deltas: Seq<u32>,
    |
        #![trigger run_trace(start, processors, order, begin, kernel, norm, rescale, states, runs, deltas)]
        {
            &&& run_trace(start, processors, order, begin, kernel, norm, rescale, states, runs, deltas)
            &&& second == states.last()
            &&& second_run == runs.last()
        };
    let n1 = deltas1.len() as int;
    let n2 = deltas2.len() as int;
    let shorter = if n1 <= n2 {
        n1
    } else {
        n2
    };
    lemma_runs_agree(
        start,
        processors,
        order,
        begin,
        kernel,
        norm, rescale,
        states1,
        runs1,
        deltas1,
        states2,
        runs2,
        deltas2,
        shorter,
    );
    // A run that has ended takes no further step, so neither trace is
    // longer than the other.
    if n1 < n2 {
        assert(runs2[n1].status == RunStatus::Running) by {
            let d = deltas2[n1];
        }
    }
    if n2 < n1 {
        assert(runs1[n2].status == RunStatus::Running) by {
            let d = deltas1[n2];
        }
    }
}

} // verus!
