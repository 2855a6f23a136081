//! The deterministic schedule: what one step does and in which order, and
//! when a run ends.
//!
//! A step executes the processors kind after kind, within a kind in
//! creation order, and then offers every vector of the store for
//! normalization. The caller performs the actions one by one and reports
//! the change of each execution; a run repeats steps until the largest
//! change of a step falls below epsilon or the allowed number of steps is
//! used up.
use vstd::prelude::*;
use crate::processor::{execution_order, HyperedgeProcessor, ProcessorType};
use crate::runtime::LoomRuntime;
use crate::scalar::{less_than, lt, max, maximum, ZERO};

verus! {

/// Encoding of `10.0`: the bound on the Euclidean norm of every vector
/// after a completed step.
pub const NORM_BOUND: u32 = 0x4120_0000;

/// One action of a step.
#[derive(Clone, Copy, Debug, PartialEq, Eq, Structural)]
pub enum StepAction {
    /// Execute the processor with this id.
    Execute(u32),
    /// Rescale the vector of this node to the norm bound if it exceeds it.
    Normalize(u32),
}

/// The actions of one step: the executions in schedule order, then the
/// normalization of every allocated vector in order of id.
pub open spec fn step_plan(
    processors: Seq<HyperedgeProcessor>,
    order: Seq<ProcessorType>,
    live: nat,
) -> Seq<StepAction> {
    execution_order(processors, order, order.len() as int).map_values(
        |id: u32| StepAction::Execute(id),
    ) + Seq::new(live, |i: int| StepAction::Normalize(i as u32))
}

/// The actions of one step of the runtime, in the order in which they are
/// to be performed.
pub fn plan_step(runtime: &LoomRuntime, order: &Vec<ProcessorType>) -> (r: Vec<StepAction>)
    requires
        runtime.well_formed(),
    ensures
        r@ == step_plan(runtime.registry@, order@, runtime.store.live()),
{
    let ids = runtime.registry.execution_order(order);
    let ghost executions = ids@.map_values(|id: u32| StepAction::Execute(id));
    let mut r: Vec<StepAction> = Vec::new();
    let mut i: usize = 0;
    while i < ids.len()
        invariant
            i <= ids.len(),
            executions == ids@.map_values(|id: u32| StepAction::Execute(id)),
            r@ == executions.take(i as int),
        decreases ids.len() - i,
    {
        r.push(StepAction::Execute(ids[i]));
        assert(executions.take(i + 1) == executions.take(i as int).push(executions[i as int]));
        i = i + 1;
    }
    assert(executions.take(ids@.len() as int) == executions);
    let count: usize = runtime.store.node_count();
    let mut n: usize = 0;
    while n < count
        invariant
            n <= count,
            count <= u32::MAX,
            r@ == executions + Seq::new(n as nat, |i: int| StepAction::Normalize(i as u32)),
        decreases count - n,
    {
        r.push(StepAction::Normalize(n as u32));
        n = n + 1;
        assert(r@ =~= executions + Seq::new(n as nat, |i: int| StepAction::Normalize(i as u32)));
    }
    r
}

/// The largest of the changes reported so far in a step.
#[derive(Clone, Copy, Debug, PartialEq, Eq, Structural)]
pub struct StepTracker {
    pub max_delta: u32,
}

/// The largest of the first `n` changes, starting from zero.
pub open spec fn largest(deltas: Seq<u32>, n: int) -> u32
    decreases n,
{
    if n <= 0 {
        ZERO
    } else {
        max(largest(deltas, n - 1), deltas[n - 1])
    }
}

impl StepTracker {
    /// A tracker that has seen no change.
    pub fn new() -> (r: StepTracker)
        ensures
            r.max_delta == ZERO,
    {
        StepTracker { max_delta: ZERO }
    }

    /// Takes note of the change reported by one execution.
    pub fn observe(&mut self, delta: u32)
        ensures
            final(self).max_delta == max(old(self).max_delta, delta),
    {
        self.max_delta = maximum(self.max_delta, delta);
    }

    /// The largest of a sequence of changes.
    pub fn largest_of(deltas: &Vec<u32>) -> (r: u32)
        ensures
            r == largest(deltas@, deltas@.len() as int),
    {
        let mut tracker = StepTracker::new();
        let mut i: usize = 0;
        while i < deltas.len()
            invariant
                i <= deltas.len(),
                tracker.max_delta == largest(deltas@, i as int),
            decreases deltas.len() - i,
        {
            tracker.observe(deltas[i]);
            i = i + 1;
        }
        tracker.max_delta
    }
}

/// Where a run stands.
#[derive(Clone, Copy, Debug, PartialEq, Eq, Structural)]
pub enum RunStatus {
    /// Another step is due.
    Running,
    /// The largest change of the last step was below epsilon.
    Converged,
    /// The allowed number of steps is used up without convergence.
    Exhausted,
}

/// The status of a run after a step with largest change `delta`, when
/// `steps_done` steps, that one included, have been taken.
pub open spec fn status_after(steps_done: int, max_steps: int, delta: u32, epsilon: u32) -> RunStatus {
    if lt(delta, epsilon) {
        RunStatus::Converged
    } else if steps_done >= max_steps {
        RunStatus::Exhausted
    } else {
        RunStatus::Running
    }
}

/// The bookkeeping of a run.
#[derive(Clone, Copy, Debug, PartialEq, Eq, Structural)]
pub struct Run {
    pub steps_done: usize,
    pub max_steps: usize,
    pub epsilon: u32,
    pub last_delta: u32,
    pub status: RunStatus,
}

impl Run {
    /// No more steps are taken than allowed, and a run that is still
    /// running has steps left.
    pub open spec fn well_formed(self) -> bool {
        &&& self.steps_done <= self.max_steps
        &&& self.status == RunStatus::Running ==> self.steps_done < self.max_steps
    }

    /// A run that has taken no step yet. With no step allowed it is
    /// exhausted from the start.
    pub fn begin(max_steps: usize, epsilon: u32) -> (r: Run)
        ensures
            r.well_formed(),
            r.steps_done == 0,
            r.max_steps == max_steps,
            r.epsilon == epsilon,
            r.last_delta == ZERO,
            r.status == (if max_steps == 0 {
                RunStatus::Exhausted
            } else {
                RunStatus::Running
            }),
    {
        Run {
            steps_done: 0,
            max_steps,
            epsilon,
            last_delta: ZERO,
            status: if max_steps == 0 {
                RunStatus::Exhausted
            } else {
                RunStatus::Running
            },
        }
    }

    /// The run after a completed step with largest change `delta` was
    /// recorded. A run that has ended is left as it is.
    pub open spec fn spec_record(self, delta: u32) -> Run {
        if self.status == RunStatus::Running {
            Run {
                steps_done: (self.steps_done + 1) as usize,
                max_steps: self.max_steps,
                epsilon: self.epsilon,
                last_delta: delta,
                status: status_after(
                    self.steps_done + 1,
                    self.max_steps as int,
                    delta,
                    self.epsilon,
                ),
            }
        } else {
            self
        }
    }

    /// Records a completed step with largest change `delta`. A run that
    /// has ended is left as it is.
    pub fn record_step(&mut self, delta: u32)
        requires
            old(self).well_formed(),
        ensures
            final(self).well_formed(),
            *final(self) == old(self).spec_record(delta),
            final(self).max_steps == old(self).max_steps,
            final(self).epsilon == old(self).epsilon,
            old(self).status != RunStatus::Running ==> *final(self) == *old(self),
            old(self).status == RunStatus::Running ==> {
                &&& final(self).steps_done == old(self).steps_done + 1
                &&& final(self).last_delta == delta
                &&& final(self).status == status_after(
                    old(self).steps_done + 1,
                    old(self).max_steps as int,
                    delta,
                    old(self).epsilon,
                )
            },
    {
        match self.status {
            RunStatus::Running => {
                self.steps_done = self.steps_done + 1;
                self.last_delta = delta;
                if less_than(delta, self.epsilon) {
                    self.status = RunStatus::Converged;
                } else if self.steps_done >= self.max_steps {
                    self.status = RunStatus::Exhausted;
                }
            },
            _ => {},
        }
    }

    /// Whether another step is due.
    pub fn is_running(&self) -> (r: bool)
        ensures
            r == (self.status == RunStatus::Running),
    {
        match self.status {
            RunStatus::Running => true,
            _ => false,
        }
    }

    /// Whether the run ended by convergence.
    pub fn converged(&self) -> (r: bool)
        ensures
            r == (self.status == RunStatus::Converged),
    {
        match self.status {
            RunStatus::Converged => true,
            _ => false,
        }
    }
}

/// The run after the first `n` of the given step changes were recorded.
pub open spec fn run_after(start: Run, deltas: Seq<u32>, n: int) -> Run
    decreases n,
{
    if n <= 0 {
        start
    } else {
        run_after(start, deltas, n - 1).spec_record(deltas[n - 1])
    }
}

/// A run takes no more steps than allowed, and once as many changes were
/// reported as steps are allowed it has ended.
pub proof fn lemma_run_ends(max_steps: usize, epsilon: u32, deltas: Seq<u32>, n: int)
    requires
        0 <= n <= deltas.len(),
    ensures
        run_after(Run::spec_begin(max_steps, epsilon), deltas, n).well_formed(),
        run_after(Run::spec_begin(max_steps, epsilon), deltas, n).max_steps == max_steps,
        run_after(Run::spec_begin(max_steps, epsilon), deltas, n).epsilon == epsilon,
        run_after(Run::spec_begin(max_steps, epsilon), deltas, n).steps_done <= n,
        run_after(Run::spec_begin(max_steps, epsilon), deltas, n).status == RunStatus::Running
            ==> run_after(Run::spec_begin(max_steps, epsilon), deltas, n).steps_done == n,
        n >= max_steps ==> run_after(Run::spec_begin(max_steps, epsilon), deltas, n).status
            != RunStatus::Running,
    decreases n,
{
    if n > 0 {
        lemma_run_ends(max_steps, epsilon, deltas, n - 1);
        let before = run_after(Run::spec_begin(max_steps, epsilon), deltas, n - 1);
        let after = run_after(Run::spec_begin(max_steps, epsilon), deltas, n);
        if before.status == RunStatus::Running {
            assert(after.steps_done == n);
        }
    }
}

impl Run {
    /// The run before its first step.
    pub open spec fn spec_begin(max_steps: usize, epsilon: u32) -> Run {
        Run {
            steps_done: 0,
            max_steps,
            epsilon,
            last_delta: ZERO,
            status: if max_steps == 0 {
                RunStatus::Exhausted
            } else {
                RunStatus::Running
            },
        }
    }
}

/// The schedule is a function of the processors, the order of kinds and
/// the number of nodes alone: equal inputs give the same actions in the
/// same order, and the plan holds one execution for every scheduled
/// processor followed by one normalization for every node.
pub proof fn lemma_plan_is_deterministic(
    processors: Seq<HyperedgeProcessor>,
    other: Seq<HyperedgeProcessor>,
    order: Seq<ProcessorType>,
    live: nat,
)
    requires
        processors.len() == other.len(),
        forall|i: int|
            0 <= i < processors.len() ==> (#[trigger] processors[i]).id == other[i].id
                && processors[i].compute_fn.kind() == other[i].compute_fn.kind(),
    ensures
        step_plan(processors, order, live) == step_plan(other, order, live),
        step_plan(processors, order, live).len() == execution_order(
            processors,
            order,
            order.len() as int,
        ).len() + live,
{
    lemma_order_depends_on_kinds(processors, other, order, order.len() as int);
}

/// The execution order depends on the ids and kinds of the processors
/// alone.
proof fn lemma_order_depends_on_kinds(
    processors: Seq<HyperedgeProcessor>,
    other: Seq<HyperedgeProcessor>,
    order: Seq<ProcessorType>,
    k: int,
)
    requires
        processors.len() == other.len(),
        forall|i: int|
            0 <= i < processors.len() ==> (#[trigger] processors[i]).id == other[i].id
                && processors[i].compute_fn.kind() == other[i].compute_fn.kind(),
    ensures
        execution_order(processors, order, k) == execution_order(other, order, k),
    decreases k,
{
    if k > 0 {
        lemma_order_depends_on_kinds(processors, other, order, k - 1);
        lemma_of_type_depends_on_kinds(processors, other, order[k - 1], processors.len() as int);
    }
}

/// The processors of one kind depend on the ids and kinds alone.
proof fn lemma_of_type_depends_on_kinds(
    processors: Seq<HyperedgeProcessor>,
    other: Seq<HyperedgeProcessor>,
    kind: ProcessorType,
    n: int,
)
    requires
        processors.len() == other.len(),
        n <= processors.len(),
        forall|i: int|
            0 <= i < processors.len() ==> (#[trigger] processors[i]).id == other[i].id
                && processors[i].compute_fn.kind() == other[i].compute_fn.kind(),
    ensures
        crate::processor::of_type(processors, kind, n) == crate::processor::of_type(other, kind, n),
    decreases n,
{
    if n > 0 {
        lemma_of_type_depends_on_kinds(processors, other, kind, n - 1);
        assert(processors[n - 1].id == other[n - 1].id);
    }
}

} // verus!
