//! Hyperedge processors and their registry.
//!
//! A processor is a hyperedge that computes: it has an id from the id space
//! of the nodes, an ordered list of member nodes, a compute kind and
//! parameters. Its own vector lives in the store slot of its id.
use vstd::prelude::*;
use crate::error::LoomError;
use crate::layout::{NODE_DIM, SEMANTIC_DIM, SEMANTIC_START};
use crate::scalar::{in_unit_interval, is_damping, ONE};

verus! {

/// The kind of a processor, without its payload. The scheduler orders
/// execution by it.
#[derive(Clone, Copy, Debug, PartialEq, Eq, Structural)]
pub enum ProcessorType {
    /// Inheritance: the first member is the child, the second the parent.
    IsA,
    /// Aggregation: the first member is the whole, the others its parts.
    PartOf,
    /// Coupling of the first two members.
    Correlates,
    /// Extraction of the pattern common to the members.
    PatternExtractor,
    /// Consensus among the members.
    PropertySynchronizer,
    /// Abstraction over the members, kept in the processor alone.
    AbstractionBuilder,
    /// A caller-supplied transformation of the members.
    CustomTransform,
}

impl ProcessorType {
    /// Fewest members with which a processor of this kind does anything.
    pub open spec fn min_members(self) -> nat {
        match self {
            ProcessorType::IsA => 2,
            ProcessorType::PartOf => 2,
            ProcessorType::Correlates => 2,
            _ => 1,
        }
    }

    /// Whether executing a processor of this kind may change the
    /// processor's own vector.
    pub open spec fn writes_state(self) -> bool {
        match self {
            ProcessorType::PropertySynchronizer => false,
            ProcessorType::CustomTransform => false,
            _ => true,
        }
    }

    /// Whether executing a processor of this kind may change its member at
    /// position `position`.
    pub open spec fn writes_member(self, position: int) -> bool {
        match self {
            ProcessorType::IsA => position == 0,
            ProcessorType::PartOf => position == 0,
            ProcessorType::Correlates => position == 0 || position == 1,
            ProcessorType::PatternExtractor => true,
            ProcessorType::PropertySynchronizer => true,
            ProcessorType::AbstractionBuilder => false,
            ProcessorType::CustomTransform => true,
        }
    }

    /// The words of a vector that executing a processor of this kind may
    /// change, as first word and width: aggregation and coupling update
    /// whole vectors, the other kinds the semantic region alone.
    pub open spec fn window(self) -> (int, int) {
        match self {
            ProcessorType::PartOf => (0, NODE_DIM as int),
            ProcessorType::Correlates => (0, NODE_DIM as int),
            _ => (SEMANTIC_START as int, SEMANTIC_DIM as int),
        }
    }

    /// The first word and the width of the window that the kind writes.
    pub fn write_window(&self) -> (r: (usize, usize))
        ensures
            r.0 == self.window().0,
            r.1 == self.window().1,
            r.0 + r.1 <= NODE_DIM,
    {
        match self {
            ProcessorType::PartOf => (0, NODE_DIM),
            ProcessorType::Correlates => (0, NODE_DIM),
            _ => (SEMANTIC_START, SEMANTIC_DIM),
        }
    }

    /// Fewest members with which a processor of this kind does anything.
    pub fn required_members(&self) -> (r: usize)
        ensures
            r == self.min_members(),
    {
        match self {
            ProcessorType::IsA => 2,
            ProcessorType::PartOf => 2,
            ProcessorType::Correlates => 2,
            _ => 1,
        }
    }

    /// Tells whether the kind may change the processor's own vector.
    pub fn may_write_state(&self) -> (r: bool)
        ensures
            r == self.writes_state(),
    {
        match self {
            ProcessorType::PropertySynchronizer => false,
            ProcessorType::CustomTransform => false,
            _ => true,
        }
    }

    /// Tells whether the kind may change the member at `position`.
    pub fn may_write_member(&self, position: usize) -> (r: bool)
        ensures
            r == self.writes_member(position as int),
    {
        match self {
            ProcessorType::IsA => position == 0,
            ProcessorType::PartOf => position == 0,
            ProcessorType::Correlates => position == 0 || position == 1,
            ProcessorType::PatternExtractor => true,
            ProcessorType::PropertySynchronizer => true,
            ProcessorType::AbstractionBuilder => false,
            ProcessorType::CustomTransform => true,
        }
    }
}

/// What a processor computes.
#[derive(Debug)]
pub enum ComputeFunction {
    PatternExtractor,
    IsA,
    PartOf,
    Correlates,
    PropertySynchronizer,
    AbstractionBuilder,
    CustomTransform { matrix: Vec<u32> },
}

impl ComputeFunction {
    /// The kind, without the payload.
    pub open spec fn kind(self) -> ProcessorType {
        match self {
            ComputeFunction::PatternExtractor => ProcessorType::PatternExtractor,
            ComputeFunction::IsA => ProcessorType::IsA,
            ComputeFunction::PartOf => ProcessorType::PartOf,
            ComputeFunction::Correlates => ProcessorType::Correlates,
            ComputeFunction::PropertySynchronizer => ProcessorType::PropertySynchronizer,
            ComputeFunction::AbstractionBuilder => ProcessorType::AbstractionBuilder,
            ComputeFunction::CustomTransform { .. } => ProcessorType::CustomTransform,
        }
    }

    /// The transformation matrix of a custom transform; empty for the
    /// other kinds.
    pub open spec fn matrix_view(self) -> Seq<u32> {
        match self {
            ComputeFunction::CustomTransform { matrix } => matrix@,
            _ => Seq::empty(),
        }
    }

    /// The kind, without the payload.
    pub fn processor_type(&self) -> (r: ProcessorType)
        ensures
            r == self.kind(),
    {
        match self {
            ComputeFunction::PatternExtractor => ProcessorType::PatternExtractor,
            ComputeFunction::IsA => ProcessorType::IsA,
            ComputeFunction::PartOf => ProcessorType::PartOf,
            ComputeFunction::Correlates => ProcessorType::Correlates,
            ComputeFunction::PropertySynchronizer => ProcessorType::PropertySynchronizer,
            ComputeFunction::AbstractionBuilder => ProcessorType::AbstractionBuilder,
            ComputeFunction::CustomTransform { .. } => ProcessorType::CustomTransform,
        }
    }

    /// A copy of the transformation matrix; empty for the other kinds.
    pub fn matrix(&self) -> (r: Vec<u32>)
        ensures
            r@ == self.matrix_view(),
    {
        match self {
            ComputeFunction::CustomTransform { matrix } => copy_words(matrix),
            _ => Vec::new(),
        }
    }
}

/// A copy of a sequence of words.
pub fn copy_words(words: &Vec<u32>) -> (r: Vec<u32>)
    ensures
        r@ == words@,
{
    let mut r: Vec<u32> = Vec::new();
    let mut i: usize = 0;
    while i < words.len()
        invariant
            i <= words.len(),
            r@ == words@.take(i as int),
        decreases words.len() - i,
    {
        r.push(words[i]);
        assert(words@.take(i + 1) == words@.take(i as int).push(words@[i as int]));
        i = i + 1;
    }
    assert(words@.take(words@.len() as int) == words@);
    r
}

/// Parameters of a processor, as single-precision encodings: the damping of
/// node updates, the damping of the processor's own update, and the
/// learning rate.
#[derive(Clone, Copy, Debug, PartialEq, Eq, Structural)]
pub struct ProcessorParams {
    pub lambda_v: u32,
    pub lambda_e: u32,
    pub eta: u32,
}

/// Encoding of `0.1`.
pub const DEFAULT_DAMPING: u32 = 0x3DCC_CCCD;

/// Encoding of `0.05`.
pub const DEFAULT_LEARNING_RATE: u32 = 0x3D4C_CCCD;

impl ProcessorParams {
    /// Both damping factors lie in `(0, 1]`.
    pub open spec fn valid(self) -> bool {
        in_unit_interval(self.lambda_v) && in_unit_interval(self.lambda_e)
    }

    /// Tells whether both damping factors lie in `(0, 1]`.
    pub fn is_valid(&self) -> (r: bool)
        ensures
            r == self.valid(),
    {
        is_damping(self.lambda_v) && is_damping(self.lambda_e)
    }

    /// No damping at all: both factors are one.
    pub fn undamped(eta: u32) -> (r: ProcessorParams)
        ensures
            r == (ProcessorParams { lambda_v: ONE, lambda_e: ONE, eta }),
            r.valid(),
    {
        ProcessorParams { lambda_v: ONE, lambda_e: ONE, eta }
    }
}

impl Default for ProcessorParams {
    /// Damping `0.1` for nodes and processor, learning rate `0.05`.
    fn default() -> (r: ProcessorParams)
        ensures
            r == (ProcessorParams {
                lambda_v: DEFAULT_DAMPING,
                lambda_e: DEFAULT_DAMPING,
                eta: DEFAULT_LEARNING_RATE,
            }),
            r.valid(),
    {
        ProcessorParams {
            lambda_v: DEFAULT_DAMPING,
            lambda_e: DEFAULT_DAMPING,
            eta: DEFAULT_LEARNING_RATE,
        }
    }
}

/// A hyperedge processor.
#[derive(Debug)]
pub struct HyperedgeProcessor {
    pub id: u32,
    pub name: String,
    pub members: Vec<u32>,
    pub compute_fn: ComputeFunction,
    pub params: ProcessorParams,
}

/// The order of execution within a step and the bounds of a run.
#[derive(Debug)]
pub struct Schedule {
    /// The kinds to execute, in order.
    pub order: Vec<ProcessorType>,
    /// Most steps a run takes.
    pub steps: usize,
    /// A step whose largest change is below this ends the run.
    pub epsilon: u32,
}

/// Encoding of `1e-4`.
pub const DEFAULT_EPSILON: u32 = 0x38D1_B717;

impl Default for Schedule {
    /// Inheritance, then aggregation, then coupling; ten steps; epsilon
    /// `1e-4`.
    fn default() -> (r: Schedule)
        ensures
            r.order@ == seq![ProcessorType::IsA, ProcessorType::PartOf, ProcessorType::Correlates],
            r.steps == 10,
            r.epsilon == DEFAULT_EPSILON,
    {
        let mut order: Vec<ProcessorType> = Vec::new();
        order.push(ProcessorType::IsA);
        order.push(ProcessorType::PartOf);
        order.push(ProcessorType::Correlates);
        assert(order@ =~= seq![ProcessorType::IsA, ProcessorType::PartOf, ProcessorType::Correlates]);
        Schedule { order, steps: 10, epsilon: DEFAULT_EPSILON }
    }
}

/// The ids of the processors of one kind among the first `n`, in creation
/// order.
pub open spec fn of_type(processors: Seq<HyperedgeProcessor>, kind: ProcessorType, n: int) -> Seq<u32>
    decreases n,
{
    if n <= 0 {
        Seq::empty()
    } else if n <= processors.len() && processors[n - 1].compute_fn.kind() == kind {
        of_type(processors, kind, n - 1).push(processors[n - 1].id)
    } else {
        of_type(processors, kind, n - 1)
    }
}

/// The ids of the processors to execute for the first `k` kinds of `order`:
/// kind after kind, and within a kind in creation order.
pub open spec fn execution_order(
    processors: Seq<HyperedgeProcessor>,
    order: Seq<ProcessorType>,
    k: int,
) -> Seq<u32>
    decreases k,
{
    if k <= 0 {
        Seq::empty()
    } else {
        execution_order(processors, order, k - 1) + of_type(
            processors,
            order[k - 1],
            processors.len() as int,
        )
    }
}

/// The position of the processor with the given id, if there is one.
pub open spec fn position_of(processors: Seq<HyperedgeProcessor>, id: u32) -> Option<int> {
    if exists|i: int| 0 <= i < processors.len() && (#[trigger] processors[i]).id == id {
        Some(choose|i: int| 0 <= i < processors.len() && (#[trigger] processors[i]).id == id)
    } else {
        None
    }
}

/// The processors, in creation order.
pub struct ProcessorRegistry {
    processors: Vec<HyperedgeProcessor>,
}

impl ProcessorRegistry {
    /// The processors, in creation order.
    pub closed spec fn view(&self) -> Seq<HyperedgeProcessor> {
        self.processors@
    }

    /// Ids grow with creation, so no id occurs twice, and every processor
    /// has at least one member.
    pub open spec fn well_formed(&self) -> bool {
        &&& forall|i: int, j: int|
            0 <= i < j < self@.len() ==> (#[trigger] self@[i]).id < (#[trigger] self@[j]).id
        &&& forall|i: int| 0 <= i < self@.len() ==> (#[trigger] self@[i]).members@.len() >= 1
    }

    /// A registry without processors.
    pub fn new() -> (r: ProcessorRegistry)
        ensures
            r@.len() == 0,
            r.well_formed(),
    {
        ProcessorRegistry { processors: Vec::new() }
    }

    /// Number of processors.
    pub fn len(&self) -> (r: usize)
        ensures
            r == self@.len(),
    {
        self.processors.len()
    }

    /// Whether the processor can be added after the existing ones: it has
    /// at least one member and its id is greater than every id in use.
    pub open spec fn admits(&self, processor: HyperedgeProcessor) -> bool {
        &&& processor.members@.len() >= 1
        &&& forall|i: int| 0 <= i < self@.len() ==> (#[trigger] self@[i]).id < processor.id
    }

    /// Adds a processor after the existing ones and tells whether it did.
    /// A processor without members, or with an id that is not greater
    /// than every id in use, is refused and the registry stays as it is.
    pub fn register(&mut self, processor: HyperedgeProcessor) -> (r: bool)
        requires
            old(self).well_formed(),
        ensures
            final(self).well_formed(),
            r == old(self).admits(processor),
            r ==> final(self)@ == old(self)@.push(processor),
            !r ==> final(self)@ == old(self)@,
    {
        if processor.members.len() == 0 {
            return false;
        }
        let n: usize = self.processors.len();
        if n > 0 && self.processors[n - 1].id >= processor.id {
            return false;
        }
        proof {
            assert forall|i: int| 0 <= i < self@.len() implies (#[trigger] self@[i]).id
                < processor.id by {
                if i < n - 1 {
                    assert(self@[i].id < self@[n - 1].id);
                }
            }
        }
        self.processors.push(processor);
        true
    }

    /// The position, in creation order, of the processor with the given id.
    pub fn find(&self, id: u32) -> (r: Option<usize>)
        requires
            self.well_formed(),
        ensures
            match r {
                Some(i) => i < self@.len() && self@[i as int].id == id,
                None => forall|i: int| 0 <= i < self@.len() ==> (#[trigger] self@[i]).id != id,
            },
            r.is_some() == position_of(self@, id).is_some(),
            r.is_some() ==> position_of(self@, id) == Some(r.unwrap() as int),
    {
        let mut i: usize = 0;
        while i < self.processors.len()
            invariant
                i <= self.processors@.len(),
                self.well_formed(),
                forall|j: int| 0 <= j < i ==> (#[trigger] self.processors@[j]).id != id,
            decreases self.processors.len() - i,
        {
            if self.processors[i].id == id {
                proof {
                    assert(self@[i as int].id == id);
                    let chosen = position_of(self@, id).unwrap();
                    assert(0 <= chosen < self@.len() && self@[chosen].id == id);
                    if chosen < i {
                        assert(self@[chosen].id < self@[i as int].id);
                    } else if chosen > i {
                        assert(self@[i as int].id < self@[chosen].id);
                    }
                }
                return Some(i);
            }
            i = i + 1;
        }
        None
    }

    /// Whether a processor carries the id.
    pub fn is_processor(&self, id: u32) -> (r: bool)
        requires
            self.well_formed(),
        ensures
            r == position_of(self@, id).is_some(),
    {
        self.find(id).is_some()
    }

    /// The processor with the given id, or `NotFound`.
    pub fn get(&self, id: u32) -> (r: Result<&HyperedgeProcessor, LoomError>)
        requires
            self.well_formed(),
        ensures
            match r {
                Ok(p) => position_of(self@, id).is_some() && *p == self@[position_of(
                    self@,
                    id,
                ).unwrap()] && p.id == id,
                Err(e) => e == LoomError::NotFound && position_of(self@, id).is_none(),
            },
    {
        match self.find(id) {
            Some(i) => Ok(&self.processors[i]),
            None => Err(LoomError::NotFound),
        }
    }

    /// The ids of the processors to execute in one step: for each kind of
    /// `order` in turn, the processors of that kind in creation order.
    pub fn execution_order(&self, order: &Vec<ProcessorType>) -> (r: Vec<u32>)
        ensures
            r@ == execution_order(self@, order@, order@.len() as int),
    {
        let mut r: Vec<u32> = Vec::new();
        let mut k: usize = 0;
        while k < order.len()
            invariant
                k <= order.len(),
                r@ == execution_order(self@, order@, k as int),
            decreases order.len() - k,
        {
            let kind: ProcessorType = order[k];
            let ghost done = r@;
            let mut n: usize = 0;
            while n < self.processors.len()
                invariant
                    n <= self.processors@.len(),
                    k < order.len(),
                    kind == order@[k as int],
                    done == execution_order(self@, order@, k as int),
                    r@ == done + of_type(self@, kind, n as int),
                decreases self.processors.len() - n,
            {
                if self.processors[n].compute_fn.processor_type() == kind {
                    r.push(self.processors[n].id);
                }
                assert(r@ =~= done + of_type(self@, kind, n + 1));
                n = n + 1;
            }
            k = k + 1;
        }
        r
    }
}

/// Every id produced for a kind belongs to a processor of that kind among
/// the first `n`, every such processor is produced, and the ids come in
/// creation order.
pub proof fn lemma_of_type(processors: Seq<HyperedgeProcessor>, kind: ProcessorType, n: int)
    requires
        0 <= n <= processors.len(),
        forall|i: int, j: int|
            0 <= i < j < processors.len() ==> (#[trigger] processors[i]).id < (
            #[trigger] processors[j]).id,
    ensures
        forall|a: int|
            0 <= a < of_type(processors, kind, n).len() ==> exists|i: int|
                0 <= i < n && (#[trigger] processors[i]).id == #[trigger] of_type(processors, kind, n)[a]
                    && processors[i].compute_fn.kind() == kind,
        forall|i: int|
            0 <= i < n && (#[trigger] processors[i]).compute_fn.kind() == kind ==> of_type(
                processors,
                kind,
                n,
            ).contains(processors[i].id),
        forall|a: int, b: int|
            0 <= a < b < of_type(processors, kind, n).len() ==> (#[trigger] of_type(
                processors,
                kind,
                n,
            )[a]) < (#[trigger] of_type(processors, kind, n)[b]),
    decreases n,
{
    if n > 0 {
        lemma_of_type(processors, kind, n - 1);
        let before = of_type(processors, kind, n - 1);
        let now = of_type(processors, kind, n);
        let taken = processors[n - 1].compute_fn.kind() == kind;
        assert forall|a: int| 0 <= a < now.len() implies exists|i: int|
            0 <= i < n && (#[trigger] processors[i]).id == #[trigger] now[a]
                && processors[i].compute_fn.kind() == kind by {
            if a < before.len() {
                let i = choose|i: int|
                    0 <= i < n - 1 && (#[trigger] processors[i]).id == before[a]
                        && processors[i].compute_fn.kind() == kind;
                assert(processors[i].id == now[a]);
            } else {
                assert(processors[n - 1].id == now[a]);
            }
        }
        assert forall|i: int|
            0 <= i < n && (#[trigger] processors[i]).compute_fn.kind() == kind implies now.contains(
            processors[i].id,
        ) by {
            if i < n - 1 {
                assert(before.contains(processors[i].id));
                let a = choose|a: int| 0 <= a < before.len() && before[a] == processors[i].id;
                assert(now[a] == processors[i].id);
            } else {
                assert(now[now.len() - 1] == processors[i].id);
            }
        }
        assert forall|a: int, b: int| 0 <= a < b < now.len() implies (#[trigger] now[a]) < (
        #[trigger] now[b]) by {
            if b == before.len() {
                let i = choose|i: int|
                    0 <= i < n - 1 && (#[trigger] processors[i]).id == before[a]
                        && processors[i].compute_fn.kind() == kind;
                assert(processors[i].id < processors[n - 1].id);
            }
        }
    }
}

} // verus!
