//! The vocabulary in which a front end addresses the runtime, and what
//! each word of it means for the runtime.
use vstd::prelude::*;
use crate::connections::connected;
use crate::error::LoomError;
use crate::layout::{NODE_DIM, SEMANTIC_DIM, SEMANTIC_START};
use crate::runtime::LoomRuntime;
use crate::scalar::ONE;
use crate::vector::{overlay, NodeVector};

verus! {

/// Encoding of `0.1`: the strength of a connection that names none.
pub const DEFAULT_STRENGTH: u32 = 0x3DCC_CCCD;

/// The kinds of connection that a program can ask for.
#[derive(Clone, Copy, Debug, PartialEq, Eq, Structural)]
pub enum ConnectionKind {
    Bidirectional,
    Unidirectional,
    Equivalence,
    Abstraction,
    Contextual,
}

impl ConnectionKind {
    /// Whether the kind makes an edge, and if so whether in both
    /// directions: bidirectional and unidirectional connections do, the
    /// other kinds are not edges of the connection index.
    pub open spec fn direction(self) -> Option<bool> {
        match self {
            ConnectionKind::Bidirectional => Some(true),
            ConnectionKind::Unidirectional => Some(false),
            _ => None,
        }
    }

    /// Whether the kind makes an edge, and if so whether in both
    /// directions.
    pub fn edge_direction(&self) -> (r: Option<bool>)
        ensures
            r == self.direction(),
    {
        match self {
            ConnectionKind::Bidirectional => Some(true),
            ConnectionKind::Unidirectional => Some(false),
            _ => None,
        }
    }
}

/// The kinds of connection of the simple notation.
#[derive(Clone, Copy, Debug, PartialEq, Eq, Structural)]
pub enum ConnectionType {
    Bidirectional,
    Unidirectional,
    Equivalence,
}

impl ConnectionType {
    /// Bidirectional and equivalence connections make both edges.
    pub open spec fn both_ways(self) -> bool {
        self != ConnectionType::Unidirectional
    }

    /// An equivalence has strength one whatever weight was written; the
    /// other kinds have the weight that was written.
    pub open spec fn strength(self, weight: u32) -> u32 {
        if self == ConnectionType::Equivalence {
            ONE
        } else {
            weight
        }
    }

    /// Tells whether the connection makes both edges.
    pub fn is_bidirectional(&self) -> (r: bool)
        ensures
            r == self.both_ways(),
    {
        match self {
            ConnectionType::Unidirectional => false,
            _ => true,
        }
    }

    /// The strength of the edges that the connection makes.
    pub fn effective_strength(&self, weight: u32) -> (r: u32)
        ensures
            r == self.strength(weight),
    {
        match self {
            ConnectionType::Equivalence => ONE,
            _ => weight,
        }
    }
}

/// A connection between two labelled nodes, in the simple notation.
#[derive(Debug)]
pub struct ConnectStatement {
    pub from: String,
    pub to: String,
    pub connection_type: ConnectionType,
    pub weight: u32,
}

/// A hyperedge over labelled nodes: the nodes become the members of a
/// processor named by the target.
#[derive(Debug)]
pub struct ConnectionStatement {
    pub nodes: Vec<String>,
    pub operator: ConnectionKind,
    pub target: String,
}

/// The commands of the simple notation.
#[derive(Clone, Copy, Debug, PartialEq, Eq, Structural)]
pub enum CommandStatement {
    ShowTopology,
    ApplyHebbian,
    Sleep,
}

impl CommandStatement {
    /// Whether the command is a mutating batch, after which the store is
    /// to be flushed: Hebbian learning and sleep are, showing the
    /// topology is not.
    pub open spec fn mutates(self) -> bool {
        self != CommandStatement::ShowTopology
    }

    /// Tells whether a flush is due after the command.
    pub fn needs_flush(&self) -> (r: bool)
        ensures
            r == self.mutates(),
    {
        match self {
            CommandStatement::ShowTopology => false,
            _ => true,
        }
    }
}

/// How a flagged conflict is to be resolved.
#[derive(Debug)]
pub enum ResolutionStrategy {
    AbstractToInvariant,
    Merge,
    Prune,
    Strengthen,
    Custom(String),
}

impl ResolutionStrategy {
    /// Whether the strategy settles the conflict by averaging the
    /// semantic regions of the two nodes.
    pub open spec fn averages(self) -> bool {
        self is AbstractToInvariant
    }

    /// Tells whether the strategy settles the conflict by averaging.
    pub fn is_averaging(&self) -> (r: bool)
        ensures
            r == self.averages(),
    {
        match self {
            ResolutionStrategy::AbstractToInvariant => true,
            _ => false,
        }
    }
}

/// A selection of words of a vector.
#[derive(Clone, Copy, Debug, PartialEq, Eq, Structural)]
pub enum Index {
    /// The word at the position.
    Single(usize),
    /// The words from the first position up to, not including, the second.
    Range(usize, usize),
    /// Every word.
    All,
}

impl Index {
    /// The half-open range of positions selected in a sequence of `len`
    /// words, or `None` when the selection reaches outside it.
    pub open spec fn range_in(self, len: int) -> Option<(int, int)> {
        match self {
            Index::Single(i) => if i < len {
                Some((i as int, i + 1))
            } else {
                None
            },
            Index::Range(from, to) => if from <= to <= len {
                Some((from as int, to as int))
            } else {
                None
            },
            Index::All => Some((0, len)),
        }
    }

    /// The half-open range of positions selected in a sequence of `len`
    /// words, or `None` when the selection reaches outside it.
    pub fn bounds(&self, len: usize) -> (r: Option<(usize, usize)>)
        ensures
            match r {
                Some((from, to)) => self.range_in(len as int) == Some((from as int, to as int)) && from
                    <= to <= len,
                None => self.range_in(len as int).is_none(),
            },
    {
        match self {
            Index::Single(i) => if *i < len {
                Some((*i, *i + 1))
            } else {
                None
            },
            Index::Range(from, to) => if *from <= *to && *to <= len {
                Some((*from, *to))
            } else {
                None
            },
            Index::All => Some((0, len)),
        }
    }
}

/// The kinds of sensory input.
#[derive(Clone, Copy, Debug, PartialEq, Eq, Structural)]
pub enum SensoryType {
    Visual,
    Auditory,
    Tactile,
    Temporal,
    Semantic,
    Emotional,
}

impl SensoryType {
    /// The first word and the width of the window of a node vector into
    /// which input of this kind is written: visual input fills the first
    /// half of the semantic region, semantic input the semantic region,
    /// and any other input the vector from its first word.
    pub open spec fn window(self) -> (int, int) {
        match self {
            SensoryType::Visual => (SEMANTIC_START as int, 32),
            SensoryType::Semantic => (SEMANTIC_START as int, SEMANTIC_DIM as int),
            _ => (0, NODE_DIM as int),
        }
    }

    /// The first word and the width of the window for input of this kind.
    pub fn target_window(&self) -> (r: (usize, usize))
        ensures
            r.0 == self.window().0,
            r.1 == self.window().1,
            r.0 + r.1 <= NODE_DIM,
    {
        match self {
            SensoryType::Visual => (SEMANTIC_START, 32),
            SensoryType::Semantic => (SEMANTIC_START, SEMANTIC_DIM),
            _ => (0, NODE_DIM),
        }
    }
}

impl NodeVector {
    /// The words that the index selects, or `None` when the selection
    /// reaches outside the vector.
    pub fn select(&self, index: &Index) -> (r: Option<Vec<u32>>)
        ensures
            match r {
                Some(words) => index.range_in(NODE_DIM as int).is_some() && words@ == self@.subrange(
                    index.range_in(NODE_DIM as int).unwrap().0,
                    index.range_in(NODE_DIM as int).unwrap().1,
                ),
                None => index.range_in(NODE_DIM as int).is_none(),
            },
    {
        match index.bounds(NODE_DIM) {
            None => None,
            Some((from, to)) => {
                let mut words: Vec<u32> = Vec::new();
                let mut i: usize = from;
                while i < to
                    invariant
                        from <= i <= to <= NODE_DIM,
                        words@.len() == i - from,
                        forall|j: int| 0 <= j < i - from ==> words@[j] == self@[from + j],
                    decreases to - i,
                {
                    words.push(self.data[i]);
                    i = i + 1;
                }
                assert(words@ =~= self@.subrange(from as int, to as int));
                Some(words)
            },
        }
    }

    /// Writes sensory input into the window of its kind, as far as both
    /// the input and the window reach. Nothing else changes.
    pub fn imprint(&mut self, kind: &SensoryType, data: &Vec<u32>)
        ensures
            final(self)@ == overlay(old(self)@, kind.window().0, kind.window().1, data@),
    {
        let (start, width) = kind.target_window();
        self.set_window(start, width, data);
    }
}

/// The ids bound to the first `n` labels.
pub open spec fn bound_ids(names: Map<Seq<char>, u32>, labels: Seq<String>, n: int) -> Seq<u32>
    decreases n,
{
    if n <= 0 {
        Seq::empty()
    } else {
        bound_ids(names, labels, n - 1).push(names[labels[n - 1]@])
    }
}

impl LoomRuntime {
    /// The node that carries the label; a node is created for a label
    /// that is not bound yet. Fails with `StoreFull`, changing nothing,
    /// when a node is needed and the store has no free slot.
    pub fn get_or_create_node(&mut self, label: &String) -> (r: Result<u32, LoomError>)
        requires
            old(self).well_formed(),
        ensures
            final(self).well_formed(),
            final(self).connections@ == old(self).connections@,
            final(self).registry@ == old(self).registry@,
            final(self).antibodies@ == old(self).antibodies@,
            match r {
                Ok(id) => if old(self).names@.contains_key(label@) {
                    &&& id == old(self).names@[label@]
                    &&& final(self).same_as(old(self))
                } else {
                    &&& final(self).store.allocated_from(old(self).store, id, None)
                    &&& final(self).names@ == old(self).names@.insert(label@, id)
                },
                Err(e) => {
                    &&& e == LoomError::StoreFull
                    &&& !old(self).names@.contains_key(label@)
                    &&& old(self).store.live() == old(self).store.slots()
                    &&& final(self).same_as(old(self))
                },
            },
    {
        match self.names.lookup(label) {
            Ok(id) => Ok(id),
            Err(_) => self.weave(label.clone(), None),
        }
    }

    /// Connects two nodes as a connection of the given kind asks: a
    /// bidirectional or unidirectional connection makes the edge, with the
    /// given strength or the default strength, the other kinds make none.
    /// Tells whether an edge was made.
    pub fn link(&mut self, source: u32, target: u32, kind: &ConnectionKind, strength: Option<u32>) -> (r:
        bool)
        ensures
            r == kind.direction().is_some(),
            final(self).connections@ == match kind.direction() {
                Some(bidirectional) => connected(
                    old(self).connections@,
                    source,
                    target,
                    match strength {
                        Some(s) => s,
                        None => DEFAULT_STRENGTH,
                    },
                    bidirectional,
                ),
                None => old(self).connections@,
            },
            final(self).store == old(self).store,
            final(self).names@ == old(self).names@,
            final(self).registry@ == old(self).registry@,
            final(self).antibodies@ == old(self).antibodies@,
            old(self).well_formed() ==> final(self).well_formed(),
    {
        let value: u32 = match strength {
            Some(s) => s,
            None => DEFAULT_STRENGTH,
        };
        match kind.edge_direction() {
            Some(bidirectional) => {
                self.connections.connect(source, target, value, bidirectional);
                true
            },
            None => false,
        }
    }

    /// Executes a connection of the simple notation between two labelled
    /// nodes and returns their ids. Fails with `NotFound`, changing
    /// nothing, when one of the labels is not bound.
    pub fn execute_connect(&mut self, statement: &ConnectStatement) -> (r: Result<
        (u32, u32),
        LoomError,
    >)
        ensures
            final(self).store == old(self).store,
            final(self).names@ == old(self).names@,
            final(self).registry@ == old(self).registry@,
            final(self).antibodies@ == old(self).antibodies@,
            old(self).well_formed() ==> final(self).well_formed(),
            match r {
                Ok((from, to)) => {
                    &&& old(self).names@.contains_key(statement.from@)
                    &&& old(self).names@.contains_key(statement.to@)
                    &&& from == old(self).names@[statement.from@]
                    &&& to == old(self).names@[statement.to@]
                    &&& final(self).connections@ == connected(
                        old(self).connections@,
                        from,
                        to,
                        statement.connection_type.strength(statement.weight),
                        statement.connection_type.both_ways(),
                    )
                },
                Err(e) => {
                    &&& e == LoomError::NotFound
                    &&& !old(self).names@.contains_key(statement.from@) || !old(
                        self,
                    ).names@.contains_key(statement.to@)
                    &&& final(self).connections@ == old(self).connections@
                },
            },
    {
        let from: u32 = match self.names.lookup(&statement.from) {
            Ok(id) => id,
            Err(e) => {
                return Err(e);
            },
        };
        let to: u32 = match self.names.lookup(&statement.to) {
            Ok(id) => id,
            Err(e) => {
                return Err(e);
            },
        };
        self.connections.connect(
            from,
            to,
            statement.connection_type.effective_strength(statement.weight),
            statement.connection_type.is_bidirectional(),
        );
        Ok((from, to))
    }

    /// The ids of the labelled nodes of a hyperedge statement, in order:
    /// the members of the processor that the statement asks for. Fails
    /// with `NotFound` when one of the labels is not bound.
    pub fn resolve_members(&self, statement: &ConnectionStatement) -> (r: Result<Vec<u32>, LoomError>)
        ensures
            match r {
                Ok(ids) => {
                    &&& forall|i: int|
                        0 <= i < statement.nodes@.len() ==> self.names@.contains_key(
                            (#[trigger] statement.nodes@[i])@,
                        )
                    &&& ids@ == bound_ids(self.names@, statement.nodes@, statement.nodes@.len() as int)
                },
                Err(e) => {
                    &&& e == LoomError::NotFound
                    &&& exists|i: int|
                        0 <= i < statement.nodes@.len() && !self.names@.contains_key(
                            (#[trigger] statement.nodes@[i])@,
                        )
                },
            },
    {
        let mut ids: Vec<u32> = Vec::new();
        let mut i: usize = 0;
        while i < statement.nodes.len()
            invariant
                i <= statement.nodes@.len(),
                forall|j: int|
                    0 <= j < i ==> self.names@.contains_key((#[trigger] statement.nodes@[j])@),
                ids@ == bound_ids(self.names@, statement.nodes@, i as int),
            decreases statement.nodes.len() - i,
        {
            match self.names.lookup(&statement.nodes[i]) {
                Ok(id) => {
                    ids.push(id);
                },
                Err(e) => {
                    assert(!self.names@.contains_key(statement.nodes@[i as int]@));
                    return Err(e);
                },
            }
            i = i + 1;
        }
        Ok(ids)
    }
}

} // verus!
