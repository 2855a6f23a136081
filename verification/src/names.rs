//! The name index: from human-readable label to node id.
use vstd::prelude::*;
use crate::error::LoomError;

verus! {

/// One registration: the label and the node it names.
pub struct NameEntry {
    pub label: String,
    pub id: u32,
}

/// The mapping that a sequence of registrations amounts to: a later
/// registration of a label replaces an earlier one.
pub open spec fn bindings(entries: Seq<NameEntry>) -> Map<Seq<char>, u32>
    decreases entries.len(),
{
    if entries.len() == 0 {
        Map::empty()
    } else {
        bindings(entries.drop_last()).insert(entries.last().label@, entries.last().id)
    }
}

/// A label is bound exactly when some registration carries it, and it is
/// bound to the id of the last such registration.
pub proof fn lemma_bindings(entries: Seq<NameEntry>, label: Seq<char>)
    ensures
        bindings(entries).contains_key(label) <==> exists|i: int|
            0 <= i < entries.len() && (#[trigger] entries[i]).label@ == label,
        forall|i: int|
            0 <= i < entries.len() && (#[trigger] entries[i]).label@ == label && (forall|j: int|
                i < j < entries.len() ==> (#[trigger] entries[j]).label@ != label) ==> bindings(
                entries,
            )[label] == entries[i].id,
    decreases entries.len(),
{
    if entries.len() > 0 {
        let front = entries.drop_last();
        lemma_bindings(front, label);
        if bindings(entries).contains_key(label) {
            if entries.last().label@ == label {
                assert(entries[entries.len() - 1].label@ == label);
            } else {
                let i = choose|i: int| 0 <= i < front.len() && (#[trigger] front[i]).label@ == label;
                assert(entries[i].label@ == label);
            }
        }
        if exists|i: int| 0 <= i < entries.len() && (#[trigger] entries[i]).label@ == label {
            let i = choose|i: int| 0 <= i < entries.len() && (#[trigger] entries[i]).label@ == label;
            if i < front.len() {
                assert(front[i].label@ == label);
            }
        }
        assert forall|i: int|
            0 <= i < entries.len() && (#[trigger] entries[i]).label@ == label && (forall|j: int|
                i < j < entries.len() ==> (#[trigger] entries[j]).label@ != label) implies bindings(
            entries,
        )[label] == entries[i].id by {
            if i < front.len() {
                assert(entries.last().label@ != label);
                assert(front[i].label@ == label);
                assert forall|j: int| i < j < front.len() implies (#[trigger] front[j]).label@
                    != label by {
                    assert(entries[j].label@ != label);
                }
            }
        }
    }
}

/// Label to node id. Registering a label again rebinds it.
pub struct NameIndex {
    entries: Vec<NameEntry>,
}

impl NameIndex {
    /// The bindings of the index.
    pub closed spec fn view(&self) -> Map<Seq<char>, u32> {
        bindings(self.entries@)
    }

    /// An index without bindings.
    pub fn new() -> (r: NameIndex)
        ensures
            r@ == Map::<Seq<char>, u32>::empty(),
    {
        NameIndex { entries: Vec::new() }
    }

    /// Binds `label` to `id`, replacing an earlier binding of the label.
    pub fn register(&mut self, label: String, id: u32)
        ensures
            final(self)@ == old(self)@.insert(label@, id),
    {
        self.entries.push(NameEntry { label, id });
        assert(self.entries@.drop_last() == old(self).entries@);
    }

    /// The id bound to `label`, or `NotFound`.
    pub fn lookup(&self, label: &String) -> (r: Result<u32, LoomError>)
        ensures
            match r {
                Ok(id) => self@.contains_key(label@) && self@[label@] == id,
                Err(e) => e == LoomError::NotFound && !self@.contains_key(label@),
            },
    {
        let mut i: usize = self.entries.len();
        while i > 0
            invariant
                i <= self.entries@.len(),
                forall|j: int| i <= j < self.entries@.len() ==> (#[trigger] self.entries@[j]).label@
                    != label@,
            decreases i,
        {
            i = i - 1;
            if self.entries[i].label == *label {
                proof {
                    lemma_bindings(self.entries@, label@);
                }
                return Ok(self.entries[i].id);
            }
        }
        proof {
            lemma_bindings(self.entries@, label@);
        }
        Err(LoomError::NotFound)
    }

    /// Whether `label` is bound.
    pub fn contains(&self, label: &String) -> (r: bool)
        ensures
            r == self@.contains_key(label@),
    {
        self.lookup(label).is_ok()
    }
}

} // verus!
