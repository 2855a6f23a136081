//! The node vector: `NODE_DIM` words with named regions.
use vstd::prelude::*;
use crate::layout::{Region, NODE_DIM, ACTIVATION_START, ACTIVATION_END};
use crate::scalar::{byte_encoding, whole_encoding};

verus! {

/// One node's vector. The length is fixed by the type; the regions are a
/// layout convention.
#[derive(Clone, Copy, Debug)]
pub struct NodeVector {
    pub data: [u32; NODE_DIM],
}

/// `base` with the words of `values` written from `start` on, as far as
/// both `values` and the window `[start, start + width)` reach.
pub open spec fn overlay(base: Seq<u32>, start: int, width: int, values: Seq<u32>) -> Seq<u32> {
    Seq::new(
        base.len(),
        |i: int|
            if start <= i < start + width && i - start < values.len() {
                values[i - start]
            } else {
                base[i]
            },
    )
}

/// `base` with its activation history shifted by one place and `incoming`
/// recorded as the most recent activation; the oldest entry is dropped.
pub open spec fn shifted_activation(base: Seq<u32>, incoming: u32) -> Seq<u32> {
    Seq::new(
        base.len(),
        |i: int|
            if i == ACTIVATION_START {
                incoming
            } else if ACTIVATION_START < i < ACTIVATION_END {
                base[i - 1]
            } else {
                base[i]
            },
    )
}

/// The identity words of node `id`: the encodings of the four bytes of
/// the id, least significant first.
pub open spec fn identity_of(id: u32) -> Seq<u32> {
    seq![
        byte_encoding((id % 256) as int),
        byte_encoding(((id / 0x100) % 256) as int),
        byte_encoding(((id / 0x1_0000) % 256) as int),
        byte_encoding((id / 0x100_0000) as int),
    ]
}

/// The identity words of node `id`.
pub fn identity_words(id: u32) -> (r: Vec<u32>)
    ensures
        r@ == identity_of(id),
{
    let mut r: Vec<u32> = Vec::new();
    r.push(whole_encoding((id % 256) as u8));
    r.push(whole_encoding(((id / 0x100) % 256) as u8));
    r.push(whole_encoding(((id / 0x1_0000) % 256) as u8));
    r.push(whole_encoding((id / 0x100_0000) as u8));
    assert(r@ =~= identity_of(id));
    r
}

impl NodeVector {
    /// The words of the vector.
    pub open spec fn view(&self) -> Seq<u32> {
        self.data@
    }

    /// The words of one region.
    pub open spec fn region_view(&self, region: Region) -> Seq<u32> {
        self@.subrange(region.lower(), region.upper())
    }

    /// The all-zero vector.
    pub fn zeroed() -> (r: NodeVector)
        ensures
            r@ == Seq::new(NODE_DIM as nat, |i: int| 0u32),
    {
        let r = NodeVector { data: [0u32; NODE_DIM] };
        assert(r@ =~= Seq::new(NODE_DIM as nat, |i: int| 0u32));
        r
    }

    /// The vector that starts with the given words, as far as they reach,
    /// and is zero after them.
    pub fn from_words(words: &Vec<u32>) -> (r: NodeVector)
        ensures
            r@ == overlay(Seq::new(NODE_DIM as nat, |i: int| 0u32), 0, NODE_DIM as int, words@),
    {
        let mut r = NodeVector::zeroed();
        let ghost zero = r@;
        let mut i: usize = 0;
        while i < NODE_DIM && i < words.len()
            invariant
                i <= NODE_DIM,
                i <= words.len(),
                zero == Seq::new(NODE_DIM as nat, |i: int| 0u32),
                r@.len() == NODE_DIM,
                forall|j: int| 0 <= j < i ==> r@[j] == words@[j],
                forall|j: int| i <= j < NODE_DIM ==> r@[j] == 0,
            decreases NODE_DIM - i,
        {
            r.data[i] = words[i];
            i = i + 1;
        }
        assert(r@ =~= overlay(zero, 0, NODE_DIM as int, words@));
        r
    }

    /// The words of the vector, in order.
    pub fn to_words(&self) -> (r: Vec<u32>)
        ensures
            r@ == self@,
    {
        let mut r: Vec<u32> = Vec::new();
        let mut i: usize = 0;
        while i < NODE_DIM
            invariant
                i <= NODE_DIM,
                r@.len() == i,
                forall|j: int| 0 <= j < i ==> r@[j] == self@[j],
            decreases NODE_DIM - i,
        {
            r.push(self.data[i]);
            i = i + 1;
        }
        assert(r@ =~= self@);
        r
    }

    /// The word at `index`.
    pub fn get(&self, index: usize) -> (r: u32)
        requires
            index < NODE_DIM,
        ensures
            r == self@[index as int],
    {
        self.data[index]
    }

    /// Replaces the word at `index`.
    pub fn set(&mut self, index: usize, word: u32)
        requires
            index < NODE_DIM,
        ensures
            final(self)@ == old(self)@.update(index as int, word),
    {
        self.data[index] = word;
    }

    /// The words of one region, in order.
    pub fn region(&self, region: Region) -> (r: Vec<u32>)
        ensures
            r@ == self.region_view(region),
            r@.len() == region.width(),
    {
        let start: usize = region.start();
        let end: usize = region.end();
        let mut r: Vec<u32> = Vec::new();
        let mut i: usize = start;
        while i < end
            invariant
                start <= i <= end <= NODE_DIM,
                start == region.lower(),
                end == region.upper(),
                r@.len() == i - start,
                forall|j: int| 0 <= j < i - start ==> r@[j] == self@[start + j],
            decreases end - i,
        {
            r.push(self.data[i]);
            i = i + 1;
        }
        assert(r@ =~= self.region_view(region));
        r
    }

    /// Writes `values` into the window of `width` words that starts at
    /// `start`, from its first word on. Words of `values` beyond the width
    /// are ignored; words of the window beyond the length of `values` keep
    /// their value, as does everything outside the window.
    pub fn set_window(&mut self, start: usize, width: usize, values: &Vec<u32>)
        requires
            start + width <= NODE_DIM,
        ensures
            final(self)@ == overlay(old(self)@, start as int, width as int, values@),
    {
        let mut k: usize = 0;
        while k < width && k < values.len()
            invariant
                k <= width,
                k <= values.len(),
                start + width <= NODE_DIM,
                self@.len() == NODE_DIM,
                forall|j: int| start <= j < start + k ==> self@[j] == values@[j - start],
                forall|j: int|
                    0 <= j < NODE_DIM && !(start <= j < start + k) ==> self@[j] == old(self)@[j],
            decreases width - k,
        {
            self.data[start + k] = values[k];
            k = k + 1;
        }
        assert(self@ =~= overlay(old(self)@, start as int, width as int, values@));
    }

    /// Writes `values` into a region, from its first word on. Words of
    /// `values` beyond the region's width are ignored; words of the region
    /// beyond the length of `values` keep their value, as does everything
    /// outside the region.
    pub fn set_region(&mut self, region: Region, values: &Vec<u32>)
        ensures
            final(self)@ == overlay(old(self)@, region.lower(), region.width(), values@),
    {
        let start: usize = region.start();
        let width: usize = region.len();
        self.set_window(start, width, values);
    }

    /// The semantic embedding, words `[20, 84)`.
    pub fn semantic_embedding(&self) -> (r: Vec<u32>)
        ensures
            r@ == self.region_view(Region::Semantic),
            r@.len() == 64,
    {
        self.region(Region::Semantic)
    }

    /// The activation history, words `[84, 148)`, most recent first.
    pub fn activation_history(&self) -> (r: Vec<u32>)
        ensures
            r@ == self.region_view(Region::Activation),
            r@.len() == 64,
    {
        self.region(Region::Activation)
    }

    /// The advisory connection-weight cache, words `[148, 212)`.
    pub fn connections(&self) -> (r: Vec<u32>)
        ensures
            r@ == self.region_view(Region::Connections),
            r@.len() == 64,
    {
        self.region(Region::Connections)
    }

    /// The emotional field, words `[212, 244)`.
    pub fn emotional_field(&self) -> (r: Vec<u32>)
        ensures
            r@ == self.region_view(Region::Emotional),
            r@.len() == 32,
    {
        self.region(Region::Emotional)
    }

    /// Records `incoming` as the most recent activation: the history moves
    /// one place towards the past and its oldest entry is dropped. Nothing
    /// outside the activation region changes.
    pub fn propagate_activation(&mut self, incoming: u32)
        ensures
            final(self)@ == shifted_activation(old(self)@, incoming),
    {
        let mut i: usize = ACTIVATION_END - 1;
        while i > ACTIVATION_START
            invariant
                ACTIVATION_START <= i < ACTIVATION_END,
                self@.len() == NODE_DIM,
                forall|j: int| i < j < ACTIVATION_END ==> self@[j] == old(self)@[j - 1],
                forall|j: int|
                    0 <= j < NODE_DIM && !(i < j < ACTIVATION_END) ==> self@[j] == old(self)@[j],
            decreases i,
        {
            let previous: u32 = self.data[i - 1];
            self.data[i] = previous;
            i = i - 1;
        }
        self.data[ACTIVATION_START] = incoming;
        assert(self@ =~= shifted_activation(old(self)@, incoming));
    }
}

/// Writing a region changes no word outside it, and reading the region back
/// gives what was written when the lengths agree.
pub proof fn lemma_overlay_region(base: Seq<u32>, region: Region, values: Seq<u32>)
    requires
        base.len() == NODE_DIM,
    ensures
        overlay(base, region.lower(), region.width(), values).len() == NODE_DIM,
        forall|i: int|
            0 <= i < NODE_DIM && !region.covers(i) ==> overlay(
                base,
                region.lower(),
                region.width(),
                values,
            )[i] == base[i],
        values.len() == region.width() ==> overlay(
            base,
            region.lower(),
            region.width(),
            values,
        ).subrange(region.lower(), region.upper()) == values,
{
    let out = overlay(base, region.lower(), region.width(), values);
    if values.len() == region.width() {
        assert(out.subrange(region.lower(), region.upper()) =~= values);
    }
}

} // verus!
