//! Fixed layout of a node vector and of the persisted image.
//!
//! A node vector is `NODE_DIM` 32-bit words, partitioned into named regions
//! by fixed word offsets. The persisted image is one node after the other,
//! `NODE_BYTES` bytes each, without a header.
use vstd::prelude::*;
use crate::error::LoomError;

verus! {

/// Number of 32-bit words in one node vector.
pub const NODE_DIM: usize = 256;

/// Bytes taken by one word.
pub const WORD_BYTES: usize = 4;

/// Bytes taken by one node vector: the stride of the persisted image.
pub const NODE_BYTES: usize = 1024;

pub const ID_START: usize = 0;

pub const ID_END: usize = 4;

pub const HYPERBOLIC_START: usize = 4;

pub const HYPERBOLIC_END: usize = 20;

pub const SEMANTIC_START: usize = 20;

pub const SEMANTIC_END: usize = 84;

pub const ACTIVATION_START: usize = 84;

pub const ACTIVATION_END: usize = 148;

pub const CONNECTION_START: usize = 148;

pub const CONNECTION_END: usize = 212;

pub const EMOTIONAL_START: usize = 212;

pub const EMOTIONAL_END: usize = 244;

pub const METADATA_START: usize = 244;

pub const METADATA_END: usize = 256;

/// Number of words in the semantic region.
pub const SEMANTIC_DIM: usize = 64;

/// The named regions of a node vector, in layout order.
#[derive(Clone, Copy, Debug, PartialEq, Eq, Structural)]
pub enum Region {
    /// Words `[0, 4)`.
    Identity,
    /// Words `[4, 20)`: position in hyperbolic space.
    Position,
    /// Words `[20, 84)`: the meaning-bearing embedding.
    Semantic,
    /// Words `[84, 148)`: activation history, most recent first.
    Activation,
    /// Words `[148, 212)`: advisory cache of connection weights.
    Connections,
    /// Words `[212, 244)`: emotional field.
    Emotional,
    /// Words `[244, 256)`.
    Metadata,
}

impl Region {
    /// First word of the region.
    pub open spec fn lower(self) -> int {
        match self {
            Region::Identity => 0,
            Region::Position => 4,
            Region::Semantic => 20,
            Region::Activation => 84,
            Region::Connections => 148,
            Region::Emotional => 212,
            Region::Metadata => 244,
        }
    }

    /// One past the last word of the region.
    pub open spec fn upper(self) -> int {
        match self {
            Region::Identity => 4,
            Region::Position => 20,
            Region::Semantic => 84,
            Region::Activation => 148,
            Region::Connections => 212,
            Region::Emotional => 244,
            Region::Metadata => 256,
        }
    }

    /// Number of words in the region.
    pub open spec fn width(self) -> int {
        self.upper() - self.lower()
    }

    /// Whether the word at `index` belongs to the region.
    pub open spec fn covers(self, index: int) -> bool {
        self.lower() <= index < self.upper()
    }

    /// First word of the region.
    pub fn start(&self) -> (r: usize)
        ensures
            r == self.lower(),
            r < NODE_DIM,
    {
        match self {
            Region::Identity => ID_START,
            Region::Position => HYPERBOLIC_START,
            Region::Semantic => SEMANTIC_START,
            Region::Activation => ACTIVATION_START,
            Region::Connections => CONNECTION_START,
            Region::Emotional => EMOTIONAL_START,
            Region::Metadata => METADATA_START,
        }
    }

    /// One past the last word of the region.
    pub fn end(&self) -> (r: usize)
        ensures
            r == self.upper(),
            self.lower() < r <= NODE_DIM,
    {
        match self {
            Region::Identity => ID_END,
            Region::Position => HYPERBOLIC_END,
            Region::Semantic => SEMANTIC_END,
            Region::Activation => ACTIVATION_END,
            Region::Connections => CONNECTION_END,
            Region::Emotional => EMOTIONAL_END,
            Region::Metadata => METADATA_END,
        }
    }

    /// Number of words in the region.
    pub fn len(&self) -> (r: usize)
        ensures
            r == self.width(),
            0 < r <= NODE_DIM,
    {
        self.end() - self.start()
    }

    /// The region that holds the word at `index`.
    pub fn containing(index: usize) -> (r: Region)
        requires
            index < NODE_DIM,
        ensures
            r.covers(index as int),
    {
        if index < ID_END {
            Region::Identity
        } else if index < HYPERBOLIC_END {
            Region::Position
        } else if index < SEMANTIC_END {
            Region::Semantic
        } else if index < ACTIVATION_END {
            Region::Activation
        } else if index < CONNECTION_END {
            Region::Connections
        } else if index < EMOTIONAL_END {
            Region::Emotional
        } else {
            Region::Metadata
        }
    }
}

/// The regions tile the vector: every word belongs to exactly one region,
/// and no region reaches outside the vector.
pub proof fn lemma_regions_partition(index: int, a: Region, b: Region)
    ensures
        a.covers(index) ==> 0 <= index < NODE_DIM,
        a.covers(index) && b.covers(index) ==> a == b,
        0 <= index < NODE_DIM ==> exists|r: Region| r.covers(index),
{
    if 0 <= index < NODE_DIM {
        let r = if index < 4 {
            Region::Identity
        } else if index < 20 {
            Region::Position
        } else if index < 84 {
            Region::Semantic
        } else if index < 148 {
            Region::Activation
        } else if index < 212 {
            Region::Connections
        } else if index < 244 {
            Region::Emotional
        } else {
            Region::Metadata
        };
        assert(r.covers(index));
    }
}

/// Byte offset of node `id` in the persisted image.
pub open spec fn node_offset_of(id: int) -> int {
    id * NODE_BYTES
}

/// Byte offset, in the persisted image, of word `index` of node `id`.
pub open spec fn word_offset_of(id: int, index: int) -> int {
    id * NODE_BYTES + index * WORD_BYTES
}

/// Byte offset of node `id` in the persisted image.
pub fn node_offset(id: u32) -> (r: u64)
    ensures
        r == node_offset_of(id as int),
{
    let stride: u64 = 1024;
    (id as u64) * stride
}

/// Byte offset, in the persisted image, of word `index` of node `id`.
pub fn word_offset(id: u32, index: usize) -> (r: u64)
    requires
        index < NODE_DIM,
    ensures
        r == word_offset_of(id as int, index as int),
        node_offset_of(id as int) <= r,
        r + WORD_BYTES <= node_offset_of(id + 1),
{
    let stride: u64 = 1024;
    let word: u64 = 4;
    (id as u64) * stride + (index as u64) * word
}

/// The node and the word within it that hold the byte at `offset`.
pub fn locate(offset: u64) -> (r: (u64, usize))
    ensures
        r.1 < NODE_DIM,
        r.0 * NODE_BYTES + r.1 * WORD_BYTES <= offset < r.0 * NODE_BYTES + r.1 * WORD_BYTES
            + WORD_BYTES,
{
    let id: u64 = offset / (NODE_BYTES as u64);
    let within: u64 = offset % (NODE_BYTES as u64);
    let index: usize = (within / (WORD_BYTES as u64)) as usize;
    (id, index)
}

/// Size in bytes of the image of a store with room for `capacity` nodes,
/// or `None` when that size cannot be represented.
pub fn image_size(capacity: usize) -> (r: Option<u64>)
    ensures
        match r {
            Some(n) => n == capacity * NODE_BYTES,
            None => capacity * NODE_BYTES > u64::MAX,
        },
{
    if capacity as u64 > u64::MAX / (NODE_BYTES as u64) {
        None
    } else {
        let stride: u64 = 1024;
        Some((capacity as u64) * stride)
    }
}

/// The error, if any, with which an existing image of `len` bytes is refused
/// when `capacity` nodes are asked for.
pub open spec fn image_size_verdict(len: int, capacity: int) -> Result<(), LoomError> {
    if len % (NODE_BYTES as int) != 0 {
        Err(LoomError::Malformed)
    } else if len != capacity * NODE_BYTES {
        Err(LoomError::CapacityMismatch)
    } else {
        Ok(())
    }
}

/// Checks the size of an existing image against the requested capacity:
/// an image that is not a whole number of node slots is malformed, one of
/// another number of slots than requested is a capacity mismatch.
pub fn check_image_size(len: u64, capacity: usize) -> (r: Result<(), LoomError>)
    ensures
        r == image_size_verdict(len as int, capacity as int),
        r is Ok <==> len == capacity * NODE_BYTES,
{
    if len % (NODE_BYTES as u64) != 0 {
        return Err(LoomError::Malformed);
    }
    let slots: u64 = len / (NODE_BYTES as u64);
    if capacity as u64 != slots {
        Err(LoomError::CapacityMismatch)
    } else {
        Ok(())
    }
}

/// How the 64 words of the semantic region are divided among kinds of
/// property. Offsets are relative to the start of the semantic region.
#[derive(Clone, Copy, Debug, PartialEq, Eq, Structural)]
pub struct SemanticRegions {
    pub color_start: usize,
    pub color_dims: usize,
    pub organic_start: usize,
    pub organic_dims: usize,
    pub food_start: usize,
    pub food_dims: usize,
    pub shape_start: usize,
    pub shape_dims: usize,
    pub texture_start: usize,
    pub texture_dims: usize,
    pub function_start: usize,
    pub function_dims: usize,
    pub abstract_start: usize,
    pub abstract_dims: usize,
}

impl SemanticRegions {
    /// The sub-regions follow one another without gap or overlap and fill
    /// the semantic region exactly.
    pub open spec fn tiles(self) -> bool {
        &&& self.color_start == 0
        &&& self.organic_start == self.color_start + self.color_dims
        &&& self.food_start == self.organic_start + self.organic_dims
        &&& self.shape_start == self.food_start + self.food_dims
        &&& self.texture_start == self.shape_start + self.shape_dims
        &&& self.function_start == self.texture_start + self.texture_dims
        &&& self.abstract_start == self.function_start + self.function_dims
        &&& self.abstract_start + self.abstract_dims == SEMANTIC_DIM
    }

    /// Tells whether the sub-regions tile the semantic region.
    pub fn is_tiling(&self) -> (r: bool)
        ensures
            r == self.tiles(),
    {
        self.color_start == 0 && self.color_dims <= SEMANTIC_DIM && self.organic_start
            == self.color_dims && self.organic_dims <= SEMANTIC_DIM && self.food_start
            == self.organic_start + self.organic_dims && self.food_dims <= SEMANTIC_DIM
            && self.shape_start == self.food_start + self.food_dims && self.shape_dims
            <= SEMANTIC_DIM && self.texture_start == self.shape_start + self.shape_dims
            && self.texture_dims <= SEMANTIC_DIM && self.function_start == self.texture_start
            + self.texture_dims && self.function_dims <= SEMANTIC_DIM && self.abstract_start
            == self.function_start + self.function_dims && self.abstract_dims <= SEMANTIC_DIM
            && self.abstract_start + self.abstract_dims == SEMANTIC_DIM
    }

    /// Index, in the whole node vector, of word `offset` of the semantic
    /// region, or `None` when the offset lies outside the region.
    pub fn absolute(offset: usize) -> (r: Option<usize>)
        ensures
            r == (if offset < SEMANTIC_DIM {
                Some((SEMANTIC_START + offset) as usize)
            } else {
                None
            }),
            r.is_some() ==> Region::Semantic.covers(r.unwrap() as int),
    {
        if offset < SEMANTIC_DIM {
            Some(SEMANTIC_START + offset)
        } else {
            None
        }
    }
}

impl Default for SemanticRegions {
    /// Eight words each for colour, organic, food, shape, texture and
    /// function, and the remaining sixteen for abstract properties.
    fn default() -> (r: SemanticRegions)
        ensures
            r.tiles(),
            r.color_dims == 8,
            r.organic_dims == 8,
            r.food_dims == 8,
            r.shape_dims == 8,
            r.texture_dims == 8,
            r.function_dims == 8,
            r.abstract_dims == 16,
    {
        SemanticRegions {
            color_start: 0,
            color_dims: 8,
            organic_start: 8,
            organic_dims: 8,
            food_start: 16,
            food_dims: 8,
            shape_start: 24,
            shape_dims: 8,
            texture_start: 32,
            texture_dims: 8,
            function_start: 40,
            function_dims: 8,
            abstract_start: 48,
            abstract_dims: 16,
        }
    }
}

} // verus!
