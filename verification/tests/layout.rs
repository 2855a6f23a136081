use loom_core::error::LoomError;
use loom_core::layout::{
    check_image_size, image_size, locate, node_offset, word_offset, Region, SemanticRegions,
    ACTIVATION_END, ACTIVATION_START, CONNECTION_END, CONNECTION_START, EMOTIONAL_END,
    EMOTIONAL_START, HYPERBOLIC_END, HYPERBOLIC_START, ID_END, ID_START, METADATA_END,
    METADATA_START, NODE_BYTES, NODE_DIM, SEMANTIC_END, SEMANTIC_START,
};

#[test]
fn regions_have_the_fixed_bounds() {
    assert_eq!((Region::Identity.start(), Region::Identity.end()), (0, 4));
    assert_eq!((Region::Position.start(), Region::Position.end()), (4, 20));
    assert_eq!((Region::Semantic.start(), Region::Semantic.end()), (20, 84));
    assert_eq!((Region::Activation.start(), Region::Activation.end()), (84, 148));
    assert_eq!((Region::Connections.start(), Region::Connections.end()), (148, 212));
    assert_eq!((Region::Emotional.start(), Region::Emotional.end()), (212, 244));
    assert_eq!((Region::Metadata.start(), Region::Metadata.end()), (244, 256));
    assert_eq!(Region::Semantic.len(), 64);
    assert_eq!(Region::Emotional.len(), 32);
    assert_eq!(Region::Metadata.len(), 12);
    assert_eq!(
        (ID_START, ID_END, HYPERBOLIC_START, HYPERBOLIC_END, SEMANTIC_START, SEMANTIC_END),
        (0, 4, 4, 20, 20, 84)
    );
    assert_eq!(
        (ACTIVATION_START, ACTIVATION_END, CONNECTION_START, CONNECTION_END),
        (84, 148, 148, 212)
    );
    assert_eq!((EMOTIONAL_START, EMOTIONAL_END, METADATA_START, METADATA_END), (212, 244, 244, 256));
}

#[test]
fn every_word_lies_in_exactly_one_region() {
    let all = [
        Region::Identity,
        Region::Position,
        Region::Semantic,
        Region::Activation,
        Region::Connections,
        Region::Emotional,
        Region::Metadata,
    ];
    for index in 0..NODE_DIM {
        let holders: Vec<&Region> =
            all.iter().filter(|r| r.start() <= index && index < r.end()).collect();
        assert_eq!(holders.len(), 1);
        assert_eq!(*holders[0], Region::containing(index));
    }
    assert_eq!(Region::containing(19), Region::Position);
    assert_eq!(Region::containing(20), Region::Semantic);
    assert_eq!(Region::containing(255), Region::Metadata);
}

#[test]
fn node_offsets_follow_the_stride() {
    assert_eq!(NODE_BYTES, NODE_DIM * 4);
    assert_eq!(node_offset(0), 0);
    assert_eq!(node_offset(3), 3072);
    assert_eq!(node_offset(u32::MAX), 4_294_967_295u64 * 1024);
    assert_eq!(word_offset(2, 20), 2 * 1024 + 80);
    assert_eq!(locate(2 * 1024 + 80), (2, 20));
    assert_eq!(locate(2 * 1024 + 83), (2, 20));
    assert_eq!(locate(1023), (0, 255));
}

#[test]
fn image_size_is_capacity_times_stride() {
    assert_eq!(image_size(0), Some(0));
    assert_eq!(image_size(1000), Some(1_024_000));
    assert_eq!(image_size(10000), Some(10_240_000));
}

#[test]
fn image_size_check_tells_mismatch_from_malformed() {
    assert_eq!(check_image_size(4096, 4), Ok(()));
    assert_eq!(check_image_size(0, 0), Ok(()));
    assert_eq!(check_image_size(4096, 5), Err(LoomError::CapacityMismatch));
    assert_eq!(check_image_size(0, 5), Err(LoomError::CapacityMismatch));
    assert_eq!(check_image_size(4097, 4), Err(LoomError::Malformed));
    assert_eq!(check_image_size(1000, 1), Err(LoomError::Malformed));
}

#[test]
fn default_semantic_regions_tile_the_semantic_region() {
    let regions = SemanticRegions::default();
    assert!(regions.is_tiling());
    assert_eq!((regions.color_start, regions.color_dims), (0, 8));
    assert_eq!((regions.organic_start, regions.organic_dims), (8, 8));
    assert_eq!((regions.food_start, regions.food_dims), (16, 8));
    assert_eq!((regions.shape_start, regions.shape_dims), (24, 8));
    assert_eq!((regions.texture_start, regions.texture_dims), (32, 8));
    assert_eq!((regions.function_start, regions.function_dims), (40, 8));
    assert_eq!((regions.abstract_start, regions.abstract_dims), (48, 16));
    assert_eq!(SemanticRegions::absolute(regions.food_start), Some(36));
    assert_eq!(SemanticRegions::absolute(63), Some(83));
    assert_eq!(SemanticRegions::absolute(64), None);
    let mut broken = regions;
    broken.abstract_dims = 15;
    assert!(!broken.is_tiling());
    let mut shifted = regions;
    shifted.organic_start = 9;
    assert!(!shifted.is_tiling());
}

#[test]
fn errors_describe_themselves() {
    assert_eq!(LoomError::StoreFull.message(), "store is full");
    assert_eq!(LoomError::NotFound.message(), "not found");
    assert!(LoomError::StoreFull.capacity_related());
    assert!(LoomError::OutOfRange.capacity_related());
    assert!(LoomError::CapacityMismatch.capacity_related());
    assert!(!LoomError::NotFound.capacity_related());
    assert!(!LoomError::Malformed.capacity_related());
    assert!(!LoomError::EmptyMembers.capacity_related());
}
