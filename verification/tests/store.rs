use loom_core::error::LoomError;
use loom_core::instruction::{Index, SensoryType};
use loom_core::layout::{Region, NODE_DIM};
use loom_core::store::VectorStore;
use loom_core::vector::NodeVector;

fn ramp(offset: u32) -> NodeVector {
    let mut v = NodeVector::zeroed();
    for i in 0..NODE_DIM {
        v.set(i, offset + i as u32);
    }
    v
}

#[test]
fn zeroed_vector_has_256_zero_words() {
    let v = NodeVector::zeroed();
    assert_eq!(v.to_words(), vec![0u32; 256]);
    assert_eq!(v.data.len(), 256);
}

#[test]
fn from_words_pads_and_truncates() {
    let short = NodeVector::from_words(&vec![7, 8, 9]);
    assert_eq!(short.get(0), 7);
    assert_eq!(short.get(2), 9);
    assert_eq!(short.get(3), 0);
    let long = NodeVector::from_words(&(0..300u32).collect());
    assert_eq!(long.get(255), 255);
    assert_eq!(long.to_words(), (0..256u32).collect::<Vec<u32>>());
}

#[test]
fn regions_read_back_what_was_written() {
    let mut v = ramp(1000);
    assert_eq!(v.semantic_embedding(), (1020..1084u32).collect::<Vec<u32>>());
    assert_eq!(v.activation_history(), (1084..1148u32).collect::<Vec<u32>>());
    assert_eq!(v.connections(), (1148..1212u32).collect::<Vec<u32>>());
    assert_eq!(v.emotional_field(), (1212..1244u32).collect::<Vec<u32>>());
    v.set_region(Region::Semantic, &vec![5; 64]);
    assert_eq!(v.region(Region::Semantic), vec![5; 64]);
    assert_eq!(v.get(19), 1019);
    assert_eq!(v.get(84), 1084);
}

#[test]
fn set_region_copies_as_far_as_both_reach() {
    let mut v = ramp(0);
    v.set_region(Region::Identity, &vec![9, 9]);
    assert_eq!(v.region(Region::Identity), vec![9, 9, 2, 3]);
    v.set_region(Region::Identity, &vec![1, 2, 3, 4, 5, 6]);
    assert_eq!(v.region(Region::Identity), vec![1, 2, 3, 4]);
    assert_eq!(v.get(4), 4);
    assert_eq!(v.get(5), 5);
}

#[test]
fn activation_history_shifts_towards_the_past() {
    let mut v = ramp(0);
    v.propagate_activation(777);
    assert_eq!(v.get(84), 777);
    assert_eq!(v.get(85), 84);
    assert_eq!(v.get(147), 146);
    assert_eq!(v.get(148), 148);
    assert_eq!(v.get(83), 83);
    v.propagate_activation(778);
    assert_eq!(v.get(84), 778);
    assert_eq!(v.get(85), 777);
    assert_eq!(v.get(86), 84);
}

#[test]
fn index_selects_words() {
    let v = ramp(0);
    assert_eq!(v.select(&Index::Single(3)), Some(vec![3]));
    assert_eq!(v.select(&Index::Range(2, 5)), Some(vec![2, 3, 4]));
    assert_eq!(v.select(&Index::Range(5, 5)), Some(vec![]));
    assert_eq!(v.select(&Index::All).unwrap().len(), 256);
    assert_eq!(v.select(&Index::Single(256)), None);
    assert_eq!(v.select(&Index::Range(5, 2)), None);
    assert_eq!(v.select(&Index::Range(0, 257)), None);
    assert_eq!(Index::Range(1, 4).bounds(3), None);
    assert_eq!(Index::All.bounds(3), Some((0, 3)));
}

#[test]
fn sensory_input_lands_in_the_window_of_its_kind() {
    let data: Vec<u32> = (1..=100u32).collect();
    let mut visual = NodeVector::zeroed();
    visual.imprint(&SensoryType::Visual, &data);
    assert_eq!(visual.get(19), 0);
    assert_eq!(visual.get(20), 1);
    assert_eq!(visual.get(51), 32);
    assert_eq!(visual.get(52), 0);
    let mut semantic = NodeVector::zeroed();
    semantic.imprint(&SensoryType::Semantic, &data);
    assert_eq!(semantic.get(20), 1);
    assert_eq!(semantic.get(83), 64);
    assert_eq!(semantic.get(84), 0);
    let mut tactile = NodeVector::zeroed();
    tactile.imprint(&SensoryType::Tactile, &data);
    assert_eq!(tactile.get(0), 1);
    assert_eq!(tactile.get(99), 100);
    assert_eq!(tactile.get(100), 0);
    assert_eq!(SensoryType::Visual.target_window(), (20, 32));
    assert_eq!(SensoryType::Emotional.target_window(), (0, 256));
}

#[test]
fn ids_are_sequential_until_the_store_is_full() {
    let mut store = VectorStore::create(3);
    assert_eq!(store.capacity(), 3);
    assert_eq!(store.node_count(), 0);
    assert_eq!(store.words().len(), 3 * 256);
    assert_eq!(store.allocate_node(None), Ok(0));
    assert_eq!(store.allocate_node(Some(ramp(10))), Ok(1));
    assert!(!store.is_full());
    assert_eq!(store.allocate_node(None), Ok(2));
    assert!(store.is_full());
    assert_eq!(store.allocate_node(None), Err(LoomError::StoreFull));
    assert_eq!(store.allocate_node(Some(ramp(1))), Err(LoomError::StoreFull));
    assert_eq!(store.node_count(), 3);
    assert!(store.contains(2));
    assert!(!store.contains(3));
}

#[test]
fn a_store_without_slots_is_full_at_once() {
    let mut store = VectorStore::create(0);
    assert!(store.is_full());
    assert_eq!(store.allocate_node(None), Err(LoomError::StoreFull));
}

#[test]
fn reads_and_writes_are_bounds_checked() {
    let mut store = VectorStore::create(4);
    store.allocate_node(Some(ramp(100))).unwrap();
    store.allocate_node(None).unwrap();
    assert_eq!(store.read_vector(0).unwrap().to_words(), ramp(100).to_words());
    assert_eq!(store.read_vector(1).unwrap().to_words(), vec![0; 256]);
    assert_eq!(store.read_vector(2).err(), Some(LoomError::OutOfRange));
    assert_eq!(store.write_vector(2, &ramp(1)), Err(LoomError::OutOfRange));
    assert_eq!(store.read_region(2, Region::Semantic).err(), Some(LoomError::OutOfRange));
    assert_eq!(store.write_region(2, Region::Semantic, &vec![1]), Err(LoomError::OutOfRange));
    assert_eq!(store.write_vector(1, &ramp(500)), Ok(()));
    assert_eq!(store.read_vector(1).unwrap().to_words(), ramp(500).to_words());
    assert_eq!(store.read_vector(0).unwrap().to_words(), ramp(100).to_words());
    assert_eq!(&store.words()[256..512], &ramp(500).to_words()[..]);
    assert_eq!(&store.words()[512..], &vec![0u32; 512][..]);
}

#[test]
fn region_writes_leave_the_rest_alone() {
    let mut store = VectorStore::create(2);
    store.allocate_node(Some(ramp(0))).unwrap();
    store.allocate_node(Some(ramp(1000))).unwrap();
    assert_eq!(store.write_region(0, Region::Semantic, &vec![42; 64]), Ok(()));
    let v = store.read_vector(0).unwrap();
    assert_eq!(v.region(Region::Semantic), vec![42; 64]);
    assert_eq!(v.get(19), 19);
    assert_eq!(v.get(84), 84);
    assert_eq!(store.read_vector(1).unwrap().to_words(), ramp(1000).to_words());
    assert_eq!(store.read_region(1, Region::Position).unwrap(), (1004..1020u32).collect::<Vec<u32>>());
}

#[test]
fn scoped_mutation_stores_what_the_function_returns() {
    let mut store = VectorStore::create(2);
    store.allocate_node(Some(ramp(0))).unwrap();
    let r = store.with_vector_mut(0, |mut v: NodeVector| {
        v.set(7, 7000);
        v
    });
    assert_eq!(r, Ok(()));
    assert_eq!(store.read_vector(0).unwrap().get(7), 7000);
    assert_eq!(store.read_vector(0).unwrap().get(8), 8);
    let r = store.with_vector_mut(1, |v: NodeVector| v);
    assert_eq!(r, Err(LoomError::OutOfRange));
}

#[test]
fn open_refuses_images_of_the_wrong_size() {
    assert_eq!(VectorStore::open(vec![0; 512], 3).err(), Some(LoomError::CapacityMismatch));
    assert_eq!(VectorStore::open(vec![0; 512], 1).err(), Some(LoomError::CapacityMismatch));
    assert_eq!(VectorStore::open(vec![0; 513], 2).err(), Some(LoomError::Malformed));
    assert_eq!(VectorStore::open(vec![0; 100], 0).err(), Some(LoomError::Malformed));
    assert!(VectorStore::open(vec![0; 512], 2).is_ok());
    assert!(VectorStore::open(vec![], 0).is_ok());
}

#[test]
fn reopening_twice_gives_the_same_store() {
    let mut store = VectorStore::create(3);
    store.allocate_node(Some(ramp(5))).unwrap();
    store.allocate_node(Some(ramp(50))).unwrap();
    let image = store.words().clone();
    let first = VectorStore::open(image.clone(), 3).unwrap();
    let second = VectorStore::open(image.clone(), 3).unwrap();
    assert_eq!(first.words(), second.words());
    assert_eq!(first.words(), &image);
    assert_eq!(first.node_count(), second.node_count());
    assert_eq!(first.node_count(), 0);
    assert_eq!(first.capacity(), second.capacity());
}

#[test]
fn allocation_without_initial_vector_keeps_persisted_words() {
    let mut store = VectorStore::create(2);
    store.allocate_node(Some(ramp(5))).unwrap();
    let mut reopened = VectorStore::open(store.words().clone(), 2).unwrap();
    assert_eq!(reopened.read_vector(0).err(), Some(LoomError::OutOfRange));
    assert_eq!(reopened.allocate_node(None), Ok(0));
    assert_eq!(reopened.read_vector(0).unwrap().to_words(), ramp(5).to_words());
}

#[test]
fn reopening_with_the_node_count_gives_the_nodes_back() {
    let mut store = VectorStore::create(3);
    store.allocate_node(Some(ramp(5))).unwrap();
    store.allocate_node(Some(ramp(50))).unwrap();
    let image = store.words().clone();
    let first = VectorStore::open_with_nodes(image.clone(), 3, 2).unwrap();
    let mut second = VectorStore::open_with_nodes(image.clone(), 3, 2).unwrap();
    assert_eq!(first.node_count(), 2);
    assert_eq!(second.node_count(), 2);
    for id in 0..2 {
        assert_eq!(
            first.read_vector(id).unwrap().to_words(),
            store.read_vector(id).unwrap().to_words()
        );
        assert_eq!(
            first.read_vector(id).unwrap().to_words(),
            second.read_vector(id).unwrap().to_words()
        );
    }
    assert_eq!(first.read_vector(2).err(), Some(LoomError::OutOfRange));
    assert_eq!(second.allocate_node(Some(ramp(9))), Ok(2));
    assert_eq!(second.read_vector(0).unwrap().to_words(), ramp(5).to_words());
    assert_eq!(VectorStore::open_with_nodes(image.clone(), 3, 3).unwrap().node_count(), 3);
    assert_eq!(
        VectorStore::open_with_nodes(image.clone(), 3, 4).err(),
        Some(LoomError::OutOfRange)
    );
    assert_eq!(
        VectorStore::open_with_nodes(image.clone(), 2, 1).err(),
        Some(LoomError::CapacityMismatch)
    );
    assert_eq!(
        VectorStore::open_with_nodes(vec![0; 5], 2, 9).err(),
        Some(LoomError::Malformed)
    );
}
