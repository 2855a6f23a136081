use loom_core::error::LoomError;
use loom_core::instruction::{
    CommandStatement, ConnectStatement, ConnectionKind, ConnectionStatement, ConnectionType,
    ResolutionStrategy,
};
use loom_core::layout::Region;
use loom_core::locking::{LockLedger, LockLevel};
use loom_core::learning::{
    key_pair, node_key, pair_key, unordered_key, WeightTable, ATTENTION_DECAY, ATTENTION_FLOOR,
    CRYSTALLIZED_STRENGTH, HEBBIAN_THRESHOLD, PRUNE_FLOOR, RESONANCE_DECAY, RESONANCE_FLOOR,
};
use loom_core::learning::HebbianOutcome;
use loom_core::processor::{
    copy_words, ComputeFunction, HyperedgeProcessor, ProcessorParams, ProcessorRegistry,
    ProcessorType, Schedule, DEFAULT_DAMPING, DEFAULT_EPSILON, DEFAULT_LEARNING_RATE,
};
use loom_core::runtime::{LoomRuntime, NodeRef, Plan, Update, DEFAULT_PRIORITY};
use loom_core::scheduler::NORM_BOUND;
use loom_core::store::VectorStore;
use loom_core::vector::NodeVector;

fn filled(word: u32) -> NodeVector {
    NodeVector::from_words(&vec![word; 256])
}

fn runtime(capacity: usize) -> LoomRuntime {
    LoomRuntime::new(VectorStore::create(capacity))
}

#[test]
fn named_constants_are_the_encodings_they_name() {
    assert_eq!(DEFAULT_DAMPING, 0.1f32.to_bits());
    assert_eq!(DEFAULT_LEARNING_RATE, 0.05f32.to_bits());
    assert_eq!(DEFAULT_EPSILON, 1e-4f32.to_bits());
    assert_eq!(DEFAULT_PRIORITY, 0.5f32.to_bits());
    assert_eq!(NORM_BOUND, 10.0f32.to_bits());
    assert_eq!(HEBBIAN_THRESHOLD, 0.1f32.to_bits());
    assert_eq!(PRUNE_FLOOR, 0.001f32.to_bits());
    assert_eq!(CRYSTALLIZED_STRENGTH, 0.9f32.to_bits());
    assert_eq!(ATTENTION_DECAY, 0.95f32.to_bits());
    assert_eq!(RESONANCE_DECAY, 0.98f32.to_bits());
    assert_eq!(ATTENTION_FLOOR, 0.01f32.to_bits());
    assert_eq!(RESONANCE_FLOOR, 0.1f32.to_bits());
    assert_eq!(loom_core::instruction::DEFAULT_STRENGTH, 0.1f32.to_bits());
}

#[test]
fn default_parameters_and_schedule() {
    let params = ProcessorParams::default();
    assert_eq!(f32::from_bits(params.lambda_v), 0.1);
    assert_eq!(f32::from_bits(params.lambda_e), 0.1);
    assert_eq!(f32::from_bits(params.eta), 0.05);
    assert!(params.is_valid());
    assert!(ProcessorParams::undamped(0).is_valid());
    let zero = ProcessorParams { lambda_v: 0, lambda_e: DEFAULT_DAMPING, eta: 0 };
    assert!(!zero.is_valid());
    let above = ProcessorParams { lambda_v: DEFAULT_DAMPING, lambda_e: 1.5f32.to_bits(), eta: 0 };
    assert!(!above.is_valid());
    let schedule = Schedule::default();
    assert_eq!(schedule.steps, 10);
    assert_eq!(f32::from_bits(schedule.epsilon), 1e-4);
    assert_eq!(
        schedule.order,
        vec![ProcessorType::IsA, ProcessorType::PartOf, ProcessorType::Correlates]
    );
}

#[test]
fn kinds_say_what_they_need_and_write() {
    assert_eq!(ProcessorType::IsA.required_members(), 2);
    assert_eq!(ProcessorType::PartOf.required_members(), 2);
    assert_eq!(ProcessorType::Correlates.required_members(), 2);
    assert_eq!(ProcessorType::PatternExtractor.required_members(), 1);
    assert!(ProcessorType::IsA.may_write_member(0));
    assert!(!ProcessorType::IsA.may_write_member(1));
    assert!(ProcessorType::Correlates.may_write_member(1));
    assert!(!ProcessorType::Correlates.may_write_member(2));
    assert!(!ProcessorType::AbstractionBuilder.may_write_member(0));
    assert!(ProcessorType::AbstractionBuilder.may_write_state());
    assert!(!ProcessorType::PropertySynchronizer.may_write_state());
    assert!(!ProcessorType::CustomTransform.may_write_state());
    assert!(ProcessorType::CustomTransform.may_write_member(5));
    let custom = ComputeFunction::CustomTransform { matrix: vec![1, 2, 3] };
    assert_eq!(custom.processor_type(), ProcessorType::CustomTransform);
    assert_eq!(custom.matrix(), vec![1, 2, 3]);
    assert_eq!(ComputeFunction::IsA.matrix(), Vec::<u32>::new());
    assert_eq!(copy_words(&vec![4, 5]), vec![4, 5]);
}

#[test]
fn registry_finds_processors_by_id() {
    let mut registry = ProcessorRegistry::new();
    for (id, kind) in [(3u32, ComputeFunction::IsA), (5, ComputeFunction::PartOf)] {
        assert!(registry.register(HyperedgeProcessor {
            id,
            name: format!("p{}", id),
            members: vec![0, 1],
            compute_fn: kind,
            params: ProcessorParams::default(),
        }));
    }
    assert!(!registry.register(HyperedgeProcessor {
        id: 5,
        name: "again".to_string(),
        members: vec![0],
        compute_fn: ComputeFunction::IsA,
        params: ProcessorParams::default(),
    }));
    assert!(!registry.register(HyperedgeProcessor {
        id: 9,
        name: "empty".to_string(),
        members: vec![],
        compute_fn: ComputeFunction::IsA,
        params: ProcessorParams::default(),
    }));
    assert_eq!(registry.len(), 2);
    assert_eq!(registry.find(3), Some(0));
    assert_eq!(registry.find(5), Some(1));
    assert_eq!(registry.find(4), None);
    assert!(registry.is_processor(5));
    assert!(!registry.is_processor(0));
    assert_eq!(registry.get(5).unwrap().name, "p5");
    assert_eq!(registry.get(9).err(), Some(LoomError::NotFound));
}

#[test]
fn weave_allocates_and_binds() {
    let mut rt = runtime(2);
    assert_eq!(rt.weave("apple".to_string(), None), Ok(0));
    assert_eq!(rt.weave("fruit".to_string(), Some(filled(7))), Ok(1));
    assert_eq!(rt.weave("food".to_string(), None), Err(LoomError::StoreFull));
    assert_eq!(rt.names.lookup(&"apple".to_string()), Ok(0));
    assert_eq!(rt.names.lookup(&"fruit".to_string()), Ok(1));
    assert_eq!(rt.names.lookup(&"food".to_string()), Err(LoomError::NotFound));
    assert_eq!(rt.store.read_vector(1).unwrap().to_words(), vec![7; 256]);
    assert_eq!(rt.store.node_count(), 2);
}

#[test]
fn weave_node_makes_an_unlabelled_node() {
    let mut rt = runtime(2);
    assert_eq!(rt.weave_node(Some(&vec![3; 70])), Ok(0));
    assert_eq!(rt.weave_node(None), Ok(1));
    assert_eq!(rt.weave_node(None), Err(LoomError::StoreFull));
    let first = rt.store.read_vector(0).unwrap();
    assert_eq!(first.region(Region::Semantic), vec![3; 64]);
    assert_eq!(first.region(Region::Activation), vec![0; 64]);
    assert_eq!(first.region(Region::Identity), vec![0; 4]);
    let second = rt.store.read_vector(1).unwrap();
    assert_eq!(second.region(Region::Identity), vec![1.0f32.to_bits(), 0, 0, 0]);
    assert_eq!(second.region(Region::Position), vec![0; 16]);
    assert_eq!(second.region(Region::Semantic), vec![0; 64]);
}

#[test]
fn identity_words_are_the_bytes_of_the_id() {
    let mut rt = LoomRuntime::new(VectorStore::create(300));
    for _ in 0..300 {
        rt.weave_node(None).unwrap();
    }
    for id in [0u32, 1, 2, 255, 256, 299] {
        let identity = rt.store.read_vector(id).unwrap().region(Region::Identity);
        let expected: Vec<u32> = vec![
            ((id & 0xFF) as f32).to_bits(),
            (((id >> 8) & 0xFF) as f32).to_bits(),
            (((id >> 16) & 0xFF) as f32).to_bits(),
            (((id >> 24) & 0xFF) as f32).to_bits(),
        ];
        assert_eq!(identity, expected);
    }
    assert_eq!(
        loom_core::vector::identity_words(0x0102_03FF),
        vec![255.0f32.to_bits(), 3.0f32.to_bits(), 2.0f32.to_bits(), 1.0f32.to_bits()]
    );
}

#[test]
fn query_resolves_labels_and_ids() {
    let mut rt = runtime(4);
    rt.weave("apple".to_string(), Some(filled(1))).unwrap();
    rt.weave("fruit".to_string(), Some(filled(2))).unwrap();
    rt.weave("food".to_string(), Some(filled(3))).unwrap();
    rt.connect(0, 2, 0.8f32.to_bits(), false);
    rt.connect(0, 1, 0.9f32.to_bits(), true);
    let (vector, neighbors) = rt.query(&NodeRef::Label("apple".to_string())).unwrap();
    assert_eq!(vector.to_words(), vec![1; 256]);
    assert_eq!(neighbors, vec![(1, 0.9f32.to_bits()), (2, 0.8f32.to_bits())]);
    let (vector, neighbors) = rt.query(&NodeRef::Id(1)).unwrap();
    assert_eq!(vector.to_words(), vec![2; 256]);
    assert_eq!(neighbors, vec![(0, 0.9f32.to_bits())]);
    assert_eq!(rt.query(&NodeRef::Id(2)).unwrap().1, vec![]);
    assert_eq!(rt.query(&NodeRef::Label("pear".to_string())).err(), Some(LoomError::NotFound));
    assert_eq!(rt.query(&NodeRef::Id(3)).err(), Some(LoomError::OutOfRange));
    rt.names.register("ghost".to_string(), 40);
    assert_eq!(rt.query(&NodeRef::Label("ghost".to_string())).err(), Some(LoomError::OutOfRange));
}

#[test]
fn create_processor_takes_the_next_id_and_the_cold_start() {
    let mut rt = runtime(4);
    let a = rt.weave("a".to_string(), Some(filled(9))).unwrap();
    let b = rt.weave("b".to_string(), None).unwrap();
    assert_eq!(rt.member_semantics(&vec![a, 17, b]), vec![vec![9; 64], vec![0; 64]]);
    let id = rt
        .create_processor(
            "pattern".to_string(),
            vec![a, b],
            ComputeFunction::PatternExtractor,
            ProcessorParams::default(),
            &vec![5; 100],
        )
        .unwrap();
    assert_eq!(id, 2);
    let own = rt.store.read_vector(id).unwrap();
    assert_eq!(own.region(Region::Semantic), vec![5; 64]);
    assert_eq!(own.region(Region::Position), vec![0; 16]);
    assert_eq!(own.region(Region::Activation), vec![0; 64]);
    assert_eq!(rt.names.lookup(&"pattern".to_string()), Ok(2));
    let p = rt.registry.get(2).unwrap();
    assert_eq!(p.members, vec![0, 1]);
    assert_eq!(p.compute_fn.processor_type(), ProcessorType::PatternExtractor);
    assert_eq!(
        rt.create_processor(
            "empty".to_string(),
            vec![],
            ComputeFunction::IsA,
            ProcessorParams::default(),
            &vec![],
        ),
        Err(LoomError::EmptyMembers)
    );
    assert_eq!(rt.weave("c".to_string(), None), Ok(3));
    assert_eq!(
        rt.create_processor(
            "late".to_string(),
            vec![a],
            ComputeFunction::IsA,
            ProcessorParams::default(),
            &vec![],
        ),
        Err(LoomError::StoreFull)
    );
}

fn is_a_runtime() -> LoomRuntime {
    let mut rt = runtime(8);
    rt.weave("child".to_string(), Some(filled(1))).unwrap();
    rt.weave("parent".to_string(), Some(filled(2))).unwrap();
    rt.create_processor(
        "isa".to_string(),
        vec![0, 1],
        ComputeFunction::IsA,
        ProcessorParams { lambda_v: 11, lambda_e: 12, eta: 13 },
        &vec![3; 64],
    )
    .unwrap();
    rt
}

#[test]
fn prepare_gathers_what_the_rule_reads() {
    let rt = is_a_runtime();
    match rt.prepare(2).unwrap() {
        Plan::Run(job) => {
            assert_eq!(job.processor, 2);
            assert_eq!(job.kind, ProcessorType::IsA);
            assert_eq!(job.params, ProcessorParams { lambda_v: 11, lambda_e: 12, eta: 13 });
            assert_eq!(job.members, vec![0, 1]);
            assert_eq!(job.inputs.len(), 2);
            assert_eq!(job.inputs[0].to_words(), vec![1; 256]);
            assert_eq!(job.inputs[1].to_words(), vec![2; 256]);
            assert_eq!(job.state.region(Region::Semantic), vec![3; 64]);
            assert!(job.matrix.is_empty());
        }
        Plan::Idle => panic!("the processor has both members"),
    }
    assert_eq!(rt.prepare(0).err(), Some(LoomError::NotFound));
    assert_eq!(rt.prepare(3).err(), Some(LoomError::NotFound));
}

#[test]
fn prepare_is_idle_for_missing_or_too_few_members() {
    let mut rt = is_a_runtime();
    let dangling = rt
        .create_processor(
            "dangling".to_string(),
            vec![0, 6],
            ComputeFunction::PartOf,
            ProcessorParams::default(),
            &vec![],
        )
        .unwrap();
    assert!(matches!(rt.prepare(dangling), Ok(Plan::Idle)));
    let single = rt
        .create_processor(
            "single".to_string(),
            vec![1],
            ComputeFunction::Correlates,
            ProcessorParams::default(),
            &vec![],
        )
        .unwrap();
    assert!(matches!(rt.prepare(single), Ok(Plan::Idle)));
    let pattern = rt
        .create_processor(
            "pattern".to_string(),
            vec![1],
            ComputeFunction::CustomTransform { matrix: vec![8, 9] },
            ProcessorParams::default(),
            &vec![],
        )
        .unwrap();
    match rt.prepare(pattern).unwrap() {
        Plan::Run(job) => assert_eq!(job.matrix, vec![8, 9]),
        Plan::Idle => panic!("one member is enough"),
    }
    let update = Update { state: Some(vec![4; 64]), members: vec![Some(vec![4; 64])], delta: 77 };
    let image = rt.store.words().clone();
    assert_eq!(rt.commit(dangling, &update), Ok(0));
    assert_eq!(rt.commit(single, &update), Ok(0));
    assert_eq!(rt.store.words(), &image);
    assert_eq!(rt.weave("six".to_string(), None), Ok(6));
    assert!(matches!(rt.prepare(dangling), Ok(Plan::Run(_))));
}

#[test]
fn commit_writes_only_what_the_kind_may_write() {
    let mut rt = is_a_runtime();
    let update = Update {
        state: Some(vec![30; 64]),
        members: vec![Some(vec![10; 64]), Some(vec![20; 64])],
        delta: 0.25f32.to_bits(),
    };
    assert_eq!(rt.commit(2, &update), Ok(0.25f32.to_bits()));
    let child = rt.store.read_vector(0).unwrap();
    assert_eq!(child.region(Region::Semantic), vec![10; 64]);
    assert_eq!(child.region(Region::Position), vec![1; 16]);
    assert_eq!(child.region(Region::Activation), vec![1; 64]);
    assert_eq!(child.region(Region::Metadata), vec![1; 12]);
    assert_eq!(rt.store.read_vector(1).unwrap().to_words(), vec![2; 256]);
    assert_eq!(rt.store.read_vector(2).unwrap().region(Region::Semantic), vec![30; 64]);
    assert_eq!(rt.commit(1, &update), Err(LoomError::NotFound));
}

#[test]
fn commit_writes_whole_vectors_for_aggregation_and_coupling() {
    assert_eq!(ProcessorType::Correlates.write_window(), (0, 256));
    assert_eq!(ProcessorType::PartOf.write_window(), (0, 256));
    assert_eq!(ProcessorType::IsA.write_window(), (20, 64));
    assert_eq!(ProcessorType::PatternExtractor.write_window(), (20, 64));
    assert_eq!(ProcessorType::PropertySynchronizer.write_window(), (20, 64));
    assert_eq!(ProcessorType::AbstractionBuilder.write_window(), (20, 64));
    assert_eq!(ProcessorType::CustomTransform.write_window(), (20, 64));
    let mut rt = runtime(8);
    for word in 1..=3u32 {
        rt.weave(format!("n{}", word), Some(filled(word))).unwrap();
    }
    let corr = rt
        .create_processor(
            "corr".to_string(),
            vec![0, 1, 2],
            ComputeFunction::Correlates,
            ProcessorParams::default(),
            &vec![],
        )
        .unwrap();
    let part = rt
        .create_processor(
            "part".to_string(),
            vec![2, 0],
            ComputeFunction::PartOf,
            ProcessorParams::default(),
            &vec![],
        )
        .unwrap();
    let update = Update {
        state: Some(vec![90; 256]),
        members: vec![Some(vec![10; 256]), Some(vec![20; 100]), Some(vec![30; 256])],
        delta: 5,
    };
    assert_eq!(rt.commit(corr, &update), Ok(5));
    assert_eq!(rt.store.read_vector(corr).unwrap().to_words(), vec![90; 256]);
    assert_eq!(rt.store.read_vector(0).unwrap().to_words(), vec![10; 256]);
    let second = rt.store.read_vector(1).unwrap().to_words();
    assert_eq!(&second[..100], &vec![20; 100][..]);
    assert_eq!(&second[100..], &vec![2; 156][..]);
    assert_eq!(rt.store.read_vector(2).unwrap().to_words(), vec![3; 256]);
    assert_eq!(rt.commit(part, &update), Ok(5));
    assert_eq!(rt.store.read_vector(part).unwrap().to_words(), vec![90; 256]);
    assert_eq!(rt.store.read_vector(2).unwrap().to_words(), vec![10; 256]);
    assert_eq!(rt.store.read_vector(0).unwrap().to_words(), vec![10; 256]);
    assert_eq!(rt.store.write_window(1, 250, 6, &vec![7; 9]), Ok(()));
    assert_eq!(&rt.store.read_vector(1).unwrap().to_words()[249..], &[2, 7, 7, 7, 7, 7, 7][..]);
    assert_eq!(rt.store.write_window(9, 0, 6, &vec![7; 9]), Err(LoomError::OutOfRange));
}

#[test]
fn replay_counts_the_most_recent_experiences() {
    let mut rt = runtime(8);
    for i in 0..4 {
        rt.weave(format!("n{}", i), None).unwrap();
    }
    let mut experiences: Vec<Vec<u32>> = Vec::new();
    for _ in 0..30 {
        experiences.push(vec![0, 1]);
    }
    for _ in 0..95 {
        experiences.push(vec![3, 2, 7, 3]);
    }
    experiences.push(vec![1]);
    experiences.push(vec![]);
    let mut counts = WeightTable::new();
    rt.replay(&experiences, &mut counts);
    assert_eq!(counts.get(unordered_key(2, 3)), Some(190));
    assert_eq!(counts.get(unordered_key(0, 1)), Some(3));
    assert_eq!(counts.len(), 2);
    assert_eq!(counts.values(), vec![190, 3]);
    let mut few = WeightTable::new();
    rt.replay(&vec![vec![0, 1, 2]], &mut few);
    assert_eq!(few.values(), vec![1, 1, 1]);
    assert_eq!(loom_core::learning::REPLAY_LIMIT, 100);
}

#[test]
fn commit_follows_the_kind() {
    let mut rt = runtime(8);
    for word in 1..=3u32 {
        rt.weave(format!("n{}", word), Some(filled(word))).unwrap();
    }
    let sync = rt
        .create_processor(
            "sync".to_string(),
            vec![0, 1, 2],
            ComputeFunction::PropertySynchronizer,
            ProcessorParams::default(),
            &vec![7; 64],
        )
        .unwrap();
    let build = rt
        .create_processor(
            "abstraction".to_string(),
            vec![0, 1],
            ComputeFunction::AbstractionBuilder,
            ProcessorParams::default(),
            &vec![8; 64],
        )
        .unwrap();
    let update = Update {
        state: Some(vec![90; 64]),
        members: vec![Some(vec![10; 64]), None, Some(vec![30; 10])],
        delta: 5,
    };
    assert_eq!(rt.commit(sync, &update), Ok(5));
    assert_eq!(rt.store.read_vector(sync).unwrap().region(Region::Semantic), vec![7; 64]);
    assert_eq!(rt.store.read_vector(0).unwrap().region(Region::Semantic), vec![10; 64]);
    assert_eq!(rt.store.read_vector(1).unwrap().to_words(), vec![2; 256]);
    let third = rt.store.read_vector(2).unwrap().region(Region::Semantic);
    assert_eq!(&third[..10], &vec![30; 10][..]);
    assert_eq!(&third[10..], &vec![3; 54][..]);
    assert_eq!(rt.commit(build, &update), Ok(5));
    assert_eq!(rt.store.read_vector(build).unwrap().region(Region::Semantic), vec![90; 64]);
    assert_eq!(rt.store.read_vector(0).unwrap().region(Region::Semantic), vec![10; 64]);
    assert_eq!(rt.store.read_vector(1).unwrap().to_words(), vec![2; 256]);
}

#[test]
fn activation_marks_nodes_as_active() {
    let mut rt = runtime(4);
    for i in 0..3 {
        rt.weave(format!("n{}", i), Some(filled(0))).unwrap();
    }
    assert_eq!(rt.active_nodes(loom_core::learning::ACTIVITY_THRESHOLD), Vec::<u32>::new());
    assert_eq!(rt.activate(2, 0.8f32.to_bits()), Ok(()));
    assert_eq!(rt.activate(0, 0.5f32.to_bits()), Ok(()));
    assert_eq!(rt.activate(1, 0.1f32.to_bits()), Ok(()));
    assert_eq!(rt.activate(3, 0.9f32.to_bits()), Err(LoomError::OutOfRange));
    assert_eq!(rt.active_nodes(0.1f32.to_bits()), vec![0, 2]);
    assert_eq!(rt.active_nodes(0.6f32.to_bits()), vec![2]);
    assert_eq!(rt.activate(2, 0.0f32.to_bits()), Ok(()));
    assert_eq!(rt.active_nodes(0.1f32.to_bits()), vec![0]);
    let history = rt.store.read_vector(2).unwrap().activation_history();
    assert_eq!(&history[..3], &[0.0f32.to_bits(), 0.8f32.to_bits(), 0][..]);
    assert_eq!(rt.store.read_vector(2).unwrap().region(Region::Semantic), vec![0; 64]);
}

#[test]
fn keys_pack_and_unpack() {
    assert_eq!(node_key(7), 7);
    assert_eq!(pair_key(1, 2), (1u64 << 32) + 2);
    assert_eq!(pair_key(u32::MAX, u32::MAX), u64::MAX);
    assert_eq!(unordered_key(5, 3), pair_key(3, 5));
    assert_eq!(unordered_key(3, 5), pair_key(3, 5));
    assert_eq!(key_pair(pair_key(9, 4)), (9, 4));
    assert_eq!(key_pair(u64::MAX), (u32::MAX, u32::MAX));
    assert_eq!(key_pair(0), (0, 0));
}

#[test]
fn weight_table_sets_gets_and_counts() {
    let mut table = WeightTable::new();
    assert_eq!(table.get(1), None);
    table.set(1, 10);
    table.set(2, 20);
    table.set(1, 11);
    assert_eq!(table.len(), 2);
    assert_eq!(table.get(1), Some(11));
    assert_eq!(table.get(2), Some(20));
    assert_eq!(table.values(), vec![11, 20]);
    table.bump(3);
    table.bump(3);
    table.bump(2);
    assert_eq!(table.get(3), Some(2));
    assert_eq!(table.get(2), Some(21));
    table.set(4, u32::MAX);
    table.bump(4);
    assert_eq!(table.get(4), Some(u32::MAX));
    assert_eq!(table.above(10), vec![1, 2, 4]);
    assert_eq!(table.above(11), vec![2, 4]);
}

#[test]
fn decay_scales_and_forgets() {
    let mut attention = WeightTable::new();
    let weights = [0.5f32, 0.0104, 0.0106, 0.2];
    for (node, w) in weights.iter().enumerate() {
        attention.set(node_key(node as u32), w.to_bits());
    }
    let factor = f32::from_bits(ATTENTION_DECAY);
    let scaled: Vec<u32> =
        attention.values().iter().map(|w| (f32::from_bits(*w) * factor).to_bits()).collect();
    attention.decay(&scaled, ATTENTION_FLOOR);
    assert_eq!(attention.len(), 3);
    assert_eq!(attention.get(0), Some((0.5f32 * 0.95).to_bits()));
    assert_eq!(attention.get(1), None);
    assert_eq!(attention.get(2), Some((0.0106f32 * 0.95).to_bits()));
    assert_eq!(attention.get(3), Some((0.2f32 * 0.95).to_bits()));
    let mut ticks = 0;
    while attention.len() > 0 {
        let scaled: Vec<u32> =
            attention.values().iter().map(|w| (f32::from_bits(*w) * factor).to_bits()).collect();
        let before = attention.len();
        attention.decay(&scaled, ATTENTION_FLOOR);
        assert!(attention.len() <= before);
        ticks += 1;
        assert!(ticks < 200);
    }
    let mut partial = WeightTable::new();
    partial.set(1, 0.5f32.to_bits());
    partial.set(2, 0.5f32.to_bits());
    partial.set(3, f32::NAN.to_bits());
    partial.decay(&vec![0.05f32.to_bits()], RESONANCE_FLOOR);
    assert_eq!(partial.values(), vec![0.5f32.to_bits()]);
    assert_eq!(partial.get(2), Some(0.5f32.to_bits()));
}

#[test]
fn consolidation_crystallizes_and_prunes() {
    let mut rt = runtime(8);
    for i in 0..4 {
        rt.weave(format!("n{}", i), None).unwrap();
    }
    rt.connect(0, 3, 0.0005f32.to_bits(), true);
    rt.connect(2, 3, 0.4f32.to_bits(), false);
    rt.connect(1, 0, 0.0001f32.to_bits(), false);
    let mut counts = WeightTable::new();
    for _ in 0..11 {
        counts.record_coactivation(&vec![(1, 0), (1, 2)]);
    }
    counts.record_coactivation(&vec![(0, 1)]);
    for _ in 0..10 {
        counts.record_coactivation(&vec![(2, 3), (3, 2)]);
    }
    assert_eq!(counts.get(unordered_key(0, 1)), Some(12));
    assert_eq!(counts.get(unordered_key(2, 1)), Some(11));
    assert_eq!(counts.get(unordered_key(2, 3)), Some(20));
    assert_eq!(counts.above(11), vec![pair_key(0, 1), pair_key(2, 3)]);
    rt.consolidate(&counts, 11);
    assert_eq!(rt.connections.strength_of(0, 1), 0.9f32.to_bits());
    assert_eq!(rt.connections.strength_of(1, 0), 0.9f32.to_bits());
    assert_eq!(rt.connections.strength_of(2, 3), 0.9f32.to_bits());
    assert_eq!(rt.connections.strength_of(3, 2), 0.9f32.to_bits());
    assert!(!rt.connections.is_connected(1, 2));
    assert!(!rt.connections.is_connected(0, 3));
    assert!(!rt.connections.is_connected(3, 0));
    assert_eq!(rt.connections.edges().len(), 4);
}

#[test]
fn conflicts_are_settled_oldest_first() {
    let mut rt = runtime(4);
    rt.weave("a".to_string(), Some(filled(4))).unwrap();
    rt.weave("b".to_string(), Some(filled(8))).unwrap();
    rt.flag_conflict(0, 1, "contradicts".to_string());
    rt.flag_conflict(1, 3, "later".to_string());
    assert_eq!(rt.antibodies.len(), 2);
    let first = rt.take_conflict().unwrap();
    assert_eq!((first.node1, first.node2), (0, 1));
    assert_eq!(first.conflict_type, "contradicts");
    assert_eq!(first.priority, 0.5f32.to_bits());
    assert!(first.resolution.is_averaging());
    assert!(rt.settle_conflict(first.node1, first.node2, &vec![6; 64]));
    assert_eq!(rt.store.read_vector(0).unwrap().region(Region::Semantic), vec![6; 64]);
    assert_eq!(rt.store.read_vector(1).unwrap().region(Region::Semantic), vec![6; 64]);
    assert_eq!(rt.store.read_vector(0).unwrap().region(Region::Activation), vec![4; 64]);
    assert_eq!(rt.store.read_vector(1).unwrap().region(Region::Position), vec![8; 16]);
    let second = rt.take_conflict().unwrap();
    assert_eq!((second.node1, second.node2), (1, 3));
    let image = rt.store.words().clone();
    assert!(!rt.settle_conflict(second.node1, second.node2, &vec![1; 64]));
    assert_eq!(rt.store.words(), &image);
    assert!(rt.take_conflict().is_none());
    assert!(!ResolutionStrategy::Merge.is_averaging());
    assert!(!ResolutionStrategy::Custom("own".to_string()).is_averaging());
}

#[test]
fn hebbian_outcome_below_threshold_changes_nothing() {
    let mut rt = runtime(4);
    rt.connect(0, 1, 0.2f32.to_bits(), false);
    let at = HebbianOutcome {
        correlation: 0.1f32.to_bits(),
        raised_ab: 0.9f32.to_bits(),
        raised_ba: 0.9f32.to_bits(),
    };
    assert!(!rt.apply_hebbian(0, 1, at));
    assert_eq!(rt.connections.strength_of(0, 1), 0.2f32.to_bits());
    assert!(!rt.connections.is_connected(1, 0));
    let above = HebbianOutcome {
        correlation: 0.11f32.to_bits(),
        raised_ab: 1.7f32.to_bits(),
        raised_ba: (-0.3f32).to_bits(),
    };
    assert!(rt.apply_hebbian(0, 1, above));
    assert_eq!(rt.connections.strength_of(0, 1), 1.0f32.to_bits());
    assert_eq!(rt.connections.strength_of(1, 0), 0.0f32.to_bits());
    assert!(rt.connections.is_connected(1, 0));
}

#[test]
fn connection_kinds_decide_direction_and_strength() {
    assert_eq!(ConnectionKind::Bidirectional.edge_direction(), Some(true));
    assert_eq!(ConnectionKind::Unidirectional.edge_direction(), Some(false));
    assert_eq!(ConnectionKind::Equivalence.edge_direction(), None);
    assert_eq!(ConnectionKind::Abstraction.edge_direction(), None);
    assert_eq!(ConnectionKind::Contextual.edge_direction(), None);
    assert!(ConnectionType::Bidirectional.is_bidirectional());
    assert!(ConnectionType::Equivalence.is_bidirectional());
    assert!(!ConnectionType::Unidirectional.is_bidirectional());
    assert_eq!(ConnectionType::Equivalence.effective_strength(5), 1.0f32.to_bits());
    assert_eq!(ConnectionType::Bidirectional.effective_strength(5), 5);
    assert!(!CommandStatement::ShowTopology.needs_flush());
    assert!(CommandStatement::ApplyHebbian.needs_flush());
    assert!(CommandStatement::Sleep.needs_flush());
}

#[test]
fn link_makes_edges_for_directed_kinds_only() {
    let mut rt = runtime(4);
    assert!(rt.link(0, 1, &ConnectionKind::Bidirectional, Some(0.8f32.to_bits())));
    assert!(rt.link(0, 2, &ConnectionKind::Unidirectional, None));
    assert!(!rt.link(0, 3, &ConnectionKind::Abstraction, Some(0.8f32.to_bits())));
    assert_eq!(
        rt.connections.neighbors(0),
        vec![(1, 0.8f32.to_bits()), (2, 0.1f32.to_bits())]
    );
    assert_eq!(rt.connections.neighbors(1), vec![(0, 0.8f32.to_bits())]);
    assert_eq!(rt.connections.neighbors(2), vec![]);
}

#[test]
fn statements_resolve_labels() {
    let mut rt = runtime(3);
    rt.weave("node1".to_string(), None).unwrap();
    rt.weave("node2".to_string(), None).unwrap();
    let connect = ConnectStatement {
        from: "node1".to_string(),
        to: "node2".to_string(),
        connection_type: ConnectionType::Bidirectional,
        weight: 0.7f32.to_bits(),
    };
    assert_eq!(rt.execute_connect(&connect), Ok((0, 1)));
    assert_eq!(rt.connections.strength_of(0, 1), 0.7f32.to_bits());
    assert_eq!(rt.connections.strength_of(1, 0), 0.7f32.to_bits());
    let equivalence = ConnectStatement {
        from: "node2".to_string(),
        to: "node1".to_string(),
        connection_type: ConnectionType::Equivalence,
        weight: 0.2f32.to_bits(),
    };
    assert_eq!(rt.execute_connect(&equivalence), Ok((1, 0)));
    assert_eq!(rt.connections.strength_of(0, 1), 1.0f32.to_bits());
    let unknown = ConnectStatement {
        from: "node1".to_string(),
        to: "node3".to_string(),
        connection_type: ConnectionType::Unidirectional,
        weight: 0.2f32.to_bits(),
    };
    assert_eq!(rt.execute_connect(&unknown), Err(LoomError::NotFound));
    assert_eq!(rt.connections.edges().len(), 2);
    let hyperedge = ConnectionStatement {
        nodes: vec!["node2".to_string(), "node1".to_string(), "node2".to_string()],
        operator: ConnectionKind::Abstraction,
        target: "both".to_string(),
    };
    assert_eq!(rt.resolve_members(&hyperedge), Ok(vec![1, 0, 1]));
    let broken = ConnectionStatement {
        nodes: vec!["node2".to_string(), "nobody".to_string()],
        operator: ConnectionKind::Abstraction,
        target: "both".to_string(),
    };
    assert_eq!(rt.resolve_members(&broken), Err(LoomError::NotFound));
    assert_eq!(rt.get_or_create_node(&"node2".to_string()), Ok(1));
    assert_eq!(rt.get_or_create_node(&"node3".to_string()), Ok(2));
    assert_eq!(rt.get_or_create_node(&"node3".to_string()), Ok(2));
    assert_eq!(rt.get_or_create_node(&"node4".to_string()), Err(LoomError::StoreFull));
    assert_eq!(rt.store.node_count(), 3);
}

#[test]
fn lock_order_is_store_before_index() {
    let mut ledger = LockLedger::new();
    assert!(ledger.may_acquire(LockLevel::Store));
    assert!(ledger.may_acquire(LockLevel::Index));
    assert!(ledger.acquire(LockLevel::Store));
    assert!(!ledger.acquire(LockLevel::Store));
    assert!(ledger.acquire(LockLevel::Index));
    assert!(!ledger.may_acquire(LockLevel::Store));
    assert!(!ledger.acquire(LockLevel::Index));
    assert_eq!(ledger.depth(), 2);
    assert_eq!(ledger.release(), Some(LockLevel::Index));
    assert_eq!(ledger.release(), Some(LockLevel::Store));
    assert_eq!(ledger.release(), None);
    let mut reversed = LockLedger::new();
    assert!(reversed.acquire(LockLevel::Index));
    assert!(!reversed.acquire(LockLevel::Store));
    assert_eq!(reversed.depth(), 1);
    assert_eq!(LockLevel::Store.position(), 0);
    assert_eq!(LockLevel::Index.position(), 1);
}
