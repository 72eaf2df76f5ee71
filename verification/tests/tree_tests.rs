//! The tree's shape: counters under growth, splitting, demotion, and the
//! promise ranking that drives memory enforcement.
use rivu::conditional_tests::{
    InstanceConditionalTest, NominalAttributeBinaryTest, NominalAttributeMultiwayTest,
};
use rivu::instances::{AttributeValue, Instance};
use rivu::tree::{
    filter_to_leaf, model_attribute_index_to_instance_attribute_index, rank_by_promise, NodeKind,
    TreeShape,
};

#[test]
fn model_index_maps_around_the_class_column() {
    assert_eq!(model_attribute_index_to_instance_attribute_index(0, 1), 0);
    assert_eq!(model_attribute_index_to_instance_attribute_index(0, 0), 1);
    assert_eq!(model_attribute_index_to_instance_attribute_index(2, 5), 2);
    assert_eq!(model_attribute_index_to_instance_attribute_index(2, 1), 3);
}

#[test]
fn empty_tree_counts_nothing() {
    let t = TreeShape::new();
    assert_eq!(t.active_leaf_count, 0);
    assert_eq!(t.inactive_leaf_count, 0);
    assert_eq!(t.decision_node_count, 0);
    assert_eq!(t.node_count(), 0);
    assert!(t.root.is_none());
}

#[test]
fn first_training_step_plants_an_active_root() {
    let mut t = TreeShape::new();
    let root = t.init_root();
    assert_eq!(t.root, Some(root));
    assert_eq!(t.kind_at(root), Some(NodeKind::ActiveLeaf));
    assert_eq!(t.active_leaf_count, 1);
    assert_eq!(t.node_count(), 1);
}

#[test]
fn splitting_a_leaf_moves_the_counters_exactly() {
    let mut t = TreeShape::new();
    let root = t.init_root();
    // a three-way split at the root: one leaf leaves, a decision node and
    // three fresh leaves arrive
    let split = t.split_leaf(root, 3, None);
    assert_eq!(t.root, Some(split));
    assert_eq!(t.kind_at(split), Some(NodeKind::SplitNode));
    assert_eq!(t.kind_at(root), None);
    assert_eq!(t.active_leaf_count, 3);
    assert_eq!(t.inactive_leaf_count, 0);
    assert_eq!(t.decision_node_count, 1);
    assert_eq!(
        t.node_count(),
        t.active_leaf_count + t.inactive_leaf_count + t.decision_node_count
    );
    for b in 0..3 {
        let child = t.child_of(split, b).unwrap();
        assert_eq!(t.kind_at(child), Some(NodeKind::ActiveLeaf));
    }
}

#[test]
fn splitting_under_a_parent_rewires_the_branch() {
    let mut t = TreeShape::new();
    let root = t.init_root();
    let split = t.split_leaf(root, 2, None);
    let left = t.child_of(split, 0).unwrap();
    let deeper = t.split_leaf(left, 2, Some((split, 0)));
    assert_eq!(t.child_of(split, 0), Some(deeper));
    assert_eq!(t.active_leaf_count, 3);
    assert_eq!(t.decision_node_count, 2);
    assert_eq!(t.node_count(), 5);
}

#[test]
fn demotion_and_promotion_swap_a_leaf_between_the_counts() {
    let mut t = TreeShape::new();
    let root = t.init_root();
    let split = t.split_leaf(root, 2, None);
    let left = t.child_of(split, 0).unwrap();

    t.deactivate_leaf(left);
    assert_eq!(t.kind_at(left), Some(NodeKind::InactiveLeaf));
    assert_eq!(t.active_leaf_count, 1);
    assert_eq!(t.inactive_leaf_count, 1);
    assert_eq!(t.node_count(), 3);

    t.activate_leaf(left);
    assert_eq!(t.kind_at(left), Some(NodeKind::ActiveLeaf));
    assert_eq!(t.active_leaf_count, 2);
    assert_eq!(t.inactive_leaf_count, 0);
    assert_eq!(t.node_count(), 3);
}

#[test]
fn learning_nodes_are_every_leaf_and_nothing_else() {
    let mut t = TreeShape::new();
    let root = t.init_root();
    let split = t.split_leaf(root, 2, None);
    let left = t.child_of(split, 0).unwrap();
    t.deactivate_leaf(left);

    let found = t.find_learning_nodes();
    assert_eq!(found.len(), 2);
    for id in &found {
        assert_ne!(t.kind_at(*id), Some(NodeKind::SplitNode));
        assert_ne!(t.kind_at(*id), None);
    }
    assert!(!found.contains(&split));
}

/// The order key of a finite 64-bit float.
fn promise_key(v: f64) -> u64 {
    if v.is_nan() {
        return u64::MAX;
    }
    let v = if v == 0.0 { 0.0 } else { v };
    let b = v.to_bits();
    if b >> 63 == 1 { !b } else { b | (1u64 << 63) }
}

#[test]
fn promise_ranking_sorts_ascending_and_keeps_ties_stable() {
    let promises = vec![
        promise_key(4.0),
        promise_key(0.5),
        promise_key(4.0),
        promise_key(0.0),
    ];
    let order = rank_by_promise(&promises);
    assert_eq!(order, vec![3, 1, 0, 2]);
}

#[test]
fn promise_ranking_sends_unscored_leaves_last() {
    // a missing score ranks above every real one, as the engine treats an
    // unordered comparison
    let promises = vec![promise_key(f64::NAN), promise_key(2.0), promise_key(-1.0)];
    let order = rank_by_promise(&promises);
    assert_eq!(order, vec![2, 1, 0]);
}

#[test]
fn deactivation_takes_the_lowest_promise_leaves_first() {
    let promises = vec![
        promise_key(9.0),
        promise_key(1.0),
        promise_key(5.0),
        promise_key(3.0),
        promise_key(7.0),
    ];
    let order = rank_by_promise(&promises);
    let max_active = 2;
    let cutoff = order.len() - max_active;
    // every leaf kept active has promise at least every deactivated one's
    for i in 0..cutoff {
        for j in cutoff..order.len() {
            assert!(promises[order[i]] <= promises[order[j]]);
        }
    }
    assert_eq!(&order[cutoff..], &[4, 0]);
}

#[test]
fn ranking_nothing_is_empty() {
    let order = rank_by_promise(&Vec::new());
    assert!(order.is_empty());
}

fn routing_fixture() -> (TreeShape, Vec<Option<InstanceConditionalTest>>, usize) {
    let mut t = TreeShape::new();
    let root = t.init_root();
    let split = t.split_leaf(root, 2, None);
    let mut tests: Vec<Option<InstanceConditionalTest>> = Vec::new();
    tests.resize_with(split + 1, || None);
    // branch 0 when column 0 holds value 1, branch 1 otherwise; the class
    // sits in column 1, so the model index 0 reads column 0
    tests[split] = Some(InstanceConditionalTest::NominalBinary(NominalAttributeBinaryTest::new(
        0, 1,
    )));
    (t, tests, split)
}

fn routed_instance(cell: Option<AttributeValue>) -> Instance {
    Instance::new(vec![cell, Some(AttributeValue::Nominal(0))], 1, 1.0f64.to_bits())
}

#[test]
fn routing_follows_the_test_to_a_leaf() {
    let (t, tests, split) = routing_fixture();
    let matching = routed_instance(Some(AttributeValue::Nominal(1)));
    let found = filter_to_leaf(&t, &tests, &matching);
    assert_eq!(found.node, t.child_of(split, 0));
    assert_eq!(found.parent, Some(split));
    assert_eq!(found.parent_branch, Some(0));

    let differing = routed_instance(Some(AttributeValue::Nominal(2)));
    let found = filter_to_leaf(&t, &tests, &differing);
    assert_eq!(found.node, t.child_of(split, 1));
    assert_eq!(found.parent_branch, Some(1));
}

#[test]
fn routing_stops_at_a_split_missing_its_attribute() {
    let (t, tests, split) = routing_fixture();
    let missing = routed_instance(None);
    let found = filter_to_leaf(&t, &tests, &missing);
    assert_eq!(found.node, Some(split));
    assert_eq!(found.parent, None);
    assert_eq!(found.parent_branch, None);
}

#[test]
fn routing_names_an_unfilled_branch_for_the_caller_to_grow() {
    let mut t = TreeShape::new();
    let root = t.init_root();
    let split = t.split_leaf(root, 2, None);
    let mut tests: Vec<Option<InstanceConditionalTest>> = Vec::new();
    tests.resize_with(split + 1, || None);
    // a multiway test can route past the two branches the split grew with
    tests[split] =
        Some(InstanceConditionalTest::NominalMultiway(NominalAttributeMultiwayTest::new(0)));
    let beyond = routed_instance(Some(AttributeValue::Nominal(5)));
    let found = filter_to_leaf(&t, &tests, &beyond);
    assert_eq!(found.node, None);
    assert_eq!(found.parent, Some(split));
    assert_eq!(found.parent_branch, Some(5));
}
