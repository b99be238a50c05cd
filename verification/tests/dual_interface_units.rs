//! Unit tests for the dual interface, the conflict aggregation and the
//! small helpers.

use fusion_blossom::dual_module::DualModuleInterface;
use fusion_blossom::dual_module::DualNodeClass;
use fusion_blossom::dual_module::DualNodeGrowState;
use fusion_blossom::dual_module::DualNodePtr;
use fusion_blossom::dual_module::EdgeWeightModifier;
use fusion_blossom::dual_module::GroupMaxUpdateLength;
use fusion_blossom::dual_module::MaxUpdateLength;
use fusion_blossom::dual_module_graph::DualModuleGraph;

fn ptr(index: usize) -> DualNodePtr {
    DualNodePtr { index }
}

/// a minimal interface holding growing syndrome nodes on the given vertices
fn interface_with(vertices: &[usize]) -> (DualModuleInterface, DualModuleGraph) {
    let mut itf = DualModuleInterface::new_empty();
    let mut du = DualModuleGraph::new_placeholder();
    for v in vertices {
        itf.create_syndrome_node(*v, &mut du);
    }
    (itf, du)
}

#[test]
fn grow_state_is_against() {
    assert!(DualNodeGrowState::Grow.is_against(&DualNodeGrowState::Grow));
    assert!(DualNodeGrowState::Grow.is_against(&DualNodeGrowState::Stay));
    assert!(DualNodeGrowState::Stay.is_against(&DualNodeGrowState::Grow));
    assert!(!DualNodeGrowState::Stay.is_against(&DualNodeGrowState::Stay));
    assert!(!DualNodeGrowState::Grow.is_against(&DualNodeGrowState::Shrink));
    assert!(!DualNodeGrowState::Shrink.is_against(&DualNodeGrowState::Shrink));
}

#[test]
fn node_class_is_blossom() {
    let blossom = DualNodeClass::Blossom { nodes_circle: vec![], touching_children: vec![] };
    let vertex = DualNodeClass::SyndromeVertex { syndrome_index: 7 };
    assert!(blossom.is_blossom());
    assert!(!vertex.is_blossom());
}

#[test]
fn edge_weight_modifier_round_trip() {
    let mut modifier = EdgeWeightModifier::new();
    assert!(!modifier.has_modified_edges());
    modifier.push_modified_edge(3, 1000);
    modifier.push_modified_edge(8, 500);
    assert!(modifier.has_modified_edges());
    assert_eq!(modifier.pop_modified_edge(), (8, 500));
    assert_eq!(modifier.pop_modified_edge(), (3, 1000));
    assert!(!modifier.has_modified_edges());
}

/// clear returns the logical length to zero but keeps the backing arena
#[test]
fn clear_keeps_backing_arena() {
    let (mut itf, _du) = interface_with(&[4, 9]);
    assert_eq!(itf.nodes_length, 2);
    let backing = itf.nodes.len();
    itf.clear();
    assert_eq!(itf.nodes_length, 0);
    assert_eq!(itf.sum_dual_variables, 0);
    assert_eq!(itf.nodes.len(), backing);
}

/// two shrink stops at one vertex with different pressing nodes merge into
/// a single conflict
#[test]
fn shrink_stop_rendezvous() {
    let (itf, _du) = interface_with(&[4, 9, 12]);
    let mut group = GroupMaxUpdateLength::new();
    assert!(group.is_empty());
    group.add(
        MaxUpdateLength::VertexShrinkStop((ptr(0), Some((ptr(1), ptr(1))))),
        &itf,
    );
    assert!(group.get_none_zero_growth().is_none());
    group.add(
        MaxUpdateLength::VertexShrinkStop((ptr(0), Some((ptr(2), ptr(2))))),
        &itf,
    );
    let top = group.peek().expect("a merged conflict must be waiting");
    let (a, b) = top.get_conflicting().expect("the stops must merge into a conflict");
    assert_eq!((a.index, b.index), (2, 1));
    assert!(top.is_conflicting(&ptr(2), &ptr(1)));
    assert!(top.is_conflicting(&ptr(1), &ptr(2)));
}

/// a lone shrink stop without a pressing pair stays pending and pops last
#[test]
fn shrink_stop_without_pair_stays_pending() {
    let (itf, _du) = interface_with(&[4]);
    let mut group = GroupMaxUpdateLength::new();
    group.add(MaxUpdateLength::VertexShrinkStop((ptr(0), None)), &itf);
    let top = group.pop().expect("the pending stop must come out");
    assert_eq!(top.get_vertex_shrink_stop().map(|p| p.index), Some(0));
    assert_eq!(group.pop(), None);
}

/// growth lengths take the minimum until a conflict arrives, which then
/// dominates every later growth report
#[test]
fn growth_reports_take_minimum_and_conflicts_dominate() {
    let (itf, _du) = interface_with(&[4, 9]);
    let mut group = GroupMaxUpdateLength::new();
    group.add(MaxUpdateLength::NonZeroGrow(3000), &itf);
    group.add(MaxUpdateLength::NonZeroGrow(1000), &itf);
    assert_eq!(group.get_none_zero_growth(), Some(1000));
    group.add(
        MaxUpdateLength::Conflicting((ptr(0), ptr(0)), (ptr(1), ptr(1))),
        &itf,
    );
    group.add(MaxUpdateLength::NonZeroGrow(1), &itf);
    assert!(group.get_none_zero_growth().is_none());
}

/// conflicts pop by priority: Conflicting first, then TouchingVirtual,
/// then BlossomNeedExpand, then VertexShrinkStop
#[test]
fn conflicts_pop_by_priority() {
    let (itf, _du) = interface_with(&[4, 9, 12]);
    let mut group = GroupMaxUpdateLength::new();
    group.add(MaxUpdateLength::BlossomNeedExpand(ptr(1)), &itf);
    group.add(MaxUpdateLength::TouchingVirtual((ptr(0), ptr(0)), (7, false)), &itf);
    group.add(
        MaxUpdateLength::Conflicting((ptr(0), ptr(0)), (ptr(2), ptr(2))),
        &itf,
    );
    assert!(matches!(group.pop(), Some(MaxUpdateLength::Conflicting(_, _))));
    assert!(matches!(group.pop(), Some(MaxUpdateLength::TouchingVirtual(_, _))));
    assert!(matches!(group.pop(), Some(MaxUpdateLength::BlossomNeedExpand(_))));
    assert_eq!(group.pop(), None);
}

/// a blossom created from an all-syndrome circle with an empty touching
/// list defaults each entry to the member itself; expanding it right away
/// vacates its slot forever and sets every member growing
#[test]
fn blossom_create_expand_round_trip() {
    let (mut itf, mut du) = interface_with(&[4, 9, 12]);
    itf.set_grow_state(&ptr(1), DualNodeGrowState::Shrink, &mut du);
    let blossom = itf.create_blossom(vec![ptr(0), ptr(1), ptr(2)], vec![], &mut du);
    assert_eq!(blossom.index, 3);
    assert_eq!(itf.nodes_length, 4);
    match &itf.nodes[3] {
        Some(node) => match &node.class {
            DualNodeClass::Blossom { nodes_circle, touching_children } => {
                assert_eq!(nodes_circle, &vec![0, 1, 2]);
                assert_eq!(touching_children, &vec![(0, 0), (1, 1), (2, 2)]);
            },
            _ => panic!("the created node must be a blossom"),
        },
        None => panic!("the blossom slot must be live"),
    }
    for member in 0..3usize {
        match &itf.nodes[member] {
            Some(node) => {
                assert_eq!(node.grow_state, DualNodeGrowState::Stay);
                assert_eq!(node.parent_blossom, Some(3));
            },
            None => panic!("members stay tracked"),
        }
    }
    itf.expand_blossom(blossom, &mut du);
    assert!(itf.nodes[3].is_none());
    for member in 0..3usize {
        match &itf.nodes[member] {
            Some(node) => {
                assert_eq!(node.grow_state, DualNodeGrowState::Grow);
                assert_eq!(node.parent_blossom, None);
            },
            None => panic!("members stay tracked"),
        }
    }
    // every member grows again, so the speed total counts each of them
    assert_eq!(itf.sum_grow_speed, 3);
    assert_eq!(itf.sum_dual_variables, 0);
}

/// fusing accumulates the totals of both children; grouping three
/// interfaces either way ends at the same grand total
#[test]
fn fuse_totals_are_associative() {
    let (a, _): (DualModuleInterface, _) = interface_with(&[1]);
    let (b, _) = interface_with(&[2, 3]);
    let (c, _) = interface_with(&[5, 6, 7]);
    let mut left_first = DualModuleInterface::new_empty();
    left_first.fuse(&a, &b).expect("disjoint syndromes fuse");
    let mut left_total = DualModuleInterface::new_empty();
    left_total.fuse(&left_first, &c).expect("disjoint syndromes fuse");
    let mut right_first = DualModuleInterface::new_empty();
    right_first.fuse(&b, &c).expect("disjoint syndromes fuse");
    let mut right_total = DualModuleInterface::new_empty();
    right_total.fuse(&a, &right_first).expect("disjoint syndromes fuse");
    assert_eq!(left_total.sum_dual_variables, right_total.sum_dual_variables);
    assert_eq!(left_total.sum_grow_speed, right_total.sum_grow_speed);
    assert_eq!(left_total.nodes_length, right_total.nodes_length);
}

/// a duplicated syndrome vertex is rejected by fusion
#[test]
fn fuse_rejects_duplicate_syndromes() {
    let (a, _) = interface_with(&[1, 2]);
    let (b, _) = interface_with(&[2, 3]);
    let mut target = DualModuleInterface::new_empty();
    assert!(target.fuse(&a, &b).is_err());
}

/// growing iteratively by zero is a no-op
#[test]
fn grow_iterative_zero_is_no_op() {
    let (mut itf, mut du) = interface_with(&[4]);
    let before_sum = itf.sum_dual_variables;
    let before_progress = itf.dual_variable_global_progress;
    itf.grow_iterative(0, &mut du).expect("growing by zero must succeed");
    assert_eq!(itf.sum_dual_variables, before_sum);
    assert_eq!(itf.dual_variable_global_progress, before_progress);
}

/// ancestry walks: representative vertex and all vertices of a blossom
#[test]
fn ancestry_of_a_blossom() {
    let (mut itf, mut du) = interface_with(&[4, 9, 12]);
    itf.set_grow_state(&ptr(1), DualNodeGrowState::Shrink, &mut du);
    let blossom = itf.create_blossom(vec![ptr(0), ptr(1), ptr(2)], vec![], &mut du);
    assert_eq!(ptr(1).get_ancestor_blossom(&itf).index, blossom.index);
    assert_eq!(blossom.get_representative_vertex(&itf), 4);
    assert_eq!(blossom.get_all_vertices(&itf), vec![4, 9, 12]);
    assert_eq!(ptr(2).get_all_vertices(&itf), vec![12]);
    assert!(itf.check_ptr_belonging(&blossom));
    assert!(!itf.check_ptr_belonging(&ptr(17)));
}

/// pending shrink stops pop in ascending order of their vertex keys,
/// whatever order they arrived in
#[test]
fn pending_stops_pop_in_vertex_order() {
    let (itf, _du) = interface_with(&[9, 4]);
    let mut group = GroupMaxUpdateLength::new();
    group.add(MaxUpdateLength::VertexShrinkStop((ptr(0), None)), &itf);
    group.add(MaxUpdateLength::VertexShrinkStop((ptr(1), None)), &itf);
    // node 1 stands on vertex 4, node 0 on vertex 9
    assert_eq!(group.pop().and_then(|m| m.get_vertex_shrink_stop()), Some(ptr(1)));
    assert_eq!(group.pop().and_then(|m| m.get_vertex_shrink_stop()), Some(ptr(0)));
    assert_eq!(group.pop(), None);
}

/// two groups built from the same conflicts in different orders pop the
/// same sequence
#[test]
fn pop_order_is_arrival_independent() {
    let (itf, _du) = interface_with(&[4, 9, 12]);
    let events = [
        MaxUpdateLength::Conflicting((ptr(0), ptr(0)), (ptr(2), ptr(2))),
        MaxUpdateLength::BlossomNeedExpand(ptr(1)),
        MaxUpdateLength::TouchingVirtual((ptr(0), ptr(0)), (7, false)),
        MaxUpdateLength::VertexShrinkStop((ptr(1), None)),
        MaxUpdateLength::VertexShrinkStop((ptr(0), None)),
    ];
    let mut forward = GroupMaxUpdateLength::new();
    for e in events.iter() {
        forward.add(*e, &itf);
    }
    let mut backward = GroupMaxUpdateLength::new();
    for e in events.iter().rev() {
        backward.add(*e, &itf);
    }
    loop {
        let x = forward.pop();
        let y = backward.pop();
        assert_eq!(x, y);
        if x.is_none() {
            break;
        }
    }
}
