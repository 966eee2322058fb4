use std::collections::HashMap;
use ui4::transition::{
    progress_rate, BlockingCounts, ProgressRate, TransitionCommand, TransitionDirection,
    TransitionKind, TransitionNode,
};
use ui4::tree::{NodeEntity, Tree};

/// 1 ─┬─ 2 ─── 5
///    ├─ 3 (control) ─┬─ 6
///    │               └─ 7
///    └─ 4
fn sample() -> Tree {
    let mut t = Tree::new(1);
    t.add_child(1, 2, 0);
    t.add_child(1, 4, 1);
    t.add_child(1, 3, 1);
    t.add_child(2, 5, 0);
    t.add_child(3, 6, 0);
    t.add_child(3, 7, 1);
    t.set_control(3);
    t
}

fn ids(v: &[NodeEntity]) -> Vec<u64> {
    v.iter().map(|n| n.entity()).collect()
}

#[test]
fn flatten_is_depth_first_without_control_nodes() {
    let t = sample();
    assert_eq!(ids(&t.flatten()), vec![1, 2, 5, 6, 7, 4]);
    assert_eq!(ids(&t.down_iter()), vec![1, 2, 5, 6, 7, 4]);
}

#[test]
fn up_iter_is_down_iter_reversed() {
    let t = sample();
    let mut down = ids(&t.down_iter());
    down.reverse();
    assert_eq!(ids(&t.up_iter()), down);
}

#[test]
fn layout_parent_skips_control_nodes() {
    let t = sample();
    assert_eq!(t.parent(NodeEntity(6)), Some(NodeEntity(1)));
    assert_eq!(t.parent(NodeEntity(5)), Some(NodeEntity(2)));
    assert_eq!(t.parent(NodeEntity(1)), None);
    assert_eq!(t.root(), NodeEntity(1));
    assert!(t.is_control_node(3));
    assert!(!t.is_control_node(2));
    assert_eq!(t.kids_of(3), &[6, 7]);
    assert_eq!(t.kids_of(4), &[] as &[u64]);
}

#[test]
fn first_and_last_children_look_through_control_nodes() {
    let t = sample();
    assert!(t.is_first_child(NodeEntity(2)));
    assert!(!t.is_first_child(NodeEntity(6)));
    assert!(!t.is_last_child(NodeEntity(7)));
    assert!(t.is_last_child(NodeEntity(4)));
    assert!(t.is_first_child(NodeEntity(5)));
    assert!(t.is_last_child(NodeEntity(5)));
    assert!(!t.is_first_child(NodeEntity(1)));
}

#[test]
fn child_iteration_replaces_control_children() {
    let t = sample();
    let mut it = t.child_iter(NodeEntity(1));
    let mut seen = Vec::new();
    while let Some(n) = it.next(&t) {
        seen.push(n.entity());
    }
    assert_eq!(seen, vec![2, 6, 7, 4]);
    assert_eq!(it.next(&t), None);
}

fn trans(kind: TransitionKind, direction: Option<TransitionDirection>, active: Option<Option<u64>>) -> TransitionNode {
    TransitionNode { kind, direction, active }
}

#[test]
fn transition_out_counts_what_the_group_waits_for() {
    let t = sample();
    let mut tr = HashMap::new();
    tr.insert(2, trans(TransitionKind::Out, None, None));
    tr.insert(5, trans(TransitionKind::Bidirectional, Some(TransitionDirection::In), Some(None)));
    tr.insert(6, trans(TransitionKind::In, Some(TransitionDirection::In), Some(None)));
    tr.insert(7, trans(TransitionKind::InAndOut, None, None));
    let mut cmds = Vec::new();
    assert!(t.trigger_transition_out_cn(&tr, 1, None, &mut cmds));
    assert_eq!(
        cmds,
        vec![
            TransitionCommand::StartOut(2, 1),
            TransitionCommand::SetDirection(5, Some(TransitionDirection::Out)),
            TransitionCommand::SetDirection(6, None),
            TransitionCommand::RemoveActive(6),
            TransitionCommand::StartOut(7, 3),
            TransitionCommand::SetBlocking(3, 1, Some(1)),
            TransitionCommand::SetBlocking(1, 2, None),
        ]
    );
}

#[test]
fn a_group_without_transitions_does_not_wait() {
    let t = sample();
    let tr = HashMap::new();
    let mut cmds = Vec::new();
    assert!(!t.trigger_transition_out_cn(&tr, 1, None, &mut cmds));
    assert!(cmds.is_empty());
    let mut acc = 3usize;
    t.trigger_transition_out_n(&tr, 2, 1, &mut acc, &mut cmds);
    assert_eq!(acc, 3);
    assert!(cmds.is_empty());
}

#[test]
fn progress_rates() {
    assert_eq!(progress_rate(TransitionKind::In, TransitionDirection::In), ProgressRate::In);
    assert_eq!(progress_rate(TransitionKind::In, TransitionDirection::Out), ProgressRate::Skip);
    assert_eq!(progress_rate(TransitionKind::Out, TransitionDirection::In), ProgressRate::Skip);
    assert_eq!(progress_rate(TransitionKind::Bidirectional, TransitionDirection::Out), ProgressRate::Out);
    assert_eq!(progress_rate(TransitionKind::InAndOut, TransitionDirection::In), ProgressRate::In);
    assert_eq!(progress_rate(TransitionKind::InAndOut, TransitionDirection::Out), ProgressRate::Out);
}

#[test]
fn finished_transitions_climb_to_the_top() {
    let mut b = BlockingCounts::new();
    b.set(3, 1, Some(1));
    b.set(1, 2, None);
    assert_eq!(b.recursive_cn_climb(1), None);
    assert_eq!(b.recursive_cn_climb(3), Some(1));
}

#[test]
fn a_climb_can_be_checked_first() {
    let mut b = BlockingCounts::new();
    assert!(!b.can_climb(1));
    b.set(3, 1, Some(1));
    b.set(1, 1, None);
    assert!(b.can_climb(3));
    b.set(1, 0, None);
    assert!(!b.can_climb(3));
    assert!(b.can_climb(3) == false);
}

#[test]
fn nodes_are_drawn_at_their_layout_depth() {
    let t = sample();
    assert_eq!(t.z_layer(NodeEntity(1)), 0);
    assert_eq!(t.z_layer(NodeEntity(2)), 1);
    assert_eq!(t.z_layer(NodeEntity(5)), 2);
    assert_eq!(t.z_layer(NodeEntity(6)), 1);
    assert_eq!(t.z_layer(NodeEntity(4)), 1);
}
