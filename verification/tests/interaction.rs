use ui4::child_map::{ChildMapDecision, ChildMapState};
use ui4::interaction::{
    focus_changes, ButtonHandler, ButtonHandlers, FocusChange, FocusPolicy, FuncScratch,
    Interaction, InteractionState, NodeHit, PointerButtons,
};
use std::collections::HashSet;

fn hit(entity: u64, under_cursor: bool, z_layer: u32, policy: Option<FocusPolicy>) -> NodeHit {
    NodeHit { entity, under_cursor, z_layer, interaction: Some(Interaction::Idle), focus_policy: policy }
}

fn no_buttons() -> PointerButtons {
    PointerButtons { left_just_pressed: false, left_just_released: false, touch_just_released: false }
}

#[test]
fn the_top_blocking_node_is_hovered_alone() {
    let mut s = InteractionState::new();
    let nodes = vec![
        hit(1, true, 1, None),
        hit(2, true, 5, Some(FocusPolicy::Block)),
        hit(3, false, 9, None),
    ];
    let out = s.update(true, &nodes, no_buttons());
    assert_eq!(out, vec![Some(Interaction::Idle), Some(Interaction::Hovered), Some(Interaction::Idle)]);
}

#[test]
fn a_passing_node_lets_the_pointer_through() {
    let mut s = InteractionState::new();
    let nodes = vec![hit(1, true, 1, None), hit(2, true, 5, Some(FocusPolicy::Pass))];
    let out = s.update(true, &nodes, no_buttons());
    assert_eq!(out, vec![Some(Interaction::Hovered), Some(Interaction::Hovered)]);
}

#[test]
fn without_a_cursor_nothing_changes() {
    let mut s = InteractionState::new();
    let mut n = hit(1, true, 1, None);
    n.interaction = Some(Interaction::Clicked);
    let nodes = vec![n, NodeHit { interaction: None, ..hit(2, true, 2, None) }];
    let out = s.update(false, &nodes, no_buttons());
    assert_eq!(out, vec![Some(Interaction::Clicked), None]);
}

#[test]
fn a_click_released_in_the_same_frame_is_reset_next_frame() {
    let mut s = InteractionState::new();
    let nodes = vec![hit(7, true, 1, None)];
    let tap = PointerButtons { left_just_pressed: false, left_just_released: false, touch_just_released: true };
    let out = s.update(true, &nodes, tap);
    assert_eq!(out, vec![Some(Interaction::Clicked)]);
    let clicked = vec![NodeHit { interaction: Some(Interaction::Clicked), ..hit(7, true, 1, None) }];
    let out = s.update(true, &clicked, no_buttons());
    assert_eq!(out, vec![Some(Interaction::Hovered)]);
}

#[test]
fn a_release_ends_a_click_and_leaving_ends_a_hover() {
    let mut s = InteractionState::new();
    let release = PointerButtons { left_just_pressed: false, left_just_released: true, touch_just_released: false };
    let clicked = vec![NodeHit { interaction: Some(Interaction::Clicked), ..hit(1, true, 1, None) }];
    assert_eq!(s.update(true, &clicked, release), vec![Some(Interaction::Hovered)]);
    let hovered_away = vec![NodeHit { interaction: Some(Interaction::Hovered), ..hit(1, false, 1, None) }];
    assert_eq!(s.update(true, &hovered_away, no_buttons()), vec![Some(Interaction::Idle)]);
}

#[test]
fn focus_follows_the_click() {
    let nodes = vec![
        (Interaction::Clicked, false),
        (Interaction::Idle, true),
        (Interaction::Hovered, true),
        (Interaction::Clicked, true),
    ];
    assert_eq!(
        focus_changes(true, &nodes),
        vec![FocusChange::Gain, FocusChange::Lose, FocusChange::Keep, FocusChange::Keep]
    );
    assert_eq!(focus_changes(false, &nodes), vec![FocusChange::Keep; 4]);
}

#[test]
fn button_handlers_run_on_changes() {
    let all = ButtonHandlers { on_click: true, on_hover: true, on_release: true, on_unhover: true };
    let mut f = FuncScratch::new();
    assert_eq!(f.on_change(Interaction::Hovered, all), vec![ButtonHandler::Hover]);
    assert_eq!(f.on_change(Interaction::Clicked, all), vec![ButtonHandler::Click]);
    assert_eq!(f.on_change(Interaction::Hovered, all), vec![ButtonHandler::Release, ButtonHandler::Hover]);
    assert_eq!(f.on_change(Interaction::Idle, all), vec![ButtonHandler::Unhover]);
    assert_eq!(f.on_change(Interaction::Clicked, all), vec![ButtonHandler::Click]);
    assert_eq!(f.on_change(Interaction::Idle, all), vec![ButtonHandler::Release]);
    let none = ButtonHandlers { on_click: false, on_hover: false, on_release: false, on_unhover: false };
    assert_eq!(f.on_change(Interaction::Clicked, none), vec![]);
    assert_eq!(Interaction::default_value(), Interaction::Idle);
}

#[test]
fn child_map_builds_once_per_value() {
    let mut m = ChildMapState::new();
    assert_eq!(m.decide(1, false), ChildMapDecision::Switch { retire: None, reuse: None });
    assert_eq!(m.decide(1, true), ChildMapDecision::Switch { retire: None, reuse: None });
    m.commit(1, Some(100));
    assert_eq!(m.decide(2, false), ChildMapDecision::Keep);
    assert_eq!(m.decide(1, true), ChildMapDecision::Keep);
    assert_eq!(m.decide(2, true), ChildMapDecision::Switch { retire: Some(100), reuse: None });
    m.commit(2, Some(200));
    assert_eq!(m.decide(1, true), ChildMapDecision::Switch { retire: Some(200), reuse: Some(100) });
    m.commit(1, None);
    let alive: HashSet<u64> = [200u64].into_iter().collect();
    m.retain_alive(&alive);
    assert_eq!(m.decide(2, true), ChildMapDecision::Switch { retire: None, reuse: Some(200) });
}
