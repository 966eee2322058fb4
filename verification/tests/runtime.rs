use ui4::change_tracking::{ComponentUpdateFuncs, UpdateFuncList};
use ui4::runtime::{UiScratchSpace, UpdateFunc};
use std::collections::HashSet;

fn sorted(mut v: Vec<u64>) -> Vec<u64> {
    v.sort();
    v
}

#[test]
fn scheduling_twice_runs_once() {
    let mut s = UiScratchSpace::new();
    assert!(!s.has_pending());
    let (f, _m) = UpdateFunc::new(7);
    s.register_update_func(&f);
    s.register_update_func(&f.clone());
    assert!(s.has_pending());
    assert_eq!(s.take_pending(), vec![7]);
    assert!(!s.has_pending());
    assert_eq!(s.take_pending(), Vec::<u64>::new());
}

#[test]
fn register_update_funcs_schedules_each() {
    let mut s = UiScratchSpace::new();
    let (a, _ma) = UpdateFunc::new(1);
    let (b, _mb) = UpdateFunc::new(2);
    let (c, _mc) = UpdateFunc::new(1);
    s.register_update_funcs(vec![a, b, c]);
    assert_eq!(sorted(s.take_pending()), vec![1, 2]);
}

#[test]
fn process_list_drops_released_functions() {
    let mut s = UiScratchSpace::new();
    let (a, ma) = UpdateFunc::new(1);
    let (b, mb) = UpdateFunc::new(2);
    let (c, mc) = UpdateFunc::new(3);
    assert!(!b.flagged());
    mb.release();
    assert!(b.flagged());
    let mut list = vec![a, b, c];
    s.process_list(&mut list);
    let ids: Vec<u64> = list.iter().map(|u| u.id()).collect();
    assert_eq!(ids, vec![1, 3]);
    assert_eq!(sorted(s.take_pending()), vec![1, 3]);
    ma.forget();
    mc.forget();
}

#[test]
fn drop_dead_follows_the_mask() {
    let mut s = UiScratchSpace::new();
    let mut list: Vec<UpdateFunc> = (10..14).map(|i| UpdateFunc::new(i).0).collect();
    s.drop_dead(&mut list, &vec![true, false, true, false]);
    let ids: Vec<u64> = list.iter().map(|u| u.id()).collect();
    assert_eq!(ids, vec![11, 13]);
    assert_eq!(sorted(s.take_pending()), vec![11, 13]);
}

#[test]
fn marker_triggers_its_dependents() {
    let mut s = UiScratchSpace::new();
    let (_own, mut marker) = UpdateFunc::new(100);
    let (d1, _m1) = UpdateFunc::new(5);
    let (d2, m2) = UpdateFunc::new(6);
    marker.add_dependent(d1);
    marker.add_dependent(d2);
    m2.release();
    marker.trigger(&mut s);
    assert_eq!(s.take_pending(), vec![5]);
    marker.trigger(&mut s);
    assert_eq!(s.take_pending(), vec![5]);
}

#[test]
fn component_tracking_runs_the_functions_of_changed_sources() {
    let mut trackers = ComponentUpdateFuncs::new();
    let mut s = UiScratchSpace::new();
    let (a, _ma) = UpdateFunc::new(1);
    let (b, _mb) = UpdateFunc::new(2);
    let (c, _mc) = UpdateFunc::new(3);
    trackers.register(10, a);
    trackers.register(10, b);
    trackers.register(20, c);
    let alive: HashSet<u64> = [10u64, 20].into_iter().collect();
    let fired: HashSet<u64> = [10u64].into_iter().collect();
    trackers.track(&alive, &fired, &mut s);
    assert_eq!(sorted(s.take_pending()), vec![1, 2]);
    let only20: HashSet<u64> = [20u64].into_iter().collect();
    trackers.track(&only20, &only20, &mut s);
    assert_eq!(s.take_pending(), vec![3]);
    trackers.track(&only20, &[10u64, 20].into_iter().collect(), &mut s);
    assert_eq!(s.take_pending(), vec![3]);
}

#[test]
fn update_func_list_runs_on_change_only() {
    let mut list = UpdateFuncList::new();
    let mut s = UiScratchSpace::new();
    let (a, _ma) = UpdateFunc::new(4);
    list.push(a);
    list.track(false, &mut s);
    assert!(!s.has_pending());
    list.track(true, &mut s);
    assert_eq!(s.take_pending(), vec![4]);
}

#[test]
fn a_value_is_written_first_and_then_on_change() {
    let mut g = ui4::insertable::ChangeGate::new();
    assert!(g.should_write(false));
    assert!(!g.should_write(false));
    assert!(g.should_write(true));
    assert!(!g.should_write(false));
}

#[test]
fn fresh_update_functions_have_distinct_ids() {
    let mut ids = ui4::runtime::UpdateFuncIds::new();
    let (a, _ma) = ids.fresh();
    let (b, _mb) = ids.fresh();
    assert_eq!((a.id(), b.id()), (0, 1));
}

#[test]
fn readers_of_a_maintained_value_wait_on_its_marker() {
    let mut trackers = ComponentUpdateFuncs::new();
    let mut s = UiScratchSpace::new();
    let (_writer, marker) = UpdateFunc::new(1);
    trackers.maintain(10, marker);
    let (reader, _mr) = UpdateFunc::new(2);
    let (other, _mo) = UpdateFunc::new(3);
    trackers.register(10, reader);
    trackers.register(20, other);
    let all: HashSet<u64> = [10u64, 20].into_iter().collect();
    trackers.track(&all, &all, &mut s);
    assert_eq!(s.take_pending(), vec![3]);
    trackers.written(10, &mut s);
    assert_eq!(s.take_pending(), vec![2]);
    trackers.written(20, &mut s);
    assert!(!s.has_pending());
}
