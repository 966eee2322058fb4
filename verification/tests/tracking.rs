use ui4::foreach::{ForeachAction, ForeachPoll, ForeachState};
use ui4::runtime::{UiScratchSpace, UpdateFunc};
use ui4::tracking::{Diff, TrackedId, TrackedIdCounter, TrackedVec};

fn receive_diffs(rx: &crossbeam_channel::Receiver<Diff>) -> Vec<Diff> {
    rx.try_iter().collect()
}

#[test]
fn ids_count_up_and_wrap() {
    let mut c = TrackedIdCounter::new();
    assert_eq!(c.fresh(), TrackedId(0));
    assert_eq!(c.fresh(), TrackedId(1));
    assert_eq!(c.fresh(), TrackedId(2));
}

#[test]
fn every_change_reaches_the_subscriber() {
    let mut v: TrackedVec<u32> = TrackedVec::new(TrackedId(3));
    v.push(1);
    let rx = v.register();
    v.push(2);
    v.push(3);
    *v.get_mut(0) = 10;
    v.insert(5, 1);
    assert_eq!(v.remove(2), 2);
    assert_eq!(v.pop(), Some(3));
    assert_eq!(v.as_slice(), &[10, 5]);
    v.clear();
    assert_eq!(v.pop(), None);
    assert_eq!(
        receive_diffs(&rx),
        vec![
            Diff::Insert(1),
            Diff::Insert(2),
            Diff::Modify(0),
            Diff::Insert(1),
            Diff::Remove(2),
            Diff::Remove(2),
            Diff::Clear,
            Diff::Remove(0),
        ]
    );
    assert_eq!(v.len(), 0);
    assert_eq!(v.id(), TrackedId(3));
}

#[test]
fn a_dropped_subscriber_is_forgotten() {
    let mut v: TrackedVec<u8> = TrackedVec::new(TrackedId(0));
    let rx1 = v.register();
    let rx2 = v.register();
    drop(rx1);
    v.push(1);
    v.push(2);
    assert_eq!(receive_diffs(&rx2), vec![Diff::Insert(0), Diff::Insert(1)]);
    assert_eq!(*v.get(1), 2);
}

#[test]
fn a_mirror_follows_its_source() {
    let mut v: TrackedVec<&str> = TrackedVec::new(TrackedId(9));
    let mut m = ForeachState::new();
    let mut s = UiScratchSpace::new();
    assert!(matches!(m.poll(&mut v), ForeachPoll::Fresh(0)));
    v.push("a");
    v.push("b");
    v.insert("x", 1);
    v.remove(0);
    v.push("z");
    let diffs = match m.poll(&mut v) {
        ForeachPoll::Diffs(d) => d,
        ForeachPoll::Fresh(_) => panic!("the same source must send diffs"),
    };
    assert_eq!(
        diffs,
        vec![Diff::Insert(0), Diff::Insert(1), Diff::Insert(1), Diff::Remove(0), Diff::Insert(2)]
    );
    let mut actions = Vec::new();
    let mut key = 200u64;
    for d in diffs {
        assert!(m.check(d));
        actions.push(m.apply(d, key, &mut s));
        key += 1;
    }
    assert_eq!(
        actions,
        vec![
            ForeachAction::Spawn(0),
            ForeachAction::Spawn(1),
            ForeachAction::Spawn(1),
            ForeachAction::Despawn(0),
            ForeachAction::Spawn(2),
        ]
    );
    assert_eq!(m.length(), 3);
    assert_eq!(m.child_count(), 3);
    for p in 0..3 {
        assert_eq!(m.index_at(p), p);
    }
    assert_eq!(m.position_of(202), Some(0));
    assert_eq!(m.position_of(201), Some(1));
    assert_eq!(m.position_of(204), Some(2));
    assert_eq!(m.position_of(200), None);
}

#[test]
fn a_fresh_start_leaves_the_believed_length() {
    let mut v: TrackedVec<u8> = TrackedVec::new(TrackedId(1));
    v.push(1);
    v.push(2);
    let mut m = ForeachState::new();
    match m.poll(&mut v) {
        ForeachPoll::Fresh(n) => {
            assert_eq!(n, 2);
            for i in 0..n {
                m.spawn_fresh(i, i as u64);
            }
        }
        ForeachPoll::Diffs(_) => panic!("a new source must start fresh"),
    }
    assert_eq!(m.child_count(), 2);
    assert_eq!(m.length(), 0);
    assert!(!m.check(Diff::Insert(1)));
    assert!(m.check(Diff::Insert(0)));
    let mut other: TrackedVec<u8> = TrackedVec::new(TrackedId(2));
    assert!(matches!(m.poll(&mut other), ForeachPoll::Fresh(0)));
    assert_eq!(m.child_count(), 2);
    assert!(matches!(m.poll(&mut other), ForeachPoll::Diffs(_)));
}

#[test]
fn a_modified_item_schedules_its_readers() {
    let mut m = ForeachState::new();
    let mut s = UiScratchSpace::new();
    m.spawn_fresh(0, 1);
    let (item_reader, _mi) = UpdateFunc::new(42);
    let (index_reader, _mx) = UpdateFunc::new(43);
    m.add_item_uf(0, item_reader);
    m.add_index_uf(0, index_reader);
    assert_eq!(m.apply(Diff::Modify(0), 0, &mut s), ForeachAction::Nothing);
    assert_eq!(s.take_pending(), vec![42]);
    assert_eq!(m.apply(Diff::Insert(0), 7, &mut s), ForeachAction::Spawn(0));
    assert_eq!(s.take_pending(), Vec::<u64>::new());
}

#[test]
fn shifting_schedules_the_position_readers() {
    let mut m = ForeachState::new();
    let mut s = UiScratchSpace::new();
    assert_eq!(m.apply(Diff::Insert(0), 1, &mut s), ForeachAction::Spawn(0));
    let (index_reader, _mx) = UpdateFunc::new(8);
    m.add_index_uf(0, index_reader);
    assert_eq!(m.apply(Diff::Insert(0), 2, &mut s), ForeachAction::Spawn(0));
    assert_eq!(m.index_at(1), 1);
    assert_eq!(s.take_pending(), vec![8]);
    assert_eq!(m.apply(Diff::Remove(0), 0, &mut s), ForeachAction::Despawn(0));
    assert_eq!(m.index_at(0), 0);
    assert_eq!(m.position_of(1), Some(0));
    assert_eq!(s.take_pending(), vec![8]);
}

#[test]
fn refused_diffs() {
    let mut m = ForeachState::new();
    assert!(!m.check(Diff::Remove(0)));
    assert!(!m.check(Diff::Modify(0)));
    assert!(!m.check(Diff::Insert(1)));
    assert!(m.check(Diff::Insert(0)));
    assert!(m.check(Diff::Clear));
    let mut s = UiScratchSpace::new();
    m.apply(Diff::Insert(0), 5, &mut s);
    assert_eq!(m.apply(Diff::Clear, 0, &mut s), ForeachAction::Nothing);
    assert_eq!(m.length(), 0);
    assert_eq!(m.child_count(), 1);
}
