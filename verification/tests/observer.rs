use std::collections::HashSet;
use std::marker::PhantomData;
use ui4::change_tracking::ComponentUpdateFuncs;
use ui4::lens::{lens, Identity, Lens};
use ui4::observer::{
    And, Cloned, ClonedTemplate, Copied, CopiedTemplate, Dedup, DedupTemplate, Dereffed,
    Observer, SourceObserver, StaticObserver, UninitObserver, UninitSingleObserver,
};
use ui4::runtime::{UiScratchSpace, UpdateFunc};

#[test]
fn identity_and_merged_lenses() {
    let id: Identity<u32> = Identity::new();
    assert_eq!(*id.get(&5), 5);
    let merged = lens(Identity::<u32>::new(), Identity::<u32>::new());
    let mut x = 3u32;
    *merged.get_mut(&mut x) = 9;
    assert_eq!(x, 9);
    assert_eq!(*merged.get(&x), 9);
}

#[test]
fn static_values_never_change() {
    let mut o = StaticObserver(7u32);
    let (v, changed) = o.get(&());
    assert_eq!(*v, 7);
    assert!(!changed);
}

#[test]
fn and_pairs_values() {
    let mut o = And(StaticObserver(1u8), Copied(StaticObserver(2u64)));
    let ((a, b), changed) = o.get(&());
    assert_eq!((*a, b), (1, 2));
    assert!(!changed);
}

#[test]
fn cloned_and_dereffed_values() {
    let mut c = Cloned(StaticObserver(String::from("hi")));
    let (s, _) = c.get(&());
    assert_eq!(s, "hi");
    let mut d = Dereffed(StaticObserver(Box::new(4u32)));
    let (v, changed) = d.get(&());
    assert_eq!(*v, 4);
    assert!(!changed);
}

#[test]
fn dedup_reports_the_first_value_once() {
    let mut d: Dedup<Copied<StaticObserver<u64>>, u64> = Dedup::new(Copied(StaticObserver(3)));
    let (v, changed) = d.get(&());
    assert_eq!((*v, changed), (3, true));
    let (v, changed) = d.get(&());
    assert_eq!((*v, changed), (3, false));
}

#[test]
fn registration_attaches_to_every_source() {
    let mut trackers = ComponentUpdateFuncs::new();
    let (uf, _marker) = UpdateFunc::new(11);
    let template = And(
        CopiedTemplate(SourceObserver { source: 1, reader: () }),
        DedupTemplate(ClonedTemplate(SourceObserver { source: 2, reader: () }), PhantomData::<u8>),
    );
    let _observer = template.register_self(&mut trackers, &uf);
    let _static = StaticObserver(0u8).register_self(&mut trackers, &uf);
    let (other, _m) = UpdateFunc::new(12);
    let single = UninitSingleObserver { source: 3, reader: () }.register_self(&mut trackers, &other);
    assert_eq!(single.source, 3);
    let mut s = UiScratchSpace::new();
    let alive: HashSet<u64> = [1u64, 2, 3].into_iter().collect();
    let fired: HashSet<u64> = [2u64].into_iter().collect();
    trackers.track(&alive, &fired, &mut s);
    assert_eq!(s.take_pending(), vec![11]);
    let fired3: HashSet<u64> = [3u64].into_iter().collect();
    trackers.track(&alive, &fired3, &mut s);
    assert_eq!(s.take_pending(), vec![12]);
}
