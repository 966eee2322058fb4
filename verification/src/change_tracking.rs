//! The update functions waiting on changes of a source (a component of an entity, a
//! resource), and the passes that schedule them when their source changed.

use crate::runtime::{keep_live, uf_ids, UfMarker, UiScratchSpace, UpdateFunc};
use std::collections::{HashMap, HashSet};
use vstd::prelude::*;

verus! {

broadcast use vstd::std_specs::hash::group_hash_axioms;

/// `deps` after `id` was attached to each source of `sources`, in order.
pub open spec fn register_at(deps: Map<u64, Seq<u64>>, sources: Seq<u64>, id: u64) -> Map<u64, Seq<u64>>
    decreases sources.len(),
{
    if sources.len() == 0 {
        deps
    } else {
        let before = register_at(deps, sources.drop_last(), id);
        let s = sources.last();
        before.insert(s, (if before.contains_key(s) { before[s] } else { Seq::empty() }).push(id))
    }
}

/// The update functions attached to each source. A source whose value is itself maintained
/// by an update function has that function's marker, and what reads the source is attached to
/// the marker; any other source is watched by change tracking.
pub struct ComponentUpdateFuncs {
    lists: HashMap<u64, Vec<UpdateFunc>>,
    keys: Vec<u64>,
    markers: HashMap<u64, UfMarker>,
}

impl ComponentUpdateFuncs {
    /// The ids of the functions attached to each source, in the order they were attached.
    pub closed spec fn deps(&self) -> Map<u64, Seq<u64>> {
        Map::new(|k: u64| self.lists@.contains_key(k), |k: u64| uf_ids(self.lists@[k]@))
    }

    /// The sources whose value an update function maintains.
    pub closed spec fn maintained(&self) -> Set<u64> {
        self.markers@.dom()
    }

    /// The ids of the functions attached to the marker of each maintained source, in order.
    pub closed spec fn marker_deps(&self) -> Map<u64, Seq<u64>> {
        Map::new(|k: u64| self.markers@.contains_key(k), |k: u64| self.markers@[k].dependents())
    }

    /// Where the functions that read each source are attached: to its marker where it is
    /// maintained, to change tracking otherwise.
    pub open spec fn attached(&self) -> Map<u64, Seq<u64>> {
        self.deps().union_prefer_right(self.marker_deps())
    }

    /// The list of sources matches the map.
    pub closed spec fn wf(&self) -> bool {
        &&& self.keys@.to_set() == self.lists@.dom()
        &&& self.keys@.no_duplicates()
    }

    /// Nothing attached anywhere.
    pub fn new() -> (s: ComponentUpdateFuncs)
        ensures
            s.wf(),
            s.deps() == Map::<u64, Seq<u64>>::empty(),
            s.marker_deps() == Map::<u64, Seq<u64>>::empty(),
            s.maintained() == Set::<u64>::empty(),
    {
        let s = ComponentUpdateFuncs { lists: HashMap::new(), keys: Vec::new(), markers: HashMap::new() };
        proof {
            assert(s.keys@.to_set() =~= Set::<u64>::empty());
            assert(s.deps() =~= Map::<u64, Seq<u64>>::empty());
            assert(s.marker_deps() =~= Map::<u64, Seq<u64>>::empty());
        }
        s
    }

    /// Records that the value of `source` is maintained by the update function of `marker`.
    pub fn maintain(&mut self, source: u64, marker: UfMarker)
        requires
            old(self).wf(),
        ensures
            final(self).wf(),
            final(self).deps() == old(self).deps(),
            final(self).maintained() == old(self).maintained().insert(source),
            final(self).marker_deps() == old(self).marker_deps().insert(source, marker.dependents()),
    {
        self.markers.insert(source, marker);
        proof {
            assert(self.marker_deps() =~= old(self).marker_deps().insert(source, marker.dependents()));
        }
    }

    /// The value of `source` was written by the function that maintains it: the live functions
    /// attached to its marker are scheduled, the dead ones dropped. Nothing happens for a source
    /// that is not maintained.
    pub fn written(&mut self, source: u64, scratch: &mut UiScratchSpace)
        requires
            old(self).wf(),
            old(scratch).wf(),
        ensures
            final(self).wf(),
            final(scratch).wf(),
            final(self).deps() == old(self).deps(),
            final(self).maintained() == old(self).maintained(),
            !old(self).maintained().contains(source) ==> final(self).marker_deps() == old(self).marker_deps()
                && final(scratch).pending() == old(scratch).pending(),
            old(self).maintained().contains(source) ==> exists|dead: Seq<bool>|
                #![trigger keep_live(old(self).marker_deps()[source], dead)]
                dead.len() == old(self).marker_deps()[source].len()
                && final(self).marker_deps() == old(self).marker_deps().insert(source, keep_live(old(self).marker_deps()[source], dead))
                && final(scratch).pending() == old(scratch).pending().union(
                    keep_live(old(self).marker_deps()[source], dead).to_set()),
    {
        match self.markers.remove(&source) {
            Some(mut m) => {
                let ghost before = m.dependents();
                m.trigger(scratch);
                let ghost after = m.dependents();
                self.markers.insert(source, m);
                proof {
                    assert(before == old(self).marker_deps()[source]);
                    assert(self.markers@.dom() =~= old(self).markers@.dom());
                    assert(self.marker_deps() =~= old(self).marker_deps().insert(source, after));
                }
            },
            None => {
                proof {
                    assert(self.markers@ =~= old(self).markers@);
                }
            },
        }
    }

    /// Attaches `uf` to `source`: to its marker where the source is maintained, to change
    /// tracking otherwise.
    pub fn register(&mut self, source: u64, uf: UpdateFunc)
        requires
            old(self).wf(),
        ensures
            final(self).wf(),
            final(self).maintained() == old(self).maintained(),
            final(self).attached() == register_at(old(self).attached(), seq![source], uf.spec_id()),
            old(self).maintained().contains(source) ==> final(self).deps() == old(self).deps()
                && final(self).marker_deps() == register_at(old(self).marker_deps(), seq![source], uf.spec_id()),
            !old(self).maintained().contains(source) ==> final(self).marker_deps() == old(self).marker_deps()
                && final(self).deps() == register_at(old(self).deps(), seq![source], uf.spec_id()),
    {
        let id = uf.id();
        proof {
            assert(seq![source].drop_last() =~= Seq::<u64>::empty());
        }
        match self.markers.remove(&source) {
            Some(mut m) => {
                m.add_dependent(uf);
                self.markers.insert(source, m);
                proof {
                    assert(self.markers@.dom() =~= old(self).markers@.dom());
                    assert(old(self).marker_deps().contains_key(source));
                    assert(register_at(old(self).marker_deps(), Seq::<u64>::empty(), id) == old(self).marker_deps());
                    assert(register_at(old(self).attached(), Seq::<u64>::empty(), id) == old(self).attached());
                    assert(self.marker_deps() =~= old(self).marker_deps().insert(source, old(self).marker_deps()[source].push(id)));
                    assert(self.attached() =~= old(self).attached().insert(source, old(self).attached()[source].push(id)));
                    assert(self.lists@ == old(self).lists@);
                    assert(self.deps() =~= old(self).deps());
                }
                return;
            },
            None => {
                proof {
                    assert(self.markers@ =~= old(self).markers@);
                }
            },
        }
        self.register_tracked(source, uf);
        proof {
            assert(self.marker_deps() =~= old(self).marker_deps());
            assert(!old(self).marker_deps().contains_key(source));
            let before = old(self).attached();
            let d = old(self).deps();
            assert(register_at(before, Seq::<u64>::empty(), id) == before);
            assert(register_at(d, Seq::<u64>::empty(), id) == d);
            assert(self.deps() == d.insert(source, (if d.contains_key(source) { d[source] } else { Seq::empty() }).push(id)));
            assert(before.contains_key(source) == d.contains_key(source));
            assert(d.contains_key(source) ==> before[source] == d[source]);
            assert(self.attached() =~= before.insert(source,
                (if before.contains_key(source) { before[source] } else { Seq::empty() }).push(id)));
        }
    }

    /// Attaches `uf` to `source` in change tracking.
    fn register_tracked(&mut self, source: u64, uf: UpdateFunc)
        requires
            old(self).wf(),
        ensures
            final(self).wf(),
            final(self).markers@ == old(self).markers@,
            final(self).deps() == register_at(old(self).deps(), seq![source], uf.spec_id()),
    {
        let id = uf.id();
        proof {
            assert(seq![source].drop_last() =~= Seq::<u64>::empty());
            assert(register_at(old(self).deps(), Seq::<u64>::empty(), id) == old(self).deps());
            assert(register_at(old(self).deps(), seq![source], id) == old(self).deps().insert(source,
                (if old(self).deps().contains_key(source) { old(self).deps()[source] } else { Seq::empty() }).push(id)));
        }
        match self.lists.remove(&source) {
            Some(mut v) => {
                let ghost before = v@;
                v.push(uf);
                self.lists.insert(source, v);
                proof {
                    assert(self.lists@.dom() =~= old(self).lists@.dom());
                    assert(uf_ids(v@) =~= uf_ids(before).push(id));
                    assert(self.deps() =~= old(self).deps().insert(source, old(self).deps()[source].push(id)));
                }
            },
            None => {
                let mut v: Vec<UpdateFunc> = Vec::new();
                v.push(uf);
                self.lists.insert(source, v);
                let ghost before = self.keys@;
                self.keys.push(source);
                proof {
                    before.lemma_push_to_set_commute(source);
                    assert(!before.contains(source)) by {
                        if before.contains(source) {
                            assert(before.to_set().contains(source));
                        }
                    }
                    assert forall|a: int, b: int| 0 <= a < b < self.keys@.len() implies self.keys@[a] != self.keys@[b] by {
                        if b == self.keys@.len() - 1 {
                            assert(self.keys@[a] == before[a]);
                            assert(before.contains(before[a]));
                        } else {
                            assert(self.keys@[a] == before[a] && self.keys@[b] == before[b]);
                        }
                    }
                    assert(self.lists@.dom() =~= old(self).lists@.dom().insert(source));
                    assert(uf_ids(v@) =~= Seq::<u64>::empty().push(id));
                    assert(self.deps() =~= old(self).deps().insert(source, Seq::<u64>::empty().push(id)));
                }
            },
        }
    }

    /// One change-tracking pass. A source that is not `alive` is forgotten with its
    /// functions; the live functions of a source that `fired` are scheduled and its dead ones
    /// dropped; a source left without functions is forgotten.
    pub fn track(&mut self, alive: &HashSet<u64>, fired: &HashSet<u64>, scratch: &mut UiScratchSpace)
        requires
            old(self).wf(),
            old(scratch).wf(),
        ensures
            final(self).wf(),
            final(scratch).wf(),
            final(self).maintained() == old(self).maintained(),
            final(self).marker_deps() == old(self).marker_deps(),
            old(scratch).pending().subset_of(final(scratch).pending()),
            forall|k: u64| #[trigger] final(self).deps().contains_key(k) ==> old(self).deps().contains_key(k)
                && alive@.contains(k) && final(self).deps()[k].len() > 0,
            forall|k: u64| #[trigger] old(self).deps().contains_key(k) && alive@.contains(k) && !fired@.contains(k)
                ==> (final(self).deps().contains_key(k) <==> old(self).deps()[k].len() > 0)
                && (final(self).deps().contains_key(k) ==> final(self).deps()[k] == old(self).deps()[k]),
            forall|k: u64| #[trigger] old(self).deps().contains_key(k) && alive@.contains(k) && fired@.contains(k)
                ==> exists|dead: Seq<bool>| #![trigger keep_live(old(self).deps()[k], dead)]
                    dead.len() == old(self).deps()[k].len()
                    && keep_live(old(self).deps()[k], dead).to_set().subset_of(final(scratch).pending())
                    && (final(self).deps().contains_key(k) <==> keep_live(old(self).deps()[k], dead).len() > 0)
                    && (final(self).deps().contains_key(k) ==> final(self).deps()[k] == keep_live(old(self).deps()[k], dead)),
            forall|id: u64| #[trigger] final(scratch).pending().contains(id) ==> old(scratch).pending().contains(id)
                || exists|k: u64| old(self).deps().contains_key(k) && alive@.contains(k) && fired@.contains(k)
                    && #[trigger] old(self).deps()[k].contains(id),
    {
        let ghost d0 = self.deps();
        let mut out: HashMap<u64, Vec<UpdateFunc>> = HashMap::new();
        let mut out_keys: Vec<u64> = Vec::new();
        let mut i: usize = 0;
        proof {
            assert(out_keys@.to_set() =~= Set::<u64>::empty());
        }
        while i < self.keys.len()
            invariant
                0 <= i <= self.keys@.len(),
                self.keys@ == old(self).keys@,
                self.markers@ == old(self).markers@,
                old(self).wf(),
                scratch.wf(),
                old(scratch).pending().subset_of(scratch.pending()),
                d0 == old(self).deps(),
                forall|k: u64| #[trigger] self.lists@.contains_key(k) <==> old(self).lists@.contains_key(k)
                    && !self.keys@.take(i as int).contains(k),
                forall|k: u64| #[trigger] self.lists@.contains_key(k) ==> self.lists@[k] == old(self).lists@[k],
                out_keys@.to_set() == out@.dom(),
                out_keys@.no_duplicates(),
                forall|k: u64| #[trigger] out@.contains_key(k) ==> self.keys@.take(i as int).contains(k)
                    && d0.contains_key(k) && alive@.contains(k) && out@[k]@.len() > 0,
                forall|k: u64| #[trigger] d0.contains_key(k) && self.keys@.take(i as int).contains(k) && alive@.contains(k) && !fired@.contains(k)
                    ==> (out@.contains_key(k) <==> d0[k].len() > 0)
                    && (out@.contains_key(k) ==> uf_ids(out@[k]@) == d0[k]),
                forall|k: u64| #[trigger] d0.contains_key(k) && self.keys@.take(i as int).contains(k) && alive@.contains(k) && fired@.contains(k)
                    ==> exists|dead: Seq<bool>| #![trigger keep_live(d0[k], dead)]
                        dead.len() == d0[k].len()
                        && keep_live(d0[k], dead).to_set().subset_of(scratch.pending())
                        && (out@.contains_key(k) <==> keep_live(d0[k], dead).len() > 0)
                        && (out@.contains_key(k) ==> uf_ids(out@[k]@) == keep_live(d0[k], dead)),
                forall|id: u64| #[trigger] scratch.pending().contains(id) ==> old(scratch).pending().contains(id)
                    || exists|k: u64| d0.contains_key(k) && alive@.contains(k) && fired@.contains(k)
                        && #[trigger] d0[k].contains(id),
            decreases self.keys@.len() - i,
        {
            let k = self.keys[i];
            let ghost pend0 = scratch.pending();
            proof {
                assert(self.keys@.contains(k));
                assert(self.keys@.to_set().contains(k));
                assert(self.keys@.take(i + 1) =~= self.keys@.take(i as int).push(k));
                crate::interaction::lemma_push_contains(self.keys@.take(i as int), k);
                assert(!self.keys@.take(i as int).contains(k)) by {
                    if self.keys@.take(i as int).contains(k) {
                        let j = choose|j: int| 0 <= j < i && #[trigger] self.keys@.take(i as int)[j] == k;
                        assert(self.keys@[j] == self.keys@[i as int]);
                    }
                }
                assert(d0.contains_key(k));
            }
            let mut list = self.lists.remove(&k).unwrap();
            proof {
                assert(uf_ids(list@) == d0[k]);
            }
            if alive.contains(&k) {
                let ghost before = list@;
                if fired.contains(&k) {
                    scratch.process_list(&mut list);
                }
                if list.len() > 0 {
                    let ghost ob = out_keys@;
                    out.insert(k, list);
                    out_keys.push(k);
                    proof {
                        ob.lemma_push_to_set_commute(k);
                        assert(!ob.contains(k)) by {
                            if ob.contains(k) {
                                assert(ob.to_set().contains(k));
                            }
                        }
                        assert forall|a: int, b: int| 0 <= a < b < out_keys@.len() implies out_keys@[a] != out_keys@[b] by {
                            if b == out_keys@.len() - 1 {
                                assert(out_keys@[a] == ob[a]);
                                assert(ob.contains(ob[a]));
                            } else {
                                assert(out_keys@[a] == ob[a] && out_keys@[b] == ob[b]);
                            }
                        }
                    }
                }
                proof {
                    if fired@.contains(k) {
                        let dead = choose|dead: Seq<bool>| #![trigger keep_live(uf_ids(before), dead)]
                            dead.len() == before.len() && uf_ids(list@) == keep_live(uf_ids(before), dead)
                            && scratch.pending() == pend0.union(keep_live(uf_ids(before), dead).to_set());
                        assert(keep_live(d0[k], dead).to_set().subset_of(scratch.pending()));
                        crate::foreach::lemma_keep_live_subset(uf_ids(before), dead);
                        assert forall|id: u64| #[trigger] scratch.pending().contains(id) implies old(scratch).pending().contains(id)
                            || exists|k2: u64| d0.contains_key(k2) && alive@.contains(k2) && fired@.contains(k2)
                                && #[trigger] d0[k2].contains(id) by {
                            if !pend0.contains(id) {
                                assert(keep_live(uf_ids(before), dead).to_set().contains(id));
                                assert(uf_ids(before).to_set().contains(id));
                                assert(d0[k].contains(id));
                            }
                        }
                    }
                }
            }
            i += 1;
        }
        proof {
            assert(self.keys@.take(self.keys@.len() as int) =~= self.keys@);
            assert forall|k: u64| #[trigger] d0.contains_key(k) implies self.keys@.contains(k) by {
                assert(old(self).keys@.to_set().contains(k));
            }
        }
        self.lists = out;
        self.keys = out_keys;
        proof {
            assert forall|k: u64| #[trigger] self.deps().contains_key(k) implies old(self).deps().contains_key(k)
                && alive@.contains(k) && self.deps()[k].len() > 0 by {
            }
        }
    }
}

/// A list of update functions waiting on one source, such as a resource.
pub struct UpdateFuncList {
    list: Vec<UpdateFunc>,
}

impl UpdateFuncList {
    pub closed spec fn ids(&self) -> Seq<u64> {
        uf_ids(self.list@)
    }

    /// An empty list.
    pub fn new() -> (l: UpdateFuncList)
        ensures
            l.ids() == Seq::<u64>::empty(),
    {
        let l = UpdateFuncList { list: Vec::new() };
        proof {
            assert(l.ids() =~= Seq::<u64>::empty());
        }
        l
    }

    /// Appends `uf`.
    pub fn push(&mut self, uf: UpdateFunc)
        ensures
            final(self).ids() == old(self).ids().push(uf.spec_id()),
    {
        self.list.push(uf);
        proof {
            assert(self.ids() =~= old(self).ids().push(uf.spec_id()));
        }
    }

    /// When the source `changed`, schedules the live functions and drops the dead ones.
    pub fn track(&mut self, changed: bool, scratch: &mut UiScratchSpace)
        requires
            old(scratch).wf(),
        ensures
            final(scratch).wf(),
            !changed ==> final(self).ids() == old(self).ids() && final(scratch).pending() == old(scratch).pending(),
            changed ==> exists|dead: Seq<bool>| #![trigger keep_live(old(self).ids(), dead)]
                dead.len() == old(self).ids().len()
                && final(self).ids() == keep_live(old(self).ids(), dead)
                && final(scratch).pending() == old(scratch).pending().union(keep_live(old(self).ids(), dead).to_set()),
    {
        if changed {
            scratch.process_list(&mut self.list);
            proof {
                let dead = choose|dead: Seq<bool>| #![trigger keep_live(uf_ids(old(self).list@), dead)]
                    dead.len() == old(self).list@.len() && uf_ids(self.list@) == keep_live(uf_ids(old(self).list@), dead)
                    && scratch.pending() == old(scratch).pending().union(keep_live(uf_ids(old(self).list@), dead).to_set());
                assert(keep_live(old(self).ids(), dead) == keep_live(uf_ids(old(self).list@), dead));
            }
        }
    }
}

} // verus!
