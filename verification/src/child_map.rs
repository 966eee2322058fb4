//! Children chosen by an observed value: one group of children is built per distinct value,
//! kept while it lives, and shown again when the value comes back.

use std::collections::{HashMap, HashSet};
use vstd::prelude::*;

verus! {

broadcast use vstd::std_specs::hash::group_hash_axioms;

/// What to do when the observed value was read.
#[derive(Clone, Copy, PartialEq, Eq, Structural, Debug)]
pub enum ChildMapDecision {
    /// Nothing changed: keep what is shown.
    Keep,
    /// Show the group for the new value. `retire` is the group shown so far, which is to be
    /// transitioned out or despawned; `reuse` is the group already built for the new value,
    /// whose transition out is to be cancelled. When `reuse` is `None` a group is to be built.
    Switch { retire: Option<u64>, reuse: Option<u64> },
}

/// The groups built so far, by value key, and the key shown last.
pub struct ChildMapState {
    parents: HashMap<u64, u64>,
    keys: Vec<u64>,
    last: Option<u64>,
}

impl ChildMapState {
    /// The group entity of each value key.
    pub closed spec fn groups(&self) -> Map<u64, u64> {
        self.parents@
    }

    /// Every key of the map is listed once.
    pub closed spec fn wf(&self) -> bool {
        &&& self.keys@.to_set() == self.parents@.dom()
        &&& self.keys@.no_duplicates()
    }

    /// The value key shown last.
    pub closed spec fn spec_last(&self) -> Option<u64> {
        self.last
    }

    /// The decision for a read of `key`, `changed` telling whether the observer saw a change.
    /// The first read always builds the group for its value; later reads switch only on a
    /// change to a value other than the one shown.
    pub open spec fn decision(&self, key: u64, changed: bool) -> ChildMapDecision {
        if self.spec_last() is Some && (!changed || self.spec_last() == Some(key)) {
            ChildMapDecision::Keep
        } else {
            ChildMapDecision::Switch {
                retire: match self.spec_last() {
                    Some(l) => if self.groups().contains_key(l) { Some(self.groups()[l]) } else { None },
                    None => None,
                },
                reuse: if self.groups().contains_key(key) { Some(self.groups()[key]) } else { None },
            }
        }
    }

    /// Nothing built, nothing shown.
    pub fn new() -> (s: ChildMapState)
        ensures
            s.wf(),
            s.groups() == Map::<u64, u64>::empty(),
            s.spec_last() is None,
    {
        let s = ChildMapState { parents: HashMap::new(), keys: Vec::new(), last: None };
        proof {
            assert(s.keys@.to_set() =~= Set::<u64>::empty());
        }
        s
    }

    /// Forgets the groups whose entity no longer exists.
    pub fn retain_alive(&mut self, alive: &HashSet<u64>)
        requires
            old(self).wf(),
        ensures
            final(self).wf(),
            final(self).spec_last() == old(self).spec_last(),
            forall|k: u64| #[trigger] final(self).groups().contains_key(k) <==> old(self).groups().contains_key(k)
                && alive@.contains(old(self).groups()[k]),
            forall|k: u64| #[trigger] final(self).groups().contains_key(k) ==> final(self).groups()[k] == old(self).groups()[k],
    {
        let mut parents: HashMap<u64, u64> = HashMap::new();
        let mut keys: Vec<u64> = Vec::new();
        let mut i: usize = 0;
        while i < self.keys.len()
            invariant
                self.wf(),
                self.parents@ == old(self).parents@,
                self.keys@ == old(self).keys@,
                0 <= i <= self.keys@.len(),
                keys@.to_set() == parents@.dom(),
                keys@.no_duplicates(),
                forall|k: u64| #[trigger] parents@.contains_key(k) <==> self.keys@.take(i as int).contains(k)
                    && alive@.contains(self.parents@[k]),
                forall|k: u64| #[trigger] parents@.contains_key(k) ==> parents@[k] == self.parents@[k],
            decreases self.keys@.len() - i,
        {
            let k = self.keys[i];
            proof {
                assert(self.keys@.contains(k));
                assert(self.keys@.to_set().contains(k));
                assert(self.keys@.take(i + 1) =~= self.keys@.take(i as int).push(k));
                crate::interaction::lemma_push_contains(self.keys@.take(i as int), k);
                assert(!self.keys@.take(i as int).contains(k)) by {
                    if self.keys@.take(i as int).contains(k) {
                        let j = choose|j: int| 0 <= j < i && #[trigger] self.keys@.take(i as int)[j] == k;
                        assert(self.keys@[j] == self.keys@[i as int]);
                    }
                }
            }
            let e = *self.parents.get(&k).unwrap();
            if alive.contains(&e) {
                let ghost before = keys@;
                parents.insert(k, e);
                keys.push(k);
                proof {
                    before.lemma_push_to_set_commute(k);
                    assert(!before.contains(k)) by {
                        if before.contains(k) {
                            assert(before.to_set().contains(k));
                        }
                    }
                    assert forall|a: int, b: int| 0 <= a < b < keys@.len() implies keys@[a] != keys@[b] by {
                        if b == keys@.len() - 1 {
                            assert(before.contains(keys@[a]) ==> keys@[a] != k);
                            assert(keys@[a] == before[a]);
                        } else {
                            assert(keys@[a] == before[a] && keys@[b] == before[b]);
                        }
                    }
                }
            }
            i += 1;
        }
        proof {
            assert(self.keys@.take(self.keys@.len() as int) =~= self.keys@);
            assert forall|k: u64| #[trigger] parents@.contains_key(k) <==> old(self).groups().contains_key(k)
                && alive@.contains(old(self).groups()[k]) by {
                assert(self.keys@.contains(k) <==> self.keys@.to_set().contains(k));
            }
        }
        self.parents = parents;
        self.keys = keys;
    }

    /// What to do for a read of `key`, see [`ChildMapState::decision`].
    pub fn decide(&self, key: u64, changed: bool) -> (d: ChildMapDecision)
        ensures
            d == self.decision(key, changed),
            self.spec_last() is None ==> d matches ChildMapDecision::Switch { retire: None, .. },
    {
        match self.last {
            Some(l) => if !changed || l == key {
                return ChildMapDecision::Keep;
            },
            None => {},
        }
        let retire = match self.last {
            Some(l) => match self.parents.get(&l) {
                Some(e) => Some(*e),
                None => None,
            },
            None => None,
        };
        let reuse = match self.parents.get(&key) {
            Some(e) => Some(*e),
            None => None,
        };
        ChildMapDecision::Switch { retire, reuse }
    }

    /// Records that `key` is now shown, with the group built for it when there was none.
    pub fn commit(&mut self, key: u64, built: Option<u64>)
        requires
            old(self).wf(),
        ensures
            final(self).wf(),
            final(self).spec_last() == Some(key),
            final(self).groups() == match built {
                Some(e) => old(self).groups().insert(key, e),
                None => old(self).groups(),
            },
    {
        match built {
            Some(e) => {
                let had = self.parents.contains_key(&key);
                self.parents.insert(key, e);
                if !had {
                    let ghost before = self.keys@;
                    self.keys.push(key);
                    proof {
                        before.lemma_push_to_set_commute(key);
                        assert(!before.contains(key)) by {
                            if before.contains(key) {
                                assert(before.to_set().contains(key));
                            }
                        }
                        assert forall|a: int, b: int| 0 <= a < b < self.keys@.len() implies self.keys@[a] != self.keys@[b] by {
                            if b == self.keys@.len() - 1 {
                                assert(self.keys@[a] == before[a]);
                                assert(before.contains(before[a]));
                            } else {
                                assert(self.keys@[a] == before[a] && self.keys@[b] == before[b]);
                            }
                        }
                    }
                } else {
                    proof {
                        assert(self.parents@.dom() =~= old(self).parents@.dom());
                    }
                }
            },
            None => {},
        }
        self.last = Some(key);
    }
}

} // verus!
