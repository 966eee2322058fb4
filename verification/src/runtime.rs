//! Bookkeeping of update functions: which ones are still alive, which ones depend on a
//! value, and which ones are waiting to be run in the current frame.

use std::sync::atomic::AtomicBool;
use std::sync::Arc;
use vstd::prelude::*;

verus! {

#[verifier::external_type_specification]
#[verifier::external_body]
#[verifier::reject_recursive_types(K)]
#[verifier::reject_recursive_types(S)]
pub struct ExDashSet<K, S>(dashmap::DashSet<K, S>);

#[verifier::external_type_specification]
#[verifier::external_body]
pub struct ExAhashRandomState(ahash::RandomState);

/// The keys held by a concurrent set.
pub uninterp spec fn pending_keys(s: dashmap::DashSet<u64, ahash::RandomState>) -> Set<u64>;

/// `DashSet::default`, hashing with a default `ahash::RandomState`: a set that holds
/// nothing.
#[verifier::external_body]
fn new_pending_set() -> (s: dashmap::DashSet<u64, ahash::RandomState>)
    ensures
        pending_keys(s) == Set::<u64>::empty(),
{
    dashmap::DashSet::default()
}

/// `DashSet::insert`: afterwards the set holds the key besides what it held before.
#[verifier::external_body]
fn pending_insert(s: &mut dashmap::DashSet<u64, ahash::RandomState>, key: u64)
    ensures
        pending_keys(*final(s)) == pending_keys(*old(s)).insert(key),
{
    s.insert(key);
}

/// `DashSet::clear`: afterwards the set holds nothing.
#[verifier::external_body]
fn pending_clear(s: &mut dashmap::DashSet<u64, ahash::RandomState>)
    ensures
        pending_keys(*final(s)) == Set::<u64>::empty(),
{
    s.clear();
}

/// `DashSet::is_empty`: whether the set holds no key.
#[verifier::external_body]
fn pending_is_empty(s: &dashmap::DashSet<u64, ahash::RandomState>) -> (b: bool)
    ensures
        b == (pending_keys(*s) == Set::<u64>::empty()),
{
    s.is_empty()
}

/// `DashSet::iter`, each key copied out: every key of the set once, in an order that the
/// set's hashing decides.
#[verifier::external_body]
fn pending_keys_vec(s: &dashmap::DashSet<u64, ahash::RandomState>) -> (v: Vec<u64>)
    ensures
        v@.to_set() == pending_keys(*s),
        v@.no_duplicates(),
{
    s.iter().map(|k| *k).collect()
}

/// A function that recomputes part of the UI. Two handles are the same function when their
/// ids agree; the flag is shared with the function's [`UfMarker`] and is raised once the
/// marker is released, after which the function is dead.
pub struct UpdateFunc {
    id: u64,
    flag: Arc<AtomicBool>,
}

/// The owning side of an [`UpdateFunc`]: the function is alive until [`UfMarker::release`]
/// is called. It also holds the update functions that depend on the value it maintains.
/// Dropping a marker does not mark its function dead (this type has no destructor): release it
/// when the value it maintains goes away.
pub struct UfMarker {
    flag: Arc<AtomicBool>,
    list: Vec<UpdateFunc>,
}

impl UpdateFunc {
    pub closed spec fn spec_id(&self) -> u64 {
        self.id
    }

    /// Creates a live update function with the given id, and the marker that keeps it alive.
    pub fn new(id: u64) -> (res: (UpdateFunc, UfMarker))
        ensures
            res.0.spec_id() == id,
            res.1.dependents().len() == 0,
    {
        let flag = Arc::new(AtomicBool::new(false));
        (UpdateFunc { id, flag: flag.clone() }, UfMarker { flag, list: Vec::new() })
    }

    /// The id that identifies this function.
    pub fn id(&self) -> (r: u64)
        ensures
            r == self.spec_id(),
    {
        self.id
    }

    /// Whether the marker of this function was released. Another owner of the flag may
    /// raise it at any time, so nothing is promised of the answer.
    pub fn flagged(&self) -> bool {
        self.flag.load(std::sync::atomic::Ordering::Relaxed)
    }
}

/// Hands out the ids of update functions, counting up, so that no two functions made through
/// it share an id.
pub struct UpdateFuncIds {
    next: u64,
}

impl UpdateFuncIds {
    /// The id the next function gets.
    pub closed spec fn spec_next(&self) -> u64 {
        self.next
    }

    /// A counter whose first id is 0.
    pub fn new() -> (c: UpdateFuncIds)
        ensures
            c.spec_next() == 0,
    {
        UpdateFuncIds { next: 0 }
    }

    /// A live update function with the next id, and its marker. Every id handed out before is
    /// smaller, and every later one is larger.
    pub fn fresh(&mut self) -> (res: (UpdateFunc, UfMarker))
        requires
            old(self).spec_next() < u64::MAX,
        ensures
            res.0.spec_id() == old(self).spec_next(),
            final(self).spec_next() == old(self).spec_next() + 1,
            res.1.dependents().len() == 0,
    {
        let id = self.next;
        self.next = self.next + 1;
        UpdateFunc::new(id)
    }
}

impl Clone for UpdateFunc {
    /// Another handle to the same function.
    fn clone(&self) -> (r: Self)
        ensures
            r.spec_id() == self.spec_id(),
    {
        UpdateFunc { id: self.id, flag: self.flag.clone() }
    }
}

/// The ids of a sequence of update functions, in order.
pub open spec fn uf_ids(s: Seq<UpdateFunc>) -> Seq<u64> {
    s.map_values(|u: UpdateFunc| u.spec_id())
}

impl UfMarker {
    pub closed spec fn dependents(&self) -> Seq<u64> {
        uf_ids(self.list@)
    }

    /// Records `uf` as depending on the value this marker maintains.
    pub fn add_dependent(&mut self, uf: UpdateFunc)
        ensures
            final(self).dependents() == old(self).dependents().push(uf.spec_id()),
    {
        self.list.push(uf);
        proof {
            assert(self.dependents() =~= old(self).dependents().push(uf.spec_id()));
        }
    }

    /// Schedules every live dependent, and forgets the dead ones.
    pub fn trigger(&mut self, scratch: &mut UiScratchSpace)
        requires
            old(scratch).wf(),
        ensures
            final(scratch).wf(),
            exists|dead: Seq<bool>|
                #![trigger keep_live(old(self).dependents(), dead)]
                dead.len() == old(self).dependents().len() && final(self).dependents()
                    == keep_live(old(self).dependents(), dead) && final(scratch).pending()
                    == old(scratch).pending().union(
                    keep_live(old(self).dependents(), dead).to_set(),
                ),
    {
        scratch.process_list(&mut self.list);
        proof {
            let dead = choose|dead: Seq<bool>|
                #![trigger keep_live(uf_ids(old(self).list@), dead)]
                dead.len() == old(self).list@.len() && uf_ids(self.list@)
                    == keep_live(uf_ids(old(self).list@), dead)
                    && scratch.pending() == old(scratch).pending().union(
                    keep_live(uf_ids(old(self).list@), dead).to_set(),
                );
            assert(old(self).dependents() == uf_ids(old(self).list@));
        }
    }

    /// Marks the function dead: it will not run again, and lists drop it when they meet it.
    pub fn release(self) {
        self.flag.store(true, std::sync::atomic::Ordering::Relaxed);
    }

    /// Gives the marker up without marking the function dead.
    pub fn forget(self) {
    }
}

/// The ids of `ids` whose `dead` entry is false, in their order.
pub open spec fn keep_live(ids: Seq<u64>, dead: Seq<bool>) -> Seq<u64>
    decreases ids.len(),
{
    if ids.len() == 0 {
        Seq::empty()
    } else {
        let rest = keep_live(ids.drop_last(), dead.take(ids.len() - 1));
        if dead[ids.len() - 1] {
            rest
        } else {
            rest.push(ids.last())
        }
    }
}

/// The update functions that wait to be run, without repetition.
pub struct UiScratchSpace {
    update_hashset_a: dashmap::DashSet<u64, ahash::RandomState>,
    update_hashset_b: dashmap::DashSet<u64, ahash::RandomState>,
}

impl UiScratchSpace {
    /// The ids scheduled to run in the next round.
    pub closed spec fn pending(&self) -> Set<u64> {
        pending_keys(self.update_hashset_a)
    }

    /// The spare set is empty between rounds.
    pub closed spec fn wf(&self) -> bool {
        pending_keys(self.update_hashset_b) == Set::<u64>::empty()
    }

    /// A scratch space with nothing scheduled.
    pub fn new() -> (s: UiScratchSpace)
        ensures
            s.wf(),
            s.pending() == Set::<u64>::empty(),
    {
        UiScratchSpace { update_hashset_a: new_pending_set(), update_hashset_b: new_pending_set() }
    }

    /// Schedules `uf` for the next round; scheduling it twice runs it once.
    pub fn register_update_func(&mut self, uf: &UpdateFunc)
        requires
            old(self).wf(),
        ensures
            final(self).wf(),
            final(self).pending() == old(self).pending().insert(uf.spec_id()),
    {
        pending_insert(&mut self.update_hashset_a, uf.id);
    }

    /// Schedules each function of `ufs`.
    pub fn register_update_funcs(&mut self, ufs: Vec<UpdateFunc>)
        requires
            old(self).wf(),
        ensures
            final(self).wf(),
            final(self).pending() == old(self).pending().union(
                uf_ids(ufs@).to_set(),
            ),
    {
        let ghost start = self.pending();
        let mut i: usize = 0;
        while i < ufs.len()
            invariant
                0 <= i <= ufs.len(),
                self.wf(),
                self.pending() == start.union(
                    uf_ids(ufs@.take(i as int)).to_set(),
                ),
            decreases ufs.len() - i,
        {
            self.register_update_func(&ufs[i]);
            proof {
                assert(uf_ids(ufs@.take(i + 1)) =~= uf_ids(ufs@.take(
                    i as int,
                )).push(ufs@[i as int].id));
                uf_ids(ufs@.take(i as int)).lemma_push_to_set_commute(ufs@[i as int].id);
            }
            i += 1;
        }
        proof {
            assert(ufs@.take(ufs.len() as int) =~= ufs@);
        }
    }

    /// Drops the dead functions of `list` and schedules the live ones.
    pub fn process_list(&mut self, list: &mut Vec<UpdateFunc>)
        requires
            old(self).wf(),
        ensures
            final(self).wf(),
            exists|dead: Seq<bool>|
                #![trigger keep_live(uf_ids(old(list)@), dead)]
                dead.len() == old(list)@.len() && uf_ids(final(list)@)
                    == keep_live(uf_ids(old(list)@), dead)
                    && final(self).pending() == old(self).pending().union(
                    keep_live(uf_ids(old(list)@), dead).to_set(),
                ),
    {
        let mut dead: Vec<bool> = Vec::new();
        let mut i: usize = 0;
        while i < list.len()
            invariant
                0 <= i <= list.len(),
                dead@.len() == i,
            decreases list.len() - i,
        {
            let f = list[i].flagged();
            dead.push(f);
            i += 1;
        }
        self.drop_dead(list, &dead);
    }

    /// Drops the functions of `list` whose `dead` entry is true and schedules the others.
    pub fn drop_dead(&mut self, list: &mut Vec<UpdateFunc>, dead: &Vec<bool>)
        requires
            old(self).wf(),
            dead@.len() == old(list)@.len(),
        ensures
            final(self).wf(),
            uf_ids(final(list)@) == keep_live(
                uf_ids(old(list)@),
                dead@,
            ),
            final(self).pending() == old(self).pending().union(
                keep_live(uf_ids(old(list)@), dead@).to_set(),
            ),
    {
        let ghost ids = uf_ids(list@);
        let ghost start = self.pending();
        let mut kept: Vec<UpdateFunc> = Vec::new();
        let mut i: usize = 0;
        while i < list.len()
            invariant
                0 <= i <= list.len(),
                dead@.len() == list@.len(),
                ids == uf_ids(list@),
                self.wf(),
                uf_ids(kept@) == keep_live(
                    ids.take(i as int),
                    dead@.take(i as int),
                ),
                self.pending() == start.union(
                    keep_live(ids.take(i as int), dead@.take(i as int)).to_set(),
                ),
            decreases list.len() - i,
        {
            let ghost before = uf_ids(kept@);
            proof {
                assert(ids.take(i + 1).drop_last() =~= ids.take(i as int));
                assert(dead@.take(i + 1).take(i as int) =~= dead@.take(i as int));
            }
            if !dead[i] {
                self.register_update_func(&list[i]);
                kept.push(list[i].clone());
                proof {
                    assert(uf_ids(kept@) =~= before.push(ids[i as int]));
                    before.lemma_push_to_set_commute(ids[i as int]);
                }
            }
            i += 1;
        }
        proof {
            assert(ids.take(list.len() as int) =~= ids);
            assert(dead@.take(list.len() as int) =~= dead@);
        }
        *list = kept;
    }

    /// Starts a round: hands out the ids scheduled so far, each once, and empties the schedule.
    /// Functions scheduled while the round runs wait for the next one.
    pub fn take_pending(&mut self) -> (ids: Vec<u64>)
        requires
            old(self).wf(),
        ensures
            final(self).wf(),
            ids@.to_set() == old(self).pending(),
            ids@.no_duplicates(),
            final(self).pending() == Set::<u64>::empty(),
    {
        std::mem::swap(&mut self.update_hashset_a, &mut self.update_hashset_b);
        let ids = pending_keys_vec(&self.update_hashset_b);
        pending_clear(&mut self.update_hashset_b);
        ids
    }

    /// Whether any function waits to be run.
    pub fn has_pending(&self) -> (b: bool)
        ensures
            b == (self.pending() != Set::<u64>::empty()),
    {
        !pending_is_empty(&self.update_hashset_a)
    }
}

} // verus!
