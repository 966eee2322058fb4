//! The children that mirror a [`TrackedVec`]: one element per item, each knowing its
//! position, kept in step with the vector by the diffs it sends.

use crate::runtime::{keep_live, uf_ids, UiScratchSpace, UpdateFunc};
use crate::tracking::{follows, receive_diffs, Diff, TrackedId, TrackedVec};
use vstd::prelude::*;

verus! {

/// The record kept for one child: the position it believes it has, and the update functions
/// that read its item and its position.
pub struct Element {
    key: u64,
    index: usize,
    item_ufs: Vec<UpdateFunc>,
    index_ufs: Vec<UpdateFunc>,
}

impl Element {
    pub closed spec fn spec_key(&self) -> u64 {
        self.key
    }

    pub closed spec fn spec_index(&self) -> usize {
        self.index
    }

    pub closed spec fn item_deps(&self) -> Seq<u64> {
        uf_ids(self.item_ufs@)
    }

    pub closed spec fn index_deps(&self) -> Seq<u64> {
        uf_ids(self.index_ufs@)
    }
}

/// What the caller must do to the real children after a diff was applied.
#[derive(Clone, Copy, PartialEq, Eq, Structural, Debug)]
pub enum ForeachAction {
    /// Build the child for the item now at this position.
    Spawn(usize),
    /// Despawn the child that was at this position.
    Despawn(usize),
    /// Nothing to build or despawn.
    Nothing,
}

/// What a poll of the source found.
pub enum ForeachPoll {
    /// A new source: this many children are to be built, at positions 0, 1, ...; the children
    /// built so far stay.
    Fresh(usize),
    /// The same source: these diffs are to be applied, in order.
    Diffs(Vec<Diff>),
}

/// The index after moving an element one place up (`up`) or down, as the position
/// arithmetic computes it: through `isize`, wrapping to the other end.
pub open spec fn shifted(index: usize, up: bool) -> usize {
    if up {
        if index == usize::MAX { 0 } else { (index + 1) as usize }
    } else {
        if index == 0 { usize::MAX } else { (index - 1) as usize }
    }
}

/// Whether the `isize` arithmetic of a shift stays in range.
pub open spec fn shift_ok(index: usize, up: bool) -> bool {
    if up {
        index != isize::MAX as usize
    } else {
        index != isize::MAX as usize + 1
    }
}

/// `kept` is `ids` after a scheduling pass dropped the dead ones: the live ones, in order.
pub open spec fn live_part(ids: Seq<u64>, kept: Seq<u64>) -> bool {
    exists|dead: Seq<bool>| #![trigger keep_live(ids, dead)] dead.len() == ids.len() && kept == keep_live(ids, dead)
}

/// `after` is the child `before` moved to another position: the same key and item readers,
/// and of its position readers the live ones, each scheduled in `pending`.
pub open spec fn moved(before: Element, after: Element, pending: Set<u64>) -> bool {
    &&& after.spec_key() == before.spec_key()
    &&& after.item_deps() == before.item_deps()
    &&& live_part(before.index_deps(), after.index_deps())
    &&& after.index_deps().to_set().subset_of(pending)
}

/// What [`ForeachState::apply`] does to the believed number of items, and that a mirror in
/// step stays in step on a diff that follows its length.
pub open spec fn apply_step(before: ForeachState, d: Diff, after: ForeachState) -> bool {
    &&& after.spec_length() as int == match d {
        Diff::Insert(_) => before.spec_length() + 1,
        Diff::Remove(_) => before.spec_length() - 1,
        Diff::Modify(_) => before.spec_length() as int,
        Diff::Clear => 0,
    }
    &&& before.synced() && follows(before.spec_length() as int, d, after.spec_length() as int) ==> after.synced()
}

/// The state of one mirror: which source it follows, the channel it hears from, the
/// number of items it believes the source has, and its children in order.
pub struct ForeachState {
    id: Option<TrackedId>,
    rx: Option<crossbeam_channel::Receiver<Diff>>,
    length: usize,
    children: Vec<Element>,
}

impl ForeachState {
    pub closed spec fn spec_length(&self) -> usize {
        self.length
    }

    pub closed spec fn spec_children(&self) -> Seq<Element> {
        self.children@
    }

    pub closed spec fn spec_source(&self) -> Option<TrackedId> {
        self.id
    }

    /// The receiving end the mirror listens on.
    pub closed spec fn spec_receiver(&self) -> Option<crossbeam_channel::Receiver<Diff>> {
        self.rx
    }

    /// The positions that the children believe they have.
    pub open spec fn indexes(&self) -> Seq<usize> {
        self.spec_children().map_values(|e: Element| e.spec_index())
    }

    /// The mirror agrees with itself: as many children as believed items, each knowing its
    /// true position.
    pub open spec fn synced(&self) -> bool {
        &&& self.spec_length() == self.spec_children().len()
        &&& forall|k: int| 0 <= k < self.spec_children().len() ==> #[trigger] self.spec_children()[k].spec_index() == k
    }

    /// Whether applying `d` stays within what the position arithmetic allows.
    pub open spec fn accepts(&self, d: Diff) -> bool {
        let ch = self.spec_children();
        let len = self.spec_length();
        match d {
            Diff::Insert(i) => {
                &&& i <= len <= ch.len()
                &&& len < usize::MAX
                &&& forall|j: int| i <= j < len ==> shift_ok(#[trigger] ch[j].spec_index(), true)
            },
            Diff::Remove(i) => {
                &&& i < len <= ch.len()
                &&& forall|j: int| i < j < len ==> shift_ok(#[trigger] ch[j].spec_index(), false)
            },
            Diff::Modify(i) => i < ch.len(),
            Diff::Clear => true,
        }
    }

    /// A mirror that follows nothing yet.
    pub fn new() -> (s: ForeachState)
        ensures
            s.spec_source() is None,
            s.spec_receiver() is None,
            s.spec_length() == 0,
            s.spec_children().len() == 0,
            s.synced(),
    {
        ForeachState { id: None, rx: None, length: 0, children: Vec::new() }
    }

    /// The number of items the mirror believes the source has.
    pub fn length(&self) -> (n: usize)
        ensures
            n == self.spec_length(),
    {
        self.length
    }

    /// The number of children.
    pub fn child_count(&self) -> (n: usize)
        ensures
            n == self.spec_children().len(),
    {
        self.children.len()
    }

    /// The position believed by the child at `pos`.
    pub fn index_at(&self, pos: usize) -> (i: usize)
        requires
            pos < self.spec_children().len(),
        ensures
            i == self.spec_children()[pos as int].spec_index(),
    {
        self.children[pos].index
    }

    /// The current position of the child built under `key`, if there is one.
    pub fn position_of(&self, key: u64) -> (p: Option<usize>)
        ensures
            p matches Some(q) ==> q < self.spec_children().len() && self.spec_children()[q as int].spec_key() == key
                && forall|k: int| 0 <= k < q ==> #[trigger] self.spec_children()[k].spec_key() != key,
            p is None ==> forall|k: int| 0 <= k < self.spec_children().len() ==> #[trigger] self.spec_children()[k].spec_key() != key,
    {
        let mut k: usize = 0;
        while k < self.children.len()
            invariant
                0 <= k <= self.children.len(),
                forall|j: int| 0 <= j < k ==> #[trigger] self.children@[j].spec_key() != key,
            decreases self.children.len() - k,
        {
            if self.children[k].key == key {
                return Some(k);
            }
            k += 1;
        }
        None
    }

    /// Records `uf` as reading the item of the child at `pos`.
    pub fn add_item_uf(&mut self, pos: usize, uf: UpdateFunc)
        requires
            pos < old(self).spec_children().len(),
        ensures
            final(self).spec_length() == old(self).spec_length(),
            final(self).spec_source() == old(self).spec_source(),
            final(self).indexes() == old(self).indexes(),
            final(self).spec_children().len() == old(self).spec_children().len(),
            final(self).spec_children()[pos as int].item_deps() == old(self).spec_children()[pos as int].item_deps().push(uf.spec_id()),
    {
        let mut e = self.children.remove(pos);
        e.item_ufs.push(uf);
        self.children.insert(pos, e);
        proof {
            assert(self.indexes() =~= old(self).indexes());
            assert(uf_ids(self.children@[pos as int].item_ufs@) =~= uf_ids(old(self).children@[pos as int].item_ufs@).push(uf.spec_id()));
        }
    }

    /// Records `uf` as reading the position of the child at `pos`.
    pub fn add_index_uf(&mut self, pos: usize, uf: UpdateFunc)
        requires
            pos < old(self).spec_children().len(),
        ensures
            final(self).spec_length() == old(self).spec_length(),
            final(self).spec_source() == old(self).spec_source(),
            final(self).indexes() == old(self).indexes(),
            final(self).spec_children().len() == old(self).spec_children().len(),
            final(self).spec_children()[pos as int].index_deps() == old(self).spec_children()[pos as int].index_deps().push(uf.spec_id()),
    {
        let mut e = self.children.remove(pos);
        e.index_ufs.push(uf);
        self.children.insert(pos, e);
        proof {
            assert(self.indexes() =~= old(self).indexes());
            assert(uf_ids(self.children@[pos as int].index_ufs@) =~= uf_ids(old(self).children@[pos as int].index_ufs@).push(uf.spec_id()));
        }
    }

    /// Looks at the source. When it is not the one followed so far, subscribes to it, drops
    /// whatever already waits on the new channel, and asks for a child per item, see
    /// [`ForeachState::spawn_fresh`]; the children built so far and the believed number of
    /// items stay as they are. Otherwise hands out the diffs that arrived since the last poll.
    pub fn poll<T>(&mut self, source: &mut TrackedVec<T>) -> (p: ForeachPoll)
        ensures
            final(self).spec_source() == Some(old(source).spec_id()),
            final(source)@ == old(source)@,
            final(source).sent() == old(source).sent(),
            final(source).spec_id() == old(source).spec_id(),
            final(self).spec_length() == old(self).spec_length(),
            final(self).spec_children() == old(self).spec_children(),
            old(self).spec_source() == Some(old(source).spec_id()) ==> p is Diffs
                && final(self).spec_receiver() == old(self).spec_receiver()
                && final(source).subscribers() == old(source).subscribers()
                && final(source).receivers() == old(source).receivers(),
            old(self).spec_source() != Some(old(source).spec_id()) ==> p == ForeachPoll::Fresh(old(source)@.len() as usize)
                && final(source).subscribers().len() == old(source).subscribers().len() + 1
                && final(source).receivers().len() == old(source).receivers().len() + 1
                && final(self).spec_receiver() == Some(final(source).receivers().last()),
    {
        let sid = source.id();
        let same = match self.id {
            Some(id) => id == sid,
            None => false,
        };
        if !same {
            self.id = Some(sid);
            let rx = source.register();
            let _stale = receive_diffs(&rx);
            self.rx = Some(rx);
            ForeachPoll::Fresh(source.len())
        } else {
            match &self.rx {
                Some(rx) => ForeachPoll::Diffs(receive_diffs(rx)),
                None => ForeachPoll::Diffs(Vec::new()),
            }
        }
    }

    /// Records a freshly built child for the item at position `i`, inserted before the
    /// child now at `i`. The believed number of items is left as it is.
    pub fn spawn_fresh(&mut self, i: usize, key: u64)
        requires
            i <= old(self).spec_children().len(),
        ensures
            final(self).spec_length() == old(self).spec_length(),
            final(self).spec_source() == old(self).spec_source(),
            final(self).spec_receiver() == old(self).spec_receiver(),
            final(self).spec_children().len() == old(self).spec_children().len() + 1,
            final(self).indexes() == old(self).indexes().insert(i as int, i),
            final(self).spec_children()[i as int].spec_key() == key,
            final(self).spec_children()[i as int].item_deps().len() == 0,
            final(self).spec_children()[i as int].index_deps().len() == 0,
            forall|k: int| 0 <= k < i ==> #[trigger] final(self).spec_children()[k] == old(self).spec_children()[k],
            forall|k: int| i < k < final(self).spec_children().len() ==> #[trigger] final(self).spec_children()[k]
                == old(self).spec_children()[k - 1],
            (old(self).spec_children().len() == i && forall|k: int| 0 <= k < i ==> #[trigger] old(self).spec_children()[k].spec_index() == k)
                ==> forall|k: int| 0 <= k <= i ==> #[trigger] final(self).spec_children()[k].spec_index() == k,
    {
        self.children.insert(i, Element { key, index: i, item_ufs: Vec::new(), index_ufs: Vec::new() });
        proof {
            assert(self.indexes() =~= old(self).indexes().insert(i as int, i));
            assert(uf_ids(self.children@[i as int].item_ufs@) =~= Seq::<u64>::empty());
            assert(uf_ids(self.children@[i as int].index_ufs@) =~= Seq::<u64>::empty());
        }
    }

    /// Moves the children at positions `start..end` one place up or down, and schedules the
    /// update functions that read their positions.
    fn change_indexes(&mut self, start: usize, end: usize, up: bool, scratch: &mut UiScratchSpace)
        requires
            start <= end <= old(self).spec_children().len(),
            old(scratch).wf(),
            forall|k: int| start <= k < end ==> shift_ok(#[trigger] old(self).spec_children()[k].spec_index(), up),
        ensures
            final(scratch).wf(),
            final(self).spec_length() == old(self).spec_length(),
            final(self).spec_source() == old(self).spec_source(),
            final(self).spec_receiver() == old(self).spec_receiver(),
            final(self).spec_children().len() == old(self).spec_children().len(),
            forall|k: int| 0 <= k < old(self).spec_children().len() ==> #[trigger] final(self).spec_children()[k].spec_index()
                == if start <= k < end { shifted(old(self).spec_children()[k].spec_index(), up) } else { old(self).spec_children()[k].spec_index() },
            forall|k: int| 0 <= k < old(self).spec_children().len() && !(start <= k < end) ==> #[trigger] final(self).spec_children()[k]
                == old(self).spec_children()[k],
            forall|k: int| start <= k < end ==> moved(old(self).spec_children()[k], #[trigger] final(self).spec_children()[k],
                final(scratch).pending()),
            old(scratch).pending().subset_of(final(scratch).pending()),
            forall|id: u64| #[trigger] final(scratch).pending().contains(id) ==> old(scratch).pending().contains(id)
                || exists|k: int| start <= k < end && #[trigger] old(self).spec_children()[k].index_deps().contains(id),
    {
        let mut k = start;
        while k < end
            invariant
                start <= k <= end <= self.children.len(),
                self.children.len() == old(self).children.len(),
                self.length == old(self).length,
                self.id == old(self).id,
                self.rx == old(self).rx,
                scratch.wf(),
                old(scratch).pending().subset_of(scratch.pending()),
                forall|j: int| k <= j < end ==> shift_ok(#[trigger] old(self).children@[j].spec_index(), up),
                forall|j: int| 0 <= j < old(self).children.len() ==> #[trigger] self.children@[j].spec_index()
                    == if start <= j < k { shifted(old(self).children@[j].spec_index(), up) } else { old(self).children@[j].spec_index() },
                forall|j: int| 0 <= j < old(self).children.len() && !(start <= j < k) ==> #[trigger] self.children@[j]
                    == old(self).children@[j],
                forall|j: int| start <= j < k ==> moved(old(self).children@[j], #[trigger] self.children@[j], scratch.pending()),
                forall|id: u64| #[trigger] scratch.pending().contains(id) ==> old(scratch).pending().contains(id)
                    || exists|j: int| start <= j < k && #[trigger] old(self).children@[j].index_deps().contains(id),
            decreases end - k,
        {
            let ghost before = self.children@;
            let ghost pend0 = scratch.pending();
            let mut e = self.children.remove(k);
            let ghost e0 = e;
            assert(e0 == old(self).children@[k as int]);
            e.index = if up {
                if e.index == usize::MAX { 0 } else { e.index + 1 }
            } else {
                if e.index == 0 { usize::MAX } else { e.index - 1 }
            };
            scratch.process_list(&mut e.index_ufs);
            self.children.insert(k, e);
            proof {
                let ids = uf_ids(e0.index_ufs@);
                let dead = choose|dead: Seq<bool>| #![trigger keep_live(ids, dead)]
                    dead.len() == e0.index_ufs@.len() && uf_ids(e.index_ufs@) == keep_live(ids, dead)
                    && scratch.pending() == pend0.union(keep_live(ids, dead).to_set());
                assert(ids.len() == e0.index_ufs@.len());
                lemma_keep_live_subset(ids, dead);
                assert(self.children@ =~= before.update(k as int, e));
                assert(e.spec_index() == shifted(old(self).children@[k as int].spec_index(), up));
                assert(live_part(e0.index_deps(), e.index_deps()));
                assert(moved(e0, e, scratch.pending()));
                assert forall|j: int| start <= j < k + 1 implies moved(old(self).children@[j], #[trigger] self.children@[j], scratch.pending()) by {
                    if j < k {
                        assert(moved(old(self).children@[j], before[j], pend0));
                        assert(self.children@[j] == before[j]);
                    }
                }
                assert forall|id: u64| #[trigger] scratch.pending().contains(id) implies old(scratch).pending().contains(id)
                    || exists|j: int| start <= j < k + 1 && #[trigger] old(self).children@[j].index_deps().contains(id) by {
                    if !pend0.contains(id) {
                        assert(keep_live(ids, dead).to_set().contains(id));
                        assert(ids.to_set().contains(id));
                        assert(old(self).children@[k as int].index_deps().contains(id));
                    }
                }
            }
            k += 1;
        }
    }

    /// Applies one diff of the followed source and says what to do to the real children.
    /// `key` names the child built for an insertion. A child that stays keeps its key and its
    /// item readers; one whose position changes has its position readers scheduled.
    pub fn apply(&mut self, d: Diff, key: u64, scratch: &mut UiScratchSpace) -> (act: ForeachAction)
        requires
            old(self).accepts(d),
            old(scratch).wf(),
        ensures
            final(scratch).wf(),
            final(self).spec_source() == old(self).spec_source(),
            final(self).spec_receiver() == old(self).spec_receiver(),
            old(scratch).pending().subset_of(final(scratch).pending()),
            match d {
                Diff::Insert(i) => act == ForeachAction::Spawn(i)
                    && final(self).spec_length() == old(self).spec_length() + 1
                    && final(self).spec_children().len() == old(self).spec_children().len() + 1
                    && final(self).spec_children()[i as int].spec_key() == key
                    && final(self).spec_children()[i as int].item_deps().len() == 0
                    && final(self).spec_children()[i as int].index_deps().len() == 0
                    && final(self).indexes() == old(self).indexes().insert(i as int, i).map(
                        |k: int, x: usize| if i < k < final(self).spec_length() { shifted(x, true) } else { x })
                    && (forall|k: int| 0 <= k < i ==> #[trigger] final(self).spec_children()[k] == old(self).spec_children()[k])
                    && (forall|k: int| i < k < final(self).spec_length() ==> moved(old(self).spec_children()[k - 1],
                        #[trigger] final(self).spec_children()[k], final(scratch).pending()))
                    && (forall|k: int| final(self).spec_length() <= k < final(self).spec_children().len()
                        ==> #[trigger] final(self).spec_children()[k] == old(self).spec_children()[k - 1])
                    && (forall|id: u64| #[trigger] final(scratch).pending().contains(id) ==> old(scratch).pending().contains(id)
                        || exists|k: int| i <= k < old(self).spec_length() && #[trigger] old(self).spec_children()[k].index_deps().contains(id)),
                Diff::Remove(i) => act == ForeachAction::Despawn(i)
                    && final(self).spec_length() == old(self).spec_length() - 1
                    && final(self).spec_children().len() == old(self).spec_children().len() - 1
                    && final(self).indexes() == old(self).indexes().remove(i as int).map(
                        |k: int, x: usize| if i <= k < final(self).spec_length() { shifted(x, false) } else { x })
                    && (forall|k: int| 0 <= k < i ==> #[trigger] final(self).spec_children()[k] == old(self).spec_children()[k])
                    && (forall|k: int| i <= k < final(self).spec_length() ==> moved(old(self).spec_children()[k + 1],
                        #[trigger] final(self).spec_children()[k], final(scratch).pending()))
                    && (forall|k: int| final(self).spec_length() <= k < final(self).spec_children().len()
                        ==> #[trigger] final(self).spec_children()[k] == old(self).spec_children()[k + 1])
                    && (forall|id: u64| #[trigger] final(scratch).pending().contains(id) ==> old(scratch).pending().contains(id)
                        || exists|k: int| i < k < old(self).spec_length() && #[trigger] old(self).spec_children()[k].index_deps().contains(id)),
                Diff::Modify(i) => act == ForeachAction::Nothing
                    && final(self).spec_length() == old(self).spec_length()
                    && final(self).spec_children().len() == old(self).spec_children().len()
                    && final(self).indexes() == old(self).indexes()
                    && (forall|k: int| 0 <= k < old(self).spec_children().len() && k != i ==> #[trigger] final(self).spec_children()[k]
                        == old(self).spec_children()[k])
                    && final(self).spec_children()[i as int].spec_key() == old(self).spec_children()[i as int].spec_key()
                    && final(self).spec_children()[i as int].index_deps() == old(self).spec_children()[i as int].index_deps()
                    && live_part(old(self).spec_children()[i as int].item_deps(), final(self).spec_children()[i as int].item_deps())
                    && final(scratch).pending() == old(scratch).pending().union(
                        final(self).spec_children()[i as int].item_deps().to_set()),
                Diff::Clear => act == ForeachAction::Nothing
                    && final(self).spec_length() == 0
                    && final(self).spec_children() == old(self).spec_children()
                    && final(scratch).pending() == old(scratch).pending(),
            },
            old(self).synced() && follows(old(self).spec_length() as int, d, final(self).spec_length() as int)
                ==> final(self).synced(),
            apply_step(*old(self), d, *final(self)),
    {
        match d {
            Diff::Insert(i) => {
                self.length = self.length + 1;
                self.children.insert(i, Element { key, index: i, item_ufs: Vec::new(), index_ufs: Vec::new() });
                let ghost mid = self.children@;
                self.change_indexes(i + 1, self.length, true, scratch);
                proof {
                    assert(uf_ids(mid[i as int].item_ufs@) =~= Seq::<u64>::empty());
                    assert(uf_ids(mid[i as int].index_ufs@) =~= Seq::<u64>::empty());
                    assert forall|k: int| i + 1 <= k < self.length implies shift_ok(#[trigger] mid[k].spec_index(), true) by {
                        assert(mid[k] == old(self).children@[k - 1]);
                    }
                    assert(self.indexes() =~= old(self).indexes().insert(i as int, i).map(
                        |k: int, x: usize| if i < k < self.length { shifted(x, true) } else { x }));
                    assert forall|k: int| i < k < self.length implies moved(old(self).children@[k - 1],
                        #[trigger] self.children@[k], scratch.pending()) by {
                        assert(mid[k] == old(self).children@[k - 1]);
                        assert(moved(mid[k], self.children@[k], scratch.pending()));
                    }
                    assert forall|k: int| self.length <= k < self.children@.len() implies #[trigger] self.children@[k]
                        == old(self).children@[k - 1] by {
                        assert(mid[k] == old(self).children@[k - 1]);
                    }
                    assert forall|k: int| 0 <= k < i implies #[trigger] self.children@[k] == old(self).children@[k] by {
                        assert(mid[k] == old(self).children@[k]);
                    }
                    assert forall|id: u64| #[trigger] scratch.pending().contains(id) implies old(scratch).pending().contains(id)
                        || exists|k: int| i <= k < old(self).length && #[trigger] old(self).children@[k].index_deps().contains(id) by {
                        if !old(scratch).pending().contains(id) {
                            let j = choose|j: int| i + 1 <= j < self.length && #[trigger] mid[j].index_deps().contains(id);
                            assert(mid[j] == old(self).children@[j - 1]);
                            assert(old(self).children@[j - 1].index_deps().contains(id));
                        }
                    }
                    if old(self).synced() {
                        assert forall|k: int| 0 <= k < self.children@.len() implies #[trigger] self.children@[k].spec_index() == k by {
                            if k > i {
                                assert(mid[k] == old(self).children@[k - 1]);
                            }
                        }
                    }
                }
                ForeachAction::Spawn(i)
            },
            Diff::Remove(i) => {
                self.length = self.length - 1;
                let _gone = self.children.remove(i);
                let ghost mid = self.children@;
                self.change_indexes(i, self.length, false, scratch);
                proof {
                    assert forall|k: int| i <= k < self.length implies shift_ok(#[trigger] mid[k].spec_index(), false) by {
                        assert(mid[k] == old(self).children@[k + 1]);
                    }
                    assert(self.indexes() =~= old(self).indexes().remove(i as int).map(
                        |k: int, x: usize| if i <= k < self.length { shifted(x, false) } else { x }));
                    assert forall|k: int| i <= k < self.length implies moved(old(self).children@[k + 1],
                        #[trigger] self.children@[k], scratch.pending()) by {
                        assert(mid[k] == old(self).children@[k + 1]);
                        assert(moved(mid[k], self.children@[k], scratch.pending()));
                    }
                    assert forall|k: int| self.length <= k < self.children@.len() implies #[trigger] self.children@[k]
                        == old(self).children@[k + 1] by {
                        assert(mid[k] == old(self).children@[k + 1]);
                    }
                    assert forall|k: int| 0 <= k < i implies #[trigger] self.children@[k] == old(self).children@[k] by {
                        assert(mid[k] == old(self).children@[k]);
                    }
                    assert forall|id: u64| #[trigger] scratch.pending().contains(id) implies old(scratch).pending().contains(id)
                        || exists|k: int| i < k < old(self).length && #[trigger] old(self).children@[k].index_deps().contains(id) by {
                        if !old(scratch).pending().contains(id) {
                            let j = choose|j: int| i <= j < self.length && #[trigger] mid[j].index_deps().contains(id);
                            assert(mid[j] == old(self).children@[j + 1]);
                            assert(old(self).children@[j + 1].index_deps().contains(id));
                        }
                    }
                    if old(self).synced() {
                        assert forall|k: int| 0 <= k < self.children@.len() implies #[trigger] self.children@[k].spec_index() == k by {
                            if k >= i {
                                assert(mid[k] == old(self).children@[k + 1]);
                            }
                        }
                    }
                }
                ForeachAction::Despawn(i)
            },
            Diff::Modify(i) => {
                let mut e = self.children.remove(i);
                let ghost e0 = e;
                let ghost before = e.item_ufs@;
                let ghost rest = self.children@;
                scratch.process_list(&mut e.item_ufs);
                self.children.insert(i, e);
                proof {
                    assert(e0 == old(self).children@[i as int]);
                    assert(self.children@ =~= old(self).children@.update(i as int, e));
                    assert(self.indexes() =~= old(self).indexes());
                    let dead = choose|dead: Seq<bool>| #![trigger keep_live(uf_ids(before), dead)]
                        dead.len() == before.len() && uf_ids(e.item_ufs@) == keep_live(uf_ids(before), dead)
                        && scratch.pending() == old(scratch).pending().union(keep_live(uf_ids(before), dead).to_set());
                    assert(uf_ids(before).len() == before.len());
                    assert(live_part(e0.item_deps(), e.item_deps()));
                    if old(self).synced() {
                        assert forall|k: int| 0 <= k < self.children@.len() implies #[trigger] self.children@[k].spec_index() == k by {
                            assert(self.children@[k].spec_index() == self.indexes()[k]);
                            assert(old(self).children@[k].spec_index() == old(self).indexes()[k]);
                        }
                    }
                }
                ForeachAction::Nothing
            },
            Diff::Clear => {
                self.length = 0;
                ForeachAction::Nothing
            },
        }
    }

    /// Whether [`ForeachState::apply`] may be called with `d`.
    pub fn check(&self, d: Diff) -> (ok: bool)
        ensures
            ok == self.accepts(d),
    {
        let len = self.length;
        let n = self.children.len();
        match d {
            Diff::Insert(i) => {
                if !(i <= len && len <= n && len < usize::MAX) {
                    return false;
                }
                let mut j = i;
                while j < len
                    invariant
                        i <= j <= len <= n,
                        d == Diff::Insert(i),
                        n == self.children@.len(),
                        len == self.length,
                        forall|q: int| i <= q < j ==> shift_ok(#[trigger] self.children@[q].spec_index(), true),
                    decreases len - j,
                {
                    if self.children[j].index == isize::MAX as usize {
                        proof {
                            assert(!shift_ok(self.spec_children()[j as int].spec_index(), true));
                        }
                        return false;
                    }
                    j += 1;
                }
                true
            },
            Diff::Remove(i) => {
                if !(i < len && len <= n) {
                    return false;
                }
                let mut j = i + 1;
                while j < len
                    invariant
                        i < j <= len <= n,
                        d == Diff::Remove(i),
                        n == self.children@.len(),
                        len == self.length,
                        forall|q: int| i < q < j ==> shift_ok(#[trigger] self.children@[q].spec_index(), false),
                    decreases len - j,
                {
                    if self.children[j].index == isize::MAX as usize + 1 {
                        proof {
                            assert(!shift_ok(self.spec_children()[j as int].spec_index(), false));
                        }
                        return false;
                    }
                    j += 1;
                }
                true
            },
            Diff::Modify(i) => i < n,
            Diff::Clear => true,
        }
    }
}

/// A mirror in step with itself accepts every diff that a vector of its believed length can
/// send for one of its items, as long as positions stay below `isize::MAX`.
pub proof fn law_synced_accepts_following(m: ForeachState, d: Diff, new_len: int)
    requires
        m.synced(),
        follows(m.spec_length() as int, d, new_len),
        m.spec_length() < isize::MAX,
    ensures
        m.accepts(d),
{
    let ch = m.spec_children();
    match d {
        Diff::Insert(i) => {
            assert forall|j: int| i <= j < m.spec_length() implies shift_ok(#[trigger] ch[j].spec_index(), true) by {
                assert(ch[j].spec_index() == j);
            }
        },
        Diff::Remove(i) => {
            assert forall|j: int| i < j < m.spec_length() implies shift_ok(#[trigger] ch[j].spec_index(), false) by {
                assert(ch[j].spec_index() == j);
            }
        },
        _ => {},
    }
}

/// The mirror keeps following its source: a mirror in step with a source of `len0` items,
/// handed by [`ForeachState::apply`] one after the other the diffs `ds` that the source sent
/// while its length went through `lens` (each of [`TrackedVec`]'s `push`, `insert`, `remove`
/// and `get_mut` sends a diff that follows the lengths), stays in step and believes the
/// source's length.
pub proof fn law_mirror_follows_source(states: Seq<ForeachState>, ds: Seq<Diff>, len0: int, lens: Seq<int>)
    requires
        states.len() == ds.len() + 1,
        lens.len() == ds.len(),
        states[0].synced(),
        states[0].spec_length() == len0,
        forall|k: int| 0 <= k < ds.len() ==> #[trigger] apply_step(states[k], ds[k], states[k + 1]),
        forall|k: int| 0 <= k < ds.len() ==> follows(if k == 0 { len0 } else { lens[k - 1] }, #[trigger] ds[k], lens[k]),
    ensures
        states.last().synced(),
        states.last().spec_length() == if ds.len() == 0 { len0 } else { lens.last() },
    decreases ds.len(),
{
    if ds.len() > 0 {
        let n = ds.len() - 1;
        law_mirror_follows_source(states.drop_last(), ds.drop_last(), len0, lens.drop_last());
        assert(apply_step(states[n], ds[n], states[n + 1]));
        assert(follows(if n == 0 { len0 } else { lens[n - 1] }, ds[n], lens[n]));
        assert(states.drop_last().last() == states[n]);
    }
}

/// Every id kept by [`keep_live`] was among the given ids.
pub proof fn lemma_keep_live_subset(ids: Seq<u64>, dead: Seq<bool>)
    requires
        dead.len() == ids.len(),
    ensures
        keep_live(ids, dead).to_set().subset_of(ids.to_set()),
    decreases ids.len(),
{
    if ids.len() > 0 {
        let rest = ids.drop_last();
        lemma_keep_live_subset(rest, dead.take(ids.len() - 1));
        assert(ids =~= rest.push(ids.last()));
        rest.lemma_push_to_set_commute(ids.last());
        if !dead[ids.len() - 1] {
            keep_live(rest, dead.take(ids.len() - 1)).lemma_push_to_set_commute(ids.last());
        }
    } else {
        assert(keep_live(ids, dead).to_set() =~= Set::<u64>::empty());
    }
}

} // verus!
