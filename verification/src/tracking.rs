//! A vector that tells its subscribers about every change made to it.

use vstd::prelude::*;

verus! {

#[verifier::external_type_specification]
#[verifier::external_body]
#[verifier::reject_recursive_types(T)]
pub struct ExSender<T>(crossbeam_channel::Sender<T>);

#[verifier::external_type_specification]
#[verifier::external_body]
#[verifier::reject_recursive_types(T)]
pub struct ExReceiver<T>(crossbeam_channel::Receiver<T>);

/// `crossbeam_channel::unbounded`: a fresh channel without capacity limit. Nothing is said
/// of the two ends beyond their types.
#[verifier::external_body]
fn diff_channel() -> (crossbeam_channel::Sender<Diff>, crossbeam_channel::Receiver<Diff>) {
    crossbeam_channel::unbounded()
}

/// `Sender::send`: hands the diff to the channel; `true` when it was accepted, `false` when
/// the receiving end is gone. Which of the two happens depends on the receiver, so nothing
/// is promised of the answer.
#[verifier::external_body]
fn send_diff(tx: &crossbeam_channel::Sender<Diff>, d: Diff) -> bool {
    tx.send(d).is_ok()
}

/// `Receiver::try_iter`, collected: the diffs that wait in the channel, oldest first. What
/// waits depends on the senders, so nothing is promised of the result.
#[verifier::external_body]
pub(crate) fn receive_diffs(rx: &crossbeam_channel::Receiver<Diff>) -> Vec<Diff> {
    rx.try_iter().collect()
}

/// One change of a tracked collection, as its subscribers see it.
#[derive(Clone, Copy, PartialEq, Eq, Structural, Debug)]
pub enum Diff {
    /// The item at this position may have changed.
    Modify(usize),
    /// The item at this position was removed.
    Remove(usize),
    /// An item was inserted at this position.
    Insert(usize),
    /// Every item was removed.
    Clear,
}

/// A change of one item that a mirror of `len` items can follow position by position,
/// leaving `new_len` items.
pub open spec fn follows(len: int, d: Diff, new_len: int) -> bool {
    match d {
        Diff::Modify(i) => 0 <= i < len && new_len == len,
        Diff::Remove(i) => 0 <= i < len && new_len == len - 1,
        Diff::Insert(i) => 0 <= i <= len && new_len == len + 1,
        Diff::Clear => false,
    }
}

/// `kept` is `s` with some of its elements left out, the others in their order.
pub open spec fn kept_from<A>(s: Seq<A>, kept: Seq<A>) -> bool {
    exists|keep: Seq<bool>| #![trigger masked(s, keep)] keep.len() == s.len() && kept == masked(s, keep)
}

/// Identifies one tracked collection.
#[derive(Clone, Copy, PartialEq, Eq, Structural, Debug)]
pub struct TrackedId(pub u32);

/// Hands out tracked ids, counting up and wrapping around after `u32::MAX`.
pub struct TrackedIdCounter {
    next: u32,
}

impl TrackedIdCounter {
    pub closed spec fn spec_next(&self) -> u32 {
        self.next
    }

    /// A counter whose first id is 0.
    pub fn new() -> (c: TrackedIdCounter)
        ensures
            c.spec_next() == 0,
    {
        TrackedIdCounter { next: 0 }
    }

    /// The next id.
    pub fn fresh(&mut self) -> (id: TrackedId)
        ensures
            id == TrackedId(old(self).spec_next()),
            final(self).spec_next() == (if old(self).spec_next() == u32::MAX {
                0
            } else {
                old(self).spec_next() + 1
            }),
    {
        let id = TrackedId(self.next);
        self.next = if self.next == u32::MAX { 0 } else { self.next + 1 };
        id
    }
}

/// A vector whose changes are sent, as [`Diff`]s, to every subscriber.
pub struct TrackedVec<T> {
    inner: Vec<T>,
    id: TrackedId,
    update_out: Vec<crossbeam_channel::Sender<Diff>>,
    sent: Ghost<Seq<Diff>>,
    handed: Ghost<Seq<crossbeam_channel::Receiver<Diff>>>,
}

impl<T> View for TrackedVec<T> {
    type V = Seq<T>;

    closed spec fn view(&self) -> Seq<T> {
        self.inner@
    }
}

/// The elements of `s` whose `keep` entry is true, in their order.
pub open spec fn masked<A>(s: Seq<A>, keep: Seq<bool>) -> Seq<A>
    decreases s.len(),
{
    if s.len() == 0 {
        Seq::empty()
    } else {
        let rest = masked(s.drop_last(), keep.take(s.len() - 1));
        if keep[s.len() - 1] {
            rest.push(s.last())
        } else {
            rest
        }
    }
}

impl<T> TrackedVec<T> {
    /// Every diff this vector has handed to its subscribers, oldest first.
    pub closed spec fn sent(&self) -> Seq<Diff> {
        self.sent@
    }

    /// The channels that subscribers listen on.
    pub closed spec fn subscribers(&self) -> Seq<crossbeam_channel::Sender<Diff>> {
        self.update_out@
    }

    pub closed spec fn spec_id(&self) -> TrackedId {
        self.id
    }

    /// The receiving ends handed out by [`TrackedVec::register`], oldest first.
    pub closed spec fn receivers(&self) -> Seq<crossbeam_channel::Receiver<Diff>> {
        self.handed@
    }

    /// An empty vector with the given identity and no subscriber.
    pub fn new(id: TrackedId) -> (v: TrackedVec<T>)
        ensures
            v@ == Seq::<T>::empty(),
            v.sent() == Seq::<Diff>::empty(),
            v.subscribers().len() == 0,
            v.spec_id() == id,
            v.receivers().len() == 0,
    {
        TrackedVec { inner: Vec::new(), id, update_out: Vec::new(), sent: Ghost(Seq::empty()), handed: Ghost(Seq::empty()) }
    }

    /// Sends `msg` to every subscriber and forgets those whose receiving end is gone.
    fn send_msg(&mut self, msg: Diff)
        ensures
            final(self)@ == old(self)@,
            final(self).spec_id() == old(self).spec_id(),
            final(self).sent() == old(self).sent().push(msg),
            final(self).receivers() == old(self).receivers(),
            kept_from(old(self).subscribers(), final(self).subscribers()),
    {
        let mut keep: Vec<bool> = Vec::new();
        let mut i: usize = 0;
        while i < self.update_out.len()
            invariant
                0 <= i <= self.update_out.len(),
                keep@.len() == i,
            decreases self.update_out.len() - i,
        {
            let ok = send_diff(&self.update_out[i], msg);
            keep.push(ok);
            i += 1;
        }
        let ghost old_out = self.update_out@;
        let mut out: Vec<crossbeam_channel::Sender<Diff>> = Vec::new();
        std::mem::swap(&mut out, &mut self.update_out);
        self.update_out = keep_masked(out, &keep);
        self.sent = Ghost(self.sent@.push(msg));
        proof {
            assert(old_out == old(self).update_out@);
            assert(masked(old(self).subscribers(), keep@) == self.subscribers());
        }
    }

    /// Appends `val`; subscribers are told `Insert` at the old length.
    pub fn push(&mut self, val: T)
        ensures
            final(self)@ == old(self)@.push(val),
            final(self).sent() == old(self).sent().push(Diff::Insert(old(self)@.len() as usize)),
            kept_from(old(self).subscribers(), final(self).subscribers()),
            final(self).receivers() == old(self).receivers(),
            final(self).spec_id() == old(self).spec_id(),
            follows(old(self)@.len() as int, Diff::Insert(old(self)@.len() as usize), final(self)@.len() as int),
    {
        let len = self.inner.len();
        self.send_msg(Diff::Insert(len));
        self.inner.push(val);
    }

    /// Removes and returns the last item, if any; subscribers are told `Remove` at the new
    /// length, also when there was nothing to remove.
    pub fn pop(&mut self) -> (out: Option<T>)
        ensures
            old(self)@.len() == 0 ==> out is None && final(self)@ == old(self)@,
            old(self)@.len() > 0 ==> out == Some(old(self)@.last()) && final(self)@
                == old(self)@.drop_last(),
            final(self).sent() == old(self).sent().push(Diff::Remove(final(self)@.len() as usize)),
            kept_from(old(self).subscribers(), final(self).subscribers()),
            final(self).receivers() == old(self).receivers(),
            final(self).spec_id() == old(self).spec_id(),
            old(self)@.len() > 0 ==> follows(
                old(self)@.len() as int,
                Diff::Remove(final(self)@.len() as usize),
                final(self)@.len() as int,
            ),
    {
        let out = self.inner.pop();
        let len = self.inner.len();
        self.send_msg(Diff::Remove(len));
        out
    }

    /// Gives mutable access to the item at `i`; subscribers are told `Modify(i)`.
    pub fn get_mut(&mut self, i: usize) -> (r: &mut T)
        requires
            i < old(self)@.len(),
        ensures
            *r == old(self)@[i as int],
            final(self)@ == old(self)@.update(i as int, *final(r)),
            final(self).sent() == old(self).sent().push(Diff::Modify(i)),
            kept_from(old(self).subscribers(), final(self).subscribers()),
            final(self).receivers() == old(self).receivers(),
            final(self).spec_id() == old(self).spec_id(),
            follows(old(self)@.len() as int, Diff::Modify(i), old(self)@.len() as int),
    {
        self.send_msg(Diff::Modify(i));
        &mut self.inner[i]
    }

    /// Removes and returns the item at `i`; subscribers are told `Remove(i)`.
    pub fn remove(&mut self, i: usize) -> (out: T)
        requires
            i < old(self)@.len(),
        ensures
            out == old(self)@[i as int],
            final(self)@ == old(self)@.remove(i as int),
            final(self).sent() == old(self).sent().push(Diff::Remove(i)),
            kept_from(old(self).subscribers(), final(self).subscribers()),
            final(self).receivers() == old(self).receivers(),
            final(self).spec_id() == old(self).spec_id(),
            follows(old(self)@.len() as int, Diff::Remove(i), final(self)@.len() as int),
    {
        self.send_msg(Diff::Remove(i));
        self.inner.remove(i)
    }

    /// Inserts `val` at `i`; subscribers are told `Insert(i)`.
    pub fn insert(&mut self, val: T, i: usize)
        requires
            i <= old(self)@.len(),
        ensures
            final(self)@ == old(self)@.insert(i as int, val),
            final(self).sent() == old(self).sent().push(Diff::Insert(i)),
            kept_from(old(self).subscribers(), final(self).subscribers()),
            final(self).receivers() == old(self).receivers(),
            final(self).spec_id() == old(self).spec_id(),
            follows(old(self)@.len() as int, Diff::Insert(i), final(self)@.len() as int),
    {
        self.send_msg(Diff::Insert(i));
        self.inner.insert(i, val);
    }

    /// Removes every item; subscribers are told `Clear`.
    pub fn clear(&mut self)
        ensures
            final(self)@ == Seq::<T>::empty(),
            final(self).sent() == old(self).sent().push(Diff::Clear),
            kept_from(old(self).subscribers(), final(self).subscribers()),
            final(self).receivers() == old(self).receivers(),
            final(self).spec_id() == old(self).spec_id(),
    {
        self.send_msg(Diff::Clear);
        self.inner.clear();
    }

    /// Adds a subscriber and returns the end it receives diffs on. Diffs sent before the
    /// call do not reach it.
    pub fn register(&mut self) -> (rx: crossbeam_channel::Receiver<Diff>)
        ensures
            final(self)@ == old(self)@,
            final(self).sent() == old(self).sent(),
            final(self).spec_id() == old(self).spec_id(),
            final(self).subscribers().len() == old(self).subscribers().len() + 1,
            final(self).subscribers().drop_last() == old(self).subscribers(),
            final(self).receivers() == old(self).receivers().push(rx),
    {
        let (tx, rx) = diff_channel();
        self.update_out.push(tx);
        self.handed = Ghost(self.handed@.push(rx));
        proof {
            assert(self.update_out@.drop_last() =~= old(self).update_out@);
        }
        rx
    }

    /// The identity of this vector.
    pub fn id(&self) -> (id: TrackedId)
        ensures
            id == self.spec_id(),
    {
        self.id
    }

    /// The item at `index`.
    pub fn get(&self, index: usize) -> (r: &T)
        requires
            index < self@.len(),
        ensures
            *r == self@[index as int],
    {
        &self.inner[index]
    }

    /// The number of items.
    pub fn len(&self) -> (n: usize)
        ensures
            n == self@.len(),
    {
        self.inner.len()
    }

    /// The items, in order.
    pub fn as_slice(&self) -> (s: &[T])
        ensures
            s@ == self@,
    {
        self.inner.as_slice()
    }
}

/// The elements of `v` whose `keep` entry is true, in their order.
fn keep_masked<A>(v: Vec<A>, keep: &Vec<bool>) -> (r: Vec<A>)
    requires
        keep@.len() == v@.len(),
    ensures
        r@ == masked(v@, keep@),
{
    let mut v = v;
    let mut rev: Vec<A> = Vec::new();
    let ghost orig = v@;
    proof {
        assert(keep@.take(v@.len() as int) =~= keep@);
        assert(orig.take(v@.len() as int) =~= orig);
        assert(masked(v@, keep@.take(v@.len() as int)) + rev@.reverse() =~= masked(orig, keep@));
    }
    // Take the elements from the back, keeping the wanted ones, then restore the order.
    while v.len() > 0
        invariant
            keep@.len() == orig.len(),
            v@ == orig.take(v@.len() as int),
            v@.len() <= orig.len(),
            masked(orig, keep@) == masked(v@, keep@.take(v@.len() as int)) + rev@.reverse(),
        decreases v.len(),
    {
        let ghost before_v = v@;
        let ghost before_rev = rev@;
        let n = v.len();
        let x = v.pop().unwrap();
        proof {
            assert(before_v.drop_last() =~= v@);
            assert(keep@.take(n as int).take(n - 1) =~= keep@.take(n - 1));
            assert(keep@.take(n as int)[n - 1] == keep@[n - 1]);
        }
        if keep[n - 1] {
            rev.push(x);
            proof {
                assert(rev@.reverse() =~= seq![x] + before_rev.reverse());
                assert(masked(before_v, keep@.take(n as int)) == masked(v@, keep@.take(n - 1)).push(x));
                assert(masked(v@, keep@.take(n - 1)).push(x) + before_rev.reverse()
                    =~= masked(v@, keep@.take(n - 1)) + rev@.reverse());
            }
        } else {
            proof {
                assert(masked(before_v, keep@.take(n as int)) == masked(v@, keep@.take(n - 1)));
            }
        }
        proof {
            assert(v@ =~= orig.take(v@.len() as int));
        }
    }
    proof {
        assert(masked(v@, keep@.take(0)) =~= Seq::<A>::empty());
        assert(masked(orig, keep@) =~= rev@.reverse());
    }
    let mut r: Vec<A> = Vec::new();
    while rev.len() > 0
        invariant
            r@ + rev@.reverse() == masked(orig, keep@),
        decreases rev.len(),
    {
        let ghost before_rev = rev@;
        let ghost before_r = r@;
        let x = rev.pop().unwrap();
        r.push(x);
        proof {
            assert(before_rev.reverse() =~= seq![x] + rev@.reverse());
            assert(r@ + rev@.reverse() =~= before_r + before_rev.reverse());
        }
    }
    proof {
        assert(r@ + rev@.reverse() =~= r@);
    }
    r
}

} // verus!
