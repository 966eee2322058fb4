//! Transitions out: when a group of children is to go away, every node in it that has a
//! transition plays it out, and each control node counts how many transitions it waits for
//! before its children can be despawned.

use crate::tree::Tree;
use std::collections::HashMap;
use vstd::prelude::*;

verus! {

broadcast use vstd::std_specs::hash::group_hash_axioms;

/// Which ways a node transitions.
#[derive(Clone, Copy, PartialEq, Eq, Structural, Debug)]
pub enum TransitionKind {
    In,
    Out,
    Bidirectional,
    InAndOut,
}

/// The way a transition runs: in raises the progress towards 1, out lowers it towards 0.
#[derive(Clone, Copy, PartialEq, Eq, Structural, Debug)]
pub enum TransitionDirection {
    In,
    Out,
}

/// The transition state of a node: its kind, the way it runs, and whether it is running
/// (and then the control node waiting for it, if any).
#[derive(Clone, Copy, PartialEq, Eq, Structural, Debug)]
pub struct TransitionNode {
    pub kind: TransitionKind,
    pub direction: Option<TransitionDirection>,
    pub active: Option<Option<u64>>,
}

/// A change to be made to the world.
#[derive(Clone, Copy, PartialEq, Eq, Structural, Debug)]
pub enum TransitionCommand {
    /// Set the direction of the node's progress.
    SetDirection(u64, Option<TransitionDirection>),
    /// The node's transition stops running.
    RemoveActive(u64),
    /// The node starts transitioning out from full progress; the control node waits for it.
    StartOut(u64, u64),
    /// The control node waits for this many transitions; when done it tells its parent
    /// control node, if any.
    SetBlocking(u64, usize, Option<u64>),
}

/// What happens to a node that is asked to transition out, and how many more transitions its
/// control node then waits for. A running transition that runs in turns around (or stops,
/// when it can only run in); one that is not running starts out.
pub open spec fn own_effect(trans: Map<u64, TransitionNode>, e: u64, cn: u64) -> (nat, Seq<TransitionCommand>) {
    if !trans.contains_key(e) {
        (0, Seq::empty())
    } else {
        let t = trans[e];
        if t.active is Some {
            if t.direction == Some(TransitionDirection::In) {
                if t.kind == TransitionKind::In {
                    (0, seq![TransitionCommand::SetDirection(e, None), TransitionCommand::RemoveActive(e)])
                } else {
                    (0, seq![TransitionCommand::SetDirection(e, Some(TransitionDirection::Out))])
                }
            } else {
                (0, Seq::empty())
            }
        } else {
            (1, seq![TransitionCommand::StartOut(e, cn)])
        }
    }
}

/// A running transition must have a direction: one without is a broken state, on which the
/// transition pass panics.
pub open spec fn own_ok(trans: Map<u64, TransitionNode>, e: u64) -> bool {
    trans.contains_key(e) && trans[e].active is Some ==> trans[e].direction is Some
}

impl Tree {
    /// Asks the children of `e` from position `i` on to transition out, `cn` being the
    /// control node that waits for them and `acc` the count so far. With `counting`, a
    /// control child that waits for something counts as one more transition.
    pub open spec fn out_kids(&self, trans: Map<u64, TransitionNode>, e: u64, i: nat, cn: u64, acc: nat, counting: bool)
        -> (nat, Seq<TransitionCommand>)
        decreases self.depth_left(e), 0nat, self.kids(e).len() - i,
        when self.wf() && self.nodes().contains(e)
    {
        if i >= self.kids(e).len() {
            (acc, Seq::empty())
        } else {
            let c = self.kids(e)[i as int];
            proof {
                self.lemma_kid_deeper(e, i as int);
            }
            let (acc1, cmds1) = if self.is_control(c) {
                let (waits, cmds) = self.out_cn(trans, c, Some(cn));
                (if counting && waits { acc + 1 } else { acc }, cmds)
            } else {
                self.out_n(trans, c, cn, acc)
            };
            let (acc2, cmds2) = self.out_kids(trans, e, i + 1, cn, acc1, counting);
            (acc2, cmds1 + cmds2)
        }
    }

    /// Asks the group under control node `e` to transition out. True when it waits for at
    /// least one transition; it then records how many and its parent control node.
    pub open spec fn out_cn(&self, trans: Map<u64, TransitionNode>, e: u64, parent_cn: Option<u64>) -> (bool, Seq<TransitionCommand>)
        decreases self.depth_left(e), 1nat, 0nat,
        when self.wf() && self.nodes().contains(e)
    {
        let (acc, cmds) = self.out_kids(trans, e, 0, e, 0, true);
        if acc == 0 {
            (false, cmds)
        } else {
            (true, cmds.push(TransitionCommand::SetBlocking(e, acc as usize, parent_cn)))
        }
    }

    /// Asks node `e` and everything below it to transition out for control node `cn`.
    pub open spec fn out_n(&self, trans: Map<u64, TransitionNode>, e: u64, cn: u64, acc: nat) -> (nat, Seq<TransitionCommand>)
        decreases self.depth_left(e), 1nat, 0nat,
        when self.wf() && self.nodes().contains(e)
    {
        let (extra, own) = own_effect(trans, e, cn);
        let (acc2, cmds) = self.out_kids(trans, e, 0, cn, acc + extra, false);
        (acc2, own + cmds)
    }

    /// No running transition without a direction is met among the children of `e` from
    /// position `i` on and below them.
    pub open spec fn out_ok_kids(&self, trans: Map<u64, TransitionNode>, e: u64, i: nat) -> bool
        decreases self.depth_left(e), self.kids(e).len() - i,
        when self.wf() && self.nodes().contains(e)
    {
        if i >= self.kids(e).len() {
            true
        } else {
            let c = self.kids(e)[i as int];
            proof {
                self.lemma_kid_deeper(e, i as int);
            }
            (self.is_control(c) || own_ok(trans, c)) && self.out_ok_kids(trans, c, 0) && self.out_ok_kids(trans, e, i + 1)
        }
    }
}

impl Tree {
    /// The number of nodes below the children of `e` from position `i` on, the children
    /// included, counted once per path.
    pub open spec fn sizes_from(&self, e: u64, i: nat) -> nat
        decreases self.depth_left(e), self.kids(e).len() - i,
        when self.wf() && self.nodes().contains(e)
    {
        if i >= self.kids(e).len() {
            0
        } else {
            proof {
                self.lemma_kid_deeper(e, i as int);
            }
            1 + self.sizes_from(self.kids(e)[i as int], 0) + self.sizes_from(e, i + 1)
        }
    }

    proof fn lemma_out_kids_bound(&self, trans: Map<u64, TransitionNode>, e: u64, i: nat, cn: u64, acc: nat, counting: bool)
        requires
            self.wf(),
            self.nodes().contains(e),
        ensures
            acc <= self.out_kids(trans, e, i, cn, acc, counting).0 <= acc + self.sizes_from(e, i),
        decreases self.depth_left(e), 0nat, self.kids(e).len() - i,
    {
        if i < self.kids(e).len() {
            self.lemma_kid_deeper(e, i as int);
            let c = self.kids(e)[i as int];
            if self.is_control(c) {
                let (waits, cmds) = self.out_cn(trans, c, Some(cn));
                let acc1 = if counting && waits { acc + 1 } else { acc };
                self.lemma_out_kids_bound(trans, e, i + 1, cn, acc1, counting);
            } else {
                self.lemma_out_n_bound(trans, c, cn, acc);
                let acc1 = self.out_n(trans, c, cn, acc).0;
                self.lemma_out_kids_bound(trans, e, i + 1, cn, acc1, counting);
            }
        }
    }

    proof fn lemma_out_n_bound(&self, trans: Map<u64, TransitionNode>, e: u64, cn: u64, acc: nat)
        requires
            self.wf(),
            self.nodes().contains(e),
        ensures
            acc <= self.out_n(trans, e, cn, acc).0 <= acc + 1 + self.sizes_from(e, 0),
        decreases self.depth_left(e), 1nat, 0nat,
    {
        let (extra, own) = own_effect(trans, e, cn);
        self.lemma_out_kids_bound(trans, e, 0, cn, acc + extra, false);
    }

    /// Asks the group under control node `e` to transition out, see [`Tree::out_cn`];
    /// the commands are appended to `cmds`. True when the group waits for a transition.
    pub fn trigger_transition_out_cn(&self, trans: &HashMap<u64, TransitionNode>, e: u64, parent_cn: Option<u64>,
        cmds: &mut Vec<TransitionCommand>) -> (waits: bool)
        requires
            self.wf(),
            self.nodes().contains(e),
            self.out_ok_kids(trans@, e, 0),
            self.sizes_from(e, 0) <= usize::MAX,
        ensures
            waits == self.out_cn(trans@, e, parent_cn).0,
            final(cmds)@ == old(cmds)@ + self.out_cn(trans@, e, parent_cn).1,
        decreases self.depth_left(e), 1nat,
    {
        let ghost start = cmds@;
        let acc = self.out_kids_exec(trans, e, e, 0, true, cmds);
        proof {
            self.lemma_out_kids_bound(trans@, e, 0, e, 0, true);
        }
        if acc == 0 {
            false
        } else {
            let ghost mid = cmds@;
            cmds.push(TransitionCommand::SetBlocking(e, acc, parent_cn));
            proof {
                assert(cmds@ =~= start + self.out_kids(trans@, e, 0, e, 0, true).1.push(
                    TransitionCommand::SetBlocking(e, acc, parent_cn)));
            }
            true
        }
    }

    /// Asks node `e` and everything below it to transition out for control node `cn`, see
    /// [`Tree::out_n`]; the commands are appended to `cmds` and the count is raised in `acc`.
    pub fn trigger_transition_out_n(&self, trans: &HashMap<u64, TransitionNode>, e: u64, cn: u64, acc: &mut usize,
        cmds: &mut Vec<TransitionCommand>)
        requires
            self.wf(),
            self.nodes().contains(e),
            own_ok(trans@, e),
            self.out_ok_kids(trans@, e, 0),
            *old(acc) + 1 + self.sizes_from(e, 0) <= usize::MAX,
        ensures
            *final(acc) as nat == self.out_n(trans@, e, cn, *old(acc) as nat).0,
            final(cmds)@ == old(cmds)@ + self.out_n(trans@, e, cn, *old(acc) as nat).1,
        decreases self.depth_left(e), 1nat,
    {
        let ghost start = cmds@;
        match trans.get(&e) {
            Some(t) => {
                match t.active {
                    Some(_) => {
                        match t.direction {
                            Some(TransitionDirection::In) => {
                                match t.kind {
                                    TransitionKind::In => {
                                        cmds.push(TransitionCommand::SetDirection(e, None));
                                        cmds.push(TransitionCommand::RemoveActive(e));
                                    },
                                    _ => {
                                        cmds.push(TransitionCommand::SetDirection(e, Some(TransitionDirection::Out)));
                                    },
                                }
                            },
                            _ => {},
                        }
                    },
                    None => {
                        cmds.push(TransitionCommand::StartOut(e, cn));
                        *acc = *acc + 1;
                    },
                }
            },
            None => {},
        }
        let ghost mid = cmds@;
        proof {
            assert(mid =~= start + own_effect(trans@, e, cn).1);
            assert(*acc == *old(acc) + own_effect(trans@, e, cn).0);
        }
        let a = self.out_kids_exec(trans, e, cn, *acc, false, cmds);
        *acc = a;
        proof {
            assert(cmds@ =~= start + (own_effect(trans@, e, cn).1 + self.out_kids(trans@, e, 0, cn, (*old(acc) + own_effect(trans@, e, cn).0) as nat, false).1));
        }
    }

    fn out_kids_exec(&self, trans: &HashMap<u64, TransitionNode>, e: u64, cn: u64, acc: usize, counting: bool,
        cmds: &mut Vec<TransitionCommand>) -> (r: usize)
        requires
            self.wf(),
            self.nodes().contains(e),
            self.out_ok_kids(trans@, e, 0),
            acc + self.sizes_from(e, 0) <= usize::MAX,
        ensures
            r as nat == self.out_kids(trans@, e, 0, cn, acc as nat, counting).0,
            final(cmds)@ == old(cmds)@ + self.out_kids(trans@, e, 0, cn, acc as nat, counting).1,
        decreases self.depth_left(e), 0nat,
    {
        let ghost start = cmds@;
        let ghost goal = self.out_kids(trans@, e, 0, cn, acc as nat, counting);
        let kids = self.kids_of(e);
        let mut acc = acc;
        let mut i: usize = 0;
        proof {
            assert(cmds@ =~= start + Seq::<TransitionCommand>::empty());
        }
        while i < kids.len()
            invariant
                self.wf(),
                self.nodes().contains(e),
                kids@ == self.kids(e),
                0 <= i <= kids@.len(),
                self.out_ok_kids(trans@, e, i as nat),
                acc + self.sizes_from(e, i as nat) <= usize::MAX,
                goal.0 == self.out_kids(trans@, e, i as nat, cn, acc as nat, counting).0,
                start + goal.1 == cmds@ + self.out_kids(trans@, e, i as nat, cn, acc as nat, counting).1,
            decreases kids@.len() - i,
        {
            let c = kids[i];
            let ghost before = cmds@;
            let ghost acc0 = acc;
            proof {
                self.lemma_kid_deeper(e, i as int);
            }
            if self.is_control_node(c) {
                let waits = self.trigger_transition_out_cn(trans, c, Some(cn), cmds);
                if counting && waits {
                    acc = acc + 1;
                }
            } else {
                proof {
                    self.lemma_out_n_bound(trans@, c, cn, acc as nat);
                }
                self.trigger_transition_out_n(trans, c, cn, &mut acc, cmds);
            }
            proof {
                let (acc1, cmds1) = if self.is_control(c) {
                    let (w, cs) = self.out_cn(trans@, c, Some(cn));
                    (if counting && w { (acc0 + 1) as nat } else { acc0 as nat }, cs)
                } else {
                    self.out_n(trans@, c, cn, acc0 as nat)
                };
                assert(acc1 == acc);
                assert(cmds@ == before + cmds1);
                let rest = self.out_kids(trans@, e, (i + 1) as nat, cn, acc1, counting);
                assert(self.out_kids(trans@, e, i as nat, cn, acc0 as nat, counting) == (rest.0, cmds1 + rest.1));
                assert(before + (cmds1 + rest.1) =~= cmds@ + rest.1);
            }
            i += 1;
        }
        proof {
            assert(self.out_kids(trans@, e, i as nat, cn, acc as nat, counting).1 =~= Seq::<TransitionCommand>::empty());
            assert(cmds@ + Seq::<TransitionCommand>::empty() =~= cmds@);
        }
        acc
    }
}

impl Tree {
    /// What a node asked to transition out does before its children are asked: a running
    /// transition that runs in turns around to run out when its kind can run out (`Out`,
    /// `Bidirectional`, `InAndOut`), and is stopped when its kind can only run in; a
    /// transition that is not running starts out and is counted for the control node; a node
    /// without a transition does nothing itself. The children follow, with the count so far.
    pub proof fn law_transition_out_of_a_node(&self, trans: Map<u64, TransitionNode>, e: u64, cn: u64, acc: nat)
        requires
            self.wf(),
            self.nodes().contains(e),
        ensures
            !trans.contains_key(e) ==> self.out_n(trans, e, cn, acc) == self.out_kids(trans, e, 0, cn, acc, false),
            trans.contains_key(e) && trans[e].active is None ==> self.out_n(trans, e, cn, acc) == ({
                let rest = self.out_kids(trans, e, 0, cn, acc + 1, false);
                (rest.0, seq![TransitionCommand::StartOut(e, cn)] + rest.1)
            }),
            trans.contains_key(e) && trans[e].active is Some && trans[e].direction == Some(TransitionDirection::In)
                && trans[e].kind != TransitionKind::In ==> self.out_n(trans, e, cn, acc) == ({
                let rest = self.out_kids(trans, e, 0, cn, acc, false);
                (rest.0, seq![TransitionCommand::SetDirection(e, Some(TransitionDirection::Out))] + rest.1)
            }),
            trans.contains_key(e) && trans[e].active is Some && trans[e].direction == Some(TransitionDirection::In)
                && trans[e].kind == TransitionKind::In ==> self.out_n(trans, e, cn, acc) == ({
                let rest = self.out_kids(trans, e, 0, cn, acc, false);
                (rest.0, seq![TransitionCommand::SetDirection(e, None), TransitionCommand::RemoveActive(e)] + rest.1)
            }),
            trans.contains_key(e) && trans[e].active is Some && trans[e].direction == Some(TransitionDirection::Out)
                ==> self.out_n(trans, e, cn, acc) == self.out_kids(trans, e, 0, cn, acc, false),
    {
        let rest = self.out_kids(trans, e, 0, cn, acc, false);
        assert(Seq::<TransitionCommand>::empty() + rest.1 =~= rest.1);
    }
}

/// How a running transition advances this frame.
#[derive(Clone, Copy, PartialEq, Eq, Structural, Debug)]
pub enum ProgressRate {
    /// Raise the progress over the inward duration.
    In,
    /// Lower the progress over the outward duration.
    Out,
    /// The transition cannot run this way: leave it as it is.
    Skip,
}

/// Which duration drives a transition of `kind` running in `direction`: a kind that cannot
/// run that way is skipped.
pub open spec fn rate_of(kind: TransitionKind, direction: TransitionDirection) -> ProgressRate {
    match direction {
        TransitionDirection::In => match kind {
            TransitionKind::In | TransitionKind::Bidirectional | TransitionKind::InAndOut => ProgressRate::In,
            TransitionKind::Out => ProgressRate::Skip,
        },
        TransitionDirection::Out => match kind {
            TransitionKind::Out | TransitionKind::Bidirectional | TransitionKind::InAndOut => ProgressRate::Out,
            TransitionKind::In => ProgressRate::Skip,
        },
    }
}

/// The rate of a running transition, see [`rate_of`].
pub fn progress_rate(kind: TransitionKind, direction: TransitionDirection) -> (r: ProgressRate)
    ensures
        r == rate_of(kind, direction),
{
    match (kind, direction) {
        (TransitionKind::In, TransitionDirection::In) | (TransitionKind::Bidirectional, TransitionDirection::In) => ProgressRate::In,
        (TransitionKind::Out, TransitionDirection::Out) | (TransitionKind::Bidirectional, TransitionDirection::Out) => ProgressRate::Out,
        (TransitionKind::InAndOut, TransitionDirection::In) => ProgressRate::In,
        (TransitionKind::InAndOut, TransitionDirection::Out) => ProgressRate::Out,
        _ => ProgressRate::Skip,
    }
}

/// The control nodes that wait for transitions: how many each waits for, and the control
/// node above it that waits for it.
pub open spec fn waiting(m: Map<u64, (usize, Option<u64>)>) -> Set<u64> {
    m.dom().filter(|k: u64| m[k].0 > 0)
}

/// One finished transition, reported to control node `c`: its count goes down; when it
/// reaches zero the report goes on to the parent control node, and at the top the control
/// node's children are to be despawned. Gives the new counts, the control node whose
/// children go, and whether every count met was positive (a pass that meets a zero count panics).
pub open spec fn climb(m: Map<u64, (usize, Option<u64>)>, c: u64) -> (Map<u64, (usize, Option<u64>)>, Option<u64>, bool)
    decreases waiting(m).len(),
    when m.dom().finite()
{
    if !m.contains_key(c) || m[c].0 == 0 {
        (m, None, false)
    } else {
        let n = (m[c].0 - 1) as usize;
        let m2 = m.insert(c, (n, m[c].1));
        if n > 0 {
            (m2, None, true)
        } else {
            match m[c].1 {
                None => (m2, Some(c), true),
                Some(p) => {
                    proof {
                        lemma_waiting_shrinks(m, c);
                    }
                    climb(m2, p)
                },
            }
        }
    }
}

/// Bringing a count from one to zero takes its node out of the waiting ones.
pub proof fn lemma_waiting_shrinks(m: Map<u64, (usize, Option<u64>)>, c: u64)
    requires
        m.dom().finite(),
        m.contains_key(c),
        m[c].0 == 1,
    ensures
        waiting(m.insert(c, (0usize, m[c].1))).len() < waiting(m).len(),
        m.insert(c, (0usize, m[c].1)).dom().finite(),
{
    let m2 = m.insert(c, (0usize, m[c].1));
    assert(waiting(m2) =~= waiting(m).remove(c));
    assert(waiting(m).contains(c));
    vstd::set_lib::lemma_len_subset(waiting(m), m.dom());
}

/// The counts of the control nodes that wait for transitions.
pub struct BlockingCounts {
    counts: HashMap<u64, (usize, Option<u64>)>,
}

impl BlockingCounts {
    pub closed spec fn view_counts(&self) -> Map<u64, (usize, Option<u64>)> {
        self.counts@
    }

    /// No control node waits.
    pub fn new() -> (b: BlockingCounts)
        ensures
            b.view_counts() == Map::<u64, (usize, Option<u64>)>::empty(),
    {
        BlockingCounts { counts: HashMap::new() }
    }

    /// Records that `e` waits for `count` transitions, under `parent`.
    pub fn set(&mut self, e: u64, count: usize, parent: Option<u64>)
        ensures
            final(self).view_counts() == old(self).view_counts().insert(e, (count, parent)),
    {
        self.counts.insert(e, (count, parent));
    }

    /// Whether a report of one finished transition to `cn` meets only positive counts on its
    /// way up, so that [`BlockingCounts::recursive_cn_climb`] may be called.
    pub fn can_climb(&self, cn: u64) -> (ok: bool)
        ensures
            ok == climb(self.view_counts(), cn).2,
    {
        let mut counts = self.counts.clone();
        let mut cur = cn;
        loop
            invariant
                counts@.dom().finite(),
                climb(counts@, cur).2 == climb(self.counts@, cn).2,
            decreases waiting(counts@).len(),
        {
            let entry = counts.get(&cur);
            let (count, parent) = match entry {
                Some(e) => *e,
                None => {
                    return false;
                },
            };
            if count == 0 {
                return false;
            }
            let n = count - 1;
            let ghost m = counts@;
            counts.insert(cur, (n, parent));
            if n > 0 {
                return true;
            }
            match parent {
                None => {
                    return true;
                },
                Some(p) => {
                    proof {
                        lemma_waiting_shrinks(m, cur);
                    }
                    cur = p;
                },
            }
        }
    }

    /// Reports one finished transition to control node `cn`, see [`climb`]. Returns the
    /// control node whose children are to be despawned, if the report reached the top.
    pub fn recursive_cn_climb(&mut self, cn: u64) -> (top: Option<u64>)
        requires
            climb(old(self).view_counts(), cn).2,
        ensures
            final(self).view_counts() == climb(old(self).view_counts(), cn).0,
            top == climb(old(self).view_counts(), cn).1,
    {
        let mut cur = cn;
        loop
            invariant
                self.counts@.dom().finite(),
                climb(self.counts@, cur).2,
                climb(self.counts@, cur).0 == climb(old(self).counts@, cn).0,
                climb(self.counts@, cur).1 == climb(old(self).counts@, cn).1,
            decreases waiting(self.counts@).len(),
        {
            let (count, parent) = *self.counts.get(&cur).unwrap();
            let n = count - 1;
            let ghost m = self.counts@;
            self.counts.insert(cur, (n, parent));
            if n > 0 {
                return None;
            }
            match parent {
                None => {
                    return Some(cur);
                },
                Some(p) => {
                    proof {
                        lemma_waiting_shrinks(m, cur);
                    }
                    cur = p;
                },
            }
        }
    }
}

} // verus!
