//! The node hierarchy seen by layout: control nodes group children without being laid out
//! themselves, so every query looks through them.

use std::collections::{HashMap, HashSet};
use vstd::prelude::*;

verus! {

broadcast use vstd::std_specs::hash::group_hash_axioms;

/// A node that takes part in layout.
#[derive(Clone, Copy, PartialEq, Eq, Structural, Debug)]
pub struct NodeEntity(pub u64);

impl NodeEntity {
    /// The entity of this node.
    pub fn entity(&self) -> (e: u64)
        ensures
            e == self.0,
    {
        self.0
    }
}

/// The hierarchy below a root: the parent of each node, the children of each node in
/// order, and which nodes are control nodes. Every node has a ghost rank that grows from
/// parent to child, which is what makes every walk through the tree end.
pub struct Tree {
    root: u64,
    parents: HashMap<u64, u64>,
    children: HashMap<u64, Vec<u64>>,
    controls: HashSet<u64>,
    rank: Ghost<Map<u64, nat>>,
    count: Ghost<nat>,
}

impl Tree {
    pub closed spec fn spec_root(&self) -> u64 {
        self.root
    }

    /// The nodes of the tree.
    pub closed spec fn nodes(&self) -> Set<u64> {
        self.rank@.dom()
    }

    /// The children of `e`, in order; none when `e` has no children.
    pub closed spec fn kids(&self, e: u64) -> Seq<u64> {
        if self.children@.contains_key(e) {
            self.children@[e]@
        } else {
            Seq::empty()
        }
    }

    /// The parent of `e`, control node or not.
    pub closed spec fn raw_parent(&self, e: u64) -> Option<u64> {
        if self.parents@.contains_key(e) {
            Some(self.parents@[e])
        } else {
            None
        }
    }

    pub closed spec fn is_control(&self, e: u64) -> bool {
        self.controls@.contains(e)
    }

    pub closed spec fn rank_of(&self, e: u64) -> nat {
        self.rank@[e]
    }

    pub closed spec fn depth_left(&self, e: u64) -> int {
        self.count@ - self.rank@[e]
    }

    /// Ranks grow from parent to child and stay below the count; the root is a node.
    pub closed spec fn wf(&self) -> bool {
        &&& self.rank@.contains_key(self.root)
        &&& !self.parents@.contains_key(self.root)
        &&& forall|e: u64| #[trigger] self.rank@.contains_key(e) ==> self.rank@[e] < self.count@
        &&& forall|c: u64| #[trigger] self.parents@.contains_key(c) ==> self.rank@.contains_key(c)
            && self.rank@.contains_key(self.parents@[c]) && self.rank@[self.parents@[c]] < self.rank@[c]
        &&& forall|e: u64| #[trigger] self.children@.contains_key(e) ==> self.rank@.contains_key(e)
            && forall|i: int| 0 <= i < self.children@[e]@.len() ==> self.rank@.contains_key(
                #[trigger] self.children@[e]@[i],
            ) && self.rank@[self.children@[e]@[i]] > self.rank@[e]
        &&& forall|e: u64, i: int| #![trigger self.children@[e]@[i]] self.children@.contains_key(e) && 0 <= i < self.children@[e]@.len()
            ==> self.parents@.contains_key(self.children@[e]@[i]) && self.parents@[self.children@[e]@[i]] == e
        &&& forall|e: u64| #[trigger] self.children@.contains_key(e) ==> self.children@[e]@.no_duplicates()
    }

    /// The nodes below `e`'s children from position `i` on, in depth-first order, with the
    /// control nodes left out.
    pub open spec fn flat_from(&self, e: u64, i: nat) -> Seq<u64>
        decreases self.depth_left(e), self.kids(e).len() - i,
        when self.wf() && self.nodes().contains(e)
    {
        if i >= self.kids(e).len() {
            Seq::empty()
        } else {
            let c = self.kids(e)[i as int];
            (if self.is_control(c) { Seq::empty() } else { seq![c] }) + self.flat_from(c, 0) + self.flat_from(e, i + 1)
        }
    }

    /// The children of `e` from position `i` on as layout sees them: a control child is
    /// replaced by its own children, recursively.
    pub open spec fn layout_kids_from(&self, e: u64, i: nat) -> Seq<u64>
        decreases self.depth_left(e), self.kids(e).len() - i,
        when self.wf() && self.nodes().contains(e)
    {
        if i >= self.kids(e).len() {
            Seq::empty()
        } else {
            let c = self.kids(e)[i as int];
            (if self.is_control(c) { self.layout_kids_from(c, 0) } else { seq![c] }) + self.layout_kids_from(e, i + 1)
        }
    }

    /// The number of steps a child iteration takes over `e`'s children from position `i` on.
    pub open spec fn visits_from(&self, e: u64, i: nat) -> nat
        decreases self.depth_left(e), self.kids(e).len() - i,
        when self.wf() && self.nodes().contains(e)
    {
        if i >= self.kids(e).len() {
            0
        } else {
            let c = self.kids(e)[i as int];
            1 + (if self.is_control(c) { self.visits_from(c, 0) } else { 0 }) + self.visits_from(e, i + 1)
        }
    }

    /// The parent of `e` as layout sees it: the nearest ancestor that is not a control node.
    pub open spec fn layout_parent(&self, e: u64) -> Option<u64>
        decreases self.rank_of(e),
        when self.wf() && self.nodes().contains(e)
    {
        match self.raw_parent(e) {
            None => None,
            Some(p) => if self.is_control(p) { self.layout_parent(p) } else { Some(p) },
        }
    }

    /// `e` is first among its parent's children, and so is every control node between it and
    /// its layout parent.
    pub open spec fn first_child(&self, e: u64) -> bool
        decreases self.rank_of(e),
        when self.wf() && self.nodes().contains(e)
    {
        match self.raw_parent(e) {
            None => false,
            Some(p) => (!self.is_control(p) || self.first_child(p)) && self.kids(p).len() > 0
                && self.kids(p)[0] == e,
        }
    }

    /// `e` is last among its parent's children, and so is every control node between it and
    /// its layout parent.
    pub open spec fn last_child(&self, e: u64) -> bool
        decreases self.rank_of(e),
        when self.wf() && self.nodes().contains(e)
    {
        match self.raw_parent(e) {
            None => false,
            Some(p) => (!self.is_control(p) || self.last_child(p)) && self.kids(p).len() > 0
                && self.kids(p).last() == e,
        }
    }

    /// A child is a node of the tree, deeper than its parent.
    pub proof fn lemma_kid_deeper(&self, e: u64, i: int)
        requires
            self.wf(),
            self.nodes().contains(e),
            0 <= i < self.kids(e).len(),
        ensures
            self.nodes().contains(self.kids(e)[i]),
            0 <= self.depth_left(self.kids(e)[i]) < self.depth_left(e),
    {
        assert(self.children@.contains_key(e));
        assert(self.rank@.contains_key(self.children@[e]@[i]));
    }

    /// `x` lies below `e`: `e` is its parent, or lies above its parent.
    pub open spec fn below(&self, x: u64, e: u64) -> bool
        decreases self.rank_of(x),
        when self.wf() && self.nodes().contains(x)
    {
        match self.raw_parent(x) {
            None => false,
            Some(p) => p == e || self.below(p, e),
        }
    }

    /// The ancestor of `x`, or `x` itself, whose parent is `e`.
    pub open spec fn top_below(&self, x: u64, e: u64) -> u64
        decreases self.rank_of(x),
        when self.wf() && self.nodes().contains(x)
    {
        match self.raw_parent(x) {
            None => x,
            Some(p) => if p == e { x } else { self.top_below(p, e) },
        }
    }

    /// The parent of a node is a node of lower rank.
    pub proof fn lemma_parent_node(&self, x: u64)
        requires
            self.wf(),
            self.nodes().contains(x),
        ensures
            self.raw_parent(x) matches Some(p) ==> self.nodes().contains(p) && self.rank_of(p) < self.rank_of(x),
    {
        if self.parents@.contains_key(x) {
        }
    }

    /// The `i`-th child of `e` has `e` as its parent.
    pub proof fn lemma_kid_parent(&self, e: u64, i: int)
        requires
            self.wf(),
            self.nodes().contains(e),
            0 <= i < self.kids(e).len(),
        ensures
            self.raw_parent(self.kids(e)[i]) == Some(e),
    {
        assert(self.children@.contains_key(e));
        assert(self.parents@.contains_key(self.children@[e]@[i]));
    }

    /// What lies below a node has a higher rank.
    proof fn lemma_below_rank(&self, x: u64, e: u64)
        requires
            self.wf(),
            self.nodes().contains(x),
            self.below(x, e),
        ensures
            self.nodes().contains(e),
            self.rank_of(x) > self.rank_of(e),
        decreases self.rank_of(x),
    {
        self.lemma_parent_node(x);
        let p = self.raw_parent(x)->0;
        if p != e {
            self.lemma_below_rank(p, e);
        }
    }

    /// Whatever lies at or below a child `c` of `e` lies below `e`, under `c`.
    proof fn lemma_below_through(&self, x: u64, c: u64, e: u64)
        requires
            self.wf(),
            self.nodes().contains(x),
            self.nodes().contains(c),
            self.raw_parent(c) == Some(e),
            x == c || self.below(x, c),
        ensures
            self.below(x, e),
            self.top_below(x, e) == c,
        decreases self.rank_of(x),
    {
        self.lemma_parent_node(c);
        if x != c {
            self.lemma_parent_node(x);
            let p = self.raw_parent(x)->0;
            if p != c {
                self.lemma_below_rank(p, c);
            }
            self.lemma_below_through(p, c, e);
        }
    }

    /// What the depth-first listing from position `i` of `e`'s children holds: nodes below
    /// `e`, each under one of those children.
    proof fn lemma_flat_members(&self, e: u64, i: nat)
        requires
            self.wf(),
            self.nodes().contains(e),
        ensures
            forall|k: int| 0 <= k < self.flat_from(e, i).len() ==> {
                let x = #[trigger] self.flat_from(e, i)[k];
                &&& self.nodes().contains(x)
                &&& self.below(x, e)
                &&& exists|j: int| i <= j < self.kids(e).len() && self.top_below(x, e) == self.kids(e)[j]
            },
        decreases self.depth_left(e), self.kids(e).len() - i,
    {
        if i < self.kids(e).len() {
            self.lemma_kid_deeper(e, i as int);
            self.lemma_kid_parent(e, i as int);
            let c = self.kids(e)[i as int];
            self.lemma_flat_members(c, 0);
            self.lemma_flat_members(e, i + 1);
            let own = if self.is_control(c) { Seq::empty() } else { seq![c] };
            let sub = self.flat_from(c, 0);
            let rest = self.flat_from(e, i + 1);
            assert(self.flat_from(e, i) == own + sub + rest);
            self.lemma_below_through(c, c, e);
            assert forall|k: int| 0 <= k < self.flat_from(e, i).len() implies {
                let x = #[trigger] self.flat_from(e, i)[k];
                &&& self.nodes().contains(x)
                &&& self.below(x, e)
                &&& exists|j: int| i <= j < self.kids(e).len() && self.top_below(x, e) == self.kids(e)[j]
            } by {
                let x = self.flat_from(e, i)[k];
                if k < own.len() {
                    assert(x == c);
                } else if k < own.len() + sub.len() {
                    assert(x == sub[k - own.len()]);
                    self.lemma_below_through(x, c, e);
                } else {
                    assert(x == rest[k - own.len() - sub.len()]);
                    let j = choose|j: int| i + 1 <= j < self.kids(e).len() && self.top_below(x, e) == self.kids(e)[j];
                    assert(i <= j);
                }
            }
        }
    }

    /// Two sequences without repetition and without a common element concatenate into one
    /// without repetition.
    proof fn lemma_concat_no_dup(a: Seq<u64>, b: Seq<u64>)
        requires
            a.no_duplicates(),
            b.no_duplicates(),
            forall|x: u64| a.contains(x) ==> !b.contains(x),
        ensures
            (a + b).no_duplicates(),
    {
        assert forall|p: int, q: int| 0 <= p < q < (a + b).len() implies (a + b)[p] != (a + b)[q] by {
            if q < a.len() {
            } else if p >= a.len() {
                assert((a + b)[p] == b[p - a.len()] && (a + b)[q] == b[q - a.len()]);
            } else {
                assert(a.contains(a[p]));
                assert((a + b)[q] == b[q - a.len()]);
                assert(b.contains(b[q - a.len()]));
            }
        }
    }

    /// The depth-first listing from position `i` of `e`'s children names no node twice.
    proof fn lemma_flat_no_dup(&self, e: u64, i: nat)
        requires
            self.wf(),
            self.nodes().contains(e),
        ensures
            self.flat_from(e, i).no_duplicates(),
        decreases self.depth_left(e), self.kids(e).len() - i,
    {
        if i < self.kids(e).len() {
            self.lemma_kid_deeper(e, i as int);
            self.lemma_kid_parent(e, i as int);
            let c = self.kids(e)[i as int];
            self.lemma_flat_no_dup(c, 0);
            self.lemma_flat_no_dup(e, i + 1);
            self.lemma_flat_members(c, 0);
            self.lemma_flat_members(e, i + 1);
            let own = if self.is_control(c) { Seq::empty() } else { seq![c] };
            let sub = self.flat_from(c, 0);
            let rest = self.flat_from(e, i + 1);
            assert(self.flat_from(e, i) == own + sub + rest);
            assert forall|x: u64| own.contains(x) implies !sub.contains(x) by {
                if sub.contains(x) {
                    let k = choose|k: int| 0 <= k < sub.len() && sub[k] == x;
                    assert(self.below(sub[k], c));
                    self.lemma_below_rank(x, c);
                }
            }
            Self::lemma_concat_no_dup(own, sub);
            let head = own + sub;
            assert(self.children@.contains_key(e));
            assert(self.kids(e).no_duplicates());
            assert forall|x: u64| head.contains(x) implies !rest.contains(x) by {
                let k = choose|k: int| 0 <= k < head.len() && head[k] == x;
                if k < own.len() {
                    assert(x == c);
                    self.lemma_below_through(c, c, e);
                } else {
                    assert(x == sub[k - own.len()]);
                    self.lemma_below_through(x, c, e);
                }
                if rest.contains(x) {
                    let m = choose|m: int| 0 <= m < rest.len() && rest[m] == x;
                    assert(self.flat_from(e, i + 1)[m] == x);
                    let j = choose|j: int| i + 1 <= j < self.kids(e).len() && self.top_below(x, e) == self.kids(e)[j];
                    assert(self.kids(e)[j] == self.kids(e)[i as int]);
                }
            }
            Self::lemma_concat_no_dup(head, rest);
        }
    }

    /// The depth-first listing names no node twice.
    pub proof fn law_flatten_no_duplicates(&self)
        requires
            self.wf(),
        ensures
            self.spec_flatten().no_duplicates(),
    {
        let r = self.spec_root();
        self.lemma_flat_no_dup(r, 0);
        self.lemma_flat_members(r, 0);
        assert forall|x: u64| seq![r].contains(x) implies !self.flat_from(r, 0).contains(x) by {
            if self.flat_from(r, 0).contains(x) {
                let k = choose|k: int| 0 <= k < self.flat_from(r, 0).len() && self.flat_from(r, 0)[k] == x;
                assert(x == r);
                self.lemma_below_rank(self.flat_from(r, 0)[k], r);
            }
        }
        Self::lemma_concat_no_dup(seq![r], self.flat_from(r, 0));
    }

    /// Where the layout parent of a node listed below `e` lies: `e` itself, or what `e` hands
    /// on when it is a control node.
    pub open spec fn anchor(&self, e: u64) -> Option<u64> {
        if self.is_control(e) { self.layout_parent(e) } else { Some(e) }
    }

    /// In the depth-first listing from position `i` of `e`'s children, the layout parent of
    /// each node is the anchor of `e` or is listed before the node.
    proof fn lemma_flat_parent_first(&self, e: u64, i: nat)
        requires
            self.wf(),
            self.nodes().contains(e),
        ensures
            forall|k: int| 0 <= k < self.flat_from(e, i).len() ==> ({
                let x = #[trigger] self.flat_from(e, i)[k];
                self.layout_parent(x) == self.anchor(e) || exists|m: int| 0 <= m < k && Some(self.flat_from(e, i)[m]) == self.layout_parent(x)
            }),
        decreases self.depth_left(e), self.kids(e).len() - i,
    {
        if i < self.kids(e).len() {
            self.lemma_kid_deeper(e, i as int);
            self.lemma_kid_parent(e, i as int);
            let c = self.kids(e)[i as int];
            self.lemma_flat_parent_first(c, 0);
            self.lemma_flat_parent_first(e, i + 1);
            self.lemma_flat_members(c, 0);
            self.lemma_flat_members(e, i + 1);
            let own = if self.is_control(c) { Seq::empty() } else { seq![c] };
            let sub = self.flat_from(c, 0);
            let rest = self.flat_from(e, i + 1);
            let all = self.flat_from(e, i);
            assert(all == own + sub + rest);
            assert(self.layout_parent(c) == self.anchor(e));
            assert forall|k: int| 0 <= k < all.len() implies ({
                let x = #[trigger] all[k];
                self.layout_parent(x) == self.anchor(e) || exists|m: int| 0 <= m < k && Some(all[m]) == self.layout_parent(x)
            }) by {
                let x = all[k];
                if k < own.len() {
                    assert(x == c);
                } else if k < own.len() + sub.len() {
                    let k2 = k - own.len();
                    assert(x == sub[k2]);
                    if self.layout_parent(x) == self.anchor(c) {
                        if !self.is_control(c) {
                            assert(all[0] == c);
                        }
                    } else {
                        let m = choose|m: int| 0 <= m < k2 && Some(sub[m]) == self.layout_parent(x);
                        assert(all[m + own.len()] == sub[m]);
                    }
                } else {
                    let k3 = k - own.len() - sub.len();
                    assert(x == rest[k3]);
                    if self.layout_parent(x) != self.anchor(e) {
                        let m = choose|m: int| 0 <= m < k3 && Some(rest[m]) == self.layout_parent(x);
                        assert(all[m + own.len() + sub.len()] == rest[m]);
                    }
                }
            }
        }
    }

    /// In the depth-first listing, the layout parent of every node comes before it.
    pub proof fn law_flatten_parent_first(&self)
        requires
            self.wf(),
        ensures
            forall|k: int| 0 <= k < self.spec_flatten().len() ==> (self.layout_parent(#[trigger] self.spec_flatten()[k])
                matches Some(p) ==> exists|m: int| 0 <= m < k && self.spec_flatten()[m] == p),
    {
        let r = self.spec_root();
        let f = self.spec_flatten();
        self.lemma_flat_parent_first(r, 0);
        self.lemma_flat_members(r, 0);
        assert forall|k: int| 0 <= k < f.len() implies (self.layout_parent(#[trigger] f[k])
            matches Some(p) ==> exists|m: int| 0 <= m < k && f[m] == p) by {
            if k == 0 {
                assert(f[0] == r);
                assert(!self.parents@.contains_key(r));
            } else {
                let x = f[k];
                assert(x == self.flat_from(r, 0)[k - 1]);
                if self.layout_parent(x) == self.anchor(r) {
                    if !self.is_control(r) {
                        assert(f[0] == r);
                    } else {
                        assert(!self.parents@.contains_key(r));
                    }
                } else {
                    let m = choose|m: int| 0 <= m < k - 1 && Some(self.flat_from(r, 0)[m]) == self.layout_parent(x);
                    assert(f[m + 1] == self.flat_from(r, 0)[m]);
                }
            }
        }
    }

    /// The nodes that layout sees as children of `e` from position `i` on are nodes whose
    /// layout parent is `e`, or the layout parent of `e` when `e` is a control node.
    proof fn lemma_layout_kids_parent(&self, e: u64, i: nat)
        requires
            self.wf(),
            self.nodes().contains(e),
        ensures
            forall|k: int| 0 <= k < self.layout_kids_from(e, i).len() ==> {
                let x = #[trigger] self.layout_kids_from(e, i)[k];
                &&& self.nodes().contains(x)
                &&& self.layout_parent(x) == (if self.is_control(e) { self.layout_parent(e) } else { Some(e) })
            },
        decreases self.depth_left(e), self.kids(e).len() - i,
    {
        if i < self.kids(e).len() {
            self.lemma_kid_deeper(e, i as int);
            self.lemma_kid_parent(e, i as int);
            let c = self.kids(e)[i as int];
            self.lemma_layout_kids_parent(e, i + 1);
            self.lemma_layout_kids_parent(c, 0);
            let head = if self.is_control(c) { self.layout_kids_from(c, 0) } else { seq![c] };
            let rest = self.layout_kids_from(e, i + 1);
            assert(self.layout_kids_from(e, i) == head + rest);
            assert(self.layout_parent(c) == (if self.is_control(e) { self.layout_parent(e) } else { Some(e) }));
            assert forall|k: int| 0 <= k < self.layout_kids_from(e, i).len() implies {
                let x = #[trigger] self.layout_kids_from(e, i)[k];
                &&& self.nodes().contains(x)
                &&& self.layout_parent(x) == (if self.is_control(e) { self.layout_parent(e) } else { Some(e) })
            } by {
                if k < head.len() {
                    assert(self.layout_kids_from(e, i)[k] == head[k]);
                } else {
                    assert(self.layout_kids_from(e, i)[k] == rest[k - head.len()]);
                }
            }
        }
    }

    /// Every child that layout sees for a node that is not a control node has that node as
    /// its layout parent: what [`Tree::child_iter`] walks is what [`Tree::parent`] answers.
    pub proof fn law_layout_children_have_parent(&self, n: u64)
        requires
            self.wf(),
            self.nodes().contains(n),
            !self.is_control(n),
        ensures
            forall|k: int| 0 <= k < self.layout_kids_from(n, 0).len() ==> self.layout_parent(
                #[trigger] self.layout_kids_from(n, 0)[k],
            ) == Some(n),
    {
        self.lemma_layout_kids_parent(n, 0);
    }

    /// The layout parent of a node is a node of lower rank and not a control node.
    pub proof fn lemma_layout_parent_node(&self, e: u64)
        requires
            self.wf(),
            self.nodes().contains(e),
        ensures
            self.layout_parent(e) matches Some(p) ==> self.nodes().contains(p) && self.rank_of(p) < self.rank_of(e)
                && !self.is_control(p),
        decreases self.rank_of(e),
    {
        self.lemma_parent_node(e);
        match self.raw_parent(e) {
            None => {},
            Some(p) => {
                if self.is_control(p) {
                    self.lemma_layout_parent_node(p);
                }
            },
        }
    }

    /// The number of nodes above `e` that take part in layout, its layout parent and theirs.
    pub open spec fn layout_depth(&self, e: u64) -> nat
        decreases self.rank_of(e),
        when self.wf() && self.nodes().contains(e)
    {
        match self.layout_parent(e) {
            None => 0,
            Some(p) => {
                proof {
                    self.lemma_layout_parent_node(e);
                }
                self.layout_depth(p) + 1
            },
        }
    }

    /// Every node of the tree, root first, in depth-first order, control nodes left out.
    pub open spec fn spec_flatten(&self) -> Seq<u64> {
        seq![self.spec_root()] + self.flat_from(self.spec_root(), 0)
    }

    /// A tree of one node.
    pub fn new(root: u64) -> (t: Tree)
        ensures
            t.wf(),
            t.spec_root() == root,
            t.nodes() == set![root],
            forall|e: u64| t.kids(e) == Seq::<u64>::empty(),
            forall|e: u64| t.raw_parent(e) is None,
            forall|e: u64| !t.is_control(e),
    {
        let ghost rank0 = Map::<u64, nat>::empty().insert(root, 0nat);
        let t = Tree {
            root,
            parents: HashMap::new(),
            children: HashMap::new(),
            controls: HashSet::new(),
            rank: Ghost(rank0),
            count: Ghost(1),
        };
        proof {
            assert(t.nodes() =~= set![root]);
        }
        t
    }

    /// Adds `child`, a new node, to the children of `parent`, at `position`.
    pub fn add_child(&mut self, parent: u64, child: u64, position: usize)
        requires
            old(self).wf(),
            old(self).nodes().contains(parent),
            !old(self).nodes().contains(child),
            position <= old(self).kids(parent).len(),
        ensures
            final(self).wf(),
            final(self).spec_root() == old(self).spec_root(),
            final(self).nodes() == old(self).nodes().insert(child),
            final(self).kids(parent) == old(self).kids(parent).insert(position as int, child),
            forall|e: u64| e != parent ==> final(self).kids(e) == old(self).kids(e),
            final(self).raw_parent(child) == Some(parent),
            forall|e: u64| e != child ==> final(self).raw_parent(e) == old(self).raw_parent(e),
            forall|e: u64| final(self).is_control(e) == old(self).is_control(e),
    {
        let mut kids: Vec<u64> = match self.children.get(&parent) {
            Some(v) => v.clone(),
            None => Vec::new(),
        };
        proof {
            assert(kids@ == old(self).kids(parent));
        }
        kids.insert(position, child);
        self.children.insert(parent, kids);
        self.parents.insert(child, parent);
        let ghost n = self.count@;
        self.rank = Ghost(self.rank@.insert(child, n));
        self.count = Ghost(n + 1);
        proof {
            assert(self.nodes() =~= old(self).nodes().insert(child));
            assert forall|e: u64| #[trigger] self.children@.contains_key(e) implies self.rank@.contains_key(e)
                && forall|i: int| 0 <= i < self.children@[e]@.len() ==> self.rank@.contains_key(
                    #[trigger] self.children@[e]@[i],
                ) && self.rank@[self.children@[e]@[i]] > self.rank@[e] by {
                if e == parent {
                    assert forall|i: int| 0 <= i < self.children@[e]@.len() implies self.rank@.contains_key(
                        #[trigger] self.children@[e]@[i],
                    ) && self.rank@[self.children@[e]@[i]] > self.rank@[e] by {
                        if i < position {
                            assert(self.children@[e]@[i] == old(self).children@[e]@[i]);
                        } else if i > position {
                            assert(self.children@[e]@[i] == old(self).children@[e]@[i - 1]);
                        }
                    }
                } else {
                    assert(old(self).children@.contains_key(e));
                    assert forall|i: int| 0 <= i < self.children@[e]@.len() implies self.rank@.contains_key(
                        #[trigger] self.children@[e]@[i],
                    ) && self.rank@[self.children@[e]@[i]] > self.rank@[e] by {
                        assert(old(self).rank@.contains_key(old(self).children@[e]@[i]));
                    }
                }
            }
            assert forall|c: u64| #[trigger] self.parents@.contains_key(c) implies self.rank@.contains_key(c)
                && self.rank@.contains_key(self.parents@[c]) && self.rank@[self.parents@[c]] < self.rank@[c] by {
                if c != child {
                    assert(old(self).parents@.contains_key(c));
                }
            }
        }
    }

    /// Marks `e` as a control node.
    pub fn set_control(&mut self, e: u64)
        requires
            old(self).wf(),
        ensures
            final(self).wf(),
            final(self).spec_root() == old(self).spec_root(),
            final(self).nodes() == old(self).nodes(),
            forall|x: u64| final(self).kids(x) == old(self).kids(x),
            forall|x: u64| final(self).raw_parent(x) == old(self).raw_parent(x),
            forall|x: u64| final(self).is_control(x) == (old(self).is_control(x) || x == e),
    {
        self.controls.insert(e);
    }

    /// The root of the tree.
    pub fn root(&self) -> (r: NodeEntity)
        ensures
            r.0 == self.spec_root(),
    {
        NodeEntity(self.root)
    }

    /// Whether `e` is a control node.
    pub fn is_control_node(&self, e: u64) -> (r: bool)
        ensures
            r == self.is_control(e),
    {
        self.controls.contains(&e)
    }

    /// The children of `e`, in order.
    pub fn kids_of(&self, e: u64) -> (r: &[u64])
        ensures
            r@ == self.kids(e),
    {
        match self.children.get(&e) {
            Some(v) => v.as_slice(),
            None => &[],
        }
    }

    /// The parent of `e`, control node or not.
    fn parent_unfiltered(&self, e: u64) -> (r: Option<u64>)
        ensures
            r == self.raw_parent(e),
    {
        match self.parents.get(&e) {
            Some(p) => Some(*p),
            None => None,
        }
    }

    /// Every node of the tree, root first, in depth-first order, control nodes left out.
    pub fn flatten(&self) -> (v: Vec<NodeEntity>)
        requires
            self.wf(),
        ensures
            v@.map_values(|n: NodeEntity| n.0) == self.spec_flatten(),
            v@.map_values(|n: NodeEntity| n.0).no_duplicates(),
    {
        proof {
            self.law_flatten_no_duplicates();
        }
        let mut ids: Vec<u64> = Vec::new();
        ids.push(self.root);
        self.push_all_children(self.root, &mut ids);
        let mut v: Vec<NodeEntity> = Vec::new();
        let mut k: usize = 0;
        while k < ids.len()
            invariant
                0 <= k <= ids@.len(),
                v@.map_values(|n: NodeEntity| n.0) == ids@.take(k as int),
            decreases ids@.len() - k,
        {
            let ghost before = v@;
            v.push(NodeEntity(ids[k]));
            proof {
                assert(v@ == before.push(NodeEntity(ids@[k as int])));
                assert(v@.map_values(|n: NodeEntity| n.0) =~= before.map_values(|n: NodeEntity| n.0).push(ids@[k as int]));
                assert(ids@.take(k + 1) =~= ids@.take(k as int).push(ids@[k as int]));
            }
            k += 1;
        }
        proof {
            assert(ids@.take(ids@.len() as int) =~= ids@);
        }
        v
    }

    fn push_all_children(&self, e: u64, out: &mut Vec<u64>)
        requires
            self.wf(),
            self.nodes().contains(e),
        ensures
            final(out)@ == old(out)@ + self.flat_from(e, 0),
        decreases self.depth_left(e), 1nat,
    {
        let kids = self.kids_of(e);
        let mut i: usize = 0;
        while i < kids.len()
            invariant
                self.wf(),
                self.nodes().contains(e),
                kids@ == self.kids(e),
                0 <= i <= kids@.len(),
                out@ + self.flat_from(e, i as nat) == old(out)@ + self.flat_from(e, 0),
            decreases kids@.len() - i,
        {
            let c = kids[i];
            proof {
                assert(self.children@.contains_key(e));
                assert(self.rank@.contains_key(self.children@[e]@[i as int]));
            }
            let ghost before = out@;
            if !self.controls.contains(&c) {
                out.push(c);
            }
            self.push_all_children(c, out);
            proof {
                assert(self.flat_from(e, i as nat) == (if self.is_control(c) { Seq::empty() } else { seq![c] })
                    + self.flat_from(c, 0) + self.flat_from(e, (i + 1) as nat));
                assert(out@ + self.flat_from(e, (i + 1) as nat) =~= before + self.flat_from(e, i as nat));
            }
            i += 1;
        }
        proof {
            assert(out@ + self.flat_from(e, i as nat) =~= out@);
        }
    }

    /// The parent of `node` as layout sees it, see [`Tree::layout_parent`].
    pub fn parent(&self, node: NodeEntity) -> (r: Option<NodeEntity>)
        requires
            self.wf(),
            self.nodes().contains(node.0),
        ensures
            r == match self.layout_parent(node.0) {
                Some(p) => Some(NodeEntity(p)),
                None => None,
            },
        decreases self.rank_of(node.0),
    {
        match self.parent_unfiltered(node.0) {
            None => None,
            Some(candidate) => {
                if self.controls.contains(&candidate) {
                    self.parent(NodeEntity(candidate))
                } else {
                    Some(NodeEntity(candidate))
                }
            },
        }
    }

    /// The depth at which `node` is drawn: the number of nodes above it that take part in
    /// layout, see [`Tree::layout_depth`].
    pub fn z_layer(&self, node: NodeEntity) -> (z: u32)
        requires
            self.wf(),
            self.nodes().contains(node.0),
            self.layout_depth(node.0) <= u32::MAX,
        ensures
            z == self.layout_depth(node.0),
        decreases self.rank_of(node.0),
    {
        proof {
            self.lemma_layout_parent_node(node.0);
        }
        match self.parent(node) {
            None => 0,
            Some(p) => self.z_layer(p) + 1,
        }
    }

    /// Whether `node` is the first child of its layout parent, see [`Tree::first_child`].
    pub fn is_first_child(&self, node: NodeEntity) -> (r: bool)
        requires
            self.wf(),
            self.nodes().contains(node.0),
        ensures
            r == self.first_child(node.0),
        decreases self.rank_of(node.0),
    {
        match self.parent_unfiltered(node.0) {
            None => false,
            Some(p) => {
                let up_ok = !self.controls.contains(&p) || self.is_first_child(NodeEntity(p));
                let kids = self.kids_of(p);
                up_ok && kids.len() > 0 && kids[0] == node.0
            },
        }
    }

    /// Whether `node` is the last child of its layout parent, see [`Tree::last_child`].
    pub fn is_last_child(&self, node: NodeEntity) -> (r: bool)
        requires
            self.wf(),
            self.nodes().contains(node.0),
        ensures
            r == self.last_child(node.0),
        decreases self.rank_of(node.0),
    {
        match self.parent_unfiltered(node.0) {
            None => false,
            Some(p) => {
                let up_ok = !self.controls.contains(&p) || self.is_last_child(NodeEntity(p));
                let kids = self.kids_of(p);
                up_ok && kids.len() > 0 && kids[kids.len() - 1] == node.0
            },
        }
    }

    /// All nodes, root first, in depth-first order.
    pub fn down_iter(&self) -> (v: Vec<NodeEntity>)
        requires
            self.wf(),
        ensures
            v@.map_values(|n: NodeEntity| n.0) == self.spec_flatten(),
    {
        self.flatten()
    }

    /// All nodes in the reverse of [`Tree::down_iter`].
    pub fn up_iter(&self) -> (v: Vec<NodeEntity>)
        requires
            self.wf(),
        ensures
            v@.map_values(|n: NodeEntity| n.0) == self.spec_flatten().reverse(),
    {
        let mut down = self.flatten();
        let ghost d = down@;
        let mut v: Vec<NodeEntity> = Vec::new();
        while down.len() > 0
            invariant
                down@ == d.take(down@.len() as int),
                down@.len() <= d.len(),
                v@ == d.skip(down@.len() as int).reverse(),
            decreases down@.len(),
        {
            let x = down.pop().unwrap();
            proof {
                assert(down@ =~= d.take(down@.len() as int));
                assert(d.skip(down@.len() as int) =~= seq![x] + d.skip(down@.len() as int + 1));
            }
            v.push(x);
            proof {
                assert(v@ =~= d.skip(down@.len() as int).reverse());
            }
        }
        proof {
            assert(d.skip(0) =~= d);
            assert(v@.map_values(|n: NodeEntity| n.0) =~= d.map_values(|n: NodeEntity| n.0).reverse());
        }
        v
    }
}

/// What is left of a child iteration: the children still to come of each entry, the
/// innermost entry first.
pub open spec fn stack_rest(t: &Tree, s: Seq<(u64, usize)>) -> Seq<u64>
    decreases s.len(),
{
    if s.len() == 0 {
        Seq::empty()
    } else {
        t.layout_kids_from(s.last().0, s.last().1 as nat) + stack_rest(t, s.drop_last())
    }
}

/// The steps left to a child iteration.
pub open spec fn stack_visits(t: &Tree, s: Seq<(u64, usize)>) -> nat
    decreases s.len(),
{
    if s.len() == 0 {
        0
    } else {
        t.visits_from(s.last().0, s.last().1 as nat) + stack_visits(t, s.drop_last())
    }
}

/// One step of a walk, as [`ChildIterator::next`] takes it: the first node still to come is
/// handed out and dropped from what is to come, or, with nothing to come, `None`.
pub open spec fn next_step(t: Tree, before: ChildIterator, r: Option<NodeEntity>, after: ChildIterator) -> bool {
    if before.rest(&t).len() == 0 {
        r is None && after.rest(&t).len() == 0
    } else {
        r == Some(NodeEntity(before.rest(&t)[0])) && after.rest(&t) == before.rest(&t).drop_first()
    }
}

/// Walks the children of a node as layout sees them: control children are replaced by
/// their own children.
pub struct ChildIterator {
    inners: Vec<(u64, usize)>,
}

impl ChildIterator {
    /// The nodes still to come.
    pub closed spec fn rest(&self, t: &Tree) -> Seq<u64> {
        stack_rest(t, self.inners@)
    }

    /// Every entry is a node of `t`.
    pub closed spec fn valid(&self, t: &Tree) -> bool {
        forall|k: int| 0 <= k < self.inners@.len() ==> t.nodes().contains(#[trigger] self.inners@[k].0)
    }

    /// The next child, or `None` once all were handed out.
    pub fn next(&mut self, t: &Tree) -> (r: Option<NodeEntity>)
        requires
            t.wf(),
            old(self).valid(t),
        ensures
            final(self).valid(t),
            old(self).rest(t).len() == 0 ==> r is None && final(self).rest(t).len() == 0,
            old(self).rest(t).len() > 0 ==> r == Some(NodeEntity(old(self).rest(t)[0]))
                && final(self).rest(t) == old(self).rest(t).drop_first(),
            next_step(*t, *old(self), r, *final(self)),
    {
        let r = self.step(t);
        proof {
            assert(next_step(*t, *old(self), r, *self));
        }
        r
    }

    /// One step of the walk, see [`ChildIterator::next`].
    fn step(&mut self, t: &Tree) -> (r: Option<NodeEntity>)
        requires
            t.wf(),
            old(self).valid(t),
        ensures
            final(self).valid(t),
            old(self).rest(t).len() == 0 ==> r is None && final(self).rest(t).len() == 0,
            old(self).rest(t).len() > 0 ==> r == Some(NodeEntity(old(self).rest(t)[0]))
                && final(self).rest(t) == old(self).rest(t).drop_first(),
    {
        loop
            invariant
                t.wf(),
                self.valid(t),
                self.rest(t) == old(self).rest(t),
            decreases stack_visits(t, self.inners@), self.inners@.len(),
        {
            let n = self.inners.len();
            if n == 0 {
                return None;
            }
            let (e, i) = self.inners[n - 1];
            let kids = t.kids_of(e);
            let ghost s0 = self.inners@;
            proof {
                assert(t.nodes().contains(s0[n - 1].0));
            }
            if i < kids.len() {
                let c = kids[i];
                proof {
                    assert(t.children@.contains_key(e));
                    assert(t.rank@.contains_key(t.children@[e]@[i as int]));
                }
                self.inners.set(n - 1, (e, i + 1));
                let ghost s1 = self.inners@;
                proof {
                    assert(self.inners@.drop_last() =~= s0.drop_last());
                    assert(s1.last() == (e, (i + 1) as usize));
                    assert(stack_rest(t, s1) == t.layout_kids_from(e, (i + 1) as nat) + stack_rest(t, s0.drop_last()));
                    assert(stack_visits(t, s1) == t.visits_from(e, (i + 1) as nat) + stack_visits(t, s0.drop_last()));
                    assert(stack_rest(t, s0) == t.layout_kids_from(e, i as nat) + stack_rest(t, s0.drop_last()));
                    assert(stack_visits(t, s0) == t.visits_from(e, i as nat) + stack_visits(t, s0.drop_last()));
                    assert(t.layout_kids_from(e, i as nat) == (if t.is_control(c) { t.layout_kids_from(c, 0) } else { seq![c] })
                        + t.layout_kids_from(e, (i + 1) as nat));
                    assert(t.visits_from(e, i as nat) == 1 + (if t.is_control(c) { t.visits_from(c, 0) } else { 0 })
                        + t.visits_from(e, (i + 1) as nat));
                }
                if t.is_control_node(c) {
                    self.inners.push((c, 0));
                    proof {
                        assert(self.inners@.drop_last() =~= s1);
                        assert(stack_rest(t, self.inners@) == t.layout_kids_from(c, 0) + stack_rest(t, s1));
                        assert(stack_visits(t, self.inners@) == t.visits_from(c, 0) + stack_visits(t, s1));
                        assert(self.rest(t) =~= old(self).rest(t));
                        assert forall|k: int| 0 <= k < self.inners@.len() implies t.nodes().contains(#[trigger] self.inners@[k].0) by {
                            if k < n {
                                assert(self.inners@[k] == s1[k]);
                                if k < n - 1 {
                                    assert(s1[k] == s0[k]);
                                }
                            }
                        }
                    }
                } else {
                    proof {
                        assert(old(self).rest(t) =~= seq![c] + self.rest(t));
                        assert forall|k: int| 0 <= k < self.inners@.len() implies t.nodes().contains(#[trigger] self.inners@[k].0) by {
                            if k < n - 1 {
                                assert(s1[k] == s0[k]);
                            }
                        }
                    }
                    return Some(NodeEntity(c));
                }
            } else {
                self.inners.pop();
                proof {
                    assert(self.inners@ =~= s0.drop_last());
                    assert(stack_rest(t, s0) == t.layout_kids_from(e, i as nat) + stack_rest(t, s0.drop_last()));
                    assert(stack_visits(t, s0) == t.visits_from(e, i as nat) + stack_visits(t, s0.drop_last()));
                    assert(t.visits_from(e, i as nat) == 0);
                    assert(t.layout_kids_from(e, i as nat) =~= Seq::<u64>::empty());
                    assert(self.rest(t) =~= old(self).rest(t));
                }
            }
        }
    }
}

impl Tree {
    /// Starts a walk over the children of `node` as layout sees them.
    pub fn child_iter(&self, node: NodeEntity) -> (it: ChildIterator)
        requires
            self.wf(),
            self.nodes().contains(node.0),
        ensures
            it.valid(self),
            it.rest(self) == self.layout_kids_from(node.0, 0),
    {
        let mut inners: Vec<(u64, usize)> = Vec::new();
        inners.push((node.0, 0));
        let it = ChildIterator { inners };
        proof {
            assert(it.inners@.drop_last() =~= Seq::<(u64, usize)>::empty());
            assert(stack_rest(self, Seq::<(u64, usize)>::empty()) =~= Seq::<u64>::empty());
            assert(it.rest(self) =~= self.layout_kids_from(node.0, 0));
        }
        it
    }
}

/// What remains to come after `k` steps of a walk that started with `kids` to come.
proof fn lemma_walk_rest(t: Tree, kids: Seq<u64>, its: Seq<ChildIterator>, rs: Seq<Option<NodeEntity>>, k: int)
    requires
        its.len() == rs.len() + 1,
        its[0].rest(&t) == kids,
        forall|j: int| 0 <= j < rs.len() ==> #[trigger] next_step(t, its[j], rs[j], its[j + 1]),
        0 <= k < its.len(),
    ensures
        its[k].rest(&t) == if k <= kids.len() { kids.skip(k) } else { Seq::<u64>::empty() },
    decreases k,
{
    if k == 0 {
        assert(kids.skip(0) =~= kids);
    } else {
        lemma_walk_rest(t, kids, its, rs, k - 1);
        let j = k - 1;
        assert(next_step(t, its[j], rs[j], its[j + 1]));
        assert(j + 1 == k);
        if k <= kids.len() {
            assert(kids.skip(k - 1).drop_first() =~= kids.skip(k));
        }
    }
}

/// A whole walk over the children of a node `n` that is not a control node: step `k`
/// hands out the `k`-th child that layout sees, whose layout parent is `n`, and once all
/// were handed out every further step gives `None`.
pub proof fn law_child_iteration(t: Tree, n: u64, its: Seq<ChildIterator>, rs: Seq<Option<NodeEntity>>)
    requires
        t.wf(),
        t.nodes().contains(n),
        !t.is_control(n),
        its.len() == rs.len() + 1,
        its[0].rest(&t) == t.layout_kids_from(n, 0),
        forall|j: int| 0 <= j < rs.len() ==> #[trigger] next_step(t, its[j], rs[j], its[j + 1]),
    ensures
        forall|k: int| 0 <= k < rs.len() && k < t.layout_kids_from(n, 0).len() ==> #[trigger] rs[k]
            == Some(NodeEntity(t.layout_kids_from(n, 0)[k])) && t.layout_parent(t.layout_kids_from(n, 0)[k]) == Some(n),
        forall|k: int| 0 <= k < rs.len() && k >= t.layout_kids_from(n, 0).len() ==> #[trigger] rs[k] is None,
{
    let kids = t.layout_kids_from(n, 0);
    t.law_layout_children_have_parent(n);
    assert forall|k: int| 0 <= k < rs.len() implies (k < kids.len() ==> #[trigger] rs[k] == Some(NodeEntity(kids[k]))
        && t.layout_parent(kids[k]) == Some(n)) && (k >= kids.len() ==> rs[k] is None) by {
        lemma_walk_rest(t, kids, its, rs, k);
        assert(next_step(t, its[k], rs[k], its[k + 1]));
        if k < kids.len() {
            assert(kids.skip(k)[0] == kids[k]);
        }
    }
}

} // verus!
