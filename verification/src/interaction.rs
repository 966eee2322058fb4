//! Pointer interaction: which nodes are hovered or clicked, which take focus, and which
//! button handlers run when an interaction changes.

use vstd::prelude::*;

verus! {

/// A small vector of entities, inline for one entity.
#[verifier::external_body]
pub struct EntityList {
    items: smallvec::SmallVec<[u64; 1]>,
}

/// The entities held by an [`EntityList`], in order.
pub uninterp spec fn small_items(v: EntityList) -> Seq<u64>;

/// `SmallVec::new`: a list that holds nothing.
#[verifier::external_body]
fn small_new() -> (v: EntityList)
    ensures
        small_items(v) == Seq::<u64>::empty(),
{
    EntityList { items: smallvec::SmallVec::new() }
}

/// `SmallVec::push`: appends the entity.
#[verifier::external_body]
fn small_push(v: &mut EntityList, x: u64)
    ensures
        small_items(*final(v)) == small_items(*old(v)).push(x),
{
    v.items.push(x);
}

/// `SmallVec::drain(..)`, collected: hands out every entity in order and leaves the list
/// empty.
#[verifier::external_body]
fn small_drain(v: &mut EntityList) -> (out: Vec<u64>)
    ensures
        out@ == small_items(*old(v)),
        small_items(*final(v)) == Seq::<u64>::empty(),
{
    v.items.drain(..).collect()
}

/// How the pointer relates to a node.
#[derive(Clone, Copy, PartialEq, Eq, Structural, Debug)]
pub enum Interaction {
    Clicked,
    Hovered,
    /// Neither hovered nor clicked.
    Idle,
}

impl Interaction {
    /// The interaction of a node that nothing has touched yet.
    pub fn default_value() -> (i: Interaction)
        ensures
            i == Interaction::Idle,
    {
        Interaction::Idle
    }
}

/// Whether a node lets the pointer reach the nodes below it.
#[derive(Clone, Copy, PartialEq, Eq, Structural, Debug)]
pub enum FocusPolicy {
    Block,
    Pass,
}

/// What the interaction pass knows of one node: whether the cursor is inside its clip
/// rectangle, its depth, and its interaction and focus policy if it has them.
#[derive(Clone, Copy, PartialEq, Eq, Structural, Debug)]
pub struct NodeHit {
    pub entity: u64,
    pub under_cursor: bool,
    pub z_layer: u32,
    pub interaction: Option<Interaction>,
    pub focus_policy: Option<FocusPolicy>,
}

/// The buttons and touches of this frame.
#[derive(Clone, Copy, PartialEq, Eq, Structural, Debug)]
pub struct PointerButtons {
    /// The left button was pressed this frame.
    pub left_just_pressed: bool,
    /// The left button was released this frame.
    pub left_just_released: bool,
    /// The first touch ended this frame.
    pub touch_just_released: bool,
}

/// The sort key of a node: the negated depth, computed as `-(z as i32)`.
pub open spec fn z_key(z: u32) -> int {
    if z < 0x8000_0000 {
        -(z as int)
    } else {
        0x1_0000_0000 - z
    }
}

/// Whether the node at `m` comes before the node at `n` once the nodes under the cursor are
/// sorted, stably, by their key.
pub open spec fn before(nodes: Seq<NodeHit>, m: int, n: int) -> bool {
    z_key(nodes[m].z_layer) < z_key(nodes[n].z_layer) || (z_key(nodes[m].z_layer) == z_key(
        nodes[n].z_layer,
    ) && m < n)
}

/// A node blocks the ones below it unless it lets the pointer pass.
pub open spec fn blocks(n: NodeHit) -> bool {
    n.focus_policy != Some(FocusPolicy::Pass)
}

/// A node under the cursor is reached when no blocking node under the cursor comes before it.
pub open spec fn reached(nodes: Seq<NodeHit>, n: int) -> bool {
    &&& nodes[n].under_cursor
    &&& forall|m: int|
        0 <= m < nodes.len() && m != n && #[trigger] nodes[m].under_cursor && before(nodes, m, n)
            ==> !blocks(nodes[m])
}

/// The interaction of node `n` after the clicks of last frame were undone and a release
/// ended a click.
pub open spec fn settled(nodes: Seq<NodeHit>, n: int, resets: Seq<u64>, buttons: PointerButtons) -> Option<Interaction> {
    let i0 = nodes[n].interaction;
    let i1 = if resets.contains(nodes[n].entity) && i0 is Some { Some(Interaction::Idle) } else { i0 };
    let released = buttons.left_just_released || buttons.touch_just_released;
    if released && i1 == Some(Interaction::Clicked) { Some(Interaction::Idle) } else { i1 }
}

/// The interaction of node `n` at the end of the pass.
pub open spec fn final_interaction(nodes: Seq<NodeHit>, n: int, resets: Seq<u64>, buttons: PointerButtons) -> Option<Interaction> {
    let i2 = settled(nodes, n, resets, buttons);
    let clicked = buttons.left_just_pressed || buttons.touch_just_released;
    match i2 {
        None => None,
        Some(i) => if !nodes[n].under_cursor {
            if i == Interaction::Hovered { Some(Interaction::Idle) } else { Some(i) }
        } else if reached(nodes, n) {
            if clicked { Some(Interaction::Clicked) } else if i == Interaction::Idle { Some(Interaction::Hovered) } else { Some(i) }
        } else {
            Some(Interaction::Idle)
        },
    }
}

/// Whether node `n` becomes clicked in the same frame as a release, so that it must be reset
/// next frame.
pub open spec fn needs_reset(nodes: Seq<NodeHit>, n: int, resets: Seq<u64>, buttons: PointerButtons) -> bool {
    let i2 = settled(nodes, n, resets, buttons);
    let clicked = buttons.left_just_pressed || buttons.touch_just_released;
    let released = buttons.left_just_released || buttons.touch_just_released;
    &&& reached(nodes, n)
    &&& i2 is Some
    &&& i2 != Some(Interaction::Clicked)
    &&& clicked
    &&& released
}

/// A node under the cursor blocks the nodes under the cursor that come after it in depth
/// order unless its focus policy is `Pass`; without a focus policy it blocks. Such a later
/// node is not reached, and if it has an interaction it ends the pass idle.
pub proof fn law_blocking_nodes_hide_the_ones_below(nodes: Seq<NodeHit>, m: int, n: int, resets: Seq<u64>, buttons: PointerButtons)
    requires
        0 <= m < nodes.len(),
        0 <= n < nodes.len(),
        m != n,
        nodes[m].under_cursor,
        nodes[m].focus_policy != Some(FocusPolicy::Pass),
        before(nodes, m, n),
    ensures
        !reached(nodes, n),
        nodes[n].under_cursor && settled(nodes, n, resets, buttons) is Some ==> final_interaction(nodes, n, resets, buttons)
            == Some(Interaction::Idle),
{
    assert(nodes[m].under_cursor);
}

/// A node under the cursor is reached when every node under the cursor before it lets the
/// pointer pass.
pub proof fn law_passing_nodes_let_through(nodes: Seq<NodeHit>, n: int)
    requires
        0 <= n < nodes.len(),
        nodes[n].under_cursor,
        forall|m: int| 0 <= m < nodes.len() && m != n && #[trigger] nodes[m].under_cursor && before(nodes, m, n)
            ==> nodes[m].focus_policy == Some(FocusPolicy::Pass),
    ensures
        reached(nodes, n),
{
}

/// The entities that were clicked and released in one frame and must go back to `None`.
pub struct InteractionState {
    entities_to_reset: EntityList,
}

impl InteractionState {
    pub closed spec fn resets(&self) -> Seq<u64> {
        small_items(self.entities_to_reset)
    }

    /// A state with nothing to reset.
    pub fn new() -> (s: InteractionState)
        ensures
            s.resets() == Seq::<u64>::empty(),
    {
        InteractionState { entities_to_reset: small_new() }
    }

    /// One interaction pass. Without a cursor nothing changes. Otherwise returns the new
    /// interaction of each node, in the order of `nodes`.
    pub fn update(&mut self, cursor_known: bool, nodes: &Vec<NodeHit>, buttons: PointerButtons) -> (out: Vec<Option<Interaction>>)
        requires
            forall|k: int| 0 <= k < nodes@.len() ==> (#[trigger] nodes@[k]).z_layer != 0x8000_0000,
        ensures
            !cursor_known ==> final(self).resets() == old(self).resets() && out@ == nodes@.map_values(|n: NodeHit| n.interaction),
            cursor_known ==> out@.len() == nodes@.len()
                && (forall|n: int| 0 <= n < nodes@.len() ==> #[trigger] out@[n] == final_interaction(nodes@, n, old(self).resets(), buttons))
                && (forall|n: int| 0 <= n < nodes@.len() && #[trigger] needs_reset(nodes@, n, old(self).resets(), buttons)
                    ==> final(self).resets().contains(nodes@[n].entity))
                && (forall|e: u64| #[trigger] final(self).resets().contains(e) ==> exists|n: int|
                    0 <= n < nodes@.len() && nodes@[n].entity == e && #[trigger] needs_reset(nodes@, n, old(self).resets(), buttons)),
    {
        if !cursor_known {
            let mut out: Vec<Option<Interaction>> = Vec::new();
            let mut k: usize = 0;
            while k < nodes.len()
                invariant
                    0 <= k <= nodes@.len(),
                    out@ == nodes@.take(k as int).map_values(|n: NodeHit| n.interaction),
                decreases nodes@.len() - k,
            {
                out.push(nodes[k].interaction);
                proof {
                    assert(nodes@.take(k + 1) =~= nodes@.take(k as int).push(nodes@[k as int]));
                    assert(out@ =~= nodes@.take(k + 1).map_values(|n: NodeHit| n.interaction));
                }
                k += 1;
            }
            proof {
                assert(nodes@.take(nodes@.len() as int) =~= nodes@);
            }
            return out;
        }
        let resets = small_drain(&mut self.entities_to_reset);
        let clicked = buttons.left_just_pressed || buttons.touch_just_released;
        let released = buttons.left_just_released || buttons.touch_just_released;
        let mut out: Vec<Option<Interaction>> = Vec::new();
        let mut n: usize = 0;
        while n < nodes.len()
            invariant
                0 <= n <= nodes@.len(),
                out@.len() == n,
                resets@ == old(self).resets(),
                clicked == (buttons.left_just_pressed || buttons.touch_just_released),
                released == (buttons.left_just_released || buttons.touch_just_released),
                forall|j: int| 0 <= j < n ==> #[trigger] out@[j] == final_interaction(nodes@, j, resets@, buttons),
                forall|j: int| 0 <= j < nodes@.len() ==> (#[trigger] nodes@[j]).z_layer != 0x8000_0000,
                forall|j: int| 0 <= j < n && #[trigger] needs_reset(nodes@, j, resets@, buttons)
                    ==> small_items(self.entities_to_reset).contains(nodes@[j].entity),
                forall|e: u64| #[trigger] small_items(self.entities_to_reset).contains(e) ==> exists|j: int|
                    0 <= j < n && nodes@[j].entity == e && #[trigger] needs_reset(nodes@, j, resets@, buttons),
            decreases nodes@.len() - n,
        {
            let node = nodes[n];
            let i2 = settle(node, &resets, released);
            let hit_first = node.under_cursor && is_reached(nodes, n);
            let ghost before_items = small_items(self.entities_to_reset);
            proof {
                assert(i2 == settled(nodes@, n as int, resets@, buttons));
            }
            let r = match i2 {
                None => None,
                Some(i) => if !node.under_cursor {
                    if i == Interaction::Hovered { Some(Interaction::Idle) } else { Some(i) }
                } else if hit_first {
                    if clicked {
                        Some(Interaction::Clicked)
                    } else if i == Interaction::Idle { Some(Interaction::Hovered) } else { Some(i) }
                } else {
                    Some(Interaction::Idle)
                },
            };
            let push_it = match i2 {
                Some(i) => hit_first && clicked && released && i != Interaction::Clicked,
                None => false,
            };
            if push_it {
                small_push(&mut self.entities_to_reset, node.entity);
            }
            proof {
                assert(push_it == needs_reset(nodes@, n as int, resets@, buttons));
                if push_it {
                    lemma_push_contains(before_items, node.entity);
                    assert forall|e: u64| #[trigger] small_items(self.entities_to_reset).contains(e) implies exists|j: int|
                        0 <= j < n + 1 && nodes@[j].entity == e && #[trigger] needs_reset(nodes@, j, resets@, buttons) by {
                        if e == node.entity {
                            assert(nodes@[n as int].entity == e && needs_reset(nodes@, n as int, resets@, buttons));
                        } else {
                            assert(before_items.contains(e));
                        }
                    }
                }
            }
            out.push(r);
            n += 1;
        }
        out
    }
}

/// The interaction of `node` after last frame's resets and this frame's release.
fn settle(node: NodeHit, resets: &Vec<u64>, released: bool) -> (r: Option<Interaction>)
    ensures
        forall|nodes: Seq<NodeHit>, n: int, buttons: PointerButtons|
            0 <= n < nodes.len() && nodes[n] == node && released == (buttons.left_just_released || buttons.touch_just_released)
            ==> #[trigger] settled(nodes, n, resets@, buttons) == r,
{
    let mut listed = false;
    let mut k: usize = 0;
    while k < resets.len()
        invariant
            0 <= k <= resets@.len(),
            listed == resets@.take(k as int).contains(node.entity),
        decreases resets@.len() - k,
    {
        proof {
            assert(resets@.take(k + 1) =~= resets@.take(k as int).push(resets@[k as int]));
        }
        proof {
            lemma_push_contains(resets@.take(k as int), resets@[k as int]);
        }
        if resets[k] == node.entity {
            listed = true;
        }
        k += 1;
    }
    proof {
        assert(resets@.take(resets@.len() as int) =~= resets@);
    }
    let i1 = if listed && node.interaction.is_some() { Some(Interaction::Idle) } else { node.interaction };
    if released && i1 == Some(Interaction::Clicked) { Some(Interaction::Idle) } else { i1 }
}

/// A pushed sequence contains the pushed element and what it contained before.
pub proof fn lemma_push_contains(s: Seq<u64>, x: u64)
    ensures
        forall|e: u64| #[trigger] s.push(x).contains(e) <==> (s.contains(e) || e == x),
{
    assert forall|e: u64| #[trigger] s.push(x).contains(e) <==> (s.contains(e) || e == x) by {
        if s.contains(e) {
            let j = choose|j: int| 0 <= j < s.len() && s[j] == e;
            assert(s.push(x)[j] == e);
        }
        if e == x {
            assert(s.push(x)[s.len() as int] == e);
        }
        if s.push(x).contains(e) {
            let j = choose|j: int| 0 <= j < s.len() + 1 && s.push(x)[j] == e;
            if j < s.len() {
                assert(s[j] == e);
            }
        }
    }
}

/// The sort key of a depth, `-(z as i32)`.
fn key_of(z: u32) -> (k: i64)
    requires
        z != 0x8000_0000,
    ensures
        k == z_key(z),
{
    if z < 0x8000_0000 {
        -(z as i64)
    } else {
        0x1_0000_0000i64 - (z as i64)
    }
}

/// Whether the node at `n` is reached by the pointer.
fn is_reached(nodes: &Vec<NodeHit>, n: usize) -> (r: bool)
    requires
        n < nodes@.len(),
        forall|j: int| 0 <= j < nodes@.len() ==> (#[trigger] nodes@[j]).z_layer != 0x8000_0000,
    ensures
        r == reached(nodes@, n as int),
{
    if !nodes[n].under_cursor {
        return false;
    }
    let kn = key_of(nodes[n].z_layer);
    let mut m: usize = 0;
    while m < nodes.len()
        invariant
            0 <= m <= nodes@.len(),
            n < nodes@.len(),
            nodes@[n as int].under_cursor,
            kn == z_key(nodes@[n as int].z_layer),
            forall|j: int| 0 <= j < nodes@.len() ==> (#[trigger] nodes@[j]).z_layer != 0x8000_0000,
            forall|j: int| 0 <= j < m && j != n && #[trigger] nodes@[j].under_cursor && before(nodes@, j, n as int)
                ==> !blocks(nodes@[j]),
        decreases nodes@.len() - m,
    {
        if m != n && nodes[m].under_cursor {
            let km = key_of(nodes[m].z_layer);
            let earlier = km < kn || (km == kn && m < n);
            let blocking = match nodes[m].focus_policy {
                Some(FocusPolicy::Pass) => false,
                _ => true,
            };
            if earlier && blocking {
                proof {
                    assert(before(nodes@, m as int, n as int));
                    assert(!reached(nodes@, n as int));
                }
                return false;
            }
        }
        m += 1;
    }
    true
}

} // verus!

verus! {

/// What happens to the focus of a focusable node.
#[derive(Clone, Copy, PartialEq, Eq, Structural, Debug)]
pub enum FocusChange {
    /// The node takes focus.
    Gain,
    /// The node loses focus.
    Lose,
    /// Nothing changes.
    Keep,
}

/// The focus rule: when the left button goes down, a clicked node without focus takes it and
/// an untouched node with focus loses it.
pub open spec fn focus_rule(left_just_pressed: bool, interaction: Interaction, focused: bool) -> FocusChange {
    if !left_just_pressed {
        FocusChange::Keep
    } else if interaction == Interaction::Clicked && !focused {
        FocusChange::Gain
    } else if interaction == Interaction::Idle && focused {
        FocusChange::Lose
    } else {
        FocusChange::Keep
    }
}

/// The focus change of each focusable node, given its interaction and whether it has focus.
pub fn focus_changes(left_just_pressed: bool, nodes: &Vec<(Interaction, bool)>) -> (out: Vec<FocusChange>)
    ensures
        out@.len() == nodes@.len(),
        forall|k: int| 0 <= k < nodes@.len() ==> #[trigger] out@[k] == focus_rule(left_just_pressed, nodes@[k].0, nodes@[k].1),
{
    let mut out: Vec<FocusChange> = Vec::new();
    let mut k: usize = 0;
    while k < nodes.len()
        invariant
            0 <= k <= nodes@.len(),
            out@.len() == k,
            forall|j: int| 0 <= j < k ==> #[trigger] out@[j] == focus_rule(left_just_pressed, nodes@[j].0, nodes@[j].1),
        decreases nodes@.len() - k,
    {
        let (interaction, focused) = nodes[k];
        let c = if !left_just_pressed {
            FocusChange::Keep
        } else {
            match (interaction, focused) {
                (Interaction::Clicked, false) => FocusChange::Gain,
                (Interaction::Idle, true) => FocusChange::Lose,
                _ => FocusChange::Keep,
            }
        };
        out.push(c);
        k += 1;
    }
    out
}

/// Which of a button's handlers are present.
#[derive(Clone, Copy, PartialEq, Eq, Structural, Debug)]
pub struct ButtonHandlers {
    pub on_click: bool,
    pub on_hover: bool,
    pub on_release: bool,
    pub on_unhover: bool,
}

/// One handler of a button.
#[derive(Clone, Copy, PartialEq, Eq, Structural, Debug)]
pub enum ButtonHandler {
    Click,
    Hover,
    Release,
    Unhover,
}

/// The handlers to run, in order, when a button's interaction goes from `old` to `new`:
/// becoming clicked runs the click handler; becoming hovered after a click runs release then
/// hover, otherwise hover; becoming idle after a click runs release, after a hover unhover.
pub open spec fn handlers_for(old: Interaction, new: Interaction, h: ButtonHandlers) -> Seq<ButtonHandler> {
    let click = if h.on_click { seq![ButtonHandler::Click] } else { Seq::empty() };
    let hover = if h.on_hover { seq![ButtonHandler::Hover] } else { Seq::empty() };
    let release = if h.on_release { seq![ButtonHandler::Release] } else { Seq::empty() };
    let unhover = if h.on_unhover { seq![ButtonHandler::Unhover] } else { Seq::empty() };
    match new {
        Interaction::Clicked => click,
        Interaction::Hovered => if old == Interaction::Clicked { release + hover } else { hover },
        Interaction::Idle => match old {
            Interaction::Clicked => release,
            Interaction::Hovered => unhover,
            Interaction::Idle => Seq::empty(),
        },
    }
}

/// The remembered interaction of a button, from which changes are told apart.
pub struct FuncScratch(pub Interaction);

impl FuncScratch {
    /// A button that nothing has touched yet.
    pub fn new() -> (s: FuncScratch)
        ensures
            s.0 == Interaction::Idle,
    {
        FuncScratch(Interaction::Idle)
    }

    /// Records the new interaction and returns the handlers to run, see [`handlers_for`].
    pub fn on_change(&mut self, new: Interaction, h: ButtonHandlers) -> (out: Vec<ButtonHandler>)
        ensures
            final(self).0 == new,
            out@ == handlers_for(old(self).0, new, h),
    {
        let old = self.0;
        self.0 = new;
        let mut out: Vec<ButtonHandler> = Vec::new();
        match new {
            Interaction::Clicked => {
                if h.on_click {
                    out.push(ButtonHandler::Click);
                }
            },
            Interaction::Hovered => {
                if old == Interaction::Clicked && h.on_release {
                    out.push(ButtonHandler::Release);
                }
                if h.on_hover {
                    out.push(ButtonHandler::Hover);
                }
            },
            Interaction::Idle => {
                match old {
                    Interaction::Clicked => {
                        if h.on_release {
                            out.push(ButtonHandler::Release);
                        }
                    },
                    Interaction::Hovered => {
                        if h.on_unhover {
                            out.push(ButtonHandler::Unhover);
                        }
                    },
                    Interaction::Idle => {},
                }
            },
        }
        proof {
            assert(out@ =~= handlers_for(old, new, h));
        }
        out
    }
}

} // verus!
