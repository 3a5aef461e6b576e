//! A tab: a tiled layer of panes plus an optional floating layer.

use std::collections::HashMap;

use vstd::prelude::*;

use crate::geometry::{Direction, Ratio};
use crate::layout_api::{build_float_node, buildable, built_focus, built_tree, requested_panes, LayoutNode};
use crate::layout::{
    arrange, arrange_tree, lemma_arrange_preserves_order, lemma_close_focused_keeps_wf,
    lemma_remove_ids, lemma_sync_ids, lemma_without_contains, without, Arrangement, LayoutState, Node, PaneId, PaneIdAllocator, TileLayout,
    Tree,
};

verus! {

broadcast use vstd::std_specs::hash::group_hash_axioms;

/// The identity of a terminal a pane is attached to.
#[derive(Debug, Clone, Copy, PartialEq, Eq, Hash, Structural)]
pub struct TerminalId(pub u64);

/// Per-pane viewport state kept by a tab.
#[derive(Debug, Clone, Copy, PartialEq, Eq, Structural)]
pub struct PaneState {
    pub attached_terminal_id: TerminalId,
}

impl PaneState {
    pub fn new(attached_terminal_id: TerminalId) -> (r: PaneState)
        ensures
            r.attached_terminal_id == attached_terminal_id,
    {
        PaneState { attached_terminal_id }
    }
}

/// A pane taken out of a tab: its id and the terminal it was attached to.
pub type DetachedPane = (PaneId, TerminalId);

/// A pane on its way from one tab to another.
#[derive(Debug)]
pub struct MovedPane {
    pub pane_id: PaneId,
    pub pane_state: PaneState,
}

/// A pane a split has just placed in the tiled layer.
#[derive(Debug)]
pub struct NewPane {
    pub pane_id: PaneId,
    pub terminal_id: TerminalId,
}

/// The layout state of an optional layer.
pub open spec fn layer_state(layer: Option<TileLayout>) -> Option<LayoutState> {
    match layer {
        Some(l) => Some(l@),
        None => None,
    }
}

/// The float layer after `push_float(id)`: a new layer holding just `id`,
/// or `id` inserted after the layer's focused float and focused, or, when
/// that insertion is refused for an id not yet in the layer, the layer
/// rebuilt as a stack with `id` appended and focused.
pub open spec fn layer_after_push(layer: Option<LayoutState>, id: PaneId) -> LayoutState {
    match layer {
        None => LayoutState { tree: Tree::Pane(id), focus: id, prev_focus: None },
        Some(s) => {
            let (placed, after) = s.after_insert_near(
                s.focus,
                id,
                Direction::Vertical,
                Ratio::spec_half(),
                true,
            );
            if placed {
                after
            } else if !s.ids().contains(id) {
                LayoutState {
                    tree: (Tree::Stack { panes: s.ids().push(id), active: s.ids().len() }).sync(id),
                    focus: id,
                    prev_focus: None,
                }
            } else {
                s
            }
        },
    }
}

/// The float layer after closing the float `id`, which is in it: focus
/// moves to `id` and it is closed, then focus goes back to the float that
/// held it before when that float is still there. `None` when the layer
/// is left empty.
pub open spec fn layer_after_close(s: LayoutState, id: PaneId) -> Option<LayoutState> {
    let (closed, after) = s.after_focus_pane(id).after_close_focused();
    if closed {
        if s.focus != id {
            Some(after.after_focus_pane(s.focus))
        } else {
            Some(after)
        }
    } else {
        None
    }
}

/// A tab: a tiled layer of panes plus an optional floating layer.
pub struct Tab {
    pub custom_name: Option<String>,
    pub number: usize,
    /// Identity source for this tab's pane tree.
    pub root_pane: PaneId,
    pub layout: TileLayout,
    /// Pane viewport state, keyed by raw pane id.
    pub panes: HashMap<u32, PaneState>,
    pub zoomed: bool,
    /// The floating layer's own layout, or None when no floats exist.
    pub float_layout: Option<TileLayout>,
    /// Defaults to Stacked: one expanded float, the rest as collapsed bars.
    pub float_arrangement: Arrangement,
    /// Hide the whole floating layer without closing anything.
    pub floats_hidden: bool,
    /// When true, keyboard focus is the focused float.
    pub float_focused: bool,
    /// The arrangement this tab's tiled panes are laid out under.
    pub arrangement: Arrangement,
    /// Set by tiled pane creation, closure and arrangement cycling.
    pub needs_reflow: bool,
    /// The same for the floating layer. The layers carry separate flags because
    /// a re-flow rebuilds a layer under its arrangement and so discards manual
    /// sizing in it.
    pub float_needs_reflow: bool,
}

impl Tab {
    pub open spec fn floats_state(self) -> Option<LayoutState> {
        layer_state(self.float_layout)
    }

    /// The ids of the float layer, empty when there is none.
    pub open spec fn float_ids(self) -> Seq<PaneId> {
        match self.floats_state() {
            Some(s) => s.ids(),
            None => Seq::empty(),
        }
    }

    /// The float holding focus within the layer, when the layer is shown.
    pub open spec fn spec_focused_float(self) -> Option<PaneId> {
        if self.floats_hidden {
            None
        } else {
            match self.floats_state() {
                Some(s) => Some(s.focus),
                None => None,
            }
        }
    }

    /// The pane keyboard input goes to.
    pub open spec fn spec_focused_pane(self) -> PaneId {
        if self.float_focused && self.spec_focused_float() is Some {
            self.spec_focused_float()->0
        } else {
            self.layout@.focus
        }
    }

    /// A tab whose tiled layer is one freshly allocated pane attached to
    /// `terminal`, with no floats. New tabs lay their tiled panes out as a
    /// grid; the float layer starts stacked.
    pub fn new(number: usize, ids: &mut PaneIdAllocator, terminal: TerminalId) -> (r: Tab)
        ensures
            r.root_pane == PaneId(old(ids).next),
            final(ids).next == old(ids).next.wrapping_add(1),
            r.layout@ == (LayoutState { tree: Tree::Pane(r.root_pane), focus: r.root_pane, prev_focus: None }),
            r.panes@ == Map::<u32, PaneState>::empty().insert(r.root_pane.0, PaneState { attached_terminal_id: terminal }),
            r.number == number,
            r.custom_name is None,
            r.float_layout is None,
            r.float_arrangement == Arrangement::Stacked,
            r.arrangement == Arrangement::Grid,
            !r.zoomed && !r.floats_hidden && !r.float_focused && !r.needs_reflow && !r.float_needs_reflow,
    {
        let (layout, root_id) = TileLayout::new(ids);
        let mut panes = HashMap::new();
        panes.insert(root_id.0, PaneState::new(terminal));
        Tab {
            custom_name: None,
            number,
            root_pane: root_id,
            layout,
            panes,
            zoomed: false,
            float_layout: None,
            float_arrangement: Arrangement::Stacked,
            floats_hidden: false,
            float_focused: false,
            arrangement: Arrangement::Grid,
            needs_reflow: false,
            float_needs_reflow: false,
        }
    }

    /// A tab holding just a pane moved in from elsewhere.
    pub fn from_existing_pane(number: usize, custom_name: Option<String>, moved: MovedPane) -> (r: Tab)
        ensures
            r.root_pane == moved.pane_id,
            r.layout@ == (LayoutState { tree: Tree::Pane(moved.pane_id), focus: moved.pane_id, prev_focus: None }),
            r.panes@ == Map::<u32, PaneState>::empty().insert(moved.pane_id.0, moved.pane_state),
            r.number == number,
            r.custom_name == custom_name,
            r.float_layout is None,
            r.float_arrangement == Arrangement::Stacked,
            r.arrangement == Arrangement::Grid,
            !r.zoomed && !r.floats_hidden && !r.float_focused && !r.needs_reflow && !r.float_needs_reflow,
    {
        let mut panes = HashMap::new();
        let pane_id = moved.pane_id;
        panes.insert(pane_id.0, moved.pane_state);
        Tab {
            custom_name,
            number,
            root_pane: pane_id,
            layout: TileLayout::from_saved(Node::Pane(pane_id), pane_id),
            panes,
            zoomed: false,
            float_layout: None,
            float_arrangement: Arrangement::Stacked,
            floats_hidden: false,
            float_focused: false,
            arrangement: Arrangement::Grid,
            needs_reflow: false,
            float_needs_reflow: false,
        }
    }

    pub fn is_auto_named(&self) -> (r: bool)
        ensures
            r == self.custom_name is None,
    {
        self.custom_name.is_none()
    }

    pub fn set_custom_name(&mut self, name: String)
        ensures
            final(self).custom_name == Some(name),
            final(self).layout == old(self).layout,
            final(self).float_layout == old(self).float_layout,
            final(self).panes == old(self).panes,
    {
        self.custom_name = Some(name);
    }

    /// Whether `pane_id` is in the float layer.
    pub fn is_float(&self, pane_id: PaneId) -> (r: bool)
        ensures
            r == self.float_ids().contains(pane_id),
    {
        match &self.float_layout {
            Some(layout) => crate::layout::contains_pane(&layout.pane_ids(), pane_id),
            None => false,
        }
    }

    /// The floating layer's panes, in tree order.
    pub fn floats(&self) -> (r: Vec<PaneId>)
        ensures
            r@ == self.float_ids(),
    {
        match &self.float_layout {
            Some(layout) => layout.pane_ids(),
            None => Vec::new(),
        }
    }

    /// Every pane in this tab, tiled then floating.
    pub fn all_pane_ids(&self) -> (r: Vec<PaneId>)
        ensures
            r@ == self.layout@.ids() + self.float_ids(),
    {
        let mut ids = self.layout.pane_ids();
        let mut floats = self.floats();
        ids.append(&mut floats);
        ids
    }

    /// The float that holds focus within the layer, or None when the layer is
    /// hidden.
    pub fn focused_float(&self) -> (r: Option<PaneId>)
        ensures
            r == self.spec_focused_float(),
    {
        if self.floats_hidden {
            return None;
        }
        match &self.float_layout {
            Some(layout) => Some(layout.focused()),
            None => None,
        }
    }

    /// The pane ids of whichever layer holds focus. Cycling and directional
    /// movement both stay within one layer, because the layers overlap.
    pub fn focused_layer_pane_ids(&self) -> (r: Vec<PaneId>)
        ensures
            r@ == if self.float_focused && !self.floats_hidden {
                self.float_ids()
            } else {
                self.layout@.ids()
            },
    {
        if self.float_focused && !self.floats_hidden {
            self.floats()
        } else {
            self.layout.pane_ids()
        }
    }

    /// Focus resolves to the focused float when the floating layer holds focus,
    /// otherwise to the tiled layer.
    pub fn focused_pane(&self) -> (r: PaneId)
        ensures
            r == self.spec_focused_pane(),
    {
        if self.float_focused {
            if let Some(id) = self.focused_float() {
                return id;
            }
        }
        self.layout.focused()
    }

    /// Add `pane_id` to the float layer, focused, showing the layer and
    /// giving it keyboard focus.
    pub fn push_float(&mut self, pane_id: PaneId, pane_state: PaneState)
        ensures
            final(self).floats_state() == Some(layer_after_push(old(self).floats_state(), pane_id)),
            final(self).panes@ == old(self).panes@.insert(pane_id.0, pane_state),
            !final(self).floats_hidden,
            final(self).float_focused,
            final(self).float_needs_reflow,
            final(self).layout == old(self).layout,
            final(self).root_pane == old(self).root_pane,
            final(self).needs_reflow == old(self).needs_reflow,
            final(self).zoomed == old(self).zoomed,
            final(self).arrangement == old(self).arrangement,
            final(self).float_arrangement == old(self).float_arrangement,
    {
        match self.float_layout.take() {
            Some(mut layout) => {
                let target = layout.focused();
                // Placement here is provisional: the re-flow rebuilds the
                // layer under float_arrangement. insert_pane_near declines
                // when `pane_id` is already in the layer (a re-push) or when
                // `target` is missing; only the second case would orphan the
                // pane, so fall back to a stack entry rather than trust that
                // invariant blindly.
                if !layout.insert_pane_near(target, pane_id, Direction::Vertical, Ratio::half(), true)
                    && !crate::layout::contains_pane(&layout.pane_ids(), pane_id)
                {
                    let mut ids = layout.pane_ids();
                    let active = ids.len();
                    ids.push(pane_id);
                    layout = TileLayout::from_saved(Node::Stack { panes: ids, active }, pane_id);
                }
                self.float_layout = Some(layout);
            },
            None => {
                let layout = TileLayout::from_saved(Node::Pane(pane_id), pane_id);
                self.float_layout = Some(layout);
            },
        }
        self.panes.insert(pane_id.0, pane_state);
        self.floats_hidden = false;
        self.float_focused = true;
        self.float_needs_reflow = true;
    }
}


/// The first pane of `ids` other than `closing`, if any.
pub open spec fn first_other(ids: Seq<PaneId>, closing: PaneId) -> Option<PaneId>
    decreases ids.len(),
{
    if ids.len() == 0 {
        None
    } else if ids[0] != closing {
        Some(ids[0])
    } else {
        first_other(ids.drop_first(), closing)
    }
}

impl Tab {
    /// Unlike `detach_pane`, there is no last-pane guard: closing the final float
    /// is valid because the tiled layer still exists.
    pub fn close_float(&mut self, pane_id: PaneId) -> (r: Option<DetachedPane>)
        ensures
            !old(self).float_ids().contains(pane_id) ==> r is None && *final(self) == *old(self),
            old(self).float_ids().contains(pane_id) ==> {
                let after = layer_after_close(old(self).floats_state()->0, pane_id);
                &&& final(self).floats_state() == after
                &&& final(self).float_focused == (after is Some && old(self).float_focused)
                &&& old(self).panes@.contains_key(pane_id.0) ==> {
                    &&& r == Some((pane_id, old(self).panes@[pane_id.0].attached_terminal_id))
                    &&& final(self).panes@ == old(self).panes@.remove(pane_id.0)
                    &&& final(self).float_needs_reflow
                }
                &&& !old(self).panes@.contains_key(pane_id.0) ==> {
                    &&& r is None
                    &&& final(self).panes@ == old(self).panes@
                    &&& final(self).float_needs_reflow == old(self).float_needs_reflow
                }
                &&& final(self).layout == old(self).layout
                &&& final(self).root_pane == old(self).root_pane
                &&& final(self).floats_hidden == old(self).floats_hidden
                &&& final(self).needs_reflow == old(self).needs_reflow
                &&& final(self).zoomed == old(self).zoomed
            },
    {
        let mut layout = match self.float_layout.take() {
            Some(layout) => layout,
            None => {
                return None;
            },
        };
        if !crate::layout::contains_pane(&layout.pane_ids(), pane_id) {
            self.float_layout = Some(layout);
            return None;
        }
        let previous = layout.focused();
        layout.focus_pane(pane_id);
        if layout.close_focused() {
            if previous != pane_id {
                layout.focus_pane(previous);
            }
            self.float_layout = Some(layout);
        } else {
            // close_focused refuses the last pane, so the layer is now empty.
            self.float_layout = None;
            self.float_focused = false;
        }
        let pane = match self.panes.remove(&pane_id.0) {
            Some(pane) => pane,
            None => {
                return None;
            },
        };
        self.float_needs_reflow = true;
        Some((pane_id, pane.attached_terminal_id))
    }

    /// Give keyboard focus to the float layer, showing it. False when there
    /// is no float or the layer already holds focus.
    pub fn focus_floats(&mut self) -> (r: bool)
        ensures
            r == (old(self).float_layout is Some && !(old(self).float_focused && !old(self).floats_hidden)),
            r ==> !final(self).floats_hidden && final(self).float_focused,
            !r ==> final(self).floats_hidden == old(self).floats_hidden && final(self).float_focused
                == old(self).float_focused,
            final(self).float_layout == old(self).float_layout,
            final(self).layout == old(self).layout,
            final(self).panes == old(self).panes,
    {
        if self.float_layout.is_none() || (self.float_focused && !self.floats_hidden) {
            return false;
        }
        self.floats_hidden = false;
        self.float_focused = true;
        true
    }

    /// Hide or show the float layer. Hiding drops float focus; showing a
    /// layer that has floats gives it focus back. False when nothing changed.
    pub fn set_floats_hidden(&mut self, hidden: bool) -> (r: bool)
        ensures
            r == (old(self).floats_hidden != hidden),
            !r ==> *final(self) == *old(self),
            r ==> *final(self) == (Tab {
                floats_hidden: hidden,
                float_focused: if hidden {
                    false
                } else {
                    old(self).float_layout is Some || old(self).float_focused
                },
                ..*old(self)
            }),
    {
        if self.floats_hidden == hidden {
            return false;
        }
        self.floats_hidden = hidden;
        if hidden {
            self.float_focused = false;
        } else if self.float_layout.is_some() {
            self.float_focused = true;
        }
        true
    }

    /// The tiled pane that takes over as root when `closing` is the root.
    fn promoted_root_if_needed(&self, closing: PaneId) -> (r: Option<PaneId>)
        ensures
            r == if self.root_pane != closing {
                None
            } else {
                first_other(self.layout@.ids(), closing)
            },
    {
        if self.root_pane != closing {
            return None;
        }
        let ids = self.layout.pane_ids();
        assert(ids@.subrange(0, ids@.len() as int) =~= ids@);
        let mut i: usize = 0;
        while i < ids.len()
            invariant
                i <= ids@.len(),
                ids@ == self.layout@.ids(),
                self.root_pane == closing,
                first_other(ids@, closing) == first_other(ids@.subrange(i as int, ids@.len() as int), closing),
            decreases ids@.len() - i,
        {
            assert(ids@.subrange(i as int, ids@.len() as int).drop_first() =~= ids@.subrange(i + 1, ids@.len() as int));
            if ids[i] != closing {
                assert(ids@.subrange(i as int, ids@.len() as int)[0] == ids@[i as int]);
                return Some(ids[i]);
            }
            i += 1;
        }
        None
    }

    /// What closing tiled pane `pane_id` does: the last pane of the tab is
    /// never closed; otherwise the pane leaves the layout, and when the tab
    /// held its state it is handed back, the tab leaves zoom and is marked
    /// for a re-flow, and a closed root pane hands the root to the first
    /// other pane in tree order. The float layer and the arrangement stay.
    pub open spec fn detached(self, after: Tab, pane_id: PaneId, r: Option<DetachedPane>) -> bool {
        &&& self.layout@.ids().len() <= 1 ==> r is None && after == self
        &&& self.layout@.ids().len() > 1 ==> {
            let next_root = if self.root_pane != pane_id {
                None
            } else {
                first_other(self.layout@.ids(), pane_id)
            };
            &&& after.layout@ == self.layout@.after_close_pane(pane_id).1
            &&& self.panes@.contains_key(pane_id.0) ==> {
                &&& r == Some((pane_id, self.panes@[pane_id.0].attached_terminal_id))
                &&& after.panes@ == self.panes@.remove(pane_id.0)
                &&& !after.zoomed
                &&& after.needs_reflow
                &&& after.root_pane == match next_root {
                    Some(id) => id,
                    None => self.root_pane,
                }
            }
            &&& !self.panes@.contains_key(pane_id.0) ==> {
                &&& r is None
                &&& after.panes@ == self.panes@
                &&& after.zoomed == self.zoomed
                &&& after.needs_reflow == self.needs_reflow
                &&& after.root_pane == self.root_pane
            }
            &&& after.float_layout == self.float_layout
            &&& after.float_focused == self.float_focused
            &&& after.floats_hidden == self.floats_hidden
            &&& after.float_needs_reflow == self.float_needs_reflow
            &&& after.arrangement == self.arrangement
        }
    }

    fn detach_pane(&mut self, pane_id: PaneId) -> (r: Option<DetachedPane>)
        ensures
            old(self).detached(*final(self), pane_id, r),
    {
        if self.layout.pane_count() <= 1 {
            return None;
        }
        let next_root = self.promoted_root_if_needed(pane_id);
        self.layout.close_pane(pane_id);
        let ghost before = self.panes@;
        let pane = match self.panes.remove(&pane_id.0) {
            Some(pane) => pane,
            None => {
                assert(self.panes@ =~= before);
                return None;
            },
        };
        assert(self.panes@ =~= before.remove(pane_id.0));
        let terminal_id = pane.attached_terminal_id;
        self.zoomed = false;
        self.needs_reflow = true;
        if let Some(next_root) = next_root {
            self.root_pane = next_root;
        }
        Some((pane_id, terminal_id))
    }

    /// Close the focused tiled pane.
    pub fn close_focused(&mut self) -> (r: Option<DetachedPane>)
        ensures
            old(self).detached(*final(self), old(self).layout@.focus, r),
    {
        let pane_id = self.layout.focused();
        self.detach_pane(pane_id)
    }

    /// Close a tiled pane; the last pane of the tab is never closed.
    pub fn close_pane(&mut self, pane_id: PaneId) -> (r: Option<DetachedPane>)
        ensures
            old(self).detached(*final(self), pane_id, r),
    {
        self.detach_pane(pane_id)
    }

    /// The same as `close_pane`, for a pane leaving the tab.
    pub fn remove_pane(&mut self, pane_id: PaneId) -> (r: Option<DetachedPane>)
        ensures
            old(self).detached(*final(self), pane_id, r),
    {
        self.detach_pane(pane_id)
    }

    /// Take a tiled pane out of the tab so it can move elsewhere. None for a
    /// pane the tab does not hold or for a float.
    pub fn take_pane_for_move(&mut self, pane_id: PaneId) -> (r: Option<MovedPane>)
        ensures
            (!old(self).panes@.contains_key(pane_id.0) || old(self).float_ids().contains(pane_id))
                ==> r is None && *final(self) == *old(self),
            (old(self).panes@.contains_key(pane_id.0) && !old(self).float_ids().contains(pane_id))
                ==> {
                &&& r == Some(MovedPane { pane_id, pane_state: old(self).panes@[pane_id.0] })
                &&& final(self).panes@ == old(self).panes@.remove(pane_id.0)
                &&& final(self).layout@ == if old(self).layout@.ids().len() > 1 {
                    old(self).layout@.after_close_pane(pane_id).1
                } else {
                    old(self).layout@
                }
                &&& final(self).root_pane == if old(self).layout@.ids().len() > 1 && old(self).root_pane
                    == pane_id && first_other(old(self).layout@.ids(), pane_id) is Some {
                    first_other(old(self).layout@.ids(), pane_id)->0
                } else {
                    old(self).root_pane
                }
                &&& !final(self).zoomed
                &&& final(self).needs_reflow
                &&& final(self).float_layout == old(self).float_layout
            },
    {
        if !self.panes.contains_key(&pane_id.0) {
            return None;
        }
        if self.is_float(pane_id) {
            return None;
        }
        if self.layout.pane_count() > 1 {
            let next_root = self.promoted_root_if_needed(pane_id);
            self.layout.close_pane(pane_id);
            if let Some(next_root) = next_root {
                self.root_pane = next_root;
            }
        }
        let pane_state = match self.panes.remove(&pane_id.0) {
            Some(pane_state) => pane_state,
            None => {
                return None;
            },
        };
        self.zoomed = false;
        self.needs_reflow = true;
        Some(MovedPane { pane_id, pane_state })
    }

    /// Place a pane moved in from elsewhere next to `target_pane_id`. Hands
    /// the pane back when the tiled layer refuses it.
    pub fn insert_existing_pane(&mut self, target_pane_id: PaneId, moved: MovedPane, direction: Direction, ratio: Ratio, focus: bool) -> (r: Result<PaneId, MovedPane>)
        ensures
            ({
                let (placed, after) = old(self).layout@.after_insert_near(
                    target_pane_id,
                    moved.pane_id,
                    direction,
                    ratio,
                    focus,
                );
                &&& final(self).layout@ == after
                &&& !placed ==> r == Err::<PaneId, MovedPane>(moved) && final(self).panes == old(self).panes
                    && final(self).needs_reflow == old(self).needs_reflow && final(self).zoomed == old(self).zoomed
                &&& placed ==> r == Ok::<PaneId, MovedPane>(moved.pane_id) && final(self).panes@ == old(
                    self,
                ).panes@.insert(moved.pane_id.0, moved.pane_state) && final(self).needs_reflow
                    && !final(self).zoomed
            }),
            final(self).float_layout == old(self).float_layout,
            final(self).root_pane == old(self).root_pane,
    {
        if !self.layout.insert_pane_near(target_pane_id, moved.pane_id, direction, ratio, focus) {
            return Err(moved);
        }
        let pane_id = moved.pane_id;
        self.panes.insert(pane_id.0, moved.pane_state);
        self.zoomed = false;
        self.needs_reflow = true;
        Ok(pane_id)
    }

    /// The terminal a pane of this tab is attached to.
    pub fn terminal_id(&self, pane_id: PaneId) -> (r: Option<TerminalId>)
        ensures
            r == if self.panes@.contains_key(pane_id.0) {
                Some(self.panes@[pane_id.0].attached_terminal_id)
            } else {
                None
            },
    {
        match self.panes.get(&pane_id.0) {
            Some(pane) => Some(pane.attached_terminal_id),
            None => None,
        }
    }

    /// The directory `cwds` holds for the terminal a pane of this tab is
    /// attached to, if any.
    pub open spec fn spec_pane_dir(&self, pane_id: PaneId, cwds: Map<u64, String>) -> Option<Seq<char>> {
        if self.panes@.contains_key(pane_id.0) && cwds.contains_key(self.panes@[pane_id.0].attached_terminal_id.0) {
            Some(cwds[self.panes@[pane_id.0].attached_terminal_id.0]@)
        } else {
            None
        }
    }

    fn pane_dir(&self, pane_id: PaneId, cwds: &HashMap<u64, String>) -> (r: Option<String>)
        ensures
            match r {
                Some(s) => self.spec_pane_dir(pane_id, cwds@) == Some(s@),
                None => self.spec_pane_dir(pane_id, cwds@) is None,
            },
    {
        let terminal = match self.terminal_id(pane_id) {
            Some(t) => t,
            None => return None,
        };
        match cwds.get(&terminal.0) {
            Some(dir) => Some(dir.clone()),
            None => None,
        }
    }

    /// The working directory of a pane's terminal: the one its running
    /// terminal reports (`live`, by terminal id), else the one recorded for
    /// it (`recorded`); `None` when the pane is not in this tab or neither
    /// knows it.
    pub fn cwd_for_pane(&self, pane_id: PaneId, recorded: &HashMap<u64, String>, live: &HashMap<u64, String>) -> (r: Option<
        String,
    >)
        ensures
            match r {
                Some(s) => Some(s@) == if self.spec_pane_dir(pane_id, live@) is Some {
                    self.spec_pane_dir(pane_id, live@)
                } else {
                    self.spec_pane_dir(pane_id, recorded@)
                },
                None => self.spec_pane_dir(pane_id, live@) is None && self.spec_pane_dir(pane_id, recorded@) is None,
            },
    {
        match self.pane_dir(pane_id, live) {
            Some(dir) => Some(dir),
            None => self.pane_dir(pane_id, recorded),
        }
    }

    /// The working directory of the process in the foreground of a pane's
    /// terminal, as its running terminal reports it (`foreground`, by
    /// terminal id); `None` when the pane is not in this tab or the terminal
    /// does not report one.
    pub fn foreground_cwd_for_pane(&self, pane_id: PaneId, foreground: &HashMap<u64, String>) -> (r: Option<String>)
        ensures
            match r {
                Some(s) => self.spec_pane_dir(pane_id, foreground@) == Some(s@),
                None => self.spec_pane_dir(pane_id, foreground@) is None,
            },
    {
        self.pane_dir(pane_id, foreground)
    }

    /// The state this tab keeps for a pane.
    pub fn pane_state(&self, pane_id: PaneId) -> (r: Option<PaneState>)
        ensures
            r == if self.panes@.contains_key(pane_id.0) {
                Some(self.panes@[pane_id.0])
            } else {
                None
            },
    {
        match self.panes.get(&pane_id.0) {
            Some(pane) => Some(*pane),
            None => None,
        }
    }

    /// Move to the next (or previous) arrangement and mark the tiled layer
    /// for a re-flow.
    pub fn cycle_arrangement(&mut self, forward: bool)
        ensures
            *final(self) == (Tab {
                arrangement: if forward {
                    old(self).arrangement.spec_next()
                } else {
                    old(self).arrangement.spec_previous()
                },
                needs_reflow: true,
                ..*old(self)
            }),
    {
        self.arrangement = if forward {
            self.arrangement.next()
        } else {
            self.arrangement.previous()
        };
        self.needs_reflow = true;
    }
}


/// A layer rebuilt under `kind` from its pane order, keeping its focus.
/// An empty layer is left as it is.
pub open spec fn reflowed(s: LayoutState, kind: Arrangement, grid_columns: nat) -> LayoutState {
    if s.ids().len() == 0 {
        s
    } else {
        LayoutState {
            tree: arrange_tree(kind, s.ids(), s.focus, grid_columns).sync(s.focus),
            focus: s.focus,
            prev_focus: None,
        }
    }
}

/// Why a split could not be made.
#[derive(Debug, Clone, Copy, PartialEq, Eq, Structural)]
pub enum SplitError {
    /// The pane to split is not in the tiled layer.
    TargetMissing,
}

impl SplitError {
    /// The error's message.
    pub fn message(&self) -> (r: String)
        ensures
            r@ == "split target pane is not in the layout"@,
    {
        String::from_str("split target pane is not in the layout")
    }
}

/// Rebuild one layer under `kind`, keeping its order and focus.
fn reflow_layer(layout: TileLayout, kind: Arrangement, grid_columns: usize) -> (r: TileLayout)
    requires
        kind == Arrangement::Grid && layout@.ids().len() > 0 ==> 1 <= grid_columns <= layout@.ids().len(),
    ensures
        r@ == reflowed(layout@, kind, grid_columns as nat),
{
    let panes = layout.pane_ids();
    let focus = layout.focused();
    match arrange(kind, panes.as_slice(), focus, grid_columns) {
        Some(root) => TileLayout::from_saved(root, focus),
        None => layout,
    }
}

impl Tab {
    /// Regenerate whichever layers are dirty under their arrangements,
    /// preserving pane order and focus. `grid_columns` is the column count a
    /// grid of the tiled panes takes in the tab's area; `float_grid_columns`
    /// the same for the float panes in the float region, or `None` when the
    /// region cannot be resolved, which leaves the float layer dirty so it
    /// re-flows once the terminal is big enough to hold one.
    pub fn reflow(&mut self, grid_columns: usize, float_grid_columns: Option<usize>)
        requires
            old(self).needs_reflow && old(self).arrangement == Arrangement::Grid && old(self).layout@.ids().len() > 0
                ==> 1 <= grid_columns <= old(self).layout@.ids().len(),
            old(self).float_needs_reflow && old(self).float_arrangement == Arrangement::Grid
                && float_grid_columns is Some && old(self).float_ids().len() > 0
                ==> 1 <= float_grid_columns->0 <= old(self).float_ids().len(),
        ensures
            !final(self).needs_reflow,
            final(self).layout@ == if old(self).needs_reflow {
                reflowed(old(self).layout@, old(self).arrangement, grid_columns as nat)
            } else {
                old(self).layout@
            },
            final(self).float_needs_reflow == (old(self).float_needs_reflow && old(self).float_layout is Some
                && float_grid_columns is None),
            final(self).floats_state() == match old(self).floats_state() {
                Some(f) => if old(self).float_needs_reflow && float_grid_columns is Some {
                    Some(reflowed(f, old(self).float_arrangement, float_grid_columns->0 as nat))
                } else {
                    Some(f)
                },
                None => None,
            },
            // Pane order and focus survive a re-flow in both layers.
            final(self).layout@.ids() == old(self).layout@.ids(),
            final(self).layout@.focus == old(self).layout@.focus,
            final(self).float_ids() == old(self).float_ids(),
            final(self).spec_focused_float() == old(self).spec_focused_float(),
            final(self).panes == old(self).panes,
            final(self).root_pane == old(self).root_pane,
            final(self).zoomed == old(self).zoomed,
            final(self).arrangement == old(self).arrangement,
            final(self).float_arrangement == old(self).float_arrangement,
            final(self).floats_hidden == old(self).floats_hidden,
            final(self).float_focused == old(self).float_focused,
    {
        if self.needs_reflow {
            proof {
                lemma_reflowed_keeps_order(self.layout@, self.arrangement, grid_columns as nat);
            }
            self.needs_reflow = false;
            let mut layout = TileLayout::from_saved(Node::Pane(self.root_pane), self.root_pane);
            std::mem::swap(&mut layout, &mut self.layout);
            self.layout = reflow_layer(layout, self.arrangement, grid_columns);
        }
        if !self.float_needs_reflow {
            return;
        }
        let float_layout = match self.float_layout.take() {
            Some(layout) => layout,
            None => {
                self.float_needs_reflow = false;
                return;
            },
        };
        let columns = match float_grid_columns {
            Some(columns) => columns,
            None => {
                self.float_layout = Some(float_layout);
                return;
            },
        };
        proof {
            lemma_reflowed_keeps_order(float_layout@, self.float_arrangement, columns as nat);
        }
        self.float_needs_reflow = false;
        self.float_layout = Some(reflow_layer(float_layout, self.float_arrangement, columns));
    }

    /// The tab's pane states with one state added for each of `spawned`,
    /// attached to its terminal, in order.
    pub open spec fn with_spawned(panes: Map<u32, PaneState>, spawned: Seq<NewPane>) -> Map<u32, PaneState>
        decreases spawned.len(),
    {
        if spawned.len() == 0 {
            panes
        } else {
            Tab::with_spawned(panes, spawned.drop_last()).insert(
                spawned.last().pane_id.0,
                PaneState { attached_terminal_id: spawned.last().terminal_id },
            )
        }
    }

    /// The ids of `spawned`, in order.
    pub open spec fn spawned_ids(spawned: Seq<NewPane>) -> Seq<PaneId> {
        spawned.map_values(|p: NewPane| p.pane_id)
    }

    /// Install the float layer a request asked for, once a pane was spawned
    /// for each of its leaves (`spawned`, in tree order): the layer is the
    /// tree the request builds on those panes, focused as it says, and each
    /// pane's state is kept. The request is one that passed validation.
    pub fn install_float_layer(&mut self, request: &LayoutNode, spawned: &[NewPane])
        requires
            buildable(*request),
            spawned@.len() == requested_panes(*request),
        ensures
            *final(self) == (Tab { float_layout: final(self).float_layout, panes: final(self).panes, ..*old(self) }),
            ({
                let ids = Tab::spawned_ids(spawned@);
                let focus = built_focus(*request, ids);
                final(self).floats_state() == Some(
                    LayoutState { tree: built_tree(*request, ids).sync(focus), focus, prev_focus: None },
                )
            }),
            final(self).panes@ == Tab::with_spawned(old(self).panes@, spawned@),
    {
        let mut ids: Vec<PaneId> = Vec::new();
        let mut i: usize = 0;
        let ghost start = self.panes@;
        while i < spawned.len()
            invariant
                i <= spawned@.len(),
                ids@ == Tab::spawned_ids(spawned@.subrange(0, i as int)),
                self.panes@ == Tab::with_spawned(start, spawned@.subrange(0, i as int)),
                *self == (Tab { panes: self.panes, ..*old(self) }),
            decreases spawned@.len() - i,
        {
            let p = &spawned[i];
            ids.push(p.pane_id);
            self.panes.insert(p.pane_id.0, PaneState::new(p.terminal_id));
            assert(spawned@.subrange(0, i + 1).drop_last() =~= spawned@.subrange(0, i as int));
            assert(ids@ =~= Tab::spawned_ids(spawned@.subrange(0, i + 1)));
            i += 1;
        }
        assert(spawned@.subrange(0, spawned@.len() as int) =~= spawned@);
        let (node, focus) = build_float_node(request, ids.as_slice());
        self.float_layout = Some(TileLayout::from_saved(node, focus));
    }

    /// Record that a requested layout has just been built in this tab: both
    /// layers now hold the shape the request asked for, so neither is
    /// re-flowed (which would discard it back into the layer's arrangement),
    /// and a requested stack root becomes the layer's arrangement.
    pub fn mark_layout_applied(&mut self, root_is_stack: bool, float_root_is_stack: bool)
        ensures
            !final(self).needs_reflow,
            !final(self).float_needs_reflow,
            final(self).arrangement == if root_is_stack {
                Arrangement::Stacked
            } else {
                old(self).arrangement
            },
            final(self).float_arrangement == if float_root_is_stack {
                Arrangement::Stacked
            } else {
                old(self).float_arrangement
            },
            final(self).layout == old(self).layout,
            final(self).float_layout == old(self).float_layout,
            final(self).panes == old(self).panes,
            final(self).root_pane == old(self).root_pane,
            final(self).zoomed == old(self).zoomed,
    {
        self.needs_reflow = false;
        self.float_needs_reflow = false;
        if root_is_stack {
            self.arrangement = Arrangement::Stacked;
        }
        if float_root_is_stack {
            self.float_arrangement = Arrangement::Stacked;
        }
    }

    /// First half of a split: carve a slot for a new pane next to `target`
    /// (half and half unless `ratio` says otherwise) without moving focus.
    /// The caller then starts the pane's terminal and calls `finish_split`,
    /// or `abandon_split` when that fails.
    pub fn reserve_split(
        &mut self,
        ids: &mut PaneIdAllocator,
        target: PaneId,
        direction: Direction,
        ratio: Option<Ratio>,
    ) -> (r: Result<PaneId, SplitError>)
        ensures
            !old(self).layout@.ids().contains(target) ==> r == Err::<PaneId, SplitError>(SplitError::TargetMissing)
                && final(self).layout@ == old(self).layout@ && final(ids).next == old(ids).next,
            final(self).panes == old(self).panes,
            final(self).float_layout == old(self).float_layout,
            final(self).needs_reflow == old(self).needs_reflow,
            final(self).zoomed == old(self).zoomed,
            final(self).root_pane == old(self).root_pane,
            final(self).arrangement == old(self).arrangement,
            old(self).layout@.ids().contains(target) ==> {
                let new_id = PaneId(old(ids).next);
                let used = match ratio {
                    Some(x) => x,
                    None => Ratio::spec_half(),
                };
                &&& r == Ok::<PaneId, SplitError>(new_id)
                &&& final(ids).next == old(ids).next.wrapping_add(1)
                &&& final(self).layout@ == (LayoutState {
                    tree: old(self).layout@.tree.split_at(target, direction, new_id, used.spec_clamp_user()).sync(
                        old(self).layout@.focus,
                    ),
                    ..old(self).layout@
                })
            },
    {
        let used = match ratio {
            Some(x) => x,
            None => Ratio::half(),
        };
        match self.layout.split_pane(ids, target, direction, used) {
            Some(new_id) => Ok(new_id),
            None => Err(SplitError::TargetMissing),
        }
    }

    /// Second half of a split whose terminal started: attach it, focus the
    /// new pane when asked, and mark the tiled layer for a re-flow.
    pub fn finish_split(&mut self, new_id: PaneId, focus_new_pane: bool, terminal: TerminalId) -> (r: NewPane)
        ensures
            r == (NewPane { pane_id: new_id, terminal_id: terminal }),
            final(self).layout@ == if focus_new_pane {
                old(self).layout@.after_focus_pane(new_id)
            } else {
                old(self).layout@
            },
            final(self).panes@ == old(self).panes@.insert(new_id.0, PaneState { attached_terminal_id: terminal }),
            !final(self).zoomed,
            final(self).needs_reflow,
            final(self).float_layout == old(self).float_layout,
            final(self).float_needs_reflow == old(self).float_needs_reflow,
            final(self).root_pane == old(self).root_pane,
            final(self).arrangement == old(self).arrangement,
    {
        if focus_new_pane {
            self.layout.focus_pane(new_id);
        }
        self.panes.insert(new_id.0, PaneState::new(terminal));
        self.zoomed = false;
        self.needs_reflow = true;
        NewPane { pane_id: new_id, terminal_id: terminal }
    }

    /// Roll a reserved split back when its terminal could not start: the
    /// slot is closed again, leaving focus and its history alone.
    pub fn abandon_split(&mut self, new_id: PaneId)
        ensures
            final(self).layout@ == old(self).layout@.after_close_pane(new_id).1,
            final(self).panes == old(self).panes,
            final(self).float_layout == old(self).float_layout,
            final(self).needs_reflow == old(self).needs_reflow,
            final(self).zoomed == old(self).zoomed,
            final(self).root_pane == old(self).root_pane,
    {
        self.layout.close_pane(new_id);
    }
}

/// Rebuilding a layer keeps its panes, in order, and its focus.
pub proof fn lemma_reflowed_keeps_order(s: LayoutState, kind: Arrangement, grid_columns: nat)
    requires
        kind == Arrangement::Grid && s.ids().len() > 0 ==> 1 <= grid_columns <= s.ids().len(),
    ensures
        reflowed(s, kind, grid_columns).ids() == s.ids(),
        reflowed(s, kind, grid_columns).focus == s.focus,
{
    if s.ids().len() > 0 {
        lemma_arrange_preserves_order(kind, s.ids(), s.focus, grid_columns);
        lemma_sync_ids(arrange_tree(kind, s.ids(), s.focus, grid_columns), s.focus);
    }
}

/// Closing one float of a well-formed layer removes exactly that float and
/// keeps the others in order and well-formed; only the last float empties
/// the layer.
pub proof fn lemma_close_float_keeps_the_others(s: LayoutState, id: PaneId)
    requires
        s.wf(),
        s.ids().contains(id),
    ensures
        layer_after_close(s, id) is None <==> s.ids().len() == 1,
        layer_after_close(s, id) is Some ==> {
            &&& layer_after_close(s, id)->0.ids() == without(s.ids(), id)
            &&& layer_after_close(s, id)->0.wf()
        },
{
    let f = s.after_focus_pane(id);
    lemma_sync_ids(s.tree, id);
    assert(f.ids() == s.ids());
    if s.ids().len() > 1 {
        lemma_close_focused_keeps_wf(f);
        lemma_remove_ids(f.tree, id);
        let (closed, after) = f.after_close_focused();
        lemma_sync_ids(f.tree.remove(id)->0, f.close_focus_target());
        assert(after.ids() == without(s.ids(), id));
        if s.focus != id {
            lemma_without_contains(s.ids(), id, s.focus);
            lemma_sync_ids(after.tree, s.focus);
        }
    }
}

} // verus!
