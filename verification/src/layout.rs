//! BSP tree layout for tiling panes within a workspace.

use vstd::prelude::*;

use crate::geometry::{
    even_ratio, even_share, rect_new, split_rect, split_rect_spec, Borders, Direction, Ratio, Rect, MAX_COORD,
};

verus! {

/// A pane's identity. Ids come from a `PaneIdAllocator`, so two panes the
/// same allocator handed out never share one.
#[derive(Debug, Clone, Copy, PartialEq, Eq, Hash, Structural)]
pub struct PaneId(pub u32);

/// The source of fresh pane ids: a counter that hands out its current
/// value and moves on.
#[derive(Debug)]
pub struct PaneIdAllocator {
    pub next: u32,
}

impl PaneIdAllocator {
    /// An allocator whose first id is 1, leaving 0 free as a placeholder.
    pub fn new() -> (r: PaneIdAllocator)
        ensures
            r.next == 1,
    {
        PaneIdAllocator { next: 1 }
    }
}

impl PaneId {
    /// Allocate the allocator's next id.
    pub fn allocate(ids: &mut PaneIdAllocator) -> (r: PaneId)
        ensures
            r == PaneId(old(ids).next),
            final(ids).next == old(ids).next.wrapping_add(1),
    {
        let id = ids.next;
        ids.next = ids.next.wrapping_add(1);
        PaneId(id)
    }

    pub fn raw(self) -> (r: u32)
        ensures
            r == self.0,
    {
        self.0
    }

    /// Reconstruct from a saved u32 (persistence only).
    pub fn from_raw(id: u32) -> (r: PaneId)
        ensures
            r == PaneId(id),
    {
        PaneId(id)
    }
}

/// Cardinal direction for pane navigation.
#[derive(Debug, Clone, Copy, PartialEq, Eq, Structural)]
pub enum NavDirection {
    Left,
    Right,
    Up,
    Down,
}

/// A named pane arrangement. Cycling regenerates the tree from the tab's
/// ordered pane list rather than mutating the existing shape.
#[derive(Debug, Clone, Copy, PartialEq, Eq, Structural)]
pub enum Arrangement {
    /// Even columns.
    Vertical,
    /// Even rows.
    Horizontal,
    /// Balanced rectangular grid.
    Grid,
    /// One stack holding every pane.
    Stacked,
}

impl Arrangement {
    pub open spec fn spec_next(self) -> Arrangement {
        match self {
            Arrangement::Vertical => Arrangement::Horizontal,
            Arrangement::Horizontal => Arrangement::Grid,
            Arrangement::Grid => Arrangement::Stacked,
            Arrangement::Stacked => Arrangement::Vertical,
        }
    }

    pub open spec fn spec_previous(self) -> Arrangement {
        match self {
            Arrangement::Vertical => Arrangement::Stacked,
            Arrangement::Horizontal => Arrangement::Vertical,
            Arrangement::Grid => Arrangement::Horizontal,
            Arrangement::Stacked => Arrangement::Grid,
        }
    }

    /// The arrangement after this one: vertical, horizontal, grid, stacked,
    /// then round again.
    pub fn next(self) -> (r: Arrangement)
        ensures
            r == self.spec_next(),
    {
        match self {
            Arrangement::Vertical => Arrangement::Horizontal,
            Arrangement::Horizontal => Arrangement::Grid,
            Arrangement::Grid => Arrangement::Stacked,
            Arrangement::Stacked => Arrangement::Vertical,
        }
    }

    /// The arrangement before this one.
    pub fn previous(self) -> (r: Arrangement)
        ensures
            r == self.spec_previous(),
    {
        match self {
            Arrangement::Vertical => Arrangement::Stacked,
            Arrangement::Horizontal => Arrangement::Vertical,
            Arrangement::Grid => Arrangement::Horizontal,
            Arrangement::Stacked => Arrangement::Grid,
        }
    }
}

impl Default for Arrangement {
    /// A fresh layer stacks its panes.
    fn default() -> (r: Arrangement)
        ensures
            r == Arrangement::Stacked,
    {
        Arrangement::Stacked
    }
}

/// `previous` undoes `next`, and `next` undoes `previous`.
pub proof fn lemma_arrangement_previous_inverts_next(kind: Arrangement)
    ensures
        kind.spec_next().spec_previous() == kind,
        kind.spec_previous().spec_next() == kind,
{
}

/// Cycling forward through all four arrangements comes back to the start.
pub proof fn lemma_arrangement_cycle_has_length_four(kind: Arrangement)
    ensures
        kind.spec_next().spec_next().spec_next().spec_next() == kind,
        kind.spec_next() != kind,
        kind.spec_next().spec_next() != kind,
        kind.spec_next().spec_next().spec_next() != kind,
{
}

// --- The layout tree and its mathematical model ---

/// The shape of a layout tree as a mathematical value.
pub enum Tree {
    Pane(PaneId),
    Split { direction: Direction, ratio: Ratio, first: Box<Tree>, second: Box<Tree> },
    Stack { panes: Seq<PaneId>, active: nat },
}

/// A node in the BSP tree.
#[derive(Debug)]
pub enum Node {
    Pane(PaneId),
    Split { direction: Direction, ratio: Ratio, first: Box<Node>, second: Box<Node> },
    /// A flat stack of panes sharing one rect. Stacks do not nest, and a split
    /// cannot live inside one, which keeps the tree recursion to a single shape.
    Stack { panes: Vec<PaneId>, active: usize },
}

impl View for Node {
    type V = Tree;

    open spec fn view(&self) -> Tree
        decreases self,
    {
        match self {
            Node::Pane(id) => Tree::Pane(*id),
            Node::Split { direction, ratio, first, second } => Tree::Split {
                direction: *direction,
                ratio: *ratio,
                first: Box::new((**first).view()),
                second: Box::new((**second).view()),
            },
            Node::Stack { panes, active } => Tree::Stack { panes: panes@, active: *active as nat },
        }
    }
}

/// `i` is the first position of `x` in `s`.
pub open spec fn is_first_index(s: Seq<PaneId>, x: PaneId, i: int) -> bool {
    &&& 0 <= i < s.len()
    &&& s[i] == x
    &&& forall|j: int| 0 <= j < i ==> s[j] != x
}

/// The first position of `x` in `s`, or -1 when it is absent.
pub open spec fn first_index(s: Seq<PaneId>, x: PaneId) -> int {
    if s.contains(x) {
        choose|i: int| is_first_index(s, x, i)
    } else {
        -1
    }
}

pub(crate) proof fn lemma_first_index(s: Seq<PaneId>, x: PaneId, i: int)
    requires
        is_first_index(s, x, i),
    ensures
        first_index(s, x) == i,
{
    assert(s.contains(x));
    let k = choose|k: int| is_first_index(s, x, k);
    assert(is_first_index(s, x, k));
    if k < i {
        assert(s[k] != x);
    } else if i < k {
        assert(s[i] != x);
    }
}

pub(crate) proof fn lemma_first_index_exists(s: Seq<PaneId>, x: PaneId)
    requires
        s.contains(x),
    ensures
        is_first_index(s, x, first_index(s, x)),
    decreases s.len(),
{
    if s[0] == x {
        lemma_first_index(s, x, 0);
    } else {
        let t = s.drop_first();
        assert(t.contains(x)) by {
            let k = choose|k: int| 0 <= k < s.len() && s[k] == x;
            assert(t[k - 1] == x);
        }
        lemma_first_index_exists(t, x);
        let j = first_index(t, x);
        assert(is_first_index(s, x, j + 1)) by {
            assert forall|m: int| 0 <= m < j + 1 implies s[m] != x by {
                if m > 0 {
                    assert(s[m] == t[m - 1]);
                }
            }
        }
        lemma_first_index(s, x, j + 1);
    }
}

/// `s` with every occurrence of `x` taken out, order kept.
pub open spec fn without(s: Seq<PaneId>, x: PaneId) -> Seq<PaneId>
    decreases s.len(),
{
    if s.len() == 0 {
        s
    } else {
        let rest = without(s.drop_last(), x);
        if s.last() == x {
            rest
        } else {
            rest.push(s.last())
        }
    }
}

pub(crate) proof fn lemma_without_append(a: Seq<PaneId>, b: Seq<PaneId>, x: PaneId)
    ensures
        without(a + b, x) == without(a, x) + without(b, x),
    decreases b.len(),
{
    if b.len() == 0 {
        assert(a + b =~= a);
        assert(without(a, x) + without(b, x) =~= without(a, x));
    } else {
        lemma_without_append(a, b.drop_last(), x);
        assert((a + b).drop_last() =~= a + b.drop_last());
        assert((a + b).last() == b.last());
        if b.last() == x {
        } else {
            assert(without(a, x) + without(b.drop_last(), x).push(b.last()) =~= (without(a, x)
                + without(b.drop_last(), x)).push(b.last()));
        }
    }
}

pub(crate) proof fn lemma_without_contains(s: Seq<PaneId>, x: PaneId, y: PaneId)
    ensures
        without(s, x).contains(y) <==> (s.contains(y) && y != x),
    decreases s.len(),
{
    if s.len() > 0 {
        let d = s.drop_last();
        let rest = without(d, x);
        lemma_without_contains(d, x, y);
        assert(s.contains(y) <==> (d.contains(y) || s.last() == y)) by {
            if s.contains(y) {
                let k = choose|k: int| 0 <= k < s.len() && s[k] == y;
                if k < s.len() - 1 {
                    assert(d[k] == y);
                }
            }
            if d.contains(y) {
                let k = choose|k: int| 0 <= k < d.len() && d[k] == y;
                assert(s[k] == y);
            }
        }
        if s.last() != x {
            let w = rest.push(s.last());
            assert(w.contains(y) <==> (rest.contains(y) || s.last() == y)) by {
                if w.contains(y) {
                    let k = choose|k: int| 0 <= k < w.len() && w[k] == y;
                    if k < rest.len() {
                        assert(rest[k] == y);
                    }
                }
                if rest.contains(y) {
                    let k = choose|k: int| 0 <= k < rest.len() && rest[k] == y;
                    assert(w[k] == y);
                }
                if s.last() == y {
                    assert(w[rest.len() as int] == y);
                }
            }
        }
    }
}

/// The tree with `a` and `b` exchanged.
pub open spec fn swap_id(p: PaneId, a: PaneId, b: PaneId) -> PaneId {
    if p == a {
        b
    } else if p == b {
        a
    } else {
        p
    }
}

impl Tree {
    /// The tree's pane ids in tree order: depth first, first child before
    /// second, stack members in their stack order.
    pub open spec fn ids(self) -> Seq<PaneId>
        decreases self,
    {
        match self {
            Tree::Pane(id) => seq![id],
            Tree::Split { first, second, .. } => first.ids() + second.ids(),
            Tree::Stack { panes, .. } => panes,
        }
    }

    /// The tree after `split_at`: every leaf holding `target` becomes a split
    /// of `target` then `new_id`, and a stack holding `target` gets `new_id`
    /// right after its first occurrence, which becomes the active member.
    pub open spec fn split_at(self, target: PaneId, direction: Direction, new_id: PaneId, ratio: Ratio) -> Tree
        decreases self,
    {
        match self {
            Tree::Pane(id) => if id == target {
                Tree::Split {
                    direction,
                    ratio,
                    first: Box::new(Tree::Pane(id)),
                    second: Box::new(Tree::Pane(new_id)),
                }
            } else {
                self
            },
            Tree::Split { direction: d, ratio: r, first, second } => Tree::Split {
                direction: d,
                ratio: r,
                first: Box::new(first.split_at(target, direction, new_id, ratio)),
                second: Box::new(second.split_at(target, direction, new_id, ratio)),
            },
            Tree::Stack { panes, active } => if panes.contains(target) {
                let i = first_index(panes, target);
                Tree::Stack { panes: panes.insert(i + 1, new_id), active: (i + 1) as nat }
            } else {
                self
            },
        }
    }

    /// The tree after `remove_pane`: every occurrence of `target` is gone, a
    /// split with one empty side is replaced by its other side, a stack left
    /// with one pane becomes that pane, and a stack's active index is clamped.
    /// `None` when nothing remains.
    pub open spec fn remove(self, target: PaneId) -> Option<Tree>
        decreases self,
    {
        match self {
            Tree::Pane(id) => if id == target {
                None
            } else {
                Some(self)
            },
            Tree::Split { direction, ratio, first, second } => match (
                first.remove(target),
                second.remove(target),
            ) {
                (None, Some(s)) => Some(s),
                (Some(f), None) => Some(f),
                (Some(f), Some(s)) => Some(
                    Tree::Split { direction, ratio, first: Box::new(f), second: Box::new(s) },
                ),
                (None, None) => None,
            },
            Tree::Stack { panes, active } => {
                let kept = without(panes, target);
                if kept.len() == 0 {
                    None
                } else if kept.len() == 1 {
                    Some(Tree::Pane(kept[0]))
                } else {
                    Some(
                        Tree::Stack {
                            panes: kept,
                            active: if active < kept.len() - 1 {
                                active
                            } else {
                                (kept.len() - 1) as nat
                            },
                        },
                    )
                }
            },
        }
    }

    /// The tree with the ids `a` and `b` exchanged everywhere.
    pub open spec fn swap(self, a: PaneId, b: PaneId) -> Tree
        decreases self,
    {
        match self {
            Tree::Pane(id) => Tree::Pane(swap_id(id, a, b)),
            Tree::Split { direction, ratio, first, second } => Tree::Split {
                direction,
                ratio,
                first: Box::new(first.swap(a, b)),
                second: Box::new(second.swap(a, b)),
            },
            Tree::Stack { panes, active } => Tree::Stack {
                panes: panes.map_values(|p: PaneId| swap_id(p, a, b)),
                active,
            },
        }
    }

    /// The tree with every stack holding `focus` made to show it.
    pub open spec fn sync(self, focus: PaneId) -> Tree
        decreases self,
    {
        match self {
            Tree::Pane(_) => self,
            Tree::Split { direction, ratio, first, second } => Tree::Split {
                direction,
                ratio,
                first: Box::new(first.sync(focus)),
                second: Box::new(second.sync(focus)),
            },
            Tree::Stack { panes, active } => if panes.contains(focus) {
                Tree::Stack { panes, active: first_index(panes, focus) as nat }
            } else {
                self
            },
        }
    }

    /// Every stack holding `focus` shows it.
    pub open spec fn stacks_show(self, focus: PaneId) -> bool
        decreases self,
    {
        match self {
            Tree::Pane(_) => true,
            Tree::Split { first, second, .. } => first.stacks_show(focus) && second.stacks_show(
                focus,
            ),
            Tree::Stack { panes, active } => panes.contains(focus) ==> active == first_index(
                panes,
                focus,
            ),
        }
    }

    /// The ratio of the split reached by following `path` from the root
    /// (false for the first child, true for the second).
    pub open spec fn ratio_at(self, path: Seq<bool>) -> Option<Ratio>
        decreases path.len(),
    {
        match self {
            Tree::Split { ratio, first, second, .. } => if path.len() == 0 {
                Some(ratio)
            } else if path[0] {
                second.ratio_at(path.drop_first())
            } else {
                first.ratio_at(path.drop_first())
            },
            _ => None,
        }
    }

    /// The tree with the ratio of the split at `path` replaced, or `None`
    /// when no split sits there.
    pub open spec fn with_ratio_at(self, path: Seq<bool>, new_ratio: Ratio) -> Option<Tree>
        decreases path.len(),
    {
        match self {
            Tree::Split { direction, ratio, first, second } => if path.len() == 0 {
                Some(Tree::Split { direction, ratio: new_ratio, first, second })
            } else if path[0] {
                match second.with_ratio_at(path.drop_first(), new_ratio) {
                    Some(s) => Some(Tree::Split { direction, ratio, first, second: Box::new(s) }),
                    None => None,
                }
            } else {
                match first.with_ratio_at(path.drop_first(), new_ratio) {
                    Some(f) => Some(Tree::Split { direction, ratio, first: Box::new(f), second }),
                    None => None,
                }
            },
            _ => None,
        }
    }
}


// --- Facts about the tree operations ---

pub(crate) proof fn lemma_split_at_absent(t: Tree, target: PaneId, direction: Direction, new_id: PaneId, ratio: Ratio)
    requires
        !t.ids().contains(target),
    ensures
        t.split_at(target, direction, new_id, ratio) == t,
    decreases t,
{
    match t {
        Tree::Split { first, second, .. } => {
            assert(!first.ids().contains(target)) by {
                if first.ids().contains(target) {
                    let k = choose|k: int| 0 <= k < first.ids().len() && first.ids()[k] == target;
                    assert(t.ids()[k] == target);
                }
            }
            assert(!second.ids().contains(target)) by {
                if second.ids().contains(target) {
                    let k = choose|k: int| 0 <= k < second.ids().len() && second.ids()[k] == target;
                    assert(t.ids()[first.ids().len() + k] == target);
                }
            }
            lemma_split_at_absent(*first, target, direction, new_id, ratio);
            lemma_split_at_absent(*second, target, direction, new_id, ratio);
        },
        Tree::Pane(id) => {
            assert(t.ids()[0] == id);
        },
        _ => {},
    }
}

pub(crate) proof fn lemma_contains_append(a: Seq<PaneId>, b: Seq<PaneId>, x: PaneId)
    ensures
        (a + b).contains(x) <==> (a.contains(x) || b.contains(x)),
{
    if (a + b).contains(x) {
        let k = choose|k: int| 0 <= k < (a + b).len() && (a + b)[k] == x;
        if k < a.len() {
            assert(a[k] == x);
        } else {
            assert(b[k - a.len()] == x);
        }
    }
    if a.contains(x) {
        let k = choose|k: int| 0 <= k < a.len() && a[k] == x;
        assert((a + b)[k] == x);
    }
    if b.contains(x) {
        let k = choose|k: int| 0 <= k < b.len() && b[k] == x;
        assert((a + b)[a.len() + k] == x);
    }
}

/// Splitting a pane that is in the tree always places the new pane in it,
/// and every pane that was there stays.
pub proof fn lemma_split_at_contains(t: Tree, target: PaneId, direction: Direction, new_id: PaneId, ratio: Ratio, y: PaneId)
    ensures
        t.split_at(target, direction, new_id, ratio).ids().contains(y) <==> (t.ids().contains(y) || (
        y == new_id && t.ids().contains(target))),
    decreases t,
{
    let r = t.split_at(target, direction, new_id, ratio);
    match t {
        Tree::Pane(id) => {
            if id == target {
                assert(Tree::Pane(id).ids() == seq![id]);
                assert(Tree::Pane(new_id).ids() == seq![new_id]);
                lemma_contains_append(seq![id], seq![new_id], y);
                assert(seq![id].contains(y) <==> id == y) by {
                    if id == y { assert(seq![id][0] == y); }
                }
                assert(seq![new_id].contains(y) <==> new_id == y) by {
                    if new_id == y { assert(seq![new_id][0] == y); }
                }
                assert(t.ids().contains(target)) by { assert(t.ids()[0] == target); }
                assert(t.ids().contains(y) <==> id == y) by {
                    if id == y { assert(t.ids()[0] == y); }
                }
            } else {
                assert(!t.ids().contains(target)) by {
                    if t.ids().contains(target) {
                        let k = choose|k: int| 0 <= k < t.ids().len() && t.ids()[k] == target;
                    }
                }
            }
        },
        Tree::Split { first, second, .. } => {
            lemma_split_at_contains(*first, target, direction, new_id, ratio, y);
            lemma_split_at_contains(*second, target, direction, new_id, ratio, y);
            lemma_contains_append(first.ids(), second.ids(), y);
            lemma_contains_append(first.ids(), second.ids(), target);
            lemma_contains_append(
                first.split_at(target, direction, new_id, ratio).ids(),
                second.split_at(target, direction, new_id, ratio).ids(),
                y,
            );
        },
        Tree::Stack { panes, active } => {
            if panes.contains(target) {
                let i = first_index(panes, target);
                lemma_first_index_exists(panes, target);
                let q = panes.insert(i + 1, new_id);
                assert(q.contains(y) <==> (panes.contains(y) || y == new_id)) by {
                    if q.contains(y) {
                        let k = choose|k: int| 0 <= k < q.len() && q[k] == y;
                        if k <= i {
                            assert(panes[k] == y);
                        } else if k > i + 1 {
                            assert(panes[k - 1] == y);
                        }
                    }
                    if panes.contains(y) {
                        let k = choose|k: int| 0 <= k < panes.len() && panes[k] == y;
                        if k <= i {
                            assert(q[k] == y);
                        } else {
                            assert(q[k + 1] == y);
                        }
                    }
                    if y == new_id {
                        assert(q[i + 1] == y);
                    }
                }
            }
        },
    }
}

/// Removing `target` removes exactly its occurrences, in order, and yields
/// nothing only when nothing else was there.
pub proof fn lemma_remove_ids(t: Tree, target: PaneId)
    ensures
        t.remove(target) is None <==> without(t.ids(), target).len() == 0,
        t.remove(target) is Some ==> t.remove(target)->0.ids() == without(t.ids(), target),
    decreases t,
{
    match t {
        Tree::Pane(id) => {
            reveal_with_fuel(without, 2);
            assert(seq![id].drop_last() =~= Seq::<PaneId>::empty());
            assert(t.ids() == seq![id]);
            if id != target {
                assert(Seq::<PaneId>::empty().push(id) =~= seq![id]);
            }
        },
        Tree::Split { first, second, .. } => {
            lemma_remove_ids(*first, target);
            lemma_remove_ids(*second, target);
            lemma_without_append(first.ids(), second.ids(), target);
            let a = without(first.ids(), target);
            let b = without(second.ids(), target);
            if a.len() == 0 {
                assert(a + b =~= b);
            }
            if b.len() == 0 {
                assert(a + b =~= a);
            }
        },
        Tree::Stack { panes, active } => {
            let kept = without(panes, target);
            if kept.len() == 1 {
                assert(seq![kept[0]] =~= kept);
            }
        },
    }
}

pub(crate) proof fn lemma_swap_ids(t: Tree, a: PaneId, b: PaneId)
    ensures
        t.swap(a, b).ids() == t.ids().map_values(|p: PaneId| swap_id(p, a, b)),
    decreases t,
{
    match t {
        Tree::Pane(id) => {
            assert(t.swap(a, b).ids() =~= t.ids().map_values(|p: PaneId| swap_id(p, a, b)));
        },
        Tree::Split { first, second, .. } => {
            lemma_swap_ids(*first, a, b);
            lemma_swap_ids(*second, a, b);
            assert(t.swap(a, b).ids() =~= t.ids().map_values(|p: PaneId| swap_id(p, a, b)));
        },
        Tree::Stack { .. } => {},
    }
}

/// Swapping the same two panes twice gives back the original tree.
pub proof fn lemma_swap_involution(t: Tree, a: PaneId, b: PaneId)
    ensures
        t.swap(a, b).swap(a, b) == t,
    decreases t,
{
    match t {
        Tree::Pane(id) => {},
        Tree::Split { first, second, .. } => {
            lemma_swap_involution(*first, a, b);
            lemma_swap_involution(*second, a, b);
        },
        Tree::Stack { panes, active } => {
            let once = panes.map_values(|p: PaneId| swap_id(p, a, b));
            assert(once.map_values(|p: PaneId| swap_id(p, a, b)) =~= panes);
        },
    }
}

pub(crate) proof fn lemma_sync_ids(t: Tree, focus: PaneId)
    ensures
        t.sync(focus).ids() == t.ids(),
        t.sync(focus).stacks_show(focus),
    decreases t,
{
    match t {
        Tree::Split { first, second, .. } => {
            lemma_sync_ids(*first, focus);
            lemma_sync_ids(*second, focus);
        },
        Tree::Stack { panes, .. } => {
            if panes.contains(focus) {
                lemma_first_index_exists(panes, focus);
            }
        },
        _ => {},
    }
}

// --- Executable tree operations ---

/// Append the pane ids of `node`, in tree order, to `out`.
pub fn collect_ids(node: &Node, out: &mut Vec<PaneId>)
    ensures
        final(out)@ == old(out)@ + node@.ids(),
    decreases node,
{
    match node {
        Node::Pane(id) => {
            out.push(*id);
            assert(out@ =~= old(out)@ + node@.ids());
        },
        Node::Split { first, second, .. } => {
            collect_ids(first, out);
            collect_ids(second, out);
            assert(out@ =~= old(out)@ + node@.ids());
        },
        Node::Stack { panes, .. } => {
            let mut i: usize = 0;
            while i < panes.len()
                invariant
                    i <= panes.len(),
                    out@ == old(out)@ + panes@.subrange(0, i as int),
                decreases panes.len() - i,
            {
                out.push(panes[i]);
                i += 1;
                assert(out@ =~= old(out)@ + panes@.subrange(0, i as int));
            }
            assert(panes@.subrange(0, panes.len() as int) =~= panes@);
        },
    }
}

/// The pane ids of `node` in tree order.
pub fn node_pane_ids(node: &Node) -> (r: Vec<PaneId>)
    ensures
        r@ == node@.ids(),
{
    let mut ids = Vec::new();
    collect_ids(node, &mut ids);
    assert(ids@ =~= node@.ids());
    ids
}

/// The number of panes in `node`.
pub fn count_panes(node: &Node) -> (r: usize)
    ensures
        r == node@.ids().len(),
{
    node_pane_ids(node).len()
}

/// Position of the first `x` in `v`, if any.
fn position(v: &Vec<PaneId>, x: PaneId) -> (r: Option<usize>)
    ensures
        r is None <==> !v@.contains(x),
        r is Some ==> is_first_index(v@, x, r->0 as int),
{
    let mut i: usize = 0;
    while i < v.len()
        invariant
            i <= v.len(),
            forall|j: int| 0 <= j < i ==> v@[j] != x,
        decreases v.len() - i,
    {
        if v[i] == x {
            return Some(i);
        }
        i += 1;
    }
    assert(!v@.contains(x)) by {
        if v@.contains(x) {
            let k = choose|k: int| 0 <= k < v@.len() && v@[k] == x;
            assert(v@[k] != x);
        }
    }
    None
}

/// Whether `x` occurs in `v`.
pub fn contains_pane(v: &Vec<PaneId>, x: PaneId) -> (r: bool)
    ensures
        r == v@.contains(x),
{
    contains_id(v, x)
}

/// Whether `x` occurs in `v`.
fn contains_id(v: &Vec<PaneId>, x: PaneId) -> (r: bool)
    ensures
        r == v@.contains(x),
{
    position(v, x).is_some()
}

fn split_at(node: Node, target: PaneId, direction: Direction, new_id: PaneId, split_ratio: Ratio) -> (r: Node)
    ensures
        r@ == node@.split_at(target, direction, new_id, split_ratio),
    decreases node,
{
    match node {
        Node::Pane(id) => {
            if id == target {
                let a = Node::Pane(id);
                let b = Node::Pane(new_id);
                assert(a@ == Tree::Pane(id));
                assert(b@ == Tree::Pane(new_id));
                let r = Node::Split {
                    direction,
                    ratio: split_ratio,
                    first: Box::new(a),
                    second: Box::new(b),
                };
                r
            } else {
                Node::Pane(id)
            }
        },
        Node::Split { direction: d, ratio, first, second } => {
            let ghost f0 = (*first)@;
            let ghost s0 = (*second)@;
            let f = split_at(*first, target, direction, new_id, split_ratio);
            let s = split_at(*second, target, direction, new_id, split_ratio);
            assert(f@ == f0.split_at(target, direction, new_id, split_ratio));
            assert(s@ == s0.split_at(target, direction, new_id, split_ratio));
            Node::Split { direction: d, ratio, first: Box::new(f), second: Box::new(s) }
        },
        Node::Stack { mut panes, active } => {
            match position(&panes, target) {
                Some(index) => {
                    proof {
                        lemma_first_index(panes@, target, index as int);
                    }
                    assert(index < panes.len());
                    let ghost before = panes@;
                    panes.insert(index + 1, new_id);
                    assert(panes@ == before.insert(index + 1, new_id));
                    Node::Stack { panes, active: index + 1 }
                },
                None => Node::Stack { panes, active },
            }
        },
    }
}

/// Remove every occurrence of `x` from `v`, keeping the order.
fn retain_other(v: Vec<PaneId>, x: PaneId) -> (r: Vec<PaneId>)
    ensures
        r@ == without(v@, x),
{
    let mut out: Vec<PaneId> = Vec::new();
    let mut i: usize = 0;
    while i < v.len()
        invariant
            i <= v.len(),
            out@ == without(v@.subrange(0, i as int), x),
        decreases v.len() - i,
    {
        let ghost before = v@.subrange(0, i as int);
        assert(v@.subrange(0, i + 1).drop_last() =~= before);
        if v[i] != x {
            out.push(v[i]);
        }
        i += 1;
    }
    assert(v@.subrange(0, v.len() as int) =~= v@);
    out
}

pub fn remove_pane(node: Node, target: PaneId) -> (r: Option<Node>)
    ensures
        r is None <==> node@.remove(target) is None,
        r is Some ==> node@.remove(target) == Some(r->0@),
    decreases node,
{
    match node {
        Node::Pane(id) => {
            if id == target {
                None
            } else {
                Some(Node::Pane(id))
            }
        },
        Node::Split { direction, ratio, first, second } => {
            match (remove_pane(*first, target), remove_pane(*second, target)) {
                (None, Some(s)) => Some(s),
                (Some(f), None) => Some(f),
                (Some(f), Some(s)) => Some(
                    Node::Split { direction, ratio, first: Box::new(f), second: Box::new(s) },
                ),
                (None, None) => None,
            }
        },
        Node::Stack { panes, active } => {
            let kept = retain_other(panes, target);
            let len = kept.len();
            if len == 0 {
                None
            } else if len == 1 {
                Some(Node::Pane(kept[0]))
            } else {
                let clamped = if active < len - 1 {
                    active
                } else {
                    len - 1
                };
                Some(Node::Stack { panes: kept, active: clamped })
            }
        },
    }
}

fn swap_pane_ids(node: Node, first: PaneId, second: PaneId) -> (r: Node)
    ensures
        r@ == node@.swap(first, second),
    decreases node,
{
    match node {
        Node::Pane(id) => {
            if id == first {
                Node::Pane(second)
            } else if id == second {
                Node::Pane(first)
            } else {
                Node::Pane(id)
            }
        },
        Node::Split { direction, ratio, first: f, second: s } => {
            let f2 = swap_pane_ids(*f, first, second);
            let s2 = swap_pane_ids(*s, first, second);
            Node::Split { direction, ratio, first: Box::new(f2), second: Box::new(s2) }
        },
        Node::Stack { mut panes, active } => {
            let ghost orig = panes@;
            let mut i: usize = 0;
            while i < panes.len()
                invariant
                    i <= panes.len(),
                    panes@.len() == orig.len(),
                    forall|j: int| 0 <= j < i ==> panes@[j] == swap_id(orig[j], first, second),
                    forall|j: int| i <= j < panes@.len() ==> panes@[j] == orig[j],
                decreases panes.len() - i,
            {
                let id = panes[i];
                if id == first {
                    panes.set(i, second);
                } else if id == second {
                    panes.set(i, first);
                }
                i += 1;
            }
            assert(panes@ =~= orig.map_values(|p: PaneId| swap_id(p, first, second)));
            Node::Stack { panes, active }
        },
    }
}

/// Keep every stack's active index pointing at the focused pane when it holds
/// it. Rendering and navigation both rely on the focused pane being the one
/// with the expanded rect.
fn sync_stack_active(node: Node, focus: PaneId) -> (r: Node)
    ensures
        r@ == node@.sync(focus),
    decreases node,
{
    match node {
        Node::Pane(id) => Node::Pane(id),
        Node::Split { direction, ratio, first, second } => {
            let f = sync_stack_active(*first, focus);
            let s = sync_stack_active(*second, focus);
            Node::Split { direction, ratio, first: Box::new(f), second: Box::new(s) }
        },
        Node::Stack { panes, active } => {
            match position(&panes, focus) {
                Some(index) => {
                    proof {
                        lemma_first_index(panes@, focus, index as int);
                    }
                    Node::Stack { panes, active: index }
                },
                None => Node::Stack { panes, active },
            }
        },
    }
}

fn set_ratio_at(node: Node, path: &[bool], from: usize, new_ratio: Ratio) -> (r: (Node, bool))
    requires
        from <= path.len(),
    ensures
        r.1 == node@.with_ratio_at(path@.subrange(from as int, path.len() as int), new_ratio) is Some,
        r.1 ==> node@.with_ratio_at(path@.subrange(from as int, path.len() as int), new_ratio) == Some(r.0@),
        !r.1 ==> r.0@ == node@,
    decreases path.len() - from,
{
    let ghost rest = path@.subrange(from as int, path.len() as int);
    match node {
        Node::Split { direction, ratio, first, second } => {
            if from == path.len() {
                (Node::Split { direction, ratio: new_ratio, first, second }, true)
            } else {
                assert(rest.drop_first() =~= path@.subrange(from + 1, path.len() as int));
                if path[from] {
                    let (s, changed) = set_ratio_at(*second, path, from + 1, new_ratio);
                    (Node::Split { direction, ratio, first, second: Box::new(s) }, changed)
                } else {
                    let (f, changed) = set_ratio_at(*first, path, from + 1, new_ratio);
                    (Node::Split { direction, ratio, first: Box::new(f), second }, changed)
                }
            }
        },
        other => (other, false),
    }
}

fn get_ratio_at(node: &Node, path: &[bool], from: usize) -> (r: Option<Ratio>)
    requires
        from <= path.len(),
    ensures
        r == node@.ratio_at(path@.subrange(from as int, path.len() as int)),
    decreases path.len() - from,
{
    let ghost rest = path@.subrange(from as int, path.len() as int);
    match node {
        Node::Split { ratio, first, second, .. } => {
            if from == path.len() {
                Some(*ratio)
            } else {
                assert(rest.drop_first() =~= path@.subrange(from + 1, path.len() as int));
                if path[from] {
                    get_ratio_at(second, path, from + 1)
                } else {
                    get_ratio_at(first, path, from + 1)
                }
            }
        },
        _ => None,
    }
}


// --- The layout ---

/// A tiled layer as a mathematical value: its tree, its focused pane and
/// the pane focused before it.
pub struct LayoutState {
    pub tree: Tree,
    pub focus: PaneId,
    pub prev_focus: Option<PaneId>,
}

impl LayoutState {
    pub open spec fn ids(self) -> Seq<PaneId> {
        self.tree.ids()
    }

    /// Every pane id occurs once and the focus is one of them.
    pub open spec fn wf(self) -> bool {
        self.ids().no_duplicates() && self.ids().contains(self.focus)
    }

    /// The state after moving focus to `id`: the pane being left is
    /// remembered, and every stack holding `id` shows it.
    pub open spec fn focused_on(self, id: PaneId) -> LayoutState {
        LayoutState {
            tree: self.tree.sync(id),
            focus: id,
            prev_focus: if id != self.focus {
                Some(self.focus)
            } else {
                self.prev_focus
            },
        }
    }

    /// Where focus goes when the focused pane closes: back to the pane focus
    /// came from if it is still open, else the next pane in tree order, or
    /// the previous one when the focused pane is last.
    pub open spec fn close_focus_target(self) -> PaneId {
        let ids = self.ids();
        let pos = first_index(ids, self.focus);
        let ordered = if pos + 1 < ids.len() {
            ids[pos + 1]
        } else {
            ids[pos - 1]
        };
        match self.prev_focus {
            Some(prev) => if prev != self.focus && ids.contains(prev) {
                prev
            } else {
                ordered
            },
            None => ordered,
        }
    }
}

impl LayoutState {
    /// What `close_focused` returns and leaves behind.
    pub open spec fn after_close_focused(self) -> (bool, LayoutState) {
        if self.ids().len() <= 1 {
            (false, self)
        } else if !self.ids().contains(self.focus) {
            (false, self.focused_on(self.ids()[0]))
        } else {
            match self.tree.remove(self.focus) {
                Some(t) => (
                    true,
                    LayoutState {
                        tree: t.sync(self.close_focus_target()),
                        focus: self.close_focus_target(),
                        prev_focus: None,
                    },
                ),
                None => (false, LayoutState { tree: placeholder_tree(), ..self }),
            }
        }
    }

    /// What `close_pane(id)` returns and leaves behind.
    pub open spec fn after_close_pane(self, id: PaneId) -> (bool, LayoutState) {
        if id == self.focus {
            self.after_close_focused()
        } else if self.ids().len() <= 1 || !self.ids().contains(id) {
            (false, self)
        } else {
            match self.tree.remove(id) {
                Some(t) => (
                    true,
                    LayoutState {
                        tree: t,
                        focus: self.focus,
                        prev_focus: if self.prev_focus == Some(id) {
                            None
                        } else {
                            self.prev_focus
                        },
                    },
                ),
                None => (false, LayoutState { tree: placeholder_tree(), ..self }),
            }
        }
    }

    /// What `insert_pane_near(target, moved, direction, ratio, focus)`
    /// returns and leaves behind.
    pub open spec fn after_insert_near(self, target: PaneId, moved: PaneId, direction: Direction, ratio: Ratio, focus: bool) -> (bool, LayoutState) {
        if target != moved && self.ids().contains(target) && !self.ids().contains(moved) {
            let placed = LayoutState {
                tree: self.tree.split_at(target, direction, moved, ratio.spec_clamp_user()),
                ..self
            };
            (true, if focus { placed.focused_on(moved) } else { LayoutState { tree: placed.tree.sync(self.focus), ..placed } })
        } else {
            (false, self)
        }
    }

    /// What `focus_pane(id)` leaves behind.
    pub open spec fn after_focus_pane(self, id: PaneId) -> LayoutState {
        if self.ids().contains(id) {
            self.focused_on(id)
        } else {
            self
        }
    }
}

/// The tree a failed removal leaves behind: a lone placeholder pane.
pub open spec fn placeholder_tree() -> Tree {
    Tree::Pane(PaneId(0))
}

/// BSP tiling layout. Tracks a tree of splits and a focused pane.
pub struct TileLayout {
    root: Node,
    focus: PaneId,
    /// Pane focused before `focus`, used by `close_focused`. Only a real focus
    /// move writes it; tree edits go through the target-taking primitives
    /// (`split_pane`, `close_pane`, unfocused `insert_pane_near`) so internal
    /// focus excursions never corrupt it.
    prev_focus: Option<PaneId>,
}

impl View for TileLayout {
    type V = LayoutState;

    closed spec fn view(&self) -> LayoutState {
        LayoutState { tree: self.root@, focus: self.focus, prev_focus: self.prev_focus }
    }
}

impl TileLayout {
    /// Create a new layout with a single freshly allocated pane.
    /// Returns (layout, root_pane_id) so the caller can create the pane.
    pub fn new(ids: &mut PaneIdAllocator) -> (r: (TileLayout, PaneId))
        ensures
            r.1 == PaneId(old(ids).next),
            final(ids).next == old(ids).next.wrapping_add(1),
            r.0@ == (LayoutState { tree: Tree::Pane(r.1), focus: r.1, prev_focus: None }),
    {
        let root_id = PaneId::allocate(ids);
        (TileLayout { root: Node::Pane(root_id), focus: root_id, prev_focus: None }, root_id)
    }

    /// Move focus, recording the pane being left. No-op on the history when
    /// focus is unchanged.
    fn set_focus(&mut self, id: PaneId)
        ensures
            final(self)@ == old(self)@.focused_on(id),
    {
        if id != self.focus {
            self.prev_focus = Some(self.focus);
            self.focus = id;
        }
        // Runs unconditionally: a tree edit can leave a stale `active` index
        // behind even when the focused id itself did not change.
        let mut root = Node::Pane(PaneId(0));
        std::mem::swap(&mut root, &mut self.root);
        self.root = sync_stack_active(root, id);
    }

    pub fn focused(&self) -> (r: PaneId)
        ensures
            r == self@.focus,
    {
        self.focus
    }

    pub fn pane_count(&self) -> (r: usize)
        ensures
            r == self@.ids().len(),
    {
        count_panes(&self.root)
    }

    pub fn pane_ids(&self) -> (r: Vec<PaneId>)
        ensures
            r@ == self@.ids(),
    {
        node_pane_ids(&self.root)
    }

    /// Access the tree root for serialization.
    pub fn root(&self) -> (r: &Node)
        ensures
            r@ == self@.tree,
    {
        &self.root
    }

    /// Reconstruct a layout from a saved tree.
    pub fn from_saved(root: Node, focus: PaneId) -> (r: TileLayout)
        ensures
            r@ == (LayoutState { tree: root@.sync(focus), focus, prev_focus: None }),
    {
        TileLayout { root: sync_stack_active(root, focus), focus, prev_focus: None }
    }

    /// Split `target` without moving focus. Returns the new pane's id, or None
    /// when `target` is not in the layout. A stack the new pane joins keeps
    /// showing the focused pane.
    pub fn split_pane(&mut self, ids: &mut PaneIdAllocator, target: PaneId, direction: Direction, ratio: Ratio) -> (r: Option<PaneId>)
        ensures
            r is None <==> !old(self)@.ids().contains(target),
            r is None ==> final(self)@ == old(self)@ && final(ids).next == old(ids).next,
            r is Some ==> {
                &&& r->0 == PaneId(old(ids).next)
                &&& final(ids).next == old(ids).next.wrapping_add(1)
                &&& final(self)@ == (LayoutState {
                    tree: old(self)@.tree.split_at(target, direction, r->0, ratio.spec_clamp_user()).sync(old(self)@.focus),
                    ..old(self)@
                })
            },
    {
        if !contains_id(&self.pane_ids(), target) {
            return None;
        }
        let new_id = PaneId::allocate(ids);
        let mut old_root = Node::Pane(PaneId(0));
        std::mem::swap(&mut old_root, &mut self.root);
        let split = split_at(old_root, target, direction, new_id, ratio.clamp_user());
        // A stack's active member follows focus: the new pane joins a stack
        // collapsed unless it is the one focused.
        self.root = sync_stack_active(split, self.focus);
        Some(new_id)
    }

    /// Split the focused pane and focus the new one.
    pub fn split_focused_with_ratio(&mut self, ids: &mut PaneIdAllocator, direction: Direction, ratio: Ratio) -> (r: PaneId)
        requires
            old(self)@.ids().contains(old(self)@.focus),
        ensures
            r == PaneId(old(ids).next),
            final(ids).next == old(ids).next.wrapping_add(1),
            final(self)@ == (LayoutState {
                tree: old(self)@.tree.split_at(old(self)@.focus, direction, r, ratio.spec_clamp_user()),
                ..old(self)@
            }).focused_on(r),
    {
        let focus = self.focus;
        let new_id = PaneId::allocate(ids);
        let mut old_root = Node::Pane(PaneId(0));
        std::mem::swap(&mut old_root, &mut self.root);
        self.root = split_at(old_root, focus, direction, new_id, ratio.clamp_user());
        self.set_focus(new_id);
        new_id
    }

    /// Split the focused pane evenly and focus the new one.
    pub fn split_focused(&mut self, ids: &mut PaneIdAllocator, direction: Direction) -> (r: PaneId)
        requires
            old(self)@.ids().contains(old(self)@.focus),
        ensures
            r == PaneId(old(ids).next),
            final(ids).next == old(ids).next.wrapping_add(1),
            final(self)@ == (LayoutState {
                tree: old(self)@.tree.split_at(old(self)@.focus, direction, r, Ratio::spec_half()),
                ..old(self)@
            }).focused_on(r),
    {
        self.split_focused_with_ratio(ids, direction, Ratio::half())
    }

    /// Insert an existing pane id next to a target pane without allocating a new
    /// pane. When `focus` is false, focus and its history are left untouched,
    /// and a stack the pane joins keeps showing the focused pane.
    pub fn insert_pane_near(&mut self, target: PaneId, moved: PaneId, direction: Direction, ratio: Ratio, focus: bool) -> (r: bool)
        ensures
            (r, final(self)@) == old(self)@.after_insert_near(target, moved, direction, ratio, focus),
    {
        if target == moved {
            return false;
        }
        let ids = self.pane_ids();
        if !contains_id(&ids, target) || contains_id(&ids, moved) {
            return false;
        }
        let mut old_root = Node::Pane(PaneId(0));
        std::mem::swap(&mut old_root, &mut self.root);
        let ghost old_tree = old_root@;
        self.root = split_at(old_root, target, direction, moved, ratio.clamp_user());
        proof {
            lemma_split_at_contains(old_tree, target, direction, moved, ratio.spec_clamp_user(), moved);
        }
        // `split_at` returns the tree untouched when it cannot place the pane,
        // so confirm the insertion rather than reporting success blindly.
        if !contains_id(&self.pane_ids(), moved) {
            return false;
        }
        if focus {
            self.set_focus(moved);
        } else {
            // A stack the pane joins keeps showing the focused pane.
            let mut root = Node::Pane(PaneId(0));
            std::mem::swap(&mut root, &mut self.root);
            self.root = sync_stack_active(root, self.focus);
        }
        true
    }

    /// Close the focused pane, returning focus to the pane it came from when
    /// that pane is still open. Returns false if it's the last pane.
    pub fn close_focused(&mut self) -> (r: bool)
        ensures
            (r, final(self)@) == old(self)@.after_close_focused(),
    {
        if self.pane_count() <= 1 {
            return false;
        }
        let target = self.focus;
        let ids = self.pane_ids();
        let pos = match position(&ids, target) {
            Some(pos) => pos,
            None => {
                // Nothing to close, but a focus outside the tree would keep routing
                // input at a pane nobody can see, so re-anchor it on a real one.
                let first = ids[0];
                self.set_focus(first);
                return false;
            },
        };
        proof {
            lemma_first_index(ids@, target, pos as int);
        }
        let ordered = if pos + 1 < ids.len() {
            ids[pos + 1]
        } else {
            ids[pos - 1]
        };
        let new_focus = match self.prev_focus {
            Some(prev) => if prev != target && contains_id(&ids, prev) {
                prev
            } else {
                ordered
            },
            None => ordered,
        };
        let mut old_root = Node::Pane(PaneId(0));
        std::mem::swap(&mut old_root, &mut self.root);
        match remove_pane(old_root, target) {
            Some(new_root) => {
                self.root = new_root;
                self.set_focus(new_focus);
                // The history entry was just consumed to pick this focus.
                self.prev_focus = None;
                true
            },
            None => false,
        }
    }

    /// Close any pane. Focus and its history are left alone unless the closed
    /// pane is the focused one.
    pub fn close_pane(&mut self, id: PaneId) -> (r: bool)
        ensures
            (r, final(self)@) == old(self)@.after_close_pane(id),
    {
        if self.focus == id {
            return self.close_focused();
        }
        if self.pane_count() <= 1 || !contains_id(&self.pane_ids(), id) {
            return false;
        }
        let mut old_root = Node::Pane(PaneId(0));
        std::mem::swap(&mut old_root, &mut self.root);
        let new_root = match remove_pane(old_root, id) {
            Some(new_root) => new_root,
            None => {
                return false;
            },
        };
        self.root = new_root;
        if self.prev_focus == Some(id) {
            self.prev_focus = None;
        }
        true
    }

    /// Focus `id` when it is in the layout.
    pub fn focus_pane(&mut self, id: PaneId)
        ensures
            final(self)@ == old(self)@.after_focus_pane(id),
    {
        if contains_id(&self.pane_ids(), id) {
            self.set_focus(id);
        }
    }

    /// Swap two pane ids in the layout tree while preserving split shape and
    /// ratios. Returns true only when both panes exist and are different.
    pub fn swap_panes(&mut self, first: PaneId, second: PaneId) -> (r: bool)
        ensures
            r == (first != second && old(self)@.ids().contains(first) && old(self)@.ids().contains(
                second,
            )),
            !r ==> final(self)@ == old(self)@,
            r ==> final(self)@ == (LayoutState {
                tree: old(self)@.tree.swap(first, second).sync(old(self)@.focus),
                ..old(self)@
            }),
    {
        if first == second {
            return false;
        }
        let ids = self.pane_ids();
        if !contains_id(&ids, first) || !contains_id(&ids, second) {
            return false;
        }
        let mut old_root = Node::Pane(PaneId(0));
        std::mem::swap(&mut old_root, &mut self.root);
        let swapped = swap_pane_ids(old_root, first, second);
        self.root = sync_stack_active(swapped, self.focus);
        true
    }

    /// Set the ratio of the split node at the given path, clamped to the
    /// range a user-set split keeps. False when no split sits there.
    pub fn set_ratio_at(&mut self, path: &[bool], ratio: Ratio) -> (r: bool)
        ensures
            r == old(self)@.tree.with_ratio_at(path@, ratio.spec_clamp_user()) is Some,
            r ==> final(self)@ == (LayoutState {
                tree: old(self)@.tree.with_ratio_at(path@, ratio.spec_clamp_user())->0,
                ..old(self)@
            }),
            !r ==> final(self)@ == old(self)@,
    {
        let mut old_root = Node::Pane(PaneId(0));
        std::mem::swap(&mut old_root, &mut self.root);
        assert(path@.subrange(0, path@.len() as int) =~= path@);
        let (new_root, changed) = set_ratio_at(old_root, path, 0, ratio.clamp_user());
        self.root = new_root;
        changed
    }
}


// --- Geometry ---

/// Snapshot of a pane's position and focus state after layout.
#[derive(Debug, Clone, Copy, PartialEq, Eq)]
pub struct PaneInfo {
    pub id: PaneId,
    /// Outer rect (including borders if present).
    pub rect: Rect,
    /// Inner rect (content area, excluding borders). Used for selection.
    pub inner_rect: Rect,
    /// Visible scrollbar lane, when scrollback is present.
    pub scrollbar_rect: Option<Rect>,
    /// Borders drawn around this pane after chrome is applied.
    pub borders: Borders,
    pub is_focused: bool,
}

/// The info `collect_panes` gives a pane laid out at `rect`.
pub open spec fn plain_info(id: PaneId, rect: Rect, focus: PaneId) -> PaneInfo {
    PaneInfo {
        id,
        rect,
        inner_rect: rect,
        scrollbar_rect: None,
        borders: Borders::spec_none(),
        is_focused: id == focus,
    }
}

/// The active pane in a stack keeps at least this many rows when the stack is
/// tall enough to afford it.
pub const MIN_ACTIVE_STACK_HEIGHT: u16 = 3;

/// The rows the active member of a stack of `count` panes gets in a stack
/// `height` rows tall: whatever the collapsed bars leave, but at least
/// `MIN_ACTIVE_STACK_HEIGHT` rows when there are that many.
pub open spec fn stack_active_height(height: u16, count: nat) -> int {
    let bars = ((count - 1) as u16) as int;
    let rest = if height - bars < 0 { 0 } else { height - bars };
    let floor = if height < MIN_ACTIVE_STACK_HEIGHT { height as int } else { MIN_ACTIVE_STACK_HEIGHT as int };
    if rest > floor { rest } else { floor }
}

/// The stack member `active` is clamped into range.
pub open spec fn clamp_active(count: nat, active: nat) -> int {
    if active < count - 1 { active as int } else { count - 1 }
}

/// How many of the members before position `k` are not the active one.
pub open spec fn rank_before(k: int, active: int) -> int {
    if k <= active { k } else { k - 1 }
}

/// The height member `k` gets: the active member its rows, and each other
/// member, in order, one row while rows remain.
pub open spec fn stack_height(height: u16, count: nat, active: nat, k: int) -> int {
    if count == 0 || height == 0 {
        0
    } else {
        let a = clamp_active(count, active);
        let ah = stack_active_height(height, count);
        let budget = height - ah;
        if k == a {
            ah
        } else if rank_before(k, a) < budget {
            1
        } else {
            0
        }
    }
}

/// The rows taken by the members before position `k`.
pub open spec fn stack_offset(height: u16, count: nat, active: nat, k: int) -> int {
    if count == 0 || height == 0 {
        0
    } else {
        let a = clamp_active(count, active);
        let ah = stack_active_height(height, count);
        let budget = height - ah;
        let bars = if rank_before(k, a) < budget { rank_before(k, a) } else { budget };
        if k <= a { bars } else { bars + ah }
    }
}

/// One rect per stack member, index-aligned with the stack's pane list.
pub open spec fn stack_rects_spec(area: Rect, count: nat, active: nat) -> Seq<Rect> {
    Seq::new(
        count,
        |k: int|
            if count == 0 || area.height == 0 {
                rect_new(area.x, area.y, area.width, 0)
            } else {
                rect_new(
                    area.x,
                    (if area.y + stack_offset(area.height, count, active, k) > MAX_COORD {
                        MAX_COORD as int
                    } else {
                        area.y + stack_offset(area.height, count, active, k)
                    }) as u16,
                    area.width,
                    stack_height(area.height, count, active, k) as u16,
                )
            },
    )
}

proof fn lemma_stack_height_bounds(height: u16, count: nat, active: nat)
    requires
        count > 0,
        height > 0,
    ensures
        0 < stack_active_height(height, count) <= height,
{
}

/// One rect per stack member, index-aligned with the stack's pane list. Every
/// inactive pane gets a single collapsed bar and the active pane takes the
/// remainder. When the area is too short for that, later panes collapse to
/// zero height and the renderer folds them into a summary row.
pub fn stack_rects(area: Rect, count: usize, active: usize) -> (r: Vec<Rect>)
    ensures
        r@ == stack_rects_spec(area, count as nat, active as nat),
{
    let empty = Rect::new(area.x, area.y, area.width, 0);
    if count == 0 || area.height == 0 {
        let mut rects: Vec<Rect> = Vec::new();
        let mut i: usize = 0;
        while i < count
            invariant
                i <= count,
                rects@.len() == i,
                empty == rect_new(area.x, area.y, area.width, 0),
                forall|j: int| 0 <= j < i ==> rects@[j] == rect_new(area.x, area.y, area.width, 0),
            decreases count - i,
        {
            rects.push(empty);
            assert(rects@[i as int] == empty);
            i += 1;
        }
        assert(rects@ =~= stack_rects_spec(area, count as nat, active as nat));
        return rects;
    }
    let act = if active < count - 1 {
        active
    } else {
        count - 1
    };
    let bars = (#[verifier::truncate] ((count - 1) as u16));
    let floor = if MIN_ACTIVE_STACK_HEIGHT < area.height {
        MIN_ACTIVE_STACK_HEIGHT
    } else {
        area.height
    };
    let rest = area.height.saturating_sub(bars);
    let active_height = if rest > floor {
        rest
    } else {
        floor
    };
    proof {
        lemma_stack_height_bounds(area.height, count as nat, active as nat);
    }
    // Reserve the active pane's rows before handing out bars. Allocating
    // purely left to right let enough preceding bars eat the whole area and
    // starve the active pane to zero height.
    let mut budget: u16 = area.height - active_height;
    let ghost budget0 = budget as int;
    let mut rects: Vec<Rect> = Vec::new();
    let mut y: u16 = area.y;
    let mut index: usize = 0;
    while index < count
        invariant
            0 < count,
            act < count,
            act == clamp_active(count as nat, active as nat),
            active_height == stack_active_height(area.height, count as nat),
            budget0 == area.height - active_height,
            index <= count,
            rects@.len() == index,
            budget == budget0 - (if rank_before(index as int, act as int) < budget0 {
                rank_before(index as int, act as int)
            } else {
                budget0
            }),
            y == (if area.y + stack_offset(area.height, count as nat, active as nat, index as int)
                > MAX_COORD {
                MAX_COORD as int
            } else {
                area.y + stack_offset(area.height, count as nat, active as nat, index as int)
            }),
            forall|j: int|
                0 <= j < index ==> rects@[j] == #[trigger] stack_rects_spec(area, count as nat, active as nat)[j],
            area.height > 0,
        decreases count - index,
    {
        let height: u16 = if index == act {
            active_height
        } else if budget > 0 {
            budget = budget - 1;
            1
        } else {
            0
        };
        assert(height == stack_height(area.height, count as nat, active as nat, index as int));
        rects.push(Rect::new(area.x, y, area.width, height));
        y = y.saturating_add(height);
        index += 1;
    }
    assert(rects@ =~= stack_rects_spec(area, count as nat, active as nat));
    rects
}


/// The infos `collect_panes` produces for a tree laid out in `area`.
pub open spec fn pane_infos(t: Tree, area: Rect, focus: PaneId) -> Seq<PaneInfo>
    decreases t,
{
    match t {
        Tree::Pane(id) => seq![plain_info(id, area, focus)],
        Tree::Split { direction, ratio, first, second } => {
            let (a, b) = split_rect_spec(area, direction, ratio);
            pane_infos(*first, a, focus) + pane_infos(*second, b, focus)
        },
        Tree::Stack { panes, active } => {
            let rects = stack_rects_spec(area, panes.len(), active);
            Seq::new(panes.len(), |k: int| plain_info(panes[k], rects[k], focus))
        },
    }
}

pub fn collect_panes(node: &Node, area: Rect, focus: PaneId, result: &mut Vec<PaneInfo>)
    requires
        area.wf(),
    ensures
        final(result)@ == old(result)@ + pane_infos(node@, area, focus),
    decreases node,
{
    match node {
        Node::Pane(id) => {
            result.push(
                PaneInfo {
                    id: *id,
                    rect: area,
                    // inner_rect is set during render when we know if borders are shown
                    inner_rect: area,
                    scrollbar_rect: None,
                    borders: Borders::none(),
                    is_focused: *id == focus,
                },
            );
            assert(result@ =~= old(result)@ + pane_infos(node@, area, focus));
        },
        Node::Split { direction, ratio, first, second } => {
            let (a, b) = split_rect(area, *direction, *ratio);
            collect_panes(first, a, focus, result);
            collect_panes(second, b, focus, result);
            assert(result@ =~= old(result)@ + pane_infos(node@, area, focus));
        },
        Node::Stack { panes, active } => {
            let rects = stack_rects(area, panes.len(), *active);
            let ghost infos = pane_infos(node@, area, focus);
            let mut i: usize = 0;
            while i < panes.len()
                invariant
                    i <= panes.len(),
                    rects@ == stack_rects_spec(area, panes@.len(), *active as nat),
                    infos == pane_infos(node@, area, focus),
                    node@ == (Tree::Stack { panes: panes@, active: *active as nat }),
                    result@ == old(result)@ + infos.subrange(0, i as int),
                decreases panes.len() - i,
            {
                result.push(
                    PaneInfo {
                        id: panes[i],
                        rect: rects[i],
                        inner_rect: rects[i],
                        scrollbar_rect: None,
                        borders: Borders::none(),
                        is_focused: panes[i] == focus,
                    },
                );
                i += 1;
                assert(result@ =~= old(result)@ + infos.subrange(0, i as int));
            }
            assert(infos.subrange(0, panes.len() as int) =~= infos);
        },
    }
}

/// A split boundary as a mathematical value.
pub struct SplitModel {
    pub pos: u16,
    pub direction: Direction,
    pub ratio: Ratio,
    pub area: Rect,
    pub path: Seq<bool>,
}

/// Info about a split boundary, used for mouse drag resize.
#[derive(Debug, Clone)]
pub struct SplitBorder {
    /// Position of the divider line (x for horizontal split, y for vertical).
    pub pos: u16,
    /// Direction of the split that created this border.
    pub direction: Direction,
    /// Ratio assigned to the first child of this split.
    pub ratio: Ratio,
    /// Total area of the split node.
    pub area: Rect,
    /// Path from root to this split node (false=first, true=second).
    pub path: Vec<bool>,
}

impl View for SplitBorder {
    type V = SplitModel;

    open spec fn view(&self) -> SplitModel {
        SplitModel {
            pos: self.pos,
            direction: self.direction,
            ratio: self.ratio,
            area: self.area,
            path: self.path@,
        }
    }
}

/// The models of a list of split borders.
pub open spec fn split_views(v: Seq<SplitBorder>) -> Seq<SplitModel> {
    v.map_values(|b: SplitBorder| b@)
}

/// The split borders of a tree laid out in `area`, root first, then the
/// first subtree's, then the second's.
pub open spec fn split_models(t: Tree, area: Rect, path: Seq<bool>) -> Seq<SplitModel>
    decreases t,
{
    match t {
        Tree::Split { direction, ratio, first, second } => {
            let (a, b) = split_rect_spec(area, direction, ratio);
            let pos = match direction {
                Direction::Horizontal => (a.x + a.width) as u16,
                Direction::Vertical => (a.y + a.height) as u16,
            };
            seq![SplitModel { pos, direction, ratio, area, path }] + split_models(
                *first,
                a,
                path.push(false),
            ) + split_models(*second, b, path.push(true))
        },
        _ => Seq::empty(),
    }
}

fn clone_path(path: &Vec<bool>) -> (r: Vec<bool>)
    ensures
        r@ == path@,
{
    let mut out: Vec<bool> = Vec::new();
    let mut i: usize = 0;
    while i < path.len()
        invariant
            i <= path.len(),
            out@ == path@.subrange(0, i as int),
        decreases path.len() - i,
    {
        out.push(path[i]);
        i += 1;
        assert(out@ =~= path@.subrange(0, i as int));
    }
    assert(path@.subrange(0, path.len() as int) =~= path@);
    out
}

fn collect_splits(node: &Node, area: Rect, path: Vec<bool>, result: &mut Vec<SplitBorder>)
    requires
        area.wf(),
    ensures
        final(result)@.map_values(|b: SplitBorder| b@) == old(result)@.map_values(|b: SplitBorder| b@)
            + split_models(node@, area, path@),
    decreases node,
{
    if let Node::Split { direction, ratio, first, second } = node {
        let (a, b) = split_rect(area, *direction, *ratio);
        let pos = match direction {
            Direction::Horizontal => a.x + a.width,
            Direction::Vertical => a.y + a.height,
        };
        let ghost p = path@;
        result.push(
            SplitBorder {
                pos,
                direction: *direction,
                ratio: *ratio,
                area,
                path: clone_path(&path),
            },
        );
        let ghost mid = result@;
        let mut lp = clone_path(&path);
        lp.push(false);
        collect_splits(first, a, lp, result);
        let ghost after_first = result@;
        let mut rp = path;
        rp.push(true);
        collect_splits(second, b, rp, result);
        assert(mid.map_values(|b: SplitBorder| b@) =~= old(result)@.map_values(|b: SplitBorder| b@)
            + seq![SplitModel { pos, direction: *direction, ratio: *ratio, area, path: p }]);
        assert(result@.map_values(|b: SplitBorder| b@) =~= old(result)@.map_values(|b: SplitBorder| b@)
            + split_models(node@, area, path@));
    } else {
        assert(split_models(node@, area, path@) =~= Seq::<SplitModel>::empty());
        assert(result@.map_values(|b: SplitBorder| b@) =~= old(result)@.map_values(|b: SplitBorder| b@)
            + split_models(node@, area, path@));
    }
}

impl TileLayout {
    /// Compute rects for all panes given the available area.
    pub fn panes(&self, area: Rect) -> (r: Vec<PaneInfo>)
        requires
            area.wf(),
        ensures
            r@ == pane_infos(self@.tree, area, self@.focus),
    {
        let mut result = Vec::new();
        collect_panes(&self.root, area, self.focus, &mut result);
        assert(result@ =~= pane_infos(self@.tree, area, self@.focus));
        result
    }

    /// Collect all split boundaries for mouse drag resize.
    pub fn splits(&self, area: Rect) -> (r: Vec<SplitBorder>)
        requires
            area.wf(),
        ensures
            r@.map_values(|b: SplitBorder| b@) == split_models(self@.tree, area, Seq::empty()),
    {
        let mut result = Vec::new();
        let path: Vec<bool> = Vec::new();
        collect_splits(&self.root, area, path, &mut result);
        assert(Seq::<SplitBorder>::empty().map_values(|b: SplitBorder| b@) =~= Seq::<SplitModel>::empty());
        assert(result@.map_values(|b: SplitBorder| b@) =~= split_models(self@.tree, area, Seq::empty()));
        result
    }
}


// --- Arrangements ---

/// A right-leaning chain of splits with ratios 1/n, 1/(n-1), ... so every
/// child ends up the same size.
pub open spec fn even_chain_tree(s: Seq<PaneId>, direction: Direction) -> Tree
    decreases s.len(),
{
    if s.len() <= 1 {
        Tree::Pane(s[0])
    } else {
        Tree::Split {
            direction,
            ratio: Ratio(even_share(s.len()) as u32),
            first: Box::new(Tree::Pane(s[0])),
            second: Box::new(even_chain_tree(s.drop_first(), direction)),
        }
    }
}

/// Where column `c` of a grid of `cols` columns over `len` panes starts:
/// every column gets `len / cols` panes and the first `len % cols` columns
/// one more.
pub open spec fn column_start(len: nat, cols: nat, c: nat) -> nat {
    c * (len / cols) + (if c < len % cols { c } else { len % cols })
}

/// The panes of column `c`.
pub open spec fn grid_column(s: Seq<PaneId>, cols: nat, c: nat) -> Seq<PaneId> {
    s.subrange(column_start(s.len(), cols, c) as int, column_start(s.len(), cols, c + 1) as int)
}

/// Columns `c..cols` chained left to right, each an even chain of rows.
pub open spec fn column_chain_tree(s: Seq<PaneId>, cols: nat, c: nat) -> Tree
    decreases cols - c,
{
    if c + 1 >= cols {
        even_chain_tree(grid_column(s, cols, c), Direction::Vertical)
    } else {
        Tree::Split {
            direction: Direction::Horizontal,
            ratio: Ratio(even_share((cols - c) as nat) as u32),
            first: Box::new(even_chain_tree(grid_column(s, cols, c), Direction::Vertical)),
            second: Box::new(column_chain_tree(s, cols, c + 1)),
        }
    }
}

/// The tree `arrange` builds for a non-empty pane list.
pub open spec fn arrange_tree(kind: Arrangement, s: Seq<PaneId>, focus: PaneId, cols: nat) -> Tree {
    match kind {
        Arrangement::Vertical => even_chain_tree(s, Direction::Horizontal),
        Arrangement::Horizontal => even_chain_tree(s, Direction::Vertical),
        Arrangement::Grid => column_chain_tree(s, cols, 0),
        Arrangement::Stacked => Tree::Stack {
            panes: s,
            active: if s.contains(focus) {
                first_index(s, focus) as nat
            } else {
                0
            },
        },
    }
}

proof fn lemma_even_share_bound(n: nat)
    requires
        n > 0,
    ensures
        even_share(n) <= 1_000_000,
{
    assert((2 * 1_000_000 + n) / (2 * n) <= 1_000_000) by (nonlinear_arith)
        requires
            n > 0,
    ;
}

pub(crate) proof fn lemma_even_chain_ids(s: Seq<PaneId>, direction: Direction)
    requires
        s.len() > 0,
    ensures
        even_chain_tree(s, direction).ids() == s,
    decreases s.len(),
{
    if s.len() > 1 {
        lemma_even_chain_ids(s.drop_first(), direction);
        assert(seq![s[0]] + s.drop_first() =~= s);
        assert(Tree::Pane(s[0]).ids() == seq![s[0]]);
    } else {
        assert(seq![s[0]] =~= s);
    }
}

proof fn lemma_column_start(len: nat, cols: nat, c: nat)
    requires
        1 <= cols <= len,
        c < cols,
    ensures
        column_start(len, cols, c) < column_start(len, cols, c + 1) <= len,
        column_start(len, cols, 0) == 0,
        column_start(len, cols, cols) == len,
{
    let base = len / cols;
    let extra = len % cols;
    assert(len == cols * base + extra && base >= 1 && extra < cols) by (nonlinear_arith)
        requires
            1 <= cols <= len,
            base == len / cols,
            extra == len % cols,
    ;
    assert((c + 1) * base == c * base + base) by (nonlinear_arith);
    assert((c + 1) * base <= cols * base) by (nonlinear_arith)
        requires
            c + 1 <= cols,
            base >= 1,
    ;
    assert(0 * base == 0);
}

pub(crate) proof fn lemma_column_chain_ids(s: Seq<PaneId>, cols: nat, c: nat)
    requires
        1 <= cols <= s.len(),
        c < cols,
    ensures
        column_chain_tree(s, cols, c).ids() == s.subrange(
            column_start(s.len(), cols, c) as int,
            s.len() as int,
        ),
    decreases cols - c,
{
    lemma_column_start(s.len(), cols, c);
    let col = grid_column(s, cols, c);
    lemma_even_chain_ids(col, Direction::Vertical);
    if c + 1 >= cols {
        lemma_column_start(s.len(), cols, c);
    } else {
        lemma_column_chain_ids(s, cols, c + 1);
        lemma_column_start(s.len(), cols, c + 1);
        assert(col + s.subrange(column_start(s.len(), cols, c + 1) as int, s.len() as int)
            =~= s.subrange(column_start(s.len(), cols, c) as int, s.len() as int));
    }
}

/// Every arrangement keeps the panes in the order it was given them.
pub proof fn lemma_arrange_preserves_order(kind: Arrangement, s: Seq<PaneId>, focus: PaneId, cols: nat)
    requires
        s.len() > 0,
        kind == Arrangement::Grid ==> 1 <= cols <= s.len(),
    ensures
        arrange_tree(kind, s, focus, cols).ids() == s,
{
    match kind {
        Arrangement::Vertical => lemma_even_chain_ids(s, Direction::Horizontal),
        Arrangement::Horizontal => lemma_even_chain_ids(s, Direction::Vertical),
        Arrangement::Grid => {
            lemma_column_chain_ids(s, cols, 0);
            lemma_column_start(s.len(), cols, 0);
            assert(s.subrange(0, s.len() as int) =~= s);
        },
        Arrangement::Stacked => {},
    }
}

fn even_chain(panes: &[PaneId], lo: usize, hi: usize, direction: Direction) -> (r: Node)
    requires
        lo < hi <= panes@.len(),
    ensures
        r@ == even_chain_tree(panes@.subrange(lo as int, hi as int), direction),
    decreases hi - lo,
{
    let ghost s = panes@.subrange(lo as int, hi as int);
    if hi - lo == 1 {
        Node::Pane(panes[lo])
    } else {
        assert(s.drop_first() =~= panes@.subrange(lo + 1, hi as int));
        proof {
            lemma_even_share_bound((hi - lo) as nat);
        }
        let ratio = even_ratio(hi - lo);
        let head = Node::Pane(panes[lo]);
        assert(head@ == Tree::Pane(s[0]));
        let tail = even_chain(panes, lo + 1, hi, direction);
        Node::Split { direction, ratio, first: Box::new(head), second: Box::new(tail) }
    }
}

fn column_start_exec(len: usize, cols: usize, c: usize) -> (r: usize)
    requires
        1 <= cols <= len,
        c <= cols,
    ensures
        r == column_start(len as nat, cols as nat, c as nat),
{
    let base = len / cols;
    let extra = len % cols;
    assert(c * base <= len) by (nonlinear_arith)
        requires
            c <= cols,
            base == len / cols,
            1 <= cols,
    ;
    proof {
        if c < cols {
            lemma_column_start(len as nat, cols as nat, c as nat);
        } else {
            lemma_column_start(len as nat, cols as nat, (c - 1) as nat);
        }
    }
    c * base + if c < extra {
        c
    } else {
        extra
    }
}

fn column_chain(panes: &[PaneId], cols: usize, c: usize) -> (r: Node)
    requires
        1 <= cols <= panes@.len(),
        c < cols,
    ensures
        r@ == column_chain_tree(panes@, cols as nat, c as nat),
    decreases cols - c,
{
    proof {
        lemma_column_start(panes@.len(), cols as nat, c as nat);
    }
    let lo = column_start_exec(panes.len(), cols, c);
    let hi = column_start_exec(panes.len(), cols, c + 1);
    let column = even_chain(panes, lo, hi, Direction::Vertical);
    if c + 1 >= cols {
        column
    } else {
        proof {
            lemma_even_share_bound((cols - c) as nat);
        }
        let ratio = even_ratio(cols - c);
        let rest = column_chain(panes, cols, c + 1);
        Node::Split {
            direction: Direction::Horizontal,
            ratio,
            first: Box::new(column),
            second: Box::new(rest),
        }
    }
}

/// Build a layout tree for `panes` under `kind`. `grid_columns` is the
/// number of columns a grid uses (unused by the other arrangements).
/// Returns `None` for an empty pane list, which callers treat as "keep the
/// existing tree".
pub fn arrange(kind: Arrangement, panes: &[PaneId], focus: PaneId, grid_columns: usize) -> (r: Option<Node>)
    requires
        kind == Arrangement::Grid && panes@.len() > 0 ==> 1 <= grid_columns <= panes@.len(),
    ensures
        r is None <==> panes@.len() == 0,
        r is Some ==> r->0@ == arrange_tree(kind, panes@, focus, grid_columns as nat),
        r is Some ==> r->0@.ids() == panes@,
{
    if panes.len() == 0 {
        return None;
    }
    proof {
        lemma_arrange_preserves_order(kind, panes@, focus, grid_columns as nat);
    }
    assert(panes@.subrange(0, panes@.len() as int) =~= panes@);
    match kind {
        Arrangement::Vertical => Some(even_chain(panes, 0, panes.len(), Direction::Horizontal)),
        Arrangement::Horizontal => Some(even_chain(panes, 0, panes.len(), Direction::Vertical)),
        Arrangement::Grid => Some(column_chain(panes, grid_columns, 0)),
        Arrangement::Stacked => {
            let mut members: Vec<PaneId> = Vec::new();
            let mut i: usize = 0;
            while i < panes.len()
                invariant
                    i <= panes@.len(),
                    members@ == panes@.subrange(0, i as int),
                decreases panes@.len() - i,
            {
                members.push(panes[i]);
                i += 1;
                assert(members@ =~= panes@.subrange(0, i as int));
            }
            let active = match position(&members, focus) {
                Some(index) => {
                    proof {
                        lemma_first_index(members@, focus, index as int);
                    }
                    index
                },
                None => 0,
            };
            Some(Node::Stack { panes: members, active })
        },
    }
}


// --- Directional pane navigation ---

/// `[a_start, a_start + a_len)` and `[b_start, b_start + b_len)` share a cell.
pub open spec fn spans_overlap(a_start: u16, a_len: u16, b_start: u16, b_len: u16) -> bool {
    a_start < b_start + b_len && a_start + a_len > b_start
}

fn ranges_overlap(a_start: u16, a_len: u16, b_start: u16, b_len: u16) -> (r: bool)
    requires
        a_start + a_len <= MAX_COORD,
        b_start + b_len <= MAX_COORD,
    ensures
        r == spans_overlap(a_start, a_len, b_start, b_len),
{
    a_start < b_start + b_len && a_start + a_len > b_start
}

/// How many cells the two spans share, with ends saturating at the
/// coordinate range.
pub open spec fn overlap_amount(a_start: u16, a_len: u16, b_start: u16, b_len: u16) -> int {
    let a_end = if a_start + a_len > MAX_COORD { MAX_COORD as int } else { a_start + a_len };
    let b_end = if b_start + b_len > MAX_COORD { MAX_COORD as int } else { b_start + b_len };
    let lo = if a_start > b_start { a_start as int } else { b_start as int };
    let hi = if a_end < b_end { a_end } else { b_end };
    if hi - lo < 0 { 0 } else { hi - lo }
}

fn range_overlap_amount(a_start: u16, a_len: u16, b_start: u16, b_len: u16) -> (r: u16)
    ensures
        r == overlap_amount(a_start, a_len, b_start, b_len),
{
    let a_end = a_start.saturating_add(a_len);
    let b_end = b_start.saturating_add(b_len);
    let hi = if a_end < b_end {
        a_end
    } else {
        b_end
    };
    let lo = if a_start > b_start {
        a_start
    } else {
        b_start
    };
    hi.saturating_sub(lo)
}

/// Twice the distance between the spans' centres, computed in saturating
/// cell arithmetic.
pub open spec fn center_distance(a_start: u16, a_len: u16, b_start: u16, b_len: u16) -> int {
    let a2 = if 2 * a_start > MAX_COORD { MAX_COORD as int } else { 2 * a_start };
    let b2 = if 2 * b_start > MAX_COORD { MAX_COORD as int } else { 2 * b_start };
    let a_center = if a2 + a_len > MAX_COORD { MAX_COORD as int } else { a2 + a_len };
    let b_center = if b2 + b_len > MAX_COORD { MAX_COORD as int } else { b2 + b_len };
    if a_center >= b_center { a_center - b_center } else { b_center - a_center }
}

fn range_center_distance(a_start: u16, a_len: u16, b_start: u16, b_len: u16) -> (r: u16)
    ensures
        r == center_distance(a_start, a_len, b_start, b_len),
{
    let a_center = a_start.saturating_add(a_start).saturating_add(a_len);
    let b_center = b_start.saturating_add(b_start).saturating_add(b_len);
    if a_center >= b_center {
        a_center - b_center
    } else {
        b_center - a_center
    }
}

/// `r` lies wholly on the `direction` side of `f` and shares a row (for
/// left and right) or a column (for up and down) with it.
pub open spec fn lies_toward(f: Rect, direction: NavDirection, r: Rect) -> bool {
    match direction {
        NavDirection::Left => r.x + r.width <= f.x && spans_overlap(r.y, r.height, f.y, f.height),
        NavDirection::Right => r.x >= f.x + f.width && spans_overlap(r.y, r.height, f.y, f.height),
        NavDirection::Up => r.y + r.height <= f.y && spans_overlap(r.x, r.width, f.x, f.width),
        NavDirection::Down => r.y >= f.y + f.height && spans_overlap(r.x, r.width, f.x, f.width),
    }
}

/// The gap between `f` and `r` along `direction`.
pub open spec fn edge_gap(f: Rect, direction: NavDirection, r: Rect) -> int {
    let d = match direction {
        NavDirection::Left => f.x - (r.x + r.width),
        NavDirection::Right => r.x - (f.x + f.width),
        NavDirection::Up => f.y - (r.y + r.height),
        NavDirection::Down => r.y - (f.y + f.height),
    };
    if d < 0 { 0 } else { d }
}

/// The rows (left/right) or columns (up/down) `r` shares with `f`.
pub open spec fn shared_span(f: Rect, direction: NavDirection, r: Rect) -> int {
    match direction {
        NavDirection::Left | NavDirection::Right => overlap_amount(r.y, r.height, f.y, f.height),
        NavDirection::Up | NavDirection::Down => overlap_amount(r.x, r.width, f.x, f.width),
    }
}

/// How far `r`'s centre sits from `f`'s across `direction`.
pub open spec fn cross_offset(f: Rect, direction: NavDirection, r: Rect) -> int {
    match direction {
        NavDirection::Left | NavDirection::Right => center_distance(r.y, r.height, f.y, f.height),
        NavDirection::Up | NavDirection::Down => center_distance(r.x, r.width, f.x, f.width),
    }
}

/// Pane `i` is a place focus can move to from `focused`.
pub open spec fn nav_candidate(focused: PaneInfo, direction: NavDirection, panes: Seq<PaneInfo>, i: int) -> bool {
    0 <= i < panes.len() && panes[i].id != focused.id && lies_toward(focused.rect, direction, panes[i].rect)
}

/// Candidate `i` is preferred over candidate `j`: nearer edge first, then
/// larger shared span, then nearer centre, then earlier in the list.
pub open spec fn nav_prefers(focused: PaneInfo, direction: NavDirection, panes: Seq<PaneInfo>, i: int, j: int) -> bool {
    let f = focused.rect;
    let (ei, ej) = (edge_gap(f, direction, panes[i].rect), edge_gap(f, direction, panes[j].rect));
    let (oi, oj) = (shared_span(f, direction, panes[i].rect), shared_span(f, direction, panes[j].rect));
    let (ci, cj) = (cross_offset(f, direction, panes[i].rect), cross_offset(f, direction, panes[j].rect));
    ||| ei < ej
    ||| ei == ej && oi > oj
    ||| ei == ej && oi == oj && ci < cj
    ||| ei == ej && oi == oj && ci == cj && i < j
}

/// Find the nearest pane in the given direction from `focused`.
pub fn find_in_direction(focused: &PaneInfo, direction: NavDirection, panes: &[PaneInfo]) -> (r: Option<PaneId>)
    requires
        focused.rect.wf(),
        forall|i: int| 0 <= i < panes@.len() ==> (#[trigger] panes@[i]).rect.wf(),
    ensures
        r is None <==> forall|i: int| !nav_candidate(*focused, direction, panes@, i),
        r is Some ==> exists|i: int|
            {
                &&& nav_candidate(*focused, direction, panes@, i)
                &&& panes@[i].id == r->0
                &&& forall|j: int|
                    nav_candidate(*focused, direction, panes@, j) && j != i ==> nav_prefers(
                        *focused,
                        direction,
                        panes@,
                        i,
                        j,
                    )
            },
{
    let fr = focused.rect;
    let mut best: Option<(usize, u16, u16, u16)> = None;
    let mut index: usize = 0;
    while index < panes.len()
        invariant
            index <= panes@.len(),
            fr == focused.rect,
            fr.wf(),
            forall|i: int| 0 <= i < panes@.len() ==> (#[trigger] panes@[i]).rect.wf(),
            best is None ==> forall|i: int| 0 <= i < index ==> !nav_candidate(*focused, direction, panes@, i),
            best is Some ==> {
                let (b, e, o, c) = best->0;
                &&& b < index
                &&& nav_candidate(*focused, direction, panes@, b as int)
                &&& e == edge_gap(fr, direction, panes@[b as int].rect)
                &&& o == shared_span(fr, direction, panes@[b as int].rect)
                &&& c == cross_offset(fr, direction, panes@[b as int].rect)
                &&& forall|j: int|
                    0 <= j < index && nav_candidate(*focused, direction, panes@, j) && j != b
                        ==> nav_prefers(*focused, direction, panes@, b as int, j)
            },
        decreases panes@.len() - index,
    {
        let p = &panes[index];
        let r = p.rect;
        assert(r.wf());
        let toward = match direction {
            NavDirection::Left => r.x + r.width <= fr.x && ranges_overlap(r.y, r.height, fr.y, fr.height),
            NavDirection::Right => r.x >= fr.x + fr.width && ranges_overlap(r.y, r.height, fr.y, fr.height),
            NavDirection::Up => r.y + r.height <= fr.y && ranges_overlap(r.x, r.width, fr.x, fr.width),
            NavDirection::Down => r.y >= fr.y + fr.height && ranges_overlap(r.x, r.width, fr.x, fr.width),
        };
        if p.id != focused.id && toward {
            let edge = match direction {
                NavDirection::Left => fr.x.saturating_sub(r.x + r.width),
                NavDirection::Right => r.x.saturating_sub(fr.x + fr.width),
                NavDirection::Up => fr.y.saturating_sub(r.y + r.height),
                NavDirection::Down => r.y.saturating_sub(fr.y + fr.height),
            };
            let overlap = match direction {
                NavDirection::Left | NavDirection::Right => range_overlap_amount(r.y, r.height, fr.y, fr.height),
                NavDirection::Up | NavDirection::Down => range_overlap_amount(r.x, r.width, fr.x, fr.width),
            };
            let center = match direction {
                NavDirection::Left | NavDirection::Right => range_center_distance(r.y, r.height, fr.y, fr.height),
                NavDirection::Up | NavDirection::Down => range_center_distance(r.x, r.width, fr.x, fr.width),
            };
            let replace = match best {
                None => true,
                Some((_, e, o, c)) => edge < e || (edge == e && overlap > o) || (edge == e && overlap == o
                    && center < c),
            };
            if replace {
                best = Some((index, edge, overlap, center));
            }
        }
        index += 1;
    }
    match best {
        Some((b, _, _, _)) => Some(panes[b].id),
        None => None,
    }
}


// --- Resizing ---

pub open spec fn opposite(nav: NavDirection) -> NavDirection {
    match nav {
        NavDirection::Left => NavDirection::Right,
        NavDirection::Right => NavDirection::Left,
        NavDirection::Up => NavDirection::Down,
        NavDirection::Down => NavDirection::Up,
    }
}

fn opposite_direction(nav: NavDirection) -> (r: NavDirection)
    ensures
        r == opposite(nav),
{
    match nav {
        NavDirection::Left => NavDirection::Right,
        NavDirection::Right => NavDirection::Left,
        NavDirection::Up => NavDirection::Down,
        NavDirection::Down => NavDirection::Up,
    }
}

/// The split direction whose dividers a move along `nav` crosses.
pub open spec fn nav_axis(nav: NavDirection) -> Direction {
    match nav {
        NavDirection::Left | NavDirection::Right => Direction::Horizontal,
        NavDirection::Up | NavDirection::Down => Direction::Vertical,
    }
}

/// How far a split's divider is from the edge of `f` that faces `nav`.
pub open spec fn split_gap(split: SplitModel, f: Rect, nav: NavDirection) -> int {
    let edge = match nav {
        NavDirection::Left => f.x as int,
        NavDirection::Right => f.x + f.width,
        NavDirection::Up => f.y as int,
        NavDirection::Down => f.y + f.height,
    };
    if split.pos >= edge { split.pos - edge } else { edge - split.pos }
}

/// A split that can resize `f` toward `nav`: it runs the right way, spans
/// some of `f`, and its divider sits on (or next to) the facing edge.
pub open spec fn split_qualifies(split: SplitModel, direction: Direction, f: Rect, nav: NavDirection) -> bool {
    &&& split.direction == direction
    &&& match nav {
        NavDirection::Left | NavDirection::Right => spans_overlap(split.area.y, split.area.height, f.y, f.height),
        NavDirection::Up | NavDirection::Down => spans_overlap(split.area.x, split.area.width, f.x, f.width),
    }
    &&& split_gap(split, f, nav) <= 1
}

/// `i` is the first qualifying split with the smallest gap.
pub open spec fn is_nearest_split(splits: Seq<SplitModel>, direction: Direction, f: Rect, nav: NavDirection, i: int) -> bool {
    &&& 0 <= i < splits.len()
    &&& split_qualifies(splits[i], direction, f, nav)
    &&& forall|j: int|
        0 <= j < splits.len() && split_qualifies(splits[j], direction, f, nav) ==> split_gap(
            splits[i],
            f,
            nav,
        ) <= split_gap(splits[j], f, nav)
    &&& forall|j: int|
        0 <= j < i && split_qualifies(splits[j], direction, f, nav) ==> split_gap(splits[i], f, nav)
            < split_gap(splits[j], f, nav)
}

/// `i` is the first focused pane in the list.
pub open spec fn is_first_focused(infos: Seq<PaneInfo>, i: int) -> bool {
    0 <= i < infos.len() && infos[i].is_focused && forall|j: int| 0 <= j < i ==> !infos[j].is_focused
}

/// The split a resize of the pane `focus_id` toward `nav` adjusts: the
/// nearest split on the edge it faces, else the nearest on the opposite edge.
pub open spec fn resize_choice(t: Tree, focus_id: PaneId, nav: NavDirection, area: Rect) -> Option<SplitModel> {
    let infos = pane_infos(t, area, focus_id);
    let splits = split_models(t, area, Seq::empty());
    if exists|i: int| #[trigger] is_first_focused(infos, i) {
        let f = infos[choose|i: int| is_first_focused(infos, i)].rect;
        if exists|i: int| #[trigger] is_nearest_split(splits, nav_axis(nav), f, nav, i) {
            Some(splits[choose|i: int| is_nearest_split(splits, nav_axis(nav), f, nav, i)])
        } else if exists|i: int| #[trigger] is_nearest_split(splits, nav_axis(nav), f, opposite(nav), i) {
            Some(splits[choose|i: int| is_nearest_split(splits, nav_axis(nav), f, opposite(nav), i)])
        } else {
            None
        }
    } else {
        None
    }
}

/// The share after a resize step of `delta` millionths: grown toward right
/// and down, shrunk toward left and up, then kept within the user range.
pub open spec fn resized_share(current: Ratio, nav: NavDirection, delta: i32) -> Ratio {
    let adj: int = match nav {
        NavDirection::Right | NavDirection::Down => delta as int,
        NavDirection::Left | NavDirection::Up => -(delta as int),
    };
    let v = current.0 + adj;
    Ratio(
        if v < 100_000 {
            100_000
        } else if v > 900_000 {
            900_000
        } else {
            v as u32
        },
    )
}

/// The tree after resizing the pane `focus_id` toward `nav` by `delta`.
pub open spec fn resize_tree(t: Tree, focus_id: PaneId, nav: NavDirection, delta: i32, area: Rect) -> Tree {
    match resize_choice(t, focus_id, nav, area) {
        None => t,
        Some(split) => {
            let current = match t.ratio_at(split.path) {
                Some(r) => r,
                None => Ratio::spec_half(),
            };
            match t.with_ratio_at(split.path, resized_share(current, nav, delta).spec_clamp_user()) {
                Some(t2) => t2,
                None => t,
            }
        },
    }
}

pub(crate) proof fn lemma_pane_infos_wf(t: Tree, area: Rect, focus: PaneId)
    requires
        area.wf(),
    ensures
        forall|i: int| 0 <= i < pane_infos(t, area, focus).len() ==> (#[trigger] pane_infos(t, area, focus)[i]).rect.wf(),
    decreases t,
{
    match t {
        Tree::Split { direction, ratio, first, second } => {
            let (a, b) = split_rect_spec(area, direction, ratio);
            crate::geometry::lemma_split_rect_wf(area, direction, ratio);
            lemma_pane_infos_wf(*first, a, focus);
            lemma_pane_infos_wf(*second, b, focus);
            let l = pane_infos(*first, a, focus);
            assert forall|i: int| 0 <= i < pane_infos(t, area, focus).len() implies (#[trigger] pane_infos(t, area, focus)[i]).rect.wf() by {
                if i >= l.len() {
                    assert(pane_infos(t, area, focus)[i] == pane_infos(*second, b, focus)[i - l.len()]);
                }
            }
        },
        Tree::Stack { panes, active } => {
            lemma_stack_rects_wf(area, panes.len(), active);
        },
        _ => {},
    }
}

proof fn lemma_stack_rects_wf(area: Rect, count: nat, active: nat)
    requires
        area.wf(),
    ensures
        forall|k: int| 0 <= k < count ==> (#[trigger] stack_rects_spec(area, count, active)[k]).wf(),
{
}

pub(crate) proof fn lemma_split_models_wf(t: Tree, area: Rect, path: Seq<bool>)
    requires
        area.wf(),
    ensures
        forall|i: int| 0 <= i < split_models(t, area, path).len() ==> (#[trigger] split_models(t, area, path)[i]).area.wf(),
    decreases t,
{
    match t {
        Tree::Split { direction, ratio, first, second } => {
            let (a, b) = split_rect_spec(area, direction, ratio);
            crate::geometry::lemma_split_rect_wf(area, direction, ratio);
            lemma_split_models_wf(*first, a, path.push(false));
            lemma_split_models_wf(*second, b, path.push(true));
            let pos = match direction {
                Direction::Horizontal => (a.x + a.width) as u16,
                Direction::Vertical => (a.y + a.height) as u16,
            };
            let head = seq![SplitModel { pos, direction, ratio, area, path }];
            let l = split_models(*first, a, path.push(false));
            assert forall|i: int| 0 <= i < split_models(t, area, path).len() implies (#[trigger] split_models(t, area, path)[i]).area.wf() by {
                if i == 0 {
                } else if i < 1 + l.len() {
                    assert(split_models(t, area, path)[i] == l[i - 1]);
                } else {
                    assert(split_models(t, area, path)[i] == split_models(*second, b, path.push(true))[i - 1 - l.len()]);
                }
            }
        },
        _ => {},
    }
}

/// Whether the tree changes when the ratio at `path` is set to `x`.
pub proof fn lemma_with_ratio_at_unchanged(t: Tree, path: Seq<bool>, x: Ratio)
    requires
        t.with_ratio_at(path, x) is Some,
    ensures
        (t.with_ratio_at(path, x)->0 == t) <==> t.ratio_at(path) == Some(x),
    decreases path.len(),
{
    match t {
        Tree::Split { direction, ratio, first, second } => {
            if path.len() > 0 {
                if path[0] {
                    lemma_with_ratio_at_unchanged(*second, path.drop_first(), x);
                } else {
                    lemma_with_ratio_at_unchanged(*first, path.drop_first(), x);
                }
            }
        },
        _ => {},
    }
}

fn nearest_resize_split(splits: &Vec<SplitBorder>, target_dir: Direction, focused: Rect, nav: NavDirection) -> (r: Option<usize>)
    requires
        focused.wf(),
        forall|i: int| 0 <= i < splits@.len() ==> (#[trigger] splits@[i]).area.wf(),
    ensures
        r is None <==> !exists|i: int| #[trigger] is_nearest_split(split_views(splits@), target_dir, focused, nav, i),
        r is Some ==> is_nearest_split(split_views(splits@), target_dir, focused, nav, r->0 as int),
{
    let ghost ms = split_views(splits@);
    let mut best: Option<(usize, u32)> = None;
    let mut i: usize = 0;
    while i < splits.len()
        invariant
            i <= splits@.len(),
            ms == split_views(splits@),
            focused.wf(),
            forall|k: int| 0 <= k < splits@.len() ==> (#[trigger] splits@[k]).area.wf(),
            best is None ==> forall|j: int| 0 <= j < i ==> !split_qualifies(ms[j], target_dir, focused, nav),
            best is Some ==> {
                let (b, g) = best->0;
                &&& b < i
                &&& split_qualifies(ms[b as int], target_dir, focused, nav)
                &&& g == split_gap(ms[b as int], focused, nav)
                &&& forall|j: int|
                    0 <= j < i && split_qualifies(ms[j], target_dir, focused, nav) ==> g <= split_gap(ms[j], focused, nav)
                &&& forall|j: int|
                    0 <= j < b && split_qualifies(ms[j], target_dir, focused, nav) ==> g < split_gap(ms[j], focused, nav)
            },
        decreases splits@.len() - i,
    {
        let split = &splits[i];
        assert(ms[i as int] == split@);
        assert(split.area.wf());
        let overlaps = match nav {
            NavDirection::Left | NavDirection::Right => ranges_overlap(split.area.y, split.area.height, focused.y, focused.height),
            NavDirection::Up | NavDirection::Down => ranges_overlap(split.area.x, split.area.width, focused.x, focused.width),
        };
        let edge: u32 = match nav {
            NavDirection::Left => focused.x as u32,
            NavDirection::Right => (focused.x + focused.width) as u32,
            NavDirection::Up => focused.y as u32,
            NavDirection::Down => (focused.y + focused.height) as u32,
        };
        let pos = split.pos as u32;
        let gap: u32 = if pos >= edge {
            pos - edge
        } else {
            edge - pos
        };
        if split.direction == target_dir && overlaps && gap <= 1 {
            let better = match best {
                None => true,
                Some((_, g)) => gap < g,
            };
            if better {
                best = Some((i, gap));
            }
        }
        i += 1;
    }
    match best {
        Some((b, _)) => {
            assert(is_nearest_split(ms, target_dir, focused, nav, b as int));
            Some(b)
        },
        None => {
            assert(!exists|k: int| #[trigger] is_nearest_split(ms, target_dir, focused, nav, k)) by {
                if exists|k: int| #[trigger] is_nearest_split(ms, target_dir, focused, nav, k) {
                    let k = choose|k: int| is_nearest_split(ms, target_dir, focused, nav, k);
                    assert(!split_qualifies(ms[k], target_dir, focused, nav));
                }
            }
            None
        },
    }
}

proof fn lemma_nearest_unique(splits: Seq<SplitModel>, direction: Direction, f: Rect, nav: NavDirection, i: int)
    requires
        is_nearest_split(splits, direction, f, nav, i),
    ensures
        (choose|k: int| is_nearest_split(splits, direction, f, nav, k)) == i,
{
    let k = choose|k: int| is_nearest_split(splits, direction, f, nav, k);
    assert(is_nearest_split(splits, direction, f, nav, k));
    if k < i {
    } else if i < k {
    }
}

proof fn lemma_first_focused_unique(infos: Seq<PaneInfo>, i: int)
    requires
        is_first_focused(infos, i),
    ensures
        (choose|k: int| is_first_focused(infos, k)) == i,
{
    let k = choose|k: int| is_first_focused(infos, k);
    assert(is_first_focused(infos, k));
    if k < i {
    } else if i < k {
    }
}

impl TileLayout {
    /// Resize toward `nav` as if `focus_id` held focus. True when a ratio
    /// changed.
    fn resize_as(&mut self, focus_id: PaneId, nav: NavDirection, delta: i32, area: Rect) -> (changed: bool)
        requires
            area.wf(),
        ensures
            final(self)@ == (LayoutState {
                tree: resize_tree(old(self)@.tree, focus_id, nav, delta, area),
                ..old(self)@
            }),
            changed == (final(self)@.tree != old(self)@.tree),
    {
        let ghost t = self@.tree;
        let mut infos = Vec::new();
        collect_panes(&self.root, area, focus_id, &mut infos);
        assert(infos@ =~= pane_infos(t, area, focus_id));
        proof {
            lemma_pane_infos_wf(t, area, focus_id);
        }
        let mut fi: usize = 0;
        while fi < infos.len() && !infos[fi].is_focused
            invariant
                fi <= infos@.len(),
                forall|j: int| 0 <= j < fi ==> !infos@[j].is_focused,
            decreases infos@.len() - fi,
        {
            fi += 1;
        }
        if fi == infos.len() {
            assert(!exists|i: int| #[trigger] is_first_focused(infos@, i));
            return false;
        }
        assert(is_first_focused(infos@, fi as int));
        proof {
            lemma_first_focused_unique(infos@, fi as int);
        }
        let focused_rect = infos[fi].rect;
        let splits = self.splits(area);
        proof {
            lemma_split_models_wf(t, area, Seq::empty());
            assert forall|i: int| 0 <= i < splits@.len() implies (#[trigger] splits@[i]).area.wf() by {
                assert(split_views(splits@)[i] == splits@[i]@);
            }
        }
        let axis = match nav {
            NavDirection::Left | NavDirection::Right => Direction::Horizontal,
            NavDirection::Up | NavDirection::Down => Direction::Vertical,
        };
        let ghost ms = split_views(splits@);
        let best = match nearest_resize_split(&splits, axis, focused_rect, nav) {
            Some(i) => {
                proof {
                    lemma_nearest_unique(ms, axis, focused_rect, nav, i as int);
                }
                Some(i)
            },
            None => {
                let back = opposite_direction(nav);
                match nearest_resize_split(&splits, axis, focused_rect, back) {
                    Some(i) => {
                        proof {
                            lemma_nearest_unique(ms, axis, focused_rect, back, i as int);
                        }
                        Some(i)
                    },
                    None => None,
                }
            },
        };
        let index = match best {
            Some(index) => index,
            None => {
                return false;
            },
        };
        proof {
            let f = infos@[fi as int].rect;
            assert(f == focused_rect);
            assert(is_first_focused(infos@, fi as int));
            assert(resize_choice(t, focus_id, nav, area) == Some(ms[index as int]));
        }
        let path = &splits[index].path;
        assert(ms[index as int].path == path@);
        assert(path@.subrange(0, path@.len() as int) =~= path@);
        let prior = get_ratio_at(&self.root, path, 0);
        let current = match prior {
            Some(r) => r,
            None => Ratio::half(),
        };
        let grows = match nav {
            NavDirection::Right | NavDirection::Down => true,
            _ => false,
        };
        let adj: i64 = if grows {
            delta as i64
        } else {
            -(delta as i64)
        };
        let v: i64 = current.0 as i64 + adj;
        let next = Ratio(
            if v < 100_000 {
                100_000
            } else if v > 900_000 {
                900_000
            } else {
                v as u32
            },
        );
        assert(next == resized_share(current, nav, delta));
        let new_ratio = next.clamp_user();
        let mut old_root = Node::Pane(PaneId(0));
        std::mem::swap(&mut old_root, &mut self.root);
        let (new_root, placed) = set_ratio_at(old_root, path, 0, new_ratio);
        self.root = new_root;
        proof {
            if placed {
                lemma_with_ratio_at_unchanged(t, path@, new_ratio);
            }
        }
        if !placed {
            return false;
        }
        match prior {
            Some(r) => r != new_ratio,
            None => true,
        }
    }
}


impl TileLayout {
    /// Adjust the nearest split in the given direction for the focused pane.
    /// `delta` is in millionths: positive to grow, negative to shrink.
    pub fn resize_focused(&mut self, nav: NavDirection, delta: i32, area: Rect)
        requires
            area.wf(),
        ensures
            final(self)@ == (LayoutState {
                tree: resize_tree(old(self)@.tree, old(self)@.focus, nav, delta, area),
                ..old(self)@
            }),
    {
        let focus = self.focus;
        self.resize_as(focus, nav, delta, area);
    }

    /// Resize as if `pane_id` were focused, leaving focus where it is.
    /// True when some split ratio changed.
    pub fn resize_pane(&mut self, pane_id: PaneId, nav: NavDirection, delta: i32, area: Rect) -> (r: bool)
        requires
            area.wf(),
        ensures
            !old(self)@.ids().contains(pane_id) ==> !r && final(self)@ == old(self)@,
            old(self)@.ids().contains(pane_id) ==> final(self)@ == (LayoutState {
                tree: resize_tree(old(self)@.tree, pane_id, nav, delta, area),
                ..old(self)@
            }),
            r == (final(self)@.tree != old(self)@.tree),
    {
        if !contains_id(&self.pane_ids(), pane_id) {
            return false;
        }
        self.resize_as(pane_id, nav, delta, area)
    }
}


// --- The layout invariant: unique ids and a focus inside the tree ---

proof fn lemma_no_dup_split(a: Seq<PaneId>, b: Seq<PaneId>)
    requires
        (a + b).no_duplicates(),
    ensures
        a.no_duplicates(),
        b.no_duplicates(),
        forall|x: PaneId| a.contains(x) ==> !b.contains(x),
{
    assert forall|i: int, j: int| 0 <= i < a.len() && 0 <= j < a.len() && i != j implies a[i] != a[j] by {
        assert((a + b)[i] == a[i] && (a + b)[j] == a[j]);
    }
    assert forall|i: int, j: int| 0 <= i < b.len() && 0 <= j < b.len() && i != j implies b[i] != b[j] by {
        assert((a + b)[a.len() + i] == b[i] && (a + b)[a.len() + j] == b[j]);
    }
    assert forall|x: PaneId| a.contains(x) implies !b.contains(x) by {
        let i = choose|i: int| 0 <= i < a.len() && a[i] == x;
        if b.contains(x) {
            let j = choose|j: int| 0 <= j < b.len() && b[j] == x;
            assert((a + b)[i] == (a + b)[a.len() + j]);
        }
    }
}

proof fn lemma_first_index_append(a: Seq<PaneId>, b: Seq<PaneId>, x: PaneId)
    requires
        a.contains(x),
    ensures
        first_index(a + b, x) == first_index(a, x),
{
    lemma_first_index_exists(a, x);
    let i = first_index(a, x);
    assert(is_first_index(a + b, x, i)) by {
        assert forall|j: int| 0 <= j < i implies (a + b)[j] != x by {
            assert((a + b)[j] == a[j]);
        }
    }
    lemma_first_index(a + b, x, i);
}

proof fn lemma_first_index_append_right(a: Seq<PaneId>, b: Seq<PaneId>, x: PaneId)
    requires
        !a.contains(x),
        b.contains(x),
    ensures
        first_index(a + b, x) == a.len() + first_index(b, x),
{
    lemma_first_index_exists(b, x);
    let i = first_index(b, x);
    assert(is_first_index(a + b, x, a.len() + i)) by {
        assert forall|j: int| 0 <= j < a.len() + i implies (a + b)[j] != x by {
            if j < a.len() {
                assert((a + b)[j] == a[j]);
            } else {
                assert((a + b)[j] == b[j - a.len()]);
            }
        }
    }
    lemma_first_index(a + b, x, a.len() + i);
}

/// In a tree whose ids are unique, splitting `target` places the new pane
/// directly after it in tree order.
pub proof fn lemma_split_at_ids(t: Tree, target: PaneId, direction: Direction, new_id: PaneId, ratio: Ratio)
    requires
        t.ids().no_duplicates(),
        t.ids().contains(target),
    ensures
        t.split_at(target, direction, new_id, ratio).ids() == t.ids().insert(
            first_index(t.ids(), target) + 1,
            new_id,
        ),
    decreases t,
{
    match t {
        Tree::Pane(id) => {
            assert(t.ids()[0] == target) by {
                let k = choose|k: int| 0 <= k < t.ids().len() && t.ids()[k] == target;
            }
            lemma_first_index(t.ids(), target, 0);
            assert(Tree::Pane(id).ids() == seq![id]);
            assert(Tree::Pane(new_id).ids() == seq![new_id]);
            assert(seq![id] + seq![new_id] =~= seq![id].insert(1, new_id));
        },
        Tree::Split { first, second, .. } => {
            let (a, b) = (first.ids(), second.ids());
            lemma_no_dup_split(a, b);
            lemma_contains_append(a, b, target);
            if a.contains(target) {
                lemma_split_at_ids(*first, target, direction, new_id, ratio);
                lemma_split_at_absent(*second, target, direction, new_id, ratio);
                lemma_first_index_append(a, b, target);
                lemma_first_index_exists(a, target);
                assert(a.insert(first_index(a, target) + 1, new_id) + b =~= (a + b).insert(
                    first_index(a, target) + 1,
                    new_id,
                ));
            } else {
                lemma_split_at_ids(*second, target, direction, new_id, ratio);
                lemma_split_at_absent(*first, target, direction, new_id, ratio);
                lemma_first_index_append_right(a, b, target);
                lemma_first_index_exists(b, target);
                assert(a + b.insert(first_index(b, target) + 1, new_id) =~= (a + b).insert(
                    a.len() + first_index(b, target) + 1,
                    new_id,
                ));
            }
        },
        Tree::Stack { .. } => {},
    }
}

proof fn lemma_insert_no_dup(s: Seq<PaneId>, i: int, x: PaneId)
    requires
        s.no_duplicates(),
        !s.contains(x),
        0 <= i <= s.len(),
    ensures
        s.insert(i, x).no_duplicates(),
        forall|y: PaneId| s.insert(i, x).contains(y) <==> (s.contains(y) || y == x),
{
    let q = s.insert(i, x);
    assert forall|a: int, b: int| 0 <= a < q.len() && 0 <= b < q.len() && a != b implies q[a] != q[b] by {
        if a == i {
            assert(s.contains(q[b]) || b == i) by {
                if b < i { assert(q[b] == s[b]); } else if b > i { assert(q[b] == s[b - 1]); }
            }
        } else if b == i {
            assert(s.contains(q[a])) by {
                if a < i { assert(q[a] == s[a]); } else { assert(q[a] == s[a - 1]); }
            }
        } else {
            let sa = if a < i { a } else { a - 1 };
            let sb = if b < i { b } else { b - 1 };
            assert(q[a] == s[sa] && q[b] == s[sb]);
        }
    }
    assert forall|y: PaneId| q.contains(y) <==> (s.contains(y) || y == x) by {
        if q.contains(y) {
            let k = choose|k: int| 0 <= k < q.len() && q[k] == y;
            if k < i { assert(s[k] == y); } else if k > i { assert(s[k - 1] == y); }
        }
        if s.contains(y) {
            let k = choose|k: int| 0 <= k < s.len() && s[k] == y;
            if k < i { assert(q[k] == y); } else { assert(q[k + 1] == y); }
        }
        if y == x { assert(q[i] == y); }
    }
}

proof fn lemma_without_no_dup(s: Seq<PaneId>, x: PaneId)
    requires
        s.no_duplicates(),
    ensures
        without(s, x).no_duplicates(),
        s.contains(x) ==> without(s, x).len() + 1 == s.len(),
        !s.contains(x) ==> without(s, x) == s,
    decreases s.len(),
{
    if s.len() > 0 {
        let d = s.drop_last();
        assert(d.no_duplicates());
        lemma_without_no_dup(d, x);
        let rest = without(d, x);
        assert(!d.contains(s.last())) by {
            if d.contains(s.last()) {
                let k = choose|k: int| 0 <= k < d.len() && d[k] == s.last();
                assert(s[k] == s[s.len() - 1]);
            }
        }
        assert(s.contains(x) <==> (d.contains(x) || s.last() == x)) by {
            if s.contains(x) {
                let k = choose|k: int| 0 <= k < s.len() && s[k] == x;
                if k < s.len() - 1 { assert(d[k] == x); }
            }
            if d.contains(x) {
                let k = choose|k: int| 0 <= k < d.len() && d[k] == x;
                assert(s[k] == x);
            }
        }
        if s.last() != x {
            lemma_without_contains(d, x, s.last());
            let w = rest.push(s.last());
            assert forall|a: int, b: int| 0 <= a < w.len() && 0 <= b < w.len() && a != b implies w[a] != w[b] by {
                if a == rest.len() {
                    assert(rest.contains(w[b]));
                } else if b == rest.len() {
                    assert(rest.contains(w[a]));
                }
            }
            if !s.contains(x) {
                assert(w =~= s);
            }
        } else {
            assert(!d.contains(x));
            assert(rest == d);
        }
    }
}

proof fn lemma_swap_no_dup(s: Seq<PaneId>, a: PaneId, b: PaneId)
    requires
        s.no_duplicates(),
    ensures
        s.map_values(|p: PaneId| swap_id(p, a, b)).no_duplicates(),
        forall|y: PaneId| s.map_values(|p: PaneId| swap_id(p, a, b)).contains(y) <==> s.contains(swap_id(y, a, b)),
{
    let m = s.map_values(|p: PaneId| swap_id(p, a, b));
    assert forall|i: int, j: int| 0 <= i < m.len() && 0 <= j < m.len() && i != j implies m[i] != m[j] by {
        assert(swap_id(swap_id(s[i], a, b), a, b) == s[i]);
        assert(swap_id(swap_id(s[j], a, b), a, b) == s[j]);
    }
    assert forall|y: PaneId| m.contains(y) <==> s.contains(swap_id(y, a, b)) by {
        if m.contains(y) {
            let k = choose|k: int| 0 <= k < m.len() && m[k] == y;
            assert(s[k] == swap_id(y, a, b));
        }
        if s.contains(swap_id(y, a, b)) {
            let k = choose|k: int| 0 <= k < s.len() && s[k] == swap_id(y, a, b);
            assert(m[k] == y);
        }
    }
}

/// Splitting a pane of a well-formed layout with a fresh id keeps it
/// well-formed, and the new pane lands right after its target.
pub proof fn lemma_split_keeps_wf(s: LayoutState, target: PaneId, direction: Direction, new_id: PaneId, ratio: Ratio)
    requires
        s.wf(),
        s.ids().contains(target),
        !s.ids().contains(new_id),
    ensures
        ({
            let t = s.tree.split_at(target, direction, new_id, ratio);
            &&& (LayoutState { tree: t, ..s }).wf()
            &&& (LayoutState { tree: t, ..s }).focused_on(new_id).wf()
            &&& t.ids() == s.ids().insert(first_index(s.ids(), target) + 1, new_id)
        }),
{
    lemma_split_at_ids(s.tree, target, direction, new_id, ratio);
    lemma_first_index_exists(s.ids(), target);
    lemma_insert_no_dup(s.ids(), first_index(s.ids(), target) + 1, new_id);
    let t = s.tree.split_at(target, direction, new_id, ratio);
    lemma_sync_ids(t, new_id);
}

/// Closing the focused pane of a well-formed layout with more than one
/// pane succeeds and keeps the layout well-formed.
pub proof fn lemma_close_focused_keeps_wf(s: LayoutState)
    requires
        s.wf(),
        s.ids().len() > 1,
    ensures
        s.tree.remove(s.focus) is Some,
        (LayoutState {
            tree: s.tree.remove(s.focus)->0.sync(s.close_focus_target()),
            focus: s.close_focus_target(),
            prev_focus: None,
        }).wf(),
{
    let ids = s.ids();
    lemma_remove_ids(s.tree, s.focus);
    lemma_without_no_dup(ids, s.focus);
    lemma_first_index_exists(ids, s.focus);
    let pos = first_index(ids, s.focus);
    let target = s.close_focus_target();
    assert(ids.contains(target) && target != s.focus) by {
        let ordered = if pos + 1 < ids.len() { ids[pos + 1] } else { ids[pos - 1] };
        assert(ids.contains(ordered)) by {
            if pos + 1 < ids.len() { assert(ids[pos + 1] == ordered); } else { assert(ids[pos - 1] == ordered); }
        }
        assert(ordered != s.focus);
    }
    lemma_without_contains(ids, s.focus, target);
    let t = s.tree.remove(s.focus)->0;
    lemma_sync_ids(t, target);
}

/// Closing a pane other than the focused one keeps a well-formed layout
/// well-formed.
pub proof fn lemma_close_other_keeps_wf(s: LayoutState, id: PaneId)
    requires
        s.wf(),
        s.ids().contains(id),
        id != s.focus,
    ensures
        s.tree.remove(id) is Some,
        (LayoutState { tree: s.tree.remove(id)->0, ..s }).wf(),
{
    lemma_remove_ids(s.tree, id);
    lemma_without_no_dup(s.ids(), id);
    lemma_without_contains(s.ids(), id, s.focus);
    assert(without(s.ids(), id).contains(s.focus));
}

/// Swapping two panes of a well-formed layout keeps it well-formed.
pub proof fn lemma_swap_keeps_wf(s: LayoutState, a: PaneId, b: PaneId)
    requires
        s.wf(),
        s.ids().contains(a),
        s.ids().contains(b),
    ensures
        (LayoutState { tree: s.tree.swap(a, b).sync(s.focus), ..s }).wf(),
{
    lemma_swap_ids(s.tree, a, b);
    lemma_swap_no_dup(s.ids(), a, b);
    lemma_sync_ids(s.tree.swap(a, b), s.focus);
    assert(s.ids().contains(swap_id(s.focus, a, b)));
    assert(s.tree.swap(a, b).ids().contains(s.focus));
}

/// Splitting a pane with a fresh id and then closing that new pane gives
/// back the original pane order.
pub proof fn lemma_split_then_close_restores_order(t: Tree, target: PaneId, direction: Direction, new_id: PaneId, ratio: Ratio)
    requires
        t.ids().no_duplicates(),
        t.ids().contains(target),
        !t.ids().contains(new_id),
    ensures
        t.split_at(target, direction, new_id, ratio).remove(new_id) is Some,
        t.split_at(target, direction, new_id, ratio).remove(new_id)->0.ids() == t.ids(),
{
    let ids = t.ids();
    lemma_split_at_ids(t, target, direction, new_id, ratio);
    lemma_first_index_exists(ids, target);
    let i = first_index(ids, target) + 1;
    let q = ids.insert(i, new_id);
    lemma_insert_no_dup(ids, i, new_id);
    let split = t.split_at(target, direction, new_id, ratio);
    lemma_remove_ids(split, new_id);
    assert(q == ids.subrange(0, i) + seq![new_id] + ids.subrange(i, ids.len() as int)) by {
        assert(q =~= ids.subrange(0, i) + seq![new_id] + ids.subrange(i, ids.len() as int));
    }
    lemma_without_append(ids.subrange(0, i) + seq![new_id], ids.subrange(i, ids.len() as int), new_id);
    lemma_without_append(ids.subrange(0, i), seq![new_id], new_id);
    assert(!ids.subrange(0, i).contains(new_id)) by {
        if ids.subrange(0, i).contains(new_id) {
            let k = choose|k: int| 0 <= k < i && ids.subrange(0, i)[k] == new_id;
            assert(ids[k] == new_id);
        }
    }
    assert(!ids.subrange(i, ids.len() as int).contains(new_id)) by {
        if ids.subrange(i, ids.len() as int).contains(new_id) {
            let k = choose|k: int| 0 <= k < ids.len() - i && ids.subrange(i, ids.len() as int)[k] == new_id;
            assert(ids[i + k] == new_id);
        }
    }
    lemma_without_absent(ids.subrange(0, i), new_id);
    lemma_without_absent(ids.subrange(i, ids.len() as int), new_id);
    reveal_with_fuel(without, 2);
    assert(seq![new_id].drop_last() =~= Seq::<PaneId>::empty());
    assert(without(seq![new_id], new_id) =~= Seq::<PaneId>::empty());
    assert(ids.subrange(0, i) + Seq::<PaneId>::empty() + ids.subrange(i, ids.len() as int) =~= ids);
}

proof fn lemma_without_absent(s: Seq<PaneId>, x: PaneId)
    requires
        !s.contains(x),
    ensures
        without(s, x) == s,
    decreases s.len(),
{
    if s.len() > 0 {
        let d = s.drop_last();
        assert(!d.contains(x)) by {
            if d.contains(x) {
                let k = choose|k: int| 0 <= k < d.len() && d[k] == x;
                assert(s[k] == x);
            }
        }
        lemma_without_absent(d, x);
        assert(s.last() != x) by { assert(s[s.len() - 1] == s.last()); }
        assert(d.push(s.last()) =~= s);
    }
}


/// A stack's members tile its area: each member's rect starts on the row
/// where the previous one ended, the first starts at the top, the last
/// ends at the bottom, the active member keeps at least one row and every
/// other member at most one.
pub proof fn lemma_stack_rects_tile_the_area(area: Rect, count: nat, active: nat)
    requires
        area.wf(),
        count > 0,
        area.height > 0,
    ensures
        ({
            let rects = stack_rects_spec(area, count, active);
            let a = clamp_active(count, active);
            &&& rects.len() == count
            &&& rects[0].y == area.y
            &&& rects[count - 1].y + rects[count - 1].height == area.y + area.height
            &&& forall|k: int| 0 <= k < count - 1 ==> #[trigger] rects[k].y + rects[k].height == rects[k + 1].y
            &&& forall|k: int| 0 <= k < count ==> (#[trigger] rects[k]).x == area.x && rects[k].width == area.width
            &&& rects[a].height >= 1
            &&& forall|k: int| 0 <= k < count && k != a ==> (#[trigger] rects[k]).height <= 1
        }),
{
    let h = area.height;
    let a = clamp_active(count, active);
    let ah = stack_active_height(h, count);
    let budget = h - ah;
    assert(0 < ah <= h);
    assert(budget <= ((count - 1) as u16) as int);
    assert(((count - 1) as u16) as int <= count - 1);
    assert forall|k: int| 0 <= k < count implies stack_offset(h, count, active, k) + stack_height(h, count, active, k) <= h
        && (k + 1 < count ==> stack_offset(h, count, active, k) + stack_height(h, count, active, k) == stack_offset(h, count, active, k + 1))
    by {
    }
    assert(stack_offset(h, count, active, count - 1) + stack_height(h, count, active, count - 1) == h);
}

/// Closing a pane never resizes a split it leaves standing: when both
/// sides of a split still hold panes after `target` is removed, the split
/// keeps its direction and its ratio, over what is left of each side.
pub proof fn lemma_closing_keeps_surviving_split_ratios(
    direction: Direction,
    ratio: Ratio,
    first: Tree,
    second: Tree,
    target: PaneId,
)
    requires
        first.remove(target) is Some,
        second.remove(target) is Some,
    ensures
        (Tree::Split { direction, ratio, first: Box::new(first), second: Box::new(second) }).remove(target) == Some(
            Tree::Split {
                direction,
                ratio,
                first: Box::new(first.remove(target)->0),
                second: Box::new(second.remove(target)->0),
            },
        ),
{
}

/// Moving focus in a direction never passes over a nearer pane: of two
/// panes lying that way, the one chosen is never farther from the focused
/// pane's facing edge (for left, the gap between the candidate's right edge
/// and the focused pane's left edge) than the other.
pub proof fn lemma_navigation_prefers_the_nearest_pane(
    focused: PaneInfo,
    direction: NavDirection,
    panes: Seq<PaneInfo>,
    i: int,
    j: int,
)
    requires
        nav_candidate(focused, direction, panes, i),
        nav_candidate(focused, direction, panes, j),
        nav_prefers(focused, direction, panes, i, j),
    ensures
        ({
            let f = focused.rect;
            let a = panes[i].rect;
            let b = panes[j].rect;
            match direction {
                NavDirection::Left => f.x - (a.x + a.width) <= f.x - (b.x + b.width),
                NavDirection::Right => a.x - (f.x + f.width) <= b.x - (f.x + f.width),
                NavDirection::Up => f.y - (a.y + a.height) <= f.y - (b.y + b.height),
                NavDirection::Down => a.y - (f.y + f.height) <= b.y - (f.y + f.height),
            }
        }),
{
}

/// An even split among `n` children gives the first the millionth nearest
/// to `1/n` of the area: `ratio * n` is within `n/2` of one million.
pub open spec fn is_even_share_of(ratio: Ratio, n: nat) -> bool {
    2 * 1_000_000 - n < 2 * n * ratio.0 <= 2 * 1_000_000 + n
}

proof fn lemma_even_share_is_nearest(n: nat)
    requires
        n >= 1,
    ensures
        is_even_share_of(Ratio(even_share(n) as u32), n),
{
    lemma_even_share_bound(n);
    let q = even_share(n);
    assert(q == (2 * 1_000_000 + n) / (2 * n));
    assert(2 * n * q <= 2 * 1_000_000 + n && 2 * 1_000_000 + n < 2 * n * q + 2 * n) by (nonlinear_arith)
        requires
            n >= 1,
            q == (2 * 1_000_000 + n) / (2 * n),
    ;
}

/// The vertical and horizontal arrangements give every pane an equal
/// share: each split of the chain gives its first pane `1/n` of what is
/// left for the `n` panes still to place.
pub proof fn lemma_even_chains_are_even(s: Seq<PaneId>, direction: Direction)
    requires
        s.len() >= 2,
    ensures
        even_chain_tree(s, direction) matches Tree::Split { direction: d, ratio, first, .. } && d == direction
            && is_even_share_of(ratio, s.len()) && *first == Tree::Pane(s[0]),
{
    lemma_even_share_is_nearest(s.len());
}

/// The columns of a grid are equal: the split before column `c` of a grid
/// of `cols` columns gives that column `1/(cols - c)` of the width left.
pub proof fn lemma_grid_columns_are_even(s: Seq<PaneId>, cols: nat, c: nat)
    requires
        c + 1 < cols,
    ensures
        column_chain_tree(s, cols, c) matches Tree::Split { direction: d, ratio, .. } && d == Direction::Horizontal
            && is_even_share_of(ratio, (cols - c) as nat),
{
    lemma_even_share_is_nearest((cols - c) as nat);
}

/// A grid of several columns splits its area into equal columns from the
/// left: its root gives the first column `1/cols` of the width.
pub proof fn lemma_grid_arrangement_starts_with_an_even_column(s: Seq<PaneId>, focus: PaneId, cols: nat)
    requires
        cols >= 2,
    ensures
        arrange_tree(Arrangement::Grid, s, focus, cols) matches Tree::Split { direction: d, ratio, .. } && d
            == Direction::Horizontal && is_even_share_of(ratio, cols),
{
    lemma_grid_columns_are_even(s, cols, 0);
}

} // verus!
