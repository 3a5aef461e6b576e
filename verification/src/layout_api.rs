//! Layout trees as the control API describes them: checking a requested
//! tree before anything is spawned for it, and folding the panes built for
//! a requested stack into one stack node.

use vstd::prelude::*;

use crate::geometry::{Direction, Ratio};
use crate::layout::{count_panes, node_pane_ids, Arrangement, Node, PaneId, Tree};
use crate::pinned_path::texts;
use crate::text::{decimal, push_decimal};

verus! {

/// The most panes one `layout.apply` request may hold, over all its trees.
pub const MAX_LAYOUT_PANES: usize = 24;

/// The deepest a requested tree may nest.
pub const MAX_LAYOUT_DEPTH: usize = 16;

/// Which way a requested split places its second child.
#[derive(Debug, Clone, Copy, PartialEq, Eq, Structural)]
pub enum SplitDirection {
    Right,
    Down,
}

/// One requested pane.
#[derive(Debug)]
pub struct LayoutPane {
    pub pane_id: Option<String>,
    pub label: Option<String>,
    pub cwd: Option<String>,
    /// The command to run instead of a shell, as an argument vector.
    pub command: Option<Vec<String>>,
    /// What the launch-environment check said of this pane's environment
    /// when it refused it.
    pub env_error: Option<String>,
}

/// A requested layout tree. A split's ratio is `None` when the request
/// gave a number that is not finite.
#[derive(Debug)]
pub enum LayoutNode {
    Pane { pane: LayoutPane },
    Split { direction: SplitDirection, ratio: Option<Ratio>, first: Box<LayoutNode>, second: Box<LayoutNode> },
    Stack { panes: Vec<LayoutPane>, active: usize },
}

/// How the API names an arrangement.
#[derive(Debug, Clone, Copy, PartialEq, Eq, Structural)]
pub enum ArrangementSchema {
    Vertical,
    Horizontal,
    Grid,
    Stacked,
}

pub open spec fn spec_arrangement_schema(arrangement: Arrangement) -> ArrangementSchema {
    match arrangement {
        Arrangement::Vertical => ArrangementSchema::Vertical,
        Arrangement::Horizontal => ArrangementSchema::Horizontal,
        Arrangement::Grid => ArrangementSchema::Grid,
        Arrangement::Stacked => ArrangementSchema::Stacked,
    }
}

pub fn arrangement_schema(arrangement: Arrangement) -> (r: ArrangementSchema)
    ensures
        r == spec_arrangement_schema(arrangement),
{
    match arrangement {
        Arrangement::Vertical => ArrangementSchema::Vertical,
        Arrangement::Horizontal => ArrangementSchema::Horizontal,
        Arrangement::Grid => ArrangementSchema::Grid,
        Arrangement::Stacked => ArrangementSchema::Stacked,
    }
}

/// Every stack on the path of first children holds a pane.
pub open spec fn first_leaf_exists(node: LayoutNode) -> bool
    decreases node,
{
    match node {
        LayoutNode::Pane { .. } => true,
        LayoutNode::Split { first, .. } => first_leaf_exists(*first),
        LayoutNode::Stack { panes, .. } => panes@.len() > 0,
    }
}

/// The first pane of a requested tree: a split's first child first, a
/// stack's first pane.
pub open spec fn spec_first_leaf(node: LayoutNode) -> LayoutPane
    decreases node,
{
    match node {
        LayoutNode::Pane { pane } => pane,
        LayoutNode::Split { first, .. } => spec_first_leaf(*first),
        LayoutNode::Stack { panes, .. } => panes@[0],
    }
}

/// The first pane of a requested tree, whose stacks have been checked to
/// hold a pane.
pub fn first_layout_leaf(node: &LayoutNode) -> (r: &LayoutPane)
    requires
        first_leaf_exists(*node),
    ensures
        *r == spec_first_leaf(*node),
    decreases node,
{
    match node {
        LayoutNode::Pane { pane } => pane,
        LayoutNode::Split { first, .. } => first_layout_leaf(first),
        LayoutNode::Stack { panes, .. } => &panes[0],
    }
}

pub open spec fn empty_command_message() -> Seq<char> {
    "pane command must not be empty"@
}

/// The command a requested pane runs: an empty argument vector is refused.
pub fn layout_command(pane: &LayoutPane) -> (r: Result<Option<Vec<String>>, String>)
    ensures
        match pane.command {
            Some(c) => if c@.len() == 0 {
                r matches Err(e) && e@ == empty_command_message()
            } else {
                r matches Ok(Some(out)) && texts(out@) == texts(c@)
            },
            None => r matches Ok(None),
        },
{
    match &pane.command {
        Some(command) => {
            if command.len() == 0 {
                Err(String::from_str("pane command must not be empty"))
            } else {
                let mut out: Vec<String> = Vec::new();
                let mut i: usize = 0;
                while i < command.len()
                    invariant
                        i <= command@.len(),
                        out@.len() == i,
                        forall|k: int| 0 <= k < i ==> #[trigger] out@[k]@ == command@[k]@,
                    decreases command@.len() - i,
                {
                    out.push(String::from_str(command[i].as_str()));
                    i += 1;
                }
                assert(texts(out@) =~= texts(command@));
                Ok(Some(out))
            }
        },
        None => Ok(None),
    }
}

pub open spec fn too_many_panes_message() -> Seq<char> {
    "layout has more than 24 panes"@
}

pub open spec fn ratio_not_finite_message() -> Seq<char> {
    "split ratio must be finite"@
}

pub open spec fn empty_stack_message() -> Seq<char> {
    "stack must have at least one pane"@
}

pub open spec fn too_deep_message(depth: nat) -> Seq<char> {
    "layout depth is "@ + decimal(depth) + "; maximum is 16"@
}

pub open spec fn active_out_of_range_message(active: nat, count: nat) -> Seq<char> {
    "stack active index "@ + decimal(active) + " is out of range for "@ + decimal(count) + " panes"@
}

/// What checking one requested pane finds wrong with it, if anything.
pub open spec fn pane_problem(pane: LayoutPane) -> Option<Seq<char>> {
    if pane.command matches Some(c) && c@.len() == 0 {
        Some(empty_command_message())
    } else {
        match pane.env_error {
            Some(e) => Some(e@),
            None => None,
        }
    }
}

/// Checking the panes of a stack from position `i` on, `count` panes having
/// been counted before: the count after them, or the first problem.
pub open spec fn check_panes(panes: Seq<LayoutPane>, i: int, count: nat) -> Result<nat, Seq<char>>
    decreases panes.len() - i,
{
    if i < 0 || i >= panes.len() {
        Ok(count)
    } else if count + 1 > MAX_LAYOUT_PANES {
        Err(too_many_panes_message())
    } else {
        match pane_problem(panes[i]) {
            Some(e) => Err(e),
            None => check_panes(panes, i + 1, count + 1),
        }
    }
}

/// Checking a requested tree at `depth`, `count` panes having been counted
/// before it: the count after it, or the first problem met walking it
/// first child first.
pub open spec fn check_node(node: LayoutNode, depth: nat, count: nat) -> Result<nat, Seq<char>>
    decreases node,
{
    if depth > MAX_LAYOUT_DEPTH {
        Err(too_deep_message(depth))
    } else {
        match node {
            LayoutNode::Pane { pane } => if count + 1 > MAX_LAYOUT_PANES {
                Err(too_many_panes_message())
            } else {
                match pane_problem(pane) {
                    Some(e) => Err(e),
                    None => Ok(count + 1),
                }
            },
            LayoutNode::Split { ratio, first, second, .. } => if ratio is None {
                Err(ratio_not_finite_message())
            } else {
                match check_node(*first, depth + 1, count) {
                    Err(e) => Err(e),
                    Ok(c) => check_node(*second, depth + 1, c),
                }
            },
            LayoutNode::Stack { panes, active } => if panes@.len() == 0 {
                Err(empty_stack_message())
            } else if active >= panes@.len() {
                Err(active_out_of_range_message(active as nat, panes@.len()))
            } else {
                check_panes(panes@, 0, count)
            },
        }
    }
}

/// Checking every root of one request in turn, sharing one pane budget.
pub open spec fn check_roots(roots: Seq<&LayoutNode>, i: int, count: nat) -> Result<nat, Seq<char>>
    decreases roots.len() - i,
{
    if i < 0 || i >= roots.len() {
        Ok(count)
    } else {
        match check_node(*roots[i], 1, count) {
            Err(e) => Err(e),
            Ok(c) => check_roots(roots, i + 1, c),
        }
    }
}

/// The running totals of a check.
pub struct LayoutTreeStats {
    pub panes: usize,
    pub max_depth: usize,
}

fn check_pane(pane: &LayoutPane, stats: &mut LayoutTreeStats) -> (r: Result<(), String>)
    requires
        old(stats).panes <= MAX_LAYOUT_PANES,
    ensures
        final(stats).max_depth == old(stats).max_depth,
        final(stats).panes == old(stats).panes + 1,
        match r {
            Ok(()) => old(stats).panes + 1 <= MAX_LAYOUT_PANES && pane_problem(*pane) is None,
            Err(e) => if old(stats).panes + 1 > MAX_LAYOUT_PANES {
                e@ == too_many_panes_message()
            } else {
                pane_problem(*pane) == Some(e@)
            },
        },
{
    stats.panes = stats.panes + 1;
    if stats.panes > MAX_LAYOUT_PANES {
        return Err(String::from_str("layout has more than 24 panes"));
    }
    if let Err(message) = layout_command(pane) {
        return Err(message);
    }
    match &pane.env_error {
        Some(message) => Err(String::from_str(message.as_str())),
        None => Ok(()),
    }
}

/// Check one requested tree at `depth`, counting its panes into `stats`.
pub fn validate_layout_node(node: &LayoutNode, depth: usize, stats: &mut LayoutTreeStats) -> (r: Result<(), String>)
    requires
        1 <= depth <= MAX_LAYOUT_DEPTH + 1,
        old(stats).panes <= MAX_LAYOUT_PANES,
        old(stats).max_depth <= MAX_LAYOUT_DEPTH,
    ensures
        match r {
            Ok(()) => check_node(*node, depth as nat, old(stats).panes as nat) == Ok::<nat, Seq<char>>(
                final(stats).panes as nat,
            ),
            Err(e) => check_node(*node, depth as nat, old(stats).panes as nat) == Err::<nat, Seq<char>>(e@),
        },
        r is Ok ==> final(stats).panes <= MAX_LAYOUT_PANES && final(stats).max_depth <= MAX_LAYOUT_DEPTH,
    decreases node,
{
    if depth > stats.max_depth {
        stats.max_depth = depth;
    }
    if depth > MAX_LAYOUT_DEPTH {
        let mut message = String::from_str("layout depth is ");
        push_decimal(&mut message, depth as u64);
        message.append("; maximum is 16");
        return Err(message);
    }
    match node {
        LayoutNode::Pane { pane } => check_pane(pane, stats),
        LayoutNode::Split { first, second, ratio, .. } => {
            if ratio.is_none() {
                return Err(String::from_str("split ratio must be finite"));
            }
            match validate_layout_node(first, depth + 1, stats) {
                Err(e) => Err(e),
                Ok(()) => validate_layout_node(second, depth + 1, stats),
            }
        },
        LayoutNode::Stack { panes, active } => {
            if panes.len() == 0 {
                return Err(String::from_str("stack must have at least one pane"));
            }
            if *active >= panes.len() {
                let mut message = String::from_str("stack active index ");
                push_decimal(&mut message, *active as u64);
                message.append(" is out of range for ");
                push_decimal(&mut message, panes.len() as u64);
                message.append(" panes");
                assert(message@ =~= active_out_of_range_message(*active as nat, panes@.len()));
                return Err(message);
            }
            let ghost start = stats.panes as nat;
            assert(check_node(*node, depth as nat, start) == check_panes(panes@, 0, start));
            let mut i: usize = 0;
            while i < panes.len()
                invariant
                    i <= panes@.len(),
                    start == old(stats).panes,
                    check_node(*node, depth as nat, start) == check_panes(panes@, 0, start),
                    stats.panes <= MAX_LAYOUT_PANES,
                    stats.max_depth <= MAX_LAYOUT_DEPTH,
                    check_panes(panes@, 0, start) == check_panes(panes@, i as int, stats.panes as nat),
                decreases panes@.len() - i,
            {
                match check_pane(&panes[i], stats) {
                    Err(e) => {
                        return Err(e);
                    },
                    Ok(()) => {},
                }
                i += 1;
            }
            Ok(())
        },
    }
}

/// Check every root of one `layout.apply` request before anything is
/// spawned. All roots share a single pane budget: the request spawns a
/// terminal per pane across all of them, so checking them separately would
/// let a tiled tree and a float tree each claim the cap. The first problem
/// met, root by root and first child first, is the error.
pub fn validate_layout_trees(roots: &[&LayoutNode]) -> (r: Result<(), String>)
    ensures
        match r {
            Ok(()) => check_roots(roots@, 0, 0) is Ok,
            Err(e) => check_roots(roots@, 0, 0) == Err::<nat, Seq<char>>(e@),
        },
        r is Ok ==> forall|i: int|
            0 <= i < roots@.len() ==> buildable(*#[trigger] roots@[i]) && requested_panes(*roots@[i]) <= MAX_LAYOUT_PANES,
{
    let mut stats = LayoutTreeStats { panes: 0, max_depth: 0 };
    let mut i: usize = 0;
    while i < roots.len()
        invariant
            i <= roots@.len(),
            stats.panes <= MAX_LAYOUT_PANES,
            stats.max_depth <= MAX_LAYOUT_DEPTH,
            check_roots(roots@, 0, 0) == check_roots(roots@, i as int, stats.panes as nat),
        decreases roots@.len() - i,
    {
        match validate_layout_node(roots[i], 1, &mut stats) {
            Err(e) => {
                return Err(e);
            },
            Ok(()) => {},
        }
        i += 1;
    }
    if stats.panes > MAX_LAYOUT_PANES {
        let mut message = String::from_str("layout has ");
        push_decimal(&mut message, stats.panes as u64);
        message.append(" panes; maximum is 24");
        return Err(message);
    }
    if stats.max_depth > MAX_LAYOUT_DEPTH {
        let mut message = String::from_str("layout depth is ");
        push_decimal(&mut message, stats.max_depth as u64);
        message.append("; maximum is 16");
        return Err(message);
    }
    proof {
        assert forall|i: int| 0 <= i < roots@.len() implies buildable(*#[trigger] roots@[i]) && requested_panes(*roots@[i])
            <= MAX_LAYOUT_PANES by {
            lemma_valid_requests_are_buildable(roots@, i);
        }
    }
    Ok(())
}

/// Whether `ids` holds exactly as many panes as `members` and every member
/// is among them.
pub open spec fn covers_members(ids: Seq<PaneId>, members: Seq<PaneId>) -> bool {
    ids.len() == members.len() && forall|k: int| 0 <= k < members.len() ==> ids.contains(#[trigger] members[k])
}

/// `t` with the outermost subtree whose panes are exactly `members`
/// replaced by a stack of `members` showing `active`.
pub open spec fn stack_rebuilt(t: Tree, members: Seq<PaneId>, active: nat) -> Tree
    decreases t,
{
    if covers_members(t.ids(), members) {
        Tree::Stack { panes: members, active }
    } else {
        match t {
            Tree::Pane(id) => Tree::Pane(id),
            Tree::Split { direction, ratio, first, second } => Tree::Split {
                direction,
                ratio,
                first: Box::new(stack_rebuilt(*first, members, active)),
                second: Box::new(stack_rebuilt(*second, members, active)),
            },
            Tree::Stack { .. } => t,
        }
    }
}

fn copy_ids(s: &[PaneId]) -> (r: Vec<PaneId>)
    ensures
        r@ == s@,
{
    let mut out: Vec<PaneId> = Vec::new();
    let mut i: usize = 0;
    while i < s.len()
        invariant
            i <= s@.len(),
            out@ == s@.subrange(0, i as int),
        decreases s@.len() - i,
    {
        out.push(s[i]);
        i += 1;
        assert(out@ =~= s@.subrange(0, i as int));
    }
    assert(out@ =~= s@);
    out
}

fn covers(ids: &Vec<PaneId>, members: &[PaneId]) -> (r: bool)
    ensures
        r == covers_members(ids@, members@),
{
    if ids.len() != members.len() {
        return false;
    }
    let mut i: usize = 0;
    while i < members.len()
        invariant
            i <= members@.len(),
            forall|k: int| 0 <= k < i ==> ids@.contains(#[trigger] members@[k]),
        decreases members@.len() - i,
    {
        if !crate::layout::contains_pane(ids, members[i]) {
            return false;
        }
        i += 1;
    }
    true
}

/// Rebuild `node`, replacing the outermost subtree whose pane set exactly
/// matches `members` with a flat stack. The panes built for a requested
/// stack arrive as a chain of ordinary splits; this folds that chain into
/// the flat shape the request described. Pane ids are unique, so that
/// subtree is unambiguous.
pub fn rebuild_layout_node_as_stack(node: &Node, members: &[PaneId], active: usize) -> (r: Node)
    ensures
        r@ == stack_rebuilt(node@, members@, active as nat),
    decreases node,
{
    let ids = node_pane_ids(node);
    if covers(&ids, members) {
        return Node::Stack { panes: copy_ids(members), active };
    }
    match node {
        Node::Pane(id) => Node::Pane(*id),
        Node::Split { direction, ratio, first, second } => {
            let first = rebuild_layout_node_as_stack(first, members, active);
            let second = rebuild_layout_node_as_stack(second, members, active);
            Node::Split { direction: *direction, ratio: *ratio, first: Box::new(first), second: Box::new(second) }
        },
        Node::Stack { panes, active } => Node::Stack { panes: copy_ids(panes.as_slice()), active: *active },
    }
}

/// How many panes a requested tree holds.
pub open spec fn requested_panes(node: LayoutNode) -> nat
    decreases node,
{
    match node {
        LayoutNode::Pane { .. } => 1,
        LayoutNode::Split { first, second, .. } => requested_panes(*first) + requested_panes(*second),
        LayoutNode::Stack { panes, .. } => panes@.len(),
    }
}

/// How many panes the roots from position `i` on hold together.
pub open spec fn requested_panes_from(roots: Seq<&LayoutNode>, i: int) -> nat
    decreases roots.len() - i,
{
    if i < 0 || i >= roots.len() {
        0
    } else {
        requested_panes(*roots[i]) + requested_panes_from(roots, i + 1)
    }
}

proof fn lemma_check_panes_counts(panes: Seq<LayoutPane>, i: int, count: nat)
    requires
        0 <= i <= panes.len(),
        check_panes(panes, i, count) is Ok,
    ensures
        check_panes(panes, i, count)->Ok_0 == count + (panes.len() - i),
        count + (panes.len() - i) <= MAX_LAYOUT_PANES || i == panes.len(),
    decreases panes.len() - i,
{
    if i < panes.len() {
        lemma_check_panes_counts(panes, i + 1, count + 1);
    }
}

proof fn lemma_check_node_counts(node: LayoutNode, depth: nat, count: nat)
    requires
        check_node(node, depth, count) is Ok,
    ensures
        check_node(node, depth, count)->Ok_0 == count + requested_panes(node),
        count + requested_panes(node) <= MAX_LAYOUT_PANES || requested_panes(node) == 0,
    decreases node,
{
    match node {
        LayoutNode::Pane { .. } => {},
        LayoutNode::Split { first, second, .. } => {
            lemma_check_node_counts(*first, depth + 1, count);
            let c = check_node(*first, depth + 1, count)->Ok_0;
            lemma_check_node_counts(*second, depth + 1, c);
        },
        LayoutNode::Stack { panes, .. } => {
            lemma_check_panes_counts(panes@, 0, count);
        },
    }
}

/// One request may not spawn more than `MAX_LAYOUT_PANES` panes: a request
/// whose trees together hold more is refused, however the panes are split
/// between the tiled tree and the float tree.
pub proof fn lemma_requests_over_the_pane_budget_are_refused(roots: Seq<&LayoutNode>)
    requires
        requested_panes_from(roots, 0) > MAX_LAYOUT_PANES,
    ensures
        check_roots(roots, 0, 0) is Err,
{
    lemma_check_roots_counts(roots, 0, 0);
}

proof fn lemma_check_roots_counts(roots: Seq<&LayoutNode>, i: int, count: nat)
    requires
        0 <= i <= roots.len(),
        count <= MAX_LAYOUT_PANES,
    ensures
        check_roots(roots, i, count) is Ok ==> count + requested_panes_from(roots, i) <= MAX_LAYOUT_PANES,
    decreases roots.len() - i,
{
    if i < roots.len() {
        if check_node(*roots[i], 1, count) is Ok {
            lemma_check_node_counts(*roots[i], 1, count);
            let c = check_node(*roots[i], 1, count)->Ok_0;
            lemma_check_roots_counts(roots, i + 1, c);
        }
    }
}

/// How the API names a split direction: children side by side split to
/// the right, children stacked split downwards.
pub open spec fn spec_split_direction(direction: Direction) -> SplitDirection {
    match direction {
        Direction::Horizontal => SplitDirection::Right,
        Direction::Vertical => SplitDirection::Down,
    }
}

fn split_direction(direction: Direction) -> (r: SplitDirection)
    ensures
        r == spec_split_direction(direction),
{
    match direction {
        Direction::Horizontal => SplitDirection::Right,
        Direction::Vertical => SplitDirection::Down,
    }
}

/// `described` is the API's description of `tree` with `panes` describing
/// its panes in tree order: the same shape, each split with its direction
/// and ratio, each stack with its active member.
pub open spec fn describes(described: LayoutNode, tree: Tree, panes: Seq<LayoutPane>) -> bool
    decreases tree,
{
    match tree {
        Tree::Pane(_) => described matches LayoutNode::Pane { pane } && panes.len() == 1 && pane == panes[0],
        Tree::Split { direction, ratio, first, second } => {
            let n = first.ids().len();
            &&& described matches LayoutNode::Split { direction: d, ratio: r, first: f, second: g }
            &&& d == spec_split_direction(direction)
            &&& r == Some(ratio)
            &&& describes(*f, *first, panes.subrange(0, n as int))
            &&& describes(*g, *second, panes.subrange(n as int, panes.len() as int))
        },
        Tree::Stack { panes: ids, active } => described matches LayoutNode::Stack { panes: p, active: a }
            && p@ == panes && a == active && panes.len() == ids.len(),
    }
}

/// Whether every pane has a description.
pub open spec fn all_described(descriptions: Seq<Option<LayoutPane>>) -> bool {
    forall|i: int| 0 <= i < descriptions.len() ==> (#[trigger] descriptions[i]) is Some
}

/// The descriptions, each known to be there.
pub open spec fn unwrapped(descriptions: Seq<Option<LayoutPane>>) -> Seq<LayoutPane> {
    descriptions.map_values(|d: Option<LayoutPane>| d->0)
}

fn take_description(descriptions: &mut Vec<Option<LayoutPane>>, i: usize) -> (r: Option<LayoutPane>)
    requires
        i < old(descriptions)@.len(),
    ensures
        r == old(descriptions)@[i as int],
        final(descriptions)@ == old(descriptions)@.update(i as int, None),
{
    let mut out: Option<LayoutPane> = None;
    std::mem::swap(&mut out, &mut descriptions[i]);
    out
}

fn describe_from(node: &Node, descriptions: &mut Vec<Option<LayoutPane>>, at: usize) -> (r: Option<LayoutNode>)
    requires
        at + node@.ids().len() <= old(descriptions)@.len(),
    ensures
        final(descriptions)@.len() == old(descriptions)@.len(),
        forall|i: int|
            0 <= i < old(descriptions)@.len() && !(at <= i < at + node@.ids().len()) ==> #[trigger] final(descriptions)@[i]
                == old(descriptions)@[i],
        r is Some <== all_described(old(descriptions)@.subrange(at as int, at + node@.ids().len())),
        r is Some ==> all_described(old(descriptions)@.subrange(at as int, at + node@.ids().len())),
        r matches Some(d) ==> describes(d, node@, unwrapped(old(descriptions)@.subrange(at as int, at + node@.ids().len()))),
    decreases node,
{
    let ghost start = descriptions@;
    let total = descriptions.len();
    match node {
        Node::Pane(_) => {
            let d = take_description(descriptions, at);
            proof {
                assert(start.subrange(at as int, at + 1)[0] == start[at as int]);
            }
            match d {
                Some(pane) => {
                    let r = LayoutNode::Pane { pane };
                    assert(unwrapped(start.subrange(at as int, at + 1)) =~= seq![pane]);
                    Some(r)
                },
                None => None,
            }
        },
        Node::Split { direction, ratio, first, second } => {
            let n = count_panes(first);
            assert(node@.ids() == first@.ids() + second@.ids());
            let f = describe_from(first, descriptions, at);
            let ghost mid = descriptions@;
            let g = describe_from(second, descriptions, at + n);
            let ghost whole = start.subrange(at as int, at + node@.ids().len());
            let ghost a = start.subrange(at as int, at + n);
            let ghost b = start.subrange(at + n, at + node@.ids().len());
            proof {
                assert(whole.subrange(0, n as int) =~= a);
                assert(whole.subrange(n as int, whole.len() as int) =~= b);
                assert(mid.subrange(at + n, at + node@.ids().len()) =~= b);
                assert(all_described(whole) <==> all_described(a) && all_described(b)) by {
                    if all_described(a) && all_described(b) {
                        assert forall|i: int| 0 <= i < whole.len() implies (#[trigger] whole[i]) is Some by {
                            if i < n {
                                assert(whole[i] == a[i]);
                            } else {
                                assert(whole[i] == b[i - n]);
                            }
                        }
                    }
                    if all_described(whole) {
                        assert forall|i: int| 0 <= i < a.len() implies (#[trigger] a[i]) is Some by {
                            assert(a[i] == whole[i]);
                        }
                        assert forall|i: int| 0 <= i < b.len() implies (#[trigger] b[i]) is Some by {
                            assert(b[i] == whole[i + n]);
                        }
                    }
                }
                assert(unwrapped(whole).subrange(0, n as int) =~= unwrapped(a));
                assert(unwrapped(whole).subrange(n as int, unwrapped(whole).len() as int) =~= unwrapped(b));
            }
            match (f, g) {
                (Some(f), Some(g)) => Some(
                    LayoutNode::Split {
                        direction: split_direction(*direction),
                        ratio: Some(*ratio),
                        first: Box::new(f),
                        second: Box::new(g),
                    },
                ),
                _ => None,
            }
        },
        Node::Stack { panes, active } => {
            let mut out: Vec<LayoutPane> = Vec::new();
            let mut k: usize = 0;
            let mut complete = true;
            while k < panes.len()
                invariant
                    k <= panes@.len(),
                    at + panes@.len() <= start.len(),
                    total == start.len(),
                    descriptions@.len() == start.len(),
                    forall|i: int| 0 <= i < start.len() && !(at <= i < at + k) ==> #[trigger] descriptions@[i] == start[i],
                    complete <==> all_described(start.subrange(at as int, at + k)),
                    complete ==> out@ == unwrapped(start.subrange(at as int, at + k)),
                decreases panes@.len() - k,
            {
                let d = take_description(descriptions, at + k);
                proof {
                    assert(start.subrange(at as int, at + k + 1).drop_last() =~= start.subrange(at as int, at + k));
                    assert(start.subrange(at as int, at + k + 1).last() == start[at + k]);
                }
                match d {
                    Some(pane) => {
                        if complete {
                            out.push(pane);
                            assert(out@ =~= unwrapped(start.subrange(at as int, at + k + 1)));
                        }
                    },
                    None => {
                        complete = false;
                    },
                }
                k += 1;
            }
            if complete {
                Some(LayoutNode::Stack { panes: out, active: *active })
            } else {
                None
            }
        },
    }
}

/// The API's description of a layout tree: `descriptions` describes its
/// panes in tree order (as `node_pane_ids` lists them), `None` for a pane
/// that cannot be described. The tree keeps its shape, each split its
/// direction and ratio and each stack its active member; it is `None` when
/// some pane has no description.
pub fn describe_layout_node(node: &Node, descriptions: Vec<Option<LayoutPane>>) -> (r: Option<LayoutNode>)
    requires
        descriptions@.len() == node@.ids().len(),
    ensures
        r is Some <==> all_described(descriptions@),
        r matches Some(d) ==> describes(d, node@, unwrapped(descriptions@)),
{
    let mut descriptions = descriptions;
    let ghost start = descriptions@;
    assert(start.subrange(0, node@.ids().len() as int) =~= start);
    describe_from(node, &mut descriptions, 0)
}

/// Whether a requested tree can be built as it stands: every split has a
/// ratio, and every stack holds a pane and shows one of its panes, as a
/// tree that passed validation does.
pub open spec fn buildable(node: LayoutNode) -> bool
    decreases node,
{
    match node {
        LayoutNode::Pane { .. } => true,
        LayoutNode::Split { ratio, first, second, .. } => ratio is Some && buildable(*first) && buildable(*second),
        LayoutNode::Stack { panes, active } => 0 < panes@.len() && active < panes@.len(),
    }
}

/// The split direction a requested direction builds: to the right lays the
/// children side by side, downwards stacks them.
pub open spec fn spec_tree_direction(direction: SplitDirection) -> Direction {
    match direction {
        SplitDirection::Right => Direction::Horizontal,
        SplitDirection::Down => Direction::Vertical,
    }
}

fn tree_direction(direction: SplitDirection) -> (r: Direction)
    ensures
        r == spec_tree_direction(direction),
{
    match direction {
        SplitDirection::Right => Direction::Horizontal,
        SplitDirection::Down => Direction::Vertical,
    }
}

/// The tree a requested tree builds when `ids` are the panes spawned for
/// its leaves, in tree order.
pub open spec fn built_tree(node: LayoutNode, ids: Seq<PaneId>) -> Tree
    decreases node,
{
    match node {
        LayoutNode::Pane { .. } => Tree::Pane(ids[0]),
        LayoutNode::Split { direction, ratio, first, second } => {
            let n = requested_panes(*first) as int;
            Tree::Split {
                direction: spec_tree_direction(direction),
                ratio: ratio->0,
                first: Box::new(built_tree(*first, ids.subrange(0, n))),
                second: Box::new(built_tree(*second, ids.subrange(n, ids.len() as int))),
            }
        },
        LayoutNode::Stack { active, .. } => Tree::Stack { panes: ids, active: active as nat },
    }
}

/// The pane a built tree focuses: its first leaf, or a stack's active
/// member.
pub open spec fn built_focus(node: LayoutNode, ids: Seq<PaneId>) -> PaneId
    decreases node,
{
    match node {
        LayoutNode::Pane { .. } => ids[0],
        LayoutNode::Split { first, .. } => built_focus(*first, ids.subrange(0, requested_panes(*first) as int)),
        LayoutNode::Stack { active, .. } => ids[active as int],
    }
}

fn count_requested(node: &LayoutNode) -> (r: usize)
    requires
        requested_panes(*node) <= usize::MAX,
    ensures
        r == requested_panes(*node),
    decreases node,
{
    match node {
        LayoutNode::Pane { .. } => 1,
        LayoutNode::Split { first, second, .. } => count_requested(first) + count_requested(second),
        LayoutNode::Stack { panes, .. } => panes.len(),
    }
}

fn build_from(node: &LayoutNode, ids: &[PaneId], at: usize) -> (r: (Node, PaneId))
    requires
        buildable(*node),
        at + requested_panes(*node) <= ids@.len(),
    ensures
        r.0@ == built_tree(*node, ids@.subrange(at as int, at + requested_panes(*node))),
        r.1 == built_focus(*node, ids@.subrange(at as int, at + requested_panes(*node))),
    decreases node,
{
    let ghost whole = ids@.subrange(at as int, at + requested_panes(*node));
    let total = ids.len();
    match node {
        LayoutNode::Pane { .. } => (Node::Pane(ids[at]), ids[at]),
        LayoutNode::Split { direction, ratio, first, second } => {
            let n = count_requested(first);
            let (f, focus) = build_from(first, ids, at);
            let (g, _) = build_from(second, ids, at + n);
            proof {
                assert(whole.subrange(0, n as int) =~= ids@.subrange(at as int, at + n));
                assert(whole.subrange(n as int, whole.len() as int) =~= ids@.subrange(
                    at + n,
                    at + n + requested_panes(**second),
                ));
            }
            let ratio = match ratio {
                Some(r) => *r,
                None => Ratio::half(),
            };
            (Node::Split { direction: tree_direction(*direction), ratio, first: Box::new(f), second: Box::new(g) }, focus)
        },
        LayoutNode::Stack { panes, active } => {
            let mut members: Vec<PaneId> = Vec::new();
            let mut k: usize = 0;
            while k < panes.len()
                invariant
                    k <= panes@.len(),
                    at + panes@.len() <= ids@.len(),
                    total == ids@.len(),
                    members@ == ids@.subrange(at as int, at + k),
                decreases panes@.len() - k,
            {
                members.push(ids[at + k]);
                k += 1;
                assert(members@ =~= ids@.subrange(at as int, at + k));
            }
            let focus = members[*active];
            (Node::Stack { panes: members, active: *active }, focus)
        },
    }
}

/// The float layer a requested tree builds once a pane has been spawned for
/// each of its leaves: `ids` are those panes in tree order. Splits keep
/// their direction and ratio and stacks their active member; the layer
/// focuses the tree's first leaf, or a stack's active member.
pub fn build_float_node(node: &LayoutNode, ids: &[PaneId]) -> (r: (Node, PaneId))
    requires
        buildable(*node),
        ids@.len() == requested_panes(*node),
    ensures
        r.0@ == built_tree(*node, ids@),
        r.1 == built_focus(*node, ids@),
{
    assert(ids@.subrange(0, ids@.len() as int) =~= ids@);
    build_from(node, ids, 0)
}

/// Two requested trees have the same shape: the same splits, each with the
/// same direction and ratio, and the same stacks, each as large and showing
/// the same member. The panes themselves may differ.
pub open spec fn same_shape(a: LayoutNode, b: LayoutNode) -> bool
    decreases a,
{
    match a {
        LayoutNode::Pane { .. } => b is Pane,
        LayoutNode::Split { direction: d1, ratio: r1, first: f1, second: s1 } => match b {
            LayoutNode::Split { direction: d2, ratio: r2, first: f2, second: s2 } => d1 == d2 && r1 == r2 && same_shape(
                *f1,
                *f2,
            ) && same_shape(*s1, *s2),
            _ => false,
        },
        LayoutNode::Stack { panes: p1, active: a1 } => match b {
            LayoutNode::Stack { panes: p2, active: a2 } => p1@.len() == p2@.len() && a1 == a2,
            _ => false,
        },
    }
}

/// What the API describes of a layer built from a request is the request
/// itself: the same splits with the same directions and ratios and the same
/// stacks showing the same members, whatever panes were spawned for it and
/// however they are described.
pub proof fn lemma_a_built_layout_describes_back(
    node: LayoutNode,
    ids: Seq<PaneId>,
    panes: Seq<LayoutPane>,
    described: LayoutNode,
)
    requires
        buildable(node),
        ids.len() == requested_panes(node),
        describes(described, built_tree(node, ids), panes),
    ensures
        same_shape(described, node),
    decreases node,
{
    match node {
        LayoutNode::Pane { .. } => {},
        LayoutNode::Split { direction, ratio, first, second } => {
            let n = requested_panes(*first) as int;
            let a = ids.subrange(0, n);
            let b = ids.subrange(n, ids.len() as int);
            let ft = built_tree(*first, a);
            match described {
                LayoutNode::Split { first: f, second: g, .. } => {
                    let m = ft.ids().len();
                    lemma_a_built_layout_describes_back(*first, a, panes.subrange(0, m as int), *f);
                    lemma_a_built_layout_describes_back(*second, b, panes.subrange(m as int, panes.len() as int), *g);
                },
                _ => {},
            }
        },
        LayoutNode::Stack { .. } => {},
    }
}

/// Every stack of the tree holds a pane and shows one of its panes.
pub open spec fn stacks_show_a_member(tree: Tree) -> bool
    decreases tree,
{
    match tree {
        Tree::Pane(_) => true,
        Tree::Split { first, second, .. } => stacks_show_a_member(*first) && stacks_show_a_member(*second),
        Tree::Stack { panes, active } => 0 < panes.len() && active < panes.len(),
    }
}

/// A described layer can be requested back as it is, and building the
/// request on the layer's own panes gives back the very tree that was
/// described.
pub proof fn lemma_a_described_layout_builds_back(tree: Tree, panes: Seq<LayoutPane>, described: LayoutNode)
    requires
        stacks_show_a_member(tree),
        describes(described, tree, panes),
    ensures
        buildable(described),
        requested_panes(described) == tree.ids().len(),
        built_tree(described, tree.ids()) == tree,
    decreases tree,
{
    match tree {
        Tree::Pane(_) => {},
        Tree::Split { first, second, .. } => {
            let n = first.ids().len();
            match described {
                LayoutNode::Split { first: f, second: g, .. } => {
                    lemma_a_described_layout_builds_back(*first, panes.subrange(0, n as int), *f);
                    lemma_a_described_layout_builds_back(*second, panes.subrange(n as int, panes.len() as int), *g);
                    assert(tree.ids().subrange(0, n as int) =~= first.ids());
                    assert(tree.ids().subrange(n as int, tree.ids().len() as int) =~= second.ids());
                },
                _ => {},
            }
        },
        Tree::Stack { .. } => {},
    }
}

proof fn lemma_checked_node_is_buildable(node: LayoutNode, depth: nat, count: nat)
    requires
        check_node(node, depth, count) is Ok,
    ensures
        buildable(node),
        requested_panes(node) <= MAX_LAYOUT_PANES,
    decreases node,
{
    lemma_check_node_counts(node, depth, count);
    if let LayoutNode::Split { first, second, .. } = node {
        lemma_checked_node_is_buildable(*first, depth + 1, count);
        let c = check_node(*first, depth + 1, count)->Ok_0;
        lemma_checked_node_is_buildable(*second, depth + 1, c);
    }
}

/// Every tree of a request that passes validation can be built as it
/// stands, and holds at most `MAX_LAYOUT_PANES` panes.
pub proof fn lemma_valid_requests_are_buildable(roots: Seq<&LayoutNode>, i: int)
    requires
        0 <= i < roots.len(),
        check_roots(roots, 0, 0) is Ok,
    ensures
        buildable(*roots[i]),
        requested_panes(*roots[i]) <= MAX_LAYOUT_PANES,
{
    lemma_checked_roots_are_buildable(roots, 0, 0, i);
}

proof fn lemma_checked_roots_are_buildable(roots: Seq<&LayoutNode>, j: int, count: nat, i: int)
    requires
        0 <= j <= i < roots.len(),
        check_roots(roots, j, count) is Ok,
    ensures
        buildable(*roots[i]),
        requested_panes(*roots[i]) <= MAX_LAYOUT_PANES,
    decreases i - j,
{
    let c = check_node(*roots[j], 1, count);
    if j == i {
        lemma_checked_node_is_buildable(*roots[i], 1, count);
    } else {
        lemma_checked_roots_are_buildable(roots, j + 1, c->Ok_0, i);
    }
}

/// Why a `layout.apply` request names no workspace to build in.
#[derive(Debug, Clone, Copy, PartialEq, Eq, Structural)]
pub enum ApplyTargetError {
    /// The tab to replace does not exist.
    TabNotFound,
    /// Both a tab to replace and a workspace were named.
    BothTargets,
    /// The workspace named does not exist.
    WorkspaceNotFound,
    /// Nothing was named and no workspace is active.
    NoActiveWorkspace,
}

impl ApplyTargetError {
    /// The error code the API answers with.
    pub fn code(&self) -> (r: &'static str)
        ensures
            r@ == match *self {
                ApplyTargetError::TabNotFound => "tab_not_found"@,
                ApplyTargetError::BothTargets => "invalid_target"@,
                ApplyTargetError::WorkspaceNotFound | ApplyTargetError::NoActiveWorkspace => "workspace_not_found"@,
            },
    {
        match self {
            ApplyTargetError::TabNotFound => "tab_not_found",
            ApplyTargetError::BothTargets => "invalid_target",
            ApplyTargetError::WorkspaceNotFound => "workspace_not_found",
            ApplyTargetError::NoActiveWorkspace => "workspace_not_found",
        }
    }
}

/// The workspace a `layout.apply` request builds in. `tab` is the tab to
/// replace as the request named it: `None` when it named none, else where
/// that tab is (workspace and tab index), `None` inside when no tab has that
/// id. `workspace` is likewise the workspace it named, and `active` the
/// active workspace. A tab that does not exist is refused first, then a
/// request naming both a tab and a workspace; the tab's workspace comes
/// first, then the one named, then the active one.
pub fn layout_apply_workspace(
    tab: Option<Option<(usize, usize)>>,
    workspace: Option<Option<usize>>,
    active: Option<usize>,
) -> (r: Result<usize, ApplyTargetError>)
    ensures
        r == match tab {
            Some(None) => Err(ApplyTargetError::TabNotFound),
            Some(Some((ws, _))) => if workspace is Some {
                Err(ApplyTargetError::BothTargets)
            } else {
                Ok(ws)
            },
            None => match workspace {
                Some(Some(ws)) => Ok(ws),
                Some(None) => Err(ApplyTargetError::WorkspaceNotFound),
                None => match active {
                    Some(ws) => Ok(ws),
                    None => Err(ApplyTargetError::NoActiveWorkspace),
                },
            },
        },
{
    match tab {
        Some(None) => Err(ApplyTargetError::TabNotFound),
        Some(Some((ws, _))) => if workspace.is_some() {
            Err(ApplyTargetError::BothTargets)
        } else {
            Ok(ws)
        },
        None => match workspace {
            Some(Some(ws)) => Ok(ws),
            Some(None) => Err(ApplyTargetError::WorkspaceNotFound),
            None => match active {
                Some(ws) => Ok(ws),
                None => Err(ApplyTargetError::NoActiveWorkspace),
            },
        },
    }
}

/// A requested pane a request may hold: a command, when given, is not
/// empty, and its environment was accepted.
pub open spec fn pane_acceptable(pane: LayoutPane) -> bool {
    pane_problem(pane) is None
}

/// A requested tree at `depth` that a request may hold, its size aside:
/// it nests no deeper than `MAX_LAYOUT_DEPTH` (a root being at depth 1),
/// every split has a finite ratio, every stack holds a pane and shows one
/// of its panes, and every pane is acceptable.
pub open spec fn well_requested(node: LayoutNode, depth: nat) -> bool
    decreases node,
{
    depth <= MAX_LAYOUT_DEPTH && match node {
        LayoutNode::Pane { pane } => pane_acceptable(pane),
        LayoutNode::Split { ratio, first, second, .. } => ratio is Some && well_requested(*first, depth + 1)
            && well_requested(*second, depth + 1),
        LayoutNode::Stack { panes, active } => 0 < panes@.len() && active < panes@.len() && forall|i: int|
            0 <= i < panes@.len() ==> pane_acceptable(#[trigger] panes@[i]),
    }
}

/// Every root from position `i` on is well requested.
pub open spec fn roots_well_requested(roots: Seq<&LayoutNode>, i: int) -> bool
    decreases roots.len() - i,
{
    if i < 0 || i >= roots.len() {
        true
    } else {
        well_requested(*roots[i], 1) && roots_well_requested(roots, i + 1)
    }
}

proof fn lemma_check_panes_iff(panes: Seq<LayoutPane>, i: int, count: nat)
    requires
        0 <= i <= panes.len(),
    ensures
        check_panes(panes, i, count) is Ok <==> (forall|j: int| i <= j < panes.len() ==> pane_acceptable(#[trigger] panes[j]))
            && (i == panes.len() || count + (panes.len() - i) <= MAX_LAYOUT_PANES),
    decreases panes.len() - i,
{
    if i < panes.len() {
        lemma_check_panes_iff(panes, i + 1, count + 1);
    }
}

proof fn lemma_check_node_iff(node: LayoutNode, depth: nat, count: nat)
    ensures
        check_node(node, depth, count) is Ok <==> well_requested(node, depth) && count + requested_panes(node)
            <= MAX_LAYOUT_PANES,
    decreases node,
{
    if depth <= MAX_LAYOUT_DEPTH {
        match node {
            LayoutNode::Pane { .. } => {},
            LayoutNode::Split { first, second, .. } => {
                lemma_check_node_iff(*first, depth + 1, count);
                if check_node(*first, depth + 1, count) is Ok {
                    lemma_check_node_counts(*first, depth + 1, count);
                    let c = check_node(*first, depth + 1, count)->Ok_0;
                    lemma_check_node_iff(*second, depth + 1, c);
                }
            },
            LayoutNode::Stack { panes, .. } => {
                lemma_check_panes_iff(panes@, 0, count);
            },
        }
    }
}

proof fn lemma_check_roots_iff(roots: Seq<&LayoutNode>, i: int, count: nat)
    requires
        0 <= i <= roots.len(),
        count <= MAX_LAYOUT_PANES,
    ensures
        check_roots(roots, i, count) is Ok <==> roots_well_requested(roots, i) && count + requested_panes_from(roots, i)
            <= MAX_LAYOUT_PANES,
    decreases roots.len() - i,
{
    if i < roots.len() {
        lemma_check_node_iff(*roots[i], 1, count);
        if check_node(*roots[i], 1, count) is Ok {
            lemma_check_node_counts(*roots[i], 1, count);
            let c = check_node(*roots[i], 1, count)->Ok_0;
            lemma_check_roots_iff(roots, i + 1, c);
        }
    }
}

/// A request is accepted exactly when its trees together hold at most
/// `MAX_LAYOUT_PANES` panes (each stack member counted), none nests deeper
/// than `MAX_LAYOUT_DEPTH`, every split has a finite ratio, every stack
/// holds a pane and shows one of its panes, and every pane's command and
/// environment are acceptable.
pub proof fn lemma_requests_are_accepted_exactly_when_well_formed(roots: Seq<&LayoutNode>)
    ensures
        check_roots(roots, 0, 0) is Ok <==> roots_well_requested(roots, 0) && requested_panes_from(roots, 0)
            <= MAX_LAYOUT_PANES,
{
    lemma_check_roots_iff(roots, 0, 0);
}

} // verus!
