//! Building a requested tiled tree out of a tab's first pane: the splits,
//! labels and stack folds it takes, in the order they are made.

use vstd::prelude::*;

use crate::geometry::Ratio;
use crate::layout_api::{buildable, requested_panes, LayoutNode, LayoutPane, SplitDirection};

verus! {

/// One step of building a requested tree. Panes are numbered in the order
/// the steps create them, the pane the tree is built on being number 0;
/// leaves are numbered in the tree's order.
#[derive(Debug, Clone, Copy, PartialEq, Eq, Structural)]
pub enum ApplyStep {
    /// Give pane `pane` the label of leaf `leaf`.
    Label { pane: usize, leaf: usize },
    /// Split pane `pane` in `direction` at `ratio`, creating the next pane
    /// for leaf `leaf`: with its directory, command and environment, and
    /// labelled with its label.
    Split { pane: usize, direction: SplitDirection, ratio: Ratio, leaf: usize },
    /// Fold pane `pane` and the `count` panes numbered from `first` on into
    /// one stack showing member `active` (0 being `pane`).
    Stack { pane: usize, first: usize, count: usize, active: usize },
}

/// The leaves of a requested tree, in tree order.
pub open spec fn leaves(node: LayoutNode) -> Seq<LayoutPane>
    decreases node,
{
    match node {
        LayoutNode::Pane { pane } => seq![pane],
        LayoutNode::Split { first, second, .. } => leaves(*first) + leaves(*second),
        LayoutNode::Stack { panes, .. } => panes@,
    }
}

proof fn lemma_leaves_len(node: LayoutNode)
    ensures
        leaves(node).len() == requested_panes(node),
    decreases node,
{
    match node {
        LayoutNode::Split { first, second, .. } => {
            lemma_leaves_len(*first);
            lemma_leaves_len(*second);
        },
        _ => {},
    }
}

/// The steps that build `node` on pane `pane`, its first leaf being leaf
/// `leaf` and the next pane created being number `next`. A split first
/// creates the pane for its second child's first leaf, then builds its
/// first child on the pane it split and its second child on the new pane.
/// A stack labels its pane with its first leaf, splits it once to the
/// right for each further leaf, and folds the panes into one stack.
pub open spec fn plan(node: LayoutNode, pane: int, leaf: int, next: int) -> Seq<ApplyStep>
    decreases node,
{
    match node {
        LayoutNode::Pane { .. } => seq![ApplyStep::Label { pane: pane as usize, leaf: leaf as usize }],
        LayoutNode::Split { direction, ratio, first, second } => {
            let a = requested_panes(*first) as int;
            seq![ApplyStep::Split { pane: pane as usize, direction, ratio: ratio->0, leaf: (leaf + a) as usize }]
                + plan(*first, pane, leaf, next + 1) + plan(*second, next, leaf + a, next + a)
        },
        LayoutNode::Stack { panes, active } => {
            let n = panes@.len() as int;
            let shown = if active < n - 1 { active as int } else { n - 1 };
            seq![ApplyStep::Label { pane: pane as usize, leaf: leaf as usize }] + Seq::new(
                (n - 1) as nat,
                |k: int|
                    ApplyStep::Split {
                        pane: pane as usize,
                        direction: SplitDirection::Right,
                        ratio: Ratio(500_000),
                        leaf: (leaf + 1 + k) as usize,
                    },
            ) + seq![ApplyStep::Stack { pane: pane as usize, first: next as usize, count: (n - 1) as usize, active: shown as usize }]
        },
    }
}

proof fn lemma_buildable_has_a_pane(node: LayoutNode)
    requires
        buildable(node),
    ensures
        requested_panes(node) >= 1,
    decreases node,
{
    if let LayoutNode::Split { first, .. } = node {
        lemma_buildable_has_a_pane(*first);
    }
}

fn count_leaves(node: &LayoutNode) -> (r: usize)
    requires
        requested_panes(*node) <= usize::MAX,
    ensures
        r == requested_panes(*node),
    decreases node,
{
    match node {
        LayoutNode::Pane { .. } => 1,
        LayoutNode::Split { first, second, .. } => count_leaves(first) + count_leaves(second),
        LayoutNode::Stack { panes, .. } => panes.len(),
    }
}

fn plan_into(node: &LayoutNode, pane: usize, leaf: usize, next: usize, total: usize, out: &mut Vec<ApplyStep>)
    requires
        buildable(*node),
        leaf + requested_panes(*node) <= total,
        next + requested_panes(*node) <= total + 1,
        total < usize::MAX,
    ensures
        final(out)@ == old(out)@ + plan(*node, pane as int, leaf as int, next as int),
    decreases node,
{
    match node {
        LayoutNode::Pane { .. } => {
            out.push(ApplyStep::Label { pane, leaf });
            assert(final(out)@ =~= old(out)@ + plan(*node, pane as int, leaf as int, next as int));
        },
        LayoutNode::Split { direction, ratio, first, second } => {
            proof {
                lemma_buildable_has_a_pane(**first);
                lemma_buildable_has_a_pane(**second);
            }
            let a = count_leaves(first);
            let ratio = match ratio {
                Some(r) => *r,
                None => Ratio::half(),
            };
            out.push(ApplyStep::Split { pane, direction: *direction, ratio, leaf: leaf + a });
            let ghost after_split = out@;
            plan_into(first, pane, leaf, next + 1, total, out);
            plan_into(second, next, leaf + a, next + a, total, out);
            assert(out@ =~= old(out)@ + plan(*node, pane as int, leaf as int, next as int));
        },
        LayoutNode::Stack { panes, active } => {
            let n = panes.len();
            out.push(ApplyStep::Label { pane, leaf });
            let ghost start = out@;
            let ghost splits = Seq::new(
                (n - 1) as nat,
                |k: int|
                    ApplyStep::Split {
                        pane: pane as usize,
                        direction: SplitDirection::Right,
                        ratio: Ratio(500_000),
                        leaf: (leaf + 1 + k) as usize,
                    },
            );
            let mut k: usize = 1;
            while k < n
                invariant
                    1 <= k <= n,
                    n == panes@.len(),
                    leaf + n <= total,
                    total < usize::MAX,
                    splits.len() == n - 1,
                    forall|j: int|
                        0 <= j < n - 1 ==> #[trigger] splits[j] == (ApplyStep::Split {
                            pane: pane as usize,
                            direction: SplitDirection::Right,
                            ratio: Ratio(500_000),
                            leaf: (leaf + 1 + j) as usize,
                        }),
                    out@ == start + splits.subrange(0, k - 1),
                decreases n - k,
            {
                out.push(ApplyStep::Split { pane, direction: SplitDirection::Right, ratio: Ratio::half(), leaf: leaf + k });
                assert(splits[k - 1] == (ApplyStep::Split {
                    pane: pane as usize,
                    direction: SplitDirection::Right,
                    ratio: Ratio(500_000),
                    leaf: (leaf + k) as usize,
                }));
                k += 1;
                assert(out@ =~= start + splits.subrange(0, k - 1));
            }
            let shown = if *active < n - 1 { *active } else { n - 1 };
            out.push(ApplyStep::Stack { pane, first: next, count: n - 1, active: shown });
            assert(splits.subrange(0, n - 1) =~= splits);
            assert(out@ =~= old(out)@ + plan(*node, pane as int, leaf as int, next as int));
        },
    }
}

/// The steps that build a requested tiled tree out of the pane the tab was
/// created with, in the order they are made (see `plan`). The tree is one
/// that can be built as it stands: every split has a ratio and every stack
/// shows one of its panes, as validation makes sure.
pub fn layout_apply_steps(node: &LayoutNode) -> (r: Vec<ApplyStep>)
    requires
        buildable(*node),
        requested_panes(*node) < usize::MAX,
    ensures
        r@ == plan(*node, 0, 0, 1),
{
    let total = count_leaves(node);
    let mut out: Vec<ApplyStep> = Vec::new();
    plan_into(node, 0, 0, 1, total, &mut out);
    assert(out@ =~= plan(*node, 0, 0, 1));
    out
}

/// How many leaves a requested tree has.
pub fn layout_leaf_count(node: &LayoutNode) -> (r: usize)
    requires
        requested_panes(*node) <= usize::MAX,
    ensures
        r == requested_panes(*node),
{
    count_leaves(node)
}

/// Leaf `i` of a requested tree, in tree order.
pub fn layout_leaf(node: &LayoutNode, i: usize) -> (r: &LayoutPane)
    requires
        i < requested_panes(*node) <= usize::MAX,
    ensures
        *r == leaves(*node)[i as int],
    decreases node,
{
    proof {
        lemma_leaves_len(*node);
    }
    match node {
        LayoutNode::Pane { pane } => pane,
        LayoutNode::Split { first, second, .. } => {
            proof {
                lemma_leaves_len(**first);
            }
            let a = count_leaves(first);
            if i < a {
                layout_leaf(first, i)
            } else {
                layout_leaf(second, i - a)
            }
        },
        LayoutNode::Stack { panes, .. } => &panes[i],
    }
}

/// The leaves the steps create panes for, in the order the panes are
/// created.
pub open spec fn created_leaves(steps: Seq<ApplyStep>) -> Seq<int>
    decreases steps.len(),
{
    if steps.len() == 0 {
        Seq::empty()
    } else {
        let prev = created_leaves(steps.drop_last());
        match steps.last() {
            ApplyStep::Split { leaf, .. } => prev.push(leaf as int),
            _ => prev,
        }
    }
}

proof fn lemma_created_leaves_append(a: Seq<ApplyStep>, b: Seq<ApplyStep>)
    ensures
        created_leaves(a + b) == created_leaves(a) + created_leaves(b),
    decreases b.len(),
{
    if b.len() == 0 {
        assert(a + b =~= a);
        assert(created_leaves(a) + created_leaves(b) =~= created_leaves(a));
    } else {
        lemma_created_leaves_append(a, b.drop_last());
        assert((a + b).drop_last() =~= a + b.drop_last());
        assert((a + b).last() == b.last());
        match b.last() {
            ApplyStep::Split { leaf, .. } => {
                assert(created_leaves(a) + created_leaves(b) =~= (created_leaves(a) + created_leaves(b.drop_last())).push(
                    leaf as int,
                ));
            },
            _ => {},
        }
    }
}

proof fn lemma_created_leaves_one(step: ApplyStep)
    ensures
        created_leaves(seq![step]) == match step {
            ApplyStep::Split { leaf, .. } => seq![leaf as int],
            _ => Seq::<int>::empty(),
        },
{
    let s = seq![step];
    assert(s.drop_last() =~= Seq::<ApplyStep>::empty());
    assert(created_leaves(Seq::<ApplyStep>::empty()) =~= Seq::<int>::empty());
    assert(s.last() == step);
    match step {
        ApplyStep::Split { leaf, .. } => {
            assert(Seq::<int>::empty().push(leaf as int) =~= seq![leaf as int]);
        },
        _ => {},
    }
}

/// The leaves of the splits of a stack of `n` leaves from leaf `leaf` on.
proof fn lemma_stack_splits(pane: int, leaf: int, n: int)
    requires
        0 <= pane <= usize::MAX,
        0 <= leaf,
        1 <= n,
        leaf + n <= usize::MAX,
    ensures
        created_leaves(
            Seq::new(
                (n - 1) as nat,
                |k: int|
                    ApplyStep::Split {
                        pane: pane as usize,
                        direction: SplitDirection::Right,
                        ratio: Ratio(500_000),
                        leaf: (leaf + 1 + k) as usize,
                    },
            ),
        ) == Seq::new((n - 1) as nat, |k: int| leaf + 1 + k),
    decreases n,
{
    let s = Seq::new(
        (n - 1) as nat,
        |k: int|
            ApplyStep::Split {
                pane: pane as usize,
                direction: SplitDirection::Right,
                ratio: Ratio(500_000),
                leaf: (leaf + 1 + k) as usize,
            },
    );
    if n > 1 {
        lemma_stack_splits(pane, leaf, n - 1);
        let t = Seq::new(
            (n - 2) as nat,
            |k: int|
                ApplyStep::Split {
                    pane: pane as usize,
                    direction: SplitDirection::Right,
                    ratio: Ratio(500_000),
                    leaf: (leaf + 1 + k) as usize,
                },
        );
        assert(s.drop_last() =~= t);
        assert(Seq::new((n - 1) as nat, |k: int| leaf + 1 + k) =~= Seq::new((n - 2) as nat, |k: int| leaf + 1 + k).push(
            leaf + n - 1,
        ));
    } else {
        assert(s =~= Seq::<ApplyStep>::empty());
        assert(Seq::new((n - 1) as nat, |k: int| leaf + 1 + k) =~= Seq::<int>::empty());
    }
}

/// Whether `c` names each leaf after `leaf` up to `leaf + n - 1` once:
/// `n - 1` leaves, all different, all in that range.
pub open spec fn each_once(c: Seq<int>, leaf: int, n: int) -> bool {
    &&& c.len() == n - 1
    &&& c.no_duplicates()
    &&& forall|i: int| 0 <= i < c.len() ==> leaf < #[trigger] c[i] < leaf + n
}

proof fn lemma_plan_creates_each_once(node: LayoutNode, pane: int, leaf: int, next: int)
    requires
        buildable(node),
        0 <= pane <= usize::MAX,
        0 <= leaf,
        0 <= next <= usize::MAX,
        leaf + requested_panes(node) <= usize::MAX,
        next + requested_panes(node) <= usize::MAX,
    ensures
        each_once(created_leaves(plan(node, pane, leaf, next)), leaf, requested_panes(node) as int),
    decreases node,
{
    lemma_buildable_has_a_pane(node);
    match node {
        LayoutNode::Pane { .. } => {
            lemma_created_leaves_one(ApplyStep::Label { pane: pane as usize, leaf: leaf as usize });
        },
        LayoutNode::Split { direction, ratio, first, second } => {
            let a = requested_panes(*first) as int;
            let b = requested_panes(*second) as int;
            lemma_buildable_has_a_pane(*first);
            lemma_buildable_has_a_pane(*second);
            lemma_plan_creates_each_once(*first, pane, leaf, next + 1);
            lemma_plan_creates_each_once(*second, next, leaf + a, next + a);
            let head = seq![ApplyStep::Split { pane: pane as usize, direction, ratio: ratio->0, leaf: (leaf + a) as usize }];
            let pf = plan(*first, pane, leaf, next + 1);
            let ps = plan(*second, next, leaf + a, next + a);
            lemma_created_leaves_append(head, pf);
            lemma_created_leaves_append(head + pf, ps);
            lemma_created_leaves_one(head[0]);
            assert(head =~= seq![head[0]]);
            let cf = created_leaves(pf);
            let cs = created_leaves(ps);
            let c = seq![leaf + a] + cf + cs;
            assert(created_leaves(plan(node, pane, leaf, next)) == c);
            assert forall|i: int| 0 <= i < c.len() implies leaf < #[trigger] c[i] < leaf + a + b by {
                if i >= 1 && i < 1 + cf.len() {
                    assert(c[i] == cf[i - 1]);
                } else if i >= 1 + cf.len() {
                    assert(c[i] == cs[i - 1 - cf.len()]);
                }
            }
            assert forall|i: int, j: int| 0 <= i < c.len() && 0 <= j < c.len() && i != j implies c[i] != c[j] by {
                if i == 0 && j >= 1 && j < 1 + cf.len() {
                    assert(c[j] == cf[j - 1]);
                } else if i == 0 && j >= 1 + cf.len() {
                    assert(c[j] == cs[j - 1 - cf.len()]);
                } else if j == 0 && i >= 1 && i < 1 + cf.len() {
                    assert(c[i] == cf[i - 1]);
                } else if j == 0 && i >= 1 + cf.len() {
                    assert(c[i] == cs[i - 1 - cf.len()]);
                } else if i >= 1 && i < 1 + cf.len() && j >= 1 && j < 1 + cf.len() {
                    assert(c[i] == cf[i - 1] && c[j] == cf[j - 1]);
                } else if i >= 1 + cf.len() && j >= 1 + cf.len() {
                    assert(c[i] == cs[i - 1 - cf.len()] && c[j] == cs[j - 1 - cf.len()]);
                } else if i >= 1 && i < 1 + cf.len() {
                    assert(c[i] == cf[i - 1] && c[j] == cs[j - 1 - cf.len()]);
                } else {
                    assert(c[j] == cf[j - 1] && c[i] == cs[i - 1 - cf.len()]);
                }
            }
        },
        LayoutNode::Stack { panes, active } => {
            let n = panes@.len() as int;
            let shown = if active < n - 1 { active as int } else { n - 1 };
            let head = seq![ApplyStep::Label { pane: pane as usize, leaf: leaf as usize }];
            let mid = Seq::new(
                (n - 1) as nat,
                |k: int|
                    ApplyStep::Split {
                        pane: pane as usize,
                        direction: SplitDirection::Right,
                        ratio: Ratio(500_000),
                        leaf: (leaf + 1 + k) as usize,
                    },
            );
            let tail = seq![ApplyStep::Stack { pane: pane as usize, first: next as usize, count: (n - 1) as usize, active: shown as usize }];
            lemma_stack_splits(pane, leaf, n);
            lemma_created_leaves_append(head, mid);
            lemma_created_leaves_append(head + mid, tail);
            lemma_created_leaves_one(head[0]);
            lemma_created_leaves_one(tail[0]);
            assert(head =~= seq![head[0]]);
            assert(tail =~= seq![tail[0]]);
            let c = Seq::new((n - 1) as nat, |k: int| leaf + 1 + k);
            assert(created_leaves(plan(node, pane, leaf, next)) =~= c);
        },
    }
}

/// Building a requested tree gives every one of its leaves exactly one
/// pane: the pane the tree is built on takes its first leaf, and the splits
/// create one new pane for each of the others, none twice.
pub proof fn lemma_every_leaf_gets_one_pane(node: LayoutNode)
    requires
        buildable(node),
        requested_panes(node) < usize::MAX,
    ensures
        each_once(created_leaves(plan(node, 0, 0, 1)), 0, requested_panes(node) as int),
{
    lemma_plan_creates_each_once(node, 0, 0, 1);
}

/// Whether a step only names panes among the first `existing` ones.
pub open spec fn step_names_existing(step: ApplyStep, existing: int) -> bool {
    match step {
        ApplyStep::Label { pane, .. } => pane < existing,
        ApplyStep::Split { pane, .. } => pane < existing,
        ApplyStep::Stack { pane, first, count, .. } => pane < existing && first + count <= existing,
    }
}

/// Whether, run with `existing` panes already there, every step only names
/// panes that exist when it runs: the ones there before plus one per split
/// made so far.
pub open spec fn names_existing(steps: Seq<ApplyStep>, existing: int) -> bool {
    forall|i: int|
        0 <= i < steps.len() ==> step_names_existing(
            #[trigger] steps[i],
            existing + created_leaves(steps.subrange(0, i)).len(),
        )
}

proof fn lemma_names_existing_append(a: Seq<ApplyStep>, b: Seq<ApplyStep>, existing: int)
    requires
        names_existing(a, existing),
        names_existing(b, existing + created_leaves(a).len()),
    ensures
        names_existing(a + b, existing),
{
    let ab = a + b;
    assert forall|i: int| 0 <= i < ab.len() implies step_names_existing(
        #[trigger] ab[i],
        existing + created_leaves(ab.subrange(0, i)).len(),
    ) by {
        if i < a.len() {
            assert(ab.subrange(0, i) =~= a.subrange(0, i));
            assert(ab[i] == a[i]);
        } else {
            let j = i - a.len();
            assert(ab.subrange(0, i) =~= a + b.subrange(0, j));
            lemma_created_leaves_append(a, b.subrange(0, j));
            assert(ab[i] == b[j]);
        }
    }
}

proof fn lemma_plan_names_existing(node: LayoutNode, pane: int, leaf: int, next: int)
    requires
        buildable(node),
        0 <= pane < next,
        0 <= leaf,
        leaf + requested_panes(node) <= usize::MAX,
        next + requested_panes(node) <= usize::MAX,
    ensures
        names_existing(plan(node, pane, leaf, next), next),
    decreases node,
{
    lemma_buildable_has_a_pane(node);
    match node {
        LayoutNode::Pane { .. } => {
            let s = plan(node, pane, leaf, next);
            assert(s.subrange(0, 0) =~= Seq::<ApplyStep>::empty());
            assert(created_leaves(Seq::<ApplyStep>::empty()) =~= Seq::<int>::empty());
        },
        LayoutNode::Split { direction, ratio, first, second } => {
            let a = requested_panes(*first) as int;
            lemma_buildable_has_a_pane(*first);
            lemma_buildable_has_a_pane(*second);
            let head = seq![ApplyStep::Split { pane: pane as usize, direction, ratio: ratio->0, leaf: (leaf + a) as usize }];
            let pf = plan(*first, pane, leaf, next + 1);
            let ps = plan(*second, next, leaf + a, next + a);
            assert(head.subrange(0, 0) =~= Seq::<ApplyStep>::empty());
            assert(created_leaves(Seq::<ApplyStep>::empty()) =~= Seq::<int>::empty());
            assert(names_existing(head, next));
            lemma_created_leaves_one(head[0]);
            assert(head =~= seq![head[0]]);
            lemma_plan_names_existing(*first, pane, leaf, next + 1);
            lemma_names_existing_append(head, pf, next);
            lemma_plan_creates_each_once(*first, pane, leaf, next + 1);
            lemma_created_leaves_append(head, pf);
            lemma_plan_names_existing(*second, next, leaf + a, next + a);
            lemma_names_existing_append(head + pf, ps, next);
        },
        LayoutNode::Stack { panes, active } => {
            let n = panes@.len() as int;
            let shown = if active < n - 1 { active as int } else { n - 1 };
            let head = seq![ApplyStep::Label { pane: pane as usize, leaf: leaf as usize }];
            let mid = Seq::new(
                (n - 1) as nat,
                |k: int|
                    ApplyStep::Split {
                        pane: pane as usize,
                        direction: SplitDirection::Right,
                        ratio: Ratio(500_000),
                        leaf: (leaf + 1 + k) as usize,
                    },
            );
            let tail = seq![ApplyStep::Stack { pane: pane as usize, first: next as usize, count: (n - 1) as usize, active: shown as usize }];
            assert(created_leaves(Seq::<ApplyStep>::empty()) =~= Seq::<int>::empty());
            assert(head.subrange(0, 0) =~= Seq::<ApplyStep>::empty());
            assert(names_existing(head, next));
            lemma_created_leaves_one(head[0]);
            assert(head =~= seq![head[0]]);
            assert forall|k: int| 0 <= k < mid.len() implies step_names_existing(
                #[trigger] mid[k],
                next + created_leaves(mid.subrange(0, k)).len(),
            ) by {
                let short = Seq::new(
                    k as nat,
                    |j: int|
                        ApplyStep::Split {
                            pane: pane as usize,
                            direction: SplitDirection::Right,
                            ratio: Ratio(500_000),
                            leaf: (leaf + 1 + j) as usize,
                        },
                );
                assert(mid.subrange(0, k) =~= short);
                lemma_stack_splits(pane, leaf, k + 1);
            }
            lemma_names_existing_append(head, mid, next);
            lemma_stack_splits(pane, leaf, n);
            lemma_created_leaves_append(head, mid);
            assert(tail.subrange(0, 0) =~= Seq::<ApplyStep>::empty());
            assert(names_existing(tail, next + created_leaves(head + mid).len()));
            lemma_names_existing_append(head + mid, tail, next);
        },
    }
}

/// Building a requested tree only ever names panes that exist by then:
/// each step acts on the tab's first pane or on a pane an earlier split
/// created, and a stack folds only panes already created.
pub proof fn lemma_steps_only_name_existing_panes(node: LayoutNode)
    requires
        buildable(node),
        requested_panes(node) < usize::MAX,
    ensures
        names_existing(plan(node, 0, 0, 1), 1),
{
    lemma_plan_names_existing(node, 0, 0, 1);
}

} // verus!
