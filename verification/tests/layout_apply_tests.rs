use herdr_layout::geometry::Ratio;
use herdr_layout::layout_api::{LayoutNode, LayoutPane, SplitDirection};
use herdr_layout::layout_apply::{layout_apply_steps, layout_leaf, ApplyStep};

fn named(label: &str) -> LayoutPane {
    LayoutPane { pane_id: None, label: Some(label.to_string()), cwd: None, command: None, env_error: None }
}

/// a | (b over a stack of c, d and e showing d)
fn request() -> LayoutNode {
    LayoutNode::Split {
        direction: SplitDirection::Right,
        ratio: Some(Ratio(300_000)),
        first: Box::new(LayoutNode::Pane { pane: named("a") }),
        second: Box::new(LayoutNode::Split {
            direction: SplitDirection::Down,
            ratio: Some(Ratio(600_000)),
            first: Box::new(LayoutNode::Pane { pane: named("b") }),
            second: Box::new(LayoutNode::Stack { panes: vec![named("c"), named("d"), named("e")], active: 1 }),
        }),
    }
}

#[test]
fn a_tree_is_built_split_by_split_from_the_first_pane() {
    let steps = layout_apply_steps(&request());
    assert_eq!(
        steps,
        vec![
            ApplyStep::Split { pane: 0, direction: SplitDirection::Right, ratio: Ratio(300_000), leaf: 1 },
            ApplyStep::Label { pane: 0, leaf: 0 },
            ApplyStep::Split { pane: 1, direction: SplitDirection::Down, ratio: Ratio(600_000), leaf: 2 },
            ApplyStep::Label { pane: 1, leaf: 1 },
            ApplyStep::Label { pane: 2, leaf: 2 },
            ApplyStep::Split { pane: 2, direction: SplitDirection::Right, ratio: Ratio::half(), leaf: 3 },
            ApplyStep::Split { pane: 2, direction: SplitDirection::Right, ratio: Ratio::half(), leaf: 4 },
            ApplyStep::Stack { pane: 2, first: 3, count: 2, active: 1 },
        ]
    );
}

#[test]
fn a_single_pane_is_only_labelled() {
    let steps = layout_apply_steps(&LayoutNode::Pane { pane: named("solo") });
    assert_eq!(steps, vec![ApplyStep::Label { pane: 0, leaf: 0 }]);
}

#[test]
fn a_stack_root_folds_every_member_into_one_stack() {
    let node = LayoutNode::Stack { panes: vec![named("x"), named("y")], active: 0 };
    assert_eq!(
        layout_apply_steps(&node),
        vec![
            ApplyStep::Label { pane: 0, leaf: 0 },
            ApplyStep::Split { pane: 0, direction: SplitDirection::Right, ratio: Ratio::half(), leaf: 1 },
            ApplyStep::Stack { pane: 0, first: 1, count: 1, active: 0 },
        ]
    );
}

#[test]
fn leaves_are_numbered_in_tree_order() {
    let node = request();
    let labels: Vec<String> = (0..5).map(|i| layout_leaf(&node, i).label.clone().unwrap()).collect();
    assert_eq!(labels, vec!["a", "b", "c", "d", "e"]);
}
