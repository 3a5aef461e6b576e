use herdr_layout::geometry::{Borders, Direction, Ratio, Rect};
use herdr_layout::layout::{
    arrange, collect_ids, collect_panes, count_panes, find_in_direction, node_pane_ids, remove_pane,
    stack_rects, Arrangement, NavDirection, Node, PaneId, PaneIdAllocator, PaneInfo, TileLayout,
};

fn pane(id: u32) -> PaneId {
    PaneId::from_raw(id)
}

/// An allocator whose ids stay clear of the small raw ids the samples use.
fn allocator() -> PaneIdAllocator {
    PaneIdAllocator { next: 1000 }
}

fn ratio(millionths: u32) -> Ratio {
    Ratio(millionths)
}

fn sample_layout() -> TileLayout {
    TileLayout::from_saved(
        Node::Split {
            direction: Direction::Horizontal,
            ratio: ratio(300_000),
            first: Box::new(Node::Pane(pane(1))),
            second: Box::new(Node::Split {
                direction: Direction::Vertical,
                ratio: ratio(600_000),
                first: Box::new(Node::Pane(pane(2))),
                second: Box::new(Node::Split {
                    direction: Direction::Horizontal,
                    ratio: ratio(400_000),
                    first: Box::new(Node::Pane(pane(3))),
                    second: Box::new(Node::Pane(pane(4))),
                }),
            }),
        },
        pane(2),
    )
}

fn pane_rects(layout: &TileLayout) -> Vec<(PaneId, Rect)> {
    layout
        .panes(Rect::new(0, 0, 100, 40))
        .into_iter()
        .map(|info| (info.id, info.rect))
        .collect()
}

fn pane_rect(layout: &TileLayout, pane_id: PaneId) -> Rect {
    pane_rects(layout)
        .into_iter()
        .find_map(|(id, rect)| if id == pane_id { Some(rect) } else { None })
        .expect("pane should exist")
}

fn split_snapshot(layout: &TileLayout) -> Vec<(Direction, Ratio)> {
    fn collect(node: &Node, out: &mut Vec<(Direction, Ratio)>) {
        match node {
            Node::Pane(_) => {}
            Node::Split { direction, ratio, first, second } => {
                out.push((*direction, *ratio));
                collect(first, out);
                collect(second, out);
            }
            Node::Stack { .. } => {}
        }
    }
    let mut out = Vec::new();
    collect(layout.root(), &mut out);
    out
}

fn ids(count: usize) -> Vec<PaneId> {
    (1..=count as u32).map(PaneId::from_raw).collect()
}

/// The grid column count the application picks for `count` panes in
/// `area`: the count whose cells come closest to square, with penalties
/// for empty cells and for a lopsided grid.
fn grid_columns(count: usize, area: Rect) -> usize {
    let count = count.max(1);
    (1..=count)
        .min_by_key(|cols| {
            let rows = count.div_ceil(*cols);
            let cell_width = (area.width as f32 / *cols as f32).max(1.0);
            let cell_height = (area.height as f32 / rows as f32).max(1.0);
            let aspect_error = (cell_width / (cell_height * 2.0)).ln().abs();
            let empty_cells = (rows * cols - count) as f32;
            let imbalance = (*cols as f32 / rows as f32).ln().abs();
            ((aspect_error + empty_cells * 0.5 + imbalance * 0.5) * 1000.0) as i32
        })
        .unwrap_or(1)
}

fn layout_of(root: Node, focus: PaneId) -> TileLayout {
    TileLayout::from_saved(root, focus)
}

fn allocated(ids: &mut PaneIdAllocator, count: usize) -> Vec<PaneId> {
    (0..count).map(|_| PaneId::allocate(ids)).collect()
}

fn stack_of(members: &[PaneId], focus: PaneId) -> TileLayout {
    TileLayout::from_saved(Node::Stack { panes: members.to_vec(), active: 0 }, focus)
}

#[test]
fn swap_panes_exchanges_leaf_ids_without_changing_cells() {
    let mut layout = sample_layout();
    let before_rects = pane_rects(&layout);
    let before_splits = split_snapshot(&layout);

    assert!(layout.swap_panes(pane(2), pane(4)));

    assert_eq!(layout.pane_count(), 4);
    assert_eq!(split_snapshot(&layout), before_splits);
    assert_eq!(layout.focused(), pane(2));

    let after_rects = pane_rects(&layout);
    assert_eq!(after_rects[0], before_rects[0]);
    assert_eq!(after_rects[1], (pane(4), before_rects[1].1));
    assert_eq!(after_rects[2], before_rects[2]);
    assert_eq!(after_rects[3], (pane(2), before_rects[3].1));
}

#[test]
fn swap_panes_is_noop_for_same_or_missing_pane() {
    let mut layout = sample_layout();
    let before_rects = pane_rects(&layout);
    let before_splits = split_snapshot(&layout);
    let before_focus = layout.focused();

    assert!(!layout.swap_panes(pane(2), pane(2)));
    assert!(!layout.swap_panes(pane(2), pane(99)));
    assert!(!layout.swap_panes(pane(99), pane(2)));

    assert_eq!(pane_rects(&layout), before_rects);
    assert_eq!(split_snapshot(&layout), before_splits);
    assert_eq!(layout.focused(), before_focus);
}

#[test]
fn insert_existing_pane_near_target_preserves_existing_ids_and_focuses_moved_pane() {
    let mut alloc = allocator();
    let (mut layout, root) = TileLayout::new(&mut alloc);
    let moved = pane(99);

    assert!(layout.insert_pane_near(root, moved, Direction::Horizontal, ratio(250_000), true));

    assert_eq!(layout.pane_count(), 2);
    assert_eq!(layout.pane_ids(), vec![root, moved]);
    assert_eq!(layout.focused(), moved);
    let splits = split_snapshot(&layout);
    assert_eq!(splits, vec![(Direction::Horizontal, ratio(250_000))]);
    assert_eq!(pane_rect(&layout, root), Rect::new(0, 0, 25, 40));
    assert_eq!(pane_rect(&layout, moved), Rect::new(25, 0, 75, 40));
}

#[test]
fn split_focused_with_ratio_sets_new_split_ratio() {
    let mut alloc = allocator();
    let (mut layout, root) = TileLayout::new(&mut alloc);
    layout.focus_pane(root);

    layout.split_focused_with_ratio(&mut alloc, Direction::Horizontal, ratio(333_000));

    let splits = split_snapshot(&layout);
    assert_eq!(splits.len(), 1);
    assert_eq!(splits[0].0, Direction::Horizontal);
    assert_eq!(splits[0].1, ratio(333_000));
}

#[test]
fn resize_pane_preserves_focus_and_reports_change() {
    let mut layout = sample_layout();
    let original_focus = layout.focused();

    assert!(layout.resize_pane(pane(1), NavDirection::Right, 50_000, Rect::new(0, 0, 100, 40)));

    assert_eq!(layout.focused(), original_focus);
    let split = split_snapshot(&layout)[0];
    assert_eq!(split.0, Direction::Horizontal);
    assert_eq!(split.1, ratio(350_000));
}

#[test]
fn resize_second_child_toward_split_decreases_ratio() {
    let mut alloc = allocator();
    let (mut layout, root) = TileLayout::new(&mut alloc);
    let right = layout.split_focused(&mut alloc, Direction::Horizontal);
    layout.focus_pane(root);

    assert!(layout.resize_pane(right, NavDirection::Left, 50_000, Rect::new(0, 0, 100, 40)));

    let split = split_snapshot(&layout)[0];
    assert_eq!(split.0, Direction::Horizontal);
    assert_eq!(split.1, ratio(450_000));
    assert_eq!(layout.focused(), root);
}

#[test]
fn resize_outer_edges_shrink_focused_pane() {
    let mut alloc = allocator();
    let (mut horizontal, left) = TileLayout::new(&mut alloc);
    horizontal.split_focused(&mut alloc, Direction::Horizontal);

    assert!(horizontal.resize_pane(left, NavDirection::Left, 50_000, Rect::new(0, 0, 100, 40)));
    let split = split_snapshot(&horizontal)[0];
    assert_eq!(split.0, Direction::Horizontal);
    assert_eq!(split.1, ratio(450_000));

    let (mut horizontal, _left) = TileLayout::new(&mut alloc);
    let right = horizontal.split_focused(&mut alloc, Direction::Horizontal);

    assert!(horizontal.resize_pane(right, NavDirection::Right, 50_000, Rect::new(0, 0, 100, 40)));
    let split = split_snapshot(&horizontal)[0];
    assert_eq!(split.0, Direction::Horizontal);
    assert_eq!(split.1, ratio(550_000));

    let (mut vertical, top) = TileLayout::new(&mut alloc);
    vertical.split_focused(&mut alloc, Direction::Vertical);

    assert!(vertical.resize_pane(top, NavDirection::Up, 50_000, Rect::new(0, 0, 100, 40)));
    let split = split_snapshot(&vertical)[0];
    assert_eq!(split.0, Direction::Vertical);
    assert_eq!(split.1, ratio(450_000));

    let (mut vertical, _top) = TileLayout::new(&mut alloc);
    let bottom = vertical.split_focused(&mut alloc, Direction::Vertical);

    assert!(vertical.resize_pane(bottom, NavDirection::Down, 50_000, Rect::new(0, 0, 100, 40)));
    let split = split_snapshot(&vertical)[0];
    assert_eq!(split.0, Direction::Vertical);
    assert_eq!(split.1, ratio(550_000));
}

#[test]
fn resize_outer_edge_falls_back_to_horizontal_ancestor_split() {
    let mut layout = layout_of(
        Node::Split {
            direction: Direction::Horizontal,
            ratio: ratio(600_000),
            first: Box::new(Node::Split {
                direction: Direction::Vertical,
                ratio: ratio(500_000),
                first: Box::new(Node::Pane(pane(1))),
                second: Box::new(Node::Pane(pane(2))),
            }),
            second: Box::new(Node::Pane(pane(3))),
        },
        pane(1),
    );
    let before = pane_rect(&layout, pane(1));

    assert!(layout.resize_pane(pane(1), NavDirection::Left, 50_000, Rect::new(0, 0, 100, 40)));

    let after = pane_rect(&layout, pane(1));
    assert_eq!(after.height, before.height);
    assert!(after.width < before.width);
    let splits = split_snapshot(&layout);
    assert_eq!(splits[0].0, Direction::Horizontal);
    assert_eq!(splits[0].1, ratio(550_000));
    assert_eq!(splits[1], (Direction::Vertical, ratio(500_000)));
}

#[test]
fn resize_outer_edge_falls_back_to_vertical_ancestor_split() {
    let mut layout = layout_of(
        Node::Split {
            direction: Direction::Vertical,
            ratio: ratio(600_000),
            first: Box::new(Node::Split {
                direction: Direction::Horizontal,
                ratio: ratio(500_000),
                first: Box::new(Node::Pane(pane(1))),
                second: Box::new(Node::Pane(pane(2))),
            }),
            second: Box::new(Node::Pane(pane(3))),
        },
        pane(1),
    );
    let before = pane_rect(&layout, pane(1));

    assert!(layout.resize_pane(pane(1), NavDirection::Up, 50_000, Rect::new(0, 0, 100, 40)));

    let after = pane_rect(&layout, pane(1));
    assert_eq!(after.width, before.width);
    assert!(after.height < before.height);
    let splits = split_snapshot(&layout);
    assert_eq!(splits[0].0, Direction::Vertical);
    assert_eq!(splits[0].1, ratio(550_000));
    assert_eq!(splits[1], (Direction::Horizontal, ratio(500_000)));
}

#[test]
fn resize_uses_split_in_same_branch_when_borders_share_coordinate() {
    let mut layout = layout_of(
        Node::Split {
            direction: Direction::Vertical,
            ratio: ratio(500_000),
            first: Box::new(Node::Split {
                direction: Direction::Horizontal,
                ratio: ratio(500_000),
                first: Box::new(Node::Pane(pane(1))),
                second: Box::new(Node::Pane(pane(2))),
            }),
            second: Box::new(Node::Split {
                direction: Direction::Horizontal,
                ratio: ratio(500_000),
                first: Box::new(Node::Pane(pane(3))),
                second: Box::new(Node::Pane(pane(4))),
            }),
        },
        pane(3),
    );

    assert!(layout.resize_pane(pane(3), NavDirection::Right, 50_000, Rect::new(0, 0, 100, 40)));

    let splits = split_snapshot(&layout);
    assert_eq!(splits[0], (Direction::Vertical, ratio(500_000)));
    assert_eq!(splits[1], (Direction::Horizontal, ratio(500_000)));
    assert_eq!(splits[2].0, Direction::Horizontal);
    assert_eq!(splits[2].1, ratio(550_000));
}

fn info(id: u32, rect: Rect, is_focused: bool) -> PaneInfo {
    PaneInfo { id: pane(id), rect, inner_rect: rect, scrollbar_rect: None, borders: Borders::none(), is_focused }
}

#[test]
fn find_in_direction_tiebreaks_by_larger_overlap_before_layout_order() {
    let focused = info(1, Rect::new(10, 10, 10, 10), true);
    let small_overlap_first = info(2, Rect::new(0, 10, 10, 2), false);
    let larger_overlap_second = info(3, Rect::new(0, 10, 10, 8), false);
    let panes = vec![focused, small_overlap_first, larger_overlap_second];

    assert_eq!(find_in_direction(&focused, NavDirection::Left, &panes), Some(pane(3)));
}

#[test]
fn arrange_preserves_pane_order_for_every_arrangement() {
    let area = Rect::new(0, 0, 120, 40);
    for kind in [Arrangement::Vertical, Arrangement::Horizontal, Arrangement::Grid] {
        for count in 1..=12 {
            let panes = ids(count);
            let root = arrange(kind, &panes, panes[0], grid_columns(count, area))
                .expect("non-empty pane list always yields a tree");
            let mut walked = Vec::new();
            collect_ids(&root, &mut walked);
            assert_eq!(walked, panes, "{kind:?} reordered panes at count {count}");
        }
    }
}

#[test]
fn arrange_returns_none_for_an_empty_pane_list() {
    let area = Rect::new(0, 0, 120, 40);
    assert!(arrange(Arrangement::Grid, &[], PaneId::from_raw(1), grid_columns(0, area)).is_none());
}

#[test]
fn vertical_arrangement_produces_even_columns() {
    let area = Rect::new(0, 0, 120, 40);
    let panes = ids(4);
    let root = arrange(Arrangement::Vertical, &panes, panes[0], 1).expect("tree");
    let mut infos = Vec::new();
    collect_panes(&root, area, panes[0], &mut infos);
    assert_eq!(infos.len(), 4);
    for info in &infos {
        assert_eq!(info.rect.width, 30);
        assert_eq!(info.rect.height, 40);
    }
}

#[test]
fn horizontal_arrangement_produces_even_rows() {
    let area = Rect::new(0, 0, 120, 40);
    let panes = ids(4);
    let root = arrange(Arrangement::Horizontal, &panes, panes[0], 1).expect("tree");
    let mut infos = Vec::new();
    collect_panes(&root, area, panes[0], &mut infos);
    assert_eq!(infos.len(), 4);
    for info in &infos {
        assert_eq!(info.rect.width, 120);
        assert_eq!(info.rect.height, 10);
    }
}

#[test]
fn grid_gives_the_extra_pane_to_the_earlier_column() {
    let area = Rect::new(0, 0, 120, 40);
    let panes = ids(5);
    let root = arrange(Arrangement::Grid, &panes, panes[0], grid_columns(5, area)).expect("tree");
    let mut walked = Vec::new();
    collect_ids(&root, &mut walked);
    assert_eq!(walked, panes);
    assert_eq!(count_panes(&root), 5);
    let Node::Split { first, .. } = &root else {
        panic!("expected a column split, got {root:?}");
    };
    assert_eq!(count_panes(first), 2);
}

#[test]
fn arrangement_cycles_forward_and_wraps() {
    let mut kind = Arrangement::Vertical;
    let mut seen = vec![kind];
    for _ in 0..3 {
        kind = kind.next();
        seen.push(kind);
    }
    assert_eq!(
        seen,
        vec![Arrangement::Vertical, Arrangement::Horizontal, Arrangement::Grid, Arrangement::Stacked]
    );
    assert_eq!(kind.next(), Arrangement::Vertical);
}

#[test]
fn arrangement_previous_is_the_inverse_of_next() {
    for kind in [Arrangement::Vertical, Arrangement::Horizontal, Arrangement::Grid, Arrangement::Stacked] {
        assert_eq!(kind.next().previous(), kind);
        assert_eq!(kind.previous().next(), kind);
    }
}

#[test]
fn arrangement_defaults_to_stacked() {
    assert_eq!(Arrangement::default(), Arrangement::Stacked);
}

#[test]
fn stacked_arrangement_produces_one_stack_holding_every_pane() {
    let panes = ids(4);
    let root = arrange(Arrangement::Stacked, &panes, panes[2], 1).expect("tree");
    match &root {
        Node::Stack { panes: members, active } => {
            assert_eq!(members, &panes);
            assert_eq!(*active, 2);
        }
        other => panic!("expected a stack, got {other:?}"),
    }
}

#[test]
fn stacked_arrangement_falls_back_to_the_first_pane_when_focus_is_absent() {
    let panes = ids(3);
    let root = arrange(Arrangement::Stacked, &panes, PaneId::from_raw(99), 1).expect("tree");
    match &root {
        Node::Stack { active, .. } => assert_eq!(*active, 0),
        other => panic!("expected a stack, got {other:?}"),
    }
}

#[test]
fn stack_rects_give_bars_to_inactive_panes_and_the_rest_to_the_active_one() {
    let area = Rect::new(0, 0, 80, 10);
    let rects = stack_rects(area, 3, 1);
    assert_eq!(rects[0].height, 1);
    assert_eq!(rects[1].height, 8);
    assert_eq!(rects[2].height, 1);
    assert_eq!(rects[0].y, 0);
    assert_eq!(rects[1].y, 1);
    assert_eq!(rects[2].y, 9);
    let total: u16 = rects.iter().map(|r| r.height).sum();
    assert_eq!(total, area.height);
}

#[test]
fn stack_rects_never_overflow_a_short_area() {
    let area = Rect::new(0, 0, 80, 4);
    let rects = stack_rects(area, 5, 2);
    let total: u16 = rects.iter().map(|r| r.height).sum();
    assert_eq!(total, area.height);
    assert!(rects.iter().any(|r| r.height == 0));
    assert!(rects[2].height >= 1, "the active pane always keeps a row");
}

#[test]
fn stack_rects_keep_the_active_pane_visible_when_many_members_precede_it() {
    let area = Rect::new(0, 0, 80, 10);
    let rects = stack_rects(area, 20, 15);
    assert!(rects[15].height >= 1, "the active pane must stay visible");
    let total: u16 = rects.iter().map(|r| r.height).sum();
    assert_eq!(total, area.height);
}

#[test]
fn stack_members_each_get_a_pane_info() {
    let area = Rect::new(0, 0, 80, 10);
    let panes = ids(3);
    let root = arrange(Arrangement::Stacked, &panes, panes[1], 1).expect("tree");
    let mut infos = Vec::new();
    collect_panes(&root, area, panes[1], &mut infos);
    assert_eq!(infos.len(), 3);
    assert!(infos[1].is_focused);
    assert!(!infos[0].is_focused);
}

#[test]
fn removing_a_stack_member_clamps_the_active_index() {
    let panes = ids(3);
    let node = Node::Stack { panes: panes.clone(), active: 2 };
    let pruned = remove_pane(node, panes[2]).expect("stack survives");
    match &pruned {
        Node::Stack { panes: members, active } => {
            assert_eq!(members.len(), 2);
            assert_eq!(*active, 1);
        }
        other => panic!("expected a stack, got {other:?}"),
    }
}

#[test]
fn a_stack_of_one_collapses_to_a_plain_pane() {
    let panes = ids(2);
    let node = Node::Stack { panes: panes.clone(), active: 0 };
    let pruned = remove_pane(node, panes[0]).expect("pane survives");
    assert!(matches!(pruned, Node::Pane(id) if id == panes[1]));
}

#[test]
fn arrange_preserves_pane_order_for_stacks_too() {
    for count in 1..=12 {
        let panes = ids(count);
        let root = arrange(Arrangement::Stacked, &panes, panes[0], 1).expect("tree");
        let mut walked = Vec::new();
        collect_ids(&root, &mut walked);
        assert_eq!(walked, panes, "stack reordered panes at count {count}");
    }
}

#[test]
fn splitting_a_stack_member_inserts_the_new_pane_after_it() {
    let mut alloc = allocator();
    let members = allocated(&mut alloc, 3);
    let mut layout = stack_of(&members, members[1]);

    let new_id = layout.split_focused(&mut alloc, Direction::Horizontal);

    assert_eq!(layout.pane_ids(), vec![members[0], members[1], new_id, members[2]]);
    assert_eq!(layout.focused(), new_id);
    assert!(layout.pane_ids().contains(&layout.focused()));
    match layout.root() {
        Node::Stack { active, .. } => assert_eq!(*active, 2),
        other => panic!("expected a stack, got {other:?}"),
    }
}

#[test]
fn closing_a_pane_split_into_a_stack_does_not_panic() {
    let mut alloc = allocator();
    let members = allocated(&mut alloc, 2);
    let mut layout = stack_of(&members, members[0]);
    let new_id = layout.split_focused(&mut alloc, Direction::Horizontal);

    assert!(layout.close_focused());

    assert_eq!(layout.pane_ids(), members);
    assert!(!layout.pane_ids().contains(&new_id));
    assert!(layout.pane_ids().contains(&layout.focused()));
}

#[test]
fn insert_pane_near_a_stack_member_lands_in_the_stack() {
    let mut alloc = allocator();
    let members = allocated(&mut alloc, 3);
    let moved = PaneId::allocate(&mut alloc);
    let mut layout = stack_of(&members, members[0]);

    assert!(layout.insert_pane_near(members[0], moved, Direction::Vertical, ratio(500_000), true));

    assert_eq!(layout.pane_ids(), vec![members[0], moved, members[1], members[2]]);
    assert_eq!(layout.focused(), moved);
    assert!(matches!(layout.root(), Node::Stack { active, .. } if *active == 1));
}

#[test]
fn close_focused_survives_a_focus_that_left_the_tree() {
    let mut alloc = allocator();
    let members = allocated(&mut alloc, 2);
    let mut layout = stack_of(&members, PaneId::from_raw(u32::MAX));

    assert!(!layout.close_focused());

    assert_eq!(layout.pane_ids(), members);
    assert!(layout.pane_ids().contains(&layout.focused()));
}

#[test]
fn focusing_a_stack_member_makes_it_active() {
    let panes = ids(3);
    let mut layout = layout_of(Node::Stack { panes: panes.clone(), active: 0 }, panes[0]);
    layout.focus_pane(panes[2]);
    assert_eq!(layout.focused(), panes[2]);
    match layout.root() {
        Node::Stack { active, .. } => assert_eq!(*active, 2),
        other => panic!("expected a stack, got {other:?}"),
    }
}

#[test]
fn the_focused_stack_member_is_the_one_with_the_tall_rect() {
    let area = Rect::new(0, 0, 80, 10);
    let panes = ids(3);
    let mut layout = layout_of(Node::Stack { panes: panes.clone(), active: 0 }, panes[0]);
    layout.focus_pane(panes[2]);
    let infos = layout.panes(area);
    let focused = infos.iter().find(|p| p.is_focused).expect("a focused pane");
    assert_eq!(focused.id, panes[2]);
    assert!(focused.rect.height > 1);
}

#[test]
fn from_saved_repairs_a_stale_active_index() {
    let panes = ids(3);
    let layout = layout_of(Node::Stack { panes: panes.clone(), active: 0 }, panes[1]);
    match layout.root() {
        Node::Stack { active, .. } => assert_eq!(*active, 1),
        other => panic!("expected a stack, got {other:?}"),
    }
}

#[test]
fn swap_panes_maintains_stack_active_invariant_when_focused_pane_moves() {
    let area = Rect::new(0, 0, 80, 10);
    let panes = ids(3);
    let mut layout = layout_of(Node::Stack { panes: panes.clone(), active: 0 }, panes[0]);

    assert!(layout.swap_panes(panes[0], panes[2]));

    assert_eq!(layout.focused(), panes[0]);
    match layout.root() {
        Node::Stack { active, panes: members } => {
            assert_eq!(*active, 2);
            assert_eq!(members[2], panes[0]);
        }
        other => panic!("expected a stack, got {other:?}"),
    }
    let infos = layout.panes(area);
    let focused = infos.iter().find(|p| p.is_focused).expect("a focused pane");
    assert_eq!(focused.id, panes[0]);
    assert!(focused.rect.height > 1, "focused pane should have expanded rect");
}

#[test]
fn close_focused_returns_to_the_pane_focus_came_from() {
    let mut layout = sample_layout();
    layout.focus_pane(pane(4));

    assert!(layout.close_focused());

    assert_eq!(layout.focused(), pane(2));
}

#[test]
fn close_focused_returns_to_the_pane_that_opened_a_split() {
    let mut alloc = allocator();
    let (mut layout, first) = TileLayout::new(&mut alloc);
    let second = layout.split_focused(&mut alloc, Direction::Horizontal);
    let third = layout.split_focused(&mut alloc, Direction::Vertical);
    assert_eq!(layout.pane_ids().len(), 3);

    layout.focus_pane(first);
    let opened = layout.split_focused(&mut alloc, Direction::Horizontal);
    assert_eq!(layout.focused(), opened);

    assert!(layout.close_focused());

    assert_eq!(layout.focused(), first);
    assert!(layout.pane_ids().contains(&second));
    assert!(layout.pane_ids().contains(&third));
}

#[test]
fn closing_a_background_pane_keeps_the_focused_pane_history() {
    let mut layout = sample_layout();
    layout.focus_pane(pane(4));

    assert!(layout.close_pane(pane(1)));
    assert_eq!(layout.focused(), pane(4));

    assert!(layout.close_focused());
    assert_eq!(layout.focused(), pane(2));
}

#[test]
fn closing_the_remembered_pane_drops_the_focus_history() {
    let mut layout = sample_layout();
    layout.focus_pane(pane(4));

    assert!(layout.close_pane(pane(2)));

    assert!(layout.close_focused());
    assert_eq!(layout.focused(), pane(3));
}

#[test]
fn close_focused_uses_tree_order_without_focus_history() {
    let mut layout = sample_layout();

    assert!(layout.close_focused());

    assert_eq!(layout.focused(), pane(3));
}

#[test]
fn close_focused_does_not_reuse_history_after_it_is_consumed() {
    let mut layout = sample_layout();
    layout.focus_pane(pane(4));

    assert!(layout.close_focused());
    assert_eq!(layout.focused(), pane(2));

    assert!(layout.close_focused());
    assert_eq!(layout.focused(), pane(3));
}

#[test]
fn resize_does_not_disturb_the_close_focus_target() {
    let mut layout = sample_layout();
    layout.focus_pane(pane(4));
    layout.resize_pane(pane(1), NavDirection::Right, 50_000, Rect::new(0, 0, 100, 40));

    assert!(layout.close_focused());

    assert_eq!(layout.focused(), pane(2));
}

#[test]
fn split_pane_leaves_focus_and_history_untouched() {
    let mut alloc = allocator();
    let mut layout = sample_layout();
    layout.focus_pane(pane(4));

    let new_id = layout
        .split_pane(&mut alloc, pane(1), Direction::Horizontal, ratio(500_000))
        .expect("target exists");

    assert!(layout.pane_ids().contains(&new_id));
    assert_eq!(layout.focused(), pane(4));
    assert!(layout.close_focused());
    assert_eq!(layout.focused(), pane(2));
}

#[test]
fn split_pane_missing_target_changes_nothing() {
    let mut alloc = allocator();
    let mut layout = sample_layout();
    let ids = layout.pane_ids();

    assert_eq!(layout.split_pane(&mut alloc, pane(99), Direction::Horizontal, ratio(500_000)), None);

    assert_eq!(layout.pane_ids(), ids);
}

#[test]
fn insert_pane_near_unfocused_keeps_focus_and_history() {
    let mut layout = sample_layout();
    layout.focus_pane(pane(4));

    assert!(layout.insert_pane_near(pane(1), pane(9), Direction::Horizontal, ratio(500_000), false));

    assert_eq!(layout.focused(), pane(4));
    assert!(layout.close_focused());
    assert_eq!(layout.focused(), pane(2));
}

#[test]
fn failed_split_rollback_preserves_focus_history() {
    let mut alloc = allocator();
    let mut layout = sample_layout();
    layout.focus_pane(pane(4));

    let focused = layout.focused();
    let new_id = layout
        .split_pane(&mut alloc, focused, Direction::Horizontal, ratio(500_000))
        .expect("target exists");
    assert!(layout.close_pane(new_id));

    assert_eq!(layout.focused(), pane(4));
    assert!(layout.close_focused());
    assert_eq!(layout.focused(), pane(2));
}

#[test]
fn node_pane_ids_walks_the_tree_in_order() {
    let layout = sample_layout();
    assert_eq!(node_pane_ids(layout.root()), ids(4));
}

#[test]
fn resize_focused_grows_the_focused_pane_toward_the_nearest_split() {
    let mut layout = sample_layout();
    // Pane 2 sits over pane 3/4 in the right column; growing it downwards
    // moves the vertical split between them.
    layout.resize_focused(NavDirection::Down, 100_000, Rect::new(0, 0, 100, 40));
    let splits = split_snapshot(&layout);
    assert_eq!(splits[1], (Direction::Vertical, ratio(700_000)));
    assert_eq!(splits[0], (Direction::Horizontal, ratio(300_000)));
    assert_eq!(layout.focused(), pane(2));
    // Ratios stay within a tenth of either edge.
    layout.resize_focused(NavDirection::Down, 900_000, Rect::new(0, 0, 100, 40));
    assert_eq!(split_snapshot(&layout)[1], (Direction::Vertical, ratio(900_000)));
}

#[test]
fn splitting_an_unfocused_stack_member_keeps_the_focused_pane_shown() {
    let mut alloc = allocator();
    let mut layout = TileLayout::from_saved(Node::Stack { panes: vec![pane(1), pane(2)], active: 0 }, pane(1));
    let new = layout.split_pane(&mut alloc, pane(2), Direction::Horizontal, ratio(500_000)).expect("pane 2 is in the layout");
    assert_eq!(layout.pane_ids(), vec![pane(1), pane(2), new]);
    assert_eq!(layout.focused(), pane(1));
    match layout.root() {
        Node::Stack { panes, active } => {
            assert_eq!(*panes, vec![pane(1), pane(2), new]);
            assert_eq!(*active, 0);
        },
        other => panic!("expected a stack, got {other:?}"),
    }
}
