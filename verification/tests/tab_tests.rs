use herdr_layout::geometry::{Direction, Ratio, Rect};
use herdr_layout::layout::{Arrangement, Node, PaneId, PaneIdAllocator, TileLayout};
use herdr_layout::pane_frame::{compute_pane_infos, PaneChrome};
use herdr_layout::popup_size::resolve_popup_geometry;
use herdr_layout::layout_api::{LayoutNode, LayoutPane};
use herdr_layout::tab::{MovedPane, NewPane, PaneState, SplitError, Tab, TerminalId};
use std::collections::HashMap;

struct Fixture {
    ids: PaneIdAllocator,
    next_terminal: u64,
}

impl Fixture {
    fn new() -> Fixture {
        Fixture { ids: PaneIdAllocator::new(), next_terminal: 1 }
    }

    fn pane(&mut self) -> PaneId {
        PaneId::allocate(&mut self.ids)
    }

    fn terminal(&mut self) -> TerminalId {
        let id = TerminalId(self.next_terminal);
        self.next_terminal += 1;
        id
    }

    fn tab(&mut self) -> Tab {
        let terminal = self.terminal();
        Tab::new(1, &mut self.ids, terminal)
    }

    /// Split the focused tiled pane straight in the layout, focusing the new
    /// pane and attaching a terminal to it.
    fn split(&mut self, tab: &mut Tab, direction: Direction) -> PaneId {
        let new_id = tab.layout.split_focused(&mut self.ids, direction);
        let terminal = self.terminal();
        tab.panes.insert(new_id.0, PaneState::new(terminal));
        new_id
    }

    fn push_float(&mut self, tab: &mut Tab) -> PaneId {
        let id = self.pane();
        let terminal = self.terminal();
        tab.push_float(id, PaneState::new(terminal));
        id
    }
}

/// The grid column count the application picks for `count` panes in
/// `area`.
fn grid_columns(count: usize, area: Rect) -> usize {
    let count = count.max(1);
    (1..=count)
        .min_by_key(|cols| {
            let rows = count.div_ceil(*cols);
            let cell_width = (area.width as f32 / *cols as f32).max(1.0);
            let cell_height = (area.height as f32 / rows as f32).max(1.0);
            let aspect_error = (cell_width / (cell_height * 2.0)).ln().abs();
            let empty_cells = (rows * cols - count) as f32;
            let imbalance = (*cols as f32 / rows as f32).ln().abs();
            ((aspect_error + empty_cells * 0.5 + imbalance * 0.5) * 1000.0) as i32
        })
        .unwrap_or(1)
}

/// Re-flow the way the renderer does, with the tab's area and, when it can
/// be resolved, the float region.
fn reflow(tab: &mut Tab, area: Rect, float_region: Option<Rect>) {
    let tiled = grid_columns(tab.layout.pane_count(), area);
    let floats = float_region.map(|region| grid_columns(tab.floats().len(), region));
    tab.reflow(tiled, floats);
}

fn root_ratio(layout: &TileLayout) -> Option<Ratio> {
    match layout.root() {
        Node::Split { ratio, .. } => Some(*ratio),
        _ => None,
    }
}

#[test]
fn a_tab_starts_with_no_float_layout() {
    let tab = Fixture::new().tab();
    assert!(tab.float_layout.is_none());
    assert_eq!(tab.float_arrangement, Arrangement::Stacked);
    assert!(tab.floats().is_empty());
}

#[test]
fn pushing_the_first_float_creates_the_layout() {
    let mut fx = Fixture::new();
    let mut tab = fx.tab();
    let first = fx.push_float(&mut tab);
    assert_eq!(tab.floats(), vec![first]);
    assert_eq!(tab.focused_float(), Some(first));
    assert!(tab.float_focused);
}

#[test]
fn pushing_more_floats_keeps_them_all_in_order() {
    let mut fx = Fixture::new();
    let mut tab = fx.tab();
    let ids: Vec<_> = (0..3).map(|_| fx.push_float(&mut tab)).collect();
    assert_eq!(tab.floats(), ids);
    assert_eq!(tab.focused_float(), Some(ids[2]));
}

#[test]
fn focused_float_is_none_while_the_layer_is_hidden() {
    let mut fx = Fixture::new();
    let mut tab = fx.tab();
    fx.push_float(&mut tab);
    tab.set_floats_hidden(true);
    assert_eq!(tab.focused_float(), None);
}

#[test]
fn closing_a_float_removes_it_and_keeps_the_others() {
    let mut fx = Fixture::new();
    let mut tab = fx.tab();
    let ids: Vec<_> = (0..3).map(|_| fx.push_float(&mut tab)).collect();
    assert!(tab.close_float(ids[1]).is_some());
    assert_eq!(tab.floats(), vec![ids[0], ids[2]]);
    assert!(tab.float_layout.is_some());
}

#[test]
fn closing_the_last_float_clears_the_layout_and_focus() {
    let mut fx = Fixture::new();
    let mut tab = fx.tab();
    let only = fx.push_float(&mut tab);
    assert!(tab.close_float(only).is_some());
    assert!(tab.float_layout.is_none());
    assert!(!tab.float_focused);
    assert!(tab.floats().is_empty());
}

#[test]
fn closing_a_pane_that_is_not_a_float_returns_none() {
    let mut fx = Fixture::new();
    let mut tab = fx.tab();
    fx.push_float(&mut tab);
    let stranger = fx.pane();
    assert!(tab.close_float(stranger).is_none());
}

#[test]
fn is_float_and_all_pane_ids_see_the_float_layout() {
    let mut fx = Fixture::new();
    let mut tab = fx.tab();
    let tiled = tab.layout.focused();
    let float = fx.push_float(&mut tab);
    assert!(tab.is_float(float));
    assert!(!tab.is_float(tiled));
    assert_eq!(tab.all_pane_ids(), vec![tiled, float]);
}

#[test]
fn focused_pane_prefers_the_focused_float() {
    let mut fx = Fixture::new();
    let mut tab = fx.tab();
    let tiled = tab.layout.focused();
    let float = fx.push_float(&mut tab);
    assert_eq!(tab.focused_pane(), float);
    tab.float_focused = false;
    assert_eq!(tab.focused_pane(), tiled);
}

#[test]
fn push_float_with_duplicate_id_does_not_duplicate_stack_entry() {
    let mut fx = Fixture::new();
    let mut tab = fx.tab();
    let float = fx.push_float(&mut tab);
    let updated_terminal = fx.terminal();
    tab.push_float(float, PaneState::new(updated_terminal));

    assert_eq!(tab.floats(), vec![float]);
    assert_eq!(tab.panes.get(&float.0).map(|p| p.attached_terminal_id), Some(updated_terminal));
}

#[test]
fn focus_floats_does_nothing_without_a_float() {
    let mut tab = Fixture::new().tab();

    assert!(!tab.focus_floats());
    assert!(!tab.float_focused);
}

#[test]
fn focus_floats_unhides_and_focuses_an_existing_float() {
    let mut fx = Fixture::new();
    let mut tab = fx.tab();
    let float = fx.push_float(&mut tab);
    tab.set_floats_hidden(true);

    assert!(tab.focus_floats());

    assert!(!tab.floats_hidden);
    assert!(tab.float_focused);
    assert_eq!(tab.focused_pane(), float);
}

#[test]
fn focus_floats_does_nothing_when_already_focused() {
    let mut fx = Fixture::new();
    let mut tab = fx.tab();
    fx.push_float(&mut tab);

    assert!(!tab.focus_floats(), "already focused, nothing to do");
}

#[test]
fn close_float_drops_state_and_clears_focus_when_last() {
    let mut fx = Fixture::new();
    let mut tab = fx.tab();
    let tiled = tab.layout.focused();
    let float = fx.push_float(&mut tab);

    assert!(tab.close_float(float).is_some());

    assert!(tab.floats().is_empty());
    assert!(!tab.panes.contains_key(&float.0));
    assert!(!tab.float_focused);
    assert_eq!(tab.focused_pane(), tiled);
}

#[test]
fn close_float_ignores_a_tiled_pane() {
    let mut tab = Fixture::new().tab();
    let tiled = tab.layout.focused();

    assert!(tab.close_float(tiled).is_none());

    assert!(tab.panes.contains_key(&tiled.0), "tiled pane must survive");
}

#[test]
fn hiding_the_layer_clears_float_focus() {
    let mut fx = Fixture::new();
    let mut tab = fx.tab();
    fx.push_float(&mut tab);
    assert!(tab.float_focused);

    tab.set_floats_hidden(true);

    assert!(!tab.float_focused);
}

#[test]
fn showing_the_layer_restores_float_focus() {
    let mut fx = Fixture::new();
    let mut tab = fx.tab();
    let float = fx.push_float(&mut tab);
    tab.set_floats_hidden(true);

    tab.set_floats_hidden(false);

    assert!(tab.float_focused);
    assert_eq!(tab.focused_pane(), float);
}

#[test]
fn a_new_tab_starts_in_the_grid_arrangement() {
    let tab = Fixture::new().tab();
    assert_eq!(tab.arrangement, Arrangement::Grid);
    assert!(!tab.needs_reflow);
}

#[test]
fn cycling_the_arrangement_marks_the_tab_for_reflow() {
    let mut tab = Fixture::new().tab();
    tab.cycle_arrangement(true);
    assert_eq!(tab.arrangement, Arrangement::Stacked);
    assert!(tab.needs_reflow);
}

#[test]
fn cycling_backwards_walks_the_other_way() {
    let mut tab = Fixture::new().tab();
    tab.cycle_arrangement(false);
    assert_eq!(tab.arrangement, Arrangement::Horizontal);
}

#[test]
fn reflow_rebuilds_the_tree_and_clears_the_flag() {
    let area = Rect::new(0, 0, 80, 20);
    let mut fx = Fixture::new();
    let mut tab = fx.tab();
    let first = tab.layout.focused();
    let second = tab.layout.split_focused(&mut fx.ids, Direction::Horizontal);
    tab.arrangement = Arrangement::Stacked;
    tab.needs_reflow = true;

    reflow(&mut tab, area, None);

    assert!(!tab.needs_reflow);
    assert_eq!(tab.layout.pane_ids(), vec![first, second]);
    assert!(matches!(tab.layout.root(), Node::Stack { .. }));
}

#[test]
fn reflow_keeps_focus_on_the_same_pane() {
    let area = Rect::new(0, 0, 80, 20);
    let mut fx = Fixture::new();
    let mut tab = fx.tab();
    let second = tab.layout.split_focused(&mut fx.ids, Direction::Horizontal);
    tab.arrangement = Arrangement::Horizontal;
    tab.needs_reflow = true;

    reflow(&mut tab, area, None);

    assert_eq!(tab.layout.focused(), second);
}

#[test]
fn reflow_is_a_no_op_when_the_flag_is_clear() {
    let area = Rect::new(0, 0, 80, 20);
    let mut fx = Fixture::new();
    let mut tab = fx.tab();
    tab.layout.split_focused(&mut fx.ids, Direction::Horizontal);
    tab.arrangement = Arrangement::Stacked;

    reflow(&mut tab, area, None);

    assert!(!matches!(tab.layout.root(), Node::Stack { .. }));
}

#[test]
fn reflow_rebuilds_the_float_layer_under_its_arrangement() {
    let area = Rect::new(0, 0, 80, 20);
    let region = Rect::new(10, 5, 40, 10);
    let mut fx = Fixture::new();
    let mut tab = fx.tab();
    let ids: Vec<_> = (0..3).map(|_| fx.push_float(&mut tab)).collect();
    tab.float_arrangement = Arrangement::Stacked;
    tab.float_needs_reflow = true;

    reflow(&mut tab, area, Some(region));

    assert!(!tab.float_needs_reflow);
    assert_eq!(tab.floats(), ids, "float order survives a re-flow");
    let root = tab.float_layout.as_ref().expect("a float layout").root();
    assert!(matches!(root, Node::Stack { .. }));
}

#[test]
fn reflow_keeps_float_focus_on_the_same_pane() {
    let area = Rect::new(0, 0, 80, 20);
    let region = Rect::new(10, 5, 40, 10);
    let mut fx = Fixture::new();
    let mut tab = fx.tab();
    let ids: Vec<_> = (0..3).map(|_| fx.push_float(&mut tab)).collect();
    let focused = ids[1];
    tab.float_layout.as_mut().expect("a float layout").focus_pane(focused);
    tab.float_arrangement = Arrangement::Grid;
    tab.float_needs_reflow = true;

    reflow(&mut tab, area, Some(region));

    assert_eq!(tab.focused_float(), Some(focused));
}

#[test]
fn reflow_without_a_float_region_leaves_the_float_layer_alone() {
    let area = Rect::new(0, 0, 80, 20);
    let mut fx = Fixture::new();
    let mut tab = fx.tab();
    let ids: Vec<_> = (0..2).map(|_| fx.push_float(&mut tab)).collect();
    tab.float_needs_reflow = true;

    reflow(&mut tab, area, None);

    assert_eq!(tab.floats(), ids, "no region means no float geometry to apply");
}

#[test]
fn closing_a_pane_marks_the_tab_for_reflow() {
    let mut fx = Fixture::new();
    let mut tab = fx.tab();
    fx.split(&mut tab, Direction::Horizontal);
    assert!(!tab.needs_reflow);

    assert!(tab.close_focused().is_some());

    assert!(tab.needs_reflow);
}

#[test]
fn splitting_a_stacked_tab_keeps_the_new_pane_in_the_tree() {
    let area = Rect::new(0, 0, 80, 20);
    let mut fx = Fixture::new();
    let mut tab = fx.tab();
    fx.split(&mut tab, Direction::Horizontal);
    tab.arrangement = Arrangement::Stacked;
    tab.needs_reflow = true;
    reflow(&mut tab, area, None);

    let new_pane = fx.split(&mut tab, Direction::Horizontal);

    assert!(tab.layout.pane_ids().contains(&new_pane));
    assert_eq!(tab.layout.pane_ids().len(), tab.panes.len());
    assert!(tab.layout.pane_ids().contains(&tab.layout.focused()));
    assert!(tab.close_focused().is_some());
}

#[test]
fn inserting_an_existing_pane_marks_the_tab_for_reflow() {
    let mut fx = Fixture::new();
    let mut tab = fx.tab();
    let target = tab.layout.focused();
    let moved = MovedPane { pane_id: fx.pane(), pane_state: PaneState::new(fx.terminal()) };
    assert!(!tab.needs_reflow);

    assert!(tab.insert_existing_pane(target, moved, Direction::Horizontal, Ratio::half(), true).is_ok());

    assert!(tab.needs_reflow);
}

#[test]
fn taking_a_pane_for_move_marks_the_tab_for_reflow() {
    let mut fx = Fixture::new();
    let mut tab = fx.tab();
    let second = fx.split(&mut tab, Direction::Horizontal);
    assert!(!tab.needs_reflow);

    assert!(tab.take_pane_for_move(second).is_some());

    assert!(tab.needs_reflow);
}

#[test]
fn opening_a_float_leaves_manual_tiled_sizing_alone() {
    let area = Rect::new(0, 0, 80, 20);
    let region = Rect::new(10, 5, 40, 10);
    let mut fx = Fixture::new();
    let mut tab = fx.tab();
    fx.split(&mut tab, Direction::Horizontal);
    tab.needs_reflow = false;
    assert!(tab.layout.set_ratio_at(&[], Ratio(800_000)));

    fx.push_float(&mut tab);
    reflow(&mut tab, area, Some(region));

    assert_eq!(root_ratio(&tab.layout), Some(Ratio(800_000)), "a float mutation must not re-flow the tiled layer");
}

#[test]
fn creating_a_tiled_pane_leaves_an_applied_float_shape_alone() {
    let area = Rect::new(0, 0, 80, 20);
    let region = Rect::new(10, 5, 40, 10);
    let mut fx = Fixture::new();
    let mut tab = fx.tab();
    let floats: Vec<_> = (0..2).map(|_| fx.push_float(&mut tab)).collect();
    tab.float_layout = Some(TileLayout::from_saved(
        Node::Split {
            direction: Direction::Horizontal,
            ratio: Ratio(250_000),
            first: Box::new(Node::Pane(floats[0])),
            second: Box::new(Node::Pane(floats[1])),
        },
        floats[0],
    ));
    tab.needs_reflow = false;
    tab.float_needs_reflow = false;

    let moved = MovedPane { pane_id: fx.pane(), pane_state: PaneState::new(fx.terminal()) };
    let target = tab.layout.focused();
    assert!(tab.insert_existing_pane(target, moved, Direction::Horizontal, Ratio::half(), true).is_ok());
    reflow(&mut tab, area, Some(region));

    let float_layout = tab.float_layout.as_ref().expect("a float layout");
    assert_eq!(root_ratio(float_layout), Some(Ratio(250_000)), "a tiled mutation must not re-flow the float layer");
}

#[test]
fn an_unresolvable_float_region_keeps_the_layer_dirty() {
    let area = Rect::new(0, 0, 80, 20);
    let region = Rect::new(10, 5, 40, 10);
    let mut fx = Fixture::new();
    let mut tab = fx.tab();
    (0..2).for_each(|_| {
        fx.push_float(&mut tab);
    });
    tab.float_arrangement = Arrangement::Vertical;

    reflow(&mut tab, area, None);
    assert!(tab.float_needs_reflow);

    reflow(&mut tab, area, Some(region));
    assert!(!tab.float_needs_reflow);
    let root = tab.float_layout.as_ref().expect("a float layout").root();
    assert!(matches!(root, Node::Split { .. }));
}

#[test]
fn a_split_of_a_missing_pane_is_refused_and_changes_nothing() {
    let mut fx = Fixture::new();
    let mut tab = fx.tab();
    let before = tab.layout.pane_ids();
    let stranger = PaneId::from_raw(9999);

    let result = tab.reserve_split(&mut fx.ids, stranger, Direction::Vertical, None);

    assert_eq!(result, Err(SplitError::TargetMissing));
    assert_eq!(SplitError::TargetMissing.message(), "split target pane is not in the layout");
    assert_eq!(tab.layout.pane_ids(), before);
}

#[test]
fn an_abandoned_split_gives_back_the_original_panes_and_focus() {
    let mut fx = Fixture::new();
    let mut tab = fx.tab();
    let first = tab.layout.focused();
    let target = tab.layout.focused();
    let new_id = tab.reserve_split(&mut fx.ids, target, Direction::Horizontal, Some(Ratio(300_000))).unwrap();
    assert_eq!(tab.layout.pane_ids(), vec![first, new_id]);
    assert_eq!(tab.layout.focused(), first);

    tab.abandon_split(new_id);

    assert_eq!(tab.layout.pane_ids(), vec![first]);
    assert_eq!(tab.layout.focused(), first);
    assert!(!tab.needs_reflow);
}

#[test]
fn a_finished_split_can_leave_focus_where_it_was() {
    let mut fx = Fixture::new();
    let mut tab = fx.tab();
    let first = tab.layout.focused();
    let new_id = tab.reserve_split(&mut fx.ids, first, Direction::Vertical, None).unwrap();
    let terminal = fx.terminal();

    let created = tab.finish_split(new_id, false, terminal);

    assert_eq!(created.pane_id, new_id);
    assert_eq!(created.terminal_id, terminal);
    assert_eq!(tab.layout.focused(), first);
    assert_eq!(tab.terminal_id(new_id), Some(terminal));
    assert!(tab.needs_reflow);
}

#[test]
fn closing_the_root_pane_promotes_the_next_tiled_pane() {
    let mut fx = Fixture::new();
    let mut tab = fx.tab();
    let root = tab.root_pane;
    let second = fx.split(&mut tab, Direction::Horizontal);

    let closed = tab.close_pane(root);

    assert_eq!(closed.map(|(id, _)| id), Some(root));
    assert_eq!(tab.root_pane, second);
    assert!(tab.close_pane(second).is_none(), "the last tiled pane stays");
}

#[test]
fn marking_an_applied_stack_layout_clears_both_reflow_flags() {
    let mut fx = Fixture::new();
    let mut tab = fx.tab();
    fx.split(&mut tab, Direction::Horizontal);
    tab.cycle_arrangement(false);
    tab.float_arrangement = Arrangement::Grid;
    fx.push_float(&mut tab);
    assert!(tab.needs_reflow && tab.float_needs_reflow);

    tab.mark_layout_applied(true, false);

    assert!(!tab.needs_reflow);
    assert!(!tab.float_needs_reflow);
    assert_eq!(tab.arrangement, Arrangement::Stacked);
    assert_eq!(tab.float_arrangement, Arrangement::Grid);
}

#[test]
fn collapsed_stack_members_render_as_single_row_bars() {
    let area = Rect::new(0, 0, 80, 10);
    let mut f = Fixture::new();
    let mut tab = f.tab();
    let first = tab.layout.focused();
    let second = f.split(&mut tab, Direction::Horizontal);
    tab.arrangement = Arrangement::Stacked;
    tab.needs_reflow = true;
    reflow(&mut tab, area, None);

    let infos = tab.layout.panes(area);
    let bars: Vec<_> = infos.iter().filter(|p| p.rect.height == 1).collect();
    assert_eq!(bars.len(), 1);
    assert_eq!(bars[0].id, first);
    let expanded: Vec<_> = infos.iter().filter(|p| p.rect.height > 1).collect();
    assert_eq!(expanded.len(), 1);
    assert_eq!(expanded[0].id, second);
}

#[test]
fn zooming_a_stack_member_shows_only_that_pane() {
    let area = Rect::new(0, 0, 80, 10);
    let mut f = Fixture::new();
    let mut tab = f.tab();
    let second = f.split(&mut tab, Direction::Horizontal);
    tab.arrangement = Arrangement::Stacked;
    tab.needs_reflow = true;
    reflow(&mut tab, area, None);
    tab.zoomed = true;

    // The focused pane is always the stack's active member.
    assert_eq!(tab.layout.focused(), second);
    let infos = tab.layout.panes(area);
    let focused = infos.iter().find(|p| p.is_focused).expect("a focused pane");
    assert_eq!(focused.id, second);
}

#[test]
fn every_float_gets_a_rect_inside_the_region() {
    let region = Rect::new(10, 5, 40, 10);
    let mut f = Fixture::new();
    let mut tab = f.tab();
    for _ in 0..3 {
        f.push_float(&mut tab);
    }
    tab.float_arrangement = Arrangement::Stacked;
    tab.needs_reflow = true;
    reflow(&mut tab, Rect::new(0, 0, 80, 20), Some(region));

    let infos = tab.float_layout.as_ref().expect("a float layout").panes(region);
    assert_eq!(infos.len(), 3, "every float is laid out, not just the top one");
    for info in &infos {
        assert!(info.rect.y >= region.y);
        assert!(info.rect.y + info.rect.height <= region.y + region.height);
    }
    let expanded: Vec<_> = infos.iter().filter(|i| i.rect.height > 1).collect();
    assert_eq!(expanded.len(), 1, "stacked shows exactly one expanded member");
}

#[test]
fn a_pane_cwd_prefers_what_its_running_terminal_reports() {
    let mut f = Fixture::new();
    let mut tab = f.tab();
    let root = tab.root_pane;
    let other = f.split(&mut tab, Direction::Horizontal);
    let root_terminal = tab.terminal_id(root).unwrap();
    let other_terminal = tab.terminal_id(other).unwrap();
    let mut recorded = std::collections::HashMap::new();
    recorded.insert(root_terminal.0, "/home/me".to_string());
    recorded.insert(other_terminal.0, "/srv".to_string());
    let mut live = std::collections::HashMap::new();
    live.insert(root_terminal.0, "/home/me/project".to_string());

    assert_eq!(tab.cwd_for_pane(root, &recorded, &live).as_deref(), Some("/home/me/project"));
    assert_eq!(tab.cwd_for_pane(other, &recorded, &live).as_deref(), Some("/srv"));
    assert_eq!(tab.cwd_for_pane(PaneId::from_raw(9999), &recorded, &live), None);
    assert_eq!(tab.foreground_cwd_for_pane(root, &live).as_deref(), Some("/home/me/project"));
    assert_eq!(tab.foreground_cwd_for_pane(other, &live), None);
}

#[test]
fn a_tab_built_around_a_moved_pane_holds_just_that_pane() {
    let mut f = Fixture::new();
    let id = f.pane();
    let terminal = f.terminal();
    let moved = MovedPane { pane_id: id, pane_state: PaneState::new(terminal) };
    let tab = Tab::from_existing_pane(3, Some("moved".to_string()), moved);
    assert_eq!(tab.root_pane, id);
    assert_eq!(tab.layout.pane_ids(), vec![id]);
    assert_eq!(tab.terminal_id(id), Some(terminal));
    assert_eq!(tab.number, 3);
    assert!(!tab.is_auto_named());
    assert_eq!(tab.arrangement, Arrangement::Grid);
    assert!(tab.float_layout.is_none());
}

#[test]
fn naming_a_tab_makes_it_no_longer_auto_named() {
    let mut f = Fixture::new();
    let mut tab = f.tab();
    assert!(tab.is_auto_named());
    tab.set_custom_name("build".to_string());
    assert!(!tab.is_auto_named());
    assert_eq!(tab.custom_name.as_deref(), Some("build"));
}

#[test]
fn the_focused_layer_is_the_float_layer_only_while_it_is_shown_and_focused() {
    let mut f = Fixture::new();
    let mut tab = f.tab();
    let root = tab.root_pane;
    let first = f.push_float(&mut tab);
    let second = f.push_float(&mut tab);
    tab.float_focused = true;
    assert_eq!(tab.focused_layer_pane_ids(), vec![first, second]);
    tab.set_floats_hidden(true);
    assert_eq!(tab.focused_layer_pane_ids(), vec![root]);
}

fn chrome() -> PaneChrome {
    PaneChrome { pane_borders: true, pane_gaps: false, pane_outer_borders: true, pane_scrollbars: true }
}

#[test]
fn compute_pane_infos_appends_every_float_after_the_tiled_panes_with_its_own_rect() {
    let area = Rect::new(0, 0, 60, 20);
    let mut f = Fixture::new();
    let mut tab = f.tab();
    let root_pane = tab.root_pane;
    let float_ids: Vec<PaneId> = (0..3).map(|_| f.push_float(&mut tab)).collect();
    tab.float_arrangement = Arrangement::Grid;
    let float_region = resolve_popup_geometry(None, None, area).map(|geometry| geometry.outer);
    tab.needs_reflow = true;
    reflow(&mut tab, area, float_region);

    let pane_infos = compute_pane_infos(&tab, area, chrome(), None, None, &HashMap::new());

    // The tiled root pane comes first; every float comes after it, so a
    // reverse-order hit test finds any float before the tiled pane it covers.
    assert_eq!(pane_infos[0].id, root_pane);
    let float_infos: Vec<_> = pane_infos[1..].iter().collect();
    assert_eq!(float_infos.len(), 3);
    let ids: std::collections::HashSet<_> = float_infos.iter().map(|info| info.id).collect();
    assert_eq!(ids, float_ids.iter().copied().collect());

    // Grid keeps every float expanded at once, each with a real, distinct box.
    for info in &float_infos {
        assert!(info.rect.height > 1, "float {:?} should be expanded", info.id);
    }
    let rects: std::collections::HashSet<_> =
        float_infos.iter().map(|info| (info.rect.x, info.rect.y, info.rect.width, info.rect.height)).collect();
    assert_eq!(rects.len(), 3, "every float gets its own rect, not a shared one");
}

#[test]
fn a_hidden_float_layer_is_not_laid_out() {
    let area = Rect::new(0, 0, 60, 20);
    let mut f = Fixture::new();
    let mut tab = f.tab();
    f.push_float(&mut tab);
    tab.set_floats_hidden(true);
    let infos = compute_pane_infos(&tab, area, chrome(), None, None, &HashMap::new());
    assert_eq!(infos.len(), 1);
    assert_eq!(infos[0].id, tab.root_pane);
}

#[test]
fn a_zoomed_pane_fills_the_area_and_keeps_a_scrollbar_column() {
    let area = Rect::new(0, 0, 80, 24);
    let mut f = Fixture::new();
    let mut tab = f.tab();
    let second = f.split(&mut tab, Direction::Horizontal);
    tab.zoomed = true;
    let mut scrollbars = HashMap::new();
    scrollbars.insert(second.0, true);
    let infos = compute_pane_infos(&tab, area, chrome(), None, None, &scrollbars);
    assert_eq!(infos.len(), 1);
    let info = infos[0];
    assert_eq!(info.id, second);
    assert_eq!(info.rect, area);
    assert!(info.is_focused);
    // All borders round the pane, one column kept for the scrollbar, which
    // shows.
    assert_eq!(info.inner_rect, Rect::new(1, 1, 77, 22));
    assert_eq!(info.scrollbar_rect, Some(Rect::new(78, 1, 1, 22)));
}

#[test]
fn tiled_panes_lose_focus_while_the_float_layer_holds_it() {
    let area = Rect::new(0, 0, 80, 24);
    let mut f = Fixture::new();
    let mut tab = f.tab();
    f.split(&mut tab, Direction::Horizontal);
    let float = f.push_float(&mut tab);
    tab.float_focused = true;
    let infos = compute_pane_infos(&tab, area, chrome(), None, None, &HashMap::new());
    assert_eq!(infos.len(), 3);
    assert!(!infos[0].is_focused && !infos[1].is_focused);
    assert_eq!(infos[2].id, float);
    assert!(infos[2].is_focused);
    // A pane without a running terminal keeps its whole content area.
    assert_eq!(infos[0].scrollbar_rect, None);
}

#[test]
fn an_installed_float_layer_holds_the_requested_tree() {
    let leaf = || LayoutPane { pane_id: None, label: None, cwd: None, command: None, env_error: None };
    let mut f = Fixture::new();
    let mut tab = f.tab();
    let request = LayoutNode::Stack { panes: vec![leaf(), leaf()], active: 1 };
    let spawned: Vec<NewPane> = (0..2)
        .map(|_| {
            let pane_id = f.pane();
            NewPane { pane_id, terminal_id: f.terminal() }
        })
        .collect();
    tab.install_float_layer(&request, &spawned);
    assert_eq!(tab.floats(), vec![spawned[0].pane_id, spawned[1].pane_id]);
    assert_eq!(tab.float_layout.as_ref().unwrap().focused(), spawned[1].pane_id);
    match tab.float_layout.as_ref().unwrap().root() {
        Node::Stack { active, .. } => assert_eq!(*active, 1),
        other => panic!("expected a stack, got {other:?}"),
    }
    assert_eq!(tab.terminal_id(spawned[0].pane_id), Some(spawned[0].terminal_id));
}
