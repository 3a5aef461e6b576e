use herdr_layout::geometry::{Borders, Direction, Rect};
use herdr_layout::layout::{PaneId, PaneIdAllocator, PaneInfo, TileLayout};
use herdr_layout::panes::{
    active_edge_row, apply_pane_chrome, bounding_rect, color_to_rgb, float_pane_infos, float_shadow, line_cell_symbol,
    line_touches_pane, pane_border_title, pane_inner_rect, rect_contains, scrollbar_gutter, shrink_for_one_cell_gap,
    stable_terminal_inner_rect, stack_bar_title, stack_bars_for, truncate_end, union_rect, zoomed_borders, LineCell,
};
use herdr_layout::popup_size::StackBarKind;
use herdr_layout::style::Color;

fn info(id: u32, rect: Rect) -> PaneInfo {
    PaneInfo { id: PaneId::from_raw(id), rect, inner_rect: rect, scrollbar_rect: None, borders: Borders::none(), is_focused: false }
}

#[test]
fn pane_border_title_trims_and_truncates() {
    assert_eq!(pane_border_title(" clamped ", 20, false).as_deref(), Some(" clamped "));
    assert_eq!(pane_border_title(" clamped ", 20, true).as_deref(), Some(" clamped "));
    assert_eq!(pane_border_title("", 20, false), None);
    assert_eq!(pane_border_title("abcdef", 8, false).as_deref(), Some(" abc… "));
    assert_eq!(pane_border_title("abcdef", 8, true).as_deref(), Some(" abc… "));
    assert_eq!(pane_border_title("abcdef", 4, false), None);
}

#[test]
fn pane_border_title_truncates_cjk_by_display_width() {
    let title = pane_border_title("1 模块组织（已定）", 12, false).unwrap();

    assert_eq!(title, " 1 模块… ");
    assert!(ratatui::text::Span::raw(title.as_str()).width() <= 10);
}

#[test]
fn truncation_keeps_text_that_fits() {
    let text: Vec<char> = "abcd".chars().collect();
    assert_eq!(truncate_end(&text, 4), text);
    assert_eq!(truncate_end(&text, 3).into_iter().collect::<String>(), "ab…");
    assert_eq!(truncate_end(&text, 0).into_iter().collect::<String>(), "…");
}

#[test]
fn inner_rects_follow_the_borders() {
    let area = Rect::new(2, 3, 10, 5);
    assert_eq!(pane_inner_rect(area, Borders::none()), area);
    assert_eq!(pane_inner_rect(area, Borders::all()), Rect::new(3, 4, 8, 3));
    assert_eq!(pane_inner_rect(area, Borders::top_only()), Rect::new(2, 4, 10, 4));
    assert_eq!(pane_inner_rect(Rect::new(0, 0, 1, 1), Borders::all()), Rect::new(1, 1, 0, 0));
}

#[test]
fn the_terminal_keeps_a_column_for_the_scrollbar() {
    let inner = Rect::new(1, 1, 10, 5);
    assert_eq!(stable_terminal_inner_rect(inner, true), Rect::new(1, 1, 9, 5));
    assert_eq!(stable_terminal_inner_rect(inner, false), inner);
    assert_eq!(stable_terminal_inner_rect(Rect::new(1, 1, 4, 5), true), Rect::new(1, 1, 4, 5));
    assert_eq!(scrollbar_gutter(inner, true, true), (Rect::new(1, 1, 9, 5), Some(Rect::new(10, 1, 1, 5))));
    assert_eq!(scrollbar_gutter(inner, true, false), (Rect::new(1, 1, 9, 5), None));
    assert_eq!(scrollbar_gutter(inner, false, true), (inner, None));
}

#[test]
fn a_zoomed_pane_keeps_its_border_space() {
    assert_eq!(zoomed_borders(true, true, true), Borders::all());
    assert_eq!(zoomed_borders(false, true, false), Borders::top_only());
    assert_eq!(zoomed_borders(true, true, false), Borders::none());
    assert_eq!(zoomed_borders(true, false, true), Borders::none());
}

/// A layout of two panes split in `direction`, with the first one focused.
fn two_panes(direction: Direction) -> (TileLayout, PaneId, PaneId) {
    let mut ids = PaneIdAllocator::new();
    let (mut layout, root) = TileLayout::new(&mut ids);
    let other = layout.split_focused(&mut ids, direction);
    layout.focus_pane(root);
    (layout, root, other)
}

fn find(infos: &[PaneInfo], id: PaneId) -> PaneInfo {
    *infos.iter().find(|info| info.id == id).unwrap()
}

#[test]
fn default_horizontal_split_uses_one_shared_divider_column() {
    let (layout, root, right) = two_panes(Direction::Horizontal);
    let infos = apply_pane_chrome(layout.panes(Rect::new(0, 0, 100, 20)), true, false, true);
    let left = find(&infos, root);
    let right = find(&infos, right);

    assert_eq!(left.rect.x + left.rect.width, right.rect.x);
    assert!(!left.borders.right);
    assert!(right.borders.left);
}

#[test]
fn default_vertical_split_uses_one_shared_divider_row() {
    let (layout, root, bottom) = two_panes(Direction::Vertical);
    let infos = apply_pane_chrome(layout.panes(Rect::new(0, 0, 100, 20)), true, false, true);
    let top = find(&infos, root);
    let bottom = find(&infos, bottom);

    assert_eq!(top.rect.y + top.rect.height, bottom.rect.y);
    assert!(!top.borders.bottom);
    assert!(bottom.borders.top);
}

#[test]
fn disabled_outer_borders_keep_only_shared_pane_dividers() {
    let (layout, root, right) = two_panes(Direction::Horizontal);
    let infos = apply_pane_chrome(layout.panes(Rect::new(0, 0, 100, 20)), true, false, false);
    let left = find(&infos, root);
    let right = find(&infos, right);

    assert_eq!(left.borders, Borders::none());
    assert_eq!(right.borders, Borders { top: false, right: false, bottom: false, left: true });
}

#[test]
fn pane_gaps_keep_independent_bordered_panes() {
    let (layout, root, right) = two_panes(Direction::Horizontal);
    let infos = apply_pane_chrome(layout.panes(Rect::new(0, 0, 100, 20)), true, true, true);
    let left = find(&infos, root);
    let right = find(&infos, right);

    assert_eq!(left.rect.x + left.rect.width, right.rect.x);
    assert_eq!(left.borders, Borders::all());
    assert_eq!(right.borders, Borders::all());
}

#[test]
fn borderless_pane_gaps_add_one_empty_cell_between_panes() {
    let (layout, root, right) = two_panes(Direction::Horizontal);
    let infos = apply_pane_chrome(layout.panes(Rect::new(0, 0, 100, 20)), false, true, true);
    let left = find(&infos, root);
    let right = find(&infos, right);

    assert_eq!(left.rect, Rect::new(0, 0, 49, 20));
    assert_eq!(right.rect, Rect::new(50, 0, 50, 20));
    assert!(left.borders.is_empty());
    assert!(right.borders.is_empty());
}

#[test]
fn disabled_pane_borders_make_inner_rect_equal_visual_rect() {
    let (layout, _, _) = two_panes(Direction::Horizontal);
    let infos = apply_pane_chrome(layout.panes(Rect::new(0, 0, 100, 20)), false, false, true);

    for info in infos {
        assert!(info.borders.is_empty());
        assert_eq!(pane_inner_rect(info.rect, info.borders), info.rect);
    }
}

#[test]
fn borderless_gaps_take_one_cell_before_each_neighbour() {
    let panes = vec![
        info(1, Rect::new(0, 0, 40, 10)),
        info(2, Rect::new(40, 0, 40, 10)),
        info(3, Rect::new(0, 10, 80, 10)),
    ];
    let chromed = apply_pane_chrome(panes, false, true, true);
    assert_eq!(chromed[0].rect, Rect::new(0, 0, 39, 9));
    assert_eq!(chromed[1].rect, Rect::new(40, 0, 40, 9));
    assert_eq!(chromed[2].rect, Rect::new(0, 10, 80, 10));
    assert!(chromed.iter().all(|p| p.borders.is_empty()));
    assert_eq!(shrink_for_one_cell_gap(1), 1);
}

#[test]
fn a_lone_pane_keeps_its_title_strip() {
    let chromed = apply_pane_chrome(vec![info(1, Rect::new(0, 0, 80, 20))], true, false, true);
    assert_eq!(chromed[0].borders, Borders::top_only());
    assert!(apply_pane_chrome(vec![], true, true, true).is_empty());
}

#[test]
fn floats_get_all_borders_and_focus_only_with_the_layer() {
    let floats = vec![info(5, Rect::new(10, 5, 20, 8)), info(6, Rect::new(10, 13, 20, 1))];
    let drawn = float_pane_infos(floats, true, Some(PaneId::from_raw(6)));
    assert_eq!(drawn[0].borders, Borders::all());
    assert_eq!(drawn[0].inner_rect, Rect::new(11, 6, 18, 6));
    assert!(!drawn[0].is_focused);
    assert!(drawn[1].is_focused);
    let unfocused = float_pane_infos(vec![info(6, Rect::new(0, 0, 5, 5))], false, Some(PaneId::from_raw(6)));
    assert!(!unfocused[0].is_focused);
}

#[test]
fn bounding_rect_unions_every_rect() {
    let rects = [Rect::new(10, 5, 20, 8), Rect::new(10, 3, 20, 1), Rect::new(10, 4, 20, 1)];
    assert_eq!(bounding_rect(&rects), Some(Rect::new(10, 3, 20, 10)));
    assert_eq!(bounding_rect(&[]), None);
    assert_eq!(union_rect(Rect::new(0, 0, 2, 2), Rect::new(5, 5, 1, 1)), Rect::new(0, 0, 6, 6));
    assert!(rect_contains(Rect::new(1, 1, 2, 2), 2, 2));
    assert!(!rect_contains(Rect::new(1, 1, 2, 2), 3, 1));
}

#[test]
fn folding_with_no_room_for_any_bar_still_shows_a_truthful_summary() {
    // Active member first, then three folded members past the end.
    let infos = vec![
        info(1, Rect::new(0, 0, 20, 4)),
        info(2, Rect::new(0, 4, 20, 0)),
        info(3, Rect::new(0, 4, 20, 0)),
        info(4, Rect::new(0, 4, 20, 0)),
    ];
    let bars = stack_bars_for(&infos);
    assert_eq!(bars.len(), 1);
    assert_eq!(bars[0].rect, Rect::new(0, 3, 20, 1));
    assert!(matches!(bars[0].kind, StackBarKind::Summary { count: 3 }));
}

#[test]
fn folding_around_the_active_member_produces_two_separate_truthful_summaries() {
    let infos = vec![
        info(1, Rect::new(0, 0, 20, 0)),
        info(2, Rect::new(0, 0, 20, 0)),
        info(3, Rect::new(0, 0, 20, 4)),
        info(4, Rect::new(0, 4, 20, 0)),
    ];
    let bars = stack_bars_for(&infos);
    assert_eq!(bars.len(), 2);
    assert_eq!(bars[0].rect, Rect::new(0, 0, 20, 1));
    assert!(matches!(bars[0].kind, StackBarKind::Summary { count: 2 }));
    assert_eq!(bars[1].rect, Rect::new(0, 3, 20, 1));
    assert!(matches!(bars[1].kind, StackBarKind::Summary { count: 1 }));
}

#[test]
fn a_fold_after_a_collapsed_bar_takes_over_that_bar() {
    let infos = vec![
        info(1, Rect::new(0, 0, 20, 1)),
        info(2, Rect::new(0, 1, 20, 0)),
        info(3, Rect::new(0, 1, 20, 5)),
    ];
    let bars = stack_bars_for(&infos);
    assert_eq!(bars.len(), 1);
    assert_eq!(bars[0].rect, Rect::new(0, 0, 20, 1));
    assert!(matches!(bars[0].kind, StackBarKind::Summary { count: 2 }));
    assert_eq!(active_edge_row(Rect::new(3, 4, 5, 6), false), Rect::new(3, 9, 5, 1));
}

#[test]
fn collapsed_members_become_bars() {
    let infos = vec![info(1, Rect::new(0, 0, 20, 1)), info(2, Rect::new(0, 1, 20, 8)), info(3, Rect::new(0, 9, 20, 1))];
    let bars = stack_bars_for(&infos);
    assert_eq!(bars.len(), 2);
    assert!(matches!(bars[0].kind, StackBarKind::Pane(id) if id == PaneId::from_raw(1)));
    assert!(matches!(bars[1].kind, StackBarKind::Pane(id) if id == PaneId::from_raw(3)));
}

#[test]
fn border_cells_belong_to_the_pane_that_draws_them() {
    let pane = info(1, Rect::new(0, 0, 10, 5));
    assert!(line_touches_pane(0, 2, &pane, true));
    assert!(line_touches_pane(9, 4, &pane, true));
    assert!(!line_touches_pane(10, 2, &pane, true));
    assert!(line_touches_pane(10, 2, &pane, false));
    assert!(line_touches_pane(10, 5, &pane, false));
    assert!(!line_touches_pane(4, 2, &pane, false));
}

#[test]
fn line_cells_join_with_box_drawing_characters() {
    let cell = |up, down, left, right| LineCell { up, down, left, right };
    assert_eq!(line_cell_symbol(cell(true, true, true, true)), "┼");
    assert_eq!(line_cell_symbol(cell(true, false, false, false)), "│");
    assert_eq!(line_cell_symbol(cell(false, false, true, false)), "─");
    assert_eq!(line_cell_symbol(cell(false, true, false, true)), "┌");
    assert_eq!(line_cell_symbol(cell(false, false, false, false)), "");
}

#[test]
fn colours_map_to_their_rgb_values() {
    assert_eq!(color_to_rgb(Color::Reset), None);
    assert_eq!(color_to_rgb(Color::Gray), Some((192, 192, 192)));
    assert_eq!(color_to_rgb(Color::Rgb(1, 2, 3)), Some((1, 2, 3)));
    assert_eq!(color_to_rgb(Color::Indexed(4)), None);
}

#[test]
fn summary_bars_count_the_folded_members() {
    assert_eq!(stack_bar_title(StackBarKind::Summary { count: 2 }, "ignored", 16), " +2 more ");
    assert_eq!(stack_bar_title(StackBarKind::Summary { count: 12 }, "", 20), " +12 more ");
    // Too narrow for the text: it is cut with an ellipsis, and a bar of four
    // columns or fewer shows nothing.
    assert_eq!(stack_bar_title(StackBarKind::Summary { count: 3 }, "", 8), " +3 … ");
    assert_eq!(stack_bar_title(StackBarKind::Summary { count: 3 }, "", 4), "");
}

#[test]
fn pane_bars_show_the_pane_label() {
    let kind = StackBarKind::Pane(PaneId::from_raw(62));
    assert_eq!(stack_bar_title(kind, "clamped", 20), " clamped ");
    assert_eq!(stack_bar_title(kind, "  ", 20), "");
}

#[test]
fn a_float_casts_a_one_cell_shadow_right_and_below() {
    let area = Rect::new(0, 0, 80, 24);
    assert_eq!(float_shadow(Rect::new(10, 5, 20, 8), area), (Rect::new(30, 6, 1, 8), Rect::new(11, 13, 20, 1)));
    // At the screen's edge the shadow is cut to nothing on that side.
    let (right, bottom) = float_shadow(Rect::new(60, 20, 20, 4), area);
    assert_eq!((right.width, right.height), (0, 3));
    assert_eq!(bottom.height, 0);
}

#[test]
fn intersections_keep_the_shared_cells() {
    assert_eq!(Rect::new(0, 0, 10, 10).intersection(Rect::new(5, 5, 10, 10)), Rect::new(5, 5, 5, 5));
    assert_eq!(Rect::new(0, 0, 4, 4).intersection(Rect::new(6, 6, 2, 2)), Rect::new(6, 6, 0, 0));
}
