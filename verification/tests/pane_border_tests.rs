use herdr_layout::geometry::{Borders, Direction, Ratio, Rect};
use herdr_layout::layout::{PaneId, PaneInfo, SplitBorder};
use herdr_layout::pane_borders::{float_rect, pane_border_draws, pane_border_titles, tiled_stack_bars, BorderDraw};
use herdr_layout::popup_size::{StackBar, StackBarKind};

fn bordered(id: u32, rect: Rect, borders: Borders, is_focused: bool) -> PaneInfo {
    PaneInfo { id: PaneId::from_raw(id), rect, inner_rect: Rect::new(0, 0, 0, 0), scrollbar_rect: None, borders, is_focused }
}

fn top_left() -> Borders {
    Borders { top: true, right: false, bottom: false, left: true }
}

fn split(pos: u16, direction: Direction, area: Rect, path: Vec<bool>) -> SplitBorder {
    SplitBorder { pos, direction, ratio: Ratio::half(), area, path }
}

fn cell(draws: &[BorderDraw], x: u16, y: u16) -> Option<BorderDraw> {
    draws.iter().copied().find(|d| d.x == x && d.y == y)
}

fn symbol(draws: &[BorderDraw], x: u16, y: u16) -> &'static str {
    cell(draws, x, y).map(|d| d.symbol).unwrap_or(" ")
}

/// Four panes in a two-by-two grid of a 4x4 area, joined by one vertical and
/// one horizontal divider.
fn quad(focus_first: bool) -> (Vec<PaneInfo>, Vec<SplitBorder>) {
    let infos = vec![
        bordered(1, Rect::new(0, 0, 2, 2), top_left(), focus_first),
        bordered(2, Rect::new(2, 0, 2, 2), Borders { top: true, right: true, bottom: false, left: true }, false),
        bordered(3, Rect::new(0, 2, 2, 2), Borders { top: true, right: false, bottom: true, left: true }, false),
        bordered(4, Rect::new(2, 2, 2, 2), Borders::all(), false),
    ];
    let splits = vec![
        split(2, Direction::Horizontal, Rect::new(0, 0, 4, 4), vec![]),
        split(2, Direction::Vertical, Rect::new(0, 0, 4, 4), vec![false]),
    ];
    (infos, splits)
}

#[test]
fn global_pane_border_renderer_composes_junctions_and_focus_style() {
    let (infos, splits) = quad(true);
    let draws = pane_border_draws(&infos, &[], &splits, &[], Rect::new(0, 0, 4, 4), true, false);

    assert_eq!(symbol(&draws, 2, 2), "┼");
    assert!(cell(&draws, 2, 2).unwrap().focused);
    assert_eq!(symbol(&draws, 2, 1), "│");
    assert!(cell(&draws, 2, 1).unwrap().focused);
}

#[test]
fn tiled_split_borders_do_not_draw_over_a_float() {
    let (mut infos, splits) = quad(false);
    // The float covers the cross-junction the tiled split would otherwise
    // draw at (2, 2) / (2, 1).
    infos.push(bordered(99, Rect::new(1, 1, 2, 2), Borders::all(), true));
    let floats = [PaneId::from_raw(99)];
    let draws = pane_border_draws(&infos, &floats, &splits, &[], Rect::new(0, 0, 4, 4), true, false);

    assert_eq!(symbol(&draws, 2, 2), " ", "junction hidden under float");
    assert_eq!(symbol(&draws, 2, 1), " ", "divider hidden under float");
    // Outside the float's rect, the tiled join still draws normally.
    assert_eq!(symbol(&draws, 2, 0), "┬");
}

#[test]
fn gapped_pane_focus_does_not_color_neighbor_border() {
    let infos = vec![
        bordered(1, Rect::new(0, 0, 2, 3), Borders::all(), true),
        bordered(2, Rect::new(2, 0, 2, 3), Borders::all(), false),
    ];
    let draws = pane_border_draws(&infos, &[], &[], &[], Rect::new(0, 0, 4, 3), true, true);

    assert!(cell(&draws, 1, 1).unwrap().focused);
    assert!(!cell(&draws, 2, 1).unwrap().focused);
}

#[test]
fn tiled_split_borders_do_not_draw_over_stack_bars_or_the_summary_row() {
    // A 50/50 vertical divider running down column 10, straight through the
    // columns the centred popup and its stack bars occupy.
    let infos = vec![
        bordered(60, Rect::new(0, 0, 10, 12), Borders { top: true, right: false, bottom: true, left: true }, false),
        bordered(61, Rect::new(10, 0, 10, 12), Borders::all(), false),
        bordered(63, Rect::new(2, 4, 16, 6), Borders::all(), true),
    ];
    let floats = [PaneId::from_raw(62), PaneId::from_raw(63)];
    let splits = vec![split(10, Direction::Horizontal, Rect::new(0, 0, 20, 12), vec![])];
    let bars = vec![
        StackBar { rect: Rect::new(2, 2, 16, 1), kind: StackBarKind::Summary { count: 2 } },
        StackBar { rect: Rect::new(2, 3, 16, 1), kind: StackBarKind::Pane(PaneId::from_raw(62)) },
    ];
    let draws = pane_border_draws(&infos, &floats, &splits, &bars, Rect::new(0, 0, 20, 12), true, false);

    // The divider is real: it draws above the stack and below the popup.
    assert_eq!(symbol(&draws, 10, 1), "│");
    assert_eq!(symbol(&draws, 10, 10), "│");
    // ...but never inside it, on the summary row or on a real bar row.
    for y in 2..=3 {
        assert_ne!(symbol(&draws, 10, y), "│", "tiled divider punched through stack row {y}");
    }
}

#[test]
fn render_pane_borders_does_not_draw_over_a_collapsed_stack_bar() {
    let infos = vec![
        bordered(90, Rect::new(0, 0, 20, 9), Borders { top: true, right: true, bottom: false, left: true }, true),
        // Chrome hands a collapsed bar the same full border set as any
        // bordered pane; the border cells must leave its row alone.
        bordered(91, Rect::new(0, 9, 20, 1), Borders::all(), false),
    ];
    let draws = pane_border_draws(&infos, &[], &[], &[], Rect::new(0, 0, 20, 10), true, false);

    assert!(draws.iter().all(|d| d.y != 9), "a border cell was drawn over the bar row");
    assert_eq!(symbol(&draws, 0, 0), "┌");
    assert_eq!(symbol(&draws, 19, 0), "┐");
    assert_eq!(symbol(&draws, 0, 8), "│");
}

#[test]
fn float_rect_unions_the_popup_with_every_stack_bar_including_the_summary_row() {
    let infos = vec![bordered(2, Rect::new(5, 4, 20, 6), Borders::all(), true)];
    let floats = [PaneId::from_raw(1), PaneId::from_raw(2)];
    let bars = vec![
        StackBar { rect: Rect::new(5, 2, 20, 1), kind: StackBarKind::Summary { count: 2 } },
        StackBar { rect: Rect::new(5, 3, 20, 1), kind: StackBarKind::Pane(PaneId::from_raw(1)) },
    ];
    assert_eq!(float_rect(&infos, &floats, &bars), Some(Rect::new(5, 2, 20, 8)));
    assert_eq!(float_rect(&infos, &[], &[]), None);
}

#[test]
fn nothing_is_drawn_without_pane_borders() {
    let (infos, splits) = quad(true);
    assert!(pane_border_draws(&infos, &[], &splits, &[], Rect::new(0, 0, 4, 4), false, false).is_empty());
    let bare = vec![bordered(1, Rect::new(0, 0, 4, 4), Borders::none(), true)];
    assert!(pane_border_draws(&bare, &[], &[], &[], Rect::new(0, 0, 4, 4), true, false).is_empty());
}

#[test]
fn border_cells_outside_the_area_are_not_drawn() {
    let infos = vec![bordered(1, Rect::new(0, 0, 6, 4), Borders::all(), false)];
    let draws = pane_border_draws(&infos, &[], &[], &[], Rect::new(0, 0, 3, 4), true, false);
    assert!(draws.iter().all(|d| d.x < 3));
    assert_eq!(symbol(&draws, 0, 0), "┌");
    assert_eq!(symbol(&draws, 1, 0), "─");
    assert_eq!(symbol(&draws, 0, 3), "└");
    // Each cell is drawn once.
    let mut seen: Vec<(u16, u16)> = draws.iter().map(|d| (d.x, d.y)).collect();
    seen.sort();
    seen.dedup();
    assert_eq!(seen.len(), draws.len());
}

fn labels(names: &[&str]) -> Vec<Option<String>> {
    names.iter().map(|n| if n.is_empty() { None } else { Some(n.to_string()) }).collect()
}

#[test]
fn pane_border_renderer_places_adjacent_cjk_by_display_width() {
    let infos = vec![bordered(1, Rect::new(0, 0, 12, 3), Borders::all(), false)];
    let titles = pane_border_titles(&infos, &labels(&["1 模块组织（已定）"]), &[], &[], Rect::new(0, 0, 12, 3));

    assert_eq!(titles.len(), 1);
    let title = &titles[0];
    assert_eq!((title.x, title.y, title.max_width), (1, 0, 10));
    // Lay the title out cell by cell, each character taking its display width.
    let mut cells: Vec<(u16, char)> = Vec::new();
    let mut x = title.x;
    for ch in title.text.chars() {
        cells.push((x, ch));
        x += ratatui::text::Span::raw(ch.to_string()).width() as u16;
    }
    assert!(cells.contains(&(4, '模')));
    assert!(!cells.iter().any(|(cx, _)| *cx == 5), "the wide character covers column 5");
    assert!(cells.contains(&(6, '块')));
}

#[test]
fn titles_skip_narrow_collapsed_and_unlabelled_panes() {
    let infos = vec![
        bordered(1, Rect::new(0, 0, 4, 5), Borders::all(), false),
        bordered(2, Rect::new(4, 0, 20, 1), Borders::all(), false),
        bordered(3, Rect::new(4, 1, 20, 4), Borders::all(), true),
        bordered(4, Rect::new(24, 0, 20, 5), Borders::all(), false),
        bordered(5, Rect::new(44, 0, 20, 5), Borders { top: false, right: true, bottom: true, left: true }, false),
    ];
    let titles = pane_border_titles(&infos, &labels(&["narrow", "bar", "shell", "", "no top"]), &[], &[], Rect::new(0, 0, 80, 10));

    assert_eq!(titles.len(), 1);
    assert_eq!(titles[0].text, " shell ");
    assert_eq!((titles[0].x, titles[0].y, titles[0].max_width), (5, 1, 18));
    assert!(titles[0].focused);
}

#[test]
fn titles_give_way_to_the_float_layer_and_stop_at_the_area_edge() {
    let infos = vec![
        bordered(1, Rect::new(0, 0, 20, 10), Borders::all(), false),
        bordered(2, Rect::new(20, 0, 20, 10), Borders::all(), false),
        bordered(9, Rect::new(5, 0, 10, 5), Borders::all(), true),
    ];
    let floats = [PaneId::from_raw(9)];
    let titles = pane_border_titles(&infos, &labels(&["left", "right", "float"]), &floats, &[], Rect::new(0, 0, 30, 10));

    // The left pane's title row runs under the float; the float keeps its own.
    assert_eq!(titles.len(), 2);
    assert_eq!(titles[0].text, " right ");
    assert_eq!((titles[0].x, titles[0].max_width), (21, 9));
    assert_eq!(titles[1].text, " float ");
    assert_eq!((titles[1].x, titles[1].max_width), (6, 8));
    // Labels past the end of the list count as missing.
    assert!(pane_border_titles(&infos, &[], &floats, &[], Rect::new(0, 0, 30, 10)).is_empty());
}

#[test]
fn titles_give_way_to_a_tiled_stack_bar() {
    // A fold before the active member borrows the active member's top row
    // for its summary, so the active member's title gives way to it.
    let infos = vec![
        bordered(2, Rect::new(0, 0, 20, 0), Borders::all(), false),
        bordered(1, Rect::new(0, 0, 20, 4), Borders::all(), true),
    ];
    let bars = tiled_stack_bars(&infos, &[]);
    assert_eq!(bars.len(), 1);
    assert_eq!(bars[0].rect, Rect::new(0, 0, 20, 1));
    assert!(pane_border_titles(&infos, &labels(&["folded", "active"]), &[], &[], Rect::new(0, 0, 20, 4)).is_empty());
    // Passed as the float layer's bars, the same row hides a tiled title too.
    let tiled = vec![bordered(1, Rect::new(0, 0, 20, 4), Borders::all(), true)];
    assert_eq!(pane_border_titles(&tiled, &labels(&["active"]), &[], &bars, Rect::new(0, 0, 20, 4)).len(), 0);
}
