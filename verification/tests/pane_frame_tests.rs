use herdr_layout::geometry::{Borders, Rect};
use herdr_layout::layout::{PaneId, PaneInfo};
use herdr_layout::pane_frame::{pane_content_draws, pane_resizes, stack_bars_to_draw, ContentDraw, PaneResize};
use herdr_layout::popup_size::{StackBar, StackBarKind};

fn pane(id: u32, rect: Rect, inner: Rect, is_focused: bool) -> PaneInfo {
    PaneInfo { id: PaneId::from_raw(id), rect, inner_rect: inner, scrollbar_rect: None, borders: Borders::all(), is_focused }
}

#[test]
fn the_active_stack_member_draws_content_and_the_collapsed_one_a_bar() {
    let infos = vec![
        pane(70, Rect::new(0, 0, 30, 9), Rect::new(1, 1, 28, 7), true),
        pane(71, Rect::new(0, 9, 30, 1), Rect::new(0, 9, 30, 1), false),
    ];
    let draws = pane_content_draws(&infos, &[], &[true, true], &[true, true], true, true);
    assert_eq!(
        draws,
        vec![ContentDraw {
            id: PaneId::from_raw(70),
            inner_rect: Rect::new(1, 1, 28, 7),
            show_cursor: true,
            dim: false,
            float: false,
        }]
    );
    let bars = stack_bars_to_draw(&infos, &[], &[]);
    assert_eq!(bars, vec![StackBar { rect: Rect::new(0, 9, 30, 1), kind: StackBarKind::Pane(PaneId::from_raw(71)) }]);
}

#[test]
fn floats_draw_after_the_tiled_panes_and_are_never_dimmed() {
    let infos = vec![
        pane(9, Rect::new(10, 5, 20, 8), Rect::new(11, 6, 18, 6), false),
        pane(1, Rect::new(0, 0, 40, 20), Rect::new(1, 1, 38, 18), true),
        pane(2, Rect::new(40, 0, 40, 20), Rect::new(41, 1, 38, 18), false),
    ];
    let floats = [PaneId::from_raw(9)];
    let draws = pane_content_draws(&infos, &floats, &[true, true, true], &[true, false, true], true, false);
    let order: Vec<u32> = draws.iter().map(|d| d.id.0).collect();
    assert_eq!(order, vec![1, 2, 9]);
    // Outside terminal mode nobody shows the cursor and the unfocused tiled
    // pane is dimmed; the float is not.
    assert!(draws.iter().all(|d| !d.show_cursor));
    assert!(!draws[0].dim && draws[1].dim && !draws[2].dim);
    assert!(draws[2].float);
}

#[test]
fn panes_without_a_terminal_or_a_cursor_flag_are_handled() {
    let infos = vec![
        pane(1, Rect::new(0, 0, 40, 20), Rect::new(1, 1, 38, 18), true),
        pane(2, Rect::new(40, 0, 40, 20), Rect::new(41, 1, 38, 18), false),
    ];
    // The second pane has no terminal; the focused one may not show the
    // cursor (flags past the end count as unset).
    let draws = pane_content_draws(&infos, &[], &[true], &[], false, true);
    assert_eq!(draws.len(), 1);
    assert_eq!(draws[0].id, PaneId::from_raw(1));
    assert!(!draws[0].show_cursor);
    assert!(!draws[0].dim);
}

#[test]
fn bars_draw_the_float_layer_first_then_tiled_then_stacked_floats() {
    let infos = vec![
        pane(1, Rect::new(0, 0, 40, 9), Rect::new(1, 1, 38, 7), true),
        pane(2, Rect::new(0, 9, 40, 1), Rect::new(0, 9, 40, 1), false),
        pane(8, Rect::new(10, 2, 20, 1), Rect::new(10, 2, 20, 1), false),
        pane(9, Rect::new(10, 3, 20, 5), Rect::new(11, 4, 18, 3), true),
    ];
    let floats = [PaneId::from_raw(8), PaneId::from_raw(9)];
    let layer = [StackBar { rect: Rect::new(10, 1, 20, 1), kind: StackBarKind::Summary { count: 3 } }];
    let bars = stack_bars_to_draw(&infos, &floats, &layer);
    assert_eq!(
        bars,
        vec![
            layer[0],
            StackBar { rect: Rect::new(0, 9, 40, 1), kind: StackBarKind::Pane(PaneId::from_raw(2)) },
            StackBar { rect: Rect::new(10, 2, 20, 1), kind: StackBarKind::Pane(PaneId::from_raw(8)) },
        ]
    );
}

#[test]
fn terminals_are_resized_to_their_content_unless_held_or_collapsed() {
    let infos = vec![
        pane(1, Rect::new(0, 0, 40, 20), Rect::new(1, 1, 37, 18), true),
        pane(2, Rect::new(40, 0, 40, 20), Rect::new(41, 1, 38, 18), false),
        pane(8, Rect::new(10, 2, 20, 1), Rect::new(10, 2, 20, 1), false),
        pane(9, Rect::new(10, 3, 20, 8), Rect::new(11, 4, 18, 6), true),
    ];
    let floats = [PaneId::from_raw(8), PaneId::from_raw(9)];
    let resizes = pane_resizes(&infos, &floats, &[true, true, true, true], &[false, true, true, true]);
    assert_eq!(
        resizes,
        vec![
            PaneResize { id: PaneId::from_raw(1), rows: 18, cols: 37 },
            PaneResize { id: PaneId::from_raw(9), rows: 6, cols: 18 },
        ]
    );
    assert!(pane_resizes(&infos, &floats, &[], &[]).is_empty());
}
