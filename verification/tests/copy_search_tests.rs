use herdr_layout::copy_search::{
    current_matches, highlight_runs, search_window, visible_match_range, HighlightRun, TextMatch, TextPoint,
};
use herdr_layout::geometry::Rect;

fn m(start_row: u32, start_col: u16, end_row: u32, end_col: u16) -> TextMatch {
    TextMatch { start: TextPoint { row: start_row, col: start_col }, end: TextPoint { row: end_row, col: end_col } }
}

#[test]
fn the_window_follows_the_scroll_position() {
    // 100 rows of scrollback, at the bottom: rows 100 to 109 of a 10-row pane.
    assert_eq!(search_window(100, 0, 10), (100, 109));
    // Scrolled back 30 rows.
    assert_eq!(search_window(100, 30, 10), (70, 79));
    // An offset past the maximum clamps to the top; an empty pane shows one row.
    assert_eq!(search_window(100, 150, 0), (0, 0));
    assert_eq!(search_window(usize::MAX, 0, 5), (u32::MAX, u32::MAX));
}

#[test]
fn only_matches_inside_the_window_are_candidates() {
    let matches = [m(1, 0, 1, 3), m(5, 2, 5, 4), m(8, 6, 9, 1), m(12, 0, 12, 2), m(20, 0, 20, 1)];
    assert_eq!(visible_match_range(&matches, 5, 12), (1, 3));
    assert_eq!(visible_match_range(&matches, 9, 11), (2, 1));
    assert_eq!(visible_match_range(&matches, 30, 40), (5, 0));
    assert_eq!(visible_match_range(&[], 0, 10), (0, 0));
}

#[test]
fn stale_candidates_are_dropped_and_indices_kept() {
    let candidates = [m(5, 2, 5, 4), m(8, 6, 9, 1), m(12, 0, 12, 2)];
    let kept = current_matches(&candidates, 1, &[true, false, true]);
    assert_eq!(kept, vec![(1, candidates[0]), (3, candidates[2])]);
    // A candidate the validity list does not reach is dropped too.
    assert_eq!(current_matches(&candidates, 1, &[true]), vec![(1, candidates[0])]);
}

#[test]
fn a_match_lights_each_row_it_covers() {
    let inner = Rect::new(1, 1, 10, 5);
    // Window rows 100..=104; a match from (101, 7) to (103, 2).
    let matches = [(4, m(101, 7, 103, 2))];
    let runs = highlight_runs(&matches, 100, 104, inner, None, false);
    assert_eq!(
        runs,
        vec![
            HighlightRun { y: 2, from_col: 7, to_col: 9 },
            HighlightRun { y: 3, from_col: 0, to_col: 9 },
            HighlightRun { y: 4, from_col: 0, to_col: 2 },
        ]
    );
    // Cut at the window's edges.
    let runs = highlight_runs(&[(0, m(98, 3, 100, 4))], 100, 104, inner, None, false);
    assert_eq!(runs, vec![HighlightRun { y: 1, from_col: 0, to_col: 4 }]);
}

#[test]
fn the_current_match_is_drawn_in_its_own_pass() {
    let inner = Rect::new(0, 0, 20, 3);
    let matches = [(2, m(10, 0, 10, 1)), (3, m(11, 4, 11, 6))];
    let others = highlight_runs(&matches, 10, 12, inner, Some(3), false);
    assert_eq!(others, vec![HighlightRun { y: 0, from_col: 0, to_col: 1 }]);
    let current = highlight_runs(&matches, 10, 12, inner, Some(3), true);
    assert_eq!(current, vec![HighlightRun { y: 1, from_col: 4, to_col: 6 }]);
    assert!(highlight_runs(&matches, 10, 12, inner, None, true).is_empty());
}
