//! Copy-mode search highlights: which rows of a pane's scrollback are on
//! screen, which of the search's matches fall in them and are still
//! current, and the cells each such match lights up.

use vstd::prelude::*;

use crate::geometry::{sat_add_u16, sat_sub_u16, Rect};

verus! {

/// A position in a terminal's text: an absolute row of the scrollback and
/// a column.
#[derive(Debug, Clone, Copy, PartialEq, Eq, Structural)]
pub struct TextPoint {
    pub row: u32,
    pub col: u16,
}

/// One search match, from its first cell to its last, both included.
#[derive(Debug, Clone, Copy, PartialEq, Eq, Structural)]
pub struct TextMatch {
    pub start: TextPoint,
    pub end: TextPoint,
}

/// The cells of one screen row lit by a match: columns `from_col` through
/// `to_col` of the pane's content, on screen row `y`. A run whose
/// `from_col` is past its `to_col` lights nothing.
#[derive(Debug, Clone, Copy, PartialEq, Eq, Structural)]
pub struct HighlightRun {
    pub y: u16,
    pub from_col: u16,
    pub to_col: u16,
}

/// The absolute rows shown by a pane `inner_height` rows high, scrolled
/// back `offset_from_bottom` rows of `max_offset_from_bottom`: the top row,
/// kept within `u32`, and the bottom row.
pub open spec fn spec_search_window(max_offset_from_bottom: usize, offset_from_bottom: usize, inner_height: u16) -> (
    u32,
    u32,
) {
    let back = if max_offset_from_bottom >= offset_from_bottom {
        max_offset_from_bottom - offset_from_bottom
    } else {
        0
    };
    let top: u32 = if back > u32::MAX { u32::MAX } else { back as u32 };
    let below = sat_sub_u16(inner_height as int, 1) as int;
    let bottom: u32 = if top + below > u32::MAX { u32::MAX } else { (top + below) as u32 };
    (top, bottom)
}

/// The absolute rows a pane shows of its scrollback, top and bottom.
pub fn search_window(max_offset_from_bottom: usize, offset_from_bottom: usize, inner_height: u16) -> (r: (u32, u32))
    ensures
        r == spec_search_window(max_offset_from_bottom, offset_from_bottom, inner_height),
{
    let back = max_offset_from_bottom.saturating_sub(offset_from_bottom);
    let top: u32 = if back > 4294967295usize as usize { 4294967295u32 } else { back as u32 };
    let below: u32 = inner_height.saturating_sub(1) as u32;
    (top, top.saturating_add(below))
}

/// The matches are in order for a window from `top` to `bottom`: those
/// that end above the window come first, and among the rest those that
/// start by the bottom come first, as matches listed in text order are.
pub open spec fn ordered_for_window(matches: Seq<TextMatch>, top: u32, bottom: u32) -> bool {
    &&& forall|i: int, j: int|
        0 <= i < j < matches.len() && #[trigger] matches[j].end.row < top ==> #[trigger] matches[i].end.row < top
    &&& forall|i: int, j: int|
        0 <= i < j < matches.len() && #[trigger] matches[i].end.row >= top && #[trigger] matches[j].start.row <= bottom
            ==> matches[i].start.row <= bottom
}

/// `first` and `len` delimit the matches shown in the window: the first
/// `first` matches end above it, and the next `len` are the ones that
/// start by its bottom.
pub open spec fn window_matches(matches: Seq<TextMatch>, top: u32, bottom: u32, first: int, len: int) -> bool {
    &&& 0 <= first && 0 <= len && first + len <= matches.len()
    &&& forall|i: int| 0 <= i < first ==> (#[trigger] matches[i]).end.row < top
    &&& forall|i: int| first <= i < matches.len() ==> (#[trigger] matches[i]).end.row >= top
    &&& forall|i: int| first <= i < first + len ==> (#[trigger] matches[i]).start.row <= bottom
    &&& forall|i: int| first + len <= i < matches.len() ==> (#[trigger] matches[i]).start.row > bottom
}

/// Where the matches shown in the window from `top` to `bottom` start in
/// `matches`, and how many there are.
pub fn visible_match_range(matches: &[TextMatch], top: u32, bottom: u32) -> (r: (usize, usize))
    requires
        ordered_for_window(matches@, top, bottom),
    ensures
        window_matches(matches@, top, bottom, r.0 as int, r.1 as int),
{
    let mut lo: usize = 0;
    let mut hi: usize = matches.len();
    while lo < hi
        invariant
            lo <= hi <= matches@.len(),
            ordered_for_window(matches@, top, bottom),
            forall|i: int| 0 <= i < lo ==> (#[trigger] matches@[i]).end.row < top,
            forall|i: int| hi <= i < matches@.len() ==> (#[trigger] matches@[i]).end.row >= top,
        decreases hi - lo,
    {
        let mid = lo + (hi - lo) / 2;
        if matches[mid].end.row < top {
            proof {
                assert forall|i: int| 0 <= i < mid + 1 implies (#[trigger] matches@[i]).end.row < top by {
                    if i < mid {
                        assert(matches@[mid as int].end.row < top);
                    }
                }
            }
            lo = mid + 1;
        } else {
            hi = mid;
        }
    }
    let first = lo;
    let mut lo: usize = first;
    let mut hi: usize = matches.len();
    while lo < hi
        invariant
            first <= lo <= hi <= matches@.len(),
            ordered_for_window(matches@, top, bottom),
            forall|i: int| first <= i < matches@.len() ==> (#[trigger] matches@[i]).end.row >= top,
            forall|i: int| first <= i < lo ==> (#[trigger] matches@[i]).start.row <= bottom,
            forall|i: int| hi <= i < matches@.len() ==> (#[trigger] matches@[i]).start.row > bottom,
        decreases hi - lo,
    {
        let mid = lo + (hi - lo) / 2;
        if matches[mid].start.row <= bottom {
            proof {
                assert forall|i: int| first <= i < mid + 1 implies (#[trigger] matches@[i]).start.row <= bottom by {
                    if i < mid {
                        assert(matches@[i].end.row >= top);
                        assert(matches@[mid as int].start.row <= bottom);
                    }
                }
            }
            lo = mid + 1;
        } else {
            hi = mid;
        }
    }
    (first, lo - first)
}

/// The candidates still current, each with its index among all the
/// search's matches: `validity` says, index-aligned, whether each is still
/// current, and a candidate past its end is dropped.
pub open spec fn current_upto(candidates: Seq<TextMatch>, first: int, validity: Seq<bool>, n: nat) -> Seq<(usize, TextMatch)>
    decreases n,
{
    if n == 0 {
        Seq::empty()
    } else {
        let prev = current_upto(candidates, first, validity, (n - 1) as nat);
        let k = n - 1;
        if k < validity.len() && validity[k] {
            prev.push(((first + k) as usize, candidates[k]))
        } else {
            prev
        }
    }
}

/// The matches of the window that are still current, each with its index
/// among all the search's matches. `candidates` are the window's matches,
/// which start at index `first`; `validity` says, index-aligned, whether
/// each still matches the text on screen.
pub fn current_matches(candidates: &[TextMatch], first: usize, validity: &[bool]) -> (r: Vec<(usize, TextMatch)>)
    requires
        first + candidates@.len() <= usize::MAX,
    ensures
        r@ == current_upto(candidates@, first as int, validity@, candidates@.len()),
{
    let mut out: Vec<(usize, TextMatch)> = Vec::new();
    let mut k: usize = 0;
    while k < candidates.len()
        invariant
            k <= candidates@.len(),
            first + candidates@.len() <= usize::MAX,
            out@ == current_upto(candidates@, first as int, validity@, k as nat),
        decreases candidates@.len() - k,
    {
        if k < validity.len() && validity[k] {
            out.push((first + k, candidates[k]));
        }
        k += 1;
    }
    out
}

/// The run a match lights on absolute row `row` of the window from `top`:
/// from its start column on its first row (else the left edge) to its end
/// column on its last row (else the right edge), cut to the pane's width.
pub open spec fn run_for_row(m: TextMatch, row: int, top: u32, inner: Rect) -> HighlightRun {
    let last_col = sat_sub_u16(inner.width as int, 1);
    let end_col = if row == m.end.row { m.end.col } else { last_col };
    HighlightRun {
        y: sat_add_u16(inner.y as int, row - top),
        from_col: if row == m.start.row { m.start.col } else { 0 },
        to_col: if end_col < last_col { end_col } else { last_col },
    }
}

/// The first row of the window from `top` that a match covers.
pub open spec fn first_row(m: TextMatch, top: u32) -> int {
    if m.start.row > top { m.start.row as int } else { top as int }
}

/// How many rows of the window from `top` to `bottom` a match covers.
pub open spec fn rows_covered(m: TextMatch, top: u32, bottom: u32) -> nat {
    let end_row: int = if m.end.row < bottom { m.end.row as int } else { bottom as int };
    if end_row >= first_row(m, top) { (end_row - first_row(m, top) + 1) as nat } else { 0 }
}

/// The runs a match lights in the window from `top` to `bottom`, one per
/// row it covers there, top to bottom.
pub open spec fn runs_of(m: TextMatch, top: u32, bottom: u32, inner: Rect) -> Seq<HighlightRun> {
    Seq::new(rows_covered(m, top, bottom), |k: int| run_for_row(m, first_row(m, top) + k, top, inner))
}

/// Whether a match is drawn in this pass: the pass for the current match
/// draws only it, the other pass every match but it.
pub open spec fn drawn_in_pass(index: usize, current: Option<usize>, current_only: bool) -> bool {
    (current == Some(index)) == current_only
}

/// The runs lit by the first `n` matches drawn in this pass, in order.
pub open spec fn runs_upto(
    matches: Seq<(usize, TextMatch)>,
    top: u32,
    bottom: u32,
    inner: Rect,
    current: Option<usize>,
    current_only: bool,
    n: nat,
) -> Seq<HighlightRun>
    decreases n,
{
    if n == 0 {
        Seq::empty()
    } else {
        let prev = runs_upto(matches, top, bottom, inner, current, current_only, (n - 1) as nat);
        let (index, m) = matches[n - 1];
        if drawn_in_pass(index, current, current_only) {
            prev + runs_of(m, top, bottom, inner)
        } else {
            prev
        }
    }
}

/// The cells a pass of the search highlight lights in a pane whose content
/// is `inner`, showing absolute rows `top` through `bottom` (at most one
/// screen of rows, as `search_window` gives). One pass draws the current
/// match (`current_only`), the other every other match.
pub fn highlight_runs(
    matches: &[(usize, TextMatch)],
    top: u32,
    bottom: u32,
    inner: Rect,
    current: Option<usize>,
    current_only: bool,
) -> (r: Vec<HighlightRun>)
    requires
        bottom <= top + 65535,
    ensures
        r@ == runs_upto(matches@, top, bottom, inner, current, current_only, matches@.len()),
{
    let mut out: Vec<HighlightRun> = Vec::new();
    let mut i: usize = 0;
    let last_col = inner.width.saturating_sub(1);
    while i < matches.len()
        invariant
            i <= matches@.len(),
            bottom <= top + 65535,
            last_col == sat_sub_u16(inner.width as int, 1),
            out@ == runs_upto(matches@, top, bottom, inner, current, current_only, i as nat),
        decreases matches@.len() - i,
    {
        let (index, m) = matches[i];
        let drawn = match current {
            Some(c) => c == index,
            None => false,
        } == current_only;
        if drawn {
            let start_row: u32 = if m.start.row > top { m.start.row } else { top };
            let end_row: u32 = if m.end.row < bottom { m.end.row } else { bottom };
            let ghost runs = runs_of(m, top, bottom, inner);
            let ghost before = out@;
            if start_row <= end_row {
                let rows: u32 = end_row - start_row + 1;
                let mut k: u32 = 0;
                while k < rows
                    invariant
                        k <= rows,
                        rows == end_row - start_row + 1,
                        start_row == first_row(m, top),
                        start_row >= top,
                        end_row <= bottom,
                        bottom <= top + 65535,
                        runs == runs_of(m, top, bottom, inner),
                        runs.len() == rows,
                        last_col == sat_sub_u16(inner.width as int, 1),
                        out@ == before + runs.subrange(0, k as int),
                    decreases rows - k,
                {
                    let row = start_row + k;
                    let end_col = if row == m.end.row { m.end.col } else { last_col };
                    let run = HighlightRun {
                        y: inner.y.saturating_add((row - top) as u16),
                        from_col: if row == m.start.row { m.start.col } else { 0 },
                        to_col: if end_col < last_col { end_col } else { last_col },
                    };
                    assert(start_row == first_row(m, top));
                    assert(runs[k as int] == run_for_row(m, first_row(m, top) + k, top, inner));
                    assert((row - top) as u16 == row - top);
                    assert(run == runs[k as int]);
                    out.push(run);
                    k += 1;
                    assert(out@ =~= before + runs.subrange(0, k as int));
                }
                assert(runs.subrange(0, rows as int) =~= runs);
            } else {
                assert(runs =~= Seq::<HighlightRun>::empty());
                assert(out@ =~= before + runs);
            }
        }
        i += 1;
    }
    out
}

/// Whether a run stays inside the content `inner`: on one of its rows, and
/// ending on one of its columns.
pub open spec fn run_inside(run: HighlightRun, inner: Rect) -> bool {
    inner.y <= run.y < inner.y + inner.height && run.to_col < inner.width
}

proof fn lemma_runs_of_inside(m: TextMatch, top: u32, bottom: u32, inner: Rect)
    requires
        inner.wf(),
        inner.height > 0,
        inner.width > 0,
        bottom <= top + inner.height - 1,
    ensures
        forall|k: int| 0 <= k < runs_of(m, top, bottom, inner).len() ==> run_inside(#[trigger] runs_of(m, top, bottom, inner)[k], inner),
{
    let runs = runs_of(m, top, bottom, inner);
    assert forall|k: int| 0 <= k < runs.len() implies run_inside(#[trigger] runs[k], inner) by {
        assert(runs[k] == run_for_row(m, first_row(m, top) + k, top, inner));
    }
}

proof fn lemma_runs_upto_inside(
    matches: Seq<(usize, TextMatch)>,
    top: u32,
    bottom: u32,
    inner: Rect,
    current: Option<usize>,
    current_only: bool,
    n: nat,
)
    requires
        inner.wf(),
        inner.height > 0,
        inner.width > 0,
        bottom <= top + inner.height - 1,
        n <= matches.len(),
    ensures
        forall|k: int|
            0 <= k < runs_upto(matches, top, bottom, inner, current, current_only, n).len() ==> run_inside(
                #[trigger] runs_upto(matches, top, bottom, inner, current, current_only, n)[k],
                inner,
            ),
    decreases n,
{
    if n > 0 {
        lemma_runs_upto_inside(matches, top, bottom, inner, current, current_only, (n - 1) as nat);
        let prev = runs_upto(matches, top, bottom, inner, current, current_only, (n - 1) as nat);
        let (index, m) = matches[n - 1];
        lemma_runs_of_inside(m, top, bottom, inner);
        let all = runs_upto(matches, top, bottom, inner, current, current_only, n);
        assert forall|k: int| 0 <= k < all.len() implies run_inside(#[trigger] all[k], inner) by {
            if drawn_in_pass(index, current, current_only) {
                if k >= prev.len() {
                    assert(all[k] == runs_of(m, top, bottom, inner)[k - prev.len()]);
                } else {
                    assert(all[k] == prev[k]);
                }
            }
        }
    }
}

/// A search highlight never lights a cell outside the pane's content: for
/// the window `search_window` gives for the content's height, every run
/// lies on one of the content's rows and ends on one of its columns.
pub proof fn lemma_highlights_stay_in_the_pane(
    matches: Seq<(usize, TextMatch)>,
    max_offset_from_bottom: usize,
    offset_from_bottom: usize,
    inner: Rect,
    current: Option<usize>,
    current_only: bool,
)
    requires
        inner.wf(),
        inner.height > 0,
        inner.width > 0,
    ensures
        ({
            let (top, bottom) = spec_search_window(max_offset_from_bottom, offset_from_bottom, inner.height);
            let runs = runs_upto(matches, top, bottom, inner, current, current_only, matches.len());
            forall|k: int| 0 <= k < runs.len() ==> run_inside(#[trigger] runs[k], inner)
        }),
{
    let (top, bottom) = spec_search_window(max_offset_from_bottom, offset_from_bottom, inner.height);
    lemma_runs_upto_inside(matches, top, bottom, inner, current, current_only, matches.len());
}

} // verus!
