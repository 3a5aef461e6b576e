//! Popup sizes given in cells or percent, where a popup lands in the
//! terminal, and the preview rows stacked above a floating pane.

use vstd::prelude::*;

use crate::geometry::{rect_new, sat_add_u16, sat_sub_u16, Rect};
use crate::layout::PaneId;
use crate::text::{parse_unsigned, parse_unsigned_chars, str_chars};

verus! {

/// A popup's outer size along one axis: a number of cells, or a percentage
/// of the space available.
#[derive(Debug, Clone, Copy, PartialEq, Eq, Structural)]
pub enum PopupSize {
    Cells(u16),
    Percent(u8),
}

/// The message for text that is neither a cell count nor a percentage.
pub open spec fn size_syntax_message() -> Seq<char> {
    "must be a number of cells or a percentage like 80%"@
}

/// The message for a percentage outside 1% to 100%.
pub open spec fn percent_range_message() -> Seq<char> {
    "percentage must be between 1% and 100%"@
}

/// The message for a string size that is not a percentage.
pub open spec fn string_size_message() -> Seq<char> {
    "string sizes must be percentages like 80%; use a number for cells"@
}

/// What `PopupSize::parse_cli` gives for the text `v`.
pub open spec fn spec_parse_cli(v: Seq<char>) -> Result<PopupSize, Seq<char>> {
    if v.len() > 0 && v.last() == '%' {
        match parse_unsigned(v.drop_last(), 255) {
            None => Err(size_syntax_message()),
            Some(p) => if 1 <= p && p <= 100 {
                Ok(PopupSize::Percent(p as u8))
            } else {
                Err(percent_range_message())
            },
        }
    } else {
        match parse_unsigned(v, 65535) {
            Some(c) => Ok(PopupSize::Cells(c as u16)),
            None => Err(size_syntax_message()),
        }
    }
}

/// What `PopupSize::parse_percent_string` gives for the text `v`.
pub open spec fn spec_parse_percent_string(v: Seq<char>) -> Result<PopupSize, Seq<char>> {
    if v.len() > 0 && v.last() == '%' {
        spec_parse_cli(v)
    } else {
        Err(string_size_message())
    }
}

/// Whether a parse result matches what the spec says, with the error
/// text taken by its characters.
pub open spec fn parsed_as(r: Result<PopupSize, String>, expected: Result<PopupSize, Seq<char>>) -> bool {
    match r {
        Ok(p) => expected == Ok::<PopupSize, Seq<char>>(p),
        Err(e) => expected == Err::<PopupSize, Seq<char>>(e@),
    }
}

impl PopupSize {
    /// The size in cells out of `available` cells. A percentage rounds down.
    pub open spec fn spec_resolve(self, available: u16) -> u16 {
        match self {
            PopupSize::Cells(cells) => cells,
            PopupSize::Percent(percent) => ((available as int * percent as int) / 100) as u16,
        }
    }

    pub fn resolve(self, available: u16) -> (r: u16)
        ensures
            r == self.spec_resolve(available),
    {
        match self {
            PopupSize::Cells(cells) => cells,
            PopupSize::Percent(percent) => {
                assert(available as u32 * percent as u32 <= 65535 * 255) by (nonlinear_arith);
                ((available as u32 * percent as u32) / 100) as u16
            },
        }
    }

    /// Parse a size from the command line: `80%` for a percentage from 1% to
    /// 100%, or a plain number of cells.
    pub fn parse_cli(value: &str) -> (r: Result<PopupSize, String>)
        ensures
            parsed_as(r, spec_parse_cli(value@)),
    {
        let chars = str_chars(value);
        let n = chars.len();
        if n > 0 && chars[n - 1] == '%' {
            let (digits, _) = chars.as_slice().split_at(n - 1);
            assert(digits@ =~= value@.drop_last());
            return match parse_unsigned_chars(digits, 255) {
                None => Err(String::from_str("must be a number of cells or a percentage like 80%")),
                Some(p) => if 1 <= p && p <= 100 {
                    Ok(PopupSize::Percent(p as u8))
                } else {
                    Err(String::from_str("percentage must be between 1% and 100%"))
                },
            };
        }
        match parse_unsigned_chars(chars.as_slice(), 65535) {
            Some(c) => Ok(PopupSize::Cells(c as u16)),
            None => Err(String::from_str("must be a number of cells or a percentage like 80%")),
        }
    }

    /// Parse a size given as a string in a config file, where only
    /// percentages are accepted (a number of cells is written as a number).
    pub fn parse_percent_string(value: &str) -> (r: Result<PopupSize, String>)
        ensures
            parsed_as(r, spec_parse_percent_string(value@)),
    {
        let chars = str_chars(value);
        let n = chars.len();
        if n > 0 && chars[n - 1] == '%' {
            return PopupSize::parse_cli(value);
        }
        Err(String::from_str("string sizes must be percentages like 80%; use a number for cells"))
    }
}

/// Where a popup lands: its outer rectangle, border included, and the
/// terminal area inside it.
#[derive(Debug, Clone, Copy, PartialEq, Eq, Structural)]
pub struct PopupResolvedGeometry {
    pub outer: Rect,
    pub inner: Rect,
}

/// The smallest outer width and height a popup can have.
pub const MIN_POPUP_WIDTH: u16 = 6;

pub const MIN_POPUP_HEIGHT: u16 = 4;

/// The outer size along one axis: the requested size, or half of what is
/// available, at least `min` and at most `available`.
pub open spec fn outer_size(requested: Option<PopupSize>, available: u16, min: u16) -> u16 {
    let default = if available / 2 > min { available / 2 } else { min };
    let wanted = match requested {
        Some(size) => size.spec_resolve(available),
        None => default as u16,
    };
    let at_least = if wanted > min { wanted } else { min };
    if at_least < available { at_least } else { available }
}

/// The popup geometry for the requested sizes in `area`: centred, at least
/// the minimum size, and `None` when the area cannot hold that. The
/// terminal inside keeps one column free for a scrollbar when it is wider
/// than four columns.
pub open spec fn popup_geometry(width: Option<PopupSize>, height: Option<PopupSize>, area: Rect) -> Option<
    PopupResolvedGeometry,
> {
    let w = outer_size(width, area.width, MIN_POPUP_WIDTH);
    let h = outer_size(height, area.height, MIN_POPUP_HEIGHT);
    if w < MIN_POPUP_WIDTH || h < MIN_POPUP_HEIGHT {
        None
    } else {
        let x = (area.x + (area.width - w) / 2) as u16;
        let y = (area.y + (area.height - h) / 2) as u16;
        let inner_width = (w - 2) as u16;
        let inner_height = (h - 2) as u16;
        let cols = if inner_width <= 4 { inner_width } else { (inner_width - 1) as u16 };
        Some(PopupResolvedGeometry {
            outer: rect_new(x, y, w, h),
            inner: rect_new(sat_add_u16(x as int, 1), sat_add_u16(y as int, 1), cols, inner_height),
        })
    }
}

fn outer_size_exec(requested: Option<PopupSize>, available: u16, min: u16) -> (r: u16)
    ensures
        r == outer_size(requested, available, min),
{
    let half = available / 2;
    let default = if half > min { half } else { min };
    let wanted = match requested {
        Some(size) => size.resolve(available),
        None => default,
    };
    let at_least = if wanted > min { wanted } else { min };
    if at_least < available { at_least } else { available }
}

/// Where a popup of the requested outer sizes lands in `area`.
pub fn resolve_popup_geometry(width: Option<PopupSize>, height: Option<PopupSize>, area: Rect) -> (r: Option<
    PopupResolvedGeometry,
>)
    requires
        area.wf(),
    ensures
        r == popup_geometry(width, height, area),
        r is None <==> area.width < MIN_POPUP_WIDTH || area.height < MIN_POPUP_HEIGHT,
        // The popup fits the area, and its terminal sits inside its border.
        r is Some ==> {
            let g = r->0;
            &&& area.x <= g.outer.x && g.outer.x + g.outer.width <= area.x + area.width
            &&& area.y <= g.outer.y && g.outer.y + g.outer.height <= area.y + area.height
            &&& g.outer.width >= MIN_POPUP_WIDTH && g.outer.height >= MIN_POPUP_HEIGHT
            &&& g.inner.x == g.outer.x + 1 && g.inner.y == g.outer.y + 1
            &&& g.inner.width + 2 <= g.outer.width && g.inner.height + 2 == g.outer.height
        },
{
    let w = outer_size_exec(width, area.width, MIN_POPUP_WIDTH);
    let h = outer_size_exec(height, area.height, MIN_POPUP_HEIGHT);
    if w < MIN_POPUP_WIDTH || h < MIN_POPUP_HEIGHT {
        return None;
    }
    let x = area.x + (area.width - w) / 2;
    let y = area.y + (area.height - h) / 2;
    let inner_width = w - 2;
    let inner_height = h - 2;
    let cols = if inner_width <= 4 { inner_width } else { inner_width - 1 };
    let inner = Rect::new(x.saturating_add(1), y.saturating_add(1), cols, inner_height);
    Some(PopupResolvedGeometry { outer: Rect::new(x, y, w, h), inner })
}

/// Cap on preview rows drawn above a floating pane's stack, regardless of
/// how many floats are hidden or how much vertical space is free.
pub const MAX_STACK_PREVIEW_ROWS: u16 = 8;

/// What a single stack preview row represents.
#[derive(Debug, Clone, Copy, PartialEq, Eq, Structural)]
pub enum StackBarKind {
    /// A hidden float; clicking this row's rect brings it to the front.
    Pane(PaneId),
    /// Folds `count` further hidden floats that didn't fit as individual rows.
    Summary { count: usize },
}

/// One preview row above a floating pane.
#[derive(Debug, Clone, Copy, PartialEq, Eq, Structural)]
pub struct StackBar {
    pub rect: Rect,
    pub kind: StackBarKind,
}

/// A preview row for each of `ids`.
pub open spec fn pane_kinds(ids: Seq<PaneId>) -> Seq<StackBarKind> {
    ids.map_values(|id: PaneId| StackBarKind::Pane(id))
}

/// What the rows show when at most `max_bars` fit: every hidden float, or,
/// when they do not all fit, a summary of the oldest followed by the
/// newest `max_bars - 1`.
pub open spec fn stack_kinds(hidden: Seq<PaneId>, max_bars: nat) -> Seq<StackBarKind> {
    if hidden.len() <= max_bars {
        pane_kinds(hidden)
    } else {
        let shown = (max_bars - 1) as nat;
        seq![StackBarKind::Summary { count: (hidden.len() - shown) as usize }] + pane_kinds(
            hidden.subrange(hidden.len() - shown, hidden.len() as int),
        )
    }
}

/// How many rows fit between the top of `area` and the popup.
pub open spec fn stack_capacity(popup_outer: Rect, area: Rect) -> nat {
    let above = sat_sub_u16(popup_outer.y as int, area.y as int);
    if above < MAX_STACK_PREVIEW_ROWS { above as nat } else { MAX_STACK_PREVIEW_ROWS as nat }
}

/// The preview rows `stack_bar_rects` draws.
pub open spec fn stack_bars(hidden: Seq<PaneId>, popup_outer: Rect, area: Rect) -> Seq<StackBar> {
    let max_bars = stack_capacity(popup_outer, area);
    if hidden.len() == 0 || max_bars == 0 {
        Seq::empty()
    } else {
        let kinds = stack_kinds(hidden, max_bars);
        Seq::new(
            kinds.len(),
            |i: int|
                StackBar {
                    rect: rect_new(
                        popup_outer.x,
                        sat_sub_u16(popup_outer.y as int, kinds.len() - i),
                        popup_outer.width,
                        1,
                    ),
                    kind: kinds[i],
                },
        )
    }
}

/// How many hidden floats a row stands for.
pub open spec fn floats_counted(kinds: Seq<StackBarKind>) -> nat
    decreases kinds.len(),
{
    if kinds.len() == 0 {
        0
    } else {
        let here: nat = match kinds.last() {
            StackBarKind::Pane(_) => 1,
            StackBarKind::Summary { count } => count as nat,
        };
        floats_counted(kinds.drop_last()) + here
    }
}

/// One preview row per entry in `hidden`, stacked directly above
/// `popup_outer`, capped to the space between `area`'s top edge and the
/// popup and to `MAX_STACK_PREVIEW_ROWS`. `hidden` is ordered back-to-front
/// (oldest first); when not everything fits, the oldest floats are folded
/// into a single summary row at the top of the stack.
pub fn stack_bar_rects(hidden: &[PaneId], popup_outer: Rect, area: Rect) -> (r: Vec<StackBar>)
    ensures
        r@ == stack_bars(hidden@, popup_outer, area),
{
    if hidden.len() == 0 {
        return Vec::new();
    }
    let space_above = popup_outer.y.saturating_sub(area.y);
    let max_bars: usize = if space_above < MAX_STACK_PREVIEW_ROWS {
        space_above as usize
    } else {
        MAX_STACK_PREVIEW_ROWS as usize
    };
    if max_bars == 0 {
        return Vec::new();
    }
    let ghost kinds_spec = stack_kinds(hidden@, max_bars as nat);
    let mut kinds: Vec<StackBarKind> = Vec::new();
    let first: usize = if hidden.len() <= max_bars {
        0
    } else {
        let real_bars = max_bars - 1;
        let folded = hidden.len() - real_bars;
        kinds.push(StackBarKind::Summary { count: folded });
        hidden.len() - real_bars
    };
    let ghost lead = kinds@;
    let mut i: usize = first;
    while i < hidden.len()
        invariant
            first <= i <= hidden@.len(),
            kinds@ == lead + pane_kinds(hidden@.subrange(first as int, i as int)),
        decreases hidden@.len() - i,
    {
        kinds.push(StackBarKind::Pane(hidden[i]));
        i += 1;
        assert(kinds@ =~= lead + pane_kinds(hidden@.subrange(first as int, i as int)));
    }
    assert(kinds@ =~= kinds_spec);
    let total = kinds.len();
    assert(total <= 8);
    let mut bars: Vec<StackBar> = Vec::new();
    let mut j: usize = 0;
    while j < total
        invariant
            total == kinds@.len(),
            total <= 8,
            j <= total,
            bars@ =~= stack_bars(hidden@, popup_outer, area).subrange(0, j as int),
            stack_bars(hidden@, popup_outer, area).len() == total,
            kinds@ == stack_kinds(hidden@, stack_capacity(popup_outer, area)),
            hidden@.len() > 0 && stack_capacity(popup_outer, area) > 0,
        decreases total - j,
    {
        let offset = (total - j) as u16;
        let rect = Rect::new(popup_outer.x, popup_outer.y.saturating_sub(offset), popup_outer.width, 1);
        bars.push(StackBar { rect, kind: kinds[j] });
        j += 1;
    }
    bars
}

proof fn lemma_pane_kinds_count(ids: Seq<PaneId>)
    ensures
        floats_counted(pane_kinds(ids)) == ids.len(),
        pane_kinds(ids).len() == ids.len(),
    decreases ids.len(),
{
    if ids.len() > 0 {
        lemma_pane_kinds_count(ids.drop_last());
        assert(pane_kinds(ids).drop_last() =~= pane_kinds(ids.drop_last()));
    }
}

proof fn lemma_floats_counted_prepend(k: StackBarKind, rest: Seq<StackBarKind>)
    ensures
        floats_counted(seq![k] + rest) == floats_counted(seq![k]) + floats_counted(rest),
    decreases rest.len(),
{
    if rest.len() > 0 {
        lemma_floats_counted_prepend(k, rest.drop_last());
        assert((seq![k] + rest).drop_last() =~= seq![k] + rest.drop_last());
    } else {
        assert(seq![k] + rest =~= seq![k]);
    }
}

/// The preview rows never outnumber the rows that fit, and together they
/// account for every hidden float exactly once: each row names one float
/// or counts the folded ones.
pub proof fn lemma_stack_bars_account_for_every_hidden_float(hidden: Seq<PaneId>, max_bars: nat)
    requires
        max_bars >= 1,
        hidden.len() <= usize::MAX,
    ensures
        stack_kinds(hidden, max_bars).len() <= max_bars,
        floats_counted(stack_kinds(hidden, max_bars)) == hidden.len(),
{
    if hidden.len() <= max_bars {
        lemma_pane_kinds_count(hidden);
    } else {
        let shown = (max_bars - 1) as nat;
        let tail = hidden.subrange(hidden.len() - shown, hidden.len() as int);
        let summary = StackBarKind::Summary { count: (hidden.len() - shown) as usize };
        lemma_pane_kinds_count(tail);
        lemma_floats_counted_prepend(summary, pane_kinds(tail));
        assert(seq![summary].drop_last() =~= Seq::<StackBarKind>::empty());
        assert(seq![summary].last() == summary);
        assert(floats_counted(Seq::<StackBarKind>::empty()) == 0);
        assert(summary->count == hidden.len() - shown);
        assert(floats_counted(seq![summary]) == hidden.len() - shown);
    }
}

} // verus!
