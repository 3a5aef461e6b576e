//! Pane chrome: titles, borders, gaps, the terminal area inside a pane,
//! and the rows that stand for collapsed stack members.

use vstd::prelude::*;

use crate::geometry::{rect_new, sat_add_u16, sat_sub_u16, Borders, Rect};
use crate::layout::{PaneId, PaneInfo};
use crate::popup_size::{StackBar, StackBarKind};
use crate::style::Color;
use crate::text::{decimal, push_char, push_decimal, str_chars, string_from_chars, trim_chars, trimmed};

verus! {

/// How many terminal columns `s` takes, as ratatui measures a span of it.
pub uninterp spec fn text_width(s: Seq<char>) -> nat;

/// How many terminal columns `s` takes.
///
/// Trusted: calls ratatui's `Span::width`, which measures the span's text
/// with the `unicode-width` crate; the measure is left to the name
/// `text_width`.
#[verifier::external_body]
fn display_width(s: &str) -> (r: usize)
    ensures
        r == text_width(s@),
{
    ratatui::text::Span::raw(s).width()
}

/// The width of a single character.
pub open spec fn char_width(c: char) -> nat {
    text_width(seq![c])
}

/// The longest front part of `s` whose characters fit `budget` columns.
pub open spec fn fit_prefix(s: Seq<char>, budget: nat) -> Seq<char>
    decreases s.len(),
{
    if s.len() == 0 {
        Seq::empty()
    } else if char_width(s[0]) <= budget {
        seq![s[0]] + fit_prefix(s.drop_first(), (budget - char_width(s[0])) as nat)
    } else {
        Seq::empty()
    }
}

/// `s` cut to `max` columns: unchanged when it fits, otherwise as much of
/// its front as fits in one column less, followed by `…`.
pub open spec fn truncated(s: Seq<char>, max: nat) -> Seq<char> {
    if text_width(s) <= max {
        s
    } else {
        fit_prefix(s, if max >= 1 { (max - 1) as nat } else { 0 }) + seq!['…']
    }
}

fn char_width_exec(c: char) -> (r: usize)
    ensures
        r == char_width(c),
{
    let mut one = String::new();
    push_char(&mut one, c);
    assert(one@ =~= seq![c]);
    display_width(one.as_str())
}

/// Cut `s` to `max` columns, ending in `…` when anything was cut.
pub fn truncate_end(s: &[char], max: usize) -> (r: Vec<char>)
    ensures
        r@ == truncated(s@, max as nat),
{
    let whole = string_from_chars(s);
    if display_width(whole.as_str()) <= max {
        let mut out: Vec<char> = Vec::new();
        let mut i: usize = 0;
        while i < s.len()
            invariant
                i <= s@.len(),
                out@ == s@.subrange(0, i as int),
            decreases s@.len() - i,
        {
            out.push(s[i]);
            i += 1;
            assert(out@ =~= s@.subrange(0, i as int));
        }
        assert(out@ =~= s@);
        return out;
    }
    let budget: usize = if max >= 1 { max - 1 } else { 0 };
    let mut left = budget;
    let mut out: Vec<char> = Vec::new();
    let mut i: usize = 0;
    let mut full = false;
    assert(s@.subrange(0, s@.len() as int) =~= s@);
    assert(Seq::<char>::empty() + fit_prefix(s@, budget as nat) =~= fit_prefix(s@, budget as nat));
    while i < s.len() && !full
        invariant
            i <= s@.len(),
            fit_prefix(s@, budget as nat) == out@ + fit_prefix(s@.subrange(i as int, s@.len() as int), left as nat),
            full ==> fit_prefix(s@.subrange(i as int, s@.len() as int), left as nat) == Seq::<char>::empty(),
        decreases s@.len() - i, if full { 0int } else { 1int },
    {
        let ghost rest = s@.subrange(i as int, s@.len() as int);
        assert(rest.drop_first() =~= s@.subrange(i + 1, s@.len() as int));
        assert(rest[0] == s@[i as int]);
        let w = char_width_exec(s[i]);
        if w > left {
            full = true;
        } else {
            out.push(s[i]);
            left = left - w;
            i += 1;
            assert(out@ + fit_prefix(s@.subrange(i as int, s@.len() as int), left as nat) =~= out@.drop_last() + (
            seq![s@[i - 1]] + fit_prefix(s@.subrange(i as int, s@.len() as int), left as nat)));
        }
    }
    proof {
        if !full {
            assert(s@.subrange(i as int, s@.len() as int) =~= Seq::<char>::empty());
        }
        assert(out@ + Seq::<char>::empty() =~= out@);
    }
    out.push('…');
    out
}

/// The title drawn on a pane's border: the trimmed label, cut to fit
/// between the corners with a space each side. `None` for an empty label
/// or a pane too narrow for any title.
pub open spec fn spec_pane_border_title(label: Seq<char>, pane_width: u16) -> Option<Seq<char>> {
    let t = trimmed(label);
    if t.len() == 0 || pane_width <= 4 {
        None
    } else {
        Some(seq![' '] + truncated(t, (pane_width - 4) as nat) + seq![' '])
    }
}

pub fn pane_border_title(label: &str, pane_width: u16, focused: bool) -> (r: Option<String>)
    ensures
        match r {
            Some(s) => spec_pane_border_title(label@, pane_width) == Some(s@),
            None => spec_pane_border_title(label@, pane_width) is None,
        },
{
    let chars = str_chars(label);
    let t = trim_chars(chars.as_slice());
    if t.len() == 0 || pane_width <= 4 {
        return None;
    }
    let max_label_width = (pane_width - 4) as usize;
    let cut = truncate_end(t.as_slice(), max_label_width);
    let mut title = String::new();
    push_char(&mut title, ' ');
    let body = string_from_chars(cut.as_slice());
    title.append(body.as_str());
    push_char(&mut title, ' ');
    assert(title@ =~= seq![' '] + truncated(t@, max_label_width as nat) + seq![' ']);
    Some(title)
}

/// The label a stack bar stands for: the hidden pane's own label, or
/// `+N more` for a fold of `N` members.
pub open spec fn stack_bar_label(kind: StackBarKind, pane_label: Seq<char>) -> Seq<char> {
    match kind {
        StackBarKind::Pane(_) => pane_label,
        StackBarKind::Summary { count } => seq!['+'] + decimal(count as nat) + seq![' ', 'm', 'o', 'r', 'e'],
    }
}

/// The text a stack bar of `width` columns shows: its label as a border
/// title, or nothing when the label is blank or the bar too narrow.
pub open spec fn spec_stack_bar_title(kind: StackBarKind, pane_label: Seq<char>, width: u16) -> Seq<char> {
    match spec_pane_border_title(stack_bar_label(kind, pane_label), width) {
        Some(t) => t,
        None => Seq::empty(),
    }
}

/// The text a stack bar shows. `pane_label` is the label of the pane a
/// collapsed member's bar stands for; a fold's bar ignores it.
pub fn stack_bar_title(kind: StackBarKind, pane_label: &str, width: u16) -> (r: String)
    ensures
        r@ == spec_stack_bar_title(kind, pane_label@, width),
{
    let label = match kind {
        StackBarKind::Pane(_) => pane_label.to_string(),
        StackBarKind::Summary { count } => {
            let mut s = String::new();
            push_char(&mut s, '+');
            push_decimal(&mut s, count as u64);
            push_char(&mut s, ' ');
            push_char(&mut s, 'm');
            push_char(&mut s, 'o');
            push_char(&mut s, 'r');
            push_char(&mut s, 'e');
            assert(s@ =~= seq!['+'] + decimal(count as nat) + seq![' ', 'm', 'o', 'r', 'e']);
            s
        },
    };
    match pane_border_title(label.as_str(), width, false) {
        Some(t) => t,
        None => String::new(),
    }
}

/// The shadow of a float: a one-cell band down its right edge, starting a
/// row below its top, and one along its bottom, starting a column in from
/// its left, each cut to the screen `area`.
pub open spec fn spec_float_shadow(rect: Rect, area: Rect) -> (Rect, Rect) {
    (
        rect_new(rect.spec_right(), sat_add_u16(rect.y as int, 1), 1, rect.height).spec_intersection(area),
        rect_new(sat_add_u16(rect.x as int, 1), rect.spec_bottom(), rect.width, 1).spec_intersection(area),
    )
}

/// The two strips of screen a float's shadow darkens, so it reads as lifted
/// off the tiled panes behind it.
pub fn float_shadow(rect: Rect, area: Rect) -> (r: (Rect, Rect))
    ensures
        r == spec_float_shadow(rect, area),
{
    let right = Rect::new(rect.right(), rect.y.saturating_add(1), 1, rect.height);
    let bottom = Rect::new(rect.x.saturating_add(1), rect.bottom(), rect.width, 1);
    (right.intersection(area), bottom.intersection(area))
}

/// Whether the bit `flag` (a power of two) is set in `bits`.
pub open spec fn has_bit(bits: u8, flag: nat) -> bool {
    (bits as nat / flag) % 2 == 1
}

/// The border set as ratatui's bit flags: top 1, right 2, bottom 4, left 8.
pub open spec fn spec_border_bits(b: Borders) -> u8 {
    ((if b.top { 1int } else { 0int }) + (if b.right { 2int } else { 0int }) + (if b.bottom { 4int } else { 0int })
        + (if b.left { 8int } else { 0int })) as u8
}

fn border_bits(b: Borders) -> (r: u8)
    ensures
        r == spec_border_bits(b),
        r < 16,
        has_bit(r, 1) == b.top,
        has_bit(r, 2) == b.right,
        has_bit(r, 4) == b.bottom,
        has_bit(r, 8) == b.left,
{
    let mut bits: u8 = 0;
    if b.top {
        bits = bits + 1;
    }
    if b.right {
        bits = bits + 2;
    }
    if b.bottom {
        bits = bits + 4;
    }
    if b.left {
        bits = bits + 8;
    }
    bits
}

/// The area inside a plain block (no title, no padding) with the borders
/// whose flags are set in `bits`: a left border moves the left edge in by
/// one, but never past the right edge, a top border likewise moves the top
/// edge, and each border takes one column or row off the size, stopping at
/// zero.
pub open spec fn block_inner(area: Rect, bits: u8) -> Rect {
    let x = if has_bit(bits, 8) {
        let moved = sat_add_u16(area.x as int, 1);
        let right = sat_add_u16(area.x as int, area.width as int);
        if moved < right { moved } else { right }
    } else {
        area.x
    };
    let w1 = if has_bit(bits, 8) { sat_sub_u16(area.width as int, 1) } else { area.width };
    let y = if has_bit(bits, 1) {
        let moved = sat_add_u16(area.y as int, 1);
        let bottom = sat_add_u16(area.y as int, area.height as int);
        if moved < bottom { moved } else { bottom }
    } else {
        area.y
    };
    let h1 = if has_bit(bits, 1) { sat_sub_u16(area.height as int, 1) } else { area.height };
    let w = if has_bit(bits, 2) { sat_sub_u16(w1 as int, 1) } else { w1 };
    let h = if has_bit(bits, 4) { sat_sub_u16(h1 as int, 1) } else { h1 };
    Rect { x, y, width: w, height: h }
}

/// The area inside a block drawn with the borders flagged in `bits`.
///
/// Trusted: calls ratatui's `Block::inner` on a default block (no title,
/// zero padding) with `Borders::from_bits_truncate(bits)`; the contract
/// restates that function's source in ratatui 0.29.
#[verifier::external_body]
fn ratatui_block_inner(area: Rect, bits: u8) -> (r: Rect)
    requires
        bits < 16,
    ensures
        r == block_inner(area, bits),
{
    let inner = ratatui::widgets::Block::default()
        .borders(ratatui::widgets::Borders::from_bits_truncate(bits))
        .inner(ratatui::layout::Rect { x: area.x, y: area.y, width: area.width, height: area.height });
    Rect { x: inner.x, y: inner.y, width: inner.width, height: inner.height }
}

/// The content area of a rect within the coordinate range is within it too.
pub proof fn lemma_pane_inner_rect_wf(area: Rect, borders: Borders)
    requires
        area.wf(),
    ensures
        spec_pane_inner_rect(area, borders).wf(),
{
}

/// The content area of a pane drawn with `borders`.
pub open spec fn spec_pane_inner_rect(area: Rect, borders: Borders) -> Rect {
    if borders.spec_is_empty() {
        area
    } else {
        block_inner(area, spec_border_bits(borders))
    }
}

pub fn pane_inner_rect(area: Rect, borders: Borders) -> (r: Rect)
    ensures
        r == spec_pane_inner_rect(area, borders),
{
    if borders.is_empty() {
        area
    } else {
        ratatui_block_inner(area, border_bits(borders))
    }
}

/// The terminal area of a pane: one column is kept free for a scrollbar
/// when scrollbars are on and the pane is wider than four columns.
pub open spec fn spec_stable_terminal_inner_rect(pane_inner: Rect, pane_scrollbars: bool) -> Rect {
    if !pane_scrollbars || pane_inner.width <= 4 {
        pane_inner
    } else {
        rect_new(pane_inner.x, pane_inner.y, (pane_inner.width - 1) as u16, pane_inner.height)
    }
}

pub fn stable_terminal_inner_rect(pane_inner: Rect, pane_scrollbars: bool) -> (r: Rect)
    ensures
        r == spec_stable_terminal_inner_rect(pane_inner, pane_scrollbars),
{
    if !pane_scrollbars || pane_inner.width <= 4 {
        return pane_inner;
    }
    Rect::new(pane_inner.x, pane_inner.y, pane_inner.width - 1, pane_inner.height)
}

/// The terminal area of a pane and, when the terminal shows a scrollbar,
/// the one-column lane at the pane's right edge it is drawn in. The lane
/// exists only where a column was kept free for it.
pub open spec fn spec_scrollbar_gutter(pane_inner: Rect, pane_scrollbars: bool, shows_scrollbar: bool) -> (Rect, Option<
    Rect,
>) {
    let inner = spec_stable_terminal_inner_rect(pane_inner, pane_scrollbars);
    (
        inner,
        if inner == pane_inner || !shows_scrollbar {
            None
        } else {
            Some(rect_new((pane_inner.x + pane_inner.width - 1) as u16, pane_inner.y, 1, pane_inner.height))
        },
    )
}

pub fn scrollbar_gutter(pane_inner: Rect, pane_scrollbars: bool, shows_scrollbar: bool) -> (r: (Rect, Option<Rect>))
    requires
        pane_inner.wf(),
    ensures
        r == spec_scrollbar_gutter(pane_inner, pane_scrollbars, shows_scrollbar),
{
    let inner_rect = stable_terminal_inner_rect(pane_inner, pane_scrollbars);
    if inner_rect == pane_inner {
        return (inner_rect, None);
    }
    let gutter = Rect::new(pane_inner.x + (pane_inner.width - 1), pane_inner.y, 1, pane_inner.height);
    if shows_scrollbar {
        (inner_rect, Some(gutter))
    } else {
        (inner_rect, None)
    }
}

/// The borders a zoomed pane gets: all round when it stands for several
/// panes and outer borders are on, the title strip when it is the only
/// pane, none otherwise.
pub open spec fn spec_zoomed_borders(multi_pane: bool, pane_borders: bool, pane_outer_borders: bool) -> Borders {
    if multi_pane && pane_borders && pane_outer_borders {
        Borders::spec_all()
    } else if !multi_pane && pane_borders {
        lone_pane_borders()
    } else {
        Borders::spec_none()
    }
}

/// A lone pane has no split borders to hang its name on, so it keeps a
/// one-row strip across the top for the title.
pub open spec fn lone_pane_borders() -> Borders {
    Borders { top: true, right: false, bottom: false, left: false }
}

pub fn zoomed_borders(multi_pane: bool, pane_borders: bool, pane_outer_borders: bool) -> (r: Borders)
    ensures
        r == spec_zoomed_borders(multi_pane, pane_borders, pane_outer_borders),
{
    if multi_pane && pane_borders && pane_outer_borders {
        Borders::all()
    } else if !multi_pane && pane_borders {
        Borders::top_only()
    } else {
        Borders::none()
    }
}

/// Whether two spans share a cell, their ends saturating at the
/// coordinate range.
pub open spec fn spans_meet(a_start: u16, a_len: u16, b_start: u16, b_len: u16) -> bool {
    a_start < sat_add_u16(b_start as int, b_len as int) && b_start < sat_add_u16(a_start as int, a_len as int)
}

fn ranges_overlap(a_start: u16, a_len: u16, b_start: u16, b_len: u16) -> (r: bool)
    ensures
        r == spans_meet(a_start, a_len, b_start, b_len),
{
    a_start < b_start.saturating_add(b_len) && b_start < a_start.saturating_add(a_len)
}

/// `other` starts right where `info` ends, beside it.
pub open spec fn is_right_neighbor(info: PaneInfo, other: PaneInfo) -> bool {
    &&& other.id != info.id
    &&& other.rect.x == info.rect.spec_right()
    &&& spans_meet(info.rect.y, info.rect.height, other.rect.y, other.rect.height)
}

/// `other` starts right where `info` ends, below it.
pub open spec fn is_lower_neighbor(info: PaneInfo, other: PaneInfo) -> bool {
    &&& other.id != info.id
    &&& other.rect.y == info.rect.spec_bottom()
    &&& spans_meet(info.rect.x, info.rect.width, other.rect.x, other.rect.width)
}

pub open spec fn has_right_neighbor(info: PaneInfo, panes: Seq<PaneInfo>) -> bool {
    exists|j: int| 0 <= j < panes.len() && #[trigger] is_right_neighbor(info, panes[j])
}

pub open spec fn has_lower_neighbor(info: PaneInfo, panes: Seq<PaneInfo>) -> bool {
    exists|j: int| 0 <= j < panes.len() && #[trigger] is_lower_neighbor(info, panes[j])
}

/// The first pane of `panes` right of `info`.
fn pane_to_right(info: &PaneInfo, panes: &[PaneInfo]) -> (r: Option<usize>)
    ensures
        r is Some <==> has_right_neighbor(*info, panes@),
        r matches Some(j) ==> j < panes@.len() && is_right_neighbor(*info, panes@[j as int]),
{
    let right = info.rect.x.saturating_add(info.rect.width);
    let mut j: usize = 0;
    while j < panes.len()
        invariant
            j <= panes@.len(),
            right == info.rect.spec_right(),
            forall|k: int| 0 <= k < j ==> !#[trigger] is_right_neighbor(*info, panes@[k]),
        decreases panes@.len() - j,
    {
        let other = &panes[j];
        if other.id != info.id && other.rect.x == right && ranges_overlap(
            info.rect.y,
            info.rect.height,
            other.rect.y,
            other.rect.height,
        ) {
            assert(is_right_neighbor(*info, panes@[j as int]));
            return Some(j);
        }
        j += 1;
    }
    None
}

/// The first pane of `panes` below `info`.
fn pane_below(info: &PaneInfo, panes: &[PaneInfo]) -> (r: Option<usize>)
    ensures
        r is Some <==> has_lower_neighbor(*info, panes@),
        r matches Some(j) ==> j < panes@.len() && is_lower_neighbor(*info, panes@[j as int]),
{
    let bottom = info.rect.y.saturating_add(info.rect.height);
    let mut j: usize = 0;
    while j < panes.len()
        invariant
            j <= panes@.len(),
            bottom == info.rect.spec_bottom(),
            forall|k: int| 0 <= k < j ==> !#[trigger] is_lower_neighbor(*info, panes@[k]),
        decreases panes@.len() - j,
    {
        let other = &panes[j];
        if other.id != info.id && other.rect.y == bottom && ranges_overlap(
            info.rect.x,
            info.rect.width,
            other.rect.x,
            other.rect.width,
        ) {
            assert(is_lower_neighbor(*info, panes@[j as int]));
            return Some(j);
        }
        j += 1;
    }
    None
}

pub open spec fn spec_shrink_for_one_cell_gap(size: u16) -> u16 {
    if size > 1 { (size - 1) as u16 } else { size }
}

/// Give up a cell to the gap between two panes, unless that would leave
/// nothing.
pub fn shrink_for_one_cell_gap(size: u16) -> (r: u16)
    ensures
        r == spec_shrink_for_one_cell_gap(size),
{
    if size > 1 { size - 1 } else { size }
}

/// The leftmost left edge of `panes`, 0 when there are none.
pub open spec fn outer_left(panes: Seq<PaneInfo>) -> u16
    decreases panes.len(),
{
    if panes.len() == 0 {
        0
    } else if panes.len() == 1 || panes.last().rect.x < outer_left(panes.drop_last()) {
        panes.last().rect.x
    } else {
        outer_left(panes.drop_last())
    }
}

/// The topmost top edge of `panes`, 0 when there are none.
pub open spec fn outer_top(panes: Seq<PaneInfo>) -> u16
    decreases panes.len(),
{
    if panes.len() == 0 {
        0
    } else if panes.len() == 1 || panes.last().rect.y < outer_top(panes.drop_last()) {
        panes.last().rect.y
    } else {
        outer_top(panes.drop_last())
    }
}

/// The rightmost right edge of `panes`, 0 when there are none.
pub open spec fn outer_right(panes: Seq<PaneInfo>) -> u16
    decreases panes.len(),
{
    if panes.len() == 0 {
        0
    } else if panes.last().rect.spec_right() > outer_right(panes.drop_last()) {
        panes.last().rect.spec_right()
    } else {
        outer_right(panes.drop_last())
    }
}

/// The lowest bottom edge of `panes`, 0 when there are none.
pub open spec fn outer_bottom(panes: Seq<PaneInfo>) -> u16
    decreases panes.len(),
{
    if panes.len() == 0 {
        0
    } else if panes.last().rect.spec_bottom() > outer_bottom(panes.drop_last()) {
        panes.last().rect.spec_bottom()
    } else {
        outer_bottom(panes.drop_last())
    }
}

/// Pane `i` of `panes` with chrome applied. With gaps and no borders, a
/// pane gives up its last column (row) to the gap before a pane to its
/// right (below). With borders, a lone pane gets the title strip; among
/// several, a pane drops the right (bottom) border it would share with a
/// neighbour when there are no gaps, and without outer borders it drops
/// every border lying on the outer edge of the layer.
pub open spec fn chromed_pane(
    panes: Seq<PaneInfo>,
    i: int,
    pane_borders: bool,
    pane_gaps: bool,
    pane_outer_borders: bool,
) -> PaneInfo {
    let info = panes[i];
    let multi = panes.len() > 1;
    let right_neighbor = multi && has_right_neighbor(info, panes);
    let lower_neighbor = multi && has_lower_neighbor(info, panes);
    let shrink = multi && pane_gaps && !pane_borders;
    let width = if shrink && right_neighbor {
        spec_shrink_for_one_cell_gap(info.rect.width)
    } else {
        info.rect.width
    };
    let height = if shrink && lower_neighbor {
        spec_shrink_for_one_cell_gap(info.rect.height)
    } else {
        info.rect.height
    };
    let rect = Rect { width, height, ..info.rect };
    let borders = if !pane_borders {
        Borders::spec_none()
    } else if !multi {
        lone_pane_borders()
    } else {
        let keep_right = pane_gaps || !right_neighbor;
        let keep_bottom = pane_gaps || !lower_neighbor;
        Borders {
            top: pane_outer_borders || rect.y != outer_top(panes),
            right: keep_right && (pane_outer_borders || rect.spec_right() != outer_right(panes)),
            bottom: keep_bottom && (pane_outer_borders || rect.spec_bottom() != outer_bottom(panes)),
            left: pane_outer_borders || rect.x != outer_left(panes),
        }
    };
    PaneInfo { rect, borders, ..info }
}

fn outer_edges(panes: &[PaneInfo]) -> (r: (u16, u16, u16, u16))
    ensures
        r == (outer_left(panes@), outer_top(panes@), outer_right(panes@), outer_bottom(panes@)),
{
    let mut left: u16 = 0;
    let mut top: u16 = 0;
    let mut right: u16 = 0;
    let mut bottom: u16 = 0;
    let mut i: usize = 0;
    while i < panes.len()
        invariant
            i <= panes@.len(),
            left == outer_left(panes@.subrange(0, i as int)),
            top == outer_top(panes@.subrange(0, i as int)),
            right == outer_right(panes@.subrange(0, i as int)),
            bottom == outer_bottom(panes@.subrange(0, i as int)),
        decreases panes@.len() - i,
    {
        let rect = panes[i].rect;
        assert(panes@.subrange(0, i + 1).drop_last() =~= panes@.subrange(0, i as int));
        if i == 0 || rect.x < left {
            left = rect.x;
        }
        if i == 0 || rect.y < top {
            top = rect.y;
        }
        if rect.right() > right {
            right = rect.right();
        }
        if rect.bottom() > bottom {
            bottom = rect.bottom();
        }
        i += 1;
    }
    assert(panes@.subrange(0, panes@.len() as int) =~= panes@);
    (left, top, right, bottom)
}

/// Apply the border and gap settings to a laid-out layer.
pub fn apply_pane_chrome(panes: Vec<PaneInfo>, pane_borders: bool, pane_gaps: bool, pane_outer_borders: bool) -> (r: Vec<
    PaneInfo,
>)
    ensures
        r@.len() == panes@.len(),
        forall|i: int|
            0 <= i < panes@.len() ==> #[trigger] r@[i] == chromed_pane(
                panes@,
                i,
                pane_borders,
                pane_gaps,
                pane_outer_borders,
            ),
{
    let multi_pane = panes.len() > 1;
    let (left, top, right, bottom) = outer_edges(panes.as_slice());
    let mut out: Vec<PaneInfo> = Vec::new();
    let mut i: usize = 0;
    while i < panes.len()
        invariant
            i <= panes@.len(),
            multi_pane == (panes@.len() > 1),
            (left, top, right, bottom) == (outer_left(panes@), outer_top(panes@), outer_right(panes@), outer_bottom(
                panes@,
            )),
            out@.len() == i,
            forall|k: int|
                0 <= k < i ==> #[trigger] out@[k] == chromed_pane(
                    panes@,
                    k,
                    pane_borders,
                    pane_gaps,
                    pane_outer_borders,
                ),
        decreases panes@.len() - i,
    {
        let info = panes[i];
        let right_neighbor = multi_pane && pane_to_right(&info, panes.as_slice()).is_some();
        let below_neighbor = multi_pane && pane_below(&info, panes.as_slice()).is_some();
        let mut rect = info.rect;
        if multi_pane && pane_gaps && !pane_borders {
            if right_neighbor {
                rect.width = shrink_for_one_cell_gap(rect.width);
            }
            if below_neighbor {
                rect.height = shrink_for_one_cell_gap(rect.height);
            }
        }
        let borders = if !pane_borders {
            Borders::none()
        } else if !multi_pane {
            Borders::top_only()
        } else {
            let mut b = Borders::all();
            if !pane_gaps {
                if right_neighbor {
                    b.right = false;
                }
                if below_neighbor {
                    b.bottom = false;
                }
            }
            if !pane_outer_borders {
                if rect.x == left {
                    b.left = false;
                }
                if rect.y == top {
                    b.top = false;
                }
                if rect.right() == right {
                    b.right = false;
                }
                if rect.bottom() == bottom {
                    b.bottom = false;
                }
            }
            b
        };
        out.push(PaneInfo { rect, borders, ..info });
        i += 1;
    }
    out
}

/// A float drawn over the tiled layer: it always has all four borders,
/// and it holds focus only while the float layer does and it is the
/// layer's focused float.
pub open spec fn float_pane(info: PaneInfo, float_focused: bool, focused_float: Option<PaneId>) -> PaneInfo {
    PaneInfo {
        borders: Borders::spec_all(),
        inner_rect: spec_pane_inner_rect(info.rect, Borders::spec_all()),
        is_focused: float_focused && focused_float == Some(info.id),
        ..info
    }
}

/// The float layer's panes as drawn over the tiled layer.
pub fn float_pane_infos(infos: Vec<PaneInfo>, float_focused: bool, focused_float: Option<PaneId>) -> (r: Vec<PaneInfo>)
    ensures
        r@.len() == infos@.len(),
        forall|i: int| 0 <= i < infos@.len() ==> #[trigger] r@[i] == float_pane(infos@[i], float_focused, focused_float),
{
    let mut out: Vec<PaneInfo> = Vec::new();
    let mut i: usize = 0;
    while i < infos.len()
        invariant
            i <= infos@.len(),
            out@.len() == i,
            forall|k: int| 0 <= k < i ==> #[trigger] out@[k] == float_pane(infos@[k], float_focused, focused_float),
        decreases infos@.len() - i,
    {
        let info = infos[i];
        let borders = Borders::all();
        let inner_rect = pane_inner_rect(info.rect, borders);
        let is_focused = float_focused && match focused_float {
            Some(id) => id == info.id,
            None => false,
        };
        out.push(PaneInfo { borders, inner_rect, is_focused, ..info });
        i += 1;
    }
    out
}

/// The smallest rectangle holding both `a` and `b`.
pub open spec fn spec_union_rect(a: Rect, b: Rect) -> Rect {
    let x = if a.x < b.x { a.x } else { b.x };
    let y = if a.y < b.y { a.y } else { b.y };
    let right = if a.spec_right() > b.spec_right() { a.spec_right() } else { b.spec_right() };
    let bottom = if a.spec_bottom() > b.spec_bottom() { a.spec_bottom() } else { b.spec_bottom() };
    rect_new(x, y, (right - x) as u16, (bottom - y) as u16)
}

pub fn union_rect(a: Rect, b: Rect) -> (r: Rect)
    ensures
        r == spec_union_rect(a, b),
{
    let x = if a.x < b.x { a.x } else { b.x };
    let y = if a.y < b.y { a.y } else { b.y };
    let right = if a.right() > b.right() { a.right() } else { b.right() };
    let bottom = if a.bottom() > b.bottom() { a.bottom() } else { b.bottom() };
    Rect::new(x, y, right.saturating_sub(x), bottom.saturating_sub(y))
}

/// The union of `rects`, folded from the first; `None` when there are none.
pub open spec fn spec_bounding_rect(rects: Seq<Rect>) -> Option<Rect>
    decreases rects.len(),
{
    if rects.len() == 0 {
        None
    } else {
        match spec_bounding_rect(rects.drop_last()) {
            None => Some(rects.last()),
            Some(acc) => Some(spec_union_rect(acc, rects.last())),
        }
    }
}

/// The bounding box of a set of rectangles, such as every float's rect
/// and every stack bar of the float layer.
pub fn bounding_rect(rects: &[Rect]) -> (r: Option<Rect>)
    ensures
        r == spec_bounding_rect(rects@),
{
    let mut acc: Option<Rect> = None;
    let mut i: usize = 0;
    while i < rects.len()
        invariant
            i <= rects@.len(),
            acc == spec_bounding_rect(rects@.subrange(0, i as int)),
        decreases rects@.len() - i,
    {
        assert(rects@.subrange(0, i + 1).drop_last() =~= rects@.subrange(0, i as int));
        acc = match acc {
            None => Some(rects[i]),
            Some(a) => Some(union_rect(a, rects[i])),
        };
        i += 1;
    }
    assert(rects@.subrange(0, rects@.len() as int) =~= rects@);
    acc
}

/// Whether the cell at (`x`, `y`) lies in `rect`.
pub open spec fn spec_rect_contains(rect: Rect, x: u16, y: u16) -> bool {
    x >= rect.x && x < rect.spec_right() && y >= rect.y && y < rect.spec_bottom()
}

pub fn rect_contains(rect: Rect, x: u16, y: u16) -> (r: bool)
    ensures
        r == spec_rect_contains(rect, x, y),
{
    x >= rect.x && x < rect.right() && y >= rect.y && y < rect.bottom()
}

/// Whether the border cell at (`x`, `y`) belongs to the pane: on its own
/// outline, or, without gaps, on the line it shares with the pane to its
/// right or below (corner included).
pub open spec fn spec_line_touches_pane(x: u16, y: u16, rect: Rect, pane_gaps: bool) -> bool {
    if rect.width == 0 || rect.height == 0 {
        false
    } else {
        let right = sat_sub_u16(rect.spec_right() as int, 1);
        let bottom = sat_sub_u16(rect.spec_bottom() as int, 1);
        let in_rows = y >= rect.y && y <= bottom;
        let in_cols = x >= rect.x && x <= right;
        let own_border = (in_rows && (x == rect.x || x == right)) || (in_cols && (y == rect.y || y == bottom));
        if pane_gaps {
            own_border
        } else {
            let shared_right = rect.spec_right();
            let shared_bottom = rect.spec_bottom();
            own_border || (in_rows && x == shared_right) || (in_cols && y == shared_bottom) || (x == shared_right
                && y == shared_bottom)
        }
    }
}

pub fn line_touches_pane(x: u16, y: u16, info: &PaneInfo, pane_gaps: bool) -> (r: bool)
    ensures
        r == spec_line_touches_pane(x, y, info.rect, pane_gaps),
{
    let rect = info.rect;
    if rect.width == 0 || rect.height == 0 {
        return false;
    }
    let right = rect.right().saturating_sub(1);
    let bottom = rect.bottom().saturating_sub(1);
    let in_rows = y >= rect.y && y <= bottom;
    let in_cols = x >= rect.x && x <= right;
    let own_border = (in_rows && (x == rect.x || x == right)) || (in_cols && (y == rect.y || y == bottom));
    if pane_gaps {
        return own_border;
    }
    let shared_right = rect.right();
    let shared_bottom = rect.bottom();
    own_border || (in_rows && x == shared_right) || (in_cols && y == shared_bottom) || (x == shared_right && y
        == shared_bottom)
}

/// Which neighbouring cells a border cell's line reaches.
#[derive(Debug, Clone, Copy, PartialEq, Eq, Default, Structural)]
pub struct LineCell {
    pub up: bool,
    pub down: bool,
    pub left: bool,
    pub right: bool,
}

/// The box-drawing character joining the lines of a border cell; empty
/// for a cell no line reaches.
pub open spec fn spec_line_cell_symbol(line: LineCell) -> Seq<char> {
    match (line.up, line.down, line.left, line.right) {
        (true, true, true, true) => "┼"@,
        (true, true, true, false) => "┤"@,
        (true, true, false, true) => "├"@,
        (true, false, true, true) => "┴"@,
        (false, true, true, true) => "┬"@,
        (true, true, false, false) | (true, false, false, false) | (false, true, false, false) => "│"@,
        (false, false, true, true) | (false, false, true, false) | (false, false, false, true) => "─"@,
        (false, true, false, true) => "┌"@,
        (false, true, true, false) => "┐"@,
        (true, false, false, true) => "└"@,
        (true, false, true, false) => "┘"@,
        _ => ""@,
    }
}

pub fn line_cell_symbol(line: LineCell) -> (r: &'static str)
    ensures
        r@ == spec_line_cell_symbol(line),
{
    match (line.up, line.down, line.left, line.right) {
        (true, true, true, true) => "┼",
        (true, true, true, false) => "┤",
        (true, true, false, true) => "├",
        (true, false, true, true) => "┴",
        (false, true, true, true) => "┬",
        (true, true, false, false) | (true, false, false, false) | (false, true, false, false) => "│",
        (false, false, true, true) | (false, false, true, false) | (false, false, false, true) => "─",
        (false, true, false, true) => "┌",
        (false, true, true, false) => "┐",
        (true, false, false, true) => "└",
        (true, false, true, false) => "┘",
        _ => "",
    }
}

/// Red, green and blue of a colour, for the colours that name one; the
/// named colours take the standard VGA values.
pub open spec fn spec_color_to_rgb(color: Color) -> Option<(u8, u8, u8)> {
    match color {
        Color::Reset => None,
        Color::Black => Some((0, 0, 0)),
        Color::Red => Some((128, 0, 0)),
        Color::Green => Some((0, 128, 0)),
        Color::Yellow => Some((128, 128, 0)),
        Color::Blue => Some((0, 0, 128)),
        Color::Magenta => Some((128, 0, 128)),
        Color::Cyan => Some((0, 128, 128)),
        Color::Gray => Some((192, 192, 192)),
        Color::DarkGray => Some((128, 128, 128)),
        Color::LightRed => Some((255, 0, 0)),
        Color::LightGreen => Some((0, 255, 0)),
        Color::LightYellow => Some((255, 255, 0)),
        Color::LightBlue => Some((0, 0, 255)),
        Color::LightMagenta => Some((255, 0, 255)),
        Color::LightCyan => Some((0, 255, 255)),
        Color::White => Some((255, 255, 255)),
        Color::Rgb(r, g, b) => Some((r, g, b)),
        Color::Indexed(_) => None,
    }
}

pub fn color_to_rgb(color: Color) -> (r: Option<(u8, u8, u8)>)
    ensures
        r == spec_color_to_rgb(color),
{
    match color {
        Color::Reset => None,
        Color::Black => Some((0, 0, 0)),
        Color::Red => Some((128, 0, 0)),
        Color::Green => Some((0, 128, 0)),
        Color::Yellow => Some((128, 128, 0)),
        Color::Blue => Some((0, 0, 128)),
        Color::Magenta => Some((128, 0, 128)),
        Color::Cyan => Some((0, 128, 128)),
        Color::Gray => Some((192, 192, 192)),
        Color::DarkGray => Some((128, 128, 128)),
        Color::LightRed => Some((255, 0, 0)),
        Color::LightGreen => Some((0, 255, 0)),
        Color::LightYellow => Some((255, 255, 0)),
        Color::LightBlue => Some((0, 0, 255)),
        Color::LightMagenta => Some((255, 0, 255)),
        Color::LightCyan => Some((0, 255, 255)),
        Color::White => Some((255, 255, 255)),
        Color::Rgb(r, g, b) => Some((r, g, b)),
        Color::Indexed(_) => None,
    }
}

/// Where to find an already-drawn row to reuse as a fold's `+N more`
/// indicator, since a fold's own rect is never one (see `closed_run`).
#[derive(Debug, Clone, Copy, PartialEq, Eq, Structural)]
pub enum FoldAnchor {
    /// Index into the bars of an already-pushed collapsed-bar entry.
    Bar(usize),
    /// The stack's active member's own rect.
    Active(Rect),
}

/// A run of consecutive folded (zero-height) stack members at one place.
#[derive(Debug, Clone, Copy, PartialEq, Eq, Structural)]
pub struct ZeroRun {
    pub rect: Rect,
    pub count: usize,
    pub predecessor: Option<FoldAnchor>,
}

/// The one-row strip along the top (`top`) or bottom edge of `rect`.
pub open spec fn spec_active_edge_row(rect: Rect, top: bool) -> Rect {
    let y = if top { rect.y } else { sat_sub_u16(rect.spec_bottom() as int, 1) };
    rect_new(rect.x, y, rect.width, 1)
}

pub fn active_edge_row(rect: Rect, top: bool) -> (r: Rect)
    ensures
        r == spec_active_edge_row(rect, top),
{
    let y = if top { rect.y } else { rect.bottom().saturating_sub(1) };
    Rect::new(rect.x, y, rect.width, 1)
}

/// The bars once a fold run is closed. A fold's own rect is never a
/// drawable row, so it borrows one: the collapsed bar right before it,
/// whose pane now reads as part of the fold and joins the count; or else
/// the near edge of the active member before or after it. A fold with
/// neither is dropped.
pub open spec fn closed_run(bars: Seq<StackBar>, run: ZeroRun, successor: Option<Rect>) -> Seq<StackBar> {
    match run.predecessor {
        Some(FoldAnchor::Bar(index)) => bars.update(
            index as int,
            StackBar { kind: StackBarKind::Summary { count: (run.count + 1) as usize }, ..bars[index as int] },
        ),
        Some(FoldAnchor::Active(rect)) => bars.push(
            StackBar { rect: spec_active_edge_row(rect, false), kind: StackBarKind::Summary { count: run.count } },
        ),
        None => match successor {
            Some(active) => bars.push(
                StackBar { rect: spec_active_edge_row(active, true), kind: StackBarKind::Summary { count: run.count } },
            ),
            None => bars,
        },
    }
}

/// The state of the scan over a stack's members: the bars so far, the
/// last member drawn with a height (with its column), and the fold run
/// being collected.
pub struct BarScan {
    pub bars: Seq<StackBar>,
    pub last_real: Option<(u16, FoldAnchor)>,
    pub zero_run: Option<ZeroRun>,
}

/// The scan after one more member.
pub open spec fn scan_step(st: BarScan, info: PaneInfo) -> BarScan {
    if info.rect.height == 0 {
        let continues = st.zero_run matches Some(run) && run.rect.x == info.rect.x && run.rect.y == info.rect.y;
        if continues {
            let run = st.zero_run->0;
            BarScan { zero_run: Some(ZeroRun { count: (run.count + 1) as usize, ..run }), ..st }
        } else {
            let bars = match st.zero_run {
                Some(run) => closed_run(st.bars, run, None),
                None => st.bars,
            };
            let predecessor = match st.last_real {
                Some((x, anchor)) => if x == info.rect.x {
                    Some(anchor)
                } else {
                    None
                },
                None => None,
            };
            BarScan {
                bars,
                last_real: st.last_real,
                zero_run: Some(
                    ZeroRun { rect: rect_new(info.rect.x, info.rect.y, info.rect.width, 0), count: 1, predecessor },
                ),
            }
        }
    } else {
        let bars = match st.zero_run {
            Some(run) => closed_run(st.bars, run, Some(info.rect)),
            None => st.bars,
        };
        if info.rect.height == 1 {
            let bars = bars.push(StackBar { rect: info.rect, kind: StackBarKind::Pane(info.id) });
            BarScan {
                bars,
                last_real: Some((info.rect.x, FoldAnchor::Bar((bars.len() - 1) as usize))),
                zero_run: None,
            }
        } else {
            BarScan { bars, last_real: Some((info.rect.x, FoldAnchor::Active(info.rect))), zero_run: None }
        }
    }
}

/// The scan over the first `n` members.
pub open spec fn scan(infos: Seq<PaneInfo>, n: nat) -> BarScan
    decreases n,
{
    if n == 0 || n > infos.len() {
        BarScan { bars: Seq::empty(), last_real: None, zero_run: None }
    } else {
        scan_step(scan(infos, (n - 1) as nat), infos[n - 1])
    }
}

/// The bars for a stack's laid-out members: one per collapsed (one-row)
/// member, and a `+N more` summary for each run of folded (zero-height)
/// members at one place.
pub open spec fn spec_stack_bars(infos: Seq<PaneInfo>) -> Seq<StackBar> {
    let st = scan(infos, infos.len());
    match st.zero_run {
        Some(run) => closed_run(st.bars, run, None),
        None => st.bars,
    }
}

/// The anchors of a scan point at bars it has, and its counts stay within
/// the members seen.
pub open spec fn scan_ok(st: BarScan, seen: nat) -> bool {
    &&& (st.last_real matches Some((_, FoldAnchor::Bar(i))) ==> i < st.bars.len())
    &&& (st.zero_run matches Some(run) ==> (run.predecessor matches Some(FoldAnchor::Bar(i)) ==> i
        < st.bars.len()) && 1 <= run.count <= seen)
}

fn close_fold_run(bars: &mut Vec<StackBar>, run: ZeroRun, successor: Option<Rect>)
    requires
        run.predecessor matches Some(FoldAnchor::Bar(i)) ==> i < old(bars)@.len(),
        run.count < usize::MAX,
    ensures
        final(bars)@ == closed_run(old(bars)@, run, successor),
{
    match run.predecessor {
        Some(FoldAnchor::Bar(index)) => {
            let bar = bars[index];
            bars.set(index, StackBar { kind: StackBarKind::Summary { count: run.count + 1 }, ..bar });
        },
        Some(FoldAnchor::Active(rect)) => {
            bars.push(StackBar { rect: active_edge_row(rect, false), kind: StackBarKind::Summary { count: run.count } });
        },
        None => {
            if let Some(active_rect) = successor {
                bars.push(
                    StackBar { rect: active_edge_row(active_rect, true), kind: StackBarKind::Summary { count: run.count } },
                );
            }
        },
    }
}

/// Derive collapsed (height 1) and folded (height 0) rows of a stack's
/// laid-out members into bars. A run of consecutive folded members at one
/// place is one fold; a run interrupted by the active member (a different
/// rect) is a second, separate fold.
pub fn stack_bars_for(infos: &[PaneInfo]) -> (r: Vec<StackBar>)
    requires
        infos@.len() < usize::MAX,
    ensures
        r@ == spec_stack_bars(infos@),
{
    let mut bars: Vec<StackBar> = Vec::new();
    let mut last_real: Option<(u16, FoldAnchor)> = None;
    let mut zero_run: Option<ZeroRun> = None;
    let mut i: usize = 0;
    while i < infos.len()
        invariant
            i <= infos@.len(),
            infos@.len() < usize::MAX,
            scan(infos@, i as nat) == (BarScan { bars: bars@, last_real, zero_run }),
            scan_ok(BarScan { bars: bars@, last_real, zero_run }, i as nat),
        decreases infos@.len() - i,
    {
        let info = infos[i];
        if info.rect.height == 0 {
            let continues = match zero_run {
                Some(run) => run.rect.x == info.rect.x && run.rect.y == info.rect.y,
                None => false,
            };
            if continues {
                let run = zero_run.unwrap();
                zero_run = Some(ZeroRun { count: run.count + 1, ..run });
            } else {
                if let Some(run) = zero_run {
                    close_fold_run(&mut bars, run, None);
                }
                let predecessor = match last_real {
                    Some((x, anchor)) => if x == info.rect.x {
                        Some(anchor)
                    } else {
                        None
                    },
                    None => None,
                };
                zero_run = Some(ZeroRun { rect: Rect::new(info.rect.x, info.rect.y, info.rect.width, 0), count: 1, predecessor });
            }
        } else {
            if let Some(run) = zero_run {
                close_fold_run(&mut bars, run, Some(info.rect));
            }
            zero_run = None;
            if info.rect.height == 1 {
                bars.push(StackBar { rect: info.rect, kind: StackBarKind::Pane(info.id) });
                last_real = Some((info.rect.x, FoldAnchor::Bar(bars.len() - 1)));
            } else {
                last_real = Some((info.rect.x, FoldAnchor::Active(info.rect)));
            }
        }
        i += 1;
    }
    if let Some(run) = zero_run {
        close_fold_run(&mut bars, run, None);
    }
    bars
}

} // verus!
