//! The border lines drawn between tiled panes: which cells carry a line,
//! which way the line runs through each cell, and which of those cells are
//! drawn.

use std::collections::HashMap;

use vstd::prelude::*;

use crate::geometry::{sat_add_u16, sat_sub_u16, Borders, Direction, Rect};
use crate::layout::{PaneId, PaneInfo, SplitBorder};
use crate::panes::{
    bounding_rect, line_cell_symbol, pane_border_title, spec_pane_border_title, line_touches_pane, rect_contains, spec_bounding_rect, spec_line_cell_symbol,
    spec_line_touches_pane, spec_rect_contains, spec_stack_bars, stack_bars_for, LineCell,
};
use crate::popup_size::StackBar;

verus! {

broadcast use vstd::std_specs::hash::group_hash_axioms;

/// The key of the cell at (`x`, `y`).
pub open spec fn cell_key(x: int, y: int) -> u32 {
    (x * 65536 + y) as u32
}

/// The column of the cell with key `k`.
pub open spec fn key_x(k: u32) -> int {
    k as int / 65536
}

/// The row of the cell with key `k`.
pub open spec fn key_y(k: u32) -> int {
    k as int % 65536
}

fn cell_key_exec(x: u16, y: u16) -> (r: u32)
    ensures
        r == cell_key(x as int, y as int),
        key_x(r) == x,
        key_y(r) == y,
{
    (x as u32) * 65536 + (y as u32)
}

/// The cell with both lines' directions.
pub open spec fn or_cell(a: LineCell, b: LineCell) -> LineCell {
    LineCell { up: a.up || b.up, down: a.down || b.down, left: a.left || b.left, right: a.right || b.right }
}

/// The cell stored under `k`, or a cell with no line.
pub open spec fn cell_at(m: Map<u32, LineCell>, k: u32) -> LineCell {
    if m.dom().contains(k) {
        m[k]
    } else {
        LineCell { up: false, down: false, left: false, right: false }
    }
}

/// The border cells of a tab: a map from cell to the lines through it,
/// with the order the cells were first met in.
pub struct BorderCells {
    map: HashMap<u32, LineCell>,
    keys: Vec<u32>,
}

impl View for BorderCells {
    type V = Map<u32, LineCell>;

    closed spec fn view(&self) -> Map<u32, LineCell> {
        self.map@
    }
}

impl BorderCells {
    /// The order the cells were met in.
    pub closed spec fn order(self) -> Seq<u32> {
        self.keys@
    }

    /// Every cell is listed once in the order.
    pub closed spec fn wf(self) -> bool {
        &&& self.keys@.no_duplicates()
        &&& forall|k: u32| self.keys@.contains(k) <==> self.map@.dom().contains(k)
    }

    pub fn new() -> (r: BorderCells)
        ensures
            r@ == Map::<u32, LineCell>::empty(),
            r.wf(),
    {
        BorderCells { map: HashMap::new(), keys: Vec::new() }
    }

    fn get(&self, k: u32) -> (r: Option<LineCell>)
        ensures
            r == (if self@.dom().contains(k) {
                Some(self@[k])
            } else {
                None
            }),
    {
        match self.map.get(&k) {
            Some(c) => Some(*c),
            None => None,
        }
    }

    /// Add the lines of `c` to the cell under `k`.
    fn merge(&mut self, k: u32, c: LineCell)
        requires
            old(self).wf(),
        ensures
            final(self).wf(),
            final(self)@ == old(self)@.insert(k, or_cell(cell_at(old(self)@, k), c)),
    {
        let ghost old_keys = self.keys@;
        let current = self.get(k);
        let merged = match current {
            Some(a) => LineCell { up: a.up || c.up, down: a.down || c.down, left: a.left || c.left, right: a.right || c.right },
            None => {
                self.keys.push(k);
                c
            },
        };
        proof {
            if current is None {
                assert(merged == or_cell(cell_at(old(self)@, k), c));
            }
        }
        self.map.insert(k, merged);
        proof {
            broadcast use vstd::seq_lib::lemma_seq_contains_after_push;

            if current is None {
                assert(self.keys@ == old_keys.push(k));
                assert(!old_keys.contains(k));
                assert forall|a: int, b: int| 0 <= a < b < self.keys@.len() implies self.keys@[a] != self.keys@[b] by {
                    if b == old_keys.len() {
                        assert(old_keys[a] == self.keys@[a]);
                    } else {
                        assert(old_keys[a] != old_keys[b]);
                    }
                }
            }
        }
    }
}

/// What the outline of a pane drawn with borders `b` adds to the cell at
/// (`x`, `y`): a top or bottom border runs left and right (but not past
/// the pane's corners), a left or right border runs up and down; `None`
/// for a cell off the outline.
pub open spec fn outline_cell(rect: Rect, b: Borders, x: int, y: int) -> Option<LineCell> {
    if rect.width == 0 || rect.height == 0 {
        None
    } else {
        let right = sat_sub_u16(rect.spec_right() as int, 1) as int;
        let bottom = sat_sub_u16(rect.spec_bottom() as int, 1) as int;
        let in_cols = rect.x <= x <= right;
        let in_rows = rect.y <= y <= bottom;
        let across = (b.top && y == rect.y && in_cols) || (b.bottom && y == bottom && in_cols);
        let along = (b.left && x == rect.x && in_rows) || (b.right && x == right && in_rows);
        if across || along {
            Some(LineCell { up: along && y > rect.y, down: along && y < bottom, left: across && x > rect.x, right: across && x < right })
        } else {
            None
        }
    }
}

/// `m` with the outline of `rect` added, on the cells for which `on`
/// holds.
pub open spec fn outlined_where(m: Map<u32, LineCell>, rect: Rect, b: Borders, on: spec_fn(int, int) -> bool) -> Map<u32, LineCell> {
    Map::new(
        |k: u32| m.dom().contains(k) || (on(key_x(k), key_y(k)) && outline_cell(rect, b, key_x(k), key_y(k)) is Some),
        |k: u32|
            if on(key_x(k), key_y(k)) && outline_cell(rect, b, key_x(k), key_y(k)) is Some {
                or_cell(cell_at(m, k), outline_cell(rect, b, key_x(k), key_y(k))->0)
            } else {
                m[k]
            },
    )
}

fn outline_cell_exec(rect: Rect, b: Borders, x: u16, y: u16) -> (r: Option<LineCell>)
    requires
        rect.width > 0 && rect.height > 0,
    ensures
        r == outline_cell(rect, b, x as int, y as int),
{
    let right = rect.right().saturating_sub(1);
    let bottom = rect.bottom().saturating_sub(1);
    let in_cols = rect.x <= x && x <= right;
    let in_rows = rect.y <= y && y <= bottom;
    let across = (b.top && y == rect.y && in_cols) || (b.bottom && y == bottom && in_cols);
    let along = (b.left && x == rect.x && in_rows) || (b.right && x == right && in_rows);
    if across || along {
        Some(LineCell { up: along && y > rect.y, down: along && y < bottom, left: across && x > rect.x, right: across && x < right })
    } else {
        None
    }
}

/// The cells of one row (`horizontal`) or column at `fixed`, from `from`
/// to `to` inclusive.
pub open spec fn on_line(horizontal: bool, fixed: int, from: int, to: int) -> spec_fn(int, int) -> bool {
    |x: int, y: int|
        if horizontal {
            y == fixed && from <= x <= to
        } else {
            x == fixed && from <= y <= to
        }
}

/// Add the outline cells along one row (`horizontal`) or column at
/// `fixed`, from `from` to `to` inclusive.
fn outline_line(cells: &mut BorderCells, rect: Rect, b: Borders, horizontal: bool, fixed: u16, from: u16, to: u16)
    requires
        old(cells).wf(),
        rect.width > 0 && rect.height > 0,
    ensures
        final(cells).wf(),
        final(cells)@ == outlined_where(old(cells)@, rect, b, on_line(horizontal, fixed as int, from as int, to as int)),
{
    let ghost start = cells@;
    if from > to {
        assert(cells@ =~= outlined_where(start, rect, b, on_line(horizontal, fixed as int, from as int, to as int)));
        return;
    }
    let mut i: u16 = from;
    assert(cells@ =~= outlined_where(start, rect, b, on_line(horizontal, fixed as int, from as int, i - 1)));
    loop
        invariant
            from <= i <= to,
            start == old(cells)@,
            cells.wf(),
            rect.width > 0 && rect.height > 0,
            cells@ == outlined_where(start, rect, b, on_line(horizontal, fixed as int, from as int, i - 1)),
        decreases to - i,
    {
        let (x, y) = if horizontal { (i, fixed) } else { (fixed, i) };
        if let Some(c) = outline_cell_exec(rect, b, x, y) {
            let k = cell_key_exec(x, y);
            cells.merge(k, c);
        }
        assert(cells@ =~= outlined_where(start, rect, b, on_line(horizontal, fixed as int, from as int, i as int)));
        if i == to {
            return;
        }
        i = i + 1;
    }
}

/// `m` with the whole outline of `rect` added.
pub open spec fn outlined(m: Map<u32, LineCell>, rect: Rect, b: Borders) -> Map<u32, LineCell> {
    outlined_where(m, rect, b, |x: int, y: int| true)
}

/// Adding an outline on two sets of cells in turn adds it on their union.
proof fn lemma_outline_twice(m: Map<u32, LineCell>, rect: Rect, b: Borders, on1: spec_fn(int, int) -> bool, on2: spec_fn(int, int) -> bool)
    ensures
        outlined_where(outlined_where(m, rect, b, on1), rect, b, on2) =~= outlined_where(
            m,
            rect,
            b,
            |x: int, y: int| on1(x, y) || on2(x, y),
        ),
{
}

/// Add the outline a pane's borders draw to `cells`.
pub fn add_pane_border_cells(cells: &mut BorderCells, info: &PaneInfo)
    requires
        old(cells).wf(),
    ensures
        final(cells).wf(),
        final(cells)@ == outlined(old(cells)@, info.rect, info.borders),
{
    let rect = info.rect;
    let b = info.borders;
    let ghost start = cells@;
    if rect.width == 0 || rect.height == 0 {
        assert(cells@ =~= outlined(start, rect, b));
        return;
    }
    let right = rect.right().saturating_sub(1);
    let bottom = rect.bottom().saturating_sub(1);
    let ghost top_on = if b.top { on_line(true, rect.y as int, rect.x as int, right as int) } else { |x: int, y: int| false };
    let ghost bottom_on = if b.bottom { on_line(true, bottom as int, rect.x as int, right as int) } else { |x: int, y: int| false };
    let ghost left_on = if b.left { on_line(false, rect.x as int, rect.y as int, bottom as int) } else { |x: int, y: int| false };
    let ghost right_on = if b.right { on_line(false, right as int, rect.y as int, bottom as int) } else { |x: int, y: int| false };
    if b.top {
        outline_line(cells, rect, b, true, rect.y, rect.x, right);
    } else {
        assert(cells@ =~= outlined_where(start, rect, b, top_on));
    }
    let ghost m1 = cells@;
    if b.bottom {
        outline_line(cells, rect, b, true, bottom, rect.x, right);
    } else {
        assert(cells@ =~= outlined_where(m1, rect, b, bottom_on));
    }
    let ghost m2 = cells@;
    if b.left {
        outline_line(cells, rect, b, false, rect.x, rect.y, bottom);
    } else {
        assert(cells@ =~= outlined_where(m2, rect, b, left_on));
    }
    let ghost m3 = cells@;
    if b.right {
        outline_line(cells, rect, b, false, right, rect.y, bottom);
    } else {
        assert(cells@ =~= outlined_where(m3, rect, b, right_on));
    }
    proof {
        lemma_outline_twice(start, rect, b, top_on, bottom_on);
        let on12 = |x: int, y: int| top_on(x, y) || bottom_on(x, y);
        lemma_outline_twice(start, rect, b, on12, left_on);
        let on123 = |x: int, y: int| on12(x, y) || left_on(x, y);
        lemma_outline_twice(start, rect, b, on123, right_on);
        let on1234 = |x: int, y: int| on123(x, y) || right_on(x, y);
        assert(cells@ =~= outlined_where(start, rect, b, on1234));
        assert(outlined_where(start, rect, b, on1234) =~= outlined(start, rect, b));
    }
}

/// Whether the cell under `k` carries a line running left or right.
pub open spec fn runs_across(m: Map<u32, LineCell>, k: u32) -> bool {
    m.dom().contains(k) && (m[k].left || m[k].right)
}

/// Whether the cell under `k` carries a line running up or down.
pub open spec fn runs_along(m: Map<u32, LineCell>, k: u32) -> bool {
    m.dom().contains(k) && (m[k].up || m[k].down)
}

/// What a split's divider adds to the cell at (`x`, `y`) when that cell
/// already carries a line: the divider runs through it, and it joins the
/// lines of the cells beside it (across a vertical divider) or above and
/// below it (across a horizontal one). Only divider cells up to `limit`
/// along the divider count.
pub open spec fn divider_cell(m: Map<u32, LineCell>, s: SplitBorder, x: int, y: int, limit: int) -> Option<LineCell> {
    match s.direction {
        Direction::Horizontal => {
            let end = s.area.spec_bottom() as int;
            if x == s.pos && s.area.y <= y <= end && y < limit && m.dom().contains(cell_key(x, y)) {
                Some(LineCell {
                    up: y > s.area.y,
                    down: y + 1 < end,
                    left: x > 0 && runs_across(m, cell_key(x - 1, y)),
                    right: runs_across(m, cell_key(sat_add_u16(x, 1) as int, y)),
                })
            } else {
                None
            }
        },
        Direction::Vertical => {
            let end = s.area.spec_right() as int;
            if y == s.pos && s.area.x <= x <= end && x < limit && m.dom().contains(cell_key(x, y)) {
                Some(LineCell {
                    up: y > 0 && runs_along(m, cell_key(x, y - 1)),
                    down: runs_along(m, cell_key(x, sat_add_u16(y, 1) as int)),
                    left: x > s.area.x,
                    right: x + 1 < end,
                })
            } else {
                None
            }
        },
    }
}

/// `m` with the divider of `s` drawn through the cells that already carry
/// a line, up to `limit` along the divider. No cell is added.
pub open spec fn divided_upto(m: Map<u32, LineCell>, s: SplitBorder, limit: int) -> Map<u32, LineCell> {
    Map::new(
        |k: u32| m.dom().contains(k),
        |k: u32|
            match divider_cell(m, s, key_x(k), key_y(k), limit) {
                Some(c) => or_cell(m[k], c),
                None => m[k],
            },
    )
}

/// `m` with the divider of `s` drawn.
pub open spec fn divided(m: Map<u32, LineCell>, s: SplitBorder) -> Map<u32, LineCell> {
    divided_upto(m, s, 65536)
}

/// `m` with the dividers of `splits` drawn one after the other.
pub open spec fn all_divided(m: Map<u32, LineCell>, splits: Seq<SplitBorder>) -> Map<u32, LineCell>
    decreases splits.len(),
{
    if splits.len() == 0 {
        m
    } else {
        divided(all_divided(m, splits.drop_last()), splits.last())
    }
}

/// A divider whose far end leaves room for one more row and column.
pub open spec fn spec_divider_fits(s: SplitBorder) -> bool {
    s.area.spec_bottom() < 65535 && s.area.spec_right() < 65535
}

/// Whether a divider's far end leaves room for one more row and column.
pub fn divider_fits(s: &SplitBorder) -> (r: bool)
    ensures
        r == spec_divider_fits(*s),
{
    s.area.bottom() < 65535 && s.area.right() < 65535
}

fn across_at(cells: &BorderCells, k: u32) -> (r: bool)
    ensures
        r == runs_across(cells@, k),
{
    match cells.get(k) {
        Some(c) => c.left || c.right,
        None => false,
    }
}

fn along_at(cells: &BorderCells, k: u32) -> (r: bool)
    ensures
        r == runs_along(cells@, k),
{
    match cells.get(k) {
        Some(c) => c.up || c.down,
        None => false,
    }
}

/// Draw one split's divider through the cells that already carry a line.
fn add_divider(cells: &mut BorderCells, split: &SplitBorder)
    requires
        old(cells).wf(),
        spec_divider_fits(*split),
    ensures
        final(cells).wf(),
        final(cells)@ == divided(old(cells)@, *split),
{
    let ghost m = cells@;
    let area = split.area;
    let horizontal = match split.direction {
        Direction::Horizontal => true,
        Direction::Vertical => false,
    };
    let (start, end): (u16, u16) = if horizontal { (area.y, area.bottom()) } else { (area.x, area.right()) };
    let mut i: u32 = start as u32;
    assert(cells@ =~= divided_upto(m, *split, i as int));
    while i <= end as u32
        invariant
            cells.wf(),
            m == old(cells)@,
            spec_divider_fits(*split),
            area == split.area,
            horizontal == (split.direction == Direction::Horizontal),
            start == (if horizontal { area.y } else { area.x }),
            end == (if horizontal { area.spec_bottom() } else { area.spec_right() }),
            start <= i <= end + 1,
            cells@ == divided_upto(m, *split, i as int),
        decreases end + 1 - i,
    {
        let t = i as u16;
        let (x, y) = if horizontal { (split.pos, t) } else { (t, split.pos) };
        let k = cell_key_exec(x, y);
        if cells.get(k).is_some() {
            let c = if horizontal {
                let left = if x > 0 { across_at(cells, cell_key_exec(x - 1, y)) } else { false };
                let right = across_at(cells, cell_key_exec(x.saturating_add(1), y));
                LineCell { up: y > area.y, down: (y as u32) + 1 < end as u32, left, right }
            } else {
                let up = if y > 0 { along_at(cells, cell_key_exec(x, y - 1)) } else { false };
                let down = along_at(cells, cell_key_exec(x, y.saturating_add(1)));
                LineCell { up, down, left: x > area.x, right: (x as u32) + 1 < end as u32 }
            };
            proof {
                assert(divider_cell(m, *split, x as int, y as int, i + 1) == Some(c));
            }
            cells.merge(k, c);
        }
        i = i + 1;
        assert(cells@ =~= divided_upto(m, *split, i as int));
    }
    assert(divided_upto(m, *split, i as int) =~= divided(m, *split));
}

/// Draw the dividers of `split_borders`, in order, through the border
/// cells; with gaps between panes there are no shared dividers to draw.
pub fn add_split_border_cells(pane_gaps: bool, split_borders: &[SplitBorder], cells: &mut BorderCells)
    requires
        old(cells).wf(),
        forall|j: int| 0 <= j < split_borders@.len() ==> spec_divider_fits(#[trigger] split_borders@[j]),
    ensures
        final(cells).wf(),
        final(cells)@ == if pane_gaps {
            old(cells)@
        } else {
            all_divided(old(cells)@, split_borders@)
        },
{
    if pane_gaps {
        return;
    }
    let ghost m = cells@;
    let mut j: usize = 0;
    assert(split_borders@.subrange(0, 0) =~= Seq::<SplitBorder>::empty());
    while j < split_borders.len()
        invariant
            j <= split_borders@.len(),
            m == old(cells)@,
            cells.wf(),
            forall|q: int| 0 <= q < split_borders@.len() ==> spec_divider_fits(#[trigger] split_borders@[q]),
            cells@ == all_divided(m, split_borders@.subrange(0, j as int)),
        decreases split_borders@.len() - j,
    {
        add_divider(cells, &split_borders[j]);
        assert(split_borders@.subrange(0, j + 1).drop_last() =~= split_borders@.subrange(0, j as int));
        j += 1;
    }
    assert(split_borders@.subrange(0, split_borders@.len() as int) =~= split_borders@);
}

/// Whether a pane is in the float layer, given the layer's ids.
pub open spec fn is_float_pane(float_ids: Seq<PaneId>, id: PaneId) -> bool {
    float_ids.contains(id)
}

/// The tiled panes among `infos`, in order.
pub open spec fn tiled_panes(infos: Seq<PaneInfo>, float_ids: Seq<PaneId>) -> Seq<PaneInfo>
    decreases infos.len(),
{
    if infos.len() == 0 {
        Seq::empty()
    } else {
        let rest = tiled_panes(infos.drop_last(), float_ids);
        if is_float_pane(float_ids, infos.last().id) {
            rest
        } else {
            rest.push(infos.last())
        }
    }
}

/// The rects of the float panes among `infos`, in order.
pub open spec fn float_rects(infos: Seq<PaneInfo>, float_ids: Seq<PaneId>) -> Seq<Rect>
    decreases infos.len(),
{
    if infos.len() == 0 {
        Seq::empty()
    } else {
        let rest = float_rects(infos.drop_last(), float_ids);
        if is_float_pane(float_ids, infos.last().id) {
            rest.push(infos.last().rect)
        } else {
            rest
        }
    }
}

/// `m` with the outlines of the tiled panes of `infos` that show content
/// (more than one row high) added, in order. Floats draw their own frame
/// and collapsed stack members draw as bars.
pub open spec fn outlined_panes(m: Map<u32, LineCell>, infos: Seq<PaneInfo>, float_ids: Seq<PaneId>) -> Map<
    u32,
    LineCell,
>
    decreases infos.len(),
{
    if infos.len() == 0 {
        m
    } else {
        let prev = outlined_panes(m, infos.drop_last(), float_ids);
        let info = infos.last();
        if is_float_pane(float_ids, info.id) || info.rect.height <= 1 {
            prev
        } else {
            outlined(prev, info.rect, info.borders)
        }
    }
}

/// The border cells of a tab: the outlines of its tiled panes, then,
/// without gaps, the dividers of its splits drawn through them.
pub open spec fn border_map(infos: Seq<PaneInfo>, float_ids: Seq<PaneId>, splits: Seq<SplitBorder>, pane_gaps: bool) -> Map<
    u32,
    LineCell,
> {
    let outlines = outlined_panes(Map::empty(), infos, float_ids);
    if pane_gaps {
        outlines
    } else {
        all_divided(outlines, splits)
    }
}

/// One border cell to draw: where, the box-drawing character, and whether
/// it belongs to the focused tiled pane.
#[derive(Debug, Clone, Copy, PartialEq, Eq)]
pub struct BorderDraw {
    pub x: u16,
    pub y: u16,
    pub symbol: &'static str,
    pub focused: bool,
}

/// Whether the border cell at (`x`, `y`) is drawn: it lies in `area`, not
/// under the float layer (`float_rect`) nor under a tiled stack bar, and
/// its lines join into a character.
pub open spec fn border_drawn(
    line: LineCell,
    x: int,
    y: int,
    area: Rect,
    float_rect: Option<Rect>,
    tiled_bars: Seq<StackBar>,
) -> bool {
    &&& area.x <= x < area.spec_right() && area.y <= y < area.spec_bottom()
    &&& !(float_rect matches Some(f) && spec_rect_contains(f, x as u16, y as u16))
    &&& !(exists|i: int| 0 <= i < tiled_bars.len() && spec_rect_contains(#[trigger] tiled_bars[i].rect, x as u16, y as u16))
    &&& spec_line_cell_symbol(line).len() > 0
}

/// Whether the border cell at (`x`, `y`) belongs to a focused tiled pane.
pub open spec fn border_focused(infos: Seq<PaneInfo>, float_ids: Seq<PaneId>, x: u16, y: u16, pane_gaps: bool) -> bool {
    exists|i: int|
        0 <= i < infos.len() && !is_float_pane(float_ids, #[trigger] infos[i].id) && infos[i].is_focused
            && spec_line_touches_pane(x, y, infos[i].rect, pane_gaps)
}

pub(crate) fn contains_id(ids: &[PaneId], id: PaneId) -> (r: bool)
    ensures
        r == ids@.contains(id),
{
    let mut i: usize = 0;
    while i < ids.len()
        invariant
            i <= ids@.len(),
            forall|j: int| 0 <= j < i ==> ids@[j] != id,
        decreases ids@.len() - i,
    {
        if ids[i] == id {
            return true;
        }
        i += 1;
    }
    false
}

/// The rects a tiled border must not be drawn over: the float panes and
/// the float layer's stack bars.
pub open spec fn float_layer_rects(infos: Seq<PaneInfo>, float_ids: Seq<PaneId>, stack_bars: Seq<StackBar>) -> Seq<Rect> {
    float_rects(infos, float_ids) + stack_bars.map_values(|bar: StackBar| bar.rect)
}

/// `d` is the draw of the border cell under `k` of `m`.
pub open spec fn draws_cell(
    d: BorderDraw,
    m: Map<u32, LineCell>,
    k: u32,
    infos: Seq<PaneInfo>,
    float_ids: Seq<PaneId>,
    pane_gaps: bool,
) -> bool {
    &&& cell_key(d.x as int, d.y as int) == k
    &&& d.symbol@ == spec_line_cell_symbol(m[k])
    &&& d.focused == border_focused(infos, float_ids, d.x, d.y, pane_gaps)
}

/// The key of the cell a draw is for.
pub open spec fn draw_key(d: BorderDraw) -> u32 {
    cell_key(d.x as int, d.y as int)
}

/// Whether the border cell under `k` of `m` is drawn.
pub open spec fn key_drawn(
    m: Map<u32, LineCell>,
    k: u32,
    area: Rect,
    float_rect: Option<Rect>,
    tiled_bars: Seq<StackBar>,
) -> bool {
    m.dom().contains(k) && border_drawn(m[k], key_x(k), key_y(k), area, float_rect, tiled_bars)
}

fn split_infos(pane_infos: &[PaneInfo], float_ids: &[PaneId]) -> (r: (Vec<PaneInfo>, Vec<Rect>))
    ensures
        r.0@ == tiled_panes(pane_infos@, float_ids@),
        r.1@ == float_rects(pane_infos@, float_ids@),
        r.0@.len() <= pane_infos@.len(),
{
    let mut tiled: Vec<PaneInfo> = Vec::new();
    let mut floats: Vec<Rect> = Vec::new();
    let mut i: usize = 0;
    while i < pane_infos.len()
        invariant
            i <= pane_infos@.len(),
            tiled@ == tiled_panes(pane_infos@.subrange(0, i as int), float_ids@),
            floats@ == float_rects(pane_infos@.subrange(0, i as int), float_ids@),
            tiled@.len() <= i,
        decreases pane_infos@.len() - i,
    {
        assert(pane_infos@.subrange(0, i + 1).drop_last() =~= pane_infos@.subrange(0, i as int));
        let info = pane_infos[i];
        if contains_id(float_ids, info.id) {
            floats.push(info.rect);
        } else {
            tiled.push(info);
        }
        i += 1;
    }
    assert(pane_infos@.subrange(0, pane_infos@.len() as int) =~= pane_infos@);
    (tiled, floats)
}

fn in_any_bar(bars: &[StackBar], x: u16, y: u16) -> (r: bool)
    ensures
        r == exists|i: int| 0 <= i < bars@.len() && spec_rect_contains(#[trigger] bars@[i].rect, x, y),
{
    let mut i: usize = 0;
    while i < bars.len()
        invariant
            i <= bars@.len(),
            forall|j: int| 0 <= j < i ==> !spec_rect_contains(#[trigger] bars@[j].rect, x, y),
        decreases bars@.len() - i,
    {
        if rect_contains(bars[i].rect, x, y) {
            return true;
        }
        i += 1;
    }
    false
}

fn touches_focused(pane_infos: &[PaneInfo], float_ids: &[PaneId], x: u16, y: u16, pane_gaps: bool) -> (r: bool)
    ensures
        r == border_focused(pane_infos@, float_ids@, x, y, pane_gaps),
{
    let mut i: usize = 0;
    while i < pane_infos.len()
        invariant
            i <= pane_infos@.len(),
            forall|j: int|
                0 <= j < i ==> !(!is_float_pane(float_ids@, #[trigger] pane_infos@[j].id) && pane_infos@[j].is_focused
                    && spec_line_touches_pane(x, y, pane_infos@[j].rect, pane_gaps)),
        decreases pane_infos@.len() - i,
    {
        let info = &pane_infos[i];
        if !contains_id(float_ids, info.id) && info.is_focused && line_touches_pane(x, y, info, pane_gaps) {
            return true;
        }
        i += 1;
    }
    false
}

/// The one rect that covers the whole float layer: every float pane and
/// every stack bar of the layer, or `None` when there is neither.
pub fn float_rect(pane_infos: &[PaneInfo], float_ids: &[PaneId], stack_bars: &[StackBar]) -> (r: Option<Rect>)
    ensures
        r == spec_bounding_rect(float_layer_rects(pane_infos@, float_ids@, stack_bars@)),
{
    let (_, floats) = split_infos(pane_infos, float_ids);
    let mut layer_rects = floats;
    let mut b: usize = 0;
    let ghost lead = layer_rects@;
    while b < stack_bars.len()
        invariant
            b <= stack_bars@.len(),
            layer_rects@ == lead + stack_bars@.subrange(0, b as int).map_values(|bar: StackBar| bar.rect),
        decreases stack_bars@.len() - b,
    {
        layer_rects.push(stack_bars[b].rect);
        b += 1;
        assert(layer_rects@ =~= lead + stack_bars@.subrange(0, b as int).map_values(|bar: StackBar| bar.rect));
    }
    assert(stack_bars@.subrange(0, stack_bars@.len() as int) =~= stack_bars@);
    bounding_rect(layer_rects.as_slice())
}

/// The stack bars of the tiled panes among `pane_infos`.
pub fn tiled_stack_bars(pane_infos: &[PaneInfo], float_ids: &[PaneId]) -> (r: Vec<StackBar>)
    requires
        pane_infos@.len() < usize::MAX,
    ensures
        r@ == spec_stack_bars(tiled_panes(pane_infos@, float_ids@)),
{
    let (tiled, _) = split_infos(pane_infos, float_ids);
    stack_bars_for(tiled.as_slice())
}

/// The border cells to draw between a tab's tiled panes, each once: the
/// outlines of the tiled panes that show content, joined by the split
/// dividers when there are no gaps, minus the cells outside `area`, under
/// the float layer or under a tiled stack bar, and minus the cells whose
/// lines form no character. Nothing is drawn when pane borders are off or
/// no pane has a border.
pub fn pane_border_draws(
    pane_infos: &[PaneInfo],
    float_ids: &[PaneId],
    split_borders: &[SplitBorder],
    stack_bars: &[StackBar],
    area: Rect,
    pane_borders: bool,
    pane_gaps: bool,
) -> (r: Vec<BorderDraw>)
    requires
        pane_infos@.len() < usize::MAX,
        forall|j: int| 0 <= j < split_borders@.len() ==> spec_divider_fits(#[trigger] split_borders@[j]),
    ensures
        !pane_borders || (forall|i: int| 0 <= i < pane_infos@.len() ==> (#[trigger] pane_infos@[i]).borders.spec_is_empty())
            ==> r@.len() == 0,
        pane_borders && (exists|i: int| 0 <= i < pane_infos@.len() && !(#[trigger] pane_infos@[i]).borders.spec_is_empty())
            ==> {
            let m = border_map(pane_infos@, float_ids@, split_borders@, pane_gaps);
            let float_rect = spec_bounding_rect(float_layer_rects(pane_infos@, float_ids@, stack_bars@));
            let tiled_bars = spec_stack_bars(tiled_panes(pane_infos@, float_ids@));
            &&& forall|i: int|
                0 <= i < r@.len() ==> key_drawn(m, draw_key(#[trigger] r@[i]), area, float_rect, tiled_bars)
                    && draws_cell(r@[i], m, draw_key(r@[i]), pane_infos@, float_ids@, pane_gaps)
            &&& forall|k: u32|
                key_drawn(m, k, area, float_rect, tiled_bars) ==> exists|i: int|
                    0 <= i < r@.len() && #[trigger] draws_cell(r@[i], m, k, pane_infos@, float_ids@, pane_gaps)
            &&& forall|i: int, j: int|
                0 <= i < j < r@.len() ==> (#[trigger] r@[i]).x != (#[trigger] r@[j]).x || r@[i].y != r@[j].y
        },
{
    let mut any_border = false;
    let mut i: usize = 0;
    while i < pane_infos.len()
        invariant
            i <= pane_infos@.len(),
            any_border == exists|j: int| 0 <= j < i && !(#[trigger] pane_infos@[j]).borders.spec_is_empty(),
        decreases pane_infos@.len() - i,
    {
        if !pane_infos[i].borders.is_empty() {
            any_border = true;
        }
        i += 1;
    }
    if !pane_borders || !any_border {
        return Vec::new();
    }
    let tiled_bars = tiled_stack_bars(pane_infos, float_ids);
    let mut cells = BorderCells::new();
    let mut i: usize = 0;
    while i < pane_infos.len()
        invariant
            i <= pane_infos@.len(),
            cells.wf(),
            cells@ == outlined_panes(Map::empty(), pane_infos@.subrange(0, i as int), float_ids@),
        decreases pane_infos@.len() - i,
    {
        assert(pane_infos@.subrange(0, i + 1).drop_last() =~= pane_infos@.subrange(0, i as int));
        let info = &pane_infos[i];
        if !contains_id(float_ids, info.id) && info.rect.height > 1 {
            add_pane_border_cells(&mut cells, info);
        }
        i += 1;
    }
    assert(pane_infos@.subrange(0, pane_infos@.len() as int) =~= pane_infos@);
    add_split_border_cells(pane_gaps, split_borders, &mut cells);
    let float_rect = float_rect(pane_infos, float_ids, stack_bars);
    let ghost m = cells@;
    let ghost keys = cells.keys@;
    let mut out: Vec<BorderDraw> = Vec::new();
    let mut j: usize = 0;
    while j < cells.keys.len()
        invariant
            m == cells@,
            keys == cells.keys@,
            cells.wf(),
            j <= keys.len(),
            m == border_map(pane_infos@, float_ids@, split_borders@, pane_gaps),
            float_rect == spec_bounding_rect(float_layer_rects(pane_infos@, float_ids@, stack_bars@)),
            tiled_bars@ == spec_stack_bars(tiled_panes(pane_infos@, float_ids@)),
            forall|i: int|
                0 <= i < out@.len() ==> key_drawn(m, #[trigger] draw_key(out@[i]), area, float_rect, tiled_bars@)
                    && draws_cell(out@[i], m, draw_key(out@[i]), pane_infos@, float_ids@, pane_gaps)
                    && keys.subrange(0, j as int).contains(draw_key(out@[i])),
            forall|i1: int, i2: int| 0 <= i1 < i2 < out@.len() ==> draw_key(#[trigger] out@[i1]) != draw_key(#[trigger] out@[i2]),
            forall|q: int|
                0 <= q < j && key_drawn(m, #[trigger] keys[q], area, float_rect, tiled_bars@) ==> exists|i: int|
                    0 <= i < out@.len() && draw_key(#[trigger] out@[i]) == keys[q],
        decreases keys.len() - j,
    {
        let k = cells.keys[j];
        assert(m.dom().contains(k)) by {
            assert(keys.contains(k)) by {
                assert(keys[j as int] == k);
            }
        }
        let line = match cells.get(k) {
            Some(line) => line,
            None => LineCell { up: false, down: false, left: false, right: false },
        };
        let x = (k / 65536) as u16;
        let y = (k % 65536) as u16;
        assert(cell_key(x as int, y as int) == k);
        assert(key_x(k) == x as int && key_y(k) == y as int);
        assert(line == m[k]);
        let in_area = x >= area.x && x < area.right() && y >= area.y && y < area.bottom();
        let under_float = match float_rect {
            Some(f) => rect_contains(f, x, y),
            None => false,
        };
        let symbol = line_cell_symbol(line);
        let drawn = in_area && !under_float && !in_any_bar(tiled_bars.as_slice(), x, y) && !symbol.is_empty();
        assert(drawn == key_drawn(m, k, area, float_rect, tiled_bars@));
        let ghost before = out@;
        proof {
            assert forall|i: int| 0 <= i < before.len() implies #[trigger] draw_key(before[i]) != k by {
                assert(keys.subrange(0, j as int).contains(draw_key(before[i])));
                let p = choose|p: int| 0 <= p < j && keys.subrange(0, j as int)[p] == draw_key(before[i]);
                assert(keys[p] == draw_key(before[i]));
                assert(keys.no_duplicates());
            }
        }
        if drawn {
            let focused = touches_focused(pane_infos, float_ids, x, y, pane_gaps);
            out.push(BorderDraw { x, y, symbol, focused });
            proof {
                assert(draw_key(out@[out@.len() - 1]) == k);
                assert(keys.subrange(0, j + 1)[j as int] == k);
            }
        }
        proof {
            assert forall|i: int| 0 <= i < out@.len() implies keys.subrange(0, j + 1).contains(#[trigger] draw_key(out@[i])) by {
                if i < before.len() {
                    assert(out@[i] == before[i]);
                    let p = choose|p: int| 0 <= p < j && keys.subrange(0, j as int)[p] == draw_key(before[i]);
                    assert(keys.subrange(0, j + 1)[p] == draw_key(before[i]));
                } else {
                    assert(keys.subrange(0, j + 1)[j as int] == k);
                }
            }
            assert forall|q: int| 0 <= q < j + 1 && key_drawn(m, #[trigger] keys[q], area, float_rect, tiled_bars@) implies exists|i: int|
                0 <= i < out@.len() && draw_key(#[trigger] out@[i]) == keys[q] by {
                if q < j {
                    let i = choose|i: int| 0 <= i < before.len() && draw_key(#[trigger] before[i]) == keys[q];
                    assert(out@[i] == before[i]);
                } else {
                    assert(draw_key(out@[out@.len() - 1]) == keys[q]);
                }
            }
        }
        j += 1;
    }
    proof {
        assert forall|k: u32| key_drawn(m, k, area, float_rect, tiled_bars@) implies exists|i: int|
            0 <= i < out@.len() && #[trigger] draws_cell(out@[i], m, k, pane_infos@, float_ids@, pane_gaps) by {
            assert(keys.contains(k));
            let q = choose|q: int| 0 <= q < keys.len() && keys[q] == k;
            assert(key_drawn(m, keys[q], area, float_rect, tiled_bars@));
            let i = choose|i: int| 0 <= i < out@.len() && draw_key(#[trigger] out@[i]) == keys[q];
            assert(draws_cell(out@[i], m, draw_key(out@[i]), pane_infos@, float_ids@, pane_gaps));
        }
        assert forall|i1: int, i2: int| 0 <= i1 < i2 < out@.len() implies (#[trigger] out@[i1]).x != (#[trigger] out@[i2]).x
            || out@[i1].y != out@[i2].y by {
            assert(draw_key(out@[i1]) != draw_key(out@[i2]));
        }
    }
    out
}


/// A pane title placed on its top border: `text` written from column `x`
/// of row `y`, cut off after `max_width` columns.
#[derive(Debug, Clone)]
pub struct BorderTitle {
    pub x: u16,
    pub y: u16,
    pub text: String,
    pub max_width: u16,
    pub focused: bool,
}

/// A border title with its text as characters.
pub struct BorderTitleView {
    pub x: u16,
    pub y: u16,
    pub text: Seq<char>,
    pub max_width: u16,
    pub focused: bool,
}

impl View for BorderTitle {
    type V = BorderTitleView;

    open spec fn view(&self) -> BorderTitleView {
        BorderTitleView { x: self.x, y: self.y, text: self.text@, max_width: self.max_width, focused: self.focused }
    }
}

/// The label given for the pane at `i`, if any: labels are index-aligned
/// with the panes, and a pane past the end of them has none.
pub open spec fn label_at(labels: Seq<Option<String>>, i: int) -> Option<Seq<char>> {
    if 0 <= i < labels.len() {
        match labels[i] {
            Some(s) => Some(s@),
            None => None,
        }
    } else {
        None
    }
}

/// Whether a title on row `y` spanning columns `start_x..end_x` runs into
/// `r`.
pub open spec fn title_hits(r: Rect, y: int, start_x: int, end_x: int) -> bool {
    r.y <= y < r.spec_bottom() && start_x < r.spec_right() && end_x > r.x
}

/// The title a pane gets on its top border, if any. Only a pane with a top
/// border, wider than four columns and more than one row high (collapsed
/// stack members label their own bar) and with a non-empty label gets one;
/// it starts one column in, ends one column before the pane's right edge or
/// at the area's right edge, and gives way when its row is outside the
/// area, when it runs into the float layer (for a tiled pane) or into a
/// tiled stack bar.
pub open spec fn title_for(
    info: PaneInfo,
    label: Option<Seq<char>>,
    is_float: bool,
    float_rect: Option<Rect>,
    tiled_bars: Seq<StackBar>,
    area: Rect,
) -> Option<BorderTitleView> {
    let y = info.rect.y as int;
    let start_x = sat_add_u16(info.rect.x as int, 1) as int;
    let pane_end = sat_sub_u16(info.rect.spec_right() as int, 1) as int;
    let end_x = if pane_end < area.spec_right() { pane_end } else { area.spec_right() as int };
    if !info.borders.top || info.rect.width <= 4 || info.rect.height <= 1 {
        None
    } else if !(label matches Some(l) && spec_pane_border_title(l, info.rect.width) is Some) {
        None
    } else if y < area.y || y >= area.spec_bottom() {
        None
    } else if start_x >= end_x {
        None
    } else if !is_float && (float_rect matches Some(f) && title_hits(f, y, start_x, end_x)) {
        None
    } else if exists|i: int| 0 <= i < tiled_bars.len() && title_hits(#[trigger] tiled_bars[i].rect, y, start_x, end_x) {
        None
    } else {
        Some(
            BorderTitleView {
                x: start_x as u16,
                y: y as u16,
                text: spec_pane_border_title(label->0, info.rect.width)->0,
                max_width: (end_x - start_x) as u16,
                focused: info.is_focused,
            },
        )
    }
}

/// The titles of the first `n` panes of `infos`, in order.
pub open spec fn titles_upto(
    infos: Seq<PaneInfo>,
    labels: Seq<Option<String>>,
    float_ids: Seq<PaneId>,
    float_rect: Option<Rect>,
    tiled_bars: Seq<StackBar>,
    area: Rect,
    n: nat,
) -> Seq<BorderTitleView>
    decreases n,
{
    if n == 0 {
        Seq::empty()
    } else {
        let prev = titles_upto(infos, labels, float_ids, float_rect, tiled_bars, area, (n - 1) as nat);
        let i = n - 1;
        match title_for(infos[i], label_at(labels, i), is_float_pane(float_ids, infos[i].id), float_rect, tiled_bars, area) {
            Some(t) => prev.push(t),
            None => prev,
        }
    }
}

/// The titles of a tab's panes, in the panes' order.
pub open spec fn border_titles(
    infos: Seq<PaneInfo>,
    labels: Seq<Option<String>>,
    float_ids: Seq<PaneId>,
    stack_bars: Seq<StackBar>,
    area: Rect,
) -> Seq<BorderTitleView> {
    titles_upto(
        infos,
        labels,
        float_ids,
        spec_bounding_rect(float_layer_rects(infos, float_ids, stack_bars)),
        spec_stack_bars(tiled_panes(infos, float_ids)),
        area,
        infos.len(),
    )
}

fn title_hits_exec(r: Rect, y: u16, start_x: u16, end_x: u16) -> (b: bool)
    ensures
        b == title_hits(r, y as int, start_x as int, end_x as int),
{
    y >= r.y && y < r.bottom() && start_x < r.right() && end_x > r.x
}

fn hits_any_bar(bars: &[StackBar], y: u16, start_x: u16, end_x: u16) -> (b: bool)
    ensures
        b == exists|i: int| 0 <= i < bars@.len() && title_hits(#[trigger] bars@[i].rect, y as int, start_x as int, end_x as int),
{
    let mut i: usize = 0;
    while i < bars.len()
        invariant
            i <= bars@.len(),
            forall|j: int| 0 <= j < i ==> !title_hits(#[trigger] bars@[j].rect, y as int, start_x as int, end_x as int),
        decreases bars@.len() - i,
    {
        if title_hits_exec(bars[i].rect, y, start_x, end_x) {
            return true;
        }
        i += 1;
    }
    false
}

fn title_of(
    info: &PaneInfo,
    label: &Option<String>,
    is_float: bool,
    float_rect: Option<Rect>,
    tiled_bars: &[StackBar],
    area: Rect,
) -> (r: Option<BorderTitle>)
    ensures
        match r {
            Some(t) => title_for(
                *info,
                match label {
                    Some(s) => Some(s@),
                    None => None,
                },
                is_float,
                float_rect,
                tiled_bars@,
                area,
            ) == Some(t@),
            None => title_for(
                *info,
                match label {
                    Some(s) => Some(s@),
                    None => None,
                },
                is_float,
                float_rect,
                tiled_bars@,
                area,
            ) is None,
        },
{
    if !info.borders.top || info.rect.width <= 4 || info.rect.height <= 1 {
        return None;
    }
    let title = match label {
        Some(l) => match pane_border_title(l.as_str(), info.rect.width, info.is_focused) {
            Some(t) => t,
            None => return None,
        },
        None => return None,
    };
    let y = info.rect.y;
    if y < area.y || y >= area.bottom() {
        return None;
    }
    let start_x = info.rect.x.saturating_add(1);
    let pane_end = info.rect.right().saturating_sub(1);
    let area_end = area.right();
    let end_x = if pane_end < area_end { pane_end } else { area_end };
    if start_x >= end_x {
        return None;
    }
    if !is_float {
        if let Some(f) = float_rect {
            if title_hits_exec(f, y, start_x, end_x) {
                return None;
            }
        }
    }
    if hits_any_bar(tiled_bars, y, start_x, end_x) {
        return None;
    }
    Some(BorderTitle { x: start_x, y, text: title, max_width: end_x - start_x, focused: info.is_focused })
}

/// The titles to write on the top borders of a tab's panes, in the panes'
/// order. `labels` holds each pane's label, index-aligned with
/// `pane_infos`; a pane with no label, or past the end of `labels`, gets no
/// title.
pub fn pane_border_titles(
    pane_infos: &[PaneInfo],
    labels: &[Option<String>],
    float_ids: &[PaneId],
    stack_bars: &[StackBar],
    area: Rect,
) -> (r: Vec<BorderTitle>)
    requires
        pane_infos@.len() < usize::MAX,
    ensures
        r@.len() == border_titles(pane_infos@, labels@, float_ids@, stack_bars@, area).len(),
        forall|i: int| 0 <= i < r@.len() ==> (#[trigger] r@[i])@ == border_titles(pane_infos@, labels@, float_ids@, stack_bars@, area)[i],
{
    let float_rect = float_rect(pane_infos, float_ids, stack_bars);
    let tiled_bars = tiled_stack_bars(pane_infos, float_ids);
    let ghost fr = spec_bounding_rect(float_layer_rects(pane_infos@, float_ids@, stack_bars@));
    let ghost tb = spec_stack_bars(tiled_panes(pane_infos@, float_ids@));
    let mut out: Vec<BorderTitle> = Vec::new();
    let mut i: usize = 0;
    while i < pane_infos.len()
        invariant
            i <= pane_infos@.len(),
            float_rect == fr,
            tiled_bars@ == tb,
            out@.len() == titles_upto(pane_infos@, labels@, float_ids@, fr, tb, area, i as nat).len(),
            forall|q: int|
                0 <= q < out@.len() ==> (#[trigger] out@[q])@ == titles_upto(pane_infos@, labels@, float_ids@, fr, tb, area, i as nat)[q],
        decreases pane_infos@.len() - i,
    {
        let info = &pane_infos[i];
        let none: Option<String> = None;
        let label = if i < labels.len() { &labels[i] } else { &none };
        assert(match *label {
            Some(s) => Some(s@),
            None => None,
        } == label_at(labels@, i as int));
        let is_float = contains_id(float_ids, info.id);
        let ghost before = out@;
        match title_of(info, label, is_float, float_rect, tiled_bars.as_slice(), area) {
            Some(t) => {
                out.push(t);
                assert forall|q: int| 0 <= q < out@.len() implies (#[trigger] out@[q])@ == titles_upto(
                    pane_infos@,
                    labels@,
                    float_ids@,
                    fr,
                    tb,
                    area,
                    (i + 1) as nat,
                )[q] by {
                    if q < before.len() {
                        assert(out@[q] == before[q]);
                    }
                }
            },
            None => {},
        }
        i += 1;
    }
    out
}

} // verus!
