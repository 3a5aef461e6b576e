//! What one frame draws for a tab's panes: where each pane and its content
//! go, whose terminal content is drawn, with or without the host cursor
//! and dimmed or not, and which stack bars are drawn.

use vstd::prelude::*;

use std::collections::HashMap;

use crate::geometry::{split_rect_spec, Rect};
use crate::layout::{lemma_pane_infos_wf, pane_infos, PaneId, PaneInfo, Tree};
use crate::pane_borders::{contains_id, is_float_pane, tiled_panes};
use crate::panes::{
    apply_pane_chrome, chromed_pane, float_pane, float_pane_infos, lemma_pane_inner_rect_wf, pane_inner_rect,
    scrollbar_gutter, spec_pane_inner_rect, spec_scrollbar_gutter, spec_shrink_for_one_cell_gap, spec_stack_bars,
    spec_zoomed_borders, stack_bars_for, zoomed_borders,
};
use crate::popup_size::{popup_geometry, resolve_popup_geometry, PopupSize, StackBar};
use crate::tab::Tab;

verus! {

broadcast use vstd::std_specs::hash::group_hash_axioms;

/// How one pane's terminal content is drawn: into `inner_rect`, showing
/// the host cursor or not, dimmed or not; `float` for a pane of the float
/// layer, which is drawn in a frame of its own over the tiled panes.
#[derive(Debug, Clone, Copy, PartialEq, Eq, Structural)]
pub struct ContentDraw {
    pub id: PaneId,
    pub inner_rect: Rect,
    pub show_cursor: bool,
    pub dim: bool,
    pub float: bool,
}

/// The flag given for the pane at `i`: flags are index-aligned with the
/// panes, and a pane past the end of them has it unset.
pub open spec fn flag_at(flags: Seq<bool>, i: int) -> bool {
    0 <= i < flags.len() && flags[i]
}

/// How a pane's content is drawn, if it is: only a pane more than one row
/// high (collapsed and folded stack members are drawn as bars) and with a
/// terminal to draw. The host cursor shows in the focused pane while the
/// terminal has the keyboard and the pane lets it show; outside terminal
/// mode a tiled pane other than the focused one is dimmed when there are
/// several.
pub open spec fn content_draw_for(
    info: PaneInfo,
    float: bool,
    has_terminal: bool,
    cursor_allowed: bool,
    multi_pane: bool,
    terminal_active: bool,
) -> Option<ContentDraw> {
    if info.rect.height <= 1 || !has_terminal {
        None
    } else {
        Some(
            ContentDraw {
                id: info.id,
                inner_rect: info.inner_rect,
                show_cursor: info.is_focused && terminal_active && cursor_allowed,
                dim: !float && !info.is_focused && multi_pane && !terminal_active,
                float,
            },
        )
    }
}

/// The content draws of the first `n` panes of `infos` that are in the
/// float layer (`floats`) or in the tiled one (`!floats`), in order.
pub open spec fn layer_draws_upto(
    infos: Seq<PaneInfo>,
    float_ids: Seq<PaneId>,
    floats: bool,
    has_terminal: Seq<bool>,
    cursor_allowed: Seq<bool>,
    multi_pane: bool,
    terminal_active: bool,
    n: nat,
) -> Seq<ContentDraw>
    decreases n,
{
    if n == 0 {
        Seq::empty()
    } else {
        let prev = layer_draws_upto(infos, float_ids, floats, has_terminal, cursor_allowed, multi_pane, terminal_active, (n - 1) as nat);
        let i = n - 1;
        if is_float_pane(float_ids, infos[i].id) != floats {
            prev
        } else {
            match content_draw_for(infos[i], floats, flag_at(has_terminal, i), flag_at(cursor_allowed, i), multi_pane, terminal_active) {
                Some(d) => prev.push(d),
                None => prev,
            }
        }
    }
}

/// The content draws of a frame: the tiled panes first, then the floats
/// over them, each layer in the panes' order.
pub open spec fn content_draws(
    infos: Seq<PaneInfo>,
    float_ids: Seq<PaneId>,
    has_terminal: Seq<bool>,
    cursor_allowed: Seq<bool>,
    multi_pane: bool,
    terminal_active: bool,
) -> Seq<ContentDraw> {
    layer_draws_upto(infos, float_ids, false, has_terminal, cursor_allowed, multi_pane, terminal_active, infos.len())
        + layer_draws_upto(infos, float_ids, true, has_terminal, cursor_allowed, multi_pane, terminal_active, infos.len())
}

fn flag(flags: &[bool], i: usize) -> (r: bool)
    ensures
        r == flag_at(flags@, i as int),
{
    i < flags.len() && flags[i]
}

fn layer_draws(
    pane_infos: &[PaneInfo],
    float_ids: &[PaneId],
    floats: bool,
    has_terminal: &[bool],
    cursor_allowed: &[bool],
    multi_pane: bool,
    terminal_active: bool,
) -> (r: Vec<ContentDraw>)
    ensures
        r@ == layer_draws_upto(
            pane_infos@,
            float_ids@,
            floats,
            has_terminal@,
            cursor_allowed@,
            multi_pane,
            terminal_active,
            pane_infos@.len(),
        ),
{
    let mut out: Vec<ContentDraw> = Vec::new();
    let mut i: usize = 0;
    while i < pane_infos.len()
        invariant
            i <= pane_infos@.len(),
            out@ == layer_draws_upto(
                pane_infos@,
                float_ids@,
                floats,
                has_terminal@,
                cursor_allowed@,
                multi_pane,
                terminal_active,
                i as nat,
            ),
        decreases pane_infos@.len() - i,
    {
        let info = &pane_infos[i];
        if contains_id(float_ids, info.id) == floats && info.rect.height > 1 && flag(has_terminal, i) {
            out.push(
                ContentDraw {
                    id: info.id,
                    inner_rect: info.inner_rect,
                    show_cursor: info.is_focused && terminal_active && flag(cursor_allowed, i),
                    dim: !floats && !info.is_focused && multi_pane && !terminal_active,
                    float: floats,
                },
            );
        }
        i += 1;
    }
    out
}

/// Whose terminal content a frame draws, and how. `has_terminal` and
/// `cursor_allowed` are index-aligned with `pane_infos`: whether the pane
/// has a terminal to draw, and whether that terminal lets the host cursor
/// show (it is not scrolled back and exposes its cursor); a pane past the
/// end of either has the flag unset. `multi_pane` is whether the
/// workspace has more than one tiled pane, `terminal_active` whether the
/// terminal has the keyboard.
pub fn pane_content_draws(
    pane_infos: &[PaneInfo],
    float_ids: &[PaneId],
    has_terminal: &[bool],
    cursor_allowed: &[bool],
    multi_pane: bool,
    terminal_active: bool,
) -> (r: Vec<ContentDraw>)
    ensures
        r@ == content_draws(pane_infos@, float_ids@, has_terminal@, cursor_allowed@, multi_pane, terminal_active),
{
    let mut tiled = layer_draws(pane_infos, float_ids, false, has_terminal, cursor_allowed, multi_pane, terminal_active);
    let mut floats = layer_draws(pane_infos, float_ids, true, has_terminal, cursor_allowed, multi_pane, terminal_active);
    tiled.append(&mut floats);
    tiled
}

/// The floats among `infos`, in order.
pub open spec fn float_panes(infos: Seq<PaneInfo>, float_ids: Seq<PaneId>) -> Seq<PaneInfo>
    decreases infos.len(),
{
    if infos.len() == 0 {
        Seq::empty()
    } else {
        let rest = float_panes(infos.drop_last(), float_ids);
        if is_float_pane(float_ids, infos.last().id) {
            rest.push(infos.last())
        } else {
            rest
        }
    }
}

fn floats_of(pane_infos: &[PaneInfo], float_ids: &[PaneId]) -> (r: Vec<PaneInfo>)
    ensures
        r@ == float_panes(pane_infos@, float_ids@),
        r@.len() <= pane_infos@.len(),
{
    let mut out: Vec<PaneInfo> = Vec::new();
    let mut i: usize = 0;
    while i < pane_infos.len()
        invariant
            i <= pane_infos@.len(),
            out@ == float_panes(pane_infos@.subrange(0, i as int), float_ids@),
            out@.len() <= i,
        decreases pane_infos@.len() - i,
    {
        assert(pane_infos@.subrange(0, i + 1).drop_last() =~= pane_infos@.subrange(0, i as int));
        if contains_id(float_ids, pane_infos[i].id) {
            out.push(pane_infos[i]);
        }
        i += 1;
    }
    assert(pane_infos@.subrange(0, pane_infos@.len() as int) =~= pane_infos@);
    out
}

/// The stack bars a frame draws, in drawing order: the float layer's own
/// bars (`stack_bars`), then the bars of the tiled stacks, then those of a
/// stacked float layer.
pub open spec fn bars_to_draw(infos: Seq<PaneInfo>, float_ids: Seq<PaneId>, stack_bars: Seq<StackBar>) -> Seq<StackBar> {
    stack_bars + spec_stack_bars(tiled_panes(infos, float_ids)) + spec_stack_bars(float_panes(infos, float_ids))
}

/// The stack bars a frame draws, in drawing order.
pub fn stack_bars_to_draw(pane_infos: &[PaneInfo], float_ids: &[PaneId], stack_bars: &[StackBar]) -> (r: Vec<StackBar>)
    requires
        pane_infos@.len() < usize::MAX,
    ensures
        r@ == bars_to_draw(pane_infos@, float_ids@, stack_bars@),
{
    let mut out: Vec<StackBar> = Vec::new();
    let mut i: usize = 0;
    while i < stack_bars.len()
        invariant
            i <= stack_bars@.len(),
            out@ == stack_bars@.subrange(0, i as int),
        decreases stack_bars@.len() - i,
    {
        out.push(stack_bars[i]);
        i += 1;
    }
    assert(stack_bars@.subrange(0, stack_bars@.len() as int) =~= stack_bars@);
    let mut tiled = crate::pane_borders::tiled_stack_bars(pane_infos, float_ids);
    let floats = floats_of(pane_infos, float_ids);
    let mut float_bars = stack_bars_for(floats.as_slice());
    out.append(&mut tiled);
    out.append(&mut float_bars);
    out
}

/// The settings pane chrome is drawn with: borders between panes, gaps
/// between them, borders along the outer edges, and a column kept for a
/// scrollbar.
#[derive(Debug, Clone, Copy, PartialEq, Eq, Structural)]
pub struct PaneChrome {
    pub pane_borders: bool,
    pub pane_gaps: bool,
    pub pane_outer_borders: bool,
    pub pane_scrollbars: bool,
}

/// A pane with its content area set: inside `pane_inner`, less a column for
/// the scrollbar when the pane has a terminal (a key of `scrollbars`, whose
/// value says whether that terminal shows a scrollbar now).
pub open spec fn with_content(info: PaneInfo, pane_inner: Rect, pane_scrollbars: bool, scrollbars: Map<u32, bool>) -> PaneInfo {
    if scrollbars.contains_key(info.id.0) {
        let (inner, lane) = spec_scrollbar_gutter(pane_inner, pane_scrollbars, scrollbars[info.id.0]);
        PaneInfo { inner_rect: inner, scrollbar_rect: lane, ..info }
    } else {
        PaneInfo { inner_rect: pane_inner, scrollbar_rect: None, ..info }
    }
}

/// The tiled panes of a tab laid out in `area`: a zoomed tab shows its
/// focused pane over the whole area, with all borders when it stands for
/// several panes and outer borders are on, a title strip when it is the
/// only pane; otherwise every pane gets its chrome. A tiled pane is
/// focused only while the float layer does not hold focus.
pub open spec fn tiled_infos(tab: Tab, area: Rect, chrome: PaneChrome, scrollbars: Map<u32, bool>) -> Seq<PaneInfo> {
    let multi = tab.layout@.ids().len() > 1;
    if tab.zoomed {
        let borders = spec_zoomed_borders(multi, chrome.pane_borders, chrome.pane_outer_borders);
        let pane_inner = spec_pane_inner_rect(area, borders);
        let info = PaneInfo {
            id: tab.layout@.focus,
            rect: area,
            inner_rect: pane_inner,
            scrollbar_rect: None,
            borders,
            is_focused: !tab.float_focused,
        };
        seq![with_content(info, pane_inner, chrome.pane_scrollbars, scrollbars)]
    } else {
        let raw = pane_infos(tab.layout@.tree, area, tab.layout@.focus);
        Seq::new(
            raw.len(),
            |i: int|
                {
                    let c = chromed_pane(raw, i, chrome.pane_borders, chrome.pane_gaps, chrome.pane_outer_borders);
                    let placed = with_content(c, spec_pane_inner_rect(c.rect, c.borders), chrome.pane_scrollbars, scrollbars);
                    PaneInfo { is_focused: !tab.float_focused && c.is_focused, ..placed }
                },
        )
    }
}

/// The float panes of a tab, laid out in the float region its size
/// settings give in `area`: none while the layer is hidden or absent or
/// the area is too small for the region.
pub open spec fn float_infos(tab: Tab, area: Rect, float_width: Option<PopupSize>, float_height: Option<PopupSize>) -> Seq<
    PaneInfo,
> {
    match tab.floats_state() {
        Some(s) => if tab.floats_hidden {
            Seq::empty()
        } else {
            match popup_geometry(float_width, float_height, area) {
                Some(g) => {
                    let raw = pane_infos(s.tree, g.outer, s.focus);
                    Seq::new(raw.len(), |i: int| float_pane(raw[i], tab.float_focused, tab.spec_focused_float()))
                },
                None => Seq::empty(),
            }
        },
        None => Seq::empty(),
    }
}

fn place_content(info: PaneInfo, pane_inner: Rect, pane_scrollbars: bool, scrollbars: &HashMap<u32, bool>) -> (r: PaneInfo)
    requires
        pane_inner.wf(),
    ensures
        r == with_content(info, pane_inner, pane_scrollbars, scrollbars@),
{
    match scrollbars.get(&info.id.0) {
        Some(shows) => {
            let (inner, lane) = scrollbar_gutter(pane_inner, pane_scrollbars, *shows);
            PaneInfo { inner_rect: inner, scrollbar_rect: lane, ..info }
        },
        None => PaneInfo { inner_rect: pane_inner, scrollbar_rect: None, ..info },
    }
}

/// Where a tab's panes go in `area` this frame: its tiled panes first, then
/// its floats over them, so that a search for the pane under a point that
/// walks the list backwards meets a float before the pane it covers.
/// `scrollbars` holds, for each pane whose terminal runs, whether that
/// terminal shows a scrollbar now; `float_width` and `float_height` are the
/// float region's size settings.
pub fn compute_pane_infos(
    tab: &Tab,
    area: Rect,
    chrome: PaneChrome,
    float_width: Option<PopupSize>,
    float_height: Option<PopupSize>,
    scrollbars: &HashMap<u32, bool>,
) -> (r: Vec<PaneInfo>)
    requires
        area.wf(),
    ensures
        r@ == tiled_infos(*tab, area, chrome, scrollbars@) + float_infos(*tab, area, float_width, float_height),
{
    let multi = tab.layout.pane_count() > 1;
    let mut out: Vec<PaneInfo> = Vec::new();
    if tab.zoomed {
        let borders = zoomed_borders(multi, chrome.pane_borders, chrome.pane_outer_borders);
        let pane_inner = pane_inner_rect(area, borders);
        proof {
            lemma_pane_inner_rect_wf(area, borders);
        }
        let info = PaneInfo {
            id: tab.layout.focused(),
            rect: area,
            inner_rect: pane_inner,
            scrollbar_rect: None,
            borders,
            is_focused: !tab.float_focused,
        };
        out.push(place_content(info, pane_inner, chrome.pane_scrollbars, scrollbars));
        assert(out@ =~= tiled_infos(*tab, area, chrome, scrollbars@));
    } else {
        let raw = tab.layout.panes(area);
        let ghost raw_view = raw@;
        proof {
            lemma_pane_infos_wf(tab.layout@.tree, area, tab.layout@.focus);
        }
        let chromed = apply_pane_chrome(raw, chrome.pane_borders, chrome.pane_gaps, chrome.pane_outer_borders);
        let mut i: usize = 0;
        while i < chromed.len()
            invariant
                i <= chromed@.len(),
                chromed@.len() == raw_view.len(),
                raw_view == pane_infos(tab.layout@.tree, area, tab.layout@.focus),
                forall|k: int| 0 <= k < raw_view.len() ==> (#[trigger] raw_view[k]).rect.wf(),
                forall|k: int|
                    0 <= k < raw_view.len() ==> #[trigger] chromed@[k] == chromed_pane(
                        raw_view,
                        k,
                        chrome.pane_borders,
                        chrome.pane_gaps,
                        chrome.pane_outer_borders,
                    ),
                out@.len() == i,
                forall|k: int| 0 <= k < i ==> #[trigger] out@[k] == tiled_infos(*tab, area, chrome, scrollbars@)[k],
                !tab.zoomed,
            decreases chromed@.len() - i,
        {
            let c = chromed[i];
            proof {
                assert(raw_view[i as int].rect.wf());
                assert(spec_shrink_for_one_cell_gap(raw_view[i as int].rect.width) <= raw_view[i as int].rect.width);
                assert(spec_shrink_for_one_cell_gap(raw_view[i as int].rect.height) <= raw_view[i as int].rect.height);
                assert(c.rect.wf());
                lemma_pane_inner_rect_wf(c.rect, c.borders);
            }
            let pane_inner = pane_inner_rect(c.rect, c.borders);
            let placed = place_content(c, pane_inner, chrome.pane_scrollbars, scrollbars);
            out.push(PaneInfo { is_focused: !tab.float_focused && c.is_focused, ..placed });
            i += 1;
        }
        assert(out@ =~= tiled_infos(*tab, area, chrome, scrollbars@));
    }
    let ghost tiled = out@;
    if !tab.floats_hidden {
        if let Some(layout) = &tab.float_layout {
            if let Some(g) = resolve_popup_geometry(float_width, float_height, area) {
                let raw = layout.panes(g.outer);
                let floats = float_pane_infos(raw, tab.float_focused, tab.focused_float());
                let mut j: usize = 0;
                while j < floats.len()
                    invariant
                        j <= floats@.len(),
                        out@ == tiled + floats@.subrange(0, j as int),
                    decreases floats@.len() - j,
                {
                    out.push(floats[j]);
                    j += 1;
                    assert(out@ =~= tiled + floats@.subrange(0, j as int));
                }
                assert(floats@.subrange(0, floats@.len() as int) =~= floats@);
                assert(floats@ =~= float_infos(*tab, area, float_width, float_height));
                return out;
            }
        }
    }
    assert(float_infos(*tab, area, float_width, float_height) =~= Seq::<PaneInfo>::empty());
    assert(out@ =~= tiled + Seq::<PaneInfo>::empty());
    out
}

/// A terminal to resize to the content area its pane got this frame.
#[derive(Debug, Clone, Copy, PartialEq, Eq, Structural)]
pub struct PaneResize {
    pub id: PaneId,
    pub rows: u16,
    pub cols: u16,
}

/// The resize a pane's terminal gets, if any: a tiled pane's terminal is
/// resized to its content area unless something holds its size, a float's
/// only when the float is expanded (a collapsed or folded member's box
/// would reflow it for nothing).
pub open spec fn resize_for(info: PaneInfo, float: bool, has_terminal: bool, size_locked: bool) -> Option<PaneResize> {
    let resize = PaneResize { id: info.id, rows: info.inner_rect.height, cols: info.inner_rect.width };
    if !has_terminal {
        None
    } else if float {
        if info.rect.height > 1 { Some(resize) } else { None }
    } else if size_locked {
        None
    } else {
        Some(resize)
    }
}

/// The resizes of the first `n` panes of `infos`, in order.
pub open spec fn resizes_upto(
    infos: Seq<PaneInfo>,
    float_ids: Seq<PaneId>,
    has_terminal: Seq<bool>,
    size_locked: Seq<bool>,
    n: nat,
) -> Seq<PaneResize>
    decreases n,
{
    if n == 0 {
        Seq::empty()
    } else {
        let prev = resizes_upto(infos, float_ids, has_terminal, size_locked, (n - 1) as nat);
        let i = n - 1;
        match resize_for(infos[i], is_float_pane(float_ids, infos[i].id), flag_at(has_terminal, i), flag_at(size_locked, i)) {
            Some(r) => prev.push(r),
            None => prev,
        }
    }
}

/// The terminals to resize after laying a tab's panes out, in the panes'
/// order. `has_terminal` and `size_locked` are index-aligned with
/// `pane_infos`: whether the pane's terminal runs, and whether something
/// else holds its size; a pane past the end of either has the flag unset.
pub fn pane_resizes(pane_infos: &[PaneInfo], float_ids: &[PaneId], has_terminal: &[bool], size_locked: &[bool]) -> (r: Vec<
    PaneResize,
>)
    ensures
        r@ == resizes_upto(pane_infos@, float_ids@, has_terminal@, size_locked@, pane_infos@.len()),
{
    let mut out: Vec<PaneResize> = Vec::new();
    let mut i: usize = 0;
    while i < pane_infos.len()
        invariant
            i <= pane_infos@.len(),
            out@ == resizes_upto(pane_infos@, float_ids@, has_terminal@, size_locked@, i as nat),
        decreases pane_infos@.len() - i,
    {
        let info = &pane_infos[i];
        let resize = PaneResize { id: info.id, rows: info.inner_rect.height, cols: info.inner_rect.width };
        if flag(has_terminal, i) {
            if contains_id(float_ids, info.id) {
                if info.rect.height > 1 {
                    out.push(resize);
                }
            } else if !flag(size_locked, i) {
                out.push(resize);
            }
        }
        i += 1;
    }
    out
}

/// The ids of the panes laid out, in order.
pub open spec fn info_ids(infos: Seq<PaneInfo>) -> Seq<PaneId> {
    infos.map_values(|info: PaneInfo| info.id)
}

proof fn lemma_pane_infos_ids(t: Tree, area: Rect, focus: PaneId)
    ensures
        info_ids(pane_infos(t, area, focus)) == t.ids(),
    decreases t,
{
    match t {
        Tree::Pane(_) => {
            assert(info_ids(pane_infos(t, area, focus)) =~= t.ids());
        },
        Tree::Split { direction, ratio, first, second } => {
            let (a, b) = split_rect_spec(area, direction, ratio);
            lemma_pane_infos_ids(*first, a, focus);
            lemma_pane_infos_ids(*second, b, focus);
            assert(info_ids(pane_infos(*first, a, focus) + pane_infos(*second, b, focus)) =~= info_ids(
                pane_infos(*first, a, focus),
            ) + info_ids(pane_infos(*second, b, focus)));
        },
        Tree::Stack { .. } => {
            assert(info_ids(pane_infos(t, area, focus)) =~= t.ids());
        },
    }
}

/// Whether a tab's float layer is laid out this frame: it exists, is shown,
/// and the area holds a float region.
pub open spec fn floats_laid_out(tab: Tab, area: Rect, float_width: Option<PopupSize>, float_height: Option<PopupSize>) -> bool {
    tab.floats_state() is Some && !tab.floats_hidden && popup_geometry(float_width, float_height, area) is Some
}

/// A frame lays out exactly the panes a tab shows, in order: its tiled
/// panes in layout order (only the focused one while the tab is zoomed),
/// then, while the float layer shows and the area holds a float region,
/// every float in layer order, collapsed members included.
pub proof fn lemma_a_frame_lays_out_the_shown_panes(
    tab: Tab,
    area: Rect,
    chrome: PaneChrome,
    float_width: Option<PopupSize>,
    float_height: Option<PopupSize>,
    scrollbars: Map<u32, bool>,
)
    ensures
        info_ids(tiled_infos(tab, area, chrome, scrollbars) + float_infos(tab, area, float_width, float_height)) == (if tab.zoomed {
            seq![tab.layout@.focus]
        } else {
            tab.layout@.ids()
        }) + (if floats_laid_out(tab, area, float_width, float_height) {
            tab.float_ids()
        } else {
            Seq::empty()
        }),
{
    let tiled = tiled_infos(tab, area, chrome, scrollbars);
    let floats = float_infos(tab, area, float_width, float_height);
    assert(info_ids(tiled + floats) =~= info_ids(tiled) + info_ids(floats));
    if tab.zoomed {
        assert(info_ids(tiled) =~= seq![tab.layout@.focus]);
    } else {
        let raw = pane_infos(tab.layout@.tree, area, tab.layout@.focus);
        lemma_pane_infos_ids(tab.layout@.tree, area, tab.layout@.focus);
        assert(info_ids(tiled) =~= info_ids(raw));
    }
    if floats_laid_out(tab, area, float_width, float_height) {
        let s = tab.floats_state()->0;
        let g = popup_geometry(float_width, float_height, area)->0;
        lemma_pane_infos_ids(s.tree, g.outer, s.focus);
        assert(info_ids(floats) =~= info_ids(pane_infos(s.tree, g.outer, s.focus)));
    } else {
        assert(info_ids(floats) =~= Seq::<PaneId>::empty());
    }
}

} // verus!
