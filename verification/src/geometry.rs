//! Cell rectangles, split directions, split ratios and border sets.

use vstd::prelude::*;

verus! {

/// The largest coordinate a terminal cell can have.
pub const MAX_COORD: u16 = 65535;

/// A rectangle of terminal cells.
#[derive(Debug, Clone, Copy, PartialEq, Eq, Hash, Default, Structural)]
pub struct Rect {
    pub x: u16,
    pub y: u16,
    pub width: u16,
    pub height: u16,
}

/// The rectangle `Rect::new` builds: width and height are clamped so the
/// right and bottom edges stay within the coordinate range.
pub open spec fn rect_new(x: u16, y: u16, width: u16, height: u16) -> Rect {
    Rect {
        x,
        y,
        width: if width > MAX_COORD - x { (MAX_COORD - x) as u16 } else { width },
        height: if height > MAX_COORD - y { (MAX_COORD - y) as u16 } else { height },
    }
}

pub open spec fn sat_add_u16(a: int, b: int) -> u16 {
    if a + b > MAX_COORD { MAX_COORD } else { (a + b) as u16 }
}

pub open spec fn sat_sub_u16(a: int, b: int) -> u16 {
    if a - b < 0 { 0 } else { (a - b) as u16 }
}

impl Rect {
    /// A rectangle whose right and bottom edges fit the coordinate range,
    /// which every rectangle built by `Rect::new` satisfies.
    pub open spec fn wf(self) -> bool {
        self.x + self.width <= MAX_COORD && self.y + self.height <= MAX_COORD
    }

    pub open spec fn spec_right(self) -> u16 {
        sat_add_u16(self.x as int, self.width as int)
    }

    pub open spec fn spec_bottom(self) -> u16 {
        sat_add_u16(self.y as int, self.height as int)
    }

    /// Builds a rectangle, clamping its size to the coordinate range.
    pub fn new(x: u16, y: u16, width: u16, height: u16) -> (r: Rect)
        ensures
            r == rect_new(x, y, width, height),
            r.wf(),
    {
        let max_width = MAX_COORD - x;
        let max_height = MAX_COORD - y;
        Rect {
            x,
            y,
            width: if width > max_width { max_width } else { width },
            height: if height > max_height { max_height } else { height },
        }
    }

    /// The first column to the right of the rectangle.
    pub fn right(self) -> (r: u16)
        ensures
            r == self.spec_right(),
    {
        self.x.saturating_add(self.width)
    }

    /// The first row below the rectangle.
    pub fn bottom(self) -> (r: u16)
        ensures
            r == self.spec_bottom(),
    {
        self.y.saturating_add(self.height)
    }

    /// The cells `self` and `other` share: the rectangle from the larger of
    /// their left and top edges to the smaller of their right and bottom
    /// edges, empty when they do not overlap.
    pub open spec fn spec_intersection(self, other: Rect) -> Rect {
        let x1 = if self.x > other.x { self.x } else { other.x };
        let y1 = if self.y > other.y { self.y } else { other.y };
        let x2 = if self.spec_right() < other.spec_right() { self.spec_right() } else { other.spec_right() };
        let y2 = if self.spec_bottom() < other.spec_bottom() { self.spec_bottom() } else { other.spec_bottom() };
        Rect { x: x1, y: y1, width: sat_sub_u16(x2 as int, x1 as int), height: sat_sub_u16(y2 as int, y1 as int) }
    }

    /// The cells `self` and `other` share.
    pub fn intersection(self, other: Rect) -> (r: Rect)
        ensures
            r == self.spec_intersection(other),
    {
        let x1 = if self.x > other.x { self.x } else { other.x };
        let y1 = if self.y > other.y { self.y } else { other.y };
        let x2 = if self.right() < other.right() { self.right() } else { other.right() };
        let y2 = if self.bottom() < other.bottom() { self.bottom() } else { other.bottom() };
        Rect { x: x1, y: y1, width: x2.saturating_sub(x1), height: y2.saturating_sub(y1) }
    }
}

/// The orientation of a split: `Horizontal` lays its children side by side,
/// `Vertical` stacks them top to bottom.
#[derive(Debug, Clone, Copy, PartialEq, Eq, Hash, Structural)]
pub enum Direction {
    Horizontal,
    Vertical,
}

/// One million: the scale of a `Ratio`.
pub const RATIO_SCALE: u32 = 1_000_000;

/// The share of a split's area given to its first child, in millionths.
/// Values above one million give the first child the whole area.
#[derive(Debug, Clone, Copy, PartialEq, Eq, Hash, Structural)]
pub struct Ratio(pub u32);

impl Ratio {
    /// The share in millionths, capped at the whole area.
    pub open spec fn share(self) -> int {
        if self.0 > RATIO_SCALE { RATIO_SCALE as int } else { self.0 as int }
    }

    /// An even split.
    pub open spec fn spec_half() -> Ratio {
        Ratio(500_000)
    }

    pub fn half() -> (r: Ratio)
        ensures
            r == Ratio::spec_half(),
    {
        Ratio(500_000)
    }

    /// The smallest and largest shares a user-set split keeps.
    pub open spec fn spec_clamp_user(self) -> Ratio {
        if self.0 < 100_000 {
            Ratio(100_000)
        } else if self.0 > 900_000 {
            Ratio(900_000)
        } else {
            self
        }
    }

    /// Clamp to the range a split keeps when a user sets or resizes it.
    pub fn clamp_user(self) -> (r: Ratio)
        ensures
            r == self.spec_clamp_user(),
    {
        if self.0 < 100_000 {
            Ratio(100_000)
        } else if self.0 > 900_000 {
            Ratio(900_000)
        } else {
            self
        }
    }
}

/// The share of `count` even parts: one million divided by `count`,
/// rounded half up.
pub open spec fn even_share(count: nat) -> nat
    recommends
        count > 0,
{
    ((2 * RATIO_SCALE as int + count as int) / (2 * count as int)) as nat
}

/// The ratio that gives the first of `count` equal children its share.
pub fn even_ratio(count: usize) -> (r: Ratio)
    requires
        count > 0,
    ensures
        r.0 == even_share(count as nat),
{
    if count > 2_000_000 {
        assert((2 * RATIO_SCALE as int + count as int) / (2 * count as int) == 0) by (nonlinear_arith)
            requires
                count > 2_000_000,
        ;
        Ratio(0)
    } else {
        let c: u64 = count as u64;
        let v: u64 = (2_000_000 + c) / (2 * c);
        assert(v <= 1_000_000) by (nonlinear_arith)
            requires
                c >= 1,
                v == (2_000_000 + c) / (2 * c),
        ;
        Ratio(v as u32)
    }
}

/// `part` of `total` cells under a share in millionths, rounded half up.
pub open spec fn scaled(total: int, share: int) -> int {
    (2 * total * share + RATIO_SCALE) / (2 * RATIO_SCALE as int)
}

pub(crate) proof fn lemma_scaled_bounds(total: int, share: int)
    requires
        0 <= total,
        0 <= share <= RATIO_SCALE,
    ensures
        0 <= scaled(total, share) <= total,
{
    assert(0 <= (2 * total * share + RATIO_SCALE) / (2 * RATIO_SCALE as int) <= total)
        by (nonlinear_arith)
        requires
            0 <= total,
            0 <= share <= RATIO_SCALE,
    ;
}

/// The two halves `split_rect` cuts `area` into.
pub open spec fn split_rect_spec(area: Rect, direction: Direction, ratio: Ratio) -> (Rect, Rect) {
    match direction {
        Direction::Horizontal => {
            let first = scaled(area.width as int, ratio.share()) as u16;
            (
                Rect { x: area.x, y: area.y, width: first, height: area.height },
                Rect {
                    x: (area.x + first) as u16,
                    y: area.y,
                    width: (area.width - first) as u16,
                    height: area.height,
                },
            )
        },
        Direction::Vertical => {
            let first = scaled(area.height as int, ratio.share()) as u16;
            (
                Rect { x: area.x, y: area.y, width: area.width, height: first },
                Rect {
                    x: area.x,
                    y: (area.y + first) as u16,
                    width: area.width,
                    height: (area.height - first) as u16,
                },
            )
        },
    }
}

pub(crate) proof fn lemma_split_rect_wf(area: Rect, direction: Direction, ratio: Ratio)
    requires
        area.wf(),
    ensures
        split_rect_spec(area, direction, ratio).0.wf(),
        split_rect_spec(area, direction, ratio).1.wf(),
{
    lemma_scaled_bounds(area.width as int, ratio.share());
    lemma_scaled_bounds(area.height as int, ratio.share());
}

/// Cut `area` in two along `direction`, giving the first part `ratio` of it.
pub fn split_rect(area: Rect, direction: Direction, ratio: Ratio) -> (r: (Rect, Rect))
    requires
        area.wf(),
    ensures
        r == split_rect_spec(area, direction, ratio),
        r.0.wf(),
        r.1.wf(),
{
    let share: u64 = if ratio.0 > RATIO_SCALE { RATIO_SCALE as u64 } else { ratio.0 as u64 };
    match direction {
        Direction::Horizontal => {
            proof {
                lemma_scaled_bounds(area.width as int, share as int);
            }
            let first: u64 = (2 * (area.width as u64) * share + 1_000_000) / 2_000_000;
            let first_w = first as u16;
            let second_w = area.width - first_w;
            (
                Rect { x: area.x, y: area.y, width: first_w, height: area.height },
                Rect { x: area.x + first_w, y: area.y, width: second_w, height: area.height },
            )
        },
        Direction::Vertical => {
            proof {
                lemma_scaled_bounds(area.height as int, share as int);
            }
            let first: u64 = (2 * (area.height as u64) * share + 1_000_000) / 2_000_000;
            let first_h = first as u16;
            let second_h = area.height - first_h;
            (
                Rect { x: area.x, y: area.y, width: area.width, height: first_h },
                Rect { x: area.x, y: area.y + first_h, width: area.width, height: second_h },
            )
        },
    }
}

/// Which sides of a pane carry a border line.
#[derive(Debug, Clone, Copy, PartialEq, Eq, Hash, Default, Structural)]
pub struct Borders {
    pub top: bool,
    pub right: bool,
    pub bottom: bool,
    pub left: bool,
}

impl Borders {
    pub open spec fn spec_none() -> Borders {
        Borders { top: false, right: false, bottom: false, left: false }
    }

    pub open spec fn spec_all() -> Borders {
        Borders { top: true, right: true, bottom: true, left: true }
    }

    pub fn none() -> (r: Borders)
        ensures
            r == Borders::spec_none(),
    {
        Borders { top: false, right: false, bottom: false, left: false }
    }

    pub fn all() -> (r: Borders)
        ensures
            r == Borders::spec_all(),
    {
        Borders { top: true, right: true, bottom: true, left: true }
    }

    /// Only the top border.
    pub fn top_only() -> (r: Borders)
        ensures
            r == (Borders { top: true, right: false, bottom: false, left: false }),
    {
        Borders { top: true, right: false, bottom: false, left: false }
    }

    pub open spec fn spec_is_empty(self) -> bool {
        !self.top && !self.right && !self.bottom && !self.left
    }

    pub fn is_empty(self) -> (r: bool)
        ensures
            r == self.spec_is_empty(),
    {
        !self.top && !self.right && !self.bottom && !self.left
    }
}

} // verus!
