//! Shared geometry types: the fixed-point length unit, rectangles, edge
//! sizes, and the box-model dimensions with their derived outward rectangles.

use vstd::prelude::*;

verus! {

/// The length unit: a fixed-point sub-pixel integer quantity, used for all
/// geometry. Arithmetic on lengths saturates at the ends of the range, so
/// layout never panics on overflow.
pub type Au = i64;

/// Saturates a mathematical integer into the range of the length unit.
pub open spec fn sat64(x: int) -> Au {
    if x > i64::MAX {
        i64::MAX
    } else if x < i64::MIN {
        i64::MIN
    } else {
        x as i64
    }
}

/// Truncating halving (rounds toward zero, as the layout rules expect when
/// they split a quantity evenly).
pub open spec fn half64(a: Au) -> Au {
    if a >= 0 {
        ((a as int) / 2) as i64
    } else {
        (0 - ((0 - a as int) / 2)) as i64
    }
}

/// Saturating addition on lengths.
pub fn au_add(a: Au, b: Au) -> (r: Au)
    ensures
        r == sat64(a + b),
{
    match a.checked_add(b) {
        Some(v) => v,
        None => if b > 0 {
            i64::MAX
        } else {
            i64::MIN
        },
    }
}

/// Saturating subtraction on lengths.
pub fn au_sub(a: Au, b: Au) -> (r: Au)
    ensures
        r == sat64(a - b),
{
    match a.checked_sub(b) {
        Some(v) => v,
        None => if b < 0 {
            i64::MAX
        } else {
            i64::MIN
        },
    }
}

/// Maximum of two lengths.
pub fn au_max(a: Au, b: Au) -> (r: Au)
    ensures
        r == (if a >= b { a } else { b }),
{
    if a >= b {
        a
    } else {
        b
    }
}

/// Minimum of two lengths.
pub fn au_min(a: Au, b: Au) -> (r: Au)
    ensures
        r == (if a <= b { a } else { b }),
{
    if a <= b {
        a
    } else {
        b
    }
}

/// Halves a length, rounding toward zero.
pub fn au_half(a: Au) -> (r: Au)
    ensures
        r == half64(a),
{
    if a >= 0 {
        ((a as u64) / 2) as i64
    } else if a == i64::MIN {
        -4611686018427387904i64
    } else {
        -((((-a) as u64) / 2) as i64)
    }
}

/// A rectangle in the length unit, relative to the document origin (or to
/// the nearest formatting context for intermediate computation).
#[derive(Clone, Copy, Debug, PartialEq, Eq, Structural)]
pub struct Rect {
    pub x: Au,
    pub y: Au,
    pub width: Au,
    pub height: Au,
}

/// One set of edge thicknesses; used identically for margin, border and
/// padding.
#[derive(Clone, Copy, Debug, PartialEq, Eq, Structural)]
pub struct EdgeSizes {
    pub left: Au,
    pub right: Au,
    pub top: Au,
    pub bottom: Au,
}

/// The box model: a content rectangle and the three surrounding edge sets.
#[derive(Clone, Copy, Debug, PartialEq, Eq, Structural)]
pub struct Dimensions {
    pub content: Rect,
    pub padding: EdgeSizes,
    pub border: EdgeSizes,
    pub margin: EdgeSizes,
}

pub open spec fn rect_zero() -> Rect {
    Rect { x: 0, y: 0, width: 0, height: 0 }
}

pub open spec fn edges_zero() -> EdgeSizes {
    EdgeSizes { left: 0, right: 0, top: 0, bottom: 0 }
}

pub open spec fn dimensions_zero() -> Dimensions {
    Dimensions {
        content: rect_zero(),
        padding: edges_zero(),
        border: edges_zero(),
        margin: edges_zero(),
    }
}

/// The rectangle that covers `r` plus one set of edges around it.
pub open spec fn rect_expanded(r: Rect, e: EdgeSizes) -> Rect {
    Rect {
        x: sat64(r.x - e.left),
        y: sat64(r.y - e.top),
        width: sat64(sat64(r.width + e.left) + e.right),
        height: sat64(sat64(r.height + e.top) + e.bottom),
    }
}

/// The inverse of `rect_expanded`: strips one set of edges from around `r`.
pub open spec fn rect_shrunk(r: Rect, e: EdgeSizes) -> Rect {
    Rect {
        x: sat64(r.x + e.left),
        y: sat64(r.y + e.top),
        width: sat64(sat64(r.width - e.left) - e.right),
        height: sat64(sat64(r.height - e.top) - e.bottom),
    }
}

pub open spec fn rect_translated(r: Rect, x: Au, y: Au) -> Rect {
    Rect { x: sat64(r.x + x), y: sat64(r.y + y), width: r.width, height: r.height }
}

impl Rect {
    /// A new rectangle from its four lengths.
    pub fn new(x: Au, y: Au, width: Au, height: Au) -> (r: Rect)
        ensures
            r == (Rect { x, y, width, height }),
    {
        Rect { x, y, width, height }
    }

    /// The rectangle covered by `self` plus the given edges around it.
    pub fn expanded_by(self, edge: EdgeSizes) -> (r: Rect)
        ensures
            r == rect_expanded(self, edge),
    {
        Rect {
            x: au_sub(self.x, edge.left),
            y: au_sub(self.y, edge.top),
            width: au_add(au_add(self.width, edge.left), edge.right),
            height: au_add(au_add(self.height, edge.top), edge.bottom),
        }
    }

    /// The rectangle left when the given edges are stripped from `self`;
    /// the exact inverse of `expanded_by` away from the ends of the range.
    pub fn shrunk_by(self, edge: EdgeSizes) -> (r: Rect)
        ensures
            r == rect_shrunk(self, edge),
    {
        Rect {
            x: au_add(self.x, edge.left),
            y: au_add(self.y, edge.top),
            width: au_sub(au_sub(self.width, edge.left), edge.right),
            height: au_sub(au_sub(self.height, edge.top), edge.bottom),
        }
    }

    /// `self` shifted by a parent's origin.
    pub fn add_parent_coordinate(self, x: Au, y: Au) -> (r: Rect)
        ensures
            r == rect_translated(self, x, y),
    {
        Rect {
            x: au_add(self.x, x),
            y: au_add(self.y, y),
            width: self.width,
            height: self.height,
        }
    }
}

impl Default for Rect {
    fn default() -> (r: Rect)
        ensures
            r == rect_zero(),
    {
        Rect { x: 0, y: 0, width: 0, height: 0 }
    }
}

impl Default for EdgeSizes {
    fn default() -> (r: EdgeSizes)
        ensures
            r == edges_zero(),
    {
        EdgeSizes { left: 0, right: 0, top: 0, bottom: 0 }
    }
}

impl Default for Dimensions {
    fn default() -> (r: Dimensions)
        ensures
            r == dimensions_zero(),
    {
        Dimensions {
            content: Rect { x: 0, y: 0, width: 0, height: 0 },
            padding: EdgeSizes { left: 0, right: 0, top: 0, bottom: 0 },
            border: EdgeSizes { left: 0, right: 0, top: 0, bottom: 0 },
            margin: EdgeSizes { left: 0, right: 0, top: 0, bottom: 0 },
        }
    }
}

pub open spec fn padding_box_spec(d: Dimensions) -> Rect {
    rect_expanded(d.content, d.padding)
}

pub open spec fn border_box_spec(d: Dimensions) -> Rect {
    rect_expanded(padding_box_spec(d), d.border)
}

pub open spec fn margin_box_spec(d: Dimensions) -> Rect {
    rect_expanded(border_box_spec(d), d.margin)
}

pub open spec fn left_offset_spec(d: Dimensions) -> Au {
    sat64(sat64(d.margin.left + d.border.left) + d.padding.left)
}

pub open spec fn right_offset_spec(d: Dimensions) -> Au {
    sat64(sat64(d.margin.right + d.border.right) + d.padding.right)
}

pub open spec fn top_offset_spec(d: Dimensions) -> Au {
    sat64(sat64(d.margin.top + d.border.top) + d.padding.top)
}

pub open spec fn bottom_offset_spec(d: Dimensions) -> Au {
    sat64(sat64(d.margin.bottom + d.border.bottom) + d.padding.bottom)
}

impl Dimensions {
    /// The area covered by the content area plus its padding.
    pub fn padding_box(self) -> (r: Rect)
        ensures
            r == padding_box_spec(self),
    {
        self.content.expanded_by(self.padding)
    }

    /// The area covered by the content area plus padding and borders.
    pub fn border_box(self) -> (r: Rect)
        ensures
            r == border_box_spec(self),
    {
        self.padding_box().expanded_by(self.border)
    }

    /// The area covered by the content area plus padding, borders and margin.
    pub fn margin_box(self) -> (r: Rect)
        ensures
            r == margin_box_spec(self),
    {
        self.border_box().expanded_by(self.margin)
    }

    /// Total thickness of the three left edges.
    pub fn left_offset(self) -> (r: Au)
        ensures
            r == left_offset_spec(self),
    {
        au_add(au_add(self.margin.left, self.border.left), self.padding.left)
    }

    /// Total thickness of the three right edges.
    pub fn right_offset(self) -> (r: Au)
        ensures
            r == right_offset_spec(self),
    {
        au_add(au_add(self.margin.right, self.border.right), self.padding.right)
    }

    /// Total thickness of the three top edges.
    pub fn top_offset(self) -> (r: Au)
        ensures
            r == top_offset_spec(self),
    {
        au_add(au_add(self.margin.top, self.border.top), self.padding.top)
    }

    /// Total thickness of the three bottom edges.
    pub fn bottom_offset(self) -> (r: Au)
        ensures
            r == bottom_offset_spec(self),
    {
        au_add(au_add(self.margin.bottom, self.border.bottom), self.padding.bottom)
    }

    /// The left and right edge totals as an edge-size set (top and bottom
    /// zero).
    pub fn left_right_offset(self) -> (r: EdgeSizes)
        ensures
            r == (EdgeSizes {
                top: 0,
                bottom: 0,
                left: left_offset_spec(self),
                right: right_offset_spec(self),
            }),
    {
        EdgeSizes {
            top: 0,
            bottom: 0,
            left: self.left_offset(),
            right: self.right_offset(),
        }
    }

    /// All four edge totals as an edge-size set.
    pub fn offset(self) -> (r: EdgeSizes)
        ensures
            r == (EdgeSizes {
                top: top_offset_spec(self),
                bottom: bottom_offset_spec(self),
                left: left_offset_spec(self),
                right: right_offset_spec(self),
            }),
    {
        EdgeSizes {
            top: self.top_offset(),
            bottom: self.bottom_offset(),
            left: self.left_offset(),
            right: self.right_offset(),
        }
    }
}

/// A bound under which a handful of chained edge additions cannot reach the
/// saturation points of the length unit.
pub open spec fn au_moderate(a: Au) -> bool {
    -0x0100_0000_0000_0000 <= a <= 0x0100_0000_0000_0000
}

pub open spec fn rect_moderate(r: Rect) -> bool {
    au_moderate(r.x) && au_moderate(r.y) && au_moderate(r.width) && au_moderate(r.height)
}

pub open spec fn edges_moderate(e: EdgeSizes) -> bool {
    au_moderate(e.left) && au_moderate(e.right) && au_moderate(e.top) && au_moderate(e.bottom)
}

pub open spec fn dimensions_moderate(d: Dimensions) -> bool {
    rect_moderate(d.content) && edges_moderate(d.padding) && edges_moderate(d.border)
        && edges_moderate(d.margin)
}

/// Expanding a content rectangle outward by padding, border and margin and
/// then shrinking the result by margin, border and padding in reverse order
/// recovers the content rectangle exactly, whenever the lengths are far
/// enough from the ends of the range that no sum saturates.
pub proof fn lemma_edge_round_trip(d: Dimensions)
    requires
        dimensions_moderate(d),
    ensures
        rect_shrunk(rect_shrunk(rect_shrunk(margin_box_spec(d), d.margin), d.border), d.padding)
            == d.content,
{
}

} // verus!
