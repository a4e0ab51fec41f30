//! The box tree and the block-level layout engine.
//!
//! A `LayoutBox` owns its dimensions, its kind, its content payload, a copy
//! of the style values of the styled node it came from, and its children.
//! Building the tree classifies each styled node by `(display, float)` and
//! groups runs of inline-level siblings under anonymous blocks; laying it
//! out resolves widths against the containing block, stacks children
//! vertically, registers floats, and hands runs of inline content to the
//! line breaker.
//!
//! Every step is a pure function of the box tree and the containing block,
//! stated by the `*_spec` functions; the executable engine is proved equal
//! to them, so a layout pass is deterministic: the same styled tree and
//! containing block always give the same positioned geometry.

use vstd::prelude::*;
use crate::geometry::{
    Au, Dimensions, EdgeSizes, Rect, sat64, half64, au_add, au_sub, au_half, au_moderate,
    dimensions_zero, margin_box_spec,
};
use crate::font::Font;
use crate::style::{
    AutoLen, Display, FloatType, LayoutType, NodeKind, NodeKindV, NodeV, StyleData, StyledNode,
    node_view, lemma_nodes_view, wf_node, wf_nodes,
};
use crate::floats::{Floats, FloatsV, available_area_spec, register_spec, floats_empty};
use crate::inline::{
    LineMaker, lm_init, lm_run_spec, lm_flush_spec, lm_assign_spec, max_line_width,
};
use vstd::pervasive::unreached;

verus! {

/// The intrinsic size of a piece of replaced content.
#[derive(Clone, Copy, Debug, PartialEq, Eq, Structural)]
pub struct ImageMetrics {
    pub width: Au,
    pub height: Au,
}

/// The orthogonal content payload of a box: generic flow content, text, an
/// image with its intrinsic size when known, an anchor, or an interactive
/// button with its identity.
#[derive(Clone, Copy, Debug, PartialEq, Eq)]
pub enum LayoutInfo {
    Generic,
    Text,
    Image(Option<ImageMetrics>),
    Anker,
    Button(u64),
}

/// The text payload of a text box: the run of text units it came from, the
/// half-open unit range `[start, end)` it currently covers, and the font it
/// is measured in. Ranges count text units (codepoints), so they cannot
/// land inside one.
#[derive(Debug)]
pub struct Text {
    pub font: Font,
    pub start: usize,
    pub end: usize,
    pub content: Vec<char>,
}

/// The kind of a box in the layout tree.
#[derive(Debug)]
pub enum BoxType {
    BlockNode,
    InlineNode,
    InlineBlockNode,
    Float,
    TextNode(Text),
    AnonymousBlock,
}

/// A node of the layout tree.
#[derive(Debug)]
pub struct LayoutBox {
    pub dimensions: Dimensions,
    pub z_index: i32,
    pub box_type: BoxType,
    pub info: LayoutInfo,
    pub style: Option<StyleData>,
    pub children: Vec<LayoutBox>,
}

/// The mathematical value of a text payload.
#[verifier::ext_equal]
pub struct TextV {
    pub font: Font,
    pub start: usize,
    pub end: usize,
    pub content: Seq<char>,
}

/// The mathematical value of a box kind.
#[verifier::ext_equal]
pub enum BoxTypeV {
    BlockNode,
    InlineNode,
    InlineBlockNode,
    Float,
    TextNode(TextV),
    AnonymousBlock,
}

/// The mathematical value of a layout box.
#[verifier::ext_equal]
pub struct BoxV {
    pub dimensions: Dimensions,
    pub z_index: i32,
    pub box_type: BoxTypeV,
    pub info: LayoutInfo,
    pub style: Option<StyleData>,
    pub children: Seq<BoxV>,
}

pub open spec fn text_view(t: Text) -> TextV {
    TextV { font: t.font, start: t.start, end: t.end, content: t.content@ }
}

pub open spec fn box_type_view(bt: BoxType) -> BoxTypeV {
    match bt {
        BoxType::BlockNode => BoxTypeV::BlockNode,
        BoxType::InlineNode => BoxTypeV::InlineNode,
        BoxType::InlineBlockNode => BoxTypeV::InlineBlockNode,
        BoxType::Float => BoxTypeV::Float,
        BoxType::TextNode(t) => BoxTypeV::TextNode(text_view(t)),
        BoxType::AnonymousBlock => BoxTypeV::AnonymousBlock,
    }
}

pub open spec fn box_view(b: LayoutBox) -> BoxV
    decreases b,
{
    BoxV {
        dimensions: b.dimensions,
        z_index: b.z_index,
        box_type: box_type_view(b.box_type),
        info: b.info,
        style: b.style,
        children: boxes_view(b.children@),
    }
}

pub open spec fn boxes_view(s: Seq<LayoutBox>) -> Seq<BoxV>
    decreases s,
{
    if s.len() == 0 {
        Seq::<BoxV>::empty()
    } else {
        boxes_view(s.drop_last()).push(box_view(s.last()))
    }
}

impl View for LayoutBox {
    type V = BoxV;

    open spec fn view(&self) -> BoxV {
        box_view(*self)
    }
}

pub broadcast proof fn lemma_boxes_view(s: Seq<LayoutBox>)
    ensures
        (#[trigger] boxes_view(s)).len() == s.len(),
        forall|i: int| 0 <= i < s.len() ==> boxes_view(s)[i] == box_view(s[i]),
    decreases s,
{
    if s.len() > 0 {
        lemma_boxes_view(s.drop_last());
        assert forall|i: int| 0 <= i < s.len() implies boxes_view(s)[i] == box_view(s[i]) by {
            if i < s.len() - 1 {
                assert(s.drop_last()[i] == s[i]);
            }
        }
    }
}

pub proof fn lemma_boxes_view_push(s: Seq<LayoutBox>, x: LayoutBox)
    ensures
        boxes_view(s.push(x)) == boxes_view(s).push(box_view(x)),
{
    assert(s.push(x).drop_last() =~= s);
    assert(s.push(x).last() == x);
}

pub proof fn lemma_boxes_view_update(s: Seq<LayoutBox>, j: int, x: LayoutBox)
    requires
        0 <= j < s.len(),
    ensures
        boxes_view(s.update(j, x)) == boxes_view(s).update(j, box_view(x)),
{
    lemma_boxes_view(s);
    lemma_boxes_view(s.update(j, x));
    assert(boxes_view(s.update(j, x)) =~= boxes_view(s).update(j, box_view(x)));
}

/// The structural size of a box: itself plus all its descendants. The
/// termination measure of the mutually recursive layout passes.
pub open spec fn bsize(b: BoxV) -> nat
    decreases b,
{
    1 + bseq_size(b.children)
}

pub open spec fn bseq_size(s: Seq<BoxV>) -> nat
    decreases s,
{
    if s.len() == 0 {
        0
    } else {
        bsize(s[0]) + bseq_size(s.drop_first())
    }
}

pub proof fn lemma_bseq_size_index(s: Seq<BoxV>, i: int)
    requires
        0 <= i < s.len(),
    ensures
        bsize(s[i]) <= bseq_size(s),
    decreases s.len(),
{
    if i == 0 {
    } else {
        lemma_bseq_size_index(s.drop_first(), i - 1);
        assert(s.drop_first()[i - 1] == s[i]);
    }
}

pub proof fn lemma_bseq_size_suffix(s: Seq<BoxV>, i: int)
    requires
        0 <= i < s.len(),
    ensures
        bseq_size(s.subrange(i, s.len() as int)) == bsize(s[i]) + bseq_size(
            s.subrange(i + 1, s.len() as int),
        ),
{
    let suf = s.subrange(i, s.len() as int);
    assert(suf.len() > 0);
    assert(suf[0] == s[i]);
    assert(suf.drop_first() =~= s.subrange(i + 1, s.len() as int));
}

/// Whether a box takes part in normal-flow height accumulation: floats do
/// not.
pub open spec fn in_normal_flow_spec(bt: BoxTypeV) -> bool {
    !(bt is Float)
}

/// A well-formed layout tree, as the builder produces it: every box that
/// layout reads style from has style, block-level containers hold only
/// block-level children or anonymous blocks, anonymous blocks and inline
/// boxes hold only inline-level children, text boxes are leaves with a
/// valid unit range, and every font size is non-negative.
pub open spec fn wf_box(b: BoxV) -> bool
    decreases bsize(b), 0int,
{
    match b.box_type {
        BoxTypeV::BlockNode | BoxTypeV::InlineBlockNode | BoxTypeV::Float => {
            &&& b.style is Some
            &&& b.style.unwrap().font.size >= 0
            &&& wf_block_children(b.children)
        },
        BoxTypeV::AnonymousBlock => wf_inline_children(b.children),
        BoxTypeV::InlineNode => {
            &&& b.style is Some
            &&& b.style.unwrap().font.size >= 0
            &&& wf_inline_children(b.children)
        },
        BoxTypeV::TextNode(t) => {
            &&& b.style is Some
            &&& b.style.unwrap().font.size >= 0
            &&& b.children.len() == 0
            &&& t.start <= t.end <= t.content.len()
        },
    }
}

pub open spec fn wf_block_children(s: Seq<BoxV>) -> bool
    decreases bseq_size(s), 1int via wf_block_children_decreases
{
    forall|i: int| 0 <= i < s.len() ==> {
        &&& wf_box(#[trigger] s[i])
        &&& (s[i].box_type is BlockNode || s[i].box_type is Float || s[i].box_type
            is AnonymousBlock)
    }
}

#[via_fn]
proof fn wf_block_children_decreases(s: Seq<BoxV>) {
    assert forall|i: int| 0 <= i < s.len() implies bsize(s[i]) < bseq_size(s) + 1 by {
        lemma_bseq_size_index(s, i);
    }
}

pub open spec fn wf_inline_children(s: Seq<BoxV>) -> bool
    decreases bseq_size(s), 1int via wf_inline_children_decreases
{
    forall|i: int| 0 <= i < s.len() ==> {
        &&& wf_box(#[trigger] s[i])
        &&& (s[i].box_type is InlineNode || s[i].box_type is InlineBlockNode || s[i].box_type
            is TextNode)
    }
}

#[via_fn]
proof fn wf_inline_children_decreases(s: Seq<BoxV>) {
    assert forall|i: int| 0 <= i < s.len() implies bsize(s[i]) < bseq_size(s) + 1 by {
        lemma_bseq_size_index(s, i);
    }
}

pub(crate) fn clone_chars(v: &Vec<char>) -> (r: Vec<char>)
    ensures
        r@ == v@,
{
    let mut out: Vec<char> = Vec::new();
    let mut i: usize = 0;
    while i < v.len()
        invariant
            0 <= i <= v@.len(),
            out@ == v@.subrange(0, i as int),
        decreases v@.len() - i,
    {
        out.push(v[i]);
        proof {
            assert(out@ =~= v@.subrange(0, i + 1));
        }
        i = i + 1;
    }
    proof {
        assert(out@ =~= v@);
    }
    out
}

impl LayoutBox {
    /// A fresh, unlaid box of the given kind: zero dimensions, no children.
    pub fn new(box_type: BoxType, style: Option<StyleData>, info: LayoutInfo) -> (r: LayoutBox)
        ensures
            r@ == (BoxV {
                dimensions: dimensions_zero(),
                z_index: 0,
                box_type: box_type_view(box_type),
                info,
                style,
                children: Seq::<BoxV>::empty(),
            }),
    {
        let r = LayoutBox {
            box_type,
            style,
            info,
            z_index: 0,
            dimensions: Dimensions::default(),
            children: Vec::new(),
        };
        proof {
            assert(r@ =~= (BoxV {
                dimensions: dimensions_zero(),
                z_index: 0,
                box_type: r@.box_type,
                info: r@.info,
                style: r@.style,
                children: Seq::<BoxV>::empty(),
            }));
        }
        r
    }

    /// The style values of the styled node this box came from. Anonymous
    /// boxes have none, so asking is a caller error ruled out up front.
    pub fn get_style_node(&self) -> (r: &StyleData)
        requires
            self@.style is Some,
        ensures
            *r == self@.style.unwrap(),
    {
        match &self.style {
            Some(s) => s,
            None => unreached(),
        }
    }

    /// Replaces the font and unit range of a text box; does nothing to any
    /// other kind of box.
    pub fn set_text_info(&mut self, font: Font, start: usize, end: usize)
        ensures
            final(self)@ == set_text_info_spec(old(self)@, font, start, end),
    {
        let mut bt = BoxType::BlockNode;
        core::mem::swap(&mut bt, &mut self.box_type);
        let bt2 = match bt {
            BoxType::TextNode(t) => BoxType::TextNode(
                Text { font, start, end, content: t.content },
            ),
            other => other,
        };
        self.box_type = bt2;
        proof {
            assert(final(self)@ =~= set_text_info_spec(old(self)@, font, start, end));
        }
    }

    /// Whether this box takes part in normal-flow height accumulation.
    pub fn in_normal_flow(&self) -> (r: bool)
        ensures
            r == in_normal_flow_spec(self@.box_type),
    {
        match &self.box_type {
            BoxType::Float => false,
            _ => true,
        }
    }

    /// Copies the styled padding into the box's dimensions.
    pub fn assign_padding(&mut self)
        requires
            old(self)@.style is Some,
        ensures
            final(self)@ == (BoxV {
                dimensions: Dimensions {
                    padding: old(self)@.style.unwrap().padding,
                    ..old(self)@.dimensions
                },
                ..old(self)@
            }),
    {
        let p = self.get_style_node().padding;
        self.dimensions.padding = p;
    }

    /// Copies the styled margin into the box's dimensions, with `auto`
    /// margins counting as zero.
    pub fn assign_margin(&mut self)
        requires
            old(self)@.style is Some,
        ensures
            final(self)@ == (BoxV {
                dimensions: Dimensions {
                    margin: margin_edges_spec(old(self)@.style.unwrap()),
                    ..old(self)@.dimensions
                },
                ..old(self)@
            }),
    {
        let s = *self.get_style_node();
        let left = match s.margin_left {
            AutoLen::Auto => 0,
            AutoLen::Len(v) => v,
        };
        let right = match s.margin_right {
            AutoLen::Auto => 0,
            AutoLen::Len(v) => v,
        };
        self.dimensions.margin = EdgeSizes {
            left,
            right,
            top: s.margin_top,
            bottom: s.margin_bottom,
        };
    }

    /// Copies the styled border widths into the box's dimensions.
    pub fn assign_border_width(&mut self)
        requires
            old(self)@.style is Some,
        ensures
            final(self)@ == (BoxV {
                dimensions: Dimensions {
                    border: old(self)@.style.unwrap().border,
                    ..old(self)@.dimensions
                },
                ..old(self)@
            }),
    {
        let b = self.get_style_node().border;
        self.dimensions.border = b;
    }
}

pub open spec fn set_text_info_spec(b: BoxV, font: Font, start: usize, end: usize) -> BoxV {
    match b.box_type {
        BoxTypeV::TextNode(t) => BoxV {
            box_type: BoxTypeV::TextNode(TextV { font, start, end, content: t.content }),
            ..b
        },
        _ => b,
    }
}

pub open spec fn margin_edges_spec(s: StyleData) -> EdgeSizes {
    EdgeSizes {
        left: s.margin_left.or_zero(),
        right: s.margin_right.or_zero(),
        top: s.margin_top,
        bottom: s.margin_bottom,
    }
}

/// The resolved horizontal lengths of a block-level box.
#[derive(Clone, Copy, Debug, PartialEq, Eq, Structural)]
pub struct ResolvedWidth {
    pub width: Au,
    pub margin_left: Au,
    pub margin_right: Au,
}

/// The sum of the seven horizontal contributions, `auto` counting as zero,
/// in left-to-right order.
pub open spec fn width_total_spec(s: StyleData) -> Au {
    sat64(
        sat64(
            sat64(
                sat64(
                    sat64(sat64(s.margin_left.or_zero() + s.border.left) + s.padding.left)
                        + s.width.or_zero(),
                ) + s.padding.right,
            ) + s.border.right,
        ) + s.margin_right.or_zero(),
    )
}

/// Block width resolution: exactly one of `width`, `margin-left` and
/// `margin-right` absorbs the underflow left against the containing width.
/// With nothing `auto` (or with `auto` margins forced to zero because the
/// fixed contributions already overflow), the right margin absorbs it; a
/// single `auto` margin absorbs it; two `auto` margins split it evenly
/// (the right one taking the odd unit); an `auto` width takes it when it
/// is non-negative, else the width is zero and the right margin absorbs
/// the deficit.
pub open spec fn resolve_width_spec(s: StyleData, cw: Au) -> ResolvedWidth {
    let total = width_total_spec(s);
    let clamped = !s.width.is_auto() && total > cw;
    let ml_auto = s.margin_left.is_auto() && !clamped;
    let mr_auto = s.margin_right.is_auto() && !clamped;
    let underflow = sat64(cw - total);
    if s.width.is_auto() {
        if underflow >= 0 {
            ResolvedWidth {
                width: underflow,
                margin_left: s.margin_left.or_zero(),
                margin_right: s.margin_right.or_zero(),
            }
        } else {
            ResolvedWidth {
                width: 0,
                margin_left: s.margin_left.or_zero(),
                margin_right: sat64(s.margin_right.or_zero() + underflow),
            }
        }
    } else if ml_auto && mr_auto {
        ResolvedWidth {
            width: s.width.or_zero(),
            margin_left: half64(underflow),
            margin_right: sat64(underflow - half64(underflow)),
        }
    } else if ml_auto {
        ResolvedWidth {
            width: s.width.or_zero(),
            margin_left: underflow,
            margin_right: s.margin_right.or_zero(),
        }
    } else if mr_auto {
        ResolvedWidth {
            width: s.width.or_zero(),
            margin_left: s.margin_left.or_zero(),
            margin_right: underflow,
        }
    } else {
        ResolvedWidth {
            width: s.width.or_zero(),
            margin_left: s.margin_left.or_zero(),
            margin_right: sat64(s.margin_right.or_zero() + underflow),
        }
    }
}

/// The margin edges of a float: styled values with `auto` as zero.
pub open spec fn float_margins_spec(s: StyleData) -> EdgeSizes {
    EdgeSizes {
        left: s.margin_left.or_zero(),
        right: s.margin_right.or_zero(),
        top: s.margin_top,
        bottom: s.margin_bottom,
    }
}

/// One layout pass over a block-level box: what laying it out against a
/// containing block does to it and to the ambient float context.
///
/// A block (and an inline-block, laid out the same way as an isolated
/// block) resolves its width and margins, takes its position below the
/// containing block's accumulated height, lays out its children with
/// itself as containing block while stacking normal-flow heights, and then
/// takes its styled height when one is given. A float sizes itself
/// against the width the already-placed floats leave free at the current
/// fill height (an `auto` width fills what is left of that band inside
/// its own edges), positions itself into the band, lays out its children
/// in a float context of its own, and registers its margin box with the
/// ambient floats. An anonymous block runs the line breaker over its
/// inline children against a copy of the ambient floats.
pub open spec fn layout_spec(b: BoxV, f: FloatsV, cb: Dimensions) -> (BoxV, FloatsV)
    decreases bsize(b), 0int, 0int,
{
    match b.box_type {
        BoxTypeV::BlockNode | BoxTypeV::InlineBlockNode => {
            let s = b.style.unwrap();
            let rw = resolve_width_spec(s, cb.content.width);
            let d1 = Dimensions {
                content: Rect {
                    x: sat64(sat64(sat64(cb.content.x + rw.margin_left) + s.border.left)
                        + s.padding.left),
                    y: sat64(sat64(sat64(sat64(cb.content.y + cb.content.height) + s.margin_top)
                        + s.border.top) + s.padding.top),
                    width: rw.width,
                    height: 0,
                },
                padding: s.padding,
                border: s.border,
                margin: EdgeSizes {
                    left: rw.margin_left,
                    right: rw.margin_right,
                    top: s.margin_top,
                    bottom: s.margin_bottom,
                },
            };
            let (kids, f2, d2) = layout_children_spec(b.children, f, d1);
            let h = match s.height {
                AutoLen::Auto => d2.content.height,
                AutoLen::Len(v) => v,
            };
            (
                BoxV {
                    dimensions: Dimensions {
                        content: Rect { height: h, ..d2.content },
                        ..d2
                    },
                    children: kids,
                    ..b
                },
                f2,
            )
        },
        BoxTypeV::Float => {
            let s = b.style.unwrap();
            let band = available_area_spec(f, cb.content.width, cb.content.height);
            let margin = float_margins_spec(s);
            let edges_h = sat64(
                sat64(
                    sat64(sat64(sat64(margin.left + s.border.left) + s.padding.left)
                        + s.padding.right) + s.border.right,
                ) + margin.right,
            );
            let inner = sat64(band.width - edges_h);
            let w = match s.width {
                AutoLen::Auto => if inner >= 0 {
                    inner
                } else {
                    0
                },
                AutoLen::Len(v) => v,
            };
            let d0 = Dimensions {
                content: Rect { x: 0, y: 0, width: w, height: 0 },
                padding: s.padding,
                border: s.border,
                margin,
            };
            let mbw = margin_box_spec(d0).width;
            let x_rel = if s.float == FloatType::Right {
                sat64(sat64(band.x + band.width) - mbw)
            } else {
                band.x
            };
            let d1 = Dimensions {
                content: Rect {
                    x: sat64(sat64(sat64(sat64(cb.content.x + x_rel) + margin.left)
                        + s.border.left) + s.padding.left),
                    y: sat64(sat64(sat64(sat64(cb.content.y + cb.content.height) + margin.top)
                        + s.border.top) + s.padding.top),
                    width: w,
                    height: 0,
                },
                ..d0
            };
            let (kids, f_inner, d2) = layout_children_spec(b.children, floats_empty(), d1);
            let h = match s.height {
                AutoLen::Auto => d2.content.height,
                AutoLen::Len(v) => v,
            };
            let d3 = Dimensions { content: Rect { height: h, ..d2.content }, ..d2 };
            let placed = Rect {
                x: x_rel,
                y: cb.content.height,
                width: margin_box_spec(d3).width,
                height: margin_box_spec(d3).height,
            };
            (
                BoxV { dimensions: d3, children: kids, ..b },
                register_spec(f, s.float, placed),
            )
        },
        BoxTypeV::AnonymousBlock => {
            let lm1 = lm_run_spec(lm_init(f), b.children, cb.content.width);
            let lm2 = lm_flush_spec(lm1);
            let lm3 = lm_assign_spec(lm2, cb.content.width);
            (
                BoxV {
                    dimensions: Dimensions {
                        content: Rect {
                            x: 0,
                            y: cb.content.height,
                            width: max_line_width(lm3.lines, lm3.lines.len() as int),
                            height: lm3.cur_height,
                        },
                        padding: edges_zero_spec(),
                        border: edges_zero_spec(),
                        margin: edges_zero_spec(),
                    },
                    children: lm3.new_boxes,
                    ..b
                },
                f,
            )
        },
        _ => (b, f),
    }
}

pub open spec fn edges_zero_spec() -> EdgeSizes {
    EdgeSizes { left: 0, right: 0, top: 0, bottom: 0 }
}

/// Lays out a run of siblings in document order: each child sees its
/// parent's dimensions with the height accumulated so far as containing
/// block, and every normal-flow child's margin-box height is added to that
/// accumulation. Floats thread through the ambient context and add no
/// height.
pub open spec fn layout_children_spec(kids: Seq<BoxV>, f: FloatsV, d: Dimensions) -> (
    Seq<BoxV>,
    FloatsV,
    Dimensions,
)
    decreases bseq_size(kids), 1int, 0int
        via layout_children_spec_decreases
{
    if kids.len() == 0 {
        (Seq::<BoxV>::empty(), f, d)
    } else {
        let (c2, f2) = layout_spec(kids[0], f, d);
        let d2 = if in_normal_flow_spec(c2.box_type) {
            Dimensions {
                content: Rect {
                    height: sat64(d.content.height + margin_box_spec(c2.dimensions).height),
                    ..d.content
                },
                ..d
            }
        } else {
            d
        };
        let (rest, f3, d3) = layout_children_spec(kids.drop_first(), f2, d2);
        (seq![c2].add(rest), f3, d3)
    }
}

#[via_fn]
proof fn layout_children_spec_decreases(kids: Seq<BoxV>, f: FloatsV, d: Dimensions) {
    if kids.len() > 0 {
        assert(bsize(kids[0]) >= 1);
    }
}

/// Resolves the width and horizontal margins of a block-level box against
/// its containing block's content width.
pub fn resolve_block_width(s: &StyleData, cw: Au) -> (r: ResolvedWidth)
    ensures
        r == resolve_width_spec(*s, cw),
{
    let w0 = match s.width {
        AutoLen::Auto => 0,
        AutoLen::Len(v) => v,
    };
    let ml0 = match s.margin_left {
        AutoLen::Auto => 0,
        AutoLen::Len(v) => v,
    };
    let mr0 = match s.margin_right {
        AutoLen::Auto => 0,
        AutoLen::Len(v) => v,
    };
    let total = au_add(
        au_add(
            au_add(au_add(au_add(au_add(ml0, s.border.left), s.padding.left), w0), s.padding.right),
            s.border.right,
        ),
        mr0,
    );
    let width_auto = match s.width {
        AutoLen::Auto => true,
        AutoLen::Len(_) => false,
    };
    let clamped = !width_auto && total > cw;
    let ml_auto = (match s.margin_left {
        AutoLen::Auto => true,
        AutoLen::Len(_) => false,
    }) && !clamped;
    let mr_auto = (match s.margin_right {
        AutoLen::Auto => true,
        AutoLen::Len(_) => false,
    }) && !clamped;
    let underflow = au_sub(cw, total);
    if width_auto {
        if underflow >= 0 {
            ResolvedWidth { width: underflow, margin_left: ml0, margin_right: mr0 }
        } else {
            ResolvedWidth { width: 0, margin_left: ml0, margin_right: au_add(mr0, underflow) }
        }
    } else if ml_auto && mr_auto {
        let h = au_half(underflow);
        ResolvedWidth { width: w0, margin_left: h, margin_right: au_sub(underflow, h) }
    } else if ml_auto {
        ResolvedWidth { width: w0, margin_left: underflow, margin_right: mr0 }
    } else if mr_auto {
        ResolvedWidth { width: w0, margin_left: ml0, margin_right: underflow }
    } else {
        ResolvedWidth { width: w0, margin_left: ml0, margin_right: au_add(mr0, underflow) }
    }
}

/// The horizontal style lengths width resolution reads.
pub open spec fn horizontals_moderate(s: StyleData, cw: Au) -> bool {
    &&& au_moderate(s.width.or_zero())
    &&& au_moderate(s.margin_left.or_zero())
    &&& au_moderate(s.margin_right.or_zero())
    &&& au_moderate(s.border.left)
    &&& au_moderate(s.border.right)
    &&& au_moderate(s.padding.left)
    &&& au_moderate(s.padding.right)
    &&& au_moderate(cw)
}

/// Exactly one of `width`, `margin-left` and `margin-right` absorbs the
/// underflow: whatever is `auto`, the resolved horizontal contributions of
/// a block-level box always sum to its containing block's content width,
/// whenever the lengths are far enough from the ends of the range that no
/// sum saturates.
pub proof fn lemma_width_resolution_conserves(s: StyleData, cw: Au)
    requires
        horizontals_moderate(s, cw),
    ensures
        ({
            let r = resolve_width_spec(s, cw);
            r.margin_left + s.border.left + s.padding.left + r.width + s.padding.right
                + s.border.right + r.margin_right == cw
        }),
{
}

/// Lays out a run of block-level siblings in place, stacking normal-flow
/// heights into `d`, as `layout_children_spec` states.
pub(crate) fn layout_children(children: &Vec<LayoutBox>, floats: &mut Floats, d: &mut Dimensions)
    -> (r: Vec<LayoutBox>)
    requires
        wf_block_children(boxes_view(children@)),
    ensures
        ({
            let (ks, f2, d2) = layout_children_spec(
                boxes_view(children@),
                old(floats)@,
                *old(d),
            );
            &&& boxes_view(r@) == ks
            &&& final(floats)@ == f2
            &&& *final(d) == d2
        }),
    decreases bseq_size(boxes_view(children@)), 1int, 0int,
{
    let ghost whole = boxes_view(children@);
    let ghost goal = layout_children_spec(whole, floats@, *d);
    let mut out: Vec<LayoutBox> = Vec::new();
    let mut i: usize = 0;
    proof {
        lemma_boxes_view(children@);
        assert(whole.subrange(0, children@.len() as int) =~= whole);
        assert(boxes_view(out@) =~= Seq::<BoxV>::empty());
        let (ks, f2, d2) = layout_children_spec(whole, floats@, *d);
        assert(boxes_view(out@).add(ks) =~= ks);
    }
    while i < children.len()
        invariant
            0 <= i <= children@.len(),
            whole == boxes_view(children@),
            whole.len() == children@.len(),
            forall|k: int| 0 <= k < children@.len() ==> whole[k] == box_view(children@[k]),
            wf_block_children(whole),
            bseq_size(whole.subrange(i as int, children@.len() as int)) <= bseq_size(whole),
            goal == ({
                let (ks, f2, d2) = layout_children_spec(
                    whole.subrange(i as int, children@.len() as int),
                    floats@,
                    *d,
                );
                (boxes_view(out@).add(ks), f2, d2)
            }),
        decreases children@.len() - i,
    {
        let ghost suf = whole.subrange(i as int, children@.len() as int);
        proof {
            assert(suf[0] == box_view(children@[i as int]));
            lemma_bseq_size_suffix(whole, i as int);
            assert(bsize(suf[0]) >= 1);
            assert(wf_box(suf[0]));
        }
        let c = &children[i];
        let c2 = layout_box(c, floats, *d);
        let ghost c2v = c2;
        if c2.in_normal_flow() {
            let mbh = c2.dimensions.margin_box().height;
            d.content.height = au_add(d.content.height, mbh);
        }
        let ghost out_pre = out@;
        out.push(c2);
        proof {
            lemma_boxes_view_push(out_pre, c2v);
            assert(suf.drop_first() =~= whole.subrange(i + 1, children@.len() as int));
            let (ks2, f3, d3) = layout_children_spec(
                whole.subrange(i + 1, children@.len() as int),
                floats@,
                *d,
            );
            assert(boxes_view(out_pre).add(seq![box_view(c2v)].add(ks2)) =~= boxes_view(
                out@,
            ).add(ks2));
        }
        i = i + 1;
    }
    proof {
        assert(whole.subrange(i as int, children@.len() as int).len() == 0);
        assert(boxes_view(out@).add(Seq::<BoxV>::empty()) =~= boxes_view(out@));
    }
    out
}

/// Lays out one block-level box against its containing block, as
/// `layout_spec` states, threading the ambient float context.
pub(crate) fn layout_box(bx: &LayoutBox, floats: &mut Floats, cb: Dimensions) -> (r: LayoutBox)
    requires
        wf_box(bx@),
        (bx@.box_type is BlockNode || bx@.box_type is InlineBlockNode || bx@.box_type is Float
            || bx@.box_type is AnonymousBlock),
    ensures
        r@ == layout_spec(bx@, old(floats)@, cb).0,
        final(floats)@ == layout_spec(bx@, old(floats)@, cb).1,
    decreases bsize(bx@), 0int, 0int,
{
    match &bx.box_type {
        BoxType::BlockNode | BoxType::InlineBlockNode => {
            let s = *bx.get_style_node();
            let rw = resolve_block_width(&s, cb.content.width);
            let mut d = Dimensions {
                content: Rect {
                    x: au_add(
                        au_add(au_add(cb.content.x, rw.margin_left), s.border.left),
                        s.padding.left,
                    ),
                    y: au_add(
                        au_add(
                            au_add(au_add(cb.content.y, cb.content.height), s.margin_top),
                            s.border.top,
                        ),
                        s.padding.top,
                    ),
                    width: rw.width,
                    height: 0,
                },
                padding: s.padding,
                border: s.border,
                margin: EdgeSizes {
                    left: rw.margin_left,
                    right: rw.margin_right,
                    top: s.margin_top,
                    bottom: s.margin_bottom,
                },
            };
            let kids = layout_children(&bx.children, floats, &mut d);
            let h = match s.height {
                AutoLen::Auto => d.content.height,
                AutoLen::Len(v) => v,
            };
            d.content.height = h;
            let same_kind = match &bx.box_type {
                BoxType::BlockNode => BoxType::BlockNode,
                _ => BoxType::InlineBlockNode,
            };
            let r = LayoutBox {
                dimensions: d,
                z_index: bx.z_index,
                box_type: same_kind,
                info: bx.info,
                style: bx.style,
                children: kids,
            };
            proof {
                assert(r@ =~= layout_spec(bx@, old(floats)@, cb).0);
            }
            r
        },
        BoxType::Float => {
            let s = *bx.get_style_node();
            let band = floats.available_area(cb.content.width, cb.content.height);
            let ml = match s.margin_left {
                AutoLen::Auto => 0,
                AutoLen::Len(v) => v,
            };
            let mr = match s.margin_right {
                AutoLen::Auto => 0,
                AutoLen::Len(v) => v,
            };
            let margin = EdgeSizes { left: ml, right: mr, top: s.margin_top, bottom: s.margin_bottom };
            let edges_h = au_add(
                au_add(
                    au_add(au_add(au_add(margin.left, s.border.left), s.padding.left), s.padding.right),
                    s.border.right,
                ),
                margin.right,
            );
            let inner = au_sub(band.width, edges_h);
            let w = match s.width {
                AutoLen::Auto => if inner >= 0 {
                    inner
                } else {
                    0
                },
                AutoLen::Len(v) => v,
            };
            let d0 = Dimensions {
                content: Rect { x: 0, y: 0, width: w, height: 0 },
                padding: s.padding,
                border: s.border,
                margin,
            };
            let mbw = d0.margin_box().width;
            let x_rel = if s.float == FloatType::Right {
                au_sub(au_add(band.x, band.width), mbw)
            } else {
                band.x
            };
            let mut d = Dimensions {
                content: Rect {
                    x: au_add(
                        au_add(au_add(au_add(cb.content.x, x_rel), ml), s.border.left),
                        s.padding.left,
                    ),
                    y: au_add(
                        au_add(
                            au_add(au_add(cb.content.y, cb.content.height), s.margin_top),
                            s.border.top,
                        ),
                        s.padding.top,
                    ),
                    width: w,
                    height: 0,
                },
                padding: s.padding,
                border: s.border,
                margin,
            };
            let mut f_inner = Floats::new();
            let kids = layout_children(&bx.children, &mut f_inner, &mut d);
            let h = match s.height {
                AutoLen::Auto => d.content.height,
                AutoLen::Len(v) => v,
            };
            d.content.height = h;
            let placed = Rect {
                x: x_rel,
                y: cb.content.height,
                width: d.margin_box().width,
                height: d.margin_box().height,
            };
            floats.register(s.float, placed);
            let r = LayoutBox {
                dimensions: d,
                z_index: bx.z_index,
                box_type: BoxType::Float,
                info: bx.info,
                style: bx.style,
                children: kids,
            };
            proof {
                assert(r@ =~= layout_spec(bx@, old(floats)@, cb).0);
            }
            r
        },
        BoxType::AnonymousBlock => {
            let mut lm = LineMaker::new(Vec::new(), floats.clone());
            proof {
                lemma_boxes_view(bx.children@);
                assert(boxes_view(lm.work@) =~= Seq::<BoxV>::empty());
                assert(boxes_view(bx.children@).subrange(0, bx.children@.len() as int)
                    =~= boxes_view(bx.children@));
            }
            lm.run_list(&bx.children, 0, cb.content.width);
            lm.end_of_lines();
            lm.assign_position(cb.content.width);
            let w = lm.calculate_width();
            let ch = lm.cur_height;
            let r = LayoutBox {
                dimensions: Dimensions {
                    content: Rect { x: 0, y: cb.content.height, width: w, height: ch },
                    padding: EdgeSizes { left: 0, right: 0, top: 0, bottom: 0 },
                    border: EdgeSizes { left: 0, right: 0, top: 0, bottom: 0 },
                    margin: EdgeSizes { left: 0, right: 0, top: 0, bottom: 0 },
                },
                z_index: bx.z_index,
                box_type: BoxType::AnonymousBlock,
                info: bx.info,
                style: bx.style,
                children: lm.new_boxes,
            };
            proof {
                assert(r@ =~= layout_spec(bx@, old(floats)@, cb).0);
            }
            r
        },
        _ => unreached(),
    }
}

/// The structural size of a styled node: itself plus all descendants.
pub open spec fn nsize(n: NodeV) -> nat
    decreases n,
{
    1 + nseq_size(n.children)
}

pub open spec fn nseq_size(s: Seq<NodeV>) -> nat
    decreases s,
{
    if s.len() == 0 {
        0
    } else {
        nsize(s[0]) + nseq_size(s.drop_first())
    }
}

pub proof fn lemma_nseq_size_suffix(s: Seq<NodeV>, i: int)
    requires
        0 <= i < s.len(),
    ensures
        nseq_size(s.subrange(i, s.len() as int)) == nsize(s[i]) + nseq_size(
            s.subrange(i + 1, s.len() as int),
        ),
{
    let suf = s.subrange(i, s.len() as int);
    assert(suf[0] == s[i]);
    assert(suf.drop_first() =~= s.subrange(i + 1, s.len() as int));
}

/// An id counter step: one more, held at the top of the range.
pub open spec fn id_inc(id: u64) -> u64 {
    if id == u64::MAX {
        id
    } else {
        (id + 1) as u64
    }
}

/// The box kind a styled node is classified into: a floated node becomes a
/// float box whatever its display; otherwise the display decides, with
/// inline text becoming a text box over the node's whole run.
pub open spec fn built_box_type(n: NodeV) -> BoxTypeV {
    if n.style.float != FloatType::NoFloat {
        BoxTypeV::Float
    } else {
        match n.display {
            Display::Block => BoxTypeV::BlockNode,
            Display::Inline | Display::InlineBlock => match n.kind {
                NodeKindV::Element => if n.display == Display::Inline {
                    BoxTypeV::InlineNode
                } else {
                    BoxTypeV::InlineBlockNode
                },
                NodeKindV::Text(t) => BoxTypeV::TextNode(
                    TextV {
                        font: crate::font::font_empty(),
                        start: 0,
                        end: t.len() as usize,
                        content: t,
                    },
                ),
            },
            Display::Hidden => BoxTypeV::BlockNode,
        }
    }
}

/// The content payload of a built box, and the id counter after it: an
/// interactive button takes the current id and advances the counter, so
/// ids are unique over one build.
pub open spec fn built_info(n: NodeV, id: u64) -> (LayoutInfo, u64) {
    match n.layout_type {
        crate::style::LayoutType::Generic => (LayoutInfo::Generic, id),
        crate::style::LayoutType::Text => (LayoutInfo::Text, id),
        crate::style::LayoutType::Image => (LayoutInfo::Image(n.style.image), id),
        crate::style::LayoutType::Anker => (LayoutInfo::Anker, id),
        crate::style::LayoutType::Button => (LayoutInfo::Button(id), id_inc(id)),
    }
}

pub open spec fn anon_box(kids: Seq<BoxV>) -> BoxV {
    BoxV {
        dimensions: dimensions_zero(),
        z_index: 0,
        box_type: BoxTypeV::AnonymousBlock,
        info: LayoutInfo::Generic,
        style: None,
        children: kids,
    }
}

/// Builds the layout box of one styled node (not `display: none`): its
/// kind from `(display, float)`, its payload with an id for interactive
/// content, and its children classified one by one.
pub open spec fn build_spec(n: NodeV, id: u64) -> (BoxV, u64)
    decreases nsize(n), 0int,
{
    let bt = built_box_type(n);
    let (info, id1) = built_info(n, id);
    let (kids, id2) = build_children_spec(
        n.children,
        id1,
        bt is InlineNode,
        Seq::<BoxV>::empty(),
    );
    (
        (
            BoxV {
                dimensions: dimensions_zero(),
                z_index: n.style.z_index,
                box_type: bt,
                info,
                style: Some(n.style),
                children: kids,
            },
            id2,
        )
    )
}

/// Classifies the children of a container in order. A `display: none`
/// child is excluded entirely. A floated or block child is appended
/// directly, ending any run of inline content. An inline-level child goes
/// into the current inline container: the parent itself when the parent is
/// inline; else the last child when it is already an anonymous block, or a
/// fresh anonymous block.
pub open spec fn build_children_spec(cs: Seq<NodeV>, id: u64, parent_inline: bool, acc: Seq<BoxV>)
    -> (Seq<BoxV>, u64)
    decreases nseq_size(cs), 1int
        via build_children_spec_decreases
{
    if cs.len() == 0 {
        (acc, id)
    } else {
        let c = cs[0];
        let step = if c.display == Display::Hidden {
            (acc, id)
        } else {
            let (cb, id_a) = build_spec(c, id);
            if c.style.float != FloatType::NoFloat || c.display == Display::Block {
                (acc.push(cb), id_a)
            } else if parent_inline {
                (acc.push(cb), id_a)
            } else if acc.len() > 0 && acc.last().box_type is AnonymousBlock {
                (
                    acc.update(
                        acc.len() - 1,
                        BoxV { children: acc.last().children.push(cb), ..acc.last() },
                    ),
                    id_a,
                )
            } else {
                (acc.push(anon_box(seq![cb])), id_a)
            }
        };
        build_children_spec(cs.drop_first(), step.1, parent_inline, step.0)
    }
}

#[via_fn]
proof fn build_children_spec_decreases(cs: Seq<NodeV>, id: u64, parent_inline: bool, acc: Seq<BoxV>) {
    if cs.len() > 0 {
        assert(nsize(cs[0]) >= 1);
    }
}

/// The children an inline container may be handed: inline-level,
/// unfloated, or hidden.
pub open spec fn inline_level_nodes(cs: Seq<NodeV>) -> bool {
    forall|i: int| 0 <= i < cs.len() ==> (#[trigger] cs[i]).style.float == FloatType::NoFloat && (
    cs[i].display == Display::Inline || cs[i].display == Display::InlineBlock || cs[i].display
        == Display::Hidden)
}

/// Building a well-formed styled node gives a well-formed layout tree.
pub proof fn lemma_build_wf(n: NodeV, id: u64)
    requires
        wf_node(n),
        n.display != Display::Hidden,
    ensures
        wf_box(build_spec(n, id).0),
        build_spec(n, id).0.box_type == built_box_type(n),
    decreases nsize(n), 0int,
{
    let bt = built_box_type(n);
    let (info, id1) = built_info(n, id);
    match n.kind {
        NodeKindV::Text(t) => {
            assert(n.children.len() == 0);
        },
        NodeKindV::Element => {
            lemma_build_children_wf(n.children, id1, bt is InlineNode, Seq::<BoxV>::empty());
        },
    }
}

pub proof fn lemma_build_children_wf(cs: Seq<NodeV>, id: u64, parent_inline: bool, acc: Seq<BoxV>)
    requires
        wf_nodes(cs),
        parent_inline ==> inline_level_nodes(cs),
        parent_inline ==> wf_inline_children(acc),
        !parent_inline ==> wf_block_children(acc),
    ensures
        parent_inline ==> wf_inline_children(build_children_spec(cs, id, parent_inline, acc).0),
        !parent_inline ==> wf_block_children(build_children_spec(cs, id, parent_inline, acc).0),
    decreases nseq_size(cs), 1int,
{
    if cs.len() == 0 {
    } else {
        let c = cs[0];
        assert(wf_node(c));
        let rest = cs.drop_first();
        assert(nseq_size(cs) == nsize(cs[0]) + nseq_size(cs.drop_first()));
        assert(nsize(c) >= 1);
        assert(wf_nodes(rest)) by {
            assert forall|j: int| 0 <= j < rest.len() implies wf_node(#[trigger] rest[j]) by {
                assert(rest[j] == cs[j + 1]);
            }
        }
        if parent_inline {
            assert(inline_level_nodes(rest)) by {
                assert forall|j: int|
                    0 <= j < rest.len() implies (#[trigger] rest[j]).style.float
                        == FloatType::NoFloat && (rest[j].display == Display::Inline
                        || rest[j].display == Display::InlineBlock || rest[j].display
                        == Display::Hidden) by {
                    assert(rest[j] == cs[j + 1]);
                    assert(cs[j + 1].style.float == FloatType::NoFloat && (cs[j + 1].display
                        == Display::Inline || cs[j + 1].display == Display::InlineBlock || cs[j
                        + 1].display == Display::Hidden));
                }
            }
        }
        if c.display == Display::Hidden {
            lemma_build_children_wf(rest, id, parent_inline, acc);
        } else {
            lemma_build_wf(c, id);
            let (cb, id_a) = build_spec(c, id);
            if c.style.float != FloatType::NoFloat || c.display == Display::Block {
                let acc2 = acc.push(cb);
                assert(!parent_inline);
                assert(wf_block_children(acc2)) by {
                    assert forall|i: int| 0 <= i < acc2.len() implies {
                        &&& wf_box(#[trigger] acc2[i])
                        &&& (acc2[i].box_type is BlockNode || acc2[i].box_type is Float
                            || acc2[i].box_type is AnonymousBlock)
                    } by {
                        if i < acc.len() {
                            assert(acc2[i] == acc[i]);
                            assert(wf_box(acc[i]) && (acc[i].box_type is BlockNode
                                || acc[i].box_type is Float || acc[i].box_type
                                is AnonymousBlock));
                        } else {
                            assert(acc2[i] == cb);
                        }
                    }
                }
                lemma_build_children_wf(rest, id_a, parent_inline, acc2);
            } else if parent_inline {
                let acc2 = acc.push(cb);
                assert(wf_inline_children(acc2)) by {
                    assert forall|i: int| 0 <= i < acc2.len() implies {
                        &&& wf_box(#[trigger] acc2[i])
                        &&& (acc2[i].box_type is InlineNode || acc2[i].box_type
                            is InlineBlockNode || acc2[i].box_type is TextNode)
                    } by {
                        if i < acc.len() {
                            assert(acc2[i] == acc[i]);
                            assert(wf_box(acc[i]) && (acc[i].box_type is InlineNode
                                || acc[i].box_type is InlineBlockNode || acc[i].box_type
                                is TextNode));
                        } else {
                            assert(acc2[i] == cb);
                        }
                    }
                }
                lemma_build_children_wf(rest, id_a, parent_inline, acc2);
            } else if acc.len() > 0 && acc.last().box_type is AnonymousBlock {
                let last0 = acc.last();
                let last1 = BoxV { children: last0.children.push(cb), ..last0 };
                let acc2 = acc.update(acc.len() - 1, last1);
                assert(wf_box(last0) && last0.box_type is AnonymousBlock);
                assert(wf_box(last1)) by {
                    assert(wf_inline_children(last0.children));
                    let ch2 = last0.children.push(cb);
                    assert forall|i: int| 0 <= i < ch2.len() implies {
                        &&& wf_box(#[trigger] ch2[i])
                        &&& (ch2[i].box_type is InlineNode || ch2[i].box_type
                            is InlineBlockNode || ch2[i].box_type is TextNode)
                    } by {
                        if i < last0.children.len() {
                            assert(ch2[i] == last0.children[i]);
                            assert(wf_box(last0.children[i]) && (last0.children[i].box_type
                                is InlineNode || last0.children[i].box_type is InlineBlockNode
                                || last0.children[i].box_type is TextNode));
                        } else {
                            assert(ch2[i] == cb);
                        }
                    }
                }
                assert(wf_block_children(acc2)) by {
                    assert forall|i: int| 0 <= i < acc2.len() implies {
                        &&& wf_box(#[trigger] acc2[i])
                        &&& (acc2[i].box_type is BlockNode || acc2[i].box_type is Float
                            || acc2[i].box_type is AnonymousBlock)
                    } by {
                        if i < acc.len() - 1 {
                            assert(acc2[i] == acc[i]);
                            assert(wf_box(acc[i]) && (acc[i].box_type is BlockNode
                                || acc[i].box_type is Float || acc[i].box_type
                                is AnonymousBlock));
                        } else {
                            assert(acc2[i] == last1);
                        }
                    }
                }
                lemma_build_children_wf(rest, id_a, parent_inline, acc2);
            } else {
                let anon = anon_box(seq![cb]);
                let acc2 = acc.push(anon);
                assert(wf_box(anon)) by {
                    let ch = seq![cb];
                    assert forall|i: int| 0 <= i < ch.len() implies {
                        &&& wf_box(#[trigger] ch[i])
                        &&& (ch[i].box_type is InlineNode || ch[i].box_type is InlineBlockNode
                            || ch[i].box_type is TextNode)
                    } by {
                        assert(ch[i] == cb);
                    }
                }
                assert(wf_block_children(acc2)) by {
                    assert forall|i: int| 0 <= i < acc2.len() implies {
                        &&& wf_box(#[trigger] acc2[i])
                        &&& (acc2[i].box_type is BlockNode || acc2[i].box_type is Float
                            || acc2[i].box_type is AnonymousBlock)
                    } by {
                        if i < acc.len() {
                            assert(acc2[i] == acc[i]);
                            assert(wf_box(acc[i]) && (acc[i].box_type is BlockNode
                                || acc[i].box_type is Float || acc[i].box_type
                                is AnonymousBlock));
                        } else {
                            assert(acc2[i] == anon);
                        }
                    }
                }
                lemma_build_children_wf(rest, id_a, parent_inline, acc2);
            }
        }
    }
}

impl LayoutBox {
    /// Lays this box out against its containing block: width resolution,
    /// position, children, height — or the line-breaking pass for an
    /// anonymous block. The ambient float context records any floats
    /// placed along the way.
    pub fn layout(&mut self, floats: &mut Floats, containing_block: Dimensions)
        requires
            wf_box(old(self)@),
            (old(self)@.box_type is BlockNode || old(self)@.box_type is InlineBlockNode
                || old(self)@.box_type is Float || old(self)@.box_type is AnonymousBlock),
        ensures
            final(self)@ == layout_spec(old(self)@, old(floats)@, containing_block).0,
            final(floats)@ == layout_spec(old(self)@, old(floats)@, containing_block).1,
    {
        let r = layout_box(self, floats, containing_block);
        *self = r;
    }
}

/// Builds the layout box of one styled node that is not `display: none`,
/// as `build_spec` states, threading the interactive-id counter.
fn build_layout_tree(style_node: &StyledNode, id: u64) -> (r: (LayoutBox, u64))
    requires
        wf_node(style_node@),
        style_node@.display != Display::Hidden,
    ensures
        r.0@ == build_spec(style_node@, id).0,
        r.1 == build_spec(style_node@, id).1,
    decreases nsize(style_node@), 0int,
{
    let is_float = style_node.style.float != FloatType::NoFloat;
    let bt: BoxType = if is_float {
        BoxType::Float
    } else {
        match style_node.display {
            Display::Block => BoxType::BlockNode,
            Display::Inline | Display::InlineBlock => match &style_node.kind {
                NodeKind::Element => if style_node.display == Display::Inline {
                    BoxType::InlineNode
                } else {
                    BoxType::InlineBlockNode
                },
                NodeKind::Text(t) => BoxType::TextNode(
                    Text { font: Font::new_empty(), start: 0, end: t.len(), content: clone_chars(t) },
                ),
            },
            Display::Hidden => BoxType::BlockNode,
        }
    };
    let parent_inline = match &bt {
        BoxType::InlineNode => true,
        _ => false,
    };
    let (info, id1): (LayoutInfo, u64) = match style_node.layout_type {
        LayoutType::Generic => (LayoutInfo::Generic, id),
        LayoutType::Text => (LayoutInfo::Text, id),
        LayoutType::Image => (LayoutInfo::Image(style_node.style.image), id),
        LayoutType::Anker => (LayoutInfo::Anker, id),
        LayoutType::Button => (
            LayoutInfo::Button(id),
            if id == u64::MAX {
                id
            } else {
                id + 1
            },
        ),
    };
    let ghost n = style_node@;
    proof {
        lemma_nodes_view(style_node.children@);
        assert(box_type_view(bt) == built_box_type(n));
        assert(parent_inline == (built_box_type(n) is InlineNode));
        assert((info, id1) == built_info(n, id));
        assert(wf_nodes(n.children));
    }
    let mut kids: Vec<LayoutBox> = Vec::new();
    let mut cur: u64 = id1;
    let ghost goal = build_children_spec(n.children, id1, parent_inline, Seq::<BoxV>::empty());
    let mut i: usize = 0;
    proof {
        assert(n.children.subrange(0, n.children.len() as int) =~= n.children);
        assert(boxes_view(kids@) =~= Seq::<BoxV>::empty());
    }
    while i < style_node.children.len()
        invariant
            0 <= i <= style_node.children@.len(),
            n == style_node@,
            n.children.len() == style_node.children@.len(),
            forall|k: int| 0 <= k < style_node.children@.len() ==> n.children[k] == node_view(
                style_node.children@[k],
            ),
            wf_nodes(n.children),
            parent_inline ==> inline_level_nodes(n.children),
            goal == build_children_spec(
                n.children.subrange(i as int, n.children.len() as int),
                cur,
                parent_inline,
                boxes_view(kids@),
            ),
        decreases style_node.children@.len() - i,
    {
        let ghost suf = n.children.subrange(i as int, n.children.len() as int);
        proof {
            assert(suf[0] == n.children[i as int]);
            assert(suf.drop_first() =~= n.children.subrange(i + 1, n.children.len() as int));
            lemma_nseq_size_suffix(n.children, i as int);
            assert(wf_node(suf[0]));
        }
        let c = &style_node.children[i];
        if c.display == Display::Hidden {
        } else {
            proof {
                assert(nsize(c@) <= nseq_size(n.children)) by {
                    lemma_nseq_size_prefix_bound(n.children, i as int);
                }
            }
            let built = build_layout_tree(c, cur);
            let cb = built.0;
            cur = built.1;
            let ghost cbv = cb;
            if c.style.float != FloatType::NoFloat || c.display == Display::Block {
                let ghost kids_pre = kids@;
                kids.push(cb);
                proof {
                    lemma_boxes_view_push(kids_pre, cbv);
                }
            } else if parent_inline {
                let ghost kids_pre = kids@;
                kids.push(cb);
                proof {
                    lemma_boxes_view_push(kids_pre, cbv);
                }
            } else {
                let mut into_last = false;
                if kids.len() > 0 {
                    match &kids[kids.len() - 1].box_type {
                        BoxType::AnonymousBlock => {
                            into_last = true;
                        },
                        _ => {},
                    }
                }
                proof {
                    lemma_boxes_view(kids@);
                }
                if into_last {
                    let ghost kids_pre = kids@;
                    let mut lastb = match kids.pop() {
                        Some(b) => b,
                        None => unreached(),
                    };
                    let ghost last_pre = lastb;
                    let ghost lch_pre = lastb.children@;
                    lastb.children.push(cb);
                    let ghost lastb_v = lastb;
                    kids.push(lastb);
                    proof {
                        lemma_boxes_view_push(lch_pre, cbv);
                        assert(kids@ =~= kids_pre.update(kids_pre.len() - 1, lastb_v));
                        lemma_boxes_view_update(kids_pre, kids_pre.len() - 1, lastb_v);
                        assert(box_view(lastb_v) =~= (BoxV {
                            children: box_view(last_pre).children.push(box_view(cbv)),
                            ..box_view(last_pre)
                        }));
                        assert(boxes_view(kids_pre).last() == box_view(last_pre));
                    }
                } else {
                    let mut anon = LayoutBox::new(BoxType::AnonymousBlock, None, LayoutInfo::Generic);
                    let ghost ach_pre = anon.children@;
                    anon.children.push(cb);
                    let ghost anon_v = anon;
                    let ghost kids_pre = kids@;
                    kids.push(anon);
                    proof {
                        lemma_boxes_view_push(ach_pre, cbv);
                        lemma_boxes_view_push(kids_pre, anon_v);
                        assert(box_view(anon_v) =~= anon_box(seq![box_view(cbv)]));
                    }
                }
            }
        }
        i = i + 1;
    }
    proof {
        assert(n.children.subrange(i as int, n.children.len() as int).len() == 0);
    }
    let r0 = LayoutBox {
        dimensions: Dimensions::default(),
        z_index: style_node.style.z_index,
        box_type: bt,
        info,
        style: Some(style_node.style),
        children: kids,
    };
    proof {
        assert(r0@ =~= build_spec(n, id).0);
    }
    (r0, cur)
}

proof fn lemma_nseq_size_prefix_bound(s: Seq<NodeV>, i: int)
    requires
        0 <= i < s.len(),
    ensures
        nsize(s[i]) <= nseq_size(s),
    decreases s.len(),
{
    if i == 0 {
    } else {
        lemma_nseq_size_prefix_bound(s.drop_first(), i - 1);
        assert(s.drop_first()[i - 1] == s[i]);
    }
}

/// The geometry a whole layout pass gives a well-formed styled tree: the
/// box tree is built with the id counter at zero and laid out against the
/// containing block with its accumulated height cleared and no floats
/// placed.
pub open spec fn layout_tree_spec(n: NodeV, containing_block: Dimensions) -> BoxV {
    let cb0 = Dimensions {
        content: Rect { height: 0, ..containing_block.content },
        ..containing_block
    };
    let (b0, _) = build_spec(n, 0);
    layout_spec(b0, floats_empty(), cb0).0
}

/// Whether a styled node may stand at the root of a layout pass: a plain
/// inline root produces no block formatting context to lay it out in.
pub open spec fn root_ok(n: NodeV) -> bool {
    n.display == Display::Inline ==> n.style.float != FloatType::NoFloat
}

/// Transforms a styled tree into a positioned layout tree.
///
/// Returns `None` exactly when the root is `display: none` (a
/// configuration error, reported rather than laid out). Otherwise the
/// result is the one box tree `layout_tree_spec` describes, so laying the
/// same styled tree out twice against the same containing block gives
/// identical geometry.
pub fn layout_tree(node: &StyledNode, containing_block: Dimensions) -> (r: Option<LayoutBox>)
    requires
        wf_node(node@),
        root_ok(node@),
    ensures
        (r is None) <==> node@.display == Display::Hidden,
        node@.display != Display::Hidden ==> r.unwrap()@ == layout_tree_spec(
            node@,
            containing_block,
        ),
{
    if node.display == Display::Hidden {
        return None;
    }
    let mut cb = containing_block;
    cb.content.height = 0;
    let built = build_layout_tree(node, 0);
    let mut root = built.0;
    proof {
        lemma_build_wf(node@, 0);
        assert(root@.box_type is BlockNode || root@.box_type is InlineBlockNode || root@.box_type
            is Float || root@.box_type is AnonymousBlock);
    }
    let mut fl = Floats::new();
    root.layout(&mut fl, cb);
    Some(root)
}

} // verus!
