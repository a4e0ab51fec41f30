//! The line breaker: the inline formatting engine.
//!
//! Given a flat run of inline-level boxes inside one anonymous block, the
//! `LineMaker` reflows them into line boxes: text runs are split at
//! breakable units against the float-clipped width at the current vertical
//! offset, inline boxes recurse over their children and are re-wrapped
//! around each emitted fragment (outer edges kept only on the outermost
//! fragments), and replaced or inline-block boxes are placed atomically.
//! A second pass assigns every emitted box its aligned, baseline-relative
//! position.
//!
//! Every step is stated by a `lm_*` spec transition over the maker's
//! mathematical state, and the executable methods are proved equal to
//! them.

use vstd::prelude::*;
use crate::geometry::{
    Au, Dimensions, EdgeSizes, Rect, sat64, half64, au_add, au_sub, au_max, au_half,
    margin_box_spec,
};
use crate::font::{
    Font, width_of_units, max_chars_spec, above_baseline_spec, half_leading_spec,
};
use crate::floats::{Floats, FloatsV, available_area_spec};
use crate::layout::{
    BoxV, BoxTypeV, BoxType, LayoutBox, LayoutInfo, Text, TextV, boxes_view, lemma_boxes_view,
    lemma_boxes_view_update, lemma_boxes_view_push, box_view, bsize, bseq_size,
    lemma_bseq_size_suffix, wf_box, wf_inline_children, clone_chars,
};
use crate::style::{StyleData, TextAlign};
use vstd::pervasive::unreached;

verus! {

/// One committed line: the range of emitted boxes it holds, its metrics,
/// and its total width.
#[derive(Clone, Copy, Debug, PartialEq, Eq, Structural)]
pub struct Line {
    pub start: usize,
    pub end: usize,
    pub metrics: LineMetrics,
    pub width: Au,
}

/// The vertical extents of a line around its baseline; the line's height
/// is their sum.
#[derive(Clone, Copy, Debug, PartialEq, Eq, Structural)]
pub struct LineMetrics {
    pub above_baseline: Au,
    pub under_baseline: Au,
}

pub open spec fn metrics_zero() -> LineMetrics {
    LineMetrics { above_baseline: 0, under_baseline: 0 }
}

pub open spec fn line_zero() -> Line {
    Line { start: 0, end: 0, metrics: metrics_zero(), width: 0 }
}

/// The height of a line: above-baseline extent plus under-baseline extent.
pub open spec fn line_height_of(m: LineMetrics) -> Au {
    sat64(m.above_baseline + m.under_baseline)
}

impl LineMetrics {
    pub fn new(above_baseline: Au, under_baseline: Au) -> (r: LineMetrics)
        ensures
            r == (LineMetrics { above_baseline, under_baseline }),
    {
        LineMetrics { above_baseline, under_baseline }
    }

    /// Clears both extents, as the maker does after flushing a line.
    pub fn reset(&mut self)
        ensures
            *final(self) == metrics_zero(),
    {
        self.above_baseline = 0;
        self.under_baseline = 0;
    }

    /// The height of a line with these metrics.
    pub fn calculate_line_height(&self) -> (r: Au)
        ensures
            r == line_height_of(*self),
    {
        au_add(self.above_baseline, self.under_baseline)
    }
}

/// The mathematical state of a line maker: everything but the input queue.
#[verifier::ext_equal]
pub struct LmV {
    pub pending: Line,
    pub new_boxes: Seq<BoxV>,
    pub floats: FloatsV,
    pub lines: Seq<Line>,
    pub start: usize,
    pub end: usize,
    pub cur_width: Au,
    pub cur_height: Au,
    pub cur_metrics: LineMetrics,
}

/// The inline formatting engine for one anonymous block.
#[derive(Debug)]
pub struct LineMaker {
    /// The byte-free text cursor: while a text box is being split, its
    /// not-yet-emitted unit range.
    pub pending: Line,
    /// The input boxes not yet processed.
    pub work: Vec<LayoutBox>,
    /// The emitted, re-flowed output boxes.
    pub new_boxes: Vec<LayoutBox>,
    /// This maker's float context.
    pub floats: Floats,
    /// The committed lines.
    pub lines: Vec<Line>,
    /// Start of the current (uncommitted) line's range in `new_boxes`.
    pub start: usize,
    /// End of the current line's range in `new_boxes`.
    pub end: usize,
    /// Width consumed on the current line.
    pub cur_width: Au,
    /// Height of all committed lines.
    pub cur_height: Au,
    /// Running metrics of the current line.
    pub cur_metrics: LineMetrics,
}

impl View for LineMaker {
    type V = LmV;

    open spec fn view(&self) -> LmV {
        LmV {
            pending: self.pending,
            new_boxes: boxes_view(self.new_boxes@),
            floats: self.floats@,
            lines: self.lines@,
            start: self.start,
            end: self.end,
            cur_width: self.cur_width,
            cur_height: self.cur_height,
            cur_metrics: self.cur_metrics,
        }
    }
}

/// The state a fresh maker starts from.
pub open spec fn lm_init(f: FloatsV) -> LmV {
    LmV {
        pending: line_zero(),
        new_boxes: Seq::<BoxV>::empty(),
        floats: f,
        lines: Seq::<Line>::empty(),
        start: 0,
        end: 0,
        cur_width: 0,
        cur_height: 0,
        cur_metrics: metrics_zero(),
    }
}

/// A sane maker state: the current line's range and every committed line's
/// range lie within the emitted boxes.
pub open spec fn lm_wf(lm: LmV) -> bool {
    &&& lm.start <= lm.end <= lm.new_boxes.len()
    &&& forall|k: int| 0 <= k < lm.lines.len() ==> (#[trigger] lm.lines[k]).start
        <= lm.lines[k].end <= lm.new_boxes.len()
}

/// Sanity carries over to any state with the same committed lines, no
/// fewer emitted boxes, and a current range still in bounds.
pub proof fn lemma_lm_wf_carry(a: LmV, b: LmV)
    requires
        lm_wf(a),
        b.lines == a.lines,
        b.new_boxes.len() >= a.new_boxes.len(),
        b.start <= b.end <= b.new_boxes.len(),
    ensures
        lm_wf(b),
{
    assert forall|k: int| 0 <= k < b.lines.len() implies (#[trigger] b.lines[k]).start
        <= b.lines[k].end <= b.new_boxes.len() by {
        assert(a.lines[k].start <= a.lines[k].end <= a.new_boxes.len());
    }
}

/// The total margin-box width of the emitted boxes `[from, to)`.
pub open spec fn line_width_sum(s: Seq<BoxV>, from: int, to: int) -> Au
    decreases to - from,
{
    if to <= from {
        0
    } else {
        sat64(line_width_sum(s, from, to - 1) + margin_box_spec(s[to - 1].dimensions).width)
    }
}

/// What flushing the current line does: commit `[start, end)` with the
/// running metrics and its total width, advance the vertical cursor by
/// the line's height, start the next line at `end`, and clear the width
/// and metric accumulators for it.
pub open spec fn lm_flush_spec(lm: LmV) -> LmV {
    LmV {
        lines: lm.lines.push(
            Line {
                start: lm.start,
                end: lm.end,
                metrics: lm.cur_metrics,
                width: line_width_sum(lm.new_boxes, lm.start as int, lm.end as int),
            },
        ),
        cur_height: sat64(lm.cur_height + line_height_of(lm.cur_metrics)),
        start: lm.end,
        cur_width: 0,
        cur_metrics: metrics_zero(),
        ..lm
    }
}

/// The widest committed line among the first `n`.
pub open spec fn max_line_width(lines: Seq<Line>, n: int) -> Au
    decreases n,
{
    if n <= 0 {
        0
    } else {
        let prev = max_line_width(lines, n - 1);
        if lines[n - 1].width >= prev {
            lines[n - 1].width
        } else {
            prev
        }
    }
}

/// The horizontal start offset of a line from its container's alignment.
pub open spec fn align_offset_spec(ta: TextAlign, mw: Au, line_width: Au) -> Au {
    match ta {
        TextAlign::Left => 0,
        TextAlign::Center => half64(sat64(mw - line_width)),
        TextAlign::Right => sat64(mw - line_width),
    }
}

/// Positions one emitted box on its line: horizontally after the width
/// consumed so far, starting from the aligned, float-clipped line origin;
/// vertically so that boxes share the line's baseline.
pub open spec fn assign_box_spec(
    bx: BoxV,
    f: FloatsV,
    mw: Au,
    line: Line,
    cur_h: Au,
    cur_w: Au,
) -> BoxV {
    let ta = match bx.style {
        Some(s) => s.text_align,
        None => TextAlign::Left,
    };
    let band = available_area_spec(f, mw, cur_h);
    let init = sat64(align_offset_spec(ta, mw, line.width) + band.x);
    let x = sat64(
        sat64(sat64(sat64(init + cur_w) + bx.dimensions.padding.left) + bx.dimensions.border.left)
            + bx.dimensions.margin.left,
    );
    let y = sat64(
        sat64(cur_h + sat64(line.metrics.above_baseline - bx.dimensions.content.height)) - sat64(
            sat64(bx.dimensions.padding.top + bx.dimensions.margin.top) + bx.dimensions.border.top,
        ),
    );
    BoxV {
        dimensions: Dimensions {
            content: Rect { x, y, ..bx.dimensions.content },
            ..bx.dimensions
        },
        ..bx
    }
}

/// Positions the boxes of one line from index `j` on, threading the
/// consumed width.
pub open spec fn assign_boxes_spec(
    nb: Seq<BoxV>,
    j: int,
    line: Line,
    f: FloatsV,
    mw: Au,
    cur_h: Au,
    cur_w: Au,
) -> (Seq<BoxV>, Au)
    decreases line.end - j,
{
    if j < 0 || j >= line.end || line.end > nb.len() {
        (nb, cur_w)
    } else {
        let b2 = assign_box_spec(nb[j], f, mw, line, cur_h, cur_w);
        let cw2 = sat64(cur_w + margin_box_spec(b2.dimensions).width);
        assign_boxes_spec(nb.update(j, b2), j + 1, line, f, mw, cur_h, cw2)
    }
}

/// Positions every committed line from index `k` on, threading the
/// vertical cursor.
pub open spec fn assign_lines_spec(
    nb: Seq<BoxV>,
    lines: Seq<Line>,
    k: int,
    f: FloatsV,
    mw: Au,
    cur_h: Au,
    cur_w: Au,
) -> (Seq<BoxV>, Au, Au)
    decreases lines.len() - k,
{
    if k < 0 || k >= lines.len() {
        (nb, cur_h, cur_w)
    } else {
        let line = lines[k];
        let (nb2, cw2) = assign_boxes_spec(nb, line.start as int, line, f, mw, cur_h, 0);
        assign_lines_spec(
            nb2,
            lines,
            k + 1,
            f,
            mw,
            sat64(cur_h + line_height_of(line.metrics)),
            cw2,
        )
    }
}

/// The whole position-assignment pass, starting from a zero vertical
/// cursor.
pub open spec fn lm_assign_spec(lm: LmV, mw: Au) -> LmV {
    let (nb2, h2, w2) = assign_lines_spec(lm.new_boxes, lm.lines, 0, lm.floats, mw, 0, lm.cur_width);
    LmV { new_boxes: nb2, cur_height: h2, cur_width: w2, ..lm }
}

/// The termination measure of text splitting: the unprocessed units count
/// twice, and a non-empty current line adds one step (a flush that frees
/// it).
pub open spec fn text_measure(lm: LmV) -> int {
    if lm.pending.end > lm.pending.start {
        2 * (lm.pending.end - lm.pending.start) + (if lm.cur_width != 0 {
            1int
        } else {
            0int
        })
    } else {
        0
    }
}

/// The larger of two lengths.
pub open spec fn max_au(a: Au, b: Au) -> Au {
    if a >= b {
        a
    } else {
        b
    }
}

/// The running line metrics after a run of text in `font` joins the line:
/// each extent is the maximum seen so far.
pub open spec fn join_text_metrics(m: LineMetrics, font: Font) -> LineMetrics {
    LineMetrics {
        above_baseline: max_au(m.above_baseline, above_baseline_spec(font)),
        under_baseline: max_au(m.under_baseline, half_leading_spec(font)),
    }
}

/// The box a split or fitting run of text emits: the input text box with
/// its measured width, its font's size as height, and the emitted unit
/// range.
pub open spec fn emitted_text_box(b: BoxV, t: TextV, font: Font, start: usize, end: usize, w: Au)
    -> BoxV {
    BoxV {
        dimensions: Dimensions {
            content: Rect { width: w, height: font.size, ..b.dimensions.content },
            ..b.dimensions
        },
        box_type: BoxTypeV::TextNode(TextV { font, start, end, content: t.content }),
        children: Seq::<BoxV>::empty(),
        ..b
    }
}

/// Splits the pending range of a text box across lines.
///
/// While the pending range is non-empty: the free band at the current
/// vertical offset is recomputed; if the whole pending run fits what is
/// left of it, one text box for the run joins the line and the range
/// empties. Otherwise the run is cut (preferring the last breakable unit
/// that fits; at least one unit when the line is empty, so the splitter
/// always advances), the prefix joins the line, the line is flushed, and
/// the suffix goes round again.
pub open spec fn lm_text_spec(lm: LmV, b: BoxV, mw: Au) -> LmV
    decreases bsize(b), 0int, text_measure(lm)
        via lm_text_spec_decreases
{
    match b.box_type {
        BoxTypeV::TextNode(t) => {
            if !(lm.pending.start < lm.pending.end && lm.pending.end <= t.content.len()) {
                lm
            } else {
                let s = b.style.unwrap();
                let font = s.font;
                let band = available_area_spec(lm.floats, mw, lm.cur_height);
                let avail = band.width;
                let n = (lm.pending.end - lm.pending.start) as nat;
                let w_full = width_of_units(font, n);
                let m2 = join_text_metrics(lm.cur_metrics, font);
                if sat64(lm.cur_width + w_full) <= avail {
                    let emitted = emitted_text_box(
                        b,
                        t,
                        font,
                        lm.pending.start,
                        lm.pending.end,
                        w_full,
                    );
                    LmV {
                        new_boxes: lm.new_boxes.push(emitted),
                        end: ((lm.end + 1) as usize),
                        cur_width: sat64(lm.cur_width + w_full),
                        cur_metrics: m2,
                        pending: Line { start: 0, end: 0, ..lm.pending },
                        ..lm
                    }
                } else {
                    let rem = sat64(avail - lm.cur_width);
                    let mc0 = max_chars_spec(
                        font,
                        t.content.subrange(lm.pending.start as int, lm.pending.end as int),
                        rem,
                    );
                    let mc = if mc0 == 0 && lm.cur_width == 0 {
                        1nat
                    } else {
                        mc0
                    };
                    let w_pre = width_of_units(font, mc);
                    let cut = ((lm.pending.start + mc) as usize);
                    let emitted = emitted_text_box(b, t, font, lm.pending.start, cut, w_pre);
                    let lm_a = LmV {
                        new_boxes: lm.new_boxes.push(emitted),
                        end: ((lm.end + 1) as usize),
                        cur_metrics: m2,
                        pending: Line { start: cut, end: lm.pending.end, ..lm.pending },
                        ..lm
                    };
                    lm_text_spec(lm_flush_spec(lm_a), b, mw)
                }
            }
        },
        _ => lm,
    }
}

#[via_fn]
proof fn lm_text_spec_decreases(lm: LmV, b: BoxV, mw: Au) {
    match b.box_type {
        BoxTypeV::TextNode(t) => {
            if lm.pending.start < lm.pending.end && lm.pending.end <= t.content.len() {
                let s = b.style.unwrap();
                let font = s.font;
                let band = available_area_spec(lm.floats, mw, lm.cur_height);
                let rem = sat64(band.width - lm.cur_width);
                crate::font::lemma_max_chars_le(
                    font,
                    t.content.subrange(lm.pending.start as int, lm.pending.end as int),
                    rem,
                );
            }
        },
        _ => {},
    }
}

/// Places one atomic inline-block box: laid out as a block against what is
/// left of the line, flushed onto a fresh line when it does not fit, and
/// always widening the line's above-baseline extent to its margin-box
/// height.
pub open spec fn lm_iblock_spec(lm: LmV, b: BoxV, mw: Au) -> LmV
    decreases bsize(b), 1int, 0int,
{
    let cb = Dimensions {
        content: Rect { x: 0, y: 0, width: sat64(mw - lm.cur_width), height: 0 },
        padding: crate::layout::edges_zero_spec(),
        border: crate::layout::edges_zero_spec(),
        margin: crate::layout::edges_zero_spec(),
    };
    let (b2, f2) = crate::layout::layout_spec(b, lm.floats, cb);
    let lm1 = LmV { floats: f2, ..lm };
    let bw = margin_box_spec(b2.dimensions).width;
    let bh = margin_box_spec(b2.dimensions).height;
    if sat64(lm1.cur_width + bw) > mw {
        let lm2 = lm_flush_spec(lm1);
        LmV {
            new_boxes: lm2.new_boxes.push(b2),
            end: ((lm2.end + 1) as usize),
            cur_width: bw,
            cur_metrics: LineMetrics {
                above_baseline: max_au(lm2.cur_metrics.above_baseline, bh),
                ..lm2.cur_metrics
            },
            ..lm2
        }
    } else {
        LmV {
            new_boxes: lm1.new_boxes.push(b2),
            end: ((lm1.end + 1) as usize),
            cur_width: sat64(lm1.cur_width + bw),
            cur_metrics: LineMetrics {
                above_baseline: max_au(lm1.cur_metrics.above_baseline, bh),
                ..lm1.cur_metrics
            },
            ..lm1
        }
    }
}

/// One wrapped fragment of a split inline box: a copy of the inline box
/// around the emitted inner box, with the outer edges kept only where the
/// fragment is outermost, so a break inside the box draws no doubled
/// edge.
pub open spec fn frag_spec(
    inner: BoxV,
    b: BoxV,
    s: StyleData,
    zero_left: bool,
    zero_right: bool,
) -> BoxV {
    BoxV {
        dimensions: Dimensions {
            content: Rect {
                x: b.dimensions.content.x,
                y: b.dimensions.content.y,
                width: inner.dimensions.content.width,
                height: inner.dimensions.content.height,
            },
            padding: EdgeSizes {
                left: if zero_left {
                    0
                } else {
                    s.padding.left
                },
                right: if zero_right {
                    0
                } else {
                    s.padding.right
                },
                top: s.padding.top,
                bottom: s.padding.bottom,
            },
            border: EdgeSizes {
                left: if zero_left {
                    0
                } else {
                    s.border.left
                },
                right: if zero_right {
                    0
                } else {
                    s.border.right
                },
                top: s.border.top,
                bottom: s.border.bottom,
            },
            margin: b.dimensions.margin,
        },
        children: seq![inner],
        ..b
    }
}

/// Re-wraps every fragment in `[start0, end0)` of the emitted boxes in a
/// copy of the split inline box, zeroing inner edges: only the first
/// fragment keeps the left edges, only the last keeps the right ones.
pub open spec fn wrap_frags_spec(
    nb: Seq<BoxV>,
    start0: int,
    end0: int,
    j: int,
    b: BoxV,
    s: StyleData,
) -> Seq<BoxV>
    decreases end0 - j,
{
    if j < start0 || j >= end0 || end0 > nb.len() {
        nb
    } else {
        let many = end0 - start0 > 1;
        let f2 = frag_spec(
            nb[j],
            b,
            s,
            many && j > start0,
            many && j < end0 - 1,
        );
        wrap_frags_spec(nb.update(j, f2), start0, end0, j + 1, b, s)
    }
}

/// Places one inline box. A replaced box (an image) is atomic: it takes
/// its intrinsic size, flushes the line first when it does not fit, and
/// raises the above-baseline extent. A non-replaced box runs the same
/// line-breaking pass over its own children against the width left inside
/// its edges, and each emitted fragment is re-wrapped in a copy of the
/// box.
pub open spec fn lm_inline_spec(lm: LmV, b: BoxV, mw: Au) -> LmV
    decreases bsize(b), 1int, 0int,
{
    if b.info is Image {
        let (w, h) = match b.info {
            LayoutInfo::Image(Some(m)) => (m.width, m.height),
            _ => (0, 0),
        };
        let emitted = BoxV {
            dimensions: Dimensions {
                content: Rect { width: w, height: h, ..b.dimensions.content },
                ..b.dimensions
            },
            children: Seq::<BoxV>::empty(),
            ..b
        };
        if sat64(lm.cur_width + w) > mw {
            let lm2 = lm_flush_spec(lm);
            LmV {
                new_boxes: lm2.new_boxes.push(emitted),
                end: ((lm2.end + 1) as usize),
                cur_width: w,
                cur_metrics: LineMetrics {
                    above_baseline: max_au(lm2.cur_metrics.above_baseline, h),
                    ..lm2.cur_metrics
                },
                ..lm2
            }
        } else {
            LmV {
                new_boxes: lm.new_boxes.push(emitted),
                end: ((lm.end + 1) as usize),
                cur_width: sat64(lm.cur_width + w),
                cur_metrics: LineMetrics {
                    above_baseline: max_au(lm.cur_metrics.above_baseline, h),
                    ..lm.cur_metrics
                },
                ..lm
            }
        }
    } else {
        let s = b.style.unwrap();
        let pl_bl = sat64(s.padding.left + s.border.left);
        let pr_br = sat64(s.padding.right + s.border.right);
        let start0 = lm.end as int;
        let lm1 = LmV { cur_width: sat64(lm.cur_width + pl_bl), ..lm };
        let lm2 = lm_run_spec(lm1, b.children, sat64(mw - pr_br));
        let lm3 = LmV { cur_width: sat64(lm2.cur_width + pr_br), ..lm2 };
        let end0 = lm3.end as int;
        LmV { new_boxes: wrap_frags_spec(lm3.new_boxes, start0, end0, start0, b, s), ..lm3 }
    }
}

/// Processes the input queue in order, dispatching each box by kind.
/// Every handler works against the float-clipped band at the current
/// vertical offset: text boxes first load their unit range into the
/// pending cursor and recompute the band per emitted line themselves;
/// inline and inline-block boxes take the band's width as their budget.
pub open spec fn lm_run_spec(lm: LmV, q: Seq<BoxV>, mw: Au) -> LmV
    decreases bseq_size(q), 2int, 0int
        via lm_run_spec_decreases
{
    if q.len() == 0 {
        lm
    } else {
        let b = q[0];
        let band = available_area_spec(lm.floats, mw, lm.cur_height);
        let lm2 = match b.box_type {
            BoxTypeV::TextNode(t) => lm_text_spec(
                LmV { pending: Line { start: t.start, end: t.end, ..lm.pending }, ..lm },
                b,
                mw,
            ),
            BoxTypeV::InlineBlockNode => lm_iblock_spec(lm, b, band.width),
            BoxTypeV::InlineNode => lm_inline_spec(lm, b, band.width),
            _ => lm,
        };
        lm_run_spec(lm2, q.drop_first(), mw)
    }
}

#[via_fn]
proof fn lm_run_spec_decreases(lm: LmV, q: Seq<BoxV>, mw: Au) {
    if q.len() > 0 {
        assert(bsize(q[0]) >= 1);
    }
}

impl LineMaker {
    /// A maker over the given input boxes, with its own float context.
    pub fn new(boxes: Vec<LayoutBox>, floats: Floats) -> (r: LineMaker)
        ensures
            r@ == lm_init(floats@),
            r.work@ == boxes@,
    {
        let r = LineMaker {
            pending: Line { start: 0, end: 0, metrics: LineMetrics { above_baseline: 0, under_baseline: 0 }, width: 0 },
            work: boxes,
            new_boxes: Vec::new(),
            floats,
            lines: Vec::new(),
            start: 0,
            end: 0,
            cur_width: 0,
            cur_height: 0,
            cur_metrics: LineMetrics { above_baseline: 0, under_baseline: 0 },
        };
        proof {
            assert(r@ =~= lm_init(floats@));
        }
        r
    }

    /// Commits the current line and starts the next one.
    pub fn flush_cur_line(&mut self)
        requires
            lm_wf(old(self)@),
        ensures
            final(self)@ == lm_flush_spec(old(self)@),
            final(self).work@ == old(self).work@,
            lm_wf(final(self)@),
    {
        proof {
            lemma_boxes_view(self.new_boxes@);
        }
        let mut width: Au = 0;
        let mut j: usize = self.start;
        while j < self.end
            invariant
                self.start <= j <= self.end,
                self.end <= self.new_boxes@.len(),
                boxes_view(self.new_boxes@).len() == self.new_boxes@.len(),
                forall|i: int| 0 <= i < self.new_boxes@.len() ==> boxes_view(self.new_boxes@)[i]
                    == box_view(self.new_boxes@[i]),
                width == line_width_sum(
                    boxes_view(self.new_boxes@),
                    self.start as int,
                    j as int,
                ),
            decreases self.end - j,
        {
            let mb = self.new_boxes[j].dimensions.margin_box();
            width = au_add(width, mb.width);
            j = j + 1;
        }
        let line = Line { start: self.start, end: self.end, metrics: self.cur_metrics, width };
        self.lines.push(line);
        let lh = self.cur_metrics.calculate_line_height();
        self.cur_height = au_add(self.cur_height, lh);
        self.start = self.end;
        self.cur_width = 0;
        self.cur_metrics.reset();
        proof {
            assert(final(self)@ =~= lm_flush_spec(old(self)@));
        }
    }

    /// Commits whatever remains on the last line.
    pub fn end_of_lines(&mut self)
        requires
            lm_wf(old(self)@),
        ensures
            final(self)@ == lm_flush_spec(old(self)@),
            final(self).work@ == old(self).work@,
            lm_wf(final(self)@),
    {
        self.flush_cur_line()
    }

    /// The widest committed line: the content width an anonymous block
    /// reports for its run of lines.
    pub fn calculate_width(&self) -> (r: Au)
        ensures
            r == max_line_width(self@.lines, self@.lines.len() as int),
    {
        let mut r: Au = 0;
        let mut k: usize = 0;
        while k < self.lines.len()
            invariant
                0 <= k <= self.lines@.len(),
                r == max_line_width(self.lines@, k as int),
            decreases self.lines@.len() - k,
        {
            r = au_max(r, self.lines[k].width);
            k = k + 1;
        }
        r
    }

    /// The second pass: walks the committed lines and gives every emitted
    /// box its final position, aligned horizontally by its styled
    /// `text-align` over the float-clipped line origin, and vertically on
    /// the line's baseline.
    pub fn assign_position(&mut self, max_width: Au)
        requires
            lm_wf(old(self)@),
        ensures
            final(self)@ == lm_assign_spec(old(self)@, max_width),
            final(self).work@ == old(self).work@,
    {
        self.cur_height = 0;
        let ghost goal = assign_lines_spec(
            old(self)@.new_boxes,
            old(self)@.lines,
            0,
            old(self)@.floats,
            max_width,
            0,
            old(self)@.cur_width,
        );
        let mut k: usize = 0;
        while k < self.lines.len()
            invariant
                0 <= k <= self.lines@.len(),
                self.lines@ == old(self)@.lines,
                self.floats@ == old(self)@.floats,
                self.pending == old(self)@.pending,
                self.start == old(self)@.start,
                self.end == old(self)@.end,
                self.cur_metrics == old(self)@.cur_metrics,
                self.work@ == old(self).work@,
                boxes_view(self.new_boxes@).len() == old(self)@.new_boxes.len(),
                forall|i: int| 0 <= i < self.lines@.len() ==> (#[trigger] self.lines@[i]).start
                    <= self.lines@[i].end <= boxes_view(self.new_boxes@).len(),
                assign_lines_spec(
                    boxes_view(self.new_boxes@),
                    self.lines@,
                    k as int,
                    self.floats@,
                    max_width,
                    self.cur_height,
                    self.cur_width,
                ) == goal,
            decreases self.lines@.len() - k,
        {
            let line = self.lines[k];
            self.cur_width = 0;
            let ghost ch = self.cur_height;
            let ghost target = assign_boxes_spec(
                boxes_view(self.new_boxes@),
                line.start as int,
                line,
                self.floats@,
                max_width,
                ch,
                0,
            );
            let mut j: usize = line.start;
            while j < line.end
                invariant
                    line == self.lines@[k as int],
                    0 <= k < self.lines@.len(),
                    self.lines@ == old(self)@.lines,
                    self.floats@ == old(self)@.floats,
                    self.pending == old(self)@.pending,
                    self.start == old(self)@.start,
                    self.end == old(self)@.end,
                    self.cur_metrics == old(self)@.cur_metrics,
                    self.work@ == old(self).work@,
                    self.cur_height == ch,
                    line.start <= j <= line.end,
                    line.end <= boxes_view(self.new_boxes@).len(),
                    boxes_view(self.new_boxes@).len() == old(self)@.new_boxes.len(),
                    forall|i: int| 0 <= i < self.lines@.len() ==> (#[trigger] self.lines@[i]).start
                        <= self.lines@[i].end <= boxes_view(self.new_boxes@).len(),
                    assign_boxes_spec(
                        boxes_view(self.new_boxes@),
                        j as int,
                        line,
                        self.floats@,
                        max_width,
                        ch,
                        self.cur_width,
                    ) == target,
                decreases line.end - j,
            {
                let ghost sv = self.new_boxes@;
                let ghost nb_pre = boxes_view(self.new_boxes@);
                let ghost cw_pre = self.cur_width;
                proof {
                    lemma_boxes_view(self.new_boxes@);
                }
                let mut bx = self.new_boxes.remove(j);
                let ta = match &bx.style {
                    Some(s) => s.text_align,
                    None => TextAlign::Left,
                };
                let align = match ta {
                    TextAlign::Left => 0,
                    TextAlign::Center => au_half(au_sub(max_width, line.width)),
                    TextAlign::Right => au_sub(max_width, line.width),
                };
                let band = self.floats.available_area(max_width, self.cur_height);
                let init = au_add(align, band.x);
                let x = au_add(
                    au_add(
                        au_add(au_add(init, self.cur_width), bx.dimensions.padding.left),
                        bx.dimensions.border.left,
                    ),
                    bx.dimensions.margin.left,
                );
                let y = au_sub(
                    au_add(
                        self.cur_height,
                        au_sub(line.metrics.above_baseline, bx.dimensions.content.height),
                    ),
                    au_add(
                        au_add(bx.dimensions.padding.top, bx.dimensions.margin.top),
                        bx.dimensions.border.top,
                    ),
                );
                bx.dimensions.content.x = x;
                bx.dimensions.content.y = y;
                let mbw = bx.dimensions.margin_box().width;
                let ghost bxv = bx;
                self.new_boxes.insert(j, bx);
                self.cur_width = au_add(self.cur_width, mbw);
                proof {
                    assert(self.new_boxes@ =~= sv.update(j as int, bxv));
                    lemma_boxes_view_update(sv, j as int, bxv);
                    let b2 = assign_box_spec(nb_pre[j as int], self.floats@, max_width, line, ch, cw_pre);
                    assert(box_view(bxv) =~= b2);
                    assert(boxes_view(self.new_boxes@) =~= nb_pre.update(j as int, b2));
                }
                j = j + 1;
            }
            let lh = line.metrics.calculate_line_height();
            self.cur_height = au_add(self.cur_height, lh);
            k = k + 1;
        }
        proof {
            assert(self@ =~= lm_assign_spec(old(self)@, max_width));
        }
    }

    /// Splits the pending range of the text box `bx` across lines, as
    /// `lm_text_spec` states.
    fn process_text(&mut self, bx: &LayoutBox, max_width: Au)
        requires
            bx@.box_type is TextNode,
            bx@.style is Some,
            (match bx@.box_type {
                BoxTypeV::TextNode(t) => old(self)@.pending.end <= t.content.len(),
                _ => false,
            }),
            lm_wf(old(self)@),
        ensures
            final(self)@ == lm_text_spec(old(self)@, bx@, max_width),
            final(self).work@ == old(self).work@,
            lm_wf(final(self)@),
        decreases bsize(bx@), 0int, text_measure(self@),
    {
        if self.pending.start >= self.pending.end {
            return ;
        }
        let t = match &bx.box_type {
            BoxType::TextNode(t) => t,
            _ => unreached(),
        };
        let s = *bx.get_style_node();
        let font = s.font;
        let band = self.floats.available_area(max_width, self.cur_height);
        let avail = band.width;
        let w_full = font.text_width(&t.content, self.pending.start, self.pending.end);
        let above = au_max(self.cur_metrics.above_baseline, font.above_baseline());
        let under = au_max(self.cur_metrics.under_baseline, font.half_leading());
        self.cur_metrics = LineMetrics { above_baseline: above, under_baseline: under };
        if au_add(self.cur_width, w_full) <= avail {
            let emitted = LayoutBox {
                dimensions: Dimensions {
                    content: Rect {
                        width: w_full,
                        height: font.size,
                        ..bx.dimensions.content
                    },
                    ..bx.dimensions
                },
                z_index: bx.z_index,
                box_type: BoxType::TextNode(
                    Text {
                        font,
                        start: self.pending.start,
                        end: self.pending.end,
                        content: clone_chars(&t.content),
                    },
                ),
                info: bx.info,
                style: bx.style,
                children: Vec::new(),
            };
            let ghost ev = emitted;
            let ghost nb_pre = self.new_boxes@;
            self.new_boxes.push(emitted);
            let n = self.new_boxes.len();
            proof {
                lemma_boxes_view(nb_pre);
                assert(self.end < n);
            }
            self.end = self.end + 1;
            self.cur_width = au_add(self.cur_width, w_full);
            self.pending.start = 0;
            self.pending.end = 0;
            proof {
                lemma_boxes_view_push(nb_pre, ev);
                assert(box_view(ev) =~= emitted_text_box(
                    bx@,
                    (match bx@.box_type {
                        BoxTypeV::TextNode(tv) => tv,
                        _ => arbitrary(),
                    }),
                    font,
                    old(self)@.pending.start,
                    old(self)@.pending.end,
                    w_full,
                ));
                assert(self@ =~= lm_text_spec(old(self)@, bx@, max_width));
            }
        } else {
            let rem = au_sub(avail, self.cur_width);
            let mc0 = font.compute_max_chars(&t.content, self.pending.start, self.pending.end, rem);
            let mc = if mc0 == 0 && self.cur_width == 0 {
                1
            } else {
                mc0
            };
            let cut = self.pending.start + mc;
            let w_pre = font.text_width(&t.content, self.pending.start, cut);
            let emitted = LayoutBox {
                dimensions: Dimensions {
                    content: Rect {
                        width: w_pre,
                        height: font.size,
                        ..bx.dimensions.content
                    },
                    ..bx.dimensions
                },
                z_index: bx.z_index,
                box_type: BoxType::TextNode(
                    Text {
                        font,
                        start: self.pending.start,
                        end: cut,
                        content: clone_chars(&t.content),
                    },
                ),
                info: bx.info,
                style: bx.style,
                children: Vec::new(),
            };
            let ghost ev = emitted;
            let ghost nb_pre = self.new_boxes@;
            self.new_boxes.push(emitted);
            let n = self.new_boxes.len();
            proof {
                lemma_boxes_view(nb_pre);
                assert(self.end < n);
            }
            self.end = self.end + 1;
            self.pending.start = cut;
            let ghost lm_a_exec = self@;
            proof {
                lemma_boxes_view_push(nb_pre, ev);
                assert(box_view(ev) =~= emitted_text_box(
                    bx@,
                    (match bx@.box_type {
                        BoxTypeV::TextNode(tv) => tv,
                        _ => arbitrary(),
                    }),
                    font,
                    old(self)@.pending.start,
                    cut,
                    w_pre,
                ));
            }
            self.flush_cur_line();
            let ghost lm_flushed = self@;
            self.process_text(bx, max_width);
            proof {
                assert(lm_a_exec =~= text_split_prefix_state(old(self)@, bx@, max_width));
                assert(self@ == lm_text_spec(lm_flushed, bx@, max_width));
                assert(self@ == lm_text_spec(old(self)@, bx@, max_width));
            }
        }
    }
    /// Places one atomic inline-block box, as `lm_iblock_spec` states.
    fn run_on_inline_block_node(&mut self, bx: &LayoutBox, max_width: Au)
        requires
            wf_box(bx@),
            bx@.box_type is InlineBlockNode,
            lm_wf(old(self)@),
        ensures
            final(self)@ == lm_iblock_spec(old(self)@, bx@, max_width),
            final(self).work@ == old(self).work@,
            lm_wf(final(self)@),
        decreases bsize(bx@), 1int, 0int,
    {
        let mut cb = Dimensions::default();
        cb.content.width = au_sub(max_width, self.cur_width);
        let laid = crate::layout::layout_box(bx, &mut self.floats, cb);
        let ghost laidv = laid;
        let bw = laid.dimensions.margin_box().width;
        let bh = laid.dimensions.margin_box().height;
        if au_add(self.cur_width, bw) > max_width {
            proof {
                lemma_lm_wf_carry(old(self)@, self@);
            }
            self.flush_cur_line();
            let ghost nb_pre = self.new_boxes@;
            self.new_boxes.push(laid);
            let n = self.new_boxes.len();
            proof {
                lemma_boxes_view(nb_pre);
                assert(self.end < n);
            }
            self.end = self.end + 1;
            self.cur_width = bw;
            self.cur_metrics.above_baseline = au_max(self.cur_metrics.above_baseline, bh);
            proof {
                lemma_boxes_view_push(nb_pre, laidv);
                assert(self@ =~= lm_iblock_spec(old(self)@, bx@, max_width));
            }
        } else {
            let ghost nb_pre = self.new_boxes@;
            self.new_boxes.push(laid);
            let n = self.new_boxes.len();
            proof {
                lemma_boxes_view(nb_pre);
                assert(self.end < n);
            }
            self.end = self.end + 1;
            self.cur_width = au_add(self.cur_width, bw);
            self.cur_metrics.above_baseline = au_max(self.cur_metrics.above_baseline, bh);
            proof {
                lemma_boxes_view_push(nb_pre, laidv);
                assert(self@ =~= lm_iblock_spec(old(self)@, bx@, max_width));
            }
        }
    }

    /// Places one inline box, as `lm_inline_spec` states: atomically when
    /// it is replaced content, else by re-flowing its children and
    /// wrapping every emitted fragment.
    fn run_on_inline_node(&mut self, bx: &LayoutBox, max_width: Au)
        requires
            wf_box(bx@),
            bx@.box_type is InlineNode,
            lm_wf(old(self)@),
        ensures
            final(self)@ == lm_inline_spec(old(self)@, bx@, max_width),
            final(self).work@ == old(self).work@,
            lm_wf(final(self)@),
        decreases bsize(bx@), 1int, 0int,
    {
        let replaced = match &bx.info {
            LayoutInfo::Image(_) => true,
            _ => false,
        };
        if replaced {
            let (w, h) = match &bx.info {
                LayoutInfo::Image(Some(m)) => (m.width, m.height),
                _ => (0, 0),
            };
            let emitted = LayoutBox {
                dimensions: Dimensions {
                    content: Rect { width: w, height: h, ..bx.dimensions.content },
                    ..bx.dimensions
                },
                z_index: bx.z_index,
                box_type: BoxType::InlineNode,
                info: bx.info,
                style: bx.style,
                children: Vec::new(),
            };
            let ghost ev = emitted;
            if au_add(self.cur_width, w) > max_width {
                self.flush_cur_line();
                let ghost nb_pre = self.new_boxes@;
                self.new_boxes.push(emitted);
                let n = self.new_boxes.len();
                proof {
                    lemma_boxes_view(nb_pre);
                    assert(self.end < n);
                }
                self.end = self.end + 1;
                self.cur_width = w;
                self.cur_metrics.above_baseline = au_max(self.cur_metrics.above_baseline, h);
                proof {
                    lemma_boxes_view_push(nb_pre, ev);
                    assert(self@ =~= lm_inline_spec(old(self)@, bx@, max_width));
                }
            } else {
                let ghost nb_pre = self.new_boxes@;
                self.new_boxes.push(emitted);
                let n = self.new_boxes.len();
                proof {
                    lemma_boxes_view(nb_pre);
                    assert(self.end < n);
                }
                self.end = self.end + 1;
                self.cur_width = au_add(self.cur_width, w);
                self.cur_metrics.above_baseline = au_max(self.cur_metrics.above_baseline, h);
                proof {
                    lemma_boxes_view_push(nb_pre, ev);
                    assert(self@ =~= lm_inline_spec(old(self)@, bx@, max_width));
                }
            }
        } else {
            let s = *bx.get_style_node();
            let pl_bl = au_add(s.padding.left, s.border.left);
            let pr_br = au_add(s.padding.right, s.border.right);
            let start0 = self.end;
            self.cur_width = au_add(self.cur_width, pl_bl);
            proof {
                lemma_boxes_view(bx.children@);
                assert(boxes_view(bx.children@).subrange(0, bx.children@.len() as int)
                    =~= boxes_view(bx.children@));
                lemma_lm_wf_carry(old(self)@, self@);
            }
            self.run_list(&bx.children, 0, au_sub(max_width, pr_br));
            let ghost after_run = self@;
            self.cur_width = au_add(self.cur_width, pr_br);
            let end0 = self.end;
            let ghost lm3v = self@;
            proof {
                lemma_lm_wf_carry(after_run, lm3v);
            }
            let mut j: usize = start0;
            while j < end0
                invariant
                    start0 <= j <= end0 || (j == start0 && end0 < start0),
                    end0 <= boxes_view(self.new_boxes@).len(),
                    boxes_view(self.new_boxes@).len() == lm3v.new_boxes.len(),
                    self.pending == lm3v.pending,
                    self.floats@ == lm3v.floats,
                    self.lines@ == lm3v.lines,
                    self.start == lm3v.start,
                    self.end == lm3v.end,
                    self.cur_width == lm3v.cur_width,
                    self.cur_height == lm3v.cur_height,
                    self.cur_metrics == lm3v.cur_metrics,
                    self.work@ == old(self).work@,
                    end0 == lm3v.end,
                    lm_wf(lm3v),
                    bx@.box_type is InlineNode,
                    bx@.style is Some,
                    s == bx@.style.unwrap(),
                    wrap_frags_spec(
                        boxes_view(self.new_boxes@),
                        start0 as int,
                        end0 as int,
                        j as int,
                        bx@,
                        s,
                    ) == wrap_frags_spec(
                        lm3v.new_boxes,
                        start0 as int,
                        end0 as int,
                        start0 as int,
                        bx@,
                        s,
                    ),
                decreases end0 - j,
            {
                let ghost sv = self.new_boxes@;
                proof {
                    lemma_boxes_view(sv);
                }
                let inner = self.new_boxes.remove(j);
                let many = end0 - start0 > 1;
                let pad = EdgeSizes {
                    left: if many && j > start0 {
                        0
                    } else {
                        s.padding.left
                    },
                    right: if many && j + 1 < end0 {
                        0
                    } else {
                        s.padding.right
                    },
                    top: s.padding.top,
                    bottom: s.padding.bottom,
                };
                let bor = EdgeSizes {
                    left: if many && j > start0 {
                        0
                    } else {
                        s.border.left
                    },
                    right: if many && j + 1 < end0 {
                        0
                    } else {
                        s.border.right
                    },
                    top: s.border.top,
                    bottom: s.border.bottom,
                };
                let dims = Dimensions {
                    content: Rect {
                        x: bx.dimensions.content.x,
                        y: bx.dimensions.content.y,
                        width: inner.dimensions.content.width,
                        height: inner.dimensions.content.height,
                    },
                    padding: pad,
                    border: bor,
                    margin: bx.dimensions.margin,
                };
                let ghost iv = inner;
                let mut frag_kids: Vec<LayoutBox> = Vec::new();
                frag_kids.push(inner);
                let frag = LayoutBox {
                    dimensions: dims,
                    z_index: bx.z_index,
                    box_type: BoxType::InlineNode,
                    info: bx.info,
                    style: bx.style,
                    children: frag_kids,
                };
                let ghost fv = frag;
                self.new_boxes.insert(j, frag);
                proof {
                    assert(self.new_boxes@ =~= sv.update(j as int, fv));
                    lemma_boxes_view_update(sv, j as int, fv);
                    lemma_boxes_view_push(Seq::<LayoutBox>::empty(), iv);
                    assert(fv.children@ =~= Seq::<LayoutBox>::empty().push(iv));
                    assert(boxes_view(fv.children@) =~= seq![box_view(iv)]);
                    assert(box_view(fv) =~= frag_spec(
                        boxes_view(sv)[j as int],
                        bx@,
                        s,
                        many && j > start0,
                        many && j + 1 < end0,
                    ));
                }
                j = j + 1;
            }
            proof {
                assert(self@ =~= lm_inline_spec(old(self)@, bx@, max_width));
            }
        }
    }

    /// Processes the input boxes from index `i` on, as `lm_run_spec`
    /// states over the remaining suffix.
    pub(crate) fn run_list(&mut self, boxes: &Vec<LayoutBox>, i: usize, max_width: Au)
        requires
            i <= boxes@.len(),
            wf_inline_children(
                boxes_view(boxes@).subrange(i as int, boxes@.len() as int),
            ),
            lm_wf(old(self)@),
        ensures
            final(self)@ == lm_run_spec(
                old(self)@,
                boxes_view(boxes@).subrange(i as int, boxes@.len() as int),
                max_width,
            ),
            final(self).work@ == old(self).work@,
            lm_wf(final(self)@),
        decreases bseq_size(boxes_view(boxes@).subrange(i as int, boxes@.len() as int)),
            2int,
            0int,
    {
        proof {
            lemma_boxes_view(boxes@);
        }
        let ghost suf = boxes_view(boxes@).subrange(i as int, boxes@.len() as int);
        if i == boxes.len() {
            proof {
                assert(suf.len() == 0);
            }
            return ;
        }
        let bx = &boxes[i];
        proof {
            assert(suf[0] == box_view(boxes@[i as int]));
            lemma_bseq_size_suffix(boxes_view(boxes@), i as int);
            assert(suf.drop_first() =~= boxes_view(boxes@).subrange(
                i + 1,
                boxes@.len() as int,
            ));
            assert(wf_box(suf[0]));
            assert(bsize(suf[0]) >= 1);
        }
        let band = self.floats.available_area(max_width, self.cur_height);
        match &bx.box_type {
            BoxType::TextNode(t) => {
                self.pending.start = t.start;
                self.pending.end = t.end;
                proof {
                    lemma_lm_wf_carry(old(self)@, self@);
                }
                self.process_text(bx, max_width);
            },
            BoxType::InlineBlockNode => {
                self.run_on_inline_block_node(bx, band.width);
            },
            BoxType::InlineNode => {
                self.run_on_inline_node(bx, band.width);
            },
            _ => {
                proof {
                    assert(false);
                }
            },
        }
        self.run_list(boxes, i + 1, max_width);
        proof {
            assert(self@ == lm_run_spec(old(self)@, suf, max_width));
        }
    }

    /// Processes the whole input queue against the given line width; the
    /// queue is consumed.
    pub fn run(&mut self, max_width: Au)
        requires
            wf_inline_children(boxes_view(old(self).work@)),
            lm_wf(old(self)@),
        ensures
            final(self)@ == lm_run_spec(old(self)@, boxes_view(old(self).work@), max_width),
            final(self).work@.len() == 0,
            lm_wf(final(self)@),
    {
        let mut boxes: Vec<LayoutBox> = Vec::new();
        core::mem::swap(&mut boxes, &mut self.work);
        proof {
            lemma_boxes_view(boxes@);
            assert(boxes_view(boxes@).subrange(0, boxes@.len() as int) =~= boxes_view(boxes@));
        }
        self.run_list(&boxes, 0, max_width);
    }
}

/// The intermediate state of a split step, before the flush: the emitted
/// prefix pushed, the current line extended over it, and the pending
/// cursor advanced past the cut.
pub open spec fn text_split_prefix_state(lm: LmV, b: BoxV, mw: Au) -> LmV {
    match b.box_type {
        BoxTypeV::TextNode(t) => {
            let s = b.style.unwrap();
            let font = s.font;
            let band = available_area_spec(lm.floats, mw, lm.cur_height);
            let rem = sat64(band.width - lm.cur_width);
            let mc0 = max_chars_spec(
                font,
                t.content.subrange(lm.pending.start as int, lm.pending.end as int),
                rem,
            );
            let mc = if mc0 == 0 && lm.cur_width == 0 {
                1nat
            } else {
                mc0
            };
            let w_pre = width_of_units(font, mc);
            let cut = ((lm.pending.start + mc) as usize);
            let emitted = emitted_text_box(b, t, font, lm.pending.start, cut, w_pre);
            LmV {
                new_boxes: lm.new_boxes.push(emitted),
                end: ((lm.end + 1) as usize),
                cur_metrics: join_text_metrics(lm.cur_metrics, font),
                pending: Line { start: cut, end: lm.pending.end, ..lm.pending },
                ..lm
            }
        },
        _ => lm,
    }
}

/// A run of pending text that does not fit what is left of the free band
/// is split, never dropped: exactly one text box for the prefix up to the
/// cut joins the line, that line is committed, and the remaining units
/// become the pending text the next line starts from, with the width and
/// metric accumulators cleared.
pub proof fn lemma_text_split_requeues_remainder(lm: LmV, b: BoxV, mw: Au)
    requires
        b.box_type is TextNode,
        b.style is Some,
        lm.pending.start < lm.pending.end,
        (match b.box_type {
            BoxTypeV::TextNode(t) => lm.pending.end <= t.content.len(),
            _ => false,
        }),
        ({
            let font = b.style.unwrap().font;
            let avail = available_area_spec(lm.floats, mw, lm.cur_height).width;
            sat64(
                lm.cur_width + width_of_units(
                    font,
                    (lm.pending.end - lm.pending.start) as nat,
                ),
            ) > avail
        }),
    ensures
        ({
            let t = match b.box_type {
                BoxTypeV::TextNode(t0) => t0,
                _ => arbitrary(),
            };
            let font = b.style.unwrap().font;
            let avail = available_area_spec(lm.floats, mw, lm.cur_height).width;
            let rem = sat64(avail - lm.cur_width);
            let mc0 = max_chars_spec(
                font,
                t.content.subrange(lm.pending.start as int, lm.pending.end as int),
                rem,
            );
            let mc = if mc0 == 0 && lm.cur_width == 0 {
                1nat
            } else {
                mc0
            };
            let cut = ((lm.pending.start + mc) as usize);
            let mid = lm_flush_spec(text_split_prefix_state(lm, b, mw));
            &&& mid.new_boxes == lm.new_boxes.push(
                emitted_text_box(b, t, font, lm.pending.start, cut, width_of_units(font, mc)),
            )
            &&& mid.lines.len() == lm.lines.len() + 1
            &&& mid.lines.last().start == lm.start
            &&& mid.lines.last().end == ((lm.end + 1) as usize)
            &&& mid.pending.start == cut
            &&& mid.pending.end == lm.pending.end
            &&& mid.cur_width == 0
            &&& mid.cur_metrics == metrics_zero()
            &&& lm_text_spec(lm, b, mw) == lm_text_spec(mid, b, mw)
        }),
{
}

proof fn lemma_wrap_frags_shape(
    nb: Seq<BoxV>,
    start0: int,
    end0: int,
    j: int,
    b: BoxV,
    s: StyleData,
)
    requires
        0 <= start0 <= j <= end0 <= nb.len(),
    ensures
        ({
            let r = wrap_frags_spec(nb, start0, end0, j, b, s);
            &&& r.len() == nb.len()
            &&& forall|k: int| 0 <= k < nb.len() && !(j <= k < end0) ==> r[k] == nb[k]
            &&& forall|k: int| j <= k < end0 ==> r[k] == frag_spec(
                nb[k],
                b,
                s,
                end0 - start0 > 1 && k > start0,
                end0 - start0 > 1 && k < end0 - 1,
            )
        }),
    decreases end0 - j,
{
    if j < end0 {
        let many = end0 - start0 > 1;
        let f2 = frag_spec(nb[j], b, s, many && j > start0, many && j < end0 - 1);
        lemma_wrap_frags_shape(nb.update(j, f2), start0, end0, j + 1, b, s);
    }
}

/// A split inline box keeps its outer edges only on its outermost
/// fragments: over a run of two or more fragments, the wrap pass leaves
/// the first with its left padding and border but zeroed right ones, the
/// last with its right padding and border but zeroed left ones, and any
/// middle fragments with neither; every fragment wraps exactly its inner
/// box, and boxes outside the run are untouched.
pub proof fn lemma_fragment_edges(nb: Seq<BoxV>, start0: int, end0: int, b: BoxV, s: StyleData)
    requires
        0 <= start0,
        start0 + 2 <= end0 <= nb.len(),
    ensures
        ({
            let r = wrap_frags_spec(nb, start0, end0, start0, b, s);
            &&& r.len() == nb.len()
            &&& forall|k: int| 0 <= k < nb.len() && !(start0 <= k < end0) ==> r[k] == nb[k]
            &&& r[start0].dimensions.padding.left == s.padding.left
            &&& r[start0].dimensions.padding.right == 0
            &&& r[start0].dimensions.border.left == s.border.left
            &&& r[start0].dimensions.border.right == 0
            &&& r[end0 - 1].dimensions.padding.left == 0
            &&& r[end0 - 1].dimensions.padding.right == s.padding.right
            &&& r[end0 - 1].dimensions.border.left == 0
            &&& r[end0 - 1].dimensions.border.right == s.border.right
            &&& forall|k: int| start0 < k < end0 - 1 ==> {
                &&& (#[trigger] r[k]).dimensions.padding.left == 0
                &&& r[k].dimensions.padding.right == 0
                &&& r[k].dimensions.border.left == 0
                &&& r[k].dimensions.border.right == 0
            }
            &&& forall|k: int| start0 <= k < end0 ==> (#[trigger] r[k]).children == seq![nb[k]]
        }),
{
    lemma_wrap_frags_shape(nb, start0, end0, start0, b, s);
}

} // verus!
