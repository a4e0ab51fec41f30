use naglfar::floats::Floats;
use naglfar::font::{Font, FontSlant, FontWeight};
use naglfar::geometry::{EdgeSizes, Rect};
use naglfar::inline::{LineMaker, LineMetrics};
use naglfar::layout::{BoxType, ImageMetrics, LayoutBox, LayoutInfo, Text};
use naglfar::style::{FloatType, StyleData};

fn style_with_font(size: i64) -> StyleData {
    let mut s = StyleData::new_default();
    s.font = Font::new(size, FontWeight::Normal, FontSlant::Normal);
    s
}

fn text_box(text: &str, font_size: i64) -> LayoutBox {
    let content: Vec<char> = text.chars().collect();
    let end = content.len();
    LayoutBox::new(
        BoxType::TextNode(Text { font: Font::new_empty(), start: 0, end, content }),
        Some(style_with_font(font_size)),
        LayoutInfo::Text,
    )
}

fn text_range(b: &LayoutBox) -> (usize, usize) {
    match &b.box_type {
        BoxType::TextNode(t) => (t.start, t.end),
        _ => panic!("not a text box"),
    }
}

#[test]
fn metrics_basics() {
    let mut m = LineMetrics::new(22, 2);
    assert_eq!(m.calculate_line_height(), 24);
    m.reset();
    assert_eq!(m.calculate_line_height(), 0);
}

#[test]
fn line_breaks_at_whitespace() {
    // One text run measuring 150 units in a 100-unit line: the prefix up to
    // and including the space (cumulative width exactly 40) ends line one,
    // and the remainder is re-queued as the pending text of line two.
    let tb = text_box("abc defghijklmn", 20);
    let mut lm = LineMaker::new(vec![tb], Floats::new());
    lm.run(100);
    lm.end_of_lines();

    assert_eq!(lm.new_boxes.len(), 3);
    assert_eq!(text_range(&lm.new_boxes[0]), (0, 4));
    assert_eq!(lm.new_boxes[0].dimensions.content.width, 40);
    // The remainder starts right after the space.
    assert_eq!(text_range(&lm.new_boxes[1]).0, 4);
    assert_eq!(lm.lines.len(), 3);
    assert_eq!((lm.lines[0].start, lm.lines[0].end), (0, 1));
    assert_eq!(lm.lines[0].width, 40);
    // Text line metrics follow the half-leading rule for a 20-unit font.
    assert_eq!(lm.lines[0].metrics.above_baseline, 22);
    assert_eq!(lm.lines[0].metrics.under_baseline, 2);
}

#[test]
fn fitting_run_is_emitted_whole() {
    let tb = text_box("abcd", 20);
    let mut lm = LineMaker::new(vec![tb], Floats::new());
    lm.run(100);
    lm.end_of_lines();
    assert_eq!(lm.new_boxes.len(), 1);
    assert_eq!(text_range(&lm.new_boxes[0]), (0, 4));
    assert_eq!(lm.new_boxes[0].dimensions.content.width, 40);
    assert_eq!(lm.new_boxes[0].dimensions.content.height, 20);
    assert_eq!(lm.cur_height, 24);
}

#[test]
fn inline_box_fragmentation_keeps_outer_edges_only() {
    // An inline box with 10-unit left and right padding split across two
    // lines: the first fragment keeps only its left padding, the second
    // only its right padding.
    let mut span_style = style_with_font(20);
    span_style.padding = EdgeSizes { left: 10, right: 10, top: 0, bottom: 0 };
    let mut span = LayoutBox::new(BoxType::InlineNode, Some(span_style), LayoutInfo::Generic);
    span.children.push(text_box("abcdefghijkl", 20));

    let mut lm = LineMaker::new(vec![span], Floats::new());
    lm.run(100);
    lm.end_of_lines();

    assert_eq!(lm.new_boxes.len(), 2);
    let first = &lm.new_boxes[0];
    let second = &lm.new_boxes[1];
    assert!(matches!(first.box_type, BoxType::InlineNode));
    assert!(matches!(second.box_type, BoxType::InlineNode));
    assert_eq!(first.dimensions.padding.left, 10);
    assert_eq!(first.dimensions.padding.right, 0);
    assert_eq!(second.dimensions.padding.left, 0);
    assert_eq!(second.dimensions.padding.right, 10);
    // Each fragment wraps one emitted text fragment and takes its size.
    assert_eq!(first.children.len(), 1);
    assert_eq!(first.dimensions.content.width, 80);
    assert_eq!(second.dimensions.content.width, 40);
}

#[test]
fn unsplit_inline_box_keeps_both_edges() {
    let mut span_style = style_with_font(20);
    span_style.padding = EdgeSizes { left: 10, right: 10, top: 0, bottom: 0 };
    let mut span = LayoutBox::new(BoxType::InlineNode, Some(span_style), LayoutInfo::Generic);
    span.children.push(text_box("ab", 20));

    let mut lm = LineMaker::new(vec![span], Floats::new());
    lm.run(100);
    lm.end_of_lines();

    assert_eq!(lm.new_boxes.len(), 1);
    assert_eq!(lm.new_boxes[0].dimensions.padding.left, 10);
    assert_eq!(lm.new_boxes[0].dimensions.padding.right, 10);
}

#[test]
fn replaced_inline_is_atomic() {
    let mut s = style_with_font(20);
    s.image = Some(ImageMetrics { width: 60, height: 45 });
    let mut img = LayoutBox::new(BoxType::InlineNode, Some(s), LayoutInfo::Image(s.image));
    img.children = Vec::new();
    let tb = text_box("abcdefgh", 20);

    let mut lm = LineMaker::new(vec![tb, img], Floats::new());
    lm.run(100);
    lm.end_of_lines();

    // The 80-wide text fits the line; the 60-wide image does not fit the
    // remaining 20, so the line is flushed and the image opens line two.
    assert_eq!(lm.new_boxes.len(), 2);
    assert_eq!(lm.new_boxes[1].dimensions.content.width, 60);
    assert_eq!(lm.new_boxes[1].dimensions.content.height, 45);
    assert_eq!(lm.lines.len(), 2);
    assert_eq!((lm.lines[1].start, lm.lines[1].end), (1, 2));
}

#[test]
fn text_reflows_around_float() {
    // A left float 120 wide and 24 tall leaves an 80-unit band on the first
    // line; the full 200-unit band is free once the cursor passes it.
    let mut floats = Floats::new();
    floats.register(FloatType::Left, Rect { x: 0, y: 0, width: 120, height: 24 });
    let tb = text_box("aaaaaaaaaaaaaaaaaaaa", 20);
    let mut lm = LineMaker::new(vec![tb], Floats::new());
    lm.floats = floats;
    lm.run(200);
    lm.end_of_lines();

    // 20 units measure 200: 8 units fit the clipped band, the remaining 12
    // fit the full band below the float.
    assert_eq!(lm.new_boxes.len(), 2);
    assert_eq!(text_range(&lm.new_boxes[0]), (0, 8));
    assert_eq!(text_range(&lm.new_boxes[1]), (8, 20));
}

#[test]
fn atomic_content_fits_against_the_clipped_band() {
    // A left float leaves an 80-unit band; a 100-wide image cannot fit it
    // even on an empty line, so the empty line is flushed and the image
    // opens the next one.
    let mut floats = Floats::new();
    floats.register(FloatType::Left, Rect { x: 0, y: 0, width: 120, height: 24 });
    let mut s = style_with_font(20);
    s.image = Some(ImageMetrics { width: 100, height: 10 });
    let img = LayoutBox::new(BoxType::InlineNode, Some(s), LayoutInfo::Image(s.image));
    let mut lm = LineMaker::new(vec![img], Floats::new());
    lm.floats = floats;
    lm.run(200);
    lm.end_of_lines();

    assert_eq!(lm.new_boxes.len(), 1);
    assert_eq!(lm.lines.len(), 2);
    assert_eq!((lm.lines[0].start, lm.lines[0].end), (0, 0));
    assert_eq!((lm.lines[1].start, lm.lines[1].end), (0, 1));
    assert_eq!(lm.lines[1].metrics.above_baseline, 10);
}

#[test]
fn flush_clears_the_line_accumulators() {
    // Committing a line resets the width and metric accumulators: the
    // image flushed onto line two contributes only its own extent, not
    // the text metrics of line one.
    let tb = text_box("abcdefgh", 20);
    let mut s = style_with_font(20);
    s.image = Some(ImageMetrics { width: 30, height: 5 });
    let img = LayoutBox::new(BoxType::InlineNode, Some(s), LayoutInfo::Image(s.image));
    let mut lm = LineMaker::new(vec![tb, img], Floats::new());
    lm.run(100);
    lm.end_of_lines();

    assert_eq!(lm.lines.len(), 2);
    assert_eq!(lm.lines[0].metrics.above_baseline, 22);
    assert_eq!(lm.lines[0].metrics.under_baseline, 2);
    assert_eq!(lm.lines[1].metrics.above_baseline, 5);
    assert_eq!(lm.lines[1].metrics.under_baseline, 0);
}
