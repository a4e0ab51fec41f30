use naglfar::geometry::Dimensions;
use naglfar::font::{Font, FontSlant, FontWeight};
use naglfar::layout::{layout_tree, BoxType, LayoutBox, LayoutInfo, Text};
use naglfar::style::{AutoLen, Display, FloatType, LayoutType, NodeKind, StyleData, StyledNode};

fn containing(width: i64) -> Dimensions {
    let mut d = Dimensions::default();
    d.content.width = width;
    d
}

fn style_with_font(size: i64) -> StyleData {
    let mut s = StyleData::new_default();
    s.font = Font::new(size, FontWeight::Normal, FontSlant::Normal);
    s
}

fn element(display: Display, style: StyleData, children: Vec<StyledNode>) -> StyledNode {
    StyledNode { display, layout_type: LayoutType::Generic, kind: NodeKind::Element, style, children }
}

fn text_node(text: &str, font_size: i64) -> StyledNode {
    StyledNode {
        display: Display::Inline,
        layout_type: LayoutType::Text,
        kind: NodeKind::Text(text.chars().collect()),
        style: style_with_font(font_size),
        children: vec![],
    }
}

fn button(style: StyleData) -> StyledNode {
    StyledNode {
        display: Display::InlineBlock,
        layout_type: LayoutType::Button,
        kind: NodeKind::Element,
        style,
        children: vec![],
    }
}

/// Structural equality of two laid-out trees, for the round-trip checks.
fn same_geometry(a: &LayoutBox, b: &LayoutBox) -> bool {
    if a.dimensions != b.dimensions || a.z_index != b.z_index {
        return false;
    }
    let kinds_match = match (&a.box_type, &b.box_type) {
        (BoxType::BlockNode, BoxType::BlockNode) => true,
        (BoxType::InlineNode, BoxType::InlineNode) => true,
        (BoxType::InlineBlockNode, BoxType::InlineBlockNode) => true,
        (BoxType::Float, BoxType::Float) => true,
        (BoxType::AnonymousBlock, BoxType::AnonymousBlock) => true,
        (BoxType::TextNode(x), BoxType::TextNode(y)) => {
            x.font == y.font && x.start == y.start && x.end == y.end && x.content == y.content
        },
        _ => false,
    };
    if !kinds_match || a.children.len() != b.children.len() {
        return false;
    }
    for (ca, cb) in a.children.iter().zip(b.children.iter()) {
        if !same_geometry(ca, cb) {
            return false;
        }
    }
    true
}

fn sample_document() -> StyledNode {
    let mut float_style = StyleData::new_default();
    float_style.float = FloatType::Left;
    float_style.width = AutoLen::Len(50);
    float_style.height = AutoLen::Len(30);
    let mut inner_block = StyleData::new_default();
    inner_block.height = AutoLen::Len(10);
    element(
        Display::Block,
        StyleData::new_default(),
        vec![
            element(Display::Block, float_style, vec![]),
            text_node("lorem ipsum dolor sit amet", 20),
            element(Display::Block, inner_block, vec![]),
            text_node("tail", 16),
        ],
    )
}

#[test]
fn layout_is_idempotent() {
    // The same styled tree against the same containing block gives
    // byte-identical positioned geometry, pass after pass.
    let doc = sample_document();
    assert!(doc.is_well_formed());
    let first = layout_tree(&doc, containing(200)).unwrap();
    let second = layout_tree(&doc, containing(200)).unwrap();
    assert!(same_geometry(&first, &second));
}

#[test]
fn hidden_root_produces_no_box() {
    let doc = element(Display::Hidden, StyleData::new_default(), vec![]);
    assert!(layout_tree(&doc, containing(200)).is_none());
}

#[test]
fn hidden_children_are_excluded() {
    let doc = element(
        Display::Block,
        StyleData::new_default(),
        vec![
            element(Display::Hidden, StyleData::new_default(), vec![]),
            element(Display::Block, StyleData::new_default(), vec![]),
        ],
    );
    let laid = layout_tree(&doc, containing(200)).unwrap();
    assert_eq!(laid.children.len(), 1);
}

#[test]
fn inline_runs_share_an_anonymous_block() {
    // Consecutive inline-level siblings share one anonymous block; a
    // block-level sibling forces the next run into a new one.
    let doc = element(
        Display::Block,
        StyleData::new_default(),
        vec![
            text_node("one", 20),
            text_node("two", 20),
            element(Display::Block, StyleData::new_default(), vec![]),
            text_node("three", 20),
        ],
    );
    let laid = layout_tree(&doc, containing(500)).unwrap();
    assert_eq!(laid.children.len(), 3);
    assert!(matches!(laid.children[0].box_type, BoxType::AnonymousBlock));
    // Both leading runs ended up on the same line of the same anonymous box.
    assert_eq!(laid.children[0].children.len(), 2);
    assert!(matches!(laid.children[1].box_type, BoxType::BlockNode));
    assert!(matches!(laid.children[2].box_type, BoxType::AnonymousBlock));
    assert_eq!(laid.children[2].children.len(), 1);
}

#[test]
fn interactive_elements_get_distinct_ids() {
    let doc = element(
        Display::Block,
        StyleData::new_default(),
        vec![button(StyleData::new_default()), button(StyleData::new_default())],
    );
    let laid = layout_tree(&doc, containing(200)).unwrap();
    let anon = &laid.children[0];
    assert_eq!(anon.children.len(), 2);
    assert!(matches!(anon.children[0].info, LayoutInfo::Button(0)));
    assert!(matches!(anon.children[1].info, LayoutInfo::Button(1)));
}

#[test]
fn z_index_carries_from_style() {
    let mut s = StyleData::new_default();
    s.z_index = 7;
    let doc = element(Display::Block, s, vec![]);
    let laid = layout_tree(&doc, containing(200)).unwrap();
    assert_eq!(laid.z_index, 7);
}

#[test]
fn well_formedness_rejects_block_inside_inline() {
    let doc = element(
        Display::Inline,
        StyleData::new_default(),
        vec![element(Display::Block, StyleData::new_default(), vec![])],
    );
    assert!(!doc.is_well_formed());
}

#[test]
fn well_formedness_rejects_negative_font_sizes() {
    let doc = element(Display::Block, style_with_font(-1), vec![]);
    assert!(!doc.is_well_formed());
}

#[test]
fn text_lines_stack_inside_anonymous_blocks() {
    // A 26-unit run at 10 units per unit in a 200-unit block: the run
    // splits at the spaces, and the anonymous block is as tall as its
    // lines.
    let doc = element(
        Display::Block,
        StyleData::new_default(),
        vec![text_node("lorem ipsum dolor sit amet", 20)],
    );
    let laid = layout_tree(&doc, containing(200)).unwrap();
    let anon = &laid.children[0];
    assert!(matches!(anon.box_type, BoxType::AnonymousBlock));
    assert!(anon.children.len() >= 2);
    // Every emitted fragment is a text box.
    for c in anon.children.iter() {
        assert!(matches!(c.box_type, BoxType::TextNode(_)));
    }
    // Lines are 24 units tall (20-unit font with the 1.2 factor).
    assert_eq!(anon.dimensions.content.height % 24, 0);
    assert!(anon.dimensions.content.height >= 48);
    // The block's auto height is the anonymous block's height.
    assert_eq!(laid.dimensions.content.height, anon.dimensions.content.height);
}

#[test]
fn set_text_info_rewrites_the_range() {
    let mut b = LayoutBox::new(
        BoxType::TextNode(Text { font: Font::new_empty(), start: 0, end: 4, content: "abcd".chars().collect() }),
        Some(style_with_font(20)),
        LayoutInfo::Text,
    );
    let f = Font::new(12, FontWeight::Bold, FontSlant::Italic);
    b.set_text_info(f, 1, 3);
    match &b.box_type {
        BoxType::TextNode(t) => {
            assert_eq!(t.font, f);
            assert_eq!((t.start, t.end), (1, 3));
            assert_eq!(t.content, "abcd".chars().collect::<Vec<char>>());
        },
        _ => panic!("expected a text box"),
    }
    // get_style_node hands the styled values back.
    assert_eq!(b.get_style_node().font.size, 20);
}
