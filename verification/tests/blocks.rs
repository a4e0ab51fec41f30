use naglfar::floats::Floats;
use naglfar::geometry::{Dimensions, EdgeSizes, Rect};
use naglfar::layout::{layout_tree, resolve_block_width, BoxType, LayoutBox, LayoutInfo};
use naglfar::style::{AutoLen, Display, FloatType, LayoutType, NodeKind, StyleData, StyledNode};

fn containing(width: i64) -> Dimensions {
    let mut d = Dimensions::default();
    d.content.width = width;
    d
}

fn block(style: StyleData, children: Vec<StyledNode>) -> StyledNode {
    StyledNode {
        display: Display::Block,
        layout_type: LayoutType::Generic,
        kind: NodeKind::Element,
        style,
        children,
    }
}

#[test]
fn auto_width_auto_margins_take_full_width() {
    // Containing width 200, width and both margins auto, no border or
    // padding: the width absorbs everything, the margins collapse to zero.
    let mut s = StyleData::new_default();
    s.width = AutoLen::Auto;
    s.margin_left = AutoLen::Auto;
    s.margin_right = AutoLen::Auto;
    let r = resolve_block_width(&s, 200);
    assert_eq!(r.width, 200);
    assert_eq!(r.margin_left, 0);
    assert_eq!(r.margin_right, 0);

    let root = block(s, vec![]);
    assert!(root.is_well_formed());
    let laid = layout_tree(&root, containing(200)).unwrap();
    assert_eq!(laid.dimensions.content.width, 200);
    assert_eq!(laid.dimensions.margin.left, 0);
    assert_eq!(laid.dimensions.margin.right, 0);
}

#[test]
fn split_auto_margins_center_the_box() {
    // Containing width 200, width 100, both margins auto: each margin takes
    // 50, and the content starts 50 units after the containing origin.
    let mut s = StyleData::new_default();
    s.width = AutoLen::Len(100);
    s.margin_left = AutoLen::Auto;
    s.margin_right = AutoLen::Auto;
    let r = resolve_block_width(&s, 200);
    assert_eq!(r.width, 100);
    assert_eq!(r.margin_left, 50);
    assert_eq!(r.margin_right, 50);

    let root = block(s, vec![]);
    let laid = layout_tree(&root, containing(200)).unwrap();
    assert_eq!(laid.dimensions.margin.left, 50);
    assert_eq!(laid.dimensions.margin.right, 50);
    assert_eq!(laid.dimensions.content.x, 50);
}

#[test]
fn single_auto_margin_absorbs_underflow() {
    let mut s = StyleData::new_default();
    s.width = AutoLen::Len(120);
    s.margin_left = AutoLen::Auto;
    s.margin_right = AutoLen::Len(10);
    let r = resolve_block_width(&s, 200);
    assert_eq!((r.width, r.margin_left, r.margin_right), (120, 70, 10));
}

#[test]
fn overconstrained_box_pushes_overflow_into_right_margin() {
    // Nothing auto and too wide: the right margin absorbs the deficit,
    // added to its styled value.
    let mut s = StyleData::new_default();
    s.width = AutoLen::Len(180);
    s.margin_left = AutoLen::Len(30);
    s.margin_right = AutoLen::Len(20);
    let r = resolve_block_width(&s, 200);
    assert_eq!((r.width, r.margin_left, r.margin_right), (180, 30, -10));
}

#[test]
fn overflowing_fixed_width_forces_auto_margins_to_zero() {
    let mut s = StyleData::new_default();
    s.width = AutoLen::Len(260);
    s.margin_left = AutoLen::Auto;
    s.margin_right = AutoLen::Auto;
    let r = resolve_block_width(&s, 200);
    assert_eq!((r.width, r.margin_left, r.margin_right), (260, 0, -60));
}

#[test]
fn auto_width_with_negative_underflow_collapses_to_zero() {
    let mut s = StyleData::new_default();
    s.width = AutoLen::Auto;
    s.margin_left = AutoLen::Len(150);
    s.margin_right = AutoLen::Len(100);
    let r = resolve_block_width(&s, 200);
    assert_eq!((r.width, r.margin_left, r.margin_right), (0, 150, 50));
}

#[test]
fn children_stack_vertically() {
    let mut c1 = StyleData::new_default();
    c1.height = AutoLen::Len(10);
    let mut c2 = StyleData::new_default();
    c2.height = AutoLen::Len(20);
    let root = block(StyleData::new_default(), vec![block(c1, vec![]), block(c2, vec![])]);
    assert!(root.is_well_formed());
    let laid = layout_tree(&root, containing(100)).unwrap();
    assert_eq!(laid.children.len(), 2);
    assert_eq!(laid.children[0].dimensions.content.y, 0);
    assert_eq!(laid.children[0].dimensions.content.height, 10);
    assert_eq!(laid.children[1].dimensions.content.y, 10);
    // Auto height accumulates the children's margin-box heights.
    assert_eq!(laid.dimensions.content.height, 30);
}

#[test]
fn explicit_height_wins() {
    let mut c1 = StyleData::new_default();
    c1.height = AutoLen::Len(10);
    let mut rs = StyleData::new_default();
    rs.height = AutoLen::Len(77);
    let root = block(rs, vec![block(c1, vec![])]);
    let laid = layout_tree(&root, containing(100)).unwrap();
    assert_eq!(laid.dimensions.content.height, 77);
}

#[test]
fn float_child_is_excluded_from_height() {
    let mut fs = StyleData::new_default();
    fs.float = FloatType::Left;
    fs.width = AutoLen::Len(30);
    fs.height = AutoLen::Len(50);
    let mut bs = StyleData::new_default();
    bs.height = AutoLen::Len(10);
    let root = block(StyleData::new_default(), vec![block(fs, vec![]), block(bs, vec![])]);
    assert!(root.is_well_formed());
    let laid = layout_tree(&root, containing(100)).unwrap();
    // The float adds nothing to the normal-flow height.
    assert_eq!(laid.dimensions.content.height, 10);
    assert!(matches!(laid.children[0].box_type, BoxType::Float));
    assert_eq!(laid.children[0].dimensions.content.width, 30);
    assert_eq!(laid.children[0].dimensions.content.x, 0);
    assert_eq!(laid.children[0].dimensions.content.height, 50);
}

#[test]
fn right_float_sits_at_the_right_edge() {
    let mut fs = StyleData::new_default();
    fs.float = FloatType::Right;
    fs.width = AutoLen::Len(30);
    fs.height = AutoLen::Len(50);
    let root = block(StyleData::new_default(), vec![block(fs, vec![])]);
    let laid = layout_tree(&root, containing(100)).unwrap();
    assert_eq!(laid.children[0].dimensions.content.x, 70);
}

#[test]
fn edges_come_from_style() {
    let mut s = StyleData::new_default();
    s.width = AutoLen::Len(50);
    s.padding = EdgeSizes { left: 1, right: 2, top: 3, bottom: 4 };
    s.border = EdgeSizes { left: 5, right: 6, top: 7, bottom: 8 };
    s.margin_left = AutoLen::Len(9);
    s.margin_top = 11;
    let root = block(s, vec![]);
    let laid = layout_tree(&root, containing(200)).unwrap();
    assert_eq!(laid.dimensions.padding.left, 1);
    assert_eq!(laid.dimensions.border.right, 6);
    assert_eq!(laid.dimensions.margin.left, 9);
    // Content origin is pushed in by margin, border and padding.
    assert_eq!(laid.dimensions.content.x, 9 + 5 + 1);
    assert_eq!(laid.dimensions.content.y, 11 + 7 + 3);
}

#[test]
fn assign_helpers_copy_the_styled_edges() {
    let mut s = StyleData::new_default();
    s.padding = EdgeSizes { left: 1, right: 2, top: 3, bottom: 4 };
    s.border = EdgeSizes { left: 5, right: 6, top: 7, bottom: 8 };
    s.margin_left = AutoLen::Auto;
    s.margin_right = AutoLen::Len(9);
    s.margin_top = 10;
    s.margin_bottom = 11;
    let mut b = LayoutBox::new(BoxType::BlockNode, Some(s), LayoutInfo::Generic);
    b.assign_padding();
    b.assign_border_width();
    b.assign_margin();
    assert_eq!(b.dimensions.padding, EdgeSizes { left: 1, right: 2, top: 3, bottom: 4 });
    assert_eq!(b.dimensions.border, EdgeSizes { left: 5, right: 6, top: 7, bottom: 8 });
    // An auto margin copies as zero.
    assert_eq!(b.dimensions.margin, EdgeSizes { left: 0, right: 9, top: 10, bottom: 11 });
    assert!(b.in_normal_flow());
}

#[test]
fn manual_layout_matches_entry_point() {
    let mut s = StyleData::new_default();
    s.width = AutoLen::Len(100);
    let root = block(s, vec![]);
    let laid = layout_tree(&root, containing(200)).unwrap();

    let mut by_hand = LayoutBox::new(BoxType::BlockNode, Some(s), LayoutInfo::Generic);
    let mut fl = Floats::new();
    by_hand.layout(&mut fl, containing(200));
    assert_eq!(by_hand.dimensions, laid.dimensions);
    assert_eq!(by_hand.dimensions.content, Rect { x: 0, y: 0, width: 100, height: 0 });
}

#[test]
fn auto_width_float_fills_the_free_band() {
    // A fixed 50-wide left float is placed first; an auto-width float is
    // then constrained by it and takes exactly the 50 units left free.
    let mut f1 = StyleData::new_default();
    f1.float = FloatType::Left;
    f1.width = AutoLen::Len(50);
    f1.height = AutoLen::Len(30);
    let mut f2 = StyleData::new_default();
    f2.float = FloatType::Left;
    f2.width = AutoLen::Auto;
    f2.height = AutoLen::Len(30);
    let root = block(StyleData::new_default(), vec![block(f1, vec![]), block(f2, vec![])]);
    assert!(root.is_well_formed());
    let laid = layout_tree(&root, containing(100)).unwrap();
    assert_eq!(laid.children[1].dimensions.content.width, 50);
    assert_eq!(laid.children[1].dimensions.content.x, 50);
}

#[test]
fn auto_width_float_leaves_room_for_its_edges() {
    let mut fs = StyleData::new_default();
    fs.float = FloatType::Left;
    fs.width = AutoLen::Auto;
    fs.height = AutoLen::Len(30);
    fs.padding = EdgeSizes { left: 5, right: 5, top: 0, bottom: 0 };
    let root = block(StyleData::new_default(), vec![block(fs, vec![])]);
    let laid = layout_tree(&root, containing(100)).unwrap();
    // 100-unit band less 10 units of padding.
    assert_eq!(laid.children[0].dimensions.content.width, 90);
}
