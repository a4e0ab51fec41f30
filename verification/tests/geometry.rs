use naglfar::geometry::{au_add, au_half, au_max, au_min, au_sub, Dimensions, EdgeSizes, Rect};

fn edges(left: i64, right: i64, top: i64, bottom: i64) -> EdgeSizes {
    EdgeSizes { left, right, top, bottom }
}

#[test]
fn saturating_arithmetic() {
    assert_eq!(au_add(2, 3), 5);
    assert_eq!(au_add(i64::MAX, 1), i64::MAX);
    assert_eq!(au_add(i64::MIN, -1), i64::MIN);
    assert_eq!(au_sub(2, 5), -3);
    assert_eq!(au_sub(i64::MIN, 1), i64::MIN);
    assert_eq!(au_sub(i64::MAX, -1), i64::MAX);
    assert_eq!(au_max(4, 9), 9);
    assert_eq!(au_min(4, 9), 4);
    assert_eq!(au_half(7), 3);
    assert_eq!(au_half(-7), -3);
    assert_eq!(au_half(100), 50);
}

#[test]
fn expand_and_shrink() {
    let r = Rect { x: 10, y: 20, width: 100, height: 50 };
    let e = edges(1, 2, 3, 4);
    let big = r.expanded_by(e);
    assert_eq!(big, Rect { x: 9, y: 17, width: 103, height: 57 });
    assert_eq!(big.shrunk_by(e), r);
}

#[test]
fn edge_round_trip_concrete() {
    // Content -> padding box -> border box -> margin box, then shrinking by
    // margin, border and padding in reverse recovers the content exactly.
    let d = Dimensions {
        content: Rect { x: 5, y: 6, width: 70, height: 40 },
        padding: edges(1, 2, 3, 4),
        border: edges(5, 6, 7, 8),
        margin: edges(9, 10, 11, 12),
    };
    let m = d.margin_box();
    let back = m.shrunk_by(d.margin).shrunk_by(d.border).shrunk_by(d.padding);
    assert_eq!(back, d.content);
}

#[test]
fn derived_boxes() {
    let d = Dimensions {
        content: Rect { x: 0, y: 0, width: 100, height: 10 },
        padding: edges(5, 5, 5, 5),
        border: edges(1, 1, 1, 1),
        margin: edges(10, 10, 0, 0),
    };
    assert_eq!(d.padding_box(), Rect { x: -5, y: -5, width: 110, height: 20 });
    assert_eq!(d.border_box(), Rect { x: -6, y: -6, width: 112, height: 22 });
    assert_eq!(d.margin_box(), Rect { x: -16, y: -6, width: 132, height: 22 });
    assert_eq!(d.left_offset(), 16);
    assert_eq!(d.right_offset(), 16);
    assert_eq!(d.top_offset(), 6);
    assert_eq!(d.bottom_offset(), 6);
    let lr = d.left_right_offset();
    assert_eq!((lr.left, lr.right, lr.top, lr.bottom), (16, 16, 0, 0));
    let all = d.offset();
    assert_eq!((all.left, all.right, all.top, all.bottom), (16, 16, 6, 6));
}

#[test]
fn parent_coordinates() {
    let r = Rect { x: 1, y: 2, width: 3, height: 4 };
    assert_eq!(
        r.add_parent_coordinate(10, 20),
        Rect { x: 11, y: 22, width: 3, height: 4 }
    );
}
