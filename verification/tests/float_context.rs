use naglfar::floats::{Band, Floats};
use naglfar::geometry::Rect;
use naglfar::style::FloatType;

#[test]
fn float_clipped_band() {
    // A left float occupying {x: 0, y: 0, width: 50, height: 30} clips the
    // band at y = 10 to {x_offset: 50, width: 150}; below the float the
    // whole width is free again.
    let mut f = Floats::new();
    f.register(FloatType::Left, Rect { x: 0, y: 0, width: 50, height: 30 });
    assert_eq!(f.available_area(200, 10), Band { x: 50, width: 150 });
    assert_eq!(f.available_area(200, 40), Band { x: 0, width: 200 });
}

#[test]
fn band_edges_are_half_open() {
    let mut f = Floats::new();
    f.register(FloatType::Left, Rect { x: 0, y: 0, width: 50, height: 30 });
    // The float covers y = 0 up to, but not including, y = 30.
    assert_eq!(f.available_area(200, 0), Band { x: 50, width: 150 });
    assert_eq!(f.available_area(200, 29), Band { x: 50, width: 150 });
    assert_eq!(f.available_area(200, 30), Band { x: 0, width: 200 });
}

#[test]
fn both_sides_clip() {
    let mut f = Floats::new();
    f.register(FloatType::Left, Rect { x: 0, y: 0, width: 30, height: 100 });
    f.register(FloatType::Right, Rect { x: 150, y: 0, width: 50, height: 100 });
    assert_eq!(f.available_area(200, 50), Band { x: 30, width: 120 });
}

#[test]
fn widest_left_edge_wins() {
    // Floats are scanned, not assumed sorted: the rightmost edge of any
    // covering left float clips the band.
    let mut f = Floats::new();
    f.register(FloatType::Left, Rect { x: 40, y: 0, width: 20, height: 10 });
    f.register(FloatType::Left, Rect { x: 0, y: 0, width: 25, height: 10 });
    assert_eq!(f.available_area(100, 5), Band { x: 60, width: 40 });
}

#[test]
fn no_float_registered_under_no_float() {
    let mut f = Floats::new();
    f.register(FloatType::NoFloat, Rect { x: 0, y: 0, width: 50, height: 30 });
    assert_eq!(f.available_area(200, 10), Band { x: 0, width: 200 });
}

#[test]
fn clone_keeps_placements() {
    let mut f = Floats::new();
    f.register(FloatType::Left, Rect { x: 0, y: 0, width: 50, height: 30 });
    let g = f.clone();
    assert_eq!(g.available_area(200, 10), Band { x: 50, width: 150 });
}
