use terminal_display::Point;
use terminal_display::Rectangle;
use terminal_display::Size;

fn rect(x: i32, y: i32, w: u32, h: u32) -> Rectangle {
    Rectangle::new(Point::new(x, y), Size::new(w, h))
}

#[test]
fn intersection_of_overlapping_rectangles() {
    let a = rect(10, 10, 20, 30);
    let b = rect(25, 25, 30, 40);
    assert_eq!(a.intersection(&b), rect(25, 25, 5, 15));
    assert_eq!(b.intersection(&a), rect(25, 25, 5, 15));
}

#[test]
fn intersection_of_disjoint_rectangles_is_zero_sized() {
    let a = rect(10, 10, 20, 30);
    let b = rect(35, 35, 30, 40);
    assert!(a.intersection(&b).is_zero_sized());
}

#[test]
fn intersection_of_crossing_rectangles() {
    // Rectangles can overlap without either holding a corner of the other.
    let a = rect(50, 0, 75, 200);
    let b = rect(0, 75, 200, 50);
    assert_eq!(a.intersection(&b), rect(50, 75, 75, 50));
    assert_eq!(b.intersection(&a), rect(50, 75, 75, 50));
}

#[test]
fn intersection_with_contained_rectangle() {
    let outer = rect(5, 5, 26, 36);
    let inner = rect(10, 10, 11, 21);
    assert_eq!(outer.intersection(&inner), inner);
    assert_eq!(inner.intersection(&outer), inner);
}

#[test]
fn intersection_clamps_negative_coordinates() {
    let bounds = rect(0, 0, 4, 8);
    let area = rect(-2, -3, 5, 6);
    assert_eq!(bounds.intersection(&area), rect(0, 0, 3, 3));
}

#[test]
fn intersection_at_integer_extremes_does_not_wrap() {
    let a = rect(i32::MIN, i32::MIN, u32::MAX, u32::MAX);
    let b = rect(-1, -1, 4, 4);
    assert_eq!(a.intersection(&b), rect(-1, -1, 4, 4));

    let c = rect(i32::MAX - 1, i32::MAX - 1, u32::MAX, u32::MAX);
    assert!(b.intersection(&c).is_zero_sized());
    assert_eq!(c.intersection(&c), c);
}

#[test]
fn contains_respects_edges() {
    let r = rect(2, 3, 4, 5);
    assert!(r.contains(Point::new(2, 3)));
    assert!(r.contains(Point::new(5, 7)));
    assert!(!r.contains(Point::new(6, 7)));
    assert!(!r.contains(Point::new(5, 8)));
    assert!(!r.contains(Point::new(1, 3)));
    assert!(!rect(0, 0, 0, 5).contains(Point::new(0, 0)));
}
