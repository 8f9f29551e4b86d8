use glyph_atlas::point::Point;
use glyph_atlas::rectangle::Rectangle;
use glyph_atlas::shape::{Coordinate, Within};
use glyph_atlas::size::Size;

#[test]
fn test_addition() {
    let p1 = Point { x: 10, y: 10 };
    let p2 = Point { x: 25, y: -20 };

    let result = p1 + p2;

    assert!(result.x == 10 + 25);
    assert!(result.y == 10 - 20);
}

#[test]
fn test_subtraction() {
    let p1 = Point { x: 10, y: 10 };
    let p2 = Point { x: 25, y: -20 };

    let result = p1 - p2;

    assert!(result.x == 10 - 25);
    assert!(result.y == 10 + 20);
}

#[test]
fn test_multiplication() {
    let p1 = Point { x: 10, y: 10 };
    let p2 = Point { x: 25, y: -20 };

    let result = p1 * p2;

    assert!(result.x == 10 * 25);
    assert!(result.y == 10 * -20);
}

#[test]
fn test_division() {
    let p1 = Point { x: 10, y: 10 };
    let p2 = Point { x: 25, y: -20 };

    let result = p1 / p2;

    assert!(result.x == 10 / 25);
    assert!(result.y == 10 / -20);
}

#[test]
#[should_panic]
fn test_div_zero_panic() {
    let p1 = Point { x: 10, y: 10 };
    let p2 = Point { x: 0, y: 20 };

    let _result = p1 / p2;
}

#[test]
fn test_equality() {
    let p1 = Point { x: 10, y: 10 };
    let p2 = Point { x: 10, y: 10 };
    let p3 = Point { x: 20, y: 10 };

    let result1 = p1 == p2;
    let result2 = p2 == p3;

    assert!(result1 == true);
    assert!(result2 == false);
}

#[test]
fn division_rounds_toward_zero() {
    let p1 = Point { x: -7, y: 7 };
    let p2 = Point { x: 2, y: -2 };
    assert_eq!(p1 / p2, Point { x: -3, y: -3 });
}

#[test]
fn test_add() {
    let r1 = Rectangle { x: 1, y: 1, width: 3, height: 10 };
    let r2 = Rectangle { x: 1, y: 1, width: 3, height: 10 };

    assert_eq!(r1 + r2, Rectangle { x: 2, y: 2, width: 6, height: 20 });
}

#[test]
fn rectangle_test_area() {
    let r1 = Rectangle { x: 0, y: 0, width: 10, height: 10 };
    assert_eq!(r1.area(), 100);
}

#[test]
fn test_intersection() {
    let r1 = Rectangle { x: 0, y: 0, width: 10, height: 10 };
    let r2 = Rectangle { x: 3, y: 3, width: 10, height: 10 };

    assert_eq!(r1.intersection(r2), Rectangle { x: 3, y: 3, width: 7, height: 7 });

    let r3 = Rectangle { x: 11, y: 3, width: 10, height: 10 };
    assert_eq!(r1.intersection(r3), Rectangle { x: 0, y: 0, width: 0, height: 0 });
}

#[test]
fn rectangle_containment() {
    let r = Rectangle::new(0, 0, 10, 10);
    assert!(r.contains_point(Point::new(0, 0)));
    assert!(r.contains_point(Point::new(9, 9)));
    assert!(!r.contains_point(Point::new(10, 5)));
    assert!(r.contains_rectangle(Rectangle::new(2, 2, 8, 8)));
    assert!(!r.contains_rectangle(Rectangle::new(2, 2, 9, 8)));
}

#[test]
fn rectangle_constructors() {
    let p = Point::new(3, 4);
    let s = Size::new(5, 6);
    let expected = Rectangle { x: 3, y: 4, width: 5, height: 6 };
    assert_eq!(Rectangle::from_point(p, 5, 6), expected);
    assert_eq!(Rectangle::from_size(3, 4, s), expected);
    assert_eq!(Rectangle::from_point_size(p, s), expected);
    assert_eq!(expected.size(), s);
}

#[test]
fn size_test_area() {
    let size = Size { width: 10, height: 10 };
    assert_eq!(size.area(), 100);
}

#[test]
fn test_integer_addition() {
    let s1 = Size { width: 10, height: 10 };
    let s2 = Size { width: 10, height: 10 };
    assert_eq!(s1 + s2, Size { width: 20, height: 20 });
}

#[test]
fn test_from_points() {
    let size = Size::from_points(Point { x: 10, y: 20 }, Point { x: 30, y: -2 });

    assert_eq!(size, Size { width: 20, height: 22 });
}

#[test]
fn size_operators() {
    let a = Size::new(12, 9);
    let b = Size::new(5, 4);
    assert_eq!(a - b, Size::new(7, 5));
    assert_eq!(a * b, Size::new(60, 36));
    assert_eq!(a / b, Size::new(2, 2));
}

#[test]
fn shapes_within_and_position() {
    let r = Rectangle::new(0, 0, 10, 10);
    assert!(Point::new(3, 4).within(r));
    assert!(!Point::new(10, 4).within(r));
    assert!(Rectangle::new(1, 1, 2, 2).within(r));
    assert!(!Rectangle::new(9, 9, 2, 2).within(r));
    assert_eq!(Rectangle::new(5, 6, 1, 1).position(), (5, 6));
    assert_eq!(Point::new(7, 8).position(), (7, 8));
}

#[test]
fn intersection_holds_common_points() {
    let a = Rectangle::new(0, 0, 10, 10);
    let b = Rectangle::new(5, 3, 10, 4);
    let i = a.intersection(b);
    for x in -2..18 {
        for y in -2..18 {
            let p = Point::new(x, y);
            assert_eq!(i.contains_point(p), a.contains_point(p) && b.contains_point(p));
        }
    }
}
