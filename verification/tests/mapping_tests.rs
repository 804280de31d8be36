//! Coordinate mapping tests: the screen/arena affine transform on the
//! scenario with a 10-unit arena and a 100-pixel screen, and its exact
//! inverse.

use simple_ball::dimension::Dimension;
use simple_ball::dimension::ViewPoint;
use simple_ball::dimension::WorldVector;
use simple_ball::dimension::map_arena_to_screen;
use simple_ball::dimension::map_screen_to_arena;
use simple_ball::rational::Rational;
use simple_ball::screen::Screen;

fn assert_value(r: &Rational, num: i128, den: i128) {
    // Equality of rationals is cross-multiplication.
    assert!(r.den > 0);
    assert_eq!(r.num * den, num * r.den);
}

#[test]
fn test_map_screen_to_arena() {
    let screen = Dimension { side_length: 100 };
    let arena = Dimension { side_length: 10 };
    let default_y = Rational::new(123, 1000);
    let mappings: Vec<((i128, i128), (i128, i128))> = vec![
        ((20, 20), (2, 8)),
        ((50, 50), (5, 5)),
        ((80, 80), (8, 2)),
    ];
    for ((px, py), (wx, wz)) in mappings {
        let point = ViewPoint { x: Rational::from_int(px), y: Rational::from_int(py) };
        let world = map_screen_to_arena(&screen, &arena, &point, &default_y);
        assert_value(&world.x, wx, 1);
        assert_value(&world.y, 123, 1000);
        assert_value(&world.z, wz, 1);
    }
}

#[test]
fn test_map_arena_to_screen() {
    let screen = Dimension { side_length: 100 };
    let arena = Dimension { side_length: 10 };
    let mappings: Vec<((i128, i128), (i128, i128))> = vec![
        ((2, 8), (20, 20)),
        ((5, 5), (50, 50)),
        ((8, 2), (80, 80)),
    ];
    for ((wx, wz), (px, py)) in mappings {
        let vector = WorldVector {
            x: Rational::from_int(wx),
            y: Rational::new(123, 1000),
            z: Rational::from_int(wz),
        };
        let view = map_arena_to_screen(&screen, &arena, &vector);
        assert_value(&view.x, px, 1);
        assert_value(&view.y, py, 1);
    }
}

#[test]
fn test_round_trip_is_exact() {
    // Screen to arena and back reproduces the point exactly, even where
    // the intermediate value is not a whole number.
    let screen = Dimension { side_length: 100 };
    let arena = Dimension { side_length: 7 };
    let default_y = Rational::from_int(0);
    let point = ViewPoint { x: Rational::new(13, 3), y: Rational::new(71, 2) };
    let world = map_screen_to_arena(&screen, &arena, &point, &default_y);
    let back = map_arena_to_screen(&screen, &arena, &world);
    assert!(back.x.equiv(&point.x));
    assert!(back.y.equiv(&point.y));
}

#[test]
fn test_rational_equiv() {
    let half = Rational::new(1, 2);
    let two_quarters = Rational::new(2, 4);
    let third = Rational::new(1, 3);
    assert!(half.equiv(&two_quarters));
    assert!(!half.equiv(&third));
}

#[test]
fn test_screen_new() {
    let screen = Screen::new(640);
    assert_eq!(screen.dimension.side_length, 640);
}
