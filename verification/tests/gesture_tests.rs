use emergency_backup::gesture::{
    horizontal_check, horizontal_check_in_range, vertical_check, vertical_check_in_range,
    LineGesture, RectangleGesture, Side,
};

const W: u64 = 1920;
const H: u64 = 1080;

fn stroke(g: &mut RectangleGesture, a: (i32, i32), b: (i32, i32)) -> bool {
    // several polls while the button is held, then several while it is up
    let mut signalled = false;
    for p in [a, (a.0 + 3, a.1 + 7), b] {
        assert!(g.step_is_defined(true, p));
        signalled |= g.on_mouse(true, p);
    }
    for _ in 0..3 {
        assert!(g.step_is_defined(false, b));
        signalled |= g.on_mouse(false, b);
    }
    signalled
}

#[test]
fn vertical_check_needs_ninety_percent_of_height() {
    // 90% of 1080 is 972
    assert!(vertical_check((100, 0), (120, 973), H));
    assert!(vertical_check((100, 0), (120, 972), H));
    assert!(!vertical_check((100, 0), (120, 971), H));
    assert!(vertical_check((100, 0), (150, 900), 1000));
    assert!(!vertical_check((100, 0), (150, 899), 1000));
    assert!(vertical_check((100, 1000), (90, 20), H));
}

#[test]
fn vertical_check_tolerates_fifty_pixels() {
    assert!(vertical_check((100, 0), (150, 1000), H));
    assert!(!vertical_check((100, 0), (151, 1000), H));
    assert!(vertical_check((100, 0), (50, 1000), H));
    assert!(!vertical_check((100, 0), (49, 1000), H));
}

#[test]
fn horizontal_check_needs_ninety_percent_of_width() {
    // 90% of 1920 is 1728
    assert!(horizontal_check((0, 500), (1729, 520), W));
    assert!(horizontal_check((0, 500), (1728, 520), W));
    assert!(!horizontal_check((0, 500), (1727, 520), W));
    assert!(horizontal_check((0, 100), (900, 150), 1000));
    assert!(!horizontal_check((0, 500), (1900, 551), W));
    assert!(horizontal_check((1900, 500), (0, 450), W));
}

#[test]
fn integer_threshold_matches_floating_point() {
    for extent in [0u64, 1, 9, 10, 11, 768, 1080, 1366, 1920, 2160, 3840, 4_000_000_000] {
        for d in 0..4000i32 {
            let float = (d as f64) >= 0.9 * (extent as f64);
            assert_eq!(vertical_check((0, 0), (0, d), extent), float, "d={} extent={}", d, extent);
            assert_eq!(horizontal_check((0, 0), (-d, 0), extent), float);
        }
    }
}

#[test]
fn range_checks_detect_overflow() {
    assert!(vertical_check_in_range((0, 0), (10, 10)));
    assert!(!vertical_check_in_range((0, 0), (i32::MIN + 10, 0)));
    assert!(!vertical_check_in_range((0, i32::MIN), (0, 5)));
    // the subtraction is not reached when the ends are too far apart
    assert!(vertical_check_in_range((0, i32::MIN), (1000, 5)));
    assert!(horizontal_check_in_range((0, 0), (10, 10)));
    assert!(horizontal_check_in_range((0, 0), (0, i32::MAX - 10)));
    assert!(!horizontal_check_in_range((0, i32::MAX - 5), (0, i32::MAX - 10)));
}

#[test]
fn rectangle_then_any_stroke_starts_backup() {
    let mut g = RectangleGesture::new(W, H);
    assert!(!stroke(&mut g, (100, 10), (110, 1070)));
    assert_eq!(g.sides(), &vec![Side::Vertical]);
    assert!(!stroke(&mut g, (110, 1070), (1850, 1060)));
    assert!(!stroke(&mut g, (1850, 1060), (1840, 20)));
    assert!(!stroke(&mut g, (1840, 20), (100, 10)));
    assert_eq!(g.sides().len(), 4);
    // the fifth stroke, whatever it is, signals
    assert!(stroke(&mut g, (500, 500), (501, 501)));
    assert!(g.sides().is_empty());
    // and nothing more happens while idle
    assert!(!g.on_mouse(false, (0, 0)));
}

#[test]
fn rectangle_may_start_with_a_horizontal_side() {
    let mut g = RectangleGesture::new(W, H);
    assert!(!stroke(&mut g, (10, 10), (1900, 20)));
    assert_eq!(g.sides(), &vec![Side::Horizontal]);
    assert!(!stroke(&mut g, (1900, 20), (1890, 1070)));
    assert!(!stroke(&mut g, (1890, 1070), (10, 1060)));
    assert!(!stroke(&mut g, (10, 1060), (20, 5)));
    assert!(stroke(&mut g, (0, 0), (0, 0)));
}

#[test]
fn wrong_side_resets_the_rectangle() {
    let mut g = RectangleGesture::new(W, H);
    assert!(!stroke(&mut g, (100, 10), (110, 1070)));
    // a second vertical side breaks the alternation
    assert!(!stroke(&mut g, (300, 10), (310, 1070)));
    assert!(g.sides().is_empty());
    // a stroke that is neither does not record a first side
    assert!(!stroke(&mut g, (300, 300), (400, 400)));
    assert!(g.sides().is_empty());
}

#[test]
fn short_stroke_resets_partial_rectangle() {
    let mut g = RectangleGesture::new(W, H);
    assert!(!stroke(&mut g, (100, 10), (110, 1070)));
    assert!(!stroke(&mut g, (110, 1070), (1850, 1060)));
    assert!(!stroke(&mut g, (1850, 1060), (1840, 500)));
    assert!(g.sides().is_empty());
}

#[test]
fn line_gesture_confirms_on_horizontal_stroke_only() {
    let mut g = LineGesture::new(W);
    assert!(!g.on_mouse(true, (100, 10)));
    assert!(!g.on_mouse(false, (110, 1070)));
    assert!(!g.on_mouse(true, (10, 500)));
    assert!(!g.on_mouse(true, (900, 505)));
    assert!(g.step_is_defined(false, (1900, 520)));
    assert!(g.on_mouse(false, (1900, 520)));
    assert!(!g.on_mouse(false, (1900, 520)));
}

#[test]
fn line_gesture_exactly_ninety_percent_confirms() {
    let mut g = LineGesture::new(1000);
    assert!(!g.on_mouse(true, (0, 100)));
    assert!(g.on_mouse(false, (900, 150)));
    assert!(!g.on_mouse(true, (0, 100)));
    assert!(!g.on_mouse(false, (899, 150)));
}
