use gallery::transform::fit_dimensions;

#[test]
fn fit_scales_landscape_down() {
    assert_eq!(fit_dimensions(4000, 3000, 1000), (1000, 750));
}

#[test]
fn fit_scales_portrait_down() {
    assert_eq!(fit_dimensions(3000, 4000, 1000), (750, 1000));
}

#[test]
fn fit_scales_square_to_bound() {
    assert_eq!(fit_dimensions(100, 100, 1000), (1000, 1000));
    assert_eq!(fit_dimensions(5, 5, 1), (1, 1));
}

#[test]
fn fit_rounds_to_nearest_pixel() {
    // 3:2 at bound 100: the shorter edge is exactly 66.67, rounded up.
    assert_eq!(fit_dimensions(3, 2, 100), (100, 67));
    // 640x427 at bound 100: 66.72 rounds to 67.
    assert_eq!(fit_dimensions(640, 427, 100), (100, 67));
}

#[test]
fn fit_never_collapses_a_dimension() {
    assert_eq!(fit_dimensions(10000, 1, 50), (50, 1));
    assert_eq!(fit_dimensions(1, 10000, 50), (1, 50));
}

#[test]
fn fit_longer_edge_never_exceeds_bound() {
    let cases = [
        (1u32, 1u32, 1u32),
        (7, 13, 5),
        (4032, 3024, 1000),
        (u32::MAX, 1, 1000),
        (1, u32::MAX, 3),
        (u32::MAX, u32::MAX, 999),
    ];
    for (w, h, m) in cases {
        let (nw, nh) = fit_dimensions(w, h, m);
        assert!(nw <= m && nh <= m);
        assert!(nw >= 1 && nh >= 1);
        if h <= w {
            assert_eq!(nw, m);
        } else {
            assert_eq!(nh, m);
        }
    }
}
