use gallery::orient::Raster;
use gallery::transform::TransformError;

fn raster(rows: Vec<Vec<u32>>) -> Raster {
    let width = rows[0].len();
    Raster::new(rows, width).unwrap()
}

fn grid(r: &Raster) -> Vec<Vec<u32>> {
    let mut out = Vec::new();
    for y in 0..r.height() {
        let mut row = Vec::new();
        for x in 0..r.width() {
            row.push(r.get(x, y));
        }
        out.push(row);
    }
    out
}

fn sample() -> Raster {
    raster(vec![vec![1, 2], vec![3, 4], vec![5, 6]])
}

#[test]
fn orientation_zero_and_one_are_identity() {
    for o in [0u32, 1] {
        let out = sample().apply_orientation(o).unwrap();
        assert_eq!(grid(&out), vec![vec![1, 2], vec![3, 4], vec![5, 6]]);
    }
}

#[test]
fn orientation_two_flips_horizontally() {
    let out = sample().apply_orientation(2).unwrap();
    assert_eq!(grid(&out), vec![vec![2, 1], vec![4, 3], vec![6, 5]]);
}

#[test]
fn orientation_three_rotates_half_turn() {
    let out = sample().apply_orientation(3).unwrap();
    assert_eq!(grid(&out), vec![vec![6, 5], vec![4, 3], vec![2, 1]]);
}

#[test]
fn orientation_four_flips_vertically() {
    let out = sample().apply_orientation(4).unwrap();
    assert_eq!(grid(&out), vec![vec![5, 6], vec![3, 4], vec![1, 2]]);
}

#[test]
fn orientation_five_transposes() {
    let out = sample().apply_orientation(5).unwrap();
    assert_eq!(grid(&out), vec![vec![1, 3, 5], vec![2, 4, 6]]);
}

#[test]
fn orientation_six_rotates_quarter_clockwise() {
    let out = sample().apply_orientation(6).unwrap();
    assert_eq!(grid(&out), vec![vec![5, 3, 1], vec![6, 4, 2]]);
}

#[test]
fn orientation_seven_anti_transposes() {
    let out = sample().apply_orientation(7).unwrap();
    assert_eq!(grid(&out), vec![vec![6, 4, 2], vec![5, 3, 1]]);
}

#[test]
fn orientation_eight_rotates_quarter_counter_clockwise() {
    let out = sample().apply_orientation(8).unwrap();
    assert_eq!(grid(&out), vec![vec![2, 4, 6], vec![1, 3, 5]]);
}

#[test]
fn orientation_above_eight_is_unsupported() {
    for o in [9u32, 10, 100, u32::MAX] {
        let r = sample().apply_orientation(o);
        assert!(matches!(
            r,
            Err(TransformError::UnsupportedOrientation { orientation }) if orientation == o
        ));
    }
}

#[test]
fn orientation_round_trip_restores_pixels() {
    let original = sample();
    for o in 1u32..=8 {
        let inverse = match o {
            6 => 8,
            8 => 6,
            other => other,
        };
        let there = original.apply_orientation(o).unwrap();
        let back = there.apply_orientation(inverse).unwrap();
        assert_eq!(grid(&back), grid(&original));
    }
}

#[test]
fn raster_new_rejects_ragged_rows() {
    assert!(Raster::new(vec![vec![1, 2], vec![3]], 2).is_none());
    assert!(Raster::new(vec![vec![1, 2], vec![3, 4]], 2).is_some());
}
