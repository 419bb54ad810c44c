use remsol::grid::{fill_segments, segment_starts, split_segments};

#[test]
fn fill_places_values_on_segments() {
    let profile = fill_segments(8, 0.5f64, &vec![1.0, 2.0, 3.0], &vec![0, 2, 5, 7]);
    assert_eq!(profile, vec![1.0, 1.0, 2.0, 2.0, 2.0, 3.0, 3.0, 0.5]);
}

#[test]
fn fill_with_empty_segment() {
    let profile = fill_segments(4, 9u8, &vec![1, 2], &vec![1, 1, 3]);
    assert_eq!(profile, vec![9, 2, 2, 9]);
}

#[test]
fn split_cuts_grid() {
    let xs = vec![0.0f64, 0.1, 0.2, 0.3, 0.4];
    let parts = split_segments(&xs, &vec![0, 2, 2, 5]);
    assert_eq!(parts, vec![vec![0.0, 0.1], vec![], vec![0.2, 0.3, 0.4]]);
    let none = split_segments(&xs, &vec![3]);
    assert!(none.is_empty());
}

#[test]
fn segment_starts_follow_boundaries() {
    let xs = vec![-1.0f64, -0.5, 0.0, 0.5, 1.0, 1.5];
    let bounds = vec![-1.0f64, 0.0, 1.0, 2.0];
    let starts = segment_starts(&xs, &bounds, |x: f64, b: f64| x >= b);
    assert_eq!(starts, Some(vec![0, 2, 4, 6]));
}

#[test]
fn segment_starts_one_boundary_per_point() {
    // Two boundaries at the same place: the second one starts one point later.
    let starts = segment_starts(&vec![0u32, 1, 2, 3], &vec![0u32, 1, 1, 9], |x: u32, b: u32| x >= b);
    assert_eq!(starts, Some(vec![0, 1, 2, 4]));
}

#[test]
fn segment_starts_refuse_reaching_the_end() {
    let starts = segment_starts(&vec![0u32, 1, 2, 3], &vec![0u32, 1, 2], |x: u32, b: u32| x >= b);
    assert_eq!(starts, None);
}
