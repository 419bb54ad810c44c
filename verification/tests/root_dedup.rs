use remsol::roots::dedup_by;

#[test]
fn keeps_first_of_each_cluster() {
    let roots = vec![1.0f64, 1.05, 2.0, 0.98, 2.04, 3.0];
    let kept = dedup_by(roots, |a: f64, b: f64| (a - b).abs() < 0.1);
    assert_eq!(kept, vec![1.0, 2.0, 3.0]);
}

#[test]
fn compares_candidate_against_kept_only() {
    // 1.15 is close to 1.08, which is dropped, but not to 1.0, which is kept.
    let kept = dedup_by(vec![1.0f64, 1.08, 1.15], |a: f64, b: f64| (a - b).abs() < 0.1);
    assert_eq!(kept, vec![1.0, 1.15]);
}

#[test]
fn empty_and_exact_duplicates() {
    let empty: Vec<i32> = vec![];
    assert!(dedup_by(empty, |a: i32, b: i32| a == b).is_empty());
    assert_eq!(dedup_by(vec![3, 3, 1, 3, 1], |a: i32, b: i32| a == b), vec![3, 1]);
}
