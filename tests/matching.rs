use r_slam::matching::{select_matches, Correspondence, Ratio};

fn c(query: usize, train: usize, distance: u32) -> Correspondence {
    Correspondence { query, train, distance }
}

fn three_quarters() -> Ratio {
    Ratio { num: 3, den: 4 }
}

#[test]
fn ratio_and_distance_gates() {
    let knn = vec![
        vec![c(0, 4, 10), c(0, 1, 40)], // 10 < 30 and < 50: kept
        vec![c(1, 2, 30), c(1, 3, 40)], // 30 == 0.75 * 40: ambiguous
        vec![c(2, 0, 60), c(2, 5, 200)], // 60 >= 50: too far
        vec![c(3, 1, 49), c(3, 2, 70)], // 49 < 52.5 and < 50: kept
    ];
    let m = select_matches(&knn, three_quarters(), 50);
    assert_eq!(m, vec![c(0, 4, 10), c(3, 1, 49)]);
}

#[test]
fn distance_gate_is_strict() {
    let knn = vec![vec![c(0, 0, 50), c(0, 1, 200)], vec![]];
    assert!(select_matches(&knn, three_quarters(), 50).is_empty());
    assert_eq!(select_matches(&knn, three_quarters(), 51), vec![c(0, 0, 50)]);
}

#[test]
fn fewer_than_two_candidates_gives_no_match() {
    let knn = vec![vec![c(0, 0, 1)], vec![], vec![c(2, 0, 0)]];
    assert!(select_matches(&knn, three_quarters(), 256).is_empty());
    let none: Vec<Vec<Correspondence>> = Vec::new();
    assert!(select_matches(&none, three_quarters(), 256).is_empty());
}

#[test]
fn non_positive_ratio_rejects_all() {
    let knn = vec![vec![c(0, 0, 0), c(0, 1, 100)], vec![c(1, 1, 0)]];
    assert!(select_matches(&knn, Ratio { num: 0, den: 1 }, 256).is_empty());
    assert!(select_matches(&knn, Ratio { num: 1, den: 0 }, 256).is_empty());
    assert_eq!(select_matches(&knn, Ratio { num: 1, den: 100 }, 256), vec![c(0, 0, 0)]);
}

#[test]
fn order_follows_first_frame() {
    let knn = vec![
        vec![c(0, 9, 5), c(0, 1, 90)],
        vec![c(1, 3, 7), c(1, 2, 90)],
        vec![c(2, 1, 1), c(2, 7, 90)],
    ];
    let m = select_matches(&knn, three_quarters(), 100);
    let queries: Vec<usize> = m.iter().map(|x| x.query).collect();
    assert_eq!(queries, vec![0, 1, 2]);
}

#[test]
fn first_frame_with_one_descriptor_gives_no_match() {
    let knn = vec![vec![c(0, 0, 1), c(0, 1, 100)]];
    assert!(select_matches(&knn, three_quarters(), 256).is_empty());
    let knn = vec![vec![c(0, 0, 1), c(0, 1, 100)], vec![c(1, 1, 90), c(1, 0, 100)]];
    assert_eq!(select_matches(&knn, three_quarters(), 256), vec![c(0, 0, 1)]);
}
