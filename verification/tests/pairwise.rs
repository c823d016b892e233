use tsne::pairwise::{cal_pairwise_dist, dot_product, is_rectangular};

#[test]
fn test_cal_pairwise() {
    let x = vec![vec![0, 1, 2], vec![3, 4, 5], vec![6, 7, 8]];
    assert_eq!(
        cal_pairwise_dist(&x),
        vec![vec![0, 27, 108], vec![27, 0, 27], vec![108, 27, 0]],
    );
}

#[test]
fn pairwise_is_symmetric_with_zero_diagonal() {
    let x = vec![
        vec![5, -3, 12, 0],
        vec![-7, 9, 1, 1],
        vec![0, 0, 0, 0],
        vec![100, -100, 50, -50],
        vec![5, -3, 12, 0],
    ];
    let d = cal_pairwise_dist(&x);
    assert_eq!(d.len(), 5);
    for i in 0..5 {
        assert_eq!(d[i].len(), 5);
        assert_eq!(d[i][i], 0);
        for j in 0..5 {
            assert_eq!(d[i][j], d[j][i]);
        }
    }
    assert_eq!(d[0][4], 0);
    assert_eq!(d[0][1], 144 + 144 + 121 + 1);
    assert_eq!(d[2][3], 10000 + 10000 + 2500 + 2500);
}

#[test]
fn pairwise_is_the_sum_of_squared_differences() {
    let x = vec![vec![3, -4, 7], vec![-1, 2, -6], vec![8, 8, 8]];
    let d = cal_pairwise_dist(&x);
    for i in 0..3 {
        for j in 0..3 {
            let mut sum: u128 = 0;
            for k in 0..3 {
                let diff = (x[i][k] as i64 - x[j][k] as i64).unsigned_abs() as u128;
                sum += diff * diff;
            }
            assert_eq!(d[i][j], sum);
        }
    }
}

#[test]
fn pairwise_of_extreme_coordinates() {
    let x = vec![vec![i32::MIN, i32::MAX], vec![i32::MAX, i32::MIN]];
    let d = cal_pairwise_dist(&x);
    let side: u128 = 4294967295;
    assert_eq!(d[0][1], 2 * side * side);
    assert_eq!(d[1][0], 2 * side * side);
    assert_eq!(d[0][0], 0);
    assert_eq!(d[1][1], 0);
}

#[test]
fn pairwise_of_one_point() {
    let x = vec![vec![4, 5, 6]];
    assert_eq!(cal_pairwise_dist(&x), vec![vec![0u128]]);
}

#[test]
fn pairwise_of_no_points() {
    let x: Vec<Vec<i32>> = Vec::new();
    assert_eq!(cal_pairwise_dist(&x), Vec::<Vec<u128>>::new());
}

#[test]
fn pairwise_of_points_without_coordinates() {
    let x: Vec<Vec<i32>> = vec![Vec::new(), Vec::new()];
    assert_eq!(cal_pairwise_dist(&x), vec![vec![0u128, 0], vec![0, 0]]);
}

#[test]
fn dot_product_of_small_vectors() {
    assert_eq!(dot_product(&vec![1, 2, 3], &vec![4, -5, 6]), 4 - 10 + 18);
    assert_eq!(dot_product(&vec![], &vec![]), 0);
    assert_eq!(dot_product(&vec![-3], &vec![-3]), 9);
}

#[test]
fn dot_product_of_extreme_coordinates() {
    let low = i32::MIN as i128;
    assert_eq!(dot_product(&vec![i32::MIN, i32::MIN], &vec![i32::MIN, i32::MAX]), low * low + low * (i32::MAX as i128));
}

#[test]
fn rectangular_rows_are_told_from_ragged_ones() {
    assert!(is_rectangular(&vec![vec![0, 1, 2], vec![3, 4, 5], vec![6, 7, 8]]));
    assert!(is_rectangular(&vec![vec![1]]));
    assert!(is_rectangular(&Vec::new()));
    assert!(is_rectangular(&vec![Vec::new(), Vec::new()]));
    assert!(!is_rectangular(&vec![vec![0, 1], vec![2]]));
    assert!(!is_rectangular(&vec![vec![0, 1], vec![2, 3], vec![4, 5, 6]]));
    assert!(!is_rectangular(&vec![Vec::new(), vec![1]]));
}
