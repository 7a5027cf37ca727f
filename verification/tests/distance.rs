use coverage_distance::distance::pairwise_distance;
use coverage_distance::matrix::dimensions;
use coverage_distance::matrix::eucledian;
use coverage_distance::matrix::MatrixBuilder;
use slipstream::types::f64x4;

fn squared_difference(a: f64, b: f64) -> f64 {
    num::pow(a - b, 2)
}

fn plus(a: f64, b: f64) -> f64 {
    a + b
}

fn root(a: f64) -> f64 {
    a.sqrt()
}

fn scalar(left: &Vec<f64>, right: &Vec<f64>) -> f64 {
    pairwise_distance(left, right, 0.0, &squared_difference, &plus, &root)
}

fn lanes(a: &Vec<f64>, b: &Vec<f64>) -> f64 {
    let mut x = f64x4::splat(0_f64);
    let a = slipstream::vectorize_pad(&a[..], f64x4::splat(0_f64));
    let b = slipstream::vectorize_pad(&b[..], f64x4::splat(0_f64));
    for (l, r) in a.zip(b) {
        let d: f64x4 = l - r;
        x += d * d;
    }
    x.horizontal_sum().sqrt()
}

fn floats(values: Vec<u64>) -> Vec<f64> {
    values.into_iter().map(|x| x as f64).collect()
}

fn three_samples() -> Vec<Vec<f64>> {
    vec![
        floats(vec![102, 3, 394, 87]),
        floats(vec![67, 83, 124, 987]),
        floats(vec![900, 27, 45, 23]),
    ]
}

#[test]
fn test_eucledian_distance() {
    let x1 = vec![102, 3, 394, 87]
        .into_iter()
        .map(|x| x as f64)
        .collect();
    let x2 = vec![67, 83, 124, 987]
        .into_iter()
        .map(|x| x as f64)
        .collect();
    let x3 = vec![900, 27, 45, 23]
        .into_iter()
        .map(|x| x as f64)
        .collect();
    let m: Vec<Vec<f64>> = vec![x1, x2, x3];

    let k = vec![
        vec![0.0, 943.6763216272834, 873.6572554497559],
        vec![0.0, 0.0, 1277.7174961625908],
        vec![0.0, 0.0, 0.0],
    ];

    assert_eq!(eucledian(&m, 0.0, &scalar), k);
    assert_eq!(eucledian(&m, 0.0, &lanes), k);
}

#[test]
fn test_pairwise_distance() {
    // have uneven sized vectors
    let f: Vec<f64> = vec![102, 3, 394, 87]
        .into_iter()
        .map(|x| x as f64)
        .collect();
    let s: Vec<f64> = vec![67, 83, 124, 987, 823]
        .into_iter()
        .map(|x| x as f64)
        .collect();

    // Different
    let precomputed_dist: f64 = scalar(&f, &s);
    let dist: f64 = 943.6763216272834;
    assert_eq!(precomputed_dist, dist);

    assert_eq!(scalar(&f, &s), dist);

    // Same
    let precomputed_dist: f64 = scalar(&f, &f);
    assert_eq!(precomputed_dist, 0_f64);
}

#[test]
fn distance_to_self_is_zero() {
    for x in three_samples() {
        assert_eq!(scalar(&x, &x), 0.0);
    }
    let empty: Vec<f64> = Vec::new();
    assert_eq!(scalar(&empty, &empty), 0.0);
}

#[test]
fn distance_is_symmetric() {
    let m = three_samples();
    for a in &m {
        for b in &m {
            assert_eq!(scalar(a, b), scalar(b, a));
        }
    }
    let longer = floats(vec![67, 83, 124, 987, 823]);
    assert_eq!(scalar(&m[0], &longer), scalar(&longer, &m[0]));
}

#[test]
fn distance_ignores_the_tail_of_the_longer_sample() {
    let short = floats(vec![102, 3, 394, 87]);
    let long = floats(vec![67, 83, 124, 987, 823]);
    let cut = floats(vec![67, 83, 124, 987]);
    assert_eq!(scalar(&short, &long), scalar(&short, &cut));
    assert_eq!(scalar(&long, &short), scalar(&cut, &short));
}

#[test]
fn distance_has_the_expected_value() {
    let a = floats(vec![102, 3, 394, 87]);
    let b = floats(vec![67, 83, 124, 987]);
    let d = scalar(&a, &b);
    assert!((d - 943.6763216272834).abs() < 1e-9);
    let c = floats(vec![3, 4]);
    let origin = floats(vec![0, 0]);
    assert_eq!(scalar(&c, &origin), 5.0);
}

#[test]
fn distance_of_an_empty_sample_is_the_root_of_zero() {
    let empty: Vec<f64> = Vec::new();
    let full = floats(vec![1, 2, 3]);
    assert_eq!(scalar(&empty, &full), 0.0);
    let shifted = pairwise_distance(&empty, &full, 9.0, &squared_difference, &plus, &root);
    assert_eq!(shifted, 3.0);
}

#[test]
fn distance_adds_the_terms_in_index_order() {
    let left: Vec<i64> = vec![1, 2, 3];
    let right: Vec<i64> = vec![0, 0, 0, 7];
    let term = |a: i64, b: i64| a - b;
    let append = |sum: i64, t: i64| sum * 10 + t;
    let same = |sum: i64| sum;
    assert_eq!(pairwise_distance(&left, &right, 0, &term, &append, &same), 123);
    assert_eq!(pairwise_distance(&right, &left, 0, &term, &append, &same), -123);
}

#[test]
fn matrix_has_the_upper_triangle_only() {
    let m = three_samples();
    let out = eucledian(&m, 0.0, &scalar);
    assert_eq!(out.len(), 3);
    for i in 0..3 {
        assert_eq!(out[i].len(), 3);
        for j in 0..3 {
            if j < i {
                assert_eq!(out[i][j], 0.0);
            } else {
                assert_eq!(out[i][j], scalar(&m[i], &m[j]));
            }
        }
    }
    assert!((out[0][1] - 943.676321627).abs() < 1e-6);
    assert!((out[0][2] - 873.657255449).abs() < 1e-6);
    assert!((out[1][2] - 1277.717496162).abs() < 1e-6);
}

#[test]
fn matrix_keeps_zero_where_the_kernel_is_not_symmetric() {
    let m: Vec<Vec<i32>> = vec![vec![1], vec![2], vec![3]];
    let pair = |a: &Vec<i32>, b: &Vec<i32>| 10 * a[0] + b[0];
    let out = eucledian(&m, -1, &pair);
    assert_eq!(
        out,
        vec![vec![11, 12, 13], vec![-1, 22, 23], vec![-1, -1, 33]]
    );
}

#[test]
fn matrix_of_no_sample_is_empty() {
    let m: Vec<Vec<f64>> = Vec::new();
    let out = eucledian(&m, 0.0, &scalar);
    assert_eq!(out, Vec::<Vec<f64>>::new());
}

#[test]
fn matrix_of_one_sample_is_one_zero() {
    let m: Vec<Vec<f64>> = vec![vec![3.5, 2.25, 8.0]];
    let out = eucledian(&m, 0.0, &scalar);
    assert_eq!(out, vec![vec![0.0]]);
}

#[test]
fn matrix_diagonal_is_zero() {
    let mut m: Vec<Vec<f64>> = Vec::new();
    for n in 0..12u64 {
        m.push(floats(vec![n, 2 * n + 1, n * n, 7]));
        let out = eucledian(&m, 0.0, &scalar);
        assert_eq!(out.len(), m.len());
        for i in 0..out.len() {
            assert_eq!(out[i][i], 0.0);
        }
    }
}

#[test]
fn matrix_is_the_same_on_every_run() {
    let mut m: Vec<Vec<f64>> = Vec::new();
    for n in 0..40u64 {
        m.push(floats(vec![n, 3 * n + 1, n * n, 7, 1000 - n]));
    }
    let first = eucledian(&m, 0.0, &scalar);
    let second = eucledian(&m, 0.0, &scalar);
    assert_eq!(first, second);
    let third = eucledian(&m, 0.0, &lanes);
    let fourth = eucledian(&m, 0.0, &lanes);
    assert_eq!(third, fourth);
}

#[test]
fn matrix_row_is_in_the_order_of_the_samples() {
    let m: Vec<Vec<usize>> = (0..200).map(|n| vec![n]).collect();
    let pair = |a: &Vec<usize>, b: &Vec<usize>| 1000 * a[0] + b[0];
    let out = eucledian(&m, 0, &pair);
    for i in 0..200 {
        for j in 0..200 {
            let expected = if j < i { 0 } else { 1000 * i + j };
            assert_eq!(out[i][j], expected);
        }
    }
}

#[test]
fn builder_fills_one_row_at_a_time() {
    let m = three_samples();
    let mut builder = MatrixBuilder::new(&m, 0.0, &scalar);
    let mut positions: Vec<usize> = Vec::new();
    while let Some(row) = builder.next_row() {
        positions.push(row);
        builder.fill_row();
    }
    assert_eq!(positions, vec![0, 1, 2]);
    assert_eq!(builder.next_row(), None);
    assert_eq!(builder.finish(), eucledian(&m, 0.0, &scalar));
}

#[test]
fn builder_of_no_sample_has_no_row_to_fill() {
    let m: Vec<Vec<f64>> = Vec::new();
    let builder = MatrixBuilder::new(&m, 0.0, &scalar);
    assert_eq!(builder.next_row(), None);
    assert_eq!(builder.finish(), Vec::<Vec<f64>>::new());
}

#[test]
fn dimensions_are_samples_and_width_of_the_first() {
    assert_eq!(dimensions(&three_samples()), (3, 4));
    let none: Vec<Vec<f64>> = Vec::new();
    assert_eq!(dimensions(&none), (0, 0));
    let ragged: Vec<Vec<u8>> = vec![vec![], vec![1, 2]];
    assert_eq!(dimensions(&ragged), (2, 0));
}
