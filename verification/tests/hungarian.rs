use librojo::hungarian::min_cost_assignment;

fn total(cost: &[Vec<u32>], pairs: &[(usize, usize)]) -> u64 {
    pairs.iter().map(|&(r, c)| cost[r][c] as u64).sum()
}

/// The least total cost over all ways to match min(rows, cols) rows to
/// distinct columns, by trying every one.
fn brute_force(cost: &[Vec<u32>], rows: usize, cols: usize) -> u64 {
    fn go(cost: &[Vec<u32>], rows: usize, cols: usize, r: usize, used: &mut Vec<bool>, left: usize) -> u64 {
        if left == 0 {
            return 0;
        }
        if r == rows {
            return u64::MAX;
        }
        let mut best = u64::MAX;
        if rows - r > left {
            best = go(cost, rows, cols, r + 1, used, left);
        }
        for c in 0..cols {
            if !used[c] {
                used[c] = true;
                let rest = go(cost, rows, cols, r + 1, used, left - 1);
                used[c] = false;
                if rest != u64::MAX {
                    best = best.min(rest + cost[r][c] as u64);
                }
            }
        }
        best
    }
    let mut used = vec![false; cols];
    go(cost, rows, cols, 0, &mut used, rows.min(cols))
}

fn check_matching(pairs: &[(usize, usize)], rows: usize, cols: usize) {
    assert_eq!(pairs.len(), rows.min(cols));
    for (k, &(r, c)) in pairs.iter().enumerate() {
        assert!(r < rows && c < cols);
        for &(r2, c2) in &pairs[k + 1..] {
            assert!(r != r2 && c < c2);
        }
    }
}

#[test]
fn empty_matrix_gives_no_pairs() {
    assert!(min_cost_assignment(&[], 0, 0, 100).is_empty());
    assert!(min_cost_assignment(&[vec![]], 1, 0, 100).is_empty());
}

#[test]
fn square_matrix_optimal_assignment() {
    let cost = vec![vec![4, 1, 3], vec![2, 0, 5], vec![3, 2, 2]];
    let pairs = min_cost_assignment(&cost, 3, 3, 1000);
    assert_eq!(pairs, vec![(1, 0), (0, 1), (2, 2)]);
    assert_eq!(total(&cost, &pairs), 5);
}

#[test]
fn single_cell() {
    assert_eq!(min_cost_assignment(&[vec![7]], 1, 1, 1000), vec![(0, 0)]);
}

#[test]
fn more_columns_than_rows() {
    let cost = vec![vec![9, 2, 7, 8], vec![6, 4, 3, 7]];
    let pairs = min_cost_assignment(&cost, 2, 4, 1000);
    check_matching(&pairs, 2, 4);
    assert_eq!(total(&cost, &pairs), 5);
    assert_eq!(pairs, vec![(0, 1), (1, 2)]);
}

#[test]
fn more_rows_than_columns() {
    let cost = vec![vec![10, 3], vec![1, 9], vec![4, 4]];
    let pairs = min_cost_assignment(&cost, 3, 2, 1000);
    check_matching(&pairs, 3, 2);
    assert_eq!(total(&cost, &pairs), 4);
    assert_eq!(pairs, vec![(1, 0), (0, 1)]);
}

#[test]
fn matches_brute_force_on_small_matrices() {
    let mut seed: u64 = 12345;
    for rows in 1..=4 {
        for cols in 1..=4 {
            for _ in 0..5 {
                let cost: Vec<Vec<u32>> = (0..rows)
                    .map(|_| {
                        (0..cols)
                            .map(|_| {
                                seed = seed.wrapping_mul(6364136223846793005).wrapping_add(1442695040888963407);
                                ((seed >> 33) % 50) as u32
                            })
                            .collect()
                    })
                    .collect();
                let pairs = min_cost_assignment(&cost, rows, cols, 1000);
                check_matching(&pairs, rows, cols);
                assert_eq!(total(&cost, &pairs), brute_force(&cost, rows, cols));
            }
        }
    }
}

#[test]
fn no_matching_of_the_same_kind_is_cheaper() {
    let tall = vec![vec![4, 9], vec![2, 8], vec![7, 1], vec![5, 5]];
    let res = min_cost_assignment(&tall, 4, 2, 1000);
    assert_eq!(total(&tall, &res), brute_force(&tall, 4, 2));
    let wide = vec![vec![6, 3, 8, 2], vec![1, 9, 4, 7]];
    let res = min_cost_assignment(&wide, 2, 4, 1000);
    assert_eq!(total(&wide, &res), brute_force(&wide, 2, 4));
}
