use hpccg::sparse_matrix::{grid_is_valid, SparseMatrix};

fn expected_vals() -> Vec<i64> {
    vec![
        27, -1, -1, -1, -1, -1, -1, -1, -1, 27, -1, -1, -1, -1, -1, -1, -1, -1, 27, -1, -1, -1, -1,
        -1, -1, -1, -1, 27, -1, -1, -1, -1, -1, -1, -1, -1, 27, -1, -1, -1, -1, -1, -1, -1, -1, 27,
        -1, -1, -1, -1, -1, -1, -1, -1, 27, -1, -1, -1, -1, -1, -1, -1, -1, 27,
    ]
}

fn expected_inds() -> Vec<i32> {
    vec![
        0, 1, 2, 3, 4, 5, 6, 7, 0, 1, 2, 3, 4, 5, 6, 7, 0, 1, 2, 3, 4, 5, 6, 7, 0, 1, 2, 3, 4, 5,
        6, 7, 0, 1, 2, 3, 4, 5, 6, 7, 0, 1, 2, 3, 4, 5, 6, 7, 0, 1, 2, 3, 4, 5, 6, 7, 0, 1, 2, 3,
        4, 5, 6, 7,
    ]
}

#[test]
fn sparse_matrix_test_sparse_matrix() {
    let (matrix, guess, rhs, exact) = SparseMatrix::<i64>::generate_matrix(2, 2, 2, 0, 1);
    assert_eq!(matrix.local_nrow, 8);
    assert_eq!(matrix.local_nnz, 216);
    assert_eq!(matrix.nnz_in_row, vec![8; 8]);
    assert_eq!(matrix.list_of_vals.len(), 64);

    let vals_in_row: Vec<i64> =
        matrix.row_start_inds.iter().map(|&x| matrix.list_of_vals[x]).collect();
    let inds_in_row: Vec<i32> =
        matrix.row_start_inds.iter().map(|&x| matrix.list_of_inds[x]).collect();
    assert_eq!(vals_in_row, vec![27, -1, -1, -1, -1, -1, -1, -1]);
    assert_eq!(inds_in_row, vec![0; 8]);

    assert_eq!(matrix.list_of_vals, expected_vals());
    assert_eq!(matrix.list_of_inds, expected_inds());

    assert_eq!(guess, vec![0; 8]);
    assert_eq!(rhs, vec![20; 8]);
    assert_eq!(exact, vec![1; 8]);
}

#[test]
fn tests_test_sparse_matrix() {
    let size = 2;
    assert_eq!(size, 2, "MPI size must be 2 for test cases!");
    for rank in 0..size {
        let (matrix, guess, rhs, exact) = SparseMatrix::<i64>::generate_matrix(2, 2, 2, rank, size);
        assert_eq!(matrix.local_nrow, 8);
        assert_eq!(matrix.local_ncol, 8);
        assert_eq!(matrix.local_nnz, 216);
        assert_eq!(matrix.total_nrow, 16);
        assert_eq!(matrix.total_nnz, 432);
        assert_eq!(matrix.start_row, 8 * rank);
        assert_eq!(matrix.stop_row, 8 * rank + 7);
        // The plane that touches the other process reaches four cells
        // further than the plane at the end of the stack.
        let (near, far) = if rank == 0 { (12, 8) } else { (8, 12) };
        assert_eq!(matrix.nnz_in_row, vec![far, far, far, far, near, near, near, near]);
        assert_eq!(matrix.row_start_inds, vec![
            0,
            far,
            2 * far,
            3 * far,
            4 * far,
            4 * far + near,
            4 * far + 2 * near,
            4 * far + 3 * near,
        ]);
        assert_eq!(matrix.list_of_vals.len(), 80);
        assert_eq!(matrix.list_of_inds.len(), 80);
        assert_eq!(guess, vec![0; 8]);
        let expected_rhs: Vec<i64> =
            matrix.nnz_in_row.iter().map(|&n| 27 - (n as i64 - 1)).collect();
        assert_eq!(rhs, expected_rhs);
        assert_eq!(exact, vec![1; 8]);
        assert_eq!(matrix.num_external, 0);
        assert!(matrix.external_index.is_empty());
        assert!(matrix.neighbors.is_empty());
    }
    let (matrix, _, _, _) = SparseMatrix::<i64>::generate_matrix(2, 2, 2, 0, size);
    assert_eq!(&matrix.list_of_inds[..8], &[0, 1, 2, 3, 4, 5, 6, 7]);
    assert_eq!(&matrix.list_of_inds[32..44], &[0, 1, 2, 3, 4, 5, 6, 7, 8, 9, 10, 11]);
    assert_eq!(&matrix.list_of_vals[32..44], &[-1, -1, -1, -1, 27, -1, -1, -1, -1, -1, -1, -1]);
    let (matrix, _, _, _) = SparseMatrix::<i64>::generate_matrix(2, 2, 2, 1, size);
    assert_eq!(&matrix.list_of_inds[..12], &[4, 5, 6, 7, 8, 9, 10, 11, 12, 13, 14, 15]);
    assert_eq!(&matrix.list_of_vals[..12], &[-1, -1, -1, -1, 27, -1, -1, -1, -1, -1, -1, -1]);
}

#[test]
fn every_row_has_one_diagonal_entry_of_27_and_the_rest_are_minus_one() {
    for (nx, ny, nz, rank, size) in [(1, 1, 1, 0, 1), (3, 2, 4, 0, 1), (2, 3, 2, 1, 3), (4, 4, 4, 2, 3)] {
        let (matrix, guess, rhs, exact) =
            SparseMatrix::<i64>::generate_matrix(nx, ny, nz, rank, size);
        assert_eq!(matrix.local_nrow, nx * ny * nz);
        for i in 0..matrix.local_nrow {
            let start = matrix.row_start_inds[i];
            let mut diagonals = 0;
            for k in start..start + matrix.nnz_in_row[i] {
                if matrix.list_of_inds[k] as usize == matrix.start_row + i {
                    diagonals += 1;
                    assert_eq!(matrix.list_of_vals[k], 27);
                } else {
                    assert_eq!(matrix.list_of_vals[k], -1);
                }
                assert!((matrix.list_of_inds[k] as usize) < matrix.total_nrow);
            }
            assert_eq!(diagonals, 1);
            assert_eq!(rhs[i], 27 - (matrix.nnz_in_row[i] as i64 - 1));
            assert_eq!(guess[i], 0);
            assert_eq!(exact[i], 1);
        }
    }
}

#[test]
fn interior_rows_have_27_entries() {
    let (matrix, _, _, _) = SparseMatrix::<i64>::generate_matrix(3, 3, 3, 0, 1);
    assert_eq!(matrix.nnz_in_row[13], 27);
    assert_eq!(matrix.nnz_in_row.iter().filter(|&&n| n == 27).count(), 1);
    let (matrix, _, _, _) = SparseMatrix::<i64>::generate_matrix(4, 5, 3, 0, 1);
    for iz in 1..2 {
        for iy in 1..4 {
            for ix in 1..3 {
                assert_eq!(matrix.nnz_in_row[iz * 20 + iy * 4 + ix], 27);
            }
        }
    }
    assert_eq!(matrix.nnz_in_row[0], 8);
    // In a stack of three blocks of one plane each, the middle block's
    // interior cell has a neighbour on every side.
    let (matrix, _, _, _) = SparseMatrix::<i64>::generate_matrix(3, 3, 1, 1, 3);
    assert_eq!(matrix.nnz_in_row[4], 27);
    assert_eq!(&matrix.list_of_inds[matrix.row_start_inds[4]..][..3], &[0, 1, 2]);
}

#[test]
fn a_single_cell_has_only_its_diagonal() {
    let (matrix, guess, rhs, exact) = SparseMatrix::<i64>::generate_matrix(1, 1, 1, 0, 1);
    assert_eq!(matrix.nnz_in_row, vec![1]);
    assert_eq!(matrix.list_of_vals, vec![27]);
    assert_eq!(matrix.list_of_inds, vec![0]);
    assert_eq!(rhs, vec![27]);
    assert_eq!(guess, vec![0]);
    assert_eq!(exact, vec![1]);
}

#[test]
fn grids_are_checked_before_they_are_generated() {
    assert!(grid_is_valid(2, 2, 2, 0, 1));
    assert!(grid_is_valid(5, 5, 5, 1, 2));
    assert!(!grid_is_valid(0, 2, 2, 0, 1));
    assert!(!grid_is_valid(2, 0, 2, 0, 1));
    assert!(!grid_is_valid(2, 2, 0, 0, 1));
    assert!(!grid_is_valid(2, 2, 2, 1, 1));
    assert!(!grid_is_valid(2, 2, 2, 0, 0));
    assert!(!grid_is_valid(2048, 2048, 2048, 0, 1));
    assert!(grid_is_valid(100, 100, 100, 0, 1));
    assert!(grid_is_valid(1290, 1290, 1290, 0, 1) == (usize::MAX as u128 / 27 >= 2146689000));
}
