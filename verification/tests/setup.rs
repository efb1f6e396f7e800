use std::collections::HashMap;

use hpccg::exchange_externals::{exchange_externals, pack_externals, ExchangeError};
use hpccg::local_setup::{make_local_matrix, LocalSetup, SetupAction, SetupEvent, SetupPhase};
use hpccg::make_local_matrix::{
    build_elements_to_send_list, compare_send_recv_lists, count_num_neighbors,
    create_ordered_new_external, decode_neighbor_counts, external_requests,
    find_accessed_processors, make_list_of_neighbors, record_send_lengths,
    scan_and_transform_local, send_processor_global_index, sift_external_elements, SetupError,
    MAX_EXTERNAL, MAX_NUM_MESSAGES,
};
use hpccg::sparse_matrix::SparseMatrix;
use hpccg::sparsemv::sparsemv;

/// Answers the actions of all processes of a world as the processes would
/// answer each other.
fn respond(actions: &[SetupAction]) -> Vec<SetupEvent> {
    let size = actions.len();
    let mut events = Vec::new();
    for me in 0..size {
        let event = match &actions[me] {
            SetupAction::ReduceSum(mine) => {
                let mut sums = vec![0usize; mine.len()];
                for action in actions {
                    match action {
                        SetupAction::ReduceSum(values) => {
                            for (sum, value) in sums.iter_mut().zip(values) {
                                *sum += value;
                            }
                        }
                        _ => panic!("the processes are out of step"),
                    }
                }
                SetupEvent::Reduced(sums)
            }
            SetupAction::FindSenders { expected, .. } => {
                let mut senders = Vec::new();
                for (other, action) in actions.iter().enumerate() {
                    match action {
                        SetupAction::FindSenders { targets, .. } => {
                            if targets.contains(&me) {
                                senders.push(other);
                            }
                        }
                        _ => panic!("the processes are out of step"),
                    }
                }
                assert_eq!(senders.len(), *expected);
                SetupEvent::Senders(senders)
            }
            SetupAction::SwapLengths { neighbors, .. } => {
                let mut lengths = Vec::new();
                for &other in neighbors {
                    match &actions[other] {
                        SetupAction::SwapLengths { neighbors: theirs, lengths: announced } => {
                            let at = theirs.iter().position(|&p| p == me).unwrap();
                            lengths.push(announced[at]);
                        }
                        _ => panic!("the processes are out of step"),
                    }
                }
                SetupEvent::Lengths(lengths)
            }
            SetupAction::SwapRequests { neighbors, expected, .. } => {
                let mut received = Vec::new();
                for (i, &other) in neighbors.iter().enumerate() {
                    match &actions[other] {
                        SetupAction::SwapRequests { neighbors: theirs, requests, .. } => {
                            let at = theirs.iter().position(|&p| p == me).unwrap();
                            assert_eq!(requests[at].len(), expected[i]);
                            received.push(requests[at].clone());
                        }
                        _ => panic!("the processes are out of step"),
                    }
                }
                SetupEvent::Requests(received)
            }
            SetupAction::Done => panic!("nothing is left to answer"),
        };
        events.push(event);
    }
    events
}

/// Sets up the matrices of all processes of a world.
fn set_up(matrices: Vec<SparseMatrix<i64>>) -> Vec<SparseMatrix<i64>> {
    let size = matrices.len();
    let mut setups: Vec<LocalSetup<i64>> = matrices
        .into_iter()
        .enumerate()
        .map(|(rank, matrix)| LocalSetup::new(matrix, rank, size))
        .collect();
    let mut events: Vec<SetupEvent> = (0..size).map(|_| SetupEvent::Start).collect();
    loop {
        let mut actions = Vec::new();
        let mut next = Vec::new();
        for (setup, event) in setups.into_iter().zip(events) {
            let (setup, action) = make_local_matrix(setup, event).unwrap();
            next.push(setup);
            actions.push(action);
        }
        setups = next;
        if actions.iter().all(|action| matches!(action, SetupAction::Done)) {
            break;
        }
        events = respond(&actions);
    }
    setups.into_iter().map(|setup| setup.into_matrix().unwrap()).collect()
}

fn world(nx: usize, ny: usize, nz: usize, size: usize) -> Vec<SparseMatrix<i64>> {
    (0..size).map(|rank| SparseMatrix::<i64>::generate_matrix(nx, ny, nz, rank, size).0).collect()
}

/// Carries out one halo exchange of all processes and returns the extended
/// vectors.
fn exchange(matrices: &mut [SparseMatrix<i64>], owned: &[Vec<i64>]) -> Vec<Vec<i64>> {
    let size = matrices.len();
    let mut sent: Vec<Vec<Vec<i64>>> = Vec::new();
    for rank in 0..size {
        sent.push(pack_externals(&mut matrices[rank], &owned[rank]));
    }
    let mut extended = Vec::new();
    for me in 0..size {
        let mut received = Vec::new();
        for &other in &matrices[me].neighbors {
            let at = matrices[other].neighbors.iter().position(|&p| p == me).unwrap();
            received.push(sent[other][at].clone());
        }
        let mut vector = owned[me].clone();
        assert_eq!(exchange_externals(&matrices[me], &mut vector, &received), Ok(()));
        extended.push(vector);
    }
    extended
}

#[test]
fn two_processes_find_each_other() {
    let matrices = set_up(world(2, 2, 2, 2));
    let first = &matrices[0];
    assert_eq!(first.num_external, 4);
    assert_eq!(first.local_ncol, 12);
    assert_eq!(first.external_index, vec![8, 9, 10, 11]);
    assert_eq!(first.external_local_index, vec![8, 9, 10, 11]);
    assert_eq!(first.neighbors, vec![1]);
    assert_eq!(first.num_send_neighbors, 1);
    assert_eq!(first.recv_length, vec![4]);
    assert_eq!(first.send_length, vec![4]);
    assert_eq!(first.total_to_be_sent, 4);
    assert_eq!(first.elements_to_send, vec![4, 5, 6, 7]);
    assert_eq!(first.send_buffer, vec![0; 4]);
    assert_eq!(&first.list_of_inds[..8], &[0, 1, 2, 3, 4, 5, 6, 7]);
    assert_eq!(&first.list_of_inds[32..44], &[0, 1, 2, 3, 4, 5, 6, 7, 8, 9, 10, 11]);

    let second = &matrices[1];
    assert_eq!(second.num_external, 4);
    assert_eq!(second.local_ncol, 12);
    assert_eq!(second.external_index, vec![4, 5, 6, 7]);
    assert_eq!(second.external_local_index, vec![8, 9, 10, 11]);
    assert_eq!(second.neighbors, vec![0]);
    assert_eq!(second.recv_length, vec![4]);
    assert_eq!(second.send_length, vec![4]);
    assert_eq!(second.elements_to_send, vec![0, 1, 2, 3]);
    assert_eq!(&second.list_of_inds[..12], &[8, 9, 10, 11, 0, 1, 2, 3, 4, 5, 6, 7]);
}

#[test]
fn setup_keeps_rows_and_values() {
    let before = world(3, 2, 2, 3);
    let after = set_up(world(3, 2, 2, 3));
    for (old, new) in before.iter().zip(&after) {
        assert_eq!(old.nnz_in_row, new.nnz_in_row);
        assert_eq!(old.row_start_inds, new.row_start_inds);
        assert_eq!(old.list_of_vals, new.list_of_vals);
        assert_eq!(old.start_row, new.start_row);
        assert_eq!(old.stop_row, new.stop_row);
        assert_eq!(old.total_nrow, new.total_nrow);
        assert_eq!(new.local_ncol, new.local_nrow + new.num_external);
        assert_eq!(new.recv_length.iter().sum::<usize>(), new.num_external);
        assert_eq!(new.send_length.iter().sum::<usize>(), new.total_to_be_sent);
        assert!(new.list_of_inds.iter().all(|&c| 0 <= c && (c as usize) < new.local_ncol));
        // Every local column stands for the global column it replaced.
        for (k, &c) in new.list_of_inds.iter().enumerate() {
            let global = if (c as usize) < new.local_nrow {
                c as usize + new.start_row
            } else {
                let at = new.external_local_index.iter().position(|&s| s == c).unwrap();
                new.external_index[at]
            };
            assert_eq!(global, old.list_of_inds[k] as usize);
        }
    }
}

#[test]
fn the_middle_of_three_processes_has_two_neighbours() {
    let matrices = set_up(world(2, 2, 2, 3));
    let middle = &matrices[1];
    assert_eq!(middle.external_index, vec![4, 5, 6, 7, 16, 17, 18, 19]);
    assert_eq!(middle.external_local_index, vec![8, 9, 10, 11, 12, 13, 14, 15]);
    assert_eq!(middle.neighbors, vec![0, 2]);
    assert_eq!(middle.recv_length, vec![4, 4]);
    assert_eq!(middle.send_length, vec![4, 4]);
    assert_eq!(middle.elements_to_send, vec![0, 1, 2, 3, 4, 5, 6, 7]);
    assert_eq!(middle.total_to_be_sent, 8);
    assert_eq!(matrices[0].neighbors, vec![1]);
    assert_eq!(matrices[2].neighbors, vec![1]);
    assert_eq!(matrices[2].elements_to_send, vec![0, 1, 2, 3]);
}

#[test]
fn five_cubed_blocks_share_one_plane() {
    let (mut matrix, _, _, _) = SparseMatrix::<i64>::generate_matrix(5, 5, 5, 0, 2);
    let (externals, num_external) = scan_and_transform_local(&mut matrix).unwrap();
    assert_eq!(num_external, 25);
    assert_eq!(externals.len(), 25);
    assert_eq!(matrix.num_external, 25);
    let expected: Vec<usize> = (125..150).collect();
    let mut found = matrix.external_index.clone();
    found.sort();
    assert_eq!(found, expected);
    for (position, global) in matrix.external_index.iter().enumerate() {
        assert_eq!(externals[global], position);
    }
}

#[test]
fn a_single_process_has_no_externals() {
    let matrices = set_up(world(3, 3, 3, 1));
    let matrix = &matrices[0];
    assert_eq!(matrix.num_external, 0);
    assert_eq!(matrix.local_ncol, 27);
    assert!(matrix.neighbors.is_empty());
    assert!(matrix.recv_length.is_empty());
    assert!(matrix.elements_to_send.is_empty());
    let (fresh, _, _, _) = SparseMatrix::<i64>::generate_matrix(3, 3, 3, 0, 1);
    assert_eq!(matrix.list_of_inds, fresh.list_of_inds);
}

#[test]
fn an_exchange_of_ones_gives_ones() {
    for (nx, ny, nz, size) in [(2, 2, 2, 2), (3, 2, 1, 4), (2, 3, 2, 3)] {
        let mut matrices = set_up(world(nx, ny, nz, size));
        let owned: Vec<Vec<i64>> = matrices.iter().map(|m| vec![1; m.local_nrow]).collect();
        let extended = exchange(&mut matrices, &owned);
        for (rank, matrix) in matrices.iter().enumerate() {
            assert_eq!(extended[rank], vec![1; matrix.local_ncol]);
            let (_, _, rhs, _) = SparseMatrix::<i64>::generate_matrix(nx, ny, nz, rank, size);
            assert_eq!(sparsemv(matrix, &extended[rank]), rhs);
        }
    }
}

#[test]
fn an_exchange_brings_the_neighbours_values() {
    let mut matrices = set_up(world(2, 2, 2, 3));
    // Every process holds the global row number of each of its rows.
    let owned: Vec<Vec<i64>> = matrices
        .iter()
        .map(|m| (m.start_row..=m.stop_row).map(|row| row as i64).collect())
        .collect();
    let extended = exchange(&mut matrices, &owned);
    assert_eq!(matrices[1].send_buffer, vec![8, 9, 10, 11, 12, 13, 14, 15]);
    for (rank, matrix) in matrices.iter().enumerate() {
        for (position, &slot) in matrix.external_local_index.iter().enumerate() {
            assert_eq!(extended[rank][slot as usize], matrix.external_index[position] as i64);
        }
    }
    // The product with the distributed matrix is the product with the whole.
    let (whole, _, _, _) = SparseMatrix::<i64>::generate_matrix(2, 2, 6, 0, 1);
    let all: Vec<i64> = (0..24).collect();
    let expected = sparsemv(&whole, &all);
    for (rank, matrix) in matrices.iter().enumerate() {
        assert_eq!(sparsemv(matrix, &extended[rank]), &expected[8 * rank..8 * rank + 8]);
    }
}

#[test]
fn an_exchange_refuses_messages_of_the_wrong_shape() {
    let mut matrices = set_up(world(2, 2, 2, 2));
    let matrix = &mut matrices[0];
    let mut vector = vec![1i64; 8];
    assert_eq!(exchange_externals(matrix, &mut vector, &[]), Err(ExchangeError::WrongShape));
    assert_eq!(vector, vec![1; 8]);
    assert_eq!(
        exchange_externals(matrix, &mut vector, &[vec![2, 2, 2]]),
        Err(ExchangeError::WrongShape)
    );
    assert_eq!(vector, vec![1; 8]);
    assert_eq!(exchange_externals(matrix, &mut vector, &[vec![2, 3, 4, 5]]), Ok(()));
    assert_eq!(vector, vec![1, 1, 1, 1, 1, 1, 1, 1, 2, 3, 4, 5]);
}

#[test]
fn owners_are_the_last_processes_that_start_at_or_below() {
    let (mut matrix, _, _, _) = SparseMatrix::<i64>::generate_matrix(1, 1, 1, 0, 1);
    matrix.external_index = vec![0, 7, 8, 15, 16, 40];
    matrix.num_external = 6;
    assert_eq!(find_accessed_processors(&matrix, &[0, 8, 16]), Ok(vec![0, 0, 1, 1, 2, 2]));
    assert_eq!(find_accessed_processors(&matrix, &[0]), Ok(vec![0; 6]));
    assert_eq!(find_accessed_processors(&matrix, &[3, 8, 16]), Err(SetupError::NoOwner));
    assert_eq!(find_accessed_processors(&matrix, &[]), Err(SetupError::NoOwner));
}

#[test]
fn externals_of_one_owner_get_neighbouring_columns() {
    let (mut matrix, _, _, _) = SparseMatrix::<i64>::generate_matrix(1, 1, 2, 0, 1);
    assert_eq!(matrix.list_of_inds, vec![0, 1, 0, 1]);
    // Five externals, named in the order 100, 300, 101, 200, 301 by marks.
    matrix.list_of_inds = vec![0, -101, -301, 1];
    matrix.list_of_vals = vec![27, -1, -1, 27];
    matrix.external_index = vec![100, 300, 101, 200, 301];
    matrix.num_external = 5;
    let externals: HashMap<usize, usize> =
        matrix.external_index.iter().enumerate().map(|(position, &g)| (g, position)).collect();
    let owners = vec![1, 3, 1, 2, 3];
    let by_slot = sift_external_elements(&mut matrix, externals, owners);
    assert_eq!(matrix.external_local_index, vec![2, 4, 3, 6, 5]);
    assert_eq!(by_slot, vec![1, 1, 3, 3, 2]);
    assert_eq!(matrix.list_of_inds, vec![0, 2, 4, 1]);
    assert_eq!(create_ordered_new_external(&matrix), vec![100, 101, 300, 301, 200]);
    assert_eq!(make_list_of_neighbors(&by_slot), vec![1, 3, 2]);

    let (codes, receiving) = count_num_neighbors(&matrix, &by_slot, 4);
    assert_eq!(codes, vec![0, 1 + 4 * 2, 1 + 4, 1 + 4 * 2]);
    assert_eq!(receiving, 3);

    let lengths = send_processor_global_index(&mut matrix, &[1, 3, 2, 0], &by_slot);
    assert_eq!(lengths, vec![2, 2, 1, 0]);
    assert_eq!(matrix.neighbors, vec![1, 3, 2, 0]);
    assert_eq!(matrix.recv_length, vec![2, 2, 1, 0]);
    let requests = external_requests(&matrix, &[100, 101, 300, 301, 200]);
    assert_eq!(requests, vec![vec![100, 101], vec![300, 301], vec![200], vec![]]);
}

#[test]
fn neighbour_counts_are_read_from_the_summed_codes() {
    assert_eq!(decode_neighbor_counts(0, 4), Ok((0, 0)));
    assert_eq!(decode_neighbor_counts(9, 2), Ok((1, 4)));
    assert_eq!(decode_neighbor_counts(2 + 3 * 25, 3), Ok((2, 25)));
    assert_eq!(
        decode_neighbor_counts(MAX_NUM_MESSAGES + 1, 1000),
        Err(SetupError::TooManyMessages)
    );
    assert_eq!(decode_neighbor_counts(MAX_NUM_MESSAGES, 1000), Ok((MAX_NUM_MESSAGES, 0)));
    assert_eq!(
        decode_neighbor_counts(1 + 2 * (MAX_EXTERNAL + 1), 2),
        Err(SetupError::TooManyExternals)
    );
    assert_eq!(decode_neighbor_counts(1 + 2 * MAX_EXTERNAL, 2), Ok((1, MAX_EXTERNAL)));
}

#[test]
fn neighbours_are_listed_once_in_the_order_of_their_columns() {
    assert_eq!(make_list_of_neighbors(&[]), Vec::<usize>::new());
    assert_eq!(make_list_of_neighbors(&[4]), vec![4]);
    assert_eq!(make_list_of_neighbors(&[4, 4, 4, 2, 2, 7]), vec![4, 2, 7]);
}

#[test]
fn senders_that_are_not_yet_neighbours_are_added() {
    let mut recv_list = vec![4, 2];
    assert_eq!(compare_send_recv_lists(&mut recv_list, &[2, 9, 4, 9, 1]), Ok((4, 4)));
    assert_eq!(recv_list, vec![4, 2, 9, 1]);
    let mut recv_list = Vec::new();
    assert_eq!(compare_send_recv_lists(&mut recv_list, &[]), Ok((0, 0)));
    assert!(recv_list.is_empty());
    let mut recv_list: Vec<usize> = (0..MAX_NUM_MESSAGES).collect();
    assert_eq!(
        compare_send_recv_lists(&mut recv_list, &[3, 5]),
        Ok((MAX_NUM_MESSAGES, MAX_NUM_MESSAGES))
    );
    assert_eq!(
        compare_send_recv_lists(&mut recv_list, &[3, MAX_NUM_MESSAGES]),
        Err(SetupError::TooManyMessages)
    );
}

#[test]
fn announced_lengths_must_add_up() {
    let fresh = || {
        let (mut matrix, _, _, _) = SparseMatrix::<i64>::generate_matrix(1, 1, 1, 0, 1);
        matrix.neighbors = vec![3, 5];
        matrix
    };
    let mut matrix = fresh();
    assert_eq!(record_send_lengths(&mut matrix, &[2, 3], 5), Ok(()));
    assert_eq!(matrix.send_length, vec![2, 3]);
    assert_eq!(matrix.total_to_be_sent, 5);
    for (lengths, total) in
        [(vec![2, 3], 6), (vec![2, 3], 4), (vec![5], 5), (vec![2, 3, 0], 5), (vec![-1, 6], 5)]
    {
        let mut matrix = fresh();
        assert_eq!(record_send_lengths(&mut matrix, &lengths, total), Err(SetupError::Mismatch));
        assert!(matrix.send_length.is_empty());
        assert_eq!(matrix.total_to_be_sent, 0);
    }
}

#[test]
fn requested_rows_must_be_owned() {
    let fresh = || {
        let (mut matrix, _, _, _) = SparseMatrix::<i64>::generate_matrix(2, 2, 1, 1, 3);
        for c in matrix.list_of_inds.iter_mut() {
            *c = 0;
        }
        matrix.neighbors = vec![0, 2];
        matrix.recv_length = vec![0, 0];
        matrix.send_length = vec![2, 1];
        matrix.total_to_be_sent = 3;
        matrix
    };
    let mut matrix = fresh();
    assert_eq!(build_elements_to_send_list(&mut matrix, &[vec![4, 7], vec![5]]), Ok(()));
    assert_eq!(matrix.elements_to_send, vec![0, 3, 1]);
    assert_eq!(matrix.send_buffer, vec![0; 3]);
    assert_eq!(matrix.num_send_neighbors, 2);
    assert_eq!(matrix.local_ncol, 4);
    for received in [
        vec![vec![4, 7]],
        vec![vec![4], vec![5]],
        vec![vec![4, 8], vec![5]],
        vec![vec![3, 7], vec![5]],
        vec![vec![4, 7], vec![-1]],
    ] {
        let mut matrix = fresh();
        assert_eq!(build_elements_to_send_list(&mut matrix, &received), Err(SetupError::Mismatch));
        assert!(matrix.elements_to_send.is_empty());
    }
}

#[test]
fn too_many_externals_stop_the_setup() {
    let (matrix, _, _, _) = SparseMatrix::<i64>::generate_matrix(320, 320, 1, 0, 2);
    let setup = LocalSetup::new(matrix, 0, 2);
    assert!(matches!(
        make_local_matrix(setup, SetupEvent::Start),
        Err(SetupError::TooManyExternals)
    ));
    let (mut matrix, _, _, _) = SparseMatrix::<i64>::generate_matrix(316, 316, 1, 0, 2);
    assert_eq!(scan_and_transform_local(&mut matrix).map(|found| found.1), Ok(99856));
}

#[test]
fn answers_of_the_wrong_kind_stop_the_setup() {
    let fresh = || LocalSetup::new(SparseMatrix::<i64>::generate_matrix(2, 2, 2, 0, 2).0, 0, 2);
    assert!(matches!(
        make_local_matrix(fresh(), SetupEvent::Reduced(vec![0, 8])),
        Err(SetupError::Mismatch)
    ));
    let (setup, action) = make_local_matrix(fresh(), SetupEvent::Start).unwrap();
    assert_eq!(setup.phase, SetupPhase::Offsets);
    assert!(matches!(action, SetupAction::ReduceSum(values) if values == vec![0, 0]));
    assert!(matches!(make_local_matrix(setup, SetupEvent::Start), Err(SetupError::Mismatch)));

    let (setup, _) = make_local_matrix(fresh(), SetupEvent::Start).unwrap();
    assert!(matches!(
        make_local_matrix(setup, SetupEvent::Reduced(vec![0, 8, 16])),
        Err(SetupError::Mismatch)
    ));
    let (setup, _) = make_local_matrix(fresh(), SetupEvent::Start).unwrap();
    assert!(matches!(
        make_local_matrix(setup, SetupEvent::Reduced(vec![9, 12])),
        Err(SetupError::NoOwner)
    ));

    let (setup, _) = make_local_matrix(fresh(), SetupEvent::Start).unwrap();
    let (setup, action) = make_local_matrix(setup, SetupEvent::Reduced(vec![0, 8])).unwrap();
    assert!(matches!(action, SetupAction::ReduceSum(codes) if codes == vec![0, 9]));
    let (setup, action) = make_local_matrix(setup, SetupEvent::Reduced(vec![9, 9])).unwrap();
    assert!(matches!(
        action,
        SetupAction::FindSenders { targets, expected } if targets == vec![1] && expected == 1
    ));
    assert!(setup.into_matrix().is_none());
}

#[test]
fn the_second_process_of_two_starts_at_its_first_row() {
    let (matrix, _, _, _) = SparseMatrix::<i64>::generate_matrix(2, 2, 2, 1, 2);
    let (_, action) = make_local_matrix(LocalSetup::new(matrix, 1, 2), SetupEvent::Start).unwrap();
    assert!(matches!(action, SetupAction::ReduceSum(values) if values == vec![0, 8]));
}
