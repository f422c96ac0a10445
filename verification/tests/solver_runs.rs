use tsp::fixed::SCALE;
use tsp::matrix::Matrix;
use tsp::mmas::pheromone::PheromoneNetwork;
use tsp::mmas::{MMASParameters, MMAS};
use tsp::tsplib::TspLibInstance;
use tsp::Statistics;
use tsp::TspError;

const RHO: u64 = 1027604; // 0.98 of the unit
const ALPHA: u64 = SCALE; // declared but unused in the selection formula
const P_BEST: u64 = 52428; // 0.05 of the unit

fn symmetric_instance(dists: &[&[u64]]) -> TspLibInstance {
    let n = dists.len();
    let mut m: Matrix<u64> = Matrix::new((n, n), 0);
    for i in 0..n {
        for j in 0..n {
            m.set(i, j, dists[i][j]);
        }
    }
    TspLibInstance::new(n, true, m).unwrap()
}

/// A unit square scaled by ten: sides cost 10, diagonals cost 14.
fn unit_square() -> TspLibInstance {
    symmetric_instance(&[
        &[0, 10, 14, 10],
        &[10, 0, 10, 14],
        &[14, 10, 0, 10],
        &[10, 14, 10, 0],
    ])
}

fn assert_permutation(tour: &[usize], n: usize) {
    assert_eq!(tour.len(), n);
    let mut seen = vec![false; n];
    for &node in tour {
        assert!(node < n);
        assert!(!seen[node]);
        seen[node] = true;
    }
}

#[test]
fn candidate_rows_are_sorted_and_start_with_the_nearest() {
    let inst = symmetric_instance(&[
        &[0, 9, 2, 7, 5],
        &[9, 0, 4, 3, 8],
        &[2, 4, 0, 6, 1],
        &[7, 3, 6, 0, 2],
        &[5, 8, 1, 2, 0],
    ]);
    let params = MMASParameters::new(RHO, 5, ALPHA, 2, P_BEST, 4);
    let mut mmas = MMAS::new(inst, params);
    mmas.initialize_nn_matrix();
    let inst = symmetric_instance(&[
        &[0, 9, 2, 7, 5],
        &[9, 0, 4, 3, 8],
        &[2, 4, 0, 6, 1],
        &[7, 3, 6, 0, 2],
        &[5, 8, 1, 2, 0],
    ]);
    let nn = mmas.nn_matrix();
    for i in 0..5usize {
        let row = nn.row(i);
        assert_eq!(row.len(), 4);
        // Sorted ascending by distance, the first entry a true minimum.
        for w in 0..3 {
            assert!(inst.distance(i, row[w]) <= inst.distance(i, row[w + 1]));
        }
        for j in 0..5usize {
            if j != i {
                assert!(inst.distance(i, row[0]) <= inst.distance(i, j));
            }
        }
    }
    // Node 0's distances are 9, 2, 7, 5: nearest first gives 2, 4, 3, 1.
    assert_eq!(nn.row(0), &[2usize, 4, 3, 1][..]);
}

#[test]
fn unit_square_converges_to_the_perimeter() {
    let params = MMASParameters::new(RHO, 4, ALPHA, 2, P_BEST, 3);
    let mut mmas = MMAS::new(unit_square(), params);
    mmas.initialize_nn_matrix();
    let best = mmas
        .solve(|_s: &Statistics<PheromoneNetwork>| false, 200, 7)
        .unwrap();
    assert_permutation(best.visited(), 4);
    assert_eq!(best.cost(), 40);
}

#[test]
fn equal_seeds_give_equal_runs() {
    let run = |seed: u64| {
        let params = MMASParameters::new(RHO, 4, ALPHA, 2, P_BEST, 3);
        let mut mmas = MMAS::new(unit_square(), params);
        mmas.initialize_nn_matrix();
        let best = mmas
            .solve(|_s: &Statistics<PheromoneNetwork>| false, 25, seed)
            .unwrap();
        (best.visited().clone(), best.cost())
    };
    let (tour_a, cost_a) = run(12345);
    let (tour_b, cost_b) = run(12345);
    assert_eq!(tour_a, tour_b);
    assert_eq!(cost_a, cost_b);
}

#[test]
fn single_candidate_lists_still_build_complete_tours() {
    // K = 1 forces the exhausted-candidate-list fallback on most steps.
    let inst = symmetric_instance(&[
        &[0, 4, 6, 3, 9],
        &[4, 0, 5, 8, 2],
        &[6, 5, 0, 7, 4],
        &[3, 8, 7, 0, 6],
        &[9, 2, 4, 6, 0],
    ]);
    let params = MMASParameters::new(RHO, 5, ALPHA, 2, P_BEST, 1);
    let mut mmas = MMAS::new(inst, params);
    mmas.initialize_nn_matrix();
    let best = mmas
        .solve(|_s: &Statistics<PheromoneNetwork>| false, 20, 99)
        .unwrap();
    assert_permutation(best.visited(), 5);
    let inst = symmetric_instance(&[
        &[0, 4, 6, 3, 9],
        &[4, 0, 5, 8, 2],
        &[6, 5, 0, 7, 4],
        &[3, 8, 7, 0, 6],
        &[9, 2, 4, 6, 0],
    ]);
    assert_eq!(inst.calculate_route_length(best.visited()), best.cost());
}

#[test]
fn stopping_predicate_sees_iteration_numbers() {
    let params = MMASParameters::new(RHO, 4, ALPHA, 2, P_BEST, 3);
    let mut mmas = MMAS::new(unit_square(), params);
    mmas.initialize_nn_matrix();
    // Stop as soon as an iteration has been reported.
    let best = mmas
        .solve(
            |s: &Statistics<PheromoneNetwork>| s.iteration().is_some(),
            1000,
            1,
        )
        .unwrap();
    assert_permutation(best.visited(), 4);
}

#[test]
fn zero_iterations_return_the_empty_default() {
    let params = MMASParameters::new(RHO, 4, ALPHA, 2, P_BEST, 3);
    let mut mmas = MMAS::new(unit_square(), params);
    mmas.initialize_nn_matrix();
    let best = mmas
        .solve(|_s: &Statistics<PheromoneNetwork>| true, 1000, 1)
        .unwrap();
    assert_eq!(best.visited().len(), 0);
    assert_eq!(best.cost(), u64::MAX);
}

#[test]
fn oversized_costs_overflow_the_trail_ceiling() {
    // With a tiny evaporation rate and costs in the millions the
    // fixed-point ceiling 1 / (cost * (1 - rho)) truncates to zero, which
    // the solver surfaces as a machine-limit error.
    let inst = symmetric_instance(&[&[0, 4194304], &[4194304, 0]]);
    let params = MMASParameters::new(1, 2, ALPHA, 2, P_BEST, 1);
    let mut mmas = MMAS::new(inst, params);
    mmas.initialize_nn_matrix();
    let r = mmas.solve(|_s: &Statistics<PheromoneNetwork>| false, 10, 1);
    assert!(matches!(r, Err(TspError::TooLarge)));
}

#[test]
fn oversized_candidate_request_is_clamped() {
    let params = MMASParameters::new(RHO, 4, ALPHA, 2, P_BEST, 100);
    let mut mmas = MMAS::new(unit_square(), params);
    mmas.initialize_nn_matrix();
    assert_eq!(mmas.nn_matrix().cols(), 3);
    let best = mmas
        .solve(|_s: &Statistics<PheromoneNetwork>| false, 30, 5)
        .unwrap();
    assert_permutation(best.visited(), 4);
}
