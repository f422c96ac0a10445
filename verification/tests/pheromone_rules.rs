use tsp::fixed::SCALE;
use tsp::matrix::Matrix;
use tsp::mmas::pheromone::{compute_tau_max, compute_tau_min, PheromoneNetwork};
use tsp::tsplib::{TspLibInstance, MAX_DISTANCE};
use tsp::TspError;

const RHO: u64 = 1027604; // 0.98 of the unit
const P_BEST: u64 = 52428; // 0.05 of the unit

fn ready_network(n: usize, tau_max: u64, tau_min: u64) -> PheromoneNetwork {
    let mut pn = PheromoneNetwork::new(0, 0, None);
    pn.update_pheromone_bounds(tau_max, tau_min);
    pn.initialize_pheromone_matrix((n, n)).unwrap();
    pn
}

#[test]
fn initialize_before_bounds_is_refused() {
    let mut pn = PheromoneNetwork::new(0, 0, None);
    assert_eq!(pn.initialize_pheromone_matrix((3, 3)), Err(TspError::BoundsNotSet));
}

#[test]
fn initialize_rejects_non_square() {
    let mut pn = PheromoneNetwork::new(0, 0, None);
    pn.update_pheromone_bounds(100, 10);
    assert_eq!(pn.initialize_pheromone_matrix((2, 3)), Err(TspError::NonSquare));
}

#[test]
fn operations_before_initialize_are_refused() {
    let mut pn = PheromoneNetwork::new(0, 0, None);
    pn.update_pheromone_bounds(100, 10);
    assert_eq!(pn.evaporate_from_all(RHO), Err(TspError::NotReady));
    assert_eq!(pn.deposit(0, 1, 5, true), Err(TspError::NotReady));
    assert!(pn.pheromone_matrix().is_err());
}

#[test]
fn initialize_fills_matrix_at_tau_max() {
    let pn = ready_network(3, 100, 10);
    let m = pn.pheromone_matrix().unwrap();
    assert_eq!(m.data().len(), 9);
    for &v in m.data().iter() {
        assert_eq!(v, 100);
    }
}

#[test]
fn trails_stay_within_bounds_over_any_sequence() {
    // An arbitrary mix of evaporations and deposits after initialization:
    // every trail must stay within [tau_min, tau_max] throughout.
    let tau_max: u64 = 5000;
    let tau_min: u64 = 700;
    let mut pn = ready_network(4, tau_max, tau_min);
    for round in 0..50u64 {
        if round % 3 == 0 {
            pn.evaporate_from_all(RHO).unwrap();
        } else {
            let from = (round % 4) as usize;
            let to = ((round + 1) % 4) as usize;
            pn.deposit(from, to, 37 * round, round % 2 == 0).unwrap();
        }
        let m = pn.pheromone_matrix().unwrap();
        for &v in m.data().iter() {
            assert!(tau_min <= v && v <= tau_max);
        }
    }
}

#[test]
fn evaporation_is_idempotent_at_the_floor() {
    let mut pn = ready_network(3, 4000, 900);
    // Drive every trail down to the floor.
    for _ in 0..200 {
        pn.evaporate_from_all(RHO).unwrap();
    }
    for &v in pn.pheromone_matrix().unwrap().data().iter() {
        assert_eq!(v, 900);
    }
    // Evaporating a matrix at the floor leaves it unchanged.
    pn.evaporate_from_all(RHO).unwrap();
    for &v in pn.pheromone_matrix().unwrap().data().iter() {
        assert_eq!(v, 900);
    }
}

#[test]
fn symmetric_deposit_mirrors_the_edge() {
    let mut pn = ready_network(4, 5000, 100);
    pn.evaporate_from_all(RHO).unwrap();
    pn.deposit(1, 3, 250, true).unwrap();
    let m = pn.pheromone_matrix().unwrap();
    assert_eq!(m.get(1, 3), m.get(3, 1));
    // An asymmetric deposit touches only the directed edge.
    let before = m.get(2, 0);
    pn.deposit(0, 2, 11, false).unwrap();
    let m = pn.pheromone_matrix().unwrap();
    assert_eq!(m.get(2, 0), before);
}

#[test]
fn deposit_is_clamped_at_tau_max() {
    let mut pn = ready_network(2, 1000, 10);
    pn.deposit(0, 1, u64::MAX, true).unwrap();
    let m = pn.pheromone_matrix().unwrap();
    assert_eq!(m.get(0, 1), 1000);
    assert_eq!(m.get(1, 0), 1000);
}

#[test]
fn tau_max_formula_exact_value() {
    // rho of one half and a reference cost of 2 make the denominator equal
    // to one unit, so tau_max is exactly one unit.
    let half: u64 = SCALE / 2;
    assert_eq!(compute_tau_max(half, 2), SCALE);
    // Doubling the cost halves the bound.
    assert_eq!(compute_tau_max(half, 4), SCALE / 2);
}

#[test]
fn tau_min_never_exceeds_tau_max() {
    for &rho in &[1u64, 1000, SCALE / 2, SCALE - 1] {
        for &p_best in &[1u64, P_BEST, SCALE / 2, SCALE - 1] {
            for &nodes in &[2usize, 3, 10, 100] {
                for &cost in &[1u64, 40, 1_000_000] {
                    let tau_max = compute_tau_max(rho, cost);
                    let tau_min = compute_tau_min(tau_max, p_best, nodes);
                    assert!(tau_min <= tau_max);
                }
            }
        }
    }
}

#[test]
fn tau_min_degenerates_to_tau_max_for_two_nodes() {
    // With two nodes the denominator (n/2 - 1) vanishes, so the floor
    // coincides with the ceiling.
    let tau_max = compute_tau_max(RHO, 40);
    assert_eq!(compute_tau_min(tau_max, P_BEST, 2), tau_max);
}

#[test]
fn instance_rejects_bad_shapes_and_sizes() {
    let m: Matrix<u64> = Matrix::new((2, 3), 1);
    assert!(matches!(TspLibInstance::new(2, true, m), Err(TspError::NonSquare)));
    let m: Matrix<u64> = Matrix::new((1, 1), 0);
    assert!(matches!(TspLibInstance::new(70000, true, m), Err(TspError::TooLarge)));
    let m: Matrix<u64> = Matrix::new((1, 1), MAX_DISTANCE + 1);
    assert!(matches!(TspLibInstance::new(1, true, m), Err(TspError::TooLarge)));
    let m: Matrix<u64> = Matrix::new((2, 2), 1);
    assert!(TspLibInstance::new(2, true, m).is_ok());
}

#[test]
fn instance_validity_and_route_length() {
    let mut m: Matrix<u64> = Matrix::new((3, 3), 0);
    m.set(0, 1, 5);
    m.set(1, 0, 5);
    m.set(0, 2, 7);
    m.set(2, 0, 7);
    m.set(1, 2, 11);
    m.set(2, 1, 11);
    let inst = TspLibInstance::new(3, true, m).unwrap();
    assert!(inst.is_valid());
    assert_eq!(inst.dimension(), 3);
    assert!(inst.symmetric());
    assert_eq!(inst.distance(1, 2), 11);
    // 0 -> 1 -> 2 -> back to 0: 5 + 11 + 7.
    assert_eq!(inst.calculate_route_length(&vec![0, 1, 2]), 23);
    // A zero off-diagonal edge makes the instance invalid.
    let mut bad: Matrix<u64> = Matrix::new((2, 2), 0);
    bad.set(0, 1, 3);
    let bad_inst = TspLibInstance::new(2, true, bad).unwrap();
    assert!(!bad_inst.is_valid());
}
