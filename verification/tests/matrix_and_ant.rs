use tsp::matrix::Matrix;
use tsp::mmas::ant::Ant;
use tsp::Statistics;

#[test]
fn matrix_new_fills_with_default() {
    let m: Matrix<u64> = Matrix::new((2, 3), 7);
    assert_eq!(m.cols(), 3);
    assert_eq!(m.data().len(), 6);
    for &v in m.data().iter() {
        assert_eq!(v, 7);
    }
}

#[test]
fn matrix_set_and_get() {
    let mut m: Matrix<u64> = Matrix::new((3, 3), 0);
    m.set(1, 2, 42);
    m.set(2, 0, 9);
    assert_eq!(m.get(1, 2), 42);
    assert_eq!(m.get(2, 0), 9);
    assert_eq!(m.get(0, 0), 0);
}

#[test]
fn matrix_row_returns_requested_row() {
    let mut m: Matrix<u64> = Matrix::new((2, 3), 0);
    m.set(1, 0, 10);
    m.set(1, 1, 11);
    m.set(1, 2, 12);
    assert_eq!(m.row(0), &[0u64, 0, 0][..]);
    assert_eq!(m.row(1), &[10u64, 11, 12][..]);
}

#[test]
fn matrix_resize_keeps_prefix_and_fills_rest() {
    let mut m: Matrix<u64> = Matrix::new((1, 2), 5);
    m.resize((2, 2), 8);
    assert_eq!(m.cols(), 2);
    assert_eq!(m.data().as_slice(), &[5u64, 5, 8, 8][..]);
    m.resize((1, 1), 0);
    assert_eq!(m.data().as_slice(), &[5u64][..]);
}

#[test]
fn matrix_data_mut_allows_in_place_update() {
    let mut m: Matrix<u64> = Matrix::new((1, 2), 1);
    m.data_mut()[1] = 3;
    assert_eq!(m.data().as_slice(), &[1u64, 3][..]);
}

#[test]
fn ant_initialize_clears_state() {
    let mut ant = Ant::default();
    ant.initialize(4);
    assert_eq!(ant.visited().len(), 0);
    assert!(!ant.all_visited());
    for node in 0..4 {
        assert!(!ant.is_visited(node));
    }
}

#[test]
fn ant_visit_marks_and_appends() {
    let mut ant = Ant::default();
    ant.initialize(3);
    ant.visit(2);
    ant.visit(0);
    assert_eq!(ant.visited().as_slice(), &[2usize, 0][..]);
    assert!(ant.is_visited(0));
    assert!(!ant.is_visited(1));
    assert!(ant.is_visited(2));
    assert!(!ant.all_visited());
    ant.visit(1);
    assert!(ant.all_visited());
    assert_eq!(ant.visited().len(), 3);
}

#[test]
fn ant_new_and_cost_accessors() {
    let mut ant = Ant::new(vec![0, 1], vec![true, true], 17);
    assert_eq!(ant.cost(), 17);
    ant.set_cost(5);
    assert_eq!(ant.cost(), 5);
    let copy = ant.clone();
    assert_eq!(copy.cost(), 5);
    assert_eq!(copy.visited().as_slice(), &[0usize, 1][..]);
}

#[test]
fn statistics_holds_its_fields() {
    let s: Statistics<u8> = Statistics::new(Some(3), Some(99), Some(1));
    assert_eq!(s.iteration(), Some(3));
    assert_eq!(s.cost(), Some(99));
    assert_eq!(s.mime(), Some(&1));
    let empty: Statistics<u8> = Statistics::new(None, None, None);
    assert_eq!(empty.iteration(), None);
    assert_eq!(empty.cost(), None);
}
