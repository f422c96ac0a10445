//! The distance side of a TSP instance: a square matrix of edge costs, the
//! dimension, and whether the instance is symmetric.
//!
//! File parsing is not done here; a caller builds the matrix from whatever
//! source it has and this constructor checks the shape and the limits.
use crate::matrix::Matrix;
use crate::TspError;
use vstd::prelude::*;

verus! {

/// Largest dimension the solver is proved for.
pub const MAX_DIMENSION: usize = 65535;

/// Largest single edge cost the solver is proved for.
pub const MAX_DISTANCE: u64 = 4294967295;

/// The largest value among the first `t` entries of a sequence.
pub open spec fn seq_max_val(s: Seq<u64>, t: int) -> int
    decreases t,
{
    if t <= 0 {
        0
    } else if (s[t - 1] as int) > seq_max_val(s, t - 1) {
        s[t - 1] as int
    } else {
        seq_max_val(s, t - 1)
    }
}

/// Every entry of a prefix is bounded by the prefix's maximum.
pub proof fn lemma_seq_max_val_ge(s: Seq<u64>, t: int, k: int)
    requires
        0 <= k < t <= s.len(),
    ensures
        s[k] as int <= seq_max_val(s, t),
        seq_max_val(s, t) >= 0,
    decreases t,
{
    if k < t - 1 {
        lemma_seq_max_val_ge(s, t - 1, k);
    }
}

pub struct TspLibInstance {
    dimension: usize,
    symmetric: bool,
    distance_matrix: Matrix<u64>,
}

impl TspLibInstance {
    pub closed spec fn spec_dimension(self) -> int {
        self.dimension as int
    }

    pub closed spec fn spec_symmetric(self) -> bool {
        self.symmetric
    }

    pub closed spec fn spec_matrix(self) -> Matrix<u64> {
        self.distance_matrix
    }

    /// The cost of the directed edge (i, j).
    pub open spec fn dist(self, i: int, j: int) -> int {
        self.spec_matrix().entry(i, j) as int
    }

    /// Shape and machine limits, established by the constructor.
    pub open spec fn wf(self) -> bool {
        &&& self.spec_matrix().dims(self.spec_dimension(), self.spec_dimension())
        &&& self.spec_dimension() <= MAX_DIMENSION
        &&& forall|k: int|
            0 <= k < self.spec_matrix().spec_data().len()
                ==> self.spec_matrix().spec_data()[k] <= MAX_DISTANCE
    }

    /// Every edge between two distinct nodes has a positive cost, so the
    /// heuristic desirability 1/d is defined everywhere it is read.
    pub open spec fn valid_distances(self) -> bool {
        forall|i: int, j: int|
            0 <= i < self.spec_dimension() && 0 <= j < self.spec_dimension() && i != j
                ==> #[trigger] self.dist(i, j) >= 1
    }

    pub fn new(dimension: usize, symmetric: bool, distance_matrix: Matrix<u64>) -> (r: Result<
        Self,
        TspError,
    >)
        ensures
            r is Ok <==> {
                &&& dimension <= MAX_DIMENSION
                &&& distance_matrix.dims(dimension as int, dimension as int)
                &&& forall|k: int|
                    0 <= k < distance_matrix.spec_data().len()
                        ==> distance_matrix.spec_data()[k] <= MAX_DISTANCE
            },
            r matches Ok(inst) ==> {
                &&& inst.wf()
                &&& inst.spec_dimension() == dimension
                &&& inst.spec_symmetric() == symmetric
                &&& inst.spec_matrix() == distance_matrix
            },
            r matches Err(e) ==> (e == TspError::TooLarge || e == TspError::NonSquare),
    {
        if dimension > MAX_DIMENSION {
            return Err(TspError::TooLarge);
        }
        let n = dimension;
        proof {
            assert(n * n <= 4294836225) by (nonlinear_arith)
                requires n <= 65535;
        }
        if distance_matrix.cols() != n || distance_matrix.data().len() != n * n {
            return Err(TspError::NonSquare);
        }
        let data = distance_matrix.data();
        let mut k: usize = 0;
        while k < data.len()
            invariant
                data@ == distance_matrix.spec_data(),
                k <= data@.len(),
                forall|t: int| 0 <= t < k ==> data@[t] <= MAX_DISTANCE,
            decreases data@.len() - k,
        {
            if data[k] > MAX_DISTANCE {
                return Err(TspError::TooLarge);
            }
            k = k + 1;
        }
        Ok(Self { dimension, symmetric, distance_matrix })
    }

    pub fn dimension(&self) -> (r: usize)
        ensures
            r == self.spec_dimension(),
    {
        self.dimension
    }

    pub fn symmetric(&self) -> (r: bool)
        ensures
            r == self.spec_symmetric(),
    {
        self.symmetric
    }

    pub fn distance(&self, i: usize, j: usize) -> (r: u64)
        requires
            self.wf(),
            i < self.spec_dimension(),
            j < self.spec_dimension(),
        ensures
            r as int == self.dist(i as int, j as int),
    {
        proof {
            crate::matrix::lemma_row_major_bounds(
                self.spec_dimension(),
                self.spec_dimension(),
                i as int,
                j as int,
            );
        }
        self.distance_matrix.get(i, j)
    }

    /// True exactly when every off-diagonal edge cost is positive.
    pub fn is_valid(&self) -> (r: bool)
        requires
            self.wf(),
        ensures
            r <==> self.valid_distances(),
    {
        let n = self.dimension;
        let mut i: usize = 0;
        while i < n
            invariant
                self.wf(),
                n == self.spec_dimension(),
                i <= n,
                forall|a: int, b: int|
                    0 <= a < i && 0 <= b < n && a != b ==> #[trigger] self.dist(a, b) >= 1,
            decreases n - i,
        {
            let mut j: usize = 0;
            while j < n
                invariant
                    self.wf(),
                    n == self.spec_dimension(),
                    i < n,
                    j <= n,
                    forall|a: int, b: int|
                        0 <= a < i && 0 <= b < n && a != b ==> #[trigger] self.dist(a, b) >= 1,
                    forall|b: int| 0 <= b < j && i != b ==> #[trigger] self.dist(i as int, b) >= 1,
                decreases n - j,
            {
                if j != i && self.distance(i, j) == 0 {
                    return false;
                }
                j = j + 1;
            }
            i = i + 1;
        }
        true
    }

    pub fn distance_data(&self) -> (r: &Vec<u64>)
        ensures
            r@ == self.spec_matrix().spec_data(),
    {
        self.distance_matrix.data()
    }

    /// The largest edge cost actually present in the matrix.
    pub open spec fn max_edge(self) -> int {
        seq_max_val(
            self.spec_matrix().spec_data(),
            self.spec_matrix().spec_data().len() as int,
        )
    }

    /// Every edge cost is bounded by the matrix's own maximum.
    pub proof fn lemma_dist_le_max_edge(self, i: int, j: int)
        requires
            self.wf(),
            0 <= i < self.spec_dimension(),
            0 <= j < self.spec_dimension(),
        ensures
            0 <= self.dist(i, j) <= self.max_edge(),
    {
        crate::matrix::lemma_row_major_bounds(
            self.spec_dimension(),
            self.spec_dimension(),
            i,
            j,
        );
        lemma_seq_max_val_ge(
            self.spec_matrix().spec_data(),
            self.spec_matrix().spec_data().len() as int,
            i * self.spec_dimension() + j,
        );
    }

    /// Partial route sums are bounded by the number of edges times the
    /// matrix's own largest edge cost.
    pub proof fn lemma_path_len_le_max_edge(self, route: Seq<usize>, t: int)
        requires
            self.wf(),
            forall|q: int| 0 <= q < route.len() ==> (#[trigger] route[q]) < self.spec_dimension(),
            t <= route.len() - 1,
        ensures
            t >= 0 ==> self.spec_path_len(route, t) <= t * self.max_edge(),
        decreases t,
    {
        if t > 0 {
            self.lemma_path_len_le_max_edge(route, t - 1);
            self.lemma_dist_le_max_edge(route[t - 1] as int, route[t] as int);
            assert(t * self.max_edge() == (t - 1) * self.max_edge() + self.max_edge())
                by (nonlinear_arith);
        }
    }

    /// A closed tour's cost is bounded by its length times the matrix's own
    /// largest edge cost.
    pub proof fn lemma_route_len_le_max_edge(self, route: Seq<usize>)
        requires
            self.wf(),
            1 <= route.len(),
            forall|q: int| 0 <= q < route.len() ==> (#[trigger] route[q]) < self.spec_dimension(),
        ensures
            self.spec_route_len(route) <= route.len() * self.max_edge(),
    {
        self.lemma_path_len_le_max_edge(route, route.len() - 1);
        self.lemma_dist_le_max_edge(route[route.len() - 1] as int, route[0] as int);
        assert(route.len() * self.max_edge() == (route.len() - 1) * self.max_edge()
            + self.max_edge()) by (nonlinear_arith);
    }

    /// Every edge cost of a well-formed instance respects the machine limit.
    pub proof fn lemma_dist_bounded(self, i: int, j: int)
        requires
            self.wf(),
            0 <= i < self.spec_dimension(),
            0 <= j < self.spec_dimension(),
        ensures
            0 <= self.dist(i, j) <= MAX_DISTANCE,
    {
        crate::matrix::lemma_row_major_bounds(
            self.spec_dimension(),
            self.spec_dimension(),
            i,
            j,
        );
    }

    /// Partial sums of consecutive edge costs along a route: the first `t`
    /// edges route[0]→route[1]→…→route[t].
    pub open spec fn spec_path_len(self, route: Seq<usize>, t: int) -> int
        decreases t,
    {
        if t <= 0 {
            0
        } else {
            self.spec_path_len(route, t - 1) + self.dist(route[t - 1] as int, route[t] as int)
        }
    }

    /// The cost of a closed tour: all consecutive edges plus the edge back
    /// from the last node to the first.
    pub open spec fn spec_route_len(self, route: Seq<usize>) -> int {
        self.spec_path_len(route, route.len() - 1) + self.dist(
            route[route.len() - 1] as int,
            route[0] as int,
        )
    }

    /// Partial route sums are non-negative and bounded by the number of
    /// edges times the largest admissible edge cost.
    pub proof fn lemma_path_len_bounded(self, route: Seq<usize>, t: int)
        requires
            self.wf(),
            forall|q: int| 0 <= q < route.len() ==> (#[trigger] route[q]) < self.spec_dimension(),
            t <= route.len() - 1,
        ensures
            0 <= self.spec_path_len(route, t),
            t >= 0 ==> self.spec_path_len(route, t) <= t * (MAX_DISTANCE as int),
        decreases t,
    {
        if t > 0 {
            self.lemma_path_len_bounded(route, t - 1);
            self.lemma_dist_bounded(route[t - 1] as int, route[t] as int);
            assert(t * (MAX_DISTANCE as int) == (t - 1) * (MAX_DISTANCE as int) + MAX_DISTANCE)
                by (nonlinear_arith);
        }
    }

    /// A closed tour's cost is bounded by its length times the largest
    /// admissible edge cost; on a valid instance a tour whose closing edge
    /// joins two distinct nodes costs at least 1.
    pub proof fn lemma_route_cost_bounds(self, route: Seq<usize>)
        requires
            self.wf(),
            1 <= route.len(),
            forall|q: int| 0 <= q < route.len() ==> (#[trigger] route[q]) < self.spec_dimension(),
        ensures
            0 <= self.spec_route_len(route) <= route.len() * (MAX_DISTANCE as int),
            self.valid_distances() && route[route.len() - 1] != route[0]
                ==> self.spec_route_len(route) >= 1,
    {
        self.lemma_path_len_bounded(route, route.len() - 1);
        self.lemma_dist_bounded(route[route.len() - 1] as int, route[0] as int);
        assert(route.len() * (MAX_DISTANCE as int) == (route.len() - 1) * (MAX_DISTANCE as int)
            + MAX_DISTANCE) by (nonlinear_arith);
    }

    pub fn calculate_route_length(&self, route: &Vec<usize>) -> (r: u64)
        requires
            self.wf(),
            1 <= route@.len() <= MAX_DIMENSION,
            forall|k: int| 0 <= k < route@.len() ==> route@[k] < self.spec_dimension(),
        ensures
            r as int == self.spec_route_len(route@),
    {
        let len = route.len();
        proof {
            self.lemma_dist_bounded(route@[len - 1] as int, route@[0] as int);
        }
        let mut total: u64 = self.distance(route[len - 1], route[0]);
        let mut k: usize = 0;
        while k + 1 < len
            invariant
                self.wf(),
                1 <= len <= MAX_DIMENSION,
                len == route@.len(),
                forall|t: int| 0 <= t < route@.len() ==> #[trigger] route@[t] < self.spec_dimension(),
                k < len,
                total as int == self.spec_path_len(route@, k as int) + self.dist(
                    route@[len - 1] as int,
                    route@[0] as int,
                ),
                total <= (k + 1) * (MAX_DISTANCE as int),
            decreases len - k,
        {
            proof {
                self.lemma_dist_bounded(route@[k as int] as int, route@[k + 1] as int);
                assert((k + 2) * (MAX_DISTANCE as int) == (k + 1) * (MAX_DISTANCE as int)
                    + MAX_DISTANCE);
                assert((k + 2) * (MAX_DISTANCE as int) <= 65536 * (MAX_DISTANCE as int));
            }
            let d = self.distance(route[k], route[k + 1]);
            total = total + d;
            k = k + 1;
        }
        total
    }
}

} // verus!
