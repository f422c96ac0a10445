//! The MAX-MIN Ant System solver: candidate-list precomputation, the
//! construction engine that drives one ant to a complete tour, and the
//! iteration controller.
use crate::fixed::{fp_mul, fp_mul_exec, lemma_fp_mul_le, SCALE};
use crate::matrix::Matrix;
use crate::mmas::ant::Ant;
use crate::mmas::pheromone::PheromoneNetwork;
use crate::tsplib::TspLibInstance;
use crate::{Position, Statistics, TspError};
use vstd::prelude::*;

pub mod ant;
pub mod pheromone;

verus! {

/// Heuristic desirability of an edge of cost `d`: 1 / d^beta in fixed
/// point; the division is guarded, so a vanishing or unit-overflowing
/// power yields 0 instead of an undefined weight.
pub open spec fn spec_heuristic(d: int, beta: nat) -> int {
    if vstd::arithmetic::power::pow(d, beta) == 0 {
        0
    } else {
        (SCALE as int) / vstd::arithmetic::power::pow(d, beta)
    }
}

/// Computes 1 / d^beta in fixed point, saturating the power just above the
/// unit so that the guarded division stays exact.
fn heuristic_value(d: u64, beta: u32) -> (r: u64)
    ensures
        r as int == spec_heuristic(d as int, beta as nat),
        r <= SCALE,
{
    let mut acc: u128 = 1;
    let mut e: u32 = 0;
    proof {
        vstd::arithmetic::power::lemma_pow0(d as int);
    }
    while e < beta
        invariant
            e <= beta,
            (acc as int == vstd::arithmetic::power::pow(d as int, e as nat) && acc <= SCALE
                as u128) || (acc == (SCALE as u128) + 1 && vstd::arithmetic::power::pow(
                d as int,
                e as nat,
            ) > SCALE),
        decreases beta - e,
    {
        let ghost p = vstd::arithmetic::power::pow(d as int, e as nat);
        proof {
            vstd::arithmetic::power::lemma_pow1(d as int);
            vstd::arithmetic::power::lemma_pow_adds(d as int, e as nat, 1);
            assert(vstd::arithmetic::power::pow(d as int, (e + 1) as nat) == p * (d as int));
            assert(p * (d as int) == (d as int) * p) by (nonlinear_arith);
            assert((acc as int) * (d as int) <= u128::MAX) by (nonlinear_arith)
                requires acc <= (SCALE as u128) + 1 && d <= u64::MAX;
            if acc == (SCALE as u128) + 1 {
                assert(p > SCALE);
                assert(d >= 1) by {
                    if d == 0 {
                        if e == 0 {
                            vstd::arithmetic::power::lemma_pow0(d as int);
                        } else {
                            vstd::arithmetic::power::lemma0_pow(e as nat);
                        }
                    }
                }
                assert((d as int) * p >= p) by (nonlinear_arith)
                    requires d >= 1 && p > 0;
                assert((acc as int) * (d as int) >= acc as int) by (nonlinear_arith)
                    requires d >= 1 && acc >= 0;
            } else {
                assert((acc as int) * (d as int) == p * (d as int));
                assert(p * (d as int) == (d as int) * p) by (nonlinear_arith);
            }
        }
        let prod = acc * (d as u128);
        acc = if prod > SCALE as u128 {
            (SCALE as u128) + 1
        } else {
            prod
        };
        e = e + 1;
    }
    if acc == 0 {
        0
    } else {
        proof {
            let p = vstd::arithmetic::power::pow(d as int, beta as nat);
            if acc == (SCALE as u128) + 1 {
                vstd::arithmetic::div_mod::lemma_basic_div(SCALE as int, (SCALE as int) + 1);
                vstd::arithmetic::div_mod::lemma_basic_div(SCALE as int, p);
            }
            vstd::arithmetic::div_mod::lemma_div_nonincreasing(SCALE as int, acc as int);
            vstd::arithmetic::div_mod::lemma_div_pos_is_pos(SCALE as int, acc as int);
        }
        ((SCALE as u128) / acc) as u64
    }
}

/// The selection weight of the edge (c, j): pheromone times heuristic.
pub open spec fn spec_weight(pn: PheromoneNetwork, h: Matrix<u64>, c: int, j: int, n: int) -> int {
    fp_mul(pn.entries()[c * n + j] as int, h.spec_data()[c * n + j] as int)
}

/// The node the exhausted-candidate-list fallback picks from `c`: the
/// unvisited node of greatest weight, the earliest index among equals.
pub open spec fn is_fallback_choice(
    pn: PheromoneNetwork,
    h: Matrix<u64>,
    flags: Seq<bool>,
    c: int,
    n: int,
    choice: int,
) -> bool {
    &&& 0 <= choice < n
    &&& !flags[choice]
    &&& forall|j: int|
        0 <= j < n && !flags[j] ==> #[trigger] spec_weight(pn, h, c, j, n) <= spec_weight(
            pn,
            h,
            c,
            choice,
            n,
        )
    &&& forall|j: int|
        0 <= j < choice && !flags[j] ==> #[trigger] spec_weight(pn, h, c, j, n) < spec_weight(
            pn,
            h,
            c,
            choice,
            n,
        )
}

/// The visited flags induced by the first `t` nodes of a tour.
pub open spec fn prefix_flags(tour: Seq<usize>, t: int, n: int) -> Seq<bool> {
    Seq::new(n as nat, |j: int| tour.subrange(0, t).contains(j as usize))
}

/// The predicate selecting nodes the given flags mark unvisited.
pub open spec fn unvisited_pred(flags: Seq<bool>) -> spec_fn(usize) -> bool {
    |x: usize| !flags[x as int]
}

/// `choice` is what the roulette wheel returns for the draw `draw`: the
/// first node of `cands` whose cumulative weight strictly exceeds the draw,
/// which lies below the total.
pub open spec fn roulette_picks(
    pn: PheromoneNetwork,
    h: Matrix<u64>,
    c: int,
    cands: Seq<usize>,
    n: int,
    draw: int,
    i: int,
    choice: usize,
) -> bool {
    &&& 0 <= draw < cum_weight(pn, h, c, cands, cands.len() as int, n)
    &&& 0 <= i < cands.len()
    &&& cands[i] == choice
    &&& draw < cum_weight(pn, h, c, cands, i + 1, n)
    &&& forall|j: int| 0 <= j < i ==> #[trigger] cum_weight(pn, h, c, cands, j + 1, n) <= draw
}

/// The sum of the selection weights of the first `t` nodes of `cands`, seen
/// from node `c`: the cumulative roulette weights.
pub open spec fn cum_weight(
    pn: PheromoneNetwork,
    h: Matrix<u64>,
    c: int,
    cands: Seq<usize>,
    t: int,
    n: int,
) -> int
    decreases t,
{
    if t <= 0 {
        0
    } else {
        cum_weight(pn, h, c, cands, t - 1, n) + spec_weight(pn, h, c, cands[t - 1] as int, n)
    }
}

/// Tunables of the solver.  All rates and probabilities are fixed-point
/// values over [`crate::fixed::SCALE`].
///
/// The exploitation exponent `alpha` is accepted for completeness but the
/// selection formula weighs the trail strength itself (its first power)
/// against the heuristic information.
pub struct MMASParameters {
    /// pheromone trail evaporation
    rho: u64,
    /// number of ants that will explore the search space
    colony_size: usize,
    /// pheromone trail exploitation parameter
    alpha: u64,
    /// heuristic information exploitation parameter
    beta: u32,
    /// probability of moving to the best solution found so far
    p_best: u64,
    /// candidate list size
    nn_bounded_length: usize,
}

impl MMASParameters {
    pub closed spec fn spec_rho(self) -> u64 {
        self.rho
    }

    pub closed spec fn spec_colony_size(self) -> usize {
        self.colony_size
    }

    pub closed spec fn spec_alpha(self) -> u64 {
        self.alpha
    }

    pub closed spec fn spec_beta(self) -> u32 {
        self.beta
    }

    pub closed spec fn spec_p_best(self) -> u64 {
        self.p_best
    }

    pub closed spec fn spec_nn_bounded_length(self) -> usize {
        self.nn_bounded_length
    }

    pub fn new(
        rho: u64,
        colony_size: usize,
        alpha: u64,
        beta: u32,
        p_best: u64,
        nn_bounded_length: usize,
    ) -> (r: Self)
        ensures
            r.spec_rho() == rho,
            r.spec_colony_size() == colony_size,
            r.spec_alpha() == alpha,
            r.spec_beta() == beta,
            r.spec_p_best() == p_best,
            r.spec_nn_bounded_length() == nn_bounded_length,
    {
        Self { rho, colony_size, alpha, beta, p_best, nn_bounded_length }
    }

    pub fn colony_size(&self) -> (r: usize)
        ensures
            r == self.spec_colony_size(),
    {
        self.colony_size
    }
}

/// The solver: the instance, the tunables, and the nearest-neighbor
/// candidate matrix built once before the iteration loop.
pub struct MMAS {
    /// TSPLIB instance
    instance: TspLibInstance,
    /// MMAS parameters
    parameters: MMASParameters,
    /// nearest neighbor matrix
    nn: Matrix<usize>,
}

impl MMAS {
    pub closed spec fn spec_instance(self) -> TspLibInstance {
        self.instance
    }

    pub closed spec fn spec_parameters(self) -> MMASParameters {
        self.parameters
    }

    pub closed spec fn spec_nn(self) -> Matrix<usize> {
        self.nn
    }

    pub open spec fn spec_dim(self) -> int {
        self.spec_instance().spec_dimension()
    }

    /// The candidate-list size: the requested length, silently clamped to
    /// one less than the dimension.
    pub open spec fn spec_k(self) -> int {
        let n = self.spec_dim();
        let k = self.spec_parameters().spec_nn_bounded_length() as int;
        if n == 0 {
            0
        } else if k > n - 1 {
            n - 1
        } else {
            k
        }
    }

    pub open spec fn wf(self) -> bool {
        &&& self.spec_instance().wf()
        &&& self.spec_nn().dims(self.spec_dim(), self.spec_k())
    }

    /// Candidate entry `s` of node `i`'s row.
    pub open spec fn nn_entry(self, i: int, s: int) -> int {
        self.spec_nn().entry(i, s) as int
    }

    /// Node `j` appears in node `i`'s candidate row.
    pub open spec fn nn_row_contains(self, i: int, j: int) -> bool {
        exists|s: int| 0 <= s < self.spec_k() && self.nn_entry(i, s) == j
    }

    /// The sorting key of the candidate list: nearer nodes first, ties
    /// broken by the smaller node index.
    pub open spec fn key_lt(self, i: int, a: int, b: int) -> bool {
        let da = self.spec_instance().dist(i, a);
        let db = self.spec_instance().dist(i, b);
        da < db || (da == db && a < b)
    }

    /// Node `i`'s candidate row holds its `k` nearest neighbors (excluding
    /// `i` itself) in strictly increasing key order: distances ascend along
    /// the row and every node left out is farther than the last entry.
    pub open spec fn nn_row_ok(self, i: int) -> bool {
        let n = self.spec_dim();
        let k = self.spec_k();
        &&& forall|s: int|
            0 <= s < k ==> 0 <= (#[trigger] self.nn_entry(i, s)) < n && self.nn_entry(i, s) != i
        &&& forall|s: int, t: int|
            0 <= s < t < k ==> self.key_lt(i, self.nn_entry(i, s), self.nn_entry(i, t))
        &&& forall|j: int|
            0 <= j < n && j != i && !(#[trigger] self.nn_row_contains(i, j)) && k >= 1
                ==> self.key_lt(i, self.nn_entry(i, k - 1), j)
    }

    /// The whole candidate matrix is built.
    pub open spec fn nn_ok(self) -> bool {
        forall|i: int| 0 <= i < self.spec_dim() ==> #[trigger] self.nn_row_ok(i)
    }

    pub fn new(instance: TspLibInstance, parameters: MMASParameters) -> (r: Self)
        requires
            instance.wf(),
        ensures
            r.spec_instance() == instance,
            r.spec_parameters() == parameters,
            r.wf(),
    {
        let n = instance.dimension();
        let req = parameters.nn_bounded_length;
        let k = if n == 0 {
            0
        } else if req > n - 1 {
            n - 1
        } else {
            req
        };
        proof {
            assert(n * k <= 65535 * 65535) by (nonlinear_arith)
                requires n <= 65535 && k <= 65535;
        }
        let nn = Matrix::new((n, k), 0);
        Self { instance, parameters, nn }
    }

    /// `choice` is the first entry of node `c`'s candidate row that the
    /// flags mark unvisited.
    pub open spec fn is_first_unvisited_candidate(
        self,
        flags: Seq<bool>,
        c: int,
        choice: int,
    ) -> bool {
        exists|s: int|
            0 <= s < self.spec_k() && (#[trigger] self.nn_entry(c, s)) == choice && !flags[choice]
                && (forall|s2: int| 0 <= s2 < s ==> flags[#[trigger] self.nn_entry(c, s2)])
    }

    /// `choice` is the nearest unvisited node from `c` by plain distance,
    /// the earliest index among equals (first match wins).
    pub open spec fn is_nearest_unvisited(self, flags: Seq<bool>, c: int, choice: int) -> bool {
        let n = self.spec_dim();
        &&& 0 <= choice < n
        &&& !flags[choice]
        &&& forall|j: int|
            0 <= j < n && !flags[j] ==> self.spec_instance().dist(c, choice)
                <= #[trigger] self.spec_instance().dist(c, j)
        &&& forall|j: int|
            0 <= j < choice && !flags[j] ==> self.spec_instance().dist(c, choice)
                < #[trigger] self.spec_instance().dist(c, j)
    }

    /// Node `c`'s candidate row as a sequence.
    pub open spec fn row_seq(self, c: int) -> Seq<usize> {
        Seq::new(self.spec_k() as nat, |s: int| self.spec_nn().entry(c, s))
    }

    /// `tour` is the tour the heuristic seeding walk builds: it starts at
    /// the origin and takes a greedy step everywhere.
    pub open spec fn is_greedy_tour(self, tour: Seq<usize>) -> bool {
        &&& tour.len() == self.spec_dim()
        &&& (tour.len() >= 1 ==> tour[0] == 0)
        &&& forall|t: int| 1 <= t < tour.len() ==> #[trigger] self.is_greedy_step(tour, t)
    }

    /// Step `t` of the heuristic walk is greedy: from the node reached
    /// after `t` moves, go to the first unvisited candidate, or, with the
    /// candidate list exhausted, to the nearest unvisited node.
    pub open spec fn is_greedy_step(self, tour: Seq<usize>, t: int) -> bool {
        let n = self.spec_dim();
        let flags = prefix_flags(tour, t, n);
        let c = tour[t - 1] as int;
        let x = tour[t] as int;
        if exists|s: int| 0 <= s < self.spec_k() && !flags[#[trigger] self.nn_entry(c, s)] {
            self.is_first_unvisited_candidate(flags, c, x)
        } else {
            self.is_nearest_unvisited(flags, c, x)
        }
    }

    /// The nearest-neighbor candidate matrix: one row per node.
    pub fn nn_matrix(&self) -> (r: &Matrix<usize>)
        ensures
            *r == self.spec_nn(),
    {
        &self.nn
    }

    /// Selects node `i`'s candidates: repeatedly takes the nearest node not
    /// yet chosen (ties broken by the smaller index), so the row comes out
    /// in strictly increasing key order and the nodes left over are all
    /// farther than the last entry.
    fn build_candidate_row(&self, i: usize) -> (row: Vec<usize>)
        requires
            self.wf(),
            i < self.spec_dim(),
        ensures
            row@.len() == self.spec_k(),
            forall|s: int|
                0 <= s < row@.len() ==> (#[trigger] row@[s]) < self.spec_dim() && row@[s] != i,
            forall|s: int, t: int|
                0 <= s < t < row@.len() ==> self.key_lt(i as int, row@[s] as int, row@[t] as int),
            forall|j: int|
                0 <= j < self.spec_dim() && j != i && !(#[trigger] row@.contains(j as usize))
                    && row@.len() >= 1 ==> self.key_lt(i as int, row@[row@.len() - 1] as int, j),
    {
        let n = self.instance.dimension();
        let k = self.nn.cols();
        let mut row_buf: Vec<usize> = Vec::new();
        let mut picked: Vec<bool> = Vec::new();
        let mut t: usize = 0;
        while t < n
            invariant
                picked@.len() == t,
                t <= n,
                forall|q: int| 0 <= q < t ==> !(#[trigger] picked@[q]),
            decreases n - t,
        {
            picked.push(false);
            t = t + 1;
        }
        picked[i] = true;
        let mut slot: usize = 0;
        while slot < k
            invariant
                self.wf(),
                i < n,
                n == self.spec_dim(),
                k == self.spec_k(),
                row_buf@.len() == slot,
                slot <= k,
                picked@.len() == n,
                forall|j: int|
                    0 <= j < n ==> ((#[trigger] picked@[j]) <==> (j == i || row_buf@.contains(
                        j as usize,
                    ))),
                forall|s: int| 0 <= s < slot ==> (#[trigger] row_buf@[s]) < n && row_buf@[s] != i,
                row_buf@.no_duplicates(),
                forall|s: int, t2: int|
                    0 <= s < t2 < slot ==> self.key_lt(
                        i as int,
                        row_buf@[s] as int,
                        row_buf@[t2] as int,
                    ),
                forall|s: int, j: int|
                    0 <= s < slot && 0 <= j < n && !(#[trigger] picked@[j]) ==> self.key_lt(
                        i as int,
                        (#[trigger] row_buf@[s]) as int,
                        j,
                    ),
            decreases k - slot,
        {
            proof {
                broadcast use vstd::seq_lib::lemma_seq_contains_after_push;

                let s = row_buf@.push(i);
                assert(forall|q: int| 0 <= q < row_buf@.len() ==> #[trigger] row_buf@[q] != i);
                assert(forall|q1: int, q2: int|
                    0 <= q1 < s.len() && 0 <= q2 < s.len() && q1 != q2 ==> s[q1] != s[q2]);
                assert(s.no_duplicates());
                assert(forall|q: int| 0 <= q < s.len() ==> (#[trigger] s[q]) < n);
                crate::mmas::ant::lemma_distinct_bounded_len(s, n as int);
                let j0 = choose|j: int| 0 <= j < n && !(#[trigger] s.contains(j as usize));
                assert(!picked@[j0]);
                assert(exists|j: int| 0 <= j < n && !(#[trigger] picked@[j]));
            }
            let mut best: usize = 0;
            let mut found = false;
            let mut j: usize = 0;
            while j < n
                invariant
                    self.wf(),
                    i < n,
                    n == self.spec_dim(),
                    picked@.len() == n,
                    j <= n,
                    !found ==> forall|q: int| 0 <= q < j ==> #[trigger] picked@[q],
                    found ==> (best as int) < j && !picked@[best as int],
                    found ==> forall|q: int|
                        0 <= q < j && !(#[trigger] picked@[q]) && q != best ==> self.key_lt(
                            i as int,
                            best as int,
                            q,
                        ),
                decreases n - j,
            {
                if !picked[j] {
                    if !found {
                        best = j;
                        found = true;
                    } else {
                        let dj = self.instance.distance(i, j);
                        let db = self.instance.distance(i, best);
                        if dj < db {
                            best = j;
                        }
                    }
                }
                j = j + 1;
            }
            proof {
                assert(found);
            }
            let ghost picked_pre = picked@;
            let ghost row_pre = row_buf@;
            row_buf.push(best);
            picked[best] = true;
            proof {
                broadcast use vstd::seq_lib::lemma_seq_contains_after_push;

                assert(row_buf@ == row_pre.push(best));
                assert(picked@ == picked_pre.update(best as int, true));
                assert forall|j2: int|
                    0 <= j2 < n implies ((#[trigger] picked@[j2]) <==> (j2 == i
                    || row_buf@.contains(j2 as usize))) by {
                    if j2 == best {
                        assert(row_buf@.contains(best));
                    } else {
                        assert(picked@[j2] == picked_pre[j2]);
                        assert(row_buf@.contains(j2 as usize) == row_pre.contains(j2 as usize));
                    }
                }
                assert forall|s: int, j2: int|
                    0 <= s < row_buf@.len() && 0 <= j2 < n && !(#[trigger] picked@[j2]) implies self.key_lt(
                    i as int,
                    (#[trigger] row_buf@[s]) as int,
                    j2,
                ) by {
                    assert(!picked_pre[j2]);
                    assert(j2 != best);
                    if s < row_pre.len() {
                        assert(self.key_lt(i as int, row_pre[s] as int, j2));
                    } else {
                        assert(row_buf@[s] == best);
                        assert(self.key_lt(i as int, best as int, j2));
                    }
                }
                assert forall|s: int, t2: int|
                    0 <= s < t2 < row_buf@.len() implies self.key_lt(
                    i as int,
                    row_buf@[s] as int,
                    row_buf@[t2] as int,
                ) by {
                    if t2 == row_pre.len() {
                        assert(!picked_pre[best as int]);
                        assert(self.key_lt(i as int, row_pre[s] as int, best as int));
                    }
                }
            }
            slot = slot + 1;
        }
        proof {
            assert forall|j: int|
                0 <= j < n && j != i && !(#[trigger] row_buf@.contains(j as usize))
                    && row_buf@.len() >= 1 implies self.key_lt(
                i as int,
                row_buf@[row_buf@.len() - 1] as int,
                j,
            ) by {
                assert(!picked@[j]);
                assert(self.key_lt(i as int, row_buf@[row_buf@.len() - 1] as int, j));
            }
        }
        row_buf
    }

    /// Builds one tour greedily: from each node walk to the first unvisited
    /// candidate, scanning all unvisited nodes for the nearest one (first
    /// match wins) once the candidate list is exhausted.  Used once, before
    /// the iteration loop, to seed the pheromone bounds.
    fn create_heuristic_solution(&self, position: Position) -> (r: Ant)
        requires
            self.wf(),
            self.nn_ok(),
            self.spec_dim() >= 1,
            position == Position::Origin,
        ensures
            r.wf(self.spec_dim()),
            r.tour().len() == self.spec_dim(),
            r.tour()[0] == 0,
            r.spec_cost() == u64::MAX,
            self.is_greedy_tour(r.tour()),
            forall|j: int| 0 <= j < self.spec_dim() ==> #[trigger] r.tour().contains(j as usize),
            forall|j: int| 0 <= j < self.spec_dim() ==> #[trigger] r.flags()[j],
    {
        let n = self.instance.dimension();
        let k = self.nn.cols();
        let mut ant = Ant::default();
        ant.initialize(n);
        let current_node: usize = match position {
            Position::Origin => 0,
            Position::Random => vstd::pervasive::unreached(),
        };
        let mut current_node = current_node;
        ant.visit(current_node);
        let mut step: usize = 1;
        while step < n
            invariant
                self.wf(),
                self.nn_ok(),
                n == self.spec_dim(),
                k == self.spec_k(),
                1 <= step <= n,
                ant.wf(n as int),
                ant.tour().len() == step,
                ant.tour()[0] == 0,
                ant.spec_cost() == u64::MAX,
                current_node == ant.tour().last(),
                (current_node as int) < n,
                forall|t: int| 1 <= t < step ==> #[trigger] self.is_greedy_step(ant.tour(), t),
            decreases n - step,
        {
            let mut next_node = current_node;
            let mut found = false;
            let mut s: usize = 0;
            while s < k && !found
                invariant
                    self.wf(),
                    self.nn_ok(),
                    n == self.spec_dim(),
                    k == self.spec_k(),
                    ant.wf(n as int),
                    (current_node as int) < n,
                    s <= k,
                    !found ==> forall|s2: int|
                        0 <= s2 < s ==> ant.flags()[#[trigger] self.nn_entry(
                            current_node as int,
                            s2,
                        )],
                    found ==> (next_node as int) < n && !ant.flags()[next_node as int]
                        && self.is_first_unvisited_candidate(
                        ant.flags(),
                        current_node as int,
                        next_node as int,
                    ),
                decreases k - s,
            {
                proof {
                    crate::matrix::lemma_row_major_bounds(
                        n as int,
                        k as int,
                        current_node as int,
                        s as int,
                    );
                    assert(self.nn_row_ok(current_node as int));
                }
                let cand = self.nn.get(current_node, s);
                proof {
                    assert(cand as int == self.nn_entry(current_node as int, s as int));
                    assert(0 <= (cand as int) < n);
                }
                if !ant.is_visited(cand) {
                    next_node = cand;
                    found = true;
                    proof {
                        assert(self.is_first_unvisited_candidate(
                            ant.flags(),
                            current_node as int,
                            next_node as int,
                        )) by {
                            assert(self.nn_entry(current_node as int, s as int)
                                == next_node as int);
                        }
                    }
                }
                s = s + 1;
            }
            if !found {
                proof {
                    crate::mmas::ant::lemma_incomplete_tour_has_unvisited(ant, n as int);
                }
                let mut best: usize = 0;
                let mut best_d: u64 = 0;
                let mut fmin = false;
                let mut j: usize = 0;
                while j < n
                    invariant
                        self.wf(),
                        n == self.spec_dim(),
                        ant.wf(n as int),
                        (current_node as int) < n,
                        j <= n,
                        exists|t: int| 0 <= t < n && !(#[trigger] ant.flags()[t]),
                        !fmin ==> forall|t: int| 0 <= t < j ==> #[trigger] ant.flags()[t],
                        fmin ==> {
                            &&& (best as int) < j
                            &&& !ant.flags()[best as int]
                            &&& best_d as int == self.spec_instance().dist(
                                current_node as int,
                                best as int,
                            )
                            &&& forall|t: int|
                                0 <= t < j && !ant.flags()[t] ==> (best_d as int)
                                    <= #[trigger] self.spec_instance().dist(current_node as int, t)
                            &&& forall|t: int|
                                0 <= t < best && !ant.flags()[t] ==> (best_d as int)
                                    < #[trigger] self.spec_instance().dist(current_node as int, t)
                        },
                    decreases n - j,
                {
                    if !ant.is_visited(j) {
                        let d = self.instance.distance(current_node, j);
                        if !fmin {
                            best = j;
                            best_d = d;
                            fmin = true;
                        } else if d < best_d {
                            best = j;
                            best_d = d;
                        }
                    }
                    j = j + 1;
                }
                proof {
                    assert(fmin);
                    assert(self.is_nearest_unvisited(
                        ant.flags(),
                        current_node as int,
                        best as int,
                    ));
                }
                next_node = best;
            }
            let ghost tour_pre = ant.tour();
            let ghost flags_pre = ant.flags();
            let ghost had_candidate = found;
            ant.visit(next_node);
            proof {
                assert(ant.tour()[0] == tour_pre[0]);
                let nt = ant.tour();
                assert(nt.subrange(0, step as int) =~= tour_pre);
                assert(prefix_flags(nt, step as int, n as int) =~= flags_pre);
                assert(self.is_greedy_step(nt, step as int)) by {
                    assert(nt[step as int] == next_node);
                    assert(nt[step - 1] == current_node);
                    if had_candidate {
                        assert(self.is_first_unvisited_candidate(
                            flags_pre,
                            current_node as int,
                            next_node as int,
                        ));
                    } else {
                        assert(forall|s2: int|
                            0 <= s2 < k ==> flags_pre[#[trigger] self.nn_entry(
                                current_node as int,
                                s2,
                            )]);
                    }
                }
                assert forall|t: int| 1 <= t < step + 1 implies #[trigger] self.is_greedy_step(
                    nt,
                    t,
                ) by {
                    if t < step {
                        assert(self.is_greedy_step(tour_pre, t));
                        assert(nt.subrange(0, t) =~= tour_pre.subrange(0, t));
                        assert(prefix_flags(nt, t, n as int) =~= prefix_flags(
                            tour_pre,
                            t,
                            n as int,
                        ));
                        assert(nt[t - 1] == tour_pre[t - 1]);
                        assert(nt[t] == tour_pre[t]);
                    }
                }
            }
            current_node = next_node;
            step = step + 1;
        }
        proof {
            crate::mmas::ant::lemma_complete_tour_is_permutation(ant, n as int);
        }
        ant
    }

    /// Advances one ant by a single step: pheromone-weighted roulette
    /// selection among the unvisited candidates of the current node, with a
    /// greedy best-weight fallback once the candidate list is exhausted.
    #[verifier::rlimit(30)]
    fn move_ant(
        &self,
        ant: &mut Ant,
        heuristic_information: &Matrix<u64>,
        pheromone_nw: &PheromoneNetwork,
        rng: &mut rand::rngs::StdRng,
    ) -> (r: Result<(), TspError>)
        requires
            self.wf(),
            self.nn_ok(),
            old(ant).wf(self.spec_dim()),
            1 <= old(ant).tour().len() < self.spec_dim(),
            heuristic_information.dims(self.spec_dim(), self.spec_dim()),
            forall|t: int|
                0 <= t < heuristic_information.spec_data().len() ==> (
                #[trigger] heuristic_information.spec_data()[t]) <= SCALE,
            pheromone_nw.ready() ==> pheromone_nw.square(self.spec_dim()) && (forall|t: int|
                0 <= t < pheromone_nw.entries().len() ==> (#[trigger] pheromone_nw.entries()[t])
                    as int <= (SCALE as int) * (SCALE as int)),
        ensures
            r is Ok <==> pheromone_nw.ready(),
            r is Err ==> r == Err::<(), TspError>(TspError::NotReady) && *final(ant) == *old(ant),
            r is Ok ==> {
                let n = self.spec_dim();
                let chosen = final(ant).tour().last();
                let current = old(ant).tour().last();
                &&& final(ant).tour() == old(ant).tour().push(chosen)
                &&& (chosen as int) < n
                &&& !old(ant).flags()[chosen as int]
                &&& chosen != current
                &&& final(ant).flags() == old(ant).flags().update(chosen as int, true)
                &&& final(ant).spec_cost() == old(ant).spec_cost()
                &&& final(ant).wf(n)
                &&& ((forall|s: int|
                    0 <= s < self.spec_k() ==> old(ant).flags()[#[trigger] self.nn_entry(
                        current as int,
                        s,
                    )]) ==> is_fallback_choice(
                    *pheromone_nw,
                    *heuristic_information,
                    old(ant).flags(),
                    current as int,
                    n,
                    chosen as int,
                ))
                &&& ((exists|s: int|
                    0 <= s < self.spec_k() && !old(ant).flags()[#[trigger] self.nn_entry(
                        current as int,
                        s,
                    )]) ==> (exists|s: int|
                    0 <= s < self.spec_k() && self.nn_entry(current as int, s) == chosen as int))
                &&& {
                    let cands = self.row_seq(current as int).filter(
                        unvisited_pred(old(ant).flags()),
                    );
                    let total = cum_weight(
                        *pheromone_nw,
                        *heuristic_information,
                        current as int,
                        cands,
                        cands.len() as int,
                        n,
                    );
                    cands.len() > 0 ==> if total <= 0 {
                        chosen == cands.last()
                    } else {
                        exists|draw: int, i: int| #[trigger] roulette_picks(
                            *pheromone_nw,
                            *heuristic_information,
                            current as int,
                            cands,
                            n,
                            draw,
                            i,
                            chosen,
                        )
                    }
                }
            },
    {
        let n = self.instance.dimension();
        let pm = match pheromone_nw.pheromone_matrix() {
            Ok(pm) => pm,
            Err(e) => {
                return Err(e);
            },
        };
        let len = ant.visited().len();
        let current = ant.visited()[len - 1];
        proof {
            assert(old(ant).tour().contains(current));
            assert(old(ant).flags()[current as int]);
        }
        let k = self.nn.cols();
        let ghost pred = unvisited_pred(old(ant).flags());
        let ghost rseq = self.row_seq(current as int);
        let mut cand: Vec<usize> = Vec::new();
        let mut s: usize = 0;
        proof {
            reveal_with_fuel(Seq::<usize>::filter, 1);
            assert(rseq.subrange(0, 0) =~= Seq::<usize>::empty());
            assert(rseq.subrange(0, 0).filter(pred) =~= Seq::<usize>::empty());
        }
        while s < k
            invariant
                self.wf(),
                self.nn_ok(),
                ant.wf(self.spec_dim()),
                *ant == *old(ant),
                n == self.spec_dim(),
                k == self.spec_k(),
                (current as int) < n,
                current == old(ant).tour().last(),
                s <= k,
                cand@.len() <= s,
                pred == unvisited_pred(old(ant).flags()),
                rseq == self.row_seq(current as int),
                cand@ == rseq.subrange(0, s as int).filter(pred),
                forall|q: int|
                    0 <= q < cand@.len() ==> (exists|s2: int|
                        0 <= s2 < s && self.nn_entry(current as int, s2) == (#[trigger] cand@[q])
                            as int) && !ant.flags()[cand@[q] as int] && (cand@[q] as int) < n,
                cand@.len() == 0 ==> forall|s2: int|
                    0 <= s2 < s ==> ant.flags()[#[trigger] self.nn_entry(current as int, s2)],
            decreases k - s,
        {
            proof {
                crate::matrix::lemma_row_major_bounds(n as int, k as int, current as int, s as int);
                assert(self.nn_row_ok(current as int));
            }
            let node = self.nn.get(current, s);
            proof {
                assert(node as int == self.nn_entry(current as int, s as int));
                assert(0 <= (node as int) < n);
                let pre = rseq.subrange(0, s as int);
                let post = rseq.subrange(0, s + 1);
                assert(post =~= pre + seq![node]);
                Seq::<usize>::filter_distributes_over_add(pre, seq![node], pred);
                assert(seq![node].filter(pred) == if pred(node) {
                    seq![node]
                } else {
                    Seq::<usize>::empty()
                }) by {
                    reveal_with_fuel(Seq::<usize>::filter, 2);
                    assert(seq![node].drop_last() =~= Seq::<usize>::empty());
                    assert(seq![node].last() == node);
                    assert(Seq::<usize>::empty().filter(pred) =~= Seq::<usize>::empty());
                    if pred(node) {
                        assert(seq![node].filter(pred) =~= seq![node]);
                    } else {
                        assert(seq![node].filter(pred) =~= Seq::<usize>::empty());
                    }
                }
                if pred(node) {
                    assert(cand@ + seq![node] =~= cand@.push(node));
                    assert(post.filter(pred) == cand@.push(node));
                } else {
                    assert(cand@ + Seq::<usize>::empty() =~= cand@);
                    assert(post.filter(pred) == cand@);
                }
            }
            if !ant.is_visited(node) {
                cand.push(node);
            }
            s = s + 1;
        }
        let ghost cands = rseq.filter(pred);
        proof {
            assert(rseq.subrange(0, k as int) =~= rseq);
            assert(cand@ == cands);
        }
        if cand.len() > 0 {
            let mut cum: Vec<u64> = Vec::new();
            let mut total: u64 = 0;
            let mut q: usize = 0;
            while q < cand.len()
                invariant
                    self.wf(),
                    n == self.spec_dim(),
                    (current as int) < n,
                    pheromone_nw.ready(),
                    pheromone_nw.square(n as int),
                    *pm == pheromone_nw.spec_matrix().unwrap(),
                    forall|t: int|
                        0 <= t < pheromone_nw.entries().len() ==> (
                        #[trigger] pheromone_nw.entries()[t]) as int <= (SCALE as int) * (SCALE
                            as int),
                    heuristic_information.dims(n as int, n as int),
                    forall|t: int|
                        0 <= t < heuristic_information.spec_data().len() ==> (
                        #[trigger] heuristic_information.spec_data()[t]) <= SCALE,
                    forall|t: int| 0 <= t < cand@.len() ==> (#[trigger] cand@[t] as int) < n,
                    q <= cand@.len(),
                    cand@.len() <= n,
                    cum@.len() == q,
                    total as int <= (q as int) * ((SCALE as int) * (SCALE as int)),
                    q > 0 ==> cum@[q - 1] == total,
                    cand@ == cands,
                    total as int == cum_weight(
                        *pheromone_nw,
                        *heuristic_information,
                        current as int,
                        cands,
                        q as int,
                        n as int,
                    ),
                    forall|i: int|
                        0 <= i < q ==> (#[trigger] cum@[i]) as int == cum_weight(
                            *pheromone_nw,
                            *heuristic_information,
                            current as int,
                            cands,
                            i + 1,
                            n as int,
                        ),
                decreases cand@.len() - q,
            {
                let node = cand[q];
                proof {
                    crate::matrix::lemma_row_major_bounds(
                        n as int,
                        n as int,
                        current as int,
                        node as int,
                    );
                }
                let tau = pm.get(current, node);
                let hv = heuristic_information.get(current, node);
                proof {
                    let idx = (current as int) * (n as int) + (node as int);
                    assert(tau == pheromone_nw.entries()[idx]);
                    assert(hv == heuristic_information.spec_data()[idx]);
                    lemma_fp_mul_le(tau as int, hv as int);
                    assert((q as int + 1) * ((SCALE as int) * (SCALE as int)) == (q as int) * ((
                    SCALE as int) * (SCALE as int)) + (SCALE as int) * (SCALE as int))
                        by (nonlinear_arith);
                    assert((q as int) * ((SCALE as int) * (SCALE as int)) <= 65535 * ((SCALE
                        as int) * (SCALE as int))) by (nonlinear_arith)
                        requires 0 <= q <= 65535;
                }
                let w = fp_mul_exec(tau, hv);
                proof {
                    assert(w as int == spec_weight(
                        *pheromone_nw,
                        *heuristic_information,
                        current as int,
                        node as int,
                        n as int,
                    ));
                }
                total = total + w;
                cum.push(total);
                q = q + 1;
            }
            let mut sel: usize = cand.len() - 1;
            if total > 0 {
                let draw = crate::rng::rand_below(rng, total);
                let mut idx: usize = 0;
                let mut done = false;
                while idx < cand.len() && !done
                    invariant
                        cand@.len() == cum@.len(),
                        cand@.len() >= 1,
                        idx <= cand@.len(),
                        cand@ == cands,
                        draw < total,
                        total as int == cum_weight(
                            *pheromone_nw,
                            *heuristic_information,
                            current as int,
                            cands,
                            cands.len() as int,
                            n as int,
                        ),
                        forall|i: int|
                            0 <= i < cum@.len() ==> (#[trigger] cum@[i]) as int == cum_weight(
                                *pheromone_nw,
                                *heuristic_information,
                                current as int,
                                cands,
                                i + 1,
                                n as int,
                            ),
                        (sel as int) < cand@.len(),
                        done ==> draw < cum@[sel as int] && (forall|j: int|
                            0 <= j < sel ==> #[trigger] cum@[j] <= draw),
                        !done ==> sel as int == cand@.len() - 1 && (forall|j: int|
                            0 <= j < idx ==> #[trigger] cum@[j] <= draw),
                    decreases cand@.len() - idx,
                {
                    if draw < cum[idx] {
                        if !done {
                            sel = idx;
                        }
                        done = true;
                    }
                    idx = idx + 1;
                }
                proof {
                    if !done {
                        assert(cum@[cand@.len() - 1] <= draw);
                        assert(false);
                    }
                    assert(draw < cum@[sel as int]);
                    assert(roulette_picks(
                        *pheromone_nw,
                        *heuristic_information,
                        current as int,
                        cands,
                        n as int,
                        draw as int,
                        sel as int,
                        cand@[sel as int],
                    )) by {
                        assert((draw as int) < cum_weight(
                            *pheromone_nw,
                            *heuristic_information,
                            current as int,
                            cands,
                            (sel as int) + 1,
                            n as int,
                        ));
                        assert forall|j: int|
                            0 <= j < sel implies #[trigger] cum_weight(
                            *pheromone_nw,
                            *heuristic_information,
                            current as int,
                            cands,
                            j + 1,
                            n as int,
                        ) <= draw as int by {
                            assert(cum@[j] <= draw);
                            assert((cum@[j]) as int == cum_weight(
                                *pheromone_nw,
                                *heuristic_information,
                                current as int,
                                cands,
                                j + 1,
                                n as int,
                            ));
                        }
                    }
                }
            }
            let chosen = cand[sel];
            proof {
                assert(cand@.contains(cand@[sel as int]));
                assert(!ant.flags()[chosen as int]);
                if total > 0 {
                    assert(exists|draw: int, i: int| #[trigger] roulette_picks(
                        *pheromone_nw,
                        *heuristic_information,
                        current as int,
                        cands,
                        n as int,
                        draw,
                        i,
                        chosen,
                    ));
                } else {
                    assert(chosen == cands.last());
                }
            }
            ant.visit(chosen);
            Ok(())
        } else {
            proof {
                crate::mmas::ant::lemma_incomplete_tour_has_unvisited(*ant, n as int);
            }
            let mut best: usize = 0;
            let mut best_w: u64 = 0;
            let mut found = false;
            let mut j: usize = 0;
            while j < n
                invariant
                    self.wf(),
                    n == self.spec_dim(),
                    ant.wf(n as int),
                    *ant == *old(ant),
                    (current as int) < n,
                    pheromone_nw.ready(),
                    pheromone_nw.square(n as int),
                    *pm == pheromone_nw.spec_matrix().unwrap(),
                    forall|t: int|
                        0 <= t < pheromone_nw.entries().len() ==> (
                        #[trigger] pheromone_nw.entries()[t]) as int <= (SCALE as int) * (SCALE
                            as int),
                    heuristic_information.dims(n as int, n as int),
                    forall|t: int|
                        0 <= t < heuristic_information.spec_data().len() ==> (
                        #[trigger] heuristic_information.spec_data()[t]) <= SCALE,
                    j <= n,
                    !found ==> forall|t: int| 0 <= t < j ==> ant.flags()[t],
                    found ==> {
                        &&& (best as int) < j
                        &&& !ant.flags()[best as int]
                        &&& best_w as int == spec_weight(
                            *pheromone_nw,
                            *heuristic_information,
                            current as int,
                            best as int,
                            n as int,
                        )
                        &&& forall|t: int|
                            0 <= t < j && !ant.flags()[t] ==> #[trigger] spec_weight(
                                *pheromone_nw,
                                *heuristic_information,
                                current as int,
                                t,
                                n as int,
                            ) <= best_w as int
                        &&& forall|t: int|
                            0 <= t < best && !ant.flags()[t] ==> #[trigger] spec_weight(
                                *pheromone_nw,
                                *heuristic_information,
                                current as int,
                                t,
                                n as int,
                            ) < best_w as int
                    },
                decreases n - j,
            {
                if !ant.is_visited(j) {
                    proof {
                        crate::matrix::lemma_row_major_bounds(
                            n as int,
                            n as int,
                            current as int,
                            j as int,
                        );
                    }
                    let tau = pm.get(current, j);
                    let hv = heuristic_information.get(current, j);
                    proof {
                        lemma_fp_mul_le(tau as int, hv as int);
                    }
                    let w = fp_mul_exec(tau, hv);
                    if !found {
                        best = j;
                        best_w = w;
                        found = true;
                    } else if w > best_w {
                        best = j;
                        best_w = w;
                    }
                }
                j = j + 1;
            }
            proof {
                assert(found);
            }
            ant.visit(best);
            Ok(())
        }
    }

    /// Precomputes the heuristic information 1 / d^beta for every edge.
    fn build_heuristic_information(&self) -> (h: Matrix<u64>)
        requires
            self.wf(),
        ensures
            h.dims(self.spec_dim(), self.spec_dim()),
            h.spec_data().len() == self.spec_instance().spec_matrix().spec_data().len(),
            forall|t: int|
                0 <= t < h.spec_data().len() ==> (#[trigger] h.spec_data()[t]) as int
                    == spec_heuristic(
                    self.spec_instance().spec_matrix().spec_data()[t] as int,
                    self.spec_parameters().spec_beta() as nat,
                ) && h.spec_data()[t] <= SCALE,
    {
        let n = self.instance.dimension();
        let beta = self.parameters.beta;
        proof {
            assert(n * n <= 65535 * 65535) by (nonlinear_arith)
                requires n <= 65535;
        }
        let mut h = Matrix::new((n, n), 0u64);
        let data = self.instance.distance_data();
        let len = data.len();
        proof {
            assert(h.spec_data().len() == len);
        }
        let mut t: usize = 0;
        while t < len
            invariant
                len == h.spec_data().len(),
                len == data@.len(),
                data@ == self.spec_instance().spec_matrix().spec_data(),
                h.spec_cols() == n,
                t <= len,
                forall|q: int|
                    0 <= q < t ==> (#[trigger] h.spec_data()[q]) as int == spec_heuristic(
                        data@[q] as int,
                        beta as nat,
                    ) && h.spec_data()[q] <= SCALE,
            decreases len - t,
        {
            let v = heuristic_value(data[t], beta);
            h.set_flat(t, v);
            t = t + 1;
        }
        h
    }

    /// Builds the candidate matrix: each node's row lists its nearest
    /// neighbors by ascending distance, excluding the node itself.
    pub fn initialize_nn_matrix(&mut self)
        requires
            old(self).wf(),
        ensures
            final(self).wf(),
            final(self).spec_instance() == old(self).spec_instance(),
            final(self).spec_parameters() == old(self).spec_parameters(),
            final(self).nn_ok(),
    {
        let n = self.instance.dimension();
        let k = self.nn.cols();
        let mut i: usize = 0;
        while i < n
            invariant
                self.wf(),
                n == self.spec_dim(),
                k == self.spec_k(),
                self.spec_instance() == old(self).spec_instance(),
                self.spec_parameters() == old(self).spec_parameters(),
                i <= n,
                forall|r: int| 0 <= r < i ==> #[trigger] self.nn_row_ok(r),
            decreases n - i,
        {
            let row_buf = self.build_candidate_row(i);
            let ghost pre = *self;
            proof {
                if k >= 1 {
                    crate::matrix::lemma_row_major_bounds(n as int, k as int, i as int, k - 1);
                } else {
                    assert((i as int) * (k as int) == 0) by (nonlinear_arith)
                        requires k == 0;
                }
            }
            self.nn.set_row(i, &row_buf);
            proof {
                assert(self.spec_k() == k);
                assert forall|s: int| 0 <= s < k implies self.nn_entry(i as int, s) == row_buf@[s] by {
                }
                assert forall|r: int| 0 <= r < i implies #[trigger] self.nn_row_ok(r) by {
                    assert(pre.nn_row_ok(r));
                    assert forall|s: int|
                        0 <= s < k implies #[trigger] self.nn_entry(r, s) == pre.nn_entry(r, s) by {
                        crate::matrix::lemma_row_major_bounds(i as int, k as int, r, s);
                        crate::matrix::lemma_row_major_bounds(n as int, k as int, r, s);
                    }
                    assert forall|j: int| #[trigger] self.nn_row_contains(r, j) == pre.nn_row_contains(
                        r,
                        j,
                    ) by {
                        if self.nn_row_contains(r, j) {
                            let s = choose|s: int|
                                0 <= s < self.spec_k() && #[trigger] self.nn_entry(r, s) == j;
                            assert(pre.nn_entry(r, s) == j);
                            assert(pre.nn_row_contains(r, j));
                        }
                        if pre.nn_row_contains(r, j) {
                            let s = choose|s: int|
                                0 <= s < pre.spec_k() && #[trigger] pre.nn_entry(r, s) == j;
                            assert(self.nn_entry(r, s) == j);
                            assert(self.nn_row_contains(r, j));
                        }
                    }
                    assert forall|s: int|
                        0 <= s < k implies 0 <= (#[trigger] self.nn_entry(r, s)) < n
                        && self.nn_entry(r, s) != r by {
                        assert(self.nn_entry(r, s) == pre.nn_entry(r, s));
                    }
                    assert forall|s: int, t: int|
                        0 <= s < t < k implies self.key_lt(
                        r,
                        self.nn_entry(r, s),
                        self.nn_entry(r, t),
                    ) by {
                        assert(self.nn_entry(r, s) == pre.nn_entry(r, s));
                        assert(self.nn_entry(r, t) == pre.nn_entry(r, t));
                        assert(pre.key_lt(r, pre.nn_entry(r, s), pre.nn_entry(r, t)));
                    }
                    assert forall|j: int|
                        0 <= j < n && j != r && !(#[trigger] self.nn_row_contains(r, j)) && k >= 1
                            implies self.key_lt(r, self.nn_entry(r, k - 1), j) by {
                        assert(!pre.nn_row_contains(r, j));
                        assert(pre.key_lt(r, pre.nn_entry(r, k - 1), j));
                        assert(self.nn_entry(r, k - 1) == pre.nn_entry(r, k - 1));
                    }
                }
                assert(self.nn_row_ok(i as int)) by {
                    assert forall|s: int|
                        0 <= s < k implies 0 <= (#[trigger] self.nn_entry(i as int, s)) < n
                        && self.nn_entry(i as int, s) != i by {
                        assert(self.nn_entry(i as int, s) == row_buf@[s] as int);
                    }
                    assert forall|s: int, t: int|
                        0 <= s < t < k implies self.key_lt(
                        i as int,
                        self.nn_entry(i as int, s),
                        self.nn_entry(i as int, t),
                    ) by {
                        assert(self.nn_entry(i as int, s) == row_buf@[s] as int);
                        assert(self.nn_entry(i as int, t) == row_buf@[t] as int);
                        assert(pre.key_lt(i as int, row_buf@[s] as int, row_buf@[t] as int));
                        assert(self.key_lt(i as int, row_buf@[s] as int, row_buf@[t] as int));
                    }
                    assert forall|j: int|
                        0 <= j < n && j != i && !(#[trigger] self.nn_row_contains(i as int, j))
                            && k >= 1 implies self.key_lt(
                        i as int,
                        self.nn_entry(i as int, k - 1),
                        j,
                    ) by {
                        assert(!row_buf@.contains(j as usize)) by {
                            if row_buf@.contains(j as usize) {
                                let s = choose|s: int|
                                    0 <= s < row_buf@.len() && #[trigger] row_buf@[s] == (
                                    j as usize);
                                assert(self.nn_entry(i as int, s) == j);
                                assert(self.nn_row_contains(i as int, j));
                            }
                        }
                        assert(self.key_lt(i as int, row_buf@[k - 1] as int, j));
                        assert(self.nn_entry(i as int, k - 1) == row_buf@[k - 1] as int);
                    }
                }
            }
            i = i + 1;
        }
    }
}

impl MMAS {
    /// Runs the MMAS loop.  One greedy tour seeds the pheromone bounds and
    /// the trail matrix starts at tau_max on every edge; each iteration
    /// then constructs a colony of tours from random start nodes, tracks
    /// the iteration best and the global best (recomputing the bounds when
    /// the global best improves), evaporates every trail and reinforces the
    /// iteration-best tour.  The stopping predicate sees a statistics
    /// snapshot after every completed iteration, and `max_iterations`
    /// bounds the run.  All randomness comes from the generator seeded with
    /// `seed`, so equal seeds give equal runs.
    ///
    /// Effective fixed-point ranges: an edge's heuristic guidance 1/d^beta
    /// truncates to zero once d^beta exceeds [`SCALE`], and the deposit
    /// reinforcement 1/cost truncates to zero once a tour costs more than
    /// [`SCALE`]; past those ranges construction degrades toward the
    /// deterministic fallbacks.  A run whose seed tour is so costly that
    /// the trail ceiling itself truncates to zero fails with
    /// [`TspError::TooLarge`]; scale edge costs so that
    /// dimension * max_edge * (1 - rho) stays within one [`SCALE`] unit
    /// and the run is proved to succeed.
    #[verifier::loop_isolation(false)]
    pub fn solve<F: Fn(&Statistics<PheromoneNetwork>) -> bool>(
        &self,
        break_condition: F,
        max_iterations: usize,
        seed: u64,
    ) -> (r: Result<Ant, TspError>)
        requires
            self.wf(),
            self.nn_ok(),
            self.spec_dim() >= 2,
            self.spec_instance().valid_distances(),
            0 < self.spec_parameters().spec_rho() < SCALE,
            0 < self.spec_parameters().spec_p_best() < SCALE,
            self.spec_parameters().spec_colony_size() >= 1,
            forall|s: &Statistics<PheromoneNetwork>| #[trigger] break_condition.requires((s,)),
        ensures
            r matches Ok(best) ==> (best.tour().len() == 0 && best.spec_cost() == u64::MAX) || (
            best.wf(self.spec_dim()) && best.tour().len() == self.spec_dim() && best.spec_cost()
                as int == self.spec_instance().spec_route_len(best.tour())
                && 1 <= best.spec_cost()),
            r matches Ok(best) ==> (best.tour().len() == self.spec_dim() ==> (forall|j: int|
                0 <= j < self.spec_dim() ==> #[trigger] best.tour().contains(j as usize)) && (
            forall|j: int| 0 <= j < self.spec_dim() ==> #[trigger] best.flags()[j])),
            r is Err ==> r == Err::<Ant, TspError>(TspError::TooLarge),
            exists|tour: Seq<usize>| #[trigger]
                self.is_greedy_tour(tour) && ((r is Err) <==> self.spec_instance().spec_route_len(
                tour,
            ) * ((SCALE as int) - (self.spec_parameters().spec_rho() as int)) > (SCALE as int) * (
            SCALE as int)),
            self.spec_dim() * self.spec_instance().max_edge() * ((SCALE as int) - (
            self.spec_parameters().spec_rho() as int)) <= (SCALE as int) * (SCALE as int) ==> r
                is Ok,
            max_iterations == 0 ==> (r matches Ok(best) ==> best.tour().len() == 0
                && best.spec_cost() == u64::MAX),
            (max_iterations >= 1 && (forall|s: &Statistics<PheromoneNetwork>, b: bool|
                call_ensures(break_condition, (s,), b) ==> !b)) ==> (r matches Ok(best)
                ==> best.tour().len() == self.spec_dim()),
    {
        let n = self.instance.dimension();
        let heuristic_solution = self.create_heuristic_solution(Position::Origin);
        proof {
            self.instance.lemma_route_cost_bounds(heuristic_solution.tour());
            assert(heuristic_solution.tour()[n - 1] != heuristic_solution.tour()[0]);
        }
        let heuristic_cost = self.instance.calculate_route_length(heuristic_solution.visited());
        proof {
            assert(1 <= heuristic_cost);
            assert(heuristic_cost as int <= (n as int) * (crate::tsplib::MAX_DISTANCE as int));
        }
        let ghost gt = heuristic_solution.tour();
        let mut pheromone_nw = PheromoneNetwork::default();
        let tau_max = pheromone::compute_tau_max(self.parameters.rho, heuristic_cost);
        let tau_min = pheromone::compute_tau_min(tau_max, self.parameters.p_best, n);
        pheromone_nw.update_pheromone_bounds(tau_max, tau_min);
        proof {
            let c = heuristic_cost as int;
            let f = (SCALE as int) - (self.spec_parameters().spec_rho() as int);
            let cap = (SCALE as int) * (SCALE as int);
            assert(self.is_greedy_tour(gt));
            assert(c * f >= 1) by (nonlinear_arith)
                requires c >= 1 && f >= 1;
            crate::fixed::lemma_div_zero_iff(cap, c * f);
            assert(tau_max == 0 <==> c * f > cap);
            if self.spec_dim() * self.spec_instance().max_edge() * f <= cap {
                self.instance.lemma_route_len_le_max_edge(gt);
                vstd::arithmetic::mul::lemma_mul_inequality(
                    c,
                    (n as int) * self.spec_instance().max_edge(),
                    f,
                );
                assert(tau_max >= 1);
            }
        }
        match pheromone_nw.initialize_pheromone_matrix((n, n)) {
            Ok(()) => {},
            Err(_) => {
                return Err(TspError::TooLarge);
            },
        }
        let heuristic_information = self.build_heuristic_information();
        let mut rng = crate::rng::rng_from_seed(seed);
        let colony_size = self.parameters.colony_size();
        let mut global_best = Ant::default();
        let mut iteration: usize = 0;
        let mut last_cost: Option<u64> = None;
        let mut statistics: Statistics<PheromoneNetwork> = Statistics::new(None, None, None);
        let mut go = true;
        while go
            invariant
                self.wf(),
                self.nn_ok(),
                n == self.spec_dim(),
                n >= 2,
                self.spec_instance().valid_distances(),
                0 < self.spec_parameters().spec_rho() < SCALE,
                0 < self.spec_parameters().spec_p_best() < SCALE,
                colony_size == self.spec_parameters().spec_colony_size(),
                colony_size >= 1,
                forall|s: &Statistics<PheromoneNetwork>| #[trigger] break_condition.requires(
                    (s,),
                ),
                pheromone_nw.ready(),
                pheromone_nw.square(n as int),
                pheromone_nw.spec_tau_min() <= pheromone_nw.spec_tau_max(),
                pheromone_nw.spec_tau_max() as int <= (SCALE as int) * (SCALE as int),
                forall|t: int|
                    0 <= t < pheromone_nw.entries().len() ==> (
                    #[trigger] pheromone_nw.entries()[t]) as int <= (SCALE as int) * (SCALE
                        as int),
                heuristic_information.dims(n as int, n as int),
                forall|t: int|
                    0 <= t < heuristic_information.spec_data().len() ==> (
                    #[trigger] heuristic_information.spec_data()[t]) <= SCALE,
                iteration <= max_iterations,
                (global_best.tour().len() == 0 && global_best.spec_cost() == u64::MAX) || (
                global_best.wf(n as int) && global_best.tour().len() == n && global_best.spec_cost()
                    as int == self.spec_instance().spec_route_len(global_best.tour()) && 1
                    <= global_best.spec_cost() && (global_best.spec_cost() as int) < u64::MAX),
                iteration == 0 ==> global_best.tour().len() == 0 && global_best.spec_cost()
                    == u64::MAX,
                iteration >= 1 ==> global_best.wf(n as int) && global_best.tour().len() == n,
                !go ==> iteration >= max_iterations || (exists|s: Statistics<PheromoneNetwork>|
                    call_ensures(break_condition, (&s,), true)),
            decreases max_iterations - iteration, (if go { 1int } else { 0int }),
        {
            if iteration >= max_iterations {
                go = false;
            } else {
                let stop = break_condition(&statistics);
                if stop {
                    proof {
                        assert(call_ensures(break_condition, (&statistics,), true));
                        assert(exists|s: Statistics<PheromoneNetwork>|
                            call_ensures(break_condition, (&s,), true));
                    }
                    go = false;
                } else {
                    let mut iteration_best = Ant::default();
                    let mut new_global_best_found = false;
            let mut a: usize = 0;
            while a < colony_size
                invariant
                    self.wf(),
                    self.nn_ok(),
                    n == self.spec_dim(),
                    n >= 2,
                    self.spec_instance().valid_distances(),
                    pheromone_nw.ready(),
                    pheromone_nw.square(n as int),
                    forall|t: int|
                        0 <= t < pheromone_nw.entries().len() ==> (
                        #[trigger] pheromone_nw.entries()[t]) as int <= (SCALE as int) * (SCALE
                            as int),
                    heuristic_information.dims(n as int, n as int),
                    forall|t: int|
                        0 <= t < heuristic_information.spec_data().len() ==> (
                        #[trigger] heuristic_information.spec_data()[t]) <= SCALE,
                    a <= colony_size,
                    a == 0 ==> iteration_best.tour().len() == 0 && iteration_best.spec_cost()
                        == u64::MAX,
                    a >= 1 ==> iteration_best.wf(n as int) && iteration_best.tour().len() == n
                        && iteration_best.spec_cost() as int == self.spec_instance().spec_route_len(
                        iteration_best.tour(),
                    ) && 1 <= iteration_best.spec_cost() && (iteration_best.spec_cost() as int) < u64::MAX,
                    (global_best.tour().len() == 0 && global_best.spec_cost() == u64::MAX) || (
                    global_best.wf(n as int) && global_best.tour().len() == n
                        && global_best.spec_cost() as int
                        == self.spec_instance().spec_route_len(global_best.tour()) && 1
                        <= global_best.spec_cost() && (global_best.spec_cost() as int)
                        < u64::MAX),
                    (a >= 1 || iteration >= 1) ==> global_best.wf(n as int)
                        && global_best.tour().len() == n,
                decreases colony_size - a,
            {
                let mut ant = Ant::default();
                ant.initialize(n);
                let start64 = crate::rng::rand_below(&mut rng, n as u64);
                let start_node = start64 as usize;
                ant.visit(start_node);
                let mut step: usize = 1;
                while step < n
                    invariant
                        self.wf(),
                        self.nn_ok(),
                        n == self.spec_dim(),
                        pheromone_nw.ready(),
                        pheromone_nw.square(n as int),
                        forall|t: int|
                            0 <= t < pheromone_nw.entries().len() ==> (
                            #[trigger] pheromone_nw.entries()[t]) as int <= (SCALE as int) * (
                            SCALE as int),
                        heuristic_information.dims(n as int, n as int),
                        forall|t: int|
                            0 <= t < heuristic_information.spec_data().len() ==> (
                            #[trigger] heuristic_information.spec_data()[t]) <= SCALE,
                        1 <= step <= n,
                        ant.wf(n as int),
                        ant.tour().len() == step,
                    decreases n - step,
                {
                    match self.move_ant(&mut ant, &heuristic_information, &pheromone_nw, &mut rng) {
                        Ok(()) => {},
                        Err(_) => {
                            proof {
                                assert(false);
                            }
                            return Err(TspError::BoundsNotSet);
                        },
                    }
                    step = step + 1;
                }
                proof {
                    self.instance.lemma_route_cost_bounds(ant.tour());
                    assert(ant.tour()[n - 1] != ant.tour()[0]);
                    assert((n as int) * (crate::tsplib::MAX_DISTANCE as int) <= 65535 * (
                    crate::tsplib::MAX_DISTANCE as int)) by (nonlinear_arith)
                        requires n <= 65535;
                }
                let cost = self.instance.calculate_route_length(ant.visited());
                ant.set_cost(cost);
                last_cost = Some(cost);
                if ant.cost() < global_best.cost() {
                    global_best = ant.clone();
                    new_global_best_found = true;
                }
                if a == 0 {
                    iteration_best = ant;
                } else if ant.cost() < iteration_best.cost() {
                    iteration_best = ant;
                }
                a = a + 1;
            }
            let ghost pn_bounds_pre = pheromone_nw;
            if new_global_best_found {
                let tau_max = pheromone::compute_tau_max(self.parameters.rho, global_best.cost());
                let tau_min = pheromone::compute_tau_min(tau_max, self.parameters.p_best, n);
                pheromone_nw.update_pheromone_bounds(tau_max, tau_min);
            }
            proof {
                assert(pheromone_nw.spec_matrix() == pn_bounds_pre.spec_matrix());
                assert(pheromone_nw.entries() == pn_bounds_pre.entries());
                assert forall|t: int|
                    0 <= t < pheromone_nw.entries().len() implies (
                #[trigger] pheromone_nw.entries()[t]) as int <= (SCALE as int) * (SCALE as int) by {
                    assert(pn_bounds_pre.entries()[t] as int <= (SCALE as int) * (SCALE as int));
                }
            }
            let ghost pn_evap_pre = pheromone_nw;
            match pheromone_nw.evaporate_from_all(self.parameters.rho) {
                Ok(()) => {},
                Err(_) => {
                    proof {
                        assert(false);
                    }
                    return Err(TspError::BoundsNotSet);
                },
            }
            proof {
                assert(pn_evap_pre.ready());
                assert(pheromone_nw.entries().len() == pn_evap_pre.entries().len());
                assert(pn_evap_pre.spec_tau_min() <= pn_evap_pre.spec_tau_max());
                assert(pn_evap_pre.spec_tau_max() as int <= (SCALE as int) * (SCALE as int));
                assert forall|t: int|
                    0 <= t < pheromone_nw.entries().len() implies (
                #[trigger] pheromone_nw.entries()[t]) as int <= (SCALE as int) * (SCALE as int) by {
                    let v = pn_evap_pre.entries()[t] as int;
                    let rv = self.spec_parameters().spec_rho() as int;
                    assert(v <= (SCALE as int) * (SCALE as int));
                    lemma_fp_mul_le(v, rv);
                    assert(pheromone_nw.entries()[t] as int
                        == crate::mmas::pheromone::spec_evaporate(
                        pn_evap_pre.spec_tau_min() as int,
                        v,
                        rv,
                    ));
                }
            }
            let amount = SCALE / iteration_best.cost();
            let ib_visited = iteration_best.visited();
            let len_ib = ib_visited.len();
            let mut prev = ib_visited[len_ib - 1];
            let symmetric = self.instance.symmetric();
            let mut idx: usize = 0;
            while idx < len_ib
                invariant
                    n == self.spec_dim(),
                    pheromone_nw.ready(),
                    pheromone_nw.square(n as int),
                    pheromone_nw.spec_tau_min() <= pheromone_nw.spec_tau_max(),
                    pheromone_nw.spec_tau_max() as int <= (SCALE as int) * (SCALE as int),
                    forall|t: int|
                        0 <= t < pheromone_nw.entries().len() ==> (
                        #[trigger] pheromone_nw.entries()[t]) as int <= (SCALE as int) * (SCALE
                            as int),
                    len_ib == ib_visited@.len(),
                    len_ib == n,
                    forall|q: int| 0 <= q < ib_visited@.len() ==> (#[trigger] ib_visited@[q]) < n,
                    (prev as int) < n,
                    idx <= len_ib,
                decreases len_ib - idx,
            {
                let node = ib_visited[idx];
                let ghost pn_pre = pheromone_nw;
                match pheromone_nw.deposit(prev, node, amount, symmetric) {
                    Ok(()) => {},
                    Err(_) => {
                        proof {
                            assert(false);
                        }
                        return Err(TspError::BoundsNotSet);
                    },
                }
                proof {
                    assert forall|t: int|
                        0 <= t < pheromone_nw.entries().len() implies (
                    #[trigger] pheromone_nw.entries()[t]) as int <= (SCALE as int) * (SCALE
                        as int) by {
                        let cols = pn_pre.spec_cols();
                        let idx_ft = (prev as int) * cols + (node as int);
                        let idx_tf = (node as int) * cols + (prev as int);
                        if t != idx_ft && !(symmetric && t == idx_tf) {
                            assert(pheromone_nw.entries()[t] == pn_pre.entries()[t]);
                        }
                    }
                }
                prev = node;
                idx = idx + 1;
            }
                    statistics = Statistics::new(Some(iteration), last_cost, None);
                    iteration = iteration + 1;
                }
            }
        }
        proof {
            let c = heuristic_cost as int;
            let f = (SCALE as int) - (self.spec_parameters().spec_rho() as int);
            let cap = (SCALE as int) * (SCALE as int);
            assert(self.is_greedy_tour(gt));
            assert(!(c * f > cap));
            if global_best.tour().len() == n as int {
                crate::mmas::ant::lemma_complete_tour_is_permutation(global_best, n as int);
            }
            if max_iterations >= 1 && (forall|s: &Statistics<PheromoneNetwork>, b: bool|
                call_ensures(break_condition, (s,), b) ==> !b) {
                if exists|s: Statistics<PheromoneNetwork>|
                    call_ensures(break_condition, (&s,), true) {
                    let s0 = choose|s: Statistics<PheromoneNetwork>|
                        call_ensures(break_condition, (&s,), true);
                    assert(!true);
                }
                assert(iteration >= max_iterations);
            }
        }
        Ok(global_best)
    }
}

/// Law: in a built candidate matrix every row is sorted ascending by
/// distance, and its first entry realizes the row's minimum distance among
/// all nodes excluding the row's own node.
pub proof fn lemma_candidate_row_nearest(m: MMAS, i: int)
    requires
        m.wf(),
        m.nn_ok(),
        0 <= i < m.spec_dim(),
        m.spec_k() >= 1,
    ensures
        forall|s: int, t: int|
            0 <= s < t < m.spec_k() ==> m.spec_instance().dist(i, #[trigger] m.nn_entry(i, s))
                <= m.spec_instance().dist(i, #[trigger] m.nn_entry(i, t)),
        forall|j: int|
            0 <= j < m.spec_dim() && j != i ==> m.spec_instance().dist(i, m.nn_entry(i, 0))
                <= #[trigger] m.spec_instance().dist(i, j),
{
    assert(m.nn_row_ok(i));
    assert forall|s: int, t: int|
        0 <= s < t < m.spec_k() implies m.spec_instance().dist(i, #[trigger] m.nn_entry(i, s))
        <= m.spec_instance().dist(i, #[trigger] m.nn_entry(i, t)) by {
        assert(m.key_lt(i, m.nn_entry(i, s), m.nn_entry(i, t)));
    }
    assert forall|j: int|
        0 <= j < m.spec_dim() && j != i implies m.spec_instance().dist(i, m.nn_entry(i, 0))
        <= #[trigger] m.spec_instance().dist(i, j) by {
        let k = m.spec_k();
        if m.nn_row_contains(i, j) {
            let s = choose|s: int| 0 <= s < k && #[trigger] m.nn_entry(i, s) == j;
            if s > 0 {
                assert(m.key_lt(i, m.nn_entry(i, 0), m.nn_entry(i, s)));
            }
        } else {
            assert(m.key_lt(i, m.nn_entry(i, k - 1), j));
            if k - 1 > 0 {
                assert(m.key_lt(i, m.nn_entry(i, 0), m.nn_entry(i, k - 1)));
            }
        }
    }
}

} // verus!
