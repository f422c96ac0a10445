//! The pheromone network: the bounded trail matrix together with its bound
//! parameters, bound recomputation, evaporation and bounded deposit.
//!
//! The network starts without a matrix; operations on it fail with a
//! configuration error until the bounds are set and the matrix is allocated
//! at `tau_max` for every edge.
use crate::fixed::{fp_mul, fp_mul_exec, fp_nth_root, is_fp_nth_root, lemma_fp_mul_le, SCALE};
use crate::matrix::Matrix;
use crate::TspError;
use vstd::prelude::*;

verus! {

pub struct PheromoneNetwork {
    tau_min: u64,
    tau_max: u64,
    pheromone_matrix: Option<Matrix<u64>>,
}

/// One evaporation step on a single trail: decay by `rho`, clamped at the floor.
pub open spec fn spec_evaporate(tau_min: int, v: int, rho: int) -> int {
    if fp_mul(v, rho) < tau_min {
        tau_min
    } else {
        fp_mul(v, rho)
    }
}

/// One deposit on a single trail: reinforce by `amount`, clamped at the ceiling.
pub open spec fn spec_deposit(tau_max: int, v: int, amount: int) -> int {
    if v + amount > tau_max {
        tau_max
    } else {
        v + amount
    }
}

/// The canonical MMAS upper bound: 1 / (cost * (1 - rho)), in fixed point.
pub open spec fn spec_tau_max_value(rho: int, cost: int) -> int {
    ((SCALE as int) * (SCALE as int)) / (cost * (SCALE - rho))
}

/// The canonical MMAS lower bound for a root `p` of p_best:
/// min(tau_max, tau_max * (1 - p) / ((n/2 - 1) * p)), in fixed point; when
/// the denominator vanishes the bound degenerates to tau_max.
pub open spec fn spec_tau_min_value(tau_max: int, p: int, n: int) -> int {
    let avgm1 = (n * SCALE) / 2 - SCALE;
    let den = (avgm1 * p) / (SCALE as int);
    if den == 0 {
        tau_max
    } else {
        let v = (tau_max * (SCALE - p)) / den;
        if v > tau_max {
            tau_max
        } else {
            v
        }
    }
}

impl PheromoneNetwork {
    pub closed spec fn spec_tau_min(self) -> u64 {
        self.tau_min
    }

    pub closed spec fn spec_tau_max(self) -> u64 {
        self.tau_max
    }

    pub closed spec fn spec_matrix(self) -> Option<Matrix<u64>> {
        self.pheromone_matrix
    }

    /// The matrix has been allocated; only then may trails be read or updated.
    pub open spec fn ready(self) -> bool {
        self.spec_matrix() is Some
    }

    /// The flat trail values.
    pub open spec fn entries(self) -> Seq<u64> {
        self.spec_matrix().unwrap().spec_data()
    }

    pub open spec fn spec_cols(self) -> int {
        self.spec_matrix().unwrap().spec_cols()
    }

    /// The matrix is an `n` by `n` square.
    pub open spec fn square(self, n: int) -> bool {
        self.ready() && self.spec_matrix().unwrap().dims(n, n)
    }

    /// Every trail lies within [tau_min, tau_max].
    pub open spec fn in_bounds(self) -> bool {
        forall|k: int|
            0 <= k < self.entries().len() ==> self.spec_tau_min() <= (#[trigger] self.entries()[k])
                <= self.spec_tau_max()
    }

    pub fn new(tau_min: u64, tau_max: u64, pheromone_matrix: Option<Matrix<u64>>) -> (r: Self)
        ensures
            r.spec_tau_min() == tau_min,
            r.spec_tau_max() == tau_max,
            r.spec_matrix() == pheromone_matrix,
    {
        Self { tau_min, tau_max, pheromone_matrix }
    }

    pub fn tau_min(&self) -> (r: u64)
        ensures
            r == self.spec_tau_min(),
    {
        self.tau_min
    }

    pub fn tau_max(&self) -> (r: u64)
        ensures
            r == self.spec_tau_max(),
    {
        self.tau_max
    }

    pub fn update_pheromone_bounds(&mut self, tau_max: u64, tau_min: u64)
        ensures
            final(self).spec_tau_max() == tau_max,
            final(self).spec_tau_min() == tau_min,
            final(self).spec_matrix() == old(self).spec_matrix(),
    {
        self.tau_max = tau_max;
        self.tau_min = tau_min;
    }

    /// Allocates the trail matrix with every edge at `tau_max`.  Fails when
    /// the bounds were never set or the requested shape is not square.
    pub fn initialize_pheromone_matrix(&mut self, dimension: (usize, usize)) -> (r: Result<
        (),
        TspError,
    >)
        requires
            dimension.0 <= 65535,
            dimension.1 <= 65535,
        ensures
            r is Ok <==> old(self).spec_tau_max() != 0 && dimension.0 == dimension.1,
            old(self).spec_tau_max() == 0 ==> r == Err::<(), TspError>(TspError::BoundsNotSet)
                && *final(self) == *old(self),
            old(self).spec_tau_max() != 0 && dimension.0 != dimension.1 ==> r == Err::<
                (),
                TspError,
            >(TspError::NonSquare) && *final(self) == *old(self),
            r is Ok ==> {
                &&& final(self).spec_tau_max() == old(self).spec_tau_max()
                &&& final(self).spec_tau_min() == old(self).spec_tau_min()
                &&& final(self).square(dimension.0 as int)
                &&& forall|k: int|
                    0 <= k < final(self).entries().len() ==> (#[trigger] final(self).entries()[k])
                        == old(self).spec_tau_max()
                &&& final(self).entries().len() == dimension.0 * dimension.1
                &&& (final(self).spec_tau_min() <= final(self).spec_tau_max() ==> final(self).in_bounds())
            },
    {
        if self.tau_max == 0 {
            return Err(TspError::BoundsNotSet);
        }
        if dimension.0 != dimension.1 {
            return Err(TspError::NonSquare);
        }
        proof {
            assert(dimension.0 * dimension.1 <= 65535 * 65535) by (nonlinear_arith)
                requires dimension.0 <= 65535 && dimension.1 <= 65535;
        }
        self.pheromone_matrix = Some(Matrix::new(dimension, self.tau_max));
        Ok(())
    }

    /// Decays every trail by `rho` and clamps at the floor `tau_min`.
    ///
    /// Trails inside [tau_min, tau_max] stay inside the bounds, and a matrix
    /// already resting at the floor is left unchanged.
    pub fn evaporate_from_all(&mut self, rho: u64) -> (r: Result<(), TspError>)
        requires
            0 < rho < SCALE,
        ensures
            r is Ok <==> old(self).ready(),
            !old(self).ready() ==> r == Err::<(), TspError>(TspError::NotReady) && *final(self)
                == *old(self),
            old(self).ready() ==> {
                &&& final(self).ready()
                &&& final(self).spec_tau_max() == old(self).spec_tau_max()
                &&& final(self).spec_tau_min() == old(self).spec_tau_min()
                &&& final(self).spec_cols() == old(self).spec_cols()
                &&& final(self).entries().len() == old(self).entries().len()
                &&& forall|k: int|
                    0 <= k < old(self).entries().len() ==> (#[trigger] final(self).entries()[k])
                        as int == spec_evaporate(
                        old(self).spec_tau_min() as int,
                        old(self).entries()[k] as int,
                        rho as int,
                    )
            },
            old(self).ready() && old(self).in_bounds() && old(self).spec_tau_min() <= old(
                self,
            ).spec_tau_max() ==> final(self).in_bounds(),
            old(self).ready() && (forall|k: int|
                0 <= k < old(self).entries().len() ==> (#[trigger] old(self).entries()[k]) == old(
                    self,
                ).spec_tau_min()) ==> final(self).entries() == old(self).entries(),
    {
        let taken = self.pheromone_matrix.take();
        let mut m = match taken {
            Some(m) => m,
            None => {
                return Err(TspError::NotReady);
            },
        };
        let tau_min = self.tau_min;
        let ghost orig = m.spec_data();
        let len = m.len();
        let mut k: usize = 0;
        while k < len
            invariant
                len == m.spec_data().len(),
                k <= len,
                m.spec_cols() == old(self).spec_cols(),
                orig == old(self).entries(),
                tau_min == old(self).spec_tau_min(),
                0 < rho < SCALE,
                forall|t: int|
                    0 <= t < k ==> (#[trigger] m.spec_data()[t]) as int == spec_evaporate(
                        tau_min as int,
                        orig[t] as int,
                        rho as int,
                    ),
                forall|t: int| k <= t < len ==> (#[trigger] m.spec_data()[t]) == orig[t],
            decreases len - k,
        {
            let v = m.get_flat(k);
            proof {
                lemma_fp_mul_le(v as int, rho as int);
            }
            let w = fp_mul_exec(v, rho);
            let nv = if w < tau_min {
                tau_min
            } else {
                w
            };
            m.set_flat(k, nv);
            k = k + 1;
        }
        proof {
            if forall|t: int|
                0 <= t < orig.len() ==> (#[trigger] old(self).entries()[t]) == old(
                    self,
                ).spec_tau_min() {
                assert forall|t: int| 0 <= t < orig.len() implies (#[trigger] m.spec_data()[t])
                    == orig[t] by {
                    lemma_fp_mul_le(orig[t] as int, rho as int);
                }
                assert(m.spec_data() =~= orig);
            }
            if old(self).in_bounds() && old(self).spec_tau_min() <= old(self).spec_tau_max() {
                assert forall|t: int|
                    0 <= t < orig.len() implies old(self).spec_tau_min() <= (
                    #[trigger] m.spec_data()[t]) <= old(self).spec_tau_max() by {
                    lemma_fp_mul_le(orig[t] as int, rho as int);
                }
            }
        }
        self.pheromone_matrix = Some(m);
        Ok(())
    }

    /// Reinforces the trail (from, to) by `heuristic_cost`, clamped at the
    /// ceiling `tau_max`; on a symmetric instance the mirrored edge receives
    /// the same value.  Trails inside [tau_min, tau_max] stay inside the
    /// bounds.
    pub fn deposit(
        &mut self,
        from: usize,
        to: usize,
        heuristic_cost: u64,
        symmetric: bool,
    ) -> (r: Result<(), TspError>)
        requires
            old(self).ready() ==> {
                &&& old(self).square(old(self).spec_cols())
                &&& from < old(self).spec_cols()
                &&& to < old(self).spec_cols()
            },
        ensures
            r is Ok <==> old(self).ready(),
            !old(self).ready() ==> r == Err::<(), TspError>(TspError::NotReady) && *final(self)
                == *old(self),
            old(self).ready() ==> {
                let cols = old(self).spec_cols();
                let idx_ft = from * cols + to;
                let idx_tf = to * cols + from;
                &&& final(self).ready()
                &&& final(self).spec_tau_max() == old(self).spec_tau_max()
                &&& final(self).spec_tau_min() == old(self).spec_tau_min()
                &&& final(self).spec_cols() == cols
                &&& final(self).entries().len() == old(self).entries().len()
                &&& final(self).entries()[idx_ft] as int == spec_deposit(
                    old(self).spec_tau_max() as int,
                    old(self).entries()[idx_ft] as int,
                    heuristic_cost as int,
                )
                &&& symmetric ==> final(self).entries()[idx_tf] == final(self).entries()[idx_ft]
                &&& forall|k: int|
                    0 <= k < old(self).entries().len() && k != idx_ft && !(symmetric && k == idx_tf)
                        ==> (#[trigger] final(self).entries()[k]) == old(self).entries()[k]
            },
            old(self).ready() && old(self).in_bounds() && old(self).spec_tau_min() <= old(
                self,
            ).spec_tau_max() ==> final(self).in_bounds(),
    {
        let taken = self.pheromone_matrix.take();
        let mut m = match taken {
            Some(m) => m,
            None => {
                return Err(TspError::NotReady);
            },
        };
        proof {
            crate::matrix::lemma_row_major_bounds(
                m.spec_cols(),
                m.spec_cols(),
                from as int,
                to as int,
            );
            crate::matrix::lemma_row_major_bounds(
                m.spec_cols(),
                m.spec_cols(),
                to as int,
                from as int,
            );
        }
        let v = m.get(from, to);
        let sum = if v > u64::MAX - heuristic_cost {
            u64::MAX
        } else {
            v + heuristic_cost
        };
        let nv = if sum > self.tau_max {
            self.tau_max
        } else {
            sum
        };
        m.set(from, to, nv);
        if symmetric {
            m.set(to, from, nv);
        }
        self.pheromone_matrix = Some(m);
        Ok(())
    }

    pub fn pheromone_matrix(&self) -> (r: Result<&Matrix<u64>, TspError>)
        ensures
            r is Ok <==> self.ready(),
            r matches Ok(m) ==> *m == self.spec_matrix().unwrap(),
            r is Err ==> r == Err::<&Matrix<u64>, TspError>(TspError::NotReady),
    {
        match &self.pheromone_matrix {
            Some(m) => Ok(m),
            None => Err(TspError::NotReady),
        }
    }
}

impl Default for PheromoneNetwork {
    /// The uninitialized network: no bounds, no matrix.
    fn default() -> (r: Self)
        ensures
            r.spec_tau_min() == 0,
            r.spec_tau_max() == 0,
            r.spec_matrix() is None,
    {
        Self { tau_min: 0, tau_max: 0, pheromone_matrix: None }
    }
}

/// The MMAS trail ceiling 1 / (cost * (1 - rho)), in fixed point.
pub fn compute_tau_max(rho: u64, cost: u64) -> (r: u64)
    requires
        0 < rho < SCALE,
        1 <= cost,
    ensures
        r as int == spec_tau_max_value(rho as int, cost as int),
        r as int <= (SCALE as int) * (SCALE as int),
{
    proof {
        assert((cost as int) * ((SCALE - rho) as int) <= u128::MAX) by (nonlinear_arith)
            requires cost <= u64::MAX && rho < SCALE;
        assert((cost as int) * ((SCALE - rho) as int) >= 1) by (nonlinear_arith)
            requires cost >= 1 && rho < SCALE;
        vstd::arithmetic::div_mod::lemma_div_nonincreasing(
            (SCALE as int) * (SCALE as int),
            (cost as int) * ((SCALE - rho) as int),
        );
    }
    let num: u128 = (SCALE as u128) * (SCALE as u128);
    let den: u128 = (cost as u128) * ((SCALE - rho) as u128);
    (num / den) as u64
}

/// The MMAS trail floor min(tau_max, tau_max * (1 - p) / ((n/2 - 1) * p))
/// where p is the fixed-point n-th root of p_best.  Never above tau_max.
pub fn compute_tau_min(tau_max: u64, p_best: u64, nodes: usize) -> (r: u64)
    requires
        2 <= nodes <= 65535,
        0 < p_best < SCALE,
    ensures
        exists|p: int|
            is_fp_nth_root(p, p_best as int, nodes as nat) && r as int == spec_tau_min_value(
                tau_max as int,
                p,
                nodes as int,
            ),
        r <= tau_max,
{
    let p = fp_nth_root(p_best, nodes as u64);
    proof {
        assert((nodes as int) * (SCALE as int) <= 65535 * (SCALE as int)) by (nonlinear_arith)
            requires nodes <= 65535;
        assert((nodes as int) * (SCALE as int) / 2 >= SCALE as int) by (nonlinear_arith)
            requires nodes >= 2;
    }
    let avgm1: u128 = (nodes as u128) * (SCALE as u128) / 2 - (SCALE as u128);
    proof {
        assert((avgm1 as int) * (p as int) <= 35184372088832 * (SCALE as int)) by (nonlinear_arith)
            requires avgm1 <= 35184372088832 && p <= SCALE;
    }
    let den: u128 = avgm1 * (p as u128) / (SCALE as u128);
    if den == 0 {
        return tau_max;
    }
    proof {
        assert((tau_max as int) * ((SCALE - p) as int) <= u128::MAX) by (nonlinear_arith)
            requires tau_max <= u64::MAX && p <= SCALE;
    }
    let num: u128 = (tau_max as u128) * ((SCALE - p) as u128);
    let v: u128 = num / den;
    if v > tau_max as u128 {
        tau_max
    } else {
        v as u64
    }
}

} // verus!
