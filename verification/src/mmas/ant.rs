//! Tour-construction state of one ant: the sequence of visited nodes, the
//! visited flags kept consistent with it, and the accumulated tour cost.
use vstd::prelude::*;

verus! {

pub struct Ant {
    visited: Vec<usize>,
    is_visited: Vec<bool>,
    cost: u64,
}

impl Ant {
    /// The visiting order.
    pub closed spec fn tour(self) -> Seq<usize> {
        self.visited@
    }

    /// The visited-membership flags.
    pub closed spec fn flags(self) -> Seq<bool> {
        self.is_visited@
    }

    /// The accumulated tour cost.
    pub closed spec fn spec_cost(self) -> u64 {
        self.cost
    }

    /// The two representations agree, nodes are in range and never repeat.
    pub open spec fn wf(self, n: int) -> bool {
        &&& self.flags().len() == n
        &&& forall|k: int| 0 <= k < self.tour().len() ==> (#[trigger] self.tour()[k]) < n
        &&& self.tour().no_duplicates()
        &&& forall|j: int|
            0 <= j < n ==> ((#[trigger] self.flags()[j]) <==> self.tour().contains(j as usize))
    }

    pub fn new(visited: Vec<usize>, is_visited: Vec<bool>, cost: u64) -> (r: Self)
        ensures
            r.tour() == visited@,
            r.flags() == is_visited@,
            r.spec_cost() == cost,
    {
        Self { visited, is_visited, cost }
    }

    pub fn cost(&self) -> (r: u64)
        ensures
            r == self.spec_cost(),
    {
        self.cost
    }

    pub fn set_cost(&mut self, cost: u64)
        ensures
            final(self).tour() == old(self).tour(),
            final(self).flags() == old(self).flags(),
            final(self).spec_cost() == cost,
    {
        self.cost = cost;
    }

    pub fn visited(&self) -> (r: &Vec<usize>)
        ensures
            r@ == self.tour(),
    {
        &self.visited
    }

    /// Resets the ant to an empty partial tour over `dimension` nodes.
    pub fn initialize(&mut self, dimension: usize)
        ensures
            final(self).tour() == Seq::<usize>::empty(),
            final(self).flags().len() == dimension,
            forall|j: int| 0 <= j < dimension ==> !(#[trigger] final(self).flags()[j]),
            final(self).spec_cost() == old(self).spec_cost(),
            final(self).wf(dimension as int),
    {
        let ghost cost0 = self.spec_cost();
        self.visited = Vec::new();
        self.is_visited = Vec::new();
        let mut j: usize = 0;
        while j < dimension
            invariant
                self.visited@ == Seq::<usize>::empty(),
                self.is_visited@.len() == j,
                j <= dimension,
                self.spec_cost() == cost0,
                forall|t: int| 0 <= t < j ==> !(#[trigger] self.is_visited@[t]),
            decreases dimension - j,
        {
            self.is_visited.push(false);
            j = j + 1;
        }
    }

    /// Appends an unvisited node to the tour and marks it visited.
    pub fn visit(&mut self, node: usize)
        requires
            node < old(self).flags().len(),
            !old(self).flags()[node as int],
        ensures
            final(self).tour() == old(self).tour().push(node),
            final(self).flags() == old(self).flags().update(node as int, true),
            final(self).spec_cost() == old(self).spec_cost(),
            forall|n: int| old(self).wf(n) && node < n && n <= usize::MAX ==> final(self).wf(n),
    {
        self.visited.push(node);
        self.is_visited[node] = true;
        proof {
            broadcast use vstd::seq_lib::lemma_seq_contains_after_push;

            assert forall|n: int| old(self).wf(n) && node < n && n <= usize::MAX implies self.wf(n) by {
                let t0 = old(self).tour();
                let t1 = self.tour();
                assert(t1 == t0.push(node));
                assert(!t0.contains(node));
                assert(forall|k: int| 0 <= k < t0.len() ==> #[trigger] t1[k] == t0[k]);
                assert(t1[t0.len() as int] == node);
                assert forall|i: int, j: int|
                    0 <= i < t1.len() && 0 <= j < t1.len() && i != j implies t1[i] != t1[j] by {
                    assert(forall|k: int| 0 <= k < t0.len() ==> #[trigger] t0[k] != node);
                }
                assert(t1.no_duplicates());
                assert forall|j: int|
                    0 <= j < n implies ((#[trigger] self.flags()[j]) <==> t1.contains(
                    j as usize,
                )) by {
                    assert(t0.push(node).contains(j as usize) <==> (j as usize == node
                        || t0.contains(j as usize)));
                    assert(t1.contains(j as usize) == t0.push(node).contains(j as usize));
                    if j != node {
                        assert(self.flags()[j] == old(self).flags()[j]);
                    }
                }
            }
        }
    }

    pub fn is_visited(&self, node: usize) -> (r: bool)
        requires
            node < self.flags().len(),
        ensures
            r == self.flags()[node as int],
    {
        self.is_visited[node]
    }

    /// True exactly when every node has been visited.
    pub fn all_visited(&self) -> (r: bool)
        ensures
            r <==> forall|j: int| 0 <= j < self.flags().len() ==> #[trigger] self.flags()[j],
    {
        let mut j: usize = 0;
        while j < self.is_visited.len()
            invariant
                j <= self.flags().len(),
                forall|t: int| 0 <= t < j ==> #[trigger] self.flags()[t],
            decreases self.flags().len() - j,
        {
            if !self.is_visited[j] {
                return false;
            }
            j = j + 1;
        }
        true
    }
}

fn clone_plain<T: Copy>(v: &Vec<T>) -> (r: Vec<T>)
    ensures
        r@ == v@,
{
    let mut r: Vec<T> = Vec::new();
    let mut k: usize = 0;
    while k < v.len()
        invariant
            k <= v@.len(),
            r@ == v@.subrange(0, k as int),
        decreases v@.len() - k,
    {
        r.push(v[k]);
        proof {
            assert(r@ =~= v@.subrange(0, k + 1));
        }
        k = k + 1;
    }
    proof {
        assert(r@ =~= v@);
    }
    r
}

impl Clone for Ant {
    fn clone(&self) -> (r: Self)
        ensures
            r.tour() == self.tour(),
            r.flags() == self.flags(),
            r.spec_cost() == self.spec_cost(),
    {
        Ant {
            visited: clone_plain(&self.visited),
            is_visited: clone_plain(&self.is_visited),
            cost: self.cost,
        }
    }
}

impl Default for Ant {
    fn default() -> (r: Self)
        ensures
            r.tour() == Seq::<usize>::empty(),
            r.flags() == Seq::<bool>::empty(),
            r.spec_cost() == u64::MAX,
    {
        Ant { visited: Vec::new(), is_visited: Vec::new(), cost: u64::MAX }
    }
}

/// A duplicate-free sequence of nodes below `n` has at most `n` entries;
/// with exactly `n` it covers every node, with fewer it misses one.
pub proof fn lemma_distinct_bounded_len(s: Seq<usize>, n: int)
    requires
        s.no_duplicates(),
        0 <= n <= usize::MAX,
        forall|k: int| 0 <= k < s.len() ==> (#[trigger] s[k]) < n,
    ensures
        s.len() <= n,
        s.len() == n ==> forall|j: int| 0 <= j < n ==> #[trigger] s.contains(j as usize),
        s.len() < n ==> exists|j: int| 0 <= j < n && !(#[trigger] s.contains(j as usize)),
{
    let si = s.map_values(|v: usize| v as int);
    assert(si.no_duplicates()) by {
        assert(forall|i: int, j: int|
            0 <= i < si.len() && 0 <= j < si.len() && i != j ==> si[i] != si[j]);
    }
    assert(forall|j: int| #[trigger] s.contains(j as usize) && 0 <= j < n ==> si.contains(j)) by {
        assert forall|j: int| s.contains(j as usize) && 0 <= j < n implies si.contains(j) by {
            let k = choose|k: int| 0 <= k < s.len() && s[k] == (j as usize);
            assert(si[k] == j);
        }
    }
    assert(forall|j: int| #[trigger] si.contains(j) ==> 0 <= j < n && s.contains(j as usize)) by {
        assert forall|j: int| si.contains(j) implies 0 <= j < n && s.contains(j as usize) by {
            let k = choose|k: int| 0 <= k < si.len() && si[k] == j;
            assert(s[k] == (j as usize));
            assert(s.contains(j as usize));
        }
    }
    si.unique_seq_to_set();
    let range = vstd::set_lib::set_int_range(0, n);
    vstd::set_lib::lemma_int_range(0, n);
    assert(si.to_set().subset_of(range));
    vstd::set_lib::lemma_len_subset(si.to_set(), range);
    assert(s.len() <= n);
    if s.len() == n {
        vstd::set_lib::lemma_subset_equality(si.to_set(), range);
        assert forall|j: int| 0 <= j < n implies #[trigger] s.contains(j as usize) by {
            assert(range.contains(j));
            assert(si.to_set().contains(j));
            assert(si.contains(j));
        }
    }
    if s.len() < n {
        assert(exists|j: int| 0 <= j < n && !(#[trigger] s.contains(j as usize))) by {
            if forall|j: int| 0 <= j < n ==> #[trigger] s.contains(j as usize) {
                assert forall|j: int| range.contains(j) implies si.to_set().contains(j) by {
                    assert(s.contains(j as usize));
                    assert(si.contains(j));
                }
                vstd::set_lib::lemma_len_subset(range, si.to_set());
                assert(false);
            }
        }
    }
}

/// A completed ant's visited sequence is a permutation of [0, n): length n,
/// no duplicates, and every membership flag set.
pub proof fn lemma_complete_tour_is_permutation(ant: Ant, n: int)
    requires
        0 <= n <= usize::MAX,
        ant.wf(n),
        ant.tour().len() == n,
    ensures
        ant.tour().no_duplicates(),
        forall|j: int| 0 <= j < n ==> #[trigger] ant.tour().contains(j as usize),
        forall|j: int| 0 <= j < n ==> #[trigger] ant.flags()[j],
{
    lemma_distinct_bounded_len(ant.tour(), n);
}

/// While the tour is incomplete, some node is still unvisited.
pub proof fn lemma_incomplete_tour_has_unvisited(ant: Ant, n: int)
    requires
        0 <= n <= usize::MAX,
        ant.wf(n),
        ant.tour().len() < n,
    ensures
        exists|j: int| 0 <= j < n && !(#[trigger] ant.flags()[j]),
{
    lemma_distinct_bounded_len(ant.tour(), n);
    let j = choose|j: int| 0 <= j < n && !(#[trigger] ant.tour().contains(j as usize));
    assert(!ant.flags()[j]);
}

} // verus!
