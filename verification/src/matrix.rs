//! A dense, row-major matrix used for distances, candidate lists, heuristic
//! information and pheromone trails.
use vstd::prelude::*;

verus! {

#[derive(Clone)]
pub struct Matrix<T> {
    data: Vec<T>,
    cols: usize,
}

impl<T> Matrix<T> {
    /// The flat, row-major contents.
    pub closed spec fn spec_data(self) -> Seq<T> {
        self.data@
    }

    /// The number of columns of each row.
    pub closed spec fn spec_cols(self) -> int {
        self.cols as int
    }

    /// The entry at (row, col).
    pub open spec fn entry(self, row: int, col: int) -> T {
        self.spec_data()[row * self.spec_cols() + col]
    }

    /// The matrix consists of `rows` full rows of `cols` entries each.
    pub open spec fn dims(self, rows: int, cols: int) -> bool {
        self.spec_cols() == cols && self.spec_data().len() == rows * cols
    }

    pub fn cols(&self) -> (r: usize)
        ensures
            r == self.spec_cols(),
    {
        self.cols
    }

    pub fn data(&self) -> (r: &Vec<T>)
        ensures
            r@ == self.spec_data(),
    {
        &self.data
    }

    pub fn data_mut(&mut self) -> (r: &mut Vec<T>)
        ensures
            (*r)@ == old(self).spec_data(),
            final(self).spec_data() == (*final(r))@,
            final(self).spec_cols() == old(self).spec_cols(),
    {
        &mut self.data
    }

    pub fn len(&self) -> (r: usize)
        ensures
            r == self.spec_data().len(),
    {
        self.data.len()
    }

    pub fn row(&self, index: usize) -> (r: &[T])
        requires
            index * self.spec_cols() + self.spec_cols() <= self.spec_data().len(),
        ensures
            r@ == self.spec_data().subrange(
                index * self.spec_cols(),
                index * self.spec_cols() + self.spec_cols(),
            ),
    {
        let len = self.data.len();
        proof {
            assert(index * self.spec_cols() + self.spec_cols() <= len);
        }
        let start = index * self.cols;
        vstd::slice::slice_subrange(self.data.as_slice(), start, start + self.cols)
    }
}

impl<T: Copy> Matrix<T> {
    pub fn new(dimension: (usize, usize), default_value: T) -> (r: Self)
        requires
            dimension.0 * dimension.1 <= usize::MAX,
        ensures
            r.dims(dimension.0 as int, dimension.1 as int),
            forall|k: int|
                0 <= k < r.spec_data().len() ==> r.spec_data()[k] == default_value,
    {
        let total = dimension.0 * dimension.1;
        let mut data: Vec<T> = Vec::new();
        let mut i: usize = 0;
        while i < total
            invariant
                i <= total,
                data@.len() == i,
                forall|k: int| 0 <= k < i ==> data@[k] == default_value,
            decreases total - i,
        {
            data.push(default_value);
            i = i + 1;
        }
        Matrix { data, cols: dimension.1 }
    }

    pub fn resize(&mut self, dimension: (usize, usize), default_value: T)
        requires
            dimension.0 * dimension.1 <= usize::MAX,
        ensures
            final(self).dims(dimension.0 as int, dimension.1 as int),
            forall|k: int|
                0 <= k < final(self).spec_data().len() && k < old(self).spec_data().len()
                    ==> #[trigger] final(self).spec_data()[k] == old(self).spec_data()[k],
            forall|k: int|
                old(self).spec_data().len() <= k < final(self).spec_data().len()
                    ==> #[trigger] final(self).spec_data()[k] == default_value,
    {
        let ghost orig = self.spec_data();
        let total = dimension.0 * dimension.1;
        if self.data.len() > total {
            self.data.truncate(total);
        }
        while self.data.len() < total
            invariant
                self.data@.len() <= total,
                self.data@.len() >= orig.len() || self.data@.len() == total,
                forall|k: int|
                    0 <= k < self.data@.len() && k < orig.len()
                        ==> #[trigger] self.data@[k] == orig[k],
                forall|k: int|
                    orig.len() <= k < self.data@.len() ==> #[trigger] self.data@[k]
                        == default_value,
            decreases total - self.data@.len(),
        {
            self.data.push(default_value);
        }
        self.cols = dimension.1;
    }

    pub fn get(&self, row: usize, col: usize) -> (r: T)
        requires
            col < self.spec_cols(),
            row * self.spec_cols() + col < self.spec_data().len(),
        ensures
            r == self.entry(row as int, col as int),
    {
        let len = self.data.len();
        proof {
            assert(row * self.spec_cols() + col < len);
        }
        let idx = row * self.cols + col;
        self.data[idx]
    }

    pub fn set(&mut self, row: usize, col: usize, value: T)
        requires
            col < old(self).spec_cols(),
            row * old(self).spec_cols() + col < old(self).spec_data().len(),
        ensures
            final(self).spec_cols() == old(self).spec_cols(),
            final(self).spec_data() == old(self).spec_data().update(
                row * old(self).spec_cols() + col,
                value,
            ),
    {
        let len = self.data.len();
        proof {
            assert(row * self.spec_cols() + col < len);
        }
        let idx = row * self.cols + col;
        self.data[idx] = value;
    }
}

impl<T: Copy> Matrix<T> {
    pub fn get_flat(&self, k: usize) -> (r: T)
        requires
            k < self.spec_data().len(),
        ensures
            r == self.spec_data()[k as int],
    {
        self.data[k]
    }

    pub fn set_flat(&mut self, k: usize, value: T)
        requires
            k < old(self).spec_data().len(),
        ensures
            final(self).spec_cols() == old(self).spec_cols(),
            final(self).spec_data() == old(self).spec_data().update(k as int, value),
    {
        self.data[k] = value;
    }

    /// Overwrites row `index` with the given values, leaving every other
    /// entry untouched.
    pub fn set_row(&mut self, index: usize, row: &Vec<T>)
        requires
            row@.len() == old(self).spec_cols(),
            index * old(self).spec_cols() + old(self).spec_cols() <= old(self).spec_data().len(),
        ensures
            final(self).spec_cols() == old(self).spec_cols(),
            final(self).spec_data().len() == old(self).spec_data().len(),
            forall|c: int|
                0 <= c < old(self).spec_cols() ==> #[trigger] final(self).entry(index as int, c)
                    == row@[c],
            forall|t: int|
                0 <= t < old(self).spec_data().len() && !(index * old(self).spec_cols() <= t
                    < index * old(self).spec_cols() + old(self).spec_cols())
                    ==> #[trigger] final(self).spec_data()[t] == old(self).spec_data()[t],
    {
        let ghost orig = *self;
        let len = self.data.len();
        let cols = self.cols;
        proof {
            assert(index * self.spec_cols() + self.spec_cols() <= len);
        }
        let base = index * cols;
        let mut c: usize = 0;
        while c < cols
            invariant
                c <= cols,
                cols == self.spec_cols(),
                cols == orig.spec_cols(),
                row@.len() == cols,
                base == index * cols,
                len == self.spec_data().len(),
                base + cols <= len,
                self.spec_data().len() == orig.spec_data().len(),
                forall|t: int|
                    0 <= t < base + c && base <= t ==> #[trigger] self.spec_data()[t] == row@[t
                        - base],
                forall|t: int|
                    0 <= t < self.spec_data().len() && !(base <= t < base + c)
                        ==> #[trigger] self.spec_data()[t] == orig.spec_data()[t],
            decreases cols - c,
        {
            self.set_flat(base + c, row[c]);
            c = c + 1;
        }
    }
}

/// Distinct (row, col) positions map to distinct row-major indices.
pub proof fn lemma_row_major_injective(cols: int, r1: int, c1: int, r2: int, c2: int)
    by (nonlinear_arith)
    requires
        0 <= c1 < cols,
        0 <= c2 < cols,
        0 <= r1,
        0 <= r2,
        r1 != r2 || c1 != c2,
    ensures
        r1 * cols + c1 != r2 * cols + c2,
{
}

/// A row-major index of an in-range position is in range of the flat data.
pub proof fn lemma_row_major_bounds(rows: int, cols: int, r: int, c: int)
    by (nonlinear_arith)
    requires
        0 <= r < rows,
        0 <= c < cols,
    ensures
        0 <= r * cols + c,
        r * cols + c < rows * cols,
        r * cols + cols <= rows * cols,
{
}

} // verus!
