//! Dense matrices.
pub mod arithmetic;
pub mod equality;
pub mod inversion;
pub mod laws;
pub mod methods;
pub mod model;
pub mod text;

use crate::linear_algebra::model::{lemma_cell_index, Grid};
use crate::scalar::{within, Sampled, Scalar};
use vstd::prelude::*;
use vstd::std_specs::iter::IteratorSpec;

verus! {

/// A dense matrix, stored row by row.
#[derive(Debug, Clone)]
pub struct Matrix<T> {
    r: usize,
    c: usize,
    arr: Vec<T>,
}

/// A row or column number that the matrix does not have.
#[derive(Debug, Clone, Copy, PartialEq, Eq)]
pub struct IndexOutOfBounds;

impl<T> View for Matrix<T> {
    type V = Grid<T>;

    closed spec fn view(&self) -> Grid<T> {
        Grid { rows: self.r as nat, cols: self.c as nat, cells: self.arr@ }
    }
}

impl<T: Scalar> Matrix<T> {
    /// The matrix holds one cell for each position of its shape.
    pub open spec fn wf(&self) -> bool {
        &&& self@.wf()
        &&& self@.rows <= usize::MAX
        &&& self@.cols <= usize::MAX
    }

    /// An `r` by `c` matrix with `val` in every cell.
    pub fn from_value(r: usize, c: usize, val: T) -> (m: Self)
        requires
            r * c <= usize::MAX,
        ensures
            m.wf(),
            m@ == Grid::filled(r as nat, c as nat, val),
    {
        let n: usize = r * c;
        let mut arr: Vec<T> = Vec::new();
        let mut k: usize = 0;
        while k < n
            invariant
                k <= n,
                arr@.len() == k,
                forall|x: int| 0 <= x < k ==> arr@[x] == val,
            decreases n - k,
        {
            arr.push(val);
            k += 1;
        }
        let m = Matrix { r, c, arr };
        assert(m@.cells =~= Grid::filled(r as nat, c as nat, val).cells);
        m
    }

    /// An `r` by `c` matrix of zeros.
    pub fn zeros(r: usize, c: usize) -> (m: Self)
        requires
            r * c <= usize::MAX,
        ensures
            m.wf(),
            m@ == Grid::<T>::zeros(r as nat, c as nat),
    {
        Self::from_value(r, c, T::zero())
    }

    /// An `r` by `c` matrix filled row by row from `values`. Where `values`
    /// runs short the cells are zero; what it holds beyond `r * c` is ignored.
    pub fn from_vec(r: usize, c: usize, values: Vec<T>) -> (m: Self)
        requires
            r * c <= usize::MAX,
        ensures
            m.wf(),
            m@ == Grid::from_values(r as nat, c as nat, values@),
    {
        let n: usize = r * c;
        let mut arr: Vec<T> = values;
        arr.truncate(n);
        while arr.len() < n
            invariant
                arr@.len() <= n,
                values@.len() <= arr@.len() || n <= arr@.len(),
                forall|x: int|
                    0 <= x < arr@.len() ==> arr@[x] == if x < values@.len() {
                        values@[x]
                    } else {
                        T::zero_value()
                    },
            decreases n - arr@.len(),
        {
            arr.push(T::zero());
        }
        let m = Matrix { r, c, arr };
        assert(m@.cells =~= Grid::from_values(r as nat, c as nat, values@).cells);
        m
    }

    /// An `r` by `c` matrix filled row by row from what `iter` gives. Where
    /// it runs short the cells are zero; of what it gives beyond `r * c`
    /// nothing is taken.
    pub fn from_iterator<I: Iterator<Item = T>>(r: usize, c: usize, iter: &mut I) -> (m: Self)
        requires
            r * c <= usize::MAX,
            I::obeys_prophetic_iter_laws(old(iter)),
        ensures
            m.wf(),
            m@ == Grid::from_values(r as nat, c as nat, I::remaining(old(iter))),
    {
        let n: usize = r * c;
        let ghost all = I::remaining(iter);
        let mut arr: Vec<T> = Vec::new();
        let mut dry = false;
        while arr.len() < n && !dry
            invariant
                arr@.len() <= n,
                I::obeys_prophetic_iter_laws(iter),
                all == arr@ + I::remaining(iter) || (dry && all == arr@),
                dry ==> all == arr@,
            decreases n - arr@.len() + if dry { 0int } else { 1int },
        {
            match iter.next() {
                Some(value) => {
                    proof {
                        assert(arr@.push(value) + I::remaining(iter) =~= all);
                    }
                    arr.push(value);
                },
                None => {
                    proof {
                        assert(arr@ + Seq::<T>::empty() =~= arr@);
                    }
                    dry = true;
                },
            }
        }
        let ghost taken = arr@;
        while arr.len() < n
            invariant
                arr@.len() <= n,
                taken.len() <= arr@.len(),
                taken.len() < n ==> taken == all,
                taken.len() <= all.len(),
                forall|x: int| 0 <= x < taken.len() ==> taken[x] == all[x],
                forall|x: int|
                    0 <= x < arr@.len() ==> arr@[x] == if x < taken.len() {
                        taken[x]
                    } else {
                        T::zero_value()
                    },
            decreases n - arr@.len(),
        {
            arr.push(T::zero());
        }
        let m = Matrix { r, c, arr };
        assert(m@.cells =~= Grid::from_values(r as nat, c as nat, all).cells);
        m
    }

    /// An `r` by `c` matrix whose cells are drawn one by one from `sampler`.
    pub fn from_distribution<F: Fn() -> T>(r: usize, c: usize, sampler: &F) -> (m: Self)
        requires
            r * c <= usize::MAX,
            call_requires(sampler, ()),
        ensures
            m.wf(),
            m@.rows == r,
            m@.cols == c,
            forall|k: int| 0 <= k < m@.cells.len() ==> call_ensures(sampler, (), #[trigger] m@.cells[k]),
    {
        let n: usize = r * c;
        let mut arr: Vec<T> = Vec::new();
        let mut k: usize = 0;
        while k < n
            invariant
                k <= n,
                arr@.len() == k,
                call_requires(sampler, ()),
                forall|x: int| 0 <= x < k ==> call_ensures(sampler, (), #[trigger] arr@[x]),
            decreases n - k,
        {
            let v = sampler();
            arr.push(v);
            k += 1;
        }
        Matrix { r, c, arr }
    }

    /// An `r` by `c` matrix whose cells are drawn evenly from `min` up to, but
    /// not including, `max`.
    pub fn random(r: usize, c: usize, min: T, max: T) -> (m: Self) where T: Sampled
        requires
            r * c <= usize::MAX,
            min.less(max),
        ensures
            m.wf(),
            m@.rows == r,
            m@.cols == c,
            forall|k: int| 0 <= k < m@.cells.len() ==> within(#[trigger] m@.cells[k], min, max),
    {
        let n: usize = r * c;
        let mut arr: Vec<T> = Vec::new();
        let mut k: usize = 0;
        while k < n
            invariant
                k <= n,
                min.less(max),
                arr@.len() == k,
                forall|x: int| 0 <= x < k ==> within(#[trigger] arr@[x], min, max),
            decreases n - k,
        {
            arr.push(T::sample_between(min, max));
            k += 1;
        }
        Matrix { r, c, arr }
    }

    /// The identity pattern: one where the row number equals the column
    /// number, zero elsewhere, also for a shape that is not square.
    pub fn identity(r: usize, c: usize) -> (m: Self)
        requires
            r * c <= usize::MAX,
        ensures
            m.wf(),
            m@ == Grid::<T>::identity(r as nat, c as nat),
    {
        let n: usize = r * c;
        let mut arr: Vec<T> = Vec::new();
        let mut k: usize = 0;
        while k < n
            invariant
                k <= n,
                n == r * c,
                arr@.len() == k,
                forall|x: int|
                    0 <= x < k ==> arr@[x] == if x / (c as int) == x % (c as int) {
                        T::one_value()
                    } else {
                        T::zero_value()
                    },
            decreases n - k,
        {
            proof {
                crate::linear_algebra::model::lemma_cell_position(r as nat, c as nat, k as int);
            }
            if k / c == k % c {
                arr.push(T::one());
            } else {
                arr.push(T::zero());
            }
            k += 1;
        }
        let m = Matrix { r, c, arr };
        assert(m@.cells =~= Grid::<T>::identity(r as nat, c as nat).cells);
        m
    }

    /// A copy of the matrix.
    pub fn copy(&self) -> (m: Self)
        ensures
            m@ == self@,
    {
        let mut arr: Vec<T> = Vec::new();
        let mut k: usize = 0;
        while k < self.arr.len()
            invariant
                k <= self.arr@.len(),
                arr@.len() == k,
                forall|x: int| 0 <= x < k ==> arr@[x] == self.arr@[x],
            decreases self.arr@.len() - k,
        {
            arr.push(self.arr[k]);
            k += 1;
        }
        assert(arr@ =~= self.arr@);
        Matrix { r: self.r, c: self.c, arr }
    }

    /// The number of rows and the number of columns.
    pub fn get_dims(&self) -> (d: (usize, usize))
        ensures
            d.0 == self@.rows,
            d.1 == self@.cols,
    {
        (self.r, self.c)
    }

    /// A matrix of the given shape over the given storage.
    pub(crate) fn from_parts(r: usize, c: usize, arr: Vec<T>) -> (m: Self)
        requires
            arr@.len() == r * c,
        ensures
            m.wf(),
            m@ == (Grid { rows: r as nat, cols: c as nat, cells: arr@ }),
    {
        Matrix { r, c, arr }
    }

    /// The number of cells.
    pub(crate) fn len(&self) -> (n: usize)
        requires
            self.wf(),
        ensures
            n == self@.cells.len(),
            n == self@.rows * self@.cols,
    {
        self.arr.len()
    }

    /// The cells, row by row.
    pub fn cells(&self) -> (s: &[T])
        ensures
            s@ == self@.cells,
    {
        self.arr.as_slice()
    }

    /// The cell at storage position `k`.
    pub(crate) fn flat(&self, k: usize) -> (v: T)
        requires
            k < self@.cells.len(),
        ensures
            v == self@.cells[k as int],
    {
        self.arr[k]
    }

    /// Puts `value` at storage position `k`.
    pub(crate) fn put_flat(&mut self, k: usize, value: T)
        requires
            k < old(self)@.cells.len(),
        ensures
            final(self)@ == (Grid {
                rows: old(self)@.rows,
                cols: old(self)@.cols,
                cells: old(self)@.cells.update(k as int, value),
            }),
    {
        self.arr.set(k, value);
    }

    /// Where the cell of a position lies in the storage.
    pub(crate) fn offset(&self, row: usize, col: usize) -> (k: usize)
        requires
            self.wf(),
            self@.in_range(row as int, col as int),
        ensures
            k == row * self@.cols + col,
            k < self@.cells.len(),
    {
        let len = self.arr.len();
        proof {
            lemma_cell_index(self.r as nat, self.c as nat, row as int, col as int);
            assert(0 <= (row as int) * (self.c as int)) by (nonlinear_arith);
        }
        row * self.c + col
    }

    /// The cell in row `row`, column `col`, counted from zero.
    pub fn get(&self, row: usize, col: usize) -> (r: Result<T, IndexOutOfBounds>)
        requires
            self.wf(),
        ensures
            r.is_ok() <==> self@.in_range(row as int, col as int),
            r matches Ok(v) ==> v == self@.at(row as int, col as int),
    {
        if row >= self.r || col >= self.c {
            return Err(IndexOutOfBounds);
        }
        let k = self.offset(row, col);
        Ok(self.arr[k])
    }

    /// Puts `value` in row `row`, column `col`; the matrix is left as it was
    /// if it has no such cell.
    pub fn set(&mut self, row: usize, col: usize, value: T) -> (r: Result<(), IndexOutOfBounds>)
        requires
            old(self).wf(),
        ensures
            final(self).wf(),
            r.is_ok() <==> old(self)@.in_range(row as int, col as int),
            r.is_ok() ==> final(self)@ == old(self)@.with_cell(row as int, col as int, value),
            r.is_err() ==> final(self)@ == old(self)@,
    {
        if row >= self.r || col >= self.c {
            return Err(IndexOutOfBounds);
        }
        let k = self.offset(row, col);
        self.arr.set(k, value);
        Ok(())
    }
}

} // verus!
