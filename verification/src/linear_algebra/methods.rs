use crate::linear_algebra::model::lemma_cell_position;
use crate::linear_algebra::Matrix;
use crate::scalar::Scalar;
use vstd::prelude::*;

verus! {

impl<T: Scalar> Matrix<T> {
    /// The cell at a position that the matrix has.
    pub(crate) fn cell(&self, row: usize, col: usize) -> (v: T)
        requires
            self.wf(),
            self@.in_range(row as int, col as int),
        ensures
            v == self@.at(row as int, col as int),
    {
        let k = self.offset(row, col);
        self.flat(k)
    }

    /// The transpose: a matrix of shape `(cols, rows)` whose cell at `(i, j)`
    /// is the cell at `(j, i)` of this one.
    pub fn transpose(&self) -> (m: Self)
        requires
            self.wf(),
        ensures
            m.wf(),
            m@ == self@.transposed(),
    {
        let (r, c) = self.get_dims();
        let n: usize = self.len();
        let mut arr: Vec<T> = Vec::new();
        let mut k: usize = 0;
        proof {
            assert(r * c == c * r) by (nonlinear_arith);
        }
        while k < n
            invariant
                self.wf(),
                k <= n,
                n == c * r,
                r == self@.rows,
                c == self@.cols,
                arr@.len() == k,
                forall|x: int|
                    0 <= x < k ==> arr@[x] == self@.at(x % (r as int), x / (r as int)),
            decreases n - k,
        {
            proof {
                lemma_cell_position(c as nat, r as nat, k as int);
            }
            let v = self.cell(k % r, k / r);
            arr.push(v);
            k += 1;
        }
        let m = Matrix::from_parts(c, r, arr);
        assert(m@.cells =~= self@.transposed().cells);
        m
    }

    /// Replaces every cell by what `func` makes of it.
    pub fn apply<F: Fn(T) -> T>(&mut self, func: &F)
        requires
            old(self).wf(),
            forall|k: int|
                0 <= k < old(self)@.cells.len() ==> call_requires(func, (old(self)@.cells[k],)),
        ensures
            final(self).wf(),
            final(self)@.same_shape(old(self)@),
            forall|k: int|
                0 <= k < old(self)@.cells.len() ==> call_ensures(
                    func,
                    (old(self)@.cells[k],),
                    #[trigger] final(self)@.cells[k],
                ),
    {
        let n: usize = self.len();
        let mut k: usize = 0;
        while k < n
            invariant
                self.wf(),
                k <= n,
                n == self@.cells.len(),
                self@.same_shape(old(self)@),
                self@.cells.len() == old(self)@.cells.len(),
                forall|x: int|
                    0 <= x < old(self)@.cells.len() ==> call_requires(func, (old(self)@.cells[x],)),
                forall|x: int| k <= x < n ==> self@.cells[x] == old(self)@.cells[x],
                forall|x: int|
                    0 <= x < k ==> call_ensures(
                        func,
                        (old(self)@.cells[x],),
                        #[trigger] self@.cells[x],
                    ),
            decreases n - k,
        {
            let v = func(self.flat(k));
            self.put_flat(k, v);
            k += 1;
        }
    }

    /// The matrix with every cell replaced by what `func` makes of it.
    pub fn apply_into<F: Fn(T) -> T>(self, func: &F) -> (m: Self)
        requires
            self.wf(),
            forall|k: int| 0 <= k < self@.cells.len() ==> call_requires(func, (self@.cells[k],)),
        ensures
            m.wf(),
            m@.same_shape(self@),
            forall|k: int|
                0 <= k < self@.cells.len() ==> call_ensures(
                    func,
                    (self@.cells[k],),
                    #[trigger] m@.cells[k],
                ),
    {
        let mut m = self;
        m.apply(func);
        m
    }

    /// The cell-wise product with a matrix of the same shape.
    pub fn component_mul(self, other: &Matrix<T>) -> (m: Self)
        requires
            self.wf(),
            other.wf(),
            self@.same_shape(other@),
        ensures
            m.wf(),
            m@ == self@.hadamard(other@),
    {
        let mut m = self;
        let n: usize = m.len();
        let mut k: usize = 0;
        while k < n
            invariant
                m.wf(),
                other.wf(),
                k <= n,
                n == m@.cells.len(),
                m@.same_shape(self@),
                m@.same_shape(other@),
                m@.cells.len() == self@.cells.len(),
                forall|x: int| k <= x < n ==> m@.cells[x] == self@.cells[x],
                forall|x: int|
                    0 <= x < k ==> m@.cells[x] == self@.cells[x].times(other@.cells[x]),
            decreases n - k,
        {
            let v = m.flat(k).mul(other.flat(k));
            m.put_flat(k, v);
            k += 1;
        }
        assert(m@.cells =~= self@.hadamard(other@).cells);
        m
    }

    /// The storage position of the greatest cell; among equals, the first.
    /// An empty matrix gives zero.
    pub fn index_of_max(&self) -> (index: usize)
        requires
            self.wf(),
        ensures
            index == self@.argmax(),
            self@.cells.len() > 0 ==> index < self@.cells.len(),
    {
        let n: usize = self.len();
        let mut index: usize = 0;
        let mut k: usize = 1;
        if n <= 1 {
            return 0;
        }
        while k < n
            invariant
                self.wf(),
                1 <= k <= n,
                n == self@.cells.len(),
                index < k,
                index == self@.argmax_upto(k as nat),
            decreases n - k,
        {
            if self.flat(index).less_than(self.flat(k)) {
                index = k;
            }
            k += 1;
        }
        index
    }

    /// Row `i`, or `None` if the matrix has no such row.
    pub fn get_row(&self, i: usize) -> (row: Option<Vec<T>>)
        requires
            self.wf(),
        ensures
            row.is_some() <==> i < self@.rows,
            row matches Some(v) ==> v@ == self@.row(i as int) && v@.len() == self@.cols,
    {
        let (r, c) = self.get_dims();
        if i >= r {
            return None;
        }
        let mut v: Vec<T> = Vec::new();
        let mut j: usize = 0;
        while j < c
            invariant
                self.wf(),
                i < r,
                r == self@.rows,
                c == self@.cols,
                j <= c,
                v@.len() == j,
                forall|x: int| 0 <= x < j ==> v@[x] == self@.at(i as int, x),
            decreases c - j,
        {
            let e = self.cell(i, j);
            v.push(e);
            j += 1;
        }
        proof {
            assert(0 <= i * c && i * c + c <= r * c) by (nonlinear_arith)
                requires
                    0 <= i < r,
                    0 <= c,
            ;
            assert(v@ =~= self@.row(i as int));
        }
        Some(v)
    }

    /// Column `j`, or `None` if the matrix has no such column.
    pub fn get_col(&self, j: usize) -> (col: Option<Vec<T>>)
        requires
            self.wf(),
        ensures
            col.is_some() <==> j < self@.cols,
            col matches Some(v) ==> v@ == self@.column(j as int) && v@.len() == self@.rows,
    {
        let (r, c) = self.get_dims();
        if j >= c {
            return None;
        }
        let mut v: Vec<T> = Vec::new();
        let mut i: usize = 0;
        while i < r
            invariant
                self.wf(),
                j < c,
                r == self@.rows,
                c == self@.cols,
                i <= r,
                v@.len() == i,
                forall|x: int| 0 <= x < i ==> v@[x] == self@.at(x, j as int),
            decreases r - i,
        {
            let e = self.cell(i, j);
            v.push(e);
            i += 1;
        }
        assert(v@ =~= self@.column(j as int));
        Some(v)
    }
}

} // verus!
