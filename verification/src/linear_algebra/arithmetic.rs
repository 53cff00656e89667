use crate::linear_algebra::model::lemma_cell_position;
use crate::linear_algebra::Matrix;
use crate::scalar::Scalar;
use vstd::prelude::*;

verus! {

impl<T: Scalar> Matrix<T> {
    /// Adds `rhs`, a matrix of the same shape, cell by cell.
    pub fn add_assign(&mut self, rhs: &Matrix<T>)
        requires
            old(self).wf(),
            rhs.wf(),
            old(self)@.same_shape(rhs@),
        ensures
            final(self).wf(),
            final(self)@ == old(self)@.plus(rhs@),
    {
        let n: usize = self.len();
        let mut k: usize = 0;
        while k < n
            invariant
                self.wf(),
                rhs.wf(),
                k <= n,
                n == self@.cells.len(),
                self@.same_shape(old(self)@),
                self@.same_shape(rhs@),
                self@.cells.len() == old(self)@.cells.len(),
                forall|x: int| k <= x < n ==> self@.cells[x] == old(self)@.cells[x],
                forall|x: int|
                    0 <= x < k ==> self@.cells[x] == old(self)@.cells[x].plus(rhs@.cells[x]),
            decreases n - k,
        {
            let v = self.flat(k).add(rhs.flat(k));
            self.put_flat(k, v);
            k += 1;
        }
        assert(self@.cells =~= old(self)@.plus(rhs@).cells);
    }

    /// Subtracts `rhs`, a matrix of the same shape, cell by cell.
    pub fn sub_assign(&mut self, rhs: &Matrix<T>)
        requires
            old(self).wf(),
            rhs.wf(),
            old(self)@.same_shape(rhs@),
        ensures
            final(self).wf(),
            final(self)@ == old(self)@.minus(rhs@),
    {
        let n: usize = self.len();
        let mut k: usize = 0;
        while k < n
            invariant
                self.wf(),
                rhs.wf(),
                k <= n,
                n == self@.cells.len(),
                self@.same_shape(old(self)@),
                self@.same_shape(rhs@),
                self@.cells.len() == old(self)@.cells.len(),
                forall|x: int| k <= x < n ==> self@.cells[x] == old(self)@.cells[x],
                forall|x: int|
                    0 <= x < k ==> self@.cells[x] == old(self)@.cells[x].minus(rhs@.cells[x]),
            decreases n - k,
        {
            let v = self.flat(k).sub(rhs.flat(k));
            self.put_flat(k, v);
            k += 1;
        }
        assert(self@.cells =~= old(self)@.minus(rhs@).cells);
    }

    /// The cell-wise sum with a matrix of the same shape.
    pub fn add(self, rhs: &Matrix<T>) -> (m: Self)
        requires
            self.wf(),
            rhs.wf(),
            self@.same_shape(rhs@),
        ensures
            m.wf(),
            m@ == self@.plus(rhs@),
    {
        let mut m = self;
        m.add_assign(rhs);
        m
    }

    /// The cell-wise difference with a matrix of the same shape.
    pub fn sub(self, rhs: &Matrix<T>) -> (m: Self)
        requires
            self.wf(),
            rhs.wf(),
            self@.same_shape(rhs@),
        ensures
            m.wf(),
            m@ == self@.minus(rhs@),
    {
        let mut m = self;
        m.sub_assign(rhs);
        m
    }

    /// Every cell multiplied by `factor`.
    pub fn scale(self, factor: T) -> (m: Self)
        requires
            self.wf(),
        ensures
            m.wf(),
            m@ == self@.scaled(factor),
    {
        let mut m = self;
        let n: usize = m.len();
        let mut k: usize = 0;
        while k < n
            invariant
                m.wf(),
                k <= n,
                n == m@.cells.len(),
                m@.same_shape(self@),
                m@.cells.len() == self@.cells.len(),
                forall|x: int| k <= x < n ==> m@.cells[x] == self@.cells[x],
                forall|x: int| 0 <= x < k ==> m@.cells[x] == self@.cells[x].times(factor),
            decreases n - k,
        {
            let v = m.flat(k).mul(factor);
            m.put_flat(k, v);
            k += 1;
        }
        assert(m@.cells =~= self@.scaled(factor).cells);
        m
    }

    /// Every cell divided by `divisor`. A divisor equal to zero is not
    /// divided by: the matrix comes back unchanged.
    pub fn div(self, divisor: T) -> (m: Self)
        requires
            self.wf(),
        ensures
            m.wf(),
            m@ == self@.divided(divisor),
    {
        if divisor.equals(T::zero()) {
            return self;
        }
        let mut m = self;
        let n: usize = m.len();
        let mut k: usize = 0;
        while k < n
            invariant
                m.wf(),
                !divisor.same(T::zero_value()),
                k <= n,
                n == m@.cells.len(),
                m@.same_shape(self@),
                m@.cells.len() == self@.cells.len(),
                forall|x: int| k <= x < n ==> m@.cells[x] == self@.cells[x],
                forall|x: int| 0 <= x < k ==> m@.cells[x] == self@.cells[x].over(divisor),
            decreases n - k,
        {
            let v = m.flat(k).div(divisor);
            m.put_flat(k, v);
            k += 1;
        }
        assert(m@.cells =~= self@.divided(divisor).cells);
        m
    }

    /// The matrix product of an `m` by `k` matrix with a `k` by `n` matrix:
    /// each cell is the sum, taken from zero in order, of the products of a
    /// row of `self` with a column of `rhs`.
    pub fn mul(&self, rhs: &Matrix<T>) -> (m: Self)
        requires
            self.wf(),
            rhs.wf(),
            self@.cols == rhs@.rows,
            self@.rows * rhs@.cols <= usize::MAX,
        ensures
            m.wf(),
            m@ == self@.product(rhs@),
    {
        let (r, inner) = self.get_dims();
        let (_, c) = rhs.get_dims();
        let n: usize = r * c;
        let mut arr: Vec<T> = Vec::new();
        let mut k: usize = 0;
        while k < n
            invariant
                self.wf(),
                rhs.wf(),
                k <= n,
                n == r * c,
                r == self@.rows,
                inner == self@.cols,
                inner == rhs@.rows,
                c == rhs@.cols,
                arr@.len() == k,
                forall|x: int|
                    0 <= x < k ==> arr@[x] == self@.dot(
                        rhs@,
                        x / (c as int),
                        x % (c as int),
                        inner as nat,
                    ),
            decreases n - k,
        {
            proof {
                lemma_cell_position(r as nat, c as nat, k as int);
            }
            let i: usize = k / c;
            let j: usize = k % c;
            let mut acc: T = T::zero();
            let mut t: usize = 0;
            while t < inner
                invariant
                    self.wf(),
                    rhs.wf(),
                    t <= inner,
                    i < r,
                    j < c,
                    r == self@.rows,
                    inner == self@.cols,
                    inner == rhs@.rows,
                    c == rhs@.cols,
                    acc == self@.dot(rhs@, i as int, j as int, t as nat),
                decreases inner - t,
            {
                acc = acc.add(self.cell(i, t).mul(rhs.cell(t, j)));
                t += 1;
            }
            arr.push(acc);
            k += 1;
        }
        let m = Matrix::from_parts(r, c, arr);
        assert(m@.cells =~= self@.product(rhs@).cells);
        m
    }
}

} // verus!
