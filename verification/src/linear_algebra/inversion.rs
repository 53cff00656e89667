use crate::linear_algebra::model::{lemma_cell_position, Grid, Reduction};
use crate::linear_algebra::Matrix;
use crate::scalar::Scalar;
use vstd::prelude::*;

verus! {

impl<T: Scalar> Matrix<T> {
    /// Replaces row `i` by `values`.
    pub(crate) fn set_row(&mut self, i: usize, values: &Vec<T>)
        requires
            old(self).wf(),
            i < old(self)@.rows,
            values@.len() == old(self)@.cols,
        ensures
            final(self).wf(),
            final(self)@ == old(self)@.with_row(i as int, values@),
    {
        let (r, c) = self.get_dims();
        let n: usize = self.len();
        proof {
            assert(0 <= i * c && i * c + c <= r * c) by (nonlinear_arith)
                requires
                    0 <= i < r,
                    0 <= c,
            ;
        }
        let start: usize = i * c;
        let mut j: usize = 0;
        while j < c
            invariant
                self.wf(),
                j <= c,
                start == i * c,
                start + c <= n,
                n == self@.cells.len(),
                values@.len() == c,
                self@.same_shape(old(self)@),
                self@.cells.len() == old(self)@.cells.len(),
                c == self@.cols,
                forall|k: int|
                    0 <= k < n ==> self@.cells[k] == if start <= k < start + j {
                        values@[k - start]
                    } else {
                        old(self)@.cells[k]
                    },
            decreases c - j,
        {
            self.put_flat(start + j, values[j]);
            j += 1;
        }
        assert(self@.cells =~= old(self)@.with_row(i as int, values@).cells);
    }

    /// Exchanges rows `a` and `b`.
    pub(crate) fn swap_rows(&mut self, a: usize, b: usize)
        requires
            old(self).wf(),
            a < old(self)@.rows,
            b < old(self)@.rows,
        ensures
            final(self).wf(),
            final(self)@ == old(self)@.with_rows_swapped(a as int, b as int),
    {
        let first = self.get_row(a);
        let second = self.get_row(b);
        match (first, second) {
            (Some(ra), Some(rb)) => {
                self.set_row(a, &rb);
                self.set_row(b, &ra);
            },
            _ => {},
        }
    }

    /// Divides every cell of row `i` by `d`, which does not equal zero.
    pub(crate) fn divide_row(&mut self, i: usize, d: T)
        requires
            old(self).wf(),
            i < old(self)@.rows,
            !d.same(T::zero_value()),
        ensures
            final(self).wf(),
            final(self)@ == old(self)@.with_row_divided(i as int, d),
    {
        if let Some(row) = self.get_row(i) {
            let mut quotients: Vec<T> = Vec::new();
            let mut j: usize = 0;
            while j < row.len()
                invariant
                    j <= row@.len(),
                    quotients@.len() == j,
                    !d.same(T::zero_value()),
                    forall|b: int| 0 <= b < j ==> quotients@[b] == row@[b].over(d),
                decreases row@.len() - j,
            {
                quotients.push(row[j].div(d));
                j += 1;
            }
            assert(quotients@ =~= row@.map_values(|x: T| x.over(d)));
            self.set_row(i, &quotients);
        }
    }

    /// Takes `factor` times row `i` away from row `x`.
    pub(crate) fn reduce_row(&mut self, x: usize, i: usize, factor: T)
        requires
            old(self).wf(),
            x < old(self)@.rows,
            i < old(self)@.rows,
        ensures
            final(self).wf(),
            final(self)@ == old(self)@.with_row_reduced(x as int, i as int, factor),
    {
        let (r, c) = self.get_dims();
        let mut reduced: Vec<T> = Vec::new();
        let mut j: usize = 0;
        while j < c
            invariant
                self.wf(),
                x < r,
                i < r,
                r == self@.rows,
                c == self@.cols,
                j <= c,
                reduced@.len() == j,
                forall|b: int|
                    0 <= b < j ==> reduced@[b] == self@.at(x as int, b).minus(
                        self@.at(i as int, b).times(factor),
                    ),
            decreases c - j,
        {
            reduced.push(self.cell(x, j).sub(self.cell(i, j).mul(factor)));
            j += 1;
        }
        assert(reduced@ =~= Seq::new(
            self@.cols,
            |b: int| self@.at(x as int, b).minus(self@.at(i as int, b).times(factor)),
        ));
        self.set_row(x, &reduced);
    }

    /// The matrix without row zero and column `j`.
    fn minor(&self, j: usize) -> (m: Self)
        requires
            self.wf(),
            self@.rows >= 1,
            j < self@.cols,
        ensures
            m.wf(),
            m@ == self@.minor(j as int),
    {
        let (r, c) = self.get_dims();
        let len = self.len();
        proof {
            assert((r - 1) * (c - 1) <= r * c) by (nonlinear_arith)
                requires
                    r >= 1,
                    c >= 1,
            ;
        }
        let n: usize = (r - 1) * (c - 1);
        let mut arr: Vec<T> = Vec::new();
        let mut k: usize = 0;
        while k < n
            invariant
                self.wf(),
                k <= n,
                n == (r - 1) * (c - 1),
                r >= 1,
                j < c,
                r == self@.rows,
                c == self@.cols,
                arr@.len() == k,
                forall|y: int|
                    0 <= y < k ==> arr@[y] == self@.at(
                        y / ((c - 1) as int) + 1,
                        if y % ((c - 1) as int) < j {
                            y % ((c - 1) as int)
                        } else {
                            y % ((c - 1) as int) + 1
                        },
                    ),
            decreases n - k,
        {
            proof {
                lemma_cell_position((r - 1) as nat, (c - 1) as nat, k as int);
            }
            let a: usize = k / (c - 1);
            let b: usize = k % (c - 1);
            let v = if b < j {
                self.cell(a + 1, b)
            } else {
                self.cell(a + 1, b + 1)
            };
            arr.push(v);
            k += 1;
        }
        let m = Matrix::from_parts(r - 1, c - 1, arr);
        assert(m@.cells =~= self@.minor(j as int).cells);
        m
    }

    /// The determinant by cofactor expansion along the first row.
    pub fn determinant(&self) -> (d: T)
        requires
            self.wf(),
        ensures
            d == self@.determinant(),
        decreases self@.rows,
    {
        let (r, c) = self.get_dims();
        if r == 1 && c == 1 {
            let n = self.len();
            assert(n == 1) by (nonlinear_arith)
                requires
                    n == r * c,
                    r == 1,
                    c == 1,
            ;
            return self.flat(0);
        }
        let mut value: T = T::zero();
        if r == 0 {
            return value;
        }
        let mut multiplier: T = T::one().neg();
        let mut j: usize = 0;
        while j < c
            invariant
                self.wf(),
                j <= c,
                r >= 1,
                r == self@.rows,
                c == self@.cols,
                value == self@.expansion(j as nat),
                multiplier == if j == 0 {
                    T::one_value().negated()
                } else {
                    Grid::<T>::cofactor_sign((j - 1) as nat)
                },
            decreases c - j,
        {
            multiplier = multiplier.neg();
            let sub = self.minor(j);
            let sub_determinant = sub.determinant();
            value = value.add(multiplier.mul(self.cell(0, j)).mul(sub_determinant));
            j += 1;
        }
        value
    }

    /// The row to bring to the diagonal for column `i`.
    fn find_pivot(&self, i: usize) -> (p: usize)
        requires
            self.wf(),
            i < self@.rows,
            i < self@.cols,
        ensures
            p == self@.pivot_row(i as int),
            i <= p < self@.rows,
    {
        let (r, _) = self.get_dims();
        let mut x: usize = i;
        while x < r
            invariant
                self.wf(),
                i <= x <= r,
                i < self@.cols,
                r == self@.rows,
                self@.first_nonzero_from(i as int, i as int) == self@.first_nonzero_from(
                    i as int,
                    x as int,
                ),
            decreases r - x,
        {
            if !self.cell(x, i).equals(T::zero()) {
                return x;
            }
            x += 1;
        }
        i
    }

    /// The inverse by Gauss-Jordan elimination, carried out on the matrix and
    /// on an identity matrix side by side. For each column the first row at or
    /// below the diagonal with a cell that does not equal zero is brought to
    /// the diagonal, that row is divided by its diagonal cell, and the column
    /// is cleared from every other row; a column without such a row is left
    /// as it is. `None` for a matrix that is not square or whose determinant
    /// equals zero.
    pub fn invert(self) -> (inverse: Option<Matrix<T>>)
        requires
            self.wf(),
        ensures
            inverse.is_some() <==> self@.inverse().is_some(),
            inverse matches Some(m) ==> m.wf() && Some(m@) == self@.inverse(),
    {
        let (r, c) = self.get_dims();
        if c != r {
            return None;
        }
        let len = self.len();
        let mut right: Matrix<T> = Matrix::identity(r, c);
        if self.determinant().equals(T::zero()) {
            return None;
        }
        let ghost start = Reduction { left: self@, right: right@ };
        let mut left = self;
        let mut i: usize = 0;
        while i < c
            invariant
                left.wf(),
                right.wf(),
                i <= c,
                r == c,
                left@.rows == r,
                left@.cols == c,
                right@.rows == r,
                right@.cols == c,
                (Reduction { left: left@, right: right@ }) == start.reduced(i as nat),
            decreases c - i,
        {
            let ghost before = Reduction { left: left@, right: right@ };
            let p = left.find_pivot(i);
            if p != i {
                left.swap_rows(i, p);
                right.swap_rows(i, p);
            }
            assert((Reduction { left: left@, right: right@ }) == before.pivoted(i as int));
            let d = left.cell(i, i);
            if !d.equals(T::zero()) {
                left.divide_row(i, d);
                right.divide_row(i, d);
            }
            let ghost scaled = Reduction { left: left@, right: right@ };
            assert(scaled == before.pivoted(i as int).normalized(i as int));
            let mut x: usize = 0;
            while x < r
                invariant
                    left.wf(),
                    right.wf(),
                    x <= r,
                    i < c,
                    r == c,
                    left@.rows == r,
                    left@.cols == c,
                    right@.rows == r,
                    right@.cols == c,
                    (Reduction { left: left@, right: right@ }) == scaled.cleared(
                        i as int,
                        x as nat,
                    ),
                decreases r - x,
            {
                if i != x {
                    let factor = left.cell(x, i);
                    left.reduce_row(x, i, factor);
                    right.reduce_row(x, i, factor);
                }
                x += 1;
            }
            i += 1;
        }
        Some(right)
    }
}

} // verus!
