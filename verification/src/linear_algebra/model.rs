use crate::scalar::Scalar;
use vstd::prelude::*;

verus! {

/// The mathematical value of a matrix: its shape and its cells, row by row.
pub struct Grid<T> {
    pub rows: nat,
    pub cols: nat,
    pub cells: Seq<T>,
}

impl<T> Grid<T> {
    /// There is exactly one cell for each position.
    pub open spec fn wf(self) -> bool {
        self.cells.len() == self.rows * self.cols
    }

    /// The grid has a cell in row `i`, column `j`.
    pub open spec fn in_range(self, i: int, j: int) -> bool {
        0 <= i < self.rows && 0 <= j < self.cols
    }

    /// The cell in row `i`, column `j`.
    pub open spec fn at(self, i: int, j: int) -> T {
        self.cells[i * self.cols + j]
    }

    /// The grids have as many rows and as many columns as each other.
    pub open spec fn same_shape(self, other: Grid<T>) -> bool {
        self.rows == other.rows && self.cols == other.cols
    }

    /// The grid of the given shape whose cell at `(i, j)` is `cell(i, j)`.
    pub open spec fn build(rows: nat, cols: nat, cell: spec_fn(int, int) -> T) -> Grid<T> {
        Grid {
            rows,
            cols,
            cells: Seq::new(rows * cols, |k: int| cell(k / (cols as int), k % (cols as int))),
        }
    }

    /// The grid of the given shape with `value` in every cell.
    pub open spec fn filled(rows: nat, cols: nat, value: T) -> Grid<T> {
        Grid::build(rows, cols, |i: int, j: int| value)
    }

    /// Rows become columns.
    pub open spec fn transposed(self) -> Grid<T> {
        Grid::build(self.cols, self.rows, |i: int, j: int| self.at(j, i))
    }

    /// Every cell replaced by its image under `f`.
    pub open spec fn mapped(self, f: spec_fn(T) -> T) -> Grid<T> {
        Grid { rows: self.rows, cols: self.cols, cells: self.cells.map_values(f) }
    }

    /// Row `i` as a sequence.
    pub open spec fn row(self, i: int) -> Seq<T> {
        self.cells.subrange(i * self.cols, i * self.cols + self.cols)
    }

    /// Column `j` as a sequence.
    pub open spec fn column(self, j: int) -> Seq<T> {
        Seq::new(self.rows, |i: int| self.at(i, j))
    }

    /// Row `i` replaced by `values`.
    pub open spec fn with_row(self, i: int, values: Seq<T>) -> Grid<T> {
        Grid {
            rows: self.rows,
            cols: self.cols,
            cells: Seq::new(
                self.cells.len(),
                |k: int|
                    if i * self.cols <= k < i * self.cols + self.cols {
                        values[k - i * self.cols]
                    } else {
                        self.cells[k]
                    },
            ),
        }
    }

    /// Rows `a` and `b` exchanged.
    pub open spec fn with_rows_swapped(self, a: int, b: int) -> Grid<T> {
        self.with_row(a, self.row(b)).with_row(b, self.row(a))
    }

    /// What is left when row zero and column `j` are struck out.
    pub open spec fn minor(self, j: int) -> Grid<T> {
        Grid::build(
            (self.rows - 1) as nat,
            (self.cols - 1) as nat,
            |a: int, b: int|
                self.at(
                    a + 1,
                    if b < j {
                        b
                    } else {
                        b + 1
                    },
                ),
        )
    }

    /// The cell at `(i, j)` replaced by `value`.
    pub open spec fn with_cell(self, i: int, j: int, value: T) -> Grid<T> {
        Grid { rows: self.rows, cols: self.cols, cells: self.cells.update(i * self.cols + j, value) }
    }
}

impl<T: Scalar> Grid<T> {
    /// The grids have one shape and their cells are equal as numbers, each
    /// to the one in its place.
    pub open spec fn alike(self, other: Grid<T>) -> bool {
        &&& self.rows == other.rows
        &&& self.cols == other.cols
        &&& self.cells.len() == other.cells.len()
        &&& forall|k: int|
            0 <= k < self.cells.len() ==> (#[trigger] self.cells[k]).same(other.cells[k])
    }

    /// The grid of the given shape with zero in every cell.
    pub open spec fn zeros(rows: nat, cols: nat) -> Grid<T> {
        Grid::filled(rows, cols, T::zero_value())
    }

    /// One on the diagonal, zero elsewhere; the diagonal ends with the shorter side.
    pub open spec fn identity(rows: nat, cols: nat) -> Grid<T> {
        Grid::build(
            rows,
            cols,
            |i: int, j: int|
                if i == j {
                    T::one_value()
                } else {
                    T::zero_value()
                },
        )
    }

    /// The cells of `values` laid out row by row: what is missing is zero,
    /// what is left over is dropped.
    pub open spec fn from_values(rows: nat, cols: nat, values: Seq<T>) -> Grid<T> {
        Grid {
            rows,
            cols,
            cells: Seq::new(
                rows * cols,
                |k: int|
                    if k < values.len() {
                        values[k]
                    } else {
                        T::zero_value()
                    },
            ),
        }
    }

    /// Cell-wise sum.
    pub open spec fn plus(self, other: Grid<T>) -> Grid<T> {
        Grid {
            rows: self.rows,
            cols: self.cols,
            cells: Seq::new(self.cells.len(), |k: int| self.cells[k].plus(other.cells[k])),
        }
    }

    /// Cell-wise difference.
    pub open spec fn minus(self, other: Grid<T>) -> Grid<T> {
        Grid {
            rows: self.rows,
            cols: self.cols,
            cells: Seq::new(self.cells.len(), |k: int| self.cells[k].minus(other.cells[k])),
        }
    }

    /// Cell-wise (Hadamard) product.
    pub open spec fn hadamard(self, other: Grid<T>) -> Grid<T> {
        Grid {
            rows: self.rows,
            cols: self.cols,
            cells: Seq::new(self.cells.len(), |k: int| self.cells[k].times(other.cells[k])),
        }
    }

    /// Every cell multiplied by `factor`.
    pub open spec fn scaled(self, factor: T) -> Grid<T> {
        self.mapped(|x: T| x.times(factor))
    }

    /// Every cell divided by `divisor`; a divisor equal to zero changes nothing.
    pub open spec fn divided(self, divisor: T) -> Grid<T> {
        if divisor.same(T::zero_value()) {
            self
        } else {
            self.mapped(|x: T| x.over(divisor))
        }
    }

    /// The sum of the first `n` products of row `i` of `self` with column `j`
    /// of `other`, added up from zero in order.
    pub open spec fn dot(self, other: Grid<T>, i: int, j: int, n: nat) -> T
        decreases n,
    {
        if n == 0 {
            T::zero_value()
        } else {
            self.dot(other, i, j, (n - 1) as nat).plus(
                self.at(i, n - 1).times(other.at(n - 1, j)),
            )
        }
    }

    /// The matrix product.
    pub open spec fn product(self, other: Grid<T>) -> Grid<T> {
        Grid::build(self.rows, other.cols, |i: int, j: int| self.dot(other, i, j, self.cols))
    }

    /// The sign of the cofactor of column `j` of the first row: plus one for
    /// column zero, flipped from each column to the next.
    pub open spec fn cofactor_sign(j: nat) -> T
        decreases j,
    {
        if j == 0 {
            T::one_value().negated().negated()
        } else {
            Self::cofactor_sign((j - 1) as nat).negated()
        }
    }

    /// The first `n` terms of the cofactor expansion along the first row,
    /// added up from zero in order.
    pub open spec fn expansion(self, n: nat) -> T
        decreases self.rows, n,
    {
        if n == 0 || self.rows == 0 {
            T::zero_value()
        } else {
            self.expansion((n - 1) as nat).plus(
                Self::cofactor_sign((n - 1) as nat).times(self.at(0, n - 1)).times(
                    self.minor(n - 1).determinant(),
                ),
            )
        }
    }

    /// The determinant by cofactor expansion along the first row. A grid
    /// with a single cell has that cell as its determinant, one without
    /// rows has zero.
    pub open spec fn determinant(self) -> T
        decreases self.rows, self.cols + 1,
    {
        if self.rows == 1 && self.cols == 1 {
            self.cells[0]
        } else {
            self.expansion(self.cols)
        }
    }

    /// Row `i` with every cell divided by `d`.
    pub open spec fn with_row_divided(self, i: int, d: T) -> Grid<T> {
        self.with_row(i, self.row(i).map_values(|x: T| x.over(d)))
    }

    /// Row `x` less `factor` times row `i`.
    pub open spec fn with_row_reduced(self, x: int, i: int, factor: T) -> Grid<T> {
        self.with_row(
            x,
            Seq::new(self.cols, |b: int| self.at(x, b).minus(self.at(i, b).times(factor))),
        )
    }

    /// The first row at or below `from` whose cell in column `col` does not
    /// equal zero; the number of rows if there is none.
    pub open spec fn first_nonzero_from(self, col: int, from: int) -> int
        decreases self.rows - from,
    {
        if from >= self.rows {
            self.rows as int
        } else if !self.at(from, col).same(T::zero_value()) {
            from
        } else {
            self.first_nonzero_from(col, from + 1)
        }
    }

    /// The row that is brought to the diagonal for column `i`: the first at
    /// or below the diagonal with a cell there that does not equal zero, or
    /// row `i` itself if there is none.
    pub open spec fn pivot_row(self, i: int) -> int {
        let p = self.first_nonzero_from(i, i);
        if p < self.rows {
            p
        } else {
            i
        }
    }

    /// The position of the first cell that no later cell outdoes, among the
    /// first `n` cells: a later cell takes over only if it is strictly greater.
    pub open spec fn argmax_upto(self, n: nat) -> nat
        decreases n,
    {
        if n <= 1 {
            0
        } else {
            let best = self.argmax_upto((n - 1) as nat);
            if self.cells[best as int].less(self.cells[n - 1]) {
                (n - 1) as nat
            } else {
                best
            }
        }
    }

    /// The position of the first greatest cell; zero for a grid without cells.
    pub open spec fn argmax(self) -> nat {
        self.argmax_upto(self.cells.len())
    }
}

/// A matrix under reduction and the matrix that undergoes the same row
/// operations beside it.
pub struct Reduction<T> {
    pub left: Grid<T>,
    pub right: Grid<T>,
}

impl<T: Scalar> Reduction<T> {
    /// The pivot row for column `i` of the left grid exchanged with row `i`,
    /// in both grids.
    pub open spec fn pivoted(self, i: int) -> Reduction<T> {
        let p = self.left.pivot_row(i);
        if p != i {
            Reduction {
                left: self.left.with_rows_swapped(i, p),
                right: self.right.with_rows_swapped(i, p),
            }
        } else {
            self
        }
    }

    /// Row `i` of both grids divided by the diagonal cell of the left one,
    /// unless that cell equals zero.
    pub open spec fn normalized(self, i: int) -> Reduction<T> {
        let d = self.left.at(i, i);
        if !d.same(T::zero_value()) {
            Reduction {
                left: self.left.with_row_divided(i, d),
                right: self.right.with_row_divided(i, d),
            }
        } else {
            self
        }
    }

    /// Column `i` cleared from the first `n` rows other than row `i`: from
    /// each of them, in both grids, its cell in column `i` of the left grid
    /// times row `i` is taken away.
    pub open spec fn cleared(self, i: int, n: nat) -> Reduction<T>
        decreases n,
    {
        if n == 0 {
            self
        } else {
            let before = self.cleared(i, (n - 1) as nat);
            let x = n - 1;
            if x == i {
                before
            } else {
                let factor = before.left.at(x, i);
                Reduction {
                    left: before.left.with_row_reduced(x, i, factor),
                    right: before.right.with_row_reduced(x, i, factor),
                }
            }
        }
    }

    /// One stage of Gauss-Jordan elimination, for column `i`.
    pub open spec fn stage(self, i: int) -> Reduction<T> {
        self.pivoted(i).normalized(i).cleared(i, self.left.rows)
    }

    /// The stages for the first `k` columns, in order.
    pub open spec fn reduced(self, k: nat) -> Reduction<T>
        decreases k,
    {
        if k == 0 {
            self
        } else {
            self.reduced((k - 1) as nat).stage(k - 1)
        }
    }
}

impl<T: Scalar> Grid<T> {
    /// What Gauss-Jordan elimination makes of the identity while it reduces
    /// this grid; nothing for a grid that is not square or whose determinant
    /// equals zero.
    pub open spec fn inverse(self) -> Option<Grid<T>> {
        if self.rows != self.cols || self.determinant().same(T::zero_value()) {
            None
        } else {
            Some(
                (Reduction { left: self, right: Grid::identity(self.rows, self.cols) }).reduced(
                    self.cols,
                ).right,
            )
        }
    }
}

/// Position `(i, j)` of a grid with `cols` columns is cell `i * cols + j`,
/// and the cell number gives the position back.
pub proof fn lemma_cell_index(rows: nat, cols: nat, i: int, j: int)
    requires
        0 <= i < rows,
        0 <= j < cols,
    ensures
        0 <= i * cols + j < rows * cols,
        (i * cols + j) / (cols as int) == i,
        (i * cols + j) % (cols as int) == j,
{
    vstd::arithmetic::div_mod::lemma_fundamental_div_mod_converse(i * cols + j, cols as int, i, j);
    assert(i * cols + j < rows * cols) by (nonlinear_arith)
        requires
            0 <= i < rows,
            0 <= j < cols,
    ;
    assert(0 <= i * cols) by (nonlinear_arith)
        requires
            0 <= i,
            0 <= cols,
    ;
}

/// Cell `k` of a grid lies at row `k / cols`, column `k % cols`.
pub proof fn lemma_cell_position(rows: nat, cols: nat, k: int)
    requires
        0 <= k < rows * cols,
    ensures
        cols > 0,
        0 <= k / (cols as int) < rows,
        0 <= k % (cols as int) < cols,
        (k / (cols as int)) * cols + k % (cols as int) == k,
{
    if cols == 0 {
        assert(rows * cols == 0) by (nonlinear_arith)
            requires
                cols == 0,
        ;
    }
    vstd::arithmetic::div_mod::lemma_fundamental_div_mod(k, cols as int);
    vstd::arithmetic::div_mod::lemma_div_pos_is_pos(k, cols as int);
    vstd::arithmetic::div_mod::lemma_mod_bound(k, cols as int);
    let q = k / cols as int;
    if q >= rows {
        assert(q * cols >= rows * cols) by (nonlinear_arith)
            requires
                q >= rows,
                cols > 0,
        ;
    }
    assert(q * cols == cols * q) by (nonlinear_arith);
}

/// A built grid is well formed and holds at each position what it was built from.
pub proof fn lemma_build<T>(rows: nat, cols: nat, cell: spec_fn(int, int) -> T)
    ensures
        Grid::build(rows, cols, cell).wf(),
        Grid::build(rows, cols, cell).rows == rows,
        Grid::build(rows, cols, cell).cols == cols,
        forall|i: int, j: int|
            0 <= i < rows && 0 <= j < cols ==> #[trigger] Grid::build(rows, cols, cell).at(i, j)
                == cell(i, j),
{
    let g = Grid::build(rows, cols, cell);
    assert forall|i: int, j: int| 0 <= i < rows && 0 <= j < cols implies #[trigger] g.at(i, j)
        == cell(i, j) by {
        lemma_cell_index(rows, cols, i, j);
    }
}

/// Two well-formed grids of one shape that agree at every position are equal.
pub proof fn lemma_grid_equal<T>(a: Grid<T>, b: Grid<T>)
    requires
        a.wf(),
        b.wf(),
        a.same_shape(b),
        forall|i: int, j: int| a.in_range(i, j) ==> a.at(i, j) == b.at(i, j),
    ensures
        a == b,
{
    assert forall|k: int| 0 <= k < a.cells.len() implies a.cells[k] == b.cells[k] by {
        lemma_cell_position(a.rows, a.cols, k);
        let i = k / a.cols as int;
        let j = k % a.cols as int;
        assert(a.in_range(i, j));
        assert(a.at(i, j) == b.at(i, j));
    }
    assert(a.cells =~= b.cells);
}

} // verus!
