use crate::linear_algebra::model::{
    lemma_build, lemma_cell_index, lemma_grid_equal, Grid, Reduction,
};
use crate::scalar::{ExactScalar, Scalar};
use vstd::prelude::*;

verus! {

/// Transposing twice gives the matrix back.
pub proof fn lemma_transpose_twice<T>(g: Grid<T>)
    requires
        g.wf(),
    ensures
        g.transposed().transposed() == g,
{
    let t = g.transposed();
    lemma_build(g.cols, g.rows, |i: int, j: int| g.at(j, i));
    lemma_build(t.cols, t.rows, |i: int, j: int| t.at(j, i));
    lemma_grid_equal(t.transposed(), g);
}

/// The sum of two matrices of one shape less the second is the first,
/// wherever that holds of the cells: of each cell of the first with the
/// cell of the second in its place.
pub proof fn lemma_sum_then_difference<T: Scalar>(a: Grid<T>, b: Grid<T>)
    requires
        a.wf(),
        b.wf(),
        a.same_shape(b),
        forall|k: int|
            0 <= k < a.cells.len() ==> (#[trigger] a.cells[k]).plus(b.cells[k]).minus(b.cells[k])
                == a.cells[k],
    ensures
        a.plus(b).minus(b) == a,
{
    let back = a.plus(b).minus(b);
    assert(back.cells =~= a.cells);
}

/// Over exact scalars, the sum of two matrices of one shape less the second
/// is the first.
pub proof fn lemma_exact_sum_then_difference<T: ExactScalar>(a: Grid<T>, b: Grid<T>)
    requires
        a.wf(),
        b.wf(),
        a.same_shape(b),
    ensures
        a.plus(b).minus(b) == a,
{
    assert forall|k: int| 0 <= k < a.cells.len() implies (#[trigger] a.cells[k]).plus(
        b.cells[k],
    ).minus(b.cells[k]) == a.cells[k] by {
        T::lemma_sum_then_difference(a.cells[k], b.cells[k]);
    }
    lemma_sum_then_difference(a, b);
}

/// The cells of a grid with one row replaced.
pub proof fn lemma_with_row<T>(g: Grid<T>, i: int, values: Seq<T>)
    requires
        g.wf(),
        0 <= i < g.rows,
        values.len() == g.cols,
    ensures
        g.with_row(i, values).wf(),
        g.with_row(i, values).same_shape(g),
        forall|a: int, b: int|
            g.in_range(a, b) ==> #[trigger] g.with_row(i, values).at(a, b) == if a == i {
                values[b]
            } else {
                g.at(a, b)
            },
{
    let h = g.with_row(i, values);
    assert forall|a: int, b: int| g.in_range(a, b) implies #[trigger] h.at(a, b) == if a == i {
        values[b]
    } else {
        g.at(a, b)
    } by {
        lemma_cell_index(g.rows, g.cols, a, b);
        let k = a * g.cols + b;
        if a == i {
            assert(i * g.cols <= k < i * g.cols + g.cols);
        } else if a < i {
            assert(a * g.cols + g.cols <= i * g.cols) by (nonlinear_arith)
                requires
                    a < i,
                    g.cols >= 0,
            ;
        } else {
            assert(i * g.cols + g.cols <= a * g.cols) by (nonlinear_arith)
                requires
                    i < a,
                    g.cols >= 0,
            ;
        }
    }
}

/// A cell of a row is the cell of the grid in that row.
pub proof fn lemma_row<T>(g: Grid<T>, i: int)
    requires
        g.wf(),
        0 <= i < g.rows,
    ensures
        g.row(i).len() == g.cols,
        forall|b: int| 0 <= b < g.cols ==> #[trigger] g.row(i)[b] == g.at(i, b),
{
    assert(0 <= i * g.cols && i * g.cols + g.cols <= g.rows * g.cols) by (nonlinear_arith)
        requires
            0 <= i < g.rows,
            g.cols >= 0,
    ;
}

/// Over exact scalars, dividing a row by one changes nothing.
pub proof fn lemma_divide_by_one<T: ExactScalar>(g: Grid<T>, i: int)
    requires
        g.wf(),
        0 <= i < g.rows,
    ensures
        g.with_row_divided(i, T::one_value()) == g,
{
    let values = g.row(i).map_values(|x: T| x.over(T::one_value()));
    lemma_row(g, i);
    lemma_with_row(g, i, values);
    let h = g.with_row_divided(i, T::one_value());
    assert forall|a: int, b: int| g.in_range(a, b) implies h.at(a, b) == g.at(a, b) by {
        if a == i {
            T::lemma_one_is_neutral(g.at(i, b));
            assert(values[b] == g.row(i)[b].over(T::one_value()));
        }
    }
    lemma_grid_equal(h, g);
}

/// Over exact scalars, taking zero times a row away from another changes
/// nothing.
pub proof fn lemma_reduce_by_zero<T: ExactScalar>(g: Grid<T>, x: int, i: int)
    requires
        g.wf(),
        0 <= x < g.rows,
        0 <= i < g.rows,
    ensures
        g.with_row_reduced(x, i, T::zero_value()) == g,
{
    let values = Seq::new(
        g.cols,
        |b: int| g.at(x, b).minus(g.at(i, b).times(T::zero_value())),
    );
    lemma_with_row(g, x, values);
    let h = g.with_row_reduced(x, i, T::zero_value());
    assert forall|a: int, b: int| g.in_range(a, b) implies h.at(a, b) == g.at(a, b) by {
        if a == x {
            T::lemma_zero_annihilates(g.at(i, b));
            T::lemma_zero_is_neutral(g.at(x, b));
        }
    }
    lemma_grid_equal(h, g);
}

/// The cells of an identity grid.
pub proof fn lemma_identity<T: Scalar>(n: nat)
    ensures
        Grid::<T>::identity(n, n).wf(),
        Grid::<T>::identity(n, n).rows == n,
        Grid::<T>::identity(n, n).cols == n,
        forall|i: int, j: int|
            0 <= i < n && 0 <= j < n ==> #[trigger] Grid::<T>::identity(n, n).at(i, j) == if i
                == j {
                T::one_value()
            } else {
                T::zero_value()
            },
{
    lemma_build(
        n,
        n,
        |i: int, j: int|
            if i == j {
                T::one_value()
            } else {
                T::zero_value()
            },
    );
}

/// Striking the first row and the first column out of an identity grid
/// leaves the identity grid that is one smaller.
pub proof fn lemma_identity_minor<T: Scalar>(n: nat)
    requires
        n >= 1,
    ensures
        Grid::<T>::identity(n, n).minor(0) == Grid::<T>::identity((n - 1) as nat, (n - 1) as nat),
{
    let id = Grid::<T>::identity(n, n);
    let small = Grid::<T>::identity((n - 1) as nat, (n - 1) as nat);
    lemma_identity::<T>(n);
    lemma_identity::<T>((n - 1) as nat);
    lemma_build(
        (n - 1) as nat,
        (n - 1) as nat,
        |a: int, b: int|
            id.at(
                a + 1,
                if b < 0 {
                    b
                } else {
                    b + 1
                },
            ),
    );
    assert forall|i: int, j: int| small.in_range(i, j) implies id.minor(0).at(i, j) == small.at(
        i,
        j,
    ) by {
        assert(id.at(i + 1, j + 1) == if i == j {
            T::one_value()
        } else {
            T::zero_value()
        });
    }
    lemma_grid_equal(id.minor(0), small);
}

/// Over exact scalars, the first `m` terms of the cofactor expansion of an
/// identity grid with two or more rows add up to one.
pub proof fn lemma_identity_expansion<T: ExactScalar>(n: nat, m: nat)
    requires
        n >= 2,
        1 <= m <= n,
    ensures
        Grid::<T>::identity(n, n).expansion(m) == T::one_value(),
    decreases n, m,
{
    let id = Grid::<T>::identity(n, n);
    lemma_identity::<T>(n);
    let one = T::one_value();
    let zero = T::zero_value();
    let sign = Grid::<T>::cofactor_sign((m - 1) as nat);
    let sub = id.minor(m - 1).determinant();
    let term = sign.times(id.at(0, m - 1)).times(sub);
    if m == 1 {
        lemma_identity_minor::<T>(n);
        lemma_identity_determinant::<T>((n - 1) as nat);
        T::lemma_double_negation(one);
        T::lemma_one_is_neutral(one);
        T::lemma_zero_is_neutral(one);
        assert(sign == one);
        assert(term == one);
        assert(id.expansion(0) == zero);
        assert(id.expansion(1) == zero.plus(term));
    } else {
        lemma_identity_expansion::<T>(n, (m - 1) as nat);
        T::lemma_zero_annihilates(sign);
        T::lemma_zero_annihilates(sub);
        T::lemma_zero_is_neutral(one);
        assert(id.at(0, m - 1) == zero);
        assert(term == zero);
        assert(id.expansion(m) == id.expansion((m - 1) as nat).plus(term));
    }
}

/// Over exact scalars, the determinant of an identity grid with at least
/// one row is one.
pub proof fn lemma_identity_determinant<T: ExactScalar>(n: nat)
    requires
        n >= 1,
    ensures
        Grid::<T>::identity(n, n).determinant() == T::one_value(),
    decreases n, n + 1,
{
    let id = Grid::<T>::identity(n, n);
    lemma_identity::<T>(n);
    if n == 1 {
        assert(id.cells[0] == id.at(0, 0));
    } else {
        lemma_identity_expansion::<T>(n, n);
    }
}

/// A pair of identity grids.
pub open spec fn identities<T: Scalar>(n: nat) -> Reduction<T> {
    Reduction { left: Grid::identity(n, n), right: Grid::identity(n, n) }
}

/// Over exact scalars, clearing a column of a pair of identity grids
/// changes nothing.
pub proof fn lemma_identities_cleared<T: ExactScalar>(n: nat, i: int, m: nat)
    requires
        0 <= i < n,
        m <= n,
    ensures
        identities::<T>(n).cleared(i, m) == identities::<T>(n),
    decreases m,
{
    if m > 0 {
        lemma_identities_cleared::<T>(n, i, (m - 1) as nat);
        let x = m - 1;
        if x != i {
            lemma_identity::<T>(n);
            lemma_reduce_by_zero(Grid::<T>::identity(n, n), x, i);
        }
    }
}

/// Over exact scalars, a stage of the elimination changes nothing in a pair
/// of identity grids.
pub proof fn lemma_identities_stage<T: ExactScalar>(n: nat, i: int)
    requires
        0 <= i < n,
    ensures
        identities::<T>(n).stage(i) == identities::<T>(n),
{
    let pair = identities::<T>(n);
    let id = Grid::<T>::identity(n, n);
    lemma_identity::<T>(n);
    T::lemma_one_is_not_zero();
    assert(id.at(i, i) == T::one_value());
    assert(id.first_nonzero_from(i, i) == i);
    assert(pair.pivoted(i) == pair);
    lemma_divide_by_one(id, i);
    assert(pair.normalized(i) == pair);
    lemma_identities_cleared::<T>(n, i, n);
}

/// Over exact scalars, the elimination changes nothing in a pair of
/// identity grids.
pub proof fn lemma_identities_reduced<T: ExactScalar>(n: nat, k: nat)
    requires
        k <= n,
    ensures
        identities::<T>(n).reduced(k) == identities::<T>(n),
    decreases k,
{
    if k > 0 {
        lemma_identities_reduced::<T>(n, (k - 1) as nat);
        lemma_identities_stage::<T>(n, k - 1);
    }
}

/// Over exact scalars, an identity matrix with at least one row is its own
/// inverse.
pub proof fn lemma_identity_inverse<T: ExactScalar>(n: nat)
    requires
        n >= 1,
    ensures
        Grid::<T>::identity(n, n).inverse() == Some(Grid::<T>::identity(n, n)),
{
    lemma_identity::<T>(n);
    lemma_identity_determinant::<T>(n);
    T::lemma_one_is_not_zero();
    lemma_identities_reduced::<T>(n, n);
}

/// Over exact scalars, the arg-max among the first `n` cells is the first
/// greatest of them: no cell among them is greater, and every cell before it
/// is less.
pub proof fn lemma_argmax_upto<T: ExactScalar>(g: Grid<T>, n: nat)
    requires
        1 <= n <= g.cells.len(),
    ensures
        g.argmax_upto(n) < n,
        forall|k: int| 0 <= k < n ==> !g.cells[g.argmax_upto(n) as int].less(#[trigger] g.cells[k]),
        forall|k: int|
            0 <= k < g.argmax_upto(n) ==> (#[trigger] g.cells[k]).less(
                g.cells[g.argmax_upto(n) as int],
            ),
    decreases n,
{
    let best = g.argmax_upto(n) as int;
    if n == 1 {
        T::lemma_order(g.cells[0], g.cells[0], g.cells[0]);
    } else {
        lemma_argmax_upto(g, (n - 1) as nat);
        let before = g.argmax_upto((n - 1) as nat) as int;
        let last = n - 1;
        if g.cells[before].less(g.cells[last]) {
            assert(best == last);
            assert forall|k: int| 0 <= k < n implies !g.cells[best].less(#[trigger] g.cells[k]) by {
                if k < last {
                    T::lemma_order(g.cells[before], g.cells[last], g.cells[k]);
                    if g.cells[last].less(g.cells[k]) {
                        assert(g.cells[before].less(g.cells[k]));
                    }
                } else {
                    T::lemma_order(g.cells[last], g.cells[last], g.cells[last]);
                }
            }
            assert forall|k: int| 0 <= k < best implies (#[trigger] g.cells[k]).less(
                g.cells[best],
            ) by {
                T::lemma_order(g.cells[k], g.cells[before], g.cells[last]);
                if !g.cells[k].less(g.cells[last]) {
                    T::lemma_order(g.cells[before], g.cells[k], g.cells[last]);
                }
            }
        } else {
            assert(best == before);
        }
    }
}

/// Over exact scalars, the arg-max of a grid with cells is the place of its
/// first greatest cell.
pub proof fn lemma_argmax<T: ExactScalar>(g: Grid<T>)
    requires
        g.cells.len() > 0,
    ensures
        g.argmax() < g.cells.len(),
        forall|k: int| 0 <= k < g.cells.len() ==> !g.cells[g.argmax() as int].less(
            #[trigger] g.cells[k],
        ),
        forall|k: int| 0 <= k < g.argmax() ==> (#[trigger] g.cells[k]).less(g.cells[g.argmax() as int]),
{
    lemma_argmax_upto(g, g.cells.len());
}

} // verus!
