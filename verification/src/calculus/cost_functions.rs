use crate::linear_algebra::model::Grid;
use crate::scalar::Scalar;
use vstd::prelude::*;

verus! {

/// The square of a difference between a result and what was expected.
pub open spec fn squared<T: Scalar>(t: T) -> T {
    t.times(t)
}

/// Twice a difference: the derivative of its square.
pub open spec fn doubled<T: Scalar>(t: T) -> T {
    T::one_value().plus(T::one_value()).times(t)
}

/// The quadratic cost of a difference `t` between result and expectation.
pub fn quadratic_cost<T: Scalar>(t: T) -> (r: T)
    ensures
        r == squared(t),
{
    t.mul(t)
}

/// The derivative of the quadratic cost at a difference `t`.
pub fn quadratic_cost_derivative<T: Scalar>(t: T) -> (r: T)
    ensures
        r == doubled(t),
{
    T::one().add(T::one()).mul(t)
}

/// Which cost a network is trained against.
#[derive(Debug, Clone, Copy, PartialEq, Eq)]
pub enum CostKind {
    Quadratic,
}

/// A cost function and its derivative, both taken at the difference between
/// a result and the expected value.
#[derive(Debug, Clone, Copy)]
pub struct CostFunction {
    pub kind: CostKind,
}

impl CostFunction {
    /// The cost of a difference `t`.
    pub open spec fn cost_of<T: Scalar>(&self, t: T) -> T {
        match self.kind {
            CostKind::Quadratic => squared(t),
        }
    }

    /// The derivative of the cost at a difference `t`.
    pub open spec fn slope_of<T: Scalar>(&self, t: T) -> T {
        match self.kind {
            CostKind::Quadratic => doubled(t),
        }
    }

    /// The differences between a column of results and the expectation for
    /// class `label`, which is one in row `label` and zero elsewhere: the
    /// result less one in that row, the result itself in every other.
    pub open spec fn differences<T: Scalar>(result: Grid<T>, label: u8) -> Grid<T> {
        Grid {
            rows: result.rows,
            cols: result.cols,
            cells: Seq::new(
                result.cells.len(),
                |k: int|
                    if k == label * result.cols {
                        result.cells[k].minus(T::one_value())
                    } else {
                        result.cells[k]
                    },
            ),
        }
    }

    /// The cost of each result against the expectation for class `label`.
    pub open spec fn costs<T: Scalar>(&self, result: Grid<T>, label: u8) -> Grid<T> {
        Grid {
            rows: result.rows,
            cols: result.cols,
            cells: Seq::new(
                result.cells.len(),
                |k: int| self.cost_of(Self::differences(result, label).cells[k]),
            ),
        }
    }

    /// The derivative of the cost of each result against the expectation for
    /// class `label`.
    pub open spec fn gradient<T: Scalar>(&self, result: Grid<T>, label: u8) -> Grid<T> {
        Grid {
            rows: result.rows,
            cols: result.cols,
            cells: Seq::new(
                result.cells.len(),
                |k: int| self.slope_of(Self::differences(result, label).cells[k]),
            ),
        }
    }

    /// The quadratic cost, `(r - e)^2`, with derivative `2 * (r - e)`.
    pub fn quadratic() -> (c: Self)
        ensures
            c.kind == CostKind::Quadratic,
    {
        CostFunction { kind: CostKind::Quadratic }
    }

    /// The cost of a difference `t` between a result and what was expected.
    pub fn calc_cost<T: Scalar>(&self, t: T) -> (r: T)
        ensures
            r == self.cost_of(t),
    {
        match self.kind {
            CostKind::Quadratic => quadratic_cost(t),
        }
    }

    /// The derivative of the cost at a difference `t`.
    pub fn derive<T: Scalar>(&self, t: T) -> (r: T)
        ensures
            r == self.slope_of(t),
    {
        match self.kind {
            CostKind::Quadratic => quadratic_cost_derivative(t),
        }
    }
}

} // verus!
