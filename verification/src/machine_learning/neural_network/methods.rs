use crate::calculus::cost_functions::{CostFunction, CostKind};
use crate::calculus::functions::{apply_activation, Function};
use crate::linear_algebra::Matrix;
use crate::machine_learning::neural_network::NeuralNetwork;
use crate::scalar::Scalar;
use vstd::prelude::*;

verus! {

/// The differences of `result` from the expectation for class `label`, each
/// passed through the cost (`slope` false) or through its derivative.
pub(crate) fn against_label<T: Scalar>(
    cost: &CostFunction,
    result: &Matrix<T>,
    label: u8,
    slope: bool,
) -> (m: Matrix<T>)
    requires
        result.wf(),
        result@.in_range(label as int, 0),
    ensures
        m.wf(),
        m@ == if slope {
            cost.gradient(result@, label)
        } else {
            cost.costs(result@, label)
        },
{
    let mut m = result.copy();
    let n: usize = m.len();
    let target: usize = m.offset(label as usize, 0);
    let mut k: usize = 0;
    while k < n
        invariant
            m.wf(),
            k <= n,
            n == m@.cells.len(),
            target == label * result@.cols,
            m@.same_shape(result@),
            m@.cells.len() == result@.cells.len(),
            forall|x: int| k <= x < n ==> m@.cells[x] == result@.cells[x],
            forall|x: int|
                0 <= x < k ==> m@.cells[x] == if slope {
                    cost.gradient(result@, label).cells[x]
                } else {
                    cost.costs(result@, label).cells[x]
                },
        decreases n - k,
    {
        let cell = m.flat(k);
        let off = if k == target {
            cell.sub(T::one())
        } else {
            cell
        };
        assert(off == CostFunction::differences(result@, label).cells[k as int]);
        let v = if slope {
            cost.derive(off)
        } else {
            cost.calc_cost(off)
        };
        m.put_flat(k, v);
        k += 1;
    }
    proof {
        if slope {
            assert(m@.cells =~= cost.gradient(result@, label).cells);
        } else {
            assert(m@.cells =~= cost.costs(result@, label).cells);
        }
    }
    m
}

impl<T: Scalar> NeuralNetwork<T> {
    /// The sums of every step before activation, for one input: step `i` is
    /// fed the activations of the sums of step `i - 1`.
    pub fn propagate_returning_all_nodes_prior_to_activation<F: Function<T>>(
        &self,
        input: &Matrix<T>,
        f: &F,
    ) -> (nodes: Vec<Matrix<T>>)
        requires
            f.valid(),
            self.wf(),
            input.wf(),
            self@.accepts(input@),
        ensures
            nodes@.len() == self@.layers(),
            forall|i: int|
                0 <= i < nodes@.len() ==> {
                    &&& (#[trigger] nodes@[i]).wf()
                    &&& nodes@[i]@ == self@.sums(f, input@, i as nat)
                    &&& nodes@[i]@.rows == self@.shape[i + 1]
                    &&& nodes@[i]@.cols == 1
                },
    {
        let steps: usize = self.layers();
        let mut nodes: Vec<Matrix<T>> = Vec::new();
        let mut fed: Matrix<T> = input.copy();
        let mut i: usize = 0;
        while i < steps
            invariant
                f.valid(),
                self.wf(),
                i <= steps,
                steps == self@.layers(),
                nodes@.len() == i,
                fed.wf(),
                fed@ == self@.fed(f, input@, i as nat),
                fed@.rows == self@.shape[i as int],
                fed@.cols == 1,
                forall|k: int|
                    0 <= k < i ==> {
                        &&& (#[trigger] nodes@[k]).wf()
                        &&& nodes@[k]@ == self@.sums(f, input@, k as nat)
                        &&& nodes@[k]@.rows == self@.shape[k + 1]
                        &&& nodes@[k]@.cols == 1
                    },
            decreases steps - i,
        {
            let w = self.weight(i);
            let b = self.bias(i);
            let z = w.mul(&fed).add(b);
            fed = apply_activation(f, z.copy());
            nodes.push(z);
            i += 1;
        }
        nodes
    }

    /// The activations of the last layer for one input: each step takes the
    /// weights times what it is fed, adds the biases and activates the sums.
    /// A network without steps gives the empty matrix.
    pub fn propagate<F: Function<T>>(&self, input: &Matrix<T>, f: &F) -> (output: Matrix<T>)
        requires
            f.valid(),
            self.wf(),
            input.wf(),
            self@.accepts(input@),
        ensures
            output.wf(),
            output@ == self@.output(f, input@),
    {
        let steps: usize = self.layers();
        if steps == 0 {
            return Matrix::zeros(0, 0);
        }
        let mut fed: Matrix<T> = input.copy();
        let mut i: usize = 0;
        while i < steps
            invariant
                f.valid(),
                self.wf(),
                i <= steps,
                steps == self@.layers(),
                fed.wf(),
                fed@ == self@.fed(f, input@, i as nat),
                fed@.rows == self@.shape[i as int],
                fed@.cols == 1,
            decreases steps - i,
        {
            let w = self.weight(i);
            let b = self.bias(i);
            let z = w.mul(&fed).add(b);
            fed = apply_activation(f, z);
            i += 1;
        }
        fed
    }

    /// The quadratic cost of each result against the expectation for class
    /// `label`: `(r - e)^2`, where `e` is one in row `label` and zero elsewhere.
    pub fn _cost(result_matrix: &Matrix<T>, label: u8) -> (m: Matrix<T>)
        requires
            result_matrix.wf(),
            result_matrix@.in_range(label as int, 0),
        ensures
            m.wf(),
            m@ == (CostFunction { kind: CostKind::Quadratic }).costs(result_matrix@, label),
    {
        against_label(&CostFunction::quadratic(), result_matrix, label, false)
    }

    /// The derivative of the quadratic cost of each result against the
    /// expectation for class `label`: `2 * (r - e)`.
    pub fn cost_derivative(result_matrix: &Matrix<T>, label: u8) -> (m: Matrix<T>)
        requires
            result_matrix.wf(),
            result_matrix@.in_range(label as int, 0),
        ensures
            m.wf(),
            m@ == (CostFunction { kind: CostKind::Quadratic }).gradient(result_matrix@, label),
    {
        against_label(&CostFunction::quadratic(), result_matrix, label, true)
    }
}

} // verus!
