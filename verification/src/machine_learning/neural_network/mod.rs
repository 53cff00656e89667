//! Feed-forward networks.
pub mod laws;
pub mod methods;
pub mod model;
pub mod text;
pub mod training;

use crate::linear_algebra::model::Grid;
use crate::linear_algebra::Matrix;
use crate::machine_learning::neural_network::model::Net;
use crate::scalar::{within, Sampled, Scalar};
use vstd::prelude::*;
use vstd::std_specs::cmp::PartialEqSpecImpl;

verus! {

/// A stack of fully connected layers: for each step from one layer to the
/// next a matrix of weights and a column of biases.
#[derive(Debug)]
pub struct NeuralNetwork<T> {
    weights: Vec<Matrix<T>>,
    biases: Vec<Matrix<T>>,
    shape: Vec<usize>,
}

impl<T> View for NeuralNetwork<T> {
    type V = Net<T>;

    closed spec fn view(&self) -> Net<T> {
        Net {
            shape: self.shape@,
            weights: Seq::new(self.weights@.len(), |i: int| self.weights@[i]@),
            biases: Seq::new(self.biases@.len(), |i: int| self.biases@[i]@),
        }
    }
}

/// A shape names at least one layer, and the weights between each two
/// neighbouring layers can be held in memory.
pub open spec fn shape_fits(shape: Seq<usize>) -> bool {
    &&& shape.len() >= 1
    &&& forall|i: int| 0 <= i < shape.len() - 1 ==> #[trigger] shape[i + 1] * shape[i] <= usize::MAX
}

/// Every weight and bias of `net` is something that `sampler` may return.
pub open spec fn drawn_from<T, F: Fn() -> T>(net: Net<T>, sampler: &F) -> bool {
    &&& forall|i: int, k: int|
        0 <= i < net.weights.len() && 0 <= k < net.weights[i].cells.len() ==> call_ensures(
            sampler,
            (),
            #[trigger] net.weights[i].cells[k],
        )
    &&& forall|i: int, k: int|
        0 <= i < net.biases.len() && 0 <= k < net.biases[i].cells.len() ==> call_ensures(
            sampler,
            (),
            #[trigger] net.biases[i].cells[k],
        )
}

/// Every weight and bias of `net` lies at or above `low` and below `high`.
pub open spec fn drawn_between<T: Scalar>(net: Net<T>, low: T, high: T) -> bool {
    &&& forall|i: int, k: int|
        0 <= i < net.weights.len() && 0 <= k < net.weights[i].cells.len() ==> within(
            #[trigger] net.weights[i].cells[k],
            low,
            high,
        )
    &&& forall|i: int, k: int|
        0 <= i < net.biases.len() && 0 <= k < net.biases[i].cells.len() ==> within(
            #[trigger] net.biases[i].cells[k],
            low,
            high,
        )
}

impl<T: Scalar> NeuralNetwork<T> {
    /// Every matrix that the network holds is well formed.
    pub closed spec fn storage_wf(&self) -> bool {
        &&& forall|i: int| 0 <= i < self.weights@.len() ==> (#[trigger] self.weights@[i]).wf()
        &&& forall|i: int| 0 <= i < self.biases@.len() ==> (#[trigger] self.biases@[i]).wf()
    }

    /// The matrices have the shapes that the node counts call for.
    pub open spec fn wf(&self) -> bool {
        &&& self@.wf()
        &&& shape_fits(self@.shape)
        &&& self.storage_wf()
    }

    /// A network over the given parts.
    pub(crate) fn from_parts(
        weights: Vec<Matrix<T>>,
        biases: Vec<Matrix<T>>,
        shape: Vec<usize>,
    ) -> (n: Self)
        requires
            shape_fits(shape@),
            shape@.len() == weights@.len() + 1,
            biases@.len() == weights@.len(),
            forall|i: int|
                0 <= i < weights@.len() ==> {
                    &&& (#[trigger] weights@[i]).wf()
                    &&& weights@[i]@.rows == shape@[i + 1]
                    &&& weights@[i]@.cols == shape@[i]
                },
            forall|i: int|
                0 <= i < biases@.len() ==> {
                    &&& (#[trigger] biases@[i]).wf()
                    &&& biases@[i]@.rows == shape@[i + 1]
                    &&& biases@[i]@.cols == 1
                },
        ensures
            n.wf(),
            n@.shape == shape@,
            n@.weights == Seq::new(weights@.len(), |i: int| weights@[i]@),
            n@.biases == Seq::new(biases@.len(), |i: int| biases@[i]@),
    {
        NeuralNetwork { weights, biases, shape }
    }

    /// A network of the given shape with `scale` in every weight and bias.
    pub fn scalar(shape: Vec<usize>, scale: T) -> (n: Self)
        requires
            shape_fits(shape@),
        ensures
            n.wf(),
            n@ == Net::filled(shape@, scale),
    {
        let steps: usize = shape.len() - 1;
        let mut weights: Vec<Matrix<T>> = Vec::new();
        let mut biases: Vec<Matrix<T>> = Vec::new();
        let mut i: usize = 0;
        while i < steps
            invariant
                shape_fits(shape@),
                steps == shape@.len() - 1,
                i <= steps,
                weights@.len() == i,
                biases@.len() == i,
                forall|k: int|
                    0 <= k < i ==> {
                        &&& (#[trigger] weights@[k]).wf()
                        &&& weights@[k]@ == Grid::filled(
                            shape@[k + 1] as nat,
                            shape@[k] as nat,
                            scale,
                        )
                    },
                forall|k: int|
                    0 <= k < i ==> {
                        &&& (#[trigger] biases@[k]).wf()
                        &&& biases@[k]@ == Grid::filled(shape@[k + 1] as nat, 1, scale)
                    },
            decreases steps - i,
        {
            assert(shape@[i as int + 1] * shape@[i as int] <= usize::MAX);
            weights.push(Matrix::from_value(shape[i + 1], shape[i], scale));
            biases.push(Matrix::from_value(shape[i + 1], 1, scale));
            i += 1;
        }
        let n = NeuralNetwork { weights, biases, shape };
        proof {
            assert(n@.weights =~= Net::filled(shape@, scale).weights);
            assert(n@.biases =~= Net::filled(shape@, scale).biases);
        }
        n
    }

    /// A network of the given shape with zero in every weight and bias.
    pub fn zeros(shape: Vec<usize>) -> (n: Self)
        requires
            shape_fits(shape@),
        ensures
            n.wf(),
            n@ == Net::filled(shape@, T::zero_value()),
    {
        Self::scalar(shape, T::zero())
    }

    /// A network of the given shape whose weights and biases are drawn one by
    /// one from `sampler`.
    pub fn from_distribution<F: Fn() -> T>(shape: Vec<usize>, sampler: &F) -> (n: Self)
        requires
            shape_fits(shape@),
            call_requires(sampler, ()),
        ensures
            n.wf(),
            n@.shape == shape@,
            drawn_from(n@, sampler),
    {
        let steps: usize = shape.len() - 1;
        let mut weights: Vec<Matrix<T>> = Vec::new();
        let mut biases: Vec<Matrix<T>> = Vec::new();
        let mut i: usize = 0;
        while i < steps
            invariant
                shape_fits(shape@),
                call_requires(sampler, ()),
                steps == shape@.len() - 1,
                i <= steps,
                weights@.len() == i,
                biases@.len() == i,
                forall|k: int|
                    0 <= k < i ==> {
                        &&& (#[trigger] weights@[k]).wf()
                        &&& weights@[k]@.rows == shape@[k + 1]
                        &&& weights@[k]@.cols == shape@[k]
                    },
                forall|k: int|
                    0 <= k < i ==> {
                        &&& (#[trigger] biases@[k]).wf()
                        &&& biases@[k]@.rows == shape@[k + 1]
                        &&& biases@[k]@.cols == 1
                    },
                forall|k: int, x: int|
                    0 <= k < i && 0 <= x < weights@[k]@.cells.len() ==> call_ensures(
                        sampler,
                        (),
                        #[trigger] weights@[k]@.cells[x],
                    ),
                forall|k: int, x: int|
                    0 <= k < i && 0 <= x < biases@[k]@.cells.len() ==> call_ensures(
                        sampler,
                        (),
                        #[trigger] biases@[k]@.cells[x],
                    ),
            decreases steps - i,
        {
            assert(shape@[i as int + 1] * shape@[i as int] <= usize::MAX);
            weights.push(Matrix::from_distribution(shape[i + 1], shape[i], sampler));
            biases.push(Matrix::from_distribution(shape[i + 1], 1, sampler));
            i += 1;
        }
        NeuralNetwork { weights, biases, shape }
    }

    /// A network of the given shape whose weights and biases are drawn evenly
    /// from minus one up to, but not including, one.
    pub fn random(shape: Vec<usize>) -> (n: Self) where T: Sampled
        requires
            shape_fits(shape@),
            T::one_value().negated().less(T::one_value()),
        ensures
            n.wf(),
            n@.shape == shape@,
            drawn_between(n@, T::one_value().negated(), T::one_value()),
    {
        let steps: usize = shape.len() - 1;
        let low = T::one().neg();
        let high = T::one();
        let mut weights: Vec<Matrix<T>> = Vec::new();
        let mut biases: Vec<Matrix<T>> = Vec::new();
        let mut i: usize = 0;
        while i < steps
            invariant
                shape_fits(shape@),
                low == T::one_value().negated(),
                high == T::one_value(),
                low.less(high),
                steps == shape@.len() - 1,
                i <= steps,
                weights@.len() == i,
                biases@.len() == i,
                forall|k: int|
                    0 <= k < i ==> {
                        &&& (#[trigger] weights@[k]).wf()
                        &&& weights@[k]@.rows == shape@[k + 1]
                        &&& weights@[k]@.cols == shape@[k]
                    },
                forall|k: int|
                    0 <= k < i ==> {
                        &&& (#[trigger] biases@[k]).wf()
                        &&& biases@[k]@.rows == shape@[k + 1]
                        &&& biases@[k]@.cols == 1
                    },
                forall|k: int, x: int|
                    0 <= k < i && 0 <= x < weights@[k]@.cells.len() ==> within(
                        #[trigger] weights@[k]@.cells[x],
                        low,
                        high,
                    ),
                forall|k: int, x: int|
                    0 <= k < i && 0 <= x < biases@[k]@.cells.len() ==> within(
                        #[trigger] biases@[k]@.cells[x],
                        low,
                        high,
                    ),
            decreases steps - i,
        {
            assert(shape@[i as int + 1] * shape@[i as int] <= usize::MAX);
            weights.push(Matrix::random(shape[i + 1], shape[i], low, high));
            biases.push(Matrix::random(shape[i + 1], 1, low, high));
            i += 1;
        }
        NeuralNetwork { weights, biases, shape }
    }

    /// The node counts of the layers, input first.
    pub fn shape(&self) -> (s: &Vec<usize>)
        ensures
            s@ == self@.shape,
    {
        &self.shape
    }

    /// A copy of the node counts.
    pub(crate) fn copy_shape(&self) -> (s: Vec<usize>)
        ensures
            s@ == self@.shape,
    {
        let mut s: Vec<usize> = Vec::new();
        let mut i: usize = 0;
        while i < self.shape.len()
            invariant
                i <= self.shape@.len(),
                s@.len() == i,
                forall|k: int| 0 <= k < i ==> s@[k] == self.shape@[k],
            decreases self.shape@.len() - i,
        {
            s.push(self.shape[i]);
            i += 1;
        }
        assert(s@ =~= self.shape@);
        s
    }

    /// The number of steps from one layer to the next.
    pub fn layers(&self) -> (n: usize)
        ensures
            n == self@.layers(),
    {
        self.weights.len()
    }

    /// The weights of step `i`.
    pub fn weight(&self, i: usize) -> (w: &Matrix<T>)
        requires
            self.wf(),
            i < self@.layers(),
        ensures
            w.wf(),
            w@ == self@.weights[i as int],
    {
        &self.weights[i]
    }

    /// The biases of step `i`.
    pub fn bias(&self, i: usize) -> (b: &Matrix<T>)
        requires
            self.wf(),
            i < self@.layers(),
        ensures
            b.wf(),
            b@ == self@.biases[i as int],
    {
        &self.biases[i]
    }
}

/// Whether the matrices of two runs are equal, each to the one in its place.
fn same_matrices<T: Scalar>(a: &Vec<Matrix<T>>, b: &Vec<Matrix<T>>) -> (r: bool)
    ensures
        r == {
            &&& a@.len() == b@.len()
            &&& forall|i: int| 0 <= i < a@.len() ==> (#[trigger] a@[i])@.alike(b@[i]@)
        },
{
    if a.len() != b.len() {
        return false;
    }
    let mut i: usize = 0;
    while i < a.len()
        invariant
            i <= a@.len(),
            a@.len() == b@.len(),
            forall|k: int| 0 <= k < i ==> (#[trigger] a@[k])@.alike(b@[k]@),
        decreases a@.len() - i,
    {
        if a[i] != b[i] {
            assert(!a@[i as int]@.alike(b@[i as int]@));
            return false;
        }
        i += 1;
    }
    true
}

impl<T: Scalar> PartialEq for NeuralNetwork<T> {
    /// Whether the networks have the same node counts and weights and biases
    /// that are equal as numbers.
    fn eq(&self, other: &Self) -> (r: bool) {
        if self.shape.len() != other.shape.len() {
            return false;
        }
        let mut i: usize = 0;
        while i < self.shape.len()
            invariant
                i <= self.shape@.len(),
                self.shape@.len() == other.shape@.len(),
                forall|k: int| 0 <= k < i ==> self.shape@[k] == other.shape@[k],
            decreases self.shape@.len() - i,
        {
            if self.shape[i] != other.shape[i] {
                return false;
            }
            i += 1;
        }
        assert(self.shape@ =~= other.shape@);
        let weights = same_matrices(&self.weights, &other.weights);
        let biases = same_matrices(&self.biases, &other.biases);
        proof {
            if weights && biases {
                assert forall|k: int| 0 <= k < self@.weights.len() implies (
                #[trigger] self@.weights[k]).alike(other@.weights[k]) by {
                    assert(self.weights@[k]@.alike(other.weights@[k]@));
                }
                assert forall|k: int| 0 <= k < self@.biases.len() implies (
                #[trigger] self@.biases[k]).alike(other@.biases[k]) by {
                    assert(self.biases@[k]@.alike(other.biases@[k]@));
                }
            }
            if self@.alike(other@) {
                assert forall|k: int| 0 <= k < self.weights@.len() implies (
                #[trigger] self.weights@[k])@.alike(other.weights@[k]@) by {
                    assert(self@.weights[k].alike(other@.weights[k]));
                }
                assert forall|k: int| 0 <= k < self.biases@.len() implies (
                #[trigger] self.biases@[k])@.alike(other.biases@[k]@) by {
                    assert(self@.biases[k].alike(other@.biases[k]));
                }
            }
        }
        weights && biases
    }
}

impl<T: Scalar> PartialEqSpecImpl for NeuralNetwork<T> {
    open spec fn obeys_eq_spec() -> bool {
        true
    }

    open spec fn eq_spec(&self, other: &Self) -> bool {
        self@.alike(other@)
    }
}

} // verus!
