use crate::calculus::cost_functions::CostFunction;
use crate::calculus::functions::{activated, slope_at, Function};
use crate::linear_algebra::model::Grid;
use crate::machine_learning::dataset::Example;
use crate::scalar::Scalar;
use vstd::prelude::*;

verus! {

/// The mathematical value of a network: the node count of each layer, and
/// for each step from one layer to the next a grid of weights and a column
/// of biases.
pub struct Net<T> {
    pub shape: Seq<usize>,
    pub weights: Seq<Grid<T>>,
    pub biases: Seq<Grid<T>>,
}

impl<T: Scalar> Net<T> {
    /// The number of steps from one layer to the next.
    pub open spec fn layers(self) -> nat {
        self.weights.len()
    }

    /// Weights `i` have shape `(shape[i + 1], shape[i])` and biases `i` have
    /// shape `(shape[i + 1], 1)`, with one of each for every step.
    pub open spec fn wf(self) -> bool {
        &&& self.shape.len() == self.weights.len() + 1
        &&& self.biases.len() == self.weights.len()
        &&& forall|i: int|
            0 <= i < self.weights.len() ==> {
                &&& (#[trigger] self.weights[i]).wf()
                &&& self.weights[i].rows == self.shape[i + 1]
                &&& self.weights[i].cols == self.shape[i]
            }
        &&& forall|i: int|
            0 <= i < self.biases.len() ==> {
                &&& (#[trigger] self.biases[i]).wf()
                &&& self.biases[i].rows == self.shape[i + 1]
                &&& self.biases[i].cols == 1
            }
    }

    /// The networks have the same node counts, and their weights and biases
    /// are alike, each to the one in its place.
    pub open spec fn alike(self, other: Net<T>) -> bool {
        &&& self.shape == other.shape
        &&& self.weights.len() == other.weights.len()
        &&& self.biases.len() == other.biases.len()
        &&& forall|i: int|
            0 <= i < self.weights.len() ==> (#[trigger] self.weights[i]).alike(other.weights[i])
        &&& forall|i: int|
            0 <= i < self.biases.len() ==> (#[trigger] self.biases[i]).alike(other.biases[i])
    }

    /// The network of the given shape with `value` in every weight and bias.
    pub open spec fn filled(shape: Seq<usize>, value: T) -> Net<T> {
        Net {
            shape,
            weights: Seq::new(
                (shape.len() - 1) as nat,
                |i: int| Grid::filled(shape[i + 1] as nat, shape[i] as nat, value),
            ),
            biases: Seq::new(
                (shape.len() - 1) as nat,
                |i: int| Grid::filled(shape[i + 1] as nat, 1, value),
            ),
        }
    }

    /// The input is a column with one row for each node of the first layer.
    pub open spec fn accepts(self, input: Grid<T>) -> bool {
        &&& input.wf()
        &&& input.rows == self.shape[0]
        &&& input.cols == 1
    }

    /// What step `i` is fed: the input itself for the first step, the
    /// activations of the sums before it for every other.
    pub open spec fn fed<F: Function<T>>(self, f: &F, input: Grid<T>, i: nat) -> Grid<T>
        decreases i, 0nat,
    {
        if i == 0 {
            input
        } else {
            activated(f, self.sums(f, input, (i - 1) as nat))
        }
    }

    /// The sums of step `i` before activation: weights times what the step is
    /// fed, plus biases.
    pub open spec fn sums<F: Function<T>>(self, f: &F, input: Grid<T>, i: nat) -> Grid<T>
        decreases i, 1nat,
    {
        self.weights[i as int].product(self.fed(f, input, i)).plus(self.biases[i as int])
    }

    /// The activations of the last layer; the empty grid for a network
    /// without steps.
    pub open spec fn output<F: Function<T>>(self, f: &F, input: Grid<T>) -> Grid<T> {
        if self.layers() == 0 {
            Grid::<T>::zeros(0, 0)
        } else {
            activated(f, self.sums(f, input, (self.layers() - 1) as nat))
        }
    }

    /// The error signal of step `i` for one example: at the last step the
    /// derivative of the cost at the output, at every other step the signal of
    /// the step above carried back through its transposed weights, each
    /// multiplied cell-wise by the slope of the activation.
    pub open spec fn delta<F: Function<T>>(
        self,
        f: &F,
        cost: &CostFunction,
        example: Example<T>,
        i: nat,
    ) -> Grid<T>
        decreases self.layers() - i,
    {
        let z = self.sums(f, example.input, i);
        if i + 1 >= self.layers() {
            cost.gradient(activated(f, z), example.label).hadamard(slope_at(f, z))
        } else {
            self.weights[i as int + 1].transposed().product(
                self.delta(f, cost, example, i + 1),
            ).hadamard(slope_at(f, z))
        }
    }

    /// The gradient of the cost of one example: for each step its error signal
    /// as the gradient of the biases, and the signal times the transpose of
    /// what the step was fed as the gradient of the weights.
    pub open spec fn example_gradient<F: Function<T>>(
        self,
        f: &F,
        cost: &CostFunction,
        example: Example<T>,
    ) -> Net<T> {
        Net {
            shape: self.shape,
            weights: Seq::new(
                self.layers(),
                |i: int|
                    self.delta(f, cost, example, i as nat).product(
                        self.fed(f, example.input, i as nat).transposed(),
                    ),
            ),
            biases: Seq::new(self.layers(), |i: int| self.delta(f, cost, example, i as nat)),
        }
    }

    /// Cell-wise sum with a network of the same shape.
    pub open spec fn plus(self, other: Net<T>) -> Net<T> {
        Net {
            shape: self.shape,
            weights: Seq::new(self.layers(), |i: int| self.weights[i].plus(other.weights[i])),
            biases: Seq::new(self.layers(), |i: int| self.biases[i].plus(other.biases[i])),
        }
    }

    /// The gradients of the examples added up, from zero, in order.
    pub open spec fn batch_gradient<F: Function<T>>(
        self,
        f: &F,
        cost: &CostFunction,
        batch: Seq<Example<T>>,
    ) -> Net<T>
        decreases batch.len(),
    {
        if batch.len() == 0 {
            Net::filled(self.shape, T::zero_value())
        } else {
            self.batch_gradient(f, cost, batch.drop_last()).plus(
                self.example_gradient(f, cost, batch.last()),
            )
        }
    }

    /// A gradient can be taken: the network has a step, the batch has an
    /// example, and the network accepts every input.
    pub open spec fn trainable_on(self, batch: Seq<Example<T>>) -> bool {
        &&& self.layers() > 0
        &&& batch.len() > 0
        &&& forall|k: int| 0 <= k < batch.len() ==> self.accepts((#[trigger] batch[k]).input)
    }

    /// Every label names a node of the last layer.
    pub open spec fn labels_fit(self, batch: Seq<Example<T>>) -> bool {
        forall|k: int| 0 <= k < batch.len() ==> (#[trigger] batch[k]).label < self.shape.last()
    }

    /// The network less `rate` times `gradient`, cell by cell.
    pub open spec fn stepped(self, gradient: Net<T>, rate: T) -> Net<T> {
        Net {
            shape: self.shape,
            weights: Seq::new(
                self.layers(),
                |i: int| self.weights[i].minus(gradient.weights[i].scaled(rate)),
            ),
            biases: Seq::new(
                self.layers(),
                |i: int| self.biases[i].minus(gradient.biases[i].scaled(rate)),
            ),
        }
    }

    /// The network after one batch: stepped against the gradient of the batch
    /// at the learning rate divided by the size of the batch. A batch of which
    /// no gradient can be taken, or whose size counts as zero, changes nothing.
    pub open spec fn after_batch<F: Function<T>>(
        self,
        f: &F,
        cost: &CostFunction,
        batch: Seq<Example<T>>,
        learning_rate: T,
    ) -> Net<T> {
        let size = T::of_count(batch.len() as usize);
        if !self.trainable_on(batch) || size.same(T::zero_value()) {
            self
        } else {
            self.stepped(self.batch_gradient(f, cost, batch), learning_rate.over(size))
        }
    }

    /// The network after the examples, taken in order in batches of
    /// `batch_size`, the last of which may be smaller.
    pub open spec fn trained<F: Function<T>>(
        self,
        f: &F,
        cost: &CostFunction,
        examples: Seq<Example<T>>,
        batch_size: nat,
        learning_rate: T,
    ) -> Net<T>
        decreases examples.len(),
    {
        if examples.len() == 0 || batch_size == 0 {
            self
        } else {
            let n = if batch_size < examples.len() {
                batch_size
            } else {
                examples.len()
            };
            self.after_batch(f, cost, examples.take(n as int), learning_rate).trained(
                f,
                cost,
                examples.skip(n as int),
                batch_size,
                learning_rate,
            )
        }
    }

    /// The network decides for the class of the example: the greatest output
    /// is that of the label.
    pub open spec fn hits<F: Function<T>>(self, f: &F, example: Example<T>) -> bool {
        self.output(f, example.input).argmax() == example.label
    }

    /// The number of examples for whose class the network decides.
    pub open spec fn count_hits<F: Function<T>>(self, f: &F, examples: Seq<Example<T>>) -> nat
        decreases examples.len(),
    {
        if examples.len() == 0 {
            0
        } else {
            self.count_hits(f, examples.drop_last()) + if self.hits(f, examples.last()) {
                1nat
            } else {
                0nat
            }
        }
    }
}

/// The share `hits` of `total` as a scalar. A total that counts as zero is
/// not divided by: the share is then the count of hits itself.
pub open spec fn accuracy<T: Scalar>(hits: nat, total: nat) -> T {
    let all = T::of_count(total as usize);
    if all.same(T::zero_value()) {
        T::of_count(hits as usize)
    } else {
        T::of_count(hits as usize).over(all)
    }
}

} // verus!
