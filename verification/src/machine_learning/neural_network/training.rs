use crate::calculus::cost_functions::{CostFunction, CostKind};
use crate::calculus::functions::{apply_activation, apply_slope, Function};
use crate::linear_algebra::Matrix;
use crate::machine_learning::dataset::{all_wf, examples_of, DataSet, DataVector};
use crate::machine_learning::neural_network::model::accuracy;
use crate::machine_learning::neural_network::methods::against_label;
use crate::machine_learning::neural_network::NeuralNetwork;
use crate::scalar::Scalar;
use vstd::prelude::*;
use vstd::slice::slice_subrange;

verus! {

impl<T: Scalar> NeuralNetwork<T> {
    /// The gradient of the cost of one example, by backpropagation: the error
    /// signal starts at the last step as the derivative of the cost times the
    /// slope of the activation, and is carried down step by step through the
    /// transposed weights.
    pub fn example_gradient<F: Function<T>>(
        &self,
        example: &DataVector<T>,
        f: &F,
        cost: &CostFunction,
    ) -> (gradient: Self)
        requires
            f.valid(),
            self.wf(),
            example.data.wf(),
            self@.layers() > 0,
            self@.accepts(example@.input),
            example.label < self@.shape.last(),
        ensures
            gradient.wf(),
            gradient@ == self@.example_gradient(f, cost, example@),
    {
        let steps: usize = self.layers();
        let top: usize = steps - 1;
        let input = &example.data;
        let nodes = self.propagate_returning_all_nodes_prior_to_activation(input, f);
        let mut rev_w: Vec<Matrix<T>> = Vec::new();
        let mut rev_b: Vec<Matrix<T>> = Vec::new();
        let out = apply_activation(f, nodes[top].copy());
        let incoming = against_label(cost, &out, example.label, true);
        let mut delta = incoming.component_mul(&apply_slope(f, nodes[top].copy()));
        let mut c: usize = top;
        while c > 0
            invariant
                f.valid(),
                self.wf(),
                input.wf(),
                input@ == example@.input,
                self@.accepts(input@),
                steps == self@.layers(),
                top == steps - 1,
                c <= top,
                nodes@.len() == steps,
                forall|i: int|
                    0 <= i < nodes@.len() ==> {
                        &&& (#[trigger] nodes@[i]).wf()
                        &&& nodes@[i]@ == self@.sums(f, input@, i as nat)
                        &&& nodes@[i]@.rows == self@.shape[i + 1]
                        &&& nodes@[i]@.cols == 1
                    },
                delta.wf(),
                delta@ == self@.delta(f, cost, example@, c as nat),
                delta@.rows == self@.shape[c + 1],
                delta@.cols == 1,
                rev_w@.len() == top - c,
                rev_b@.len() == top - c,
                forall|j: int|
                    0 <= j < rev_w@.len() ==> {
                        &&& (#[trigger] rev_w@[j]).wf()
                        &&& rev_w@[j]@ == self@.example_gradient(f, cost, example@).weights[top - j]
                        &&& rev_w@[j]@.rows == self@.shape[top - j + 1]
                        &&& rev_w@[j]@.cols == self@.shape[top - j]
                    },
                forall|j: int|
                    0 <= j < rev_b@.len() ==> {
                        &&& (#[trigger] rev_b@[j]).wf()
                        &&& rev_b@[j]@ == self@.example_gradient(f, cost, example@).biases[top - j]
                        &&& rev_b@[j]@.rows == self@.shape[top - j + 1]
                        &&& rev_b@[j]@.cols == 1
                    },
            decreases c,
        {
            let fed = apply_activation(f, nodes[c - 1].copy());
            assert(fed@ == self@.fed(f, input@, c as nat));
            let size = self.weight(c).len();
            let wg = delta.mul(&fed.transpose());
            rev_w.push(wg);
            rev_b.push(delta.copy());
            let slope = apply_slope(f, nodes[c - 1].copy());
            let carried = self.weight(c).transpose().mul(&delta);
            delta = carried.component_mul(&slope);
            c -= 1;
        }
        let size = self.weight(0).len();
        assert(input@ == self@.fed(f, input@, 0));
        let wg = delta.mul(&input.transpose());
        rev_w.push(wg);
        rev_b.push(delta);
        let mut weights: Vec<Matrix<T>> = Vec::new();
        let mut biases: Vec<Matrix<T>> = Vec::new();
        let ghost expected = self@.example_gradient(f, cost, example@);
        let mut i: usize = 0;
        while i < steps
            invariant
                self.wf(),
                steps == self@.layers(),
                top == steps - 1,
                expected == self@.example_gradient(f, cost, example@),
                i <= steps,
                weights@.len() == i,
                biases@.len() == i,
                rev_w@.len() == steps - i,
                rev_b@.len() == steps - i,
                forall|j: int|
                    0 <= j < rev_w@.len() ==> {
                        &&& (#[trigger] rev_w@[j]).wf()
                        &&& rev_w@[j]@ == expected.weights[top - j]
                        &&& rev_w@[j]@.rows == self@.shape[top - j + 1]
                        &&& rev_w@[j]@.cols == self@.shape[top - j]
                    },
                forall|j: int|
                    0 <= j < rev_b@.len() ==> {
                        &&& (#[trigger] rev_b@[j]).wf()
                        &&& rev_b@[j]@ == expected.biases[top - j]
                        &&& rev_b@[j]@.rows == self@.shape[top - j + 1]
                        &&& rev_b@[j]@.cols == 1
                    },
                forall|j: int|
                    0 <= j < i ==> {
                        &&& (#[trigger] weights@[j]).wf()
                        &&& weights@[j]@ == expected.weights[j]
                        &&& weights@[j]@.rows == self@.shape[j + 1]
                        &&& weights@[j]@.cols == self@.shape[j]
                    },
                forall|j: int|
                    0 <= j < i ==> {
                        &&& (#[trigger] biases@[j]).wf()
                        &&& biases@[j]@ == expected.biases[j]
                        &&& biases@[j]@.rows == self@.shape[j + 1]
                        &&& biases@[j]@.cols == 1
                    },
            decreases steps - i,
        {
            let w = rev_w.pop();
            let b = rev_b.pop();
            match (w, b) {
                (Some(w), Some(b)) => {
                    weights.push(w);
                    biases.push(b);
                },
                _ => {},
            }
            i += 1;
        }
        let shape = self.copy_shape();
        let gradient = NeuralNetwork::from_parts(weights, biases, shape);
        proof {
            assert(gradient@.weights =~= expected.weights);
            assert(gradient@.biases =~= expected.biases);
        }
        gradient
    }

    /// The cell-wise sum with a network of the same shape.
    pub fn plus(&self, other: &Self) -> (sum: Self)
        requires
            self.wf(),
            other.wf(),
            self@.shape == other@.shape,
        ensures
            sum.wf(),
            sum@ == self@.plus(other@),
    {
        let steps: usize = self.layers();
        let mut weights: Vec<Matrix<T>> = Vec::new();
        let mut biases: Vec<Matrix<T>> = Vec::new();
        let mut i: usize = 0;
        while i < steps
            invariant
                self.wf(),
                other.wf(),
                self@.shape == other@.shape,
                steps == self@.layers(),
                i <= steps,
                weights@.len() == i,
                biases@.len() == i,
                forall|j: int|
                    0 <= j < i ==> {
                        &&& (#[trigger] weights@[j]).wf()
                        &&& weights@[j]@ == self@.weights[j].plus(other@.weights[j])
                    },
                forall|j: int|
                    0 <= j < i ==> {
                        &&& (#[trigger] biases@[j]).wf()
                        &&& biases@[j]@ == self@.biases[j].plus(other@.biases[j])
                    },
            decreases steps - i,
        {
            weights.push(self.weight(i).copy().add(other.weight(i)));
            biases.push(self.bias(i).copy().add(other.bias(i)));
            i += 1;
        }
        let sum = NeuralNetwork::from_parts(weights, biases, self.copy_shape());
        proof {
            assert(sum@.weights =~= self@.plus(other@).weights);
            assert(sum@.biases =~= self@.plus(other@).biases);
        }
        sum
    }

    /// The gradient of the cost of a batch: the gradients of its examples
    /// added up, not averaged. `None` for an empty batch, for an input that
    /// the network does not accept, and for a network without steps.
    pub fn calculate_batch_step<F: Function<T>>(
        &self,
        data_set: &[DataVector<T>],
        f: &F,
        cost: &CostFunction,
    ) -> (gradient: Option<Self>)
        requires
            f.valid(),
            self.wf(),
            all_wf(data_set@),
            self@.layers() > 0 ==> self@.labels_fit(examples_of(data_set@)),
        ensures
            gradient.is_some() <==> self@.trainable_on(examples_of(data_set@)),
            gradient matches Some(g) ==> g.wf() && g@.shape == self@.shape && g@
                == self@.batch_gradient(f, cost, examples_of(data_set@)),
    {
        let ghost examples = examples_of(data_set@);
        if self.layers() == 0 || data_set.len() == 0 {
            return None;
        }
        let inputs: usize = self.shape()[0];
        let mut total: Self = NeuralNetwork::zeros(self.copy_shape());
        let mut k: usize = 0;
        while k < data_set.len()
            invariant
                f.valid(),
                self.wf(),
                all_wf(data_set@),
                self@.layers() > 0,
                self@.labels_fit(examples),
                examples == examples_of(data_set@),
                inputs == self@.shape[0],
                k <= data_set@.len(),
                total.wf(),
                total@.shape == self@.shape,
                total@ == self@.batch_gradient(f, cost, examples.take(k as int)),
                forall|j: int| 0 <= j < k ==> self@.accepts((#[trigger] examples[j]).input),
            decreases data_set@.len() - k,
        {
            let example = &data_set[k];
            assert(example@ == examples[k as int]);
            let (r, c) = example.data.get_dims();
            if r != inputs || c != 1 {
                assert(!self@.accepts(examples[k as int].input));
                return None;
            }
            let one = self.example_gradient(example, f, cost);
            proof {
                assert(examples.take(k + 1).drop_last() =~= examples.take(k as int));
                assert(examples.take(k + 1).last() == examples[k as int]);
            }
            total = total.plus(&one);
            k += 1;
        }
        proof {
            assert(examples.take(k as int) =~= examples);
        }
        Some(total)
    }

    /// Takes `learning_rate` times `other`, a gradient of the same shape, away
    /// from every weight and bias.
    pub fn step(&mut self, other: Self, learning_rate: T)
        requires
            old(self).wf(),
            other.wf(),
            old(self)@.shape == other@.shape,
        ensures
            final(self).wf(),
            final(self)@ == old(self)@.stepped(other@, learning_rate),
    {
        let steps: usize = self.layers();
        let mut weights: Vec<Matrix<T>> = Vec::new();
        let mut biases: Vec<Matrix<T>> = Vec::new();
        let mut i: usize = 0;
        while i < steps
            invariant
                self.wf(),
                other.wf(),
                self@ == old(self)@,
                self@.shape == other@.shape,
                steps == self@.layers(),
                i <= steps,
                weights@.len() == i,
                biases@.len() == i,
                forall|j: int|
                    0 <= j < i ==> {
                        &&& (#[trigger] weights@[j]).wf()
                        &&& weights@[j]@ == self@.weights[j].minus(
                            other@.weights[j].scaled(learning_rate),
                        )
                    },
                forall|j: int|
                    0 <= j < i ==> {
                        &&& (#[trigger] biases@[j]).wf()
                        &&& biases@[j]@ == self@.biases[j].minus(
                            other@.biases[j].scaled(learning_rate),
                        )
                    },
            decreases steps - i,
        {
            let w = other.weight(i).copy().scale(learning_rate);
            weights.push(self.weight(i).copy().sub(&w));
            let b = other.bias(i).copy().scale(learning_rate);
            biases.push(self.bias(i).copy().sub(&b));
            i += 1;
        }
        let next = NeuralNetwork::from_parts(weights, biases, self.copy_shape());
        proof {
            assert(next@.weights =~= old(self)@.stepped(other@, learning_rate).weights);
            assert(next@.biases =~= old(self)@.stepped(other@, learning_rate).biases);
        }
        *self = next;
    }

    /// One step of gradient descent on one batch: the network less the
    /// gradient of the batch times the learning rate divided by the size of
    /// the batch. A batch of which no gradient can be taken changes nothing.
    pub fn train_batch<F: Function<T>>(
        &mut self,
        batch: &[DataVector<T>],
        learning_rate: T,
        f: &F,
        cost: &CostFunction,
    )
        requires
            f.valid(),
            old(self).wf(),
            all_wf(batch@),
            old(self)@.layers() > 0 ==> old(self)@.labels_fit(examples_of(batch@)),
        ensures
            final(self).wf(),
            final(self)@ == old(self)@.after_batch(f, cost, examples_of(batch@), learning_rate),
    {
        if let Some(gradient) = self.calculate_batch_step(batch, f, cost) {
            let size = T::from_count(batch.len());
            assert(examples_of(batch@).len() == batch@.len());
            if !size.equals(T::zero()) {
                self.step(gradient, learning_rate.div(size));
            }
        }
    }

    /// Stochastic gradient descent over the training examples, in their
    /// order, in consecutive batches of `batch_size`; the last batch may be
    /// smaller. Each batch is a step against the quadratic cost.
    pub fn train<F: Function<T>>(
        &mut self,
        data_set: &DataSet<T>,
        batch_size: usize,
        learning_rate: T,
        f: &F,
    )
        requires
            f.valid(),
            old(self).wf(),
            batch_size > 0,
            all_wf(data_set.training_data@),
            old(self)@.layers() > 0 ==> old(self)@.labels_fit(
                examples_of(data_set.training_data@),
            ),
        ensures
            final(self).wf(),
            final(self)@ == old(self)@.trained(
                f,
                &(CostFunction { kind: CostKind::Quadratic }),
                examples_of(data_set.training_data@),
                batch_size as nat,
                learning_rate,
            ),
    {
        let cost = CostFunction::quadratic();
        let data = data_set.training_data.as_slice();
        let ghost examples = examples_of(data@);
        let len: usize = data.len();
        let mut start: usize = 0;
        proof {
            assert(examples.skip(0) =~= examples);
        }
        while start < len
            invariant
                f.valid(),
                self.wf(),
                batch_size > 0,
                cost.kind == CostKind::Quadratic,
                data@ == data_set.training_data@,
                all_wf(data@),
                examples == examples_of(data@),
                len == data@.len(),
                start <= len,
                self@.shape == old(self)@.shape,
                self@.layers() == old(self)@.layers(),
                old(self)@.layers() > 0 ==> old(self)@.labels_fit(examples),
                old(self)@.trained(f, &cost, examples, batch_size as nat, learning_rate)
                    == self@.trained(
                    f,
                    &cost,
                    examples.skip(start as int),
                    batch_size as nat,
                    learning_rate,
                ),
            decreases len - start,
        {
            let n: usize = if batch_size < len - start {
                batch_size
            } else {
                len - start
            };
            let batch = slice_subrange(data, start, start + n);
            proof {
                let rest = examples.skip(start as int);
                assert(examples_of(batch@) =~= rest.take(n as int));
                assert(rest.skip(n as int) =~= examples.skip(start + n));
                assert forall|k: int| 0 <= k < batch@.len() implies (#[trigger] batch@[k]).data.wf() by {
                    assert(batch@[k] == data@[start + k]);
                }
                if self@.layers() > 0 {
                    assert forall|k: int| 0 <= k < examples_of(batch@).len() implies (
                    #[trigger] examples_of(batch@)[k]).label < self@.shape.last() by {
                        assert(examples_of(batch@)[k] == examples[start + k]);
                    }
                }
            }
            self.train_batch(batch, learning_rate, f, &cost);
            start = start + n;
        }
    }

    /// The number of examples for whose class the network decides: those
    /// whose greatest output, the first among equals, is that of the label.
    pub fn count_correct<F: Function<T>>(&self, data: &[DataVector<T>], f: &F) -> (hits: usize)
        requires
            f.valid(),
            self.wf(),
            all_wf(data@),
            forall|k: int| 0 <= k < data@.len() ==> self@.accepts((#[trigger] data@[k])@.input),
        ensures
            hits == self@.count_hits(f, examples_of(data@)),
            hits <= data@.len(),
    {
        let ghost examples = examples_of(data@);
        let mut hits: usize = 0;
        let mut k: usize = 0;
        while k < data.len()
            invariant
                f.valid(),
                self.wf(),
                all_wf(data@),
                forall|j: int| 0 <= j < data@.len() ==> self@.accepts((#[trigger] data@[j])@.input),
                examples == examples_of(data@),
                k <= data@.len(),
                hits <= k,
                hits == self@.count_hits(f, examples.take(k as int)),
            decreases data@.len() - k,
        {
            let example = &data[k];
            proof {
                assert(examples.take(k + 1).drop_last() =~= examples.take(k as int));
                assert(examples.take(k + 1).last() == example@);
            }
            let output = self.propagate(&example.data, f);
            if output.index_of_max() == example.label as usize {
                hits += 1;
            }
            k += 1;
        }
        proof {
            assert(examples.take(k as int) =~= examples);
        }
        hits
    }

    /// The share of the testing examples for whose class the network decides.
    pub fn test<F: Function<T>>(&self, data_set: &DataSet<T>, f: &F) -> (share: T)
        requires
            f.valid(),
            self.wf(),
            all_wf(data_set.testing_data@),
            forall|k: int|
                0 <= k < data_set.testing_data@.len() ==> self@.accepts(
                    (#[trigger] data_set.testing_data@[k])@.input,
                ),
        ensures
            share == accuracy::<T>(
                self@.count_hits(f, examples_of(data_set.testing_data@)),
                data_set.testing_data@.len(),
            ),
    {
        let data = data_set.testing_data.as_slice();
        let hits = self.count_correct(data, f);
        let total = T::from_count(data.len());
        if total.equals(T::zero()) {
            T::from_count(hits)
        } else {
            T::from_count(hits).div(total)
        }
    }
}

} // verus!
