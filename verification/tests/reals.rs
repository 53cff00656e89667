use matrix_nn::calculus::cost_functions::{quadratic_cost, quadratic_cost_derivative, CostFunction};
use matrix_nn::calculus::functions::{
    guarded_div, Arctan, Function, LeakyRelu, NormalArctan, Relu, Sigmoid, Swish,
};
use matrix_nn::linear_algebra::text::LoadError;
use matrix_nn::linear_algebra::Matrix;
use matrix_nn::machine_learning::dataset::{DataSet, DataVector};
use matrix_nn::machine_learning::neural_network::NeuralNetwork;
use matrix_nn::scalar::{Numeral, Sampled, Scalar, Textual};
use rand::distributions::Uniform;
use rand::Rng;

/// A double-precision number as a scalar.
#[derive(Clone, Copy, Debug, PartialEq)]
struct Real(f64);

impl Scalar for Real {
    fn zero_value() -> Real {
        Real(0.0)
    }

    fn one_value() -> Real {
        Real(1.0)
    }

    fn of_count(n: usize) -> Real {
        Real(n as f64)
    }

    fn plus(self, rhs: Real) -> Real {
        Real(self.0 + rhs.0)
    }

    fn minus(self, rhs: Real) -> Real {
        Real(self.0 - rhs.0)
    }

    fn times(self, rhs: Real) -> Real {
        Real(self.0 * rhs.0)
    }

    fn over(self, rhs: Real) -> Real {
        Real(self.0 / rhs.0)
    }

    fn negated(self) -> Real {
        Real(-self.0)
    }

    fn same(self, rhs: Real) -> bool {
        self.0 == rhs.0
    }

    fn less(self, rhs: Real) -> bool {
        self.0 < rhs.0
    }

    fn zero() -> Real {
        Real::zero_value()
    }

    fn one() -> Real {
        Real::one_value()
    }

    fn from_count(n: usize) -> Real {
        Real::of_count(n)
    }

    fn add(self, rhs: Real) -> Real {
        self.plus(rhs)
    }

    fn sub(self, rhs: Real) -> Real {
        self.minus(rhs)
    }

    fn mul(self, rhs: Real) -> Real {
        self.times(rhs)
    }

    fn div(self, rhs: Real) -> Real {
        self.over(rhs)
    }

    fn neg(self) -> Real {
        self.negated()
    }

    fn equals(self, rhs: Real) -> bool {
        self.same(rhs)
    }

    fn less_than(self, rhs: Real) -> bool {
        self.less(rhs)
    }
}

impl Sampled for Real {
    fn sample_between(low: Real, high: Real) -> Real {
        Real(rand::thread_rng().sample(Uniform::new(low.0, high.0)))
    }
}

impl Textual for Real {
    fn numeral(self) -> Numeral {
        let x = self.0;
        if x.is_nan() {
            return Numeral::Undefined;
        }
        if x.is_infinite() {
            return Numeral::Infinite { negative: x < 0.0 };
        }
        let text = format!("{:e}", x.abs());
        let (digits, power) = text.split_once('e').unwrap();
        let (whole, fraction) = digits.split_once('.').unwrap_or((digits, ""));
        let mantissa: u64 = format!("{}{}", whole, fraction).parse().unwrap();
        let exponent: i32 = power.parse::<i32>().unwrap() - fraction.len() as i32;
        Numeral::Finite { negative: x.is_sign_negative(), mantissa, exponent }
    }

    fn of_numeral(n: Numeral) -> Option<Real> {
        match n {
            Numeral::Finite { negative, mantissa, exponent } => {
                let sign = if negative { "-" } else { "" };
                format!("{}{}e{}", sign, mantissa, exponent).parse::<f64>().ok().map(Real)
            }
            Numeral::Infinite { negative } => {
                Some(Real(if negative { f64::NEG_INFINITY } else { f64::INFINITY }))
            }
            Numeral::Undefined => Some(Real(f64::NAN)),
        }
    }

    fn to_numeral(&self) -> Numeral {
        self.numeral()
    }

    fn from_numeral(n: Numeral) -> Option<Real> {
        Real::of_numeral(n)
    }
}

fn exp(x: Real) -> Real {
    Real(std::f64::consts::E.powf(x.0))
}

fn atan(x: Real) -> Real {
    Real(x.0.atan())
}

type Unary = fn(Real) -> Real;

fn sig() -> Sigmoid<Unary> {
    Sigmoid { exp }
}

fn normal_arctan() -> NormalArctan<Real, Unary> {
    NormalArctan { atan, half_pi: Real(std::f64::consts::PI / 2.0) }
}

fn reals(values: &[f64]) -> Vec<Real> {
    values.iter().map(|v| Real(*v)).collect()
}

fn matrix(r: usize, c: usize, values: &[f64]) -> Matrix<Real> {
    Matrix::from_vec(r, c, reals(values))
}

/// A matrix from values listed column by column.
fn by_columns(r: usize, c: usize, values: &[f64]) -> Matrix<Real> {
    Matrix::from_vec(c, r, reals(values)).transpose()
}

fn floats(m: &Matrix<Real>) -> Vec<f64> {
    m.cells().iter().map(|v| v.0).collect()
}

fn same_matrix(a: &Matrix<Real>, b: &Matrix<Real>) -> bool {
    a.get_dims() == b.get_dims() && a.cells() == b.cells()
}

fn at(m: &Matrix<Real>, row: usize, col: usize) -> f64 {
    m.get(row, col).unwrap().0
}

fn close(a: f64, b: f64, tolerance: f64) -> bool {
    (a - b).abs() <= tolerance
}

fn example(y: f64, label: u8) -> DataVector<Real> {
    DataVector::new(matrix(1, 1, &[y]), label)
}

fn init_network(v: Vec<usize>) -> (NeuralNetwork<Real>, DataSet<Real>) {
    let nn = NeuralNetwork::scalar(v, Real(0.1));
    let ds = DataSet {
        training_data: (0..10000)
            .map(|x| {
                let y: f64 = rand::random::<f64>() * x as f64 / (x + 1) as f64;
                example(y, if y < 0.5 { 1 } else { 0 })
            })
            .collect(),
        testing_data: (0..100)
            .map(|x: usize| {
                let y: f64 = x as f64 / 100.0;
                example(y, if y < 0.5 { 1 } else { 0 })
            })
            .collect(),
    };
    (nn, ds)
}

fn sigmoid(x: f64) -> f64 {
    1.0 / (1.0 + std::f64::consts::E.powf(-x))
}

#[test]
fn matrix_mult() {
    let a = by_columns(4, 1, &[1.0, 1.0, 1.0, 1.0]);
    let b = by_columns(1, 4, &[3.0, 1.0, 11.0, 0.0]);
    let c = by_columns(
        4,
        4,
        &[3.0, 3.0, 3.0, 3.0, 1.0, 1.0, 1.0, 1.0, 11.0, 11.0, 11.0, 11.0, 0.0, 0.0, 0.0, 0.0],
    );
    assert_eq!(c, a.mul(&b), "Testing Matrix Mult 4,1x1,4");

    let a = by_columns(3, 1, &[1.0, 1.0, 1.0]);
    let b = by_columns(1, 4, &[3.0, 1.0, 11.0, 0.0]);
    let c = by_columns(3, 4, &[3.0, 3.0, 3.0, 1.0, 1.0, 1.0, 11.0, 11.0, 11.0, 0.0, 0.0, 0.0]);
    assert_eq!(c, a.mul(&b), "Testing Matrix Mult 3,1x1,4");

    let a = by_columns(3, 2, &[1.0, 1.0, 1.0, 1.0, 1.0, 1.0]);
    let b = by_columns(2, 2, &[3.0, 1.0, 11.0, 0.0]);
    let c = by_columns(3, 2, &[4.0, 4.0, 4.0, 11.0, 11.0, 11.0]);
    assert_eq!(c, a.mul(&b), "Testing Matrix Mult 3,2x2,2");

    let a = by_columns(1, 4, &[3.0, 1.0, 11.0, 0.0]);
    let b = by_columns(4, 1, &[1.0, 1.0, 1.0, 1.0]);
    let c = by_columns(1, 1, &[15.0]);
    assert_eq!(c, a.mul(&b), "Testing Matrix Mult 1,4x4,1");
}

#[test]
fn product_is_row_times_column() {
    let a = matrix(2, 3, &[1.0, 2.0, 3.0, 4.0, 5.0, 6.0]);
    let b = matrix(3, 2, &[7.0, 8.0, 9.0, 10.0, 11.0, 12.0]);
    let c = a.mul(&b);
    assert_eq!(c.get_dims(), (2, 2));
    assert_eq!(floats(&c), vec![58.0, 64.0, 139.0, 154.0]);
}

#[test]
fn test_both_propagation_methods_are_equivalent() {
    let (nn, ds) = init_network(vec![1, 2, 2]);
    let f = sig();
    let first = &ds.training_data.first().unwrap().data;
    let nodes = nn.propagate_returning_all_nodes_prior_to_activation(first, &f);
    let x = nodes.last().unwrap().copy().apply_into(&|v: Real| f.activate(v));
    let y = nn.propagate(first, &f);
    assert_eq!(x, y);
}

#[test]
fn test_multiple_propagation_calls() {
    let (nn, ds) = init_network(vec![1, 2, 2]);
    let f = sig();
    let y = nn.propagate(&ds.training_data.first().unwrap().data, &f);
    let x = nn.propagate(&ds.training_data.first().unwrap().data, &f);
    assert_eq!(x, y);
}

#[test]
fn test_cost() {
    let (nn, ds) = init_network(vec![1, 2, 2]);
    let f = sig();
    let output = nn.propagate(&ds.testing_data.first().unwrap().data, &f);
    let cost = NeuralNetwork::_cost(&output, 1);
    assert!(at(&cost, 0, 0) - 0.3 < 0.01);
    assert!(at(&cost, 1, 0) - 0.2 < 0.01);
}

#[test]
fn test_cost_derivative() {
    let (nn, ds) = init_network(vec![1, 2, 2]);
    let f = sig();
    let output = nn.propagate(&ds.testing_data.first().unwrap().data, &f);
    let derivative = NeuralNetwork::cost_derivative(&output, 1);
    assert!(at(&derivative, 0, 0) - 1.1 < 0.01);
    assert!(at(&derivative, 1, 0) + 0.9 < 0.01);
}

#[test]
fn test_batch_step() {
    let (nn, ds) = init_network(vec![1, 2, 2]);
    let batch_step =
        nn.calculate_batch_step(&ds.training_data[0..1], &sig(), &CostFunction::quadratic());
    match batch_step {
        Some(step) => {
            assert!(at(step.bias(0), 0, 0) - 0.0012 < 0.0001);
            assert!(at(step.bias(0), 1, 0) - 0.0012 < 0.0001);

            assert!(at(step.weight(0), 0, 0) == 0.0);
            assert!(at(step.weight(0), 1, 0) == 0.0);

            assert!(at(step.bias(1), 0, 0) - 0.27 < 0.01);
            assert!(at(step.bias(1), 1, 0) - 0.27 < 0.01);

            assert!(at(step.weight(1), 0, 0) - 0.14 < 0.01);
            assert!(at(step.weight(1), 1, 0) + 0.11 < 0.01);
            assert!(at(step.weight(1), 0, 1) - 0.14 < 0.01);
            assert!(at(step.weight(1), 1, 1) + 0.11 < 0.01);
        }
        None => panic!("No batch step calculated."),
    }
}

#[test]
fn test_training_sigmoid() {
    let (mut nn, ds) = init_network(vec![1, 3, 2]);
    let f = sig();
    nn.train(&ds, 1, Real(1.0), &f);
    assert!(0 == nn.propagate(&matrix(1, 1, &[0.7]), &f).index_of_max());
    assert!(1 == nn.propagate(&matrix(1, 1, &[0.4]), &f).index_of_max());
}

#[test]
fn test_training_normal_arctan() {
    let (mut nn, ds) = init_network(vec![1, 3, 2]);
    let f = normal_arctan();
    nn.train(&ds, 1, Real(1.0), &f);
    assert!(0 == nn.propagate(&matrix(1, 1, &[0.7]), &f).index_of_max());
    assert!(1 == nn.propagate(&matrix(1, 1, &[0.4]), &f).index_of_max());
}

#[test]
fn test_testing_network() {
    let (mut nn, ds) = init_network(vec![1, 3, 2]);
    let f = normal_arctan();
    nn.train(&ds, 1, Real(1.0), &f);
    assert!(nn.test(&ds, &f).0 > 0.7);
}

#[test]
fn test_saving_and_loading() {
    let (nn, _) = init_network(vec![12, 222, 21]);
    let text = nn.to_text();
    let snn = NeuralNetwork::<Real>::from_text(&text).unwrap();
    assert!(snn == nn);
}

#[test]
fn trained_network_is_read_back_bit_for_bit() {
    let (mut nn, ds) = init_network(vec![1, 3, 2]);
    nn.train(&ds, 4, Real(0.5), &sig());
    let text = nn.to_text();
    let back = NeuralNetwork::<Real>::from_text(&text).unwrap();
    assert_eq!(back.shape(), nn.shape());
    for i in 0..nn.layers() {
        let (a, b) = (floats(nn.weight(i)), floats(back.weight(i)));
        assert_eq!(a.len(), b.len());
        assert!(a.iter().zip(&b).all(|(x, y)| x.to_bits() == y.to_bits()));
        let (a, b) = (floats(nn.bias(i)), floats(back.bias(i)));
        assert!(a.iter().zip(&b).all(|(x, y)| x.to_bits() == y.to_bits()));
    }
}

#[test]
fn sum_then_difference_gives_the_matrix_back() {
    let a = matrix(2, 2, &[1.5, -2.25, 0.1, 1e10]);
    let b = matrix(2, 2, &[0.3, 7.0, -0.2, 3.0]);
    let back = a.copy().add(&b).sub(&b);
    for (x, y) in floats(&back).iter().zip(floats(&a)) {
        assert!(close(*x, y, 1e-6 * y.abs().max(1.0)));
    }
}

#[test]
fn matrix_times_its_inverse_is_the_identity() {
    let a = matrix(3, 3, &[2.0, 1.0, 0.0, 1.0, 3.0, 1.0, 0.0, 1.0, 4.0]);
    let inverse = a.copy().invert().unwrap();
    let product = a.mul(&inverse);
    for i in 0..3 {
        for j in 0..3 {
            let expected = if i == j { 1.0 } else { 0.0 };
            assert!(close(at(&product, i, j), expected, 1e-9));
        }
    }
}

#[test]
fn inverse_of_two_by_two() {
    let a = matrix(2, 2, &[4.0, 7.0, 2.0, 6.0]);
    let inverse = a.invert().unwrap();
    let expected = [0.6, -0.7, -0.2, 0.4];
    for (x, y) in floats(&inverse).iter().zip(expected) {
        assert!(close(*x, y, 1e-12));
    }
}

#[test]
fn inversion_exchanges_rows_for_a_zero_pivot() {
    let a = matrix(2, 2, &[0.0, 1.0, 1.0, 0.0]);
    let inverse = a.invert().unwrap();
    assert_eq!(floats(&inverse), vec![0.0, 1.0, 1.0, 0.0]);
}

#[test]
fn identity_is_its_own_inverse() {
    for n in 1..5 {
        let inverse = Matrix::<Real>::identity(n, n).invert().unwrap();
        assert!(same_matrix(&inverse, &Matrix::identity(n, n)));
    }
}

#[test]
fn singular_and_oblong_matrices_have_no_inverse() {
    assert!(matrix(2, 2, &[1.0, 2.0, 2.0, 4.0]).invert().is_none());
    assert!(matrix(2, 3, &[1.0, 0.0, 0.0, 0.0, 1.0, 0.0]).invert().is_none());
    assert!(Matrix::<Real>::zeros(0, 0).invert().is_none());
}

#[test]
fn determinant_by_cofactors() {
    assert_eq!(matrix(1, 1, &[5.0]).determinant().0, 5.0);
    assert_eq!(matrix(2, 2, &[1.0, 2.0, 3.0, 4.0]).determinant().0, -2.0);
    let m = matrix(3, 3, &[2.0, 0.0, 1.0, 1.0, 3.0, 2.0, 1.0, 1.0, 1.0]);
    assert_eq!(m.determinant().0, 2.0 * (3.0 - 2.0) + 1.0 * (1.0 - 3.0));
    assert_eq!(Matrix::<Real>::zeros(0, 0).determinant().0, 0.0);
}

#[test]
fn scalar_division_by_zero_is_skipped() {
    let a = matrix(1, 2, &[1.0, 2.0]);
    assert_eq!(floats(&a.copy().div(Real(0.0))), vec![1.0, 2.0]);
    assert_eq!(floats(&a.copy().div(Real(2.0))), vec![0.5, 1.0]);
    assert_eq!(floats(&a.scale(Real(3.0))), vec![3.0, 6.0]);
}

#[test]
fn sigmoid_chain_of_a_small_network() {
    let nn = NeuralNetwork::scalar(vec![1, 2, 2], Real(0.1));
    let input = 0.3;
    let hidden = sigmoid(0.1 * input + 0.1);
    let expected = sigmoid(0.1 * hidden + 0.1 * hidden + 0.1);
    let output = nn.propagate(&matrix(1, 1, &[input]), &sig());
    assert_eq!(output.get_dims(), (2, 1));
    assert_eq!(floats(&output), vec![expected, expected]);
    let derivative = NeuralNetwork::cost_derivative(&output, 1);
    assert!(close(at(&derivative, 0, 0), 2.0 * expected, 1e-2));
    assert!(close(at(&derivative, 1, 0), 2.0 * (expected - 1.0), 1e-2));
    assert_eq!(at(&derivative, 1, 0), 2.0 * (expected - 1.0));
    let cost = NeuralNetwork::_cost(&output, 1);
    assert_eq!(at(&cost, 0, 0), expected * expected);
    assert_eq!(at(&cost, 1, 0), (expected - 1.0) * (expected - 1.0));
}

#[test]
fn separable_data_is_learnt() {
    let mut nn = NeuralNetwork::scalar(vec![1, 3, 2], Real(0.1));
    let mut training = Vec::new();
    for epoch in 0..10 {
        for k in 0..1000 {
            let y = ((k * 7919 + epoch * 104729) % 1000) as f64 / 1000.0;
            training.push(example(y, if y < 0.5 { 0 } else { 1 }));
        }
    }
    let testing = (0..100)
        .map(|k| {
            let y = k as f64 / 100.0;
            example(y, if y < 0.5 { 0 } else { 1 })
        })
        .collect();
    let ds = DataSet { training_data: training, testing_data: testing };
    nn.train(&ds, 1, Real(1.0), &sig());
    assert!(nn.test(&ds, &sig()).0 > 0.7);
}

#[test]
fn accuracy_is_one_when_all_are_right_and_zero_when_none_is() {
    let nn = NeuralNetwork::scalar(vec![1, 2], Real(0.1));
    let right = DataSet {
        training_data: vec![],
        testing_data: vec![example(0.2, 0), example(0.9, 0), example(0.5, 0)],
    };
    assert_eq!(nn.test(&right, &sig()).0, 1.0);
    assert_eq!(nn.count_correct(&right.testing_data, &sig()), 3);
    let wrong = DataSet {
        training_data: vec![],
        testing_data: vec![example(0.2, 1), example(0.9, 1)],
    };
    assert_eq!(nn.test(&wrong, &sig()).0, 0.0);
    let mixed = DataSet {
        training_data: vec![],
        testing_data: vec![example(0.2, 1), example(0.9, 0), example(0.1, 0), example(0.3, 0)],
    };
    assert_eq!(nn.test(&mixed, &sig()).0, 0.75);
    let empty: DataSet<Real> = DataSet { training_data: vec![], testing_data: vec![] };
    assert_eq!(nn.test(&empty, &sig()).0, 0.0);
}

#[test]
fn gradient_sums_over_the_batch() {
    let nn = NeuralNetwork::scalar(vec![1, 2, 2], Real(0.1));
    let cost = CostFunction::quadratic();
    let batch = vec![example(0.2, 1), example(0.8, 0)];
    let both = nn.calculate_batch_step(&batch, &sig(), &cost).unwrap();
    let first = nn.calculate_batch_step(&batch[0..1], &sig(), &cost).unwrap();
    let second = nn.calculate_batch_step(&batch[1..2], &sig(), &cost).unwrap();
    for i in 0..2 {
        let sum = floats(first.weight(i))
            .iter()
            .zip(floats(second.weight(i)))
            .map(|(a, b)| (0.0 + a) + b)
            .collect::<Vec<f64>>();
        assert_eq!(floats(both.weight(i)), sum);
        let single = nn.example_gradient(&batch[0], &sig(), &cost);
        let zero_plus: Vec<f64> = floats(single.bias(i)).iter().map(|a| 0.0 + a).collect();
        assert_eq!(floats(first.bias(i)), zero_plus);
    }
}

#[test]
fn gradient_of_an_empty_or_misshapen_batch_is_none() {
    let nn = NeuralNetwork::scalar(vec![2, 2], Real(0.1));
    let cost = CostFunction::quadratic();
    let none: Vec<DataVector<Real>> = vec![];
    assert!(nn.calculate_batch_step(&none, &sig(), &cost).is_none());
    let misshapen = vec![example(0.2, 1)];
    assert!(nn.calculate_batch_step(&misshapen, &sig(), &cost).is_none());
    let fitting = vec![DataVector::new(matrix(2, 1, &[0.2, 0.4]), 1)];
    assert!(nn.calculate_batch_step(&fitting, &sig(), &cost).is_some());
}

#[test]
fn step_takes_the_scaled_gradient_away() {
    let mut nn = NeuralNetwork::scalar(vec![1, 2], Real(1.0));
    let gradient = NeuralNetwork::scalar(vec![1, 2], Real(4.0));
    nn.step(gradient, Real(0.125));
    assert_eq!(floats(nn.weight(0)), vec![0.5, 0.5]);
    assert_eq!(floats(nn.bias(0)), vec![0.5, 0.5]);
}

#[test]
fn train_steps_batch_by_batch() {
    let data = vec![example(0.1, 0), example(0.6, 1), example(0.9, 1)];
    let mut whole = NeuralNetwork::scalar(vec![1, 2], Real(0.1));
    let ds = DataSet { training_data: data, testing_data: vec![] };
    whole.train(&ds, 2, Real(0.5), &sig());
    let mut by_hand = NeuralNetwork::scalar(vec![1, 2], Real(0.1));
    let cost = CostFunction::quadratic();
    by_hand.train_batch(&ds.training_data[0..2], Real(0.5), &sig(), &cost);
    let gradient = by_hand.calculate_batch_step(&ds.training_data[2..3], &sig(), &cost).unwrap();
    by_hand.step(gradient, Real(0.5 / 1.0));
    assert!(whole == by_hand);
    assert!(whole != NeuralNetwork::scalar(vec![1, 2], Real(0.1)));
    assert!(whole != NeuralNetwork::scalar(vec![1, 3], Real(0.1)));
    let before = floats(whole.weight(0));
    whole.train_batch(&[], Real(0.5), &sig(), &cost);
    assert_eq!(floats(whole.weight(0)), before);
}

#[test]
fn activation_formulas() {
    let x = 0.75f64;
    let e = std::f64::consts::E.powf(-x);
    assert_eq!(sig().activate(Real(x)), Real(1.0 / (1.0 + e)));
    assert_eq!(sig().derive(Real(0.25)), Real(0.25 * (1.0 - 0.25)));
    assert!(sig().derive_takes_output());
    let swish: Swish<Unary> = Swish { exp };
    assert_eq!(swish.activate(Real(x)), Real(x / (1.0 + e)));
    assert_eq!(swish.derive(Real(x)), Real((1.0 + e + x * e) / ((1.0 + e) * (1.0 + e))));
    assert!(!swish.derive_takes_output());
    let arctan: Arctan<Unary> = Arctan { atan };
    assert_eq!(arctan.activate(Real(x)), Real(x.atan()));
    assert_eq!(arctan.derive(Real(x)), Real(1.0 / (x * x + 1.0)));
    assert!(!arctan.derive_takes_output());
    let half_pi = std::f64::consts::PI / 2.0;
    assert_eq!(normal_arctan().activate(Real(x)), Real(x.atan() / half_pi));
    assert_eq!(normal_arctan().derive(Real(x)), Real((1.0 / (x * x + 1.0)) / half_pi));
    assert!(!normal_arctan().derive_takes_output());
    assert_eq!(guarded_div(Real(3.0), Real(0.0)), Real(3.0));
    assert_eq!(guarded_div(Real(3.0), Real(-0.0)), Real(3.0));
    assert_eq!(guarded_div(Real(3.0), Real(4.0)), Real(0.75));
}

#[test]
fn rectifiers() {
    assert_eq!(Relu.activate(Real(-2.0)), Real(0.0));
    assert_eq!(Relu.activate(Real(3.0)), Real(3.0));
    assert_eq!(Relu.derive(Real(-2.0)), Real(0.0));
    assert_eq!(Relu.derive(Real(3.0)), Real(1.0));
    assert!(!<Relu as Function<Real>>::derive_takes_output(&Relu));
    let leaky = LeakyRelu { slope: Real(0.1) };
    assert_eq!(leaky.activate(Real(-2.0)), Real(0.1 * -2.0));
    assert_eq!(leaky.activate(Real(3.0)), Real(3.0));
    assert_eq!(leaky.derive(Real(-2.0)), Real(0.1));
    assert_eq!(leaky.derive(Real(3.0)), Real(1.0));
}

#[test]
fn quadratic_cost_and_its_derivative() {
    assert_eq!(quadratic_cost(Real(-3.0)), Real(9.0));
    assert_eq!(quadratic_cost_derivative(Real(-3.0)), Real(-6.0));
    let cost = CostFunction::quadratic();
    assert_eq!(cost.calc_cost(Real(0.5)), Real(0.25));
    assert_eq!(cost.derive(Real(0.5)), Real(1.0));
}

#[test]
fn arg_max_takes_the_first_of_equals() {
    assert_eq!(matrix(4, 1, &[0.5, 2.0, 2.0, 1.0]).index_of_max(), 1);
    assert_eq!(matrix(3, 1, &[-1.0, -3.0, -2.0]).index_of_max(), 0);
    assert_eq!(Matrix::<Real>::zeros(0, 0).index_of_max(), 0);
}

#[test]
fn random_network_has_the_shape_and_the_samples() {
    let sampler = || Real(rand::random::<f64>() * 2.0 + 5.0);
    let drawn = NeuralNetwork::from_distribution(vec![3, 4, 2], &sampler);
    assert_eq!(drawn.weight(1).get_dims(), (2, 4));
    assert!(floats(drawn.weight(0)).iter().all(|v| 5.0 <= *v && *v < 7.0));
    assert!(floats(drawn.bias(1)).iter().all(|v| 5.0 <= *v && *v < 7.0));
    let nn = NeuralNetwork::<Real>::random(vec![3, 4, 2]);
    assert_eq!(nn.layers(), 2);
    assert_eq!(nn.weight(0).get_dims(), (4, 3));
    assert_eq!(nn.bias(0).get_dims(), (4, 1));
    assert_eq!(nn.weight(1).get_dims(), (2, 4));
    assert_eq!(nn.bias(1).get_dims(), (2, 1));
    assert!(floats(nn.weight(0)).iter().all(|v| -1.0 <= *v && *v < 1.0));
    assert!(floats(nn.bias(1)).iter().all(|v| -1.0 <= *v && *v < 1.0));
    let r = Matrix::random(3, 3, Real(2.0), Real(2.5));
    assert_eq!(r.get_dims(), (3, 3));
    assert!(floats(&r).iter().all(|v| 2.0 <= *v && *v < 2.5));
    let m = Matrix::from_distribution(2, 5, &|| Real(7.0));
    assert_eq!(floats(&m), vec![7.0; 10]);
}

#[test]
fn reals_are_written_in_decimal_notation() {
    let m = matrix(2, 2, &[0.1, -2.5, 1e300, 3.0]);
    let text = String::from_utf8(m.to_str()).unwrap();
    let large = format!("1{}", "0".repeat(300));
    assert_eq!(text, format!("2,2 - 0.1,-2.5,{},3\n", large));
    let line = &text.as_bytes()[..text.len() - 1];
    let back = Matrix::<Real>::from_str(line).unwrap();
    assert!(same_matrix(&back, &m));
    let special = matrix(1, 2, &[f64::INFINITY, f64::NEG_INFINITY]);
    let text = String::from_utf8(special.to_str()).unwrap();
    assert_eq!(text, "1,2 - inf,-inf\n");
    let back = Matrix::<Real>::from_str(&text.as_bytes()[..text.len() - 1]).unwrap();
    assert!(same_matrix(&back, &special));
    let pointed = Matrix::<Real>::from_str(b"2,2 - 0.1,-2.5,3,1.5e3").unwrap();
    assert_eq!(floats(&pointed), vec![0.1, -2.5, 3.0, 1500.0]);
    let nan = Matrix::<Real>::from_str(b"1,1 - NaN").unwrap();
    assert!(at(&nan, 0, 0).is_nan());
}

#[test]
fn saved_text_of_a_small_network() {
    let nn = NeuralNetwork::scalar(vec![1, 2], Real(0.5));
    let text = String::from_utf8(nn.to_text()).unwrap();
    assert_eq!(text, "1,2\n\n2,1 - 0.5,0.5\n\n2,1 - 0.5,0.5\n\n");
    assert!(NeuralNetwork::<Real>::from_text(text.as_bytes()).unwrap() == nn);
    let tenth = NeuralNetwork::scalar(vec![2, 1], Real(-0.1));
    let text = String::from_utf8(tenth.to_text()).unwrap();
    assert_eq!(text, "2,1\n\n1,2 - -0.1,-0.1\n\n1,1 - -0.1\n\n");
}

#[test]
fn values_are_written_as_the_standard_library_writes_them() {
    let values = [
        0.5,
        0.1,
        -1.25,
        100.0,
        0.0,
        -0.0,
        1.0,
        -7.0,
        123456789.125,
        0.30000000000000004,
        1e21,
        1e22,
        1.2345678901234567e30,
        1e-7,
        2.5e-10,
        1e300,
        f64::MAX,
        f64::MIN,
        f64::MIN_POSITIVE,
        5e-324,
        f64::EPSILON,
        f64::INFINITY,
        f64::NEG_INFINITY,
        f64::NAN,
        std::f64::consts::PI,
        -std::f64::consts::E,
    ];
    for x in values {
        let m = matrix(1, 1, &[x]);
        let text = String::from_utf8(m.to_str()).unwrap();
        assert_eq!(text, format!("1,1 - {}\n", x.to_string()));
        let back = Matrix::<Real>::from_str(&text.as_bytes()[..text.len() - 1]).unwrap();
        assert_eq!(at(&back, 0, 0).to_bits(), x.to_bits());
    }
    for k in 0..2000u64 {
        let x = f64::from_bits(k.wrapping_mul(0x9E37_79B9_7F4A_7C15) ^ (k << 52));
        if x.is_nan() {
            continue;
        }
        let text = String::from_utf8(matrix(1, 1, &[x]).to_str()).unwrap();
        assert_eq!(text, format!("1,1 - {}\n", x.to_string()));
        let back = Matrix::<Real>::from_str(&text.as_bytes()[..text.len() - 1]).unwrap();
        assert_eq!(at(&back, 0, 0).to_bits(), x.to_bits());
    }
}

#[test]
fn malformed_texts_are_refused() {
    let read = |text: &str| NeuralNetwork::<Real>::from_text(text.as_bytes()).err();
    assert_eq!(read("1,x\n\n1,1 - 1\n\n1,1 - 1\n\n"), Some(LoadError::BadDimension));
    assert_eq!(read("1,1"), Some(LoadError::MissingSection));
    assert_eq!(read("1,1\n1,1 - 1\n\n1,1 - 1\n\n"), Some(LoadError::MissingSection));
    assert_eq!(read("1,1\n\n1,1 - 1\n\n1,1 - 1"), Some(LoadError::MissingSection));
    assert_eq!(read("1,1\n\n1,1 1\n\n1,1 - 1\n\n"), Some(LoadError::MissingSeparator));
    assert_eq!(read("1,1\n\n1 - 1\n\n1,1 - 1\n\n"), Some(LoadError::BadDimension));
    assert_eq!(read("1,1\n\n1,1 - 1.5.2\n\n1,1 - 1\n\n"), Some(LoadError::BadNumber));
    assert_eq!(read("1,1\n\n1,1 - abc\n\n1,1 - 1\n\n"), Some(LoadError::BadNumber));
    assert_eq!(read("1,2\n\n1,1 - 1\n\n1,1 - 1\n\n"), Some(LoadError::ShapeMismatch));
    assert_eq!(read("1,1\n\n1,1 - 1\n\n\n"), Some(LoadError::ShapeMismatch));
    assert!(read("1,1\n\n1,1 - 1\n\n1,1 - 1\n\n").is_none());
    assert!(!LoadError::BadNumber.message().is_empty());
}
