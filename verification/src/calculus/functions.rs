use crate::linear_algebra::model::Grid;
use crate::linear_algebra::Matrix;
use crate::scalar::Scalar;
use vstd::prelude::*;

verus! {

/// An activation function together with its derivative.
///
/// The derivative is taken at the value that `derives_from_output` names:
/// where it is `true`, `derive` expects what `activate` returned (a sigmoid's
/// slope is `a * (1 - a)` at output `a`); where it is `false`, it expects the
/// raw sum that `activate` was given.
pub trait Function<T: Scalar>: Sized {
    /// What must hold of the value for the function to be applied.
    spec fn valid(&self) -> bool;

    spec fn activation(&self, x: T) -> T;

    spec fn derivative(&self, x: T) -> T;

    spec fn derives_from_output(&self) -> bool;

    fn activate(&self, x: T) -> (r: T)
        requires
            self.valid(),
        ensures
            r == self.activation(x),
    ;

    fn derive(&self, x: T) -> (r: T)
        requires
            self.valid(),
        ensures
            r == self.derivative(x),
    ;

    fn derive_takes_output(&self) -> (r: bool)
        ensures
            r == self.derives_from_output(),
    ;
}

/// The rectifier: zero below zero, the identity elsewhere.
#[derive(Debug, Clone, Copy)]
pub struct Relu;

impl<T: Scalar> Function<T> for Relu {
    open spec fn valid(&self) -> bool {
        true
    }

    open spec fn activation(&self, x: T) -> T {
        if x.less(T::zero_value()) {
            T::zero_value()
        } else {
            x
        }
    }

    open spec fn derivative(&self, x: T) -> T {
        if x.less(T::zero_value()) {
            T::zero_value()
        } else {
            T::one_value()
        }
    }

    open spec fn derives_from_output(&self) -> bool {
        false
    }

    fn activate(&self, x: T) -> (r: T) {
        if x.less_than(T::zero()) {
            T::zero()
        } else {
            x
        }
    }

    fn derive(&self, x: T) -> (r: T) {
        if x.less_than(T::zero()) {
            T::zero()
        } else {
            T::one()
        }
    }

    fn derive_takes_output(&self) -> (r: bool) {
        false
    }
}

/// The leaky rectifier: the greater of `x` and `slope * x`.
#[derive(Debug, Clone, Copy)]
pub struct LeakyRelu<T> {
    pub slope: T,
}

impl<T: Scalar> Function<T> for LeakyRelu<T> {
    open spec fn valid(&self) -> bool {
        true
    }

    open spec fn activation(&self, x: T) -> T {
        if x.less(self.slope.times(x)) {
            self.slope.times(x)
        } else {
            x
        }
    }

    open spec fn derivative(&self, x: T) -> T {
        if x.less(T::zero_value()) {
            self.slope
        } else {
            T::one_value()
        }
    }

    open spec fn derives_from_output(&self) -> bool {
        false
    }

    fn activate(&self, x: T) -> (r: T) {
        let leak = self.slope.mul(x);
        if x.less_than(leak) {
            leak
        } else {
            x
        }
    }

    fn derive(&self, x: T) -> (r: T) {
        if x.less_than(T::zero()) {
            self.slope
        } else {
            T::one()
        }
    }

    fn derive_takes_output(&self) -> (r: bool) {
        false
    }
}

/// `f` can be applied to every value, and what it returns is a function of
/// the value it is given.
pub open spec fn is_function<T, E: Fn(T) -> T>(f: &E) -> bool {
    &&& forall|x: T| call_requires(f, (x,))
    &&& forall|x: T, y: T, z: T|
        #![trigger call_ensures(f, (x,), y), call_ensures(f, (x,), z)]
        call_ensures(f, (x,), y) && call_ensures(f, (x,), z) ==> y == z
}

/// What `f` returns for `x`.
pub open spec fn value_of<T, E: Fn(T) -> T>(f: &E, x: T) -> T {
    choose|y: T| call_ensures(f, (x,), y)
}

/// The quotient of `a` by `b`; `a` itself where `b` equals zero, which is
/// not divided by.
pub open spec fn guarded_quotient<T: Scalar>(a: T, b: T) -> T {
    if b.same(T::zero_value()) {
        a
    } else {
        a.over(b)
    }
}

/// Divides `a` by `b` unless `b` equals zero.
pub fn guarded_div<T: Scalar>(a: T, b: T) -> (r: T)
    ensures
        r == guarded_quotient(a, b),
{
    if b.equals(T::zero()) {
        a
    } else {
        a.div(b)
    }
}

/// The logistic function `1 / (1 + exp(-x))` over a given exponential. Its
/// derivative is taken at its output `a`, where it is `a * (1 - a)`.
pub struct Sigmoid<E> {
    pub exp: E,
}

impl<T: Scalar, E: Fn(T) -> T> Function<T> for Sigmoid<E> {
    open spec fn valid(&self) -> bool {
        is_function(&self.exp)
    }

    open spec fn activation(&self, x: T) -> T {
        guarded_quotient(
            T::one_value(),
            T::one_value().plus(value_of(&self.exp, x.negated())),
        )
    }

    open spec fn derivative(&self, x: T) -> T {
        x.times(T::one_value().minus(x))
    }

    open spec fn derives_from_output(&self) -> bool {
        true
    }

    fn activate(&self, x: T) -> (r: T) {
        let e = (self.exp)(x.neg());
        guarded_div(T::one(), T::one().add(e))
    }

    fn derive(&self, x: T) -> (r: T) {
        x.mul(T::one().sub(x))
    }

    fn derive_takes_output(&self) -> (r: bool) {
        true
    }
}

/// The function `x / (1 + exp(-x))` over a given exponential, with the
/// derivative `(1 + exp(-x) + x * exp(-x)) / (1 + exp(-x))^2` at the raw sum.
pub struct Swish<E> {
    pub exp: E,
}

impl<T: Scalar, E: Fn(T) -> T> Function<T> for Swish<E> {
    open spec fn valid(&self) -> bool {
        is_function(&self.exp)
    }

    open spec fn activation(&self, x: T) -> T {
        guarded_quotient(x, T::one_value().plus(value_of(&self.exp, x.negated())))
    }

    open spec fn derivative(&self, x: T) -> T {
        let e = value_of(&self.exp, x.negated());
        let d = T::one_value().plus(e);
        guarded_quotient(T::one_value().plus(e).plus(x.times(e)), d.times(d))
    }

    open spec fn derives_from_output(&self) -> bool {
        false
    }

    fn activate(&self, x: T) -> (r: T) {
        let e = (self.exp)(x.neg());
        guarded_div(x, T::one().add(e))
    }

    fn derive(&self, x: T) -> (r: T) {
        let e = (self.exp)(x.neg());
        let d = T::one().add(e);
        guarded_div(T::one().add(e).add(x.mul(e)), d.mul(d))
    }

    fn derive_takes_output(&self) -> (r: bool) {
        false
    }
}

/// The arc tangent, given as a function, with the derivative
/// `1 / (x^2 + 1)` at the raw sum.
pub struct Arctan<A> {
    pub atan: A,
}

impl<T: Scalar, A: Fn(T) -> T> Function<T> for Arctan<A> {
    open spec fn valid(&self) -> bool {
        is_function(&self.atan)
    }

    open spec fn activation(&self, x: T) -> T {
        value_of(&self.atan, x)
    }

    open spec fn derivative(&self, x: T) -> T {
        guarded_quotient(T::one_value(), x.times(x).plus(T::one_value()))
    }

    open spec fn derives_from_output(&self) -> bool {
        false
    }

    fn activate(&self, x: T) -> (r: T) {
        (self.atan)(x)
    }

    fn derive(&self, x: T) -> (r: T) {
        guarded_div(T::one(), x.mul(x).add(T::one()))
    }

    fn derive_takes_output(&self) -> (r: bool) {
        false
    }
}

/// The arc tangent divided by half of pi, which brings it between minus
/// one and one, with the derivative `(1 / (x^2 + 1)) / (pi / 2)` at the raw
/// sum. The arc tangent and half of pi are given.
pub struct NormalArctan<T, A> {
    pub atan: A,
    pub half_pi: T,
}

impl<T: Scalar, A: Fn(T) -> T> Function<T> for NormalArctan<T, A> {
    open spec fn valid(&self) -> bool {
        is_function(&self.atan)
    }

    open spec fn activation(&self, x: T) -> T {
        guarded_quotient(value_of(&self.atan, x), self.half_pi)
    }

    open spec fn derivative(&self, x: T) -> T {
        guarded_quotient(
            guarded_quotient(T::one_value(), x.times(x).plus(T::one_value())),
            self.half_pi,
        )
    }

    open spec fn derives_from_output(&self) -> bool {
        false
    }

    fn activate(&self, x: T) -> (r: T) {
        guarded_div((self.atan)(x), self.half_pi)
    }

    fn derive(&self, x: T) -> (r: T) {
        guarded_div(guarded_div(T::one(), x.mul(x).add(T::one())), self.half_pi)
    }

    fn derive_takes_output(&self) -> (r: bool) {
        false
    }
}

/// Every cell of `g` passed through the activation of `f`.
pub open spec fn activated<T: Scalar, F: Function<T>>(f: &F, g: Grid<T>) -> Grid<T> {
    Grid {
        rows: g.rows,
        cols: g.cols,
        cells: Seq::new(g.cells.len(), |k: int| f.activation(g.cells[k])),
    }
}

/// Every cell of `g` passed through the derivative of `f`.
pub open spec fn derived<T: Scalar, F: Function<T>>(f: &F, g: Grid<T>) -> Grid<T> {
    Grid {
        rows: g.rows,
        cols: g.cols,
        cells: Seq::new(g.cells.len(), |k: int| f.derivative(g.cells[k])),
    }
}

/// The slope of `f` at the raw sums `z`: the derivative of `f` at what it
/// expects, the sums themselves or their activations.
pub open spec fn slope_at<T: Scalar, F: Function<T>>(f: &F, z: Grid<T>) -> Grid<T> {
    if f.derives_from_output() {
        derived(f, activated(f, z))
    } else {
        derived(f, z)
    }
}

/// Passes every cell of `m` through the activation of `f`.
pub fn apply_activation<T: Scalar, F: Function<T>>(f: &F, m: Matrix<T>) -> (r: Matrix<T>)
    requires
        f.valid(),
        m.wf(),
    ensures
        r.wf(),
        r@ == activated(f, m@),
{
    let activate = |x: T| -> (y: T)
        ensures
            y == f.activation(x),
        {
            f.activate(x)
        };
    let r = m.apply_into(&activate);
    assert(r@.cells =~= activated(f, m@).cells);
    r
}

/// Passes every cell of `m` through the derivative of `f`.
pub fn apply_derivative<T: Scalar, F: Function<T>>(f: &F, m: Matrix<T>) -> (r: Matrix<T>)
    requires
        f.valid(),
        m.wf(),
    ensures
        r.wf(),
        r@ == derived(f, m@),
{
    let derive = |x: T| -> (y: T)
        ensures
            y == f.derivative(x),
        {
            f.derive(x)
        };
    let r = m.apply_into(&derive);
    assert(r@.cells =~= derived(f, m@).cells);
    r
}

/// The slope of `f` at the raw sums `z`.
pub fn apply_slope<T: Scalar, F: Function<T>>(f: &F, z: Matrix<T>) -> (r: Matrix<T>)
    requires
        f.valid(),
        z.wf(),
    ensures
        r.wf(),
        r@ == slope_at(f, z@),
{
    if f.derive_takes_output() {
        apply_derivative(f, apply_activation(f, z))
    } else {
        apply_derivative(f, z)
    }
}

} // verus!
