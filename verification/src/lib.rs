//! Dense matrices and feed-forward neural networks, verified.
//!
//! The numbers are abstract: a matrix holds values of any type that is a
//! [`scalar::Scalar`], and every contract is stated over the operations of
//! that type. Sixty-four-bit integers are scalars here; floating-point
//! numbers become scalars where a program implements the trait for them.
//!
//! - [`scalar`]: the scalars and what may be assumed of exact ones.
//! - [`linear_algebra`]: matrices, their arithmetic, determinant and inverse.
//! - [`calculus`]: activation and cost functions.
//! - [`machine_learning`]: labelled examples, and networks with forward
//!   propagation, backpropagation, training and testing.
//! - [`text`]: the bytes in which matrices and networks are written.
pub mod calculus;
pub mod linear_algebra;
pub mod machine_learning;
pub mod scalar;
pub mod text;
