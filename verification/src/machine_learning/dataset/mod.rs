//! Labelled examples.
pub mod mnist;

use crate::linear_algebra::model::Grid;
use crate::linear_algebra::Matrix;
use crate::scalar::Scalar;
use vstd::prelude::*;

verus! {

/// The mathematical value of a labelled example.
pub struct Example<T> {
    pub input: Grid<T>,
    pub label: u8,
}

/// A labelled example: a column of input features and the class it belongs to.
#[derive(Debug)]
pub struct DataVector<T> {
    pub data: Matrix<T>,
    pub label: u8,
}

/// The examples to train on and the examples to test with.
#[derive(Debug)]
pub struct DataSet<T> {
    pub training_data: Vec<DataVector<T>>,
    pub testing_data: Vec<DataVector<T>>,
}

impl<T> View for DataVector<T> {
    type V = Example<T>;

    open spec fn view(&self) -> Example<T> {
        Example { input: self.data@, label: self.label }
    }
}

/// The values of a run of examples.
pub open spec fn examples_of<T>(data: Seq<DataVector<T>>) -> Seq<Example<T>> {
    Seq::new(data.len(), |k: int| data[k]@)
}

/// Every example holds a well-formed matrix.
pub open spec fn all_wf<T: Scalar>(data: Seq<DataVector<T>>) -> bool {
    forall|k: int| 0 <= k < data.len() ==> (#[trigger] data[k]).data.wf()
}

/// The column of zeros with a one in row `label`: all zeros if there is no
/// such row.
pub open spec fn one_hot<T: Scalar>(rows: nat, cols: nat, label: u8) -> Grid<T> {
    let zeros = Grid::<T>::zeros(rows, cols);
    if zeros.in_range(label as int, 0) {
        zeros.with_cell(label as int, 0, T::one_value())
    } else {
        zeros
    }
}

impl<T: Scalar> DataVector<T> {
    /// An example of class `label`.
    pub fn new(data: Matrix<T>, label: u8) -> (d: Self)
        ensures
            d.data == data,
            d.label == label,
    {
        DataVector { data, label }
    }

    /// The expected result in the shape of the data: zero everywhere but for a
    /// one in the first column of the row that the label names.
    pub fn expected_matrix(&self) -> (m: Matrix<T>)
        requires
            self.data.wf(),
        ensures
            m.wf(),
            m@ == one_hot::<T>(self.data@.rows, self.data@.cols, self.label),
    {
        let (r, c) = self.data.get_dims();
        let n = self.data.len();
        let mut m = Matrix::zeros(r, c);
        let _ = m.set(self.label as usize, 0, T::one());
        m
    }
}

} // verus!
