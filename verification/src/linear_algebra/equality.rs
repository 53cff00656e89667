use crate::linear_algebra::Matrix;
use crate::scalar::Scalar;
use vstd::prelude::*;
use vstd::std_specs::cmp::PartialEqSpecImpl;

verus! {

impl<T: Scalar> PartialEq for Matrix<T> {
    /// Whether the matrices have one shape and cells that are equal as
    /// numbers.
    fn eq(&self, other: &Self) -> (r: bool) {
        let (r, c) = self.get_dims();
        let (other_r, other_c) = other.get_dims();
        let mine = self.cells();
        let theirs = other.cells();
        if r != other_r || c != other_c || mine.len() != theirs.len() {
            return false;
        }
        let mut k: usize = 0;
        while k < mine.len()
            invariant
                k <= mine@.len(),
                mine@.len() == theirs@.len(),
                mine@ == self@.cells,
                theirs@ == other@.cells,
                forall|x: int| 0 <= x < k ==> (#[trigger] mine@[x]).same(theirs@[x]),
            decreases mine@.len() - k,
        {
            if !mine[k].equals(theirs[k]) {
                assert(!self@.cells[k as int].same(other@.cells[k as int]));
                return false;
            }
            k += 1;
        }
        true
    }
}

impl<T: Scalar> PartialEqSpecImpl for Matrix<T> {
    open spec fn obeys_eq_spec() -> bool {
        true
    }

    open spec fn eq_spec(&self, other: &Self) -> bool {
        self@.alike(other@)
    }
}

} // verus!
