use crate::calculus::functions::Function;
use crate::machine_learning::dataset::Example;
use crate::machine_learning::neural_network::model::{accuracy, Net};
use crate::scalar::{ExactScalar, Scalar};
use vstd::prelude::*;

verus! {

/// The network decides for the class of every example, or of none, and the
/// count of hits is all, or nothing.
pub proof fn lemma_count_hits_extremes<T: Scalar, F: Function<T>>(
    net: Net<T>,
    f: &F,
    examples: Seq<Example<T>>,
)
    ensures
        (forall|k: int| 0 <= k < examples.len() ==> net.hits(f, #[trigger] examples[k]))
            ==> net.count_hits(f, examples) == examples.len(),
        (forall|k: int| 0 <= k < examples.len() ==> !net.hits(f, #[trigger] examples[k]))
            ==> net.count_hits(f, examples) == 0,
    decreases examples.len(),
{
    if examples.len() > 0 {
        let before = examples.drop_last();
        lemma_count_hits_extremes(net, f, before);
        assert forall|k: int| 0 <= k < before.len() implies before[k] == examples[k] by {}
        if forall|k: int| 0 <= k < examples.len() ==> net.hits(f, #[trigger] examples[k]) {
            assert forall|k: int| 0 <= k < before.len() implies net.hits(
                f,
                #[trigger] before[k],
            ) by {
                assert(net.hits(f, examples[k]));
            }
            assert(net.hits(f, examples[examples.len() - 1]));
        }
        if forall|k: int| 0 <= k < examples.len() ==> !net.hits(f, #[trigger] examples[k]) {
            assert forall|k: int| 0 <= k < before.len() implies !net.hits(
                f,
                #[trigger] before[k],
            ) by {
                assert(!net.hits(f, examples[k]));
            }
            assert(!net.hits(f, examples[examples.len() - 1]));
        }
    }
}

/// The accuracy is one where the network decides for the class of every
/// example, and zero where it decides for the class of none. This holds of
/// one or more examples whose count does not equal zero as a scalar, is one
/// when divided by itself, and divides the count of nothing to zero.
pub proof fn lemma_accuracy_extremes<T: Scalar, F: Function<T>>(
    net: Net<T>,
    f: &F,
    examples: Seq<Example<T>>,
)
    requires
        0 < examples.len() <= usize::MAX,
        !T::of_count(examples.len() as usize).same(T::zero_value()),
        T::of_count(examples.len() as usize).over(T::of_count(examples.len() as usize))
            == T::one_value(),
        T::of_count(0).over(T::of_count(examples.len() as usize)) == T::zero_value(),
    ensures
        (forall|k: int| 0 <= k < examples.len() ==> net.hits(f, #[trigger] examples[k]))
            ==> accuracy::<T>(net.count_hits(f, examples), examples.len()) == T::one_value(),
        (forall|k: int| 0 <= k < examples.len() ==> !net.hits(f, #[trigger] examples[k]))
            ==> accuracy::<T>(net.count_hits(f, examples), examples.len()) == T::zero_value(),
{
    lemma_count_hits_extremes(net, f, examples);
}

/// Over exact scalars, the accuracy on one or more examples is one where the
/// network decides for the class of every example, and zero where it
/// decides for the class of none.
pub proof fn lemma_exact_accuracy_extremes<T: ExactScalar, F: Function<T>>(
    net: Net<T>,
    f: &F,
    examples: Seq<Example<T>>,
)
    requires
        0 < examples.len() <= usize::MAX,
    ensures
        (forall|k: int| 0 <= k < examples.len() ==> net.hits(f, #[trigger] examples[k]))
            ==> accuracy::<T>(net.count_hits(f, examples), examples.len()) == T::one_value(),
        (forall|k: int| 0 <= k < examples.len() ==> !net.hits(f, #[trigger] examples[k]))
            ==> accuracy::<T>(net.count_hits(f, examples), examples.len()) == T::zero_value(),
{
    let total = T::of_count(examples.len() as usize);
    T::lemma_counts(examples.len() as usize);
    T::lemma_quotients(total);
    lemma_accuracy_extremes(net, f, examples);
}

} // verus!
