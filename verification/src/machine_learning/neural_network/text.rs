use crate::linear_algebra::model::Grid;
use crate::linear_algebra::text::{
    lemma_line_roundtrip, line_of, parsed_line, read_back, LoadError,
};
use crate::linear_algebra::Matrix;
use crate::machine_learning::neural_network::model::Net;
use crate::machine_learning::neural_network::{shape_fits, NeuralNetwork};
use crate::scalar::{FaithfulText, Scalar, Textual};
use crate::text::{
    all_free_of, decimal, free_of, join, lemma_decimal, lemma_digits_free, lemma_join_free,
    lemma_split_join, parse_count, parsed_count, push_decimal, read_form, split, split_bytes,
    views,
};
use vstd::prelude::*;

verus! {

/// The node counts in decimal digits.
pub open spec fn decimals(shape: Seq<usize>) -> Seq<Seq<u8>> {
    Seq::new(shape.len(), |i: int| decimal(shape[i] as nat))
}

/// The lines that write the grids, one each.
pub open spec fn lines_of<T: Textual>(grids: Seq<Grid<T>>) -> Seq<Seq<u8>> {
    Seq::new(grids.len(), |i: int| line_of(grids[i]))
}

/// The lines that write a network: the node counts with commas between
/// them, a blank line, one line for each matrix of weights, a blank line, one
/// line for each column of biases, and a blank line; the text ends with a
/// line feed.
pub open spec fn text_lines<T: Textual>(net: Net<T>) -> Seq<Seq<u8>> {
    seq![join(decimals(net.shape), 44u8), Seq::empty()] + lines_of(net.weights) + seq![
        Seq::empty(),
    ] + lines_of(net.biases) + seq![Seq::empty(), Seq::empty()]
}

/// The text that writes a network: its lines with a line feed between each two.
pub open spec fn text_of<T: Textual>(net: Net<T>) -> Seq<u8> {
    join(text_lines(net), 10u8)
}

/// The counts that the pieces write, if every piece writes one.
pub open spec fn parsed_counts(pieces: Seq<Seq<u8>>) -> Option<Seq<usize>>
    decreases pieces.len(),
{
    if pieces.len() == 0 {
        Some(Seq::empty())
    } else {
        match (parsed_counts(pieces.drop_last()), parsed_count(pieces.last())) {
            (Some(counts), Some(count)) => Some(counts.push(count)),
            _ => None,
        }
    }
}

/// A run of grids and the number of the blank line that ends it.
pub struct Block<T> {
    pub grids: Seq<Grid<T>>,
    pub end: int,
}

/// The grids that the lines from `from` up to the next blank line write.
/// The first line that writes no grid gives its error; lines that run out
/// before a blank one are a missing section.
pub open spec fn parsed_block<T: Scalar + Textual>(lines: Seq<Seq<u8>>, from: int) -> Result<
    Block<T>,
    LoadError,
>
    decreases lines.len() - from,
{
    if from < 0 || from >= lines.len() {
        Err(LoadError::MissingSection)
    } else if lines[from].len() == 0 {
        Ok(Block { grids: Seq::empty(), end: from })
    } else {
        match parsed_line::<T>(lines[from]) {
            Err(e) => Err(e),
            Ok(g) => match parsed_block::<T>(lines, from + 1) {
                Err(e) => Err(e),
                Ok(rest) => Ok(Block { grids: seq![g] + rest.grids, end: rest.end }),
            },
        }
    }
}

/// A block with `prefix` put before its grids.
pub open spec fn with_prefix<T>(prefix: Seq<Grid<T>>, block: Result<Block<T>, LoadError>) -> Result<
    Block<T>,
    LoadError,
> {
    match block {
        Err(e) => Err(e),
        Ok(b) => Ok(Block { grids: prefix + b.grids, end: b.end }),
    }
}

/// The network that a text writes. Its first line holds the node counts, the
/// second is blank, then come the weights up to a blank line and the biases
/// up to a blank line; what follows is not read. The matrices must have the
/// shapes that the node counts call for.
pub open spec fn parsed_net<T: Scalar + Textual>(text: Seq<u8>) -> Result<Net<T>, LoadError> {
    let lines = split(text, 10u8);
    match parsed_counts(split(lines[0], 44u8)) {
        None => Err(LoadError::BadDimension),
        Some(shape) => {
            if lines.len() < 2 || lines[1].len() != 0 {
                Err(LoadError::MissingSection)
            } else {
                match parsed_block::<T>(lines, 2) {
                    Err(e) => Err(e),
                    Ok(weights) => match parsed_block::<T>(lines, weights.end + 1) {
                        Err(e) => Err(e),
                        Ok(biases) => {
                            let net = Net {
                                shape,
                                weights: weights.grids,
                                biases: biases.grids,
                            };
                            if net.wf() {
                                Ok(net)
                            } else {
                                Err(LoadError::ShapeMismatch)
                            }
                        },
                    },
                }
            }
        },
    }
}

/// Where the first `k` pieces do not all write counts, neither do all.
pub proof fn lemma_counts_fail(pieces: Seq<Seq<u8>>, k: int)
    requires
        0 <= k <= pieces.len(),
        parsed_counts(pieces.take(k)).is_none(),
    ensures
        parsed_counts(pieces).is_none(),
    decreases pieces.len() - k,
{
    if k < pieces.len() {
        assert(pieces.take(k + 1).drop_last() =~= pieces.take(k));
        lemma_counts_fail(pieces, k + 1);
    } else {
        assert(pieces.take(k) =~= pieces);
    }
}

/// Reads the node counts from their pieces.
fn parse_counts(pieces: &Vec<Vec<u8>>) -> (counts: Option<Vec<usize>>)
    ensures
        counts.is_some() <==> parsed_counts(views(pieces@)).is_some(),
        counts matches Some(v) ==> parsed_counts(views(pieces@)) == Some(v@),
{
    let ghost all = views(pieces@);
    let mut counts: Vec<usize> = Vec::new();
    let mut k: usize = 0;
    while k < pieces.len()
        invariant
            k <= pieces@.len(),
            all == views(pieces@),
            parsed_counts(all.take(k as int)) == Some(counts@),
        decreases pieces@.len() - k,
    {
        proof {
            assert(all.take(k + 1).drop_last() =~= all.take(k as int));
            assert(all.take(k + 1).last() == pieces@[k as int]@);
        }
        match parse_count(pieces[k].as_slice()) {
            Some(count) => {
                counts.push(count);
            },
            None => {
                proof {
                    lemma_counts_fail(all, k + 1);
                }
                return None;
            },
        }
        k += 1;
    }
    assert(all.take(k as int) =~= all);
    Some(counts)
}

/// The views of the matrices in `v`.
pub open spec fn grids_of<T>(v: Seq<Matrix<T>>) -> Seq<Grid<T>> {
    Seq::new(v.len(), |i: int| v[i]@)
}

/// Reads the matrices that the lines from `from` up to the next blank line
/// write; gives them with the number of that blank line.
fn parse_block<T: Scalar + Textual>(lines: &Vec<Vec<u8>>, from: usize) -> (r: Result<
    (Vec<Matrix<T>>, usize),
    LoadError,
>)
    ensures
        r matches Ok(found) ==> {
            &&& parsed_block::<T>(views(lines@), from as int) == Ok::<Block<T>, LoadError>(
                Block { grids: grids_of(found.0@), end: found.1 as int },
            )
            &&& found.1 < lines@.len()
            &&& forall|i: int| 0 <= i < found.0@.len() ==> (#[trigger] found.0@[i]).wf()
        },
        r matches Err(e) ==> parsed_block::<T>(views(lines@), from as int) == Err::<
            Block<T>,
            LoadError,
        >(e),
{
    let ghost all = views(lines@);
    let mut found: Vec<Matrix<T>> = Vec::new();
    let mut i: usize = from;
    proof {
        assert(grids_of(found@) + Seq::<Grid<T>>::empty() =~= Seq::<Grid<T>>::empty());
        match parsed_block::<T>(all, from as int) {
            Ok(b) => {
                assert(grids_of(found@) + b.grids =~= b.grids);
            },
            Err(_) => {},
        }
    }
    while i < lines.len()
        invariant
            from <= i,
            all == views(lines@),
            parsed_block::<T>(all, from as int) == with_prefix(
                grids_of(found@),
                parsed_block::<T>(all, i as int),
            ),
            forall|k: int| 0 <= k < found@.len() ==> (#[trigger] found@[k]).wf(),
        decreases lines@.len() - i,
    {
        assert(all[i as int] == lines@[i as int]@);
        if lines[i].len() == 0 {
            proof {
                assert(grids_of(found@) + Seq::<Grid<T>>::empty() =~= grids_of(found@));
            }
            return Ok((found, i));
        }
        match Matrix::<T>::from_str(lines[i].as_slice()) {
            Err(e) => {
                return Err(e);
            },
            Ok(matrix) => {
                proof {
                    let ghost before = grids_of(found@);
                    let ghost after = grids_of(found@.push(matrix));
                    assert(after =~= before + seq![matrix@]);
                    match parsed_block::<T>(all, i + 1) {
                        Ok(rest) => {
                            assert(before + (seq![matrix@] + rest.grids) =~= after + rest.grids);
                        },
                        Err(_) => {},
                    }
                }
                found.push(matrix);
            },
        }
        i += 1;
    }
    Err(LoadError::MissingSection)
}

impl<T: Scalar + Textual> NeuralNetwork<T> {
    /// The text that writes the network.
    pub fn to_text(&self) -> (t: Vec<u8>)
        requires
            self.wf(),
        ensures
            t@ == text_of(self@),
    {
        let mut t: Vec<u8> = Vec::new();
        let shape = self.shape();
        let steps: usize = self.layers();
        let mut k: usize = 0;
        while k < shape.len()
            invariant
                k <= shape@.len(),
                t@ == join(decimals(shape@.take(k as int)), 44u8),
            decreases shape@.len() - k,
        {
            let ghost before = decimals(shape@.take(k as int));
            let ghost after = decimals(shape@.take(k + 1));
            if k > 0 {
                t.push(44u8);
            }
            push_decimal(&mut t, shape[k] as u64);
            proof {
                assert(after.drop_last() =~= before);
                assert(after.last() == decimal(shape@[k as int] as nat));
                if k == 0 {
                    assert(join(before, 44u8) =~= Seq::<u8>::empty());
                }
                assert(t@ =~= join(after, 44u8));
            }
            k += 1;
        }
        assert(shape@.take(k as int) =~= shape@);
        let ghost head: Seq<Seq<u8>> = seq![join(decimals(self@.shape), 44u8), Seq::empty()];
        t.push(10u8);
        t.push(10u8);
        proof {
            let ghost first = seq![join(decimals(self@.shape), 44u8)];
            assert(head.drop_last() =~= first);
            assert(join(first, 10u8) == first[0]);
            assert(head.last() =~= Seq::<u8>::empty());
            assert(join(head, 10u8) =~= first[0] + seq![10u8]);
            assert(t@ =~= join(head, 10u8) + seq![10u8]);
        }
        let mut i: usize = 0;
        while i < steps
            invariant
                self.wf(),
                steps == self@.layers(),
                i <= steps,
                head == seq![join(decimals(self@.shape), 44u8), Seq::<u8>::empty()],
                t@ == join(head + lines_of(self@.weights.take(i as int)), 10u8) + seq![10u8],
            decreases steps - i,
        {
            let ghost before = head + lines_of(self@.weights.take(i as int));
            let ghost after = head + lines_of(self@.weights.take(i + 1));
            let line = self.weight(i).to_str();
            crate::text::append(&mut t, line.as_slice());
            proof {
                assert(after.drop_last() =~= before);
                assert(after.last() == line_of(self@.weights[i as int]));
                assert(t@ =~= join(after, 10u8) + seq![10u8]);
            }
            i += 1;
        }
        assert(self@.weights.take(i as int) =~= self@.weights);
        let ghost middle = head + lines_of(self@.weights) + seq![Seq::<u8>::empty()];
        t.push(10u8);
        proof {
            assert(middle.drop_last() =~= head + lines_of(self@.weights));
            assert(t@ =~= join(middle, 10u8) + seq![10u8]);
        }
        let mut j: usize = 0;
        while j < steps
            invariant
                self.wf(),
                steps == self@.layers(),
                j <= steps,
                middle == head + lines_of(self@.weights) + seq![Seq::<u8>::empty()],
                t@ == join(middle + lines_of(self@.biases.take(j as int)), 10u8) + seq![10u8],
            decreases steps - j,
        {
            let ghost before = middle + lines_of(self@.biases.take(j as int));
            let ghost after = middle + lines_of(self@.biases.take(j + 1));
            let line = self.bias(j).to_str();
            crate::text::append(&mut t, line.as_slice());
            proof {
                assert(after.drop_last() =~= before);
                assert(after.last() == line_of(self@.biases[j as int]));
                assert(t@ =~= join(after, 10u8) + seq![10u8]);
            }
            j += 1;
        }
        assert(self@.biases.take(j as int) =~= self@.biases);
        t.push(10u8);
        proof {
            let ghost body = middle + lines_of(self@.biases);
            let ghost closed = body + seq![Seq::<u8>::empty()];
            let ghost all = text_lines(self@);
            assert(closed.drop_last() =~= body);
            assert(all =~= closed + seq![Seq::<u8>::empty()]);
            assert(all.drop_last() =~= closed);
            assert(join(closed, 10u8) =~= join(body, 10u8) + seq![10u8]);
            assert(t@ =~= join(all, 10u8));
        }
        t
    }

    /// Reads a network from the text that writes it.
    pub fn from_text(text: &[u8]) -> (r: Result<NeuralNetwork<T>, LoadError>)
        ensures
            r matches Ok(n) ==> n.wf() && parsed_net::<T>(text@) == Ok::<Net<T>, LoadError>(n@),
            r matches Err(e) ==> parsed_net::<T>(text@) == Err::<Net<T>, LoadError>(e),
    {
        let lines = split_bytes(text, 10u8);
        let ghost all = views(lines@);
        assert(lines@.len() >= 1) by {
            assert(all.len() == lines@.len());
            assert(split(text@, 10u8).len() >= 1);
        }
        assert(all[0] == lines@[0]@);
        let pieces = split_bytes(lines[0].as_slice(), 44u8);
        let shape = match parse_counts(&pieces) {
            Some(shape) => shape,
            None => {
                return Err(LoadError::BadDimension);
            },
        };
        if lines.len() < 2 {
            return Err(LoadError::MissingSection);
        }
        assert(all[1] == lines@[1]@);
        if lines[1].len() != 0 {
            return Err(LoadError::MissingSection);
        }
        let (weights, end) = match parse_block::<T>(&lines, 2) {
            Ok(found) => found,
            Err(e) => {
                return Err(e);
            },
        };
        let (biases, _) = match parse_block::<T>(&lines, end + 1) {
            Ok(found) => found,
            Err(e) => {
                return Err(e);
            },
        };
        let ghost net = Net { shape: shape@, weights: grids_of(weights@), biases: grids_of(biases@) };
        assert(parsed_net::<T>(text@) == if net.wf() {
            Ok::<Net<T>, LoadError>(net)
        } else {
            Err::<Net<T>, LoadError>(LoadError::ShapeMismatch)
        });
        if weights.len() >= shape.len() || shape.len() - weights.len() != 1 || biases.len()
            != weights.len() {
            return Err(LoadError::ShapeMismatch);
        }
        let mut i: usize = 0;
        while i < weights.len()
            invariant
                i <= weights@.len(),
                shape@.len() == weights@.len() + 1,
                biases@.len() == weights@.len(),
                net == (Net { shape: shape@, weights: grids_of(weights@), biases: grids_of(biases@) }),
                parsed_net::<T>(text@) == if net.wf() {
                    Ok::<Net<T>, LoadError>(net)
                } else {
                    Err::<Net<T>, LoadError>(LoadError::ShapeMismatch)
                },
                forall|k: int| 0 <= k < weights@.len() ==> (#[trigger] weights@[k]).wf(),
                forall|k: int| 0 <= k < biases@.len() ==> (#[trigger] biases@[k]).wf(),
                forall|k: int|
                    0 <= k < i ==> {
                        &&& (#[trigger] weights@[k])@.rows == shape@[k + 1]
                        &&& weights@[k]@.cols == shape@[k]
                        &&& shape@[k + 1] * shape@[k] <= usize::MAX
                    },
                forall|k: int|
                    0 <= k < i ==> {
                        &&& (#[trigger] biases@[k])@.rows == shape@[k + 1]
                        &&& biases@[k]@.cols == 1
                    },
            decreases weights@.len() - i,
        {
            let (wr, wc) = weights[i].get_dims();
            let (br, bc) = biases[i].get_dims();
            let size = weights[i].len();
            if wr != shape[i + 1] || wc != shape[i] || br != shape[i + 1] || bc != 1 {
                proof {
                    assert(net.weights[i as int] == weights@[i as int]@);
                    assert(net.biases[i as int] == biases@[i as int]@);
                    assert(!net.wf());
                }
                return Err(LoadError::ShapeMismatch);
            }
            assert(shape@[i + 1] * shape@[i as int] == size);
            i += 1;
        }
        proof {
            assert forall|k: int| 0 <= k < net.weights.len() implies {
                &&& (#[trigger] net.weights[k]).wf()
                &&& net.weights[k].rows == net.shape[k + 1]
                &&& net.weights[k].cols == net.shape[k]
            } by {
                assert(net.weights[k] == weights@[k]@);
            }
            assert forall|k: int| 0 <= k < net.biases.len() implies {
                &&& (#[trigger] net.biases[k]).wf()
                &&& net.biases[k].rows == net.shape[k + 1]
                &&& net.biases[k].cols == 1
            } by {
                assert(net.biases[k] == biases@[k]@);
            }
            assert(net.wf());
            assert forall|k: int| 0 <= k < shape@.len() - 1 implies #[trigger] shape@[k + 1]
                * shape@[k] <= usize::MAX by {
                assert(weights@[k]@.rows == shape@[k + 1]);
            }
        }
        let n = NeuralNetwork::from_parts(weights, biases, shape);
        assert(n@.weights =~= net.weights);
        assert(n@.biases =~= net.biases);
        Ok(n)
    }
}

/// Node counts are read back from their decimal digits, which hold neither
/// a comma nor a line feed.
pub proof fn lemma_counts_roundtrip(shape: Seq<usize>)
    ensures
        parsed_counts(decimals(shape)) == Some(shape),
        all_free_of(decimals(shape), 44u8),
        all_free_of(decimals(shape), 10u8),
    decreases shape.len(),
{
    let texts = decimals(shape);
    assert forall|i: int| 0 <= i < texts.len() implies free_of(#[trigger] texts[i], 44u8)
        && free_of(texts[i], 10u8) by {
        lemma_decimal(shape[i] as nat);
        lemma_digits_free(texts[i], 44u8);
        lemma_digits_free(texts[i], 10u8);
    }
    if shape.len() > 0 {
        let before = shape.drop_last();
        lemma_counts_roundtrip(before);
        assert(texts.drop_last() =~= decimals(before));
        lemma_decimal(shape.last() as nat);
        assert(before.push(shape.last()) =~= shape);
    } else {
        assert(shape =~= Seq::<usize>::empty());
    }
}

/// Lines that write grids, with a blank line after them, are read back as
/// those grids.
pub proof fn lemma_block_roundtrip<T: Scalar + Textual>(
    lines: Seq<Seq<u8>>,
    start: int,
    grids: Seq<Grid<T>>,
    j: int,
)
    requires
        0 <= start,
        0 <= j <= grids.len(),
        start + grids.len() < lines.len(),
        lines[start + grids.len()].len() == 0,
        forall|i: int| 0 <= i < grids.len() ==> lines[start + i] == line_of(#[trigger] grids[i]),
        forall|i: int|
            0 <= i < grids.len() ==> {
                &&& (#[trigger] grids[i]).wf()
                &&& read_back(grids[i].cells)
                &&& grids[i].rows <= usize::MAX
                &&& grids[i].cols <= usize::MAX
                &&& grids[i].rows * grids[i].cols <= usize::MAX
            },
    ensures
        parsed_block::<T>(lines, start + j) == Ok::<Block<T>, LoadError>(
            Block { grids: grids.skip(j), end: start + grids.len() },
        ),
    decreases grids.len() - j,
{
    if j < grids.len() {
        lemma_block_roundtrip(lines, start, grids, j + 1);
        lemma_line_roundtrip(grids[j]);
        assert(lines[start + j] == line_of(grids[j]));
        assert(seq![grids[j]] + grids.skip(j + 1) =~= grids.skip(j));
    } else {
        assert(grids.skip(j) =~= Seq::<Grid<T>>::empty());
    }
}

/// Every weight and bias is the value of its numeral as the text of the
/// numeral is read.
pub open spec fn all_read_back<T: Textual>(net: Net<T>) -> bool {
    &&& forall|i: int| 0 <= i < net.weights.len() ==> read_back((#[trigger] net.weights[i]).cells)
    &&& forall|i: int| 0 <= i < net.biases.len() ==> read_back((#[trigger] net.biases[i]).cells)
}

/// The text that writes a network is read back as that network, where the
/// weights and biases are the values of their numerals as the texts of the
/// numerals are read.
pub proof fn lemma_text_roundtrip<T: Scalar + Textual>(net: Net<T>)
    requires
        net.wf(),
        shape_fits(net.shape),
        all_read_back(net),
    ensures
        parsed_net::<T>(text_of(net)) == Ok::<Net<T>, LoadError>(net),
{
    let n = net.weights.len() as int;
    let lines = text_lines(net);
    let counts = join(decimals(net.shape), 44u8);
    let blank = Seq::<u8>::empty();
    lemma_counts_roundtrip(net.shape);
    lemma_join_free(decimals(net.shape), 44u8, 10u8);
    assert(lines.len() == 5 + 2 * n);
    assert(lines[0] == counts);
    assert(lines[1] == blank);
    assert(lines[2 + n] == blank);
    assert(lines[3 + 2 * n] == blank);
    assert(lines[4 + 2 * n] == blank);
    assert forall|i: int| 0 <= i < n implies lines[2 + i] == line_of(
        #[trigger] net.weights[i],
    ) by {
        assert(lines[2 + i] == lines_of(net.weights)[i]);
    }
    assert forall|i: int| 0 <= i < n implies lines[3 + n + i] == line_of(
        #[trigger] net.biases[i],
    ) by {
        assert(lines[3 + n + i] == lines_of(net.biases)[i]);
    }
    assert forall|i: int| 0 <= i < n implies {
        &&& (#[trigger] net.weights[i]).wf()
        &&& read_back(net.weights[i].cells)
        &&& net.weights[i].rows <= usize::MAX
        &&& net.weights[i].cols <= usize::MAX
        &&& net.weights[i].rows * net.weights[i].cols <= usize::MAX
    } by {
        assert(net.shape[i + 1] * net.shape[i] <= usize::MAX);
    }
    assert forall|i: int| 0 <= i < n implies {
        &&& (#[trigger] net.biases[i]).wf()
        &&& read_back(net.biases[i].cells)
        &&& net.biases[i].rows <= usize::MAX
        &&& net.biases[i].cols <= usize::MAX
        &&& net.biases[i].rows * net.biases[i].cols <= usize::MAX
    } by {
        assert(net.biases[i].cols == 1);
    }
    assert forall|k: int| 0 <= k < lines.len() implies free_of(#[trigger] lines[k], 10u8) by {
        if 2 <= k < 2 + n {
            assert(lines[k] == line_of(net.weights[k - 2]));
            lemma_line_roundtrip(net.weights[k - 2]);
        } else if 3 + n <= k < 3 + 2 * n {
            assert(lines[k] == line_of(net.biases[k - 3 - n]));
            lemma_line_roundtrip(net.biases[k - 3 - n]);
        }
    }
    lemma_split_join(lines, 10u8);
    lemma_split_join(decimals(net.shape), 44u8);
    lemma_block_roundtrip(lines, 2, net.weights, 0);
    lemma_block_roundtrip(lines, 3 + n, net.biases, 0);
    assert(net.weights.skip(0) =~= net.weights);
    assert(net.biases.skip(0) =~= net.biases);
}

/// The text that writes a network of values that are faithful to their
/// numerals is read back as that network.
pub proof fn lemma_faithful_text_roundtrip<T: Scalar + FaithfulText>(net: Net<T>)
    requires
        net.wf(),
        shape_fits(net.shape),
    ensures
        parsed_net::<T>(text_of(net)) == Ok::<Net<T>, LoadError>(net),
{
    assert forall|i: int| 0 <= i < net.weights.len() implies read_back(
        (#[trigger] net.weights[i]).cells,
    ) by {
        let cells = net.weights[i].cells;
        assert forall|k: int| 0 <= k < cells.len() implies T::of_numeral(
            read_form((#[trigger] cells[k]).numeral()),
        ) == Some(cells[k]) by {
            T::lemma_numeral_roundtrip(cells[k]);
        }
    }
    assert forall|i: int| 0 <= i < net.biases.len() implies read_back(
        (#[trigger] net.biases[i]).cells,
    ) by {
        let cells = net.biases[i].cells;
        assert forall|k: int| 0 <= k < cells.len() implies T::of_numeral(
            read_form((#[trigger] cells[k]).numeral()),
        ) == Some(cells[k]) by {
            T::lemma_numeral_roundtrip(cells[k]);
        }
    }
    lemma_text_roundtrip(net);
}

} // verus!
