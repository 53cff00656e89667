use crate::linear_algebra::model::Grid;
use crate::linear_algebra::Matrix;
use crate::scalar::{Scalar, Textual};
use crate::text::{
    all_free_of, decimal, find, find_bytes, free_of, is_digit, join, lemma_decimal,
    lemma_find_from, lemma_join_free, lemma_numeral_text, lemma_split_first, lemma_split_join,
    lemma_split_whole, numeral_text, occurs_at, parse_count, parse_numeral, parsed_count,
    parsed_numeral, push_decimal, push_numeral, read_form, split, split_bytes, views,
};
use vstd::prelude::*;
use vstd::slice::slice_subrange;

verus! {

/// Why a text does not write a matrix or a network.
#[derive(Debug, Clone, Copy, PartialEq, Eq)]
pub enum LoadError {
    /// A part of the text is missing: a blank line that ends a section.
    MissingSection,
    /// A line lacks the ` - ` between shape and values.
    MissingSeparator,
    /// A shape is not two counts, or a count cannot be read or held.
    BadDimension,
    /// A value cannot be read.
    BadNumber,
    /// The matrices do not have the shapes that the node counts call for.
    ShapeMismatch,
}

impl LoadError {
    /// The words for each error.
    pub open spec fn words(&self) -> &'static str {
        match self {
            LoadError::MissingSection => "a section of the text is missing",
            LoadError::MissingSeparator => "a line lacks the separator between shape and values",
            LoadError::BadDimension => "a dimension cannot be read",
            LoadError::BadNumber => "a value cannot be read",
            LoadError::ShapeMismatch => "the matrices do not fit the node counts",
        }
    }

    /// What went wrong, in words.
    pub fn message(&self) -> (m: &'static str)
        ensures
            m == self.words(),
    {
        match self {
            LoadError::MissingSection => "a section of the text is missing",
            LoadError::MissingSeparator => "a line lacks the separator between shape and values",
            LoadError::BadDimension => "a dimension cannot be read",
            LoadError::BadNumber => "a value cannot be read",
            LoadError::ShapeMismatch => "the matrices do not fit the node counts",
        }
    }
}

/// The bytes ` - ` that part the shape of a matrix from its values.
pub open spec fn shape_separator() -> Seq<u8> {
    seq![32u8, 45u8, 32u8]
}

/// The texts of the values, in order.
pub open spec fn texts_of<T: Textual>(values: Seq<T>) -> Seq<Seq<u8>> {
    Seq::new(values.len(), |k: int| numeral_text(values[k].numeral()))
}

/// The line that writes a grid: rows, a comma, columns, ` - `, and the cells
/// row by row with a comma between each two.
pub open spec fn line_of<T: Textual>(g: Grid<T>) -> Seq<u8> {
    decimal(g.rows) + seq![44u8] + decimal(g.cols) + shape_separator() + join(
        texts_of(g.cells),
        44u8,
    )
}

/// The value that a piece of text writes: the value of the numeral that it
/// writes, where there is one.
pub open spec fn parsed_value<T: Textual>(piece: Seq<u8>) -> Option<T> {
    match parsed_numeral(piece) {
        Some(n) => T::of_numeral(n),
        None => None,
    }
}

/// The values that the pieces write, if every piece writes one.
pub open spec fn parsed_values<T: Textual>(pieces: Seq<Seq<u8>>) -> Option<Seq<T>>
    decreases pieces.len(),
{
    if pieces.len() == 0 {
        Some(Seq::empty())
    } else {
        match (parsed_values::<T>(pieces.drop_last()), parsed_value::<T>(pieces.last())) {
            (Some(values), Some(value)) => Some(values.push(value)),
            _ => None,
        }
    }
}

/// The pieces of the values of a line: none for an empty text, else what
/// stands between the commas.
pub open spec fn value_pieces(body: Seq<u8>) -> Seq<Seq<u8>> {
    if body.len() == 0 {
        Seq::empty()
    } else {
        split(body, 44u8)
    }
}

/// The grid that a line writes. The line must hold ` - `; before it two
/// counts with a comma between them, whose product the machine can hold;
/// after it values with commas between them. Values that are missing are
/// zero, values beyond the last cell are dropped.
pub open spec fn parsed_line<T: Scalar + Textual>(line: Seq<u8>) -> Result<Grid<T>, LoadError> {
    match find(line, shape_separator()) {
        None => Err(LoadError::MissingSeparator),
        Some(k) => {
            let dims = split(line.take(k), 44u8);
            if dims.len() != 2 {
                Err(LoadError::BadDimension)
            } else {
                match (parsed_count(dims[0]), parsed_count(dims[1])) {
                    (Some(r), Some(c)) => {
                        if r * c > usize::MAX {
                            Err(LoadError::BadDimension)
                        } else {
                            match parsed_values::<T>(value_pieces(line.skip(k + 3))) {
                                Some(values) => Ok(Grid::from_values(r as nat, c as nat, values)),
                                None => Err(LoadError::BadNumber),
                            }
                        }
                    },
                    _ => Err(LoadError::BadDimension),
                }
            }
        },
    }
}

/// Whether a matrix of `r` rows and `c` columns can be held.
pub fn product_fits(r: usize, c: usize) -> (b: bool)
    ensures
        b == (r * c <= usize::MAX),
{
    assert(r * c <= 0xffff_ffff_ffff_ffff * 0xffff_ffff_ffff_ffff) by (nonlinear_arith)
        requires
            0 <= r <= 0xffff_ffff_ffff_ffff,
            0 <= c <= 0xffff_ffff_ffff_ffff,
    ;
    let wide: u128 = (r as u128) * (c as u128);
    wide <= usize::MAX as u128
}

/// Appends the pieces of text that write `values`, with commas between them.
pub fn push_values<T: Textual>(out: &mut Vec<u8>, values: &[T])
    ensures
        final(out)@ == old(out)@ + join(texts_of(values@), 44u8),
{
    let mut k: usize = 0;
    while k < values.len()
        invariant
            k <= values@.len(),
            out@ == old(out)@ + join(texts_of(values@.take(k as int)), 44u8),
        decreases values@.len() - k,
    {
        let ghost before = texts_of(values@.take(k as int));
        let ghost after = texts_of(values@.take(k + 1));
        if k > 0 {
            out.push(44u8);
        }
        push_numeral(out, values[k].to_numeral());
        proof {
            assert(after.drop_last() =~= before);
            assert(after.last() == numeral_text(values@[k as int].numeral()));
            if k == 0 {
                assert(join(before, 44u8) =~= Seq::<u8>::empty());
                assert(out@ =~= old(out)@ + join(after, 44u8));
            } else {
                assert(out@ =~= old(out)@ + join(after, 44u8));
            }
        }
        k += 1;
    }
    assert(values@.take(k as int) =~= values@);
}

/// Reads the values that the pieces write.
pub fn parse_values<T: Textual>(pieces: &Vec<Vec<u8>>) -> (values: Option<Vec<T>>)
    ensures
        values.is_some() <==> parsed_values::<T>(views(pieces@)).is_some(),
        values matches Some(v) ==> parsed_values::<T>(views(pieces@)) == Some(v@),
{
    let ghost all = views(pieces@);
    let mut values: Vec<T> = Vec::new();
    let mut k: usize = 0;
    while k < pieces.len()
        invariant
            k <= pieces@.len(),
            all == views(pieces@),
            parsed_values::<T>(all.take(k as int)) == Some(values@),
        decreases pieces@.len() - k,
    {
        proof {
            assert(all.take(k + 1).drop_last() =~= all.take(k as int));
            assert(all.take(k + 1).last() == pieces@[k as int]@);
        }
        let read = match parse_numeral(pieces[k].as_slice()) {
            Some(n) => T::from_numeral(n),
            None => None,
        };
        match read {
            Some(value) => {
                values.push(value);
            },
            None => {
                proof {
                    lemma_values_fail::<T>(all, k + 1);
                }
                return None;
            },
        }
        k += 1;
    }
    assert(all.take(k as int) =~= all);
    Some(values)
}

/// Where the first `k` pieces do not all write values, neither do all.
pub proof fn lemma_values_fail<T: Textual>(pieces: Seq<Seq<u8>>, k: int)
    requires
        0 <= k <= pieces.len(),
        parsed_values::<T>(pieces.take(k)).is_none(),
    ensures
        parsed_values::<T>(pieces).is_none(),
    decreases pieces.len() - k,
{
    if k < pieces.len() {
        assert(pieces.take(k + 1).drop_last() =~= pieces.take(k));
        lemma_values_fail::<T>(pieces, k + 1);
    } else {
        assert(pieces.take(k) =~= pieces);
    }
}

impl<T: Scalar + Textual> Matrix<T> {
    /// The line that writes the matrix, with the line feed that ends it.
    pub fn to_str(&self) -> (t: Vec<u8>)
        requires
            self.wf(),
        ensures
            t@ == line_of(self@) + seq![10u8],
    {
        let (r, c) = self.get_dims();
        let mut t: Vec<u8> = Vec::new();
        push_decimal(&mut t, r as u64);
        t.push(44u8);
        push_decimal(&mut t, c as u64);
        t.push(32u8);
        t.push(45u8);
        t.push(32u8);
        assert(t@ =~= decimal(r as nat) + seq![44u8] + decimal(c as nat) + shape_separator());
        push_values(&mut t, self.cells());
        t.push(10u8);
        assert(t@ =~= line_of(self@) + seq![10u8]);
        t
    }

    /// Reads a matrix from the line that writes it, without a line feed.
    pub fn from_str(line: &[u8]) -> (m: Result<Matrix<T>, LoadError>)
        ensures
            m matches Ok(matrix) ==> matrix.wf() && parsed_line::<T>(line@) == Ok::<
                Grid<T>,
                LoadError,
            >(matrix@),
            m matches Err(e) ==> parsed_line::<T>(line@) == Err::<Grid<T>, LoadError>(e),
    {
        let separator: [u8; 3] = [32u8, 45u8, 32u8];
        assert(separator@ =~= shape_separator());
        let at = match find_bytes(line, separator.as_slice()) {
            Some(k) => k,
            None => {
                return Err(LoadError::MissingSeparator);
            },
        };
        let head = slice_subrange(line, 0, at);
        assert(head@ =~= line@.take(at as int));
        let dims = split_bytes(head, 44u8);
        if dims.len() != 2 {
            assert(views(dims@).len() == dims@.len());
            return Err(LoadError::BadDimension);
        }
        assert(views(dims@)[0] == dims@[0]@);
        assert(views(dims@)[1] == dims@[1]@);
        let r = match parse_count(dims[0].as_slice()) {
            Some(r) => r,
            None => {
                return Err(LoadError::BadDimension);
            },
        };
        let c = match parse_count(dims[1].as_slice()) {
            Some(c) => c,
            None => {
                return Err(LoadError::BadDimension);
            },
        };
        if !product_fits(r, c) {
            return Err(LoadError::BadDimension);
        }
        let total: usize = line.len();
        let body = slice_subrange(line, at + 3, total);
        assert(body@ =~= line@.skip(at + 3));
        let pieces = if body.len() == 0 {
            Vec::new()
        } else {
            split_bytes(body, 44u8)
        };
        assert(views(pieces@) =~= value_pieces(body@));
        match parse_values::<T>(&pieces) {
            Some(values) => Ok(Matrix::from_vec(r, c, values)),
            None => Err(LoadError::BadNumber),
        }
    }
}

/// Every value is the value of its numeral as the text of the numeral is
/// read.
pub open spec fn read_back<T: Textual>(values: Seq<T>) -> bool {
    forall|k: int|
        0 <= k < values.len() ==> T::of_numeral(read_form((#[trigger] values[k]).numeral()))
            == Some(values[k])
}

/// Values that are the values of their numerals, as the texts of the
/// numerals are read, are read back from their texts. The texts are not
/// empty and hold neither a comma nor a line feed.
pub proof fn lemma_values_roundtrip<T: Textual>(values: Seq<T>)
    requires
        read_back(values),
    ensures
        parsed_values::<T>(texts_of(values)) == Some(values),
        all_free_of(texts_of(values), 44u8),
        all_free_of(texts_of(values), 10u8),
        forall|k: int| 0 <= k < values.len() ==> (#[trigger] texts_of(values)[k]).len() > 0,
    decreases values.len(),
{
    let texts = texts_of(values);
    assert forall|k: int| 0 <= k < values.len() implies free_of(#[trigger] texts[k], 44u8)
        && free_of(texts[k], 10u8) && texts[k].len() > 0 by {
        lemma_numeral_text(values[k].numeral());
    }
    if values.len() > 0 {
        let before = values.drop_last();
        assert forall|k: int| 0 <= k < before.len() implies T::of_numeral(
            read_form((#[trigger] before[k]).numeral()),
        ) == Some(before[k]) by {
            assert(before[k] == values[k]);
        }
        lemma_values_roundtrip(before);
        assert(texts.drop_last() =~= texts_of(before));
        lemma_numeral_text(values.last().numeral());
        assert(values.last() == values[values.len() - 1]);
        assert(before.push(values.last()) =~= values);
    } else {
        assert(values =~= Seq::<T>::empty());
    }
}

/// The line that writes a grid is read back as that grid, where the cells
/// are the values of their numerals as the texts of the numerals are read.
/// The line is not empty and holds no line feed.
pub proof fn lemma_line_roundtrip<T: Scalar + Textual>(g: Grid<T>)
    requires
        g.wf(),
        read_back(g.cells),
        g.rows <= usize::MAX,
        g.cols <= usize::MAX,
        g.rows * g.cols <= usize::MAX,
    ensures
        parsed_line::<T>(line_of(g)) == Ok::<Grid<T>, LoadError>(g),
        line_of(g).len() > 0,
        free_of(line_of(g), 10u8),
{
    let dr = decimal(g.rows);
    let dc = decimal(g.cols);
    let head = dr + seq![44u8] + dc;
    let sep = shape_separator();
    let texts = texts_of(g.cells);
    let body = join(texts, 44u8);
    let line = line_of(g);
    let at = head.len() as int;
    lemma_decimal(g.rows);
    lemma_decimal(g.cols);
    lemma_values_roundtrip(g.cells);
    assert(line =~= head + sep + body);
    assert forall|i: int| 0 <= i < head.len() implies is_digit(#[trigger] head[i]) || head[i]
        == 44u8 by {
        if i < dr.len() {
            assert(head[i] == dr[i]);
        } else if i > dr.len() {
            assert(head[i] == dc[i - dr.len() - 1]);
        }
    }
    assert forall|i: int| 0 <= i < at implies !occurs_at(line, sep, i) by {
        if occurs_at(line, sep, i) {
            assert(line.subrange(i, i + 3)[0] == sep[0]);
            assert(line[i] == head[i]);
        }
    }
    assert(line.subrange(at, at + 3) =~= sep);
    lemma_find_from(line, sep, 0, at);
    assert(line.take(at) =~= head);
    assert(free_of(dr, 44u8)) by {
        crate::text::lemma_digits_free(dr, 44u8);
    }
    assert(free_of(dc, 44u8)) by {
        crate::text::lemma_digits_free(dc, 44u8);
    }
    lemma_split_first(dr, dc, 44u8);
    lemma_split_whole(dc, 44u8);
    let dims = split(head, 44u8);
    assert(dims =~= seq![dr, dc]);
    assert(line.skip(at + 3) =~= body);
    if g.cells.len() == 0 {
        assert(texts =~= Seq::<Seq<u8>>::empty());
        assert(body =~= Seq::<u8>::empty());
        assert(value_pieces(body) =~= texts);
    } else {
        assert(texts.last().len() > 0);
        assert(body.len() > 0);
        lemma_split_join(texts, 44u8);
    }
    let read = Grid::<T>::from_values(g.rows, g.cols, g.cells);
    assert(read.cells =~= g.cells);
    lemma_join_free(texts, 44u8, 10u8);
    assert forall|i: int| 0 <= i < line.len() implies line[i] != 10u8 by {
        if i < at {
            assert(line[i] == head[i]);
        } else if i < at + 3 {
            assert(line[i] == sep[i - at]);
        } else {
            assert(line[i] == body[i - at - 3]);
        }
    }
}

} // verus!
