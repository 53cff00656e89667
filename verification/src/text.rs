//! Bytes of text: splitting, joining, searching, and decimal numbers.
use crate::scalar::Numeral;
use vstd::prelude::*;

verus! {

/// The position of the first `sep` in `s`; the length of `s` if there is none.
pub open spec fn first_byte(s: Seq<u8>, sep: u8) -> int
    decreases s.len(),
{
    if s.len() == 0 || s[0] == sep {
        0
    } else {
        1 + first_byte(s.skip(1), sep)
    }
}

/// The pieces of `s` between its separators: one more piece than there are
/// separators.
pub open spec fn split(s: Seq<u8>, sep: u8) -> Seq<Seq<u8>>
    decreases s.len(),
{
    let k = first_byte(s, sep);
    if 0 <= k < s.len() {
        seq![s.take(k)] + split(s.skip(k + 1), sep)
    } else {
        seq![s]
    }
}

/// The pieces in order with a separator between each two.
pub open spec fn join(pieces: Seq<Seq<u8>>, sep: u8) -> Seq<u8>
    decreases pieces.len(),
{
    if pieces.len() == 0 {
        Seq::empty()
    } else if pieces.len() == 1 {
        pieces[0]
    } else {
        join(pieces.drop_last(), sep) + seq![sep] + pieces.last()
    }
}

/// `pat` stands in `s` at position `k`.
pub open spec fn occurs_at(s: Seq<u8>, pat: Seq<u8>, k: int) -> bool {
    0 <= k && k + pat.len() <= s.len() && s.subrange(k, k + pat.len()) == pat
}

/// The first position at or after `from` where `pat` stands in `s`.
pub open spec fn find_from(s: Seq<u8>, pat: Seq<u8>, from: int) -> Option<int>
    decreases s.len() - from,
{
    if from < 0 || from + pat.len() > s.len() {
        None
    } else if occurs_at(s, pat, from) {
        Some(from)
    } else if from >= s.len() {
        None
    } else {
        find_from(s, pat, from + 1)
    }
}

/// The first position where `pat` stands in `s`.
pub open spec fn find(s: Seq<u8>, pat: Seq<u8>) -> Option<int> {
    find_from(s, pat, 0)
}

/// The byte is one of the digits `0` to `9`.
pub open spec fn is_digit(b: u8) -> bool {
    48 <= b <= 57
}

/// Every byte is a digit.
pub open spec fn all_digits(s: Seq<u8>) -> bool {
    forall|i: int| 0 <= i < s.len() ==> is_digit(#[trigger] s[i])
}

/// The number that a run of decimal digits writes.
pub open spec fn digits_value(s: Seq<u8>) -> nat
    decreases s.len(),
{
    if s.len() == 0 {
        0
    } else {
        digits_value(s.drop_last()) * 10 + (s.last() - 48) as nat
    }
}

/// A number in decimal digits, without leading zeros.
pub open spec fn decimal(n: nat) -> Seq<u8>
    decreases n,
{
    if n < 10 {
        seq![(48 + n) as u8]
    } else {
        decimal(n / 10).push((48 + n % 10) as u8)
    }
}

/// The number that `s` writes: `s` is one or more decimal digits and the
/// number fits in sixty-four bits.
pub open spec fn parsed_number(s: Seq<u8>) -> Option<u64> {
    if s.len() > 0 && all_digits(s) && digits_value(s) <= u64::MAX {
        Some(digits_value(s) as u64)
    } else {
        None
    }
}

/// The count that `s` writes: `s` is one or more decimal digits and the
/// number fits the machine.
pub open spec fn parsed_count(s: Seq<u8>) -> Option<usize> {
    if s.len() > 0 && all_digits(s) && digits_value(s) <= usize::MAX {
        Some(digits_value(s) as usize)
    } else {
        None
    }
}

/// The views of the byte strings in `v`.
pub open spec fn views(v: Seq<Vec<u8>>) -> Seq<Seq<u8>> {
    Seq::new(v.len(), |i: int| v[i]@)
}

/// Where no byte before `k` is `sep`, the first `sep` is not before `k`;
/// it is at `k` if `sep` stands there or `s` ends there.
pub proof fn lemma_first_byte(s: Seq<u8>, sep: u8, k: int)
    requires
        0 <= k <= s.len(),
        forall|i: int| 0 <= i < k ==> s[i] != sep,
        k == s.len() || s[k] == sep,
    ensures
        first_byte(s, sep) == k,
    decreases k,
{
    if k > 0 {
        let t = s.skip(1);
        assert forall|i: int| 0 <= i < k - 1 implies t[i] != sep by {
            assert(t[i] == s[i + 1]);
        }
        lemma_first_byte(t, sep, k - 1);
    }
}

/// The first occurrence of a pattern, given that it does not stand anywhere
/// in `from..k` and stands at `k`, or that it stands nowhere from `from` on.
pub proof fn lemma_find_from(s: Seq<u8>, pat: Seq<u8>, from: int, k: int)
    requires
        0 <= from <= k,
        forall|i: int| from <= i < k ==> !occurs_at(s, pat, i),
        occurs_at(s, pat, k) || k + pat.len() > s.len(),
    ensures
        find_from(s, pat, from) == if occurs_at(s, pat, k) {
            Some(k)
        } else {
            None::<int>
        },
    decreases k - from,
{
    if from < k {
        if from + pat.len() <= s.len() {
            lemma_find_from(s, pat, from + 1, k);
        }
    }
}

/// Appends `piece` to `out`.
pub fn append(out: &mut Vec<u8>, piece: &[u8])
    ensures
        final(out)@ == old(out)@ + piece@,
{
    let mut i: usize = 0;
    while i < piece.len()
        invariant
            i <= piece@.len(),
            out@ == old(out)@ + piece@.take(i as int),
        decreases piece@.len() - i,
    {
        out.push(piece[i]);
        assert(piece@.take(i + 1) =~= piece@.take(i as int).push(piece@[i as int]));
        i += 1;
    }
    assert(piece@.take(i as int) =~= piece@);
}

/// The bytes of `text` from `from` up to `to`.
pub fn copy_range(text: &[u8], from: usize, to: usize) -> (piece: Vec<u8>)
    requires
        from <= to <= text@.len(),
    ensures
        piece@ == text@.subrange(from as int, to as int),
{
    let mut piece: Vec<u8> = Vec::new();
    let mut i: usize = from;
    while i < to
        invariant
            from <= i <= to,
            to <= text@.len(),
            piece@ == text@.subrange(from as int, i as int),
        decreases to - i,
    {
        piece.push(text[i]);
        assert(text@.subrange(from as int, i + 1) =~= text@.subrange(from as int, i as int).push(
            text@[i as int],
        ));
        i += 1;
    }
    piece
}

/// Splits `text` at every `sep`.
pub fn split_bytes(text: &[u8], sep: u8) -> (pieces: Vec<Vec<u8>>)
    ensures
        views(pieces@) == split(text@, sep),
{
    let mut pieces: Vec<Vec<u8>> = Vec::new();
    let mut start: usize = 0;
    let mut i: usize = 0;
    proof {
        assert(text@.skip(0) =~= text@);
        assert(views(pieces@) + split(text@, sep) =~= split(text@, sep));
    }
    while i < text.len()
        invariant
            start <= i <= text@.len(),
            forall|k: int| start <= k < i ==> text@[k] != sep,
            split(text@, sep) == views(pieces@) + split(text@.skip(start as int), sep),
        decreases text@.len() - i,
    {
        if text[i] == sep {
            let piece = copy_range(text, start, i);
            proof {
                let rest = text@.skip(start as int);
                assert forall|k: int| 0 <= k < i - start implies rest[k] != sep by {
                    assert(rest[k] == text@[start + k]);
                }
                lemma_first_byte(rest, sep, i - start);
                assert(rest.take(i - start) =~= piece@);
                assert(rest.skip(i - start + 1) =~= text@.skip(i + 1));
                assert(views(pieces@.push(piece)) =~= views(pieces@) + seq![piece@]);
            }
            pieces.push(piece);
            start = i + 1;
        }
        i += 1;
    }
    let piece = copy_range(text, start, text.len());
    proof {
        let rest = text@.skip(start as int);
        assert forall|k: int| 0 <= k < rest.len() implies rest[k] != sep by {
            assert(rest[k] == text@[start + k]);
        }
        lemma_first_byte(rest, sep, rest.len() as int);
        assert(rest =~= piece@);
        assert(views(pieces@.push(piece)) =~= views(pieces@) + seq![piece@]);
    }
    pieces.push(piece);
    pieces
}

/// Whether `pat` stands in `text` at position `k`.
fn stands_at(text: &[u8], pat: &[u8], k: usize) -> (b: bool)
    requires
        k + pat@.len() <= text@.len(),
    ensures
        b == occurs_at(text@, pat@, k as int),
{
    let n: usize = text.len();
    let mut j: usize = 0;
    while j < pat.len()
        invariant
            j <= pat@.len(),
            n == text@.len(),
            k + pat@.len() <= text@.len(),
            forall|x: int| 0 <= x < j ==> text@[k + x] == pat@[x],
        decreases pat@.len() - j,
    {
        if text[k + j] != pat[j] {
            assert(text@.subrange(k as int, k + pat@.len())[j as int] != pat@[j as int]);
            return false;
        }
        j += 1;
    }
    assert(text@.subrange(k as int, k + pat@.len()) =~= pat@);
    true
}

/// The first position where `pat` stands in `text`.
pub fn find_bytes(text: &[u8], pat: &[u8]) -> (at: Option<usize>)
    ensures
        at matches Some(k) ==> find(text@, pat@) == Some(k as int) && k + pat@.len()
            <= text@.len(),
        at.is_none() ==> find(text@, pat@).is_none(),
{
    if pat.len() > text.len() {
        return None;
    }
    let last: usize = text.len() - pat.len();
    let mut k: usize = 0;
    loop
        invariant
            k <= last,
            last == text@.len() - pat@.len(),
            forall|i: int| 0 <= i < k ==> !occurs_at(text@, pat@, i),
        decreases last - k,
    {
        if stands_at(text, pat, k) {
            proof {
                lemma_find_from(text@, pat@, 0, k as int);
            }
            return Some(k);
        }
        if k == last {
            proof {
                lemma_find_from(text@, pat@, 0, k + 1);
            }
            return None;
        }
        k += 1;
    }
}

/// Appends `n` in decimal digits to `out`.
pub fn push_decimal(out: &mut Vec<u8>, n: u64)
    ensures
        final(out)@ == old(out)@ + decimal(n as nat),
    decreases n,
{
    if n >= 10 {
        push_decimal(out, n / 10);
    }
    let digit: u8 = (n % 10) as u8;
    out.push(48u8 + digit);
    proof {
        if n >= 10 {
            assert(out@ =~= old(out)@ + decimal(n as nat));
        } else {
            assert(out@ =~= old(out)@ + decimal(n as nat));
        }
    }
}

/// A longer run of digits writes no smaller a number.
pub proof fn lemma_digits_value_grows(s: Seq<u8>, k: int)
    requires
        0 <= k <= s.len(),
        all_digits(s),
    ensures
        digits_value(s.take(k)) <= digits_value(s),
    decreases s.len() - k,
{
    if k < s.len() {
        lemma_digits_value_grows(s, k + 1);
        assert(s.take(k + 1).drop_last() =~= s.take(k));
        assert(is_digit(s[k]));
    } else {
        assert(s.take(k) =~= s);
    }
}

/// Reads a number written in decimal digits.
pub fn parse_number(text: &[u8]) -> (n: Option<u64>)
    ensures
        n == parsed_number(text@),
{
    if text.len() == 0 {
        return None;
    }
    let mut value: u64 = 0;
    let mut i: usize = 0;
    while i < text.len()
        invariant
            i <= text@.len(),
            all_digits(text@.take(i as int)),
            value == digits_value(text@.take(i as int)),
        decreases text@.len() - i,
    {
        let b = text[i];
        if b < 48 || b > 57 {
            assert(!is_digit(text@[i as int]));
            return None;
        }
        let d: u64 = (b - 48) as u64;
        proof {
            assert(text@.take(i + 1).drop_last() =~= text@.take(i as int));
            assert forall|k: int| 0 <= k < i + 1 implies is_digit(#[trigger] text@.take(i + 1)[k]) by {
                if k < i {
                    assert(text@.take(i + 1)[k] == text@.take(i as int)[k]);
                }
            }
        }
        if value > (u64::MAX - d) / 10 {
            proof {
                assert(digits_value(text@.take(i + 1)) > u64::MAX);
                if all_digits(text@) {
                    lemma_digits_value_grows(text@, i + 1);
                }
            }
            return None;
        }
        value = value * 10 + d;
        i += 1;
    }
    proof {
        assert(text@.take(i as int) =~= text@);
    }
    Some(value)
}

/// Reads a count written in decimal digits.
pub fn parse_count(text: &[u8]) -> (n: Option<usize>)
    ensures
        n == parsed_count(text@),
{
    match parse_number(text) {
        Some(value) => {
            if value <= usize::MAX as u64 {
                Some(value as usize)
            } else {
                None
            }
        },
        None => None,
    }
}

/// The text `NaN`.
pub open spec fn undefined_text() -> Seq<u8> {
    seq![78u8, 97u8, 78u8]
}

/// The text `inf`.
pub open spec fn infinite_text() -> Seq<u8> {
    seq![105u8, 110u8, 102u8]
}

/// A minus sign where `negative`, nothing else.
pub open spec fn sign_text(negative: bool) -> Seq<u8> {
    if negative {
        seq![45u8]
    } else {
        Seq::empty()
    }
}

/// `n` zeros.
pub open spec fn zeros(n: nat) -> Seq<u8> {
    Seq::new(n, |i: int| 48u8)
}

/// The digits of a whole number times ten to the power `exponent`, in
/// positional notation. A power that is not negative puts as many zeros
/// after the digits. A negative one puts a decimal point before as many of
/// the last digits; where the digits are too few, zeros stand before them,
/// and a single zero stands before the point.
pub open spec fn positional(digits: Seq<u8>, exponent: int) -> Seq<u8> {
    if exponent >= 0 {
        digits + zeros(exponent as nat)
    } else if digits.len() > -exponent {
        digits.take(digits.len() + exponent) + seq![46u8] + digits.skip(digits.len() + exponent)
    } else {
        seq![48u8, 46u8] + zeros((-exponent - digits.len()) as nat) + digits
    }
}

/// The text of a numeral: a minus sign if it is negative; then its value in
/// positional notation, as in `0.5`, `-1.25` or `100`, or `inf`; `NaN` for
/// what is no number.
pub open spec fn numeral_text(n: Numeral) -> Seq<u8> {
    match n {
        Numeral::Finite { negative, mantissa, exponent } => {
            sign_text(negative) + positional(decimal(mantissa as nat), exponent as int)
        },
        Numeral::Infinite { negative } => sign_text(negative) + infinite_text(),
        Numeral::Undefined => undefined_text(),
    }
}

/// Whether `s` begins with a minus sign.
pub open spec fn is_negative(s: Seq<u8>) -> bool {
    s.len() > 0 && s[0] == 45u8
}

/// What follows the minus sign of `s`, or all of `s` if it has none.
pub open spec fn unsigned_part(s: Seq<u8>) -> Seq<u8> {
    if is_negative(s) {
        s.skip(1)
    } else {
        s
    }
}

/// The power of ten that `s` writes: digits, after a minus sign or not,
/// whose number fits in thirty-two bits with its sign.
pub open spec fn parsed_exponent(s: Seq<u8>) -> Option<i32> {
    match parsed_number(unsigned_part(s)) {
        Some(v) => {
            if is_negative(s) {
                if v <= 0x8000_0000u64 {
                    Some((-(v as int)) as i32)
                } else {
                    None
                }
            } else {
                if v <= 0x7fff_ffffu64 {
                    Some(v as i32)
                } else {
                    None
                }
            }
        },
        None => None,
    }
}

/// The digits of `s` with its first decimal point, if it has one, left out.
pub open spec fn without_point(s: Seq<u8>) -> Seq<u8> {
    let k = first_byte(s, 46u8);
    if 0 <= k < s.len() {
        s.take(k) + s.skip(k + 1)
    } else {
        s
    }
}

/// The number of bytes after the first decimal point of `s`; zero if it has
/// none.
pub open spec fn fraction_len(s: Seq<u8>) -> int {
    let k = first_byte(s, 46u8);
    if 0 <= k < s.len() {
        s.len() - k - 1
    } else {
        0
    }
}

/// The power of ten written after the `e` at `k` in `rest`; zero where
/// `rest` ends before `k`, nothing where what is written is no power of ten.
pub open spec fn written_exponent(rest: Seq<u8>, k: int) -> Option<i32> {
    if k >= rest.len() {
        Some(0i32)
    } else {
        parsed_exponent(rest.skip(k + 1))
    }
}

/// A whole number that fits in sixty-four bits, and the number of zeros
/// that were dropped from the end of its digits to make it fit.
pub struct Fitted {
    pub mantissa: u64,
    pub dropped: nat,
}

/// A fitted number with `n` more zeros dropped.
pub open spec fn lifted(f: Option<Fitted>, n: nat) -> Option<Fitted> {
    match f {
        Some(f) => Some(Fitted { mantissa: f.mantissa, dropped: f.dropped + n }),
        None => None,
    }
}

/// The whole number that a run of digits writes, made to fit in sixty-four
/// bits: while it does not fit, a zero is dropped from the end. Nothing where
/// a digit other than zero would have to go.
pub open spec fn fitted(s: Seq<u8>) -> Option<Fitted>
    decreases s.len(),
{
    if digits_value(s) <= u64::MAX {
        Some(Fitted { mantissa: digits_value(s) as u64, dropped: 0 })
    } else if s.len() > 0 && s.last() == 48u8 {
        lifted(fitted(s.drop_last()), 1)
    } else {
        None
    }
}

/// The numeral that `s` writes: `NaN`, `inf` or `-inf`; or digits, after a
/// minus sign or not, among which a decimal point may stand and which an `e`
/// and a power of ten may follow. The digits are read as a whole number,
/// made to fit; the power of ten is lowered by the number of digits after
/// the point and raised by the number of zeros dropped.
pub open spec fn parsed_numeral(s: Seq<u8>) -> Option<Numeral> {
    if s == undefined_text() {
        Some(Numeral::Undefined)
    } else if unsigned_part(s) == infinite_text() {
        Some(Numeral::Infinite { negative: is_negative(s) })
    } else {
        let rest = unsigned_part(s);
        let k = first_byte(rest, 101u8);
        let body = rest.take(k);
        let digits = without_point(body);
        if digits.len() == 0 || !all_digits(digits) {
            None
        } else {
            match (fitted(digits), written_exponent(rest, k)) {
                (Some(f), Some(written)) => {
                    let exponent = written - fraction_len(body) + f.dropped;
                    if i32::MIN <= exponent <= i32::MAX {
                        Some(
                            Numeral::Finite {
                                negative: is_negative(s),
                                mantissa: f.mantissa,
                                exponent: exponent as i32,
                            },
                        )
                    } else {
                        None
                    }
                },
                _ => None,
            }
        }
    }
}

/// The numeral as which the text of `n` is read: `n` itself, unless its
/// power of ten is above zero. Then the zeros that the power writes are
/// read as digits, as far as they fit.
pub open spec fn read_form(n: Numeral) -> Numeral {
    match n {
        Numeral::Finite { negative, mantissa, exponent } => {
            if exponent <= 0 {
                n
            } else {
                match fitted(decimal(mantissa as nat) + zeros(exponent as nat)) {
                    Some(f) => Numeral::Finite {
                        negative,
                        mantissa: f.mantissa,
                        exponent: f.dropped as i32,
                    },
                    None => n,
                }
            }
        },
        _ => n,
    }
}

/// Whether two texts hold the same bytes.
pub fn same_bytes(a: &[u8], b: &[u8]) -> (r: bool)
    ensures
        r == (a@ == b@),
{
    if a.len() != b.len() {
        return false;
    }
    let mut i: usize = 0;
    while i < a.len()
        invariant
            a@.len() == b@.len(),
            i <= a@.len(),
            forall|k: int| 0 <= k < i ==> a@[k] == b@[k],
        decreases a@.len() - i,
    {
        if a[i] != b[i] {
            return false;
        }
        i += 1;
    }
    assert(a@ =~= b@);
    true
}

/// Appends `n` zeros to `out`.
pub fn push_zeros(out: &mut Vec<u8>, n: usize)
    ensures
        final(out)@ == old(out)@ + zeros(n as nat),
{
    let mut i: usize = 0;
    while i < n
        invariant
            i <= n,
            out@ == old(out)@ + zeros(i as nat),
        decreases n - i,
    {
        out.push(48u8);
        assert(zeros((i + 1) as nat) =~= zeros(i as nat).push(48u8));
        i += 1;
    }
}

/// Appends the digits of a whole number times ten to the power `exponent`,
/// in positional notation.
pub fn push_positional(out: &mut Vec<u8>, digits: &[u8], exponent: i32)
    ensures
        final(out)@ == old(out)@ + positional(digits@, exponent as int),
{
    let len: usize = digits.len();
    if exponent >= 0 {
        append(out, digits);
        push_zeros(out, exponent as usize);
    } else {
        let places: u64 = ((-(exponent + 1)) as u64) + 1;
        if len as u64 > places {
            let whole: usize = len - places as usize;
            append(out, vstd::slice::slice_subrange(digits, 0, whole));
            out.push(46u8);
            append(out, vstd::slice::slice_subrange(digits, whole, len));
            assert(out@ =~= old(out)@ + positional(digits@, exponent as int));
        } else {
            out.push(48u8);
            out.push(46u8);
            push_zeros(out, (places - len as u64) as usize);
            append(out, digits);
            assert(out@ =~= old(out)@ + positional(digits@, exponent as int));
        }
    }
}

/// Appends the text of `n` to `out`.
pub fn push_numeral(out: &mut Vec<u8>, n: Numeral)
    ensures
        final(out)@ == old(out)@ + numeral_text(n),
{
    match n {
        Numeral::Finite { negative, mantissa, exponent } => {
            if negative {
                out.push(45u8);
            }
            let mut digits: Vec<u8> = Vec::new();
            push_decimal(&mut digits, mantissa);
            assert(digits@ =~= decimal(mantissa as nat));
            push_positional(out, digits.as_slice(), exponent);
            assert(out@ =~= old(out)@ + numeral_text(n));
        },
        Numeral::Infinite { negative } => {
            if negative {
                out.push(45u8);
            }
            out.push(105u8);
            out.push(110u8);
            out.push(102u8);
            assert(out@ =~= old(out)@ + numeral_text(n));
        },
        Numeral::Undefined => {
            out.push(78u8);
            out.push(97u8);
            out.push(78u8);
            assert(out@ =~= old(out)@ + numeral_text(n));
        },
    }
}

/// The whole number that a text writes, made to fit, where the text is one
/// or more digits.
pub open spec fn read_digits(s: Seq<u8>) -> Option<Fitted> {
    if s.len() > 0 && all_digits(s) {
        fitted(s)
    } else {
        None
    }
}

/// Reads a run of digits as a whole number that fits in sixty-four bits:
/// gives the number and how many zeros were dropped from the end.
pub fn parse_digits(text: &[u8]) -> (r: Option<(u64, usize)>)
    ensures
        r matches Some(found) ==> read_digits(text@) == Some(
            Fitted { mantissa: found.0, dropped: found.1 as nat },
        ),
        r.is_none() ==> read_digits(text@).is_none(),
{
    let len: usize = text.len();
    if len == 0 {
        return None;
    }
    let mut c: usize = 0;
    while c < len
        invariant
            c <= len,
            len == text@.len(),
            forall|i: int| 0 <= i < c ==> is_digit(#[trigger] text@[i]),
        decreases len - c,
    {
        if text[c] < 48 || text[c] > 57 {
            assert(!is_digit(text@[c as int]));
            return None;
        }
        c += 1;
    }
    assert(all_digits(text@));
    let mut value: u64 = 0;
    let mut kept: usize = 0;
    let mut full = false;
    while kept < len && !full
        invariant
            kept <= len,
            len == text@.len(),
            all_digits(text@),
            value == digits_value(text@.take(kept as int)),
            full ==> kept < len && digits_value(text@.take(kept + 1)) > u64::MAX,
        decreases len - kept + if full { 0int } else { 1int },
    {
        let d: u64 = (text[kept] - 48) as u64;
        proof {
            assert(is_digit(text@[kept as int]));
            assert(text@.take(kept + 1).drop_last() =~= text@.take(kept as int));
        }
        if value > (u64::MAX - d) / 10 {
            full = true;
        } else {
            value = value * 10 + d;
            kept += 1;
        }
    }
    if !full {
        assert(text@.take(kept as int) =~= text@);
        return Some((value, 0));
    }
    let mut end: usize = len;
    proof {
        assert(text@.take(end as int) =~= text@);
    }
    while end > kept
        invariant
            kept <= end <= len,
            kept < len,
            len == text@.len(),
            all_digits(text@),
            value == digits_value(text@.take(kept as int)),
            digits_value(text@.take(kept + 1)) > u64::MAX,
            fitted(text@) == lifted(fitted(text@.take(end as int)), (len - end) as nat),
        decreases end - kept,
    {
        let ghost run = text@.take(end as int);
        proof {
            assert(run.take(kept + 1) =~= text@.take(kept + 1));
            assert(all_digits(run));
            lemma_digits_value_grows(run, kept + 1);
            assert(run.last() == text@[end - 1]);
            assert(run.drop_last() =~= text@.take(end - 1));
        }
        if text[end - 1] != 48u8 {
            return None;
        }
        end -= 1;
    }
    Some((value, len - kept))
}

/// Reads a power of ten.
fn parse_exponent(text: &[u8]) -> (e: Option<i32>)
    ensures
        e == parsed_exponent(text@),
{
    let negative = text.len() > 0 && text[0] == 45u8;
    let digits = if negative {
        vstd::slice::slice_subrange(text, 1, text.len())
    } else {
        text
    };
    assert(digits@ =~= unsigned_part(text@));
    match parse_number(digits) {
        Some(v) => {
            if negative {
                if v == 0x8000_0000u64 {
                    Some(i32::MIN)
                } else if v < 0x8000_0000u64 {
                    Some(-(v as i32))
                } else {
                    None
                }
            } else {
                if v <= 0x7fff_ffffu64 {
                    Some(v as i32)
                } else {
                    None
                }
            }
        },
        None => None,
    }
}

/// Reads a numeral.
pub fn parse_numeral(text: &[u8]) -> (n: Option<Numeral>)
    ensures
        n == parsed_numeral(text@),
{
    let nan: [u8; 3] = [78u8, 97u8, 78u8];
    let inf: [u8; 3] = [105u8, 110u8, 102u8];
    assert(nan@ =~= undefined_text());
    assert(inf@ =~= infinite_text());
    if same_bytes(text, nan.as_slice()) {
        return Some(Numeral::Undefined);
    }
    let negative = text.len() > 0 && text[0] == 45u8;
    let total: usize = text.len();
    let rest = if negative {
        vstd::slice::slice_subrange(text, 1, total)
    } else {
        text
    };
    assert(rest@ =~= unsigned_part(text@));
    if same_bytes(rest, inf.as_slice()) {
        return Some(Numeral::Infinite { negative });
    }
    let mut k: usize = 0;
    while k < rest.len() && rest[k] != 101u8
        invariant
            k <= rest@.len(),
            forall|i: int| 0 <= i < k ==> rest@[i] != 101u8,
        decreases rest@.len() - k,
    {
        k += 1;
    }
    proof {
        lemma_first_byte(rest@, 101u8, k as int);
    }
    let digits = vstd::slice::slice_subrange(rest, 0, k);
    assert(digits@ =~= rest@.take(k as int));
    let mut point: usize = 0;
    while point < digits.len() && digits[point] != 46u8
        invariant
            point <= digits@.len(),
            forall|i: int| 0 <= i < point ==> digits@[i] != 46u8,
        decreases digits@.len() - point,
    {
        point += 1;
    }
    proof {
        lemma_first_byte(digits@, 46u8, point as int);
    }
    let mut whole: Vec<u8> = copy_range(digits, 0, point);
    let mut fraction: usize = 0;
    if point < digits.len() {
        fraction = digits.len() - point - 1;
        append(&mut whole, vstd::slice::slice_subrange(digits, point + 1, digits.len()));
    }
    assert(whole@ =~= without_point(digits@));
    let read = parse_digits(whole.as_slice());
    let written = if k >= rest.len() {
        Some(0i32)
    } else {
        let tail = vstd::slice::slice_subrange(rest, k + 1, rest.len());
        assert(tail@ =~= rest@.skip(k + 1));
        parse_exponent(tail)
    };
    match (read, written) {
        (Some(read), Some(written)) => {
            let exponent: i128 = written as i128 - fraction as i128 + read.1 as i128;
            if -0x8000_0000i128 <= exponent && exponent <= 0x7fff_ffffi128 {
                Some(Numeral::Finite { negative, mantissa: read.0, exponent: exponent as i32 })
            } else {
                None
            }
        },
        _ => None,
    }
}

/// No byte of `s` is `b`.
pub open spec fn free_of(s: Seq<u8>, b: u8) -> bool {
    forall|i: int| 0 <= i < s.len() ==> s[i] != b
}

/// Every piece is free of `b`.
pub open spec fn all_free_of(pieces: Seq<Seq<u8>>, b: u8) -> bool {
    forall|i: int| 0 <= i < pieces.len() ==> free_of(#[trigger] pieces[i], b)
}

/// A number in decimal is one or more digits that write the number.
pub proof fn lemma_decimal(n: nat)
    ensures
        decimal(n).len() >= 1,
        all_digits(decimal(n)),
        digits_value(decimal(n)) == n,
    decreases n,
{
    if n >= 10 {
        lemma_decimal(n / 10);
        let d = decimal(n / 10);
        let s = d.push((48 + n % 10) as u8);
        assert(s.drop_last() =~= d);
        assert forall|i: int| 0 <= i < s.len() implies is_digit(#[trigger] s[i]) by {
            if i < d.len() {
                assert(s[i] == d[i]);
            }
        }
    } else {
        let s = seq![(48 + n) as u8];
        assert(s.drop_last() =~= Seq::<u8>::empty());
        assert(digits_value(s.drop_last()) == 0);
    }
}

/// What is free of the separator is a single piece.
pub proof fn lemma_split_whole(s: Seq<u8>, sep: u8)
    requires
        free_of(s, sep),
    ensures
        split(s, sep) == seq![s],
{
    lemma_first_byte(s, sep, s.len() as int);
}

/// A text that is free of the separator, followed by a separator, is the
/// first piece of what the two make with any text after them.
pub proof fn lemma_split_first(a: Seq<u8>, b: Seq<u8>, sep: u8)
    requires
        free_of(a, sep),
    ensures
        split(a + seq![sep] + b, sep) == seq![a] + split(b, sep),
{
    let s = a + seq![sep] + b;
    assert forall|i: int| 0 <= i < a.len() implies s[i] != sep by {
        assert(s[i] == a[i]);
    }
    lemma_first_byte(s, sep, a.len() as int);
    assert(s.take(a.len() as int) =~= a);
    assert(s.skip(a.len() as int + 1) =~= b);
}

/// Joining two or more pieces puts the first piece and a separator before
/// the others joined.
pub proof fn lemma_join_front(pieces: Seq<Seq<u8>>, sep: u8)
    requires
        pieces.len() >= 2,
    ensures
        join(pieces, sep) == pieces[0] + seq![sep] + join(pieces.skip(1), sep),
    decreases pieces.len(),
{
    let rest = pieces.skip(1);
    if pieces.len() == 2 {
        assert(pieces.drop_last() =~= seq![pieces[0]]);
        assert(rest =~= seq![pieces[1]]);
        assert(join(pieces.drop_last(), sep) == pieces[0]);
        assert(join(rest, sep) == pieces[1]);
    } else {
        lemma_join_front(pieces.drop_last(), sep);
        assert(pieces.drop_last().skip(1) =~= rest.drop_last());
        assert(rest.last() == pieces.last());
        assert(join(pieces, sep) =~= pieces[0] + seq![sep] + join(rest, sep));
    }
}

/// Pieces that are free of the separator come back when their joined text
/// is split.
pub proof fn lemma_split_join(pieces: Seq<Seq<u8>>, sep: u8)
    requires
        pieces.len() >= 1,
        all_free_of(pieces, sep),
    ensures
        split(join(pieces, sep), sep) == pieces,
    decreases pieces.len(),
{
    if pieces.len() == 1 {
        lemma_split_whole(pieces[0], sep);
        assert(seq![pieces[0]] =~= pieces);
    } else {
        let rest = pieces.skip(1);
        lemma_join_front(pieces, sep);
        lemma_split_first(pieces[0], join(rest, sep), sep);
        assert forall|i: int| 0 <= i < rest.len() implies free_of(#[trigger] rest[i], sep) by {
            assert(rest[i] == pieces[i + 1]);
        }
        lemma_split_join(rest, sep);
        assert(seq![pieces[0]] + rest =~= pieces);
    }
}

/// Joined pieces are free of a byte that neither they nor the separator hold.
pub proof fn lemma_join_free(pieces: Seq<Seq<u8>>, sep: u8, b: u8)
    requires
        all_free_of(pieces, b),
        sep != b,
    ensures
        free_of(join(pieces, sep), b),
    decreases pieces.len(),
{
    if pieces.len() >= 2 {
        let before = pieces.drop_last();
        assert forall|i: int| 0 <= i < before.len() implies free_of(#[trigger] before[i], b) by {
            assert(before[i] == pieces[i]);
        }
        lemma_join_free(before, sep, b);
        assert(free_of(pieces.last(), b));
    } else if pieces.len() == 1 {
        assert(free_of(pieces[0], b));
    }
}

/// Digits hold no byte that is not a digit.
pub proof fn lemma_digits_free(s: Seq<u8>, b: u8)
    requires
        all_digits(s),
        !is_digit(b),
    ensures
        free_of(s, b),
{
    assert forall|i: int| 0 <= i < s.len() implies s[i] != b by {
        assert(is_digit(s[i]));
    }
}

/// Zeros are digits that write zero.
pub proof fn lemma_zeros(n: nat)
    ensures
        zeros(n).len() == n,
        all_digits(zeros(n)),
        digits_value(zeros(n)) == 0,
    decreases n,
{
    if n > 0 {
        lemma_zeros((n - 1) as nat);
        assert(zeros(n).drop_last() =~= zeros((n - 1) as nat));
    }
}

/// Zeros before digits do not change the number that they write.
pub proof fn lemma_leading_zeros(n: nat, d: Seq<u8>)
    ensures
        digits_value(zeros(n) + d) == digits_value(d),
    decreases d.len(),
{
    let s = zeros(n) + d;
    if d.len() == 0 {
        assert(s =~= zeros(n));
        lemma_zeros(n);
    } else {
        lemma_leading_zeros(n, d.drop_last());
        assert(s.drop_last() =~= zeros(n) + d.drop_last());
        assert(s.last() == d.last());
    }
}

/// Digits that fit, with zeros after them, can be made to fit by dropping
/// no more than those zeros.
pub proof fn lemma_fitted_zeros(d: Seq<u8>, j: nat)
    requires
        digits_value(d) <= u64::MAX,
    ensures
        fitted(d + zeros(j)).is_some(),
        fitted(d + zeros(j)).unwrap().dropped <= j,
    decreases j,
{
    let s = d + zeros(j);
    if digits_value(s) > u64::MAX {
        if j == 0 {
            assert(s =~= d);
        } else {
            assert(s.last() == 48u8);
            assert(s.drop_last() =~= d + zeros((j - 1) as nat));
            lemma_fitted_zeros(d, (j - 1) as nat);
        }
    }
}

/// What positional notation makes of one or more digits: a text of digits
/// with at most one point and a digit in front. With the point left out, the
/// text writes the number of the digits, followed by the zeros of a power
/// that is not negative; the digits after the point are as many as a
/// negative power takes away.
pub proof fn lemma_positional(d: Seq<u8>, e: int)
    requires
        d.len() >= 1,
        all_digits(d),
    ensures
        positional(d, e).len() >= 1,
        is_digit(positional(d, e)[0]),
        forall|i: int|
            0 <= i < positional(d, e).len() ==> is_digit(#[trigger] positional(d, e)[i])
                || positional(d, e)[i] == 46u8,
        without_point(positional(d, e)).len() >= 1,
        all_digits(without_point(positional(d, e))),
        e >= 0 ==> without_point(positional(d, e)) == d + zeros(e as nat) && fraction_len(
            positional(d, e),
        ) == 0,
        e < 0 ==> digits_value(without_point(positional(d, e))) == digits_value(d)
            && fraction_len(positional(d, e)) == -e,
{
    let p = positional(d, e);
    let len = d.len() as int;
    if e >= 0 {
        lemma_zeros(e as nat);
        assert forall|i: int| 0 <= i < p.len() implies is_digit(#[trigger] p[i]) by {
            if i < len {
                assert(p[i] == d[i]);
            } else {
                assert(p[i] == zeros(e as nat)[i - len]);
            }
        }
        assert(p[0] == d[0]);
        lemma_digits_free(p, 46u8);
        lemma_first_byte(p, 46u8, p.len() as int);
    } else if len > -e {
        let cut = len + e;
        let a = d.take(cut);
        let b = d.skip(cut);
        assert(p =~= a + seq![46u8] + b);
        assert forall|i: int| 0 <= i < p.len() implies is_digit(#[trigger] p[i]) || p[i]
            == 46u8 by {
            if i < cut {
                assert(p[i] == d[i]);
            } else if i > cut {
                assert(p[i] == d[i - 1]);
            }
        }
        assert(p[0] == d[0]);
        assert forall|i: int| 0 <= i < cut implies p[i] != 46u8 by {
            assert(p[i] == d[i]);
            assert(is_digit(d[i]));
        }
        lemma_first_byte(p, 46u8, cut);
        assert(p.take(cut) + p.skip(cut + 1) =~= d);
    } else {
        let gap = (-e - len) as nat;
        lemma_zeros(gap);
        lemma_zeros(gap + 1);
        assert(p =~= seq![48u8, 46u8] + zeros(gap) + d);
        assert forall|i: int| 0 <= i < p.len() implies is_digit(#[trigger] p[i]) || p[i]
            == 46u8 by {
            if 2 <= i < 2 + gap {
                assert(p[i] == zeros(gap)[i - 2]);
            } else if i >= 2 + gap {
                assert(p[i] == d[i - 2 - gap]);
            }
        }
        lemma_first_byte(p, 46u8, 1);
        let rest = p.take(1) + p.skip(2);
        assert(rest =~= zeros(gap + 1) + d);
        lemma_leading_zeros(gap + 1, d);
        assert forall|i: int| 0 <= i < rest.len() implies is_digit(#[trigger] rest[i]) by {
            if i <= gap {
                assert(rest[i] == zeros(gap + 1)[i]);
            } else {
                assert(rest[i] == d[i - gap - 1]);
            }
        }
    }
}

/// The text of a numeral is read as the form of the numeral in which its
/// written zeros count as digits. It is not empty and holds neither a comma
/// nor a line feed.
pub proof fn lemma_numeral_text(n: Numeral)
    ensures
        parsed_numeral(numeral_text(n)) == Some(read_form(n)),
        numeral_text(n).len() > 0,
        free_of(numeral_text(n), 44u8),
        free_of(numeral_text(n), 10u8),
{
    let t = numeral_text(n);
    match n {
        Numeral::Finite { negative, mantissa, exponent } => {
            let d = decimal(mantissa as nat);
            let e = exponent as int;
            let p = positional(d, e);
            lemma_decimal(mantissa as nat);
            lemma_positional(d, e);
            assert(t =~= sign_text(negative) + p);
            if negative {
                assert(t[0] == 45u8);
                assert(t.skip(1) =~= p);
            } else {
                assert(t =~= p);
            }
            assert(is_negative(t) == negative);
            assert(unsigned_part(t) =~= p);
            assert(t[0] != undefined_text()[0]);
            assert(p[0] != infinite_text()[0]);
            assert forall|i: int| 0 <= i < p.len() implies p[i] != 101u8 by {
                assert(is_digit(p[i]) || p[i] == 46u8);
            }
            lemma_first_byte(p, 101u8, p.len() as int);
            assert(p.take(p.len() as int) =~= p);
            let digits = without_point(p);
            if e > 0 {
                lemma_fitted_zeros(d, e as nat);
            } else if e == 0 {
                assert(d + zeros(0) =~= d);
            }
            assert forall|i: int| 0 <= i < t.len() implies t[i] != 44u8 && t[i] != 10u8 by {
                let off = sign_text(negative).len();
                if i >= off {
                    assert(t[i] == p[i - off]);
                    assert(is_digit(p[i - off]) || p[i - off] == 46u8);
                }
            }
        },
        Numeral::Infinite { negative } => {
            let inf = infinite_text();
            if negative {
                assert(t[0] == 45u8);
                assert(t.skip(1) =~= inf);
            } else {
                assert(t =~= inf);
                assert(t[0] == 105u8);
            }
            assert(t[0] != undefined_text()[0]);
        },
        Numeral::Undefined => {},
    }
}

} // verus!
