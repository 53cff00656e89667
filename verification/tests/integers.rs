use matrix_nn::calculus::cost_functions::CostFunction;
use matrix_nn::calculus::functions::{Function, LeakyRelu, Relu};
use matrix_nn::linear_algebra::text::{product_fits, LoadError};
use matrix_nn::linear_algebra::{IndexOutOfBounds, Matrix};
use matrix_nn::machine_learning::dataset::mnist::{
    _letter_from_number, parse_mnist, DecodeError, INPUT_SIZE,
};
use matrix_nn::machine_learning::dataset::{DataSet, DataVector};
use matrix_nn::machine_learning::neural_network::NeuralNetwork;
use matrix_nn::scalar::{Numeral, Sampled, Scalar, Textual};
use matrix_nn::text::{
    append, copy_range, find_bytes, parse_count, parse_digits, parse_number, parse_numeral,
    push_decimal, push_numeral, push_positional, push_zeros, same_bytes, split_bytes,
};

fn matrix(r: usize, c: usize, values: &[i64]) -> Matrix<i64> {
    Matrix::from_vec(r, c, values.to_vec())
}

fn same_matrix(a: &Matrix<i64>, b: &Matrix<i64>) -> bool {
    a.get_dims() == b.get_dims() && a.cells() == b.cells()
}

fn example(values: &[i64], label: u8) -> DataVector<i64> {
    DataVector::new(matrix(values.len(), 1, values), label)
}

#[test]
fn letters_of_labels() {
    assert_eq!(_letter_from_number(&1), Some('a'));
    assert_eq!(_letter_from_number(&2), Some('b'));
    assert_eq!(_letter_from_number(&26), Some('z'));
    assert_eq!(_letter_from_number(&0), None);
    assert_eq!(_letter_from_number(&27), None);
    assert_eq!(_letter_from_number(&255), None);
    assert_eq!(INPUT_SIZE, 28 * 28);
}

#[test]
fn integers_wrap_and_round_toward_zero() {
    assert_eq!(i64::MAX.add(1), i64::MIN);
    assert_eq!(i64::MIN.sub(1), i64::MAX);
    assert_eq!(i64::MAX.mul(2), -2);
    assert_eq!(Scalar::neg(i64::MIN), i64::MIN);
    assert_eq!(Scalar::neg(5i64), -5);
    assert_eq!(Scalar::div(7i64, 2), 3);
    assert_eq!(Scalar::div(-7i64, 2), -3);
    assert_eq!(Scalar::div(7i64, -2), -3);
    assert_eq!(Scalar::div(-7i64, -2), 3);
    assert_eq!(Scalar::div(i64::MIN, -1), i64::MIN);
    assert_eq!(<i64 as Scalar>::from_count(12), 12);
    assert_eq!(<i64 as Scalar>::from_count(usize::MAX), usize::MAX as i64);
    assert_eq!(<i64 as Scalar>::zero(), 0);
    assert_eq!(<i64 as Scalar>::one(), 1);
    assert!(3i64.equals(3) && !3i64.equals(4));
    assert!(3i64.less_than(4) && !4i64.less_than(4));
}

#[test]
fn constructors_fill_row_by_row() {
    assert_eq!(Matrix::from_value(2, 3, 7i64).cells(), &[7, 7, 7, 7, 7, 7]);
    assert_eq!(Matrix::<i64>::zeros(2, 2).cells(), &[0, 0, 0, 0]);
    assert_eq!(Matrix::<i64>::zeros(0, 5).get_dims(), (0, 5));
    assert_eq!(matrix(2, 2, &[1, 2, 3]).cells(), &[1, 2, 3, 0]);
    assert_eq!(matrix(2, 2, &[1, 2, 3, 4, 5, 6]).cells(), &[1, 2, 3, 4]);
    assert_eq!(Matrix::<i64>::identity(3, 3).cells(), &[1, 0, 0, 0, 1, 0, 0, 0, 1]);
    assert_eq!(Matrix::<i64>::identity(2, 3).cells(), &[1, 0, 0, 0, 1, 0]);
    assert_eq!(Matrix::<i64>::identity(3, 2).cells(), &[1, 0, 0, 1, 0, 0]);
    let mut short = vec![1i64, 2, 3].into_iter();
    assert_eq!(Matrix::from_iterator(2, 2, &mut short).cells(), &[1, 2, 3, 0]);
    let mut long = 1i64..;
    assert_eq!(Matrix::from_iterator(2, 2, &mut long).cells(), &[1, 2, 3, 4]);
    assert_eq!(long.next(), Some(5));
    let m = matrix(2, 2, &[1, 2, 3, 4]);
    assert!(same_matrix(&m.copy(), &m));
    assert!(m.copy() == m);
    assert!(m.clone() == m);
    assert!(m != matrix(2, 2, &[1, 2, 3, 5]));
    assert!(m != matrix(1, 4, &[1, 2, 3, 4]));
    assert!(matrix(0, 2, &[]) != matrix(2, 0, &[]));
}

#[test]
fn cells_are_found_by_row_and_column() {
    let mut m = matrix(2, 3, &[1, 2, 3, 4, 5, 6]);
    assert_eq!(m.get(0, 0), Ok(1));
    assert_eq!(m.get(0, 2), Ok(3));
    assert_eq!(m.get(1, 0), Ok(4));
    assert_eq!(m.get(1, 2), Ok(6));
    assert_eq!(m.get(2, 0), Err(IndexOutOfBounds));
    assert_eq!(m.get(0, 3), Err(IndexOutOfBounds));
    assert_eq!(m.set(1, 1, 50), Ok(()));
    assert_eq!(m.cells(), &[1, 2, 3, 4, 50, 6]);
    assert_eq!(m.set(2, 1, 9), Err(IndexOutOfBounds));
    assert_eq!(m.cells(), &[1, 2, 3, 4, 50, 6]);
    assert_eq!(m.get_row(1), Some(vec![4, 50, 6]));
    assert_eq!(m.get_row(2), None);
    assert_eq!(m.get_col(2), Some(vec![3, 6]));
    assert_eq!(m.get_col(3), None);
}

#[test]
fn transpose_twice_is_the_matrix() {
    let m = matrix(2, 3, &[1, 2, 3, 4, 5, 6]);
    let t = m.transpose();
    assert_eq!(t.get_dims(), (3, 2));
    assert_eq!(t.cells(), &[1, 4, 2, 5, 3, 6]);
    assert!(same_matrix(&t.transpose(), &m));
    let empty = Matrix::<i64>::zeros(0, 4);
    assert_eq!(empty.transpose().get_dims(), (4, 0));
}

#[test]
fn sum_then_difference_is_exact() {
    let a = matrix(2, 2, &[i64::MAX, -5, 0, 17]);
    let b = matrix(2, 2, &[3, i64::MIN, 9, -17]);
    let sum = a.copy().add(&b);
    assert_eq!(sum.cells(), &[i64::MIN + 2, i64::MAX - 4, 9, 0]);
    assert!(same_matrix(&sum.sub(&b), &a));
    let mut c = matrix(1, 2, &[1, 2]);
    c.add_assign(&matrix(1, 2, &[10, 20]));
    assert_eq!(c.cells(), &[11, 22]);
    c.sub_assign(&matrix(1, 2, &[1, 1]));
    assert_eq!(c.cells(), &[10, 21]);
}

#[test]
fn cell_wise_operations() {
    let a = matrix(2, 2, &[1, -2, 3, -4]);
    let b = matrix(2, 2, &[5, 6, 7, 8]);
    assert_eq!(a.copy().component_mul(&b).cells(), &[5, -12, 21, -32]);
    assert_eq!(a.copy().scale(-3).cells(), &[-3, 6, -9, 12]);
    assert_eq!(a.copy().div(2).cells(), &[0, -1, 1, -2]);
    assert_eq!(a.copy().div(0).cells(), &[1, -2, 3, -4]);
    assert_eq!(a.copy().apply_into(&|x: i64| x * x).cells(), &[1, 4, 9, 16]);
    let mut c = a.copy();
    c.apply(&|x: i64| x + 1);
    assert_eq!(c.cells(), &[2, -1, 4, -3]);
    assert_eq!(a.index_of_max(), 2);
}

#[test]
fn integer_product() {
    let a = matrix(2, 3, &[1, 2, 3, 4, 5, 6]);
    let b = matrix(3, 2, &[7, 8, 9, 10, 11, 12]);
    assert_eq!(a.mul(&b).cells(), &[58, 64, 139, 154]);
    let empty = Matrix::<i64>::zeros(2, 0).mul(&Matrix::zeros(0, 3));
    assert_eq!(empty.cells(), &[0, 0, 0, 0, 0, 0]);
    let id = Matrix::<i64>::identity(2, 2);
    assert!(same_matrix(&id.mul(&matrix(2, 2, &[1, 2, 3, 4])), &matrix(2, 2, &[1, 2, 3, 4])));
}

#[test]
fn integer_determinants() {
    assert_eq!(matrix(1, 1, &[-9]).determinant(), -9);
    assert_eq!(matrix(2, 2, &[3, 8, 4, 6]).determinant(), -14);
    assert_eq!(matrix(3, 3, &[6, 1, 1, 4, -2, 5, 2, 8, 7]).determinant(), -306);
    assert_eq!(Matrix::<i64>::identity(4, 4).determinant(), 1);
    assert_eq!(Matrix::<i64>::zeros(0, 0).determinant(), 0);
    assert_eq!(Matrix::<i64>::zeros(2, 0).determinant(), 0);
}

#[test]
fn integer_inverses() {
    for n in 1..6 {
        let inverse = Matrix::<i64>::identity(n, n).invert().unwrap();
        assert!(same_matrix(&inverse, &Matrix::identity(n, n)));
    }
    let inverse = matrix(2, 2, &[1, 2, 0, 1]).invert().unwrap();
    assert_eq!(inverse.cells(), &[1, -2, 0, 1]);
    let swapped = matrix(3, 3, &[0, 0, 1, 1, 0, 0, 0, 1, 0]).invert().unwrap();
    assert_eq!(swapped.cells(), &[0, 1, 0, 0, 0, 1, 1, 0, 0]);
    assert!(matrix(2, 2, &[2, 4, 1, 2]).invert().is_none());
    assert!(matrix(1, 2, &[1, 2]).invert().is_none());
    assert!(Matrix::<i64>::zeros(0, 0).invert().is_none());
}

#[test]
fn expected_matrix_marks_the_label() {
    assert_eq!(example(&[5, 6, 7], 1).expected_matrix().cells(), &[0, 1, 0]);
    assert_eq!(example(&[5, 6, 7], 3).expected_matrix().cells(), &[0, 0, 0]);
}

#[test]
fn integer_network_propagates_and_counts() {
    let nn = NeuralNetwork::scalar(vec![2, 2, 1], 2i64);
    let input = matrix(2, 1, &[1, -3]);
    let sums = nn.propagate_returning_all_nodes_prior_to_activation(&input, &Relu);
    assert_eq!(sums.len(), 2);
    assert_eq!(sums[0].cells(), &[-2, -2]);
    assert_eq!(sums[1].cells(), &[2]);
    assert_eq!(nn.propagate(&input, &Relu).cells(), &[2]);
    let leaky = LeakyRelu { slope: -1i64 };
    assert_eq!(nn.propagate(&input, &leaky).cells(), &[10]);
    let none = NeuralNetwork::<i64>::zeros(vec![3]);
    assert_eq!(none.layers(), 0);
    assert_eq!(none.propagate(&matrix(3, 1, &[1, 2, 3]), &Relu).get_dims(), (0, 0));
    let ds = DataSet { training_data: vec![], testing_data: vec![example(&[1, -3], 0)] };
    assert_eq!(nn.test(&ds, &Relu), 1);
    assert_eq!(nn.count_correct(&ds.testing_data, &Relu), 1);
}

#[test]
fn integer_gradient_by_hand() {
    let nn = NeuralNetwork::scalar(vec![1, 1], 3i64);
    let cost = CostFunction::quadratic();
    let one = example(&[2], 0);
    let gradient = nn.example_gradient(&one, &Relu, &cost);
    assert_eq!(gradient.bias(0).cells(), &[16]);
    assert_eq!(gradient.weight(0).cells(), &[32]);
    let batch = vec![example(&[2], 0), example(&[-5], 0)];
    let total = nn.calculate_batch_step(&batch, &Relu, &cost).unwrap();
    assert_eq!(total.bias(0).cells(), &[16]);
    assert_eq!(total.weight(0).cells(), &[32]);
    let sum = gradient.plus(&gradient);
    assert_eq!(sum.weight(0).cells(), &[64]);
    let mut stepped = NeuralNetwork::scalar(vec![1, 1], 3i64);
    stepped.step(gradient, 2);
    assert_eq!(stepped.weight(0).cells(), &[3 - 64]);
    assert_eq!(stepped.bias(0).cells(), &[3 - 32]);
    assert!(!<Relu as Function<i64>>::derive_takes_output(&Relu));
}

#[test]
fn integer_network_is_read_back() {
    let mut nn = NeuralNetwork::scalar(vec![2, 3, 1], -7i64);
    nn.step(NeuralNetwork::scalar(vec![2, 3, 1], 1), i64::MAX);
    let text = nn.to_text();
    let expected = "2,3,1\n\n3,2 - 9223372036854775802,9223372036854775802,9223372036854775802,\
9223372036854775802,9223372036854775802,9223372036854775802\n1,3 - 9223372036854775802,\
9223372036854775802,9223372036854775802\n\n3,1 - 9223372036854775802,9223372036854775802,\
9223372036854775802\n1,1 - 9223372036854775802\n\n";
    assert_eq!(String::from_utf8(text.clone()).unwrap(), expected);
    let back = NeuralNetwork::<i64>::from_text(&text).unwrap();
    assert_eq!(back.shape(), nn.shape());
    for i in 0..nn.layers() {
        assert!(same_matrix(back.weight(i), nn.weight(i)));
        assert!(same_matrix(back.bias(i), nn.bias(i)));
    }
    let flat = NeuralNetwork::<i64>::zeros(vec![4]);
    assert_eq!(String::from_utf8(flat.to_text()).unwrap(), "4\n\n\n\n");
    let back = NeuralNetwork::<i64>::from_text(&flat.to_text()).unwrap();
    assert_eq!(back.shape(), &vec![4]);
    assert_eq!(back.layers(), 0);
}

#[test]
fn matrix_lines() {
    let m = matrix(2, 2, &[1, -2, 0, i64::MIN]);
    assert_eq!(String::from_utf8(m.to_str()).unwrap(), "2,2 - 1,-2,0,-9223372036854775808\n");
    let back = Matrix::<i64>::from_str(b"2,2 - 1,-2,0,-9223372036854775808").unwrap();
    assert!(same_matrix(&back, &m));
    let empty = Matrix::<i64>::zeros(0, 3);
    assert_eq!(String::from_utf8(empty.to_str()).unwrap(), "0,3 - \n");
    assert_eq!(Matrix::<i64>::from_str(b"0,3 - ").unwrap().get_dims(), (0, 3));
    assert_eq!(Matrix::<i64>::from_str(b"2,2 - 1,2").unwrap().cells(), &[1, 2, 0, 0]);
    assert_eq!(Matrix::<i64>::from_str(b"1,2 - 1,2,3").unwrap().cells(), &[1, 2]);
    assert_eq!(Matrix::<i64>::from_str(b"1,2 1,2").err(), Some(LoadError::MissingSeparator));
    assert_eq!(Matrix::<i64>::from_str(b"1,2,3 - 1").err(), Some(LoadError::BadDimension));
    assert_eq!(Matrix::<i64>::from_str(b"1,-2 - 1").err(), Some(LoadError::BadDimension));
    assert_eq!(
        Matrix::<i64>::from_str(b"18446744073709551615,2 - 1").err(),
        Some(LoadError::BadDimension)
    );
    assert_eq!(Matrix::<i64>::from_str(b"1,1 - 1e2").err(), Some(LoadError::BadNumber));
    assert_eq!(Matrix::<i64>::from_str(b"1,1 - 1.5").err(), Some(LoadError::BadNumber));
    assert_eq!(Matrix::<i64>::from_str(b"1,1 - 15.").unwrap().cells(), &[15]);
    assert_eq!(Matrix::<i64>::from_str(b"1,1 - inf").err(), Some(LoadError::BadNumber));
    assert_eq!(
        Matrix::<i64>::from_str(b"1,1 - 9223372036854775808").err(),
        Some(LoadError::BadNumber)
    );
    assert!(product_fits(usize::MAX, 1));
    assert!(!product_fits(usize::MAX, 2));
}

#[test]
fn numerals_of_integers() {
    assert_eq!(
        (-12i64).to_numeral(),
        Numeral::Finite { negative: true, mantissa: 12, exponent: 0 }
    );
    assert_eq!(
        i64::MIN.to_numeral(),
        Numeral::Finite { negative: true, mantissa: 1 << 63, exponent: 0 }
    );
    assert_eq!(5i64.to_numeral(), Numeral::Finite { negative: false, mantissa: 5, exponent: 0 });
    assert_eq!(
        i64::from_numeral(Numeral::Finite { negative: true, mantissa: 1 << 63, exponent: 0 }),
        Some(i64::MIN)
    );
    assert_eq!(
        i64::from_numeral(Numeral::Finite { negative: false, mantissa: 1 << 63, exponent: 0 }),
        None
    );
    assert_eq!(
        i64::from_numeral(Numeral::Finite { negative: true, mantissa: 0, exponent: 0 }),
        Some(0)
    );
    assert_eq!(
        i64::from_numeral(Numeral::Finite { negative: false, mantissa: 1, exponent: 1 }),
        None
    );
    assert_eq!(i64::from_numeral(Numeral::Undefined), None);
    assert_eq!(i64::from_numeral(Numeral::Infinite { negative: false }), None);
}

#[test]
fn numerals_as_text() {
    let write = |n: Numeral| {
        let mut out = vec![b'>'];
        push_numeral(&mut out, n);
        String::from_utf8(out).unwrap()
    };
    assert_eq!(write(Numeral::Finite { negative: false, mantissa: 0, exponent: 0 }), ">0");
    assert_eq!(write(Numeral::Finite { negative: true, mantissa: 0, exponent: 0 }), ">-0");
    assert_eq!(write(Numeral::Finite { negative: false, mantissa: 5, exponent: -1 }), ">0.5");
    assert_eq!(write(Numeral::Finite { negative: false, mantissa: 1, exponent: -1 }), ">0.1");
    assert_eq!(write(Numeral::Finite { negative: true, mantissa: 125, exponent: -2 }), ">-1.25");
    assert_eq!(write(Numeral::Finite { negative: true, mantissa: 125, exponent: -3 }), ">-0.125");
    assert_eq!(write(Numeral::Finite { negative: false, mantissa: 1, exponent: -7 }), ">0.0000001");
    assert_eq!(write(Numeral::Finite { negative: false, mantissa: 1, exponent: 2 }), ">100");
    assert_eq!(write(Numeral::Finite { negative: false, mantissa: 100, exponent: 0 }), ">100");
    assert_eq!(write(Numeral::Finite { negative: false, mantissa: 7, exponent: 3 }), ">7000");
    assert_eq!(
        write(Numeral::Finite { negative: false, mantissa: u64::MAX, exponent: -20 }),
        ">0.18446744073709551615"
    );
    assert_eq!(
        write(Numeral::Finite { negative: false, mantissa: u64::MAX, exponent: 2 }),
        ">1844674407370955161500"
    );
    assert_eq!(write(Numeral::Infinite { negative: true }), ">-inf");
    assert_eq!(write(Numeral::Infinite { negative: false }), ">inf");
    assert_eq!(write(Numeral::Undefined), ">NaN");
    assert_eq!(
        parse_numeral(b"-125e-3"),
        Some(Numeral::Finite { negative: true, mantissa: 125, exponent: -3 })
    );
    assert_eq!(
        parse_numeral(b"007"),
        Some(Numeral::Finite { negative: false, mantissa: 7, exponent: 0 })
    );
    assert_eq!(
        parse_numeral(b"1e-2147483648"),
        Some(Numeral::Finite { negative: false, mantissa: 1, exponent: i32::MIN })
    );
    assert_eq!(parse_numeral(b"1e2147483648"), None);
    assert_eq!(parse_numeral(b"1e"), None);
    assert_eq!(parse_numeral(b"e5"), None);
    assert_eq!(parse_numeral(b""), None);
    assert_eq!(parse_numeral(b"-"), None);
    assert_eq!(
        parse_numeral(b"1.5"),
        Some(Numeral::Finite { negative: false, mantissa: 15, exponent: -1 })
    );
    assert_eq!(
        parse_numeral(b"-0.125e3"),
        Some(Numeral::Finite { negative: true, mantissa: 125, exponent: 0 })
    );
    assert_eq!(
        parse_numeral(b".5"),
        Some(Numeral::Finite { negative: false, mantissa: 5, exponent: -1 })
    );
    assert_eq!(
        parse_numeral(b"5."),
        Some(Numeral::Finite { negative: false, mantissa: 5, exponent: 0 })
    );
    assert_eq!(
        parse_numeral(b"0.5e-2147483647"),
        Some(Numeral::Finite { negative: false, mantissa: 5, exponent: i32::MIN })
    );
    assert_eq!(parse_numeral(b"0.55e-2147483647"), None);
    assert_eq!(parse_numeral(b"."), None);
    assert_eq!(parse_numeral(b"1.5.2"), None);
    assert_eq!(parse_numeral(b"1e1.5"), None);
    assert_eq!(parse_numeral(b"18446744073709551616"), None);
    assert_eq!(
        parse_numeral(b"1000000000000000000000"),
        Some(Numeral::Finite { negative: false, mantissa: 10_000_000_000_000_000_000, exponent: 2 })
    );
    assert_eq!(
        parse_numeral(b"184467440737095516150"),
        Some(Numeral::Finite { negative: false, mantissa: u64::MAX, exponent: 1 })
    );
    assert_eq!(
        parse_numeral(b"-123456789012345678900000.00e-3"),
        Some(Numeral::Finite { negative: true, mantissa: 12345678901234567890, exponent: 1 })
    );
    assert_eq!(parse_numeral(b"184467440737095516160"), None);
    assert_eq!(parse_numeral(b"1000000000000000000001"), None);
    assert_eq!(
        parse_numeral(b"100"),
        Some(Numeral::Finite { negative: false, mantissa: 100, exponent: 0 })
    );
    assert_eq!(
        parse_numeral(b"0.50"),
        Some(Numeral::Finite { negative: false, mantissa: 50, exponent: -2 })
    );
    assert_eq!(
        parse_numeral(b"10e2147483647"),
        Some(Numeral::Finite { negative: false, mantissa: 10, exponent: i32::MAX })
    );
    assert_eq!(parse_numeral(b"100000000000000000000e2147483647"), None);
    assert_eq!(parse_digits(b"0070"), Some((70, 0)));
    assert_eq!(parse_digits(b"18446744073709551615000"), Some((u64::MAX, 3)));
    assert_eq!(parse_digits(b"18446744073709551616000"), None);
    assert_eq!(parse_digits(b""), None);
    assert_eq!(parse_digits(b"12a"), None);
    let mut out = b"x".to_vec();
    push_zeros(&mut out, 3);
    push_positional(&mut out, b"125", -1);
    push_positional(&mut out, b"9", -3);
    assert_eq!(out, b"x00012.50.009".to_vec());
    assert_eq!(parse_numeral(b"inf"), Some(Numeral::Infinite { negative: false }));
    assert_eq!(parse_numeral(b"-inf"), Some(Numeral::Infinite { negative: true }));
    assert_eq!(parse_numeral(b"NaN"), Some(Numeral::Undefined));
    assert_eq!(parse_numeral(b"-NaN"), None);
}

#[test]
fn bytes_are_split_found_and_counted() {
    let pieces = split_bytes(b"a,,bc,", b',');
    assert_eq!(pieces, vec![b"a".to_vec(), b"".to_vec(), b"bc".to_vec(), b"".to_vec()]);
    assert_eq!(split_bytes(b"", b','), vec![b"".to_vec()]);
    assert_eq!(split_bytes(b"abc", b','), vec![b"abc".to_vec()]);
    assert_eq!(find_bytes(b"1,2 - 3 - 4", b" - "), Some(3));
    assert_eq!(find_bytes(b"1,2 -3", b" - "), None);
    assert_eq!(find_bytes(b"ab", b"abc"), None);
    assert_eq!(find_bytes(b"ab", b""), Some(0));
    assert_eq!(find_bytes(b"xxab", b"ab"), Some(2));
    assert_eq!(parse_count(b"0"), Some(0));
    assert_eq!(parse_count(b"784"), Some(784));
    assert_eq!(parse_count(b""), None);
    assert_eq!(parse_count(b"+7"), None);
    assert_eq!(parse_count(b"7 "), None);
    assert_eq!(parse_number(b"18446744073709551615"), Some(u64::MAX));
    assert_eq!(parse_number(b"18446744073709551616"), None);
    let mut out = b"n=".to_vec();
    push_decimal(&mut out, 0);
    push_decimal(&mut out, 9070);
    append(&mut out, b"!");
    assert_eq!(out, b"n=09070!".to_vec());
    assert_eq!(copy_range(b"abcdef", 2, 4), b"cd".to_vec());
    assert!(same_bytes(b"abc", b"abc"));
    assert!(!same_bytes(b"abc", b"abd"));
    assert!(!same_bytes(b"abc", b"ab"));
}

fn idx(dims: &[i32], data: &[u8]) -> Vec<u8> {
    let mut bytes = vec![0, 0, 8, dims.len() as u8];
    for d in dims {
        bytes.extend_from_slice(&d.to_be_bytes());
    }
    bytes.extend_from_slice(data);
    bytes
}

#[test]
fn images_are_decoded() {
    let images = idx(&[2, 1, 3], &[0, 255, 51, 10, 20, 30]);
    let labels = idx(&[2], &[7, 9]);
    let set = parse_mnist::<i64>(&images, &labels).unwrap();
    assert_eq!(set.len(), 2);
    assert_eq!(set[0].data.get_dims(), (3, 1));
    assert_eq!(set[0].data.cells(), &[0, 1, 0]);
    assert_eq!(set[0].label, 7);
    assert_eq!(set[1].data.cells(), &[0, 0, 0]);
    assert_eq!(set[1].label, 9);
    assert_eq!(parse_mnist::<i64>(&images[..3], &labels).err(), Some(DecodeError::Truncated));
    assert_eq!(parse_mnist::<i64>(&images[..10], &labels).err(), Some(DecodeError::Truncated));
    assert_eq!(parse_mnist::<i64>(&images[..21], &labels).err(), Some(DecodeError::Truncated));
    assert_eq!(parse_mnist::<i64>(&images, &labels[..9]).err(), Some(DecodeError::Truncated));
    let flat = idx(&[2, 3], &[0, 255, 51, 10, 20, 30]);
    assert_eq!(parse_mnist::<i64>(&flat, &labels).err(), Some(DecodeError::MissingDimensions));
    let negative = idx(&[2, -1, 3], &[]);
    assert_eq!(parse_mnist::<i64>(&negative, &labels).err(), Some(DecodeError::BadDimensions));
    let none = idx(&[-4, 2, 2], &[]);
    assert_eq!(parse_mnist::<i64>(&none, &labels).unwrap().len(), 0);
}

#[test]
fn integers_are_drawn_from_the_range() {
    let m = Matrix::<i64>::random(20, 20, -1000, 1000);
    assert_eq!(m.get_dims(), (20, 20));
    assert!(m.cells().iter().all(|v| -1000 <= *v && *v < 1000));
    assert!(m.cells().iter().any(|v| *v != m.cells()[0]));
    for _ in 0..100 {
        assert_eq!(i64::sample_between(7, 8), 7);
        let v = i64::sample_between(i64::MIN, i64::MAX);
        assert!(v < i64::MAX);
    }
    let nn = NeuralNetwork::<i64>::random(vec![3, 5, 2]);
    assert_eq!(nn.weight(0).get_dims(), (5, 3));
    assert_eq!(nn.bias(1).get_dims(), (2, 1));
    for i in 0..2 {
        assert!(nn.weight(i).cells().iter().all(|v| *v == -1 || *v == 0));
        assert!(nn.bias(i).cells().iter().all(|v| *v == -1 || *v == 0));
    }
}
