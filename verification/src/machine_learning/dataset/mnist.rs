use crate::linear_algebra::model::Grid;
use crate::linear_algebra::Matrix;
use crate::machine_learning::dataset::{DataVector, Example};
use crate::scalar::Scalar;
use vstd::prelude::*;

verus! {

/// The number of features of a 28 by 28 image.
pub const INPUT_SIZE: usize = 784;

/// The lower-case letter that a one-based class label stands for: label 1 is
/// `a` (code 97), label 26 is `z`.
pub open spec fn letter_of(n: u8) -> Option<char> {
    if 1 <= n <= 26 {
        Some((96 + n) as u8 as char)
    } else {
        None
    }
}

/// Names the letter of a class label, or `None` for a label outside `1..=26`.
pub fn _letter_from_number(n: &u8) -> (r: Option<char>)
    ensures
        r == letter_of(*n),
{
    if *n < 1 || *n > 26 {
        return None;
    }
    let c: u8 = 96u8 + *n;
    Some(c as char)
}

/// Why the bytes of two files do not hold a set of labelled images.
#[derive(Debug, Clone, Copy, PartialEq, Eq)]
pub enum DecodeError {
    /// A file ends before its header or its data does.
    Truncated,
    /// The images come without a count, a width and a height.
    MissingDimensions,
    /// A width or a height is negative, or an image cannot be held.
    BadDimensions,
}

/// The signed number that the four bytes from `at` on write, highest byte
/// first.
pub open spec fn be_i32(bytes: Seq<u8>, at: int) -> int {
    let unsigned = bytes[at] * 0x100_0000 + bytes[at + 1] * 0x1_0000 + bytes[at + 2] * 0x100
        + bytes[at + 3];
    if unsigned >= 0x8000_0000 {
        unsigned - 0x1_0000_0000
    } else {
        unsigned
    }
}

/// Where the data of a file begins: after four bytes, the last of which
/// counts the dimensions, and four bytes for the size of each dimension.
pub open spec fn data_start(bytes: Seq<u8>) -> int {
    4 + 4 * bytes[3]
}

/// The file holds its whole header.
pub open spec fn header_complete(bytes: Seq<u8>) -> bool {
    bytes.len() >= 4 && bytes.len() >= data_start(bytes)
}

/// The size of dimension `k`.
pub open spec fn dimension(bytes: Seq<u8>, k: int) -> int {
    be_i32(bytes, 4 + 4 * k)
}

/// The scalar of a pixel: its brightness as a share of 255. A 255 that
/// counts as zero is not divided by.
pub open spec fn pixel_value<T: Scalar>(pixel: u8) -> T {
    let full = T::of_count(255);
    if full.same(T::zero_value()) {
        T::of_count(pixel as usize)
    } else {
        T::of_count(pixel as usize).over(full)
    }
}

/// Image `i` as a column of pixel values.
pub open spec fn image_column<T: Scalar>(images: Seq<u8>, size: int, i: int) -> Grid<T> {
    Grid {
        rows: size as nat,
        cols: 1,
        cells: Seq::new(
            size as nat,
            |k: int| pixel_value::<T>(images[data_start(images) + i * size + k]),
        ),
    }
}

/// The labelled images that the bytes of an image file and of a label file
/// hold. The image file gives a count, a width and a height; each image is
/// width times height bytes, and the label file holds one byte for each.
pub open spec fn decoded<T: Scalar>(images: Seq<u8>, labels: Seq<u8>) -> Result<
    Seq<Example<T>>,
    DecodeError,
> {
    if !header_complete(images) || !header_complete(labels) {
        Err(DecodeError::Truncated)
    } else if images[3] < 3 {
        Err(DecodeError::MissingDimensions)
    } else {
        let count = if dimension(images, 0) < 0 {
            0
        } else {
            dimension(images, 0)
        };
        let width = dimension(images, 1);
        let height = dimension(images, 2);
        let size = width * height;
        if width < 0 || height < 0 || size > usize::MAX {
            Err(DecodeError::BadDimensions)
        } else if images.len() < data_start(images) + count * size || labels.len()
            < data_start(labels) + count {
            Err(DecodeError::Truncated)
        } else {
            Ok(
                Seq::new(
                    count as nat,
                    |i: int|
                        Example {
                            input: image_column::<T>(images, size, i),
                            label: labels[data_start(labels) + i],
                        },
                ),
            )
        }
    }
}

/// Reads the four bytes from `at` on as a signed number, highest byte first.
fn read_be_i32(bytes: &[u8], at: usize) -> (v: i64)
    requires
        at + 4 <= bytes@.len(),
    ensures
        v == be_i32(bytes@, at as int),
        -0x8000_0000 <= v < 0x8000_0000,
{
    let b0: u64 = bytes[at] as u64;
    let b1: u64 = bytes[at + 1] as u64;
    let b2: u64 = bytes[at + 2] as u64;
    let b3: u64 = bytes[at + 3] as u64;
    let unsigned: u64 = b0 * 0x100_0000 + b1 * 0x1_0000 + b2 * 0x100 + b3;
    if unsigned >= 0x8000_0000 {
        (unsigned as i64) - 0x1_0000_0000
    } else {
        unsigned as i64
    }
}

/// The scalar of a pixel.
fn scale_pixel<T: Scalar>(pixel: u8) -> (v: T)
    ensures
        v == pixel_value::<T>(pixel),
{
    let full = T::from_count(255);
    if full.equals(T::zero()) {
        T::from_count(pixel as usize)
    } else {
        T::from_count(pixel as usize).div(full)
    }
}

/// Decodes the labelled images that the bytes of an image file and of a
/// label file hold.
pub fn parse_mnist<T: Scalar>(images: &[u8], labels: &[u8]) -> (r: Result<
    Vec<DataVector<T>>,
    DecodeError,
>)
    ensures
        r matches Ok(v) ==> decoded::<T>(images@, labels@) == Ok::<Seq<Example<T>>, DecodeError>(
            crate::machine_learning::dataset::examples_of(v@),
        ) && crate::machine_learning::dataset::all_wf(v@),
        r matches Err(e) ==> decoded::<T>(images@, labels@) == Err::<
            Seq<Example<T>>,
            DecodeError,
        >(e),
{
    let images_len: usize = images.len();
    let labels_len: usize = labels.len();
    if images_len < 4 || labels_len < 4 {
        return Err(DecodeError::Truncated);
    }
    let image_dims: usize = images[3] as usize;
    let label_dims: usize = labels[3] as usize;
    let image_start: usize = 4 + 4 * image_dims;
    let label_start: usize = 4 + 4 * label_dims;
    if images_len < image_start || labels_len < label_start {
        return Err(DecodeError::Truncated);
    }
    if image_dims < 3 {
        return Err(DecodeError::MissingDimensions);
    }
    let raw_count = read_be_i32(images, 4);
    let width = read_be_i32(images, 8);
    let height = read_be_i32(images, 12);
    let count: u64 = if raw_count < 0 {
        0
    } else {
        raw_count as u64
    };
    if width < 0 || height < 0 {
        return Err(DecodeError::BadDimensions);
    }
    assert(width * height <= 0x8000_0000 * 0x8000_0000) by (nonlinear_arith)
        requires
            0 <= width <= 0x8000_0000,
            0 <= height <= 0x8000_0000,
    ;
    let wide_size: u64 = (width as u64) * (height as u64);
    if wide_size > usize::MAX as u64 {
        return Err(DecodeError::BadDimensions);
    }
    let size: usize = wide_size as usize;
    assert(count * size <= 0x8000_0000 * 0x4000_0000_0000_0000) by (nonlinear_arith)
        requires
            0 <= count <= 0x8000_0000,
            0 <= size <= 0x4000_0000_0000_0000,
    ;
    let needed: u128 = (count as u128) * (size as u128);
    if needed > (images_len - image_start) as u128 || count > (labels_len - label_start) as u64 {
        return Err(DecodeError::Truncated);
    }
    let total: usize = count as usize;
    let ghost expected = Seq::new(
        total as nat,
        |i: int|
            Example {
                input: image_column::<T>(images@, size as int, i),
                label: labels@[label_start + i],
            },
    );
    let mut found: Vec<DataVector<T>> = Vec::new();
    let mut i: usize = 0;
    while i < total
        invariant
            i <= total,
            images_len == images@.len(),
            labels_len == labels@.len(),
            image_start == data_start(images@),
            label_start == data_start(labels@),
            image_start + total * size <= images_len,
            label_start + total <= labels_len,
            found@.len() == i,
            expected == Seq::new(
                total as nat,
                |i: int|
                    Example {
                        input: image_column::<T>(images@, size as int, i),
                        label: labels@[label_start + i],
                    },
            ),
            forall|j: int| 0 <= j < i ==> (#[trigger] found@[j])@ == expected[j],
            forall|j: int| 0 <= j < i ==> (#[trigger] found@[j]).data.wf(),
        decreases total - i,
    {
        assert(i * size + size <= total * size) by (nonlinear_arith)
            requires
                0 <= i < total,
                0 <= size,
        ;
        assert(0 <= i * size) by (nonlinear_arith)
            requires
                0 <= i,
                0 <= size,
        ;
        let first: usize = image_start + i * size;
        let mut pixels: Vec<T> = Vec::new();
        let mut k: usize = 0;
        while k < size
            invariant
                k <= size,
                first + size <= images_len,
                images_len == images@.len(),
                pixels@.len() == k,
                forall|x: int| 0 <= x < k ==> pixels@[x] == pixel_value::<T>(images@[first + x]),
            decreases size - k,
        {
            pixels.push(scale_pixel(images[first + k]));
            k += 1;
        }
        let data = Matrix::from_vec(size, 1, pixels);
        proof {
            assert(data@.cells =~= image_column::<T>(images@, size as int, i as int).cells);
        }
        found.push(DataVector::new(data, labels[label_start + i]));
        i += 1;
    }
    proof {
        assert(crate::machine_learning::dataset::examples_of(found@) =~= expected);
    }
    Ok(found)
}

} // verus!
