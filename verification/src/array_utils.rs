use vstd::prelude::*;
use crate::error::NetworkError;
use crate::matrix::Matrix;
use crate::scalar::Scalar;
use crate::scalar::is_uniform;

verus! {

/// The `k`-th term of the arithmetic sequence that starts at `start` and
/// grows by `step`.
pub open spec fn ramp(start: int, step: int, k: int) -> int {
    start + k * step
}

/// Between two terms of an arithmetic sequence that lie in a range, every
/// term lies in it.
proof fn lemma_ramp_between(start: int, step: int, k: int, last: int, lo: int, hi: int)
    requires
        0 <= k <= last,
        lo <= start <= hi,
        lo <= ramp(start, step, last) <= hi,
    ensures
        lo <= ramp(start, step, k) <= hi,
{
    assert(step >= 0 ==> 0 <= k * step <= last * step) by (nonlinear_arith)
        requires
            0 <= k <= last,
    ;
    assert(step < 0 ==> last * step <= k * step <= 0) by (nonlinear_arith)
        requires
            0 <= k <= last,
    ;
}

/// The elementwise sum of two matrices; refused unless they have one
/// shape.
pub fn add<T: Scalar>(lhs: &Matrix<T>, rhs: &Matrix<T>) -> (r: Result<Matrix<T>, NetworkError>)
    requires
        lhs@.wf(),
        rhs@.wf(),
    ensures
        r is Ok <==> lhs@.same_shape(rhs@),
        r matches Ok(m) ==> m@.is_sum_of(lhs@, rhs@),
        r matches Err(e) ==> e == NetworkError::DimensionMismatch,
{
    lhs.zip_with(rhs, T::plus)
}

/// Replaces every entry by its sigmoid.
pub fn sig<T: Scalar>(arr: &mut Matrix<T>)
    requires
        old(arr)@.wf(),
    ensures
        final(arr)@.is_sigmoid_of(old(arr)@),
{
    let image = arr.map(T::sigmoid);
    *arr = image;
}

/// Replaces every entry by the sigmoid's first derivative at it.
pub fn sig_prime<T: Scalar>(arr: &mut Matrix<T>)
    requires
        old(arr)@.wf(),
    ensures
        final(arr)@.is_sigmoid_prime_of(old(arr)@),
{
    let image = arr.map(T::sigmoid_prime);
    *arr = image;
}

/// Replaces every entry by a draw of its own from the uniform
/// distribution on `[lower, upper]`.
pub fn randomize_array<T: Scalar>(arr: &mut Matrix<T>, lower: T, upper: T)
    requires
        old(arr)@.wf(),
    ensures
        final(arr)@.wf(),
        final(arr)@.same_shape(old(arr)@),
        final(arr)@.is_uniform_in(lower, upper),
{
    let draw = |x: T| -> (r: T)
        ensures
            is_uniform(lower, upper, r),
        { T::uniform(lower, upper) };
    let image = arr.map(draw);
    proof {
        assert forall|i: int, j: int|
            0 <= i < image@.height() && 0 <= j < image@.width implies is_uniform(
            lower,
            upper,
            #[trigger] image@.at(i, j),
        ) by {
            assert(call_ensures(draw, (arr@.at(i, j),), image@.at(i, j)));
        }
    }
    *arr = image;
}

/// Fills the matrix, row by row and left to right within a row, with the
/// arithmetic sequence `start`, `start + step`, `start + 2 * step`, ...
pub fn range_fill_offset(arr: &mut Matrix<i32>, start: i32, step: i32)
    requires
        old(arr)@.wf(),
        old(arr)@.height() * old(arr)@.width > 0 ==> i32::MIN <= ramp(
            start as int,
            step as int,
            old(arr)@.height() * old(arr)@.width - 1,
        ) <= i32::MAX,
    ensures
        final(arr)@.wf(),
        final(arr)@.same_shape(old(arr)@),
        forall|i: int, j: int|
            0 <= i < final(arr)@.height() && 0 <= j < final(arr)@.width ==> #[trigger] final(arr)@.at(
                i,
                j,
            ) == ramp(start as int, step as int, i * final(arr)@.width + j),
{
    let rows: usize = arr.rows();
    let cols: usize = arr.cols();
    let ghost last: int = rows * cols - 1;
    let mut counter: i32 = start;
    let mut i: usize = 0;
    assert(0 * cols == 0 && 0 * step == 0) by (nonlinear_arith);
    while i < rows
        invariant
            i <= rows,
            rows == old(arr)@.height(),
            cols == old(arr)@.width,
            arr@.wf(),
            arr@.same_shape(old(arr)@),
            last == rows * cols - 1,
            rows * cols > 0 ==> i32::MIN <= ramp(start as int, step as int, last) <= i32::MAX,
            i < rows && cols > 0 ==> counter == ramp(start as int, step as int, i * cols),
            forall|k: int, j: int|
                0 <= k < i && 0 <= j < cols ==> #[trigger] arr@.at(k, j) == ramp(
                    start as int,
                    step as int,
                    k * cols + j,
                ),
        decreases rows - i,
    {
        let mut j: usize = 0;
        while j < cols
            invariant
                j <= cols,
                i < rows,
                rows == old(arr)@.height(),
                cols == old(arr)@.width,
                arr@.wf(),
                arr@.same_shape(old(arr)@),
                last == rows * cols - 1,
                rows * cols > 0 ==> i32::MIN <= ramp(start as int, step as int, last) <= i32::MAX,
                j < cols ==> counter == ramp(start as int, step as int, i * cols + j),
                j == cols && cols > 0 && i + 1 < rows ==> counter == ramp(
                    start as int,
                    step as int,
                    (i + 1) * cols,
                ),
                forall|k: int, c: int|
                    0 <= k < i && 0 <= c < cols ==> #[trigger] arr@.at(k, c) == ramp(
                        start as int,
                        step as int,
                        k * cols + c,
                    ),
                forall|c: int|
                    0 <= c < j ==> #[trigger] arr@.at(i as int, c) == ramp(
                        start as int,
                        step as int,
                        i * cols + c,
                    ),
            decreases cols - j,
        {
            let ghost before = arr@;
            arr.set(i, j, counter);
            proof {
                assert forall|k: int, c: int| 0 <= k < i && 0 <= c < cols implies #[trigger] arr@.at(
                    k,
                    c,
                ) == before.at(k, c) by {}
                assert forall|c: int| 0 <= c < j implies #[trigger] arr@.at(i as int, c)
                    == before.at(i as int, c) by {}
                assert(before.rows[i as int].len() == cols);
            }
            if j + 1 < cols || i + 1 < rows {
                proof {
                    let here: int = i * cols + j;
                    assert(0 <= i * cols && (i + 1) * cols <= rows * cols) by (nonlinear_arith)
                        requires
                            0 <= i < rows,
                            0 < cols,
                    ;
                    assert((i + 1) * cols == i * cols + cols) by (nonlinear_arith);
                    assert(i + 1 < rows ==> (i + 1) * cols + cols <= rows * cols) by (nonlinear_arith)
                        requires
                            0 <= i,
                            0 < cols,
                    ;
                    assert(here + 1 <= last);
                    lemma_ramp_between(
                        start as int,
                        step as int,
                        here + 1,
                        last,
                        i32::MIN as int,
                        i32::MAX as int,
                    );
                    assert(ramp(start as int, step as int, here + 1) == ramp(
                        start as int,
                        step as int,
                        here,
                    ) + step) by (nonlinear_arith);
                }
                counter = counter + step;
            }
            j = j + 1;
        }
        i = i + 1;
    }
}

/// Fills the matrix, row by row, with `0, 1, 2, ...`.
pub fn range_fill(arr: &mut Matrix<i32>)
    requires
        old(arr)@.wf(),
        old(arr)@.height() * old(arr)@.width <= 0x8000_0000,
    ensures
        final(arr)@.wf(),
        final(arr)@.same_shape(old(arr)@),
        forall|i: int, j: int|
            0 <= i < final(arr)@.height() && 0 <= j < final(arr)@.width ==> #[trigger] final(arr)@.at(
                i,
                j,
            ) == i * final(arr)@.width + j,
{
    range_fill_offset(arr, 0, 1);
}

} // verus!
