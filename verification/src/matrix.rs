use vstd::prelude::*;
use crate::error::NetworkError;
use crate::scalar::Scalar;
use crate::scalar::{is_dot, is_one, is_product, is_sum, is_uniform, is_zero};

verus! {

/// The mathematical value of a matrix: its rows, and the width that every
/// row has (kept apart, since a grid may have no row).
pub struct Grid<T> {
    pub width: nat,
    pub rows: Seq<Seq<T>>,
}

impl<T> Grid<T> {
    /// The number of rows.
    pub open spec fn height(self) -> nat {
        self.rows.len()
    }

    /// Every row has `width` entries.
    pub open spec fn wf(self) -> bool {
        forall|i: int| 0 <= i < self.rows.len() ==> (#[trigger] self.rows[i]).len() == self.width
    }

    /// `height` rows of `width` entries each.
    pub open spec fn has_shape(self, height: nat, width: nat) -> bool {
        self.wf() && self.rows.len() == height && self.width == width
    }

    /// As many rows and as many columns as `other`.
    pub open spec fn same_shape(self, other: Grid<T>) -> bool {
        self.rows.len() == other.rows.len() && self.width == other.width
    }

    /// The entry in row `i`, column `j`.
    pub open spec fn at(self, i: int, j: int) -> T {
        self.rows[i][j]
    }

    /// Column `j`, top to bottom.
    pub open spec fn column(self, j: int) -> Seq<T> {
        Seq::new(self.rows.len(), |i: int| self.rows[i][j])
    }

    /// The grid with `value` in row `i`, column `j`, and otherwise as
    /// `self`.
    pub open spec fn with(self, i: int, j: int, value: T) -> Grid<T> {
        Grid { width: self.width, rows: self.rows.update(i, self.rows[i].update(j, value)) }
    }

    /// The grid whose rows are the columns of `self`.
    pub open spec fn transposed(self) -> Grid<T> {
        Grid { width: self.rows.len(), rows: Seq::new(self.width, |j: int| self.column(j)) }
    }

    /// Every entry of `self` is `f`'s outcome on the entry of `a` at the
    /// same place.
    pub open spec fn is_image_of<F: Fn(T) -> T>(self, a: Grid<T>, f: F) -> bool {
        &&& self.wf()
        &&& self.same_shape(a)
        &&& forall|i: int, j: int|
            0 <= i < self.height() && 0 <= j < self.width ==> call_ensures(
                f,
                (a.at(i, j),),
                #[trigger] self.at(i, j),
            )
    }

    /// Every entry of `self` is `f`'s outcome on the entries of `a` and `b`
    /// at the same place.
    pub open spec fn is_join_of<F: Fn(T, T) -> T>(self, a: Grid<T>, b: Grid<T>, f: F) -> bool {
        &&& self.wf()
        &&& self.same_shape(a)
        &&& self.same_shape(b)
        &&& forall|i: int, j: int|
            0 <= i < self.height() && 0 <= j < self.width ==> call_ensures(
                f,
                (a.at(i, j), b.at(i, j)),
                #[trigger] self.at(i, j),
            )
    }
}

impl<T: Scalar> Grid<T> {
    /// `self` is an outcome of the matrix product `a · b`.
    pub open spec fn is_product_of(self, a: Grid<T>, b: Grid<T>) -> bool {
        &&& self.has_shape(a.height(), b.width)
        &&& a.width == b.height()
        &&& forall|i: int, j: int|
            0 <= i < self.height() && 0 <= j < self.width ==> is_dot(
                a.rows[i],
                b.column(j),
                #[trigger] self.at(i, j),
            )
    }

    /// Every entry of `self` is an outcome of the sum of the entries of `a`
    /// and `b` at the same place.
    pub open spec fn is_sum_of(self, a: Grid<T>, b: Grid<T>) -> bool {
        self.is_join_of(a, b, T::plus)
    }

    /// Every entry of `self` is an outcome of the entry of `a` minus the
    /// entry of `b` at the same place.
    pub open spec fn is_difference_of(self, a: Grid<T>, b: Grid<T>) -> bool {
        self.is_join_of(a, b, T::minus)
    }

    /// Every entry of `self` is an outcome of the product of the entries of
    /// `a` and `b` at the same place.
    pub open spec fn is_hadamard_of(self, a: Grid<T>, b: Grid<T>) -> bool {
        self.is_join_of(a, b, T::times)
    }

    /// Every entry of `self` is an outcome of the sigmoid of the entry of
    /// `a` at the same place.
    pub open spec fn is_sigmoid_of(self, a: Grid<T>) -> bool {
        self.is_image_of(a, T::sigmoid)
    }

    /// Every entry of `self` is an outcome of the sigmoid's derivative at
    /// the entry of `a` at the same place.
    pub open spec fn is_sigmoid_prime_of(self, a: Grid<T>) -> bool {
        self.is_image_of(a, T::sigmoid_prime)
    }

    /// Every entry of `self` is an outcome of zero.
    pub open spec fn is_zeros(self) -> bool {
        forall|i: int, j: int|
            0 <= i < self.height() && 0 <= j < self.width ==> is_zero(#[trigger] self.at(i, j))
    }

    /// Every entry of `self` is an outcome of one.
    pub open spec fn is_ones(self) -> bool {
        forall|i: int, j: int|
            0 <= i < self.height() && 0 <= j < self.width ==> is_one(#[trigger] self.at(i, j))
    }

    /// Every entry of `self` is an outcome of a draw from `[lower, upper]`.
    pub open spec fn is_uniform_in(self, lower: T, upper: T) -> bool {
        forall|i: int, j: int|
            0 <= i < self.height() && 0 <= j < self.width ==> is_uniform(
                lower,
                upper,
                #[trigger] self.at(i, j),
            )
    }

    /// Every entry of `self` is an outcome of `factor` times the entry of
    /// `a` at the same place.
    pub open spec fn is_scaling_of(self, factor: T, a: Grid<T>) -> bool {
        &&& self.wf()
        &&& self.same_shape(a)
        &&& forall|i: int, j: int|
            0 <= i < self.height() && 0 <= j < self.width ==> is_product(
                factor,
                a.at(i, j),
                #[trigger] self.at(i, j),
            )
    }
}

/// A dense matrix, stored row by row.
pub struct Matrix<T> {
    cols: usize,
    data: Vec<Vec<T>>,
}

impl<T> View for Matrix<T> {
    type V = Grid<T>;

    closed spec fn view(&self) -> Grid<T> {
        Grid {
            width: self.cols as nat,
            rows: Seq::new(self.data@.len(), |i: int| self.data@[i]@),
        }
    }
}

impl<T: Copy> Matrix<T> {
    /// A matrix of the given shape with `value` in every place.
    pub fn filled(rows: usize, cols: usize, value: T) -> (r: Matrix<T>)
        ensures
            r@.has_shape(rows as nat, cols as nat),
            forall|i: int, j: int| 0 <= i < rows && 0 <= j < cols ==> #[trigger] r@.at(i, j) == value,
    {
        let mut data: Vec<Vec<T>> = Vec::new();
        let mut i: usize = 0;
        while i < rows
            invariant
                i <= rows,
                data@.len() == i,
                forall|k: int| 0 <= k < i ==> (#[trigger] data@[k])@.len() == cols,
                forall|k: int, j: int| 0 <= k < i && 0 <= j < cols ==> (#[trigger] data@[k]@[j]) == value,
            decreases rows - i,
        {
            let mut row: Vec<T> = Vec::new();
            let mut j: usize = 0;
            while j < cols
                invariant
                    j <= cols,
                    row@.len() == j,
                    forall|k: int| 0 <= k < j ==> #[trigger] row@[k] == value,
                decreases cols - j,
            {
                row.push(value);
                j = j + 1;
            }
            data.push(row);
            i = i + 1;
        }
        Matrix { cols, data }
    }

    /// The matrix whose rows are `rows`, if they all have one length.
    pub fn from_rows(rows: Vec<Vec<T>>) -> (r: Option<Matrix<T>>)
        ensures
            r is Some <==> forall|i: int| 0 <= i < rows@.len() ==> (#[trigger] rows@[i])@.len() == rows@[0]@.len(),
            r matches Some(m) ==> {
                &&& m@.wf()
                &&& m@.rows == Seq::new(rows@.len(), |i: int| rows@[i]@)
                &&& m@.width == (if rows@.len() == 0 { 0 } else { rows@[0]@.len() })
            },
    {
        if rows.len() == 0 {
            return Some(Matrix { cols: 0, data: rows });
        }
        let cols: usize = rows[0].len();
        let mut i: usize = 1;
        while i < rows.len()
            invariant
                1 <= i <= rows@.len(),
                cols == rows@[0]@.len(),
                forall|k: int| 0 <= k < i ==> (#[trigger] rows@[k])@.len() == cols,
            decreases rows@.len() - i,
        {
            if rows[i].len() != cols {
                return None;
            }
            i = i + 1;
        }
        Some(Matrix { cols, data: rows })
    }

    /// The number of rows.
    pub fn rows(&self) -> (r: usize)
        ensures
            r == self@.height(),
    {
        self.data.len()
    }

    /// The number of columns.
    pub fn cols(&self) -> (r: usize)
        ensures
            r == self@.width,
    {
        self.cols
    }

    /// The entry in row `i`, column `j`.
    pub fn get(&self, i: usize, j: usize) -> (r: T)
        requires
            self@.wf(),
            i < self@.height(),
            j < self@.width,
        ensures
            r == self@.at(i as int, j as int),
    {
        assert(self@.rows[i as int].len() == self.cols);
        self.data[i][j]
    }

    /// Puts `value` in row `i`, column `j`.
    pub fn set(&mut self, i: usize, j: usize, value: T)
        requires
            old(self)@.wf(),
            i < old(self)@.height(),
            j < old(self)@.width,
        ensures
            final(self)@ == old(self)@.with(i as int, j as int, value),
            final(self)@.wf(),
    {
        assert(self@.rows[i as int].len() == self.cols);
        self.data[i][j] = value;
        assert(self@.rows =~= old(self)@.with(i as int, j as int, value).rows);
    }

    /// A copy of the matrix.
    pub fn duplicate(&self) -> (r: Matrix<T>)
        requires
            self@.wf(),
        ensures
            r@ == self@,
    {
        let mut data: Vec<Vec<T>> = Vec::new();
        let mut i: usize = 0;
        while i < self.data.len()
            invariant
                i <= self.data@.len(),
                self@.wf(),
                data@.len() == i,
                forall|k: int| 0 <= k < i ==> (#[trigger] data@[k])@ == self.data@[k]@,
            decreases self.data@.len() - i,
        {
            let mut row: Vec<T> = Vec::new();
            let mut j: usize = 0;
            assert(self@.rows[i as int].len() == self.cols);
            while j < self.cols
                invariant
                    j <= self.cols,
                    i < self.data@.len(),
                    self.data@[i as int]@.len() == self.cols,
                    row@.len() == j,
                    forall|k: int| 0 <= k < j ==> #[trigger] row@[k] == self.data@[i as int]@[k],
                decreases self.cols - j,
            {
                row.push(self.data[i][j]);
                j = j + 1;
            }
            assert(row@ =~= self.data@[i as int]@);
            data.push(row);
            i = i + 1;
        }
        let r = Matrix { cols: self.cols, data };
        assert(r@.rows =~= self@.rows);
        r
    }

    /// The transpose: rows become columns.
    pub fn transpose(&self) -> (r: Matrix<T>)
        requires
            self@.wf(),
        ensures
            r@ == self@.transposed(),
            r@.wf(),
    {
        let mut data: Vec<Vec<T>> = Vec::new();
        let mut j: usize = 0;
        while j < self.cols
            invariant
                j <= self.cols,
                self@.wf(),
                data@.len() == j,
                forall|k: int| 0 <= k < j ==> (#[trigger] data@[k])@ == self@.column(k),
            decreases self.cols - j,
        {
            let mut col: Vec<T> = Vec::new();
            let mut i: usize = 0;
            while i < self.data.len()
                invariant
                    i <= self.data@.len(),
                    j < self.cols,
                    self@.wf(),
                    col@.len() == i,
                    forall|k: int| 0 <= k < i ==> #[trigger] col@[k] == self.data@[k]@[j as int],
                decreases self.data@.len() - i,
            {
                assert(self@.rows[i as int].len() == self.cols);
                col.push(self.data[i][j]);
                i = i + 1;
            }
            assert(col@ =~= self@.column(j as int));
            data.push(col);
            j = j + 1;
        }
        let r = Matrix { cols: self.data.len(), data };
        assert(r@.rows =~= self@.transposed().rows);
        r
    }
}

impl<T: Copy> Matrix<T> {
    /// The matrix of `f`'s outcomes on the entries of `self`, place by place.
    pub fn map<F: Fn(T) -> T>(&self, f: F) -> (r: Matrix<T>)
        requires
            self@.wf(),
            forall|i: int, j: int|
                0 <= i < self@.height() && 0 <= j < self@.width ==> call_requires(
                    f,
                    (#[trigger] self@.at(i, j),),
                ),
        ensures
            r@.is_image_of(self@, f),
    {
        let mut data: Vec<Vec<T>> = Vec::new();
        let mut i: usize = 0;
        while i < self.data.len()
            invariant
                i <= self.data@.len(),
                self@.wf(),
                forall|a: int, b: int|
                    0 <= a < self@.height() && 0 <= b < self@.width ==> call_requires(
                        f,
                        (#[trigger] self@.at(a, b),),
                    ),
                data@.len() == i,
                forall|k: int| 0 <= k < i ==> (#[trigger] data@[k])@.len() == self.cols,
                forall|k: int, j: int|
                    0 <= k < i && 0 <= j < self.cols ==> call_ensures(
                        f,
                        (self.data@[k]@[j],),
                        #[trigger] data@[k]@[j],
                    ),
            decreases self.data@.len() - i,
        {
            let mut row: Vec<T> = Vec::new();
            let mut j: usize = 0;
            assert(self@.rows[i as int].len() == self.cols);
            while j < self.cols
                invariant
                    j <= self.cols,
                    i < self.data@.len(),
                    self.data@[i as int]@.len() == self.cols,
                    forall|a: int, b: int|
                        0 <= a < self@.height() && 0 <= b < self@.width ==> call_requires(
                            f,
                            (#[trigger] self@.at(a, b),),
                        ),
                    row@.len() == j,
                    forall|k: int|
                        0 <= k < j ==> call_ensures(
                            f,
                            (self.data@[i as int]@[k],),
                            #[trigger] row@[k],
                        ),
                decreases self.cols - j,
            {
                assert(self.data@[i as int]@[j as int] == self@.at(i as int, j as int));
                let y = f(self.data[i][j]);
                row.push(y);
                j = j + 1;
            }
            data.push(row);
            i = i + 1;
        }
        Matrix { cols: self.cols, data }
    }

    /// The matrix of `f`'s outcomes on the entries of `self` and `other`,
    /// place by place; refused unless the two have one shape.
    pub fn zip_with<F: Fn(T, T) -> T>(&self, other: &Matrix<T>, f: F) -> (r: Result<
        Matrix<T>,
        NetworkError,
    >)
        requires
            self@.wf(),
            other@.wf(),
            self@.same_shape(other@) ==> forall|i: int, j: int|
                0 <= i < self@.height() && 0 <= j < self@.width ==> call_requires(
                    f,
                    (#[trigger] self@.at(i, j), other@.at(i, j)),
                ),
        ensures
            r is Ok <==> self@.same_shape(other@),
            r matches Ok(m) ==> m@.is_join_of(self@, other@, f),
            r matches Err(e) ==> e == NetworkError::DimensionMismatch,
    {
        if self.data.len() != other.data.len() || self.cols != other.cols {
            return Err(NetworkError::DimensionMismatch);
        }
        let mut data: Vec<Vec<T>> = Vec::new();
        let mut i: usize = 0;
        while i < self.data.len()
            invariant
                i <= self.data@.len(),
                self@.wf(),
                other@.wf(),
                self.data@.len() == other.data@.len(),
                self.cols == other.cols,
                forall|a: int, b: int|
                    0 <= a < self@.height() && 0 <= b < self@.width ==> call_requires(
                        f,
                        (#[trigger] self@.at(a, b), other@.at(a, b)),
                    ),
                data@.len() == i,
                forall|k: int| 0 <= k < i ==> (#[trigger] data@[k])@.len() == self.cols,
                forall|k: int, j: int|
                    0 <= k < i && 0 <= j < self.cols ==> call_ensures(
                        f,
                        (self.data@[k]@[j], other.data@[k]@[j]),
                        #[trigger] data@[k]@[j],
                    ),
            decreases self.data@.len() - i,
        {
            let mut row: Vec<T> = Vec::new();
            let mut j: usize = 0;
            assert(self@.rows[i as int].len() == self.cols);
            assert(other@.rows[i as int].len() == self.cols);
            while j < self.cols
                invariant
                    j <= self.cols,
                    i < self.data@.len(),
                    i < other.data@.len(),
                    self.data@[i as int]@.len() == self.cols,
                    other.data@[i as int]@.len() == self.cols,
                    forall|a: int, b: int|
                        0 <= a < self@.height() && 0 <= b < self@.width ==> call_requires(
                            f,
                            (#[trigger] self@.at(a, b), other@.at(a, b)),
                        ),
                    row@.len() == j,
                    forall|k: int|
                        0 <= k < j ==> call_ensures(
                            f,
                            (self.data@[i as int]@[k], other.data@[i as int]@[k]),
                            #[trigger] row@[k],
                        ),
                decreases self.cols - j,
            {
                assert(self.data@[i as int]@[j as int] == self@.at(i as int, j as int));
                assert(other.data@[i as int]@[j as int] == other@.at(i as int, j as int));
                let y = f(self.data[i][j], other.data[i][j]);
                row.push(y);
                j = j + 1;
            }
            data.push(row);
            i = i + 1;
        }
        Ok(Matrix { cols: self.cols, data })
    }
}

impl<T: Scalar> Matrix<T> {
    /// The matrix product `self · rhs`; refused unless `self` has as many
    /// columns as `rhs` has rows.
    pub fn dot(&self, rhs: &Matrix<T>) -> (r: Result<Matrix<T>, NetworkError>)
        requires
            self@.wf(),
            rhs@.wf(),
        ensures
            r is Ok <==> self@.width == rhs@.height(),
            r matches Ok(m) ==> m@.is_product_of(self@, rhs@),
            r matches Err(e) ==> e == NetworkError::DimensionMismatch,
    {
        if self.cols != rhs.data.len() {
            return Err(NetworkError::DimensionMismatch);
        }
        let inner: usize = self.cols;
        let mut data: Vec<Vec<T>> = Vec::new();
        let mut i: usize = 0;
        while i < self.data.len()
            invariant
                i <= self.data@.len(),
                self@.wf(),
                rhs@.wf(),
                inner == self.cols,
                inner == rhs.data@.len(),
                data@.len() == i,
                forall|k: int| 0 <= k < i ==> (#[trigger] data@[k])@.len() == rhs.cols,
                forall|k: int, j: int|
                    0 <= k < i && 0 <= j < rhs.cols ==> is_dot(
                        self@.rows[k],
                        rhs@.column(j),
                        #[trigger] data@[k]@[j],
                    ),
            decreases self.data@.len() - i,
        {
            let mut row: Vec<T> = Vec::new();
            let mut j: usize = 0;
            assert(self@.rows[i as int].len() == inner);
            while j < rhs.cols
                invariant
                    j <= rhs.cols,
                    i < self.data@.len(),
                    self@.wf(),
                    rhs@.wf(),
                    inner == self.cols,
                    inner == rhs.data@.len(),
                    self@.rows[i as int].len() == inner,
                    row@.len() == j,
                    forall|k: int|
                        0 <= k < j ==> is_dot(self@.rows[i as int], rhs@.column(k), #[trigger] row@[k]),
                decreases rhs.cols - j,
            {
                let ghost xs = self@.rows[i as int];
                let ghost ys = rhs@.column(j as int);
                let mut acc: T = T::zero();
                let mut k: usize = 0;
                assert(xs.take(0).len() == 0);
                while k < inner
                    invariant
                        k <= inner,
                        i < self.data@.len(),
                        j < rhs.cols,
                        self@.wf(),
                        rhs@.wf(),
                        inner == self.cols,
                        inner == rhs.data@.len(),
                        xs == self@.rows[i as int],
                        ys == rhs@.column(j as int),
                        xs.len() == inner,
                        ys.len() == inner,
                        is_dot(xs.take(k as int), ys.take(k as int), acc),
                    decreases inner - k,
                {
                    assert(rhs@.rows[k as int].len() == rhs.cols);
                    let term = self.data[i][k].times(rhs.data[k][j]);
                    let next = acc.plus(term);
                    proof {
                        let xn = xs.take(k + 1);
                        let yn = ys.take(k + 1);
                        assert(xn.drop_last() =~= xs.take(k as int));
                        assert(yn.drop_last() =~= ys.take(k as int));
                        assert(xn.last() == self.data@[i as int]@[k as int]);
                        assert(yn.last() == rhs.data@[k as int]@[j as int]);
                        assert(is_dot(xn.drop_last(), yn.drop_last(), acc) && is_product(
                            xn.last(),
                            yn.last(),
                            term,
                        ) && is_sum(acc, term, next));
                        assert(is_dot(xn, yn, next));
                    }
                    acc = next;
                    k = k + 1;
                }
                assert(xs.take(inner as int) =~= xs);
                assert(ys.take(inner as int) =~= ys);
                row.push(acc);
                j = j + 1;
            }
            data.push(row);
            i = i + 1;
        }
        Ok(Matrix { cols: rhs.cols, data })
    }

    /// The matrix of `factor` times each entry of `self`.
    pub fn scaled(&self, factor: T) -> (r: Matrix<T>)
        requires
            self@.wf(),
        ensures
            r@.is_scaling_of(factor, self@),
    {
        let mut data: Vec<Vec<T>> = Vec::new();
        let mut i: usize = 0;
        while i < self.data.len()
            invariant
                i <= self.data@.len(),
                self@.wf(),
                data@.len() == i,
                forall|k: int| 0 <= k < i ==> (#[trigger] data@[k])@.len() == self.cols,
                forall|k: int, j: int|
                    0 <= k < i && 0 <= j < self.cols ==> is_product(
                        factor,
                        self.data@[k]@[j],
                        #[trigger] data@[k]@[j],
                    ),
            decreases self.data@.len() - i,
        {
            let mut row: Vec<T> = Vec::new();
            let mut j: usize = 0;
            assert(self@.rows[i as int].len() == self.cols);
            while j < self.cols
                invariant
                    j <= self.cols,
                    i < self.data@.len(),
                    self.data@[i as int]@.len() == self.cols,
                    row@.len() == j,
                    forall|k: int|
                        0 <= k < j ==> is_product(
                            factor,
                            self.data@[i as int]@[k],
                            #[trigger] row@[k],
                        ),
                decreases self.cols - j,
            {
                let y = factor.times(self.data[i][j]);
                row.push(y);
                j = j + 1;
            }
            data.push(row);
            i = i + 1;
        }
        Matrix { cols: self.cols, data }
    }
}

} // verus!
