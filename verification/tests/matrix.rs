use mlrust::error::NetworkError;
use mlrust::matrix::Matrix;
use mlrust::scalar::Scalar;

#[derive(Clone, Copy, Debug, PartialEq)]
struct Num(f64);

impl Scalar for Num {
    fn zero() -> Self {
        Num(0.0)
    }

    fn one() -> Self {
        Num(1.0)
    }

    fn plus(self, rhs: Self) -> Self {
        Num(self.0 + rhs.0)
    }

    fn minus(self, rhs: Self) -> Self {
        Num(self.0 - rhs.0)
    }

    fn times(self, rhs: Self) -> Self {
        Num(self.0 * rhs.0)
    }

    fn reciprocal(count: usize) -> Self {
        Num(1.0 / count as f64)
    }

    fn sigmoid(self) -> Self {
        Num(1.0 / (1.0 + (-self.0).exp()))
    }

    fn sigmoid_prime(self) -> Self {
        let s = 1.0 / (1.0 + (-self.0).exp());
        Num(s * (1.0 - s))
    }

    fn uniform(lower: Self, _upper: Self) -> Self {
        lower
    }
}

fn nums(rows: &[&[f64]]) -> Matrix<Num> {
    Matrix::from_rows(rows.iter().map(|r| r.iter().map(|v| Num(*v)).collect()).collect()).unwrap()
}

fn cells(m: &Matrix<Num>) -> Vec<Vec<f64>> {
    (0..m.rows()).map(|i| (0..m.cols()).map(|j| m.get(i, j).0).collect()).collect()
}

#[test]
fn filled_has_the_shape_and_the_value() {
    let m = Matrix::filled(2, 3, 7u8);
    assert_eq!(m.rows(), 2);
    assert_eq!(m.cols(), 3);
    for i in 0..2 {
        for j in 0..3 {
            assert_eq!(m.get(i, j), 7);
        }
    }
}

#[test]
fn from_rows_keeps_the_rows() {
    let m = Matrix::from_rows(vec![vec![1, 2, 3], vec![4, 5, 6]]).unwrap();
    assert_eq!(m.rows(), 2);
    assert_eq!(m.cols(), 3);
    assert_eq!(m.get(0, 2), 3);
    assert_eq!(m.get(1, 0), 4);
}

#[test]
fn from_rows_refuses_ragged_rows() {
    assert!(Matrix::from_rows(vec![vec![1, 2], vec![3]]).is_none());
    assert!(Matrix::from_rows(vec![vec![], vec![3]]).is_none());
}

#[test]
fn from_rows_of_nothing_is_empty() {
    let m: Matrix<i32> = Matrix::from_rows(vec![]).unwrap();
    assert_eq!(m.rows(), 0);
    assert_eq!(m.cols(), 0);
    let n: Matrix<i32> = Matrix::from_rows(vec![vec![], vec![]]).unwrap();
    assert_eq!(n.rows(), 2);
    assert_eq!(n.cols(), 0);
}

#[test]
fn set_changes_one_entry() {
    let mut m = Matrix::from_rows(vec![vec![1, 2], vec![3, 4]]).unwrap();
    m.set(1, 0, 9);
    assert_eq!(m.get(0, 0), 1);
    assert_eq!(m.get(0, 1), 2);
    assert_eq!(m.get(1, 0), 9);
    assert_eq!(m.get(1, 1), 4);
}

#[test]
fn duplicate_is_equal_and_apart() {
    let m = Matrix::from_rows(vec![vec![1, 2], vec![3, 4]]).unwrap();
    let mut d = m.duplicate();
    d.set(0, 0, 5);
    assert_eq!(m.get(0, 0), 1);
    assert_eq!(d.get(0, 0), 5);
    assert_eq!(d.get(1, 1), 4);
}

#[test]
fn transpose_swaps_rows_and_columns() {
    let m = Matrix::from_rows(vec![vec![1, 2, 3], vec![4, 5, 6]]).unwrap();
    let t = m.transpose();
    assert_eq!(t.rows(), 3);
    assert_eq!(t.cols(), 2);
    assert_eq!(t.get(0, 1), 4);
    assert_eq!(t.get(2, 0), 3);
    assert_eq!(t.get(2, 1), 6);
}

#[test]
fn transpose_of_a_matrix_without_rows_has_no_columns() {
    let m: Matrix<i32> = Matrix::filled(0, 3, 0);
    let t = m.transpose();
    assert_eq!(t.rows(), 3);
    assert_eq!(t.cols(), 0);
}

#[test]
fn dot_multiplies_rows_by_columns() {
    let a = nums(&[&[1.0, 2.0, 3.0], &[4.0, 5.0, 6.0]]);
    let b = nums(&[&[7.0, 8.0], &[9.0, 10.0], &[11.0, 12.0]]);
    let p = a.dot(&b).unwrap();
    assert_eq!(cells(&p), vec![vec![58.0, 64.0], vec![139.0, 154.0]]);
}

#[test]
fn dot_of_a_column_and_a_row_is_the_outer_product() {
    let c = nums(&[&[1.0], &[2.0]]);
    let r = nums(&[&[3.0, 4.0, 5.0]]);
    let p = c.dot(&r).unwrap();
    assert_eq!(cells(&p), vec![vec![3.0, 4.0, 5.0], vec![6.0, 8.0, 10.0]]);
}

#[test]
fn dot_refuses_operands_that_do_not_chain() {
    let a = nums(&[&[1.0, 2.0, 3.0], &[4.0, 5.0, 6.0]]);
    assert_eq!(a.dot(&a).err(), Some(NetworkError::DimensionMismatch));
}

#[test]
fn dot_over_no_terms_is_zero() {
    let a: Matrix<Num> = Matrix::filled(2, 0, Num(1.0));
    let b: Matrix<Num> = Matrix::filled(0, 3, Num(1.0));
    let p = a.dot(&b).unwrap();
    assert_eq!(cells(&p), vec![vec![0.0, 0.0, 0.0], vec![0.0, 0.0, 0.0]]);
}

#[test]
fn map_takes_every_entry_through_the_function() {
    let m = Matrix::from_rows(vec![vec![1, 2], vec![3, 4]]).unwrap();
    let doubled = m.map(|x: i32| x * 2);
    assert_eq!(doubled.get(0, 0), 2);
    assert_eq!(doubled.get(0, 1), 4);
    assert_eq!(doubled.get(1, 0), 6);
    assert_eq!(doubled.get(1, 1), 8);
}

#[test]
fn zip_with_joins_entries_in_the_order_given() {
    let a = Matrix::from_rows(vec![vec![10, 20]]).unwrap();
    let b = Matrix::from_rows(vec![vec![1, 2]]).unwrap();
    let d = a.zip_with(&b, |x: i32, y: i32| x - y).unwrap();
    assert_eq!(d.get(0, 0), 9);
    assert_eq!(d.get(0, 1), 18);
    let narrow = Matrix::from_rows(vec![vec![1]]).unwrap();
    assert_eq!(
        a.zip_with(&narrow, |x: i32, y: i32| x - y).err(),
        Some(NetworkError::DimensionMismatch)
    );
}

#[test]
fn scaled_multiplies_every_entry() {
    let a = nums(&[&[1.0, -2.0], &[0.5, 4.0]]);
    let s = a.scaled(Num(0.5));
    assert_eq!(cells(&s), vec![vec![0.5, -1.0], vec![0.25, 2.0]]);
}
