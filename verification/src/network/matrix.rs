//! The matrix: a fixed shape and its elements, row after row.

use vstd::prelude::*;

verus! {

/// What a matrix is to its reader: a shape and the elements in row-major order.
pub struct MatrixView<T> {
    pub rows: nat,
    pub cols: nat,
    pub elements: Seq<T>,
}

impl<T> MatrixView<T> {
    /// The element in row `row` and column `col`.
    pub open spec fn at(self, row: int, col: int) -> T {
        self.elements[row * self.cols + col]
    }

    /// The view of the matrix turned over: rows become columns.
    pub open spec fn transposed(self) -> MatrixView<T> {
        MatrixView {
            rows: self.cols,
            cols: self.rows,
            elements: Seq::new(
                self.rows * self.cols,
                |k: int| self.at(k % self.rows as int, k / self.rows as int),
            ),
        }
    }
}

/// A two-dimensional container of a fixed shape. The library stores and moves the
/// elements and never computes with them, so their type is the caller's.
pub struct Matrix<T> {
    rows: usize,
    cols: usize,
    data: Vec<T>,
}

impl<T> View for Matrix<T> {
    type V = MatrixView<T>;

    closed spec fn view(&self) -> MatrixView<T> {
        MatrixView { rows: self.rows as nat, cols: self.cols as nat, elements: self.data@ }
    }
}

impl<T> Matrix<T> {
    #[verifier::type_invariant]
    spec fn well_formed(&self) -> bool {
        self.data@.len() == self.rows * self.cols
    }

    /// The two matrices have one shape.
    pub open spec fn same_shape(&self, other: &Matrix<T>) -> bool {
        self@.rows == other@.rows && self@.cols == other@.cols
    }

    /// Frames `data`, read row after row, as a matrix of `rows` rows and `cols`
    /// columns; `None` unless `data` has exactly `rows * cols` elements.
    pub fn from_vec(rows: usize, cols: usize, data: Vec<T>) -> (r: Option<Matrix<T>>)
        ensures
            r is Some <==> data@.len() == rows * cols,
            r matches Some(m) ==> m@ == (MatrixView {
                rows: rows as nat,
                cols: cols as nat,
                elements: data@,
            }),
    {
        let given = data.len();
        match rows.checked_mul(cols) {
            Some(len) => {
                if given == len {
                    Some(Matrix { rows, cols, data })
                } else {
                    None
                }
            },
            None => None,
        }
    }

    /// The number of rows.
    pub fn nrows(&self) -> (r: usize)
        ensures
            r == self@.rows,
    {
        self.rows
    }

    /// The number of columns.
    pub fn ncols(&self) -> (r: usize)
        ensures
            r == self@.cols,
    {
        self.cols
    }

    /// The number of rows, then the number of columns.
    pub fn shape(&self) -> (r: (usize, usize))
        ensures
            r.0 == self@.rows,
            r.1 == self@.cols,
    {
        (self.rows, self.cols)
    }

    /// The number of elements.
    pub fn len(&self) -> (r: usize)
        ensures
            r == self@.elements.len(),
            r == self@.rows * self@.cols,
    {
        proof {
            use_type_invariant(self);
        }
        self.data.len()
    }

    /// The elements, row after row.
    pub fn as_slice(&self) -> (r: &[T])
        ensures
            r@ == self@.elements,
    {
        self.data.as_slice()
    }

    /// The element in row `row` and column `col`, if the matrix has one there.
    pub fn get(&self, row: usize, col: usize) -> (r: Option<&T>)
        ensures
            r is Some <==> row < self@.rows && col < self@.cols,
            r matches Some(element) ==> *element == self@.at(row as int, col as int),
    {
        proof {
            use_type_invariant(self);
        }
        if row < self.rows && col < self.cols {
            proof {
                lemma_cell_in_range(self.rows as int, self.cols as int, row as int, col as int);
                assert(self.data.len() == self.rows * self.cols);
            }
            Some(&self.data[row * self.cols + col])
        } else {
            None
        }
    }
}

impl<T: Copy> Matrix<T> {
    /// Frames a copy of `data`, read row after row, as a matrix of `rows` rows
    /// and `cols` columns; `None` unless `data` has exactly `rows * cols`
    /// elements.
    pub fn from_row_slice(rows: usize, cols: usize, data: &[T]) -> (r: Option<Matrix<T>>)
        ensures
            r is Some <==> data@.len() == rows * cols,
            r matches Some(m) ==> m@ == (MatrixView {
                rows: rows as nat,
                cols: cols as nat,
                elements: data@,
            }),
    {
        Matrix::from_vec(rows, cols, vstd::slice::slice_to_vec(data))
    }

    /// A matrix of the given shape with `value` everywhere; `None` where the
    /// number of elements does not fit the machine.
    pub fn filled(rows: usize, cols: usize, value: T) -> (r: Option<Matrix<T>>)
        ensures
            r is Some <==> rows * cols <= usize::MAX,
            r matches Some(m) ==> m@ == (MatrixView {
                rows: rows as nat,
                cols: cols as nat,
                elements: Seq::new((rows * cols) as nat, |k: int| value),
            }),
    {
        match rows.checked_mul(cols) {
            Some(len) => {
                let mut data: Vec<T> = Vec::new();
                let mut k: usize = 0;
                while k < len
                    invariant
                        k <= len,
                        data@ == Seq::new(k as nat, |j: int| value),
                    decreases len - k,
                {
                    data.push(value);
                    k += 1;
                    assert(data@ =~= Seq::new(k as nat, |j: int| value));
                }
                Some(Matrix { rows, cols, data })
            },
            None => None,
        }
    }

    /// A copy of the matrix.
    pub fn duplicate(&self) -> (r: Matrix<T>)
        ensures
            r@ == self@,
    {
        proof {
            use_type_invariant(self);
        }
        Matrix {
            rows: self.rows,
            cols: self.cols,
            data: vstd::slice::slice_to_vec(self.data.as_slice()),
        }
    }

    /// The matrix with `value` in row `row` and column `col`, and everything else
    /// as it was; the matrix itself where it has no such place.
    pub fn with(self, row: usize, col: usize, value: T) -> (r: Matrix<T>)
        ensures
            r@.rows == self@.rows,
            r@.cols == self@.cols,
            row < self@.rows && col < self@.cols ==> r@.elements == self@.elements.update(
                row * self@.cols + col,
                value,
            ),
            !(row < self@.rows && col < self@.cols) ==> r@ == self@,
    {
        proof {
            use_type_invariant(&self);
        }
        if row < self.rows && col < self.cols {
            proof {
                lemma_cell_in_range(self.rows as int, self.cols as int, row as int, col as int);
                assert(self.data.len() == self.rows * self.cols);
            }
            let mut data = self.data;
            data.set(row * self.cols + col, value);
            Matrix { rows: self.rows, cols: self.cols, data }
        } else {
            self
        }
    }

    /// The matrix turned over: the element in row `i` and column `j` of the
    /// result is the one in row `j` and column `i` of `self`.
    pub fn transpose(&self) -> (r: Matrix<T>)
        ensures
            r@ == self@.transposed(),
    {
        proof {
            use_type_invariant(self);
        }
        let len = self.data.len();
        let mut data: Vec<T> = Vec::new();
        let mut k: usize = 0;
        while k < len
            invariant
                k <= len,
                len == self.rows * self.cols,
                len == self.data@.len(),
                data@.len() == k,
                forall|j: int|
                    0 <= j < k ==> data@[j] == self@.at(
                        j % self.rows as int,
                        j / self.rows as int,
                    ),
            decreases len - k,
        {
            proof {
                lemma_transposed_cell(self.rows as int, self.cols as int, k as int);
            }
            let row = k % self.rows;
            let col = k / self.rows;
            data.push(self.data[row * self.cols + col]);
            k += 1;
        }
        proof {
            assert(self.rows * self.cols == self.cols * self.rows) by (nonlinear_arith);
            assert(data@ =~= self@.transposed().elements);
        }
        Matrix { rows: self.cols, cols: self.rows, data }
    }
}

/// The place of a cell in the row-major order lies inside the matrix.
pub proof fn lemma_cell_in_range(rows: int, cols: int, row: int, col: int)
    requires
        0 <= row < rows,
        0 <= col < cols,
    ensures
        0 <= row * cols + col < rows * cols,
        row * cols >= 0,
{
    assert(row * cols >= 0) by (nonlinear_arith)
        requires
            row >= 0,
            cols > 0,
    ;
    assert(row * cols + cols <= rows * cols) by (nonlinear_arith)
        requires
            row + 1 <= rows,
            cols > 0,
    ;
}

/// Cell `k` of a transposed matrix comes from a cell of the matrix.
proof fn lemma_transposed_cell(rows: int, cols: int, k: int)
    requires
        0 <= k < rows * cols,
        rows >= 0,
        cols >= 0,
    ensures
        rows > 0,
        0 <= k % rows < rows,
        0 <= k / rows < cols,
        0 <= (k % rows) * cols + k / rows < rows * cols,
        (k % rows) * cols >= 0,
{
    assert(rows > 0) by (nonlinear_arith)
        requires
            0 <= k < rows * cols,
            rows >= 0,
            cols >= 0,
    ;
    assert(0 <= k / rows < cols) by (nonlinear_arith)
        requires
            0 <= k < rows * cols,
            rows > 0,
    ;
    lemma_cell_in_range(rows, cols, k % rows, k / rows);
}

} // verus!
