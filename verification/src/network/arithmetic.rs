//! The arithmetic that a network is trained with, and the checks that frame it.
//!
//! The library does not compute with the elements of a matrix. Whoever builds a
//! network hands it an [`Arithmetic`]; the functions here call it only on
//! matrices whose shapes fit, and accept what comes back only in the shape that
//! the operation must give.

use crate::error::Error;
use crate::network::matrix::Matrix;
use vstd::prelude::*;

verus! {

/// The operations on matrices that propagation is made of. Nothing is assumed of
/// what an implementation returns: contracts speak of its results only as
/// "what this call gave".
pub trait Arithmetic<T> {
    /// The matrix product of `a` and `b`.
    fn product(&self, a: &Matrix<T>, b: &Matrix<T>) -> Matrix<T>
        requires
            a@.cols == b@.rows,
    ;

    /// The elementwise sum of `a` and `b`.
    fn sum(&self, a: &Matrix<T>, b: &Matrix<T>) -> Matrix<T>
        requires
            a.same_shape(b),
    ;

    /// The elementwise difference of `a` and `b`.
    fn difference(&self, a: &Matrix<T>, b: &Matrix<T>) -> Matrix<T>
        requires
            a.same_shape(b),
    ;

    /// Every element of `a` times `factor`.
    fn scaled(&self, factor: &T, a: &Matrix<T>) -> Matrix<T>;

    /// The elementwise product of `a` and `b`.
    fn component_product(&self, a: &Matrix<T>, b: &Matrix<T>) -> Matrix<T>
        requires
            a.same_shape(b),
    ;

    /// The mean of `values`.
    fn mean(&self, values: &Vec<T>) -> T;
}

/// `m` where it has the shape asked for, and a mismatch where it has not.
pub open spec fn shaped<T>(m: Matrix<T>, rows: nat, cols: nat) -> Result<Matrix<T>, Error> {
    if m@.rows == rows && m@.cols == cols {
        Ok(m)
    } else {
        Err(Error::DimensionMismatch)
    }
}

/// `r` is what asking `ops` for the product of `a` and `b` came to.
pub open spec fn product_gives<T, A: Arithmetic<T>>(
    ops: A,
    a: Matrix<T>,
    b: Matrix<T>,
    r: Result<Matrix<T>, Error>,
) -> bool {
    if a@.cols != b@.rows {
        r == Err::<Matrix<T>, Error>(Error::DimensionMismatch)
    } else {
        exists|p: Matrix<T>| #[trigger]
            call_ensures(A::product, (&ops, &a, &b), p) && r == shaped(p, a@.rows, b@.cols)
    }
}

/// `r` is what asking `ops` for the sum of `a` and `b` came to.
pub open spec fn sum_gives<T, A: Arithmetic<T>>(
    ops: A,
    a: Matrix<T>,
    b: Matrix<T>,
    r: Result<Matrix<T>, Error>,
) -> bool {
    if !a.same_shape(&b) {
        r == Err::<Matrix<T>, Error>(Error::DimensionMismatch)
    } else {
        exists|p: Matrix<T>| #[trigger]
            call_ensures(A::sum, (&ops, &a, &b), p) && r == shaped(p, a@.rows, a@.cols)
    }
}

/// `r` is what asking `ops` for the difference of `a` and `b` came to.
pub open spec fn difference_gives<T, A: Arithmetic<T>>(
    ops: A,
    a: Matrix<T>,
    b: Matrix<T>,
    r: Result<Matrix<T>, Error>,
) -> bool {
    if !a.same_shape(&b) {
        r == Err::<Matrix<T>, Error>(Error::DimensionMismatch)
    } else {
        exists|p: Matrix<T>| #[trigger]
            call_ensures(A::difference, (&ops, &a, &b), p) && r == shaped(p, a@.rows, a@.cols)
    }
}

/// `r` is what asking `ops` for `factor` times `a` came to.
pub open spec fn scaled_gives<T, A: Arithmetic<T>>(
    ops: A,
    factor: T,
    a: Matrix<T>,
    r: Result<Matrix<T>, Error>,
) -> bool {
    exists|p: Matrix<T>| #[trigger]
        call_ensures(A::scaled, (&ops, &factor, &a), p) && r == shaped(p, a@.rows, a@.cols)
}

/// `r` is what asking `ops` for the elementwise product of `a` and `b` came to.
pub open spec fn component_product_gives<T, A: Arithmetic<T>>(
    ops: A,
    a: Matrix<T>,
    b: Matrix<T>,
    r: Result<Matrix<T>, Error>,
) -> bool {
    if !a.same_shape(&b) {
        r == Err::<Matrix<T>, Error>(Error::DimensionMismatch)
    } else {
        exists|p: Matrix<T>| #[trigger]
            call_ensures(A::component_product, (&ops, &a, &b), p) && r == shaped(
                p,
                a@.rows,
                a@.cols,
            )
    }
}

/// Whatever `f` gives depends on nothing but the shape and the elements of the
/// matrix that it is given.
pub open spec fn is_functional<T, F: Fn(&Matrix<T>) -> Matrix<T>>(f: F) -> bool {
    forall|x1: Matrix<T>, y1: Matrix<T>, x2: Matrix<T>, y2: Matrix<T>|
        x1@ == x2@ && #[trigger] call_ensures(f, (&x1,), y1) && #[trigger] call_ensures(
            f,
            (&x2,),
            y2,
        ) ==> y1@ == y2@
}

/// The products and sums that `ops` gives depend on nothing but the shapes and
/// the elements of the matrices that it is given.
pub open spec fn adds_and_multiplies_functionally<T, A: Arithmetic<T>>(ops: A) -> bool {
    &&& forall|a: Matrix<T>, b: Matrix<T>, p: Matrix<T>, c: Matrix<T>, d: Matrix<T>, q: Matrix<T>|
        a@ == c@ && b@ == d@ && #[trigger] call_ensures(A::product, (&ops, &a, &b), p)
            && #[trigger] call_ensures(A::product, (&ops, &c, &d), q) ==> p@ == q@
    &&& forall|a: Matrix<T>, b: Matrix<T>, p: Matrix<T>, c: Matrix<T>, d: Matrix<T>, q: Matrix<T>|
        a@ == c@ && b@ == d@ && #[trigger] call_ensures(A::sum, (&ops, &a, &b), p)
            && #[trigger] call_ensures(A::sum, (&ops, &c, &d), q) ==> p@ == q@
}

/// Whatever `f` gives has the shape of the matrix that it is given.
pub open spec fn keeps_shape<T, F: Fn(&Matrix<T>) -> Matrix<T>>(f: F) -> bool {
    forall|x: Matrix<T>, y: Matrix<T>| #[trigger] call_ensures(f, (&x,), y) ==> y.same_shape(&x)
}

/// The products and sums that `ops` gives have the shapes that products and sums
/// have: the rows of the first and the columns of the second for a product, the
/// shape of both for a sum.
pub open spec fn adds_and_multiplies_in_shape<T, A: Arithmetic<T>>(ops: A) -> bool {
    &&& forall|a: Matrix<T>, b: Matrix<T>, p: Matrix<T>| #[trigger]
        call_ensures(A::product, (&ops, &a, &b), p) ==> p@.rows == a@.rows && p@.cols == b@.cols
    &&& forall|a: Matrix<T>, b: Matrix<T>, p: Matrix<T>| #[trigger]
        call_ensures(A::sum, (&ops, &a, &b), p) ==> p.same_shape(&a)
}

/// Every matrix that `ops` gives has the shape that the operation must give: the
/// rows of the first and the columns of the second for a product, the shape of
/// the first for a sum, a difference and an elementwise product, and the shape
/// of the matrix for a multiple of it.
pub open spec fn computes_in_shape<T, A: Arithmetic<T>>(ops: A) -> bool {
    &&& adds_and_multiplies_in_shape(ops)
    &&& forall|a: Matrix<T>, b: Matrix<T>, p: Matrix<T>| #[trigger]
        call_ensures(A::difference, (&ops, &a, &b), p) ==> p.same_shape(&a)
    &&& forall|a: Matrix<T>, b: Matrix<T>, p: Matrix<T>| #[trigger]
        call_ensures(A::component_product, (&ops, &a, &b), p) ==> p.same_shape(&a)
    &&& forall|factor: T, a: Matrix<T>, p: Matrix<T>| #[trigger]
        call_ensures(A::scaled, (&ops, &factor, &a), p) ==> p.same_shape(&a)
}

/// Whatever `f` gives for a label and a prediction has the shape of the
/// prediction.
pub open spec fn gives_shape_of_prediction<T, P: Fn(&Matrix<T>, &Matrix<T>) -> Matrix<T>>(
    f: P,
) -> bool {
    forall|label: Matrix<T>, prediction: Matrix<T>, gradient: Matrix<T>| #[trigger]
        call_ensures(f, (&label, &prediction), gradient) ==> gradient.same_shape(&prediction)
}

/// Whatever `f` gives for a number of rows and a number of columns has that
/// shape.
pub open spec fn gives_shape_asked<T, R: Fn(usize, usize) -> Matrix<T>>(f: R) -> bool {
    forall|rows: usize, cols: usize, m: Matrix<T>| #[trigger]
        call_ensures(f, (rows, cols), m) ==> m@.rows == rows && m@.cols == cols
}

/// `m` if it has the shape asked for.
pub fn in_shape<T>(m: Matrix<T>, rows: usize, cols: usize) -> (r: Result<Matrix<T>, Error>)
    ensures
        r == shaped(m, rows as nat, cols as nat),
{
    if m.nrows() == rows && m.ncols() == cols {
        Ok(m)
    } else {
        Err(Error::DimensionMismatch)
    }
}

/// The product of `a` and `b`: a mismatch unless `a` has as many columns as `b`
/// has rows and the result has the rows of `a` and the columns of `b`.
pub fn product<T, A: Arithmetic<T>>(ops: &A, a: &Matrix<T>, b: &Matrix<T>) -> (r: Result<
    Matrix<T>,
    Error,
>)
    ensures
        product_gives(*ops, *a, *b, r),
{
    if a.ncols() != b.nrows() {
        return Err(Error::DimensionMismatch);
    }
    let p = ops.product(a, b);
    in_shape(p, a.nrows(), b.ncols())
}

/// The sum of `a` and `b`: a mismatch unless both and the result have one shape.
pub fn sum<T, A: Arithmetic<T>>(ops: &A, a: &Matrix<T>, b: &Matrix<T>) -> (r: Result<
    Matrix<T>,
    Error,
>)
    ensures
        sum_gives(*ops, *a, *b, r),
{
    if a.nrows() != b.nrows() || a.ncols() != b.ncols() {
        return Err(Error::DimensionMismatch);
    }
    let p = ops.sum(a, b);
    in_shape(p, a.nrows(), a.ncols())
}

/// The difference of `a` and `b`: a mismatch unless both and the result have one
/// shape.
pub fn difference<T, A: Arithmetic<T>>(ops: &A, a: &Matrix<T>, b: &Matrix<T>) -> (r: Result<
    Matrix<T>,
    Error,
>)
    ensures
        difference_gives(*ops, *a, *b, r),
{
    if a.nrows() != b.nrows() || a.ncols() != b.ncols() {
        return Err(Error::DimensionMismatch);
    }
    let p = ops.difference(a, b);
    in_shape(p, a.nrows(), a.ncols())
}

/// `factor` times `a`: a mismatch unless the result has the shape of `a`.
pub fn scaled<T, A: Arithmetic<T>>(ops: &A, factor: &T, a: &Matrix<T>) -> (r: Result<
    Matrix<T>,
    Error,
>)
    ensures
        scaled_gives(*ops, *factor, *a, r),
{
    let p = ops.scaled(factor, a);
    in_shape(p, a.nrows(), a.ncols())
}

/// The elementwise product of `a` and `b`: a mismatch unless both and the result
/// have one shape.
pub fn component_product<T, A: Arithmetic<T>>(ops: &A, a: &Matrix<T>, b: &Matrix<T>) -> (r:
    Result<Matrix<T>, Error>)
    ensures
        component_product_gives(*ops, *a, *b, r),
{
    if a.nrows() != b.nrows() || a.ncols() != b.ncols() {
        return Err(Error::DimensionMismatch);
    }
    let p = ops.component_product(a, b);
    in_shape(p, a.nrows(), a.ncols())
}

} // verus!
