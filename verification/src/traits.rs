//! The basic traits of the library: access to coefficients and matrix
//! entries, evaluation, concatenation, and number-theoretic operations.
//!
//! The contracts live on the implementations, which state for each concrete
//! type what the operation returns.
use crate::error::MathError;
use vstd::prelude::*;

verus! {

/// Is implemented by polynomials to evaluate them at a point.
pub trait Evaluate<T, U> {
    /// What the implementing type asks of a well-formed receiver and point.
    spec fn evaluate_req(&self, value: &T) -> bool;

    /// Evaluates the object at the given value.
    fn evaluate(&self, value: T) -> U
        requires
            self.evaluate_req(&value),
    ;
}

/// Is implemented by polynomials to read one coefficient.
pub trait GetCoefficient<T> {
    /// Returns the coefficient at the given index, or an error for a
    /// negative index.
    fn get_coeff(&self, index: i64) -> Result<T, MathError>;
}

/// Is implemented by polynomials to set individual coefficients.
pub trait SetCoefficient<T> {
    /// Sets the coefficient at the given index to the given value, or
    /// returns an error for a negative index.
    fn set_coeff(&mut self, index: i64, value: T) -> Result<(), MathError>;
}

/// Is implemented by matrices to get the number of rows.
pub trait GetNumRows {
    /// What the implementing type asks of a well-formed receiver.
    spec fn rows_req(&self) -> bool;

    /// Returns the number of rows of a matrix.
    fn get_num_rows(&self) -> i64
        requires
            self.rows_req(),
    ;
}

/// Is implemented by matrices to get the number of columns.
pub trait GetNumColumns {
    /// What the implementing type asks of a well-formed receiver.
    spec fn columns_req(&self) -> bool;

    /// Returns the number of columns of a matrix.
    fn get_num_columns(&self) -> i64
        requires
            self.columns_req(),
    ;
}

/// Is implemented by matrices to get entries.
pub trait GetEntry<T> {
    /// What the implementing type asks of a well-formed receiver.
    spec fn get_entry_req(&self) -> bool;

    /// Returns the entry at the given row and column, or an error for an
    /// index that is negative or out of range.
    fn get_entry(&self, row: i64, column: i64) -> Result<T, MathError>
        requires
            self.get_entry_req(),
    ;
}

/// Is implemented by matrices to set entries.
pub trait SetEntry<T> {
    /// What the implementing type asks of a well-formed receiver and value.
    spec fn set_entry_req(&self, value: &T) -> bool;

    /// Sets the entry at the given row and column, or returns an error for
    /// an index that is negative or out of range.
    fn set_entry(&mut self, row: i64, column: i64, value: T) -> Result<(), MathError>
        requires
            old(self).set_entry_req(&value),
    ;
}

/// Is implemented by matrices to compute the tensor product.
pub trait Tensor where Self: Sized {
    /// What the implementing type asks of well-formed operands.
    spec fn tensor_req(&self, other: &Self) -> bool;

    /// Computes the tensor product of `self` with `other`.
    fn tensor(&self, other: &Self) -> Self
        requires
            self.tensor_req(other),
    ;
}

/// Is implemented by matrices to concatenate two matrices.
pub trait Concatenate where Self: Sized {
    type Output;

    /// What the implementing type asks of well-formed operands.
    spec fn concat_req(&self, other: &Self) -> bool;

    /// Concatenates `self` with `other` vertically, or returns an error if
    /// the column counts differ.
    fn concat_vertical(self, other: Self) -> Result<Self::Output, MathError>
        requires
            self.concat_req(&other),
    ;

    /// Concatenates `self` with `other` horizontally, or returns an error
    /// if the row counts differ.
    fn concat_horizontal(self, other: Self) -> Result<Self::Output, MathError>
        requires
            self.concat_req(&other),
    ;
}

/// Is implemented by integers to compute the absolute distance.
pub trait Distance<T> {
    type Output;

    /// Returns the absolute difference of the two values.
    fn distance(&self, other: T) -> Self::Output;
}

/// Is implemented by integers to compute the least common multiple.
pub trait Lcm<T> {
    type Output;

    /// Returns the least common multiple of the two values, with
    /// `lcm(a, 0) == 0`.
    fn lcm(&self, other: T) -> Self::Output;
}

/// Is implemented by modular values to raise them to a power.
pub trait Pow<T> {
    type Output;

    /// What the implementing type asks of a well-formed receiver.
    spec fn pow_req(&self, exp: T) -> bool;

    /// Raises `self` to the power `exp`.
    fn pow(&self, exp: T) -> Result<Self::Output, MathError>
        requires
            self.pow_req(exp),
    ;
}

/// Is implemented by integers to compute the greatest common divisor.
pub trait Gcd<T> {
    type Output;

    /// Returns the greatest common divisor of the two values, with
    /// `gcd(a, 0) == |a|`.
    fn gcd(&self, other: T) -> Self::Output;
}

/// Is implemented by integers to compute the extended greatest common
/// divisor.
pub trait Xgcd<T> {
    type Output;

    /// Returns a triple `(gcd(a, b), x, y)` with
    /// `gcd(a, b) == a * x + b * y`.
    fn xgcd(&self, other: T) -> Self::Output;
}

} // verus!
