//! Requests for binary64 arithmetic.
//!
//! The analysis multiplies, divides, adds and subtracts binary64 values, and
//! none of that is done here. Whoever drives an evaluation is asked for one
//! operation at a time and hands the result back as a bit pattern; the
//! evaluation decides what to ask next and what the results mean.
//!
//! Contracts speak of an arithmetic as a function from requests to results.
//! What is proved holds for every such function, and so for the one that the
//! driver's hardware computes.
//!
//! A function that drives an evaluation by itself takes the driver's
//! arithmetic as a closure. Whatever the closure answers, the function says
//! which requests it put to the closure and what the answers led to; and for
//! every arithmetic that the closure computes, its result is the one that
//! the contracts give for that arithmetic.

use crate::binary64::Binary64;
use vstd::prelude::*;

verus! {

/// An operation on two binary64 values.
#[derive(Clone, Copy, Debug, PartialEq, Eq, Structural)]
pub enum Operation {
    /// `left * right`
    Product,
    /// `left / right`
    Quotient,
    /// `left + right`
    Sum,
    /// `left - right`
    Difference,
}

/// One operation to be carried out on two operands.
#[derive(Clone, Copy, Debug, PartialEq, Eq, Structural)]
pub struct Request {
    pub operation: Operation,
    pub left: Binary64,
    pub right: Binary64,
}

/// An arithmetic: the result of each request.
pub type Arithmetic = spec_fn(Request) -> Binary64;

/// Whether `compute` computes the arithmetic `ar`: whatever it answers to a
/// request is what `ar` gives for it.
pub open spec fn computes<F: Fn(Request) -> Binary64>(
    compute: &F,
    ar: Arithmetic,
) -> bool {
    forall|request: Request, answer: Binary64|
        compute.ensures((request,), answer) ==> answer == ar(request)
}

/// Whether `compute` answers every request.
pub open spec fn answers_all<F: Fn(Request) -> Binary64>(compute: &F) -> bool {
    forall|request: Request| compute.requires((request,))
}

/// `left * right` in the arithmetic `ar`.
pub open spec fn product(
    ar: Arithmetic,
    left: Binary64,
    right: Binary64,
) -> Binary64 {
    ar(Request { operation: Operation::Product, left, right })
}

/// `left / right` in the arithmetic `ar`.
pub open spec fn quotient(
    ar: Arithmetic,
    left: Binary64,
    right: Binary64,
) -> Binary64 {
    ar(Request { operation: Operation::Quotient, left, right })
}

/// `left + right` in the arithmetic `ar`.
pub open spec fn sum(
    ar: Arithmetic,
    left: Binary64,
    right: Binary64,
) -> Binary64 {
    ar(Request { operation: Operation::Sum, left, right })
}

/// `left - right` in the arithmetic `ar`.
pub open spec fn difference(
    ar: Arithmetic,
    left: Binary64,
    right: Binary64,
) -> Binary64 {
    ar(Request { operation: Operation::Difference, left, right })
}

} // verus!
