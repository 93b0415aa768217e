//! A value of one of two types.

use vstd::prelude::*;

verus! {

/// One of two values.
pub enum Either<L, R> {
    /// The first.
    Left(L),
    /// The second.
    Right(R),
}

} // verus!
