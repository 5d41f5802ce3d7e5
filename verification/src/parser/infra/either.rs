use vstd::prelude::*;

verus! {

/// One of two alternatives.
#[derive(Clone, Debug, PartialEq)]
pub enum Either<L, R> {
    L(L),
    R(R),
}

} // verus!
