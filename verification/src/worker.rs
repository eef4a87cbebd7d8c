//! A handler to try the consumer with: it succeeds or fails at random.

use vstd::prelude::*;

verus! {

/// One random `bool` from `rand::random`, drawn from the thread-local
/// generator. Nothing is claimed of the value.
#[verifier::external_body]
fn toss() -> (heads: bool) {
    rand::random::<bool>()
}

/// The handler's result for a toss: success on heads, failure on tails.
pub fn result_of_toss(heads: bool) -> (result: Result<(), ()>)
    ensures
        result is Ok <==> heads,
{
    if heads {
        Ok(())
    } else {
        Err(())
    }
}

/// Succeeds or fails by the toss of a coin.
pub fn process_may_error() -> (result: Result<(), ()>) {
    result_of_toss(toss())
}

} // verus!
