//! The names of the topics that events are published under.

use vstd::prelude::*;

verus! {

/// The topic of events that tell of a new post.
pub const POST: &'static str = "post";

} // verus!
