use vstd::prelude::*;

verus! {

/// One cell of the tape: an unsigned byte that wraps around.
pub type Cell = u8;

/// A position on the tape or in the instruction stream.
pub type Address = u64;

} // verus!
