//! Keeps the set of reader contexts closed.

use vstd::prelude::*;

verus! {

/// Implemented by the reader contexts of this crate, and by nothing else.
pub trait SealedCtx {

}

} // verus!
