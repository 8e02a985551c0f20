//! The single opaque error that the wire codec and the cryptographic layer
//! report: a short buffer, a bad discriminant, trailing bytes, an invalid
//! boolean, an out-of-range length, a failed authentication tag or a failed
//! signature all collapse into this one kind.

use vstd::prelude::*;

verus! {

/// Opaque wire error. Carries no data: the codec reports only that an input
/// was rejected, never why.
#[derive(Clone, Copy, Debug, PartialEq, Eq, Structural, Hash)]
pub struct Error;

} // verus!
