use vstd::prelude::*;

verus! {

/// Why reading from a message failed.
#[derive(Clone, Copy, Debug, PartialEq, Eq, Structural)]
pub enum Error {
    /// A length was read from the message, or is implied by the width of a
    /// field, and the message does not hold that many bytes from there on.
    ErrCalcLen,
}

} // verus!
