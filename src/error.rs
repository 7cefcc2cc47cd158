//! The ways in which a cipher operation can refuse its input.

use vstd::prelude::*;

verus! {

/// Why a cipher operation refused its input.
#[derive(Debug, Clone, Copy, PartialEq, Eq, Structural)]
pub enum CipherError {
    /// The text or the key holds a character outside `a`..`z`.
    InvalidCharacter,
    /// The key is empty.
    InvalidKey,
}

} // verus!
