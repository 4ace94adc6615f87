//! Errors of reading a label.

use vstd::prelude::*;

verus! {

/// Why bytes could not be read as part of a label.
#[derive(Debug, Clone, Copy, PartialEq, Eq, Structural)]
pub enum Error {
    /// The header carries the wrong size, signature, revision or checksum.
    Invalid,
    /// The bytes end before the value does.
    Truncated,
    /// A partition name does not hold a terminating zero.
    UnterminatedName,
}

} // verus!
