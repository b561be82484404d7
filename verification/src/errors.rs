//! The kinds of failure the core reports.

use vstd::prelude::*;

verus! {

/// Why an operation of the core could not be carried out.
#[derive(Clone, Copy, Debug, PartialEq, Eq, Structural)]
pub enum Error {
    /// The caller named something that makes no sense here, such as an index
    /// past the end of a strip.
    InvalidInput,
    /// The entity asked for is not, or no longer, known.
    NotFound,
    /// The configuration could not be understood.
    InvalidConfig,
    /// A window failed validation of its role.
    InvalidWindow,
}

} // verus!
