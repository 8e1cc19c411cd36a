//! The kinds of failure the tracker tells apart.

use vstd::prelude::*;

verus! {

/// Why an operation could not be carried out.
#[derive(Clone, Copy, Debug, PartialEq, Eq, Structural)]
pub enum ErrorKind {
    /// The store could not be reached or a write failed.
    Persistence,
    /// A date, a JSON body, a field or an id was malformed.
    Parse,
    /// The HTTP exchange itself was malformed.
    Protocol,
    /// No route matched.
    NotFound,
}

} // verus!
