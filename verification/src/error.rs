//! Library error type.

use vstd::prelude::*;

verus! {

/// Errors reported by the library.
#[derive(Debug)]
pub enum ArwahError {
    Capture(String),
    FilterSyntax { pos: usize, msg: String },
    Dissection(String),
    Io(String),
    GeoLookup(String),
    InvalidInterface(String),
    PermissionDenied,
}

} // verus!
