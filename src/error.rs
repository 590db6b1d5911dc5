use vstd::prelude::*;

verus! {

/// Why a text could not be read as one of the library's values; each variant keeps the
/// text that was refused.
#[derive(Debug, PartialEq, Eq)]
pub enum Error {
    InvalidSymbol(String),
    InvalidState(String),
    InvalidNuclide(String),
    InvalidDecayMode(String),
    InvalidTimeUnit(String),
    InvalidHalfLife(String),
    InvalidCompound(String),
}

} // verus!
