//! The errors that reading a sheet can end in.
use vstd::prelude::*;

verus! {

/// A constituency label row without the colon-delimited name, or with a
/// name that the translation table lacks.
#[derive(Debug, Clone, Copy, PartialEq, Eq, Structural)]
pub struct InvalidConstituencyName;

impl InvalidConstituencyName {
    pub fn description(&self) -> (r: &'static str)
        ensures
            r@ == "Failed to get constituency name"@,
    {
        "Failed to get constituency name"
    }
}

/// A row whose kind cannot be told. Rows of no known shape are read as data
/// rows, so nothing raises this yet.
#[derive(Debug, Clone, Copy, PartialEq, Eq, Structural)]
pub struct NotFamiliarRowType;

impl NotFamiliarRowType {
    pub fn description(&self) -> (r: &'static str)
        ensures
            r@ == "Can't detect the type of row automatically"@,
    {
        "Can't detect the type of row automatically"
    }
}

/// A translation table whose rows do not come in (name, translation) pairs.
#[derive(Debug, Clone, Copy, PartialEq, Eq, Structural)]
pub struct UnpairedTranslation;

impl UnpairedTranslation {
    pub fn description(&self) -> (r: &'static str)
        ensures
            r@ == "Translation table has a name without its translation"@,
    {
        "Translation table has a name without its translation"
    }
}

} // verus!
