//! Two-valued run modes of the checker.

use vstd::prelude::*;

verus! {

/// Whether suppression comments may remove diagnostics from the output.
#[derive(Clone, Copy, Debug, PartialEq, Eq, Structural)]
pub enum TypeIgnore {
    /// Normal situation in which suppression comments can disable errors.
    Enabled,
    /// If suppression comments are disabled, they are completely ignored,
    /// as if they were not there.
    Disabled,
}

impl TypeIgnore {
    pub fn is_enabled(&self) -> (r: bool)
        ensures
            r == (*self == TypeIgnore::Enabled),
    {
        matches!(self, TypeIgnore::Enabled)
    }
}

/// Whether results may be read from and written to the on-disk cache.
#[derive(Clone, Copy, Debug, PartialEq, Eq, Structural)]
pub enum Cache {
    Enabled,
    Disabled,
}

impl Cache {
    pub fn is_enabled(&self) -> (r: bool)
        ensures
            r == (*self == Cache::Enabled),
    {
        matches!(self, Cache::Enabled)
    }
}

} // verus!
