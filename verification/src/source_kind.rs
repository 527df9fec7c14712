//! The source text handed to one file's check pass.

use vstd::prelude::*;

verus! {

/// The source contains the text of one file to be checked.
#[derive(Clone, Debug, PartialEq, Eq)]
pub struct SourceKind {
    source: String,
}

impl SourceKind {
    /// The characters of the source text.
    pub closed spec fn text(self) -> Seq<char> {
        self.source@
    }

    pub fn new(source: String) -> (r: Self)
        ensures
            r.text() == source@,
    {
        SourceKind { source }
    }

    /// A copy of this source with the text replaced.
    #[must_use]
    pub fn updated(&self, new_source: String) -> (r: Self)
        ensures
            r.text() == new_source@,
    {
        SourceKind { source: new_source }
    }

    pub fn source_code(&self) -> (r: &str)
        ensures
            r@ == self.text(),
    {
        self.source.as_str()
    }
}

} // verus!
