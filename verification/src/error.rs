//! What can go wrong while links are rewritten.

use vstd::prelude::*;

verus! {

/// Why a corpus was refused or a document could not be rewritten.
#[derive(Clone, Copy, Debug, PartialEq, Eq, Structural)]
pub enum LinkError {
    /// The corpus path at `index` does not lie under the root directory.
    OutsideRoot { index: usize },
    /// The hyperlink at position `link`, counted in document order, is not
    /// external, and no path of the corpus contains its reference.
    Unresolved { link: usize },
    /// The hyperlinks of the document could not be selected: the markup
    /// engine refused the selector, or a selected element carries no
    /// reference.
    Markup,
    /// The document is longer than the markup engine can read.
    TooLong,
}

impl LinkError {
    /// A line of text for a diagnostic.
    pub fn message(&self) -> (text: String)
        ensures
            text@ == match *self {
                LinkError::OutsideRoot { .. } => "a document lies outside the root directory"@,
                LinkError::Unresolved { .. } => "a link matches no document"@,
                LinkError::Markup => "the hyperlinks could not be selected"@,
                LinkError::TooLong => "the document is too long"@,
            },
    {
        match self {
            LinkError::OutsideRoot { .. } => String::from_str(
                "a document lies outside the root directory",
            ),
            LinkError::Unresolved { .. } => String::from_str("a link matches no document"),
            LinkError::Markup => String::from_str("the hyperlinks could not be selected"),
            LinkError::TooLong => String::from_str("the document is too long"),
        }
    }
}

} // verus!
