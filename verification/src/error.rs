//! What can be wrong with a template or with the corpora behind it.

use vstd::prelude::*;

verus! {

/// A defect in what a placeholder asks for, or in the corpus that has to
/// answer it.
#[derive(Clone, Copy, Debug, PartialEq, Eq, Structural)]
pub enum ConfigurationError {
    /// The token is empty: there is no category key.
    EmptyToken,
    /// The category key is none of the known ones.
    UnknownCategory,
    /// A case code is present and is none of the known ones.
    UnknownCase,
    /// The placeholder's category has no word to offer.
    EmptyCorpus,
}

/// Why a template could not be filled in.
#[derive(Clone, Copy, Debug, PartialEq, Eq, Structural)]
pub enum SubstituteError {
    /// The braces of the template do not pair up: a `}` before its `{`, a `{`
    /// that is never closed, or a `{` inside a placeholder.
    TemplateSyntax,
    /// A placeholder cannot be resolved.
    Configuration(ConfigurationError),
}

} // verus!
