//! Tabloid headlines from templates.
//!
//! A template is text with placeholders of the form `{value[:case]}`. Each
//! placeholder names a category of words and, optionally, how the chosen word
//! is to be cased. [`substitute`] fills every placeholder of one template with
//! a word drawn at random from the corpus of its category; [`run`] makes
//! headlines in number and keeps each distinct one once.

pub mod case;
pub mod corpus;
pub mod error;
pub mod headlines;
pub mod random;
pub mod requirement;
pub mod template;
pub mod text;
pub mod wellformed;

pub use case::Case;
pub use corpus::CorpusSet;
pub use error::{ConfigurationError, SubstituteError};
pub use headlines::{generate, run};
pub use requirement::{Requirement, RequirementType};
pub use template::{resolve, substitute};
