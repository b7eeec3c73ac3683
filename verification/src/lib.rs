//! An mdbook preprocessor that prevents line breaks between inline math
//! blocks and punctuation marks when using katex.
//!
//! The core is a single pure text transformation: every unescaped inline-math
//! closing dollar sign that is followed by optional whitespace and a trailing
//! punctuation mark is rewritten so that the punctuation moves inside the
//! math span, with a kerning correction when the punctuation is a colon.
//! The transformation is specified by the spec function
//! [`relocate::relocated`] and implemented by [`relocate::find_and_replace`],
//! which is proved to compute exactly that specification.

pub mod laws;
pub mod relocate;

pub use relocate::find_and_replace;

use vstd::prelude::*;

verus! {

/// The preprocessor: a stateless value whose only job is to apply
/// [`find_and_replace`] to the content of every chapter of a book.
/// The book traversal itself is plain plumbing and lives with the caller.
pub struct MathpuncPreprocessor;

impl MathpuncPreprocessor {
    /// Creates the (stateless) preprocessor value.
    pub fn new() -> Self {
        MathpuncPreprocessor
    }

    /// The preprocessor name, as the host tool knows it.
    pub fn name(&self) -> (r: &'static str)
        ensures
            r@ == "mathpunc"@,
    {
        "mathpunc"
    }
}

} // verus!
