//! The builder's error type.

use vstd::prelude::*;

verus! {

/// Why building a library, a selection or a package failed.
///
/// `Io` and `Zip` hold the text of the underlying I/O or archive error; they
/// are shown as that text alone.
pub enum BuilderError {
    Message(String),
    Io(String),
    Zip(String),
}

impl BuilderError {
    /// The text shown for the error.
    pub open spec fn text_spec(&self) -> Seq<char> {
        match self {
            BuilderError::Message(m) => m@,
            BuilderError::Io(m) => m@,
            BuilderError::Zip(m) => m@,
        }
    }

    /// The text shown for the error (what `to_string` gives).
    pub fn text(&self) -> (s: String)
        ensures
            s@ == self.text_spec(),
    {
        match self {
            BuilderError::Message(m) => m.clone(),
            BuilderError::Io(m) => m.clone(),
            BuilderError::Zip(m) => m.clone(),
        }
    }
}

} // verus!
