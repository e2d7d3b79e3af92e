//! Error types of the library.
use vstd::prelude::*;
use crate::strings::copy_string;

verus! {

/// An error raised while processing pages.
#[derive(Debug)]
pub enum PagesError {
    /// A failure while running a stage or an external tool.
    Exec(String),
    /// An invalid operation on a metadata tree.
    MetadataTree(String),
    /// A template that could not be rendered.
    Render(String),
}

impl PagesError {
    /// The message carried by the error.
    pub open spec fn message_view(&self) -> Seq<char> {
        match self {
            PagesError::Exec(m) => m@,
            PagesError::MetadataTree(m) => m@,
            PagesError::Render(m) => m@,
        }
    }

    /// Returns the message carried by the error.
    pub fn message(&self) -> (r: String)
        ensures
            r@ == self.message_view(),
    {
        match self {
            PagesError::Exec(m) => copy_string(m),
            PagesError::MetadataTree(m) => copy_string(m),
            PagesError::Render(m) => copy_string(m),
        }
    }
}

/// An error made of a message.
#[derive(Debug, PartialEq)]
pub struct StrError(pub String);

impl StrError {
    /// Builds a boxed error with the given message.
    pub fn boxed(s: &str) -> (r: Box<StrError>)
        ensures
            r.0@ == s@,
    {
        Box::new(StrError(String::from_str(s)))
    }

    /// Returns the message of the error.
    pub fn message(&self) -> (r: String)
        ensures
            r@ == self.0@,
    {
        copy_string(&self.0)
    }
}

} // verus!
