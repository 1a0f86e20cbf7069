//! Why a path could not be turned into a selector.

use vstd::prelude::*;

verus! {

/// The reasons for which a path is rejected. Searching itself never fails.
#[derive(Debug, PartialEq, Eq)]
pub enum Error {
    /// The path held no characters at all.
    EmptyPath,
    /// A segment of the path is not an identifier; the segment is carried along.
    InvalidSegment(String),
}

/// The mathematical value of an [`Error`].
pub enum ErrorView {
    EmptyPath,
    InvalidSegment(Seq<char>),
}

impl View for Error {
    type V = ErrorView;

    open spec fn view(&self) -> ErrorView {
        match self {
            Error::EmptyPath => ErrorView::EmptyPath,
            Error::InvalidSegment(s) => ErrorView::InvalidSegment(s@),
        }
    }
}

impl Error {
    /// The segment that was refused, if the error is about one.
    pub fn segment(&self) -> (r: Option<&str>)
        ensures
            match r {
                Some(s) => self@ == ErrorView::InvalidSegment(s@),
                None => self@ == ErrorView::EmptyPath,
            },
    {
        match self {
            Error::EmptyPath => None,
            Error::InvalidSegment(s) => Some(s.as_str()),
        }
    }
}

} // verus!
