//! The error type of nesting.
use vstd::prelude::*;

verus! {

#[derive(Debug, Clone, PartialEq, Eq)]
pub enum NestError {
    /// The stock does not hold all parts.
    InsufficientStock,
    /// A dimension cannot be worked with; the text says which.
    InvalidDimension(&'static str),
}

pub type NestResult<T> = Result<T, NestError>;

/// What a [`NestError`] holds, with its text as a sequence of characters.
pub enum NestErrorView {
    InsufficientStock,
    InvalidDimension(Seq<char>),
}

impl View for NestError {
    type V = NestErrorView;

    open spec fn view(&self) -> NestErrorView {
        match self {
            NestError::InsufficientStock => NestErrorView::InsufficientStock,
            NestError::InvalidDimension(m) => NestErrorView::InvalidDimension(m@),
        }
    }
}

impl NestErrorView {
    /// The text shown for the error.
    pub open spec fn text(self) -> Seq<char> {
        match self {
            NestErrorView::InsufficientStock => "insufficient stock to satisfy all parts"@,
            NestErrorView::InvalidDimension(m) => "invalid dimensions: "@ + m,
        }
    }
}

impl NestError {
    /// The text shown for the error.
    pub fn to_string(&self) -> (s: String)
        ensures
            s@ == self@.text(),
    {
        match self {
            NestError::InsufficientStock => String::from_str(
                "insufficient stock to satisfy all parts",
            ),
            NestError::InvalidDimension(m) => String::from_str("invalid dimensions: ").concat(m),
        }
    }
}

} // verus!
