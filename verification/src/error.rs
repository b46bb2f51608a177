//! The error type of the machining side of the library.
use vstd::prelude::*;
use vstd::std_specs::convert::FromSpecImpl;
use crate::offsets::OffsetError;

verus! {

#[derive(Debug)]
pub enum CamError {
    /// Offsetting a boundary failed.
    Offset(OffsetError),
    /// Data handed over at run time cannot be processed.
    InvalidInput(String),
    /// A value violates a constraint that is checked on construction.
    InvalidArgument(String),
}

pub type CamResult<T> = Result<T, CamError>;

/// What a [`CamError`] holds, with its message as a sequence of characters.
pub enum CamErrorView {
    Offset(OffsetError),
    InvalidInput(Seq<char>),
    InvalidArgument(Seq<char>),
}

impl View for CamError {
    type V = CamErrorView;

    open spec fn view(&self) -> CamErrorView {
        match self {
            CamError::Offset(e) => CamErrorView::Offset(*e),
            CamError::InvalidInput(m) => CamErrorView::InvalidInput(m@),
            CamError::InvalidArgument(m) => CamErrorView::InvalidArgument(m@),
        }
    }
}

impl CamErrorView {
    /// The text shown for the error.
    pub open spec fn text(self) -> Seq<char> {
        match self {
            CamErrorView::Offset(e) => "offset error: "@ + e.message(),
            CamErrorView::InvalidInput(m) => "invalid input: "@ + m,
            CamErrorView::InvalidArgument(m) => "invalid argument: "@ + m,
        }
    }
}

impl CamError {
    /// An [`CamError::InvalidInput`] with the given message.
    pub fn invalid_input(message: &str) -> (e: CamError)
        ensures
            e@ == CamErrorView::InvalidInput(message@),
    {
        CamError::InvalidInput(String::from_str(message))
    }

    /// An [`CamError::InvalidArgument`] with the given message.
    pub fn invalid_argument(message: &str) -> (e: CamError)
        ensures
            e@ == CamErrorView::InvalidArgument(message@),
    {
        CamError::InvalidArgument(String::from_str(message))
    }

    /// The text shown for the error.
    pub fn to_string(&self) -> (s: String)
        ensures
            s@ == self@.text(),
    {
        match self {
            CamError::Offset(e) => {
                let m = e.to_string();
                String::from_str("offset error: ").concat(m.as_str())
            },
            CamError::InvalidInput(m) => String::from_str("invalid input: ").concat(m.as_str()),
            CamError::InvalidArgument(m) => String::from_str("invalid argument: ").concat(
                m.as_str(),
            ),
        }
    }
}

impl From<OffsetError> for CamError {
    fn from(value: OffsetError) -> (e: CamError) {
        CamError::Offset(value)
    }
}

impl FromSpecImpl<OffsetError> for CamError {
    open spec fn obeys_from_spec() -> bool {
        true
    }

    open spec fn from_spec(value: OffsetError) -> CamError {
        CamError::Offset(value)
    }
}

} // verus!
