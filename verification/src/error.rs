//! What can go wrong while a request is built or a response is read.

use vstd::prelude::*;

verus! {

/// A fault in a request or in a response stream.
#[derive(Debug)]
pub enum ApiError {
    /// The request cannot be expressed on the chat wire.
    InvalidRequest { message: String },
    /// The response stream broke off or is not text.
    Stream(String),
}

/// What an [`ApiError`] says.
pub enum ErrorView {
    InvalidRequest { message: Seq<char> },
    Stream(Seq<char>),
}

impl DeepView for ApiError {
    type V = ErrorView;

    open spec fn deep_view(&self) -> ErrorView {
        match self {
            ApiError::InvalidRequest { message } => ErrorView::InvalidRequest { message: message@ },
            ApiError::Stream(message) => ErrorView::Stream(message@),
        }
    }
}

/// What a result says.
pub open spec fn outcome<T: DeepView>(r: Result<T, ApiError>) -> Result<T::V, ErrorView> {
    match r {
        Ok(value) => Ok(value.deep_view()),
        Err(fault) => Err(fault.deep_view()),
    }
}

} // verus!
