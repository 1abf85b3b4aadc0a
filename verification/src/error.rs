//! Why a request is refused.
use vstd::prelude::*;

verus! {

/// A refused request.
#[derive(Debug, Clone, PartialEq)]
pub enum AppError {
    /// The request itself is at fault; the text says how.
    BadRequest(String),
}

/// A value, or the refusal of the request.
pub type AppResult<T> = Result<T, AppError>;

impl View for AppError {
    type V = Seq<char>;

    open spec fn view(&self) -> Seq<char> {
        match self {
            AppError::BadRequest(message) => message@,
        }
    }
}

impl AppError {
    /// Refuses a request that is at fault.
    pub fn bad_request(message: String) -> (error: AppError)
        ensures
            error == AppError::BadRequest(message),
    {
        AppError::BadRequest(message)
    }

    /// What is wrong with the request.
    pub fn message(&self) -> (message: &str)
        ensures
            message@ == self@,
    {
        match self {
            AppError::BadRequest(message) => message.as_str(),
        }
    }
}

} // verus!
