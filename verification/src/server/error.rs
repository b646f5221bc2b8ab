//! Errors a page handler answers with.
use vstd::prelude::*;

verus! {

/// `anyhow::Error`, carried through unchanged.
#[verifier::external_type_specification]
#[verifier::external_body]
pub struct ExAnyhowError(anyhow::Error);

/// A handler's failure: a message for a page that is not there, or anything else.
#[derive(Debug)]
pub enum AppError {
    Message(String),
    Other(anyhow::Error),
}

impl AppError {
    /// A not-found answer with this message.
    pub fn not_found(msg: String) -> (r: AppError)
        ensures
            r matches AppError::Message(m) && m == msg,
    {
        AppError::Message(msg)
    }

    /// The HTTP status: 404 for a message, 500 for anything else.
    pub fn status(&self) -> (r: u16)
        ensures
            r == if self is Message {
                404u16
            } else {
                500u16
            },
    {
        match self {
            AppError::Message(_) => 404,
            AppError::Other(_) => 500,
        }
    }
}

} // verus!
