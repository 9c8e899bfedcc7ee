//! The relay's failure taxonomy.  Every error is terminal to its own session
//! only: it is reported to the client once and never retried.

use vstd::prelude::*;
use vstd::string::StringExecFns;

use crate::text::{ascii_to_string, ascii_view, dec_bytes, lemma_dec_bytes_ascii, push_dec_u64};

verus! {

/// What went wrong with one session.
///
/// `InvalidRequest` covers bad or missing client input; `Forbidden` a failed
/// anti-abuse check, carrying the verifier's machine-readable failure codes;
/// `OpenAIError` a non-success upstream response, carrying its status and
/// body; `InternalError` everything on the operator's side of the contract.
#[derive(Clone, Debug)]
pub enum Error {
    InvalidRequest(String),
    Forbidden(Vec<String>),
    OpenAIError(u16, String),
    InternalError(String),
}

/// The mathematical value of an error.
pub enum ErrorView {
    InvalidRequest(Seq<char>),
    Forbidden(Seq<Seq<char>>),
    OpenAIError(u16, Seq<char>),
    InternalError(Seq<char>),
}

impl View for Error {
    type V = ErrorView;

    open spec fn view(&self) -> ErrorView {
        match self {
            Error::InvalidRequest(m) => ErrorView::InvalidRequest(m@),
            Error::Forbidden(codes) => ErrorView::Forbidden(codes.deep_view()),
            Error::OpenAIError(status, body) => ErrorView::OpenAIError(*status, body@),
            Error::InternalError(m) => ErrorView::InternalError(m@),
        }
    }
}

impl Error {
    /// The HTTP status code under which this error is reported.
    pub open spec fn spec_status_code(&self) -> u16 {
        match self {
            Error::InvalidRequest(_) => 400,
            Error::Forbidden(_) => 403,
            Error::OpenAIError(_, _) => 500,
            Error::InternalError(_) => 500,
        }
    }

    pub fn status_code(&self) -> (r: u16)
        ensures
            r == self.spec_status_code(),
    {
        match self {
            Error::InvalidRequest(_) => 400,
            Error::Forbidden(_) => 403,
            Error::OpenAIError(_, _) => 500,
            Error::InternalError(_) => 500,
        }
    }

    /// The human-readable report of this error.
    pub open spec fn spec_message(&self) -> Seq<char> {
        match self {
            Error::InvalidRequest(m) => "invalid request: "@ + m@,
            Error::Forbidden(_) => "forbidden"@,
            Error::OpenAIError(status, _) => "OpenAI error: "@ + ascii_view(
                dec_bytes(*status as int),
            ),
            Error::InternalError(_) => "internal error"@,
        }
    }

    pub fn message(&self) -> (r: String)
        ensures
            r@ == self.spec_message(),
    {
        match self {
            Error::InvalidRequest(m) => {
                let mut s = String::from_str("invalid request: ");
                s.append(m.as_str());
                s
            },
            Error::Forbidden(_) => String::from_str("forbidden"),
            Error::OpenAIError(status, _) => {
                let mut digits: Vec<u8> = Vec::new();
                push_dec_u64(&mut digits, *status as u64);
                proof {
                    lemma_dec_bytes_ascii(*status as int);
                }
                let mut s = String::from_str("OpenAI error: ");
                let d = ascii_to_string(digits);
                s.append(d.as_str());
                s
            },
            Error::InternalError(_) => String::from_str("internal error"),
        }
    }
}

} // verus!
