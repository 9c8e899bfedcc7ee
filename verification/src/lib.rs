//! Streaming chat relay core: a chunk-tolerant server-sent-event parser, a
//! translator from upstream JSON records to typed relay messages, and the
//! session state machine that sequences captcha verification, upstream
//! dispatch, message relay and completion bookkeeping.

pub mod admin;
pub mod captcha;
pub mod error;
pub mod hint;
pub mod id;
pub mod prompt;
pub mod search;
pub mod session;
pub mod stream_parser;
pub mod text;

use vstd::prelude::*;
use vstd::string::StringExecFns;

use crate::error::{Error, ErrorView};
use crate::text::str_eq;

verus! {

/// A request origin the relay serves.
pub open spec fn allowed_origin(origin: Seq<char>) -> bool {
    ||| origin == "https://tomshen.io"@
    ||| origin == "http://localhost:3000"@
    ||| origin == "https://salieri-admin.tomshen.io"@
}

/// The value of the allow-origin response header for a request from
/// `origin`: the origin itself when it is served, otherwise a rejection.
pub fn allowed_origin_header(origin: &str) -> (r: Result<String, Error>)
    ensures
        match r {
            Ok(s) => allowed_origin(origin@) && s@ == origin@,
            Err(e) => !allowed_origin(origin@) && e@ == ErrorView::InvalidRequest(
                "origin "@ + origin@ + " is not allowed"@,
            ),
        },
{
    if str_eq(origin, "https://tomshen.io") || str_eq(origin, "http://localhost:3000") || str_eq(
        origin,
        "https://salieri-admin.tomshen.io",
    ) {
        Ok(String::from_str(origin))
    } else {
        let mut msg = String::from_str("origin ");
        msg.append(origin);
        msg.append(" is not allowed");
        Err(Error::InvalidRequest(msg))
    }
}

} // verus!
