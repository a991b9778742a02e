//! What the SSH requester decides about the answers of the remote side.

use vstd::prelude::*;
use vstd::utf8::{decode_utf8, valid_utf8};

verus! {

/// Why a request to a remote machine failed.
#[derive(Debug, Clone, Copy, PartialEq, Eq, Structural)]
pub enum RequestError {
    /// No SSH session could be opened.
    SessionCreationFailed,
    /// The command could not be run over the session.
    NoSession,
    /// The session could not be closed.
    ClosingFailed,
}

/// The text that reports a request error.
pub open spec fn request_error_text(e: RequestError) -> Seq<char> {
    match e {
        RequestError::SessionCreationFailed => "Session creation failed"@,
        RequestError::NoSession => "No session"@,
        RequestError::ClosingFailed => "Error while closing session"@,
    }
}

impl RequestError {
    /// The text that reports this error.
    pub fn message(&self) -> (r: &'static str)
        ensures
            r@ == request_error_text(*self),
    {
        match self {
            RequestError::SessionCreationFailed => "Session creation failed",
            RequestError::NoSession => "No session",
            RequestError::ClosingFailed => "Error while closing session",
        }
    }
}

/// Decodes UTF-8 bytes.
/// Calls `String::from_utf8`, which std documents as giving the string when the
/// bytes are valid UTF-8 and an error otherwise; the contract says that, with
/// vstd's model of UTF-8.
#[verifier::external_body]
fn utf8_string(bytes: Vec<u8>) -> (r: Option<String>)
    ensures
        r is Some <==> valid_utf8(bytes@),
        r matches Some(s) ==> s@ == decode_utf8(bytes@),
{
    String::from_utf8(bytes).ok()
}

/// Sends connexion requests, commands and closings to remote machines over SSH;
/// the sending itself happens outside the verified library.
pub struct Requester;

impl Requester {
    /// The answer to a command: its standard output as text, or `NoSession`
    /// when the command could not be run (`None`).
    /// The output must be valid UTF-8.
    pub fn answer(stdout: Option<Vec<u8>>) -> (r: Result<String, RequestError>)
        requires
            stdout matches Some(b) ==> valid_utf8(b@),
        ensures
            match stdout {
                None => r == Err::<String, RequestError>(RequestError::NoSession),
                Some(b) => r matches Ok(s) && s@ == decode_utf8(b@),
            },
    {
        match stdout {
            None => Err(RequestError::NoSession),
            Some(b) => match utf8_string(b) {
                Some(s) => Ok(s),
                None => Err(RequestError::NoSession),
            },
        }
    }
}

} // verus!
