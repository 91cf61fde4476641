use vstd::prelude::*;

verus! {

/// The error kinds that request construction can surface.
///
/// `InvalidFormat` covers a malformed request line, an undecodable header
/// block or body, an unusable request target, and an unparseable
/// `Content-Length` value. `InvalidMethod` is an unrecognized method token,
/// `InvalidHeader` a header line without a colon, and `ReceivingFailed` a
/// stream read that failed or returned no bytes before the request was
/// complete.
#[derive(Clone, Copy, Debug, PartialEq, Eq, Structural)]
pub enum HttpError {
    InvalidFormat,
    InvalidMethod,
    InvalidHeader,
    ReceivingFailed,
}

impl HttpError {
    /// The diagnostic text for this error kind.
    pub open spec fn spec_message(self) -> Seq<char> {
        match self {
            HttpError::InvalidFormat => "Error: invalid HTTP format"@,
            HttpError::InvalidMethod => "Error: invalid HTTP method"@,
            HttpError::InvalidHeader => "Error: invalid HTTP header"@,
            HttpError::ReceivingFailed => "Error: failed to receive HTTP request message"@,
        }
    }

    /// Diagnostic text for this error kind.
    pub fn message(&self) -> (r: String)
        ensures
            r@ == self.spec_message(),
    {
        match self {
            HttpError::InvalidFormat => "Error: invalid HTTP format".to_owned(),
            HttpError::InvalidMethod => "Error: invalid HTTP method".to_owned(),
            HttpError::InvalidHeader => "Error: invalid HTTP header".to_owned(),
            HttpError::ReceivingFailed => "Error: failed to receive HTTP request message".to_owned(),
        }
    }
}

} // verus!
