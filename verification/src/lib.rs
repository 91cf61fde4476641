//! A minimal HTTP/1.1 static file server core: an incremental request
//! parser, a response builder, and response serialization, all stated over
//! byte sequences. The surrounding process supplies the socket reads and
//! writes and the file contents; everything that decides or computes lives
//! here.

pub mod err;
pub mod headers;
pub mod reader;
pub mod request;
pub mod response;
pub mod send;
pub mod sys;
pub mod text;

pub use err::HttpError;
pub use headers::HeaderMap;
pub use reader::{PushOutcome, RequestReader};
pub use request::{Method, Request};
pub use response::{FileOutcome, Response, ServeStep};
pub use sys::{rv_handler, CheckNegativeOne, SyscallFailed};
