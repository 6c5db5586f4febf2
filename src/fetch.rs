use crate::text::{lossy_text, utf8_lossy};
use vstd::prelude::*;

verus! {

/// Why an upstream request did not give a usable response.
#[derive(Clone, Debug)]
pub enum FetchError {
    /// The server answered with an error status.
    ResponseCode(u16),
    /// The request itself failed; the message says how.
    ReqwestError(String),
}

/// An upstream response: its status and its body.
pub struct Response {
    pub status: u16,
    bytes: Vec<u8>,
}

impl Response {
    pub fn new(status: u16, bytes: Vec<u8>) -> (r: Self)
        ensures
            r.status_code() == status,
            r.body() == bytes@,
    {
        Response { status, bytes }
    }

    pub closed spec fn status_code(&self) -> u16 {
        self.status
    }

    pub closed spec fn body(&self) -> Seq<u8> {
        self.bytes@
    }

    /// `Ok` for a status below 400, else the status as an error.
    pub fn status_error(&self) -> (r: Result<(), FetchError>)
        ensures
            self.status_code() < 400 ==> r is Ok,
            self.status_code() >= 400 ==> (r matches Err(FetchError::ResponseCode(c)) && c == self.status_code()),
    {
        if self.status < 400 {
            Ok(())
        } else {
            Err(FetchError::ResponseCode(self.status))
        }
    }

    /// The body as text, for a status below 400.
    pub fn text(&self) -> (r: Result<String, FetchError>)
        ensures
            self.status_code() < 400 ==> (r matches Ok(s) && s@ == lossy_text(self.body())),
            self.status_code() >= 400 ==> (r matches Err(FetchError::ResponseCode(c)) && c == self.status_code()),
    {
        self.status_error()?;
        Ok(utf8_lossy(self.bytes.as_slice()))
    }
}

} // verus!
