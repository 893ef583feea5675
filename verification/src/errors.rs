//! The rejection values a request can end with before or while it is
//! served. The front end turns each of these into a client-visible error
//! status; none of them ever stops the engine.

use vstd::prelude::*;

verus! {

/// A submission with no URLs at all.
#[derive(Debug)]
pub struct EmptyRequest;

/// A submission holding a string that does not parse as a URL.
#[derive(Debug)]
pub struct InvalidUrl {
    pub url: String,
}

impl InvalidUrl {
    pub fn new(st: String) -> (r: InvalidUrl)
        ensures
            r.url == st,
    {
        InvalidUrl { url: st }
    }

    pub fn get_url(&self) -> (r: &str)
        ensures
            r@ == self.url@,
    {
        self.url.as_str()
    }
}

/// A synchronization failure: the counterpart of a request or reply channel
/// was dropped while a request was in flight.
#[derive(Debug)]
pub struct SyncError<E> {
    pub err: E,
}

impl<E> SyncError<E> {
    pub fn from(err: E) -> (r: SyncError<E>)
        ensures
            r.err == err,
    {
        SyncError { err }
    }

    pub fn get_error(&self) -> (r: &E)
        ensures
            *r == self.err,
    {
        &self.err
    }
}

/// A request made without a live session cookie.
#[derive(Debug)]
pub struct Unauthorized;

} // verus!
