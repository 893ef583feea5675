//! The terminal outcome of one fetch, its integer wire encoding, and the
//! reply handed back to a poller.

use vstd::prelude::*;

verus! {

/// Terminal outcome of fetching one URL: the HTTP status code the server
/// answered with, or one of six transport-level failure classes.
#[derive(Clone, Copy, Debug, PartialEq, Eq, Structural)]
pub enum DownloadResult {
    Fetched(u16),
    RedirectError,
    TimeOutError,
    RequestError,
    ConnectError,
    DecodeError,
    UnknownError,
}

/// Integer wire encoding of an outcome: the status code itself for a
/// completed fetch, a distinct negative sentinel for each transport failure.
pub open spec fn spec_wire_code(d: DownloadResult) -> int {
    match d {
        DownloadResult::Fetched(s) => s as int,
        DownloadResult::RedirectError => -1,
        DownloadResult::TimeOutError => -2,
        DownloadResult::RequestError => -3,
        DownloadResult::ConnectError => -4,
        DownloadResult::DecodeError => -5,
        DownloadResult::UnknownError => -6,
    }
}

impl core::convert::From<DownloadResult> for i32 {
    fn from(d: DownloadResult) -> (r: i32) {
        match d {
            DownloadResult::Fetched(s) => s as i32,
            DownloadResult::RedirectError => -1i32,
            DownloadResult::TimeOutError => -2i32,
            DownloadResult::RequestError => -3i32,
            DownloadResult::ConnectError => -4i32,
            DownloadResult::DecodeError => -5i32,
            DownloadResult::UnknownError => -6i32,
        }
    }
}

impl vstd::std_specs::convert::FromSpecImpl<DownloadResult> for i32 {
    open spec fn obeys_from_spec() -> bool {
        true
    }

    open spec fn from_spec(d: DownloadResult) -> i32 {
        spec_wire_code(d) as i32
    }
}

/// What a poll gets back: whether the job has fully finished, and the
/// outcomes resolved since the previous poll, each URL at most once.
pub struct StatusReplyMessage {
    pub finished: bool,
    pub results: Vec<(String, DownloadResult)>,
}

impl StatusReplyMessage {
    pub fn new(finished: bool, results: Vec<(String, DownloadResult)>) -> (r: StatusReplyMessage)
        ensures
            r.finished == finished,
            r.results == results,
    {
        StatusReplyMessage { finished, results }
    }

    pub fn is_finished(&self) -> (r: bool)
        ensures
            r == self.finished,
    {
        self.finished
    }

    pub fn into_results(self) -> (r: Vec<(String, DownloadResult)>)
        ensures
            r == self.results,
    {
        self.results
    }

    pub fn len(&self) -> (r: usize)
        ensures
            r == self.results@.len(),
    {
        self.results.len()
    }
}

} // verus!
