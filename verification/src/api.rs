//! The compute half of the submit endpoint: validating a submission before
//! it may reach the core. An empty list and a syntactically invalid URL are
//! rejected here; the engine itself only ever sees valid, non-empty batches.

use vstd::prelude::*;

use crate::errors::EmptyRequest;
use crate::errors::InvalidUrl;

verus! {

/// Whether a string is a syntactically valid URL, as the URL parser the
/// fetch client uses decides it. Deterministic in the string.
pub uninterp spec fn url_ok(s: Seq<char>) -> bool;

/// Relies on reqwest's re-exported url parser, Url::parse: whether a string
/// parses as a URL, a deterministic function of the string.
#[verifier::external_body]
fn parse_ok(s: &str) -> (r: bool)
    ensures
        r == url_ok(s@),
{
    reqwest::Url::parse(s).is_ok()
}

/// Why a submission is rejected before it reaches the core.
#[derive(Debug)]
pub enum SubmitRejection {
    Empty(EmptyRequest),
    BadUrl(InvalidUrl),
}

/// Validates one submission: an empty list is rejected outright, a list
/// with an invalid URL is rejected naming the first such URL, and a fully
/// valid, non-empty list passes through unchanged.
pub fn inspect_urls(list: Vec<String>) -> (r: Result<Vec<String>, SubmitRejection>)
    ensures
        r is Ok <==> (list@.len() > 0 && (forall|i: int|
            0 <= i < list@.len() ==> url_ok((#[trigger] list@[i])@))),
        r matches Ok(v) ==> v == list,
        (r matches Err(SubmitRejection::Empty(_))) <==> list@.len() == 0,
        r matches Err(SubmitRejection::BadUrl(e)) ==> (exists|i: int|
            0 <= i < list@.len()
                && !url_ok((#[trigger] list@[i])@)
                && e.url@ == list@[i]@
                && (forall|j: int| 0 <= j < i ==> url_ok((#[trigger] list@[j])@))),
{
    if list.len() == 0 {
        return Err(SubmitRejection::Empty(EmptyRequest));
    }
    let n = list.len();
    let mut i: usize = 0;
    while i < n
        invariant
            n == list@.len(),
            0 <= i <= n,
            forall|j: int| 0 <= j < i ==> url_ok((#[trigger] list@[j])@),
        decreases n - i,
    {
        if !parse_ok(list[i].as_str()) {
            let bad = list[i].clone();
            return Err(SubmitRejection::BadUrl(InvalidUrl::new(bad)));
        }
        i += 1;
    }
    Ok(list)
}

} // verus!
