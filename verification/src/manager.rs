//! The job registry and the dispatch-and-aggregation engine's decision
//! logic: registering a batch of URLs under a fresh identifier, recording
//! worker results, draining results for a poll, and classifying a worker's
//! fetch attempt. The engine's event loop performs I/O around these
//! decisions; all job state lives here and is mutated nowhere else.

use vstd::prelude::*;

use crate::job::Request;
use crate::job::fresh_entries;
use crate::job::kept_entries;
use crate::job::record_spec;
use crate::job::reported_pairs;
use crate::messages::DownloadResult;
use crate::messages::StatusReplyMessage;

verus! {

/// Whether some job of `s` is registered under identifier `k`.
pub open spec fn has_job(s: Seq<(u128, Request)>, k: u128) -> bool {
    exists|i: int| 0 <= i < s.len() && (#[trigger] s[i]).0 == k
}

/// The index of the job of `s` registered under identifier `k`.
pub open spec fn job_index(s: Seq<(u128, Request)>, k: u128) -> int {
    choose|i: int| 0 <= i < s.len() && (#[trigger] s[i]).0 == k
}

/// No two jobs of `s` share an identifier.
pub open spec fn jobs_distinct(s: Seq<(u128, Request)>) -> bool {
    forall|i: int, j: int|
        0 <= i < j < s.len() ==> (#[trigger] s[i]).0 != (#[trigger] s[j]).0
}

/// The job registry: every live job, keyed by its identifier. Owned
/// exclusively by the engine's control loop, so no locking is needed.
/// A job is deleted the instant a poll sees it finished; one that is never
/// polled after finishing is retained indefinitely — a known resource
/// boundary, since no eviction policy exists.
pub struct Manager {
    pub reqs: Vec<(u128, Request)>,
}

/// Relies on uuid::Uuid::new_v4: a randomly generated 128-bit identifier.
/// The value is random, so nothing is promised of it.
#[verifier::external_body]
fn fresh_candidate() -> u128 {
    uuid::Uuid::new_v4().as_u128()
}

/// Whether `reqs` holds a job under identifier `key`.
fn contains_job(reqs: &Vec<(u128, Request)>, key: u128) -> (r: bool)
    ensures
        r == has_job(reqs@, key),
{
    let n = reqs.len();
    let mut i: usize = 0;
    while i < n
        invariant
            n == reqs@.len(),
            0 <= i <= n,
            forall|j: int| 0 <= j < i ==> (#[trigger] reqs@[j]).0 != key,
        decreases n - i,
    {
        if reqs[i].0 == key {
            return true;
        }
        i += 1;
    }
    false
}

/// Among any `reqs.len() + 1` consecutive identifiers there is one no live
/// job holds, since each registered job takes only one.
pub proof fn lemma_fresh_key_exists(reqs: Seq<(u128, Request)>, base: u128)
    requires
        base + reqs.len() <= u128::MAX,
    ensures
        exists|k: u128| base <= k <= base + reqs.len() && !has_job(reqs, k),
    decreases reqs.len(),
{
    if !has_job(reqs, base) {
        assert(base <= base <= base + reqs.len() && !has_job(reqs, base));
    } else {
        let i = job_index(reqs, base);
        let rest = reqs.remove(i);
        lemma_fresh_key_exists(rest, (base + 1) as u128);
        let k = choose|k: u128|
            base + 1 <= k <= base + 1 + rest.len() && !has_job(rest, k);
        assert(!has_job(reqs, k)) by {
            if has_job(reqs, k) {
                let j = job_index(reqs, k);
                assert(reqs[j].0 == k && reqs[i].0 == base);
                if j < i {
                    assert(rest[j] == reqs[j]);
                    assert(has_job(rest, k));
                } else {
                    assert(rest[j - 1] == reqs[j]);
                    assert(has_job(rest, k));
                }
            }
        }
        assert(base <= k <= base + reqs.len() && !has_job(reqs, k));
    }
}

/// Once a finished job is removed, its identifier is unknown to every later
/// poll, while every other job stays reachable.
pub proof fn lemma_removed_job_unknown(s: Seq<(u128, Request)>, i: int)
    requires
        jobs_distinct(s),
        0 <= i < s.len(),
    ensures
        !has_job(s.remove(i), s[i].0),
        forall|k: u128| k != s[i].0 ==> (#[trigger] has_job(s.remove(i), k) <==> has_job(s, k)),
        jobs_distinct(s.remove(i)),
{
    let t = s.remove(i);
    assert(forall|j: int| 0 <= j < i ==> #[trigger] t[j] == s[j]);
    assert(forall|j: int| i <= j < t.len() ==> #[trigger] t[j] == s[j + 1]);
    assert(!has_job(t, s[i].0)) by {
        if has_job(t, s[i].0) {
            let j = job_index(t, s[i].0);
            if j < i {
                assert(s[j].0 == s[i].0);
            } else {
                assert(s[j + 1].0 == s[i].0);
            }
        }
    }
    assert forall|k: u128| k != s[i].0 implies
        (#[trigger] has_job(t, k) <==> has_job(s, k)) by {
        if has_job(t, k) {
            let j = job_index(t, k);
            if j < i {
                assert(s[j].0 == k);
            } else {
                assert(s[j + 1].0 == k);
            }
            assert(has_job(s, k));
        }
        if has_job(s, k) {
            let j = job_index(s, k);
            if j < i {
                assert(t[j].0 == k);
            } else {
                assert(j != i);
                assert(t[j - 1].0 == k);
            }
            assert(has_job(t, k));
        }
    }
    assert forall|a: int, b: int| 0 <= a < b < t.len() implies
        (#[trigger] t[a]).0 != (#[trigger] t[b]).0 by {
        let a2: int = if a < i { a } else { a + 1 };
        let b2: int = if b < i { b } else { b + 1 };
        assert(t[a] == s[a2] && t[b] == s[b2]);
    }
}

impl Manager {
    /// Registry invariant: identifiers are unique and every job's own state
    /// is well formed.
    pub open spec fn wf(self) -> bool {
        &&& jobs_distinct(self.reqs@)
        &&& forall|i: int| 0 <= i < self.reqs@.len() ==> (#[trigger] self.reqs@[i]).1.wf()
    }

    /// An empty registry: no job is live.
    pub fn new() -> (r: Manager)
        ensures
            r.wf(),
            r.reqs@.len() == 0,
    {
        Manager { reqs: Vec::new() }
    }

    /// Registers a batch of URLs as one new job: picks an identifier no live
    /// job holds (a random candidate, regenerated and then probed on
    /// collision), stores every URL unresolved, and returns the identifier
    /// together with one work unit per submitted URL for the pool's queue.
    pub fn register(&mut self, urls: Vec<String>) -> (r: (u128, Vec<(u128, String)>))
        requires
            old(self).wf(),
        ensures
            final(self).wf(),
            !has_job(old(self).reqs@, r.0),
            final(self).reqs@.len() == old(self).reqs@.len() + 1,
            forall|j: int|
                0 <= j < old(self).reqs@.len()
                    ==> final(self).reqs@[j] == old(self).reqs@[j],
            final(self).reqs@.last().0 == r.0,
            final(self).reqs@.last().1.urls@ == fresh_entries(urls@),
            r.1@.len() == urls@.len(),
            forall|i: int|
                0 <= i < urls@.len()
                    ==> (#[trigger] r.1@[i]).0 == r.0 && r.1@[i].1 == urls@[i],
    {
        let mut key = fresh_candidate();
        let mut tries: usize = 0;
        while tries < 16 && contains_job(&self.reqs, key)
            invariant
                tries <= 16,
                self == old(self),
            decreases 16 - tries,
        {
            key = fresh_candidate();
            tries += 1;
        }
        if contains_job(&self.reqs, key) {
            // Every random candidate collided; probe upward from one that
            // leaves room, where a free identifier provably exists.
            let n = self.reqs.len();
            let mut base: u128 = key;
            if base > u128::MAX - (n as u128) {
                base = 0;
            }
            proof {
                lemma_fresh_key_exists(self.reqs@, base);
            }
            key = base;
            while contains_job(&self.reqs, key)
                invariant
                    self == old(self),
                    base <= key,
                    key <= base + self.reqs@.len(),
                    exists|k: u128|
                        base <= k <= base + self.reqs@.len() && !has_job(self.reqs@, k),
                    forall|m: u128| base <= m < key ==> has_job(self.reqs@, m),
                decreases base + self.reqs@.len() - key,
            {
                proof {
                    let kf = choose|k: u128|
                        base <= k <= base + self.reqs@.len() && !has_job(self.reqs@, k);
                    assert(kf > key);
                }
                key = key + 1;
            }
        }
        let ghost s0 = self.reqs@;
        assert(!has_job(s0, key));

        let mut units: Vec<(u128, String)> = Vec::new();
        let un = urls.len();
        let mut i: usize = 0;
        while i < un
            invariant
                un == urls@.len(),
                0 <= i <= un,
                units@.len() == i,
                forall|j: int|
                    0 <= j < i ==> (#[trigger] units@[j]).0 == key && units@[j].1 == urls@[j],
            decreases un - i,
        {
            units.push((key, urls[i].clone()));
            i += 1;
        }

        let job = Request::from(urls);
        self.reqs.push((key, job));
        proof {
            assert forall|a: int, b: int| 0 <= a < b < self.reqs@.len() implies
                (#[trigger] self.reqs@[a]).0 != (#[trigger] self.reqs@[b]).0 by {
                if b == self.reqs@.len() - 1 {
                    assert(self.reqs@[a] == s0[a]);
                    assert(has_job(s0, s0[a].0));
                }
            }
        }
        (key, units)
    }

    /// Serves a poll: an unknown identifier yields nothing; a live job is
    /// drained of its resolved outcomes, each reported exactly this once,
    /// and deleted the moment a poll sees it finished.
    pub fn collect(&mut self, key: u128) -> (r: Option<StatusReplyMessage>)
        requires
            old(self).wf(),
        ensures
            final(self).wf(),
            r is Some <==> has_job(old(self).reqs@, key),
            !has_job(old(self).reqs@, key) ==> *final(self) == *old(self),
            has_job(old(self).reqs@, key) ==> ({
                let i = job_index(old(self).reqs@, key);
                let entries = old(self).reqs@[i].1.urls@;
                &&& r.unwrap().results@ == reported_pairs(entries)
                &&& r.unwrap().finished == (old(self).reqs@[i].1.remaining == 0)
                &&& (r.unwrap().finished
                    ==> final(self).reqs@ == old(self).reqs@.remove(i))
                &&& (!r.unwrap().finished ==> {
                    &&& final(self).reqs@.len() == old(self).reqs@.len()
                    &&& (forall|j: int|
                        0 <= j < old(self).reqs@.len() && j != i
                            ==> final(self).reqs@[j] == old(self).reqs@[j])
                    &&& final(self).reqs@[i].0 == key
                    &&& final(self).reqs@[i].1.urls@ == kept_entries(entries)
                    &&& final(self).reqs@[i].1.remaining == old(self).reqs@[i].1.remaining
                })
            }),
    {
        let ghost s0 = self.reqs@;
        let n = self.reqs.len();
        let mut i: usize = 0;
        while i < n
            invariant
                n == self.reqs@.len(),
                0 <= i <= n,
                s0 == self.reqs@,
                self == old(self),
                old(self).wf(),
                s0 == old(self).reqs@,
                forall|j: int| 0 <= j < i ==> (#[trigger] self.reqs@[j]).0 != key,
            decreases n - i,
        {
            if self.reqs[i].0 == key {
                proof {
                    assert(s0[i as int].0 == key);
                    assert(has_job(s0, key));
                    // URLs of jobs are unique, so the index found is the one
                    // the specification picks.
                    if job_index(s0, key) != i as int {
                        let w = job_index(s0, key);
                        assert(s0[w].0 == key);
                        assert(false);
                    }
                    assert(s0[i as int].1.wf());
                }
                let mut pair = self.reqs.remove(i);
                let rep = pair.1.fetch_done();
                let finished = rep.is_finished();
                proof {
                    lemma_removed_job_unknown(s0, i as int);
                }
                if !finished {
                    let ghost p = pair;
                    self.reqs.insert(i, pair);
                    proof {
                        assert(self.reqs@ == s0.remove(i as int).insert(i as int, p));
                        assert(self.reqs@ =~= s0.update(i as int, p));
                        assert(forall|j: int|
                            0 <= j < s0.len() ==> (#[trigger] self.reqs@[j]).0 == s0[j].0);
                        assert forall|a: int, b: int| 0 <= a < b < self.reqs@.len() implies
                            (#[trigger] self.reqs@[a]).0 != (#[trigger] self.reqs@[b]).0 by {
                            assert(self.reqs@[a].0 == s0[a].0);
                            assert(self.reqs@[b].0 == s0[b].0);
                        }
                        assert forall|j: int| 0 <= j < self.reqs@.len() implies
                            (#[trigger] self.reqs@[j]).1.wf() by {
                            if j != i {
                                assert(self.reqs@[j] == s0[j]);
                            }
                        }
                    }
                } else {
                    proof {
                        assert(self.reqs@ == s0.remove(i as int));
                        assert forall|j: int| 0 <= j < self.reqs@.len() implies
                            (#[trigger] self.reqs@[j]).1.wf() by {
                            if j < i {
                                assert(self.reqs@[j] == s0[j]);
                            } else {
                                assert(self.reqs@[j] == s0[j + 1]);
                            }
                        }
                    }
                }
                return Some(rep);
            }
            i += 1;
        }
        assert(!has_job(s0, key));
        None
    }

    /// Records one worker result. A result for a job that was already polled
    /// to completion and removed, or for an unknown or already-resolved URL,
    /// is silently dropped; that is not an error.
    pub fn set_result(&mut self, key: u128, url: &String, res: DownloadResult)
        requires
            old(self).wf(),
        ensures
            final(self).wf(),
            !has_job(old(self).reqs@, key) ==> *final(self) == *old(self),
            has_job(old(self).reqs@, key) ==> ({
                let i = job_index(old(self).reqs@, key);
                &&& final(self).reqs@.len() == old(self).reqs@.len()
                &&& (forall|j: int|
                    0 <= j < old(self).reqs@.len() && j != i
                        ==> final(self).reqs@[j] == old(self).reqs@[j])
                &&& final(self).reqs@[i].0 == key
                &&& final(self).reqs@[i].1.urls@
                    == record_spec(old(self).reqs@[i].1.urls@, url@, res)
            }),
    {
        let ghost s0 = self.reqs@;
        let n = self.reqs.len();
        let mut i: usize = 0;
        while i < n
            invariant
                n == self.reqs@.len(),
                0 <= i <= n,
                s0 == self.reqs@,
                self == old(self),
                old(self).wf(),
                s0 == old(self).reqs@,
                forall|j: int| 0 <= j < i ==> (#[trigger] self.reqs@[j]).0 != key,
            decreases n - i,
        {
            if self.reqs[i].0 == key {
                proof {
                    assert(s0[i as int].0 == key);
                    assert(has_job(s0, key));
                    if job_index(s0, key) != i as int {
                        let w = job_index(s0, key);
                        assert(s0[w].0 == key);
                        assert(false);
                    }
                    assert(s0[i as int].1.wf());
                }
                let mut pair = self.reqs.remove(i);
                pair.1.update(url, res);
                let ghost p = pair;
                self.reqs.insert(i, pair);
                proof {
                    assert(self.reqs@ == s0.remove(i as int).insert(i as int, p));
                    assert(self.reqs@ =~= s0.update(i as int, p));
                    assert(forall|j: int|
                        0 <= j < s0.len() ==> (#[trigger] self.reqs@[j]).0 == s0[j].0);
                    assert forall|a: int, b: int| 0 <= a < b < self.reqs@.len() implies
                        (#[trigger] self.reqs@[a]).0 != (#[trigger] self.reqs@[b]).0 by {
                        assert(self.reqs@[a].0 == s0[a].0);
                        assert(self.reqs@[b].0 == s0[b].0);
                    }
                    assert forall|j: int| 0 <= j < self.reqs@.len() implies
                        (#[trigger] self.reqs@[j]).1.wf() by {
                        if j != i {
                            assert(self.reqs@[j] == s0[j]);
                        }
                    }
                }
                return;
            }
            i += 1;
        }
        assert(!has_job(s0, key));
    }
}

/// One event the engine's control loop can wake up on: a new-job request,
/// a poll, a worker result, or the shutdown signal (a closed request
/// channel is treated as shutdown by the loop that feeds this in).
pub enum EngineEvent {
    NewJob(Vec<String>),
    Poll(u128),
    WorkerResult(u128, String, DownloadResult),
    Shutdown,
}

/// What the loop must do after one event is handled: push the work units
/// and reply with the new identifier, reply to the poller, nothing (worker
/// results get no reply), or close the work queue and stop.
pub enum EngineAction {
    Dispatch(u128, Vec<(u128, String)>),
    Report(Option<StatusReplyMessage>),
    Recorded,
    Stop,
}

impl Manager {
    /// One step of the dispatch-and-aggregation engine: handles a single
    /// event and says what the surrounding loop must do with the outcome.
    /// Only this step ever touches job state.
    pub fn handle_event(&mut self, ev: EngineEvent) -> (a: EngineAction)
        requires
            old(self).wf(),
        ensures
            final(self).wf(),
            ev is Shutdown ==> a is Stop && *final(self) == *old(self),
            ev matches EngineEvent::NewJob(urls) ==> (a matches EngineAction::Dispatch(
                key,
                units,
            ) && {
                &&& !has_job(old(self).reqs@, key)
                &&& final(self).reqs@.len() == old(self).reqs@.len() + 1
                &&& (forall|j: int|
                    0 <= j < old(self).reqs@.len()
                        ==> final(self).reqs@[j] == old(self).reqs@[j])
                &&& final(self).reqs@.last().0 == key
                &&& final(self).reqs@.last().1.urls@ == fresh_entries(urls@)
                &&& units@.len() == urls@.len()
                &&& (forall|i: int|
                    0 <= i < urls@.len()
                        ==> (#[trigger] units@[i]).0 == key && units@[i].1 == urls@[i])
            }),
            ev matches EngineEvent::Poll(key) ==> (a matches EngineAction::Report(r) && {
                &&& (r is Some <==> has_job(old(self).reqs@, key))
                &&& (!has_job(old(self).reqs@, key) ==> *final(self) == *old(self))
                &&& (has_job(old(self).reqs@, key) ==> {
                    let i = job_index(old(self).reqs@, key);
                    let entries = old(self).reqs@[i].1.urls@;
                    &&& r.unwrap().results@ == reported_pairs(entries)
                    &&& r.unwrap().finished == (old(self).reqs@[i].1.remaining == 0)
                    &&& (r.unwrap().finished ==> final(self).reqs@ == old(self).reqs@.remove(
                        i,
                    ))
                    &&& (!r.unwrap().finished ==> {
                        &&& final(self).reqs@.len() == old(self).reqs@.len()
                        &&& (forall|j: int|
                            0 <= j < old(self).reqs@.len() && j != i
                                ==> final(self).reqs@[j] == old(self).reqs@[j])
                        &&& final(self).reqs@[i].0 == key
                        &&& final(self).reqs@[i].1.urls@ == kept_entries(entries)
                    })
                })
            }),
            ev matches EngineEvent::WorkerResult(key, url, res) ==> (a is Recorded && {
                &&& (!has_job(old(self).reqs@, key) ==> *final(self) == *old(self))
                &&& (has_job(old(self).reqs@, key) ==> {
                    let i = job_index(old(self).reqs@, key);
                    &&& final(self).reqs@.len() == old(self).reqs@.len()
                    &&& (forall|j: int|
                        0 <= j < old(self).reqs@.len() && j != i
                            ==> final(self).reqs@[j] == old(self).reqs@[j])
                    &&& final(self).reqs@[i].0 == key
                    &&& final(self).reqs@[i].1.urls@
                        == record_spec(old(self).reqs@[i].1.urls@, url@, res)
                })
            }),
    {
        match ev {
            EngineEvent::NewJob(urls) => {
                let (key, units) = self.register(urls);
                EngineAction::Dispatch(key, units)
            },
            EngineEvent::Poll(key) => EngineAction::Report(self.collect(key)),
            EngineEvent::WorkerResult(key, url, res) => {
                self.set_result(key, &url, res);
                EngineAction::Recorded
            },
            EngineEvent::Shutdown => EngineAction::Stop,
        }
    }
}

/// How a worker classifies one fetch attempt, from what the HTTP client
/// reports of it: any received status code is a completed fetch; a
/// transport failure falls into the first matching class, in this priority
/// order: redirect-policy violation, timeout, malformed request, connection
/// failure, response-decode failure, anything else unknown.
pub open spec fn spec_classify(
    status: Option<u16>,
    redirect: bool,
    timeout: bool,
    request: bool,
    connect: bool,
    decode: bool,
) -> DownloadResult {
    match status {
        Some(code) => DownloadResult::Fetched(code),
        None => if redirect {
            DownloadResult::RedirectError
        } else if timeout {
            DownloadResult::TimeOutError
        } else if request {
            DownloadResult::RequestError
        } else if connect {
            DownloadResult::ConnectError
        } else if decode {
            DownloadResult::DecodeError
        } else {
            DownloadResult::UnknownError
        },
    }
}

/// The classification a worker stores for one fetch attempt; the flags are
/// read off the HTTP client's error value by the worker at its edge.
pub fn classify_outcome(
    status: Option<u16>,
    redirect: bool,
    timeout: bool,
    request: bool,
    connect: bool,
    decode: bool,
) -> (r: DownloadResult)
    ensures
        r == spec_classify(status, redirect, timeout, request, connect, decode),
{
    match status {
        Some(code) => DownloadResult::Fetched(code),
        None => if redirect {
            DownloadResult::RedirectError
        } else if timeout {
            DownloadResult::TimeOutError
        } else if request {
            DownloadResult::RequestError
        } else if connect {
            DownloadResult::ConnectError
        } else if decode {
            DownloadResult::DecodeError
        } else {
            DownloadResult::UnknownError
        },
    }
}

} // verus!
