//! Per-job state: the set of submitted URLs, which of them have resolved,
//! and how many remain. A poll drains the resolved entries, so every
//! outcome is reported at most once over the life of a job.

use vstd::prelude::*;

use crate::messages::DownloadResult;
use crate::messages::StatusReplyMessage;

verus! {

/// One entry of a job: the URL as submitted, and its outcome once resolved.
pub type UrlEntry = (String, Option<DownloadResult>);

/// Whether some entry of `s` has `k` as its URL.
pub open spec fn has_url<T>(s: Seq<(String, T)>, k: Seq<char>) -> bool {
    exists|i: int| 0 <= i < s.len() && (#[trigger] s[i]).0@ == k
}

/// The index of the entry of `s` whose URL is `k`.
pub open spec fn url_index<T>(s: Seq<(String, T)>, k: Seq<char>) -> int {
    choose|i: int| 0 <= i < s.len() && (#[trigger] s[i]).0@ == k
}

/// No two entries of `s` share a URL.
pub open spec fn urls_distinct<T>(s: Seq<(String, T)>) -> bool {
    forall|i: int, j: int|
        0 <= i < j < s.len() ==> (#[trigger] s[i]).0@ != (#[trigger] s[j]).0@
}

/// The entries of `s` still unresolved, in order: what a drain leaves behind.
pub open spec fn kept_entries(s: Seq<UrlEntry>) -> Seq<UrlEntry>
    decreases s.len(),
{
    if s.len() == 0 {
        Seq::empty()
    } else if s.last().1 is None {
        kept_entries(s.drop_last()).push(s.last())
    } else {
        kept_entries(s.drop_last())
    }
}

/// The resolved entries of `s` with their outcomes, in order: what a drain
/// reports.
pub open spec fn reported_pairs(s: Seq<UrlEntry>) -> Seq<(String, DownloadResult)>
    decreases s.len(),
{
    if s.len() == 0 {
        Seq::empty()
    } else if s.last().1 is Some {
        reported_pairs(s.drop_last()).push((s.last().0, s.last().1.unwrap()))
    } else {
        reported_pairs(s.drop_last())
    }
}

/// What recording outcome `res` for URL `k` does to a job's entries: the
/// matching unresolved entry becomes resolved; a result for an unknown or
/// already-resolved URL is dropped.
pub open spec fn record_spec(s: Seq<UrlEntry>, k: Seq<char>, res: DownloadResult) -> Seq<UrlEntry> {
    if has_url(s, k) && s[url_index(s, k)].1 is None {
        s.update(url_index(s, k), (s[url_index(s, k)].0, Some(res)))
    } else {
        s
    }
}

/// The entries a new job starts from, built from the first `n` submitted
/// URLs: one unresolved entry per URL, in first-occurrence order, duplicates
/// collapsed.
pub open spec fn fresh_entries_upto(urls: Seq<String>, n: int) -> Seq<UrlEntry>
    decreases n,
{
    if n <= 0 {
        Seq::empty()
    } else {
        let prev = fresh_entries_upto(urls, n - 1);
        if has_url(prev, urls[n - 1]@) {
            prev
        } else {
            prev.push((urls[n - 1], None))
        }
    }
}

/// The entries a new job starts from, for the whole submission.
pub open spec fn fresh_entries(urls: Seq<String>) -> Seq<UrlEntry> {
    fresh_entries_upto(urls, urls.len() as int)
}

/// One job: every submitted URL with its outcome so far, and the count of
/// URLs still unresolved.
pub struct Request {
    pub urls: Vec<UrlEntry>,
    pub remaining: usize,
}

impl Request {
    /// Job-state invariant: URLs are unique and `remaining` counts exactly
    /// the unresolved entries.
    pub open spec fn wf(self) -> bool {
        &&& urls_distinct(self.urls@)
        &&& self.remaining == kept_entries(self.urls@).len()
    }

    /// Creates the state of a newly registered job: every submitted URL
    /// unresolved, duplicates collapsed into one entry.
    pub fn from(urls: Vec<String>) -> (r: Request)
        ensures
            r.wf(),
            r.urls@ == fresh_entries(urls@),
    {
        let mut entries: Vec<UrlEntry> = Vec::new();
        let n = urls.len();
        let mut i: usize = 0;
        while i < n
            invariant
                n == urls@.len(),
                0 <= i <= n,
                entries@ == fresh_entries_upto(urls@, i as int),
            decreases n - i,
        {
            let u = urls[i].clone();
            if !contains_url(&entries, &u) {
                entries.push((u, None));
            }
            i += 1;
        }
        proof {
            lemma_fresh_entries(urls@);
            lemma_all_unresolved(entries@);
        }
        let remaining = entries.len();
        Request { urls: entries, remaining }
    }

    /// Records one worker result: the matching unresolved entry is resolved
    /// and `remaining` drops by one; a result for an unknown or
    /// already-resolved URL is silently dropped.
    pub fn update(&mut self, url: &String, res: DownloadResult)
        requires
            old(self).wf(),
        ensures
            final(self).wf(),
            final(self).urls@ == record_spec(old(self).urls@, url@, res),
    {
        let ghost s = self.urls@;
        let n = self.urls.len();
        let mut i: usize = 0;
        while i < n
            invariant
                n == self.urls@.len(),
                0 <= i <= n,
                self == old(self),
                old(self).wf(),
                s == self.urls@,
                forall|j: int| 0 <= j < i ==> (#[trigger] s[j]).0@ != url@,
            decreases n - i,
        {
            if self.urls[i].0 == *url {
                proof {
                    assert(has_url(s, url@));
                    // URLs are unique, so the index found is the one the
                    // specification picks.
                    let w = url_index(s, url@);
                    assert(s[w].0@ == url@);
                    assert(w == i as int);
                }
                match self.urls[i].1 {
                    Some(_) => {
                        proof {
                            assert(record_spec(s, url@, res) == s);
                        }
                        return;
                    },
                    None => {
                        proof {
                            lemma_kept_len_after_resolve(s, i as int, res);
                            lemma_record_keeps_urls(s, url@, res);
                        }
                        let key = self.urls[i].0.clone();
                        self.urls.set(i, (key, Some(res)));
                        self.remaining = self.remaining - 1;
                        return;
                    },
                }
            }
            i += 1;
        }
        proof {
            assert(!has_url(s, url@));
            assert(record_spec(s, url@, res) == s);
        }
    }

    /// Drains the job for a poll: returns all currently resolved outcomes,
    /// removes them so they are never reported again, and says whether the
    /// job has fully finished.
    pub fn fetch_done(&mut self) -> (r: StatusReplyMessage)
        requires
            old(self).wf(),
        ensures
            final(self).wf(),
            final(self).urls@ == kept_entries(old(self).urls@),
            final(self).remaining == old(self).remaining,
            r.finished == (old(self).remaining == 0),
            r.results@ == reported_pairs(old(self).urls@),
    {
        let ghost s = self.urls@;
        let mut kept: Vec<UrlEntry> = Vec::new();
        let mut done: Vec<(String, DownloadResult)> = Vec::new();
        let n = self.urls.len();
        let mut i: usize = 0;
        while i < n
            invariant
                n == self.urls@.len(),
                0 <= i <= n,
                self == old(self),
                old(self).wf(),
                s == self.urls@,
                kept@ == kept_entries(s.subrange(0, i as int)),
                done@ == reported_pairs(s.subrange(0, i as int)),
            decreases n - i,
        {
            let key = self.urls[i].0.clone();
            proof {
                assert(s.subrange(0, i + 1).drop_last() =~= s.subrange(0, i as int));
                assert(s.subrange(0, i + 1).last() == s[i as int]);
            }
            match self.urls[i].1 {
                Some(v) => done.push((key, v)),
                None => kept.push((key, None)),
            }
            i += 1;
        }
        proof {
            assert(s.subrange(0, n as int) =~= s);
            lemma_drain_exactly_once(s);
            lemma_kept_all_none(s);
            lemma_all_unresolved(kept_entries(s));
        }
        let finished = self.remaining == 0;
        self.urls = kept;
        StatusReplyMessage::new(finished, done)
    }
}

/// Whether `entries` already holds an entry for URL `u`.
fn contains_url(entries: &Vec<UrlEntry>, u: &String) -> (r: bool)
    ensures
        r == has_url(entries@, u@),
{
    let n = entries.len();
    let mut i: usize = 0;
    while i < n
        invariant
            n == entries@.len(),
            0 <= i <= n,
            forall|j: int| 0 <= j < i ==> (#[trigger] entries@[j]).0@ != u@,
        decreases n - i,
    {
        if entries[i].0 == *u {
            return true;
        }
        i += 1;
    }
    false
}

/// Every entry of a freshly built job is unresolved, its URLs are unique,
/// they are exactly the submitted URLs, and a non-empty submission gives a
/// non-empty job.
pub proof fn lemma_fresh_entries_upto(urls: Seq<String>, n: int)
    requires
        0 <= n <= urls.len(),
    ensures
        urls_distinct(fresh_entries_upto(urls, n)),
        forall|i: int|
            0 <= i < fresh_entries_upto(urls, n).len()
                ==> (#[trigger] fresh_entries_upto(urls, n)[i]).1 is None,
        forall|k: Seq<char>|
            #[trigger] has_url(fresh_entries_upto(urls, n), k)
                <==> exists|j: int| 0 <= j < n && (#[trigger] urls[j])@ == k,
        fresh_entries_upto(urls, n).len() <= n,
        n > 0 ==> fresh_entries_upto(urls, n).len() > 0,
    decreases n,
{
    if n > 0 {
        lemma_fresh_entries_upto(urls, n - 1);
        let prev = fresh_entries_upto(urls, n - 1);
        let cur = fresh_entries_upto(urls, n);
        if !has_url(prev, urls[n - 1]@) {
            assert forall|k: Seq<char>| #[trigger] has_url(cur, k) implies
                has_url(prev, k) || urls[n - 1]@ == k by {
                lemma_has_url_push(prev, (urls[n - 1], None), k);
            }
            assert forall|k: Seq<char>| has_url(prev, k) || urls[n - 1]@ == k implies
                #[trigger] has_url(cur, k) by {
                lemma_has_url_push(prev, (urls[n - 1], None), k);
            }
            assert(urls_distinct(cur)) by {
                assert forall|i: int, j: int| 0 <= i < j < cur.len() implies
                    (#[trigger] cur[i]).0@ != (#[trigger] cur[j]).0@ by {
                    if j == cur.len() - 1 {
                        assert(cur[i] == prev[i]);
                        assert(has_url(prev, prev[i].0@));
                    } else {
                        assert(cur[i] == prev[i]);
                        assert(cur[j] == prev[j]);
                    }
                }
            }
        }
    }
}

/// The whole-submission form of `lemma_fresh_entries_upto`.
pub proof fn lemma_fresh_entries(urls: Seq<String>)
    ensures
        urls_distinct(fresh_entries(urls)),
        forall|i: int|
            0 <= i < fresh_entries(urls).len()
                ==> (#[trigger] fresh_entries(urls)[i]).1 is None,
        forall|k: Seq<char>|
            #[trigger] has_url(fresh_entries(urls), k)
                <==> exists|j: int| 0 <= j < urls.len() && (#[trigger] urls[j])@ == k,
        fresh_entries(urls).len() <= urls.len(),
        urls.len() > 0 ==> fresh_entries(urls).len() > 0,
{
    lemma_fresh_entries_upto(urls, urls.len() as int);
}

/// Pushing an entry extends the URL set by exactly that entry's URL.
pub proof fn lemma_has_url_push<T>(s: Seq<(String, T)>, e: (String, T), k: Seq<char>)
    ensures
        has_url(s.push(e), k) <==> (has_url(s, k) || e.0@ == k),
{
    let t = s.push(e);
    if has_url(s, k) {
        let i = url_index(s, k);
        assert(t[i] == s[i]);
        assert(has_url(t, k));
    }
    if e.0@ == k {
        assert(t[s.len() as int] == e);
        assert(has_url(t, k));
    }
    if has_url(t, k) {
        let i = url_index(t, k);
        if i < s.len() {
            assert(s[i] == t[i]);
            assert(has_url(s, k));
        } else {
            assert(t[i] == e);
        }
    }
}

/// Before any fetch completes a job reports nothing and keeps everything:
/// a poll on it returns no results and leaves it unchanged.
pub proof fn lemma_all_unresolved(s: Seq<UrlEntry>)
    requires
        forall|i: int| 0 <= i < s.len() ==> (#[trigger] s[i]).1 is None,
    ensures
        kept_entries(s) == s,
        reported_pairs(s) == Seq::<(String, DownloadResult)>::empty(),
    decreases s.len(),
{
    if s.len() > 0 {
        assert(forall|i: int|
            0 <= i < s.drop_last().len() ==> (#[trigger] s.drop_last()[i]).1 is None);
        lemma_all_unresolved(s.drop_last());
        assert(kept_entries(s) =~= s);
    }
}

/// What a drain keeps is entirely unresolved.
pub proof fn lemma_kept_all_none(s: Seq<UrlEntry>)
    ensures
        forall|i: int|
            0 <= i < kept_entries(s).len() ==> (#[trigger] kept_entries(s)[i]).1 is None,
    decreases s.len(),
{
    if s.len() > 0 {
        lemma_kept_all_none(s.drop_last());
    }
}

/// A job is fully finished exactly when every entry is resolved.
pub proof fn lemma_all_resolved(s: Seq<UrlEntry>)
    ensures
        (kept_entries(s).len() == 0)
            <==> (forall|i: int| 0 <= i < s.len() ==> (#[trigger] s[i]).1 is Some),
    decreases s.len(),
{
    if s.len() > 0 {
        lemma_all_resolved(s.drop_last());
        assert(forall|i: int|
            0 <= i < s.drop_last().len() ==> s.drop_last()[i] == s[i]);
        if kept_entries(s).len() == 0 {
            assert forall|i: int| 0 <= i < s.len() implies (#[trigger] s[i]).1 is Some by {
                if i < s.len() - 1 {
                    assert(s.drop_last()[i] == s[i]);
                }
            }
        }
    }
}

/// Resolving one unresolved entry lowers the count of unresolved entries by
/// exactly one.
pub proof fn lemma_kept_len_after_resolve(s: Seq<UrlEntry>, i: int, res: DownloadResult)
    requires
        0 <= i < s.len(),
        s[i].1 is None,
    ensures
        kept_entries(s.update(i, (s[i].0, Some(res)))).len() + 1 == kept_entries(s).len(),
    decreases s.len(),
{
    let t = s.update(i, (s[i].0, Some(res)));
    if i == s.len() - 1 {
        assert(t.drop_last() =~= s.drop_last());
        assert(t.last().1 is Some);
        assert(s.last().1 is None);
    } else {
        assert(t.drop_last() =~= s.drop_last().update(i, (s[i].0, Some(res))));
        assert(t.last() == s.last());
        assert(s.drop_last()[i] == s[i]);
        lemma_kept_len_after_resolve(s.drop_last(), i, res);
    }
}

/// Recording an outcome never adds or removes a URL: the job's URL set and
/// entry count are unchanged, and distinctness is preserved.
pub proof fn lemma_record_keeps_urls(s: Seq<UrlEntry>, k: Seq<char>, res: DownloadResult)
    ensures
        record_spec(s, k, res).len() == s.len(),
        forall|j: int|
            0 <= j < s.len() ==> (#[trigger] record_spec(s, k, res)[j]).0 == s[j].0,
        forall|k2: Seq<char>| #[trigger] has_url(record_spec(s, k, res), k2) <==> has_url(s, k2),
        urls_distinct(s) ==> urls_distinct(record_spec(s, k, res)),
{
    let t = record_spec(s, k, res);
    assert(forall|j: int| 0 <= j < s.len() ==> (#[trigger] t[j]).0 == s[j].0);
    assert forall|k2: Seq<char>| #[trigger] has_url(t, k2) <==> has_url(s, k2) by {
        if has_url(t, k2) {
            let i = url_index(t, k2);
            assert(s[i].0@ == k2);
        }
        if has_url(s, k2) {
            let i = url_index(s, k2);
            assert(t[i].0@ == k2);
        }
    }
}

/// Drain-on-poll reports every URL exactly once over a job's lifetime: each
/// drain splits the job's URLs into the ones reported now and the ones kept
/// for later, with nothing lost and nothing in both.
pub proof fn lemma_drain_exactly_once(s: Seq<UrlEntry>)
    requires
        urls_distinct(s),
    ensures
        forall|k: Seq<char>|
            #[trigger] has_url(s, k)
                <==> (has_url(reported_pairs(s), k) || has_url(kept_entries(s), k)),
        forall|k: Seq<char>|
            !(#[trigger] has_url(reported_pairs(s), k) && has_url(kept_entries(s), k)),
        urls_distinct(reported_pairs(s)),
        urls_distinct(kept_entries(s)),
        kept_entries(s).len() + reported_pairs(s).len() == s.len(),
    decreases s.len(),
{
    if s.len() > 0 {
        let rest = s.drop_last();
        let e = s.last();
        assert(forall|i: int| 0 <= i < rest.len() ==> rest[i] == s[i]);
        assert(urls_distinct(rest));
        lemma_drain_exactly_once(rest);
        assert(s =~= rest.push(e));
        assert forall|k: Seq<char>| true implies
            (#[trigger] has_url(s, k) <==> (has_url(rest, k) || e.0@ == k)) by {
            lemma_has_url_push(rest, e, k);
            assert(s == rest.push(e));
        }
        // The last URL is new: it does not occur among the earlier entries.
        assert(!has_url(rest, e.0@)) by {
            if has_url(rest, e.0@) {
                let i = url_index(rest, e.0@);
                assert(s[i].0@ == s[s.len() - 1].0@);
            }
        }
        if e.1 is Some {
            assert(reported_pairs(s) == reported_pairs(rest).push((e.0, e.1.unwrap())));
            assert(kept_entries(s) == kept_entries(rest));
            assert forall|k: Seq<char>| true implies
                (#[trigger] has_url(reported_pairs(s), k)
                    <==> (has_url(reported_pairs(rest), k) || e.0@ == k)) by {
                lemma_has_url_push(reported_pairs(rest), (e.0, e.1.unwrap()), k);
            }
            assert(urls_distinct(reported_pairs(s))) by {
                let rp = reported_pairs(rest);
                assert forall|i: int, j: int| 0 <= i < j < reported_pairs(s).len() implies
                    (#[trigger] reported_pairs(s)[i]).0@
                        != (#[trigger] reported_pairs(s)[j]).0@ by {
                    if j == reported_pairs(s).len() - 1 {
                        assert(reported_pairs(s)[i] == rp[i]);
                        assert(has_url(rp, rp[i].0@));
                    } else {
                        assert(reported_pairs(s)[i] == rp[i]);
                        assert(reported_pairs(s)[j] == rp[j]);
                    }
                }
            }
        } else {
            assert(kept_entries(s) == kept_entries(rest).push(e));
            assert(reported_pairs(s) == reported_pairs(rest));
            assert forall|k: Seq<char>| true implies
                (#[trigger] has_url(kept_entries(s), k)
                    <==> (has_url(kept_entries(rest), k) || e.0@ == k)) by {
                lemma_has_url_push(kept_entries(rest), e, k);
            }
            assert(urls_distinct(kept_entries(s))) by {
                let kp = kept_entries(rest);
                assert forall|i: int, j: int| 0 <= i < j < kept_entries(s).len() implies
                    (#[trigger] kept_entries(s)[i]).0@
                        != (#[trigger] kept_entries(s)[j]).0@ by {
                    if j == kept_entries(s).len() - 1 {
                        assert(kept_entries(s)[i] == kp[i]);
                        assert(has_url(kp, kp[i].0@));
                    } else {
                        assert(kept_entries(s)[i] == kp[i]);
                        assert(kept_entries(s)[j] == kp[j]);
                    }
                }
            }
        }
    }
}

/// Polling a job before any fetch completes reports nothing and does not
/// mark it finished, however often it is repeated: a freshly registered
/// job's drain is empty, leaves the job exactly as it was, and leaves
/// unresolved entries behind whenever any URL was submitted at all.
pub proof fn lemma_poll_before_completion(urls: Seq<String>)
    requires
        urls.len() > 0,
    ensures
        reported_pairs(fresh_entries(urls)) == Seq::<(String, DownloadResult)>::empty(),
        kept_entries(fresh_entries(urls)) == fresh_entries(urls),
        kept_entries(fresh_entries(urls)).len() > 0,
{
    lemma_fresh_entries(urls);
    lemma_all_unresolved(fresh_entries(urls));
}

/// A job with no unresolved entry reports every one of its URLs.
pub proof fn lemma_completed_job_reports_all(s: Seq<UrlEntry>)
    requires
        urls_distinct(s),
        kept_entries(s).len() == 0,
    ensures
        reported_pairs(s).len() == s.len(),
        forall|k: Seq<char>| #[trigger] has_url(s, k) <==> has_url(reported_pairs(s), k),
{
    lemma_drain_exactly_once(s);
}

} // verus!
