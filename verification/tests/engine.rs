//! Exercises the job registry and the engine's event step on concrete
//! batches: registration, polling before and after results, drain-on-poll
//! semantics, and removal of finished jobs.

use hexichor::manager::{EngineAction, EngineEvent, Manager};
use hexichor::messages::DownloadResult;

fn url_codes(results: &[(String, DownloadResult)]) -> Vec<(String, i32)> {
    results.iter().map(|(u, d)| (u.clone(), i32::from(*d))).collect()
}

#[test]
fn register_returns_fresh_identifier() {
    let mut m = Manager::new();
    let (a, units_a) = m.register(vec!["http://example.com/1".to_string()]);
    let (b, units_b) = m.register(vec!["http://example.com/2".to_string()]);
    assert_ne!(a, b);
    assert_eq!(units_a, vec![(a, "http://example.com/1".to_string())]);
    assert_eq!(units_b, vec![(b, "http://example.com/2".to_string())]);
}

#[test]
fn register_dispatches_one_unit_per_submitted_url() {
    let mut m = Manager::new();
    let urls = vec![
        "http://example.com/x".to_string(),
        "http://example.com/y".to_string(),
        "http://example.com/x".to_string(),
    ];
    let (id, units) = m.register(urls.clone());
    // One work unit per submitted URL, duplicates included ...
    assert_eq!(units.len(), 3);
    for (k, u) in units.iter().zip(urls.iter()) {
        assert_eq!(k.0, id);
        assert_eq!(&k.1, u);
    }
    // ... but duplicate URLs collapse to one entry of the job, so the job
    // finishes after one result per distinct URL.
    m.set_result(id, &urls[0], DownloadResult::Fetched(200));
    m.set_result(id, &urls[1], DownloadResult::Fetched(200));
    let rep = m.collect(id).expect("job is live");
    assert!(rep.is_finished());
    let mut got: Vec<String> = rep.into_results().into_iter().map(|p| p.0).collect();
    got.sort();
    assert_eq!(
        got,
        vec!["http://example.com/x".to_string(), "http://example.com/y".to_string()]
    );
}

#[test]
fn poll_before_any_result_is_empty_and_unfinished() {
    let mut m = Manager::new();
    let (id, _units) = m.register(vec![
        "http://example.com/a".to_string(),
        "http://example.com/b".to_string(),
    ]);
    for _ in 0..3 {
        let rep = m.collect(id).expect("job is live");
        assert!(!rep.is_finished());
        assert_eq!(rep.len(), 0);
    }
}

#[test]
fn poll_after_all_results_finishes_and_removes_the_job() {
    let mut m = Manager::new();
    let a = "http://example.com/200".to_string();
    let b = "http://example.com/404".to_string();
    let (id, _units) = m.register(vec![a.clone(), b.clone()]);
    m.set_result(id, &a, DownloadResult::Fetched(200));
    m.set_result(id, &b, DownloadResult::Fetched(404));
    let rep = m.collect(id).expect("job is live");
    assert!(rep.is_finished());
    let mut got = url_codes(&rep.into_results());
    got.sort();
    assert_eq!(got, vec![(a, 200), (b, 404)]);
    // The finished job was deleted the moment the poll saw it finished.
    assert!(m.collect(id).is_none());
}

#[test]
fn each_outcome_is_reported_exactly_once() {
    let mut m = Manager::new();
    let a = "http://example.com/a".to_string();
    let b = "http://example.com/b".to_string();
    let (id, _units) = m.register(vec![a.clone(), b.clone()]);

    m.set_result(id, &a, DownloadResult::Fetched(200));
    let first = m.collect(id).expect("job is live");
    assert!(!first.is_finished());
    let first = url_codes(&first.into_results());
    assert_eq!(first, vec![(a.clone(), 200)]);

    // A second poll right away reports nothing: the outcome was drained.
    let again = m.collect(id).expect("job is live");
    assert!(!again.is_finished());
    assert_eq!(again.len(), 0);

    m.set_result(id, &b, DownloadResult::TimeOutError);
    let second = m.collect(id).expect("job is live");
    assert!(second.is_finished());
    let second = url_codes(&second.into_results());
    assert_eq!(second, vec![(b.clone(), -2)]);

    // Across the job's lifetime the polls together reported exactly the
    // submitted set, each URL once.
    let mut all: Vec<String> = first.into_iter().map(|p| p.0).collect();
    all.extend(second.into_iter().map(|p| p.0));
    all.sort();
    assert_eq!(all, vec![a, b]);
}

#[test]
fn results_for_unknown_jobs_or_urls_are_dropped() {
    let mut m = Manager::new();
    let a = "http://example.com/a".to_string();
    let (id, _units) = m.register(vec![a.clone()]);
    // Unknown job identifier: dropped silently.
    m.set_result(id.wrapping_add(1), &a, DownloadResult::Fetched(200));
    // Unknown URL within a live job: dropped silently.
    m.set_result(id, &"http://example.com/other".to_string(), DownloadResult::Fetched(200));
    let rep = m.collect(id).expect("job is live");
    assert!(!rep.is_finished());
    assert_eq!(rep.len(), 0);
    // Only the first result for a URL counts; a second one is dropped.
    m.set_result(id, &a, DownloadResult::Fetched(200));
    m.set_result(id, &a, DownloadResult::Fetched(500));
    let rep = m.collect(id).expect("job is live");
    assert!(rep.is_finished());
    assert_eq!(url_codes(&rep.into_results()), vec![(a, 200)]);
}

#[test]
fn unknown_identifiers_are_not_recognized() {
    let mut m = Manager::new();
    assert!(m.collect(12345).is_none());
    let (id, _units) = m.register(vec!["http://example.com/".to_string()]);
    assert!(m.collect(id.wrapping_add(1)).is_none());
    // The live job is untouched by the misses around it.
    assert!(m.collect(id).is_some());
}

#[test]
fn engine_events_drive_the_same_decisions() {
    let mut m = Manager::new();
    let url = "http://example.com/one".to_string();
    let (id, units) = match m.handle_event(EngineEvent::NewJob(vec![url.clone()])) {
        EngineAction::Dispatch(id, units) => (id, units),
        _ => panic!("a new job must be dispatched"),
    };
    assert_eq!(units, vec![(id, url.clone())]);

    match m.handle_event(EngineEvent::Poll(id)) {
        EngineAction::Report(Some(rep)) => {
            assert!(!rep.is_finished());
            assert_eq!(rep.len(), 0);
        }
        _ => panic!("a poll on a live job must be answered"),
    }

    match m.handle_event(EngineEvent::WorkerResult(id, url.clone(), DownloadResult::ConnectError)) {
        EngineAction::Recorded => {}
        _ => panic!("a worker result gets no reply"),
    }

    match m.handle_event(EngineEvent::Poll(id)) {
        EngineAction::Report(Some(rep)) => {
            assert!(rep.is_finished());
            assert_eq!(url_codes(&rep.into_results()), vec![(url, -4)]);
        }
        _ => panic!("a poll on a live job must be answered"),
    }

    match m.handle_event(EngineEvent::Poll(id)) {
        EngineAction::Report(None) => {}
        _ => panic!("a finished, polled job must be unknown"),
    }

    match m.handle_event(EngineEvent::Shutdown) {
        EngineAction::Stop => {}
        _ => panic!("shutdown must stop the loop"),
    }
}
