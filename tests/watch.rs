use collection_poller::operation::{OperationData, OperationEntry, PollEntry};
use collection_poller::poller::{
    CollectionError, CollectionEvent, CollectionSource, Next, PlatformApiConfig, Step, Watch,
    MAX_COLLECTION_SIZE_FOR_POLLING,
};

fn data(body: &str) -> OperationData {
    OperationData { source_text: body.to_string(), headers: None, variables: None }
}

fn entry(id: &str, stamp: &str, body: &str) -> OperationEntry {
    OperationEntry { id: id.to_string(), last_updated_at: stamp.to_string(), data: data(body) }
}

fn poll(id: &str, stamp: &str) -> PollEntry {
    PollEntry { id: id.to_string(), last_updated_at: stamp.to_string() }
}

fn bodies(step: &Step) -> Vec<String> {
    match &step.event {
        Some(CollectionEvent::UpdateOperationCollection(ops)) => {
            let mut v: Vec<String> = ops.iter().map(|o| o.source_text.clone()).collect();
            v.sort();
            v
        }
        _ => panic!("expected a snapshot"),
    }
}

fn started(entries: Vec<OperationEntry>) -> Watch {
    let mut w = Watch::new("collection".to_string());
    let s = w.on_full_fetch(Ok(entries));
    assert!(matches!(s.next, Next::Poll));
    w
}

#[test]
fn initial_fetch_emits_full_snapshot() {
    let mut w = Watch::new("c".to_string());
    let s = w.on_full_fetch(Ok(vec![entry("A", "v1", "a1"), entry("B", "v1", "b1")]));
    assert_eq!(bodies(&s), vec!["a1".to_string(), "b1".to_string()]);
    assert!(matches!(s.next, Next::Poll));
    assert!(!w.is_stopped());
}

#[test]
fn changed_entry_is_fetched_and_snapshot_is_complete() {
    let mut w = started(vec![entry("A", "v1", "a1"), entry("B", "v1", "b1")]);
    let s = w.on_poll(Ok(vec![poll("A", "v1"), poll("B", "v2")]));
    assert!(s.event.is_none());
    match &s.next {
        Next::FetchDetails(ids) => assert_eq!(ids, &vec!["B".to_string()]),
        _ => panic!("expected a detail fetch"),
    }
    let s = w.on_details(Ok(vec![entry("B", "v2", "b2")]));
    assert_eq!(bodies(&s), vec!["a1".to_string(), "b2".to_string()]);
    assert!(matches!(s.next, Next::Poll));
}

#[test]
fn unchanged_poll_emits_nothing() {
    let mut w = started(vec![entry("A", "v1", "a1"), entry("B", "v1", "b1")]);
    for _ in 0..3 {
        let s = w.on_poll(Ok(vec![poll("A", "v1"), poll("B", "v1")]));
        assert!(s.event.is_none());
        assert!(matches!(s.next, Next::Poll));
    }
    let s = w.on_poll(Ok(vec![poll("A", "v2"), poll("B", "v1")]));
    match &s.next {
        Next::FetchDetails(ids) => assert_eq!(ids, &vec!["A".to_string()]),
        _ => panic!("expected a detail fetch"),
    }
}

#[test]
fn same_transition_is_reported_once() {
    let mut w = started(vec![entry("A", "v1", "a1")]);
    let s = w.on_poll(Ok(vec![poll("A", "v2")]));
    assert!(matches!(s.next, Next::FetchDetails(_)));
    let s = w.on_details(Err(CollectionError::Transport("timeout".to_string())));
    assert!(matches!(s.event, Some(CollectionEvent::CollectionError(CollectionError::Transport(_)))));
    let s = w.on_poll(Ok(vec![poll("A", "v2")]));
    assert!(s.event.is_none());
    assert!(matches!(s.next, Next::Poll));
}

#[test]
fn new_id_is_reported_and_added() {
    let mut w = started(vec![entry("A", "v1", "a1")]);
    let s = w.on_poll(Ok(vec![poll("A", "v1"), poll("C", "v1")]));
    match &s.next {
        Next::FetchDetails(ids) => assert_eq!(ids, &vec!["C".to_string()]),
        _ => panic!("expected a detail fetch"),
    }
    let s = w.on_details(Ok(vec![entry("C", "v1", "c1")]));
    assert_eq!(bodies(&s), vec!["a1".to_string(), "c1".to_string()]);
}

#[test]
fn removed_id_stays_in_snapshot() {
    let mut w = started(vec![entry("A", "v1", "a1"), entry("B", "v1", "b1")]);
    let s = w.on_poll(Ok(vec![poll("A", "v2")]));
    assert!(matches!(s.next, Next::FetchDetails(_)));
    let s = w.on_details(Ok(vec![entry("A", "v2", "a2")]));
    assert_eq!(bodies(&s), vec!["a2".to_string(), "b1".to_string()]);
}

#[test]
fn oversized_initial_collection_stops_after_one_snapshot() {
    let entries: Vec<OperationEntry> = (0..MAX_COLLECTION_SIZE_FOR_POLLING + 1)
        .map(|i| entry(&format!("id{i}"), "v1", &format!("body{i}")))
        .collect();
    let mut w = Watch::new("c".to_string());
    let s = w.on_full_fetch(Ok(entries));
    assert_eq!(bodies(&s).len(), 101);
    assert!(matches!(s.next, Next::Stop));
    assert!(w.is_stopped());
}

#[test]
fn collection_at_ceiling_keeps_polling() {
    let entries: Vec<OperationEntry> = (0..MAX_COLLECTION_SIZE_FOR_POLLING)
        .map(|i| entry(&format!("id{i}"), "v1", &format!("body{i}")))
        .collect();
    let mut w = Watch::new("c".to_string());
    let s = w.on_full_fetch(Ok(entries));
    assert_eq!(bodies(&s).len(), 100);
    assert!(matches!(s.next, Next::Poll));
}

#[test]
fn growth_past_ceiling_stops_after_snapshot() {
    let entries: Vec<OperationEntry> = (0..100).map(|i| entry(&format!("id{i}"), "v1", "b")).collect();
    let mut w = started(entries);
    let s = w.on_poll(Ok(vec![poll("extra", "v1")]));
    assert!(matches!(s.next, Next::FetchDetails(_)));
    let s = w.on_details(Ok(vec![entry("extra", "v1", "x")]));
    assert_eq!(bodies(&s).len(), 101);
    assert!(matches!(s.next, Next::Stop));
    assert!(w.is_stopped());
}

#[test]
fn permission_error_while_polling_is_sent_once_and_polling_resumes() {
    let mut w = started(vec![entry("A", "v1", "a1")]);
    let s = w.on_poll(Err(CollectionError::PermissionDenied("denied".to_string())));
    match &s.event {
        Some(CollectionEvent::CollectionError(CollectionError::PermissionDenied(m))) => assert_eq!(m, "denied"),
        _ => panic!("expected the error"),
    }
    assert!(matches!(s.next, Next::Poll));
    assert!(!w.is_stopped());
    let s = w.on_poll(Ok(vec![poll("A", "v1")]));
    assert!(s.event.is_none());
}

#[test]
fn initial_errors_end_the_watch() {
    for e in [
        CollectionError::NotFound("missing".to_string()),
        CollectionError::PermissionDenied("denied".to_string()),
        CollectionError::ValidationFailed("bad".to_string()),
        CollectionError::Transport("down".to_string()),
    ] {
        let mut w = Watch::new("c".to_string());
        let s = w.on_full_fetch(Err(e));
        assert!(matches!(s.event, Some(CollectionEvent::CollectionError(_))));
        assert!(matches!(s.next, Next::Stop));
        assert!(w.is_stopped());
    }
}

#[test]
fn detail_error_keeps_watching() {
    let mut w = started(vec![entry("A", "v1", "a1")]);
    let s = w.on_details(Err(CollectionError::NotFound("gone".to_string())));
    assert!(matches!(s.event, Some(CollectionEvent::CollectionError(CollectionError::NotFound(_)))));
    assert!(matches!(s.next, Next::Poll));
}

#[test]
fn consumer_gone_stops_watch() {
    let mut w = started(vec![entry("A", "v1", "a1")]);
    w.on_consumer_gone();
    assert!(w.is_stopped());
}

#[test]
fn source_starts_watch_of_its_collection() {
    let source = CollectionSource {
        collection_id: "abc".to_string(),
        platform_api_config: PlatformApiConfig { apollo_key: "key".to_string(), poll_interval_ms: 30_000, timeout_ms: 10_000 },
    };
    let w = source.watch();
    assert_eq!(w.collection_id(), "abc");
    assert!(!w.is_stopped());
}

#[test]
fn duplicate_keeps_headers_and_variables() {
    let d = OperationData {
        source_text: "query Q { a }".to_string(),
        headers: Some(vec![("x-h".to_string(), "1".to_string())]),
        variables: Some("{\"a\":1}".to_string()),
    };
    let c = d.duplicate();
    assert_eq!(c.source_text, "query Q { a }");
    assert_eq!(c.headers, Some(vec![("x-h".to_string(), "1".to_string())]));
    assert_eq!(c.variables.as_deref(), Some("{\"a\":1}"));
}

#[test]
fn empty_collection_is_watched() {
    let mut w = Watch::new("c".to_string());
    let s = w.on_full_fetch(Ok(vec![]));
    assert!(bodies(&s).is_empty());
    assert!(matches!(s.next, Next::Poll));
    let s = w.on_poll(Ok(vec![]));
    assert!(s.event.is_none());
    assert!(matches!(s.next, Next::Poll));
}

#[test]
fn repeated_id_in_one_poll_is_reported_once() {
    let mut w = started(vec![entry("A", "v1", "a1")]);
    let s = w.on_poll(Ok(vec![poll("A", "v2"), poll("A", "v2")]));
    match &s.next {
        Next::FetchDetails(ids) => assert_eq!(ids, &vec!["A".to_string()]),
        _ => panic!("expected a detail fetch"),
    }
}
