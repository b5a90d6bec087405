use collection_poller::cache::{changed_ids, merge_entries, ChangeCache};
use collection_poller::operation::{same_stamp, OperationData, OperationEntry, PollEntry};

fn poll(id: &str, stamp: &str) -> PollEntry {
    PollEntry { id: id.to_string(), last_updated_at: stamp.to_string() }
}

#[test]
fn diff_reports_new_and_moved_ids_in_poll_order() {
    let mut cache = ChangeCache::new();
    let ids = changed_ids(&mut cache, &vec![poll("A", "1"), poll("B", "1")]);
    assert_eq!(ids, vec!["A".to_string(), "B".to_string()]);
    assert_eq!(cache.len(), 2);
    let ids = changed_ids(&mut cache, &vec![poll("B", "2"), poll("A", "1"), poll("C", "1")]);
    assert_eq!(ids, vec!["B".to_string(), "C".to_string()]);
    assert_eq!(cache.len(), 3);
    assert!(cache.snapshot().is_empty());
}

#[test]
fn merged_details_form_snapshot() {
    let mut cache = ChangeCache::new();
    let e = OperationEntry {
        id: "A".to_string(),
        last_updated_at: "1".to_string(),
        data: OperationData { source_text: "q".to_string(), headers: None, variables: None },
    };
    merge_entries(&mut cache, &vec![e]);
    assert_eq!(cache.len(), 1);
    let snap = cache.snapshot();
    assert_eq!(snap.len(), 1);
    assert_eq!(snap[0].source_text, "q");
    let ids = changed_ids(&mut cache, &vec![poll("A", "1")]);
    assert!(ids.is_empty());
}

#[test]
fn stamps_compare_by_equality_only() {
    assert!(same_stamp(&"2024-01-01".to_string(), &"2024-01-01".to_string()));
    assert!(!same_stamp(&"2024-01-02".to_string(), &"2024-01-01".to_string()));
}
