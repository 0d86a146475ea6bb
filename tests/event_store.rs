use dynamo_es::{
    next_action, snapshot_due, stamp_events, validate_records, validate_strategy, EventRepository,
    NewEvent, PersistenceError, RetryAction, SerializedEvent, StorageStrategy, ViewRepository,
};

fn event(kind: &str) -> NewEvent {
    NewEvent {
        event_type: kind.to_string(),
        event_version: "1.0".to_string(),
        payload: kind.as_bytes().to_vec(),
        metadata: vec![],
    }
}

fn ids() -> (String, String) {
    ("Customer".to_string(), "c-1".to_string())
}

fn types_of(events: &[SerializedEvent]) -> Vec<String> {
    events.iter().map(|e| e.event_type.clone()).collect()
}

fn sequences_of(events: &[SerializedEvent]) -> Vec<u64> {
    events.iter().map(|e| e.sequence).collect()
}

#[test]
fn end_to_end_commit_conflict_retry() {
    let (t, a) = ids();
    let mut repo = EventRepository::new(StorageStrategy::EventSourced).unwrap();
    assert_eq!(repo.commit(&t, &a, 0, &vec![event("Created")], None), Ok(1));
    assert_eq!(
        repo.commit(&t, &a, 0, &vec![event("Updated")], None),
        Err(PersistenceError::OptimisticLock)
    );
    assert_eq!(repo.commit(&t, &a, 1, &vec![event("Updated")], None), Ok(2));
    let loaded = repo.load(&t, &a);
    assert!(loaded.snapshot.is_none());
    assert_eq!(types_of(&loaded.events), vec!["Created", "Updated"]);
    assert_eq!(sequences_of(&loaded.events), vec![1, 2]);
    assert_eq!(loaded.events[0].payload, b"Created".to_vec());
    assert_eq!(loaded.events[1].aggregate_id, "c-1");
}

#[test]
fn loads_concatenation_of_batches() {
    let (t, a) = ids();
    let mut repo = EventRepository::new(StorageStrategy::EventSourced).unwrap();
    assert_eq!(repo.commit(&t, &a, 0, &vec![event("A"), event("B")], None), Ok(2));
    assert_eq!(repo.commit(&t, &a, 2, &vec![], None), Ok(2));
    assert_eq!(repo.commit(&t, &a, 2, &vec![event("C"), event("D"), event("E")], None), Ok(5));
    let all = repo.get_events(&t, &a);
    assert_eq!(types_of(&all), vec!["A", "B", "C", "D", "E"]);
    assert_eq!(sequences_of(&all), vec![1, 2, 3, 4, 5]);
    let tail = repo.get_last_events(&t, &a, 3);
    assert_eq!(sequences_of(&tail), vec![4, 5]);
    assert!(repo.get_last_events(&t, &a, 9).is_empty());
}

#[test]
fn stale_commit_changes_nothing() {
    let (t, a) = ids();
    let mut repo = EventRepository::new(StorageStrategy::EventSourced).unwrap();
    repo.commit(&t, &a, 0, &vec![event("A"), event("B")], None).unwrap();
    assert_eq!(
        repo.commit(&t, &a, 1, &vec![event("X"), event("Y")], None),
        Err(PersistenceError::OptimisticLock)
    );
    assert_eq!(
        repo.commit(&t, &a, 3, &vec![event("X")], None),
        Err(PersistenceError::OptimisticLock)
    );
    assert_eq!(types_of(&repo.get_events(&t, &a)), vec!["A", "B"]);
}

#[test]
fn aggregates_are_independent() {
    let mut repo = EventRepository::new(StorageStrategy::EventSourced).unwrap();
    let t = "Customer".to_string();
    let (a, b) = ("c-1".to_string(), "c-2".to_string());
    repo.commit(&t, &a, 0, &vec![event("A1")], None).unwrap();
    repo.commit(&t, &b, 0, &vec![event("B1"), event("B2")], None).unwrap();
    repo.commit(&t, &a, 1, &vec![event("A2")], None).unwrap();
    assert_eq!(types_of(&repo.get_events(&t, &a)), vec!["A1", "A2"]);
    assert_eq!(types_of(&repo.get_events(&t, &b)), vec!["B1", "B2"]);
    let other_type = "Order".to_string();
    assert!(repo.get_events(&other_type, &a).is_empty());
}

#[test]
fn snapshot_every_five_after_twelve_single_commits() {
    let (t, a) = ids();
    let mut repo = EventRepository::new(StorageStrategy::Snapshot(5)).unwrap();
    for n in 0..12u64 {
        let state = vec![(n + 1) as u8];
        assert_eq!(repo.commit(&t, &a, n, &vec![event("Tick")], Some(state)), Ok(n + 1));
    }
    let loaded = repo.load(&t, &a);
    let snapshot = loaded.snapshot.unwrap();
    assert_eq!(snapshot.current_sequence, 10);
    assert_eq!(snapshot.payload, vec![10]);
    assert_eq!(sequences_of(&loaded.events), vec![11, 12]);
    assert_eq!(repo.get_events(&t, &a).len(), 12);
}

#[test]
fn snapshot_written_when_a_batch_crosses_the_interval() {
    let (t, a) = ids();
    let mut repo = EventRepository::new(StorageStrategy::Snapshot(5)).unwrap();
    repo.commit(&t, &a, 0, &vec![event("A"), event("B"), event("C")], None).unwrap();
    assert!(repo.get_snapshot(&t, &a).is_none());
    let batch = vec![event("D"), event("E"), event("F"), event("G")];
    assert_eq!(repo.commit(&t, &a, 3, &batch, None), Err(PersistenceError::Storage));
    assert_eq!(repo.commit(&t, &a, 3, &batch, Some(vec![7])), Ok(7));
    let loaded = repo.load(&t, &a);
    assert_eq!(loaded.snapshot.unwrap().current_sequence, 7);
    assert!(loaded.events.is_empty());
    assert_eq!(repo.commit(&t, &a, 7, &vec![event("H")], None), Ok(8));
    assert_eq!(sequences_of(&repo.load(&t, &a).events), vec![8]);
}

#[test]
fn aggregate_store_keeps_one_current_record() {
    let (t, a) = ids();
    let mut repo = EventRepository::new(StorageStrategy::AggregateStore).unwrap();
    assert_eq!(repo.commit(&t, &a, 0, &vec![event("A")], None), Err(PersistenceError::Storage));
    repo.commit(&t, &a, 0, &vec![event("A")], Some(vec![1])).unwrap();
    repo.commit(&t, &a, 1, &vec![event("B"), event("C")], Some(vec![3])).unwrap();
    repo.commit(&t, &a, 3, &vec![event("D")], Some(vec![4])).unwrap();
    let loaded = repo.load(&t, &a);
    let record = loaded.snapshot.unwrap();
    assert_eq!(record.current_sequence, 4);
    assert_eq!(record.payload, vec![4]);
    assert!(loaded.events.is_empty());
    assert_eq!(repo.get_events(&t, &a).len(), 4);
}

#[test]
fn load_of_unknown_aggregate_is_empty() {
    let (t, a) = ids();
    for strategy in [StorageStrategy::EventSourced, StorageStrategy::AggregateStore, StorageStrategy::Snapshot(3)] {
        let repo = EventRepository::new(strategy).unwrap();
        assert_eq!(repo.strategy(), strategy);
        let loaded = repo.load(&t, &a);
        assert!(loaded.snapshot.is_none());
        assert!(loaded.events.is_empty());
        assert!(repo.get_snapshot(&t, &a).is_none());
    }
}

#[test]
fn zero_snapshot_interval_is_refused() {
    assert_eq!(
        EventRepository::new(StorageStrategy::Snapshot(0)).err(),
        Some(PersistenceError::Configuration)
    );
    assert_eq!(validate_strategy(StorageStrategy::Snapshot(0)), Err(PersistenceError::Configuration));
    assert_eq!(validate_strategy(StorageStrategy::Snapshot(1)), Ok(()));
    assert_eq!(validate_strategy(StorageStrategy::AggregateStore), Ok(()));
}

#[test]
fn snapshot_due_on_both_sides_of_the_boundary() {
    assert!(!snapshot_due(5, 0, 4));
    assert!(snapshot_due(5, 0, 5));
    assert!(!snapshot_due(5, 5, 9));
    assert!(snapshot_due(5, 7, 10));
    assert!(snapshot_due(5, 3, 12));
    assert!(!snapshot_due(5, 10, 10));
}

#[test]
fn stamp_events_numbers_after_start() {
    let (t, a) = ids();
    let records = stamp_events(&t, &a, 4, &vec![event("X"), event("Y")]);
    assert_eq!(sequences_of(&records), vec![5, 6]);
    assert_eq!(types_of(&records), vec!["X", "Y"]);
    assert_eq!(records[1].payload, b"Y".to_vec());
    assert_eq!(validate_records(&records, &t, &a, 4), Ok(()));
    assert_eq!(validate_records(&records, &t, &a, 3), Err(PersistenceError::Storage));
    let other = "c-9".to_string();
    assert_eq!(validate_records(&records, &t, &other, 4), Err(PersistenceError::Storage));
}

#[test]
fn validate_records_rejects_gaps() {
    let (t, a) = ids();
    let mut records = stamp_events(&t, &a, 0, &vec![event("X"), event("Y"), event("Z")]);
    assert_eq!(validate_records(&records, &t, &a, 0), Ok(()));
    records.remove(1);
    assert_eq!(validate_records(&records, &t, &a, 0), Err(PersistenceError::Storage));
    assert_eq!(validate_records(&vec![], &t, &a, 0), Ok(()));
}

#[test]
fn view_update_versions() {
    let mut views = ViewRepository::new("test_query");
    assert_eq!(views.view_name(), "test_query");
    let id = "v-1".to_string();
    assert!(views.load(&id).is_none());
    assert_eq!(views.update(&id, vec![1], None), Ok(1));
    assert_eq!(views.update(&id, vec![2], None), Err(PersistenceError::OptimisticLock));
    let current = views.load(&id).unwrap();
    assert_eq!(current.version, 1);
    assert_eq!(current.payload, vec![1]);
    assert_eq!(views.update(&id, vec![3], Some(current.version)), Ok(2));
    let after = views.load(&id).unwrap();
    assert_eq!(after.version, 2);
    assert_eq!(after.payload, vec![3]);
    assert_eq!(views.update(&id, vec![4], Some(1)), Err(PersistenceError::OptimisticLock));
}

#[test]
fn views_are_independent() {
    let mut views = ViewRepository::new("q");
    let (a, b) = ("a".to_string(), "b".to_string());
    views.update(&a, vec![1], Some(0)).unwrap();
    views.update(&b, vec![9], None).unwrap();
    views.update(&a, vec![2], Some(1)).unwrap();
    assert_eq!(views.load(&a).unwrap().version, 2);
    assert_eq!(views.load(&b).unwrap().version, 1);
    assert_eq!(views.load(&b).unwrap().payload, vec![9]);
}

#[test]
fn retry_only_on_conflict_within_bound() {
    assert_eq!(next_action(1, 3, Ok(())), RetryAction::Finish);
    assert_eq!(next_action(1, 3, Err(PersistenceError::OptimisticLock)), RetryAction::Retry);
    assert_eq!(next_action(3, 3, Err(PersistenceError::OptimisticLock)), RetryAction::GiveUp);
    assert_eq!(next_action(1, 3, Err(PersistenceError::Storage)), RetryAction::GiveUp);
}

#[test]
fn update_with_derives_payload_from_stored_view() {
    let mut views = ViewRepository::new("counts");
    let id = "v-7".to_string();
    let bump = |prev: Option<Vec<u8>>| -> Vec<u8> {
        match prev {
            Some(mut bytes) => {
                bytes.push(bytes.len() as u8);
                bytes
            }
            None => vec![0],
        }
    };
    assert_eq!(views.update_with(&id, bump, None), Ok(1));
    assert_eq!(views.load(&id).unwrap().payload, vec![0]);
    assert_eq!(views.update_with(&id, bump, None), Err(PersistenceError::OptimisticLock));
    assert_eq!(views.update_with(&id, bump, Some(1)), Ok(2));
    let after = views.load(&id).unwrap();
    assert_eq!(after.version, 2);
    assert_eq!(after.payload, vec![0, 1]);
}
