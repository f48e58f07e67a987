use mutant_pipeline::backoff::backoff_delay;
use mutant_pipeline::batch::apply_batch;
use mutant_pipeline::cli::{AddMutant, Payload, ReadMutant};
use mutant_pipeline::codec::{deserialize, serialize, DecodeError};
use mutant_pipeline::ledger::{checksum, ApplyOutcome, Ledger, Store, StoreWriteError};
use mutant_pipeline::publisher::{after_send, is_retryable, PublishAction, PublishError, RetryPolicy};
use mutant_pipeline::record::{validate, Record, ValidationError};
use mutant_pipeline::worker::{high_offset, CommitMarker, Worker, WorkerAction, WorkerEvent, WorkerState};

fn attrs(pairs: &[(&str, &str)]) -> Vec<(String, String)> {
    pairs.iter().map(|(k, v)| (k.to_string(), v.to_string())).collect()
}

fn rec(key: &str, pairs: &[(&str, &str)]) -> Record {
    validate(key.to_string(), attrs(pairs)).unwrap()
}

fn at(key: &str, pairs: &[(&str, &str)], offset: u64) -> Record {
    let mut r = rec(key, pairs);
    r.origin_offset = Some(offset);
    r
}

fn policy() -> RetryPolicy {
    RetryPolicy { max_attempts: 3, base_ms: 100, cap_ms: 1000 }
}

#[test]
fn validate_rejects_empty_key() {
    let r = validate(String::new(), attrs(&[("a", "1")]));
    assert!(matches!(r, Err(ValidationError::EmptyKey)));
}

#[test]
fn validate_rejects_empty_attributes() {
    let r = validate("k".to_string(), Vec::new());
    assert!(matches!(r, Err(ValidationError::EmptyAttributes)));
}

#[test]
fn validate_keeps_fields() {
    let r = rec("k", &[("b", "2"), ("a", "1")]);
    assert_eq!(r.key, "k");
    assert_eq!(r.attributes, attrs(&[("b", "2"), ("a", "1")]));
    assert_eq!(r.origin_offset, None);
}

#[test]
fn serialize_writes_document() {
    let r = rec("alice", &[("name", "Alice"), ("last_name", "Doe")]);
    assert_eq!(
        serialize(&r),
        "{\"key\":\"alice\",\"attributes\":{\"name\":\"Alice\",\"last_name\":\"Doe\"}}"
    );
}

#[test]
fn serialize_escapes_quote_and_backslash() {
    let r = rec("a\"b", &[("p\\q", "x\"y")]);
    assert_eq!(
        serialize(&r),
        "{\"key\":\"a\\\"b\",\"attributes\":{\"p\\\\q\":\"x\\\"y\"}}"
    );
}

#[test]
fn round_trip_plain() {
    let r = rec("alice", &[("name", "Alice"), ("last_name", "Doe"), ("address", "1 Main St")]);
    let back = deserialize(&serialize(&r)).unwrap();
    assert_eq!(back.key, r.key);
    assert_eq!(back.attributes, r.attributes);
    assert_eq!(back.origin_offset, None);
}

#[test]
fn round_trip_escapes_and_unicode() {
    let r = rec("ké\"y\\", &[("\"", "\\"), ("ünï", "日本"), ("e", "")]);
    let back = deserialize(&serialize(&r)).unwrap();
    assert_eq!(back.key, r.key);
    assert_eq!(back.attributes, r.attributes);
}

#[test]
fn deserialize_rejects_malformed() {
    let cases = [
        "",
        "{}",
        "{\"key\":\"k\",\"attributes\":{}}",
        "{\"key\":\"\",\"attributes\":{\"a\":\"1\"}}",
        "{\"key\":\"k\",\"attributes\":{\"a\":\"1\"}}x",
        "{\"key\":\"k\",\"attributes\":{\"a\":\"1\"}",
        "{\"key\":\"k\\n\",\"attributes\":{\"a\":\"1\"}}",
        "{\"key\":\"k\",\"attributes\":{\"a\":\"1\";\"b\":\"2\"}}",
        "{\"key\": \"k\",\"attributes\":{\"a\":\"1\"}}",
    ];
    for c in cases {
        assert!(matches!(deserialize(c), Err(DecodeError::Malformed)), "{}", c);
    }
}

#[test]
fn deserialize_reads_several_pairs() {
    let r = deserialize("{\"key\":\"k\",\"attributes\":{\"a\":\"1\",\"b\":\"\\\\\"}}").unwrap();
    assert_eq!(r.key, "k");
    assert_eq!(r.attributes, attrs(&[("a", "1"), ("b", "\\")]));
}

#[test]
fn checksum_exact_values() {
    assert_eq!(checksum(&attrs(&[("a", "1")])), 3388634768587426629);
    assert_eq!(checksum(&attrs(&[("a", "2")])), 3385694674494158090);
}

#[test]
fn apply_twice_is_applied_then_skipped() {
    let mut ledger = Ledger::new();
    let mut store = Store::new();
    let r = rec("k", &[("a", "1")]);
    assert_eq!(ledger.try_apply(&mut store, &r, 10), ApplyOutcome::Applied);
    assert_eq!(ledger.try_apply(&mut store, &r, 20), ApplyOutcome::Skipped);
    assert_eq!(store.count_key(&"k".to_string()), 1);
    assert_eq!(store.rows.len(), 1);
    assert_eq!(ledger.entries.len(), 1);
    assert_eq!(ledger.entries[0].applied_at, 10);
}

#[test]
fn same_key_other_content_is_conflict() {
    let mut ledger = Ledger::new();
    let mut store = Store::new();
    let r1 = rec("k", &[("a", "1")]);
    let r2 = rec("k", &[("a", "2")]);
    assert_eq!(ledger.try_apply(&mut store, &r1, 1), ApplyOutcome::Applied);
    assert_eq!(ledger.check(&r2), ApplyOutcome::Conflict);
    assert_eq!(ledger.try_apply(&mut store, &r2, 2), ApplyOutcome::Conflict);
    assert_eq!(store.rows.len(), 1);
    assert_eq!(store.rows[0].attributes, attrs(&[("a", "1")]));
    assert_eq!(store.rows[0].checksum, 3388634768587426629);
}

#[test]
fn replayed_batch_is_skipped() {
    let mut ledger = Ledger::new();
    let mut store = Store::new();
    let batch = vec![
        at("k1", &[("a", "1")], 0),
        at("k2", &[("a", "2")], 1),
        at("k3", &[("a", "3")], 2),
    ];
    let first = apply_batch(&mut ledger, &mut store, &batch, 5);
    assert_eq!(first, vec![ApplyOutcome::Applied; 3]);
    let second = apply_batch(&mut ledger, &mut store, &batch, 6);
    assert_eq!(second, vec![ApplyOutcome::Skipped; 3]);
    assert_eq!(store.rows.len(), 3);
    assert_eq!(ledger.entries.len(), 3);
}

#[test]
fn conflict_in_batch_does_not_stop_it() {
    let mut ledger = Ledger::new();
    let mut store = Store::new();
    let batch = vec![at("k", &[("a", "1")], 0), at("k", &[("a", "2")], 1), at("m", &[("a", "3")], 2)];
    let out = apply_batch(&mut ledger, &mut store, &batch, 1);
    assert_eq!(out, vec![ApplyOutcome::Applied, ApplyOutcome::Conflict, ApplyOutcome::Applied]);
    let again = apply_batch(&mut ledger, &mut store, &batch, 2);
    assert_eq!(again, vec![ApplyOutcome::Skipped, ApplyOutcome::Conflict, ApplyOutcome::Skipped]);
    assert_eq!(store.rows.len(), 2);
}

#[test]
fn batch_applied_in_order() {
    let mut ledger = Ledger::new();
    let mut store = Store::new();
    let batch = vec![at("k1", &[("a", "1")], 7), at("k2", &[("a", "2")], 8), at("k3", &[("a", "3")], 9)];
    apply_batch(&mut ledger, &mut store, &batch, 3);
    let keys: Vec<&str> = store.rows.iter().map(|r| r.key.as_str()).collect();
    assert_eq!(keys, vec!["k1", "k2", "k3"]);
    let lkeys: Vec<&str> = ledger.entries.iter().map(|e| e.key.as_str()).collect();
    assert_eq!(lkeys, vec!["k1", "k2", "k3"]);
}

#[test]
fn end_to_end_alice() {
    let r = rec("alice", &[("name", "Alice"), ("last_name", "Doe"), ("address", "1 Main St")]);
    let payload = Payload::from_record(&r);
    assert_eq!(payload.key, "alice");
    let mut received = deserialize(&payload.payload).unwrap();
    received.origin_offset = Some(42);
    let batch = vec![received];

    let mut worker = Worker::new(policy());
    let mut ledger = Ledger::new();
    let mut store = Store::new();
    let mut marker = CommitMarker::new("fresh".to_string(), 0);
    assert_eq!(worker.handle(WorkerEvent::Tick), WorkerAction::Fetch);
    assert_eq!(worker.handle(WorkerEvent::Fetched(high_offset(&batch))), WorkerAction::Apply);
    let out = apply_batch(&mut ledger, &mut store, &batch, 1_700_000_000);
    assert_eq!(out, vec![ApplyOutcome::Applied]);
    let a = worker.handle(WorkerEvent::BatchDone);
    assert_eq!(a, WorkerAction::Commit(42));
    if let WorkerAction::Commit(o) = a {
        marker.advance(o);
    }
    assert_eq!(worker.handle(WorkerEvent::CommitOk), WorkerAction::Wait);
    assert_eq!(worker.committed, Some(42));
    assert_eq!(marker.offset, Some(42));
    assert_eq!(store.rows.len(), 1);
    assert_eq!(
        store.rows[0].attributes,
        attrs(&[("name", "Alice"), ("last_name", "Doe"), ("address", "1 Main St")])
    );
    assert_eq!(store.rows[0].applied_at, 1_700_000_000);
}

#[test]
fn add_mutant_record_and_metadata() {
    let cmd = AddMutant { name: "n".to_string(), last_name: "l".to_string(), address: "a".to_string() };
    let r = cmd.to_record().unwrap();
    assert_eq!(r.key, "n");
    assert_eq!(r.attributes, attrs(&[("name", "n"), ("last_name", "l"), ("address", "a")]));
    assert_eq!(cmd.broker(), "localhost:9092");
    assert_eq!(cmd.topic(), "mutants");
    let read = ReadMutant { group_id: "g".to_string() };
    assert_eq!(read.broker(), "localhost:9092");
    assert_eq!(read.topic(), "mutants");
    let empty = AddMutant { name: String::new(), last_name: "l".to_string(), address: "a".to_string() };
    assert!(matches!(empty.to_record(), Err(ValidationError::EmptyKey)));
}

#[test]
fn backoff_doubles_and_caps() {
    assert_eq!(backoff_delay(100, 0, 1000), 100);
    assert_eq!(backoff_delay(100, 1, 1000), 200);
    assert_eq!(backoff_delay(100, 3, 1000), 800);
    assert_eq!(backoff_delay(100, 4, 1000), 1000);
    assert_eq!(backoff_delay(100, 40, 1000), 1000);
    assert_eq!(backoff_delay(u64::MAX, 2, u64::MAX), u64::MAX);
}

#[test]
fn publish_decisions() {
    let p = policy();
    assert_eq!(after_send(p, 0, Ok(5)), PublishAction::Delivered(5));
    assert_eq!(after_send(p, 0, Err(PublishError::Timeout)), PublishAction::Retry(100));
    assert_eq!(after_send(p, 1, Err(PublishError::ConnectionFailed)), PublishAction::Retry(200));
    assert_eq!(after_send(p, 2, Err(PublishError::Timeout)), PublishAction::Fail(PublishError::Timeout));
    assert_eq!(after_send(p, 0, Err(PublishError::Rejected)), PublishAction::Fail(PublishError::Rejected));
    assert!(is_retryable(PublishError::Timeout));
    assert!(!is_retryable(PublishError::Rejected));
}

#[test]
fn worker_commit_retries_then_stops() {
    let mut w = Worker::new(policy());
    w.handle(WorkerEvent::Tick);
    w.handle(WorkerEvent::Fetched(Some(9)));
    assert_eq!(w.handle(WorkerEvent::BatchDone), WorkerAction::Commit(9));
    assert_eq!(w.handle(WorkerEvent::CommitTransient), WorkerAction::RetryCommit(9, 100));
    assert_eq!(w.handle(WorkerEvent::CommitTransient), WorkerAction::RetryCommit(9, 200));
    assert_eq!(w.handle(WorkerEvent::CommitTransient), WorkerAction::Stop);
    assert_eq!(w.state, WorkerState::Stopped);
    assert_eq!(w.handle(WorkerEvent::Tick), WorkerAction::Stop);
    assert_eq!(w.committed, None);
}

#[test]
fn worker_store_failure_skips_commit() {
    let mut w = Worker::new(policy());
    w.handle(WorkerEvent::Tick);
    w.handle(WorkerEvent::Fetched(Some(3)));
    assert_eq!(w.handle(WorkerEvent::StoreFailed), WorkerAction::Wait);
    assert_eq!(w.state, WorkerState::Idle);
    assert_eq!(w.committed, None);
    assert_eq!(w.handle(WorkerEvent::Tick), WorkerAction::Fetch);
    assert_eq!(w.handle(WorkerEvent::Fetched(None)), WorkerAction::Wait);
    assert_eq!(w.handle(WorkerEvent::Tick), WorkerAction::Fetch);
    assert_eq!(w.handle(WorkerEvent::BusFailed), WorkerAction::Stop);
}

#[test]
fn worker_cancel_lets_commit_finish() {
    let mut w = Worker::new(policy());
    w.handle(WorkerEvent::Tick);
    w.handle(WorkerEvent::Fetched(Some(4)));
    assert_eq!(w.handle(WorkerEvent::Cancel), WorkerAction::Wait);
    assert_eq!(w.state, WorkerState::Applying);
    assert_eq!(w.handle(WorkerEvent::BatchDone), WorkerAction::Commit(4));
    assert_eq!(w.handle(WorkerEvent::CommitOk), WorkerAction::Wait);
    assert_eq!(w.committed, Some(4));
    assert_eq!(w.handle(WorkerEvent::Tick), WorkerAction::Stop);
    assert_eq!(w.state, WorkerState::Stopped);
}

#[test]
fn commit_position_never_goes_back() {
    let mut w = Worker::new(policy());
    for (h, expect) in [(10u64, 10u64), (4, 10), (12, 12)] {
        w.handle(WorkerEvent::Tick);
        w.handle(WorkerEvent::Fetched(Some(h)));
        w.handle(WorkerEvent::BatchDone);
        w.handle(WorkerEvent::CommitOk);
        assert_eq!(w.committed, Some(expect));
    }
    let mut m = CommitMarker::new("g".to_string(), 2);
    m.advance(8);
    m.advance(3);
    assert_eq!(m.offset, Some(8));
    assert_eq!(m.partition, 2);
    assert_eq!(m.group_id, "g");
}

#[test]
fn high_offset_of_batch() {
    assert_eq!(high_offset(&Vec::new()), None);
    let b = vec![at("a", &[("x", "1")], 5), rec("b", &[("x", "1")]), at("c", &[("x", "1")], 3)];
    assert_eq!(high_offset(&b), Some(5));
}

#[test]
fn failed_store_write_is_not_ledgered() {
    let mut ledger = Ledger::new();
    let r = rec("k", &[("a", "1")]);
    assert_eq!(ledger.check(&r), ApplyOutcome::Applied);
    assert_eq!(ledger.finish_apply(&r, 3, Err(StoreWriteError::Failed)), Err(StoreWriteError::Failed));
    assert_eq!(ledger.entries.len(), 0);
    assert_eq!(ledger.check(&r), ApplyOutcome::Applied);
    assert_eq!(ledger.finish_apply(&r, 4, Ok(())), Ok(ApplyOutcome::Applied));
    assert_eq!(ledger.entries[0].applied_at, 4);
    assert_eq!(ledger.entries[0].checksum, 3388634768587426629);
    assert_eq!(ledger.check(&r), ApplyOutcome::Skipped);
}
