use aster::trace::{Trace, TraceError};

fn canonical(text: &str) -> String {
    let value: serde_json::Value = serde_json::from_str(text).expect("fixture is JSON");
    serde_json::to_string(&value).expect("value serializes")
}

#[test]
fn canonical_json_and_trace_chain_are_deterministic_and_tamper_evident() {
    let left = canonical("{\"z\": 1, \"a\": {\"d\": 2, \"b\": 1}}");
    let right = canonical("{\"a\": {\"b\": 1, \"d\": 2}, \"z\": 1}");
    assert_eq!(left, right);

    let mut trace = Trace::new("run-001");
    trace.append("event_received", &left).unwrap();
    trace.append("run_completed", &canonical("{\"ok\": true}")).unwrap();
    trace.verify().expect("original chain verifies");
    trace.entries[0].payload = canonical("{\"tampered\": true}");
    assert_eq!(trace.verify(), Err(TraceError::HashMismatch { sequence: 0 }));
}

#[test]
fn trace_entries_link_to_their_predecessor() {
    let mut trace = Trace::new("run-002");
    assert_eq!(trace.checkpoint(), Ok((0, String::new())));
    trace.append("a", "{}").unwrap();
    trace.append("b", "[1,2]").unwrap();
    assert_eq!(trace.entries[0].previous_entry_hash, "");
    assert_eq!(trace.entries[1].previous_entry_hash, trace.entries[0].entry_hash);
    assert_eq!(trace.entries[1].sequence, 1);
    assert_eq!(trace.entries[0].entry_hash.len(), 64);
    assert_eq!(
        trace.checkpoint(),
        Ok((2, trace.entries[1].entry_hash.clone()))
    );

    let mut relinked = trace.clone();
    relinked.entries[1].previous_entry_hash = "0".repeat(64);
    assert_eq!(relinked.verify(), Err(TraceError::LinkMismatch { sequence: 1 }));

    let mut renumbered = trace.clone();
    renumbered.entries[1].sequence = 5;
    assert_eq!(renumbered.verify(), Err(TraceError::MetadataMismatch { sequence: 1 }));

    let mut foreign = trace.clone();
    foreign.run_id = "run-003".to_owned();
    assert_eq!(foreign.verify(), Err(TraceError::MetadataMismatch { sequence: 0 }));
}

#[test]
fn json_lines_round_trip_through_decoded_entries() {
    let mut trace = Trace::new("run-004");
    trace.append("event_received", "{\"id\":\"e\\\"1\"}").unwrap();
    trace.append("run_completed", "true").unwrap();
    let lines = trace.to_json_lines().expect("valid chain encodes");
    assert_eq!(lines.lines().count(), 2);
    let first: serde_json::Value =
        serde_json::from_str(lines.lines().next().unwrap()).expect("line is JSON");
    assert_eq!(first["kind"], "event_received");
    assert_eq!(first["sequence"], 0);
    assert_eq!(first["payload"]["id"], "e\"1");
    assert_eq!(first["entry_hash"], trace.entries[0].entry_hash.as_str());
    assert_eq!(serde_json::to_string(&first).unwrap(), lines.lines().next().unwrap());

    let rebuilt = Trace::from_entries(trace.entries.clone()).expect("entries verify");
    assert_eq!(rebuilt, trace);
    assert_eq!(Trace::from_entries(Vec::new()), Err(TraceError::Empty));
}
