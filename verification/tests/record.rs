use aster::boundary::EffectResolution;
use aster::capability::{CapabilityGrant, CapabilityGrants};
use aster::evaluation::{EffectKind, MachineError};
use aster::fixture::{FixtureDriver, FixtureEntry, FixtureSet};
use aster::json_value::JsonValue;
use aster::machine::{RunOutcome, StartRequest};
use aster::record::{
    DecodedEffect, RecordProgress, RecordSession, RunError, record_run, replay_trace, run_identity,
};
use aster::replay::ReplayError;
use aster::trace::{Trace, TraceError};
use aster::{Program, SourceFile, check_source, lower};

const SOURCE: &str = r#"module recorded;
type Message = { text: Untrusted<Text>, };
type Answer = { value: Text, };
capability ModelUse(alias: Text);
prompt Parse(message: Untrusted<Text>) -> Answer {
  instruction """Extract the answer.""";
  data { message, };
}
agent A() requires [ModelUse("planner")] {
  state { seen: Int = 0; }
  budget per_event { model_calls <= 1; model_tokens <= 10; }
  on message(msg: Incoming<Message>) -> Result<Unit, Error> {
    let candidate = (infer Parse(message = msg.value.text) using @planner)?;
    update state { seen = 1; }
    return Ok(Unit);
  }
}
"#;

fn program_from(text: &str) -> Program {
    let checked = check_source(&SourceFile::new("recorded.aster", text)).expect("source checks");
    lower(&checked).expect("source lowers")
}

fn program() -> Program {
    program_from(SOURCE)
}

fn start() -> StartRequest {
    StartRequest {
        agent: "A".to_owned(),
        event: "message".to_owned(),
        event_id: "evt-001".to_owned(),
        event_time: "2026-08-05T12:00:00Z".to_owned(),
        agent_arguments: Vec::new(),
        payload: JsonValue::Object(vec![("text".to_owned(), JsonValue::String("hello".to_owned()))]),
        state: vec![("seen".to_owned(), JsonValue::Int(0))],
        capabilities: CapabilityGrants {
            schema_version: 1,
            grants: vec![CapabilityGrant {
                capability: "ModelUse".to_owned(),
                arguments: vec![JsonValue::String("planner".to_owned())],
            }],
        },
    }
}

fn driver() -> FixtureDriver {
    FixtureDriver::new(FixtureSet {
        schema_version: 1,
        entries: vec![FixtureEntry {
            kind: EffectKind::Model,
            identity: "Parse".to_owned(),
            match_request: JsonValue::Object(vec![(
                "model_alias".to_owned(),
                JsonValue::String("planner".to_owned()),
            )]),
            response: JsonValue::Object(vec![("value".to_owned(), JsonValue::String("yes".to_owned()))]),
            max_usage: vec![("model_tokens".to_owned(), 5)],
            actual_usage: vec![("model_tokens".to_owned(), 3)],
        }],
    })
    .expect("fixtures are valid")
}

/// What a reader of the trace decodes from its `effect_resolved` entries.
fn decoded(trace: &Trace) -> Vec<DecodedEffect> {
    trace
        .entries
        .iter()
        .filter(|entry| entry.kind == "effect_resolved")
        .map(|entry| {
            let value: serde_json::Value = serde_json::from_str(&entry.payload).expect("payload is JSON");
            DecodedEffect {
                maximums: vec![("model_tokens".to_owned(), 5)],
                resolution: EffectResolution {
                    request_hash: value["request_hash"].as_str().expect("hash").to_owned(),
                    payload: JsonValue::Object(vec![(
                        "value".to_owned(),
                        JsonValue::String(value["payload"]["value"].as_str().expect("value").to_owned()),
                    )]),
                    actual_usage: vec![(
                        "model_tokens".to_owned(),
                        value["actual_usage"]["model_tokens"].as_u64().expect("usage"),
                    )],
                },
            }
        })
        .collect()
}

fn recorded() -> (RunOutcome, Trace) {
    let mut driver = driver();
    record_run(program(), start(), "run-1", &mut driver).expect("run records")
}

#[test]
fn recording_traces_header_request_reservation_resolution_and_outcome() {
    let (outcome, trace) = recorded();
    let kinds: Vec<&str> = trace.entries.iter().map(|entry| entry.kind.as_str()).collect();
    assert_eq!(
        kinds,
        vec!["run_header", "effect_requested", "budget_reserved", "effect_resolved", "run_completed"]
    );
    assert_eq!(trace.verify(), Ok(()));
    assert_eq!(outcome.state, vec![("seen".to_owned(), JsonValue::Int(1))]);
    assert_eq!(trace.entries[2].payload, r#"{"variable_maximums":{"model_tokens":5}}"#);
    assert_eq!(
        trace.entries[4].payload,
        format!(
            "{{\"state\":{{\"seen\":1}},\"value\":{}}}",
            aster::json_value::canonical_json(&outcome.value)
        )
    );
}

#[test]
fn driver_free_replay_of_a_recording_reproduces_its_state() {
    let (outcome, trace) = recorded();
    let replayed = replay_trace(program(), start(), &trace, &decoded(&trace)).expect("replay succeeds");
    assert_eq!(replayed, outcome);
}

#[test]
fn replay_rejects_changed_input_before_effects() {
    let (_, trace) = recorded();
    let mut changed = start();
    changed.event_id = "evt-other".to_owned();
    assert_eq!(
        replay_trace(program(), changed, &trace, &decoded(&trace)),
        Err(ReplayError::FingerprintMismatch)
    );
    let mut changed_state = start();
    changed_state.state = vec![("seen".to_owned(), JsonValue::Int(5))];
    assert_eq!(
        replay_trace(program(), changed_state, &trace, &decoded(&trace)),
        Err(ReplayError::FingerprintMismatch)
    );
}

#[test]
fn replay_rejects_a_modified_program() {
    let (_, trace) = recorded();
    let other = program_from(&SOURCE.replace("update state { seen = 1; }", "update state { seen = 2; }"));
    assert_eq!(
        replay_trace(other, start(), &trace, &decoded(&trace)),
        Err(ReplayError::FingerprintMismatch)
    );
}

#[test]
fn replay_rejects_a_tampered_entry_through_the_hash_chain() {
    let (_, mut trace) = recorded();
    trace.entries[4].payload = r#"{"state":{"seen":9},"value":null}"#.to_owned();
    assert_eq!(
        replay_trace(program(), start(), &trace, &decoded(&trace)),
        Err(ReplayError::Trace(TraceError::HashMismatch { sequence: 4 }))
    );
}

#[test]
fn replay_rejects_answers_other_than_the_recorded_ones() {
    let (_, trace) = recorded();
    let mut effects = decoded(&trace);
    effects[0].resolution.payload =
        JsonValue::Object(vec![("value".to_owned(), JsonValue::String("no".to_owned()))]);
    assert_eq!(
        replay_trace(program(), start(), &trace, &effects),
        Err(ReplayError::ResolutionDivergence)
    );
    let mut effects = decoded(&trace);
    effects[0].maximums = vec![("model_tokens".to_owned(), 6)];
    assert_eq!(
        replay_trace(program(), start(), &trace, &effects),
        Err(ReplayError::BudgetDivergence)
    );
    assert_eq!(
        replay_trace(program(), start(), &trace, &Vec::new()),
        Err(ReplayError::EffectSequenceMismatch)
    );
}

#[test]
fn exhausted_model_budget_rejects_before_driver_invocation() {
    let program = program_from(&SOURCE.replace("model_calls <= 1", "model_calls <= 0"));
    let mut driver = driver();
    assert!(matches!(
        record_run(program, start(), "run-1", &mut driver),
        Err(RunError::Machine(MachineError::Budget(_)))
    ));
    assert_eq!(driver.call_count(EffectKind::Model), 0);
}

#[test]
fn record_session_requires_reservation_before_resolution() {
    let mut session = RecordSession::start(program(), start(), "run-1").expect("session starts");
    let request = match session.progress() {
        Ok(RecordProgress::AwaitingAdmission(request)) => request,
        other => panic!("expected a request, got {other:?}"),
    };
    let resolution = EffectResolution {
        request_hash: request.request_hash.clone(),
        payload: JsonValue::Object(vec![("value".to_owned(), JsonValue::String("yes".to_owned()))]),
        actual_usage: Vec::new(),
    };
    assert_eq!(session.resolve(&resolution), Err(RunError::SessionPhase));
    assert_eq!(session.trace().entries.len(), 2);
    assert_eq!(session.reserve_usage(&Vec::new()), Ok(()));
    assert_eq!(session.resolve(&resolution), Ok(()));
    match session.progress() {
        Ok(RecordProgress::Completed(outcome)) => {
            assert_eq!(outcome.state, vec![("seen".to_owned(), JsonValue::Int(1))])
        }
        other => panic!("expected completion, got {other:?}"),
    }
    assert_eq!(session.trace().entries.len(), 5);
}

#[test]
fn run_identity_names_program_and_input() {
    let program = program();
    let first = run_identity(&program, &start());
    assert_eq!(first.len(), 64);
    assert!(first.bytes().all(|byte| byte.is_ascii_digit() || (b'a'..=b'f').contains(&byte)));
    assert_eq!(first, run_identity(&program, &start()));
    let mut other = start();
    other.event_id = "evt-002".to_owned();
    assert_ne!(first, run_identity(&program, &other));
}
