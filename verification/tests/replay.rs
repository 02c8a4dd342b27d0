use aster::boundary::{EffectRequest, EffectResolution};
use aster::capability::{CapabilityGrant, CapabilityGrants};
use aster::evaluation::MachineError;
use aster::host::duplicate_request;
use aster::json_value::JsonValue;
use aster::machine::{Machine, RunOutcome, StartRequest, Step};
use aster::replay::{RecordedEffect, ReplayError, replay_run};
use aster::{Program, SourceFile, check_source, lower};

const INFERENCE: &str = r#"module inference;
type Message = { text: Untrusted<Text>, };
type Answer = { value: Text, };
capability ModelUse(alias: Text);
prompt Parse(message: Untrusted<Text>) -> Answer {
  instruction """Extract the answer.""";
  data { message, };
}
agent A() requires [ModelUse("planner")] {
  state { seen: Int = 0; }
  budget per_event { model_calls <= 1; model_tokens <= 10; }
  on message(msg: Incoming<Message>) -> Result<Unit, Error> {
    let candidate = (infer Parse(message = msg.value.text) using @planner)?;
    update state { seen = 1; }
    return Ok(Unit);
  }
}
"#;

fn program() -> Program {
    let checked = check_source(&SourceFile::new("inference.aster", INFERENCE)).expect("source checks");
    lower(&checked).expect("source lowers")
}

fn start() -> StartRequest {
    StartRequest {
        agent: "A".to_owned(),
        event: "message".to_owned(),
        event_id: "evt-001".to_owned(),
        event_time: "2026-08-05T12:00:00Z".to_owned(),
        agent_arguments: Vec::new(),
        payload: JsonValue::Object(vec![("text".to_owned(), JsonValue::String("hello".to_owned()))]),
        state: vec![("seen".to_owned(), JsonValue::Int(0))],
        capabilities: CapabilityGrants {
            schema_version: 1,
            grants: vec![CapabilityGrant {
                capability: "ModelUse".to_owned(),
                arguments: vec![JsonValue::String("planner".to_owned())],
            }],
        },
    }
}

fn answer(request: &EffectRequest, text: &str) -> EffectResolution {
    EffectResolution {
        request_hash: request.request_hash.clone(),
        payload: JsonValue::Object(vec![("value".to_owned(), JsonValue::String(text.to_owned()))]),
        actual_usage: vec![("model_tokens".to_owned(), 4)],
    }
}

/// Runs the event once, answering every model request with `text`, and
/// keeps what a recorder would keep.
fn record(text: &str) -> (Vec<RecordedEffect>, RunOutcome) {
    let mut machine = Machine::start(program(), start()).expect("machine starts");
    let mut effects = Vec::new();
    for _ in 0..1000 {
        match machine.step() {
            Step::Continue => {}
            Step::Yield(request) => {
                let maximums = vec![("model_tokens".to_owned(), 10)];
                machine.reserve_pending_usage(&maximums).expect("usage fits");
                let resolution = answer(&request, text);
                machine.supply(&resolution).expect("answer decodes");
                effects.push(RecordedEffect { request: duplicate_request(&request), maximums, resolution });
            }
            Step::Completed(outcome) => return (effects, outcome),
            Step::Failed(error) => panic!("recorded run failed: {error:?}"),
        }
    }
    panic!("recorded run did not finish");
}

#[test]
fn replaying_a_recorded_run_reproduces_its_outcome() {
    let (effects, outcome) = record("yes");
    assert_eq!(effects.len(), 1);
    assert_eq!(
        outcome.state,
        vec![("seen".to_owned(), JsonValue::Int(1))]
    );
    let replayed = replay_run(program(), start(), &effects, &outcome).expect("replay succeeds");
    assert_eq!(replayed.state, outcome.state);
    assert_eq!(replayed.value, outcome.value);
}

#[test]
fn replay_refuses_a_different_recorded_outcome() {
    let (effects, outcome) = record("yes");
    let tampered = RunOutcome { state: Vec::new(), value: outcome.value.duplicate() };
    assert_eq!(
        replay_run(program(), start(), &effects, &tampered),
        Err(ReplayError::OutcomeDivergence)
    );
}

#[test]
fn replay_refuses_missing_or_extra_effects() {
    let (mut effects, outcome) = record("yes");
    assert_eq!(
        replay_run(program(), start(), &Vec::new(), &outcome),
        Err(ReplayError::EffectSequenceMismatch)
    );
    let (extra, _) = record("no");
    effects.extend(extra);
    assert_eq!(
        replay_run(program(), start(), &effects, &outcome),
        Err(ReplayError::EffectSequenceMismatch)
    );
}

#[test]
fn replay_refuses_a_diverging_request() {
    let (mut effects, outcome) = record("yes");
    effects[0].request.identity = "Other".to_owned();
    assert_eq!(
        replay_run(program(), start(), &effects, &outcome),
        Err(ReplayError::RequestDivergence)
    );
}

#[test]
fn replay_reports_a_start_failure_as_the_machine_failure() {
    let (effects, outcome) = record("yes");
    let mut request = start();
    request.agent = "Missing".to_owned();
    assert_eq!(
        replay_run(program(), request, &effects, &outcome),
        Err(ReplayError::Machine(MachineError::UnknownAgent))
    );
}
