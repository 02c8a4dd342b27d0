use aster::authority::AuthorityLedger;
use aster::boundary::{EffectRequest, effect_request};
use aster::budget::{Budget, BudgetDimension};
use aster::capability::{CapabilityGrant, CapabilityGrants};
use aster::evaluation::{EffectKind, MachineError};
use aster::host::{
    AdmittedEffect, ExecutionGrant, HostEffectResolution, HostProtocolError, unsigned_json,
};
use aster::json_value::JsonValue;
use aster::runtime_value::RuntimeValue;
use aster::boundary::EffectResolution;
use aster::machine::{Machine, MachineSnapshot, StartRequest, Step};
use aster::{Program, SourceFile, check_source, lower};
use sha2::Digest;

const SOURCE: &str = r#"module starting;
capability Write(owner: Text);
agent Counter(owner: Text) requires [Write(owner)] {
  state { count: Int = 7; label: Text = owner; }
  budget per_event { external_writes <= 2; model_calls <= 1; }
  on tick(t: Incoming<Int>) -> Result<Unit, Error> {
    return Ok(Unit);
  }
}
"#;

fn program() -> Program {
    let checked = check_source(&SourceFile::new("starting.aster", SOURCE)).expect("source checks");
    lower(&checked).expect("source lowers")
}

fn grants(owner: &str) -> CapabilityGrants {
    CapabilityGrants {
        schema_version: 1,
        grants: vec![CapabilityGrant {
            capability: "Write".to_owned(),
            arguments: vec![JsonValue::String(owner.to_owned())],
        }],
    }
}

fn request() -> StartRequest {
    StartRequest {
        agent: "Counter".to_owned(),
        event: "tick".to_owned(),
        event_id: "evt-001".to_owned(),
        event_time: "2026-08-05T12:00:00Z".to_owned(),
        agent_arguments: vec![("owner".to_owned(), JsonValue::String("user-001".to_owned()))],
        payload: JsonValue::Int(5),
        state: Vec::new(),
        capabilities: grants("user-001"),
    }
}

fn start_error(request: StartRequest) -> MachineError {
    match Machine::start(program(), request) {
        Ok(_) => panic!("start should fail"),
        Err(error) => error,
    }
}

#[test]
fn start_accepts_a_declared_handler_with_granted_capabilities() {
    assert!(Machine::start(program(), request()).is_ok());
    let mut with_state = request();
    with_state.state = vec![("count".to_owned(), JsonValue::Int(3))];
    assert!(Machine::start(program(), with_state).is_ok());
}

#[test]
fn start_checks_the_event_time_before_anything_else() {
    let mut bad = request();
    bad.event_time = "2026-02-30T12:00:00Z".to_owned();
    bad.agent = "Nobody".to_owned();
    assert_eq!(start_error(bad), MachineError::InvalidInstant);
}

#[test]
fn start_rejects_an_unsupported_grant_schema() {
    let mut bad = request();
    bad.capabilities.schema_version = 2;
    assert_eq!(
        start_error(bad),
        MachineError::Capability("capability grant schema mismatch".to_owned())
    );
}

#[test]
fn start_rejects_unknown_agents_and_events() {
    let mut agent = request();
    agent.agent = "Nobody".to_owned();
    assert_eq!(start_error(agent), MachineError::UnknownAgent);
    let mut event = request();
    event.event = "tock".to_owned();
    assert_eq!(start_error(event), MachineError::UnknownEvent);
}

#[test]
fn start_requires_every_agent_argument_and_a_well_typed_payload() {
    let mut missing = request();
    missing.agent_arguments = Vec::new();
    assert_eq!(start_error(missing), MachineError::MissingInput("owner".to_owned()));
    let mut ill_typed = request();
    ill_typed.payload = JsonValue::String("five".to_owned());
    assert!(matches!(start_error(ill_typed), MachineError::TypeMismatch(_)));
}

#[test]
fn start_requires_the_declared_capability_for_the_actual_owner() {
    let mut other = request();
    other.capabilities = grants("user-002");
    assert_eq!(start_error(other), MachineError::MissingCapability);
}

#[test]
fn start_rejects_state_for_undeclared_fields() {
    let mut unknown = request();
    unknown.state = vec![("color".to_owned(), JsonValue::String("red".to_owned()))];
    assert_eq!(start_error(unknown), MachineError::UnknownStateField);
}

fn empty_snapshot(program_hash: &str) -> MachineSnapshot {
    MachineSnapshot {
        schema_version: 1,
        runtime_version: "0.2.0".to_owned(),
        program_hash: program_hash.to_owned(),
        agent: "Counter".to_owned(),
        event: "tick".to_owned(),
        event_id: "evt-001".to_owned(),
        event_time: "2026-08-05T12:00:00Z".to_owned(),
        input_hash: String::new(),
        frames: Vec::new(),
        current_state: Vec::new(),
        pending_state: Vec::new(),
        budget: Budget::new(vec![(BudgetDimension::ModelCalls, 1)]),
        grant_fingerprint: String::new(),
        grant_request_hashes: Vec::new(),
        authority: AuthorityLedger::new(),
        trace_position: 0,
        trace_hash: String::new(),
        pending_effect: None,
        snapshot_hash: String::new(),
    }
}

#[test]
fn restore_requires_the_exact_program() {
    let program = program();
    let hash = program.program_hash.clone();
    assert!(Machine::restore(program, empty_snapshot(&hash)).is_ok());
    assert!(matches!(
        Machine::restore(self::program(), empty_snapshot("another-program")),
        Err(MachineError::ProgramMismatch)
    ));
}

fn model_request() -> EffectRequest {
    let payload = JsonValue::Object(vec![(
        "prompt".to_owned(),
        JsonValue::String("Parse".to_owned()),
    )]);
    effect_request(EffectKind::Model, "Parse".to_owned(), payload).expect("request hashes")
}

fn admitted(maximums: Vec<(String, u64)>) -> AdmittedEffect {
    AdmittedEffect {
        request: model_request(),
        maximums,
        snapshot: empty_snapshot("program"),
        snapshot_hash: "snapshot-hash".to_owned(),
        trace_position: 3,
        trace_hash: "trace-head".to_owned(),
    }
}

#[test]
fn execution_grant_hash_is_the_canonical_binding_of_the_admission() {
    let admitted = admitted(vec![("model_tokens".to_owned(), 100)]);
    let grant = ExecutionGrant::for_admitted("run-1", &admitted).expect("grant hashes");
    let binding = format!(
        "{{\"max_usage\":{{\"model_tokens\":100}},\"protocol_version\":1,\"request_hash\":\"{}\",\"run_id\":\"run-1\",\"snapshot_hash\":\"snapshot-hash\",\"trace_hash\":\"trace-head\",\"trace_position\":3}}",
        admitted.request.request_hash
    );
    assert_eq!(grant.execution_grant_hash, hex::encode(sha2::Sha256::digest(binding.as_bytes())));
    assert_eq!(grant.snapshot_hash, "snapshot-hash");
    assert_eq!(grant.max_usage, vec![("model_tokens".to_owned(), 100)]);
    assert_eq!(grant.request, admitted.request);
}

#[test]
fn execution_grant_binds_the_complete_admitted_effect() {
    let admitted = admitted(vec![("model_tokens".to_owned(), 100)]);
    let grant = ExecutionGrant::for_admitted("run-1", &admitted).expect("grant hashes");
    assert_eq!(grant.validate("run-1", &admitted), Ok(()));
    assert_eq!(grant.validate("run-2", &admitted), Err(HostProtocolError::BindingMismatch));

    let mut changed_request = ExecutionGrant::for_admitted("run-1", &admitted).expect("grant hashes");
    changed_request.request.identity = "SubstitutedPrompt".to_owned();
    assert_eq!(
        changed_request.validate("run-1", &admitted),
        Err(HostProtocolError::BindingMismatch)
    );

    let mut changed_hash = ExecutionGrant::for_admitted("run-1", &admitted).expect("grant hashes");
    changed_hash.execution_grant_hash = "substituted-grant-hash".to_owned();
    assert_eq!(
        changed_hash.validate("run-1", &admitted),
        Err(HostProtocolError::BindingMismatch)
    );
}

#[test]
fn execution_grant_refuses_fixed_usage_dimensions() {
    let admitted = admitted(vec![("external_writes".to_owned(), 1)]);
    assert!(matches!(
        ExecutionGrant::for_admitted("run-1", &admitted),
        Err(HostProtocolError::InvalidUsage)
    ));
}

#[test]
fn actual_usage_must_match_and_fit_the_grant() {
    let admitted = admitted(vec![("model_tokens".to_owned(), 100)]);
    let grant = ExecutionGrant::for_admitted("run-1", &admitted).expect("grant hashes");
    let resolution = |usage: Vec<(String, u64)>| HostEffectResolution {
        request_hash: admitted.request.request_hash.clone(),
        execution_grant_hash: grant.execution_grant_hash.clone(),
        payload: JsonValue::Object(Vec::new()),
        actual_usage: usage,
    };
    assert_eq!(
        resolution(Vec::new()).validate_against("run-1", &admitted, &grant),
        Err(HostProtocolError::InvalidUsage)
    );
    assert_eq!(
        resolution(vec![("model_tokens".to_owned(), 101)]).validate_against("run-1", &admitted, &grant),
        Err(HostProtocolError::InvalidUsage)
    );
    assert_eq!(
        resolution(vec![("money_microunits".to_owned(), 1)]).validate_against("run-1", &admitted, &grant),
        Err(HostProtocolError::InvalidUsage)
    );
    assert_eq!(
        resolution(vec![("external_reads".to_owned(), 1)]).validate_against("run-1", &admitted, &grant),
        Err(HostProtocolError::InvalidUsage)
    );
    let mut wrong_request = resolution(vec![("model_tokens".to_owned(), 100)]);
    wrong_request.request_hash = "other".to_owned();
    assert_eq!(
        wrong_request.validate_against("run-1", &admitted, &grant),
        Err(HostProtocolError::BindingMismatch)
    );
    let exact = resolution(vec![("model_tokens".to_owned(), 100)]);
    assert_eq!(exact.validate_against("run-1", &admitted, &grant), Ok(()));
    let runtime = exact.into_runtime();
    assert_eq!(runtime.actual_usage, vec![("model_tokens".to_owned(), 100)]);
    assert_eq!(runtime.request_hash, admitted.request.request_hash);
    assert_eq!(admitted.request.kind, EffectKind::Model);
}

#[test]
fn unsigned_numbers_beyond_signed_range_keep_their_decimal_spelling() {
    assert_eq!(unsigned_json(42), JsonValue::Int(42));
    assert_eq!(unsigned_json(u64::MAX), JsonValue::OtherNumber("18446744073709551615".to_owned()));
}

fn run_until_suspended_or_done(machine: &mut Machine) -> Step {
    for _ in 0..1000 {
        match machine.step() {
            Step::Continue => {}
            other => return other,
        }
    }
    panic!("machine did not stop");
}

#[test]
fn step_runs_the_handler_to_its_published_outcome() {
    let mut machine = Machine::start(program(), request()).expect("machine starts");
    let outcome = match run_until_suspended_or_done(&mut machine) {
        Step::Completed(outcome) => outcome,
        Step::Failed(error) => panic!("handler failed: {error:?}"),
        _ => panic!("handler suspended"),
    };
    assert_eq!(
        outcome.state,
        vec![
            ("count".to_owned(), JsonValue::Int(7)),
            ("label".to_owned(), JsonValue::String("user-001".to_owned())),
        ]
    );
    match machine.step() {
        Step::Completed(again) => assert_eq!(again.state, outcome.state),
        _ => panic!("a completed machine repeats its outcome"),
    }
}

const INFERENCE: &str = r#"module inference;
type Message = { text: Untrusted<Text>, };
type Answer = { value: Text, };
capability ModelUse(alias: Text);
prompt Parse(message: Untrusted<Text>) -> Answer {
  instruction """Extract the answer.""";
  data { message, };
}
agent A() requires [ModelUse("planner")] {
  state {}
  budget per_event { model_calls <= 1; model_tokens <= 10; }
  on message(msg: Incoming<Message>) -> Result<Unit, Error> {
    let candidate = (infer Parse(message = msg.value.text) using @planner)?;
    return Ok(Unit);
  }
}
"#;

fn inference_machine() -> Machine {
    let checked = check_source(&SourceFile::new("inference.aster", INFERENCE)).expect("source checks");
    let program = lower(&checked).expect("source lowers");
    Machine::start(
        program,
        StartRequest {
            agent: "A".to_owned(),
            event: "message".to_owned(),
            event_id: "evt-001".to_owned(),
            event_time: "2026-08-05T12:00:00Z".to_owned(),
            agent_arguments: Vec::new(),
            payload: JsonValue::Object(vec![(
                "text".to_owned(),
                JsonValue::String("hello".to_owned()),
            )]),
            state: Vec::new(),
            capabilities: CapabilityGrants {
                schema_version: 1,
                grants: vec![CapabilityGrant {
                    capability: "ModelUse".to_owned(),
                    arguments: vec![JsonValue::String("planner".to_owned())],
                }],
            },
        },
    )
    .expect("machine starts")
}

fn model_yield(machine: &mut Machine) -> EffectRequest {
    match run_until_suspended_or_done(machine) {
        Step::Yield(request) => request,
        Step::Failed(error) => panic!("expected model yield, got failure {error:?}"),
        _ => panic!("expected model yield"),
    }
}

#[test]
fn model_response_is_decoded_against_the_prompt_schema() {
    let mut machine = inference_machine();
    let request = model_yield(&mut machine);
    assert_eq!(request.kind, EffectKind::Model);
    assert_eq!(request.identity, "Parse");
    assert_eq!(
        machine.supply(&EffectResolution {
            request_hash: request.request_hash,
            payload: JsonValue::Object(vec![("value".to_owned(), JsonValue::Int(42))]),
            actual_usage: Vec::new(),
        }),
        Err(MachineError::TypeMismatch("Text".to_owned()))
    );
}

#[test]
fn a_suspended_machine_repeats_its_request_until_supplied() {
    let mut machine = inference_machine();
    let request = model_yield(&mut machine);
    match machine.step() {
        Step::Yield(again) => assert_eq!(again, request),
        _ => panic!("a suspended machine repeats its request"),
    }
}

#[test]
fn supply_requires_the_pending_request_and_reserved_usage() {
    let mut machine = Machine::start(program(), request()).expect("machine starts");
    assert_eq!(
        machine.supply(&EffectResolution {
            request_hash: "h".to_owned(),
            payload: JsonValue::Null,
            actual_usage: Vec::new(),
        }),
        Err(MachineError::NoPendingEffect)
    );
    let mut machine = inference_machine();
    let request = model_yield(&mut machine);
    assert_eq!(
        machine.supply(&EffectResolution {
            request_hash: "other".to_owned(),
            payload: JsonValue::Null,
            actual_usage: Vec::new(),
        }),
        Err(MachineError::ResolutionMismatch)
    );
    assert_eq!(
        machine.supply(&EffectResolution {
            request_hash: request.request_hash.clone(),
            payload: JsonValue::Null,
            actual_usage: vec![("model_tokens".to_owned(), 3)],
        }),
        Err(MachineError::UnexpectedUsageDimension)
    );
}

#[test]
fn reserved_usage_is_settled_and_a_decoded_answer_resumes_the_handler() {
    let mut machine = inference_machine();
    let request = model_yield(&mut machine);
    assert_eq!(
        machine.reserve_pending_usage(&vec![("model_tokens".to_owned(), 11)]),
        Err(MachineError::Budget("budget exhausted for ModelTokens".to_owned()))
    );
    assert_eq!(
        machine.reserve_pending_usage(&vec![("wall_clock".to_owned(), 1)]),
        Err(MachineError::UnexpectedUsageDimension)
    );
    assert_eq!(machine.reserve_pending_usage(&vec![("model_tokens".to_owned(), 10)]), Ok(()));
    assert_eq!(
        machine.reserve_pending_usage(&vec![("model_tokens".to_owned(), 0)]),
        Err(MachineError::UsageAlreadyReserved)
    );
    assert_eq!(
        machine.supply(&EffectResolution {
            request_hash: request.request_hash.clone(),
            payload: JsonValue::Object(vec![(
                "value".to_owned(),
                JsonValue::String("yes".to_owned()),
            )]),
            actual_usage: vec![("model_tokens".to_owned(), 4)],
        }),
        Ok(())
    );
    match run_until_suspended_or_done(&mut machine) {
        Step::Completed(outcome) => assert_eq!(outcome.state, Vec::new()),
        Step::Failed(error) => panic!("handler failed: {error:?}"),
        _ => panic!("handler suspended again"),
    }
}

#[test]
fn failed_handler_keeps_state_update_unpublished() {
    let source = r"module atomic.example;
agent A() requires [] {
  state { count: Int = 0; }
  budget per_event {}
  on message(msg: Incoming<Text>) -> Result<Unit, Error> {
    update state { count = 1; }
    require false;
    return Ok(Unit);
  }
}
";
    let checked = check_source(&SourceFile::new("atomic-state.aster", source)).expect("source checks");
    let program = lower(&checked).expect("source lowers");
    let mut machine = Machine::start(
        program,
        StartRequest {
            agent: "A".to_owned(),
            event: "message".to_owned(),
            event_id: "evt-001".to_owned(),
            event_time: "2026-08-05T12:00:00Z".to_owned(),
            agent_arguments: Vec::new(),
            payload: JsonValue::String("go".to_owned()),
            state: vec![("count".to_owned(), JsonValue::Int(0))],
            capabilities: CapabilityGrants { schema_version: 1, grants: Vec::new() },
        },
    )
    .expect("machine starts");
    match run_until_suspended_or_done(&mut machine) {
        Step::Failed(error) => assert_eq!(error, MachineError::RequirementFailed),
        _ => panic!("expected controlled requirement failure"),
    }
    match machine.step() {
        Step::Failed(error) => assert_eq!(error, MachineError::RequirementFailed),
        _ => panic!("a failed machine repeats its failure"),
    }
    let continuation = machine.continuation();
    assert!(matches!(
        continuation.current_state.as_slice(),
        [(name, RuntimeValue::Int(0))] if name.as_str() == "count"
    ));
    assert!(matches!(
        continuation.pending_state.as_slice(),
        [(name, RuntimeValue::Int(1))] if name.as_str() == "count"
    ));
}

#[test]
fn missing_exact_runtime_capability_is_rejected_at_admission() {
    let checked = check_source(&SourceFile::new("inference.aster", INFERENCE)).expect("source checks");
    let program = lower(&checked).expect("source lowers");
    let result = Machine::start(
        program,
        StartRequest {
            agent: "A".to_owned(),
            event: "message".to_owned(),
            event_id: "evt-001".to_owned(),
            event_time: "2026-08-05T12:00:00Z".to_owned(),
            agent_arguments: Vec::new(),
            payload: JsonValue::Object(vec![(
                "text".to_owned(),
                JsonValue::String("hello".to_owned()),
            )]),
            state: Vec::new(),
            capabilities: CapabilityGrants {
                schema_version: 1,
                grants: vec![CapabilityGrant {
                    capability: "ModelUse".to_owned(),
                    arguments: vec![JsonValue::String("other-model".to_owned())],
                }],
            },
        },
    );
    match result {
        Err(error) => assert_eq!(error, MachineError::MissingCapability),
        Ok(_) => panic!("out-of-scope grant must fail before any effect exists"),
    }
}
