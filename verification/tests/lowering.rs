use aster::boundary::EffectResolution;
use aster::capability::{CapabilityGrant, CapabilityGrants};
use aster::evaluation::{EffectKind, MachineError};
use aster::ir::{InstructionKind, Stage};
use aster::json_value::JsonValue;
use aster::machine::{Machine, StartRequest, Step};
use aster::{Program, ProgramError, SourceFile, check_source, lower};

const GOVERNED: &str = r#"module governed;
type Note = { id: Text, };
capability Read(owner: Text);
capability Write(owner: Text);
tool Store.get(owner: Text) -> Note {
  mode read;
  capability Read(owner);
  sensitivity internal;
}
tool Store.put(owner: Text, key: Text) -> Note {
  mode write;
  capability Write(owner);
  risk reversible;
  idempotency key;
  sensitivity internal;
}
validator Matches(receipt: Note, observed: Note) {
  require receipt.id == observed.id;
}
policy Direct(proposal: Proposal<Store.put>) {
  allow otherwise;
}
agent Writer(owner: Text) requires [Read(owner), Write(owner)] {
  state {}
  budget per_event { external_reads <= 1; external_writes <= 1; }
  on message(msg: Incoming<Text>) -> Result<Unit, Error> {
    let purpose = intent Save { actor = owner; beneficiary = owner; basis = [provenance(msg)]; expected = "saved"; expires_at = add_seconds(event.time, 60); };
    let proposal = propose Store.put(owner = owner, key = event.id) for purpose;
    let permit = (authorize proposal using Direct)?;
    let receipt = (commit proposal with permit)?;
    let observed = (observe Store.get(owner = owner))?;
    let reconciled = (reconcile receipt against observed with Matches)?;
    return Ok(Unit);
  }
}
"#;

fn lowered(name: &str, text: &str) -> Program {
    let checked = check_source(&SourceFile::new(name, text)).expect("source checks");
    lower(&checked).expect("source lowers")
}

#[test]
fn source_control_flow_lowers_to_explicit_branch_targets() {
    // Catches recursive AST execution hidden behind the IR boundary.
    let source = SourceFile::new(
        "branch.aster",
        r"module branch;
fn choose(flag: Bool) -> Unit {
  if flag { return Unit; } else { return Unit; };
  return Unit;
}
",
    );
    let checked = check_source(&source).expect("branch program checks");
    let program = lower(&checked).expect("branch program lowers");
    let routine = program.routine("choose").expect("routine exists");

    assert!(
        routine
            .instructions
            .iter()
            .any(|instruction| matches!(instruction.kind, InstructionKind::Branch { .. }))
    );
    assert!(
        routine
            .instructions
            .iter()
            .any(|instruction| matches!(instruction.kind, InstructionKind::Jump { .. }))
    );
}

#[test]
fn lowering_is_deterministic_with_stable_ids_and_hashes() {
    let first = lowered("governed.aster", GOVERNED);
    let second = lowered("governed.aster", GOVERNED);
    assert_eq!(first, second);
    assert_eq!(first.program_hash.len(), 64);
    assert_eq!(first.source_hash.len(), 64);
    assert_eq!(first.module_name, "governed");
    assert_eq!(first.compiler_version, "0.2.0");
    let handler = first.handler("Writer", "message").expect("handler exists");
    for (index, instruction) in handler.instructions.iter().enumerate() {
        assert_eq!(instruction.id.index(), u32::try_from(index).unwrap());
    }
}

#[test]
fn governed_write_stages_are_explicit_and_ordered() {
    let program = lowered("governed.aster", GOVERNED);
    let handler = program.handler("Writer", "message").unwrap();
    let stages: Vec<_> = handler
        .instructions
        .iter()
        .filter_map(|instruction| instruction.kind.stage())
        .collect();
    assert_eq!(
        stages,
        vec![
            Stage::Intent,
            Stage::Proposal,
            Stage::Authorization,
            Stage::Commit,
            Stage::Observation,
            Stage::Reconciliation,
            Stage::Return,
        ]
    );
    assert_eq!(program.catalog.tools.len(), 2);
    assert_eq!(program.catalog.tools[0].0, "Store.get");
    assert_eq!(program.catalog.policies[0].0, "Direct");
    assert_eq!(program.agents[0].1.budget, vec![("external_reads".to_owned(), 1), ("external_writes".to_owned(), 1)]);
}

#[test]
fn source_hash_ignores_layout_but_follows_content() {
    let a = lowered("a.aster", "module h; fn f() -> Int { return 1; }");
    let b = lowered("b.aster", "module h;\n\nfn f() -> Int {\n  return 1;\n}\n");
    let c = lowered("c.aster", "module h; fn f() -> Int { return 2; }");
    assert_eq!(a.source_hash, b.source_hash);
    assert_ne!(a.source_hash, c.source_hash);
    assert_ne!(a.program_hash, c.program_hash);
}

#[test]
fn sealed_program_validates_and_tampering_is_detected() {
    let mut program = lowered("governed.aster", GOVERNED);
    assert_eq!(program.validate(), Ok(()));
    program.module_name.push('x');
    assert_eq!(program.validate(), Err(ProgramError::HashMismatch));
    program.schema_version = 2;
    assert_eq!(program.validate(), Err(ProgramError::UnsupportedSchema(2)));
    assert_eq!(ProgramError::UnsupportedSchema(2).message(), "unsupported IR schema version 2");
}

#[test]
fn locals_are_renamed_and_state_updates_lowered() {
    let program = lowered(
        "atomic.aster",
        "module atomic.example;\nagent A() requires [] {\n  state { count: Int = 0; }\n  budget per_event {}\n  on message(msg: Incoming<Text>) -> Result<Unit, Error> {\n    let n = 1;\n    update state { count = n; }\n    require false;\n    return Ok(Unit);\n  }\n}\n",
    );
    let handler = program.handler("A", "message").unwrap();
    assert!(handler.instructions.iter().any(|i| matches!(&i.kind,
        InstructionKind::Bind { name, .. } if name == "#local:0:n")));
    assert!(handler.instructions.iter().any(|i| matches!(i.kind, InstructionKind::UpdateState { .. })));
    assert!(handler.instructions.iter().any(|i| matches!(i.kind, InstructionKind::Require { .. })));
    assert_eq!(program.agents[0].1.state.len(), 1);
    assert_eq!(program.routines[0].0, "agent:A:message");
}

#[test]
fn match_arms_jump_to_the_end() {
    let program = lowered(
        "match.aster",
        "module m;\nenum Color { Red, Green, }\nfn f(c: Color) -> Int { return match c { Red => 1, Green => 2, }; }\n",
    );
    let routine = program.routine("f").unwrap();
    let end = u32::try_from(routine.instructions.len()).unwrap();
    let mut saw_match = false;
    for instruction in &routine.instructions {
        if let InstructionKind::Match { arms, .. } = &instruction.kind {
            saw_match = true;
            assert_eq!(arms.len(), 2);
            assert!(arms.iter().all(|arm| arm.target <= end));
        }
    }
    assert!(saw_match);
}

#[test]
fn the_catalog_files_each_declaration_under_its_name_in_byte_order() {
    let program = lowered("governed.aster", GOVERNED);
    let keys = |entries: Vec<&String>| entries.into_iter().cloned().collect::<Vec<String>>();
    assert_eq!(
        keys(program.catalog.records.iter().map(|e| &e.0).collect()),
        vec!["Note".to_owned()]
    );
    assert_eq!(
        keys(program.catalog.tools.iter().map(|e| &e.0).collect()),
        vec!["Store.get".to_owned(), "Store.put".to_owned()]
    );
    assert_eq!(
        keys(program.catalog.validators.iter().map(|e| &e.0).collect()),
        vec!["Matches".to_owned()]
    );
    assert!(program.catalog.aliases.is_empty());
    assert!(program.catalog.prompts.is_empty());
}

fn writer_start() -> StartRequest {
    let grant = |capability: &str| CapabilityGrant {
        capability: capability.to_owned(),
        arguments: vec![JsonValue::String("user-001".to_owned())],
    };
    StartRequest {
        agent: "Writer".to_owned(),
        event: "message".to_owned(),
        event_id: "evt-001".to_owned(),
        event_time: "2026-08-05T12:00:00Z".to_owned(),
        agent_arguments: vec![("owner".to_owned(), JsonValue::String("user-001".to_owned()))],
        payload: JsonValue::String("save".to_owned()),
        state: Vec::new(),
        capabilities: CapabilityGrants { schema_version: 1, grants: vec![grant("Read"), grant("Write")] },
    }
}

fn next_stop(machine: &mut Machine) -> Step {
    for _ in 0..1000 {
        match machine.step() {
            Step::Continue => {}
            other => return other,
        }
    }
    panic!("machine did not stop");
}

fn note(id: &str) -> JsonValue {
    JsonValue::Object(vec![("id".to_owned(), JsonValue::String(id.to_owned()))])
}

#[test]
fn a_governed_write_runs_intent_proposal_permit_commit_and_reconciliation() {
    let mut machine = Machine::start(lowered("governed.aster", GOVERNED), writer_start()).expect("machine starts");
    let write = match next_stop(&mut machine) {
        Step::Yield(request) => request,
        Step::Failed(error) => panic!("write path failed: {error:?}"),
        _ => panic!("expected the commit to suspend"),
    };
    assert_eq!(write.kind, EffectKind::Write);
    assert_eq!(write.identity, "Store.put");
    machine
        .supply(&EffectResolution { request_hash: write.request_hash.clone(), payload: note("evt-001"), actual_usage: Vec::new() })
        .expect("receipt decodes");
    let read = match next_stop(&mut machine) {
        Step::Yield(request) => request,
        Step::Failed(error) => panic!("observation failed: {error:?}"),
        _ => panic!("expected the observation to suspend"),
    };
    assert_eq!(read.kind, EffectKind::Read);
    assert_eq!(read.identity, "Store.get");
    machine
        .supply(&EffectResolution { request_hash: read.request_hash.clone(), payload: note("evt-001"), actual_usage: Vec::new() })
        .expect("observation decodes");
    match next_stop(&mut machine) {
        Step::Completed(outcome) => assert_eq!(outcome.state, Vec::new()),
        Step::Failed(error) => panic!("reconciliation failed: {error:?}"),
        _ => panic!("expected completion"),
    }
}

#[test]
fn a_write_without_its_capability_grant_is_refused_before_it_runs() {
    let mut start = writer_start();
    start.capabilities.grants.retain(|grant| grant.capability == "Read");
    match Machine::start(lowered("governed.aster", GOVERNED), start) {
        Err(error) => assert_eq!(error, MachineError::MissingCapability),
        Ok(_) => panic!("an agent needs every capability it declares"),
    }
}

#[test]
fn a_write_receipt_is_decoded_against_the_tool_result_type() {
    let mut machine = Machine::start(lowered("governed.aster", GOVERNED), writer_start()).expect("machine starts");
    let write = match next_stop(&mut machine) {
        Step::Yield(request) => request,
        _ => panic!("expected the commit to suspend"),
    };
    assert_eq!(
        machine.supply(&EffectResolution {
            request_hash: write.request_hash.clone(),
            payload: JsonValue::String("not-a-note".to_owned()),
            actual_usage: Vec::new(),
        }),
        Err(MachineError::TypeMismatch("Note".to_owned()))
    );
}

const APPROVING: &str = r#"module approving;
type Note = { id: Text, };
capability Write(owner: Text);
capability HumanApproval(principal: Text);
tool Store.put(owner: Text, key: Text) -> Note {
  mode write;
  capability Write(owner);
  risk reversible;
  idempotency key;
  sensitivity internal;
}
policy Review(proposal: Proposal<Store.put>) {
  approve by "owner" otherwise;
}
agent Writer(owner: Text) requires [Write(owner), HumanApproval("owner")] {
  state {}
  budget per_event { external_writes <= 1; approvals <= 1; }
  on message(msg: Incoming<Text>) -> Result<Unit, Error> {
    let purpose = intent Save { actor = owner; beneficiary = owner; basis = [provenance(msg)]; expected = "saved"; expires_at = add_seconds(event.time, 60); };
    let proposal = propose Store.put(owner = owner, key = event.id) for purpose;
    let permit = (authorize proposal using Review)?;
    let receipt = (commit proposal with permit)?;
    return Ok(Unit);
  }
}
"#;

fn approving_machine() -> Machine {
    let mut start = writer_start();
    start.capabilities.grants = vec![
        CapabilityGrant { capability: "Write".to_owned(), arguments: vec![JsonValue::String("user-001".to_owned())] },
        CapabilityGrant { capability: "HumanApproval".to_owned(), arguments: vec![JsonValue::String("owner".to_owned())] },
    ];
    Machine::start(lowered("approving.aster", APPROVING), start).expect("machine starts")
}

fn approval(machine: &mut Machine, approved: bool) {
    let request = match next_stop(machine) {
        Step::Yield(request) => request,
        Step::Failed(error) => panic!("authorization failed: {error:?}"),
        _ => panic!("expected an approval request"),
    };
    assert_eq!(request.kind, EffectKind::Approval);
    assert_eq!(request.identity, "Review");
    machine
        .supply(&EffectResolution {
            request_hash: request.request_hash.clone(),
            payload: JsonValue::Object(vec![("approved".to_owned(), JsonValue::Bool(approved))]),
            actual_usage: Vec::new(),
        })
        .expect("decision decodes");
}

#[test]
fn an_approved_proposal_receives_a_permit_and_commits() {
    let mut machine = approving_machine();
    approval(&mut machine, true);
    let write = match next_stop(&mut machine) {
        Step::Yield(request) => request,
        Step::Failed(error) => panic!("commit failed: {error:?}"),
        _ => panic!("expected the commit to suspend"),
    };
    assert_eq!(write.kind, EffectKind::Write);
    machine
        .supply(&EffectResolution { request_hash: write.request_hash.clone(), payload: note("evt-001"), actual_usage: Vec::new() })
        .expect("receipt decodes");
    match next_stop(&mut machine) {
        Step::Completed(outcome) => assert_eq!(outcome.state, Vec::new()),
        Step::Failed(error) => panic!("handler failed: {error:?}"),
        _ => panic!("expected completion"),
    }
}

#[test]
fn a_denied_approval_stops_the_handler_before_any_write() {
    let mut machine = approving_machine();
    approval(&mut machine, false);
    match next_stop(&mut machine) {
        Step::Failed(error) => assert_eq!(error, MachineError::PropagatedError("approval denied".to_owned())),
        _ => panic!("a denied approval must not reach the write"),
    }
}

#[test]
fn lowering_is_deterministic_with_stable_ids_and_a_64_character_hash() {
    let first = lowered("governed.aster", GOVERNED);
    let second = lowered("governed.aster", GOVERNED);
    assert_eq!(first, second);
    assert_eq!(first.program_hash.len(), 64);
    assert_eq!(first.source_hash.len(), 64);
    let handler = first.handler("Writer", "message").expect("handler exists");
    for (index, instruction) in handler.instructions.iter().enumerate() {
        assert_eq!(instruction.id.index(), u32::try_from(index).unwrap());
    }
}

