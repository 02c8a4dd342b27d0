use aster::Type;
use aster::host::{EffectAdmission, Hello, HelloAck, HostProtocolError, validate_usage_dimensions};
use aster::ir::{
    Agent, Catalog, Instruction, InstructionKind, Program, Routine, Stage, TypeSpec, ValueId,
};

fn boxed(ty: Type) -> Box<Type> {
    Box::new(ty)
}

#[test]
fn candidate_and_secret_are_found_through_wrappers() {
    let nested = Type::Option(boxed(Type::List(boxed(Type::Candidate(boxed(Type::Text))))));
    assert!(nested.contains_candidate());
    assert!(!nested.contains_secret());

    let result = Type::Result(boxed(Type::Int), boxed(Type::Secret(boxed(Type::Text))));
    assert!(result.contains_secret());
    assert!(!result.contains_candidate());

    let secret_candidate = Type::Secret(boxed(Type::Candidate(boxed(Type::Text))));
    assert!(secret_candidate.contains_candidate());
    assert!(secret_candidate.contains_secret());

    let candidate_secret = Type::Candidate(boxed(Type::Secret(boxed(Type::Text))));
    assert!(candidate_secret.contains_secret());

    assert!(!Type::Named("Candidate".to_owned()).contains_candidate());
    assert!(!Type::Proposal("Secret".to_owned()).contains_secret());
}

fn routine(name: &str) -> Routine {
    Routine {
        name: name.to_owned(),
        parameters: Vec::new(),
        return_type: TypeSpec { name: "Unit".to_owned(), arguments: Vec::new() },
        instructions: vec![Instruction::new(0, InstructionKind::Return { value: ValueId(0) })],
    }
}

fn program() -> Program {
    Program {
        schema_version: 1,
        compiler_version: "0.2.0".to_owned(),
        module_name: "m".to_owned(),
        source_hash: String::new(),
        program_hash: String::new(),
        routines: vec![
            ("flow:plan".to_owned(), routine("flow:plan")),
            ("fn:score".to_owned(), routine("fn:score")),
            ("handler:A:message".to_owned(), routine("handler:A:message")),
            ("plan".to_owned(), routine("plan")),
        ],
        agents: vec![(
            "A".to_owned(),
            Agent {
                parameters: Vec::new(),
                state: Vec::new(),
                budget: vec![("model_calls".to_owned(), 1)],
                handlers: vec![("message".to_owned(), "handler:A:message".to_owned())],
                capabilities: Vec::new(),
            },
        )],
        catalog: Catalog {
            aliases: Vec::new(),
            records: Vec::new(),
            prompts: Vec::new(),
            tools: Vec::new(),
            validators: Vec::new(),
            policies: Vec::new(),
        },
    }
}

#[test]
fn handlers_and_routines_resolve_by_name() {
    let program = program();
    assert_eq!(
        program.handler("A", "message").map(|r| r.name.as_str()),
        Some("handler:A:message")
    );
    assert!(program.handler("A", "tick").is_none());
    assert!(program.handler("B", "message").is_none());
    assert_eq!(program.routine("score").map(|r| r.name.as_str()), Some("fn:score"));
    assert_eq!(program.routine("plan").map(|r| r.name.as_str()), Some("flow:plan"));
    assert_eq!(
        program.routine("handler:A:message").map(|r| r.name.as_str()),
        Some("handler:A:message")
    );
    assert!(program.routine("missing").is_none());
}

#[test]
fn only_governed_instructions_expose_a_stage() {
    let commit = InstructionKind::Commit {
        target: ValueId(2),
        proposal: ValueId(0),
        permit: ValueId(1),
    };
    assert_eq!(commit.stage(), Some(Stage::Commit));
    assert_eq!(InstructionKind::Jump { target: 3 }.stage(), None);
    assert_eq!(
        InstructionKind::UpdateState { fields: Vec::new() }.stage(),
        Some(Stage::StateUpdate)
    );
    let instruction = Instruction::new(7, InstructionKind::Require { condition: ValueId(1) });
    assert_eq!(instruction.id.index(), 7);
    assert_eq!(instruction.kind.stage(), None);
}

#[test]
fn host_announcements_name_the_current_protocol() {
    let hello = Hello::new("0.2.0".to_owned(), "abc".to_owned(), "run-1".to_owned());
    assert_eq!(hello.protocol, "aster-host");
    assert_eq!(hello.protocol_version, 1);
    assert_eq!(hello.run_id, "run-1");
    assert!(HelloAck::current().is_current());
    let stale = HelloAck { protocol: "aster-host".to_owned(), protocol_version: 2 };
    assert!(!stale.is_current());
}

#[test]
fn illegal_usage_dimensions_are_rejected() {
    let admission = EffectAdmission {
        request_hash: "h".to_owned(),
        max_usage: vec![("model_tokens".to_owned(), 5), ("money_microunits".to_owned(), 1)],
    };
    assert_eq!(admission.validate(), Ok(()));
    let fixed = vec![("model_calls".to_owned(), 1)];
    assert_eq!(validate_usage_dimensions(&fixed), Err(HostProtocolError::InvalidUsage));
    assert_eq!(HostProtocolError::InvalidUsage.diagnostic_code(), "ASTER-HOST-11004");
    assert_eq!(HostProtocolError::WriteFailure.diagnostic_code(), "ASTER-HOST-11006");
    assert_eq!(
        HostProtocolError::MalformedFrame.message(),
        "malformed or unsupported host protocol frame"
    );
}
