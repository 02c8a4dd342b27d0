use aster::authority::{Intent, Proposal, ProposalMetadata};
use aster::boundary::{
    budget_limits, capability_request, effect_request, initial_state, named_values_json,
    validate_declared_capabilities,
};
use aster::budget::BudgetDimension;
use aster::canonical::JsonObject;
use aster::capability::{CapabilityError, CapabilityGrant, CapabilityGrants};
use aster::evaluation::{
    EffectKind, MachineError, PatternBinding, PolicyRuntimeDecision, budget_dimension,
    contains_secret, decode_json, eval_binary, eval_call, eval_expression, eval_routine,
    eval_unary, json_to_runtime, match_pattern, policy_decision, project, resolve_path,
    runtime_to_json, split_path, validator_accepts, variable_usage_dimension,
};
use aster::ir::{NamedValue, PatternSpec, PureExpression, TypeSpec, ValueId};
use aster::json_value::{JsonValue, canonical_json, canonical_sha256};
use aster::runtime_value::{ReceiptValue, RuntimeValue, values_equal};
use aster::{Program, SourceFile, check_source, lower};
use sha2::Digest;

const SOURCE: &str = r#"module evaluation;
type Note = { id: Text, size: Int, };
type Size = Int;
capability Write(owner: Text);
tool Store.put(owner: Text, key: Text) -> Note {
  mode write;
  capability Write(owner);
  risk reversible;
  idempotency key;
  sensitivity internal;
}
validator Small(note: Note) {
  require note.size < 10;
}
policy Limits(proposal: Proposal<Store.put>) {
  deny "other owner" when proposal.args.owner == "intruder";
  allow otherwise;
}
fn double(x: Int) -> Int {
  return x * 2;
}
fn pick(flag: Bool) -> Int {
  if flag { return 1; } else { return 2; };
  return 3;
}
fn quadruple(x: Int) -> Int {
  return double(double(x));
}
agent Counter(owner: Text) requires [Write(owner)] {
  state { count: Int = 7; label: Text = owner; }
  budget per_event { external_writes <= 2; model_calls <= 1; }
  on tick(t: Incoming<Int>) -> Result<Unit, Error> {
    return Ok(Unit);
  }
}
"#;

fn program() -> Program {
    let checked = check_source(&SourceFile::new("evaluation.aster", SOURCE)).expect("source checks");
    lower(&checked).expect("source lowers")
}

fn text(value: &str) -> RuntimeValue {
    RuntimeValue::Text(value.to_owned())
}

fn json_text(value: &str) -> JsonValue {
    JsonValue::String(value.to_owned())
}

fn ty(name: &str, arguments: Vec<TypeSpec>) -> TypeSpec {
    TypeSpec { name: name.to_owned(), arguments }
}

fn serde_canonical(text: &str) -> String {
    let value: serde_json::Value = serde_json::from_str(text).expect("fixture is JSON");
    serde_json::to_string(&value).expect("value serializes")
}

fn sha256_hex(text: &str) -> String {
    hex::encode(sha2::Sha256::digest(text.as_bytes()))
}

fn proposal(owner: &str, key: &str) -> Proposal {
    let mut arguments = JsonObject::new();
    arguments.insert("owner", json_text(owner));
    arguments.insert("key", json_text(key));
    Proposal::new(
        "Store.put",
        arguments,
        Intent {
            purpose: "Save".to_owned(),
            fields: JsonObject::new(),
            expires_at: "2026-08-05T12:02:00Z".to_owned(),
        },
        ProposalMetadata {
            risk: "reversible".to_owned(),
            sensitivity: "internal".to_owned(),
            capability_request: JsonValue::Null,
            idempotency_key: key.to_owned(),
            program_hash: "program-hash".to_owned(),
        },
    )
    .expect("proposal seals")
}

#[test]
fn canonical_json_sorts_keys_at_every_depth() {
    let document = JsonValue::Object(vec![
        ("b".to_owned(), JsonValue::Int(1)),
        (
            "a".to_owned(),
            JsonValue::Array(vec![JsonValue::Object(vec![
                ("z".to_owned(), JsonValue::Null),
                ("y".to_owned(), JsonValue::Bool(true)),
            ])]),
        ),
        ("c".to_owned(), json_text("line\nbreak \"quoted\"")),
    ]);
    assert_eq!(
        canonical_json(&document),
        "{\"b\":1,\"a\":[{\"z\":null,\"y\":true}],\"c\":\"line\\nbreak \\\"quoted\\\"\"}"
    );
    let expected = serde_canonical(
        "{\"b\":1,\"a\":[{\"z\":null,\"y\":true}],\"c\":\"line\\nbreak \\\"quoted\\\"\"}",
    );
    assert_eq!(expected, "{\"a\":[{\"y\":true,\"z\":null}],\"b\":1,\"c\":\"line\\nbreak \\\"quoted\\\"\"}");
    assert_eq!(canonical_sha256(&document), sha256_hex(&expected));
}

#[test]
fn unary_and_integer_operators_are_checked() {
    assert_eq!(eval_unary("not", RuntimeValue::Bool(true)), Ok(RuntimeValue::Bool(false)));
    assert_eq!(eval_unary("negate", RuntimeValue::Int(5)), Ok(RuntimeValue::Int(-5)));
    assert_eq!(
        eval_unary("negate", RuntimeValue::Int(i64::MIN)),
        Err(MachineError::TypeMismatch("integer overflow".to_owned()))
    );
    assert_eq!(
        eval_unary("not", RuntimeValue::Int(1)),
        Err(MachineError::TypeMismatch("unary operand".to_owned()))
    );
    assert_eq!(
        eval_binary("add", RuntimeValue::Int(2), RuntimeValue::Int(3)),
        Ok(RuntimeValue::Int(5))
    );
    assert_eq!(
        eval_binary("divide", RuntimeValue::Int(-7), RuntimeValue::Int(2)),
        Ok(RuntimeValue::Int(-3))
    );
    assert_eq!(
        eval_binary("divide", RuntimeValue::Int(1), RuntimeValue::Int(0)),
        Err(MachineError::TypeMismatch("integer arithmetic".to_owned()))
    );
    assert_eq!(
        eval_binary("multiply", RuntimeValue::Int(i64::MAX), RuntimeValue::Int(2)),
        Err(MachineError::TypeMismatch("integer arithmetic".to_owned()))
    );
    assert_eq!(
        eval_binary("less_equal", RuntimeValue::Int(3), RuntimeValue::Int(3)),
        Ok(RuntimeValue::Bool(true))
    );
    assert_eq!(
        eval_binary("add", text("a"), RuntimeValue::Int(1)),
        Err(MachineError::TypeMismatch("integer operands".to_owned()))
    );
    assert_eq!(
        eval_binary("power", RuntimeValue::Int(2), RuntimeValue::Int(3)),
        Err(MachineError::UnsupportedPureExpression)
    );
    assert_eq!(
        eval_binary("or", RuntimeValue::Bool(false), RuntimeValue::Bool(true)),
        Ok(RuntimeValue::Bool(true))
    );
    assert_eq!(
        eval_binary("and", RuntimeValue::Bool(true), RuntimeValue::Int(1)),
        Err(MachineError::TypeMismatch("boolean operands".to_owned()))
    );
}

#[test]
fn equality_is_structural() {
    let left = RuntimeValue::Record(vec![
        ("a".to_owned(), RuntimeValue::List(vec![RuntimeValue::Int(1), text("x")])),
        ("b".to_owned(), RuntimeValue::Option(None)),
    ]);
    let same = left.duplicate();
    assert!(values_equal(&left, &same));
    assert_eq!(eval_binary("equal", left.duplicate(), same), Ok(RuntimeValue::Bool(true)));
    let other = RuntimeValue::Record(vec![
        ("a".to_owned(), RuntimeValue::List(vec![RuntimeValue::Int(2), text("x")])),
        ("b".to_owned(), RuntimeValue::Option(None)),
    ]);
    assert_eq!(eval_binary("not_equal", left, other), Ok(RuntimeValue::Bool(true)));
}

#[test]
fn json_conversions_follow_the_runtime_value_shapes() {
    let document = JsonValue::Object(vec![
        ("b".to_owned(), JsonValue::Array(vec![JsonValue::Int(1), JsonValue::Null])),
        ("a".to_owned(), JsonValue::Bool(true)),
    ]);
    let value = json_to_runtime(&document).expect("document converts");
    assert_eq!(
        value,
        RuntimeValue::Record(vec![
            ("a".to_owned(), RuntimeValue::Bool(true)),
            (
                "b".to_owned(),
                RuntimeValue::List(vec![RuntimeValue::Int(1), RuntimeValue::Option(None)])
            ),
        ])
    );
    assert_eq!(
        json_to_runtime(&JsonValue::OtherNumber("1.5".to_owned())),
        Err(MachineError::TypeMismatch("integer".to_owned()))
    );
    let back = runtime_to_json(&value).expect("value converts");
    assert_eq!(canonical_json(&back), "{\"a\":true,\"b\":[1,null]}");
    let failed = RuntimeValue::Result(Err("boom".to_owned()));
    assert_eq!(canonical_json(&runtime_to_json(&failed).unwrap()), "{\"error\":\"boom\"}");
    let wrapped = RuntimeValue::Checked(Box::new(RuntimeValue::Option(Some(Box::new(text("v"))))));
    assert_eq!(canonical_json(&runtime_to_json(&wrapped).unwrap()), "\"v\"");
    assert_eq!(
        runtime_to_json(&RuntimeValue::secret_for_test("SENTINEL".to_owned())),
        Err(MachineError::SecretPersistenceRejected)
    );
}

#[test]
fn secrets_are_found_at_any_depth() {
    let hidden = RuntimeValue::Record(vec![(
        "inner".to_owned(),
        RuntimeValue::List(vec![
            RuntimeValue::Int(1),
            RuntimeValue::Receipt(ReceiptValue {
                action: "Store.put".to_owned(),
                proposal_hash: "h".to_owned(),
                value: Box::new(RuntimeValue::secret_for_test("S".to_owned())),
            }),
        ]),
    )]);
    assert!(contains_secret(&hidden));
    assert!(!contains_secret(&RuntimeValue::List(vec![text("plain")])));
}

#[test]
fn projection_reads_wrappers_records_and_proposals() {
    assert_eq!(
        project(RuntimeValue::Incoming(Box::new(RuntimeValue::Int(3))), "value"),
        Ok(RuntimeValue::Int(3))
    );
    assert_eq!(
        project(RuntimeValue::Candidate(Box::new(RuntimeValue::Int(3))), "value"),
        Err(MachineError::UnknownValue)
    );
    let record = RuntimeValue::Record(vec![("id".to_owned(), text("n1"))]);
    assert_eq!(project(record, "id"), Ok(text("n1")));
    let proposal = proposal("user-001", "k1");
    assert_eq!(
        project(RuntimeValue::Proposal(proposal.clone()), "args"),
        Ok(RuntimeValue::Record(vec![
            ("key".to_owned(), text("k1")),
            ("owner".to_owned(), text("user-001")),
        ]))
    );
    assert_eq!(project(RuntimeValue::Proposal(proposal.clone()), "risk"), Ok(text("reversible")));
    assert_eq!(
        project(RuntimeValue::Proposal(proposal), "idempotency_key"),
        Ok(text("k1"))
    );
}

#[test]
fn paths_split_at_dots_and_resolve_through_locals() {
    assert_eq!(split_path("self.count"), vec!["self".to_owned(), "count".to_owned()]);
    assert_eq!(split_path("a..b."), vec!["a", "", "b", ""]);
    let locals = vec![(
        "self".to_owned(),
        RuntimeValue::Record(vec![("count".to_owned(), RuntimeValue::Int(4))]),
    )];
    assert_eq!(resolve_path("self.count", &locals), Ok(RuntimeValue::Int(4)));
    assert_eq!(resolve_path("Unit", &locals), Ok(RuntimeValue::Unit));
    assert_eq!(resolve_path("None", &locals), Ok(RuntimeValue::Option(None)));
    assert_eq!(resolve_path("other", &locals), Err(MachineError::UnknownValue));
    assert_eq!(resolve_path("self.missing", &locals), Err(MachineError::UnknownValue));
}

#[test]
fn patterns_bind_option_and_result_payloads() {
    let some = RuntimeValue::Option(Some(Box::new(RuntimeValue::Int(1))));
    let pattern = PatternSpec::Variant { path: "Option.Some".to_owned(), binding: Some("x".to_owned()) };
    assert_eq!(
        match_pattern(&some, &pattern),
        Some(PatternBinding::Bound("x".to_owned(), Box::new(RuntimeValue::Int(1))))
    );
    let error = RuntimeValue::Result(Err("bad".to_owned()));
    let err_pattern = PatternSpec::Variant { path: "Err".to_owned(), binding: Some("e".to_owned()) };
    assert_eq!(
        match_pattern(&error, &err_pattern),
        Some(PatternBinding::Bound("e".to_owned(), Box::new(text("bad"))))
    );
    assert_eq!(match_pattern(&error, &pattern), None);
    assert_eq!(match_pattern(&error, &PatternSpec::Wildcard), Some(PatternBinding::Unbound));
    let none = PatternSpec::Variant { path: "None".to_owned(), binding: None };
    assert_eq!(
        match_pattern(&RuntimeValue::Option(None), &none),
        Some(PatternBinding::Unbound)
    );
}

#[test]
fn built_in_calls_and_source_routines_evaluate() {
    let program = program();
    assert_eq!(eval_routine("double", vec![RuntimeValue::Int(21)], &program), Ok(RuntimeValue::Int(42)));
    assert_eq!(eval_routine("pick", vec![RuntimeValue::Bool(false)], &program), Ok(RuntimeValue::Int(2)));
    assert_eq!(
        eval_call("quadruple", vec![RuntimeValue::Int(3)], &program),
        Ok(RuntimeValue::Int(12))
    );
    assert_eq!(eval_routine("missing", vec![], &program), Err(MachineError::UnknownRoutine));
    assert_eq!(
        eval_call("len", vec![RuntimeValue::List(vec![RuntimeValue::Unit, RuntimeValue::Unit])], &program),
        Ok(RuntimeValue::Int(2))
    );
    assert_eq!(
        eval_call("first", vec![RuntimeValue::List(vec![])], &program),
        Ok(RuntimeValue::Result(Err("empty list".to_owned())))
    );
    assert_eq!(
        eval_call(
            "contains",
            vec![RuntimeValue::List(vec![RuntimeValue::Int(1), RuntimeValue::Int(2)]), RuntimeValue::Int(2)],
            &program
        ),
        Ok(RuntimeValue::Bool(true))
    );
    assert_eq!(
        eval_call(
            "subset",
            vec![
                RuntimeValue::List(vec![RuntimeValue::Int(1)]),
                RuntimeValue::List(vec![RuntimeValue::Int(2)])
            ],
            &program
        ),
        Ok(RuntimeValue::Bool(false))
    );
    assert_eq!(
        eval_call("add_seconds", vec![text("2026-08-05T12:00:00Z"), RuntimeValue::Int(60)], &program),
        Ok(text("2026-08-05T12:01:00Z"))
    );
    assert_eq!(
        eval_call("add_seconds", vec![text("not an instant"), RuntimeValue::Int(60)], &program),
        Err(MachineError::InvalidInstant)
    );
    assert_eq!(
        eval_call("provenance", vec![text("payload")], &program),
        Ok(text(&sha256_hex("\"payload\"")))
    );
    assert_eq!(
        eval_call("Err", vec![RuntimeValue::Int(1)], &program),
        Err(MachineError::UnsupportedPureExpression)
    );
}

#[test]
fn expressions_evaluate_against_locals_and_slots() {
    let program = program();
    let locals = vec![("x".to_owned(), RuntimeValue::Int(5))];
    let slots = vec![(ValueId(3), RuntimeValue::Int(10))];
    let expression = PureExpression::Binary {
        left: Box::new(PureExpression::Path { path: "x".to_owned() }),
        operator: "add".to_owned(),
        right: Box::new(PureExpression::Slot { value: ValueId(3) }),
    };
    assert_eq!(eval_expression(&expression, &locals, &slots, &program), Ok(RuntimeValue::Int(15)));
    let missing = PureExpression::Slot { value: ValueId(4) };
    assert_eq!(
        eval_expression(&missing, &locals, &slots, &program),
        Err(MachineError::UnknownValue)
    );
}

#[test]
fn boundary_documents_decode_at_declared_types() {
    let program = program();
    let note = JsonValue::Object(vec![
        ("size".to_owned(), JsonValue::Int(3)),
        ("id".to_owned(), json_text("n1")),
    ]);
    assert_eq!(
        decode_json(&note, &ty("Note", vec![]), &program),
        Ok(RuntimeValue::Record(vec![
            ("id".to_owned(), text("n1")),
            ("size".to_owned(), RuntimeValue::Int(3)),
        ]))
    );
    let extra = JsonValue::Object(vec![
        ("id".to_owned(), json_text("n1")),
        ("size".to_owned(), JsonValue::Int(3)),
        ("other".to_owned(), JsonValue::Null),
    ]);
    assert_eq!(
        decode_json(&extra, &ty("Note", vec![]), &program),
        Err(MachineError::TypeMismatch("unknown field in Note".to_owned()))
    );
    let partial = JsonValue::Object(vec![("id".to_owned(), json_text("n1"))]);
    assert_eq!(
        decode_json(&partial, &ty("Note", vec![]), &program),
        Err(MachineError::MissingInput("size".to_owned()))
    );
    assert_eq!(decode_json(&JsonValue::Int(9), &ty("Size", vec![]), &program), Ok(RuntimeValue::Int(9)));
    assert_eq!(
        decode_json(&JsonValue::Null, &ty("Option", vec![ty("Int", vec![])]), &program),
        Ok(RuntimeValue::Option(None))
    );
    assert_eq!(
        decode_json(&json_text("x"), &ty("Incoming", vec![ty("Text", vec![])]), &program),
        Ok(RuntimeValue::Incoming(Box::new(text("x"))))
    );
    assert_eq!(
        decode_json(&json_text("2026-13-01T00:00:00Z"), &ty("Instant", vec![]), &program),
        Err(MachineError::InvalidInstant)
    );
    assert_eq!(
        decode_json(&JsonValue::Bool(true), &ty("Int", vec![]), &program),
        Err(MachineError::TypeMismatch("Int".to_owned()))
    );
    assert_eq!(
        decode_json(
            &JsonValue::Array(vec![JsonValue::Int(1), json_text("2")]),
            &ty("List", vec![ty("Int", vec![])]),
            &program
        ),
        Err(MachineError::TypeMismatch("Int".to_owned()))
    );
}

#[test]
fn validators_and_policies_decide_over_runtime_values() {
    let program = program();
    let small = RuntimeValue::Record(vec![
        ("id".to_owned(), text("n1")),
        ("size".to_owned(), RuntimeValue::Int(3)),
    ]);
    let large = RuntimeValue::Record(vec![
        ("id".to_owned(), text("n2")),
        ("size".to_owned(), RuntimeValue::Int(30)),
    ]);
    assert_eq!(validator_accepts(&program, "Small", vec![small]), Ok(true));
    assert_eq!(validator_accepts(&program, "Small", vec![large]), Ok(false));
    assert_eq!(validator_accepts(&program, "Other", vec![]), Err(MachineError::UnknownValidator));
    let frame = vec![("self".to_owned(), RuntimeValue::Record(vec![]))];
    assert_eq!(
        policy_decision(&program, "Limits", &proposal("intruder", "k"), &frame),
        Ok(PolicyRuntimeDecision::Deny("other owner".to_owned()))
    );
    assert_eq!(
        policy_decision(&program, "Limits", &proposal("user-001", "k"), &frame),
        Ok(PolicyRuntimeDecision::Allow)
    );
    assert_eq!(
        policy_decision(&program, "Limits", &proposal("user-001", "k"), &vec![]),
        Err(MachineError::UnknownValue)
    );
    assert_eq!(
        policy_decision(&program, "Missing", &proposal("user-001", "k"), &frame),
        Err(MachineError::UnknownPolicy)
    );
}

#[test]
fn grants_compile_to_canonical_request_identities() {
    let grants = CapabilityGrants {
        schema_version: 1,
        grants: vec![CapabilityGrant {
            capability: "Write".to_owned(),
            arguments: vec![json_text("user-001")],
        }],
    };
    let compiled = grants.compile().expect("grants compile");
    assert_eq!(
        compiled.fingerprint,
        sha256_hex("{\"grants\":[{\"arguments\":[\"user-001\"],\"capability\":\"Write\"}],\"schema_version\":1}")
    );
    assert_eq!(
        compiled.request_hashes,
        vec![sha256_hex("{\"arguments\":[\"user-001\"],\"capability\":\"Write\"}")]
    );
    let request = JsonValue::Object(vec![
        ("capability".to_owned(), json_text("Write")),
        ("arguments".to_owned(), JsonValue::Array(vec![json_text("user-001")])),
    ]);
    assert!(compiled.permits(&request));
    let other = JsonValue::Object(vec![
        ("capability".to_owned(), json_text("Write")),
        ("arguments".to_owned(), JsonValue::Array(vec![json_text("user-002")])),
    ]);
    assert!(!compiled.permits(&other));
    let wrong = CapabilityGrants { schema_version: 2, grants: vec![] };
    assert_eq!(wrong.compile(), Err(CapabilityError::SchemaMismatch));
    assert_eq!(CapabilityError::SchemaMismatch.message(), "capability grant schema mismatch");
}

#[test]
fn declared_capabilities_and_initial_state_come_from_the_agent() {
    let program = program();
    let agent = &program.agents.iter().find(|(name, _)| name == "Counter").expect("agent").1;
    let locals = vec![("owner".to_owned(), text("user-001"))];
    let granted = CapabilityGrants {
        schema_version: 1,
        grants: vec![CapabilityGrant {
            capability: "Write".to_owned(),
            arguments: vec![json_text("user-001")],
        }],
    }
    .compile()
    .unwrap();
    assert_eq!(validate_declared_capabilities(&agent.capabilities, &locals, &program, &granted), Ok(()));
    let other_locals = vec![("owner".to_owned(), text("user-002"))];
    assert_eq!(
        validate_declared_capabilities(&agent.capabilities, &other_locals, &program, &granted),
        Err(MachineError::MissingCapability)
    );
    assert_eq!(
        initial_state(agent, &vec![], &locals, &program),
        Ok(vec![
            ("count".to_owned(), RuntimeValue::Int(7)),
            ("label".to_owned(), text("user-001")),
        ])
    );
    assert_eq!(
        initial_state(agent, &vec![("count".to_owned(), JsonValue::Int(2))], &locals, &program),
        Ok(vec![
            ("count".to_owned(), RuntimeValue::Int(2)),
            ("label".to_owned(), text("user-001")),
        ])
    );
    assert_eq!(
        initial_state(agent, &vec![("bogus".to_owned(), JsonValue::Int(2))], &locals, &program),
        Err(MachineError::UnknownStateField)
    );
    assert_eq!(
        budget_limits(&agent.budget),
        vec![(BudgetDimension::ExternalWrites, 2), (BudgetDimension::ModelCalls, 1)]
    );
}

#[test]
fn tool_capability_requests_see_the_tool_arguments() {
    let program = program();
    let tool = &program.catalog.tools.iter().find(|(name, _)| name == "Store.put").expect("tool").1;
    let arguments = vec![
        ("key".to_owned(), json_text("k1")),
        ("owner".to_owned(), json_text("user-001")),
    ];
    let request = capability_request(&tool.capability, &arguments, &vec![], &vec![], &program)
        .expect("request builds");
    assert_eq!(canonical_json(&request), "{\"arguments\":[\"user-001\"],\"capability\":\"Write\"}");
    assert_eq!(
        capability_request(&None, &arguments, &vec![], &vec![], &program),
        Ok(JsonValue::Null)
    );
}

#[test]
fn effect_requests_are_identified_by_their_canonical_content() {
    let payload = JsonValue::Object(vec![("action".to_owned(), json_text("Store.get"))]);
    let request = effect_request(EffectKind::Read, "Store.get".to_owned(), payload).unwrap();
    assert_eq!(
        request.request_hash,
        sha256_hex("{\"identity\":\"Store.get\",\"kind\":\"read\",\"payload\":{\"action\":\"Store.get\"}}")
    );
    let slots = vec![(ValueId(0), RuntimeValue::Int(1)), (ValueId(1), text("a"))];
    let values = vec![
        NamedValue { name: Some("b".to_owned()), value: ValueId(1) },
        NamedValue { name: None, value: ValueId(0) },
    ];
    let members = named_values_json(&values, &slots).unwrap();
    assert_eq!(canonical_json(&JsonValue::Object(members)), "{\"1\":1,\"b\":\"a\"}");
    assert_eq!(
        named_values_json(&vec![NamedValue { name: None, value: ValueId(9) }], &slots),
        Err(MachineError::UnknownValue)
    );
}

#[test]
fn budget_dimension_names_and_messages() {
    assert_eq!(budget_dimension("model_tokens"), Some(BudgetDimension::ModelTokens));
    assert_eq!(budget_dimension("tokens"), None);
    assert_eq!(variable_usage_dimension("money_microunits"), Some(BudgetDimension::MoneyMicrounits));
    assert_eq!(variable_usage_dimension("model_calls"), None);
    assert_eq!(
        MachineError::TypeMismatch("Bool".to_owned()).message(),
        "type mismatch: Bool"
    );
    assert_eq!(MachineError::MissingInput("x".to_owned()).message(), "missing input `x`");
    assert_eq!(MachineError::NonTotalPolicy.message(), "policy was not total");
    assert_eq!(EffectKind::Approval.name(), "approval");
}
