use aster::{CheckedProgram, Diagnostic, SourceFile, check_source};

const INFERENCE: &str = r#"module inference;
type Message = { text: Untrusted<Text>, };
type Answer = { value: Text, };
capability ModelUse(alias: Text);
prompt Parse(message: Untrusted<Text>) -> Answer {
  instruction """Extract the answer.""";
  data { message, };
}
agent A() requires [ModelUse("planner")] {
  state {}
  budget per_event { model_calls <= 1; model_tokens <= 10; }
  on message(msg: Incoming<Message>) -> Result<Unit, Error> {
    let candidate = (infer Parse(message = msg.value.text) using @planner)?;
    return Ok(Unit);
  }
}
"#;

const ATOMIC: &str = r"module atomic.example;
agent A() requires [] {
  state { count: Int = 0; }
  budget per_event {}
  on message(msg: Incoming<Text>) -> Result<Unit, Error> {
    update state { count = 1; }
    require false;
    return Ok(Unit);
  }
}
";

const GOVERNED: &str = r#"module governed;
type Note = { id: Text, };
capability Read(owner: Text);
capability Write(owner: Text);
tool Store.get(owner: Text) -> Note {
  mode read;
  capability Read(owner);
  sensitivity internal;
}
tool Store.put(owner: Text, key: Text) -> Note {
  mode write;
  capability Write(owner);
  risk reversible;
  idempotency key;
  sensitivity internal;
}
validator Matches(receipt: Note, observed: Note) {
  require receipt.id == observed.id;
}
policy Direct(proposal: Proposal<Store.put>) {
  allow otherwise;
}
agent Writer(owner: Text) requires [Read(owner), Write(owner)] {
  state {}
  budget per_event { external_reads <= 1; external_writes <= 1; }
  on message(msg: Incoming<Text>) -> Result<Unit, Error> {
    let purpose = intent Save { actor = owner; beneficiary = owner; basis = [provenance(msg)]; expected = "saved"; expires_at = add_seconds(event.time, 60); };
    let proposal = propose Store.put(owner = owner, key = event.id) for purpose;
    let permit = (authorize proposal using Direct)?;
    let receipt = (commit proposal with permit)?;
    let observed = (observe Store.get(owner = owner))?;
    let reconciled = (reconcile receipt against observed with Matches)?;
    return Ok(Unit);
  }
}
"#;

fn checked(name: &str, text: &str) -> CheckedProgram {
    match check_source(&SourceFile::new(name, text)) {
        Ok(program) => program,
        Err(diagnostics) => panic!(
            "expected {name} to check, got {:?}",
            diagnostics
                .iter()
                .map(|d| (d.code.as_str().to_owned(), d.message.clone()))
                .collect::<Vec<_>>()
        ),
    }
}

fn rejected(name: &str, text: &str) -> Vec<Diagnostic> {
    match check_source(&SourceFile::new(name, text)) {
        Ok(_) => panic!("expected {name} to be rejected"),
        Err(diagnostics) => diagnostics,
    }
}

fn has_code_at(text: &str, diagnostics: &[Diagnostic], code: &str, offending: &str) -> bool {
    diagnostics.iter().any(|d| {
        let span = &text[d.primary_span.start..d.primary_span.end];
        d.code.as_str() == code && (offending.contains(span) || span.contains(offending))
    })
}

#[test]
fn inference_handler_is_a_compile_pass_program() {
    let program = checked("inference.aster", INFERENCE);
    assert_eq!(program.module_name(), "inference");
    assert_eq!(program.agent_names(), vec!["A"]);
}

#[test]
fn state_update_handler_is_a_compile_pass_program() {
    let program = checked("atomic-state.aster", ATOMIC);
    assert_eq!(program.module_name(), "atomic.example");
}

#[test]
fn direct_allow_governed_write_checks_without_approval_capability() {
    let program = checked("direct_allow.aster", GOVERNED);
    assert_eq!(program.agent_names(), vec!["Writer"]);
}

#[test]
fn branches_with_returns_check() {
    let text = "module branch;\nfn choose(flag: Bool) -> Unit {\n  if flag { return Unit; } else { return Unit; };\n  return Unit;\n}\n";
    checked("branch.aster", text);
}

#[test]
fn duplicate_declaration_is_reported_at_the_later_declaration() {
    let text = "module d;\nfn same() -> Unit { return Unit; }\nfn same() -> Unit { return Unit; }\n";
    let diagnostics = rejected("duplicate.aster", text);
    let later = text.rfind("fn same").unwrap();
    assert!(diagnostics.iter().any(|d| d.code.as_str() == "ASTER-NAME-1002"
        && d.primary_span.start == later));
}

#[test]
fn diagnostics_are_sorted_by_start_then_code() {
    let text = "module d;\nfn same() -> Unit { return Unit; }\nfn same() -> Unit { return Unit; }\npolicy P(x: Int) { allow when true; }\n";
    let diagnostics = rejected("sorted.aster", text);
    for pair in diagnostics.windows(2) {
        let (a, b) = (&pair[0], &pair[1]);
        assert!(
            a.primary_span.start < b.primary_span.start
                || (a.primary_span.start == b.primary_span.start
                    && a.code.as_str() <= b.code.as_str())
        );
    }
}

#[test]
fn policy_without_otherwise_is_not_total() {
    let text = "module p;\ntool S.put(k: Text) -> Text { mode write; capability W(k); risk reversible; idempotency k; sensitivity internal; }\ncapability W(k: Text);\npolicy Incomplete(proposal: Proposal<S.put>) { allow when true; }\n";
    let diagnostics = rejected("policy.aster", text);
    assert!(has_code_at(text, &diagnostics, "ASTER-POLICY-4001", "policy Incomplete"));
}

#[test]
fn unknown_and_duplicate_budget_dimensions_are_reported() {
    let text = "module b;\nagent A() requires [] {\n  state {}\n  budget per_event { network_calls <= 1; model_calls <= 1; model_calls <= 2; }\n  on message(msg: Incoming<Text>) -> Unit { return Unit; }\n}\n";
    let diagnostics = rejected("budget.aster", text);
    assert!(has_code_at(text, &diagnostics, "ASTER-BUDGET-11001", "network_calls"));
    assert!(has_code_at(text, &diagnostics, "ASTER-BUDGET-11002", "model_calls"));
}

#[test]
fn write_tool_without_idempotency_is_rejected() {
    let text = "module w;\ncapability W(k: Text);\ntool Store.put(k: Text) -> Text { mode write; capability W(k); risk reversible; sensitivity internal; }\n";
    let diagnostics = rejected("write.aster", text);
    assert!(has_code_at(text, &diagnostics, "ASTER-TYPE-2004", "tool Store.put"));
}

#[test]
fn direct_and_mutual_recursion_are_rejected() {
    let direct = "module r;\nfn recurse(x: Int) -> Int { return recurse(x); }\n";
    let diagnostics = rejected("direct.aster", direct);
    assert!(has_code_at(direct, &diagnostics, "ASTER-EFFECT-3005", "fn recurse"));
    let mutual = "module m;\nfn first(x: Int) -> Int { return second(x); }\nfn second(x: Int) -> Int { return first(x); }\n";
    let diagnostics = rejected("mutual.aster", mutual);
    assert!(has_code_at(mutual, &diagnostics, "ASTER-EFFECT-3005", "fn first"));
}

#[test]
fn candidate_used_without_validation_is_rejected() {
    let text = r#"module c;
type Answer = { value: Text, };
capability ModelUse(alias: Text);
prompt Parse(message: Text) -> Answer {
  instruction """Extract.""";
  data { message, };
}
flow run(message: Text) -> Result<Text, Error> uses [ModelUse("planner")] {
  let candidate = (infer Parse(message = message) using @planner)?;
  return Ok(candidate.value);
}
"#;
    let diagnostics = rejected("candidate.aster", text);
    assert!(has_code_at(text, &diagnostics, "ASTER-TYPE-2001", "candidate.value"));
}

#[test]
fn observing_a_write_tool_and_proposing_a_read_tool_are_rejected() {
    let text = r#"module e;
capability R(k: Text);
capability W(k: Text);
tool Store.get(k: Text) -> Text { mode read; capability R(k); sensitivity internal; }
tool Store.put(k: Text) -> Text { mode write; capability W(k); risk reversible; idempotency k; sensitivity internal; }
agent A(owner: Text) requires [R(owner), W(owner)] {
  state {}
  budget per_event {}
  on message(msg: Incoming<Text>) -> Result<Unit, Error> {
    let written = (observe Store.put(k = owner))?;
    let purpose = intent Save { actor = owner; beneficiary = owner; basis = [provenance(msg)]; expected = "x"; expires_at = event.time; };
    let proposal = propose Store.get(k = owner) for purpose;
    return Ok(Unit);
  }
}
"#;
    let diagnostics = rejected("effects.aster", text);
    assert!(has_code_at(text, &diagnostics, "ASTER-EFFECT-3001", "Store.put"));
    assert!(has_code_at(text, &diagnostics, "ASTER-EFFECT-3002", "Store.get"));
}

#[test]
fn calling_a_tool_directly_is_rejected() {
    let text = "module t;\ncapability R(k: Text);\ntool Store.get(k: Text) -> Text { mode read; capability R(k); sensitivity internal; }\nfn f() -> Text { return Store.get(\"k\"); }\n";
    let diagnostics = rejected("direct-call.aster", text);
    assert!(has_code_at(text, &diagnostics, "ASTER-EFFECT-3003", "Store.get"));
}

#[test]
fn effects_in_pure_contexts_and_missing_capabilities_are_rejected() {
    let text = r#"module p;
capability R(k: Text);
tool Store.get(k: Text) -> Text { mode read; capability R(k); sensitivity internal; }
fn pure_read() -> Result<Observation<Text>, Error> { return observe Store.get(k = "x"); }
flow uncapable() -> Result<Observation<Text>, Error> uses [] { return observe Store.get(k = "x"); }
"#;
    let diagnostics = rejected("pure.aster", text);
    assert!(has_code_at(text, &diagnostics, "ASTER-EFFECT-3004", "observe Store.get(k = \"x\")"));
    assert!(has_code_at(text, &diagnostics, "ASTER-CAP-6001", "observe Store.get(k = \"x\")"));
}

#[test]
fn reused_permit_and_proposal_are_affine_errors() {
    let text = r#"module a;
capability R(k: Text);
capability W(k: Text);
tool Store.get(k: Text) -> Text { mode read; capability R(k); sensitivity internal; }
tool Store.put(k: Text) -> Text { mode write; capability W(k); risk reversible; idempotency k; sensitivity internal; }
policy Direct(proposal: Proposal<Store.put>) { allow otherwise; }
agent A(owner: Text) requires [R(owner), W(owner)] {
  state {}
  budget per_event {}
  on message(msg: Incoming<Text>) -> Result<Unit, Error> {
    let purpose = intent Save { actor = owner; beneficiary = owner; basis = [provenance(msg)]; expected = "x"; expires_at = event.time; };
    let proposal = propose Store.put(k = owner) for purpose;
    let permit = (authorize proposal using Direct)?;
    let receipt = (commit proposal with permit)?;
    let again = (commit proposal with permit)?;
    return Ok(Unit);
  }
}
"#;
    let diagnostics = rejected("affine.aster", text);
    assert!(diagnostics.iter().any(|d| d.code.as_str() == "ASTER-AFFINE-5001"));
    assert!(diagnostics.iter().any(|d| d.code.as_str() == "ASTER-AFFINE-5002"));
}

#[test]
fn secrets_in_prompts_and_state_are_rejected() {
    let text = r#"module s;
capability ModelUse(alias: Text);
prompt Leak(key: Secret<Text>) -> Text {
  instruction """Leak.""";
  data { key, };
}
agent A() requires [] {
  state { key: Secret<Text> = "x"; }
  budget per_event {}
  on message(msg: Incoming<Text>) -> Unit { return Unit; }
}
"#;
    let diagnostics = rejected("secret.aster", text);
    assert!(has_code_at(text, &diagnostics, "ASTER-SECRET-8001", "key: Secret<Text>"));
    assert!(has_code_at(text, &diagnostics, "ASTER-SECRET-8002", "Secret<Text>"));
}

#[test]
fn cyclic_alias_through_a_constructor_is_reported_and_checking_ends() {
    let text = "module cyc;\ntype A = List<A>;\nfn f(x: A) -> A { return x; }\n";
    let diagnostics = rejected("cyclic.aster", text);
    assert!(has_code_at(text, &diagnostics, "ASTER-TYPE-2002", "List<A>"));
}

#[test]
fn type_mismatch_message_spells_both_types() {
    let text = "module m;\nfn f() -> Int { return \"text\"; }\n";
    let diagnostics = rejected("mismatch.aster", text);
    assert!(diagnostics.iter().any(|d| d.code.as_str() == "ASTER-TYPE-2002"
        && d.message == "expected Int, found Text"));
}

#[test]
fn non_exhaustive_match_lists_missing_variants_in_order() {
    let text = "module m;\nenum Color { Red, Green, Blue, }\nfn f(c: Color) -> Int { return match c { Red => 1, }; }\n";
    let diagnostics = rejected("match.aster", text);
    assert!(diagnostics.iter().any(|d| d.message == "non-exhaustive match; missing Blue, Green"));
}

#[test]
fn prompt_data_defects_are_reported_at_the_prompt() {
    let text = "module p;\ntype Answer = { value: Text, };\nprompt Ask(question: Text, context: Text) -> Answer {\n  instruction \"\"\"Answer.\"\"\";\n  data { question, question, extra, };\n}\n";
    let diagnostics = rejected("prompt.aster", text);
    let start = text.find("prompt Ask").unwrap();
    let at = |code: &str| {
        diagnostics
            .iter()
            .any(|d| d.code.as_str() == code && d.primary_span.start == start)
    };
    assert!(at("ASTER-NAME-1002"), "repeated data name");
    assert!(at("ASTER-NAME-1001"), "data name that is not a parameter");
    assert!(at("ASTER-TYPE-2002"), "parameter left out of the data");
}

#[test]
fn validator_with_three_parameters_is_rejected() {
    let text = "module v;\nvalidator Three(a: Int, b: Int, c: Int) { require a < b; }\n";
    let diagnostics = rejected("validator.aster", text);
    let start = text.find("validator Three").unwrap();
    assert!(diagnostics
        .iter()
        .any(|d| d.code.as_str() == "ASTER-TYPE-2002" && d.primary_span.start == start));
}

#[test]
fn undeclared_capability_request_is_reported_at_its_path() {
    let text = "module c;\nagent A() requires [Missing(\"x\")] {\n  state {}\n  on message(msg: Incoming<Text>) -> Unit { return Unit; }\n}\n";
    let diagnostics = rejected("capability.aster", text);
    let start = text.find("Missing").unwrap();
    assert!(diagnostics.iter().any(|d| d.code.as_str() == "ASTER-NAME-1001"
        && d.primary_span.start == start
        && d.primary_span.end == start + "Missing".len()));
}

#[test]
fn unknown_parameter_type_is_reported_at_its_reference() {
    let text = "module t;\nfn f(x: Nowhere) -> Unit { return Unit; }\n";
    let diagnostics = rejected("type.aster", text);
    let start = text.find("Nowhere").unwrap();
    assert!(diagnostics
        .iter()
        .any(|d| d.code.as_str() == "ASTER-NAME-1001" && d.primary_span.start == start));
}
