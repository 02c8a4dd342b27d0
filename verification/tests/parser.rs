use aster::{DeclarationKind, SourceFile, parse};

/// A scheduling agent written in the full governed-action syntax.
const MEETING_SCHEDULER: &str = r#"// Meeting scheduler: parse a request, find a slot, book it with approval.
module meeting.scheduler;

type Message = { id: Text, text: Untrusted<Text>, };
type MeetingRequest = { title: Text, window: Window, duration_minutes: Int, attendees: List<Attendee>, };
type Slot = { start_hour: Int, end_hour: Int, };
type EventId = Text;
type Window = Text;
type Attendee = { name: Text, email: Text, };
type Reason = Text;
type Profile = { known_attendees: List<Attendee>, };

capability ModelUse(alias: Text);
capability CalendarRead(owner: Text);
capability CalendarWrite(owner: Text);
capability Approval(principal: Text);

prompt ParseMeeting(message: Untrusted<Text>) -> MeetingRequest {
  instruction """
    Extract the meeting title, window, duration and attendees.
  """;
  data { message, };
}

validator ValidMeeting(request: MeetingRequest) {
  require request.duration_minutes > 0;
  require request.duration_minutes <= 240;
}

fn within_hours(slot: Slot) -> Bool {
  return slot.start_hour >= 9 && slot.end_hour <= 17;
}

tool Calendar.find_slots(owner: Text, window: Window) -> List<Slot> {
  mode read;
  capability CalendarRead(owner);
  sensitivity private;
}

tool Calendar.create_event(owner: Text, slot: Slot, request_id: Text) -> EventId {
  mode write;
  capability CalendarWrite(owner);
  risk reversible;
  idempotency request_id;
  sensitivity private;
}

tool Directory.lookup(name: Text) -> Attendee {
  mode read;
  capability CalendarRead(name);
  sensitivity internal;
}

validator EventBooked(receipt: Receipt<Calendar.create_event>, observed: Observation<List<Slot>>) {
  require true;
}

policy SchedulePolicy(proposal: Proposal<Calendar.create_event>) {
  deny "outside working hours" when !(within_hours(proposal.arguments.slot));
  approve by "owner" when proposal.arguments.owner != "me";
  allow otherwise;
}

agent Scheduler(owner: Text)
requires [ModelUse("planner"), CalendarRead(owner), CalendarWrite(owner), Approval("owner")] {
  state {
    last_event: Option<EventId> = None;
    profile: Profile = Profile { known_attendees = [], };
  }

  budget per_event { model_calls <= 1; model_tokens <= 2000; external_reads <= 2; external_writes <= 1; approvals <= 1; }

  on message(event: Incoming<Message>) -> Result<Unit, Error> {
    let candidate = (infer ParseMeeting(message = event.value.text) using @planner)?;
    let request: MeetingRequest = (validate candidate with ValidMeeting)?;
    let slots = (observe Calendar.find_slots(owner = owner, window = request.window))?;
    let slot = match slots { Some(first) => first, None => fallback, };
    let purpose = intent Reason { reason = "book the requested meeting"; requested_by = owner; };
    let proposal = propose Calendar.create_event(owner = owner, slot = slot, request_id = event.value.id) for purpose;
    let permit = (authorize proposal using SchedulePolicy)?;
    let receipt = (commit proposal with permit)?;
    let observed = (observe Calendar.find_slots(owner = owner, window = request.window))?;
    let reconciled = (reconcile receipt against observed with EventBooked)?;
    update state { last_event = Some(reconciled); }
    return Ok(Unit);
  }
}
"#;

#[test]
fn parses_the_complete_meeting_scheduler_without_example_special_cases() {
    let source = SourceFile::new("examples/meeting-scheduler/main.aster", MEETING_SCHEDULER);
    let module = parse(&source).expect("the normative example parses");

    assert_eq!(module.name.segments, vec!["meeting", "scheduler"]);
    assert_eq!(module.declarations.len(), 21);
    assert_eq!(
        module
            .declarations
            .iter()
            .map(|declaration| declaration.kind.category())
            .collect::<Vec<_>>(),
        vec![
            "type",
            "type",
            "type",
            "type",
            "type",
            "type",
            "type",
            "type",
            "capability",
            "capability",
            "capability",
            "capability",
            "prompt",
            "validator",
            "function",
            "tool",
            "tool",
            "tool",
            "validator",
            "policy",
            "agent",
        ]
    );
    assert!(matches!(
        module
            .declarations
            .last()
            .map(|declaration| &declaration.kind),
        Some(DeclarationKind::Agent(_))
    ));
}

#[test]
fn declaration_order_is_syntax_independent_and_spans_cover_each_declaration() {
    let text = "module order; fn f(x: Later) -> Bool { return true; } type Later = Text;";
    let source = SourceFile::new("order.aster", text);
    let module = parse(&source).expect("syntax does not resolve names");

    assert_eq!(module.declarations.len(), 2);
    for declaration in &module.declarations {
        assert!(declaration.span.start < declaration.span.end);
        assert_eq!(
            &text[declaration.span.start..=declaration.span.start],
            match declaration.kind.category() {
                "function" => "f",
                "type" => "t",
                other => panic!("unexpected declaration category {other}"),
            }
        );
    }
}

#[test]
fn malformed_declaration_reports_the_unexpected_token_span() {
    let source = SourceFile::new("missing.aster", "module missing\ntype X = Text;");
    let diagnostics = parse(&source).expect_err("module semicolon is mandatory");

    assert_eq!(diagnostics[0].code.as_str(), "ASTER-PARSE-0001");
    assert_eq!(diagnostics[0].primary_span.start, 15);
    assert_eq!(diagnostics[0].primary_span.end, 19);
    assert!(diagnostics[0].message.contains("expected `;`"));
}

#[test]
fn duplicate_tool_metadata_is_rejected_instead_of_overwritten() {
    let source = SourceFile::new(
        "duplicate-tool-metadata.aster",
        r"module duplicate;
tool A.one() -> Unit { mode read; mode write; }
tool A.two() -> Unit { capability C(); capability C(); }
tool A.three() -> Unit { sensitivity public; sensitivity private; }
tool A.four() -> Unit { risk reversible; risk irreversible; }
tool A.five() -> Unit { idempotency first; idempotency second; }",
    );
    let diagnostics = parse(&source).expect_err("duplicate metadata must fail parsing");

    assert_eq!(diagnostics.len(), 5);
    assert!(
        diagnostics
            .iter()
            .all(|diagnostic| diagnostic.code.as_str() == "ASTER-PARSE-0001")
    );
    assert!(
        diagnostics
            .iter()
            .all(|diagnostic| diagnostic.message.contains("duplicate tool metadata"))
    );
}

#[test]
fn parser_recovers_at_declaration_boundaries_and_reports_errors_in_source_order() {
    let source = SourceFile::new(
        "many-errors.aster",
        "module bad; type A = ; type B = { x Text }; capability C(x Text);",
    );
    let diagnostics = parse(&source).expect_err("three declarations are malformed");

    assert_eq!(diagnostics.len(), 3);
    assert!(
        diagnostics
            .windows(2)
            .all(|pair| { pair[0].primary_span.start < pair[1].primary_span.start })
    );
    assert_eq!(
        diagnostics
            .iter()
            .map(|diagnostic| diagnostic.primary_span.start)
            .collect::<Vec<_>>(),
        vec![21, 36, 59]
    );
}

#[test]
fn parses_flow_enum_if_and_match_without_recursive_or_dynamic_syntax() {
    let source = SourceFile::new(
        "control.aster",
        "module control;enum Choice { First, Other(Text), }capability ModelUse(alias: Text);flow choose(x: Option<Text>) -> Result<Text, Error> uses [ModelUse(\"planner\")] {return if true { return match x { Some(v) => v, None => \"none\", }; } else { return -(1 + 2); };}",
    );

    let module = parse(&source).expect("finite control expressions parse");
    assert_eq!(module.declarations.len(), 3);
    assert!(matches!(
        module.declarations[2].kind,
        DeclarationKind::Flow(_)
    ));
}

#[test]
fn prompt_instruction_must_be_a_static_block_string_at_parse_time() {
    let source = SourceFile::new(
        "dynamic-prompt.aster",
        "module p; prompt P(x: Text) -> Text { instruction x; data { x, }; }",
    );
    let diagnostics = parse(&source).expect_err("dynamic instruction syntax is invalid");

    assert_eq!(diagnostics[0].code.as_str(), "ASTER-PROMPT-7001");
    assert_eq!(diagnostics[0].primary_span.start, 50);
}

#[test]
fn empty_record_declarations_are_rejected_to_keep_block_syntax_unambiguous() {
    let source = SourceFile::new("empty.aster", "module empty; type Empty = {};");
    let diagnostics = parse(&source).expect_err("0.1 records require a field");

    assert_eq!(diagnostics[0].code.as_str(), "ASTER-PARSE-0001");
    assert_eq!(diagnostics[0].primary_span.start, 28);
}

#[test]
fn empty_enums_are_rejected_because_matchable_types_need_a_variant() {
    let source = SourceFile::new("empty-enum.aster", "module empty; enum Empty {}");
    let diagnostics = parse(&source).expect_err("0.1 enums require a variant");

    assert_eq!(diagnostics[0].code.as_str(), "ASTER-PARSE-0001");
    assert_eq!(diagnostics[0].primary_span.start, 26);
}

#[test]
fn commit_without_permit_is_rejected_at_parse_time() {
    let source = SourceFile::new(
        "commit.aster",
        "module c; fn f(p: Proposal<A.put>) -> Unit { return commit p; }",
    );
    let diagnostics = parse(&source).expect_err("commit needs a permit");
    assert_eq!(diagnostics[0].code.as_str(), "ASTER-TYPE-2003");
    assert_eq!(diagnostics[0].primary_span.start, 52);
}

#[test]
fn comments_are_retained_in_source_order() {
    let source = SourceFile::new(
        "comments.aster",
        "// one\nmodule c; /* two */ type T = Text; // three\n",
    );
    let module = parse(&source).expect("module parses");
    let texts: Vec<&str> = module.comments.iter().map(|comment| comment.text.as_str()).collect();
    assert_eq!(texts, vec!["// one", "/* two */", "// three"]);
    assert_eq!(module.comments[1].span.start, 17);
}

#[test]
fn lexical_errors_are_reported_before_parsing() {
    let source = SourceFile::new("lex.aster", "module § x;");
    let diagnostics = parse(&source).expect_err("unknown token");
    assert_eq!(diagnostics.len(), 1);
    assert_eq!(diagnostics[0].code.as_str(), "ASTER-PARSE-0003");
}
