use aster::{SourceFile, format_source, parse};

const MEETING_SCHEDULER: &str = r#"// Meeting scheduler: parse a request, find a slot, book it with approval.
module meeting.scheduler;

type Message = { id: Text, text: Untrusted<Text>, };
type MeetingRequest = { title: Text, window: Window, duration_minutes: Int, attendees: List<Attendee>, };
type Slot = { start_hour: Int, end_hour: Int, };
type EventId = Text;
type Window = Text;
type Attendee = { name: Text, email: Text, };
type Reason = Text;
type Profile = { known_attendees: List<Attendee>, };

capability ModelUse(alias: Text);
capability CalendarRead(owner: Text);
capability CalendarWrite(owner: Text);
capability Approval(principal: Text);

prompt ParseMeeting(message: Untrusted<Text>) -> MeetingRequest {
  instruction """
    Extract the meeting title, window, duration and attendees.
  """;
  data { message, };
}

validator ValidMeeting(request: MeetingRequest) {
  require request.duration_minutes > 0;
  require request.duration_minutes <= 240;
}

fn within_hours(slot: Slot) -> Bool {
  return slot.start_hour >= 9 && slot.end_hour <= 17;
}

tool Calendar.find_slots(owner: Text, window: Window) -> List<Slot> {
  mode read;
  capability CalendarRead(owner);
  sensitivity private;
}

tool Calendar.create_event(owner: Text, slot: Slot, request_id: Text) -> EventId {
  mode write;
  capability CalendarWrite(owner);
  risk reversible;
  idempotency request_id;
  sensitivity private;
}

tool Directory.lookup(name: Text) -> Attendee {
  mode read;
  capability CalendarRead(name);
  sensitivity internal;
}

validator EventBooked(receipt: Receipt<Calendar.create_event>, observed: Observation<List<Slot>>) {
  require true;
}

policy SchedulePolicy(proposal: Proposal<Calendar.create_event>) {
  deny "outside working hours" when !(within_hours(proposal.arguments.slot));
  approve by "owner" when proposal.arguments.owner != "me";
  allow otherwise;
}

agent Scheduler(owner: Text)
requires [ModelUse("planner"), CalendarRead(owner), CalendarWrite(owner), Approval("owner")] {
  state {
    last_event: Option<EventId> = None;
    profile: Profile = Profile { known_attendees = [], };
  }

  budget per_event { model_calls <= 1; model_tokens <= 2000; external_reads <= 2; external_writes <= 1; approvals <= 1; }

  on message(event: Incoming<Message>) -> Result<Unit, Error> {
    let candidate = (infer ParseMeeting(message = event.value.text) using @planner)?;
    let request: MeetingRequest = (validate candidate with ValidMeeting)?;
    let slots = (observe Calendar.find_slots(owner = owner, window = request.window))?;
    let slot = match slots { Some(first) => first, None => fallback, };
    let purpose = intent Reason { reason = "book the requested meeting"; requested_by = owner; };
    let proposal = propose Calendar.create_event(owner = owner, slot = slot, request_id = event.value.id) for purpose;
    let permit = (authorize proposal using SchedulePolicy)?;
    let receipt = (commit proposal with permit)?;
    let observed = (observe Calendar.find_slots(owner = owner, window = request.window))?;
    let reconciled = (reconcile receipt against observed with EventBooked)?;
    update state { last_event = Some(reconciled); }
    return Ok(Unit);
  }
}
"#;

#[test]
fn canonical_format_is_idempotent_and_preserves_normalized_ast() {
    let input = "// hello\nmodule x;type R={a:Int,b:Text,};fn f(x:Int)->Bool{return x>0;}";
    let expected = "// hello\nmodule x;\n\ntype R = {\n  a: Int,\n  b: Text,\n};\n\nfn f(x: Int) -> Bool {\n  return (x > 0);\n}\n";
    let source = SourceFile::new("format.aster", input);
    let before = parse(&source).expect("input parses").normalized_json();

    let once = format_source(&source).expect("input formats");
    let twice = format_source(&SourceFile::new("format.aster", &once)).expect("output formats");
    let after = parse(&SourceFile::new("format.aster", &once))
        .expect("formatted source parses")
        .normalized_json();

    assert_eq!(once, expected);
    assert_eq!(twice, once);
    assert_eq!(after, before);
}

#[test]
fn comments_survive_and_prompt_instruction_contents_are_byte_identical() {
    let input = "module p; /* keep me */\nprompt P(x:Untrusted<Text>)->Text{instruction \"\"\"\n  Keep \\n literally.  \n\"\"\";data{x,};}";
    let source = SourceFile::new("prompt.aster", input);
    let formatted = format_source(&source).expect("prompt formats");

    assert!(formatted.starts_with("module p;\n\n/* keep me */\nprompt P"));
    assert!(formatted.contains("\"\"\"\n  Keep \\n literally.  \n\"\"\""));
    assert_eq!(formatted.matches("/* keep me */").count(), 1);
}

#[test]
fn malformed_source_is_diagnosed_instead_of_partially_formatted() {
    let source = SourceFile::new("bad.aster", "module bad; type X = {");
    let diagnostics = format_source(&source).expect_err("malformed source is rejected");

    assert_eq!(diagnostics[0].code.as_str(), "ASTER-PARSE-0001");
}

#[test]
fn formats_every_declaration_form_canonically() {
    let input = "module all;enum Choice{First,Other(Text)}capability ModelUse(alias:Text);tool A.put(x:Text,key:Text)->Unit{sensitivity secret;idempotency key;risk irreversible;capability ModelUse(\"p\");mode write;}validator V(x:Int){require x>=1;}policy P(p:Proposal<A.put>){deny \"no\" when p.x==\"a\";approve by \"owner\" when true;allow otherwise;}flow run(x:Option<Text>)->Result<Text,Error> uses [ModelUse(\"p\")]{let y:Int=-(1+2);return if true{return x;}else{return [1,2];};}agent Ag(o:Text) requires [ModelUse(\"p\")]{state{n:Int=0;}budget per_event{model_calls<=2;}on go(e:Incoming<Text>)->Unit{update state{n=n+1;}require (validate c with V)?.ok;return Unit;}}";
    let expected = "module all;\n\nenum Choice {\n  First,\n  Other(Text),\n}\n\ncapability ModelUse(alias: Text);\n\ntool A.put(x: Text, key: Text) -> Unit {\n  mode write;\n  capability ModelUse(\"p\");\n  risk irreversible;\n  idempotency key;\n  sensitivity secret;\n}\n\nvalidator V(x: Int) {\n  require (x >= 1);\n}\n\npolicy P(p: Proposal<A.put>) {\n  deny \"no\" when (p.x == \"a\");\n  approve by \"owner\" when true;\n  allow otherwise;\n}\n\nflow run(x: Option<Text>) -> Result<Text, Error> uses [ModelUse(\"p\")] {\n  let y: Int = -((1 + 2));\n  return if true { return x; } else { return [1, 2]; };\n}\n\nagent Ag(o: Text)\nrequires [\n  ModelUse(\"p\"),\n] {\n  state {\n    n: Int = 0;\n  }\n\n  budget per_event {\n    model_calls <= 2;\n  }\n\n  on go(e: Incoming<Text>) -> Unit {\n    update state {\n      n = (n + 1);\n    }\n    require (validate c with V)?.ok;\n    return Unit;\n  }\n}\n";
    let formatted = format_source(&SourceFile::new("all.aster", input)).expect("input formats");
    assert_eq!(formatted, expected);
    let again = format_source(&SourceFile::new("all.aster", &formatted)).expect("output formats");
    assert_eq!(again, formatted);
}

#[test]
fn text_literals_are_emitted_as_json_strings() {
    let input = "module t; fn f() -> Text { return \"a\\\"b\\\\c\\n\\t\"; }";
    let formatted = format_source(&SourceFile::new("t.aster", input)).expect("input formats");
    assert!(formatted.contains("  return \"a\\\"b\\\\c\\n\\t\";\n"));
}

#[test]
fn comments_after_the_last_declaration_close_the_module() {
    let input = "module c;\ntype A = Text; // trailing\n// last\n";
    let formatted = format_source(&SourceFile::new("c.aster", input)).expect("input formats");
    assert_eq!(formatted, "module c;\n\ntype A = Text;\n// trailing\n// last\n");
}

#[test]
fn module_without_declarations_is_one_line() {
    let formatted =
        format_source(&SourceFile::new("m.aster", "module  empty . thing ;")).expect("formats");
    assert_eq!(formatted, "module empty.thing;\n");
}

#[test]
fn normalized_json_drops_locations_and_orders_keys() {
    let tiny = parse(&SourceFile::new("tiny.aster", "module tiny; type Name = Text;"))
        .expect("tiny parses");
    assert_eq!(
        tiny.normalized_json(),
        "{\"declarations\":[{\"definition\":{\"definition\":\"alias\",\"value\":{\"arguments\":[],\"path\":{\"segments\":[\"Text\"]}}},\"kind\":\"type\",\"name\":\"Name\"}],\"name\":{\"segments\":[\"tiny\"]}}"
    );
    let spaced = parse(&SourceFile::new("spaced.aster", "module tiny;\n\n  type   Name =\n Text ;\n// note\n"))
        .expect("spaced parses");
    assert_eq!(spaced.normalized_json(), tiny.normalized_json());
}

#[test]
fn meeting_example_format_round_trip_preserves_its_normalized_ast() {
    let source = SourceFile::new("examples/meeting-scheduler/main.aster", MEETING_SCHEDULER);
    let before = parse(&source).expect("example parses").normalized_json();
    let formatted = format_source(&source).expect("example formats");
    let reparsed = SourceFile::new(source.path(), &formatted);
    let after = parse(&reparsed).expect("formatted example parses").normalized_json();

    assert_eq!(after, before);
    assert_eq!(format_source(&reparsed).expect("formatted example formats"), formatted);
}
