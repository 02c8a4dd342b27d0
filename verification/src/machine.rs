use vstd::prelude::*;

use crate::authority::{AuthorityLedger, Intent, Proposal, ProposalMetadata};
use crate::canonical::JsonObject;
use crate::boundary::{EffectRequest, EffectResolution, capability_request, effect_request, named_values_json};
use crate::host::{duplicate_request, same_request};
use crate::boundary::{
    budget_limits, capabilities_verdict, initial_state, initial_state_value, known_limits,
    validate_declared_capabilities,
};
use crate::budget::{Budget, BudgetDimension, BudgetError, Reservation, limit_of};
use crate::capability::{
    CapabilityGrants, grant_hashes, grants_document, grants_json, request_json, texts,
};
use crate::evaluation::{
    ALIAS_LIMIT, BindingModel, EffectKind, Failure, binding_model, MAX_CALL_DEPTH, MachineError, PatternBinding, PolicyRuntimeDecision, argument_key, argument_name, decode_json,
    decode_value, eval_expression, eval_pure, failure, match_pattern, outcome, pattern_match,
    record_insert, slot_insert, slot_lookup, slots_get, slots_insert, slots_view,
    policy_decision, record_to_json, usage_dimension_named, variable_usage_dimension, runtime_to_json, validator_accepts, validator_verdict,
};
use crate::instant::{instant_fields, validate_instant};
use crate::ir::{
    Agent, FieldSpec, InstructionKind, MatchTarget, NamedValue, Program, Routine, TypeSpec, ValueId,
    handler_routine,
};
use crate::json_value::{
    JsonModel, JsonValue, canonical_digest, canonical_sha256, duplicate_members, find_member,
    lemma_members_view, member_lookup, members_view,
};
use crate::ordered::model_insert;
use crate::runtime_value::{
    ReceiptValue, RuntimeValue, ValueModel, value_view, duplicate_record, lemma_list_view, lemma_record_view, list_view,
    record_view,
};
use crate::span::utf8_of;
use crate::table::{find, lemma_position_bounds, lookup, position_of};
use crate::text::str_equal;

verus! {

/// Version of the runtime that writes continuations.
pub const RUNTIME_VERSION: &'static str = "0.2.0";

/// Validated inputs needed to start one agent event; argument and state
/// members are in key order, as the boundary delivers them.
pub struct StartRequest {
    pub agent: String,
    pub event: String,
    pub event_id: String,
    pub event_time: String,
    pub agent_arguments: Vec<(String, JsonValue)>,
    pub payload: JsonValue,
    pub state: Vec<(String, JsonValue)>,
    pub capabilities: CapabilityGrants,
}

/// The JSON document of a start request, whose canonical hash identifies
/// the input of a run.
pub open spec fn start_request_document(request: StartRequest) -> JsonModel {
    JsonModel::Object(
        seq![
            ("agent"@, JsonModel::Text(request.agent@)),
            ("event"@, JsonModel::Text(request.event@)),
            ("event_id"@, JsonModel::Text(request.event_id@)),
            ("event_time"@, JsonModel::Text(request.event_time@)),
            ("agent_arguments"@, JsonModel::Object(members_view(request.agent_arguments@))),
            ("payload"@, request.payload@),
            ("state"@, JsonModel::Object(members_view(request.state@))),
            ("capabilities"@, grants_document(request.capabilities)),
        ],
    )
}

/// One routine frame.
pub struct FrameSnapshot {
    routine: String,
    instruction_pointer: u32,
    locals: Vec<(String, RuntimeValue)>,
    slots: Vec<(ValueId, RuntimeValue)>,
    return_target: Option<ValueId>,
}

impl FrameSnapshot {
    /// Identity of the routine the frame executes.
    pub closed spec fn routine_name(&self) -> Seq<char> {
        self.routine@
    }

    /// Index of the next instruction.
    pub closed spec fn pointer(&self) -> u32 {
        self.instruction_pointer
    }

    /// Named locals, in key order.
    pub closed spec fn local_values(&self) -> Seq<(Seq<char>, ValueModel)> {
        record_view(self.locals@)
    }

    /// Number of value slots filled.
    pub closed spec fn slot_count(&self) -> nat {
        self.slots@.len()
    }

    /// Filled value slots, in identity order.
    pub closed spec fn slot_values(&self) -> Seq<(u32, ValueModel)> {
        slots_view(self.slots@)
    }

    /// Slot receiving the frame's result in its caller, if any.
    pub closed spec fn result_target(&self) -> Option<ValueId> {
        self.return_target
    }
}

/// Complete versioned continuation at an instruction boundary.
pub struct MachineSnapshot {
    pub schema_version: u32,
    pub runtime_version: String,
    pub program_hash: String,
    pub agent: String,
    pub event: String,
    pub event_id: String,
    pub event_time: String,
    pub input_hash: String,
    pub frames: Vec<FrameSnapshot>,
    pub current_state: Vec<(String, RuntimeValue)>,
    pub pending_state: Vec<(String, RuntimeValue)>,
    pub budget: Budget,
    pub grant_fingerprint: String,
    pub grant_request_hashes: Vec<String>,
    pub authority: AuthorityLedger,
    pub trace_position: u64,
    pub trace_hash: String,
    pub pending_effect: Option<PendingEffect>,
    pub snapshot_hash: String,
}

/// What completes a pending effect once its resolution arrives.
pub enum PendingCompletion {
    /// A model answer, decoded against the result type of the named prompt.
    Model { prompt: String },
    /// A read answer, decoded against the result type of the named tool.
    Read { action: String },
    /// A human decision on a proposal under a policy.
    Approval { proposal: Proposal, policy: String, expires_at: String },
    /// A write result, decoded against the result type of the named tool.
    Write { action: String, proposal_hash: String },
}

/// An effect the machine waits on and the slot that receives its value.
pub struct PendingEffect {
    pub request: EffectRequest,
    pub target: ValueId,
    pub reservation: Option<Reservation>,
    /// Variable-usage reservations by dimension name, in the order reserved.
    pub usage_reservations: Vec<(String, Reservation)>,
    pub completion: PendingCompletion,
}

/// Result of a completed event: the published state and the returned value.
#[derive(Debug, PartialEq, Eq)]
pub struct RunOutcome {
    /// State fields in key order.
    pub state: Vec<(String, JsonValue)>,
    pub value: JsonValue,
}

/// One machine transition.
#[derive(Debug, PartialEq, Eq)]
pub enum Step {
    Continue,
    Yield(EffectRequest),
    Completed(RunOutcome),
    Failed(MachineError),
}

/// Explicit-instruction machine over one program.
pub struct Machine {
    program: Program,
    snapshot: MachineSnapshot,
    completed: Option<RunOutcome>,
    failed: Option<MachineError>,
}

impl Machine {
    /// The program the machine runs.
    pub closed spec fn spec_program(&self) -> Program {
        self.program
    }

    /// The machine's continuation.
    pub closed spec fn spec_snapshot(&self) -> MachineSnapshot {
        self.snapshot
    }

    /// The failure that stopped the machine, if any.
    pub closed spec fn spec_failed(&self) -> Option<Failure> {
        match self.failed {
            Some(e) => Some(failure(e)),
            None => None,
        }
    }

    /// The outcome the machine completed with, if any.
    pub closed spec fn spec_completed(&self) -> Option<RunOutcome> {
        self.completed
    }

    /// The continuation's budget ledger is well formed.
    pub open spec fn wf(&self) -> bool {
        self.spec_snapshot().budget.wf()
    }
}

/// What starting an event establishes: the entry frame's locals and the
/// agent's initial state.
pub struct StartModel {
    pub locals: Seq<(Seq<char>, ValueModel)>,
    pub state: Seq<(Seq<char>, ValueModel)>,
}

/// Agent parameters decoded from the arguments in parameter order and
/// collected in key order; a missing argument or failed decode stops.
pub open spec fn parameter_locals(
    parameters: Seq<FieldSpec>,
    arguments: Seq<(Seq<char>, JsonModel)>,
    program: Program,
) -> Result<Seq<(Seq<char>, ValueModel)>, Failure>
    decreases parameters.len(),
{
    if parameters.len() == 0 {
        Ok(Seq::empty())
    } else {
        match parameter_locals(parameters.drop_last(), arguments, program) {
            Ok(locals) => {
                let parameter = parameters.last();
                match member_lookup(arguments, parameter.name@) {
                    Some(document) => match decode_value(
                        document,
                        parameter.ty,
                        program,
                        ALIAS_LIMIT as nat,
                    ) {
                        Ok(v) => Ok(model_insert(locals, parameter.name@, v)),
                        Err(e) => Err(e),
                    },
                    None => Err(Failure::MissingInput(parameter.name@)),
                }
            },
            Err(e) => Err(e),
        }
    }
}

/// Whether some parameter is named `name`.
pub open spec fn declares_parameter(parameters: Seq<FieldSpec>, name: Seq<char>) -> bool {
    exists|j: int| 0 <= j < parameters.len() && #[trigger] parameters[j].name@ == name
}

/// `record` with every local that names a parameter filed into it, locals
/// taken in key order.
pub open spec fn with_parameters(
    record: Seq<(Seq<char>, ValueModel)>,
    locals: Seq<(Seq<char>, ValueModel)>,
    parameters: Seq<FieldSpec>,
) -> Seq<(Seq<char>, ValueModel)>
    decreases locals.len(),
{
    if locals.len() == 0 {
        record
    } else {
        let earlier = with_parameters(record, locals.drop_last(), parameters);
        if declares_parameter(parameters, locals.last().0) {
            model_insert(earlier, locals.last().0, locals.last().1)
        } else {
            earlier
        }
    }
}

/// The record an event is seen as: its identity and time.
pub open spec fn event_record(event_id: Seq<char>, event_time: Seq<char>) -> ValueModel {
    ValueModel::Record(
        model_insert(
            model_insert(Seq::empty(), "id"@, ValueModel::Text(event_id)),
            "time"@,
            ValueModel::Text(event_time),
        ),
    )
}

/// Starting an event: the event time must be a normalized instant, the
/// grant file must compile, the agent and its handler must exist, every
/// agent parameter is decoded from its argument and the payload at the
/// handler's first parameter; declared capabilities must be granted and the
/// initial state must build. The entry locals then also hold `self` (the
/// state with the agent parameters) and `event`.
pub open spec fn start_outcome(program: Program, request: StartRequest) -> Result<StartModel, Failure> {
    if instant_fields(utf8_of(request.event_time@)) is None {
        Err(Failure::InvalidInstant)
    } else if request.capabilities.schema_version != 1 {
        Err(Failure::Capability("capability grant schema mismatch"@))
    } else {
        match lookup(program.agents@, request.agent@) {
            None => Err(Failure::UnknownAgent),
            Some(agent) => match handler_routine(program, request.agent@, request.event@) {
                None => Err(Failure::UnknownEvent),
                Some(routine) => match parameter_locals(
                    agent.parameters@,
                    members_view(request.agent_arguments@),
                    program,
                ) {
                    Err(e) => Err(e),
                    Ok(locals) => if routine.parameters@.len() == 0 {
                        Err(Failure::MissingHandlerParameter)
                    } else {
                        let parameter = routine.parameters@[0];
                        match decode_value(request.payload@, parameter.ty, program, ALIAS_LIMIT as nat) {
                            Err(e) => Err(e),
                            Ok(v) => {
                                let locals = model_insert(locals, parameter.name@, v);
                                match capabilities_verdict(
                                    agent.capabilities@,
                                    locals,
                                    program,
                                    grant_hashes(request.capabilities.grants@),
                                ) {
                                    Err(e) => Err(e),
                                    Ok(()) => match initial_state_value(
                                        agent,
                                        members_view(request.state@),
                                        locals,
                                        program,
                                    ) {
                                        Err(e) => Err(e),
                                        Ok(state) => Ok(
                                            StartModel {
                                                locals: model_insert(
                                                    model_insert(
                                                        locals,
                                                        "self"@,
                                                        ValueModel::Record(
                                                            with_parameters(state, locals, agent.parameters@),
                                                        ),
                                                    ),
                                                    "event"@,
                                                    event_record(request.event_id@, request.event_time@),
                                                ),
                                                state,
                                            },
                                        ),
                                    },
                                }
                            },
                        }
                    },
                },
            },
        }
    }
}

/// A parameter list's failure stops at its first failing parameter.
proof fn lemma_parameter_failure_persists(
    parameters: Seq<FieldSpec>,
    arguments: Seq<(Seq<char>, JsonModel)>,
    program: Program,
    n: int,
)
    requires
        0 <= n <= parameters.len(),
        parameter_locals(parameters.take(n), arguments, program) is Err,
    ensures
        parameter_locals(parameters, arguments, program) == parameter_locals(
            parameters.take(n),
            arguments,
            program,
        ),
    decreases parameters.len() - n,
{
    if n < parameters.len() {
        assert(parameters.take(n + 1).drop_last() =~= parameters.take(n));
        lemma_parameter_failure_persists(parameters, arguments, program, n + 1);
    } else {
        assert(parameters.take(n) =~= parameters);
    }
}

/// Decodes each parameter from its argument, collecting them in key order.
pub fn decode_parameters(
    parameters: &Vec<FieldSpec>,
    arguments: &Vec<(String, JsonValue)>,
    program: &Program,
) -> (result: Result<Vec<(String, RuntimeValue)>, MachineError>)
    ensures
        match result {
            Ok(locals) => parameter_locals(parameters@, members_view(arguments@), *program) == Ok::<
                Seq<(Seq<char>, ValueModel)>,
                Failure,
            >(record_view(locals@)),
            Err(e) => parameter_locals(parameters@, members_view(arguments@), *program) == Err::<
                Seq<(Seq<char>, ValueModel)>,
                Failure,
            >(failure(e)),
        },
{
    let ghost view = members_view(arguments@);
    let mut locals: Vec<(String, RuntimeValue)> = Vec::new();
    let mut i: usize = 0;
    proof {
        assert(parameters@.take(0) =~= Seq::<FieldSpec>::empty());
        assert(record_view(locals@) =~= Seq::<(Seq<char>, ValueModel)>::empty());
    }
    while i < parameters.len()
        invariant
            i <= parameters@.len(),
            view == members_view(arguments@),
            parameter_locals(parameters@.take(i as int), view, *program) == Ok::<
                Seq<(Seq<char>, ValueModel)>,
                Failure,
            >(record_view(locals@)),
        decreases parameters@.len() - i,
    {
        proof {
            assert(parameters@.take(i + 1).drop_last() =~= parameters@.take(i as int));
            assert(parameters@.take(i + 1).last() == parameters@[i as int]);
        }
        let parameter = &parameters[i];
        let k = match find_member(arguments, parameter.name.as_str()) {
            Some(k) => k,
            None => {
                proof {
                    lemma_parameter_failure_persists(parameters@, view, *program, i + 1);
                }
                return Err(MachineError::MissingInput(parameter.name.clone()));
            },
        };
        let value = match decode_json(&arguments[k].1, &parameter.ty, program) {
            Ok(v) => v,
            Err(e) => {
                proof {
                    lemma_parameter_failure_persists(parameters@, view, *program, i + 1);
                }
                return Err(e);
            },
        };
        record_insert(&mut locals, parameter.name.clone(), value);
        i = i + 1;
    }
    proof {
        assert(parameters@.take(parameters@.len() as int) =~= parameters@);
    }
    Ok(locals)
}

/// Whether some parameter is named `name`.
pub fn names_parameter(parameters: &Vec<FieldSpec>, name: &str) -> (named: bool)
    ensures
        named == declares_parameter(parameters@, name@),
{
    let mut j: usize = 0;
    while j < parameters.len()
        invariant
            j <= parameters@.len(),
            forall|k: int| 0 <= k < j ==> #[trigger] parameters@[k].name@ != name@,
        decreases parameters@.len() - j,
    {
        if str_equal(parameters[j].name.as_str(), name) {
            return true;
        }
        j = j + 1;
    }
    false
}

/// The JSON document of a start request.
pub fn start_request_json(request: &StartRequest) -> (document: JsonValue)
    ensures
        document@ == start_request_document(*request),
{
    let document = JsonValue::Object(
        vec![
            (String::from_str("agent"), JsonValue::String(request.agent.clone())),
            (String::from_str("event"), JsonValue::String(request.event.clone())),
            (String::from_str("event_id"), JsonValue::String(request.event_id.clone())),
            (String::from_str("event_time"), JsonValue::String(request.event_time.clone())),
            (
                String::from_str("agent_arguments"),
                JsonValue::Object(duplicate_members(&request.agent_arguments)),
            ),
            (String::from_str("payload"), request.payload.duplicate()),
            (String::from_str("state"), JsonValue::Object(duplicate_members(&request.state))),
            (String::from_str("capabilities"), grants_json(&request.capabilities)),
        ],
    );
    proof {
        match &document {
            JsonValue::Object(members) => {
                lemma_members_view(members@);
                assert(members_view(members@) =~= seq![
                    ("agent"@, JsonModel::Text(request.agent@)),
                    ("event"@, JsonModel::Text(request.event@)),
                    ("event_id"@, JsonModel::Text(request.event_id@)),
                    ("event_time"@, JsonModel::Text(request.event_time@)),
                    ("agent_arguments"@, JsonModel::Object(members_view(request.agent_arguments@))),
                    ("payload"@, request.payload@),
                    ("state"@, JsonModel::Object(members_view(request.state@))),
                    ("capabilities"@, grants_document(request.capabilities)),
                ]);
            },
            _ => {},
        }
    }
    document
}

/// What a started machine holds: the program; a snapshot of schema one
/// naming the program, the event and the canonical hash of the request; one
/// entry frame at the handler's first instruction with the started locals
/// and no slots; the initial state and no pending state; a fresh budget with
/// the agent's limits; the grant fingerprint and admitted requests; an empty
/// authority ledger; an empty trace position and hash; no seal.
pub open spec fn started(machine: Machine, program: Program, request: StartRequest, model: StartModel) -> bool {
    let s = machine.spec_snapshot();
    let agent = lookup(program.agents@, request.agent@)->0;
    let routine = handler_routine(program, request.agent@, request.event@)->0;
    &&& machine.spec_program() == program
    &&& s.schema_version == 1
    &&& s.runtime_version@ == RUNTIME_VERSION@
    &&& s.program_hash@ == program.program_hash@
    &&& s.agent@ == request.agent@
    &&& s.event@ == request.event@
    &&& s.event_id@ == request.event_id@
    &&& s.event_time@ == request.event_time@
    &&& s.input_hash@ == canonical_digest(start_request_document(request))
    &&& s.frames@.len() == 1
    &&& s.frames@[0].routine_name() == routine.name@
    &&& s.frames@[0].pointer() == 0
    &&& s.frames@[0].local_values() == model.locals
    &&& s.frames@[0].slot_count() == 0
    &&& s.frames@[0].result_target() is None
    &&& record_view(s.current_state@) == model.state
    &&& s.pending_state@.len() == 0
    &&& s.budget.wf()
    &&& (forall|d: BudgetDimension| #[trigger] s.budget.remaining_of(d) == limit_of(
        known_limits(agent.budget@),
        d,
    ))
    &&& s.budget.outstanding() == Map::<u64, Reservation>::empty()
    &&& s.budget.next_reservation_id() == 0
    &&& s.grant_fingerprint@ == canonical_digest(grants_document(request.capabilities))
    &&& texts(s.grant_request_hashes@) == grant_hashes(request.capabilities.grants@)
    &&& s.authority.issued_table().len() == 0
    &&& s.authority.consumed_ids().len() == 0
    &&& s.authority.next_sequence_number() == 0
    &&& s.trace_position == 0
    &&& s.trace_hash@.len() == 0
    &&& s.pending_effect is None
    &&& s.snapshot_hash@.len() == 0
    &&& machine.spec_failed() is None
    &&& machine.spec_completed() is None
}

impl Machine {
    /// Validates an entry point and initializes its entry frame.
    pub fn start(program: Program, request: StartRequest) -> (result: Result<Machine, MachineError>)
        ensures
            match result {
                Ok(machine) => match start_outcome(program, request) {
                    Ok(model) => started(machine, program, request, model),
                    Err(_) => false,
                },
                Err(e) => start_outcome(program, request) == Err::<StartModel, Failure>(failure(e)),
            },
    {
        if validate_instant(request.event_time.as_str()).is_err() {
            return Err(MachineError::InvalidInstant);
        }
        let compiled = match request.capabilities.compile() {
            Ok(c) => c,
            Err(e) => {
                return Err(MachineError::Capability(String::from_str(e.message())));
            },
        };
        let a = match find(&program.agents, request.agent.as_str()) {
            Some(a) => a,
            None => {
                return Err(MachineError::UnknownAgent);
            },
        };
        proof {
            lemma_position_bounds(program.agents@, request.agent@);
        }
        let agent = &program.agents[a].1;
        let routine = match program.handler(request.agent.as_str(), request.event.as_str()) {
            Some(r) => r,
            None => {
                return Err(MachineError::UnknownEvent);
            },
        };
        let mut locals = match decode_parameters(&agent.parameters, &request.agent_arguments, &program) {
            Ok(l) => l,
            Err(e) => {
                return Err(e);
            },
        };
        if routine.parameters.len() == 0 {
            return Err(MachineError::MissingHandlerParameter);
        }
        let handler_parameter = &routine.parameters[0];
        let payload = match decode_json(&request.payload, &handler_parameter.ty, &program) {
            Ok(v) => v,
            Err(e) => {
                return Err(e);
            },
        };
        record_insert(&mut locals, handler_parameter.name.clone(), payload);
        match validate_declared_capabilities(&agent.capabilities, &locals, &program, &compiled) {
            Ok(()) => {},
            Err(e) => {
                return Err(e);
            },
        }
        let current_state = match initial_state(agent, &request.state, &locals, &program) {
            Ok(s) => s,
            Err(e) => {
                return Err(e);
            },
        };
        let ghost entry = record_view(locals@);
        let mut self_record = duplicate_record(&current_state);
        let mut j: usize = 0;
        proof {
            lemma_record_view(locals@);
            assert(entry.take(0) =~= Seq::<(Seq<char>, ValueModel)>::empty());
        }
        while j < locals.len()
            invariant
                j <= locals@.len(),
                entry == record_view(locals@),
                entry.len() == locals@.len(),
                forall|k: int|
                    0 <= k < locals@.len() ==> #[trigger] entry[k] == (
                        locals@[k].0@,
                        crate::runtime_value::value_view(locals@[k].1),
                    ),
                record_view(self_record@) == with_parameters(
                    record_view(current_state@),
                    entry.take(j as int),
                    agent.parameters@,
                ),
            decreases locals@.len() - j,
        {
            proof {
                assert(entry.take(j + 1).drop_last() =~= entry.take(j as int));
                assert(entry.take(j + 1).last() == entry[j as int]);
            }
            if names_parameter(&agent.parameters, locals[j].0.as_str()) {
                record_insert(&mut self_record, locals[j].0.clone(), locals[j].1.duplicate());
            }
            j = j + 1;
        }
        proof {
            assert(entry.take(locals@.len() as int) =~= entry);
        }
        record_insert(&mut locals, String::from_str("self"), RuntimeValue::Record(self_record));
        let mut event_members: Vec<(String, RuntimeValue)> = Vec::new();
        proof {
            assert(record_view(event_members@) =~= Seq::<(Seq<char>, ValueModel)>::empty());
        }
        record_insert(&mut event_members, String::from_str("id"), RuntimeValue::Text(request.event_id.clone()));
        record_insert(
            &mut event_members,
            String::from_str("time"),
            RuntimeValue::Text(request.event_time.clone()),
        );
        record_insert(&mut locals, String::from_str("event"), RuntimeValue::Record(event_members));
        let input_hash = canonical_sha256(&start_request_json(&request));
        let budget = Budget::new(budget_limits(&agent.budget));
        let routine_name = routine.name.clone();
        let frame = FrameSnapshot {
            routine: routine_name,
            instruction_pointer: 0,
            locals,
            slots: Vec::new(),
            return_target: None,
        };
        let program_hash = program.program_hash.clone();
        let snapshot = MachineSnapshot {
            schema_version: 1,
            runtime_version: String::from_str(RUNTIME_VERSION),
            program_hash,
            agent: request.agent,
            event: request.event,
            event_id: request.event_id,
            event_time: request.event_time,
            input_hash,
            frames: vec![frame],
            current_state,
            pending_state: Vec::new(),
            budget,
            grant_fingerprint: compiled.fingerprint,
            grant_request_hashes: compiled.request_hashes,
            authority: AuthorityLedger::new(),
            trace_position: 0,
            trace_hash: String::new(),
            pending_effect: None,
            snapshot_hash: String::new(),
        };
        Ok(Machine { program, snapshot, completed: None, failed: None })
    }

    /// Resumes a continuation against the exact program it was taken from.
    pub fn restore(program: Program, snapshot: MachineSnapshot) -> (result: Result<Machine, MachineError>)
        ensures
            match result {
                Ok(machine) => program.program_hash@ == snapshot.program_hash@
                    && machine.spec_program() == program && machine.spec_snapshot() == snapshot
                    && machine.spec_failed() is None && machine.spec_completed() is None,
                Err(e) => program.program_hash@ != snapshot.program_hash@ && e == MachineError::ProgramMismatch,
            },
    {
        if !str_equal(program.program_hash.as_str(), snapshot.program_hash.as_str()) {
            return Err(MachineError::ProgramMismatch);
        }
        Ok(Machine { program, snapshot, completed: None, failed: None })
    }
}


/// The running frame of a continuation: its last frame.
pub open spec fn top_frame(s: MachineSnapshot) -> FrameSnapshot {
    s.frames@.last()
}

/// The instruction the machine runs next: the one at the running frame's
/// pointer in the routine the frame names.
pub open spec fn next_instruction(program: Program, s: MachineSnapshot) -> Option<InstructionKind> {
    if s.frames@.len() == 0 {
        None
    } else {
        match lookup(program.routines@, top_frame(s).routine_name()) {
            Some(r) => if (top_frame(s).pointer() as int) < r.instructions@.len() {
                Some(r.instructions@[top_frame(s).pointer() as int].kind)
            } else {
                None
            },
            None => None,
        }
    }
}

/// Why no instruction can run: no frame, an unknown routine, or a pointer
/// past the routine's end.
pub open spec fn missing_instruction(program: Program, s: MachineSnapshot) -> Failure {
    if s.frames@.len() == 0 {
        Failure::MissingFrame
    } else if lookup(program.routines@, top_frame(s).routine_name()) is None {
        Failure::UnknownRoutine
    } else {
        Failure::InvalidIp
    }
}

/// How a control or pure instruction leaves the running frame: its new
/// locals, slots and pointer, or the failure it stops with.
pub enum FrameStep {
    Next { locals: Seq<(Seq<char>, ValueModel)>, slots: Seq<(u32, ValueModel)>, pointer: u32 },
    Fail(Failure),
}

/// Moving on to the following instruction.
pub open spec fn advance_to(
    locals: Seq<(Seq<char>, ValueModel)>,
    slots: Seq<(u32, ValueModel)>,
    pointer: u32,
) -> FrameStep {
    if pointer == u32::MAX {
        FrameStep::Fail(Failure::InvalidIp)
    } else {
        FrameStep::Next { locals, slots, pointer: (pointer + 1) as u32 }
    }
}

/// The target and binding of the first arm whose pattern matches `value`.
pub open spec fn first_arm(value: ValueModel, arms: Seq<MatchTarget>) -> Option<(u32, BindingModel)>
    decreases arms.len(),
{
    if arms.len() == 0 {
        None
    } else {
        match pattern_match(value, arms[0].pattern) {
            Some(b) => Some((arms[0].target, b)),
            None => first_arm(value, arms.drop_first()),
        }
    }
}

/// The effect of a control or pure instruction on the running frame;
/// `None` for calls, returns, state updates and governed effects.
pub open spec fn frame_step(
    kind: InstructionKind,
    locals: Seq<(Seq<char>, ValueModel)>,
    slots: Seq<(u32, ValueModel)>,
    pointer: u32,
    program: Program,
) -> Option<FrameStep> {
    match kind {
        InstructionKind::Evaluate { target, expression } => Some(
            match eval_pure(expression, locals, slots, program, MAX_CALL_DEPTH as nat) {
                Ok(v) => advance_to(locals, slot_insert(slots, target.0, v), pointer),
                Err(f) => FrameStep::Fail(f),
            },
        ),
        InstructionKind::Bind { name, value } => Some(
            match slot_lookup(slots, value.0) {
                Some(v) => advance_to(model_insert(locals, name@, v), slots, pointer),
                None => FrameStep::Fail(Failure::UnknownValue),
            },
        ),
        InstructionKind::UnwrapResult { target, result } => Some(
            match slot_lookup(slots, result.0) {
                Some(ValueModel::Outcome(Ok(v))) => advance_to(locals, slot_insert(slots, target.0, *v), pointer),
                Some(ValueModel::Outcome(Err(m))) => FrameStep::Fail(Failure::PropagatedError(m)),
                Some(_) => FrameStep::Fail(Failure::TypeMismatch("expected Result"@)),
                None => FrameStep::Fail(Failure::UnknownValue),
            },
        ),
        InstructionKind::Branch { condition, then_target, else_target } => Some(
            match slot_lookup(slots, condition.0) {
                Some(ValueModel::Bool(true)) => FrameStep::Next { locals, slots, pointer: then_target },
                Some(ValueModel::Bool(false)) => FrameStep::Next { locals, slots, pointer: else_target },
                Some(_) => FrameStep::Fail(Failure::TypeMismatch("branch condition"@)),
                None => FrameStep::Fail(Failure::UnknownValue),
            },
        ),
        InstructionKind::Jump { target } => Some(FrameStep::Next { locals, slots, pointer: target }),
        InstructionKind::Match { value, arms } => Some(
            match slot_lookup(slots, value.0) {
                Some(v) => match first_arm(v, arms@) {
                    Some((t, BindingModel::Bound(n, b))) => FrameStep::Next {
                        locals: model_insert(locals, n, b),
                        slots,
                        pointer: t,
                    },
                    Some((t, BindingModel::Unbound)) => FrameStep::Next { locals, slots, pointer: t },
                    None => FrameStep::Fail(Failure::NonExhaustiveMatch),
                },
                None => FrameStep::Fail(Failure::UnknownValue),
            },
        ),
        InstructionKind::Require { condition } => Some(
            match slot_lookup(slots, condition.0) {
                Some(ValueModel::Bool(true)) => advance_to(locals, slots, pointer),
                Some(_) => FrameStep::Fail(Failure::RequirementFailed),
                None => FrameStep::Fail(Failure::UnknownValue),
            },
        ),
        InstructionKind::Validate { target, candidate, validator } => Some(
            match slot_lookup(slots, candidate.0) {
                Some(ValueModel::Candidate(v)) => match validator_verdict(program, validator@, seq![*v]) {
                    Ok(true) => advance_to(
                        locals,
                        slot_insert(slots, target.0, ValueModel::Outcome(Ok(Box::new(ValueModel::Checked(v))))),
                        pointer,
                    ),
                    Ok(false) => advance_to(
                        locals,
                        slot_insert(slots, target.0, ValueModel::Outcome(Err("validation failed"@))),
                        pointer,
                    ),
                    Err(f) => FrameStep::Fail(f),
                },
                Some(_) => FrameStep::Fail(Failure::TypeMismatch("Candidate"@)),
                None => FrameStep::Fail(Failure::UnknownValue),
            },
        ),
        InstructionKind::Reconcile { target, receipt, observation, validator } => Some(
            match slot_lookup(slots, receipt.0) {
                Some(ValueModel::Receipt(a, h, v)) => match slot_lookup(slots, observation.0) {
                    Some(ValueModel::Observation(o)) => match validator_verdict(
                        program,
                        validator@,
                        seq![*v, *o],
                    ) {
                        Ok(true) => advance_to(
                            locals,
                            slot_insert(
                                slots,
                                target.0,
                                ValueModel::Outcome(Ok(Box::new(ValueModel::Reconciled(a, h, v)))),
                            ),
                            pointer,
                        ),
                        Ok(false) => advance_to(
                            locals,
                            slot_insert(slots, target.0, ValueModel::Outcome(Err("reconciliation failed"@))),
                            pointer,
                        ),
                        Err(f) => FrameStep::Fail(f),
                    },
                    Some(_) => FrameStep::Fail(Failure::TypeMismatch("Observation"@)),
                    None => FrameStep::Fail(Failure::UnknownValue),
                },
                Some(_) => FrameStep::Fail(Failure::TypeMismatch("Receipt"@)),
                None => FrameStep::Fail(Failure::UnknownValue),
            },
        ),
        _ => None,
    }
}

/// A frame that runs the same routine for the same caller, with the given
/// locals, slots and pointer.
pub open spec fn frame_is(
    frame: FrameSnapshot,
    like: FrameSnapshot,
    locals: Seq<(Seq<char>, ValueModel)>,
    slots: Seq<(u32, ValueModel)>,
    pointer: u32,
) -> bool {
    &&& frame.routine_name() == like.routine_name()
    &&& frame.result_target() == like.result_target()
    &&& frame.local_values() == locals
    &&& frame.slot_values() == slots
    &&& frame.pointer() == pointer
}

fn type_mismatch_error(what: &str) -> (error: MachineError)
    ensures
        failure(error) == Failure::TypeMismatch(what@),
{
    MachineError::TypeMismatch(what.to_owned())
}

/// The next instruction after `pointer`.
fn next_pointer(pointer: u32) -> (result: Result<u32, MachineError>)
    ensures
        match advance_to(Seq::empty(), Seq::empty(), pointer) {
            FrameStep::Next { pointer: p, .. } => result == Ok::<u32, MachineError>(p),
            FrameStep::Fail(f) => result matches Err(e) && failure(e) == f,
        },
{
    if pointer == u32::MAX {
        Err(MachineError::InvalidIp)
    } else {
        Ok(pointer + 1)
    }
}

/// Runs a control or pure instruction on `frame`; `None`, with the frame
/// untouched, for the instructions that reach beyond it.
fn run_local(frame: &mut FrameSnapshot, kind: &InstructionKind, program: &Program) -> (result: Option<
    Result<(), MachineError>,
>)
    ensures
        match frame_step(
            *kind,
            old(frame).local_values(),
            old(frame).slot_values(),
            old(frame).pointer(),
            *program,
        ) {
            None => result is None && *final(frame) == *old(frame),
            Some(FrameStep::Next { locals, slots, pointer }) => result == Some(
                Ok::<(), MachineError>(()),
            ) && frame_is(*final(frame), *old(frame), locals, slots, pointer),
            Some(FrameStep::Fail(f)) => result matches Some(Err(e)) && failure(e) == f,
        },
{
    match kind {
        InstructionKind::Evaluate { target, expression } => {
            let value = match eval_expression(expression, &frame.locals, &frame.slots, program) {
                Ok(v) => v,
                Err(e) => {
                    return Some(Err(e));
                },
            };
            let pointer = match next_pointer(frame.instruction_pointer) {
                Ok(p) => p,
                Err(e) => {
                    return Some(Err(e));
                },
            };
            slots_insert(&mut frame.slots, *target, value);
            frame.instruction_pointer = pointer;
            Some(Ok(()))
        },
        InstructionKind::Bind { name, value } => {
            let v = match slots_get(&frame.slots, *value) {
                Some(v) => v.duplicate(),
                None => {
                    return Some(Err(MachineError::UnknownValue));
                },
            };
            let pointer = match next_pointer(frame.instruction_pointer) {
                Ok(p) => p,
                Err(e) => {
                    return Some(Err(e));
                },
            };
            record_insert(&mut frame.locals, name.clone(), v);
            frame.instruction_pointer = pointer;
            Some(Ok(()))
        },
        InstructionKind::UnwrapResult { target, result } => {
            let inner = match slots_get(&frame.slots, *result) {
                Some(RuntimeValue::Result(Ok(v))) => v.duplicate(),
                Some(RuntimeValue::Result(Err(m))) => {
                    return Some(Err(MachineError::PropagatedError(m.clone())));
                },
                Some(_) => {
                    return Some(Err(type_mismatch_error("expected Result")));
                },
                None => {
                    return Some(Err(MachineError::UnknownValue));
                },
            };
            let pointer = match next_pointer(frame.instruction_pointer) {
                Ok(p) => p,
                Err(e) => {
                    return Some(Err(e));
                },
            };
            slots_insert(&mut frame.slots, *target, inner);
            frame.instruction_pointer = pointer;
            Some(Ok(()))
        },
        InstructionKind::Branch { condition, then_target, else_target } => {
            let pointer = match slots_get(&frame.slots, *condition) {
                Some(RuntimeValue::Bool(true)) => *then_target,
                Some(RuntimeValue::Bool(false)) => *else_target,
                Some(_) => {
                    return Some(Err(type_mismatch_error("branch condition")));
                },
                None => {
                    return Some(Err(MachineError::UnknownValue));
                },
            };
            frame.instruction_pointer = pointer;
            Some(Ok(()))
        },
        InstructionKind::Jump { target } => {
            frame.instruction_pointer = *target;
            Some(Ok(()))
        },
        InstructionKind::Match { .. } => Some(run_match(frame, kind, program)),
        InstructionKind::Require { condition } => {
            match slots_get(&frame.slots, *condition) {
                Some(RuntimeValue::Bool(true)) => {},
                Some(_) => {
                    return Some(Err(MachineError::RequirementFailed));
                },
                None => {
                    return Some(Err(MachineError::UnknownValue));
                },
            }
            let pointer = match next_pointer(frame.instruction_pointer) {
                Ok(p) => p,
                Err(e) => {
                    return Some(Err(e));
                },
            };
            frame.instruction_pointer = pointer;
            Some(Ok(()))
        },
        InstructionKind::Validate { .. } => Some(run_validate(frame, kind, program)),
        InstructionKind::Reconcile { .. } => Some(run_reconcile(frame, kind, program)),
        _ => None,
    }
}


fn run_match(frame: &mut FrameSnapshot, kind: &InstructionKind, program: &Program) -> (result: Result<(), MachineError>)
    requires
        kind is Match,
    ensures
        match frame_step(
            *kind,
            old(frame).local_values(),
            old(frame).slot_values(),
            old(frame).pointer(),
            *program,
        ) {
            Some(FrameStep::Next { locals, slots, pointer }) => result == Ok::<(), MachineError>(())
                && frame_is(*final(frame), *old(frame), locals, slots, pointer),
            Some(FrameStep::Fail(f)) => result matches Err(e) && failure(e) == f,
            None => false,
        },
{
    match kind {
        InstructionKind::Match { value, arms } => {
            let v = match slots_get(&frame.slots, *value) {
                Some(v) => v,
                None => {
                    return Err(MachineError::UnknownValue);
                },
            };
            let ghost model = v@;
            let mut i: usize = 0;
            proof {
                assert(arms@.skip(0) =~= arms@);
            }
            while i < arms.len()
                invariant
                    i <= arms@.len(),
                    *frame == *old(frame),
                    model == v@,
                    slot_lookup(old(frame).slot_values(), value.0) == Some(model),
                    *kind == (InstructionKind::Match { value: *value, arms: *arms }),
                    first_arm(model, arms@) == first_arm(model, arms@.skip(i as int)),
                decreases arms@.len() - i,
            {
                proof {
                    assert(arms@.skip(i as int)[0] == arms@[i as int]);
                    assert(arms@.skip(i as int).drop_first() =~= arms@.skip(i + 1));
                }
                let matched = match_pattern(v, &arms[i].pattern);
                let ghost bm = if matched is Some {
                    Some(binding_model(matched->0))
                } else {
                    None::<BindingModel>
                };
                proof {
                    let rest = arms@.skip(i as int);
                    assert(rest.len() > 0);
                    assert(rest[0] == arms@[i as int]);
                    assert(pattern_match(model, rest[0].pattern) == bm);
                    if bm is Some {
                        assert(first_arm(model, rest) == Some((arms@[i as int].target, bm->0)));
                    } else {
                        assert(first_arm(model, rest) == first_arm(model, rest.drop_first()));
                    }
                }
                match matched {
                    Some(PatternBinding::Bound(n, b)) => {
                        let target = arms[i].target;
                        record_insert(&mut frame.locals, n, *b);
                        frame.instruction_pointer = target;
                        return Ok(());
                    },
                    Some(PatternBinding::Unbound) => {
                        frame.instruction_pointer = arms[i].target;
                        return Ok(());
                    },
                    None => {},
                }
                i = i + 1;
            }
            proof {
                assert(arms@.skip(i as int) =~= Seq::<MatchTarget>::empty());
            }
            Err(MachineError::NonExhaustiveMatch)
        },
        _ => Err(MachineError::UnsupportedInstruction),
    }
}

fn run_validate(frame: &mut FrameSnapshot, kind: &InstructionKind, program: &Program) -> (result: Result<(), MachineError>)
    requires
        kind is Validate,
    ensures
        match frame_step(
            *kind,
            old(frame).local_values(),
            old(frame).slot_values(),
            old(frame).pointer(),
            *program,
        ) {
            Some(FrameStep::Next { locals, slots, pointer }) => result == Ok::<(), MachineError>(())
                && frame_is(*final(frame), *old(frame), locals, slots, pointer),
            Some(FrameStep::Fail(f)) => result matches Err(e) && failure(e) == f,
            None => false,
        },
{
    match kind {
        InstructionKind::Validate { target, candidate, validator } => {
            let inner = match slots_get(&frame.slots, *candidate) {
                Some(RuntimeValue::Candidate(v)) => v.duplicate(),
                Some(_) => {
                    return Err(type_mismatch_error("Candidate"));
                },
                None => {
                    return Err(MachineError::UnknownValue);
                },
            };
            let values = vec![inner.duplicate()];
            proof {
                lemma_list_view(values@);
                assert(list_view(values@) =~= seq![inner@]);
            }
            let valid = match validator_accepts(program, validator.as_str(), values) {
                Ok(b) => b,
                Err(e) => {
                    return Err(e);
                },
            };
            let pointer = match next_pointer(frame.instruction_pointer) {
                Ok(p) => p,
                Err(e) => {
                    return Err(e);
                },
            };
            let ghost inner_model = inner@;
            let value = if valid {
                let checked = RuntimeValue::Checked(Box::new(inner));
                proof {
                    assert(checked@ == ValueModel::Checked(Box::new(inner_model)));
                }
                RuntimeValue::Result(Ok(Box::new(checked)))
            } else {
                RuntimeValue::Result(Err(String::from_str("validation failed")))
            };
            slots_insert(&mut frame.slots, *target, value);
            frame.instruction_pointer = pointer;
            Ok(())
        },
        _ => Err(MachineError::UnsupportedInstruction),
    }
}

fn run_reconcile(frame: &mut FrameSnapshot, kind: &InstructionKind, program: &Program) -> (result: Result<(), MachineError>)
    requires
        kind is Reconcile,
    ensures
        match frame_step(
            *kind,
            old(frame).local_values(),
            old(frame).slot_values(),
            old(frame).pointer(),
            *program,
        ) {
            Some(FrameStep::Next { locals, slots, pointer }) => result == Ok::<(), MachineError>(())
                && frame_is(*final(frame), *old(frame), locals, slots, pointer),
            Some(FrameStep::Fail(f)) => result matches Err(e) && failure(e) == f,
            None => false,
        },
{
    match kind {
        InstructionKind::Reconcile { target, receipt, observation, validator } => {
            let (action, hash, written) = match slots_get(&frame.slots, *receipt) {
                Some(RuntimeValue::Receipt(r)) => (r.action.clone(), r.proposal_hash.clone(), r.value.duplicate()),
                Some(_) => {
                    return Err(type_mismatch_error("Receipt"));
                },
                None => {
                    return Err(MachineError::UnknownValue);
                },
            };
            let observed = match slots_get(&frame.slots, *observation) {
                Some(RuntimeValue::Observation(o)) => o.duplicate(),
                Some(_) => {
                    return Err(type_mismatch_error("Observation"));
                },
                None => {
                    return Err(MachineError::UnknownValue);
                },
            };
            let values = vec![written.duplicate(), observed];
            proof {
                lemma_list_view(values@);
                assert(list_view(values@) =~= seq![written@, values@[1]@]);
            }
            let valid = match validator_accepts(program, validator.as_str(), values) {
                Ok(b) => b,
                Err(e) => {
                    return Err(e);
                },
            };
            let pointer = match next_pointer(frame.instruction_pointer) {
                Ok(p) => p,
                Err(e) => {
                    return Err(e);
                },
            };
            let ghost written_model = written@;
            let value = if valid {
                let reconciled = RuntimeValue::Reconciled(
                    ReceiptValue { action, proposal_hash: hash, value: Box::new(written) },
                );
                proof {
                    assert(reconciled@ == ValueModel::Reconciled(action@, hash@, Box::new(written_model)));
                }
                RuntimeValue::Result(Ok(Box::new(reconciled)))
            } else {
                RuntimeValue::Result(Err(String::from_str("reconciliation failed")))
            };
            slots_insert(&mut frame.slots, *target, value);
            frame.instruction_pointer = pointer;
            Ok(())
        },
        _ => Err(MachineError::UnsupportedInstruction),
    }
}


/// Whether a request is admitted: no capability is needed, or its canonical
/// hash is among the granted request hashes.
pub open spec fn capability_admitted(granted: Seq<Seq<char>>, request: JsonModel) -> bool {
    request == JsonModel::Null || granted.contains(canonical_digest(request))
}

/// Checks that a capability request is granted.
fn require_capability(s: &MachineSnapshot, request: &JsonValue) -> (result: Result<(), MachineError>)
    ensures
        result is Ok <==> capability_admitted(texts(s.grant_request_hashes@), request@),
        result matches Err(e) ==> e == MachineError::MissingCapability,
{
    if let JsonValue::Null = request {
        return Ok(());
    }
    let hash = canonical_sha256(request);
    let mut i: usize = 0;
    while i < s.grant_request_hashes.len()
        invariant
            i <= s.grant_request_hashes@.len(),
            hash@ == canonical_digest(request@),
            request@ != JsonModel::Null,
            forall|j: int| 0 <= j < i ==> s.grant_request_hashes@[j]@ != hash@,
        decreases s.grant_request_hashes@.len() - i,
    {
        if str_equal(s.grant_request_hashes[i].as_str(), hash.as_str()) {
            proof {
                assert(texts(s.grant_request_hashes@)[i as int] == hash@);
            }
            return Ok(());
        }
        i = i + 1;
    }
    proof {
        if texts(s.grant_request_hashes@).contains(hash@) {
            let j = choose|j: int| 0 <= j < texts(s.grant_request_hashes@).len() && texts(s.grant_request_hashes@)[j] == hash@;
            assert(s.grant_request_hashes@[j]@ == hash@);
        }
    }
    Err(MachineError::MissingCapability)
}

/// The value in slot `id` of the running frame.
fn frame_slot(s: &MachineSnapshot, id: ValueId) -> (result: Result<&RuntimeValue, MachineError>)
    ensures
        match result {
            Ok(v) => s.frames@.len() > 0 && slot_lookup(top_frame(*s).slot_values(), id.0) == Some(v@),
            Err(e) => failure(e) == (if s.frames@.len() == 0 {
                Failure::MissingFrame
            } else {
                Failure::UnknownValue
            }),
        },
{
    let n = s.frames.len();
    if n == 0 {
        return Err(MachineError::MissingFrame);
    }
    match slots_get(&s.frames[n - 1].slots, id) {
        Some(v) => Ok(v),
        None => Err(MachineError::UnknownValue),
    }
}

/// Files `value` in slot `id` of the running frame.
fn set_frame_slot(s: &mut MachineSnapshot, id: ValueId, value: RuntimeValue) -> (result: Result<
    (),
    MachineError,
>)
    ensures
        final(s).budget == old(s).budget,
        final(s).current_state == old(s).current_state,
        final(s).pending_effect == old(s).pending_effect,
        result is Ok ==> old(s).frames@.len() > 0 && final(s).frames@.len() == old(s).frames@.len()
            && top_frame(*final(s)).slot_values() == slot_insert(
            top_frame(*old(s)).slot_values(),
            id.0,
            value@,
        ),
{
    match s.frames.pop() {
        Some(frame) => {
            let mut frame = frame;
            slots_insert(&mut frame.slots, id, value);
            s.frames.push(frame);
            Ok(())
        },
        None => Err(MachineError::MissingFrame),
    }
}

/// Moves the running frame to its next instruction.
fn advance_frame(s: &mut MachineSnapshot) -> (result: Result<(), MachineError>)
    ensures
        final(s).pending_state == old(s).pending_state,
        final(s).budget == old(s).budget,
        final(s).current_state == old(s).current_state,
        final(s).pending_effect == old(s).pending_effect,
        result is Ok ==> old(s).frames@.len() > 0 && final(s).frames@.len() == old(s).frames@.len()
            && top_frame(*final(s)).slot_values() == top_frame(*old(s)).slot_values(),
{
    match s.frames.pop() {
        Some(frame) => {
            let mut frame = frame;
            let pointer = match next_pointer(frame.instruction_pointer) {
                Ok(p) => p,
                Err(e) => {
                    s.frames.push(frame);
                    return Err(e);
                },
            };
            frame.instruction_pointer = pointer;
            s.frames.push(frame);
            Ok(())
        },
        None => Err(MachineError::MissingFrame),
    }
}

/// The JSON document of a structural type.
fn type_json(ty: &TypeSpec) -> (document: JsonValue)
    decreases ty,
{
    let mut items: Vec<JsonValue> = Vec::new();
    let mut i: usize = 0;
    while i < ty.arguments.len()
        invariant
            i <= ty.arguments@.len(),
        decreases ty.arguments@.len() - i,
    {
        items.push(type_json(&ty.arguments[i]));
        i = i + 1;
    }
    JsonValue::Object(
        vec![
            (String::from_str("arguments"), JsonValue::Array(items)),
            (String::from_str("name"), JsonValue::String(ty.name.clone())),
        ],
    )
}

fn budget_failure(error: BudgetError) -> (e: MachineError) {
    MachineError::Budget(error.message())
}

/// Suspends for a model answer to a prompt.
fn yield_inference(
    program: &Program,
    s: &mut MachineSnapshot,
    target: ValueId,
    prompt: &String,
    arguments: &Vec<NamedValue>,
    model_alias: &String,
) -> (result: Result<EffectRequest, MachineError>)
    requires
        old(s).budget.wf(),
        old(s).pending_effect is None,
    ensures
        final(s).budget.wf(),
        final(s).current_state == old(s).current_state,
        match result {
            Ok(r) => {
                &&& r.kind == EffectKind::Model
                &&& r.identity@ == prompt@
                &&& final(s).pending_effect matches Some(p)
                &&& same_request(p.request, r)
                &&& final(s).budget.remaining_of(BudgetDimension::ModelCalls) + 1 == old(s).budget.remaining_of(BudgetDimension::ModelCalls)
            },
            Err(_) => final(s).pending_effect is None,
        },
{
    let index = match find(&program.catalog.prompts, prompt.as_str()) {
        Some(i) => i,
        None => {
            return Err(MachineError::UnknownPrompt);
        },
    };
    proof {
        lemma_position_bounds(program.catalog.prompts@, prompt@);
    }
    let spec = &program.catalog.prompts[index].1;
    let capability = request_json("ModelUse", vec![JsonValue::String(model_alias.clone())]);
    match require_capability(s, &capability) {
        Ok(()) => {},
        Err(e) => {
            return Err(e);
        },
    }
    let n = s.frames.len();
    if n == 0 {
        return Err(MachineError::MissingFrame);
    }
    let data = match named_values_json(arguments, &s.frames[n - 1].slots) {
        Ok(d) => d,
        Err(e) => {
            return Err(e);
        },
    };
    let payload = JsonValue::Object(
        vec![
            (String::from_str("data"), JsonValue::Object(data)),
            (String::from_str("expected_type"), type_json(&spec.result_type)),
            (String::from_str("instruction"), JsonValue::String(spec.instruction.clone())),
            (String::from_str("model_alias"), JsonValue::String(model_alias.clone())),
            (String::from_str("prompt"), JsonValue::String(prompt.clone())),
            (String::from_str("source_provenance"), JsonValue::String(program.source_hash.clone())),
        ],
    );
    let reservation = match s.budget.reserve(BudgetDimension::ModelCalls, 1) {
        Ok(r) => r,
        Err(e) => {
            return Err(budget_failure(e));
        },
    };
    let request = match effect_request(EffectKind::Model, prompt.clone(), payload) {
        Ok(r) => r,
        Err(e) => {
            return Err(e);
        },
    };
    s.pending_effect = Some(
        PendingEffect {
            request: duplicate_request(&request),
            target,
            reservation: Some(reservation),
            usage_reservations: Vec::new(),
            completion: PendingCompletion::Model { prompt: prompt.clone() },
        },
    );
    Ok(request)
}

/// Suspends for a read tool's answer.
fn yield_observation(
    program: &Program,
    s: &mut MachineSnapshot,
    target: ValueId,
    action: &String,
    arguments: &Vec<NamedValue>,
) -> (result: Result<EffectRequest, MachineError>)
    requires
        old(s).budget.wf(),
        old(s).pending_effect is None,
    ensures
        final(s).budget.wf(),
        final(s).current_state == old(s).current_state,
        match result {
            Ok(r) => {
                &&& r.kind == EffectKind::Read
                &&& r.identity@ == action@
                &&& final(s).pending_effect matches Some(p)
                &&& same_request(p.request, r)
                &&& final(s).budget.remaining_of(BudgetDimension::ExternalReads) + 1 == old(s).budget.remaining_of(BudgetDimension::ExternalReads)
            },
            Err(_) => final(s).pending_effect is None,
        },
{
    let index = match find(&program.catalog.tools, action.as_str()) {
        Some(i) => i,
        None => {
            return Err(MachineError::UnknownTool);
        },
    };
    proof {
        lemma_position_bounds(program.catalog.tools@, action@);
    }
    let tool = &program.catalog.tools[index].1;
    let n = s.frames.len();
    if n == 0 {
        return Err(MachineError::MissingFrame);
    }
    let members = match named_values_json(arguments, &s.frames[n - 1].slots) {
        Ok(d) => d,
        Err(e) => {
            return Err(e);
        },
    };
    let capability = match capability_request(
        &tool.capability,
        &members,
        &s.frames[n - 1].locals,
        &s.frames[n - 1].slots,
        program,
    ) {
        Ok(c) => c,
        Err(e) => {
            return Err(e);
        },
    };
    match require_capability(s, &capability) {
        Ok(()) => {},
        Err(e) => {
            return Err(e);
        },
    }
    let payload = JsonValue::Object(
        vec![
            (String::from_str("action"), JsonValue::String(action.clone())),
            (String::from_str("arguments"), JsonValue::Object(members)),
        ],
    );
    let reservation = match s.budget.reserve(BudgetDimension::ExternalReads, 1) {
        Ok(r) => r,
        Err(e) => {
            return Err(budget_failure(e));
        },
    };
    let request = match effect_request(EffectKind::Read, action.clone(), payload) {
        Ok(r) => r,
        Err(e) => {
            return Err(e);
        },
    };
    s.pending_effect = Some(
        PendingEffect {
            request: duplicate_request(&request),
            target,
            reservation: Some(reservation),
            usage_reservations: Vec::new(),
            completion: PendingCompletion::Read { action: action.clone() },
        },
    );
    Ok(request)
}


/// Builds an intent from named fields; `expires_at` must be text.
fn construct_intent(s: &mut MachineSnapshot, target: ValueId, purpose: &String, fields: &Vec<NamedValue>) -> (result: Result<
    (),
    MachineError,
>)
    ensures
        final(s).budget == old(s).budget,
        final(s).current_state == old(s).current_state,
        final(s).pending_effect == old(s).pending_effect,
{
    let n = s.frames.len();
    if n == 0 {
        return Err(MachineError::MissingFrame);
    }
    let members = match named_values_json(fields, &s.frames[n - 1].slots) {
        Ok(d) => d,
        Err(e) => {
            return Err(e);
        },
    };
    let mut object = JsonObject::new();
    let mut expires_at: Option<String> = None;
    let mut i: usize = 0;
    while i < members.len()
        invariant
            i <= members@.len(),
            object.wf(),
        decreases members@.len() - i,
    {
        if str_equal(members[i].0.as_str(), "expires_at") {
            expires_at = match &members[i].1 {
                JsonValue::String(t) => Some(t.clone()),
                _ => None,
            };
        } else {
            object.insert(members[i].0.as_str(), members[i].1.duplicate());
        }
        i = i + 1;
    }
    let expires_at = match expires_at {
        Some(t) => t,
        None => {
            return Err(MachineError::InvalidInstant);
        },
    };
    let intent = Intent { purpose: purpose.clone(), fields: object, expires_at };
    match set_frame_slot(s, target, RuntimeValue::Intent(intent)) {
        Ok(()) => {},
        Err(e) => {
            return Err(e);
        },
    }
    advance_frame(s)
}

/// Seals a proposal for a write tool under an intent.
fn construct_proposal(
    program: &Program,
    s: &mut MachineSnapshot,
    target: ValueId,
    action: &String,
    arguments: &Vec<NamedValue>,
    intent: ValueId,
) -> (result: Result<(), MachineError>)
    ensures
        final(s).budget == old(s).budget,
        final(s).current_state == old(s).current_state,
        final(s).pending_effect == old(s).pending_effect,
{
    let intent = match frame_slot(s, intent) {
        Ok(RuntimeValue::Intent(i)) => i.clone(),
        Ok(_) => {
            return Err(type_mismatch_error("Intent"));
        },
        Err(e) => {
            return Err(e);
        },
    };
    let index = match find(&program.catalog.tools, action.as_str()) {
        Some(i) => i,
        None => {
            return Err(MachineError::UnknownTool);
        },
    };
    proof {
        lemma_position_bounds(program.catalog.tools@, action@);
    }
    let tool = &program.catalog.tools[index].1;
    let n = s.frames.len();
    if n == 0 {
        return Err(MachineError::MissingFrame);
    }
    let members = match named_values_json(arguments, &s.frames[n - 1].slots) {
        Ok(d) => d,
        Err(e) => {
            return Err(e);
        },
    };
    let idempotency_name = match &tool.idempotency {
        Some(name) => name,
        None => {
            return Err(MachineError::MissingIdempotency);
        },
    };
    let key = match find_member(&members, idempotency_name.as_str()) {
        Some(k) => match &members[k].1 {
            JsonValue::String(t) => t.clone(),
            _ => {
                return Err(MachineError::MissingIdempotency);
            },
        },
        None => {
            return Err(MachineError::MissingIdempotency);
        },
    };
    let capability = match capability_request(
        &tool.capability,
        &members,
        &s.frames[n - 1].locals,
        &s.frames[n - 1].slots,
        program,
    ) {
        Ok(c) => c,
        Err(e) => {
            return Err(e);
        },
    };
    match require_capability(s, &capability) {
        Ok(()) => {},
        Err(e) => {
            return Err(e);
        },
    }
    let mut object = JsonObject::new();
    let mut i: usize = 0;
    while i < members.len()
        invariant
            i <= members@.len(),
            object.wf(),
        decreases members@.len() - i,
    {
        object.insert(members[i].0.as_str(), members[i].1.duplicate());
        i = i + 1;
    }
    let risk = match &tool.risk {
        Some(r) => r.clone(),
        None => String::from_str("reversible"),
    };
    let sensitivity = match &tool.sensitivity {
        Some(r) => r.clone(),
        None => String::from_str("internal"),
    };
    let metadata = ProposalMetadata {
        risk,
        sensitivity,
        capability_request: capability,
        idempotency_key: key,
        program_hash: program.program_hash.clone(),
    };
    let proposal = match Proposal::new(action.as_str(), object, intent, metadata) {
        Ok(p) => p,
        Err(_) => {
            return Err(MachineError::Serialization(String::from_str("proposal sealing failed")));
        },
    };
    match set_frame_slot(s, target, RuntimeValue::Proposal(proposal)) {
        Ok(()) => {},
        Err(e) => {
            return Err(e);
        },
    }
    advance_frame(s)
}

/// Evaluation of a policy on a proposal: a permit, a refusal, or a
/// suspension for human approval.
fn authorize(
    program: &Program,
    s: &mut MachineSnapshot,
    target: ValueId,
    proposal: ValueId,
    policy: &String,
    approval_may_suspend: bool,
) -> (result: Result<Option<EffectRequest>, MachineError>)
    requires
        old(s).budget.wf(),
        old(s).pending_effect is None,
    ensures
        final(s).budget.wf(),
        final(s).current_state == old(s).current_state,
        match result {
            Ok(Some(r)) => {
                &&& r.kind == EffectKind::Approval
                &&& r.identity@ == policy@
                &&& final(s).pending_effect matches Some(p)
                &&& same_request(p.request, r)
                &&& final(s).budget.remaining_of(BudgetDimension::Approvals) + 1 == old(s).budget.remaining_of(BudgetDimension::Approvals)
            },
            _ => final(s).pending_effect is None,
        },
{
    let proposal = match frame_slot(s, proposal) {
        Ok(RuntimeValue::Proposal(p)) => p.clone(),
        Ok(_) => {
            return Err(type_mismatch_error("Proposal"));
        },
        Err(e) => {
            return Err(e);
        },
    };
    let n = s.frames.len();
    if n == 0 {
        return Err(MachineError::MissingFrame);
    }
    let decision = match policy_decision(program, policy.as_str(), &proposal, &s.frames[n - 1].locals) {
        Ok(d) => d,
        Err(e) => {
            return Err(e);
        },
    };
    match decision {
        PolicyRuntimeDecision::Allow => {
            let permit = match s.authority.issue(
                &proposal,
                policy.as_str(),
                s.grant_fingerprint.as_str(),
                s.event_time.as_str(),
                proposal.intent.expires_at.as_str(),
                "policy_allow",
            ) {
                Ok(p) => p,
                Err(e) => {
                    return Err(MachineError::Authority(String::from_str(e.message())));
                },
            };
            let value = RuntimeValue::Result(Ok(Box::new(RuntimeValue::Permit(permit))));
            match set_frame_slot(s, target, value) {
                Ok(()) => {},
                Err(e) => {
                    return Err(e);
                },
            }
            match advance_frame(s) {
                Ok(()) => Ok(None),
                Err(e) => Err(e),
            }
        },
        PolicyRuntimeDecision::Approve(principal) => {
            if !approval_may_suspend {
                return Err(MachineError::ApprovalNotRepresentable);
            }
            let principal_json = match runtime_to_json(&principal) {
                Ok(d) => d,
                Err(e) => {
                    return Err(e);
                },
            };
            let capability = request_json("HumanApproval", vec![principal_json.duplicate()]);
            match require_capability(s, &capability) {
                Ok(()) => {},
                Err(e) => {
                    return Err(e);
                },
            }
            let payload = JsonValue::Object(
                vec![
                    (String::from_str("policy"), JsonValue::String(policy.clone())),
                    (String::from_str("principal"), principal_json),
                    (String::from_str("proposal_hash"), JsonValue::String(proposal.hash().to_owned())),
                ],
            );
            let reservation = match s.budget.reserve(BudgetDimension::Approvals, 1) {
                Ok(r) => r,
                Err(e) => {
                    return Err(budget_failure(e));
                },
            };
            let request = match effect_request(EffectKind::Approval, policy.clone(), payload) {
                Ok(r) => r,
                Err(e) => {
                    return Err(e);
                },
            };
            let expires_at = proposal.intent.expires_at.clone();
            s.pending_effect = Some(
                PendingEffect {
                    request: duplicate_request(&request),
                    target,
                    reservation: Some(reservation),
                    usage_reservations: Vec::new(),
                    completion: PendingCompletion::Approval { proposal, policy: policy.clone(), expires_at },
                },
            );
            Ok(Some(request))
        },
        PolicyRuntimeDecision::Deny(reason) => {
            match set_frame_slot(s, target, RuntimeValue::Result(Err(reason))) {
                Ok(()) => {},
                Err(e) => {
                    return Err(e);
                },
            }
            match advance_frame(s) {
                Ok(()) => Ok(None),
                Err(e) => Err(e),
            }
        },
    }
}

/// Consumes a permit for a proposal and suspends for the write.
fn yield_commit(
    program: &Program,
    s: &mut MachineSnapshot,
    target: ValueId,
    proposal: ValueId,
    permit: ValueId,
) -> (result: Result<EffectRequest, MachineError>)
    requires
        old(s).budget.wf(),
        old(s).pending_effect is None,
    ensures
        final(s).budget.wf(),
        final(s).current_state == old(s).current_state,
        match result {
            Ok(r) => {
                &&& r.kind == EffectKind::Write
                &&& final(s).pending_effect matches Some(p)
                &&& same_request(p.request, r)
                &&& final(s).budget.remaining_of(BudgetDimension::ExternalWrites) + 1 == old(s).budget.remaining_of(BudgetDimension::ExternalWrites)
                &&& final(s).authority.consumed_ids().len() == old(s).authority.consumed_ids().len() + 1
                &&& final(s).authority.consumed_ids().drop_last() == old(s).authority.consumed_ids()
                &&& final(s).authority.issued_table() == old(s).authority.issued_table()
            },
            Err(_) => final(s).pending_effect is None,
        },
{
    let proposal = match frame_slot(s, proposal) {
        Ok(RuntimeValue::Proposal(p)) => p.clone(),
        Ok(_) => {
            return Err(type_mismatch_error("Proposal"));
        },
        Err(e) => {
            return Err(e);
        },
    };
    let permit = match frame_slot(s, permit) {
        Ok(RuntimeValue::Permit(p)) => p.duplicate(),
        Ok(_) => {
            return Err(type_mismatch_error("Permit"));
        },
        Err(e) => {
            return Err(e);
        },
    };
    match require_capability(s, &proposal.capability_request) {
        Ok(()) => {},
        Err(e) => {
            return Err(e);
        },
    }
    match s.authority.consume(&proposal, &permit, s.grant_fingerprint.as_str(), s.event_time.as_str()) {
        Ok(()) => {},
        Err(e) => {
            return Err(MachineError::Authority(String::from_str(e.message())));
        },
    }
    let reservation = match s.budget.reserve(BudgetDimension::ExternalWrites, 1) {
        Ok(r) => r,
        Err(e) => {
            return Err(budget_failure(e));
        },
    };
    if find(&program.catalog.tools, proposal.action.as_str()).is_none() {
        return Err(MachineError::UnknownTool);
    }
    let proposal_hash = proposal.hash().to_owned();
    let payload = JsonValue::Object(
        vec![
            (String::from_str("action"), JsonValue::String(proposal.action.clone())),
            (String::from_str("arguments"), JsonValue::Object(duplicate_members(proposal.arguments.members()))),
            (String::from_str("proposal_hash"), JsonValue::String(proposal_hash.clone())),
        ],
    );
    let request = match effect_request(EffectKind::Write, proposal.action.clone(), payload) {
        Ok(r) => r,
        Err(e) => {
            return Err(e);
        },
    };
    s.pending_effect = Some(
        PendingEffect {
            request: duplicate_request(&request),
            target,
            reservation: Some(reservation),
            usage_reservations: Vec::new(),
            completion: PendingCompletion::Write { action: proposal.action.clone(), proposal_hash },
        },
    );
    Ok(request)
}


/// The state delta an update names: each field's slot value under its name
/// (or position), collected in key order; a missing slot stops.
pub open spec fn state_delta(fields: Seq<NamedValue>, slots: Seq<(u32, ValueModel)>) -> Result<
    Seq<(Seq<char>, ValueModel)>,
    Failure,
>
    decreases fields.len(),
{
    if fields.len() == 0 {
        Ok(Seq::empty())
    } else {
        match state_delta(fields.drop_last(), slots) {
            Ok(delta) => match slot_lookup(slots, fields.last().value.0) {
                Some(v) => Ok(model_insert(delta, argument_key(fields.last().name, fields.len() - 1), v)),
                None => Err(Failure::UnknownValue),
            },
            Err(e) => Err(e),
        }
    }
}

/// `state` with every member of `delta` filed over it, in order.
pub open spec fn merge_state(
    state: Seq<(Seq<char>, ValueModel)>,
    delta: Seq<(Seq<char>, ValueModel)>,
) -> Seq<(Seq<char>, ValueModel)>
    decreases delta.len(),
{
    if delta.len() == 0 {
        state
    } else {
        model_insert(merge_state(state, delta.drop_last()), delta.last().0, delta.last().1)
    }
}

/// Adds named values to the pending state delta.
fn update_state(s: &mut MachineSnapshot, fields: &Vec<NamedValue>) -> (result: Result<(), MachineError>)
    ensures
        final(s).budget == old(s).budget,
        final(s).current_state == old(s).current_state,
        final(s).pending_effect == old(s).pending_effect,
        result is Ok ==> old(s).frames@.len() > 0 && (state_delta(fields@, top_frame(*old(s)).slot_values()) matches Ok(
            delta,
        ) && record_view(final(s).pending_state@) == merge_state(record_view(old(s).pending_state@), delta)),
{
    let n = s.frames.len();
    if n == 0 {
        return Err(MachineError::MissingFrame);
    }
    let ghost slots = top_frame(*s).slot_values();
    let mut delta: Vec<(String, RuntimeValue)> = Vec::new();
    let mut i: usize = 0;
    proof {
        assert(fields@.take(0) =~= Seq::<NamedValue>::empty());
        assert(record_view(delta@) =~= Seq::<(Seq<char>, ValueModel)>::empty());
    }
    while i < fields.len()
        invariant
            i <= fields@.len(),
            n == s.frames@.len(),
            n > 0,
            *s == *old(s),
            slots == top_frame(*s).slot_values(),
            state_delta(fields@.take(i as int), slots) == Ok::<Seq<(Seq<char>, ValueModel)>, Failure>(
                record_view(delta@),
            ),
        decreases fields@.len() - i,
    {
        proof {
            assert(fields@.take(i + 1).drop_last() =~= fields@.take(i as int));
            assert(fields@.take(i + 1).last() == fields@[i as int]);
        }
        let value = match slots_get(&s.frames[n - 1].slots, fields[i].value) {
            Some(v) => v.duplicate(),
            None => {
                return Err(MachineError::UnknownValue);
            },
        };
        record_insert(&mut delta, argument_name(&fields[i].name, i), value);
        i = i + 1;
    }
    proof {
        assert(fields@.take(fields@.len() as int) =~= fields@);
        lemma_record_view(delta@);
    }
    let ghost delta_view = record_view(delta@);
    let ghost pending_before = record_view(s.pending_state@);
    let mut j: usize = 0;
    proof {
        assert(delta_view.take(0) =~= Seq::<(Seq<char>, ValueModel)>::empty());
    }
    while j < delta.len()
        invariant
            j <= delta@.len(),
            delta_view == record_view(delta@),
            delta_view.len() == delta@.len(),
            forall|k: int| 0 <= k < delta@.len() ==> #[trigger] delta_view[k] == (delta@[k].0@, delta@[k].1@),
            s.budget == old(s).budget,
            s.pending_effect == old(s).pending_effect,
            s.current_state == old(s).current_state,
            s.frames == old(s).frames,
            record_view(s.pending_state@) == merge_state(pending_before, delta_view.take(j as int)),
        decreases delta@.len() - j,
    {
        proof {
            assert(delta_view.take(j + 1).drop_last() =~= delta_view.take(j as int));
            assert(delta_view.take(j + 1).last() == delta_view[j as int]);
        }
        record_insert(&mut s.pending_state, delta[j].0.clone(), delta[j].1.duplicate());
        j = j + 1;
    }
    proof {
        assert(delta_view.take(delta@.len() as int) =~= delta_view);
    }
    advance_frame(s)
}

/// Enters a routine with its parameters bound to argument slots.
fn enter_call(program: &Program, s: &mut MachineSnapshot, target: ValueId, name: &String, arguments: &Vec<NamedValue>) -> (result: Result<
    (),
    MachineError,
>)
    ensures
        final(s).budget == old(s).budget,
        final(s).current_state == old(s).current_state,
        final(s).pending_effect == old(s).pending_effect,
{
    let routine = match program.routine(name.as_str()) {
        Some(r) => r,
        None => {
            return Err(MachineError::UnknownRoutine);
        },
    };
    let n = s.frames.len();
    if n == 0 {
        return Err(MachineError::MissingFrame);
    }
    let mut values: Vec<RuntimeValue> = Vec::new();
    let mut i: usize = 0;
    while i < arguments.len()
        invariant
            i <= arguments@.len(),
            n == s.frames@.len(),
            n > 0,
        decreases arguments@.len() - i,
    {
        match slots_get(&s.frames[n - 1].slots, arguments[i].value) {
            Some(v) => values.push(v.duplicate()),
            None => {
                return Err(MachineError::UnknownValue);
            },
        }
        i = i + 1;
    }
    let mut locals: Vec<(String, RuntimeValue)> = Vec::new();
    let mut j: usize = 0;
    while j < routine.parameters.len() && j < values.len()
        invariant
            j <= values@.len(),
        decreases values@.len() - j,
    {
        record_insert(&mut locals, routine.parameters[j].name.clone(), values[j].duplicate());
        j = j + 1;
    }
    match advance_frame(s) {
        Ok(()) => {},
        Err(e) => {
            return Err(e);
        },
    }
    s.frames.push(
        FrameSnapshot {
            routine: routine.name.clone(),
            instruction_pointer: 0,
            locals,
            slots: Vec::new(),
            return_target: Some(target),
        },
    );
    Ok(())
}

/// The JSON document of a run outcome's state: the current state with the
/// pending delta filed over it.
fn published_state(s: &MachineSnapshot) -> (result: Result<Vec<(String, JsonValue)>, MachineError>) {
    let mut state = duplicate_record(&s.current_state);
    let mut j: usize = 0;
    while j < s.pending_state.len()
        invariant
            j <= s.pending_state@.len(),
        decreases s.pending_state@.len() - j,
    {
        record_insert(&mut state, s.pending_state[j].0.clone(), s.pending_state[j].1.duplicate());
        j = j + 1;
    }
    record_to_json(&state)
}

/// Returns from the running routine: into the caller's target slot, or, from
/// the entry routine, completing the run.
fn return_value(s: &mut MachineSnapshot, value: ValueId) -> (result: Result<Option<RunOutcome>, MachineError>)
    ensures
        final(s).budget == old(s).budget,
        final(s).current_state == old(s).current_state,
        final(s).pending_effect == old(s).pending_effect,
{
    let returned = match frame_slot(s, value) {
        Ok(v) => v.duplicate(),
        Err(e) => {
            return Err(e);
        },
    };
    if s.frames.len() > 1 {
        let frame = match s.frames.pop() {
            Some(f) => f,
            None => {
                return Err(MachineError::MissingFrame);
            },
        };
        let target = match frame.return_target {
            Some(t) => t,
            None => {
                return Err(MachineError::MissingReturnTarget);
            },
        };
        match set_frame_slot(s, target, returned) {
            Ok(()) => {},
            Err(e) => {
                return Err(e);
            },
        }
        return Ok(None);
    }
    let document = match runtime_to_json(&returned) {
        Ok(d) => d,
        Err(e) => {
            return Err(e);
        },
    };
    let state = match published_state(s) {
        Ok(st) => st,
        Err(e) => {
            return Err(e);
        },
    };
    Ok(Some(RunOutcome { state, value: document }))
}


/// Two outcomes with the same state and value.
pub open spec fn same_outcome(a: RunOutcome, b: RunOutcome) -> bool {
    members_view(a.state@) == members_view(b.state@) && a.value@ == b.value@
}

impl RunOutcome {
    /// A copy of this outcome.
    pub fn duplicate(&self) -> (copy: RunOutcome)
        ensures
            same_outcome(copy, *self),
    {
        RunOutcome { state: duplicate_members(&self.state), value: self.value.duplicate() }
    }
}

/// What a governed or frame-changing instruction may report: the kinds of
/// suspension it raises and whether it can continue or complete. Every
/// suspension reserves one unit of its budget dimension, and a write is only
/// requested once its permit has been consumed in the authority ledger.
pub open spec fn effect_step(kind: InstructionKind, s: MachineSnapshot, t: MachineSnapshot, step: Step) -> bool {
    match kind {
        InstructionKind::Infer { prompt, .. } => step is Failed || (step matches Step::Yield(q)
            && q.kind == EffectKind::Model && q.identity@ == prompt@ && t.budget.remaining_of(
            BudgetDimension::ModelCalls,
        ) + 1 == s.budget.remaining_of(BudgetDimension::ModelCalls)),
        InstructionKind::Observe { action, .. } => step is Failed || (step matches Step::Yield(q)
            && q.kind == EffectKind::Read && q.identity@ == action@ && t.budget.remaining_of(
            BudgetDimension::ExternalReads,
        ) + 1 == s.budget.remaining_of(BudgetDimension::ExternalReads)),
        InstructionKind::Authorize { policy, .. } => step is Failed || step is Continue || (
        step matches Step::Yield(q) && q.kind == EffectKind::Approval && q.identity@ == policy@
            && t.budget.remaining_of(BudgetDimension::Approvals) + 1 == s.budget.remaining_of(
            BudgetDimension::Approvals,
        )),
        InstructionKind::Commit { .. } => step is Failed || (step matches Step::Yield(q) && q.kind
            == EffectKind::Write && t.budget.remaining_of(BudgetDimension::ExternalWrites) + 1
            == s.budget.remaining_of(BudgetDimension::ExternalWrites)
            && t.authority.consumed_ids().len() == s.authority.consumed_ids().len() + 1
            && t.authority.consumed_ids().drop_last() == s.authority.consumed_ids()
            && t.authority.issued_table() == s.authority.issued_table()),
        InstructionKind::Return { .. } => step is Failed || step is Continue || step is Completed,
        InstructionKind::UpdateState { fields } => step is Failed || (step is Continue
            && s.frames@.len() > 0 && (state_delta(fields@, top_frame(s).slot_values()) matches Ok(
            delta,
        ) && record_view(t.pending_state@) == merge_state(record_view(s.pending_state@), delta))),
        _ => step is Failed || step is Continue,
    }
}

/// Running the next instruction of a machine that waits on nothing: the
/// published state never changes (updates collect in the pending delta,
/// which only a completed outcome carries); which instruction runs, how a control or pure instruction changes the running
/// frame (and nothing else), the failure it stops with, and what a governed
/// instruction may report; a suspension leaves the request pending.
pub open spec fn runs(before: Machine, after: Machine, step: Step) -> bool {
    let program = before.spec_program();
    let s = before.spec_snapshot();
    let t = after.spec_snapshot();
    &&& after.spec_program() == program
    &&& (step matches Step::Yield(q) ==> (t.pending_effect matches Some(p) && same_request(
        p.request,
        q,
    )))
    &&& (step is Continue ==> t.pending_effect is None)
    &&& t.current_state == s.current_state
    &&& match next_instruction(program, s) {
        None => step matches Step::Failed(e) && failure(e) == missing_instruction(program, s),
        Some(kind) => match frame_step(
            kind,
            top_frame(s).local_values(),
            top_frame(s).slot_values(),
            top_frame(s).pointer(),
            program,
        ) {
            Some(FrameStep::Next { locals, slots, pointer }) => {
                &&& step is Continue
                &&& t.frames@.len() == s.frames@.len()
                &&& t.frames@.drop_last() == s.frames@.drop_last()
                &&& frame_is(top_frame(t), top_frame(s), locals, slots, pointer)
                &&& t.current_state == s.current_state
                &&& t.pending_state == s.pending_state
                &&& t.budget == s.budget
                &&& t.authority == s.authority
            },
            Some(FrameStep::Fail(f)) => step matches Step::Failed(e) && failure(e) == f,
            None => effect_step(kind, s, t, step),
        },
    }
}

/// One step of the machine: a stopped machine repeats its failure, a
/// completed one its outcome and a suspended one its pending request, each
/// unchanged; otherwise the next instruction runs, a failure stops the
/// machine and a completion is kept.
pub open spec fn step_taken(before: Machine, after: Machine, step: Step) -> bool {
    if before.spec_failed() is Some {
        after == before && (step matches Step::Failed(e) && before.spec_failed() == Some(failure(e)))
    } else if before.spec_completed() is Some {
        after == before && (step matches Step::Completed(o) && same_outcome(
            o,
            before.spec_completed()->0,
        ))
    } else if before.spec_snapshot().pending_effect is Some {
        after == before && (step matches Step::Yield(q) && same_request(
            q,
            before.spec_snapshot().pending_effect->0.request,
        ))
    } else {
        &&& runs(before, after, step)
        &&& (step matches Step::Failed(e) ==> after.spec_failed() == Some(failure(e)))
        &&& (step matches Step::Completed(o) ==> after.spec_failed() is None && (
        after.spec_completed() matches Some(c) && same_outcome(c, o)))
        &&& (!(step is Failed) && !(step is Completed) ==> after.spec_failed() is None
            && after.spec_completed() is None)
    }
}

/// The step a run of the next instruction reports.
pub open spec fn as_step(r: Result<Option<Step>, MachineError>) -> Step {
    match r {
        Ok(Some(step)) => step,
        Ok(None) => Step::Continue,
        Err(e) => Step::Failed(e),
    }
}

impl Machine {
    /// Runs the next instruction of a machine that waits on nothing.
    fn execute_current(&mut self) -> (r: Result<Option<Step>, MachineError>)
        requires
            old(self).wf(),
            old(self).spec_snapshot().pending_effect is None,
        ensures
            final(self).wf(),
            final(self).completed == old(self).completed,
            final(self).failed == old(self).failed,
            runs(*old(self), *final(self), as_step(r)),
            r matches Ok(Some(step)) ==> (step is Yield || step is Completed),
    {
        let n = self.snapshot.frames.len();
        if n == 0 {
            return Err(MachineError::MissingFrame);
        }
        let ri = match find(&self.program.routines, self.snapshot.frames[n - 1].routine.as_str()) {
            Some(i) => i,
            None => {
                return Err(MachineError::UnknownRoutine);
            },
        };
        proof {
            lemma_position_bounds(self.program.routines@, self.snapshot.frames@[n - 1].routine@);
        }
        let ip = self.snapshot.frames[n - 1].instruction_pointer;
        let routine = &self.program.routines[ri].1;
        if ip as usize >= routine.instructions.len() {
            return Err(MachineError::InvalidIp);
        }
        let kind = &routine.instructions[ip as usize].kind;
        let ghost before = self.snapshot;
        let mut frame = match self.snapshot.frames.pop() {
            Some(f) => f,
            None => {
                return Err(MachineError::MissingFrame);
            },
        };
        let local = run_local(&mut frame, kind, &self.program);
        self.snapshot.frames.push(frame);
        proof {
            assert(self.snapshot.frames@.drop_last() == before.frames@.drop_last());
        }
        match local {
            Some(Ok(())) => {
                return Ok(None);
            },
            Some(Err(e)) => {
                return Err(e);
            },
            None => {},
        }
        proof {
            assert(self.snapshot.frames@ =~= before.frames@);
        }
        match kind {
            InstructionKind::Infer { target, prompt, arguments, model_alias } => {
                match yield_inference(&self.program, &mut self.snapshot, *target, prompt, arguments, model_alias) {
                    Ok(request) => Ok(Some(Step::Yield(request))),
                    Err(e) => Err(e),
                }
            },
            InstructionKind::Observe { target, action, arguments } => {
                match yield_observation(&self.program, &mut self.snapshot, *target, action, arguments) {
                    Ok(request) => Ok(Some(Step::Yield(request))),
                    Err(e) => Err(e),
                }
            },
            InstructionKind::ConstructIntent { target, purpose, fields } => {
                match construct_intent(&mut self.snapshot, *target, purpose, fields) {
                    Ok(()) => Ok(None),
                    Err(e) => Err(e),
                }
            },
            InstructionKind::ConstructProposal { target, action, arguments, intent } => {
                match construct_proposal(&self.program, &mut self.snapshot, *target, action, arguments, *intent) {
                    Ok(()) => Ok(None),
                    Err(e) => Err(e),
                }
            },
            InstructionKind::Authorize { target, proposal, policy, approval_may_suspend } => {
                match authorize(
                    &self.program,
                    &mut self.snapshot,
                    *target,
                    *proposal,
                    policy,
                    *approval_may_suspend,
                ) {
                    Ok(Some(request)) => Ok(Some(Step::Yield(request))),
                    Ok(None) => Ok(None),
                    Err(e) => Err(e),
                }
            },
            InstructionKind::Commit { target, proposal, permit } => {
                match yield_commit(&self.program, &mut self.snapshot, *target, *proposal, *permit) {
                    Ok(request) => Ok(Some(Step::Yield(request))),
                    Err(e) => Err(e),
                }
            },
            InstructionKind::UpdateState { fields } => {
                match update_state(&mut self.snapshot, fields) {
                    Ok(()) => Ok(None),
                    Err(e) => Err(e),
                }
            },
            InstructionKind::Call { target, routine, arguments } => {
                match enter_call(&self.program, &mut self.snapshot, *target, routine, arguments) {
                    Ok(()) => Ok(None),
                    Err(e) => Err(e),
                }
            },
            InstructionKind::Return { value } => {
                match return_value(&mut self.snapshot, *value) {
                    Ok(Some(outcome)) => Ok(Some(Step::Completed(outcome))),
                    Ok(None) => Ok(None),
                    Err(e) => Err(e),
                }
            },
            _ => Err(MachineError::UnsupportedInstruction),
        }
    }

    /// Runs one instruction, or reports the failure, outcome or pending
    /// request the machine already holds.
    pub fn step(&mut self) -> (step: Step)
        requires
            old(self).wf(),
        ensures
            final(self).wf(),
            step_taken(*old(self), *final(self), step),
    {
        match &self.failed {
            Some(e) => {
                return Step::Failed(e.duplicate());
            },
            None => {},
        }
        match &self.completed {
            Some(o) => {
                return Step::Completed(o.duplicate());
            },
            None => {},
        }
        match &self.snapshot.pending_effect {
            Some(p) => {
                return Step::Yield(duplicate_request(&p.request));
            },
            None => {},
        }
        match self.execute_current() {
            Ok(Some(Step::Completed(outcome))) => {
                self.completed = Some(outcome.duplicate());
                Step::Completed(outcome)
            },
            Ok(Some(step)) => step,
            Ok(None) => Step::Continue,
            Err(e) => {
                let copy = e.duplicate();
                self.failed = Some(e);
                Step::Failed(copy)
            },
        }
    }
}


/// The value a resolution delivers to the waiting slot, for answers decoded
/// against a declared type: a model candidate, an observation or a write
/// receipt; `None` for an approval, whose permit the ledger issues.
pub open spec fn resolution_value(program: Program, completion: PendingCompletion, payload: JsonModel) -> Option<
    Result<ValueModel, Failure>,
> {
    match completion {
        PendingCompletion::Model { prompt } => Some(
            match lookup(program.catalog.prompts@, prompt@) {
                None => Err(Failure::UnknownPrompt),
                Some(spec) => match decode_value(payload, spec.result_type, program, ALIAS_LIMIT as nat) {
                    Ok(v) => Ok(ValueModel::Outcome(Ok(Box::new(ValueModel::Candidate(Box::new(v)))))),
                    Err(f) => Err(f),
                },
            },
        ),
        PendingCompletion::Read { action } => Some(
            match lookup(program.catalog.tools@, action@) {
                None => Err(Failure::UnknownTool),
                Some(tool) => match decode_value(payload, tool.result_type, program, ALIAS_LIMIT as nat) {
                    Ok(v) => Ok(ValueModel::Outcome(Ok(Box::new(ValueModel::Observation(Box::new(v)))))),
                    Err(f) => Err(f),
                },
            },
        ),
        PendingCompletion::Write { action, proposal_hash } => Some(
            match lookup(program.catalog.tools@, action@) {
                None => Err(Failure::UnknownTool),
                Some(tool) => match decode_value(payload, tool.result_type, program, ALIAS_LIMIT as nat) {
                    Ok(v) => Ok(
                        ValueModel::Outcome(
                            Ok(Box::new(ValueModel::Receipt(action@, proposal_hash@, Box::new(v)))),
                        ),
                    ),
                    Err(f) => Err(f),
                },
            },
        ),
        PendingCompletion::Approval { .. } => None,
    }
}

/// Whether a resolution reports usage in a dimension nothing was reserved for.
pub open spec fn unreserved_usage(actual: Seq<(String, u64)>, reserved: Seq<(String, Reservation)>) -> bool {
    exists|i: int| 0 <= i < actual.len() && #[trigger] position_of(reserved, actual[i].0@) is None
}

/// Supplying a resolution: it needs a pending effect, the pending request's
/// hash, and usage only in reserved dimensions, else the machine is
/// untouched; an accepted resolution clears the pending effect and files its
/// value in the waiting slot, and a payload that does not decode is refused.
pub open spec fn supplied(before: Machine, resolution: EffectResolution, result: Result<(), MachineError>, after: Machine) -> bool {
    let s = before.spec_snapshot();
    match s.pending_effect {
        None => result == Err::<(), MachineError>(MachineError::NoPendingEffect) && after == before,
        Some(p) => if resolution.request_hash@ != p.request.request_hash@ {
            result == Err::<(), MachineError>(MachineError::ResolutionMismatch) && after == before
        } else if unreserved_usage(resolution.actual_usage@, p.usage_reservations@) {
            result == Err::<(), MachineError>(MachineError::UnexpectedUsageDimension) && after == before
        } else {
            &&& after.spec_program() == before.spec_program()
            &&& after.spec_failed() == before.spec_failed()
            &&& after.spec_completed() == before.spec_completed()
            &&& after.spec_snapshot().current_state == s.current_state
            &&& (result is Ok ==> {
                &&& after.spec_snapshot().pending_effect is None
                &&& after.spec_snapshot().frames@.len() == s.frames@.len()
                &&& match resolution_value(before.spec_program(), p.completion, resolution.payload@) {
                    Some(Ok(v)) => top_frame(after.spec_snapshot()).slot_values() == slot_insert(
                        top_frame(s).slot_values(),
                        p.target.0,
                        v,
                    ),
                    Some(Err(_)) => false,
                    None => true,
                }
            })
        },
    }
}

/// The usage reported for `name`, or zero.
fn usage_of(usage: &Vec<(String, u64)>, name: &str) -> (amount: u64) {
    proof {
        lemma_position_bounds(usage@, name@);
    }
    match find(usage, name) {
        Some(i) => usage[i].1,
        None => 0,
    }
}

impl Machine {
    /// Supplies the resolution of the pending effect: settles its
    /// reservations, decodes the answer and resumes after the waiting
    /// instruction.
    pub fn supply(&mut self, resolution: &EffectResolution) -> (result: Result<(), MachineError>)
        requires
            old(self).wf(),
        ensures
            final(self).wf(),
            supplied(*old(self), *resolution, result, *final(self)),
    {
        let p = match &self.snapshot.pending_effect {
            Some(p) => p,
            None => {
                return Err(MachineError::NoPendingEffect);
            },
        };
        if !str_equal(resolution.request_hash.as_str(), p.request.request_hash.as_str()) {
            return Err(MachineError::ResolutionMismatch);
        }
        let mut k: usize = 0;
        while k < resolution.actual_usage.len()
            invariant
                k <= resolution.actual_usage@.len(),
                *self == *old(self),
                self.wf(),
                old(self).snapshot.pending_effect == Some(*p),
                resolution.request_hash@ == p.request.request_hash@,
                forall|j: int| 0 <= j < k ==> #[trigger] position_of(p.usage_reservations@, resolution.actual_usage@[j].0@) is Some,
            decreases resolution.actual_usage@.len() - k,
        {
            if find(&p.usage_reservations, resolution.actual_usage[k].0.as_str()).is_none() {
                return Err(MachineError::UnexpectedUsageDimension);
            }
            k = k + 1;
        }
        proof {
            assert(!unreserved_usage(resolution.actual_usage@, p.usage_reservations@));
        }
        let target = p.target;
        let count_reservation = p.reservation;
        let mut settlements: Vec<(Reservation, u64)> = Vec::new();
        let mut u: usize = 0;
        while u < p.usage_reservations.len()
            invariant
                u <= p.usage_reservations@.len(),
                *self == *old(self),
                old(self).snapshot.pending_effect == Some(*p),
                resolution.request_hash@ == p.request.request_hash@,
                !unreserved_usage(resolution.actual_usage@, p.usage_reservations@),
            decreases p.usage_reservations@.len() - u,
        {
            let actual = usage_of(&resolution.actual_usage, p.usage_reservations[u].0.as_str());
            settlements.push((p.usage_reservations[u].1, actual));
            u = u + 1;
        }
        let ghost pending = *p;
        match count_reservation {
            Some(r) => match self.snapshot.budget.settle(r, 1) {
                Ok(()) => {},
                Err(e) => {
                    return Err(budget_failure(e));
                },
            },
            None => {},
        }
        let mut v: usize = 0;
        while v < settlements.len()
            invariant
                v <= settlements@.len(),
                self.snapshot.budget.wf(),
                self.snapshot.pending_effect == Some(pending),
                old(self).snapshot.pending_effect == Some(pending),
                resolution.request_hash@ == pending.request.request_hash@,
                !unreserved_usage(resolution.actual_usage@, pending.usage_reservations@),
                self.snapshot.frames == old(self).snapshot.frames,
                self.snapshot.current_state == old(self).snapshot.current_state,
                self.program == old(self).program,
                self.failed == old(self).failed,
                self.completed == old(self).completed,
            decreases settlements@.len() - v,
        {
            let (r, actual) = settlements[v];
            match self.snapshot.budget.settle(r, actual) {
                Ok(()) => {},
                Err(e) => {
                    return Err(budget_failure(e));
                },
            }
            v = v + 1;
        }
        let value = match self.resolution_runtime_value(&resolution.payload) {
            Ok(value) => value,
            Err(e) => {
                return Err(e);
            },
        };
        match set_frame_slot(&mut self.snapshot, target, value) {
            Ok(()) => {},
            Err(e) => {
                return Err(e);
            },
        }
        match advance_frame(&mut self.snapshot) {
            Ok(()) => {},
            Err(e) => {
                return Err(e);
            },
        }
        self.snapshot.pending_effect = None;
        Ok(())
    }

    /// The value a resolution payload gives the waiting slot.
    fn resolution_runtime_value(&mut self, payload: &JsonValue) -> (result: Result<RuntimeValue, MachineError>)
        requires
            old(self).wf(),
            old(self).spec_snapshot().pending_effect is Some,
        ensures
            final(self).wf(),
            final(self).program == old(self).program,
            final(self).failed == old(self).failed,
            final(self).completed == old(self).completed,
            final(self).snapshot.frames == old(self).snapshot.frames,
            final(self).snapshot.pending_effect == old(self).snapshot.pending_effect,
            final(self).snapshot.current_state == old(self).snapshot.current_state,
            match resolution_value(
                old(self).spec_program(),
                old(self).spec_snapshot().pending_effect->0.completion,
                payload@,
            ) {
                Some(Ok(v)) => result matches Ok(value) && value@ == v,
                Some(Err(f)) => result matches Err(e) && failure(e) == f,
                None => true,
            },
    {
        let p = match &self.snapshot.pending_effect {
            Some(p) => p,
            None => {
                return Err(MachineError::NoPendingEffect);
            },
        };
        match &p.completion {
            PendingCompletion::Model { prompt } => {
                let index = match find(&self.program.catalog.prompts, prompt.as_str()) {
                    Some(i) => i,
                    None => {
                        return Err(MachineError::UnknownPrompt);
                    },
                };
                proof {
                    lemma_position_bounds(self.program.catalog.prompts@, prompt@);
                }
                let decoded = match decode_json(payload, &self.program.catalog.prompts[index].1.result_type, &self.program) {
                    Ok(v) => v,
                    Err(e) => {
                        return Err(e);
                    },
                };
                let ghost dm = decoded@;
                let candidate = RuntimeValue::Candidate(Box::new(decoded));
                proof {
                    assert(candidate@ == ValueModel::Candidate(Box::new(dm)));
                }
                Ok(RuntimeValue::Result(Ok(Box::new(candidate))))
            },
            PendingCompletion::Read { action } => {
                let index = match find(&self.program.catalog.tools, action.as_str()) {
                    Some(i) => i,
                    None => {
                        return Err(MachineError::UnknownTool);
                    },
                };
                proof {
                    lemma_position_bounds(self.program.catalog.tools@, action@);
                }
                let decoded = match decode_json(payload, &self.program.catalog.tools[index].1.result_type, &self.program) {
                    Ok(v) => v,
                    Err(e) => {
                        return Err(e);
                    },
                };
                let ghost dm = decoded@;
                let observation = RuntimeValue::Observation(Box::new(decoded));
                proof {
                    assert(observation@ == ValueModel::Observation(Box::new(dm)));
                }
                Ok(RuntimeValue::Result(Ok(Box::new(observation))))
            },
            PendingCompletion::Write { action, proposal_hash } => {
                let index = match find(&self.program.catalog.tools, action.as_str()) {
                    Some(i) => i,
                    None => {
                        return Err(MachineError::UnknownTool);
                    },
                };
                proof {
                    lemma_position_bounds(self.program.catalog.tools@, action@);
                }
                let decoded = match decode_json(payload, &self.program.catalog.tools[index].1.result_type, &self.program) {
                    Ok(v) => v,
                    Err(e) => {
                        return Err(e);
                    },
                };
                let ghost dm = decoded@;
                let receipt = RuntimeValue::Receipt(
                    ReceiptValue { action: action.clone(), proposal_hash: proposal_hash.clone(), value: Box::new(decoded) },
                );
                proof {
                    assert(receipt@ == ValueModel::Receipt(action@, proposal_hash@, Box::new(dm)));
                }
                Ok(RuntimeValue::Result(Ok(Box::new(receipt))))
            },
            PendingCompletion::Approval { proposal, policy, expires_at } => {
                let approved = match payload {
                    JsonValue::Object(members) => match find_member(members, "approved") {
                        Some(i) => match &members[i].1 {
                            JsonValue::Bool(b) => *b,
                            _ => {
                                return Err(type_mismatch_error("approval response"));
                            },
                        },
                        None => {
                            return Err(type_mismatch_error("approval response"));
                        },
                    },
                    _ => {
                        return Err(type_mismatch_error("approval response"));
                    },
                };
                if !approved {
                    return Ok(RuntimeValue::Result(Err(String::from_str("approval denied"))));
                }
                let proposal = proposal.clone();
                let policy = policy.clone();
                let expires_at = expires_at.clone();
                let permit = match self.snapshot.authority.issue(
                    &proposal,
                    policy.as_str(),
                    self.snapshot.grant_fingerprint.as_str(),
                    self.snapshot.event_time.as_str(),
                    expires_at.as_str(),
                    "human_approval",
                ) {
                    Ok(p) => p,
                    Err(e) => {
                        return Err(MachineError::Authority(String::from_str(e.message())));
                    },
                };
                Ok(RuntimeValue::Result(Ok(Box::new(RuntimeValue::Permit(permit)))))
            },
        }
    }
}


/// Whether variable usage can be reserved: every dimension named is a
/// variable-usage dimension not reserved yet, with capacity for its maximum.
pub open spec fn usage_admissible(maximums: Seq<(String, u64)>, reserved: Seq<(String, Reservation)>, budget: Budget) -> bool {
    forall|i: int|
        0 <= i < maximums.len() ==> {
            &&& #[trigger] position_of(reserved, maximums[i].0@) is None
            &&& usage_dimension_named(maximums[i].0@) matches Some(d)
            &&& maximums[i].1 <= budget.remaining_of(d)
        }
}

impl Machine {
    /// Reserves declared variable-usage maximums for the pending effect
    /// before its driver runs.
    pub fn reserve_pending_usage(&mut self, maximums: &Vec<(String, u64)>) -> (result: Result<(), MachineError>)
        requires
            old(self).wf(),
        ensures
            final(self).wf(),
            final(self).spec_program() == old(self).spec_program(),
            final(self).spec_failed() == old(self).spec_failed(),
            final(self).spec_completed() == old(self).spec_completed(),
            match old(self).spec_snapshot().pending_effect {
                None => result == Err::<(), MachineError>(MachineError::NoPendingEffect) && *final(self) == *old(self),
                Some(p) => {
                    &&& !usage_admissible(maximums@, p.usage_reservations@, old(self).spec_snapshot().budget)
                        ==> result is Err && *final(self) == *old(self)
                    &&& result is Ok ==> {
                        &&& usage_admissible(maximums@, p.usage_reservations@, old(self).spec_snapshot().budget)
                        &&& final(self).spec_snapshot().pending_effect matches Some(q)
                        &&& q.request == p.request
                        &&& q.target == p.target
                        &&& q.usage_reservations@.len() == p.usage_reservations@.len() + maximums@.len()
                        &&& q.usage_reservations@.take(p.usage_reservations@.len() as int) == p.usage_reservations@
                        &&& forall|i: int| 0 <= i < maximums@.len() ==> {
                            let entry = #[trigger] q.usage_reservations@[p.usage_reservations@.len() + i];
                            &&& entry.0@ == maximums@[i].0@
                            &&& entry.1.spec_maximum() == maximums@[i].1
                            &&& usage_dimension_named(maximums@[i].0@) == Some(entry.1.spec_dimension())
                        }
                    }
                },
            },
    {
        let p = match &self.snapshot.pending_effect {
            Some(p) => p,
            None => {
                return Err(MachineError::NoPendingEffect);
            },
        };
        let mut i: usize = 0;
        while i < maximums.len()
            invariant
                i <= maximums@.len(),
                *self == *old(self),
                self.wf(),
                old(self).snapshot.pending_effect == Some(*p),
                usage_admissible(maximums@.take(i as int), p.usage_reservations@, self.snapshot.budget),
            decreases maximums@.len() - i,
        {
            proof {
                assert(maximums@.take(i + 1).drop_last() =~= maximums@.take(i as int));
            }
            if find(&p.usage_reservations, maximums[i].0.as_str()).is_some() {
                proof {
                    assert(maximums@[i as int] == maximums@.take(i + 1)[i as int]);
                    assert(!usage_admissible(maximums@, p.usage_reservations@, self.snapshot.budget));
                }
                return Err(MachineError::UsageAlreadyReserved);
            }
            let dimension = match variable_usage_dimension(maximums[i].0.as_str()) {
                Some(d) => d,
                None => {
                    proof {
                        assert(!usage_admissible(maximums@, p.usage_reservations@, self.snapshot.budget));
                    }
                    return Err(MachineError::UnexpectedUsageDimension);
                },
            };
            if self.snapshot.budget.remaining(dimension) < maximums[i].1 {
                proof {
                    assert(!usage_admissible(maximums@, p.usage_reservations@, self.snapshot.budget));
                }
                return Err(budget_failure(BudgetError::Exhausted(dimension)));
            }
            proof {
                assert forall|j: int| 0 <= j < i + 1 implies {
                    &&& #[trigger] position_of(p.usage_reservations@, maximums@.take(i + 1)[j].0@) is None
                    &&& usage_dimension_named(maximums@.take(i + 1)[j].0@) matches Some(d)
                    &&& maximums@.take(i + 1)[j].1 <= self.snapshot.budget.remaining_of(d)
                } by {
                    if j < i {
                        assert(maximums@.take(i + 1)[j] == maximums@.take(i as int)[j]);
                    }
                }
            }
            i = i + 1;
        }
        proof {
            assert(maximums@.take(maximums@.len() as int) =~= maximums@);
        }
        let ghost pending = *p;
        let mut reserved: Vec<(String, Reservation)> = Vec::new();
        let mut k: usize = 0;
        while k < maximums.len()
            invariant
                k <= maximums@.len(),
                reserved@.len() == k,
                self.wf(),
                self.snapshot.pending_effect == Some(pending),
                self.program == old(self).program,
                self.failed == old(self).failed,
                self.completed == old(self).completed,
                old(self).snapshot.pending_effect == Some(pending),
                usage_admissible(maximums@, pending.usage_reservations@, old(self).snapshot.budget),
                forall|j: int| 0 <= j < k ==> {
                    let entry = #[trigger] reserved@[j];
                    &&& entry.0@ == maximums@[j].0@
                    &&& entry.1.spec_maximum() == maximums@[j].1
                    &&& usage_dimension_named(maximums@[j].0@) == Some(entry.1.spec_dimension())
                },
            decreases maximums@.len() - k,
        {
            let dimension = match variable_usage_dimension(maximums[k].0.as_str()) {
                Some(d) => d,
                None => {
                    return Err(MachineError::UnexpectedUsageDimension);
                },
            };
            let reservation = match self.snapshot.budget.reserve(dimension, maximums[k].1) {
                Ok(r) => r,
                Err(e) => {
                    return Err(budget_failure(e));
                },
            };
            reserved.push((maximums[k].0.clone(), reservation));
            k = k + 1;
        }
        match &mut self.snapshot.pending_effect {
            Some(q) => {
                let mut m: usize = 0;
                while m < reserved.len()
                    invariant
                        m <= reserved@.len(),
                        q.request == pending.request,
                        q.target == pending.target,
                        q.usage_reservations@ == pending.usage_reservations@ + reserved@.take(m as int),
                    decreases reserved@.len() - m,
                {
                    q.usage_reservations.push((reserved[m].0.clone(), reserved[m].1));
                    proof {
                        assert(reserved@.take(m + 1) =~= reserved@.take(m as int).push(reserved@[m as int]));
                    }
                    m = m + 1;
                }
            },
            None => {},
        }
        Ok(())
    }
}


impl Machine {
    /// The machine's continuation as it stands.
    pub fn continuation(&self) -> (snapshot: &MachineSnapshot)
        ensures
            *snapshot == self.spec_snapshot(),
    {
        &self.snapshot
    }
}

} // verus!
