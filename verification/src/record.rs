use vstd::prelude::*;

use crate::boundary::{EffectRequest, EffectResolution};
use crate::evaluation::{EffectKind, MachineError, effect_kind_name, failure, failure_message};
use crate::fixture::{DriverError, FixtureDriver};
use crate::host::{duplicate_request, same_request, unsigned_json, unsigned_model, usage_document, usage_json};
use crate::ir::Program;
use crate::json_value::{
    JsonModel, JsonValue, canonical_digest, canonical_json, canonical_sha256, canonical_text,
    duplicate_members, lemma_members_view, members_view,
};
use crate::machine::{
    Machine, RunOutcome, StartRequest, Step, start_outcome, start_request_document,
    start_request_json,
};
use crate::replay::ReplayError;
use crate::trace::{Trace, TraceEntry, TraceError, chain_verdict};
use crate::text::str_equal;

verus! {

/// Instructions a recording or a replay runs between two effects before it
/// gives up on reaching one.
pub const STEP_LIMIT: u64 = 1_000_000;

/// Effects a recording answers before it gives up on completing.
pub const EFFECT_LIMIT: u64 = 1_000_000;

/// The run header: the program and the canonical hash of the start request.
pub open spec fn header_document(program_hash: Seq<char>, input_hash: Seq<char>) -> JsonModel {
    JsonModel::Object(
        seq![("input_hash"@, JsonModel::Text(input_hash)), ("program_hash"@, JsonModel::Text(program_hash))],
    )
}

/// The header a run of `start` under `program` is recorded with.
pub open spec fn run_header(program: Program, start: StartRequest) -> JsonModel {
    header_document(program.program_hash@, canonical_digest(start_request_document(start)))
}

/// The recorded form of an effect request.
pub open spec fn request_document(request: EffectRequest) -> JsonModel {
    JsonModel::Object(
        seq![
            ("identity"@, JsonModel::Text(request.identity@)),
            ("kind"@, JsonModel::Text(effect_kind_name(request.kind))),
            ("payload"@, request.payload@),
            ("request_hash"@, JsonModel::Text(request.request_hash@)),
        ],
    )
}

/// The recorded form of the usage maximums reserved before an effect.
pub open spec fn reservation_document(maximums: Seq<(String, u64)>) -> JsonModel {
    JsonModel::Object(seq![("variable_maximums"@, usage_document(maximums))])
}

/// The recorded form of an effect resolution.
pub open spec fn resolution_document(resolution: EffectResolution) -> JsonModel {
    JsonModel::Object(
        seq![
            ("actual_usage"@, usage_document(resolution.actual_usage@)),
            ("payload"@, resolution.payload@),
            ("request_hash"@, JsonModel::Text(resolution.request_hash@)),
        ],
    )
}

/// The recorded form of a run outcome.
pub open spec fn outcome_document(outcome: RunOutcome) -> JsonModel {
    JsonModel::Object(
        seq![("state"@, JsonModel::Object(members_view(outcome.state@))), ("value"@, outcome.value@)],
    )
}

/// The recorded form of a machine failure.
pub open spec fn failure_document(error: MachineError) -> JsonModel {
    JsonModel::Object(seq![("error"@, JsonModel::Text(failure_message(failure(error))))])
}

fn text_member(key: &str, value: &String) -> (member: (String, JsonValue))
    ensures
        member.0@ == key@,
        member.1@ == JsonModel::Text(value@),
{
    (key.to_owned(), JsonValue::String(value.clone()))
}

/// The JSON text of the run header.
pub fn header_text(program_hash: &String, input_hash: &String) -> (text: String)
    ensures
        text@ == canonical_text(header_document(program_hash@, input_hash@)),
{
    let members = vec![text_member("input_hash", input_hash), text_member("program_hash", program_hash)];
    proof {
        lemma_members_view(members@);
        assert(members_view(members@) =~= seq![
            ("input_hash"@, JsonModel::Text(input_hash@)),
            ("program_hash"@, JsonModel::Text(program_hash@)),
        ]);
    }
    canonical_json(&JsonValue::Object(members))
}

/// The identity of a run: the canonical hash of its header document, which
/// names the program and the input of the run.
pub fn run_identity(program: &Program, start: &StartRequest) -> (id: String)
    ensures
        id@ == canonical_digest(run_header(*program, *start)),
{
    let input_hash = canonical_sha256(&start_request_json(start));
    let members = vec![text_member("input_hash", &input_hash), text_member("program_hash", &program.program_hash)];
    proof {
        lemma_members_view(members@);
        assert(members_view(members@) =~= seq![
            ("input_hash"@, JsonModel::Text(input_hash@)),
            ("program_hash"@, JsonModel::Text(program.program_hash@)),
        ]);
    }
    canonical_sha256(&JsonValue::Object(members))
}

/// The JSON text of an effect request.
pub fn request_text(request: &EffectRequest) -> (text: String)
    ensures
        text@ == canonical_text(request_document(*request)),
{
    let members = vec![
        text_member("identity", &request.identity),
        (String::from_str("kind"), JsonValue::String(String::from_str(request.kind.name()))),
        (String::from_str("payload"), request.payload.duplicate()),
        text_member("request_hash", &request.request_hash),
    ];
    proof {
        lemma_members_view(members@);
        assert(members_view(members@) =~= seq![
            ("identity"@, JsonModel::Text(request.identity@)),
            ("kind"@, JsonModel::Text(effect_kind_name(request.kind))),
            ("payload"@, request.payload@),
            ("request_hash"@, JsonModel::Text(request.request_hash@)),
        ]);
    }
    canonical_json(&JsonValue::Object(members))
}

/// The JSON text of reserved usage maximums.
pub fn reservation_text(maximums: &Vec<(String, u64)>) -> (text: String)
    ensures
        text@ == canonical_text(reservation_document(maximums@)),
{
    let members = vec![(String::from_str("variable_maximums"), usage_json(maximums))];
    proof {
        lemma_members_view(members@);
        assert(members_view(members@) =~= seq![("variable_maximums"@, usage_document(maximums@))]);
    }
    canonical_json(&JsonValue::Object(members))
}

/// The JSON text of an effect resolution.
pub fn resolution_text(resolution: &EffectResolution) -> (text: String)
    ensures
        text@ == canonical_text(resolution_document(*resolution)),
{
    let members = vec![
        (String::from_str("actual_usage"), usage_json(&resolution.actual_usage)),
        (String::from_str("payload"), resolution.payload.duplicate()),
        text_member("request_hash", &resolution.request_hash),
    ];
    proof {
        lemma_members_view(members@);
        assert(members_view(members@) =~= seq![
            ("actual_usage"@, usage_document(resolution.actual_usage@)),
            ("payload"@, resolution.payload@),
            ("request_hash"@, JsonModel::Text(resolution.request_hash@)),
        ]);
    }
    canonical_json(&JsonValue::Object(members))
}

/// The JSON text of a run outcome.
pub fn outcome_text(outcome: &RunOutcome) -> (text: String)
    ensures
        text@ == canonical_text(outcome_document(*outcome)),
{
    let members = vec![
        (String::from_str("state"), JsonValue::Object(duplicate_members(&outcome.state))),
        (String::from_str("value"), outcome.value.duplicate()),
    ];
    proof {
        lemma_members_view(members@);
        assert(members_view(members@) =~= seq![
            ("state"@, JsonModel::Object(members_view(outcome.state@))),
            ("value"@, outcome.value@),
        ]);
    }
    canonical_json(&JsonValue::Object(members))
}

/// The JSON text of a machine failure.
pub fn failure_text(error: &MachineError) -> (text: String)
    ensures
        text@ == canonical_text(failure_document(*error)),
{
    let message = error.message();
    let members = vec![text_member("error", &message)];
    proof {
        lemma_members_view(members@);
        assert(members_view(members@) =~= seq![("error"@, JsonModel::Text(failure_message(failure(*error))))]);
    }
    canonical_json(&JsonValue::Object(members))
}


/// Where a recording stands.
pub enum RecordPhase {
    /// The machine runs towards its next effect or its end.
    Running,
    /// A request waits for its usage maximums to be reserved.
    AwaitingAdmission(EffectRequest),
    /// An admitted request waits for its resolution.
    AwaitingResolution(EffectRequest),
    /// The run completed with this outcome.
    Completed(RunOutcome),
    /// The run failed.
    Failed,
}

/// What a recording reports when it stops.
#[derive(Debug, PartialEq, Eq)]
pub enum RecordProgress {
    AwaitingAdmission(EffectRequest),
    AwaitingResolution(EffectRequest),
    Completed(RunOutcome),
}

/// Record-mode failure.
#[derive(Debug, PartialEq, Eq)]
pub enum RunError {
    /// The machine failed, at start or while running.
    Machine(MachineError),
    /// The effect driver refused a request.
    Driver(DriverError),
    /// The call does not fit where the recording stands.
    SessionPhase,
    /// The run neither suspended nor ended within the step limit.
    StepLimit,
}

/// A recording of one run: the machine, the hash-chained trace of what it
/// requested and was given, and where the recording stands.
pub struct RecordSession {
    machine: Machine,
    trace: Trace,
    phase: RecordPhase,
}

/// The trace `after` keeps every entry of `before` in place.
pub open spec fn trace_extends(before: Trace, after: Trace) -> bool {
    &&& after.run_id == before.run_id
    &&& after.entries@.len() >= before.entries@.len()
    &&& forall|i: int| 0 <= i < before.entries@.len() ==> after.entries@[i] == before.entries@[i]
}

/// `after` is `before` with one more entry of this kind and payload.
pub open spec fn trace_appends(before: Trace, after: Trace, kind: Seq<char>, payload: Seq<char>) -> bool {
    &&& after.run_id == before.run_id
    &&& after.entries@.len() == before.entries@.len() + 1
    &&& after.entries@.drop_last() == before.entries@
    &&& after.entries@.last().kind@ == kind
    &&& after.entries@.last().payload@ == payload
}

impl RecordSession {
    /// The recording's machine is well formed.
    pub closed spec fn wf(&self) -> bool {
        self.machine.wf()
    }

    /// The trace recorded so far.
    pub closed spec fn spec_trace(&self) -> Trace {
        self.trace
    }

    /// Where the recording stands.
    pub closed spec fn spec_phase(&self) -> RecordPhase {
        self.phase
    }

    /// Starts recording an event: the machine starts and the trace opens
    /// with the run header.
    pub fn start(program: Program, start: StartRequest, run_id: &str) -> (result: Result<RecordSession, RunError>)
        ensures
            match start_outcome(program, start) {
                Err(f) => result matches Err(RunError::Machine(e)) && failure(e) == f,
                Ok(_) => result matches Ok(session) && session.wf() && session.spec_phase() is Running
                    && session.spec_trace().run_id@ == run_id@ && session.spec_trace().entries@.len() == 1
                    && session.spec_trace().entries@[0].kind@ == "run_header"@
                    && session.spec_trace().entries@[0].payload@ == canonical_text(run_header(program, start)),
            },
    {
        let input_hash = canonical_sha256(&start_request_json(&start));
        let header = header_text(&program.program_hash, &input_hash);
        let machine = match Machine::start(program, start) {
            Ok(m) => m,
            Err(e) => {
                return Err(RunError::Machine(e));
            },
        };
        let mut trace = Trace::new(run_id);
        let _ = trace.append("run_header", header.as_str());
        Ok(RecordSession { machine, trace, phase: RecordPhase::Running })
    }

    /// Runs the machine to its next effect or its end and records it: a
    /// request as `effect_requested`, a completion as `run_completed`, a
    /// failure as `run_failed`. A recording that waits reports what it waits
    /// for, unchanged; a failed one refuses.
    pub fn progress(&mut self) -> (result: Result<RecordProgress, RunError>)
        requires
            old(self).wf(),
        ensures
            final(self).wf(),
            trace_extends(old(self).spec_trace(), final(self).spec_trace()),
            match old(self).spec_phase() {
                RecordPhase::AwaitingAdmission(r) => *final(self) == *old(self) && (result matches Ok(
                    RecordProgress::AwaitingAdmission(q),
                ) && same_request(q, r)),
                RecordPhase::AwaitingResolution(r) => *final(self) == *old(self) && (result matches Ok(
                    RecordProgress::AwaitingResolution(q),
                ) && same_request(q, r)),
                RecordPhase::Completed(_) => *final(self) == *old(self) && result matches Ok(
                    RecordProgress::Completed(_),
                ),
                RecordPhase::Failed => *final(self) == *old(self) && result == Err::<
                    RecordProgress,
                    RunError,
                >(RunError::SessionPhase),
                RecordPhase::Running => match result {
                    Ok(RecordProgress::AwaitingAdmission(r)) => {
                        &&& final(self).spec_phase() matches RecordPhase::AwaitingAdmission(q)
                        &&& same_request(q, r)
                        &&& trace_appends(
                            old(self).spec_trace(),
                            final(self).spec_trace(),
                            "effect_requested"@,
                            canonical_text(request_document(r)),
                        )
                    },
                    Ok(RecordProgress::Completed(o)) => {
                        &&& final(self).spec_phase() is Completed
                        &&& trace_appends(
                            old(self).spec_trace(),
                            final(self).spec_trace(),
                            "run_completed"@,
                            canonical_text(outcome_document(o)),
                        )
                    },
                    Err(RunError::Machine(e)) => {
                        &&& final(self).spec_phase() is Failed
                        &&& trace_appends(
                            old(self).spec_trace(),
                            final(self).spec_trace(),
                            "run_failed"@,
                            canonical_text(failure_document(e)),
                        )
                    },
                    Err(RunError::StepLimit) => final(self).spec_phase() is Running
                        && final(self).spec_trace() == old(self).spec_trace(),
                    _ => false,
                },
            },
    {
        match &self.phase {
            RecordPhase::AwaitingAdmission(r) => {
                return Ok(RecordProgress::AwaitingAdmission(duplicate_request(r)));
            },
            RecordPhase::AwaitingResolution(r) => {
                return Ok(RecordProgress::AwaitingResolution(duplicate_request(r)));
            },
            RecordPhase::Completed(o) => {
                return Ok(RecordProgress::Completed(o.duplicate()));
            },
            RecordPhase::Failed => {
                return Err(RunError::SessionPhase);
            },
            RecordPhase::Running => {},
        }
        let mut n: u64 = 0;
        while n < STEP_LIMIT
            invariant
                self.machine.wf(),
                self.trace == old(self).trace,
                self.phase is Running,
                old(self).phase is Running,
            decreases STEP_LIMIT - n,
        {
            n = n + 1;
            match self.machine.step() {
                Step::Continue => {},
                Step::Yield(request) => {
                    let text = request_text(&request);
                    let _ = self.trace.append("effect_requested", text.as_str());
                    self.phase = RecordPhase::AwaitingAdmission(duplicate_request(&request));
                    return Ok(RecordProgress::AwaitingAdmission(request));
                },
                Step::Completed(outcome) => {
                    let text = outcome_text(&outcome);
                    let _ = self.trace.append("run_completed", text.as_str());
                    self.phase = RecordPhase::Completed(outcome.duplicate());
                    return Ok(RecordProgress::Completed(outcome));
                },
                Step::Failed(error) => {
                    let text = failure_text(&error);
                    let _ = self.trace.append("run_failed", text.as_str());
                    self.phase = RecordPhase::Failed;
                    return Err(RunError::Machine(error));
                },
            }
        }
        Err(RunError::StepLimit)
    }

    /// Reserves the usage maximums of the waiting request and records them
    /// as `budget_reserved`; the request then waits for its resolution.
    pub fn reserve_usage(&mut self, maximums: &Vec<(String, u64)>) -> (result: Result<(), RunError>)
        requires
            old(self).wf(),
        ensures
            final(self).wf(),
            match old(self).spec_phase() {
                RecordPhase::AwaitingAdmission(r) => match result {
                    Ok(()) => {
                        &&& final(self).spec_phase() matches RecordPhase::AwaitingResolution(q)
                        &&& same_request(q, r)
                        &&& trace_appends(
                            old(self).spec_trace(),
                            final(self).spec_trace(),
                            "budget_reserved"@,
                            canonical_text(reservation_document(maximums@)),
                        )
                    },
                    Err(e) => e is Machine && final(self).spec_phase() == old(self).spec_phase()
                        && final(self).spec_trace() == old(self).spec_trace(),
                },
                _ => result == Err::<(), RunError>(RunError::SessionPhase) && *final(self) == *old(self),
            },
    {
        let request = match &self.phase {
            RecordPhase::AwaitingAdmission(r) => duplicate_request(r),
            _ => {
                return Err(RunError::SessionPhase);
            },
        };
        match self.machine.reserve_pending_usage(maximums) {
            Ok(()) => {},
            Err(e) => {
                return Err(RunError::Machine(e));
            },
        }
        let text = reservation_text(maximums);
        let _ = self.trace.append("budget_reserved", text.as_str());
        self.phase = RecordPhase::AwaitingResolution(request);
        Ok(())
    }

    /// Supplies the resolution of the admitted request and records it as
    /// `effect_resolved`; the machine then runs on.
    pub fn resolve(&mut self, resolution: &EffectResolution) -> (result: Result<(), RunError>)
        requires
            old(self).wf(),
        ensures
            final(self).wf(),
            match old(self).spec_phase() {
                RecordPhase::AwaitingResolution(_) => match result {
                    Ok(()) => {
                        &&& final(self).spec_phase() is Running
                        &&& trace_appends(
                            old(self).spec_trace(),
                            final(self).spec_trace(),
                            "effect_resolved"@,
                            canonical_text(resolution_document(*resolution)),
                        )
                    },
                    Err(e) => e is Machine && final(self).spec_phase() == old(self).spec_phase()
                        && final(self).spec_trace() == old(self).spec_trace(),
                },
                _ => result == Err::<(), RunError>(RunError::SessionPhase) && *final(self) == *old(self),
            },
    {
        match &self.phase {
            RecordPhase::AwaitingResolution(_) => {},
            _ => {
                return Err(RunError::SessionPhase);
            },
        }
        match self.machine.supply(resolution) {
            Ok(()) => {},
            Err(e) => {
                return Err(RunError::Machine(e));
            },
        }
        let text = resolution_text(resolution);
        let _ = self.trace.append("effect_resolved", text.as_str());
        self.phase = RecordPhase::Running;
        Ok(())
    }

    /// The trace recorded so far.
    pub fn trace(&self) -> (trace: &Trace)
        ensures
            *trace == self.spec_trace(),
    {
        &self.trace
    }

    /// Ends the recording, handing over its trace.
    pub fn into_trace(self) -> (trace: Trace)
        ensures
            trace == self.spec_trace(),
    {
        self.trace
    }
}

/// Previews a request with the driver, reserves its maximums, resolves it
/// and supplies the resolution, recording each step.
fn serve_effect(session: &mut RecordSession, driver: &mut FixtureDriver, request: &EffectRequest) -> (result: Result<
    (),
    RunError,
>)
    requires
        old(session).wf(),
        old(driver).wf(),
        old(session).spec_phase() is AwaitingAdmission,
    ensures
        final(session).wf(),
        final(driver).wf(),
        trace_extends(old(session).spec_trace(), final(session).spec_trace()),
        result is Ok ==> final(session).spec_phase() is Running,
{
    let preview = match driver.preview(request) {
        Ok(p) => p,
        Err(e) => {
            return Err(RunError::Driver(e));
        },
    };
    match session.reserve_usage(preview.maximums()) {
        Ok(()) => {},
        Err(e) => {
            return Err(e);
        },
    }
    let resolution = match driver.resolve(request, &preview) {
        Ok(r) => r,
        Err(e) => {
            return Err(RunError::Driver(e));
        },
    };
    session.resolve(&resolution)
}

/// Runs a recording in its running phase to its next stop, serving an effect
/// with the driver: it either stays running, having served one effect, or
/// completes with an outcome recorded last.
fn record_step(session: &mut RecordSession, driver: &mut FixtureDriver) -> (result: Result<
    Option<RunOutcome>,
    RunError,
>)
    requires
        old(session).wf(),
        old(driver).wf(),
        old(session).spec_phase() is Running,
    ensures
        final(session).wf(),
        final(driver).wf(),
        trace_extends(old(session).spec_trace(), final(session).spec_trace()),
        result matches Ok(None) ==> final(session).spec_phase() is Running,
        result matches Ok(Some(o)) ==> final(session).spec_trace().entries@.len() > old(
            session,
        ).spec_trace().entries@.len() && final(session).spec_trace().entries@.last().kind@
            == "run_completed"@ && final(session).spec_trace().entries@.last().payload@ == canonical_text(
            outcome_document(o),
        ),
{
    let ghost before = session.spec_trace();
    match session.progress() {
        Ok(RecordProgress::AwaitingAdmission(request)) => {
            let ghost mid = session.spec_trace();
            let served = serve_effect(session, driver, &request);
            proof {
                assert forall|i: int| 0 <= i < before.entries@.len() implies session.spec_trace().entries@[i]
                    == before.entries@[i] by {
                    assert(mid.entries@[i] == before.entries@[i]);
                }
            }
            match served {
                Ok(()) => Ok(None),
                Err(e) => Err(e),
            }
        },
        Ok(RecordProgress::Completed(outcome)) => Ok(Some(outcome)),
        Ok(RecordProgress::AwaitingResolution(_)) => Err(RunError::SessionPhase),
        Err(e) => Err(e),
    }
}

/// Records one run driven by fixtures: every request is previewed, its
/// usage maximums reserved, then resolved by the driver. A completed run
/// yields its outcome and a trace that opens with the run header and ends
/// with the recorded outcome.
pub fn record_run(program: Program, start: StartRequest, run_id: &str, driver: &mut FixtureDriver) -> (result: Result<
    (RunOutcome, Trace),
    RunError,
>)
    requires
        old(driver).wf(),
    ensures
        start_outcome(program, start) matches Err(f) ==> result matches Err(RunError::Machine(e)) && failure(e) == f,
        result matches Ok((outcome, trace)) ==> {
            &&& trace.run_id@ == run_id@
            &&& trace.entries@.len() >= 2
            &&& trace.entries@[0].kind@ == "run_header"@
            &&& trace.entries@[0].payload@ == canonical_text(run_header(program, start))
            &&& trace.entries@.last().kind@ == "run_completed"@
            &&& trace.entries@.last().payload@ == canonical_text(outcome_document(outcome))
        },
{
    let session = match RecordSession::start(program, start, run_id) {
        Ok(s) => s,
        Err(e) => {
            return Err(e);
        },
    };
    finish_recording(session, driver)
}

/// Drives a running recording to its end with the driver; the trace keeps
/// its first entries and ends with the recorded outcome.
fn finish_recording(recording: RecordSession, driver: &mut FixtureDriver) -> (result: Result<
    (RunOutcome, Trace),
    RunError,
>)
    requires
        recording.wf(),
        old(driver).wf(),
        recording.spec_phase() is Running,
        recording.spec_trace().entries@.len() >= 1,
    ensures
        result matches Ok((outcome, trace)) ==> {
            &&& trace.run_id == recording.spec_trace().run_id
            &&& trace.entries@.len() >= 2
            &&& trace.entries@[0] == recording.spec_trace().entries@[0]
            &&& trace.entries@.last().kind@ == "run_completed"@
            &&& trace.entries@.last().payload@ == canonical_text(outcome_document(outcome))
        },
{
    let ghost first = recording.spec_trace().entries@[0];
    let ghost run_id = recording.spec_trace().run_id;
    let mut session = recording;
    let mut effects: u64 = 0;
    while effects < EFFECT_LIMIT
        invariant
            session.wf(),
            driver.wf(),
            session.spec_trace().run_id == run_id,
            session.spec_trace().entries@.len() >= 1,
            session.spec_trace().entries@[0] == first,
            session.spec_phase() is Running,
            first == recording.spec_trace().entries@[0],
            run_id == recording.spec_trace().run_id,
        decreases EFFECT_LIMIT - effects,
    {
        effects = effects + 1;
        let ghost before = session.spec_trace();
        let step = record_step(&mut session, driver);
        proof {
            assert(before.entries@[0] == first);
            assert(session.spec_trace().entries@[0] == before.entries@[0]);
        }
        match step {
            Ok(None) => {},
            Ok(Some(outcome)) => {
                let trace = session.into_trace();
                return Ok((outcome, trace));
            },
            Err(e) => {
                return Err(e);
            },
        }
    }
    Err(RunError::StepLimit)
}


/// One recorded effect as decoded from its trace entries: the usage
/// maximums reserved for it and the resolution it was given.
pub struct DecodedEffect {
    pub maximums: Vec<(String, u64)>,
    pub resolution: EffectResolution,
}

/// Whether trace entries open with the header of a run of `start` under
/// `program`.
pub open spec fn header_matches(program: Program, start: StartRequest, entries: Seq<TraceEntry>) -> bool {
    &&& entries.len() > 0
    &&& entries[0].kind@ == "run_header"@
    &&& entries[0].payload@ == canonical_text(run_header(program, start))
}

fn entry_is(trace: &Trace, position: usize, kind: &str) -> (found: bool)
    ensures
        found == (position < trace.entries@.len() && trace.entries@[position as int].kind@ == kind@),
{
    position < trace.entries.len() && str_equal(trace.entries[position].kind.as_str(), kind)
}

/// One machine step, for loops that only need the machine to stay well
/// formed.
fn run_one(machine: &mut Machine) -> (step: Step)
    requires
        old(machine).wf(),
    ensures
        final(machine).wf(),
{
    machine.step()
}

/// Checks one raised request and its answer against the three trace entries
/// at `position` and feeds the recorded maximums and resolution to the
/// machine.
fn replay_effect(
    machine: &mut Machine,
    trace: &Trace,
    position: usize,
    effect: &DecodedEffect,
    request: &EffectRequest,
) -> (result: Result<(), ReplayError>)
    requires
        old(machine).wf(),
        position <= trace.entries@.len(),
    ensures
        final(machine).wf(),
        result is Ok ==> position + 3 <= trace.entries@.len(),
{
    let count = trace.entries.len();
    if !entry_is(trace, position, "effect_requested") {
        return Err(ReplayError::EffectSequenceMismatch);
    }
    if !str_equal(trace.entries[position].payload.as_str(), request_text(request).as_str()) {
        return Err(ReplayError::RequestDivergence);
    }
    if !entry_is(trace, position + 1, "budget_reserved") {
        return Err(ReplayError::EffectSequenceMismatch);
    }
    if !str_equal(trace.entries[position + 1].payload.as_str(), reservation_text(&effect.maximums).as_str()) {
        return Err(ReplayError::BudgetDivergence);
    }
    match machine.reserve_pending_usage(&effect.maximums) {
        Ok(()) => {},
        Err(e) => {
            return Err(ReplayError::Machine(e));
        },
    }
    if !entry_is(trace, position + 2, "effect_resolved") {
        return Err(ReplayError::EffectSequenceMismatch);
    }
    if !str_equal(
        trace.entries[position + 2].payload.as_str(),
        resolution_text(&effect.resolution).as_str(),
    ) {
        return Err(ReplayError::ResolutionDivergence);
    }
    match machine.supply(&effect.resolution) {
        Ok(()) => Ok(()),
        Err(e) => Err(ReplayError::Machine(e)),
    }
}

/// Replays a recorded trace without any driver: the hash chain must hold
/// and the header must name this program and start request; the machine is
/// then re-run, and each request it raises, the maximums reserved and the
/// resolutions supplied (taken from `effects`) must be, in order, exactly
/// the recorded entries, and the run must complete with exactly the
/// recorded outcome, which is returned.
pub fn replay_trace(program: Program, start: StartRequest, trace: &Trace, effects: &Vec<DecodedEffect>) -> (result: Result<
    RunOutcome,
    ReplayError,
>)
    ensures
        chain_verdict(trace.run_id@, trace.entries@, 0) matches Err(e) ==> result == Err::<
            RunOutcome,
            ReplayError,
        >(ReplayError::Trace(e)),
        chain_verdict(trace.run_id@, trace.entries@, 0) is Ok && !header_matches(program, start, trace.entries@)
            ==> result == Err::<RunOutcome, ReplayError>(ReplayError::FingerprintMismatch),
        chain_verdict(trace.run_id@, trace.entries@, 0) is Ok && header_matches(program, start, trace.entries@)
            ==> (start_outcome(program, start) matches Err(f) ==> result matches Err(ReplayError::Machine(e))
            && failure(e) == f),
        result matches Ok(outcome) ==> {
            &&& chain_verdict(trace.run_id@, trace.entries@, 0) is Ok
            &&& header_matches(program, start, trace.entries@)
            &&& trace.entries@.last().kind@ == "run_completed"@
            &&& trace.entries@.last().payload@ == canonical_text(outcome_document(outcome))
        },
{
    match trace.verify() {
        Ok(()) => {},
        Err(e) => {
            return Err(ReplayError::Trace(e));
        },
    }
    let input_hash = canonical_sha256(&start_request_json(&start));
    let header = header_text(&program.program_hash, &input_hash);
    if !entry_is(trace, 0, "run_header") || !str_equal(trace.entries[0].payload.as_str(), header.as_str()) {
        return Err(ReplayError::FingerprintMismatch);
    }
    let machine = match Machine::start(program, start) {
        Ok(m) => m,
        Err(e) => {
            return Err(ReplayError::Machine(e));
        },
    };
    replay_from(machine, trace, effects)
}

/// Runs a started machine against the trace entries after the header.
fn replay_from(machine: Machine, trace: &Trace, effects: &Vec<DecodedEffect>) -> (result: Result<
    RunOutcome,
    ReplayError,
>)
    requires
        machine.wf(),
        trace.entries@.len() >= 1,
    ensures
        result matches Ok(outcome) ==> {
            &&& trace.entries@.last().kind@ == "run_completed"@
            &&& trace.entries@.last().payload@ == canonical_text(outcome_document(outcome))
        },
{
    let mut machine = machine;
    let count = trace.entries.len();
    let mut position: usize = 1;
    let mut index: usize = 0;
    let mut steps: u64 = 0;
    while steps < STEP_LIMIT
        invariant
            machine.wf(),
            count == trace.entries@.len(),
            1 <= position <= trace.entries@.len(),
            index <= effects@.len(),
        decreases STEP_LIMIT - steps,
    {
        steps = steps + 1;
        match run_one(&mut machine) {
            Step::Continue => {},
            Step::Yield(request) => {
                if index >= effects.len() {
                    return Err(ReplayError::EffectSequenceMismatch);
                }
                match replay_effect(&mut machine, trace, position, &effects[index], &request) {
                    Ok(()) => {},
                    Err(e) => {
                        return Err(e);
                    },
                }
                position = position + 3;
                index = index + 1;
            },
            Step::Completed(outcome) => {
                if index != effects.len() || count - position != 1 || !entry_is(
                    trace,
                    position,
                    "run_completed",
                ) {
                    return Err(ReplayError::EffectSequenceMismatch);
                }
                if !str_equal(trace.entries[position].payload.as_str(), outcome_text(&outcome).as_str()) {
                    return Err(ReplayError::OutcomeDivergence);
                }
                return Ok(outcome);
            },
            Step::Failed(e) => {
                return Err(ReplayError::Machine(e));
            },
        }
    }
    Err(ReplayError::StepLimit)
}
} // verus!
