use vstd::prelude::*;

use crate::boundary::{EffectRequest, EffectResolution};
use crate::evaluation::{MachineError, failure};
use crate::host::requests_equal;
use crate::ir::Program;
use crate::trace::TraceError;
use crate::json_value::{json_equal, members_equal};
use crate::machine::{
    Machine, RunOutcome, StartRequest, Step, same_outcome, start_outcome,
};

verus! {

/// Instructions a replay runs before it gives up on reaching an end.
pub const REPLAY_STEP_LIMIT: u64 = 1_000_000;

/// One recorded effect: the request the machine raised, the variable-usage
/// maximums reserved before it ran, and the resolution it was given.
pub struct RecordedEffect {
    pub request: EffectRequest,
    pub maximums: Vec<(String, u64)>,
    pub resolution: EffectResolution,
}

/// Driver-free replay divergence.
#[derive(Debug, PartialEq, Eq)]
pub enum ReplayError {
    /// The machine failed, at start or while running.
    Machine(MachineError),
    /// The machine raised more or fewer requests than were recorded.
    EffectSequenceMismatch,
    /// A request differs from the one recorded at its position.
    RequestDivergence,
    /// The run completed with another outcome than the recorded one.
    OutcomeDivergence,
    /// The run neither completed nor failed within the step limit.
    StepLimit,
    /// The trace's hash chain is broken.
    Trace(TraceError),
    /// The trace was recorded for another program or start request.
    FingerprintMismatch,
    /// The usage maximums differ from the ones recorded for an effect.
    BudgetDivergence,
    /// The resolution differs from the one recorded for an effect.
    ResolutionDivergence,
}

/// Whether two outcomes carry the same state and value.
pub fn outcomes_equal(a: &RunOutcome, b: &RunOutcome) -> (equal: bool)
    ensures
        equal == same_outcome(*a, *b),
{
    members_equal(&a.state, &b.state) && json_equal(&a.value, &b.value)
}

/// Re-runs an event against recorded effects without any driver: each
/// request the machine raises must equal the recorded one at its position,
/// which is then answered with the recorded maximums and resolution; the
/// run must use every recorded effect and complete with the recorded
/// outcome, which is returned. A start that fails is reported as the
/// machine's failure, and a replay that succeeds reproduces the recorded
/// outcome exactly.
pub fn replay_run(
    program: Program,
    start: StartRequest,
    effects: &Vec<RecordedEffect>,
    recorded: &RunOutcome,
) -> (result: Result<RunOutcome, ReplayError>)
    ensures
        match start_outcome(program, start) {
            Err(f) => result matches Err(ReplayError::Machine(e)) && failure(e) == f,
            Ok(_) => true,
        },
        result matches Ok(outcome) ==> start_outcome(program, start) is Ok && same_outcome(
            outcome,
            *recorded,
        ),
{
    let mut machine = match Machine::start(program, start) {
        Ok(m) => m,
        Err(e) => {
            return Err(ReplayError::Machine(e));
        },
    };
    proof {
        assert(start_outcome(program, start) is Ok);
        assert(machine.wf());
    }
    let mut index: usize = 0;
    let mut steps: u64 = 0;
    while steps < REPLAY_STEP_LIMIT
        invariant
            machine.wf(),
            index <= effects@.len(),
            start_outcome(program, start) is Ok,
        decreases REPLAY_STEP_LIMIT - steps,
    {
        steps = steps + 1;
        match machine.step() {
            Step::Continue => {},
            Step::Yield(request) => {
                if index >= effects.len() {
                    return Err(ReplayError::EffectSequenceMismatch);
                }
                if !requests_equal(&request, &effects[index].request) {
                    return Err(ReplayError::RequestDivergence);
                }
                match machine.reserve_pending_usage(&effects[index].maximums) {
                    Ok(()) => {},
                    Err(e) => {
                        return Err(ReplayError::Machine(e));
                    },
                }
                match machine.supply(&effects[index].resolution) {
                    Ok(()) => {},
                    Err(e) => {
                        return Err(ReplayError::Machine(e));
                    },
                }
                index = index + 1;
            },
            Step::Completed(outcome) => {
                if index != effects.len() {
                    return Err(ReplayError::EffectSequenceMismatch);
                }
                if !outcomes_equal(&outcome, recorded) {
                    return Err(ReplayError::OutcomeDivergence);
                }
                return Ok(outcome);
            },
            Step::Failed(e) => {
                return Err(ReplayError::Machine(e));
            },
        }
    }
    Err(ReplayError::StepLimit)
}

} // verus!
