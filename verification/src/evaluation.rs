use vstd::prelude::*;

use crate::authority::{Intent, Proposal};
use crate::budget::BudgetDimension;
use crate::json_value::{
    JsonModel, JsonValue, duplicate_members, items_view, json_member_insert, json_view,
    lemma_items_view, lemma_members_view, members_view,
};
use crate::ordered::{key_less, lemma_model_insert_at, model_insert, model_lookup};
use crate::runtime_value::{
    IntentModel, ProposalModel, ReceiptValue, RuntimeValue, ValueModel, lemma_list_view,
    lemma_record_view, list_view, record_view, value_view, values_equal,
};
use crate::text::{decimal, push_str, str_equal, str_less, usize_text};
use crate::ir::{
    FieldSpec, PatternSpec, PolicyDecisionSpec, PolicyRuleSpec, TypeSpec, InstructionKind, NamedExpression, NamedValue, Program, PureExpression, Routine,
    ValueId, routine_named,
};
use crate::instant::{instant_fields, shifted_instant};
use crate::table::{find, lemma_position_bounds, lookup};
use crate::span::utf8_of;
use crate::json_value::{canonical_digest, canonical_sha256};

verus! {

/// Controlled failures of the runtime machine and its evaluator.
#[derive(Debug, PartialEq, Eq)]
pub enum MachineError {
    UnknownAgent,
    UnknownEvent,
    UnknownRoutine,
    MissingHandlerParameter,
    MissingInput(String),
    UnknownStateField,
    TypeMismatch(String),
    UnknownValue,
    MissingFrame,
    InvalidIp,
    MissingReturnTarget,
    UnsupportedInstruction,
    NonExhaustiveMatch,
    UnsupportedPureExpression,
    EffectInPureRoutine,
    PropagatedError(String),
    NoPendingEffect,
    ResolutionMismatch,
    UnexpectedUsageDimension,
    UsageAlreadyReserved,
    UnknownTool,
    UnknownPrompt,
    UnknownValidator,
    UnknownPolicy,
    NonTotalPolicy,
    RequirementFailed,
    MissingIdempotency,
    ApprovalNotRepresentable,
    AuthorityValueOpaque,
    InvalidInstant,
    ProgramMismatch,
    SnapshotSchemaMismatch,
    SnapshotHashMismatch,
    SecretPersistenceRejected,
    Budget(String),
    Authority(String),
    MissingCapability,
    Capability(String),
    Serialization(String),
}

/// The content of a machine failure.
pub enum Failure {
    UnknownAgent,
    UnknownEvent,
    UnknownRoutine,
    MissingHandlerParameter,
    MissingInput(Seq<char>),
    UnknownStateField,
    TypeMismatch(Seq<char>),
    UnknownValue,
    MissingFrame,
    InvalidIp,
    MissingReturnTarget,
    UnsupportedInstruction,
    NonExhaustiveMatch,
    UnsupportedPureExpression,
    EffectInPureRoutine,
    PropagatedError(Seq<char>),
    NoPendingEffect,
    ResolutionMismatch,
    UnexpectedUsageDimension,
    UsageAlreadyReserved,
    UnknownTool,
    UnknownPrompt,
    UnknownValidator,
    UnknownPolicy,
    NonTotalPolicy,
    RequirementFailed,
    MissingIdempotency,
    ApprovalNotRepresentable,
    AuthorityValueOpaque,
    InvalidInstant,
    ProgramMismatch,
    SnapshotSchemaMismatch,
    SnapshotHashMismatch,
    SecretPersistenceRejected,
    Budget(Seq<char>),
    Authority(Seq<char>),
    MissingCapability,
    Capability(Seq<char>),
    Serialization(Seq<char>),
}

/// The content of a machine error.
pub open spec fn failure(error: MachineError) -> Failure {
    match error {
        MachineError::UnknownAgent => Failure::UnknownAgent,
        MachineError::UnknownEvent => Failure::UnknownEvent,
        MachineError::UnknownRoutine => Failure::UnknownRoutine,
        MachineError::MissingHandlerParameter => Failure::MissingHandlerParameter,
        MachineError::MissingInput(s) => Failure::MissingInput(s@),
        MachineError::UnknownStateField => Failure::UnknownStateField,
        MachineError::TypeMismatch(s) => Failure::TypeMismatch(s@),
        MachineError::UnknownValue => Failure::UnknownValue,
        MachineError::MissingFrame => Failure::MissingFrame,
        MachineError::InvalidIp => Failure::InvalidIp,
        MachineError::MissingReturnTarget => Failure::MissingReturnTarget,
        MachineError::UnsupportedInstruction => Failure::UnsupportedInstruction,
        MachineError::NonExhaustiveMatch => Failure::NonExhaustiveMatch,
        MachineError::UnsupportedPureExpression => Failure::UnsupportedPureExpression,
        MachineError::EffectInPureRoutine => Failure::EffectInPureRoutine,
        MachineError::PropagatedError(s) => Failure::PropagatedError(s@),
        MachineError::NoPendingEffect => Failure::NoPendingEffect,
        MachineError::ResolutionMismatch => Failure::ResolutionMismatch,
        MachineError::UnexpectedUsageDimension => Failure::UnexpectedUsageDimension,
        MachineError::UsageAlreadyReserved => Failure::UsageAlreadyReserved,
        MachineError::UnknownTool => Failure::UnknownTool,
        MachineError::UnknownPrompt => Failure::UnknownPrompt,
        MachineError::UnknownValidator => Failure::UnknownValidator,
        MachineError::UnknownPolicy => Failure::UnknownPolicy,
        MachineError::NonTotalPolicy => Failure::NonTotalPolicy,
        MachineError::RequirementFailed => Failure::RequirementFailed,
        MachineError::MissingIdempotency => Failure::MissingIdempotency,
        MachineError::ApprovalNotRepresentable => Failure::ApprovalNotRepresentable,
        MachineError::AuthorityValueOpaque => Failure::AuthorityValueOpaque,
        MachineError::InvalidInstant => Failure::InvalidInstant,
        MachineError::ProgramMismatch => Failure::ProgramMismatch,
        MachineError::SnapshotSchemaMismatch => Failure::SnapshotSchemaMismatch,
        MachineError::SnapshotHashMismatch => Failure::SnapshotHashMismatch,
        MachineError::SecretPersistenceRejected => Failure::SecretPersistenceRejected,
        MachineError::Budget(s) => Failure::Budget(s@),
        MachineError::Authority(s) => Failure::Authority(s@),
        MachineError::MissingCapability => Failure::MissingCapability,
        MachineError::Capability(s) => Failure::Capability(s@),
        MachineError::Serialization(s) => Failure::Serialization(s@),
    }
}

impl MachineError {
    /// A copy of this error.
    pub fn duplicate(&self) -> (copy: MachineError)
        ensures
            failure(copy) == failure(*self),
    {
        match self {
            MachineError::UnknownAgent => MachineError::UnknownAgent,
            MachineError::UnknownEvent => MachineError::UnknownEvent,
            MachineError::UnknownRoutine => MachineError::UnknownRoutine,
            MachineError::MissingHandlerParameter => MachineError::MissingHandlerParameter,
            MachineError::MissingInput(s) => MachineError::MissingInput(s.clone()),
            MachineError::UnknownStateField => MachineError::UnknownStateField,
            MachineError::TypeMismatch(s) => MachineError::TypeMismatch(s.clone()),
            MachineError::UnknownValue => MachineError::UnknownValue,
            MachineError::MissingFrame => MachineError::MissingFrame,
            MachineError::InvalidIp => MachineError::InvalidIp,
            MachineError::MissingReturnTarget => MachineError::MissingReturnTarget,
            MachineError::UnsupportedInstruction => MachineError::UnsupportedInstruction,
            MachineError::NonExhaustiveMatch => MachineError::NonExhaustiveMatch,
            MachineError::UnsupportedPureExpression => MachineError::UnsupportedPureExpression,
            MachineError::EffectInPureRoutine => MachineError::EffectInPureRoutine,
            MachineError::PropagatedError(s) => MachineError::PropagatedError(s.clone()),
            MachineError::NoPendingEffect => MachineError::NoPendingEffect,
            MachineError::ResolutionMismatch => MachineError::ResolutionMismatch,
            MachineError::UnexpectedUsageDimension => MachineError::UnexpectedUsageDimension,
            MachineError::UsageAlreadyReserved => MachineError::UsageAlreadyReserved,
            MachineError::UnknownTool => MachineError::UnknownTool,
            MachineError::UnknownPrompt => MachineError::UnknownPrompt,
            MachineError::UnknownValidator => MachineError::UnknownValidator,
            MachineError::UnknownPolicy => MachineError::UnknownPolicy,
            MachineError::NonTotalPolicy => MachineError::NonTotalPolicy,
            MachineError::RequirementFailed => MachineError::RequirementFailed,
            MachineError::MissingIdempotency => MachineError::MissingIdempotency,
            MachineError::ApprovalNotRepresentable => MachineError::ApprovalNotRepresentable,
            MachineError::AuthorityValueOpaque => MachineError::AuthorityValueOpaque,
            MachineError::InvalidInstant => MachineError::InvalidInstant,
            MachineError::ProgramMismatch => MachineError::ProgramMismatch,
            MachineError::SnapshotSchemaMismatch => MachineError::SnapshotSchemaMismatch,
            MachineError::SnapshotHashMismatch => MachineError::SnapshotHashMismatch,
            MachineError::SecretPersistenceRejected => MachineError::SecretPersistenceRejected,
            MachineError::Budget(s) => MachineError::Budget(s.clone()),
            MachineError::Authority(s) => MachineError::Authority(s.clone()),
            MachineError::MissingCapability => MachineError::MissingCapability,
            MachineError::Capability(s) => MachineError::Capability(s.clone()),
            MachineError::Serialization(s) => MachineError::Serialization(s.clone()),
        }
    }
}

/// The human-readable message of a failure.
pub open spec fn failure_message(f: Failure) -> Seq<char> {
    match f {
        Failure::UnknownAgent => "unknown agent"@,
        Failure::UnknownEvent => "unknown event"@,
        Failure::UnknownRoutine => "unknown routine"@,
        Failure::MissingHandlerParameter => "missing handler parameter"@,
        Failure::MissingInput(s) => "missing input `"@ + s + "`"@,
        Failure::UnknownStateField => "initial state contains an unknown field"@,
        Failure::TypeMismatch(s) => "type mismatch: "@ + s,
        Failure::UnknownValue => "unknown runtime value"@,
        Failure::MissingFrame => "missing machine frame"@,
        Failure::InvalidIp => "invalid instruction pointer"@,
        Failure::MissingReturnTarget => "missing routine return target"@,
        Failure::UnsupportedInstruction => "unsupported instruction"@,
        Failure::NonExhaustiveMatch => "non-exhaustive runtime match"@,
        Failure::UnsupportedPureExpression => "unsupported pure expression"@,
        Failure::EffectInPureRoutine => "effect found while evaluating a pure routine"@,
        Failure::PropagatedError(s) => "propagated error: "@ + s,
        Failure::NoPendingEffect => "no pending effect"@,
        Failure::ResolutionMismatch => "effect resolution does not match pending request"@,
        Failure::UnexpectedUsageDimension => "unexpected effect usage dimension"@,
        Failure::UsageAlreadyReserved => "effect usage was already reserved"@,
        Failure::UnknownTool => "unknown tool"@,
        Failure::UnknownPrompt => "unknown prompt"@,
        Failure::UnknownValidator => "unknown validator"@,
        Failure::UnknownPolicy => "unknown policy"@,
        Failure::NonTotalPolicy => "policy was not total"@,
        Failure::RequirementFailed => "runtime requirement failed"@,
        Failure::MissingIdempotency => "write tool is missing idempotency metadata"@,
        Failure::ApprovalNotRepresentable => "approval suspension is not representable"@,
        Failure::AuthorityValueOpaque => "authority value is opaque"@,
        Failure::InvalidInstant => "invalid normalized instant"@,
        Failure::ProgramMismatch => "snapshot program mismatch"@,
        Failure::SnapshotSchemaMismatch => "snapshot schema mismatch"@,
        Failure::SnapshotHashMismatch => "snapshot hash mismatch"@,
        Failure::SecretPersistenceRejected => "secret persistence rejected"@,
        Failure::Budget(s) => "budget failure: "@ + s,
        Failure::Authority(s) => "authority failure: "@ + s,
        Failure::MissingCapability => "required capability grant is missing or out of scope"@,
        Failure::Capability(s) => "capability failure: "@ + s,
        Failure::Serialization(s) => "serialization failure: "@ + s,
    }
}

impl MachineError {
    /// The human-readable message of this failure.
    pub fn message(&self) -> (text: String)
        ensures
            text@ == failure_message(failure(*self)),
    {
        let (head, detail, tail): (&str, Option<&String>, &str) = match self {
            MachineError::UnknownAgent => ("unknown agent", None, ""),
            MachineError::UnknownEvent => ("unknown event", None, ""),
            MachineError::UnknownRoutine => ("unknown routine", None, ""),
            MachineError::MissingHandlerParameter => ("missing handler parameter", None, ""),
            MachineError::MissingInput(s) => ("missing input `", Some(s), "`"),
            MachineError::UnknownStateField => ("initial state contains an unknown field", None, ""),
            MachineError::TypeMismatch(s) => ("type mismatch: ", Some(s), ""),
            MachineError::UnknownValue => ("unknown runtime value", None, ""),
            MachineError::MissingFrame => ("missing machine frame", None, ""),
            MachineError::InvalidIp => ("invalid instruction pointer", None, ""),
            MachineError::MissingReturnTarget => ("missing routine return target", None, ""),
            MachineError::UnsupportedInstruction => ("unsupported instruction", None, ""),
            MachineError::NonExhaustiveMatch => ("non-exhaustive runtime match", None, ""),
            MachineError::UnsupportedPureExpression => ("unsupported pure expression", None, ""),
            MachineError::EffectInPureRoutine => (
                "effect found while evaluating a pure routine",
                None,
                "",
            ),
            MachineError::PropagatedError(s) => ("propagated error: ", Some(s), ""),
            MachineError::NoPendingEffect => ("no pending effect", None, ""),
            MachineError::ResolutionMismatch => (
                "effect resolution does not match pending request",
                None,
                "",
            ),
            MachineError::UnexpectedUsageDimension => ("unexpected effect usage dimension", None, ""),
            MachineError::UsageAlreadyReserved => ("effect usage was already reserved", None, ""),
            MachineError::UnknownTool => ("unknown tool", None, ""),
            MachineError::UnknownPrompt => ("unknown prompt", None, ""),
            MachineError::UnknownValidator => ("unknown validator", None, ""),
            MachineError::UnknownPolicy => ("unknown policy", None, ""),
            MachineError::NonTotalPolicy => ("policy was not total", None, ""),
            MachineError::RequirementFailed => ("runtime requirement failed", None, ""),
            MachineError::MissingIdempotency => (
                "write tool is missing idempotency metadata",
                None,
                "",
            ),
            MachineError::ApprovalNotRepresentable => (
                "approval suspension is not representable",
                None,
                "",
            ),
            MachineError::AuthorityValueOpaque => ("authority value is opaque", None, ""),
            MachineError::InvalidInstant => ("invalid normalized instant", None, ""),
            MachineError::ProgramMismatch => ("snapshot program mismatch", None, ""),
            MachineError::SnapshotSchemaMismatch => ("snapshot schema mismatch", None, ""),
            MachineError::SnapshotHashMismatch => ("snapshot hash mismatch", None, ""),
            MachineError::SecretPersistenceRejected => ("secret persistence rejected", None, ""),
            MachineError::Budget(s) => ("budget failure: ", Some(s), ""),
            MachineError::Authority(s) => ("authority failure: ", Some(s), ""),
            MachineError::MissingCapability => (
                "required capability grant is missing or out of scope",
                None,
                "",
            ),
            MachineError::Capability(s) => ("capability failure: ", Some(s), ""),
            MachineError::Serialization(s) => ("serialization failure: ", Some(s), ""),
        };
        let mut text = String::new();
        push_str(&mut text, head);
        match detail {
            Some(d) => push_str(&mut text, d.as_str()),
            None => {},
        }
        push_str(&mut text, tail);
        proof {
            reveal_strlit("");
            assert(text@ =~= failure_message(failure(*self)));
        }
        text
    }
}

/// The content of an evaluation outcome.
pub open spec fn outcome(result: Result<RuntimeValue, MachineError>) -> Result<ValueModel, Failure> {
    match result {
        Ok(v) => Ok(v@),
        Err(e) => Err(failure(e)),
    }
}

/// A type mismatch failure described by `what`.
pub open spec fn mismatch(what: Seq<char>) -> Failure {
    Failure::TypeMismatch(what)
}

fn type_mismatch(what: &str) -> (error: MachineError)
    ensures
        failure(error) == mismatch(what@),
{
    MachineError::TypeMismatch(what.to_owned())
}

/// External effect categories exposed by the machine boundary.
#[derive(Clone, Copy, Debug, PartialEq, Eq, Structural, PartialOrd, Ord)]
pub enum EffectKind {
    Model,
    Read,
    Approval,
    Write,
}

/// The serialized spelling of an effect kind.
pub open spec fn effect_kind_name(kind: EffectKind) -> Seq<char> {
    match kind {
        EffectKind::Model => "model"@,
        EffectKind::Read => "read"@,
        EffectKind::Approval => "approval"@,
        EffectKind::Write => "write"@,
    }
}

impl EffectKind {
    /// The serialized spelling of this kind.
    pub fn name(&self) -> (name: &'static str)
        ensures
            name@ == effect_kind_name(*self),
    {
        match self {
            EffectKind::Model => "model",
            EffectKind::Read => "read",
            EffectKind::Approval => "approval",
            EffectKind::Write => "write",
        }
    }
}

/// The budget dimension a per-event limit name governs.
pub open spec fn dimension_named(name: Seq<char>) -> Option<BudgetDimension> {
    if name == "model_calls"@ {
        Some(BudgetDimension::ModelCalls)
    } else if name == "model_tokens"@ {
        Some(BudgetDimension::ModelTokens)
    } else if name == "external_reads"@ {
        Some(BudgetDimension::ExternalReads)
    } else if name == "external_writes"@ {
        Some(BudgetDimension::ExternalWrites)
    } else if name == "approvals"@ {
        Some(BudgetDimension::Approvals)
    } else if name == "money_microunits"@ {
        Some(BudgetDimension::MoneyMicrounits)
    } else {
        None
    }
}

/// Returns the budget dimension named by a limit, if any.
pub fn budget_dimension(name: &str) -> (dimension: Option<BudgetDimension>)
    ensures
        dimension == dimension_named(name@),
{
    if str_equal(name, "model_calls") {
        Some(BudgetDimension::ModelCalls)
    } else if str_equal(name, "model_tokens") {
        Some(BudgetDimension::ModelTokens)
    } else if str_equal(name, "external_reads") {
        Some(BudgetDimension::ExternalReads)
    } else if str_equal(name, "external_writes") {
        Some(BudgetDimension::ExternalWrites)
    } else if str_equal(name, "approvals") {
        Some(BudgetDimension::Approvals)
    } else if str_equal(name, "money_microunits") {
        Some(BudgetDimension::MoneyMicrounits)
    } else {
        None
    }
}

/// The dimensions whose usage a driver reports after the fact.
pub open spec fn usage_dimension_named(name: Seq<char>) -> Option<BudgetDimension> {
    if name == "model_tokens"@ {
        Some(BudgetDimension::ModelTokens)
    } else if name == "money_microunits"@ {
        Some(BudgetDimension::MoneyMicrounits)
    } else {
        None
    }
}

/// Returns the variable-usage dimension named `name`, if any.
pub fn variable_usage_dimension(name: &str) -> (dimension: Option<BudgetDimension>)
    ensures
        dimension == usage_dimension_named(name@),
{
    if str_equal(name, "model_tokens") {
        Some(BudgetDimension::ModelTokens)
    } else if str_equal(name, "money_microunits") {
        Some(BudgetDimension::MoneyMicrounits)
    } else {
        None
    }
}

/// Files `value` under `key` in record members, as a `BTreeMap` files it.
pub fn record_insert(members: &mut Vec<(String, RuntimeValue)>, key: String, value: RuntimeValue)
    ensures
        record_view(final(members)@) == model_insert(record_view(old(members)@), key@, value@),
{
    let ghost before = record_view(members@);
    proof {
        lemma_record_view(members@);
    }
    let mut i: usize = 0;
    while i < members.len() && str_less(members[i].0.as_str(), key.as_str())
        invariant
            i <= members@.len(),
            members@ == old(members)@,
            before == record_view(members@),
            before.len() == members@.len(),
            forall|k: int|
                0 <= k < members@.len() ==> #[trigger] before[k] == (
                    members@[k].0@,
                    value_view(members@[k].1),
                ),
            forall|j: int| 0 <= j < i ==> key_less(#[trigger] before[j].0, key@),
        decreases members@.len() - i,
    {
        i = i + 1;
    }
    proof {
        lemma_model_insert_at(before, key@, value@, i as int);
    }
    if i < members.len() && str_equal(members[i].0.as_str(), key.as_str()) {
        members.set(i, (key, value));
        proof {
            lemma_record_view(members@);
            assert(record_view(members@) =~= before.update(i as int, (key@, value@)));
        }
    } else {
        members.insert(i, (key, value));
        proof {
            lemma_record_view(members@);
            assert(record_view(members@) =~= before.insert(i as int, (key@, value@)));
        }
    }
}

/// The member of a record filed under `key`, if any.
pub fn record_get<'a>(members: &'a Vec<(String, RuntimeValue)>, key: &str) -> (value: Option<
    &'a RuntimeValue,
>)
    ensures
        match value {
            Some(v) => model_lookup(record_view(members@), key@) == Some(v@),
            None => model_lookup(record_view(members@), key@) is None,
        },
{
    proof {
        lemma_record_view(members@);
        assert(record_view(members@).skip(0) =~= record_view(members@));
    }
    let mut i: usize = 0;
    while i < members.len()
        invariant
            i <= members@.len(),
            record_view(members@).len() == members@.len(),
            forall|k: int|
                0 <= k < members@.len() ==> #[trigger] record_view(members@)[k] == (
                    members@[k].0@,
                    value_view(members@[k].1),
                ),
            model_lookup(record_view(members@), key@) == model_lookup(
                record_view(members@).skip(i as int),
                key@,
            ),
        decreases members@.len() - i,
    {
        let ghost rest = record_view(members@).skip(i as int);
        proof {
            assert(rest[0] == record_view(members@)[i as int]);
            assert(rest.drop_first() =~= record_view(members@).skip(i + 1));
        }
        if str_equal(members[i].0.as_str(), key) {
            return Some(&members[i].1);
        }
        i = i + 1;
    }
    proof {
        assert(record_view(members@).skip(i as int) =~= Seq::<(Seq<char>, ValueModel)>::empty());
    }
    None
}

/// The result of a unary operator on a value.
pub open spec fn unary_value(operator: Seq<char>, operand: ValueModel) -> Result<ValueModel, Failure> {
    match operand {
        ValueModel::Bool(b) => if operator == "not"@ {
            Ok(ValueModel::Bool(!b))
        } else {
            Err(mismatch("unary operand"@))
        },
        ValueModel::Int(n) => if operator == "negate"@ {
            if n == i64::MIN {
                Err(mismatch("integer overflow"@))
            } else {
                Ok(ValueModel::Int((-n) as i64))
            }
        } else {
            Err(mismatch("unary operand"@))
        },
        _ => Err(mismatch("unary operand"@)),
    }
}

/// Applies a unary operator: `not` on booleans, `negate` on integers.
pub fn eval_unary(operator: &str, operand: RuntimeValue) -> (result: Result<RuntimeValue, MachineError>)
    ensures
        outcome(result) == unary_value(operator@, operand@),
{
    match operand {
        RuntimeValue::Bool(b) => {
            if str_equal(operator, "not") {
                Ok(RuntimeValue::Bool(!b))
            } else {
                Err(type_mismatch("unary operand"))
            }
        },
        RuntimeValue::Int(n) => {
            if str_equal(operator, "negate") {
                if n == i64::MIN {
                    Err(type_mismatch("integer overflow"))
                } else {
                    Ok(RuntimeValue::Int(-n))
                }
            } else {
                Err(type_mismatch("unary operand"))
            }
        },
        _ => Err(type_mismatch("unary operand")),
    }
}

/// The result of an integer operator: checked arithmetic, truncating
/// division and comparisons.
pub open spec fn integer_value(operator: Seq<char>, left: ValueModel, right: ValueModel) -> Result<
    ValueModel,
    Failure,
> {
    match (left, right) {
        (ValueModel::Int(a), ValueModel::Int(b)) => {
            let checked = if operator == "add"@ {
                Some(a.checked_add(b))
            } else if operator == "subtract"@ {
                Some(a.checked_sub(b))
            } else if operator == "multiply"@ {
                Some(a.checked_mul(b))
            } else if operator == "divide"@ {
                Some(a.checked_div(b))
            } else {
                None
            };
            match checked {
                Some(Some(c)) => Ok(ValueModel::Int(c)),
                Some(None) => Err(mismatch("integer arithmetic"@)),
                None => if operator == "less"@ {
                    Ok(ValueModel::Bool(a < b))
                } else if operator == "less_equal"@ {
                    Ok(ValueModel::Bool(a <= b))
                } else if operator == "greater"@ {
                    Ok(ValueModel::Bool(a > b))
                } else if operator == "greater_equal"@ {
                    Ok(ValueModel::Bool(a >= b))
                } else {
                    Err(Failure::UnsupportedPureExpression)
                },
            }
        },
        _ => Err(mismatch("integer operands"@)),
    }
}

/// Applies an integer operator.
pub fn eval_integer_binary(operator: &str, left: RuntimeValue, right: RuntimeValue) -> (result: Result<
    RuntimeValue,
    MachineError,
>)
    ensures
        outcome(result) == integer_value(operator@, left@, right@),
{
    let (a, b) = match (left, right) {
        (RuntimeValue::Int(a), RuntimeValue::Int(b)) => (a, b),
        _ => {
            return Err(type_mismatch("integer operands"));
        },
    };
    let checked = if str_equal(operator, "add") {
        a.checked_add(b)
    } else if str_equal(operator, "subtract") {
        a.checked_sub(b)
    } else if str_equal(operator, "multiply") {
        a.checked_mul(b)
    } else if str_equal(operator, "divide") {
        a.checked_div(b)
    } else if str_equal(operator, "less") {
        return Ok(RuntimeValue::Bool(a < b));
    } else if str_equal(operator, "less_equal") {
        return Ok(RuntimeValue::Bool(a <= b));
    } else if str_equal(operator, "greater") {
        return Ok(RuntimeValue::Bool(a > b));
    } else if str_equal(operator, "greater_equal") {
        return Ok(RuntimeValue::Bool(a >= b));
    } else {
        return Err(MachineError::UnsupportedPureExpression);
    };
    match checked {
        Some(c) => Ok(RuntimeValue::Int(c)),
        None => Err(type_mismatch("integer arithmetic")),
    }
}

/// The result of a binary operator: structural equality on any values,
/// conjunction and disjunction on booleans, else an integer operator.
pub open spec fn binary_value(operator: Seq<char>, left: ValueModel, right: ValueModel) -> Result<
    ValueModel,
    Failure,
> {
    if operator == "equal"@ {
        Ok(ValueModel::Bool(left == right))
    } else if operator == "not_equal"@ {
        Ok(ValueModel::Bool(left != right))
    } else if operator == "and"@ || operator == "or"@ {
        match (left, right) {
            (ValueModel::Bool(a), ValueModel::Bool(b)) => Ok(
                ValueModel::Bool(
                    if operator == "and"@ {
                        a && b
                    } else {
                        a || b
                    },
                ),
            ),
            _ => Err(mismatch("boolean operands"@)),
        }
    } else {
        integer_value(operator, left, right)
    }
}

/// Applies a binary operator.
pub fn eval_binary(operator: &str, left: RuntimeValue, right: RuntimeValue) -> (result: Result<
    RuntimeValue,
    MachineError,
>)
    ensures
        outcome(result) == binary_value(operator@, left@, right@),
{
    if str_equal(operator, "equal") {
        Ok(RuntimeValue::Bool(values_equal(&left, &right)))
    } else if str_equal(operator, "not_equal") {
        Ok(RuntimeValue::Bool(!values_equal(&left, &right)))
    } else if str_equal(operator, "and") || str_equal(operator, "or") {
        match (left, right) {
            (RuntimeValue::Bool(a), RuntimeValue::Bool(b)) => Ok(
                RuntimeValue::Bool(
                    if str_equal(operator, "and") {
                        a && b
                    } else {
                        a || b
                    },
                ),
            ),
            _ => Err(type_mismatch("boolean operands")),
        }
    } else {
        eval_integer_binary(operator, left, right)
    }
}

/// Integer operators compute on the left operand and then the right one, in
/// that order: sums, differences and products that fit in 64 bits are
/// returned exactly and those that do not fail; division of naturals is the
/// floor quotient and division by zero fails; comparisons ask whether the
/// left operand is below, at most, above or at least the right one.
pub proof fn law_integer_operators(a: i64, b: i64)
    ensures
        i64::MIN <= a + b <= i64::MAX ==> binary_value("add"@, RuntimeValue::Int(a)@, RuntimeValue::Int(b)@)
            == Ok::<ValueModel, Failure>(ValueModel::Int((a + b) as i64)),
        !(i64::MIN <= a + b <= i64::MAX) ==> binary_value("add"@, RuntimeValue::Int(a)@, RuntimeValue::Int(b)@) is Err,
        i64::MIN <= a - b <= i64::MAX ==> binary_value("subtract"@, RuntimeValue::Int(a)@, RuntimeValue::Int(b)@)
            == Ok::<ValueModel, Failure>(ValueModel::Int((a - b) as i64)),
        !(i64::MIN <= a - b <= i64::MAX) ==> binary_value("subtract"@, RuntimeValue::Int(a)@, RuntimeValue::Int(b)@) is Err,
        i64::MIN <= a * b <= i64::MAX ==> binary_value("multiply"@, RuntimeValue::Int(a)@, RuntimeValue::Int(b)@)
            == Ok::<ValueModel, Failure>(ValueModel::Int((a * b) as i64)),
        !(i64::MIN <= a * b <= i64::MAX) ==> binary_value("multiply"@, RuntimeValue::Int(a)@, RuntimeValue::Int(b)@) is Err,
        0 <= a && 0 < b ==> binary_value("divide"@, RuntimeValue::Int(a)@, RuntimeValue::Int(b)@)
            == Ok::<ValueModel, Failure>(ValueModel::Int((a / b) as i64)),
        b == 0 ==> binary_value("divide"@, RuntimeValue::Int(a)@, RuntimeValue::Int(b)@) is Err,
        binary_value("less"@, RuntimeValue::Int(a)@, RuntimeValue::Int(b)@) == Ok::<ValueModel, Failure>(
            ValueModel::Bool(a < b),
        ),
        binary_value("less_equal"@, RuntimeValue::Int(a)@, RuntimeValue::Int(b)@) == Ok::<ValueModel, Failure>(
            ValueModel::Bool(a <= b),
        ),
        binary_value("greater"@, RuntimeValue::Int(a)@, RuntimeValue::Int(b)@) == Ok::<ValueModel, Failure>(
            ValueModel::Bool(a > b),
        ),
        binary_value("greater_equal"@, RuntimeValue::Int(a)@, RuntimeValue::Int(b)@) == Ok::<ValueModel, Failure>(
            ValueModel::Bool(a >= b),
        ),
{
    reveal_strlit("equal");
    reveal_strlit("not_equal");
    reveal_strlit("and");
    reveal_strlit("or");
    reveal_strlit("add");
    reveal_strlit("subtract");
    reveal_strlit("multiply");
    reveal_strlit("divide");
    reveal_strlit("less");
    reveal_strlit("less_equal");
    reveal_strlit("greater");
    reveal_strlit("greater_equal");
    assert(RuntimeValue::Int(a)@ == ValueModel::Int(a));
    assert(RuntimeValue::Int(b)@ == ValueModel::Int(b));
    assert("equal"@.len() == 5 && "not_equal"@.len() == 9 && "and"@.len() == 3 && "or"@.len() == 2);
    assert("add"@.len() == 3 && "subtract"@.len() == 8 && "multiply"@.len() == 8 && "divide"@.len() == 6);
    assert("less"@.len() == 4 && "less_equal"@.len() == 10 && "greater"@.len() == 7);
    assert("greater_equal"@.len() == 13);
    assert("add"@[1] == 'd' && "and"@[1] == 'n');
    assert("subtract"@[0] == 's' && "multiply"@[0] == 'm');
    if 0 <= a && 0 < b {
        assert(a / b <= a) by (nonlinear_arith)
            requires
                0 <= a,
                0 < b,
        ;
    }
}

/// Conjunction and disjunction compute on booleans, and equality and
/// inequality compare any two values structurally.
pub proof fn law_logical_and_equality_operators(a: bool, b: bool, x: RuntimeValue, y: RuntimeValue)
    ensures
        binary_value("and"@, RuntimeValue::Bool(a)@, RuntimeValue::Bool(b)@) == Ok::<ValueModel, Failure>(
            ValueModel::Bool(a && b),
        ),
        binary_value("or"@, RuntimeValue::Bool(a)@, RuntimeValue::Bool(b)@) == Ok::<ValueModel, Failure>(
            ValueModel::Bool(a || b),
        ),
        binary_value("equal"@, x@, y@) == Ok::<ValueModel, Failure>(ValueModel::Bool(x@ == y@)),
        binary_value("not_equal"@, x@, y@) == Ok::<ValueModel, Failure>(ValueModel::Bool(x@ != y@)),
{
    reveal_strlit("equal");
    reveal_strlit("not_equal");
    reveal_strlit("and");
    reveal_strlit("or");
    assert(RuntimeValue::Bool(a)@ == ValueModel::Bool(a));
    assert(RuntimeValue::Bool(b)@ == ValueModel::Bool(b));
    assert("equal"@.len() == 5 && "not_equal"@.len() == 9 && "and"@.len() == 3 && "or"@.len() == 2);
}

/// Negation flips the sign of an integer other than the least one, and
/// `not` flips a boolean.
pub proof fn law_unary_operators(n: i64, b: bool)
    ensures
        n != i64::MIN ==> unary_value("negate"@, RuntimeValue::Int(n)@) == Ok::<ValueModel, Failure>(
            ValueModel::Int((-n) as i64),
        ),
        unary_value("not"@, RuntimeValue::Bool(b)@) == Ok::<ValueModel, Failure>(ValueModel::Bool(!b)),
{
    reveal_strlit("negate");
    reveal_strlit("not");
    assert(RuntimeValue::Int(n)@ == ValueModel::Int(n));
    assert(RuntimeValue::Bool(b)@ == ValueModel::Bool(b));
    assert("negate"@.len() == 6 && "not"@.len() == 3);
}

/// Evaluating the operator name that lowering gives a source operator
/// performs that operator: `a - b` subtracts `b` from `a`, `a < b` asks
/// whether `a` is below `b`, and so on, on integer operands.
pub proof fn law_lowered_operators_evaluate(a: i64, b: i64)
    ensures
        i64::MIN <= a + b <= i64::MAX ==> binary_value(
            crate::lowering::binary_text(crate::ast::BinaryOperator::Add),
            RuntimeValue::Int(a)@,
            RuntimeValue::Int(b)@,
        ) == Ok::<ValueModel, Failure>(ValueModel::Int((a + b) as i64)),
        i64::MIN <= a - b <= i64::MAX ==> binary_value(
            crate::lowering::binary_text(crate::ast::BinaryOperator::Subtract),
            RuntimeValue::Int(a)@,
            RuntimeValue::Int(b)@,
        ) == Ok::<ValueModel, Failure>(ValueModel::Int((a - b) as i64)),
        i64::MIN <= a * b <= i64::MAX ==> binary_value(
            crate::lowering::binary_text(crate::ast::BinaryOperator::Multiply),
            RuntimeValue::Int(a)@,
            RuntimeValue::Int(b)@,
        ) == Ok::<ValueModel, Failure>(ValueModel::Int((a * b) as i64)),
        binary_value(
            crate::lowering::binary_text(crate::ast::BinaryOperator::Less),
            RuntimeValue::Int(a)@,
            RuntimeValue::Int(b)@,
        ) == Ok::<ValueModel, Failure>(ValueModel::Bool(a < b)),
        binary_value(
            crate::lowering::binary_text(crate::ast::BinaryOperator::LessEqual),
            RuntimeValue::Int(a)@,
            RuntimeValue::Int(b)@,
        ) == Ok::<ValueModel, Failure>(ValueModel::Bool(a <= b)),
        binary_value(
            crate::lowering::binary_text(crate::ast::BinaryOperator::Greater),
            RuntimeValue::Int(a)@,
            RuntimeValue::Int(b)@,
        ) == Ok::<ValueModel, Failure>(ValueModel::Bool(a > b)),
        binary_value(
            crate::lowering::binary_text(crate::ast::BinaryOperator::GreaterEqual),
            RuntimeValue::Int(a)@,
            RuntimeValue::Int(b)@,
        ) == Ok::<ValueModel, Failure>(ValueModel::Bool(a >= b)),
{
    law_integer_operators(a, b);
}

/// Subtraction is anti-symmetric: exchanging the operands negates the
/// difference, so the order of the operands decides the result.
pub proof fn law_subtract_order(a: i64, b: i64)
    requires
        i64::MIN < a - b <= i64::MAX,
        i64::MIN < b - a <= i64::MAX,
    ensures
        binary_value("subtract"@, RuntimeValue::Int(a)@, RuntimeValue::Int(b)@) matches Ok(ValueModel::Int(x))
            && binary_value("subtract"@, RuntimeValue::Int(b)@, RuntimeValue::Int(a)@) matches Ok(ValueModel::Int(y))
            && x == -y,
{
    law_integer_operators(a, b);
    law_integer_operators(b, a);
}

/// The runtime value of a JSON document: null as an absent option,
/// 64-bit integers, texts, lists, and objects as records.
pub open spec fn json_to_value(document: JsonModel) -> Result<ValueModel, Failure>
    decreases document, 1nat,
{
    match document {
        JsonModel::Null => Ok(ValueModel::Optional(None)),
        JsonModel::Bool(b) => Ok(ValueModel::Bool(b)),
        JsonModel::Int(n) => Ok(ValueModel::Int(n)),
        JsonModel::OtherNumber(_) => Err(mismatch("integer"@)),
        JsonModel::Text(t) => Ok(ValueModel::Text(t)),
        JsonModel::Array(items) => match json_list_values(items) {
            Ok(values) => Ok(ValueModel::List(values)),
            Err(e) => Err(e),
        },
        JsonModel::Object(members) => match json_record_values(members) {
            Ok(values) => Ok(ValueModel::Record(values)),
            Err(e) => Err(e),
        },
    }
}

/// Runtime values of documents in order; the first failure stops.
pub open spec fn json_list_values(items: Seq<JsonModel>) -> Result<Seq<ValueModel>, Failure>
    decreases items, 0nat,
{
    if items.len() == 0 {
        Ok(Seq::empty())
    } else {
        match json_list_values(items.drop_last()) {
            Ok(values) => match json_to_value(items.last()) {
                Ok(v) => Ok(values.push(v)),
                Err(e) => Err(e),
            },
            Err(e) => Err(e),
        }
    }
}

/// Runtime values of members collected into a record in key order; the
/// first failure stops.
pub open spec fn json_record_values(members: Seq<(Seq<char>, JsonModel)>) -> Result<
    Seq<(Seq<char>, ValueModel)>,
    Failure,
>
    decreases members, 0nat,
{
    if members.len() == 0 {
        Ok(Seq::empty())
    } else {
        match json_record_values(members.drop_last()) {
            Ok(values) => match json_to_value(members.last().1) {
                Ok(v) => Ok(model_insert(values, members.last().0, v)),
                Err(e) => Err(e),
            },
            Err(e) => Err(e),
        }
    }
}

/// Converts a JSON document to a runtime value.
pub fn json_to_runtime(document: &JsonValue) -> (result: Result<RuntimeValue, MachineError>)
    ensures
        outcome(result) == json_to_value(document@),
    decreases document, 1nat,
{
    match document {
        JsonValue::Null => Ok(RuntimeValue::Option(None)),
        JsonValue::Bool(b) => Ok(RuntimeValue::Bool(*b)),
        JsonValue::Int(n) => Ok(RuntimeValue::Int(*n)),
        JsonValue::OtherNumber(_) => Err(type_mismatch("integer")),
        JsonValue::String(t) => Ok(RuntimeValue::Text(t.clone())),
        JsonValue::Array(items) => match json_list(items) {
            Ok(values) => Ok(RuntimeValue::List(values)),
            Err(e) => Err(e),
        },
        JsonValue::Object(members) => match json_record(members) {
            Ok(values) => Ok(RuntimeValue::Record(values)),
            Err(e) => Err(e),
        },
    }
}

/// Converts documents in order.
pub fn json_list(items: &Vec<JsonValue>) -> (result: Result<Vec<RuntimeValue>, MachineError>)
    ensures
        match result {
            Ok(values) => json_list_values(items_view(items@)) == Ok::<Seq<ValueModel>, Failure>(
                list_view(values@),
            ),
            Err(e) => json_list_values(items_view(items@)) == Err::<Seq<ValueModel>, Failure>(
                failure(e),
            ),
        },
    decreases items@, 0nat,
{
    let mut values: Vec<RuntimeValue> = Vec::new();
    let mut i: usize = 0;
    proof {
        assert(items@.take(0) =~= Seq::<JsonValue>::empty());
        assert(items_view(items@.take(0)) =~= Seq::<JsonModel>::empty());
        assert(list_view(values@) =~= Seq::<ValueModel>::empty());
    }
    while i < items.len()
        invariant
            i <= items@.len(),
            json_list_values(items_view(items@.take(i as int))) == Ok::<Seq<ValueModel>, Failure>(
                list_view(values@),
            ),
        decreases items@.len() - i,
    {
        let ghost prefix = items@.take(i as int);
        let ghost next = items@.take(i + 1);
        proof {
            assert(next.drop_last() =~= prefix);
            assert(next.last() == items@[i as int]);
            assert(items_view(next) == items_view(prefix).push(json_view(items@[i as int])));
            assert(items_view(next).drop_last() =~= items_view(prefix));
        }
        match json_to_runtime(&items[i]) {
            Ok(v) => {
                let ghost before = values@;
                values.push(v);
                proof {
                    assert(values@.drop_last() =~= before);
                }
            },
            Err(e) => {
                proof {
                    lemma_items_view(items@);
                    lemma_items_view_take_len(items@, i + 1);
                    assert(json_list_values(items_view(next)) == Err::<Seq<ValueModel>, Failure>(
                        failure(e),
                    ));
                    lemma_list_failure_persists(items_view(items@), i + 1);
                }
                return Err(e);
            },
        }
        i = i + 1;
    }
    proof {
        assert(items@.take(items@.len() as int) =~= items@);
    }
    Ok(values)
}

proof fn lemma_items_view_take_len(items: Seq<JsonValue>, n: int)
    requires
        0 <= n <= items.len(),
    ensures
        items_view(items.take(n)) == items_view(items).take(n),
{
    crate::json_value::lemma_items_view_take(items, n);
}

/// A failure among the first documents is the failure of the whole list.
proof fn lemma_list_failure_persists(items: Seq<JsonModel>, n: int)
    requires
        0 <= n <= items.len(),
        json_list_values(items.take(n)) is Err,
    ensures
        json_list_values(items) == json_list_values(items.take(n)),
    decreases items.len() - n,
{
    if n < items.len() {
        let longer = items.take(n + 1);
        assert(longer.drop_last() =~= items.take(n));
        lemma_list_failure_persists(items, n + 1);
    } else {
        assert(items.take(n) =~= items);
    }
}

/// A failure among the first members is the failure of the whole record.
proof fn lemma_record_failure_persists(members: Seq<(Seq<char>, JsonModel)>, n: int)
    requires
        0 <= n <= members.len(),
        json_record_values(members.take(n)) is Err,
    ensures
        json_record_values(members) == json_record_values(members.take(n)),
    decreases members.len() - n,
{
    if n < members.len() {
        let longer = members.take(n + 1);
        assert(longer.drop_last() =~= members.take(n));
        lemma_record_failure_persists(members, n + 1);
    } else {
        assert(members.take(n) =~= members);
    }
}

/// Converts members in order, collecting them into a record.
pub fn json_record(members: &Vec<(String, JsonValue)>) -> (result: Result<
    Vec<(String, RuntimeValue)>,
    MachineError,
>)
    ensures
        match result {
            Ok(values) => json_record_values(members_view(members@)) == Ok::<
                Seq<(Seq<char>, ValueModel)>,
                Failure,
            >(record_view(values@)),
            Err(e) => json_record_values(members_view(members@)) == Err::<
                Seq<(Seq<char>, ValueModel)>,
                Failure,
            >(failure(e)),
        },
    decreases members@, 0nat,
{
    let mut values: Vec<(String, RuntimeValue)> = Vec::new();
    let mut i: usize = 0;
    proof {
        assert(members_view(members@.take(0)) =~= Seq::<(Seq<char>, JsonModel)>::empty());
        assert(record_view(values@) =~= Seq::<(Seq<char>, ValueModel)>::empty());
    }
    while i < members.len()
        invariant
            i <= members@.len(),
            json_record_values(members_view(members@.take(i as int))) == Ok::<
                Seq<(Seq<char>, ValueModel)>,
                Failure,
            >(record_view(values@)),
        decreases members@.len() - i,
    {
        let ghost prefix = members@.take(i as int);
        let ghost next = members@.take(i + 1);
        proof {
            assert(next.drop_last() =~= prefix);
            assert(next.last() == members@[i as int]);
            assert(members_view(next).drop_last() =~= members_view(prefix));
            assert(members_view(next).last() == (
                members@[i as int].0@,
                json_view(members@[i as int].1),
            ));
        }
        match json_to_runtime(&members[i].1) {
            Ok(v) => {
                record_insert(&mut values, members[i].0.clone(), v);
            },
            Err(e) => {
                proof {
                    lemma_members_view(members@);
                    crate::json_value::lemma_members_view_take(members@, i + 1);
                    assert(json_record_values(members_view(next)) == Err::<
                        Seq<(Seq<char>, ValueModel)>,
                        Failure,
                    >(failure(e)));
                    lemma_record_failure_persists(members_view(members@), i + 1);
                }
                return Err(e);
            },
        }
        i = i + 1;
    }
    proof {
        assert(members@.take(members@.len() as int) =~= members@);
    }
    Ok(values)
}

/// The JSON document of an intent, as serde_json serializes it.
pub open spec fn intent_document(intent: IntentModel) -> JsonModel {
    JsonModel::Object(
        seq![
            ("expires_at"@, JsonModel::Text(intent.expires_at)),
            ("fields"@, JsonModel::Object(intent.fields)),
            ("purpose"@, JsonModel::Text(intent.purpose)),
        ],
    )
}

/// The JSON document of a proposal, as serde_json serializes it.
pub open spec fn proposal_document(p: ProposalModel) -> JsonModel {
    JsonModel::Object(
        seq![
            ("action"@, JsonModel::Text(p.action)),
            ("arguments"@, JsonModel::Object(p.arguments)),
            ("capability_request"@, p.capability_request),
            ("digest"@, JsonModel::Text(p.digest)),
            ("idempotency_key"@, JsonModel::Text(p.idempotency_key)),
            ("intent"@, intent_document(p.intent)),
            ("program_hash"@, JsonModel::Text(p.program_hash)),
            ("risk"@, JsonModel::Text(p.risk)),
            ("schema_version"@, JsonModel::Int(p.schema_version as i64)),
            ("sensitivity"@, JsonModel::Text(p.sensitivity)),
        ],
    )
}

/// The JSON document of a runtime value: units and absent options as null,
/// wrappers and present options by their payload, failed results as an
/// object with an `error` text, intents and proposals as serialized;
/// permits and secrets have none.
pub open spec fn value_json(value: ValueModel) -> Result<JsonModel, Failure>
    decreases value, 1nat,
{
    match value {
        ValueModel::Unit => Ok(JsonModel::Null),
        ValueModel::Bool(b) => Ok(JsonModel::Bool(b)),
        ValueModel::Int(n) => Ok(JsonModel::Int(n)),
        ValueModel::Text(t) => Ok(JsonModel::Text(t)),
        ValueModel::List(items) => match list_json(items) {
            Ok(documents) => Ok(JsonModel::Array(documents)),
            Err(e) => Err(e),
        },
        ValueModel::Record(members) => match record_json(members) {
            Ok(documents) => Ok(JsonModel::Object(documents)),
            Err(e) => Err(e),
        },
        ValueModel::Optional(inner) => match inner {
            Some(b) => value_json(*b),
            None => Ok(JsonModel::Null),
        },
        ValueModel::Outcome(result) => match result {
            Ok(b) => value_json(*b),
            Err(message) => Ok(JsonModel::Object(seq![("error"@, JsonModel::Text(message))])),
        },
        ValueModel::Incoming(b) => value_json(*b),
        ValueModel::Untrusted(b) => value_json(*b),
        ValueModel::Candidate(b) => value_json(*b),
        ValueModel::Checked(b) => value_json(*b),
        ValueModel::Observation(b) => value_json(*b),
        ValueModel::Intent(i) => Ok(intent_document(i)),
        ValueModel::Proposal(p) => Ok(proposal_document(p)),
        ValueModel::Permit(_) => Err(Failure::AuthorityValueOpaque),
        ValueModel::Receipt(_, _, b) => value_json(*b),
        ValueModel::Reconciled(_, _, b) => value_json(*b),
        ValueModel::Secret(_) => Err(Failure::SecretPersistenceRejected),
    }
}

/// JSON documents of values in order; the first failure stops.
pub open spec fn list_json(items: Seq<ValueModel>) -> Result<Seq<JsonModel>, Failure>
    decreases items, 0nat,
{
    if items.len() == 0 {
        Ok(Seq::empty())
    } else {
        match list_json(items.drop_last()) {
            Ok(documents) => match value_json(items.last()) {
                Ok(d) => Ok(documents.push(d)),
                Err(e) => Err(e),
            },
            Err(e) => Err(e),
        }
    }
}

/// JSON members of record members collected in key order; the first
/// failure stops.
pub open spec fn record_json(members: Seq<(Seq<char>, ValueModel)>) -> Result<
    Seq<(Seq<char>, JsonModel)>,
    Failure,
>
    decreases members, 0nat,
{
    if members.len() == 0 {
        Ok(Seq::empty())
    } else {
        match record_json(members.drop_last()) {
            Ok(documents) => match value_json(members.last().1) {
                Ok(d) => Ok(model_insert(documents, members.last().0, d)),
                Err(e) => Err(e),
            },
            Err(e) => Err(e),
        }
    }
}

proof fn lemma_list_json_failure_persists(items: Seq<ValueModel>, n: int)
    requires
        0 <= n <= items.len(),
        list_json(items.take(n)) is Err,
    ensures
        list_json(items) == list_json(items.take(n)),
    decreases items.len() - n,
{
    if n < items.len() {
        assert(items.take(n + 1).drop_last() =~= items.take(n));
        lemma_list_json_failure_persists(items, n + 1);
    } else {
        assert(items.take(n) =~= items);
    }
}

proof fn lemma_record_json_failure_persists(members: Seq<(Seq<char>, ValueModel)>, n: int)
    requires
        0 <= n <= members.len(),
        record_json(members.take(n)) is Err,
    ensures
        record_json(members) == record_json(members.take(n)),
    decreases members.len() - n,
{
    if n < members.len() {
        assert(members.take(n + 1).drop_last() =~= members.take(n));
        lemma_record_json_failure_persists(members, n + 1);
    } else {
        assert(members.take(n) =~= members);
    }
}

/// The JSON document of an intent.
pub fn intent_to_json(intent: &Intent) -> (document: JsonValue)
    ensures
        document@ == intent_document(crate::runtime_value::intent_model(*intent)),
{
    let document = JsonValue::Object(
        vec![
            (String::from_str("expires_at"), JsonValue::String(intent.expires_at.clone())),
            (String::from_str("fields"), JsonValue::Object(duplicate_members(intent.fields.members()))),
            (String::from_str("purpose"), JsonValue::String(intent.purpose.clone())),
        ],
    );
    proof {
        match &document {
            JsonValue::Object(members) => {
                lemma_members_view(members@);
                assert(members_view(members@) =~= seq![
                    ("expires_at"@, JsonModel::Text(intent.expires_at@)),
                    ("fields"@, JsonModel::Object(intent.fields.values())),
                    ("purpose"@, JsonModel::Text(intent.purpose@)),
                ]);
            },
            _ => {},
        }
    }
    document
}

/// The JSON document of a proposal.
pub fn proposal_to_json(p: &Proposal) -> (document: JsonValue)
    ensures
        document@ == proposal_document(crate::runtime_value::proposal_model(*p)),
{
    let document = JsonValue::Object(
        vec![
            (String::from_str("action"), JsonValue::String(p.action.clone())),
            (String::from_str("arguments"), JsonValue::Object(duplicate_members(p.arguments.members()))),
            (String::from_str("capability_request"), p.capability_request.duplicate()),
            (String::from_str("digest"), JsonValue::String(p.digest.clone())),
            (String::from_str("idempotency_key"), JsonValue::String(p.idempotency_key.clone())),
            (String::from_str("intent"), intent_to_json(&p.intent)),
            (String::from_str("program_hash"), JsonValue::String(p.program_hash.clone())),
            (String::from_str("risk"), JsonValue::String(p.risk.clone())),
            (String::from_str("schema_version"), JsonValue::Int(p.schema_version as i64)),
            (String::from_str("sensitivity"), JsonValue::String(p.sensitivity.clone())),
        ],
    );
    proof {
        match &document {
            JsonValue::Object(members) => {
                lemma_members_view(members@);
                assert(members_view(members@) =~= seq![
                    ("action"@, JsonModel::Text(p.action@)),
                    ("arguments"@, JsonModel::Object(p.arguments.values())),
                    ("capability_request"@, p.capability_request@),
                    ("digest"@, JsonModel::Text(p.digest@)),
                    ("idempotency_key"@, JsonModel::Text(p.idempotency_key@)),
                    ("intent"@, intent_document(crate::runtime_value::intent_model(p.intent))),
                    ("program_hash"@, JsonModel::Text(p.program_hash@)),
                    ("risk"@, JsonModel::Text(p.risk@)),
                    ("schema_version"@, JsonModel::Int(p.schema_version as i64)),
                    ("sensitivity"@, JsonModel::Text(p.sensitivity@)),
                ]);
            },
            _ => {},
        }
    }
    document
}

/// Converts a runtime value to its JSON document.
pub fn runtime_to_json(value: &RuntimeValue) -> (result: Result<JsonValue, MachineError>)
    ensures
        match result {
            Ok(d) => value_json(value@) == Ok::<JsonModel, Failure>(d@),
            Err(e) => value_json(value@) == Err::<JsonModel, Failure>(failure(e)),
        },
    decreases value, 1nat,
{
    match value {
        RuntimeValue::Unit => Ok(JsonValue::Null),
        RuntimeValue::Bool(b) => Ok(JsonValue::Bool(*b)),
        RuntimeValue::Int(n) => Ok(JsonValue::Int(*n)),
        RuntimeValue::Text(t) => Ok(JsonValue::String(t.clone())),
        RuntimeValue::List(items) => match list_to_json(items) {
            Ok(documents) => Ok(JsonValue::Array(documents)),
            Err(e) => Err(e),
        },
        RuntimeValue::Record(members) => match record_to_json(members) {
            Ok(documents) => Ok(JsonValue::Object(documents)),
            Err(e) => Err(e),
        },
        RuntimeValue::Option(inner) => match inner {
            Some(b) => runtime_to_json(&**b),
            None => Ok(JsonValue::Null),
        },
        RuntimeValue::Result(result) => match result {
            Ok(b) => runtime_to_json(&**b),
            Err(message) => {
                let document = JsonValue::Object(
                    vec![(String::from_str("error"), JsonValue::String(message.clone()))],
                );
                proof {
                    match &document {
                        JsonValue::Object(members) => {
                            lemma_members_view(members@);
                            assert(members_view(members@) =~= seq![("error"@, JsonModel::Text(message@))]);
                        },
                        _ => {},
                    }
                }
                Ok(document)
            },
        },
        RuntimeValue::Incoming(b) => runtime_to_json(&**b),
        RuntimeValue::Untrusted(b) => runtime_to_json(&**b),
        RuntimeValue::Candidate(b) => runtime_to_json(&**b),
        RuntimeValue::Checked(b) => runtime_to_json(&**b),
        RuntimeValue::Observation(b) => runtime_to_json(&**b),
        RuntimeValue::Intent(i) => Ok(intent_to_json(i)),
        RuntimeValue::Proposal(p) => Ok(proposal_to_json(p)),
        RuntimeValue::Permit(_) => Err(MachineError::AuthorityValueOpaque),
        RuntimeValue::Receipt(r) => runtime_to_json(&*r.value),
        RuntimeValue::Reconciled(r) => runtime_to_json(&*r.value),
        RuntimeValue::Secret(_) => Err(MachineError::SecretPersistenceRejected),
    }
}

/// Converts values in order.
pub fn list_to_json(items: &Vec<RuntimeValue>) -> (result: Result<Vec<JsonValue>, MachineError>)
    ensures
        match result {
            Ok(documents) => list_json(list_view(items@)) == Ok::<Seq<JsonModel>, Failure>(
                items_view(documents@),
            ),
            Err(e) => list_json(list_view(items@)) == Err::<Seq<JsonModel>, Failure>(failure(e)),
        },
    decreases items@, 0nat,
{
    let mut documents: Vec<JsonValue> = Vec::new();
    let mut i: usize = 0;
    proof {
        lemma_list_view(items@);
        assert(list_view(items@).take(0) =~= Seq::<ValueModel>::empty());
        assert(items_view(documents@) =~= Seq::<JsonModel>::empty());
    }
    while i < items.len()
        invariant
            i <= items@.len(),
            list_view(items@).len() == items@.len(),
            forall|k: int| 0 <= k < items@.len() ==> #[trigger] list_view(items@)[k] == value_view(
                items@[k],
            ),
            list_json(list_view(items@).take(i as int)) == Ok::<Seq<JsonModel>, Failure>(
                items_view(documents@),
            ),
        decreases items@.len() - i,
    {
        let ghost views = list_view(items@);
        proof {
            assert(views.take(i + 1).drop_last() =~= views.take(i as int));
            assert(views.take(i + 1).last() == value_view(items@[i as int]));
        }
        match runtime_to_json(&items[i]) {
            Ok(d) => {
                let ghost before = documents@;
                documents.push(d);
                proof {
                    assert(documents@.drop_last() =~= before);
                }
            },
            Err(e) => {
                proof {
                    lemma_list_json_failure_persists(views, i + 1);
                }
                return Err(e);
            },
        }
        i = i + 1;
    }
    proof {
        assert(list_view(items@).take(items@.len() as int) =~= list_view(items@));
    }
    Ok(documents)
}

/// Converts record members in order, collecting them into object members.
pub fn record_to_json(members: &Vec<(String, RuntimeValue)>) -> (result: Result<
    Vec<(String, JsonValue)>,
    MachineError,
>)
    ensures
        match result {
            Ok(documents) => record_json(record_view(members@)) == Ok::<
                Seq<(Seq<char>, JsonModel)>,
                Failure,
            >(members_view(documents@)),
            Err(e) => record_json(record_view(members@)) == Err::<
                Seq<(Seq<char>, JsonModel)>,
                Failure,
            >(failure(e)),
        },
    decreases members@, 0nat,
{
    let mut documents: Vec<(String, JsonValue)> = Vec::new();
    let mut i: usize = 0;
    proof {
        lemma_record_view(members@);
        assert(record_view(members@).take(0) =~= Seq::<(Seq<char>, ValueModel)>::empty());
        assert(members_view(documents@) =~= Seq::<(Seq<char>, JsonModel)>::empty());
    }
    while i < members.len()
        invariant
            i <= members@.len(),
            record_view(members@).len() == members@.len(),
            forall|k: int|
                0 <= k < members@.len() ==> #[trigger] record_view(members@)[k] == (
                    members@[k].0@,
                    value_view(members@[k].1),
                ),
            record_json(record_view(members@).take(i as int)) == Ok::<
                Seq<(Seq<char>, JsonModel)>,
                Failure,
            >(members_view(documents@)),
        decreases members@.len() - i,
    {
        let ghost views = record_view(members@);
        proof {
            assert(views.take(i + 1).drop_last() =~= views.take(i as int));
            assert(views.take(i + 1).last() == views[i as int]);
        }
        match runtime_to_json(&members[i].1) {
            Ok(d) => {
                json_member_insert(&mut documents, members[i].0.clone(), d);
            },
            Err(e) => {
                proof {
                    lemma_record_json_failure_persists(views, i + 1);
                }
                return Err(e);
            },
        }
        i = i + 1;
    }
    proof {
        assert(record_view(members@).take(members@.len() as int) =~= record_view(members@));
    }
    Ok(documents)
}

/// Whether a value holds a secret handle anywhere inside it.
pub open spec fn holds_secret(value: ValueModel) -> bool
    decreases value, 1nat,
{
    match value {
        ValueModel::Secret(_) => true,
        ValueModel::List(items) => list_holds_secret(items),
        ValueModel::Record(members) => record_holds_secret(members),
        ValueModel::Optional(Some(b)) => holds_secret(*b),
        ValueModel::Outcome(Ok(b)) => holds_secret(*b),
        ValueModel::Incoming(b) => holds_secret(*b),
        ValueModel::Untrusted(b) => holds_secret(*b),
        ValueModel::Candidate(b) => holds_secret(*b),
        ValueModel::Checked(b) => holds_secret(*b),
        ValueModel::Observation(b) => holds_secret(*b),
        ValueModel::Receipt(_, _, b) => holds_secret(*b),
        ValueModel::Reconciled(_, _, b) => holds_secret(*b),
        _ => false,
    }
}

/// Whether some value of a list holds a secret.
pub open spec fn list_holds_secret(items: Seq<ValueModel>) -> bool
    decreases items, 0nat,
{
    if items.len() == 0 {
        false
    } else {
        list_holds_secret(items.drop_last()) || holds_secret(items.last())
    }
}

/// Whether some member value holds a secret.
pub open spec fn record_holds_secret(members: Seq<(Seq<char>, ValueModel)>) -> bool
    decreases members, 0nat,
{
    if members.len() == 0 {
        false
    } else {
        record_holds_secret(members.drop_last()) || holds_secret(members.last().1)
    }
}

/// Whether a value holds a secret handle anywhere inside it.
pub fn contains_secret(value: &RuntimeValue) -> (holds: bool)
    ensures
        holds == holds_secret(value@),
    decreases value, 1nat,
{
    match value {
        RuntimeValue::Secret(_) => true,
        RuntimeValue::List(items) => list_contains_secret(items),
        RuntimeValue::Record(members) => record_contains_secret(members),
        RuntimeValue::Option(Some(b)) => contains_secret(&**b),
        RuntimeValue::Result(Ok(b)) => contains_secret(&**b),
        RuntimeValue::Incoming(b) => contains_secret(&**b),
        RuntimeValue::Untrusted(b) => contains_secret(&**b),
        RuntimeValue::Candidate(b) => contains_secret(&**b),
        RuntimeValue::Checked(b) => contains_secret(&**b),
        RuntimeValue::Observation(b) => contains_secret(&**b),
        RuntimeValue::Receipt(r) => contains_secret(&*r.value),
        RuntimeValue::Reconciled(r) => contains_secret(&*r.value),
        _ => false,
    }
}

fn list_contains_secret(items: &Vec<RuntimeValue>) -> (holds: bool)
    ensures
        holds == list_holds_secret(list_view(items@)),
    decreases items@, 0nat,
{
    let ghost views = list_view(items@);
    proof {
        lemma_list_view(items@);
        assert(views.take(0) =~= Seq::<ValueModel>::empty());
    }
    let mut i: usize = 0;
    while i < items.len()
        invariant
            i <= items@.len(),
            views == list_view(items@),
            views.len() == items@.len(),
            forall|k: int| 0 <= k < items@.len() ==> #[trigger] views[k] == value_view(items@[k]),
            !list_holds_secret(views.take(i as int)),
        decreases items@.len() - i,
    {
        proof {
            assert(views.take(i + 1).drop_last() =~= views.take(i as int));
            assert(views.take(i + 1).last() == views[i as int]);
        }
        if contains_secret(&items[i]) {
            proof {
                lemma_list_secret_persists(views, i + 1);
            }
            return true;
        }
        i = i + 1;
    }
    proof {
        assert(views.take(items@.len() as int) =~= views);
    }
    false
}

proof fn lemma_list_secret_persists(items: Seq<ValueModel>, n: int)
    requires
        0 <= n <= items.len(),
        list_holds_secret(items.take(n)),
    ensures
        list_holds_secret(items),
    decreases items.len() - n,
{
    if n < items.len() {
        assert(items.take(n + 1).drop_last() =~= items.take(n));
        lemma_list_secret_persists(items, n + 1);
    } else {
        assert(items.take(n) =~= items);
    }
}

proof fn lemma_record_secret_persists(members: Seq<(Seq<char>, ValueModel)>, n: int)
    requires
        0 <= n <= members.len(),
        record_holds_secret(members.take(n)),
    ensures
        record_holds_secret(members),
    decreases members.len() - n,
{
    if n < members.len() {
        assert(members.take(n + 1).drop_last() =~= members.take(n));
        lemma_record_secret_persists(members, n + 1);
    } else {
        assert(members.take(n) =~= members);
    }
}

fn record_contains_secret(members: &Vec<(String, RuntimeValue)>) -> (holds: bool)
    ensures
        holds == record_holds_secret(record_view(members@)),
    decreases members@, 0nat,
{
    let ghost views = record_view(members@);
    proof {
        lemma_record_view(members@);
        assert(views.take(0) =~= Seq::<(Seq<char>, ValueModel)>::empty());
    }
    let mut i: usize = 0;
    while i < members.len()
        invariant
            i <= members@.len(),
            views == record_view(members@),
            views.len() == members@.len(),
            forall|k: int|
                0 <= k < members@.len() ==> #[trigger] views[k] == (
                    members@[k].0@,
                    value_view(members@[k].1),
                ),
            !record_holds_secret(views.take(i as int)),
        decreases members@.len() - i,
    {
        proof {
            assert(views.take(i + 1).drop_last() =~= views.take(i as int));
            assert(views.take(i + 1).last() == views[i as int]);
        }
        if contains_secret(&members[i].1) {
            proof {
                lemma_record_secret_persists(views, i + 1);
            }
            return true;
        }
        i = i + 1;
    }
    proof {
        assert(views.take(members@.len() as int) =~= views);
    }
    false
}

/// Whether some member of a record of values holds a secret; such values
/// never cross a persistence boundary.
pub fn record_contains_secret_value(members: &Vec<(String, RuntimeValue)>) -> (holds: bool)
    ensures
        holds == record_holds_secret(record_view(members@)),
{
    record_contains_secret(members)
}

/// A field of a value: the payload of a boundary wrapper or receipt under
/// `value`, a record member, or a proposal's `args`, `intent`, `risk`,
/// `action` or `idempotency_key`.
pub open spec fn project_value(value: ValueModel, field: Seq<char>) -> Result<ValueModel, Failure> {
    match value {
        ValueModel::Incoming(b) => if field == "value"@ {
            Ok(*b)
        } else {
            Err(Failure::UnknownValue)
        },
        ValueModel::Untrusted(b) => if field == "value"@ {
            Ok(*b)
        } else {
            Err(Failure::UnknownValue)
        },
        ValueModel::Checked(b) => if field == "value"@ {
            Ok(*b)
        } else {
            Err(Failure::UnknownValue)
        },
        ValueModel::Observation(b) => if field == "value"@ {
            Ok(*b)
        } else {
            Err(Failure::UnknownValue)
        },
        ValueModel::Record(members) => match model_lookup(members, field) {
            Some(v) => Ok(v),
            None => Err(Failure::UnknownValue),
        },
        ValueModel::Proposal(p) => if field == "args"@ {
            match json_record_values(p.arguments) {
                Ok(values) => Ok(ValueModel::Record(values)),
                Err(e) => Err(e),
            }
        } else if field == "intent"@ {
            Ok(ValueModel::Intent(p.intent))
        } else if field == "risk"@ {
            Ok(ValueModel::Text(p.risk))
        } else if field == "action"@ {
            Ok(ValueModel::Text(p.action))
        } else if field == "idempotency_key"@ {
            Ok(ValueModel::Text(p.idempotency_key))
        } else {
            Err(Failure::UnknownValue)
        },
        ValueModel::Receipt(_, _, b) => if field == "value"@ {
            Ok(*b)
        } else {
            Err(Failure::UnknownValue)
        },
        ValueModel::Reconciled(_, _, b) => if field == "value"@ {
            Ok(*b)
        } else {
            Err(Failure::UnknownValue)
        },
        _ => Err(Failure::UnknownValue),
    }
}

/// Projects a field out of a value.
pub fn project(value: RuntimeValue, field: &str) -> (result: Result<RuntimeValue, MachineError>)
    ensures
        outcome(result) == project_value(value@, field@),
{
    let is_value = str_equal(field, "value");
    match value {
        RuntimeValue::Incoming(b) => if is_value {
            Ok(*b)
        } else {
            Err(MachineError::UnknownValue)
        },
        RuntimeValue::Untrusted(b) => if is_value {
            Ok(*b)
        } else {
            Err(MachineError::UnknownValue)
        },
        RuntimeValue::Checked(b) => if is_value {
            Ok(*b)
        } else {
            Err(MachineError::UnknownValue)
        },
        RuntimeValue::Observation(b) => if is_value {
            Ok(*b)
        } else {
            Err(MachineError::UnknownValue)
        },
        RuntimeValue::Record(members) => match record_get(&members, field) {
            Some(v) => Ok(v.duplicate()),
            None => Err(MachineError::UnknownValue),
        },
        RuntimeValue::Proposal(p) => {
            if str_equal(field, "args") {
                match json_record(p.arguments.members()) {
                    Ok(values) => Ok(RuntimeValue::Record(values)),
                    Err(e) => Err(e),
                }
            } else if str_equal(field, "intent") {
                Ok(RuntimeValue::Intent(p.intent))
            } else if str_equal(field, "risk") {
                Ok(RuntimeValue::Text(p.risk))
            } else if str_equal(field, "action") {
                Ok(RuntimeValue::Text(p.action))
            } else if str_equal(field, "idempotency_key") {
                Ok(RuntimeValue::Text(p.idempotency_key))
            } else {
                Err(MachineError::UnknownValue)
            }
        },
        RuntimeValue::Receipt(r) => if is_value {
            Ok(*r.value)
        } else {
            Err(MachineError::UnknownValue)
        },
        RuntimeValue::Reconciled(r) => if is_value {
            Ok(*r.value)
        } else {
            Err(MachineError::UnknownValue)
        },
        _ => Err(MachineError::UnknownValue),
    }
}

/// The dot-separated segments of a text, as `str::split('.')` yields them.
pub open spec fn split_dots(text: Seq<char>) -> Seq<Seq<char>>
    decreases text.len(),
{
    if text.len() == 0 {
        seq![Seq::empty()]
    } else {
        let prior = split_dots(text.drop_last());
        if text.last() == '.' {
            prior.push(Seq::empty())
        } else {
            prior.update(prior.len() - 1, prior.last().push(text.last()))
        }
    }
}

proof fn lemma_split_dots_nonempty(text: Seq<char>)
    ensures
        split_dots(text).len() >= 1,
    decreases text.len(),
{
    if text.len() > 0 {
        lemma_split_dots_nonempty(text.drop_last());
    }
}

/// Texts of strings.
pub open spec fn string_views(strings: Seq<String>) -> Seq<Seq<char>> {
    strings.map_values(|s: String| s@)
}

/// Splits a text at each `.`.
pub fn split_path(text: &str) -> (segments: Vec<String>)
    ensures
        string_views(segments@) == split_dots(text@),
{
    let n = text.unicode_len();
    let mut segments: Vec<String> = Vec::new();
    let mut start: usize = 0;
    let mut j: usize = 0;
    proof {
        assert(text@.take(0) =~= Seq::<char>::empty());
        assert(text@.subrange(0, 0) =~= Seq::<char>::empty());
    }
    while j < n
        invariant
            n == text@.len(),
            start <= j <= n,
            split_dots(text@.take(j as int)) == string_views(segments@).push(
                text@.subrange(start as int, j as int),
            ),
        decreases n - j,
    {
        let c = text.get_char(j);
        proof {
            assert(text@.take(j + 1).drop_last() =~= text@.take(j as int));
            assert(text@.take(j + 1).last() == c);
            lemma_split_dots_nonempty(text@.take(j as int));
        }
        if c == '.' {
            let piece = text.substring_char(start, j);
            let ghost before = string_views(segments@);
            segments.push(piece.to_owned());
            proof {
                assert(string_views(segments@) =~= before.push(text@.subrange(start as int, j as int)));
                assert(text@.subrange(j + 1, j + 1) =~= Seq::<char>::empty());
            }
            start = j + 1;
        } else {
            proof {
                assert(text@.subrange(start as int, j + 1) =~= text@.subrange(start as int, j as int).push(c));
            }
        }
        j = j + 1;
    }
    let last = text.substring_char(start, n);
    let ghost before = string_views(segments@);
    segments.push(last.to_owned());
    proof {
        assert(text@.take(n as int) =~= text@);
        assert(string_views(segments@) =~= before.push(text@.subrange(start as int, n as int)));
    }
    segments
}

/// A path's value: its first segment names `Unit`, `None` or a local, and
/// each later segment projects a field.
pub open spec fn path_value(path: Seq<char>, locals: Seq<(Seq<char>, ValueModel)>) -> Result<
    ValueModel,
    Failure,
> {
    let segments = split_dots(path);
    let first = segments[0];
    let start = if first == "Unit"@ {
        Ok(ValueModel::Unit)
    } else if first == "None"@ {
        Ok(ValueModel::Optional(None))
    } else {
        match model_lookup(locals, first) {
            Some(v) => Ok(v),
            None => Err(Failure::UnknownValue),
        }
    };
    project_fields(start, segments.drop_first())
}

/// Projects fields one after another; the first failure stops.
pub open spec fn project_fields(start: Result<ValueModel, Failure>, fields: Seq<Seq<char>>) -> Result<
    ValueModel,
    Failure,
>
    decreases fields.len(),
{
    if fields.len() == 0 {
        start
    } else {
        match project_fields(start, fields.drop_last()) {
            Ok(v) => project_value(v, fields.last()),
            Err(e) => Err(e),
        }
    }
}

proof fn lemma_project_failure_persists(start: Result<ValueModel, Failure>, fields: Seq<Seq<char>>, n: int)
    requires
        0 <= n <= fields.len(),
        project_fields(start, fields.take(n)) is Err,
    ensures
        project_fields(start, fields) == project_fields(start, fields.take(n)),
    decreases fields.len() - n,
{
    if n < fields.len() {
        assert(fields.take(n + 1).drop_last() =~= fields.take(n));
        lemma_project_failure_persists(start, fields, n + 1);
    } else {
        assert(fields.take(n) =~= fields);
    }
}

/// Resolves a dotted path against local bindings.
pub fn resolve_path(path: &str, locals: &Vec<(String, RuntimeValue)>) -> (result: Result<
    RuntimeValue,
    MachineError,
>)
    ensures
        outcome(result) == path_value(path@, record_view(locals@)),
{
    let segments = split_path(path);
    proof {
        lemma_split_dots_nonempty(path@);
        assert(string_views(segments@).len() == segments@.len());
    }
    let first = segments[0].as_str();
    let start: Result<RuntimeValue, MachineError> = if str_equal(first, "Unit") {
        Ok(RuntimeValue::Unit)
    } else if str_equal(first, "None") {
        Ok(RuntimeValue::Option(None))
    } else {
        match record_get(locals, first) {
            Some(v) => Ok(v.duplicate()),
            None => Err(MachineError::UnknownValue),
        }
    };
    let ghost start_model = outcome(start);
    let ghost fields = string_views(segments@).drop_first();
    proof {
        assert(string_views(segments@)[0] == segments@[0]@);
        assert(fields.take(0) =~= Seq::<Seq<char>>::empty());
        assert(path_value(path@, record_view(locals@)) == project_fields(start_model, fields));
    }
    let mut value = match start {
        Ok(v) => v,
        Err(e) => {
            proof {
                lemma_project_failure_persists(start_model, fields, 0);
            }
            return Err(e);
        },
    };
    let mut k: usize = 1;
    while k < segments.len()
        invariant
            1 <= k <= segments@.len(),
            fields == string_views(segments@).drop_first(),
            fields.len() == segments@.len() - 1,
            path_value(path@, record_view(locals@)) == project_fields(start_model, fields),
            project_fields(start_model, fields.take(k - 1)) == Ok::<ValueModel, Failure>(value@),
        decreases segments@.len() - k,
    {
        proof {
            assert(fields.take(k as int).drop_last() =~= fields.take(k - 1));
            assert(fields.take(k as int).last() == segments@[k as int]@);
        }
        match project(value, segments[k].as_str()) {
            Ok(v) => {
                value = v;
            },
            Err(e) => {
                proof {
                    lemma_project_failure_persists(start_model, fields, k as int);
                }
                return Err(e);
            },
        }
        k = k + 1;
    }
    proof {
        assert(fields.take(k - 1) =~= fields);
    }
    Ok(value)
}

/// Deepest chain of pure routine calls an evaluation follows.
pub const MAX_CALL_DEPTH: u64 = 512;

/// Most instructions one pure routine invocation executes.
pub const ROUTINE_STEP_LIMIT: u64 = 1000000;

/// Contents of value slots.
pub open spec fn slots_view(slots: Seq<(ValueId, RuntimeValue)>) -> Seq<(u32, ValueModel)> {
    slots.map_values(|e: (ValueId, RuntimeValue)| (e.0.0, value_view(e.1)))
}

/// Value of the first slot with identity `id`, if any.
pub open spec fn slot_lookup(slots: Seq<(u32, ValueModel)>, id: u32) -> Option<ValueModel>
    decreases slots.len(),
{
    if slots.len() == 0 {
        None
    } else if slots[0].0 == id {
        Some(slots[0].1)
    } else {
        slot_lookup(slots.drop_first(), id)
    }
}

/// Slots after filing `value` under `id` as a `BTreeMap` files it.
pub open spec fn slot_insert(slots: Seq<(u32, ValueModel)>, id: u32, value: ValueModel) -> Seq<
    (u32, ValueModel),
>
    decreases slots.len(),
{
    if slots.len() == 0 {
        seq![(id, value)]
    } else if slots[0].0 < id {
        seq![slots[0]] + slot_insert(slots.drop_first(), id, value)
    } else if slots[0].0 == id {
        seq![(id, value)] + slots.drop_first()
    } else {
        seq![(id, value)] + slots
    }
}

proof fn lemma_slot_insert_at(slots: Seq<(u32, ValueModel)>, id: u32, value: ValueModel, i: int)
    requires
        0 <= i <= slots.len(),
        forall|j: int| 0 <= j < i ==> (#[trigger] slots[j]).0 < id,
        i < slots.len() ==> slots[i].0 >= id,
    ensures
        slot_insert(slots, id, value) == if i < slots.len() && slots[i].0 == id {
            slots.update(i, (id, value))
        } else {
            slots.insert(i, (id, value))
        },
    decreases i,
{
    if i == 0 {
        if slots.len() == 0 {
            assert(slots.insert(0, (id, value)) =~= seq![(id, value)]);
        } else if slots[0].0 == id {
            assert(slots.update(0, (id, value)) =~= seq![(id, value)] + slots.drop_first());
        } else {
            assert(slots.insert(0, (id, value)) =~= seq![(id, value)] + slots);
        }
    } else {
        let rest = slots.drop_first();
        assert forall|j: int| 0 <= j < i - 1 implies (#[trigger] rest[j]).0 < id by {
            assert(rest[j] == slots[j + 1]);
        }
        lemma_slot_insert_at(rest, id, value, i - 1);
        if i < slots.len() && slots[i].0 == id {
            assert(slots.update(i, (id, value)) =~= seq![slots[0]] + rest.update(i - 1, (id, value)));
        } else {
            assert(slots.insert(i, (id, value)) =~= seq![slots[0]] + rest.insert(i - 1, (id, value)));
        }
    }
}

/// Files `value` under `id`, keeping slots in identity order.
pub fn slots_insert(slots: &mut Vec<(ValueId, RuntimeValue)>, id: ValueId, value: RuntimeValue)
    ensures
        slots_view(final(slots)@) == slot_insert(slots_view(old(slots)@), id.0, value@),
{
    let ghost before = slots_view(slots@);
    let mut i: usize = 0;
    while i < slots.len() && slots[i].0.0 < id.0
        invariant
            i <= slots@.len(),
            slots@ == old(slots)@,
            before == slots_view(slots@),
            forall|j: int| 0 <= j < i ==> (#[trigger] before[j]).0 < id.0,
        decreases slots@.len() - i,
    {
        i = i + 1;
    }
    proof {
        lemma_slot_insert_at(before, id.0, value@, i as int);
    }
    if i < slots.len() && slots[i].0.0 == id.0 {
        slots.set(i, (id, value));
        proof {
            assert(slots_view(slots@) =~= before.update(i as int, (id.0, value@)));
        }
    } else {
        slots.insert(i, (id, value));
        proof {
            assert(slots_view(slots@) =~= before.insert(i as int, (id.0, value@)));
        }
    }
}

/// The value in slot `id`, if any.
pub fn slots_get<'a>(slots: &'a Vec<(ValueId, RuntimeValue)>, id: ValueId) -> (value: Option<
    &'a RuntimeValue,
>)
    ensures
        match value {
            Some(v) => slot_lookup(slots_view(slots@), id.0) == Some(v@),
            None => slot_lookup(slots_view(slots@), id.0) is None,
        },
{
    let ghost view = slots_view(slots@);
    proof {
        assert(view.skip(0) =~= view);
    }
    let mut i: usize = 0;
    while i < slots.len()
        invariant
            i <= slots@.len(),
            view == slots_view(slots@),
            slot_lookup(view, id.0) == slot_lookup(view.skip(i as int), id.0),
        decreases slots@.len() - i,
    {
        proof {
            assert(view.skip(i as int)[0] == view[i as int]);
            assert(view.skip(i as int).drop_first() =~= view.skip(i + 1));
        }
        if slots[i].0.0 == id.0 {
            return Some(&slots[i].1);
        }
        i = i + 1;
    }
    proof {
        assert(view.skip(i as int) =~= Seq::<(u32, ValueModel)>::empty());
    }
    None
}

/// The key of a named argument: its name, or its position in decimal.
pub open spec fn argument_key(name: Option<String>, index: int) -> Seq<char> {
    match name {
        Some(n) => n@,
        None => decimal(index as nat),
    }
}

/// The key of a named argument.
pub fn argument_name(name: &Option<String>, index: usize) -> (key: String)
    ensures
        key@ == argument_key(*name, index as int),
{
    match name {
        Some(n) => n.clone(),
        None => usize_text(index),
    }
}

/// Locals binding routine parameters to argument values pairwise, as
/// collected into a `BTreeMap`.
pub open spec fn bind_parameters(parameters: Seq<FieldSpec>, values: Seq<ValueModel>) -> Seq<
    (Seq<char>, ValueModel),
>
    decreases parameters.len(),
{
    let n = if parameters.len() < values.len() {
        parameters.len()
    } else {
        values.len()
    };
    if n == 0 {
        Seq::empty()
    } else {
        model_insert(
            bind_parameters(parameters.take(n - 1), values.take(n - 1)),
            parameters[n - 1].name@,
            values[n - 1],
        )
    }
}

/// Values of argument slots in order; a missing slot is an unknown value.
pub open spec fn slot_values(arguments: Seq<NamedValue>, slots: Seq<(u32, ValueModel)>) -> Result<
    Seq<ValueModel>,
    Failure,
>
    decreases arguments.len(),
{
    if arguments.len() == 0 {
        Ok(Seq::empty())
    } else {
        match slot_values(arguments.drop_last(), slots) {
            Ok(values) => match slot_lookup(slots, arguments.last().value.0) {
                Some(v) => Ok(values.push(v)),
                None => Err(Failure::UnknownValue),
            },
            Err(e) => Err(e),
        }
    }
}

/// The value of an effect-free expression, with `depth` further routine
/// calls allowed.
pub open spec fn eval_pure(
    expression: PureExpression,
    locals: Seq<(Seq<char>, ValueModel)>,
    slots: Seq<(u32, ValueModel)>,
    program: Program,
    depth: nat,
) -> Result<ValueModel, Failure>
    decreases depth, 1nat, 0nat, expression,
{
    match expression {
        PureExpression::Unit => Ok(ValueModel::Unit),
        PureExpression::Bool { value } => Ok(ValueModel::Bool(value)),
        PureExpression::Int { value } => Ok(ValueModel::Int(value)),
        PureExpression::Text { value } => Ok(ValueModel::Text(value@)),
        PureExpression::Path { path } => path_value(path@, locals),
        PureExpression::Slot { value } => match slot_lookup(slots, value.0) {
            Some(v) => Ok(v),
            None => Err(Failure::UnknownValue),
        },
        PureExpression::List { elements } => match eval_list(elements@, locals, slots, program, depth) {
            Ok(values) => Ok(ValueModel::List(values)),
            Err(e) => Err(e),
        },
        PureExpression::Record { ty: _, fields } => match eval_fields(
            fields@,
            locals,
            slots,
            program,
            depth,
        ) {
            Ok(members) => Ok(ValueModel::Record(members)),
            Err(e) => Err(e),
        },
        PureExpression::Field { target, field } => match eval_pure(*target, locals, slots, program, depth) {
            Ok(v) => project_value(v, field@),
            Err(e) => Err(e),
        },
        PureExpression::Unary { operator, operand } => match eval_pure(
            *operand,
            locals,
            slots,
            program,
            depth,
        ) {
            Ok(v) => unary_value(operator@, v),
            Err(e) => Err(e),
        },
        PureExpression::Binary { left, operator, right } => match eval_pure(
            *left,
            locals,
            slots,
            program,
            depth,
        ) {
            Ok(l) => match eval_pure(*right, locals, slots, program, depth) {
                Ok(r) => binary_value(operator@, l, r),
                Err(e) => Err(e),
            },
            Err(e) => Err(e),
        },
        PureExpression::Call { function, arguments } => match eval_args(
            arguments@,
            locals,
            slots,
            program,
            depth,
        ) {
            Ok(values) => call_value(function@, values, program, depth),
            Err(e) => Err(e),
        },
    }
}

/// Values of expressions in order; the first failure stops.
pub open spec fn eval_list(
    elements: Seq<PureExpression>,
    locals: Seq<(Seq<char>, ValueModel)>,
    slots: Seq<(u32, ValueModel)>,
    program: Program,
    depth: nat,
) -> Result<Seq<ValueModel>, Failure>
    decreases depth, 1nat, 0nat, elements,
{
    if elements.len() == 0 {
        Ok(Seq::empty())
    } else {
        match eval_list(elements.drop_last(), locals, slots, program, depth) {
            Ok(values) => match eval_pure(elements.last(), locals, slots, program, depth) {
                Ok(v) => Ok(values.push(v)),
                Err(e) => Err(e),
            },
            Err(e) => Err(e),
        }
    }
}

/// Values of argument expressions in order; the first failure stops.
pub open spec fn eval_args(
    arguments: Seq<NamedExpression>,
    locals: Seq<(Seq<char>, ValueModel)>,
    slots: Seq<(u32, ValueModel)>,
    program: Program,
    depth: nat,
) -> Result<Seq<ValueModel>, Failure>
    decreases depth, 1nat, 0nat, arguments,
{
    if arguments.len() == 0 {
        Ok(Seq::empty())
    } else {
        match eval_args(arguments.drop_last(), locals, slots, program, depth) {
            Ok(values) => match eval_pure(arguments.last().value, locals, slots, program, depth) {
                Ok(v) => Ok(values.push(v)),
                Err(e) => Err(e),
            },
            Err(e) => Err(e),
        }
    }
}

/// Record members of named expressions, each under its name or position,
/// collected in key order; the first failure stops.
pub open spec fn eval_fields(
    fields: Seq<NamedExpression>,
    locals: Seq<(Seq<char>, ValueModel)>,
    slots: Seq<(u32, ValueModel)>,
    program: Program,
    depth: nat,
) -> Result<Seq<(Seq<char>, ValueModel)>, Failure>
    decreases depth, 1nat, 0nat, fields,
{
    if fields.len() == 0 {
        Ok(Seq::empty())
    } else {
        match eval_fields(fields.drop_last(), locals, slots, program, depth) {
            Ok(members) => match eval_pure(fields.last().value, locals, slots, program, depth) {
                Ok(v) => Ok(
                    model_insert(members, argument_key(fields.last().name, fields.len() - 1), v),
                ),
                Err(e) => Err(e),
            },
            Err(e) => Err(e),
        }
    }
}

/// Whether every value of `left` occurs in `right`.
pub open spec fn all_contained(left: Seq<ValueModel>, right: Seq<ValueModel>) -> bool {
    forall|i: int| 0 <= i < left.len() ==> right.contains(#[trigger] left[i])
}

/// The result of calling a built-in function or a source routine.
pub open spec fn call_value(
    function: Seq<char>,
    values: Seq<ValueModel>,
    program: Program,
    depth: nat,
) -> Result<ValueModel, Failure>
    decreases depth, 0nat, 0nat, values,
{
    if function == "Ok"@ && values.len() == 1 {
        Ok(ValueModel::Outcome(Ok(Box::new(values[0]))))
    } else if function == "Err"@ && values.len() == 1 && values[0] is Text {
        Ok(ValueModel::Outcome(Err(values[0]->Text_0)))
    } else if function == "Some"@ && values.len() == 1 {
        Ok(ValueModel::Optional(Some(Box::new(values[0]))))
    } else if function == "Human"@ && values.len() == 1 {
        Ok(values[0])
    } else if function == "len"@ && values.len() == 1 && values[0] is List {
        if values[0]->List_0.len() <= i64::MAX {
            Ok(ValueModel::Int(values[0]->List_0.len() as i64))
        } else {
            Err(mismatch("list length"@))
        }
    } else if function == "first"@ && values.len() == 1 && values[0] is List {
        if values[0]->List_0.len() == 0 {
            Ok(ValueModel::Outcome(Err("empty list"@)))
        } else {
            Ok(ValueModel::Outcome(Ok(Box::new(values[0]->List_0[0]))))
        }
    } else if function == "contains"@ && values.len() == 2 && values[0] is List {
        Ok(ValueModel::Bool(values[0]->List_0.contains(values[1])))
    } else if function == "subset"@ && values.len() == 2 && values[0] is List && values[1] is List {
        Ok(ValueModel::Bool(all_contained(values[0]->List_0, values[1]->List_0)))
    } else if function == "provenance"@ && values.len() == 1 {
        match value_json(values[0]) {
            Ok(document) => Ok(ValueModel::Text(canonical_digest(document))),
            Err(e) => Err(e),
        }
    } else if function == "add_seconds"@ && values.len() == 2 && values[0] is Text && values[1] is Int {
        match shifted_instant(values[0]->Text_0, values[1]->Int_0) {
            Some(text) => Ok(ValueModel::Text(text)),
            None => Err(Failure::InvalidInstant),
        }
    } else if routine_named(program, function) is Some {
        if depth == 0 {
            Err(Failure::InvalidIp)
        } else {
            routine_call(function, values, program, (depth - 1) as nat)
        }
    } else {
        Err(Failure::UnsupportedPureExpression)
    }
}

/// The value a source routine returns for argument values.
pub open spec fn routine_call(name: Seq<char>, values: Seq<ValueModel>, program: Program, depth: nat) -> Result<
    ValueModel,
    Failure,
>
    decreases depth, 3nat, 0nat, values,
{
    match routine_named(program, name) {
        None => Err(Failure::UnknownRoutine),
        Some(routine) => run_routine(
            routine,
            bind_parameters(routine.parameters@, values),
            Seq::empty(),
            0,
            ROUTINE_STEP_LIMIT as nat,
            program,
            depth,
        ),
    }
}

/// Runs a pure routine from instruction `ip` with `steps` instructions
/// left: evaluations, bindings, calls, branches and jumps until a return.
pub open spec fn run_routine(
    routine: Routine,
    locals: Seq<(Seq<char>, ValueModel)>,
    slots: Seq<(u32, ValueModel)>,
    ip: int,
    steps: nat,
    program: Program,
    depth: nat,
) -> Result<ValueModel, Failure>
    decreases depth, 2nat, steps, routine,
{
    if steps == 0 || !(0 <= ip < routine.instructions@.len()) {
        Err(Failure::InvalidIp)
    } else {
        let next = (steps - 1) as nat;
        match routine.instructions@[ip].kind {
            InstructionKind::Evaluate { target, expression } => match eval_pure(
                expression,
                locals,
                slots,
                program,
                depth,
            ) {
                Ok(v) => run_routine(
                    routine,
                    locals,
                    slot_insert(slots, target.0, v),
                    ip + 1,
                    next,
                    program,
                    depth,
                ),
                Err(e) => Err(e),
            },
            InstructionKind::Bind { name, value } => match slot_lookup(slots, value.0) {
                Some(v) => run_routine(
                    routine,
                    model_insert(locals, name@, v),
                    slots,
                    ip + 1,
                    next,
                    program,
                    depth,
                ),
                None => Err(Failure::UnknownValue),
            },
            InstructionKind::Call { target, routine: callee, arguments } => match slot_values(
                arguments@,
                slots,
            ) {
                Ok(values) => {
                    let called = if depth == 0 {
                        Err(Failure::InvalidIp)
                    } else {
                        routine_call(callee@, values, program, (depth - 1) as nat)
                    };
                    match called {
                        Ok(v) => run_routine(
                            routine,
                            locals,
                            slot_insert(slots, target.0, v),
                            ip + 1,
                            next,
                            program,
                            depth,
                        ),
                        Err(e) => Err(e),
                    }
                },
                Err(e) => Err(e),
            },
            InstructionKind::Branch { condition, then_target, else_target } => match slot_lookup(
                slots,
                condition.0,
            ) {
                Some(ValueModel::Bool(true)) => run_routine(
                    routine,
                    locals,
                    slots,
                    then_target as int,
                    next,
                    program,
                    depth,
                ),
                Some(ValueModel::Bool(false)) => run_routine(
                    routine,
                    locals,
                    slots,
                    else_target as int,
                    next,
                    program,
                    depth,
                ),
                _ => Err(mismatch("branch condition"@)),
            },
            InstructionKind::Jump { target } => run_routine(
                routine,
                locals,
                slots,
                target as int,
                next,
                program,
                depth,
            ),
            InstructionKind::Return { value } => match slot_lookup(slots, value.0) {
                Some(v) => Ok(v),
                None => Err(Failure::UnknownValue),
            },
            _ => Err(Failure::EffectInPureRoutine),
        }
    }
}

proof fn lemma_eval_list_failure_persists(
    elements: Seq<PureExpression>,
    locals: Seq<(Seq<char>, ValueModel)>,
    slots: Seq<(u32, ValueModel)>,
    program: Program,
    depth: nat,
    n: int,
)
    requires
        0 <= n <= elements.len(),
        eval_list(elements.take(n), locals, slots, program, depth) is Err,
    ensures
        eval_list(elements, locals, slots, program, depth) == eval_list(
            elements.take(n),
            locals,
            slots,
            program,
            depth,
        ),
    decreases elements.len() - n,
{
    if n < elements.len() {
        assert(elements.take(n + 1).drop_last() =~= elements.take(n));
        lemma_eval_list_failure_persists(elements, locals, slots, program, depth, n + 1);
    } else {
        assert(elements.take(n) =~= elements);
    }
}

proof fn lemma_eval_args_failure_persists(
    arguments: Seq<NamedExpression>,
    locals: Seq<(Seq<char>, ValueModel)>,
    slots: Seq<(u32, ValueModel)>,
    program: Program,
    depth: nat,
    n: int,
)
    requires
        0 <= n <= arguments.len(),
        eval_args(arguments.take(n), locals, slots, program, depth) is Err,
    ensures
        eval_args(arguments, locals, slots, program, depth) == eval_args(
            arguments.take(n),
            locals,
            slots,
            program,
            depth,
        ),
    decreases arguments.len() - n,
{
    if n < arguments.len() {
        assert(arguments.take(n + 1).drop_last() =~= arguments.take(n));
        lemma_eval_args_failure_persists(arguments, locals, slots, program, depth, n + 1);
    } else {
        assert(arguments.take(n) =~= arguments);
    }
}

proof fn lemma_eval_fields_failure_persists(
    fields: Seq<NamedExpression>,
    locals: Seq<(Seq<char>, ValueModel)>,
    slots: Seq<(u32, ValueModel)>,
    program: Program,
    depth: nat,
    n: int,
)
    requires
        0 <= n <= fields.len(),
        eval_fields(fields.take(n), locals, slots, program, depth) is Err,
    ensures
        eval_fields(fields, locals, slots, program, depth) == eval_fields(
            fields.take(n),
            locals,
            slots,
            program,
            depth,
        ),
    decreases fields.len() - n,
{
    if n < fields.len() {
        assert(fields.take(n + 1).drop_last() =~= fields.take(n));
        lemma_eval_fields_failure_persists(fields, locals, slots, program, depth, n + 1);
    } else {
        assert(fields.take(n) =~= fields);
    }
}

proof fn lemma_slot_values_failure_persists(arguments: Seq<NamedValue>, slots: Seq<(u32, ValueModel)>, n: int)
    requires
        0 <= n <= arguments.len(),
        slot_values(arguments.take(n), slots) is Err,
    ensures
        slot_values(arguments, slots) == slot_values(arguments.take(n), slots),
    decreases arguments.len() - n,
{
    if n < arguments.len() {
        assert(arguments.take(n + 1).drop_last() =~= arguments.take(n));
        lemma_slot_values_failure_persists(arguments, slots, n + 1);
    } else {
        assert(arguments.take(n) =~= arguments);
    }
}

/// Evaluates an effect-free expression against local bindings and slots.
pub fn eval_expression(
    expression: &PureExpression,
    locals: &Vec<(String, RuntimeValue)>,
    slots: &Vec<(ValueId, RuntimeValue)>,
    program: &Program,
) -> (result: Result<RuntimeValue, MachineError>)
    ensures
        outcome(result) == eval_pure(
            *expression,
            record_view(locals@),
            slots_view(slots@),
            *program,
            MAX_CALL_DEPTH as nat,
        ),
{
    evaluate(expression, locals, slots, program, MAX_CALL_DEPTH)
}

fn evaluate(
    expression: &PureExpression,
    locals: &Vec<(String, RuntimeValue)>,
    slots: &Vec<(ValueId, RuntimeValue)>,
    program: &Program,
    depth: u64,
) -> (result: Result<RuntimeValue, MachineError>)
    ensures
        outcome(result) == eval_pure(
            *expression,
            record_view(locals@),
            slots_view(slots@),
            *program,
            depth as nat,
        ),
    decreases depth, 1nat, 0nat, expression,
{
    match expression {
        PureExpression::Unit => Ok(RuntimeValue::Unit),
        PureExpression::Bool { value } => Ok(RuntimeValue::Bool(*value)),
        PureExpression::Int { value } => Ok(RuntimeValue::Int(*value)),
        PureExpression::Text { value } => Ok(RuntimeValue::Text(value.clone())),
        PureExpression::Path { path } => resolve_path(path.as_str(), locals),
        PureExpression::Slot { value } => match slots_get(slots, *value) {
            Some(v) => Ok(v.duplicate()),
            None => Err(MachineError::UnknownValue),
        },
        PureExpression::List { elements } => match evaluate_list(elements, locals, slots, program, depth) {
            Ok(values) => Ok(RuntimeValue::List(values)),
            Err(e) => Err(e),
        },
        PureExpression::Record { ty: _, fields } => match evaluate_fields(
            fields,
            locals,
            slots,
            program,
            depth,
        ) {
            Ok(members) => Ok(RuntimeValue::Record(members)),
            Err(e) => Err(e),
        },
        PureExpression::Field { target, field } => match evaluate(target, locals, slots, program, depth) {
            Ok(v) => project(v, field.as_str()),
            Err(e) => Err(e),
        },
        PureExpression::Unary { operator, operand } => match evaluate(
            operand,
            locals,
            slots,
            program,
            depth,
        ) {
            Ok(v) => eval_unary(operator.as_str(), v),
            Err(e) => Err(e),
        },
        PureExpression::Binary { left, operator, right } => match evaluate(
            left,
            locals,
            slots,
            program,
            depth,
        ) {
            Ok(l) => match evaluate(right, locals, slots, program, depth) {
                Ok(r) => eval_binary(operator.as_str(), l, r),
                Err(e) => Err(e),
            },
            Err(e) => Err(e),
        },
        PureExpression::Call { function, arguments } => match evaluate_args(
            arguments,
            locals,
            slots,
            program,
            depth,
        ) {
            Ok(values) => call(function.as_str(), values, program, depth),
            Err(e) => Err(e),
        },
    }
}

fn evaluate_list(
    elements: &Vec<PureExpression>,
    locals: &Vec<(String, RuntimeValue)>,
    slots: &Vec<(ValueId, RuntimeValue)>,
    program: &Program,
    depth: u64,
) -> (result: Result<Vec<RuntimeValue>, MachineError>)
    ensures
        match result {
            Ok(values) => eval_list(
                elements@,
                record_view(locals@),
                slots_view(slots@),
                *program,
                depth as nat,
            ) == Ok::<Seq<ValueModel>, Failure>(list_view(values@)),
            Err(e) => eval_list(
                elements@,
                record_view(locals@),
                slots_view(slots@),
                *program,
                depth as nat,
            ) == Err::<Seq<ValueModel>, Failure>(failure(e)),
        },
    decreases depth, 1nat, 0nat, elements@,
{
    let ghost l = record_view(locals@);
    let ghost sl = slots_view(slots@);
    let mut values: Vec<RuntimeValue> = Vec::new();
    let mut i: usize = 0;
    proof {
        assert(elements@.take(0) =~= Seq::<PureExpression>::empty());
        assert(list_view(values@) =~= Seq::<ValueModel>::empty());
    }
    while i < elements.len()
        invariant
            i <= elements@.len(),
            l == record_view(locals@),
            sl == slots_view(slots@),
            eval_list(elements@.take(i as int), l, sl, *program, depth as nat) == Ok::<
                Seq<ValueModel>,
                Failure,
            >(list_view(values@)),
        decreases elements@.len() - i,
    {
        proof {
            assert(elements@.take(i + 1).drop_last() =~= elements@.take(i as int));
            assert(elements@.take(i + 1).last() == elements@[i as int]);
        }
        match evaluate(&elements[i], locals, slots, program, depth) {
            Ok(v) => {
                let ghost before = values@;
                values.push(v);
                proof {
                    assert(values@.drop_last() =~= before);
                }
            },
            Err(e) => {
                proof {
                    lemma_eval_list_failure_persists(elements@, l, sl, *program, depth as nat, i + 1);
                }
                return Err(e);
            },
        }
        i = i + 1;
    }
    proof {
        assert(elements@.take(elements@.len() as int) =~= elements@);
    }
    Ok(values)
}

fn evaluate_args(
    arguments: &Vec<NamedExpression>,
    locals: &Vec<(String, RuntimeValue)>,
    slots: &Vec<(ValueId, RuntimeValue)>,
    program: &Program,
    depth: u64,
) -> (result: Result<Vec<RuntimeValue>, MachineError>)
    ensures
        match result {
            Ok(values) => eval_args(
                arguments@,
                record_view(locals@),
                slots_view(slots@),
                *program,
                depth as nat,
            ) == Ok::<Seq<ValueModel>, Failure>(list_view(values@)),
            Err(e) => eval_args(
                arguments@,
                record_view(locals@),
                slots_view(slots@),
                *program,
                depth as nat,
            ) == Err::<Seq<ValueModel>, Failure>(failure(e)),
        },
    decreases depth, 1nat, 0nat, arguments@,
{
    let ghost l = record_view(locals@);
    let ghost sl = slots_view(slots@);
    let mut values: Vec<RuntimeValue> = Vec::new();
    let mut i: usize = 0;
    proof {
        assert(arguments@.take(0) =~= Seq::<NamedExpression>::empty());
        assert(list_view(values@) =~= Seq::<ValueModel>::empty());
    }
    while i < arguments.len()
        invariant
            i <= arguments@.len(),
            l == record_view(locals@),
            sl == slots_view(slots@),
            eval_args(arguments@.take(i as int), l, sl, *program, depth as nat) == Ok::<
                Seq<ValueModel>,
                Failure,
            >(list_view(values@)),
        decreases arguments@.len() - i,
    {
        proof {
            assert(arguments@.take(i + 1).drop_last() =~= arguments@.take(i as int));
            assert(arguments@.take(i + 1).last() == arguments@[i as int]);
        }
        match evaluate(&arguments[i].value, locals, slots, program, depth) {
            Ok(v) => {
                let ghost before = values@;
                values.push(v);
                proof {
                    assert(values@.drop_last() =~= before);
                }
            },
            Err(e) => {
                proof {
                    lemma_eval_args_failure_persists(arguments@, l, sl, *program, depth as nat, i + 1);
                }
                return Err(e);
            },
        }
        i = i + 1;
    }
    proof {
        assert(arguments@.take(arguments@.len() as int) =~= arguments@);
    }
    Ok(values)
}

fn evaluate_fields(
    fields: &Vec<NamedExpression>,
    locals: &Vec<(String, RuntimeValue)>,
    slots: &Vec<(ValueId, RuntimeValue)>,
    program: &Program,
    depth: u64,
) -> (result: Result<Vec<(String, RuntimeValue)>, MachineError>)
    ensures
        match result {
            Ok(members) => eval_fields(
                fields@,
                record_view(locals@),
                slots_view(slots@),
                *program,
                depth as nat,
            ) == Ok::<Seq<(Seq<char>, ValueModel)>, Failure>(record_view(members@)),
            Err(e) => eval_fields(
                fields@,
                record_view(locals@),
                slots_view(slots@),
                *program,
                depth as nat,
            ) == Err::<Seq<(Seq<char>, ValueModel)>, Failure>(failure(e)),
        },
    decreases depth, 1nat, 0nat, fields@,
{
    let ghost l = record_view(locals@);
    let ghost sl = slots_view(slots@);
    let mut members: Vec<(String, RuntimeValue)> = Vec::new();
    let mut i: usize = 0;
    proof {
        assert(fields@.take(0) =~= Seq::<NamedExpression>::empty());
        assert(record_view(members@) =~= Seq::<(Seq<char>, ValueModel)>::empty());
    }
    while i < fields.len()
        invariant
            i <= fields@.len(),
            l == record_view(locals@),
            sl == slots_view(slots@),
            eval_fields(fields@.take(i as int), l, sl, *program, depth as nat) == Ok::<
                Seq<(Seq<char>, ValueModel)>,
                Failure,
            >(record_view(members@)),
        decreases fields@.len() - i,
    {
        proof {
            assert(fields@.take(i + 1).drop_last() =~= fields@.take(i as int));
            assert(fields@.take(i + 1).last() == fields@[i as int]);
            assert(fields@.take(i + 1).len() - 1 == i);
        }
        match evaluate(&fields[i].value, locals, slots, program, depth) {
            Ok(v) => {
                let key = argument_name(&fields[i].name, i);
                record_insert(&mut members, key, v);
            },
            Err(e) => {
                proof {
                    lemma_eval_fields_failure_persists(fields@, l, sl, *program, depth as nat, i + 1);
                }
                return Err(e);
            },
        }
        i = i + 1;
    }
    proof {
        assert(fields@.take(fields@.len() as int) =~= fields@);
    }
    Ok(members)
}

/// Whether a list holds a value equal to `value`.
pub fn list_contains(items: &Vec<RuntimeValue>, value: &RuntimeValue) -> (found: bool)
    ensures
        found == list_view(items@).contains(value@),
{
    proof {
        lemma_list_view(items@);
    }
    let mut i: usize = 0;
    while i < items.len()
        invariant
            i <= items@.len(),
            list_view(items@).len() == items@.len(),
            forall|k: int| 0 <= k < items@.len() ==> #[trigger] list_view(items@)[k] == value_view(items@[k]),
            forall|k: int| 0 <= k < i ==> list_view(items@)[k] != value@,
        decreases items@.len() - i,
    {
        if values_equal(&items[i], value) {
            proof {
                assert(list_view(items@)[i as int] == value@);
            }
            return true;
        }
        i = i + 1;
    }
    false
}

fn all_in(left: &Vec<RuntimeValue>, right: &Vec<RuntimeValue>) -> (all: bool)
    ensures
        all == all_contained(list_view(left@), list_view(right@)),
{
    proof {
        lemma_list_view(left@);
    }
    let mut i: usize = 0;
    while i < left.len()
        invariant
            i <= left@.len(),
            list_view(left@).len() == left@.len(),
            forall|k: int| 0 <= k < left@.len() ==> #[trigger] list_view(left@)[k] == value_view(left@[k]),
            forall|k: int| 0 <= k < i ==> list_view(right@).contains(#[trigger] list_view(left@)[k]),
        decreases left@.len() - i,
    {
        if !list_contains(right, &left[i]) {
            proof {
                let x = list_view(left@)[i as int];
                assert(!list_view(right@).contains(x));
                assert(!all_contained(list_view(left@), list_view(right@)));
            }
            return false;
        }
        i = i + 1;
    }
    true
}

/// Calls a built-in function or a source routine on argument values.
pub fn eval_call(function: &str, values: Vec<RuntimeValue>, program: &Program) -> (result: Result<
    RuntimeValue,
    MachineError,
>)
    ensures
        outcome(result) == call_value(function@, list_view(values@), *program, MAX_CALL_DEPTH as nat),
{
    call(function, values, program, MAX_CALL_DEPTH)
}

fn call(function: &str, values: Vec<RuntimeValue>, program: &Program, depth: u64) -> (result: Result<
    RuntimeValue,
    MachineError,
>)
    ensures
        outcome(result) == call_value(function@, list_view(values@), *program, depth as nat),
    decreases depth, 0nat, 0nat, values@,
{
    let ghost vs = list_view(values@);
    proof {
        lemma_list_view(values@);
    }
    let n = values.len();
    if str_equal(function, "Ok") && n == 1 {
        return Ok(RuntimeValue::Result(Ok(Box::new(values[0].duplicate()))));
    }
    let first_text = n >= 1 && matches!(values[0], RuntimeValue::Text(_));
    if str_equal(function, "Err") && n == 1 && first_text {
        match &values[0] {
            RuntimeValue::Text(message) => {
                return Ok(RuntimeValue::Result(Err(message.clone())));
            },
            _ => {},
        }
    }
    if str_equal(function, "Some") && n == 1 {
        return Ok(RuntimeValue::Option(Some(Box::new(values[0].duplicate()))));
    }
    if str_equal(function, "Human") && n == 1 {
        return Ok(values[0].duplicate());
    }
    let first_list = n >= 1 && matches!(values[0], RuntimeValue::List(_));
    if str_equal(function, "len") && n == 1 && first_list {
        match &values[0] {
            RuntimeValue::List(items) => {
                proof {
                    lemma_list_view(items@);
                }
                if items.len() as u64 <= 9223372036854775807u64 {
                    return Ok(RuntimeValue::Int(items.len() as i64));
                } else {
                    return Err(type_mismatch("list length"));
                }
            },
            _ => {},
        }
    }
    if str_equal(function, "first") && n == 1 && first_list {
        match &values[0] {
            RuntimeValue::List(items) => {
                proof {
                    lemma_list_view(items@);
                }
                if items.len() == 0 {
                    return Ok(RuntimeValue::Result(Err(String::from_str("empty list"))));
                } else {
                    return Ok(RuntimeValue::Result(Ok(Box::new(items[0].duplicate()))));
                }
            },
            _ => {},
        }
    }
    if str_equal(function, "contains") && n == 2 && first_list {
        match &values[0] {
            RuntimeValue::List(items) => {
                return Ok(RuntimeValue::Bool(list_contains(items, &values[1])));
            },
            _ => {},
        }
    }
    let second_list = n >= 2 && matches!(values[1], RuntimeValue::List(_));
    if str_equal(function, "subset") && n == 2 && first_list && second_list {
        match (&values[0], &values[1]) {
            (RuntimeValue::List(left), RuntimeValue::List(right)) => {
                return Ok(RuntimeValue::Bool(all_in(left, right)));
            },
            _ => {},
        }
    }
    if str_equal(function, "provenance") && n == 1 {
        return match runtime_to_json(&values[0]) {
            Ok(document) => Ok(RuntimeValue::Text(canonical_sha256(&document))),
            Err(e) => Err(e),
        };
    }
    let second_int = n >= 2 && matches!(values[1], RuntimeValue::Int(_));
    if str_equal(function, "add_seconds") && n == 2 && first_text && second_int {
        match (&values[0], &values[1]) {
            (RuntimeValue::Text(instant), RuntimeValue::Int(seconds)) => {
                return match crate::instant::add_seconds(instant.as_str(), *seconds) {
                    Ok(text) => Ok(RuntimeValue::Text(text)),
                    Err(_) => Err(MachineError::InvalidInstant),
                };
            },
            _ => {},
        }
    }
    if program.routine(function).is_some() {
        if depth == 0 {
            return Err(MachineError::InvalidIp);
        }
        return call_routine(function, values, program, depth - 1);
    }
    Err(MachineError::UnsupportedPureExpression)
}

/// Calls a source routine on argument values.
pub fn eval_routine(name: &str, arguments: Vec<RuntimeValue>, program: &Program) -> (result: Result<
    RuntimeValue,
    MachineError,
>)
    ensures
        outcome(result) == routine_call(name@, list_view(arguments@), *program, MAX_CALL_DEPTH as nat),
{
    call_routine(name, arguments, program, MAX_CALL_DEPTH)
}

proof fn lemma_bind_step(parameters: Seq<FieldSpec>, values: Seq<ValueModel>, i: int)
    requires
        0 <= i < parameters.len(),
        i < values.len(),
    ensures
        bind_parameters(parameters.take(i + 1), values.take(i + 1)) == model_insert(
            bind_parameters(parameters.take(i), values.take(i)),
            parameters[i].name@,
            values[i],
        ),
{
    assert(parameters.take(i + 1).take(i) =~= parameters.take(i));
    assert(values.take(i + 1).take(i) =~= values.take(i));
}

proof fn lemma_bind_whole(parameters: Seq<FieldSpec>, values: Seq<ValueModel>, n: int)
    requires
        n == if parameters.len() < values.len() {
            parameters.len() as int
        } else {
            values.len() as int
        },
    ensures
        bind_parameters(parameters, values) == bind_parameters(parameters.take(n), values.take(n)),
{
    if n > 0 {
        assert(parameters.take(n).take(n - 1) =~= parameters.take(n - 1));
        assert(values.take(n).take(n - 1) =~= values.take(n - 1));
    }
}

/// Locals binding parameters to values pairwise.
fn bind_values(parameters: &Vec<FieldSpec>, values: Vec<RuntimeValue>) -> (locals: Vec<
    (String, RuntimeValue),
>)
    ensures
        record_view(locals@) == bind_parameters(parameters@, list_view(values@)),
{
    let ghost vs = list_view(values@);
    proof {
        lemma_list_view(values@);
    }
    let n = if parameters.len() < values.len() {
        parameters.len()
    } else {
        values.len()
    };
    let mut locals: Vec<(String, RuntimeValue)> = Vec::new();
    let mut i: usize = 0;
    proof {
        assert(record_view(locals@) =~= Seq::<(Seq<char>, ValueModel)>::empty());
        assert(bind_parameters(parameters@.take(0), vs.take(0)) =~= Seq::<(Seq<char>, ValueModel)>::empty());
    }
    while i < n
        invariant
            i <= n,
            n <= parameters@.len(),
            n <= values@.len(),
            vs == list_view(values@),
            vs.len() == values@.len(),
            forall|k: int| 0 <= k < values@.len() ==> #[trigger] vs[k] == value_view(values@[k]),
            record_view(locals@) == bind_parameters(parameters@.take(i as int), vs.take(i as int)),
        decreases n - i,
    {
        proof {
            lemma_bind_step(parameters@, vs, i as int);
        }
        record_insert(&mut locals, parameters[i].name.clone(), values[i].duplicate());
        i = i + 1;
    }
    proof {
        lemma_bind_whole(parameters@, vs, n as int);
    }
    locals
}

/// Values of argument slots in order.
fn argument_values(arguments: &Vec<NamedValue>, slots: &Vec<(ValueId, RuntimeValue)>) -> (result: Result<
    Vec<RuntimeValue>,
    MachineError,
>)
    ensures
        match result {
            Ok(values) => slot_values(arguments@, slots_view(slots@)) == Ok::<Seq<ValueModel>, Failure>(
                list_view(values@),
            ),
            Err(e) => slot_values(arguments@, slots_view(slots@)) == Err::<Seq<ValueModel>, Failure>(
                failure(e),
            ),
        },
{
    let ghost sl = slots_view(slots@);
    let mut values: Vec<RuntimeValue> = Vec::new();
    let mut i: usize = 0;
    proof {
        assert(arguments@.take(0) =~= Seq::<NamedValue>::empty());
        assert(list_view(values@) =~= Seq::<ValueModel>::empty());
    }
    while i < arguments.len()
        invariant
            i <= arguments@.len(),
            sl == slots_view(slots@),
            slot_values(arguments@.take(i as int), sl) == Ok::<Seq<ValueModel>, Failure>(
                list_view(values@),
            ),
        decreases arguments@.len() - i,
    {
        proof {
            assert(arguments@.take(i + 1).drop_last() =~= arguments@.take(i as int));
            assert(arguments@.take(i + 1).last() == arguments@[i as int]);
        }
        match slots_get(slots, arguments[i].value) {
            Some(v) => {
                let ghost before = values@;
                values.push(v.duplicate());
                proof {
                    assert(values@.drop_last() =~= before);
                }
            },
            None => {
                proof {
                    lemma_slot_values_failure_persists(arguments@, sl, i + 1);
                }
                return Err(MachineError::UnknownValue);
            },
        }
        i = i + 1;
    }
    proof {
        assert(arguments@.take(arguments@.len() as int) =~= arguments@);
    }
    Ok(values)
}

fn call_routine(name: &str, values: Vec<RuntimeValue>, program: &Program, depth: u64) -> (result: Result<
    RuntimeValue,
    MachineError,
>)
    ensures
        outcome(result) == routine_call(name@, list_view(values@), *program, depth as nat),
    decreases depth, 3nat, 0nat, values@,
{
    let routine = match program.routine(name) {
        Some(r) => r,
        None => {
            return Err(MachineError::UnknownRoutine);
        },
    };
    let locals = bind_values(&routine.parameters, values);
    run(routine, locals, program, depth)
}

fn run(routine: &Routine, locals: Vec<(String, RuntimeValue)>, program: &Program, depth: u64) -> (result: Result<
    RuntimeValue,
    MachineError,
>)
    ensures
        outcome(result) == run_routine(
            *routine,
            record_view(locals@),
            Seq::empty(),
            0,
            ROUTINE_STEP_LIMIT as nat,
            *program,
            depth as nat,
        ),
    decreases depth, 2nat, 0nat, locals@,
{
    let ghost goal = run_routine(
        *routine,
        record_view(locals@),
        Seq::empty(),
        0,
        ROUTINE_STEP_LIMIT as nat,
        *program,
        depth as nat,
    );
    let mut current = locals;
    let mut slots: Vec<(ValueId, RuntimeValue)> = Vec::new();
    let mut ip: usize = 0;
    let mut steps: u64 = ROUTINE_STEP_LIMIT;
    proof {
        assert(slots_view(slots@) =~= Seq::<(u32, ValueModel)>::empty());
    }
    loop
        invariant
            goal == run_routine(
                *routine,
                record_view(locals@),
                Seq::empty(),
                0,
                ROUTINE_STEP_LIMIT as nat,
                *program,
                depth as nat,
            ),
            run_routine(
                *routine,
                record_view(current@),
                slots_view(slots@),
                ip as int,
                steps as nat,
                *program,
                depth as nat,
            ) == goal,
        decreases steps,
    {
        if steps == 0 || ip >= routine.instructions.len() {
            return Err(MachineError::InvalidIp);
        }
        steps = steps - 1;
        match &routine.instructions[ip].kind {
            InstructionKind::Evaluate { target, expression } => {
                match evaluate(expression, &current, &slots, program, depth) {
                    Ok(v) => {
                        slots_insert(&mut slots, *target, v);
                        ip = ip + 1;
                    },
                    Err(e) => {
                        return Err(e);
                    },
                }
            },
            InstructionKind::Bind { name, value } => {
                match slots_get(&slots, *value) {
                    Some(v) => {
                        let bound = v.duplicate();
                        record_insert(&mut current, name.clone(), bound);
                        ip = ip + 1;
                    },
                    None => {
                        return Err(MachineError::UnknownValue);
                    },
                }
            },
            InstructionKind::Call { target, routine: callee, arguments } => {
                let values = match argument_values(arguments, &slots) {
                    Ok(values) => values,
                    Err(e) => {
                        return Err(e);
                    },
                };
                if depth == 0 {
                    return Err(MachineError::InvalidIp);
                }
                match call_routine(callee.as_str(), values, program, depth - 1) {
                    Ok(v) => {
                        slots_insert(&mut slots, *target, v);
                        ip = ip + 1;
                    },
                    Err(e) => {
                        return Err(e);
                    },
                }
            },
            InstructionKind::Branch { condition, then_target, else_target } => {
                match slots_get(&slots, *condition) {
                    Some(RuntimeValue::Bool(true)) => {
                        ip = *then_target as usize;
                    },
                    Some(RuntimeValue::Bool(false)) => {
                        ip = *else_target as usize;
                    },
                    _ => {
                        return Err(type_mismatch("branch condition"));
                    },
                }
            },
            InstructionKind::Jump { target } => {
                ip = *target as usize;
            },
            InstructionKind::Return { value } => {
                return match slots_get(&slots, *value) {
                    Some(v) => Ok(v.duplicate()),
                    None => Err(MachineError::UnknownValue),
                };
            },
            _ => {
                return Err(MachineError::EffectInPureRoutine);
            },
        }
    }
}

/// Most alias expansions decoding follows without consuming input.
pub const ALIAS_LIMIT: u64 = 1024;

/// Position of the first member with key `key`, if any.
pub open spec fn member_position(members: Seq<(Seq<char>, JsonModel)>, key: Seq<char>) -> Option<int>
    decreases members.len(),
{
    if members.len() == 0 {
        None
    } else {
        match member_position(members.drop_last(), key) {
            Some(i) => Some(i),
            None => if members.last().0 == key {
                Some(members.len() - 1)
            } else {
                None
            },
        }
    }
}

pub proof fn lemma_member_position(members: Seq<(Seq<char>, JsonModel)>, key: Seq<char>)
    ensures
        match member_position(members, key) {
            Some(i) => 0 <= i < members.len() && members[i].0 == key && forall|j: int|
                0 <= j < i ==> members[j].0 != key,
            None => forall|j: int| 0 <= j < members.len() ==> members[j].0 != key,
        },
    decreases members.len(),
{
    if members.len() > 0 {
        let prefix = members.drop_last();
        lemma_member_position(prefix, key);
        assert(forall|j: int| 0 <= j < prefix.len() ==> prefix[j] == members[j]);
    }
}

/// Index of the first member with key `key`.
pub fn member_index(members: &Vec<(String, JsonValue)>, key: &str) -> (index: Option<usize>)
    ensures
        match index {
            Some(i) => member_position(members_view(members@), key@) == Some(i as int),
            None => member_position(members_view(members@), key@) is None,
        },
{
    let ghost view = members_view(members@);
    proof {
        lemma_members_view(members@);
        lemma_member_position(view, key@);
    }
    let mut i: usize = 0;
    while i < members.len()
        invariant
            i <= members@.len(),
            view == members_view(members@),
            view.len() == members@.len(),
            forall|k: int| 0 <= k < members@.len() ==> #[trigger] view[k] == (
                members@[k].0@,
                json_view(members@[k].1),
            ),
            forall|k: int| 0 <= k < i ==> view[k].0 != key@,
            match member_position(view, key@) {
                Some(p) => 0 <= p < view.len() && view[p].0 == key@ && forall|j: int|
                    0 <= j < p ==> view[j].0 != key@,
                None => forall|j: int| 0 <= j < view.len() ==> view[j].0 != key@,
            },
        decreases members@.len() - i,
    {
        if str_equal(members[i].0.as_str(), key) {
            proof {
                assert(view[i as int].0 == key@);
                match member_position(view, key@) {
                    Some(p) => {
                        if p < i {
                            assert(view[p].0 != key@);
                        } else if p > i {
                            assert(view[i as int].0 != key@);
                        }
                    },
                    None => {
                        assert(view[i as int].0 != key@);
                    },
                }
            }
            return Some(i);
        }
        i = i + 1;
    }
    proof {
        match member_position(view, key@) {
            Some(p) => {
                assert(view[p].0 != key@);
            },
            None => {},
        }
    }
    None
}

/// Whether some member's key names none of the fields.
pub open spec fn has_unknown_member(members: Seq<(Seq<char>, JsonModel)>, fields: Seq<FieldSpec>) -> bool {
    exists|i: int| 0 <= i < members.len() && !names_field(fields, #[trigger] members[i].0)
}

/// Whether some field is named `key`.
pub open spec fn names_field(fields: Seq<FieldSpec>, key: Seq<char>) -> bool {
    exists|j: int| 0 <= j < fields.len() && #[trigger] fields[j].name@ == key
}

/// The runtime value of a document at a boundary type: aliases expanded,
/// `Incoming` and `Untrusted` wrapping, `Option` with null as absent,
/// lists, scalars, instants validated, and records with exactly their
/// declared fields.
pub open spec fn decode_value(document: JsonModel, ty: TypeSpec, program: Program, fuel: nat) -> Result<
    ValueModel,
    Failure,
>
    decreases document, fuel, ty,
{
    match lookup(program.catalog.aliases@, ty.name@) {
        Some(target) => if fuel == 0 {
            Err(mismatch(ty.name@))
        } else {
            decode_value(document, target, program, (fuel - 1) as nat)
        },
        None => {
            let name = ty.name@;
            let args = ty.arguments@;
            if name == "Incoming"@ && args.len() == 1 {
                match decode_value(document, args[0], program, fuel) {
                    Ok(v) => Ok(ValueModel::Incoming(Box::new(v))),
                    Err(e) => Err(e),
                }
            } else if name == "Untrusted"@ && args.len() == 1 {
                match decode_value(document, args[0], program, fuel) {
                    Ok(v) => Ok(ValueModel::Untrusted(Box::new(v))),
                    Err(e) => Err(e),
                }
            } else if name == "Option"@ && args.len() == 1 {
                if document is Null {
                    Ok(ValueModel::Optional(None))
                } else {
                    match decode_value(document, args[0], program, fuel) {
                        Ok(v) => Ok(ValueModel::Optional(Some(Box::new(v)))),
                        Err(e) => Err(e),
                    }
                }
            } else if name == "List"@ && args.len() == 1 {
                match document {
                    JsonModel::Array(items) => match decode_items(items, args[0], program) {
                        Ok(values) => Ok(ValueModel::List(values)),
                        Err(e) => Err(e),
                    },
                    _ => Err(mismatch("List"@)),
                }
            } else if name == "Unit"@ && args.len() == 0 && document is Null {
                Ok(ValueModel::Unit)
            } else if name == "Bool"@ && args.len() == 0 {
                match document {
                    JsonModel::Bool(b) => Ok(ValueModel::Bool(b)),
                    _ => Err(mismatch("Bool"@)),
                }
            } else if (name == "Int"@ || name == "Duration"@) && args.len() == 0 {
                match document {
                    JsonModel::Int(n) => Ok(ValueModel::Int(n)),
                    _ => Err(mismatch(name)),
                }
            } else if (name == "Text"@ || name == "Error"@) && args.len() == 0 {
                match document {
                    JsonModel::Text(t) => Ok(ValueModel::Text(t)),
                    _ => Err(mismatch(name)),
                }
            } else if name == "Instant"@ && args.len() == 0 {
                match document {
                    JsonModel::Text(t) => if instant_fields(utf8_of(t)) is Some {
                        Ok(ValueModel::Text(t))
                    } else {
                        Err(Failure::InvalidInstant)
                    },
                    _ => Err(mismatch("Instant"@)),
                }
            } else if args.len() == 0 && lookup(program.catalog.records@, name) is Some {
                let fields = lookup(program.catalog.records@, name)->Some_0@;
                match document {
                    JsonModel::Object(members) => if has_unknown_member(members, fields) {
                        Err(mismatch("unknown field in "@ + name))
                    } else {
                        match decode_fields(fields, members, program) {
                            Ok(values) => Ok(ValueModel::Record(values)),
                            Err(e) => Err(e),
                        }
                    },
                    _ => Err(mismatch(name)),
                }
            } else {
                Err(mismatch(name))
            }
        },
    }
}

/// Runtime values of list documents at one element type; the first failure
/// stops.
pub open spec fn decode_items(items: Seq<JsonModel>, ty: TypeSpec, program: Program) -> Result<
    Seq<ValueModel>,
    Failure,
>
    decreases items, 0nat, ty,
{
    if items.len() == 0 {
        Ok(Seq::empty())
    } else {
        match decode_items(items.drop_last(), ty, program) {
            Ok(values) => match decode_value(items.last(), ty, program, ALIAS_LIMIT as nat) {
                Ok(v) => Ok(values.push(v)),
                Err(e) => Err(e),
            },
            Err(e) => Err(e),
        }
    }
}

/// Record members decoded field by field from an object's members, in
/// field order; a field without a member is a missing input.
pub open spec fn decode_fields(
    fields: Seq<FieldSpec>,
    members: Seq<(Seq<char>, JsonModel)>,
    program: Program,
) -> Result<Seq<(Seq<char>, ValueModel)>, Failure>
    decreases members, 0nat, fields,
{
    if fields.len() == 0 {
        Ok(Seq::empty())
    } else {
        match decode_fields(fields.drop_last(), members, program) {
            Ok(values) => {
                let field = fields.last();
                match member_position(members, field.name@) {
                    None => Err(Failure::MissingInput(field.name@)),
                    Some(i) => {
                        proof {
                            lemma_member_position(members, field.name@);
                        }
                        match decode_value(members[i].1, field.ty, program, ALIAS_LIMIT as nat) {
                            Ok(v) => Ok(model_insert(values, field.name@, v)),
                            Err(e) => Err(e),
                        }
                    },
                }
            },
            Err(e) => Err(e),
        }
    }
}

/// Whether some field is named `key`.
fn field_named(fields: &Vec<FieldSpec>, key: &str) -> (named: bool)
    ensures
        named == names_field(fields@, key@),
{
    let mut j: usize = 0;
    while j < fields.len()
        invariant
            j <= fields@.len(),
            forall|k: int| 0 <= k < j ==> fields@[k].name@ != key@,
        decreases fields@.len() - j,
    {
        if str_equal(fields[j].name.as_str(), key) {
            return true;
        }
        j = j + 1;
    }
    false
}

/// Whether some member's key names none of the fields.
fn unknown_member(members: &Vec<(String, JsonValue)>, fields: &Vec<FieldSpec>) -> (unknown: bool)
    ensures
        unknown == has_unknown_member(members_view(members@), fields@),
{
    let ghost view = members_view(members@);
    proof {
        lemma_members_view(members@);
    }
    let mut i: usize = 0;
    while i < members.len()
        invariant
            i <= members@.len(),
            view == members_view(members@),
            view.len() == members@.len(),
            forall|k: int| 0 <= k < members@.len() ==> #[trigger] view[k] == (
                members@[k].0@,
                json_view(members@[k].1),
            ),
            forall|k: int| 0 <= k < i ==> names_field(fields@, #[trigger] view[k].0),
        decreases members@.len() - i,
    {
        if !field_named(fields, members[i].0.as_str()) {
            proof {
                assert(!names_field(fields@, view[i as int].0));
            }
            return true;
        }
        i = i + 1;
    }
    false
}

/// Decodes a document at a boundary type.
pub fn decode_json(document: &JsonValue, ty: &TypeSpec, program: &Program) -> (result: Result<
    RuntimeValue,
    MachineError,
>)
    ensures
        outcome(result) == decode_value(document@, *ty, *program, ALIAS_LIMIT as nat),
{
    decode_at(document, ty, program, ALIAS_LIMIT)
}

fn decode_at(document: &JsonValue, ty: &TypeSpec, program: &Program, fuel: u64) -> (result: Result<
    RuntimeValue,
    MachineError,
>)
    ensures
        outcome(result) == decode_value(document@, *ty, *program, fuel as nat),
    decreases document, fuel, ty,
{
    match find(&program.catalog.aliases, ty.name.as_str()) {
        Some(a) => {
            proof {
                lemma_position_bounds(program.catalog.aliases@, ty.name@);
            }
            if fuel == 0 {
                return Err(MachineError::TypeMismatch(ty.name.clone()));
            }
            return decode_at(document, &program.catalog.aliases[a].1, program, fuel - 1);
        },
        None => {},
    }
    let name = ty.name.as_str();
    let n = ty.arguments.len();
    if str_equal(name, "Incoming") && n == 1 {
        match decode_at(document, &ty.arguments[0], program, fuel) {
            Ok(v) => Ok(RuntimeValue::Incoming(Box::new(v))),
            Err(e) => Err(e),
        }
    } else if str_equal(name, "Untrusted") && n == 1 {
        match decode_at(document, &ty.arguments[0], program, fuel) {
            Ok(v) => Ok(RuntimeValue::Untrusted(Box::new(v))),
            Err(e) => Err(e),
        }
    } else if str_equal(name, "Option") && n == 1 {
        if matches!(document, JsonValue::Null) {
            Ok(RuntimeValue::Option(None))
        } else {
            match decode_at(document, &ty.arguments[0], program, fuel) {
                Ok(v) => Ok(RuntimeValue::Option(Some(Box::new(v)))),
                Err(e) => Err(e),
            }
        }
    } else if str_equal(name, "List") && n == 1 {
        match document {
            JsonValue::Array(items) => match decode_array(items, &ty.arguments[0], program) {
                Ok(values) => Ok(RuntimeValue::List(values)),
                Err(e) => Err(e),
            },
            _ => Err(type_mismatch("List")),
        }
    } else if str_equal(name, "Unit") && n == 0 && matches!(document, JsonValue::Null) {
        Ok(RuntimeValue::Unit)
    } else if str_equal(name, "Bool") && n == 0 {
        match document {
            JsonValue::Bool(b) => Ok(RuntimeValue::Bool(*b)),
            _ => Err(type_mismatch("Bool")),
        }
    } else if (str_equal(name, "Int") || str_equal(name, "Duration")) && n == 0 {
        match document {
            JsonValue::Int(v) => Ok(RuntimeValue::Int(*v)),
            _ => Err(MachineError::TypeMismatch(ty.name.clone())),
        }
    } else if (str_equal(name, "Text") || str_equal(name, "Error")) && n == 0 {
        match document {
            JsonValue::String(t) => Ok(RuntimeValue::Text(t.clone())),
            _ => Err(MachineError::TypeMismatch(ty.name.clone())),
        }
    } else if str_equal(name, "Instant") && n == 0 {
        match document {
            JsonValue::String(t) => match crate::instant::validate_instant(t.as_str()) {
                Ok(()) => Ok(RuntimeValue::Text(t.clone())),
                Err(_) => Err(MachineError::InvalidInstant),
            },
            _ => Err(type_mismatch("Instant")),
        }
    } else {
        let record = if n == 0 {
            find(&program.catalog.records, name)
        } else {
            None
        };
        proof {
            lemma_position_bounds(program.catalog.records@, name@);
        }
        match record {
            Some(r) => {
                let fields = &program.catalog.records[r].1;
                match document {
                    JsonValue::Object(members) => {
                        if unknown_member(members, fields) {
                            let mut message = String::from_str("unknown field in ");
                            push_str(&mut message, name);
                            return Err(MachineError::TypeMismatch(message));
                        }
                        match decode_object(fields, members, program) {
                            Ok(values) => Ok(RuntimeValue::Record(values)),
                            Err(e) => Err(e),
                        }
                    },
                    _ => Err(MachineError::TypeMismatch(ty.name.clone())),
                }
            },
            None => Err(MachineError::TypeMismatch(ty.name.clone())),
        }
    }
}

fn decode_array(items: &Vec<JsonValue>, ty: &TypeSpec, program: &Program) -> (result: Result<
    Vec<RuntimeValue>,
    MachineError,
>)
    ensures
        match result {
            Ok(values) => decode_items(items_view(items@), *ty, *program) == Ok::<Seq<ValueModel>, Failure>(
                list_view(values@),
            ),
            Err(e) => decode_items(items_view(items@), *ty, *program) == Err::<Seq<ValueModel>, Failure>(
                failure(e),
            ),
        },
    decreases items@, 0nat, ty,
{
    let ghost view = items_view(items@);
    proof {
        lemma_items_view(items@);
        assert(view.take(0) =~= Seq::<JsonModel>::empty());
    }
    let mut values: Vec<RuntimeValue> = Vec::new();
    let mut i: usize = 0;
    proof {
        assert(list_view(values@) =~= Seq::<ValueModel>::empty());
    }
    while i < items.len()
        invariant
            i <= items@.len(),
            view == items_view(items@),
            view.len() == items@.len(),
            forall|k: int| 0 <= k < items@.len() ==> #[trigger] view[k] == json_view(items@[k]),
            decode_items(view.take(i as int), *ty, *program) == Ok::<Seq<ValueModel>, Failure>(
                list_view(values@),
            ),
        decreases items@.len() - i,
    {
        proof {
            assert(view.take(i + 1).drop_last() =~= view.take(i as int));
            assert(view.take(i + 1).last() == view[i as int]);
        }
        match decode_at(&items[i], ty, program, ALIAS_LIMIT) {
            Ok(v) => {
                let ghost before = values@;
                values.push(v);
                proof {
                    assert(values@.drop_last() =~= before);
                }
            },
            Err(e) => {
                proof {
                    lemma_decode_items_failure_persists(view, *ty, *program, i + 1);
                }
                return Err(e);
            },
        }
        i = i + 1;
    }
    proof {
        assert(view.take(items@.len() as int) =~= view);
    }
    Ok(values)
}

proof fn lemma_decode_items_failure_persists(items: Seq<JsonModel>, ty: TypeSpec, program: Program, n: int)
    requires
        0 <= n <= items.len(),
        decode_items(items.take(n), ty, program) is Err,
    ensures
        decode_items(items, ty, program) == decode_items(items.take(n), ty, program),
    decreases items.len() - n,
{
    if n < items.len() {
        assert(items.take(n + 1).drop_last() =~= items.take(n));
        lemma_decode_items_failure_persists(items, ty, program, n + 1);
    } else {
        assert(items.take(n) =~= items);
    }
}

proof fn lemma_decode_fields_failure_persists(
    fields: Seq<FieldSpec>,
    members: Seq<(Seq<char>, JsonModel)>,
    program: Program,
    n: int,
)
    requires
        0 <= n <= fields.len(),
        decode_fields(fields.take(n), members, program) is Err,
    ensures
        decode_fields(fields, members, program) == decode_fields(fields.take(n), members, program),
    decreases fields.len() - n,
{
    if n < fields.len() {
        assert(fields.take(n + 1).drop_last() =~= fields.take(n));
        lemma_decode_fields_failure_persists(fields, members, program, n + 1);
    } else {
        assert(fields.take(n) =~= fields);
    }
}

fn decode_object(fields: &Vec<FieldSpec>, members: &Vec<(String, JsonValue)>, program: &Program) -> (result: Result<
    Vec<(String, RuntimeValue)>,
    MachineError,
>)
    ensures
        match result {
            Ok(values) => decode_fields(fields@, members_view(members@), *program) == Ok::<
                Seq<(Seq<char>, ValueModel)>,
                Failure,
            >(record_view(values@)),
            Err(e) => decode_fields(fields@, members_view(members@), *program) == Err::<
                Seq<(Seq<char>, ValueModel)>,
                Failure,
            >(failure(e)),
        },
    decreases members@, 0nat, fields@,
{
    let ghost view = members_view(members@);
    proof {
        lemma_members_view(members@);
        assert(fields@.take(0) =~= Seq::<FieldSpec>::empty());
    }
    let mut values: Vec<(String, RuntimeValue)> = Vec::new();
    let mut k: usize = 0;
    proof {
        assert(record_view(values@) =~= Seq::<(Seq<char>, ValueModel)>::empty());
    }
    while k < fields.len()
        invariant
            k <= fields@.len(),
            view == members_view(members@),
            view.len() == members@.len(),
            forall|j: int| 0 <= j < members@.len() ==> #[trigger] view[j] == (
                members@[j].0@,
                json_view(members@[j].1),
            ),
            decode_fields(fields@.take(k as int), view, *program) == Ok::<
                Seq<(Seq<char>, ValueModel)>,
                Failure,
            >(record_view(values@)),
        decreases fields@.len() - k,
    {
        proof {
            assert(fields@.take(k + 1).drop_last() =~= fields@.take(k as int));
            assert(fields@.take(k + 1).last() == fields@[k as int]);
            lemma_member_position(view, fields@[k as int].name@);
        }
        let index = match member_index(members, fields[k].name.as_str()) {
            Some(i) => i,
            None => {
                proof {
                    lemma_decode_fields_failure_persists(fields@, view, *program, k + 1);
                }
                return Err(MachineError::MissingInput(fields[k].name.clone()));
            },
        };
        match decode_at(&members[index].1, &fields[k].ty, program, ALIAS_LIMIT) {
            Ok(v) => {
                record_insert(&mut values, fields[k].name.clone(), v);
            },
            Err(e) => {
                proof {
                    lemma_decode_fields_failure_persists(fields@, view, *program, k + 1);
                }
                return Err(e);
            },
        }
        k = k + 1;
    }
    proof {
        assert(fields@.take(fields@.len() as int) =~= fields@);
    }
    Ok(values)
}

/// What a matching pattern binds.
#[derive(Debug, PartialEq, Eq)]
pub enum PatternBinding {
    Unbound,
    Bound(String, Box<RuntimeValue>),
}

/// The content of a pattern binding.
pub enum BindingModel {
    Unbound,
    Bound(Seq<char>, ValueModel),
}

/// The content of a pattern binding.
pub open spec fn binding_model(binding: PatternBinding) -> BindingModel {
    match binding {
        PatternBinding::Unbound => BindingModel::Unbound,
        PatternBinding::Bound(name, value) => BindingModel::Bound(name@, value_view(*value)),
    }
}

/// The variant a pattern path names: its last dot-separated segment.
pub open spec fn path_variant(path: Seq<char>) -> Seq<char> {
    let segments = split_dots(path);
    segments[segments.len() - 1]
}

/// Whether and how a value matches a pattern: the wildcard matches
/// anything; `None`, `Some`, `Ok` and `Err` match the option or result of
/// that shape, binding the payload (an error's message as text) to the
/// pattern's name, if it has one.
pub open spec fn pattern_match(value: ValueModel, pattern: PatternSpec) -> Option<BindingModel> {
    match pattern {
        PatternSpec::Wildcard => Some(BindingModel::Unbound),
        PatternSpec::Variant { path, binding } => {
            let variant = path_variant(path@);
            let payload: Option<Option<ValueModel>> = match value {
                ValueModel::Optional(None) => if variant == "None"@ {
                    Some(None)
                } else {
                    None
                },
                ValueModel::Optional(Some(v)) => if variant == "Some"@ {
                    Some(Some(*v))
                } else {
                    None
                },
                ValueModel::Outcome(Ok(v)) => if variant == "Ok"@ {
                    Some(Some(*v))
                } else {
                    None
                },
                ValueModel::Outcome(Err(message)) => if variant == "Err"@ {
                    Some(Some(ValueModel::Text(message)))
                } else {
                    None
                },
                _ => None,
            };
            match payload {
                None => None,
                Some(p) => Some(
                    match (binding, p) {
                        (Some(name), Some(v)) => BindingModel::Bound(name@, v),
                        _ => BindingModel::Unbound,
                    },
                ),
            }
        },
    }
}

/// Matches a value against a pattern.
pub fn match_pattern(value: &RuntimeValue, pattern: &PatternSpec) -> (binding: Option<PatternBinding>)
    ensures
        match binding {
            Some(b) => pattern_match(value@, *pattern) == Some(binding_model(b)),
            None => pattern_match(value@, *pattern) is None,
        },
{
    match pattern {
        PatternSpec::Wildcard => Some(PatternBinding::Unbound),
        PatternSpec::Variant { path, binding } => {
            let segments = split_path(path.as_str());
            proof {
                lemma_split_dots_nonempty(path@);
                assert(string_views(segments@).len() == segments@.len());
                assert(string_views(segments@)[segments@.len() - 1] == segments@[segments@.len() - 1]@);
            }
            let variant = segments[segments.len() - 1].as_str();
            let payload: Option<Option<RuntimeValue>> = match value {
                RuntimeValue::Option(None) => if str_equal(variant, "None") {
                    Some(None)
                } else {
                    None
                },
                RuntimeValue::Option(Some(v)) => if str_equal(variant, "Some") {
                    Some(Some((**v).duplicate()))
                } else {
                    None
                },
                RuntimeValue::Result(Ok(v)) => if str_equal(variant, "Ok") {
                    Some(Some((**v).duplicate()))
                } else {
                    None
                },
                RuntimeValue::Result(Err(message)) => if str_equal(variant, "Err") {
                    Some(Some(RuntimeValue::Text(message.clone())))
                } else {
                    None
                },
                _ => None,
            };
            match payload {
                None => None,
                Some(p) => Some(
                    match (binding, p) {
                        (Some(name), Some(v)) => PatternBinding::Bound(name.clone(), Box::new(v)),
                        _ => PatternBinding::Unbound,
                    },
                ),
            }
        },
    }
}

/// Whether every requirement of a validator evaluates to `true` under its
/// bindings; requirements are checked in order, and the first failing
/// evaluation or non-`true` result decides.
pub open spec fn requirements_verdict(
    requirements: Seq<PureExpression>,
    locals: Seq<(Seq<char>, ValueModel)>,
    program: Program,
) -> Result<bool, Failure>
    decreases requirements.len(),
{
    if requirements.len() == 0 {
        Ok(true)
    } else {
        match requirements_verdict(requirements.drop_last(), locals, program) {
            Ok(true) => match eval_pure(
                requirements.last(),
                locals,
                Seq::empty(),
                program,
                MAX_CALL_DEPTH as nat,
            ) {
                Ok(v) => Ok(v == ValueModel::Bool(true)),
                Err(e) => Err(e),
            },
            other => other,
        }
    }
}

/// Whether the named validator accepts values bound to its parameters.
pub open spec fn validator_verdict(program: Program, name: Seq<char>, values: Seq<ValueModel>) -> Result<
    bool,
    Failure,
> {
    match lookup(program.catalog.validators@, name) {
        None => Err(Failure::UnknownValidator),
        Some(validator) => requirements_verdict(
            validator.requirements@,
            bind_parameters(validator.parameters@, values),
            program,
        ),
    }
}

proof fn lemma_requirements_settled(
    requirements: Seq<PureExpression>,
    locals: Seq<(Seq<char>, ValueModel)>,
    program: Program,
    n: int,
)
    requires
        0 <= n <= requirements.len(),
        requirements_verdict(requirements.take(n), locals, program) != Ok::<bool, Failure>(true),
    ensures
        requirements_verdict(requirements, locals, program) == requirements_verdict(
            requirements.take(n),
            locals,
            program,
        ),
    decreases requirements.len() - n,
{
    if n < requirements.len() {
        assert(requirements.take(n + 1).drop_last() =~= requirements.take(n));
        lemma_requirements_settled(requirements, locals, program, n + 1);
    } else {
        assert(requirements.take(n) =~= requirements);
    }
}

/// Whether the named validator accepts the values.
pub fn validator_accepts(program: &Program, name: &str, values: Vec<RuntimeValue>) -> (result: Result<
    bool,
    MachineError,
>)
    ensures
        match result {
            Ok(b) => validator_verdict(*program, name@, list_view(values@)) == Ok::<bool, Failure>(b),
            Err(e) => validator_verdict(*program, name@, list_view(values@)) == Err::<bool, Failure>(
                failure(e),
            ),
        },
{
    let index = match find(&program.catalog.validators, name) {
        Some(i) => i,
        None => {
            return Err(MachineError::UnknownValidator);
        },
    };
    proof {
        lemma_position_bounds(program.catalog.validators@, name@);
    }
    let validator = &program.catalog.validators[index].1;
    let locals = bind_values(&validator.parameters, values);
    let slots: Vec<(ValueId, RuntimeValue)> = Vec::new();
    let ghost l = record_view(locals@);
    let ghost requirements = validator.requirements@;
    proof {
        assert(slots_view(slots@) =~= Seq::<(u32, ValueModel)>::empty());
        assert(requirements.take(0) =~= Seq::<PureExpression>::empty());
    }
    let mut i: usize = 0;
    while i < validator.requirements.len()
        invariant
            i <= requirements.len(),
            requirements == validator.requirements@,
            l == record_view(locals@),
            validator_verdict(*program, name@, list_view(values@)) == requirements_verdict(
                requirements,
                l,
                *program,
            ),
            slots_view(slots@) == Seq::<(u32, ValueModel)>::empty(),
            requirements_verdict(requirements.take(i as int), l, *program) == Ok::<bool, Failure>(true),
        decreases requirements.len() - i,
    {
        proof {
            assert(requirements.take(i + 1).drop_last() =~= requirements.take(i as int));
            assert(requirements.take(i + 1).last() == requirements[i as int]);
        }
        match eval_expression(&validator.requirements[i], &locals, &slots, program) {
            Ok(v) => {
                let accepted = match v {
                    RuntimeValue::Bool(b) => b,
                    _ => false,
                };
                if !accepted {
                    proof {
                        assert(v@ != ValueModel::Bool(true));
                        lemma_requirements_settled(requirements, l, *program, i + 1);
                    }
                    return Ok(false);
                }
            },
            Err(e) => {
                proof {
                    lemma_requirements_settled(requirements, l, *program, i + 1);
                }
                return Err(e);
            },
        }
        i = i + 1;
    }
    proof {
        assert(requirements.take(requirements.len() as int) =~= requirements);
    }
    Ok(true)
}

/// A policy's runtime decision.
#[derive(Debug, PartialEq, Eq)]
pub enum PolicyRuntimeDecision {
    Allow,
    Approve(Box<RuntimeValue>),
    Deny(String),
}

/// The content of a policy decision.
pub enum DecisionModel {
    Allow,
    Approve(ValueModel),
    Deny(Seq<char>),
}

/// The content of a policy decision.
pub open spec fn decision_model(decision: PolicyRuntimeDecision) -> DecisionModel {
    match decision {
        PolicyRuntimeDecision::Allow => DecisionModel::Allow,
        PolicyRuntimeDecision::Approve(v) => DecisionModel::Approve(value_view(*v)),
        PolicyRuntimeDecision::Deny(reason) => DecisionModel::Deny(reason@),
    }
}

/// What a matched rule decides: allow, approval by the evaluated principal,
/// or denial with the evaluated text reason.
pub open spec fn rule_decision(
    decision: PolicyDecisionSpec,
    locals: Seq<(Seq<char>, ValueModel)>,
    program: Program,
) -> Result<DecisionModel, Failure> {
    match decision {
        PolicyDecisionSpec::Allow => Ok(DecisionModel::Allow),
        PolicyDecisionSpec::Approve(principal) => match eval_pure(
            principal,
            locals,
            Seq::empty(),
            program,
            MAX_CALL_DEPTH as nat,
        ) {
            Ok(v) => Ok(DecisionModel::Approve(v)),
            Err(e) => Err(e),
        },
        PolicyDecisionSpec::Deny(reason) => match eval_pure(
            reason,
            locals,
            Seq::empty(),
            program,
            MAX_CALL_DEPTH as nat,
        ) {
            Ok(ValueModel::Text(t)) => Ok(DecisionModel::Deny(t)),
            Ok(_) => Err(mismatch("policy reason"@)),
            Err(e) => Err(e),
        },
    }
}

/// The decision of the first rule whose condition holds, rules taken in
/// order; a rule without a condition always holds, and no holding rule
/// means the policy was not total.
pub open spec fn rules_verdict(
    rules: Seq<PolicyRuleSpec>,
    locals: Seq<(Seq<char>, ValueModel)>,
    program: Program,
) -> Result<DecisionModel, Failure>
    decreases rules.len(),
{
    if rules.len() == 0 {
        Err(Failure::NonTotalPolicy)
    } else {
        let matched = match rules[0].condition {
            Some(condition) => match eval_pure(
                condition,
                locals,
                Seq::empty(),
                program,
                MAX_CALL_DEPTH as nat,
            ) {
                Ok(v) => Ok(v == ValueModel::Bool(true)),
                Err(e) => Err(e),
            },
            None => Ok(true),
        };
        match matched {
            Err(e) => Err(e),
            Ok(true) => rule_decision(rules[0].decision, locals, program),
            Ok(false) => rules_verdict(rules.drop_first(), locals, program),
        }
    }
}

/// The decision of the named policy on a proposal, its second parameter
/// bound to the `self` local of the frame.
pub open spec fn policy_verdict(
    program: Program,
    name: Seq<char>,
    proposal: ProposalModel,
    frame_locals: Seq<(Seq<char>, ValueModel)>,
) -> Result<DecisionModel, Failure> {
    match lookup(program.catalog.policies@, name) {
        None => Err(Failure::UnknownPolicy),
        Some(policy) => match model_lookup(frame_locals, "self"@) {
            None => Err(Failure::UnknownValue),
            Some(state) => rules_verdict(
                policy.rules@,
                bind_parameters(policy.parameters@, seq![ValueModel::Proposal(proposal), state]),
                program,
            ),
        },
    }
}

fn decide_rule(
    decision: &PolicyDecisionSpec,
    locals: &Vec<(String, RuntimeValue)>,
    slots: &Vec<(ValueId, RuntimeValue)>,
    program: &Program,
) -> (result: Result<PolicyRuntimeDecision, MachineError>)
    requires
        slots_view(slots@) == Seq::<(u32, ValueModel)>::empty(),
    ensures
        match result {
            Ok(d) => rule_decision(*decision, record_view(locals@), *program) == Ok::<
                DecisionModel,
                Failure,
            >(decision_model(d)),
            Err(e) => rule_decision(*decision, record_view(locals@), *program) == Err::<
                DecisionModel,
                Failure,
            >(failure(e)),
        },
{
    match decision {
        PolicyDecisionSpec::Allow => Ok(PolicyRuntimeDecision::Allow),
        PolicyDecisionSpec::Approve(principal) => match eval_expression(principal, locals, slots, program) {
            Ok(v) => Ok(PolicyRuntimeDecision::Approve(Box::new(v))),
            Err(e) => Err(e),
        },
        PolicyDecisionSpec::Deny(reason) => match eval_expression(reason, locals, slots, program) {
            Ok(RuntimeValue::Text(t)) => Ok(PolicyRuntimeDecision::Deny(t)),
            Ok(_) => Err(type_mismatch("policy reason")),
            Err(e) => Err(e),
        },
    }
}

/// Evaluates the named policy on a proposal with the frame's locals.
pub fn policy_decision(
    program: &Program,
    name: &str,
    proposal: &Proposal,
    frame_locals: &Vec<(String, RuntimeValue)>,
) -> (result: Result<PolicyRuntimeDecision, MachineError>)
    ensures
        match result {
            Ok(d) => policy_verdict(
                *program,
                name@,
                crate::runtime_value::proposal_model(*proposal),
                record_view(frame_locals@),
            ) == Ok::<DecisionModel, Failure>(decision_model(d)),
            Err(e) => policy_verdict(
                *program,
                name@,
                crate::runtime_value::proposal_model(*proposal),
                record_view(frame_locals@),
            ) == Err::<DecisionModel, Failure>(failure(e)),
        },
{
    let index = match find(&program.catalog.policies, name) {
        Some(i) => i,
        None => {
            return Err(MachineError::UnknownPolicy);
        },
    };
    proof {
        lemma_position_bounds(program.catalog.policies@, name@);
    }
    let policy = &program.catalog.policies[index].1;
    let state = match record_get(frame_locals, "self") {
        Some(v) => v.duplicate(),
        None => {
            return Err(MachineError::UnknownValue);
        },
    };
    let bound = vec![RuntimeValue::Proposal(crate::runtime_value::duplicate_proposal(proposal)), state];
    proof {
        lemma_list_view(bound@);
        assert(list_view(bound@) =~= seq![
            ValueModel::Proposal(crate::runtime_value::proposal_model(*proposal)),
            value_view(bound@[1]),
        ]);
    }
    let locals = bind_values(&policy.parameters, bound);
    let slots: Vec<(ValueId, RuntimeValue)> = Vec::new();
    let ghost l = record_view(locals@);
    let ghost rules = policy.rules@;
    proof {
        assert(slots_view(slots@) =~= Seq::<(u32, ValueModel)>::empty());
        assert(rules.skip(0) =~= rules);
    }
    let mut i: usize = 0;
    while i < policy.rules.len()
        invariant
            i <= rules.len(),
            rules == policy.rules@,
            l == record_view(locals@),
            policy_verdict(
                *program,
                name@,
                crate::runtime_value::proposal_model(*proposal),
                record_view(frame_locals@),
            ) == rules_verdict(rules, l, *program),
            slots_view(slots@) == Seq::<(u32, ValueModel)>::empty(),
            rules_verdict(rules, l, *program) == rules_verdict(rules.skip(i as int), l, *program),
        decreases rules.len() - i,
    {
        proof {
            assert(rules.skip(i as int)[0] == rules[i as int]);
            assert(rules.skip(i as int).drop_first() =~= rules.skip(i + 1));
        }
        let rule = &policy.rules[i];
        let matched = match &rule.condition {
            Some(condition) => match eval_expression(condition, &locals, &slots, program) {
                Ok(v) => match v {
                    RuntimeValue::Bool(b) => b,
                    _ => false,
                },
                Err(e) => {
                    return Err(e);
                },
            },
            None => true,
        };
        if matched {
            return decide_rule(&rule.decision, &locals, &slots, program);
        }
        i = i + 1;
    }
    proof {
        assert(rules.skip(i as int) =~= Seq::<PolicyRuleSpec>::empty());
    }
    Err(MachineError::NonTotalPolicy)
}

/// A value holding a secret handle has no JSON document: secrets never
/// leave the runtime through a JSON boundary.
pub proof fn lemma_secrets_never_serialize(value: ValueModel)
    requires
        holds_secret(value),
    ensures
        value_json(value) is Err,
    decreases value, 1nat,
{
    match value {
        ValueModel::List(items) => lemma_secret_list_never_serializes(items),
        ValueModel::Record(members) => lemma_secret_record_never_serializes(members),
        ValueModel::Optional(Some(b)) => lemma_secrets_never_serialize(*b),
        ValueModel::Outcome(Ok(b)) => lemma_secrets_never_serialize(*b),
        ValueModel::Incoming(b) => lemma_secrets_never_serialize(*b),
        ValueModel::Untrusted(b) => lemma_secrets_never_serialize(*b),
        ValueModel::Candidate(b) => lemma_secrets_never_serialize(*b),
        ValueModel::Checked(b) => lemma_secrets_never_serialize(*b),
        ValueModel::Observation(b) => lemma_secrets_never_serialize(*b),
        ValueModel::Receipt(_, _, b) => lemma_secrets_never_serialize(*b),
        ValueModel::Reconciled(_, _, b) => lemma_secrets_never_serialize(*b),
        _ => {},
    }
}

/// A list holding a secret has no JSON document.
pub proof fn lemma_secret_list_never_serializes(items: Seq<ValueModel>)
    requires
        list_holds_secret(items),
    ensures
        list_json(items) is Err,
    decreases items, 0nat,
{
    if items.len() > 0 {
        if list_holds_secret(items.drop_last()) {
            lemma_secret_list_never_serializes(items.drop_last());
        } else {
            lemma_secrets_never_serialize(items.last());
        }
    }
}

/// A record holding a secret has no JSON document.
pub proof fn lemma_secret_record_never_serializes(members: Seq<(Seq<char>, ValueModel)>)
    requires
        record_holds_secret(members),
    ensures
        record_json(members) is Err,
    decreases members, 0nat,
{
    if members.len() > 0 {
        if record_holds_secret(members.drop_last()) {
            lemma_secret_record_never_serializes(members.drop_last());
        } else {
            lemma_secrets_never_serialize(members.last().1);
        }
    }
}

} // verus!
