use vstd::prelude::*;

use crate::table::{find, lemma_position_bounds, lookup};
use crate::text::push_str;
use crate::digest::sha256_hex;
use crate::encoding::{catalog_member_text, ends_with, program_content_json};
use crate::digest::{hex_text, sha256_of};
use crate::span::utf8_of;

verus! {

/// Current persisted IR schema.
pub const IR_SCHEMA_VERSION: u32 = 1;

/// Versioned, deterministic executable ASTER program.
#[derive(Debug, PartialEq, Eq)]
pub struct Program {
    /// Persisted schema version.
    pub schema_version: u32,
    /// Compiler version that emitted this program.
    pub compiler_version: String,
    /// Source module identity.
    pub module_name: String,
    /// Hash of the normalized syntax tree.
    pub source_hash: String,
    /// Hash of all semantic IR content except this field.
    pub program_hash: String,
    /// Executable routines by identity, in key order.
    pub routines: Vec<(String, Routine)>,
    /// Agents and their event entry points by name, in key order.
    pub agents: Vec<(String, Agent)>,
    /// Typed declarations required at runtime boundaries.
    pub catalog: Catalog,
}

/// The routine that handles `event` for `agent`: the agent's handler entry
/// names a routine identity, which is then looked up.
pub open spec fn handler_routine(program: Program, agent: Seq<char>, event: Seq<char>) -> Option<
    Routine,
> {
    match lookup(program.agents@, agent) {
        Some(a) => match lookup(a.handlers@, event) {
            Some(identity) => lookup(program.routines@, identity@),
            None => None,
        },
        None => None,
    }
}

/// The source routine called `name`: a function first, then a flow, then a
/// routine whose identity is the bare name.
pub open spec fn routine_named(program: Program, name: Seq<char>) -> Option<Routine> {
    match lookup(program.routines@, "fn:"@ + name) {
        Some(r) => Some(r),
        None => match lookup(program.routines@, "flow:"@ + name) {
            Some(r) => Some(r),
            None => lookup(program.routines@, name),
        },
    }
}

impl Program {
    /// Returns one agent handler routine.
    pub fn handler(&self, agent: &str, event: &str) -> (routine: Option<&Routine>)
        ensures
            match handler_routine(*self, agent@, event@) {
                Some(r) => routine == Some(&r),
                None => routine is None,
            },
    {
        let a = find(&self.agents, agent)?;
        proof {
            lemma_position_bounds(self.agents@, agent@);
        }
        let handlers = &self.agents[a].1.handlers;
        let h = find(handlers, event)?;
        proof {
            lemma_position_bounds(handlers@, event@);
        }
        let r = find(&self.routines, handlers[h].1.as_str())?;
        proof {
            lemma_position_bounds(self.routines@, handlers@[h as int].1@);
        }
        Some(&self.routines[r].1)
    }

    /// Returns a source function or flow routine by unqualified name.
    pub fn routine(&self, name: &str) -> (routine: Option<&Routine>)
        ensures
            match routine_named(*self, name@) {
                Some(r) => routine == Some(&r),
                None => routine is None,
            },
    {
        let mut function_key = String::new();
        push_str(&mut function_key, "fn:");
        push_str(&mut function_key, name);
        proof {
            assert(function_key@ =~= "fn:"@ + name@);
            lemma_position_bounds(self.routines@, "fn:"@ + name@);
            lemma_position_bounds(self.routines@, "flow:"@ + name@);
            lemma_position_bounds(self.routines@, name@);
        }
        if let Some(i) = find(&self.routines, function_key.as_str()) {
            return Some(&self.routines[i].1);
        }
        let mut flow_key = String::new();
        push_str(&mut flow_key, "flow:");
        push_str(&mut flow_key, name);
        proof {
            assert(flow_key@ =~= "flow:"@ + name@);
        }
        if let Some(i) = find(&self.routines, flow_key.as_str()) {
            return Some(&self.routines[i].1);
        }
        match find(&self.routines, name) {
            Some(i) => Some(&self.routines[i].1),
            None => None,
        }
    }
}

/// One serializable routine with explicit control flow.
#[derive(Debug, PartialEq, Eq)]
pub struct Routine {
    /// Stable program-local identity.
    pub name: String,
    /// Typed parameters in source order.
    pub parameters: Vec<FieldSpec>,
    /// Declared return type.
    pub return_type: TypeSpec,
    /// Explicit instruction stream.
    pub instructions: Vec<Instruction>,
}

/// One durable agent entry-point table.
#[derive(Debug, PartialEq, Eq)]
pub struct Agent {
    /// Agent constructor parameters.
    pub parameters: Vec<FieldSpec>,
    /// Persistent state schema and pure defaults.
    pub state: Vec<StateFieldSpec>,
    /// Fixed per-event budget limits by dimension name; omitted dimensions are zero.
    pub budget: Vec<(String, u64)>,
    /// Event name to routine identity.
    pub handlers: Vec<(String, String)>,
    /// Declared capability requirements.
    pub capabilities: Vec<CapabilitySpec>,
}

/// Runtime-relevant declaration catalog, each table in key order.
#[derive(Debug, PartialEq, Eq)]
pub struct Catalog {
    /// Non-generic aliases expanded at external decode boundaries.
    pub aliases: Vec<(String, TypeSpec)>,
    /// Record schemas.
    pub records: Vec<(String, Vec<FieldSpec>)>,
    /// Static prompts.
    pub prompts: Vec<(String, PromptSpec)>,
    /// Tool boundaries.
    pub tools: Vec<(String, ToolSpec)>,
    /// Pure validators.
    pub validators: Vec<(String, ValidatorSpec)>,
    /// Ordered total policies.
    pub policies: Vec<(String, PolicySpec)>,
}

/// A structural type carried by IR signatures and schemas.
#[derive(Debug, PartialEq, Eq)]
pub struct TypeSpec {
    /// Constructor or declared type name.
    pub name: String,
    /// Ordered generic arguments.
    pub arguments: Vec<TypeSpec>,
}

/// A named typed field or parameter.
#[derive(Debug, PartialEq, Eq)]
pub struct FieldSpec {
    /// Field name.
    pub name: String,
    /// Field type.
    pub ty: TypeSpec,
}

/// Persistent field and its effect-free default computation.
#[derive(Debug, PartialEq, Eq)]
pub struct StateFieldSpec {
    /// Field name.
    pub name: String,
    /// Persisted field type.
    pub ty: TypeSpec,
    /// Pure default expression.
    pub default: PureExpression,
}

/// Static prompt metadata.
#[derive(Debug, PartialEq, Eq)]
pub struct PromptSpec {
    /// Structured data parameters.
    pub parameters: Vec<FieldSpec>,
    /// Decoded candidate type.
    pub result_type: TypeSpec,
    /// Static instruction bytes.
    pub instruction: String,
    /// Admitted structured-data names.
    pub data: Vec<String>,
}

/// Tool request and trust-boundary metadata.
#[derive(Debug, PartialEq, Eq)]
pub struct ToolSpec {
    /// Request schema.
    pub parameters: Vec<FieldSpec>,
    /// Response schema.
    pub result_type: TypeSpec,
    /// Read or write boundary.
    pub mode: ToolMode,
    /// Required capability request template.
    pub capability: Option<CapabilitySpec>,
    /// Optional write idempotency parameter.
    pub idempotency: Option<String>,
    /// Declared risk spelling.
    pub risk: Option<String>,
    /// Declared sensitivity spelling.
    pub sensitivity: Option<String>,
}

/// Tool effect mode.
#[derive(Clone, Copy, Debug, PartialEq, Eq, Structural)]
pub enum ToolMode {
    /// Observation-only tool.
    Read,
    /// Governed mutating tool.
    Write,
}

/// Capability kind plus pure argument expressions.
#[derive(Debug, PartialEq, Eq)]
pub struct CapabilitySpec {
    /// Capability declaration identity.
    pub name: String,
    /// Scope arguments.
    pub arguments: Vec<NamedExpression>,
}

/// Pure validator requirements.
#[derive(Debug, PartialEq, Eq)]
pub struct ValidatorSpec {
    /// Typed validator inputs.
    pub parameters: Vec<FieldSpec>,
    /// Conjunctive pure requirements.
    pub requirements: Vec<PureExpression>,
}

/// Ordered total authorization policy.
#[derive(Debug, PartialEq, Eq)]
pub struct PolicySpec {
    /// Typed policy inputs.
    pub parameters: Vec<FieldSpec>,
    /// Source-ordered decisions.
    pub rules: Vec<PolicyRuleSpec>,
}

/// One pure policy rule.
#[derive(Debug, PartialEq, Eq)]
pub struct PolicyRuleSpec {
    /// Decision on a matching condition.
    pub decision: PolicyDecisionSpec,
    /// `None` is the final otherwise rule.
    pub condition: Option<PureExpression>,
}

/// Pure authorization decision.
#[derive(Debug, PartialEq, Eq)]
pub enum PolicyDecisionSpec {
    /// Issue a permit directly.
    Allow,
    /// Suspend for approval by the evaluated principal.
    Approve(PureExpression),
    /// Reject with a safe reason.
    Deny(PureExpression),
}

/// Stable zero-based instruction identity within one routine.
#[derive(Clone, Copy, Debug, PartialEq, Eq, Structural, PartialOrd, Ord)]
pub struct InstructionId(u32);

impl InstructionId {
    /// Routine-local index of an identity.
    pub closed spec fn spec_index(self) -> u32 {
        self.0
    }

    /// Returns the stable routine-local index.
    pub fn index(self) -> (index: u32)
        ensures
            index == self.spec_index(),
    {
        self.0
    }
}

/// Stable value slot identity within one frame.
#[derive(Clone, Copy, Debug, PartialEq, Eq, Structural, PartialOrd, Ord)]
pub struct ValueId(pub u32);

/// One explicit VM instruction.
#[derive(Debug, PartialEq, Eq)]
pub struct Instruction {
    /// Routine-local stable identity.
    pub id: InstructionId,
    /// Instruction behavior.
    pub kind: InstructionKind,
}

impl Instruction {
    /// The instruction at routine-local `index`.
    pub fn new(index: u32, kind: InstructionKind) -> (instruction: Instruction)
        ensures
            instruction.id.spec_index() == index,
            instruction.kind == kind,
    {
        Instruction { id: InstructionId(index), kind }
    }
}

/// Explicit control, pure evaluation, and governed effect operations.
#[derive(Debug, PartialEq, Eq)]
pub enum InstructionKind {
    /// Evaluate one effect-free operation into a slot.
    Evaluate { target: ValueId, expression: PureExpression },
    /// Bind an immutable source local to a slot.
    Bind { name: String, value: ValueId },
    /// Call a statically resolved source routine.
    Call { target: ValueId, routine: String, arguments: Vec<NamedValue> },
    /// Propagate a typed `Result` error or expose its success value.
    UnwrapResult { target: ValueId, result: ValueId },
    /// Conditional jump with explicit targets.
    Branch { condition: ValueId, then_target: u32, else_target: u32 },
    /// Unconditional jump.
    Jump { target: u32 },
    /// Finite pattern dispatch.
    Match { value: ValueId, arms: Vec<MatchTarget> },
    /// Model inference suspension request.
    Infer { target: ValueId, prompt: String, arguments: Vec<NamedValue>, model_alias: String },
    /// Pure candidate validation.
    Validate { target: ValueId, candidate: ValueId, validator: String },
    /// Read-tool suspension request.
    Observe { target: ValueId, action: String, arguments: Vec<NamedValue> },
    /// Immutable intent construction.
    ConstructIntent { target: ValueId, purpose: String, fields: Vec<NamedValue> },
    /// Immutable proposal construction.
    ConstructProposal {
        target: ValueId,
        action: String,
        arguments: Vec<NamedValue>,
        intent: ValueId,
    },
    /// Pure policy evaluation which may explicitly suspend for approval.
    Authorize { target: ValueId, proposal: ValueId, policy: String, approval_may_suspend: bool },
    /// Governed write-tool suspension request.
    Commit { target: ValueId, proposal: ValueId, permit: ValueId },
    /// Pure post-write world-state reconciliation.
    Reconcile { target: ValueId, receipt: ValueId, observation: ValueId, validator: String },
    /// Runtime assertion.
    Require { condition: ValueId },
    /// Pending atomic state delta update.
    UpdateState { fields: Vec<NamedValue> },
    /// Routine completion.
    Return { value: ValueId },
}

/// Governed semantic stage of each instruction; control and pure
/// evaluation steps expose none.
pub open spec fn stage_of(kind: InstructionKind) -> Option<Stage> {
    match kind {
        InstructionKind::Infer { .. } => Some(Stage::Inference),
        InstructionKind::Validate { .. } => Some(Stage::Validation),
        InstructionKind::Observe { .. } => Some(Stage::Observation),
        InstructionKind::ConstructIntent { .. } => Some(Stage::Intent),
        InstructionKind::ConstructProposal { .. } => Some(Stage::Proposal),
        InstructionKind::Authorize { .. } => Some(Stage::Authorization),
        InstructionKind::Commit { .. } => Some(Stage::Commit),
        InstructionKind::Reconcile { .. } => Some(Stage::Reconciliation),
        InstructionKind::UpdateState { .. } => Some(Stage::StateUpdate),
        InstructionKind::Return { .. } => Some(Stage::Return),
        _ => None,
    }
}

impl InstructionKind {
    /// Returns the governed semantic stage exposed by this instruction.
    pub fn stage(&self) -> (stage: Option<Stage>)
        ensures
            stage == stage_of(*self),
    {
        match self {
            InstructionKind::Infer { .. } => Some(Stage::Inference),
            InstructionKind::Validate { .. } => Some(Stage::Validation),
            InstructionKind::Observe { .. } => Some(Stage::Observation),
            InstructionKind::ConstructIntent { .. } => Some(Stage::Intent),
            InstructionKind::ConstructProposal { .. } => Some(Stage::Proposal),
            InstructionKind::Authorize { .. } => Some(Stage::Authorization),
            InstructionKind::Commit { .. } => Some(Stage::Commit),
            InstructionKind::Reconcile { .. } => Some(Stage::Reconciliation),
            InstructionKind::UpdateState { .. } => Some(Stage::StateUpdate),
            InstructionKind::Return { .. } => Some(Stage::Return),
            _ => None,
        }
    }
}

/// Auditable governed stages.
#[derive(Clone, Copy, Debug, PartialEq, Eq, Structural)]
pub enum Stage {
    Inference,
    Validation,
    Observation,
    Intent,
    Proposal,
    Authorization,
    Commit,
    Reconciliation,
    StateUpdate,
    Return,
}

/// An argument already evaluated to a value slot.
#[derive(Debug, PartialEq, Eq)]
pub struct NamedValue {
    /// Optional source argument label.
    pub name: Option<String>,
    /// Evaluated slot.
    pub value: ValueId,
}

/// A named effect-free expression, used in metadata.
#[derive(Debug, PartialEq, Eq)]
pub struct NamedExpression {
    pub name: Option<String>,
    pub value: PureExpression,
}

/// Finite branch target for a match arm.
#[derive(Debug, PartialEq, Eq)]
pub struct MatchTarget {
    pub pattern: PatternSpec,
    pub target: u32,
}

/// Serializable finite pattern.
#[derive(Debug, PartialEq, Eq)]
pub enum PatternSpec {
    Wildcard,
    Variant { path: String, binding: Option<String> },
}

/// Effect-free expression tree. It cannot encode model, tool, policy, commit,
/// or reconciliation effects by construction.
#[derive(Debug, PartialEq, Eq)]
pub enum PureExpression {
    Unit,
    Bool { value: bool },
    Int { value: i64 },
    Text { value: String },
    Path { path: String },
    List { elements: Vec<PureExpression> },
    Record { ty: String, fields: Vec<NamedExpression> },
    Field { target: Box<PureExpression>, field: String },
    Unary { operator: String, operand: Box<PureExpression> },
    Binary { left: Box<PureExpression>, operator: String, right: Box<PureExpression> },
    Call { function: String, arguments: Vec<NamedExpression> },
    Slot { value: ValueId },
}

/// Controlled persisted-program validation failures.
#[derive(Debug, PartialEq, Eq)]
pub enum ProgramError {
    /// The schema cannot be executed by this build.
    UnsupportedSchema(u32),
    /// Persisted semantic content differs from its claimed identity.
    HashMismatch,
}

impl ProgramError {
    /// The stable human-readable message of this failure.
    pub fn message(&self) -> (text: String) {
        match self {
            ProgramError::UnsupportedSchema(version) => {
                let mut text = String::new();
                push_str(&mut text, "unsupported IR schema version ");
                crate::text::push_decimal(&mut text, *version as u64);
                text
            },
            ProgramError::HashMismatch => String::from_str("IR program hash mismatch"),
        }
    }
}

/// The hash is the digest of a content that closes with the catalog: a
/// program hash taken this way covers the program's catalog.
#[verifier::opaque]
pub open spec fn hash_covers_catalog(hash: Seq<char>, catalog: Catalog) -> bool {
    exists|content: Seq<char>|
        ends_with(content, catalog_member_text(catalog)) && hash == hex_text(sha256_of(utf8_of(content)))
}

impl Program {
    /// The hexadecimal SHA-256 of the program's persisted content with an
    /// empty program hash.
    pub fn content_hash(&self) -> (hash: String)
        ensures
            hash@.len() == 64,
            hash_covers_catalog(hash@, self.catalog),
    {
        let content = program_content_json(self);
        let hash = sha256_hex(content.as_str());
        proof {
            reveal(hash_covers_catalog);
            assert(ends_with(content@, catalog_member_text(self.catalog)) && hash@ == hex_text(
                sha256_of(utf8_of(content@)),
            ));
        }
        hash
    }

    /// Stamps the program with the hash of its content.
    pub(crate) fn seal(&mut self)
        ensures
            final(self).schema_version == old(self).schema_version,
            final(self).compiler_version == old(self).compiler_version,
            final(self).module_name == old(self).module_name,
            final(self).source_hash == old(self).source_hash,
            final(self).routines == old(self).routines,
            final(self).agents == old(self).agents,
            final(self).catalog == old(self).catalog,
            final(self).program_hash@.len() == 64,
            hash_covers_catalog(final(self).program_hash@, final(self).catalog),
    {
        self.program_hash = self.content_hash();
    }

    /// Accepts a persisted program only at the current schema and with a
    /// program hash equal to the hash of its content.
    pub fn validate(&self) -> (result: Result<(), ProgramError>)
        ensures
            self.schema_version != IR_SCHEMA_VERSION ==> result == Err::<(), ProgramError>(
                ProgramError::UnsupportedSchema(self.schema_version),
            ),
            result is Ok ==> self.schema_version == IR_SCHEMA_VERSION,
            result is Ok ==> hash_covers_catalog(self.program_hash@, self.catalog),
    {
        if self.schema_version != IR_SCHEMA_VERSION {
            return Err(ProgramError::UnsupportedSchema(self.schema_version));
        }
        let expected = self.content_hash();
        if !(expected == self.program_hash) {
            return Err(ProgramError::HashMismatch);
        }
        Ok(())
    }
}

} // verus!
