use vstd::prelude::*;

use crate::span::Span;
use crate::text::push_char;

verus! {

/// A parsed ASTER module with lossless comments retained separately by span.
#[derive(Debug)]
pub struct Module {
    /// Dotted module identity.
    pub name: Path,
    /// Declarations in source order.
    pub declarations: Vec<Declaration>,
    /// Comments in source order.
    pub comments: Vec<Comment>,
    /// Extent of the complete module.
    pub span: Span,
}

/// A dotted statically resolved source path.
#[derive(Debug)]
pub struct Path {
    /// Identifier segments without punctuation.
    pub segments: Vec<String>,
    /// Exact path span.
    pub span: Span,
}

/// A retained source comment.
#[derive(Debug)]
pub struct Comment {
    /// Comment including delimiters.
    pub text: String,
    /// Exact source span.
    pub span: Span,
}

/// One top-level declaration.
#[derive(Debug)]
pub struct Declaration {
    /// Exact declaration span.
    pub span: Span,
    /// Declaration-specific syntax.
    pub kind: DeclarationKind,
}

/// Supported declaration forms.
#[derive(Debug)]
pub enum DeclarationKind {
    /// Alias or record declaration.
    Type(TypeDeclaration),
    /// Enum declaration.
    Enum(EnumDeclaration),
    /// Capability signature.
    Capability(SignatureDeclaration),
    /// Pure function.
    Function(FunctionDeclaration),
    /// Effectful reusable flow.
    Flow(FunctionDeclaration),
    /// Static prompt declaration.
    Prompt(PromptDeclaration),
    /// Pure validator.
    Validator(ValidatorDeclaration),
    /// Typed tool boundary metadata.
    Tool(ToolDeclaration),
    /// Total ordered policy.
    Policy(PolicyDeclaration),
    /// Durable agent declaration.
    Agent(AgentDeclaration),
}

/// A type alias or record declaration.
#[derive(Debug)]
pub struct TypeDeclaration {
    /// Declared name.
    pub name: String,
    /// Alias or record body.
    pub definition: TypeDefinition,
}

/// The body of a non-generic user type.
#[derive(Debug)]
pub enum TypeDefinition {
    /// Alias to another type expression.
    Alias(TypeReference),
    /// Ordered record fields.
    Record(Vec<TypeField>),
}

/// A named typed field.
#[derive(Debug)]
pub struct TypeField {
    /// Field name.
    pub name: String,
    /// Declared field type.
    pub ty: TypeReference,
    /// Exact field span.
    pub span: Span,
}

/// A path type with optional compiler-known generic arguments.
#[derive(Debug)]
pub struct TypeReference {
    /// Type constructor or user type path.
    pub path: Path,
    /// Ordered type arguments.
    pub arguments: Vec<TypeReference>,
    /// Exact type expression span.
    pub span: Span,
}

/// A non-generic enum declaration.
#[derive(Debug)]
pub struct EnumDeclaration {
    /// Declared enum name.
    pub name: String,
    /// Variants in source order.
    pub variants: Vec<EnumVariant>,
}

/// A nullary or single-payload enum variant.
#[derive(Debug)]
pub struct EnumVariant {
    /// Variant name.
    pub name: String,
    /// Optional single payload type.
    pub payload: Option<TypeReference>,
    /// Exact variant span.
    pub span: Span,
}

/// A named parameter.
#[derive(Debug)]
pub struct Parameter {
    /// Parameter name.
    pub name: String,
    /// Parameter type.
    pub ty: TypeReference,
    /// Exact parameter span.
    pub span: Span,
}

/// A capability signature.
#[derive(Debug)]
pub struct SignatureDeclaration {
    /// Capability name.
    pub name: String,
    /// Ordered parameters.
    pub parameters: Vec<Parameter>,
}

/// A pure function or effectful flow.
#[derive(Debug)]
pub struct FunctionDeclaration {
    /// Declaration name.
    pub name: String,
    /// Ordered parameters.
    pub parameters: Vec<Parameter>,
    /// Declared return type.
    pub return_type: TypeReference,
    /// Flow capability upper bound; empty for pure functions.
    pub uses: Vec<CapabilityExpression>,
    /// Executable body.
    pub body: Block,
}

/// A static prompt declaration.
#[derive(Debug)]
pub struct PromptDeclaration {
    /// Prompt symbol.
    pub name: String,
    /// Typed runtime data parameters.
    pub parameters: Vec<Parameter>,
    /// Expected decoded result type.
    pub result_type: TypeReference,
    /// Raw contents of the one static block string.
    pub instruction: String,
    /// Ordered parameter names admitted to structured data.
    pub data: Vec<String>,
}

/// A pure validation declaration.
#[derive(Debug)]
pub struct ValidatorDeclaration {
    /// Validator symbol.
    pub name: String,
    /// One parameter for candidate validation or two for reconciliation.
    pub parameters: Vec<Parameter>,
    /// Requirements in source order.
    pub requirements: Vec<Expression>,
}

/// A tool declaration and its mandatory boundary metadata.
#[derive(Debug)]
pub struct ToolDeclaration {
    /// Dotted action identity.
    pub path: Path,
    /// Typed request parameters.
    pub parameters: Vec<Parameter>,
    /// Typed response.
    pub return_type: TypeReference,
    /// Metadata body.
    pub metadata: ToolMetadata,
}

/// Read or write mode.
#[derive(Clone, Copy, Debug, PartialEq, Eq, Structural)]
pub enum ToolMode {
    /// Observation-only tool.
    Read,
    /// Mutating tool requiring proposal and permit.
    Write,
}

/// Declared data sensitivity.
#[derive(Clone, Copy, Debug, PartialEq, Eq, Structural)]
pub enum Sensitivity {
    /// Safe public data.
    Public,
    /// Organization-internal data.
    Internal,
    /// Private non-secret data.
    Private,
    /// Opaque secret data.
    Secret,
}

/// Declared write reversibility.
#[derive(Clone, Copy, Debug, PartialEq, Eq, Structural)]
pub enum Risk {
    /// The action has a defined reversal outside ASTER 0.1.
    Reversible,
    /// The action cannot reliably be reversed.
    Irreversible,
}

/// Parsed tool metadata; semantic analysis enforces mode-specific presence.
#[derive(Debug)]
pub struct ToolMetadata {
    /// Optional at syntax level so declaration checking can issue a stable code.
    pub mode: Option<ToolMode>,
    /// Required capability request.
    pub capability: Option<CapabilityExpression>,
    /// Data sensitivity.
    pub sensitivity: Option<Sensitivity>,
    /// Write risk.
    pub risk: Option<Risk>,
    /// Write idempotency parameter name.
    pub idempotency: Option<String>,
}

/// A capability constructor and arguments.
#[derive(Debug)]
pub struct CapabilityExpression {
    /// Capability declaration path.
    pub path: Path,
    /// Typed argument expressions.
    pub arguments: Vec<Argument>,
    /// Exact expression span.
    pub span: Span,
}

/// An ordered authorization policy.
#[derive(Debug)]
pub struct PolicyDeclaration {
    /// Policy symbol.
    pub name: String,
    /// Proposal and explicit state/value parameters.
    pub parameters: Vec<Parameter>,
    /// Decision rules in source order.
    pub rules: Vec<PolicyRule>,
}

/// One policy decision rule.
#[derive(Debug)]
pub struct PolicyRule {
    /// Decision produced on match.
    pub decision: PolicyDecision,
    /// Optional condition; `None` represents final `otherwise`.
    pub condition: Option<Expression>,
    /// Exact rule span.
    pub span: Span,
}

/// Policy decision syntax.
#[derive(Debug)]
pub enum PolicyDecision {
    /// Direct authorization.
    Allow,
    /// Approval principal expression.
    Approve(Expression),
    /// Safe denial reason.
    Deny(Expression),
}

/// A durable agent declaration.
#[derive(Debug)]
pub struct AgentDeclaration {
    /// Agent symbol.
    pub name: String,
    /// Runtime constructor arguments.
    pub parameters: Vec<Parameter>,
    /// Declared capability requirements.
    pub requires: Vec<CapabilityExpression>,
    /// Persistent state schema and defaults.
    pub state: Vec<StateField>,
    /// Per-event budget entries.
    pub budget: Vec<BudgetEntry>,
    /// Event handlers.
    pub handlers: Vec<HandlerDeclaration>,
}

/// Persistent agent state field.
#[derive(Debug)]
pub struct StateField {
    /// Field name.
    pub name: String,
    /// Persistent type.
    pub ty: TypeReference,
    /// Source default expression.
    pub default: Expression,
    /// Exact field span.
    pub span: Span,
}

/// One named non-negative budget limit.
#[derive(Debug)]
pub struct BudgetEntry {
    /// Dimension name.
    pub dimension: String,
    /// Inclusive per-event maximum.
    pub limit: i64,
    /// Exact entry span.
    pub span: Span,
}

/// An agent event handler.
#[derive(Debug)]
pub struct HandlerDeclaration {
    /// Event name.
    pub event: String,
    /// Typed event parameters.
    pub parameters: Vec<Parameter>,
    /// Declared handler return type.
    pub return_type: TypeReference,
    /// Executable body.
    pub body: Block,
    /// Exact handler span.
    pub span: Span,
}

/// A statement block.
#[derive(Debug)]
pub struct Block {
    /// Statements in execution order.
    pub statements: Vec<Statement>,
    /// Exact brace-delimited span.
    pub span: Span,
}

/// One executable statement.
#[derive(Debug)]
pub struct Statement {
    /// Statement-specific syntax.
    pub kind: StatementKind,
    /// Exact statement span.
    pub span: Span,
}

/// Supported statement forms.
#[derive(Debug)]
pub enum StatementKind {
    /// Immutable local binding.
    Let {
        /// Binding name.
        name: String,
        /// Optional explicit type.
        ty: Option<TypeReference>,
        /// Initial value.
        value: Expression,
    },
    /// Runtime/validator requirement.
    Require {
        /// Required boolean expression.
        condition: Expression,
    },
    /// Pending atomic state update.
    UpdateState {
        /// Ordered field assignments.
        fields: Vec<FieldInitializer>,
    },
    /// Function, flow, or handler return.
    Return {
        /// Returned expression.
        value: Expression,
    },
    /// Effect or pure expression statement.
    Expression {
        /// Evaluated expression.
        expression: Expression,
    },
}

/// A typed expression with an exact source span.
#[derive(Debug)]
pub struct Expression {
    /// Expression-specific syntax.
    pub kind: ExpressionKind,
    /// Exact expression span.
    pub span: Span,
}

/// Supported expression forms.
#[derive(Debug)]
pub enum ExpressionKind {
    /// Unit literal.
    Unit,
    /// Boolean literal.
    Bool { value: bool },
    /// Integer literal.
    Int { value: i64 },
    /// Text literal.
    Text { value: String },
    /// Statically resolved path reference.
    Path { path: Path },
    /// List literal.
    List { elements: Vec<Expression> },
    /// Record construction.
    Record {
        /// Record type path.
        path: Path,
        /// Ordered field initializers.
        fields: Vec<FieldInitializer>,
    },
    /// Function or constructor call.
    Call {
        /// Callee expression.
        callee: Box<Expression>,
        /// Positional or named arguments.
        arguments: Vec<Argument>,
    },
    /// Field projection.
    Field {
        /// Projected value.
        target: Box<Expression>,
        /// Field name.
        field: String,
    },
    /// Unary operator.
    Unary {
        /// Operator.
        operator: UnaryOperator,
        /// Operand.
        operand: Box<Expression>,
    },
    /// Binary operator.
    Binary {
        /// Left operand.
        left: Box<Expression>,
        /// Operator.
        operator: BinaryOperator,
        /// Right operand.
        right: Box<Expression>,
    },
    /// `Result` propagation.
    Try { value: Box<Expression> },
    /// Conditional expression.
    If {
        /// Boolean condition.
        condition: Box<Expression>,
        /// Selected when true.
        then_block: Block,
        /// Selected when false.
        else_block: Block,
    },
    /// Finite pattern match.
    Match {
        /// Scrutinee.
        value: Box<Expression>,
        /// Ordered arms.
        arms: Vec<MatchArm>,
    },
    /// Model inference effect request.
    Infer {
        /// Prompt symbol.
        prompt: Path,
        /// Structured prompt arguments.
        arguments: Vec<Argument>,
        /// Model alias without `@`.
        model_alias: String,
    },
    /// Candidate validation.
    Validate {
        /// Opaque candidate expression.
        candidate: Box<Expression>,
        /// Validator symbol.
        validator: Path,
    },
    /// Read tool observation.
    Observe {
        /// Read action path.
        action: Path,
        /// Typed request arguments.
        arguments: Vec<Argument>,
    },
    /// Immutable intent construction.
    Intent {
        /// Static purpose symbol.
        purpose: Path,
        /// Required intent fields.
        fields: Vec<FieldInitializer>,
    },
    /// Immutable write proposal construction.
    Propose {
        /// Write action path.
        action: Path,
        /// Typed action arguments.
        arguments: Vec<Argument>,
        /// Intent expression.
        intent: Box<Expression>,
    },
    /// Policy authorization.
    Authorize {
        /// Proposal expression.
        proposal: Box<Expression>,
        /// Policy symbol.
        policy: Path,
    },
    /// Write commit.
    Commit {
        /// Proposal expression.
        proposal: Box<Expression>,
        /// Matching permit expression.
        permit: Box<Expression>,
    },
    /// Receipt/observation reconciliation.
    Reconcile {
        /// Write receipt.
        receipt: Box<Expression>,
        /// Follow-up observation.
        observation: Box<Expression>,
        /// Two-parameter validator.
        validator: Path,
    },
}

/// Unary expression operator.
#[derive(Clone, Copy, Debug, PartialEq, Eq, Structural)]
pub enum UnaryOperator {
    /// Boolean negation.
    Not,
    /// Numeric negation.
    Negate,
}

/// Binary expression operator.
#[derive(Clone, Copy, Debug, PartialEq, Eq, Structural)]
pub enum BinaryOperator {
    /// Addition.
    Add,
    /// Subtraction.
    Subtract,
    /// Multiplication.
    Multiply,
    /// Division.
    Divide,
    /// Equality.
    Equal,
    /// Inequality.
    NotEqual,
    /// Less than.
    Less,
    /// Less than or equal.
    LessEqual,
    /// Greater than.
    Greater,
    /// Greater than or equal.
    GreaterEqual,
    /// Boolean conjunction.
    And,
    /// Boolean disjunction.
    Or,
}

/// A positional or named call argument.
#[derive(Debug)]
pub struct Argument {
    /// Present for `name = expression` arguments.
    pub name: Option<String>,
    /// Argument value.
    pub value: Expression,
    /// Exact argument span.
    pub span: Span,
}

/// A `name = expression` initializer.
#[derive(Debug)]
pub struct FieldInitializer {
    /// Field name.
    pub name: String,
    /// Field value.
    pub value: Expression,
    /// Exact initializer span.
    pub span: Span,
}

/// One match arm.
#[derive(Debug)]
pub struct MatchArm {
    /// Restricted finite pattern.
    pub pattern: Pattern,
    /// Arm result.
    pub value: Expression,
    /// Exact arm span.
    pub span: Span,
}

/// Enum, option, result, or wildcard pattern.
#[derive(Debug)]
pub enum Pattern {
    /// `_` catch-all.
    Wildcard,
    /// Variant path with optional single payload binding.
    Variant {
        /// Constructor path.
        path: Path,
        /// Optional payload binding.
        binding: Option<String>,
    },
}

/// Dotted spelling of path segments.
pub open spec fn dotted(segments: Seq<Seq<char>>) -> Seq<char>
    decreases segments.len(),
{
    if segments.len() == 0 {
        Seq::empty()
    } else if segments.len() == 1 {
        segments[0]
    } else {
        dotted(segments.drop_last()) + seq!['.'] + segments.last()
    }
}

/// Views of a list of strings.
pub open spec fn string_views(items: Seq<String>) -> Seq<Seq<char>> {
    items.map_values(|s: String| s@)
}

impl Path {
    /// Returns the canonical dotted spelling.
    pub fn as_string(&self) -> (text: String)
        ensures
            text@ == dotted(string_views(self.segments@)),
    {
        let mut out = String::new();
        let mut i: usize = 0;
        while i < self.segments.len()
            invariant
                i <= self.segments@.len(),
                out@ == dotted(string_views(self.segments@.take(i as int))),
            decreases self.segments@.len() - i,
        {
            proof {
                assert(string_views(self.segments@.take(i + 1)).drop_last() =~= string_views(
                    self.segments@.take(i as int),
                ));
            }
            if i > 0 {
                push_char(&mut out, '.');
            }
            out.append(self.segments[i].as_str());
            proof {
                let views = string_views(self.segments@.take(i + 1));
                assert(views.last() == self.segments@[i as int]@);
                if i == 0 {
                    assert(out@ =~= views[0]);
                } else {
                    assert(out@ =~= dotted(views.drop_last()) + seq!['.'] + views.last());
                }
            }
            i = i + 1;
        }
        proof {
            assert(self.segments@.take(self.segments@.len() as int) =~= self.segments@);
        }
        out
    }
}

/// Category name of each declaration form.
pub open spec fn category_name(kind: DeclarationKind) -> Seq<char> {
    match kind {
        DeclarationKind::Type(_) => "type"@,
        DeclarationKind::Enum(_) => "enum"@,
        DeclarationKind::Capability(_) => "capability"@,
        DeclarationKind::Function(_) => "function"@,
        DeclarationKind::Flow(_) => "flow"@,
        DeclarationKind::Prompt(_) => "prompt"@,
        DeclarationKind::Validator(_) => "validator"@,
        DeclarationKind::Tool(_) => "tool"@,
        DeclarationKind::Policy(_) => "policy"@,
        DeclarationKind::Agent(_) => "agent"@,
    }
}

impl DeclarationKind {
    /// Returns a stable broad category used by syntax consumers.
    pub fn category(&self) -> (name: &'static str)
        ensures
            name@ == category_name(*self),
    {
        match self {
            DeclarationKind::Type(_) => "type",
            DeclarationKind::Enum(_) => "enum",
            DeclarationKind::Capability(_) => "capability",
            DeclarationKind::Function(_) => "function",
            DeclarationKind::Flow(_) => "flow",
            DeclarationKind::Prompt(_) => "prompt",
            DeclarationKind::Validator(_) => "validator",
            DeclarationKind::Tool(_) => "tool",
            DeclarationKind::Policy(_) => "policy",
            DeclarationKind::Agent(_) => "agent",
        }
    }
}

impl Module {
    /// Serializes the semantic syntax shape, without source locations or
    /// comments, as deterministic JSON with every object's keys in order.
    pub fn normalized_json(&self) -> (json: String) {
        crate::encoding::normalized_module_json(self)
    }
}

} // verus!
