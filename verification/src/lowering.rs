use vstd::prelude::*;

use crate::ast::{
    Argument, BinaryOperator, Block, CapabilityExpression, DeclarationKind, Expression,
    ExpressionKind, FieldInitializer, MatchArm, Module, Parameter, Pattern, PolicyDeclaration,
    PolicyDecision, Risk, Sensitivity, Statement, StatementKind, ToolDeclaration, TypeDefinition,
    TypeReference, UnaryOperator,
};
use crate::checker::CheckedProgram;
use crate::ir::{
    Agent, CapabilitySpec, Catalog, FieldSpec, IR_SCHEMA_VERSION, Instruction, InstructionKind,
    MatchTarget, NamedExpression, NamedValue, PatternSpec, PolicyDecisionSpec, PolicyRuleSpec,
    PolicySpec, Program, PromptSpec, PureExpression, Routine, StateFieldSpec, ToolMode, ToolSpec,
    TypeSpec, ValidatorSpec, ValueId,
};
use crate::model::{add_name, contains_text, lemma_contains_text};
use crate::token::{Keyword, keyword_spelling};
use crate::encoding::normalized_module_json;
use crate::digest::sha256_hex;
use crate::table::{insert_ordered, table_view};
use crate::ast::{dotted, string_views};
use crate::ordered::{key_less, lemma_model_insert_at, model_insert};
use crate::text::{push_char, push_str, str_equal};

verus! {

/// Controlled failure to convert a checked module into explicit IR.
#[derive(Debug, PartialEq, Eq)]
pub enum LoweringError {
    /// A routine exceeded representable instruction or value identities.
    RoutineTooLarge(String),
    /// A checked pure metadata location contained an effect or a form the
    /// pure expression tree cannot carry.
    EffectInPureMetadata,
    /// Checked input contained a negative budget.
    NegativeBudget,
}

/// The human-readable message of each lowering failure.
pub open spec fn lowering_message(error: LoweringError) -> Seq<char> {
    match error {
        LoweringError::RoutineTooLarge(name) => "routine `"@ + name@
            + "` exceeds the ASTER 0.1 IR identity range"@,
        LoweringError::EffectInPureMetadata => "checked pure metadata unexpectedly contains an effect"@,
        LoweringError::NegativeBudget => "checked input contains a negative budget limit"@,
    }
}

impl LoweringError {
    /// The stable human-readable message of this failure.
    pub fn message(&self) -> (text: String)
        ensures
            text@ == lowering_message(*self),
    {
        match self {
            LoweringError::RoutineTooLarge(name) => {
                let mut text = String::new();
                push_str(&mut text, "routine `");
                push_str(&mut text, name.as_str());
                push_str(&mut text, "` exceeds the ASTER 0.1 IR identity range");
                proof {
                    assert(text@ =~= "routine `"@ + name@ + "` exceeds the ASTER 0.1 IR identity range"@);
                }
                text
            },
            LoweringError::EffectInPureMetadata => String::from_str(
                "checked pure metadata unexpectedly contains an effect",
            ),
            LoweringError::NegativeBudget => String::from_str(
                "checked input contains a negative budget limit",
            ),
        }
    }
}

/// Every jump target of an instruction lies within a routine of `len` instructions.
pub open spec fn targets_within(kind: InstructionKind, len: int) -> bool {
    match kind {
        InstructionKind::Branch { then_target, else_target, .. } => then_target <= len
            && else_target <= len,
        InstructionKind::Jump { target } => target <= len,
        InstructionKind::Match { arms, .. } => forall|a: int|
            0 <= a < arms@.len() ==> (#[trigger] arms@[a]).target <= len,
        _ => true,
    }
}

/// An explicit instruction stream: instruction `k` has identity `k`, and every
/// branch, jump and match target is an instruction index or the end.
pub open spec fn stream_wf(instructions: Seq<Instruction>) -> bool {
    forall|k: int|
        0 <= k < instructions.len() ==> (#[trigger] instructions[k]).id.spec_index() == k
            && targets_within(instructions[k].kind, instructions.len() as int)
}

/// A lowered routine is well formed.
pub open spec fn routine_wf(routine: Routine) -> bool {
    stream_wf(routine.instructions@)
}

proof fn lemma_targets_grow(kind: InstructionKind, len: int, more: int)
    requires
        targets_within(kind, len),
        len <= more,
    ensures
        targets_within(kind, more),
{
}

/// The dotted spelling of a unary operator in IR.
/// The persisted name of a unary operator.
pub open spec fn unary_text(operator: UnaryOperator) -> Seq<char> {
    match operator {
        UnaryOperator::Not => "not"@,
        UnaryOperator::Negate => "negate"@,
    }
}

/// The persisted name of a binary operator.
pub open spec fn binary_text(operator: BinaryOperator) -> Seq<char> {
    match operator {
        BinaryOperator::Add => "add"@,
        BinaryOperator::Subtract => "subtract"@,
        BinaryOperator::Multiply => "multiply"@,
        BinaryOperator::Divide => "divide"@,
        BinaryOperator::Equal => "equal"@,
        BinaryOperator::NotEqual => "not_equal"@,
        BinaryOperator::Less => "less"@,
        BinaryOperator::LessEqual => "less_equal"@,
        BinaryOperator::Greater => "greater"@,
        BinaryOperator::GreaterEqual => "greater_equal"@,
        BinaryOperator::And => "and"@,
        BinaryOperator::Or => "or"@,
    }
}

/// Whether `expression` has a pure tree: literals, paths, and lists,
/// records, fields, operators and calls of named functions whose parts all
/// have one.
pub open spec fn pure_form(expression: Expression) -> bool
    decreases expression, 1nat,
{
    match expression.kind {
        ExpressionKind::Unit => true,
        ExpressionKind::Bool { .. } => true,
        ExpressionKind::Int { .. } => true,
        ExpressionKind::Text { .. } => true,
        ExpressionKind::Path { .. } => true,
        ExpressionKind::List { elements } => forall|i: int|
            0 <= i < elements@.len() ==> pure_form(#[trigger] elements@[i]),
        ExpressionKind::Record { fields, .. } => forall|i: int|
            0 <= i < fields@.len() ==> pure_form(#[trigger] fields@[i].value),
        ExpressionKind::Field { target, .. } => pure_form(*target),
        ExpressionKind::Unary { operand, .. } => pure_form(*operand),
        ExpressionKind::Binary { left, right, .. } => pure_form(*left) && pure_form(*right),
        ExpressionKind::Call { callee, arguments } => callee.kind is Path && forall|i: int|
            0 <= i < arguments@.len() ==> pure_form(#[trigger] arguments@[i].value),
        _ => false,
    }
}

/// Whether `pure` is the pure tree of `expression`: literals, paths,
/// lists, records, fields, operators and calls of named functions, each
/// part carried over; the expression has no other form.
pub open spec fn lowers_pure(expression: Expression, pure: PureExpression) -> bool
    decreases expression, 1nat,
{
    match expression.kind {
        ExpressionKind::Unit => pure == PureExpression::Unit,
        ExpressionKind::Bool { value } => pure == PureExpression::Bool { value },
        ExpressionKind::Int { value } => pure == PureExpression::Int { value },
        ExpressionKind::Text { value } => pure matches PureExpression::Text { value: v } && v@ == value@,
        ExpressionKind::Path { path } => pure matches PureExpression::Path { path: p } && p@ == dotted(
            string_views(path.segments@),
        ),
        ExpressionKind::List { elements } => pure matches PureExpression::List { elements: items }
            && lowers_pure_list(elements@, items@),
        ExpressionKind::Record { path, fields } => pure matches PureExpression::Record {
            ty,
            fields: named,
        } && ty@ == dotted(string_views(path.segments@)) && lowers_pure_fields(fields@, named@),
        ExpressionKind::Field { target, field } => pure matches PureExpression::Field {
            target: t,
            field: f,
        } && f@ == field@ && lowers_pure(*target, *t),
        ExpressionKind::Unary { operator, operand } => pure matches PureExpression::Unary {
            operator: o,
            operand: q,
        } && o@ == unary_text(operator) && lowers_pure(*operand, *q),
        ExpressionKind::Binary { left, operator, right } => pure matches PureExpression::Binary {
            left: l,
            operator: o,
            right: r,
        } && o@ == binary_text(operator) && lowers_pure(*left, *l) && lowers_pure(*right, *r),
        ExpressionKind::Call { callee, arguments } => match callee.kind {
            ExpressionKind::Path { path } => pure matches PureExpression::Call {
                function,
                arguments: named,
            } && function@ == dotted(string_views(path.segments@)) && lowers_pure_arguments(
                arguments@,
                named@,
            ),
            _ => false,
        },
        _ => false,
    }
}

/// Element-wise pure trees.
pub open spec fn lowers_pure_list(elements: Seq<Expression>, items: Seq<PureExpression>) -> bool
    decreases elements, 0nat,
{
    &&& items.len() == elements.len()
    &&& forall|i: int| 0 <= i < elements.len() ==> lowers_pure(elements[i], #[trigger] items[i])
}

/// Field initializers carried over by name.
pub open spec fn lowers_pure_fields(fields: Seq<FieldInitializer>, named: Seq<NamedExpression>) -> bool
    decreases fields, 0nat,
{
    &&& named.len() == fields.len()
    &&& forall|i: int|
        0 <= i < fields.len() ==> (#[trigger] named[i]).name == Some(fields[i].name) && lowers_pure(
            fields[i].value,
            named[i].value,
        )
}

/// Arguments carried over with their names.
pub open spec fn lowers_pure_arguments(arguments: Seq<Argument>, named: Seq<NamedExpression>) -> bool
    decreases arguments, 0nat,
{
    &&& named.len() == arguments.len()
    &&& forall|i: int|
        0 <= i < arguments.len() ==> (#[trigger] named[i]).name == arguments[i].name && lowers_pure(
            arguments[i].value,
            named[i].value,
        )
}

pub fn unary_name(operator: UnaryOperator) -> (name: &'static str)
    ensures
        name@ == unary_text(operator),
{
    match operator {
        UnaryOperator::Not => "not",
        UnaryOperator::Negate => "negate",
    }
}

/// The spelling of a binary operator in IR.
pub fn binary_name(operator: BinaryOperator) -> (name: &'static str)
    ensures
        name@ == binary_text(operator),
{
    match operator {
        BinaryOperator::Add => "add",
        BinaryOperator::Subtract => "subtract",
        BinaryOperator::Multiply => "multiply",
        BinaryOperator::Divide => "divide",
        BinaryOperator::Equal => "equal",
        BinaryOperator::NotEqual => "not_equal",
        BinaryOperator::Less => "less",
        BinaryOperator::LessEqual => "less_equal",
        BinaryOperator::Greater => "greater",
        BinaryOperator::GreaterEqual => "greater_equal",
        BinaryOperator::And => "and",
        BinaryOperator::Or => "or",
    }
}

/// Whether `spec` is the structural type of `reference`: its dotted path
/// and, in order, the structural types of its arguments.
pub open spec fn spec_of_reference(spec: TypeSpec, reference: TypeReference) -> bool
    decreases reference,
{
    &&& spec.name@ == dotted(string_views(reference.path.segments@))
    &&& spec.arguments@.len() == reference.arguments@.len()
    &&& forall|i: int|
        0 <= i < reference.arguments@.len() ==> spec_of_reference(
            #[trigger] spec.arguments@[i],
            reference.arguments@[i],
        )
}

/// The structural IR type of a written type.
pub fn type_spec(reference: &TypeReference) -> (spec: TypeSpec)
    ensures
        spec_of_reference(spec, *reference),
    decreases reference,
{
    let mut arguments: Vec<TypeSpec> = Vec::new();
    let mut i: usize = 0;
    while i < reference.arguments.len()
        invariant
            i <= reference.arguments@.len(),
            arguments@.len() == i,
            forall|k: int|
                0 <= k < i ==> spec_of_reference(#[trigger] arguments@[k], reference.arguments@[k]),
        decreases reference.arguments@.len() - i,
    {
        arguments.push(type_spec(&reference.arguments[i]));
        i = i + 1;
    }
    TypeSpec { name: reference.path.as_string(), arguments }
}

/// Typed fields of a parameter list, in order.
pub fn fields_from_parameters(parameters: &Vec<Parameter>) -> (fields: Vec<FieldSpec>)
    ensures
        fields@.len() == parameters@.len(),
        forall|i: int| 0 <= i < fields@.len() ==> (#[trigger] fields@[i]).name@ == parameters@[i].name@,
{
    let mut fields: Vec<FieldSpec> = Vec::new();
    let mut i: usize = 0;
    while i < parameters.len()
        invariant
            i <= parameters@.len(),
            fields@.len() == i,
            forall|k: int| 0 <= k < i ==> (#[trigger] fields@[k]).name@ == parameters@[k].name@,
        decreases parameters@.len() - i,
    {
        fields.push(
            FieldSpec { name: parameters[i].name.clone(), ty: type_spec(&parameters[i].ty) },
        );
        i = i + 1;
    }
    fields
}

/// The IR pattern of a match arm pattern.
pub fn pattern_spec(pattern: &Pattern) -> (spec: PatternSpec) {
    match pattern {
        Pattern::Wildcard => PatternSpec::Wildcard,
        Pattern::Variant { path, binding } => PatternSpec::Variant {
            path: path.as_string(),
            binding: match binding {
                Some(b) => Some(b.clone()),
                None => None,
            },
        },
    }
}

fn clone_name(name: &Option<String>) -> (copy: Option<String>)
    ensures
        copy == *name,
{
    match name {
        Some(n) => Some(n.clone()),
        None => None,
    }
}

/// The effect-free expression tree of a pure metadata expression: literals,
/// paths, lists, records, fields, operators and calls of named functions.
/// Anything else is an effect, or a form the pure tree cannot carry.
pub fn pure_expression(expression: &Expression) -> (result: Result<PureExpression, LoweringError>)
    ensures
        result matches Err(e) ==> e == LoweringError::EffectInPureMetadata,
        result matches Ok(pure) ==> lowers_pure(*expression, pure),
        result is Ok <==> pure_form(*expression),
    decreases expression, 1nat,
{
    match &expression.kind {
        ExpressionKind::Unit => Ok(PureExpression::Unit),
        ExpressionKind::Bool { value } => Ok(PureExpression::Bool { value: *value }),
        ExpressionKind::Int { value } => Ok(PureExpression::Int { value: *value }),
        ExpressionKind::Text { value } => Ok(PureExpression::Text { value: value.clone() }),
        ExpressionKind::Path { path } => Ok(PureExpression::Path { path: path.as_string() }),
        ExpressionKind::List { elements } => match pure_elements(elements) {
            Ok(items) => Ok(PureExpression::List { elements: items }),
            Err(e) => Err(e),
        },
        ExpressionKind::Record { path, fields } => match pure_fields(fields) {
            Ok(named) => Ok(PureExpression::Record { ty: path.as_string(), fields: named }),
            Err(e) => Err(e),
        },
        ExpressionKind::Field { target, field } => Ok(
            PureExpression::Field {
                target: Box::new(pure_expression(target)?),
                field: field.clone(),
            },
        ),
        ExpressionKind::Unary { operator, operand } => Ok(
            PureExpression::Unary {
                operator: String::from_str(unary_name(*operator)),
                operand: Box::new(pure_expression(operand)?),
            },
        ),
        ExpressionKind::Binary { left, operator, right } => {
            let left = pure_expression(left)?;
            let right = pure_expression(right)?;
            Ok(
                PureExpression::Binary {
                    left: Box::new(left),
                    operator: String::from_str(binary_name(*operator)),
                    right: Box::new(right),
                },
            )
        },
        ExpressionKind::Call { callee, arguments } => match &callee.kind {
            ExpressionKind::Path { path } => Ok(
                PureExpression::Call {
                    function: path.as_string(),
                    arguments: pure_arguments(arguments)?,
                },
            ),
            _ => Err(LoweringError::EffectInPureMetadata),
        },
        _ => Err(LoweringError::EffectInPureMetadata),
    }
}

fn pure_elements(elements: &Vec<Expression>) -> (result: Result<Vec<PureExpression>, LoweringError>)
    ensures
        result matches Err(e) ==> e == LoweringError::EffectInPureMetadata,
        result matches Ok(items) ==> lowers_pure_list(elements@, items@),
        result is Ok <==> forall|i: int| 0 <= i < elements@.len() ==> pure_form(#[trigger] elements@[i]),
    decreases elements@, 0nat,
{
    let mut out: Vec<PureExpression> = Vec::new();
    let mut i: usize = 0;
    while i < elements.len()
        invariant
            i <= elements@.len(),
            out@.len() == i,
            forall|k: int| 0 <= k < i ==> lowers_pure(elements@[k], #[trigger] out@[k]),
            forall|k: int| 0 <= k < i ==> pure_form(#[trigger] elements@[k]),
        decreases elements@.len() - i,
    {
        match pure_expression(&elements[i]) {
            Ok(p) => out.push(p),
            Err(e) => {
                return Err(e);
            },
        }
        i = i + 1;
    }
    Ok(out)
}

fn pure_arguments(arguments: &Vec<Argument>) -> (result: Result<Vec<NamedExpression>, LoweringError>)
    ensures
        result matches Err(e) ==> e == LoweringError::EffectInPureMetadata,
        result matches Ok(named) ==> lowers_pure_arguments(arguments@, named@),
        result is Ok <==> forall|i: int|
            0 <= i < arguments@.len() ==> pure_form(#[trigger] arguments@[i].value),
    decreases arguments@, 0nat,
{
    let mut out: Vec<NamedExpression> = Vec::new();
    let mut i: usize = 0;
    while i < arguments.len()
        invariant
            i <= arguments@.len(),
            out@.len() == i,
            forall|k: int|
                0 <= k < i ==> (#[trigger] out@[k]).name == arguments@[k].name && lowers_pure(
                    arguments@[k].value,
                    out@[k].value,
                ),
            forall|k: int| 0 <= k < i ==> pure_form(#[trigger] arguments@[k].value),
        decreases arguments@.len() - i,
    {
        let value = match pure_expression(&arguments[i].value) {
            Ok(v) => v,
            Err(e) => {
                return Err(e);
            },
        };
        out.push(NamedExpression { name: clone_name(&arguments[i].name), value });
        i = i + 1;
    }
    Ok(out)
}

fn pure_fields(fields: &Vec<FieldInitializer>) -> (result: Result<Vec<NamedExpression>, LoweringError>)
    ensures
        result matches Err(e) ==> e == LoweringError::EffectInPureMetadata,
        result matches Ok(named) ==> lowers_pure_fields(fields@, named@),
        result is Ok <==> forall|i: int| 0 <= i < fields@.len() ==> pure_form(#[trigger] fields@[i].value),
    decreases fields@, 0nat,
{
    let mut out: Vec<NamedExpression> = Vec::new();
    let mut i: usize = 0;
    while i < fields.len()
        invariant
            i <= fields@.len(),
            out@.len() == i,
            forall|k: int|
                0 <= k < i ==> (#[trigger] out@[k]).name == Some(fields@[k].name) && lowers_pure(
                    fields@[k].value,
                    out@[k].value,
                ),
            forall|k: int| 0 <= k < i ==> pure_form(#[trigger] fields@[k].value),
        decreases fields@.len() - i,
    {
        let value = match pure_expression(&fields[i].value) {
            Ok(v) => v,
            Err(e) => {
                return Err(e);
            },
        };
        out.push(NamedExpression { name: Some(fields[i].name.clone()), value });
        i = i + 1;
    }
    Ok(out)
}

/// A capability requirement with pure argument expressions.
pub fn capability_spec(value: &CapabilityExpression) -> (result: Result<CapabilitySpec, LoweringError>)
    ensures
        result matches Err(e) ==> e == LoweringError::EffectInPureMetadata,
        result is Ok <==> capability_pure(*value),
{
    Ok(CapabilitySpec { name: value.path.as_string(), arguments: pure_arguments(&value.arguments)? })
}

/// The keyword that declares a risk level in source.
pub open spec fn risk_keyword(risk: Risk) -> Keyword {
    match risk {
        Risk::Reversible => Keyword::Reversible,
        Risk::Irreversible => Keyword::Irreversible,
    }
}

/// The keyword that declares a sensitivity level in source.
pub open spec fn sensitivity_keyword(sensitivity: Sensitivity) -> Keyword {
    match sensitivity {
        Sensitivity::Public => Keyword::Public,
        Sensitivity::Internal => Keyword::Internal,
        Sensitivity::Private => Keyword::Private,
        Sensitivity::Secret => Keyword::Secret,
    }
}

/// A lowered tool boundary carries the tool's declared mode, and its risk
/// and sensitivity spelled as they are written in source, or none where
/// the tool declares none.
pub open spec fn tool_spec_declared(spec: ToolSpec, value: ToolDeclaration) -> bool {
    &&& (value.metadata.mode == Some(crate::ast::ToolMode::Read) <==> spec.mode == ToolMode::Read)
    &&& (value.metadata.mode == Some(crate::ast::ToolMode::Write) <==> spec.mode == ToolMode::Write)
    &&& match value.metadata.risk {
        Some(risk) => spec.risk matches Some(text) && text@ == keyword_spelling(risk_keyword(risk)),
        None => spec.risk is None,
    }
    &&& match value.metadata.sensitivity {
        Some(level) => spec.sensitivity matches Some(text) && text@ == keyword_spelling(
            sensitivity_keyword(level),
        ),
        None => spec.sensitivity is None,
    }
}

/// Lowered risk spellings tell the levels apart: two tools whose lowered
/// risks are spelled alike declare the same risk.
pub proof fn law_risk_spelling_distinguishes(first: Risk, second: Risk)
    ensures
        keyword_spelling(risk_keyword(first)) == keyword_spelling(risk_keyword(second)) ==> first == second,
{
    reveal_strlit("reversible");
    reveal_strlit("irreversible");
    assert("reversible"@.len() == 10 && "irreversible"@.len() == 12);
}

/// Lowered sensitivity spellings tell the levels apart.
pub proof fn law_sensitivity_spelling_distinguishes(first: Sensitivity, second: Sensitivity)
    ensures
        keyword_spelling(sensitivity_keyword(first)) == keyword_spelling(sensitivity_keyword(second))
            ==> first == second,
{
    reveal_strlit("public");
    reveal_strlit("internal");
    reveal_strlit("private");
    reveal_strlit("secret");
    assert("public"@.len() == 6 && "internal"@.len() == 8 && "private"@.len() == 7 && "secret"@.len() == 6);
    assert("public"@[0] == 'p' && "secret"@[0] == 's');
}

fn risk_name(risk: Risk) -> (name: &'static str)
    ensures
        name@ == keyword_spelling(risk_keyword(risk)),
{
    match risk {
        Risk::Reversible => "reversible",
        Risk::Irreversible => "irreversible",
    }
}

fn sensitivity_name(sensitivity: Sensitivity) -> (name: &'static str)
    ensures
        name@ == keyword_spelling(sensitivity_keyword(sensitivity)),
{
    match sensitivity {
        Sensitivity::Public => "public",
        Sensitivity::Internal => "internal",
        Sensitivity::Private => "private",
        Sensitivity::Secret => "secret",
    }
}


/// Whether every argument of a capability request is a pure expression.
pub open spec fn capability_pure(value: CapabilityExpression) -> bool {
    forall|i: int| 0 <= i < value.arguments@.len() ==> pure_form(#[trigger] value.arguments@[i].value)
}

/// Whether a tool's runtime metadata lowers: a tool without a mode has
/// none, otherwise its capability request, if any, must be pure.
pub open spec fn tool_pure(value: ToolDeclaration) -> bool {
    value.metadata.mode is Some ==> (value.metadata.capability matches Some(c) ==> capability_pure(c))
}

/// Whether a policy rule's decision and condition are pure.
pub open spec fn rule_pure(rule: crate::ast::PolicyRule) -> bool {
    &&& match rule.decision {
        PolicyDecision::Allow => true,
        PolicyDecision::Approve(e) => pure_form(e),
        PolicyDecision::Deny(e) => pure_form(e),
    }
    &&& (rule.condition matches Some(c) ==> pure_form(c))
}

/// Whether every rule of a policy is pure.
pub open spec fn policy_pure(value: PolicyDeclaration) -> bool {
    forall|i: int| 0 <= i < value.rules@.len() ==> rule_pure(#[trigger] value.rules@[i])
}

/// Whether every requirement of a validator is pure.
pub open spec fn validator_pure(value: crate::ast::ValidatorDeclaration) -> bool {
    forall|i: int| 0 <= i < value.requirements@.len() ==> pure_form(#[trigger] value.requirements@[i])
}

/// Whether the runtime metadata of a declaration lowers: tool capability
/// requests, validator requirements and policy rules must be pure.
pub open spec fn metadata_pure(kind: DeclarationKind) -> bool {
    match kind {
        DeclarationKind::Tool(value) => tool_pure(value),
        DeclarationKind::Validator(value) => validator_pure(value),
        DeclarationKind::Policy(value) => policy_pure(value),
        _ => true,
    }
}

/// The runtime boundary of a tool with a declared mode; a tool without a
/// mode has none.
pub fn tool_spec(value: &ToolDeclaration) -> (result: Result<Option<ToolSpec>, LoweringError>)
    ensures
        result matches Ok(spec) ==> (spec is Some <==> value.metadata.mode is Some),
        result matches Ok(Some(spec)) ==> tool_spec_declared(spec, *value),
        result matches Err(e) ==> e == LoweringError::EffectInPureMetadata,
        result is Ok <==> tool_pure(*value),
{
    let mode = match value.metadata.mode {
        Some(crate::ast::ToolMode::Read) => ToolMode::Read,
        Some(crate::ast::ToolMode::Write) => ToolMode::Write,
        None => return Ok(None),
    };
    let capability = match &value.metadata.capability {
        Some(c) => Some(capability_spec(c)?),
        None => None,
    };
    Ok(
        Some(
            ToolSpec {
                parameters: fields_from_parameters(&value.parameters),
                result_type: type_spec(&value.return_type),
                mode,
                capability,
                idempotency: clone_name(&value.metadata.idempotency),
                risk: match value.metadata.risk {
                    Some(risk) => Some(String::from_str(risk_name(risk))),
                    None => None,
                },
                sensitivity: match value.metadata.sensitivity {
                    Some(sensitivity) => Some(String::from_str(sensitivity_name(sensitivity))),
                    None => None,
                },
            },
        ),
    )
}

/// An ordered policy with pure conditions and decisions.
pub fn policy_spec(value: &PolicyDeclaration) -> (result: Result<PolicySpec, LoweringError>)
    ensures
        result matches Ok(spec) ==> spec.rules@.len() == value.rules@.len(),
        result matches Err(e) ==> e == LoweringError::EffectInPureMetadata,
        result is Ok <==> policy_pure(*value),
{
    let mut rules: Vec<PolicyRuleSpec> = Vec::new();
    let mut i: usize = 0;
    while i < value.rules.len()
        invariant
            i <= value.rules@.len(),
            rules@.len() == i,
            forall|k: int| 0 <= k < i ==> rule_pure(#[trigger] value.rules@[k]),
        decreases value.rules@.len() - i,
    {
        let rule = &value.rules[i];
        let decision = match &rule.decision {
            PolicyDecision::Allow => PolicyDecisionSpec::Allow,
            PolicyDecision::Approve(v) => PolicyDecisionSpec::Approve(pure_expression(v)?),
            PolicyDecision::Deny(v) => PolicyDecisionSpec::Deny(pure_expression(v)?),
        };
        let condition = match &rule.condition {
            Some(c) => Some(pure_expression(c)?),
            None => None,
        };
        rules.push(PolicyRuleSpec { decision, condition });
        i = i + 1;
    }
    Ok(PolicySpec { parameters: fields_from_parameters(&value.parameters), rules })
}


/// The tables of a runtime catalog.
pub enum CatalogTable {
    Aliases,
    Records,
    Prompts,
    Tools,
    Validators,
    Policies,
}

/// The name under which a declaration files an entry in a catalog table,
/// if it files one there: aliases and records by type name, prompts,
/// validators and policies by name, tools with a declared mode by dotted
/// path.
pub open spec fn catalog_entry_name(kind: DeclarationKind, table: CatalogTable) -> Option<Seq<char>> {
    match (kind, table) {
        (DeclarationKind::Type(value), CatalogTable::Aliases) => match value.definition {
            TypeDefinition::Alias(_) => Some(value.name@),
            _ => None,
        },
        (DeclarationKind::Type(value), CatalogTable::Records) => match value.definition {
            TypeDefinition::Record(_) => Some(value.name@),
            _ => None,
        },
        (DeclarationKind::Prompt(value), CatalogTable::Prompts) => Some(value.name@),
        (DeclarationKind::Tool(value), CatalogTable::Tools) => if value.metadata.mode is Some {
            Some(dotted(string_views(value.path.segments@)))
        } else {
            None
        },
        (DeclarationKind::Validator(value), CatalogTable::Validators) => Some(value.name@),
        (DeclarationKind::Policy(value), CatalogTable::Policies) => Some(value.name@),
        _ => None,
    }
}

/// The names a catalog table holds after filing the declarations in order,
/// each once, in byte order.
pub open spec fn catalog_index(declarations: Seq<crate::ast::Declaration>, table: CatalogTable) -> Seq<
    (Seq<char>, ()),
>
    decreases declarations.len(),
{
    if declarations.len() == 0 {
        Seq::empty()
    } else {
        let earlier = catalog_index(declarations.drop_last(), table);
        match catalog_entry_name(declarations.last().kind, table) {
            Some(name) => model_insert(earlier, name, ()),
            None => earlier,
        }
    }
}

/// The keys of a keyed table, in order.
pub open spec fn table_keys<V>(entries: Seq<(String, V)>) -> Seq<(Seq<char>, ())> {
    entries.map_values(|e: (String, V)| (e.0@, ()))
}

/// The keys of members, in order.
pub open spec fn member_keys<M>(members: Seq<(Seq<char>, M)>) -> Seq<(Seq<char>, ())> {
    members.map_values(|m: (Seq<char>, M)| (m.0, ()))
}

/// Filing a member changes the keys as filing its key does.
proof fn lemma_member_keys_insert<M>(members: Seq<(Seq<char>, M)>, key: Seq<char>, value: M)
    ensures
        member_keys(model_insert(members, key, value)) == model_insert(member_keys(members), key, ()),
    decreases members.len(),
{
    let keys = member_keys(members);
    if members.len() == 0 {
        assert(member_keys(model_insert(members, key, value)) =~= seq![(key, ())]);
    } else {
        assert(keys[0].0 == members[0].0);
        assert(member_keys(members.drop_first()) =~= keys.drop_first());
        if key_less(members[0].0, key) {
            lemma_member_keys_insert(members.drop_first(), key, value);
            assert(member_keys(model_insert(members, key, value)) =~= seq![keys[0]] + model_insert(
                keys.drop_first(),
                key,
                (),
            ));
        } else if members[0].0 == key {
            assert(member_keys(model_insert(members, key, value)) =~= seq![(key, ())]
                + keys.drop_first());
        } else {
            assert(member_keys(model_insert(members, key, value)) =~= seq![(key, ())] + keys);
        }
    }
}

/// Filing an entry in a keyed table changes its keys as filing its key does.
proof fn lemma_table_keys_insert<V>(before: Seq<(String, V)>, after: Seq<(String, V)>, key: Seq<char>, value: V)
    requires
        table_view(after) == model_insert(table_view(before), key, value),
    ensures
        table_keys(after) == model_insert(table_keys(before), key, ()),
{
    assert(table_keys(before) =~= member_keys(table_view(before)));
    assert(table_keys(after) =~= member_keys(table_view(after)));
    lemma_member_keys_insert(table_view(before), key, value);
}

/// The catalog's tables hold exactly the names the declarations file there.
pub open spec fn catalog_indexed(catalog: Catalog, declarations: Seq<crate::ast::Declaration>) -> bool {
    &&& table_keys(catalog.aliases@) == catalog_index(declarations, CatalogTable::Aliases)
    &&& table_keys(catalog.records@) == catalog_index(declarations, CatalogTable::Records)
    &&& table_keys(catalog.prompts@) == catalog_index(declarations, CatalogTable::Prompts)
    &&& table_keys(catalog.tools@) == catalog_index(declarations, CatalogTable::Tools)
    &&& table_keys(catalog.validators@) == catalog_index(declarations, CatalogTable::Validators)
    &&& table_keys(catalog.policies@) == catalog_index(declarations, CatalogTable::Policies)
}

/// A tool entry of the catalog lowers one of the first `n` declarations: a
/// tool filed under its own dotted path, whose declared mode, risk and
/// sensitivity the entry carries.
pub open spec fn tool_entry_declared(
    declarations: Seq<crate::ast::Declaration>,
    n: int,
    key: Seq<char>,
    spec: ToolSpec,
) -> bool {
    exists|e: int|
        0 <= e < n && ((#[trigger] declarations[e]).kind matches DeclarationKind::Tool(tool) && dotted(
            string_views(tool.path.segments@),
        ) == key && tool_spec_declared(spec, tool))
}

/// Filing a member keeps the other members and adds the filed one.
proof fn lemma_insert_members<V>(members: Seq<(Seq<char>, V)>, key: Seq<char>, value: V)
    ensures
        forall|x: (Seq<char>, V)|
            #[trigger] model_insert(members, key, value).contains(x) ==> x == (key, value) || members.contains(x),
    decreases members.len(),
{
    let t = model_insert(members, key, value);
    if members.len() == 0 {
        assert forall|x: (Seq<char>, V)| #[trigger] t.contains(x) implies x == (key, value) || members.contains(x) by {
            let i = choose|i: int| 0 <= i < t.len() && t[i] == x;
            assert(i == 0);
        }
    } else if key_less(members[0].0, key) {
        let rest = members.drop_first();
        lemma_insert_members(rest, key, value);
        assert forall|x: (Seq<char>, V)| #[trigger] t.contains(x) implies x == (key, value) || members.contains(x) by {
            let i = choose|i: int| 0 <= i < t.len() && t[i] == x;
            if i == 0 {
                assert(members[0] == x);
            } else {
                assert(model_insert(rest, key, value)[i - 1] == x);
                assert(model_insert(rest, key, value).contains(x));
                if rest.contains(x) {
                    let j = choose|j: int| 0 <= j < rest.len() && rest[j] == x;
                    assert(members[j + 1] == x);
                }
            }
        }
    } else if members[0].0 == key {
        assert forall|x: (Seq<char>, V)| #[trigger] t.contains(x) implies x == (key, value) || members.contains(x) by {
            let i = choose|i: int| 0 <= i < t.len() && t[i] == x;
            if i > 0 {
                assert(members[i] == x);
            }
        }
    } else {
        assert forall|x: (Seq<char>, V)| #[trigger] t.contains(x) implies x == (key, value) || members.contains(x) by {
            let i = choose|i: int| 0 <= i < t.len() && t[i] == x;
            if i > 0 {
                assert(members[i - 1] == x);
            }
        }
    }
}

/// After filing a tool entry, every entry is the filed one or an earlier one.
proof fn lemma_tool_entries_insert(
    before: Seq<(String, ToolSpec)>,
    after: Seq<(String, ToolSpec)>,
    key: Seq<char>,
    value: ToolSpec,
    declarations: Seq<crate::ast::Declaration>,
    n: int,
)
    requires
        table_view(after) == model_insert(table_view(before), key, value),
        forall|k: int| 0 <= k < before.len() ==> tool_entry_declared(declarations, n, #[trigger] before[k].0@, before[k].1),
        tool_entry_declared(declarations, n, key, value),
    ensures
        forall|k: int| 0 <= k < after.len() ==> tool_entry_declared(declarations, n, #[trigger] after[k].0@, after[k].1),
{
    lemma_insert_members(table_view(before), key, value);
    assert forall|k: int| 0 <= k < after.len() implies tool_entry_declared(
        declarations,
        n,
        #[trigger] after[k].0@,
        after[k].1,
    ) by {
        let x = (after[k].0@, after[k].1);
        assert(table_view(after)[k] == x);
        assert(model_insert(table_view(before), key, value).contains(x));
        if x != (key, value) {
            let j = choose|j: int| 0 <= j < table_view(before).len() && table_view(before)[j] == x;
            assert(table_view(before)[j] == (before[j].0@, before[j].1));
            assert(tool_entry_declared(declarations, n, before[j].0@, before[j].1));
        }
    }
}

/// The runtime catalog of a module: aliases, records, prompts, tools with a
/// declared mode, validators and policies, each keyed by name in byte order,
/// a later declaration replacing an earlier one of the same name.
pub fn catalog(module: &Module) -> (result: Result<Catalog, LoweringError>)
    ensures
        result matches Err(e) ==> e == LoweringError::EffectInPureMetadata,
        result matches Ok(c) ==> catalog_indexed(c, module.declarations@),
        result matches Ok(c) ==> forall|k: int|
            0 <= k < c.tools@.len() ==> tool_entry_declared(
                module.declarations@,
                module.declarations@.len() as int,
                #[trigger] c.tools@[k].0@,
                c.tools@[k].1,
            ),
        result is Ok <==> forall|d: int|
            0 <= d < module.declarations@.len() ==> metadata_pure(#[trigger] module.declarations@[d].kind),
{
    let mut catalog = Catalog {
        aliases: Vec::new(),
        records: Vec::new(),
        prompts: Vec::new(),
        tools: Vec::new(),
        validators: Vec::new(),
        policies: Vec::new(),
    };
    let ghost declarations = module.declarations@;
    proof {
        assert(declarations.take(0) =~= Seq::<crate::ast::Declaration>::empty());
        assert(table_keys(catalog.aliases@) =~= Seq::<(Seq<char>, ())>::empty());
        assert(table_keys(catalog.records@) =~= Seq::<(Seq<char>, ())>::empty());
        assert(table_keys(catalog.prompts@) =~= Seq::<(Seq<char>, ())>::empty());
        assert(table_keys(catalog.tools@) =~= Seq::<(Seq<char>, ())>::empty());
        assert(table_keys(catalog.validators@) =~= Seq::<(Seq<char>, ())>::empty());
        assert(table_keys(catalog.policies@) =~= Seq::<(Seq<char>, ())>::empty());
    }
    let mut d: usize = 0;
    while d < module.declarations.len()
        invariant
            d <= declarations.len(),
            declarations == module.declarations@,
            catalog_indexed(catalog, declarations.take(d as int)),
            forall|k: int| 0 <= k < d ==> metadata_pure(#[trigger] declarations[k].kind),
            forall|k: int|
                0 <= k < catalog.tools@.len() ==> tool_entry_declared(
                    declarations,
                    d as int,
                    #[trigger] catalog.tools@[k].0@,
                    catalog.tools@[k].1,
                ),
        decreases module.declarations@.len() - d,
    {
        let ghost before = catalog;
        proof {
            assert(declarations.take(d + 1).drop_last() =~= declarations.take(d as int));
            assert(declarations.take(d + 1).last() == declarations[d as int]);
        }
        match &module.declarations[d].kind {
            DeclarationKind::Type(value) => match &value.definition {
                TypeDefinition::Alias(target) => {
                    let spec = type_spec(target);
                    let ghost filed = spec;
                    insert_ordered(&mut catalog.aliases, value.name.clone(), spec);
                    proof {
                        lemma_table_keys_insert(before.aliases@, catalog.aliases@, value.name@, filed);
                    }
                },
                TypeDefinition::Record(fields) => {
                    let mut specs: Vec<FieldSpec> = Vec::new();
                    let mut i: usize = 0;
                    while i < fields.len()
                        invariant
                            catalog == before,
                        decreases fields@.len() - i,
                    {
                        specs.push(
                            FieldSpec { name: fields[i].name.clone(), ty: type_spec(&fields[i].ty) },
                        );
                        i = i + 1;
                    }
                    let ghost filed = specs;
                    insert_ordered(&mut catalog.records, value.name.clone(), specs);
                    proof {
                        lemma_table_keys_insert(before.records@, catalog.records@, value.name@, filed);
                    }
                },
            },
            DeclarationKind::Prompt(value) => {
                let mut data: Vec<String> = Vec::new();
                let mut i: usize = 0;
                while i < value.data.len()
                    invariant
                        catalog == before,
                    decreases value.data@.len() - i,
                {
                    data.push(value.data[i].clone());
                    i = i + 1;
                }
                let spec = PromptSpec {
                    parameters: fields_from_parameters(&value.parameters),
                    result_type: type_spec(&value.result_type),
                    instruction: value.instruction.clone(),
                    data,
                };
                let ghost filed = spec;
                insert_ordered(&mut catalog.prompts, value.name.clone(), spec);
                proof {
                    lemma_table_keys_insert(before.prompts@, catalog.prompts@, value.name@, filed);
                }
            },
            DeclarationKind::Tool(value) => {
                if let Some(spec) = tool_spec(value)? {
                    let ghost filed = spec;
                    let key = value.path.as_string();
                    proof {
                        assert(declarations[d as int].kind == DeclarationKind::Tool(*value));
                        assert(tool_entry_declared(declarations, d + 1, key@, filed));
                        assert forall|k: int| 0 <= k < before.tools@.len() implies tool_entry_declared(
                            declarations,
                            d + 1,
                            #[trigger] before.tools@[k].0@,
                            before.tools@[k].1,
                        ) by {
                            assert(tool_entry_declared(declarations, d as int, before.tools@[k].0@, before.tools@[k].1));
                        }
                    }
                    insert_ordered(&mut catalog.tools, key, spec);
                    proof {
                        lemma_tool_entries_insert(before.tools@, catalog.tools@, key@, filed, declarations, d + 1);
                        lemma_table_keys_insert(
                            before.tools@,
                            catalog.tools@,
                            dotted(string_views(value.path.segments@)),
                            filed,
                        );
                    }
                }
            },
            DeclarationKind::Validator(value) => {
                let mut requirements: Vec<PureExpression> = Vec::new();
                let mut i: usize = 0;
                while i < value.requirements.len()
                    invariant
                        catalog == before,
                        forall|k: int| 0 <= k < i ==> pure_form(#[trigger] value.requirements@[k]),
                        declarations == module.declarations@,
                        d < declarations.len(),
                        declarations[d as int].kind == DeclarationKind::Validator(*value),
                    decreases value.requirements@.len() - i,
                {
                    let requirement = match pure_expression(&value.requirements[i]) {
                        Ok(r) => r,
                        Err(e) => {
                            proof {
                                assert(!pure_form(value.requirements@[i as int]));
                                assert(0 <= i < value.requirements@.len());
                                assert(!validator_pure(*value));
                                assert(module.declarations@[d as int].kind == DeclarationKind::Validator(*value));
                            }
                            return Err(e);
                        },
                    };
                    requirements.push(requirement);
                    i = i + 1;
                }
                let spec = ValidatorSpec {
                    parameters: fields_from_parameters(&value.parameters),
                    requirements,
                };
                let ghost filed = spec;
                insert_ordered(&mut catalog.validators, value.name.clone(), spec);
                proof {
                    lemma_table_keys_insert(before.validators@, catalog.validators@, value.name@, filed);
                }
            },
            DeclarationKind::Policy(value) => {
                let spec = policy_spec(value)?;
                let ghost filed = spec;
                insert_ordered(&mut catalog.policies, value.name.clone(), spec);
                proof {
                    lemma_table_keys_insert(before.policies@, catalog.policies@, value.name@, filed);
                }
            },
            _ => {},
        }
        d = d + 1;
    }
    proof {
        assert(declarations.take(declarations.len() as int) =~= declarations);
    }
    Ok(catalog)
}

/// Names of the functions and flows among `declarations`, each once, in
/// order of first declaration.
pub open spec fn callable_names_of(declarations: Seq<crate::ast::Declaration>) -> Seq<Seq<char>>
    decreases declarations.len(),
{
    if declarations.len() == 0 {
        Seq::empty()
    } else {
        let earlier = callable_names_of(declarations.drop_last());
        match declarations.last().kind {
            DeclarationKind::Function(value) => add_name(earlier, value.name@),
            DeclarationKind::Flow(value) => add_name(earlier, value.name@),
            _ => earlier,
        }
    }
}

/// Names of the module's functions and flows.
pub fn callable_names(module: &Module) -> (names: Vec<String>)
    ensures
        string_views(names@) == callable_names_of(module.declarations@),
{
    let mut names: Vec<String> = Vec::new();
    let mut d: usize = 0;
    proof {
        assert(string_views(names@) =~= callable_names_of(module.declarations@.take(0)));
    }
    while d < module.declarations.len()
        invariant
            d <= module.declarations@.len(),
            string_views(names@) == callable_names_of(module.declarations@.take(d as int)),
        decreases module.declarations@.len() - d,
    {
        proof {
            assert(module.declarations@.take(d + 1).drop_last() =~= module.declarations@.take(d as int));
            assert(module.declarations@.take(d + 1).last() == module.declarations@[d as int]);
        }
        let ghost before = names@;
        match &module.declarations[d].kind {
            DeclarationKind::Function(value) | DeclarationKind::Flow(value) => {
                proof {
                    lemma_contains_text(names@, value.name@);
                }
                if !contains_text(&names, value.name.as_str()) {
                    names.push(value.name.clone());
                    proof {
                        assert(string_views(names@) =~= string_views(before).push(value.name@));
                    }
                }
            },
            _ => {},
        }
        d = d + 1;
    }
    proof {
        assert(module.declarations@.take(module.declarations@.len() as int) =~= module.declarations@);
    }
    names
}

/// Path segments with the first one replaced by its runtime binding, if it
/// has one.
pub open spec fn resolved_segments(bindings: Seq<(String, String)>, segments: Seq<Seq<char>>) -> Seq<
    Seq<char>,
> {
    if segments.len() == 0 {
        segments
    } else {
        match binding_of(bindings, segments[0]) {
            Some(runtime_name) => segments.update(0, runtime_name),
            None => segments,
        }
    }
}

/// Parameters bound to their own names, filed in key order.
pub open spec fn parameter_bindings(parameters: Seq<Parameter>) -> Seq<(Seq<char>, String)>
    decreases parameters.len(),
{
    if parameters.len() == 0 {
        Seq::empty()
    } else {
        model_insert(
            parameter_bindings(parameters.drop_last()),
            parameters.last().name@,
            parameters.last().name,
        )
    }
}

/// The runtime name of the `index`th local bound from `source_name`.
pub open spec fn local_name(index: u32, source_name: Seq<char>) -> Seq<char> {
    "#local:"@ + crate::text::decimal(index as nat) + ":"@ + source_name
}

/// Builds the explicit instruction stream of one routine.
struct RoutineBuilder {
    name: String,
    callables: Vec<String>,
    instructions: Vec<Instruction>,
    next_value: u32,
    next_binding: u32,
    bindings: Vec<(String, String)>,
}

fn decimal_text(out: &mut String, n: u32)
    ensures
        final(out)@ == old(out)@ + crate::text::decimal(n as nat),
{
    crate::text::push_decimal(out, n as u64);
}

impl RoutineBuilder {
    /// The builder keeps a well-formed instruction stream.
    spec fn wf(&self) -> bool {
        stream_wf(self.instructions@)
    }

    /// Whether two builders differ in their instructions at most.
    spec fn same_apart(&self, other: RoutineBuilder) -> bool {
        &&& self.name == other.name
        &&& self.callables == other.callables
        &&& self.next_value == other.next_value
        &&& self.next_binding == other.next_binding
        &&& self.bindings == other.bindings
    }

    /// Instructions emitted so far.
    spec fn emitted(&self) -> Seq<Instruction> {
        self.instructions@
    }

    /// A builder for routine `name` whose parameters are bound to themselves.
    fn new(name: &str, callables: Vec<String>, parameters: &Vec<Parameter>) -> (builder: RoutineBuilder)
        ensures
            builder.wf(),
            builder.emitted().len() == 0,
            builder.name@ == name@,
            builder.callables == callables,
            builder.next_value == 0,
            builder.next_binding == 0,
            table_view(builder.bindings@) == parameter_bindings(parameters@),
    {
        let mut bindings: Vec<(String, String)> = Vec::new();
        let mut i: usize = 0;
        proof {
            assert(table_view(bindings@) =~= parameter_bindings(parameters@.take(0)));
        }
        while i < parameters.len()
            invariant
                i <= parameters@.len(),
                table_view(bindings@) == parameter_bindings(parameters@.take(i as int)),
            decreases parameters@.len() - i,
        {
            proof {
                assert(parameters@.take(i + 1).drop_last() =~= parameters@.take(i as int));
                assert(parameters@.take(i + 1).last() == parameters@[i as int]);
            }
            bind_in(&mut bindings, parameters[i].name.as_str(), parameters[i].name.clone());
            i = i + 1;
        }
        proof {
            assert(parameters@.take(parameters@.len() as int) =~= parameters@);
        }
        RoutineBuilder {
            name: String::from_str(name),
            callables,
            instructions: Vec::new(),
            next_value: 0,
            next_binding: 0,
            bindings,
        }
    }

    /// The finished instruction stream.
    fn finish(self) -> (instructions: Vec<Instruction>)
        requires
            self.wf(),
        ensures
            stream_wf(instructions@),
    {
        self.instructions
    }

    fn too_large(&self) -> (error: LoweringError)
        ensures
            error == LoweringError::RoutineTooLarge(self.name),
    {
        LoweringError::RoutineTooLarge(self.name.clone())
    }

    fn bind_name(&mut self, source_name: &str) -> (result: Result<String, LoweringError>)
        ensures
            result matches Err(e) ==> !(e is NegativeBudget),
            final(self).instructions == old(self).instructions,
            result is Err <==> old(self).next_binding == u32::MAX,
            result matches Err(e) ==> e == LoweringError::RoutineTooLarge(old(self).name)
                && *final(self) == *old(self),
            result matches Ok(runtime_name) ==> {
                &&& runtime_name@ == local_name(old(self).next_binding, source_name@)
                &&& final(self).next_binding == old(self).next_binding + 1
                &&& table_view(final(self).bindings@) == model_insert(
                    table_view(old(self).bindings@),
                    source_name@,
                    runtime_name,
                )
                &&& final(self).name == old(self).name
                &&& final(self).callables == old(self).callables
                &&& final(self).next_value == old(self).next_value
            },
    {
        let index = self.next_binding;
        if index == u32::MAX {
            return Err(self.too_large());
        }
        self.next_binding = index + 1;
        let mut runtime_name = String::new();
        push_str(&mut runtime_name, "#local:");
        decimal_text(&mut runtime_name, index);
        push_char(&mut runtime_name, ':');
        push_str(&mut runtime_name, source_name);
        proof {
            reveal_strlit("#local:");
            reveal_strlit(":");
            assert(runtime_name@ =~= local_name(index, source_name@));
        }
        bind_in(&mut self.bindings, source_name, runtime_name.clone());
        Ok(runtime_name)
    }

    fn resolved_path(&self, path: &crate::ast::Path) -> (text: String)
        ensures
            text@ == dotted(resolved_segments(self.bindings@, string_views(path.segments@))),
    {
        let mut text = String::new();
        let mut i: usize = 0;
        let ghost all = resolved_segments(self.bindings@, string_views(path.segments@));
        while i < path.segments.len()
            invariant
                i <= path.segments@.len(),
                all == resolved_segments(self.bindings@, string_views(path.segments@)),
                all.len() == path.segments@.len(),
                text@ == dotted(all.take(i as int)),
            decreases path.segments@.len() - i,
        {
            proof {
                assert(all.take(i + 1).drop_last() =~= all.take(i as int));
            }
            if i > 0 {
                push_char(&mut text, '.');
            }
            if i == 0 {
                match lookup_binding(&self.bindings, path.segments[0].as_str()) {
                    Some(runtime_name) => push_str(&mut text, runtime_name.as_str()),
                    None => push_str(&mut text, path.segments[0].as_str()),
                }
            } else {
                push_str(&mut text, path.segments[i].as_str());
            }
            proof {
                let views = all.take(i + 1);
                if i == 0 {
                    assert(text@ =~= views[0]);
                } else {
                    assert(text@ =~= dotted(views.drop_last()) + seq!['.'] + views.last());
                }
            }
            i = i + 1;
        }
        proof {
            assert(all.take(path.segments@.len() as int) =~= all);
        }
        text
    }

    fn value(&mut self) -> (result: Result<ValueId, LoweringError>)
        ensures
            result matches Err(e) ==> !(e is NegativeBudget),
            final(self).instructions == old(self).instructions,
    {
        let value = self.next_value;
        if value == u32::MAX {
            return Err(self.too_large());
        }
        self.next_value = value + 1;
        Ok(ValueId(value))
    }

    fn push(&mut self, kind: InstructionKind) -> (result: Result<usize, LoweringError>)
        requires
            old(self).wf(),
            targets_within(kind, old(self).instructions@.len() + 1 as int),
        ensures
            result matches Err(e) ==> !(e is NegativeBudget),
            final(self).wf(),
            final(self).instructions@.len() >= old(self).instructions@.len(),
            result matches Ok(index) ==> index == old(self).instructions@.len()
                && final(self).instructions@.len() == index + 1,
            result is Ok <==> old(self).instructions@.len() < u32::MAX,
            result matches Err(e) ==> e == LoweringError::RoutineTooLarge(old(self).name)
                && *final(self) == *old(self),
            result is Ok ==> {
                &&& final(self).instructions@.drop_last() == old(self).instructions@
                &&& final(self).instructions@.last().kind == kind
                &&& final(self).same_apart(*old(self))
            },
    {
        let index = self.instructions.len();
        if index >= u32::MAX as usize {
            return Err(self.too_large());
        }
        let ghost before = self.instructions@;
        self.instructions.push(Instruction::new(index as u32, kind));
        proof {
            assert forall|k: int| 0 <= k < self.instructions@.len() implies (
            #[trigger] self.instructions@[k]).id.spec_index() == k && targets_within(
                self.instructions@[k].kind,
                self.instructions@.len() as int,
            ) by {
                if k < before.len() {
                    assert(self.instructions@[k] == before[k]);
                    lemma_targets_grow(before[k].kind, before.len() as int, self.instructions@.len() as int);
                }
            }
        }
        Ok(index)
    }

    fn position(&self) -> (result: Result<u32, LoweringError>)
        ensures
            result matches Err(e) ==> !(e is NegativeBudget),
            result matches Ok(p) ==> p == self.instructions@.len(),
    {
        let n = self.instructions.len();
        if n > u32::MAX as usize {
            return Err(self.too_large());
        }
        Ok(n as u32)
    }

    /// Replaces instruction `index` with a kind whose targets are in range.
    fn patch(&mut self, index: usize, kind: InstructionKind)
        requires
            old(self).wf(),
            index < old(self).instructions@.len(),
            targets_within(kind, old(self).instructions@.len() as int),
        ensures
            final(self).wf(),
            final(self).instructions@.len() == old(self).instructions@.len(),
            final(self).instructions@[index as int].kind == kind,
            forall|k: int|
                0 <= k < old(self).instructions@.len() && k != index ==> #[trigger] final(self).instructions@[k]
                    == old(self).instructions@[k],
            final(self).same_apart(*old(self)),
    {
        let ghost before = self.instructions@;
        proof {
            assert(before[index as int].id.spec_index() == index);
        }
        self.instructions.set(index, Instruction::new(index as u32, kind));
        proof {
            assert forall|k: int| 0 <= k < self.instructions@.len() implies (
            #[trigger] self.instructions@[k]).id.spec_index() == k && targets_within(
                self.instructions@[k].kind,
                self.instructions@.len() as int,
            ) by {
                if k != index {
                    assert(self.instructions@[k] == before[k]);
                }
            }
        }
    }

    /// Lowers a block's statements in order.
    fn lower_block(&mut self, block: &Block) -> (result: Result<(), LoweringError>)
        requires
            old(self).wf(),
        ensures
            result matches Err(e) ==> !(e is NegativeBudget),
            final(self).wf(),
            final(self).instructions@.len() >= old(self).instructions@.len(),
        decreases block, 1nat,
    {
        let mut i: usize = 0;
        while i < block.statements.len()
            invariant
                self.wf(),
                self.instructions@.len() >= old(self).instructions@.len(),
            decreases block.statements@.len() - i,
        {
            self.lower_statement(&block.statements[i])?;
            i = i + 1;
        }
        Ok(())
    }

    fn lower_statement(&mut self, statement: &Statement) -> (result: Result<(), LoweringError>)
        requires
            old(self).wf(),
        ensures
            result matches Err(e) ==> !(e is NegativeBudget),
            final(self).wf(),
            final(self).instructions@.len() >= old(self).instructions@.len(),
        decreases statement, 1nat,
    {
        match &statement.kind {
            StatementKind::Let { name, value, .. } => {
                let value = self.lower_expression(value)?;
                let name = self.bind_name(name.as_str())?;
                self.push(InstructionKind::Bind { name, value })?;
            },
            StatementKind::Require { condition } => {
                let condition = self.lower_expression(condition)?;
                self.push(InstructionKind::Require { condition })?;
            },
            StatementKind::UpdateState { fields } => {
                let fields = self.lower_fields(fields)?;
                self.push(InstructionKind::UpdateState { fields })?;
            },
            StatementKind::Return { value } => {
                let value = self.lower_expression(value)?;
                self.push(InstructionKind::Return { value })?;
            },
            StatementKind::Expression { expression } => {
                self.lower_expression(expression)?;
            },
        }
        Ok(())
    }

    fn lower_expression(&mut self, expression: &Expression) -> (result: Result<ValueId, LoweringError>)
        requires
            old(self).wf(),
        ensures
            result matches Err(e) ==> !(e is NegativeBudget),
            final(self).wf(),
            final(self).instructions@.len() >= old(self).instructions@.len(),
        decreases expression, 1nat,
    {
        match &expression.kind {
            ExpressionKind::Infer { prompt, arguments, model_alias } => {
                let target = self.value()?;
                let arguments = self.lower_arguments(arguments)?;
                self.push(
                    InstructionKind::Infer {
                        target,
                        prompt: prompt.as_string(),
                        arguments,
                        model_alias: model_alias.clone(),
                    },
                )?;
                Ok(target)
            },
            ExpressionKind::Validate { candidate, validator } => {
                let candidate = self.lower_expression(candidate)?;
                let target = self.value()?;
                self.push(
                    InstructionKind::Validate { target, candidate, validator: validator.as_string() },
                )?;
                Ok(target)
            },
            ExpressionKind::Observe { action, arguments } => {
                let arguments = self.lower_arguments(arguments)?;
                let target = self.value()?;
                self.push(
                    InstructionKind::Observe { target, action: action.as_string(), arguments },
                )?;
                Ok(target)
            },
            ExpressionKind::Intent { purpose, fields } => {
                let fields = self.lower_fields(fields)?;
                let target = self.value()?;
                self.push(
                    InstructionKind::ConstructIntent { target, purpose: purpose.as_string(), fields },
                )?;
                Ok(target)
            },
            ExpressionKind::Propose { action, arguments, intent } => {
                let arguments = self.lower_arguments(arguments)?;
                let intent = self.lower_expression(intent)?;
                let target = self.value()?;
                self.push(
                    InstructionKind::ConstructProposal {
                        target,
                        action: action.as_string(),
                        arguments,
                        intent,
                    },
                )?;
                Ok(target)
            },
            ExpressionKind::Authorize { proposal, policy } => {
                let proposal = self.lower_expression(proposal)?;
                let target = self.value()?;
                self.push(
                    InstructionKind::Authorize {
                        target,
                        proposal,
                        policy: policy.as_string(),
                        approval_may_suspend: true,
                    },
                )?;
                Ok(target)
            },
            ExpressionKind::Commit { proposal, permit } => {
                let proposal = self.lower_expression(proposal)?;
                let permit = self.lower_expression(permit)?;
                let target = self.value()?;
                self.push(InstructionKind::Commit { target, proposal, permit })?;
                Ok(target)
            },
            ExpressionKind::Reconcile { receipt, observation, validator } => {
                let receipt = self.lower_expression(receipt)?;
                let observation = self.lower_expression(observation)?;
                let target = self.value()?;
                self.push(
                    InstructionKind::Reconcile {
                        target,
                        receipt,
                        observation,
                        validator: validator.as_string(),
                    },
                )?;
                Ok(target)
            },
            ExpressionKind::Try { value } => {
                let result = self.lower_expression(value)?;
                let target = self.value()?;
                self.push(InstructionKind::UnwrapResult { target, result })?;
                Ok(target)
            },
            ExpressionKind::If { condition, then_block, else_block } => {
                let result = self.value()?;
                let condition = self.lower_expression(condition)?;
                self.lower_if(result, condition, expression)
            },
            ExpressionKind::Match { value, arms } => {
                let result = self.value()?;
                let value = self.lower_expression(value)?;
                self.lower_match(result, value, arms)
            },
            ExpressionKind::Call { callee, arguments } => {
                if let ExpressionKind::Path { path } = &callee.kind {
                    let routine = path.as_string();
                    if contains_text(&self.callables, routine.as_str()) {
                        let target = self.value()?;
                        let arguments = self.lower_arguments(arguments)?;
                        self.push(InstructionKind::Call { target, routine, arguments })?;
                        return Ok(target);
                    }
                }
                self.evaluate_pure(expression)
            },
            _ => self.evaluate_pure(expression),
        }
    }

    fn evaluate_pure(&mut self, expression: &Expression) -> (result: Result<ValueId, LoweringError>)
        requires
            old(self).wf(),
        ensures
            result matches Err(e) ==> !(e is NegativeBudget),
            final(self).wf(),
            final(self).instructions@.len() >= old(self).instructions@.len(),
        decreases expression, 0nat,
    {
        let target = self.value()?;
        let pure = match &expression.kind {
            ExpressionKind::Unit => PureExpression::Unit,
            ExpressionKind::Bool { value } => PureExpression::Bool { value: *value },
            ExpressionKind::Int { value } => PureExpression::Int { value: *value },
            ExpressionKind::Text { value } => PureExpression::Text { value: value.clone() },
            ExpressionKind::Path { path } => PureExpression::Path { path: self.resolved_path(path) },
            ExpressionKind::List { elements } => PureExpression::List {
                elements: self.lower_pure_elements(elements)?,
            },
            ExpressionKind::Record { path, fields } => PureExpression::Record {
                ty: path.as_string(),
                fields: self.lower_pure_fields(fields)?,
            },
            ExpressionKind::Field { target, field } => PureExpression::Field {
                target: Box::new(self.lower_slot(target)?),
                field: field.clone(),
            },
            ExpressionKind::Unary { operator, operand } => {
                let operand = self.lower_slot(operand)?;
                PureExpression::Unary {
                    operator: String::from_str(unary_name(*operator)),
                    operand: Box::new(operand),
                }
            },
            ExpressionKind::Binary { left, operator, right } => {
                let left = self.lower_slot(left)?;
                let right = self.lower_slot(right)?;
                PureExpression::Binary {
                    left: Box::new(left),
                    operator: String::from_str(binary_name(*operator)),
                    right: Box::new(right),
                }
            },
            ExpressionKind::Call { callee, arguments } => match &callee.kind {
                ExpressionKind::Path { path } => PureExpression::Call {
                    function: path.as_string(),
                    arguments: self.lower_pure_arguments(arguments)?,
                },
                _ => return Err(LoweringError::EffectInPureMetadata),
            },
            _ => return Err(LoweringError::EffectInPureMetadata),
        };
        self.push(InstructionKind::Evaluate { target, expression: pure })?;
        Ok(target)
    }

    fn lower_slot(&mut self, expression: &Expression) -> (result: Result<PureExpression, LoweringError>)
        requires
            old(self).wf(),
        ensures
            result matches Err(e) ==> !(e is NegativeBudget),
            final(self).wf(),
            final(self).instructions@.len() >= old(self).instructions@.len(),
        decreases expression, 2nat,
    {
        let value = self.lower_expression(expression)?;
        Ok(PureExpression::Slot { value })
    }

    fn lower_pure_elements(&mut self, elements: &Vec<Expression>) -> (result: Result<
        Vec<PureExpression>,
        LoweringError,
    >)
        requires
            old(self).wf(),
        ensures
            result matches Err(e) ==> !(e is NegativeBudget),
            final(self).wf(),
            final(self).instructions@.len() >= old(self).instructions@.len(),
        decreases elements@, 0nat,
    {
        let mut out: Vec<PureExpression> = Vec::new();
        let mut i: usize = 0;
        while i < elements.len()
            invariant
                self.wf(),
                self.instructions@.len() >= old(self).instructions@.len(),
            decreases elements@.len() - i,
        {
            out.push(self.lower_slot(&elements[i])?);
            i = i + 1;
        }
        Ok(out)
    }

    fn lower_pure_arguments(&mut self, arguments: &Vec<Argument>) -> (result: Result<
        Vec<NamedExpression>,
        LoweringError,
    >)
        requires
            old(self).wf(),
        ensures
            result matches Err(e) ==> !(e is NegativeBudget),
            final(self).wf(),
            final(self).instructions@.len() >= old(self).instructions@.len(),
        decreases arguments@, 0nat,
    {
        let mut out: Vec<NamedExpression> = Vec::new();
        let mut i: usize = 0;
        while i < arguments.len()
            invariant
                self.wf(),
                self.instructions@.len() >= old(self).instructions@.len(),
            decreases arguments@.len() - i,
        {
            let value = self.lower_slot(&arguments[i].value)?;
            out.push(NamedExpression { name: clone_name(&arguments[i].name), value });
            i = i + 1;
        }
        Ok(out)
    }

    fn lower_pure_fields(&mut self, fields: &Vec<FieldInitializer>) -> (result: Result<
        Vec<NamedExpression>,
        LoweringError,
    >)
        requires
            old(self).wf(),
        ensures
            result matches Err(e) ==> !(e is NegativeBudget),
            final(self).wf(),
            final(self).instructions@.len() >= old(self).instructions@.len(),
        decreases fields@, 0nat,
    {
        let mut out: Vec<NamedExpression> = Vec::new();
        let mut i: usize = 0;
        while i < fields.len()
            invariant
                self.wf(),
                self.instructions@.len() >= old(self).instructions@.len(),
            decreases fields@.len() - i,
        {
            let value = self.lower_slot(&fields[i].value)?;
            out.push(NamedExpression { name: Some(fields[i].name.clone()), value });
            i = i + 1;
        }
        Ok(out)
    }

    fn lower_arguments(&mut self, arguments: &Vec<Argument>) -> (result: Result<
        Vec<NamedValue>,
        LoweringError,
    >)
        requires
            old(self).wf(),
        ensures
            result matches Err(e) ==> !(e is NegativeBudget),
            final(self).wf(),
            final(self).instructions@.len() >= old(self).instructions@.len(),
        decreases arguments@, 0nat,
    {
        let mut out: Vec<NamedValue> = Vec::new();
        let mut i: usize = 0;
        while i < arguments.len()
            invariant
                self.wf(),
                self.instructions@.len() >= old(self).instructions@.len(),
            decreases arguments@.len() - i,
        {
            let value = self.lower_expression(&arguments[i].value)?;
            out.push(NamedValue { name: clone_name(&arguments[i].name), value });
            i = i + 1;
        }
        Ok(out)
    }

    fn lower_fields(&mut self, fields: &Vec<FieldInitializer>) -> (result: Result<
        Vec<NamedValue>,
        LoweringError,
    >)
        requires
            old(self).wf(),
        ensures
            result matches Err(e) ==> !(e is NegativeBudget),
            final(self).wf(),
            final(self).instructions@.len() >= old(self).instructions@.len(),
        decreases fields@, 0nat,
    {
        let mut out: Vec<NamedValue> = Vec::new();
        let mut i: usize = 0;
        while i < fields.len()
            invariant
                self.wf(),
                self.instructions@.len() >= old(self).instructions@.len(),
            decreases fields@.len() - i,
        {
            let value = self.lower_expression(&fields[i].value)?;
            out.push(NamedValue { name: Some(fields[i].name.clone()), value });
            i = i + 1;
        }
        Ok(out)
    }

    fn lower_if(&mut self, result: ValueId, condition: ValueId, expression: &Expression) -> (lowered:
        Result<ValueId, LoweringError>)
        requires
            old(self).wf(),
        ensures
            lowered matches Err(e) ==> !(e is NegativeBudget),
            final(self).wf(),
            final(self).instructions@.len() >= old(self).instructions@.len(),
        decreases expression, 0nat,
    {
        let (then_block, else_block) = match &expression.kind {
            ExpressionKind::If { then_block, else_block, .. } => (then_block, else_block),
            _ => return Ok(result),
        };
        let branch_index = self.push(
            InstructionKind::Branch { condition, then_target: 0, else_target: 0 },
        )?;
        let outer_bindings = copy_bindings(&self.bindings);
        let then_target = self.position()?;
        let then_value = self.lower_block_value(then_block)?;
        self.push(InstructionKind::Evaluate { target: result, expression: PureExpression::Slot { value: then_value } })?;
        let jump_index = self.push(InstructionKind::Jump { target: 0 })?;
        self.bindings = copy_bindings(&outer_bindings);
        let else_target = self.position()?;
        let else_value = self.lower_block_value(else_block)?;
        self.push(InstructionKind::Evaluate { target: result, expression: PureExpression::Slot { value: else_value } })?;
        let end = self.position()?;
        self.bindings = outer_bindings;
        self.patch(branch_index, InstructionKind::Branch { condition, then_target, else_target });
        self.patch(jump_index, InstructionKind::Jump { target: end });
        Ok(result)
    }

    fn lower_match(&mut self, result: ValueId, value: ValueId, arms: &Vec<MatchArm>) -> (lowered:
        Result<ValueId, LoweringError>)
        requires
            old(self).wf(),
        ensures
            lowered matches Err(e) ==> !(e is NegativeBudget),
            final(self).wf(),
            final(self).instructions@.len() >= old(self).instructions@.len(),
        decreases arms@, 0nat,
    {
        let match_index = self.push(InstructionKind::Match { value, arms: Vec::new() })?;
        let mut targets: Vec<MatchTarget> = Vec::new();
        let mut jumps: Vec<usize> = Vec::new();
        let outer_bindings = copy_bindings(&self.bindings);
        let mut i: usize = 0;
        while i < arms.len()
            invariant
                self.wf(),
                match_index < self.instructions@.len(),
                self.instructions@.len() >= old(self).instructions@.len(),
                forall|a: int| 0 <= a < targets@.len() ==> (#[trigger] targets@[a]).target
                    <= self.instructions@.len(),
                forall|j: int| 0 <= j < jumps@.len() ==> #[trigger] jumps@[j]
                    < self.instructions@.len(),
            decreases arms@.len() - i,
        {
            self.bindings = copy_bindings(&outer_bindings);
            let arm = &arms[i];
            let mut pattern = pattern_spec(&arm.pattern);
            if let PatternSpec::Variant { path, binding: Some(binding) } = &pattern {
                let bound = self.bind_name(binding.as_str())?;
                pattern = PatternSpec::Variant { path: path.clone(), binding: Some(bound) };
            }
            let target = self.position()?;
            targets.push(MatchTarget { pattern, target });
            let arm_value = self.lower_arm_value(arm)?;
            self.push(InstructionKind::Evaluate { target: result, expression: PureExpression::Slot { value: arm_value } })?;
            let jump = self.push(InstructionKind::Jump { target: 0 })?;
            jumps.push(jump);
            i = i + 1;
        }
        self.bindings = outer_bindings;
        let end = self.position()?;
        self.patch(match_index, InstructionKind::Match { value, arms: targets });
        let mut k: usize = 0;
        while k < jumps.len()
            invariant
                self.wf(),
                end == self.instructions@.len(),
                self.instructions@.len() >= old(self).instructions@.len(),
                forall|j: int| 0 <= j < jumps@.len() ==> #[trigger] jumps@[j]
                    < self.instructions@.len(),
            decreases jumps@.len() - k,
        {
            self.patch(jumps[k], InstructionKind::Jump { target: end });
            k = k + 1;
        }
        Ok(result)
    }

    fn lower_arm_value(&mut self, arm: &MatchArm) -> (result: Result<ValueId, LoweringError>)
        requires
            old(self).wf(),
        ensures
            result matches Err(e) ==> !(e is NegativeBudget),
            final(self).wf(),
            final(self).instructions@.len() >= old(self).instructions@.len(),
        decreases arm, 0nat,
    {
        self.lower_expression(&arm.value)
    }

    fn lower_block_value(&mut self, block: &Block) -> (result: Result<ValueId, LoweringError>)
        requires
            old(self).wf(),
        ensures
            result matches Err(e) ==> !(e is NegativeBudget),
            final(self).wf(),
            final(self).instructions@.len() >= old(self).instructions@.len(),
        decreases block, 2nat,
    {
        let n = block.statements.len();
        if n == 0 {
            return self.evaluate_pure_unit();
        }
        let mut i: usize = 0;
        while i < n - 1
            invariant
                n == block.statements@.len(),
                n > 0,
                self.wf(),
                self.instructions@.len() >= old(self).instructions@.len(),
            decreases n - i,
        {
            self.lower_statement(&block.statements[i])?;
            i = i + 1;
        }
        let last = &block.statements[n - 1];
        match &last.kind {
            StatementKind::Expression { expression } => self.lower_expression(expression),
            _ => {
                self.lower_statement(last)?;
                self.evaluate_pure_unit()
            },
        }
    }

    fn evaluate_pure_unit(&mut self) -> (result: Result<ValueId, LoweringError>)
        requires
            old(self).wf(),
        ensures
            result matches Err(e) ==> !(e is NegativeBudget),
            final(self).wf(),
            final(self).instructions@.len() >= old(self).instructions@.len(),
    {
        let target = self.value()?;
        self.push(InstructionKind::Evaluate { target, expression: PureExpression::Unit })?;
        Ok(target)
    }
}

/// Bindings with their names as texts.
pub open spec fn binding_texts(bindings: Seq<(String, String)>) -> Seq<(Seq<char>, Seq<char>)> {
    bindings.map_values(|b: (String, String)| (b.0@, b.1@))
}

fn copy_bindings(bindings: &Vec<(String, String)>) -> (copy: Vec<(String, String)>)
    ensures
        binding_texts(copy@) == binding_texts(bindings@),
{
    let mut copy: Vec<(String, String)> = Vec::new();
    let mut i: usize = 0;
    while i < bindings.len()
        invariant
            i <= bindings@.len(),
            copy@.len() == i,
            forall|k: int| 0 <= k < i ==> (#[trigger] copy@[k]).0@ == bindings@[k].0@ && copy@[k].1@
                == bindings@[k].1@,
        decreases bindings@.len() - i,
    {
        copy.push((bindings[i].0.clone(), bindings[i].1.clone()));
        i = i + 1;
    }
    proof {
        assert(binding_texts(copy@) =~= binding_texts(bindings@));
    }
    copy
}

/// The runtime name of the first binding of `name`, if any.
pub open spec fn binding_of(bindings: Seq<(String, String)>, name: Seq<char>) -> Option<Seq<char>> {
    match crate::table::position_of(bindings, name) {
        Some(i) => Some(bindings[i].1@),
        None => None,
    }
}

fn lookup_binding(bindings: &Vec<(String, String)>, name: &str) -> (found: Option<String>)
    ensures
        match found {
            Some(runtime_name) => binding_of(bindings@, name@) == Some(runtime_name@),
            None => binding_of(bindings@, name@) is None,
        },
{
    proof {
        crate::table::lemma_position_bounds(bindings@, name@);
    }
    match crate::table::find(bindings, name) {
        Some(i) => Some(bindings[i].1.clone()),
        None => None,
    }
}

fn bind_in(bindings: &mut Vec<(String, String)>, name: &str, runtime_name: String)
    ensures
        table_view(final(bindings)@) == model_insert(table_view(old(bindings)@), name@, runtime_name),
{
    insert_ordered(bindings, String::from_str(name), runtime_name);
}

/// Lowers one routine body into an explicit instruction stream.
pub fn lower_routine(
    name: &str,
    parameters: &Vec<Parameter>,
    return_type: &TypeReference,
    body: &Block,
    callables: &Vec<String>,
) -> (result: Result<Routine, LoweringError>)
    ensures
        result matches Err(e) ==> !(e is NegativeBudget),
        result matches Ok(routine) ==> routine_wf(routine) && routine.name@ == name@,
{
    let mut builder = RoutineBuilder::new(name, copy_names(callables), parameters);
    builder.lower_block(body)?;
    Ok(
        Routine {
            name: String::from_str(name),
            parameters: fields_from_parameters(parameters),
            return_type: type_spec(return_type),
            instructions: builder.finish(),
        },
    )
}

fn copy_names(names: &Vec<String>) -> (copy: Vec<String>) {
    let mut copy: Vec<String> = Vec::new();
    let mut i: usize = 0;
    while i < names.len()
        decreases names@.len() - i,
    {
        copy.push(names[i].clone());
        i = i + 1;
    }
    copy
}

/// Every routine of a program is well formed.
pub open spec fn routines_wf(program: Program) -> bool {
    forall|i: int| 0 <= i < program.routines@.len() ==> routine_wf(
        #[trigger] program.routines@[i].1,
    )
}

fn keyed(prefix: &str, name: &str) -> (key: String) {
    let mut key = String::new();
    push_str(&mut key, prefix);
    push_str(&mut key, name);
    key
}

fn insert_routine(routines: &mut Vec<(String, Routine)>, key: String, routine: Routine)
    requires
        forall|i: int| 0 <= i < old(routines)@.len() ==> routine_wf(#[trigger] old(routines)@[i].1),
        routine_wf(routine),
    ensures
        forall|i: int| 0 <= i < final(routines)@.len() ==> routine_wf(#[trigger] final(routines)@[i].1),
        table_view(final(routines)@) == model_insert(table_view(old(routines)@), key@, routine),
{
    let ghost view = table_view(routines@);
    let mut i: usize = 0;
    while i < routines.len() && crate::text::str_less(routines[i].0.as_str(), key.as_str())
        invariant
            i <= routines@.len(),
            routines@ == old(routines)@,
            view == table_view(routines@),
            forall|j: int| 0 <= j < i ==> key_less(#[trigger] view[j].0, key@),
        decreases routines@.len() - i,
    {
        proof {
            assert(view[i as int].0 == routines@[i as int].0@);
        }
        i = i + 1;
    }
    proof {
        if i < routines@.len() {
            assert(view[i as int].0 == routines@[i as int].0@);
        }
        lemma_model_insert_at(view, key@, routine, i as int);
    }
    let ghost before = routines@;
    if i < routines.len() && str_equal(routines[i].0.as_str(), key.as_str()) {
        routines.set(i, (key, routine));
        proof {
            assert(table_view(routines@) =~= view.update(i as int, (key@, routine)));
            assert forall|k: int| 0 <= k < routines@.len() implies routine_wf(#[trigger] routines@[k].1) by {
                if k != i {
                    assert(routines@[k] == before[k]);
                }
            }
        }
    } else {
        routines.insert(i, (key, routine));
        proof {
            assert(table_view(routines@) =~= view.insert(i as int, (key@, routine)));
            assert forall|k: int| 0 <= k < routines@.len() implies routine_wf(#[trigger] routines@[k].1) by {
                if k < i {
                    assert(routines@[k] == before[k]);
                } else if k > i {
                    assert(routines@[k] == before[k - 1]);
                }
            }
        }
    }
}

/// The routines, agents and catalog of a checked module, before hashing.
pub fn lower_parts(module: &Module) -> (result: Result<
    (Vec<(String, Routine)>, Vec<(String, Agent)>, Catalog),
    LoweringError,
>)
    ensures
        result matches Ok(parts) ==> forall|i: int|
            0 <= i < parts.0@.len() ==> routine_wf(#[trigger] parts.0@[i].1),
        result matches Ok(parts) ==> catalog_indexed(parts.2, module.declarations@),
        result matches Ok(parts) ==> forall|k: int|
            0 <= k < parts.2.tools@.len() ==> tool_entry_declared(
                module.declarations@,
                module.declarations@.len() as int,
                #[trigger] parts.2.tools@[k].0@,
                parts.2.tools@[k].1,
            ),
        result matches Ok(parts) ==> forall|d: int|
            0 <= d < module.declarations@.len() ==> metadata_pure(#[trigger] module.declarations@[d].kind)
                && budget_nonnegative(module.declarations@[d].kind),
        result == Err::<(Vec<(String, Routine)>, Vec<(String, Agent)>, Catalog), LoweringError>(
            LoweringError::NegativeBudget,
        ) ==> exists|d: int|
            0 <= d < module.declarations@.len() && !budget_nonnegative(#[trigger] module.declarations@[d].kind),
{
    let callables = callable_names(module);
    let mut routines: Vec<(String, Routine)> = Vec::new();
    let mut agents: Vec<(String, Agent)> = Vec::new();
    let mut d: usize = 0;
    while d < module.declarations.len()
        invariant
            forall|i: int| 0 <= i < routines@.len() ==> routine_wf(#[trigger] routines@[i].1),
            forall|k: int| 0 <= k < d ==> budget_nonnegative(#[trigger] module.declarations@[k].kind),
        decreases module.declarations@.len() - d,
    {
        match &module.declarations[d].kind {
            DeclarationKind::Function(function) => {
                let key = keyed("fn:", function.name.as_str());
                let routine = lower_routine(
                    key.as_str(),
                    &function.parameters,
                    &function.return_type,
                    &function.body,
                    &callables,
                )?;
                insert_routine(&mut routines, key, routine);
            },
            DeclarationKind::Flow(flow) => {
                let key = keyed("flow:", flow.name.as_str());
                let routine = lower_routine(
                    key.as_str(),
                    &flow.parameters,
                    &flow.return_type,
                    &flow.body,
                    &callables,
                )?;
                insert_routine(&mut routines, key, routine);
            },
            DeclarationKind::Agent(agent) => {
                let mut handlers: Vec<(String, String)> = Vec::new();
                let mut h: usize = 0;
                while h < agent.handlers.len()
                    invariant
                        forall|i: int| 0 <= i < routines@.len() ==> routine_wf(#[trigger] routines@[i].1),
                    decreases agent.handlers@.len() - h,
                {
                    let handler = &agent.handlers[h];
                    let mut key = keyed("agent:", agent.name.as_str());
                    push_char(&mut key, ':');
                    push_str(&mut key, handler.event.as_str());
                    let routine = lower_routine(
                        key.as_str(),
                        &handler.parameters,
                        &handler.return_type,
                        &handler.body,
                        &callables,
                    )?;
                    insert_routine(&mut routines, key.clone(), routine);
                    insert_ordered(&mut handlers, handler.event.clone(), key);
                    h = h + 1;
                }
                let mut state: Vec<StateFieldSpec> = Vec::new();
                let mut s: usize = 0;
                while s < agent.state.len()
                    decreases agent.state@.len() - s,
                {
                    let field = &agent.state[s];
                    state.push(
                        StateFieldSpec {
                            name: field.name.clone(),
                            ty: type_spec(&field.ty),
                            default: pure_expression(&field.default)?,
                        },
                    );
                    s = s + 1;
                }
                let mut budget: Vec<(String, u64)> = Vec::new();
                let mut b: usize = 0;
                while b < agent.budget.len()
                    invariant
                        forall|i: int| 0 <= i < routines@.len() ==> routine_wf(#[trigger] routines@[i].1),
                        forall|k: int| 0 <= k < d ==> budget_nonnegative(#[trigger] module.declarations@[k].kind),
                        forall|q: int| 0 <= q < b ==> (#[trigger] agent.budget@[q]).limit >= 0,
                        d < module.declarations@.len(),
                        module.declarations@[d as int].kind == DeclarationKind::Agent(*agent),
                    decreases agent.budget@.len() - b,
                {
                    let entry = &agent.budget[b];
                    if entry.limit < 0 {
                        proof {
                            assert(!agent_budget_nonnegative(*agent));
                            assert(!budget_nonnegative(module.declarations@[d as int].kind));
                        }
                        return Err(LoweringError::NegativeBudget);
                    }
                    insert_ordered(&mut budget, entry.dimension.clone(), entry.limit as u64);
                    b = b + 1;
                }
                let mut capabilities: Vec<CapabilitySpec> = Vec::new();
                let mut c: usize = 0;
                while c < agent.requires.len()
                    decreases agent.requires@.len() - c,
                {
                    capabilities.push(capability_spec(&agent.requires[c])?);
                    c = c + 1;
                }
                let lowered = Agent {
                    parameters: fields_from_parameters(&agent.parameters),
                    state,
                    budget,
                    handlers,
                    capabilities,
                };
                insert_ordered(&mut agents, agent.name.clone(), lowered);
            },
            _ => {},
        }
        d = d + 1;
    }
    proof {
        assert forall|k: int| 0 <= k < module.declarations@.len() implies budget_nonnegative(
            #[trigger] module.declarations@[k].kind,
        ) by {}
    }
    let catalog = catalog(module)?;
    Ok((routines, agents, catalog))
}


/// Whether every budget limit of an agent is non-negative.
pub open spec fn agent_budget_nonnegative(agent: crate::ast::AgentDeclaration) -> bool {
    forall|q: int| 0 <= q < agent.budget@.len() ==> (#[trigger] agent.budget@[q]).limit >= 0
}

/// Whether a declaration carries no negative budget limit.
pub open spec fn budget_nonnegative(kind: DeclarationKind) -> bool {
    match kind {
        DeclarationKind::Agent(agent) => agent_budget_nonnegative(agent),
        _ => true,
    }
}

/// The compiler version stamped into lowered programs.
pub const COMPILER_VERSION: &'static str = "0.2.0";

/// Lowers a checked module into versioned, deterministic, explicit IR: one
/// routine per function, flow and agent handler, each a well-formed
/// instruction stream; the agents' entry points, state, budgets and
/// capabilities; the runtime catalog; the hash of the normalized syntax
/// tree; and the program hash over the rest.
#[verifier::spinoff_prover]
pub fn lower(checked: &CheckedProgram) -> (result: Result<Program, LoweringError>)
    ensures
        result matches Ok(program) ==> routines_wf(program) && program.schema_version
            == IR_SCHEMA_VERSION && program.module_name@ == crate::ast::dotted(
            crate::ast::string_views(checked.checked_module().name.segments@),
        ),
        result matches Ok(program) ==> catalog_indexed(program.catalog, checked.checked_module().declarations@),
        result matches Ok(program) ==> forall|k: int|
            0 <= k < program.catalog.tools@.len() ==> tool_entry_declared(
                checked.checked_module().declarations@,
                checked.checked_module().declarations@.len() as int,
                #[trigger] program.catalog.tools@[k].0@,
                program.catalog.tools@[k].1,
            ),
        result matches Ok(program) ==> program.program_hash@.len() == 64 && program.source_hash@.len() == 64,
        result matches Ok(program) ==> crate::ir::hash_covers_catalog(program.program_hash@, program.catalog),
        result matches Ok(program) ==> forall|d: int|
            0 <= d < checked.checked_module().declarations@.len() ==> metadata_pure(
                #[trigger] checked.checked_module().declarations@[d].kind,
            ) && budget_nonnegative(checked.checked_module().declarations@[d].kind),
        result == Err::<Program, LoweringError>(LoweringError::NegativeBudget) ==> exists|d: int|
            0 <= d < checked.checked_module().declarations@.len() && !budget_nonnegative(
                #[trigger] checked.checked_module().declarations@[d].kind,
            ),
{
    let module = checked.module();
    let (routines, agents, catalog) = lower_parts(module)?;
    let normalized = normalized_module_json(module);
    let mut program = Program {
        schema_version: IR_SCHEMA_VERSION,
        compiler_version: String::from_str(COMPILER_VERSION),
        module_name: module.name.as_string(),
        source_hash: sha256_hex(normalized.as_str()),
        program_hash: String::new(),
        routines,
        agents,
        catalog,
    };
    program.seal();
    Ok(program)
}

} // verus!
