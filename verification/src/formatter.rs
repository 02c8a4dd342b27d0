use vstd::prelude::*;

use crate::ast::{
    AgentDeclaration, Argument, BinaryOperator, Block, BudgetEntry, CapabilityExpression, Comment,
    Declaration, DeclarationKind, EnumVariant, Expression, ExpressionKind, FieldInitializer,
    FunctionDeclaration, HandlerDeclaration, MatchArm, Module, Parameter, Path, Pattern,
    PolicyDecision, PolicyDeclaration, PolicyRule, PromptDeclaration, Risk, Sensitivity,
    StateField, Statement, StatementKind, ToolDeclaration, ToolMetadata, ToolMode, TypeDefinition,
    TypeField, TypeReference, UnaryOperator, ValidatorDeclaration, dotted, string_views,
};
use crate::diagnostic::Diagnostic;
use crate::json::{encode_json_string, json_quoted};
use crate::lexer::{lexical_diagnostic, lossless_stream, sorted_by_location};
use crate::parser::{comment_texts, comment_views, parse, sorted_by_start, syntax_diagnostic};
use crate::source::SourceFile;
use crate::span::fits_in_memory;
use crate::token::Token;
use crate::text::{
    ends_with_blank_line, ends_with_newline, push_char, push_signed_decimal, push_str,
    signed_decimal, str_equal,
};

verus! {

/// Canonical dotted spelling of a path.
pub open spec fn path_text(path: Path) -> Seq<char> {
    dotted(string_views(path.segments@))
}

/// `parts` separated by `separator`.
pub open spec fn join(parts: Seq<Seq<char>>, separator: Seq<char>) -> Seq<char>
    decreases parts.len(),
{
    if parts.len() == 0 {
        Seq::empty()
    } else if parts.len() == 1 {
        parts[0]
    } else {
        join(parts.drop_last(), separator) + separator + parts.last()
    }
}

/// Canonical spelling of a type reference: `Path` or `Path<T, U>`.
pub open spec fn type_text(ty: TypeReference) -> Seq<char>
    decreases ty,
{
    if ty.arguments@.len() == 0 {
        path_text(ty.path)
    } else {
        path_text(ty.path) + "<"@ + type_list_text(ty.arguments@) + ">"@
    }
}

/// Type references separated by `, `.
pub open spec fn type_list_text(tys: Seq<TypeReference>) -> Seq<char>
    decreases tys,
{
    if tys.len() == 0 {
        Seq::empty()
    } else if tys.len() == 1 {
        type_text(tys[0])
    } else {
        type_list_text(tys.drop_last()) + ", "@ + type_text(tys.last())
    }
}

/// `name: Type` for each parameter, separated by `, `.
pub open spec fn parameters_text(parameters: Seq<Parameter>) -> Seq<char> {
    join(
        Seq::new(parameters.len(), |i: int| parameters[i].name@ + ": "@ + type_text(parameters[i].ty)),
        ", "@,
    )
}

/// Spelling of a unary operator.
pub open spec fn unary_text(operator: UnaryOperator) -> Seq<char> {
    match operator {
        UnaryOperator::Not => "!"@,
        UnaryOperator::Negate => "-"@,
    }
}

/// Spelling of a binary operator.
pub open spec fn binary_text(operator: BinaryOperator) -> Seq<char> {
    match operator {
        BinaryOperator::Add => "+"@,
        BinaryOperator::Subtract => "-"@,
        BinaryOperator::Multiply => "*"@,
        BinaryOperator::Divide => "/"@,
        BinaryOperator::Equal => "=="@,
        BinaryOperator::NotEqual => "!="@,
        BinaryOperator::Less => "<"@,
        BinaryOperator::LessEqual => "<="@,
        BinaryOperator::Greater => ">"@,
        BinaryOperator::GreaterEqual => ">="@,
        BinaryOperator::And => "&&"@,
        BinaryOperator::Or => "||"@,
    }
}

/// Spelling of a match pattern.
pub open spec fn pattern_text(pattern: Pattern) -> Seq<char> {
    match pattern {
        Pattern::Wildcard => "_"@,
        Pattern::Variant { path, binding } => match binding {
            None => path_text(path),
            Some(name) => path_text(path) + "("@ + name@ + ")"@,
        },
    }
}

/// Canonical one-line spelling of an expression. Binary and unary operands
/// are fully parenthesized, so the spelling never depends on precedence.
pub open spec fn expression_text(e: Expression) -> Seq<char>
    decreases e,
{
    match e.kind {
        ExpressionKind::Unit => "()"@,
        ExpressionKind::Bool { value } => if value {
            "true"@
        } else {
            "false"@
        },
        ExpressionKind::Int { value } => signed_decimal(value as int),
        ExpressionKind::Text { value } => json_quoted(value@),
        ExpressionKind::Path { path } => path_text(path),
        ExpressionKind::List { elements } => "["@ + expression_list_text(elements@) + "]"@,
        ExpressionKind::Record { path, fields } => path_text(path) + " { "@ + fields_text(
            fields@,
            ","@,
        ) + " }"@,
        ExpressionKind::Call { callee, arguments } => expression_text(*callee) + "("@
            + arguments_text(arguments@) + ")"@,
        ExpressionKind::Field { target, field } => expression_text(*target) + "."@ + field@,
        ExpressionKind::Unary { operator, operand } => unary_text(operator) + "("@
            + expression_text(*operand) + ")"@,
        ExpressionKind::Binary { left, operator, right } => "("@ + expression_text(*left) + " "@
            + binary_text(operator) + " "@ + expression_text(*right) + ")"@,
        ExpressionKind::Try { value } => "("@ + expression_text(*value) + ")?"@,
        ExpressionKind::If { condition, then_block, else_block } => "if "@ + expression_text(
            *condition,
        ) + " "@ + inline_block_text(then_block) + " else "@ + inline_block_text(else_block),
        ExpressionKind::Match { value, arms } => "match "@ + expression_text(*value) + " { "@
            + arms_text(arms@) + " }"@,
        ExpressionKind::Infer { prompt, arguments, model_alias } => "infer "@ + path_text(prompt)
            + "("@ + arguments_text(arguments@) + ") using @"@ + model_alias@,
        ExpressionKind::Validate { candidate, validator } => "validate "@ + expression_text(
            *candidate,
        ) + " with "@ + path_text(validator),
        ExpressionKind::Observe { action, arguments } => "observe "@ + path_text(action) + "("@
            + arguments_text(arguments@) + ")"@,
        ExpressionKind::Intent { purpose, fields } => "intent "@ + path_text(purpose) + " { "@
            + fields_text(fields@, ";"@) + " }"@,
        ExpressionKind::Propose { action, arguments, intent } => "propose "@ + path_text(action)
            + "("@ + arguments_text(arguments@) + ") for "@ + expression_text(*intent),
        ExpressionKind::Authorize { proposal, policy } => "authorize "@ + expression_text(
            *proposal,
        ) + " using "@ + path_text(policy),
        ExpressionKind::Commit { proposal, permit } => "commit "@ + expression_text(*proposal)
            + " with "@ + expression_text(*permit),
        ExpressionKind::Reconcile { receipt, observation, validator } => "reconcile "@
            + expression_text(*receipt) + " against "@ + expression_text(*observation)
            + " with "@ + path_text(validator),
    }
}

/// Expressions separated by `, `.
pub open spec fn expression_list_text(es: Seq<Expression>) -> Seq<char>
    decreases es,
{
    if es.len() == 0 {
        Seq::empty()
    } else if es.len() == 1 {
        expression_text(es[0])
    } else {
        expression_list_text(es.drop_last()) + ", "@ + expression_text(es.last())
    }
}

/// One call argument: the value, or `name = value`.
pub open spec fn argument_text(argument: Argument) -> Seq<char>
    decreases argument,
{
    match argument.name {
        None => expression_text(argument.value),
        Some(name) => name@ + " = "@ + expression_text(argument.value),
    }
}

/// Arguments separated by `, `.
pub open spec fn arguments_text(arguments: Seq<Argument>) -> Seq<char>
    decreases arguments,
{
    if arguments.len() == 0 {
        Seq::empty()
    } else if arguments.len() == 1 {
        argument_text(arguments[0])
    } else {
        arguments_text(arguments.drop_last()) + ", "@ + argument_text(arguments.last())
    }
}

/// One field initializer followed by `terminator`.
pub open spec fn field_text(field: FieldInitializer, terminator: Seq<char>) -> Seq<char>
    decreases field,
{
    field.name@ + " = "@ + expression_text(field.value) + terminator
}

/// Field initializers, each followed by `terminator`, separated by a space.
pub open spec fn fields_text(fields: Seq<FieldInitializer>, terminator: Seq<char>) -> Seq<char>
    decreases fields,
{
    if fields.len() == 0 {
        Seq::empty()
    } else if fields.len() == 1 {
        field_text(fields[0], terminator)
    } else {
        fields_text(fields.drop_last(), terminator) + " "@ + field_text(fields.last(), terminator)
    }
}

/// One match arm: `pattern => value,`.
pub open spec fn arm_text(arm: MatchArm) -> Seq<char>
    decreases arm,
{
    pattern_text(arm.pattern) + " => "@ + expression_text(arm.value) + ","@
}

/// Match arms separated by a space.
pub open spec fn arms_text(arms: Seq<MatchArm>) -> Seq<char>
    decreases arms,
{
    if arms.len() == 0 {
        Seq::empty()
    } else if arms.len() == 1 {
        arm_text(arms[0])
    } else {
        arms_text(arms.drop_last()) + " "@ + arm_text(arms.last())
    }
}

/// A block on one line: `{ s1 s2 }`.
pub open spec fn inline_block_text(block: Block) -> Seq<char>
    decreases block,
{
    "{ "@ + inline_statements_text(block.statements@) + " }"@
}

/// Statements on one line, separated by a space.
pub open spec fn inline_statements_text(statements: Seq<Statement>) -> Seq<char>
    decreases statements,
{
    if statements.len() == 0 {
        Seq::empty()
    } else if statements.len() == 1 {
        inline_statement_text(statements[0])
    } else {
        inline_statements_text(statements.drop_last()) + " "@ + inline_statement_text(
            statements.last(),
        )
    }
}

/// `: Type` for an annotated binding, nothing otherwise.
pub open spec fn annotation_text(ty: Option<TypeReference>) -> Seq<char> {
    match ty {
        None => Seq::empty(),
        Some(t) => ": "@ + type_text(t),
    }
}

/// One statement on one line.
pub open spec fn inline_statement_text(statement: Statement) -> Seq<char>
    decreases statement,
{
    match statement.kind {
        StatementKind::Let { name, ty, value } => "let "@ + name@ + annotation_text(ty) + " = "@
            + expression_text(value) + ";"@,
        StatementKind::Require { condition } => "require "@ + expression_text(condition) + ";"@,
        StatementKind::UpdateState { fields } => "update state { "@ + fields_text(fields@, ";"@)
            + " }"@,
        StatementKind::Return { value } => "return "@ + expression_text(value) + ";"@,
        StatementKind::Expression { expression } => expression_text(expression) + ";"@,
    }
}

/// `Path(arguments)` of a capability request.
pub open spec fn capability_text(capability: CapabilityExpression) -> Seq<char> {
    path_text(capability.path) + "("@ + arguments_text(capability.arguments@) + ")"@
}

/// Capability requests separated by `, `.
pub open spec fn capabilities_text(capabilities: Seq<CapabilityExpression>) -> Seq<char> {
    join(Seq::new(capabilities.len(), |i: int| capability_text(capabilities[i])), ", "@)
}


/// Appends the canonical spelling of a path.
fn write_path(out: &mut String, path: &Path)
    ensures
        final(out)@ == old(out)@ + path_text(*path),
{
    let text = path.as_string();
    push_str(out, text.as_str());
}

/// Appends the canonical spelling of a type reference.
fn write_type(out: &mut String, ty: &TypeReference)
    ensures
        final(out)@ == old(out)@ + type_text(*ty),
    decreases ty,
{
    let ghost before = out@;
    write_path(out, &ty.path);
    if ty.arguments.len() > 0 {
        push_str(out, "<");
        let ghost base = out@;
        let mut i: usize = 0;
        while i < ty.arguments.len()
            invariant
                i <= ty.arguments@.len(),
                out@ == base + type_list_text(ty.arguments@.take(i as int)),
            decreases ty.arguments@.len() - i,
        {
            let ghost prefix = out@;
            if i > 0 {
                push_str(out, ", ");
            }
            write_type(out, &ty.arguments[i]);
            proof {
                let next = ty.arguments@.take(i + 1);
                assert(next.drop_last() =~= ty.arguments@.take(i as int));
                assert(next.last() == ty.arguments@[i as int]);
                if i == 0 {
                    assert(next.len() == 1);
                    assert(out@ =~= base + type_list_text(next));
                } else {
                    assert(out@ =~= base + type_list_text(next));
                }
            }
            i = i + 1;
        }
        push_str(out, ">");
        proof {
            assert(ty.arguments@.take(ty.arguments@.len() as int) =~= ty.arguments@);
            assert(out@ =~= before + type_text(*ty));
        }
    } else {
        proof {
            assert(out@ =~= before + type_text(*ty));
        }
    }
}

/// Appends `name: Type` for each parameter, separated by `, `.
fn write_parameters(out: &mut String, parameters: &Vec<Parameter>)
    ensures
        final(out)@ == old(out)@ + parameters_text(parameters@),
{
    let ghost parts = Seq::new(
        parameters@.len(),
        |i: int| parameters@[i].name@ + ": "@ + type_text(parameters@[i].ty),
    );
    let ghost base = out@;
    let mut i: usize = 0;
    while i < parameters.len()
        invariant
            i <= parameters@.len(),
            parts.len() == parameters@.len(),
            forall|k: int| 0 <= k < parts.len() ==> #[trigger] parts[k] == parameters@[k].name@ + ": "@ + type_text(parameters@[k].ty),
            out@ == base + join(parts.take(i as int), ", "@),
        decreases parameters@.len() - i,
    {
        if i > 0 {
            push_str(out, ", ");
        }
        push_str(out, parameters[i].name.as_str());
        push_str(out, ": ");
        write_type(out, &parameters[i].ty);
        proof {
            let next = parts.take(i + 1);
            assert(next.drop_last() =~= parts.take(i as int));
            assert(next.last() == parts[i as int]);
            assert(out@ =~= base + join(next, ", "@));
        }
        i = i + 1;
    }
    proof {
        assert(parts.take(parts.len() as int) =~= parts);
        assert(parameters_text(parameters@) == join(parts, ", "@));
    }
}

fn write_unary(out: &mut String, operator: UnaryOperator)
    ensures
        final(out)@ == old(out)@ + unary_text(operator),
{
    match operator {
        UnaryOperator::Not => push_str(out, "!"),
        UnaryOperator::Negate => push_str(out, "-"),
    }
}

fn write_binary(out: &mut String, operator: BinaryOperator)
    ensures
        final(out)@ == old(out)@ + binary_text(operator),
{
    match operator {
        BinaryOperator::Add => push_str(out, "+"),
        BinaryOperator::Subtract => push_str(out, "-"),
        BinaryOperator::Multiply => push_str(out, "*"),
        BinaryOperator::Divide => push_str(out, "/"),
        BinaryOperator::Equal => push_str(out, "=="),
        BinaryOperator::NotEqual => push_str(out, "!="),
        BinaryOperator::Less => push_str(out, "<"),
        BinaryOperator::LessEqual => push_str(out, "<="),
        BinaryOperator::Greater => push_str(out, ">"),
        BinaryOperator::GreaterEqual => push_str(out, ">="),
        BinaryOperator::And => push_str(out, "&&"),
        BinaryOperator::Or => push_str(out, "||"),
    }
}

fn write_pattern(out: &mut String, pattern: &Pattern)
    ensures
        final(out)@ == old(out)@ + pattern_text(*pattern),
{
    let ghost before = out@;
    match pattern {
        Pattern::Wildcard => push_str(out, "_"),
        Pattern::Variant { path, binding } => {
            write_path(out, path);
            match binding {
                None => {},
                Some(name) => {
                    push_str(out, "(");
                    push_str(out, name.as_str());
                    push_str(out, ")");
                },
            }
        },
    }
    proof {
        assert(out@ =~= before + pattern_text(*pattern));
    }
}

/// Appends the JSON string literal of a text value.
fn write_text_literal(out: &mut String, value: &String)
    ensures
        final(out)@ == old(out)@ + json_quoted(value@),
{
    match encode_json_string(value.as_str()) {
        Some(encoded) => push_str(out, encoded.as_str()),
        None => push_str(out, "\"\""),
    }
}


/// Appends the canonical one-line spelling of an expression.
#[verifier::spinoff_prover]
#[verifier::rlimit(40)]
fn write_expression(out: &mut String, e: &Expression)
    ensures
        final(out)@ == old(out)@ + expression_text(*e),
    decreases e,
{
    let ghost before = out@;
    match &e.kind {
        ExpressionKind::Unit => push_str(out, "()"),
        ExpressionKind::Bool { value } => {
            if *value {
                push_str(out, "true");
            } else {
                push_str(out, "false");
            }
            proof {
                assert(out@ =~= before + expression_text(*e));
            }
        },
        ExpressionKind::Int { value } => push_signed_decimal(out, *value),
        ExpressionKind::Text { value } => write_text_literal(out, value),
        ExpressionKind::Path { path } => write_path(out, path),
        ExpressionKind::List { elements } => {
            push_str(out, "[");
            write_expression_list(out, elements);
            push_str(out, "]");
            proof {
                assert(out@ =~= before + expression_text(*e));
            }
        },
        ExpressionKind::Record { path, fields } => {
            write_path(out, path);
            push_str(out, " { ");
            write_fields(out, fields, ",");
            push_str(out, " }");
            proof {
                assert(out@ =~= before + expression_text(*e));
            }
        },
        ExpressionKind::Call { callee, arguments } => {
            write_expression(out, callee);
            push_str(out, "(");
            write_arguments(out, arguments);
            push_str(out, ")");
            proof {
                assert(out@ =~= before + expression_text(*e));
            }
        },
        ExpressionKind::Field { target, field } => {
            write_expression(out, target);
            push_str(out, ".");
            push_str(out, field.as_str());
            proof {
                assert(out@ =~= before + expression_text(*e));
            }
        },
        ExpressionKind::Unary { operator, operand } => {
            write_unary(out, *operator);
            push_str(out, "(");
            write_expression(out, operand);
            push_str(out, ")");
            proof {
                assert(out@ =~= before + expression_text(*e));
            }
        },
        ExpressionKind::Binary { left, operator, right } => {
            push_str(out, "(");
            write_expression(out, left);
            push_str(out, " ");
            write_binary(out, *operator);
            push_str(out, " ");
            write_expression(out, right);
            push_str(out, ")");
            proof {
                assert(out@ =~= before + expression_text(*e));
            }
        },
        ExpressionKind::Try { value } => {
            push_str(out, "(");
            write_expression(out, value);
            push_str(out, ")?");
            proof {
                assert(out@ =~= before + expression_text(*e));
            }
        },
        ExpressionKind::If { condition, then_block, else_block } => {
            push_str(out, "if ");
            write_expression(out, condition);
            push_str(out, " ");
            write_inline_block(out, then_block);
            push_str(out, " else ");
            write_inline_block(out, else_block);
            proof {
                assert(out@ =~= before + expression_text(*e));
            }
        },
        ExpressionKind::Match { value, arms } => {
            push_str(out, "match ");
            write_expression(out, value);
            push_str(out, " { ");
            write_arms(out, arms);
            push_str(out, " }");
            proof {
                assert(out@ =~= before + expression_text(*e));
            }
        },
        ExpressionKind::Infer { prompt, arguments, model_alias } => {
            push_str(out, "infer ");
            write_path(out, prompt);
            push_str(out, "(");
            write_arguments(out, arguments);
            push_str(out, ") using @");
            push_str(out, model_alias.as_str());
            proof {
                assert(out@ =~= before + expression_text(*e));
            }
        },
        ExpressionKind::Validate { candidate, validator } => {
            push_str(out, "validate ");
            write_expression(out, candidate);
            push_str(out, " with ");
            write_path(out, validator);
            proof {
                assert(out@ =~= before + expression_text(*e));
            }
        },
        ExpressionKind::Observe { action, arguments } => {
            push_str(out, "observe ");
            write_path(out, action);
            push_str(out, "(");
            write_arguments(out, arguments);
            push_str(out, ")");
            proof {
                assert(out@ =~= before + expression_text(*e));
            }
        },
        ExpressionKind::Intent { purpose, fields } => {
            push_str(out, "intent ");
            write_path(out, purpose);
            push_str(out, " { ");
            write_fields(out, fields, ";");
            push_str(out, " }");
            proof {
                assert(out@ =~= before + expression_text(*e));
            }
        },
        ExpressionKind::Propose { action, arguments, intent } => {
            push_str(out, "propose ");
            write_path(out, action);
            push_str(out, "(");
            write_arguments(out, arguments);
            push_str(out, ") for ");
            write_expression(out, intent);
            proof {
                assert(out@ =~= before + expression_text(*e));
            }
        },
        ExpressionKind::Authorize { proposal, policy } => {
            push_str(out, "authorize ");
            write_expression(out, proposal);
            push_str(out, " using ");
            write_path(out, policy);
            proof {
                assert(out@ =~= before + expression_text(*e));
            }
        },
        ExpressionKind::Commit { proposal, permit } => {
            push_str(out, "commit ");
            write_expression(out, proposal);
            push_str(out, " with ");
            write_expression(out, permit);
            proof {
                assert(out@ =~= before + expression_text(*e));
            }
        },
        ExpressionKind::Reconcile { receipt, observation, validator } => {
            push_str(out, "reconcile ");
            write_expression(out, receipt);
            push_str(out, " against ");
            write_expression(out, observation);
            push_str(out, " with ");
            write_path(out, validator);
            proof {
                assert(out@ =~= before + expression_text(*e));
            }
        },
    }
    proof {
        assert(out@ =~= before + expression_text(*e));
    }
}

/// Appends expressions separated by `, `.
fn write_expression_list(out: &mut String, es: &Vec<Expression>)
    ensures
        final(out)@ == old(out)@ + expression_list_text(es@),
    decreases es@,
{
    let ghost base = out@;
    let mut i: usize = 0;
    while i < es.len()
        invariant
            i <= es@.len(),
            out@ == base + expression_list_text(es@.take(i as int)),
        decreases es@.len() - i,
    {
        if i > 0 {
            push_str(out, ", ");
        }
        write_expression(out, &es[i]);
        proof {
            let next = es@.take(i + 1);
            assert(next.drop_last() =~= es@.take(i as int));
            assert(next.last() == es@[i as int]);
            assert(out@ =~= base + expression_list_text(next));
        }
        i = i + 1;
    }
    proof {
        assert(es@.take(es@.len() as int) =~= es@);
    }
}

/// Appends call arguments separated by `, `.
fn write_arguments(out: &mut String, arguments: &Vec<Argument>)
    ensures
        final(out)@ == old(out)@ + arguments_text(arguments@),
    decreases arguments@,
{
    let ghost base = out@;
    let mut i: usize = 0;
    while i < arguments.len()
        invariant
            i <= arguments@.len(),
            out@ == base + arguments_text(arguments@.take(i as int)),
        decreases arguments@.len() - i,
    {
        let ghost prefix = out@;
        if i > 0 {
            push_str(out, ", ");
        }
        let ghost middle = out@;
        match &arguments[i].name {
            None => {},
            Some(name) => {
                push_str(out, name.as_str());
                push_str(out, " = ");
            },
        }
        write_expression(out, &arguments[i].value);
        proof {
            assert(out@ =~= middle + argument_text(arguments@[i as int]));
            let next = arguments@.take(i + 1);
            assert(next.drop_last() =~= arguments@.take(i as int));
            assert(next.last() == arguments@[i as int]);
            assert(out@ =~= base + arguments_text(next));
        }
        i = i + 1;
    }
    proof {
        assert(arguments@.take(arguments@.len() as int) =~= arguments@);
    }
}

/// Appends field initializers, each followed by `terminator`, separated by a space.
fn write_fields(out: &mut String, fields: &Vec<FieldInitializer>, terminator: &str)
    ensures
        final(out)@ == old(out)@ + fields_text(fields@, terminator@),
    decreases fields@,
{
    let ghost base = out@;
    let mut i: usize = 0;
    while i < fields.len()
        invariant
            i <= fields@.len(),
            out@ == base + fields_text(fields@.take(i as int), terminator@),
        decreases fields@.len() - i,
    {
        if i > 0 {
            push_str(out, " ");
        }
        let ghost middle = out@;
        push_str(out, fields[i].name.as_str());
        push_str(out, " = ");
        write_expression(out, &fields[i].value);
        push_str(out, terminator);
        proof {
            assert(out@ =~= middle + field_text(fields@[i as int], terminator@));
            let next = fields@.take(i + 1);
            assert(next.drop_last() =~= fields@.take(i as int));
            assert(next.last() == fields@[i as int]);
            assert(out@ =~= base + fields_text(next, terminator@));
        }
        i = i + 1;
    }
    proof {
        assert(fields@.take(fields@.len() as int) =~= fields@);
    }
}

/// Appends match arms separated by a space.
fn write_arms(out: &mut String, arms: &Vec<MatchArm>)
    ensures
        final(out)@ == old(out)@ + arms_text(arms@),
    decreases arms@,
{
    let ghost base = out@;
    let mut i: usize = 0;
    while i < arms.len()
        invariant
            i <= arms@.len(),
            out@ == base + arms_text(arms@.take(i as int)),
        decreases arms@.len() - i,
    {
        if i > 0 {
            push_str(out, " ");
        }
        let ghost middle = out@;
        write_pattern(out, &arms[i].pattern);
        push_str(out, " => ");
        write_expression(out, &arms[i].value);
        push_str(out, ",");
        proof {
            assert(out@ =~= middle + arm_text(arms@[i as int]));
            let next = arms@.take(i + 1);
            assert(next.drop_last() =~= arms@.take(i as int));
            assert(next.last() == arms@[i as int]);
            assert(out@ =~= base + arms_text(next));
        }
        i = i + 1;
    }
    proof {
        assert(arms@.take(arms@.len() as int) =~= arms@);
    }
}

/// Appends a block on one line.
fn write_inline_block(out: &mut String, block: &Block)
    ensures
        final(out)@ == old(out)@ + inline_block_text(*block),
    decreases block,
{
    let ghost before = out@;
    push_str(out, "{ ");
    let ghost base = out@;
    let mut i: usize = 0;
    while i < block.statements.len()
        invariant
            i <= block.statements@.len(),
            out@ == base + inline_statements_text(block.statements@.take(i as int)),
        decreases block.statements@.len() - i,
    {
        if i > 0 {
            push_str(out, " ");
        }
        write_inline_statement(out, &block.statements[i]);
        proof {
            let next = block.statements@.take(i + 1);
            assert(next.drop_last() =~= block.statements@.take(i as int));
            assert(next.last() == block.statements@[i as int]);
            assert(out@ =~= base + inline_statements_text(next));
        }
        i = i + 1;
    }
    push_str(out, " }");
    proof {
        assert(block.statements@.take(block.statements@.len() as int) =~= block.statements@);
        assert(out@ =~= before + inline_block_text(*block));
    }
}

/// Appends `: Type` for an annotated binding.
fn write_annotation(out: &mut String, ty: &Option<TypeReference>)
    ensures
        final(out)@ == old(out)@ + annotation_text(*ty),
{
    let ghost before = out@;
    match ty {
        None => {},
        Some(t) => {
            push_str(out, ": ");
            write_type(out, t);
        },
    }
    proof {
        assert(out@ =~= before + annotation_text(*ty));
    }
}

/// Appends one statement on one line.
#[verifier::spinoff_prover]
#[verifier::rlimit(40)]
fn write_inline_statement(out: &mut String, statement: &Statement)
    ensures
        final(out)@ == old(out)@ + inline_statement_text(*statement),
    decreases statement,
{
    let ghost before = out@;
    match &statement.kind {
        StatementKind::Let { name, ty, value } => {
            push_str(out, "let ");
            push_str(out, name.as_str());
            write_annotation(out, ty);
            push_str(out, " = ");
            write_expression(out, value);
            push_str(out, ";");
        },
        StatementKind::Require { condition } => {
            push_str(out, "require ");
            write_expression(out, condition);
            push_str(out, ";");
        },
        StatementKind::UpdateState { fields } => {
            push_str(out, "update state { ");
            write_fields(out, fields, ";");
            push_str(out, " }");
        },
        StatementKind::Return { value } => {
            push_str(out, "return ");
            write_expression(out, value);
            push_str(out, ";");
        },
        StatementKind::Expression { expression } => {
            write_expression(out, expression);
            push_str(out, ";");
        },
    }
    proof {
        assert(out@ =~= before + inline_statement_text(*statement));
    }
}


/// One unit of the canonical layout of a module.
pub enum LayoutItem {
    /// `text` on a line of its own, indented by `indent` levels of two spaces.
    Line { indent: nat, text: Seq<char> },
    /// A retained comment, verbatim, ended by a newline unless it already ends with one.
    Raw { text: Seq<char> },
    /// A separating empty line, unless the output already ends with one.
    Blank,
}

/// `levels` levels of two-space indentation.
pub open spec fn indentation(levels: nat) -> Seq<char>
    decreases levels,
{
    if levels == 0 {
        Seq::empty()
    } else {
        indentation((levels - 1) as nat) + "  "@
    }
}

/// Whether a text ends with a newline.
pub open spec fn ends_with_newline_text(text: Seq<char>) -> bool {
    text.len() > 0 && text.last() == '\n'
}

/// Whether a text ends with an empty line.
pub open spec fn ends_with_blank_text(text: Seq<char>) -> bool {
    text.len() >= 2 && text[text.len() - 1] == '\n' && text[text.len() - 2] == '\n'
}

/// The output after emitting one layout item.
pub open spec fn emit(out: Seq<char>, item: LayoutItem) -> Seq<char> {
    match item {
        LayoutItem::Line { indent, text } => out + indentation(indent) + text + seq!['\n'],
        LayoutItem::Raw { text } => if ends_with_newline_text(text) {
            out + text
        } else {
            out + text + seq!['\n']
        },
        LayoutItem::Blank => if ends_with_blank_text(out) {
            out
        } else {
            out.push('\n')
        },
    }
}

/// The output after emitting layout items in order.
pub open spec fn render(out: Seq<char>, items: Seq<LayoutItem>) -> Seq<char>
    decreases items.len(),
{
    if items.len() == 0 {
        out
    } else {
        emit(render(out, items.drop_last()), items.last())
    }
}

/// Rendering a concatenation renders its parts in turn.
pub proof fn lemma_render_concat(out: Seq<char>, a: Seq<LayoutItem>, b: Seq<LayoutItem>)
    ensures
        render(out, a + b) == render(render(out, a), b),
    decreases b.len(),
{
    if b.len() == 0 {
        assert(a + b =~= a);
    } else {
        assert((a + b).drop_last() =~= a + b.drop_last());
        assert((a + b).last() == b.last());
        lemma_render_concat(out, a, b.drop_last());
    }
}

/// Lines of the same indentation.
pub open spec fn lines(indent: nat, texts: Seq<Seq<char>>) -> Seq<LayoutItem> {
    Seq::new(texts.len(), |j: int| LayoutItem::Line { indent, text: texts[j] })
}

proof fn lemma_lines_step(indent: nat, texts: Seq<Seq<char>>, k: int)
    requires
        0 <= k < texts.len(),
    ensures
        lines(indent, texts.take(k + 1)) == lines(indent, texts.take(k)).push(
            LayoutItem::Line { indent, text: texts[k] },
        ),
{
    assert(lines(indent, texts.take(k + 1)) =~= lines(indent, texts.take(k)).push(
        LayoutItem::Line { indent, text: texts[k] },
    ));
}


/// Line of one record field: `name: Type,`.
pub open spec fn record_field_line(field: TypeField) -> Seq<char> {
    field.name@ + ": "@ + type_text(field.ty) + ","@
}

/// Line of one enum variant: `Name,` or `Name(Type),`.
pub open spec fn variant_line(variant: EnumVariant) -> Seq<char> {
    match variant.payload {
        None => variant.name@ + ","@,
        Some(ty) => variant.name@ + "("@ + type_text(ty) + ")"@ + ","@,
    }
}

/// Line of one multi-line state update field: `name = value;`.
pub open spec fn update_field_line(field: FieldInitializer) -> Seq<char> {
    field.name@ + " = "@ + expression_text(field.value) + ";"@
}

/// Layout of one statement in a block body.
pub open spec fn statement_layout(statement: Statement, indent: nat) -> Seq<LayoutItem> {
    match statement.kind {
        StatementKind::UpdateState { fields } => seq![
            LayoutItem::Line { indent, text: "update state {"@ },
        ] + lines(indent + 1, Seq::new(fields@.len(), |j: int| update_field_line(fields@[j])))
            + seq![LayoutItem::Line { indent, text: "}"@ }],
        _ => seq![LayoutItem::Line { indent, text: inline_statement_text(statement) }],
    }
}

/// Layout of the statements of a block body.
pub open spec fn statements_layout(statements: Seq<Statement>, indent: nat) -> Seq<LayoutItem>
    decreases statements.len(),
{
    if statements.len() == 0 {
        Seq::empty()
    } else {
        statements_layout(statements.drop_last(), indent) + statement_layout(
            statements.last(),
            indent,
        )
    }
}

/// Header line of a function or flow.
pub open spec fn function_header(keyword: Seq<char>, d: FunctionDeclaration) -> Seq<char> {
    keyword + " "@ + d.name@ + "("@ + parameters_text(d.parameters@) + ") -> "@ + type_text(
        d.return_type,
    ) + (if keyword == "flow"@ {
        " uses ["@ + capabilities_text(d.uses@) + "]"@
    } else {
        Seq::empty()
    }) + " {"@
}

/// Layout of a function or flow.
pub open spec fn function_layout(keyword: Seq<char>, d: FunctionDeclaration, indent: nat) -> Seq<
    LayoutItem,
> {
    seq![LayoutItem::Line { indent, text: function_header(keyword, d) }] + statements_layout(
        d.body.statements@,
        indent + 1,
    ) + seq![LayoutItem::Line { indent, text: "}"@ }]
}

/// Layout of a prompt.
pub open spec fn prompt_layout(d: PromptDeclaration, indent: nat) -> Seq<LayoutItem> {
    seq![
        LayoutItem::Line {
            indent,
            text: "prompt "@ + d.name@ + "("@ + parameters_text(d.parameters@) + ") -> "@
                + type_text(d.result_type) + " {"@,
        },
        LayoutItem::Line { indent: indent + 1, text: "instruction \"\"\""@ + d.instruction@ + "\"\"\";"@ },
        LayoutItem::Blank,
        LayoutItem::Line { indent: indent + 1, text: "data {"@ },
    ] + lines(indent + 2, Seq::new(d.data@.len(), |j: int| d.data@[j]@ + ","@)) + seq![
        LayoutItem::Line { indent: indent + 1, text: "};"@ },
        LayoutItem::Line { indent, text: "}"@ },
    ]
}

/// Layout of a validator.
pub open spec fn validator_layout(d: ValidatorDeclaration, indent: nat) -> Seq<LayoutItem> {
    seq![
        LayoutItem::Line {
            indent,
            text: "validator "@ + d.name@ + "("@ + parameters_text(d.parameters@) + ") {"@,
        },
    ] + lines(
        indent + 1,
        Seq::new(
            d.requirements@.len(),
            |j: int| "require "@ + expression_text(d.requirements@[j]) + ";"@,
        ),
    ) + seq![LayoutItem::Line { indent, text: "}"@ }]
}

/// Spelling of a tool mode.
pub open spec fn mode_text(mode: ToolMode) -> Seq<char> {
    match mode {
        ToolMode::Read => "read"@,
        ToolMode::Write => "write"@,
    }
}

/// Spelling of a risk level.
pub open spec fn risk_text(risk: Risk) -> Seq<char> {
    match risk {
        Risk::Reversible => "reversible"@,
        Risk::Irreversible => "irreversible"@,
    }
}

/// Spelling of a sensitivity level.
pub open spec fn sensitivity_text(sensitivity: Sensitivity) -> Seq<char> {
    match sensitivity {
        Sensitivity::Public => "public"@,
        Sensitivity::Internal => "internal"@,
        Sensitivity::Private => "private"@,
        Sensitivity::Secret => "secret"@,
    }
}

/// Metadata lines of a tool, in canonical order: mode, capability, risk,
/// idempotency, sensitivity; absent entries are omitted.
pub open spec fn tool_metadata_texts(metadata: ToolMetadata) -> Seq<Seq<char>> {
    (match metadata.mode {
        Some(mode) => seq!["mode "@ + mode_text(mode) + ";"@],
        None => Seq::empty(),
    }) + (match metadata.capability {
        Some(capability) => seq!["capability "@ + capability_text(capability) + ";"@],
        None => Seq::empty(),
    }) + (match metadata.risk {
        Some(risk) => seq!["risk "@ + risk_text(risk) + ";"@],
        None => Seq::empty(),
    }) + (match metadata.idempotency {
        Some(key) => seq!["idempotency "@ + key@ + ";"@],
        None => Seq::empty(),
    }) + (match metadata.sensitivity {
        Some(sensitivity) => seq!["sensitivity "@ + sensitivity_text(sensitivity) + ";"@],
        None => Seq::empty(),
    })
}

/// Layout of a tool.
pub open spec fn tool_layout(d: ToolDeclaration, indent: nat) -> Seq<LayoutItem> {
    seq![
        LayoutItem::Line {
            indent,
            text: "tool "@ + path_text(d.path) + "("@ + parameters_text(d.parameters@) + ") -> "@
                + type_text(d.return_type) + " {"@,
        },
    ] + lines(indent + 1, tool_metadata_texts(d.metadata)) + seq![
        LayoutItem::Line { indent, text: "}"@ },
    ]
}

/// Line of one policy rule.
pub open spec fn rule_line(rule: PolicyRule) -> Seq<char> {
    (match rule.decision {
        PolicyDecision::Allow => "allow"@,
        PolicyDecision::Approve(principal) => "approve by "@ + expression_text(principal),
        PolicyDecision::Deny(reason) => "deny "@ + expression_text(reason),
    }) + " "@ + (match rule.condition {
        None => "otherwise"@,
        Some(condition) => "when "@ + expression_text(condition),
    }) + ";"@
}

/// Layout of a policy.
pub open spec fn policy_layout(d: PolicyDeclaration, indent: nat) -> Seq<LayoutItem> {
    seq![
        LayoutItem::Line {
            indent,
            text: "policy "@ + d.name@ + "("@ + parameters_text(d.parameters@) + ") {"@,
        },
    ] + lines(indent + 1, Seq::new(d.rules@.len(), |j: int| rule_line(d.rules@[j]))) + seq![
        LayoutItem::Line { indent, text: "}"@ },
    ]
}

/// Line of one agent state field.
pub open spec fn state_line(field: StateField) -> Seq<char> {
    field.name@ + ": "@ + type_text(field.ty) + " = "@ + expression_text(field.default) + ";"@
}

/// Line of one budget entry.
pub open spec fn budget_line(entry: BudgetEntry) -> Seq<char> {
    entry.dimension@ + " <= "@ + signed_decimal(entry.limit as int) + ";"@
}

/// Layout of one event handler, preceded by a separating line.
pub open spec fn handler_layout(handler: HandlerDeclaration, indent: nat) -> Seq<LayoutItem> {
    seq![
        LayoutItem::Blank,
        LayoutItem::Line {
            indent,
            text: "on "@ + handler.event@ + "("@ + parameters_text(handler.parameters@) + ") -> "@
                + type_text(handler.return_type) + " {"@,
        },
    ] + statements_layout(handler.body.statements@, indent + 1) + seq![
        LayoutItem::Line { indent, text: "}"@ },
    ]
}

/// Layout of event handlers in order.
pub open spec fn handlers_layout(handlers: Seq<HandlerDeclaration>, indent: nat) -> Seq<LayoutItem>
    decreases handlers.len(),
{
    if handlers.len() == 0 {
        Seq::empty()
    } else {
        handlers_layout(handlers.drop_last(), indent) + handler_layout(handlers.last(), indent)
    }
}

/// Opening lines of an agent: signature and capability requirements.
pub open spec fn agent_opening(d: AgentDeclaration, indent: nat) -> Seq<LayoutItem> {
    seq![
        LayoutItem::Line {
            indent,
            text: "agent "@ + d.name@ + "("@ + parameters_text(d.parameters@) + ")"@,
        },
        LayoutItem::Line { indent, text: "requires ["@ },
    ] + lines(
        indent + 1,
        Seq::new(d.requires@.len(), |j: int| requires_line(d.requires@[j])),
    ) + seq![LayoutItem::Line { indent, text: "] {"@ }]
}

/// State and budget blocks of an agent body.
pub open spec fn agent_state_budget(d: AgentDeclaration, indent: nat) -> Seq<LayoutItem> {
    seq![LayoutItem::Line { indent, text: "state {"@ }] + lines(
        indent + 1,
        Seq::new(d.state@.len(), |j: int| state_line(d.state@[j])),
    ) + seq![
        LayoutItem::Line { indent, text: "}"@ },
        LayoutItem::Blank,
        LayoutItem::Line { indent, text: "budget per_event {"@ },
    ] + lines(indent + 1, Seq::new(d.budget@.len(), |j: int| budget_line(d.budget@[j]))) + seq![
        LayoutItem::Line { indent, text: "}"@ },
    ]
}

/// Layout of an agent: opening, state and budget blocks, handlers, closing brace.
pub open spec fn agent_layout(d: AgentDeclaration, indent: nat) -> Seq<LayoutItem> {
    agent_opening(d, indent) + agent_state_budget(d, indent + 1) + handlers_layout(
        d.handlers@,
        indent + 1,
    ) + seq![LayoutItem::Line { indent, text: "}"@ }]
}

/// Canonical layout of one declaration.
pub open spec fn declaration_layout(declaration: Declaration) -> Seq<LayoutItem> {
    match declaration.kind {
        DeclarationKind::Type(d) => match d.definition {
            TypeDefinition::Alias(ty) => seq![
                LayoutItem::Line { indent: 0, text: "type "@ + d.name@ + " = "@ + type_text(ty) + ";"@ },
            ],
            TypeDefinition::Record(fields) => seq![
                LayoutItem::Line { indent: 0, text: "type "@ + d.name@ + " = {"@ },
            ] + lines(1, Seq::new(fields@.len(), |j: int| record_field_line(fields@[j]))) + seq![
                LayoutItem::Line { indent: 0, text: "};"@ },
            ],
        },
        DeclarationKind::Enum(d) => seq![
            LayoutItem::Line { indent: 0, text: "enum "@ + d.name@ + " {"@ },
        ] + lines(1, Seq::new(d.variants@.len(), |j: int| variant_line(d.variants@[j]))) + seq![
            LayoutItem::Line { indent: 0, text: "}"@ },
        ],
        DeclarationKind::Capability(d) => seq![
            LayoutItem::Line {
                indent: 0,
                text: "capability "@ + d.name@ + "("@ + parameters_text(d.parameters@) + ");"@,
            },
        ],
        DeclarationKind::Function(d) => function_layout("fn"@, d, 0),
        DeclarationKind::Flow(d) => function_layout("flow"@, d, 0),
        DeclarationKind::Prompt(d) => prompt_layout(d, 0),
        DeclarationKind::Validator(d) => validator_layout(d, 0),
        DeclarationKind::Tool(d) => tool_layout(d, 0),
        DeclarationKind::Policy(d) => policy_layout(d, 0),
        DeclarationKind::Agent(d) => agent_layout(d, 0),
    }
}

/// Index of the first comment at or after `from` that starts at or after `boundary`.
pub open spec fn comments_stop(comments: Seq<Comment>, from: int, boundary: int) -> int
    decreases comments.len() - from,
{
    if from < 0 || from >= comments.len() || comments[from].span.start >= boundary {
        from
    } else {
        comments_stop(comments, from + 1, boundary)
    }
}

/// Comments `from..to` emitted verbatim.
pub open spec fn raws(comments: Seq<Comment>, from: int, to: int) -> Seq<LayoutItem> {
    Seq::new((to - from) as nat, |j: int| LayoutItem::Raw { text: comments[from + j].text@ })
}

/// Layout of the declarations from index `k` on, with pending comments from
/// index `next_comment`: each declaration is preceded by the comments that
/// start before its end, and the remaining comments close the module.
pub open spec fn declarations_layout(
    comments: Seq<Comment>,
    declarations: Seq<Declaration>,
    k: int,
    next_comment: int,
) -> Seq<LayoutItem>
    decreases declarations.len() - k,
{
    if k < 0 || k >= declarations.len() {
        raws(comments, next_comment, comments_stop(comments, next_comment, usize::MAX as int))
    } else {
        let stop = comments_stop(comments, next_comment, declarations[k].span.end as int);
        raws(comments, next_comment, stop) + declaration_layout(declarations[k]) + (if k + 1
            < declarations.len() {
            seq![LayoutItem::Blank]
        } else {
            Seq::empty()
        }) + declarations_layout(comments, declarations, k + 1, stop)
    }
}

/// Canonical layout of a module.
pub open spec fn module_layout(module: Module) -> Seq<LayoutItem> {
    let comments = module.comments@;
    let first = comments_stop(comments, 0, module.span.start as int);
    raws(comments, 0, first) + seq![
        LayoutItem::Line { indent: 0, text: "module "@ + path_text(module.name) + ";"@ },
    ] + (if module.declarations@.len() > 0 {
        seq![LayoutItem::Blank]
    } else {
        Seq::empty()
    }) + declarations_layout(comments, module.declarations@, 0, first)
}

/// The one canonical text of a module: its layout rendered, ending with a newline.
pub open spec fn module_text(module: Module) -> Seq<char> {
    let out = render(Seq::empty(), module_layout(module));
    if ends_with_newline_text(out) {
        out
    } else {
        out.push('\n')
    }
}


/// Builds the canonical text of a module line by line.
struct Formatter {
    output: String,
    indent: usize,
    log: Ghost<Seq<LayoutItem>>,
}

impl Formatter {
    /// The output is the rendering of the items emitted so far.
    spec fn wf(&self) -> bool {
        self.output@ == render(Seq::empty(), self.log@)
    }

    fn write_indent(&mut self)
        ensures
            final(self).output@ == old(self).output@ + indentation(old(self).indent as nat),
            final(self).indent == old(self).indent,
            final(self).log == old(self).log,
    {
        let ghost before = self.output@;
        let ghost indent0 = self.indent;
        let ghost log0 = self.log;
        let mut level: usize = 0;
        while level < self.indent
            invariant
                self.indent == indent0,
                self.log == log0,
                level <= self.indent,
                self.output@ == before + indentation(level as nat),
            decreases self.indent - level,
        {
            push_str(&mut self.output, "  ");
            proof {
                assert(indentation((level + 1) as nat) == indentation(level as nat) + "  "@);
                assert(self.output@ =~= before + indentation((level + 1) as nat));
            }
            level = level + 1;
        }
    }

    fn line(&mut self, text: &str)
        requires
            old(self).wf(),
        ensures
            final(self).wf(),
            final(self).indent == old(self).indent,
            final(self).log@ == old(self).log@.push(
                LayoutItem::Line { indent: old(self).indent as nat, text: text@ },
            ),
    {
        let ghost before = self.output@;
        self.write_indent();
        push_str(&mut self.output, text);
        push_char(&mut self.output, '\n');
        let ghost item = LayoutItem::Line { indent: self.indent as nat, text: text@ };
        self.log = Ghost(self.log@.push(item));
        proof {
            assert(self.log@.drop_last() =~= old(self).log@);
            assert(self.output@ =~= emit(before, item));
        }
    }

    fn raw_line(&mut self, text: &str)
        requires
            old(self).wf(),
        ensures
            final(self).wf(),
            final(self).indent == old(self).indent,
            final(self).log@ == old(self).log@.push(LayoutItem::Raw { text: text@ }),
    {
        let ghost before = self.output@;
        push_str(&mut self.output, text);
        if !ends_with_newline(text) {
            push_char(&mut self.output, '\n');
        }
        let ghost item = LayoutItem::Raw { text: text@ };
        self.log = Ghost(self.log@.push(item));
        proof {
            assert(self.log@.drop_last() =~= old(self).log@);
            assert(self.output@ =~= emit(before, item));
        }
    }

    fn blank_line(&mut self)
        requires
            old(self).wf(),
        ensures
            final(self).wf(),
            final(self).indent == old(self).indent,
            final(self).log@ == old(self).log@.push(LayoutItem::Blank),
    {
        let ghost before = self.output@;
        if !ends_with_blank_line(self.output.as_str()) {
            push_char(&mut self.output, '\n');
        }
        self.log = Ghost(self.log@.push(LayoutItem::Blank));
        proof {
            assert(self.log@.drop_last() =~= old(self).log@);
            assert(self.output@ =~= emit(before, LayoutItem::Blank));
        }
    }

    /// Emits each text as a line one level deeper than the current indentation.
    fn indented_lines(&mut self, texts: &Vec<String>)
        requires
            old(self).wf(),
            old(self).indent < usize::MAX,
        ensures
            final(self).wf(),
            final(self).indent == old(self).indent,
            final(self).log@ == old(self).log@ + lines(
                (old(self).indent + 1) as nat,
                string_views(texts@),
            ),
    {
        let ghost log0 = self.log@;
        let ghost views = string_views(texts@);
        let ghost level = (self.indent + 1) as nat;
        self.indent = self.indent + 1;
        let mut k: usize = 0;
        while k < texts.len()
            invariant
                self.wf(),
                self.indent == level,
                k <= texts@.len(),
                views == string_views(texts@),
                self.log@ == log0 + lines(level, views.take(k as int)),
            decreases texts@.len() - k,
        {
            self.line(texts[k].as_str());
            proof {
                lemma_lines_step(level, views, k as int);
                assert(views[k as int] == texts@[k as int]@);
                assert(self.log@ =~= log0 + lines(level, views.take(k + 1)));
            }
            k = k + 1;
        }
        self.indent = self.indent - 1;
        proof {
            assert(views.take(views.len() as int) =~= views);
        }
    }
}



/// Lines of record fields.
fn record_field_lines(fields: &Vec<TypeField>) -> (texts: Vec<String>)
    ensures
        string_views(texts@) == Seq::new(fields@.len(), |j: int| record_field_line(fields@[j])),
{
    let mut texts: Vec<String> = Vec::new();
    let mut k: usize = 0;
    while k < fields.len()
        invariant
            k <= fields@.len(),
            string_views(texts@) == Seq::new(k as nat, |j: int| record_field_line(fields@[j])),
        decreases fields@.len() - k,
    {
        let item = &fields[k];
        let mut text = String::new();
        push_str(&mut text, item.name.as_str());
        push_str(&mut text, ": ");
        write_type(&mut text, &item.ty);
        push_str(&mut text, ",");
        proof {
            assert(text@ =~= record_field_line(fields@[k as int]));
        }
        let ghost prev = texts@;
        let ghost added = text;
        texts.push(text);
        proof {
            lemma_string_views_push(prev, added);
            assert(Seq::new((k + 1) as nat, |j: int| record_field_line(fields@[j])) =~= Seq::new(k as nat, |j: int| record_field_line(fields@[j])).push(
                record_field_line(fields@[k as int]),
            ));
        }
        k = k + 1;
    }
    texts
}

/// Lines of enum variants.
fn variant_lines(variants: &Vec<EnumVariant>) -> (texts: Vec<String>)
    ensures
        string_views(texts@) == Seq::new(variants@.len(), |j: int| variant_line(variants@[j])),
{
    let mut texts: Vec<String> = Vec::new();
    let mut k: usize = 0;
    while k < variants.len()
        invariant
            k <= variants@.len(),
            string_views(texts@) == Seq::new(k as nat, |j: int| variant_line(variants@[j])),
        decreases variants@.len() - k,
    {
        let item = &variants[k];
        let mut text = String::new();
        push_str(&mut text, item.name.as_str());
        match &item.payload {
            None => {},
            Some(ty) => {
                push_str(&mut text, "(");
                write_type(&mut text, ty);
                push_str(&mut text, ")");
            },
        }
        push_str(&mut text, ",");
        proof {
            assert(text@ =~= variant_line(variants@[k as int]));
        }
        let ghost prev = texts@;
        let ghost added = text;
        texts.push(text);
        proof {
            lemma_string_views_push(prev, added);
            assert(Seq::new((k + 1) as nat, |j: int| variant_line(variants@[j])) =~= Seq::new(k as nat, |j: int| variant_line(variants@[j])).push(
                variant_line(variants@[k as int]),
            ));
        }
        k = k + 1;
    }
    texts
}

/// Lines of a multi-line state update.
fn update_field_lines(fields: &Vec<FieldInitializer>) -> (texts: Vec<String>)
    ensures
        string_views(texts@) == Seq::new(fields@.len(), |j: int| update_field_line(fields@[j])),
{
    let mut texts: Vec<String> = Vec::new();
    let mut k: usize = 0;
    while k < fields.len()
        invariant
            k <= fields@.len(),
            string_views(texts@) == Seq::new(k as nat, |j: int| update_field_line(fields@[j])),
        decreases fields@.len() - k,
    {
        let item = &fields[k];
        let mut text = String::new();
        push_str(&mut text, item.name.as_str());
        push_str(&mut text, " = ");
        write_expression(&mut text, &item.value);
        push_str(&mut text, ";");
        proof {
            assert(text@ =~= update_field_line(fields@[k as int]));
        }
        let ghost prev = texts@;
        let ghost added = text;
        texts.push(text);
        proof {
            lemma_string_views_push(prev, added);
            assert(Seq::new((k + 1) as nat, |j: int| update_field_line(fields@[j])) =~= Seq::new(k as nat, |j: int| update_field_line(fields@[j])).push(
                update_field_line(fields@[k as int]),
            ));
        }
        k = k + 1;
    }
    texts
}

/// Lines of prompt data names.
fn data_lines(names: &Vec<String>) -> (texts: Vec<String>)
    ensures
        string_views(texts@) == Seq::new(names@.len(), |j: int| data_line(names@[j])),
{
    let mut texts: Vec<String> = Vec::new();
    let mut k: usize = 0;
    while k < names.len()
        invariant
            k <= names@.len(),
            string_views(texts@) == Seq::new(k as nat, |j: int| data_line(names@[j])),
        decreases names@.len() - k,
    {
        let item = &names[k];
        let mut text = String::new();
        push_str(&mut text, item.as_str());
        push_str(&mut text, ",");
        proof {
            assert(text@ =~= data_line(names@[k as int]));
        }
        let ghost prev = texts@;
        let ghost added = text;
        texts.push(text);
        proof {
            lemma_string_views_push(prev, added);
            assert(Seq::new((k + 1) as nat, |j: int| data_line(names@[j])) =~= Seq::new(k as nat, |j: int| data_line(names@[j])).push(
                data_line(names@[k as int]),
            ));
        }
        k = k + 1;
    }
    texts
}

/// Lines of validator requirements.
fn requirement_lines(requirements: &Vec<Expression>) -> (texts: Vec<String>)
    ensures
        string_views(texts@) == Seq::new(requirements@.len(), |j: int| requirement_line(requirements@[j])),
{
    let mut texts: Vec<String> = Vec::new();
    let mut k: usize = 0;
    while k < requirements.len()
        invariant
            k <= requirements@.len(),
            string_views(texts@) == Seq::new(k as nat, |j: int| requirement_line(requirements@[j])),
        decreases requirements@.len() - k,
    {
        let item = &requirements[k];
        let mut text = String::new();
        push_str(&mut text, "require ");
        write_expression(&mut text, item);
        push_str(&mut text, ";");
        proof {
            assert(text@ =~= requirement_line(requirements@[k as int]));
        }
        let ghost prev = texts@;
        let ghost added = text;
        texts.push(text);
        proof {
            lemma_string_views_push(prev, added);
            assert(Seq::new((k + 1) as nat, |j: int| requirement_line(requirements@[j])) =~= Seq::new(k as nat, |j: int| requirement_line(requirements@[j])).push(
                requirement_line(requirements@[k as int]),
            ));
        }
        k = k + 1;
    }
    texts
}

/// Lines of policy rules.
fn rule_lines(rules: &Vec<PolicyRule>) -> (texts: Vec<String>)
    ensures
        string_views(texts@) == Seq::new(rules@.len(), |j: int| rule_line(rules@[j])),
{
    let mut texts: Vec<String> = Vec::new();
    let mut k: usize = 0;
    while k < rules.len()
        invariant
            k <= rules@.len(),
            string_views(texts@) == Seq::new(k as nat, |j: int| rule_line(rules@[j])),
        decreases rules@.len() - k,
    {
        let item = &rules[k];
        let mut text = String::new();
        match &item.decision {
            PolicyDecision::Allow => push_str(&mut text, "allow"),
            PolicyDecision::Approve(principal) => {
                push_str(&mut text, "approve by ");
                write_expression(&mut text, principal);
            },
            PolicyDecision::Deny(reason) => {
                push_str(&mut text, "deny ");
                write_expression(&mut text, reason);
            },
        }
        push_str(&mut text, " ");
        match &item.condition {
            None => push_str(&mut text, "otherwise"),
            Some(condition) => {
                push_str(&mut text, "when ");
                write_expression(&mut text, condition);
            },
        }
        push_str(&mut text, ";");
        proof {
            assert(text@ =~= rule_line(rules@[k as int]));
        }
        let ghost prev = texts@;
        let ghost added = text;
        texts.push(text);
        proof {
            lemma_string_views_push(prev, added);
            assert(Seq::new((k + 1) as nat, |j: int| rule_line(rules@[j])) =~= Seq::new(k as nat, |j: int| rule_line(rules@[j])).push(
                rule_line(rules@[k as int]),
            ));
        }
        k = k + 1;
    }
    texts
}

/// Lines of an agent's capability requirements.
fn requires_lines(capabilities: &Vec<CapabilityExpression>) -> (texts: Vec<String>)
    ensures
        string_views(texts@) == Seq::new(capabilities@.len(), |j: int| requires_line(capabilities@[j])),
{
    let mut texts: Vec<String> = Vec::new();
    let mut k: usize = 0;
    while k < capabilities.len()
        invariant
            k <= capabilities@.len(),
            string_views(texts@) == Seq::new(k as nat, |j: int| requires_line(capabilities@[j])),
        decreases capabilities@.len() - k,
    {
        let item = &capabilities[k];
        let mut text = String::new();
        write_capability(&mut text, item);
        push_str(&mut text, ",");
        proof {
            assert(text@ =~= requires_line(capabilities@[k as int]));
        }
        let ghost prev = texts@;
        let ghost added = text;
        texts.push(text);
        proof {
            lemma_string_views_push(prev, added);
            assert(Seq::new((k + 1) as nat, |j: int| requires_line(capabilities@[j])) =~= Seq::new(k as nat, |j: int| requires_line(capabilities@[j])).push(
                requires_line(capabilities@[k as int]),
            ));
        }
        k = k + 1;
    }
    texts
}

/// Lines of agent state fields.
fn state_lines(fields: &Vec<StateField>) -> (texts: Vec<String>)
    ensures
        string_views(texts@) == Seq::new(fields@.len(), |j: int| state_line(fields@[j])),
{
    let mut texts: Vec<String> = Vec::new();
    let mut k: usize = 0;
    while k < fields.len()
        invariant
            k <= fields@.len(),
            string_views(texts@) == Seq::new(k as nat, |j: int| state_line(fields@[j])),
        decreases fields@.len() - k,
    {
        let item = &fields[k];
        let mut text = String::new();
        push_str(&mut text, item.name.as_str());
        push_str(&mut text, ": ");
        write_type(&mut text, &item.ty);
        push_str(&mut text, " = ");
        write_expression(&mut text, &item.default);
        push_str(&mut text, ";");
        proof {
            assert(text@ =~= state_line(fields@[k as int]));
        }
        let ghost prev = texts@;
        let ghost added = text;
        texts.push(text);
        proof {
            lemma_string_views_push(prev, added);
            assert(Seq::new((k + 1) as nat, |j: int| state_line(fields@[j])) =~= Seq::new(k as nat, |j: int| state_line(fields@[j])).push(
                state_line(fields@[k as int]),
            ));
        }
        k = k + 1;
    }
    texts
}

/// Lines of budget entries.
fn budget_lines(entries: &Vec<BudgetEntry>) -> (texts: Vec<String>)
    ensures
        string_views(texts@) == Seq::new(entries@.len(), |j: int| budget_line(entries@[j])),
{
    let mut texts: Vec<String> = Vec::new();
    let mut k: usize = 0;
    while k < entries.len()
        invariant
            k <= entries@.len(),
            string_views(texts@) == Seq::new(k as nat, |j: int| budget_line(entries@[j])),
        decreases entries@.len() - k,
    {
        let item = &entries[k];
        let mut text = String::new();
        push_str(&mut text, item.dimension.as_str());
        push_str(&mut text, " <= ");
        push_signed_decimal(&mut text, item.limit);
        push_str(&mut text, ";");
        proof {
            assert(text@ =~= budget_line(entries@[k as int]));
        }
        let ghost prev = texts@;
        let ghost added = text;
        texts.push(text);
        proof {
            lemma_string_views_push(prev, added);
            assert(Seq::new((k + 1) as nat, |j: int| budget_line(entries@[j])) =~= Seq::new(k as nat, |j: int| budget_line(entries@[j])).push(
                budget_line(entries@[k as int]),
            ));
        }
        k = k + 1;
    }
    texts
}

proof fn lemma_string_views_push(items: Seq<String>, item: String)
    ensures
        string_views(items.push(item)) == string_views(items).push(item@),
{
    assert(string_views(items.push(item)) =~= string_views(items).push(item@));
}

/// Line of one prompt data name.
pub open spec fn data_line(name: String) -> Seq<char> {
    name@ + ","@
}

/// Line of one validator requirement.
pub open spec fn requirement_line(requirement: Expression) -> Seq<char> {
    "require "@ + expression_text(requirement) + ";"@
}

/// Line of one agent capability requirement.
pub open spec fn requires_line(capability: CapabilityExpression) -> Seq<char> {
    capability_text(capability) + ","@
}

/// Appends `Path(arguments)` of a capability request.
fn write_capability(out: &mut String, capability: &CapabilityExpression)
    ensures
        final(out)@ == old(out)@ + capability_text(*capability),
{
    let ghost before = out@;
    write_path(out, &capability.path);
    push_str(out, "(");
    write_arguments(out, &capability.arguments);
    push_str(out, ")");
    proof {
        assert(out@ =~= before + capability_text(*capability));
    }
}

/// Appends capability requests separated by `, `.
fn write_capabilities(out: &mut String, capabilities: &Vec<CapabilityExpression>)
    ensures
        final(out)@ == old(out)@ + capabilities_text(capabilities@),
{
    let ghost parts = Seq::new(capabilities@.len(), |i: int| capability_text(capabilities@[i]));
    let ghost base = out@;
    let mut i: usize = 0;
    while i < capabilities.len()
        invariant
            i <= capabilities@.len(),
            parts == Seq::new(capabilities@.len(), |i: int| capability_text(capabilities@[i])),
            out@ == base + join(parts.take(i as int), ", "@),
        decreases capabilities@.len() - i,
    {
        if i > 0 {
            push_str(out, ", ");
        }
        write_capability(out, &capabilities[i]);
        proof {
            let next = parts.take(i + 1);
            assert(next.drop_last() =~= parts.take(i as int));
            assert(next.last() == parts[i as int]);
            assert(out@ =~= base + join(next, ", "@));
        }
        i = i + 1;
    }
    proof {
        assert(parts.take(parts.len() as int) =~= parts);
    }
}



/// Metadata lines of a tool in canonical order.
#[verifier::spinoff_prover]
fn tool_metadata_lines(metadata_ref: &ToolMetadata) -> (texts: Vec<String>)
    ensures
        string_views(texts@) == tool_metadata_texts(*metadata_ref),
{
    let mut texts: Vec<String> = Vec::new();
    let ghost metadata = *metadata_ref;
    let ghost mut expected: Seq<Seq<char>> = Seq::empty();
    match metadata_ref.mode {
        Some(mode) => {
            let mut text = String::new();
            push_str(&mut text, "mode ");
            match mode {
                ToolMode::Read => push_str(&mut text, "read"),
                ToolMode::Write => push_str(&mut text, "write"),
            }
            push_str(&mut text, ";");
            let ghost prev = texts@;
            let ghost added = text;
            texts.push(text);
            proof {
                lemma_string_views_push(prev, added);
            }
        },
        None => {},
    }
    proof {
        expected = match metadata.mode {
            Some(mode) => seq!["mode "@ + mode_text(mode) + ";"@],
            None => Seq::empty(),
        };
        assert(string_views(texts@) =~= expected);
    }
    match &metadata_ref.capability {
        Some(capability) => {
            let mut text = String::new();
            push_str(&mut text, "capability ");
            write_capability(&mut text, capability);
            push_str(&mut text, ";");
            let ghost prev = texts@;
            let ghost added = text;
            texts.push(text);
            proof {
                lemma_string_views_push(prev, added);
            }
        },
        None => {},
    }
    proof {
        expected = expected + match metadata.capability {
            Some(capability) => seq!["capability "@ + capability_text(capability) + ";"@],
            None => Seq::<Seq<char>>::empty(),
        };
        assert(string_views(texts@) =~= expected);
    }
    match metadata_ref.risk {
        Some(risk) => {
            let mut text = String::new();
            push_str(&mut text, "risk ");
            match risk {
                Risk::Reversible => push_str(&mut text, "reversible"),
                Risk::Irreversible => push_str(&mut text, "irreversible"),
            }
            push_str(&mut text, ";");
            let ghost prev = texts@;
            let ghost added = text;
            texts.push(text);
            proof {
                lemma_string_views_push(prev, added);
            }
        },
        None => {},
    }
    proof {
        expected = expected + match metadata.risk {
            Some(risk) => seq!["risk "@ + risk_text(risk) + ";"@],
            None => Seq::<Seq<char>>::empty(),
        };
        assert(string_views(texts@) =~= expected);
    }
    match &metadata_ref.idempotency {
        Some(key) => {
            let mut text = String::new();
            push_str(&mut text, "idempotency ");
            push_str(&mut text, key.as_str());
            push_str(&mut text, ";");
            let ghost prev = texts@;
            let ghost added = text;
            texts.push(text);
            proof {
                lemma_string_views_push(prev, added);
            }
        },
        None => {},
    }
    proof {
        expected = expected + match metadata.idempotency {
            Some(key) => seq!["idempotency "@ + key@ + ";"@],
            None => Seq::<Seq<char>>::empty(),
        };
        assert(string_views(texts@) =~= expected);
    }
    match metadata_ref.sensitivity {
        Some(sensitivity) => {
            let mut text = String::new();
            push_str(&mut text, "sensitivity ");
            match sensitivity {
                Sensitivity::Public => push_str(&mut text, "public"),
                Sensitivity::Internal => push_str(&mut text, "internal"),
                Sensitivity::Private => push_str(&mut text, "private"),
                Sensitivity::Secret => push_str(&mut text, "secret"),
            }
            push_str(&mut text, ";");
            let ghost prev = texts@;
            let ghost added = text;
            texts.push(text);
            proof {
                lemma_string_views_push(prev, added);
            }
        },
        None => {},
    }
    proof {
        expected = expected + match metadata.sensitivity {
            Some(sensitivity) => seq!["sensitivity "@ + sensitivity_text(sensitivity) + ";"@],
            None => Seq::<Seq<char>>::empty(),
        };
        assert(string_views(texts@) =~= expected);
        assert(expected =~= tool_metadata_texts(metadata));
    }
    texts
}

/// Appends `name(parameters)` to a text.
fn write_signature(out: &mut String, name: &str, parameters: &Vec<Parameter>)
    ensures
        final(out)@ == old(out)@ + name@ + "("@ + parameters_text(parameters@) + ")"@,
{
    let ghost before = out@;
    push_str(out, name);
    push_str(out, "(");
    write_parameters(out, parameters);
    push_str(out, ")");
    proof {
        assert(out@ =~= before + name@ + "("@ + parameters_text(parameters@) + ")"@);
    }
}

impl Formatter {
    fn statement(&mut self, statement: &Statement)
        requires
            old(self).wf(),
            old(self).indent < usize::MAX,
        ensures
            final(self).wf(),
            final(self).indent == old(self).indent,
            final(self).log@ == old(self).log@ + statement_layout(*statement, old(self).indent as nat),
    {
        match &statement.kind {
            StatementKind::UpdateState { fields } => {
                self.line("update state {");
                let texts = update_field_lines(fields);
                self.indented_lines(&texts);
                self.line("}");
            },
            _ => {
                let mut text = String::new();
                write_inline_statement(&mut text, statement);
                proof {
                    assert(text@ =~= inline_statement_text(*statement));
                }
                self.line(text.as_str());
            },
        }
        proof {
            assert(self.log@ =~= old(self).log@ + statement_layout(*statement, old(self).indent as nat));
        }
    }

    /// Emits the statements of a block one level deeper.
    fn block_contents(&mut self, block: &Block)
        requires
            old(self).wf(),
            old(self).indent < usize::MAX - 1,
        ensures
            final(self).wf(),
            final(self).indent == old(self).indent,
            final(self).log@ == old(self).log@ + statements_layout(
                block.statements@,
                (old(self).indent + 1) as nat,
            ),
    {
        let ghost log0 = self.log@;
        let ghost level = (self.indent + 1) as nat;
        self.indent = self.indent + 1;
        let mut k: usize = 0;
        while k < block.statements.len()
            invariant
                self.wf(),
                self.indent == level,
                level < usize::MAX,
                k <= block.statements@.len(),
                self.log@ == log0 + statements_layout(block.statements@.take(k as int), level),
            decreases block.statements@.len() - k,
        {
            self.statement(&block.statements[k]);
            proof {
                let next = block.statements@.take(k + 1);
                assert(next.drop_last() =~= block.statements@.take(k as int));
                assert(next.last() == block.statements@[k as int]);
                assert(self.log@ =~= log0 + statements_layout(next, level));
            }
            k = k + 1;
        }
        self.indent = self.indent - 1;
        proof {
            assert(block.statements@.take(block.statements@.len() as int) =~= block.statements@);
        }
    }

    fn function(&mut self, keyword: &str, d: &FunctionDeclaration)
        requires
            old(self).wf(),
            old(self).indent < usize::MAX - 1,
        ensures
            final(self).wf(),
            final(self).indent == old(self).indent,
            final(self).log@ == old(self).log@ + function_layout(keyword@, *d, old(self).indent as nat),
    {
        let mut header = String::new();
        push_str(&mut header, keyword);
        push_str(&mut header, " ");
        write_signature(&mut header, d.name.as_str(), &d.parameters);
        push_str(&mut header, " -> ");
        write_type(&mut header, &d.return_type);
        let ghost base = keyword@ + " "@ + d.name@ + "("@ + parameters_text(d.parameters@)
            + ") -> "@ + type_text(d.return_type);
        proof {
            reveal_strlit(")");
            reveal_strlit(" -> ");
            reveal_strlit(") -> ");
            reveal_strlit(" {");
            reveal_strlit(") {");
            assert(header@ =~= base);
        }
        let ghost uses: Seq<char> = Seq::empty();
        if str_equal(keyword, "flow") {
            push_str(&mut header, " uses [");
            write_capabilities(&mut header, &d.uses);
            push_str(&mut header, "]");
            proof {
                uses = " uses ["@ + capabilities_text(d.uses@) + "]"@;
                assert(header@ =~= base + uses);
            }
        } else {
            proof {
                assert(header@ =~= base + uses);
            }
        }
        push_str(&mut header, " {");
        proof {
            assert(header@ =~= function_header(keyword@, *d));
        }
        self.line(header.as_str());
        self.block_contents(&d.body);
        self.line("}");
        proof {
            assert(self.log@ =~= old(self).log@ + function_layout(keyword@, *d, old(self).indent as nat));
        }
    }

    fn prompt(&mut self, d: &PromptDeclaration)
        requires
            old(self).wf(),
            old(self).indent < usize::MAX - 2,
        ensures
            final(self).wf(),
            final(self).indent == old(self).indent,
            final(self).log@ == old(self).log@ + prompt_layout(*d, old(self).indent as nat),
    {
        let mut header = String::new();
        push_str(&mut header, "prompt ");
        write_signature(&mut header, d.name.as_str(), &d.parameters);
        push_str(&mut header, " -> ");
        write_type(&mut header, &d.result_type);
        push_str(&mut header, " {");
        proof {
            reveal_strlit(")");
            reveal_strlit(" -> ");
            reveal_strlit(") -> ");
            reveal_strlit(" {");
            reveal_strlit(") {");
            assert(header@ =~= "prompt "@ + d.name@ + "("@ + parameters_text(d.parameters@)
                + ") -> "@ + type_text(d.result_type) + " {"@);
        }
        self.line(header.as_str());
        self.indent = self.indent + 1;
        let mut instruction = String::new();
        push_str(&mut instruction, "instruction \"\"\"");
        push_str(&mut instruction, d.instruction.as_str());
        push_str(&mut instruction, "\"\"\";");
        proof {
            assert(instruction@ =~= "instruction \"\"\""@ + d.instruction@ + "\"\"\";"@);
        }
        self.line(instruction.as_str());
        self.blank_line();
        self.line("data {");
        let texts = data_lines(&d.data);
        self.indented_lines(&texts);
        self.line("};");
        self.indent = self.indent - 1;
        self.line("}");
        proof {
            assert(self.log@ =~= old(self).log@ + prompt_layout(*d, old(self).indent as nat));
        }
    }

    fn validator(&mut self, d: &ValidatorDeclaration)
        requires
            old(self).wf(),
            old(self).indent < usize::MAX - 1,
        ensures
            final(self).wf(),
            final(self).indent == old(self).indent,
            final(self).log@ == old(self).log@ + validator_layout(*d, old(self).indent as nat),
    {
        let mut header = String::new();
        push_str(&mut header, "validator ");
        write_signature(&mut header, d.name.as_str(), &d.parameters);
        push_str(&mut header, " {");
        proof {
            reveal_strlit(")");
            reveal_strlit(" -> ");
            reveal_strlit(") -> ");
            reveal_strlit(" {");
            reveal_strlit(") {");
            assert(header@ =~= "validator "@ + d.name@ + "("@ + parameters_text(d.parameters@) + ") {"@);
        }
        self.line(header.as_str());
        let texts = requirement_lines(&d.requirements);
        self.indented_lines(&texts);
        self.line("}");
        proof {
            assert(self.log@ =~= old(self).log@ + validator_layout(*d, old(self).indent as nat));
        }
    }

    fn tool(&mut self, d: &ToolDeclaration)
        requires
            old(self).wf(),
            old(self).indent < usize::MAX - 1,
        ensures
            final(self).wf(),
            final(self).indent == old(self).indent,
            final(self).log@ == old(self).log@ + tool_layout(*d, old(self).indent as nat),
    {
        let mut header = String::new();
        push_str(&mut header, "tool ");
        write_path(&mut header, &d.path);
        push_str(&mut header, "(");
        write_parameters(&mut header, &d.parameters);
        push_str(&mut header, ") -> ");
        write_type(&mut header, &d.return_type);
        push_str(&mut header, " {");
        proof {
            assert(header@ =~= "tool "@ + path_text(d.path) + "("@ + parameters_text(d.parameters@)
                + ") -> "@ + type_text(d.return_type) + " {"@);
        }
        self.line(header.as_str());
        let texts = tool_metadata_lines(&d.metadata);
        self.indented_lines(&texts);
        self.line("}");
        proof {
            assert(self.log@ =~= old(self).log@ + tool_layout(*d, old(self).indent as nat));
        }
    }

    fn policy(&mut self, d: &PolicyDeclaration)
        requires
            old(self).wf(),
            old(self).indent < usize::MAX - 1,
        ensures
            final(self).wf(),
            final(self).indent == old(self).indent,
            final(self).log@ == old(self).log@ + policy_layout(*d, old(self).indent as nat),
    {
        let mut header = String::new();
        push_str(&mut header, "policy ");
        write_signature(&mut header, d.name.as_str(), &d.parameters);
        push_str(&mut header, " {");
        proof {
            reveal_strlit(")");
            reveal_strlit(" -> ");
            reveal_strlit(") -> ");
            reveal_strlit(" {");
            reveal_strlit(") {");
            assert(header@ =~= "policy "@ + d.name@ + "("@ + parameters_text(d.parameters@) + ") {"@);
        }
        self.line(header.as_str());
        let texts = rule_lines(&d.rules);
        self.indented_lines(&texts);
        self.line("}");
        proof {
            assert(self.log@ =~= old(self).log@ + policy_layout(*d, old(self).indent as nat));
        }
    }

    fn handler(&mut self, handler: &HandlerDeclaration)
        requires
            old(self).wf(),
            old(self).indent < usize::MAX - 1,
        ensures
            final(self).wf(),
            final(self).indent == old(self).indent,
            final(self).log@ == old(self).log@ + handler_layout(*handler, old(self).indent as nat),
    {
        self.blank_line();
        let mut header = String::new();
        push_str(&mut header, "on ");
        write_signature(&mut header, handler.event.as_str(), &handler.parameters);
        push_str(&mut header, " -> ");
        write_type(&mut header, &handler.return_type);
        push_str(&mut header, " {");
        proof {
            reveal_strlit(")");
            reveal_strlit(" -> ");
            reveal_strlit(") -> ");
            reveal_strlit(" {");
            reveal_strlit(") {");
            assert(header@ =~= "on "@ + handler.event@ + "("@ + parameters_text(handler.parameters@)
                + ") -> "@ + type_text(handler.return_type) + " {"@);
        }
        self.line(header.as_str());
        self.block_contents(&handler.body);
        self.line("}");
        proof {
            assert(self.log@ =~= old(self).log@ + handler_layout(*handler, old(self).indent as nat));
        }
    }

    fn agent_opening(&mut self, d: &AgentDeclaration)
        requires
            old(self).wf(),
            old(self).indent < usize::MAX - 1,
        ensures
            final(self).wf(),
            final(self).indent == old(self).indent,
            final(self).log@ == old(self).log@ + agent_opening(*d, old(self).indent as nat),
    {
        let mut header = String::new();
        push_str(&mut header, "agent ");
        write_signature(&mut header, d.name.as_str(), &d.parameters);
        proof {
            assert(header@ =~= "agent "@ + d.name@ + "("@ + parameters_text(d.parameters@) + ")"@);
        }
        self.line(header.as_str());
        self.line("requires [");
        let required = requires_lines(&d.requires);
        self.indented_lines(&required);
        self.line("] {");
        proof {
            assert(self.log@ =~= old(self).log@ + agent_opening(*d, old(self).indent as nat));
        }
    }

    fn agent_state_budget(&mut self, d: &AgentDeclaration)
        requires
            old(self).wf(),
            old(self).indent < usize::MAX - 1,
        ensures
            final(self).wf(),
            final(self).indent == old(self).indent,
            final(self).log@ == old(self).log@ + agent_state_budget(*d, old(self).indent as nat),
    {
        self.line("state {");
        let state = state_lines(&d.state);
        self.indented_lines(&state);
        self.line("}");
        self.blank_line();
        self.line("budget per_event {");
        let budget = budget_lines(&d.budget);
        self.indented_lines(&budget);
        self.line("}");
        proof {
            assert(self.log@ =~= old(self).log@ + agent_state_budget(*d, old(self).indent as nat));
        }
    }

    fn agent(&mut self, d: &AgentDeclaration)
        requires
            old(self).wf(),
            old(self).indent < usize::MAX - 3,
        ensures
            final(self).wf(),
            final(self).indent == old(self).indent,
            final(self).log@ == old(self).log@ + agent_layout(*d, old(self).indent as nat),
    {
        self.agent_opening(d);
        self.indent = self.indent + 1;
        self.agent_state_budget(d);
        let ghost log0 = self.log@;
        let ghost level = self.indent as nat;
        let mut k: usize = 0;
        while k < d.handlers.len()
            invariant
                self.wf(),
                self.indent == level,
                level < usize::MAX - 2,
                k <= d.handlers@.len(),
                self.log@ == log0 + handlers_layout(d.handlers@.take(k as int), level),
            decreases d.handlers@.len() - k,
        {
            self.handler(&d.handlers[k]);
            proof {
                let next = d.handlers@.take(k + 1);
                assert(next.drop_last() =~= d.handlers@.take(k as int));
                assert(next.last() == d.handlers@[k as int]);
                assert(self.log@ =~= log0 + handlers_layout(next, level));
            }
            k = k + 1;
        }
        self.indent = self.indent - 1;
        self.line("}");
        proof {
            assert(d.handlers@.take(d.handlers@.len() as int) =~= d.handlers@);
            assert(self.log@ =~= old(self).log@ + agent_layout(*d, old(self).indent as nat));
        }
    }
}


impl Formatter {
    fn declaration(&mut self, declaration: &Declaration)
        requires
            old(self).wf(),
            old(self).indent == 0,
        ensures
            final(self).wf(),
            final(self).indent == 0,
            final(self).log@ == old(self).log@ + declaration_layout(*declaration),
    {
        match &declaration.kind {
            DeclarationKind::Type(d) => match &d.definition {
                TypeDefinition::Alias(ty) => {
                    let mut text = String::new();
                    push_str(&mut text, "type ");
                    push_str(&mut text, d.name.as_str());
                    push_str(&mut text, " = ");
                    write_type(&mut text, ty);
                    push_str(&mut text, ";");
                    proof {
                        assert(text@ =~= "type "@ + d.name@ + " = "@ + type_text(*ty) + ";"@);
                    }
                    self.line(text.as_str());
                },
                TypeDefinition::Record(fields) => {
                    let mut text = String::new();
                    push_str(&mut text, "type ");
                    push_str(&mut text, d.name.as_str());
                    push_str(&mut text, " = {");
                    proof {
                        assert(text@ =~= "type "@ + d.name@ + " = {"@);
                    }
                    self.line(text.as_str());
                    let texts = record_field_lines(fields);
                    self.indented_lines(&texts);
                    self.line("};");
                },
            },
            DeclarationKind::Enum(d) => {
                let mut text = String::new();
                push_str(&mut text, "enum ");
                push_str(&mut text, d.name.as_str());
                push_str(&mut text, " {");
                proof {
                    assert(text@ =~= "enum "@ + d.name@ + " {"@);
                }
                self.line(text.as_str());
                let texts = variant_lines(&d.variants);
                self.indented_lines(&texts);
                self.line("}");
            },
            DeclarationKind::Capability(d) => {
                let mut text = String::new();
                push_str(&mut text, "capability ");
                write_signature(&mut text, d.name.as_str(), &d.parameters);
                push_str(&mut text, ";");
                proof {
                    reveal_strlit(")");
                    reveal_strlit(";");
                    reveal_strlit(");");
                    assert(text@ =~= "capability "@ + d.name@ + "("@ + parameters_text(d.parameters@)
                        + ");"@);
                }
                self.line(text.as_str());
            },
            DeclarationKind::Function(d) => self.function("fn", d),
            DeclarationKind::Flow(d) => self.function("flow", d),
            DeclarationKind::Prompt(d) => self.prompt(d),
            DeclarationKind::Validator(d) => self.validator(d),
            DeclarationKind::Tool(d) => self.tool(d),
            DeclarationKind::Policy(d) => self.policy(d),
            DeclarationKind::Agent(d) => self.agent(d),
        }
        proof {
            assert(self.log@ =~= old(self).log@ + declaration_layout(*declaration));
        }
    }

    /// Emits, verbatim, the pending comments that start before `boundary`.
    fn comments_before(&mut self, module: &Module, index: &mut usize, boundary: usize)
        requires
            old(self).wf(),
            *old(index) <= module.comments@.len(),
        ensures
            final(self).wf(),
            final(self).indent == old(self).indent,
            *final(index) == comments_stop(module.comments@, *old(index) as int, boundary as int),
            *old(index) <= *final(index) <= module.comments@.len(),
            final(self).log@ == old(self).log@ + raws(
                module.comments@,
                *old(index) as int,
                *final(index) as int,
            ),
    {
        let ghost comments = module.comments@;
        let ghost first = *index;
        let ghost log0 = self.log@;
        let ghost indent0 = self.indent;
        while *index < module.comments.len() && module.comments[*index].span.start < boundary
            invariant
                self.wf(),
                self.indent == indent0,
                comments == module.comments@,
                first <= *index <= comments.len(),
                comments_stop(comments, first as int, boundary as int) == comments_stop(
                    comments,
                    *index as int,
                    boundary as int,
                ),
                self.log@ == log0 + raws(comments, first as int, *index as int),
            decreases comments.len() - *index,
        {
            let position = *index;
            self.raw_line(module.comments[position].text.as_str());
            *index = position + 1;
            proof {
                assert(raws(comments, first as int, position + 1) =~= raws(
                    comments,
                    first as int,
                    position as int,
                ).push(LayoutItem::Raw { text: comments[position as int].text@ }));
                assert(self.log@ =~= log0 + raws(comments, first as int, *index as int));
            }
        }
    }
}

/// Emits the one canonical textual representation of a parsed module.
pub fn format_module(module: &Module) -> (text: String)
    ensures
        text@ == module_text(*module),
{
    let mut formatter = Formatter { output: String::new(), indent: 0, log: Ghost(Seq::empty()) };
    let ghost comments = module.comments@;
    let ghost declarations = module.declarations@;
    let mut comment_index: usize = 0;
    formatter.comments_before(module, &mut comment_index, module.span.start);
    let mut header = String::new();
    push_str(&mut header, "module ");
    write_path(&mut header, &module.name);
    push_str(&mut header, ";");
    formatter.line(header.as_str());
    if module.declarations.len() > 0 {
        formatter.blank_line();
    }
    let ghost first = comments_stop(comments, 0, module.span.start as int);
    proof {
        assert(formatter.log@ + declarations_layout(comments, declarations, 0, first) =~= module_layout(
            *module,
        ));
    }
    let mut k: usize = 0;
    while k < module.declarations.len()
        invariant
            formatter.wf(),
            formatter.indent == 0,
            comments == module.comments@,
            declarations == module.declarations@,
            k <= declarations.len(),
            comment_index <= comments.len(),
            formatter.log@ + declarations_layout(comments, declarations, k as int, comment_index as int)
                == module_layout(*module),
        decreases declarations.len() - k,
    {
        let ghost log_before = formatter.log@;
        let ghost pending = comment_index;
        formatter.comments_before(module, &mut comment_index, module.declarations[k].span.end);
        formatter.declaration(&module.declarations[k]);
        if k + 1 < module.declarations.len() {
            formatter.blank_line();
        }
        proof {
            let rest = declarations_layout(comments, declarations, k + 1, comment_index as int);
            assert(declarations_layout(comments, declarations, k as int, pending as int) == raws(
                comments,
                pending as int,
                comment_index as int,
            ) + declaration_layout(declarations[k as int]) + (if k + 1 < declarations.len() {
                seq![LayoutItem::Blank]
            } else {
                Seq::empty()
            }) + rest);
            assert(formatter.log@ + rest =~= log_before + declarations_layout(
                comments,
                declarations,
                k as int,
                pending as int,
            ));
        }
        k = k + 1;
    }
    let ghost pending = comment_index;
    formatter.comments_before(module, &mut comment_index, usize::MAX);
    proof {
        assert(formatter.log@ =~= module_layout(*module));
    }
    if !ends_with_newline(formatter.output.as_str()) {
        push_char(&mut formatter.output, '\n');
    }
    formatter.output
}

/// Parses and canonically formats one source file; a malformed source is
/// diagnosed, never partially formatted.
pub fn format_source(source: &SourceFile) -> (result: Result<String, Vec<Diagnostic>>)
    requires
        fits_in_memory(source.spec_text()),
    ensures
        result matches Ok(text) ==> exists|module: Module| #[trigger] module_text(module) == text@
            && exists|tokens: Seq<Token>|
            lossless_stream(tokens, source.spec_path(), source.spec_text()) && comment_views(
                module.comments@,
            ) == comment_texts(tokens),
        result matches Err(diagnostics) ==> diagnostics@.len() > 0 && ((sorted_by_location(
            diagnostics@,
        ) && forall|i: int|
            0 <= i < diagnostics@.len() ==> lexical_diagnostic(
                #[trigger] diagnostics@[i],
                source.spec_path(),
                source.spec_text(),
            )) || (sorted_by_start(diagnostics@) && forall|i: int|
            0 <= i < diagnostics@.len() ==> syntax_diagnostic(#[trigger] diagnostics@[i]))),
{
    match parse(source) {
        Ok(module) => Ok(format_module(&module)),
        Err(diagnostics) => Err(diagnostics),
    }
}

} // verus!
