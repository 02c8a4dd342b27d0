use vstd::prelude::*;

use crate::ast::{
    AgentDeclaration, Argument, BinaryOperator, Block, CapabilityExpression, Declaration,
    DeclarationKind, Expression, ExpressionKind, FieldInitializer, FunctionDeclaration, MatchArm,
    Module, Parameter, Path, Pattern, PolicyDecision, Risk, Sensitivity, Statement, StatementKind,
    ToolMode, TypeDefinition, TypeReference, UnaryOperator,
};
use crate::ir::{
    Agent, CapabilitySpec, Catalog, FieldSpec, Instruction, InstructionKind, MatchTarget,
    NamedExpression, NamedValue, PatternSpec, PolicyDecisionSpec, PolicySpec, Program, PromptSpec,
    PolicyRuleSpec, PureExpression, Routine, StateFieldSpec, ToolSpec, TypeSpec, ValidatorSpec,
};
use crate::json::{encode_json_string, json_quoted};
use crate::ast::string_views;
use crate::text::{push_char, push_decimal, push_signed_decimal, push_str};

verus! {

/// Texts joined by commas.
pub open spec fn comma_list(items: Seq<Seq<char>>) -> Seq<char>
    decreases items.len(),
{
    if items.len() == 0 {
        Seq::empty()
    } else if items.len() == 1 {
        items[0]
    } else {
        comma_list(items.drop_last()) + ","@ + items.last()
    }
}

/// Extending a comma list by one item.
pub proof fn lemma_comma_list_push(items: Seq<Seq<char>>, n: int)
    requires
        0 <= n < items.len(),
    ensures
        comma_list(items.take(n + 1)) == if n == 0 {
            items[0]
        } else {
            comma_list(items.take(n)) + ","@ + items[n]
        },
{
    assert(items.take(n + 1).drop_last() =~= items.take(n));
    assert(items.take(n + 1).last() == items[n]);
    if n == 0 {
        assert(items.take(1)[0] == items[0]);
    }
}

/// Strings as JSON string literals.
pub open spec fn quoted_all(items: Seq<Seq<char>>) -> Seq<Seq<char>> {
    items.map_values(|t: Seq<char>| json_quoted(t))
}

/// A JSON array of strings.
pub open spec fn string_array_text(items: Seq<Seq<char>>) -> Seq<char> {
    "["@ + comma_list(quoted_all(items)) + "]"@
}

/// The normalized JSON of a path.
pub open spec fn path_text(path: Path) -> Seq<char> {
    "{\"segments\":"@ + string_array_text(string_views(path.segments@)) + "}"@
}

/// The normalized JSON of a written type.
pub open spec fn type_text(reference: TypeReference) -> Seq<char>
    decreases reference, 1nat,
{
    "{\"arguments\":["@ + type_list_text(reference.arguments@) + "],\"path\":"@ + path_text(
        reference.path,
    ) + "}"@
}

/// The normalized JSON of written types, comma-separated.
pub open spec fn type_list_text(references: Seq<TypeReference>) -> Seq<char>
    decreases references, 0nat,
{
    if references.len() == 0 {
        Seq::empty()
    } else if references.len() == 1 {
        type_text(references[0])
    } else {
        type_list_text(references.drop_last()) + ","@ + type_text(references.last())
    }
}

/// The normalized JSON of a parameter list.
pub open spec fn parameters_text(parameters: Seq<Parameter>) -> Seq<char> {
    "["@ + comma_list(
        parameters.map_values(
            |p: Parameter| "{\"name\":"@ + json_quoted(p.name@) + ",\"ty\":"@ + type_text(p.ty) + "}"@,
        ),
    ) + "]"@
}

/// The persisted JSON of a structural type.
pub open spec fn ir_type_text(ty: TypeSpec) -> Seq<char>
    decreases ty, 1nat,
{
    "{\"name\":"@ + json_quoted(ty.name@) + ",\"arguments\":["@ + ir_type_list_text(ty.arguments@)
        + "]}"@
}

/// The persisted JSON of structural types, comma-separated.
pub open spec fn ir_type_list_text(types: Seq<TypeSpec>) -> Seq<char>
    decreases types, 0nat,
{
    if types.len() == 0 {
        Seq::empty()
    } else if types.len() == 1 {
        ir_type_text(types[0])
    } else {
        ir_type_list_text(types.drop_last()) + ","@ + ir_type_text(types.last())
    }
}

/// The persisted JSON of typed fields.
pub open spec fn ir_fields_text(fields: Seq<FieldSpec>) -> Seq<char> {
    "["@ + comma_list(
        fields.map_values(
            |f: FieldSpec| "{\"name\":"@ + json_quoted(f.name@) + ",\"ty\":"@ + ir_type_text(f.ty) + "}"@,
        ),
    ) + "]"@
}

/// JSON of an optional string: the literal, or `null`.
pub open spec fn optional_text(value: Option<String>) -> Seq<char> {
    match value {
        Some(v) => json_quoted(v@),
        None => "null"@,
    }
}

/// The persisted JSON of named slot references.
pub open spec fn named_values_text(items: Seq<NamedValue>) -> Seq<char> {
    "["@ + comma_list(
        items.map_values(
            |v: NamedValue| "{\"name\":"@ + optional_text(v.name) + ",\"value\":"@
                + crate::text::decimal(v.value.0 as nat) + "}"@,
        ),
    ) + "]"@
}

/// Appends a string as a JSON string literal.
pub fn push_json_string(out: &mut String, text: &str)
    ensures
        final(out)@ == old(out)@ + json_quoted(text@),
{
    match encode_json_string(text) {
        Some(encoded) => push_str(out, encoded.as_str()),
        None => {},
    }
}

/// Appends `"name":`, preceded by a comma unless it is the first member.
fn member(out: &mut String, first: bool, name: &str)
    ensures
        final(out)@ == old(out)@ + (if first {
            Seq::empty()
        } else {
            ","@
        }) + "\""@ + name@ + "\":"@,
{
    proof {
        reveal_strlit(",");
        reveal_strlit("\"");
        reveal_strlit("\":");
    }
    let ghost before = out@;
    if !first {
        push_char(out, ',');
    }
    push_char(out, '"');
    push_str(out, name);
    push_str(out, "\":");
    proof {
        if first {
            assert(out@ =~= before + Seq::<char>::empty() + "\""@ + name@ + "\":"@);
        } else {
            assert(out@ =~= before + ","@ + "\""@ + name@ + "\":"@);
        }
    }
}

fn string_member(out: &mut String, first: bool, name: &str, value: &str)
    ensures
        final(out)@ == old(out)@ + (if first {
            Seq::empty()
        } else {
            ","@
        }) + "\""@ + name@ + "\":"@ + json_quoted(value@),
{
    member(out, first, name);
    push_json_string(out, value);
}

/// `"name":` preceded by a comma unless it is the first member.
pub open spec fn member_text(first: bool, name: Seq<char>) -> Seq<char> {
    (if first {
        Seq::empty()
    } else {
        ","@
    }) + "\""@ + name + "\":"@
}

/// A member whose value is the string `tag`, written without escaping.
pub open spec fn tag_text(first: bool, name: Seq<char>, tag: Seq<char>) -> Seq<char> {
    member_text(first, name) + seq!['"'] + tag + seq!['"']
}

fn tag_member(out: &mut String, first: bool, name: &str, tag: &str)
    ensures
        final(out)@ == old(out)@ + tag_text(first, name@, tag@),
{
    member(out, first, name);
    push_char(out, '"');
    push_str(out, tag);
    push_char(out, '"');
    proof {
        assert(out@ =~= old(out)@ + tag_text(first, name@, tag@));
    }
}

fn optional_string(out: &mut String, value: &Option<String>)
    ensures
        final(out)@ == old(out)@ + optional_text(*value),
{
    match value {
        Some(v) => push_json_string(out, v.as_str()),
        None => push_str(out, "null"),
    }
}

fn string_array(out: &mut String, items: &Vec<String>)
    ensures
        final(out)@ == old(out)@ + string_array_text(string_views(items@)),
{
    proof {
        reveal_strlit("[");
        reveal_strlit("]");
        reveal_strlit(",");
    }
    let ghost parts = quoted_all(string_views(items@));
    push_char(out, '[');
    let mut i: usize = 0;
    while i < items.len()
        invariant
            i <= items@.len(),
            parts == quoted_all(string_views(items@)),
            parts.len() == items@.len(),
            out@ == old(out)@ + "["@ + comma_list(parts.take(i as int)),
        decreases items@.len() - i,
    {
        proof {
            lemma_comma_list_push(parts, i as int);
            reveal_strlit(",");
            reveal_strlit("[");
            reveal_strlit("{");
            reveal_strlit("}");
            reveal_strlit("\"");
            reveal_strlit("\":");
            reveal_strlit("name");
            reveal_strlit("ty");
            reveal_strlit("{\"name\":");
            reveal_strlit(",\"ty\":");
        }
        let ghost before = out@;
        if i > 0 {
            push_char(out, ',');
        }
        push_json_string(out, items[i].as_str());
        proof {
            assert(parts[i as int] == json_quoted(items@[i as int]@));
            if i == 0 {
                assert(out@ =~= old(out)@ + "["@ + comma_list(parts.take(1)));
            } else {
                assert(out@ =~= old(out)@ + "["@ + comma_list(parts.take(i as int)) + ","@ + parts[i as int]);
            }
        }
        i = i + 1;
    }
    push_char(out, ']');
    proof {
        assert(parts.take(items@.len() as int) =~= parts);
        assert(out@ =~= old(out)@ + string_array_text(string_views(items@)));
    }
}

// ---------------------------------------------------------------------------
// The normalized syntax tree: every object's members in key order, without
// source spans and comments.
// ---------------------------------------------------------------------------

fn ast_path(out: &mut String, path: &Path)
    ensures
        final(out)@ == old(out)@ + path_text(*path),
{
    proof {
        reveal_strlit("}");
    }
    push_str(out, "{\"segments\":");
    string_array(out, &path.segments);
    push_char(out, '}');
    proof {
        assert(out@ =~= old(out)@ + path_text(*path));
    }
}

/// Extending a type list by one type.
proof fn lemma_type_list_push(items: Seq<TypeReference>, n: int)
    requires
        0 <= n < items.len(),
    ensures
        type_list_text(items.take(n + 1)) == if n == 0 {
            type_text(items[0])
        } else {
            type_list_text(items.take(n)) + ","@ + type_text(items[n])
        },
{
    assert(items.take(n + 1).drop_last() =~= items.take(n));
    assert(items.take(n + 1).last() == items[n]);
    if n == 0 {
        assert(items.take(1)[0] == items[0]);
    }
}

fn ast_type(out: &mut String, reference: &TypeReference)
    ensures
        final(out)@ == old(out)@ + type_text(*reference),
    decreases reference,
{
    proof {
        reveal_strlit(",");
        reveal_strlit("}");
    }
    push_str(out, "{\"arguments\":[");
    let ghost head = out@;
    let mut i: usize = 0;
    proof {
        assert(head =~= head + type_list_text(reference.arguments@.take(0)));
    }
    while i < reference.arguments.len()
        invariant
            i <= reference.arguments@.len(),
            out@ == head + type_list_text(reference.arguments@.take(i as int)),
        decreases reference.arguments@.len() - i,
    {
        proof {
            lemma_type_list_push(reference.arguments@, i as int);
            reveal_strlit(",");
        }
        let ghost before = out@;
        if i > 0 {
            push_char(out, ',');
        }
        ast_type(out, &reference.arguments[i]);
        proof {
            if i > 0 {
                assert(out@ =~= before + ","@ + type_text(reference.arguments@[i as int]));
            }
        }
        i = i + 1;
    }
    proof {
        assert(reference.arguments@.take(reference.arguments@.len() as int) =~= reference.arguments@);
    }
    push_str(out, "],\"path\":");
    ast_path(out, &reference.path);
    push_char(out, '}');
    proof {
        assert(out@ =~= old(out)@ + type_text(*reference));
    }
}

#[verifier::rlimit(40)]
fn ast_parameters(out: &mut String, parameters: &Vec<Parameter>)
    ensures
        final(out)@ == old(out)@ + parameters_text(parameters@),
{
    proof {
        reveal_strlit("[");
        reveal_strlit("]");
        reveal_strlit(",");
        reveal_strlit("{");
        reveal_strlit("}");
        reveal_strlit("\"");
        reveal_strlit("\":");
        reveal_strlit("name");
        reveal_strlit("ty");
        reveal_strlit("{\"name\":");
        reveal_strlit(",\"ty\":");
    }
    let ghost parts = parameters@.map_values(
        |p: Parameter| "{\"name\":"@ + json_quoted(p.name@) + ",\"ty\":"@ + type_text(p.ty) + "}"@,
    );
    push_char(out, '[');
    let mut i: usize = 0;
    while i < parameters.len()
        invariant
            i <= parameters@.len(),
            parts.len() == parameters@.len(),
            forall|k: int| 0 <= k < parameters@.len() ==> #[trigger] parts[k] == "{\"name\":"@ + json_quoted(
                parameters@[k].name@,
            ) + ",\"ty\":"@ + type_text(parameters@[k].ty) + "}"@,
            out@ == old(out)@ + "["@ + comma_list(parts.take(i as int)),
        decreases parameters@.len() - i,
    {
        proof {
            lemma_comma_list_push(parts, i as int);
            reveal_strlit(",");
            reveal_strlit("[");
            reveal_strlit("{");
            reveal_strlit("}");
            reveal_strlit("\"");
            reveal_strlit("\":");
            reveal_strlit("name");
            reveal_strlit("ty");
            reveal_strlit("{\"name\":");
            reveal_strlit(",\"ty\":");
        }
        let ghost before = out@;
        if i > 0 {
            push_char(out, ',');
        }
        let ghost mid = out@;
        push_char(out, '{');
        string_member(out, true, "name", parameters[i].name.as_str());
        member(out, false, "ty");
        ast_type(out, &parameters[i].ty);
        push_char(out, '}');
        proof {
            assert(out@ =~= mid + parts[i as int]);
            if i == 0 {
                assert(out@ =~= old(out)@ + "["@ + comma_list(parts.take(1)));
            } else {
                assert(out@ =~= old(out)@ + "["@ + comma_list(parts.take(i as int)) + ","@ + parts[i as int]);
            }
        }
        i = i + 1;
    }
    push_char(out, ']');
    proof {
        assert(parts.take(parameters@.len() as int) =~= parts);
        assert(out@ =~= old(out)@ + parameters_text(parameters@));
    }
}

fn unary_tag(operator: UnaryOperator) -> (tag: &'static str) {
    match operator {
        UnaryOperator::Not => "not",
        UnaryOperator::Negate => "negate",
    }
}

fn binary_tag(operator: BinaryOperator) -> (tag: &'static str) {
    match operator {
        BinaryOperator::Add => "add",
        BinaryOperator::Subtract => "subtract",
        BinaryOperator::Multiply => "multiply",
        BinaryOperator::Divide => "divide",
        BinaryOperator::Equal => "equal",
        BinaryOperator::NotEqual => "not_equal",
        BinaryOperator::Less => "less",
        BinaryOperator::LessEqual => "less_equal",
        BinaryOperator::Greater => "greater",
        BinaryOperator::GreaterEqual => "greater_equal",
        BinaryOperator::And => "and",
        BinaryOperator::Or => "or",
    }
}

fn ast_arguments(out: &mut String, arguments: &Vec<Argument>)
    decreases arguments@, 0nat,
{
    push_char(out, '[');
    let mut i: usize = 0;
    while i < arguments.len()
        decreases arguments@.len() - i,
    {
        if i > 0 {
            push_char(out, ',');
        }
        push_str(out, "{\"name\":");
        optional_string(out, &arguments[i].name);
        member(out, false, "value");
        ast_expression(out, &arguments[i].value);
        push_char(out, '}');
        i = i + 1;
    }
    push_char(out, ']');
}

fn ast_fields(out: &mut String, fields: &Vec<FieldInitializer>)
    decreases fields@, 0nat,
{
    push_char(out, '[');
    let mut i: usize = 0;
    while i < fields.len()
        decreases fields@.len() - i,
    {
        if i > 0 {
            push_char(out, ',');
        }
        push_char(out, '{');
        string_member(out, true, "name", fields[i].name.as_str());
        member(out, false, "value");
        ast_expression(out, &fields[i].value);
        push_char(out, '}');
        i = i + 1;
    }
    push_char(out, ']');
}

fn ast_elements(out: &mut String, elements: &Vec<Expression>)
    decreases elements@, 0nat,
{
    push_char(out, '[');
    let mut i: usize = 0;
    while i < elements.len()
        decreases elements@.len() - i,
    {
        if i > 0 {
            push_char(out, ',');
        }
        ast_expression(out, &elements[i]);
        i = i + 1;
    }
    push_char(out, ']');
}

fn ast_arms(out: &mut String, arms: &Vec<MatchArm>)
    decreases arms@, 0nat,
{
    push_char(out, '[');
    let mut i: usize = 0;
    while i < arms.len()
        decreases arms@.len() - i,
    {
        if i > 0 {
            push_char(out, ',');
        }
        push_str(out, "{\"pattern\":");
        match &arms[i].pattern {
            Pattern::Wildcard => push_str(out, "{\"pattern\":\"wildcard\"}"),
            Pattern::Variant { path, binding } => {
                push_str(out, "{\"binding\":");
                optional_string(out, binding);
                member(out, false, "path");
                ast_path(out, path);
                push_str(out, ",\"pattern\":\"variant\"}");
            },
        }
        member(out, false, "value");
        ast_expression(out, &arms[i].value);
        push_char(out, '}');
        i = i + 1;
    }
    push_char(out, ']');
}

fn ast_block(out: &mut String, block: &Block)
    decreases block, 1nat,
{
    push_str(out, "{\"statements\":[");
    let mut i: usize = 0;
    while i < block.statements.len()
        decreases block.statements@.len() - i,
    {
        if i > 0 {
            push_char(out, ',');
        }
        ast_statement(out, &block.statements[i]);
        i = i + 1;
    }
    push_str(out, "]}");
}

fn ast_statement(out: &mut String, statement: &Statement)
    decreases statement, 1nat,
{
    match &statement.kind {
        StatementKind::Let { name, ty, value } => {
            push_char(out, '{');
            string_member(out, true, "name", name.as_str());
            tag_member(out, false, "statement", "let");
            member(out, false, "ty");
            match ty {
                Some(t) => ast_type(out, t),
                None => push_str(out, "null"),
            }
            member(out, false, "value");
            ast_expression(out, value);
        },
        StatementKind::Require { condition } => {
            push_str(out, "{\"condition\":");
            ast_expression(out, condition);
            tag_member(out, false, "statement", "require");
        },
        StatementKind::UpdateState { fields } => {
            push_str(out, "{\"fields\":");
            ast_fields(out, fields);
            tag_member(out, false, "statement", "update_state");
        },
        StatementKind::Return { value } => {
            push_char(out, '{');
            tag_member(out, true, "statement", "return");
            member(out, false, "value");
            ast_expression(out, value);
        },
        StatementKind::Expression { expression } => {
            push_str(out, "{\"expression\":");
            ast_expression(out, expression);
            tag_member(out, false, "statement", "expression");
        },
    }
    push_char(out, '}');
}

fn expression_tag(out: &mut String, first: bool, tag: &str) {
    tag_member(out, first, "expression", tag);
}

/// Appends the normalized JSON of an expression.
fn ast_expression(out: &mut String, expression: &Expression)
    decreases expression, 2nat,
{
    push_char(out, '{');
    match &expression.kind {
        ExpressionKind::Unit => expression_tag(out, true, "unit"),
        ExpressionKind::Bool { value } => {
            expression_tag(out, true, "bool");
            member(out, false, "value");
            if *value {
                push_str(out, "true");
            } else {
                push_str(out, "false");
            }
        },
        ExpressionKind::Int { value } => {
            expression_tag(out, true, "int");
            member(out, false, "value");
            push_signed_decimal(out, *value);
        },
        ExpressionKind::Text { value } => {
            expression_tag(out, true, "text");
            string_member(out, false, "value", value.as_str());
        },
        ExpressionKind::Path { path } => {
            expression_tag(out, true, "path");
            member(out, false, "path");
            ast_path(out, path);
        },
        ExpressionKind::List { elements } => {
            member(out, true, "elements");
            ast_elements(out, elements);
            expression_tag(out, false, "list");
        },
        ExpressionKind::Record { path, fields } => {
            expression_tag(out, true, "record");
            member(out, false, "fields");
            ast_fields(out, fields);
            member(out, false, "path");
            ast_path(out, path);
        },
        ExpressionKind::Call { callee, arguments } => {
            member(out, true, "arguments");
            ast_arguments(out, arguments);
            member(out, false, "callee");
            ast_expression(out, callee);
            expression_tag(out, false, "call");
        },
        ExpressionKind::Field { target, field } => {
            expression_tag(out, true, "field");
            string_member(out, false, "field", field.as_str());
            member(out, false, "target");
            ast_expression(out, target);
        },
        ExpressionKind::Unary { operator, operand } => {
            expression_tag(out, true, "unary");
            member(out, false, "operand");
            ast_expression(out, operand);
            tag_member(out, false, "operator", unary_tag(*operator));
        },
        ExpressionKind::Binary { left, operator, right } => {
            expression_tag(out, true, "binary");
            member(out, false, "left");
            ast_expression(out, left);
            tag_member(out, false, "operator", binary_tag(*operator));
            member(out, false, "right");
            ast_expression(out, right);
        },
        ExpressionKind::Try { value } => {
            expression_tag(out, true, "try");
            member(out, false, "value");
            ast_expression(out, value);
        },
        ExpressionKind::If { condition, then_block, else_block } => {
            member(out, true, "condition");
            ast_expression(out, condition);
            member(out, false, "else_block");
            ast_block(out, else_block);
            expression_tag(out, false, "if");
            member(out, false, "then_block");
            ast_block(out, then_block);
        },
        ExpressionKind::Match { value, arms } => {
            member(out, true, "arms");
            ast_arms(out, arms);
            expression_tag(out, false, "match");
            member(out, false, "value");
            ast_expression(out, value);
        },
        ExpressionKind::Infer { prompt, arguments, model_alias } => {
            member(out, true, "arguments");
            ast_arguments(out, arguments);
            expression_tag(out, false, "infer");
            string_member(out, false, "model_alias", model_alias.as_str());
            member(out, false, "prompt");
            ast_path(out, prompt);
        },
        ExpressionKind::Validate { candidate, validator } => {
            member(out, true, "candidate");
            ast_expression(out, candidate);
            expression_tag(out, false, "validate");
            member(out, false, "validator");
            ast_path(out, validator);
        },
        ExpressionKind::Observe { action, arguments } => {
            member(out, true, "action");
            ast_path(out, action);
            member(out, false, "arguments");
            ast_arguments(out, arguments);
            expression_tag(out, false, "observe");
        },
        ExpressionKind::Intent { purpose, fields } => {
            expression_tag(out, true, "intent");
            member(out, false, "fields");
            ast_fields(out, fields);
            member(out, false, "purpose");
            ast_path(out, purpose);
        },
        ExpressionKind::Propose { action, arguments, intent } => {
            member(out, true, "action");
            ast_path(out, action);
            member(out, false, "arguments");
            ast_arguments(out, arguments);
            expression_tag(out, false, "propose");
            member(out, false, "intent");
            ast_expression(out, intent);
        },
        ExpressionKind::Authorize { proposal, policy } => {
            expression_tag(out, true, "authorize");
            member(out, false, "policy");
            ast_path(out, policy);
            member(out, false, "proposal");
            ast_expression(out, proposal);
        },
        ExpressionKind::Commit { proposal, permit } => {
            expression_tag(out, true, "commit");
            member(out, false, "permit");
            ast_expression(out, permit);
            member(out, false, "proposal");
            ast_expression(out, proposal);
        },
        ExpressionKind::Reconcile { receipt, observation, validator } => {
            expression_tag(out, true, "reconcile");
            member(out, false, "observation");
            ast_expression(out, observation);
            member(out, false, "receipt");
            ast_expression(out, receipt);
            member(out, false, "validator");
            ast_path(out, validator);
        },
    }
    push_char(out, '}');
}

fn ast_capabilities(out: &mut String, capabilities: &Vec<CapabilityExpression>) {
    push_char(out, '[');
    let mut i: usize = 0;
    while i < capabilities.len()
        decreases capabilities@.len() - i,
    {
        if i > 0 {
            push_char(out, ',');
        }
        ast_capability(out, &capabilities[i]);
        i = i + 1;
    }
    push_char(out, ']');
}

fn ast_capability(out: &mut String, capability: &CapabilityExpression) {
    push_str(out, "{\"arguments\":");
    ast_arguments(out, &capability.arguments);
    member(out, false, "path");
    ast_path(out, &capability.path);
    push_char(out, '}');
}

fn ast_function(out: &mut String, function: &FunctionDeclaration, tag: &str) {
    member(out, true, "body");
    ast_block(out, &function.body);
    tag_member(out, false, "kind", tag);
    string_member(out, false, "name", function.name.as_str());
    member(out, false, "parameters");
    ast_parameters(out, &function.parameters);
    member(out, false, "return_type");
    ast_type(out, &function.return_type);
    member(out, false, "uses");
    ast_capabilities(out, &function.uses);
}

fn ast_agent(out: &mut String, agent: &AgentDeclaration) {
    push_str(out, "\"budget\":[");
    let mut i: usize = 0;
    while i < agent.budget.len()
        decreases agent.budget@.len() - i,
    {
        if i > 0 {
            push_char(out, ',');
        }
        push_char(out, '{');
        string_member(out, true, "dimension", agent.budget[i].dimension.as_str());
        member(out, false, "limit");
        push_signed_decimal(out, agent.budget[i].limit);
        push_char(out, '}');
        i = i + 1;
    }
    push_str(out, "],\"handlers\":[");
    let mut h: usize = 0;
    while h < agent.handlers.len()
        decreases agent.handlers@.len() - h,
    {
        if h > 0 {
            push_char(out, ',');
        }
        let handler = &agent.handlers[h];
        push_str(out, "{\"body\":");
        ast_block(out, &handler.body);
        string_member(out, false, "event", handler.event.as_str());
        member(out, false, "parameters");
        ast_parameters(out, &handler.parameters);
        member(out, false, "return_type");
        ast_type(out, &handler.return_type);
        push_char(out, '}');
        h = h + 1;
    }
    push_char(out, ']');
    tag_member(out, false, "kind", "agent");
    string_member(out, false, "name", agent.name.as_str());
    member(out, false, "parameters");
    ast_parameters(out, &agent.parameters);
    member(out, false, "requires");
    ast_capabilities(out, &agent.requires);
    push_str(out, ",\"state\":[");
    let mut s: usize = 0;
    while s < agent.state.len()
        decreases agent.state@.len() - s,
    {
        if s > 0 {
            push_char(out, ',');
        }
        let field = &agent.state[s];
        push_str(out, "{\"default\":");
        ast_expression(out, &field.default);
        string_member(out, false, "name", field.name.as_str());
        member(out, false, "ty");
        ast_type(out, &field.ty);
        push_char(out, '}');
        s = s + 1;
    }
    push_char(out, ']');
}

fn ast_declaration(out: &mut String, declaration: &Declaration) {
    push_char(out, '{');
    match &declaration.kind {
        DeclarationKind::Type(value) => {
            push_str(out, "\"definition\":");
            match &value.definition {
                TypeDefinition::Alias(target) => {
                    push_str(out, "{\"definition\":\"alias\",\"value\":");
                    ast_type(out, target);
                    push_char(out, '}');
                },
                TypeDefinition::Record(fields) => {
                    push_str(out, "{\"definition\":\"record\",\"value\":[");
                    let mut i: usize = 0;
                    while i < fields.len()
                        decreases fields@.len() - i,
                    {
                        if i > 0 {
                            push_char(out, ',');
                        }
                        push_char(out, '{');
                        string_member(out, true, "name", fields[i].name.as_str());
                        member(out, false, "ty");
                        ast_type(out, &fields[i].ty);
                        push_char(out, '}');
                        i = i + 1;
                    }
                    push_str(out, "]}");
                },
            }
            tag_member(out, false, "kind", "type");
            string_member(out, false, "name", value.name.as_str());
        },
        DeclarationKind::Enum(value) => {
            tag_member(out, true, "kind", "enum");
            string_member(out, false, "name", value.name.as_str());
            push_str(out, ",\"variants\":[");
            let mut i: usize = 0;
            while i < value.variants.len()
                decreases value.variants@.len() - i,
            {
                if i > 0 {
                    push_char(out, ',');
                }
                push_char(out, '{');
                string_member(out, true, "name", value.variants[i].name.as_str());
                member(out, false, "payload");
                match &value.variants[i].payload {
                    Some(payload) => ast_type(out, payload),
                    None => push_str(out, "null"),
                }
                push_char(out, '}');
                i = i + 1;
            }
            push_char(out, ']');
        },
        DeclarationKind::Capability(value) => {
            tag_member(out, true, "kind", "capability");
            string_member(out, false, "name", value.name.as_str());
            member(out, false, "parameters");
            ast_parameters(out, &value.parameters);
        },
        DeclarationKind::Function(value) => ast_function(out, value, "function"),
        DeclarationKind::Flow(value) => ast_function(out, value, "flow"),
        DeclarationKind::Prompt(value) => {
            member(out, true, "data");
            string_array(out, &value.data);
            string_member(out, false, "instruction", value.instruction.as_str());
            tag_member(out, false, "kind", "prompt");
            string_member(out, false, "name", value.name.as_str());
            member(out, false, "parameters");
            ast_parameters(out, &value.parameters);
            member(out, false, "result_type");
            ast_type(out, &value.result_type);
        },
        DeclarationKind::Validator(value) => {
            tag_member(out, true, "kind", "validator");
            string_member(out, false, "name", value.name.as_str());
            member(out, false, "parameters");
            ast_parameters(out, &value.parameters);
            member(out, false, "requirements");
            ast_elements(out, &value.requirements);
        },
        DeclarationKind::Tool(value) => {
            tag_member(out, true, "kind", "tool");
            push_str(out, ",\"metadata\":{\"capability\":");
            match &value.metadata.capability {
                Some(c) => ast_capability(out, c),
                None => push_str(out, "null"),
            }
            member(out, false, "idempotency");
            optional_string(out, &value.metadata.idempotency);
            member(out, false, "mode");
            match value.metadata.mode {
                Some(ToolMode::Read) => push_str(out, "\"read\""),
                Some(ToolMode::Write) => push_str(out, "\"write\""),
                None => push_str(out, "null"),
            }
            member(out, false, "risk");
            match value.metadata.risk {
                Some(Risk::Reversible) => push_str(out, "\"reversible\""),
                Some(Risk::Irreversible) => push_str(out, "\"irreversible\""),
                None => push_str(out, "null"),
            }
            member(out, false, "sensitivity");
            match value.metadata.sensitivity {
                Some(Sensitivity::Public) => push_str(out, "\"public\""),
                Some(Sensitivity::Internal) => push_str(out, "\"internal\""),
                Some(Sensitivity::Private) => push_str(out, "\"private\""),
                Some(Sensitivity::Secret) => push_str(out, "\"secret\""),
                None => push_str(out, "null"),
            }
            push_char(out, '}');
            member(out, false, "parameters");
            ast_parameters(out, &value.parameters);
            member(out, false, "path");
            ast_path(out, &value.path);
            member(out, false, "return_type");
            ast_type(out, &value.return_type);
        },
        DeclarationKind::Policy(value) => {
            tag_member(out, true, "kind", "policy");
            string_member(out, false, "name", value.name.as_str());
            member(out, false, "parameters");
            ast_parameters(out, &value.parameters);
            push_str(out, ",\"rules\":[");
            let mut i: usize = 0;
            while i < value.rules.len()
                decreases value.rules@.len() - i,
            {
                if i > 0 {
                    push_char(out, ',');
                }
                let rule = &value.rules[i];
                push_str(out, "{\"condition\":");
                match &rule.condition {
                    Some(c) => ast_expression(out, c),
                    None => push_str(out, "null"),
                }
                push_str(out, ",\"decision\":");
                match &rule.decision {
                    PolicyDecision::Allow => push_str(out, "{\"decision\":\"allow\"}"),
                    PolicyDecision::Approve(v) => {
                        push_str(out, "{\"decision\":\"approve\",\"value\":");
                        ast_expression(out, v);
                        push_char(out, '}');
                    },
                    PolicyDecision::Deny(v) => {
                        push_str(out, "{\"decision\":\"deny\",\"value\":");
                        ast_expression(out, v);
                        push_char(out, '}');
                    },
                }
                push_char(out, '}');
                i = i + 1;
            }
            push_char(out, ']');
        },
        DeclarationKind::Agent(value) => ast_agent(out, value),
    }
    push_char(out, '}');
}

/// The syntax tree as JSON without source spans and comments, every object's
/// members in key order: the identity of what a module says, independent of
/// where it says it.
pub fn normalized_module_json(module: &Module) -> (json: String) {
    let mut out = String::new();
    push_str(&mut out, "{\"declarations\":[");
    let mut i: usize = 0;
    while i < module.declarations.len()
        decreases module.declarations@.len() - i,
    {
        if i > 0 {
            push_char(&mut out, ',');
        }
        ast_declaration(&mut out, &module.declarations[i]);
        i = i + 1;
    }
    push_str(&mut out, "],\"name\":");
    ast_path(&mut out, &module.name);
    push_char(&mut out, '}');
    out
}

// ---------------------------------------------------------------------------
// The persisted IR: struct members in declaration order, keyed tables as
// objects in key order.
// ---------------------------------------------------------------------------

/// Extending a structural type list by one type.
proof fn lemma_ir_type_list_push(items: Seq<TypeSpec>, n: int)
    requires
        0 <= n < items.len(),
    ensures
        ir_type_list_text(items.take(n + 1)) == if n == 0 {
            ir_type_text(items[0])
        } else {
            ir_type_list_text(items.take(n)) + ","@ + ir_type_text(items[n])
        },
{
    assert(items.take(n + 1).drop_last() =~= items.take(n));
    assert(items.take(n + 1).last() == items[n]);
    if n == 0 {
        assert(items.take(1)[0] == items[0]);
    }
}

fn ir_type(out: &mut String, ty: &TypeSpec)
    ensures
        final(out)@ == old(out)@ + ir_type_text(*ty),
    decreases ty,
{
    proof {
            reveal_strlit(",");
            reveal_strlit("[");
            reveal_strlit("{");
            reveal_strlit("}");
            reveal_strlit("\"");
            reveal_strlit("\":");
            reveal_strlit("name");
            reveal_strlit("ty");
            reveal_strlit("value");
            reveal_strlit("{\"name\":");
            reveal_strlit(",\"ty\":");
            reveal_strlit(",\"value\":");
    }
    push_char(out, '{');
    string_member(out, true, "name", ty.name.as_str());
    push_str(out, ",\"arguments\":[");
    let ghost head = out@;
    let mut i: usize = 0;
    proof {
        assert(head =~= head + ir_type_list_text(ty.arguments@.take(0)));
    }
    while i < ty.arguments.len()
        invariant
            i <= ty.arguments@.len(),
            out@ == head + ir_type_list_text(ty.arguments@.take(i as int)),
        decreases ty.arguments@.len() - i,
    {
        proof {
            lemma_ir_type_list_push(ty.arguments@, i as int);
            reveal_strlit(",");
        }
        let ghost before = out@;
        if i > 0 {
            push_char(out, ',');
        }
        ir_type(out, &ty.arguments[i]);
        proof {
            if i > 0 {
                assert(out@ =~= before + ","@ + ir_type_text(ty.arguments@[i as int]));
            }
        }
        i = i + 1;
    }
    proof {
        assert(ty.arguments@.take(ty.arguments@.len() as int) =~= ty.arguments@);
    }
    push_str(out, "]}");
    proof {
        assert(out@ =~= old(out)@ + ir_type_text(*ty));
    }
}

#[verifier::rlimit(40)]
fn ir_fields(out: &mut String, fields: &Vec<FieldSpec>)
    ensures
        final(out)@ == old(out)@ + ir_fields_text(fields@),
{
    proof {
            reveal_strlit(",");
            reveal_strlit("[");
            reveal_strlit("{");
            reveal_strlit("}");
            reveal_strlit("\"");
            reveal_strlit("\":");
            reveal_strlit("name");
            reveal_strlit("ty");
            reveal_strlit("value");
            reveal_strlit("{\"name\":");
            reveal_strlit(",\"ty\":");
            reveal_strlit(",\"value\":");
    }
    let ghost parts = fields@.map_values(
        |f: FieldSpec| "{\"name\":"@ + json_quoted(f.name@) + ",\"ty\":"@ + ir_type_text(f.ty) + "}"@,
    );
    push_char(out, '[');
    let mut i: usize = 0;
    while i < fields.len()
        invariant
            i <= fields@.len(),
            parts.len() == fields@.len(),
            forall|k: int| 0 <= k < fields@.len() ==> #[trigger] parts[k] == "{\"name\":"@ + json_quoted(
                fields@[k].name@,
            ) + ",\"ty\":"@ + ir_type_text(fields@[k].ty) + "}"@,
            out@ == old(out)@ + "["@ + comma_list(parts.take(i as int)),
        decreases fields@.len() - i,
    {
        proof {
            lemma_comma_list_push(parts, i as int);
            reveal_strlit(",");
            reveal_strlit("[");
            reveal_strlit("{");
            reveal_strlit("}");
            reveal_strlit("\"");
            reveal_strlit("\":");
            reveal_strlit("name");
            reveal_strlit("ty");
            reveal_strlit("value");
            reveal_strlit("{\"name\":");
            reveal_strlit(",\"ty\":");
            reveal_strlit(",\"value\":");
        }
        let ghost before = out@;
        if i > 0 {
            push_char(out, ',');
        }
        let ghost mid = out@;
        push_char(out, '{');
        string_member(out, true, "name", fields[i].name.as_str());
        member(out, false, "ty");
        ir_type(out, &fields[i].ty);
        push_char(out, '}');
        proof {
            assert(out@ =~= mid + parts[i as int]);
            if i == 0 {
                assert(out@ =~= old(out)@ + "["@ + comma_list(parts.take(1)));
            } else {
                assert(out@ =~= old(out)@ + "["@ + comma_list(parts.take(i as int)) + ","@ + parts[i as int]);
            }
        }
        i = i + 1;
    }
    push_char(out, ']');
    proof {
        assert(parts.take(fields@.len() as int) =~= parts);
        reveal_strlit("[");
        reveal_strlit("]");
        assert(ir_fields_text(fields@) == "["@ + comma_list(parts) + "]"@);
        assert(out@ =~= old(out)@ + ir_fields_text(fields@));
    }
}

/// The persisted JSON of one named pure expression.
pub open spec fn named_expression_text(item: NamedExpression) -> Seq<char>
    decreases item, 0nat,
{
    "{\"name\":"@ + optional_text(item.name) + member_text(false, "value"@) + pure_text(item.value) + seq!['}']
}

/// The persisted JSON of named pure expressions, comma-separated.
pub open spec fn named_list_text(items: Seq<NamedExpression>) -> Seq<char>
    decreases items, 0nat,
{
    if items.len() == 0 {
        Seq::empty()
    } else if items.len() == 1 {
        named_expression_text(items[0])
    } else {
        named_list_text(items.drop_last()) + ","@ + named_expression_text(items.last())
    }
}

/// The persisted JSON of pure expressions, comma-separated.
pub open spec fn pure_list_text(items: Seq<PureExpression>) -> Seq<char>
    decreases items, 0nat,
{
    if items.len() == 0 {
        Seq::empty()
    } else if items.len() == 1 {
        pure_text(items[0])
    } else {
        pure_list_text(items.drop_last()) + ","@ + pure_text(items.last())
    }
}

/// The persisted JSON of a pure expression: its kind, then its parts.
pub open spec fn pure_text(expression: PureExpression) -> Seq<char>
    decreases expression, 2nat,
{
    seq!['{'] + pure_members_text(expression) + seq!['}']
}

/// The members of a pure expression's persisted JSON.
pub open spec fn pure_members_text(expression: PureExpression) -> Seq<char>
    decreases expression, 1nat,
{
    match expression {
        PureExpression::Unit => tag_text(true, "kind"@, "unit"@),
        PureExpression::Bool { value } => tag_text(true, "kind"@, "bool"@) + member_text(false, "value"@) + if value {
            "true"@
        } else {
            "false"@
        },
        PureExpression::Int { value } => tag_text(true, "kind"@, "int"@) + member_text(false, "value"@)
            + crate::text::signed_decimal(value as int),
        PureExpression::Text { value } => tag_text(true, "kind"@, "text"@) + member_text(false, "value"@)
            + json_quoted(value@),
        PureExpression::Path { path } => tag_text(true, "kind"@, "path"@) + member_text(false, "path"@)
            + json_quoted(path@),
        PureExpression::List { elements } => tag_text(true, "kind"@, "list"@) + member_text(false, "elements"@)
            + seq!['['] + pure_list_text(elements@) + seq![']'],
        PureExpression::Record { ty, fields } => tag_text(true, "kind"@, "record"@) + member_text(false, "ty"@)
            + json_quoted(ty@) + member_text(false, "fields"@) + seq!['['] + named_list_text(fields@) + seq![']'],
        PureExpression::Field { target, field } => tag_text(true, "kind"@, "field"@) + member_text(false, "target"@)
            + pure_text(*target) + member_text(false, "field"@) + json_quoted(field@),
        PureExpression::Unary { operator, operand } => tag_text(true, "kind"@, "unary"@) + member_text(
            false,
            "operator"@,
        ) + json_quoted(operator@) + member_text(false, "operand"@) + pure_text(*operand),
        PureExpression::Binary { left, operator, right } => tag_text(true, "kind"@, "binary"@) + member_text(
            false,
            "left"@,
        ) + pure_text(*left) + member_text(false, "operator"@) + json_quoted(operator@) + member_text(
            false,
            "right"@,
        ) + pure_text(*right),
        PureExpression::Call { function, arguments } => tag_text(true, "kind"@, "call"@) + member_text(
            false,
            "function"@,
        ) + json_quoted(function@) + member_text(false, "arguments"@) + seq!['['] + named_list_text(arguments@)
            + seq![']'],
        PureExpression::Slot { value } => tag_text(true, "kind"@, "slot"@) + member_text(false, "value"@)
            + crate::text::decimal(value.0 as nat),
    }
}

proof fn lemma_pure_list_push(items: Seq<PureExpression>, n: int)
    requires
        0 <= n < items.len(),
    ensures
        pure_list_text(items.take(n + 1)) == if n == 0 {
            pure_text(items[0])
        } else {
            pure_list_text(items.take(n)) + ","@ + pure_text(items[n])
        },
{
    assert(items.take(n + 1).drop_last() =~= items.take(n));
    assert(items.take(n + 1).last() == items[n]);
    if n == 0 {
        assert(items.take(1)[0] == items[0]);
    }
}

proof fn lemma_named_list_push(items: Seq<NamedExpression>, n: int)
    requires
        0 <= n < items.len(),
    ensures
        named_list_text(items.take(n + 1)) == if n == 0 {
            named_expression_text(items[0])
        } else {
            named_list_text(items.take(n)) + ","@ + named_expression_text(items[n])
        },
{
    assert(items.take(n + 1).drop_last() =~= items.take(n));
    assert(items.take(n + 1).last() == items[n]);
    if n == 0 {
        assert(items.take(1)[0] == items[0]);
    }
}

fn ir_named_expressions(out: &mut String, items: &Vec<NamedExpression>)
    ensures
        final(out)@ == old(out)@ + seq!['['] + named_list_text(items@) + seq![']'],
    decreases items@, 0nat,
{
    push_char(out, '[');
    let ghost head = out@;
    let mut i: usize = 0;
    proof {
            assert(head =~= head + named_list_text(items@.take(0)));
    }
    while i < items.len()
        invariant
            i <= items@.len(),
            head == old(out)@ + seq!['['],
            out@ == head + named_list_text(items@.take(i as int)),
        decreases items@.len() - i,
    {
        proof {
            lemma_named_list_push(items@, i as int);
        }
        let ghost before = out@;
        if i > 0 {
            push_char(out, ',');
        }
        let ghost mid = out@;
        push_str(out, "{\"name\":");
        optional_string(out, &items[i].name);
        member(out, false, "value");
        ir_pure(out, &items[i].value);
        push_char(out, '}');
        proof {
            assert(out@ =~= mid + named_expression_text(items@[i as int]));
            if i > 0 {
                assert(mid =~= before + ","@) by {
                    reveal_strlit(",");
                }
                assert(out@ =~= head + named_list_text(items@.take(i as int)) + ","@ + named_expression_text(items@[i as int]));
            } else {
                assert(out@ =~= head + named_list_text(items@.take(1)));
            }
        }
        i = i + 1;
    }
    push_char(out, ']');
    proof {
        assert(items@.take(items@.len() as int) =~= items@);
        assert(out@ =~= old(out)@ + seq!['['] + named_list_text(items@) + seq![']']);
    }
}

fn ir_pure_list(out: &mut String, items: &Vec<PureExpression>)
    ensures
        final(out)@ == old(out)@ + seq!['['] + pure_list_text(items@) + seq![']'],
    decreases items@, 0nat,
{
    push_char(out, '[');
    let ghost head = out@;
    let mut i: usize = 0;
    proof {
            assert(head =~= head + pure_list_text(items@.take(0)));
    }
    while i < items.len()
        invariant
            i <= items@.len(),
            head == old(out)@ + seq!['['],
            out@ == head + pure_list_text(items@.take(i as int)),
        decreases items@.len() - i,
    {
        proof {
            lemma_pure_list_push(items@, i as int);
        }
        let ghost before = out@;
        if i > 0 {
            push_char(out, ',');
        }
        let ghost mid = out@;
        ir_pure(out, &items[i]);
        proof {
            if i > 0 {
                assert(mid =~= before + ","@) by {
                    reveal_strlit(",");
                }
                assert(out@ =~= head + pure_list_text(items@.take(i as int)) + ","@ + pure_text(items@[i as int]));
            } else {
                assert(out@ =~= head + pure_list_text(items@.take(1)));
            }
        }
        i = i + 1;
    }
    push_char(out, ']');
    proof {
        assert(items@.take(items@.len() as int) =~= items@);
        assert(out@ =~= old(out)@ + seq!['['] + pure_list_text(items@) + seq![']']);
    }
}

/// Appends the persisted JSON of a pure expression.
fn ir_pure(out: &mut String, expression: &PureExpression)
    ensures
        final(out)@ == old(out)@ + pure_text(*expression),
    decreases expression, 2nat,
{
    push_char(out, '{');
    ir_pure_members(out, expression);
    push_char(out, '}');
    proof {
        assert(out@ =~= old(out)@ + pure_text(*expression));
    }
}

/// Appends the members of a pure expression's persisted JSON.
#[verifier::rlimit(100)]
#[verifier::spinoff_prover]
fn ir_pure_members(out: &mut String, expression: &PureExpression)
    ensures
        final(out)@ == old(out)@ + pure_members_text(*expression),
    decreases expression, 1nat,
{
    let ghost start = out@;
    match expression {
        PureExpression::Unit => {
            tag_member(out, true, "kind", "unit");
            proof { assert(out@ =~= start + pure_members_text(*expression)); }
        },
        PureExpression::Bool { value } => {
            tag_member(out, true, "kind", "bool");
            member(out, false, "value");
            if *value {
                push_str(out, "true");
            } else {
                push_str(out, "false");
            }
            proof { assert(out@ =~= start + pure_members_text(*expression)); }
        },
        PureExpression::Int { value } => {
            tag_member(out, true, "kind", "int");
            member(out, false, "value");
            push_signed_decimal(out, *value);
            proof { assert(out@ =~= start + pure_members_text(*expression)); }
        },
        PureExpression::Text { value } => {
            tag_member(out, true, "kind", "text");
            string_member(out, false, "value", value.as_str());
            proof { assert(out@ =~= start + pure_members_text(*expression)); }
        },
        PureExpression::Path { path } => {
            tag_member(out, true, "kind", "path");
            string_member(out, false, "path", path.as_str());
            proof { assert(out@ =~= start + pure_members_text(*expression)); }
        },
        PureExpression::List { elements } => {
            tag_member(out, true, "kind", "list");
            let ghost s1 = out@;
            member(out, false, "elements");
            let ghost s2 = out@;
            ir_pure_list(out, elements);
            proof {
                assert(s1 == start + tag_text(true, "kind"@, "list"@));
                assert(s2 == s1 + member_text(false, "elements"@));
                assert(out@ == s2 + seq!['['] + pure_list_text(elements@) + seq![']']);
                assert(pure_members_text(*expression) == tag_text(true, "kind"@, "list"@) + member_text(false, "elements"@)
                    + seq!['['] + pure_list_text(elements@) + seq![']']);
                assert(out@ =~= start + pure_members_text(*expression));
            }
        },
        PureExpression::Record { ty, fields } => {
            tag_member(out, true, "kind", "record");
            let ghost s1 = out@;
            string_member(out, false, "ty", ty.as_str());
            let ghost s2 = out@;
            member(out, false, "fields");
            let ghost s3 = out@;
            ir_named_expressions(out, fields);
            proof {
                assert(s1 == start + tag_text(true, "kind"@, "record"@));
                assert(s2 == s1 + member_text(false, "ty"@) + json_quoted(ty@));
                assert(s3 == s2 + member_text(false, "fields"@));
                assert(out@ == s3 + seq!['['] + named_list_text(fields@) + seq![']']);
                assert(pure_members_text(*expression) == tag_text(true, "kind"@, "record"@) + member_text(false, "ty"@)
                    + json_quoted(ty@) + member_text(false, "fields"@) + seq!['['] + named_list_text(fields@) + seq![']']);
                assert(out@ =~= start + pure_members_text(*expression));
            }
        },
        PureExpression::Field { target, field } => {
            tag_member(out, true, "kind", "field");
            let ghost s1 = out@;
            member(out, false, "target");
            let ghost s2 = out@;
            ir_pure(out, target);
            let ghost s3 = out@;
            string_member(out, false, "field", field.as_str());
            proof {
                assert(s1 == start + tag_text(true, "kind"@, "field"@));
                assert(s2 == s1 + member_text(false, "target"@));
                assert(s3 == s2 + pure_text(**target));
                assert(out@ == s3 + member_text(false, "field"@) + json_quoted(field@));
                assert(pure_members_text(*expression) == tag_text(true, "kind"@, "field"@) + member_text(false, "target"@)
                    + pure_text(**target) + member_text(false, "field"@) + json_quoted(field@));
                assert(out@ =~= start + pure_members_text(*expression));
            }
        },
        PureExpression::Unary { operator, operand } => {
            tag_member(out, true, "kind", "unary");
            let ghost s1 = out@;
            string_member(out, false, "operator", operator.as_str());
            let ghost s2 = out@;
            member(out, false, "operand");
            let ghost s3 = out@;
            ir_pure(out, operand);
            proof {
                assert(s1 == start + tag_text(true, "kind"@, "unary"@));
                assert(s2 == s1 + member_text(false, "operator"@) + json_quoted(operator@));
                assert(s3 == s2 + member_text(false, "operand"@));
                assert(out@ == s3 + pure_text(**operand));
                assert(pure_members_text(*expression) == tag_text(true, "kind"@, "unary"@) + member_text(false, "operator"@)
                    + json_quoted(operator@) + member_text(false, "operand"@) + pure_text(**operand));
                assert(out@ =~= start + pure_members_text(*expression));
            }
        },
        PureExpression::Binary { left, operator, right } => {
            tag_member(out, true, "kind", "binary");
            let ghost s1 = out@;
            member(out, false, "left");
            let ghost s2 = out@;
            ir_pure(out, left);
            let ghost s3 = out@;
            string_member(out, false, "operator", operator.as_str());
            let ghost s4 = out@;
            member(out, false, "right");
            let ghost s5 = out@;
            ir_pure(out, right);
            proof {
                assert(s1 == start + tag_text(true, "kind"@, "binary"@));
                assert(s2 == s1 + member_text(false, "left"@));
                assert(s3 == s2 + pure_text(**left));
                assert(s4 == s3 + member_text(false, "operator"@) + json_quoted(operator@));
                assert(s5 == s4 + member_text(false, "right"@));
                assert(out@ == s5 + pure_text(**right));
                assert(pure_members_text(*expression) == tag_text(true, "kind"@, "binary"@) + member_text(false, "left"@)
                    + pure_text(**left) + member_text(false, "operator"@) + json_quoted(operator@) + member_text(
                    false,
                    "right"@,
                ) + pure_text(**right));
                assert(out@ =~= start + pure_members_text(*expression));
            }
        },
        PureExpression::Call { function, arguments } => {
            tag_member(out, true, "kind", "call");
            let ghost s1 = out@;
            string_member(out, false, "function", function.as_str());
            let ghost s2 = out@;
            member(out, false, "arguments");
            let ghost s3 = out@;
            ir_named_expressions(out, arguments);
            proof {
                assert(s1 == start + tag_text(true, "kind"@, "call"@));
                assert(s2 == s1 + member_text(false, "function"@) + json_quoted(function@));
                assert(s3 == s2 + member_text(false, "arguments"@));
                assert(out@ == s3 + seq!['['] + named_list_text(arguments@) + seq![']']);
                assert(pure_members_text(*expression) == tag_text(true, "kind"@, "call"@) + member_text(
                    false,
                    "function"@,
                ) + json_quoted(function@) + member_text(false, "arguments"@) + seq!['['] + named_list_text(arguments@)
                    + seq![']']);
                assert(out@ =~= start + pure_members_text(*expression));
            }
        },
        PureExpression::Slot { value } => {
            tag_member(out, true, "kind", "slot");
            member(out, false, "value");
            push_decimal(out, value.0 as u64);
            proof { assert(out@ =~= start + pure_members_text(*expression)); }
        },
    }
}

#[verifier::rlimit(40)]
fn ir_named_values(out: &mut String, items: &Vec<NamedValue>)
    ensures
        final(out)@ == old(out)@ + named_values_text(items@),
{
    proof {
            reveal_strlit(",");
            reveal_strlit("[");
            reveal_strlit("{");
            reveal_strlit("}");
            reveal_strlit("\"");
            reveal_strlit("\":");
            reveal_strlit("name");
            reveal_strlit("ty");
            reveal_strlit("value");
            reveal_strlit("{\"name\":");
            reveal_strlit(",\"ty\":");
            reveal_strlit(",\"value\":");
    }
    let ghost parts = items@.map_values(
        |v: NamedValue| "{\"name\":"@ + optional_text(v.name) + ",\"value\":"@
            + crate::text::decimal(v.value.0 as nat) + "}"@,
    );
    push_char(out, '[');
    let mut i: usize = 0;
    while i < items.len()
        invariant
            i <= items@.len(),
            parts.len() == items@.len(),
            forall|k: int| 0 <= k < items@.len() ==> #[trigger] parts[k] == "{\"name\":"@ + optional_text(
                items@[k].name,
            ) + ",\"value\":"@ + crate::text::decimal(items@[k].value.0 as nat) + "}"@,
            out@ == old(out)@ + "["@ + comma_list(parts.take(i as int)),
        decreases items@.len() - i,
    {
        proof {
            lemma_comma_list_push(parts, i as int);
            reveal_strlit(",");
            reveal_strlit("[");
            reveal_strlit("{");
            reveal_strlit("}");
            reveal_strlit("\"");
            reveal_strlit("\":");
            reveal_strlit("name");
            reveal_strlit("ty");
            reveal_strlit("value");
            reveal_strlit("{\"name\":");
            reveal_strlit(",\"ty\":");
            reveal_strlit(",\"value\":");
        }
        let ghost before = out@;
        if i > 0 {
            push_char(out, ',');
        }
        let ghost mid = out@;
        push_str(out, "{\"name\":");
        optional_string(out, &items[i].name);
        member(out, false, "value");
        push_decimal(out, items[i].value.0 as u64);
        push_char(out, '}');
        proof {
            assert(out@ =~= mid + parts[i as int]);
            if i == 0 {
                assert(out@ =~= old(out)@ + "["@ + comma_list(parts.take(1)));
            } else {
                assert(out@ =~= old(out)@ + "["@ + comma_list(parts.take(i as int)) + ","@ + parts[i as int]);
            }
        }
        i = i + 1;
    }
    push_char(out, ']');
    proof {
        assert(parts.take(items@.len() as int) =~= parts);
        reveal_strlit("[");
        reveal_strlit("]");
        assert(named_values_text(items@) == "["@ + comma_list(parts) + "]"@);
        assert(out@ =~= old(out)@ + named_values_text(items@));
    }
}

fn number_member(out: &mut String, name: &str, value: u32) {
    member(out, false, name);
    push_decimal(out, value as u64);
}

fn ir_match_targets(out: &mut String, arms: &Vec<MatchTarget>) {
    push_char(out, '[');
    let mut i: usize = 0;
    while i < arms.len()
        decreases arms@.len() - i,
    {
        if i > 0 {
            push_char(out, ',');
        }
        push_str(out, "{\"pattern\":");
        match &arms[i].pattern {
            PatternSpec::Wildcard => push_str(out, "{\"kind\":\"wildcard\"}"),
            PatternSpec::Variant { path, binding } => {
                push_str(out, "{\"kind\":\"variant\"");
                string_member(out, false, "path", path.as_str());
                member(out, false, "binding");
                optional_string(out, binding);
                push_char(out, '}');
            },
        }
        number_member(out, "target", arms[i].target);
        push_char(out, '}');
        i = i + 1;
    }
    push_char(out, ']');
}

fn ir_instruction(out: &mut String, instruction: &Instruction) {
    push_str(out, "{\"id\":");
    push_decimal(out, instruction.id.index() as u64);
    push_str(out, ",\"kind\":{");
    match &instruction.kind {
        InstructionKind::Evaluate { target, expression } => {
            tag_member(out, true, "op", "evaluate");
            number_member(out, "target", target.0);
            member(out, false, "expression");
            ir_pure(out, expression);
        },
        InstructionKind::Bind { name, value } => {
            tag_member(out, true, "op", "bind");
            string_member(out, false, "name", name.as_str());
            number_member(out, "value", value.0);
        },
        InstructionKind::Call { target, routine, arguments } => {
            tag_member(out, true, "op", "call");
            number_member(out, "target", target.0);
            string_member(out, false, "routine", routine.as_str());
            member(out, false, "arguments");
            ir_named_values(out, arguments);
        },
        InstructionKind::UnwrapResult { target, result } => {
            tag_member(out, true, "op", "unwrap_result");
            number_member(out, "target", target.0);
            number_member(out, "result", result.0);
        },
        InstructionKind::Branch { condition, then_target, else_target } => {
            tag_member(out, true, "op", "branch");
            number_member(out, "condition", condition.0);
            number_member(out, "then_target", *then_target);
            number_member(out, "else_target", *else_target);
        },
        InstructionKind::Jump { target } => {
            tag_member(out, true, "op", "jump");
            number_member(out, "target", *target);
        },
        InstructionKind::Match { value, arms } => {
            tag_member(out, true, "op", "match");
            number_member(out, "value", value.0);
            member(out, false, "arms");
            ir_match_targets(out, arms);
        },
        InstructionKind::Infer { target, prompt, arguments, model_alias } => {
            tag_member(out, true, "op", "infer");
            number_member(out, "target", target.0);
            string_member(out, false, "prompt", prompt.as_str());
            member(out, false, "arguments");
            ir_named_values(out, arguments);
            string_member(out, false, "model_alias", model_alias.as_str());
        },
        InstructionKind::Validate { target, candidate, validator } => {
            tag_member(out, true, "op", "validate");
            number_member(out, "target", target.0);
            number_member(out, "candidate", candidate.0);
            string_member(out, false, "validator", validator.as_str());
        },
        InstructionKind::Observe { target, action, arguments } => {
            tag_member(out, true, "op", "observe");
            number_member(out, "target", target.0);
            string_member(out, false, "action", action.as_str());
            member(out, false, "arguments");
            ir_named_values(out, arguments);
        },
        InstructionKind::ConstructIntent { target, purpose, fields } => {
            tag_member(out, true, "op", "construct_intent");
            number_member(out, "target", target.0);
            string_member(out, false, "purpose", purpose.as_str());
            member(out, false, "fields");
            ir_named_values(out, fields);
        },
        InstructionKind::ConstructProposal { target, action, arguments, intent } => {
            tag_member(out, true, "op", "construct_proposal");
            number_member(out, "target", target.0);
            string_member(out, false, "action", action.as_str());
            member(out, false, "arguments");
            ir_named_values(out, arguments);
            number_member(out, "intent", intent.0);
        },
        InstructionKind::Authorize { target, proposal, policy, approval_may_suspend } => {
            tag_member(out, true, "op", "authorize");
            number_member(out, "target", target.0);
            number_member(out, "proposal", proposal.0);
            string_member(out, false, "policy", policy.as_str());
            member(out, false, "approval_may_suspend");
            if *approval_may_suspend {
                push_str(out, "true");
            } else {
                push_str(out, "false");
            }
        },
        InstructionKind::Commit { target, proposal, permit } => {
            tag_member(out, true, "op", "commit");
            number_member(out, "target", target.0);
            number_member(out, "proposal", proposal.0);
            number_member(out, "permit", permit.0);
        },
        InstructionKind::Reconcile { target, receipt, observation, validator } => {
            tag_member(out, true, "op", "reconcile");
            number_member(out, "target", target.0);
            number_member(out, "receipt", receipt.0);
            number_member(out, "observation", observation.0);
            string_member(out, false, "validator", validator.as_str());
        },
        InstructionKind::Require { condition } => {
            tag_member(out, true, "op", "require");
            number_member(out, "condition", condition.0);
        },
        InstructionKind::UpdateState { fields } => {
            tag_member(out, true, "op", "update_state");
            member(out, false, "fields");
            ir_named_values(out, fields);
        },
        InstructionKind::Return { value } => {
            tag_member(out, true, "op", "return");
            number_member(out, "value", value.0);
        },
    }
    push_str(out, "}}");
}

fn ir_routine(out: &mut String, routine: &Routine) {
    push_char(out, '{');
    string_member(out, true, "name", routine.name.as_str());
    member(out, false, "parameters");
    ir_fields(out, &routine.parameters);
    member(out, false, "return_type");
    ir_type(out, &routine.return_type);
    push_str(out, ",\"instructions\":[");
    let mut i: usize = 0;
    while i < routine.instructions.len()
        decreases routine.instructions@.len() - i,
    {
        if i > 0 {
            push_char(out, ',');
        }
        ir_instruction(out, &routine.instructions[i]);
        i = i + 1;
    }
    push_str(out, "]}");
}


/// Extending a comma-joined list by its next part.
proof fn lemma_comma_step(
    head: Seq<char>,
    parts: Seq<Seq<char>>,
    i: int,
    before: Seq<char>,
    mid: Seq<char>,
    after: Seq<char>,
)
    requires
        0 <= i < parts.len(),
        before == head + comma_list(parts.take(i)),
        mid == if i > 0 {
            before + ","@
        } else {
            before
        },
        after == mid + parts[i],
    ensures
        after == head + comma_list(parts.take(i + 1)),
{
    lemma_comma_list_push(parts, i);
    if i == 0 {
        assert(parts.take(0) =~= Seq::<Seq<char>>::empty());
        assert(comma_list(parts.take(0)) =~= Seq::<char>::empty());
        assert(after =~= head + comma_list(parts.take(1)));
    } else {
        assert(after =~= head + comma_list(parts.take(i + 1)));
    }
}

/// The persisted JSON of a capability request template.
pub open spec fn capability_text(capability: CapabilitySpec) -> Seq<char> {
    seq!['{'] + member_text(true, "name"@) + json_quoted(capability.name@) + member_text(false, "arguments"@)
        + seq!['['] + named_list_text(capability.arguments@) + seq![']'] + seq!['}']
}

/// The persisted JSON of a static prompt.
pub open spec fn prompt_text(prompt: PromptSpec) -> Seq<char> {
    "{\"parameters\":"@ + ir_fields_text(prompt.parameters@) + member_text(false, "result_type"@) + ir_type_text(
        prompt.result_type,
    ) + member_text(false, "instruction"@) + json_quoted(prompt.instruction@) + member_text(false, "data"@)
        + string_array_text(string_views(prompt.data@)) + seq!['}']
}

/// The persisted JSON of a tool mode.
pub open spec fn mode_text(mode: crate::ir::ToolMode) -> Seq<char> {
    match mode {
        crate::ir::ToolMode::Read => "\"read\""@,
        crate::ir::ToolMode::Write => "\"write\""@,
    }
}

/// The persisted JSON of an optional capability template.
pub open spec fn optional_capability_text(capability: Option<CapabilitySpec>) -> Seq<char> {
    match capability {
        Some(c) => capability_text(c),
        None => "null"@,
    }
}

/// The persisted JSON of an optional rule condition.
pub open spec fn condition_text(condition: Option<PureExpression>) -> Seq<char> {
    match condition {
        Some(c) => pure_text(c),
        None => "null"@,
    }
}

/// The persisted JSON of a tool boundary: its schemas, mode, capability,
/// idempotency, risk and sensitivity.
pub open spec fn tool_text(tool: ToolSpec) -> Seq<char> {
    tool_schema_text(tool) + tool_metadata_text(tool) + seq!['}']
}

/// The schema members of a tool's persisted JSON: parameters, result type
/// and mode.
pub open spec fn tool_schema_text(tool: ToolSpec) -> Seq<char> {
    "{\"parameters\":"@ + ir_fields_text(tool.parameters@) + member_text(false, "result_type"@) + ir_type_text(
        tool.result_type,
    ) + member_text(false, "mode"@) + mode_text(tool.mode)
}

/// The metadata members of a tool's persisted JSON: capability,
/// idempotency, risk and sensitivity.
pub open spec fn tool_metadata_text(tool: ToolSpec) -> Seq<char> {
    member_text(false, "capability"@) + optional_capability_text(tool.capability) + member_text(
        false,
        "idempotency"@,
    ) + optional_text(tool.idempotency) + member_text(false, "risk"@) + optional_text(tool.risk) + member_text(
        false,
        "sensitivity"@,
    ) + optional_text(tool.sensitivity)
}

/// The persisted JSON of a validator.
pub open spec fn validator_text(validator: ValidatorSpec) -> Seq<char> {
    "{\"parameters\":"@ + ir_fields_text(validator.parameters@) + member_text(false, "requirements"@) + seq!['[']
        + pure_list_text(validator.requirements@) + seq![']'] + seq!['}']
}

/// The persisted JSON of a policy decision.
pub open spec fn decision_text(decision: PolicyDecisionSpec) -> Seq<char> {
    match decision {
        PolicyDecisionSpec::Allow => "{\"kind\":\"allow\"}"@,
        PolicyDecisionSpec::Approve(v) => "{\"kind\":\"approve\",\"value\":"@ + pure_text(v) + seq!['}'],
        PolicyDecisionSpec::Deny(v) => "{\"kind\":\"deny\",\"value\":"@ + pure_text(v) + seq!['}'],
    }
}

/// The persisted JSON of a policy rule.
pub open spec fn rule_text(rule: PolicyRuleSpec) -> Seq<char> {
    "{\"decision\":"@ + decision_text(rule.decision) + member_text(false, "condition"@) + condition_text(
        rule.condition,
    ) + seq!['}']
}

/// The persisted JSON of each rule of a policy.
pub open spec fn rule_parts(rules: Seq<PolicyRuleSpec>) -> Seq<Seq<char>> {
    rules.map_values(|r: PolicyRuleSpec| rule_text(r))
}

/// The persisted JSON of a policy.
pub open spec fn policy_text(policy: PolicySpec) -> Seq<char> {
    "{\"parameters\":"@ + ir_fields_text(policy.parameters@) + ",\"rules\":["@ + comma_list(rule_parts(policy.rules@))
        + "]}"@
}

/// `"key":value` members of the catalog's tables.
pub open spec fn alias_parts(entries: Seq<(String, TypeSpec)>) -> Seq<Seq<char>> {
    entries.map_values(|e: (String, TypeSpec)| json_quoted(e.0@) + seq![':'] + ir_type_text(e.1))
}

pub open spec fn record_parts(entries: Seq<(String, Vec<FieldSpec>)>) -> Seq<Seq<char>> {
    entries.map_values(|e: (String, Vec<FieldSpec>)| json_quoted(e.0@) + seq![':'] + ir_fields_text(e.1@))
}

pub open spec fn prompt_parts(entries: Seq<(String, PromptSpec)>) -> Seq<Seq<char>> {
    entries.map_values(|e: (String, PromptSpec)| json_quoted(e.0@) + seq![':'] + prompt_text(e.1))
}

pub open spec fn tool_parts(entries: Seq<(String, ToolSpec)>) -> Seq<Seq<char>> {
    entries.map_values(|e: (String, ToolSpec)| json_quoted(e.0@) + seq![':'] + tool_text(e.1))
}

pub open spec fn validator_parts(entries: Seq<(String, ValidatorSpec)>) -> Seq<Seq<char>> {
    entries.map_values(|e: (String, ValidatorSpec)| json_quoted(e.0@) + seq![':'] + validator_text(e.1))
}

pub open spec fn policy_parts(entries: Seq<(String, PolicySpec)>) -> Seq<Seq<char>> {
    entries.map_values(|e: (String, PolicySpec)| json_quoted(e.0@) + seq![':'] + policy_text(e.1))
}

/// The persisted JSON of a catalog: each table as an object keyed by name.
#[verifier::opaque]
pub open spec fn catalog_text(catalog: Catalog) -> Seq<char> {
    "{\"aliases\":{"@ + comma_list(alias_parts(catalog.aliases@)) + "},\"records\":{"@ + comma_list(
        record_parts(catalog.records@),
    ) + "},\"prompts\":{"@ + comma_list(prompt_parts(catalog.prompts@)) + "},\"tools\":{"@ + comma_list(
        tool_parts(catalog.tools@),
    ) + "},\"validators\":{"@ + comma_list(validator_parts(catalog.validators@)) + "},\"policies\":{"@
        + comma_list(policy_parts(catalog.policies@)) + "}}"@
}

fn ir_capability(out: &mut String, capability: &CapabilitySpec)
    ensures
        final(out)@ == old(out)@ + capability_text(*capability),
{
    push_char(out, '{');
    string_member(out, true, "name", capability.name.as_str());
    member(out, false, "arguments");
    ir_named_expressions(out, &capability.arguments);
    push_char(out, '}');
    proof {
        assert(out@ =~= old(out)@ + capability_text(*capability));
    }
}

fn ir_agent(out: &mut String, agent: &Agent) {
    push_str(out, "{\"parameters\":");
    ir_fields(out, &agent.parameters);
    push_str(out, ",\"state\":[");
    let mut i: usize = 0;
    while i < agent.state.len()
        decreases agent.state@.len() - i,
    {
        if i > 0 {
            push_char(out, ',');
        }
        let field: &StateFieldSpec = &agent.state[i];
        push_char(out, '{');
        string_member(out, true, "name", field.name.as_str());
        member(out, false, "ty");
        ir_type(out, &field.ty);
        member(out, false, "default");
        ir_pure(out, &field.default);
        push_char(out, '}');
        i = i + 1;
    }
    push_str(out, "],\"budget\":{");
    let mut b: usize = 0;
    while b < agent.budget.len()
        decreases agent.budget@.len() - b,
    {
        if b > 0 {
            push_char(out, ',');
        }
        push_json_string(out, agent.budget[b].0.as_str());
        push_char(out, ':');
        push_decimal(out, agent.budget[b].1);
        b = b + 1;
    }
    push_str(out, "},\"handlers\":{");
    let mut h: usize = 0;
    while h < agent.handlers.len()
        decreases agent.handlers@.len() - h,
    {
        if h > 0 {
            push_char(out, ',');
        }
        push_json_string(out, agent.handlers[h].0.as_str());
        push_char(out, ':');
        push_json_string(out, agent.handlers[h].1.as_str());
        h = h + 1;
    }
    push_str(out, "},\"capabilities\":[");
    let mut c: usize = 0;
    while c < agent.capabilities.len()
        decreases agent.capabilities@.len() - c,
    {
        if c > 0 {
            push_char(out, ',');
        }
        ir_capability(out, &agent.capabilities[c]);
        c = c + 1;
    }
    push_str(out, "]}");
}

#[verifier::spinoff_prover]
fn ir_prompt(out: &mut String, prompt: &PromptSpec)
    ensures
        final(out)@ == old(out)@ + prompt_text(*prompt),
{
    push_str(out, "{\"parameters\":");
    let ghost s1 = out@;
    ir_fields(out, &prompt.parameters);
    let ghost s2 = out@;
    member(out, false, "result_type");
    ir_type(out, &prompt.result_type);
    let ghost s3 = out@;
    string_member(out, false, "instruction", prompt.instruction.as_str());
    member(out, false, "data");
    let ghost s4 = out@;
    string_array(out, &prompt.data);
    let ghost s5 = out@;
    push_char(out, '}');
    proof {
        assert(s2 == s1 + ir_fields_text(prompt.parameters@));
        assert(s3 =~= s2 + member_text(false, "result_type"@) + ir_type_text(prompt.result_type));
        assert(s4 =~= s3 + member_text(false, "instruction"@) + json_quoted(prompt.instruction@) + member_text(
            false,
            "data"@,
        ));
        assert(s5 == s4 + string_array_text(string_views(prompt.data@)));
        assert(out@ =~= old(out)@ + prompt_text(*prompt));
    }
}

#[verifier::spinoff_prover]
fn ir_tool_schema(out: &mut String, tool: &ToolSpec)
    ensures
        final(out)@ == old(out)@ + tool_schema_text(*tool),
{
    push_str(out, "{\"parameters\":");
    let ghost s1 = out@;
    ir_fields(out, &tool.parameters);
    let ghost s2 = out@;
    member(out, false, "result_type");
    let ghost s3 = out@;
    ir_type(out, &tool.result_type);
    let ghost s4 = out@;
    member(out, false, "mode");
    let ghost m = out@;
    match tool.mode {
        crate::ir::ToolMode::Read => {
            push_str(out, "\"read\"");
        },
        crate::ir::ToolMode::Write => {
            push_str(out, "\"write\"");
        },
    }
    proof {
        assert(out@ == m + mode_text(tool.mode));
        assert(s2 == s1 + ir_fields_text(tool.parameters@));
        assert(s3 =~= s2 + member_text(false, "result_type"@));
        assert(s4 == s3 + ir_type_text(tool.result_type));
        assert(m =~= s4 + member_text(false, "mode"@));
        assert(out@ =~= old(out)@ + tool_schema_text(*tool));
    }
}

fn ir_optional_capability(out: &mut String, capability: &Option<CapabilitySpec>)
    ensures
        final(out)@ == old(out)@ + optional_capability_text(*capability),
{
    match capability {
        Some(c) => ir_capability(out, c),
        None => push_str(out, "null"),
    }
}

#[verifier::spinoff_prover]
fn ir_tool_metadata(out: &mut String, tool: &ToolSpec)
    ensures
        final(out)@ == old(out)@ + tool_metadata_text(*tool),
{
    member(out, false, "capability");
    let ghost s5 = out@;
    ir_optional_capability(out, &tool.capability);
    let ghost s6 = out@;
    member(out, false, "idempotency");
    let ghost s7 = out@;
    optional_string(out, &tool.idempotency);
    let ghost s8 = out@;
    member(out, false, "risk");
    let ghost s9 = out@;
    optional_string(out, &tool.risk);
    let ghost s10 = out@;
    member(out, false, "sensitivity");
    let ghost s11 = out@;
    optional_string(out, &tool.sensitivity);
    proof {
        let o = old(out)@;
        let p1 = member_text(false, "capability"@);
        let p2 = optional_capability_text(tool.capability);
        let p3 = member_text(false, "idempotency"@);
        let p4 = optional_text(tool.idempotency);
        let p5 = member_text(false, "risk"@);
        let p6 = optional_text(tool.risk);
        let p7 = member_text(false, "sensitivity"@);
        let p8 = optional_text(tool.sensitivity);
        assert(s5 == o + p1);
        assert(s6 == s5 + p2);
        assert(s7 == s6 + p3);
        assert(s8 == s7 + p4);
        assert(s9 == s8 + p5);
        assert(s10 == s9 + p6);
        assert(s11 == s10 + p7);
        assert(out@ == s11 + p8);
        vstd::seq_lib::lemma_concat_associative(o, p1, p2);
        vstd::seq_lib::lemma_concat_associative(o, p1 + p2, p3);
        vstd::seq_lib::lemma_concat_associative(o, p1 + p2 + p3, p4);
        vstd::seq_lib::lemma_concat_associative(o, p1 + p2 + p3 + p4, p5);
        vstd::seq_lib::lemma_concat_associative(o, p1 + p2 + p3 + p4 + p5, p6);
        vstd::seq_lib::lemma_concat_associative(o, p1 + p2 + p3 + p4 + p5 + p6, p7);
        vstd::seq_lib::lemma_concat_associative(o, p1 + p2 + p3 + p4 + p5 + p6 + p7, p8);
        assert(tool_metadata_text(*tool) == p1 + p2 + p3 + p4 + p5 + p6 + p7 + p8);
    }
}

fn ir_tool(out: &mut String, tool: &ToolSpec)
    ensures
        final(out)@ == old(out)@ + tool_text(*tool),
{
    ir_tool_schema(out, tool);
    ir_tool_metadata(out, tool);
    push_char(out, '}');
    proof {
        assert(out@ =~= old(out)@ + tool_text(*tool));
    }
}

#[verifier::spinoff_prover]
fn ir_validator(out: &mut String, validator: &ValidatorSpec)
    ensures
        final(out)@ == old(out)@ + validator_text(*validator),
{
    push_str(out, "{\"parameters\":");
    let ghost s1 = out@;
    ir_fields(out, &validator.parameters);
    let ghost s2 = out@;
    member(out, false, "requirements");
    let ghost s3 = out@;
    ir_pure_list(out, &validator.requirements);
    let ghost s4 = out@;
    push_char(out, '}');
    proof {
        assert(s2 == s1 + ir_fields_text(validator.parameters@));
        assert(s3 == s2 + member_text(false, "requirements"@));
        assert(s4 == s3 + seq!['['] + pure_list_text(validator.requirements@) + seq![']']);
        assert(out@ =~= old(out)@ + validator_text(*validator));
    }
}

#[verifier::spinoff_prover]
fn ir_rule(out: &mut String, rule: &PolicyRuleSpec)
    ensures
        final(out)@ == old(out)@ + rule_text(*rule),
{
    push_str(out, "{\"decision\":");
    let ghost s1 = out@;
    match &rule.decision {
        PolicyDecisionSpec::Allow => push_str(out, "{\"kind\":\"allow\"}"),
        PolicyDecisionSpec::Approve(v) => {
            push_str(out, "{\"kind\":\"approve\",\"value\":");
            ir_pure(out, v);
            push_char(out, '}');
        },
        PolicyDecisionSpec::Deny(v) => {
            push_str(out, "{\"kind\":\"deny\",\"value\":");
            ir_pure(out, v);
            push_char(out, '}');
        },
    }
    let ghost s2 = out@;
    member(out, false, "condition");
    let ghost s3 = out@;
    match &rule.condition {
        Some(c) => ir_pure(out, c),
        None => push_str(out, "null"),
    }
    let ghost s4 = out@;
    push_char(out, '}');
    proof {
        assert(s2 =~= s1 + decision_text(rule.decision));
        assert(s3 == s2 + member_text(false, "condition"@));
        assert(s4 =~= s3 + condition_text(rule.condition));
        assert(out@ =~= old(out)@ + rule_text(*rule));
    }
}

#[verifier::spinoff_prover]
fn ir_policy(out: &mut String, policy: &PolicySpec)
    ensures
        final(out)@ == old(out)@ + policy_text(*policy),
{
    push_str(out, "{\"parameters\":");
    let ghost s1 = out@;
    ir_fields(out, &policy.parameters);
    let ghost s2 = out@;
    push_str(out, ",\"rules\":[");
    let ghost head = out@;
    let ghost parts = rule_parts(policy.rules@);
    let mut i: usize = 0;
    proof {
        assert(comma_list(parts.take(0)) =~= Seq::<char>::empty());
        assert(out@ =~= head + comma_list(parts.take(0)));
    }
    while i < policy.rules.len()
        invariant
            i <= policy.rules@.len(),
            parts == rule_parts(policy.rules@),
            out@ == head + comma_list(parts.take(i as int)),
        decreases policy.rules@.len() - i,
    {
        let ghost before = out@;
        if i > 0 {
            push_char(out, ',');
        }
        let ghost mid = out@;
        ir_rule(out, &policy.rules[i]);
        proof {
            assert(parts[i as int] == rule_text(policy.rules@[i as int]));
            assert(mid == if i > 0 { before + ","@ } else { before }) by {
                reveal_strlit(",");
                if i > 0 {
                    assert(mid =~= before + ","@);
                }
            }
            lemma_comma_step(head, parts, i as int, before, mid, out@);
        }
        i = i + 1;
    }
    let ghost s3 = out@;
    push_str(out, "]}");
    proof {
        assert(parts.take(policy.rules@.len() as int) =~= parts);
        assert(s2 == s1 + ir_fields_text(policy.parameters@));
        assert(out@ =~= old(out)@ + policy_text(*policy));
    }
}

#[verifier::spinoff_prover]
#[verifier::rlimit(60)]
fn ir_alias_entries(out: &mut String, entries: &Vec<(String, TypeSpec)>)
    ensures
        final(out)@ == old(out)@ + comma_list(alias_parts(entries@)),
{
    let ghost head = out@;
    let ghost parts = alias_parts(entries@);
    let mut i: usize = 0;
    proof {
        assert(comma_list(parts.take(0)) =~= Seq::<char>::empty());
        assert(out@ =~= head + comma_list(parts.take(0)));
    }
    while i < entries.len()
        invariant
            i <= entries@.len(),
            head == old(out)@,
            parts == alias_parts(entries@),
            out@ == head + comma_list(parts.take(i as int)),
        decreases entries@.len() - i,
    {
        let ghost before = out@;
        if i > 0 {
            push_char(out, ',');
        }
        let ghost mid = out@;
        push_json_string(out, entries[i].0.as_str());
        push_char(out, ':');
        ir_type(out, &entries[i].1);
        proof {
            assert(parts[i as int] == json_quoted(entries@[i as int].0@) + seq![':'] + ir_type_text(entries@[i as int].1));
            assert(out@ =~= mid + parts[i as int]);
            assert(mid == if i > 0 { before + ","@ } else { before }) by {
                reveal_strlit(",");
                if i > 0 {
                    assert(mid =~= before + ","@);
                }
            }
            lemma_comma_step(head, parts, i as int, before, mid, out@);
        }
        i = i + 1;
    }
    proof {
        assert(parts.take(entries@.len() as int) =~= parts);
    }
}

#[verifier::spinoff_prover]
#[verifier::rlimit(60)]
fn ir_record_entries(out: &mut String, entries: &Vec<(String, Vec<FieldSpec>)>)
    ensures
        final(out)@ == old(out)@ + comma_list(record_parts(entries@)),
{
    let ghost head = out@;
    let ghost parts = record_parts(entries@);
    let mut i: usize = 0;
    proof {
        assert(comma_list(parts.take(0)) =~= Seq::<char>::empty());
        assert(out@ =~= head + comma_list(parts.take(0)));
    }
    while i < entries.len()
        invariant
            i <= entries@.len(),
            head == old(out)@,
            parts == record_parts(entries@),
            out@ == head + comma_list(parts.take(i as int)),
        decreases entries@.len() - i,
    {
        let ghost before = out@;
        if i > 0 {
            push_char(out, ',');
        }
        let ghost mid = out@;
        push_json_string(out, entries[i].0.as_str());
        push_char(out, ':');
        ir_fields(out, &entries[i].1);
        proof {
            assert(parts[i as int] == json_quoted(entries@[i as int].0@) + seq![':'] + ir_fields_text(entries@[i as int].1@));
            assert(out@ =~= mid + parts[i as int]);
            assert(mid == if i > 0 { before + ","@ } else { before }) by {
                reveal_strlit(",");
                if i > 0 {
                    assert(mid =~= before + ","@);
                }
            }
            lemma_comma_step(head, parts, i as int, before, mid, out@);
        }
        i = i + 1;
    }
    proof {
        assert(parts.take(entries@.len() as int) =~= parts);
    }
}

#[verifier::spinoff_prover]
#[verifier::rlimit(60)]
fn ir_prompt_entries(out: &mut String, entries: &Vec<(String, PromptSpec)>)
    ensures
        final(out)@ == old(out)@ + comma_list(prompt_parts(entries@)),
{
    let ghost head = out@;
    let ghost parts = prompt_parts(entries@);
    let mut i: usize = 0;
    proof {
        assert(comma_list(parts.take(0)) =~= Seq::<char>::empty());
        assert(out@ =~= head + comma_list(parts.take(0)));
    }
    while i < entries.len()
        invariant
            i <= entries@.len(),
            head == old(out)@,
            parts == prompt_parts(entries@),
            out@ == head + comma_list(parts.take(i as int)),
        decreases entries@.len() - i,
    {
        let ghost before = out@;
        if i > 0 {
            push_char(out, ',');
        }
        let ghost mid = out@;
        push_json_string(out, entries[i].0.as_str());
        push_char(out, ':');
        ir_prompt(out, &entries[i].1);
        proof {
            assert(parts[i as int] == json_quoted(entries@[i as int].0@) + seq![':'] + prompt_text(entries@[i as int].1));
            assert(out@ =~= mid + parts[i as int]);
            assert(mid == if i > 0 { before + ","@ } else { before }) by {
                reveal_strlit(",");
                if i > 0 {
                    assert(mid =~= before + ","@);
                }
            }
            lemma_comma_step(head, parts, i as int, before, mid, out@);
        }
        i = i + 1;
    }
    proof {
        assert(parts.take(entries@.len() as int) =~= parts);
    }
}

#[verifier::spinoff_prover]
#[verifier::rlimit(60)]
fn ir_tool_entries(out: &mut String, entries: &Vec<(String, ToolSpec)>)
    ensures
        final(out)@ == old(out)@ + comma_list(tool_parts(entries@)),
{
    let ghost head = out@;
    let ghost parts = tool_parts(entries@);
    let mut i: usize = 0;
    proof {
        assert(comma_list(parts.take(0)) =~= Seq::<char>::empty());
        assert(out@ =~= head + comma_list(parts.take(0)));
    }
    while i < entries.len()
        invariant
            i <= entries@.len(),
            head == old(out)@,
            parts == tool_parts(entries@),
            out@ == head + comma_list(parts.take(i as int)),
        decreases entries@.len() - i,
    {
        let ghost before = out@;
        if i > 0 {
            push_char(out, ',');
        }
        let ghost mid = out@;
        push_json_string(out, entries[i].0.as_str());
        push_char(out, ':');
        ir_tool(out, &entries[i].1);
        proof {
            assert(parts[i as int] == json_quoted(entries@[i as int].0@) + seq![':'] + tool_text(entries@[i as int].1));
            assert(out@ =~= mid + parts[i as int]);
            assert(mid == if i > 0 { before + ","@ } else { before }) by {
                reveal_strlit(",");
                if i > 0 {
                    assert(mid =~= before + ","@);
                }
            }
            lemma_comma_step(head, parts, i as int, before, mid, out@);
        }
        i = i + 1;
    }
    proof {
        assert(parts.take(entries@.len() as int) =~= parts);
    }
}

#[verifier::spinoff_prover]
#[verifier::rlimit(60)]
fn ir_validator_entries(out: &mut String, entries: &Vec<(String, ValidatorSpec)>)
    ensures
        final(out)@ == old(out)@ + comma_list(validator_parts(entries@)),
{
    let ghost head = out@;
    let ghost parts = validator_parts(entries@);
    let mut i: usize = 0;
    proof {
        assert(comma_list(parts.take(0)) =~= Seq::<char>::empty());
        assert(out@ =~= head + comma_list(parts.take(0)));
    }
    while i < entries.len()
        invariant
            i <= entries@.len(),
            head == old(out)@,
            parts == validator_parts(entries@),
            out@ == head + comma_list(parts.take(i as int)),
        decreases entries@.len() - i,
    {
        let ghost before = out@;
        if i > 0 {
            push_char(out, ',');
        }
        let ghost mid = out@;
        push_json_string(out, entries[i].0.as_str());
        push_char(out, ':');
        ir_validator(out, &entries[i].1);
        proof {
            assert(parts[i as int] == json_quoted(entries@[i as int].0@) + seq![':'] + validator_text(entries@[i as int].1));
            assert(out@ =~= mid + parts[i as int]);
            assert(mid == if i > 0 { before + ","@ } else { before }) by {
                reveal_strlit(",");
                if i > 0 {
                    assert(mid =~= before + ","@);
                }
            }
            lemma_comma_step(head, parts, i as int, before, mid, out@);
        }
        i = i + 1;
    }
    proof {
        assert(parts.take(entries@.len() as int) =~= parts);
    }
}

#[verifier::spinoff_prover]
#[verifier::rlimit(60)]
fn ir_policy_entries(out: &mut String, entries: &Vec<(String, PolicySpec)>)
    ensures
        final(out)@ == old(out)@ + comma_list(policy_parts(entries@)),
{
    let ghost head = out@;
    let ghost parts = policy_parts(entries@);
    let mut i: usize = 0;
    proof {
        assert(comma_list(parts.take(0)) =~= Seq::<char>::empty());
        assert(out@ =~= head + comma_list(parts.take(0)));
    }
    while i < entries.len()
        invariant
            i <= entries@.len(),
            head == old(out)@,
            parts == policy_parts(entries@),
            out@ == head + comma_list(parts.take(i as int)),
        decreases entries@.len() - i,
    {
        let ghost before = out@;
        if i > 0 {
            push_char(out, ',');
        }
        let ghost mid = out@;
        push_json_string(out, entries[i].0.as_str());
        push_char(out, ':');
        ir_policy(out, &entries[i].1);
        proof {
            assert(parts[i as int] == json_quoted(entries@[i as int].0@) + seq![':'] + policy_text(entries@[i as int].1));
            assert(out@ =~= mid + parts[i as int]);
            assert(mid == if i > 0 { before + ","@ } else { before }) by {
                reveal_strlit(",");
                if i > 0 {
                    assert(mid =~= before + ","@);
                }
            }
            lemma_comma_step(head, parts, i as int, before, mid, out@);
        }
        i = i + 1;
    }
    proof {
        assert(parts.take(entries@.len() as int) =~= parts);
    }
}

#[verifier::spinoff_prover]
fn ir_catalog(out: &mut String, catalog: &Catalog)
    ensures
        final(out)@ == old(out)@ + catalog_text(*catalog),
{
    let ghost o = out@;
    push_str(out, "{\"aliases\":{");
    let ghost s1 = out@;
    ir_alias_entries(out, &catalog.aliases);
    let ghost s2 = out@;
    push_str(out, "},\"records\":{");
    let ghost s3 = out@;
    ir_record_entries(out, &catalog.records);
    let ghost s4 = out@;
    push_str(out, "},\"prompts\":{");
    let ghost s5 = out@;
    ir_prompt_entries(out, &catalog.prompts);
    let ghost s6 = out@;
    push_str(out, "},\"tools\":{");
    let ghost s7 = out@;
    ir_tool_entries(out, &catalog.tools);
    let ghost s8 = out@;
    push_str(out, "},\"validators\":{");
    let ghost s9 = out@;
    ir_validator_entries(out, &catalog.validators);
    let ghost s10 = out@;
    push_str(out, "},\"policies\":{");
    let ghost s11 = out@;
    ir_policy_entries(out, &catalog.policies);
    let ghost s12 = out@;
    push_str(out, "}}");
    proof {
        let p1 = "{\"aliases\":{"@;
        let p2 = comma_list(alias_parts(catalog.aliases@));
        let p3 = "},\"records\":{"@;
        let p4 = comma_list(record_parts(catalog.records@));
        let p5 = "},\"prompts\":{"@;
        let p6 = comma_list(prompt_parts(catalog.prompts@));
        let p7 = "},\"tools\":{"@;
        let p8 = comma_list(tool_parts(catalog.tools@));
        let p9 = "},\"validators\":{"@;
        let p10 = comma_list(validator_parts(catalog.validators@));
        let p11 = "},\"policies\":{"@;
        let p12 = comma_list(policy_parts(catalog.policies@));
        let p13 = "}}"@;
        vstd::seq_lib::lemma_concat_associative(o, p1, p2);
        vstd::seq_lib::lemma_concat_associative(o, p1 + p2, p3);
        vstd::seq_lib::lemma_concat_associative(o, p1 + p2 + p3, p4);
        vstd::seq_lib::lemma_concat_associative(o, p1 + p2 + p3 + p4, p5);
        vstd::seq_lib::lemma_concat_associative(o, p1 + p2 + p3 + p4 + p5, p6);
        vstd::seq_lib::lemma_concat_associative(o, p1 + p2 + p3 + p4 + p5 + p6, p7);
        vstd::seq_lib::lemma_concat_associative(o, p1 + p2 + p3 + p4 + p5 + p6 + p7, p8);
        vstd::seq_lib::lemma_concat_associative(o, p1 + p2 + p3 + p4 + p5 + p6 + p7 + p8, p9);
        vstd::seq_lib::lemma_concat_associative(o, p1 + p2 + p3 + p4 + p5 + p6 + p7 + p8 + p9, p10);
        vstd::seq_lib::lemma_concat_associative(o, p1 + p2 + p3 + p4 + p5 + p6 + p7 + p8 + p9 + p10, p11);
        vstd::seq_lib::lemma_concat_associative(o, p1 + p2 + p3 + p4 + p5 + p6 + p7 + p8 + p9 + p10 + p11, p12);
        vstd::seq_lib::lemma_concat_associative(
            o,
            p1 + p2 + p3 + p4 + p5 + p6 + p7 + p8 + p9 + p10 + p11 + p12,
            p13,
        );
        reveal(catalog_text);
        assert(catalog_text(*catalog) == p1 + p2 + p3 + p4 + p5 + p6 + p7 + p8 + p9 + p10 + p11 + p12 + p13);
    }
}

/// The member that closes a program's persisted content: its catalog.
pub open spec fn catalog_member_text(catalog: Catalog) -> Seq<char> {
    "},\"catalog\":"@ + catalog_text(catalog) + seq!['}']
}

/// Whether `text` ends with `suffix`.
pub open spec fn ends_with(text: Seq<char>, suffix: Seq<char>) -> bool {
    text.len() >= suffix.len() && text.subrange(text.len() - suffix.len(), text.len() as int) == suffix
}

/// The content of a program covers its catalog: two contents that are the
/// same text close with the same catalog text, whenever the two catalog
/// texts are equally long. So changing a catalog's text without changing
/// its length changes the content that the program hash is taken of.
pub proof fn law_content_binds_catalog(first: Seq<char>, second: Seq<char>, c1: Catalog, c2: Catalog)
    requires
        ends_with(first, catalog_member_text(c1)),
        ends_with(second, catalog_member_text(c2)),
        catalog_text(c1).len() == catalog_text(c2).len(),
        catalog_text(c1) != catalog_text(c2),
    ensures
        first != second,
{
    let m1 = catalog_member_text(c1);
    let m2 = catalog_member_text(c2);
    if first == second {
        assert(m1.len() == m2.len());
        assert(m1 == m2);
        let k = "},\"catalog\":"@.len();
        assert(m1.subrange(k as int, (k + catalog_text(c1).len()) as int) =~= catalog_text(c1));
        assert(m2.subrange(k as int, (k + catalog_text(c2).len()) as int) =~= catalog_text(c2));
    }
}

/// The persisted JSON of a program with its `program_hash` left empty: the
/// content that the program hash covers. It closes with the program's
/// catalog.
pub fn program_content_json(program: &Program) -> (json: String)
    ensures
        ends_with(json@, catalog_member_text(program.catalog)),
{
    let mut out = String::new();
    push_str(&mut out, "{\"schema_version\":");
    push_decimal(&mut out, program.schema_version as u64);
    string_member(&mut out, false, "compiler_version", program.compiler_version.as_str());
    string_member(&mut out, false, "module_name", program.module_name.as_str());
    string_member(&mut out, false, "source_hash", program.source_hash.as_str());
    push_str(&mut out, ",\"program_hash\":\"\",\"routines\":{");
    let mut i: usize = 0;
    while i < program.routines.len()
        decreases program.routines@.len() - i,
    {
        if i > 0 {
            push_char(&mut out, ',');
        }
        push_json_string(&mut out, program.routines[i].0.as_str());
        push_char(&mut out, ':');
        ir_routine(&mut out, &program.routines[i].1);
        i = i + 1;
    }
    push_str(&mut out, "},\"agents\":{");
    let mut a: usize = 0;
    while a < program.agents.len()
        decreases program.agents@.len() - a,
    {
        if a > 0 {
            push_char(&mut out, ',');
        }
        push_json_string(&mut out, program.agents[a].0.as_str());
        push_char(&mut out, ':');
        ir_agent(&mut out, &program.agents[a].1);
        a = a + 1;
    }
    let ghost head = out@;
    push_str(&mut out, "},\"catalog\":");
    ir_catalog(&mut out, &program.catalog);
    push_char(&mut out, '}');
    proof {
        let m = catalog_member_text(program.catalog);
        assert(out@ =~= head + m);
        assert(out@.subrange(out@.len() - m.len(), out@.len() as int) =~= m);
    }
    out
}

} // verus!
