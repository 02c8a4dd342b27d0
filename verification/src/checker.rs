use vstd::prelude::*;

use crate::ast::{
    AgentDeclaration, Block, CapabilityExpression, Declaration, DeclarationKind, Expression,
    ExpressionKind, FunctionDeclaration, Module, Parameter, PolicyDeclaration, PolicyDecision,
    Sensitivity, StatementKind, ToolDeclaration, ToolMode, TypeDefinition, TypeReference, dotted,
    string_views,
};
use crate::diagnostic::Diagnostic;
use crate::expression::{
    CheckContext, Environment, check_arguments, check_block, check_expression, concat3,
    environment_from_parameters, expect_type, extends, report, reported, block_literal_operands_checked,
    has_report, lemma_block_literal_operands_reported,
};
use crate::model::{
    Namespace, first_declaring, without_state_suffix, WALK_DEPTH, agent_declaration, capability_declaration, contains_text, ends_with,
    enum_declaration, is_deterministically_serializable, model_contains_secret, resolve_type,
    tool_declaration, trim_state_suffix, type_declaration,
};
use crate::parser::parse;
use crate::registry::{KnownDiagnosticCode, known_code_text};
use crate::source::SourceFile;
use crate::span::{Span, fits_in_memory, utf8_of};
use crate::text::{bytes_less, lemma_bytes_less_transitive, push_str, str_equal, str_less};
use crate::types::Type;

verus! {

/// The fixed budget dimensions of ASTER 0.1.
pub open spec fn is_budget_dimension(name: Seq<char>) -> bool {
    name == "model_calls"@ || name == "model_tokens"@ || name == "external_reads"@ || name
        == "external_writes"@ || name == "approvals"@ || name == "money_microunits"@
}

fn budget_dimension(name: &str) -> (known: bool)
    ensures
        known == is_budget_dimension(name@),
{
    str_equal(name, "model_calls") || str_equal(name, "model_tokens") || str_equal(
        name,
        "external_reads",
    ) || str_equal(name, "external_writes") || str_equal(name, "approvals") || str_equal(
        name,
        "money_microunits",
    )
}

/// A module that passed ASTER's deterministic static checks.
#[derive(Debug)]
pub struct CheckedProgram {
    module: Module,
}

/// Names of the agents among `declarations`, in order.
pub open spec fn agent_names_of(declarations: Seq<crate::ast::Declaration>) -> Seq<Seq<char>>
    decreases declarations.len(),
{
    if declarations.len() == 0 {
        Seq::empty()
    } else {
        let earlier = agent_names_of(declarations.drop_last());
        match declarations.last().kind {
            DeclarationKind::Agent(agent) => earlier.push(agent.name@),
            _ => earlier,
        }
    }
}

impl CheckedProgram {
    /// The module that was checked.
    pub closed spec fn checked_module(&self) -> Module {
        self.module
    }

    /// Returns the checked module's dotted identity.
    pub fn module_name(&self) -> (name: String)
        ensures
            name@ == dotted(string_views(self.checked_module().name.segments@)),
    {
        self.module.name.as_string()
    }

    /// Returns agent names in deterministic source order.
    pub fn agent_names(&self) -> (names: Vec<String>)
        ensures
            crate::ast::string_views(names@) == agent_names_of(self.checked_module().declarations@),
    {
        let mut names: Vec<String> = Vec::new();
        let mut i: usize = 0;
        proof {
            assert(crate::ast::string_views(names@) =~= agent_names_of(self.module.declarations@.take(0)));
        }
        while i < self.module.declarations.len()
            invariant
                i <= self.module.declarations@.len(),
                crate::ast::string_views(names@) == agent_names_of(
                    self.module.declarations@.take(i as int),
                ),
            decreases self.module.declarations@.len() - i,
        {
            proof {
                let d = self.module.declarations@;
                assert(d.take(i + 1).drop_last() =~= d.take(i as int));
                assert(d.take(i + 1).last() == d[i as int]);
            }
            let ghost before = names@;
            if let DeclarationKind::Agent(agent) = &self.module.declarations[i].kind {
                names.push(agent.name.clone());
                proof {
                    assert(crate::ast::string_views(names@) =~= crate::ast::string_views(before).push(
                        agent.name@,
                    ));
                }
            }
            i = i + 1;
        }
        proof {
            let d = self.module.declarations@;
            assert(d.take(d.len() as int) =~= d);
        }
        names
    }

    /// Borrows the checked syntax tree.
    pub fn module(&self) -> (module: &Module)
        ensures
            *module == self.checked_module(),
    {
        &self.module
    }
}

/// `a` is reported before `b`: an earlier start, or the same start and a
/// code that sorts first.
pub open spec fn diagnostic_before(a: Diagnostic, b: Diagnostic) -> bool {
    a.primary_span.start < b.primary_span.start || (a.primary_span.start == b.primary_span.start
        && bytes_less(utf8_of(a.code@), utf8_of(b.code@)))
}

/// Diagnostics ordered by start offset, then by code.
pub open spec fn sorted_by_start_and_code(ds: Seq<Diagnostic>) -> bool {
    forall|i: int, j: int|
        0 <= i < j < ds.len() ==> !diagnostic_before(#[trigger] ds[j], #[trigger] ds[i])
}

proof fn lemma_before_transitive(a: Diagnostic, b: Diagnostic, c: Diagnostic)
    requires
        diagnostic_before(a, b),
        diagnostic_before(b, c),
    ensures
        diagnostic_before(a, c),
{
    if a.primary_span.start == b.primary_span.start && b.primary_span.start
        == c.primary_span.start {
        lemma_bytes_less_transitive(utf8_of(a.code@), utf8_of(b.code@), utf8_of(c.code@));
    }
}

fn before(a: &Diagnostic, b: &Diagnostic) -> (earlier: bool)
    ensures
        earlier == diagnostic_before(*a, *b),
{
    if a.primary_span.start < b.primary_span.start {
        return true;
    }
    if a.primary_span.start > b.primary_span.start {
        return false;
    }
    str_less(a.code.as_str(), b.code.as_str())
}

/// Orders diagnostics by start offset and then code, keeping the order of
/// equal keys.
pub fn sort_diagnostics(diagnostics: Vec<Diagnostic>) -> (sorted: Vec<Diagnostic>)
    ensures
        sorted@.to_multiset() == diagnostics@.to_multiset(),
        sorted_by_start_and_code(sorted@),
        sorted@.len() == diagnostics@.len(),
{
    broadcast use vstd::seq_lib::group_to_multiset_ensures;

    let mut remaining = diagnostics;
    let mut sorted: Vec<Diagnostic> = Vec::new();
    while remaining.len() > 0
        invariant
            remaining@.to_multiset().add(sorted@.to_multiset()) == diagnostics@.to_multiset(),
            sorted_by_start_and_code(sorted@),
            forall|i: int, j: int|
                0 <= i < sorted@.len() && 0 <= j < remaining@.len() ==> !diagnostic_before(
                    #[trigger] remaining@[j],
                    #[trigger] sorted@[i],
                ),
            sorted@.len() + remaining@.len() == diagnostics@.len(),
        decreases remaining@.len(),
    {
        let mut best: usize = 0;
        let mut k: usize = 1;
        proof {
            crate::text::lemma_bytes_less_irreflexive(utf8_of(remaining@[0].code@));
        }
        while k < remaining.len()
            invariant
                0 < remaining@.len(),
                best < k <= remaining@.len(),
                forall|j: int|
                    0 <= j < k ==> !diagnostic_before(
                        #[trigger] remaining@[j],
                        remaining@[best as int],
                    ),
            decreases remaining@.len() - k,
        {
            if before(&remaining[k], &remaining[best]) {
                proof {
                    assert forall|j: int| 0 <= j < k implies !diagnostic_before(
                        #[trigger] remaining@[j],
                        remaining@[k as int],
                    ) by {
                        if diagnostic_before(remaining@[j], remaining@[k as int]) {
                            lemma_before_transitive(
                                remaining@[j],
                                remaining@[k as int],
                                remaining@[best as int],
                            );
                        }
                    }
                    crate::text::lemma_bytes_less_irreflexive(utf8_of(remaining@[k as int].code@));
                }
                best = k;
            }
            k = k + 1;
        }
        let ghost before_remaining = remaining@;
        let ghost before_sorted = sorted@;
        let chosen = remaining.remove(best);
        proof {
            assert(before_remaining.remove(best as int) == remaining@);
            assert(chosen == before_remaining[best as int]);
        }
        sorted.push(chosen);
        proof {
            assert(sorted@ == before_sorted.push(chosen));
            before_remaining.to_multiset_ensures();
            before_sorted.to_multiset_ensures();
            assert(before_remaining.remove(best as int).to_multiset()
                == before_remaining.to_multiset().remove(before_remaining[best as int]));
            assert(before_remaining.to_multiset().count(chosen) > 0) by {
                assert(before_remaining.contains(chosen));
            }
            assert(remaining@.to_multiset().add(sorted@.to_multiset()) =~= diagnostics@.to_multiset());
            assert forall|i: int, j: int|
                0 <= i < sorted@.len() && 0 <= j < remaining@.len() implies !diagnostic_before(
                #[trigger] remaining@[j],
                #[trigger] sorted@[i],
            ) by {
                if i < sorted@.len() - 1 {
                    assert(before_sorted[i] == sorted@[i]);
                    if j < best {
                        assert(remaining@[j] == before_remaining[j]);
                    } else {
                        assert(remaining@[j] == before_remaining[j + 1]);
                    }
                } else {
                    if j < best {
                        assert(remaining@[j] == before_remaining[j]);
                    } else {
                        assert(remaining@[j] == before_remaining[j + 1]);
                    }
                }
            }
            assert forall|i: int, j: int| 0 <= i < j < sorted@.len() implies !diagnostic_before(
                #[trigger] sorted@[j],
                #[trigger] sorted@[i],
            ) by {
                if j < sorted@.len() - 1 {
                    assert(before_sorted[i] == sorted@[i]);
                    assert(before_sorted[j] == sorted@[j]);
                } else {
                    assert(before_sorted[i] == sorted@[i]);
                    assert(before_remaining[best as int] == sorted@[j]);
                }
            }
        }
    }
    sorted
}

/// The identity under which duplicate declarations are detected: types and
/// enums share one namespace, functions and flows another.
pub open spec fn declaration_identity(kind: DeclarationKind) -> Seq<char> {
    match kind {
        DeclarationKind::Type(v) => "type: "@ + v.name@,
        DeclarationKind::Enum(v) => "type: "@ + v.name@,
        DeclarationKind::Capability(v) => "capability: "@ + v.name@,
        DeclarationKind::Function(v) => "callable: "@ + v.name@,
        DeclarationKind::Flow(v) => "callable: "@ + v.name@,
        DeclarationKind::Prompt(v) => "prompt: "@ + v.name@,
        DeclarationKind::Validator(v) => "validator: "@ + v.name@,
        DeclarationKind::Tool(v) => "tool: "@ + dotted(string_views(v.path.segments@)),
        DeclarationKind::Policy(v) => "policy: "@ + v.name@,
        DeclarationKind::Agent(v) => "agent: "@ + v.name@,
    }
}

fn identity(kind: &DeclarationKind) -> (text: String)
    ensures
        text@ == declaration_identity(*kind),
{
    let mut text = String::new();
    match kind {
        DeclarationKind::Type(v) => {
            push_str(&mut text, "type: ");
            push_str(&mut text, v.name.as_str());
        },
        DeclarationKind::Enum(v) => {
            push_str(&mut text, "type: ");
            push_str(&mut text, v.name.as_str());
        },
        DeclarationKind::Capability(v) => {
            push_str(&mut text, "capability: ");
            push_str(&mut text, v.name.as_str());
        },
        DeclarationKind::Function(v) => {
            push_str(&mut text, "callable: ");
            push_str(&mut text, v.name.as_str());
        },
        DeclarationKind::Flow(v) => {
            push_str(&mut text, "callable: ");
            push_str(&mut text, v.name.as_str());
        },
        DeclarationKind::Prompt(v) => {
            push_str(&mut text, "prompt: ");
            push_str(&mut text, v.name.as_str());
        },
        DeclarationKind::Validator(v) => {
            push_str(&mut text, "validator: ");
            push_str(&mut text, v.name.as_str());
        },
        DeclarationKind::Tool(v) => {
            push_str(&mut text, "tool: ");
            let path = v.path.as_string();
            push_str(&mut text, path.as_str());
        },
        DeclarationKind::Policy(v) => {
            push_str(&mut text, "policy: ");
            push_str(&mut text, v.name.as_str());
        },
        DeclarationKind::Agent(v) => {
            push_str(&mut text, "agent: ");
            push_str(&mut text, v.name.as_str());
        },
    }
    proof {
        assert(text@ =~= declaration_identity(*kind));
    }
    text
}

/// The names of ASTER's built-in types, which declarations cannot shadow.
pub open spec fn is_builtin_type_name(name: Seq<char>) -> bool {
    name == "Unit"@ || name == "Bool"@ || name == "Int"@ || name == "Text"@ || name == "Instant"@
        || name == "Duration"@ || name == "ProvenanceRef"@ || name == "Error"@ || name
        == "Option"@ || name == "Result"@ || name == "List"@ || name == "Incoming"@ || name
        == "Untrusted"@ || name == "Candidate"@ || name == "Checked"@ || name == "Observation"@
        || name == "Secret"@ || name == "Intent"@ || name == "Proposal"@ || name == "Permit"@
        || name == "Receipt"@ || name == "Reconciled"@
}

fn builtin_type_name(name: &str) -> (builtin: bool)
    ensures
        builtin == is_builtin_type_name(name@),
{
    str_equal(name, "Unit") || str_equal(name, "Bool") || str_equal(name, "Int") || str_equal(
        name,
        "Text",
    ) || str_equal(name, "Instant") || str_equal(name, "Duration") || str_equal(
        name,
        "ProvenanceRef",
    ) || str_equal(name, "Error") || str_equal(name, "Option") || str_equal(name, "Result")
        || str_equal(name, "List") || str_equal(name, "Incoming") || str_equal(name, "Untrusted")
        || str_equal(name, "Candidate") || str_equal(name, "Checked") || str_equal(
        name,
        "Observation",
    ) || str_equal(name, "Secret") || str_equal(name, "Intent") || str_equal(name, "Proposal")
        || str_equal(name, "Permit") || str_equal(name, "Receipt") || str_equal(name, "Reconciled")
}

/// Some later diagnostic of `out` has `code` and points at `span`.
pub open spec fn reports_at(out: Seq<Diagnostic>, code: KnownDiagnosticCode, span: Span) -> bool {
    exists|k: int| 0 <= k < out.len() && (#[trigger] out[k]).code@ == known_code_text(code)
        && out[k].primary_span == span
}

/// Declaration `j` repeats the identity of an earlier declaration.
pub open spec fn repeats_identity(decls: Seq<Declaration>, j: int) -> bool {
    exists|i: int| 0 <= i < j && declaration_identity(decls[i].kind) == declaration_identity(
        #[trigger] decls[j].kind,
    )
}

fn check_duplicate_declarations(module: &Module, out: &mut Vec<Diagnostic>)
    ensures
        extends(old(out)@, final(out)@),
        forall|j: int|
            0 <= j < module.declarations@.len() && repeats_identity(module.declarations@, j)
                ==> reports_at(
                final(out)@,
                KnownDiagnosticCode::DuplicateDeclaration,
                #[trigger] module.declarations@[j].span,
            ),
{
    let decls = &module.declarations;
    let mut seen: Vec<String> = Vec::new();
    let mut j: usize = 0;
    while j < decls.len()
        invariant
            j <= decls@.len(),
            extends(old(out)@, out@),
            forall|i: int|
                0 <= i < j ==> exists|k: int|
                    0 <= k < seen@.len() && seen@[k]@ == declaration_identity(
                        (#[trigger] decls@[i]).kind,
                    ),
            forall|q: int|
                0 <= q < j && repeats_identity(decls@, q) ==> reports_at(
                    out@,
                    KnownDiagnosticCode::DuplicateDeclaration,
                    #[trigger] decls@[q].span,
                ),
        decreases decls@.len() - j,
    {
        let ghost start = out@;
        let declaration = &decls[j];
        let name = identity(&declaration.kind);
        let shadows_builtin = match &declaration.kind {
            DeclarationKind::Type(value) => builtin_type_name(value.name.as_str()),
            DeclarationKind::Enum(value) => builtin_type_name(value.name.as_str()),
            _ => false,
        };
        if shadows_builtin {
            let message = concat3("built-in type cannot be shadowed by `", name.as_str(), "`");
            report(
                out,
                KnownDiagnosticCode::DuplicateDeclaration,
                message.as_str(),
                &declaration.span,
                "rename the user-defined type",
            );
        }
        let ghost mid = out@;
        let ghost old_seen = seen@;
        if contains_text(&seen, name.as_str()) {
            let message = concat3("duplicate declaration `", name.as_str(), "`");
            report(
                out,
                KnownDiagnosticCode::DuplicateDeclaration,
                message.as_str(),
                &declaration.span,
                "rename or remove the later declaration",
            );
            proof {
                let last = out@.len() - 1;
                assert(out@[last].primary_span == decls@[j as int].span);
                assert(reports_at(out@, KnownDiagnosticCode::DuplicateDeclaration, decls@[j as int].span));
            }
        } else {
            seen.push(name);
            proof {
                if repeats_identity(decls@, j as int) {
                    let i = choose|i: int| 0 <= i < j && declaration_identity(decls@[i].kind)
                        == declaration_identity(decls@[j as int].kind);
                    assert(decls@[i] == decls@[i]);
                    let k = choose|k: int| 0 <= k < old_seen.len() && old_seen[k]@ == declaration_identity(decls@[i].kind);
                    assert(old_seen[k]@ == declaration_identity(decls@[j as int].kind));
                    assert(false);
                }
            }
        }
        proof {
            assert forall|q: int|
                0 <= q < j + 1 && repeats_identity(decls@, q) implies reports_at(
                out@,
                KnownDiagnosticCode::DuplicateDeclaration,
                #[trigger] decls@[q].span,
            ) by {
                if q < j {
                    lemma_reports_kept(start, out@);
                }
            }
            assert forall|i: int| 0 <= i < j + 1 implies exists|k: int|
                0 <= k < seen@.len() && seen@[k]@ == declaration_identity(
                    (#[trigger] decls@[i]).kind,
                ) by {
                if i == j {
                    if !(exists|k: int| 0 <= k < seen@.len() && seen@[k]@ == declaration_identity(decls@[i].kind)) {
                        assert(seen@[seen@.len() - 1]@ == declaration_identity(decls@[i].kind));
                    }
                } else {
                    let k = choose|k: int| 0 <= k < old_seen.len() && old_seen[k]@ == declaration_identity(decls@[i].kind);
                    assert(seen@[k] == old_seen[k]);
                }
            }
        }
        j = j + 1;
    }
}

/// Positions among the first `n` names whose name occurred earlier.
pub open spec fn duplicate_positions(names: Seq<(String, Span)>, n: int) -> Seq<int>
    decreases n,
{
    if n <= 0 {
        Seq::empty()
    } else if exists|j: int| 0 <= j < n - 1 && #[trigger] names[j].0@ == names[n - 1].0@ {
        duplicate_positions(names, n - 1).push(n - 1)
    } else {
        duplicate_positions(names, n - 1)
    }
}

/// Whether the diagnostics after `old` report, in order, each name that
/// repeats an earlier one.
pub open spec fn reports_duplicates(
    old: Seq<Diagnostic>,
    new: Seq<Diagnostic>,
    names: Seq<(String, Span)>,
    n: int,
    identity: Seq<char>,
) -> bool {
    let positions = duplicate_positions(names, n);
    &&& extends(old, new)
    &&& new.len() == old.len() + positions.len()
    &&& forall|k: int|
        0 <= k < positions.len() ==> reported(
            #[trigger] new[old.len() + k],
            KnownDiagnosticCode::DuplicateDeclaration,
            "duplicate "@ + identity + " `"@ + names[positions[k]].0@ + "`"@,
            names[positions[k]].1,
            "keep one "@ + identity + " with this name"@,
        )
}

fn check_duplicate_names(
    out: &mut Vec<Diagnostic>,
    names: &Vec<(String, Span)>,
    identity: &str,
)
    ensures
        extends(old(out)@, final(out)@),
        reports_duplicates(old(out)@, final(out)@, names@, names@.len() as int, identity@),
{
    let mut seen: Vec<String> = Vec::new();
    let mut i: usize = 0;
    while i < names.len()
        invariant
            i <= names@.len(),
            extends(old(out)@, out@),
            reports_duplicates(old(out)@, out@, names@, i as int, identity@),
            forall|x: Seq<char>|
                crate::ast::string_views(seen@).contains(x) <==> exists|j: int|
                    0 <= j < i && #[trigger] names@[j].0@ == x,
        decreases names@.len() - i,
    {
        let name = &names[i].0;
        proof {
            crate::model::lemma_contains_text(seen@, name@);
        }
        let ghost before = out@;
        if contains_text(&seen, name.as_str()) {
            let mut message = String::new();
            push_str(&mut message, "duplicate ");
            push_str(&mut message, identity);
            push_str(&mut message, " `");
            push_str(&mut message, name.as_str());
            push_str(&mut message, "`");
            proof {
                assert(message@ =~= "duplicate "@ + identity@ + " `"@ + name@ + "`"@);
            }
            let help = concat3("keep one ", identity, " with this name");
            report(
                out,
                KnownDiagnosticCode::DuplicateDeclaration,
                message.as_str(),
                &names[i].1,
                help.as_str(),
            );
            proof {
                let j = choose|j: int| 0 <= j < i && #[trigger] names@[j].0@ == name@;
                assert(names@[j].0@ == names@[i as int].0@);
                assert(duplicate_positions(names@, i + 1) == duplicate_positions(names@, i as int).push(
                    i as int,
                ));
                let positions = duplicate_positions(names@, i + 1);
                assert forall|k: int| 0 <= k < positions.len() implies reported(
                    #[trigger] out@[old(out)@.len() + k],
                    KnownDiagnosticCode::DuplicateDeclaration,
                    "duplicate "@ + identity@ + " `"@ + names@[positions[k]].0@ + "`"@,
                    names@[positions[k]].1,
                    "keep one "@ + identity@ + " with this name"@,
                ) by {
                    if k < positions.len() - 1 {
                        assert(out@[old(out)@.len() + k] == before[old(out)@.len() + k]);
                    }
                }
            }
        } else {
            let ghost seen_before = seen@;
            seen.push(name.clone());
            proof {
                assert(!(exists|j: int| 0 <= j < i && #[trigger] names@[j].0@ == names@[i as int].0@));
                assert(duplicate_positions(names@, i + 1) == duplicate_positions(names@, i as int));
                assert(crate::ast::string_views(seen@) =~= crate::ast::string_views(seen_before).push(name@));
                assert(crate::ast::string_views(seen_before).len() == seen_before.len());
                assert forall|x: Seq<char>|
                    crate::ast::string_views(seen@).contains(x) <==> exists|j: int|
                        0 <= j < i + 1 && #[trigger] names@[j].0@ == x by {
                    if x == name@ {
                        assert(names@[i as int].0@ == x);
                        assert(crate::ast::string_views(seen@)[seen_before.len() as int] == x);
                    } else {
                        if crate::ast::string_views(seen@).contains(x) {
                            let q = choose|q: int| 0 <= q < crate::ast::string_views(seen@).len()
                                && crate::ast::string_views(seen@)[q] == x;
                            assert(crate::ast::string_views(seen@)[seen_before.len() as int] == name@);
                            assert(q < seen_before.len());
                            assert(crate::ast::string_views(seen_before)[q] == x);
                            assert(crate::ast::string_views(seen_before).contains(x));
                        }
                        if exists|j: int| 0 <= j < i + 1 && #[trigger] names@[j].0@ == x {
                            let j = choose|j: int| 0 <= j < i + 1 && #[trigger] names@[j].0@ == x;
                            assert(j < i);
                            assert(crate::ast::string_views(seen_before).contains(x));
                            let q = choose|q: int| 0 <= q < crate::ast::string_views(seen_before).len()
                                && crate::ast::string_views(seen_before)[q] == x;
                            assert(crate::ast::string_views(seen@)[q] == x);
                        }
                    }
                }
            }
        }
        i = i + 1;
    }
}

fn parameter_names(parameters: &Vec<Parameter>) -> (names: Vec<(String, Span)>)
    ensures
        names@.len() == parameters@.len(),
        forall|i: int|
            0 <= i < parameters@.len() ==> (#[trigger] names@[i]).0@ == parameters@[i].name@
                && names@[i].1 == parameters@[i].span,
{
    let mut names: Vec<(String, Span)> = Vec::new();
    let mut i: usize = 0;
    while i < parameters.len()
        invariant
            i <= parameters@.len(),
            names@.len() == i,
            forall|k: int|
                0 <= k < i ==> (#[trigger] names@[k]).0@ == parameters@[k].name@ && names@[k].1
                    == parameters@[k].span,
        decreases parameters@.len() - i,
    {
        names.push((parameters[i].name.clone(), parameters[i].span.duplicate()));
        i = i + 1;
    }
    names
}

fn check_parameter_types(module: &Module, out: &mut Vec<Diagnostic>, parameters: &Vec<Parameter>)
    ensures
        extends(old(out)@, final(out)@),
        forall|i: int|
            0 <= i < parameters@.len() ==> reference_checked(final(out)@, *module, #[trigger] parameters@[i].ty),
{
    let names = parameter_names(parameters);
    check_duplicate_names(out, &names, "parameter");
    let mut i: usize = 0;
    while i < parameters.len()
        invariant
            i <= parameters@.len(),
            extends(old(out)@, out@),
            forall|k: int| 0 <= k < i ==> reference_checked(out@, *module, #[trigger] parameters@[k].ty),
        decreases parameters@.len() - i,
    {
        let ghost before = out@;
        check_type_reference(module, out, &parameters[i].ty);
        proof {
            lemma_reports_kept(before, out@);
        }
        i = i + 1;
    }
}

/// Whether the alias `current` reaches `target` through its target's names
/// and arguments, following declared aliases.
/// The aliased type of the first type declaration named `name`, if that
/// declaration is an alias.
pub open spec fn alias_target(module: Module, name: Seq<char>) -> Option<TypeReference> {
    match crate::model::first_declaring(module.declarations@, crate::model::Namespace::Type, name) {
        Some(i) => match module.declarations@[i].kind {
            DeclarationKind::Type(declaration) => match declaration.definition {
                TypeDefinition::Alias(reference) => Some(reference),
                _ => None,
            },
            _ => None,
        },
        None => None,
    }
}

/// Whether the written type `reference` names `target`, or one of its
/// arguments or the alias it names reaches `target`, within `depth` steps
/// and without re-entering a visited alias.
pub open spec fn reference_reaches(
    module: Module,
    reference: TypeReference,
    target: Seq<char>,
    visited: Seq<Seq<char>>,
    depth: nat,
) -> bool
    decreases depth, 0nat,
{
    let name = crate::ast::dotted(crate::ast::string_views(reference.path.segments@));
    if name == target {
        true
    } else if depth == 0 {
        false
    } else {
        arguments_reach(module, reference.arguments@, target, visited, (depth - 1) as nat) || (
        crate::model::first_declaring(module.declarations@, crate::model::Namespace::Type, name) is Some
            && alias_reaches_within(module, name, target, visited, (depth - 1) as nat))
    }
}

/// Whether one of the written types reaches `target`.
pub open spec fn arguments_reach(
    module: Module,
    references: Seq<TypeReference>,
    target: Seq<char>,
    visited: Seq<Seq<char>>,
    depth: nat,
) -> bool
    decreases depth, references.len() + 1,
{
    if references.len() == 0 {
        false
    } else {
        arguments_reach(module, references.drop_last(), target, visited, depth) || reference_reaches(
            module,
            references.last(),
            target,
            visited,
            depth,
        )
    }
}

/// Whether the alias named `current` reaches `target` through its aliased
/// type, within `depth` steps and without re-entering a visited alias.
pub open spec fn alias_reaches_within(
    module: Module,
    current: Seq<char>,
    target: Seq<char>,
    visited: Seq<Seq<char>>,
    depth: nat,
) -> bool
    decreases depth, 0nat,
{
    if depth == 0 || visited.contains(current) {
        false
    } else {
        match alias_target(module, current) {
            Some(reference) => reference_reaches(
                module,
                reference,
                target,
                visited.push(current),
                (depth - 1) as nat,
            ),
            None => false,
        }
    }
}

/// Removing the last pushed name restores the visited list.
proof fn lemma_pop_restores(before_pop: Seq<String>, after: Seq<String>, seen: Seq<Seq<char>>, name: Seq<char>)
    requires
        crate::ast::string_views(before_pop) == seen.push(name),
        after == before_pop.drop_last(),
    ensures
        crate::ast::string_views(after) == seen,
{
    assert(crate::ast::string_views(before_pop).len() == before_pop.len());
    assert(crate::ast::string_views(after).len() == after.len());
    assert(before_pop.len() == seen.len() + 1);
    assert forall|i: int| 0 <= i < seen.len() implies #[trigger] crate::ast::string_views(after)[i] == seen[i] by {
        assert(after[i] == before_pop[i]);
        assert(crate::ast::string_views(before_pop)[i] == seen.push(name)[i]);
    }
    assert(crate::ast::string_views(after) =~= seen);
}

fn alias_reaches(
    module: &Module,
    current: &str,
    target: &str,
    visited: &mut Vec<String>,
    depth: u64,
) -> (reaches: bool)
    ensures
        crate::ast::string_views(final(visited)@) == crate::ast::string_views(old(visited)@),
        reaches == alias_reaches_within(
            *module,
            current@,
            target@,
            crate::ast::string_views(old(visited)@),
            depth as nat,
        ),
    decreases depth, 1nat,
{
    let ghost seen = crate::ast::string_views(visited@);
    proof {
        crate::model::lemma_contains_text(visited@, current@);
    }
    if depth == 0 || contains_text(visited, current) {
        return false;
    }
    visited.push(String::from_str(current));
    proof {
        assert(crate::ast::string_views(visited@) =~= seen.push(current@));
    }
    let result = match type_declaration(module, current) {
        Some(declaration) => match &declaration.definition {
            TypeDefinition::Alias(reference) => type_reference_reaches(
                module,
                reference,
                target,
                visited,
                depth - 1,
            ),
            TypeDefinition::Record(_) => false,
        },
        None => false,
    };
    let ghost before_pop = visited@;
    if visited.len() > 0 {
        visited.pop();
    }
    proof {
        lemma_pop_restores(before_pop, visited@, seen, current@);
    }
    result
}

fn type_reference_reaches(
    module: &Module,
    reference: &TypeReference,
    target: &str,
    visited: &mut Vec<String>,
    depth: u64,
) -> (reaches: bool)
    ensures
        crate::ast::string_views(final(visited)@) == crate::ast::string_views(old(visited)@),
        reaches == reference_reaches(
            *module,
            *reference,
            target@,
            crate::ast::string_views(old(visited)@),
            depth as nat,
        ),
    decreases depth, 0nat,
{
    let ghost seen = crate::ast::string_views(visited@);
    let ghost d: nat = ((depth as nat) - 1) as nat;
    let name = reference.path.as_string();
    if str_equal(name.as_str(), target) {
        return true;
    }
    if depth == 0 {
        return false;
    }
    let ghost args = reference.arguments@;
    let mut i: usize = 0;
    proof {
        assert(args.take(0) =~= Seq::<TypeReference>::empty());
    }
    while i < reference.arguments.len()
        invariant
            depth > 0,
            d == ((depth as nat) - 1) as nat,
            i <= args.len(),
            args == reference.arguments@,
            crate::ast::string_views(visited@) == seen,
            seen == crate::ast::string_views(old(visited)@),
            crate::ast::dotted(crate::ast::string_views(reference.path.segments@)) != target@,
            !arguments_reach(*module, args.take(i as int), target@, seen, d),
        decreases reference.arguments@.len() - i,
    {
        proof {
            assert(args.take(i + 1).drop_last() =~= args.take(i as int));
            assert(args.take(i + 1).last() == args[i as int]);
        }
        if type_reference_reaches(module, &reference.arguments[i], target, visited, depth - 1) {
            proof {
                lemma_arguments_reach_prefix(*module, args, target@, seen, d, i + 1);
            }
            return true;
        }
        i = i + 1;
    }
    proof {
        assert(args.take(args.len() as int) =~= args);
    }
    type_declaration(module, name.as_str()).is_some() && alias_reaches(
        module,
        name.as_str(),
        target,
        visited,
        depth - 1,
    )
}

/// Reaching from a prefix of the arguments is reaching from the arguments.
proof fn lemma_arguments_reach_prefix(
    module: Module,
    references: Seq<TypeReference>,
    target: Seq<char>,
    visited: Seq<Seq<char>>,
    depth: nat,
    n: int,
)
    requires
        0 <= n <= references.len(),
        arguments_reach(module, references.take(n), target, visited, depth),
    ensures
        arguments_reach(module, references, target, visited, depth),
    decreases references.len() - n,
{
    if n < references.len() {
        assert(references.take(n + 1).drop_last() =~= references.take(n));
        lemma_arguments_reach_prefix(module, references, target, visited, depth, n + 1);
    } else {
        assert(references.take(n) =~= references);
    }
}


/// Arity of a built-in type constructor, if the name is one.
pub open spec fn builtin_arity(name: Seq<char>) -> Option<int> {
    if name == "Unit"@ || name == "Bool"@ || name == "Int"@ || name == "Text"@ || name == "Instant"@
        || name == "Duration"@ || name == "ProvenanceRef"@ || name == "Error"@ {
        Some(0)
    } else if name == "Option"@ || name == "List"@ || name == "Incoming"@ || name == "Untrusted"@
        || name == "Candidate"@ || name == "Checked"@ || name == "Observation"@ || name == "Secret"@
        || name == "Intent"@ || name == "Proposal"@ || name == "Permit"@ || name == "Receipt"@
        || name == "Reconciled"@ {
        Some(1)
    } else if name == "Result"@ {
        Some(2)
    } else {
        None
    }
}

/// Whether a name denotes a declared type without arguments: a type or enum
/// declaration, or the state of a declared agent.
pub open spec fn declared_simple_type(module: Module, name: Seq<char>) -> bool {
    ||| first_declaring(module.declarations@, Namespace::Type, name) is Some
    ||| first_declaring(module.declarations@, Namespace::Enum, name) is Some
    ||| (6 <= name.len() && name.subrange(name.len() - 6, name.len() as int) == ".State"@
        && first_declaring(module.declarations@, Namespace::Agent, without_state_suffix(name)) is Some)
}

/// What is wrong with a type reference at its outermost constructor, if
/// anything: an unknown name, or the wrong number of arguments.
pub open spec fn reference_fault(module: Module, reference: TypeReference) -> Option<KnownDiagnosticCode> {
    let name = crate::ast::dotted(crate::ast::string_views(reference.path.segments@));
    let count = reference.arguments@.len();
    match builtin_arity(name) {
        Some(arity) => if arity != count {
            Some(KnownDiagnosticCode::TypeMismatch)
        } else {
            None
        },
        None => if count == 0 && declared_simple_type(module, name) {
            None
        } else {
            Some(KnownDiagnosticCode::UnknownName)
        },
    }
}

/// A faulty reference is reported at its span.
pub open spec fn reference_checked(out: Seq<Diagnostic>, module: Module, reference: TypeReference) -> bool {
    reference_fault(module, reference) matches Some(code) ==> reports_at(out, code, reference.span)
}

fn check_type_reference(module: &Module, out: &mut Vec<Diagnostic>, reference: &TypeReference)
    ensures
        extends(old(out)@, final(out)@),
        reference_checked(final(out)@, *module, *reference),
    decreases reference,
{
    proof {
        reveal_strlit(".State");
    }
    let name = reference.path.as_string();
    let n = name.as_str();
    let count = reference.arguments.len();
    let expected: Option<usize> = if str_equal(n, "Unit") || str_equal(n, "Bool") || str_equal(
        n,
        "Int",
    ) || str_equal(n, "Text") || str_equal(n, "Instant") || str_equal(n, "Duration")
        || str_equal(n, "ProvenanceRef") || str_equal(n, "Error") {
        Some(0)
    } else if str_equal(n, "Option") || str_equal(n, "List") || str_equal(n, "Incoming")
        || str_equal(n, "Untrusted") || str_equal(n, "Candidate") || str_equal(n, "Checked")
        || str_equal(n, "Observation") || str_equal(n, "Secret") || str_equal(n, "Intent")
        || str_equal(n, "Proposal") || str_equal(n, "Permit") || str_equal(n, "Receipt")
        || str_equal(n, "Reconciled") {
        Some(1)
    } else if str_equal(n, "Result") {
        Some(2)
    } else if count == 0 && (type_declaration(module, n).is_some() || enum_declaration(
        module,
        n,
    ).is_some() || (ends_with(n, ".State") && agent_declaration(
        module,
        trim_state_suffix(n).as_str(),
    ).is_some())) {
        Some(0)
    } else {
        None
    };
    let expected = match expected {
        Some(arity) => arity,
        None => {
            let message = concat3("unknown type `", n, "`");
            report(
                out,
                KnownDiagnosticCode::UnknownName,
                message.as_str(),
                &reference.span,
                "declare the type or use a documented ASTER 0.1 type",
            );
            return;
        },
    };
    if count != expected {
        let mut message = String::new();
        push_str(&mut message, "type `");
        push_str(&mut message, n);
        push_str(&mut message, "` expects ");
        crate::text::push_decimal(&mut message, expected as u64);
        push_str(&mut message, " argument(s), found ");
        crate::text::push_decimal(&mut message, count as u64);
        report(
            out,
            KnownDiagnosticCode::TypeMismatch,
            message.as_str(),
            &reference.span,
            "use the declared type constructor arity",
        );
        return;
    }
    let governed = str_equal(n, "Proposal") || str_equal(n, "Permit") || str_equal(n, "Receipt")
        || str_equal(n, "Reconciled");
    if !governed && !str_equal(n, "Intent") {
        let mut i: usize = 0;
        while i < reference.arguments.len()
            invariant
                extends(old(out)@, out@),
            decreases reference.arguments@.len() - i,
        {
            check_type_reference(module, out, &reference.arguments[i]);
            i = i + 1;
        }
    } else if governed && count == 1 {
        let argument = &reference.arguments[0];
        let action = argument.path.as_string();
        let is_write = match tool_declaration(module, action.as_str()) {
            Some(tool) => tool.metadata.mode == Some(ToolMode::Write),
            None => false,
        };
        if !is_write {
            let message = concat3(
                "governance action `",
                action.as_str(),
                "` is not a declared write tool",
            );
            report(
                out,
                KnownDiagnosticCode::UnknownName,
                message.as_str(),
                &argument.span,
                "use the path of a declared write-mode tool",
            );
        }
    }
}

/// Every parameter type is checked.
pub open spec fn parameters_checked(out: Seq<Diagnostic>, module: Module, parameters: Seq<Parameter>) -> bool {
    forall|i: int| 0 <= i < parameters.len() ==> reference_checked(out, module, #[trigger] parameters[i].ty)
}

/// The type references a declaration writes are checked: each faulty one
/// is reported at its span, and an alias that reaches itself is reported as
/// cyclic at its target.
pub open spec fn declaration_types_checked(out: Seq<Diagnostic>, module: Module, kind: DeclarationKind) -> bool {
    match kind {
        DeclarationKind::Type(value) => match value.definition {
            TypeDefinition::Alias(ty) => {
                &&& reference_checked(out, module, ty)
                &&& (alias_reaches_within(module, value.name@, value.name@, Seq::empty(), WALK_DEPTH as nat)
                    ==> reports_at(out, KnownDiagnosticCode::TypeMismatch, ty.span))
            },
            TypeDefinition::Record(fields) => forall|i: int|
                0 <= i < fields@.len() ==> reference_checked(out, module, #[trigger] fields@[i].ty),
        },
        DeclarationKind::Enum(value) => forall|i: int|
            0 <= i < value.variants@.len() ==> ((#[trigger] value.variants@[i]).payload matches Some(p)
                ==> reference_checked(out, module, p)),
        DeclarationKind::Capability(value) => parameters_checked(out, module, value.parameters@),
        DeclarationKind::Function(value) => parameters_checked(out, module, value.parameters@)
            && reference_checked(out, module, value.return_type),
        DeclarationKind::Flow(value) => parameters_checked(out, module, value.parameters@)
            && reference_checked(out, module, value.return_type),
        DeclarationKind::Prompt(value) => parameters_checked(out, module, value.parameters@)
            && reference_checked(out, module, value.result_type),
        DeclarationKind::Validator(value) => parameters_checked(out, module, value.parameters@),
        DeclarationKind::Tool(value) => parameters_checked(out, module, value.parameters@)
            && reference_checked(out, module, value.return_type),
        DeclarationKind::Policy(value) => parameters_checked(out, module, value.parameters@),
        DeclarationKind::Agent(value) => {
            &&& parameters_checked(out, module, value.parameters@)
            &&& forall|i: int|
                0 <= i < value.state@.len() ==> reference_checked(out, module, #[trigger] value.state@[i].ty)
            &&& forall|i: int|
                0 <= i < value.handlers@.len() ==> parameters_checked(
                    out,
                    module,
                    (#[trigger] value.handlers@[i]).parameters@,
                ) && reference_checked(out, module, value.handlers@[i].return_type)
        },
    }
}

/// Reports once made stay made as diagnostics are added.
proof fn lemma_declaration_types_kept(a: Seq<Diagnostic>, b: Seq<Diagnostic>, module: Module, kind: DeclarationKind)
    requires
        extends(a, b),
        declaration_types_checked(a, module, kind),
    ensures
        declaration_types_checked(b, module, kind),
{
    lemma_reports_kept(a, b);
}

/// What one list reports of a declaration's type references, a list that
/// reports at least as much reports too.
pub proof fn lemma_declaration_types_reported(
    a: Seq<Diagnostic>,
    b: Seq<Diagnostic>,
    module: Module,
    kind: DeclarationKind,
)
    requires
        declaration_types_checked(a, module, kind),
        forall|code: KnownDiagnosticCode, span: Span|
            reports_at(a, code, span) ==> #[trigger] reports_at(b, code, span),
    ensures
        declaration_types_checked(b, module, kind),
{
}

/// No type reference a declaration writes is faulty and no alias of it
/// reaches itself: there is nothing to report of its types.
pub open spec fn declaration_types_sound(module: Module, kind: DeclarationKind) -> bool {
    declaration_types_checked(Seq::<Diagnostic>::empty(), module, kind)
}

fn check_type_well_formedness(module: &Module, out: &mut Vec<Diagnostic>)
    ensures
        extends(old(out)@, final(out)@),
        forall|d: int|
            0 <= d < module.declarations@.len() ==> declaration_types_checked(
                final(out)@,
                *module,
                #[trigger] module.declarations@[d].kind,
            ),
{
    let mut d: usize = 0;
    while d < module.declarations.len()
        invariant
            d <= module.declarations@.len(),
            extends(old(out)@, out@),
            forall|k: int|
                0 <= k < d ==> declaration_types_checked(out@, *module, #[trigger] module.declarations@[k].kind),
        decreases module.declarations@.len() - d,
    {
        let ghost before = out@;
        check_declaration_types(module, out, &module.declarations[d].kind);
        proof {
            assert forall|k: int| 0 <= k < d + 1 implies declaration_types_checked(
                out@,
                *module,
                #[trigger] module.declarations@[k].kind,
            ) by {
                if k < d {
                    lemma_declaration_types_kept(before, out@, *module, module.declarations@[k].kind);
                }
            }
        }
        d = d + 1;
    }
}

fn check_declaration_types(module: &Module, out: &mut Vec<Diagnostic>, kind: &DeclarationKind)
    ensures
        extends(old(out)@, final(out)@),
        declaration_types_checked(final(out)@, *module, *kind),
{
    match kind {
        DeclarationKind::Type(value) => match &value.definition {
            TypeDefinition::Alias(ty) => {
                check_type_reference(module, out, ty);
                let mut visited: Vec<String> = Vec::new();
                proof {
                    assert(crate::ast::string_views(visited@) =~= Seq::<Seq<char>>::empty());
                }
                if alias_reaches(
                    module,
                    value.name.as_str(),
                    value.name.as_str(),
                    &mut visited,
                    WALK_DEPTH,
                ) {
                    let ghost before = out@;
                    let message = concat3("cyclic type alias `", value.name.as_str(), "`");
                    report(
                        out,
                        KnownDiagnosticCode::TypeMismatch,
                        message.as_str(),
                        &ty.span,
                        "break the alias cycle with a concrete declared type",
                    );
                    proof {
                        lemma_reports_kept(before, out@);
                        assert(out@[out@.len() - 1].primary_span == ty.span);
                    }
                }
            },
            TypeDefinition::Record(fields) => {
                let mut names: Vec<(String, Span)> = Vec::new();
                let mut i: usize = 0;
                while i < fields.len()
                    decreases fields@.len() - i,
                {
                    names.push((fields[i].name.clone(), fields[i].span.duplicate()));
                    i = i + 1;
                }
                check_duplicate_names(out, &names, "record field");
                let mut i: usize = 0;
                while i < fields.len()
                    invariant
                        i <= fields@.len(),
                        extends(old(out)@, out@),
                        forall|k: int| 0 <= k < i ==> reference_checked(out@, *module, #[trigger] fields@[k].ty),
                    decreases fields@.len() - i,
                {
                    let ghost before = out@;
                    check_type_reference(module, out, &fields[i].ty);
                    proof {
                        lemma_reports_kept(before, out@);
                    }
                    i = i + 1;
                }
            },
        },
        DeclarationKind::Enum(value) => {
            let mut names: Vec<(String, Span)> = Vec::new();
            let mut i: usize = 0;
            while i < value.variants.len()
                decreases value.variants@.len() - i,
            {
                names.push((value.variants[i].name.clone(), value.variants[i].span.duplicate()));
                i = i + 1;
            }
            check_duplicate_names(out, &names, "enum variant");
            let mut i: usize = 0;
            while i < value.variants.len()
                invariant
                    i <= value.variants@.len(),
                    extends(old(out)@, out@),
                    forall|k: int|
                        0 <= k < i ==> ((#[trigger] value.variants@[k]).payload matches Some(p)
                            ==> reference_checked(out@, *module, p)),
                decreases value.variants@.len() - i,
            {
                let ghost before = out@;
                if let Some(payload) = &value.variants[i].payload {
                    check_type_reference(module, out, payload);
                }
                proof {
                    lemma_reports_kept(before, out@);
                }
                i = i + 1;
            }
        },
        DeclarationKind::Capability(value) => {
            check_parameter_types(module, out, &value.parameters);
        },
        DeclarationKind::Function(value) | DeclarationKind::Flow(value) => {
            check_parameter_types(module, out, &value.parameters);
            let ghost before = out@;
            check_type_reference(module, out, &value.return_type);
            proof {
                lemma_reports_kept(before, out@);
            }
        },
        DeclarationKind::Prompt(value) => {
            check_parameter_types(module, out, &value.parameters);
            let ghost before = out@;
            check_type_reference(module, out, &value.result_type);
            proof {
                lemma_reports_kept(before, out@);
            }
        },
        DeclarationKind::Validator(value) => {
            check_parameter_types(module, out, &value.parameters);
        },
        DeclarationKind::Tool(value) => {
            check_parameter_types(module, out, &value.parameters);
            let ghost before = out@;
            check_type_reference(module, out, &value.return_type);
            proof {
                lemma_reports_kept(before, out@);
            }
        },
        DeclarationKind::Policy(value) => {
            check_parameter_types(module, out, &value.parameters);
        },
        DeclarationKind::Agent(value) => {
            check_parameter_types(module, out, &value.parameters);
            let ghost after_parameters = out@;
            let mut names: Vec<(String, Span)> = Vec::new();
            let mut i: usize = 0;
            while i < value.state.len()
                decreases value.state@.len() - i,
            {
                names.push((value.state[i].name.clone(), value.state[i].span.duplicate()));
                i = i + 1;
            }
            check_duplicate_names(out, &names, "state field");
            let mut events: Vec<(String, Span)> = Vec::new();
            let mut i: usize = 0;
            while i < value.handlers.len()
                decreases value.handlers@.len() - i,
            {
                events.push((value.handlers[i].event.clone(), value.handlers[i].span.duplicate()));
                i = i + 1;
            }
            check_duplicate_names(out, &events, "event handler");
            let ghost after_names = out@;
            let mut i: usize = 0;
            while i < value.state.len()
                invariant
                    i <= value.state@.len(),
                    extends(after_names, out@),
                    forall|k: int| 0 <= k < i ==> reference_checked(out@, *module, #[trigger] value.state@[k].ty),
                decreases value.state@.len() - i,
            {
                let ghost before = out@;
                check_type_reference(module, out, &value.state[i].ty);
                proof {
                    lemma_reports_kept(before, out@);
                }
                i = i + 1;
            }
            let ghost after_state = out@;
            let mut i: usize = 0;
            while i < value.handlers.len()
                invariant
                    i <= value.handlers@.len(),
                    extends(after_state, out@),
                    forall|k: int|
                        0 <= k < i ==> parameters_checked(out@, *module, (#[trigger] value.handlers@[k]).parameters@)
                            && reference_checked(out@, *module, value.handlers@[k].return_type),
                decreases value.handlers@.len() - i,
            {
                let ghost before = out@;
                check_parameter_types(module, out, &value.handlers[i].parameters);
                let ghost middle = out@;
                check_type_reference(module, out, &value.handlers[i].return_type);
                proof {
                    lemma_reports_kept(before, middle);
                    lemma_reports_kept(middle, out@);
                    lemma_reports_kept(before, out@);
                }
                i = i + 1;
            }
            proof {
                lemma_reports_kept(after_parameters, out@);
                lemma_reports_kept(after_names, out@);
                lemma_reports_kept(after_state, out@);
            }
        },
    }
}

fn reject_secret(module: &Module, out: &mut Vec<Diagnostic>, reference: &TypeReference)
    ensures
        extends(old(out)@, final(out)@),
{
    let ty = resolve_type(module, reference);
    if model_contains_secret(module, &ty) {
        report(
            out,
            KnownDiagnosticCode::SecretInState,
            "Secret types are restricted to sensitivity-secret tool parameters",
            &reference.span,
            "move the Secret handle to a tool parameter and mark the tool secret",
        );
    }
}

fn reject_secret_parameters(module: &Module, out: &mut Vec<Diagnostic>, parameters: &Vec<Parameter>)
    ensures
        extends(old(out)@, final(out)@),
{
    let mut i: usize = 0;
    while i < parameters.len()
        invariant
            extends(old(out)@, out@),
        decreases parameters@.len() - i,
    {
        reject_secret(module, out, &parameters[i].ty);
        i = i + 1;
    }
}

fn check_secret_type_placement(module: &Module, out: &mut Vec<Diagnostic>)
    ensures
        extends(old(out)@, final(out)@),
{
    let mut d: usize = 0;
    while d < module.declarations.len()
        invariant
            extends(old(out)@, out@),
        decreases module.declarations@.len() - d,
    {
        match &module.declarations[d].kind {
            DeclarationKind::Type(value) => match &value.definition {
                TypeDefinition::Alias(ty) => reject_secret(module, out, ty),
                TypeDefinition::Record(fields) => {
                    let mut i: usize = 0;
                    while i < fields.len()
                        invariant
                            extends(old(out)@, out@),
                        decreases fields@.len() - i,
                    {
                        reject_secret(module, out, &fields[i].ty);
                        i = i + 1;
                    }
                },
            },
            DeclarationKind::Enum(value) => {
                let mut i: usize = 0;
                while i < value.variants.len()
                    invariant
                        extends(old(out)@, out@),
                    decreases value.variants@.len() - i,
                {
                    if let Some(payload) = &value.variants[i].payload {
                        reject_secret(module, out, payload);
                    }
                    i = i + 1;
                }
            },
            DeclarationKind::Capability(value) => {
                reject_secret_parameters(module, out, &value.parameters);
            },
            DeclarationKind::Function(value) | DeclarationKind::Flow(value) => {
                reject_secret_parameters(module, out, &value.parameters);
                reject_secret(module, out, &value.return_type);
            },
            DeclarationKind::Prompt(_) => {},
            DeclarationKind::Validator(value) => {
                reject_secret_parameters(module, out, &value.parameters);
            },
            DeclarationKind::Tool(value) => {
                if value.metadata.sensitivity != Some(Sensitivity::Secret) {
                    reject_secret_parameters(module, out, &value.parameters);
                }
                reject_secret(module, out, &value.return_type);
            },
            DeclarationKind::Policy(value) => {
                reject_secret_parameters(module, out, &value.parameters);
            },
            DeclarationKind::Agent(value) => {
                reject_secret_parameters(module, out, &value.parameters);
                let mut i: usize = 0;
                while i < value.handlers.len()
                    invariant
                        extends(old(out)@, out@),
                    decreases value.handlers@.len() - i,
                {
                    reject_secret_parameters(module, out, &value.handlers[i].parameters);
                    reject_secret(module, out, &value.handlers[i].return_type);
                    i = i + 1;
                }
            },
        }
        d = d + 1;
    }
}

fn pure_context(return_type: Type) -> (context: CheckContext) {
    CheckContext {
        pure: true,
        allowed_capabilities: Vec::new(),
        return_type,
        agent: None,
    }
}

/// Whether a capability request names a declared capability.
pub open spec fn capability_known(module: Module, capability: CapabilityExpression) -> bool {
    first_declaring(
        module.declarations@,
        Namespace::Capability,
        crate::ast::dotted(crate::ast::string_views(capability.path.segments@)),
    ) is Some
}

/// A request of an undeclared capability is reported at its path.
pub open spec fn capability_request_checked(
    out: Seq<Diagnostic>,
    module: Module,
    capability: CapabilityExpression,
) -> bool {
    !capability_known(module, capability) ==> reports_at(
        out,
        KnownDiagnosticCode::UnknownName,
        capability.path.span,
    )
}

/// The capability requests a declaration makes are checked: those of a
/// function's or flow's `uses`, an agent's `requires`, and a tool's metadata.
pub open spec fn capabilities_checked(out: Seq<Diagnostic>, module: Module, kind: DeclarationKind) -> bool {
    match kind {
        DeclarationKind::Function(function) => forall|i: int|
            0 <= i < function.uses@.len() ==> capability_request_checked(out, module, #[trigger] function.uses@[i]),
        DeclarationKind::Flow(function) => forall|i: int|
            0 <= i < function.uses@.len() ==> capability_request_checked(out, module, #[trigger] function.uses@[i]),
        DeclarationKind::Agent(agent) => forall|i: int|
            0 <= i < agent.requires@.len() ==> capability_request_checked(out, module, #[trigger] agent.requires@[i]),
        DeclarationKind::Tool(tool) => tool.metadata.capability matches Some(c) ==> capability_request_checked(
            out,
            module,
            c,
        ),
        _ => true,
    }
}

/// Every capability request a declaration makes names a declared capability.
pub open spec fn capabilities_sound(module: Module, kind: DeclarationKind) -> bool {
    capabilities_checked(Seq::<Diagnostic>::empty(), module, kind)
}

/// What one list reports of a declaration's capability requests, a list that
/// reports at least as much reports too.
pub proof fn lemma_capabilities_reported(
    a: Seq<Diagnostic>,
    b: Seq<Diagnostic>,
    module: Module,
    kind: DeclarationKind,
)
    requires
        capabilities_checked(a, module, kind),
        forall|code: KnownDiagnosticCode, span: Span|
            reports_at(a, code, span) ==> #[trigger] reports_at(b, code, span),
    ensures
        capabilities_checked(b, module, kind),
{
}

fn check_capability_request(
    module: &Module,
    out: &mut Vec<Diagnostic>,
    capability: &CapabilityExpression,
    environment: &mut Environment,
)
    ensures
        extends(old(out)@, final(out)@),
        capability_request_checked(final(out)@, *module, *capability),
{
    let name = capability.path.as_string();
    let declaration = match capability_declaration(module, name.as_str()) {
        Some(declaration) => declaration,
        None => {
            let message = concat3("unknown capability `", name.as_str(), "`");
            report(
                out,
                KnownDiagnosticCode::UnknownName,
                message.as_str(),
                &capability.path.span,
                "declare the capability before requiring it",
            );
            proof {
                assert(out@[out@.len() - 1].primary_span == capability.path.span);
                assert(reports_at(out@, KnownDiagnosticCode::UnknownName, capability.path.span));
            }
            return;
        },
    };
    let context = pure_context(Type::Unit);
    check_arguments(
        module,
        out,
        &declaration.parameters,
        &capability.arguments,
        environment,
        &context,
        &capability.span,
    );
}

fn check_capability_list(
    module: &Module,
    out: &mut Vec<Diagnostic>,
    parameters: &Vec<Parameter>,
    capabilities: &Vec<CapabilityExpression>,
)
    ensures
        extends(old(out)@, final(out)@),
        forall|i: int|
            0 <= i < capabilities@.len() ==> capability_request_checked(
                final(out)@,
                *module,
                #[trigger] capabilities@[i],
            ),
{
    let mut environment = environment_from_parameters(module, parameters);
    let mut i: usize = 0;
    while i < capabilities.len()
        invariant
            i <= capabilities@.len(),
            extends(old(out)@, out@),
            forall|k: int| 0 <= k < i ==> capability_request_checked(out@, *module, #[trigger] capabilities@[k]),
        decreases capabilities@.len() - i,
    {
        let ghost before = out@;
        check_capability_request(module, out, &capabilities[i], &mut environment);
        proof {
            lemma_reports_kept(before, out@);
        }
        i = i + 1;
    }
}

fn check_capability_requests(module: &Module, out: &mut Vec<Diagnostic>)
    ensures
        extends(old(out)@, final(out)@),
        forall|d: int|
            0 <= d < module.declarations@.len() ==> capabilities_checked(
                final(out)@,
                *module,
                (#[trigger] module.declarations@[d]).kind,
            ),
{
    let mut d: usize = 0;
    while d < module.declarations.len()
        invariant
            d <= module.declarations@.len(),
            extends(old(out)@, out@),
            forall|k: int|
                0 <= k < d ==> capabilities_checked(out@, *module, (#[trigger] module.declarations@[k]).kind),
        decreases module.declarations@.len() - d,
    {
        let ghost before = out@;
        match &module.declarations[d].kind {
            DeclarationKind::Function(function) | DeclarationKind::Flow(function) => {
                check_capability_list(module, out, &function.parameters, &function.uses);
            },
            DeclarationKind::Tool(tool) => {
                let mut environment = environment_from_parameters(module, &tool.parameters);
                if let Some(capability) = &tool.metadata.capability {
                    check_capability_request(module, out, capability, &mut environment);
                }
            },
            DeclarationKind::Agent(agent) => {
                check_capability_list(module, out, &agent.parameters, &agent.requires);
            },
            _ => {},
        }
        proof {
            lemma_reports_kept(before, out@);
            assert forall|k: int| 0 <= k < d + 1 implies capabilities_checked(
                out@,
                *module,
                (#[trigger] module.declarations@[k]).kind,
            ) by {
                if k < d {
                    lemma_capabilities_reported(before, out@, *module, module.declarations@[k].kind);
                }
            }
        }
        d = d + 1;
    }
}


/// Whether one of the first `n` data names of a prompt repeats an earlier one.
pub open spec fn prompt_data_repeated_within(prompt: crate::ast::PromptDeclaration, n: int) -> bool {
    exists|i: int, j: int|
        #![trigger prompt.data@[i], prompt.data@[j]]
        0 <= i < j < n && prompt.data@[i]@ == prompt.data@[j]@
}

/// Whether a prompt lists some data name twice.
pub open spec fn prompt_data_repeated(prompt: crate::ast::PromptDeclaration) -> bool {
    prompt_data_repeated_within(prompt, prompt.data@.len() as int)
}

/// Whether a name is one of a prompt's parameters.
pub open spec fn prompt_parameter(prompt: crate::ast::PromptDeclaration, name: Seq<char>) -> bool {
    exists|k: int| 0 <= k < prompt.parameters@.len() && #[trigger] prompt.parameters@[k].name@ == name
}

/// Whether one of the first `n` data names of a prompt is not a parameter.
pub open spec fn prompt_data_unknown_within(prompt: crate::ast::PromptDeclaration, n: int) -> bool {
    exists|i: int| 0 <= i < n && !prompt_parameter(prompt, #[trigger] prompt.data@[i]@)
}

/// Whether a prompt lists a data name that is not a parameter.
pub open spec fn prompt_data_unknown(prompt: crate::ast::PromptDeclaration) -> bool {
    prompt_data_unknown_within(prompt, prompt.data@.len() as int)
}

/// Whether a name occurs in a prompt's data list.
pub open spec fn prompt_lists(prompt: crate::ast::PromptDeclaration, name: Seq<char>) -> bool {
    exists|i: int| 0 <= i < prompt.data@.len() && #[trigger] prompt.data@[i]@ == name
}

/// Whether a prompt leaves a parameter out of its data.
pub open spec fn prompt_data_omits(prompt: crate::ast::PromptDeclaration) -> bool {
    exists|k: int| 0 <= k < prompt.parameters@.len() && !prompt_lists(prompt, #[trigger] prompt.parameters@[k].name@)
}

/// The prompt data defects reported at the prompt's span.
pub open spec fn prompt_checked(out: Seq<Diagnostic>, prompt: crate::ast::PromptDeclaration, span: Span) -> bool {
    &&& prompt_data_repeated(prompt) ==> reports_at(out, KnownDiagnosticCode::DuplicateDeclaration, span)
    &&& prompt_data_unknown(prompt) ==> reports_at(out, KnownDiagnosticCode::UnknownName, span)
    &&& prompt_data_omits(prompt) ==> reports_at(out, KnownDiagnosticCode::TypeMismatch, span)
}

/// Whether a name occurs in a list of names.
spec fn names_list(names: Seq<String>, name: Seq<char>) -> bool {
    exists|c: int| 0 <= c < names.len() && names[c]@ == name
}

proof fn lemma_names_list_push(names: Seq<String>, x: String)
    ensures
        forall|name: Seq<char>| names_list(names, name) ==> #[trigger] names_list(names.push(x), name),
        names_list(names.push(x), x@),
{
    assert forall|name: Seq<char>| names_list(names, name) implies #[trigger] names_list(names.push(x), name) by {
        let c = choose|c: int| 0 <= c < names.len() && names[c]@ == name;
        assert(names.push(x)[c] == names[c]);
    }
    assert(names.push(x)[names.len() as int] == x);
}

proof fn lemma_prompt_repeat_step(prompt: crate::ast::PromptDeclaration, i: int, data: Seq<String>)
    requires
        0 <= i < prompt.data@.len(),
        forall|j: int| 0 <= j < i ==> names_list(data, #[trigger] prompt.data@[j]@),
        prompt_data_repeated_within(prompt, i + 1),
        !prompt_data_repeated_within(prompt, i),
    ensures
        names_list(data, prompt.data@[i]@),
{
    let (a, b) = choose|a: int, b: int|
        #![trigger prompt.data@[a], prompt.data@[b]]
        0 <= a < b < i + 1 && prompt.data@[a]@ == prompt.data@[b]@;
    assert(b == i);
    assert(names_list(data, prompt.data@[a]@));
}

fn check_prompt_metadata(
    module: &Module,
    out: &mut Vec<Diagnostic>,
    prompt: &crate::ast::PromptDeclaration,
    span: &Span,
)
    ensures
        extends(old(out)@, final(out)@),
        prompt_checked(final(out)@, *prompt, *span),
{
    let mut data: Vec<String> = Vec::new();
    let mut i: usize = 0;
    while i < prompt.data.len()
        invariant
            i <= prompt.data@.len(),
            extends(old(out)@, out@),
            forall|j: int| 0 <= j < i ==> names_list(data@, #[trigger] prompt.data@[j]@),
            forall|c: int| 0 <= c < data@.len() ==> prompt_lists(*prompt, #[trigger] data@[c]@),
            prompt_data_repeated_within(*prompt, i as int)
                ==> reports_at(out@, KnownDiagnosticCode::DuplicateDeclaration, *span),
            prompt_data_unknown_within(*prompt, i as int)
                ==> reports_at(out@, KnownDiagnosticCode::UnknownName, *span),
        decreases prompt.data@.len() - i,
    {
        let ghost start = out@;
        let ghost data_before = data@;
        let name = &prompt.data[i];
        proof {
            if prompt_data_repeated_within(*prompt, i + 1) && !prompt_data_repeated_within(*prompt, i as int) {
                lemma_prompt_repeat_step(*prompt, i as int, data@);
            }
        }
        let found = contains_text(&data, name.as_str());
        if found {
            let message = concat3("duplicate prompt data name `", name.as_str(), "`");
            report(
                out,
                KnownDiagnosticCode::DuplicateDeclaration,
                message.as_str(),
                span,
                "list each prompt parameter exactly once",
            );
            proof {
                assert(out@[out@.len() - 1].primary_span == *span);
                assert(reports_at(out@, KnownDiagnosticCode::DuplicateDeclaration, *span));
            }
        } else {
            data.push(name.clone());
            proof {
                lemma_names_list_push(data_before, *name);
            }
        }
        let ghost middle = out@;
        let mut declared = false;
        let mut k: usize = 0;
        while k < prompt.parameters.len()
            invariant
                k <= prompt.parameters@.len(),
                declared == exists|q: int| 0 <= q < k && #[trigger] prompt.parameters@[q].name@ == name@,
            decreases prompt.parameters@.len() - k,
        {
            if str_equal(prompt.parameters[k].name.as_str(), name.as_str()) {
                declared = true;
            }
            k = k + 1;
        }
        if !declared {
            let message = concat3("prompt data name `", name.as_str(), "` is not a parameter");
            report(
                out,
                KnownDiagnosticCode::UnknownName,
                message.as_str(),
                span,
                "list only declared prompt parameters",
            );
            proof {
                assert(out@[out@.len() - 1].primary_span == *span);
                assert(reports_at(out@, KnownDiagnosticCode::UnknownName, *span));
            }
        }
        proof {
            lemma_reports_kept(start, middle);
            lemma_reports_kept(middle, out@);
            lemma_reports_kept(start, out@);
            assert(prompt_lists(*prompt, prompt.data@[i as int]@));
            if prompt_data_unknown_within(*prompt, i + 1) && !prompt_data_unknown_within(*prompt, i as int) {
                assert(!prompt_parameter(*prompt, prompt.data@[i as int]@));
            }
            assert forall|j: int| 0 <= j < i + 1 implies names_list(data@, #[trigger] prompt.data@[j]@) by {
                if !found {
                    if j < i {
                        assert(names_list(data_before, prompt.data@[j]@));
                    }
                }
            }
        }
        i = i + 1;
    }
    let ghost after_data = out@;
    let mut omitted: Vec<String> = Vec::new();
    let mut k: usize = 0;
    while k < prompt.parameters.len()
        invariant
            k <= prompt.parameters@.len(),
            (exists|q: int| 0 <= q < k && !names_list(data@, #[trigger] prompt.parameters@[q].name@))
                ==> omitted@.len() > 0,
        decreases prompt.parameters@.len() - k,
    {
        let name = &prompt.parameters[k].name;
        if !contains_text(&data, name.as_str()) && !contains_text(&omitted, name.as_str()) {
            omitted.push(name.clone());
        }
        k = k + 1;
    }
    proof {
        if prompt_data_omits(*prompt) {
            let q = choose|q: int|
                0 <= q < prompt.parameters@.len() && !prompt_lists(*prompt, #[trigger] prompt.parameters@[q].name@);
            if names_list(data@, prompt.parameters@[q].name@) {
                let c = choose|c: int| 0 <= c < data@.len() && data@[c]@ == prompt.parameters@[q].name@;
                assert(prompt_lists(*prompt, data@[c]@));
            }
            assert(omitted@.len() > 0);
        }
    }
    let omitted = crate::expression::sort_names(omitted);
    let ghost before_omitted = out@;
    let mut k: usize = 0;
    while k < omitted.len()
        invariant
            extends(old(out)@, out@),
            extends(before_omitted, out@),
            k > 0 ==> reports_at(out@, KnownDiagnosticCode::TypeMismatch, *span),
        decreases omitted@.len() - k,
    {
        let ghost step_start = out@;
        let message = concat3("prompt data omits parameter `", omitted[k].as_str(), "`");
        report(
            out,
            KnownDiagnosticCode::TypeMismatch,
            message.as_str(),
            span,
            "list every prompt parameter exactly once",
        );
        proof {
            assert(out@[out@.len() - 1].primary_span == *span);
            assert(reports_at(out@, KnownDiagnosticCode::TypeMismatch, *span));
        }
        k = k + 1;
    }
    let ghost after_omitted = out@;
    let mut k: usize = 0;
    while k < prompt.parameters.len()
        invariant
            extends(old(out)@, out@),
            extends(after_omitted, out@),
        decreases prompt.parameters@.len() - k,
    {
        let ty = resolve_type(module, &prompt.parameters[k].ty);
        if model_contains_secret(module, &ty) {
            report(
                out,
                KnownDiagnosticCode::SecretToModel,
                "prompt data cannot contain Secret values",
                &prompt.parameters[k].span,
                "pass a non-secret validated summary",
            );
        }
        k = k + 1;
    }
    proof {
        lemma_reports_kept(after_data, out@);
        lemma_reports_kept(after_omitted, out@);
    }
}

fn check_policy_signature(
    module: &Module,
    out: &mut Vec<Diagnostic>,
    policy: &PolicyDeclaration,
    span: &Span,
)
    ensures
        extends(old(out)@, final(out)@),
{
    let count = policy.parameters.len();
    if count < 1 || count > 2 {
        report(
            out,
            KnownDiagnosticCode::TypeMismatch,
            "policy must accept a proposal and at most one agent state snapshot",
            span,
            "declare `(proposal: Proposal<Action>)` with optional `state: Agent.State`",
        );
    }
    if count >= 1 {
        let first = resolve_type(module, &policy.parameters[0].ty);
        if !matches!(first, Type::Proposal(_)) {
            report(
                out,
                KnownDiagnosticCode::TypeMismatch,
                "policy first parameter must be Proposal<Action>",
                &policy.parameters[0].span,
                "use the governed write action's proposal type",
            );
        }
    }
    if count >= 2 {
        let second = resolve_type(module, &policy.parameters[1].ty);
        if !matches!(second, Type::AgentState(_)) {
            report(
                out,
                KnownDiagnosticCode::TypeMismatch,
                "policy second parameter must be Agent.State",
                &policy.parameters[1].span,
                "use the authorizing agent's immutable state type",
            );
        }
    }
}

fn missing_tool_metadata(out: &mut Vec<Diagnostic>, name: &str, span: &Span)
    ensures
        extends(old(out)@, final(out)@),
{
    let message = concat3("tool is missing required `", name, "` metadata");
    let help = concat3("declare exactly one `", name, "` metadata entry");
    report(out, KnownDiagnosticCode::TypeMismatch, message.as_str(), span, help.as_str());
}

fn unexpected_tool_metadata(out: &mut Vec<Diagnostic>, name: &str, span: &Span)
    ensures
        extends(old(out)@, final(out)@),
{
    let message = concat3("read tool cannot declare write-only `", name, "` metadata");
    let help = concat3("remove the `", name, "` metadata entry");
    report(out, KnownDiagnosticCode::TypeMismatch, message.as_str(), span, help.as_str());
}

fn check_tool_metadata(
    module: &Module,
    out: &mut Vec<Diagnostic>,
    tool: &ToolDeclaration,
    span: &Span,
)
    ensures
        extends(old(out)@, final(out)@),
        tool.metadata.mode == Some(ToolMode::Write) && tool.metadata.idempotency is None
            ==> reports_at(final(out)@, KnownDiagnosticCode::MissingIdempotency, *span),
{
    if tool.metadata.mode.is_none() {
        missing_tool_metadata(out, "mode", span);
    }
    if tool.metadata.capability.is_none() {
        missing_tool_metadata(out, "capability", span);
    }
    if tool.metadata.sensitivity.is_none() {
        missing_tool_metadata(out, "sensitivity", span);
    }
    if tool.metadata.mode == Some(ToolMode::Write) {
        if tool.metadata.risk.is_none() {
            missing_tool_metadata(out, "risk", span);
        }
        match &tool.metadata.idempotency {
            None => {
                report(
                    out,
                    KnownDiagnosticCode::MissingIdempotency,
                    "write tool is missing idempotency metadata",
                    span,
                    "name a deterministic request parameter with `idempotency`",
                );
                proof {
                    assert(out@[out@.len() - 1].primary_span == *span);
                }
            },
            Some(name) => {
                let mut found: Option<usize> = None;
                let mut k: usize = 0;
                while k < tool.parameters.len() && found.is_none()
                    invariant
                        found matches Some(f) ==> f < tool.parameters@.len(),
                    decreases tool.parameters@.len() - k,
                {
                    if str_equal(tool.parameters[k].name.as_str(), name.as_str()) {
                        found = Some(k);
                    }
                    k = k + 1;
                }
                match found {
                    None => {
                        let message = concat3("idempotency parameter `", name.as_str(), "` is not declared");
                        report(
                            out,
                            KnownDiagnosticCode::MissingIdempotency,
                            message.as_str(),
                            span,
                            "name one of the write tool's declared parameters",
                        );
                    },
                    Some(f) => {
                        let ty = resolve_type(module, &tool.parameters[f].ty);
                        if !is_deterministically_serializable(module, &ty) {
                            let message = concat3(
                                "idempotency parameter `",
                                name.as_str(),
                                "` is not deterministically serializable",
                            );
                            report(
                                out,
                                KnownDiagnosticCode::MissingIdempotency,
                                message.as_str(),
                                span,
                                "use an ordinary deterministic data value as the key",
                            );
                        }
                    },
                }
            },
        }
    } else if tool.metadata.mode == Some(ToolMode::Read) {
        if tool.metadata.risk.is_some() {
            unexpected_tool_metadata(out, "risk", span);
        }
        if tool.metadata.idempotency.is_some() {
            unexpected_tool_metadata(out, "idempotency", span);
        }
    }
}

/// An agent's budget entry `k` names a dimension outside the fixed set.
pub open spec fn unknown_budget_entry(agent: AgentDeclaration, k: int) -> bool {
    0 <= k < agent.budget@.len() && !is_budget_dimension(agent.budget@[k].dimension@)
}

fn check_agent_metadata(module: &Module, out: &mut Vec<Diagnostic>, agent: &AgentDeclaration)
    ensures
        extends(old(out)@, final(out)@),
        forall|k: int|
            unknown_budget_entry(*agent, k) ==> reports_at(
                final(out)@,
                KnownDiagnosticCode::UnknownBudgetDimension,
                #[trigger] agent.budget@[k].span,
            ),
{
    let mut i: usize = 0;
    while i < agent.state.len()
        invariant
            extends(old(out)@, out@),
        decreases agent.state@.len() - i,
    {
        let ty = resolve_type(module, &agent.state[i].ty);
        if model_contains_secret(module, &ty) {
            report(
                out,
                KnownDiagnosticCode::SecretInState,
                "persistent agent state cannot contain Secret values",
                &agent.state[i].ty.span,
                "keep secrets behind sensitivity-secret tool boundaries",
            );
        }
        i = i + 1;
    }
    let mut seen: Vec<String> = Vec::new();
    let mut k: usize = 0;
    while k < agent.budget.len()
        invariant
            k <= agent.budget@.len(),
            extends(old(out)@, out@),
            forall|q: int|
                0 <= q < k && unknown_budget_entry(*agent, q) ==> reports_at(
                    out@,
                    KnownDiagnosticCode::UnknownBudgetDimension,
                    #[trigger] agent.budget@[q].span,
                ),
        decreases agent.budget@.len() - k,
    {
        let entry = &agent.budget[k];
        let ghost before = out@;
        if !budget_dimension(entry.dimension.as_str()) {
            let message = concat3("unknown budget dimension `", entry.dimension.as_str(), "`");
            report(
                out,
                KnownDiagnosticCode::UnknownBudgetDimension,
                message.as_str(),
                &entry.span,
                "use a fixed ASTER 0.1 budget dimension",
            );
            proof {
                assert(out@[out@.len() - 1].primary_span == agent.budget@[k as int].span);
            }
        } else if contains_text(&seen, entry.dimension.as_str()) {
            let message = concat3("duplicate budget dimension `", entry.dimension.as_str(), "`");
            report(
                out,
                KnownDiagnosticCode::DuplicateBudgetDimension,
                message.as_str(),
                &entry.span,
                "declare each budget dimension at most once",
            );
        } else {
            seen.push(entry.dimension.clone());
        }
        proof {
            assert forall|q: int|
                0 <= q < k + 1 && unknown_budget_entry(*agent, q) implies reports_at(
                out@,
                KnownDiagnosticCode::UnknownBudgetDimension,
                #[trigger] agent.budget@[q].span,
            ) by {
                if q < k {
                    let w = choose|w: int|
                        0 <= w < before.len() && (#[trigger] before[w]).code@ == known_code_text(
                            KnownDiagnosticCode::UnknownBudgetDimension,
                        ) && before[w].primary_span == agent.budget@[q].span;
                    assert(out@[w] == before[w]);
                }
            }
        }
        k = k + 1;
    }
}

/// A policy whose last rule is conditional, or that has no rule, is not total.
pub open spec fn policy_not_total(policy: PolicyDeclaration) -> bool {
    policy.rules@.len() == 0 || policy.rules@.last().condition is Some
}

/// What the metadata pass reports of one declaration: a policy without a final
/// `otherwise` rule, a write tool without idempotency metadata, budget entries
/// on unknown dimensions, prompt data defects, and a validator that takes
/// neither one nor two parameters.
pub open spec fn metadata_checked(out: Seq<Diagnostic>, decl: Declaration) -> bool {
    match decl.kind {
        DeclarationKind::Policy(policy) => policy_not_total(policy) ==> reports_at(
            out,
            KnownDiagnosticCode::NonTotalPolicy,
            decl.span,
        ),
        DeclarationKind::Tool(tool) => tool.metadata.mode == Some(ToolMode::Write)
            && tool.metadata.idempotency is None ==> reports_at(
            out,
            KnownDiagnosticCode::MissingIdempotency,
            decl.span,
        ),
        DeclarationKind::Agent(agent) => forall|k: int|
            unknown_budget_entry(agent, k) ==> reports_at(
                out,
                KnownDiagnosticCode::UnknownBudgetDimension,
                #[trigger] agent.budget@[k].span,
            ),
        DeclarationKind::Prompt(prompt) => prompt_checked(out, prompt, decl.span),
        DeclarationKind::Validator(validator) => validator_arity_wrong(validator) ==> reports_at(
            out,
            KnownDiagnosticCode::TypeMismatch,
            decl.span,
        ),
        _ => true,
    }
}

/// A validator takes neither one nor two parameters.
pub open spec fn validator_arity_wrong(validator: crate::ast::ValidatorDeclaration) -> bool {
    validator.parameters@.len() < 1 || validator.parameters@.len() > 2
}

/// Whether the metadata pass has something to report of a declaration.
pub open spec fn metadata_defect(decl: Declaration) -> bool {
    match decl.kind {
        DeclarationKind::Policy(policy) => policy_not_total(policy),
        DeclarationKind::Tool(tool) => tool.metadata.mode == Some(ToolMode::Write)
            && tool.metadata.idempotency is None,
        DeclarationKind::Agent(agent) => exists|k: int| #[trigger] unknown_budget_entry(agent, k),
        DeclarationKind::Prompt(prompt) => prompt_data_repeated(prompt) || prompt_data_unknown(prompt)
            || prompt_data_omits(prompt),
        DeclarationKind::Validator(validator) => validator_arity_wrong(validator),
        _ => false,
    }
}

/// What one list reports of a declaration's metadata, a list that reports
/// at least as much reports too.
pub proof fn lemma_metadata_checked_kept(a: Seq<Diagnostic>, b: Seq<Diagnostic>, decl: Declaration)
    requires
        metadata_checked(a, decl),
        forall|code: KnownDiagnosticCode, span: Span|
            reports_at(a, code, span) ==> #[trigger] reports_at(b, code, span),
    ensures
        metadata_checked(b, decl),
{
}

/// An empty list reports nothing, so a declaration it checks has no metadata defect.
pub proof fn lemma_metadata_checked_empty(decl: Declaration)
    requires
        metadata_checked(Seq::<Diagnostic>::empty(), decl),
    ensures
        !metadata_defect(decl),
{
    match decl.kind {
        DeclarationKind::Agent(agent) => {
            if exists|k: int| #[trigger] unknown_budget_entry(agent, k) {
                let k = choose|k: int| #[trigger] unknown_budget_entry(agent, k);
                assert(reports_at(
                    Seq::<Diagnostic>::empty(),
                    KnownDiagnosticCode::UnknownBudgetDimension,
                    agent.budget@[k].span,
                ));
            }
        },
        _ => {},
    }
}

fn check_declaration_metadata(module: &Module, out: &mut Vec<Diagnostic>)
    ensures
        extends(old(out)@, final(out)@),
        forall|d: int|
            0 <= d < module.declarations@.len() ==> metadata_checked(
                final(out)@,
                #[trigger] module.declarations@[d],
            ),
{
    let decls = &module.declarations;
    let mut d: usize = 0;
    while d < decls.len()
        invariant
            d <= decls@.len(),
            extends(old(out)@, out@),
            forall|q: int| 0 <= q < d ==> metadata_checked(out@, #[trigger] decls@[q]),
        decreases decls@.len() - d,
    {
        let ghost before = out@;
        let declaration = &decls[d];
        match &declaration.kind {
            DeclarationKind::Prompt(prompt) => {
                check_prompt_metadata(module, out, prompt, &declaration.span);
            },
            DeclarationKind::Validator(validator) => {
                let count = validator.parameters.len();
                if count < 1 || count > 2 {
                    report(
                        out,
                        KnownDiagnosticCode::TypeMismatch,
                        "validator must accept one validation value or two reconciliation values",
                        &declaration.span,
                        "declare exactly one or two validator parameters",
                    );
                    proof {
                        assert(out@[out@.len() - 1].primary_span == decls@[d as int].span);
                        assert(reports_at(out@, KnownDiagnosticCode::TypeMismatch, decls@[d as int].span));
                    }
                }
            },
            DeclarationKind::Tool(tool) => {
                check_tool_metadata(module, out, tool, &declaration.span);
            },
            DeclarationKind::Policy(policy) => {
                let n = policy.rules.len();
                let not_total = n == 0 || policy.rules[n - 1].condition.is_some();
                if not_total {
                    report(
                        out,
                        KnownDiagnosticCode::NonTotalPolicy,
                        "policy has no final otherwise rule",
                        &declaration.span,
                        "end the policy with an `otherwise` decision",
                    );
                    proof {
                        assert(out@[out@.len() - 1].primary_span == decls@[d as int].span);
                        assert(reports_at(out@, KnownDiagnosticCode::NonTotalPolicy, decls@[d as int].span));
                    }
                }
                let ghost mid = out@;
                check_policy_signature(module, out, policy, &declaration.span);
                proof {
                    if not_total {
                        let w = choose|w: int|
                            0 <= w < mid.len() && (#[trigger] mid[w]).code@ == known_code_text(
                                KnownDiagnosticCode::NonTotalPolicy,
                            ) && mid[w].primary_span == decls@[d as int].span;
                        assert(out@[w] == mid[w]);
                    }
                }
            },
            DeclarationKind::Agent(agent) => check_agent_metadata(module, out, agent),
            _ => {},
        }
        proof {
            lemma_reports_kept(before, out@);
            assert forall|q: int| 0 <= q < d + 1 implies metadata_checked(out@, #[trigger] decls@[q]) by {
                if q < d {
                    lemma_metadata_checked_kept(before, out@, decls@[q]);
                }
            }
        }
        d = d + 1;
    }
}

/// Whatever an earlier list reports, a list extending it reports too.
pub proof fn lemma_reports_kept(old_out: Seq<Diagnostic>, new_out: Seq<Diagnostic>)
    requires
        extends(old_out, new_out),
    ensures
        forall|code: KnownDiagnosticCode, span: Span|
            reports_at(old_out, code, span) ==> #[trigger] reports_at(new_out, code, span),
{
    assert forall|code: KnownDiagnosticCode, span: Span|
        reports_at(old_out, code, span) implies #[trigger] reports_at(new_out, code, span) by {
        let w = choose|w: int|
            0 <= w < old_out.len() && (#[trigger] old_out[w]).code@ == known_code_text(code)
                && old_out[w].primary_span == span;
        assert(new_out[w] == old_out[w]);
    }
}

fn ends_with_return(block: &Block) -> (ends: bool) {
    let n = block.statements.len();
    if n == 0 {
        return false;
    }
    match &block.statements[n - 1].kind {
        StatementKind::Return { .. } => true,
        _ => false,
    }
}

/// Dotted names of capability requirements, each once, in order of first
/// appearance.
pub open spec fn capability_names_of(capabilities: Seq<CapabilityExpression>) -> Seq<Seq<char>>
    decreases capabilities.len(),
{
    if capabilities.len() == 0 {
        Seq::empty()
    } else {
        crate::model::add_name(
            capability_names_of(capabilities.drop_last()),
            crate::ast::dotted(crate::ast::string_views(capabilities.last().path.segments@)),
        )
    }
}

fn capability_names(capabilities: &Vec<CapabilityExpression>) -> (names: Vec<String>)
    ensures
        crate::ast::string_views(names@) == capability_names_of(capabilities@),
{
    let mut names: Vec<String> = Vec::new();
    let mut i: usize = 0;
    proof {
        assert(crate::ast::string_views(names@) =~= capability_names_of(capabilities@.take(0)));
    }
    while i < capabilities.len()
        invariant
            i <= capabilities@.len(),
            crate::ast::string_views(names@) == capability_names_of(capabilities@.take(i as int)),
        decreases capabilities@.len() - i,
    {
        proof {
            assert(capabilities@.take(i + 1).drop_last() =~= capabilities@.take(i as int));
            assert(capabilities@.take(i + 1).last() == capabilities@[i as int]);
        }
        let ghost before = names@;
        let name = capabilities[i].path.as_string();
        proof {
            crate::model::lemma_contains_text(names@, name@);
        }
        if !contains_text(&names, name.as_str()) {
            names.push(name);
            proof {
                assert(crate::ast::string_views(names@) =~= crate::ast::string_views(before).push(
                    name@,
                ));
            }
        }
        i = i + 1;
    }
    proof {
        assert(capabilities@.take(capabilities@.len() as int) =~= capabilities@);
    }
    names
}

fn check_function(module: &Module, out: &mut Vec<Diagnostic>, function: &FunctionDeclaration, pure: bool)
    ensures
        extends(old(out)@, final(out)@),
        block_literal_operands_checked(final(out)@, function.body),
{
    if !ends_with_return(&function.body) {
        let message = concat3("callable `", function.name.as_str(), "` has no final return statement");
        report(
            out,
            KnownDiagnosticCode::TypeMismatch,
            message.as_str(),
            &function.body.span,
            "end every function or flow with an explicit `return`",
        );
    }
    let mut environment = environment_from_parameters(module, &function.parameters);
    let context = CheckContext {
        pure,
        allowed_capabilities: capability_names(&function.uses),
        return_type: resolve_type(module, &function.return_type),
        agent: None,
    };
    check_block(module, out, &function.body, &mut environment, &context);
}

fn check_agent_bodies(module: &Module, out: &mut Vec<Diagnostic>, agent: &AgentDeclaration)
    ensures
        extends(old(out)@, final(out)@),
{
    let mut defaults = environment_from_parameters(module, &agent.parameters);
    defaults.insert("event", Type::Event);
    let default_context = CheckContext {
        pure: true,
        allowed_capabilities: Vec::new(),
        return_type: Type::Unit,
        agent: Some(agent.name.clone()),
    };
    let mut i: usize = 0;
    while i < agent.state.len()
        invariant
            extends(old(out)@, out@),
        decreases agent.state@.len() - i,
    {
        let field = &agent.state[i];
        let actual = check_expression(module, out, &field.default, &mut defaults, &default_context);
        let expected = resolve_type(module, &field.ty);
        expect_type(module, out, &expected, &actual, &field.default.span);
        i = i + 1;
    }
    let mut h: usize = 0;
    while h < agent.handlers.len()
        invariant
            extends(old(out)@, out@),
        decreases agent.handlers@.len() - h,
    {
        let handler = &agent.handlers[h];
        if !ends_with_return(&handler.body) {
            let message = concat3("handler `", handler.event.as_str(), "` has no final return statement");
            report(
                out,
                KnownDiagnosticCode::TypeMismatch,
                message.as_str(),
                &handler.body.span,
                "end every event handler with an explicit `return`",
            );
        }
        let mut environment = environment_from_parameters(module, &agent.parameters);
        let mut p: usize = 0;
        while p < handler.parameters.len()
            decreases handler.parameters@.len() - p,
        {
            environment.insert(
                handler.parameters[p].name.as_str(),
                resolve_type(module, &handler.parameters[p].ty),
            );
            p = p + 1;
        }
        environment.insert("self", Type::AgentState(agent.name.clone()));
        environment.insert("event", Type::Event);
        let context = CheckContext {
            pure: false,
            allowed_capabilities: capability_names(&agent.requires),
            return_type: resolve_type(module, &handler.return_type),
            agent: Some(agent.name.clone()),
        };
        check_block(module, out, &handler.body, &mut environment, &context);
        h = h + 1;
    }
}

/// The literal operands of the binary expressions a function's or flow's
/// body evaluates at statement level are checked.
pub open spec fn body_literal_operands_checked(out: Seq<Diagnostic>, kind: DeclarationKind) -> bool {
    match kind {
        DeclarationKind::Function(function) => block_literal_operands_checked(out, function.body),
        DeclarationKind::Flow(function) => block_literal_operands_checked(out, function.body),
        _ => true,
    }
}

/// No statement of a function's or flow's body evaluates a binary
/// expression with a literal operand of another type than its operator
/// requires.
pub open spec fn body_literal_operands_sound(kind: DeclarationKind) -> bool {
    body_literal_operands_checked(Seq::<Diagnostic>::empty(), kind)
}

/// What one list reports of a body's literal operands, a list that reports
/// at least as much reports too.
pub proof fn lemma_body_literal_operands_reported(a: Seq<Diagnostic>, b: Seq<Diagnostic>, kind: DeclarationKind)
    requires
        body_literal_operands_checked(a, kind),
        forall|code: KnownDiagnosticCode, span: Span|
            reports_at(a, code, span) ==> #[trigger] reports_at(b, code, span),
    ensures
        body_literal_operands_checked(b, kind),
{
    assert forall|code: KnownDiagnosticCode, span: Span|
        has_report(a, code, span) implies #[trigger] has_report(b, code, span) by {
        assert(reports_at(a, code, span));
        assert(reports_at(b, code, span));
        let k = choose|k: int|
            0 <= k < b.len() && (#[trigger] b[k]).code@ == known_code_text(code) && b[k].primary_span == span;
        assert(0 <= k < b.len() && b[k].code@ == known_code_text(code) && b[k].primary_span == span);
    }
    match kind {
        DeclarationKind::Function(function) => lemma_block_literal_operands_reported(a, b, function.body),
        DeclarationKind::Flow(function) => lemma_block_literal_operands_reported(a, b, function.body),
        _ => {},
    }
}

fn check_executable_bodies(module: &Module, out: &mut Vec<Diagnostic>)
    ensures
        extends(old(out)@, final(out)@),
        forall|d: int|
            0 <= d < module.declarations@.len() ==> body_literal_operands_checked(
                final(out)@,
                (#[trigger] module.declarations@[d]).kind,
            ),
{
    let mut d: usize = 0;
    while d < module.declarations.len()
        invariant
            d <= module.declarations@.len(),
            extends(old(out)@, out@),
            forall|k: int|
                0 <= k < d ==> body_literal_operands_checked(out@, (#[trigger] module.declarations@[k]).kind),
        decreases module.declarations@.len() - d,
    {
        let ghost before = out@;
        match &module.declarations[d].kind {
            DeclarationKind::Function(function) => check_function(module, out, function, true),
            DeclarationKind::Flow(flow) => check_function(module, out, flow, false),
            DeclarationKind::Validator(validator) => {
                let mut environment = environment_from_parameters(module, &validator.parameters);
                let context = pure_context(Type::Unit);
                let mut i: usize = 0;
                while i < validator.requirements.len()
                    invariant
                        extends(old(out)@, out@),
                        extends(before, out@),
                    decreases validator.requirements@.len() - i,
                {
                    let requirement = &validator.requirements[i];
                    let actual = check_expression(module, out, requirement, &mut environment, &context);
                    expect_type(module, out, &Type::Bool, &actual, &requirement.span);
                    i = i + 1;
                }
            },
            DeclarationKind::Policy(policy) => {
                let mut environment = environment_from_parameters(module, &policy.parameters);
                let context = pure_context(Type::Unit);
                let mut i: usize = 0;
                while i < policy.rules.len()
                    invariant
                        extends(old(out)@, out@),
                        extends(before, out@),
                    decreases policy.rules@.len() - i,
                {
                    let rule = &policy.rules[i];
                    if let Some(condition) = &rule.condition {
                        let actual = check_expression(module, out, condition, &mut environment, &context);
                        expect_type(module, out, &Type::Bool, &actual, &condition.span);
                    }
                    match &rule.decision {
                        PolicyDecision::Approve(value) | PolicyDecision::Deny(value) => {
                            let actual = check_expression(module, out, value, &mut environment, &context);
                            expect_type(module, out, &Type::Text, &actual, &value.span);
                        },
                        PolicyDecision::Allow => {},
                    }
                    i = i + 1;
                }
            },
            DeclarationKind::Agent(agent) => check_agent_bodies(module, out, agent),
            _ => {},
        }
        proof {
            lemma_reports_kept(before, out@);
            assert forall|k: int| 0 <= k < d + 1 implies body_literal_operands_checked(
                out@,
                (#[trigger] module.declarations@[k]).kind,
            ) by {
                if k < d {
                    lemma_body_literal_operands_reported(before, out@, module.declarations@[k].kind);
                }
            }
        }
        d = d + 1;
    }
}

/// Adds `name` to `calls` when it is a callable name not yet recorded.
/// Gathering one set of calls after another gathers both.
proof fn lemma_gains_chain(
    a: Seq<String>,
    b: Seq<String>,
    c: Seq<String>,
    names: Seq<String>,
    f: spec_fn(Seq<char>) -> bool,
    g: spec_fn(Seq<char>) -> bool,
    h: spec_fn(Seq<char>) -> bool,
)
    requires
        gains_calls(a, b, names, f),
        gains_calls(b, c, names, g),
        forall|x: Seq<char>| #[trigger] h(x) == (f(x) || g(x)),
    ensures
        gains_calls(a, c, names, h),
{
    assert forall|x: Seq<char>| #[trigger] has_text(c, x) <==> has_text(a, x) || (has_text(names, x) && h(x)) by {
        assert(has_text(c, x) <==> has_text(b, x) || (has_text(names, x) && g(x)));
        assert(has_text(b, x) <==> has_text(a, x) || (has_text(names, x) && f(x)));
    }
}

/// Gathering nothing leaves the calls as they are.
proof fn lemma_gains_nothing(a: Seq<String>, names: Seq<String>, f: spec_fn(Seq<char>) -> bool)
    requires
        forall|x: Seq<char>| !#[trigger] f(x),
    ensures
        gains_calls(a, a, names, f),
{
    assert forall|x: Seq<char>| #[trigger] has_text(a, x) <==> has_text(a, x) || (has_text(names, x) && f(x)) by {}
}

fn record_call(calls: &mut Vec<String>, names: &Vec<String>, name: &str)
    ensures
        gains_calls(old(calls)@, final(calls)@, names@, |x: Seq<char>| x == name@),
{
    proof {
        crate::model::lemma_contains_text(names@, name@);
        crate::model::lemma_contains_text(calls@, name@);
    }
    let ghost before = calls@;
    if contains_text(names, name) && !contains_text(calls, name) {
        calls.push(String::from_str(name));
        proof {
            assert(crate::ast::string_views(calls@) =~= crate::ast::string_views(before).push(name@));
            assert forall|x: Seq<char>| #[trigger] has_text(calls@, x) <==> has_text(before, x) || (
            has_text(names@, x) && x == name@) by {
                if x == name@ {
                    assert(crate::ast::string_views(calls@)[before.len() as int] == x);
                }
                if has_text(calls@, x) && x != name@ {
                    let q = choose|q: int| 0 <= q < crate::ast::string_views(calls@).len()
                        && crate::ast::string_views(calls@)[q] == x;
                    assert(q < before.len());
                    assert(crate::ast::string_views(before)[q] == x);
                }
                if has_text(before, x) {
                    let q = choose|q: int| 0 <= q < crate::ast::string_views(before).len()
                        && crate::ast::string_views(before)[q] == x;
                    assert(crate::ast::string_views(calls@)[q] == x);
                }
            }
        }
    } else {
        proof {
            assert forall|x: Seq<char>| #[trigger] has_text(calls@, x) <==> has_text(before, x) || (
            has_text(names@, x) && x == name@) by {}
        }
    }
}

/// Whether `x` occurs among the texts of `items`.
pub open spec fn has_text(items: Seq<String>, x: Seq<char>) -> bool {
    crate::ast::string_views(items).contains(x)
}

/// `after` keeps `before` as its prefix and holds, besides, exactly the
/// declared names that `found` selects.
pub open spec fn gains_calls(
    before: Seq<String>,
    after: Seq<String>,
    names: Seq<String>,
    found: spec_fn(Seq<char>) -> bool,
) -> bool {
    &&& before.len() <= after.len()
    &&& forall|i: int| 0 <= i < before.len() ==> after[i] == before[i]
    &&& forall|x: Seq<char>|
        #[trigger] has_text(after, x) <==> has_text(before, x) || (has_text(names, x) && found(x))
}

/// Whether the expression calls `x` directly by a one-segment path,
/// anywhere inside it.
pub open spec fn calls_name(expression: Expression, x: Seq<char>) -> bool
    decreases expression, 2nat,
{
    match expression.kind {
        ExpressionKind::Call { callee, arguments } => (match callee.kind {
            ExpressionKind::Path { path } => path.segments@.len() == 1 && path.segments@[0]@ == x,
            _ => false,
        }) || calls_name(*callee, x) || arguments_call(arguments@, x),
        ExpressionKind::List { elements } => elements_call(elements@, x),
        ExpressionKind::Record { fields, .. } => fields_call(fields@, x),
        ExpressionKind::Intent { fields, .. } => fields_call(fields@, x),
        ExpressionKind::Field { target, .. } => calls_name(*target, x),
        ExpressionKind::Unary { operand, .. } => calls_name(*operand, x),
        ExpressionKind::Try { value } => calls_name(*value, x),
        ExpressionKind::Validate { candidate, .. } => calls_name(*candidate, x),
        ExpressionKind::Binary { left, right, .. } => calls_name(*left, x) || calls_name(*right, x),
        ExpressionKind::If { condition, then_block, else_block } => calls_name(*condition, x)
            || block_calls(then_block, x) || block_calls(else_block, x),
        ExpressionKind::Match { value, arms } => calls_name(*value, x) || arms_call(arms@, x),
        ExpressionKind::Infer { arguments, .. } => arguments_call(arguments@, x),
        ExpressionKind::Observe { arguments, .. } => arguments_call(arguments@, x),
        ExpressionKind::Propose { arguments, intent, .. } => arguments_call(arguments@, x) || calls_name(
            *intent,
            x,
        ),
        ExpressionKind::Authorize { proposal, .. } => calls_name(*proposal, x),
        ExpressionKind::Commit { proposal, permit } => calls_name(*proposal, x) || calls_name(*permit, x),
        ExpressionKind::Reconcile { receipt, observation, .. } => calls_name(*receipt, x) || calls_name(
            *observation,
            x,
        ),
        _ => false,
    }
}

/// Whether some element calls `x`.
pub open spec fn elements_call(elements: Seq<Expression>, x: Seq<char>) -> bool
    decreases elements, 1nat,
{
    elements.len() > 0 && (elements_call(elements.drop_last(), x) || calls_name(elements.last(), x))
}

/// Whether some field value calls `x`.
pub open spec fn fields_call(fields: Seq<crate::ast::FieldInitializer>, x: Seq<char>) -> bool
    decreases fields, 1nat,
{
    fields.len() > 0 && (fields_call(fields.drop_last(), x) || calls_name(fields.last().value, x))
}

/// Whether some argument value calls `x`.
pub open spec fn arguments_call(arguments: Seq<crate::ast::Argument>, x: Seq<char>) -> bool
    decreases arguments, 1nat,
{
    arguments.len() > 0 && (arguments_call(arguments.drop_last(), x) || calls_name(
        arguments.last().value,
        x,
    ))
}

/// Whether some arm value calls `x`.
pub open spec fn arms_call(arms: Seq<crate::ast::MatchArm>, x: Seq<char>) -> bool
    decreases arms, 1nat,
{
    arms.len() > 0 && (arms_call(arms.drop_last(), x) || calls_name(arms.last().value, x))
}

/// Whether a statement calls `x`.
pub open spec fn statement_calls(statement: crate::ast::Statement, x: Seq<char>) -> bool
    decreases statement, 0nat,
{
    match statement.kind {
        StatementKind::Let { value, .. } => calls_name(value, x),
        StatementKind::Return { value } => calls_name(value, x),
        StatementKind::Require { condition } => calls_name(condition, x),
        StatementKind::UpdateState { fields } => fields_call(fields@, x),
        StatementKind::Expression { expression } => calls_name(expression, x),
    }
}

/// Whether some statement calls `x`.
pub open spec fn statements_call(statements: Seq<crate::ast::Statement>, x: Seq<char>) -> bool
    decreases statements, 1nat,
{
    statements.len() > 0 && (statements_call(statements.drop_last(), x) || statement_calls(
        statements.last(),
        x,
    ))
}

/// Whether some statement of the block calls `x`.
pub open spec fn block_calls(block: Block, x: Seq<char>) -> bool
    decreases block, 2nat,
{
    statements_call(block.statements@, x)
}

fn collect_block_calls(block: &Block, names: &Vec<String>, calls: &mut Vec<String>)
    ensures
        gains_calls(old(calls)@, final(calls)@, names@, |x: Seq<char>| block_calls(*block, x)),
    decreases block, 1nat,
{
    let ghost st = block.statements@;
    let mut i: usize = 0;
    proof {
        lemma_gains_nothing(calls@, names@, |x: Seq<char>| statements_call(st.take(0), x));
    }
    while i < block.statements.len()
        invariant
            i <= st.len(),
            st == block.statements@,
            gains_calls(old(calls)@, calls@, names@, |x: Seq<char>| statements_call(st.take(i as int), x)),
        decreases block.statements@.len() - i,
    {
        proof {
            assert(st.take(i + 1).drop_last() =~= st.take(i as int));
            assert(st.take(i + 1).last() == st[i as int]);
        }
        let ghost mid = calls@;
        let ghost f = |x: Seq<char>| statements_call(st.take(i as int), x);
        let ghost h = |x: Seq<char>| statements_call(st.take(i + 1), x);
        match &block.statements[i].kind {
            StatementKind::Let { value, .. } | StatementKind::Return { value } => {
                collect_expression_calls(value, names, calls);
                proof {
                    assert forall|x: Seq<char>| #[trigger] h(x) == (f(x) || calls_name(*value, x)) by {
                        assert(statements_call(st.take(i + 1), x) == (statements_call(st.take(i as int), x)
                            || statement_calls(st[i as int], x)));
                        assert(statement_calls(st[i as int], x) == calls_name(*value, x));
                    }
                    lemma_gains_chain(old(calls)@, mid, calls@, names@, f, |x: Seq<char>| calls_name(*value, x), h);
                }
            },
            StatementKind::Require { condition } => {
                collect_expression_calls(condition, names, calls);
                proof {
                    assert forall|x: Seq<char>| #[trigger] h(x) == (f(x) || calls_name(*condition, x)) by {
                        assert(statements_call(st.take(i + 1), x) == (statements_call(st.take(i as int), x)
                            || statement_calls(st[i as int], x)));
                        assert(statement_calls(st[i as int], x) == calls_name(*condition, x));
                    }
                    lemma_gains_chain(
                        old(calls)@,
                        mid,
                        calls@,
                        names@,
                        f,
                        |x: Seq<char>| calls_name(*condition, x),
                        h,
                    );
                }
            },
            StatementKind::UpdateState { fields } => {
                collect_field_calls(fields, names, calls);
                proof {
                    assert forall|x: Seq<char>| #[trigger] h(x) == (f(x) || fields_call(fields@, x)) by {
                        assert(statements_call(st.take(i + 1), x) == (statements_call(st.take(i as int), x)
                            || statement_calls(st[i as int], x)));
                        assert(statement_calls(st[i as int], x) == fields_call(fields@, x));
                    }
                    lemma_gains_chain(old(calls)@, mid, calls@, names@, f, |x: Seq<char>| fields_call(fields@, x), h);
                }
            },
            StatementKind::Expression { expression } => {
                collect_expression_calls(expression, names, calls);
                proof {
                    assert forall|x: Seq<char>| #[trigger] h(x) == (f(x) || calls_name(*expression, x)) by {
                        assert(statements_call(st.take(i + 1), x) == (statements_call(st.take(i as int), x)
                            || statement_calls(st[i as int], x)));
                        assert(statement_calls(st[i as int], x) == calls_name(*expression, x));
                    }
                    lemma_gains_chain(
                        old(calls)@,
                        mid,
                        calls@,
                        names@,
                        f,
                        |x: Seq<char>| calls_name(*expression, x),
                        h,
                    );
                }
            },
        }
        i = i + 1;
    }
    proof {
        assert(st.take(st.len() as int) =~= st);
    }
}

fn collect_field_calls(fields: &Vec<crate::ast::FieldInitializer>, names: &Vec<String>, calls: &mut Vec<String>)
    ensures
        gains_calls(old(calls)@, final(calls)@, names@, |x: Seq<char>| fields_call(fields@, x)),
    decreases fields@, 0nat,
{
    let mut i: usize = 0;
    proof {
        lemma_gains_nothing(calls@, names@, |x: Seq<char>| fields_call(fields@.take(0), x));
    }
    while i < fields.len()
        invariant
            i <= fields@.len(),
            gains_calls(old(calls)@, calls@, names@, |x: Seq<char>| fields_call(fields@.take(i as int), x)),
        decreases fields@.len() - i,
    {
        proof {
            assert(fields@.take(i + 1).drop_last() =~= fields@.take(i as int));
            assert(fields@.take(i + 1).last() == fields@[i as int]);
        }
        let ghost mid = calls@;
        collect_expression_calls(&fields[i].value, names, calls);
        proof {
            lemma_gains_chain(
                old(calls)@,
                mid,
                calls@,
                names@,
                |x: Seq<char>| fields_call(fields@.take(i as int), x),
                |x: Seq<char>| calls_name(fields@[i as int].value, x),
                |x: Seq<char>| fields_call(fields@.take(i + 1), x),
            );
        }
        i = i + 1;
    }
    proof {
        assert(fields@.take(fields@.len() as int) =~= fields@);
    }
}

fn collect_argument_calls(arguments: &Vec<crate::ast::Argument>, names: &Vec<String>, calls: &mut Vec<String>)
    ensures
        gains_calls(old(calls)@, final(calls)@, names@, |x: Seq<char>| arguments_call(arguments@, x)),
    decreases arguments@, 0nat,
{
    let mut i: usize = 0;
    proof {
        lemma_gains_nothing(calls@, names@, |x: Seq<char>| arguments_call(arguments@.take(0), x));
    }
    while i < arguments.len()
        invariant
            i <= arguments@.len(),
            gains_calls(old(calls)@, calls@, names@, |x: Seq<char>| arguments_call(arguments@.take(i as int), x)),
        decreases arguments@.len() - i,
    {
        proof {
            assert(arguments@.take(i + 1).drop_last() =~= arguments@.take(i as int));
            assert(arguments@.take(i + 1).last() == arguments@[i as int]);
        }
        let ghost mid = calls@;
        collect_expression_calls(&arguments[i].value, names, calls);
        proof {
            lemma_gains_chain(
                old(calls)@,
                mid,
                calls@,
                names@,
                |x: Seq<char>| arguments_call(arguments@.take(i as int), x),
                |x: Seq<char>| calls_name(arguments@[i as int].value, x),
                |x: Seq<char>| arguments_call(arguments@.take(i + 1), x),
            );
        }
        i = i + 1;
    }
    proof {
        assert(arguments@.take(arguments@.len() as int) =~= arguments@);
    }
}

fn collect_element_calls(elements: &Vec<Expression>, names: &Vec<String>, calls: &mut Vec<String>)
    ensures
        gains_calls(old(calls)@, final(calls)@, names@, |x: Seq<char>| elements_call(elements@, x)),
    decreases elements@, 0nat,
{
    let mut i: usize = 0;
    proof {
        lemma_gains_nothing(calls@, names@, |x: Seq<char>| elements_call(elements@.take(0), x));
    }
    while i < elements.len()
        invariant
            i <= elements@.len(),
            gains_calls(old(calls)@, calls@, names@, |x: Seq<char>| elements_call(elements@.take(i as int), x)),
        decreases elements@.len() - i,
    {
        proof {
            assert(elements@.take(i + 1).drop_last() =~= elements@.take(i as int));
            assert(elements@.take(i + 1).last() == elements@[i as int]);
        }
        let ghost mid = calls@;
        collect_expression_calls(&elements[i], names, calls);
        proof {
            lemma_gains_chain(
                old(calls)@,
                mid,
                calls@,
                names@,
                |x: Seq<char>| elements_call(elements@.take(i as int), x),
                |x: Seq<char>| calls_name(elements@[i as int], x),
                |x: Seq<char>| elements_call(elements@.take(i + 1), x),
            );
        }
        i = i + 1;
    }
    proof {
        assert(elements@.take(elements@.len() as int) =~= elements@);
    }
}

fn collect_arm_calls(arms: &Vec<crate::ast::MatchArm>, names: &Vec<String>, calls: &mut Vec<String>)
    ensures
        gains_calls(old(calls)@, final(calls)@, names@, |x: Seq<char>| arms_call(arms@, x)),
    decreases arms@, 0nat,
{
    let mut i: usize = 0;
    proof {
        lemma_gains_nothing(calls@, names@, |x: Seq<char>| arms_call(arms@.take(0), x));
    }
    while i < arms.len()
        invariant
            i <= arms@.len(),
            gains_calls(old(calls)@, calls@, names@, |x: Seq<char>| arms_call(arms@.take(i as int), x)),
        decreases arms@.len() - i,
    {
        proof {
            assert(arms@.take(i + 1).drop_last() =~= arms@.take(i as int));
            assert(arms@.take(i + 1).last() == arms@[i as int]);
        }
        let ghost mid = calls@;
        collect_expression_calls(&arms[i].value, names, calls);
        proof {
            lemma_gains_chain(
                old(calls)@,
                mid,
                calls@,
                names@,
                |x: Seq<char>| arms_call(arms@.take(i as int), x),
                |x: Seq<char>| calls_name(arms@[i as int].value, x),
                |x: Seq<char>| arms_call(arms@.take(i + 1), x),
            );
        }
        i = i + 1;
    }
    proof {
        assert(arms@.take(arms@.len() as int) =~= arms@);
    }
}

/// Records the declared callables that an expression calls by a one-segment name.
fn collect_expression_calls(expression: &Expression, names: &Vec<String>, calls: &mut Vec<String>)
    ensures
        gains_calls(old(calls)@, final(calls)@, names@, |x: Seq<char>| calls_name(*expression, x)),
    decreases expression, 1nat,
{
    match &expression.kind {
        ExpressionKind::Call { callee, arguments } => {
            if let ExpressionKind::Path { path } = &callee.kind {
                if path.segments.len() == 1 {
                    record_call(calls, names, path.segments[0].as_str());
                }
            }
            collect_expression_calls(callee, names, calls);
            collect_argument_calls(arguments, names, calls);
        },
        ExpressionKind::List { elements } => collect_element_calls(elements, names, calls),
        ExpressionKind::Record { fields, .. } | ExpressionKind::Intent { fields, .. } => {
            collect_field_calls(fields, names, calls);
        },
        ExpressionKind::Field { target, .. } | ExpressionKind::Unary { operand: target, .. }
        | ExpressionKind::Try { value: target } | ExpressionKind::Validate {
            candidate: target,
            ..
        } => collect_expression_calls(target, names, calls),
        ExpressionKind::Binary { left, right, .. } => {
            collect_expression_calls(left, names, calls);
            collect_expression_calls(right, names, calls);
        },
        ExpressionKind::If { condition, then_block, else_block } => {
            collect_expression_calls(condition, names, calls);
            collect_block_calls(then_block, names, calls);
            collect_block_calls(else_block, names, calls);
        },
        ExpressionKind::Match { value, arms } => {
            collect_expression_calls(value, names, calls);
            collect_arm_calls(arms, names, calls);
        },
        ExpressionKind::Infer { arguments, .. } | ExpressionKind::Observe { arguments, .. } => {
            collect_argument_calls(arguments, names, calls);
        },
        ExpressionKind::Propose { arguments, intent, .. } => {
            collect_argument_calls(arguments, names, calls);
            collect_expression_calls(intent, names, calls);
        },
        ExpressionKind::Authorize { proposal, .. } => {
            collect_expression_calls(proposal, names, calls);
        },
        ExpressionKind::Commit { proposal, permit } => {
            collect_expression_calls(proposal, names, calls);
            collect_expression_calls(permit, names, calls);
        },
        ExpressionKind::Reconcile { receipt, observation, .. } => {
            collect_expression_calls(receipt, names, calls);
            collect_expression_calls(observation, names, calls);
        },
        _ => {},
    }
}

/// Whether `target` is reachable from `current` through at least one call.
/// The successors of `current` in `graph`: those of its first entry.
pub open spec fn graph_successors(graph: Seq<(String, Vec<String>)>, current: Seq<char>) -> Option<
    Seq<Seq<char>>,
> {
    match crate::table::position_of(graph, current) {
        Some(i) => Some(crate::ast::string_views(graph[i].1@)),
        None => None,
    }
}

/// Whether `target` is reached from `current` in at most `depth` steps
/// without passing through a visited node.
pub open spec fn reaches_within(
    graph: Seq<(String, Vec<String>)>,
    current: Seq<char>,
    target: Seq<char>,
    visited: Seq<Seq<char>>,
    depth: nat,
) -> bool
    decreases depth, 0nat,
{
    if depth == 0 || visited.contains(current) {
        false
    } else {
        match graph_successors(graph, current) {
            None => false,
            Some(next) => next.contains(target) || any_reaches(
                graph,
                next,
                target,
                visited.push(current),
                (depth - 1) as nat,
            ),
        }
    }
}

/// Whether `target` is reached from one of `nodes` in at most `depth`
/// steps without passing through a visited node.
pub open spec fn any_reaches(
    graph: Seq<(String, Vec<String>)>,
    nodes: Seq<Seq<char>>,
    target: Seq<char>,
    visited: Seq<Seq<char>>,
    depth: nat,
) -> bool
    decreases depth, nodes.len() + 1,
{
    if nodes.len() == 0 {
        false
    } else {
        any_reaches(graph, nodes.drop_last(), target, visited, depth) || reaches_within(
            graph,
            nodes.last(),
            target,
            visited,
            depth,
        )
    }
}

/// Reaching from a prefix of the nodes is reaching from the nodes.
proof fn lemma_any_reaches_prefix(
    graph: Seq<(String, Vec<String>)>,
    nodes: Seq<Seq<char>>,
    target: Seq<char>,
    visited: Seq<Seq<char>>,
    depth: nat,
    n: int,
)
    requires
        0 <= n <= nodes.len(),
        any_reaches(graph, nodes.take(n), target, visited, depth),
    ensures
        any_reaches(graph, nodes, target, visited, depth),
    decreases nodes.len() - n,
{
    if n < nodes.len() {
        assert(nodes.take(n + 1).drop_last() =~= nodes.take(n));
        lemma_any_reaches_prefix(graph, nodes, target, visited, depth, n + 1);
    } else {
        assert(nodes.take(n) =~= nodes);
    }
}

fn reaches(
    graph: &Vec<(String, Vec<String>)>,
    current: &str,
    target: &str,
    visited: &mut Vec<String>,
    depth: u64,
) -> (found: bool)
    ensures
        crate::ast::string_views(final(visited)@) == crate::ast::string_views(old(visited)@),
        found == reaches_within(
            graph@,
            current@,
            target@,
            crate::ast::string_views(old(visited)@),
            depth as nat,
        ),
    decreases depth,
{
    let ghost seen = crate::ast::string_views(visited@);
    let ghost d: nat = ((depth as nat) - 1) as nat;
    proof {
        crate::model::lemma_contains_text(visited@, current@);
    }
    if depth == 0 || contains_text(visited, current) {
        return false;
    }
    visited.push(String::from_str(current));
    proof {
        assert(crate::ast::string_views(visited@) =~= seen.push(current@));
        crate::table::lemma_position_bounds(graph@, current@);
    }
    let node = crate::table::find(graph, current);
    let found = match node {
        None => false,
        Some(index) => {
            let next = &graph[index].1;
            let ghost succ = crate::ast::string_views(next@);
            proof {
                crate::model::lemma_contains_text(next@, target@);
                assert(graph_successors(graph@, current@) == Some(succ));
            }
            if contains_text(next, target) {
                true
            } else {
                let mut any = false;
                let mut k: usize = 0;
                proof {
                    assert(succ.take(0) =~= Seq::<Seq<char>>::empty());
                }
                while k < next.len() && !any
                    invariant
                        depth > 0,
                        d == ((depth as nat) - 1) as nat,
                        k <= next@.len(),
                        succ == crate::ast::string_views(next@),
                        crate::ast::string_views(visited@) == seen.push(current@),
                        any == any_reaches(graph@, succ.take(k as int), target@, seen.push(current@), d),
                    decreases next@.len() - k,
                {
                    proof {
                        assert(succ[k as int] == next@[k as int]@);
                        assert(succ.take(k + 1).drop_last() =~= succ.take(k as int));
                        assert(succ.take(k + 1).last() == succ[k as int]);
                    }
                    any = reaches(graph, next[k].as_str(), target, visited, depth - 1);
                    k = k + 1;
                }
                proof {
                    if !any {
                        assert(succ.take(succ.len() as int) =~= succ);
                    } else {
                        lemma_any_reaches_prefix(graph@, succ, target@, seen.push(current@), d, k as int);
                    }
                }
                any
            }
        },
    };
    let ghost before_pop = visited@;
    proof {
        assert(crate::ast::string_views(before_pop) == seen.push(current@));
        assert(before_pop.len() == seen.len() + 1);
    }
    if visited.len() > 0 {
        visited.pop();
    }
    proof {
        assert forall|i: int| 0 <= i < seen.len() implies #[trigger] crate::ast::string_views(visited@)[i]
            == seen[i] by {
            assert(visited@[i] == before_pop[i]);
            assert(crate::ast::string_views(before_pop)[i] == seen.push(current@)[i]);
        }
        assert(crate::ast::string_views(visited@) =~= seen);
    }
    found
}

fn check_recursion(module: &Module, out: &mut Vec<Diagnostic>)
    ensures
        extends(old(out)@, final(out)@),
{
    let decls = &module.declarations;
    let mut entries: Vec<(String, usize)> = Vec::new();
    let mut d: usize = 0;
    while d < decls.len()
        invariant
            forall|k: int| 0 <= k < entries@.len() ==> entries@[k].1 < decls@.len(),
        decreases decls@.len() - d,
    {
        match &decls[d].kind {
            DeclarationKind::Function(function) | DeclarationKind::Flow(function) => {
                let mut known: Option<usize> = None;
                let mut k: usize = 0;
                while k < entries.len()
                    invariant
                        known matches Some(f) ==> f < entries@.len(),
                    decreases entries@.len() - k,
                {
                    if str_equal(entries[k].0.as_str(), function.name.as_str()) {
                        known = Some(k);
                    }
                    k = k + 1;
                }
                match known {
                    Some(f) => entries.set(f, (function.name.clone(), d)),
                    None => entries.push((function.name.clone(), d)),
                }
            },
            _ => {},
        }
        d = d + 1;
    }
    let mut names: Vec<String> = Vec::new();
    let mut k: usize = 0;
    while k < entries.len()
        decreases entries@.len() - k,
    {
        names.push(entries[k].0.clone());
        k = k + 1;
    }
    let names = crate::expression::sort_names(names);
    let mut graph: Vec<(String, Vec<String>)> = Vec::new();
    let mut k: usize = 0;
    while k < entries.len()
        invariant
            forall|q: int| 0 <= q < entries@.len() ==> entries@[q].1 < decls@.len(),
        decreases entries@.len() - k,
    {
        let mut calls: Vec<String> = Vec::new();
        match &decls[entries[k].1].kind {
            DeclarationKind::Function(function) | DeclarationKind::Flow(function) => {
                collect_block_calls(&function.body, &names, &mut calls);
            },
            _ => {},
        }
        graph.push((entries[k].0.clone(), calls));
        k = k + 1;
    }
    let mut k: usize = 0;
    while k < names.len()
        invariant
            extends(old(out)@, out@),
            forall|q: int| 0 <= q < entries@.len() ==> entries@[q].1 < decls@.len(),
        decreases names@.len() - k,
    {
        let name = names[k].as_str();
        let mut index: Option<usize> = None;
        let mut e: usize = 0;
        while e < entries.len()
            invariant
                index matches Some(f) ==> f < decls@.len(),
                forall|q: int| 0 <= q < entries@.len() ==> entries@[q].1 < decls@.len(),
            decreases entries@.len() - e,
        {
            if str_equal(entries[e].0.as_str(), name) {
                index = Some(entries[e].1);
            }
            e = e + 1;
        }
        let mut visited: Vec<String> = Vec::new();
        if let Some(index) = index {
            if reaches(&graph, name, name, &mut visited, WALK_DEPTH) {
                let message = concat3("recursive call cycle includes `", name, "`");
                report(
                    out,
                    KnownDiagnosticCode::Recursion,
                    message.as_str(),
                    &decls[index].span,
                    "replace recursion with finite non-recursive computation",
                );
            }
        }
        k = k + 1;
    }
}

/// The result is a rejection that reports `code` at `span`.
pub open spec fn rejected_with(
    result: Result<CheckedProgram, Vec<Diagnostic>>,
    code: KnownDiagnosticCode,
    span: Span,
) -> bool {
    match result {
        Ok(_) => false,
        Err(diagnostics) => reports_at(diagnostics@, code, span),
    }
}

/// Statically checks an already parsed module: declarations, types, secrets,
/// capabilities, metadata, recursion and executable bodies. The module comes
/// back as a checked program when nothing is found; otherwise every finding
/// is returned, ordered by start offset and then by code.
pub fn check(module: Module) -> (result: Result<CheckedProgram, Vec<Diagnostic>>)
    ensures
        result matches Ok(program) ==> program.checked_module() == module && checked_clean(module),
        result matches Err(diagnostics) ==> diagnostics@.len() > 0 && sorted_by_start_and_code(
            diagnostics@,
        ),
        forall|j: int|
            0 <= j < module.declarations@.len() && repeats_identity(module.declarations@, j)
                ==> rejected_with(result,
                KnownDiagnosticCode::DuplicateDeclaration,
                #[trigger] module.declarations@[j].span,
            ),
        forall|d: int|
            0 <= d < module.declarations@.len() && metadata_defect(#[trigger] module.declarations@[d])
                ==> (result matches Err(diagnostics) && metadata_checked(
                diagnostics@,
                module.declarations@[d],
            )),
        result matches Err(diagnostics) ==> forall|d: int|
            0 <= d < module.declarations@.len() ==> declaration_types_checked(
                diagnostics@,
                module,
                (#[trigger] module.declarations@[d]).kind,
            ) && capabilities_checked(diagnostics@, module, module.declarations@[d].kind)
                && body_literal_operands_checked(diagnostics@, module.declarations@[d].kind),
{
    let mut out: Vec<Diagnostic> = Vec::new();
    check_duplicate_declarations(&module, &mut out);
    let ghost first = out@;
    check_type_well_formedness(&module, &mut out);
    let ghost after_types = out@;
    check_secret_type_placement(&module, &mut out);
    check_capability_requests(&module, &mut out);
    let ghost after_capabilities = out@;
    let ghost before_metadata = out@;
    check_declaration_metadata(&module, &mut out);
    let ghost after_metadata = out@;
    check_recursion(&module, &mut out);
    check_executable_bodies(&module, &mut out);
    proof {
        lemma_reports_kept(first, before_metadata);
        lemma_reports_kept(first, out@);
        lemma_reports_kept(after_metadata, out@);
    }
    if out.len() == 0 {
        proof {
            assert forall|j: int|
                0 <= j < module.declarations@.len() && repeats_identity(module.declarations@, j)
                    implies false by {
                assert(reports_at(
                    first,
                    KnownDiagnosticCode::DuplicateDeclaration,
                    module.declarations@[j].span,
                ));
            }
            assert forall|d: int| 0 <= d < module.declarations@.len() implies !metadata_defect(
                #[trigger] module.declarations@[d],
            ) by {
                assert(metadata_checked(after_metadata, module.declarations@[d]));
                lemma_metadata_checked_kept(after_metadata, out@, module.declarations@[d]);
                assert(out@ =~= Seq::<Diagnostic>::empty());
                lemma_metadata_checked_empty(module.declarations@[d]);
                lemma_reports_kept(after_types, out@);
                lemma_declaration_types_reported(after_types, out@, module, module.declarations@[d].kind);
                lemma_reports_kept(after_capabilities, out@);
                lemma_capabilities_reported(after_capabilities, out@, module, module.declarations@[d].kind);
                assert(body_literal_operands_checked(out@, module.declarations@[d].kind));
            }
        }
        Ok(CheckedProgram { module })
    } else {
        let ghost collected = out@;
        let sorted = sort_diagnostics(out);
        proof {
            lemma_reports_permuted(collected, sorted@);
            assert forall|d: int| 0 <= d < module.declarations@.len() implies metadata_checked(
                sorted@,
                #[trigger] module.declarations@[d],
            ) by {
                assert(metadata_checked(after_metadata, module.declarations@[d]));
                lemma_metadata_checked_kept(after_metadata, collected, module.declarations@[d]);
                lemma_metadata_checked_kept(collected, sorted@, module.declarations@[d]);
            }
            lemma_reports_kept(after_types, collected);
            lemma_reports_kept(after_capabilities, collected);
            assert forall|d: int| 0 <= d < module.declarations@.len() implies declaration_types_checked(
                sorted@,
                module,
                (#[trigger] module.declarations@[d]).kind,
            ) && capabilities_checked(sorted@, module, module.declarations@[d].kind)
                && body_literal_operands_checked(sorted@, module.declarations@[d].kind) by {
                lemma_declaration_types_reported(after_types, collected, module, module.declarations@[d].kind);
                lemma_declaration_types_reported(collected, sorted@, module, module.declarations@[d].kind);
                lemma_capabilities_reported(after_capabilities, collected, module, module.declarations@[d].kind);
                lemma_capabilities_reported(collected, sorted@, module, module.declarations@[d].kind);
                lemma_body_literal_operands_reported(collected, sorted@, module.declarations@[d].kind);
            }
        }
        Err(sorted)
    }
}

/// Reordering a list of diagnostics keeps what it reports.
pub proof fn lemma_reports_permuted(a: Seq<Diagnostic>, b: Seq<Diagnostic>)
    requires
        a.to_multiset() == b.to_multiset(),
    ensures
        forall|code: KnownDiagnosticCode, span: Span|
            reports_at(a, code, span) ==> #[trigger] reports_at(b, code, span),
{
    broadcast use vstd::seq_lib::group_to_multiset_ensures;

    assert forall|code: KnownDiagnosticCode, span: Span|
        reports_at(a, code, span) implies #[trigger] reports_at(b, code, span) by {
        let w = choose|w: int|
            0 <= w < a.len() && (#[trigger] a[w]).code@ == known_code_text(code)
                && a[w].primary_span == span;
        assert(a.contains(a[w]));
        assert(a.to_multiset().count(a[w]) > 0);
        assert(b.to_multiset().count(a[w]) > 0);
        assert(b.contains(a[w]));
        let v = choose|v: int| 0 <= v < b.len() && b[v] == a[w];
        assert(b[v].code@ == known_code_text(code));
    }
}

/// Parses and statically checks one source file.
pub fn check_source(source: &SourceFile) -> (result: Result<CheckedProgram, Vec<Diagnostic>>)
    requires
        fits_in_memory(source.spec_text()),
    ensures
        result matches Err(diagnostics) ==> diagnostics@.len() > 0,
        result matches Ok(program) ==> checked_clean(program.checked_module()),
{
    let module = parse(source)?;
    check(module)
}

/// The expression a statement evaluates at its top, if any.
pub open spec fn statement_expression(statement: crate::ast::Statement) -> Option<crate::ast::Expression> {
    match statement.kind {
        crate::ast::StatementKind::Let { value, .. } => Some(value),
        crate::ast::StatementKind::Require { condition } => Some(condition),
        crate::ast::StatementKind::Return { value } => Some(value),
        crate::ast::StatementKind::Expression { expression } => Some(expression),
        crate::ast::StatementKind::UpdateState { .. } => None,
    }
}

/// A module is not clean, so `check` rejects it, when a statement of a
/// function or flow body evaluates a binary operator with a literal operand
/// whose type differs from the one the operator requires, such as
/// `a < "ten"`.
pub proof fn law_mistyped_literal_operand_rejected(module: Module, d: int, i: int)
    requires
        0 <= d < module.declarations@.len(),
        module.declarations@[d].kind matches DeclarationKind::Function(f) || module.declarations@[d].kind matches DeclarationKind::Flow(f),
        ({
            let f = match module.declarations@[d].kind {
                DeclarationKind::Function(f) => f,
                DeclarationKind::Flow(f) => f,
                _ => arbitrary(),
            };
            &&& 0 <= i < f.body.statements@.len()
            &&& statement_expression(f.body.statements@[i]) matches Some(e)
            &&& e.kind matches crate::ast::ExpressionKind::Binary { left, operator, right }
            &&& crate::expression::operand_type(operator) matches Some(required)
            &&& ((crate::expression::literal_type(left.kind) matches Some(t) && !crate::types::type_eq(required, t))
                || (crate::expression::literal_type(right.kind) matches Some(t) && !crate::types::type_eq(
                required,
                t,
            )))
        }),
    ensures
        !checked_clean(module),
{
    let f = match module.declarations@[d].kind {
        DeclarationKind::Function(f) => f,
        DeclarationKind::Flow(f) => f,
        _ => arbitrary(),
    };
    if checked_clean(module) {
        assert(body_literal_operands_sound(module.declarations@[d].kind));
        assert(crate::expression::statement_literal_operands_checked(
            Seq::<Diagnostic>::empty(),
            f.body.statements@[i],
        ));
    }
}

/// A module with no repeated declaration identity and no metadata defect.
pub open spec fn checked_clean(module: Module) -> bool {
    &&& forall|j: int|
        0 <= j < module.declarations@.len() ==> !repeats_identity(
            module.declarations@,
            j,
        ) && !metadata_defect(#[trigger] module.declarations@[j]) && declaration_types_sound(
            module,
            module.declarations@[j].kind,
        ) && capabilities_sound(module, module.declarations@[j].kind) && body_literal_operands_sound(
            module.declarations@[j].kind,
        )
}

} // verus!
