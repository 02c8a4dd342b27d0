use vstd::prelude::*;

use crate::ast::{
    AgentDeclaration, Declaration, DeclarationKind, EnumDeclaration, FunctionDeclaration, Module,
    PolicyDeclaration, PromptDeclaration, SignatureDeclaration, ToolDeclaration, TypeDeclaration,
    TypeDefinition, TypeReference, ValidatorDeclaration, dotted, string_views,
};
use crate::text::{push_char, push_str, str_equal};
use crate::types::Type;

verus! {

/// Depth bound of every recursive walk over types, aliases and calls. Walks
/// over the declarations of a real module stay far below it; a module whose
/// aliases reach themselves through type constructors would otherwise be
/// walked without end, and there the bound ends the walk.
pub const WALK_DEPTH: u64 = 1024;

/// Namespaces in which declarations are found by name.
#[derive(Clone, Copy, Debug, PartialEq, Eq, Structural)]
pub enum Namespace {
    /// Alias and record declarations.
    Type,
    /// Enum declarations.
    Enum,
    /// Capability signatures.
    Capability,
    /// Prompt declarations.
    Prompt,
    /// Validator declarations.
    Validator,
    /// Pure functions.
    Function,
    /// Effectful flows.
    Flow,
    /// Tools, by dotted path.
    Tool,
    /// Policies.
    Policy,
    /// Agents.
    Agent,
}

/// The name under which a declaration is filed: the dotted path of a tool,
/// the name of any other declaration.
pub open spec fn declared_name(kind: DeclarationKind) -> Seq<char> {
    match kind {
        DeclarationKind::Type(v) => v.name@,
        DeclarationKind::Enum(v) => v.name@,
        DeclarationKind::Capability(v) => v.name@,
        DeclarationKind::Function(v) => v.name@,
        DeclarationKind::Flow(v) => v.name@,
        DeclarationKind::Prompt(v) => v.name@,
        DeclarationKind::Validator(v) => v.name@,
        DeclarationKind::Tool(v) => dotted(string_views(v.path.segments@)),
        DeclarationKind::Policy(v) => v.name@,
        DeclarationKind::Agent(v) => v.name@,
    }
}

/// The namespace of a declaration form.
pub open spec fn namespace_of(kind: DeclarationKind) -> Namespace {
    match kind {
        DeclarationKind::Type(_) => Namespace::Type,
        DeclarationKind::Enum(_) => Namespace::Enum,
        DeclarationKind::Capability(_) => Namespace::Capability,
        DeclarationKind::Function(_) => Namespace::Function,
        DeclarationKind::Flow(_) => Namespace::Flow,
        DeclarationKind::Prompt(_) => Namespace::Prompt,
        DeclarationKind::Validator(_) => Namespace::Validator,
        DeclarationKind::Tool(_) => Namespace::Tool,
        DeclarationKind::Policy(_) => Namespace::Policy,
        DeclarationKind::Agent(_) => Namespace::Agent,
    }
}

/// Whether a declaration files `name` in `namespace`.
pub open spec fn declares(kind: DeclarationKind, namespace: Namespace, name: Seq<char>) -> bool {
    namespace_of(kind) == namespace && declared_name(kind) == name
}

/// Index of the first declaration filing `name` in `namespace`; later ones are
/// shadowed (and reported as duplicates).
pub open spec fn first_declaring(
    decls: Seq<Declaration>,
    namespace: Namespace,
    name: Seq<char>,
) -> Option<int>
    decreases decls.len(),
{
    if decls.len() == 0 {
        None
    } else {
        match first_declaring(decls.drop_last(), namespace, name) {
            Some(i) => Some(i),
            None => if declares(decls.last().kind, namespace, name) {
                Some(decls.len() - 1)
            } else {
                None
            },
        }
    }
}

/// The first declaration filing `name` in `namespace` lies in range and files it.
pub proof fn lemma_first_declaring(decls: Seq<Declaration>, namespace: Namespace, name: Seq<char>)
    ensures
        first_declaring(decls, namespace, name) matches Some(i) ==> 0 <= i < decls.len()
            && declares(decls[i].kind, namespace, name),
    decreases decls.len(),
{
    if decls.len() > 0 {
        lemma_first_declaring(decls.drop_last(), namespace, name);
    }
}

fn files(kind: &DeclarationKind, namespace: Namespace, name: &str) -> (found: bool)
    ensures
        found == declares(*kind, namespace, name@),
{
    match kind {
        DeclarationKind::Type(v) => namespace == Namespace::Type && str_equal(v.name.as_str(), name),
        DeclarationKind::Enum(v) => namespace == Namespace::Enum && str_equal(v.name.as_str(), name),
        DeclarationKind::Capability(v) => namespace == Namespace::Capability && str_equal(
            v.name.as_str(),
            name,
        ),
        DeclarationKind::Function(v) => namespace == Namespace::Function && str_equal(
            v.name.as_str(),
            name,
        ),
        DeclarationKind::Flow(v) => namespace == Namespace::Flow && str_equal(v.name.as_str(), name),
        DeclarationKind::Prompt(v) => namespace == Namespace::Prompt && str_equal(
            v.name.as_str(),
            name,
        ),
        DeclarationKind::Validator(v) => namespace == Namespace::Validator && str_equal(
            v.name.as_str(),
            name,
        ),
        DeclarationKind::Tool(v) => {
            if namespace != Namespace::Tool {
                return false;
            }
            let path = v.path.as_string();
            str_equal(path.as_str(), name)
        },
        DeclarationKind::Policy(v) => namespace == Namespace::Policy && str_equal(
            v.name.as_str(),
            name,
        ),
        DeclarationKind::Agent(v) => namespace == Namespace::Agent && str_equal(v.name.as_str(), name),
    }
}

/// Finds the first declaration filing `name` in `namespace`.
pub fn find_declaration(module: &Module, namespace: Namespace, name: &str) -> (found: Option<usize>)
    ensures
        match found {
            Some(i) => first_declaring(module.declarations@, namespace, name@) == Some(i as int),
            None => first_declaring(module.declarations@, namespace, name@) is None,
        },
{
    let mut i: usize = 0;
    while i < module.declarations.len()
        invariant
            i <= module.declarations@.len(),
            first_declaring(module.declarations@.take(i as int), namespace, name@) is None,
        decreases module.declarations@.len() - i,
    {
        proof {
            let next = module.declarations@.take(i + 1);
            assert(next.drop_last() =~= module.declarations@.take(i as int));
            assert(next.last() == module.declarations@[i as int]);
        }
        if files(&module.declarations[i].kind, namespace, name) {
            proof {
                lemma_first_prefix(module.declarations@, namespace, name@, i as int);
                assert(first_declaring(module.declarations@, namespace, name@) == Some(i as int));
            }
            return Some(i);
        }
        i = i + 1;
    }
    proof {
        assert(module.declarations@.take(module.declarations@.len() as int) =~= module.declarations@);
    }
    None
}

proof fn lemma_first_prefix(decls: Seq<Declaration>, namespace: Namespace, name: Seq<char>, i: int)
    requires
        0 <= i < decls.len(),
        first_declaring(decls.take(i), namespace, name) is None,
        declares(decls[i].kind, namespace, name),
    ensures
        first_declaring(decls, namespace, name) == Some(i),
    decreases decls.len(),
{
    if i < decls.len() - 1 {
        assert(decls.drop_last().take(i) =~= decls.take(i));
        lemma_first_prefix(decls.drop_last(), namespace, name, i);
    } else {
        assert(decls.drop_last() =~= decls.take(i));
    }
}

/// The type declaration named `name`, if any.
pub fn type_declaration<'m>(module: &'m Module, name: &str) -> (found: Option<&'m TypeDeclaration>)
    ensures
        match found {
            Some(d) => first_declaring(module.declarations@, Namespace::Type, name@) matches Some(
                i,
            ) && module.declarations@[i].kind == DeclarationKind::Type(*d),
            None => first_declaring(module.declarations@, Namespace::Type, name@) is None,
        },
{
    proof {
        lemma_first_declaring(module.declarations@, Namespace::Type, name@);
    }
    match find_declaration(module, Namespace::Type, name) {
        Some(i) => match &module.declarations[i].kind {
            DeclarationKind::Type(v) => Some(v),
            _ => None,
        },
        None => None,
    }
}

/// The enum declaration named `name`, if any.
pub fn enum_declaration<'m>(module: &'m Module, name: &str) -> (found: Option<&'m EnumDeclaration>)
    ensures
        match found {
            Some(d) => first_declaring(module.declarations@, Namespace::Enum, name@) matches Some(
                i,
            ) && module.declarations@[i].kind == DeclarationKind::Enum(*d),
            None => first_declaring(module.declarations@, Namespace::Enum, name@) is None,
        },
{
    proof {
        lemma_first_declaring(module.declarations@, Namespace::Enum, name@);
    }
    match find_declaration(module, Namespace::Enum, name) {
        Some(i) => match &module.declarations[i].kind {
            DeclarationKind::Enum(v) => Some(v),
            _ => None,
        },
        None => None,
    }
}

/// The capability declaration named `name`, if any.
pub fn capability_declaration<'m>(module: &'m Module, name: &str) -> (found: Option<
    &'m SignatureDeclaration,
>)
    ensures
        match found {
            Some(d) => first_declaring(
                module.declarations@,
                Namespace::Capability,
                name@,
            ) matches Some(i) && module.declarations@[i].kind == DeclarationKind::Capability(*d),
            None => first_declaring(module.declarations@, Namespace::Capability, name@) is None,
        },
{
    proof {
        lemma_first_declaring(module.declarations@, Namespace::Capability, name@);
    }
    match find_declaration(module, Namespace::Capability, name) {
        Some(i) => match &module.declarations[i].kind {
            DeclarationKind::Capability(v) => Some(v),
            _ => None,
        },
        None => None,
    }
}

/// The prompt declaration named `name`, if any.
pub fn prompt_declaration<'m>(module: &'m Module, name: &str) -> (found: Option<
    &'m PromptDeclaration,
>)
    ensures
        match found {
            Some(d) => first_declaring(module.declarations@, Namespace::Prompt, name@) matches Some(
                i,
            ) && module.declarations@[i].kind == DeclarationKind::Prompt(*d),
            None => first_declaring(module.declarations@, Namespace::Prompt, name@) is None,
        },
{
    proof {
        lemma_first_declaring(module.declarations@, Namespace::Prompt, name@);
    }
    match find_declaration(module, Namespace::Prompt, name) {
        Some(i) => match &module.declarations[i].kind {
            DeclarationKind::Prompt(v) => Some(v),
            _ => None,
        },
        None => None,
    }
}

/// The validator declaration named `name`, if any.
pub fn validator_declaration<'m>(module: &'m Module, name: &str) -> (found: Option<
    &'m ValidatorDeclaration,
>)
    ensures
        match found {
            Some(d) => first_declaring(
                module.declarations@,
                Namespace::Validator,
                name@,
            ) matches Some(i) && module.declarations@[i].kind == DeclarationKind::Validator(*d),
            None => first_declaring(module.declarations@, Namespace::Validator, name@) is None,
        },
{
    proof {
        lemma_first_declaring(module.declarations@, Namespace::Validator, name@);
    }
    match find_declaration(module, Namespace::Validator, name) {
        Some(i) => match &module.declarations[i].kind {
            DeclarationKind::Validator(v) => Some(v),
            _ => None,
        },
        None => None,
    }
}

/// The function declaration named `name`, if any.
pub fn function_declaration<'m>(module: &'m Module, name: &str) -> (found: Option<
    &'m FunctionDeclaration,
>)
    ensures
        match found {
            Some(d) => first_declaring(
                module.declarations@,
                Namespace::Function,
                name@,
            ) matches Some(i) && module.declarations@[i].kind == DeclarationKind::Function(*d),
            None => first_declaring(module.declarations@, Namespace::Function, name@) is None,
        },
{
    proof {
        lemma_first_declaring(module.declarations@, Namespace::Function, name@);
    }
    match find_declaration(module, Namespace::Function, name) {
        Some(i) => match &module.declarations[i].kind {
            DeclarationKind::Function(v) => Some(v),
            _ => None,
        },
        None => None,
    }
}

/// The flow declaration named `name`, if any.
pub fn flow_declaration<'m>(module: &'m Module, name: &str) -> (found: Option<
    &'m FunctionDeclaration,
>)
    ensures
        match found {
            Some(d) => first_declaring(module.declarations@, Namespace::Flow, name@) matches Some(
                i,
            ) && module.declarations@[i].kind == DeclarationKind::Flow(*d),
            None => first_declaring(module.declarations@, Namespace::Flow, name@) is None,
        },
{
    proof {
        lemma_first_declaring(module.declarations@, Namespace::Flow, name@);
    }
    match find_declaration(module, Namespace::Flow, name) {
        Some(i) => match &module.declarations[i].kind {
            DeclarationKind::Flow(v) => Some(v),
            _ => None,
        },
        None => None,
    }
}

/// The tool declared at dotted path `name`, if any.
pub fn tool_declaration<'m>(module: &'m Module, name: &str) -> (found: Option<&'m ToolDeclaration>)
    ensures
        match found {
            Some(d) => first_declaring(module.declarations@, Namespace::Tool, name@) matches Some(
                i,
            ) && module.declarations@[i].kind == DeclarationKind::Tool(*d),
            None => first_declaring(module.declarations@, Namespace::Tool, name@) is None,
        },
{
    proof {
        lemma_first_declaring(module.declarations@, Namespace::Tool, name@);
    }
    match find_declaration(module, Namespace::Tool, name) {
        Some(i) => match &module.declarations[i].kind {
            DeclarationKind::Tool(v) => Some(v),
            _ => None,
        },
        None => None,
    }
}

/// The policy declaration named `name`, if any.
pub fn policy_declaration<'m>(module: &'m Module, name: &str) -> (found: Option<
    &'m PolicyDeclaration,
>)
    ensures
        match found {
            Some(d) => first_declaring(module.declarations@, Namespace::Policy, name@) matches Some(
                i,
            ) && module.declarations@[i].kind == DeclarationKind::Policy(*d),
            None => first_declaring(module.declarations@, Namespace::Policy, name@) is None,
        },
{
    proof {
        lemma_first_declaring(module.declarations@, Namespace::Policy, name@);
    }
    match find_declaration(module, Namespace::Policy, name) {
        Some(i) => match &module.declarations[i].kind {
            DeclarationKind::Policy(v) => Some(v),
            _ => None,
        },
        None => None,
    }
}

/// The agent declaration named `name`, if any.
pub fn agent_declaration<'m>(module: &'m Module, name: &str) -> (found: Option<
    &'m AgentDeclaration,
>)
    ensures
        match found {
            Some(d) => first_declaring(module.declarations@, Namespace::Agent, name@) matches Some(
                i,
            ) && module.declarations@[i].kind == DeclarationKind::Agent(*d),
            None => first_declaring(module.declarations@, Namespace::Agent, name@) is None,
        },
{
    proof {
        lemma_first_declaring(module.declarations@, Namespace::Agent, name@);
    }
    match find_declaration(module, Namespace::Agent, name) {
        Some(i) => match &module.declarations[i].kind {
            DeclarationKind::Agent(v) => Some(v),
            _ => None,
        },
        None => None,
    }
}

/// Whether `text` ends with `suffix`.
pub fn ends_with(text: &str, suffix: &str) -> (ends: bool)
    ensures
        ends == (suffix@.len() <= text@.len() && text@.subrange(
            text@.len() - suffix@.len(),
            text@.len() as int,
        ) == suffix@),
{
    let n = text.unicode_len();
    let m = suffix.unicode_len();
    if m > n {
        return false;
    }
    let mut i: usize = 0;
    while i < m
        invariant
            n == text@.len(),
            m == suffix@.len(),
            m <= n,
            i <= m,
            forall|k: int| 0 <= k < i ==> text@[n - m + k] == suffix@[k],
        decreases m - i,
    {
        if text.get_char(n - m + i) != suffix.get_char(i) {
            proof {
                assert(text@.subrange(n - m, n as int)[i as int] != suffix@[i as int]);
            }
            return false;
        }
        i = i + 1;
    }
    proof {
        assert(text@.subrange(n - m, n as int) =~= suffix@);
    }
    true
}

/// `text` without every trailing repetition of `.State`.
pub open spec fn without_state_suffix(text: Seq<char>) -> Seq<char>
    decreases text.len(),
{
    if 6 <= text.len() && text.subrange(text.len() - 6, text.len() as int) == ".State"@ {
        without_state_suffix(text.subrange(0, text.len() - 6))
    } else {
        text
    }
}

/// `text` without every trailing repetition of `.State`.
pub fn trim_state_suffix(text: &str) -> (trimmed: String)
    ensures
        trimmed@ == without_state_suffix(text@),
{
    proof {
        reveal_strlit(".State");
    }
    let mut current = String::from_str(text);
    let mut budget = text.unicode_len();
    while budget > 0 && ends_with(current.as_str(), ".State")
        invariant
            budget <= text@.len(),
            current@.len() + 6 * (text@.len() - budget) == text@.len(),
            without_state_suffix(current@) == without_state_suffix(text@),
            ".State"@.len() == 6,
        decreases budget,
    {
        proof {
            reveal_strlit(".State");
        }
        let n = current.unicode_len();
        let kept = current.as_str().substring_char(0, n - 6);
        current = String::from_str(kept);
        budget = budget - 1;
    }
    proof {
        if budget == 0 {
            assert(current@.len() == 0 || text@.len() == 0);
        }
    }
    current
}

/// Whether a declaration is an enum named `name`.
pub open spec fn enum_named(declaration: crate::ast::Declaration, name: Seq<char>) -> bool {
    declaration.kind matches DeclarationKind::Enum(value) && value.name@ == name
}

/// Whether any declaration is an enum named `name`.
pub fn is_enum(module: &Module, name: &str) -> (found: bool)
    ensures
        found == exists|i: int|
            0 <= i < module.declarations@.len() && enum_named(#[trigger] module.declarations@[i], name@),
{
    let mut i: usize = 0;
    while i < module.declarations.len()
        invariant
            i <= module.declarations@.len(),
            forall|k: int| 0 <= k < i ==> !enum_named(#[trigger] module.declarations@[k], name@),
        decreases module.declarations@.len() - i,
    {
        if let DeclarationKind::Enum(value) = &module.declarations[i].kind {
            if str_equal(value.name.as_str(), name) {
                return true;
            }
        }
        i = i + 1;
    }
    false
}

/// Whether `ty` wraps the resolution of the first argument of `reference`
/// in constructor `name`.
pub open spec fn wraps(module: Module, name: Seq<char>, reference: TypeReference, ty: Type) -> bool
    decreases reference, 0nat,
{
    if reference.arguments@.len() == 0 {
        false
    } else {
        let inner = reference.arguments@[0];
        if name == "Option"@ {
            ty matches Type::Option(b) && resolves_to(module, inner, *b)
        } else if name == "List"@ {
            ty matches Type::List(b) && resolves_to(module, inner, *b)
        } else if name == "Incoming"@ {
            ty matches Type::Incoming(b) && resolves_to(module, inner, *b)
        } else if name == "Untrusted"@ {
            ty matches Type::Untrusted(b) && resolves_to(module, inner, *b)
        } else if name == "Candidate"@ {
            ty matches Type::Candidate(b) && resolves_to(module, inner, *b)
        } else if name == "Checked"@ {
            ty matches Type::Checked(b) && resolves_to(module, inner, *b)
        } else if name == "Observation"@ {
            ty matches Type::Observation(b) && resolves_to(module, inner, *b)
        } else if name == "Secret"@ {
            ty matches Type::Secret(b) && resolves_to(module, inner, *b)
        } else {
            let symbol = crate::ast::dotted(crate::ast::string_views(inner.path.segments@));
            if name == "Intent"@ {
                ty matches Type::Intent(s) && s@ == symbol
            } else if name == "Proposal"@ {
                ty matches Type::Proposal(s) && s@ == symbol
            } else if name == "Permit"@ {
                ty matches Type::Permit(s) && s@ == symbol
            } else if name == "Receipt"@ {
                ty matches Type::Receipt(s) && s@ == symbol
            } else if name == "Reconciled"@ {
                ty matches Type::Reconciled(s) && s@ == symbol
            } else {
                ty == Type::Unknown
            }
        }
    }
}

/// Whether `name` ends with `.State`.
pub open spec fn names_state(name: Seq<char>) -> bool {
    6 <= name.len() && name.subrange(name.len() - 6, name.len() as int) == ".State"@
}

/// Whether `ty` is what `reference` resolves to in `module`: built-in names
/// at their arity, `Agent.State` of a declared agent, a declared type or
/// enum by name, wrappers and governance constructors with one argument,
/// `Result` with two, and `Unknown` for anything else.
pub open spec fn resolves_to(module: Module, reference: TypeReference, ty: Type) -> bool
    decreases reference, 1nat,
{
    let name = crate::ast::dotted(crate::ast::string_views(reference.path.segments@));
    let count = reference.arguments@.len();
    if count == 0 {
        if name == "Unit"@ {
            ty == Type::Unit
        } else if name == "Bool"@ {
            ty == Type::Bool
        } else if name == "Int"@ {
            ty == Type::Int
        } else if name == "Text"@ {
            ty == Type::Text
        } else if name == "Instant"@ {
            ty == Type::Instant
        } else if name == "Duration"@ {
            ty == Type::Duration
        } else if name == "ProvenanceRef"@ {
            ty == Type::ProvenanceRef
        } else if name == "Error"@ {
            ty == Type::Error
        } else if names_state(name) && first_declaring(
            module.declarations@,
            Namespace::Agent,
            without_state_suffix(name),
        ) is Some {
            ty matches Type::AgentState(a) && a@ == without_state_suffix(name)
        } else if first_declaring(module.declarations@, Namespace::Type, name) is Some || exists|i: int|
            0 <= i < module.declarations@.len() && enum_named(#[trigger] module.declarations@[i], name) {
            ty matches Type::Named(s) && s@ == name
        } else {
            ty == Type::Unknown
        }
    } else if count == 1 {
        wraps(module, name, reference, ty)
    } else if count == 2 && name == "Result"@ {
        ty matches Type::Result(a, b) && resolves_to(module, reference.arguments@[0], *a) && resolves_to(
            module,
            reference.arguments@[1],
            *b,
        )
    } else {
        ty == Type::Unknown
    }
}

fn boxed(module: &Module, reference: &TypeReference) -> (ty: Box<Type>)
    ensures
        resolves_to(*module, *reference, *ty),
    decreases reference, 2nat,
{
    Box::new(resolve_type(module, reference))
}

/// Resolves a written type against the declarations of `module`: built-in
/// names with their arity, governance constructors by their action symbol,
/// `Agent.State` of a declared agent, declared aliases, records and enums by
/// name, and `Unknown` for anything else.
pub fn resolve_type(module: &Module, reference: &TypeReference) -> (ty: Type)
    ensures
        resolves_to(*module, *reference, ty),
    decreases reference, 1nat,
{
    proof {
        reveal_strlit(".State");
    }
    let name = reference.path.as_string();
    let n = name.as_str();
    let count = reference.arguments.len();
    if count == 0 {
        if str_equal(n, "Unit") {
            return Type::Unit;
        } else if str_equal(n, "Bool") {
            return Type::Bool;
        } else if str_equal(n, "Int") {
            return Type::Int;
        } else if str_equal(n, "Text") {
            return Type::Text;
        } else if str_equal(n, "Instant") {
            return Type::Instant;
        } else if str_equal(n, "Duration") {
            return Type::Duration;
        } else if str_equal(n, "ProvenanceRef") {
            return Type::ProvenanceRef;
        } else if str_equal(n, "Error") {
            return Type::Error;
        }
        let agent = trim_state_suffix(n);
        if ends_with(n, ".State") && agent_declaration(module, agent.as_str()).is_some() {
            return Type::AgentState(agent);
        }
        if type_declaration(module, n).is_some() || is_enum(module, n) {
            return Type::Named(name);
        }
        return Type::Unknown;
    }
    if count == 1 {
        let inner = &reference.arguments[0];
        proof {
            assert(*inner == reference.arguments@[0]);
            assert forall|t: Type| #[trigger] resolves_to(*module, *reference, t) == wraps(
                *module,
                name@,
                *reference,
                t,
            ) by {}
        }
        if str_equal(n, "Option") {
            return Type::Option(boxed(module, inner));
        } else if str_equal(n, "List") {
            return Type::List(boxed(module, inner));
        } else if str_equal(n, "Incoming") {
            return Type::Incoming(boxed(module, inner));
        } else if str_equal(n, "Untrusted") {
            return Type::Untrusted(boxed(module, inner));
        } else if str_equal(n, "Candidate") {
            return Type::Candidate(boxed(module, inner));
        } else if str_equal(n, "Checked") {
            return Type::Checked(boxed(module, inner));
        } else if str_equal(n, "Observation") {
            return Type::Observation(boxed(module, inner));
        } else if str_equal(n, "Secret") {
            return Type::Secret(boxed(module, inner));
        } else if str_equal(n, "Intent") {
            return Type::Intent(inner.path.as_string());
        } else if str_equal(n, "Proposal") {
            return Type::Proposal(inner.path.as_string());
        } else if str_equal(n, "Permit") {
            return Type::Permit(inner.path.as_string());
        } else if str_equal(n, "Receipt") {
            return Type::Receipt(inner.path.as_string());
        } else if str_equal(n, "Reconciled") {
            return Type::Reconciled(inner.path.as_string());
        }
        return Type::Unknown;
    }
    if count == 2 && str_equal(n, "Result") {
        return Type::Result(
            boxed(module, &reference.arguments[0]),
            boxed(module, &reference.arguments[1]),
        );
    }
    Type::Unknown
}

/// Whether `name` occurs in `names`.
pub fn contains_text(names: &Vec<String>, name: &str) -> (found: bool)
    ensures
        found == exists|i: int| 0 <= i < names@.len() && names@[i]@ == name@,
{
    let mut i: usize = 0;
    while i < names.len()
        invariant
            i <= names@.len(),
            forall|k: int| 0 <= k < i ==> names@[k]@ != name@,
        decreases names@.len() - i,
    {
        if str_equal(names[i].as_str(), name) {
            return true;
        }
        i = i + 1;
    }
    false
}

/// `names` with `name` appended unless it is already there.
pub open spec fn add_name(names: Seq<Seq<char>>, name: Seq<char>) -> Seq<Seq<char>> {
    if names.contains(name) {
        names
    } else {
        names.push(name)
    }
}

/// Whether some string reads `name` is whether its text occurs.
pub proof fn lemma_contains_text(names: Seq<String>, name: Seq<char>)
    ensures
        (exists|i: int| 0 <= i < names.len() && names[i]@ == name) == crate::ast::string_views(
            names,
        ).contains(name),
{
    let views = crate::ast::string_views(names);
    if exists|i: int| 0 <= i < names.len() && names[i]@ == name {
        let i = choose|i: int| 0 <= i < names.len() && names[i]@ == name;
        assert(views[i] == name);
    }
    if views.contains(name) {
        let i = choose|i: int| 0 <= i < views.len() && views[i] == name;
        assert(names[i]@ == name);
    }
}

/// Removes the last name pushed onto a walk's visited list.
fn leave(seen: &mut Vec<String>) {
    if seen.len() > 0 {
        seen.pop();
    }
}

/// The type after following aliases; a type that is not an alias is returned
/// as it is, and an alias that reaches itself becomes `Unknown`.
pub fn normalized(module: &Module, ty: &Type) -> (out: Type)
    ensures
        !(ty is Named) ==> out == *ty,
{
    let mut seen: Vec<String> = Vec::new();
    normalized_with_seen(module, ty, &mut seen, WALK_DEPTH)
}

fn normalized_with_seen(module: &Module, ty: &Type, seen: &mut Vec<String>, depth: u64) -> (out: Type)
    ensures
        !(ty is Named) ==> out == *ty,
    decreases depth,
{
    let Type::Named(name) = ty else {
        return ty.duplicate();
    };
    if depth == 0 || contains_text(seen, name.as_str()) {
        return Type::Unknown;
    }
    seen.push(name.clone());
    let out = match type_declaration(module, name.as_str()) {
        Some(declaration) => match &declaration.definition {
            TypeDefinition::Alias(alias) => {
                let target = resolve_type(module, alias);
                normalized_with_seen(module, &target, seen, depth - 1)
            },
            TypeDefinition::Record(_) => ty.duplicate(),
        },
        None => ty.duplicate(),
    };
    leave(seen);
    out
}

/// The type of field `field` of a value of type `ty`: a declared record
/// field, an agent state field or parameter, a tool argument, or the `id`
/// and `time` of an event.
pub fn field_type(module: &Module, ty: &Type, field: &str) -> (found: Option<Type>) {
    match normalized(module, ty) {
        Type::Named(name) => {
            let declaration = type_declaration(module, name.as_str())?;
            let TypeDefinition::Record(fields) = &declaration.definition else {
                return None;
            };
            let mut i: usize = 0;
            while i < fields.len()
                decreases fields@.len() - i,
            {
                if str_equal(fields[i].name.as_str(), field) {
                    return Some(resolve_type(module, &fields[i].ty));
                }
                i = i + 1;
            }
            None
        },
        Type::AgentState(agent) => {
            let declaration = agent_declaration(module, agent.as_str())?;
            let mut i: usize = 0;
            while i < declaration.state.len()
                decreases declaration.state@.len() - i,
            {
                if str_equal(declaration.state[i].name.as_str(), field) {
                    return Some(resolve_type(module, &declaration.state[i].ty));
                }
                i = i + 1;
            }
            let mut j: usize = 0;
            while j < declaration.parameters.len()
                decreases declaration.parameters@.len() - j,
            {
                if str_equal(declaration.parameters[j].name.as_str(), field) {
                    return Some(resolve_type(module, &declaration.parameters[j].ty));
                }
                j = j + 1;
            }
            None
        },
        Type::ToolArguments(action) => {
            let declaration = tool_declaration(module, action.as_str())?;
            let mut i: usize = 0;
            while i < declaration.parameters.len()
                decreases declaration.parameters@.len() - i,
            {
                if str_equal(declaration.parameters[i].name.as_str(), field) {
                    return Some(resolve_type(module, &declaration.parameters[i].ty));
                }
                i = i + 1;
            }
            None
        },
        Type::Event => {
            if str_equal(field, "id") {
                Some(Type::Text)
            } else if str_equal(field, "time") {
                Some(Type::Instant)
            } else {
                None
            }
        },
        _ => None,
    }
}

/// The declared result type of the tool at `action`, or `Unknown`.
pub fn tool_result(module: &Module, action: &str) -> (ty: Type) {
    match tool_declaration(module, action) {
        Some(tool) => resolve_type(module, &tool.return_type),
        None => Type::Unknown,
    }
}

/// Whether a type carries `Secret` data, looking through declared aliases and
/// record fields.
pub fn model_contains_secret(module: &Module, ty: &Type) -> (carries: bool) {
    let mut seen: Vec<String> = Vec::new();
    contains_secret_with_seen(module, ty, &mut seen, WALK_DEPTH)
}

fn contains_secret_with_seen(module: &Module, ty: &Type, seen: &mut Vec<String>, depth: u64) -> (carries: bool)
    decreases depth,
{
    if depth == 0 {
        return false;
    }
    match ty {
        Type::Secret(_) => true,
        Type::Named(name) => {
            if contains_text(seen, name.as_str()) {
                return false;
            }
            seen.push(name.clone());
            let result = match type_declaration(module, name.as_str()) {
                Some(declaration) => match &declaration.definition {
                    TypeDefinition::Alias(alias) => {
                        let target = resolve_type(module, alias);
                        contains_secret_with_seen(module, &target, seen, depth - 1)
                    },
                    TypeDefinition::Record(fields) => {
                        let mut found = false;
                        let mut i: usize = 0;
                        while i < fields.len() && !found
                            invariant
                                depth > 0,
                            decreases fields@.len() - i,
                        {
                            let field_ty = resolve_type(module, &fields[i].ty);
                            found = contains_secret_with_seen(module, &field_ty, seen, depth - 1);
                            i = i + 1;
                        }
                        found
                    },
                },
                None => false,
            };
            leave(seen);
            result
        },
        Type::Option(inner) | Type::List(inner) | Type::Incoming(inner) | Type::Untrusted(inner)
        | Type::Candidate(inner) | Type::Checked(inner) | Type::Observation(inner) => {
            contains_secret_with_seen(module, inner, seen, depth - 1)
        },
        Type::Result(ok, error) => contains_secret_with_seen(module, ok, seen, depth - 1)
            || contains_secret_with_seen(module, error, seen, depth - 1),
        _ => false,
    }
}

/// Whether values of a type serialize deterministically: ordinary data,
/// wrappers of it, and declared aliases, records and enums made of it.
pub fn is_deterministically_serializable(module: &Module, ty: &Type) -> (serializable: bool) {
    let mut seen: Vec<String> = Vec::new();
    serializable_with_seen(module, ty, &mut seen, WALK_DEPTH)
}

fn serializable_with_seen(module: &Module, ty: &Type, seen: &mut Vec<String>, depth: u64) -> (serializable: bool)
    decreases depth,
{
    if depth == 0 {
        return false;
    }
    match normalized(module, ty) {
        Type::Unit | Type::Bool | Type::Int | Type::Text | Type::Instant | Type::Duration
        | Type::ProvenanceRef | Type::Error => true,
        Type::Option(inner) | Type::List(inner) | Type::Incoming(inner) | Type::Untrusted(inner)
        | Type::Checked(inner) | Type::Observation(inner) => serializable_with_seen(
            module,
            &inner,
            seen,
            depth - 1,
        ),
        Type::Result(ok, error) => serializable_with_seen(module, &ok, seen, depth - 1)
            && serializable_with_seen(module, &error, seen, depth - 1),
        Type::Named(name) => {
            if contains_text(seen, name.as_str()) {
                return false;
            }
            seen.push(name.clone());
            let from_type = match type_declaration(module, name.as_str()) {
                Some(declaration) => match &declaration.definition {
                    TypeDefinition::Alias(alias) => {
                        let target = resolve_type(module, alias);
                        serializable_with_seen(module, &target, seen, depth - 1)
                    },
                    TypeDefinition::Record(fields) => {
                        let mut all = true;
                        let mut i: usize = 0;
                        while i < fields.len() && all
                            invariant
                                depth > 0,
                            decreases fields@.len() - i,
                        {
                            let field_ty = resolve_type(module, &fields[i].ty);
                            all = serializable_with_seen(module, &field_ty, seen, depth - 1);
                            i = i + 1;
                        }
                        all
                    },
                },
                None => false,
            };
            let result = from_type || match enum_declaration(module, name.as_str()) {
                Some(declaration) => {
                    let mut all = true;
                    let mut i: usize = 0;
                    while i < declaration.variants.len() && all
                        invariant
                            depth > 0,
                        decreases declaration.variants@.len() - i,
                    {
                        if let Some(payload) = &declaration.variants[i].payload {
                            let payload_ty = resolve_type(module, payload);
                            all = serializable_with_seen(module, &payload_ty, seen, depth - 1);
                        }
                        i = i + 1;
                    }
                    all
                },
                None => false,
            };
            leave(seen);
            result
        },
        _ => false,
    }
}

/// The variants among the first `n` of `variants` spelled `requested`,
/// either as `Enum.Variant` or bare, with the enum name and payload.
pub open spec fn variant_hits(
    enum_name: Seq<char>,
    variants: Seq<crate::ast::EnumVariant>,
    requested: Seq<char>,
    n: int,
) -> Seq<(Seq<char>, Option<TypeReference>)>
    decreases n,
{
    if n <= 0 {
        Seq::empty()
    } else {
        let earlier = variant_hits(enum_name, variants, requested, n - 1);
        let variant = variants[n - 1];
        if requested == enum_name + seq!['.'] + variant.name@ || requested == variant.name@ {
            earlier.push((enum_name, variant.payload))
        } else {
            earlier
        }
    }
}

/// The variants spelled `requested` among the first `n` declarations,
/// counting each enum name at its first declaration only.
pub open spec fn enum_hits(module: Module, requested: Seq<char>, n: int) -> Seq<
    (Seq<char>, Option<TypeReference>),
>
    decreases n,
{
    if n <= 0 {
        Seq::empty()
    } else {
        let earlier = enum_hits(module, requested, n - 1);
        match module.declarations@[n - 1].kind {
            DeclarationKind::Enum(declaration) => if first_declaring(
                module.declarations@,
                Namespace::Enum,
                declaration.name@,
            ) == Some(n - 1) {
                earlier + variant_hits(
                    declaration.name@,
                    declaration.variants@,
                    requested,
                    declaration.variants@.len() as int,
                )
            } else {
                earlier
            },
            _ => earlier,
        }
    }
}

/// Whether `payload` is the resolution of the written payload type, if any.
pub open spec fn payload_resolves(module: Module, written: Option<TypeReference>, payload: Option<Type>) -> bool {
    match (written, payload) {
        (None, None) => true,
        (Some(r), Some(t)) => resolves_to(module, r, t),
        _ => false,
    }
}

/// The enum and payload type of the variant spelled `requested`, either as
/// `Enum.Variant` or as the bare variant name, when exactly one variant of
/// the declared enums matches.
pub fn enum_variant(module: &Module, requested: &str) -> (found: Option<(String, Option<Type>)>)
    ensures
        ({
            let hits = enum_hits(*module, requested@, module.declarations@.len() as int);
            if hits.len() == 1 {
                found matches Some((name, payload)) && name@ == hits[0].0 && payload_resolves(
                    *module,
                    hits[0].1,
                    payload,
                )
            } else {
                found is None
            }
        }),
{
    let mut result: Option<(String, Option<Type>)> = None;
    let mut count: usize = 0;
    let decls = &module.declarations;
    let mut i: usize = 0;
    while i < decls.len()
        invariant
            i <= decls@.len(),
            *decls == module.declarations,
            count == if enum_hits(*module, requested@, i as int).len() < 2 {
                enum_hits(*module, requested@, i as int).len()
            } else {
                2
            },
            enum_hits(*module, requested@, i as int).len() == 0 <==> result is None,
            enum_hits(*module, requested@, i as int).len() > 0 ==> (result matches Some((name, payload))
                && name@ == enum_hits(*module, requested@, i as int)[0].0 && payload_resolves(
                *module,
                enum_hits(*module, requested@, i as int)[0].1,
                payload,
            )),
        decreases decls@.len() - i,
    {
        let ghost before = enum_hits(*module, requested@, i as int);
        if let DeclarationKind::Enum(declaration) = &decls[i].kind {
            let first = match find_declaration(module, Namespace::Enum, declaration.name.as_str()) {
                Some(k) => k == i,
                None => false,
            };
            if first {
                let mut j: usize = 0;
                proof {
                    assert(before + variant_hits(declaration.name@, declaration.variants@, requested@, 0)
                        =~= before);
                }
                while j < declaration.variants.len()
                    invariant
                        j <= declaration.variants@.len(),
                        before == enum_hits(*module, requested@, i as int),
                        count == if (before + variant_hits(
                            declaration.name@,
                            declaration.variants@,
                            requested@,
                            j as int,
                        )).len() < 2 {
                            (before + variant_hits(
                                declaration.name@,
                                declaration.variants@,
                                requested@,
                                j as int,
                            )).len()
                        } else {
                            2
                        },
                        (before + variant_hits(declaration.name@, declaration.variants@, requested@, j as int)).len()
                            == 0 <==> result is None,
                        (before + variant_hits(declaration.name@, declaration.variants@, requested@, j as int)).len()
                            > 0 ==> (result matches Some((name, payload)) && name@ == (before + variant_hits(
                            declaration.name@,
                            declaration.variants@,
                            requested@,
                            j as int,
                        ))[0].0 && payload_resolves(
                            *module,
                            (before + variant_hits(
                                declaration.name@,
                                declaration.variants@,
                                requested@,
                                j as int,
                            ))[0].1,
                            payload,
                        )),
                    decreases declaration.variants@.len() - j,
                {
                    let ghost prior = before + variant_hits(
                        declaration.name@,
                        declaration.variants@,
                        requested@,
                        j as int,
                    );
                    let variant = &declaration.variants[j];
                    let mut full = declaration.name.clone();
                    push_char(&mut full, '.');
                    push_str(&mut full, variant.name.as_str());
                    proof {
                        assert(full@ =~= declaration.name@ + seq!['.'] + variant.name@);
                    }
                    if str_equal(requested, full.as_str()) || str_equal(
                        requested,
                        variant.name.as_str(),
                    ) {
                        if count < 2 {
                            count = count + 1;
                        }
                        if result.is_none() {
                            let payload = match &variant.payload {
                                Some(p) => Some(resolve_type(module, p)),
                                None => None,
                            };
                            result = Some((declaration.name.clone(), payload));
                        }
                        proof {
                            let next = variant_hits(
                                declaration.name@,
                                declaration.variants@,
                                requested@,
                                j + 1,
                            );
                            assert(before + next =~= prior.push((declaration.name@, variant.payload)));
                        }
                    } else {
                        proof {
                            assert(before + variant_hits(
                                declaration.name@,
                                declaration.variants@,
                                requested@,
                                j + 1,
                            ) =~= prior);
                        }
                    }
                    j = j + 1;
                }
                proof {
                    assert(enum_hits(*module, requested@, i + 1) == before + variant_hits(
                        declaration.name@,
                        declaration.variants@,
                        requested@,
                        declaration.variants@.len() as int,
                    ));
                }
            } else {
                proof {
                    assert(enum_hits(*module, requested@, i + 1) == before);
                }
            }
        } else {
            proof {
                assert(enum_hits(*module, requested@, i + 1) == before);
            }
        }
        i = i + 1;
    }
    if count == 1 {
        result
    } else {
        None
    }
}

} // verus!
