use vstd::prelude::*;

use crate::ast::{
    Argument, BinaryOperator, Block, Expression, ExpressionKind, FieldInitializer, MatchArm,
    Parameter, Path, Pattern, PolicyDecision, Statement, StatementKind, ToolMode, TypeDefinition,
    UnaryOperator,
};
use crate::ast::Module;
use crate::diagnostic::Diagnostic;
use crate::model::{
    WALK_DEPTH, agent_declaration, contains_text, enum_declaration, enum_variant, field_type,
    flow_declaration, function_declaration, model_contains_secret, normalized, policy_declaration,
    prompt_declaration, resolve_type, tool_declaration, tool_result, type_declaration,
    validator_declaration,
};
use crate::registry::{KnownDiagnosticCode, known_code_text};
use crate::span::Span;
use crate::text::{push_str, str_equal, str_less};
use crate::types::{Type, carries_candidate, type_eq, write_type_debug};

verus! {

/// `new` keeps every diagnostic of `old` in place and may add more after them.
pub open spec fn extends(old: Seq<Diagnostic>, new: Seq<Diagnostic>) -> bool {
    &&& old.len() <= new.len()
    &&& forall|i: int| 0 <= i < old.len() ==> new[i] == old[i]
}

/// `d` is an error with the given code, message, primary span and help.
pub open spec fn reported(
    d: Diagnostic,
    code: KnownDiagnosticCode,
    message: Seq<char>,
    span: Span,
    help: Seq<char>,
) -> bool {
    &&& d.code@ == known_code_text(code)
    &&& d.severity == crate::diagnostic::Severity::Error
    &&& d.message@ == message
    &&& d.primary_span == span
    &&& d.labels@.len() == 0
    &&& d.notes@.len() == 0
    &&& d.help matches Some(h) && h@ == help
}

/// Appends one error diagnostic.
pub fn report(
    out: &mut Vec<Diagnostic>,
    code: KnownDiagnosticCode,
    message: &str,
    span: &Span,
    help: &str,
)
    ensures
        final(out)@ == old(out)@.push(final(out)@.last()),
        reported(final(out)@.last(), code, message@, *span, help@),
{
    let d = Diagnostic::error(code.code(), message, span.duplicate()).with_help(help);
    out.push(d);
}

/// `a`, `b` and `c` joined.
pub fn concat3(a: &str, b: &str, c: &str) -> (text: String)
    ensures
        text@ == a@ + b@ + c@,
{
    let mut text = String::new();
    push_str(&mut text, a);
    push_str(&mut text, b);
    push_str(&mut text, c);
    proof {
        assert(text@ =~= a@ + b@ + c@);
    }
    text
}

/// Texts joined by `, `.
pub open spec fn comma_joined(items: Seq<Seq<char>>) -> Seq<char>
    decreases items.len(),
{
    if items.len() == 0 {
        Seq::empty()
    } else if items.len() == 1 {
        items[0]
    } else {
        comma_joined(items.drop_last()) + ", "@ + items.last()
    }
}

/// Items joined by `, `.
pub fn join_comma(items: &Vec<String>) -> (text: String)
    ensures
        text@ == comma_joined(crate::ast::string_views(items@)),
{
    let ghost views = crate::ast::string_views(items@);
    let mut text = String::new();
    let mut i: usize = 0;
    while i < items.len()
        invariant
            i <= items@.len(),
            views == crate::ast::string_views(items@),
            text@ == comma_joined(views.take(i as int)),
        decreases items@.len() - i,
    {
        proof {
            assert(views.take(i + 1).drop_last() =~= views.take(i as int));
        }
        if i > 0 {
            push_str(&mut text, ", ");
        }
        push_str(&mut text, items[i].as_str());
        proof {
            let taken = views.take(i + 1);
            if i == 0 {
                assert(text@ =~= taken[0]);
            } else {
                assert(text@ =~= comma_joined(taken.drop_last()) + ", "@ + taken.last());
            }
        }
        i = i + 1;
    }
    proof {
        assert(views.take(items@.len() as int) =~= views);
    }
    text
}

/// Sorts names by their bytes, the order of an ordered map's keys.
pub fn sort_names(names: Vec<String>) -> (sorted: Vec<String>)
    ensures
        sorted@.len() == names@.len(),
{
    let mut sorted = names;
    let n = sorted.len();
    let mut i: usize = 1;
    while i < n
        invariant
            sorted@.len() == n,
        decreases n - i,
    {
        let mut j: usize = i;
        while j > 0 && str_less(sorted[j].as_str(), sorted[j - 1].as_str())
            invariant
                sorted@.len() == n,
                j <= i < n,
            decreases j,
        {
            let current = sorted.remove(j);
            sorted.insert(j - 1, current);
            j = j - 1;
        }
        i = i + 1;
    }
    sorted
}

/// A name in scope with its type and whether an affine value it held was consumed.
pub struct Binding {
    /// Bound name.
    pub name: String,
    /// Declared or inferred type.
    pub ty: Type,
    /// Whether the value was moved out.
    pub moved: bool,
}

/// Names in scope while checking a body.
pub struct Environment {
    bindings: Vec<Binding>,
}

/// A binding's name as text, its type and whether it was moved.
pub open spec fn binding_view(b: Binding) -> (Seq<char>, Type, bool) {
    (b.name@, b.ty, b.moved)
}

/// Position of the first binding named `name`, if any.
pub open spec fn binding_position(bindings: Seq<Binding>, name: Seq<char>) -> Option<int>
    decreases bindings.len(),
{
    if bindings.len() == 0 {
        None
    } else {
        match binding_position(bindings.drop_last(), name) {
            Some(i) => Some(i),
            None => if bindings.last().name@ == name {
                Some(bindings.len() - 1)
            } else {
                None
            },
        }
    }
}

proof fn lemma_binding_position(bindings: Seq<Binding>, name: Seq<char>)
    ensures
        match binding_position(bindings, name) {
            Some(i) => 0 <= i < bindings.len() && bindings[i].name@ == name && forall|k: int|
                0 <= k < i ==> #[trigger] bindings[k].name@ != name,
            None => forall|k: int| 0 <= k < bindings.len() ==> #[trigger] bindings[k].name@ != name,
        },
    decreases bindings.len(),
{
    if bindings.len() > 0 {
        let rest = bindings.drop_last();
        lemma_binding_position(rest, name);
        assert forall|k: int| 0 <= k < rest.len() implies #[trigger] bindings[k].name@ == rest[k].name@ by {
            assert(bindings[k] == rest[k]);
        }
    }
}

/// Whether the binding of `name` in `bindings` was moved; unbound names
/// were not.
pub open spec fn moved_of(bindings: Seq<Binding>, name: Seq<char>) -> bool {
    match binding_position(bindings, name) {
        Some(i) => bindings[i].moved,
        None => false,
    }
}

impl Environment {
    /// The bindings in scope, in binding order.
    pub closed spec fn bound(&self) -> Seq<(Seq<char>, Type, bool)> {
        self.bindings@.map_values(|b: Binding| binding_view(b))
    }

    /// Position of the first binding of `name`, if any.
    pub closed spec fn name_position(&self, name: Seq<char>) -> Option<int> {
        binding_position(self.bindings@, name)
    }

    /// Whether the binding of `name` was moved.
    pub closed spec fn moved_name(&self, name: Seq<char>) -> bool {
        moved_of(self.bindings@, name)
    }

    /// An empty scope.
    pub fn new() -> (environment: Environment)
        ensures
            environment.bound() == Seq::<(Seq<char>, Type, bool)>::empty(),
    {
        proof {
            assert(Seq::<Binding>::empty().map_values(|b: Binding| binding_view(b)) =~= Seq::<
                (Seq<char>, Type, bool),
            >::empty());
        }
        Environment { bindings: Vec::new() }
    }

    fn position(&self, name: &str) -> (found: Option<usize>)
        ensures
            found matches Some(i) ==> i < self.bindings@.len(),
            match found {
                Some(i) => binding_position(self.bindings@, name@) == Some(i as int),
                None => binding_position(self.bindings@, name@) is None,
            },
    {
        proof {
            lemma_binding_position(self.bindings@, name@);
        }
        let mut i: usize = 0;
        while i < self.bindings.len()
            invariant
                i <= self.bindings@.len(),
                forall|k: int| 0 <= k < i ==> #[trigger] self.bindings@[k].name@ != name@,
                match binding_position(self.bindings@, name@) {
                    Some(p) => 0 <= p < self.bindings@.len() && self.bindings@[p].name@ == name@ && forall|k: int|
                        0 <= k < p ==> #[trigger] self.bindings@[k].name@ != name@,
                    None => forall|k: int| 0 <= k < self.bindings@.len() ==> #[trigger] self.bindings@[k].name@ != name@,
                },
            decreases self.bindings@.len() - i,
        {
            if str_equal(self.bindings[i].name.as_str(), name) {
                return Some(i);
            }
            i = i + 1;
        }
        None
    }

    /// Binds `name` to `ty`, replacing an earlier binding of the same name.
    pub fn insert(&mut self, name: &str, ty: Type)
        ensures
            final(self).bound() == match old(self).name_position(name@) {
                Some(i) => old(self).bound().update(i, (name@, ty, false)),
                None => old(self).bound().push((name@, ty, false)),
            },
    {
        match self.position(name) {
            Some(i) => {
                let ghost before = self.bindings@;
                self.bindings.set(i, Binding { name: String::from_str(name), ty, moved: false });
                proof {
                    assert(self.bound() =~= before.map_values(|b: Binding| binding_view(b)).update(
                        i as int,
                        (name@, ty, false),
                    ));
                }
            },
            None => {
                let ghost before = self.bindings@;
                self.bindings.push(Binding { name: String::from_str(name), ty, moved: false });
                proof {
                    assert(self.bound() =~= before.map_values(|b: Binding| binding_view(b)).push(
                        (name@, ty, false),
                    ));
                }
            },
        }
    }

    fn get(&self, name: &str) -> (found: Option<&Binding>)
        ensures
            found == match binding_position(self.bindings@, name@) {
                Some(i) => Some(&self.bindings@[i]),
                None => None,
            },
    {
        match self.position(name) {
            Some(i) => Some(&self.bindings[i]),
            None => None,
        }
    }

    fn mark_moved(&mut self, name: &str) {
        if let Some(i) = self.position(name) {
            let binding = Binding {
                name: self.bindings[i].name.clone(),
                ty: self.bindings[i].ty.duplicate(),
                moved: true,
            };
            self.bindings.set(i, binding);
        }
    }

    fn moved_in(&self, name: &str) -> (moved: bool)
        ensures
            moved == moved_of(self.bindings@, name@),
    {
        match self.get(name) {
            Some(binding) => binding.moved,
            None => false,
        }
    }

    fn join_moved(&mut self, branches: &Vec<Environment>)
        ensures
            final(self).bindings@.len() == old(self).bindings@.len(),
            forall|j: int|
                0 <= j < old(self).bindings@.len() ==> binding_view(#[trigger] final(self).bindings@[j]) == (
                    old(self).bindings@[j].name@,
                    old(self).bindings@[j].ty,
                    old(self).bindings@[j].moved || exists|k: int|
                        0 <= k < branches@.len() && moved_of(
                            #[trigger] branches@[k].bindings@,
                            old(self).bindings@[j].name@,
                        ),
                ),
    {
        let mut i: usize = 0;
        while i < self.bindings.len()
            invariant
                i <= self.bindings@.len(),
                self.bindings@.len() == old(self).bindings@.len(),
                forall|j: int|
                    i <= j < self.bindings@.len() ==> #[trigger] self.bindings@[j] == old(self).bindings@[j],
                forall|j: int|
                    0 <= j < i ==> binding_view(#[trigger] self.bindings@[j]) == (
                        old(self).bindings@[j].name@,
                        old(self).bindings@[j].ty,
                        old(self).bindings@[j].moved || exists|k: int|
                            0 <= k < branches@.len() && moved_of(
                                #[trigger] branches@[k].bindings@,
                                old(self).bindings@[j].name@,
                            ),
                    ),
            decreases self.bindings@.len() - i,
        {
            let mut moved = self.bindings[i].moved;
            let mut k: usize = 0;
            while k < branches.len()
                invariant
                    i < self.bindings@.len(),
                    k <= branches@.len(),
                    moved == (self.bindings@[i as int].moved || exists|m: int|
                        0 <= m < k && moved_of(
                            #[trigger] branches@[m].bindings@,
                            self.bindings@[i as int].name@,
                        )),
                decreases branches@.len() - k,
            {
                if branches[k].moved_in(self.bindings[i].name.as_str()) {
                    moved = true;
                }
                k = k + 1;
            }
            if moved {
                let binding = Binding {
                    name: self.bindings[i].name.clone(),
                    ty: self.bindings[i].ty.duplicate(),
                    moved: true,
                };
                self.bindings.set(i, binding);
            }
            i = i + 1;
        }
    }

    /// A copy of this scope.
    pub fn duplicate(&self) -> (copy: Environment)
        ensures
            copy.bound() == self.bound(),
    {
        let mut bindings: Vec<Binding> = Vec::new();
        let mut i: usize = 0;
        while i < self.bindings.len()
            invariant
                i <= self.bindings@.len(),
                bindings@.len() == i,
                forall|k: int| 0 <= k < i ==> binding_view(#[trigger] bindings@[k]) == binding_view(self.bindings@[k]),
            decreases self.bindings@.len() - i,
        {
            bindings.push(
                Binding {
                    name: self.bindings[i].name.clone(),
                    ty: self.bindings[i].ty.duplicate(),
                    moved: self.bindings[i].moved,
                },
            );
            i = i + 1;
        }
        let copy = Environment { bindings };
        proof {
            assert(copy.bound() =~= self.bound());
        }
        copy
    }
}

/// The rules of the body being checked.
pub struct CheckContext {
    /// Whether external effects are forbidden.
    pub pure: bool,
    /// Capability kinds the body may use.
    pub allowed_capabilities: Vec<String>,
    /// Declared return type.
    pub return_type: Type,
    /// Agent whose handler or state is being checked.
    pub agent: Option<String>,
}

/// Parameter names, each once, in order of first appearance.
pub open spec fn parameter_scope_names(parameters: Seq<Parameter>) -> Seq<Seq<char>>
    decreases parameters.len(),
{
    if parameters.len() == 0 {
        Seq::empty()
    } else {
        crate::model::add_name(parameter_scope_names(parameters.drop_last()), parameters.last().name@)
    }
}

impl Environment {
    /// Names bound, in binding order.
    pub closed spec fn bound_names(&self) -> Seq<Seq<char>> {
        self.bindings@.map_values(|b: Binding| b.name@)
    }

    /// Whether no binding was moved.
    pub closed spec fn none_moved(&self) -> bool {
        forall|i: int| 0 <= i < self.bindings@.len() ==> !(#[trigger] self.bindings@[i]).moved
    }
}

/// The scope of a parameter list: each parameter name bound once, in order
/// of first appearance, none moved; a repeated name takes its last type.
pub fn environment_from_parameters(module: &Module, parameters: &Vec<Parameter>) -> (environment: Environment)
    ensures
        environment.bound_names() == parameter_scope_names(parameters@),
        environment.none_moved(),
{
    let mut environment = Environment::new();
    let mut i: usize = 0;
    proof {
        assert(environment.bound().len() == environment.bindings@.len());
        assert(environment.bound_names() =~= parameter_scope_names(parameters@.take(0)));
    }
    while i < parameters.len()
        invariant
            i <= parameters@.len(),
            environment.bound_names() == parameter_scope_names(parameters@.take(i as int)),
            environment.none_moved(),
        decreases parameters@.len() - i,
    {
        proof {
            assert(parameters@.take(i + 1).drop_last() =~= parameters@.take(i as int));
            assert(parameters@.take(i + 1).last() == parameters@[i as int]);
        }
        let ghost before = environment.bindings@;
        let name = parameters[i].name.as_str();
        proof {
            lemma_binding_position(before, name@);
            let names = before.map_values(|b: Binding| b.name@);
            match binding_position(before, name@) {
                Some(p) => {
                    assert(names[p] == name@);
                },
                None => {
                    assert(!names.contains(name@)) by {
                        if names.contains(name@) {
                            let q = choose|q: int| 0 <= q < names.len() && names[q] == name@;
                            assert(before[q].name@ == name@);
                        }
                    }
                },
            }
        }
        environment.insert(name, resolve_type(module, &parameters[i].ty));
        proof {
            let names = before.map_values(|b: Binding| b.name@);
            let after = environment.bindings@;
            assert(environment.bound().len() == after.len());
            match binding_position(before, name@) {
                Some(p) => {
                    assert(after.len() == before.len());
                    assert forall|q: int| 0 <= q < after.len() implies #[trigger] after[q].name@ == names[q] by {
                        assert(binding_view(after[q]) == environment.bound()[q]);
                    }
                    assert(environment.bound_names() =~= names);
                },
                None => {
                    assert(after.len() == before.len() + 1);
                    assert forall|q: int| 0 <= q < after.len() implies #[trigger] after[q].name@ == names.push(name@)[q] by {
                        assert(binding_view(after[q]) == environment.bound()[q]);
                    }
                    assert(environment.bound_names() =~= names.push(name@));
                },
            }
            assert forall|q: int| 0 <= q < after.len() implies !(#[trigger] after[q]).moved by {
                assert(binding_view(after[q]) == environment.bound()[q]);
            }
        }
        i = i + 1;
    }
    proof {
        assert(parameters@.take(parameters@.len() as int) =~= parameters@);
    }
    environment
}

fn type_mismatch(out: &mut Vec<Diagnostic>, message: &str, span: &Span)
    ensures
        extends(old(out)@, final(out)@),
        final(out)@.len() == old(out)@.len() + 1,
        final(out)@.last().code@ == known_code_text(KnownDiagnosticCode::TypeMismatch),
        final(out)@.last().primary_span == *span,
{
    report(
        out,
        KnownDiagnosticCode::TypeMismatch,
        message,
        span,
        "make the expression and required type match exactly",
    );
}

fn unknown_reference(out: &mut Vec<Diagnostic>, kind: &str, path: &Path)
    ensures
        extends(old(out)@, final(out)@),
        final(out)@ == old(out)@.push(final(out)@.last()),
        reported(
            final(out)@.last(),
            KnownDiagnosticCode::UnknownName,
            "unknown "@ + kind@ + " `"@ + crate::ast::dotted(crate::ast::string_views(path.segments@))
                + "`"@,
            path.span,
            "declare the "@ + kind@ + " before using it"@,
        ),
{
    let name = path.as_string();
    let mut message = String::new();
    push_str(&mut message, "unknown ");
    push_str(&mut message, kind);
    push_str(&mut message, " `");
    push_str(&mut message, name.as_str());
    push_str(&mut message, "`");
    let help = concat3("declare the ", kind, " before using it");
    proof {
        assert(message@ =~= "unknown "@ + kind@ + " `"@ + name@ + "`"@);
    }
    report(out, KnownDiagnosticCode::UnknownName, message.as_str(), &path.span, help.as_str());
}

/// A type with no parts and no declaration behind it.
pub open spec fn scalar_type(ty: Type) -> bool {
    ||| ty is Unit
    ||| ty is Bool
    ||| ty is Int
    ||| ty is Text
    ||| ty is Instant
    ||| ty is Duration
    ||| ty is ProvenanceRef
    ||| ty is Error
    ||| ty is Event
}

/// A type that is known without following a declaration: neither a name
/// nor the recovery type.
pub open spec fn settled_type(ty: Type) -> bool {
    !(ty is Named) && !(ty is Unknown)
}

/// Whether two types agree, `Unknown` agreeing with anything and wrappers
/// compared through their contents, after following aliases. A scalar
/// agrees with a settled type exactly when the two are the same type.
pub fn compatible(module: &Module, expected: &Type, actual: &Type) -> (agree: bool)
    ensures
        scalar_type(*expected) && settled_type(*actual) ==> (agree <==> type_eq(*expected, *actual)),
{
    compatible_within(module, expected, actual, WALK_DEPTH)
}

fn compatible_within(module: &Module, expected: &Type, actual: &Type, depth: u64) -> (agree: bool)
    ensures
        depth > 0 && scalar_type(*expected) && settled_type(*actual) ==> (agree <==> type_eq(
            *expected,
            *actual,
        )),
    decreases depth,
{
    if depth == 0 {
        return true;
    }
    let expected = normalized(module, expected);
    let actual = normalized(module, actual);
    match (&expected, &actual) {
        (Type::Unknown, _) | (_, Type::Unknown) => true,
        (Type::Option(left), Type::Option(right)) | (Type::List(left), Type::List(right)) | (
            Type::Incoming(left),
            Type::Incoming(right),
        ) | (Type::Untrusted(left), Type::Untrusted(right)) | (
            Type::Candidate(left),
            Type::Candidate(right),
        ) | (Type::Checked(left), Type::Checked(right)) | (
            Type::Observation(left),
            Type::Observation(right),
        ) | (Type::Secret(left), Type::Secret(right)) => compatible_within(
            module,
            left,
            right,
            depth - 1,
        ),
        (Type::Result(left_ok, left_error), Type::Result(right_ok, right_error)) => {
            compatible_within(module, left_ok, right_ok, depth - 1) && compatible_within(
                module,
                left_error,
                right_error,
                depth - 1,
            )
        },
        _ => expected.same(&actual),
    }
}

/// Where a scalar type is required, a settled type of another kind is
/// reported at `span`: as unvalidated candidate data when it carries a
/// candidate, as a type mismatch otherwise.
pub open spec fn mismatch_reported(out: Seq<Diagnostic>, expected: Type, actual: Type, span: Span) -> bool {
    scalar_type(expected) && settled_type(actual) && !type_eq(expected, actual) ==> if carries_candidate(
        actual,
    ) {
        has_report(out, KnownDiagnosticCode::CandidateBeforeValidation, span)
    } else {
        has_report(out, KnownDiagnosticCode::TypeMismatch, span)
    }
}

/// Reports candidate data used where a `Candidate` is not expected, or a
/// type that does not agree with the expected one.
pub fn expect_type(
    module: &Module,
    out: &mut Vec<Diagnostic>,
    expected: &Type,
    actual: &Type,
    span: &Span,
)
    ensures
        extends(old(out)@, final(out)@),
        mismatch_reported(final(out)@, *expected, *actual, *span),
{
    if actual.contains_candidate() && !matches!(expected, Type::Candidate(_)) {
        report(
            out,
            KnownDiagnosticCode::CandidateBeforeValidation,
            "candidate data must be validated before ordinary use",
            span,
            "validate the candidate before passing its data",
        );
        proof {
            assert(out@[out@.len() - 1].primary_span == *span);
            assert(has_report(out@, KnownDiagnosticCode::CandidateBeforeValidation, *span));
        }
        return;
    }
    if !compatible(module, expected, actual) {
        let mut message = String::new();
        push_str(&mut message, "expected ");
        write_type_debug(&mut message, expected);
        push_str(&mut message, ", found ");
        write_type_debug(&mut message, actual);
        type_mismatch(out, message.as_str(), span);
        proof {
            assert(has_report(out@, KnownDiagnosticCode::TypeMismatch, *span)) by {
                assert(out@[out@.len() - 1].primary_span == *span);
            }
        }
    }
}

/// The affine diagnostic code of a type holding a proposal or permit.
fn affine_code(module: &Module, ty: &Type) -> (code: Option<KnownDiagnosticCode>) {
    let mut seen: Vec<String> = Vec::new();
    affine_code_with_seen(module, ty, &mut seen, WALK_DEPTH)
}

fn affine_code_with_seen(module: &Module, ty: &Type, seen: &mut Vec<String>, depth: u64) -> (code: Option<
    KnownDiagnosticCode,
>)
    decreases depth,
{
    if depth == 0 {
        return None;
    }
    match normalized(module, ty) {
        Type::Proposal(_) => Some(KnownDiagnosticCode::ProposalUseAfterMove),
        Type::Permit(_) => Some(KnownDiagnosticCode::PermitUseAfterMove),
        Type::Option(inner) | Type::List(inner) | Type::Incoming(inner) | Type::Untrusted(inner)
        | Type::Candidate(inner) | Type::Checked(inner) | Type::Observation(inner) | Type::Secret(
            inner,
        ) => affine_code_with_seen(module, &inner, seen, depth - 1),
        Type::Result(ok, error) => {
            let first = affine_code_with_seen(module, &ok, seen, depth - 1);
            if first.is_some() {
                first
            } else {
                affine_code_with_seen(module, &error, seen, depth - 1)
            }
        },
        Type::Named(name) => {
            if contains_text(seen, name.as_str()) {
                return None;
            }
            seen.push(name.clone());
            let mut result: Option<KnownDiagnosticCode> = None;
            if let Some(declaration) = type_declaration(module, name.as_str()) {
                match &declaration.definition {
                    TypeDefinition::Alias(alias) => {
                        let target = resolve_type(module, alias);
                        result = affine_code_with_seen(module, &target, seen, depth - 1);
                    },
                    TypeDefinition::Record(fields) => {
                        let mut i: usize = 0;
                        while i < fields.len() && result.is_none()
                            invariant
                                depth > 0,
                            decreases fields@.len() - i,
                        {
                            let field_ty = resolve_type(module, &fields[i].ty);
                            result = affine_code_with_seen(module, &field_ty, seen, depth - 1);
                            i = i + 1;
                        }
                    },
                }
            }
            if result.is_none() {
                if let Some(declaration) = enum_declaration(module, name.as_str()) {
                    let mut i: usize = 0;
                    while i < declaration.variants.len() && result.is_none()
                        invariant
                            depth > 0,
                        decreases declaration.variants@.len() - i,
                    {
                        if let Some(payload) = &declaration.variants[i].payload {
                            let payload_ty = resolve_type(module, payload);
                            result = affine_code_with_seen(module, &payload_ty, seen, depth - 1);
                        }
                        i = i + 1;
                    }
                }
            }
            if seen.len() > 0 {
                seen.pop();
            }
            result
        },
        _ => None,
    }
}

/// Whether a type holds a proposal or permit, which may be used once.
pub fn is_affine(module: &Module, ty: &Type) -> (affine: bool) {
    affine_code(module, ty).is_some()
}

/// Whether values of a type can be compared structurally.
pub fn is_equatable(module: &Module, ty: &Type) -> (equatable: bool) {
    let mut seen: Vec<String> = Vec::new();
    equatable_with_seen(module, ty, &mut seen, WALK_DEPTH)
}

fn equatable_with_seen(module: &Module, ty: &Type, seen: &mut Vec<String>, depth: u64) -> (equatable: bool)
    decreases depth,
{
    if depth == 0 {
        return true;
    }
    match normalized(module, ty) {
        Type::Unit | Type::Bool | Type::Int | Type::Text | Type::Instant | Type::Duration
        | Type::ProvenanceRef | Type::Error => true,
        Type::Option(inner) | Type::List(inner) => equatable_with_seen(module, &inner, seen, depth - 1),
        Type::Result(ok, error) => equatable_with_seen(module, &ok, seen, depth - 1)
            && equatable_with_seen(module, &error, seen, depth - 1),
        Type::Named(name) => {
            if contains_text(seen, name.as_str()) {
                return true;
            }
            seen.push(name.clone());
            let result = if let Some(declaration) = type_declaration(module, name.as_str()) {
                match &declaration.definition {
                    TypeDefinition::Alias(alias) => {
                        let target = resolve_type(module, alias);
                        equatable_with_seen(module, &target, seen, depth - 1)
                    },
                    TypeDefinition::Record(fields) => {
                        let mut all = true;
                        let mut i: usize = 0;
                        while i < fields.len() && all
                            invariant
                                depth > 0,
                            decreases fields@.len() - i,
                        {
                            let field_ty = resolve_type(module, &fields[i].ty);
                            all = equatable_with_seen(module, &field_ty, seen, depth - 1);
                            i = i + 1;
                        }
                        all
                    },
                }
            } else if let Some(declaration) = enum_declaration(module, name.as_str()) {
                let mut all = true;
                let mut i: usize = 0;
                while i < declaration.variants.len() && all
                    invariant
                        depth > 0,
                    decreases declaration.variants@.len() - i,
                {
                    if let Some(payload) = &declaration.variants[i].payload {
                        let payload_ty = resolve_type(module, payload);
                        all = equatable_with_seen(module, &payload_ty, seen, depth - 1);
                    }
                    i = i + 1;
                }
                all
            } else {
                false
            };
            if seen.len() > 0 {
                seen.pop();
            }
            result
        },
        _ => false,
    }
}

fn effect(out: &mut Vec<Diagnostic>, context: &CheckContext, capability: Option<&str>, span: &Span)
    ensures
        extends(old(out)@, final(out)@),
{
    if context.pure {
        report(
            out,
            KnownDiagnosticCode::EffectInPureContext,
            "external effect is not allowed in a pure context",
            span,
            "move this operation to a flow or event handler",
        );
        return;
    }
    require_capability(out, context, capability, span);
}

fn require_capability(
    out: &mut Vec<Diagnostic>,
    context: &CheckContext,
    capability: Option<&str>,
    span: &Span,
)
    ensures
        extends(old(out)@, final(out)@),
{
    if let Some(capability) = capability {
        if !contains_text(&context.allowed_capabilities, capability) {
            let message = concat3("missing declared capability `", capability, "`");
            report(
                out,
                KnownDiagnosticCode::MissingCapability,
                message.as_str(),
                span,
                "add the capability kind to `uses` or `requires`",
            );
        }
    }
}

fn expression_path(expression: &Expression) -> (path: Option<&Path>) {
    match &expression.kind {
        ExpressionKind::Path { path } => Some(path),
        _ => None,
    }
}

/// Marks a bare name as moved when an affine value leaves it.
fn mark_expression_moved(expression: &Expression, environment: &mut Environment) {
    if let Some(path) = expression_path(expression) {
        if path.segments.len() == 1 {
            environment.mark_moved(path.segments[0].as_str());
        }
    }
}

fn project_type(module: &Module, out: &mut Vec<Diagnostic>, ty: &Type, field: &str, span: &Span) -> (projected: Type)
    ensures
        extends(old(out)@, final(out)@),
{
    let is_value = str_equal(field, "value");
    let target = normalized(module, ty);
    if is_value {
        match &target {
            Type::Candidate(_) => {
                report(
                    out,
                    KnownDiagnosticCode::CandidateBeforeValidation,
                    "candidate data must be validated before use",
                    span,
                    "use `validate candidate with <Validator>`",
                );
                return Type::Unknown;
            },
            Type::Incoming(inner) | Type::Untrusted(inner) | Type::Checked(inner)
            | Type::Observation(inner) => {
                return inner.duplicate();
            },
            Type::Receipt(action) | Type::Reconciled(action) => {
                return tool_result(module, action.as_str());
            },
            _ => {},
        }
    }
    if str_equal(field, "args") {
        if let Type::Proposal(action) = &target {
            return Type::ToolArguments(action.clone());
        }
    }
    match field_type(module, &target, field) {
        Some(found) => found,
        None => {
            let message = concat3("type has no field `", field, "`");
            type_mismatch(out, message.as_str(), span);
            Type::Unknown
        },
    }
}

fn resolve_path(module: &Module, out: &mut Vec<Diagnostic>, path: &Path, environment: &Environment) -> (ty: Type)
    ensures
        extends(old(out)@, final(out)@),
{
    let spelled = path.as_string();
    if let Some((enum_name, payload)) = enum_variant(module, spelled.as_str()) {
        if payload.is_none() {
            return Type::Named(enum_name);
        }
    }
    if path.segments.len() == 0 {
        return Type::Unknown;
    }
    let first = &path.segments[0];
    let mut ty = match environment.get(first.as_str()) {
        Some(binding) => {
            if binding.moved {
                let code = match affine_code(module, &binding.ty) {
                    Some(code) => code,
                    None => KnownDiagnosticCode::TypeMismatch,
                };
                report(
                    out,
                    code,
                    "affine value used after commit",
                    &path.span,
                    "construct and authorize a fresh proposal",
                );
            }
            binding.ty.duplicate()
        },
        None => {
            if str_equal(first.as_str(), "Unit") {
                Type::Unit
            } else if str_equal(first.as_str(), "None") {
                Type::Option(Box::new(Type::Unknown))
            } else {
                let message = concat3("unknown name `", first.as_str(), "`");
                report(
                    out,
                    KnownDiagnosticCode::UnknownName,
                    message.as_str(),
                    &path.span,
                    "declare this name before using it",
                );
                return Type::Unknown;
            }
        },
    };
    let mut i: usize = 1;
    while i < path.segments.len()
        invariant
            extends(old(out)@, out@),
        decreases path.segments@.len() - i,
    {
        ty = project_type(module, out, &ty, path.segments[i].as_str(), &path.span);
        i = i + 1;
    }
    ty
}

/// Checks a statement block in order.
/// The literal operands of the binary expression a statement evaluates at
/// its top are checked against the operator's required type.
pub open spec fn statement_literal_operands_checked(out: Seq<Diagnostic>, statement: Statement) -> bool {
    match statement.kind {
        StatementKind::Let { value, .. } => literal_operands_checked(out, value),
        StatementKind::Require { condition } => literal_operands_checked(out, condition),
        StatementKind::Return { value } => literal_operands_checked(out, value),
        StatementKind::Expression { expression } => literal_operands_checked(out, expression),
        StatementKind::UpdateState { .. } => true,
    }
}

/// Every statement of a block has its top literal operands checked.
pub open spec fn block_literal_operands_checked(out: Seq<Diagnostic>, block: Block) -> bool {
    forall|i: int|
        0 <= i < block.statements@.len() ==> statement_literal_operands_checked(out, #[trigger] block.statements@[i])
}

/// What one list reports of a block's literal operands, a list that reports
/// at least as much reports too.
pub proof fn lemma_block_literal_operands_reported(a: Seq<Diagnostic>, b: Seq<Diagnostic>, block: Block)
    requires
        block_literal_operands_checked(a, block),
        forall|code: KnownDiagnosticCode, span: Span| has_report(a, code, span) ==> #[trigger] has_report(b, code, span),
    ensures
        block_literal_operands_checked(b, block),
{
}

pub fn check_block(
    module: &Module,
    out: &mut Vec<Diagnostic>,
    block: &Block,
    environment: &mut Environment,
    context: &CheckContext,
)
    ensures
        extends(old(out)@, final(out)@),
        block_literal_operands_checked(final(out)@, *block),
    decreases block, 3nat,
{
    let mut i: usize = 0;
    while i < block.statements.len()
        invariant
            i <= block.statements@.len(),
            extends(old(out)@, out@),
            forall|k: int| 0 <= k < i ==> statement_literal_operands_checked(out@, #[trigger] block.statements@[k]),
        decreases block.statements@.len() - i,
    {
        let ghost before = out@;
        check_statement(module, out, &block.statements[i], environment, context);
        proof {
            lemma_has_report_kept(before, out@);
        }
        i = i + 1;
    }
}

fn check_statement(
    module: &Module,
    out: &mut Vec<Diagnostic>,
    statement: &Statement,
    environment: &mut Environment,
    context: &CheckContext,
)
    ensures
        extends(old(out)@, final(out)@),
        statement_literal_operands_checked(final(out)@, *statement),
    decreases statement, 2nat,
{
    let ghost start = out@;
    match &statement.kind {
        StatementKind::Let { name, ty, value } => {
            let actual = check_expression(module, out, value, environment, context);
            let ghost checked = out@;
            let bound = match ty {
                None => actual.duplicate(),
                Some(annotation) => {
                    let expected = resolve_type(module, annotation);
                    expect_type(module, out, &expected, &actual, &value.span);
                    expected
                },
            };
            if is_affine(module, &actual) {
                mark_expression_moved(value, environment);
            }
            environment.insert(name.as_str(), bound);
            proof {
                lemma_has_report_kept(checked, out@);
            }
        },
        StatementKind::Require { condition } => {
            let actual = check_expression(module, out, condition, environment, context);
            let ghost checked = out@;
            expect_type(module, out, &Type::Bool, &actual, &condition.span);
            proof {
                lemma_has_report_kept(checked, out@);
            }
        },
        StatementKind::UpdateState { fields } => {
            check_state_update(module, out, fields, environment, context);
        },
        StatementKind::Return { value } => {
            let actual = check_expression(module, out, value, environment, context);
            let ghost checked = out@;
            expect_type(module, out, &context.return_type, &actual, &value.span);
            if is_affine(module, &actual) {
                mark_expression_moved(value, environment);
            }
            proof {
                lemma_has_report_kept(checked, out@);
            }
        },
        StatementKind::Expression { expression } => {
            check_expression(module, out, expression, environment, context);
        },
    }
}

fn check_state_update(
    module: &Module,
    out: &mut Vec<Diagnostic>,
    fields: &Vec<FieldInitializer>,
    environment: &mut Environment,
    context: &CheckContext,
)
    ensures
        extends(old(out)@, final(out)@),
    decreases fields@, 1nat,
{
    let agent_name = match &context.agent {
        Some(name) => name,
        None => {
            let mut i: usize = 0;
            while i < fields.len()
                invariant
                    extends(old(out)@, out@),
                decreases fields@.len() - i,
            {
                check_expression(module, out, &fields[i].value, environment, context);
                i = i + 1;
            }
            if fields.len() > 0 {
                type_mismatch(
                    out,
                    "state can be updated only inside an agent handler",
                    &fields[0].span,
                );
            }
            return;
        },
    };
    let agent = match agent_declaration(module, agent_name.as_str()) {
        Some(agent) => agent,
        None => return,
    };
    let mut seen: Vec<String> = Vec::new();
    let mut i: usize = 0;
    while i < fields.len()
        invariant
            extends(old(out)@, out@),
        decreases fields@.len() - i,
    {
        let field = &fields[i];
        let actual = check_expression(module, out, &field.value, environment, context);
        if contains_text(&seen, field.name.as_str()) {
            let message = concat3("state field `", field.name.as_str(), "` is updated more than once");
            report(
                out,
                KnownDiagnosticCode::DuplicateDeclaration,
                message.as_str(),
                &field.span,
                "update each state field at most once per transaction",
            );
        } else {
            seen.push(field.name.clone());
        }
        let mut found: Option<usize> = None;
        let mut k: usize = 0;
        while k < agent.state.len() && found.is_none()
            invariant
                found matches Some(f) ==> f < agent.state@.len(),
            decreases agent.state@.len() - k,
        {
            if str_equal(agent.state[k].name.as_str(), field.name.as_str()) {
                found = Some(k);
            }
            k = k + 1;
        }
        match found {
            None => {
                let message = concat3("unknown mutable state field `", field.name.as_str(), "`");
                report(
                    out,
                    KnownDiagnosticCode::UnknownName,
                    message.as_str(),
                    &field.span,
                    "update a field declared in the agent state block",
                );
            },
            Some(f) => {
                let expected = resolve_type(module, &agent.state[f].ty);
                expect_type(module, out, &expected, &actual, &field.value.span);
            },
        }
        i = i + 1;
    }
}

/// Checks an expression and returns its type.
/// The type of a literal expression.
pub open spec fn literal_type(kind: ExpressionKind) -> Option<Type> {
    match kind {
        ExpressionKind::Unit => Some(Type::Unit),
        ExpressionKind::Bool { .. } => Some(Type::Bool),
        ExpressionKind::Int { .. } => Some(Type::Int),
        ExpressionKind::Text { .. } => Some(Type::Text),
        _ => None,
    }
}

/// A literal operand of a binary operator whose type differs from the one
/// the operator requires is reported at that operand.
pub open spec fn literal_operands_checked(out: Seq<Diagnostic>, expression: Expression) -> bool {
    expression.kind matches ExpressionKind::Binary { left, operator, right } ==> (operand_type(operator) matches Some(
        required,
    ) ==> {
        &&& (literal_type(left.kind) matches Some(t) ==> mismatch_reported(out, required, t, left.span))
        &&& (literal_type(right.kind) matches Some(t) ==> mismatch_reported(out, required, t, right.span))
    })
}

pub fn check_expression(
    module: &Module,
    out: &mut Vec<Diagnostic>,
    expression: &Expression,
    environment: &mut Environment,
    context: &CheckContext,
) -> (ty: Type)
    ensures
        extends(old(out)@, final(out)@),
        literal_type(expression.kind) matches Some(t) ==> ty == t,
        literal_operands_checked(final(out)@, *expression),
    decreases expression, 1nat,
{
    match &expression.kind {
        ExpressionKind::Unit => Type::Unit,
        ExpressionKind::Bool { .. } => Type::Bool,
        ExpressionKind::Int { .. } => Type::Int,
        ExpressionKind::Text { .. } => Type::Text,
        ExpressionKind::Path { path } => resolve_path(module, out, path, environment),
        ExpressionKind::List { elements } => check_list(module, out, elements, environment, context),
        ExpressionKind::Record { path, fields } => check_record(
            module,
            out,
            path,
            fields,
            &expression.span,
            environment,
            context,
        ),
        ExpressionKind::Field { target, field } => {
            let target_type = check_expression(module, out, target, environment, context);
            project_type(module, out, &target_type, field.as_str(), &expression.span)
        },
        ExpressionKind::Unary { operator, operand } => {
            let actual = check_expression(module, out, operand, environment, context);
            let expected = match operator {
                UnaryOperator::Not => Type::Bool,
                UnaryOperator::Negate => Type::Int,
            };
            expect_type(module, out, &expected, &actual, &operand.span);
            expected
        },
        _ => check_compound(module, out, expression, environment, context),
    }
}

/// Checks the expression forms with several parts.
fn check_compound(
    module: &Module,
    out: &mut Vec<Diagnostic>,
    expression: &Expression,
    environment: &mut Environment,
    context: &CheckContext,
) -> (ty: Type)
    ensures
        extends(old(out)@, final(out)@),
        literal_operands_checked(final(out)@, *expression),
    decreases expression, 0nat,
{
    match &expression.kind {
        ExpressionKind::Call { callee, arguments } => check_call(
            module,
            out,
            callee,
            arguments,
            environment,
            context,
        ),
        ExpressionKind::Binary { left, operator, right } => {
            let left_type = check_expression(module, out, left, environment, context);
            let right_type = check_expression(module, out, right, environment, context);
            let ty = check_binary(module, out, left, *operator, right, &left_type, &right_type);
            proof {
                assert(literal_type(left.kind) matches Some(t) ==> left_type == t);
                assert(literal_type(right.kind) matches Some(t) ==> right_type == t);
                assert(operands_checked(out@, *operator, left_type, left.span, right_type, right.span));
            }
            ty
        },
        ExpressionKind::Try { value } => {
            let actual = check_expression(module, out, value, environment, context);
            check_try(module, out, &actual, &value.span, context)
        },
        ExpressionKind::If { condition, then_block, else_block } => {
            let actual = check_expression(module, out, condition, environment, context);
            expect_type(module, out, &Type::Bool, &actual, &condition.span);
            let mut then_environment = environment.duplicate();
            let mut else_environment = environment.duplicate();
            let then_type = check_block_value(module, out, then_block, &mut then_environment, context);
            let else_type = check_block_value(module, out, else_block, &mut else_environment, context);
            expect_type(module, out, &then_type, &else_type, &else_block.span);
            let mut branches: Vec<Environment> = Vec::new();
            branches.push(then_environment);
            branches.push(else_environment);
            environment.join_moved(&branches);
            then_type
        },
        ExpressionKind::Match { value, arms } => {
            let matched = check_expression(module, out, value, environment, context);
            check_match(module, out, &matched, &value.span, arms, environment, context)
        },
        ExpressionKind::Infer { prompt, arguments, .. } => check_infer(
            module,
            out,
            prompt,
            arguments,
            &expression.span,
            environment,
            context,
        ),
        ExpressionKind::Validate { candidate, validator } => {
            let candidate_type = check_expression(module, out, candidate, environment, context);
            check_validate(module, out, &candidate_type, &candidate.span, validator)
        },
        ExpressionKind::Observe { action, arguments } => check_observe(
            module,
            out,
            action,
            arguments,
            &expression.span,
            environment,
            context,
        ),
        ExpressionKind::Intent { purpose, fields } => check_intent(
            module,
            out,
            purpose,
            fields,
            &expression.span,
            environment,
            context,
        ),
        ExpressionKind::Propose { action, arguments, intent } => {
            let name = action.as_string();
            let tool = match tool_declaration(module, name.as_str()) {
                Some(tool) => tool,
                None => {
                    unknown_reference(out, "tool", action);
                    return Type::Unknown;
                },
            };
            if tool.metadata.mode == Some(ToolMode::Read) {
                report(
                    out,
                    KnownDiagnosticCode::ReadToolProposed,
                    "read tools cannot be proposed",
                    &action.span,
                    "use `observe` for read tools",
                );
                return Type::Unknown;
            }
            let capability = match &tool.metadata.capability {
                Some(value) => Some(value.path.as_string()),
                None => None,
            };
            match &capability {
                Some(c) => require_capability(out, context, Some(c.as_str()), &expression.span),
                None => require_capability(out, context, None, &expression.span),
            }
            check_arguments(
                module,
                out,
                &tool.parameters,
                arguments,
                environment,
                context,
                &expression.span,
            );
            let intent_type = check_expression(module, out, intent, environment, context);
            if !matches!(intent_type, Type::Intent(_)) && !matches!(intent_type, Type::Unknown) {
                type_mismatch(out, "propose requires Intent<P>", &intent.span);
            }
            Type::Proposal(name)
        },
        ExpressionKind::Authorize { proposal, policy } => {
            let proposal_type = check_expression(module, out, proposal, environment, context);
            check_authorize(module, out, &proposal_type, &proposal.span, policy, context)
        },
        ExpressionKind::Commit { proposal, permit } => {
            let proposal_type = check_expression(module, out, proposal, environment, context);
            let permit_type = check_expression(module, out, permit, environment, context);
            let (proposal_action, permit_action) = match (&proposal_type, &permit_type) {
                (Type::Proposal(a), Type::Permit(b)) => (a, b),
                _ => return Type::Unknown,
            };
            if !(*proposal_action == *permit_action) {
                report(
                    out,
                    KnownDiagnosticCode::PermitActionMismatch,
                    "permit action does not match proposal action",
                    &permit.span,
                    "authorize and commit the same proposal",
                );
            }
            let capability = match tool_declaration(module, proposal_action.as_str()) {
                Some(tool) => match &tool.metadata.capability {
                    Some(value) => Some(value.path.as_string()),
                    None => None,
                },
                None => None,
            };
            match &capability {
                Some(c) => effect(out, context, Some(c.as_str()), &proposal.span),
                None => effect(out, context, None, &proposal.span),
            }
            mark_expression_moved(proposal, environment);
            mark_expression_moved(permit, environment);
            Type::Result(
                Box::new(Type::Receipt(proposal_action.clone())),
                Box::new(Type::Error),
            )
        },
        ExpressionKind::Reconcile { receipt, observation, validator } => {
            let receipt_type = check_expression(module, out, receipt, environment, context);
            let observation_type = check_expression(module, out, observation, environment, context);
            check_reconcile(
                module,
                out,
                &receipt_type,
                &receipt.span,
                &observation_type,
                &observation.span,
                validator,
            )
        },
        _ => Type::Unknown,
    }
}

fn check_list(
    module: &Module,
    out: &mut Vec<Diagnostic>,
    elements: &Vec<Expression>,
    environment: &mut Environment,
    context: &CheckContext,
) -> (ty: Type)
    ensures
        extends(old(out)@, final(out)@),
    decreases elements@, 0nat,
{
    let mut element_type = Type::Unknown;
    let mut i: usize = 0;
    while i < elements.len()
        invariant
            extends(old(out)@, out@),
        decreases elements@.len() - i,
    {
        let element = &elements[i];
        let actual = check_expression(module, out, element, environment, context);
        if matches!(element_type, Type::Unknown) {
            element_type = actual.duplicate();
        } else {
            expect_type(module, out, &element_type, &actual, &element.span);
        }
        if is_affine(module, &actual) {
            mark_expression_moved(element, environment);
        }
        i = i + 1;
    }
    Type::List(Box::new(element_type))
}

fn check_record(
    module: &Module,
    out: &mut Vec<Diagnostic>,
    path: &Path,
    fields: &Vec<FieldInitializer>,
    span: &Span,
    environment: &mut Environment,
    context: &CheckContext,
) -> (ty: Type)
    ensures
        extends(old(out)@, final(out)@),
    decreases fields@, 0nat,
{
    let name = path.as_string();
    let declaration = match type_declaration(module, name.as_str()) {
        Some(declaration) => declaration,
        None => {
            let message = concat3("unknown record type `", name.as_str(), "`");
            report(
                out,
                KnownDiagnosticCode::UnknownName,
                message.as_str(),
                &path.span,
                "construct a declared record type",
            );
            let mut i: usize = 0;
            while i < fields.len()
                invariant
                    extends(old(out)@, out@),
                decreases fields@.len() - i,
            {
                check_expression(module, out, &fields[i].value, environment, context);
                i = i + 1;
            }
            return Type::Unknown;
        },
    };
    let declared = match &declaration.definition {
        TypeDefinition::Record(declared) => declared,
        TypeDefinition::Alias(_) => {
            type_mismatch(out, "record construction requires a record type", &path.span);
            return Type::Unknown;
        },
    };
    let mut seen: Vec<String> = Vec::new();
    let mut i: usize = 0;
    while i < fields.len()
        invariant
            extends(old(out)@, out@),
        decreases fields@.len() - i,
    {
        let field = &fields[i];
        let actual = check_expression(module, out, &field.value, environment, context);
        if is_affine(module, &actual) {
            mark_expression_moved(&field.value, environment);
        }
        if contains_text(&seen, field.name.as_str()) {
            let message = concat3("duplicate record field `", field.name.as_str(), "`");
            report(
                out,
                KnownDiagnosticCode::DuplicateDeclaration,
                message.as_str(),
                &field.span,
                "initialize each record field exactly once",
            );
        } else {
            seen.push(field.name.clone());
        }
        let mut found: Option<usize> = None;
        let mut k: usize = 0;
        while k < declared.len()
            invariant
                found matches Some(f) ==> f < declared@.len(),
            decreases declared@.len() - k,
        {
            if str_equal(declared[k].name.as_str(), field.name.as_str()) {
                found = Some(k);
            }
            k = k + 1;
        }
        match found {
            Some(f) => {
                let expected = resolve_type(module, &declared[f].ty);
                expect_type(module, out, &expected, &actual, &field.value.span);
            },
            None => {
                let mut message = String::new();
                push_str(&mut message, "unknown field `");
                push_str(&mut message, field.name.as_str());
                push_str(&mut message, "` for record `");
                push_str(&mut message, name.as_str());
                push_str(&mut message, "`");
                report(
                    out,
                    KnownDiagnosticCode::UnknownName,
                    message.as_str(),
                    &field.span,
                    "remove the field or use a declared record field",
                );
            },
        }
        i = i + 1;
    }
    let mut missing: Vec<String> = Vec::new();
    let mut k: usize = 0;
    while k < declared.len()
        decreases declared@.len() - k,
    {
        let field_name = &declared[k].name;
        if !contains_text(&seen, field_name.as_str()) && !contains_text(&missing, field_name.as_str()) {
            missing.push(field_name.clone());
        }
        k = k + 1;
    }
    if missing.len() > 0 {
        let sorted = sort_names(missing);
        let list = join_comma(&sorted);
        let mut message = String::new();
        push_str(&mut message, "record `");
        push_str(&mut message, name.as_str());
        push_str(&mut message, "` is missing fields: ");
        push_str(&mut message, list.as_str());
        report(
            out,
            KnownDiagnosticCode::TypeMismatch,
            message.as_str(),
            span,
            "initialize every declared record field exactly once",
        );
    }
    Type::Named(name)
}

fn check_try(
    module: &Module,
    out: &mut Vec<Diagnostic>,
    actual: &Type,
    span: &Span,
    context: &CheckContext,
) -> (ty: Type)
    ensures
        extends(old(out)@, final(out)@),
{
    let result_context = match normalized(module, &context.return_type) {
        Type::Result(_, error) => compatible(module, &Type::Error, &error),
        _ => false,
    };
    if !result_context {
        type_mismatch(
            out,
            "postfix `?` requires the enclosing callable to return Result<T, Error>",
            span,
        );
    }
    match normalized(module, actual) {
        Type::Result(ok, error) => {
            expect_type(module, out, &Type::Error, &error, span);
            *ok
        },
        _ => {
            type_mismatch(out, "postfix `?` requires Result<T, Error>", span);
            Type::Unknown
        },
    }
}

fn check_block_value(
    module: &Module,
    out: &mut Vec<Diagnostic>,
    block: &Block,
    environment: &mut Environment,
    context: &CheckContext,
) -> (ty: Type)
    ensures
        extends(old(out)@, final(out)@),
    decreases block, 0nat,
{
    let n = block.statements.len();
    if n == 0 {
        return Type::Unit;
    }
    let mut i: usize = 0;
    while i < n - 1
        invariant
            n == block.statements@.len(),
            n > 0,
            extends(old(out)@, out@),
        decreases n - i,
    {
        check_statement(module, out, &block.statements[i], environment, context);
        i = i + 1;
    }
    let last = &block.statements[n - 1];
    match &last.kind {
        StatementKind::Expression { expression } => {
            let ty = check_expression(module, out, expression, environment, context);
            if is_affine(module, &ty) {
                mark_expression_moved(expression, environment);
            }
            ty
        },
        _ => {
            check_statement(module, out, last, environment, context);
            Type::Unit
        },
    }
}

/// The variants of a matchable type with their payload types, in name order,
/// and the name of the matched type.
fn match_variants(module: &Module, ty: &Type) -> (variants: Option<(Vec<(String, Option<Type>)>, String)>) {
    match normalized(module, ty) {
        Type::Named(name) => {
            let declaration = enum_declaration(module, name.as_str())?;
            let mut names: Vec<String> = Vec::new();
            let mut i: usize = 0;
            while i < declaration.variants.len()
                decreases declaration.variants@.len() - i,
            {
                let variant_name = &declaration.variants[i].name;
                if !contains_text(&names, variant_name.as_str()) {
                    names.push(variant_name.clone());
                }
                i = i + 1;
            }
            let names = sort_names(names);
            let mut variants: Vec<(String, Option<Type>)> = Vec::new();
            let mut k: usize = 0;
            while k < names.len()
                decreases names@.len() - k,
            {
                let mut payload: Option<Type> = None;
                let mut j: usize = 0;
                while j < declaration.variants.len()
                    invariant
                        k < names@.len(),
                    decreases declaration.variants@.len() - j,
                {
                    if str_equal(declaration.variants[j].name.as_str(), names[k].as_str()) {
                        payload = match &declaration.variants[j].payload {
                            Some(p) => Some(resolve_type(module, p)),
                            None => None,
                        };
                    }
                    j = j + 1;
                }
                variants.push((names[k].clone(), payload));
                k = k + 1;
            }
            Some((variants, name))
        },
        Type::Option(inner) => {
            let mut variants: Vec<(String, Option<Type>)> = Vec::new();
            variants.push((String::from_str("None"), None));
            variants.push((String::from_str("Some"), Some(*inner)));
            Some((variants, String::from_str("Option")))
        },
        Type::Result(ok, error) => {
            let mut variants: Vec<(String, Option<Type>)> = Vec::new();
            variants.push((String::from_str("Err"), Some(*error)));
            variants.push((String::from_str("Ok"), Some(*ok)));
            Some((variants, String::from_str("Result")))
        },
        _ => None,
    }
}

fn pattern_belongs_to(out: &mut Vec<Diagnostic>, path: &Path, enum_name: &str) -> (belongs: bool)
    ensures
        extends(old(out)@, final(out)@),
        belongs == (path.segments@.len() <= 1 || (path.segments@.len() == 2 && path.segments@[0]@
            == enum_name@)),
        belongs ==> final(out)@ == old(out)@,
        !belongs ==> final(out)@ == old(out)@.push(final(out)@.last()) && reported(
            final(out)@.last(),
            KnownDiagnosticCode::UnknownName,
            "pattern `"@ + crate::ast::dotted(crate::ast::string_views(path.segments@))
                + "` does not belong to `"@ + enum_name@ + "`"@,
            path.span,
            "use a variant of the matched type"@,
        ),
{
    let n = path.segments.len();
    if n <= 1 || (n == 2 && str_equal(path.segments[0].as_str(), enum_name)) {
        return true;
    }
    let spelled = path.as_string();
    let mut message = String::new();
    push_str(&mut message, "pattern `");
    push_str(&mut message, spelled.as_str());
    push_str(&mut message, "` does not belong to `");
    push_str(&mut message, enum_name);
    push_str(&mut message, "`");
    proof {
        assert(message@ =~= "pattern `"@ + spelled@ + "` does not belong to `"@ + enum_name@ + "`"@);
    }
    report(
        out,
        KnownDiagnosticCode::UnknownName,
        message.as_str(),
        &path.span,
        "use a variant of the matched type",
    );
    false
}


/// Whether `out` holds a diagnostic with this code at this span.
pub open spec fn has_report(out: Seq<Diagnostic>, code: KnownDiagnosticCode, span: Span) -> bool {
    exists|k: int| 0 <= k < out.len() && (#[trigger] out[k]).code@ == known_code_text(code) && out[k].primary_span == span
}

/// Reports stay as diagnostics are added.
pub proof fn lemma_has_report_kept(a: Seq<Diagnostic>, b: Seq<Diagnostic>)
    requires
        extends(a, b),
    ensures
        forall|code: KnownDiagnosticCode, span: Span| has_report(a, code, span) ==> #[trigger] has_report(b, code, span),
{
    assert forall|code: KnownDiagnosticCode, span: Span| has_report(a, code, span) implies #[trigger] has_report(
        b,
        code,
        span,
    ) by {
        let w = choose|w: int| 0 <= w < a.len() && (#[trigger] a[w]).code@ == known_code_text(code) && a[w].primary_span == span;
        assert(b[w] == a[w]);
    }
}

/// The path of a variant pattern.
pub open spec fn arm_path(arm: MatchArm) -> Option<crate::ast::Path> {
    match arm.pattern {
        Pattern::Variant { path, .. } => Some(path),
        Pattern::Wildcard => None,
    }
}

/// What the match checker reports of arm `i`: an arm after a wildcard is
/// unreachable, and an arm repeating an earlier arm's variant path is a
/// duplicate (or, when the path names no variant of the matched type, an
/// unknown name at the path).
pub open spec fn arm_reported(out: Seq<Diagnostic>, arms: Seq<MatchArm>, i: int) -> bool {
    &&& (exists|j: int| 0 <= j < i && (#[trigger] arms[j]).pattern is Wildcard) ==> has_report(
        out,
        KnownDiagnosticCode::TypeMismatch,
        arms[i].span,
    )
    &&& repeats_path(arms, i) ==> has_report(out, KnownDiagnosticCode::DuplicateDeclaration, arms[i].span)
        || has_report(out, KnownDiagnosticCode::UnknownName, arm_path(arms[i])->0.span)
}


/// The variant a pattern path names: its last segment.
pub open spec fn path_variant_name(path: crate::ast::Path) -> Seq<char> {
    if path.segments@.len() > 0 {
        path.segments@.last()@
    } else {
        Seq::empty()
    }
}

/// Whether a pattern path may name a variant of the enum called `enum_name`.
pub open spec fn path_belongs(path: crate::ast::Path, enum_name: Seq<char>) -> bool {
    path.segments@.len() <= 1 || (path.segments@.len() == 2 && path.segments@[0]@ == enum_name)
}

/// Whether arm `i` is a variant pattern whose path an earlier arm spells.
pub open spec fn repeats_path(arms: Seq<MatchArm>, i: int) -> bool {
    &&& arm_path(arms[i]) is Some
    &&& exists|j: int|
        0 <= j < i && (#[trigger] arm_path(arms[j])) is Some && crate::ast::string_views(
            arm_path(arms[j])->0.segments@,
        ) == crate::ast::string_views(arm_path(arms[i])->0.segments@)
}

fn check_match(
    module: &Module,
    out: &mut Vec<Diagnostic>,
    matched: &Type,
    value_span: &Span,
    arms: &Vec<MatchArm>,
    environment: &mut Environment,
    context: &CheckContext,
) -> (ty: Type)
    ensures
        extends(old(out)@, final(out)@),
        has_report(final(out)@, KnownDiagnosticCode::TypeMismatch, *value_span) || forall|i: int|
            0 <= i < arms@.len() ==> #[trigger] arm_reported(final(out)@, arms@, i),
    decreases arms@, 0nat,
{
    let (variants, enum_name) = match match_variants(module, matched) {
        Some(found) => found,
        None => {
            type_mismatch(out, "match requires an enum, Option, or Result value", value_span);
            return Type::Unknown;
        },
    };
    let mut result = Type::Unknown;
    let mut covered: Vec<String> = Vec::new();
    let mut wildcard = false;
    let mut invalid_pattern = false;
    let mut arm_environments: Vec<Environment> = Vec::new();
    let mut i: usize = 0;
    while i < arms.len()
        invariant
            i <= arms@.len(),
            extends(old(out)@, out@),
            wildcard == exists|j: int| 0 <= j < i && (#[trigger] arms@[j]).pattern is Wildcard,
            forall|j: int| 0 <= j < i ==> #[trigger] arm_reported(out@, arms@, j),
            forall|j: int|
                0 <= j < i && (#[trigger] arm_path(arms@[j])) is Some && path_belongs(
                    arm_path(arms@[j])->0,
                    enum_name@,
                ) && (exists|k: int|
                    0 <= k < variants@.len() && variants@[k].0@ == path_variant_name(arm_path(arms@[j])->0))
                    ==> exists|c: int|
                    0 <= c < covered@.len() && covered@[c]@ == path_variant_name(arm_path(arms@[j])->0),
        decreases arms@.len() - i,
    {
        let arm = &arms[i];
        let ghost start_out = out@;
        let ghost start_covered = covered@;
        let mut arm_environment = environment.duplicate();
        if wildcard {
            type_mismatch(out, "match arm after wildcard is unreachable", &arm.span);
        }
        let ghost after_wildcard = out@;
        let mut usable = true;
        match &arm.pattern {
            Pattern::Wildcard => {
                wildcard = true;
            },
            Pattern::Variant { path, binding } => {
                if !pattern_belongs_to(out, path, enum_name.as_str()) {
                    proof {
                        assert(has_report(out@, KnownDiagnosticCode::UnknownName, path.span)) by {
                            assert(out@[out@.len() - 1].primary_span == path.span);
                        }
                    }
                    invalid_pattern = true;
                    usable = false;
                } else {
                    let count = path.segments.len();
                    let variant: String = if count > 0 {
                        path.segments[count - 1].clone()
                    } else {
                        String::new()
                    };
                    let mut found: Option<usize> = None;
                    let mut k: usize = 0;
                    while k < variants.len()
                        invariant
                            k <= variants@.len(),
                            found matches Some(f) ==> f < variants@.len() && variants@[f as int].0@ == variant@,
                            found is None ==> forall|q: int| 0 <= q < k ==> variants@[q].0@ != variant@,
                        decreases variants@.len() - k,
                    {
                        if str_equal(variants[k].0.as_str(), variant.as_str()) {
                            found = Some(k);
                        }
                        k = k + 1;
                    }
                    proof {
                        assert(arm_path(arms@[i as int]) == Some(*path));
                        assert(variant@ == path_variant_name(*path));
                        if repeats_path(arms@, i as int) {
                            let j = choose|j: int|
                                0 <= j < i && (#[trigger] arm_path(arms@[j])) is Some && crate::ast::string_views(
                                    arm_path(arms@[j])->0.segments@,
                                ) == crate::ast::string_views(arm_path(arms@[i as int])->0.segments@);
                            let q = arm_path(arms@[j])->0;
                            assert(crate::ast::string_views(q.segments@).len() == q.segments@.len());
                            assert(crate::ast::string_views(path.segments@).len() == path.segments@.len());
                            if q.segments@.len() > 0 {
                                assert(crate::ast::string_views(q.segments@)[0] == q.segments@[0]@);
                                assert(crate::ast::string_views(path.segments@)[0] == path.segments@[0]@);
                                let n = q.segments@.len() - 1;
                                assert(crate::ast::string_views(q.segments@)[n] == q.segments@[n]@);
                                assert(crate::ast::string_views(path.segments@)[n] == path.segments@[n]@);
                            }
                            assert(path_belongs(q, enum_name@));
                            assert(path_variant_name(q) == variant@);
                        }
                    }
                    match found {
                        None => {
                            let spelled = path.as_string();
                            let mut message = String::new();
                            push_str(&mut message, "unknown variant `");
                            push_str(&mut message, spelled.as_str());
                            push_str(&mut message, "` for `");
                            push_str(&mut message, enum_name.as_str());
                            push_str(&mut message, "`");
                            report(
                                out,
                                KnownDiagnosticCode::UnknownName,
                                message.as_str(),
                                &path.span,
                                "use a variant of the matched type",
                            );
                            proof {
                                assert(has_report(out@, KnownDiagnosticCode::UnknownName, path.span)) by {
                                    assert(out@[out@.len() - 1].primary_span == path.span);
                                }
                            }
                            invalid_pattern = true;
                            usable = false;
                        },
                        Some(f) => {
                            if contains_text(&covered, variant.as_str()) {
                                let message = concat3(
                                    "duplicate match arm for `",
                                    variant.as_str(),
                                    "`",
                                );
                                report(
                                    out,
                                    KnownDiagnosticCode::DuplicateDeclaration,
                                    message.as_str(),
                                    &arm.span,
                                    "match each variant at most once",
                                );
                                proof {
                                    assert(has_report(out@, KnownDiagnosticCode::DuplicateDeclaration, arm.span)) by {
                                        assert(out@[out@.len() - 1].primary_span == arm.span);
                                    }
                                }
                            } else {
                                covered.push(variant.clone());
                                proof {
                                    assert(covered@[covered@.len() - 1]@ == variant@);
                                }
                            }
                            proof {
                                assert(exists|c: int| 0 <= c < covered@.len() && covered@[c]@ == variant@);
                                assert forall|c: int| 0 <= c < start_covered.len() implies covered@[c] == start_covered[c] by {}
                            }
                            match (&variants[f].1, binding) {
                                (Some(payload), Some(name)) => {
                                    arm_environment.insert(name.as_str(), payload.duplicate());
                                },
                                (None, None) => {},
                                (Some(_), None) => {
                                    let message = concat3(
                                        "payload variant `",
                                        variant.as_str(),
                                        "` requires a binding",
                                    );
                                    type_mismatch(out, message.as_str(), &arm.span);
                                },
                                (None, Some(_)) => {
                                    let message = concat3(
                                        "nullary variant `",
                                        variant.as_str(),
                                        "` cannot bind a payload",
                                    );
                                    type_mismatch(out, message.as_str(), &arm.span);
                                },
                            }
                        },
                    }
                }
            },
        }
        proof {
            lemma_has_report_kept(after_wildcard, out@);
            assert(arm_reported(out@, arms@, i as int));
        }
        let ghost after_pattern = out@;
        if usable {
            let actual = check_expression(module, out, &arm.value, &mut arm_environment, context);
            if is_affine(module, &actual) {
                mark_expression_moved(&arm.value, &mut arm_environment);
            }
            if matches!(result, Type::Unknown) {
                result = actual;
            } else {
                expect_type(module, out, &result, &actual, &arm.value.span);
            }
            arm_environments.push(arm_environment);
        }
        proof {
            lemma_has_report_kept(after_pattern, out@);
            lemma_has_report_kept(start_out, out@);
            assert forall|j: int| 0 <= j < i + 1 implies #[trigger] arm_reported(out@, arms@, j) by {
                if j < i {
                    assert(arm_reported(start_out, arms@, j));
                }
            }
        }
        i = i + 1;
    }
    if !wildcard && !invalid_pattern {
        let mut missing: Vec<String> = Vec::new();
        let mut k: usize = 0;
        while k < variants.len()
            decreases variants@.len() - k,
        {
            if !contains_text(&covered, variants[k].0.as_str()) {
                missing.push(variants[k].0.clone());
            }
            k = k + 1;
        }
        if missing.len() > 0 {
            let list = join_comma(&missing);
            let message = concat3("non-exhaustive match; missing ", list.as_str(), "");
            report(
                out,
                KnownDiagnosticCode::TypeMismatch,
                message.as_str(),
                value_span,
                "cover every variant or add a wildcard arm",
            );
        }
    }
    environment.join_moved(&arm_environments);
    result
}

fn check_call(
    module: &Module,
    out: &mut Vec<Diagnostic>,
    callee: &Expression,
    arguments: &Vec<Argument>,
    environment: &mut Environment,
    context: &CheckContext,
) -> (ty: Type)
    ensures
        extends(old(out)@, final(out)@),
    decreases arguments@, 1nat,
{
    let path = match expression_path(callee) {
        Some(path) => path,
        None => {
            type_mismatch(out, "callee is not a statically resolved function", &callee.span);
            return Type::Unknown;
        },
    };
    let name = path.as_string();
    if tool_declaration(module, name.as_str()).is_some() {
        report(
            out,
            KnownDiagnosticCode::DirectToolCall,
            "tools cannot be called as ordinary functions",
            &path.span,
            "use `observe` for reads or the governed write pipeline",
        );
        return Type::Unknown;
    }
    if let Some(function) = function_declaration(module, name.as_str()) {
        check_arguments(
            module,
            out,
            &function.parameters,
            arguments,
            environment,
            context,
            &callee.span,
        );
        return resolve_type(module, &function.return_type);
    }
    if let Some(flow) = flow_declaration(module, name.as_str()) {
        effect(out, context, None, &callee.span);
        let mut k: usize = 0;
        while k < flow.uses.len()
            invariant
                extends(old(out)@, out@),
            decreases flow.uses@.len() - k,
        {
            let capability = flow.uses[k].path.as_string();
            effect(out, context, Some(capability.as_str()), &callee.span);
            k = k + 1;
        }
        check_arguments(
            module,
            out,
            &flow.parameters,
            arguments,
            environment,
            context,
            &callee.span,
        );
        return resolve_type(module, &flow.return_type);
    }
    if let Some((enum_name, payload)) = enum_variant(module, name.as_str()) {
        let mut values: Vec<Type> = Vec::new();
        let mut i: usize = 0;
        while i < arguments.len()
            invariant
                extends(old(out)@, out@),
            decreases arguments@.len() - i,
        {
            values.push(check_expression(module, out, &arguments[i].value, environment, context));
            i = i + 1;
        }
        match payload {
            None => {
                if values.len() != 0 {
                    type_mismatch(out, "enum constructor argument mismatch", &callee.span);
                }
            },
            Some(expected) => {
                if values.len() == 1 {
                    expect_type(module, out, &expected, &values[0], &callee.span);
                } else {
                    type_mismatch(out, "enum constructor argument mismatch", &callee.span);
                }
            },
        }
        return Type::Named(enum_name);
    }
    check_builtin(module, out, name.as_str(), arguments, environment, context, &callee.span)
}

fn is_builtin_function(name: &str) -> (builtin: bool) {
    str_equal(name, "len") || str_equal(name, "first") || str_equal(name, "contains") || str_equal(
        name,
        "subset",
    ) || str_equal(name, "provenance") || str_equal(name, "add_seconds") || str_equal(name, "Some")
        || str_equal(name, "Ok") || str_equal(name, "Err") || str_equal(name, "Human")
}

fn check_builtin(
    module: &Module,
    out: &mut Vec<Diagnostic>,
    name: &str,
    arguments: &Vec<Argument>,
    environment: &mut Environment,
    context: &CheckContext,
    span: &Span,
) -> (ty: Type)
    ensures
        extends(old(out)@, final(out)@),
    decreases arguments@, 0nat,
{
    let mut values: Vec<Type> = Vec::new();
    let mut i: usize = 0;
    while i < arguments.len()
        invariant
            extends(old(out)@, out@),
            values@.len() == i,
            i <= arguments@.len(),
        decreases arguments@.len() - i,
    {
        values.push(check_expression(module, out, &arguments[i].value, environment, context));
        i = i + 1;
    }
    let mut k: usize = 0;
    while k < arguments.len()
        invariant
            values@.len() == arguments@.len(),
        decreases arguments@.len() - k,
    {
        if is_affine(module, &values[k]) {
            mark_expression_moved(&arguments[k].value, environment);
        }
        k = k + 1;
    }
    let count = values.len();
    if str_equal(name, "len") && count == 1 {
        if let Type::List(_) = &values[0] {
            return Type::Int;
        }
    }
    if str_equal(name, "first") && count == 1 {
        if let Type::List(inner) = &values[0] {
            return Type::Result(Box::new(inner.duplicate()), Box::new(Type::Error));
        }
    }
    if str_equal(name, "contains") && count == 2 {
        if let Type::List(inner) = &values[0] {
            expect_type(module, out, inner, &values[1], span);
            if !is_equatable(module, inner) {
                type_mismatch(out, "contains requires equatable list elements", span);
            }
            return Type::Bool;
        }
    }
    if str_equal(name, "subset") && count == 2 {
        if let (Type::List(left), Type::List(right)) = (&values[0], &values[1]) {
            expect_type(module, out, left, right, span);
            if !is_equatable(module, left) {
                type_mismatch(out, "subset requires equatable list elements", span);
            }
            return Type::Bool;
        }
    }
    if str_equal(name, "provenance") && count == 1 {
        let carries = match normalized(module, &values[0]) {
            Type::Incoming(_) | Type::Untrusted(_) | Type::Candidate(_) | Type::Checked(_)
            | Type::Observation(_) | Type::Receipt(_) | Type::Reconciled(_) => true,
            _ => false,
        };
        if carries {
            return Type::ProvenanceRef;
        }
    }
    if str_equal(name, "add_seconds") && count == 2 {
        expect_type(module, out, &Type::Instant, &values[0], span);
        expect_type(module, out, &Type::Int, &values[1], span);
        return Type::Instant;
    }
    if str_equal(name, "Some") && count == 1 {
        return Type::Option(Box::new(values[0].duplicate()));
    }
    if str_equal(name, "Ok") && count == 1 {
        return Type::Result(Box::new(values[0].duplicate()), Box::new(Type::Unknown));
    }
    if str_equal(name, "Err") && count == 1 {
        return Type::Result(Box::new(Type::Unknown), Box::new(values[0].duplicate()));
    }
    if str_equal(name, "Human") && count == 1 {
        return Type::Text;
    }
    if is_builtin_function(name) {
        let message = concat3("invalid arguments for built-in `", name, "`");
        type_mismatch(out, message.as_str(), span);
        return Type::Unknown;
    }
    let message = concat3("unknown function or constructor `", name, "`");
    report(
        out,
        KnownDiagnosticCode::UnknownName,
        message.as_str(),
        span,
        "declare the function or use a documented built-in",
    );
    Type::Unknown
}

/// The operand type a binary operator requires: integers for arithmetic
/// and comparisons, booleans for conjunction and disjunction; equality
/// takes any equatable type.
pub open spec fn operand_type(operator: BinaryOperator) -> Option<Type> {
    match operator {
        BinaryOperator::Add | BinaryOperator::Subtract | BinaryOperator::Multiply
        | BinaryOperator::Divide | BinaryOperator::Less | BinaryOperator::LessEqual
        | BinaryOperator::Greater | BinaryOperator::GreaterEqual => Some(Type::Int),
        BinaryOperator::And | BinaryOperator::Or => Some(Type::Bool),
        BinaryOperator::Equal | BinaryOperator::NotEqual => None,
    }
}

/// Each operand whose type differs from the one its operator requires is
/// reported at that operand.
pub open spec fn operands_checked(
    out: Seq<Diagnostic>,
    operator: BinaryOperator,
    left: Type,
    left_span: Span,
    right: Type,
    right_span: Span,
) -> bool {
    operand_type(operator) matches Some(required) ==> {
        &&& mismatch_reported(out, required, left, left_span)
        &&& mismatch_reported(out, required, right, right_span)
    }
}

fn check_binary(
    module: &Module,
    out: &mut Vec<Diagnostic>,
    left: &Expression,
    operator: BinaryOperator,
    right: &Expression,
    left_type: &Type,
    right_type: &Type,
) -> (ty: Type)
    ensures
        extends(old(out)@, final(out)@),
        operands_checked(final(out)@, operator, *left_type, left.span, *right_type, right.span),
{
    match operator {
        BinaryOperator::Add | BinaryOperator::Subtract | BinaryOperator::Multiply
        | BinaryOperator::Divide => {
            expect_type(module, out, &Type::Int, left_type, &left.span);
            let ghost middle = out@;
            expect_type(module, out, &Type::Int, right_type, &right.span);
            proof {
                lemma_has_report_kept(middle, out@);
            }
            Type::Int
        },
        BinaryOperator::And | BinaryOperator::Or => {
            expect_type(module, out, &Type::Bool, left_type, &left.span);
            let ghost middle = out@;
            expect_type(module, out, &Type::Bool, right_type, &right.span);
            proof {
                lemma_has_report_kept(middle, out@);
            }
            Type::Bool
        },
        BinaryOperator::Equal | BinaryOperator::NotEqual => {
            expect_type(module, out, left_type, right_type, &right.span);
            if !is_equatable(module, left_type) {
                type_mismatch(out, "type is not structurally equatable", &left.span);
            }
            Type::Bool
        },
        BinaryOperator::Less | BinaryOperator::LessEqual | BinaryOperator::Greater
        | BinaryOperator::GreaterEqual => {
            expect_type(module, out, &Type::Int, left_type, &left.span);
            let ghost middle = out@;
            expect_type(module, out, &Type::Int, right_type, &right.span);
            proof {
                lemma_has_report_kept(middle, out@);
            }
            Type::Bool
        },
    }
}

fn check_infer(
    module: &Module,
    out: &mut Vec<Diagnostic>,
    prompt: &Path,
    arguments: &Vec<Argument>,
    span: &Span,
    environment: &mut Environment,
    context: &CheckContext,
) -> (ty: Type)
    ensures
        extends(old(out)@, final(out)@),
    decreases arguments@, 1nat,
{
    effect(out, context, Some("ModelUse"), span);
    let name = prompt.as_string();
    let declaration = match prompt_declaration(module, name.as_str()) {
        Some(declaration) => declaration,
        None => {
            unknown_reference(out, "prompt", prompt);
            return Type::Unknown;
        },
    };
    let types = check_arguments(
        module,
        out,
        &declaration.parameters,
        arguments,
        environment,
        context,
        span,
    );
    let mut i: usize = 0;
    while i < arguments.len() && i < types.len()
        invariant
            extends(old(out)@, out@),
        decreases arguments@.len() - i,
    {
        if model_contains_secret(module, &types[i]) {
            report(
                out,
                KnownDiagnosticCode::SecretToModel,
                "secret data cannot enter prompt data",
                &arguments[i].value.span,
                "pass a non-secret validated summary",
            );
        }
        i = i + 1;
    }
    Type::Result(
        Box::new(Type::Candidate(Box::new(resolve_type(module, &declaration.result_type)))),
        Box::new(Type::Error),
    )
}

fn check_validate(
    module: &Module,
    out: &mut Vec<Diagnostic>,
    candidate_type: &Type,
    candidate_span: &Span,
    validator: &Path,
) -> (ty: Type)
    ensures
        extends(old(out)@, final(out)@),
{
    let inner = match normalized(module, candidate_type) {
        Type::Candidate(inner) => inner,
        _ => {
            type_mismatch(out, "validate requires Candidate<T>", candidate_span);
            return Type::Unknown;
        },
    };
    let name = validator.as_string();
    let declaration = match validator_declaration(module, name.as_str()) {
        Some(declaration) => declaration,
        None => {
            let message = concat3("unknown validator `", name.as_str(), "`");
            report(
                out,
                KnownDiagnosticCode::UnknownName,
                message.as_str(),
                &validator.span,
                "declare a one-parameter validator",
            );
            return Type::Result(Box::new(Type::Checked(inner)), Box::new(Type::Error));
        },
    };
    if declaration.parameters.len() == 1 {
        let expected = resolve_type(module, &declaration.parameters[0].ty);
        expect_type(module, out, &expected, &inner, candidate_span);
    } else {
        type_mismatch(
            out,
            "candidate validation requires a one-parameter validator",
            &validator.span,
        );
    }
    Type::Result(Box::new(Type::Checked(inner)), Box::new(Type::Error))
}

fn check_intent(
    module: &Module,
    out: &mut Vec<Diagnostic>,
    purpose: &Path,
    fields: &Vec<FieldInitializer>,
    span: &Span,
    environment: &mut Environment,
    context: &CheckContext,
) -> (ty: Type)
    ensures
        extends(old(out)@, final(out)@),
    decreases fields@, 0nat,
{
    let mut seen: Vec<String> = Vec::new();
    let mut i: usize = 0;
    while i < fields.len()
        invariant
            extends(old(out)@, out@),
        decreases fields@.len() - i,
    {
        let field = &fields[i];
        let actual = check_expression(module, out, &field.value, environment, context);
        let name = field.name.as_str();
        if contains_text(&seen, name) {
            let message = concat3("duplicate intent field `", name, "`");
            report(
                out,
                KnownDiagnosticCode::DuplicateDeclaration,
                message.as_str(),
                &field.span,
                "initialize each intent field exactly once",
            );
        } else {
            seen.push(field.name.clone());
        }
        if str_equal(name, "actor") || str_equal(name, "beneficiary") || str_equal(name, "expected") {
        } else if str_equal(name, "basis") {
            expect_type(
                module,
                out,
                &Type::List(Box::new(Type::ProvenanceRef)),
                &actual,
                &field.value.span,
            );
            let empty_list = match &field.value.kind {
                ExpressionKind::List { elements } => elements.len() == 0,
                _ => false,
            };
            if empty_list {
                type_mismatch(out, "intent basis must be non-empty", &field.value.span);
            }
        } else if str_equal(name, "expires_at") {
            expect_type(module, out, &Type::Instant, &actual, &field.value.span);
        } else {
            let message = concat3("unknown intent field `", name, "`");
            report(
                out,
                KnownDiagnosticCode::UnknownName,
                message.as_str(),
                &field.span,
                "use the five required intent fields",
            );
        }
        i = i + 1;
    }
    let mut missing: Vec<String> = Vec::new();
    if !contains_text(&seen, "actor") {
        missing.push(String::from_str("actor"));
    }
    if !contains_text(&seen, "beneficiary") {
        missing.push(String::from_str("beneficiary"));
    }
    if !contains_text(&seen, "basis") {
        missing.push(String::from_str("basis"));
    }
    if !contains_text(&seen, "expected") {
        missing.push(String::from_str("expected"));
    }
    if !contains_text(&seen, "expires_at") {
        missing.push(String::from_str("expires_at"));
    }
    if missing.len() > 0 {
        let list = join_comma(&missing);
        let message = concat3("intent is missing fields: ", list.as_str(), "");
        type_mismatch(out, message.as_str(), span);
    }
    Type::Intent(purpose.as_string())
}

fn check_observe(
    module: &Module,
    out: &mut Vec<Diagnostic>,
    action: &Path,
    arguments: &Vec<Argument>,
    span: &Span,
    environment: &mut Environment,
    context: &CheckContext,
) -> (ty: Type)
    ensures
        extends(old(out)@, final(out)@),
    decreases arguments@, 1nat,
{
    let name = action.as_string();
    let tool = match tool_declaration(module, name.as_str()) {
        Some(tool) => tool,
        None => {
            unknown_reference(out, "tool", action);
            return Type::Unknown;
        },
    };
    if tool.metadata.mode == Some(ToolMode::Write) {
        report(
            out,
            KnownDiagnosticCode::WriteToolObserved,
            "write tools cannot be observed",
            &action.span,
            "use intent, propose, authorize, and commit",
        );
        return Type::Unknown;
    }
    let capability = match &tool.metadata.capability {
        Some(value) => Some(value.path.as_string()),
        None => None,
    };
    match &capability {
        Some(c) => effect(out, context, Some(c.as_str()), span),
        None => effect(out, context, None, span),
    }
    check_arguments(module, out, &tool.parameters, arguments, environment, context, span);
    Type::Result(
        Box::new(Type::Observation(Box::new(resolve_type(module, &tool.return_type)))),
        Box::new(Type::Error),
    )
}

fn check_authorize(
    module: &Module,
    out: &mut Vec<Diagnostic>,
    proposal_type: &Type,
    proposal_span: &Span,
    policy: &Path,
    context: &CheckContext,
) -> (ty: Type)
    ensures
        extends(old(out)@, final(out)@),
{
    let action = match proposal_type {
        Type::Proposal(action) => action,
        _ => return Type::Unknown,
    };
    effect(out, context, None, proposal_span);
    let name = policy.as_string();
    match policy_declaration(module, name.as_str()) {
        Some(declaration) => {
            let mut approves = false;
            let mut i: usize = 0;
            while i < declaration.rules.len()
                decreases declaration.rules@.len() - i,
            {
                if let PolicyDecision::Approve(_) = &declaration.rules[i].decision {
                    approves = true;
                }
                i = i + 1;
            }
            if approves {
                require_capability(out, context, Some("HumanApproval"), proposal_span);
            }
            if declaration.parameters.len() > 0 {
                let expected = resolve_type(module, &declaration.parameters[0].ty);
                expect_type(module, out, &expected, &Type::Proposal(action.clone()), proposal_span);
            }
        },
        None => unknown_reference(out, "policy", policy),
    }
    Type::Result(Box::new(Type::Permit(action.clone())), Box::new(Type::Error))
}

fn check_reconcile(
    module: &Module,
    out: &mut Vec<Diagnostic>,
    receipt_type: &Type,
    receipt_span: &Span,
    observation_type: &Type,
    observation_span: &Span,
    validator: &Path,
) -> (ty: Type)
    ensures
        extends(old(out)@, final(out)@),
{
    let action = match receipt_type {
        Type::Receipt(action) => action,
        _ => return Type::Unknown,
    };
    let actual = match normalized(module, observation_type) {
        Type::Observation(actual) => actual,
        _ => return Type::Unknown,
    };
    let name = validator.as_string();
    let declaration = match validator_declaration(module, name.as_str()) {
        Some(declaration) => declaration,
        None => {
            unknown_reference(out, "validator", validator);
            return Type::Result(Box::new(Type::Reconciled(action.clone())), Box::new(Type::Error));
        },
    };
    if declaration.parameters.len() != 2 {
        type_mismatch(out, "reconciliation requires a two-parameter validator", &validator.span);
        return Type::Result(Box::new(Type::Reconciled(action.clone())), Box::new(Type::Error));
    }
    let expected_result = tool_result(module, action.as_str());
    let expected_parameter = resolve_type(module, &declaration.parameters[0].ty);
    let actual_parameter = resolve_type(module, &declaration.parameters[1].ty);
    expect_type(module, out, &expected_parameter, &expected_result, receipt_span);
    expect_type(module, out, &actual_parameter, &actual, observation_span);
    Type::Result(Box::new(Type::Reconciled(action.clone())), Box::new(Type::Error))
}

/// Checks call arguments against a parameter list, positional or by name,
/// and returns the argument types in order.
pub fn check_arguments(
    module: &Module,
    out: &mut Vec<Diagnostic>,
    parameters: &Vec<Parameter>,
    arguments: &Vec<Argument>,
    environment: &mut Environment,
    context: &CheckContext,
    span: &Span,
) -> (types: Vec<Type>)
    ensures
        extends(old(out)@, final(out)@),
        types@.len() == arguments@.len(),
    decreases arguments@, 0nat,
{
    let mut types: Vec<Type> = Vec::new();
    let mut assigned: Vec<usize> = Vec::new();
    let mut positional: usize = 0;
    let mut i: usize = 0;
    while i < arguments.len()
        invariant
            extends(old(out)@, out@),
            types@.len() == i,
            i <= arguments@.len(),
            positional <= i,
        decreases arguments@.len() - i,
    {
        let argument = &arguments[i];
        let actual = check_expression(module, out, &argument.value, environment, context);
        let parameter_index: Option<usize> = match &argument.name {
            Some(name) => {
                let mut found: Option<usize> = None;
                let mut k: usize = 0;
                while k < parameters.len() && found.is_none()
                    invariant
                        found matches Some(f) ==> f < parameters@.len(),
                    decreases parameters@.len() - k,
                {
                    if str_equal(parameters[k].name.as_str(), name.as_str()) {
                        found = Some(k);
                    }
                    k = k + 1;
                }
                found
            },
            None => {
                let value = if positional < parameters.len() {
                    Some(positional)
                } else {
                    None
                };
                positional = positional + 1;
                value
            },
        };
        match parameter_index {
            Some(index) => {
                let parameter = &parameters[index];
                let mut already = false;
                let mut k: usize = 0;
                while k < assigned.len()
                    decreases assigned@.len() - k,
                {
                    if assigned[k] == index {
                        already = true;
                    }
                    k = k + 1;
                }
                if already {
                    let message = concat3(
                        "argument `",
                        parameter.name.as_str(),
                        "` is supplied more than once",
                    );
                    report(
                        out,
                        KnownDiagnosticCode::DuplicateDeclaration,
                        message.as_str(),
                        &argument.span,
                        "supply each parameter exactly once",
                    );
                } else {
                    assigned.push(index);
                }
                let expected = resolve_type(module, &parameter.ty);
                expect_type(module, out, &expected, &actual, &argument.value.span);
                if is_affine(module, &actual) {
                    mark_expression_moved(&argument.value, environment);
                }
            },
            None => match &argument.name {
                Some(name) => {
                    let message = concat3("unknown argument name `", name.as_str(), "`");
                    report(
                        out,
                        KnownDiagnosticCode::UnknownName,
                        message.as_str(),
                        &argument.span,
                        "use a declared parameter name",
                    );
                },
                None => type_mismatch(out, "too many positional arguments", &argument.span),
            },
        }
        types.push(actual);
        i = i + 1;
    }
    let mut missing: Vec<String> = Vec::new();
    let mut k: usize = 0;
    while k < parameters.len()
        decreases parameters@.len() - k,
    {
        let mut supplied = false;
        let mut j: usize = 0;
        while j < assigned.len()
            decreases assigned@.len() - j,
        {
            if assigned[j] == k {
                supplied = true;
            }
            j = j + 1;
        }
        if !supplied {
            missing.push(parameters[k].name.clone());
        }
        k = k + 1;
    }
    if missing.len() > 0 {
        let list = join_comma(&missing);
        let message = concat3("missing arguments: ", list.as_str(), "");
        type_mismatch(out, message.as_str(), span);
    }
    types
}

} // verus!
