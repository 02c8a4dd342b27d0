use vstd::prelude::*;

use crate::json::hex_digit;
use crate::text::{push_char, push_str};

verus! {

/// A resolved ASTER value type used by checking and lowering.
#[derive(Debug, PartialEq, Eq)]
pub enum Type {
    /// Recovery-only type that prevents cascading diagnostics.
    Unknown,
    /// `Unit`.
    Unit,
    /// `Bool`.
    Bool,
    /// `Int`.
    Int,
    /// `Text`.
    Text,
    /// `Instant`.
    Instant,
    /// `Duration`.
    Duration,
    /// `ProvenanceRef`.
    ProvenanceRef,
    /// `Error`.
    Error,
    /// User-defined alias, record, or enum identity.
    Named(String),
    /// `Option<T>`.
    Option(Box<Type>),
    /// `Result<T,E>`.
    Result(Box<Type>, Box<Type>),
    /// `List<T>`.
    List(Box<Type>),
    /// `Incoming<T>`.
    Incoming(Box<Type>),
    /// `Untrusted<T>`.
    Untrusted(Box<Type>),
    /// Opaque `Candidate<T>`.
    Candidate(Box<Type>),
    /// `Checked<T>`.
    Checked(Box<Type>),
    /// `Observation<T>`.
    Observation(Box<Type>),
    /// Opaque `Secret<T>`.
    Secret(Box<Type>),
    /// `Intent<P>` with a static purpose symbol.
    Intent(String),
    /// `Proposal<A>` with a static action symbol.
    Proposal(String),
    /// `Permit<A>` with a static action symbol.
    Permit(String),
    /// `Receipt<A>` with a static action symbol.
    Receipt(String),
    /// `Reconciled<A>` with a static action symbol.
    Reconciled(String),
    /// Internal read-only view of a proposal action's named arguments.
    ToolArguments(String),
    /// Internal read-only view of an agent's persistent state.
    AgentState(String),
    /// Runtime-provided event metadata.
    Event,
}

/// Whether a type carries opaque candidate data: it is a `Candidate`, or
/// one of the wrappers `Option`, `List`, `Incoming`, `Untrusted`,
/// `Checked`, `Observation`, `Secret`, or a side of a `Result`, around a
/// type that carries it. Named types are not looked through.
pub open spec fn carries_candidate(ty: Type) -> bool
    decreases ty,
{
    match ty {
        Type::Candidate(_) => true,
        Type::Option(inner) => carries_candidate(*inner),
        Type::List(inner) => carries_candidate(*inner),
        Type::Incoming(inner) => carries_candidate(*inner),
        Type::Untrusted(inner) => carries_candidate(*inner),
        Type::Checked(inner) => carries_candidate(*inner),
        Type::Observation(inner) => carries_candidate(*inner),
        Type::Secret(inner) => carries_candidate(*inner),
        Type::Result(ok, error) => carries_candidate(*ok) || carries_candidate(*error),
        _ => false,
    }
}

/// Whether a type carries `Secret` data: it is a `Secret`, or one of the
/// wrappers `Option`, `List`, `Incoming`, `Untrusted`, `Candidate`,
/// `Checked`, `Observation`, or a side of a `Result`, around a type that
/// carries it. Named types are not looked through.
pub open spec fn carries_secret(ty: Type) -> bool
    decreases ty,
{
    match ty {
        Type::Secret(_) => true,
        Type::Option(inner) => carries_secret(*inner),
        Type::List(inner) => carries_secret(*inner),
        Type::Incoming(inner) => carries_secret(*inner),
        Type::Untrusted(inner) => carries_secret(*inner),
        Type::Candidate(inner) => carries_secret(*inner),
        Type::Checked(inner) => carries_secret(*inner),
        Type::Observation(inner) => carries_secret(*inner),
        Type::Result(ok, error) => carries_secret(*ok) || carries_secret(*error),
        _ => false,
    }
}


/// Structural equality of types, symbols compared by their text.
pub open spec fn type_eq(a: Type, b: Type) -> bool
    decreases a,
{
    match (a, b) {
        (Type::Unknown, Type::Unknown) => true,
        (Type::Unit, Type::Unit) => true,
        (Type::Bool, Type::Bool) => true,
        (Type::Int, Type::Int) => true,
        (Type::Text, Type::Text) => true,
        (Type::Instant, Type::Instant) => true,
        (Type::Duration, Type::Duration) => true,
        (Type::ProvenanceRef, Type::ProvenanceRef) => true,
        (Type::Error, Type::Error) => true,
        (Type::Event, Type::Event) => true,
        (Type::Named(x), Type::Named(y)) => x@ == y@,
        (Type::Intent(x), Type::Intent(y)) => x@ == y@,
        (Type::Proposal(x), Type::Proposal(y)) => x@ == y@,
        (Type::Permit(x), Type::Permit(y)) => x@ == y@,
        (Type::Receipt(x), Type::Receipt(y)) => x@ == y@,
        (Type::Reconciled(x), Type::Reconciled(y)) => x@ == y@,
        (Type::ToolArguments(x), Type::ToolArguments(y)) => x@ == y@,
        (Type::AgentState(x), Type::AgentState(y)) => x@ == y@,
        (Type::Option(x), Type::Option(y)) => type_eq(*x, *y),
        (Type::List(x), Type::List(y)) => type_eq(*x, *y),
        (Type::Incoming(x), Type::Incoming(y)) => type_eq(*x, *y),
        (Type::Untrusted(x), Type::Untrusted(y)) => type_eq(*x, *y),
        (Type::Candidate(x), Type::Candidate(y)) => type_eq(*x, *y),
        (Type::Checked(x), Type::Checked(y)) => type_eq(*x, *y),
        (Type::Observation(x), Type::Observation(y)) => type_eq(*x, *y),
        (Type::Secret(x), Type::Secret(y)) => type_eq(*x, *y),
        (Type::Result(x, u), Type::Result(y, v)) => type_eq(*x, *y) && type_eq(*u, *v),
        _ => false,
    }
}

impl Type {

    /// A copy of this type.
    pub fn duplicate(&self) -> (copy: Type)
        ensures
            copy == *self,
        decreases self,
    {
        match self {
            Type::Unknown => Type::Unknown,
            Type::Unit => Type::Unit,
            Type::Bool => Type::Bool,
            Type::Int => Type::Int,
            Type::Text => Type::Text,
            Type::Instant => Type::Instant,
            Type::Duration => Type::Duration,
            Type::ProvenanceRef => Type::ProvenanceRef,
            Type::Error => Type::Error,
            Type::Named(name) => Type::Named(name.clone()),
            Type::Option(inner) => Type::Option(Box::new(inner.duplicate())),
            Type::Result(ok, error) => Type::Result(
                Box::new(ok.duplicate()),
                Box::new(error.duplicate()),
            ),
            Type::List(inner) => Type::List(Box::new(inner.duplicate())),
            Type::Incoming(inner) => Type::Incoming(Box::new(inner.duplicate())),
            Type::Untrusted(inner) => Type::Untrusted(Box::new(inner.duplicate())),
            Type::Candidate(inner) => Type::Candidate(Box::new(inner.duplicate())),
            Type::Checked(inner) => Type::Checked(Box::new(inner.duplicate())),
            Type::Observation(inner) => Type::Observation(Box::new(inner.duplicate())),
            Type::Secret(inner) => Type::Secret(Box::new(inner.duplicate())),
            Type::Intent(name) => Type::Intent(name.clone()),
            Type::Proposal(name) => Type::Proposal(name.clone()),
            Type::Permit(name) => Type::Permit(name.clone()),
            Type::Receipt(name) => Type::Receipt(name.clone()),
            Type::Reconciled(name) => Type::Reconciled(name.clone()),
            Type::ToolArguments(name) => Type::ToolArguments(name.clone()),
            Type::AgentState(name) => Type::AgentState(name.clone()),
            Type::Event => Type::Event,
        }
    }

    /// Structural equality of two types, symbols compared by their text.
    pub fn same(&self, other: &Type) -> (equal: bool)
        ensures
            equal == type_eq(*self, *other),
        decreases self,
    {
        match (self, other) {
            (Type::Unknown, Type::Unknown) => true,
            (Type::Unit, Type::Unit) => true,
            (Type::Bool, Type::Bool) => true,
            (Type::Int, Type::Int) => true,
            (Type::Text, Type::Text) => true,
            (Type::Instant, Type::Instant) => true,
            (Type::Duration, Type::Duration) => true,
            (Type::ProvenanceRef, Type::ProvenanceRef) => true,
            (Type::Error, Type::Error) => true,
            (Type::Event, Type::Event) => true,
            (Type::Named(a), Type::Named(b)) => *a == *b,
            (Type::Intent(a), Type::Intent(b)) => *a == *b,
            (Type::Proposal(a), Type::Proposal(b)) => *a == *b,
            (Type::Permit(a), Type::Permit(b)) => *a == *b,
            (Type::Receipt(a), Type::Receipt(b)) => *a == *b,
            (Type::Reconciled(a), Type::Reconciled(b)) => *a == *b,
            (Type::ToolArguments(a), Type::ToolArguments(b)) => *a == *b,
            (Type::AgentState(a), Type::AgentState(b)) => *a == *b,
            (Type::Option(a), Type::Option(b)) => a.same(b),
            (Type::List(a), Type::List(b)) => a.same(b),
            (Type::Incoming(a), Type::Incoming(b)) => a.same(b),
            (Type::Untrusted(a), Type::Untrusted(b)) => a.same(b),
            (Type::Candidate(a), Type::Candidate(b)) => a.same(b),
            (Type::Checked(a), Type::Checked(b)) => a.same(b),
            (Type::Observation(a), Type::Observation(b)) => a.same(b),
            (Type::Secret(a), Type::Secret(b)) => a.same(b),
            (Type::Result(a, x), Type::Result(b, y)) => a.same(b) && x.same(y),
            _ => false,
        }
    }
    /// Returns whether this type transitively carries opaque candidate data.
    pub fn contains_candidate(&self) -> (carries: bool)
        ensures
            carries == carries_candidate(*self),
        decreases self,
    {
        match self {
            Type::Candidate(_) => true,
            Type::Option(inner) => inner.contains_candidate(),
            Type::List(inner) => inner.contains_candidate(),
            Type::Incoming(inner) => inner.contains_candidate(),
            Type::Untrusted(inner) => inner.contains_candidate(),
            Type::Checked(inner) => inner.contains_candidate(),
            Type::Observation(inner) => inner.contains_candidate(),
            Type::Secret(inner) => inner.contains_candidate(),
            Type::Result(ok, error) => ok.contains_candidate() || error.contains_candidate(),
            _ => false,
        }
    }

    /// Returns whether this type directly or transitively contains `Secret`.
    pub fn contains_secret(&self) -> (carries: bool)
        ensures
            carries == carries_secret(*self),
        decreases self,
    {
        match self {
            Type::Secret(_) => true,
            Type::Option(inner) => inner.contains_secret(),
            Type::List(inner) => inner.contains_secret(),
            Type::Incoming(inner) => inner.contains_secret(),
            Type::Untrusted(inner) => inner.contains_secret(),
            Type::Candidate(inner) => inner.contains_secret(),
            Type::Checked(inner) => inner.contains_secret(),
            Type::Observation(inner) => inner.contains_secret(),
            Type::Result(ok, error) => ok.contains_secret() || error.contains_secret(),
            _ => false,
        }
    }
}

/// The `Debug` spelling of one character inside a quoted string: `"` and
/// `\` escaped with a backslash, the short escapes for NUL, tab, newline and
/// carriage return, `\u{..}` (lower-case hex, no leading zeros) for the other
/// ASCII control characters, every other character as it is.
pub open spec fn debug_char(c: char) -> Seq<char> {
    if c == '"' {
        seq!['\\', '"']
    } else if c == '\\' {
        seq!['\\', '\\']
    } else if c == '\0' {
        seq!['\\', '0']
    } else if c == '\t' {
        seq!['\\', 't']
    } else if c == '\n' {
        seq!['\\', 'n']
    } else if c == '\r' {
        seq!['\\', 'r']
    } else if (c as u32) < 16 {
        seq!['\\', 'u', '{', hex_digit(c as u32), '}']
    } else if (c as u32) < 0x20 || (c as u32) == 0x7f {
        seq!['\\', 'u', '{', hex_digit((c as u32) / 16), hex_digit((c as u32) % 16), '}']
    } else {
        seq![c]
    }
}

/// The escaped contents of a `Debug`-quoted string.
pub open spec fn debug_escape(text: Seq<char>) -> Seq<char>
    decreases text.len(),
{
    if text.len() == 0 {
        Seq::empty()
    } else {
        debug_escape(text.drop_last()) + debug_char(text.last())
    }
}

/// A string as `Debug` quotes it.
pub open spec fn debug_quoted(text: Seq<char>) -> Seq<char> {
    seq!['"'] + debug_escape(text) + seq!['"']
}

/// `name(inner)`.
pub open spec fn wrapped(name: Seq<char>, inner: Seq<char>) -> Seq<char> {
    name + "("@ + inner + ")"@
}

/// The `Debug` spelling of a type, as used in type-mismatch messages: the
/// variant name, with its payload in parentheses (symbols quoted, two
/// payloads separated by `, `).
pub open spec fn type_debug(ty: Type) -> Seq<char>
    decreases ty,
{
    match ty {
        Type::Unknown => "Unknown"@,
        Type::Unit => "Unit"@,
        Type::Bool => "Bool"@,
        Type::Int => "Int"@,
        Type::Text => "Text"@,
        Type::Instant => "Instant"@,
        Type::Duration => "Duration"@,
        Type::ProvenanceRef => "ProvenanceRef"@,
        Type::Error => "Error"@,
        Type::Named(name) => wrapped("Named"@, debug_quoted(name@)),
        Type::Option(inner) => wrapped("Option"@, type_debug(*inner)),
        Type::Result(ok, error) => wrapped(
            "Result"@,
            type_debug(*ok) + ", "@ + type_debug(*error),
        ),
        Type::List(inner) => wrapped("List"@, type_debug(*inner)),
        Type::Incoming(inner) => wrapped("Incoming"@, type_debug(*inner)),
        Type::Untrusted(inner) => wrapped("Untrusted"@, type_debug(*inner)),
        Type::Candidate(inner) => wrapped("Candidate"@, type_debug(*inner)),
        Type::Checked(inner) => wrapped("Checked"@, type_debug(*inner)),
        Type::Observation(inner) => wrapped("Observation"@, type_debug(*inner)),
        Type::Secret(inner) => wrapped("Secret"@, type_debug(*inner)),
        Type::Intent(name) => wrapped("Intent"@, debug_quoted(name@)),
        Type::Proposal(name) => wrapped("Proposal"@, debug_quoted(name@)),
        Type::Permit(name) => wrapped("Permit"@, debug_quoted(name@)),
        Type::Receipt(name) => wrapped("Receipt"@, debug_quoted(name@)),
        Type::Reconciled(name) => wrapped("Reconciled"@, debug_quoted(name@)),
        Type::ToolArguments(name) => wrapped("ToolArguments"@, debug_quoted(name@)),
        Type::AgentState(name) => wrapped("AgentState"@, debug_quoted(name@)),
        Type::Event => "Event"@,
    }
}

/// Appends a string quoted as `Debug` quotes it.
pub fn push_debug_quoted(out: &mut String, text: &str)
    ensures
        final(out)@ == old(out)@ + debug_quoted(text@),
{
    let ghost base = out@;
    push_char(out, '"');
    let mut i: usize = 0;
    let n = text.unicode_len();
    while i < n
        invariant
            n == text@.len(),
            i <= n,
            out@ == base + seq!['"'] + debug_escape(text@.take(i as int)),
        decreases n - i,
    {
        let c = text.get_char(i);
        let ghost before = out@;
        if c == '"' {
            push_str(out, "\\\"");
        } else if c == '\\' {
            push_str(out, "\\\\");
        } else if c == '\0' {
            push_str(out, "\\0");
        } else if c == '\t' {
            push_str(out, "\\t");
        } else if c == '\n' {
            push_str(out, "\\n");
        } else if c == '\r' {
            push_str(out, "\\r");
        } else if (c as u32) < 0x20 || (c as u32) == 0x7f {
            let v = c as u32;
            push_str(out, "\\u{");
            if v >= 16 {
                push_char(out, hex_char(v / 16));
            }
            push_char(out, hex_char(v % 16));
            push_char(out, '}');
        } else {
            push_char(out, c);
        }
        proof {
            reveal_strlit("\\\"");
            reveal_strlit("\\\\");
            reveal_strlit("\\0");
            reveal_strlit("\\t");
            reveal_strlit("\\n");
            reveal_strlit("\\r");
            reveal_strlit("\\u{");
            let next = text@.take(i + 1);
            assert(next.drop_last() =~= text@.take(i as int));
            assert(next.last() == c);
            assert(out@ =~= before + debug_char(c));
        }
        i = i + 1;
    }
    push_char(out, '"');
    proof {
        assert(text@.take(n as int) =~= text@);
        assert(out@ =~= base + debug_quoted(text@));
    }
}

fn hex_char(d: u32) -> (c: char)
    requires
        d < 16,
    ensures
        c == hex_digit(d),
{
    if d < 10 {
        ((d + 48) as u8) as char
    } else {
        ((d + 87) as u8) as char
    }
}

fn push_wrapped_symbol(out: &mut String, name: &str, symbol: &String)
    ensures
        final(out)@ == old(out)@ + wrapped(name@, debug_quoted(symbol@)),
{
    let ghost base = out@;
    push_str(out, name);
    push_char(out, '(');
    push_debug_quoted(out, symbol.as_str());
    push_char(out, ')');
    proof {
        reveal_strlit("(");
        reveal_strlit(")");
        assert(out@ =~= base + wrapped(name@, debug_quoted(symbol@)));
    }
}

fn push_wrapped_type(out: &mut String, name: &str, inner: &Type)
    ensures
        final(out)@ == old(out)@ + wrapped(name@, type_debug(*inner)),
    decreases inner, 2nat,
{
    let ghost base = out@;
    push_str(out, name);
    push_char(out, '(');
    write_type_debug(out, inner);
    push_char(out, ')');
    proof {
        reveal_strlit("(");
        reveal_strlit(")");
        assert(out@ =~= base + wrapped(name@, type_debug(*inner)));
    }
}

/// Appends the `Debug` spelling of a type.
pub fn write_type_debug(out: &mut String, ty: &Type)
    ensures
        final(out)@ == old(out)@ + type_debug(*ty),
    decreases ty, 1nat,
{
    let ghost base = out@;
    match ty {
        Type::Unknown => push_str(out, "Unknown"),
        Type::Unit => push_str(out, "Unit"),
        Type::Bool => push_str(out, "Bool"),
        Type::Int => push_str(out, "Int"),
        Type::Text => push_str(out, "Text"),
        Type::Instant => push_str(out, "Instant"),
        Type::Duration => push_str(out, "Duration"),
        Type::ProvenanceRef => push_str(out, "ProvenanceRef"),
        Type::Error => push_str(out, "Error"),
        Type::Named(name) => push_wrapped_symbol(out, "Named", name),
        Type::Option(inner) => push_wrapped_type(out, "Option", inner),
        Type::Result(ok, error) => {
            push_str(out, "Result(");
            write_type_debug(out, ok);
            push_str(out, ", ");
            write_type_debug(out, error);
            push_char(out, ')');
            proof {
                reveal_strlit("Result(");
                reveal_strlit("Result");
                reveal_strlit("(");
                reveal_strlit(", ");
                reveal_strlit(")");
                assert(out@ =~= base + type_debug(*ty));
            }
        },
        Type::List(inner) => push_wrapped_type(out, "List", inner),
        Type::Incoming(inner) => push_wrapped_type(out, "Incoming", inner),
        Type::Untrusted(inner) => push_wrapped_type(out, "Untrusted", inner),
        Type::Candidate(inner) => push_wrapped_type(out, "Candidate", inner),
        Type::Checked(inner) => push_wrapped_type(out, "Checked", inner),
        Type::Observation(inner) => push_wrapped_type(out, "Observation", inner),
        Type::Secret(inner) => push_wrapped_type(out, "Secret", inner),
        Type::Intent(name) => push_wrapped_symbol(out, "Intent", name),
        Type::Proposal(name) => push_wrapped_symbol(out, "Proposal", name),
        Type::Permit(name) => push_wrapped_symbol(out, "Permit", name),
        Type::Receipt(name) => push_wrapped_symbol(out, "Receipt", name),
        Type::Reconciled(name) => push_wrapped_symbol(out, "Reconciled", name),
        Type::ToolArguments(name) => push_wrapped_symbol(out, "ToolArguments", name),
        Type::AgentState(name) => push_wrapped_symbol(out, "AgentState", name),
        Type::Event => push_str(out, "Event"),
    }
}

} // verus!
