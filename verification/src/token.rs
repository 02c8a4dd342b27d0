use vstd::prelude::*;

use crate::span::Span;
use crate::text::str_equal;

verus! {

/// Reserved ASTER 0.1 word.
#[derive(Clone, Copy, Debug, PartialEq, Eq, Structural)]
pub enum Keyword {
    /// `module`.
    Module,
    /// `type`.
    Type,
    /// `enum`.
    Enum,
    /// `capability`.
    Capability,
    /// `fn`.
    Fn,
    /// `flow`.
    Flow,
    /// `uses`.
    Uses,
    /// `prompt`.
    Prompt,
    /// `instruction`.
    Instruction,
    /// `data`.
    Data,
    /// `validator`.
    Validator,
    /// `require`.
    Require,
    /// `tool`.
    Tool,
    /// `mode`.
    Mode,
    /// `read`.
    Read,
    /// `write`.
    Write,
    /// `sensitivity`.
    Sensitivity,
    /// `public`.
    Public,
    /// `internal`.
    Internal,
    /// `private`.
    Private,
    /// `secret`.
    Secret,
    /// `risk`.
    Risk,
    /// `reversible`.
    Reversible,
    /// `irreversible`.
    Irreversible,
    /// `idempotency`.
    Idempotency,
    /// `policy`.
    Policy,
    /// `allow`.
    Allow,
    /// `when`.
    When,
    /// `approve`.
    Approve,
    /// `by`.
    By,
    /// `deny`.
    Deny,
    /// `otherwise`.
    Otherwise,
    /// `agent`.
    Agent,
    /// `requires`.
    Requires,
    /// `state`.
    State,
    /// `budget`.
    Budget,
    /// `per_event`.
    PerEvent,
    /// `on`.
    On,
    /// `return`.
    Return,
    /// `let`.
    Let,
    /// `update`.
    Update,
    /// `if`.
    If,
    /// `else`.
    Else,
    /// `match`.
    Match,
    /// `infer`.
    Infer,
    /// `using`.
    Using,
    /// `validate`.
    Validate,
    /// `with`.
    With,
    /// `observe`.
    Observe,
    /// `intent`.
    Intent,
    /// `propose`.
    Propose,
    /// `for`.
    For,
    /// `authorize`.
    Authorize,
    /// `commit`.
    Commit,
    /// `reconcile`.
    Reconcile,
    /// `against`.
    Against,
    /// `true`.
    True,
    /// `false`.
    False,
}

/// The source spelling of each keyword.
pub open spec fn keyword_spelling(keyword: Keyword) -> Seq<char> {
    match keyword {
        Keyword::Module => "module"@,
        Keyword::Type => "type"@,
        Keyword::Enum => "enum"@,
        Keyword::Capability => "capability"@,
        Keyword::Fn => "fn"@,
        Keyword::Flow => "flow"@,
        Keyword::Uses => "uses"@,
        Keyword::Prompt => "prompt"@,
        Keyword::Instruction => "instruction"@,
        Keyword::Data => "data"@,
        Keyword::Validator => "validator"@,
        Keyword::Require => "require"@,
        Keyword::Tool => "tool"@,
        Keyword::Mode => "mode"@,
        Keyword::Read => "read"@,
        Keyword::Write => "write"@,
        Keyword::Sensitivity => "sensitivity"@,
        Keyword::Public => "public"@,
        Keyword::Internal => "internal"@,
        Keyword::Private => "private"@,
        Keyword::Secret => "secret"@,
        Keyword::Risk => "risk"@,
        Keyword::Reversible => "reversible"@,
        Keyword::Irreversible => "irreversible"@,
        Keyword::Idempotency => "idempotency"@,
        Keyword::Policy => "policy"@,
        Keyword::Allow => "allow"@,
        Keyword::When => "when"@,
        Keyword::Approve => "approve"@,
        Keyword::By => "by"@,
        Keyword::Deny => "deny"@,
        Keyword::Otherwise => "otherwise"@,
        Keyword::Agent => "agent"@,
        Keyword::Requires => "requires"@,
        Keyword::State => "state"@,
        Keyword::Budget => "budget"@,
        Keyword::PerEvent => "per_event"@,
        Keyword::On => "on"@,
        Keyword::Return => "return"@,
        Keyword::Let => "let"@,
        Keyword::Update => "update"@,
        Keyword::If => "if"@,
        Keyword::Else => "else"@,
        Keyword::Match => "match"@,
        Keyword::Infer => "infer"@,
        Keyword::Using => "using"@,
        Keyword::Validate => "validate"@,
        Keyword::With => "with"@,
        Keyword::Observe => "observe"@,
        Keyword::Intent => "intent"@,
        Keyword::Propose => "propose"@,
        Keyword::For => "for"@,
        Keyword::Authorize => "authorize"@,
        Keyword::Commit => "commit"@,
        Keyword::Reconcile => "reconcile"@,
        Keyword::Against => "against"@,
        Keyword::True => "true"@,
        Keyword::False => "false"@,
    }
}

impl Keyword {
    /// The keyword spelled exactly `identifier`, if any.
    pub fn from_identifier(identifier: &str) -> (keyword: Option<Keyword>)
        ensures
            keyword matches Some(k) ==> keyword_spelling(k) == identifier@,
            keyword is None ==> forall|k: Keyword| keyword_spelling(k) != identifier@,
    {
        if str_equal(identifier, "module") {
            Some(Keyword::Module)
        }
        else if str_equal(identifier, "type") {
            Some(Keyword::Type)
        }
        else if str_equal(identifier, "enum") {
            Some(Keyword::Enum)
        }
        else if str_equal(identifier, "capability") {
            Some(Keyword::Capability)
        }
        else if str_equal(identifier, "fn") {
            Some(Keyword::Fn)
        }
        else if str_equal(identifier, "flow") {
            Some(Keyword::Flow)
        }
        else if str_equal(identifier, "uses") {
            Some(Keyword::Uses)
        }
        else if str_equal(identifier, "prompt") {
            Some(Keyword::Prompt)
        }
        else if str_equal(identifier, "instruction") {
            Some(Keyword::Instruction)
        }
        else if str_equal(identifier, "data") {
            Some(Keyword::Data)
        }
        else if str_equal(identifier, "validator") {
            Some(Keyword::Validator)
        }
        else if str_equal(identifier, "require") {
            Some(Keyword::Require)
        }
        else if str_equal(identifier, "tool") {
            Some(Keyword::Tool)
        }
        else if str_equal(identifier, "mode") {
            Some(Keyword::Mode)
        }
        else if str_equal(identifier, "read") {
            Some(Keyword::Read)
        }
        else if str_equal(identifier, "write") {
            Some(Keyword::Write)
        }
        else if str_equal(identifier, "sensitivity") {
            Some(Keyword::Sensitivity)
        }
        else if str_equal(identifier, "public") {
            Some(Keyword::Public)
        }
        else if str_equal(identifier, "internal") {
            Some(Keyword::Internal)
        }
        else if str_equal(identifier, "private") {
            Some(Keyword::Private)
        }
        else if str_equal(identifier, "secret") {
            Some(Keyword::Secret)
        }
        else if str_equal(identifier, "risk") {
            Some(Keyword::Risk)
        }
        else if str_equal(identifier, "reversible") {
            Some(Keyword::Reversible)
        }
        else if str_equal(identifier, "irreversible") {
            Some(Keyword::Irreversible)
        }
        else if str_equal(identifier, "idempotency") {
            Some(Keyword::Idempotency)
        }
        else if str_equal(identifier, "policy") {
            Some(Keyword::Policy)
        }
        else if str_equal(identifier, "allow") {
            Some(Keyword::Allow)
        }
        else if str_equal(identifier, "when") {
            Some(Keyword::When)
        }
        else if str_equal(identifier, "approve") {
            Some(Keyword::Approve)
        }
        else if str_equal(identifier, "by") {
            Some(Keyword::By)
        }
        else if str_equal(identifier, "deny") {
            Some(Keyword::Deny)
        }
        else if str_equal(identifier, "otherwise") {
            Some(Keyword::Otherwise)
        }
        else if str_equal(identifier, "agent") {
            Some(Keyword::Agent)
        }
        else if str_equal(identifier, "requires") {
            Some(Keyword::Requires)
        }
        else if str_equal(identifier, "state") {
            Some(Keyword::State)
        }
        else if str_equal(identifier, "budget") {
            Some(Keyword::Budget)
        }
        else if str_equal(identifier, "per_event") {
            Some(Keyword::PerEvent)
        }
        else if str_equal(identifier, "on") {
            Some(Keyword::On)
        }
        else if str_equal(identifier, "return") {
            Some(Keyword::Return)
        }
        else if str_equal(identifier, "let") {
            Some(Keyword::Let)
        }
        else if str_equal(identifier, "update") {
            Some(Keyword::Update)
        }
        else if str_equal(identifier, "if") {
            Some(Keyword::If)
        }
        else if str_equal(identifier, "else") {
            Some(Keyword::Else)
        }
        else if str_equal(identifier, "match") {
            Some(Keyword::Match)
        }
        else if str_equal(identifier, "infer") {
            Some(Keyword::Infer)
        }
        else if str_equal(identifier, "using") {
            Some(Keyword::Using)
        }
        else if str_equal(identifier, "validate") {
            Some(Keyword::Validate)
        }
        else if str_equal(identifier, "with") {
            Some(Keyword::With)
        }
        else if str_equal(identifier, "observe") {
            Some(Keyword::Observe)
        }
        else if str_equal(identifier, "intent") {
            Some(Keyword::Intent)
        }
        else if str_equal(identifier, "propose") {
            Some(Keyword::Propose)
        }
        else if str_equal(identifier, "for") {
            Some(Keyword::For)
        }
        else if str_equal(identifier, "authorize") {
            Some(Keyword::Authorize)
        }
        else if str_equal(identifier, "commit") {
            Some(Keyword::Commit)
        }
        else if str_equal(identifier, "reconcile") {
            Some(Keyword::Reconcile)
        }
        else if str_equal(identifier, "against") {
            Some(Keyword::Against)
        }
        else if str_equal(identifier, "true") {
            Some(Keyword::True)
        }
        else if str_equal(identifier, "false") {
            Some(Keyword::False)
        }
        else {
            None
        }
    }
}

/// Punctuation and operators, with multi-byte spellings represented atomically.
#[derive(Clone, Copy, Debug, PartialEq, Eq, Structural)]
pub enum Symbol {
    /// `(`.
    LeftParen,
    /// `)`.
    RightParen,
    /// `{`.
    LeftBrace,
    /// `}`.
    RightBrace,
    /// `[`.
    LeftBracket,
    /// `]`.
    RightBracket,
    /// `,`.
    Comma,
    /// `:`.
    Colon,
    /// `;`.
    Semicolon,
    /// `.`.
    Dot,
    /// `?`.
    Question,
    /// `+`.
    Plus,
    /// `-`.
    Minus,
    /// `*`.
    Star,
    /// `/`.
    Slash,
    /// `!`.
    Bang,
    /// `=`.
    Equal,
    /// `<`.
    Less,
    /// `>`.
    Greater,
    /// `->`.
    Arrow,
    /// `=>`.
    FatArrow,
    /// `==`.
    EqualEqual,
    /// `!=`.
    BangEqual,
    /// `<=`.
    LessEqual,
    /// `>=`.
    GreaterEqual,
    /// `&&`.
    AndAnd,
    /// `||`.
    OrOr,
}

/// One lossless lexical token.
#[derive(Clone, Debug, PartialEq, Eq)]
pub enum TokenKind {
    /// Reserved word.
    Keyword(Keyword),
    /// User-defined ASCII identifier.
    Identifier(String),
    /// `@`-prefixed model alias without the prefix.
    ModelAlias(String),
    /// Signed-range decimal magnitude; negation is a separate token.
    Integer(i64),
    /// Decoded JSON-style string.
    String(String),
    /// Raw semantic contents between triple quotes.
    BlockString(String),
    /// Punctuation or operator.
    Symbol(Symbol),
    /// Whitespace retained for lossless formatting.
    Whitespace(String),
    /// Entire `//` comment excluding its newline.
    LineComment(String),
    /// Entire possibly nested `/* */` comment.
    BlockComment(String),
    /// End of source.
    Eof,
}

/// Whether a token kind is retained trivia rather than grammar input.
pub open spec fn is_trivia_kind(kind: TokenKind) -> bool {
    kind is Whitespace || kind is LineComment || kind is BlockComment
}

impl TokenKind {
    /// Returns whether this token is retained trivia rather than grammar input.
    pub fn is_trivia(&self) -> (trivia: bool)
        ensures
            trivia == is_trivia_kind(*self),
    {
        match self {
            TokenKind::Whitespace(_) | TokenKind::LineComment(_) | TokenKind::BlockComment(_) => true,
            _ => false,
        }
    }

    /// Whether this is exactly the keyword `keyword`.
    pub fn is_keyword(&self, keyword: Keyword) -> (found: bool)
        ensures
            found == (*self == TokenKind::Keyword(keyword)),
    {
        match self {
            TokenKind::Keyword(k) => *k == keyword,
            _ => false,
        }
    }

    /// Whether this is exactly the symbol `symbol`.
    pub fn is_symbol(&self, symbol: Symbol) -> (found: bool)
        ensures
            found == (*self == TokenKind::Symbol(symbol)),
    {
        match self {
            TokenKind::Symbol(s) => *s == symbol,
            _ => false,
        }
    }

    /// Whether this is the end-of-source marker.
    pub fn is_eof(&self) -> (found: bool)
        ensures
            found == (*self is Eof),
    {
        match self {
            TokenKind::Eof => true,
            _ => false,
        }
    }
}

impl TokenKind {
    /// A copy of this token kind.
    pub fn duplicate(&self) -> (copy: TokenKind)
        ensures
            copy == *self,
    {
        match self {
            TokenKind::Keyword(k) => TokenKind::Keyword(*k),
            TokenKind::Identifier(s) => TokenKind::Identifier(s.clone()),
            TokenKind::ModelAlias(s) => TokenKind::ModelAlias(s.clone()),
            TokenKind::Integer(v) => TokenKind::Integer(*v),
            TokenKind::String(s) => TokenKind::String(s.clone()),
            TokenKind::BlockString(s) => TokenKind::BlockString(s.clone()),
            TokenKind::Symbol(s) => TokenKind::Symbol(*s),
            TokenKind::Whitespace(s) => TokenKind::Whitespace(s.clone()),
            TokenKind::LineComment(s) => TokenKind::LineComment(s.clone()),
            TokenKind::BlockComment(s) => TokenKind::BlockComment(s.clone()),
            TokenKind::Eof => TokenKind::Eof,
        }
    }
}

/// A token paired with its exact source extent.
#[derive(Clone, Debug, PartialEq, Eq)]
pub struct Token {
    /// Lexical value.
    pub kind: TokenKind,
    /// Exact source span.
    pub span: Span,
}

impl Token {
    /// A copy of this token.
    pub fn duplicate(&self) -> (copy: Token)
        ensures
            copy == *self,
    {
        Token { kind: self.kind.duplicate(), span: self.span.duplicate() }
    }
}

} // verus!
