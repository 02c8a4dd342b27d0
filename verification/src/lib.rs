//! ASTER: diagnostics, source text, lexing, parsing, canonical formatting,
//! static checking and lowering to explicit IR, and the deterministic
//! runtime (budget ledger, authority ledger, explicit-instruction machine,
//! driver-free replay), with their contracts.

pub mod diagnostic;
pub mod registry;
pub mod span;
pub mod text;

pub use diagnostic::{Diagnostic, Severity};
pub use registry::{DiagnosticCode, DiagnosticCodeError, Explanation, explain};
pub use span::{Span, SpanError};
pub mod token;
pub use token::{Keyword, Symbol, Token, TokenKind};
pub mod source;
pub use source::SourceFile;
pub use registry::KnownDiagnosticCode;
pub mod json;
pub mod lexer;
pub mod ast;
pub use ast::{
    AgentDeclaration, Argument, BinaryOperator, Block, BudgetEntry, CapabilityExpression, Comment,
    Declaration, DeclarationKind, EnumDeclaration, EnumVariant, Expression, ExpressionKind,
    FieldInitializer, FunctionDeclaration, HandlerDeclaration, MatchArm, Module, Parameter, Path,
    Pattern, PolicyDecision, PolicyDeclaration, PolicyRule, PromptDeclaration, Risk, Sensitivity,
    SignatureDeclaration, StateField, Statement, StatementKind, ToolDeclaration, ToolMetadata,
    ToolMode, TypeDeclaration, TypeDefinition, TypeField, TypeReference, UnaryOperator,
    ValidatorDeclaration,
};
pub use lexer::{Lexed, lex};
pub mod parser;
pub mod formatter;
pub use parser::parse;
pub use formatter::{format_module, format_source};
pub mod budget;
pub use budget::{Budget, BudgetDimension, BudgetError, Reservation};
pub mod types;
pub use types::Type;
pub mod digest;
pub mod table;
pub mod ir;
pub mod host;
pub mod authority;
pub mod trace;
pub mod canonical;
pub mod model;
pub mod expression;
pub mod checker;
pub mod lowering;
pub use lowering::{LoweringError, lower};
pub use ir::{Program, ProgramError};
pub mod encoding;
pub mod instant;
pub use checker::{CheckedProgram, check, check_source};
pub mod json_value;
pub mod ordered;
pub mod runtime_value;
pub mod evaluation;
pub mod capability;
pub mod boundary;
pub mod fixture;
pub mod machine;
pub mod replay;
pub mod record;
