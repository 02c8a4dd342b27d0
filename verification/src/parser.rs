use vstd::prelude::*;

use crate::ast::{
    AgentDeclaration, Argument, BinaryOperator, Block, BudgetEntry, CapabilityExpression, Comment,
    Declaration, DeclarationKind, EnumDeclaration, EnumVariant, Expression, ExpressionKind,
    FieldInitializer, FunctionDeclaration, HandlerDeclaration, MatchArm, Module, Parameter, Path,
    Pattern, PolicyDecision, PolicyDeclaration, PolicyRule, PromptDeclaration, Risk, Sensitivity,
    SignatureDeclaration, StateField, Statement, StatementKind, ToolDeclaration, ToolMetadata,
    ToolMode, TypeDeclaration, TypeDefinition, TypeField, TypeReference, UnaryOperator,
    ValidatorDeclaration,
};
use crate::diagnostic::{Diagnostic, texts};
use crate::lexer::{lex, lexical_diagnostic, lossless_stream, sorted_by_location};
use crate::registry::{KnownDiagnosticCode, known_code_text};
use crate::source::SourceFile;
use crate::span::{Span, fits_in_memory, utf8_of};
use crate::text::{push_str, string_equals};
use crate::token::{Keyword, Symbol, Token, TokenKind, is_trivia_kind};

verus! {

/// Codes the parser reports for grammatical errors.
pub open spec fn is_syntax_code(code: Seq<char>) -> bool {
    code == known_code_text(KnownDiagnosticCode::ParseError) || code == known_code_text(
        KnownDiagnosticCode::DynamicPromptInstruction,
    ) || code == known_code_text(KnownDiagnosticCode::CommitWithoutPermit)
}

/// A grammatical error report.
pub open spec fn syntax_diagnostic(d: Diagnostic) -> bool {
    is_syntax_code(d.code@)
}

/// The "expected ..." report at a token's span.
pub open spec fn expected_report(d: Diagnostic, expected: Seq<char>, at: Span, path: Seq<char>) -> bool {
    &&& d.code@ == known_code_text(KnownDiagnosticCode::ParseError)
    &&& d.message@ == "expected "@ + expected
    &&& d.primary_span == at
    &&& texts(d.notes@) == seq!["while parsing "@ + path]
    &&& d.help matches Some(h) && h@ == "replace this token with "@ + expected
}

/// Diagnostics ordered by start offset.
pub open spec fn sorted_by_start(ds: Seq<Diagnostic>) -> bool {
    forall|i: int, j: int|
        0 <= i < j < ds.len() ==> (#[trigger] ds[i]).primary_span.start <= (
        #[trigger] ds[j]).primary_span.start
}

/// Texts of the comment tokens of a token stream, in order.
pub open spec fn comment_texts(tokens: Seq<Token>) -> Seq<Seq<char>>
    decreases tokens.len(),
{
    if tokens.len() == 0 {
        Seq::empty()
    } else {
        let rest = comment_texts(tokens.drop_last());
        match tokens.last().kind {
            TokenKind::LineComment(t) => rest.push(t@),
            TokenKind::BlockComment(t) => rest.push(t@),
            _ => rest,
        }
    }
}

/// The grammatical tokens of a token stream, in order.
pub open spec fn significant(tokens: Seq<Token>) -> Seq<Token>
    decreases tokens.len(),
{
    if tokens.len() == 0 {
        Seq::empty()
    } else {
        let rest = significant(tokens.drop_last());
        if is_trivia_kind(tokens.last().kind) {
            rest
        } else {
            rest.push(tokens.last())
        }
    }
}

type ParseResult<T> = Result<T, Diagnostic>;

struct Parser<'a> {
    path: &'a str,
    text: &'a str,
    tokens: Vec<Token>,
}

impl<'a> Parser<'a> {
    spec fn wf(&self) -> bool {
        &&& fits_in_memory(self.text@)
        &&& self.tokens@.len() >= 1
        &&& self.tokens@.last().kind is Eof
        &&& forall|i: int| 0 <= i < self.tokens@.len() - 1 ==> !(#[trigger] self.tokens@[i].kind is Eof)
    }

    spec fn at(&self, cursor: int) -> TokenKind {
        self.tokens@[cursor].kind
    }

    fn current(&self, cursor: usize) -> (token: &Token)
        requires
            self.wf(),
            cursor < self.tokens@.len(),
        ensures
            *token == self.tokens@[cursor as int],
    {
        &self.tokens[cursor]
    }

    fn previous(&self, cursor: usize) -> (token: &Token)
        requires
            self.wf(),
            cursor < self.tokens@.len(),
        ensures
            *token == self.tokens@[if cursor == 0 { 0int } else { cursor - 1 }],
    {
        let index = if cursor == 0 { 0 } else { cursor - 1 };
        &self.tokens[index]
    }

    /// Returns the current token and moves past it unless it is EOF.
    fn advance(&self, cursor: &mut usize) -> (token: Token)
        requires
            self.wf(),
            *old(cursor) < self.tokens@.len(),
        ensures
            token == self.tokens@[*old(cursor) as int],
            token.kind is Eof ==> *final(cursor) == *old(cursor),
            !(token.kind is Eof) ==> *final(cursor) == *old(cursor) + 1,
            *final(cursor) < self.tokens@.len(),
    {
        let position = *cursor;
        let token = self.tokens[position].duplicate();
        if !token.kind.is_eof() {
            proof {
                if position == self.tokens@.len() - 1 {
                    assert(self.tokens@[position as int] == self.tokens@.last());
                    assert(token.kind is Eof);
                }
            }
            let length = self.tokens.len();
            assert(position < length - 1);
            *cursor = position + 1;
        }
        token
    }

    fn check_symbol(&self, cursor: usize, symbol: Symbol) -> (found: bool)
        requires
            self.wf(),
            cursor < self.tokens@.len(),
        ensures
            found == (self.at(cursor as int) == TokenKind::Symbol(symbol)),
    {
        self.tokens[cursor].kind.is_symbol(symbol)
    }

    fn check_keyword(&self, cursor: usize, keyword: Keyword) -> (found: bool)
        requires
            self.wf(),
            cursor < self.tokens@.len(),
        ensures
            found == (self.at(cursor as int) == TokenKind::Keyword(keyword)),
    {
        self.tokens[cursor].kind.is_keyword(keyword)
    }

    fn check_eof(&self, cursor: usize) -> (found: bool)
        requires
            self.wf(),
            cursor < self.tokens@.len(),
        ensures
            found == (self.at(cursor as int) is Eof),
            found <==> cursor == self.tokens@.len() - 1,
    {
        self.tokens[cursor].kind.is_eof()
    }

    fn peek_symbol(&self, cursor: usize, offset: usize, symbol: Symbol) -> (found: bool)
        requires
            self.wf(),
            cursor < self.tokens@.len(),
        ensures
            found == (cursor + offset < self.tokens@.len() && self.at(cursor + offset)
                == TokenKind::Symbol(symbol)),
    {
        let index = cursor.saturating_add(offset);
        index < self.tokens.len() && cursor + offset < self.tokens.len()
            && self.tokens[index].kind.is_symbol(symbol)
    }

    fn record_initializer_follows(&self, cursor: usize) -> (follows: bool)
        requires
            self.wf(),
            cursor < self.tokens@.len(),
        ensures
            follows == (self.at(cursor as int) == TokenKind::Symbol(Symbol::LeftBrace) && cursor
                + 2 < self.tokens@.len() && self.at(cursor + 1) is Identifier && self.at(cursor + 2)
                == TokenKind::Symbol(Symbol::Equal)),
    {
        self.check_symbol(cursor, Symbol::LeftBrace) && self.tokens.len() - cursor > 2 && match &self.tokens[cursor + 1].kind {
            TokenKind::Identifier(_) => true,
            _ => false,
        } && self.peek_symbol(cursor, 2, Symbol::Equal)
    }

    fn take_symbol(&self, cursor: &mut usize, symbol: Symbol) -> (taken: Option<Token>)
        requires
            self.wf(),
            *old(cursor) < self.tokens@.len(),
        ensures
            self.at(*old(cursor) as int) == TokenKind::Symbol(symbol) ==> taken == Some(
                self.tokens@[*old(cursor) as int],
            ) && *final(cursor) == *old(cursor) + 1,
            self.at(*old(cursor) as int) != TokenKind::Symbol(symbol) ==> taken is None
                && *final(cursor) == *old(cursor),
            *final(cursor) < self.tokens@.len(),
    {
        if self.check_symbol(*cursor, symbol) {
            Some(self.advance(cursor))
        } else {
            None
        }
    }

    fn take_keyword(&self, cursor: &mut usize, keyword: Keyword) -> (taken: Option<Token>)
        requires
            self.wf(),
            *old(cursor) < self.tokens@.len(),
        ensures
            self.at(*old(cursor) as int) == TokenKind::Keyword(keyword) ==> taken == Some(
                self.tokens@[*old(cursor) as int],
            ) && *final(cursor) == *old(cursor) + 1,
            self.at(*old(cursor) as int) != TokenKind::Keyword(keyword) ==> taken is None
                && *final(cursor) == *old(cursor),
            *final(cursor) < self.tokens@.len(),
    {
        if self.check_keyword(*cursor, keyword) {
            Some(self.advance(cursor))
        } else {
            None
        }
    }

    fn span(&self, start: usize, end: usize) -> (span: Span)
        requires
            self.wf(),
        ensures
            span.file@ == self.path@,
    {
        match Span::from_offsets(self.path, self.text, start, end) {
            Ok(span) => span,
            Err(_) => {
                let length = self.text.as_bytes().len();
                Span {
                    file: self.path.to_owned(),
                    start: if start < length { start } else { length },
                    end: if end < length { end } else { length },
                    line: 1,
                    column: 1,
                }
            },
        }
    }

    fn expected_at_token(&self, expected: &str, token: &Token) -> (d: Diagnostic)
        ensures
            expected_report(d, expected@, token.span, self.path@),
            syntax_diagnostic(d),
    {
        let mut message = String::new();
        push_str(&mut message, "expected ");
        push_str(&mut message, expected);
        let mut note = String::new();
        push_str(&mut note, "while parsing ");
        push_str(&mut note, self.path);
        let mut help = String::new();
        push_str(&mut help, "replace this token with ");
        push_str(&mut help, expected);
        proof {
            reveal_strlit("expected ");
            reveal_strlit("while parsing ");
            reveal_strlit("replace this token with ");
        }
        let d = Diagnostic::error(
            KnownDiagnosticCode::ParseError.code(),
            message.as_str(),
            token.span.duplicate(),
        ).with_note(note.as_str()).with_help(help.as_str());
        proof {
            assert(texts(d.notes@) =~= seq!["while parsing "@ + self.path@]);
        }
        d
    }

    fn expected(&self, cursor: usize, expected: &str) -> (d: Diagnostic)
        requires
            self.wf(),
            cursor < self.tokens@.len(),
        ensures
            expected_report(d, expected@, self.tokens@[cursor as int].span, self.path@),
            syntax_diagnostic(d),
    {
        self.expected_at_token(expected, self.current(cursor))
    }

    fn expected_at_previous(&self, cursor: usize, expected: &str) -> (d: Diagnostic)
        requires
            self.wf(),
            cursor < self.tokens@.len(),
        ensures
            syntax_diagnostic(d),
    {
        self.expected_at_token(expected, self.previous(cursor))
    }

    fn expect_symbol(&self, cursor: &mut usize, symbol: Symbol, expected: &str) -> (result:
        ParseResult<Token>)
        requires
            self.wf(),
            *old(cursor) < self.tokens@.len(),
        ensures
            self.at(*old(cursor) as int) == TokenKind::Symbol(symbol) ==> result == Ok::<
                Token,
                Diagnostic,
            >(self.tokens@[*old(cursor) as int]) && *final(cursor) == *old(cursor) + 1,
            self.at(*old(cursor) as int) != TokenKind::Symbol(symbol) ==> (result matches Err(d)
                && expected_report(d, expected@, self.tokens@[*old(cursor) as int].span, self.path@)),
            *old(cursor) <= *final(cursor) < self.tokens@.len(),
            result matches Err(d) ==> syntax_diagnostic(d),
    {
        let token = self.advance(cursor);
        if token.kind.is_symbol(symbol) {
            Ok(token)
        } else {
            Err(self.expected_at_token(expected, &token))
        }
    }

    fn expect_keyword(&self, cursor: &mut usize, keyword: Keyword, expected: &str) -> (result:
        ParseResult<Token>)
        requires
            self.wf(),
            *old(cursor) < self.tokens@.len(),
        ensures
            self.at(*old(cursor) as int) == TokenKind::Keyword(keyword) ==> result == Ok::<
                Token,
                Diagnostic,
            >(self.tokens@[*old(cursor) as int]) && *final(cursor) == *old(cursor) + 1,
            self.at(*old(cursor) as int) != TokenKind::Keyword(keyword) ==> (result matches Err(d)
                && expected_report(d, expected@, self.tokens@[*old(cursor) as int].span, self.path@)),
            *old(cursor) <= *final(cursor) < self.tokens@.len(),
            result matches Err(d) ==> syntax_diagnostic(d),
    {
        let token = self.advance(cursor);
        if token.kind.is_keyword(keyword) {
            Ok(token)
        } else {
            Err(self.expected_at_token(expected, &token))
        }
    }

    fn expect_identifier(&self, cursor: &mut usize) -> (result: ParseResult<(String, Span)>)
        requires
            self.wf(),
            *old(cursor) < self.tokens@.len(),
        ensures
            match self.at(*old(cursor) as int) {
                TokenKind::Identifier(name) => result matches Ok(pair) && pair.0@ == name@
                    && pair.1 == self.tokens@[*old(cursor) as int].span && *final(cursor) == *old(
                    cursor,
                ) + 1,
                _ => result matches Err(d) && expected_report(
                    d,
                    "an identifier"@,
                    self.tokens@[*old(cursor) as int].span,
                    self.path@,
                ),
            },
            *old(cursor) <= *final(cursor) < self.tokens@.len(),
            result matches Err(d) ==> syntax_diagnostic(d),
    {
        let token = self.advance(cursor);
        match token.kind {
            TokenKind::Identifier(value) => Ok((value, token.span)),
            _ => Err(self.expected_at_token("an identifier", &token)),
        }
    }

    fn expect_identifier_or_per_event(&self, cursor: &mut usize) -> (result: ParseResult<
        (String, Span),
    >)
        requires
            self.wf(),
            *old(cursor) < self.tokens@.len(),
        ensures
            *old(cursor) <= *final(cursor) < self.tokens@.len(),
            result is Ok ==> *final(cursor) == *old(cursor) + 1,
            result matches Ok(pair) ==> (self.at(*old(cursor) as int) == TokenKind::Keyword(
                Keyword::PerEvent,
            ) && pair.0@ == "per_event"@) || (self.at(*old(cursor) as int) matches TokenKind::Identifier(
                name,
            ) && pair.0@ == name@),
            result matches Err(d) ==> syntax_diagnostic(d),
    {
        let token = self.advance(cursor);
        match token.kind {
            TokenKind::Identifier(value) => Ok((value, token.span)),
            TokenKind::Keyword(Keyword::PerEvent) => {
                proof {
                    reveal_strlit("per_event");
                }
                Ok((String::from_str("per_event"), token.span))
            },
            _ => Err(self.expected_at_token("`per_event`", &token)),
        }
    }

    fn is_declaration_start(&self, cursor: usize) -> (start: bool)
        requires
            self.wf(),
            cursor < self.tokens@.len(),
        ensures
            start == is_declaration_keyword(self.at(cursor as int)),
    {
        match &self.tokens[cursor].kind {
            TokenKind::Keyword(k) => match k {
                Keyword::Type | Keyword::Enum | Keyword::Capability | Keyword::Fn | Keyword::Flow
                | Keyword::Prompt | Keyword::Validator | Keyword::Tool | Keyword::Policy
                | Keyword::Agent => true,
                _ => false,
            },
            _ => false,
        }
    }
}


impl<'a> Parser<'a> {
    fn parse_path(&self, cursor: &mut usize) -> (result: ParseResult<Path>)
        requires
            self.wf(),
            *old(cursor) < self.tokens@.len(),
        ensures
            *old(cursor) <= *final(cursor) < self.tokens@.len(),
            result is Ok ==> *final(cursor) > *old(cursor),
            result matches Err(d) ==> syntax_diagnostic(d),
            result matches Ok(path) ==> path.segments@.len() >= 1 && self.at(*old(cursor) as int)
                == TokenKind::Identifier(path.segments@[0]),
    {
        let token = self.advance(cursor);
        match token.kind {
            TokenKind::Identifier(first) => self.parse_path_after_first(cursor, first, &token.span),
            _ => Err(self.expected_at_token("an identifier", &token)),
        }
    }

    fn parse_path_after_first(&self, cursor: &mut usize, first: String, first_span: &Span) -> (result:
        ParseResult<Path>)
        requires
            self.wf(),
            *old(cursor) < self.tokens@.len(),
        ensures
            *old(cursor) <= *final(cursor) < self.tokens@.len(),
            result matches Err(d) ==> syntax_diagnostic(d),
            result matches Ok(path) ==> path.segments@.len() >= 1 && path.segments@[0] == first,
    {
        let start = first_span.start;
        let mut end = first_span.end;
        let mut segments: Vec<String> = Vec::new();
        segments.push(first);
        while self.check_symbol(*cursor, Symbol::Dot)
            invariant
                self.wf(),
                *old(cursor) <= *cursor < self.tokens@.len(),
                segments@.len() >= 1,
                segments@[0] == first,
            decreases self.tokens@.len() - *cursor,
        {
            self.advance(cursor);
            let (segment, span) = self.expect_identifier(cursor)?;
            end = span.end;
            segments.push(segment);
        }
        Ok(Path { segments, span: self.span(start, end) })
    }

    fn parse_type_reference(&self, cursor: &mut usize) -> (result: ParseResult<TypeReference>)
        requires
            self.wf(),
            *old(cursor) < self.tokens@.len(),
        ensures
            *old(cursor) <= *final(cursor) < self.tokens@.len(),
            result is Ok ==> *final(cursor) > *old(cursor),
            result matches Err(d) ==> syntax_diagnostic(d),
        decreases self.tokens@.len() - *old(cursor),
    {
        let path = self.parse_path(cursor)?;
        let start = path.span.start;
        let mut arguments: Vec<TypeReference> = Vec::new();
        let mut end = path.span.end;
        if self.take_symbol(cursor, Symbol::Less).is_some() {
            loop
                invariant
                    self.wf(),
                    *old(cursor) < *cursor < self.tokens@.len(),
                decreases self.tokens@.len() - *cursor,
            {
                arguments.push(self.parse_type_reference(cursor)?);
                if self.take_symbol(cursor, Symbol::Comma).is_none() {
                    break;
                }
            }
            end = self.expect_symbol(cursor, Symbol::Greater, "`>`")?.span.end;
        }
        Ok(TypeReference { path, arguments, span: self.span(start, end) })
    }

    fn parse_parameters(&self, cursor: &mut usize) -> (result: ParseResult<Vec<Parameter>>)
        requires
            self.wf(),
            *old(cursor) < self.tokens@.len(),
        ensures
            *old(cursor) <= *final(cursor) < self.tokens@.len(),
            result is Ok ==> *final(cursor) > *old(cursor),
            result matches Err(d) ==> syntax_diagnostic(d),
    {
        self.expect_symbol(cursor, Symbol::LeftParen, "`(`")?;
        let mut parameters: Vec<Parameter> = Vec::new();
        while !self.check_symbol(*cursor, Symbol::RightParen)
            invariant
                self.wf(),
                *old(cursor) < *cursor < self.tokens@.len(),
            decreases self.tokens@.len() - *cursor,
        {
            let start = self.current(*cursor).span.start;
            let (name, _) = self.expect_identifier(cursor)?;
            self.expect_symbol(cursor, Symbol::Colon, "`:`")?;
            let ty = self.parse_type_reference(cursor)?;
            let end = ty.span.end;
            parameters.push(Parameter { name, ty, span: self.span(start, end) });
            if self.take_symbol(cursor, Symbol::Comma).is_none() {
                break;
            }
        }
        self.expect_symbol(cursor, Symbol::RightParen, "`)`")?;
        Ok(parameters)
    }

    fn parse_capability_list(&self, cursor: &mut usize) -> (result: ParseResult<
        Vec<CapabilityExpression>,
    >)
        requires
            self.wf(),
            *old(cursor) < self.tokens@.len(),
        ensures
            *old(cursor) <= *final(cursor) < self.tokens@.len(),
            result is Ok ==> *final(cursor) > *old(cursor),
            result matches Err(d) ==> syntax_diagnostic(d),
    {
        self.expect_symbol(cursor, Symbol::LeftBracket, "`[`")?;
        let mut capabilities: Vec<CapabilityExpression> = Vec::new();
        while !self.check_symbol(*cursor, Symbol::RightBracket)
            invariant
                self.wf(),
                *old(cursor) < *cursor < self.tokens@.len(),
            decreases self.tokens@.len() - *cursor,
        {
            capabilities.push(self.parse_capability_expression(cursor)?);
            if self.take_symbol(cursor, Symbol::Comma).is_none() {
                break;
            }
        }
        self.expect_symbol(cursor, Symbol::RightBracket, "`]`")?;
        Ok(capabilities)
    }

    fn parse_capability_expression(&self, cursor: &mut usize) -> (result: ParseResult<
        CapabilityExpression,
    >)
        requires
            self.wf(),
            *old(cursor) < self.tokens@.len(),
        ensures
            *old(cursor) <= *final(cursor) < self.tokens@.len(),
            result is Ok ==> *final(cursor) > *old(cursor),
            result matches Err(d) ==> syntax_diagnostic(d),
    {
        let path = self.parse_path(cursor)?;
        let start = path.span.start;
        let arguments = self.parse_argument_list(cursor)?;
        let end = self.previous(*cursor).span.end;
        Ok(CapabilityExpression { path, arguments, span: self.span(start, end) })
    }

    fn parse_argument_list(&self, cursor: &mut usize) -> (result: ParseResult<Vec<Argument>>)
        requires
            self.wf(),
            *old(cursor) < self.tokens@.len(),
        ensures
            *old(cursor) <= *final(cursor) < self.tokens@.len(),
            result is Ok ==> *final(cursor) > *old(cursor),
            result matches Err(d) ==> syntax_diagnostic(d),
        decreases self.tokens@.len() - *old(cursor), 1nat,
    {
        self.expect_symbol(cursor, Symbol::LeftParen, "`(`")?;
        let mut arguments: Vec<Argument> = Vec::new();
        while !self.check_symbol(*cursor, Symbol::RightParen)
            invariant
                self.wf(),
                *old(cursor) < *cursor < self.tokens@.len(),
            decreases self.tokens@.len() - *cursor,
        {
            let start = self.current(*cursor).span.start;
            let named = match &self.current(*cursor).kind {
                TokenKind::Identifier(_) => self.peek_symbol(*cursor, 1, Symbol::Equal),
                _ => false,
            };
            let name = if named {
                let name = self.expect_identifier(cursor)?.0;
                self.expect_symbol(cursor, Symbol::Equal, "`=`")?;
                Some(name)
            } else {
                None
            };
            let value = self.parse_expression(cursor, 0)?;
            let end = value.span.end;
            arguments.push(Argument { name, value, span: self.span(start, end) });
            if self.take_symbol(cursor, Symbol::Comma).is_none() {
                break;
            }
        }
        self.expect_symbol(cursor, Symbol::RightParen, "`)`")?;
        Ok(arguments)
    }

    fn parse_field_initializers(&self, cursor: &mut usize, closing: Symbol, separator: Symbol) -> (result:
        ParseResult<Vec<FieldInitializer>>)
        requires
            self.wf(),
            *old(cursor) < self.tokens@.len(),
        ensures
            *old(cursor) <= *final(cursor) < self.tokens@.len(),
            result matches Err(d) ==> syntax_diagnostic(d),
        decreases self.tokens@.len() - *old(cursor), 1nat,
    {
        let mut fields: Vec<FieldInitializer> = Vec::new();
        while !self.check_symbol(*cursor, closing)
            invariant
                self.wf(),
                *old(cursor) <= *cursor < self.tokens@.len(),
            decreases self.tokens@.len() - *cursor,
        {
            let start = self.current(*cursor).span.start;
            let (name, _) = self.expect_identifier(cursor)?;
            self.expect_symbol(cursor, Symbol::Equal, "`=`")?;
            let value = self.parse_expression(cursor, 0)?;
            let end = value.span.end;
            fields.push(FieldInitializer { name, value, span: self.span(start, end) });
            if self.take_symbol(cursor, separator).is_none() {
                break;
            }
        }
        Ok(fields)
    }

    fn parse_block(&self, cursor: &mut usize) -> (result: ParseResult<Block>)
        requires
            self.wf(),
            *old(cursor) < self.tokens@.len(),
        ensures
            *old(cursor) <= *final(cursor) < self.tokens@.len(),
            result is Ok ==> *final(cursor) > *old(cursor),
            result matches Err(d) ==> syntax_diagnostic(d),
        decreases self.tokens@.len() - *old(cursor), 1nat,
    {
        let start = self.expect_symbol(cursor, Symbol::LeftBrace, "`{`")?.span.start;
        let mut statements: Vec<Statement> = Vec::new();
        while !self.check_symbol(*cursor, Symbol::RightBrace)
            invariant
                self.wf(),
                *old(cursor) < *cursor < self.tokens@.len(),
            decreases self.tokens@.len() - *cursor,
        {
            statements.push(self.parse_statement(cursor)?);
        }
        let end = self.expect_symbol(cursor, Symbol::RightBrace, "`}`")?.span.end;
        Ok(Block { statements, span: self.span(start, end) })
    }

    fn parse_statement(&self, cursor: &mut usize) -> (result: ParseResult<Statement>)
        requires
            self.wf(),
            *old(cursor) < self.tokens@.len(),
        ensures
            *old(cursor) <= *final(cursor) < self.tokens@.len(),
            result is Ok ==> *final(cursor) > *old(cursor),
            result matches Err(d) ==> syntax_diagnostic(d),
        decreases self.tokens@.len() - *old(cursor), 4nat,
    {
        let start = self.current(*cursor).span.start;
        let (kind, end) = if self.check_keyword(*cursor, Keyword::Let) {
            self.advance(cursor);
            let (name, _) = self.expect_identifier(cursor)?;
            let ty = if self.take_symbol(cursor, Symbol::Colon).is_some() {
                Some(self.parse_type_reference(cursor)?)
            } else {
                None
            };
            self.expect_symbol(cursor, Symbol::Equal, "`=`")?;
            let value = self.parse_expression(cursor, 0)?;
            let end = self.expect_symbol(cursor, Symbol::Semicolon, "`;`")?.span.end;
            (StatementKind::Let { name, ty, value }, end)
        } else if self.check_keyword(*cursor, Keyword::Require) {
            self.advance(cursor);
            let condition = self.parse_expression(cursor, 0)?;
            let end = self.expect_symbol(cursor, Symbol::Semicolon, "`;`")?.span.end;
            (StatementKind::Require { condition }, end)
        } else if self.check_keyword(*cursor, Keyword::Update) {
            self.advance(cursor);
            self.expect_keyword(cursor, Keyword::State, "`state`")?;
            self.expect_symbol(cursor, Symbol::LeftBrace, "`{`")?;
            let fields = self.parse_field_initializers(cursor, Symbol::RightBrace, Symbol::Semicolon)?;
            let end = self.expect_symbol(cursor, Symbol::RightBrace, "`}`")?.span.end;
            (StatementKind::UpdateState { fields }, end)
        } else if self.check_keyword(*cursor, Keyword::Return) {
            self.advance(cursor);
            let value = self.parse_expression(cursor, 0)?;
            let end = self.expect_symbol(cursor, Symbol::Semicolon, "`;`")?.span.end;
            (StatementKind::Return { value }, end)
        } else {
            let expression = self.parse_expression(cursor, 0)?;
            let end = self.expect_symbol(cursor, Symbol::Semicolon, "`;`")?.span.end;
            (StatementKind::Expression { expression }, end)
        };
        Ok(Statement { kind, span: self.span(start, end) })
    }

    fn binary_operator(&self, cursor: usize) -> (operator: Option<(u8, u8, BinaryOperator)>)
        requires
            self.wf(),
            cursor < self.tokens@.len(),
        ensures
            operator == binary_operator_of(self.at(cursor as int)),
    {
        match &self.tokens[cursor].kind {
            TokenKind::Symbol(symbol) => match symbol {
                Symbol::OrOr => Some((1u8, 2u8, BinaryOperator::Or)),
                Symbol::AndAnd => Some((3u8, 4u8, BinaryOperator::And)),
                Symbol::EqualEqual => Some((5u8, 6u8, BinaryOperator::Equal)),
                Symbol::BangEqual => Some((5u8, 6u8, BinaryOperator::NotEqual)),
                Symbol::Less => Some((7u8, 8u8, BinaryOperator::Less)),
                Symbol::LessEqual => Some((7u8, 8u8, BinaryOperator::LessEqual)),
                Symbol::Greater => Some((7u8, 8u8, BinaryOperator::Greater)),
                Symbol::GreaterEqual => Some((7u8, 8u8, BinaryOperator::GreaterEqual)),
                Symbol::Plus => Some((9u8, 10u8, BinaryOperator::Add)),
                Symbol::Minus => Some((9u8, 10u8, BinaryOperator::Subtract)),
                Symbol::Star => Some((11u8, 12u8, BinaryOperator::Multiply)),
                Symbol::Slash => Some((11u8, 12u8, BinaryOperator::Divide)),
                _ => None,
            },
            _ => None,
        }
    }

    fn parse_expression(&self, cursor: &mut usize, minimum_binding_power: u8) -> (result: ParseResult<
        Expression,
    >)
        requires
            self.wf(),
            *old(cursor) < self.tokens@.len(),
        ensures
            *old(cursor) <= *final(cursor) < self.tokens@.len(),
            result is Ok ==> *final(cursor) > *old(cursor),
            result matches Err(d) ==> syntax_diagnostic(d),
        decreases self.tokens@.len() - *old(cursor), 3nat,
    {
        let mut left = self.parse_prefix_expression(cursor)?;
        loop
            invariant
                self.wf(),
                *old(cursor) < *cursor < self.tokens@.len(),
            decreases self.tokens@.len() - *cursor,
        {
            if self.check_symbol(*cursor, Symbol::Question) {
                let end = self.advance(cursor).span.end;
                let start = left.span.start;
                left = Expression {
                    kind: ExpressionKind::Try { value: Box::new(left) },
                    span: self.span(start, end),
                };
                continue;
            }
            if self.check_symbol(*cursor, Symbol::Dot) {
                self.advance(cursor);
                let (field, field_span) = self.expect_identifier(cursor)?;
                let start = left.span.start;
                left = Expression {
                    kind: ExpressionKind::Field { target: Box::new(left), field },
                    span: self.span(start, field_span.end),
                };
                continue;
            }
            if self.check_symbol(*cursor, Symbol::LeftParen) {
                let start = left.span.start;
                let arguments = self.parse_argument_list(cursor)?;
                let end = self.previous(*cursor).span.end;
                left = Expression {
                    kind: ExpressionKind::Call { callee: Box::new(left), arguments },
                    span: self.span(start, end),
                };
                continue;
            }
            let (left_power, right_power, operator) = match self.binary_operator(*cursor) {
                Some(found) => found,
                None => break,
            };
            if left_power < minimum_binding_power {
                break;
            }
            self.advance(cursor);
            let right = self.parse_expression(cursor, right_power)?;
            let start = left.span.start;
            let end = right.span.end;
            left = Expression {
                kind: ExpressionKind::Binary { left: Box::new(left), operator, right: Box::new(right) },
                span: self.span(start, end),
            };
        }
        Ok(left)
    }

    fn parse_prefix_expression(&self, cursor: &mut usize) -> (result: ParseResult<Expression>)
        requires
            self.wf(),
            *old(cursor) < self.tokens@.len(),
        ensures
            *old(cursor) <= *final(cursor) < self.tokens@.len(),
            result is Ok ==> *final(cursor) > *old(cursor),
            result matches Err(d) ==> syntax_diagnostic(d),
        decreases self.tokens@.len() - *old(cursor), 2nat,
    {
        let token = self.advance(cursor);
        let start = token.span.start;
        match token.kind {
            TokenKind::Integer(value) => Ok(Expression { kind: ExpressionKind::Int { value }, span: token.span }),
            TokenKind::String(value) => Ok(Expression { kind: ExpressionKind::Text { value }, span: token.span }),
            TokenKind::Keyword(Keyword::True) => Ok(
                Expression { kind: ExpressionKind::Bool { value: true }, span: token.span },
            ),
            TokenKind::Keyword(Keyword::False) => Ok(
                Expression { kind: ExpressionKind::Bool { value: false }, span: token.span },
            ),
            TokenKind::Identifier(first) => {
                let path = self.parse_path_after_first(cursor, first, &token.span)?;
                if self.record_initializer_follows(*cursor) && self.take_symbol(
                    cursor,
                    Symbol::LeftBrace,
                ).is_some() {
                    let fields = self.parse_field_initializers(cursor, Symbol::RightBrace, Symbol::Comma)?;
                    let end = self.expect_symbol(cursor, Symbol::RightBrace, "`}`")?.span.end;
                    Ok(Expression { kind: ExpressionKind::Record { path, fields }, span: self.span(start, end) })
                } else {
                    let end = path.span.end;
                    Ok(Expression { kind: ExpressionKind::Path { path }, span: self.span(start, end) })
                }
            },
            TokenKind::Symbol(Symbol::LeftParen) => {
                if self.take_symbol(cursor, Symbol::RightParen).is_some() {
                    let end = self.previous(*cursor).span.end;
                    Ok(Expression { kind: ExpressionKind::Unit, span: self.span(start, end) })
                } else {
                    let mut expression = self.parse_expression(cursor, 0)?;
                    let end = self.expect_symbol(cursor, Symbol::RightParen, "`)`")?.span.end;
                    expression.span = self.span(start, end);
                    Ok(expression)
                }
            },
            TokenKind::Symbol(Symbol::LeftBracket) => {
                let mut elements: Vec<Expression> = Vec::new();
                while !self.check_symbol(*cursor, Symbol::RightBracket)
                    invariant
                        self.wf(),
                        *old(cursor) < *cursor < self.tokens@.len(),
                    decreases self.tokens@.len() - *cursor,
                {
                    elements.push(self.parse_expression(cursor, 0)?);
                    if self.take_symbol(cursor, Symbol::Comma).is_none() {
                        break;
                    }
                }
                let end = self.expect_symbol(cursor, Symbol::RightBracket, "`]`")?.span.end;
                Ok(Expression { kind: ExpressionKind::List { elements }, span: self.span(start, end) })
            },
            TokenKind::Symbol(Symbol::Bang) | TokenKind::Symbol(Symbol::Minus) => {
                let operator = if token.kind.is_symbol(Symbol::Bang) {
                    UnaryOperator::Not
                } else {
                    UnaryOperator::Negate
                };
                let operand = self.parse_expression(cursor, 13)?;
                let end = operand.span.end;
                Ok(Expression {
                    kind: ExpressionKind::Unary { operator, operand: Box::new(operand) },
                    span: self.span(start, end),
                })
            },
            TokenKind::Keyword(Keyword::If) => self.parse_if_expression(cursor, start),
            TokenKind::Keyword(Keyword::Match) => self.parse_match_expression(cursor, start),
            TokenKind::Keyword(Keyword::Infer) => self.parse_infer_expression(cursor, start),
            TokenKind::Keyword(Keyword::Validate) => self.parse_validate_expression(cursor, start),
            TokenKind::Keyword(Keyword::Observe) => self.parse_observe_expression(cursor, start),
            TokenKind::Keyword(Keyword::Intent) => self.parse_intent_expression(cursor, start),
            TokenKind::Keyword(Keyword::Propose) => self.parse_propose_expression(cursor, start),
            TokenKind::Keyword(Keyword::Authorize) => self.parse_authorize_expression(cursor, start),
            TokenKind::Keyword(Keyword::Commit) => self.parse_commit_expression(cursor, start),
            TokenKind::Keyword(Keyword::Reconcile) => self.parse_reconcile_expression(cursor, start),
            _ => Err(self.expected_at_token("an expression", &token)),
        }
    }

    fn parse_if_expression(&self, cursor: &mut usize, start: usize) -> (result: ParseResult<Expression>)
        requires
            self.wf(),
            *old(cursor) < self.tokens@.len(),
        ensures
            *old(cursor) <= *final(cursor) < self.tokens@.len(),
            result is Ok ==> *final(cursor) > *old(cursor),
            result matches Err(d) ==> syntax_diagnostic(d),
        decreases self.tokens@.len() - *old(cursor), 5nat,
    {
        let condition = self.parse_expression(cursor, 0)?;
        let then_block = self.parse_block(cursor)?;
        self.expect_keyword(cursor, Keyword::Else, "`else`")?;
        let else_block = self.parse_block(cursor)?;
        let end = else_block.span.end;
        Ok(Expression {
            kind: ExpressionKind::If { condition: Box::new(condition), then_block, else_block },
            span: self.span(start, end),
        })
    }

    fn parse_match_expression(&self, cursor: &mut usize, start: usize) -> (result: ParseResult<
        Expression,
    >)
        requires
            self.wf(),
            *old(cursor) < self.tokens@.len(),
        ensures
            *old(cursor) <= *final(cursor) < self.tokens@.len(),
            result is Ok ==> *final(cursor) > *old(cursor),
            result matches Err(d) ==> syntax_diagnostic(d),
        decreases self.tokens@.len() - *old(cursor), 5nat,
    {
        let value = self.parse_expression(cursor, 0)?;
        self.expect_symbol(cursor, Symbol::LeftBrace, "`{`")?;
        let mut arms: Vec<MatchArm> = Vec::new();
        while !self.check_symbol(*cursor, Symbol::RightBrace)
            invariant
                self.wf(),
                *old(cursor) < *cursor < self.tokens@.len(),
            decreases self.tokens@.len() - *cursor,
        {
            let arm_start = self.current(*cursor).span.start;
            let pattern = self.parse_pattern(cursor)?;
            self.expect_symbol(cursor, Symbol::FatArrow, "`=>`")?;
            let arm_value = self.parse_expression(cursor, 0)?;
            let arm_end = arm_value.span.end;
            arms.push(MatchArm { pattern, value: arm_value, span: self.span(arm_start, arm_end) });
            if self.take_symbol(cursor, Symbol::Comma).is_none() {
                break;
            }
        }
        let end = self.expect_symbol(cursor, Symbol::RightBrace, "`}`")?.span.end;
        Ok(Expression {
            kind: ExpressionKind::Match { value: Box::new(value), arms },
            span: self.span(start, end),
        })
    }

    fn parse_pattern(&self, cursor: &mut usize) -> (result: ParseResult<Pattern>)
        requires
            self.wf(),
            *old(cursor) < self.tokens@.len(),
        ensures
            *old(cursor) <= *final(cursor) < self.tokens@.len(),
            result is Ok ==> *final(cursor) > *old(cursor),
            result matches Err(d) ==> syntax_diagnostic(d),
    {
        let path = self.parse_path(cursor)?;
        if path.segments.len() == 1 && string_equals(&path.segments[0], "_") {
            return Ok(Pattern::Wildcard);
        }
        let binding = if self.take_symbol(cursor, Symbol::LeftParen).is_some() {
            let binding = self.expect_identifier(cursor)?.0;
            self.expect_symbol(cursor, Symbol::RightParen, "`)`")?;
            Some(binding)
        } else {
            None
        };
        Ok(Pattern::Variant { path, binding })
    }

    fn parse_infer_expression(&self, cursor: &mut usize, start: usize) -> (result: ParseResult<
        Expression,
    >)
        requires
            self.wf(),
            *old(cursor) < self.tokens@.len(),
        ensures
            *old(cursor) <= *final(cursor) < self.tokens@.len(),
            result is Ok ==> *final(cursor) > *old(cursor),
            result matches Err(d) ==> syntax_diagnostic(d),
        decreases self.tokens@.len() - *old(cursor), 5nat,
    {
        let prompt = self.parse_path(cursor)?;
        let arguments = self.parse_argument_list(cursor)?;
        self.expect_keyword(cursor, Keyword::Using, "`using`")?;
        let token = self.advance(cursor);
        match token.kind {
            TokenKind::ModelAlias(model_alias) => {
                let end = token.span.end;
                Ok(Expression {
                    kind: ExpressionKind::Infer { prompt, arguments, model_alias },
                    span: self.span(start, end),
                })
            },
            _ => Err(self.expected_at_token("a model alias such as `@planner`", &token)),
        }
    }

    fn parse_validate_expression(&self, cursor: &mut usize, start: usize) -> (result: ParseResult<
        Expression,
    >)
        requires
            self.wf(),
            *old(cursor) < self.tokens@.len(),
        ensures
            *old(cursor) <= *final(cursor) < self.tokens@.len(),
            result is Ok ==> *final(cursor) > *old(cursor),
            result matches Err(d) ==> syntax_diagnostic(d),
        decreases self.tokens@.len() - *old(cursor), 5nat,
    {
        let candidate = self.parse_expression(cursor, 0)?;
        self.expect_keyword(cursor, Keyword::With, "`with`")?;
        let validator = self.parse_path(cursor)?;
        let end = validator.span.end;
        Ok(Expression {
            kind: ExpressionKind::Validate { candidate: Box::new(candidate), validator },
            span: self.span(start, end),
        })
    }

    fn parse_observe_expression(&self, cursor: &mut usize, start: usize) -> (result: ParseResult<
        Expression,
    >)
        requires
            self.wf(),
            *old(cursor) < self.tokens@.len(),
        ensures
            *old(cursor) <= *final(cursor) < self.tokens@.len(),
            result is Ok ==> *final(cursor) > *old(cursor),
            result matches Err(d) ==> syntax_diagnostic(d),
        decreases self.tokens@.len() - *old(cursor), 5nat,
    {
        let action = self.parse_path(cursor)?;
        let arguments = self.parse_argument_list(cursor)?;
        let end = self.previous(*cursor).span.end;
        Ok(Expression { kind: ExpressionKind::Observe { action, arguments }, span: self.span(start, end) })
    }

    fn parse_intent_expression(&self, cursor: &mut usize, start: usize) -> (result: ParseResult<
        Expression,
    >)
        requires
            self.wf(),
            *old(cursor) < self.tokens@.len(),
        ensures
            *old(cursor) <= *final(cursor) < self.tokens@.len(),
            result is Ok ==> *final(cursor) > *old(cursor),
            result matches Err(d) ==> syntax_diagnostic(d),
        decreases self.tokens@.len() - *old(cursor), 5nat,
    {
        let purpose = self.parse_path(cursor)?;
        self.expect_symbol(cursor, Symbol::LeftBrace, "`{`")?;
        let fields = self.parse_field_initializers(cursor, Symbol::RightBrace, Symbol::Semicolon)?;
        let end = self.expect_symbol(cursor, Symbol::RightBrace, "`}`")?.span.end;
        Ok(Expression { kind: ExpressionKind::Intent { purpose, fields }, span: self.span(start, end) })
    }

    fn parse_propose_expression(&self, cursor: &mut usize, start: usize) -> (result: ParseResult<
        Expression,
    >)
        requires
            self.wf(),
            *old(cursor) < self.tokens@.len(),
        ensures
            *old(cursor) <= *final(cursor) < self.tokens@.len(),
            result is Ok ==> *final(cursor) > *old(cursor),
            result matches Err(d) ==> syntax_diagnostic(d),
        decreases self.tokens@.len() - *old(cursor), 5nat,
    {
        let action = self.parse_path(cursor)?;
        let arguments = self.parse_argument_list(cursor)?;
        self.expect_keyword(cursor, Keyword::For, "`for`")?;
        let intent = self.parse_expression(cursor, 0)?;
        let end = intent.span.end;
        Ok(Expression {
            kind: ExpressionKind::Propose { action, arguments, intent: Box::new(intent) },
            span: self.span(start, end),
        })
    }

    fn parse_authorize_expression(&self, cursor: &mut usize, start: usize) -> (result: ParseResult<
        Expression,
    >)
        requires
            self.wf(),
            *old(cursor) < self.tokens@.len(),
        ensures
            *old(cursor) <= *final(cursor) < self.tokens@.len(),
            result is Ok ==> *final(cursor) > *old(cursor),
            result matches Err(d) ==> syntax_diagnostic(d),
        decreases self.tokens@.len() - *old(cursor), 5nat,
    {
        let proposal = self.parse_expression(cursor, 0)?;
        self.expect_keyword(cursor, Keyword::Using, "`using`")?;
        let policy = self.parse_path(cursor)?;
        let end = policy.span.end;
        Ok(Expression {
            kind: ExpressionKind::Authorize { proposal: Box::new(proposal), policy },
            span: self.span(start, end),
        })
    }

    fn parse_commit_expression(&self, cursor: &mut usize, start: usize) -> (result: ParseResult<
        Expression,
    >)
        requires
            self.wf(),
            *old(cursor) < self.tokens@.len(),
        ensures
            *old(cursor) <= *final(cursor) < self.tokens@.len(),
            result is Ok ==> *final(cursor) > *old(cursor),
            result matches Err(d) ==> syntax_diagnostic(d),
        decreases self.tokens@.len() - *old(cursor), 5nat,
    {
        let proposal = self.parse_expression(cursor, 0)?;
        if self.take_keyword(cursor, Keyword::With).is_none() {
            let diagnostic = Diagnostic::error(
                KnownDiagnosticCode::CommitWithoutPermit.code(),
                "commit requires `with <permit>`",
                self.span(start, proposal.span.end),
            ).with_help("authorize the proposal and commit it with the returned permit");
            return Err(diagnostic);
        }
        let permit = self.parse_expression(cursor, 0)?;
        let end = permit.span.end;
        Ok(Expression {
            kind: ExpressionKind::Commit { proposal: Box::new(proposal), permit: Box::new(permit) },
            span: self.span(start, end),
        })
    }

    fn parse_reconcile_expression(&self, cursor: &mut usize, start: usize) -> (result: ParseResult<
        Expression,
    >)
        requires
            self.wf(),
            *old(cursor) < self.tokens@.len(),
        ensures
            *old(cursor) <= *final(cursor) < self.tokens@.len(),
            result is Ok ==> *final(cursor) > *old(cursor),
            result matches Err(d) ==> syntax_diagnostic(d),
        decreases self.tokens@.len() - *old(cursor), 5nat,
    {
        let receipt = self.parse_expression(cursor, 0)?;
        self.expect_keyword(cursor, Keyword::Against, "`against`")?;
        let observation = self.parse_expression(cursor, 0)?;
        self.expect_keyword(cursor, Keyword::With, "`with`")?;
        let validator = self.parse_path(cursor)?;
        let end = validator.span.end;
        Ok(Expression {
            kind: ExpressionKind::Reconcile {
                receipt: Box::new(receipt),
                observation: Box::new(observation),
                validator,
            },
            span: self.span(start, end),
        })
    }
}


impl<'a> Parser<'a> {
    fn duplicate_metadata(&self, cursor: usize, key: &str) -> (d: Diagnostic)
        requires
            self.wf(),
            cursor < self.tokens@.len(),
        ensures
            d.code@ == known_code_text(KnownDiagnosticCode::ParseError),
            d.message@ == "duplicate tool metadata "@ + key@,
            d.primary_span == self.tokens@[if cursor == 0 { 0int } else { cursor - 1 }].span,
            syntax_diagnostic(d),
    {
        let mut message = String::new();
        push_str(&mut message, "duplicate tool metadata ");
        push_str(&mut message, key);
        proof {
            reveal_strlit("duplicate tool metadata ");
        }
        Diagnostic::error(
            KnownDiagnosticCode::ParseError.code(),
            message.as_str(),
            self.previous(cursor).span.duplicate(),
        ).with_help("declare each tool metadata entry once")
    }

    fn parse_declaration(&self, cursor: &mut usize) -> (result: ParseResult<Declaration>)
        requires
            self.wf(),
            *old(cursor) < self.tokens@.len(),
        ensures
            *old(cursor) <= *final(cursor) < self.tokens@.len(),
            result is Ok ==> *final(cursor) > *old(cursor),
            result matches Err(d) ==> syntax_diagnostic(d),
            result matches Ok(declaration) ==> self.at(*old(cursor) as int) == TokenKind::Keyword(
                declaration_keyword(declaration.kind),
            ),
            !is_declaration_keyword(self.at(*old(cursor) as int)) ==> (result matches Err(d)
                && expected_report(
                d,
                "a declaration keyword"@,
                self.tokens@[*old(cursor) as int].span,
                self.path@,
            )) && *final(cursor) == *old(cursor),
    {
        let start = self.current(*cursor).span.start;
        let kind = match &self.current(*cursor).kind {
            TokenKind::Keyword(Keyword::Type) => DeclarationKind::Type(
                self.parse_type_declaration(cursor)?,
            ),
            TokenKind::Keyword(Keyword::Enum) => DeclarationKind::Enum(
                self.parse_enum_declaration(cursor)?,
            ),
            TokenKind::Keyword(Keyword::Capability) => DeclarationKind::Capability(
                self.parse_capability_declaration(cursor)?,
            ),
            TokenKind::Keyword(Keyword::Fn) => DeclarationKind::Function(
                self.parse_function_declaration(cursor, false)?,
            ),
            TokenKind::Keyword(Keyword::Flow) => DeclarationKind::Flow(
                self.parse_function_declaration(cursor, true)?,
            ),
            TokenKind::Keyword(Keyword::Prompt) => DeclarationKind::Prompt(
                self.parse_prompt_declaration(cursor)?,
            ),
            TokenKind::Keyword(Keyword::Validator) => DeclarationKind::Validator(
                self.parse_validator_declaration(cursor)?,
            ),
            TokenKind::Keyword(Keyword::Tool) => DeclarationKind::Tool(
                self.parse_tool_declaration(cursor)?,
            ),
            TokenKind::Keyword(Keyword::Policy) => DeclarationKind::Policy(
                self.parse_policy_declaration(cursor)?,
            ),
            TokenKind::Keyword(Keyword::Agent) => DeclarationKind::Agent(
                self.parse_agent_declaration(cursor)?,
            ),
            _ => {
                return Err(self.expected(*cursor, "a declaration keyword"));
            },
        };
        let end = self.previous(*cursor).span.end;
        Ok(Declaration { span: self.span(start, end), kind })
    }

    fn parse_type_declaration(&self, cursor: &mut usize) -> (result: ParseResult<TypeDeclaration>)
        requires
            self.wf(),
            *old(cursor) < self.tokens@.len(),
        ensures
            *old(cursor) <= *final(cursor) < self.tokens@.len(),
            result is Ok ==> *final(cursor) > *old(cursor),
            result matches Err(d) ==> syntax_diagnostic(d),
    {
        self.expect_keyword(cursor, Keyword::Type, "`type`")?;
        let (name, _) = self.expect_identifier(cursor)?;
        self.expect_symbol(cursor, Symbol::Equal, "`=`")?;
        let definition = if self.take_symbol(cursor, Symbol::LeftBrace).is_some() {
            if self.check_symbol(*cursor, Symbol::RightBrace) {
                return Err(self.expected(*cursor, "at least one record field"));
            }
            let mut fields: Vec<TypeField> = Vec::new();
            while !self.check_symbol(*cursor, Symbol::RightBrace)
                invariant
                    self.wf(),
                    *old(cursor) < *cursor < self.tokens@.len(),
                decreases self.tokens@.len() - *cursor,
            {
                let start = self.current(*cursor).span.start;
                let (field_name, _) = self.expect_identifier(cursor)?;
                self.expect_symbol(cursor, Symbol::Colon, "`:`")?;
                let ty = self.parse_type_reference(cursor)?;
                let end = ty.span.end;
                fields.push(TypeField { name: field_name, ty, span: self.span(start, end) });
                if self.take_symbol(cursor, Symbol::Comma).is_none() {
                    break;
                }
            }
            self.expect_symbol(cursor, Symbol::RightBrace, "`}`")?;
            TypeDefinition::Record(fields)
        } else {
            TypeDefinition::Alias(self.parse_type_reference(cursor)?)
        };
        self.expect_symbol(cursor, Symbol::Semicolon, "`;`")?;
        Ok(TypeDeclaration { name, definition })
    }

    fn parse_enum_declaration(&self, cursor: &mut usize) -> (result: ParseResult<EnumDeclaration>)
        requires
            self.wf(),
            *old(cursor) < self.tokens@.len(),
        ensures
            *old(cursor) <= *final(cursor) < self.tokens@.len(),
            result is Ok ==> *final(cursor) > *old(cursor),
            result matches Err(d) ==> syntax_diagnostic(d),
    {
        self.expect_keyword(cursor, Keyword::Enum, "`enum`")?;
        let (name, _) = self.expect_identifier(cursor)?;
        self.expect_symbol(cursor, Symbol::LeftBrace, "`{`")?;
        if self.check_symbol(*cursor, Symbol::RightBrace) {
            return Err(self.expected(*cursor, "at least one enum variant"));
        }
        let mut variants: Vec<EnumVariant> = Vec::new();
        while !self.check_symbol(*cursor, Symbol::RightBrace)
            invariant
                self.wf(),
                *old(cursor) < *cursor < self.tokens@.len(),
            decreases self.tokens@.len() - *cursor,
        {
            let start = self.current(*cursor).span.start;
            let (variant_name, name_span) = self.expect_identifier(cursor)?;
            let payload = if self.take_symbol(cursor, Symbol::LeftParen).is_some() {
                let payload = self.parse_type_reference(cursor)?;
                self.expect_symbol(cursor, Symbol::RightParen, "`)`")?;
                Some(payload)
            } else {
                None
            };
            let end = match &payload {
                Some(ty) => ty.span.end,
                None => name_span.end,
            };
            variants.push(EnumVariant { name: variant_name, payload, span: self.span(start, end) });
            if self.take_symbol(cursor, Symbol::Comma).is_none() {
                break;
            }
        }
        self.expect_symbol(cursor, Symbol::RightBrace, "`}`")?;
        Ok(EnumDeclaration { name, variants })
    }

    fn parse_capability_declaration(&self, cursor: &mut usize) -> (result: ParseResult<
        SignatureDeclaration,
    >)
        requires
            self.wf(),
            *old(cursor) < self.tokens@.len(),
        ensures
            *old(cursor) <= *final(cursor) < self.tokens@.len(),
            result is Ok ==> *final(cursor) > *old(cursor),
            result matches Err(d) ==> syntax_diagnostic(d),
    {
        self.expect_keyword(cursor, Keyword::Capability, "`capability`")?;
        let (name, _) = self.expect_identifier(cursor)?;
        let parameters = self.parse_parameters(cursor)?;
        self.expect_symbol(cursor, Symbol::Semicolon, "`;`")?;
        Ok(SignatureDeclaration { name, parameters })
    }

    fn parse_function_declaration(&self, cursor: &mut usize, flow: bool) -> (result: ParseResult<
        FunctionDeclaration,
    >)
        requires
            self.wf(),
            *old(cursor) < self.tokens@.len(),
        ensures
            *old(cursor) <= *final(cursor) < self.tokens@.len(),
            result is Ok ==> *final(cursor) > *old(cursor),
            result matches Err(d) ==> syntax_diagnostic(d),
    {
        if flow {
            self.expect_keyword(cursor, Keyword::Flow, "`flow`")?;
        } else {
            self.expect_keyword(cursor, Keyword::Fn, "`fn`")?;
        }
        let (name, _) = self.expect_identifier(cursor)?;
        let parameters = self.parse_parameters(cursor)?;
        self.expect_symbol(cursor, Symbol::Arrow, "`->`")?;
        let return_type = self.parse_type_reference(cursor)?;
        let uses = if flow {
            self.expect_keyword(cursor, Keyword::Uses, "`uses`")?;
            self.parse_capability_list(cursor)?
        } else {
            Vec::new()
        };
        let body = self.parse_block(cursor)?;
        Ok(FunctionDeclaration { name, parameters, return_type, uses, body })
    }

    fn parse_prompt_declaration(&self, cursor: &mut usize) -> (result: ParseResult<
        PromptDeclaration,
    >)
        requires
            self.wf(),
            *old(cursor) < self.tokens@.len(),
        ensures
            *old(cursor) <= *final(cursor) < self.tokens@.len(),
            result is Ok ==> *final(cursor) > *old(cursor),
            result matches Err(d) ==> syntax_diagnostic(d),
    {
        self.expect_keyword(cursor, Keyword::Prompt, "`prompt`")?;
        let (name, _) = self.expect_identifier(cursor)?;
        let parameters = self.parse_parameters(cursor)?;
        self.expect_symbol(cursor, Symbol::Arrow, "`->`")?;
        let result_type = self.parse_type_reference(cursor)?;
        self.expect_symbol(cursor, Symbol::LeftBrace, "`{`")?;
        self.expect_keyword(cursor, Keyword::Instruction, "`instruction`")?;
        let instruction_token = self.advance(cursor);
        let instruction = match instruction_token.kind {
            TokenKind::BlockString(text) => text,
            _ => {
                return Err(
                    Diagnostic::error(
                        KnownDiagnosticCode::DynamicPromptInstruction.code(),
                        "prompt instruction must be a static block string",
                        instruction_token.span,
                    ).with_help("move runtime values to the prompt data block"),
                );
            },
        };
        self.expect_symbol(cursor, Symbol::Semicolon, "`;`")?;
        self.expect_keyword(cursor, Keyword::Data, "`data`")?;
        self.expect_symbol(cursor, Symbol::LeftBrace, "`{`")?;
        let mut data: Vec<String> = Vec::new();
        while !self.check_symbol(*cursor, Symbol::RightBrace)
            invariant
                self.wf(),
                *old(cursor) < *cursor < self.tokens@.len(),
            decreases self.tokens@.len() - *cursor,
        {
            data.push(self.expect_identifier(cursor)?.0);
            if self.take_symbol(cursor, Symbol::Comma).is_none() {
                break;
            }
        }
        self.expect_symbol(cursor, Symbol::RightBrace, "`}`")?;
        self.expect_symbol(cursor, Symbol::Semicolon, "`;`")?;
        self.expect_symbol(cursor, Symbol::RightBrace, "`}`")?;
        Ok(PromptDeclaration { name, parameters, result_type, instruction, data })
    }

    fn parse_validator_declaration(&self, cursor: &mut usize) -> (result: ParseResult<
        ValidatorDeclaration,
    >)
        requires
            self.wf(),
            *old(cursor) < self.tokens@.len(),
        ensures
            *old(cursor) <= *final(cursor) < self.tokens@.len(),
            result is Ok ==> *final(cursor) > *old(cursor),
            result matches Err(d) ==> syntax_diagnostic(d),
    {
        self.expect_keyword(cursor, Keyword::Validator, "`validator`")?;
        let (name, _) = self.expect_identifier(cursor)?;
        let parameters = self.parse_parameters(cursor)?;
        self.expect_symbol(cursor, Symbol::LeftBrace, "`{`")?;
        let mut requirements: Vec<Expression> = Vec::new();
        while !self.check_symbol(*cursor, Symbol::RightBrace)
            invariant
                self.wf(),
                *old(cursor) < *cursor < self.tokens@.len(),
            decreases self.tokens@.len() - *cursor,
        {
            self.expect_keyword(cursor, Keyword::Require, "`require`")?;
            requirements.push(self.parse_expression(cursor, 0)?);
            self.expect_symbol(cursor, Symbol::Semicolon, "`;`")?;
        }
        self.expect_symbol(cursor, Symbol::RightBrace, "`}`")?;
        Ok(ValidatorDeclaration { name, parameters, requirements })
    }
}



impl<'a> Parser<'a> {
    fn parse_tool_declaration(&self, cursor: &mut usize) -> (result: ParseResult<ToolDeclaration>)
        requires
            self.wf(),
            *old(cursor) < self.tokens@.len(),
        ensures
            *old(cursor) <= *final(cursor) < self.tokens@.len(),
            result is Ok ==> *final(cursor) > *old(cursor),
            result matches Err(d) ==> syntax_diagnostic(d),
    {
        self.expect_keyword(cursor, Keyword::Tool, "`tool`")?;
        let path = self.parse_path(cursor)?;
        let parameters = self.parse_parameters(cursor)?;
        self.expect_symbol(cursor, Symbol::Arrow, "`->`")?;
        let return_type = self.parse_type_reference(cursor)?;
        self.expect_symbol(cursor, Symbol::LeftBrace, "`{`")?;
        let mut metadata = ToolMetadata {
            mode: None,
            capability: None,
            sensitivity: None,
            risk: None,
            idempotency: None,
        };
        while !self.check_symbol(*cursor, Symbol::RightBrace)
            invariant
                self.wf(),
                *old(cursor) < *cursor < self.tokens@.len(),
            decreases self.tokens@.len() - *cursor,
        {
            if self.check_keyword(*cursor, Keyword::Mode) {
                self.advance(cursor);
                if metadata.mode.is_some() {
                    return Err(self.duplicate_metadata(*cursor, "`mode`"));
                }
                let value = self.advance(cursor);
                metadata.mode = Some(
                    match value.kind {
                        TokenKind::Keyword(Keyword::Read) => ToolMode::Read,
                        TokenKind::Keyword(Keyword::Write) => ToolMode::Write,
                        _ => {
                            return Err(self.expected_at_previous(*cursor, "`read` or `write`"));
                        },
                    },
                );
            } else if self.check_keyword(*cursor, Keyword::Capability) {
                self.advance(cursor);
                if metadata.capability.is_some() {
                    return Err(self.duplicate_metadata(*cursor, "`capability`"));
                }
                metadata.capability = Some(self.parse_capability_expression(cursor)?);
            } else if self.check_keyword(*cursor, Keyword::Sensitivity) {
                self.advance(cursor);
                if metadata.sensitivity.is_some() {
                    return Err(self.duplicate_metadata(*cursor, "`sensitivity`"));
                }
                let value = self.advance(cursor);
                metadata.sensitivity = Some(
                    match value.kind {
                        TokenKind::Keyword(Keyword::Public) => Sensitivity::Public,
                        TokenKind::Keyword(Keyword::Internal) => Sensitivity::Internal,
                        TokenKind::Keyword(Keyword::Private) => Sensitivity::Private,
                        TokenKind::Keyword(Keyword::Secret) => Sensitivity::Secret,
                        _ => {
                            return Err(self.expected_at_previous(*cursor, "a sensitivity level"));
                        },
                    },
                );
            } else if self.check_keyword(*cursor, Keyword::Risk) {
                self.advance(cursor);
                if metadata.risk.is_some() {
                    return Err(self.duplicate_metadata(*cursor, "`risk`"));
                }
                let value = self.advance(cursor);
                metadata.risk = Some(
                    match value.kind {
                        TokenKind::Keyword(Keyword::Reversible) => Risk::Reversible,
                        TokenKind::Keyword(Keyword::Irreversible) => Risk::Irreversible,
                        _ => {
                            return Err(self.expected_at_previous(*cursor, "a risk level"));
                        },
                    },
                );
            } else if self.check_keyword(*cursor, Keyword::Idempotency) {
                self.advance(cursor);
                if metadata.idempotency.is_some() {
                    return Err(self.duplicate_metadata(*cursor, "`idempotency`"));
                }
                metadata.idempotency = Some(self.expect_identifier(cursor)?.0);
            } else {
                return Err(self.expected(*cursor, "tool metadata"));
            }
            self.expect_symbol(cursor, Symbol::Semicolon, "`;`")?;
        }
        self.expect_symbol(cursor, Symbol::RightBrace, "`}`")?;
        Ok(ToolDeclaration { path, parameters, return_type, metadata })
    }

    fn parse_policy_declaration(&self, cursor: &mut usize) -> (result: ParseResult<
        PolicyDeclaration,
    >)
        requires
            self.wf(),
            *old(cursor) < self.tokens@.len(),
        ensures
            *old(cursor) <= *final(cursor) < self.tokens@.len(),
            result is Ok ==> *final(cursor) > *old(cursor),
            result matches Err(d) ==> syntax_diagnostic(d),
    {
        self.expect_keyword(cursor, Keyword::Policy, "`policy`")?;
        let (name, _) = self.expect_identifier(cursor)?;
        let parameters = self.parse_parameters(cursor)?;
        self.expect_symbol(cursor, Symbol::LeftBrace, "`{`")?;
        let mut rules: Vec<PolicyRule> = Vec::new();
        while !self.check_symbol(*cursor, Symbol::RightBrace)
            invariant
                self.wf(),
                *old(cursor) < *cursor < self.tokens@.len(),
            decreases self.tokens@.len() - *cursor,
        {
            let start = self.current(*cursor).span.start;
            let first = self.advance(cursor);
            let decision = match first.kind {
                TokenKind::Keyword(Keyword::Allow) => PolicyDecision::Allow,
                TokenKind::Keyword(Keyword::Approve) => {
                    self.expect_keyword(cursor, Keyword::By, "`by`")?;
                    PolicyDecision::Approve(self.parse_expression(cursor, 0)?)
                },
                TokenKind::Keyword(Keyword::Deny) => PolicyDecision::Deny(
                    self.parse_expression(cursor, 0)?,
                ),
                _ => {
                    return Err(
                        self.expected_at_previous(*cursor, "`allow`, `approve`, or `deny`"),
                    );
                },
            };
            let condition = if self.take_keyword(cursor, Keyword::When).is_some() {
                Some(self.parse_expression(cursor, 0)?)
            } else {
                self.expect_keyword(cursor, Keyword::Otherwise, "`otherwise`")?;
                None
            };
            let end = self.expect_symbol(cursor, Symbol::Semicolon, "`;`")?.span.end;
            rules.push(PolicyRule { decision, condition, span: self.span(start, end) });
        }
        self.expect_symbol(cursor, Symbol::RightBrace, "`}`")?;
        Ok(PolicyDeclaration { name, parameters, rules })
    }

    fn parse_agent_declaration(&self, cursor: &mut usize) -> (result: ParseResult<
        AgentDeclaration,
    >)
        requires
            self.wf(),
            *old(cursor) < self.tokens@.len(),
        ensures
            *old(cursor) <= *final(cursor) < self.tokens@.len(),
            result is Ok ==> *final(cursor) > *old(cursor),
            result matches Err(d) ==> syntax_diagnostic(d),
    {
        self.expect_keyword(cursor, Keyword::Agent, "`agent`")?;
        let (name, _) = self.expect_identifier(cursor)?;
        let parameters = self.parse_parameters(cursor)?;
        self.expect_keyword(cursor, Keyword::Requires, "`requires`")?;
        let required = self.parse_capability_list(cursor)?;
        self.expect_symbol(cursor, Symbol::LeftBrace, "`{`")?;
        let mut state: Vec<StateField> = Vec::new();
        let mut budget: Vec<BudgetEntry> = Vec::new();
        let mut handlers: Vec<HandlerDeclaration> = Vec::new();
        while !self.check_symbol(*cursor, Symbol::RightBrace)
            invariant
                self.wf(),
                *old(cursor) < *cursor < self.tokens@.len(),
            decreases self.tokens@.len() - *cursor,
        {
            if self.check_keyword(*cursor, Keyword::State) {
                state = self.parse_state_block(cursor)?;
            } else if self.check_keyword(*cursor, Keyword::Budget) {
                budget = self.parse_budget_block(cursor)?;
            } else if self.check_keyword(*cursor, Keyword::On) {
                handlers.push(self.parse_handler(cursor)?);
            } else {
                return Err(self.expected(*cursor, "`state`, `budget`, `on`, or `}`"));
            }
        }
        self.expect_symbol(cursor, Symbol::RightBrace, "`}`")?;
        Ok(AgentDeclaration { name, parameters, requires: required, state, budget, handlers })
    }

    fn parse_state_block(&self, cursor: &mut usize) -> (result: ParseResult<Vec<StateField>>)
        requires
            self.wf(),
            *old(cursor) < self.tokens@.len(),
        ensures
            *old(cursor) <= *final(cursor) < self.tokens@.len(),
            result is Ok ==> *final(cursor) > *old(cursor),
            result matches Err(d) ==> syntax_diagnostic(d),
    {
        self.expect_keyword(cursor, Keyword::State, "`state`")?;
        self.expect_symbol(cursor, Symbol::LeftBrace, "`{`")?;
        let mut fields: Vec<StateField> = Vec::new();
        while !self.check_symbol(*cursor, Symbol::RightBrace)
            invariant
                self.wf(),
                *old(cursor) < *cursor < self.tokens@.len(),
            decreases self.tokens@.len() - *cursor,
        {
            let start = self.current(*cursor).span.start;
            let (name, _) = self.expect_identifier(cursor)?;
            self.expect_symbol(cursor, Symbol::Colon, "`:`")?;
            let ty = self.parse_type_reference(cursor)?;
            self.expect_symbol(cursor, Symbol::Equal, "`=`")?;
            let default = self.parse_expression(cursor, 0)?;
            let end = self.expect_symbol(cursor, Symbol::Semicolon, "`;`")?.span.end;
            fields.push(StateField { name, ty, default, span: self.span(start, end) });
        }
        self.expect_symbol(cursor, Symbol::RightBrace, "`}`")?;
        Ok(fields)
    }

    fn parse_budget_block(&self, cursor: &mut usize) -> (result: ParseResult<Vec<BudgetEntry>>)
        requires
            self.wf(),
            *old(cursor) < self.tokens@.len(),
        ensures
            *old(cursor) <= *final(cursor) < self.tokens@.len(),
            result is Ok ==> *final(cursor) > *old(cursor),
            result matches Err(d) ==> syntax_diagnostic(d),
    {
        self.expect_keyword(cursor, Keyword::Budget, "`budget`")?;
        let (scope, _) = self.expect_identifier_or_per_event(cursor)?;
        if !string_equals(&scope, "per_event") {
            return Err(self.expected_at_previous(*cursor, "`per_event`"));
        }
        self.expect_symbol(cursor, Symbol::LeftBrace, "`{`")?;
        let mut entries: Vec<BudgetEntry> = Vec::new();
        while !self.check_symbol(*cursor, Symbol::RightBrace)
            invariant
                self.wf(),
                *old(cursor) < *cursor < self.tokens@.len(),
            decreases self.tokens@.len() - *cursor,
        {
            let start = self.current(*cursor).span.start;
            let (dimension, _) = self.expect_identifier(cursor)?;
            self.expect_symbol(cursor, Symbol::LessEqual, "`<=`")?;
            let token = self.advance(cursor);
            let limit = match token.kind {
                TokenKind::Integer(limit) => limit,
                _ => {
                    return Err(self.expected_at_token("an integer budget limit", &token));
                },
            };
            let end = self.expect_symbol(cursor, Symbol::Semicolon, "`;`")?.span.end;
            entries.push(BudgetEntry { dimension, limit, span: self.span(start, end) });
        }
        self.expect_symbol(cursor, Symbol::RightBrace, "`}`")?;
        Ok(entries)
    }

    fn parse_handler(&self, cursor: &mut usize) -> (result: ParseResult<HandlerDeclaration>)
        requires
            self.wf(),
            *old(cursor) < self.tokens@.len(),
        ensures
            *old(cursor) <= *final(cursor) < self.tokens@.len(),
            result is Ok ==> *final(cursor) > *old(cursor),
            result matches Err(d) ==> syntax_diagnostic(d),
    {
        let start = self.expect_keyword(cursor, Keyword::On, "`on`")?.span.start;
        let (event, _) = self.expect_identifier(cursor)?;
        let parameters = self.parse_parameters(cursor)?;
        self.expect_symbol(cursor, Symbol::Arrow, "`->`")?;
        let return_type = self.parse_type_reference(cursor)?;
        let body = self.parse_block(cursor)?;
        let end = body.span.end;
        Ok(HandlerDeclaration { event, parameters, return_type, body, span: self.span(start, end) })
    }
}


impl<'a> Parser<'a> {
    fn synchronize_declaration(&self, cursor: &mut usize, declaration_start: usize)
        requires
            self.wf(),
            declaration_start <= *old(cursor) < self.tokens@.len(),
            declaration_start < self.tokens@.len() - 1,
        ensures
            *old(cursor) <= *final(cursor) < self.tokens@.len(),
            *final(cursor) > declaration_start,
            is_declaration_keyword(self.at(*final(cursor) as int)) || *final(cursor)
                == self.tokens@.len() - 1,
            forall|i: int|
                *old(cursor) < i < *final(cursor) ==> !is_declaration_keyword(
                    #[trigger] self.at(i),
                ),
    {
        if *cursor > declaration_start && self.is_declaration_start(*cursor) {
            return;
        }
        let ghost begin = *cursor;
        while !self.check_eof(*cursor)
            invariant
                self.wf(),
                begin == *old(cursor),
                declaration_start <= begin <= *cursor < self.tokens@.len(),
                declaration_start < self.tokens@.len() - 1,
                *cursor > declaration_start || *cursor == begin,
                forall|i: int| begin < i <= *cursor ==> !is_declaration_keyword(#[trigger] self.at(i)),
            decreases self.tokens@.len() - *cursor,
        {
            self.advance(cursor);
            if self.is_declaration_start(*cursor) {
                return;
            }
        }
    }

    /// Orders diagnostics by start offset, keeping the order of equal starts.
    fn sort_by_start(diagnostics: Vec<Diagnostic>) -> (sorted: Vec<Diagnostic>)
        ensures
            sorted@.to_multiset() == diagnostics@.to_multiset(),
            sorted_by_start(sorted@),
            sorted@.len() == diagnostics@.len(),
    {
        broadcast use vstd::seq_lib::group_to_multiset_ensures;
        let mut remaining = diagnostics;
        let mut sorted: Vec<Diagnostic> = Vec::new();
        while remaining.len() > 0
            invariant
                remaining@.to_multiset().add(sorted@.to_multiset()) == diagnostics@.to_multiset(),
                sorted_by_start(sorted@),
                forall|i: int, j: int|
                    0 <= i < sorted@.len() && 0 <= j < remaining@.len() ==> (#[trigger] sorted@[i]).primary_span.start
                        <= (#[trigger] remaining@[j]).primary_span.start,
                sorted@.len() + remaining@.len() == diagnostics@.len(),
            decreases remaining@.len(),
        {
            let mut best: usize = 0;
            let mut k: usize = 1;
            while k < remaining.len()
                invariant
                    0 < remaining@.len(),
                    best < k <= remaining@.len(),
                    forall|j: int|
                        0 <= j < k ==> remaining@[best as int].primary_span.start <= (
                        #[trigger] remaining@[j]).primary_span.start,
                decreases remaining@.len() - k,
            {
                if remaining[k].primary_span.start < remaining[best].primary_span.start {
                    best = k;
                }
                k = k + 1;
            }
            let ghost before_remaining = remaining@;
            let ghost before_sorted = sorted@;
            let chosen = remaining.remove(best);
            proof {
                assert(before_remaining.remove(best as int) == remaining@);
                assert(chosen == before_remaining[best as int]);
            }
            sorted.push(chosen);
            proof {
                assert(sorted@ == before_sorted.push(chosen));
                before_remaining.to_multiset_ensures();
                before_sorted.to_multiset_ensures();
                assert(before_remaining.remove(best as int).to_multiset()
                    == before_remaining.to_multiset().remove(before_remaining[best as int]));
                assert(before_remaining.to_multiset().count(chosen) > 0) by {
                    assert(before_remaining.contains(chosen));
                }
                assert(remaining@.to_multiset().add(sorted@.to_multiset()) =~= diagnostics@.to_multiset());
                assert forall|i: int, j: int|
                    0 <= i < sorted@.len() && 0 <= j < remaining@.len() implies (
                    #[trigger] sorted@[i]).primary_span.start <= (
                    #[trigger] remaining@[j]).primary_span.start by {
                    if i < sorted@.len() - 1 {
                        assert(before_sorted[i] == sorted@[i]);
                        if j < best {
                            assert(remaining@[j] == before_remaining[j]);
                        } else {
                            assert(remaining@[j] == before_remaining[j + 1]);
                        }
                    } else {
                        if j < best {
                            assert(remaining@[j] == before_remaining[j]);
                        } else {
                            assert(remaining@[j] == before_remaining[j + 1]);
                        }
                    }
                }
                assert forall|i: int, j: int| 0 <= i < j < sorted@.len() implies (
                    #[trigger] sorted@[i]).primary_span.start <= (
                    #[trigger] sorted@[j]).primary_span.start by {
                    if j < sorted@.len() - 1 {
                        assert(before_sorted[i] == sorted@[i]);
                        assert(before_sorted[j] == sorted@[j]);
                    } else {
                        assert(before_sorted[i] == sorted@[i]);
                        assert(before_remaining[best as int] == sorted@[j]);
                    }
                }
            }
        }
        sorted
    }

    fn parse_module(&self, comments: Vec<Comment>) -> (result: Result<Module, Vec<Diagnostic>>)
        requires
            self.wf(),
        ensures
            result matches Ok(module) ==> module.comments@ == comments@
                && module.name.segments@.len() >= 1,
            result matches Err(diagnostics) ==> diagnostics@.len() > 0 && sorted_by_start(
                diagnostics@,
            ) && forall|i: int|
                0 <= i < diagnostics@.len() ==> syntax_diagnostic(#[trigger] diagnostics@[i]),
    {
        let mut cursor: usize = 0;
        let start = match self.expect_keyword(&mut cursor, Keyword::Module, "`module`") {
            Ok(token) => token.span.start,
            Err(d) => {
                return Err(vec![d]);
            },
        };
        let name = match self.parse_path(&mut cursor) {
            Ok(path) => path,
            Err(d) => {
                return Err(vec![d]);
            },
        };
        match self.expect_symbol(&mut cursor, Symbol::Semicolon, "`;`") {
            Ok(_) => {},
            Err(d) => {
                return Err(vec![d]);
            },
        }
        let mut declarations: Vec<Declaration> = Vec::new();
        let mut diagnostics: Vec<Diagnostic> = Vec::new();
        while !self.check_eof(cursor)
            invariant
                self.wf(),
                cursor < self.tokens@.len(),
                forall|i: int|
                    0 <= i < diagnostics@.len() ==> syntax_diagnostic(#[trigger] diagnostics@[i]),
            decreases self.tokens@.len() - cursor,
        {
            let declaration_start = cursor;
            match self.parse_declaration(&mut cursor) {
                Ok(declaration) => declarations.push(declaration),
                Err(diagnostic) => {
                    diagnostics.push(diagnostic);
                    self.synchronize_declaration(&mut cursor, declaration_start);
                },
            }
        }
        if diagnostics.len() > 0 {
            let sorted = Self::sort_by_start(diagnostics);
            proof {
                assert forall|i: int| 0 <= i < sorted@.len() implies syntax_diagnostic(
                    #[trigger] sorted@[i],
                ) by {
                    sorted@.to_multiset_ensures();
                    diagnostics@.to_multiset_ensures();
                    assert(sorted@.contains(sorted@[i]));
                    assert(diagnostics@.to_multiset().count(sorted@[i]) > 0);
                    assert(diagnostics@.contains(sorted@[i]));
                }
            }
            return Err(sorted);
        }
        let end = self.current(cursor).span.end;
        Ok(Module { name, declarations, comments, span: self.span(start, end) })
    }
}

/// Texts of retained comments, in order.
pub open spec fn comment_views(comments: Seq<Comment>) -> Seq<Seq<char>> {
    Seq::new(comments.len(), |i: int| comments[i].text@)
}

/// Parses one ASTER source file into a syntax tree.
///
/// Lexical errors are returned as the lexer ordered them; grammatical errors
/// are collected across declarations, recovering at each declaration keyword,
/// and returned ordered by start offset. Parsing performs no name lookup, so
/// declarations may appear in any order.
pub fn parse(source: &SourceFile) -> (result: Result<Module, Vec<Diagnostic>>)
    requires
        fits_in_memory(source.spec_text()),
    ensures
        result matches Ok(module) ==> exists|tokens: Seq<Token>|
            lossless_stream(tokens, source.spec_path(), source.spec_text()) && comment_views(
                module.comments@,
            ) == comment_texts(tokens),
        result matches Ok(module) ==> module.name.segments@.len() >= 1,
        result matches Err(diagnostics) ==> diagnostics@.len() > 0 && ((sorted_by_location(
            diagnostics@,
        ) && forall|i: int|
            0 <= i < diagnostics@.len() ==> lexical_diagnostic(
                #[trigger] diagnostics@[i],
                source.spec_path(),
                source.spec_text(),
            )) || (sorted_by_start(diagnostics@) && forall|i: int|
            0 <= i < diagnostics@.len() ==> syntax_diagnostic(#[trigger] diagnostics@[i]))),
{
    let lexed = lex(source)?;
    let ghost all = lexed.tokens@;
    let mut comments: Vec<Comment> = Vec::new();
    let mut tokens: Vec<Token> = Vec::new();
    let mut index: usize = 0;
    while index < lexed.tokens.len()
        invariant
            index <= lexed.tokens@.len(),
            all == lexed.tokens@,
            comment_views(comments@) == comment_texts(all.subrange(0, index as int)),
            tokens@ == significant(all.subrange(0, index as int)),
        decreases lexed.tokens@.len() - index,
    {
        let token = &lexed.tokens[index];
        proof {
            assert(all.subrange(0, index + 1).drop_last() == all.subrange(0, index as int));
            assert(all.subrange(0, index + 1).last() == all[index as int]);
        }
        match &token.kind {
            TokenKind::LineComment(text) => {
                comments.push(Comment { text: text.clone(), span: token.span.duplicate() });
                proof {
                    assert(comment_views(comments@) =~= comment_views(comments@.drop_last()).push(text@));
                }
            },
            TokenKind::BlockComment(text) => {
                comments.push(Comment { text: text.clone(), span: token.span.duplicate() });
                proof {
                    assert(comment_views(comments@) =~= comment_views(comments@.drop_last()).push(text@));
                }
            },
            _ => {},
        }
        if !token.kind.is_trivia() {
            tokens.push(token.duplicate());
        }
        index = index + 1;
    }
    proof {
        assert(all.subrange(0, all.len() as int) == all);
        lemma_significant_shape(all);
    }
    let parser = Parser { path: source.path(), text: source.text(), tokens };
    parser.parse_module(comments)
}

/// The grammatical tokens of a lossless stream end with its EOF token and
/// hold no earlier EOF.
proof fn lemma_significant_shape(tokens: Seq<Token>)
    requires
        tokens.len() >= 1,
        tokens.last().kind is Eof,
        forall|i: int| 0 <= i < tokens.len() - 1 ==> !(#[trigger] tokens[i].kind is Eof),
    ensures
        significant(tokens).len() >= 1,
        significant(tokens).last().kind is Eof,
        forall|i: int|
            0 <= i < significant(tokens).len() - 1 ==> !(#[trigger] significant(tokens)[i].kind is Eof),
{
    lemma_significant_no_eof(tokens.drop_last());
}

proof fn lemma_significant_no_eof(tokens: Seq<Token>)
    requires
        forall|i: int| 0 <= i < tokens.len() ==> !(#[trigger] tokens[i].kind is Eof),
    ensures
        forall|i: int|
            0 <= i < significant(tokens).len() ==> !(#[trigger] significant(tokens)[i].kind is Eof),
    decreases tokens.len(),
{
    if tokens.len() > 0 {
        lemma_significant_no_eof(tokens.drop_last());
    }
}

/// Declaration keyword of each declaration form.
pub open spec fn declaration_keyword(kind: DeclarationKind) -> Keyword {
    match kind {
        DeclarationKind::Type(_) => Keyword::Type,
        DeclarationKind::Enum(_) => Keyword::Enum,
        DeclarationKind::Capability(_) => Keyword::Capability,
        DeclarationKind::Function(_) => Keyword::Fn,
        DeclarationKind::Flow(_) => Keyword::Flow,
        DeclarationKind::Prompt(_) => Keyword::Prompt,
        DeclarationKind::Validator(_) => Keyword::Validator,
        DeclarationKind::Tool(_) => Keyword::Tool,
        DeclarationKind::Policy(_) => Keyword::Policy,
        DeclarationKind::Agent(_) => Keyword::Agent,
    }
}

/// Keywords that begin a top-level declaration.
pub open spec fn is_declaration_keyword(kind: TokenKind) -> bool {
    match kind {
        TokenKind::Keyword(k) => k == Keyword::Type || k == Keyword::Enum || k
            == Keyword::Capability || k == Keyword::Fn || k == Keyword::Flow || k == Keyword::Prompt
            || k == Keyword::Validator || k == Keyword::Tool || k == Keyword::Policy || k
            == Keyword::Agent,
        _ => false,
    }
}

/// Binding powers and operator of an infix operator token.
pub open spec fn binary_operator_of(kind: TokenKind) -> Option<(u8, u8, BinaryOperator)> {
    match kind {
        TokenKind::Symbol(Symbol::OrOr) => Some((1u8, 2u8, BinaryOperator::Or)),
        TokenKind::Symbol(Symbol::AndAnd) => Some((3u8, 4u8, BinaryOperator::And)),
        TokenKind::Symbol(Symbol::EqualEqual) => Some((5u8, 6u8, BinaryOperator::Equal)),
        TokenKind::Symbol(Symbol::BangEqual) => Some((5u8, 6u8, BinaryOperator::NotEqual)),
        TokenKind::Symbol(Symbol::Less) => Some((7u8, 8u8, BinaryOperator::Less)),
        TokenKind::Symbol(Symbol::LessEqual) => Some((7u8, 8u8, BinaryOperator::LessEqual)),
        TokenKind::Symbol(Symbol::Greater) => Some((7u8, 8u8, BinaryOperator::Greater)),
        TokenKind::Symbol(Symbol::GreaterEqual) => Some((7u8, 8u8, BinaryOperator::GreaterEqual)),
        TokenKind::Symbol(Symbol::Plus) => Some((9u8, 10u8, BinaryOperator::Add)),
        TokenKind::Symbol(Symbol::Minus) => Some((9u8, 10u8, BinaryOperator::Subtract)),
        TokenKind::Symbol(Symbol::Star) => Some((11u8, 12u8, BinaryOperator::Multiply)),
        TokenKind::Symbol(Symbol::Slash) => Some((11u8, 12u8, BinaryOperator::Divide)),
        _ => None,
    }
}

/// The precedence level of a binary operator, loosest first: disjunction,
/// conjunction, equality, comparison, additive, multiplicative.
pub open spec fn precedence_level(operator: BinaryOperator) -> int {
    match operator {
        BinaryOperator::Or => 0,
        BinaryOperator::And => 1,
        BinaryOperator::Equal | BinaryOperator::NotEqual => 2,
        BinaryOperator::Less | BinaryOperator::LessEqual | BinaryOperator::Greater
        | BinaryOperator::GreaterEqual => 3,
        BinaryOperator::Add | BinaryOperator::Subtract => 4,
        BinaryOperator::Multiply | BinaryOperator::Divide => 5,
    }
}

/// Infix operators associate to the left and bind by precedence: every
/// operator's left binding power is below its right one, so `a - b - c`
/// groups as `(a - b) - c`; operators of one level share their binding
/// powers; and an operator of a tighter level binds more strongly on its
/// left than any looser operator does on its right, so `a + b * c` groups
/// as `a + (b * c)`.
pub proof fn law_infix_binding(first: TokenKind, second: TokenKind)
    ensures
        binary_operator_of(first) matches Some((l, r, _)) ==> l < r,
        binary_operator_of(first) matches Some((l1, r1, o1)) ==> (binary_operator_of(second) matches Some(
            (l2, r2, o2),
        ) ==> {
            &&& precedence_level(o1) == precedence_level(o2) ==> l1 == l2 && r1 == r2
            &&& precedence_level(o1) < precedence_level(o2) ==> r1 < l2
        }),
{
}

/// Each operator token parses to the operator it spells: `-` to
/// subtraction, `+` to addition, `<` to less-than, and so on.
pub proof fn law_infix_operator_tokens()
    ensures
        binary_operator_of(TokenKind::Symbol(Symbol::OrOr)) matches Some((_, _, BinaryOperator::Or)),
        binary_operator_of(TokenKind::Symbol(Symbol::AndAnd)) matches Some((_, _, BinaryOperator::And)),
        binary_operator_of(TokenKind::Symbol(Symbol::EqualEqual)) matches Some((_, _, BinaryOperator::Equal)),
        binary_operator_of(TokenKind::Symbol(Symbol::BangEqual)) matches Some((_, _, BinaryOperator::NotEqual)),
        binary_operator_of(TokenKind::Symbol(Symbol::Less)) matches Some((_, _, BinaryOperator::Less)),
        binary_operator_of(TokenKind::Symbol(Symbol::LessEqual)) matches Some((_, _, BinaryOperator::LessEqual)),
        binary_operator_of(TokenKind::Symbol(Symbol::Greater)) matches Some((_, _, BinaryOperator::Greater)),
        binary_operator_of(TokenKind::Symbol(Symbol::GreaterEqual)) matches Some(
            (_, _, BinaryOperator::GreaterEqual),
        ),
        binary_operator_of(TokenKind::Symbol(Symbol::Plus)) matches Some((_, _, BinaryOperator::Add)),
        binary_operator_of(TokenKind::Symbol(Symbol::Minus)) matches Some((_, _, BinaryOperator::Subtract)),
        binary_operator_of(TokenKind::Symbol(Symbol::Star)) matches Some((_, _, BinaryOperator::Multiply)),
        binary_operator_of(TokenKind::Symbol(Symbol::Slash)) matches Some((_, _, BinaryOperator::Divide)),
{
}

} // verus!
