use vstd::prelude::*;
use vstd::utf8::*;

use crate::diagnostic::{Diagnostic, Severity};
use crate::json::{decode_json_string, json_string_value};
use crate::registry::{KnownDiagnosticCode, known_code_text};
use crate::source::SourceFile;
use crate::span::{Span, fits_in_memory, span_check, span_matches, utf8_of};
use crate::text::{lemma_after_ascii_is_boundary, substring};
use crate::token::{Keyword, Symbol, Token, TokenKind, keyword_spelling};

verus! {

broadcast use vstd::utf8::group_utf8_lib;

/// Complete token stream, including comments, whitespace, and EOF.
#[derive(Clone, Debug, PartialEq, Eq)]
pub struct Lexed {
    /// Tokens in byte order.
    pub tokens: Vec<Token>,
}

/// ASCII letter or underscore.
pub open spec fn is_ident_start(b: u8) -> bool {
    (65 <= b <= 90) || (97 <= b <= 122) || b == 95
}

/// ASCII letter, digit, or underscore.
pub open spec fn is_ident_continue(b: u8) -> bool {
    is_ident_start(b) || (48 <= b <= 57)
}

/// ASCII whitespace as `u8::is_ascii_whitespace` defines it.
pub open spec fn is_ascii_space(b: u8) -> bool {
    b == 32 || b == 9 || b == 10 || b == 12 || b == 13
}

/// ASCII decimal digit.
pub open spec fn is_ascii_digit(b: u8) -> bool {
    48 <= b <= 57
}

/// Decimal value of a sequence of ASCII digits.
pub open spec fn digits_value(digits: Seq<u8>) -> nat
    decreases digits.len(),
{
    if digits.len() == 0 {
        0
    } else {
        digits_value(digits.drop_last()) * 10 + (digits.last() - 48) as nat
    }
}

/// The UTF-8 spelling of each symbol.
pub open spec fn symbol_bytes(symbol: Symbol) -> Seq<u8> {
    match symbol {
        Symbol::LeftParen => seq![40u8],
        Symbol::RightParen => seq![41u8],
        Symbol::LeftBrace => seq![123u8],
        Symbol::RightBrace => seq![125u8],
        Symbol::LeftBracket => seq![91u8],
        Symbol::RightBracket => seq![93u8],
        Symbol::Comma => seq![44u8],
        Symbol::Colon => seq![58u8],
        Symbol::Semicolon => seq![59u8],
        Symbol::Dot => seq![46u8],
        Symbol::Question => seq![63u8],
        Symbol::Plus => seq![43u8],
        Symbol::Minus => seq![45u8],
        Symbol::Star => seq![42u8],
        Symbol::Slash => seq![47u8],
        Symbol::Bang => seq![33u8],
        Symbol::Equal => seq![61u8],
        Symbol::Less => seq![60u8],
        Symbol::Greater => seq![62u8],
        Symbol::Arrow => seq![45u8, 62u8],
        Symbol::FatArrow => seq![61u8, 62u8],
        Symbol::EqualEqual => seq![61u8, 61u8],
        Symbol::BangEqual => seq![33u8, 61u8],
        Symbol::LessEqual => seq![60u8, 61u8],
        Symbol::GreaterEqual => seq![62u8, 61u8],
        Symbol::AndAnd => seq![38u8, 38u8],
        Symbol::OrOr => seq![124u8, 124u8],
    }
}

/// Whether the bytes at `at` spell `symbol`.
pub open spec fn symbol_matches(bytes: Seq<u8>, at: int, symbol: Symbol) -> bool {
    at + symbol_bytes(symbol).len() <= bytes.len() && bytes.subrange(
        at,
        at + symbol_bytes(symbol).len(),
    ) == symbol_bytes(symbol)
}

/// Whether some symbol is spelled at `at`.
pub open spec fn symbol_at(bytes: Seq<u8>, at: int) -> bool {
    exists|symbol: Symbol| #[trigger] symbol_matches(bytes, at, symbol)
}

/// Whether `symbol` is the longest symbol spelled at `at`.
pub open spec fn longest_symbol_at(bytes: Seq<u8>, at: int, symbol: Symbol) -> bool {
    &&& symbol_matches(bytes, at, symbol)
    &&& symbol_bytes(symbol).len() == 1 ==> forall|other: Symbol|
        #[trigger] symbol_bytes(other).len() == 2 ==> !symbol_matches(bytes, at, other)
}

/// Whether `bytes[start..end]` is a maximal run of identifier bytes.
pub open spec fn identifier_run(bytes: Seq<u8>, start: int, end: int) -> bool {
    &&& start < end
    &&& is_ident_start(bytes[start])
    &&& forall|i: int| start < i < end ==> is_ident_continue(#[trigger] bytes[i])
    &&& (end == bytes.len() || !is_ident_continue(bytes[end]))
}

/// What the source bytes `bytes[start..end]` of a token say of its kind: the
/// token reproduces its source text (or, for literals, its decoded value) and
/// is the longest token that starts at `start`.
/// Where a block comment opened before `pos`, `depth` levels deep, closes:
/// each `/*` opens a level, each `*/` closes one, and the comment ends
/// after the `*/` that closes the outermost level; `None` when the text
/// ends first.
pub open spec fn comment_close(bytes: Seq<u8>, pos: int, depth: nat) -> Option<int>
    decreases bytes.len() - pos,
{
    if pos < 0 || pos >= bytes.len() || depth == 0 {
        None
    } else if pos + 2 <= bytes.len() && bytes[pos] == 47u8 && bytes[pos + 1] == 42u8 {
        comment_close(bytes, pos + 2, depth + 1)
    } else if pos + 2 <= bytes.len() && bytes[pos] == 42u8 && bytes[pos + 1] == 47u8 {
        if depth == 1 {
            Some(pos + 2)
        } else {
            comment_close(bytes, pos + 2, (depth - 1) as nat)
        }
    } else {
        comment_close(bytes, pos + 1, depth)
    }
}

/// Skipping bytes that open or close no comment leaves the close unchanged.
proof fn lemma_comment_close_skip(bytes: Seq<u8>, p: int, q: int, depth: nat)
    requires
        0 <= p < q <= bytes.len(),
        depth > 0,
        !(p + 2 <= bytes.len() && bytes[p] == 47u8 && bytes[p + 1] == 42u8),
        !(p + 2 <= bytes.len() && bytes[p] == 42u8 && bytes[p + 1] == 47u8),
        forall|i: int| p < i < q ==> #[trigger] bytes[i] >= 0x80u8,
    ensures
        comment_close(bytes, p, depth) == comment_close(bytes, q, depth),
    decreases q - p,
{
    if p + 1 < q {
        lemma_comment_close_skip(bytes, p + 1, q, depth);
    }
}

pub open spec fn token_agrees(kind: TokenKind, bytes: Seq<u8>, start: int, end: int) -> bool {
    let text = bytes.subrange(start, end);
    &&& 0 <= start <= end <= bytes.len()
    &&& match kind {
        TokenKind::Whitespace(t) => {
            &&& utf8_of(t@) == text
            &&& start < end
            &&& forall|i: int| start <= i < end ==> is_ascii_space(#[trigger] bytes[i])
            &&& (end == bytes.len() || !is_ascii_space(bytes[end]))
        },
        TokenKind::LineComment(t) => {
            &&& utf8_of(t@) == text
            &&& end >= start + 2
            &&& bytes[start] == 47u8
            &&& bytes[start + 1] == 47u8
            &&& forall|i: int| start + 2 <= i < end ==> #[trigger] bytes[i] != 10u8
            &&& (end == bytes.len() || bytes[end] == 10u8)
        },
        TokenKind::BlockComment(t) => {
            &&& utf8_of(t@) == text
            &&& end >= start + 4
            &&& bytes[start] == 47u8
            &&& bytes[start + 1] == 42u8
            &&& bytes[end - 2] == 42u8
            &&& bytes[end - 1] == 47u8
            &&& comment_close(bytes, start + 2, 1) == Some(end)
        },
        TokenKind::BlockString(contents) => {
            &&& end >= start + 6
            &&& bytes[start] == 34u8 && bytes[start + 1] == 34u8 && bytes[start + 2] == 34u8
            &&& bytes[end - 3] == 34u8 && bytes[end - 2] == 34u8 && bytes[end - 1] == 34u8
            &&& utf8_of(contents@) == bytes.subrange(start + 3, end - 3)
        },
        TokenKind::String(value) => {
            &&& end >= start + 2
            &&& bytes[start] == 34u8
            &&& bytes[end - 1] == 34u8
            &&& json_string_value(decode_utf8(text)) == Some(value@)
        },
        TokenKind::ModelAlias(name) => {
            &&& bytes[start] == 64u8
            &&& identifier_run(bytes, start + 1, end)
            &&& utf8_of(name@) == bytes.subrange(start + 1, end)
        },
        TokenKind::Identifier(name) => {
            &&& identifier_run(bytes, start, end)
            &&& utf8_of(name@) == text
            &&& forall|k: Keyword| keyword_spelling(k) != name@
        },
        TokenKind::Keyword(k) => {
            &&& identifier_run(bytes, start, end)
            &&& utf8_of(keyword_spelling(k)) == text
        },
        TokenKind::Integer(value) => {
            &&& start < end
            &&& forall|i: int| start <= i < end ==> is_ascii_digit(#[trigger] bytes[i])
            &&& (end == bytes.len() || !is_ascii_digit(bytes[end]))
            &&& value == digits_value(text)
        },
        TokenKind::Symbol(symbol) => {
            &&& text == symbol_bytes(symbol)
            &&& (end == start + 1 ==> forall|other: Symbol|
                #[trigger] symbol_bytes(other).len() == 2 ==> !(start + 2 <= bytes.len()
                    && bytes.subrange(start, start + 2) == symbol_bytes(other)))
        },
        TokenKind::Eof => start == end && end == bytes.len(),
    }
}

/// The tokens, in order, cover `0..upto` of the source without gaps or
/// overlaps, each agreeing with its source text and carrying its exact span.
pub open spec fn tokens_cover(tokens: Seq<Token>, path: Seq<char>, text: Seq<char>, upto: int) -> bool {
    let bytes = utf8_of(text);
    &&& tokens.len() == 0 ==> upto == 0
    &&& tokens.len() > 0 ==> tokens[0].span.start == 0 && tokens.last().span.end == upto
    &&& forall|i: int|
        0 <= i < tokens.len() - 1 ==> #[trigger] tokens[i].span.end == tokens[i + 1].span.start
    &&& forall|i: int|
        0 <= i < tokens.len() ==> token_agrees(
            #[trigger] tokens[i].kind,
            bytes,
            tokens[i].span.start as int,
            tokens[i].span.end as int,
        ) && span_matches(
            tokens[i].span,
            path,
            text,
            tokens[i].span.start as int,
            tokens[i].span.end as int,
        )
}

/// A complete lossless token stream of `text`: it covers the whole source and
/// ends with the one end-of-source token.
pub open spec fn lossless_stream(tokens: Seq<Token>, path: Seq<char>, text: Seq<char>) -> bool {
    &&& tokens.len() >= 1
    &&& tokens.last().kind is Eof
    &&& forall|i: int| 0 <= i < tokens.len() - 1 ==> !(#[trigger] tokens[i].kind is Eof)
    &&& tokens_cover(tokens, path, text, utf8_of(text).len() as int)
}

/// Codes the lexer reports.
pub open spec fn is_lexical_code(code: Seq<char>) -> bool {
    code == known_code_text(KnownDiagnosticCode::InvalidStringEscape) || code == known_code_text(
        KnownDiagnosticCode::UnknownToken,
    ) || code == known_code_text(KnownDiagnosticCode::InvalidInteger) || code == known_code_text(
        KnownDiagnosticCode::UnterminatedBlockComment,
    ) || code == known_code_text(KnownDiagnosticCode::UnterminatedString) || code
        == known_code_text(KnownDiagnosticCode::UnterminatedBlockString)
}

/// A lexical error report located exactly in `text`.
pub open spec fn lexical_diagnostic(d: Diagnostic, path: Seq<char>, text: Seq<char>) -> bool {
    &&& d.severity == Severity::Error
    &&& is_lexical_code(d.code@)
    &&& d.primary_span.start <= d.primary_span.end
    &&& span_matches(
        d.primary_span,
        path,
        text,
        d.primary_span.start as int,
        d.primary_span.end as int,
    )
}

/// Lexicographic order of texts (the order of `str`).
pub open spec fn text_less(a: Seq<char>, b: Seq<char>) -> bool
    decreases a.len(),
{
    if b.len() == 0 {
        false
    } else if a.len() == 0 {
        true
    } else if a[0] != b[0] {
        a[0] < b[0]
    } else {
        text_less(a.drop_first(), b.drop_first())
    }
}

/// The order of diagnostics by start, end, then code.
pub open spec fn diagnostic_key_le(a: Diagnostic, b: Diagnostic) -> bool {
    ||| a.primary_span.start < b.primary_span.start
    ||| a.primary_span.start == b.primary_span.start && a.primary_span.end < b.primary_span.end
    ||| a.primary_span.start == b.primary_span.start && a.primary_span.end == b.primary_span.end
        && !text_less(b.code@, a.code@)
}

/// Diagnostics ordered by start, end, then code.
pub open spec fn sorted_by_location(ds: Seq<Diagnostic>) -> bool {
    forall|i: int, j: int| 0 <= i < j < ds.len() ==> diagnostic_key_le(#[trigger] ds[i], #[trigger] ds[j])
}


/// Lexes one UTF-8 source file and returns all lexical diagnostics in byte order.
///
/// A stream is returned only when no lexical error occurred; it is lossless:
/// its tokens cover the whole source in order, each reproducing its source
/// text (or decoded literal value) with its exact span, and end with EOF.
pub fn lex(source: &SourceFile) -> (result: Result<Lexed, Vec<Diagnostic>>)
    requires
        fits_in_memory(source.spec_text()),
    ensures
        result matches Ok(lexed) ==> lossless_stream(
            lexed.tokens@,
            source.spec_path(),
            source.spec_text(),
        ),
        result matches Err(diagnostics) ==> diagnostics@.len() > 0 && sorted_by_location(
            diagnostics@,
        ) && forall|i: int|
            0 <= i < diagnostics@.len() ==> lexical_diagnostic(
                #[trigger] diagnostics@[i],
                source.spec_path(),
                source.spec_text(),
            ),
{
    let text = source.text();
    let mut lexer = Lexer {
        path: source.path(),
        text,
        bytes: text.as_bytes(),
        cursor: 0,
        tokens: Vec::new(),
        diagnostics: Vec::new(),
    };
    proof {
        assert(is_char_boundary(lexer.bytes@, 0));
    }
    lexer.run()
}

struct Lexer<'a> {
    path: &'a str,
    text: &'a str,
    bytes: &'a [u8],
    cursor: usize,
    tokens: Vec<Token>,
    diagnostics: Vec<Diagnostic>,
}

fn is_space_byte(b: u8) -> (space: bool)
    ensures
        space == is_ascii_space(b),
{
    b == 32u8 || b == 9u8 || b == 10u8 || b == 12u8 || b == 13u8
}

fn is_digit_byte(b: u8) -> (digit: bool)
    ensures
        digit == is_ascii_digit(b),
{
    48u8 <= b && b <= 57u8
}

fn is_ident_start_byte(b: u8) -> (start: bool)
    ensures
        start == is_ident_start(b),
{
    (65u8 <= b && b <= 90u8) || (97u8 <= b && b <= 122u8) || b == 95u8
}

fn is_ident_continue_byte(b: u8) -> (cont: bool)
    ensures
        cont == is_ident_continue(b),
{
    is_ident_start_byte(b) || is_digit_byte(b)
}

fn is_hex_byte(b: u8) -> (hex: bool)
    ensures
        hex ==> b < 0x80,
{
    (48u8 <= b && b <= 57u8) || (65u8 <= b && b <= 70u8) || (97u8 <= b && b <= 102u8)
}

fn is_alphanumeric_byte(b: u8) -> (alnum: bool)
    ensures
        alnum ==> b < 0x80,
{
    (48u8 <= b && b <= 57u8) || (65u8 <= b && b <= 90u8) || (97u8 <= b && b <= 122u8)
}

impl<'a> Lexer<'a> {
    spec fn sound(&self, upto: int) -> bool {
        &&& self.bytes@ == utf8_of(self.text@)
        &&& fits_in_memory(self.text@)
        &&& self.diagnostics@.len() == 0 ==> tokens_cover(
            self.tokens@,
            self.path@,
            self.text@,
            upto,
        )
        &&& forall|i: int| 0 <= i < self.tokens@.len() ==> !(#[trigger] self.tokens@[i].kind is Eof)
        &&& forall|i: int|
            0 <= i < self.diagnostics@.len() ==> lexical_diagnostic(
                #[trigger] self.diagnostics@[i],
                self.path@,
                self.text@,
            )
    }

    spec fn wf(&self) -> bool {
        &&& self.sound(self.cursor as int)
        &&& self.cursor <= self.bytes@.len()
        &&& is_char_boundary(self.bytes@, self.cursor as int)
    }

    spec fn same_source(&self, other: &Self) -> bool {
        &&& self.path == other.path
        &&& self.text == other.text
        &&& self.bytes == other.bytes
    }

    spec fn steps_from(&self, old: &Self) -> bool {
        &&& self.same_source(old)
        &&& self.wf()
        &&& self.cursor > old.cursor
        &&& self.diagnostics@.len() >= old.diagnostics@.len()
    }

    fn starts_with2(&self, first: u8, second: u8) -> (found: bool)
        requires
            self.cursor <= self.bytes@.len(),
        ensures
            found == (self.cursor + 2 <= self.bytes@.len() && self.bytes@[self.cursor as int]
                == first && self.bytes@[self.cursor + 1] == second),
    {
        self.cursor < self.bytes.len() && self.bytes.len() - self.cursor >= 2
            && self.bytes[self.cursor] == first && self.bytes[self.cursor + 1] == second
    }

    fn starts_with_triple_quote(&self) -> (found: bool)
        requires
            self.cursor <= self.bytes@.len(),
        ensures
            found == (self.cursor + 3 <= self.bytes@.len() && self.bytes@[self.cursor as int]
                == 34u8 && self.bytes@[self.cursor + 1] == 34u8 && self.bytes@[self.cursor + 2]
                == 34u8),
    {
        self.cursor < self.bytes.len() && self.bytes.len() - self.cursor >= 3
            && self.bytes[self.cursor] == 34u8 && self.bytes[self.cursor + 1] == 34u8
            && self.bytes[self.cursor + 2] == 34u8
    }

    /// The next character boundary after `from`.
    fn next_boundary(&self, from: usize) -> (next: usize)
        requires
            self.bytes@ == utf8_of(self.text@),
            fits_in_memory(self.text@),
            from < self.bytes@.len(),
        ensures
            from < next <= self.bytes@.len(),
            is_char_boundary(self.bytes@, next as int),
            forall|i: int| from < i < next ==> #[trigger] self.bytes@[i] >= 0x80u8,
    {
        let mut next = from + 1;
        while next < self.bytes.len() && self.bytes[next] >= 0x80u8 && self.bytes[next] <= 0xbfu8
            invariant
                from < next <= self.bytes@.len(),
                forall|i: int| from < i < next ==> #[trigger] self.bytes@[i] >= 0x80u8,
            decreases self.bytes@.len() - next,
        {
            next = next + 1;
        }
        proof {
            if next < self.bytes@.len() {
                assert(!is_continuation_byte(self.bytes@[next as int]));
            }
        }
        next
    }

    fn span(&self, start: usize, end: usize) -> (span: Span)
        requires
            self.bytes@ == utf8_of(self.text@),
            fits_in_memory(self.text@),
            start <= end <= self.bytes@.len(),
            is_char_boundary(self.bytes@, start as int),
            is_char_boundary(self.bytes@, end as int),
        ensures
            span_matches(span, self.path@, self.text@, start as int, end as int),
    {
        match Span::from_offsets(self.path, self.text, start, end) {
            Ok(span) => span,
            Err(_) => {
                proof {
                    assert(span_check(self.text@, start as int, end as int) is Ok);
                }
                Span { file: self.path.to_owned(), start, end, line: 1, column: 1 }
            },
        }
    }

    fn push_token(&mut self, kind: TokenKind, start: usize, end: usize)
        requires
            old(self).sound(start as int),
            token_agrees(kind, old(self).bytes@, start as int, end as int),
            !(kind is Eof),
            start <= end <= old(self).bytes@.len(),
            is_char_boundary(old(self).bytes@, start as int),
            is_char_boundary(old(self).bytes@, end as int),
        ensures
            final(self).sound(end as int),
            final(self).same_source(old(self)),
            final(self).cursor == old(self).cursor,
            final(self).diagnostics == old(self).diagnostics,
            final(self).tokens@.drop_last() == old(self).tokens@,
            final(self).tokens@.len() == old(self).tokens@.len() + 1,
            final(self).tokens@.last().kind == kind,
    {
        let span = self.span(start, end);
        let ghost old_tokens = self.tokens@;
        self.tokens.push(Token { kind, span });
        proof {
            let t = self.tokens@;
            assert(t.drop_last() == old_tokens);
            if self.diagnostics@.len() == 0 {
                assert forall|i: int| 0 <= i < t.len() - 1 implies #[trigger] t[i].span.end == t[i
                    + 1].span.start by {
                    if i < t.len() - 2 {
                        assert(old_tokens[i].span.end == old_tokens[i + 1].span.start);
                    }
                }
            }
        }
    }

    fn push_error(
        &mut self,
        code: KnownDiagnosticCode,
        message: &str,
        start: usize,
        end: usize,
        help: &str,
    )
        requires
            old(self).bytes@ == utf8_of(old(self).text@),
            fits_in_memory(old(self).text@),
            forall|i: int| 0 <= i < old(self).tokens@.len() ==> !(#[trigger] old(self).tokens@[i].kind is Eof),
            forall|i: int|
                0 <= i < old(self).diagnostics@.len() ==> lexical_diagnostic(
                    #[trigger] old(self).diagnostics@[i],
                    old(self).path@,
                    old(self).text@,
                ),
            is_lexical_code(known_code_text(code)),
            start <= end <= old(self).bytes@.len(),
            is_char_boundary(old(self).bytes@, start as int),
            is_char_boundary(old(self).bytes@, end as int),
        ensures
            final(self).same_source(old(self)),
            final(self).cursor == old(self).cursor,
            final(self).tokens == old(self).tokens,
            final(self).diagnostics@.len() == old(self).diagnostics@.len() + 1,
            forall|u: int| #[trigger] final(self).sound(u),
            forall|i: int|
                0 <= i < final(self).diagnostics@.len() ==> lexical_diagnostic(
                    #[trigger] final(self).diagnostics@[i],
                    final(self).path@,
                    final(self).text@,
                ),
    {
        let span = self.span(start, end);
        let diagnostic = Diagnostic::error(code.code(), message, span).with_help(help);
        self.diagnostics.push(diagnostic);
    }

    fn lex_whitespace(&mut self)
        requires
            old(self).wf(),
            old(self).cursor < old(self).bytes@.len(),
            is_ascii_space(old(self).bytes@[old(self).cursor as int]),
        ensures
            final(self).steps_from(old(self)),
    {
        let start = self.cursor;
        while self.cursor < self.bytes.len() && is_space_byte(self.bytes[self.cursor])
            invariant
                self.sound(start as int),
                self.same_source(old(self)),
                self.tokens == old(self).tokens,
                self.diagnostics == old(self).diagnostics,
                start == old(self).cursor,
                start <= self.cursor <= self.bytes@.len(),
                is_ascii_space(self.bytes@[start as int]),
                self.cursor == start || is_char_boundary(self.bytes@, self.cursor as int),
                forall|i: int| start <= i < self.cursor ==> is_ascii_space(#[trigger] self.bytes@[i]),
            decreases self.bytes@.len() - self.cursor,
        {
            proof {
                lemma_after_ascii_is_boundary(self.bytes@, self.cursor as int);
            }
            self.cursor = self.cursor + 1;
        }
        let end = self.cursor;
        let piece = substring(self.text, start, end);
        self.push_token(TokenKind::Whitespace(piece), start, end);
    }

    fn lex_line_comment(&mut self)
        requires
            old(self).wf(),
            old(self).cursor + 2 <= old(self).bytes@.len(),
            old(self).bytes@[old(self).cursor as int] == 47u8,
            old(self).bytes@[old(self).cursor + 1] == 47u8,
        ensures
            final(self).steps_from(old(self)),
    {
        let start = self.cursor;
        self.cursor = self.cursor + 2;
        while self.cursor < self.bytes.len() && self.bytes[self.cursor] != 10u8
            invariant
                self.sound(start as int),
                self.same_source(old(self)),
                self.tokens == old(self).tokens,
                self.diagnostics == old(self).diagnostics,
                start == old(self).cursor,
                start + 2 <= self.cursor <= self.bytes@.len(),
                self.bytes@[start as int] == 47u8,
                self.bytes@[start + 1] == 47u8,
                forall|i: int| start + 2 <= i < self.cursor ==> #[trigger] self.bytes@[i] != 10u8,
            decreases self.bytes@.len() - self.cursor,
        {
            self.cursor = self.cursor + 1;
        }
        proof {
            if self.cursor < self.bytes@.len() {
                assert(!is_continuation_byte(self.bytes@[self.cursor as int]));
            }
        }
        let end = self.cursor;
        let piece = substring(self.text, start, end);
        self.push_token(TokenKind::LineComment(piece), start, end);
    }

    fn lex_block_comment(&mut self)
        requires
            old(self).wf(),
            old(self).cursor + 2 <= old(self).bytes@.len(),
            old(self).bytes@[old(self).cursor as int] == 47u8,
            old(self).bytes@[old(self).cursor + 1] == 42u8,
        ensures
            final(self).steps_from(old(self)),
    {
        let start = self.cursor;
        proof {
            lemma_after_ascii_is_boundary(self.bytes@, start + 1);
        }
        self.cursor = self.cursor + 2;
        let mut depth: usize = 1;
        while self.cursor < self.bytes.len()
            invariant
                self.sound(start as int),
                self.same_source(old(self)),
                self.tokens == old(self).tokens,
                self.diagnostics == old(self).diagnostics,
                start == old(self).cursor,
                start + 2 <= self.cursor <= self.bytes@.len(),
                is_char_boundary(self.bytes@, start as int),
                is_char_boundary(self.bytes@, self.cursor as int),
                self.bytes@[start as int] == 47u8,
                self.bytes@[start + 1] == 42u8,
                1 <= depth <= self.cursor,
                comment_close(self.bytes@, start + 2, 1) == comment_close(
                    self.bytes@,
                    self.cursor as int,
                    depth as nat,
                ),
            decreases self.bytes@.len() - self.cursor,
        {
            if self.starts_with2(47u8, 42u8) {
                proof {
                    lemma_after_ascii_is_boundary(self.bytes@, self.cursor + 1);
                }
                depth = depth + 1;
                self.cursor = self.cursor + 2;
            } else if self.starts_with2(42u8, 47u8) {
                proof {
                    lemma_after_ascii_is_boundary(self.bytes@, self.cursor + 1);
                }
                depth = depth - 1;
                self.cursor = self.cursor + 2;
                if depth == 0 {
                    let end = self.cursor;
                    let piece = substring(self.text, start, end);
                    self.push_token(TokenKind::BlockComment(piece), start, end);
                    return;
                }
            } else {
                let from = self.cursor;
                self.cursor = self.next_boundary(self.cursor);
                proof {
                    lemma_comment_close_skip(self.bytes@, from as int, self.cursor as int, depth as nat);
                }
            }
        }
        proof {
            reveal_strlit("unterminated block comment");
        }
        self.push_error(
            KnownDiagnosticCode::UnterminatedBlockComment,
            "unterminated block comment",
            start,
            self.cursor,
            "close every nested `/*` comment with `*/`",
        );
    }

    fn lex_block_string(&mut self)
        requires
            old(self).wf(),
            old(self).cursor + 3 <= old(self).bytes@.len(),
            old(self).bytes@[old(self).cursor as int] == 34u8,
            old(self).bytes@[old(self).cursor + 1] == 34u8,
            old(self).bytes@[old(self).cursor + 2] == 34u8,
        ensures
            final(self).steps_from(old(self)),
    {
        let start = self.cursor;
        proof {
            lemma_after_ascii_is_boundary(self.bytes@, start + 2);
        }
        self.cursor = self.cursor + 3;
        let content_start = self.cursor;
        while self.cursor < self.bytes.len() && !self.starts_with_triple_quote()
            invariant
                self.sound(start as int),
                self.same_source(old(self)),
                self.tokens == old(self).tokens,
                self.diagnostics == old(self).diagnostics,
                start == old(self).cursor,
                content_start == start + 3,
                content_start <= self.cursor <= self.bytes@.len(),
                is_char_boundary(self.bytes@, start as int),
                is_char_boundary(self.bytes@, content_start as int),
                is_char_boundary(self.bytes@, self.cursor as int),
                self.bytes@[start as int] == 34u8,
                self.bytes@[start + 1] == 34u8,
                self.bytes@[start + 2] == 34u8,
            decreases self.bytes@.len() - self.cursor,
        {
            self.cursor = self.next_boundary(self.cursor);
        }
        if self.cursor == self.bytes.len() {
            self.push_error(
                KnownDiagnosticCode::UnterminatedBlockString,
                "unterminated block string",
                start,
                self.cursor,
                "add a closing triple quote",
            );
            return;
        }
        let content_end = self.cursor;
        let content = substring(self.text, content_start, content_end);
        proof {
            lemma_after_ascii_is_boundary(self.bytes@, content_end + 2);
        }
        self.cursor = self.cursor + 3;
        let end = self.cursor;
        self.push_token(TokenKind::BlockString(content), start, end);
    }

    fn push_invalid_escape(&mut self, start: usize, end: usize)
        requires
            old(self).bytes@ == utf8_of(old(self).text@),
            fits_in_memory(old(self).text@),
            forall|i: int| 0 <= i < old(self).tokens@.len() ==> !(#[trigger] old(self).tokens@[i].kind is Eof),
            forall|i: int|
                0 <= i < old(self).diagnostics@.len() ==> lexical_diagnostic(
                    #[trigger] old(self).diagnostics@[i],
                    old(self).path@,
                    old(self).text@,
                ),
            start <= end <= old(self).bytes@.len(),
            is_char_boundary(old(self).bytes@, start as int),
            is_char_boundary(old(self).bytes@, end as int),
        ensures
            final(self).same_source(old(self)),
            final(self).cursor == old(self).cursor,
            final(self).tokens == old(self).tokens,
            final(self).diagnostics@.len() == old(self).diagnostics@.len() + 1,
            forall|u: int| #[trigger] final(self).sound(u),
            forall|i: int|
                0 <= i < final(self).diagnostics@.len() ==> lexical_diagnostic(
                    #[trigger] final(self).diagnostics@[i],
                    final(self).path@,
                    final(self).text@,
                ),
    {
        self.push_error(
            KnownDiagnosticCode::InvalidStringEscape,
            "invalid string escape",
            start,
            end,
            "use a valid JSON-style escape",
        );
    }

    fn lex_string(&mut self)
        requires
            old(self).wf(),
            old(self).cursor < old(self).bytes@.len(),
            old(self).bytes@[old(self).cursor as int] == 34u8,
        ensures
            final(self).steps_from(old(self)),
    {
        let start = self.cursor;
        proof {
            lemma_after_ascii_is_boundary(self.bytes@, start as int);
        }
        self.cursor = self.cursor + 1;
        let mut valid = true;
        let mut terminated = false;
        while self.cursor < self.bytes.len() && !terminated
            invariant
                self.same_source(old(self)),
                self.bytes@ == utf8_of(self.text@),
                fits_in_memory(self.text@),
                self.tokens == old(self).tokens,
                forall|i: int| 0 <= i < self.tokens@.len() ==> !(#[trigger] self.tokens@[i].kind is Eof),
                forall|i: int|
                    0 <= i < self.diagnostics@.len() ==> lexical_diagnostic(
                        #[trigger] self.diagnostics@[i],
                        self.path@,
                        self.text@,
                    ),
                valid ==> self.diagnostics == old(self).diagnostics,
                !valid ==> self.diagnostics@.len() > old(self).diagnostics@.len(),
                valid ==> self.sound(start as int),
                start == old(self).cursor,
                start < self.cursor <= self.bytes@.len(),
                is_char_boundary(self.bytes@, start as int),
                is_char_boundary(self.bytes@, self.cursor as int),
                self.bytes@[start as int] == 34u8,
                terminated ==> self.cursor >= start + 2 && self.bytes@[self.cursor - 1] == 34u8,
            decreases self.bytes@.len() - self.cursor, if terminated { 0int } else { 1int },
        {
            let byte = self.bytes[self.cursor];
            if byte == 34u8 {
                proof {
                    lemma_after_ascii_is_boundary(self.bytes@, self.cursor as int);
                }
                self.cursor = self.cursor + 1;
                terminated = true;
            } else if byte == 92u8 {
                let escape_start = self.cursor;
                proof {
                    lemma_after_ascii_is_boundary(self.bytes@, self.cursor as int);
                }
                self.cursor = self.cursor + 1;
                if self.cursor < self.bytes.len() {
                    let escaped = self.bytes[self.cursor];
                    if escaped == 34u8 || escaped == 92u8 || escaped == 47u8 || escaped == 98u8
                        || escaped == 102u8 || escaped == 110u8 || escaped == 114u8 || escaped
                        == 116u8 {
                        proof {
                            lemma_after_ascii_is_boundary(self.bytes@, self.cursor as int);
                        }
                        self.cursor = self.cursor + 1;
                    } else if escaped == 117u8 {
                        proof {
                            lemma_after_ascii_is_boundary(self.bytes@, self.cursor as int);
                        }
                        self.cursor = self.cursor + 1;
                        let digits_end = self.cursor.saturating_add(4);
                        if digits_end <= self.bytes.len() && is_hex_byte(self.bytes[self.cursor])
                            && is_hex_byte(self.bytes[self.cursor + 1]) && is_hex_byte(
                            self.bytes[self.cursor + 2],
                        ) && is_hex_byte(self.bytes[self.cursor + 3]) {
                            proof {
                                lemma_after_ascii_is_boundary(self.bytes@, digits_end - 1);
                            }
                            self.cursor = digits_end;
                        } else {
                            valid = false;
                            let limit = if digits_end < self.bytes.len() {
                                digits_end
                            } else {
                                self.bytes.len()
                            };
                            while self.cursor < limit && is_alphanumeric_byte(
                                self.bytes[self.cursor],
                            )
                                invariant
                                    self.same_source(old(self)),
                                    self.bytes@ == utf8_of(self.text@),
                                    self.tokens == old(self).tokens,
                                    self.diagnostics == old(self).diagnostics || self.diagnostics@.len() > old(self).diagnostics@.len(),
                                    self.diagnostics@.len() >= old(self).diagnostics@.len(),
                                    forall|i: int|
                                        0 <= i < self.diagnostics@.len() ==> lexical_diagnostic(
                                            #[trigger] self.diagnostics@[i],
                                            self.path@,
                                            self.text@,
                                        ),
                                    start < escape_start < self.cursor <= limit <= self.bytes@.len(),
                                    is_char_boundary(self.bytes@, self.cursor as int),
                                    is_char_boundary(self.bytes@, escape_start as int),
                                decreases limit - self.cursor,
                            {
                                proof {
                                    lemma_after_ascii_is_boundary(self.bytes@, self.cursor as int);
                                }
                                self.cursor = self.cursor + 1;
                            }
                            self.push_invalid_escape(escape_start, self.cursor);
                        }
                    } else {
                        valid = false;
                        self.cursor = self.next_boundary(self.cursor);
                        self.push_invalid_escape(escape_start, self.cursor);
                    }
                }
            } else if byte < 32u8 {
                valid = false;
                let error_start = self.cursor;
                proof {
                    lemma_after_ascii_is_boundary(self.bytes@, self.cursor as int);
                }
                self.cursor = self.cursor + 1;
                self.push_error(
                    KnownDiagnosticCode::InvalidStringEscape,
                    "unescaped control character in string",
                    error_start,
                    self.cursor,
                    "escape control characters in JSON-style strings",
                );
            } else {
                self.cursor = self.next_boundary(self.cursor);
            }
        }
        if !terminated {
            self.push_error(
                KnownDiagnosticCode::UnterminatedString,
                "unterminated string literal",
                start,
                self.cursor,
                "add a closing quote on the same source line",
            );
            return;
        }
        if valid {
            let end = self.cursor;
            let literal = substring(self.text, start, end);
            match decode_json_string(literal.as_str()) {
                Some(value) => {
                    self.push_token(TokenKind::String(value), start, end);
                },
                None => {
                    self.push_error(
                        KnownDiagnosticCode::InvalidStringEscape,
                        "invalid JSON-style string literal",
                        start,
                        end,
                        "use JSON-compatible string escapes",
                    );
                },
            }
        }
    }

    fn lex_model_alias(&mut self)
        requires
            old(self).wf(),
            old(self).cursor < old(self).bytes@.len(),
            old(self).bytes@[old(self).cursor as int] == 64u8,
        ensures
            final(self).steps_from(old(self)),
    {
        let start = self.cursor;
        proof {
            lemma_after_ascii_is_boundary(self.bytes@, start as int);
        }
        self.cursor = self.cursor + 1;
        let name_start = self.cursor;
        if self.cursor < self.bytes.len() && is_ident_start_byte(self.bytes[self.cursor]) {
            proof {
                lemma_after_ascii_is_boundary(self.bytes@, self.cursor as int);
            }
            self.cursor = self.cursor + 1;
            while self.cursor < self.bytes.len() && is_ident_continue_byte(self.bytes[self.cursor])
                invariant
                    self.sound(start as int),
                    self.same_source(old(self)),
                    self.tokens == old(self).tokens,
                    self.diagnostics == old(self).diagnostics,
                    start == old(self).cursor,
                    name_start == start + 1,
                    name_start < self.cursor <= self.bytes@.len(),
                    is_char_boundary(self.bytes@, start as int),
                    is_char_boundary(self.bytes@, name_start as int),
                    is_char_boundary(self.bytes@, self.cursor as int),
                    self.bytes@[start as int] == 64u8,
                    is_ident_start(self.bytes@[name_start as int]),
                    forall|i: int| name_start < i < self.cursor ==> is_ident_continue(#[trigger] self.bytes@[i]),
                decreases self.bytes@.len() - self.cursor,
            {
                proof {
                    lemma_after_ascii_is_boundary(self.bytes@, self.cursor as int);
                }
                self.cursor = self.cursor + 1;
            }
            let end = self.cursor;
            let alias = substring(self.text, name_start, end);
            self.push_token(TokenKind::ModelAlias(alias), start, end);
        } else {
            self.push_error(
                KnownDiagnosticCode::UnknownToken,
                "model alias requires an identifier after `@`",
                start,
                self.cursor,
                "write an alias such as `@planner`",
            );
        }
    }

    fn lex_identifier(&mut self)
        requires
            old(self).wf(),
            old(self).cursor < old(self).bytes@.len(),
            is_ident_start(old(self).bytes@[old(self).cursor as int]),
        ensures
            final(self).steps_from(old(self)),
    {
        let start = self.cursor;
        proof {
            lemma_after_ascii_is_boundary(self.bytes@, start as int);
        }
        self.cursor = self.cursor + 1;
        while self.cursor < self.bytes.len() && is_ident_continue_byte(self.bytes[self.cursor])
            invariant
                self.sound(start as int),
                self.same_source(old(self)),
                self.tokens == old(self).tokens,
                self.diagnostics == old(self).diagnostics,
                start == old(self).cursor,
                start < self.cursor <= self.bytes@.len(),
                is_char_boundary(self.bytes@, start as int),
                is_char_boundary(self.bytes@, self.cursor as int),
                is_ident_start(self.bytes@[start as int]),
                forall|i: int| start < i < self.cursor ==> is_ident_continue(#[trigger] self.bytes@[i]),
            decreases self.bytes@.len() - self.cursor,
        {
            proof {
                lemma_after_ascii_is_boundary(self.bytes@, self.cursor as int);
            }
            self.cursor = self.cursor + 1;
        }
        let end = self.cursor;
        let identifier = substring(self.text, start, end);
        match Keyword::from_identifier(identifier.as_str()) {
            Some(keyword) => self.push_token(TokenKind::Keyword(keyword), start, end),
            None => self.push_token(TokenKind::Identifier(identifier), start, end),
        }
    }

    fn lex_integer(&mut self)
        requires
            old(self).wf(),
            old(self).cursor < old(self).bytes@.len(),
            is_ascii_digit(old(self).bytes@[old(self).cursor as int]),
        ensures
            final(self).steps_from(old(self)),
    {
        let start = self.cursor;
        let mut value: u64 = 0;
        let mut overflow = false;
        while self.cursor < self.bytes.len() && is_digit_byte(self.bytes[self.cursor])
            invariant
                self.sound(start as int),
                self.same_source(old(self)),
                self.tokens == old(self).tokens,
                self.diagnostics == old(self).diagnostics,
                start == old(self).cursor,
                start <= self.cursor <= self.bytes@.len(),
                is_char_boundary(self.bytes@, start as int),
                self.cursor == start || is_char_boundary(self.bytes@, self.cursor as int),
                is_ascii_digit(self.bytes@[start as int]),
                forall|i: int| start <= i < self.cursor ==> is_ascii_digit(#[trigger] self.bytes@[i]),
                !overflow ==> value == digits_value(self.bytes@.subrange(start as int, self.cursor as int))
                    && value <= 9223372036854775807u64,
                overflow ==> digits_value(self.bytes@.subrange(start as int, self.cursor as int))
                    > 9223372036854775807u64,
            decreases self.bytes@.len() - self.cursor,
        {
            let digit = (self.bytes[self.cursor] - 48u8) as u64;
            let ghost before = self.bytes@.subrange(start as int, self.cursor as int);
            proof {
                lemma_after_ascii_is_boundary(self.bytes@, self.cursor as int);
                let after = self.bytes@.subrange(start as int, self.cursor + 1);
                assert(after.drop_last() =~= before);
                assert(digits_value(after) == digits_value(before) * 10 + digit);
            }
            if !overflow {
                if value > (9223372036854775807u64 - digit) / 10 {
                    overflow = true;
                    proof {
                        assert(value * 10 + digit > 9223372036854775807u64) by (nonlinear_arith)
                            requires
                                value > (9223372036854775807u64 - digit) / 10,
                                digit < 10,
                        ;
                    }
                } else {
                    proof {
                        assert(value * 10 + digit <= 9223372036854775807u64) by (nonlinear_arith)
                            requires
                                value <= (9223372036854775807u64 - digit) / 10,
                                digit < 10,
                        ;
                    }
                    value = value * 10 + digit;
                }
            } else {
                proof {
                    assert(digits_value(before) * 10 + digit > 9223372036854775807u64) by (nonlinear_arith)
                        requires
                            digits_value(before) > 9223372036854775807u64,
                    ;
                }
            }
            self.cursor = self.cursor + 1;
        }
        let end = self.cursor;
        if overflow {
            self.push_error(
                KnownDiagnosticCode::InvalidInteger,
                "integer literal is outside the ASTER `Int` range",
                start,
                end,
                "use a signed 64-bit integer magnitude",
            );
        } else {
            self.push_token(TokenKind::Integer(value as i64), start, end);
        }
    }

    fn lex_symbol(&mut self) -> (matched: bool)
        requires
            old(self).wf(),
            old(self).cursor < old(self).bytes@.len(),
        ensures
            matched ==> final(self).steps_from(old(self)),
            !matched ==> *final(self) == *old(self),
            matched == symbol_at(old(self).bytes@, old(self).cursor as int),
            matched ==> exists|symbol: Symbol|
                #[trigger] longest_symbol_at(old(self).bytes@, old(self).cursor as int, symbol)
                    && final(self).tokens@.last().kind == TokenKind::Symbol(symbol)
                    && final(self).tokens@.drop_last() == old(self).tokens@ && final(self).cursor
                    == old(self).cursor + symbol_bytes(symbol).len(),
    {
        let start = self.cursor;
        let pair = if self.starts_with2(45u8, 62u8) {
            Some(Symbol::Arrow)
        } else if self.starts_with2(61u8, 62u8) {
            Some(Symbol::FatArrow)
        } else if self.starts_with2(61u8, 61u8) {
            Some(Symbol::EqualEqual)
        } else if self.starts_with2(33u8, 61u8) {
            Some(Symbol::BangEqual)
        } else if self.starts_with2(60u8, 61u8) {
            Some(Symbol::LessEqual)
        } else if self.starts_with2(62u8, 61u8) {
            Some(Symbol::GreaterEqual)
        } else if self.starts_with2(38u8, 38u8) {
            Some(Symbol::AndAnd)
        } else if self.starts_with2(124u8, 124u8) {
            Some(Symbol::OrOr)
        } else {
            None
        };
        if let Some(symbol) = pair {
            proof {
                lemma_after_ascii_is_boundary(self.bytes@, start + 1);
                assert(self.bytes@.subrange(start as int, start + 2) =~= symbol_bytes(symbol));
                assert(symbol_matches(self.bytes@, start as int, symbol));
                assert(longest_symbol_at(self.bytes@, start as int, symbol));
            }
            self.cursor = self.cursor + 2;
            self.push_token(TokenKind::Symbol(symbol), start, start + 2);
            return true;
        }
        proof {
            assert forall|other: Symbol| #[trigger] symbol_bytes(other).len() == 2 implies !(start
                + 2 <= self.bytes@.len() && self.bytes@.subrange(start as int, start + 2)
                == symbol_bytes(other)) by {
                if start + 2 <= self.bytes@.len() && self.bytes@.subrange(start as int, start + 2)
                    == symbol_bytes(other) {
                    assert(self.bytes@.subrange(start as int, start + 2)[0] == self.bytes@[start as int]);
                    assert(self.bytes@.subrange(start as int, start + 2)[1] == self.bytes@[start + 1]);
                }
            }
        }
        let byte = self.bytes[self.cursor];
        let symbol = if byte == 40u8 {
            Symbol::LeftParen
        } else if byte == 41u8 {
            Symbol::RightParen
        } else if byte == 123u8 {
            Symbol::LeftBrace
        } else if byte == 125u8 {
            Symbol::RightBrace
        } else if byte == 91u8 {
            Symbol::LeftBracket
        } else if byte == 93u8 {
            Symbol::RightBracket
        } else if byte == 44u8 {
            Symbol::Comma
        } else if byte == 58u8 {
            Symbol::Colon
        } else if byte == 59u8 {
            Symbol::Semicolon
        } else if byte == 46u8 {
            Symbol::Dot
        } else if byte == 63u8 {
            Symbol::Question
        } else if byte == 43u8 {
            Symbol::Plus
        } else if byte == 45u8 {
            Symbol::Minus
        } else if byte == 42u8 {
            Symbol::Star
        } else if byte == 47u8 {
            Symbol::Slash
        } else if byte == 33u8 {
            Symbol::Bang
        } else if byte == 61u8 {
            Symbol::Equal
        } else if byte == 60u8 {
            Symbol::Less
        } else if byte == 62u8 {
            Symbol::Greater
        } else {
            proof {
                assert forall|other: Symbol| !#[trigger] symbol_matches(self.bytes@, start as int, other) by {
                    if symbol_matches(self.bytes@, start as int, other) {
                        let n = symbol_bytes(other).len();
                        assert(self.bytes@.subrange(start as int, start + n)[0] == self.bytes@[start as int]);
                        if n == 2 {
                            assert(symbol_bytes(other).len() == 2);
                        }
                    }
                }
            }
            return false;
        };
        proof {
            lemma_after_ascii_is_boundary(self.bytes@, start as int);
            assert(self.bytes@.subrange(start as int, start + 1) =~= symbol_bytes(symbol));
            assert(symbol_matches(self.bytes@, start as int, symbol));
            assert forall|other: Symbol| #[trigger] symbol_bytes(other).len() == 2 implies !symbol_matches(
                self.bytes@,
                start as int,
                other,
            ) by {}
            assert(longest_symbol_at(self.bytes@, start as int, symbol));
        }
        self.cursor = self.cursor + 1;
        self.push_token(TokenKind::Symbol(symbol), start, start + 1);
        true
    }

    fn run(self) -> (result: Result<Lexed, Vec<Diagnostic>>)
        requires
            self.wf(),
            self.cursor == 0,
            self.tokens@.len() == 0,
            self.diagnostics@.len() == 0,
        ensures
            result matches Ok(lexed) ==> lossless_stream(lexed.tokens@, self.path@, self.text@),
            result matches Err(diagnostics) ==> diagnostics@.len() > 0 && sorted_by_location(
                diagnostics@,
            ) && forall|i: int|
                0 <= i < diagnostics@.len() ==> lexical_diagnostic(
                    #[trigger] diagnostics@[i],
                    self.path@,
                    self.text@,
                ),
    {
        let mut lexer = self;
        while lexer.cursor < lexer.bytes.len()
            invariant
                lexer.wf(),
                lexer.same_source(&self),
            decreases lexer.bytes@.len() - lexer.cursor,
        {
            let start = lexer.cursor;
            let byte = lexer.bytes[lexer.cursor];
            if is_space_byte(byte) {
                lexer.lex_whitespace();
            } else if byte == 47u8 && lexer.starts_with2(47u8, 47u8) {
                lexer.lex_line_comment();
            } else if byte == 47u8 && lexer.starts_with2(47u8, 42u8) {
                lexer.lex_block_comment();
            } else if byte == 34u8 && lexer.starts_with_triple_quote() {
                lexer.lex_block_string();
            } else if byte == 34u8 {
                lexer.lex_string();
            } else if byte == 64u8 {
                lexer.lex_model_alias();
            } else if is_ident_start_byte(byte) {
                lexer.lex_identifier();
            } else if is_digit_byte(byte) {
                lexer.lex_integer();
            } else if !lexer.lex_symbol() {
                let next = lexer.next_boundary(start);
                lexer.cursor = next;
                lexer.push_error(
                    KnownDiagnosticCode::UnknownToken,
                    "unknown source token",
                    start,
                    next,
                    "remove this character or replace it with ASTER punctuation",
                );
            }
        }
        let end = lexer.cursor;
        let span = lexer.span(end, end);
        let ghost before = lexer.tokens@;
        lexer.tokens.push(Token { kind: TokenKind::Eof, span });
        if lexer.diagnostics.len() == 0 {
            proof {
                let t = lexer.tokens@;
                assert(t.drop_last() == before);
                assert forall|i: int| 0 <= i < t.len() - 1 implies #[trigger] t[i].span.end == t[i
                    + 1].span.start by {
                    if i < t.len() - 2 {
                        assert(before[i].span.end == before[i + 1].span.start);
                    }
                }
                assert forall|i: int| 0 <= i < t.len() - 1 implies !(#[trigger] t[i].kind is Eof) by {
                    assert(t[i] == before[i]);
                }
            }
            Ok(Lexed { tokens: lexer.tokens })
        } else {
            let ghost unsorted = lexer.diagnostics@;
            let sorted = sort_diagnostics(lexer.diagnostics);
            proof {
                assert forall|i: int| 0 <= i < sorted@.len() implies lexical_diagnostic(
                    #[trigger] sorted@[i],
                    self.path@,
                    self.text@,
                ) by {
                    broadcast use vstd::seq_lib::group_to_multiset_ensures;
                    assert(sorted@.contains(sorted@[i]));
                    assert(sorted@.to_multiset().count(sorted@[i]) > 0);
                    assert(unsorted.contains(sorted@[i]));
                }
            }
            Err(sorted)
        }
    }
}


proof fn lemma_text_less_irreflexive(a: Seq<char>)
    ensures
        !text_less(a, a),
    decreases a.len(),
{
    if a.len() > 0 {
        lemma_text_less_irreflexive(a.drop_first());
    }
}

proof fn lemma_text_less_total(a: Seq<char>, b: Seq<char>)
    ensures
        text_less(a, b) || text_less(b, a) || a == b,
    decreases a.len(),
{
    if a.len() > 0 && b.len() > 0 && a[0] == b[0] {
        lemma_text_less_total(a.drop_first(), b.drop_first());
        if a.drop_first() == b.drop_first() {
            assert(a =~= seq![a[0]] + a.drop_first());
            assert(b =~= seq![b[0]] + b.drop_first());
        }
    } else if a.len() == 0 && b.len() == 0 {
        assert(a =~= b);
    }
}

proof fn lemma_text_less_transitive(a: Seq<char>, b: Seq<char>, c: Seq<char>)
    requires
        text_less(a, b),
        text_less(b, c),
    ensures
        text_less(a, c),
    decreases a.len(),
{
    if a.len() > 0 && b.len() > 0 && c.len() > 0 && a[0] == b[0] && b[0] == c[0] {
        lemma_text_less_transitive(a.drop_first(), b.drop_first(), c.drop_first());
    }
}

proof fn lemma_text_less_asymmetric(a: Seq<char>, b: Seq<char>)
    requires
        text_less(a, b),
    ensures
        !text_less(b, a),
    decreases a.len(),
{
    if a.len() > 0 && b.len() > 0 && a[0] == b[0] {
        lemma_text_less_asymmetric(a.drop_first(), b.drop_first());
    }
}

proof fn lemma_key_total(a: Diagnostic, b: Diagnostic)
    ensures
        diagnostic_key_le(a, b) || diagnostic_key_le(b, a),
{
    lemma_text_less_total(a.code@, b.code@);
    lemma_text_less_irreflexive(a.code@);
    if text_less(a.code@, b.code@) {
        lemma_text_less_asymmetric(a.code@, b.code@);
    }
}

proof fn lemma_key_transitive(a: Diagnostic, b: Diagnostic, c: Diagnostic)
    requires
        diagnostic_key_le(a, b),
        diagnostic_key_le(b, c),
    ensures
        diagnostic_key_le(a, c),
{
    if a.primary_span.start == c.primary_span.start && a.primary_span.end == c.primary_span.end {
        if text_less(c.code@, a.code@) {
            lemma_text_less_total(b.code@, a.code@);
            if text_less(b.code@, a.code@) {
                lemma_text_less_total(c.code@, b.code@);
                if text_less(c.code@, b.code@) {
                } else if b.code@ == c.code@ {
                } else {
                    lemma_text_less_transitive(b.code@, c.code@, a.code@);
                }
            } else if b.code@ == a.code@ {
            } else {
                lemma_text_less_transitive(c.code@, a.code@, b.code@);
            }
        }
    }
}

fn code_less(a: &str, b: &str) -> (less: bool)
    ensures
        less == text_less(a@, b@),
{
    let n = a.unicode_len();
    let m = b.unicode_len();
    let mut i: usize = 0;
    assert(a@.skip(0) =~= a@);
    assert(b@.skip(0) =~= b@);
    while i < n && i < m && a.get_char(i) == b.get_char(i)
        invariant
            n == a@.len(),
            m == b@.len(),
            i <= n,
            i <= m,
            text_less(a@, b@) == text_less(a@.skip(i as int), b@.skip(i as int)),
        decreases n - i,
    {
        proof {
            let x = a@.skip(i as int);
            let y = b@.skip(i as int);
            assert(x.drop_first() =~= a@.skip(i + 1));
            assert(y.drop_first() =~= b@.skip(i + 1));
        }
        i = i + 1;
    }
    proof {
        let x = a@.skip(i as int);
        let y = b@.skip(i as int);
        if i < n && i < m {
            assert(x[0] == a@[i as int]);
            assert(y[0] == b@[i as int]);
        }
    }
    if i == m {
        false
    } else if i == n {
        true
    } else {
        a.get_char(i) < b.get_char(i)
    }
}

fn key_less(a: &Diagnostic, b: &Diagnostic) -> (less: bool)
    ensures
        less == !diagnostic_key_le(*b, *a),
{
    if a.primary_span.start != b.primary_span.start {
        a.primary_span.start < b.primary_span.start
    } else if a.primary_span.end != b.primary_span.end {
        a.primary_span.end < b.primary_span.end
    } else {
        code_less(a.code.as_str(), b.code.as_str())
    }
}

/// Orders diagnostics by start, end, then code, keeping every diagnostic.
fn sort_diagnostics(diagnostics: Vec<Diagnostic>) -> (sorted: Vec<Diagnostic>)
    ensures
        sorted@.to_multiset() == diagnostics@.to_multiset(),
        sorted_by_location(sorted@),
        sorted@.len() == diagnostics@.len(),
{
    broadcast use vstd::seq_lib::group_to_multiset_ensures;
    let mut remaining = diagnostics;
    let mut sorted: Vec<Diagnostic> = Vec::new();
    while remaining.len() > 0
        invariant
            remaining@.to_multiset().add(sorted@.to_multiset()) == diagnostics@.to_multiset(),
            sorted_by_location(sorted@),
            forall|i: int, j: int|
                0 <= i < sorted@.len() && 0 <= j < remaining@.len() ==> diagnostic_key_le(
                    #[trigger] sorted@[i],
                    #[trigger] remaining@[j],
                ),
            sorted@.len() + remaining@.len() == diagnostics@.len(),
        decreases remaining@.len(),
    {
        let mut best: usize = 0;
        let mut k: usize = 1;
        proof {
            lemma_key_total(remaining@[0], remaining@[0]);
        }
        while k < remaining.len()
            invariant
                0 < remaining@.len(),
                best < k <= remaining@.len(),
                forall|j: int| 0 <= j < k ==> diagnostic_key_le(remaining@[best as int], #[trigger] remaining@[j]),
            decreases remaining@.len() - k,
        {
            proof {
                lemma_key_total(remaining@[best as int], remaining@[k as int]);
            }
            if key_less(&remaining[k], &remaining[best]) {
                proof {
                    assert forall|j: int| 0 <= j <= k implies diagnostic_key_le(
                        remaining@[k as int],
                        #[trigger] remaining@[j],
                    ) by {
                        if j < k {
                            lemma_key_transitive(remaining@[k as int], remaining@[best as int], remaining@[j]);
                        }
                        lemma_key_total(remaining@[k as int], remaining@[k as int]);
                    }
                }
                best = k;
            }
            k = k + 1;
        }
        let ghost before_remaining = remaining@;
        let ghost before_sorted = sorted@;
        let chosen = remaining.remove(best);
        proof {
            assert(before_remaining.remove(best as int) == remaining@);
            assert(chosen == before_remaining[best as int]);
        }
        sorted.push(chosen);
        proof {
            assert(sorted@ == before_sorted.push(chosen));
            before_remaining.to_multiset_ensures();
            before_sorted.to_multiset_ensures();
            assert(before_remaining.remove(best as int).to_multiset() == before_remaining.to_multiset().remove(before_remaining[best as int]));
            assert(remaining@.to_multiset() == before_remaining.to_multiset().remove(chosen));
            assert(sorted@.to_multiset() == before_sorted.to_multiset().insert(chosen));
            assert(before_remaining.to_multiset().count(chosen) > 0) by {
                assert(before_remaining.contains(chosen));
            }
            assert(remaining@.to_multiset().add(sorted@.to_multiset()) =~= diagnostics@.to_multiset());
            assert forall|i: int, j: int| 0 <= i < j < sorted@.len() implies diagnostic_key_le(
                #[trigger] sorted@[i],
                #[trigger] sorted@[j],
            ) by {
                if j == sorted@.len() - 1 {
                    assert(sorted@[j] == before_remaining[best as int]);
                    assert(diagnostic_key_le(before_sorted[i], before_remaining[best as int]));
                } else {
                    assert(sorted@[i] == before_sorted[i]);
                    assert(sorted@[j] == before_sorted[j]);
                }
            }
            assert forall|i: int, j: int|
                0 <= i < sorted@.len() && 0 <= j < remaining@.len() implies diagnostic_key_le(
                #[trigger] sorted@[i],
                #[trigger] remaining@[j],
            ) by {
                let jj = if j < best { j } else { j + 1 };
                assert(remaining@[j] == before_remaining[jj]);
                if i == sorted@.len() - 1 {
                    assert(diagnostic_key_le(before_remaining[best as int], before_remaining[jj]));
                } else {
                    assert(sorted@[i] == before_sorted[i]);
                }
            }
        }
    }
    proof {
        assert(remaining@.to_multiset() =~= vstd::multiset::Multiset::empty());
        assert(sorted@.to_multiset() =~= diagnostics@.to_multiset());
    }
    sorted
}

} // verus!
