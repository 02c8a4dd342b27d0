use vstd::prelude::*;
use vstd::string::*;
use vstd::utf8::*;

verus! {

broadcast use vstd::utf8::group_utf8_lib;

/// A half-open UTF-8 byte range with a one-based start line and column.
#[derive(Clone, Debug, PartialEq, Eq)]
pub struct Span {
    /// Logical source path used in diagnostics.
    pub file: String,
    /// Inclusive UTF-8 byte offset.
    pub start: usize,
    /// Exclusive UTF-8 byte offset.
    pub end: usize,
    /// One-based line containing `start`.
    pub line: usize,
    /// One-based Unicode scalar column containing `start`.
    pub column: usize,
}

/// Controlled failures while constructing a trusted source span.
#[derive(Clone, Copy, Debug, PartialEq, Eq, Structural)]
pub enum SpanError {
    /// The range is reversed or extends past the source.
    OutOfBounds,
    /// Either endpoint splits a UTF-8 code point.
    InvalidUtf8Boundary,
}

impl SpanError {
    /// The stable human-readable message of this failure.
    pub fn message(&self) -> (text: &'static str)
        ensures
            text@ == span_error_message(*self),
    {
        match self {
            SpanError::OutOfBounds => {
                proof { reveal_strlit("span offsets are outside the source"); }
                "span offsets are outside the source"
            }
            SpanError::InvalidUtf8Boundary => {
                proof { reveal_strlit("span offsets are not UTF-8 boundaries"); }
                "span offsets are not UTF-8 boundaries"
            }
        }
    }
}

/// The message text of each span failure.
pub open spec fn span_error_message(error: SpanError) -> Seq<char> {
    match error {
        SpanError::OutOfBounds => "span offsets are outside the source"@,
        SpanError::InvalidUtf8Boundary => "span offsets are not UTF-8 boundaries"@,
    }
}

/// The UTF-8 encoding of a text.
pub open spec fn utf8_of(text: Seq<char>) -> Seq<u8> {
    encode_utf8(text)
}

/// Texts whose UTF-8 length leaves room for one more position in a `usize`.
pub open spec fn fits_in_memory(text: Seq<char>) -> bool {
    utf8_of(text).len() < usize::MAX
}

/// Number of newline bytes in `bytes`.
pub open spec fn newline_count(bytes: Seq<u8>) -> nat
    decreases bytes.len(),
{
    if bytes.len() == 0 {
        0
    } else {
        newline_count(bytes.drop_last()) + if bytes.last() == 10u8 { 1nat } else { 0nat }
    }
}

/// Offset just after the last newline byte of `bytes`, or zero without one.
pub open spec fn line_start(bytes: Seq<u8>) -> int
    decreases bytes.len(),
{
    if bytes.len() == 0 {
        0
    } else if bytes.last() == 10u8 {
        bytes.len() as int
    } else {
        line_start(bytes.drop_last())
    }
}

/// Number of Unicode scalars encoded by well-formed UTF-8 `bytes`: each scalar
/// has exactly one byte that is not a continuation byte.
pub open spec fn scalar_count(bytes: Seq<u8>) -> nat
    decreases bytes.len(),
{
    if bytes.len() == 0 {
        0
    } else {
        scalar_count(bytes.drop_last()) + if is_continuation_byte(bytes.last()) {
            0nat
        } else {
            1nat
        }
    }
}

/// One-based line of the byte offset `offset` in `bytes`.
pub open spec fn line_of(bytes: Seq<u8>, offset: int) -> nat {
    newline_count(bytes.take(offset)) + 1
}

/// One-based column, in scalars, of the byte offset `offset` in `bytes`.
pub open spec fn column_of(bytes: Seq<u8>, offset: int) -> nat {
    scalar_count(bytes.subrange(line_start(bytes.take(offset)), offset)) + 1
}

/// The outcome of validating a byte range of `source` for a span.
pub open spec fn span_check(source: Seq<char>, start: int, end: int) -> Result<(), SpanError> {
    let bytes = utf8_of(source);
    if start > end || end > bytes.len() {
        Err(SpanError::OutOfBounds)
    } else if !is_char_boundary(bytes, start) || !is_char_boundary(bytes, end) {
        Err(SpanError::InvalidUtf8Boundary)
    } else {
        Ok(())
    }
}

/// The span that `file` and the byte range `start..end` of `source` describe.
pub open spec fn span_matches(span: Span, file: Seq<char>, source: Seq<char>, start: int, end: int) -> bool {
    &&& span.file@ == file
    &&& span.start == start
    &&& span.end == end
    &&& span.line == line_of(utf8_of(source), start)
    &&& span.column == column_of(utf8_of(source), start)
}

proof fn lemma_newline_step(bytes: Seq<u8>, i: int)
    requires
        0 <= i < bytes.len(),
    ensures
        newline_count(bytes.take(i + 1)) == newline_count(bytes.take(i)) + if bytes[i] == 10u8 {
            1nat
        } else {
            0nat
        },
        line_start(bytes.take(i + 1)) == if bytes[i] == 10u8 {
            i + 1
        } else {
            line_start(bytes.take(i))
        },
        newline_count(bytes.take(i)) <= i,
        0 <= line_start(bytes.take(i)) <= i,
    decreases i,
{
    assert(bytes.take(i + 1).drop_last() =~= bytes.take(i));
    if i > 0 {
        lemma_newline_step(bytes, i - 1);
    }
}

proof fn lemma_scalar_step(bytes: Seq<u8>, from: int, i: int)
    requires
        0 <= from <= i < bytes.len(),
    ensures
        scalar_count(bytes.subrange(from, i + 1)) == scalar_count(bytes.subrange(from, i))
            + if is_continuation_byte(bytes[i]) {
            0nat
        } else {
            1nat
        },
        scalar_count(bytes.subrange(from, i)) <= i - from,
    decreases i - from,
{
    assert(bytes.subrange(from, i + 1).drop_last() =~= bytes.subrange(from, i));
    if i > from {
        lemma_scalar_step(bytes, from, i - 1);
    }
}

impl Span {
    /// A copy of this span.
    pub fn duplicate(&self) -> (copy: Span)
        ensures
            copy == *self,
    {
        Span {
            file: self.file.clone(),
            start: self.start,
            end: self.end,
            line: self.line,
            column: self.column,
        }
    }

    /// Constructs a span after validating its byte range and computing location.
    ///
    /// The returned line and column are one-based. The method never rounds an
    /// invalid byte offset, because doing so would make diagnostics point at a
    /// different token than the parser observed.
    pub fn from_offsets(file: &str, source: &str, start: usize, end: usize) -> (result: Result<
        Span,
        SpanError,
    >)
        requires
            fits_in_memory(source@),
        ensures
            span_check(source@, start as int, end as int) matches Err(error) ==> result == Err::<
                Span,
                SpanError,
            >(error),
            span_check(source@, start as int, end as int) is Ok ==> (result matches Ok(span)
                && span_matches(span, file@, source@, start as int, end as int)),
    {
        let bytes = source.as_bytes();
        let ghost b = bytes@;
        assert(b == utf8_of(source@));
        if start > end || end > bytes.len() {
            return Err(SpanError::OutOfBounds);
        }
        if !source.is_char_boundary(start) || !source.is_char_boundary(end) {
            return Err(SpanError::InvalidUtf8Boundary);
        }
        let mut newlines: usize = 0;
        let mut line_begin: usize = 0;
        let mut i: usize = 0;
        while i < start
            invariant
                b == bytes@,
                start <= b.len(),
                b.len() < usize::MAX,
                i <= start,
                newlines == newline_count(b.take(i as int)),
                line_begin == line_start(b.take(i as int)),
            decreases start - i,
        {
            proof {
                lemma_newline_step(b, i as int);
            }
            if bytes[i] == 10u8 {
                newlines = newlines + 1;
                line_begin = i + 1;
            }
            i = i + 1;
        }
        proof {
            if start > 0 {
                lemma_newline_step(b, start - 1);
            }
            assert(b.take(0) =~= Seq::<u8>::empty());
        }
        let mut scalars: usize = 0;
        let mut j: usize = line_begin;
        while j < start
            invariant
                b == bytes@,
                start <= b.len(),
                b.len() < usize::MAX,
                line_begin <= j <= start,
                scalars == scalar_count(b.subrange(line_begin as int, j as int)),
            decreases start - j,
        {
            proof {
                lemma_scalar_step(b, line_begin as int, j as int);
            }
            if !(bytes[j] >= 0x80u8 && bytes[j] <= 0xbfu8) {
                scalars = scalars + 1;
            }
            j = j + 1;
        }
        proof {
            assert(b.subrange(line_begin as int, line_begin as int) =~= Seq::<u8>::empty());
            if start > line_begin {
                lemma_scalar_step(b, line_begin as int, start - 1);
            }
        }
        Ok(Span {
            file: file.to_owned(),
            start,
            end,
            line: newlines + 1,
            column: scalars + 1,
        })
    }
}

} // verus!
