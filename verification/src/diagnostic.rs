use vstd::prelude::*;
use vstd::string::*;
use vstd::utf8::*;

use crate::registry::DiagnosticCode;
use crate::span::{Span, utf8_of, fits_in_memory};
use crate::text::{decimal, lemma_after_ascii_is_boundary, push_char, push_decimal, push_str, substring};

verus! {

broadcast use vstd::utf8::group_utf8_lib;

/// Diagnostic severity. ASTER 0.1 currently emits errors only, while the
/// serialized enum reserves warning support without changing the schema.
#[derive(Clone, Copy, Debug, PartialEq, Eq, Structural)]
pub enum Severity {
    /// Compilation or runtime cannot continue safely.
    Error,
    /// Non-fatal guidance.
    Warning,
}

/// A stable diagnostic safe to render as JSON or human-readable text.
#[derive(Clone, Debug)]
pub struct Diagnostic {
    /// Stable registry code.
    pub code: DiagnosticCode,
    /// Severity of the report.
    pub severity: Severity,
    /// Secret-free summary.
    pub message: String,
    /// Primary source range.
    pub primary_span: Span,
    /// Ordered labels attached to the primary context.
    pub labels: Vec<String>,
    /// Ordered explanatory notes.
    pub notes: Vec<String>,
    /// Optional actionable remediation.
    pub help: Option<String>,
}

/// Smallest index at or after `from` holding a newline byte, or the length.
pub open spec fn next_newline(bytes: Seq<u8>, from: int) -> int
    decreases bytes.len() - from,
{
    if from >= bytes.len() {
        bytes.len() as int
    } else if bytes[from] == 10u8 {
        from
    } else {
        next_newline(bytes, from + 1)
    }
}

/// Byte offset at which zero-based line `k` begins; at least the length when
/// the text has fewer lines.
pub open spec fn line_begin(bytes: Seq<u8>, k: nat) -> int
    decreases k,
{
    if k == 0 {
        0
    } else {
        let previous = line_begin(bytes, (k - 1) as nat);
        if previous >= bytes.len() {
            bytes.len() + 1int
        } else {
            next_newline(bytes, previous) + 1
        }
    }
}

/// Zero-based line `k` of the text as `str::lines` yields it: without its
/// `\n` or `\r\n` terminator, or `None` past the last line.
pub open spec fn nth_line(bytes: Seq<u8>, k: nat) -> Option<Seq<u8>> {
    let begin = line_begin(bytes, k);
    if begin >= bytes.len() {
        None
    } else {
        let end = next_newline(bytes, begin);
        if end < bytes.len() && end > begin && bytes[end - 1] == 13u8 {
            Some(bytes.subrange(begin, end - 1))
        } else {
            Some(bytes.subrange(begin, end))
        }
    }
}

/// One-based line `line` of `source`, or the empty text when absent.
pub open spec fn source_line(source: Seq<char>, line: nat) -> Seq<char> {
    let index = if line == 0 { 0nat } else { (line - 1) as nat };
    match nth_line(utf8_of(source), index) {
        Some(bytes) => decode_utf8(bytes),
        None => Seq::empty(),
    }
}

/// `prefix` + item + newline for each item, in order.
pub open spec fn tagged_lines(prefix: Seq<char>, items: Seq<Seq<char>>) -> Seq<char>
    decreases items.len(),
{
    if items.len() == 0 {
        Seq::empty()
    } else {
        tagged_lines(prefix, items.drop_last()) + prefix + items.last() + seq!['\n']
    }
}

/// Views of a list of strings.
pub open spec fn texts(items: Seq<String>) -> Seq<Seq<char>> {
    items.map_values(|s: String| s@)
}

/// Lower-case severity word.
pub open spec fn severity_word(severity: Severity) -> Seq<char> {
    match severity {
        Severity::Error => "error"@,
        Severity::Warning => "warning"@,
    }
}

/// The deterministic human rendering of a diagnostic against its source.
pub open spec fn rendering(d: Diagnostic, source: Seq<char>) -> Seq<char> {
    severity_word(d.severity) + "["@ + d.code@ + "]: "@ + d.message@ + "\n --> "@
        + d.primary_span.file@ + ":"@ + decimal(d.primary_span.line as nat) + ":"@ + decimal(
        d.primary_span.column as nat,
    ) + "\n"@ + decimal(d.primary_span.line as nat) + " | "@ + source_line(
        source,
        d.primary_span.line as nat,
    ) + "\n"@ + tagged_lines("label: "@, texts(d.labels@)) + tagged_lines(
        "note: "@,
        texts(d.notes@),
    ) + match d.help {
        Some(help) => "help: "@ + help@ + "\n"@,
        None => Seq::empty(),
    }
}

proof fn lemma_next_newline_bounds(bytes: Seq<u8>, from: int)
    requires
        0 <= from,
    ensures
        from <= next_newline(bytes, from) || from > bytes.len(),
        next_newline(bytes, from) <= bytes.len(),
        next_newline(bytes, from) < bytes.len() ==> bytes[next_newline(bytes, from)] == 10u8,
        forall|i: int| from <= i < next_newline(bytes, from) ==> bytes[i] != 10u8,
    decreases bytes.len() - from,
{
    if from < bytes.len() && bytes[from] != 10u8 {
        lemma_next_newline_bounds(bytes, from + 1);
    }
}

proof fn lemma_line_begin_past_end(bytes: Seq<u8>, k: nat, m: nat)
    requires
        k <= m,
        line_begin(bytes, k) >= bytes.len(),
    ensures
        line_begin(bytes, m) >= bytes.len(),
    decreases m - k,
{
    if k < m {
        lemma_line_begin_past_end(bytes, k, (m - 1) as nat);
    }
}

fn find_newline(bytes: &[u8], from: usize) -> (index: usize)
    requires
        from <= bytes@.len(),
    ensures
        index == next_newline(bytes@, from as int),
    decreases bytes@.len() - from,
{
    let mut i = from;
    while i < bytes.len() && bytes[i] != 10u8
        invariant
            from <= i <= bytes@.len(),
            next_newline(bytes@, i as int) == next_newline(bytes@, from as int),
        decreases bytes@.len() - i,
    {
        i = i + 1;
    }
    i
}

/// The one-based source line `line` of `source` (empty when absent).
fn line_excerpt(source: &str, line: usize) -> (excerpt: String)
    requires
        fits_in_memory(source@),
    ensures
        excerpt@ == source_line(source@, line as nat),
{
    let bytes = source.as_bytes();
    let ghost b = bytes@;
    let target: usize = if line == 0 { 0 } else { line - 1 };
    let mut begin: usize = 0;
    let mut k: usize = 0;
    while k < target && begin < bytes.len()
        invariant
            b == bytes@,
            b == utf8_of(source@),
            b.len() < usize::MAX,
            k <= target,
            begin == line_begin(b, k as nat),
            begin <= b.len() + 1,
            0 < begin <= b.len() ==> b[begin - 1] == 10u8,
        decreases target - k,
    {
        proof {
            lemma_next_newline_bounds(b, begin as int);
        }
        let newline = find_newline(bytes, begin);
        begin = newline + 1;
        k = k + 1;
    }
    if begin >= bytes.len() {
        proof {
            lemma_line_begin_past_end(b, k as nat, target as nat);
        }
        return String::new();
    }
    assert(k == target);
    proof {
        lemma_next_newline_bounds(b, begin as int);
        if begin > 0 {
            // The line begins right after a newline byte.
            lemma_after_ascii_is_boundary(b, begin - 1);
        }
    }
    let newline = find_newline(bytes, begin);
    let end = if newline < bytes.len() && newline > begin && bytes[newline - 1] == 13u8 {
        newline - 1
    } else {
        newline
    };
    proof {
        if newline < b.len() {
            lemma_after_ascii_is_boundary(b, newline as int);
            assert(is_char_boundary(b, newline as int)) by {
                assert(!is_continuation_byte(b[newline as int]));
            }
            if end < newline {
                assert(!is_continuation_byte(b[end as int]));
            }
        }
    }
    substring(source, begin, end)
}

fn push_tagged_lines(out: &mut String, prefix: &str, items: &Vec<String>)
    ensures
        final(out)@ == old(out)@ + tagged_lines(prefix@, texts(items@)),
{
    let mut i: usize = 0;
    while i < items.len()
        invariant
            i <= items@.len(),
            out@ == old(out)@ + tagged_lines(prefix@, texts(items@.take(i as int))),
        decreases items@.len() - i,
    {
        proof {
            assert(items@.take(i + 1).drop_last() =~= items@.take(i as int));
            assert(texts(items@.take(i + 1)).drop_last() =~= texts(items@.take(i as int)));
        }
        push_str(out, prefix);
        push_str(out, items[i].as_str());
        push_char(out, '\n');
        proof {
            assert(texts(items@.take(i + 1)).last() == items@[i as int]@);
            assert(out@ =~= old(out)@ + tagged_lines(prefix@, texts(items@.take(i + 1))));
        }
        i = i + 1;
    }
    assert(items@.take(items@.len() as int) =~= items@);
}

impl Diagnostic {
    /// Constructs an error diagnostic without secondary context.
    pub fn error(code: DiagnosticCode, message: &str, primary_span: Span) -> (d: Diagnostic)
        ensures
            d.code == code,
            d.severity == Severity::Error,
            d.message@ == message@,
            d.primary_span == primary_span,
            d.labels@.len() == 0,
            d.notes@.len() == 0,
            d.help is None,
    {
        Diagnostic {
            code,
            severity: Severity::Error,
            message: message.to_owned(),
            primary_span,
            labels: Vec::new(),
            notes: Vec::new(),
            help: None,
        }
    }

    /// Appends a label while preserving source order.
    pub fn with_label(self, label: &str) -> (d: Diagnostic)
        ensures
            d.code == self.code,
            d.severity == self.severity,
            d.message == self.message,
            d.primary_span == self.primary_span,
            texts(d.labels@) == texts(self.labels@).push(label@),
            d.notes == self.notes,
            d.help == self.help,
    {
        let mut d = self;
        d.labels.push(label.to_owned());
        proof {
            assert(texts(d.labels@) =~= texts(self.labels@).push(label@));
        }
        d
    }

    /// Appends a note while preserving source order.
    pub fn with_note(self, note: &str) -> (d: Diagnostic)
        ensures
            d.code == self.code,
            d.severity == self.severity,
            d.message == self.message,
            d.primary_span == self.primary_span,
            d.labels == self.labels,
            texts(d.notes@) == texts(self.notes@).push(note@),
            d.help == self.help,
    {
        let mut d = self;
        d.notes.push(note.to_owned());
        proof {
            assert(texts(d.notes@) =~= texts(self.notes@).push(note@));
        }
        d
    }

    /// Sets actionable remediation text.
    pub fn with_help(self, help: &str) -> (d: Diagnostic)
        ensures
            d.code == self.code,
            d.severity == self.severity,
            d.message == self.message,
            d.primary_span == self.primary_span,
            d.labels == self.labels,
            d.notes == self.notes,
            d.help matches Some(h) && h@ == help@,
    {
        let mut d = self;
        d.help = Some(help.to_owned());
        d
    }

    /// Renders a deterministic source excerpt without reading the filesystem.
    pub fn render_human(&self, source: &str) -> (rendered: String)
        requires
            fits_in_memory(source@),
        ensures
            rendered@ == rendering(*self, source@),
    {
        let mut out = String::new();
        match self.severity {
            Severity::Error => {
                proof { reveal_strlit("error"); }
                push_str(&mut out, "error");
            }
            Severity::Warning => {
                proof { reveal_strlit("warning"); }
                push_str(&mut out, "warning");
            }
        }
        push_str(&mut out, "[");
        push_str(&mut out, self.code.as_str());
        push_str(&mut out, "]: ");
        push_str(&mut out, self.message.as_str());
        push_str(&mut out, "\n --> ");
        push_str(&mut out, self.primary_span.file.as_str());
        push_str(&mut out, ":");
        push_decimal(&mut out, self.primary_span.line as u64);
        push_str(&mut out, ":");
        push_decimal(&mut out, self.primary_span.column as u64);
        push_str(&mut out, "\n");
        push_decimal(&mut out, self.primary_span.line as u64);
        push_str(&mut out, " | ");
        let excerpt = line_excerpt(source, self.primary_span.line);
        push_str(&mut out, excerpt.as_str());
        push_str(&mut out, "\n");
        push_tagged_lines(&mut out, "label: ", &self.labels);
        push_tagged_lines(&mut out, "note: ", &self.notes);
        match &self.help {
            Some(help) => {
                push_str(&mut out, "help: ");
                push_str(&mut out, help.as_str());
                push_str(&mut out, "\n");
            }
            None => {}
        }
        proof {
            assert(out@ =~= rendering(*self, source@));
        }
        out
    }
}

} // verus!
