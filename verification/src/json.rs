use vstd::prelude::*;

verus! {

/// The text serde_json decodes from a complete JSON string literal (quotes
/// included), or `None` where serde_json rejects the literal.
pub uninterp spec fn json_string_value(literal: Seq<char>) -> Option<Seq<char>>;

/// Decodes one JSON string literal (`serde_json::from_str::<String>`).
///
/// The contract claims only that the result is serde_json's decoding of
/// `literal`, named by `json_string_value`: a deterministic function of it.
#[verifier::external_body]
pub fn decode_json_string(literal: &str) -> (value: Option<String>)
    ensures
        match value {
            Some(v) => json_string_value(literal@) == Some(v@),
            None => json_string_value(literal@) is None,
        },
{
    serde_json::from_str::<String>(literal).ok()
}

/// The lower-case hexadecimal digit of a value below sixteen.
pub open spec fn hex_digit(d: u32) -> char {
    if d < 10 {
        ((d + 48) as u8) as char
    } else {
        ((d + 87) as u8) as char
    }
}

/// serde_json's escape of one character inside a string literal.
pub open spec fn json_char_escape(c: char) -> Seq<char> {
    if c == '"' {
        seq!['\\', '"']
    } else if c == '\\' {
        seq!['\\', '\\']
    } else if c == '\u{8}' {
        seq!['\\', 'b']
    } else if c == '\t' {
        seq!['\\', 't']
    } else if c == '\n' {
        seq!['\\', 'n']
    } else if c == '\u{c}' {
        seq!['\\', 'f']
    } else if c == '\r' {
        seq!['\\', 'r']
    } else if (c as u32) < 0x20 {
        seq!['\\', 'u', '0', '0', hex_digit((c as u32) / 16), hex_digit((c as u32) % 16)]
    } else {
        seq![c]
    }
}

/// serde_json's escaped contents of a string.
pub open spec fn json_escape(text: Seq<char>) -> Seq<char>
    decreases text.len(),
{
    if text.len() == 0 {
        Seq::empty()
    } else {
        json_escape(text.drop_last()) + json_char_escape(text.last())
    }
}

/// serde_json's encoding of a string as a JSON string literal.
pub open spec fn json_quoted(text: Seq<char>) -> Seq<char> {
    seq!['"'] + json_escape(text) + seq!['"']
}

/// Encodes a string as a JSON string literal (`serde_json::to_string`).
///
/// The contract claims serde_json's escaping table for strings: `"` and `\`
/// escaped with a backslash, the short escapes for backspace, tab, newline,
/// form feed and carriage return, `\u00xx` (lower-case hex) for the other
/// control characters below U+0020, every other character verbatim, all
/// between double quotes; and that serializing a string into memory does not
/// fail.
#[verifier::external_body]
pub fn encode_json_string(value: &str) -> (encoded: Option<String>)
    ensures
        encoded is Some,
        match encoded {
            Some(e) => e@ == json_quoted(value@),
            None => true,
        },
{
    serde_json::to_string(value).ok()
}

} // verus!
