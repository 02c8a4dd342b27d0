use vstd::prelude::*;
use vstd::string::*;
use vstd::utf8::*;

use crate::span::utf8_of;

verus! {

broadcast use vstd::utf8::group_utf8_lib;

proof fn lemma_ascii_boundary_step(bytes: Seq<u8>, i: int)
    requires
        valid_utf8(bytes),
        0 <= i < bytes.len(),
        is_char_boundary(bytes, i),
        bytes[i] < 0x80,
    ensures
        is_char_boundary(bytes, i + 1),
    decreases bytes.len(),
{
    reveal_with_fuel(is_char_boundary, 2);
    if i == 0 {
        assert(length_of_first_scalar(bytes) == 1);
        assert(is_char_boundary(pop_first_scalar(bytes), 0));
    } else {
        let rest = pop_first_scalar(bytes);
        let len = length_of_first_scalar(bytes);
        assert(valid_utf8(rest));
        assert(rest.len() < bytes.len());
        assert(is_char_boundary(rest, i - len));
        assert(i - len >= 0) by {
            if i - len < 0 {
                assert(!is_char_boundary(rest, i - len));
            }
        }
        assert(rest[i - len] == bytes[i]);
        lemma_ascii_boundary_step(rest, i - len);
    }
}

/// In well-formed UTF-8, the position right after an ASCII byte is a
/// character boundary.
pub proof fn lemma_after_ascii_is_boundary(bytes: Seq<u8>, i: int)
    requires
        valid_utf8(bytes),
        0 <= i < bytes.len(),
        bytes[i] < 0x80,
    ensures
        is_char_boundary(bytes, i + 1),
{
    assert(!is_continuation_byte(bytes[i]));
    assert(is_char_boundary(bytes, i));
    lemma_ascii_boundary_step(bytes, i);
}

/// Appends one character to a string (std `String::push`).
#[verifier::external_body]
pub fn push_char(text: &mut String, c: char)
    ensures
        final(text)@ == old(text)@.push(c),
{
    text.push(c);
}

/// The decimal digit character for a value below ten.
pub open spec fn digit_char(d: nat) -> char {
    if d == 0 {
        '0'
    } else if d == 1 {
        '1'
    } else if d == 2 {
        '2'
    } else if d == 3 {
        '3'
    } else if d == 4 {
        '4'
    } else if d == 5 {
        '5'
    } else if d == 6 {
        '6'
    } else if d == 7 {
        '7'
    } else if d == 8 {
        '8'
    } else {
        '9'
    }
}

/// Shortest decimal spelling of a natural number.
pub open spec fn decimal(n: nat) -> Seq<char>
    decreases n,
{
    if n < 10 {
        seq![digit_char(n)]
    } else {
        decimal(n / 10) + seq![digit_char(n % 10)]
    }
}

/// Decimal spelling of an integer, with a leading `-` when negative.
pub open spec fn signed_decimal(n: int) -> Seq<char> {
    if n < 0 {
        seq!['-'] + decimal((-n) as nat)
    } else {
        decimal(n as nat)
    }
}

fn digit(d: u64) -> (c: char)
    requires
        d < 10,
    ensures
        c == digit_char(d as nat),
{
    if d == 0 {
        '0'
    } else if d == 1 {
        '1'
    } else if d == 2 {
        '2'
    } else if d == 3 {
        '3'
    } else if d == 4 {
        '4'
    } else if d == 5 {
        '5'
    } else if d == 6 {
        '6'
    } else if d == 7 {
        '7'
    } else if d == 8 {
        '8'
    } else {
        '9'
    }
}

/// Appends the decimal spelling of `n`.
pub fn push_decimal(out: &mut String, n: u64)
    ensures
        final(out)@ == old(out)@ + decimal(n as nat),
    decreases n,
{
    if n >= 10 {
        push_decimal(out, n / 10);
    }
    push_char(out, digit(n % 10));
    proof {
        if n >= 10 {
            assert(old(out)@ + decimal((n / 10) as nat) + seq![digit_char((n % 10) as nat)]
                =~= old(out)@ + decimal(n as nat));
        } else {
            assert(old(out)@.push(digit_char((n % 10) as nat)) =~= old(out)@ + decimal(n as nat));
        }
    }
}

/// Appends the signed decimal spelling of `n`.
pub fn push_signed_decimal(out: &mut String, n: i64)
    ensures
        final(out)@ == old(out)@ + signed_decimal(n as int),
{
    if n < 0 {
        push_char(out, '-');
        let magnitude: u64 = if n == i64::MIN {
            9223372036854775808u64
        } else {
            (-n) as u64
        };
        push_decimal(out, magnitude);
        assert(old(out)@.push('-') + decimal(magnitude as nat) =~= old(out)@ + signed_decimal(
            n as int,
        ));
    } else {
        push_decimal(out, n as u64);
    }
}

/// Decimal text of an unsigned count.
pub fn usize_text(n: usize) -> (text: String)
    ensures
        text@ == decimal(n as nat),
{
    let mut out = String::new();
    push_decimal(&mut out, n as u64);
    assert(Seq::<char>::empty() + decimal(n as nat) =~= decimal(n as nat));
    out
}

/// Appends a string slice.
pub fn push_str(out: &mut String, text: &str)
    ensures
        final(out)@ == old(out)@ + text@,
{
    out.append(text);
}

/// Equality of two string slices as character sequences.
pub fn str_equal(a: &str, b: &str) -> (equal: bool)
    ensures
        equal == (a@ == b@),
{
    let x = a.as_bytes();
    let y = b.as_bytes();
    proof {
        assert(decode_utf8(utf8_of(a@)) == a@);
        assert(decode_utf8(utf8_of(b@)) == b@);
    }
    if x.len() != y.len() {
        return false;
    }
    let mut i: usize = 0;
    while i < x.len()
        invariant
            x@ == utf8_of(a@),
            y@ == utf8_of(b@),
            x@.len() == y@.len(),
            i <= x@.len(),
            forall|k: int| 0 <= k < i ==> x@[k] == y@[k],
        decreases x@.len() - i,
    {
        if x[i] != y[i] {
            return false;
        }
        i = i + 1;
    }
    assert(x@ =~= y@);
    true
}

/// Equality of a string and a string slice as character sequences.
pub fn string_equals(a: &String, b: &str) -> (equal: bool)
    ensures
        equal == (a@ == b@),
{
    str_equal(a.as_str(), b)
}

/// Copy of the UTF-8 byte range `start..end` of `text` as a string.
pub fn substring(text: &str, start: usize, end: usize) -> (piece: String)
    requires
        start <= end <= utf8_of(text@).len(),
        is_char_boundary(utf8_of(text@), start as int),
        is_char_boundary(utf8_of(text@), end as int),
    ensures
        utf8_of(piece@) == utf8_of(text@).subrange(start as int, end as int),
        piece@ == decode_utf8(utf8_of(text@).subrange(start as int, end as int)),
{
    let (head, _) = text.split_at(end);
    proof {
        let b = utf8_of(text@);
        assert(head.spec_bytes() =~= b.subrange(0, end as int));
        assert(valid_utf8(head.spec_bytes()));
        if start < end {
            assert(!is_continuation_byte(b[start as int]));
            assert(head.spec_bytes()[start as int] == b[start as int]);
            assert(!is_continuation_byte(head.spec_bytes()[start as int]));
        } else {
            assert(is_char_boundary(head.spec_bytes(), head.spec_bytes().len() as int));
        }
        assert(is_char_boundary(head.spec_bytes(), start as int));
    }
    let (_, piece) = head.split_at(start);
    let owned = piece.to_owned();
    proof {
        let b = utf8_of(text@);
        assert(piece.spec_bytes() =~= b.subrange(start as int, end as int));
        assert(decode_utf8(utf8_of(piece@)) == piece@);
    }
    owned
}


/// UTF-8 encoding distributes over concatenation.
pub proof fn lemma_encode_concat(a: Seq<char>, b: Seq<char>)
    ensures
        encode_utf8(a + b) == encode_utf8(a) + encode_utf8(b),
    decreases a.len(),
{
    if a.len() == 0 {
        assert(a + b =~= b);
        assert(encode_utf8(a) + encode_utf8(b) =~= encode_utf8(b));
    } else {
        assert((a + b).drop_first() =~= a.drop_first() + b);
        assert((a + b)[0] == a[0]);
        lemma_encode_concat(a.drop_first(), b);
        assert(encode_utf8(a + b) =~= encode_utf8(a) + encode_utf8(b));
    }
}

proof fn lemma_scalar_last_byte(c: char)
    ensures
        encode_scalar(c as u32).len() >= 1,
        (encode_scalar(c as u32).last() == 10u8) == (c == '\n'),
        c == '\n' ==> encode_scalar(c as u32) == seq![10u8],
{
    let v = c as u32;
    char_is_scalar(c);
    if has_width_1_encoding(v) {
        assert(encode_scalar(v) == seq![leading_byte_width_1(v)]);
        assert((v & 0x7F) as u8 == v as u8 && (v as u8 == 10u8) == (v == 10u32)) by (bit_vector)
            requires
                v <= 0x7F,
        ;
        if v == 10 {
            char_u32_cast(c, v);
            assert(c == (10u32 as char));
        }
    } else {
        let low = v & 0x3F;
        assert((0x80u8 | (low as u8)) >= 0x80u8) by (bit_vector);
        assert(last_continuation_byte(v) >= 0x80u8) by (bit_vector);
        assert(encode_scalar(v).last() == last_continuation_byte(v));
        assert(c != '\n');
    }
}

proof fn lemma_encode_split_last(s: Seq<char>)
    requires
        s.len() > 0,
    ensures
        encode_utf8(s) == encode_utf8(s.drop_last()) + encode_scalar(s.last() as u32),
{
    assert(s =~= s.drop_last() + seq![s.last()]);
    lemma_encode_concat(s.drop_last(), seq![s.last()]);
    let one = seq![s.last()];
    assert(one.drop_first() =~= Seq::<char>::empty());
    assert(one[0] == s.last());
    assert(encode_utf8(one.drop_first()) == Seq::<u8>::empty());
    assert(encode_utf8(one) == encode_scalar(one[0] as u32) + encode_utf8(one.drop_first()));
    assert(encode_utf8(one) =~= encode_scalar(s.last() as u32));
}

/// A text ends with a newline exactly when its UTF-8 encoding ends with byte 10.
pub proof fn lemma_newline_suffix_bytes(s: Seq<char>)
    ensures
        (encode_utf8(s).len() > 0 && encode_utf8(s).last() == 10u8) == (s.len() > 0 && s.last()
            == '\n'),
        encode_utf8(s).len() == 0 <==> s.len() == 0,
{
    if s.len() > 0 {
        lemma_encode_split_last(s);
        lemma_scalar_last_byte(s.last());
    }
}

/// A text ends with two newlines exactly when its UTF-8 encoding ends with two bytes 10.
pub proof fn lemma_blank_suffix_bytes(s: Seq<char>)
    ensures
        ({
            let b = encode_utf8(s);
            b.len() >= 2 && b[b.len() - 1] == 10u8 && b[b.len() - 2] == 10u8
        }) == (s.len() >= 2 && s[s.len() - 1] == '\n' && s[s.len() - 2] == '\n'),
{
    lemma_newline_suffix_bytes(s);
    if s.len() > 0 {
        lemma_encode_split_last(s);
        lemma_scalar_last_byte(s.last());
        let d = s.drop_last();
        lemma_newline_suffix_bytes(d);
        if s.last() == '\n' {
            let b = encode_utf8(s);
            assert(b == encode_utf8(d) + seq![10u8]);
            if b.len() >= 2 {
                assert(b[b.len() - 2] == encode_utf8(d).last());
            }
            if d.len() > 0 {
                assert(d.last() == s[s.len() - 2]);
            }
        }
    }
}

/// Whether a text ends with a newline.
pub fn ends_with_newline(text: &str) -> (ends: bool)
    ensures
        ends == (text@.len() > 0 && text@.last() == '\n'),
{
    proof {
        lemma_newline_suffix_bytes(text@);
    }
    let bytes = text.as_bytes();
    let n = bytes.len();
    n > 0 && bytes[n - 1] == 10u8
}

/// Whether a text ends with two newlines.
pub fn ends_with_blank_line(text: &str) -> (ends: bool)
    ensures
        ends == (text@.len() >= 2 && text@[text@.len() - 1] == '\n' && text@[text@.len() - 2]
            == '\n'),
{
    proof {
        lemma_blank_suffix_bytes(text@);
    }
    let bytes = text.as_bytes();
    let n = bytes.len();
    n >= 2 && bytes[n - 1] == 10u8 && bytes[n - 2] == 10u8
}


/// Byte-wise lexicographic order, the order of Rust's `str` comparison.
pub open spec fn bytes_less(a: Seq<u8>, b: Seq<u8>) -> bool
    decreases a.len(),
{
    if a.len() == 0 {
        b.len() > 0
    } else if b.len() == 0 {
        false
    } else if a[0] != b[0] {
        a[0] < b[0]
    } else {
        bytes_less(a.drop_first(), b.drop_first())
    }
}

/// Whether `a` sorts before `b` by their UTF-8 bytes.
pub fn str_less(a: &str, b: &str) -> (less: bool)
    ensures
        less == bytes_less(utf8_of(a@), utf8_of(b@)),
{
    let x = a.as_bytes();
    let y = b.as_bytes();
    let ghost xs = x@;
    let ghost ys = y@;
    let mut i: usize = 0;
    proof {
        assert(xs.skip(0) =~= xs);
        assert(ys.skip(0) =~= ys);
    }
    loop
        invariant
            xs == x@,
            ys == y@,
            xs == utf8_of(a@),
            ys == utf8_of(b@),
            i <= xs.len(),
            i <= ys.len(),
            bytes_less(xs, ys) == bytes_less(xs.skip(i as int), ys.skip(i as int)),
        decreases xs.len() - i,
    {
        if i == x.len() {
            return i < y.len();
        }
        if i == y.len() {
            return false;
        }
        if x[i] != y[i] {
            return x[i] < y[i];
        }
        proof {
            assert(xs.skip(i as int).drop_first() =~= xs.skip(i + 1));
            assert(ys.skip(i as int).drop_first() =~= ys.skip(i + 1));
        }
        i = i + 1;
    }
}


/// Byte order is irreflexive.
pub proof fn lemma_bytes_less_irreflexive(a: Seq<u8>)
    ensures
        !bytes_less(a, a),
    decreases a.len(),
{
    if a.len() > 0 {
        lemma_bytes_less_irreflexive(a.drop_first());
    }
}

/// Byte order is transitive.
pub proof fn lemma_bytes_less_transitive(a: Seq<u8>, b: Seq<u8>, c: Seq<u8>)
    requires
        bytes_less(a, b),
        bytes_less(b, c),
    ensures
        bytes_less(a, c),
    decreases a.len(),
{
    if a.len() > 0 && b.len() > 0 && c.len() > 0 && a[0] == b[0] && b[0] == c[0] {
        lemma_bytes_less_transitive(a.drop_first(), b.drop_first(), c.drop_first());
    }
}

/// Byte order is total on distinct byte strings.
pub proof fn lemma_bytes_less_total(a: Seq<u8>, b: Seq<u8>)
    requires
        a != b,
    ensures
        bytes_less(a, b) || bytes_less(b, a),
    decreases a.len(),
{
    if a.len() == 0 {
        assert(b.len() > 0) by {
            if b.len() == 0 {
                assert(a =~= b);
            }
        }
    } else if b.len() > 0 && a[0] == b[0] {
        if a.drop_first() == b.drop_first() {
            assert(a.drop_first().len() == b.drop_first().len());
            assert(a.len() == b.len());
            assert(a =~= b) by {
                assert forall|i: int| 0 <= i < a.len() implies a[i] == b[i] by {
                    if i > 0 {
                        assert(a[i] == a.drop_first()[i - 1]);
                        assert(b[i] == b.drop_first()[i - 1]);
                    }
                }
            }
        }
        lemma_bytes_less_total(a.drop_first(), b.drop_first());
    }
}

/// Texts with the same UTF-8 encoding are the same text.
pub proof fn lemma_utf8_injective(a: Seq<char>, b: Seq<char>)
    requires
        utf8_of(a) == utf8_of(b),
    ensures
        a == b,
{
    assert(decode_utf8(utf8_of(a)) == a);
    assert(decode_utf8(utf8_of(b)) == b);
}

} // verus!
