//! Strings and blank space as JSON writes them.
//!
//! Writing escapes the quotation mark, the backslash and the control
//! characters. Reading accepts every escape that JSON knows, among them
//! `\u` with four hexadecimal digits and pairs of surrogates.

use vstd::prelude::*;
use vstd::utf8::{char_u32_cast, is_scalar};
use crate::utils::hex::{hex_digit, hex_digit_of};
use crate::utils::text::{chars_of, string_of};

verus! {

/// How one character is written inside a JSON string.
pub open spec fn escape_char(c: char) -> Seq<char> {
    if c == '"' {
        seq!['\\', '"']
    } else if c == '\\' {
        seq!['\\', '\\']
    } else if c == '\u{08}' {
        seq!['\\', 'b']
    } else if c == '\u{0c}' {
        seq!['\\', 'f']
    } else if c == '\n' {
        seq!['\\', 'n']
    } else if c == '\r' {
        seq!['\\', 'r']
    } else if c == '\t' {
        seq!['\\', 't']
    } else if (c as u32) < 0x20 {
        seq![
            '\\',
            'u',
            '0',
            '0',
            hex_digit(c as u32 as int / 16),
            hex_digit(c as u32 as int % 16),
        ]
    } else {
        seq![c]
    }
}

/// How a text is written inside a JSON string.
pub open spec fn escape(text: Seq<char>) -> Seq<char>
    decreases text.len(),
{
    if text.len() == 0 {
        Seq::<char>::empty()
    } else {
        escape_char(text[0]) + escape(text.drop_first())
    }
}

/// A text as a JSON string: escaped, between quotation marks.
pub open spec fn quote(text: Seq<char>) -> Seq<char> {
    seq!['"'] + escape(text) + seq!['"']
}

/// A field with a text as its value, as JSON writes them.
pub open spec fn member_text(field: Seq<char>, value: Seq<char>) -> Seq<char> {
    quote(field) + ": "@ + quote(value)
}

/// Whether JSON counts `c` as blank space.
pub open spec fn is_space(c: char) -> bool {
    c == ' ' || c == '\t' || c == '\n' || c == '\r'
}

/// What is left of `s` after its leading blank space.
pub open spec fn skip_spaces(s: Seq<char>) -> Seq<char>
    decreases s.len(),
{
    if s.len() > 0 && is_space(s[0]) {
        skip_spaces(s.drop_first())
    } else {
        s
    }
}

/// The value of a hexadecimal digit of either case.
pub open spec fn hex_value(c: char) -> Option<int> {
    let code = c as u32;
    if 48 <= code <= 57 {
        Some(code - 48)
    } else if 97 <= code <= 102 {
        Some(code - 87)
    } else if 65 <= code <= 70 {
        Some(code - 55)
    } else {
        None
    }
}

/// The number that the first four characters of `s` write in hexadecimal.
pub open spec fn read_hex4(s: Seq<char>) -> Option<int> {
    if s.len() < 4 {
        None
    } else {
        match (hex_value(s[0]), hex_value(s[1]), hex_value(s[2]), hex_value(s[3])) {
            (Some(a), Some(b), Some(c), Some(d)) => Some(a * 4096 + b * 256 + c * 16 + d),
            _ => None,
        }
    }
}

/// The character that the escape at the start of `s` stands for, and what
/// follows the escape. `s` is what comes after the backslash.
#[verifier::opaque]
pub open spec fn read_escape(s: Seq<char>) -> Option<(char, Seq<char>)> {
    if s.len() == 0 {
        None
    } else if s[0] == '"' {
        Some(('"', s.skip(1)))
    } else if s[0] == '\\' {
        Some(('\\', s.skip(1)))
    } else if s[0] == '/' {
        Some(('/', s.skip(1)))
    } else if s[0] == 'b' {
        Some(('\u{08}', s.skip(1)))
    } else if s[0] == 'f' {
        Some(('\u{0c}', s.skip(1)))
    } else if s[0] == 'n' {
        Some(('\n', s.skip(1)))
    } else if s[0] == 'r' {
        Some(('\r', s.skip(1)))
    } else if s[0] == 't' {
        Some(('\t', s.skip(1)))
    } else if s[0] == 'u' {
        match read_hex4(s.skip(1)) {
            None => None,
            Some(unit) => if 0xD800 <= unit < 0xDC00 {
                if s.len() >= 7 && s[5] == '\\' && s[6] == 'u' {
                    match read_hex4(s.skip(7)) {
                        None => None,
                        Some(low) => if 0xDC00 <= low < 0xE000 {
                            Some(
                                (
                                    (((unit - 0xD800) * 0x400 + (low - 0xDC00) + 0x10000) as u32)
                                        as char,
                                    s.skip(11),
                                ),
                            )
                        } else {
                            None
                        },
                    }
                } else {
                    None
                }
            } else if 0xDC00 <= unit < 0xE000 {
                None
            } else {
                Some(((unit as u32) as char, s.skip(5)))
            },
        }
    } else {
        None
    }
}

/// The text of the JSON string whose opening quotation mark has been read,
/// and what follows its closing one.
pub open spec fn read_string_body(s: Seq<char>) -> Option<(Seq<char>, Seq<char>)>
    decreases s.len(),
{
    if s.len() == 0 {
        None
    } else if s[0] == '"' {
        Some((Seq::<char>::empty(), s.skip(1)))
    } else if s[0] == '\\' {
        match read_escape(s.skip(1)) {
            None => None,
            Some((c, rest)) => if rest.len() < s.len() {
                put_in_front(seq![c], read_string_body(rest))
            } else {
                None
            },
        }
    } else if (s[0] as u32) < 0x20 {
        None
    } else {
        put_in_front(seq![s[0]], read_string_body(s.skip(1)))
    }
}

/// The JSON string at the start of `s` and what follows it.
pub open spec fn read_string(s: Seq<char>) -> Option<(Seq<char>, Seq<char>)> {
    if s.len() > 0 && s[0] == '"' {
        read_string_body(s.skip(1))
    } else {
        None
    }
}

/// Puts `head` in front of the text that was read.
pub open spec fn put_in_front(head: Seq<char>, read: Option<(Seq<char>, Seq<char>)>) -> Option<
    (Seq<char>, Seq<char>),
> {
    match read {
        Some((text, rest)) => Some((head + text, rest)),
        None => None,
    }
}

/// Escaping goes piece by piece.
pub proof fn lemma_escape_concat(a: Seq<char>, b: Seq<char>)
    ensures
        escape(a + b) == escape(a) + escape(b),
    decreases a.len(),
{
    if a.len() == 0 {
        assert(a + b =~= b);
        assert(escape(a) + escape(b) =~= escape(b));
    } else {
        assert((a + b).drop_first() =~= a.drop_first() + b);
        lemma_escape_concat(a.drop_first(), b);
        assert(escape_char(a[0]) + (escape(a.drop_first()) + escape(b)) =~= (escape_char(a[0])
            + escape(a.drop_first())) + escape(b));
    }
}

/// A hexadecimal digit that was written reads as the value it was written
/// for.
pub proof fn lemma_hex_value_of_digit(nibble: int)
    requires
        0 <= nibble < 16,
    ensures
        hex_value(hex_digit(nibble)) == Some(nibble),
{
}

/// What was written for one character reads as that character.
pub proof fn lemma_read_escaped_char(c: char, tail: Seq<char>)
    ensures
        read_string_body(escape_char(c) + tail) == put_in_front(seq![c], read_string_body(tail)),
{
    reveal(read_escape);
    let s = escape_char(c) + tail;
    if c == '"' || c == '\\' || c == '\u{08}' || c == '\u{0c}' || c == '\n' || c == '\r' || c
        == '\t' {
        assert(s[0] == '\\');
        assert(s.skip(1).skip(1) =~= tail);
    } else if (c as u32) < 0x20 {
        let code = c as u32;
        assert(s[0] == '\\');
        let after = s.skip(1);
        assert(after[0] == 'u');
        let digits = after.skip(1);
        assert(digits[0] == '0' && digits[1] == '0');
        assert(digits[2] == hex_digit(code as int / 16));
        assert(digits[3] == hex_digit(code as int % 16));
        lemma_hex_value_of_digit(code as int / 16);
        lemma_hex_value_of_digit(code as int % 16);
        assert(read_hex4(digits) == Some(code as int));
        char_u32_cast(c, code);
        assert(after.skip(5) =~= tail);
    } else {
        assert(s[0] == c);
        assert(s.skip(1) =~= tail);
    }
}

/// What was written for a text, up to the closing quotation mark, reads as
/// that text.
pub proof fn lemma_read_escaped(text: Seq<char>, tail: Seq<char>)
    ensures
        read_string_body(escape(text) + seq!['"'] + tail) == Some((text, tail)),
    decreases text.len(),
{
    let s = escape(text) + seq!['"'] + tail;
    if text.len() == 0 {
        assert(s[0] == '"');
        assert(s.skip(1) =~= tail);
    } else {
        let rest = escape(text.drop_first()) + seq!['"'] + tail;
        assert(s =~= escape_char(text[0]) + rest);
        lemma_read_escaped_char(text[0], rest);
        lemma_read_escaped(text.drop_first(), tail);
        assert(seq![text[0]] + text.drop_first() =~= text);
    }
}

/// A JSON string that was written reads as the text it was written for.
pub proof fn lemma_read_quoted(text: Seq<char>, tail: Seq<char>)
    ensures
        read_string(quote(text) + tail) == Some((text, tail)),
{
    let s = quote(text) + tail;
    assert(s[0] == '"');
    assert(s.skip(1) =~= escape(text) + seq!['"'] + tail);
    lemma_read_escaped(text, tail);
}

/// Appends the characters of `text` to `out`.
pub fn push_text(out: &mut Vec<char>, text: &str)
    ensures
        final(out)@ == old(out)@ + text@,
{
    let chars = chars_of(text);
    let mut i: usize = 0;
    while i < chars.len()
        invariant
            i <= chars.len(),
            out@ == old(out)@ + chars@.take(i as int),
        decreases chars.len() - i,
    {
        out.push(chars[i]);
        i += 1;
        assert(out@ =~= old(out)@ + chars@.take(i as int));
    }
    assert(chars@.take(i as int) =~= chars@);
}

/// Appends to `out` what is written for the character `c` inside a JSON
/// string.
pub fn push_escaped(out: &mut Vec<char>, c: char)
    ensures
        final(out)@ == old(out)@ + escape_char(c),
{
    let code: u32 = c as u32;
    if c == '"' {
        out.push('\\');
        out.push('"');
    } else if c == '\\' {
        out.push('\\');
        out.push('\\');
    } else if c == '\u{08}' {
        out.push('\\');
        out.push('b');
    } else if c == '\u{0c}' {
        out.push('\\');
        out.push('f');
    } else if c == '\n' {
        out.push('\\');
        out.push('n');
    } else if c == '\r' {
        out.push('\\');
        out.push('r');
    } else if c == '\t' {
        out.push('\\');
        out.push('t');
    } else if code < 0x20 {
        out.push('\\');
        out.push('u');
        out.push('0');
        out.push('0');
        out.push(hex_digit_of((code / 16) as u8));
        out.push(hex_digit_of((code % 16) as u8));
    } else {
        out.push(c);
    }
    assert(out@ =~= old(out)@ + escape_char(c));
}

/// Appends `text` to `out` as a JSON string.
pub fn push_quoted(out: &mut Vec<char>, text: &str)
    ensures
        final(out)@ == old(out)@ + quote(text@),
{
    let chars = chars_of(text);
    out.push('"');
    let mut i: usize = 0;
    while i < chars.len()
        invariant
            i <= chars.len(),
            out@ == old(out)@ + seq!['"'] + escape(chars@.take(i as int)),
        decreases chars.len() - i,
    {
        push_escaped(out, chars[i]);
        proof {
            let done = chars@.take(i as int);
            let one = seq![chars@[i as int]];
            lemma_escape_concat(done, one);
            assert(escape(one.drop_first()) =~= Seq::<char>::empty());
            assert(escape(one) =~= escape_char(chars@[i as int]));
            assert(done + one =~= chars@.take(i as int + 1));
        }
        i += 1;
        assert(out@ =~= old(out)@ + seq!['"'] + escape(chars@.take(i as int)));
    }
    out.push('"');
    assert(chars@.take(i as int) =~= chars@);
    assert(out@ =~= old(out)@ + quote(text@));
}

/// Appends a field with a text as its value to `out`.
pub fn push_member(out: &mut Vec<char>, field: &str, value: &str)
    ensures
        final(out)@ == old(out)@ + member_text(field@, value@),
{
    push_quoted(out, field);
    push_text(out, ": ");
    push_quoted(out, value);
    assert(out@ =~= old(out)@ + member_text(field@, value@));
}

/// The character with the given code, if there is one.
///
/// Trusted: this is `char::from_u32` of the standard library, which gives
/// the character for every Unicode scalar value and nothing for any other
/// number.
#[verifier::external_body]
pub(crate) fn char_of_code(code: u32) -> (c: Option<char>)
    ensures
        is_scalar(code) ==> c == Some(code as char),
        !is_scalar(code) ==> c is None,
{
    char::from_u32(code)
}

/// Putting two pieces in front, one after the other, is putting their
/// concatenation in front.
proof fn lemma_put_in_front_twice(
    a: Seq<char>,
    b: Seq<char>,
    read: Option<(Seq<char>, Seq<char>)>,
)
    ensures
        put_in_front(a, put_in_front(b, read)) == put_in_front(a + b, read),
{
    match read {
        Some((text, rest)) => {
            assert(a + (b + text) =~= (a + b) + text);
        },
        None => {},
    }
}

/// The value of the hexadecimal digit `c`, if it is one.
pub fn hex_value_of(c: char) -> (value: Option<u32>)
    ensures
        match value {
            Some(v) => hex_value(c) == Some(v as int),
            None => hex_value(c) is None,
        },
{
    let code: u32 = c as u32;
    if 48 <= code && code <= 57 {
        Some(code - 48)
    } else if 97 <= code && code <= 102 {
        Some(code - 87)
    } else if 65 <= code && code <= 70 {
        Some(code - 55)
    } else {
        None
    }
}

/// Reads four hexadecimal digits at `at`.
pub fn read_hex4_at(chars: &Vec<char>, at: usize) -> (value: Option<u32>)
    requires
        at <= chars@.len(),
    ensures
        match value {
            Some(v) => read_hex4(chars@.skip(at as int)) == Some(v as int) && v < 0x10000,
            None => read_hex4(chars@.skip(at as int)) is None,
        },
{
    if chars.len() - at < 4 {
        return None;
    }
    let ghost s = chars@.skip(at as int);
    assert(s[0] == chars@[at as int] && s[1] == chars@[at + 1] && s[2] == chars@[at + 2] && s[3]
        == chars@[at + 3]);
    match (
        hex_value_of(chars[at]),
        hex_value_of(chars[at + 1]),
        hex_value_of(chars[at + 2]),
        hex_value_of(chars[at + 3]),
    ) {
        (Some(a), Some(b), Some(c), Some(d)) => Some(a * 4096 + b * 256 + c * 16 + d),
        _ => None,
    }
}

/// Reads the escape that follows a backslash. `at` is the position after
/// the backslash; the result holds the position after the escape.
pub fn read_escape_at(chars: &Vec<char>, at: usize) -> (read: Option<(char, usize)>)
    requires
        at <= chars@.len(),
    ensures
        match read_escape(chars@.skip(at as int)) {
            Some((c, rest)) => read matches Some((found, next)) && found == c && at < next
                <= chars@.len() && chars@.skip(next as int) == rest,
            None => read is None,
        },
{
    reveal(read_escape);
    if at == chars.len() {
        return None;
    }
    let ghost s = chars@.skip(at as int);
    assert(s[0] == chars@[at as int]);
    assert(s.skip(1) =~= chars@.skip(at + 1));
    let c = chars[at];
    if c == '"' {
        Some(('"', at + 1))
    } else if c == '\\' {
        Some(('\\', at + 1))
    } else if c == '/' {
        Some(('/', at + 1))
    } else if c == 'b' {
        Some(('\u{08}', at + 1))
    } else if c == 'f' {
        Some(('\u{0c}', at + 1))
    } else if c == 'n' {
        Some(('\n', at + 1))
    } else if c == 'r' {
        Some(('\r', at + 1))
    } else if c == 't' {
        Some(('\t', at + 1))
    } else if c == 'u' {
        match read_hex4_at(chars, at + 1) {
            None => None,
            Some(unit) => {
                assert(s.skip(5) =~= chars@.skip(at + 5));
                if 0xD800 <= unit && unit < 0xDC00 {
                    if chars.len() - at >= 7 && chars[at + 5] == '\\' && chars[at + 6] == 'u' {
                        assert(s[5] == chars@[at + 5] && s[6] == chars@[at + 6]);
                        assert(s.skip(7) =~= chars@.skip(at + 7));
                        match read_hex4_at(chars, at + 7) {
                            None => None,
                            Some(low) => {
                                if 0xDC00 <= low && low < 0xE000 {
                                    assert(s.skip(11) =~= chars@.skip(at + 11));
                                    let code: u32 = (unit - 0xD800) * 0x400 + (low - 0xDC00)
                                        + 0x10000;
                                    match char_of_code(code) {
                                        Some(found) => Some((found, at + 11)),
                                        None => None,
                                    }
                                } else {
                                    None
                                }
                            },
                        }
                    } else {
                        None
                    }
                } else if 0xDC00 <= unit && unit < 0xE000 {
                    None
                } else {
                    match char_of_code(unit) {
                        Some(found) => Some((found, at + 5)),
                        None => None,
                    }
                }
            },
        }
    } else {
        None
    }
}

/// Reads the JSON string that starts at `at`. The result holds the text of
/// the string and the position after its closing quotation mark.
pub fn read_string_at(chars: &Vec<char>, at: usize) -> (read: Option<(String, usize)>)
    requires
        at <= chars@.len(),
    ensures
        match read_string(chars@.skip(at as int)) {
            Some((text, rest)) => read matches Some((found, next)) && found@ == text && at < next
                <= chars@.len() && chars@.skip(next as int) == rest,
            None => read is None,
        },
{
    if at == chars.len() || chars[at] != '"' {
        return None;
    }
    let start: usize = at + 1;
    assert(chars@.skip(at as int).skip(1) =~= chars@.skip(start as int));
    let mut text: Vec<char> = Vec::new();
    let mut i: usize = start;
    assert(Seq::<char>::empty() + Seq::<char>::empty() =~= Seq::<char>::empty());
    loop
        invariant
            at < start <= i <= chars@.len(),
            read_string(chars@.skip(at as int)) == read_string_body(chars@.skip(start as int)),
            read_string_body(chars@.skip(start as int)) == put_in_front(
                text@,
                read_string_body(chars@.skip(i as int)),
            ),
        decreases chars@.len() - i,
    {
        if i == chars.len() {
            return None;
        }
        let ghost s = chars@.skip(i as int);
        assert(s[0] == chars@[i as int]);
        assert(s.skip(1) =~= chars@.skip(i + 1));
        let c = chars[i];
        if c == '"' {
            assert(text@ + Seq::<char>::empty() =~= text@);
            return Some((string_of(&text), i + 1));
        } else if c == '\\' {
            match read_escape_at(chars, i + 1) {
                None => {
                    return None;
                },
                Some((found, next)) => {
                    proof {
                        lemma_put_in_front_twice(
                            text@,
                            seq![found],
                            read_string_body(chars@.skip(next as int)),
                        );
                    }
                    let ghost before = text@;
                    text.push(found);
                    assert(text@ =~= before + seq![found]);
                    i = next;
                },
            }
        } else if (c as u32) < 0x20 {
            return None;
        } else {
            proof {
                lemma_put_in_front_twice(
                    text@,
                    seq![c],
                    read_string_body(chars@.skip(i + 1)),
                );
            }
            let ghost before = text@;
            text.push(c);
            assert(text@ =~= before + seq![c]);
            i += 1;
        }
    }
}

} // verus!
