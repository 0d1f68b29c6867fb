//! The JSON text this project writes by hand: quoted strings and small objects.
use vstd::prelude::*;

use crate::text::{chars_of, string_of};

verus! {

/// The escape sequence written for `c` inside a quoted JSON string.
pub open spec fn escape_char(c: char) -> Seq<char> {
    if c == '"' {
        seq!['\\', '"']
    } else if c == '\\' {
        seq!['\\', '\\']
    } else if c == '\n' {
        seq!['\\', 'n']
    } else if c == '\r' {
        seq!['\\', 'r']
    } else if c == '\t' {
        seq!['\\', 't']
    } else {
        seq![c]
    }
}

/// `s` with each character escaped.
pub open spec fn escape(s: Seq<char>) -> Seq<char>
    decreases s.len(),
{
    if s.len() == 0 {
        seq![]
    } else {
        escape(s.drop_last()) + escape_char(s.last())
    }
}

/// `s` as a quoted JSON string.
pub open spec fn quoted(s: Seq<char>) -> Seq<char> {
    seq!['"'] + escape(s) + seq!['"']
}

/// Appends the escape sequence for `c`.
pub fn push_escaped(out: &mut Vec<char>, c: char)
    ensures
        final(out)@ == old(out)@ + escape_char(c),
{
    if c == '"' {
        out.push('\\');
        out.push('"');
    } else if c == '\\' {
        out.push('\\');
        out.push('\\');
    } else if c == '\n' {
        out.push('\\');
        out.push('n');
    } else if c == '\r' {
        out.push('\\');
        out.push('r');
    } else if c == '\t' {
        out.push('\\');
        out.push('t');
    } else {
        out.push(c);
    }
    assert(out@ =~= old(out)@ + escape_char(c));
}

/// Appends `s` as a quoted JSON string.
pub fn push_quoted(out: &mut Vec<char>, s: &[char])
    ensures
        final(out)@ == old(out)@ + quoted(s@),
{
    let ghost start = out@;
    out.push('"');
    let mut i: usize = 0;
    while i < s.len()
        invariant
            i <= s@.len(),
            out@ == start + seq!['"'] + escape(s@.take(i as int)),
        decreases s@.len() - i,
    {
        assert(s@.take(i + 1).drop_last() =~= s@.take(i as int));
        push_escaped(out, s[i]);
        i = i + 1;
        assert(out@ =~= start + seq!['"'] + escape(s@.take(i as int)));
    }
    out.push('"');
    assert(s@.take(i as int) =~= s@);
    assert(out@ =~= start + quoted(s@));
}

/// Quotes `value` as a JSON string, escaping quotes, backslashes, newlines,
/// carriage returns and tabs.
pub fn json_string(value: &str) -> (r: String)
    ensures
        r@ == quoted(value@),
{
    let cs = chars_of(value);
    let mut out: Vec<char> = Vec::new();
    push_quoted(&mut out, cs.as_slice());
    assert(out@ =~= quoted(value@));
    string_of(out.as_slice())
}

/// Appends the characters of a string literal or other text.
pub fn push_text(out: &mut Vec<char>, s: &str)
    ensures
        final(out)@ == old(out)@ + s@,
{
    let cs = chars_of(s);
    let mut i: usize = 0;
    let ghost start = out@;
    while i < cs.len()
        invariant
            i <= cs@.len(),
            out@ == start + cs@.take(i as int),
        decreases cs@.len() - i,
    {
        out.push(cs[i]);
        i = i + 1;
        assert(out@ =~= start + cs@.take(i as int));
    }
    assert(cs@.take(i as int) =~= s@);
}

/// Appends the characters of `tail`.
pub fn push_all(out: &mut Vec<char>, tail: &[char])
    ensures
        final(out)@ == old(out)@ + tail@,
{
    let mut i: usize = 0;
    let ghost start = out@;
    while i < tail.len()
        invariant
            i <= tail@.len(),
            out@ == start + tail@.take(i as int),
        decreases tail@.len() - i,
    {
        out.push(tail[i]);
        i = i + 1;
        assert(out@ =~= start + tail@.take(i as int));
    }
    assert(tail@.take(i as int) =~= tail@);
}

/// Appends `"key":` to `out`, the key quoted.
pub fn push_key(out: &mut Vec<char>, key: &str)
    ensures
        final(out)@ == old(out)@ + quoted(key@) + seq![':'],
{
    let k = chars_of(key);
    push_quoted(out, k.as_slice());
    out.push(':');
    assert(out@ =~= old(out)@ + quoted(key@) + seq![':']);
}

/// `{"error":<message>}`, the message quoted.
pub open spec fn error_object(message: Seq<char>) -> Seq<char> {
    "{\"error\":"@ + quoted(message) + seq!['}']
}

/// The JSON body that reports an error message.
pub fn error_json(message: &str) -> (r: String)
    ensures
        r@ == error_object(message@),
{
    let mut out: Vec<char> = Vec::new();
    push_text(&mut out, "{\"error\":");
    let m = chars_of(message);
    push_quoted(&mut out, m.as_slice());
    out.push('}');
    assert(out@ =~= error_object(message@));
    string_of(out.as_slice())
}

} // verus!
