//! The small JSON field reader of the tag server: it finds a key's value by searching the
//! body text and reads strings, string arrays and scalars from there.
use vstd::prelude::*;

use crate::json::{escape, escape_char, push_all, push_text, quoted};
use crate::text::{
    chars_of, find_first, find_first_exec, is_first_match, lemma_first_match_unique, parse_unsigned, parse_unsigned_exec,
    slice, string_of, trim, trim_chars,
};

verus! {

/// The UTF-8 bytes of `c`, each taken as the character with that code.
pub open spec fn byte_chars(c: char) -> Seq<char> {
    let u = c as u32;
    if u < 0x80 {
        seq![c]
    } else if u < 0x800 {
        seq![((0xc0 + u / 64) as u8) as char, ((0x80 + u % 64) as u8) as char]
    } else if u < 0x10000 {
        seq![
            ((0xe0 + u / 4096) as u8) as char,
            ((0x80 + (u / 64) % 64) as u8) as char,
            ((0x80 + u % 64) as u8) as char,
        ]
    } else {
        seq![
            ((0xf0 + u / 262144) as u8) as char,
            ((0x80 + (u / 4096) % 64) as u8) as char,
            ((0x80 + (u / 64) % 64) as u8) as char,
            ((0x80 + u % 64) as u8) as char,
        ]
    }
}

/// What a backslash followed by `d` stands for.
pub open spec fn unescape(d: char) -> Seq<char> {
    if d == '"' {
        seq!['"']
    } else if d == '\\' {
        seq!['\\']
    } else if d == '/' {
        seq!['/']
    } else if d == 'n' {
        seq!['\n']
    } else if d == 'r' {
        seq!['\r']
    } else if d == 't' {
        seq!['\t']
    } else {
        byte_chars(d)
    }
}

/// Reads the rest of a quoted string whose content starts at `i`, `acc` holding what was
/// read so far: the string and the index after its closing quote.
pub open spec fn scan_string(c: Seq<char>, i: int, acc: Seq<char>) -> Result<(Seq<char>, int), Seq<char>>
    decreases c.len() - i,
{
    if i < 0 || i >= c.len() {
        Err("unterminated json string"@)
    } else if c[i] == '"' {
        Ok((acc, i + 1))
    } else if c[i] == '\\' {
        if i + 1 >= c.len() {
            Err("unterminated json escape"@)
        } else {
            scan_string(c, i + 2, acc + unescape(c[i + 1]))
        }
    } else {
        scan_string(c, i + 1, acc + byte_chars(c[i]))
    }
}

pub proof fn lemma_scan_string_index(c: Seq<char>, i: int, acc: Seq<char>)
    ensures
        scan_string(c, i, acc) matches Ok((_, n)) ==> i < n <= c.len(),
    decreases c.len() - i,
{
    if 0 <= i < c.len() && c[i] != '"' {
        if c[i] == '\\' {
            if i + 1 < c.len() {
                lemma_scan_string_index(c, i + 2, acc + unescape(c[i + 1]));
            }
        } else {
            lemma_scan_string_index(c, i + 1, acc + byte_chars(c[i]));
        }
    }
}

/// JSON whitespace as the reader skips it.
pub open spec fn is_json_ws(c: char) -> bool {
    c == ' ' || c == '\n' || c == '\r' || c == '\t'
}

/// The first index from `i` on that is not JSON whitespace.
pub open spec fn skip_ws(c: Seq<char>, i: int) -> int
    decreases c.len() - i,
{
    if 0 <= i < c.len() && is_json_ws(c[i]) {
        skip_ws(c, i + 1)
    } else {
        i
    }
}

pub proof fn lemma_skip_ws(c: Seq<char>, i: int)
    requires
        0 <= i,
    ensures
        i <= skip_ws(c, i),
        i <= c.len() ==> skip_ws(c, i) <= c.len(),
    decreases c.len() - i,
{
    if 0 <= i < c.len() && is_json_ws(c[i]) {
        lemma_skip_ws(c, i + 1);
    }
}

fn push_byte_chars(out: &mut Vec<char>, ch: char)
    ensures
        final(out)@ == old(out)@ + byte_chars(ch),
{
    let u = ch as u32;
    if u < 0x80 {
        out.push(ch);
    } else if u < 0x800 {
        out.push(((0xc0 + u / 64) as u8) as char);
        out.push(((0x80 + u % 64) as u8) as char);
    } else if u < 0x10000 {
        out.push(((0xe0 + u / 4096) as u8) as char);
        out.push(((0x80 + (u / 64) % 64) as u8) as char);
        out.push(((0x80 + u % 64) as u8) as char);
    } else {
        out.push(((0xf0 + u / 262144) as u8) as char);
        out.push(((0x80 + (u / 4096) % 64) as u8) as char);
        out.push(((0x80 + (u / 64) % 64) as u8) as char);
        out.push(((0x80 + u % 64) as u8) as char);
    }
    assert(out@ =~= old(out)@ + byte_chars(ch));
}

fn push_unescaped(out: &mut Vec<char>, d: char)
    ensures
        final(out)@ == old(out)@ + unescape(d),
{
    if d == '"' {
        out.push('"');
    } else if d == '\\' {
        out.push('\\');
    } else if d == '/' {
        out.push('/');
    } else if d == 'n' {
        out.push('\n');
    } else if d == 'r' {
        out.push('\r');
    } else if d == 't' {
        out.push('\t');
    } else {
        push_byte_chars(out, d);
        return;
    }
    assert(out@ =~= old(out)@ + unescape(d));
}

/// Reads the quoted string that starts at `start`: its content and the index after it.
fn parse_json_string_at(c: &[char], start: usize) -> (r: Result<(Vec<char>, usize), String>)
    ensures
        match r {
            Ok((v, n)) => start < c@.len() && c@[start as int] == '"' && scan_string(
                c@,
                start + 1,
                seq![],
            ) == Ok::<(Seq<char>, int), Seq<char>>((v@, n as int)),
            Err(e) => if start < c@.len() && c@[start as int] == '"' {
                scan_string(c@, start + 1, seq![]) == Err::<(Seq<char>, int), Seq<char>>(e@)
            } else {
                e@ == "expected json string"@
            },
        },
{
    if start >= c.len() || c[start] != '"' {
        return Err(crate::text::owned("expected json string"));
    }
    let mut value: Vec<char> = Vec::new();
    let mut i = start + 1;
    while i < c.len()
        invariant
            start < i <= c@.len(),
            c@[start as int] == '"',
            scan_string(c@, start + 1, seq![]) == scan_string(c@, i as int, value@),
        decreases c@.len() - i,
    {
        let ch = c[i];
        if ch == '"' {
            return Ok((value, i + 1));
        }
        if ch == '\\' {
            if i + 1 >= c.len() {
                return Err(crate::text::owned("unterminated json escape"));
            }
            push_unescaped(&mut value, c[i + 1]);
            i = i + 2;
        } else {
            push_byte_chars(&mut value, ch);
            i = i + 1;
        }
    }
    Err(crate::text::owned("unterminated json string"))
}

fn skip_ws_exec(c: &[char], i: usize) -> (j: usize)
    requires
        i <= c@.len(),
    ensures
        j == skip_ws(c@, i as int),
        i <= j <= c@.len(),
{
    let mut j = i;
    while j < c.len() && (c[j] == ' ' || c[j] == '\n' || c[j] == '\r' || c[j] == '\t')
        invariant
            i <= j <= c@.len(),
            skip_ws(c@, i as int) == skip_ws(c@, j as int),
        decreases c@.len() - j,
    {
        j = j + 1;
    }
    j
}

/// The text after the first `:` in `after`.
pub open spec fn value_after_colon(after: Seq<char>, key: Seq<char>) -> Result<Seq<char>, Seq<char>> {
    match find_first(after, seq![':']) {
        None => Err("missing "@ + key + " separator"@),
        Some(colon) => Ok(after.skip(colon + 1)),
    }
}

/// The text after the first `"key"` in `body` and the `:` that follows it.
#[verifier::opaque]
pub open spec fn value_after_key(body: Seq<char>, key: Seq<char>) -> Result<Seq<char>, Seq<char>> {
    let needle = seq!['"'] + key + seq!['"'];
    match find_first(body, needle) {
        None => Err("missing "@ + key),
        Some(k) => value_after_colon(body.skip(k + needle.len()), key),
    }
}

fn missing_message(key: &[char], suffix: &str) -> (r: String)
    ensures
        r@ == "missing "@ + key@ + suffix@,
{
    let mut m: Vec<char> = Vec::new();
    push_text(&mut m, "missing ");
    push_all(&mut m, key);
    push_text(&mut m, suffix);
    string_of(m.as_slice())
}

fn json_value_after_colon(after: &[char], k: &[char]) -> (r: Result<Vec<char>, String>)
    ensures
        match r {
            Ok(v) => value_after_colon(after@, k@) == Ok::<Seq<char>, Seq<char>>(v@),
            Err(e) => value_after_colon(after@, k@) == Err::<Seq<char>, Seq<char>>(e@),
        },
{
    let colon_pat: Vec<char> = vec![':'];
    assert(colon_pat@ =~= seq![':']);
    match find_first_exec(after, colon_pat.as_slice()) {
        None => Err(missing_message(k, " separator")),
        Some(colon) => {
            let al = after.len();
            assert(colon + 1 <= al);
            let v = slice(after, colon + 1, al);
            assert(v@ =~= after@.skip(colon + 1));
            Ok(v)
        },
    }
}

fn json_value_after_key(body: &[char], key: &str) -> (r: Result<Vec<char>, String>)
    ensures
        match r {
            Ok(v) => value_after_key(body@, key@) == Ok::<Seq<char>, Seq<char>>(v@),
            Err(e) => value_after_key(body@, key@) == Err::<Seq<char>, Seq<char>>(e@),
        },
{
    reveal(value_after_key);
    let k = chars_of(key);
    let mut needle: Vec<char> = Vec::new();
    needle.push('"');
    push_all(&mut needle, k.as_slice());
    needle.push('"');
    assert(needle@ =~= seq!['"'] + key@ + seq!['"']);
    match find_first_exec(body, needle.as_slice()) {
        None => {
            proof {
                reveal_strlit("");
                assert("missing "@ + key@ + ""@ =~= "missing "@ + key@);
            }
            Err(missing_message(k.as_slice(), ""))
        },
        Some(ks) => {
            let nl = needle.len();
            let bl = body.len();
            let after = slice(body, ks + nl, bl);
            assert(after@ =~= body@.skip(ks + needle@.len()));
            json_value_after_colon(after.as_slice(), k.as_slice())
        },
    }
}

/// The string value of `key` in `body`.
pub open spec fn string_field(body: Seq<char>, key: Seq<char>) -> Result<Seq<char>, Seq<char>> {
    match value_after_key(body, key) {
        Err(e) => Err(e),
        Ok(v) => {
            let i = skip_ws(v, 0);
            if i < v.len() && v[i] == '"' {
                match scan_string(v, i + 1, seq![]) {
                    Ok((s, _)) => Ok(s),
                    Err(e) => Err(e),
                }
            } else {
                Err(key + " must be a string"@)
            }
        },
    }
}

fn must_be(key: &[char], what: &str) -> (r: String)
    ensures
        r@ == key@ + what@,
{
    let mut m: Vec<char> = Vec::new();
    push_all(&mut m, key);
    push_text(&mut m, what);
    string_of(m.as_slice())
}

/// Reads the string value of `key` from a JSON body.
pub fn extract_json_string(body: &str, key: &str) -> (r: Result<String, String>)
    ensures
        match r {
            Ok(s) => string_field(body@, key@) == Ok::<Seq<char>, Seq<char>>(s@),
            Err(e) => string_field(body@, key@) == Err::<Seq<char>, Seq<char>>(e@),
        },
{
    let b = chars_of(body);
    let k = chars_of(key);
    let v = json_value_after_key(b.as_slice(), key)?;
    let i = skip_ws_exec(v.as_slice(), 0);
    if i >= v.len() || v[i] != '"' {
        return Err(must_be(k.as_slice(), " must be a string"));
    }
    match parse_json_string_at(v.as_slice(), i) {
        Ok((s, _)) => Ok(string_of(s.as_slice())),
        Err(e) => Err(e),
    }
}

/// Reads the strings of an array from index `i` on, `acc` holding those read so far.
pub open spec fn scan_array(c: Seq<char>, i: int, key: Seq<char>, acc: Seq<Seq<char>>) -> Result<Seq<Seq<char>>, Seq<char>>
    decreases c.len() - i,
{
    if i < 0 || i > c.len() {
        Err(key + " array must contain strings"@)
    } else {
        let j = skip_ws(c, i);
        proof {
            lemma_skip_ws(c, i);
        }
        if j < c.len() && c[j] == ']' {
            Ok(acc)
        } else if j < c.len() && c[j] == '"' {
            proof {
                lemma_scan_string_index(c, j + 1, seq![]);
            }
            match scan_string(c, j + 1, seq![]) {
                Err(e) => Err(e),
                Ok((v, n)) => {
                    let m = skip_ws(c, n);
                    proof {
                        lemma_skip_ws(c, n);
                    }
                    if m < c.len() && c[m] == ',' {
                        scan_array(c, m + 1, key, acc.push(v))
                    } else if m < c.len() && c[m] == ']' {
                        Ok(acc.push(v))
                    } else {
                        Err(key + " array must contain strings"@)
                    }
                },
            }
        } else {
            Err(key + " array must contain strings"@)
        }
    }
}

/// The array of strings that is the value of `key` in `body`.
pub open spec fn string_array_field(body: Seq<char>, key: Seq<char>) -> Result<Seq<Seq<char>>, Seq<char>> {
    match value_after_key(body, key) {
        Err(e) => Err(e),
        Ok(v) => {
            let i = skip_ws(v, 0);
            if i < v.len() && v[i] == '[' {
                scan_array(v, i + 1, key, seq![])
            } else {
                Err(key + " must be an array"@)
            }
        },
    }
}

/// Reads the array of strings that is the value of `key` in a JSON body.
pub fn extract_json_string_array(body: &str, key: &str) -> (r: Result<Vec<String>, String>)
    ensures
        match r {
            Ok(v) => string_array_field(body@, key@) == Ok::<Seq<Seq<char>>, Seq<char>>(
                v@.map_values(|s: String| s@),
            ),
            Err(e) => string_array_field(body@, key@) == Err::<Seq<Seq<char>>, Seq<char>>(e@),
        },
{
    let b = chars_of(body);
    let k = chars_of(key);
    let v = json_value_after_key(b.as_slice(), key)?;
    let start = skip_ws_exec(v.as_slice(), 0);
    if start >= v.len() || v[start] != '[' {
        return Err(must_be(k.as_slice(), " must be an array"));
    }
    let mut values: Vec<String> = Vec::new();
    let mut i = start + 1;
    assert(values@.map_values(|s: String| s@) =~= Seq::<Seq<char>>::empty());
    loop
        invariant
            i <= v@.len(),
            k@ == key@,
            string_array_field(body@, key@) == scan_array(v@, i as int, key@, values@.map_values(|s: String| s@)),
        decreases v@.len() - i,
    {
        let ghost acc = values@.map_values(|s: String| s@);
        let j = skip_ws_exec(v.as_slice(), i);
        if j < v.len() && v[j] == ']' {
            return Ok(values);
        }
        if !(j < v.len() && v[j] == '"') {
            return Err(must_be(k.as_slice(), " array must contain strings"));
        }
        proof {
            lemma_scan_string_index(v@, j + 1, seq![]);
        }
        let (s, n) = match parse_json_string_at(v.as_slice(), j) {
            Ok(x) => x,
            Err(e) => {
                return Err(e);
            },
        };
        let m = skip_ws_exec(v.as_slice(), n);
        values.push(string_of(s.as_slice()));
        assert(values@.map_values(|s: String| s@) =~= acc.push(s@));
        if m < v.len() && v[m] == ',' {
            i = m + 1;
        } else if m < v.len() && v[m] == ']' {
            return Ok(values);
        } else {
            return Err(must_be(k.as_slice(), " array must contain strings"));
        }
    }
}

/// Index of the first `,`, `}`, `\r` or `\n` from `i` on, or `c.len()`.
pub open spec fn scalar_end(c: Seq<char>, i: int) -> int
    decreases c.len() - i,
{
    if 0 <= i < c.len() && !(c[i] == ',' || c[i] == '}' || c[i] == '\r' || c[i] == '\n') {
        scalar_end(c, i + 1)
    } else {
        if i < 0 { c.len() as int } else if i > c.len() { c.len() as int } else { i }
    }
}

/// The value of `key` in `body` as text: a string's content, or the trimmed text of a scalar.
pub open spec fn scalar_field(body: Seq<char>, key: Seq<char>) -> Result<Seq<char>, Seq<char>> {
    match value_after_key(body, key) {
        Err(e) => Err(e),
        Ok(v) => {
            let i = skip_ws(v, 0);
            if i < v.len() && v[i] == '"' {
                match scan_string(v, i + 1, seq![]) {
                    Ok((s, _)) => Ok(s),
                    Err(e) => Err(e),
                }
            } else {
                let scalar = trim(v.subrange(i, scalar_end(v, i)));
                if scalar.len() == 0 {
                    Err(key + " is empty"@)
                } else {
                    Ok(scalar)
                }
            }
        },
    }
}

/// The trimmed text of the scalar that starts at `i` in `v`, or the error for an empty one.
fn read_scalar(v: &[char], i: usize, key: &[char]) -> (r: Result<String, String>)
    requires
        i <= v@.len(),
    ensures
        ({
            let scalar = trim(v@.subrange(i as int, scalar_end(v@, i as int)));
            match r {
                Ok(s) => scalar.len() != 0 && s@ == scalar,
                Err(e) => scalar.len() == 0 && e@ == key@ + " is empty"@,
            }
        }),
{
    let mut end = i;
    while end < v.len() && !(v[end] == ',' || v[end] == '}' || v[end] == '\r' || v[end] == '\n')
        invariant
            i <= end <= v@.len(),
            scalar_end(v@, i as int) == scalar_end(v@, end as int),
        decreases v@.len() - end,
    {
        end = end + 1;
    }
    let raw = slice(v, i, end);
    let scalar = trim_chars(raw.as_slice());
    if scalar.len() == 0 {
        return Err(must_be(key, " is empty"));
    }
    Ok(string_of(scalar.as_slice()))
}

/// Reads the value of `key` from a JSON body as text.
pub fn extract_json_value_as_string(body: &str, key: &str) -> (r: Result<String, String>)
    ensures
        match r {
            Ok(s) => scalar_field(body@, key@) == Ok::<Seq<char>, Seq<char>>(s@),
            Err(e) => scalar_field(body@, key@) == Err::<Seq<char>, Seq<char>>(e@),
        },
{
    let b = chars_of(body);
    let k = chars_of(key);
    let v = json_value_after_key(b.as_slice(), key)?;
    let i = skip_ws_exec(v.as_slice(), 0);
    if i < v.len() && v[i] == '"' {
        return match parse_json_string_at(v.as_slice(), i) {
            Ok((s, _)) => Ok(string_of(s.as_slice())),
            Err(e) => Err(e),
        };
    }
    read_scalar(v.as_slice(), i, k.as_slice())
}

/// The value of `key` in `body` read as a `u64`.
pub open spec fn u64_field(body: Seq<char>, key: Seq<char>) -> Result<u64, Seq<char>> {
    match scalar_field(body, key) {
        Err(e) => Err(e),
        Ok(s) => match parse_unsigned(s, u64::MAX as nat) {
            Some(n) => Ok(n as u64),
            None => Err(key + " must be an integer"@),
        },
    }
}

/// Reads the value of `key` from a JSON body as a `u64`.
pub fn extract_json_u64(body: &str, key: &str) -> (r: Result<u64, String>)
    ensures
        match r {
            Ok(n) => u64_field(body@, key@) == Ok::<u64, Seq<char>>(n),
            Err(e) => u64_field(body@, key@) == Err::<u64, Seq<char>>(e@),
        },
{
    let s = extract_json_value_as_string(body, key)?;
    let cs = chars_of(s.as_str());
    let parsed = parse_unsigned_exec(cs.as_slice(), u64::MAX);
    match parsed {
        Some(n) => Ok(n),
        None => {
            let k = chars_of(key);
            Err(must_be(k.as_slice(), " must be an integer"))
        },
    }
}

/// Text of ASCII characters only, each of which the reader takes back as it stands.
pub open spec fn ascii_text(s: Seq<char>) -> bool {
    forall|i: int| 0 <= i < s.len() ==> (#[trigger] s[i] as u32) < 0x80
}

proof fn lemma_escape_prepend(x: char, s: Seq<char>)
    ensures
        escape(seq![x] + s) == escape_char(x) + escape(s),
    decreases s.len(),
{
    let xs = seq![x] + s;
    if s.len() == 0 {
        assert(xs.drop_last() =~= Seq::<char>::empty());
        assert(escape(Seq::<char>::empty()) == Seq::<char>::empty());
        assert(xs.last() == x);
        assert(escape(xs) =~= escape_char(x));
        assert(escape_char(x) + escape(s) =~= escape_char(x));
    } else {
        lemma_escape_prepend(x, s.drop_last());
        assert(xs.drop_last() =~= seq![x] + s.drop_last());
        assert(xs.last() == s.last());
        assert(escape(xs) == escape(xs.drop_last()) + escape_char(xs.last()));
        assert(escape(s) == escape(s.drop_last()) + escape_char(s.last()));
        assert(escape(xs) =~= escape_char(x) + escape(s));
    }
}

#[verifier::spinoff_prover]
proof fn lemma_scan_escaped(c: Seq<char>, i: int, acc: Seq<char>, s: Seq<char>)
    requires
        ascii_text(s),
        0 <= i,
        i + escape(s).len() < c.len(),
        c.subrange(i, i + escape(s).len()) == escape(s),
        c[i + escape(s).len()] == '"',
    ensures
        scan_string(c, i, acc) == Ok::<(Seq<char>, int), Seq<char>>((acc + s, i + escape(s).len() + 1)),
    decreases s.len(),
{
    if s.len() == 0 {
        assert(acc + s =~= acc);
    } else {
        let x = s[0];
        let t = s.drop_first();
        assert(s =~= seq![x] + t);
        lemma_escape_prepend(x, t);
        let e = escape_char(x);
        assert(ascii_text(t)) by {
            assert forall|k: int| 0 <= k < t.len() implies (#[trigger] t[k] as u32) < 0x80 by {
                assert(t[k] == s[k + 1]);
            }
        }
        assert((x as u32) < 0x80) by {
            assert(s[0] == x);
        }
        assert(c.subrange(i, i + e.len()) =~= e) by {
            assert forall|k: int| 0 <= k < e.len() implies c.subrange(i, i + e.len())[k] == e[k] by {
                assert(c[i + k] == c.subrange(i, i + escape(s).len())[k]);
                assert(escape(s)[k] == e[k]);
            }
        }
        assert(c.subrange(i + e.len(), i + e.len() + escape(t).len()) =~= escape(t)) by {
            assert forall|k: int| 0 <= k < escape(t).len() implies c.subrange(
                i + e.len(),
                i + e.len() + escape(t).len(),
            )[k] == escape(t)[k] by {
                assert(c[i + e.len() + k] == c.subrange(i, i + escape(s).len())[e.len() + k]);
                assert(escape(s)[e.len() + k] == escape(t)[k]);
            }
        }
        lemma_scan_escaped(c, i + e.len(), acc + seq![x], t);
        assert(acc + seq![x] + t =~= acc + s);
        if x == '"' || x == '\\' || x == '\n' || x == '\r' || x == '\t' {
            assert(c[i] == e[0] && c[i + 1] == e[1]);
            assert(unescape(c[i + 1]) =~= seq![x]);
        } else {
            assert(c[i] == e[0]);
            assert(byte_chars(x) =~= seq![x]);
        }
    }
}

/// A quoted ASCII string reads back as itself, whatever follows the closing quote.
pub proof fn quoted_ascii_reads_back(s: Seq<char>, rest: Seq<char>)
    requires
        ascii_text(s),
    ensures
        scan_string(quoted(s) + rest, 1, seq![]) == Ok::<(Seq<char>, int), Seq<char>>((s, quoted(s).len() as int)),
{
    let c = quoted(s) + rest;
    assert(c.subrange(1, 1 + escape(s).len() as int) =~= escape(s));
    assert(c[1 + escape(s).len() as int] == '"');
    lemma_scan_escaped(c, 1, seq![], s);
    assert(seq![] + s =~= s);
}

/// A field written as `"key":` and a quoted ASCII string reads back as that string,
/// where the key needs no escaping and its quoted form first occurs in the body there.
#[verifier::spinoff_prover]
pub proof fn string_field_reads_back(prefix: Seq<char>, key: Seq<char>, value: Seq<char>, rest: Seq<char>)
    requires
        escape(key) == key,
        ascii_text(value),
        is_first_match(prefix + quoted(key) + seq![':'] + quoted(value) + rest, quoted(key), prefix.len() as int),
    ensures
        string_field(prefix + quoted(key) + seq![':'] + quoted(value) + rest, key) == Ok::<Seq<char>, Seq<char>>(value),
{
    let body = prefix + quoted(key) + seq![':'] + quoted(value) + rest;
    let needle = seq!['"'] + key + seq!['"'];
    assert(needle =~= quoted(key));
    lemma_first_match_unique(body, needle, prefix.len() as int);
    let after = body.skip((prefix.len() + needle.len()) as int);
    assert(after =~= seq![':'] + (quoted(value) + rest));
    assert(is_first_match(after, seq![':'], 0)) by {
        assert(after.subrange(0, 1) =~= seq![':']);
    }
    lemma_first_match_unique(after, seq![':'], 0);
    reveal(value_after_key);
    let v = after.skip(1);
    assert(v =~= quoted(value) + rest);
    assert(v[0] == '"');
    assert(skip_ws(v, 0) == 0);
    quoted_ascii_reads_back(value, rest);
}

} // verus!
