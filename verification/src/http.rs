//! HTTP/1.1 text as the services read and write it: request parsing, header lookup,
//! response framing.
use vstd::prelude::*;
use vstd::utf8::encode_utf8;

use crate::json::{push_all, push_text};
use crate::screen::{join_with, lemma_join_prepend};
use crate::text::{
    chars_of, decimal, eq_ignore_ascii_case, eq_ignore_case, find, find_first, find_first_exec,
    index_of, index_of_char, is_first_match, is_ws, lemma_first_match_unique, lemma_index_absent,
    lemma_index_of, lemma_index_past, lines, lines_of, matches_at, parse_unsigned, parse_unsigned_exec,
    slice, string_of, trim, trim_chars, u64_text, views, word_len, words, words_of,
};

verus! {

/// Header names and values, in the order they came.
pub type HeaderList = Seq<(Seq<char>, Seq<char>)>;

/// The value of the first header whose name equals `name` ignoring ASCII case.
pub open spec fn header_value(headers: HeaderList, name: Seq<char>) -> Option<Seq<char>>
    decreases headers.len(),
{
    if headers.len() == 0 {
        None
    } else if eq_ignore_case(headers[0].0, name) {
        Some(headers[0].1)
    } else {
        header_value(headers.drop_first(), name)
    }
}

/// The views of a list of header pairs.
pub open spec fn header_views(v: Seq<(String, String)>) -> HeaderList {
    v.map_values(|p: (String, String)| (p.0@, p.1@))
}

/// The value of the first header named `name`, ignoring ASCII case.
pub fn find_header(headers: &Vec<(String, String)>, name: &str) -> (r: Option<String>)
    ensures
        match r {
            Some(v) => header_value(header_views(headers@), name@) == Some(v@),
            None => header_value(header_views(headers@), name@) is None,
        },
{
    let n = chars_of(name);
    let mut i: usize = 0;
    assert(header_views(headers@).skip(0) =~= header_views(headers@));
    while i < headers.len()
        invariant
            i <= headers@.len(),
            n@ == name@,
            header_value(header_views(headers@), name@) == header_value(
                header_views(headers@).skip(i as int),
                name@,
            ),
        decreases headers@.len() - i,
    {
        let ghost rest = header_views(headers@).skip(i as int);
        assert(rest[0] == (headers@[i as int].0@, headers@[i as int].1@));
        let k = chars_of(headers[i].0.as_str());
        if eq_ignore_ascii_case(k.as_slice(), n.as_slice()) {
            return Some(headers[i].1.clone());
        }
        assert(rest.drop_first() =~= header_views(headers@).skip(i + 1));
        i = i + 1;
    }
    None
}

/// The index of the first header named `name`, ignoring ASCII case.
pub fn find_header_index(headers: &Vec<(String, String)>, name: &str) -> (r: Option<usize>)
    ensures
        match r {
            Some(i) => i < headers@.len() && header_value(header_views(headers@), name@) == Some(
                headers@[i as int].1@,
            ),
            None => header_value(header_views(headers@), name@) is None,
        },
{
    let n = chars_of(name);
    let mut i: usize = 0;
    assert(header_views(headers@).skip(0) =~= header_views(headers@));
    while i < headers.len()
        invariant
            i <= headers@.len(),
            n@ == name@,
            header_value(header_views(headers@), name@) == header_value(
                header_views(headers@).skip(i as int),
                name@,
            ),
        decreases headers@.len() - i,
    {
        let ghost rest = header_views(headers@).skip(i as int);
        assert(rest[0] == (headers@[i as int].0@, headers@[i as int].1@));
        let k = chars_of(headers[i].0.as_str());
        if eq_ignore_ascii_case(k.as_slice(), n.as_slice()) {
            return Some(i);
        }
        assert(rest.drop_first() =~= header_views(headers@).skip(i + 1));
        i = i + 1;
    }
    None
}

/// `path` up to its first `?`.
pub open spec fn without_query(path: Seq<char>) -> Seq<char> {
    path.take(index_of(path, '?'))
}

/// `path` up to its first `?`.
pub fn path_without_query_of(path: &str) -> (r: String)
    ensures
        r@ == without_query(path@),
{
    let p = chars_of(path);
    let k = index_of_char(p.as_slice(), '?');
    proof {
        lemma_index_of(p@, '?');
    }
    let q = slice(p.as_slice(), 0, k);
    assert(q@ =~= without_query(path@));
    string_of(q.as_slice())
}

/// The header pairs that the header lines give: each line with a `:` splits there, both
/// sides trimmed; a line without one is skipped.
pub open spec fn header_pairs(ls: Seq<Seq<char>>) -> HeaderList
    decreases ls.len(),
{
    if ls.len() == 0 {
        seq![]
    } else {
        let l = ls[0];
        let k = index_of(l, ':');
        let rest = header_pairs(ls.drop_first());
        if k < l.len() {
            seq![(trim(l.take(k)), trim(l.skip(k + 1)))] + rest
        } else {
            rest
        }
    }
}

/// Why a request text could not be read.
#[derive(Debug, Clone, Copy, PartialEq, Eq, Structural)]
pub enum RequestFault {
    NoHeaderTerminator,
    NoRequestLine,
    NoMethod,
    NoPath,
}

/// A request read from its text: method, path, headers and body.
pub type RequestParts = (Seq<char>, Seq<char>, HeaderList, Seq<char>);

/// The request that `raw` holds: the head ends at the first blank line (`\r\n\r\n`), its
/// first line gives method and path, the other lines give headers, and the rest is the body.
pub open spec fn parse_request(raw: Seq<char>) -> Result<RequestParts, RequestFault> {
    match find_first(raw, "\r\n\r\n"@) {
        None => Err(RequestFault::NoHeaderTerminator),
        Some(k) => {
            let head = raw.take(k);
            let body = raw.skip(k + 4);
            let ls = lines(head);
            if ls.len() == 0 {
                Err(RequestFault::NoRequestLine)
            } else {
                let ws = words(ls[0]);
                if ws.len() == 0 {
                    Err(RequestFault::NoMethod)
                } else if ws.len() < 2 {
                    Err(RequestFault::NoPath)
                } else {
                    Ok((ws[0], ws[1], header_pairs(ls.drop_first()), body))
                }
            }
        },
    }
}

/// A line of a request head: some text, without carriage return or line feed.
pub open spec fn head_line(l: Seq<char>) -> bool {
    l.len() > 0 && !l.contains('\r') && !l.contains('\n')
}

/// Head lines joined by `\r\n`.
pub open spec fn crlf_joined(ls: Seq<Seq<char>>) -> Seq<char> {
    join_with(ls, "\r\n"@)
}

proof fn lemma_crlf_prepend(l: Seq<char>, r: Seq<Seq<char>>)
    requires
        r.len() >= 1,
    ensures
        crlf_joined(seq![l] + r) == l + seq!['\r', '\n'] + crlf_joined(r),
{
    reveal_strlit("\r\n");
    lemma_join_prepend(l, r, "\r\n"@);
    assert("\r\n"@ =~= seq!['\r', '\n']);
}

/// The lines of head lines joined by `\r\n` are those lines.
#[verifier::spinoff_prover]
pub proof fn lemma_lines_of_head(ls: Seq<Seq<char>>)
    requires
        ls.len() >= 1,
        forall|i: int| 0 <= i < ls.len() ==> head_line(#[trigger] ls[i]),
    ensures
        lines(crlf_joined(ls)) == ls,
    decreases ls.len(),
{
    let l = ls[0];
    assert(head_line(l));
    if ls.len() == 1 {
        assert(ls =~= seq![l]);
        assert(crlf_joined(ls) == l);
        lemma_index_absent(l, '\n');
    } else {
        let r = ls.drop_first();
        assert(ls =~= seq![l] + r);
        lemma_crlf_prepend(l, r);
        let lr = l + seq!['\r'];
        assert(!lr.contains('\n')) by {
            if lr.contains('\n') {
                let j = choose|j: int| 0 <= j < lr.len() && lr[j] == '\n';
                if j < l.len() {
                    assert(l[j] == '\n');
                }
            }
        }
        let rest = crlf_joined(r);
        let text = crlf_joined(ls);
        assert(text =~= lr + seq!['\n'] + rest);
        lemma_index_past(lr, '\n', rest);
        assert(text.take(lr.len() as int) =~= lr);
        assert(lr.drop_last() =~= l);
        assert(text.skip(lr.len() + 1int) =~= rest);
        assert forall|i: int| 0 <= i < r.len() implies head_line(#[trigger] r[i]) by {
            assert(r[i] == ls[i + 1]);
        }
        lemma_lines_of_head(r);
        assert(seq![l] + r =~= ls);
    }
}

proof fn lemma_no_blank_within(l: Seq<char>, rest: Seq<char>, j: int)
    requires
        head_line(l),
        0 <= j < l.len() + 2,
        j != l.len(),
    ensures
        !matches_at(l + seq!['\r', '\n'] + rest, "\r\n\r\n"@, j),
{
    reveal_strlit("\r\n\r\n");
    let text = l + seq!['\r', '\n'] + rest;
    if matches_at(text, "\r\n\r\n"@, j) {
        assert(text[j] == text.subrange(j, j + 4)[0]);
        if j < l.len() {
            assert(l[j] == '\r');
        } else {
            assert(text[j] == '\n');
        }
    }
}

/// The first blank line after head lines is the one that ends the head.
#[verifier::spinoff_prover]
pub proof fn lemma_head_end(ls: Seq<Seq<char>>, body: Seq<char>)
    requires
        ls.len() >= 1,
        forall|i: int| 0 <= i < ls.len() ==> head_line(#[trigger] ls[i]),
    ensures
        is_first_match(crlf_joined(ls) + "\r\n\r\n"@ + body, "\r\n\r\n"@, crlf_joined(ls).len() as int),
    decreases ls.len(),
{
    reveal_strlit("\r\n\r\n");
    let l = ls[0];
    assert(head_line(l));
    let text = crlf_joined(ls) + "\r\n\r\n"@ + body;
    let p = "\r\n\r\n"@;
    if ls.len() == 1 {
        assert(ls =~= seq![l]);
        assert(crlf_joined(ls) == l);
        let rest = seq!['\r', '\n'] + body;
        assert(text =~= l + seq!['\r', '\n'] + rest);
        assert(text.subrange(l.len() as int, l.len() + 4int) =~= p);
        assert forall|j: int| 0 <= j < l.len() implies !#[trigger] matches_at(text, p, j) by {
            lemma_no_blank_within(l, rest, j);
        }
    } else {
        let r = ls.drop_first();
        assert(ls =~= seq![l] + r);
        lemma_crlf_prepend(l, r);
        assert forall|i: int| 0 <= i < r.len() implies head_line(#[trigger] r[i]) by {
            assert(r[i] == ls[i + 1]);
        }
        lemma_head_end(r, body);
        let rest = crlf_joined(r) + p + body;
        assert(text =~= l + seq!['\r', '\n'] + rest);
        let off = l.len() + 2;
        let n = crlf_joined(r).len() as int;
        assert(matches_at(rest, p, n));
        assert(text.subrange(off + n, off + n + 4) =~= rest.subrange(n, n + 4));
        assert forall|j: int| 0 <= j < off + n implies !#[trigger] matches_at(text, p, j) by {
            if j < off && j != l.len() {
                lemma_no_blank_within(l, rest, j);
            } else if j == l.len() {
                assert(head_line(r[0]));
                if r.len() == 1 {
                    assert(crlf_joined(r) == r[0]);
                } else {
                    lemma_crlf_prepend(r[0], r.drop_first());
                    assert(r =~= seq![r[0]] + r.drop_first());
                }
                assert(rest[0] == r[0][0]);
                assert(text[j + 2] == rest[0]);
                if matches_at(text, p, j) {
                    assert(text[j + 2] == text.subrange(j, j + 4)[2]);
                    assert(r[0].contains('\r'));
                }
            } else {
                assert(!matches_at(rest, p, j - off));
                if matches_at(text, p, j) {
                    assert(text.subrange(j, j + 4) =~= rest.subrange(j - off, j - off + 4));
                }
            }
        }
    }
}

/// The words of a word, a space and more text: that word, then the words of the rest.
pub proof fn lemma_words_cons(w: Seq<char>, rest: Seq<char>)
    requires
        w.len() > 0,
        forall|i: int| 0 <= i < w.len() ==> !is_ws(#[trigger] w[i]),
    ensures
        words(w + seq![' '] + rest) == seq![w] + words(rest),
{
    let s = w + seq![' '] + rest;
    let sp = seq![' '] + rest;
    assert(is_ws(' '));
    assert(sp[0] == ' ');
    assert(s =~= w + sp);
    lemma_word_len_of(w, sp);
    assert(s[0] == w[0]);
    assert(!is_ws(s[0]));
    assert(s.take(w.len() as int) =~= w);
    assert(s.skip(w.len() as int) =~= sp);
    assert(sp.drop_first() =~= rest);
    assert(words(sp) == words(rest));
    assert(words(s) == seq![s.take(word_len(s))] + words(s.skip(word_len(s))));
}

proof fn lemma_word_len_of(w: Seq<char>, rest: Seq<char>)
    requires
        forall|i: int| 0 <= i < w.len() ==> !is_ws(#[trigger] w[i]),
        rest.len() == 0 || is_ws(rest[0]),
    ensures
        word_len(w + rest) == w.len(),
    decreases w.len(),
{
    if w.len() > 0 {
        assert((w + rest)[0] == w[0]);
        assert((w + rest).drop_first() =~= w.drop_first() + rest);
        assert forall|i: int| 0 <= i < w.drop_first().len() implies !is_ws(#[trigger] w.drop_first()[i]) by {
            assert(w.drop_first()[i] == w[i + 1]);
        }
        lemma_word_len_of(w.drop_first(), rest);
    } else {
        assert(w + rest =~= rest);
    }
}

/// The words of a single word.
pub proof fn lemma_words_one(w: Seq<char>)
    requires
        w.len() > 0,
        forall|i: int| 0 <= i < w.len() ==> !is_ws(#[trigger] w[i]),
    ensures
        words(w) == seq![w],
{
    lemma_word_len_of(w, Seq::<char>::empty());
    assert(w + Seq::<char>::empty() =~= w);
    assert(!is_ws(w[0]));
    assert(w.take(w.len() as int) =~= w);
    assert(w.skip(w.len() as int) =~= Seq::<char>::empty());
    assert(words(Seq::<char>::empty()) == Seq::<Seq<char>>::empty());
    assert(words(w) == seq![w.take(word_len(w))] + words(w.skip(word_len(w))));
    assert(seq![w] + Seq::<Seq<char>>::empty() =~= seq![w]);
}

/// A header line splits at its first `:`, both sides trimmed.
pub proof fn lemma_header_line(name: Seq<char>, value: Seq<char>, rest: Seq<Seq<char>>)
    requires
        !name.contains(':'),
    ensures
        header_pairs(seq![name + seq![':'] + value] + rest) == seq![(trim(name), trim(value))] + header_pairs(rest),
{
    let l = name + seq![':'] + value;
    let ls = seq![l] + rest;
    lemma_index_past(name, ':', value);
    assert(ls[0] == l);
    assert(ls.drop_first() =~= rest);
    assert(l.take(name.len() as int) =~= name);
    assert(l.skip(name.len() + 1int) =~= value);
}

fn header_list(ls: &Vec<Vec<char>>, from: usize) -> (r: Vec<(String, String)>)
    requires
        from <= ls@.len(),
    ensures
        header_views(r@) == header_pairs(views(ls@).skip(from as int)),
    decreases ls@.len() - from,
{
    if from == ls.len() {
        let r: Vec<(String, String)> = Vec::new();
        assert(views(ls@).skip(from as int) =~= Seq::<Seq<char>>::empty());
        assert(header_views(r@) =~= Seq::<(Seq<char>, Seq<char>)>::empty());
        return r;
    }
    let rest = header_list(ls, from + 1);
    let l = &ls[from];
    let ghost vs = views(ls@).skip(from as int);
    assert(vs[0] == l@);
    assert(vs.drop_first() =~= views(ls@).skip(from + 1));
    let k = index_of_char(l.as_slice(), ':');
    proof {
        lemma_index_of(l@, ':');
    }
    if k < l.len() {
        let name = slice(l.as_slice(), 0, k);
        let value = slice(l.as_slice(), k + 1, l.len());
        assert(name@ =~= l@.take(k as int));
        assert(value@ =~= l@.skip(k + 1));
        let tn = trim_chars(name.as_slice());
        let tv = trim_chars(value.as_slice());
        let mut r: Vec<(String, String)> = Vec::new();
        r.push((string_of(tn.as_slice()), string_of(tv.as_slice())));
        let mut rest = rest;
        r.append(&mut rest);
        assert(header_views(r@) =~= seq![(trim(l@.take(k as int)), trim(l@.skip(k + 1)))]
            + header_pairs(vs.drop_first()));
        r
    } else {
        rest
    }
}

/// Reads a request from its text.
pub fn parse_request_parts(raw: &str) -> (r: Result<(String, String, Vec<(String, String)>, String), RequestFault>)
    ensures
        match r {
            Ok((m, p, h, b)) => parse_request(raw@) == Ok::<RequestParts, RequestFault>((m@, p@, header_views(h@), b@)),
            Err(f) => parse_request(raw@) == Err::<RequestParts, RequestFault>(f),
        },
{
    let cs = chars_of(raw);
    let term = chars_of("\r\n\r\n");
    proof {
        reveal_strlit("\r\n\r\n");
    }
    let k = match find_first_exec(cs.as_slice(), term.as_slice()) {
        Some(k) => k,
        None => {
            return Err(RequestFault::NoHeaderTerminator);
        },
    };
    assert(term@.len() == 4);
    assert(k + 4 <= cs.len());
    let head = slice(cs.as_slice(), 0, k);
    let body = slice(cs.as_slice(), k + 4, cs.len());
    assert(head@ =~= raw@.take(k as int));
    assert(body@ =~= raw@.skip(k + 4));
    let ls = lines_of(head.as_slice());
    if ls.len() == 0 {
        return Err(RequestFault::NoRequestLine);
    }
    assert(views(ls@)[0] == ls@[0]@);
    let ws = words_of(ls[0].as_slice());
    if ws.len() == 0 {
        return Err(RequestFault::NoMethod);
    }
    if ws.len() < 2 {
        return Err(RequestFault::NoPath);
    }
    assert(views(ws@)[0] == ws@[0]@ && views(ws@)[1] == ws@[1]@);
    let headers = header_list(&ls, 1);
    assert(views(ls@).skip(1) =~= views(ls@).drop_first());
    Ok((string_of(ws[0].as_slice()), string_of(ws[1].as_slice()), headers, string_of(body.as_slice())))
}

/// The index of the first `\r\n\r\n` in `bytes`.
pub open spec fn bytes_match_at(bytes: Seq<u8>, i: int) -> bool {
    0 <= i && i + 4 <= bytes.len() && bytes[i] == 13 && bytes[i + 1] == 10 && bytes[i + 2] == 13
        && bytes[i + 3] == 10
}

/// Where the head of a request ends: the index of the first `\r\n\r\n` in `buffer`.
pub fn find_header_end(buffer: &[u8]) -> (r: Option<usize>)
    ensures
        match r {
            Some(i) => bytes_match_at(buffer@, i as int) && forall|j: int|
                0 <= j < i ==> !#[trigger] bytes_match_at(buffer@, j),
            None => forall|j: int| !#[trigger] bytes_match_at(buffer@, j),
        },
{
    if buffer.len() < 4 {
        return None;
    }
    let mut i: usize = 0;
    while i < buffer.len() - 3
        invariant
            buffer.len() >= 4,
            forall|j: int| 0 <= j < i ==> !#[trigger] bytes_match_at(buffer@, j),
            buffer@.len() == buffer.len(),
        decreases buffer@.len() - i,
    {
        if buffer[i] == 13 && buffer[i + 1] == 10 && buffer[i + 2] == 13 && buffer[i + 3] == 10 {
            return Some(i);
        }
        i = i + 1;
    }
    None
}

/// The `Content-Length` that the header lines declare: the first line named
/// `content-length` (in any case) whose trimmed value parses; `0` where there is none.
pub open spec fn declared_length(ls: Seq<Seq<char>>) -> nat
    decreases ls.len(),
{
    if ls.len() == 0 {
        0
    } else {
        let l = ls[0];
        let k = index_of(l, ':');
        if k < l.len() && eq_ignore_case(l.take(k), "content-length"@) && parse_unsigned(
            trim(l.skip(k + 1)),
            usize::MAX as nat,
        ) is Some {
            parse_unsigned(trim(l.skip(k + 1)), usize::MAX as nat)->0
        } else {
            declared_length(ls.drop_first())
        }
    }
}

/// The body length that the head of a request declares.
pub fn content_length(header: &str) -> (n: usize)
    ensures
        n == declared_length(lines(header@)),
{
    let cs = chars_of(header);
    let ls = lines_of(cs.as_slice());
    let name = chars_of("content-length");
    let mut i: usize = 0;
    assert(views(ls@).skip(0) =~= views(ls@));
    while i < ls.len()
        invariant
            i <= ls@.len(),
            name@ == "content-length"@,
            declared_length(lines(header@)) == declared_length(views(ls@).skip(i as int)),
        decreases ls@.len() - i,
    {
        let l = &ls[i];
        let ghost rest = views(ls@).skip(i as int);
        assert(rest[0] == l@);
        assert(rest.drop_first() =~= views(ls@).skip(i + 1));
        let k = index_of_char(l.as_slice(), ':');
        proof {
            lemma_index_of(l@, ':');
        }
        if k < l.len() {
            let n = slice(l.as_slice(), 0, k);
            assert(n@ =~= l@.take(k as int));
            if eq_ignore_ascii_case(n.as_slice(), name.as_slice()) {
                let v = slice(l.as_slice(), k + 1, l.len());
                assert(v@ =~= l@.skip(k + 1));
                let t = trim_chars(v.as_slice());
                match parse_unsigned_exec(t.as_slice(), usize::MAX as u64) {
                    Some(x) => {
                        return x as usize;
                    },
                    None => {},
                }
            }
        }
        i = i + 1;
    }
    assert(views(ls@).skip(i as int) =~= Seq::<Seq<char>>::empty());
    0
}

/// The byte length of the UTF-8 encoding of `s`, as `str::len` reports it.
pub open spec fn byte_len(s: Seq<char>) -> nat {
    (encode_utf8(s).len() as usize) as nat
}

/// `HTTP/1.1 <status> <reason>` with content type, byte length of the body,
/// `Connection: close`, a blank line and the body.
pub open spec fn response_text(status: u16, reason: Seq<char>, content_type: Seq<char>, body: Seq<char>) -> Seq<char> {
    "HTTP/1.1 "@ + decimal(status as nat) + " "@ + reason + "\r\nContent-Type: "@ + content_type
        + "\r\nContent-Length: "@ + decimal(byte_len(body)) + "\r\nConnection: close\r\n\r\n"@ + body
}

/// The bytes of a response.
pub fn response_bytes(status: u16, reason: &str, content_type: &str, body: &str) -> (r: Vec<u8>)
    ensures
        r@ == encode_utf8(response_text(status, reason@, content_type@, body@)),
{
    let mut out: Vec<char> = Vec::new();
    push_text(&mut out, "HTTP/1.1 ");
    let s = u64_text(status as u64);
    push_all(&mut out, s.as_slice());
    push_text(&mut out, " ");
    push_text(&mut out, reason);
    push_text(&mut out, "\r\nContent-Type: ");
    push_text(&mut out, content_type);
    push_text(&mut out, "\r\nContent-Length: ");
    let n = u64_text(body.len() as u64);
    push_all(&mut out, n.as_slice());
    push_text(&mut out, "\r\nConnection: close\r\n\r\n");
    push_text(&mut out, body);
    assert(out@ =~= response_text(status, reason@, content_type@, body@));
    let text = string_of(out.as_slice());
    vstd::slice::slice_to_vec(text.as_str().as_bytes())
}

} // verus!
