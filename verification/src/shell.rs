//! The desktop shell's library: screen paths chosen by the user, masked tokens, health
//! answers and the plans by which services are started.
use vstd::prelude::*;
use vstd::string::StrSliceExecFns;

use crate::json::{push_all, push_text};
use crate::json_doc::{pair_views, string_views};
use vstd::utf8::encode_utf8;
use crate::service::{
    default_roles, LocalRuntimeConfig, LocalServiceSpec, ServiceRole, LOCAL_BIND_HOST_ENV,
    LOCAL_TOKEN_ENV,
};
use crate::text::{
    chars_of, contains, contains_seq, ends_with, has_prefix, has_suffix, owned, slice, split_char,
    split_on, starts_with, string_of, trim, trim_chars, trim_str, views,
};

verus! {

/// A character allowed in a screen path segment: ASCII letter or digit, `_` or `-`.
pub open spec fn segment_char(c: char) -> bool {
    ('a' <= c && c <= 'z') || ('A' <= c && c <= 'Z') || ('0' <= c && c <= '9') || c == '_' || c == '-'
}

/// Every segment is non-empty and made of segment characters.
pub open spec fn segments_ok(segs: Seq<Seq<char>>) -> bool {
    forall|j: int|
        0 <= j < segs.len() ==> (#[trigger] segs[j]).len() > 0 && forall|k: int|
            0 <= k < segs[j].len() ==> segment_char(#[trigger] segs[j][k])
}

/// A screen path relative to the project: `config/screens/<segments>.screen.json`, without
/// `..`, `//` or backslashes, the segments non-empty and plain.
pub open spec fn valid_screen_path(value: Seq<char>) -> bool {
    let t = trim(value);
    let prefix = "config/screens/"@;
    let suffix = ".screen.json"@;
    &&& t.len() > 0
    &&& !contains_seq(t, ".."@)
    &&& !contains_seq(t, "//"@)
    &&& !t.contains('\\')
    &&& has_prefix(t, prefix)
    &&& has_suffix(t.skip(prefix.len() as int), suffix)
    &&& ({
        let body = t.skip(prefix.len() as int).take(t.len() - prefix.len() - suffix.len());
        &&& body.len() > 0
        &&& body[0] != '/'
        &&& body.last() != '/'
        &&& segments_ok(split_on(body, '/'))
    })
}

fn segment_ok(seg: &Vec<char>) -> (b: bool)
    ensures
        b == (seg@.len() > 0 && forall|k: int| 0 <= k < seg@.len() ==> segment_char(#[trigger] seg@[k])),
{
    if seg.len() == 0 {
        return false;
    }
    let mut k: usize = 0;
    while k < seg.len()
        invariant
            k <= seg@.len(),
            forall|q: int| 0 <= q < k ==> segment_char(#[trigger] seg@[q]),
        decreases seg@.len() - k,
    {
        let c = seg[k];
        if !(('a' <= c && c <= 'z') || ('A' <= c && c <= 'Z') || ('0' <= c && c <= '9') || c == '_' || c == '-') {
            return false;
        }
        k = k + 1;
    }
    true
}

/// Whether `value` is a screen path relative to the project.
pub fn is_valid_screen_relative_path(value: &str) -> (b: bool)
    ensures
        b == valid_screen_path(value@),
{
    proof {
        reveal_strlit("config/screens/");
        reveal_strlit(".screen.json");
        reveal_strlit("..");
        reveal_strlit("//");
    }
    let t = trim_str(value);
    if t.len() == 0 {
        return false;
    }
    let dots = chars_of("..");
    let slashes = chars_of("//");
    if contains(t.as_slice(), dots.as_slice()) || contains(t.as_slice(), slashes.as_slice()) {
        return false;
    }
    if has_backslash(t.as_slice()) {
        return false;
    }
    let prefix = chars_of("config/screens/");
    if !starts_with(t.as_slice(), prefix.as_slice()) {
        return false;
    }
    let rest = slice(t.as_slice(), 15, t.len());
    assert(rest@ =~= t@.skip(15));
    let suffix = chars_of(".screen.json");
    if !ends_with(rest.as_slice(), suffix.as_slice()) {
        return false;
    }
    let body = slice(rest.as_slice(), 0, rest.len() - 12);
    assert(body@ =~= t@.skip(15).take(t@.len() - 15 - 12));
    if body.len() == 0 || body[0] == '/' || body[body.len() - 1] == '/' {
        return false;
    }
    let segs = split_char(body.as_slice(), '/');
    segments_valid(&segs)
}

fn has_backslash(t: &[char]) -> (b: bool)
    ensures
        b == t@.contains('\\'),
{
    let mut i: usize = 0;
    while i < t.len()
        invariant
            i <= t@.len(),
            forall|q: int| 0 <= q < i ==> t@[q] != '\\',
        decreases t@.len() - i,
    {
        if t[i] == '\\' {
            assert(t@[i as int] == '\\');
            return true;
        }
        i = i + 1;
    }
    false
}

fn segments_valid(segs: &Vec<Vec<char>>) -> (b: bool)
    ensures
        b == segments_ok(views(segs@)),
{
    let mut j: usize = 0;
    while j < segs.len()
        invariant
            j <= segs@.len(),
            forall|q: int|
                0 <= q < j ==> (#[trigger] views(segs@)[q]).len() > 0 && forall|k: int|
                    0 <= k < views(segs@)[q].len() ==> segment_char(#[trigger] views(segs@)[q][k]),
        decreases segs@.len() - j,
    {
        assert(views(segs@)[j as int] == segs@[j as int]@);
        if !segment_ok(&segs[j]) {
            return false;
        }
        j = j + 1;
    }
    true
}

/// The parts of a path: the pieces between slashes, without empty ones and `.`.
pub open spec fn path_components(p: Seq<char>) -> Seq<Seq<char>> {
    split_on(p, '/').filter(|c: Seq<char>| c.len() > 0 && c != "."@)
}

/// The path of `absolute` below `root`: its parts after those of `root`, without `..`,
/// joined by `/`; or why there is none.
pub open spec fn relative_screen_path(root: Seq<char>, absolute: Seq<char>) -> Result<Seq<char>, Seq<char>> {
    if !(root.len() > 0 && root[0] == '/') {
        Err("project_root must be absolute"@)
    } else if !(absolute.len() > 0 && absolute[0] == '/') {
        Err("absolute_path must be absolute"@)
    } else {
        let rc = path_components(root);
        let ac = path_components(absolute);
        if !(rc.len() <= ac.len() && ac.take(rc.len() as int) == rc) {
            Err("selected path is outside project root"@)
        } else {
            let normalized = crate::screen::join_with(
                ac.skip(rc.len() as int).filter(|c: Seq<char>| c != ".."@),
                "/"@,
            );
            if valid_screen_path(normalized) {
                Ok(normalized)
            } else {
                Err("relative_path must match config/screens/*.screen.json and disallow traversal"@)
            }
        }
    }
}

fn components_of(p: &[char]) -> (r: Vec<String>)
    ensures
        crate::json_doc::string_views(r@) == path_components(p@),
{
    proof {
        reveal_strlit(".");
    }
    let parts = split_char(p, '/');
    let ghost pv = views(parts@);
    let mut r: Vec<String> = Vec::new();
    let mut i: usize = 0;
    assert(pv.take(0).filter(|c: Seq<char>| c.len() > 0 && c != "."@) =~= Seq::<Seq<char>>::empty());
    while i < parts.len()
        invariant
            i <= parts@.len(),
            pv == views(parts@),
            pv == split_on(p@, '/'),
            crate::json_doc::string_views(r@) == pv.take(i as int).filter(|c: Seq<char>| c.len() > 0 && c != "."@),
        decreases parts@.len() - i,
    {
        proof {
            reveal_strlit(".");
        }
        let ghost next = pv.take(i + 1);
        assert(next.drop_last() =~= pv.take(i as int));
        assert(next.last() == parts@[i as int]@);
        let part = &parts[i];
        let is_dot = part.len() == 1 && part[0] == '.';
        assert(is_dot == (part@ == "."@)) by {
            if part@.len() == 1 && part@[0] == '.' {
                assert(part@ =~= "."@);
            }
        }
        let ghost before = crate::json_doc::string_views(r@);
        if part.len() > 0 && !is_dot {
            r.push(string_of(part.as_slice()));
            assert(crate::json_doc::string_views(r@) =~= before.push(part@));
        }
        proof {
            pv.take(i as int).lemma_filter_push(part@, |c: Seq<char>| c.len() > 0 && c != "."@);
            assert(next =~= pv.take(i as int).push(part@));
        }
        i = i + 1;
    }
    assert(pv.take(pv.len() as int) =~= pv);
    r
}

fn is_prefix(a: &Vec<String>, b: &Vec<String>) -> (r: bool)
    ensures
        r == ({
            let av = crate::json_doc::string_views(a@);
            let bv = crate::json_doc::string_views(b@);
            av.len() <= bv.len() && bv.take(av.len() as int) == av
        }),
{
    let ghost av = crate::json_doc::string_views(a@);
    let ghost bv = crate::json_doc::string_views(b@);
    if a.len() > b.len() {
        return false;
    }
    let mut i: usize = 0;
    while i < a.len()
        invariant
            i <= a@.len(),
            a@.len() <= b@.len(),
            av == crate::json_doc::string_views(a@),
            bv == crate::json_doc::string_views(b@),
            bv.take(i as int) =~= av.take(i as int),
        decreases a@.len() - i,
    {
        if !crate::text::str_eq(a[i].as_str(), b[i].as_str()) {
            assert(bv.take(av.len() as int)[i as int] != av[i as int]);
            return false;
        }
        assert(bv.take(i + 1) =~= bv.take(i as int).push(bv[i as int]));
        assert(av.take(i + 1) =~= av.take(i as int).push(av[i as int]));
        i = i + 1;
    }
    assert(av.take(av.len() as int) =~= av);
    true
}

/// The path of a screen file chosen under the project root, relative to that root.
pub fn normalize_relative_screen_path(project_root: &str, absolute_path: &str) -> (r: Result<String, String>)
    ensures
        match r {
            Ok(s) => relative_screen_path(project_root@, absolute_path@) == Ok::<Seq<char>, Seq<char>>(s@),
            Err(e) => relative_screen_path(project_root@, absolute_path@) == Err::<Seq<char>, Seq<char>>(e@),
        },
{
    proof {
        reveal_strlit("..");
    }
    let root = chars_of(project_root);
    let abs = chars_of(absolute_path);
    if !(root.len() > 0 && root[0] == '/') {
        return Err(owned("project_root must be absolute"));
    }
    if !(abs.len() > 0 && abs[0] == '/') {
        return Err(owned("absolute_path must be absolute"));
    }
    let rc = components_of(root.as_slice());
    let ac = components_of(abs.as_slice());
    let ghost rv = crate::json_doc::string_views(rc@);
    let ghost av = crate::json_doc::string_views(ac@);
    if !is_prefix(&rc, &ac) {
        return Err(owned("selected path is outside project root"));
    }
    let mut kept: Vec<String> = Vec::new();
    let mut j: usize = rc.len();
    assert(av.skip(rv.len() as int).take(0).filter(|c: Seq<char>| c != ".."@) =~= Seq::<Seq<char>>::empty());
    while j < ac.len()
        invariant
            rc@.len() <= j <= ac@.len(),
            rv.len() == rc@.len(),
            av == crate::json_doc::string_views(ac@),
            crate::json_doc::string_views(kept@) == av.skip(rv.len() as int).take(j - rv.len()).filter(
                |c: Seq<char>| c != ".."@,
            ),
        decreases ac@.len() - j,
    {
        proof {
            reveal_strlit("..");
        }
        let ghost pre = av.skip(rv.len() as int).take(j - rv.len());
        let ghost next = av.skip(rv.len() as int).take(j + 1 - rv.len());
        assert(next =~= pre.push(av[j as int]));
        let ghost before = crate::json_doc::string_views(kept@);
        if !crate::text::str_eq(ac[j].as_str(), "..") {
            kept.push(ac[j].clone());
            assert(crate::json_doc::string_views(kept@) =~= before.push(av[j as int]));
        }
        proof {
            pre.lemma_filter_push(av[j as int], |c: Seq<char>| c != ".."@);
        }
        j = j + 1;
    }
    assert(av.skip(rv.len() as int).take(ac@.len() - rv.len()) =~= av.skip(rv.len() as int));
    let normalized = crate::screen::join_strings(&kept, "/");
    if !is_valid_screen_relative_path(normalized.as_str()) {
        return Err(owned("relative_path must match config/screens/*.screen.json and disallow traversal"));
    }
    Ok(normalized)
}

/// The number of bytes `c` takes in UTF-8.
pub open spec fn char_width(c: char) -> nat {
    let u = c as u32;
    if u <= 0x7f {
        1
    } else if u <= 0x7ff {
        2
    } else if u <= 0xffff {
        3
    } else {
        4
    }
}

/// The number of bytes of the UTF-8 encoding of `s`, which `str::len` reports.
pub open spec fn utf8_len(s: Seq<char>) -> nat {
    encode_utf8(s).len()
}

/// `str` may be cut `k` bytes into `s`: some of its characters take exactly `k` bytes.
pub open spec fn cut_at(s: Seq<char>, k: int) -> bool {
    exists|i: int| 0 <= i <= s.len() && utf8_len(#[trigger] s.take(i)) == k
}

/// The number of characters in the first six bytes of `t`.
pub open spec fn head_chars(t: Seq<char>) -> int {
    choose|i: int| 0 <= i <= t.len() && utf8_len(#[trigger] t.take(i)) == 6
}

/// `str` may be cut `k` bytes before the end of `s`: some of its last characters take
/// exactly `k` bytes.
pub open spec fn cut_from_end(s: Seq<char>, k: int) -> bool {
    exists|j: int| 0 <= j <= s.len() && utf8_len(#[trigger] s.skip(j)) == k
}

/// Where the last four bytes of `t` begin, in characters.
pub open spec fn tail_start(t: Seq<char>) -> int {
    choose|j: int| 0 <= j <= t.len() && utf8_len(#[trigger] t.skip(j)) == 4
}

/// A token shown with its middle hidden: `****` where it takes at most eight bytes, else
/// its first six bytes, `...` and its last four.
pub open spec fn masked(token: Seq<char>) -> Seq<char> {
    if utf8_len(token) <= 8 {
        "****"@
    } else {
        token.take(head_chars(token)) + "..."@ + token.skip(tail_start(token))
    }
}

proof fn lemma_encode_concat(a: Seq<char>, b: Seq<char>)
    ensures
        encode_utf8(a + b) == encode_utf8(a) + encode_utf8(b),
    decreases a.len(),
{
    if a.len() == 0 {
        assert(a + b =~= b);
        assert(encode_utf8(a) + encode_utf8(b) =~= encode_utf8(b));
    } else {
        assert((a + b).drop_first() =~= a.drop_first() + b);
        assert((a + b)[0] == a[0]);
        lemma_encode_concat(a.drop_first(), b);
        assert(encode_utf8(a + b) =~= encode_utf8(a) + encode_utf8(b));
    }
}

proof fn lemma_char_width(c: char)
    ensures
        encode_utf8(seq![c]).len() == char_width(c),
{
    let s = seq![c];
    assert(s.drop_first() =~= Seq::<char>::empty());
    assert(encode_utf8(s.drop_first()) =~= Seq::<u8>::empty());
    assert(s[0] == c);
    assert(encode_utf8(s) =~= vstd::utf8::encode_scalar(c as u32));
}

proof fn lemma_take_step(s: Seq<char>, i: int)
    requires
        0 <= i < s.len(),
    ensures
        utf8_len(s.take(i + 1)) == utf8_len(s.take(i)) + char_width(s[i]),
{
    assert(s.take(i + 1) =~= s.take(i) + seq![s[i]]);
    lemma_encode_concat(s.take(i), seq![s[i]]);
    lemma_char_width(s[i]);
}

proof fn lemma_take_grows(s: Seq<char>, i: int, j: int)
    requires
        0 <= i < j <= s.len(),
    ensures
        utf8_len(s.take(i)) < utf8_len(s.take(j)),
    decreases j - i,
{
    lemma_take_step(s, j - 1);
    if i < j - 1 {
        lemma_take_grows(s, i, j - 1);
    }
}

proof fn lemma_skip_step(s: Seq<char>, j: int)
    requires
        0 < j <= s.len(),
    ensures
        utf8_len(s.skip(j - 1)) == char_width(s[j - 1]) + utf8_len(s.skip(j)),
{
    assert(s.skip(j - 1) =~= seq![s[j - 1]] + s.skip(j));
    lemma_encode_concat(seq![s[j - 1]], s.skip(j));
    lemma_char_width(s[j - 1]);
}

proof fn lemma_skip_shrinks(s: Seq<char>, i: int, j: int)
    requires
        0 <= i < j <= s.len(),
    ensures
        utf8_len(s.skip(i)) > utf8_len(s.skip(j)),
    decreases j - i,
{
    lemma_skip_step(s, i + 1);
    if i + 1 < j {
        lemma_skip_shrinks(s, i + 1, j);
    }
}

/// Where the last `k` bytes of `t` begin, in characters, where they start a character.
fn chars_from_end(t: &Vec<char>, k: usize) -> (j: usize)
    requires
        cut_from_end(t@, k as int),
    ensures
        j <= t@.len(),
        utf8_len(t@.skip(j as int)) == k,
{
    let ghost w = choose|j: int| 0 <= j <= t@.len() && utf8_len(#[trigger] t@.skip(j)) == k as int;
    let mut j: usize = t.len();
    let mut sum: usize = 0;
    assert(t@.skip(t@.len() as int) =~= Seq::<char>::empty());
    while sum < k
        invariant
            0 <= w <= j <= t@.len(),
            utf8_len(t@.skip(w)) == k,
            sum == utf8_len(t@.skip(j as int)),
            sum <= k,
        decreases j,
    {
        proof {
            assert(w < j);
            lemma_skip_step(t@, j as int);
            if w < j - 1 {
                lemma_skip_shrinks(t@, w, j - 1);
            }
        }
        sum = sum + width_of(t[j - 1]);
        j = j - 1;
    }
    proof {
        if w < j {
            lemma_skip_shrinks(t@, w, j as int);
        }
    }
    j
}

proof fn lemma_take_whole(s: Seq<char>)
    ensures
        utf8_len(s.take(s.len() as int)) == utf8_len(s),
{
    assert(s.take(s.len() as int) =~= s);
}

fn width_of(c: char) -> (w: usize)
    ensures
        w == char_width(c),
{
    let u = c as u32;
    if u <= 0x7f {
        1
    } else if u <= 0x7ff {
        2
    } else if u <= 0xffff {
        3
    } else {
        4
    }
}

/// The number of characters of `t` that take exactly `k` bytes, where there is one.
fn chars_in_bytes(t: &Vec<char>, k: usize) -> (i: usize)
    requires
        cut_at(t@, k as int),
    ensures
        i <= t@.len(),
        utf8_len(t@.take(i as int)) == k,
{
    let ghost w = choose|i: int| 0 <= i <= t@.len() && utf8_len(#[trigger] t@.take(i)) == k as int;
    let n: usize = t.len();
    let mut i: usize = 0;
    let mut sum: usize = 0;
    assert(t@.take(0) =~= Seq::<char>::empty());
    while sum < k
        invariant
            n == t@.len(),
            i <= w <= t@.len(),
            utf8_len(t@.take(w)) == k,
            sum == utf8_len(t@.take(i as int)),
            sum <= k,
        decreases k - sum,
    {
        proof {
            assert(i < w);
            if i < w {
                lemma_take_step(t@, i as int);
                if i + 1 < w {
                    lemma_take_grows(t@, i + 1, w);
                }
            }
        }
        sum = sum + width_of(t[i]);
        i = i + 1;
    }
    proof {
        if i < w {
            lemma_take_grows(t@, i as int, w);
        }
    }
    i
}

/// Whether `t` takes more than eight bytes.
fn longer_than_eight_bytes(t: &Vec<char>) -> (b: bool)
    ensures
        b == (utf8_len(t@) > 8),
{
    let mut i: usize = 0;
    let mut sum: usize = 0;
    assert(t@.take(0) =~= Seq::<char>::empty());
    while i < t.len()
        invariant
            i <= t@.len(),
            sum == utf8_len(t@.take(i as int)),
            sum <= 8,
        decreases t@.len() - i,
    {
        proof {
            lemma_take_step(t@, i as int);
        }
        let w = width_of(t[i]);
        if sum + w > 8 {
            proof {
                if i + 1 < t@.len() {
                    lemma_take_grows(t@, i + 1, t@.len() as int);
                }
                lemma_take_whole(t@);
            }
            return true;
        }
        sum = sum + w;
        i = i + 1;
    }
    proof {
        lemma_take_whole(t@);
    }
    false
}

/// Hides the middle of a token; a token longer than eight bytes must be cut six bytes in
/// and four bytes from its end at character boundaries, as `str` slicing requires.
pub fn mask_token(token: &str) -> (r: String)
    requires
        utf8_len(token@) <= 8 || (cut_at(token@, 6) && cut_from_end(token@, 4)),
    ensures
        r@ == masked(token@),
{
    let t = chars_of(token);
    if !longer_than_eight_bytes(&t) {
        return owned("****");
    }
    let h = chars_in_bytes(&t, 6);
    let start = chars_from_end(&t, 4);
    proof {
        let hc = head_chars(t@);
        let ts = tail_start(t@);
        assert(0 <= hc <= t@.len() && utf8_len(t@.take(hc)) == 6);
        if hc < h {
            lemma_take_grows(t@, hc, h as int);
        }
        if h < hc {
            lemma_take_grows(t@, h as int, hc);
        }
        assert(0 <= ts <= t@.len() && utf8_len(t@.skip(ts)) == 4);
        if ts < start {
            lemma_skip_shrinks(t@, ts, start as int);
        }
        if start < ts {
            lemma_skip_shrinks(t@, start as int, ts);
        }
    }
    let mut out: Vec<char> = Vec::new();
    let head = slice(t.as_slice(), 0, h);
    let tail = slice(t.as_slice(), start, t.len());
    push_all(&mut out, head.as_slice());
    push_text(&mut out, "...");
    push_all(&mut out, tail.as_slice());
    assert(out@ =~= masked(token@));
    string_of(out.as_slice())
}

/// How a service answered its health check.
#[derive(Debug, Clone, PartialEq, Eq)]
pub struct ServiceHealthResult {
    pub service: String,
    pub healthy: bool,
    pub output: String,
}

/// Reads a service's answer to its health check: healthy where the trimmed output is
/// `<role>: healthy`.
pub fn parse_health_output(service: &LocalServiceSpec, output: &str) -> (r: ServiceHealthResult)
    ensures
        r.service@ == service.role.name(),
        r.output@ == trim(output@),
        r.healthy == (trim(output@) == service.role.name() + ": healthy"@),
{
    let trimmed = trim_str(output);
    let mut expected: Vec<char> = Vec::new();
    push_text(&mut expected, service.role.as_str());
    push_text(&mut expected, ": healthy");
    let healthy = crate::text::chars_eq(trimmed.as_slice(), expected.as_slice());
    ServiceHealthResult { service: owned(service.role.as_str()), healthy, output: string_of(trimmed.as_slice()) }
}

/// How running a service's health check went.
#[derive(Debug, Clone, PartialEq, Eq)]
pub enum HealthRun {
    /// The check ran and ended; whether it succeeded, and what it printed.
    Finished { success: bool, stdout: String, stderr: String },
    /// The check could not be run.
    Failed(String),
}

/// The health of a service from how its check ran: a successful run is read from its
/// output, a failed one is unhealthy with its trimmed error output, and one that could not
/// run is unhealthy with the reason.
pub fn health_from_run(service: &LocalServiceSpec, run: HealthRun) -> (r: ServiceHealthResult)
    ensures
        r.service@ == service.role.name(),
        match run {
            HealthRun::Finished { success, stdout, stderr } => if success {
                r.output@ == trim(stdout@) && r.healthy == (trim(stdout@) == service.role.name() + ": healthy"@)
            } else {
                !r.healthy && r.output@ == trim(stderr@)
            },
            HealthRun::Failed(m) => !r.healthy && r.output == m,
        },
{
    match run {
        HealthRun::Finished { success, stdout, stderr } => {
            if success {
                parse_health_output(service, stdout.as_str())
            } else {
                let t = trim_str(stderr.as_str());
                ServiceHealthResult { service: owned(service.role.as_str()), healthy: false, output: string_of(t.as_slice()) }
            }
        },
        HealthRun::Failed(m) => ServiceHealthResult { service: owned(service.role.as_str()), healthy: false, output: m },
    }
}

/// Runs a service's health check outside: its binary with its health argument.
pub trait HealthProbe {
    fn run_check(&self, binary: &str, health_arg: &str) -> HealthRun;
}

/// The health of each default service, in order, each checked by running its binary in
/// `bin_dir` with its health argument. A service counts as healthy only where its check
/// printed `<role>: healthy`.
pub fn check_default_services<P: HealthProbe>(bin_dir: &str, probe: &P) -> (r: Vec<ServiceHealthResult>)
    ensures
        r@.len() == default_roles().len(),
        forall|i: int|
            0 <= i < r@.len() ==> {
                &&& (#[trigger] r@[i]).service@ == default_roles()[i].name()
                &&& r@[i].healthy ==> r@[i].output@ == default_roles()[i].name() + ": healthy"@
            },
{
    let services = crate::service::default_local_services();
    let mut out: Vec<ServiceHealthResult> = Vec::new();
    let mut i: usize = 0;
    while i < services.len()
        invariant
            i <= services@.len(),
            services@.len() == default_roles().len(),
            forall|k: int| 0 <= k < services@.len() ==> (#[trigger] services@[k]).role == default_roles()[k],
            out@.len() == i,
            forall|k: int|
                0 <= k < i ==> {
                    &&& (#[trigger] out@[k]).service@ == default_roles()[k].name()
                    &&& out@[k].healthy ==> out@[k].output@ == default_roles()[k].name() + ": healthy"@
                },
        decreases services@.len() - i,
    {
        let service = &services[i];
        let binary = service_binary_path(bin_dir, service);
        let run = probe.run_check(binary.as_str(), service.health_arg);
        let result = health_from_run(service, run);
        out.push(result);
        i = i + 1;
    }
    out
}

/// How a service is started and restarted.
#[derive(Debug, Clone, PartialEq, Eq)]
pub struct ServiceStartPlan {
    pub service: String,
    pub binary_path: String,
    pub args: Vec<String>,
    pub envs: Vec<(String, String)>,
    pub restart_on_exit: bool,
    pub restart_max_attempts: Option<u32>,
    pub restart_backoff_ms: Option<u64>,
    pub restart_reset_after_ms: Option<u64>,
}

/// What a start plan says, as plain values.
#[verifier::ext_equal]
pub struct PlanView {
    pub service: Seq<char>,
    pub binary_path: Seq<char>,
    pub args: Seq<Seq<char>>,
    pub envs: Seq<(Seq<char>, Seq<char>)>,
    pub restart_on_exit: bool,
    pub restart_max_attempts: Option<u32>,
    pub restart_backoff_ms: Option<u64>,
    pub restart_reset_after_ms: Option<u64>,
}

impl View for ServiceStartPlan {
    type V = PlanView;

    open spec fn view(&self) -> PlanView {
        PlanView {
            service: self.service@,
            binary_path: self.binary_path@,
            args: string_views(self.args@),
            envs: pair_views(self.envs@),
            restart_on_exit: self.restart_on_exit,
            restart_max_attempts: self.restart_max_attempts,
            restart_backoff_ms: self.restart_backoff_ms,
            restart_reset_after_ms: self.restart_reset_after_ms,
        }
    }
}

/// The views of a list of start plans.
pub open spec fn plan_views(v: Seq<ServiceStartPlan>) -> Seq<PlanView> {
    v.map_values(|p: ServiceStartPlan| p@)
}

/// `dir` joined with `name`: `name` itself where it is absolute or `dir` is empty.
pub open spec fn joined_path(dir: Seq<char>, name: Seq<char>) -> Seq<char> {
    if name.len() > 0 && name[0] == '/' {
        name
    } else if dir.len() == 0 {
        name
    } else if dir.last() == '/' {
        dir + name
    } else {
        dir + "/"@ + name
    }
}

/// The path of `name` in `dir`.
pub fn join_path(dir: &str, name: &str) -> (r: String)
    ensures
        r@ == joined_path(dir@, name@),
{
    let d = chars_of(dir);
    let n = chars_of(name);
    if n.len() > 0 && n[0] == '/' {
        return owned(name);
    }
    if d.len() == 0 {
        return owned(name);
    }
    let mut out: Vec<char> = Vec::new();
    push_all(&mut out, d.as_slice());
    if d[d.len() - 1] != '/' {
        out.push('/');
    }
    push_all(&mut out, n.as_slice());
    proof {
        reveal_strlit("/");
    }
    string_of(out.as_slice())
}

/// The path of a service's binary in `bin_dir`.
pub fn service_binary_path(bin_dir: &str, service: &LocalServiceSpec) -> (r: String)
    ensures
        r@ == joined_path(bin_dir@, service.binary@),
{
    join_path(bin_dir, service.binary)
}

/// The directory of `exe`: the text before its last slash (trailing slashes aside), `/`
/// for a file at the root, and `.` where there is no directory to name.
pub open spec fn parent_dir(exe: Seq<char>) -> Seq<char> {
    let t = crate::text::trim_end_char(exe, '/');
    if t.len() == 0 {
        "."@
    } else {
        let k = crate::text::last_index_of(t, '/');
        if k < 0 {
            seq![]
        } else if k == 0 {
            "/"@
        } else {
            crate::text::trim_end_char(t.take(k), '/')
        }
    }
}

/// The directory of the running program, where the services' binaries are looked for.
pub fn default_service_bin_dir(current_exe: &str) -> (r: String)
    ensures
        r@ == parent_dir(current_exe@),
{
    let e = chars_of(current_exe);
    let t = crate::text::trim_end_char_exec(e.as_slice(), '/');
    if t.len() == 0 {
        return owned(".");
    }
    match crate::text::last_index_of_char(t.as_slice(), '/') {
        None => String::new(),
        Some(k) => {
            proof {
                crate::text::lemma_last_index_of(t@, '/');
            }
            if k == 0 {
                return owned("/");
            }
            let head = slice(t.as_slice(), 0, k);
            assert(head@ =~= t@.take(k as int));
            let h = crate::text::trim_end_char_exec(head.as_slice(), '/');
            string_of(h.as_slice())
        },
    }
}

/// The runtime settings with a freshly made token.
pub fn create_local_runtime_config(bind_host: &str, startup_token: String) -> (c: LocalRuntimeConfig)
    ensures
        c.bind_host@ == bind_host@,
        c.startup_token == startup_token,
        c.services@.len() == default_roles().len(),
        forall|i: int| 0 <= i < c.services@.len() ==> (#[trigger] c.services@[i]).role == default_roles()[i],
{
    LocalRuntimeConfig::new(bind_host, startup_token)
}

/// `plan` starts `service` from `bin_dir` with the runtime's bind host and token, restarts
/// on exit, and takes the loop's restart settings.
pub open spec fn default_plan(plan: ServiceStartPlan, bin_dir: Seq<char>, config: LocalRuntimeConfig, service: LocalServiceSpec) -> bool {
    &&& plan.service@ == service.role.name()
    &&& plan.binary_path@ == joined_path(bin_dir, service.binary@)
    &&& plan.args@.len() == 0
    &&& plan.envs@.len() == 2
    &&& plan.envs@[0].0@ == "SCADA_BIND_HOST"@
    &&& plan.envs@[0].1@ == config.bind_host@
    &&& plan.envs@[1].0@ == "SCADA_LOCAL_TOKEN"@
    &&& plan.envs@[1].1@ == config.startup_token@
    &&& plan.restart_on_exit
    &&& plan.restart_max_attempts is None
    &&& plan.restart_backoff_ms is None
    &&& plan.restart_reset_after_ms is None
}

/// The plans that start the runtime's services, one per service in order.
pub fn service_start_plan(bin_dir: &str, config: &LocalRuntimeConfig) -> (plans: Vec<ServiceStartPlan>)
    ensures
        plans@.len() == config.services@.len(),
        forall|i: int|
            0 <= i < plans@.len() ==> default_plan(#[trigger] plans@[i], bin_dir@, *config, config.services@[i]),
{
    let mut plans: Vec<ServiceStartPlan> = Vec::new();
    let mut i: usize = 0;
    while i < config.services.len()
        invariant
            i <= config.services@.len(),
            plans@.len() == i,
            forall|j: int| 0 <= j < i ==> default_plan(#[trigger] plans@[j], bin_dir@, *config, config.services@[j]),
        decreases config.services@.len() - i,
    {
        let service = &config.services[i];
        let mut envs: Vec<(String, String)> = Vec::new();
        envs.push((owned(LOCAL_BIND_HOST_ENV), config.bind_host.clone()));
        envs.push((owned(LOCAL_TOKEN_ENV), config.startup_token.clone()));
        plans.push(
            ServiceStartPlan {
                service: owned(service.role.as_str()),
                binary_path: service_binary_path(bin_dir, service),
                args: Vec::new(),
                envs,
                restart_on_exit: true,
                restart_max_attempts: None,
                restart_backoff_ms: None,
                restart_reset_after_ms: None,
            },
        );
        i = i + 1;
    }
    plans
}

/// The outcome of a screen path pick: cancelled, or the chosen path.
#[derive(Debug, Clone, PartialEq, Eq)]
pub struct PickScreenRelativePathResult {
    pub cancelled: bool,
    pub relative_path: Option<String>,
}

impl PickScreenRelativePathResult {
    pub fn cancelled() -> (r: PickScreenRelativePathResult)
        ensures
            r.cancelled,
            r.relative_path is None,
    {
        PickScreenRelativePathResult { cancelled: true, relative_path: None }
    }

    pub fn selected(relative_path: String) -> (r: PickScreenRelativePathResult)
        ensures
            !r.cancelled,
            r.relative_path == Some(relative_path),
    {
        PickScreenRelativePathResult { cancelled: false, relative_path: Some(relative_path) }
    }
}

/// What polling a supervised process found.
#[derive(Debug, Clone, PartialEq, Eq)]
pub struct SupervisedServiceStatus {
    pub service: String,
    pub started: bool,
    pub exited: bool,
    pub exit_code: Option<i32>,
    pub message: String,
}

/// At most `max` characters of `s`, with `...` after them where some were cut.
pub open spec fn truncated(s: Seq<char>, max: nat) -> Seq<char> {
    if s.len() <= max {
        s
    } else {
        s.take(max as int) + "..."@
    }
}

/// Cuts a text for a log line.
pub fn truncate_for_log(input: &str, max_chars: usize) -> (r: String)
    ensures
        r@ == truncated(input@, max_chars as nat),
{
    let cs = chars_of(input);
    if cs.len() <= max_chars {
        return owned(input);
    }
    let head = slice(cs.as_slice(), 0, max_chars);
    let mut out = head;
    push_text(&mut out, "...");
    string_of(out.as_slice())
}

/// The message of a process that exited: its trimmed error output where there is some,
/// else its trimmed standard output, cut for the log.
pub open spec fn exit_message(stderr: Seq<char>, stdout: Seq<char>) -> Seq<char> {
    if stderr.len() > 0 {
        "process exited stderr="@ + truncated(stderr, 240)
    } else if stdout.len() > 0 {
        "process exited stdout="@ + truncated(stdout, 240)
    } else {
        "process exited"@
    }
}

/// The status of a process that exited, from its exit code and its trimmed outputs.
pub fn exited_status(service: &str, exit_code: Option<i32>, stderr: &str, stdout: &str) -> (r: SupervisedServiceStatus)
    ensures
        r.service@ == service@,
        r.started && r.exited,
        r.exit_code == exit_code,
        r.message@ == exit_message(stderr@, stdout@),
{
    let message = if stderr.unicode_len() > 0 {
        let t = truncate_for_log(stderr, 240);
        let mut out: Vec<char> = Vec::new();
        push_text(&mut out, "process exited stderr=");
        push_text(&mut out, t.as_str());
        string_of(out.as_slice())
    } else if stdout.unicode_len() > 0 {
        let t = truncate_for_log(stdout, 240);
        let mut out: Vec<char> = Vec::new();
        push_text(&mut out, "process exited stdout=");
        push_text(&mut out, t.as_str());
        string_of(out.as_slice())
    } else {
        owned("process exited")
    };
    SupervisedServiceStatus { service: owned(service), started: true, exited: true, exit_code, message }
}

} // verus!
