//! Character-sequence helpers shared by the protocol parsers and formatters.
use vstd::prelude::*;

verus! {

/// Unicode `White_Space`, the set that `char::is_whitespace` tests.
pub open spec fn is_ws(c: char) -> bool {
    let u = c as u32;
    ||| 0x09 <= u <= 0x0d
    ||| u == 0x20
    ||| u == 0x85
    ||| u == 0xa0
    ||| u == 0x1680
    ||| 0x2000 <= u <= 0x200a
    ||| u == 0x2028
    ||| u == 0x2029
    ||| u == 0x202f
    ||| u == 0x205f
    ||| u == 0x3000
}

/// `s` without its leading whitespace.
pub open spec fn trim_start(s: Seq<char>) -> Seq<char>
    decreases s.len(),
{
    if s.len() > 0 && is_ws(s[0]) {
        trim_start(s.drop_first())
    } else {
        s
    }
}

/// `s` without its trailing whitespace.
pub open spec fn trim_end(s: Seq<char>) -> Seq<char>
    decreases s.len(),
{
    if s.len() > 0 && is_ws(s.last()) {
        trim_end(s.drop_last())
    } else {
        s
    }
}

/// `s` without leading and trailing whitespace, as `str::trim` gives it.
pub open spec fn trim(s: Seq<char>) -> Seq<char> {
    trim_end(trim_start(s))
}

/// `p` occurs in `s` starting at index `i`.
pub open spec fn matches_at(s: Seq<char>, p: Seq<char>, i: int) -> bool {
    0 <= i && i + p.len() <= s.len() && s.subrange(i, i + p.len()) == p
}

/// `s` begins with `p`.
pub open spec fn has_prefix(s: Seq<char>, p: Seq<char>) -> bool {
    matches_at(s, p, 0)
}

/// `s` ends with `p`.
pub open spec fn has_suffix(s: Seq<char>, p: Seq<char>) -> bool {
    matches_at(s, p, s.len() - p.len())
}

/// `p` occurs somewhere in `s`.
pub open spec fn contains_seq(s: Seq<char>, p: Seq<char>) -> bool {
    exists|i: int| matches_at(s, p, i)
}

/// The index of the first occurrence of `p` in `s`, if any.
#[verifier::opaque]
pub open spec fn find_first(s: Seq<char>, p: Seq<char>) -> Option<int> {
    if contains_seq(s, p) {
        Some(choose|i: int| matches_at(s, p, i) && forall|j: int| 0 <= j < i ==> !matches_at(s, p, j))
    } else {
        None
    }
}

/// `i` is the first place where `p` occurs in `s`.
pub open spec fn is_first_match(s: Seq<char>, p: Seq<char>, i: int) -> bool {
    matches_at(s, p, i) && forall|j: int| 0 <= j < i ==> !#[trigger] matches_at(s, p, j)
}

/// `i` is the last place where `p` occurs in `s`.
pub open spec fn is_last_match(s: Seq<char>, p: Seq<char>, i: int) -> bool {
    matches_at(s, p, i) && forall|j: int| i < j <= s.len() ==> !#[trigger] matches_at(s, p, j)
}

/// The characters of `s`, in order.
pub fn chars_of(s: &str) -> (out: Vec<char>)
    ensures
        out@ == s@,
{
    let mut out: Vec<char> = Vec::new();
    for c in it: s.chars()
        invariant
            out@ == it.seq().take(it.index() as int),
    {
        out.push(c);
    }
    out
}

/// `String::push`: appends one character to the string.
#[verifier::external_body]
fn push_char(s: &mut String, c: char)
    ensures
        final(s)@ == old(s)@.push(c),
{
    s.push(c);
}

/// Appends the characters of `tail` to `s`.
pub fn push_chars(s: &mut String, tail: &[char])
    ensures
        final(s)@ == old(s)@ + tail@,
{
    let ghost start = s@;
    let mut i: usize = 0;
    while i < tail.len()
        invariant
            i <= tail@.len(),
            s@ == start + tail@.subrange(0, i as int),
        decreases tail@.len() - i,
    {
        push_char(s, tail[i]);
        i = i + 1;
        assert(s@ =~= start + tail@.subrange(0, i as int));
    }
    assert(tail@.subrange(0, i as int) =~= tail@);
}

/// Appends the characters of `tail` to `s`.
pub fn push_str(s: &mut String, tail: &str)
    ensures
        final(s)@ == old(s)@ + tail@,
{
    let cs = chars_of(tail);
    push_chars(s, cs.as_slice());
}

/// A string holding exactly the characters of `v`.
pub fn string_of(v: &[char]) -> (s: String)
    ensures
        s@ == v@,
{
    let mut s = String::new();
    push_chars(&mut s, v);
    assert(s@ =~= v@);
    s
}

/// Copies the characters of `v` from `start` up to `end`.
pub fn slice(v: &[char], start: usize, end: usize) -> (out: Vec<char>)
    requires
        start <= end <= v@.len(),
    ensures
        out@ == v@.subrange(start as int, end as int),
{
    let mut out: Vec<char> = Vec::new();
    let mut i = start;
    while i < end
        invariant
            start <= i <= end,
            end <= v@.len(),
            out@ == v@.subrange(start as int, i as int),
        decreases end - i,
    {
        out.push(v[i]);
        i = i + 1;
        assert(out@ =~= v@.subrange(start as int, i as int));
    }
    out
}

/// Whether `c` is whitespace, as `char::is_whitespace` tells it.
pub fn is_whitespace(c: char) -> (b: bool)
    ensures
        b == is_ws(c),
{
    let u = c as u32;
    (0x09 <= u && u <= 0x0d) || u == 0x20 || u == 0x85 || u == 0xa0 || u == 0x1680 || (0x2000
        <= u && u <= 0x200a) || u == 0x2028 || u == 0x2029 || u == 0x202f || u == 0x205f || u
        == 0x3000
}

proof fn lemma_trim_start_skip(s: Seq<char>, i: int)
    requires
        0 <= i <= s.len(),
        forall|j: int| 0 <= j < i ==> is_ws(#[trigger] s[j]),
    ensures
        trim_start(s) == trim_start(s.skip(i)),
    decreases i,
{
    if i > 0 {
        assert(s.drop_first().skip(i - 1) =~= s.skip(i));
        assert forall|j: int| 0 <= j < i - 1 implies is_ws(#[trigger] s.drop_first()[j]) by {
            assert(s.drop_first()[j] == s[j + 1]);
        }
        lemma_trim_start_skip(s.drop_first(), i - 1);
    } else {
        assert(s.skip(0) =~= s);
    }
}

proof fn lemma_trim_end_take(s: Seq<char>, k: int)
    requires
        0 <= k <= s.len(),
        forall|j: int| k <= j < s.len() ==> is_ws(#[trigger] s[j]),
    ensures
        trim_end(s) == trim_end(s.take(k)),
    decreases s.len() - k,
{
    if k < s.len() {
        assert(s.drop_last().take(k) =~= s.take(k));
        lemma_trim_end_take(s.drop_last(), k);
    } else {
        assert(s.take(k) =~= s);
    }
}

/// `v` without leading and trailing whitespace.
pub fn trim_chars(v: &[char]) -> (out: Vec<char>)
    ensures
        out@ == trim(v@),
{
    let mut a: usize = 0;
    while a < v.len() && is_whitespace(v[a])
        invariant
            a <= v@.len(),
            forall|j: int| 0 <= j < a ==> is_ws(#[trigger] v@[j]),
        decreases v@.len() - a,
    {
        a = a + 1;
    }
    proof {
        lemma_trim_start_skip(v@, a as int);
    }
    let ghost t = v@.skip(a as int);
    assert(trim_start(t) == t);
    let mut b: usize = v.len();
    while b > a && is_whitespace(v[b - 1])
        invariant
            a <= b <= v@.len(),
            forall|j: int| b <= j < v@.len() ==> is_ws(#[trigger] v@[j]),
        decreases b,
    {
        b = b - 1;
    }
    proof {
        assert forall|j: int| b - a <= j < t.len() implies is_ws(#[trigger] t[j]) by {
            assert(t[j] == v@[j + a]);
        }
        lemma_trim_end_take(t, b - a);
        assert(t.take(b - a) =~= v@.subrange(a as int, b as int));
        if b > a {
            assert(t.take(b - a).last() == v@[b - 1]);
        }
    }
    slice(v, a, b)
}

/// `s` without leading and trailing whitespace.
pub fn trim_str(s: &str) -> (out: Vec<char>)
    ensures
        out@ == trim(s@),
{
    let cs = chars_of(s);
    trim_chars(cs.as_slice())
}

/// Whether `p` occurs in `s` at index `i`.
pub fn matches_at_exec(s: &[char], p: &[char], i: usize) -> (b: bool)
    ensures
        b == matches_at(s@, p@, i as int),
{
    if i > s.len() || p.len() > s.len() - i {
        return false;
    }
    let mut k: usize = 0;
    while k < p.len()
        invariant
            i + p.len() <= s.len(),
            s@.len() == s.len(),
            p@.len() == p.len(),
            k <= p@.len(),
            forall|j: int| 0 <= j < k ==> s@[i + j] == p@[j],
        decreases p@.len() - k,
    {
        if s[i + k] != p[k] {
            assert(s@.subrange(i as int, i + p@.len())[k as int] != p@[k as int]);
            return false;
        }
        k = k + 1;
    }
    assert(s@.subrange(i as int, i + p@.len()) =~= p@);
    true
}

/// Whether `s` begins with `p`.
pub fn starts_with(s: &[char], p: &[char]) -> (b: bool)
    ensures
        b == has_prefix(s@, p@),
{
    matches_at_exec(s, p, 0)
}

/// Whether `s` ends with `p`.
pub fn ends_with(s: &[char], p: &[char]) -> (b: bool)
    ensures
        b == has_suffix(s@, p@),
{
    if p.len() > s.len() {
        return false;
    }
    matches_at_exec(s, p, s.len() - p.len())
}

/// The first index at which `p` occurs in `s`, or `None` where it does not occur.
pub fn find(s: &[char], p: &[char]) -> (r: Option<usize>)
    ensures
        match r {
            Some(i) => is_first_match(s@, p@, i as int),
            None => !contains_seq(s@, p@),
        },
{
    if p.len() > s.len() {
        assert forall|j: int| !#[trigger] matches_at(s@, p@, j) by {}
        return None;
    }
    let last = s.len() - p.len();
    let mut i: usize = 0;
    loop
        invariant
            i <= last,
            last == s@.len() - p@.len(),
            forall|j: int| 0 <= j < i ==> !#[trigger] matches_at(s@, p@, j),
        decreases last - i,
    {
        if matches_at_exec(s, p, i) {
            return Some(i);
        }
        if i == last {
            assert forall|j: int| !#[trigger] matches_at(s@, p@, j) by {
                if 0 <= j < i {
                }
            }
            return None;
        }
        i = i + 1;
    }
}

/// The last index at which `p` occurs in `s`, or `None` where it does not occur.
pub fn rfind(s: &[char], p: &[char]) -> (r: Option<usize>)
    ensures
        match r {
            Some(i) => is_last_match(s@, p@, i as int),
            None => !contains_seq(s@, p@),
        },
{
    if p.len() > s.len() {
        assert forall|j: int| !#[trigger] matches_at(s@, p@, j) by {}
        return None;
    }
    let mut i: usize = s.len() - p.len();
    loop
        invariant
            i <= s@.len() - p@.len(),
            forall|j: int| i < j <= s@.len() ==> !#[trigger] matches_at(s@, p@, j),
        decreases i,
    {
        if matches_at_exec(s, p, i) {
            assert forall|j: int| i < j <= s@.len() implies !#[trigger] matches_at(s@, p@, j) by {}
            return Some(i);
        }
        if i == 0 {
            assert forall|j: int| !#[trigger] matches_at(s@, p@, j) by {
                if 0 <= j <= s@.len() {
                }
            }
            return None;
        }
        i = i - 1;
    }
}

/// `s` contains `p`.
pub fn contains(s: &[char], p: &[char]) -> (b: bool)
    ensures
        b == contains_seq(s@, p@),
{
    match find(s, p) {
        Some(i) => true,
        None => false,
    }
}

} // verus!

verus! {

/// Index of the first `c` in `s`, or `s.len()` where `c` does not occur.
pub open spec fn index_of(s: Seq<char>, c: char) -> int
    decreases s.len(),
{
    if s.len() == 0 {
        0
    } else if s[0] == c {
        0
    } else {
        1 + index_of(s.drop_first(), c)
    }
}

/// Index of the last `c` in `s`, or `-1` where `c` does not occur.
pub open spec fn last_index_of(s: Seq<char>, c: char) -> int
    decreases s.len(),
{
    if s.len() == 0 {
        -1
    } else if s.last() == c {
        s.len() - 1
    } else {
        last_index_of(s.drop_last(), c)
    }
}

pub proof fn lemma_index_of(s: Seq<char>, c: char)
    ensures
        0 <= index_of(s, c) <= s.len(),
        index_of(s, c) < s.len() ==> s[index_of(s, c)] == c,
        forall|j: int| 0 <= j < index_of(s, c) ==> s[j] != c,
    decreases s.len(),
{
    if s.len() > 0 && s[0] != c {
        lemma_index_of(s.drop_first(), c);
        assert forall|j: int| 0 <= j < index_of(s, c) implies s[j] != c by {
            if j > 0 {
                assert(s[j] == s.drop_first()[j - 1]);
            }
        }
    }
}

/// A character's first place lies past text that lacks it.
pub proof fn lemma_index_past(a: Seq<char>, c: char, b: Seq<char>)
    requires
        !a.contains(c),
    ensures
        index_of(a + seq![c] + b, c) == a.len(),
    decreases a.len(),
{
    let s = a + seq![c] + b;
    if a.len() > 0 {
        assert(s[0] == a[0]);
        assert(!a.drop_first().contains(c)) by {
            if a.drop_first().contains(c) {
                let j = choose|j: int| 0 <= j < a.drop_first().len() && a.drop_first()[j] == c;
                assert(a[j + 1] == c);
            }
        }
        assert(s.drop_first() =~= a.drop_first() + seq![c] + b);
        lemma_index_past(a.drop_first(), c, b);
    }
}

/// A character that text lacks is found at its end.
pub proof fn lemma_index_absent(s: Seq<char>, c: char)
    requires
        !s.contains(c),
    ensures
        index_of(s, c) == s.len(),
{
    lemma_index_of(s, c);
    if index_of(s, c) < s.len() {
        assert(s[index_of(s, c)] == c);
    }
}

pub proof fn lemma_last_index_of(s: Seq<char>, c: char)
    ensures
        -1 <= last_index_of(s, c) < s.len(),
        last_index_of(s, c) >= 0 ==> s[last_index_of(s, c)] == c,
        forall|j: int| last_index_of(s, c) < j < s.len() ==> s[j] != c,
    decreases s.len(),
{
    if s.len() > 0 && s.last() != c {
        lemma_last_index_of(s.drop_last(), c);
        assert forall|j: int| last_index_of(s, c) < j < s.len() implies s[j] != c by {
            if j < s.len() - 1 {
                assert(s[j] == s.drop_last()[j]);
            }
        }
    }
}

/// The index of the first `c` in `s`, or `s.len()` where there is none.
pub fn index_of_char(s: &[char], c: char) -> (k: usize)
    ensures
        k == index_of(s@, c),
{
    let mut i: usize = 0;
    while i < s.len() && s[i] != c
        invariant
            i <= s@.len(),
            forall|j: int| 0 <= j < i ==> s@[j] != c,
        decreases s@.len() - i,
    {
        i = i + 1;
    }
    proof {
        lemma_index_of(s@, c);
        if index_of(s@, c) < i {
        } else if index_of(s@, c) > i {
        }
    }
    i
}

/// The index of the last `c` in `s`, if any.
pub fn last_index_of_char(s: &[char], c: char) -> (k: Option<usize>)
    ensures
        match k {
            Some(i) => i == last_index_of(s@, c),
            None => last_index_of(s@, c) == -1,
        },
{
    let mut i: usize = s.len();
    while i > 0 && s[i - 1] != c
        invariant
            i <= s@.len(),
            forall|j: int| i <= j < s@.len() ==> s@[j] != c,
        decreases i,
    {
        i = i - 1;
    }
    proof {
        lemma_last_index_of(s@, c);
    }
    if i == 0 {
        proof {
            if last_index_of(s@, c) >= 0 {
            }
        }
        None
    } else {
        Some(i - 1)
    }
}

/// The pieces of `s` between occurrences of `c`, as `str::split(c)` yields them.
pub open spec fn split_on(s: Seq<char>, c: char) -> Seq<Seq<char>>
    decreases s.len(),
{
    let k = index_of(s, c);
    proof {
        lemma_index_of(s, c);
    }
    if k >= s.len() {
        seq![s]
    } else {
        seq![s.take(k)] + split_on(s.skip(k + 1), c)
    }
}

/// A line with one trailing carriage return removed.
pub open spec fn strip_cr(line: Seq<char>) -> Seq<char> {
    if line.len() > 0 && line.last() == '\r' {
        line.drop_last()
    } else {
        line
    }
}

/// The lines of `s`, as `str::lines` yields them.
pub open spec fn lines(s: Seq<char>) -> Seq<Seq<char>>
    decreases s.len(),
{
    if s.len() == 0 {
        seq![]
    } else {
        let k = index_of(s, '\n');
        proof {
            lemma_index_of(s, '\n');
        }
        if k >= s.len() {
            seq![s]
        } else {
            seq![strip_cr(s.take(k))] + lines(s.skip(k + 1))
        }
    }
}

/// Number of leading characters of `s` that are not whitespace.
pub open spec fn word_len(s: Seq<char>) -> int
    decreases s.len(),
{
    if s.len() == 0 || is_ws(s[0]) {
        0
    } else {
        1 + word_len(s.drop_first())
    }
}

/// The whitespace-separated words of `s`, as `str::split_whitespace` yields them.
pub open spec fn words(s: Seq<char>) -> Seq<Seq<char>>
    decreases s.len(),
{
    if s.len() == 0 {
        seq![]
    } else if is_ws(s[0]) {
        words(s.drop_first())
    } else {
        let k = word_len(s);
        proof {
            lemma_word_len(s);
        }
        seq![s.take(k)] + words(s.skip(k))
    }
}

/// The views of a vector of character vectors.
pub open spec fn views(v: Seq<Vec<char>>) -> Seq<Seq<char>> {
    v.map_values(|x: Vec<char>| x@)
}

pub proof fn lemma_word_len(s: Seq<char>)
    ensures
        0 <= word_len(s) <= s.len(),
        forall|j: int| 0 <= j < word_len(s) ==> !is_ws(#[trigger] s[j]),
        word_len(s) < s.len() ==> is_ws(s[word_len(s)]),
    decreases s.len(),
{
    if s.len() > 0 && !is_ws(s[0]) {
        lemma_word_len(s.drop_first());
        assert forall|j: int| 0 <= j < word_len(s) implies !is_ws(#[trigger] s[j]) by {
            if j > 0 {
                assert(s[j] == s.drop_first()[j - 1]);
            }
        }
    }
}

/// The pieces of `s` between occurrences of `c`.
pub fn split_char(s: &[char], c: char) -> (out: Vec<Vec<char>>)
    ensures
        views(out@) == split_on(s@, c),
{
    let mut out: Vec<Vec<char>> = Vec::new();
    let mut start: usize = 0;
    assert(s@.skip(0) =~= s@);
    assert(views(out@) =~= Seq::<Seq<char>>::empty());
    assert(views(out@) + split_on(s@, c) =~= split_on(s@, c));
    loop
        invariant
            start <= s@.len(),
            split_on(s@, c) == views(out@) + split_on(s@.skip(start as int), c),
        decreases s@.len() - start,
    {
        let rest = slice(s, start, s.len());
        assert(rest@ =~= s@.skip(start as int));
        let k = index_of_char(rest.as_slice(), c);
        proof {
            lemma_index_of(rest@, c);
        }
        if k >= rest.len() {
            let ghost before = out@;
            out.push(rest);
            assert(views(out@) =~= views(before).push(s@.skip(start as int)));
            assert(split_on(s@.skip(start as int), c) == seq![s@.skip(start as int)]);
            assert(views(out@) =~= views(before) + split_on(s@.skip(start as int), c));
            return out;
        }
        let piece = slice(rest.as_slice(), 0, k);
        let ghost before = out@;
        out.push(piece);
        assert(s@.skip(start as int).skip(k + 1) =~= s@.skip(start + k + 1));
        assert(views(out@) =~= views(before).push(rest@.take(k as int)));
        assert(split_on(s@.skip(start as int), c) == seq![rest@.take(k as int)] + split_on(
            s@.skip(start + k + 1),
            c,
        ));
        assert(views(out@) + split_on(s@.skip(start + k + 1), c) =~= views(before) + split_on(
            s@.skip(start as int),
            c,
        ));
        start = start + k + 1;
    }
}

/// The lines of `s`.
pub fn lines_of(s: &[char]) -> (out: Vec<Vec<char>>)
    ensures
        views(out@) == lines(s@),
{
    let mut out: Vec<Vec<char>> = Vec::new();
    let mut start: usize = 0;
    assert(s@.skip(0) =~= s@);
    assert(views(out@) =~= Seq::<Seq<char>>::empty());
    assert(views(out@) + lines(s@) =~= lines(s@));
    loop
        invariant
            start <= s@.len(),
            lines(s@) == views(out@) + lines(s@.skip(start as int)),
        decreases s@.len() - start,
    {
        if start == s.len() {
            assert(s@.skip(start as int) =~= Seq::<char>::empty());
            assert(views(out@) + lines(s@.skip(start as int)) =~= views(out@));
            return out;
        }
        let rest = slice(s, start, s.len());
        assert(rest@ =~= s@.skip(start as int));
        let k = index_of_char(rest.as_slice(), '\n');
        proof {
            lemma_index_of(rest@, '\n');
        }
        let ghost before = out@;
        if k >= rest.len() {
            out.push(rest);
            assert(views(out@) =~= views(before).push(s@.skip(start as int)));
            assert(views(out@) =~= views(before) + lines(s@.skip(start as int)));
            return out;
        }
        let mut piece = slice(rest.as_slice(), 0, k);
        if k > 0 && piece[k - 1] == '\r' {
            piece.pop();
        }
        assert(piece@ == strip_cr(rest@.take(k as int)));
        out.push(piece);
        assert(s@.skip(start as int).skip(k + 1) =~= s@.skip(start + k + 1));
        assert(views(out@) =~= views(before).push(strip_cr(rest@.take(k as int))));
        assert(views(out@) + lines(s@.skip(start + k + 1)) =~= views(before) + lines(
            s@.skip(start as int),
        ));
        start = start + k + 1;
    }
}

/// The whitespace-separated words of `s`.
pub fn words_of(s: &[char]) -> (out: Vec<Vec<char>>)
    ensures
        views(out@) == words(s@),
{
    let mut out: Vec<Vec<char>> = Vec::new();
    let mut start: usize = 0;
    assert(s@.skip(0) =~= s@);
    assert(views(out@) =~= Seq::<Seq<char>>::empty());
    assert(views(out@) + words(s@) =~= words(s@));
    loop
        invariant
            start <= s@.len(),
            words(s@) == views(out@) + words(s@.skip(start as int)),
        decreases s@.len() - start,
    {
        if start == s.len() {
            assert(s@.skip(start as int) =~= Seq::<char>::empty());
            assert(views(out@) + words(s@.skip(start as int)) =~= views(out@));
            return out;
        }
        let ghost rest = s@.skip(start as int);
        if is_whitespace(s[start]) {
            assert(rest.drop_first() =~= s@.skip(start + 1));
            start = start + 1;
        } else {
            let mut end = start;
            while end < s.len() && !is_whitespace(s[end])
                invariant
                    start <= end <= s@.len(),
                    forall|j: int| start <= j < end ==> !is_ws(#[trigger] s@[j]),
                decreases s@.len() - end,
            {
                end = end + 1;
            }
            proof {
                lemma_word_len(rest);
                assert forall|j: int| 0 <= j < end - start implies !is_ws(#[trigger] rest[j]) by {
                    assert(rest[j] == s@[start + j]);
                }
                if word_len(rest) < end - start {
                    assert(!is_ws(rest[word_len(rest)]));
                }
                if word_len(rest) > end - start {
                    assert(rest[end - start] == s@[end as int]);
                }
            }
            let piece = slice(s, start, end);
            let ghost before = out@;
            out.push(piece);
            assert(rest.take(end - start) =~= piece@);
            assert(rest.skip(end - start) =~= s@.skip(end as int));
            assert(views(out@) =~= views(before).push(piece@));
            assert(views(out@) + words(s@.skip(end as int)) =~= views(before) + words(rest));
            start = end;
        }
    }
}

} // verus!

verus! {

/// The decimal digit character for `d < 10`.
pub open spec fn digit_char(d: nat) -> char {
    if d == 0 {
        '0'
    } else if d == 1 {
        '1'
    } else if d == 2 {
        '2'
    } else if d == 3 {
        '3'
    } else if d == 4 {
        '4'
    } else if d == 5 {
        '5'
    } else if d == 6 {
        '6'
    } else if d == 7 {
        '7'
    } else if d == 8 {
        '8'
    } else {
        '9'
    }
}

/// The decimal text of `n`, as `Display` writes an unsigned integer.
pub open spec fn decimal(n: nat) -> Seq<char>
    decreases n,
{
    if n < 10 {
        seq![digit_char(n)]
    } else {
        decimal(n / 10).push(digit_char(n % 10))
    }
}

/// The decimal text of `n`, as `Display` writes a signed integer.
pub open spec fn signed_decimal(n: int) -> Seq<char> {
    if n < 0 {
        seq!['-'] + decimal((-n) as nat)
    } else {
        decimal(n as nat)
    }
}

/// `c` is an ASCII decimal digit.
pub open spec fn is_digit(c: char) -> bool {
    '0' <= c <= '9'
}

/// The value of the decimal digit `c`.
pub open spec fn digit_value(c: char) -> nat {
    ((c as u32) - 48) as nat
}

/// The value of a run of decimal digits.
pub open spec fn digits_value(s: Seq<char>) -> nat
    decreases s.len(),
{
    if s.len() == 0 {
        0
    } else {
        digits_value(s.drop_last()) * 10 + digit_value(s.last())
    }
}

/// Every character of `s` is a decimal digit.
pub open spec fn all_digits(s: Seq<char>) -> bool {
    forall|i: int| 0 <= i < s.len() ==> is_digit(#[trigger] s[i])
}

/// What `str::parse` gives for an unsigned integer type whose maximum is `max`.
pub open spec fn parse_unsigned(s: Seq<char>, max: nat) -> Option<nat> {
    let d = if s.len() > 0 && s[0] == '+' {
        s.drop_first()
    } else {
        s
    };
    if d.len() > 0 && all_digits(d) && digits_value(d) <= max {
        Some(digits_value(d))
    } else {
        None
    }
}

proof fn lemma_digit_char(d: nat)
    requires
        d < 10,
    ensures
        is_digit(digit_char(d)),
        digit_value(digit_char(d)) == d,
{
}

/// The decimal text of `n` is made of digits, starts with one, and reads back as `n`.
pub proof fn lemma_decimal_value(n: nat)
    ensures
        decimal(n).len() > 0,
        all_digits(decimal(n)),
        digits_value(decimal(n)) == n,
    decreases n,
{
    if n < 10 {
        lemma_digit_char(n);
        assert(decimal(n).drop_last() =~= Seq::<char>::empty());
        assert(digits_value(Seq::<char>::empty()) == 0);
        assert(digits_value(decimal(n)) == digits_value(decimal(n).drop_last()) * 10 + digit_value(decimal(n).last()));
    } else {
        lemma_decimal_value(n / 10);
        lemma_digit_char(n % 10);
        let d = decimal(n);
        assert(d.drop_last() =~= decimal(n / 10));
        assert(d.last() == digit_char(n % 10));
        assert(digits_value(d) == digits_value(d.drop_last()) * 10 + digit_value(d.last()));
        assert((n / 10) * 10 + n % 10 == n) by (nonlinear_arith);
        assert forall|i: int| 0 <= i < d.len() implies is_digit(#[trigger] d[i]) by {
            if i < d.len() - 1 {
                assert(d[i] == decimal(n / 10)[i]);
            }
        }
    }
}

/// The decimal text of a number within `max` parses back as that number.
pub proof fn lemma_parse_decimal(n: nat, max: nat)
    requires
        n <= max,
    ensures
        parse_unsigned(decimal(n), max) == Some(n),
{
    lemma_decimal_value(n);
    assert(is_digit(decimal(n)[0]));
}

/// The last place of a character lies before text that lacks it.
pub proof fn lemma_last_index_before(a: Seq<char>, c: char, b: Seq<char>)
    requires
        !b.contains(c),
    ensures
        last_index_of(a + seq![c] + b, c) == a.len(),
    decreases b.len(),
{
    let s = a + seq![c] + b;
    if b.len() == 0 {
        assert(s.last() == c);
    } else {
        assert(s.last() == b.last());
        assert(s.drop_last() =~= a + seq![c] + b.drop_last());
        assert(!b.drop_last().contains(c)) by {
            if b.drop_last().contains(c) {
                let j = choose|j: int| 0 <= j < b.drop_last().len() && b.drop_last()[j] == c;
                assert(b[j] == c);
            }
        }
        lemma_last_index_before(a, c, b.drop_last());
    }
}

fn digit(d: u64) -> (c: char)
    requires
        d < 10,
    ensures
        c == digit_char(d as nat),
{
    if d == 0 {
        '0'
    } else if d == 1 {
        '1'
    } else if d == 2 {
        '2'
    } else if d == 3 {
        '3'
    } else if d == 4 {
        '4'
    } else if d == 5 {
        '5'
    } else if d == 6 {
        '6'
    } else if d == 7 {
        '7'
    } else if d == 8 {
        '8'
    } else {
        '9'
    }
}

/// Appends the decimal text of `n` to `out`.
pub fn push_decimal(out: &mut Vec<char>, n: u64)
    ensures
        final(out)@ == old(out)@ + decimal(n as nat),
    decreases n,
{
    if n >= 10 {
        push_decimal(out, n / 10);
    }
    out.push(digit(n % 10));
    proof {
        if n >= 10 {
            assert(decimal(n as nat) == decimal((n / 10) as nat).push(digit_char((n % 10) as nat)));
        }
    }
    assert(out@ =~= old(out)@ + decimal(n as nat));
}

/// The decimal text of `n`.
pub fn u64_text(n: u64) -> (s: Vec<char>)
    ensures
        s@ == decimal(n as nat),
{
    let mut s: Vec<char> = Vec::new();
    push_decimal(&mut s, n);
    assert(s@ =~= decimal(n as nat));
    s
}

/// The decimal text of `n`, with a leading `-` where it is negative.
pub fn i64_text(n: i64) -> (s: Vec<char>)
    ensures
        s@ == signed_decimal(n as int),
{
    let mut s: Vec<char> = Vec::new();
    if n < 0 {
        s.push('-');
        let m: u64 = if n == i64::MIN {
            9223372036854775808u64
        } else {
            (-n) as u64
        };
        push_decimal(&mut s, m);
    } else {
        push_decimal(&mut s, n as u64);
    }
    assert(s@ =~= signed_decimal(n as int));
    s
}

proof fn lemma_digits_value_prefix(s: Seq<char>, k: int)
    requires
        0 <= k <= s.len(),
        all_digits(s),
    ensures
        digits_value(s.take(k)) <= digits_value(s),
    decreases s.len() - k,
{
    if k < s.len() {
        assert(s.drop_last().take(k) =~= s.take(k));
        assert forall|i: int| 0 <= i < s.drop_last().len() implies is_digit(
            #[trigger] s.drop_last()[i],
        ) by {
            assert(s.drop_last()[i] == s[i]);
        }
        lemma_digits_value_prefix(s.drop_last(), k);
    } else {
        assert(s.take(k) =~= s);
    }
}

/// Parses `s` as an unsigned decimal no greater than `max`, as `str::parse` does for an
/// unsigned integer type whose maximum is `max`.
pub fn parse_unsigned_exec(s: &[char], max: u64) -> (r: Option<u64>)
    ensures
        match r {
            Some(v) => parse_unsigned(s@, max as nat) == Some(v as nat),
            None => parse_unsigned(s@, max as nat) is None,
        },
{
    let start: usize = if s.len() > 0 && s[0] == '+' {
        1
    } else {
        0
    };
    let ghost d = if s@.len() > 0 && s@[0] == '+' {
        s@.drop_first()
    } else {
        s@
    };
    assert(d =~= s@.skip(start as int));
    if start >= s.len() {
        return None;
    }
    let mut value: u64 = 0;
    let mut i = start;
    assert(s@.subrange(start as int, start as int) =~= Seq::<char>::empty());
    while i < s.len()
        invariant
            start <= i <= s@.len(),
            d =~= s@.skip(start as int),
            d == (if s@.len() > 0 && s@[0] == '+' {
                s@.drop_first()
            } else {
                s@
            }),
            forall|j: int| start <= j < i ==> is_digit(#[trigger] s@[j]),
            value as nat == digits_value(s@.subrange(start as int, i as int)),
            value <= max,
        decreases s@.len() - i,
    {
        let c = s[i];
        if !('0' <= c && c <= '9') {
            assert(d[i - start] == s@[i as int]);
            assert(!is_digit(d[i - start]));
            return None;
        }
        let dv: u64 = (c as u32 - 48) as u64;
        let next: u128 = (value as u128) * 10 + (dv as u128);
        assert(s@.subrange(start as int, i + 1).drop_last() =~= s@.subrange(
            start as int,
            i as int,
        ));
        assert(s@.subrange(start as int, i + 1).last() == c);
        if next > max as u128 {
            proof {
                if all_digits(d) {
                    assert(d.take(i + 1 - start) =~= s@.subrange(start as int, i + 1));
                    lemma_digits_value_prefix(d, i + 1 - start);
                }
            }
            return None;
        }
        value = next as u64;
        i = i + 1;
    }
    assert(s@.subrange(start as int, i as int) =~= d);
    Some(value)
}

/// `c` with an ASCII upper-case letter turned into lower case.
pub open spec fn ascii_lower(c: char) -> char {
    if 'A' <= c <= 'Z' {
        ((c as u32) + 32) as char
    } else {
        c
    }
}

/// `a` and `b` are equal ignoring ASCII case, as `str::eq_ignore_ascii_case` compares.
pub open spec fn eq_ignore_case(a: Seq<char>, b: Seq<char>) -> bool {
    a.len() == b.len() && forall|i: int| 0 <= i < a.len() ==> ascii_lower(#[trigger] a[i])
        == ascii_lower(b[i])
}

fn lower(c: char) -> (r: u32)
    ensures
        r == ascii_lower(c) as u32,
{
    let u = c as u32;
    if 65 <= u && u <= 90 {
        u + 32
    } else {
        u
    }
}

/// Whether `a` and `b` are equal ignoring ASCII case.
pub fn eq_ignore_ascii_case(a: &[char], b: &[char]) -> (r: bool)
    ensures
        r == eq_ignore_case(a@, b@),
{
    if a.len() != b.len() {
        return false;
    }
    let mut i: usize = 0;
    while i < a.len()
        invariant
            a@.len() == b@.len(),
            i <= a@.len(),
            forall|j: int| 0 <= j < i ==> ascii_lower(#[trigger] a@[j]) == ascii_lower(b@[j]),
        decreases a@.len() - i,
    {
        if lower(a[i]) != lower(b[i]) {
            return false;
        }
        i = i + 1;
    }
    true
}

/// Whether the two character sequences are equal.
pub fn chars_eq(a: &[char], b: &[char]) -> (r: bool)
    ensures
        r == (a@ == b@),
{
    if a.len() != b.len() {
        return false;
    }
    let mut i: usize = 0;
    while i < a.len()
        invariant
            a@.len() == b@.len(),
            i <= a@.len(),
            forall|j: int| 0 <= j < i ==> a@[j] == b@[j],
        decreases a@.len() - i,
    {
        if a[i] != b[i] {
            return false;
        }
        i = i + 1;
    }
    assert(a@ =~= b@);
    true
}

} // verus!

verus! {

/// A `String` holding the characters of `s`.
pub fn owned(s: &str) -> (r: String)
    ensures
        r@ == s@,
{
    s.to_owned()
}

/// Whether the two strings hold the same characters.
pub fn str_eq(a: &str, b: &str) -> (r: bool)
    ensures
        r == (a@ == b@),
{
    let x = chars_of(a);
    let y = chars_of(b);
    chars_eq(x.as_slice(), y.as_slice())
}

/// `s` with every trailing `c` removed, as `str::trim_end_matches(c)` gives it.
pub open spec fn trim_end_char(s: Seq<char>, c: char) -> Seq<char>
    decreases s.len(),
{
    if s.len() > 0 && s.last() == c {
        trim_end_char(s.drop_last(), c)
    } else {
        s
    }
}

/// `v` with every trailing `c` removed.
pub fn trim_end_char_exec(v: &[char], c: char) -> (out: Vec<char>)
    ensures
        out@ == trim_end_char(v@, c),
{
    let mut b = v.len();
    assert(v@.take(b as int) =~= v@);
    while b > 0 && v[b - 1] == c
        invariant
            b <= v@.len(),
            trim_end_char(v@, c) == trim_end_char(v@.take(b as int), c),
        decreases b,
    {
        assert(v@.take(b as int).drop_last() =~= v@.take(b - 1));
        b = b - 1;
    }
    slice(v, 0, b)
}

} // verus!

verus! {

pub proof fn lemma_first_match_unique(s: Seq<char>, p: Seq<char>, i: int)
    requires
        is_first_match(s, p, i),
    ensures
        find_first(s, p) == Some(i),
{
    reveal(find_first);
    assert(contains_seq(s, p));
    let j = choose|j: int| matches_at(s, p, j) && forall|k: int| 0 <= k < j ==> !matches_at(s, p, k);
    if j < i {
        assert(!matches_at(s, p, j));
    }
    if i < j {
        assert(!matches_at(s, p, i));
    }
}

/// The index of the first occurrence of `p` in `s`, as `find_first` names it.
pub fn find_first_exec(s: &[char], p: &[char]) -> (r: Option<usize>)
    ensures
        match r {
            Some(i) => find_first(s@, p@) == Some(i as int) && i + p@.len() <= s@.len(),
            None => find_first(s@, p@) is None,
        },
{
    let r = find(s, p);
    proof {
        reveal(find_first);
    }
    if let Some(i) = r {
        proof {
            lemma_first_match_unique(s@, p@, i as int);
        }
    }
    r
}

/// Why `str::parse` refused a text as an unsigned integer.
#[derive(Debug, Clone, Copy, PartialEq, Eq, Structural)]
pub enum IntErrorKind {
    Empty,
    InvalidDigit,
    PosOverflow,
}

/// The first fault met while reading the digits `d` left to right: a character that is
/// not a digit, or a running value above `max`.
pub open spec fn scan_fault(d: Seq<char>, max: nat) -> Option<IntErrorKind>
    decreases d.len(),
{
    if d.len() == 0 {
        None
    } else {
        match scan_fault(d.drop_last(), max) {
            Some(e) => Some(e),
            None => if !is_digit(d.last()) {
                Some(IntErrorKind::InvalidDigit)
            } else if digits_value(d) > max {
                Some(IntErrorKind::PosOverflow)
            } else {
                None
            },
        }
    }
}

/// Why `str::parse` refuses `s` for an unsigned type whose maximum is `max`, if it does.
pub open spec fn parse_fault(s: Seq<char>, max: nat) -> Option<IntErrorKind> {
    if s.len() == 0 {
        Some(IntErrorKind::Empty)
    } else if s[0] == '+' && s.len() == 1 {
        Some(IntErrorKind::InvalidDigit)
    } else if s[0] == '+' {
        scan_fault(s.drop_first(), max)
    } else {
        scan_fault(s, max)
    }
}

/// The message that `ParseIntError` displays for each kind.
pub open spec fn int_error_message(k: IntErrorKind) -> Seq<char> {
    match k {
        IntErrorKind::Empty => "cannot parse integer from empty string"@,
        IntErrorKind::InvalidDigit => "invalid digit found in string"@,
        IntErrorKind::PosOverflow => "number too large to fit in target type"@,
    }
}

proof fn lemma_scan_fault_prefix(d: Seq<char>, k: int, max: nat)
    requires
        0 <= k <= d.len(),
        scan_fault(d.take(k), max) is Some,
    ensures
        scan_fault(d, max) == scan_fault(d.take(k), max),
    decreases d.len() - k,
{
    if k < d.len() {
        assert(d.drop_last().take(k) =~= d.take(k));
        lemma_scan_fault_prefix(d.drop_last(), k, max);
    } else {
        assert(d.take(k) =~= d);
    }
}

proof fn lemma_no_fault_digits(d: Seq<char>, max: nat)
    requires
        scan_fault(d, max) is None,
    ensures
        all_digits(d),
        digits_value(d) <= max,
    decreases d.len(),
{
    if d.len() > 0 {
        lemma_no_fault_digits(d.drop_last(), max);
        assert forall|i: int| 0 <= i < d.len() implies is_digit(#[trigger] d[i]) by {
            if i < d.len() - 1 {
                assert(d[i] == d.drop_last()[i]);
            }
        }
    }
}

proof fn lemma_fault_not_parsed(d: Seq<char>, max: nat)
    requires
        scan_fault(d, max) is Some,
    ensures
        !(all_digits(d) && digits_value(d) <= max),
    decreases d.len(),
{
    if d.len() > 0 {
        if scan_fault(d.drop_last(), max) is Some {
            lemma_fault_not_parsed(d.drop_last(), max);
            if all_digits(d) && digits_value(d) <= max {
                assert forall|i: int| 0 <= i < d.drop_last().len() implies is_digit(
                    #[trigger] d.drop_last()[i],
                ) by {
                    assert(d.drop_last()[i] == d[i]);
                }
                assert(d.drop_last().len() == d.len() - 1);
            }
        } else {
            if all_digits(d) {
                assert(is_digit(d[d.len() - 1]));
            }
        }
    }
}

/// Parses `s` as `str::parse` does for an unsigned type whose maximum is `max`: the value,
/// or the kind of error.
pub fn parse_unsigned_checked(s: &[char], max: u64) -> (r: Result<u64, IntErrorKind>)
    ensures
        match r {
            Ok(v) => parse_unsigned(s@, max as nat) == Some(v as nat) && parse_fault(s@, max as nat) is None,
            Err(k) => parse_unsigned(s@, max as nat) is None && parse_fault(s@, max as nat) == Some(k),
        },
{
    if s.len() == 0 {
        return Err(IntErrorKind::Empty);
    }
    let start: usize = if s[0] == '+' {
        1
    } else {
        0
    };
    if start == 1 && s.len() == 1 {
        return Err(IntErrorKind::InvalidDigit);
    }
    let ghost d = s@.skip(start as int);
    assert(d =~= if s@[0] == '+' {
        s@.drop_first()
    } else {
        s@
    });
    let mut value: u64 = 0;
    let mut i = start;
    assert(d.take(0) =~= Seq::<char>::empty());
    while i < s.len()
        invariant
            start <= i <= s@.len(),
            s@.len() > 0,
            start == (if s@[0] == '+' {
                1int
            } else {
                0int
            }),
            !(start == 1 && s@.len() == 1),
            d == s@.skip(start as int),
            scan_fault(d.take(i - start), max as nat) is None,
            value as nat == digits_value(d.take(i - start)),
            value <= max,
        decreases s@.len() - i,
    {
        let c = s[i];
        let ghost pre = d.take(i - start);
        let ghost next_pre = d.take(i + 1 - start);
        assert(next_pre.drop_last() =~= pre);
        assert(next_pre.last() == c);
        if !('0' <= c && c <= '9') {
            proof {
                assert(scan_fault(next_pre, max as nat) == Some(IntErrorKind::InvalidDigit));
                assert(d =~= if s@[0] == '+' {
                    s@.drop_first()
                } else {
                    s@
                });
                lemma_scan_fault_prefix(d, i + 1 - start, max as nat);
                lemma_fault_not_parsed(d, max as nat);
            }
            return Err(IntErrorKind::InvalidDigit);
        }
        let dv: u64 = (c as u32 - 48) as u64;
        let next: u128 = (value as u128) * 10 + (dv as u128);
        assert(digits_value(next_pre) == next);
        if next > max as u128 {
            proof {
                assert(scan_fault(next_pre, max as nat) == Some(IntErrorKind::PosOverflow));
                assert(d =~= if s@[0] == '+' {
                    s@.drop_first()
                } else {
                    s@
                });
                lemma_scan_fault_prefix(d, i + 1 - start, max as nat);
                lemma_fault_not_parsed(d, max as nat);
            }
            return Err(IntErrorKind::PosOverflow);
        }
        value = next as u64;
        i = i + 1;
    }
    assert(d.take(i - start) =~= d);
    proof {
        lemma_no_fault_digits(d, max as nat);
    }
    Ok(value)
}

/// The message for an integer parse error.
pub fn int_error_text(k: IntErrorKind) -> (r: &'static str)
    ensures
        r@ == int_error_message(k),
{
    match k {
        IntErrorKind::Empty => "cannot parse integer from empty string",
        IntErrorKind::InvalidDigit => "invalid digit found in string",
        IntErrorKind::PosOverflow => "number too large to fit in target type",
    }
}

} // verus!
