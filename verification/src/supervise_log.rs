//! The summary of a supervise log directory: the JSON summary lines of the loop and, for
//! each service log, how many lines it holds and how often it records an exit or a
//! failed start.
use vstd::prelude::*;

use crate::json_doc::{
    field_of, get_field, json_object_fields, json_string_value, json_syntax_error, object_fields,
    string_value, syntax_error,
};
use crate::text::{
    chars_of, last_index_of, last_index_of_char, lines, lines_of, matches_at, matches_at_exec,
    slice, str_eq, string_of, trim, trim_chars,
};
use crate::text_order::{
    lemma_lex_asymmetric, lemma_lex_irreflexive, lemma_lex_total, lemma_lex_transitive, lex_less, lex_lt,
};

verus! {

/// What a line of the loop's summary log holds.
#[derive(Debug, Clone, Copy, PartialEq, Eq, Structural)]
pub enum SummaryKind {
    Cycle,
    Final,
    Other,
    Invalid,
}

/// The kind of a summary log line: invalid JSON, or a JSON value whose `type` field is
/// `cycle_summary`, `final_summary` or something else.
pub open spec fn summary_kind(line: Seq<char>) -> SummaryKind {
    if json_syntax_error(line) is Some {
        SummaryKind::Invalid
    } else {
        match json_object_fields(line) {
            Some(fields) => match field_of(fields, "type"@) {
                Some(t) => match json_string_value(t) {
                    Some(s) => if s == "cycle_summary"@ {
                        SummaryKind::Cycle
                    } else if s == "final_summary"@ {
                        SummaryKind::Final
                    } else {
                        SummaryKind::Other
                    },
                    None => SummaryKind::Other,
                },
                None => SummaryKind::Other,
            },
            None => SummaryKind::Other,
        }
    }
}

/// The kind of a summary log line.
pub fn classify_summary_line(line: &str) -> (k: SummaryKind)
    ensures
        k == summary_kind(line@),
{
    if syntax_error(line).is_some() {
        return SummaryKind::Invalid;
    }
    let fields = match object_fields(line) {
        Some(f) => f,
        None => {
            return SummaryKind::Other;
        },
    };
    let t = match get_field(&fields, "type") {
        Some(t) => t,
        None => {
            return SummaryKind::Other;
        },
    };
    match string_value(t.as_str()) {
        Some(s) => {
            if str_eq(s.as_str(), "cycle_summary") {
                SummaryKind::Cycle
            } else if str_eq(s.as_str(), "final_summary") {
                SummaryKind::Final
            } else {
                SummaryKind::Other
            }
        },
        None => SummaryKind::Other,
    }
}

/// A line that holds something besides whitespace.
pub open spec fn non_blank(line: Seq<char>) -> bool {
    trim(line).len() > 0
}

/// The number of lines of `ls` that `p` accepts.
pub open spec fn count_where(ls: Seq<Seq<char>>, p: spec_fn(Seq<char>) -> bool) -> nat
    decreases ls.len(),
{
    if ls.len() == 0 {
        0
    } else {
        count_where(ls.drop_last(), p) + if p(ls.last()) {
            1nat
        } else {
            0nat
        }
    }
}

/// A non-blank line.
pub open spec fn filled() -> spec_fn(Seq<char>) -> bool {
    |l: Seq<char>| non_blank(l)
}

/// A non-blank summary line of kind `k`.
pub open spec fn filled_of_kind(k: SummaryKind) -> spec_fn(Seq<char>) -> bool {
    |l: Seq<char>| non_blank(l) && summary_kind(l) == k
}

/// The number of non-blank leftmost non-overlapping occurrences of `p` in `s` from `pos`
/// on, as `str::matches` counts them.
pub open spec fn occurrences(s: Seq<char>, p: Seq<char>, pos: int) -> nat
    decreases s.len() - pos,
{
    if p.len() == 0 || pos < 0 || pos + p.len() > s.len() {
        0
    } else if matches_at(s, p, pos) {
        1 + occurrences(s, p, pos + p.len())
    } else {
        occurrences(s, p, pos + 1)
    }
}

/// The number of occurrences of `p` in `s`.
pub fn count_occurrences(s: &[char], p: &[char]) -> (n: u64)
    requires
        p@.len() > 0,
    ensures
        n == occurrences(s@, p@, 0),
{
    let mut pos: usize = 0;
    let mut n: u64 = 0;
    while pos <= s.len() && p.len() <= s.len() - pos
        invariant
            pos <= s@.len(),
            p@.len() > 0,
            n <= pos,
            occurrences(s@, p@, 0) == n + occurrences(s@, p@, pos as int),
        decreases s@.len() - pos,
    {
        if matches_at_exec(s, p, pos) {
            n = n + 1;
            pos = pos + p.len();
        } else {
            pos = pos + 1;
        }
    }
    n
}

/// The number of lines of `ls` that `p` accepts, counted one by one.
fn count_lines(ls: &Vec<Vec<char>>, k: Option<SummaryKind>) -> (n: u64)
    ensures
        n == count_where(
            crate::text::views(ls@),
            match k {
                Some(kind) => filled_of_kind(kind),
                None => filled(),
            },
        ),
{
    let ghost p = match k {
        Some(kind) => filled_of_kind(kind),
        None => filled(),
    };
    let ghost v = crate::text::views(ls@);
    let mut i: usize = 0;
    let mut n: u64 = 0;
    assert(v.take(0) =~= Seq::<Seq<char>>::empty());
    while i < ls.len()
        invariant
            i <= ls@.len(),
            v == crate::text::views(ls@),
            n <= i,
            n == count_where(v.take(i as int), p),
            p == (match k {
                Some(kind) => filled_of_kind(kind),
                None => filled(),
            }),
        decreases ls@.len() - i,
    {
        let line = &ls[i];
        let t = trim_chars(line.as_slice());
        let take = if t.len() == 0 {
            false
        } else {
            match k {
                None => true,
                Some(kind) => {
                    let text = string_of(line.as_slice());
                    classify_summary_line(text.as_str()) == kind
                },
            }
        };
        assert(v.take(i + 1).drop_last() =~= v.take(i as int));
        assert(v.take(i + 1).last() == line@);
        assert(take == p(line@));
        if take {
            n = n + 1;
        }
        i = i + 1;
    }
    assert(v.take(i as int) =~= v);
    n
}

/// What a service log says: the service, its non-blank lines, and how often it records an
/// exit and a failed start.
#[derive(Debug, Clone, PartialEq, Eq)]
pub struct ServiceLogSummary {
    pub service: String,
    pub lines: u64,
    pub exited: u64,
    pub started_false: u64,
}

/// What a supervise log directory says.
#[derive(Debug, Clone, PartialEq, Eq)]
pub struct SuperviseLogSummary {
    pub cycle_summaries: u64,
    pub final_summaries: u64,
    pub parse_errors: u64,
    pub services: Vec<ServiceLogSummary>,
}

/// The figures of a service summary.
pub open spec fn stat_view(s: ServiceLogSummary) -> (Seq<char>, nat, nat, nat) {
    (s.service@, s.lines as nat, s.exited as nat, s.started_false as nat)
}

/// The summary of the log of `service` that holds `raw`.
pub open spec fn service_stats(service: Seq<char>, raw: Seq<char>) -> (Seq<char>, nat, nat, nat) {
    (
        service,
        count_where(lines(raw), filled()),
        occurrences(raw, "exited=true"@, 0),
        occurrences(raw, "started=false"@, 0),
    )
}

/// The name of the service whose log a directory entry named `name` is: the name without
/// its `.log` extension; `None` for any other file.
pub open spec fn log_stem(name: Seq<char>) -> Option<Seq<char>> {
    let k = last_index_of(name, '.');
    if k > 0 && name.skip(k + 1) == "log"@ {
        Some(name.take(k))
    } else {
        None
    }
}

/// The service whose log the directory entry `name` is, if it is one.
pub fn service_log_name(name: &str) -> (r: Option<String>)
    ensures
        match r {
            Some(s) => log_stem(name@) == Some(s@),
            None => log_stem(name@) is None,
        },
{
    let cs = chars_of(name);
    match last_index_of_char(cs.as_slice(), '.') {
        None => None,
        Some(k) => {
            proof {
                crate::text::lemma_last_index_of(cs@, '.');
            }
            if k == 0 {
                return None;
            }
            let ext = slice(cs.as_slice(), k + 1, cs.len());
            let ext_text = string_of(ext.as_slice());
            assert(ext@ =~= name@.skip(k + 1));
            if str_eq(ext_text.as_str(), "log") {
                let stem = slice(cs.as_slice(), 0, k);
                assert(stem@ =~= name@.take(k as int));
                Some(string_of(stem.as_slice()))
            } else {
                None
            }
        },
    }
}

/// The summary of one service log.
pub fn summarize_service_log(service: &str, raw: &str) -> (r: ServiceLogSummary)
    ensures
        stat_view(r) == service_stats(service@, raw@),
{
    let cs = chars_of(raw);
    let ls = lines_of(cs.as_slice());
    let lines_count = count_lines(&ls, None);
    let exited_pat = chars_of("exited=true");
    let started_pat = chars_of("started=false");
    proof {
        reveal_strlit("exited=true");
        reveal_strlit("started=false");
    }
    let exited = count_occurrences(cs.as_slice(), exited_pat.as_slice());
    let started_false = count_occurrences(cs.as_slice(), started_pat.as_slice());
    ServiceLogSummary { service: crate::text::owned(service), lines: lines_count, exited, started_false }
}

/// `x` placed into a list sorted by service name, after every entry whose name does not
/// come after its own.
pub open spec fn insert_by_name(sorted: Seq<(Seq<char>, nat, nat, nat)>, x: (Seq<char>, nat, nat, nat)) -> Seq<(Seq<char>, nat, nat, nat)>
    decreases sorted.len(),
{
    if sorted.len() == 0 {
        seq![x]
    } else if lex_lt(x.0, sorted[0].0) {
        seq![x] + sorted
    } else {
        seq![sorted[0]] + insert_by_name(sorted.drop_first(), x)
    }
}

/// The stable sort of `s` by service name.
pub open spec fn sorted_by_name(s: Seq<(Seq<char>, nat, nat, nat)>) -> Seq<(Seq<char>, nat, nat, nat)>
    decreases s.len(),
{
    if s.len() == 0 {
        seq![]
    } else {
        insert_by_name(sorted_by_name(s.drop_last()), s.last())
    }
}

/// The views of a list of service summaries.
pub open spec fn stat_views(v: Seq<ServiceLogSummary>) -> Seq<(Seq<char>, nat, nat, nat)> {
    v.map_values(|s: ServiceLogSummary| stat_view(s))
}

proof fn lemma_insert_at(sorted: Seq<(Seq<char>, nat, nat, nat)>, x: (Seq<char>, nat, nat, nat), k: int)
    requires
        0 <= k <= sorted.len(),
        forall|j: int| 0 <= j < k ==> !lex_lt(x.0, #[trigger] sorted[j].0),
        k < sorted.len() ==> lex_lt(x.0, sorted[k].0),
    ensures
        insert_by_name(sorted, x) == sorted.insert(k, x),
    decreases k,
{
    if k == 0 {
        if sorted.len() == 0 {
            assert(sorted.insert(0, x) =~= seq![x]);
        } else {
            assert(sorted.insert(0, x) =~= seq![x] + sorted);
        }
    } else {
        assert(!lex_lt(x.0, sorted[0].0));
        assert forall|j: int| 0 <= j < k - 1 implies !lex_lt(x.0, #[trigger] sorted.drop_first()[j].0) by {
            assert(sorted.drop_first()[j] == sorted[j + 1]);
        }
        lemma_insert_at(sorted.drop_first(), x, k - 1);
        assert(sorted.insert(k, x) =~= seq![sorted[0]] + sorted.drop_first().insert(k - 1, x));
    }
}

/// Places `x` into `v`, kept sorted by service name, after the entries whose names do not
/// come after its own.
fn insert_by_service(v: &mut Vec<ServiceLogSummary>, x: ServiceLogSummary)
    ensures
        stat_views(final(v)@) == insert_by_name(stat_views(old(v)@), stat_view(x)),
{
    let ghost start = stat_views(v@);
    let mut k: usize = 0;
    while k < v.len() && !lex_less(x.service.as_str(), v[k].service.as_str())
        invariant
            k <= v@.len(),
            start == stat_views(v@),
            forall|j: int| 0 <= j < k ==> !lex_lt(x.service@, #[trigger] start[j].0),
        decreases v@.len() - k,
    {
        k = k + 1;
    }
    proof {
        lemma_insert_at(start, stat_view(x), k as int);
    }
    let ghost xv = stat_view(x);
    v.insert(k, x);
    assert(stat_views(v@) =~= start.insert(k as int, xv));
}

/// The summary of a supervise log directory: the loop's summary log where there is one,
/// and each service log, named by its service, in the order the directory lists them.
/// The service summaries come sorted by name.
pub fn summarize_supervise_log(summary_log: &Option<String>, service_logs: &Vec<(String, String)>) -> (r: SuperviseLogSummary)
    ensures
        match summary_log {
            Some(raw) => {
                &&& r.cycle_summaries == count_where(lines(raw@), filled_of_kind(SummaryKind::Cycle))
                &&& r.final_summaries == count_where(lines(raw@), filled_of_kind(SummaryKind::Final))
                &&& r.parse_errors == count_where(lines(raw@), filled_of_kind(SummaryKind::Invalid))
            },
            None => r.cycle_summaries == 0 && r.final_summaries == 0 && r.parse_errors == 0,
        },
        stat_views(r.services@) == sorted_by_name(
            service_logs@.map_values(|e: (String, String)| service_stats(e.0@, e.1@)),
        ),
{
    let (cycle_summaries, final_summaries, parse_errors) = match summary_log {
        Some(raw) => {
            let cs = chars_of(raw.as_str());
            let ls = lines_of(cs.as_slice());
            (
                count_lines(&ls, Some(SummaryKind::Cycle)),
                count_lines(&ls, Some(SummaryKind::Final)),
                count_lines(&ls, Some(SummaryKind::Invalid)),
            )
        },
        None => (0, 0, 0),
    };
    let ghost all = service_logs@.map_values(|e: (String, String)| service_stats(e.0@, e.1@));
    let mut services: Vec<ServiceLogSummary> = Vec::new();
    let mut i: usize = 0;
    assert(all.take(0) =~= Seq::<(Seq<char>, nat, nat, nat)>::empty());
    while i < service_logs.len()
        invariant
            i <= service_logs@.len(),
            all == service_logs@.map_values(|e: (String, String)| service_stats(e.0@, e.1@)),
            stat_views(services@) == sorted_by_name(all.take(i as int)),
        decreases service_logs@.len() - i,
    {
        let s = summarize_service_log(service_logs[i].0.as_str(), service_logs[i].1.as_str());
        insert_by_service(&mut services, s);
        assert(all.take(i + 1).drop_last() =~= all.take(i as int));
        i = i + 1;
    }
    assert(all.take(i as int) =~= all);
    SuperviseLogSummary { cycle_summaries, final_summaries, parse_errors, services }
}

/// Each entry's name comes no earlier than the one before it.
pub open spec fn names_sorted(s: Seq<(Seq<char>, nat, nat, nat)>) -> bool {
    forall|i: int, j: int| 0 <= i < j < s.len() ==> !lex_lt(#[trigger] s[j].0, #[trigger] s[i].0)
}

proof fn lemma_not_before_transitive(a: Seq<char>, b: Seq<char>, c: Seq<char>)
    requires
        !lex_lt(b, a),
        !lex_lt(c, b),
    ensures
        !lex_lt(c, a),
{
    lemma_lex_total(a, b);
    lemma_lex_total(b, c);
    if a != b && b != c {
        lemma_lex_transitive(a, b, c);
        lemma_lex_asymmetric(a, c);
    } else if a == b && b != c {
        lemma_lex_asymmetric(b, c);
    } else if a != b && b == c {
        lemma_lex_asymmetric(a, b);
    } else {
        lemma_lex_irreflexive(a);
    }
}

proof fn lemma_insert_keeps_lower_bound(sorted: Seq<(Seq<char>, nat, nat, nat)>, x: (Seq<char>, nat, nat, nat), lo: Seq<char>)
    requires
        !lex_lt(x.0, lo),
        forall|i: int| 0 <= i < sorted.len() ==> !lex_lt(#[trigger] sorted[i].0, lo),
    ensures
        forall|i: int| 0 <= i < insert_by_name(sorted, x).len() ==> !lex_lt(#[trigger] insert_by_name(sorted, x)[i].0, lo),
        insert_by_name(sorted, x).len() == sorted.len() + 1,
    decreases sorted.len(),
{
    if sorted.len() > 0 && !lex_lt(x.0, sorted[0].0) {
        let rest = sorted.drop_first();
        assert forall|i: int| 0 <= i < rest.len() implies !lex_lt(#[trigger] rest[i].0, lo) by {
            assert(rest[i] == sorted[i + 1]);
        }
        lemma_insert_keeps_lower_bound(rest, x, lo);
        let r = insert_by_name(sorted, x);
        assert forall|i: int| 0 <= i < r.len() implies !lex_lt(#[trigger] r[i].0, lo) by {
            if i > 0 {
                assert(r[i] == insert_by_name(rest, x)[i - 1]);
            }
        }
    }
}

proof fn lemma_insert_sorted(sorted: Seq<(Seq<char>, nat, nat, nat)>, x: (Seq<char>, nat, nat, nat))
    requires
        names_sorted(sorted),
    ensures
        names_sorted(insert_by_name(sorted, x)),
        insert_by_name(sorted, x).len() == sorted.len() + 1,
    decreases sorted.len(),
{
    let r = insert_by_name(sorted, x);
    if sorted.len() == 0 {
    } else if lex_lt(x.0, sorted[0].0) {
        assert forall|i: int, j: int| 0 <= i < j < r.len() implies !lex_lt(#[trigger] r[j].0, #[trigger] r[i].0) by {
            assert(r[j] == sorted[j - 1]);
            if i == 0 {
                assert(r[i] == x);
                if j - 1 > 0 {
                    assert(!lex_lt(sorted[j - 1].0, sorted[0].0));
                }
                lemma_lex_asymmetric(x.0, sorted[0].0);
                lemma_lex_irreflexive(sorted[0].0);
                lemma_not_before_transitive(x.0, sorted[0].0, sorted[j - 1].0);
            } else {
                assert(r[i] == sorted[i - 1]);
            }
        }
    } else {
        let rest = sorted.drop_first();
        assert(names_sorted(rest)) by {
            assert forall|i: int, j: int| 0 <= i < j < rest.len() implies !lex_lt(#[trigger] rest[j].0, #[trigger] rest[i].0) by {
                assert(rest[i] == sorted[i + 1]);
                assert(rest[j] == sorted[j + 1]);
            }
        }
        lemma_insert_sorted(rest, x);
        assert forall|i: int| 0 <= i < rest.len() implies !lex_lt(#[trigger] rest[i].0, sorted[0].0) by {
            assert(rest[i] == sorted[i + 1]);
        }
        lemma_insert_keeps_lower_bound(rest, x, sorted[0].0);
        let t = insert_by_name(rest, x);
        assert forall|i: int, j: int| 0 <= i < j < r.len() implies !lex_lt(#[trigger] r[j].0, #[trigger] r[i].0) by {
            assert(r[j] == t[j - 1]);
            if i == 0 {
                assert(r[i] == sorted[0]);
            } else {
                assert(r[i] == t[i - 1]);
            }
        }
    }
}

/// The service summaries come sorted by name, one for each service log.
pub proof fn service_summaries_come_sorted(s: Seq<(Seq<char>, nat, nat, nat)>)
    ensures
        names_sorted(sorted_by_name(s)),
        sorted_by_name(s).len() == s.len(),
    decreases s.len(),
{
    if s.len() > 0 {
        service_summaries_come_sorted(s.drop_last());
        lemma_insert_sorted(sorted_by_name(s.drop_last()), s.last());
    }
}

} // verus!
