//! The tag server's record of control commands: a bounded log, newest last, listed newest
//! first.
use vstd::prelude::*;
use std::collections::VecDeque;

use crate::command::ControlCommand;
use crate::json::{push_all, push_key, push_quoted, push_text, quoted};
use crate::json_doc::{json_quoted, quote};
use crate::text::{chars_of, decimal, string_of, u64_text};

verus! {

/// How many entries the log keeps.
pub const OPERATION_LOG_CAPACITY: usize = 256;

/// One control command as the log keeps it.
#[derive(Debug, Clone, PartialEq, Eq)]
pub struct OperationLogEntry {
    pub command_id: String,
    pub user_id: String,
    pub tag_id: String,
    pub requested_value: String,
    pub requested_at: String,
    pub status: String,
    pub result: String,
}

/// The log after `entry` is recorded: the oldest entry leaves once the log is full.
pub open spec fn logged(log: Seq<OperationLogEntry>, entry: OperationLogEntry) -> Seq<OperationLogEntry> {
    if log.len() >= OPERATION_LOG_CAPACITY {
        log.skip(1).push(entry)
    } else {
        log.push(entry)
    }
}

/// The JSON object of an entry, each string written by `serde_json`, fields in declaration
/// order.
pub open spec fn entry_json(e: OperationLogEntry) -> Seq<char> {
    "{\"command_id\":"@ + json_quoted(e.command_id@) + ",\"user_id\":"@ + json_quoted(e.user_id@)
        + ",\"tag_id\":"@ + json_quoted(e.tag_id@) + ",\"requested_value\":"@ + json_quoted(
        e.requested_value@,
    ) + ",\"requested_at\":"@ + json_quoted(e.requested_at@) + ",\"status\":"@ + json_quoted(
        e.status@,
    ) + ",\"result\":"@ + json_quoted(e.result@) + "}"@
}

/// The entries' JSON objects, newest first, separated by commas.
pub open spec fn entries_newest_first(log: Seq<OperationLogEntry>) -> Seq<char>
    decreases log.len(),
{
    if log.len() == 0 {
        seq![]
    } else if log.len() == 1 {
        entry_json(log[0])
    } else {
        entry_json(log.last()) + ","@ + entries_newest_first(log.drop_last())
    }
}

/// `{"items":[…]}`, the entries newest first.
pub open spec fn log_list_json(log: Seq<OperationLogEntry>) -> Seq<char> {
    "{\"items\":["@ + entries_newest_first(log) + "]}"@
}

fn push_serde_quoted(out: &mut Vec<char>, s: &str)
    ensures
        final(out)@ == old(out)@ + json_quoted(s@),
{
    let q = quote(s);
    push_text(out, q.as_str());
}

fn push_entry_json(out: &mut Vec<char>, e: &OperationLogEntry)
    ensures
        final(out)@ == old(out)@ + entry_json(*e),
{
    let ghost start = out@;
    push_text(out, "{\"command_id\":");
    push_serde_quoted(out, e.command_id.as_str());
    push_text(out, ",\"user_id\":");
    push_serde_quoted(out, e.user_id.as_str());
    push_text(out, ",\"tag_id\":");
    push_serde_quoted(out, e.tag_id.as_str());
    push_text(out, ",\"requested_value\":");
    push_serde_quoted(out, e.requested_value.as_str());
    push_text(out, ",\"requested_at\":");
    push_serde_quoted(out, e.requested_at.as_str());
    push_text(out, ",\"status\":");
    push_serde_quoted(out, e.status.as_str());
    push_text(out, ",\"result\":");
    push_serde_quoted(out, e.result.as_str());
    push_text(out, "}");
    assert(out@ =~= start + entry_json(*e));
}

/// The control commands the tag server has handled, at most `OPERATION_LOG_CAPACITY`.
#[derive(Debug)]
pub struct OperationLog {
    entries: VecDeque<OperationLogEntry>,
}

impl OperationLog {
    /// The entries, oldest first.
    pub closed spec fn view(&self) -> Seq<OperationLogEntry> {
        self.entries@
    }

    #[verifier::type_invariant]
    closed spec fn bounded(self) -> bool {
        self.entries@.len() <= OPERATION_LOG_CAPACITY
    }

    pub fn new() -> (l: OperationLog)
        ensures
            l@ == Seq::<OperationLogEntry>::empty(),
    {
        OperationLog { entries: VecDeque::new() }
    }

    /// How many entries the log holds, never more than its capacity.
    pub fn len(&self) -> (n: usize)
        ensures
            n == self@.len(),
            n <= OPERATION_LOG_CAPACITY,
    {
        proof {
            use_type_invariant(self);
        }
        self.entries.len()
    }

    /// Records `entry` as the newest, dropping the oldest when the log is full.
    pub fn record(&mut self, entry: OperationLogEntry)
        ensures
            final(self)@ == logged(old(self)@, entry),
    {
        proof {
            use_type_invariant(&*self);
        }
        let mut entries = VecDeque::new();
        std::mem::swap(&mut entries, &mut self.entries);
        if entries.len() >= OPERATION_LOG_CAPACITY {
            entries.pop_front();
        }
        entries.push_back(entry);
        assert(entries@ =~= logged(old(self)@, entry));
        self.entries = entries;
    }

    /// `{"items":[…]}` with the entries newest first.
    pub fn list_json(&self) -> (r: String)
        ensures
            r@ == log_list_json(self@),
    {
        proof {
            reveal_strlit(",");
        }
        let mut out: Vec<char> = Vec::new();
        push_text(&mut out, "{\"items\":[");
        let ghost start = out@;
        let n = self.entries.len();
        let mut i: usize = n;
        while i > 0
            invariant
                i <= n,
                n == self.entries@.len(),
                out@ == start + entries_newest_first(self.entries@.skip(i as int)),
            decreases i,
        {
            let ghost rest = self.entries@.skip(i as int);
            let ghost more = self.entries@.skip(i - 1);
            let x = &self.entries[i - 1];
            assert(*x == self.entries@[i - 1]);
            assert(more =~= seq![*x] + rest);
            proof {
                lemma_prepend_oldest(*x, rest);
            }
            proof {
                reveal_strlit(",");
            }
            if i < n {
                out.push(',');
            }
            let ghost mid = out@;
            push_entry_json(&mut out, x);
            if i < n {
                assert(mid =~= start + entries_newest_first(rest) + ","@);
                assert(out@ =~= start + (entries_newest_first(rest) + ","@ + entry_json(*x)));
            } else {
                assert(rest.len() == 0);
                assert(out@ =~= start + entry_json(*x));
            }
            i = i - 1;
        }
        assert(self.entries@.skip(0) =~= self.entries@);
        push_text(&mut out, "]}");
        assert(out@ =~= log_list_json(self@));
        string_of(out.as_slice())
    }
}

/// Putting an older entry before a log puts its object last in the listing.
pub proof fn lemma_prepend_oldest(e: OperationLogEntry, log: Seq<OperationLogEntry>)
    ensures
        entries_newest_first(seq![e] + log) == if log.len() == 0 {
            entry_json(e)
        } else {
            entries_newest_first(log) + ","@ + entry_json(e)
        },
    decreases log.len(),
{
    let s = seq![e] + log;
    if log.len() == 0 {
        assert(s =~= seq![e]);
    } else if log.len() == 1 {
        assert(s.drop_last() =~= seq![e]);
        assert(s.last() == log[0]);
        assert(entries_newest_first(seq![e]) == entry_json(e));
        assert(entries_newest_first(s) == entry_json(log[0]) + ","@ + entries_newest_first(seq![e]));
    } else {
        let d = log.drop_last();
        assert(s.drop_last() =~= seq![e] + d);
        assert(s.last() == log.last());
        lemma_prepend_oldest(e, d);
        assert(entries_newest_first(s) == entry_json(log.last()) + ","@ + entries_newest_first(seq![e] + d));
        assert(entries_newest_first(log) == entry_json(log.last()) + ","@ + entries_newest_first(d));
        assert(entries_newest_first(seq![e] + d) == entries_newest_first(d) + ","@ + entry_json(e));
        assert((entry_json(log.last()) + ","@ + entries_newest_first(d)) + ","@ + entry_json(e)
            =~= entry_json(log.last()) + ","@ + (entries_newest_first(d) + ","@ + entry_json(e)));
    }
}

/// Recording keeps the log within its capacity, makes `entry` the newest, and keeps the
/// entries before it in order, losing only the oldest when the log was full.
pub proof fn record_keeps_the_newest(log: Seq<OperationLogEntry>, entry: OperationLogEntry)
    requires
        log.len() <= OPERATION_LOG_CAPACITY,
    ensures
        logged(log, entry).len() <= OPERATION_LOG_CAPACITY,
        logged(log, entry).last() == entry,
        logged(log, entry).len() == if log.len() == OPERATION_LOG_CAPACITY {
            log.len()
        } else {
            log.len() + 1
        },
        logged(log, entry).drop_last() == if log.len() == OPERATION_LOG_CAPACITY {
            log.skip(1)
        } else {
            log
        },
{
    assert(logged(log, entry).drop_last() =~= if log.len() == OPERATION_LOG_CAPACITY {
        log.skip(1)
    } else {
        log
    });
}

} // verus!
