//! The tag server's latest-value cache and its write policy.
use vstd::prelude::*;

use crate::command::{ControlCommand, ControlCommandStatus};
use crate::driver::DriverWriteRequest;
use crate::json::{push_all, push_text};
use crate::tag::TagValue;
use crate::text::{chars_of, owned, str_eq, string_of};

verus! {

/// The values of `vs` keyed by tag id, a later entry taking the place of an earlier one.
pub open spec fn values_map(vs: Seq<TagValue>) -> Map<Seq<char>, TagValue>
    decreases vs.len(),
{
    if vs.len() == 0 {
        Map::empty()
    } else {
        values_map(vs.drop_last()).insert(vs.last().tag_id@, vs.last())
    }
}

/// No two entries of `vs` share a tag id.
pub open spec fn distinct_ids(vs: Seq<TagValue>) -> bool {
    forall|i: int, j: int|
        0 <= i < vs.len() && 0 <= j < vs.len() && i != j ==> vs[i].tag_id@ != vs[j].tag_id@
}

/// What `InMemoryTagCache::ingest` does: `value` takes the place of the cached value for
/// its tag where there is none or where it carries a later sequence number, and
/// `accepted` tells whether it did.
pub open spec fn ingest_result(
    before: Map<Seq<char>, TagValue>,
    value: TagValue,
    after: Map<Seq<char>, TagValue>,
    accepted: bool,
) -> bool {
    &&& accepted == (!before.dom().contains(value.tag_id@) || value.sequence
        > before[value.tag_id@].sequence)
    &&& after == if accepted {
        before.insert(value.tag_id@, value)
    } else {
        before
    }
}

proof fn lemma_values_map_facts(vs: Seq<TagValue>)
    requires
        distinct_ids(vs),
    ensures
        forall|i: int|
            0 <= i < vs.len() ==> values_map(vs).dom().contains(#[trigger] vs[i].tag_id@)
                && values_map(vs)[vs[i].tag_id@] == vs[i],
        forall|k: Seq<char>|
            values_map(vs).dom().contains(k) ==> exists|i: int|
                0 <= i < vs.len() && #[trigger] vs[i].tag_id@ == k,
        values_map(vs).dom().finite(),
        values_map(vs).dom().len() == vs.len(),
    decreases vs.len(),
{
    if vs.len() > 0 {
        let p = vs.drop_last();
        assert(distinct_ids(p));
        lemma_values_map_facts(p);
        assert forall|i: int|
            0 <= i < vs.len() implies values_map(vs).dom().contains(#[trigger] vs[i].tag_id@)
            && values_map(vs)[vs[i].tag_id@] == vs[i] by {
            if i < vs.len() - 1 {
                assert(p[i] == vs[i]);
                assert(vs[i].tag_id@ != vs.last().tag_id@);
            }
        }
        assert forall|k: Seq<char>| values_map(vs).dom().contains(k) implies exists|i: int|
            0 <= i < vs.len() && #[trigger] vs[i].tag_id@ == k by {
            if k != vs.last().tag_id@ {
                let i = choose|i: int| 0 <= i < p.len() && #[trigger] p[i].tag_id@ == k;
                assert(vs[i] == p[i]);
            } else {
                assert(vs[vs.len() - 1].tag_id@ == k);
            }
        }
        if values_map(p).dom().contains(vs.last().tag_id@) {
            let i = choose|i: int| 0 <= i < p.len() && #[trigger] p[i].tag_id@ == vs.last().tag_id@;
            assert(vs[i] == p[i]);
            assert(false);
        }
    }
}

proof fn lemma_values_map_update(vs: Seq<TagValue>, i: int, v: TagValue)
    requires
        distinct_ids(vs),
        0 <= i < vs.len(),
        v.tag_id@ == vs[i].tag_id@,
    ensures
        distinct_ids(vs.update(i, v)),
        values_map(vs.update(i, v)) == values_map(vs).insert(v.tag_id@, v),
{
    let u = vs.update(i, v);
    lemma_values_map_facts(vs);
    assert(distinct_ids(u)) by {
        assert forall|a: int, b: int|
            0 <= a < u.len() && 0 <= b < u.len() && a != b implies u[a].tag_id@ != u[b].tag_id@ by {
            if a != i && b != i {
            } else if a == i {
                assert(u[b] == vs[b]);
            } else {
                assert(u[a] == vs[a]);
            }
        }
    }
    lemma_values_map_facts(u);
    let m1 = values_map(u);
    let m2 = values_map(vs).insert(v.tag_id@, v);
    assert(u[i] == v);
    assert(m1.dom().contains(u[i].tag_id@));
    assert forall|k: Seq<char>| m1.dom().contains(k) <==> m2.dom().contains(k) by {
        if m1.dom().contains(k) {
            let j = choose|j: int| 0 <= j < u.len() && #[trigger] u[j].tag_id@ == k;
            if j != i {
                assert(u[j] == vs[j]);
                assert(values_map(vs).dom().contains(vs[j].tag_id@));
            }
        }
        if m2.dom().contains(k) && k != v.tag_id@ {
            let j = choose|j: int| 0 <= j < vs.len() && #[trigger] vs[j].tag_id@ == k;
            assert(u[j] == vs[j]);
        }
    }
    assert forall|k: Seq<char>| #[trigger] m1.dom().contains(k) implies m1[k] == m2[k] by {
        let j = choose|j: int| 0 <= j < u.len() && #[trigger] u[j].tag_id@ == k;
        if j != i {
            assert(u[j] == vs[j]);
        }
    }
    assert(m1 =~= m2);
}

/// The latest value of each tag.
#[derive(Debug)]
pub struct InMemoryTagCache {
    values: Vec<TagValue>,
}

impl InMemoryTagCache {
    /// The cached values, keyed by tag id.
    pub closed spec fn view(&self) -> Map<Seq<char>, TagValue> {
        values_map(self.values@)
    }

    #[verifier::type_invariant]
    closed spec fn wf(self) -> bool {
        distinct_ids(self.values@)
    }

    pub fn new() -> (c: InMemoryTagCache)
        ensures
            c.view() == Map::<Seq<char>, TagValue>::empty(),
    {
        InMemoryTagCache { values: Vec::new() }
    }

    fn position(&self, tag_id: &str) -> (r: Option<usize>)
        ensures
            match r {
                Some(i) => i < self.values@.len() && self.values@[i as int].tag_id@ == tag_id@,
                None => forall|i: int|
                    0 <= i < self.values@.len() ==> (#[trigger] self.values@[i]).tag_id@ != tag_id@,
            },
    {
        let mut i: usize = 0;
        while i < self.values.len()
            invariant
                i <= self.values@.len(),
                forall|j: int| 0 <= j < i ==> (#[trigger] self.values@[j]).tag_id@ != tag_id@,
            decreases self.values@.len() - i,
        {
            if str_eq(self.values[i].tag_id.as_str(), tag_id) {
                return Some(i);
            }
            i = i + 1;
        }
        None
    }

    /// Keeps `value` where the cache holds nothing for its tag or holds an older sequence
    /// number; tells whether it was kept.
    pub fn ingest(&mut self, value: TagValue) -> (accepted: bool)
        ensures
            ingest_result(old(self).view(), value, final(self).view(), accepted),
    {
        proof {
            use_type_invariant(&*self);
            lemma_values_map_facts(self.values@);
        }
        match self.position(value.tag_id.as_str()) {
            Some(i) => {
                if value.sequence > self.values[i].sequence {
                    let ghost vs = self.values@;
                    proof {
                        lemma_values_map_update(vs, i as int, value);
                    }
                    let mut values: Vec<TagValue> = Vec::new();
                    std::mem::swap(&mut values, &mut self.values);
                    values.set(i, value);
                    assert(values@ == vs.update(i as int, value));
                    self.values = values;
                    true
                } else {
                    false
                }
            },
            None => {
                let ghost vs = self.values@;
                let mut values: Vec<TagValue> = Vec::new();
                    std::mem::swap(&mut values, &mut self.values);
                values.push(value);
                proof {
                    assert(values@.drop_last() =~= vs);
                    assert forall|a: int, b: int|
                        0 <= a < values@.len() && 0 <= b < values@.len() && a != b implies
                        values@[a].tag_id@ != values@[b].tag_id@ by {
                        if a < vs.len() && b < vs.len() {
                            assert(values@[a] == vs[a] && values@[b] == vs[b]);
                        } else if a < vs.len() {
                            assert(values@[a] == vs[a]);
                        } else {
                            assert(values@[b] == vs[b]);
                        }
                    }
                    if values_map(vs).dom().contains(value.tag_id@) {
                        let j = choose|j: int| 0 <= j < vs.len() && #[trigger] vs[j].tag_id@ == value.tag_id@;
                        assert(false);
                    }
                }
                self.values = values;
                true
            },
        }
    }

    /// The cached value of `tag_id`, if any.
    pub fn get(&self, tag_id: &str) -> (r: Option<&TagValue>)
        ensures
            match r {
                Some(v) => self.view().dom().contains(tag_id@) && *v == self.view()[tag_id@],
                None => !self.view().dom().contains(tag_id@),
            },
    {
        proof {
            use_type_invariant(self);
            lemma_values_map_facts(self.values@);
        }
        match self.position(tag_id) {
            Some(i) => Some(&self.values[i]),
            None => {
                proof {
                    if self.view().dom().contains(tag_id@) {
                        let j = choose|j: int|
                            0 <= j < self.values@.len() && #[trigger] self.values@[j].tag_id@ == tag_id@;
                        assert(false);
                    }
                }
                None
            },
        }
    }

    /// How many tags have a cached value.
    pub fn len(&self) -> (n: usize)
        ensures
            n == self.view().len(),
    {
        proof {
            use_type_invariant(self);
            lemma_values_map_facts(self.values@);
        }
        self.values.len()
    }

    pub fn is_empty(&self) -> (b: bool)
        ensures
            b == (self.view().len() == 0),
    {
        proof {
            use_type_invariant(self);
            lemma_values_map_facts(self.values@);
        }
        self.values.len() == 0
    }
}

/// Ingesting never replaces a cached value with one of an earlier or equal sequence number:
/// after an ingest every tag that had a value still has one, with a sequence number at least
/// as high, and the ingested tag holds the higher of the two; an accepted value is what
/// the cache then gives back for its tag.
pub proof fn ingest_keeps_the_newest_value(
    before: Map<Seq<char>, TagValue>,
    value: TagValue,
    after: Map<Seq<char>, TagValue>,
    accepted: bool,
)
    requires
        ingest_result(before, value, after, accepted),
    ensures
        forall|k: Seq<char>|
            #[trigger] before.dom().contains(k) ==> after.dom().contains(k) && after[k].sequence
                >= before[k].sequence,
        after.dom().contains(value.tag_id@),
        after[value.tag_id@].sequence >= value.sequence || (before.dom().contains(value.tag_id@)
            && after[value.tag_id@] == before[value.tag_id@]),
        !accepted ==> after == before,
        accepted ==> after[value.tag_id@] == value,
{
}

} // verus!

verus! {

/// The tags that control commands may write.
#[derive(Debug)]
pub struct WritePolicy {
    writable_tags: Vec<String>,
}

/// `tag <id> is not writable`.
pub open spec fn not_writable_message(tag_id: Seq<char>) -> Seq<char> {
    "tag "@ + tag_id + " is not writable"@
}

impl WritePolicy {
    /// The ids of the writable tags.
    pub closed spec fn view(&self) -> Set<Seq<char>> {
        self.writable_tags@.map_values(|s: String| s@).to_set()
    }

    pub fn new() -> (p: WritePolicy)
        ensures
            p.view() == Set::<Seq<char>>::empty(),
    {
        let p = WritePolicy { writable_tags: Vec::new() };
        assert(p.writable_tags@.map_values(|s: String| s@) =~= Seq::<Seq<char>>::empty());
        assert(p.view() =~= Set::<Seq<char>>::empty());
        p
    }

    /// This policy with `tag_id` writable as well.
    pub fn allow_tag(self, tag_id: &str) -> (p: WritePolicy)
        ensures
            p.view() == self.view().insert(tag_id@),
    {
        let mut tags = self.writable_tags;
        let ghost before = tags@;
        tags.push(owned(tag_id));
        let p = WritePolicy { writable_tags: tags };
        assert(p.writable_tags@.map_values(|s: String| s@) =~= before.map_values(|s: String| s@).push(
            tag_id@,
        ));
        assert(p.view() =~= self.view().insert(tag_id@)) by {
            let a = before.map_values(|s: String| s@);
            assert forall|x: Seq<char>| p.view().contains(x) <==> self.view().insert(tag_id@).contains(x) by {
                if p.view().contains(x) {
                    let i = choose|i: int| 0 <= i < a.push(tag_id@).len() && a.push(tag_id@)[i] == x;
                    if i < a.len() {
                        assert(a[i] == x);
                    }
                }
                if self.view().contains(x) {
                    let i = choose|i: int| 0 <= i < a.len() && a[i] == x;
                    assert(a.push(tag_id@)[i] == x);
                }
                if x == tag_id@ {
                    assert(a.push(tag_id@)[a.len() as int] == x);
                }
            }
        }
        p
    }

    /// Whether `tag_id` is writable.
    pub fn is_writable(&self, tag_id: &str) -> (b: bool)
        ensures
            b == self.view().contains(tag_id@),
    {
        let ghost a = self.writable_tags@.map_values(|s: String| s@);
        let mut i: usize = 0;
        while i < self.writable_tags.len()
            invariant
                i <= self.writable_tags@.len(),
                a == self.writable_tags@.map_values(|s: String| s@),
                forall|j: int| 0 <= j < i ==> a[j] != tag_id@,
            decreases self.writable_tags@.len() - i,
        {
            if str_eq(self.writable_tags[i].as_str(), tag_id) {
                assert(a[i as int] == tag_id@);
                return true;
            }
            i = i + 1;
        }
        proof {
            if self.view().contains(tag_id@) {
                let j = choose|j: int| 0 <= j < a.len() && a[j] == tag_id@;
                assert(false);
            }
        }
        false
    }

    /// Validates a command against the policy: a writable tag moves it to `Validated` and
    /// yields the driver request; any other is `Rejected` with the reason.
    pub fn validate(&self, command: &mut ControlCommand) -> (r: Result<DriverWriteRequest, String>)
        ensures
            final(command).command_id == old(command).command_id,
            final(command).idempotency_key == old(command).idempotency_key,
            final(command).user_id == old(command).user_id,
            final(command).tag_id == old(command).tag_id,
            final(command).requested_value == old(command).requested_value,
            final(command).requested_at == old(command).requested_at,
            final(command).timeout_ms == old(command).timeout_ms,
            self.view().contains(old(command).tag_id@) ==> {
                &&& final(command).status == ControlCommandStatus::Validated
                &&& r is Ok
                &&& r->Ok_0.command_id@ == old(command).command_id@
                &&& r->Ok_0.tag_id@ == old(command).tag_id@
                &&& r->Ok_0.value@ == old(command).requested_value@
            },
            !self.view().contains(old(command).tag_id@) ==> {
                &&& final(command).status == ControlCommandStatus::Rejected
                &&& r is Err
                &&& r->Err_0@ == not_writable_message(old(command).tag_id@)
            },
    {
        if !self.is_writable(command.tag_id.as_str()) {
            command.transition_to(ControlCommandStatus::Rejected);
            let mut msg: Vec<char> = Vec::new();
            push_text(&mut msg, "tag ");
            push_text(&mut msg, command.tag_id.as_str());
            push_text(&mut msg, " is not writable");
            return Err(string_of(msg.as_slice()));
        }
        command.transition_to(ControlCommandStatus::Validated);
        Ok(
            DriverWriteRequest {
                command_id: command.command_id.clone(),
                tag_id: command.tag_id.clone(),
                value: command.requested_value.clone(),
            },
        )
    }
}

} // verus!
