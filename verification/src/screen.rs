//! Screens and their projection: which tags a screen shows, the values of its bindings
//! from a snapshot, and how a live delta updates them.
use vstd::prelude::*;

use crate::json::{push_all, push_text};
use crate::json_doc::{pair_views, string_views};
use crate::text::{chars_of, decimal, owned, str_eq, string_of, u64_text};
use crate::text_order::{
    insert_sorted, lemma_lex_asymmetric, lemma_lex_irreflexive, lemma_lex_total,
    lemma_lex_transitive, lex_less, lex_lt, strictly_sorted,
};

verus! {

/// A tag value as the runtime receives it; `value` is the compact JSON text of the value.
#[derive(Debug, Clone, PartialEq, Eq)]
pub struct RuntimeTagValue {
    pub tag_id: String,
    pub value: String,
    pub data_type: String,
    pub quality: String,
    pub source_timestamp: String,
    pub server_timestamp: String,
    pub sequence: u64,
    pub scan_interval_ms: u64,
    pub stale_after_ms: u64,
    pub driver_id: String,
    pub endpoint_id: String,
    pub read_status: String,
    pub write_status: String,
}

/// The tag server's answer to a snapshot request.
#[derive(Debug, Clone, PartialEq, Eq)]
pub struct TagSnapshot {
    pub values: Vec<RuntimeTagValue>,
    pub missing_tag_ids: Vec<String>,
}

/// One object placed on a screen and the tags its keys are bound to. The binding list is
/// read as a map: where a key repeats, its last pair counts.
#[derive(Debug, Clone, PartialEq, Eq)]
pub struct ScreenObjectDefinition {
    pub object_id: String,
    pub svg_asset_id: String,
    pub tag_bindings: Vec<(String, String)>,
}

/// A screen as the builder saves it.
#[derive(Debug, Clone, PartialEq, Eq)]
pub struct ScreenDefinition {
    pub schema_version: String,
    pub screen_id: String,
    pub project_id: String,
    pub name: String,
    pub canvas_width: u32,
    pub canvas_height: u32,
    pub objects: Vec<ScreenObjectDefinition>,
}

/// One binding of an object with the value it shows, if any; `value` is JSON text.
#[derive(Debug, Clone, PartialEq, Eq)]
pub struct ObjectBindingState {
    pub key: String,
    pub tag_id: String,
    pub value: Option<String>,
    pub quality: Option<String>,
    pub sequence: Option<u64>,
}

/// An object of a projected screen.
#[derive(Debug, Clone, PartialEq, Eq)]
pub struct ScreenObjectState {
    pub object_id: String,
    pub svg_asset_id: String,
    pub bindings: Vec<ObjectBindingState>,
}

/// A screen with the values of its bindings.
#[derive(Debug, Clone, PartialEq, Eq)]
pub struct ScreenProjection {
    pub screen_id: String,
    pub project_id: String,
    pub object_states: Vec<ScreenObjectState>,
}

/// A tag value that arrived on a topic.
#[derive(Debug, Clone, PartialEq, Eq)]
pub struct RuntimeDeltaMessage {
    pub topic: String,
    pub value: RuntimeTagValue,
}

/// What applying a delta did.
#[derive(Debug, Clone, PartialEq, Eq)]
pub struct DeltaApplyResult {
    pub tag_id: String,
    pub matched_bindings: usize,
    pub applied_bindings: usize,
    pub ignored_stale_bindings: usize,
    pub affected_object_ids: Vec<String>,
}


/// The bindings as a map from key to tag, the last pair of a key counting.
pub open spec fn bindings_map(ps: Seq<(Seq<char>, Seq<char>)>) -> Map<Seq<char>, Seq<char>>
    decreases ps.len(),
{
    if ps.len() == 0 {
        Map::empty()
    } else {
        bindings_map(ps.drop_last()).insert(ps.last().0, ps.last().1)
    }
}

/// The keys of `ps` come in strictly increasing order.
pub open spec fn keys_sorted(ps: Seq<(Seq<char>, Seq<char>)>) -> bool {
    forall|i: int, j: int| 0 <= i < j < ps.len() ==> lex_lt(#[trigger] ps[i].0, #[trigger] ps[j].0)
}

proof fn lemma_sorted_keys_distinct(ps: Seq<(Seq<char>, Seq<char>)>, i: int, j: int)
    requires
        keys_sorted(ps),
        0 <= i < ps.len(),
        0 <= j < ps.len(),
        i != j,
    ensures
        ps[i].0 != ps[j].0,
{
    if i < j {
        if ps[i].0 == ps[j].0 {
            lemma_lex_irreflexive(ps[i].0);
        }
    } else {
        if ps[i].0 == ps[j].0 {
            lemma_lex_irreflexive(ps[i].0);
        }
    }
}

/// Inserts `(k, t)` into a key-sorted list, in place of a pair with the same key.
fn put_sorted(v: &mut Vec<(String, String)>, k: String, t: String)
    requires
        keys_sorted(pair_views(old(v)@)),
    ensures
        keys_sorted(pair_views(final(v)@)),
        bindings_map(pair_views(final(v)@)) == bindings_map(pair_views(old(v)@)).insert(k@, t@),
{
    let ghost ov = pair_views(v@);
    proof {
        lemma_sorted_map(ov);
    }
    let mut p: usize = 0;
    while p < v.len() && lex_less(v[p].0.as_str(), k.as_str())
        invariant
            p <= v@.len(),
            ov == pair_views(v@),
            forall|q: int| 0 <= q < p ==> lex_lt(#[trigger] ov[q].0, k@),
        decreases v@.len() - p,
    {
        p = p + 1;
    }
    let ghost kv = k@;
    let ghost tv = t@;
    if p < v.len() && str_eq(v[p].0.as_str(), k.as_str()) {
        v.set(p, (k, t));
        let ghost nv = pair_views(v@);
        assert(nv =~= ov.update(p as int, (kv, tv)));
        assert forall|i: int, j: int| 0 <= i < j < nv.len() implies lex_lt(#[trigger] nv[i].0, #[trigger] nv[j].0) by {
            assert(nv[i].0 == ov[i].0 && nv[j].0 == ov[j].0);
        }
        proof {
            lemma_sorted_map(nv);
            assert(bindings_map(nv) =~= bindings_map(ov).insert(kv, tv)) by {
                assert forall|x: Seq<char>| #[trigger] bindings_map(nv).dom().contains(x) == bindings_map(ov).insert(kv, tv).dom().contains(x) by {
                    if bindings_map(ov).dom().contains(x) {
                        let q = choose|q: int| 0 <= q < ov.len() && ov[q].0 == x;
                        assert(nv[q].0 == x);
                    }
                    if bindings_map(nv).dom().contains(x) {
                        let q = choose|q: int| 0 <= q < nv.len() && nv[q].0 == x;
                        if q != p {
                            assert(ov[q].0 == x);
                        }
                    }
                    if x == kv {
                        assert(nv[p as int].0 == x);
                    }
                }
                assert forall|x: Seq<char>| #[trigger] bindings_map(nv).dom().contains(x) implies bindings_map(nv)[x] == bindings_map(ov).insert(kv, tv)[x] by {
                    let q = choose|q: int| 0 <= q < nv.len() && nv[q].0 == x;
                    if q != p {
                        assert(ov[q] == nv[q]);
                        lemma_sorted_keys_distinct(nv, q, p as int);
                    }
                }
            }
        }
        return;
    }
    proof {
        if p < v@.len() {
            lemma_lex_total(ov[p as int].0, kv);
        }
    }
    v.insert(p, (k, t));
    let ghost nv = pair_views(v@);
    assert(nv =~= ov.insert(p as int, (kv, tv)));
    assert forall|i: int, j: int| 0 <= i < j < nv.len() implies lex_lt(#[trigger] nv[i].0, #[trigger] nv[j].0) by {
        if j < p {
            assert(nv[i] == ov[i] && nv[j] == ov[j]);
        } else if j == p {
            assert(nv[i] == ov[i]);
        } else if i == p {
            assert(nv[j] == ov[j - 1]);
            if j - 1 > p {
                lemma_lex_transitive(kv, ov[p as int].0, ov[j - 1].0);
            }
        } else if i < p {
            assert(nv[i] == ov[i] && nv[j] == ov[j - 1]);
        } else {
            assert(nv[i] == ov[i - 1] && nv[j] == ov[j - 1]);
        }
    }
    proof {
        lemma_sorted_map(nv);
        assert forall|q: int| 0 <= q < ov.len() implies ov[q].0 != kv by {
            if q < p {
                lemma_lex_irreflexive(kv);
            } else {
                if q > p {
                    assert(lex_lt(ov[p as int].0, ov[q].0));
                }
                if ov[q].0 == kv {
                    if q == p {
                    } else {
                        lemma_lex_asymmetric(ov[p as int].0, kv);
                    }
                }
            }
        }
        assert(bindings_map(nv) =~= bindings_map(ov).insert(kv, tv)) by {
            assert forall|x: Seq<char>| #[trigger] bindings_map(nv).dom().contains(x) == bindings_map(ov).insert(kv, tv).dom().contains(x) by {
                if bindings_map(ov).dom().contains(x) {
                    let q = choose|q: int| 0 <= q < ov.len() && ov[q].0 == x;
                    if q < p {
                        assert(nv[q].0 == x);
                    } else {
                        assert(nv[q + 1].0 == x);
                    }
                }
                if bindings_map(nv).dom().contains(x) {
                    let q = choose|q: int| 0 <= q < nv.len() && nv[q].0 == x;
                    if q < p {
                        assert(ov[q].0 == x);
                    } else if q > p {
                        assert(ov[q - 1].0 == x);
                    }
                }
                if x == kv {
                    assert(nv[p as int].0 == x);
                }
            }
            assert forall|x: Seq<char>| #[trigger] bindings_map(nv).dom().contains(x) implies bindings_map(nv)[x] == bindings_map(ov).insert(kv, tv)[x] by {
                let q = choose|q: int| 0 <= q < nv.len() && nv[q].0 == x;
                if q < p {
                    assert(ov[q] == nv[q]);
                } else if q > p {
                    assert(ov[q - 1] == nv[q]);
                }
            }
        }
    }
}

/// In a key-sorted list, the map holds each pair and nothing else.
pub proof fn lemma_sorted_map(ps: Seq<(Seq<char>, Seq<char>)>)
    requires
        keys_sorted(ps),
    ensures
        forall|q: int| 0 <= q < ps.len() ==> bindings_map(ps).dom().contains(#[trigger] ps[q].0)
            && bindings_map(ps)[ps[q].0] == ps[q].1,
        forall|x: Seq<char>|
            #[trigger] bindings_map(ps).dom().contains(x) ==> exists|q: int| 0 <= q < ps.len() && ps[q].0 == x,
    decreases ps.len(),
{
    if ps.len() > 0 {
        let d = ps.drop_last();
        assert(keys_sorted(d)) by {
            assert forall|i: int, j: int| 0 <= i < j < d.len() implies lex_lt(#[trigger] d[i].0, #[trigger] d[j].0) by {
                assert(d[i] == ps[i] && d[j] == ps[j]);
            }
        }
        lemma_sorted_map(d);
        assert forall|q: int| 0 <= q < ps.len() implies bindings_map(ps).dom().contains(#[trigger] ps[q].0)
            && bindings_map(ps)[ps[q].0] == ps[q].1 by {
            if q < ps.len() - 1 {
                assert(d[q] == ps[q]);
                lemma_sorted_keys_distinct(ps, q, ps.len() - 1);
            }
        }
        assert forall|x: Seq<char>| #[trigger] bindings_map(ps).dom().contains(x) implies exists|q: int|
            0 <= q < ps.len() && ps[q].0 == x by {
            if x != ps.last().0 {
                assert(bindings_map(d).dom().contains(x));
                let q = choose|q: int| 0 <= q < d.len() && d[q].0 == x;
                assert(ps[q] == d[q]);
            } else {
                assert(ps[ps.len() - 1].0 == x);
            }
        }
    }
}

/// The bindings of an object ordered by key, each key once with its last tag.
pub fn sorted_bindings(pairs: &Vec<(String, String)>) -> (r: Vec<(String, String)>)
    ensures
        keys_sorted(pair_views(r@)),
        bindings_map(pair_views(r@)) == bindings_map(pair_views(pairs@)),
{
    let mut r: Vec<(String, String)> = Vec::new();
    let mut i: usize = 0;
    assert(pair_views(r@) =~= Seq::<(Seq<char>, Seq<char>)>::empty());
    assert(pair_views(pairs@).take(0) =~= Seq::<(Seq<char>, Seq<char>)>::empty());
    while i < pairs.len()
        invariant
            i <= pairs@.len(),
            keys_sorted(pair_views(r@)),
            bindings_map(pair_views(r@)) == bindings_map(pair_views(pairs@).take(i as int)),
        decreases pairs@.len() - i,
    {
        let ghost next = pair_views(pairs@).take(i + 1);
        assert(next.drop_last() =~= pair_views(pairs@).take(i as int));
        assert(next.last() == (pairs@[i as int].0@, pairs@[i as int].1@));
        put_sorted(&mut r, pairs[i].0.clone(), pairs[i].1.clone());
        i = i + 1;
    }
    assert(pair_views(pairs@).take(pairs@.len() as int) =~= pair_views(pairs@));
    r
}

/// The tags of the first `j` pairs of `b`.
pub open spec fn first_tags(b: Seq<(String, String)>, j: int) -> Set<Seq<char>> {
    Set::new(|t: Seq<char>| exists|q: int| 0 <= q < j && (#[trigger] b[q]).1@ == t)
}

proof fn lemma_first_tags_step(b: Seq<(String, String)>, j: int)
    requires
        0 <= j < b.len(),
    ensures
        first_tags(b, j + 1) == first_tags(b, j).insert(b[j].1@),
{
    assert forall|t: Seq<char>| #[trigger] first_tags(b, j + 1).contains(t) <==> first_tags(b, j).insert(b[j].1@).contains(t) by {
        if first_tags(b, j + 1).contains(t) {
            let q = choose|q: int| 0 <= q < j + 1 && (#[trigger] b[q]).1@ == t;
            if q < j {
                assert(first_tags(b, j).contains(t));
            }
        }
        if first_tags(b, j).contains(t) {
            let q = choose|q: int| 0 <= q < j && (#[trigger] b[q]).1@ == t;
            assert(0 <= q < j + 1 && b[q].1@ == t);
        }
        if t == b[j].1@ {
            assert(0 <= j < j + 1 && b[j].1@ == t);
        }
    }
    assert(first_tags(b, j + 1) =~= first_tags(b, j).insert(b[j].1@));
}

/// Every tag that a binding of some object of `objects` shows.
pub open spec fn screen_tags(objects: Seq<ScreenObjectDefinition>) -> Set<Seq<char>> {
    Set::new(
        |t: Seq<char>|
            exists|i: int, k: Seq<char>|
                0 <= i < objects.len() && #[trigger] bindings_map(pair_views(objects[i].tag_bindings@)).dom().contains(k)
                    && bindings_map(pair_views(objects[i].tag_bindings@))[k] == t,
    )
}

/// The tags a screen shows, each once, in order.
pub fn resolve_tag_ids_from_screen(definition: &ScreenDefinition) -> (r: Vec<String>)
    ensures
        strictly_sorted(string_views(r@)),
        string_views(r@).to_set() == screen_tags(definition.objects@),
{
    let mut r: Vec<String> = Vec::new();
    let objects = &definition.objects;
    let mut i: usize = 0;
    assert(string_views(r@).to_set() =~= screen_tags(objects@.take(0)));
    while i < objects.len()
        invariant
            i <= objects@.len(),
            objects@ == definition.objects@,
            strictly_sorted(string_views(r@)),
            string_views(r@).to_set() == screen_tags(objects@.take(i as int)),
        decreases objects@.len() - i,
    {
        let b = sorted_bindings(&objects[i].tag_bindings);
        let ghost before = string_views(r@).to_set();
        let ghost m = bindings_map(pair_views(b@));
        proof {
            lemma_sorted_map(pair_views(b@));
        }
        let mut j: usize = 0;
        assert(first_tags(b@, 0) =~= Set::<Seq<char>>::empty());
        while j < b.len()
            invariant
                j <= b@.len(),
                strictly_sorted(string_views(r@)),
                m == bindings_map(pair_views(b@)),
                keys_sorted(pair_views(b@)),
                string_views(r@).to_set() == before.union(first_tags(b@, j as int)),
            decreases b@.len() - j,
        {
            insert_sorted(&mut r, b[j].1.clone());
            proof {
                lemma_first_tags_step(b@, j as int);
            }
            assert(string_views(r@).to_set() =~= before.union(first_tags(b@, j + 1)));
            j = j + 1;
        }
        proof {
            let next = objects@.take(i + 1);
            let obj_map = bindings_map(pair_views(objects@[i as int].tag_bindings@));
            assert(m == obj_map);
            assert(string_views(r@).to_set() =~= screen_tags(next)) by {
                assert forall|t: Seq<char>| string_views(r@).to_set().contains(t) <==> screen_tags(next).contains(t) by {
                    let pv = pair_views(b@);
                    if first_tags(b@, b@.len() as int).contains(t) {
                        let q = choose|q: int| 0 <= q < b@.len() && (#[trigger] b@[q]).1@ == t;
                        assert(pv[q].0 == b@[q].0@);
                        assert(obj_map.dom().contains(pv[q].0) && obj_map[pv[q].0] == t);
                        assert(next[i as int] == objects@[i as int]);
                        assert(bindings_map(pair_views(next[i as int].tag_bindings@)).dom().contains(pv[q].0));
                    }
                    if before.contains(t) {
                        let (oi, k) = choose|oi: int, k: Seq<char>|
                            0 <= oi < i && #[trigger] bindings_map(pair_views(objects@.take(i as int)[oi].tag_bindings@)).dom().contains(k)
                                && bindings_map(pair_views(objects@.take(i as int)[oi].tag_bindings@))[k] == t;
                        assert(next[oi] == objects@.take(i as int)[oi]);
                        assert(bindings_map(pair_views(next[oi].tag_bindings@)).dom().contains(k));
                    }
                    if screen_tags(next).contains(t) {
                        let (oi, k) = choose|oi: int, k: Seq<char>|
                            0 <= oi < next.len() && #[trigger] bindings_map(pair_views(next[oi].tag_bindings@)).dom().contains(k)
                                && bindings_map(pair_views(next[oi].tag_bindings@))[k] == t;
                        if oi < i {
                            assert(next[oi] == objects@.take(i as int)[oi]);
                            assert(bindings_map(pair_views(objects@.take(i as int)[oi].tag_bindings@)).dom().contains(k));
                        } else {
                            assert(next[oi] == objects@[i as int]);
                            let q = choose|q: int| 0 <= q < pv.len() && pv[q].0 == k;
                            assert(b@[q].1@ == pv[q].1);
                            assert(first_tags(b@, b@.len() as int).contains(t));
                        }
                    }
                }
            }
        }
        i = i + 1;
    }
    assert(objects@.take(objects@.len() as int) =~= objects@);
    r
}

/// The last value of `tag` among `values`, as a map collected from them holds it.
pub open spec fn lookup(values: Seq<RuntimeTagValue>, tag: Seq<char>) -> Option<RuntimeTagValue>
    decreases values.len(),
{
    if values.len() == 0 {
        None
    } else if values.last().tag_id@ == tag {
        Some(values.last())
    } else {
        lookup(values.drop_last(), tag)
    }
}

/// The keys and tags of a list of binding states.
pub open spec fn state_pairs(bs: Seq<ObjectBindingState>) -> Seq<(Seq<char>, Seq<char>)> {
    bs.map_values(|b: ObjectBindingState| (b.key@, b.tag_id@))
}

/// `b` shows what `found` holds: its value, quality and sequence, or nothing.
pub open spec fn shows(b: ObjectBindingState, found: Option<RuntimeTagValue>) -> bool {
    match found {
        None => b.value is None && b.quality is None && b.sequence is None,
        Some(v) => b.value == Some(v.value) && b.quality == Some(v.quality) && b.sequence == Some(v.sequence),
    }
}

/// `state` is `obj` projected on `values`: its bindings ordered by key, each showing the
/// last value of its tag.
pub open spec fn object_projected(state: ScreenObjectState, obj: ScreenObjectDefinition, values: Seq<RuntimeTagValue>) -> bool {
    &&& state.object_id == obj.object_id
    &&& state.svg_asset_id == obj.svg_asset_id
    &&& keys_sorted(state_pairs(state.bindings@))
    &&& bindings_map(state_pairs(state.bindings@)) == bindings_map(pair_views(obj.tag_bindings@))
    &&& forall|i: int|
        0 <= i < state.bindings@.len() ==> shows(#[trigger] state.bindings@[i], lookup(values, state.bindings@[i].tag_id@))
}

fn find_value<'a>(values: &'a Vec<RuntimeTagValue>, tag: &str) -> (r: Option<&'a RuntimeTagValue>)
    ensures
        match r {
            Some(v) => lookup(values@, tag@) == Some(*v),
            None => lookup(values@, tag@) is None,
        },
{
    let mut i: usize = values.len();
    assert(values@.take(i as int) =~= values@);
    while i > 0
        invariant
            i <= values@.len(),
            lookup(values@, tag@) == lookup(values@.take(i as int), tag@),
        decreases i,
    {
        let ghost t = values@.take(i as int);
        assert(t.last() == values@[i - 1]);
        assert(t.drop_last() =~= values@.take(i - 1));
        if str_eq(values[i - 1].tag_id.as_str(), tag) {
            return Some(&values[i - 1]);
        }
        i = i - 1;
    }
    None
}

fn project_object(obj: &ScreenObjectDefinition, values: &Vec<RuntimeTagValue>) -> (state: ScreenObjectState)
    ensures
        object_projected(state, *obj, values@),
{
    let sorted = sorted_bindings(&obj.tag_bindings);
    let mut bindings: Vec<ObjectBindingState> = Vec::new();
    let mut i: usize = 0;
    while i < sorted.len()
        invariant
            i <= sorted@.len(),
            bindings@.len() == i,
            state_pairs(bindings@) == pair_views(sorted@).take(i as int),
            forall|j: int| 0 <= j < i ==> shows(#[trigger] bindings@[j], lookup(values@, bindings@[j].tag_id@)),
        decreases sorted@.len() - i,
    {
        let key = sorted[i].0.clone();
        let tag_id = sorted[i].1.clone();
        let b = match find_value(values, tag_id.as_str()) {
            Some(v) => ObjectBindingState {
                key,
                tag_id,
                value: Some(v.value.clone()),
                quality: Some(v.quality.clone()),
                sequence: Some(v.sequence),
            },
            None => ObjectBindingState { key, tag_id, value: None, quality: None, sequence: None },
        };
        let ghost before = bindings@;
        bindings.push(b);
        assert(state_pairs(bindings@) =~= pair_views(sorted@).take(i + 1));
        assert forall|j: int| 0 <= j < i + 1 implies shows(#[trigger] bindings@[j], lookup(values@, bindings@[j].tag_id@)) by {
            if j < i {
                assert(bindings@[j] == before[j]);
            }
        }
        i = i + 1;
    }
    assert(pair_views(sorted@).take(sorted@.len() as int) =~= pair_views(sorted@));
    ScreenObjectState { object_id: obj.object_id.clone(), svg_asset_id: obj.svg_asset_id.clone(), bindings }
}

/// Projects a snapshot on a screen: every object with its bindings ordered by key, each
/// binding showing the last value of its tag in the snapshot, or nothing.
pub fn project_snapshot_to_screen(definition: &ScreenDefinition, snapshot: &TagSnapshot) -> (p: ScreenProjection)
    ensures
        p.screen_id == definition.screen_id,
        p.project_id == definition.project_id,
        p.object_states@.len() == definition.objects@.len(),
        forall|i: int|
            0 <= i < p.object_states@.len() ==> object_projected(
                #[trigger] p.object_states@[i],
                definition.objects@[i],
                snapshot.values@,
            ),
{
    let mut states: Vec<ScreenObjectState> = Vec::new();
    let mut i: usize = 0;
    while i < definition.objects.len()
        invariant
            i <= definition.objects@.len(),
            states@.len() == i,
            forall|j: int|
                0 <= j < i ==> object_projected(#[trigger] states@[j], definition.objects@[j], snapshot.values@),
        decreases definition.objects@.len() - i,
    {
        let s = project_object(&definition.objects[i], &snapshot.values);
        states.push(s);
        i = i + 1;
    }
    ScreenProjection {
        screen_id: definition.screen_id.clone(),
        project_id: definition.project_id.clone(),
        object_states: states,
    }
}

/// A delta reaches binding `b`: same tag, and no sequence on `b` at or above the delta's.
pub open spec fn delta_applies(b: ObjectBindingState, d: RuntimeTagValue) -> bool {
    &&& b.tag_id@ == d.tag_id@
    &&& !(b.sequence matches Some(s) && d.sequence <= s)
}

/// Binding `b` after delta `d`.
pub open spec fn after_delta(b: ObjectBindingState, d: RuntimeTagValue) -> ObjectBindingState {
    if delta_applies(b, d) {
        ObjectBindingState {
            key: b.key,
            tag_id: b.tag_id,
            value: Some(d.value),
            quality: Some(d.quality),
            sequence: Some(d.sequence),
        }
    } else {
        b
    }
}

/// How many of `bs` carry the delta's tag, and how many of those it reaches.
pub open spec fn binding_counts(bs: Seq<ObjectBindingState>, d: RuntimeTagValue) -> (nat, nat)
    decreases bs.len(),
{
    if bs.len() == 0 {
        (0, 0)
    } else {
        let (m, a) = binding_counts(bs.drop_last(), d);
        let b = bs.last();
        (
            m + if b.tag_id@ == d.tag_id@ {
                1nat
            } else {
                0nat
            },
            a + if delta_applies(b, d) {
                1nat
            } else {
                0nat
            },
        )
    }
}

/// Matched and reached bindings over all objects, and the ids of the objects reached.
pub open spec fn delta_totals(states: Seq<ScreenObjectState>, d: RuntimeTagValue) -> (nat, nat, Seq<Seq<char>>)
    decreases states.len(),
{
    if states.len() == 0 {
        (0, 0, seq![])
    } else {
        let (m, a, ids) = delta_totals(states.drop_last(), d);
        let o = states.last();
        let (om, oa) = binding_counts(o.bindings@, d);
        (m + om, a + oa, if oa > 0 {
            ids.push(o.object_id@)
        } else {
            ids
        })
    }
}

/// The number of bindings of all objects.
pub open spec fn total_bindings(states: Seq<ScreenObjectState>) -> nat
    decreases states.len(),
{
    if states.len() == 0 {
        0
    } else {
        total_bindings(states.drop_last()) + states.last().bindings@.len()
    }
}

proof fn lemma_counts_bounded(bs: Seq<ObjectBindingState>, d: RuntimeTagValue)
    ensures
        binding_counts(bs, d).1 <= binding_counts(bs, d).0 <= bs.len(),
    decreases bs.len(),
{
    if bs.len() > 0 {
        lemma_counts_bounded(bs.drop_last(), d);
    }
}

proof fn lemma_totals_bounded(states: Seq<ScreenObjectState>, d: RuntimeTagValue)
    ensures
        delta_totals(states, d).1 <= delta_totals(states, d).0 <= total_bindings(states),
    decreases states.len(),
{
    if states.len() > 0 {
        lemma_totals_bounded(states.drop_last(), d);
        lemma_counts_bounded(states.last().bindings@, d);
    }
}

fn binding_after(b: &ObjectBindingState, d: &RuntimeTagValue) -> (r: (ObjectBindingState, bool, bool))
    ensures
        r.0 == after_delta(*b, *d),
        r.1 == (b.tag_id@ == d.tag_id@),
        r.2 == delta_applies(*b, *d),
{
    let same = str_eq(b.tag_id.as_str(), d.tag_id.as_str());
    let stale = match b.sequence {
        Some(s) => d.sequence <= s,
        None => false,
    };
    if same && !stale {
        (
            ObjectBindingState {
                key: b.key.clone(),
                tag_id: b.tag_id.clone(),
                value: Some(d.value.clone()),
                quality: Some(d.quality.clone()),
                sequence: Some(d.sequence),
            },
            true,
            true,
        )
    } else {
        let copy = ObjectBindingState {
            key: b.key.clone(),
            tag_id: b.tag_id.clone(),
            value: match &b.value {
                Some(v) => Some(v.clone()),
                None => None,
            },
            quality: match &b.quality {
                Some(q) => Some(q.clone()),
                None => None,
            },
            sequence: b.sequence,
        };
        (copy, same, false)
    }
}

/// Applies a live tag value to a projection: every binding of its tag takes the value,
/// quality and sequence, except one that already shows that sequence or a later one.
pub fn apply_delta_to_projection(projection: &mut ScreenProjection, delta: &RuntimeTagValue) -> (r: DeltaApplyResult)
    requires
        total_bindings(old(projection).object_states@) <= usize::MAX,
    ensures
        final(projection).screen_id == old(projection).screen_id,
        final(projection).project_id == old(projection).project_id,
        final(projection).object_states@.len() == old(projection).object_states@.len(),
        forall|i: int|
            0 <= i < old(projection).object_states@.len() ==> {
                &&& (#[trigger] final(projection).object_states@[i]).object_id == old(projection).object_states@[i].object_id
                &&& final(projection).object_states@[i].svg_asset_id == old(projection).object_states@[i].svg_asset_id
                &&& final(projection).object_states@[i].bindings@ == old(projection).object_states@[i].bindings@.map_values(
                    |b: ObjectBindingState| after_delta(b, *delta),
                )
            },
        r.tag_id@ == delta.tag_id@,
        r.matched_bindings == delta_totals(old(projection).object_states@, *delta).0,
        r.applied_bindings == delta_totals(old(projection).object_states@, *delta).1,
        r.ignored_stale_bindings == delta_totals(old(projection).object_states@, *delta).0 - delta_totals(
            old(projection).object_states@,
            *delta,
        ).1,
        string_views(r.affected_object_ids@) == delta_totals(old(projection).object_states@, *delta).2,
{
    let ghost old_states = projection.object_states@;
    proof {
        lemma_totals_bounded(old_states, *delta);
    }
    let mut states: Vec<ScreenObjectState> = Vec::new();
    std::mem::swap(&mut states, &mut projection.object_states);
    let mut out: Vec<ScreenObjectState> = Vec::new();
    let mut matched: usize = 0;
    let mut applied: usize = 0;
    let mut affected: Vec<String> = Vec::new();
    let mut i: usize = 0;
    while i < states.len()
        invariant
            states@ == old_states,
            i <= states@.len(),
            out@.len() == i,
            total_bindings(old_states) <= usize::MAX,
            forall|j: int|
                0 <= j < i ==> {
                    &&& (#[trigger] out@[j]).object_id == old_states[j].object_id
                    &&& out@[j].svg_asset_id == old_states[j].svg_asset_id
                    &&& out@[j].bindings@ == old_states[j].bindings@.map_values(
                        |b: ObjectBindingState| after_delta(b, *delta),
                    )
                },
            (matched as nat, applied as nat, string_views(affected@)) == delta_totals(old_states.take(i as int), *delta),
        decreases states@.len() - i,
    {
        let ghost pre = old_states.take(i as int);
        let ghost next = old_states.take(i + 1);
        assert(next.drop_last() =~= pre);
        assert(next.last() == old_states[i as int]);
        proof {
            lemma_totals_bounded(next, *delta);
            lemma_total_prefix(old_states, i + 1);
        }
        let o = &states[i];
        let mut bindings: Vec<ObjectBindingState> = Vec::new();
        let mut om: usize = 0;
        let mut oa: usize = 0;
        let mut j: usize = 0;
        while j < o.bindings.len()
            invariant
                j <= o.bindings@.len(),
                bindings@ == o.bindings@.take(j as int).map_values(|b: ObjectBindingState| after_delta(b, *delta)),
                (om as nat, oa as nat) == binding_counts(o.bindings@.take(j as int), *delta),
                om <= j,
            decreases o.bindings@.len() - j,
        {
            let ghost bt = o.bindings@.take(j + 1);
            assert(bt.drop_last() =~= o.bindings@.take(j as int));
            assert(bt.last() == o.bindings@[j as int]);
            proof {
                lemma_counts_bounded(o.bindings@.take(j as int), *delta);
            }
            let (nb, same, hit) = binding_after(&o.bindings[j], delta);
            bindings.push(nb);
            if same {
                om = om + 1;
            }
            if hit {
                oa = oa + 1;
            }
            assert(bindings@ =~= bt.map_values(|b: ObjectBindingState| after_delta(b, *delta)));
            j = j + 1;
        }
        assert(o.bindings@.take(o.bindings@.len() as int) =~= o.bindings@);
        proof {
            lemma_counts_bounded(o.bindings@, *delta);
        }
        matched = matched + om;
        applied = applied + oa;
        if oa > 0 {
            affected.push(o.object_id.clone());
        }
        assert(string_views(affected@) =~= delta_totals(next, *delta).2);
        out.push(ScreenObjectState { object_id: o.object_id.clone(), svg_asset_id: o.svg_asset_id.clone(), bindings });
        i = i + 1;
    }
    assert(old_states.take(old_states.len() as int) =~= old_states);
    projection.object_states = out;
    DeltaApplyResult {
        tag_id: delta.tag_id.clone(),
        matched_bindings: matched,
        applied_bindings: applied,
        ignored_stale_bindings: matched - applied,
        affected_object_ids: affected,
    }
}

proof fn lemma_total_prefix(states: Seq<ScreenObjectState>, n: int)
    requires
        0 <= n <= states.len(),
    ensures
        total_bindings(states.take(n)) <= total_bindings(states),
    decreases states.len() - n,
{
    if n < states.len() {
        lemma_total_prefix(states, n + 1);
        let t = states.take(n + 1);
        assert(t.drop_last() =~= states.take(n));
    } else {
        assert(states.take(n) =~= states);
    }
}

/// Applying the same delta again changes nothing: a binding it reached now shows its
/// sequence, so the delta is stale for it.
pub proof fn delta_is_idempotent(b: ObjectBindingState, d: RuntimeTagValue)
    ensures
        after_delta(after_delta(b, d), d) == after_delta(b, d),
{
}

/// A delta never lowers the sequence a binding shows, and never touches a binding of
/// another tag.
pub proof fn delta_never_goes_back(b: ObjectBindingState, d: RuntimeTagValue)
    ensures
        b.sequence matches Some(s) ==> after_delta(b, d).sequence matches Some(t) && t >= s,
        b.tag_id@ != d.tag_id@ ==> after_delta(b, d) == b,
{
}

/// The bindings of all objects, object by object.
pub open spec fn all_bindings(states: Seq<ScreenObjectState>) -> Seq<ObjectBindingState>
    decreases states.len(),
{
    if states.len() == 0 {
        seq![]
    } else {
        all_bindings(states.drop_last()) + states.last().bindings@
    }
}

proof fn lemma_binding_counts_filter(bs: Seq<ObjectBindingState>, d: RuntimeTagValue)
    ensures
        binding_counts(bs, d).0 == bs.filter(|b: ObjectBindingState| b.tag_id@ == d.tag_id@).len(),
        binding_counts(bs, d).1 == bs.filter(|b: ObjectBindingState| delta_applies(b, d)).len(),
    decreases bs.len(),
{
    reveal(Seq::filter);
    if bs.len() > 0 {
        lemma_binding_counts_filter(bs.drop_last(), d);
    }
}

/// A delta matches the bindings of all objects that carry its tag and reaches those of them
/// that show no sequence at or above its own; the rest of the matched ones it leaves as
/// stale.
pub proof fn delta_counts_its_bindings(states: Seq<ScreenObjectState>, d: RuntimeTagValue)
    ensures
        delta_totals(states, d).0 == all_bindings(states).filter(|b: ObjectBindingState| b.tag_id@ == d.tag_id@).len(),
        delta_totals(states, d).1 == all_bindings(states).filter(|b: ObjectBindingState| delta_applies(b, d)).len(),
        delta_totals(states, d).1 <= delta_totals(states, d).0,
    decreases states.len(),
{
    let m = |b: ObjectBindingState| b.tag_id@ == d.tag_id@;
    let a = |b: ObjectBindingState| delta_applies(b, d);
    if states.len() == 0 {
        reveal(Seq::filter);
        assert(all_bindings(states).filter(m) =~= Seq::<ObjectBindingState>::empty());
        assert(all_bindings(states).filter(a) =~= Seq::<ObjectBindingState>::empty());
    } else {
        let rest = states.drop_last();
        let bs = states.last().bindings@;
        delta_counts_its_bindings(rest, d);
        lemma_binding_counts_filter(bs, d);
        lemma_counts_bounded(bs, d);
        Seq::filter_distributes_over_add(all_bindings(rest), bs, m);
        Seq::filter_distributes_over_add(all_bindings(rest), bs, a);
    }
}

/// The delta `d` changes binding `b`: it carries the delta's tag and shows no sequence, or
/// an older one.
pub open spec fn changed_by(b: ObjectBindingState, d: RuntimeTagValue) -> bool {
    b.tag_id@ == d.tag_id@ && (b.sequence is None || b.sequence->0 < d.sequence)
}

proof fn lemma_applied_count_positive(bs: Seq<ObjectBindingState>, d: RuntimeTagValue)
    ensures
        binding_counts(bs, d).1 > 0 <==> exists|j: int| 0 <= j < bs.len() && changed_by(#[trigger] bs[j], d),
    decreases bs.len(),
{
    if bs.len() > 0 {
        let r = bs.drop_last();
        lemma_applied_count_positive(r, d);
        if exists|j: int| 0 <= j < r.len() && changed_by(#[trigger] r[j], d) {
            let j = choose|j: int| 0 <= j < r.len() && changed_by(#[trigger] r[j], d);
            assert(bs[j] == r[j]);
        }
        if exists|j: int| 0 <= j < bs.len() && changed_by(#[trigger] bs[j], d) {
            let j = choose|j: int| 0 <= j < bs.len() && changed_by(#[trigger] bs[j], d);
            if j < r.len() {
                assert(r[j] == bs[j]);
            }
        }
    }
}

/// The objects a delta reports as affected are those it changed: each listed id belongs to
/// an object with a binding the delta changed, and every object with such a binding is
/// listed. An object with only stale or unrelated bindings is not listed on its own account.
pub proof fn affected_objects_are_the_changed_ones(states: Seq<ScreenObjectState>, d: RuntimeTagValue)
    ensures
        forall|k: int|
            0 <= k < delta_totals(states, d).2.len() ==> exists|i: int, j: int|
                0 <= i < states.len() && 0 <= j < states[i].bindings@.len() && states[i].object_id@
                    == #[trigger] delta_totals(states, d).2[k] && changed_by(states[i].bindings@[j], d),
        forall|i: int, j: int|
            0 <= i < states.len() && 0 <= j < states[i].bindings@.len() && changed_by(#[trigger] states[i].bindings@[j], d)
                ==> delta_totals(states, d).2.contains(states[i].object_id@),
    decreases states.len(),
{
    if states.len() > 0 {
        let rest = states.drop_last();
        let o = states.last();
        let n = states.len() - 1;
        affected_objects_are_the_changed_ones(rest, d);
        lemma_applied_count_positive(o.bindings@, d);
        let ids0 = delta_totals(rest, d).2;
        let ids = delta_totals(states, d).2;
        assert forall|k: int| 0 <= k < ids.len() implies exists|i: int, j: int|
            0 <= i < states.len() && 0 <= j < states[i].bindings@.len() && states[i].object_id@ == #[trigger] ids[k]
                && changed_by(states[i].bindings@[j], d) by {
            if k < ids0.len() {
                assert(ids[k] == ids0[k]);
                let (i, j) = choose|i: int, j: int|
                    0 <= i < rest.len() && 0 <= j < rest[i].bindings@.len() && rest[i].object_id@ == #[trigger] ids0[k]
                        && changed_by(rest[i].bindings@[j], d);
                assert(states[i] == rest[i]);
            } else {
                let j = choose|j: int| 0 <= j < o.bindings@.len() && changed_by(#[trigger] o.bindings@[j], d);
                assert(states[n] == o);
            }
        }
        assert forall|i: int, j: int|
            0 <= i < states.len() && 0 <= j < states[i].bindings@.len() && changed_by(#[trigger] states[i].bindings@[j], d)
            implies ids.contains(states[i].object_id@) by {
            if i < n {
                assert(states[i] == rest[i]);
                assert(ids0.contains(rest[i].object_id@));
                let k = choose|k: int| 0 <= k < ids0.len() && ids0[k] == rest[i].object_id@;
                assert(ids[k] == ids0[k]);
            } else {
                assert(states[i] == o);
                assert(ids[ids.len() - 1] == o.object_id@);
            }
        }
    }
}

/// The items with `sep` between each two.
pub open spec fn join_with(items: Seq<Seq<char>>, sep: Seq<char>) -> Seq<char>
    decreases items.len(),
{
    if items.len() == 0 {
        seq![]
    } else if items.len() == 1 {
        items[0]
    } else {
        join_with(items.drop_last(), sep) + sep + items.last()
    }
}

/// Joining after a first item puts it and the separator in front.
pub proof fn lemma_join_prepend(x: Seq<char>, rest: Seq<Seq<char>>, sep: Seq<char>)
    requires
        rest.len() >= 1,
    ensures
        join_with(seq![x] + rest, sep) == x + sep + join_with(rest, sep),
    decreases rest.len(),
{
    let xs = seq![x] + rest;
    if rest.len() == 1 {
        assert(xs.drop_last() =~= seq![x]);
        assert(join_with(seq![x], sep) == x);
        assert(xs.last() == rest[0]);
    } else {
        assert(xs.drop_last() =~= seq![x] + rest.drop_last());
        assert(xs.last() == rest.last());
        lemma_join_prepend(x, rest.drop_last(), sep);
        assert(x + sep + join_with(rest.drop_last(), sep) + sep + rest.last() =~= x + sep + (join_with(
            rest.drop_last(),
            sep,
        ) + sep + rest.last()));
    }
}

/// Joins strings with a separator, as `[String]::join` does.
pub fn join_strings(items: &Vec<String>, sep: &str) -> (r: String)
    ensures
        r@ == join_with(string_views(items@), sep@),
{
    let mut out: Vec<char> = Vec::new();
    let mut i: usize = 0;
    while i < items.len()
        invariant
            i <= items@.len(),
            out@ == join_with(string_views(items@).take(i as int), sep@),
        decreases items@.len() - i,
    {
        let ghost pre = string_views(items@).take(i as int);
        let ghost next = string_views(items@).take(i + 1);
        assert(next.drop_last() =~= pre);
        assert(next.last() == items@[i as int]@);
        if i > 0 {
            push_text(&mut out, sep);
        }
        push_text(&mut out, items[i].as_str());
        proof {
            if i == 0 {
                assert(out@ =~= next[0]);
            }
        }
        i = i + 1;
    }
    assert(string_views(items@).take(items@.len() as int) =~= string_views(items@));
    string_of(out.as_slice())
}

fn concat(parts: &[&str]) -> (r: String)
    ensures
        r@ == parts@.fold_left(Seq::<char>::empty(), |acc: Seq<char>, p: &str| acc + p@),
{
    let mut out: Vec<char> = Vec::new();
    let mut i: usize = 0;
    while i < parts.len()
        invariant
            i <= parts@.len(),
            out@ == parts@.take(i as int).fold_left(Seq::<char>::empty(), |acc: Seq<char>, p: &str| acc + p@),
        decreases parts@.len() - i,
    {
        let ghost next = parts@.take(i + 1);
        assert(next.drop_last() =~= parts@.take(i as int));
        push_text(&mut out, parts[i]);
        i = i + 1;
    }
    assert(parts@.take(parts@.len() as int) =~= parts@);
    string_of(out.as_slice())
}

/// The line of one snapshot value: tag, data type, quality and value.
pub open spec fn value_line(v: RuntimeTagValue) -> Seq<char> {
    v.tag_id@ + " "@ + v.data_type@ + " "@ + v.quality@ + " "@ + v.value@
}

/// The lines of a snapshot summary: the counts, one line per value, and the missing tags
/// where there are any.
pub open spec fn snapshot_summary_lines(s: TagSnapshot) -> Seq<Seq<char>> {
    let head = seq!["snapshot values="@ + decimal(s.values@.len()) + " missing="@ + decimal(s.missing_tag_ids@.len())];
    let body = s.values@.map_values(|v: RuntimeTagValue| value_line(v));
    let tail = if s.missing_tag_ids@.len() > 0 {
        seq!["missing "@ + join_with(string_views(s.missing_tag_ids@), ","@)]
    } else {
        seq![]
    };
    head + body + tail
}

fn push_number(out: &mut Vec<char>, n: usize)
    ensures
        final(out)@ == old(out)@ + decimal(n as nat),
{
    let t = u64_text(n as u64);
    push_all(out, t.as_slice());
}

/// The summary of a snapshot, one line each.
pub fn format_snapshot_summary(snapshot: &TagSnapshot) -> (r: String)
    ensures
        r@ == join_with(snapshot_summary_lines(*snapshot), "\n"@),
{
    let mut lines: Vec<String> = Vec::new();
    let mut head: Vec<char> = Vec::new();
    push_text(&mut head, "snapshot values=");
    push_number(&mut head, snapshot.values.len());
    push_text(&mut head, " missing=");
    push_number(&mut head, snapshot.missing_tag_ids.len());
    lines.push(string_of(head.as_slice()));
    let mut i: usize = 0;
    while i < snapshot.values.len()
        invariant
            i <= snapshot.values@.len(),
            string_views(lines@) == seq![
                "snapshot values="@ + decimal(snapshot.values@.len()) + " missing="@ + decimal(snapshot.missing_tag_ids@.len())
            ] + snapshot.values@.take(i as int).map_values(|v: RuntimeTagValue| value_line(v)),
        decreases snapshot.values@.len() - i,
    {
        let v = &snapshot.values[i];
        let line = concat(&[v.tag_id.as_str(), " ", v.data_type.as_str(), " ", v.quality.as_str(), " ", v.value.as_str()]);
        let ghost before = string_views(lines@);
        lines.push(line);
        proof {
            reveal_with_fuel(Seq::fold_left, 8);
        }
        assert(line@ == value_line(*v));
        assert(string_views(lines@) =~= before.push(line@));
        assert(snapshot.values@.take(i + 1).map_values(|v: RuntimeTagValue| value_line(v)) =~= snapshot.values@.take(
            i as int,
        ).map_values(|v: RuntimeTagValue| value_line(v)).push(value_line(*v)));
        i = i + 1;
    }
    assert(snapshot.values@.take(snapshot.values@.len() as int) =~= snapshot.values@);
    if snapshot.missing_tag_ids.len() > 0 {
        let joined = join_strings(&snapshot.missing_tag_ids, ",");
        let mut m: Vec<char> = Vec::new();
        push_text(&mut m, "missing ");
        push_text(&mut m, joined.as_str());
        let ghost before = string_views(lines@);
        lines.push(string_of(m.as_slice()));
        assert(string_views(lines@) =~= before.push(m@));
    }
    assert(string_views(lines@) =~= snapshot_summary_lines(*snapshot));
    join_strings(&lines, "\n")
}

/// The line of a delta's outcome.
pub open spec fn delta_line(r: DeltaApplyResult) -> Seq<char> {
    "delta tag="@ + r.tag_id@ + " matched="@ + decimal(r.matched_bindings as nat) + " applied="@
        + decimal(r.applied_bindings as nat) + " stale="@ + decimal(r.ignored_stale_bindings as nat)
        + " affected="@ + join_with(string_views(r.affected_object_ids@), ","@)
}

/// The one-line account of a delta's outcome.
pub fn format_delta_apply_result(result: &DeltaApplyResult) -> (r: String)
    ensures
        r@ == delta_line(*result),
{
    let mut out: Vec<char> = Vec::new();
    push_text(&mut out, "delta tag=");
    push_text(&mut out, result.tag_id.as_str());
    push_text(&mut out, " matched=");
    push_number(&mut out, result.matched_bindings);
    push_text(&mut out, " applied=");
    push_number(&mut out, result.applied_bindings);
    push_text(&mut out, " stale=");
    push_number(&mut out, result.ignored_stale_bindings);
    push_text(&mut out, " affected=");
    let j = join_strings(&result.affected_object_ids, ",");
    push_text(&mut out, j.as_str());
    string_of(out.as_slice())
}

/// The line of one binding: its value as JSON or `null`, its quality or `Missing`, its
/// sequence or `-`.
pub open spec fn binding_line(b: ObjectBindingState) -> Seq<char> {
    "binding "@ + b.key@ + " tag="@ + b.tag_id@ + " value="@ + match b.value {
        Some(v) => v@,
        None => "null"@,
    } + " quality="@ + match b.quality {
        Some(q) => q@,
        None => "Missing"@,
    } + " seq="@ + match b.sequence {
        Some(n) => decimal(n as nat),
        None => "-"@,
    }
}

/// The lines of one object: its id and asset, then its bindings.
pub open spec fn object_lines(o: ScreenObjectState) -> Seq<Seq<char>> {
    seq!["object "@ + o.object_id@ + " asset="@ + o.svg_asset_id@] + o.bindings@.map_values(
        |b: ObjectBindingState| binding_line(b),
    )
}

/// The lines of all objects, in order.
pub open spec fn objects_lines(states: Seq<ScreenObjectState>) -> Seq<Seq<char>>
    decreases states.len(),
{
    if states.len() == 0 {
        seq![]
    } else {
        objects_lines(states.drop_last()) + object_lines(states.last())
    }
}

/// How many bindings show no value.
pub open spec fn missing_count(bs: Seq<ObjectBindingState>) -> nat
    decreases bs.len(),
{
    if bs.len() == 0 {
        0
    } else {
        missing_count(bs.drop_last()) + if bs.last().value is None {
            1nat
        } else {
            0nat
        }
    }
}

/// How many bindings of all objects show no value.
pub open spec fn total_missing(states: Seq<ScreenObjectState>) -> nat
    decreases states.len(),
{
    if states.len() == 0 {
        0
    } else {
        total_missing(states.drop_last()) + missing_count(states.last().bindings@)
    }
}

/// The first line of a projection summary.
pub open spec fn projection_head(p: ScreenProjection) -> Seq<char> {
    "projection screen="@ + p.screen_id@ + " objects="@ + decimal(p.object_states@.len()) + " bindings="@
        + decimal(total_bindings(p.object_states@)) + " missing="@ + decimal(total_missing(p.object_states@))
}

proof fn lemma_missing_bounded(bs: Seq<ObjectBindingState>)
    ensures
        missing_count(bs) <= bs.len(),
    decreases bs.len(),
{
    if bs.len() > 0 {
        lemma_missing_bounded(bs.drop_last());
    }
}

proof fn lemma_total_missing_bounded(states: Seq<ScreenObjectState>)
    ensures
        total_missing(states) <= total_bindings(states),
    decreases states.len(),
{
    if states.len() > 0 {
        lemma_total_missing_bounded(states.drop_last());
        lemma_missing_bounded(states.last().bindings@);
    }
}

fn binding_text(b: &ObjectBindingState) -> (r: String)
    ensures
        r@ == binding_line(*b),
{
    let mut out: Vec<char> = Vec::new();
    push_text(&mut out, "binding ");
    push_text(&mut out, b.key.as_str());
    push_text(&mut out, " tag=");
    push_text(&mut out, b.tag_id.as_str());
    push_text(&mut out, " value=");
    match &b.value {
        Some(v) => push_text(&mut out, v.as_str()),
        None => push_text(&mut out, "null"),
    }
    push_text(&mut out, " quality=");
    match &b.quality {
        Some(q) => push_text(&mut out, q.as_str()),
        None => push_text(&mut out, "Missing"),
    }
    push_text(&mut out, " seq=");
    match b.sequence {
        Some(n) => {
            let t = u64_text(n);
            push_all(&mut out, t.as_slice());
        },
        None => push_text(&mut out, "-"),
    }
    string_of(out.as_slice())
}

/// The summary of a projection: the counts, then each object with its bindings.
pub fn format_screen_projection_summary(projection: &ScreenProjection) -> (r: String)
    requires
        total_bindings(projection.object_states@) <= usize::MAX,
    ensures
        r@ == join_with(seq![projection_head(*projection)] + objects_lines(projection.object_states@), "\n"@),
{
    let states = &projection.object_states;
    let mut lines: Vec<String> = Vec::new();
    let mut total: usize = 0;
    let mut missing: usize = 0;
    let mut i: usize = 0;
    proof {
        lemma_total_missing_bounded(states@);
    }
    while i < states.len()
        invariant
            i <= states@.len(),
            total_bindings(states@) <= usize::MAX,
            total as nat == total_bindings(states@.take(i as int)),
            missing as nat == total_missing(states@.take(i as int)),
            string_views(lines@) == objects_lines(states@.take(i as int)),
        decreases states@.len() - i,
    {
        let ghost next = states@.take(i + 1);
        assert(next.drop_last() =~= states@.take(i as int));
        assert(next.last() == states@[i as int]);
        proof {
            lemma_total_prefix(states@, i + 1);
            lemma_total_missing_bounded(next);
        }
        let o = &states[i];
        let head = concat(&["object ", o.object_id.as_str(), " asset=", o.svg_asset_id.as_str()]);
        proof {
            reveal_with_fuel(Seq::fold_left, 5);
        }
        let ghost before = string_views(lines@);
        lines.push(head);
        let mut j: usize = 0;
        let mut om: usize = 0;
        while j < o.bindings.len()
            invariant
                j <= o.bindings@.len(),
                om as nat == missing_count(o.bindings@.take(j as int)),
                om <= j,
                string_views(lines@) == before + seq![head@] + o.bindings@.take(j as int).map_values(
                    |b: ObjectBindingState| binding_line(b),
                ),
            decreases o.bindings@.len() - j,
        {
            let ghost bt = o.bindings@.take(j + 1);
            assert(bt.drop_last() =~= o.bindings@.take(j as int));
            proof {
                lemma_missing_bounded(o.bindings@.take(j as int));
            }
            let line = binding_text(&o.bindings[j]);
            let ghost l0 = string_views(lines@);
            lines.push(line);
            if o.bindings[j].value.is_none() {
                om = om + 1;
            }
            assert(string_views(lines@) =~= l0.push(line@));
            assert(bt.map_values(|b: ObjectBindingState| binding_line(b)) =~= o.bindings@.take(j as int).map_values(
                |b: ObjectBindingState| binding_line(b),
            ).push(binding_line(o.bindings@[j as int])));
            j = j + 1;
        }
        assert(o.bindings@.take(o.bindings@.len() as int) =~= o.bindings@);
        proof {
            lemma_missing_bounded(o.bindings@);
        }
        total = total + o.bindings.len();
        missing = missing + om;
        assert(string_views(lines@) =~= objects_lines(next));
        i = i + 1;
    }
    assert(states@.take(states@.len() as int) =~= states@);
    let mut head: Vec<char> = Vec::new();
    push_text(&mut head, "projection screen=");
    push_text(&mut head, projection.screen_id.as_str());
    push_text(&mut head, " objects=");
    push_number(&mut head, states.len());
    push_text(&mut head, " bindings=");
    push_number(&mut head, total);
    push_text(&mut head, " missing=");
    push_number(&mut head, missing);
    let mut all: Vec<String> = Vec::new();
    all.push(string_of(head.as_slice()));
    let mut k: usize = 0;
    while k < lines.len()
        invariant
            k <= lines@.len(),
            string_views(all@) == seq![projection_head(*projection)] + string_views(lines@).take(k as int),
        decreases lines@.len() - k,
    {
        let ghost a0 = string_views(all@);
        let c = lines[k].clone();
        assert(c@ == string_views(lines@)[k as int]);
        all.push(c);
        assert(string_views(all@) =~= a0.push(c@));
        assert(string_views(lines@).take(k + 1) =~= string_views(lines@).take(k as int).push(c@));
        assert(string_views(all@) =~= seq![projection_head(*projection)] + string_views(lines@).take(k + 1));
        k = k + 1;
    }
    assert(string_views(lines@).take(lines@.len() as int) =~= string_views(lines@));
    join_strings(&all, "\n")
}

} // verus!
