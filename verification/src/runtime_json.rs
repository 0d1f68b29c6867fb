//! Reading and writing the preview runtime's JSON: tag values, snapshots, screen
//! definitions, control commands and projections.
use vstd::prelude::*;

use crate::json::{push_all, push_text};
use crate::json_doc::{
    array_elements, field_of, get_field, is_number, json_array_elements, json_is_null,
    json_is_number, json_object_fields, json_quoted, json_string_value, json_syntax_error,
    json_u64_value, object_fields, pair_views, quote, string_at, string_field_of, string_value,
    string_views, syntax_error, u64_at, u64_field_of,
};
use crate::screen::{
    ObjectBindingState, RuntimeTagValue, ScreenDefinition, ScreenObjectDefinition,
    ScreenObjectState, ScreenProjection, TagSnapshot,
};
use crate::tag_json::missing;
use crate::text::{decimal, owned, string_of, u64_text};

verus! {

/// `missing or invalid <key>` for the first string entry of `keys` that `fields` lacks.
pub open spec fn first_missing_string(fields: Seq<(Seq<char>, Seq<char>)>, keys: Seq<Seq<char>>) -> Option<Seq<char>>
    decreases keys.len(),
{
    if keys.len() == 0 {
        None
    } else if string_at(fields, keys[0]) is None {
        Some(missing(keys[0]))
    } else {
        first_missing_string(fields, keys.drop_first())
    }
}

/// Why the entries `fields` do not describe a runtime tag value, if they do not: the first
/// entry, in declaration order, that is missing or of the wrong kind.
pub open spec fn runtime_value_fault(fields: Seq<(Seq<char>, Seq<char>)>) -> Option<Seq<char>> {
    if string_at(fields, "tag_id"@) is None {
        Some(missing("tag_id"@))
    } else if field_of(fields, "value"@) is None {
        Some(missing("value"@))
    } else {
        match first_missing_string(
            fields,
            seq!["data_type"@, "quality"@, "source_timestamp"@, "server_timestamp"@],
        ) {
            Some(m) => Some(m),
            None => if u64_at(fields, "sequence"@) is None {
                Some(missing("sequence"@))
            } else if u64_at(fields, "scan_interval_ms"@) is None {
                Some(missing("scan_interval_ms"@))
            } else if u64_at(fields, "stale_after_ms"@) is None {
                Some(missing("stale_after_ms"@))
            } else {
                first_missing_string(fields, seq!["driver_id"@, "endpoint_id"@, "read_status"@, "write_status"@])
            },
        }
    }
}

/// `v` is the runtime tag value that `fields` describe; its value is the entry's JSON text.
pub open spec fn runtime_value_read(fields: Seq<(Seq<char>, Seq<char>)>, v: RuntimeTagValue) -> bool {
    &&& string_at(fields, "tag_id"@) == Some(v.tag_id@)
    &&& field_of(fields, "value"@) == Some(v.value@)
    &&& string_at(fields, "data_type"@) == Some(v.data_type@)
    &&& string_at(fields, "quality"@) == Some(v.quality@)
    &&& string_at(fields, "source_timestamp"@) == Some(v.source_timestamp@)
    &&& string_at(fields, "server_timestamp"@) == Some(v.server_timestamp@)
    &&& u64_at(fields, "sequence"@) == Some(v.sequence)
    &&& u64_at(fields, "scan_interval_ms"@) == Some(v.scan_interval_ms)
    &&& u64_at(fields, "stale_after_ms"@) == Some(v.stale_after_ms)
    &&& string_at(fields, "driver_id"@) == Some(v.driver_id@)
    &&& string_at(fields, "endpoint_id"@) == Some(v.endpoint_id@)
    &&& string_at(fields, "read_status"@) == Some(v.read_status@)
    &&& string_at(fields, "write_status"@) == Some(v.write_status@)
}

/// The message for a JSON value that is not an object.
pub open spec fn not_object() -> Seq<char> {
    "expected a JSON object"@
}

fn fault(key: &str) -> (r: String)
    ensures
        r@ == missing(key@),
{
    let mut out: Vec<char> = Vec::new();
    push_text(&mut out, "missing or invalid ");
    push_text(&mut out, key);
    string_of(out.as_slice())
}

fn text_entry(fields: &Vec<(String, String)>, key: &str) -> (r: Result<String, String>)
    ensures
        match r {
            Ok(s) => string_at(pair_views(fields@), key@) == Some(s@),
            Err(e) => string_at(pair_views(fields@), key@) is None && e@ == missing(key@),
        },
{
    match string_field_of(fields, key) {
        Some(s) => Ok(s),
        None => Err(fault(key)),
    }
}

fn number_entry(fields: &Vec<(String, String)>, key: &str) -> (r: Result<u64, String>)
    ensures
        match r {
            Ok(n) => u64_at(pair_views(fields@), key@) == Some(n),
            Err(e) => u64_at(pair_views(fields@), key@) is None && e@ == missing(key@),
        },
{
    match u64_field_of(fields, key) {
        Some(n) => Ok(n),
        None => Err(fault(key)),
    }
}

/// Reads a runtime tag value from the entries of a JSON object.
#[verifier::rlimit(80)]
pub fn runtime_value_from_fields(fields: &Vec<(String, String)>) -> (r: Result<RuntimeTagValue, String>)
    ensures
        match r {
            Ok(v) => runtime_value_fault(pair_views(fields@)) is None && runtime_value_read(pair_views(fields@), v),
            Err(e) => runtime_value_fault(pair_views(fields@)) == Some(e@),
        },
{
    proof {
        reveal_with_fuel(first_missing_string, 5);
    }
    let tag_id = match text_entry(fields, "tag_id") {
        Ok(x) => x,
        Err(e) => {
            return Err(e);
        },
    };
    let value = match get_field(fields, "value") {
        Some(x) => x,
        None => {
            return Err(fault("value"));
        },
    };
    let ghost fv = pair_views(fields@);
    let data_type = match text_entry(fields, "data_type") {
        Ok(x) => x,
        Err(e) => {
            return Err(e);
        },
    };
    let quality = match text_entry(fields, "quality") {
        Ok(x) => x,
        Err(e) => {
            return Err(e);
        },
    };
    let source_timestamp = match text_entry(fields, "source_timestamp") {
        Ok(x) => x,
        Err(e) => {
            return Err(e);
        },
    };
    let server_timestamp = match text_entry(fields, "server_timestamp") {
        Ok(x) => x,
        Err(e) => {
            return Err(e);
        },
    };
    assert(first_missing_string(fv, seq!["data_type"@, "quality"@, "source_timestamp"@, "server_timestamp"@]) is None);
    let sequence = match number_entry(fields, "sequence") {
        Ok(x) => x,
        Err(e) => {
            return Err(e);
        },
    };
    let scan_interval_ms = match number_entry(fields, "scan_interval_ms") {
        Ok(x) => x,
        Err(e) => {
            return Err(e);
        },
    };
    let stale_after_ms = match number_entry(fields, "stale_after_ms") {
        Ok(x) => x,
        Err(e) => {
            return Err(e);
        },
    };
    let driver_id = match text_entry(fields, "driver_id") {
        Ok(x) => x,
        Err(e) => {
            return Err(e);
        },
    };
    let endpoint_id = match text_entry(fields, "endpoint_id") {
        Ok(x) => x,
        Err(e) => {
            return Err(e);
        },
    };
    let read_status = match text_entry(fields, "read_status") {
        Ok(x) => x,
        Err(e) => {
            return Err(e);
        },
    };
    let write_status = match text_entry(fields, "write_status") {
        Ok(x) => x,
        Err(e) => {
            return Err(e);
        },
    };
    Ok(
        RuntimeTagValue {
            tag_id,
            value,
            data_type,
            quality,
            source_timestamp,
            server_timestamp,
            sequence,
            scan_interval_ms,
            stale_after_ms,
            driver_id,
            endpoint_id,
            read_status,
            write_status,
        },
    )
}

/// Why `text` is not a runtime tag value, if it is not: `serde_json`'s message for text
/// that is not JSON, the message for a value that is not an object, or the first bad entry.
pub open spec fn runtime_value_text_fault(text: Seq<char>) -> Option<Seq<char>> {
    match json_syntax_error(text) {
        Some(m) => Some(m),
        None => match json_object_fields(text) {
            None => Some(not_object()),
            Some(f) => runtime_value_fault(f),
        },
    }
}

/// `v` is the runtime tag value that `text` holds.
pub open spec fn runtime_value_text_read(text: Seq<char>, v: RuntimeTagValue) -> bool {
    &&& json_object_fields(text) is Some
    &&& runtime_value_read(json_object_fields(text)->0, v)
}

/// Reads a runtime tag value from JSON text.
pub fn runtime_value_from_json(text: &str) -> (r: Result<RuntimeTagValue, String>)
    ensures
        match r {
            Ok(v) => runtime_value_text_fault(text@) is None && runtime_value_text_read(text@, v),
            Err(e) => runtime_value_text_fault(text@) == Some(e@),
        },
{
    if let Some(m) = syntax_error(text) {
        return Err(m);
    }
    match object_fields(text) {
        None => Err(owned("expected a JSON object")),
        Some(fields) => runtime_value_from_fields(&fields),
    }
}

/// The fault of the first element of `els` that is not a runtime tag value.
pub open spec fn first_value_fault(els: Seq<Seq<char>>) -> Option<Seq<char>>
    decreases els.len(),
{
    if els.len() == 0 {
        None
    } else {
        match first_value_fault(els.drop_last()) {
            Some(m) => Some(m),
            None => match json_object_fields(els.last()) {
                None => Some(not_object()),
                Some(f) => runtime_value_fault(f),
            },
        }
    }
}

proof fn lemma_first_value_fault_prefix(els: Seq<Seq<char>>, n: int)
    requires
        0 <= n <= els.len(),
        first_value_fault(els.take(n)) is Some,
    ensures
        first_value_fault(els) == first_value_fault(els.take(n)),
    decreases els.len() - n,
{
    if n < els.len() {
        let m = els.take(n + 1);
        assert(m.drop_last() =~= els.take(n));
        lemma_first_value_fault_prefix(els, n + 1);
    } else {
        assert(els.take(n) =~= els);
    }
}

fn values_from_elements(els: &Vec<String>) -> (r: Result<Vec<RuntimeTagValue>, String>)
    ensures
        match r {
            Ok(vs) => first_value_fault(string_views(els@)) is None && vs@.len() == els@.len() && forall|i: int|
                0 <= i < els@.len() ==> runtime_value_text_read(#[trigger] string_views(els@)[i], vs@[i]),
            Err(e) => first_value_fault(string_views(els@)) == Some(e@),
        },
{
    let ghost ev = string_views(els@);
    let mut vs: Vec<RuntimeTagValue> = Vec::new();
    let mut i: usize = 0;
    while i < els.len()
        invariant
            i <= els@.len(),
            ev == string_views(els@),
            first_value_fault(ev.take(i as int)) is None,
            vs@.len() == i,
            forall|j: int| 0 <= j < i ==> runtime_value_text_read(#[trigger] ev[j], vs@[j]),
        decreases els@.len() - i,
    {
        let ghost next = ev.take(i + 1);
        assert(next.drop_last() =~= ev.take(i as int));
        assert(next.last() == els@[i as int]@);
        let fields = match object_fields(els[i].as_str()) {
            Some(f) => f,
            None => {
                proof {
                    lemma_first_value_fault_prefix(ev, i + 1);
                }
                return Err(owned("expected a JSON object"));
            },
        };
        match runtime_value_from_fields(&fields) {
            Ok(v) => {
                vs.push(v);
            },
            Err(e) => {
                proof {
                    lemma_first_value_fault_prefix(ev, i + 1);
                }
                return Err(e);
            },
        }
        i = i + 1;
    }
    assert(ev.take(els@.len() as int) =~= ev);
    Ok(vs)
}

/// Each of the texts holds a JSON string.
pub open spec fn all_strings(texts: Seq<Seq<char>>) -> bool
    decreases texts.len(),
{
    texts.len() == 0 || (all_strings(texts.drop_last()) && json_string_value(texts.last()) is Some)
}

proof fn lemma_all_strings(texts: Seq<Seq<char>>, i: int)
    requires
        0 <= i < texts.len(),
        all_strings(texts),
    ensures
        json_string_value(texts[i]) is Some,
    decreases texts.len(),
{
    if i < texts.len() - 1 {
        assert(texts.drop_last()[i] == texts[i]);
        lemma_all_strings(texts.drop_last(), i);
    }
}

/// The strings that the element texts hold, where each is a string.
fn strings_from_elements(texts: &Vec<String>) -> (r: Option<Vec<String>>)
    ensures
        match r {
            Some(ids) => all_strings(string_views(texts@)) && ids@.len() == texts@.len() && forall|j: int|
                0 <= j < texts@.len() ==> json_string_value(#[trigger] string_views(texts@)[j]) == Some(ids@[j]@),
            None => !all_strings(string_views(texts@)),
        },
{
    let ghost iv = string_views(texts@);
    let mut ids: Vec<String> = Vec::new();
    let mut i: usize = 0;
    while i < texts.len()
        invariant
            i <= texts@.len(),
            iv == string_views(texts@),
            ids@.len() == i,
            all_strings(iv.take(i as int)),
            forall|j: int| 0 <= j < i ==> json_string_value(#[trigger] iv[j]) == Some(ids@[j]@),
        decreases texts@.len() - i,
    {
        match string_value(texts[i].as_str()) {
            Some(s) => {
                let ghost next = iv.take(i + 1);
                assert(next.drop_last() =~= iv.take(i as int));
                ids.push(s);
            },
            None => {
                proof {
                    if all_strings(iv) {
                        lemma_all_strings(iv, i as int);
                    }
                }
                return None;
            },
        }
        i = i + 1;
    }
    assert(iv.take(iv.len() as int) =~= iv);
    Some(ids)
}

/// Why `text` is not a tag snapshot, if it is not.
pub open spec fn snapshot_fault(text: Seq<char>) -> Option<Seq<char>> {
    match json_syntax_error(text) {
        Some(m) => Some(m),
        None => match json_object_fields(text) {
            None => Some(not_object()),
            Some(f) => match field_of(f, "values"@) {
                None => Some(missing("values"@)),
                Some(t) => match json_array_elements(t) {
                    None => Some(missing("values"@)),
                    Some(els) => match first_value_fault(els) {
                        Some(m) => Some(m),
                        None => match field_of(f, "missing_tag_ids"@) {
                            None => Some(missing("missing_tag_ids"@)),
                            Some(u) => match json_array_elements(u) {
                                None => Some(missing("missing_tag_ids"@)),
                                Some(ids) => if all_strings(ids) {
                                    None
                                } else {
                                    Some(missing("missing_tag_ids"@))
                                },
                            },
                        },
                    },
                },
            },
        },
    }
}

/// `s` is the snapshot that `text` holds.
pub open spec fn snapshot_read(text: Seq<char>, s: TagSnapshot) -> bool {
    &&& json_object_fields(text) is Some
    &&& field_of(json_object_fields(text)->0, "values"@) is Some
    &&& json_array_elements(field_of(json_object_fields(text)->0, "values"@)->0) matches Some(els) && s.values@.len()
        == els.len() && forall|i: int|
        0 <= i < els.len() ==> runtime_value_text_read(#[trigger] els[i], s.values@[i])
    &&& field_of(json_object_fields(text)->0, "missing_tag_ids"@) is Some
    &&& json_array_elements(field_of(json_object_fields(text)->0, "missing_tag_ids"@)->0) matches Some(ids)
        && s.missing_tag_ids@.len() == ids.len() && forall|i: int|
        0 <= i < ids.len() ==> json_string_value(#[trigger] ids[i]) == Some(s.missing_tag_ids@[i]@)
}

/// Reads a tag snapshot from JSON text.
pub fn snapshot_from_json(text: &str) -> (r: Result<TagSnapshot, String>)
    ensures
        match r {
            Ok(s) => snapshot_fault(text@) is None && snapshot_read(text@, s),
            Err(e) => snapshot_fault(text@) == Some(e@),
        },
{
    if let Some(m) = syntax_error(text) {
        return Err(m);
    }
    let fields = match object_fields(text) {
        None => {
            return Err(owned("expected a JSON object"));
        },
        Some(f) => f,
    };
    let vt = match get_field(&fields, "values") {
        None => {
            return Err(fault("values"));
        },
        Some(t) => t,
    };
    let els = match array_elements(vt.as_str()) {
        None => {
            return Err(fault("values"));
        },
        Some(e) => e,
    };
    let values = match values_from_elements(&els) {
        Ok(vs) => vs,
        Err(e) => {
            return Err(e);
        },
    };
    let mt = match get_field(&fields, "missing_tag_ids") {
        None => {
            return Err(fault("missing_tag_ids"));
        },
        Some(t) => t,
    };
    let id_texts = match array_elements(mt.as_str()) {
        None => {
            return Err(fault("missing_tag_ids"));
        },
        Some(e) => e,
    };
    let ids = match strings_from_elements(&id_texts) {
        Some(ids) => ids,
        None => {
            return Err(fault("missing_tag_ids"));
        },
    };
    Ok(TagSnapshot { values, missing_tag_ids: ids })
}

/// The entries of an object whose values all hold strings, each with its string.
pub open spec fn string_entries(fields: Seq<(Seq<char>, Seq<char>)>) -> Option<Seq<(Seq<char>, Seq<char>)>>
    decreases fields.len(),
{
    if fields.len() == 0 {
        Some(seq![])
    } else {
        match (string_entries(fields.drop_last()), json_string_value(fields.last().1)) {
            (Some(rest), Some(v)) => Some(rest.push((fields.last().0, v))),
            _ => None,
        }
    }
}

fn read_string_entries(fields: &Vec<(String, String)>) -> (r: Option<Vec<(String, String)>>)
    ensures
        match r {
            Some(v) => string_entries(pair_views(fields@)) == Some(crate::json_doc::pair_views(v@)),
            None => string_entries(pair_views(fields@)) is None,
        },
{
    let ghost fv = pair_views(fields@);
    let mut out: Vec<(String, String)> = Vec::new();
    let mut i: usize = 0;
    assert(fv.take(0) =~= Seq::<(Seq<char>, Seq<char>)>::empty());
    assert(crate::json_doc::pair_views(out@) =~= Seq::<(Seq<char>, Seq<char>)>::empty());
    while i < fields.len()
        invariant
            i <= fields@.len(),
            fv == pair_views(fields@),
            string_entries(fv.take(i as int)) == Some(crate::json_doc::pair_views(out@)),
        decreases fields@.len() - i,
    {
        let ghost next = fv.take(i + 1);
        assert(next.drop_last() =~= fv.take(i as int));
        assert(next.last() == (fields@[i as int].0@, fields@[i as int].1@));
        match string_value(fields[i].1.as_str()) {
            Some(v) => {
                let ghost before = crate::json_doc::pair_views(out@);
                out.push((fields[i].0.clone(), v));
                assert(crate::json_doc::pair_views(out@) =~= before.push((fields@[i as int].0@, v@)));
            },
            None => {
                proof {
                    lemma_string_entries_prefix(fv, i + 1);
                }
                return None;
            },
        }
        i = i + 1;
    }
    assert(fv.take(fv.len() as int) =~= fv);
    Some(out)
}

proof fn lemma_string_entries_prefix(fields: Seq<(Seq<char>, Seq<char>)>, n: int)
    requires
        0 <= n <= fields.len(),
        string_entries(fields.take(n)) is None,
    ensures
        string_entries(fields) is None,
    decreases fields.len() - n,
{
    if n < fields.len() {
        let m = fields.take(n + 1);
        assert(m.drop_last() =~= fields.take(n));
        lemma_string_entries_prefix(fields, n + 1);
    } else {
        assert(fields.take(n) =~= fields);
    }
}

/// Why the element text `t` is not a screen object, if it is not.
pub open spec fn object_fault(t: Seq<char>) -> Option<Seq<char>> {
    match json_object_fields(t) {
        None => Some(not_object()),
        Some(f) => match first_missing_string(f, seq!["object_id"@, "svg_asset_id"@]) {
            Some(m) => Some(m),
            None => if !(field_of(f, "x"@) matches Some(n) && json_is_number(n)) {
                Some(missing("x"@))
            } else if !(field_of(f, "y"@) matches Some(n) && json_is_number(n)) {
                Some(missing("y"@))
            } else if !(field_of(f, "width"@) matches Some(n) && json_is_number(n)) {
                Some(missing("width"@))
            } else if !(field_of(f, "height"@) matches Some(n) && json_is_number(n)) {
                Some(missing("height"@))
            } else {
                match field_of(f, "tag_bindings"@) {
                    None => None,
                    Some(b) => match json_object_fields(b) {
                        None => Some(missing("tag_bindings"@)),
                        Some(bf) => if string_entries(bf) is None {
                            Some(missing("tag_bindings"@))
                        } else {
                            None
                        },
                    },
                }
            },
        },
    }
}

/// `o` is the screen object that the element text `t` describes; without bindings where
/// the entry is absent.
pub open spec fn object_read(t: Seq<char>, o: ScreenObjectDefinition) -> bool {
    &&& json_object_fields(t) is Some
    &&& string_at(json_object_fields(t)->0, "object_id"@) == Some(o.object_id@)
    &&& string_at(json_object_fields(t)->0, "svg_asset_id"@) == Some(o.svg_asset_id@)
    &&& crate::json_doc::pair_views(o.tag_bindings@) == match field_of(json_object_fields(t)->0, "tag_bindings"@) {
        None => Seq::<(Seq<char>, Seq<char>)>::empty(),
        Some(b) => string_entries(json_object_fields(b)->0)->0,
    }
}

fn number_present(fields: &Vec<(String, String)>, key: &str) -> (r: bool)
    ensures
        r == (field_of(pair_views(fields@), key@) matches Some(n) && json_is_number(n)),
{
    match get_field(fields, key) {
        Some(t) => is_number(t.as_str()),
        None => false,
    }
}

#[verifier::rlimit(60)]
fn object_from_json(t: &str) -> (r: Result<ScreenObjectDefinition, String>)
    ensures
        match r {
            Ok(o) => object_fault(t@) is None && object_read(t@, o),
            Err(e) => object_fault(t@) == Some(e@),
        },
{
    proof {
        reveal_with_fuel(first_missing_string, 3);
    }
    let fields = match object_fields(t) {
        None => {
            return Err(owned("expected a JSON object"));
        },
        Some(f) => f,
    };
    let object_id = match text_entry(&fields, "object_id") {
        Ok(x) => x,
        Err(e) => {
            return Err(e);
        },
    };
    let svg_asset_id = match text_entry(&fields, "svg_asset_id") {
        Ok(x) => x,
        Err(e) => {
            return Err(e);
        },
    };
    if !number_present(&fields, "x") {
        return Err(fault("x"));
    }
    if !number_present(&fields, "y") {
        return Err(fault("y"));
    }
    if !number_present(&fields, "width") {
        return Err(fault("width"));
    }
    if !number_present(&fields, "height") {
        return Err(fault("height"));
    }
    let tag_bindings = match get_field(&fields, "tag_bindings") {
        None => {
            let v: Vec<(String, String)> = Vec::new();
            assert(crate::json_doc::pair_views(v@) =~= Seq::<(Seq<char>, Seq<char>)>::empty());
            v
        },
        Some(b) => match object_fields(b.as_str()) {
            None => {
                return Err(fault("tag_bindings"));
            },
            Some(bf) => match read_string_entries(&bf) {
                None => {
                    return Err(fault("tag_bindings"));
                },
                Some(v) => v,
            },
        },
    };
    Ok(ScreenObjectDefinition { object_id, svg_asset_id, tag_bindings })
}

/// The fault of the first element of `els` that is not a screen object.
pub open spec fn first_object_fault(els: Seq<Seq<char>>) -> Option<Seq<char>>
    decreases els.len(),
{
    if els.len() == 0 {
        None
    } else {
        match first_object_fault(els.drop_last()) {
            Some(m) => Some(m),
            None => object_fault(els.last()),
        }
    }
}

proof fn lemma_first_object_fault_prefix(els: Seq<Seq<char>>, n: int)
    requires
        0 <= n <= els.len(),
        first_object_fault(els.take(n)) is Some,
    ensures
        first_object_fault(els) == first_object_fault(els.take(n)),
    decreases els.len() - n,
{
    if n < els.len() {
        let m = els.take(n + 1);
        assert(m.drop_last() =~= els.take(n));
        lemma_first_object_fault_prefix(els, n + 1);
    } else {
        assert(els.take(n) =~= els);
    }
}

fn objects_from_elements(els: &Vec<String>) -> (r: Result<Vec<ScreenObjectDefinition>, String>)
    ensures
        match r {
            Ok(os) => first_object_fault(string_views(els@)) is None && os@.len() == els@.len() && forall|i: int|
                0 <= i < els@.len() ==> object_read(#[trigger] string_views(els@)[i], os@[i]),
            Err(e) => first_object_fault(string_views(els@)) == Some(e@),
        },
{
    let ghost ev = string_views(els@);
    let mut os: Vec<ScreenObjectDefinition> = Vec::new();
    let mut i: usize = 0;
    while i < els.len()
        invariant
            i <= els@.len(),
            ev == string_views(els@),
            first_object_fault(ev.take(i as int)) is None,
            os@.len() == i,
            forall|j: int| 0 <= j < i ==> object_read(#[trigger] ev[j], os@[j]),
        decreases els@.len() - i,
    {
        let ghost next = ev.take(i + 1);
        assert(next.drop_last() =~= ev.take(i as int));
        assert(next.last() == els@[i as int]@);
        match object_from_json(els[i].as_str()) {
            Ok(o) => {
                os.push(o);
            },
            Err(e) => {
                proof {
                    lemma_first_object_fault_prefix(ev, i + 1);
                }
                return Err(e);
            },
        }
        i = i + 1;
    }
    assert(ev.take(els@.len() as int) =~= ev);
    Ok(os)
}

/// A `u32` entry.
pub open spec fn u32_at(fields: Seq<(Seq<char>, Seq<char>)>, key: Seq<char>) -> Option<u32> {
    match u64_at(fields, key) {
        Some(n) => if n <= u32::MAX {
            Some(n as u32)
        } else {
            None
        },
        None => None,
    }
}

/// Why `text` is not a screen definition, if it is not.
pub open spec fn definition_fault(text: Seq<char>) -> Option<Seq<char>> {
    match json_syntax_error(text) {
        Some(m) => Some(m),
        None => match json_object_fields(text) {
            None => Some(not_object()),
            Some(f) => match first_missing_string(f, seq!["schema_version"@, "screen_id"@, "project_id"@, "name"@]) {
                Some(m) => Some(m),
                None => if u32_at(f, "canvas_width"@) is None {
                    Some(missing("canvas_width"@))
                } else if u32_at(f, "canvas_height"@) is None {
                    Some(missing("canvas_height"@))
                } else {
                    match field_of(f, "objects"@) {
                        None => Some(missing("objects"@)),
                        Some(t) => match json_array_elements(t) {
                            None => Some(missing("objects"@)),
                            Some(els) => first_object_fault(els),
                        },
                    }
                },
            },
        },
    }
}

/// `d` is the screen definition that `text` holds.
pub open spec fn definition_read(text: Seq<char>, d: ScreenDefinition) -> bool {
    &&& json_object_fields(text) is Some
    &&& string_at(json_object_fields(text)->0, "schema_version"@) == Some(d.schema_version@)
    &&& string_at(json_object_fields(text)->0, "screen_id"@) == Some(d.screen_id@)
    &&& string_at(json_object_fields(text)->0, "project_id"@) == Some(d.project_id@)
    &&& string_at(json_object_fields(text)->0, "name"@) == Some(d.name@)
    &&& u32_at(json_object_fields(text)->0, "canvas_width"@) == Some(d.canvas_width)
    &&& u32_at(json_object_fields(text)->0, "canvas_height"@) == Some(d.canvas_height)
    &&& field_of(json_object_fields(text)->0, "objects"@) is Some
    &&& json_array_elements(field_of(json_object_fields(text)->0, "objects"@)->0) matches Some(els) && d.objects@.len()
        == els.len() && forall|i: int| 0 <= i < els.len() ==> object_read(#[trigger] els[i], d.objects@[i])
}

fn u32_entry(fields: &Vec<(String, String)>, key: &str) -> (r: Result<u32, String>)
    ensures
        match r {
            Ok(n) => u32_at(pair_views(fields@), key@) == Some(n),
            Err(e) => u32_at(pair_views(fields@), key@) is None && e@ == missing(key@),
        },
{
    match u64_field_of(fields, key) {
        Some(n) => if n <= 0xffff_ffff {
            Ok(n as u32)
        } else {
            Err(fault(key))
        },
        None => Err(fault(key)),
    }
}

/// Reads a screen definition from JSON text.
#[verifier::rlimit(60)]
pub fn screen_definition_from_json(text: &str) -> (r: Result<ScreenDefinition, String>)
    ensures
        match r {
            Ok(d) => definition_fault(text@) is None && definition_read(text@, d),
            Err(e) => definition_fault(text@) == Some(e@),
        },
{
    proof {
        reveal_with_fuel(first_missing_string, 5);
    }
    if let Some(m) = syntax_error(text) {
        return Err(m);
    }
    let fields = match object_fields(text) {
        None => {
            return Err(owned("expected a JSON object"));
        },
        Some(f) => f,
    };
    let schema_version = match text_entry(&fields, "schema_version") {
        Ok(x) => x,
        Err(e) => {
            return Err(e);
        },
    };
    let screen_id = match text_entry(&fields, "screen_id") {
        Ok(x) => x,
        Err(e) => {
            return Err(e);
        },
    };
    let project_id = match text_entry(&fields, "project_id") {
        Ok(x) => x,
        Err(e) => {
            return Err(e);
        },
    };
    let name = match text_entry(&fields, "name") {
        Ok(x) => x,
        Err(e) => {
            return Err(e);
        },
    };
    let canvas_width = match u32_entry(&fields, "canvas_width") {
        Ok(x) => x,
        Err(e) => {
            return Err(e);
        },
    };
    let canvas_height = match u32_entry(&fields, "canvas_height") {
        Ok(x) => x,
        Err(e) => {
            return Err(e);
        },
    };
    let ot = match get_field(&fields, "objects") {
        None => {
            return Err(fault("objects"));
        },
        Some(t) => t,
    };
    let els = match array_elements(ot.as_str()) {
        None => {
            return Err(fault("objects"));
        },
        Some(e) => e,
    };
    let objects = match objects_from_elements(&els) {
        Ok(os) => os,
        Err(e) => {
            return Err(e);
        },
    };
    Ok(ScreenDefinition { schema_version, screen_id, project_id, name, canvas_width, canvas_height, objects })
}

} // verus!
