//! Reading a tag value from the JSON object that a driver posts.
use vstd::prelude::*;

use crate::json_doc::{
    bool_value, field_of, get_field, i64_value, is_number, json_bool_value, json_i64_value,
    json_is_number, json_object_fields, json_string_value, object_fields, pair_views, string_at,
    string_field_of, string_value, u64_at, u64_field_of,
};
use crate::tag::{QualityCode, TagValue, TagValueData};
use crate::text::{owned, str_eq};

verus! {

/// The quality code whose name is `s`.
pub open spec fn quality_named(s: Seq<char>) -> Option<QualityCode> {
    if s == "Good"@ {
        Some(QualityCode::Good)
    } else if s == "Uncertain"@ {
        Some(QualityCode::Uncertain)
    } else if s == "Bad"@ {
        Some(QualityCode::Bad)
    } else if s == "Stale"@ {
        Some(QualityCode::Stale)
    } else if s == "CommLost"@ {
        Some(QualityCode::CommLost)
    } else if s == "OutOfRange"@ {
        Some(QualityCode::OutOfRange)
    } else if s == "Manual"@ {
        Some(QualityCode::Manual)
    } else if s == "Simulated"@ {
        Some(QualityCode::Simulated)
    } else {
        None
    }
}

/// The value text `t` can be read as data of the type named `dt`.
pub open spec fn data_readable(dt: Seq<char>, t: Seq<char>) -> bool {
    if dt == "boolean"@ {
        json_bool_value(t) is Some
    } else if dt == "integer"@ {
        json_i64_value(t) is Some
    } else if dt == "float"@ {
        json_is_number(t)
    } else if dt == "string"@ {
        json_string_value(t) is Some
    } else {
        false
    }
}

/// `d` is what the value text `t` holds as data of the type named `dt`; a float keeps the
/// number's JSON text.
pub open spec fn data_read(dt: Seq<char>, t: Seq<char>, d: TagValueData) -> bool {
    match d {
        TagValueData::Boolean(b) => dt == "boolean"@ && json_bool_value(t) == Some(b),
        TagValueData::Integer(i) => dt == "integer"@ && json_i64_value(t) == Some(i),
        TagValueData::Float(f) => dt == "float"@ && json_is_number(t) && f@ == t,
        TagValueData::String(s) => dt == "string"@ && json_string_value(t) == Some(s@),
    }
}

/// The value entry of `fields` can be read.
pub open spec fn value_readable(fields: Seq<(Seq<char>, Seq<char>)>) -> bool {
    &&& string_at(fields, "data_type"@) is Some
    &&& field_of(fields, "value"@) is Some
    &&& data_readable(string_at(fields, "data_type"@)->0, field_of(fields, "value"@)->0)
}

/// `missing or invalid <key>`.
pub open spec fn missing(key: Seq<char>) -> Seq<char> {
    "missing or invalid "@ + key
}

/// The message for the first entry of a tag value object that is missing or cannot be read,
/// in the order the fields are declared; `None` where all can be read.
pub open spec fn tag_value_fault(fields: Seq<(Seq<char>, Seq<char>)>) -> Option<Seq<char>> {
    if string_at(fields, "tag_id"@) is None {
        Some(missing("tag_id"@))
    } else if !value_readable(fields) {
        Some(missing("value"@))
    } else if string_at(fields, "quality"@) is None || quality_named(string_at(fields, "quality"@)->0) is None {
        Some(missing("quality"@))
    } else if string_at(fields, "source_timestamp"@) is None {
        Some(missing("source_timestamp"@))
    } else if string_at(fields, "server_timestamp"@) is None {
        Some(missing("server_timestamp"@))
    } else if u64_at(fields, "sequence"@) is None {
        Some(missing("sequence"@))
    } else if u64_at(fields, "scan_interval_ms"@) is None {
        Some(missing("scan_interval_ms"@))
    } else if u64_at(fields, "stale_after_ms"@) is None {
        Some(missing("stale_after_ms"@))
    } else if string_at(fields, "driver_id"@) is None {
        Some(missing("driver_id"@))
    } else if string_at(fields, "endpoint_id"@) is None {
        Some(missing("endpoint_id"@))
    } else if string_at(fields, "read_status"@) is None {
        Some(missing("read_status"@))
    } else if string_at(fields, "write_status"@) is None {
        Some(missing("write_status"@))
    } else {
        None
    }
}

/// `v` is the tag value that the entries `fields` describe.
pub open spec fn tag_value_read(fields: Seq<(Seq<char>, Seq<char>)>, v: TagValue) -> bool {
    &&& string_at(fields, "tag_id"@) == Some(v.tag_id@)
    &&& data_read(string_at(fields, "data_type"@)->0, field_of(fields, "value"@)->0, v.value)
    &&& quality_named(string_at(fields, "quality"@)->0) == Some(v.quality)
    &&& string_at(fields, "source_timestamp"@) == Some(v.source_timestamp@)
    &&& string_at(fields, "server_timestamp"@) == Some(v.server_timestamp@)
    &&& u64_at(fields, "sequence"@) == Some(v.sequence)
    &&& u64_at(fields, "scan_interval_ms"@) == Some(v.scan_interval_ms)
    &&& u64_at(fields, "stale_after_ms"@) == Some(v.stale_after_ms)
    &&& string_at(fields, "driver_id"@) == Some(v.driver_id@)
    &&& string_at(fields, "endpoint_id"@) == Some(v.endpoint_id@)
    &&& string_at(fields, "read_status"@) == Some(v.read_status@)
    &&& string_at(fields, "write_status"@) == Some(v.write_status@)
}

fn quality_from(s: &str) -> (r: Option<QualityCode>)
    ensures
        r == quality_named(s@),
{
    proof {
        reveal_strlit("Good");
        reveal_strlit("Uncertain");
        reveal_strlit("Bad");
        reveal_strlit("Stale");
        reveal_strlit("CommLost");
        reveal_strlit("OutOfRange");
        reveal_strlit("Manual");
        reveal_strlit("Simulated");
    }
    if str_eq(s, "Good") {
        Some(QualityCode::Good)
    } else if str_eq(s, "Uncertain") {
        Some(QualityCode::Uncertain)
    } else if str_eq(s, "Bad") {
        Some(QualityCode::Bad)
    } else if str_eq(s, "Stale") {
        Some(QualityCode::Stale)
    } else if str_eq(s, "CommLost") {
        Some(QualityCode::CommLost)
    } else if str_eq(s, "OutOfRange") {
        Some(QualityCode::OutOfRange)
    } else if str_eq(s, "Manual") {
        Some(QualityCode::Manual)
    } else if str_eq(s, "Simulated") {
        Some(QualityCode::Simulated)
    } else {
        None
    }
}

fn data_from(dt: &str, t: &str) -> (r: Option<TagValueData>)
    ensures
        match r {
            Some(d) => data_readable(dt@, t@) && data_read(dt@, t@, d),
            None => !data_readable(dt@, t@),
        },
{
    proof {
        reveal_strlit("boolean");
        reveal_strlit("integer");
        reveal_strlit("float");
        reveal_strlit("string");
    }
    if str_eq(dt, "boolean") {
        match bool_value(t) {
            Some(b) => Some(TagValueData::Boolean(b)),
            None => None,
        }
    } else if str_eq(dt, "integer") {
        match i64_value(t) {
            Some(i) => Some(TagValueData::Integer(i)),
            None => None,
        }
    } else if str_eq(dt, "float") {
        if is_number(t) {
            Some(TagValueData::Float(owned(t)))
        } else {
            None
        }
    } else if str_eq(dt, "string") {
        match string_value(t) {
            Some(s) => Some(TagValueData::String(s)),
            None => None,
        }
    } else {
        None
    }
}

fn value_from(fields: &Vec<(String, String)>) -> (r: Option<TagValueData>)
    ensures
        match r {
            Some(d) => value_readable(pair_views(fields@)) && data_read(
                string_at(pair_views(fields@), "data_type"@)->0,
                field_of(pair_views(fields@), "value"@)->0,
                d,
            ),
            None => !value_readable(pair_views(fields@)),
        },
{
    proof {
        reveal_strlit("data_type");
        reveal_strlit("value");
    }
    let dt = match string_field_of(fields, "data_type") {
        Some(dt) => dt,
        None => {
            return None;
        },
    };
    let t = match get_field(fields, "value") {
        Some(t) => t,
        None => {
            return None;
        },
    };
    data_from(dt.as_str(), t.as_str())
}

fn fault(field: &str) -> (r: String)
    ensures
        r@ == missing(field@),
{
    let mut out: Vec<char> = Vec::new();
    crate::json::push_text(&mut out, "missing or invalid ");
    crate::json::push_text(&mut out, field);
    crate::text::string_of(out.as_slice())
}

fn text_field(fields: &Vec<(String, String)>, key: &str) -> (r: Result<String, String>)
    ensures
        match r {
            Ok(s) => string_at(pair_views(fields@), key@) == Some(s@),
            Err(e) => string_at(pair_views(fields@), key@) is None && e@ == missing(key@),
        },
{
    match string_field_of(fields, key) {
        Some(s) => Ok(s),
        None => Err(fault(key)),
    }
}

fn number_field(fields: &Vec<(String, String)>, key: &str) -> (r: Result<u64, String>)
    ensures
        match r {
            Ok(n) => u64_at(pair_views(fields@), key@) == Some(n),
            Err(e) => u64_at(pair_views(fields@), key@) is None && e@ == missing(key@),
        },
{
    match u64_field_of(fields, key) {
        Some(n) => Ok(n),
        None => Err(fault(key)),
    }
}

/// Reads a tag value from the compact JSON text of an object.
#[verifier::rlimit(60)]
pub fn tag_value_from_json_value(text: &str) -> (r: Result<TagValue, String>)
    ensures
        match r {
            Ok(v) => json_object_fields(text@) matches Some(fields) && tag_value_fault(fields) is None
                && tag_value_read(fields, v),
            Err(e) => match json_object_fields(text@) {
                None => e@ == "tag value must be a JSON object"@,
                Some(fields) => tag_value_fault(fields) == Some(e@),
            },
        },
{
    let fields = match object_fields(text) {
        Some(f) => f,
        None => {
            return Err(owned("tag value must be a JSON object"));
        },
    };
    let ghost fs = pair_views(fields@);
    let tag_id = match text_field(&fields, "tag_id") {
        Ok(x) => x,
        Err(e) => {
            return Err(e);
        },
    };
    let value = match value_from(&fields) {
        Some(d) => d,
        None => {
            return Err(fault("value"));
        },
    };
    let quality_text = match string_field_of(&fields, "quality") {
        Some(q) => q,
        None => {
            return Err(fault("quality"));
        },
    };
    let quality = match quality_from(quality_text.as_str()) {
        Some(q) => q,
        None => {
            return Err(fault("quality"));
        },
    };
    let source_timestamp = match text_field(&fields, "source_timestamp") {
        Ok(x) => x,
        Err(e) => {
            return Err(e);
        },
    };
    let server_timestamp = match text_field(&fields, "server_timestamp") {
        Ok(x) => x,
        Err(e) => {
            return Err(e);
        },
    };
    let sequence = match number_field(&fields, "sequence") {
        Ok(x) => x,
        Err(e) => {
            return Err(e);
        },
    };
    let scan_interval_ms = match number_field(&fields, "scan_interval_ms") {
        Ok(x) => x,
        Err(e) => {
            return Err(e);
        },
    };
    let stale_after_ms = match number_field(&fields, "stale_after_ms") {
        Ok(x) => x,
        Err(e) => {
            return Err(e);
        },
    };
    let driver_id = match text_field(&fields, "driver_id") {
        Ok(x) => x,
        Err(e) => {
            return Err(e);
        },
    };
    let endpoint_id = match text_field(&fields, "endpoint_id") {
        Ok(x) => x,
        Err(e) => {
            return Err(e);
        },
    };
    let read_status = match text_field(&fields, "read_status") {
        Ok(x) => x,
        Err(e) => {
            return Err(e);
        },
    };
    let write_status = match text_field(&fields, "write_status") {
        Ok(x) => x,
        Err(e) => {
            return Err(e);
        },
    };
    Ok(
        TagValue {
            tag_id,
            value,
            quality,
            source_timestamp,
            server_timestamp,
            sequence,
            scan_interval_ms,
            stale_after_ms,
            driver_id,
            endpoint_id,
            read_status,
            write_status,
        },
    )
}

} // verus!
