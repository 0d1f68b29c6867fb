//! Tag values, their data types and quality codes.
use vstd::prelude::*;

use crate::json::{push_all, push_key, push_quoted, push_text, quoted};
use crate::text::{chars_of, decimal, i64_text, signed_decimal, string_of, u64_text};

verus! {

/// The type of the value a tag holds.
#[derive(Debug, Clone, PartialEq, Eq, Structural)]
pub enum DataType {
    Boolean,
    Integer,
    Float,
    String,
}

impl DataType {
    /// The name of the data type on the wire.
    pub open spec fn name(self) -> Seq<char> {
        match self {
            DataType::Boolean => "boolean"@,
            DataType::Integer => "integer"@,
            DataType::Float => "float"@,
            DataType::String => "string"@,
        }
    }

    pub fn as_str(&self) -> (s: &'static str)
        ensures
            s@ == self.name(),
    {
        match self {
            DataType::Boolean => "boolean",
            DataType::Integer => "integer",
            DataType::Float => "float",
            DataType::String => "string",
        }
    }
}

/// The value a tag holds. A floating-point value is held as its decimal JSON number text
/// (such as `21.0`), which is how it arrives and how it is sent on.
#[derive(Debug, Clone, PartialEq, Eq)]
pub enum TagValueData {
    Boolean(bool),
    Integer(i64),
    Float(String),
    String(String),
}

impl TagValueData {
    pub open spec fn spec_data_type(self) -> DataType {
        match self {
            TagValueData::Boolean(_) => DataType::Boolean,
            TagValueData::Integer(_) => DataType::Integer,
            TagValueData::Float(_) => DataType::Float,
            TagValueData::String(_) => DataType::String,
        }
    }

    pub fn data_type(&self) -> (t: DataType)
        ensures
            t == self.spec_data_type(),
    {
        match self {
            TagValueData::Boolean(_) => DataType::Boolean,
            TagValueData::Integer(_) => DataType::Integer,
            TagValueData::Float(_) => DataType::Float,
            TagValueData::String(_) => DataType::String,
        }
    }

    /// A copy of the value.
    pub fn copied(&self) -> (r: TagValueData)
        ensures
            r == *self,
    {
        match self {
            TagValueData::Boolean(b) => TagValueData::Boolean(*b),
            TagValueData::Integer(i) => TagValueData::Integer(*i),
            TagValueData::Float(f) => TagValueData::Float(f.clone()),
            TagValueData::String(s) => TagValueData::String(s.clone()),
        }
    }

    /// The JSON text of the value.
    pub open spec fn json_text(self) -> Seq<char> {
        match self {
            TagValueData::Boolean(b) => if b {
                "true"@
            } else {
                "false"@
            },
            TagValueData::Integer(i) => signed_decimal(i as int),
            TagValueData::Float(f) => f@,
            TagValueData::String(s) => quoted(s@),
        }
    }

    /// Appends the JSON text of the value.
    pub fn push_json(&self, out: &mut Vec<char>)
        ensures
            final(out)@ == old(out)@ + self.json_text(),
    {
        match self {
            TagValueData::Boolean(b) => {
                if *b {
                    push_text(out, "true");
                } else {
                    push_text(out, "false");
                }
            },
            TagValueData::Integer(i) => {
                let t = i64_text(*i);
                push_all(out, t.as_slice());
            },
            TagValueData::Float(f) => {
                let t = chars_of(f.as_str());
                push_all(out, t.as_slice());
            },
            TagValueData::String(s) => {
                let t = chars_of(s.as_str());
                push_quoted(out, t.as_slice());
            },
        }
    }
}

/// How far a tag value can be trusted.
#[derive(Debug, Clone, PartialEq, Eq, Structural)]
pub enum QualityCode {
    Good,
    Uncertain,
    Bad,
    Stale,
    CommLost,
    OutOfRange,
    Manual,
    Simulated,
}

impl QualityCode {
    pub open spec fn name(self) -> Seq<char> {
        match self {
            QualityCode::Good => "Good"@,
            QualityCode::Uncertain => "Uncertain"@,
            QualityCode::Bad => "Bad"@,
            QualityCode::Stale => "Stale"@,
            QualityCode::CommLost => "CommLost"@,
            QualityCode::OutOfRange => "OutOfRange"@,
            QualityCode::Manual => "Manual"@,
            QualityCode::Simulated => "Simulated"@,
        }
    }

    /// Values of this quality may be shown and used.
    pub open spec fn usable(self) -> bool {
        match self {
            QualityCode::Good | QualityCode::Uncertain | QualityCode::Manual
            | QualityCode::Simulated => true,
            _ => false,
        }
    }

    pub fn as_str(&self) -> (s: &'static str)
        ensures
            s@ == self.name(),
    {
        match self {
            QualityCode::Good => "Good",
            QualityCode::Uncertain => "Uncertain",
            QualityCode::Bad => "Bad",
            QualityCode::Stale => "Stale",
            QualityCode::CommLost => "CommLost",
            QualityCode::OutOfRange => "OutOfRange",
            QualityCode::Manual => "Manual",
            QualityCode::Simulated => "Simulated",
        }
    }

    pub fn is_usable(&self) -> (b: bool)
        ensures
            b == self.usable(),
    {
        match self {
            QualityCode::Good | QualityCode::Uncertain | QualityCode::Manual
            | QualityCode::Simulated => true,
            _ => false,
        }
    }
}

/// A tag value as the tag server keeps and publishes it.
#[derive(Debug, Clone, PartialEq, Eq)]
pub struct TagValue {
    pub tag_id: String,
    pub value: TagValueData,
    pub quality: QualityCode,
    pub source_timestamp: String,
    pub server_timestamp: String,
    pub sequence: u64,
    pub scan_interval_ms: u64,
    pub stale_after_ms: u64,
    pub driver_id: String,
    pub endpoint_id: String,
    pub read_status: String,
    pub write_status: String,
}

impl TagValue {
    pub fn data_type(&self) -> (t: DataType)
        ensures
            t == self.value.spec_data_type(),
    {
        self.value.data_type()
    }

    /// A copy of the tag value.
    pub fn copied(&self) -> (r: TagValue)
        ensures
            r == *self,
    {
        let quality = match self.quality {
            QualityCode::Good => QualityCode::Good,
            QualityCode::Uncertain => QualityCode::Uncertain,
            QualityCode::Bad => QualityCode::Bad,
            QualityCode::Stale => QualityCode::Stale,
            QualityCode::CommLost => QualityCode::CommLost,
            QualityCode::OutOfRange => QualityCode::OutOfRange,
            QualityCode::Manual => QualityCode::Manual,
            QualityCode::Simulated => QualityCode::Simulated,
        };
        TagValue {
            tag_id: self.tag_id.clone(),
            value: self.value.copied(),
            quality,
            source_timestamp: self.source_timestamp.clone(),
            server_timestamp: self.server_timestamp.clone(),
            sequence: self.sequence,
            scan_interval_ms: self.scan_interval_ms,
            stale_after_ms: self.stale_after_ms,
            driver_id: self.driver_id.clone(),
            endpoint_id: self.endpoint_id.clone(),
            read_status: self.read_status.clone(),
            write_status: self.write_status.clone(),
        }
    }

    /// This value carries a later sequence number than `other`.
    pub fn is_newer_than(&self, other: &TagValue) -> (b: bool)
        ensures
            b == (self.sequence > other.sequence),
    {
        self.sequence > other.sequence
    }

    /// The JSON object text of the value.
    pub open spec fn json_text(self) -> Seq<char> {
        self.json_head() + self.json_times() + self.json_counters() + self.json_tail()
    }

    pub open spec fn json_head(self) -> Seq<char> {
        "{\"tag_id\":"@ + quoted(self.tag_id@) + ",\"value\":"@ + self.value.json_text()
            + ",\"data_type\":"@ + quoted(self.value.spec_data_type().name())
            + ",\"quality\":"@ + quoted(self.quality.name())
    }

    pub open spec fn json_times(self) -> Seq<char> {
        ",\"source_timestamp\":"@ + quoted(self.source_timestamp@) + ",\"server_timestamp\":"@
            + quoted(self.server_timestamp@)
    }

    pub open spec fn json_counters(self) -> Seq<char> {
        ",\"sequence\":"@ + decimal(self.sequence as nat) + ",\"scan_interval_ms\":"@ + decimal(
            self.scan_interval_ms as nat,
        ) + ",\"stale_after_ms\":"@ + decimal(self.stale_after_ms as nat)
    }

    pub open spec fn json_tail(self) -> Seq<char> {
        ",\"driver_id\":"@ + quoted(self.driver_id@) + ",\"endpoint_id\":"@ + quoted(
            self.endpoint_id@,
        ) + ",\"read_status\":"@ + quoted(self.read_status@) + ",\"write_status\":"@ + quoted(
            self.write_status@,
        ) + "}"@
    }
}

/// Appends `s` quoted.
fn push_quoted_str(out: &mut Vec<char>, s: &str)
    ensures
        final(out)@ == old(out)@ + quoted(s@),
{
    let cs = chars_of(s);
    push_quoted(out, cs.as_slice());
}

/// Appends the decimal text of `n`.
fn push_u64(out: &mut Vec<char>, n: u64)
    ensures
        final(out)@ == old(out)@ + decimal(n as nat),
{
    let t = u64_text(n);
    push_all(out, t.as_slice());
}

/// Appends the JSON object text of `value`.
pub fn push_tag_value_json(out: &mut Vec<char>, value: &TagValue)
    ensures
        final(out)@ == old(out)@ + value.json_text(),
{
    let ghost start = out@;
    push_text(out, "{\"tag_id\":");
    push_quoted_str(out, value.tag_id.as_str());
    push_text(out, ",\"value\":");
    value.value.push_json(out);
    push_text(out, ",\"data_type\":");
    let dt = value.value.data_type();
    push_quoted_str(out, dt.as_str());
    push_text(out, ",\"quality\":");
    push_quoted_str(out, value.quality.as_str());
    assert(out@ =~= start + value.json_head());
    let ghost s1 = out@;
    push_text(out, ",\"source_timestamp\":");
    push_quoted_str(out, value.source_timestamp.as_str());
    push_text(out, ",\"server_timestamp\":");
    push_quoted_str(out, value.server_timestamp.as_str());
    assert(out@ =~= s1 + value.json_times());
    let ghost s2 = out@;
    push_text(out, ",\"sequence\":");
    push_u64(out, value.sequence);
    push_text(out, ",\"scan_interval_ms\":");
    push_u64(out, value.scan_interval_ms);
    push_text(out, ",\"stale_after_ms\":");
    push_u64(out, value.stale_after_ms);
    assert(out@ =~= s2 + value.json_counters());
    let ghost s3 = out@;
    push_text(out, ",\"driver_id\":");
    push_quoted_str(out, value.driver_id.as_str());
    push_text(out, ",\"endpoint_id\":");
    push_quoted_str(out, value.endpoint_id.as_str());
    push_text(out, ",\"read_status\":");
    push_quoted_str(out, value.read_status.as_str());
    push_text(out, ",\"write_status\":");
    push_quoted_str(out, value.write_status.as_str());
    push_text(out, "}");
    assert(out@ =~= s3 + value.json_tail());
    assert(out@ =~= start + value.json_text());
}

/// The JSON object text of a tag value.
pub fn tag_value_to_json(value: &TagValue) -> (r: String)
    ensures
        r@ == value.json_text(),
{
    let mut out: Vec<char> = Vec::new();
    push_tag_value_json(&mut out, value);
    assert(out@ =~= value.json_text());
    string_of(out.as_slice())
}

} // verus!
