//! A driver that produces simulated values and accepts writes to mock tags.
use vstd::prelude::*;

use crate::driver::{DriverWriteRequest, DriverWriteResponse, RawDriverValue};
use crate::json::{push_all, push_text};
use crate::tag::{QualityCode, TagValueData};
use crate::text::{chars_of, decimal, has_prefix, owned, starts_with, string_of, u64_text};

verus! {

/// A simulated driver.
#[derive(Debug, Clone)]
pub struct MockDriver {
    driver_id: String,
    endpoint_id: String,
    sequence: u64,
}

/// The simulated temperature after `n` reads: `20 + n % 10`, as decimal JSON number text.
pub open spec fn temperature_text(n: nat) -> Seq<char> {
    decimal((20 + n % 10) as nat) + ".0"@
}

impl MockDriver {
    pub closed spec fn spec_driver_id(self) -> Seq<char> {
        self.driver_id@
    }

    pub closed spec fn spec_endpoint_id(self) -> Seq<char> {
        self.endpoint_id@
    }

    /// How many times values were produced.
    pub closed spec fn reads(self) -> u64 {
        self.sequence
    }

    pub fn new(driver_id: &str, endpoint_id: &str) -> (d: MockDriver)
        ensures
            d.spec_driver_id() == driver_id@,
            d.spec_endpoint_id() == endpoint_id@,
            d.reads() == 0,
    {
        MockDriver { driver_id: owned(driver_id), endpoint_id: owned(endpoint_id), sequence: 0 }
    }

    fn raw_value(&self, tag_id: &str, value: TagValueData, quality: QualityCode) -> (r:
        RawDriverValue)
        ensures
            r.tag_id@ == tag_id@,
            r.value == value,
            r.quality == quality,
            r.source_timestamp@ == "1970-01-01T00:00:00Z"@,
            r.driver_id@ == self.spec_driver_id(),
            r.endpoint_id@ == self.spec_endpoint_id(),
    {
        RawDriverValue {
            tag_id: owned(tag_id),
            value,
            quality,
            source_timestamp: owned("1970-01-01T00:00:00Z"),
            driver_id: self.driver_id.clone(),
            endpoint_id: self.endpoint_id.clone(),
        }
    }

    /// The next pair of simulated values: a temperature of `20 + n % 10` and a running flag
    /// that is set on even `n`, `n` counting the reads.
    pub fn next_values(&mut self) -> (v: Vec<RawDriverValue>)
        requires
            old(self).reads() < u64::MAX,
        ensures
            final(self).reads() == old(self).reads() + 1,
            final(self).spec_driver_id() == old(self).spec_driver_id(),
            final(self).spec_endpoint_id() == old(self).spec_endpoint_id(),
            v@.len() == 2,
            v@[0].tag_id@ == "mock.temperature.001"@,
            v@[0].value == TagValueData::Float(v@[0].value->Float_0),
            v@[0].value->Float_0@ == temperature_text(final(self).reads() as nat),
            v@[1].tag_id@ == "mock.running.001"@,
            v@[1].value == TagValueData::Boolean(final(self).reads() % 2 == 0),
            forall|i: int|
                0 <= i < 2 ==> {
                    &&& (#[trigger] v@[i]).quality == QualityCode::Simulated
                    &&& v@[i].source_timestamp@ == "1970-01-01T00:00:00Z"@
                    &&& v@[i].driver_id@ == final(self).spec_driver_id()
                    &&& v@[i].endpoint_id@ == final(self).spec_endpoint_id()
                },
    {
        self.sequence = self.sequence + 1;
        let mut t: Vec<char> = Vec::new();
        let n = u64_text(20 + self.sequence % 10);
        push_all(&mut t, n.as_slice());
        push_text(&mut t, ".0");
        assert(t@ =~= temperature_text(self.sequence as nat));
        let running = self.sequence % 2 == 0;
        let mut v: Vec<RawDriverValue> = Vec::new();
        v.push(
            self.raw_value(
                "mock.temperature.001",
                TagValueData::Float(string_of(t.as_slice())),
                QualityCode::Simulated,
            ),
        );
        v.push(
            self.raw_value("mock.running.001", TagValueData::Boolean(running), QualityCode::Simulated),
        );
        v
    }

    /// Accepts a write to a tag whose id begins with `mock.`, rejects any other.
    pub fn write(&self, request: &DriverWriteRequest) -> (r: DriverWriteResponse)
        ensures
            r.command_id@ == request.command_id@,
            r.accepted == has_prefix(request.tag_id@, "mock."@),
            !r.accepted ==> r.message@ == "unknown mock tag"@,
            r.accepted ==> r.message@ == "accepted"@,
    {
        let tag = chars_of(request.tag_id.as_str());
        let prefix = chars_of("mock.");
        if starts_with(tag.as_slice(), prefix.as_slice()) {
            DriverWriteResponse::accepted(request.command_id.as_str())
        } else {
            DriverWriteResponse::rejected(request.command_id.as_str(), "unknown mock tag")
        }
    }
}

/// The line the driver prints for a sampled value.
pub open spec fn sample_text(v: RawDriverValue) -> Seq<char> {
    "mock-driver sample tag_id="@ + v.tag_id@ + " data_type="@ + v.value.spec_data_type().name()
        + " quality="@ + v.quality.name()
}

/// The line the driver prints for a sampled value.
pub fn sample_line(value: &RawDriverValue) -> (r: String)
    ensures
        r@ == sample_text(*value),
{
    let mut out: Vec<char> = Vec::new();
    push_text(&mut out, "mock-driver sample tag_id=");
    push_text(&mut out, value.tag_id.as_str());
    push_text(&mut out, " data_type=");
    push_text(&mut out, value.value.data_type().as_str());
    push_text(&mut out, " quality=");
    push_text(&mut out, value.quality.as_str());
    string_of(out.as_slice())
}

} // verus!
