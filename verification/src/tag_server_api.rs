//! The tag server's request handling: routing, authorization, snapshots, driver values,
//! control commands and the operation log. Work that leaves the process (publishing to the
//! broker, posting a write to the driver manager) is handed back to the caller as a step,
//! and its outcome is taken in again to finish the reply.
use vstd::prelude::*;
use vstd::string::StrSliceExecFns;

use crate::command::{ControlCommand, ControlCommandStatus};
use crate::driver::{
    request_text_of, response_text_of, write_request_json, write_response_json, DriverWriteRequest,
    DriverWriteResponse,
};
use crate::http::{header_value, header_views, without_query, HeaderList};
use crate::json::{error_json, error_object, push_all, push_quoted, push_text, quoted};
use crate::json_doc::{
    array_elements, field_of, get_field, json_array_elements, json_object_fields,
    json_syntax_error, object_fields, pair_views, string_at, string_field_of, string_views,
    syntax_error,
};
use crate::minijson::{
    extract_json_string, extract_json_string_array, extract_json_u64,
    extract_json_value_as_string, scalar_field, string_array_field, string_field, u64_field,
};
use crate::operation_log::{logged, log_list_json, OperationLog, OperationLogEntry};
use crate::tag::{push_tag_value_json, QualityCode, TagValue, TagValueData};
use crate::tag_cache::{ingest_result, not_writable_message, InMemoryTagCache, WritePolicy};
use crate::tag_json::{tag_value_fault, tag_value_from_json_value, tag_value_read};
use crate::tag_server::{
    command_fields, command_json, command_text, control_command_to_json, json_type, reason_of,
    CommandFields, DriverManagerClientConfig, HttpRequest, HttpResponse, MqttPublishConfig,
};
use crate::text::{chars_of, decimal, owned, str_eq, string_of, u64_text};
use crate::tag_server::{driver_write_call_of, driver_write_outcome_of};

verus! {

/// Which handler a request reaches.
#[derive(Debug, Clone, Copy, PartialEq, Eq, Structural)]
pub enum Route {
    Health,
    Unauthorized,
    Snapshot,
    DriverValues,
    ControlCommand,
    OperationLogs,
    NotFound,
}

/// The request carries the required token, in `x-scada-token` or as a bearer token.
pub open spec fn authorized(token: Option<Seq<char>>, headers: HeaderList) -> bool {
    match token {
        None => true,
        Some(t) => header_value(headers, "x-scada-token"@) == Some(t) || header_value(
            headers,
            "authorization"@,
        ) == Some("Bearer "@ + t),
    }
}

/// The handler for a request: health needs no token, every other route does.
pub open spec fn route_of(token: Option<Seq<char>>, method: Seq<char>, path: Seq<char>, headers: HeaderList) -> Route {
    let p = without_query(path);
    if method == "GET"@ && p == "/health"@ {
        Route::Health
    } else if !authorized(token, headers) {
        Route::Unauthorized
    } else if method == "POST"@ && p == "/api/v1/tags/snapshot"@ {
        Route::Snapshot
    } else if method == "POST"@ && p == "/api/v1/driver-values"@ {
        Route::DriverValues
    } else if method == "POST"@ && p == "/api/v1/control-commands"@ {
        Route::ControlCommand
    } else if method == "GET"@ && p == "/api/v1/operation-logs"@ {
        Route::OperationLogs
    } else {
        Route::NotFound
    }
}

/// The body of the health reply.
pub open spec fn health_body() -> Seq<char> {
    "{\"service\":\"tag-server\",\"status\":\"healthy\"}"@
}

/// The items separated by commas.
pub open spec fn joined(items: Seq<Seq<char>>) -> Seq<char>
    decreases items.len(),
{
    if items.len() == 0 {
        seq![]
    } else if items.len() == 1 {
        items[0]
    } else {
        joined(items.drop_last()) + ","@ + items.last()
    }
}

/// The JSON objects of the cached values of `ids`, in order.
pub open spec fn snapshot_values(cache: Map<Seq<char>, TagValue>, ids: Seq<Seq<char>>) -> Seq<Seq<char>>
    decreases ids.len(),
{
    if ids.len() == 0 {
        seq![]
    } else {
        let rest = snapshot_values(cache, ids.drop_last());
        if cache.dom().contains(ids.last()) {
            rest.push(cache[ids.last()].json_text())
        } else {
            rest
        }
    }
}

/// The quoted ids of `ids` that have no cached value, in order.
pub open spec fn snapshot_missing(cache: Map<Seq<char>, TagValue>, ids: Seq<Seq<char>>) -> Seq<Seq<char>>
    decreases ids.len(),
{
    if ids.len() == 0 {
        seq![]
    } else {
        let rest = snapshot_missing(cache, ids.drop_last());
        if cache.dom().contains(ids.last()) {
            rest
        } else {
            rest.push(quoted(ids.last()))
        }
    }
}

/// Status and body of the reply to a snapshot request with `body`.
pub open spec fn snapshot_reply(cache: Map<Seq<char>, TagValue>, body: Seq<char>) -> (u16, Seq<char>) {
    match string_array_field(body, "tag_ids"@) {
        Err(e) => (400, error_object(e)),
        Ok(ids) => (
            200,
            "{\"values\":["@ + joined(snapshot_values(cache, ids)) + "],\"missing_tag_ids\":["@
                + joined(snapshot_missing(cache, ids)) + "]}"@,
        ),
    }
}

/// The handler state of the tag server.
#[derive(Debug)]
pub struct TagServerApi {
    cache: InMemoryTagCache,
    write_policy: WritePolicy,
    required_token: Option<String>,
    mqtt: Option<MqttPublishConfig>,
    driver_manager: Option<DriverManagerClientConfig>,
    operation_logs: OperationLog,
}

impl TagServerApi {
    /// The cached values, by tag id.
    pub closed spec fn cache_view(&self) -> Map<Seq<char>, TagValue> {
        self.cache.view()
    }

    /// The writable tags.
    pub closed spec fn writable(&self) -> Set<Seq<char>> {
        self.write_policy.view()
    }

    /// The token that requests must carry, if any.
    pub closed spec fn token(&self) -> Option<Seq<char>> {
        match self.required_token {
            Some(t) => Some(t@),
            None => None,
        }
    }

    /// The operation log, oldest first.
    pub closed spec fn logs(&self) -> Seq<OperationLogEntry> {
        self.operation_logs@
    }

    /// Accepted values are published to the broker.
    pub closed spec fn publishes(&self) -> bool {
        self.mqtt is Some
    }

    /// Validated writes are posted to the driver manager.
    pub closed spec fn posts_writes(&self) -> bool {
        self.driver_manager is Some
    }

    /// The broker settings that kept values are published with, if any.
    pub closed spec fn mqtt_settings(&self) -> Option<MqttPublishConfig> {
        self.mqtt
    }

    /// The base URL of the driver manager that validated writes are posted to, if any.
    pub closed spec fn driver_base_url(&self) -> Option<Seq<char>> {
        match self.driver_manager {
            Some(c) => Some(c.base_url@),
            None => None,
        }
    }

    pub fn new(cache: InMemoryTagCache, write_policy: WritePolicy) -> (api: TagServerApi)
        ensures
            api.cache_view() == cache.view(),
            api.writable() == write_policy.view(),
            api.token() is None,
            api.logs() == Seq::<OperationLogEntry>::empty(),
            !api.publishes(),
            !api.posts_writes(),
            api.driver_base_url() is None,
            api.mqtt_settings() is None,
    {
        TagServerApi {
            cache,
            write_policy,
            required_token: None,
            mqtt: None,
            driver_manager: None,
            operation_logs: OperationLog::new(),
        }
    }

    /// The requests must carry `token`, where it is given and not empty.
    pub fn with_required_token(self, token: Option<String>) -> (api: TagServerApi)
        ensures
            api.token() == match token {
                Some(t) => if t@.len() > 0 {
                    Some(t@)
                } else {
                    None
                },
                None => None,
            },
            api.cache_view() == self.cache_view(),
            api.writable() == self.writable(),
            api.logs() == self.logs(),
            api.publishes() == self.publishes(),
            api.posts_writes() == self.posts_writes(),
            api.driver_base_url() == self.driver_base_url(),
            api.mqtt_settings() == self.mqtt_settings(),
    {
        let mut api = self;
        api.required_token = match token {
            Some(t) => if t.as_str().unicode_len() > 0 {
                Some(t)
            } else {
                None
            },
            None => None,
        };
        api
    }

    /// Accepted values are published with `mqtt`, where it is given.
    pub fn with_mqtt_publish(self, mqtt: Option<MqttPublishConfig>) -> (api: TagServerApi)
        ensures
            api.publishes() == (mqtt is Some),
            api.cache_view() == self.cache_view(),
            api.writable() == self.writable(),
            api.token() == self.token(),
            api.logs() == self.logs(),
            api.posts_writes() == self.posts_writes(),
            api.driver_base_url() == self.driver_base_url(),
            api.mqtt_settings() == mqtt,
    {
        let mut api = self;
        api.mqtt = mqtt;
        api
    }

    /// Validated writes are posted to `driver_manager`, where it is given.
    pub fn with_driver_manager(self, driver_manager: Option<DriverManagerClientConfig>) -> (api: TagServerApi)
        ensures
            api.posts_writes() == (driver_manager is Some),
            api.driver_base_url() == match driver_manager {
                Some(c) => Some(c.base_url@),
                None => None,
            },
            api.cache_view() == self.cache_view(),
            api.writable() == self.writable(),
            api.token() == self.token(),
            api.logs() == self.logs(),
            api.publishes() == self.publishes(),
            api.mqtt_settings() == self.mqtt_settings(),
    {
        let mut api = self;
        api.driver_manager = driver_manager;
        api
    }

    /// The broker settings, where values are published.
    pub fn mqtt_publish(&self) -> (r: Option<&MqttPublishConfig>)
        ensures
            r is Some == self.publishes(),
            match r {
                Some(c) => self.mqtt_settings() == Some(*c),
                None => self.mqtt_settings() is None,
            },
    {
        self.mqtt.as_ref()
    }

    /// The driver manager settings, where writes are posted.
    pub fn driver_manager(&self) -> (r: Option<&DriverManagerClientConfig>)
        ensures
            r is Some == self.posts_writes(),
            match r {
                Some(c) => self.driver_base_url() == Some(c.base_url@),
                None => self.driver_base_url() is None,
            },
    {
        self.driver_manager.as_ref()
    }

    /// Whether `request` carries the required token.
    pub fn is_authorized(&self, request: &HttpRequest) -> (b: bool)
        ensures
            b == authorized(self.token(), header_views(request.headers@)),
    {
        proof {
            reveal_strlit("Bearer ");
        }
        let token = match &self.required_token {
            None => {
                return true;
            },
            Some(t) => t,
        };
        if let Some(v) = request.header("x-scada-token") {
            if str_eq(v, token.as_str()) {
                return true;
            }
        }
        match request.header("authorization") {
            Some(v) => {
                let mut expected: Vec<char> = Vec::new();
                push_text(&mut expected, "Bearer ");
                push_text(&mut expected, token.as_str());
                let got = chars_of(v);
                crate::text::chars_eq(got.as_slice(), expected.as_slice())
            },
            None => false,
        }
    }

    /// The handler that `request` reaches.
    pub fn route(&self, request: &HttpRequest) -> (r: Route)
        ensures
            r == route_of(self.token(), request.method@, request.path@, header_views(request.headers@)),
    {
        let p = request.path_without_query();
        let m = request.method.as_str();
        if str_eq(m, "GET") && str_eq(p, "/health") {
            return Route::Health;
        }
        if !self.is_authorized(request) {
            return Route::Unauthorized;
        }
        if str_eq(m, "POST") && str_eq(p, "/api/v1/tags/snapshot") {
            Route::Snapshot
        } else if str_eq(m, "POST") && str_eq(p, "/api/v1/driver-values") {
            Route::DriverValues
        } else if str_eq(m, "POST") && str_eq(p, "/api/v1/control-commands") {
            Route::ControlCommand
        } else if str_eq(m, "GET") && str_eq(p, "/api/v1/operation-logs") {
            Route::OperationLogs
        } else {
            Route::NotFound
        }
    }

    /// The reply to a snapshot request: the cached values of the requested tags and the
    /// ids of those without one.
    pub fn snapshot(&self, body: &str) -> (r: HttpResponse)
        ensures
            r.parts() == (
                snapshot_reply(self.cache_view(), body@).0,
                reason_of(snapshot_reply(self.cache_view(), body@).0),
                json_type(),
                snapshot_reply(self.cache_view(), body@).1,
            ),
    {
        let ids = match extract_json_string_array(body, "tag_ids") {
            Ok(ids) => ids,
            Err(e) => {
                return HttpResponse::json(400, error_json(e.as_str()));
            },
        };
        let ghost idv = string_views(ids@);
        let mut values: Vec<char> = Vec::new();
        let mut missing: Vec<char> = Vec::new();
        let mut found_count: usize = 0;
        let mut missing_count: usize = 0;
        let mut i: usize = 0;
        while i < ids.len()
            invariant
                i <= ids@.len(),
                idv == string_views(ids@),
                values@ == joined(snapshot_values(self.cache_view(), idv.take(i as int))),
                missing@ == joined(snapshot_missing(self.cache_view(), idv.take(i as int))),
                found_count == snapshot_values(self.cache_view(), idv.take(i as int)).len(),
                missing_count == snapshot_missing(self.cache_view(), idv.take(i as int)).len(),
                found_count + missing_count == i,
            decreases ids@.len() - i,
        {
            proof {
                reveal_strlit(",");
            }
            let ghost pre = idv.take(i as int);
            let ghost next = idv.take(i + 1);
            assert(next.drop_last() =~= pre);
            assert(next.last() == ids@[i as int]@);
            let ghost sv = snapshot_values(self.cache_view(), pre);
            let ghost sm = snapshot_missing(self.cache_view(), pre);
            match self.cache.get(ids[i].as_str()) {
                Some(v) => {
                    if found_count > 0 {
                        values.push(',');
                    }
                    found_count = found_count + 1;
                    let ghost mid = values@;
                    push_tag_value_json(&mut values, v);
                    proof {
                        let items = sv.push(v.json_text());
                        assert(items.drop_last() =~= sv);
                        if sv.len() > 0 {
                            assert(values@ =~= joined(sv) + ","@ + v.json_text());
                        } else {
                            assert(values@ =~= items[0]);
                        }
                    }
                },
                None => {
                    if missing_count > 0 {
                        missing.push(',');
                    }
                    missing_count = missing_count + 1;
                    let t = chars_of(ids[i].as_str());
                    push_quoted(&mut missing, t.as_slice());
                    proof {
                        let items = sm.push(quoted(ids@[i as int]@));
                        assert(items.drop_last() =~= sm);
                        if sm.len() > 0 {
                            assert(missing@ =~= joined(sm) + ","@ + quoted(ids@[i as int]@));
                        } else {
                            assert(missing@ =~= items[0]);
                        }
                    }
                },
            }
            i = i + 1;
        }
        assert(idv.take(ids@.len() as int) =~= idv);
        let mut out: Vec<char> = Vec::new();
        push_text(&mut out, "{\"values\":[");
        push_all(&mut out, values.as_slice());
        push_text(&mut out, "],\"missing_tag_ids\":[");
        push_all(&mut out, missing.as_slice());
        push_text(&mut out, "]}");
        HttpResponse::json(200, string_of(out.as_slice()))
    }
}

/// The project id and the element texts of the values array of a driver values body, or
/// why the body is refused.
pub open spec fn driver_values_of(body: Seq<char>) -> Result<(Seq<char>, Seq<Seq<char>>), Seq<char>> {
    match json_syntax_error(body) {
        Some(m) => Err("invalid JSON body: "@ + m),
        None => {
            let fields = match json_object_fields(body) {
                Some(f) => f,
                None => seq![],
            };
            match string_at(fields, "project_id"@) {
                None => Err("missing or invalid project_id"@),
                Some(p) => if p.len() == 0 {
                    Err("missing or invalid project_id"@)
                } else {
                    match field_of(fields, "values"@) {
                        None => Err("missing or invalid values"@),
                        Some(t) => match json_array_elements(t) {
                            None => Err("missing or invalid values"@),
                            Some(els) => Ok((p, els)),
                        },
                    }
                },
            }
        },
    }
}

/// Why the element text `t` is not a tag value, if it is not.
pub open spec fn element_fault(t: Seq<char>) -> Option<Seq<char>> {
    match json_object_fields(t) {
        None => Some("tag value must be a JSON object"@),
        Some(f) => tag_value_fault(f),
    }
}

/// The fault of the first element that is not a tag value.
pub open spec fn first_fault(els: Seq<Seq<char>>) -> Option<Seq<char>>
    decreases els.len(),
{
    if els.len() == 0 {
        None
    } else {
        match first_fault(els.drop_last()) {
            Some(m) => Some(m),
            None => element_fault(els.last()),
        }
    }
}

/// `v` is the tag value that the element text `t` describes.
pub open spec fn element_read(t: Seq<char>, v: TagValue) -> bool {
    &&& json_object_fields(t) is Some
    &&& tag_value_fault(json_object_fields(t)->0) is None
    &&& tag_value_read(json_object_fields(t)->0, v)
}

/// `vs` are the tag values that the element texts `els` describe, in order.
pub open spec fn values_read(els: Seq<Seq<char>>, vs: Seq<TagValue>) -> bool {
    &&& vs.len() == els.len()
    &&& forall|i: int| 0 <= i < els.len() ==> element_read(#[trigger] els[i], vs[i])
}

/// The cache after ingesting `vs` in order, and the values it kept.
pub open spec fn ingest_all(m: Map<Seq<char>, TagValue>, vs: Seq<TagValue>) -> (Map<Seq<char>, TagValue>, Seq<TagValue>)
    decreases vs.len(),
{
    if vs.len() == 0 {
        (m, seq![])
    } else {
        let (m1, kept) = ingest_all(m, vs.drop_last());
        let v = vs.last();
        if !m1.dom().contains(v.tag_id@) || v.sequence > m1[v.tag_id@].sequence {
            (m1.insert(v.tag_id@, v), kept.push(v))
        } else {
            (m1, kept)
        }
    }
}

/// `{"received":…,"ingested":…,"stale":…,"published":…`, the object left open.
pub open spec fn counts_head(received: nat, ingested: nat, stale: nat, published: nat) -> Seq<char> {
    "{\"received\":"@ + decimal(received) + ",\"ingested\":"@ + decimal(ingested) + ",\"stale\":"@
        + decimal(stale) + ",\"published\":"@ + decimal(published)
}

/// How many of the publish results succeeded.
pub open spec fn published_count(results: Seq<Option<Seq<char>>>) -> nat
    decreases results.len(),
{
    if results.len() == 0 {
        0
    } else {
        published_count(results.drop_last()) + if results.last() is None {
            1nat
        } else {
            0nat
        }
    }
}

/// The quoted messages of the publish results that failed, in order.
pub open spec fn publish_errors(results: Seq<Option<Seq<char>>>) -> Seq<Seq<char>>
    decreases results.len(),
{
    if results.len() == 0 {
        seq![]
    } else {
        let rest = publish_errors(results.drop_last());
        match results.last() {
            Some(m) => rest.push(quoted(m)),
            None => rest,
        }
    }
}

/// Status and body of the reply to accepted driver values, given how each publish went.
pub open spec fn publish_reply_of(received: nat, ingested: nat, stale: nat, results: Seq<Option<Seq<char>>>) -> (u16, Seq<char>) {
    let head = counts_head(received, ingested, stale, published_count(results));
    if publish_errors(results).len() == 0 {
        (202, head + "}"@)
    } else {
        (502, head + ",\"publish_errors\":["@ + joined(publish_errors(results)) + "]}"@)
    }
}

/// Driver values that were ingested, waiting for their publishing.
#[derive(Debug)]
pub struct PendingPublish {
    pub project_id: String,
    pub values: Vec<TagValue>,
    pub received: usize,
    pub ingested: usize,
    pub stale: usize,
}

fn read_driver_values(body: &str) -> (r: Result<(String, Vec<String>), String>)
    ensures
        match r {
            Ok((p, els)) => driver_values_of(body@) == Ok::<(Seq<char>, Seq<Seq<char>>), Seq<char>>(
                (p@, string_views(els@)),
            ),
            Err(e) => driver_values_of(body@) == Err::<(Seq<char>, Seq<Seq<char>>), Seq<char>>(e@),
        },
{
    proof {
        reveal_strlit("project_id");
        reveal_strlit("values");
    }
    if let Some(m) = syntax_error(body) {
        let mut out: Vec<char> = Vec::new();
        push_text(&mut out, "invalid JSON body: ");
        push_text(&mut out, m.as_str());
        return Err(string_of(out.as_slice()));
    }
    let fields = match object_fields(body) {
        Some(f) => f,
        None => Vec::new(),
    };
    assert(pair_views(fields@) == match json_object_fields(body@) {
        Some(f) => f,
        None => Seq::<(Seq<char>, Seq<char>)>::empty(),
    }) by {
        if json_object_fields(body@) is None {
            assert(pair_views(fields@) =~= Seq::<(Seq<char>, Seq<char>)>::empty());
        }
    }
    let project_id = match string_field_of(&fields, "project_id") {
        Some(p) => p,
        None => {
            return Err(owned("missing or invalid project_id"));
        },
    };
    if project_id.as_str().unicode_len() == 0 {
        return Err(owned("missing or invalid project_id"));
    }
    let t = match get_field(&fields, "values") {
        Some(t) => t,
        None => {
            return Err(owned("missing or invalid values"));
        },
    };
    match array_elements(t.as_str()) {
        Some(els) => Ok((project_id, els)),
        None => Err(owned("missing or invalid values")),
    }
}

proof fn lemma_first_fault_prefix(els: Seq<Seq<char>>, n: int)
    requires
        0 <= n <= els.len(),
        first_fault(els.take(n)) is Some,
    ensures
        first_fault(els) == first_fault(els.take(n)),
    decreases els.len() - n,
{
    if n < els.len() {
        let m = els.take(n + 1);
        assert(m.drop_last() =~= els.take(n));
        assert(first_fault(m) == first_fault(els.take(n)));
        assert(els.take(n + 1) =~= m);
        lemma_first_fault_prefix(els, n + 1);
    } else {
        assert(els.take(n) =~= els);
    }
}

fn read_tag_values(els: &Vec<String>) -> (r: Result<Vec<TagValue>, String>)
    ensures
        match r {
            Ok(vs) => first_fault(string_views(els@)) is None && values_read(string_views(els@), vs@),
            Err(e) => first_fault(string_views(els@)) == Some(e@),
        },
{
    let ghost ev = string_views(els@);
    let mut vs: Vec<TagValue> = Vec::new();
    let mut i: usize = 0;
    while i < els.len()
        invariant
            i <= els@.len(),
            ev == string_views(els@),
            first_fault(ev.take(i as int)) is None,
            values_read(ev.take(i as int), vs@),
        decreases els@.len() - i,
    {
        let ghost next = ev.take(i + 1);
        assert(next.drop_last() =~= ev.take(i as int));
        assert(next.last() == els@[i as int]@);
        match tag_value_from_json_value(els[i].as_str()) {
            Ok(v) => {
                let ghost before = vs@;
                vs.push(v);
                assert forall|j: int| 0 <= j < next.len() implies element_read(#[trigger] next[j], vs@[j]) by {
                    if j < i {
                        assert(next[j] == ev.take(i as int)[j]);
                        assert(vs@[j] == before[j]);
                    }
                }
            },
            Err(e) => {
                proof {
                    assert(element_fault(next.last()) == Some(e@));
                    lemma_first_fault_prefix(ev, i + 1);
                }
                return Err(e);
            },
        }
        i = i + 1;
    }
    assert(ev.take(els@.len() as int) =~= ev);
    Ok(vs)
}

impl TagServerApi {
    /// Ingests `values` in order; the values it kept come back, in order.
    fn ingest_values(&mut self, values: Vec<TagValue>) -> (kept: Vec<TagValue>)
        ensures
            (final(self).cache_view(), kept@) == ingest_all(old(self).cache_view(), values@),
            final(self).writable() == old(self).writable(),
            final(self).token() == old(self).token(),
            final(self).logs() == old(self).logs(),
            final(self).publishes() == old(self).publishes(),
            final(self).posts_writes() == old(self).posts_writes(),
            final(self).driver_base_url() == old(self).driver_base_url(),
            final(self).mqtt_settings() == old(self).mqtt_settings(),
    {
        let mut kept: Vec<TagValue> = Vec::new();
        let mut i: usize = 0;
        let ghost start = self.cache_view();
        while i < values.len()
            invariant
                i <= values@.len(),
                (self.cache_view(), kept@) == ingest_all(start, values@.take(i as int)),
                self.writable() == old(self).writable(),
                self.token() == old(self).token(),
                self.logs() == old(self).logs(),
                self.publishes() == old(self).publishes(),
                self.posts_writes() == old(self).posts_writes(),
                self.driver_base_url() == old(self).driver_base_url(),
                self.mqtt_settings() == old(self).mqtt_settings(),
            decreases values@.len() - i,
        {
            let ghost next = values@.take(i + 1);
            assert(next.drop_last() =~= values@.take(i as int));
            let v = values[i].copied();
            let accepted = self.cache.ingest(v);
            if accepted {
                kept.push(values[i].copied());
            }
            i = i + 1;
        }
        assert(values@.take(values@.len() as int) =~= values@);
        kept
    }
}

/// The two states hold the same cache, policy, token, log and settings.
pub open spec fn same_state(a: TagServerApi, b: TagServerApi) -> bool {
    &&& a.cache_view() == b.cache_view()
    &&& a.writable() == b.writable()
    &&& a.token() == b.token()
    &&& a.logs() == b.logs()
    &&& a.publishes() == b.publishes()
    &&& a.posts_writes() == b.posts_writes()
    &&& a.driver_base_url() == b.driver_base_url()
    &&& a.mqtt_settings() == b.mqtt_settings()
}

/// A JSON reply with `status` and `body`.
pub open spec fn json_reply(r: HttpResponse, status: u16, body: Seq<char>) -> bool {
    r.parts() == (status, reason_of(status), json_type(), body)
}

/// What ingesting a driver values body does, up to the publishing of the kept values:
/// a refused body leaves the state as it was with a 400 reply; otherwise the values are
/// ingested in order and the kept ones wait for publishing.
pub open spec fn driver_values_done(
    before: TagServerApi,
    after: TagServerApi,
    body: Seq<char>,
    r: Result<PendingPublish, HttpResponse>,
) -> bool {
    match driver_values_of(body) {
        Err(e) => same_state(before, after) && (r matches Err(resp) && json_reply(resp, 400, error_object(e))),
        Ok((p, els)) => match first_fault(els) {
            Some(e) => same_state(before, after) && (r matches Err(resp) && json_reply(
                resp,
                400,
                error_object(e),
            )),
            None => r matches Ok(pending) && exists|vs: Seq<TagValue>|
                {
                    &&& values_read(els, vs)
                    &&& (after.cache_view(), pending.values@) == #[trigger] ingest_all(before.cache_view(), vs)
                    &&& pending.project_id@ == p
                    &&& pending.received == els.len()
                    &&& pending.ingested == pending.values@.len()
                    &&& pending.stale == pending.received - pending.ingested
                    &&& after.writable() == before.writable()
                    &&& after.token() == before.token()
                    &&& after.logs() == before.logs()
                    &&& after.publishes() == before.publishes()
                    &&& after.posts_writes() == before.posts_writes()
                    &&& after.driver_base_url() == before.driver_base_url()
                    &&& after.mqtt_settings() == before.mqtt_settings()
                },
        },
    }
}

proof fn lemma_ingest_all_len(m: Map<Seq<char>, TagValue>, vs: Seq<TagValue>)
    ensures
        ingest_all(m, vs).1.len() <= vs.len(),
    decreases vs.len(),
{
    if vs.len() > 0 {
        lemma_ingest_all_len(m, vs.drop_last());
    }
}

impl TagServerApi {
    /// Ingests the values of a driver values body; the kept values wait for publishing.
    pub fn accept_driver_values(&mut self, body: &str) -> (r: Result<PendingPublish, HttpResponse>)
        ensures
            driver_values_done(*old(self), *final(self), body@, r),
    {
        let (project_id, els) = match read_driver_values(body) {
            Ok(x) => x,
            Err(e) => {
                return Err(HttpResponse::json(400, error_json(e.as_str())));
            },
        };
        let values = match read_tag_values(&els) {
            Ok(vs) => vs,
            Err(e) => {
                return Err(HttpResponse::json(400, error_json(e.as_str())));
            },
        };
        let ghost vs = values@;
        let received = values.len();
        let kept = self.ingest_values(values);
        proof {
            lemma_ingest_all_len(old(self).cache_view(), vs);
        }
        let ingested = kept.len();
        let pending = PendingPublish {
            project_id,
            values: kept,
            received,
            ingested,
            stale: received - ingested,
        };
        assert(ingest_all(old(self).cache_view(), vs) == (self.cache_view(), pending.values@));
        Ok(pending)
    }
}

fn push_count(out: &mut Vec<char>, key: &str, n: usize)
    ensures
        final(out)@ == old(out)@ + key@ + decimal(n as nat),
{
    push_text(out, key);
    let t = u64_text(n as u64);
    push_all(out, t.as_slice());
}

/// The reply to ingested driver values, given how the publishing of each kept value went
/// (`None` where it succeeded): 502 with the errors where any failed, 202 otherwise.
pub fn publish_reply(pending: &PendingPublish, results: &Vec<Option<String>>) -> (r: HttpResponse)
    ensures
        json_reply(
            r,
            publish_reply_of(
                pending.received as nat,
                pending.ingested as nat,
                pending.stale as nat,
                results@.map_values(|o: Option<String>| match o {
                    Some(m) => Some(m@),
                    None => None,
                }),
            ).0,
            publish_reply_of(
                pending.received as nat,
                pending.ingested as nat,
                pending.stale as nat,
                results@.map_values(|o: Option<String>| match o {
                    Some(m) => Some(m@),
                    None => None,
                }),
            ).1,
        ),
{
    proof {
        reveal_strlit(",");
    }
    let ghost rv = results@.map_values(|o: Option<String>| match o {
        Some(m) => Some(m@),
        None => None,
    });
    let mut published: usize = 0;
    let mut errors: Vec<char> = Vec::new();
    let mut error_count: usize = 0;
    let mut i: usize = 0;
    while i < results.len()
        invariant
            i <= results@.len(),
            rv == results@.map_values(|o: Option<String>| match o {
                Some(m) => Some(m@),
                None => None,
            }),
            published == published_count(rv.take(i as int)),
            error_count == publish_errors(rv.take(i as int)).len(),
            errors@ == joined(publish_errors(rv.take(i as int))),
            published + error_count == i,
        decreases results@.len() - i,
    {
        proof {
            reveal_strlit(",");
        }
        let ghost pre = rv.take(i as int);
        let ghost next = rv.take(i + 1);
        assert(next.drop_last() =~= pre);
        assert(next.last() == rv[i as int]);
        let ghost pe = publish_errors(pre);
        match &results[i] {
            None => {
                published = published + 1;
            },
            Some(m) => {
                if error_count > 0 {
                    errors.push(',');
                }
                let t = chars_of(m.as_str());
                push_quoted(&mut errors, t.as_slice());
                error_count = error_count + 1;
                proof {
                    let items = pe.push(quoted(m@));
                    assert(items.drop_last() =~= pe);
                    if pe.len() > 0 {
                        assert(errors@ =~= joined(pe) + ","@ + quoted(m@));
                    } else {
                        assert(errors@ =~= items[0]);
                    }
                }
            },
        }
        i = i + 1;
    }
    assert(rv.take(results@.len() as int) =~= rv);
    let mut out: Vec<char> = Vec::new();
    push_count(&mut out, "{\"received\":", pending.received);
    push_count(&mut out, ",\"ingested\":", pending.ingested);
    push_count(&mut out, ",\"stale\":", pending.stale);
    push_count(&mut out, ",\"published\":", published);
    if error_count == 0 {
        push_text(&mut out, "}");
        assert(out@ =~= publish_reply_of(
            pending.received as nat,
            pending.ingested as nat,
            pending.stale as nat,
            rv,
        ).1);
        HttpResponse::json(202, string_of(out.as_slice()))
    } else {
        push_text(&mut out, ",\"publish_errors\":[");
        push_all(&mut out, errors.as_slice());
        push_text(&mut out, "]}");
        assert(out@ =~= publish_reply_of(
            pending.received as nat,
            pending.ingested as nat,
            pending.stale as nat,
            rv,
        ).1);
        HttpResponse::json(502, string_of(out.as_slice()))
    }
}

/// The topic and payload of each kept value, in order.
pub fn publish_messages(pending: &PendingPublish) -> (r: Vec<(String, String)>)
    ensures
        r@.len() == pending.values@.len(),
        forall|i: int|
            0 <= i < r@.len() ==> (#[trigger] r@[i]).0@ == crate::mqtt::topic4(
                pending.project_id@,
                "tag"@,
                pending.values@[i].tag_id@,
                "value"@,
            ) && r@[i].1@ == pending.values@[i].json_text(),
{
    let mut r: Vec<(String, String)> = Vec::new();
    let mut i: usize = 0;
    while i < pending.values.len()
        invariant
            i <= pending.values@.len(),
            r@.len() == i,
            forall|j: int|
                0 <= j < i ==> (#[trigger] r@[j]).0@ == crate::mqtt::topic4(
                    pending.project_id@,
                    "tag"@,
                    pending.values@[j].tag_id@,
                    "value"@,
                ) && r@[j].1@ == pending.values@[j].json_text(),
        decreases pending.values@.len() - i,
    {
        let v = &pending.values[i];
        let topic = crate::mqtt::tag_value_topic(pending.project_id.as_str(), v.tag_id.as_str());
        let payload = crate::tag::tag_value_to_json(v);
        r.push((topic, payload));
        i = i + 1;
    }
    r
}

/// The fields of a control command body, read in order, or the first that cannot be read.
pub open spec fn command_fields_of(body: Seq<char>) -> Result<CommandFields, Seq<char>> {
    match string_field(body, "command_id"@) {
        Err(e) => Err(e),
        Ok(id) => match string_field(body, "idempotency_key"@) {
            Err(e) => Err(e),
            Ok(key) => match string_field(body, "user_id"@) {
                Err(e) => Err(e),
                Ok(user) => match string_field(body, "tag_id"@) {
                    Err(e) => Err(e),
                    Ok(tag) => match scalar_field(body, "requested_value"@) {
                        Err(e) => Err(e),
                        Ok(value) => match string_field(body, "requested_at"@) {
                            Err(e) => Err(e),
                            Ok(at) => match u64_field(body, "timeout_ms"@) {
                                Err(e) => Err(e),
                                Ok(timeout) => Ok((id, key, user, tag, value, at, timeout)),
                            },
                        },
                    },
                },
            },
        },
    }
}

/// An operation log entry as its seven texts.
pub type LogParts = (Seq<char>, Seq<char>, Seq<char>, Seq<char>, Seq<char>, Seq<char>, Seq<char>);

/// The texts of a log entry: command, user, tag, value, request time, status, result.
pub open spec fn entry_parts(e: OperationLogEntry) -> LogParts {
    (e.command_id@, e.user_id@, e.tag_id@, e.requested_value@, e.requested_at@, e.status@, e.result@)
}

/// The log entry of a command with fields `f`, status name `status` and `result`.
pub open spec fn command_entry(f: CommandFields, status: Seq<char>, result: Seq<char>) -> LogParts {
    (f.0, f.2, f.3, f.4, f.5, status, result)
}

/// Status, body and log entry of a control command that goes no further than the write
/// policy: validated and accepted, or rejected.
pub open spec fn policy_reply(writable: Set<Seq<char>>, f: CommandFields) -> (u16, Seq<char>, LogParts) {
    if writable.contains(f.3) {
        (
            202,
            "{\"command\":"@ + command_text(f, ControlCommandStatus::Validated) + ",\"driver_request\":"@
                + request_text_of(f.0, f.3, f.4) + "}"@,
            command_entry(f, "Validated"@, "accepted"@),
        )
    } else {
        let m = not_writable_message(f.3);
        (
            409,
            "{\"error\":"@ + quoted(m) + ",\"command\":"@ + command_text(f, ControlCommandStatus::Rejected)
                + "}"@,
            command_entry(f, "Rejected"@, m),
        )
    }
}

/// Status, body and log entry once the driver manager's answer to a write is known: the
/// answer itself, or why there is none.
pub open spec fn write_reply(
    f: CommandFields,
    request: Seq<char>,
    outcome: Result<(Seq<char>, bool, Seq<char>), Seq<char>>,
) -> (u16, Seq<char>, LogParts) {
    match outcome {
        Ok((id, accepted, message)) => {
            let status = if accepted {
                ControlCommandStatus::DriverAck
            } else {
                ControlCommandStatus::Failed
            };
            (
                202,
                "{\"command\":"@ + command_text(f, status) + ",\"driver_request\":"@ + request
                    + ",\"driver_response\":"@ + response_text_of(id, accepted, message) + "}"@,
                command_entry(f, status.name(), if accepted {
                    "accepted"@
                } else {
                    message
                }),
            )
        },
        Err(e) => (
            502,
            "{\"error\":"@ + quoted(e) + ",\"command\":"@ + command_text(f, ControlCommandStatus::Failed)
                + ",\"driver_request\":"@ + request + "}"@,
            command_entry(f, "Failed"@, e),
        ),
    }
}

/// The view of a write's outcome.
pub open spec fn outcome_view(outcome: Result<DriverWriteResponse, String>) -> Result<(Seq<char>, bool, Seq<char>), Seq<char>> {
    match outcome {
        Ok(v) => Ok((v.command_id@, v.accepted, v.message@)),
        Err(e) => Err(e@),
    }
}

/// A validated command whose write waits to be posted to the driver manager.
#[derive(Debug)]
pub struct PendingWrite {
    pub command: ControlCommand,
    pub request: DriverWriteRequest,
}

/// `after` holds what `before` held, with `entry` recorded in its log.
pub open spec fn logged_state(before: TagServerApi, after: TagServerApi, entry: LogParts) -> bool {
    &&& after.logs().len() > 0
    &&& after.logs() == logged(before.logs(), after.logs().last())
    &&& entry_parts(after.logs().last()) == entry
    &&& after.cache_view() == before.cache_view()
    &&& after.writable() == before.writable()
    &&& after.token() == before.token()
    &&& after.publishes() == before.publishes()
    &&& after.posts_writes() == before.posts_writes()
    &&& after.driver_base_url() == before.driver_base_url()
    &&& after.mqtt_settings() == before.mqtt_settings()
}

/// What a control command body does, up to the posting of its write: a body that cannot be
/// read gets a 400 reply; a command the policy refuses, or accepts with no driver manager,
/// is logged and answered; one it accepts otherwise waits, `Sent`, for its write.
pub open spec fn control_done(
    before: TagServerApi,
    after: TagServerApi,
    body: Seq<char>,
    r: Result<PendingWrite, HttpResponse>,
) -> bool {
    match command_fields_of(body) {
        Err(e) => same_state(before, after) && (r matches Err(resp) && json_reply(resp, 400, error_object(e))),
        Ok(f) => if before.posts_writes() && before.writable().contains(f.3) {
            &&& same_state(before, after)
            &&& r matches Ok(pending)
            &&& command_fields(pending.command) == f
            &&& pending.command.status == ControlCommandStatus::Sent
            &&& write_request_json(pending.request) == request_text_of(f.0, f.3, f.4)
        } else {
            &&& r matches Err(resp)
            &&& json_reply(resp, policy_reply(before.writable(), f).0, policy_reply(before.writable(), f).1)
            &&& logged_state(before, after, policy_reply(before.writable(), f).2)
        },
    }
}

fn read_command_fields(body: &str) -> (r: Result<ControlCommand, String>)
    ensures
        match r {
            Ok(c) => command_fields_of(body@) == Ok::<CommandFields, Seq<char>>(command_fields(c))
                && c.status == ControlCommandStatus::Requested,
            Err(e) => command_fields_of(body@) == Err::<CommandFields, Seq<char>>(e@),
        },
{
    let command_id = match extract_json_string(body, "command_id") {
        Ok(v) => v,
        Err(e) => {
            return Err(e);
        },
    };
    let idempotency_key = match extract_json_string(body, "idempotency_key") {
        Ok(v) => v,
        Err(e) => {
            return Err(e);
        },
    };
    let user_id = match extract_json_string(body, "user_id") {
        Ok(v) => v,
        Err(e) => {
            return Err(e);
        },
    };
    let tag_id = match extract_json_string(body, "tag_id") {
        Ok(v) => v,
        Err(e) => {
            return Err(e);
        },
    };
    let requested_value = match extract_json_value_as_string(body, "requested_value") {
        Ok(v) => v,
        Err(e) => {
            return Err(e);
        },
    };
    let requested_at = match extract_json_string(body, "requested_at") {
        Ok(v) => v,
        Err(e) => {
            return Err(e);
        },
    };
    let timeout_ms = match extract_json_u64(body, "timeout_ms") {
        Ok(v) => v,
        Err(e) => {
            return Err(e);
        },
    };
    Ok(
        ControlCommand::requested(
            command_id.as_str(),
            idempotency_key.as_str(),
            user_id.as_str(),
            tag_id.as_str(),
            requested_value.as_str(),
            requested_at.as_str(),
            timeout_ms,
        ),
    )
}

fn entry_of(command: &ControlCommand, result: &str) -> (e: OperationLogEntry)
    ensures
        entry_parts(e) == command_entry(command_fields(*command), command.status.name(), result@),
{
    OperationLogEntry {
        command_id: command.command_id.clone(),
        user_id: command.user_id.clone(),
        tag_id: command.tag_id.clone(),
        requested_value: command.requested_value.clone(),
        requested_at: command.requested_at.clone(),
        status: owned(command.status.as_str()),
        result: owned(result),
    }
}

fn command_reply(prefix: &[char], command: &ControlCommand, middle: &str, tail: &[char]) -> (r: String)
    ensures
        r@ == prefix@ + command_json(*command) + middle@ + tail@ + "}"@,
{
    let mut out: Vec<char> = Vec::new();
    push_all(&mut out, prefix);
    let c = control_command_to_json(command);
    push_text(&mut out, c.as_str());
    push_text(&mut out, middle);
    push_all(&mut out, tail);
    push_text(&mut out, "}");
    string_of(out.as_slice())
}

fn error_prefix(message: &str) -> (r: Vec<char>)
    ensures
        r@ == "{\"error\":"@ + quoted(message@) + ",\"command\":"@,
{
    let mut out: Vec<char> = Vec::new();
    push_text(&mut out, "{\"error\":");
    let m = chars_of(message);
    push_quoted(&mut out, m.as_slice());
    push_text(&mut out, ",\"command\":");
    out
}

fn text_vec(s: &str) -> (r: Vec<char>)
    ensures
        r@ == s@,
{
    chars_of(s)
}

impl TagServerApi {
    fn record(&mut self, entry: OperationLogEntry)
        ensures
            final(self).logs() == logged(old(self).logs(), entry),
            final(self).cache_view() == old(self).cache_view(),
            final(self).writable() == old(self).writable(),
            final(self).token() == old(self).token(),
            final(self).publishes() == old(self).publishes(),
            final(self).posts_writes() == old(self).posts_writes(),
            final(self).driver_base_url() == old(self).driver_base_url(),
            final(self).mqtt_settings() == old(self).mqtt_settings(),
    {
        self.operation_logs.record(entry);
    }

    /// Reads a control command and puts it through the write policy.
    pub fn accept_control_command(&mut self, body: &str) -> (r: Result<PendingWrite, HttpResponse>)
        ensures
            control_done(*old(self), *final(self), body@, r),
    {
        let mut command = match read_command_fields(body) {
            Ok(c) => c,
            Err(e) => {
                return Err(HttpResponse::json(400, error_json(e.as_str())));
            },
        };
        let ghost f = command_fields(command);
        match self.write_policy.validate(&mut command) {
            Ok(request) => {
                assert(command_fields(command) == f);
                if self.driver_manager.is_some() {
                    command.transition_to(ControlCommandStatus::Sent);
                    assert(command_fields(command) == f);
                    return Ok(PendingWrite { command, request });
                }
                let entry = entry_of(&command, "accepted");
                self.record(entry);
                let req = crate::driver::driver_write_request_to_json(&request);
                let prefix = text_vec("{\"command\":");
                let tail = chars_of(req.as_str());
                let body_text = command_reply(prefix.as_slice(), &command, ",\"driver_request\":", tail.as_slice());
                proof {
                    reveal_strlit("");
                }
                assert(body_text@ =~= policy_reply(old(self).writable(), f).1);
                Err(HttpResponse::json(202, body_text))
            },
            Err(message) => {
                assert(command_fields(command) == f);
                let entry = entry_of(&command, message.as_str());
                self.record(entry);
                let prefix = error_prefix(message.as_str());
                let empty: Vec<char> = Vec::new();
                let body_text = command_reply(prefix.as_slice(), &command, "", empty.as_slice());
                proof {
                    reveal_strlit("");
                }
                assert(body_text@ =~= policy_reply(old(self).writable(), f).1);
                Err(HttpResponse::json(409, body_text))
            },
        }
    }

    /// Finishes a posted write with the driver manager's answer, or why there is none: the
    /// command is logged with its final status and the reply is built.
    pub fn finish_driver_write(&mut self, pending: PendingWrite, outcome: Result<DriverWriteResponse, String>) -> (r: HttpResponse)
        ensures
            ({
                let reply = write_reply(
                    command_fields(pending.command),
                    write_request_json(pending.request),
                    outcome_view(outcome),
                );
                json_reply(r, reply.0, reply.1) && logged_state(*old(self), *final(self), reply.2)
            }),
    {
        let ghost reply = write_reply(
            command_fields(pending.command),
            write_request_json(pending.request),
            outcome_view(outcome),
        );
        let mut command = pending.command;
        let ghost f = command_fields(command);
        let req = crate::driver::driver_write_request_to_json(&pending.request);
        match outcome {
            Ok(response) => {
                crate::driver_manager::apply_driver_write_response(&mut command, &response);
                assert(command_fields(command) == f);
                let entry = if response.accepted {
                    entry_of(&command, "accepted")
                } else {
                    entry_of(&command, response.message.as_str())
                };
                self.record(entry);
                let prefix = text_vec("{\"command\":");
                let mut tail = chars_of(req.as_str());
                crate::json::push_text(&mut tail, ",\"driver_response\":");
                let resp = crate::driver::driver_write_response_to_json(&response);
                crate::json::push_text(&mut tail, resp.as_str());
                let body_text = command_reply(prefix.as_slice(), &command, ",\"driver_request\":", tail.as_slice());
                assert(body_text@ =~= reply.1);
                assert(entry_parts(self.logs().last()) == reply.2);
                HttpResponse::json(202, body_text)
            },
            Err(error) => {
                command.transition_to(ControlCommandStatus::Failed);
                assert(command_fields(command) == f);
                let entry = entry_of(&command, error.as_str());
                self.record(entry);
                let prefix = error_prefix(error.as_str());
                let tail = chars_of(req.as_str());
                let body_text = command_reply(prefix.as_slice(), &command, ",\"driver_request\":", tail.as_slice());
                assert(body_text@ =~= reply.1);
                assert(entry_parts(self.logs().last()) == reply.2);
                HttpResponse::json(502, body_text)
            },
        }
    }

    /// `{"items":[…]}` with the logged commands newest first.
    pub fn operation_logs_reply(&self) -> (r: HttpResponse)
        ensures
            json_reply(r, 200, log_list_json(self.logs())),
    {
        HttpResponse::json(200, self.operation_logs.list_json())
    }
}

/// What handling a request leaves to be done.
#[derive(Debug)]
pub enum TagServerStep {
    /// The reply is ready.
    Reply(HttpResponse),
    /// Ingested values wait to be published; `publish_reply` then gives the reply.
    Publish(PendingPublish),
    /// A validated write waits to be posted; `finish_driver_write` then gives the reply.
    PostDriverWrite(PendingWrite),
}

/// What a request does to the tag server and what is left to do, by the route it reaches.
pub open spec fn step_done(before: TagServerApi, after: TagServerApi, request: HttpRequest, r: TagServerStep) -> bool {
    match route_of(before.token(), request.method@, request.path@, header_views(request.headers@)) {
        Route::Health => same_state(before, after) && (r matches TagServerStep::Reply(resp) && json_reply(
            resp,
            200,
            health_body(),
        )),
        Route::Unauthorized => same_state(before, after) && (r matches TagServerStep::Reply(resp)
            && json_reply(resp, 401, error_object("unauthorized"@))),
        Route::NotFound => same_state(before, after) && (r matches TagServerStep::Reply(resp) && json_reply(
            resp,
            404,
            error_object("not found"@),
        )),
        Route::OperationLogs => same_state(before, after) && (r matches TagServerStep::Reply(resp)
            && json_reply(resp, 200, log_list_json(before.logs()))),
        Route::Snapshot => same_state(before, after) && (r matches TagServerStep::Reply(resp) && json_reply(
            resp,
            snapshot_reply(before.cache_view(), request.body@).0,
            snapshot_reply(before.cache_view(), request.body@).1,
        )),
        Route::DriverValues => exists|res: Result<PendingPublish, HttpResponse>|
            #[trigger] driver_values_done(before, after, request.body@, res) && match res {
                Err(resp) => r == TagServerStep::Reply(resp),
                Ok(pending) => if before.publishes() {
                    r == TagServerStep::Publish(pending)
                } else {
                    r matches TagServerStep::Reply(resp) && json_reply(
                        resp,
                        202,
                        counts_head(pending.received as nat, pending.ingested as nat, pending.stale as nat, 0)
                            + "}"@,
                    )
                },
            },
        Route::ControlCommand => exists|res: Result<PendingWrite, HttpResponse>|
            #[trigger] control_done(before, after, request.body@, res) && match res {
                Err(resp) => r == TagServerStep::Reply(resp),
                Ok(pending) => r == TagServerStep::PostDriverWrite(pending),
            },
    }
}

/// The fixed settings of the phase-0 mock values.
pub open spec fn phase0_value(v: TagValue, tag_id: Seq<char>, json: Seq<char>) -> bool {
    &&& v.tag_id@ == tag_id
    &&& v.value.json_text() == json
    &&& v.quality == QualityCode::Simulated
    &&& v.source_timestamp@ == "1970-01-01T00:00:00Z"@
    &&& v.server_timestamp@ == "1970-01-01T00:00:00Z"@
    &&& v.sequence == 0
    &&& v.scan_interval_ms == 1000
    &&& v.stale_after_ms == 3000
    &&& v.driver_id@ == "mock-driver"@
    &&& v.endpoint_id@ == "mock-endpoint"@
    &&& v.read_status@ == "ok"@
    &&& v.write_status@ == "idle"@
}

fn phase0_tag_value(tag_id: &str, value: TagValueData) -> (v: TagValue)
    ensures
        phase0_value(v, tag_id@, value.json_text()),
        v.value == value,
{
    TagValue {
        tag_id: owned(tag_id),
        value,
        quality: QualityCode::Simulated,
        source_timestamp: owned("1970-01-01T00:00:00Z"),
        server_timestamp: owned("1970-01-01T00:00:00Z"),
        sequence: 0,
        scan_interval_ms: 1000,
        stale_after_ms: 3000,
        driver_id: owned("mock-driver"),
        endpoint_id: owned("mock-endpoint"),
        read_status: owned("ok"),
        write_status: owned("idle"),
    }
}

impl TagServerApi {
    /// The phase-0 tag server: a simulated temperature of 21.0 and a simulated running flag
    /// that is off, the flag being the one writable tag.
    pub fn phase0_mock() -> (api: TagServerApi)
        ensures
            api.cache_view().dom() == set!["mock.temperature.001"@, "mock.running.001"@],
            phase0_value(api.cache_view()["mock.temperature.001"@], "mock.temperature.001"@, "21.0"@),
            phase0_value(api.cache_view()["mock.running.001"@], "mock.running.001"@, "false"@),
            api.writable() == set!["mock.running.001"@],
            api.token() is None,
            api.logs() == Seq::<OperationLogEntry>::empty(),
            !api.publishes(),
            !api.posts_writes(),
    {
        proof {
            reveal_strlit("mock.temperature.001");
            reveal_strlit("mock.running.001");
            reveal_strlit("21.0");
            reveal_strlit("false");
        }
        let mut cache = InMemoryTagCache::new();
        let temperature = phase0_tag_value("mock.temperature.001", TagValueData::Float(owned("21.0")));
        cache.ingest(temperature);
        let running = phase0_tag_value("mock.running.001", TagValueData::Boolean(false));
        assert(running.value.json_text() == "false"@);
        assert(cache.view().dom() =~= set!["mock.temperature.001"@]);
        assert("mock.temperature.001"@.len() != "mock.running.001"@.len());
        assert(!cache.view().dom().contains("mock.running.001"@));
        let ghost kept = running;
        cache.ingest(running);
        assert(cache.view()["mock.running.001"@] == kept);
        assert(cache.view().dom() =~= set!["mock.temperature.001"@, "mock.running.001"@]);
        let policy = WritePolicy::new().allow_tag("mock.running.001");
        assert(policy.view() =~= set!["mock.running.001"@]);
        TagServerApi::new(cache, policy)
    }

    /// Handles a request as far as it can without leaving the process.
    pub fn step(&mut self, request: &HttpRequest) -> (r: TagServerStep)
        ensures
            step_done(*old(self), *final(self), *request, r),
            final(self).mqtt_settings() == old(self).mqtt_settings(),
    {
        proof {
            reveal_strlit("unauthorized");
            reveal_strlit("not found");
        }
        match self.route(request) {
            Route::Health => TagServerStep::Reply(
                HttpResponse::json(200, owned("{\"service\":\"tag-server\",\"status\":\"healthy\"}")),
            ),
            Route::Unauthorized => TagServerStep::Reply(HttpResponse::json(401, error_json("unauthorized"))),
            Route::NotFound => TagServerStep::Reply(HttpResponse::json(404, error_json("not found"))),
            Route::OperationLogs => TagServerStep::Reply(self.operation_logs_reply()),
            Route::Snapshot => TagServerStep::Reply(self.snapshot(request.body.as_str())),
            Route::DriverValues => {
                let res = self.accept_driver_values(request.body.as_str());
                match res {
                    Err(resp) => TagServerStep::Reply(resp),
                    Ok(pending) => {
                        if self.mqtt.is_some() {
                            TagServerStep::Publish(pending)
                        } else {
                            let none: Vec<Option<String>> = Vec::new();
                            let resp = publish_reply(&pending, &none);
                            proof {
                                let rv = none@.map_values(|o: Option<String>| match o {
                                    Some(m) => Some(m@),
                                    None => None,
                                });
                                assert(rv =~= Seq::<Option<Seq<char>>>::empty());
                                assert(published_count(rv) == 0);
                                assert(publish_errors(rv).len() == 0);
                            }
                            TagServerStep::Reply(resp)
                        }
                    },
                }
            },
            Route::ControlCommand => {
                let res = self.accept_control_command(request.body.as_str());
                match res {
                    Err(resp) => TagServerStep::Reply(resp),
                    Ok(pending) => TagServerStep::PostDriverWrite(pending),
                }
            },
        }
    }

    /// Handles a request of a tag server that neither publishes nor posts writes.
    pub fn handle(&mut self, request: &HttpRequest) -> (r: HttpResponse)
        requires
            !old(self).publishes(),
            !old(self).posts_writes(),
        ensures
            step_done(*old(self), *final(self), *request, TagServerStep::Reply(r)),
            final(self).mqtt_settings() == old(self).mqtt_settings(),
    {
        match self.step(request) {
            TagServerStep::Reply(r) => r,
            TagServerStep::Publish(pending) => {
                proof {
                    assert(false);
                }
                publish_reply(&pending, &Vec::new())
            },
            TagServerStep::PostDriverWrite(pending) => {
                proof {
                    assert(false);
                }
                HttpResponse::json(502, error_json("driver manager is not configured"))
            },
        }
    }
}

/// Where a token is required, a request that does not carry it is refused with 401 and
/// changes nothing, whatever it asks, unless it asks for health.
pub proof fn requests_without_the_token_change_nothing(
    before: TagServerApi,
    after: TagServerApi,
    request: HttpRequest,
    r: TagServerStep,
)
    requires
        step_done(before, after, request, r),
        !authorized(before.token(), header_views(request.headers@)),
        !(request.method@ == "GET"@ && without_query(request.path@) == "/health"@),
    ensures
        same_state(before, after),
        r matches TagServerStep::Reply(resp) && json_reply(resp, 401, error_object("unauthorized"@)),
{
}

/// Why posting a driver write failed on the way: the connection, the sending of the
/// request or the reading of the reply, each with the transport's own message.
#[derive(Debug, Clone, PartialEq, Eq)]
pub enum DriverPostError {
    Connect(String),
    Write(String),
    Read(String),
}

/// What the tag server needs from outside: a message published on the broker, and the raw
/// reply of the driver manager to a write. Nothing is assumed of what comes back.
pub trait TagServerIo {
    fn publish(&self, config: &MqttPublishConfig, topic: &str, payload: &str) -> Result<(), String>;

    fn post_driver_write(&self, call: &crate::tag_server::DriverWriteCall) -> Result<String, DriverPostError>;
}

/// The message for a driver write that failed on the way to the driver manager at
/// `host:port`.
pub open spec fn post_error_text(host: Seq<char>, port: u16, e: DriverPostError) -> Seq<char> {
    match e {
        DriverPostError::Connect(m) => "connect driver manager "@ + host + ":"@ + decimal(port as nat) + ": "@ + m@,
        DriverPostError::Write(m) => "write driver manager request: "@ + m@,
        DriverPostError::Read(m) => "read driver manager response: "@ + m@,
    }
}

fn post_error_message(call: &crate::tag_server::DriverWriteCall, e: DriverPostError) -> (r: String)
    ensures
        r@ == post_error_text(call.host@, call.port, e),
{
    let mut out: Vec<char> = Vec::new();
    match e {
        DriverPostError::Connect(m) => {
            push_text(&mut out, "connect driver manager ");
            push_text(&mut out, call.host.as_str());
            push_text(&mut out, ":");
            let t = u64_text(call.port as u64);
            push_all(&mut out, t.as_slice());
            push_text(&mut out, ": ");
            push_text(&mut out, m.as_str());
        },
        DriverPostError::Write(m) => {
            push_text(&mut out, "write driver manager request: ");
            push_text(&mut out, m.as_str());
        },
        DriverPostError::Read(m) => {
            push_text(&mut out, "read driver manager response: ");
            push_text(&mut out, m.as_str());
        },
    }
    string_of(out.as_slice())
}

/// The reply to values published with `results`, one per value (`None` where the value
/// went out, else why it did not).
pub open spec fn publish_done(p: PendingPublish, r: HttpResponse, results: Seq<Option<Seq<char>>>) -> bool {
    json_reply(
        r,
        publish_reply_of(p.received as nat, p.ingested as nat, p.stale as nat, results).0,
        publish_reply_of(p.received as nat, p.ingested as nat, p.stale as nat, results).1,
    )
}

/// What a post to the driver manager at `host:port` can come to: the answer read from some
/// reply, or the failure of the post on the way.
pub open spec fn posted_outcome(host: Seq<char>, port: u16, o: Result<(Seq<char>, bool, Seq<char>), Seq<char>>) -> bool {
    ||| exists|raw: Seq<char>| o == #[trigger] driver_write_outcome_of(raw)
    ||| exists|e: DriverPostError| o == Err::<(Seq<char>, bool, Seq<char>), Seq<char>>(#[trigger] post_error_text(host, port, e))
}

/// What a write posted to the driver manager at `base_url` can come to: with no driver
/// manager, that error; with a URL that gives no call, why; otherwise the driver manager's
/// answer read from some reply, or the failure of the post on the way.
pub open spec fn write_outcome(
    base_url: Option<Seq<char>>,
    request: DriverWriteRequest,
    o: Result<(Seq<char>, bool, Seq<char>), Seq<char>>,
) -> bool {
    match base_url {
        None => o == Err::<(Seq<char>, bool, Seq<char>), Seq<char>>("driver manager is not configured"@),
        Some(u) => match driver_write_call_of(u, request) {
            Err(e) => o == Err::<(Seq<char>, bool, Seq<char>), Seq<char>>(e),
            Ok(call) => posted_outcome(call.0, call.1, o),
        },
    }
}

/// The reply and the log after a driver write with outcome `o`.
pub open spec fn write_done(mid: TagServerApi, after: TagServerApi, p: PendingWrite, o: Result<(Seq<char>, bool, Seq<char>), Seq<char>>, r: HttpResponse) -> bool {
    let reply = write_reply(command_fields(p.command), write_request_json(p.request), o);
    json_reply(r, reply.0, reply.1) && logged_state(mid, after, reply.2)
}

/// The reply and the state once what a step left to do is done: ingested values are
/// published one by one where the server publishes (one result per kept value, in order,
/// none otherwise), and a validated write is posted to the configured driver manager.
pub open spec fn finished(mid: TagServerApi, after: TagServerApi, s: TagServerStep, r: HttpResponse) -> bool {
    match s {
        TagServerStep::Reply(resp) => r == resp && same_state(mid, after),
        TagServerStep::Publish(p) => same_state(mid, after) && exists|results: Seq<Option<Seq<char>>>|
            #[trigger] publish_done(p, r, results) && results.len() == if mid.publishes() {
                p.values@.len()
            } else {
                0
            },
        TagServerStep::PostDriverWrite(p) => exists|o: Result<(Seq<char>, bool, Seq<char>), Seq<char>>|
            #[trigger] write_done(mid, after, p, o, r) && write_outcome(mid.driver_base_url(), p.request, o),
    }
}

/// Publishes each kept value with `config`, where there is one: one result per value, in
/// order (`None` where it went out, else why not); none without a broker.
fn publish_all<I: TagServerIo>(config: Option<&MqttPublishConfig>, pending: &PendingPublish, io: &I) -> (results: Vec<Option<String>>)
    ensures
        results@.len() == if config is Some {
            pending.values@.len()
        } else {
            0
        },
{
    let messages = publish_messages(pending);
    let mut results: Vec<Option<String>> = Vec::new();
    if let Some(config) = config {
        let mut i: usize = 0;
        while i < messages.len()
            invariant
                i <= messages@.len(),
                results@.len() == i,
            decreases messages@.len() - i,
        {
            let outcome = io.publish(config, messages[i].0.as_str(), messages[i].1.as_str());
            match outcome {
                Ok(_) => results.push(None),
                Err(e) => results.push(Some(e)),
            }
            i = i + 1;
        }
    }
    results
}

/// Posts a validated write to the driver manager of `config`, where there is one, and
/// reads its answer.
fn post_write<I: TagServerIo>(config: Option<&DriverManagerClientConfig>, request: &DriverWriteRequest, io: &I) -> (outcome: Result<DriverWriteResponse, String>)
    ensures
        write_outcome(
            match config {
                Some(c) => Some(c.base_url@),
                None => None,
            },
            *request,
            outcome_view(outcome),
        ),
{
    match config {
        None => {
            proof {
                reveal_strlit("driver manager is not configured");
            }
            Err(owned("driver manager is not configured"))
        },
        Some(config) => match crate::tag_server::driver_write_call(config, request) {
            Err(e) => {
                proof {
                    assert(write_outcome(Some(config.base_url@), *request, outcome_view(Err(e))));
                }
                Err(e)
            },
            Ok(call) => match io.post_driver_write(&call) {
                Err(e) => {
                    let m = post_error_message(&call, e);
                    proof {
                        assert(outcome_view(Err(m)) == Err::<(Seq<char>, bool, Seq<char>), Seq<char>>(
                            post_error_text(call.host@, call.port, e),
                        ));
                        assert(posted_outcome(call.host@, call.port, outcome_view(Err(m))));
                        assert(write_outcome(Some(config.base_url@), *request, outcome_view(Err(m))));
                    }
                    Err(m)
                },
                Ok(raw) => {
                    let out = crate::tag_server::driver_write_outcome(raw.as_str());
                    proof {
                        assert(outcome_view(out) == driver_write_outcome_of(raw@));
                        assert(write_outcome(Some(config.base_url@), *request, outcome_view(out)));
                    }
                    out
                },
            },
        },
    }
}

impl TagServerApi {
    /// Answers a request, publishing ingested values and posting validated writes through
    /// `io` where the server is configured to.
    pub fn handle_with<I: TagServerIo>(&mut self, request: &HttpRequest, io: &I) -> (r: HttpResponse)
        ensures
            exists|s: TagServerStep, mid: TagServerApi|
                #[trigger] step_done(*old(self), mid, *request, s) && finished(mid, *final(self), s, r),
            final(self).mqtt_settings() == old(self).mqtt_settings(),
    {
        let s = self.step(request);
        let ghost mid = *self;
        let ghost sv = s;
        match s {
            TagServerStep::Reply(resp) => resp,
            TagServerStep::Publish(pending) => {
                let results = publish_all(self.mqtt_publish(), &pending, io);
                let r = publish_reply(&pending, &results);
                let ghost rv = results@.map_values(|o: Option<String>| match o {
                    Some(m) => Some(m@),
                    None => None,
                });
                assert(publish_done(pending, r, rv));
                r
            },
            TagServerStep::PostDriverWrite(pending) => {
                let outcome = post_write(self.driver_manager(), &pending.request, io);
                let ghost o = outcome_view(outcome);
                let ghost p = pending;
                assert(write_outcome(mid.driver_base_url(), p.request, o));
                let r = self.finish_driver_write(pending, outcome);
                assert(write_done(mid, *self, p, o, r));
                r
            },
        }
    }
}

} // verus!
