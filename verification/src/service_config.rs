//! The service configuration file of the desktop shell: its entries, the checks made on
//! it once it is read, and how its entries change the default start plans.
use vstd::prelude::*;

use crate::json_doc::{pair_views, string_views};
use crate::mqtt::{spec_parse_endpoint, MqttBrokerEndpoint};
use crate::service::{LocalRuntimeConfig, LocalServiceSpec};
use crate::shell::{
    default_plan, joined_path, plan_views, service_start_plan, PlanView, ServiceStartPlan,
};
use crate::shell_cli::{
    apply_shared_mqtt_url, arg_value, arg_value_of, copy_pairs, copy_strings, has_flag,
    SERVICE_CONFIG_SCHEMA_VERSION,
};
use crate::text::{owned, push_str, str_eq};

verus! {

/// One entry of the `services` list: the service it names and what it sets.
pub struct ServiceEntry {
    pub service: String,
    pub binary_path: Option<String>,
    pub args: Vec<String>,
    pub envs: Vec<(String, String)>,
    pub restart_on_exit: Option<bool>,
    pub restart_max_attempts: Option<u32>,
    pub restart_backoff_ms: Option<u64>,
    pub restart_reset_after_ms: Option<u64>,
}

/// A service configuration file, as read.
pub struct ServicePlanFile {
    pub schema_version: String,
    pub mqtt_url: Option<String>,
    pub services: Vec<ServiceEntry>,
}

/// The view of an optional string.
pub open spec fn opt_view(o: Option<String>) -> Option<Seq<char>> {
    match o {
        Some(s) => Some(s@),
        None => None,
    }
}

/// The check of a file's broker URL: it must parse as a broker endpoint where it is given.
pub open spec fn validation(mqtt_url: Option<Seq<char>>, path: Seq<char>) -> Result<(), Seq<char>> {
    match mqtt_url {
        Some(u) => match spec_parse_endpoint(u) {
            Ok(_) => Ok(()),
            Err(e) => Err("invalid mqtt_url in "@ + path + ": "@ + e),
        },
        None => Ok(()),
    }
}

/// Checks the broker URL of a file read from `path`.
pub fn validate_service_plan_file(config: &ServicePlanFile, path: &str) -> (r: Result<(), String>)
    ensures
        match r {
            Ok(_) => validation(opt_view(config.mqtt_url), path@) == Ok::<(), Seq<char>>(()),
            Err(e) => validation(opt_view(config.mqtt_url), path@) == Err::<(), Seq<char>>(e@),
        },
{
    match &config.mqtt_url {
        None => Ok(()),
        Some(u) => match MqttBrokerEndpoint::parse(u.as_str()) {
            Ok(_) => Ok(()),
            Err(e) => {
                let mut m = owned("invalid mqtt_url in ");
                push_str(&mut m, path);
                push_str(&mut m, ": ");
                push_str(&mut m, e.as_str());
                Err(m)
            },
        },
    }
}

/// The message for a file from `path` that could not be parsed.
pub open spec fn parse_failure(path: Seq<char>, error: Seq<char>) -> Seq<char> {
    "parse "@ + path + ": "@ + error
}

/// The message for a file from `path` with another schema version.
pub open spec fn version_failure(path: Seq<char>, version: Seq<char>) -> Seq<char> {
    "unsupported schema_version "@ + version + " in "@ + path + " (expected "@
        + SERVICE_CONFIG_SCHEMA_VERSION@ + ")"@
}

/// Accepts the file parsed from `path`: a parse error, another schema version or an
/// invalid broker URL refuses it, in that order.
pub fn load_service_plan_file(path: &str, parsed: Result<ServicePlanFile, String>) -> (r: Result<ServicePlanFile, String>)
    ensures
        match parsed {
            Err(e) => r matches Err(m) && m@ == parse_failure(path@, e@),
            Ok(c) => if c.schema_version@ != SERVICE_CONFIG_SCHEMA_VERSION@ {
                r matches Err(m) && m@ == version_failure(path@, c.schema_version@)
            } else {
                match validation(opt_view(c.mqtt_url), path@) {
                    Err(v) => r matches Err(m) && m@ == v,
                    Ok(_) => r == Ok::<ServicePlanFile, String>(c),
                }
            },
        },
{
    match parsed {
        Err(e) => {
            let mut m = owned("parse ");
            push_str(&mut m, path);
            push_str(&mut m, ": ");
            push_str(&mut m, e.as_str());
            Err(m)
        },
        Ok(c) => {
            if !str_eq(c.schema_version.as_str(), SERVICE_CONFIG_SCHEMA_VERSION) {
                let mut m = owned("unsupported schema_version ");
                push_str(&mut m, c.schema_version.as_str());
                push_str(&mut m, " in ");
                push_str(&mut m, path);
                push_str(&mut m, " (expected ");
                push_str(&mut m, SERVICE_CONFIG_SCHEMA_VERSION);
                push_str(&mut m, ")");
                return Err(m);
            }
            match validate_service_plan_file(&c, path) {
                Err(m) => Err(m),
                Ok(_) => Ok(c),
            }
        },
    }
}

/// The first index at which `s` holds an element that `p` accepts.
pub open spec fn first_where<T>(s: Seq<T>, p: spec_fn(T) -> bool) -> Option<int>
    decreases s.len(),
{
    if s.len() == 0 {
        None
    } else if p(s[0]) {
        Some(0)
    } else {
        match first_where(s.drop_first(), p) {
            Some(i) => Some(i + 1),
            None => None,
        }
    }
}

proof fn lemma_first_where<T>(s: Seq<T>, p: spec_fn(T) -> bool, j: int)
    requires
        0 <= j <= s.len(),
        forall|k: int| 0 <= k < j ==> !p(#[trigger] s[k]),
        j < s.len() ==> p(s[j]),
    ensures
        first_where(s, p) == (if j < s.len() {
            Some(j)
        } else {
            None::<int>
        }),
    decreases j,
{
    if s.len() > 0 && j > 0 {
        assert(!p(s[0]));
        assert forall|k: int| 0 <= k < j - 1 implies !p(#[trigger] s.drop_first()[k]) by {
            assert(s.drop_first()[k] == s[k + 1]);
        }
        lemma_first_where(s.drop_first(), p, j - 1);
    }
}

/// An environment entry named `name`.
pub open spec fn keyed(name: Seq<char>) -> spec_fn((Seq<char>, Seq<char>)) -> bool {
    |kv: (Seq<char>, Seq<char>)| kv.0 == name
}

/// A plan of the service `name`.
pub open spec fn serving(name: Seq<char>) -> spec_fn(PlanView) -> bool {
    |p: PlanView| p.service == name
}

/// `envs` with `kv` set: the first entry of its name takes its value, else it is added.
pub open spec fn merge_env(envs: Seq<(Seq<char>, Seq<char>)>, kv: (Seq<char>, Seq<char>)) -> Seq<(Seq<char>, Seq<char>)> {
    match first_where(envs, keyed(kv.0)) {
        Some(i) => envs.update(i, (envs[i].0, kv.1)),
        None => envs.push(kv),
    }
}

/// `envs` with each entry of `new` set in turn.
pub open spec fn merged_envs(envs: Seq<(Seq<char>, Seq<char>)>, new: Seq<(Seq<char>, Seq<char>)>) -> Seq<(Seq<char>, Seq<char>)>
    decreases new.len(),
{
    if new.len() == 0 {
        envs
    } else {
        merge_env(merged_envs(envs, new.drop_last()), new.last())
    }
}

/// Plan `p` with what entry `e` sets: its binary, its arguments where it gives any, its
/// environment entries, and each restart setting it gives.
pub open spec fn overridden(p: PlanView, e: ServiceEntry) -> PlanView {
    PlanView {
        service: p.service,
        binary_path: match e.binary_path {
            Some(b) => b@,
            None => p.binary_path,
        },
        args: if e.args@.len() > 0 {
            string_views(e.args@)
        } else {
            p.args
        },
        envs: merged_envs(p.envs, pair_views(e.envs@)),
        restart_on_exit: match e.restart_on_exit {
            Some(b) => b,
            None => p.restart_on_exit,
        },
        restart_max_attempts: if e.restart_max_attempts is Some {
            e.restart_max_attempts
        } else {
            p.restart_max_attempts
        },
        restart_backoff_ms: if e.restart_backoff_ms is Some {
            e.restart_backoff_ms
        } else {
            p.restart_backoff_ms
        },
        restart_reset_after_ms: if e.restart_reset_after_ms is Some {
            e.restart_reset_after_ms
        } else {
            p.restart_reset_after_ms
        },
    }
}

/// The plan made from an entry for a service that has none: the binary defaults to the
/// service's name and the service restarts on exit unless the entry says otherwise.
pub open spec fn entry_plan(e: ServiceEntry) -> PlanView {
    PlanView {
        service: e.service@,
        binary_path: match e.binary_path {
            Some(b) => b@,
            None => e.service@,
        },
        args: string_views(e.args@),
        envs: pair_views(e.envs@),
        restart_on_exit: match e.restart_on_exit {
            Some(b) => b,
            None => true,
        },
        restart_max_attempts: e.restart_max_attempts,
        restart_backoff_ms: e.restart_backoff_ms,
        restart_reset_after_ms: e.restart_reset_after_ms,
    }
}

/// `plans` after entry `e`: the first plan of its service is overridden, or a plan is
/// added for it.
pub open spec fn with_entry(plans: Seq<PlanView>, e: ServiceEntry) -> Seq<PlanView> {
    match first_where(plans, serving(e.service@)) {
        Some(i) => plans.update(i, overridden(plans[i], e)),
        None => plans.push(entry_plan(e)),
    }
}

/// `plans` after each entry of `entries` in turn.
pub open spec fn with_entries(plans: Seq<PlanView>, entries: Seq<ServiceEntry>) -> Seq<PlanView>
    decreases entries.len(),
{
    if entries.len() == 0 {
        plans
    } else {
        with_entry(with_entries(plans, entries.drop_last()), entries.last())
    }
}

/// An entry for a service that has a plan overrides the first plan of that service, and
/// nothing else: its arguments, where it gives any, replace the plan's, else the plan's
/// stay; its binary path, where it gives one, replaces the plan's; the number of plans
/// stays. An entry for a service without a plan adds one plan, the last.
pub proof fn entries_override_the_first_plan_of_their_service(plans: Seq<PlanView>, e: ServiceEntry, i: int)
    requires
        0 <= i <= plans.len(),
        forall|k: int| 0 <= k < i ==> (#[trigger] plans[k]).service != e.service@,
        i < plans.len() ==> plans[i].service == e.service@,
    ensures
        i < plans.len() ==> {
            &&& with_entry(plans, e).len() == plans.len()
            &&& with_entry(plans, e)[i].service == plans[i].service
            &&& with_entry(plans, e)[i].args == if e.args@.len() > 0 {
                string_views(e.args@)
            } else {
                plans[i].args
            }
            &&& with_entry(plans, e)[i].binary_path == match e.binary_path {
                Some(b) => b@,
                None => plans[i].binary_path,
            }
            &&& forall|k: int| 0 <= k < plans.len() && k != i ==> with_entry(plans, e)[k] == plans[k]
        },
        i == plans.len() ==> {
            &&& with_entry(plans, e).len() == plans.len() + 1
            &&& with_entry(plans, e).last().service == e.service@
            &&& with_entry(plans, e).last().args == string_views(e.args@)
            &&& forall|k: int| 0 <= k < plans.len() ==> with_entry(plans, e)[k] == plans[k]
        },
{
    lemma_first_where(plans, serving(e.service@), i);
}

/// The position of the first entry named `key`, or the length where there is none.
fn env_position(envs: &Vec<(String, String)>, key: &str) -> (k: usize)
    ensures
        k <= envs@.len(),
        forall|j: int| 0 <= j < k ==> !keyed(key@)(#[trigger] pair_views(envs@)[j]),
        k < envs@.len() ==> keyed(key@)(pair_views(envs@)[k as int]),
{
    let mut k: usize = 0;
    while k < envs.len()
        invariant
            k <= envs@.len(),
            forall|j: int| 0 <= j < k ==> !keyed(key@)(#[trigger] pair_views(envs@)[j]),
        decreases envs@.len() - k,
    {
        if str_eq(envs[k].0.as_str(), key) {
            return k;
        }
        k = k + 1;
    }
    k
}

/// Sets `key` to `value` in `envs`.
fn merge_env_into(envs: &mut Vec<(String, String)>, key: &String, value: &String)
    ensures
        pair_views(final(envs)@) == merge_env(pair_views(old(envs)@), (key@, value@)),
{
    let ghost start = pair_views(envs@);
    let k = env_position(envs, key.as_str());
    proof {
        lemma_first_where(start, keyed(key@), k as int);
    }
    if k < envs.len() {
        let name = envs[k].0.clone();
        envs.set(k, (name, value.clone()));
        assert(pair_views(envs@) =~= start.update(k as int, (start[k as int].0, value@)));
    } else {
        envs.push((key.clone(), value.clone()));
        assert(pair_views(envs@) =~= start.push((key@, value@)));
    }
}

/// Sets each entry of `new` in `envs`, in turn.
fn merge_envs_into(envs: &mut Vec<(String, String)>, new: &Vec<(String, String)>)
    ensures
        pair_views(final(envs)@) == merged_envs(pair_views(old(envs)@), pair_views(new@)),
{
    let ghost start = pair_views(envs@);
    let mut i: usize = 0;
    assert(pair_views(new@).take(0) =~= Seq::<(Seq<char>, Seq<char>)>::empty());
    while i < new.len()
        invariant
            i <= new@.len(),
            pair_views(envs@) == merged_envs(start, pair_views(new@).take(i as int)),
        decreases new@.len() - i,
    {
        merge_env_into(envs, &new[i].0, &new[i].1);
        assert(pair_views(new@).take(i + 1).drop_last() =~= pair_views(new@).take(i as int));
        i = i + 1;
    }
    assert(pair_views(new@).take(i as int) =~= pair_views(new@));
}

/// The position of the first plan of `service`, or the length where there is none.
fn plan_position(plans: &Vec<ServiceStartPlan>, service: &str) -> (k: usize)
    ensures
        k <= plans@.len(),
        forall|j: int| 0 <= j < k ==> !serving(service@)(#[trigger] plan_views(plans@)[j]),
        k < plans@.len() ==> serving(service@)(plan_views(plans@)[k as int]),
{
    let mut k: usize = 0;
    while k < plans.len()
        invariant
            k <= plans@.len(),
            forall|j: int| 0 <= j < k ==> !serving(service@)(#[trigger] plan_views(plans@)[j]),
        decreases plans@.len() - k,
    {
        if str_eq(plans[k].service.as_str(), service) {
            return k;
        }
        k = k + 1;
    }
    k
}

/// Applies one entry to the plans.
fn apply_entry(plans: &mut Vec<ServiceStartPlan>, e: &ServiceEntry)
    ensures
        plan_views(final(plans)@) == with_entry(plan_views(old(plans)@), *e),
{
    let ghost start = plan_views(plans@);
    let k = plan_position(plans, e.service.as_str());
    proof {
        lemma_first_where(start, serving(e.service@), k as int);
    }
    if k < plans.len() {
        let p = &plans[k];
        let binary_path = match &e.binary_path {
            Some(b) => b.clone(),
            None => p.binary_path.clone(),
        };
        let args = if e.args.len() > 0 {
            copy_strings(&e.args)
        } else {
            copy_strings(&p.args)
        };
        let mut envs = copy_pairs(&p.envs);
        merge_envs_into(&mut envs, &e.envs);
        let plan = ServiceStartPlan {
            service: p.service.clone(),
            binary_path,
            args,
            envs,
            restart_on_exit: match e.restart_on_exit {
                Some(b) => b,
                None => p.restart_on_exit,
            },
            restart_max_attempts: if e.restart_max_attempts.is_some() {
                e.restart_max_attempts
            } else {
                p.restart_max_attempts
            },
            restart_backoff_ms: if e.restart_backoff_ms.is_some() {
                e.restart_backoff_ms
            } else {
                p.restart_backoff_ms
            },
            restart_reset_after_ms: if e.restart_reset_after_ms.is_some() {
                e.restart_reset_after_ms
            } else {
                p.restart_reset_after_ms
            },
        };
        assert(plan@ =~= overridden(start[k as int], *e));
        plans.set(k, plan);
        assert(plan_views(plans@) =~= start.update(k as int, overridden(start[k as int], *e)));
    } else {
        let plan = ServiceStartPlan {
            service: e.service.clone(),
            binary_path: match &e.binary_path {
                Some(b) => b.clone(),
                None => e.service.clone(),
            },
            args: copy_strings(&e.args),
            envs: copy_pairs(&e.envs),
            restart_on_exit: match e.restart_on_exit {
                Some(b) => b,
                None => true,
            },
            restart_max_attempts: e.restart_max_attempts,
            restart_backoff_ms: e.restart_backoff_ms,
            restart_reset_after_ms: e.restart_reset_after_ms,
        };
        assert(plan@ =~= entry_plan(*e));
        plans.push(plan);
        assert(plan_views(plans@) =~= start.push(entry_plan(*e)));
    }
}

/// Applies the entries of a service configuration file to the plans, in order.
pub fn apply_service_overrides(plans: &mut Vec<ServiceStartPlan>, entries: &Vec<ServiceEntry>)
    ensures
        plan_views(final(plans)@) == with_entries(plan_views(old(plans)@), entries@),
{
    let ghost start = plan_views(plans@);
    let mut i: usize = 0;
    assert(entries@.take(0) =~= Seq::<ServiceEntry>::empty());
    while i < entries.len()
        invariant
            i <= entries@.len(),
            plan_views(plans@) == with_entries(start, entries@.take(i as int)),
        decreases entries@.len() - i,
    {
        apply_entry(plans, &entries[i]);
        assert(entries@.take(i + 1).drop_last() =~= entries@.take(i as int));
        i = i + 1;
    }
    assert(entries@.take(i as int) =~= entries@);
}

/// The default plan of `service`: started from `bin_dir` with the runtime's bind host and
/// token, restarted on exit.
pub open spec fn default_plan_view(bin_dir: Seq<char>, config: LocalRuntimeConfig, service: LocalServiceSpec) -> PlanView {
    PlanView {
        service: service.role.name(),
        binary_path: joined_path(bin_dir, service.binary@),
        args: seq![],
        envs: seq![("SCADA_BIND_HOST"@, config.bind_host@), ("SCADA_LOCAL_TOKEN"@, config.startup_token@)],
        restart_on_exit: true,
        restart_max_attempts: None,
        restart_backoff_ms: None,
        restart_reset_after_ms: None,
    }
}

/// The default plans, one per service of the runtime, in order.
pub open spec fn default_plans(bin_dir: Seq<char>, config: LocalRuntimeConfig) -> Seq<PlanView> {
    config.services@.map_values(|s: LocalServiceSpec| default_plan_view(bin_dir, config, s))
}

/// Plan `p` after the shared broker URL: a preview runtime without its own `--mqtt-url`
/// gets `--mqtt-url <url>`.
pub open spec fn url_added(p: PlanView, url: Seq<char>) -> PlanView {
    PlanView {
        service: p.service,
        binary_path: p.binary_path,
        args: if p.service == "preview-runtime"@ && !p.args.contains("--mqtt-url"@) {
            p.args + seq!["--mqtt-url"@, url]
        } else {
            p.args
        },
        envs: p.envs,
        restart_on_exit: p.restart_on_exit,
        restart_max_attempts: p.restart_max_attempts,
        restart_backoff_ms: p.restart_backoff_ms,
        restart_reset_after_ms: p.restart_reset_after_ms,
    }
}

/// `plans` after the shared broker URL, where one is given and not empty.
pub open spec fn shared_url(plans: Seq<PlanView>, url: Option<Seq<char>>) -> Seq<PlanView> {
    match url {
        Some(u) => if u.len() > 0 {
            plans.map_values(|p: PlanView| url_added(p, u))
        } else {
            plans
        },
        None => plans,
    }
}

/// `plans` after a service configuration file, where one is given: its entries, then its
/// broker URL.
pub open spec fn file_applied(plans: Seq<PlanView>, file: Option<ServicePlanFile>) -> Seq<PlanView> {
    match file {
        Some(f) => shared_url(with_entries(plans, f.services@), opt_view(f.mqtt_url)),
        None => plans,
    }
}

/// The plan that starts the local broker, `<bin> -c <config> -q`: the binary and its
/// configuration are taken from `--rumqttd-bin` and `--rumqttd-config` where given.
pub open spec fn rumqttd_plan(args: Seq<Seq<char>>) -> PlanView {
    PlanView {
        service: "rumqttd"@,
        binary_path: match arg_value_of(args, "--rumqttd-bin"@) {
            Some(b) => b,
            None => "rumqttd"@,
        },
        args: seq![
            "-c"@,
            match arg_value_of(args, "--rumqttd-config"@) {
                Some(c) => c,
                None => "config/rumqttd.toml"@,
            },
            "-q"@,
        ],
        envs: seq![],
        restart_on_exit: true,
        restart_max_attempts: None,
        restart_backoff_ms: None,
        restart_reset_after_ms: None,
    }
}

/// The plans the shell starts: the defaults, changed by the configuration file, and the
/// local broker last with `--include-rumqttd`.
pub open spec fn planned(args: Seq<Seq<char>>, defaults: Seq<PlanView>, file: Option<ServicePlanFile>) -> Seq<PlanView> {
    let p = file_applied(defaults, file);
    if args.contains("--include-rumqttd"@) {
        p.push(rumqttd_plan(args))
    } else {
        p
    }
}

proof fn lemma_default_views(plans: Seq<ServiceStartPlan>, bin_dir: Seq<char>, config: LocalRuntimeConfig)
    requires
        plans.len() == config.services@.len(),
        forall|i: int| 0 <= i < plans.len() ==> default_plan(#[trigger] plans[i], bin_dir, config, config.services@[i]),
    ensures
        plan_views(plans) == default_plans(bin_dir, config),
{
    assert forall|i: int| 0 <= i < plans.len() implies #[trigger] plan_views(plans)[i] == default_plans(bin_dir, config)[i] by {
        let p = plans[i];
        assert(default_plan(p, bin_dir, config, config.services@[i]));
        assert(pair_views(p.envs@) =~= seq![("SCADA_BIND_HOST"@, config.bind_host@), ("SCADA_LOCAL_TOKEN"@, config.startup_token@)]);
        assert(string_views(p.args@) =~= Seq::<Seq<char>>::empty());
        assert(p@ =~= default_plan_view(bin_dir, config, config.services@[i]));
    }
    assert(plan_views(plans) =~= default_plans(bin_dir, config));
}

/// The plans the shell starts, given the arguments, the binary directory, the runtime
/// settings and the configuration file named by `--service-config`, already loaded.
pub fn build_plans(args: &Vec<String>, bin_dir: &str, config: &LocalRuntimeConfig, file: &Option<ServicePlanFile>) -> (r: Vec<ServiceStartPlan>)
    ensures
        plan_views(r@) == planned(string_views(args@), default_plans(bin_dir@, *config), *file),
{
    let mut plans = service_start_plan(bin_dir, config);
    proof {
        lemma_default_views(plans@, bin_dir@, *config);
    }
    let ghost defaults = plan_views(plans@);
    match file {
        Some(f) => {
            apply_service_overrides(&mut plans, &f.services);
            let ghost before = plans@;
            let url: Option<&str> = match &f.mqtt_url {
                Some(u) => Some(u.as_str()),
                None => None,
            };
            apply_shared_mqtt_url(&mut plans, url);
            proof {
                let ov = opt_view(f.mqtt_url);
                let u = match ov {
                    Some(u) => u,
                    None => Seq::<char>::empty(),
                };
                if u.len() > 0 {
                    assert forall|i: int| 0 <= i < plans@.len() implies #[trigger] plan_views(plans@)[i]
                        == url_added(plan_views(before)[i], u) by {
                        assert(plan_views(plans@)[i] =~= url_added(plan_views(before)[i], u));
                    }
                } else {
                    assert forall|i: int| 0 <= i < plans@.len() implies #[trigger] plan_views(plans@)[i]
                        == plan_views(before)[i] by {
                        assert(plan_views(plans@)[i] =~= plan_views(before)[i]);
                    }
                }
                assert(plan_views(plans@) =~= shared_url(plan_views(before), ov));
            }
        },
        None => {},
    }
    let ghost after_file = plan_views(plans@);
    assert(after_file == file_applied(defaults, *file));
    if has_flag(args, "--include-rumqttd") {
        let bin = match arg_value(args, "--rumqttd-bin") {
            Some(b) => b,
            None => owned("rumqttd"),
        };
        let cfg = match arg_value(args, "--rumqttd-config") {
            Some(c) => c,
            None => owned("config/rumqttd.toml"),
        };
        let mut a: Vec<String> = Vec::new();
        a.push(owned("-c"));
        a.push(cfg);
        a.push(owned("-q"));
        let plan = ServiceStartPlan {
            service: owned("rumqttd"),
            binary_path: bin,
            args: a,
            envs: Vec::new(),
            restart_on_exit: true,
            restart_max_attempts: None,
            restart_backoff_ms: None,
            restart_reset_after_ms: None,
        };
        assert(plan@ =~= rumqttd_plan(string_views(args@)));
        plans.push(plan);
        assert(plan_views(plans@) =~= after_file.push(rumqttd_plan(string_views(args@))));
    }
    plans
}

/// Giving the shared broker URL twice is giving it once: a runtime that got it has its own
/// `--mqtt-url` from then on.
pub proof fn shared_url_is_idempotent(plans: Seq<PlanView>, url: Option<Seq<char>>)
    ensures
        shared_url(shared_url(plans, url), url) == shared_url(plans, url),
{
    if let Some(u) = url {
        if u.len() > 0 {
            let once = shared_url(plans, url);
            assert forall|i: int| 0 <= i < plans.len() implies #[trigger] shared_url(once, url)[i] == once[i] by {
                let p = plans[i];
                let q = url_added(p, u);
                if p.service == "preview-runtime"@ && !p.args.contains("--mqtt-url"@) {
                    assert(q.args[p.args.len() as int] == "--mqtt-url"@);
                    assert(q.args.contains("--mqtt-url"@));
                }
                assert(url_added(q, u) =~= q);
            }
            assert(shared_url(once, url) =~= once);
        }
    }
}

} // verus!
