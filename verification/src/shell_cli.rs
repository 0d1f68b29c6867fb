//! The shell's command line: its arguments, its help, the screen path pick, and the plans
//! built from the defaults, a service configuration file and the broker options.
use vstd::prelude::*;
use vstd::string::StrSliceExecFns;

use crate::json::{push_all, push_text};
use crate::json_doc::string_views;
use crate::shell::{
    normalize_relative_screen_path, relative_screen_path, PickScreenRelativePathResult,
    ServiceStartPlan,
};
use crate::text::{owned, str_eq, string_of};

verus! {

/// The version of the service configuration files the shell reads.
pub const SERVICE_CONFIG_SCHEMA_VERSION: &'static str = "1.0.0";

/// The index of the first argument named `name` that has an argument after it.
pub open spec fn arg_index(args: Seq<Seq<char>>, name: Seq<char>) -> Option<int>
    decreases args.len(),
{
    if args.len() < 2 {
        None
    } else if args[0] == name {
        Some(0)
    } else {
        match arg_index(args.drop_first(), name) {
            Some(i) => Some(i + 1),
            None => None,
        }
    }
}

proof fn lemma_arg_index(args: Seq<Seq<char>>, name: Seq<char>)
    ensures
        arg_index(args, name) matches Some(i) ==> 0 <= i && i + 1 < args.len() && args[i] == name && forall|
            j: int,
        | 0 <= j < i ==> args[j] != name,
        arg_index(args, name) is None ==> forall|j: int| 0 <= j < args.len() - 1 ==> args[j] != name,
    decreases args.len(),
{
    if args.len() >= 2 && args[0] != name {
        lemma_arg_index(args.drop_first(), name);
        assert forall|j: int| 0 < j < args.len() implies args[j] == args.drop_first()[j - 1] by {}
    }
}

/// The argument after the first `name` that has one.
pub open spec fn arg_value_of(args: Seq<Seq<char>>, name: Seq<char>) -> Option<Seq<char>> {
    match arg_index(args, name) {
        Some(i) => Some(args[i + 1]),
        None => None,
    }
}

/// The argument after `name`.
pub fn arg_value(args: &Vec<String>, name: &str) -> (r: Option<String>)
    ensures
        match r {
            Some(v) => arg_value_of(string_views(args@), name@) == Some(v@),
            None => arg_value_of(string_views(args@), name@) is None,
        },
{
    let ghost av = string_views(args@);
    proof {
        lemma_arg_index(av, name@);
    }
    if args.len() < 2 {
        return None;
    }
    let last = args.len() - 1;
    let mut i: usize = 0;
    while i < last
        invariant
            av == string_views(args@),
            last == args@.len() - 1,
            i <= last,
            forall|j: int| 0 <= j < i ==> av[j] != name@,
        decreases last - i,
    {
        if str_eq(args[i].as_str(), name) {
            assert(av[i as int] == name@);
            proof {
                lemma_arg_index(av, name@);
                if let Some(k) = arg_index(av, name@) {
                    if k < i {
                        assert(av[k] != name@);
                    }
                    if k > i {
                        assert(av[i as int] != name@);
                    }
                }
            }
            let v = args[i + 1].clone();
            assert(v@ == av[i + 1]);
            return Some(v);
        }
        i = i + 1;
    }
    proof {
        lemma_arg_index(av, name@);
        if let Some(k) = arg_index(av, name@) {
            assert(av[k] != name@);
        }
    }
    None
}

/// The directory given after `--bin-dir`.
pub fn bin_dir_arg(args: &Vec<String>) -> (r: Option<String>)
    ensures
        match r {
            Some(v) => arg_value_of(string_views(args@), "--bin-dir"@) == Some(v@),
            None => arg_value_of(string_views(args@), "--bin-dir"@) is None,
        },
{
    arg_value(args, "--bin-dir")
}

/// The host given after `--bind-host`.
pub fn bind_host_arg(args: &Vec<String>) -> (r: Option<String>)
    ensures
        match r {
            Some(v) => arg_value_of(string_views(args@), "--bind-host"@) == Some(v@),
            None => arg_value_of(string_views(args@), "--bind-host"@) is None,
        },
{
    arg_value(args, "--bind-host")
}

/// Whether `flag` is among the arguments.
pub fn has_flag(args: &Vec<String>, flag: &str) -> (b: bool)
    ensures
        b == string_views(args@).contains(flag@),
{
    let mut i: usize = 0;
    while i < args.len()
        invariant
            i <= args@.len(),
            forall|j: int| 0 <= j < i ==> string_views(args@)[j] != flag@,
        decreases args@.len() - i,
    {
        if str_eq(args[i].as_str(), flag) {
            assert(string_views(args@)[i as int] == flag@);
            return true;
        }
        i = i + 1;
    }
    false
}

/// The answer to `--pick-screen-relative-path`: none where the flag is absent; cancelled
/// with `--cancel`; else the chosen file's path relative to the project root.
pub open spec fn pick_response(args: Seq<Seq<char>>) -> Result<Option<(bool, Option<Seq<char>>)>, Seq<char>> {
    if !args.contains("--pick-screen-relative-path"@) {
        Ok(None)
    } else if args.contains("--cancel"@) {
        Ok(Some((true, None)))
    } else {
        match arg_value_of(args, "--project-root"@) {
            None => Err("--project-root is required"@),
            Some(root) => match arg_value_of(args, "--absolute-path"@) {
                None => Err("--absolute-path is required unless --cancel is set"@),
                Some(abs) => match relative_screen_path(root, abs) {
                    Err(e) => Err(e),
                    Ok(p) => Ok(Some((false, Some(p)))),
                },
            },
        }
    }
}

/// Answers `--pick-screen-relative-path`.
pub fn pick_screen_relative_path_response(args: &Vec<String>) -> (r: Result<Option<PickScreenRelativePathResult>, String>)
    ensures
        match r {
            Ok(None) => pick_response(string_views(args@)) == Ok::<Option<(bool, Option<Seq<char>>)>, Seq<char>>(None),
            Ok(Some(p)) => pick_response(string_views(args@)) == Ok::<Option<(bool, Option<Seq<char>>)>, Seq<char>>(
                Some(
                    (
                        p.cancelled,
                        match p.relative_path {
                            Some(s) => Some(s@),
                            None => None,
                        },
                    ),
                ),
            ),
            Err(e) => pick_response(string_views(args@)) == Err::<Option<(bool, Option<Seq<char>>)>, Seq<char>>(e@),
        },
{
    if !has_flag(args, "--pick-screen-relative-path") {
        return Ok(None);
    }
    if has_flag(args, "--cancel") {
        return Ok(Some(PickScreenRelativePathResult::cancelled()));
    }
    let root = match arg_value(args, "--project-root") {
        Some(v) => v,
        None => {
            return Err(owned("--project-root is required"));
        },
    };
    let abs = match arg_value(args, "--absolute-path") {
        Some(v) => v,
        None => {
            return Err(owned("--absolute-path is required unless --cancel is set"));
        },
    };
    match normalize_relative_screen_path(root.as_str(), abs.as_str()) {
        Err(e) => Err(e),
        Ok(p) => Ok(Some(PickScreenRelativePathResult::selected(p))),
    }
}

/// The shell's help text, naming the schema version of the service configuration.
pub open spec fn help(version: Seq<char>) -> Seq<char> {
    "tauri-shell options\n\ncore:\n  --help, -h\n  --health\n  --list-services\n  --check-services [--bin-dir <path>]\n  --print-startup-token\n    --pick-screen-relative-path --project-root <absolute-path> [--absolute-path <absolute-path>] [--cancel]\n  --print-service-plan [--bin-dir <path>] [--bind-host <host>] [--service-config <path>] [--include-rumqttd] [--rumqttd-config <path>] [--rumqttd-bin <path>]\n  --supervise-once [--bin-dir <path>] [--bind-host <host>] [--service-config <path>] [--include-rumqttd] [--rumqttd-config <path>] [--rumqttd-bin <path>]\n\nsupervise-loop:\n  --supervise-loop\n  --supervise-interval-ms <ms>        default: 1000\n  --supervise-cycles <n>              default: 0 (infinite)\n  --restart-exited\n  --restart-max-attempts <n>          default: 0 (unlimited)\n  --restart-backoff-ms <ms>           default: 0\n  --restart-reset-after-ms <ms>       default: 0 (disabled)\n  --supervise-verbose                 per-service detailed logs\n  --supervise-summary-json            emit cycle_summary/final_summary as JSON lines\n    --supervise-log-dir <path>          persist cycle summaries and service statuses to files\n  --supervise-fail-on-start-error     exit non-zero if any service start fails\n  --supervise-fail-on-exhausted-restart\n                                      exit non-zero if restart attempts are exhausted\n    --supervise-log-summary --supervise-log-dir <path>\n                                                                            summarize persisted supervise logs\n\nservice-config:\n  --service-config <path>             schema_version must be "@
        + version + "\n  root mqtt_url                       auto-injected into preview-runtime as --mqtt-url\n"@
}

/// The shell's help text.
pub fn help_text() -> (r: String)
    ensures
        r@ == help(SERVICE_CONFIG_SCHEMA_VERSION@),
{
    let mut out: Vec<char> = Vec::new();
    push_text(
        &mut out,
        "tauri-shell options\n\ncore:\n  --help, -h\n  --health\n  --list-services\n  --check-services [--bin-dir <path>]\n  --print-startup-token\n    --pick-screen-relative-path --project-root <absolute-path> [--absolute-path <absolute-path>] [--cancel]\n  --print-service-plan [--bin-dir <path>] [--bind-host <host>] [--service-config <path>] [--include-rumqttd] [--rumqttd-config <path>] [--rumqttd-bin <path>]\n  --supervise-once [--bin-dir <path>] [--bind-host <host>] [--service-config <path>] [--include-rumqttd] [--rumqttd-config <path>] [--rumqttd-bin <path>]\n\nsupervise-loop:\n  --supervise-loop\n  --supervise-interval-ms <ms>        default: 1000\n  --supervise-cycles <n>              default: 0 (infinite)\n  --restart-exited\n  --restart-max-attempts <n>          default: 0 (unlimited)\n  --restart-backoff-ms <ms>           default: 0\n  --restart-reset-after-ms <ms>       default: 0 (disabled)\n  --supervise-verbose                 per-service detailed logs\n  --supervise-summary-json            emit cycle_summary/final_summary as JSON lines\n    --supervise-log-dir <path>          persist cycle summaries and service statuses to files\n  --supervise-fail-on-start-error     exit non-zero if any service start fails\n  --supervise-fail-on-exhausted-restart\n                                      exit non-zero if restart attempts are exhausted\n    --supervise-log-summary --supervise-log-dir <path>\n                                                                            summarize persisted supervise logs\n\nservice-config:\n  --service-config <path>             schema_version must be ",
    );
    push_text(&mut out, SERVICE_CONFIG_SCHEMA_VERSION);
    push_text(&mut out, "\n  root mqtt_url                       auto-injected into preview-runtime as --mqtt-url\n");
    string_of(out.as_slice())
}

/// `plan` after the shared broker URL: a preview runtime without its own `--mqtt-url` gets
/// `--mqtt-url <url>`.
pub open spec fn with_mqtt_url(plan: ServiceStartPlan, url: Seq<char>) -> Seq<Seq<char>> {
    if plan.service@ == "preview-runtime"@ && !string_views(plan.args@).contains("--mqtt-url"@) {
        string_views(plan.args@) + seq!["--mqtt-url"@, url]
    } else {
        string_views(plan.args@)
    }
}

/// A copy of a list of strings.
pub fn copy_strings(v: &Vec<String>) -> (r: Vec<String>)
    ensures
        r@ == v@,
{
    let mut r: Vec<String> = Vec::new();
    let mut i: usize = 0;
    while i < v.len()
        invariant
            i <= v@.len(),
            r@ == v@.take(i as int),
        decreases v@.len() - i,
    {
        r.push(v[i].clone());
        assert(r@ =~= v@.take(i + 1));
        i = i + 1;
    }
    assert(v@.take(v@.len() as int) =~= v@);
    r
}

/// A copy of a list of string pairs.
pub fn copy_pairs(v: &Vec<(String, String)>) -> (r: Vec<(String, String)>)
    ensures
        r@ == v@,
{
    let mut r: Vec<(String, String)> = Vec::new();
    let mut i: usize = 0;
    while i < v.len()
        invariant
            i <= v@.len(),
            r@ == v@.take(i as int),
        decreases v@.len() - i,
    {
        r.push((v[i].0.clone(), v[i].1.clone()));
        assert(r@ =~= v@.take(i + 1));
        i = i + 1;
    }
    assert(v@.take(v@.len() as int) =~= v@);
    r
}

/// Gives each preview runtime the shared broker URL, where one is given and not empty and
/// the runtime has none of its own.
pub fn apply_shared_mqtt_url(plans: &mut Vec<ServiceStartPlan>, mqtt_url: Option<&str>)
    ensures
        final(plans)@.len() == old(plans)@.len(),
        forall|i: int|
            0 <= i < old(plans)@.len() ==> {
                let p = #[trigger] final(plans)@[i];
                let q = old(plans)@[i];
                &&& p.service == q.service
                &&& p.binary_path == q.binary_path
                &&& p.envs@ == q.envs@
                &&& p.restart_on_exit == q.restart_on_exit
                &&& p.restart_max_attempts == q.restart_max_attempts
                &&& p.restart_backoff_ms == q.restart_backoff_ms
                &&& p.restart_reset_after_ms == q.restart_reset_after_ms
                &&& string_views(p.args@) == match mqtt_url {
                    Some(u) => if u@.len() > 0 {
                        with_mqtt_url(q, u@)
                    } else {
                        string_views(q.args@)
                    },
                    None => string_views(q.args@),
                }
            },
{
    let url = match mqtt_url {
        None => {
            return;
        },
        Some(u) => u,
    };
    if url.unicode_len() == 0 {
        return;
    }
    let ghost start = plans@;
    let mut out: Vec<ServiceStartPlan> = Vec::new();
    let mut taken: Vec<ServiceStartPlan> = Vec::new();
    std::mem::swap(&mut taken, plans);
    let mut i: usize = 0;
    while i < taken.len()
        invariant
            taken@ == start,
            i <= taken@.len(),
            out@.len() == i,
            url@.len() > 0,
            forall|j: int|
                0 <= j < i ==> {
                    let p = #[trigger] out@[j];
                    let q = start[j];
                    &&& p.service == q.service
                    &&& p.binary_path == q.binary_path
                    &&& p.envs@ == q.envs@
                    &&& p.restart_on_exit == q.restart_on_exit
                    &&& p.restart_max_attempts == q.restart_max_attempts
                    &&& p.restart_backoff_ms == q.restart_backoff_ms
                    &&& p.restart_reset_after_ms == q.restart_reset_after_ms
                    &&& string_views(p.args@) == with_mqtt_url(q, url@)
                },
        decreases taken@.len() - i,
    {
        let q = &taken[i];
        let mut args = crate::shell_cli::copy_strings(&q.args);
        if str_eq(q.service.as_str(), "preview-runtime") && !crate::shell_cli::has_flag(&q.args, "--mqtt-url") {
            let ghost before = string_views(args@);
            args.push(owned("--mqtt-url"));
            args.push(owned(url));
            assert(string_views(args@) =~= before + seq!["--mqtt-url"@, url@]);
        }
        let ghost new_args = string_views(args@);
        assert(new_args == with_mqtt_url(*q, url@));
        let np = ServiceStartPlan {
            service: q.service.clone(),
            binary_path: q.binary_path.clone(),
            args,
            envs: crate::shell_cli::copy_pairs(&q.envs),
            restart_on_exit: q.restart_on_exit,
            restart_max_attempts: q.restart_max_attempts,
            restart_backoff_ms: q.restart_backoff_ms,
            restart_reset_after_ms: q.restart_reset_after_ms,
        };
        assert(*q == start[i as int]);
        assert(np.service == q.service && np.binary_path == q.binary_path && np.envs@ == q.envs@);
        assert(string_views(np.args@) == with_mqtt_url(start[i as int], url@));
        let ghost before = out@;
        out.push(np);
        assert forall|j: int| 0 <= j < i + 1 implies {
            let p = #[trigger] out@[j];
            let q2 = start[j];
            &&& p.service == q2.service
            &&& p.binary_path == q2.binary_path
            &&& p.envs@ == q2.envs@
            &&& p.restart_on_exit == q2.restart_on_exit
            &&& p.restart_max_attempts == q2.restart_max_attempts
            &&& p.restart_backoff_ms == q2.restart_backoff_ms
            &&& p.restart_reset_after_ms == q2.restart_reset_after_ms
            &&& string_views(p.args@) == with_mqtt_url(q2, url@)
        } by {
            if j < i {
                assert(out@[j] == before[j]);
            } else {
                assert(out@[j] == np);
            }
        }
        i = i + 1;
    }
    *plans = out;
}

} // verus!
