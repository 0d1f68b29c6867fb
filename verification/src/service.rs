//! The local services that make up a runtime, and how they are started.
use vstd::prelude::*;

use crate::json::push_text;
use crate::text::{owned, string_of};

verus! {

pub const LOCAL_BIND_HOST_ENV: &'static str = "SCADA_BIND_HOST";

pub const LOCAL_TOKEN_ENV: &'static str = "SCADA_LOCAL_TOKEN";

/// A service of the local runtime.
#[derive(Debug, Clone, PartialEq, Eq, Structural)]
pub enum ServiceRole {
    BuilderApi,
    PreviewRuntime,
    TagServer,
    DriverManager,
    MockDriver,
    TauriShell,
}

impl ServiceRole {
    pub open spec fn name(self) -> Seq<char> {
        match self {
            ServiceRole::BuilderApi => "builder-api"@,
            ServiceRole::PreviewRuntime => "preview-runtime"@,
            ServiceRole::TagServer => "tag-server"@,
            ServiceRole::DriverManager => "driver-manager"@,
            ServiceRole::MockDriver => "mock-driver"@,
            ServiceRole::TauriShell => "tauri-shell"@,
        }
    }

    pub fn as_str(&self) -> (s: &'static str)
        ensures
            s@ == self.name(),
    {
        match self {
            ServiceRole::BuilderApi => "builder-api",
            ServiceRole::PreviewRuntime => "preview-runtime",
            ServiceRole::TagServer => "tag-server",
            ServiceRole::DriverManager => "driver-manager",
            ServiceRole::MockDriver => "mock-driver",
            ServiceRole::TauriShell => "tauri-shell",
        }
    }

    pub fn copied(&self) -> (r: ServiceRole)
        ensures
            r == *self,
    {
        match self {
            ServiceRole::BuilderApi => ServiceRole::BuilderApi,
            ServiceRole::PreviewRuntime => ServiceRole::PreviewRuntime,
            ServiceRole::TagServer => ServiceRole::TagServer,
            ServiceRole::DriverManager => ServiceRole::DriverManager,
            ServiceRole::MockDriver => ServiceRole::MockDriver,
            ServiceRole::TauriShell => ServiceRole::TauriShell,
        }
    }
}

/// `<role>: healthy`, the line a healthy service prints.
pub open spec fn health_text(role: ServiceRole) -> Seq<char> {
    role.name() + ": healthy"@
}

/// The line a service prints when asked for its health.
pub fn health_line(role: &ServiceRole) -> (r: String)
    ensures
        r@ == health_text(*role),
{
    let mut out: Vec<char> = Vec::new();
    push_text(&mut out, role.as_str());
    push_text(&mut out, ": healthy");
    string_of(out.as_slice())
}

/// A service of the local runtime: its role, its binary and the argument that asks it
/// for its health.
#[derive(Debug, Clone, PartialEq, Eq)]
pub struct LocalServiceSpec {
    pub role: ServiceRole,
    pub binary: &'static str,
    pub health_arg: &'static str,
}

/// The roles of the default services, in start order.
pub open spec fn default_roles() -> Seq<ServiceRole> {
    seq![
        ServiceRole::BuilderApi,
        ServiceRole::TagServer,
        ServiceRole::DriverManager,
        ServiceRole::PreviewRuntime,
        ServiceRole::MockDriver,
    ]
}

fn service(role: ServiceRole, binary: &'static str) -> (s: LocalServiceSpec)
    ensures
        s.role == role,
        s.binary@ == binary@,
        s.health_arg@ == "--health"@,
{
    LocalServiceSpec { role, binary, health_arg: "--health" }
}

/// The services of the local runtime, in start order; each binary is named after its
/// role and answers `--health`.
pub fn default_local_services() -> (v: Vec<LocalServiceSpec>)
    ensures
        v@.len() == default_roles().len(),
        forall|i: int|
            0 <= i < v@.len() ==> {
                &&& (#[trigger] v@[i]).role == default_roles()[i]
                &&& v@[i].binary@ == v@[i].role.name()
                &&& v@[i].health_arg@ == "--health"@
            },
{
    let mut v: Vec<LocalServiceSpec> = Vec::new();
    v.push(service(ServiceRole::BuilderApi, "builder-api"));
    v.push(service(ServiceRole::TagServer, "tag-server"));
    v.push(service(ServiceRole::DriverManager, "driver-manager"));
    v.push(service(ServiceRole::PreviewRuntime, "preview-runtime"));
    v.push(service(ServiceRole::MockDriver, "mock-driver"));
    v
}

/// The settings shared by the services of one local runtime.
#[derive(Debug, Clone, PartialEq, Eq)]
pub struct LocalRuntimeConfig {
    pub bind_host: String,
    pub startup_token: String,
    pub services: Vec<LocalServiceSpec>,
}

impl LocalRuntimeConfig {
    /// A runtime of the default services, bound to `bind_host` and guarded by `startup_token`.
    pub fn new(bind_host: &str, startup_token: String) -> (c: LocalRuntimeConfig)
        ensures
            c.bind_host@ == bind_host@,
            c.startup_token == startup_token,
            c.services@.len() == default_roles().len(),
            forall|i: int|
                0 <= i < c.services@.len() ==> {
                    &&& (#[trigger] c.services@[i]).role == default_roles()[i]
                    &&& c.services@[i].binary@ == c.services@[i].role.name()
                    &&& c.services@[i].health_arg@ == "--health"@
                },
    {
        LocalRuntimeConfig {
            bind_host: owned(bind_host),
            startup_token,
            services: default_local_services(),
        }
    }
}

} // verus!
