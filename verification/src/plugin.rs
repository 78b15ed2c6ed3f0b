//! What every registry backend shares: the record that is registered, the
//! names of the backends, and the background work that each role of a
//! process asks for.

use crate::text::{chars_of, eq_ignore_case, equals_ignore_case};
use vstd::prelude::*;
use vstd::string::StringExecFns;

verus! {

/// The registry backends a process can be configured with.
#[derive(Debug, Clone, Copy, PartialEq, Eq, Structural)]
pub enum PluginType {
    /// No registry at all.
    Disabled,
    Etcd,
    Mongodb,
    Mdns,
    Consul,
}

/// The backend that a configured name selects, read without regard to the
/// case of ASCII letters. Any name that is none of `none`, `etcd`, `mdns`
/// and `consul` selects MongoDB.
pub open spec fn plugin_type_of(name: Seq<char>) -> PluginType {
    if eq_ignore_case(name, "none"@) {
        PluginType::Disabled
    } else if eq_ignore_case(name, "etcd"@) {
        PluginType::Etcd
    } else if eq_ignore_case(name, "mdns"@) {
        PluginType::Mdns
    } else if eq_ignore_case(name, "consul"@) {
        PluginType::Consul
    } else {
        PluginType::Mongodb
    }
}

/// The backend that a configured name selects.
pub fn get_plugin_type(name: &str) -> (r: PluginType)
    ensures
        r == plugin_type_of(name@),
{
    let text = chars_of(name);
    if equals_ignore_case(text.as_slice(), chars_of("none").as_slice()) {
        PluginType::Disabled
    } else if equals_ignore_case(text.as_slice(), chars_of("etcd").as_slice()) {
        PluginType::Etcd
    } else if equals_ignore_case(text.as_slice(), chars_of("mdns").as_slice()) {
        PluginType::Mdns
    } else if equals_ignore_case(text.as_slice(), chars_of("consul").as_slice()) {
        PluginType::Consul
    } else {
        PluginType::Mongodb
    }
}

impl PluginType {
    /// The name that selects the backend.
    pub open spec fn name(self) -> Seq<char> {
        match self {
            PluginType::Disabled => "none"@,
            PluginType::Etcd => "etcd"@,
            PluginType::Mongodb => "mongodb"@,
            PluginType::Mdns => "mdns"@,
            PluginType::Consul => "consul"@,
        }
    }

    /// The name that selects the backend.
    pub fn as_str(&self) -> (r: &'static str)
        ensures
            r@ == self.name(),
    {
        match self {
            PluginType::Disabled => "none",
            PluginType::Etcd => "etcd",
            PluginType::Mongodb => "mongodb",
            PluginType::Mdns => "mdns",
            PluginType::Consul => "consul",
        }
    }
}

/// The kind of a record that advertises a web service.
pub const WEB_SERVICE: i32 = 1;

/// The kind of a record that advertises a backend service.
pub const BACKEND_SERVICE: i32 = 2;

/// A registration record: a logical service, the tag of its load-balancing
/// algorithm, the address it is reached at, and its kind.
#[derive(Debug, Clone, PartialEq, Eq)]
pub struct ServiceContent {
    pub service: String,
    pub lba: String,
    pub addr: String,
    pub kind: i32,
}

/// A registration record as a mathematical value.
pub struct Content {
    pub service: Seq<char>,
    pub lba: Seq<char>,
    pub addr: Seq<char>,
    pub kind: int,
}

impl View for ServiceContent {
    type V = Content;

    open spec fn view(&self) -> Content {
        Content {
            service: self.service@,
            lba: self.lba@,
            addr: self.addr@,
            kind: self.kind as int,
        }
    }
}

impl ServiceContent {
    /// A copy of the record.
    pub fn duplicate(&self) -> (r: Self)
        ensures
            r@ == self@,
    {
        ServiceContent {
            service: self.service.clone(),
            lba: self.lba.clone(),
            addr: self.addr.clone(),
            kind: self.kind,
        }
    }
}

impl Default for ServiceContent {
    /// A web-service record with every text empty.
    fn default() -> (r: Self)
        ensures
            r@ == (Content {
                service: Seq::empty(),
                lba: Seq::empty(),
                addr: Seq::empty(),
                kind: 1,
            }),
    {
        ServiceContent {
            service: String::new(),
            lba: String::new(),
            addr: String::new(),
            kind: WEB_SERVICE,
        }
    }
}

/// The views of a sequence of records.
pub open spec fn content_views(r: Seq<ServiceContent>) -> Seq<Content> {
    Seq::new(r.len(), |i: int| r[i]@)
}

/// A failure of a registry backend, with the key it concerns.
#[derive(Debug, Clone, PartialEq, Eq)]
pub enum PluginError {
    Error(String),
}

impl PluginError {
    /// The text of the failure.
    pub open spec fn text(self) -> Seq<char> {
        match self {
            PluginError::Error(key) => "the plugin for key `"@ + key@ + "` is not available"@,
        }
    }

    /// The text of the failure.
    pub fn message(&self) -> (r: String)
        ensures
            r@ == self.text(),
    {
        match self {
            PluginError::Error(key) => {
                let mut r = String::from_str("the plugin for key `");
                r.append(key.as_str());
                r.append("` is not available");
                r
            },
        }
    }
}

/// The role in which a process uses the registry.
#[derive(Debug, Clone, Copy, PartialEq, Eq, Structural)]
pub enum ServiceType {
    ApiGateway,
    BackendService,
    WebService,
}

/// The background work that a process runs beside its main task.
#[derive(Debug, Clone, Copy, PartialEq, Eq, Structural)]
pub struct TaskSet {
    /// Follow the changes of the store and keep the local cache in step.
    pub watch: bool,
    /// Renew the process's own registrations, and withdraw them at shutdown.
    pub renew: bool,
}

/// The background work of a role: a gateway only watches, a web service
/// only renews, a backend service does both.
pub open spec fn tasks_of(role: ServiceType) -> TaskSet {
    match role {
        ServiceType::ApiGateway => TaskSet { watch: true, renew: false },
        ServiceType::WebService => TaskSet { watch: false, renew: true },
        ServiceType::BackendService => TaskSet { watch: true, renew: true },
    }
}

/// Whether a backend can be started: every one but mDNS.
pub open spec fn is_supported(backend: PluginType) -> bool {
    backend != PluginType::Mdns
}

/// The background work to start for a process of the given role on the
/// given backend. A backend that cannot be started is an error that names
/// it.
pub fn init_plugin(role: ServiceType, backend: PluginType) -> (r: Result<TaskSet, PluginError>)
    ensures
        is_supported(backend) ==> (r matches Ok(tasks) && tasks == tasks_of(role)),
        !is_supported(backend) ==> (r matches Err(PluginError::Error(key)) && key@
            == backend.name()),
{
    match backend {
        PluginType::Mdns => Err(PluginError::Error(String::from_str(backend.as_str()))),
        _ => Ok(
            match role {
                ServiceType::ApiGateway => TaskSet { watch: true, renew: false },
                ServiceType::WebService => TaskSet { watch: false, renew: true },
                ServiceType::BackendService => TaskSet { watch: true, renew: true },
            },
        ),
    }
}

/// The synchronous face of a registry backend: what it answers from what
/// it holds locally.
pub trait Plugin {
    /// What the backend answers when asked for the web services under a
    /// key: the records, or `None` where it fails.
    spec fn web_services(&self, key: Seq<char>) -> Option<Seq<Content>>;

    /// Advertises `sc` under `key`.
    fn register_service(&mut self, key: &str, sc: ServiceContent) -> Result<(), PluginError>;

    /// The web-service records known under `key`.
    fn get_web_service(&self, key: &str) -> (r: Result<Vec<ServiceContent>, PluginError>)
        ensures
            match self.web_services(key@) {
                Some(records) => r matches Ok(v) && content_views(v@) == records,
                None => r is Err,
            },
    ;

    /// The caller's own id under `key`, and the ids of all peers under it.
    fn get_backend_service(&self, key: &str) -> Result<(String, Vec<String>), PluginError>;
}

} // verus!
