//! A small service mesh: a registry of services with pluggable backends, an
//! API gateway that resolves requests to registered endpoints, and the rules
//! by which both start, renew and shut down.

pub mod api;
pub mod cache;
pub mod consul;
pub mod etcd;
pub mod headers;
pub mod lba;
pub mod mdns_plugin;
pub mod mongo;
pub mod net;
pub mod none;
pub mod plugin;
pub mod proxy;
pub mod register;
pub mod service;
pub mod synchronize;
pub mod task;
pub mod tcp;
pub mod text;

pub use api::{extracting_service, IntercepterType};
pub use cache::{CacheMap, OwnedSet, ServiceEntry};
pub use consul::ConsulPlugin;
pub use etcd::EtcdPlugin;
pub use lba::{parse_lba, LoadBalancerAlgorithm, RoundRobinCounter};
pub use mdns_plugin::Mdns;
pub use mongo::MongodbPlugin;
pub use net::NetError;
pub use none::NonePlugin;
pub use plugin::{
    get_plugin_type, init_plugin, Plugin, PluginError, PluginType, ServiceContent, ServiceType,
    TaskSet,
};
pub use proxy::{forward_uri, ProxyError};
pub use register::{Register, RegisterError};
pub use service::{Endpoint, ServiceError, Transport};
pub use tcp::{ConnectionError, Frame, FrameError};
