//! The mDNS backend, which finds no record yet.

use crate::plugin::{Content, Plugin, PluginError, ServiceContent};
use vstd::prelude::*;
use vstd::string::StringExecFns;

verus! {

/// The mDNS backend.
#[derive(Debug, Clone, Copy, PartialEq, Eq, Structural)]
pub struct Mdns {}

/// The name under which services are announced.
pub open spec fn service_name() -> Seq<char> {
    "_crossgate._tcp.local"@
}

impl Mdns {
    /// The backend.
    pub fn new() -> (r: Self)
        ensures
            r == (Mdns {  }),
    {
        Mdns {  }
    }

    /// The name under which services are announced.
    pub fn announced_name() -> (r: &'static str)
        ensures
            r@ == service_name(),
    {
        "_crossgate._tcp.local"
    }
}

impl Plugin for Mdns {
    open spec fn web_services(&self, key: Seq<char>) -> Option<Seq<Content>> {
        None
    }

    /// Accepts the record, and announces nothing.
    fn register_service(&mut self, key: &str, sc: ServiceContent) -> (r: Result<(), PluginError>)
        ensures
            r is Ok,
    {
        Ok(())
    }

    /// Finds no record: the failure names the key.
    fn get_web_service(&self, key: &str) -> (r: Result<Vec<ServiceContent>, PluginError>)
        ensures
            r matches Err(PluginError::Error(k)) && k@ == key@,
    {
        Err(PluginError::Error(String::from_str(key)))
    }

    /// Finds no peer: the failure names the key.
    fn get_backend_service(&self, key: &str) -> (r: Result<(String, Vec<String>), PluginError>)
        ensures
            r matches Err(PluginError::Error(k)) && k@ == key@,
    {
        Err(PluginError::Error(String::from_str(key)))
    }
}

} // verus!
