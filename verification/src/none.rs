//! The backend of a process that uses no registry.

use crate::plugin::{content_views, Content, Plugin, PluginError, ServiceContent};
use crate::synchronize::{Order, OrderView, StoreEvent, Wake};
use crate::text::string_views;
use vstd::prelude::*;

verus! {

/// The backend that registers nothing and knows no service.
#[derive(Debug, Clone, Copy, PartialEq, Eq, Structural)]
pub struct NonePlugin;

impl NonePlugin {
    /// The backend.
    pub fn new() -> (r: Self)
        ensures
            r == NonePlugin,
    {
        NonePlugin
    }

    /// A gateway on this backend watches nothing.
    pub fn gateway_service_handle(&mut self, event: &StoreEvent)
        ensures
            *final(self) == *old(self),
    {
    }

    /// A backend service on this backend idles until it is cancelled, and
    /// then has nothing to withdraw.
    pub fn backend_service_handle(&mut self, wake: &Wake) -> (order: Order)
        ensures
            order@ == match *wake {
                Wake::Cancelled => OrderView::Withdraw(Seq::empty()),
                _ => OrderView::Idle,
            },
    {
        match wake {
            Wake::Cancelled => {
                let none: Vec<crate::cache::ServiceEntry> = Vec::new();
                let order = Order::Withdraw(none);
                assert(crate::cache::entry_views(none@) =~= Seq::empty());
                order
            },
            _ => Order::Idle,
        }
    }

    /// A web service on this backend has no background work.
    pub fn web_service_handle(&mut self, wake: &Wake) -> (order: Order)
        ensures
            order@ == OrderView::Idle,
    {
        Order::Idle
    }
}

impl Plugin for NonePlugin {
    open spec fn web_services(&self, key: Seq<char>) -> Option<Seq<Content>> {
        Some(Seq::empty())
    }

    /// Registers nothing, and succeeds.
    fn register_service(&mut self, key: &str, sc: ServiceContent) -> (r: Result<(), PluginError>)
        ensures
            r is Ok,
    {
        Ok(())
    }

    /// Knows no web service.
    fn get_web_service(&self, key: &str) -> (r: Result<Vec<ServiceContent>, PluginError>)
    {
        let records: Vec<ServiceContent> = Vec::new();
        assert(content_views(records@) =~= Seq::empty());
        Ok(records)
    }

    /// Knows no peer, and no id of its own.
    fn get_backend_service(&self, key: &str) -> (r: Result<(String, Vec<String>), PluginError>)
        ensures
            r matches Ok((own, ids)) && own@.len() == 0 && ids@.len() == 0,
    {
        Ok((String::new(), Vec::new()))
    }
}

} // verus!
