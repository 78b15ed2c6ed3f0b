//! The resolved view of a service, and the failures of user-level services.

use crate::text::string_views;
use std::sync::Arc;
use vstd::prelude::*;
use vstd::string::StringExecFns;

verus! {

/// A failure of a service, or of the transport that carries its calls.
#[derive(Debug, Clone, PartialEq, Eq)]
pub enum ServiceError {
    Other(String),
    Transport(String),
}

impl ServiceError {
    /// The text of the failure.
    pub open spec fn text(self) -> Seq<char> {
        match self {
            ServiceError::Other(detail) => "Service error: "@ + detail@,
            ServiceError::Transport(detail) => "Transport error: "@ + detail@,
        }
    }

    /// The text of the failure.
    pub fn message(&self) -> (r: String)
        ensures
            r@ == self.text(),
    {
        match self {
            ServiceError::Other(detail) => String::from_str("Service error: ").concat(
                detail.as_str(),
            ),
            ServiceError::Transport(detail) => String::from_str("Transport error: ").concat(
                detail.as_str(),
            ),
        }
    }
}

/// The layer that carries the calls of a user-level service: it turns what
/// a serializer of type `S` holds into a value of type `T`, and back.
pub trait Transport<S, T> {
    /// Reads a value out of the serializer.
    fn decode(&self, serializer: S) -> Result<T, ServiceError>;

    /// Writes through the serializer, and hands back what came of it.
    fn encode(&self, serializer: S) -> Result<T, ServiceError>;
}

/// The addresses of one logical service, in the order in which they were
/// resolved.
#[derive(Debug, Clone)]
pub struct Endpoint {
    addresses: Arc<Vec<String>>,
}

impl View for Endpoint {
    type V = Seq<Seq<char>>;

    closed spec fn view(&self) -> Seq<Seq<char>> {
        string_views((*self.addresses)@)
    }
}

impl Endpoint {
    /// The endpoint of the given addresses.
    pub fn new(addresses: Vec<String>) -> (r: Self)
        ensures
            r@ == string_views(addresses@),
    {
        Self { addresses: Arc::new(addresses) }
    }

    /// The addresses, in order.
    pub fn get_service_addresses(&self) -> (r: &[String])
        ensures
            string_views(r@) == self@,
    {
        self.addresses.as_slice()
    }

    /// Whether the endpoint has no address.
    pub fn is_empty(&self) -> (r: bool)
        ensures
            r == (self@.len() == 0),
    {
        self.addresses.len() == 0
    }
}

} // verus!
