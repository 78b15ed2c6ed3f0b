//! The registry as a service or a gateway sees it: which records a process
//! registers, and how the records of a service become an endpoint.

use crate::lba::{parse_lba, tag_of, Algorithm, LoadBalancerAlgorithm, parse_tag};
use crate::plugin::{content_views, Content, PluginError, ServiceContent};
use crate::service::Endpoint;
use crate::text::{
    append, chars_of, decimal, decimal_of, is_sorted, same_text, sort_strings, split,
    split_chars, string_of, string_views, views,
};
use vstd::prelude::*;
use vstd::string::StringExecFns;

verus! {

/// A failure of the registry facade.
#[derive(Debug, Clone, PartialEq, Eq)]
pub enum RegisterError {
    /// A registration was refused; the text says why.
    RegisterError(String),
    /// No service is known under the name asked for.
    ServiceError(String),
}

impl RegisterError {
    /// The text of the failure.
    pub open spec fn text(self) -> Seq<char> {
        match self {
            RegisterError::RegisterError(key) => "the register for key `"@ + key@
                + "` is not available"@,
            RegisterError::ServiceError(key) => "the service for key `"@ + key@
                + "` is not available"@,
        }
    }

    /// The text of the failure.
    pub fn message(&self) -> (r: String)
        ensures
            r@ == self.text(),
    {
        match self {
            RegisterError::RegisterError(key) => {
                let mut r = String::from_str("the register for key `");
                r.append(key.as_str());
                r.append("` is not available");
                r
            },
            RegisterError::ServiceError(key) => {
                let mut r = String::from_str("the service for key `");
                r.append(key.as_str());
                r.append("` is not available");
                r
            },
        }
    }
}

/// The address that a web service advertises: the override where one is
/// set, and else the local address and the port, joined by a colon.
pub open spec fn advertised(local_ip: Seq<char>, port: u16, strict_address: Seq<char>) -> Seq<
    char,
> {
    if strict_address.len() > 0 {
        strict_address
    } else {
        local_ip + seq![':'] + decimal(port as nat)
    }
}

/// The records that register a web service: one for each of the names that
/// the comma-separated list holds, in order, all with the same tag and
/// address.
pub open spec fn web_records(names: Seq<char>, tag: Seq<char>, addr: Seq<char>) -> Seq<Content> {
    let list = split(names, ',');
    Seq::new(list.len(), |i: int| Content { service: list[i], lba: tag, addr: addr, kind: 1 })
}

/// Whether a record belongs to an algorithm: its tag is the algorithm's,
/// and for strict its address is the pinned one.
pub open spec fn admits(algorithm: Algorithm, record: Content) -> bool {
    &&& record.lba == tag_of(algorithm)
    &&& algorithm matches Algorithm::Strict(pinned) ==> record.addr == pinned
}

/// The addresses of the records that belong to `algorithm`, in order.
pub open spec fn addresses_for(records: Seq<Content>, algorithm: Algorithm) -> Seq<Seq<char>>
    decreases records.len(),
{
    if records.len() == 0 {
        Seq::empty()
    } else {
        let before = addresses_for(records.drop_last(), algorithm);
        if admits(algorithm, records.last()) {
            before.push(records.last().addr)
        } else {
            before
        }
    }
}

/// The addresses of all the records, in order.
pub open spec fn addresses_of(records: Seq<Content>) -> Seq<Seq<char>> {
    Seq::new(records.len(), |i: int| records[i].addr)
}

/// The text of the answer when no service is found.
pub open spec fn not_found_text() -> Seq<char> {
    "service not found "@
}

/// The registry facade.
#[derive(Debug, Clone, Copy)]
pub struct Register;

impl Default for Register {
    fn default() -> (r: Self)
        ensures
            r == Register,
    {
        Register
    }
}

impl Register {
    /// The address that a web service advertises.
    pub fn advertised_address(&self, local_ip: &str, port: u16, strict_address: &str) -> (r:
        String)
        ensures
            r@ == advertised(local_ip@, port, strict_address@),
    {
        if !strict_address.is_empty() {
            String::from_str(strict_address)
        } else {
            let mut addr = chars_of(local_ip);
            addr.push(':');
            let digits = decimal_of(port as u64);
            append(&mut addr, digits.as_slice());
            string_of(addr.as_slice())
        }
    }

    /// The records to register for a web service that serves the names of
    /// the comma-separated list `names`; each is registered under the name
    /// it holds.
    pub fn register_web_service(&self, names: &str, lba: &LoadBalancerAlgorithm, addr: &str) -> (r:
        Vec<ServiceContent>)
        ensures
            content_views(r@) == web_records(names@, tag_of(lba@), addr@),
    {
        let list = split_chars(chars_of(names).as_slice(), ',');
        let mut r: Vec<ServiceContent> = Vec::new();
        let mut i: usize = 0;
        while i < list.len()
            invariant
                i <= list.len(),
                views(list@) == split(names@, ','),
                r.len() == i,
                forall|k: int|
                    0 <= k < i ==> (#[trigger] r@[k])@ == (Content {
                        service: split(names@, ',')[k],
                        lba: tag_of(lba@),
                        addr: addr@,
                        kind: 1,
                    }),
            decreases list.len() - i,
        {
            assert(views(list@)[i as int] == list@[i as int]@);
            r.push(
                ServiceContent {
                    service: string_of(list[i].as_slice()),
                    lba: lba.to_string(),
                    addr: String::from_str(addr),
                    kind: 1,
                },
            );
            i += 1;
        }
        assert(content_views(r@) =~= web_records(names@, tag_of(lba@), addr@));
        r
    }

    /// The record to register for a backend service of the given group.
    pub fn register_backend_service(&self, group: &str) -> (r: ServiceContent)
        ensures
            r@ == (Content {
                service: group@,
                lba: Seq::empty(),
                addr: Seq::empty(),
                kind: 2,
            }),
    {
        ServiceContent {
            service: String::from_str(group),
            lba: String::new(),
            addr: String::new(),
            kind: 2,
        }
    }

    /// The failure of a registration that the backend refused.
    pub fn registration_failed(&self, refusal: &PluginError) -> (r: RegisterError)
        ensures
            r matches RegisterError::RegisterError(detail) && detail@ == refusal.text(),
    {
        RegisterError::RegisterError(refusal.message())
    }

    /// What a registration comes to, from what the backend said of it: a
    /// record that the backend took is registered, and a record that it
    /// refused fails the registration, and with it the whole operation that
    /// the record belongs to, with what the backend said.
    pub fn after_register(&self, outcome: Result<(), PluginError>) -> (r: Result<(), RegisterError>)
        ensures
            match outcome {
                Ok(()) => r is Ok,
                Err(refusal) => r matches Err(RegisterError::RegisterError(detail)) && detail@
                    == refusal.text(),
            },
    {
        match outcome {
            Ok(()) => Ok(()),
            Err(refusal) => Err(self.registration_failed(&refusal)),
        }
    }

    /// The peers of a backend service, from the backend's answer: the
    /// caller's own id, and the ids of all peers in ascending order.
    pub fn get_backend_service(&self, answer: Result<(String, Vec<String>), PluginError>) -> (r:
        Result<(String, Vec<String>), RegisterError>)
        ensures
            match answer {
                Ok((own, ids)) => r matches Ok((id, sorted)) && id@ == own@ && is_sorted(
                    string_views(sorted@),
                ) && string_views(sorted@).to_multiset() == string_views(ids@).to_multiset(),
                Err(_) => r matches Err(RegisterError::ServiceError(detail)) && detail@
                    == not_found_text(),
            },
    {
        match answer {
            Ok((own, ids)) => {
                let mut ids = ids;
                sort_strings(&mut ids);
                Ok((own, ids))
            },
            Err(_) => Err(RegisterError::ServiceError(String::from_str("service not found "))),
        }
    }

    /// The endpoint of a service for one algorithm, from the backend's
    /// answer: the addresses of the records that belong to the algorithm.
    /// The endpoint may be empty.
    pub fn get_web_service_by_lba(
        &self,
        answer: Result<Vec<ServiceContent>, PluginError>,
        lba: LoadBalancerAlgorithm,
    ) -> (r: Result<(LoadBalancerAlgorithm, Endpoint), RegisterError>)
        ensures
            match answer {
                Ok(records) => r matches Ok((algorithm, endpoint)) && algorithm@ == lba@
                    && endpoint@ == addresses_for(content_views(records@), lba@),
                Err(_) => r matches Err(RegisterError::ServiceError(detail)) && detail@
                    == not_found_text(),
            },
    {
        let records = match answer {
            Ok(records) => records,
            Err(_) => {
                return Err(RegisterError::ServiceError(String::from_str("service not found ")));
            },
        };
        let tag = lba.to_string();
        let mut addresses: Vec<String> = Vec::new();
        let mut i: usize = 0;
        assert(content_views(records@).take(0) =~= Seq::<Content>::empty());
        while i < records.len()
            invariant
                i <= records.len(),
                tag@ == tag_of(lba@),
                string_views(addresses@) == addresses_for(
                    content_views(records@).take(i as int),
                    lba@,
                ),
            decreases records.len() - i,
        {
            let record = &records[i];
            proof {
                let done = content_views(records@).take(i + 1);
                assert(done.drop_last() == content_views(records@).take(i as int));
                assert(done.last() == records@[i as int]@);
            }
            let pinned_ok = match &lba {
                LoadBalancerAlgorithm::Strict(pinned) => same_text(
                    record.addr.as_str(),
                    pinned.as_str(),
                ),
                _ => true,
            };
            if same_text(record.lba.as_str(), tag.as_str()) && pinned_ok {
                let ghost before = string_views(addresses@);
                addresses.push(record.addr.clone());
                assert(string_views(addresses@) =~= before.push(record.addr@));
            }
            i += 1;
        }
        assert(content_views(records@).take(records.len() as int) == content_views(records@));
        Ok((lba, Endpoint::new(addresses)))
    }

    /// The endpoint of a service, from the backend's answer: all the
    /// addresses, with the algorithm that the first record names. A failed
    /// answer, or one without records, is the failure that no service was
    /// found.
    pub fn get_web_service(&self, answer: Result<Vec<ServiceContent>, PluginError>) -> (r: Result<
        (LoadBalancerAlgorithm, Endpoint),
        RegisterError,
    >)
        ensures
            match answer {
                Ok(records) if records.len() > 0 => r matches Ok((algorithm, endpoint))
                    && algorithm@ == parse_tag(records[0]@.lba) && endpoint@ == addresses_of(
                    content_views(records@),
                ),
                _ => r matches Err(RegisterError::ServiceError(detail)) && detail@
                    == not_found_text(),
            },
    {
        let records = match answer {
            Ok(records) => records,
            Err(_) => {
                return Err(RegisterError::ServiceError(String::from_str("service not found ")));
            },
        };
        if records.len() == 0 {
            return Err(RegisterError::ServiceError(String::from_str("service not found ")));
        }
        let lba = parse_lba(records[0].lba.as_str());
        let mut addresses: Vec<String> = Vec::new();
        let mut i: usize = 0;
        while i < records.len()
            invariant
                i <= records.len(),
                addresses.len() == i,
                forall|k: int| 0 <= k < i ==> (#[trigger] addresses@[k])@ == records@[k]@.addr,
            decreases records.len() - i,
        {
            addresses.push(records[i].addr.clone());
            i += 1;
        }
        assert(string_views(addresses@) =~= addresses_of(content_views(records@)));
        Ok((lba, Endpoint::new(addresses)))
    }
}

} // verus!
