//! The Consul backend: where the catalog is reached, and the catalog entry
//! that stands for a registration.

use crate::plugin::{Content, ServiceContent};
use crate::text::{
    append, chars_of, copy_range, decimal, decimal_of, has_prefix, opt_text, starts_with,
    string_of, string_views,
};
use url::{ParseError, Url};
use vstd::pervasive::unreached;
use vstd::prelude::*;
use vstd::string::StringExecFns;

verus! {

/// The failure with which the URL library refuses a text as a URL.
#[verifier::external_type_specification]
#[verifier::external_body]
pub struct ExParseError(ParseError);

/// The scheme, the host and the port that a URL spells, the port only
/// where it is written and is not the scheme's own; `None` where the text
/// is no URL.
pub uninterp spec fn url_parts(s: Seq<char>) -> Option<(Seq<char>, Option<Seq<char>>, Option<u16>)>;

/// `Url::parse`, with what `Url::scheme`, `Url::host` and `Url::port` give
/// for the parsed URL copied out.
#[verifier::external_body]
fn parse_url(s: &str) -> (r: Result<(String, Option<String>, Option<u16>), ParseError>)
    ensures
        match r {
            Ok((scheme, host, port)) => url_parts(s@) == Some((scheme@, opt_text(host), port)),
            Err(_) => url_parts(s@) is None,
        },
{
    let url = Url::parse(s)?;
    Ok((url.scheme().to_string(), url.host().map(|host| host.to_string()), url.port()))
}

/// The prefix of a registry address for Consul.
pub open spec fn consul_prefix() -> Seq<char> {
    "consul://"@
}

/// The catalog that a registry address names: the scheme, host and port of
/// the URL that follows `consul://`. An address without that prefix, or
/// without a URL that has a host and a port behind it, names none.
pub open spec fn consul_target(uri: Seq<char>) -> Option<(Seq<char>, Seq<char>, u16)> {
    if !starts_with(uri, consul_prefix()) {
        None
    } else {
        match url_parts(uri.skip(consul_prefix().len() as int)) {
            Some((scheme, Some(host), Some(port))) => Some((scheme, host, port)),
            _ => None,
        }
    }
}

/// The address under which the catalog is reached.
pub open spec fn catalog_address(scheme: Seq<char>, host: Seq<char>, port: u16) -> Seq<char> {
    scheme + "://"@ + host + seq![':'] + decimal(port as nat)
}

/// The catalog entry that stands for a registration.
#[derive(Debug, Clone, PartialEq, Eq)]
pub struct CatalogEntry {
    pub node: String,
    pub address: String,
    pub service: String,
    pub tags: Vec<String>,
    pub port: u16,
}

/// The Consul backend.
#[derive(Debug, Clone)]
pub struct ConsulPlugin {
    address: String,
}

impl ConsulPlugin {
    /// The address under which the catalog is reached.
    pub closed spec fn address(&self) -> Seq<char> {
        self.address@
    }

    /// What follows the prefix of a registry address.
    fn after_prefix(uri: &str) -> (r: Option<String>)
        ensures
            match r {
                Some(rest) => starts_with(uri@, consul_prefix()) && rest@ == uri@.skip(
                    consul_prefix().len() as int,
                ),
                None => !starts_with(uri@, consul_prefix()),
            },
    {
        let text = chars_of(uri);
        let prefix = chars_of("consul://");
        if !has_prefix(text.as_slice(), prefix.as_slice()) {
            return None;
        }
        let rest = copy_range(text.as_slice(), prefix.len(), text.len());
        Some(string_of(rest.as_slice()))
    }

    /// The scheme, host and port of the catalog that a registry address
    /// names. The address must name one.
    pub fn validation_parse_uri(uri: &str) -> (r: (String, String, u16))
        requires
            consul_target(uri@) is Some,
        ensures
            consul_target(uri@) == Some((r.0@, r.1@, r.2)),
    {
        let rest = match Self::after_prefix(uri) {
            Some(rest) => rest,
            None => unreached(),
        };
        match parse_url(rest.as_str()) {
            Ok((scheme, Some(host), Some(port))) => (scheme, host, port),
            _ => unreached(),
        }
    }

    /// The scheme, host and port of the catalog that a registry address
    /// names, if it names one.
    pub fn checked_parse_uri(uri: &str) -> (r: Option<(String, String, u16)>)
        ensures
            match r {
                Some((scheme, host, port)) => consul_target(uri@) == Some((scheme@, host@, port)),
                None => consul_target(uri@) is None,
            },
    {
        let rest = match Self::after_prefix(uri) {
            Some(rest) => rest,
            None => {
                return None;
            },
        };
        match parse_url(rest.as_str()) {
            Ok((_, Some(_), Some(_))) => Some(Self::validation_parse_uri(uri)),
            _ => None,
        }
    }

    /// The backend for the catalog that a registry address names.
    pub fn new(uri: &str) -> (r: Option<Self>)
        ensures
            match r {
                Some(plugin) => consul_target(uri@) matches Some((scheme, host, port))
                    && plugin.address() == catalog_address(scheme, host, port),
                None => consul_target(uri@) is None,
            },
    {
        match Self::checked_parse_uri(uri) {
            Some((scheme, host, port)) => {
                let mut address = chars_of(scheme.as_str());
                append(&mut address, chars_of("://").as_slice());
                append(&mut address, chars_of(host.as_str()).as_slice());
                address.push(':');
                append(&mut address, decimal_of(port as u64).as_slice());
                Some(ConsulPlugin { address: string_of(address.as_slice()) })
            },
            None => None,
        }
    }

    /// The address under which the catalog is reached.
    pub fn catalog(&self) -> (r: &str)
        ensures
            r@ == self.address(),
    {
        self.address.as_str()
    }

    /// The catalog entry for a registration under `key`: the node and its
    /// address are the record's address, the service is the record's, the
    /// tags are the key and the record's algorithm, and the port is zero.
    pub fn register_service(&self, key: &str, sc: &ServiceContent) -> (r: CatalogEntry)
        ensures
            r.node@ == sc@.addr,
            r.address@ == sc@.addr,
            r.service@ == sc@.service,
            string_views(r.tags@) == seq![key@, sc@.lba],
            r.port == 0,
    {
        let mut tags: Vec<String> = Vec::new();
        tags.push(String::from_str(key));
        tags.push(sc.lba.clone());
        assert(string_views(tags@) =~= seq![key@, sc@.lba]);
        CatalogEntry {
            node: sc.addr.clone(),
            address: sc.addr.clone(),
            service: sc.service.clone(),
            tags,
            port: 0,
        }
    }
}

} // verus!
