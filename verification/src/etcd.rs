//! The etcd backend: the keys under which registrations stand, what a
//! registration asks of the store, and the background work of each role.

use crate::cache::{
    contents, contents_of, entry_views, ids, ids_of, own_id, upserted, CacheMap, Entry, OwnedSet,
    ServiceEntry,
};
use crate::plugin::{content_views, Content, ServiceContent};
use crate::synchronize::{
    cache_after, order_for, renew_step, watch_step, Order, OrderView, StoreEvent, Wake,
};
use crate::text::{
    chars_of, copy_range, has_prefix, split, split_chars, starts_with, string_of, string_views,
    views,
};
use vstd::prelude::*;
use vstd::string::StringExecFns;

verus! {

/// The number of seconds for which the store keeps a registration that is
/// not renewed.
pub const LEASE: i64 = 3;

/// The prefix of a registry address for etcd.
pub open spec fn etcd_prefix() -> Seq<char> {
    "etcd://"@
}

/// The prefix of the keys of web services.
pub open spec fn web_prefix() -> Seq<char> {
    "/web/service"@
}

/// The prefix of the keys of backend services.
pub open spec fn backend_prefix() -> Seq<char> {
    "/backend/service"@
}

/// The key in the store for a registration of the given kind under `key`:
/// the prefix of the kind and the key; empty for a kind that is neither a
/// web nor a backend service.
pub open spec fn store_key(key: Seq<char>, kind: int) -> Seq<char> {
    if kind == 1 {
        web_prefix() + key
    } else if kind == 2 {
        backend_prefix() + key
    } else {
        Seq::empty()
    }
}

/// The key under which a process owns a registration: the key it was asked
/// to register under, a slash and the address of the record.
pub open spec fn owned_key(key: Seq<char>, addr: Seq<char>) -> Seq<char> {
    key + seq!['/'] + addr
}

/// What a registration asks of the store: put the record under the key,
/// bound to a lease of so many seconds that is kept alive.
#[derive(Debug, Clone, PartialEq, Eq)]
pub struct PutRequest {
    pub key: String,
    pub value: ServiceContent,
    pub lease: i64,
}

/// Where a lookup of the etcd backend finds its answer.
#[derive(Debug, Clone, PartialEq, Eq)]
pub enum Lookup<T> {
    /// In the cache.
    Cached(T),
    /// In the store: everything under this prefix.
    Ask(String),
}

/// The store keys of entries, in order.
pub open spec fn store_keys_of(entries: Seq<Entry>) -> Seq<Seq<char>> {
    Seq::new(entries.len(), |i: int| store_key(entries[i].id, entries[i].content.kind))
}

/// The local state of the etcd backend: the registrations that the process
/// owns, each under its owned key, and the cache.
pub struct EtcdPlugin {
    inner: OwnedSet,
    cache: CacheMap,
}

impl EtcdPlugin {
    /// The state is sound: the cache holds each service once, and the
    /// process owns one registration for each id.
    pub closed spec fn wf(&self) -> bool {
        self.cache.wf() && self.inner.wf()
    }

    /// The registrations that the process owns.
    pub closed spec fn owned(&self) -> Seq<Entry> {
        self.inner@
    }

    /// The cache.
    pub closed spec fn cached(&self) -> Map<Seq<char>, Seq<Entry>> {
        self.cache@
    }

    /// A backend that owns nothing and has seen nothing.
    pub fn new() -> (r: Self)
        ensures
            r.wf(),
            r.owned() == Seq::<Entry>::empty(),
            r.cached() == Map::<Seq<char>, Seq<Entry>>::empty(),
    {
        EtcdPlugin { inner: OwnedSet::new(), cache: CacheMap::new() }
    }

    /// The endpoints of the store that a registry address lists: what
    /// follows `etcd://`, split at the commas. The address must have the
    /// prefix.
    pub fn validation_parse_uri(uri: &str) -> (r: Vec<String>)
        requires
            starts_with(uri@, etcd_prefix()),
        ensures
            string_views(r@) == split(uri@.skip(etcd_prefix().len() as int), ','),
    {
        let text = chars_of(uri);
        let prefix = chars_of("etcd://");
        let rest = copy_range(text.as_slice(), prefix.len(), text.len());
        let parts = split_chars(rest.as_slice(), ',');
        let mut r: Vec<String> = Vec::new();
        let mut k: usize = 0;
        while k < parts.len()
            invariant
                k <= parts.len(),
                r.len() == k,
                forall|j: int| 0 <= j < k ==> (#[trigger] r@[j])@ == parts@[j]@,
            decreases parts.len() - k,
        {
            r.push(string_of(parts[k].as_slice()));
            k += 1;
        }
        assert(string_views(r@) =~= views(parts@));
        r
    }

    /// The endpoints of the store that a registry address lists, if the
    /// address has the prefix `etcd://`.
    pub fn checked_parse_uri(uri: &str) -> (r: Option<Vec<String>>)
        ensures
            match r {
                Some(endpoints) => starts_with(uri@, etcd_prefix()) && string_views(endpoints@)
                    == split(uri@.skip(etcd_prefix().len() as int), ','),
                None => !starts_with(uri@, etcd_prefix()),
            },
    {
        if has_prefix(chars_of(uri).as_slice(), chars_of("etcd://").as_slice()) {
            Some(Self::validation_parse_uri(uri))
        } else {
            None
        }
    }

    /// The key in the store for a registration of the given kind.
    pub fn service_key(key: &str, kind: i32) -> (r: String)
        ensures
            r@ == store_key(key@, kind as int),
    {
        if kind == 1 {
            String::from_str("/web/service").concat(key)
        } else if kind == 2 {
            String::from_str("/backend/service").concat(key)
        } else {
            String::new()
        }
    }

    /// What registering `sc` under the owned key `key` asks of the store.
    pub fn register(key: &str, sc: &ServiceContent) -> (r: PutRequest)
        ensures
            r.key@ == store_key(key@, sc@.kind),
            r.value@ == sc@,
            r.lease == LEASE,
    {
        PutRequest { key: Self::service_key(key, sc.kind), value: sc.duplicate(), lease: LEASE }
    }

    /// The keys to delete from the store when the process shuts down: the
    /// store key of every registration it owns.
    pub fn unregister(&self) -> (r: Vec<String>)
        ensures
            string_views(r@) == store_keys_of(self.owned()),
    {
        let owned = self.inner.entries();
        let mut r: Vec<String> = Vec::new();
        let mut k: usize = 0;
        while k < owned.len()
            invariant
                k <= owned.len(),
                r.len() == k,
                forall|j: int|
                    0 <= j < k ==> (#[trigger] r@[j])@ == store_key(
                        owned@[j]@.id,
                        owned@[j]@.content.kind,
                    ),
            decreases owned.len() - k,
        {
            r.push(Self::service_key(owned[k].id.as_str(), owned[k].content.kind));
            k += 1;
        }
        assert(string_views(r@) =~= store_keys_of(entry_views(owned@)));
        r
    }

    /// Registers `sc` under `key`: the process now owns the registration
    /// under the owned key, the cache holds it under that key, and the
    /// request is what the store is to be asked.
    pub fn register_service(&mut self, key: &str, sc: ServiceContent) -> (r: PutRequest)
        requires
            old(self).wf(),
        ensures
            final(self).wf(),
            final(self).owned() == upserted(
                old(self).owned(),
                Entry { id: owned_key(key@, sc@.addr), content: sc@ },
            ),
            final(self).cached() == old(self).cached().insert(
                owned_key(key@, sc@.addr),
                seq![Entry { id: owned_key(key@, sc@.addr), content: sc@ }],
            ),
            r.key@ == store_key(owned_key(key@, sc@.addr), sc@.kind),
            r.value@ == sc@,
            r.lease == LEASE,
    {
        let mut name = String::from_str(key);
        name.append("/");
        name.append(sc.addr.as_str());
        proof {
            reveal_strlit("/");
            assert(name@ =~= owned_key(key@, sc@.addr));
        }
        let entry = ServiceEntry { id: name.clone(), content: sc.duplicate() };
        let mut bucket: Vec<ServiceEntry> = Vec::new();
        bucket.push(entry.duplicate());
        assert(entry_views(bucket@) =~= seq![entry@]);
        self.cache.fill(name.as_str(), bucket);
        self.inner.insert(entry);
        Self::register(name.as_str(), &sc)
    }

    /// The web-service records under `key`: those of the cache where it
    /// holds the key with the web prefix, and else a question to the store
    /// for everything under that prefixed key.
    pub fn get_web_service(&self, key: &str) -> (r: Lookup<Vec<ServiceContent>>)
        requires
            self.wf(),
        ensures
            match r {
                Lookup::Cached(records) => self.cached().dom().contains(web_prefix() + key@)
                    && content_views(records@) == contents_of(
                    self.cached()[web_prefix() + key@],
                ),
                Lookup::Ask(prefix) => !self.cached().dom().contains(web_prefix() + key@)
                    && prefix@ == web_prefix() + key@,
            },
    {
        let name = String::from_str("/web/service").concat(key);
        match self.cache.get(name.as_str()) {
            Some(entries) => Lookup::Cached(contents(&entries)),
            None => Lookup::Ask(name),
        }
    }

    /// Takes in what the store listed under a prefixed key: the cache holds
    /// the listing under the key, and the records of the listing are handed
    /// on.
    pub fn list_service_content(&mut self, key: &str, listing: Vec<ServiceEntry>) -> (r: Vec<
        ServiceContent,
    >)
        requires
            old(self).wf(),
        ensures
            final(self).wf(),
            final(self).cached() == old(self).cached().insert(key@, entry_views(listing@)),
            final(self).owned() == old(self).owned(),
            content_views(r@) == contents_of(entry_views(listing@)),
    {
        let r = contents(&listing);
        self.cache.fill(key, listing);
        r
    }

    /// The process's own key under `key`, and the keys of its peers: those
    /// of the cache where it holds the key with the backend prefix, and
    /// else a question to the store for everything under that prefixed
    /// key.
    pub fn get_backend_service(&self, key: &str) -> (r: (String, Lookup<Vec<String>>))
        requires
            self.wf(),
        ensures
            r.0@ == own_id(self.owned(), key@),
            match r.1 {
                Lookup::Cached(peers) => self.cached().dom().contains(backend_prefix() + key@)
                    && string_views(peers@) == ids_of(self.cached()[backend_prefix() + key@]),
                Lookup::Ask(prefix) => !self.cached().dom().contains(backend_prefix() + key@)
                    && prefix@ == backend_prefix() + key@,
            },
    {
        let own = self.inner.id_for(key);
        let name = String::from_str("/backend/service").concat(key);
        match self.cache.get(name.as_str()) {
            Some(entries) => (own, Lookup::Cached(ids(&entries))),
            None => (own, Lookup::Ask(name)),
        }
    }

    /// A gateway watches: a change of the store is noted in the cache.
    pub fn gateway_service_handle(&mut self, event: &StoreEvent)
        requires
            old(self).wf(),
        ensures
            final(self).wf(),
            final(self).cached() == cache_after(old(self).cached(), event@),
            final(self).owned() == old(self).owned(),
    {
        watch_step(&mut self.cache, event);
    }

    /// A backend service renews and watches: the timer asks for the renewal
    /// of everything the process owns, a change of the store is noted in
    /// the cache, and cancellation asks for the withdrawal of everything
    /// the process owns.
    pub fn backend_service_handle(&mut self, wake: &Wake) -> (order: Order)
        requires
            old(self).wf(),
        ensures
            final(self).wf(),
            order@ == order_for(old(self).owned(), *wake),
            final(self).owned() == old(self).owned(),
            final(self).cached() == match *wake {
                Wake::Event(event) => cache_after(old(self).cached(), event@),
                _ => old(self).cached(),
            },
    {
        match wake {
            Wake::Event(event) => {
                watch_step(&mut self.cache, event);
            },
            _ => {},
        }
        renew_step(&self.inner, wake)
    }

    /// A web service renews: the timer asks for the renewal of everything
    /// the process owns, and cancellation for its withdrawal.
    pub fn web_service_handle(&self, wake: &Wake) -> (order: Order)
        ensures
            order@ == order_for(self.owned(), *wake),
    {
        renew_step(&self.inner, wake)
    }
}

} // verus!
