//! The MongoDB backend: the ids of registrations, what a registration asks
//! of the store, how a listing and a change of the collection reach the
//! cache, and the background work of each role.

use crate::cache::{
    contents, contents_of, entry_views, ids, ids_of, own_id, upserted, CacheMap, Entry, OwnedSet,
    ServiceEntry,
};
use crate::plugin::{content_views, Content, ServiceContent};
use crate::synchronize::{
    cache_after, order_for, renew_step, watch_step, Change, Order, StoreEvent, Wake,
};
use crate::text::{is_sorted, opt_text, sort_strings, string_views};
use mongodb::bson::oid::ObjectId;
use vstd::prelude::*;

verus! {

/// The number of seconds after which the store drops a registration that
/// was not renewed.
pub const EXPIRE_AFTER: u64 = 2;

/// The number of seconds between two renewals.
pub const RENEW_EVERY: u64 = 2;

/// The name of the database.
pub open spec fn schema_name() -> Seq<char> {
    "crossgate"@
}

/// The name of the collection.
pub open spec fn collection_name() -> Seq<char> {
    "discovery"@
}

/// A digit of lower-case hexadecimal notation.
pub open spec fn is_hex_digit(c: char) -> bool {
    ('0' <= c <= '9') || ('a' <= c <= 'f')
}

/// The shape of an id: twenty-four hexadecimal digits.
pub open spec fn is_object_id(id: Seq<char>) -> bool {
    &&& id.len() == 24
    &&& forall|i: int| 0 <= i < id.len() ==> is_hex_digit(#[trigger] id[i])
}

/// `ObjectId::new` and the text of the id: a fresh id, which is made of the
/// time, the process and a counter, written as twenty-four hexadecimal
/// digits. The id differs from call to call, so nothing but its shape is
/// claimed. The driver reads the clock for it, and gives up on a clock that
/// stands before 1970 or after 2106.
#[verifier::external_body]
fn new_object_id() -> (id: String)
    ensures
        is_object_id(id@),
{
    ObjectId::new().to_string()
}

/// What a change of the collection did.
#[derive(Debug, Clone, Copy, PartialEq, Eq, Structural)]
pub enum OperationType {
    Insert,
    Update,
    Replace,
    Delete,
    Other,
}

/// What brings a registration to the store.
#[derive(Debug, Clone, PartialEq, Eq)]
pub enum StoreWrite {
    /// Insert the registration.
    Insert(ServiceEntry),
    /// Set the time of the registration of this id to now.
    Touch(String),
}

/// A write as a mathematical value.
pub enum Write {
    Insert(Entry),
    Touch(Seq<char>),
}

impl View for StoreWrite {
    type V = Write;

    open spec fn view(&self) -> Write {
        match self {
            StoreWrite::Insert(entry) => Write::Insert(entry@),
            StoreWrite::Touch(id) => Write::Touch(id@),
        }
    }
}

/// The event that a change of the collection is for the cache: an insert,
/// update or replacement that carries the document puts it; a deletion
/// that carries the id deletes it; anything else is nothing to the cache.
pub open spec fn event_of(
    operation: OperationType,
    document: Option<Entry>,
    id: Option<Seq<char>>,
) -> Change {
    match operation {
        OperationType::Insert | OperationType::Update | OperationType::Replace => match document {
            Some(entry) => Change::Put(entry),
            None => Change::Other,
        },
        OperationType::Delete => match id {
            Some(id) => Change::Delete(id),
            None => Change::Other,
        },
        OperationType::Other => Change::Other,
    }
}

/// The view of an optional entry.
pub open spec fn document_view(document: Option<ServiceEntry>) -> Option<Entry> {
    match document {
        Some(entry) => Some(entry@),
        None => None,
    }
}

/// The event that a change of the collection is for the cache.
pub fn store_event(
    operation: OperationType,
    full_document: Option<ServiceEntry>,
    document_key: Option<String>,
) -> (event: StoreEvent)
    ensures
        event@ == event_of(operation, document_view(full_document), opt_text(document_key)),
{
    match operation {
        OperationType::Insert | OperationType::Update | OperationType::Replace => {
            match full_document {
                Some(entry) => StoreEvent::Put(entry),
                None => StoreEvent::Other,
            }
        },
        OperationType::Delete => match document_key {
            Some(id) => StoreEvent::Delete(id),
            None => StoreEvent::Other,
        },
        OperationType::Other => StoreEvent::Other,
    }
}

/// Where a lookup of the MongoDB backend finds its answer.
#[derive(Debug, Clone, PartialEq, Eq)]
pub enum Found<T> {
    /// In the cache.
    Cached(T),
    /// In the store: list the registrations of the service and the kind.
    List { service: String, kind: i32 },
}

/// The local state of the MongoDB backend: the registrations that the
/// process owns, and the cache.
pub struct MongodbPlugin {
    inner: OwnedSet,
    cache: CacheMap,
}

impl MongodbPlugin {
    /// The state is sound: the cache holds each service once, and the
    /// process owns one registration for each id.
    pub closed spec fn wf(&self) -> bool {
        self.cache.wf() && self.inner.wf()
    }

    /// The registrations that the process owns.
    pub closed spec fn owned(&self) -> Seq<Entry> {
        self.inner@
    }

    /// The cache.
    pub closed spec fn cached(&self) -> Map<Seq<char>, Seq<Entry>> {
        self.cache@
    }

    /// A backend that owns nothing and has seen nothing.
    pub fn new() -> (r: Self)
        ensures
            r.wf(),
            r.owned() == Seq::<Entry>::empty(),
            r.cached() == Map::<Seq<char>, Seq<Entry>>::empty(),
    {
        MongodbPlugin { inner: OwnedSet::new(), cache: CacheMap::new() }
    }

    /// The names of the database and the collection.
    pub fn group_collection() -> (r: (&'static str, &'static str))
        ensures
            r.0@ == schema_name(),
            r.1@ == collection_name(),
    {
        ("crossgate", "discovery")
    }

    /// Notes an entry seen for a service in the cache.
    pub fn update_cache(&mut self, key: &str, c: &ServiceEntry)
        requires
            old(self).wf(),
        ensures
            final(self).wf(),
            final(self).cached() == crate::cache::cache_upserted(old(self).cached(), key@, c@),
            final(self).owned() == old(self).owned(),
    {
        self.cache.update_cache(key, c);
    }

    /// Drops the entries of an id from the cache.
    pub fn remove_cache(&mut self, id: &str)
        requires
            old(self).wf(),
        ensures
            final(self).wf(),
            final(self).cached() == crate::cache::cache_without_id(old(self).cached(), id@),
            final(self).owned() == old(self).owned(),
    {
        self.cache.remove_cache(id);
    }

    /// The registrations to bring to the store at a renewal: everything the
    /// process owns, oldest first.
    pub fn service_content_renewal(&self) -> (r: Vec<ServiceEntry>)
        ensures
            entry_views(r@) == self.owned(),
    {
        self.inner.entries()
    }

    /// What brings a registration to the store, given how many documents
    /// the store holds under its id: an insert where it holds none, and
    /// else a new time for the one it holds.
    pub fn service_content_apply(count: u64, id: &str, content: &ServiceContent) -> (r: StoreWrite)
        ensures
            r@ == if count == 0 {
                Write::Insert(Entry { id: id@, content: content@ })
            } else {
                Write::Touch(id@)
            },
    {
        if count == 0 {
            StoreWrite::Insert(ServiceEntry { id: id.to_owned(), content: content.duplicate() })
        } else {
            StoreWrite::Touch(id.to_owned())
        }
    }

    /// Takes in what the store listed for a service: the cache holds the
    /// listing under the service, and the listing is handed on.
    pub fn list_mongo_content(&mut self, key: &str, listing: Vec<ServiceEntry>) -> (r: Vec<
        ServiceEntry,
    >)
        requires
            old(self).wf(),
        ensures
            final(self).wf(),
            final(self).cached() == old(self).cached().insert(key@, entry_views(listing@)),
            final(self).owned() == old(self).owned(),
            entry_views(r@) == entry_views(listing@),
    {
        let mut copy: Vec<ServiceEntry> = Vec::new();
        let mut k: usize = 0;
        while k < listing.len()
            invariant
                k <= listing.len(),
                copy.len() == k,
                forall|j: int| 0 <= j < k ==> (#[trigger] copy@[j])@ == listing@[j]@,
            decreases listing.len() - k,
        {
            copy.push(listing[k].duplicate());
            k += 1;
        }
        assert(entry_views(copy@) =~= entry_views(listing@));
        self.cache.fill(key, copy);
        listing
    }

    /// Takes in what the store listed for a service, and hands on the
    /// records of the listing.
    pub fn list_service_content(&mut self, key: &str, listing: Vec<ServiceEntry>) -> (r: Vec<
        ServiceContent,
    >)
        requires
            old(self).wf(),
        ensures
            final(self).wf(),
            final(self).cached() == old(self).cached().insert(key@, entry_views(listing@)),
            final(self).owned() == old(self).owned(),
            content_views(r@) == contents_of(entry_views(listing@)),
    {
        let listing = self.list_mongo_content(key, listing);
        contents(&listing)
    }

    /// Takes a registration into what the process owns, under the id given.
    pub fn adopt(&mut self, id: String, content: &ServiceContent)
        ensures
            final(self).owned() == upserted(
                old(self).owned(),
                Entry { id: id@, content: content@ },
            ),
            final(self).cached() == old(self).cached(),
            old(self).wf() ==> final(self).wf(),
    {
        self.inner.insert(ServiceEntry { id, content: content.duplicate() });
    }

    /// Makes a fresh id for a registration and takes the registration into
    /// what the process owns.
    pub fn mongo_content_builder(&mut self, content: &ServiceContent) -> (id: String)
        ensures
            is_object_id(id@),
            final(self).owned() == upserted(
                old(self).owned(),
                Entry { id: id@, content: content@ },
            ),
            final(self).cached() == old(self).cached(),
            old(self).wf() ==> final(self).wf(),
    {
        let id = new_object_id();
        self.adopt(id.clone(), content);
        id
    }

    /// The ids to delete from the store when the process shuts down: the id
    /// of every registration it owns.
    pub fn service_unset(&self) -> (r: Vec<String>)
        ensures
            string_views(r@) == ids_of(self.owned()),
    {
        ids(&self.inner.entries())
    }

    /// Registers `val`: the process owns the registration under a fresh id,
    /// which is handed back for the store to be asked.
    pub fn register_service(&mut self, val: &ServiceContent) -> (entry: ServiceEntry)
        ensures
            is_object_id(entry@.id),
            entry@.content == val@,
            final(self).owned() == upserted(old(self).owned(), entry@),
            final(self).cached() == old(self).cached(),
            old(self).wf() ==> final(self).wf(),
    {
        let id = self.mongo_content_builder(val);
        ServiceEntry { id, content: val.duplicate() }
    }

    /// The web-service records of `k`: those of the cache where it holds
    /// the service, and else a listing of the store.
    pub fn get_web_service(&self, k: &str) -> (r: Found<Vec<ServiceContent>>)
        requires
            self.wf(),
        ensures
            match r {
                Found::Cached(records) => self.cached().dom().contains(k@) && content_views(
                    records@,
                ) == contents_of(self.cached()[k@]),
                Found::List { service, kind } => !self.cached().dom().contains(k@) && service@
                    == k@ && kind == 1,
            },
    {
        match self.cache.get(k) {
            Some(entries) => Found::Cached(contents(&entries)),
            None => Found::List { service: k.to_owned(), kind: 1 },
        }
    }

    /// The process's own id under `k`, and the ids of its peers: those of
    /// the cache where it holds the service, and else a listing of the
    /// store.
    pub fn get_backend_service(&self, k: &str) -> (r: (String, Found<Vec<String>>))
        requires
            self.wf(),
        ensures
            r.0@ == own_id(self.owned(), k@),
            match r.1 {
                Found::Cached(peers) => self.cached().dom().contains(k@) && string_views(peers@)
                    == ids_of(self.cached()[k@]),
                Found::List { service, kind } => !self.cached().dom().contains(k@) && service@
                    == k@ && kind == 2,
            },
    {
        let own = self.inner.id_for(k);
        match self.cache.get(k) {
            Some(entries) => (own, Found::Cached(ids(&entries))),
            None => (own, Found::List { service: k.to_owned(), kind: 2 }),
        }
    }

    /// The ids of the peers that the store listed, in ascending order.
    pub fn listed_peers(listing: &Vec<ServiceEntry>) -> (r: Vec<String>)
        ensures
            is_sorted(string_views(r@)),
            string_views(r@).to_multiset() == ids_of(entry_views(listing@)).to_multiset(),
    {
        let mut r = ids(listing);
        sort_strings(&mut r);
        r
    }

    /// A gateway watches: a change of the collection is noted in the cache.
    pub fn cache_refresh(&mut self, event: &StoreEvent)
        requires
            old(self).wf(),
        ensures
            final(self).wf(),
            final(self).cached() == cache_after(old(self).cached(), event@),
            final(self).owned() == old(self).owned(),
    {
        watch_step(&mut self.cache, event);
    }

    /// A web service renews: the timer asks for the renewal of everything
    /// the process owns, and cancellation for its withdrawal.
    pub fn remote_refresh(&self, wake: &Wake) -> (order: Order)
        ensures
            order@ == order_for(self.owned(), *wake),
    {
        renew_step(&self.inner, wake)
    }

    /// A backend service renews and watches: the timer asks for the renewal
    /// of everything the process owns, a change of the collection is noted
    /// in the cache, and cancellation asks for the withdrawal of everything
    /// the process owns.
    pub fn twoway_refresh(&mut self, wake: &Wake) -> (order: Order)
        requires
            old(self).wf(),
        ensures
            final(self).wf(),
            order@ == order_for(old(self).owned(), *wake),
            final(self).owned() == old(self).owned(),
            final(self).cached() == match *wake {
                Wake::Event(event) => cache_after(old(self).cached(), event@),
                _ => old(self).cached(),
            },
    {
        match wake {
            Wake::Event(event) => {
                watch_step(&mut self.cache, event);
            },
            _ => {},
        }
        renew_step(&self.inner, wake)
    }
}

} // verus!
