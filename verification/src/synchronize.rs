//! Keeping a process in step with the store: what a change of the store
//! does to the local cache, and what a background task owes the store when
//! it wakes.

use crate::cache::{
    cache_upserted, cache_without_id, contents, contents_of, entry_views, CacheMap, Entry,
    OwnedSet, ServiceEntry,
};
use crate::plugin::{content_views, Plugin, PluginError, ServiceContent};
use vstd::prelude::*;

verus! {

/// A change of the store, as a watching process sees it.
#[derive(Debug, Clone, PartialEq, Eq)]
pub enum StoreEvent {
    /// A registration appeared or changed.
    Put(ServiceEntry),
    /// The registration of this id left.
    Delete(String),
    /// Anything else.
    Other,
}

/// A change of the store as a mathematical value.
pub enum Change {
    Put(Entry),
    Delete(Seq<char>),
    Other,
}

impl View for StoreEvent {
    type V = Change;

    open spec fn view(&self) -> Change {
        match self {
            StoreEvent::Put(entry) => Change::Put(entry@),
            StoreEvent::Delete(id) => Change::Delete(id@),
            StoreEvent::Other => Change::Other,
        }
    }
}

/// The cache after a change of the store was seen: a registration that
/// appeared or changed is noted under its service, and one that left is
/// dropped wherever it stands.
pub open spec fn cache_after(cache: Map<Seq<char>, Seq<Entry>>, change: Change) -> Map<
    Seq<char>,
    Seq<Entry>,
> {
    match change {
        Change::Put(entry) => cache_upserted(cache, entry.content.service, entry),
        Change::Delete(id) => cache_without_id(cache, id),
        Change::Other => cache,
    }
}

/// What a process comes to know of the store: a change that it watches,
/// or the listing of a service that it asked for.
pub enum Observation {
    Watched(Change),
    Listed { service: Seq<char>, entries: Seq<Entry> },
}

/// The cache after the process came to know something of the store: a
/// change is noted, and a listing takes the place of what the cache held
/// for the service.
pub open spec fn cache_seen(cache: Map<Seq<char>, Seq<Entry>>, observation: Observation) -> Map<
    Seq<char>,
    Seq<Entry>,
> {
    match observation {
        Observation::Watched(change) => cache_after(cache, change),
        Observation::Listed { service, entries } => cache.insert(service, entries),
    }
}

/// The cache after a sequence of observations, oldest first.
pub open spec fn cache_seen_all(
    cache: Map<Seq<char>, Seq<Entry>>,
    observations: Seq<Observation>,
) -> Map<Seq<char>, Seq<Entry>>
    decreases observations.len(),
{
    if observations.len() == 0 {
        cache
    } else {
        cache_seen(cache_seen_all(cache, observations.drop_last()), observations.last())
    }
}

/// Whether an observation showed the entry under the service: a change put
/// the entry, whose service it is, or a listing of the service held it.
pub open spec fn shows(observation: Observation, service: Seq<char>, entry: Entry) -> bool {
    match observation {
        Observation::Watched(change) => change == Change::Put(entry) && entry.content.service
            == service,
        Observation::Listed { service: listed, entries } => listed == service && entries.contains(
            entry,
        ),
    }
}

/// What wakes a background task.
#[derive(Debug, Clone, PartialEq, Eq)]
pub enum Wake {
    /// The renewal timer.
    Tick,
    /// A change of the store.
    Event(StoreEvent),
    /// The cancellation of the process's context.
    Cancelled,
}

/// What a background task owes the store after it woke.
#[derive(Debug, Clone, PartialEq, Eq)]
pub enum Order {
    /// Nothing.
    Idle,
    /// Renew these registrations, in order.
    Renew(Vec<ServiceEntry>),
    /// Withdraw these registrations, then give up the place in the wait
    /// group.
    Withdraw(Vec<ServiceEntry>),
}

/// An order as a mathematical value.
pub enum OrderView {
    Idle,
    Renew(Seq<Entry>),
    Withdraw(Seq<Entry>),
}

impl View for Order {
    type V = OrderView;

    open spec fn view(&self) -> OrderView {
        match self {
            Order::Idle => OrderView::Idle,
            Order::Renew(entries) => OrderView::Renew(entry_views(entries@)),
            Order::Withdraw(entries) => OrderView::Withdraw(entry_views(entries@)),
        }
    }
}

/// What a task that renews owes the store: on the timer the renewal of
/// everything the process owns, on cancellation its withdrawal, and nothing
/// on a change of the store.
pub open spec fn order_for(owned: Seq<Entry>, wake: Wake) -> OrderView {
    match wake {
        Wake::Tick => OrderView::Renew(owned),
        Wake::Event(_) => OrderView::Idle,
        Wake::Cancelled => OrderView::Withdraw(owned),
    }
}

/// The number of seconds between two renewals under a lease of `lease`
/// seconds: one second less than the lease.
pub fn renewal_interval(lease: i64) -> (seconds: u64)
    requires
        lease >= 1,
    ensures
        seconds == lease - 1,
{
    (lease - 1) as u64
}

/// Notes a change of the store in the cache.
pub fn watch_step(cache: &mut CacheMap, event: &StoreEvent)
    requires
        old(cache).wf(),
    ensures
        final(cache).wf(),
        final(cache)@ == cache_after(old(cache)@, event@),
{
    match event {
        StoreEvent::Put(entry) => {
            cache.update_cache(entry.content.service.as_str(), entry);
        },
        StoreEvent::Delete(id) => {
            cache.remove_cache(id.as_str());
        },
        StoreEvent::Other => {},
    }
}

/// What a task that renews owes the store after it woke.
pub fn renew_step(owned: &OwnedSet, wake: &Wake) -> (order: Order)
    ensures
        order@ == order_for(owned@, *wake),
{
    match wake {
        Wake::Tick => Order::Renew(owned.entries()),
        Wake::Event(_) => Order::Idle,
        Wake::Cancelled => Order::Withdraw(owned.entries()),
    }
}

/// The web-service records known under `key`: those of the cache where it
/// holds the key, and else what the backend answers. The backend is not
/// asked where the cache holds the key.
pub fn get_web_service<P: Plugin>(cache: &CacheMap, plugin: &P, key: &str) -> (r: Result<
    Vec<ServiceContent>,
    PluginError,
>)
    requires
        cache.wf(),
    ensures
        match if cache@.dom().contains(key@) {
            Some(contents_of(cache@[key@]))
        } else {
            plugin.web_services(key@)
        } {
            Some(records) => r matches Ok(v) && content_views(v@) == records,
            None => r is Err,
        },
{
    match cache.get(key) {
        Some(entries) => Ok(contents(&entries)),
        None => plugin.get_web_service(key),
    }
}

/// The cache holds only what the store has shown: after any sequence of
/// observations, every entry cached under a service was cached under it at
/// the start, or was shown under it by one of the observations.
pub proof fn lemma_cache_holds_only_observed(
    cache: Map<Seq<char>, Seq<Entry>>,
    observations: Seq<Observation>,
    service: Seq<char>,
    entry: Entry,
)
    requires
        cache_seen_all(cache, observations).dom().contains(service),
        cache_seen_all(cache, observations)[service].contains(entry),
    ensures
        (cache.dom().contains(service) && cache[service].contains(entry)) || exists|i: int|
            0 <= i < observations.len() && shows(#[trigger] observations[i], service, entry),
    decreases observations.len(),
{
    if observations.len() > 0 {
        let front = observations.drop_last();
        let last = observations.last();
        let before = cache_seen_all(cache, front);
        let shown_now = shows(last, service, entry);
        if shown_now {
            assert(shows(observations[observations.len() - 1], service, entry));
        } else {
            assert(before.dom().contains(service) && before[service].contains(entry)) by {
                match last {
                    Observation::Watched(Change::Put(e)) => {
                        crate::cache::lemma_cache_holds_only_seen(before, e.content.service, e);
                        assert(cache_upserted(before, e.content.service, e)[service].contains(
                            entry,
                        ));
                    },
                    Observation::Watched(Change::Delete(id)) => {
                        crate::cache::lemma_cache_forgets_id(before, id);
                        assert(cache_without_id(before, id)[service].contains(entry));
                    },
                    Observation::Watched(Change::Other) => {},
                    Observation::Listed { service: listed, entries } => {},
                }
            }
            lemma_cache_holds_only_observed(cache, front, service, entry);
            if !(cache.dom().contains(service) && cache[service].contains(entry)) {
                let i = choose|i: int|
                    0 <= i < front.len() && shows(#[trigger] front[i], service, entry);
                assert(observations[i] == front[i]);
            }
        }
    }
}

} // verus!
