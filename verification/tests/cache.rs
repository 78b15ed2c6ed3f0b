use crossgate::cache::{CacheMap, OwnedSet, ServiceEntry};
use crossgate::none::NonePlugin;
use crossgate::plugin::{Plugin, ServiceContent};
use crossgate::synchronize::{
    get_web_service, renew_step, renewal_interval, watch_step, Order, StoreEvent, Wake,
};

fn record(service: &str, addr: &str) -> ServiceContent {
    ServiceContent {
        service: service.to_string(),
        lba: "RoundRobin".to_string(),
        addr: addr.to_string(),
        kind: 1,
    }
}

fn entry(id: &str, service: &str, addr: &str) -> ServiceEntry {
    ServiceEntry { id: id.to_string(), content: record(service, addr) }
}

#[test]
fn an_empty_cache_knows_no_service() {
    let cache = CacheMap::new();
    assert_eq!(cache.get("x"), None);
    assert_eq!(cache.get(""), None);
}

#[test]
fn an_entry_seen_is_cached_under_its_service() {
    let mut cache = CacheMap::new();
    cache.update_cache("x", &entry("1", "x", "10.0.0.1:80"));
    assert_eq!(cache.get("x"), Some(vec![entry("1", "x", "10.0.0.1:80")]));
    assert_eq!(cache.get("y"), None);
    cache.update_cache("x", &entry("2", "x", "10.0.0.2:80"));
    cache.update_cache("y", &entry("3", "y", "10.0.0.3:80"));
    assert_eq!(
        cache.get("x"),
        Some(vec![entry("1", "x", "10.0.0.1:80"), entry("2", "x", "10.0.0.2:80")])
    );
    assert_eq!(cache.get("y"), Some(vec![entry("3", "y", "10.0.0.3:80")]));
}

#[test]
fn an_entry_seen_again_takes_the_place_of_the_one_with_its_id() {
    let mut cache = CacheMap::new();
    cache.update_cache("x", &entry("1", "x", "10.0.0.1:80"));
    cache.update_cache("x", &entry("2", "x", "10.0.0.2:80"));
    cache.update_cache("x", &entry("1", "x", "10.0.0.9:80"));
    assert_eq!(
        cache.get("x"),
        Some(vec![entry("1", "x", "10.0.0.9:80"), entry("2", "x", "10.0.0.2:80")])
    );
}

#[test]
fn a_registration_that_left_leaves_every_bucket() {
    let mut cache = CacheMap::new();
    cache.update_cache("x", &entry("1", "x", "a"));
    cache.update_cache("x", &entry("2", "x", "b"));
    cache.update_cache("y", &entry("1", "y", "c"));
    cache.remove_cache("1");
    assert_eq!(cache.get("x"), Some(vec![entry("2", "x", "b")]));
    assert_eq!(cache.get("y"), Some(vec![]));
    cache.remove_cache("nobody");
    assert_eq!(cache.get("x"), Some(vec![entry("2", "x", "b")]));
}

#[test]
fn a_listing_fills_the_bucket() {
    let mut cache = CacheMap::new();
    cache.update_cache("x", &entry("1", "x", "a"));
    cache.fill("x", vec![entry("7", "x", "g"), entry("8", "x", "h")]);
    assert_eq!(cache.get("x"), Some(vec![entry("7", "x", "g"), entry("8", "x", "h")]));
    cache.fill("z", vec![]);
    assert_eq!(cache.get("z"), Some(vec![]));
}

#[test]
fn after_a_registration_is_seen_the_service_has_its_address() {
    let mut cache = CacheMap::new();
    let own = entry("me", "/t/ums", "10.0.0.5:80");
    watch_step(&mut cache, &StoreEvent::Put(own.clone()));
    let found = cache.get("/t/ums").unwrap();
    assert!(found.iter().any(|e| e.content.addr == "10.0.0.5:80"));
}

#[test]
fn changes_of_the_store_reach_the_cache() {
    let mut cache = CacheMap::new();
    watch_step(&mut cache, &StoreEvent::Put(entry("1", "x", "a")));
    watch_step(&mut cache, &StoreEvent::Other);
    watch_step(&mut cache, &StoreEvent::Put(entry("2", "x", "b")));
    watch_step(&mut cache, &StoreEvent::Delete("1".to_string()));
    assert_eq!(cache.get("x"), Some(vec![entry("2", "x", "b")]));
}

#[test]
fn cache_backed_get() {
    let mut cache = CacheMap::new();
    let plugin = NonePlugin::new();
    // the backend knows nothing
    assert_eq!(plugin.get_web_service("x"), Ok(vec![]));
    assert_eq!(get_web_service(&cache, &plugin, "x"), Ok(vec![]));
    // two entries arrive through the watch
    watch_step(&mut cache, &StoreEvent::Put(entry("1", "x", "10.0.0.1:80")));
    watch_step(&mut cache, &StoreEvent::Put(entry("2", "x", "10.0.0.2:80")));
    // the cache answers; the backend would still say nothing
    assert_eq!(
        get_web_service(&cache, &plugin, "x"),
        Ok(vec![record("x", "10.0.0.1:80"), record("x", "10.0.0.2:80")])
    );
    assert_eq!(plugin.get_web_service("x"), Ok(vec![]));
    assert_eq!(get_web_service(&cache, &plugin, "y"), Ok(vec![]));
}

#[test]
fn the_owned_set_holds_one_registration_for_each_id() {
    let mut owned = OwnedSet::new();
    assert_eq!(owned.entries(), vec![]);
    owned.insert(entry("1", "x", "a"));
    owned.insert(entry("2", "y", "b"));
    owned.insert(entry("1", "x", "c"));
    assert_eq!(owned.entries(), vec![entry("1", "x", "c"), entry("2", "y", "b")]);
    assert_eq!(owned.id_for("y"), "2");
    assert_eq!(owned.id_for("x"), "1");
    assert_eq!(owned.id_for("z"), "");
    owned.remove("1");
    assert_eq!(owned.entries(), vec![entry("2", "y", "b")]);
    owned.remove("1");
    assert_eq!(owned.entries(), vec![entry("2", "y", "b")]);
}

#[test]
fn a_renewing_task_renews_on_the_timer_and_withdraws_on_cancellation() {
    let mut owned = OwnedSet::new();
    owned.insert(entry("1", "x", "a"));
    owned.insert(entry("2", "y", "b"));
    let all = vec![entry("1", "x", "a"), entry("2", "y", "b")];
    assert_eq!(renew_step(&owned, &Wake::Tick), Order::Renew(all.clone()));
    assert_eq!(renew_step(&owned, &Wake::Event(StoreEvent::Other)), Order::Idle);
    assert_eq!(renew_step(&owned, &Wake::Cancelled), Order::Withdraw(all));
}

#[test]
fn renewal_comes_one_second_before_the_lease_ends() {
    assert_eq!(renewal_interval(3), 2);
    assert_eq!(renewal_interval(1), 0);
    assert_eq!(renewal_interval(i64::MAX), (i64::MAX - 1) as u64);
}
