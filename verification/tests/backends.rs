use crossgate::cache::ServiceEntry;
use crossgate::etcd::{EtcdPlugin, Lookup, PutRequest, LEASE};
use crossgate::mdns_plugin::Mdns;
use crossgate::mongo::{
    store_event, Found, MongodbPlugin, OperationType, StoreWrite, EXPIRE_AFTER, RENEW_EVERY,
};
use crossgate::none::NonePlugin;
use crossgate::plugin::{Plugin, PluginError, ServiceContent};
use crossgate::synchronize::{renewal_interval, Order, StoreEvent, Wake};

fn record(service: &str, addr: &str, kind: i32) -> ServiceContent {
    ServiceContent {
        service: service.to_string(),
        lba: "RoundRobin".to_string(),
        addr: addr.to_string(),
        kind,
    }
}

fn entry(id: &str, service: &str, addr: &str) -> ServiceEntry {
    ServiceEntry { id: id.to_string(), content: record(service, addr, 1) }
}

#[test]
fn etcd_endpoints_follow_the_prefix() {
    assert_eq!(
        EtcdPlugin::validation_parse_uri("etcd://http://node1:2379,http://node2:2379"),
        vec!["http://node1:2379".to_string(), "http://node2:2379".to_string()]
    );
    assert_eq!(EtcdPlugin::validation_parse_uri("etcd://"), vec![String::new()]);
    assert_eq!(
        EtcdPlugin::checked_parse_uri("etcd://node:2379"),
        Some(vec!["node:2379".to_string()])
    );
    assert_eq!(EtcdPlugin::checked_parse_uri("http://node:2379"), None);
    assert_eq!(EtcdPlugin::checked_parse_uri("etcd:/"), None);
}

#[test]
fn etcd_keys_carry_the_prefix_of_the_kind() {
    assert_eq!(EtcdPlugin::service_key("/t/ums/10.0.0.1:80", 1), "/web/service/t/ums/10.0.0.1:80");
    assert_eq!(EtcdPlugin::service_key("workers/", 2), "/backend/serviceworkers/");
    assert_eq!(EtcdPlugin::service_key("/t/ums", 3), "");
    assert_eq!(EtcdPlugin::service_key("/t/ums", 0), "");
}

#[test]
fn an_etcd_registration_is_owned_cached_and_put() {
    let mut plugin = EtcdPlugin::new();
    let sc = record("/t/ums", "10.0.0.1:80", 1);
    let request = plugin.register_service("/t/ums", sc.clone());
    assert_eq!(
        request,
        PutRequest { key: "/web/service/t/ums/10.0.0.1:80".to_string(), value: sc.clone(), lease: 3 }
    );
    assert_eq!(LEASE, 3);
    assert_eq!(plugin.unregister(), vec!["/web/service/t/ums/10.0.0.1:80".to_string()]);
    let owned = ServiceEntry { id: "/t/ums/10.0.0.1:80".to_string(), content: sc };
    assert_eq!(plugin.web_service_handle(&Wake::Tick), Order::Renew(vec![owned.clone()]));
    assert_eq!(plugin.web_service_handle(&Wake::Cancelled), Order::Withdraw(vec![owned]));
}

#[test]
fn etcd_looks_in_the_cache_before_the_store() {
    let mut plugin = EtcdPlugin::new();
    assert_eq!(plugin.get_web_service("/t/ums"), Lookup::Ask("/web/service/t/ums".to_string()));
    let seen = ServiceEntry {
        id: "/web/service/t/ums/10.0.0.1:80".to_string(),
        content: record("/web/service/t/ums", "10.0.0.1:80", 1),
    };
    plugin.gateway_service_handle(&StoreEvent::Put(seen));
    assert_eq!(
        plugin.get_web_service("/t/ums"),
        Lookup::Cached(vec![record("/web/service/t/ums", "10.0.0.1:80", 1)])
    );
    plugin.gateway_service_handle(&StoreEvent::Delete(
        "/web/service/t/ums/10.0.0.1:80".to_string(),
    ));
    assert_eq!(plugin.get_web_service("/t/ums"), Lookup::Cached(vec![]));
}

#[test]
fn etcd_takes_a_listing_into_the_cache() {
    let mut plugin = EtcdPlugin::new();
    let listing = vec![
        ServiceEntry {
            id: "/backend/service/workers/b".to_string(),
            content: record("workers", "", 2),
        },
        ServiceEntry {
            id: "/backend/service/workers/a".to_string(),
            content: record("workers", "", 2),
        },
    ];
    assert_eq!(
        plugin.get_backend_service("/workers"),
        (String::new(), Lookup::Ask("/backend/service/workers".to_string()))
    );
    assert_eq!(
        plugin.list_service_content("/backend/service/workers", listing),
        vec![record("workers", "", 2), record("workers", "", 2)]
    );
    assert_eq!(
        plugin.get_backend_service("/workers"),
        (
            String::new(),
            Lookup::Cached(vec![
                "/backend/service/workers/b".to_string(),
                "/backend/service/workers/a".to_string()
            ])
        )
    );
    plugin.register_service("workers", record("workers", "10.0.0.1:80", 2));
    assert_eq!(plugin.get_backend_service("workers").0, "workers/10.0.0.1:80");
}

#[test]
fn renewal_after_the_ttl_window() {
    // a lease of three seconds is renewed every two
    assert_eq!(renewal_interval(LEASE), 2);
    let mut plugin = EtcdPlugin::new();
    let sc = record("/t/ums", "10.0.0.1:80", 2);
    plugin.register_service("/t/ums", sc.clone());
    let owned = ServiceEntry { id: "/t/ums/10.0.0.1:80".to_string(), content: sc.clone() };
    // two seconds later the timer fires, and again two seconds after that
    for _ in 0..2 {
        match plugin.backend_service_handle(&Wake::Tick) {
            Order::Renew(entries) => {
                assert_eq!(entries, vec![owned.clone()]);
                let again = EtcdPlugin::register(&entries[0].id, &entries[0].content);
                assert_eq!(again.key, "/backend/service/t/ums/10.0.0.1:80");
                assert_eq!(again.lease, 3);
            }
            other => panic!("no renewal: {:?}", other),
        }
    }
    // cancellation withdraws everything the process owns
    assert_eq!(plugin.backend_service_handle(&Wake::Cancelled), Order::Withdraw(vec![owned]));
    assert_eq!(plugin.unregister(), vec!["/backend/service/t/ums/10.0.0.1:80".to_string()]);
}

#[test]
fn a_backend_service_on_etcd_also_watches() {
    let mut plugin = EtcdPlugin::new();
    let seen = entry("k", "/web/service/a/b", "10.0.0.1:80");
    assert_eq!(
        plugin.backend_service_handle(&Wake::Event(StoreEvent::Put(seen.clone()))),
        Order::Idle
    );
    assert_eq!(plugin.get_web_service("/a/b"), Lookup::Cached(vec![seen.content]));
}

#[test]
fn mongo_ids_are_fresh_object_ids() {
    let mut plugin = MongodbPlugin::new();
    let sc = record("/t/ums", "10.0.0.1:80", 1);
    let first = plugin.register_service(&sc);
    let second = plugin.register_service(&sc);
    for e in [&first, &second] {
        assert_eq!(e.id.len(), 24);
        assert!(e.id.chars().all(|c| c.is_ascii_digit() || ('a'..='f').contains(&c)));
        assert_eq!(e.content, sc);
    }
    assert_ne!(first.id, second.id);
    assert_eq!(plugin.service_content_renewal(), vec![first.clone(), second.clone()]);
    assert_eq!(plugin.service_unset(), vec![first.id.clone(), second.id.clone()]);
    assert_eq!(plugin.get_backend_service("/t/ums").0, first.id);
    assert_eq!(plugin.get_backend_service("/other").0, "");
}

#[test]
fn mongo_inserts_what_the_store_lacks_and_touches_what_it_has() {
    let sc = record("/t/ums", "10.0.0.1:80", 1);
    assert_eq!(
        MongodbPlugin::service_content_apply(0, "abc", &sc),
        StoreWrite::Insert(ServiceEntry { id: "abc".to_string(), content: sc.clone() })
    );
    assert_eq!(MongodbPlugin::service_content_apply(1, "abc", &sc), StoreWrite::Touch("abc".to_string()));
    assert_eq!(MongodbPlugin::service_content_apply(7, "abc", &sc), StoreWrite::Touch("abc".to_string()));
    assert_eq!(MongodbPlugin::group_collection(), ("crossgate", "discovery"));
    assert_eq!(EXPIRE_AFTER, 2);
    assert_eq!(RENEW_EVERY, 2);
}

#[test]
fn mongo_lists_on_a_miss_and_answers_from_the_cache_after() {
    let mut plugin = MongodbPlugin::new();
    assert_eq!(
        plugin.get_web_service("/t/ums"),
        Found::List { service: "/t/ums".to_string(), kind: 1 }
    );
    let listing = vec![entry("b", "/t/ums", "10.0.0.2:80"), entry("a", "/t/ums", "10.0.0.1:80")];
    assert_eq!(
        plugin.list_service_content("/t/ums", listing.clone()),
        vec![record("/t/ums", "10.0.0.2:80", 1), record("/t/ums", "10.0.0.1:80", 1)]
    );
    assert_eq!(
        plugin.get_web_service("/t/ums"),
        Found::Cached(vec![record("/t/ums", "10.0.0.2:80", 1), record("/t/ums", "10.0.0.1:80", 1)])
    );
    assert_eq!(
        plugin.get_backend_service("/t/ums").1,
        Found::Cached(vec!["b".to_string(), "a".to_string()])
    );
    assert_eq!(
        plugin.get_backend_service("/workers").1,
        Found::List { service: "/workers".to_string(), kind: 2 }
    );
    assert_eq!(MongodbPlugin::listed_peers(&listing), vec!["a".to_string(), "b".to_string()]);
    assert_eq!(plugin.list_mongo_content("/x", vec![]), vec![]);
    assert_eq!(plugin.get_web_service("/x"), Found::Cached(vec![]));
}

#[test]
fn mongo_changes_become_events_for_the_cache() {
    let doc = entry("1", "/t/ums", "10.0.0.1:80");
    for operation in [OperationType::Insert, OperationType::Update, OperationType::Replace] {
        assert_eq!(
            store_event(operation, Some(doc.clone()), Some("1".to_string())),
            StoreEvent::Put(doc.clone())
        );
        assert_eq!(store_event(operation, None, Some("1".to_string())), StoreEvent::Other);
    }
    assert_eq!(
        store_event(OperationType::Delete, None, Some("1".to_string())),
        StoreEvent::Delete("1".to_string())
    );
    assert_eq!(store_event(OperationType::Delete, Some(doc.clone()), None), StoreEvent::Other);
    assert_eq!(store_event(OperationType::Other, Some(doc), Some("1".to_string())), StoreEvent::Other);
}

#[test]
fn mongo_keeps_the_cache_in_step_and_withdraws_at_shutdown() {
    let mut plugin = MongodbPlugin::new();
    let own = plugin.register_service(&record("/t/ums", "10.0.0.1:80", 2));
    plugin.cache_refresh(&StoreEvent::Put(entry("1", "/t/ums", "10.0.0.1:80")));
    plugin.update_cache("/t/ums", &entry("2", "/t/ums", "10.0.0.2:80"));
    assert_eq!(
        plugin.twoway_refresh(&Wake::Event(StoreEvent::Delete("1".to_string()))),
        Order::Idle
    );
    assert_eq!(
        plugin.get_web_service("/t/ums"),
        Found::Cached(vec![record("/t/ums", "10.0.0.2:80", 1)])
    );
    plugin.remove_cache("2");
    assert_eq!(plugin.get_web_service("/t/ums"), Found::Cached(vec![]));
    assert_eq!(plugin.remote_refresh(&Wake::Tick), Order::Renew(vec![own.clone()]));
    assert_eq!(plugin.twoway_refresh(&Wake::Tick), Order::Renew(vec![own.clone()]));
    // after shutdown nothing that the process owns is left out
    assert_eq!(plugin.twoway_refresh(&Wake::Cancelled), Order::Withdraw(vec![own.clone()]));
    assert_eq!(plugin.service_unset(), vec![own.id]);
}

#[test]
fn adopting_a_registration_under_a_given_id() {
    let mut plugin = MongodbPlugin::new();
    let sc = record("/t/ums", "10.0.0.1:80", 1);
    plugin.adopt("0123456789abcdef01234567".to_string(), &sc);
    assert_eq!(plugin.service_unset(), vec!["0123456789abcdef01234567".to_string()]);
}

#[test]
fn the_none_backend_registers_nothing_and_knows_nothing() {
    let mut plugin = NonePlugin::new();
    assert_eq!(plugin.register_service("x", record("x", "a", 1)), Ok(()));
    assert_eq!(plugin.get_web_service("x"), Ok(vec![]));
    assert_eq!(plugin.get_backend_service("x"), Ok((String::new(), vec![])));
    plugin.gateway_service_handle(&StoreEvent::Put(entry("1", "x", "a")));
    assert_eq!(plugin.get_web_service("x"), Ok(vec![]));
    assert_eq!(plugin.backend_service_handle(&Wake::Tick), Order::Idle);
    assert_eq!(plugin.backend_service_handle(&Wake::Cancelled), Order::Withdraw(vec![]));
    assert_eq!(plugin.web_service_handle(&Wake::Cancelled), Order::Idle);
}

#[test]
fn the_mdns_backend_finds_no_record() {
    let mut plugin = Mdns::new();
    assert_eq!(plugin.register_service("x", record("x", "a", 1)), Ok(()));
    assert_eq!(plugin.get_web_service("x"), Err(PluginError::Error("x".to_string())));
    assert_eq!(plugin.get_backend_service("y"), Err(PluginError::Error("y".to_string())));
    assert_eq!(Mdns::announced_name(), "_crossgate._tcp.local");
}
