use crossgate::lba::LoadBalancerAlgorithm;
use crossgate::plugin::{PluginError, ServiceContent};
use crossgate::register::{Register, RegisterError};
use crossgate::service::{Endpoint, ServiceError};

fn record(service: &str, lba: &str, addr: &str) -> ServiceContent {
    ServiceContent {
        service: service.to_string(),
        lba: lba.to_string(),
        addr: addr.to_string(),
        kind: 1,
    }
}

fn not_found() -> RegisterError {
    RegisterError::ServiceError("service not found ".to_string())
}

#[test]
fn the_advertised_address_is_the_local_address_and_the_port() {
    let register = Register::default();
    assert_eq!(register.advertised_address("192.168.1.7", 8080, ""), "192.168.1.7:8080");
    assert_eq!(register.advertised_address("10.0.0.1", 0, ""), "10.0.0.1:0");
    assert_eq!(register.advertised_address("10.0.0.1", 65535, ""), "10.0.0.1:65535");
    assert_eq!(register.advertised_address("::1", 7, ""), "::1:7");
}

#[test]
fn the_strict_override_is_advertised_as_it_stands() {
    let register = Register::default();
    assert_eq!(register.advertised_address("192.168.1.7", 8080, "nat.example:443"), "nat.example:443");
}

#[test]
fn a_web_service_is_registered_once_for_each_name() {
    let register = Register::default();
    let records = register.register_web_service(
        "/t/ums,/t/pay",
        &LoadBalancerAlgorithm::Strict("10.0.0.9:80".to_string()),
        "10.0.0.1:80",
    );
    assert_eq!(
        records,
        vec![record("/t/ums", "Strict", "10.0.0.1:80"), record("/t/pay", "Strict", "10.0.0.1:80")]
    );
    let records =
        register.register_web_service("/a/b", &LoadBalancerAlgorithm::RoundRobin, "h:1");
    assert_eq!(records, vec![record("/a/b", "RoundRobin", "h:1")]);
}

#[test]
fn names_are_split_at_every_comma() {
    let register = Register::default();
    let records = register.register_web_service(",a,", &LoadBalancerAlgorithm::Random, "h:1");
    assert_eq!(
        records,
        vec![record("", "Random", "h:1"), record("a", "Random", "h:1"), record("", "Random", "h:1")]
    );
    let records = register.register_web_service("", &LoadBalancerAlgorithm::Random, "h:1");
    assert_eq!(records, vec![record("", "Random", "h:1")]);
}

#[test]
fn a_backend_service_is_registered_under_its_group() {
    let register = Register::default();
    assert_eq!(
        register.register_backend_service("workers"),
        ServiceContent {
            service: "workers".to_string(),
            lba: String::new(),
            addr: String::new(),
            kind: 2
        }
    );
}

#[test]
fn a_refused_registration_fails_the_registration() {
    let register = Register::default();
    let refusal = PluginError::Error("/t/ums".to_string());
    assert_eq!(refusal.message(), "the plugin for key `/t/ums` is not available");
    let failure = register.registration_failed(&refusal);
    assert_eq!(
        failure,
        RegisterError::RegisterError("the plugin for key `/t/ums` is not available".to_string())
    );
    assert_eq!(
        failure.message(),
        "the register for key `the plugin for key `/t/ums` is not available` is not available"
    );
}

#[test]
fn one_refused_name_fails_the_whole_registration() {
    let register = Register::default();
    assert_eq!(register.after_register(Ok(())), Ok(()));
    assert_eq!(
        register.after_register(Err(PluginError::Error("/t/pay".to_string()))),
        Err(RegisterError::RegisterError(
            "the plugin for key `/t/pay` is not available".to_string()
        ))
    );
    // a service of three names whose second name the backend refuses: the
    // first is registered, the second ends the operation
    let records = register.register_web_service("/a/b,/c/d,/e/f", &LoadBalancerAlgorithm::Random, "h:1");
    let mut registered = vec![];
    let mut outcome = Ok(());
    for record in records {
        let said = if record.service == "/c/d" {
            Err(PluginError::Error(record.service.clone()))
        } else {
            Ok(())
        };
        outcome = register.after_register(said);
        if outcome.is_err() {
            break;
        }
        registered.push(record.service);
    }
    assert_eq!(registered, vec!["/a/b".to_string()]);
    assert_eq!(
        outcome,
        Err(RegisterError::RegisterError("the plugin for key `/c/d` is not available".to_string()))
    );
}

#[test]
fn the_endpoint_holds_every_address_and_the_first_algorithm() {
    let register = Register::default();
    let (lba, endpoint) = register
        .get_web_service(Ok(vec![
            record("/t/ums", "random", "10.0.0.1:80"),
            record("/t/ums", "RoundRobin", "10.0.0.2:80"),
        ]))
        .unwrap();
    assert_eq!(lba, LoadBalancerAlgorithm::Random);
    assert_eq!(
        endpoint.get_service_addresses(),
        &["10.0.0.1:80".to_string(), "10.0.0.2:80".to_string()]
    );
    assert!(!endpoint.is_empty());
}

#[test]
fn no_records_are_no_service() {
    let register = Register::default();
    assert_eq!(register.get_web_service(Ok(vec![])).err(), Some(not_found()));
    assert_eq!(
        register.get_web_service(Err(PluginError::Error("x".to_string()))).err(),
        Some(not_found())
    );
    assert_eq!(not_found().message(), "the service for key `service not found ` is not available");
}

#[test]
fn records_are_filtered_by_algorithm() {
    let register = Register::default();
    let records = vec![
        record("/t/ums", "RoundRobin", "10.0.0.1:80"),
        record("/t/ums", "Random", "10.0.0.2:80"),
        record("/t/ums", "Strict", "10.0.0.3:80"),
        record("/t/ums", "RoundRobin", "10.0.0.4:80"),
        record("/t/ums", "roundrobin", "10.0.0.5:80"),
    ];
    let (lba, endpoint) = register
        .get_web_service_by_lba(Ok(records.clone()), LoadBalancerAlgorithm::RoundRobin)
        .unwrap();
    assert_eq!(lba, LoadBalancerAlgorithm::RoundRobin);
    assert_eq!(
        endpoint.get_service_addresses(),
        &["10.0.0.1:80".to_string(), "10.0.0.4:80".to_string()]
    );
    let (_, endpoint) =
        register.get_web_service_by_lba(Ok(records.clone()), LoadBalancerAlgorithm::Random).unwrap();
    assert_eq!(endpoint.get_service_addresses(), &["10.0.0.2:80".to_string()]);
    let (lba, endpoint) = register
        .get_web_service_by_lba(
            Ok(records.clone()),
            LoadBalancerAlgorithm::Strict("10.0.0.3:80".to_string()),
        )
        .unwrap();
    assert_eq!(lba, LoadBalancerAlgorithm::Strict("10.0.0.3:80".to_string()));
    assert_eq!(endpoint.get_service_addresses(), &["10.0.0.3:80".to_string()]);
    let (_, endpoint) = register
        .get_web_service_by_lba(Ok(records), LoadBalancerAlgorithm::Strict("10.0.0.1:80".to_string()))
        .unwrap();
    assert!(endpoint.is_empty());
}

#[test]
fn a_failed_lookup_by_algorithm_is_no_service() {
    let register = Register::default();
    assert_eq!(
        register
            .get_web_service_by_lba(
                Err(PluginError::Error("x".to_string())),
                LoadBalancerAlgorithm::Random
            )
            .err(),
        Some(not_found())
    );
}

#[test]
fn peers_come_back_in_ascending_order() {
    let register = Register::default();
    let ids = vec!["b2".to_string(), "a10".to_string(), "a1".to_string(), "".to_string(), "a1".to_string()];
    assert_eq!(
        register.get_backend_service(Ok(("a1".to_string(), ids))),
        Ok((
            "a1".to_string(),
            vec!["".to_string(), "a1".to_string(), "a1".to_string(), "a10".to_string(), "b2".to_string()]
        ))
    );
    assert_eq!(
        register.get_backend_service(Err(PluginError::Error("x".to_string()))),
        Err(not_found())
    );
}

#[test]
fn an_endpoint_keeps_its_addresses_in_order() {
    let endpoint = Endpoint::new(vec!["b".to_string(), "a".to_string()]);
    assert_eq!(endpoint.get_service_addresses(), &["b".to_string(), "a".to_string()]);
    assert!(!endpoint.is_empty());
    assert!(Endpoint::new(vec![]).is_empty());
    assert_eq!(endpoint.clone().get_service_addresses(), endpoint.get_service_addresses());
}

#[test]
fn service_errors_say_what_failed() {
    assert_eq!(ServiceError::Other("boom".to_string()).message(), "Service error: boom");
    assert_eq!(ServiceError::Transport("reset".to_string()).message(), "Transport error: reset");
}
