use crossgate::api::{
    begin_chain, default_response, extracting_service, forward_target, gateway_error,
    next_in_chain, route, service_not_found, ChainStep, IntercepterType, Reply, Route,
};
use crossgate::lba::{LoadBalancerAlgorithm, RoundRobinCounter};
use crossgate::plugin::ServiceContent;
use crossgate::register::Register;
use hyper::header::{HeaderMap, HeaderValue};

fn record(service: &str, lba: &str, addr: &str) -> ServiceContent {
    ServiceContent {
        service: service.to_string(),
        lba: lba.to_string(),
        addr: addr.to_string(),
        kind: 1,
    }
}

fn reply(status: u16, body: &str) -> Reply {
    Reply { status, body: body.to_string() }
}

#[test]
fn the_service_is_the_first_two_segments() {
    assert_eq!(extracting_service("/t/ums/user/login"), "/t/ums");
    assert_eq!(extracting_service("/svc-a/ping"), "/svc-a/ping");
    assert_eq!(extracting_service("/a/"), "/a/");
    assert_eq!(extracting_service("//"), "//");
}

#[test]
fn a_shallow_path_names_no_service() {
    assert_eq!(extracting_service(""), "");
    assert_eq!(extracting_service("/"), "");
    assert_eq!(extracting_service("/a"), "");
    assert_eq!(extracting_service("a/b"), "");
}

#[test]
fn the_root_is_the_landing_page() {
    assert_eq!(route("/", &HeaderMap::new()), Route::Landing);
    assert_eq!(route("", &HeaderMap::new()), Route::Landing);
    let mut strict = HeaderMap::new();
    strict.insert("strict", HeaderValue::from_static("10.0.0.1:80"));
    assert_eq!(route("/", &strict), Route::Landing);
    assert!(default_response().contains("this page is crossgate api gateway."));
}

#[test]
fn one_segment_is_service_unavailable() {
    assert_eq!(
        route("/a", &HeaderMap::new()),
        Route::Answer(reply(503, "service unavailable or not found"))
    );
}

#[test]
fn two_segments_are_looked_up() {
    assert_eq!(
        route("/t/ums/user/login", &HeaderMap::new()),
        Route::Lookup { service: "/t/ums".to_string(), strict: None }
    );
}

#[test]
fn a_strict_header_pins_the_address() {
    let mut map = HeaderMap::new();
    map.insert("strict", HeaderValue::from_static("10.0.0.2:80"));
    assert_eq!(
        route("/svc-b/x", &map),
        Route::Lookup { service: "/svc-b/x".to_string(), strict: Some("10.0.0.2:80".to_string()) }
    );
}

#[test]
fn an_empty_strict_header_is_a_bad_request() {
    let mut map = HeaderMap::new();
    map.insert("strict", HeaderValue::from_static(""));
    assert_eq!(route("/svc-b/x", &map), Route::Answer(reply(400, "strict address is empty")));
    map.insert("strict", HeaderValue::from_bytes(b"10.0.0.\xff").unwrap());
    assert_eq!(route("/svc-b/x", &map), Route::Answer(reply(400, "strict address is empty")));
}

#[test]
fn the_chain_runs_in_order_and_ends_in_routing() {
    assert_eq!(begin_chain(0), ChainStep::Route);
    assert_eq!(begin_chain(3), ChainStep::Run(0));
    assert_eq!(next_in_chain(0, 3, IntercepterType::Next), ChainStep::Run(1));
    assert_eq!(next_in_chain(1, 3, IntercepterType::Next), ChainStep::Run(2));
    assert_eq!(next_in_chain(2, 3, IntercepterType::Next), ChainStep::Route);
    assert_eq!(next_in_chain(0, 3, IntercepterType::Redirect), ChainStep::Route);
}

#[test]
fn an_interceptor_can_answer_for_the_gateway() {
    assert_eq!(next_in_chain(0, 2, IntercepterType::SelfHandle), ChainStep::SelfHandle);
    assert_eq!(next_in_chain(1, 2, IntercepterType::Interrupt), ChainStep::Written);
    assert_eq!(next_in_chain(0, 2, IntercepterType::Forbidden), ChainStep::Answer(reply(403, "")));
}

#[test]
fn an_interceptor_short_circuits_with_not_authorized() {
    // the chain is [auth]; auth says NotAuthorized for the request
    assert_eq!(begin_chain(1), ChainStep::Run(0));
    assert_eq!(
        next_in_chain(0, 1, IntercepterType::NotAuthorized),
        ChainStep::Answer(reply(401, ""))
    );
}

#[test]
fn round_robin_over_two_backends() {
    let register = Register::default();
    let mut counter = RoundRobinCounter::new();
    let mut targets = vec![];
    for _ in 0..4 {
        let service = match route("/svc-a/ping", &HeaderMap::new()) {
            Route::Lookup { service, strict: None } => service,
            other => panic!("not looked up: {:?}", other),
        };
        assert_eq!(service, "/svc-a/ping");
        let records = vec![
            record(&service, "RoundRobin", "10.0.0.1:80"),
            record(&service, "RoundRobin", "10.0.0.2:80"),
        ];
        let found = register.get_web_service(Ok(records));
        targets.push(forward_target(&service, found, &mut counter).unwrap());
    }
    assert_eq!(
        targets,
        vec![
            "http://10.0.0.1:80".to_string(),
            "http://10.0.0.2:80".to_string(),
            "http://10.0.0.1:80".to_string(),
            "http://10.0.0.2:80".to_string()
        ]
    );
}

fn strict_request(pin: &'static str) -> Result<String, Reply> {
    let register = Register::default();
    let mut counter = RoundRobinCounter::new();
    let mut map = HeaderMap::new();
    map.insert("strict", HeaderValue::from_static(pin));
    let (service, strict) = match route("/svc-b/x", &map) {
        Route::Lookup { service, strict: Some(strict) } => (service, strict),
        other => panic!("not looked up: {:?}", other),
    };
    let records = vec![
        record(&service, "Strict", "10.0.0.1:80"),
        record(&service, "Strict", "10.0.0.2:80"),
    ];
    let found =
        register.get_web_service_by_lba(Ok(records), LoadBalancerAlgorithm::Strict(strict));
    forward_target(&service, found, &mut counter)
}

#[test]
fn strict_routing_via_header() {
    assert_eq!(strict_request("10.0.0.2:80"), Ok("http://10.0.0.2:80".to_string()));
    assert_eq!(strict_request("10.0.0.3:80"), Err(reply(503, "/svc-b/x not found")));
}

#[test]
fn an_unknown_service_is_not_found() {
    let register = Register::default();
    let mut counter = RoundRobinCounter::new();
    let found = register.get_web_service(Ok(vec![]));
    assert_eq!(
        forward_target("/t/ums", found, &mut counter),
        Err(reply(503, "/t/ums not found"))
    );
    assert_eq!(service_not_found("/a/b"), reply(503, "/a/b not found"));
    // nothing was selected, so no ticket was drawn
    assert_eq!(counter.take(), 0);
}

#[test]
fn a_strict_tag_without_a_pin_selects_nothing() {
    let register = Register::default();
    let mut counter = RoundRobinCounter::new();
    let found = register.get_web_service(Ok(vec![record("/t/ums", "Strict", "10.0.0.1:80")]));
    assert_eq!(
        forward_target("/t/ums", found, &mut counter),
        Err(reply(503, "/t/ums not found"))
    );
}

#[test]
fn an_upstream_failure_is_a_gateway_error() {
    assert_eq!(gateway_error("ForwardHeaderError"), reply(500, "gateway error: ForwardHeaderError"));
}
