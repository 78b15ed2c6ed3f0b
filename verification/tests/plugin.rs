use crossgate::plugin::{
    get_plugin_type, init_plugin, PluginError, PluginType, ServiceContent, ServiceType, TaskSet,
    BACKEND_SERVICE, WEB_SERVICE,
};
use crossgate::task::{on_ending, register_type, startup, Ending, Shutdown};

#[test]
fn names_select_backends() {
    assert_eq!(get_plugin_type("none"), PluginType::Disabled);
    assert_eq!(get_plugin_type("etcd"), PluginType::Etcd);
    assert_eq!(get_plugin_type("mdns"), PluginType::Mdns);
    assert_eq!(get_plugin_type("consul"), PluginType::Consul);
    assert_eq!(get_plugin_type("mongodb"), PluginType::Mongodb);
}

#[test]
fn names_are_read_without_regard_to_case() {
    assert_eq!(get_plugin_type("NONE"), PluginType::Disabled);
    assert_eq!(get_plugin_type("Etcd"), PluginType::Etcd);
    assert_eq!(get_plugin_type("mDNS"), PluginType::Mdns);
    assert_eq!(get_plugin_type("CONSUL"), PluginType::Consul);
}

#[test]
fn any_other_name_selects_mongodb() {
    assert_eq!(get_plugin_type(""), PluginType::Mongodb);
    assert_eq!(get_plugin_type("redis"), PluginType::Mongodb);
    assert_eq!(get_plugin_type(" etcd"), PluginType::Mongodb);
    assert_eq!(get_plugin_type("etcd3"), PluginType::Mongodb);
}

#[test]
fn backends_are_named_as_they_are_selected() {
    for backend in [
        PluginType::Disabled,
        PluginType::Etcd,
        PluginType::Mongodb,
        PluginType::Mdns,
        PluginType::Consul,
    ] {
        assert_eq!(get_plugin_type(backend.as_str()), backend);
    }
    assert_eq!(PluginType::Disabled.as_str(), "none");
    assert_eq!(PluginType::Mongodb.as_str(), "mongodb");
}

#[test]
fn each_role_has_its_background_work() {
    assert_eq!(
        init_plugin(ServiceType::ApiGateway, PluginType::Mongodb),
        Ok(TaskSet { watch: true, renew: false })
    );
    assert_eq!(
        init_plugin(ServiceType::WebService, PluginType::Etcd),
        Ok(TaskSet { watch: false, renew: true })
    );
    assert_eq!(
        init_plugin(ServiceType::BackendService, PluginType::Disabled),
        Ok(TaskSet { watch: true, renew: true })
    );
    assert_eq!(
        init_plugin(ServiceType::ApiGateway, PluginType::Consul),
        Ok(TaskSet { watch: true, renew: false })
    );
}

#[test]
fn mdns_cannot_be_started() {
    assert_eq!(
        init_plugin(ServiceType::ApiGateway, PluginType::Mdns),
        Err(PluginError::Error("mdns".to_string()))
    );
    assert_eq!(
        startup(ServiceType::WebService, Some("MDNS")),
        Err(PluginError::Error("mdns".to_string()))
    );
}

#[test]
fn the_registry_type_falls_back_to_mongodb() {
    assert_eq!(register_type(None), PluginType::Mongodb);
    assert_eq!(register_type(Some("etcd")), PluginType::Etcd);
    assert_eq!(
        startup(ServiceType::BackendService, None),
        Ok((PluginType::Mongodb, TaskSet { watch: true, renew: true }))
    );
    assert_eq!(
        startup(ServiceType::ApiGateway, Some("none")),
        Ok((PluginType::Disabled, TaskSet { watch: true, renew: false }))
    );
}

#[test]
fn a_record_is_a_web_service_with_empty_texts_by_default() {
    assert_eq!(
        ServiceContent::default(),
        ServiceContent { service: String::new(), lba: String::new(), addr: String::new(), kind: 1 }
    );
    assert_eq!(WEB_SERVICE, 1);
    assert_eq!(BACKEND_SERVICE, 2);
    let record = ServiceContent {
        service: "s".to_string(),
        lba: "Random".to_string(),
        addr: "a:1".to_string(),
        kind: 2,
    };
    assert_eq!(record.duplicate(), record);
}

#[test]
fn a_signal_cancels_and_waits_and_a_finished_task_leaves() {
    assert_eq!(on_ending(Ending::Finished), Shutdown::Leave);
    assert_eq!(on_ending(Ending::Interrupted), Shutdown::CancelAndWait);
}
