use node_red_proxy::config::{Area, Config, Node, PortConfig};
use node_red_proxy::flows::{self, FlowError, FlowNodeResponse, FlowsResponse};

fn node(id: &str, kind: &str) -> FlowNodeResponse {
    FlowNodeResponse {
        id: id.to_string(),
        _type: kind.to_string(),
        label: None,
        disabled: None,
        info: None,
        configs: None,
        env: None,
        x: None,
        y: None,
        z: None,
        wires: None,
        props: None,
        repeat: None,
        crontab: None,
        once: None,
        once_delay: None,
        topic: None,
        payload: None,
        payload_type: None,
        name: None,
        func: None,
        outputs: None,
        noerr: None,
        initialize: None,
        finalize: None,
        libs: None,
        method: None,
        ret: None,
        paytoqs: None,
        url: None,
        field: None,
        field_type: None,
        template: None,
        iface: None,
        port: None,
        outport: None,
        ipv: None,
        multicast: None,
        group: None,
        datatype: None,
        syntax: None,
        output: None,
        addr: None,
    }
}

fn tab(id: &str, label: &str, disabled: Option<bool>) -> FlowNodeResponse {
    let mut n = node(id, "tab");
    n.label = Some(label.to_string());
    n.disabled = disabled;
    n
}

fn on(mut n: FlowNodeResponse, z: &str) -> FlowNodeResponse {
    n.z = Some(z.to_string());
    n
}

fn template(id: &str, z: &str, field: &str, value: &str) -> FlowNodeResponse {
    let mut n = on(node(id, "template"), z);
    n.field = Some(field.to_string());
    n.template = Some(value.to_string());
    n
}

fn config() -> Config {
    Config {
        area: "base".to_string(),
        port_base: 30000,
        webserver_port: 8080,
        node_red_ip: "127.0.0.1".to_string(),
        node_red_port: "1880".to_string(),
        ports: PortConfig {
            port_in_from_input_node_base: 31000,
            port_out_to_node_red_base: 32000,
            port_node_red_in_base: 33000,
            port_node_red_out_base: 34000,
            port_in_from_node_red_base: 35000,
            port_out_to_proxy_or_output_node_base: 36000,
            port_output_node_in_base: 37000,
            port_range_limit: 10,
        },
        areas: Some(vec![
            Area {
                name: "room1".to_string(),
                proxy_ip: "10.0.0.2".to_string(),
                proxy_port_base: 40000,
                proxy_webserver_port: 8081,
                node_red_ip: "10.0.0.3".to_string(),
                node_red_port: 1881,
            },
            Area {
                name: "room1".to_string(),
                proxy_ip: "10.9.9.9".to_string(),
                proxy_port_base: 50000,
                proxy_webserver_port: 9999,
                node_red_ip: "10.9.9.9".to_string(),
                node_red_port: 9999,
            },
        ]),
        input_nodes: Some(vec![Node {
            name: "button".to_string(),
            area: "room1".to_string(),
            flow: "Flow 1".to_string(),
            ip: "10.0.0.50".to_string(),
            port: 3000,
        }]),
        output_nodes: None,
    }
}

fn sample_response() -> FlowsResponse {
    FlowsResponse {
        flows: vec![
            on(node("n1", "inject"), "f1"),
            tab("f1", "Flow 1", None),
            template("t1", "f1", "input_area", "room1"),
            template("t2", "f1", "output_area", "room1"),
            tab("f2", "Flow 2", Some(true)),
            on(node("n2", "debug"), "f2"),
            on(node("n3", "debug"), "nowhere"),
            node("n4", "debug"),
        ],
        rev: "abc".to_string(),
    }
}

#[test]
fn grouping_of_nodes_into_flows() {
    let flows = flows::convert_flows_response_to_flows(sample_response());
    assert_eq!(flows.rev, "abc");
    assert_eq!(flows.flows.len(), 2);
    let f1 = flows::get_flow_by_id(&flows, "f1").unwrap();
    assert_eq!(f1.name.as_deref(), Some("Flow 1"));
    assert!(!f1.disabled);
    let ids: Vec<&str> = f1.nodes.iter().map(|n| n.id.as_str()).collect();
    assert_eq!(ids, vec!["n1", "t1", "t2"]);
    assert_eq!(f1.input_area.as_deref(), Some("room1"));
    assert_eq!(f1.output_area.as_deref(), Some("room1"));
    let f2 = flows::get_flow_by_id(&flows, "f2").unwrap();
    assert!(f2.disabled);
    assert_eq!(f2.nodes.len(), 1);
    assert_eq!(f2.input_area, None);
    assert!(flows::get_flow_by_id(&flows, "nowhere").is_none());
}

#[test]
fn later_tab_with_same_id_wins() {
    let response = FlowsResponse {
        flows: vec![tab("f1", "Old", None), tab("f1", "New", Some(true))],
        rev: "1".to_string(),
    };
    let flows = flows::convert_flows_response_to_flows(response);
    assert_eq!(flows.flows.len(), 1);
    assert_eq!(flows.flows[0].name.as_deref(), Some("New"));
    assert!(flows.flows[0].disabled);
}

#[test]
fn last_area_template_wins() {
    let response = FlowsResponse {
        flows: vec![
            tab("f1", "Flow", None),
            template("a", "f1", "input_area", "room1"),
            template("b", "f1", "input_area", "room2"),
        ],
        rev: "1".to_string(),
    };
    let flows = flows::convert_flows_response_to_flows(response);
    assert_eq!(flows.flows[0].input_area.as_deref(), Some("room2"));
}

#[test]
fn flow_id_by_name() {
    let flows = flows::convert_flows_response_to_flows(sample_response());
    assert_eq!(flows::get_flow_id_by_name(&flows, "Flow 2").as_deref(), Some("f2"));
    assert_eq!(flows::get_flow_id_by_name(&flows, "Flow 3"), None);
}

#[test]
fn transferred_name() {
    assert_eq!(flows::to_transferred_flow_name("Flow 1", "room1").as_deref(), Some("Flow 1 (transferred)"));
    assert_eq!(flows::to_transferred_flow_name("", "room1").as_deref(), Some(" (transferred)"));
}

#[test]
fn flow_error_text() {
    let e = FlowError::new("boom".to_string());
    assert_eq!(e.message, "boom");
    assert_eq!(e.to_string(), "boom");
}

#[test]
fn area_lookups_take_the_first_area() {
    let c = config();
    assert_eq!(flows::lookup_node_red_base_url_by_area_name(&c, "room1").unwrap(), "http://10.0.0.3:1881");
    let (ip, base, web) = flows::lookup_proxy_info_by_area_name(&c, "room1").unwrap();
    assert_eq!((ip.as_str(), base, web), ("10.0.0.2", 40000, 8081));
    assert_eq!(
        flows::lookup_node_red_base_url_by_area_name(&c, "attic").unwrap_err().message,
        "Couldn't find Node-RED base URL for area attic"
    );
    assert_eq!(
        flows::lookup_proxy_info_by_area_name(&c, "attic").unwrap_err().message,
        "Couldn't find proxy base URL for area attic"
    );
    let mut no_areas = config();
    no_areas.areas = None;
    assert!(flows::lookup_proxy_info_by_area_name(&no_areas, "room1").is_err());
    assert!(flows::lookup_node_red_base_url_by_area_name(&no_areas, "room1").is_err());
}

#[test]
fn status_update_and_deletion() {
    let mut flows = flows::convert_flows_response_to_flows(sample_response());
    let (k, path) = flows::prepare_flow_status_update(&mut flows, "f1", true).unwrap();
    assert_eq!(path, "/flow/f1");
    assert_eq!(flows.flows[k].id, "f1");
    assert!(flows.flows[k].disabled);
    assert_eq!(
        flows::prepare_flow_status_update(&mut flows, "zz", true).unwrap_err().message,
        "Couldn't find flow with id zz"
    );
    assert!(flows::after_flow_status_sent("f1", true).is_ok());
    assert_eq!(
        flows::after_flow_status_sent("f1", false).unwrap_err().message,
        "Couldn't update status of flow with id f1"
    );
    assert_eq!(flows::prepare_flow_deletion(&flows, "f2").unwrap(), "/flow/f2");
    assert!(flows::prepare_flow_deletion(&flows, "zz").is_err());
    assert!(flows::after_flow_deletion("f2", Some(204)).is_ok());
    assert_eq!(
        flows::after_flow_deletion("f2", Some(200)).unwrap_err().message,
        "Couldn't delete flow with id f2"
    );
    assert!(flows::after_flow_deletion("f2", None).is_err());
}
