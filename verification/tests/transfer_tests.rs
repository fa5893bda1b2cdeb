use node_red_proxy::config::{Area, Config, Node, PortConfig};
use node_red_proxy::flows::{self, FlowNodeResponse, FlowsResponse};
use node_red_proxy::transfer::{self, AfterFlowCreated, AfterFlowEnabled, TransferStart};

fn node(id: &str, kind: &str) -> FlowNodeResponse {
    FlowNodeResponse {
        id: id.to_string(),
        _type: kind.to_string(),
        label: None,
        disabled: None,
        info: None,
        configs: None,
        env: None,
        x: None,
        y: None,
        z: None,
        wires: None,
        props: None,
        repeat: None,
        crontab: None,
        once: None,
        once_delay: None,
        topic: None,
        payload: None,
        payload_type: None,
        name: None,
        func: None,
        outputs: None,
        noerr: None,
        initialize: None,
        finalize: None,
        libs: None,
        method: None,
        ret: None,
        paytoqs: None,
        url: None,
        field: None,
        field_type: None,
        template: None,
        iface: None,
        port: None,
        outport: None,
        ipv: None,
        multicast: None,
        group: None,
        datatype: None,
        syntax: None,
        output: None,
        addr: None,
    }
}

fn tab(id: &str, label: &str, disabled: Option<bool>) -> FlowNodeResponse {
    let mut n = node(id, "tab");
    n.label = Some(label.to_string());
    n.disabled = disabled;
    n
}

fn on(mut n: FlowNodeResponse, z: &str) -> FlowNodeResponse {
    n.z = Some(z.to_string());
    n
}

fn template(id: &str, z: &str, field: &str, value: &str) -> FlowNodeResponse {
    let mut n = on(node(id, "template"), z);
    n.field = Some(field.to_string());
    n.template = Some(value.to_string());
    n
}

fn config() -> Config {
    Config {
        area: "base".to_string(),
        port_base: 30000,
        webserver_port: 8080,
        node_red_ip: "127.0.0.1".to_string(),
        node_red_port: "1880".to_string(),
        ports: PortConfig {
            port_in_from_input_node_base: 31000,
            port_out_to_node_red_base: 32000,
            port_node_red_in_base: 33000,
            port_node_red_out_base: 34000,
            port_in_from_node_red_base: 35000,
            port_out_to_proxy_or_output_node_base: 36000,
            port_output_node_in_base: 37000,
            port_range_limit: 10,
        },
        areas: Some(vec![
            Area {
                name: "room1".to_string(),
                proxy_ip: "10.0.0.2".to_string(),
                proxy_port_base: 40000,
                proxy_webserver_port: 8081,
                node_red_ip: "10.0.0.3".to_string(),
                node_red_port: 1881,
            },
            Area {
                name: "room1".to_string(),
                proxy_ip: "10.9.9.9".to_string(),
                proxy_port_base: 50000,
                proxy_webserver_port: 9999,
                node_red_ip: "10.9.9.9".to_string(),
                node_red_port: 9999,
            },
        ]),
        input_nodes: Some(vec![Node {
            name: "button".to_string(),
            area: "room1".to_string(),
            flow: "Flow 1".to_string(),
            ip: "10.0.0.50".to_string(),
            port: 3000,
        }]),
        output_nodes: None,
    }
}

fn sample_response() -> FlowsResponse {
    FlowsResponse {
        flows: vec![
            on(node("n1", "inject"), "f1"),
            tab("f1", "Flow 1", None),
            template("t1", "f1", "input_area", "room1"),
            template("t2", "f1", "output_area", "room1"),
            tab("f2", "Flow 2", Some(true)),
            on(node("n2", "debug"), "f2"),
            on(node("n3", "debug"), "nowhere"),
            node("n4", "debug"),
        ],
        rev: "abc".to_string(),
    }
}


fn transferable_response() -> FlowsResponse {
    let mut udp_in = on(node("u1", "udp in"), "f1");
    udp_in.port = Some("31005".to_string());
    udp_in.wires = Some(vec![vec!["u2".to_string(), "ext".to_string()]]);
    let mut udp_out = on(node("u2", "udp out"), "f1");
    udp_out.port = Some("32007".to_string());
    udp_out.outport = Some("12345".to_string());
    udp_out.addr = Some("127.0.0.1".to_string());
    FlowsResponse {
        flows: vec![
            tab("f1", "Flow 1", None),
            template("m1", "f1", "meta", "{\"flow_name\":\"Flow 1\",\"execution_area\":\"base\"}"),
            udp_in,
            udp_out,
            template("t1", "f1", "input_area", "room1"),
            template("t2", "f1", "output_area", "room1"),
        ],
        rev: "r".to_string(),
    }
}

#[test]
fn rewriting_with_given_ids() {
    let mut flows = flows::convert_flows_response_to_flows(transferable_response());
    let mut flow = flows.flows.remove(0);
    assert!(transfer::can_rewrite_flow(&flow, "room1", 40000));
    let ids: Vec<String> = (0..flow.nodes.len()).map(|i| format!("new{}", i)).collect();
    transfer::rewrite_flow_for_area(&mut flow, &ids, "room1", "10.0.0.2", 40000);
    assert_eq!(flow.name.as_deref(), Some("Flow 1 (transferred)"));
    assert_eq!(flow.id, "f1");
    let meta = &flow.nodes[0];
    assert_eq!(meta.id, "new0");
    let parsed: serde_json::Value = serde_json::from_str(meta.template.as_deref().unwrap()).unwrap();
    assert_eq!(parsed["execution_area"], "room1");
    assert_eq!(parsed["flow_name"], "Flow 1");
    let udp_in = &flow.nodes[1];
    assert_eq!(udp_in.port.as_deref(), Some("41005"));
    assert_eq!(udp_in.wires, Some(vec![vec!["new2".to_string(), "ext".to_string()]]));
    let udp_out = &flow.nodes[2];
    assert_eq!(udp_out.port.as_deref(), Some("42007"));
    assert_eq!(udp_out.outport.as_deref(), Some("42345"));
    assert_eq!(udp_out.addr.as_deref(), Some("10.0.0.2"));
    assert_eq!(flow.nodes[3].template.as_deref(), Some("room1"));
}

#[test]
fn ports_that_overflow_cannot_be_rewritten() {
    let mut flows = flows::convert_flows_response_to_flows(transferable_response());
    let flow = flows.flows.remove(0);
    assert!(!transfer::can_rewrite_flow(&flow, "room1", 64000));
    assert!(transfer::can_rewrite_flow(&flow, "room1", 60000));
    assert_eq!(transfer::shift_port("31005", 40000).as_deref(), Some("41005"));
    assert_eq!(transfer::shift_port("x", 40000), None);
    assert_eq!(transfer::shift_port("9999", 60000), None);
}

#[test]
fn meta_template_must_be_an_object() {
    let response = FlowsResponse {
        flows: vec![tab("f1", "Flow 1", None), template("m1", "f1", "meta", "not json")],
        rev: "r".to_string(),
    };
    let mut flows = flows::convert_flows_response_to_flows(response);
    assert!(matches!(
        transfer::start_flow_transfer(&mut flows, &config(), "f1", "room1"),
        TransferStart::CannotRewrite
    ));
    assert_eq!(flows.flows[0].name.as_deref(), Some("Flow 1"));
}

#[test]
fn a_whole_transfer() {
    let c = config();
    let mut flows = flows::convert_flows_response_to_flows(transferable_response());
    let t = match transfer::start_flow_transfer(&mut flows, &c, "f1", "room1") {
        TransferStart::Rewritten(t) => t,
        other => panic!("unexpected {:?}", other),
    };
    assert_eq!(t.post_url, "http://10.0.0.3:1881/flow");
    assert_eq!(t.proxy_ip, "10.0.0.2");
    assert_eq!(t.proxy_port_base, 40000);
    assert_eq!(t.original_flow_name, "Flow 1");
    assert_eq!(t.new_flow_name.as_deref(), Some("Flow 1 (transferred)"));
    let flow = &flows.flows[t.flow_index];
    for n in &flow.nodes {
        assert_eq!(n.id.len(), 16);
        assert!(n.id.chars().all(|c| c.is_ascii_hexdigit() && !c.is_ascii_uppercase()));
    }
    assert_eq!(flow.nodes[1].wires.as_ref().unwrap()[0][0], flow.nodes[2].id);
    match transfer::after_flow_created(&t, &c, Some(200)) {
        AfterFlowCreated::NotifyInputNode { address, port, message } => {
            assert_eq!(address, (10, 0, 0, 50));
            assert_eq!(port, 3000);
            assert_eq!(message.target, "10.0.0.2");
            assert_eq!(message.target_port_base, 40000);
        }
        other => panic!("unexpected {:?}", other),
    }
    assert!(transfer::after_input_node_answer(true).is_ok());
    assert_eq!(
        transfer::after_input_node_answer(false).unwrap_err().message,
        "ACK from input node timed out. Flow still running in old area."
    );
    assert_eq!(
        transfer::after_old_flow_disabled(&t, Ok(())).unwrap().as_deref(),
        Some("Flow 1 (transferred)")
    );
    let failed = transfer::after_old_flow_disabled(&t, Err(flows::FlowError::new("x".to_string())));
    assert_eq!(failed.unwrap_err().message, "x");
}

#[test]
fn transfer_refusals() {
    let c = config();
    let mut flows = flows::convert_flows_response_to_flows(transferable_response());
    match transfer::start_flow_transfer(&mut flows, &c, "zz", "room1") {
        TransferStart::Failed(e) => assert_eq!(e.message, "Couldn't find flow with id zz"),
        other => panic!("unexpected {:?}", other),
    }
    match transfer::start_flow_transfer(&mut flows, &c, "f1", "attic") {
        TransferStart::Failed(e) => assert_eq!(e.message, "Couldn't find proxy IP for area attic"),
        other => panic!("unexpected {:?}", other),
    }
    flows.flows[0].disabled = true;
    match transfer::start_flow_transfer(&mut flows, &c, "f1", "room1") {
        TransferStart::Failed(e) => assert_eq!(e.message, "Flow with id f1 is disabled. Please enable it first."),
        other => panic!("unexpected {:?}", other),
    }
}

#[test]
fn answers_of_the_new_area() {
    let mut c = config();
    let mut flows = flows::convert_flows_response_to_flows(transferable_response());
    let t = match transfer::start_flow_transfer(&mut flows, &c, "f1", "room1") {
        TransferStart::Rewritten(t) => t,
        other => panic!("unexpected {:?}", other),
    };
    match transfer::after_flow_created(&t, &c, None) {
        AfterFlowCreated::Failed(e) => assert_eq!(e.message, "Couldn't update status of flow with id f1"),
        other => panic!("unexpected {:?}", other),
    }
    match transfer::after_flow_created(&t, &c, Some(500)) {
        AfterFlowCreated::Failed(e) => assert_eq!(e.message, "Couldn't create flow in new area"),
        other => panic!("unexpected {:?}", other),
    }
    c.input_nodes.as_mut().unwrap()[0].ip = "not an address".to_string();
    assert!(matches!(transfer::after_flow_created(&t, &c, Some(200)), AfterFlowCreated::BadInputNodeAddress));
    c.input_nodes.as_mut().unwrap()[0].flow = "Other".to_string();
    match transfer::after_flow_created(&t, &c, Some(200)) {
        AfterFlowCreated::Failed(e) => assert_eq!(e.message, "Couldn't find input node for flow Flow 1"),
        other => panic!("unexpected {:?}", other),
    }
    c.input_nodes = None;
    assert!(matches!(transfer::after_flow_created(&t, &c, Some(200)), AfterFlowCreated::DisableOldFlow));
    assert_eq!(
        transfer::after_old_flow_disabled(&t, Ok(())).unwrap().as_deref(),
        Some("Flow 1 (transferred)")
    );
}

#[test]
fn a_whole_untransfer() {
    let c = config();
    let flows = flows::convert_flows_response_to_flows(transferable_response());
    let u = transfer::start_flow_untransfer(&flows, &c, "f1", "room1").unwrap();
    assert_eq!(u.proxy_base_url, "http://10.0.0.2:8081");
    assert_eq!(u.transferred_flow_name, "Flow 1 (transferred)");
    assert_eq!(u.original_flow_name, "Flow 1");
    match transfer::after_flow_enabled(&u, &c, Ok(())) {
        AfterFlowEnabled::NotifyInputNode { address, port, target_port_base } => {
            assert_eq!(address, (10, 0, 0, 50));
            assert_eq!(port, 3000);
            assert_eq!(target_port_base, 30000);
        }
        other => panic!("unexpected {:?}", other),
    }
    match transfer::after_flow_enabled(&u, &c, Err(flows::FlowError::new("x".to_string()))) {
        AfterFlowEnabled::Failed(e) => assert_eq!(e.message, "Couldn't update status of flow with id f1"),
        other => panic!("unexpected {:?}", other),
    }
    assert_eq!(
        transfer::after_untransfer_ack(&u, true).unwrap(),
        "http://10.0.0.2:8081/flow/Flow 1 (transferred)"
    );
    assert!(transfer::after_untransfer_ack(&u, false).is_err());
    let mut without_nodes = config();
    without_nodes.input_nodes = None;
    match transfer::after_flow_enabled(&u, &without_nodes, Ok(())) {
        AfterFlowEnabled::DeleteCopy(url) => assert_eq!(url, "http://10.0.0.2:8081/flow/Flow 1 (transferred)"),
        other => panic!("unexpected {:?}", other),
    }
    assert_eq!(transfer::after_transferred_flow_deleted(&u, Some(200)).unwrap().as_deref(), Some("Flow 1"));
    assert_eq!(
        transfer::after_transferred_flow_deleted(&u, Some(404)).unwrap_err().message,
        "Couldn't delete flow from area 'room1'"
    );
    assert_eq!(
        transfer::start_flow_untransfer(&flows, &c, "zz", "room1").unwrap_err().message,
        "Couldn't find flow with id zz"
    );
    assert_eq!(
        transfer::start_flow_untransfer(&flows, &c, "f1", "attic").unwrap_err().message,
        "Couldn't find proxy IP for area attic"
    );
}

#[test]
fn fresh_node_ids_are_hex() {
    let ids = transfer::new_node_ids(5);
    assert_eq!(ids.len(), 5);
    for id in &ids {
        assert_eq!(id.len(), 16);
        assert!(id.chars().all(|c| matches!(c, '0'..='9' | 'a'..='f')));
    }
    assert_ne!(ids[0], ids[1]);
}
