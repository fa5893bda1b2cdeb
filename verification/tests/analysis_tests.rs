use node_red_proxy::config::{Area, Config, Node, PortConfig};
use node_red_proxy::analysis;
use node_red_proxy::flows::{self, FlowError, FlowNodeResponse, FlowTransferResult, FlowsResponse};

fn node(id: &str, kind: &str) -> FlowNodeResponse {
    FlowNodeResponse {
        id: id.to_string(),
        _type: kind.to_string(),
        label: None,
        disabled: None,
        info: None,
        configs: None,
        env: None,
        x: None,
        y: None,
        z: None,
        wires: None,
        props: None,
        repeat: None,
        crontab: None,
        once: None,
        once_delay: None,
        topic: None,
        payload: None,
        payload_type: None,
        name: None,
        func: None,
        outputs: None,
        noerr: None,
        initialize: None,
        finalize: None,
        libs: None,
        method: None,
        ret: None,
        paytoqs: None,
        url: None,
        field: None,
        field_type: None,
        template: None,
        iface: None,
        port: None,
        outport: None,
        ipv: None,
        multicast: None,
        group: None,
        datatype: None,
        syntax: None,
        output: None,
        addr: None,
    }
}

fn tab(id: &str, label: &str, disabled: Option<bool>) -> FlowNodeResponse {
    let mut n = node(id, "tab");
    n.label = Some(label.to_string());
    n.disabled = disabled;
    n
}

fn on(mut n: FlowNodeResponse, z: &str) -> FlowNodeResponse {
    n.z = Some(z.to_string());
    n
}

fn template(id: &str, z: &str, field: &str, value: &str) -> FlowNodeResponse {
    let mut n = on(node(id, "template"), z);
    n.field = Some(field.to_string());
    n.template = Some(value.to_string());
    n
}

fn config() -> Config {
    Config {
        area: "base".to_string(),
        port_base: 30000,
        webserver_port: 8080,
        node_red_ip: "127.0.0.1".to_string(),
        node_red_port: "1880".to_string(),
        ports: PortConfig {
            port_in_from_input_node_base: 31000,
            port_out_to_node_red_base: 32000,
            port_node_red_in_base: 33000,
            port_node_red_out_base: 34000,
            port_in_from_node_red_base: 35000,
            port_out_to_proxy_or_output_node_base: 36000,
            port_output_node_in_base: 37000,
            port_range_limit: 10,
        },
        areas: Some(vec![
            Area {
                name: "room1".to_string(),
                proxy_ip: "10.0.0.2".to_string(),
                proxy_port_base: 40000,
                proxy_webserver_port: 8081,
                node_red_ip: "10.0.0.3".to_string(),
                node_red_port: 1881,
            },
            Area {
                name: "room1".to_string(),
                proxy_ip: "10.9.9.9".to_string(),
                proxy_port_base: 50000,
                proxy_webserver_port: 9999,
                node_red_ip: "10.9.9.9".to_string(),
                node_red_port: 9999,
            },
        ]),
        input_nodes: Some(vec![Node {
            name: "button".to_string(),
            area: "room1".to_string(),
            flow: "Flow 1".to_string(),
            ip: "10.0.0.50".to_string(),
            port: 3000,
        }]),
        output_nodes: None,
    }
}


fn flow_serving(id: &str, name: &str, area: &str, out: &str, disabled: bool) -> Vec<FlowNodeResponse> {
    vec![
        tab(id, name, Some(disabled)),
        template(&format!("{}i", id), id, "input_area", area),
        template(&format!("{}o", id), id, "output_area", out),
    ]
}

fn analysis_response() -> FlowsResponse {
    let mut nodes = vec![];
    nodes.extend(flow_serving("a", "Zeta", "room1", "room1", false));
    nodes.extend(flow_serving("b", "Alpha", "room1", "room1", true));
    nodes.extend(flow_serving("c", "Beta", "base", "base", false));
    nodes.extend(flow_serving("d", "Gamma", "room1", "room2", false));
    nodes.extend(flow_serving("e", "Delta", "attic", "attic", false));
    nodes.extend(flow_serving("f", "Alpha (transferred)", "room1", "room1", false));
    nodes.push(node("g", "tab"));
    FlowsResponse { flows: nodes, rev: "r".to_string() }
}

fn sorted_names(v: &[String]) -> Vec<String> {
    let mut s = v.to_vec();
    s.sort();
    s
}

#[test]
fn choosing_flows_to_move_out() {
    let c = config();
    let flows = flows::convert_flows_response_to_flows(analysis_response());
    let (names, moves) = analysis::plan_flow_moves(&flows, &c, false).unwrap();
    assert_eq!(
        sorted_names(&names),
        vec!["Alpha", "Alpha (transferred)", "Beta", "Delta", "Gamma", "Unnamed Flow", "Zeta"]
    );
    let mut chosen: Vec<&str> = moves.iter().map(|m| m.flow_id.as_str()).collect();
    chosen.sort();
    assert_eq!(chosen, vec!["a", "f"]);
    for m in &moves {
        assert_eq!(m.old_area, "base");
        assert_eq!(m.new_area, "room1");
        assert!(!m.transfer_successful);
        assert_eq!(m.new_flow_name, None);
    }
}

#[test]
fn choosing_flows_to_move_back() {
    let c = config();
    let flows = flows::convert_flows_response_to_flows(analysis_response());
    let (_, moves) = analysis::plan_flow_moves(&flows, &c, true).unwrap();
    let mut chosen: Vec<&str> = moves.iter().map(|m| m.flow_id.as_str()).collect();
    chosen.sort();
    assert_eq!(chosen, vec!["b"]);
    for m in &moves {
        assert_eq!(m.old_area, "room1");
        assert_eq!(m.new_area, "base");
    }
}

#[test]
fn no_configured_areas_stops_the_analysis() {
    let mut c = config();
    c.areas = None;
    let flows = flows::convert_flows_response_to_flows(analysis_response());
    assert!(analysis::plan_flow_moves(&flows, &c, false).is_none());
    let only_base = FlowsResponse { flows: flow_serving("c", "Beta", "base", "base", false), rev: "r".to_string() };
    let flows = flows::convert_flows_response_to_flows(only_base);
    assert!(analysis::plan_flow_moves(&flows, &c, false).is_some());
}

fn planned(id: &str, name: Option<&str>) -> FlowTransferResult {
    FlowTransferResult {
        flow_id: id.to_string(),
        flow_name: name.map(|n| n.to_string()),
        new_flow_name: None,
        old_area: "base".to_string(),
        new_area: "room1".to_string(),
        transfer_successful: false,
    }
}

#[test]
fn report_is_sorted() {
    let names = vec!["b".to_string(), "a".to_string(), "c".to_string(), "a".to_string()];
    let moves = vec![planned("1", Some("b")), planned("2", None), planned("3", Some("a")), planned("4", Some("b")), planned("5", None)];
    let report = analysis::finish_analysis(names, moves);
    assert_eq!(report.analyzed_flows, vec!["a", "a", "b", "c"]);
    let order: Vec<&str> = report.transferred_flows.iter().map(|m| m.flow_id.as_str()).collect();
    assert_eq!(order, vec!["2", "5", "3", "1", "4"]);
}

#[test]
fn sorting_matches_std() {
    let words = ["Flow 10", "flow", "Flow 2", "", "Ärger", "Flow 1", "Flow 2"];
    let v: Vec<String> = words.iter().map(|w| w.to_string()).collect();
    let mut expected = v.clone();
    expected.sort();
    assert_eq!(analysis::sort_strings(v), expected);
}

#[test]
fn outcomes_are_recorded() {
    let mut m = planned("1", Some("Flow"));
    analysis::record_move_outcome(&mut m, Err(FlowError::new("x".to_string())));
    assert!(!m.transfer_successful);
    analysis::record_move_outcome(&mut m, Ok(Some("Flow (transferred)".to_string())));
    assert!(m.transfer_successful);
    assert_eq!(m.new_flow_name.as_deref(), Some("Flow (transferred)"));
}
