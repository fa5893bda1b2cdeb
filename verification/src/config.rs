//! The proxy's configuration: its own area and ports, the other areas and
//! the input and output nodes, and the URLs built from them.
use vstd::prelude::*;
use vstd::string::*;
use crate::text;

verus! {

/// Another area in which a proxy and a Node-RED instance run.
#[derive(Debug, Clone)]
pub struct Area {
    pub name: String,
    pub proxy_ip: String,
    pub proxy_port_base: u16,
    pub proxy_webserver_port: u16,
    pub node_red_ip: String,
    pub node_red_port: u16,
}

/// An input or output node, and the automation (flow) it belongs to.
#[derive(Debug, Clone)]
pub struct Node {
    pub name: String,
    pub area: String,
    pub flow: String,
    pub ip: String,
    pub port: u16,
}

/// The base port of each kind of UDP socket.
#[derive(Debug, Clone)]
pub struct PortConfig {
    /// used by proxies and output nodes as inbound port
    pub port_in_from_input_node_base: u16,
    pub port_out_to_node_red_base: u16,
    /// only used as a target
    pub port_node_red_in_base: u16,
    /// only used in Node-RED
    pub port_node_red_out_base: u16,
    pub port_in_from_node_red_base: u16,
    pub port_out_to_proxy_or_output_node_base: u16,
    /// only used as a target
    pub port_output_node_in_base: u16,
    pub port_range_limit: u16,
}

/// The configuration file of a proxy.
#[derive(Debug, Clone)]
pub struct Config {
    pub area: String,
    pub port_base: u16,
    pub webserver_port: u16,
    pub node_red_ip: String,
    pub node_red_port: String,
    pub ports: PortConfig,
    pub areas: Option<Vec<Area>>,
    pub input_nodes: Option<Vec<Node>>,
    pub output_nodes: Option<Vec<Node>>,
}

/// `http://<ip>:<port>`
pub open spec fn http_url(ip: Seq<char>, port: Seq<char>) -> Seq<char> {
    "http://"@ + ip + ":"@ + port
}

/// The URL of `path` below `base_url`: a `/` is put between them unless
/// `path` starts with one.
pub open spec fn url_for_path(base_url: Seq<char>, path: Seq<char>) -> Seq<char> {
    if text::starts_with_char(path, '/') {
        base_url + path
    } else {
        base_url + seq!['/'] + path
    }
}

/// Builds `http://<ip>:<port>`.
pub fn http_url_of(ip: &str, port: &str) -> (url: String)
    ensures
        url@ == http_url(ip@, port@),
{
    let mut url = text::string_of("http://");
    url.append(ip);
    url.append(":");
    url.append(port);
    url
}

/// The URL of `path` at the Node-RED instance (or proxy) found at `base_url`.
pub fn path_to_url_with_base_url(path: &str, base_url: &str) -> (url: String)
    ensures
        url@ == url_for_path(base_url@, path@),
{
    let mut url = text::string_of(base_url);
    if path.unicode_len() > 0 && path.get_char(0) == '/' {
        url.append(path);
    } else {
        text::push_char(&mut url, '/');
        url.append(path);
    }
    url
}

/// The base URL of the Node-RED instance managed by this proxy.
pub fn node_red_base_url(config: &Config) -> (url: String)
    ensures
        url@ == http_url(config.node_red_ip@, config.node_red_port@),
{
    http_url_of(config.node_red_ip.as_str(), config.node_red_port.as_str())
}

/// Whether `k` is the first index of `areas` at an area named `name`.
pub open spec fn is_first_area_named(areas: Seq<Area>, k: int, name: Seq<char>) -> bool {
    &&& 0 <= k < areas.len()
    &&& areas[k].name@ == name
    &&& forall|j: int| 0 <= j < k ==> (#[trigger] areas[j]).name@ != name
}

/// Whether some area of `areas` is named `name`.
pub open spec fn has_area_named(areas: Option<Vec<Area>>, name: Seq<char>) -> bool {
    match areas {
        Some(v) => exists|k: int| 0 <= k < v@.len() && (#[trigger] v@[k]).name@ == name,
        None => false,
    }
}

/// The index of the first area of `areas` named `name`, if there is one.
pub fn find_area(areas: &Option<Vec<Area>>, name: &str) -> (r: Option<usize>)
    ensures
        match r {
            Some(k) => areas is Some && is_first_area_named(areas->0@, k as int, name@),
            None => !has_area_named(*areas, name@),
        },
{
    match areas {
        Some(v) => {
            let mut k: usize = 0;
            while k < v.len()
                invariant
                    k <= v@.len(),
                    areas is Some,
                    areas->0@ == v@,
                    forall|j: int| 0 <= j < k ==> (#[trigger] v@[j]).name@ != name@,
                decreases v.len() - k,
            {
                if v[k].name == text::string_of(name) {
                    return Some(k);
                }
                k = k + 1;
            }
            None
        },
        None => None,
    }
}

/// Whether `k` is the first index of `nodes` at a node of flow `flow`.
pub open spec fn is_first_node_of_flow(nodes: Seq<Node>, k: int, flow: Seq<char>) -> bool {
    &&& 0 <= k < nodes.len()
    &&& nodes[k].flow@ == flow
    &&& forall|j: int| 0 <= j < k ==> (#[trigger] nodes[j]).flow@ != flow
}

/// The index of the first node of `nodes` that belongs to flow `flow`.
pub fn find_node_of_flow(nodes: &Vec<Node>, flow: &str) -> (r: Option<usize>)
    ensures
        match r {
            Some(k) => is_first_node_of_flow(nodes@, k as int, flow@),
            None => forall|k: int| 0 <= k < nodes@.len() ==> (#[trigger] nodes@[k]).flow@ != flow@,
        },
{
    let mut k: usize = 0;
    while k < nodes.len()
        invariant
            k <= nodes@.len(),
            forall|j: int| 0 <= j < k ==> (#[trigger] nodes@[j]).flow@ != flow@,
        decreases nodes.len() - k,
    {
        if nodes[k].flow == text::string_of(flow) {
            return Some(k);
        }
        k = k + 1;
    }
    None
}

} // verus!
