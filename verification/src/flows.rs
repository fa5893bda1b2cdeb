//! Automations ("flows") of Node-RED: the model of the Node-RED flows API,
//! the grouping of its nodes into flows, and the lookups that the transfer
//! of a flow to another area needs.
use vstd::prelude::*;
use vstd::string::*;
use crate::text;
use crate::config;
use crate::config::{Area, Config};

verus! {

/// One node of the Node-RED flows API, as far as this proxy reads it.
///
/// `configs` holds each configuration value as JSON text and `props` each
/// property map as its (key, value) pairs; `once_delay` holds the bits of
/// the `f32` that Node-RED sends.
#[derive(Debug)]
pub struct FlowNodeResponse {
    pub id: String,
    pub _type: String,
    pub label: Option<String>,
    pub disabled: Option<bool>,
    pub info: Option<String>,
    pub configs: Option<Vec<String>>,
    pub env: Option<Vec<String>>,
    pub x: Option<u32>,
    pub y: Option<u32>,
    pub z: Option<String>,
    pub wires: Option<Vec<Vec<String>>>,
    pub props: Option<Vec<Vec<(String, String)>>>,
    pub repeat: Option<String>,
    pub crontab: Option<String>,
    pub once: Option<bool>,
    pub once_delay: Option<u32>,
    pub topic: Option<String>,
    pub payload: Option<String>,
    pub payload_type: Option<String>,
    pub name: Option<String>,
    pub func: Option<String>,
    pub outputs: Option<u32>,
    pub noerr: Option<u32>,
    pub initialize: Option<String>,
    pub finalize: Option<String>,
    pub libs: Option<Vec<String>>,
    pub method: Option<String>,
    pub ret: Option<String>,
    pub paytoqs: Option<String>,
    pub url: Option<String>,
    pub field: Option<String>,
    pub field_type: Option<String>,
    pub template: Option<String>,
    pub iface: Option<String>,
    pub port: Option<String>,
    pub outport: Option<String>,
    pub ipv: Option<String>,
    pub multicast: Option<String>,
    pub group: Option<String>,
    pub datatype: Option<String>,
    pub syntax: Option<String>,
    pub output: Option<String>,
    pub addr: Option<String>,
}

/// The answer of Node-RED's `GET /flows`.
#[derive(Debug)]
pub struct FlowsResponse {
    pub flows: Vec<FlowNodeResponse>,
    pub rev: String,
}

/// A flow (a tab of Node-RED) with its nodes, and the areas in which its
/// input and output lie.
#[derive(Debug)]
pub struct Flow {
    pub nodes: Vec<FlowNodeResponse>,
    pub id: String,
    pub name: Option<String>,
    pub disabled: bool,
    pub configs: Vec<String>,
    pub input_area: Option<String>,
    pub output_area: Option<String>,
}

/// All flows of a Node-RED instance; no two have the same id.
#[derive(Debug)]
pub struct Flows {
    pub flows: Vec<Flow>,
    pub rev: String,
}

/// Why a flow operation failed.
#[derive(Debug)]
pub struct FlowError {
    pub message: String,
}

impl FlowError {
    pub fn new(message: String) -> (e: Self)
        ensures
            e.message == message,
    {
        FlowError { message }
    }

    /// The text of the error, as its `Display` shows it.
    pub fn to_string(&self) -> (s: String)
        ensures
            s@ == self.message@,
    {
        self.message.clone()
    }
}

/// What happened, or would happen, to one flow when flows are moved between
/// areas.
#[derive(Debug)]
pub struct FlowTransferResult {
    pub flow_id: String,
    pub flow_name: Option<String>,
    pub new_flow_name: Option<String>,
    pub old_area: String,
    pub new_area: String,
    pub transfer_successful: bool,
}

/// The names of all flows looked at, and the flows chosen to be moved.
#[derive(Debug)]
pub struct AnalysisResult {
    pub analyzed_flows: Vec<String>,
    pub transferred_flows: Vec<FlowTransferResult>,
}

/// `<a><b>` as a new string.
pub fn concat(a: &str, b: &str) -> (r: String)
    ensures
        r@ == a@ + b@,
{
    let mut r = text::string_of(a);
    r.append(b);
    r
}

/// The name that a flow gets in the area it is moved to.
pub open spec fn transferred_name(original: Seq<char>) -> Seq<char> {
    original + " (transferred)"@
}

pub fn to_transferred_flow_name(original_flow_name: &str, _new_area: &str) -> (name: Option<String>)
    ensures
        name matches Some(n) && n@ == transferred_name(original_flow_name@),
{
    Some(concat(original_flow_name, " (transferred)"))
}

/// The Node-RED base URL of an area.
pub open spec fn area_node_red_url(area: Area) -> Seq<char> {
    config::http_url(area.node_red_ip@, text::decimal(area.node_red_port as nat))
}

/// Finds the base URL of the Node-RED instance of the first area named
/// `area_name`.
pub fn lookup_node_red_base_url_by_area_name(config: &Config, area_name: &str) -> (r: Result<String, FlowError>)
    ensures
        match r {
            Ok(url) => config.areas is Some && exists|k: int|
                config::is_first_area_named(config.areas->0@, k, area_name@)
                && url@ == area_node_red_url(#[trigger] config.areas->0@[k]),
            Err(e) => !config::has_area_named(config.areas, area_name@)
                && e.message@ == "Couldn't find Node-RED base URL for area "@ + area_name@,
        },
{
    match config::find_area(&config.areas, area_name) {
        Some(k) => {
            let areas = config.areas.as_ref().unwrap();
            let area = &areas[k];
            let port = text::u128_to_decimal(area.node_red_port as u128);
            Ok(config::http_url_of(area.node_red_ip.as_str(), port.as_str()))
        },
        None => Err(FlowError::new(concat("Couldn't find Node-RED base URL for area ", area_name))),
    }
}

/// Finds the proxy IP, proxy port base and proxy webserver port of the first
/// area named `area_name`.
pub fn lookup_proxy_info_by_area_name(config: &Config, area_name: &str) -> (r: Result<(String, u16, u16), FlowError>)
    ensures
        match r {
            Ok(info) => config.areas is Some && exists|k: int|
                config::is_first_area_named(config.areas->0@, k, area_name@)
                && info.0@ == (#[trigger] config.areas->0@[k]).proxy_ip@
                && info.1 == config.areas->0@[k].proxy_port_base
                && info.2 == config.areas->0@[k].proxy_webserver_port,
            Err(e) => !config::has_area_named(config.areas, area_name@)
                && e.message@ == "Couldn't find proxy base URL for area "@ + area_name@,
        },
{
    match config::find_area(&config.areas, area_name) {
        Some(k) => {
            let areas = config.areas.as_ref().unwrap();
            let area = &areas[k];
            Ok((area.proxy_ip.clone(), area.proxy_port_base, area.proxy_webserver_port))
        },
        None => Err(FlowError::new(concat("Couldn't find proxy base URL for area ", area_name))),
    }
}

/// Whether a node of the flows API is a flow (a tab) itself.
pub open spec fn is_tab(n: FlowNodeResponse) -> bool {
    n._type@ == "tab"@
}

/// Whether `n` is a node (not a tab) that lies on the flow with id `id`.
pub open spec fn belongs_to(n: FlowNodeResponse, id: Seq<char>) -> bool {
    !is_tab(n) && n.z is Some && n.z->0@ == id
}

/// The nodes of `ns` that lie on the flow `id`, in their order.
pub open spec fn nodes_of(ns: Seq<FlowNodeResponse>, id: Seq<char>) -> Seq<FlowNodeResponse>
    decreases ns.len(),
{
    if ns.len() == 0 {
        Seq::empty()
    } else if belongs_to(ns.last(), id) {
        nodes_of(ns.drop_last(), id).push(ns.last())
    } else {
        nodes_of(ns.drop_last(), id)
    }
}

/// The nodes of `ns` that are not tabs, in their order.
pub open spec fn non_tabs(ns: Seq<FlowNodeResponse>) -> Seq<FlowNodeResponse>
    decreases ns.len(),
{
    if ns.len() == 0 {
        Seq::empty()
    } else if !is_tab(ns.last()) {
        non_tabs(ns.drop_last()).push(ns.last())
    } else {
        non_tabs(ns.drop_last())
    }
}

/// Whether `n` is a template node that names the area of the flow's input
/// (`field` "input_area") or output (`field` "output_area").
pub open spec fn is_area_template(n: FlowNodeResponse, field: Seq<char>) -> bool {
    &&& n._type@ == "template"@
    &&& n.template is Some
    &&& n.field is Some
    &&& n.field->0@ == field
}

/// The template of the last area template for `field` among `ns`.
pub open spec fn area_from_nodes(ns: Seq<FlowNodeResponse>, field: Seq<char>) -> Option<String>
    decreases ns.len(),
{
    if ns.len() == 0 {
        None
    } else if is_area_template(ns.last(), field) {
        ns.last().template
    } else {
        area_from_nodes(ns.drop_last(), field)
    }
}

/// The index of the last tab of `ns` with id `id`, or -1.
pub open spec fn last_tab_index(ns: Seq<FlowNodeResponse>, id: Seq<char>) -> int
    decreases ns.len(),
{
    if ns.len() == 0 {
        -1
    } else if is_tab(ns.last()) && ns.last().id@ == id {
        ns.len() - 1
    } else {
        last_tab_index(ns.drop_last(), id)
    }
}

/// The configuration values of a tab (none when it has none).
pub open spec fn configs_of(n: FlowNodeResponse) -> Seq<String> {
    match n.configs {
        Some(v) => v@,
        None => Seq::empty(),
    }
}

/// No two flows have the same id.
pub open spec fn unique_ids(fs: Seq<Flow>) -> bool {
    forall|i: int, j: int|
        0 <= i < fs.len() && 0 <= j < fs.len() && i != j ==> (#[trigger] fs[i]).id@ != (#[trigger] fs[j]).id@
}

/// The id, name, status and configuration of flow `f` are those of tab `n`.
pub open spec fn flow_header_from(f: Flow, n: FlowNodeResponse) -> bool {
    &&& f.id@ == n.id@
    &&& f.name == n.label
    &&& f.disabled == (n.disabled == Some(true))
    &&& f.configs@ == configs_of(n)
}

/// Flow `f` is what the flows API answer `ns` says of the flow with its id:
/// its header comes from the last tab with that id, its nodes are those
/// that lie on it, and its areas come from its area templates.
pub open spec fn grouped_flow(f: Flow, ns: Seq<FlowNodeResponse>) -> bool {
    let t = last_tab_index(ns, f.id@);
    &&& 0 <= t < ns.len()
    &&& flow_header_from(f, ns[t])
    &&& f.nodes@ == nodes_of(ns, f.id@)
    &&& f.input_area == area_from_nodes(f.nodes@, "input_area"@)
    &&& f.output_area == area_from_nodes(f.nodes@, "output_area"@)
}

/// Every tab of `ns` has a flow in `fs`.
pub open spec fn covers_all_tabs(fs: Seq<Flow>, ns: Seq<FlowNodeResponse>) -> bool {
    forall|j: int|
        0 <= j < ns.len() && is_tab(#[trigger] ns[j]) ==> exists|k: int|
            0 <= k < fs.len() && (#[trigger] fs[k]).id@ == ns[j].id@
}

/// The flows that the flows API answer `ns` describes.
pub open spec fn groups_response(fs: Seq<Flow>, ns: Seq<FlowNodeResponse>) -> bool {
    &&& unique_ids(fs)
    &&& forall|k: int| 0 <= k < fs.len() ==> grouped_flow(#[trigger] fs[k], ns)
    &&& covers_all_tabs(fs, ns)
}

proof fn lemma_nodes_of_non_tabs(ns: Seq<FlowNodeResponse>, id: Seq<char>)
    ensures
        nodes_of(non_tabs(ns), id) == nodes_of(ns, id),
    decreases ns.len(),
{
    if ns.len() > 0 {
        lemma_nodes_of_non_tabs(ns.drop_last(), id);
        if !is_tab(ns.last()) {
            assert(non_tabs(ns).drop_last() =~= non_tabs(ns.drop_last()));
        }
    }
}

proof fn lemma_non_tabs_are_not_tabs(ns: Seq<FlowNodeResponse>)
    ensures
        forall|i: int| 0 <= i < non_tabs(ns).len() ==> !is_tab(#[trigger] non_tabs(ns)[i]),
    decreases ns.len(),
{
    if ns.len() > 0 {
        lemma_non_tabs_are_not_tabs(ns.drop_last());
        let prev = non_tabs(ns.drop_last());
        assert forall|i: int| 0 <= i < non_tabs(ns).len() implies !is_tab(#[trigger] non_tabs(ns)[i]) by {
            if i < prev.len() {
                assert(non_tabs(ns)[i] == prev[i]);
            }
        }
    }
}

/// A copy of an optional string.
pub fn copy_opt_string(o: &Option<String>) -> (r: Option<String>)
    ensures
        r == *o,
{
    match o {
        Some(s) => Some(s.clone()),
        None => None,
    }
}

/// The index of the flow with id `id`, if there is one.
pub fn find_flow(fs: &Vec<Flow>, id: &str) -> (r: Option<usize>)
    ensures
        match r {
            Some(k) => k < fs@.len() && fs@[k as int].id@ == id@
                && forall|j: int| 0 <= j < k ==> (#[trigger] fs@[j]).id@ != id@,
            None => forall|k: int| 0 <= k < fs@.len() ==> (#[trigger] fs@[k]).id@ != id@,
        },
{
    let mut k: usize = 0;
    while k < fs.len()
        invariant
            k <= fs@.len(),
            forall|j: int| 0 <= j < k ==> (#[trigger] fs@[j]).id@ != id@,
        decreases fs.len() - k,
    {
        if fs[k].id == text::string_of(id) {
            return Some(k);
        }
        k = k + 1;
    }
    None
}

fn is_named(s: &String, lit: &str) -> (b: bool)
    ensures
        b == (s@ == lit@),
{
    *s == text::string_of(lit)
}

/// Groups the nodes of a flows API answer by the flow (tab) they lie on, and
/// reads the input and output area of each flow from its area templates.
pub fn convert_flows_response_to_flows(response: FlowsResponse) -> (flows: Flows)
    ensures
        groups_response(flows.flows@, response.flows@),
        flows.rev == response.rev,
{
    let ghost orig = response.flows@;
    let FlowsResponse { flows: mut work, rev } = response;
    let len = work.len();
    let mut fs: Vec<Flow> = Vec::new();
    let mut rest: Vec<FlowNodeResponse> = Vec::new();
    let mut i: usize = 0;
    while i < len
        invariant
            i <= len,
            len == orig.len(),
            work@ == orig.subrange(i as int, len as int),
            unique_ids(fs@),
            forall|k: int| 0 <= k < fs@.len() ==> {
                let f = #[trigger] fs@[k];
                let t = last_tab_index(orig.take(i as int), f.id@);
                &&& 0 <= t < i
                &&& flow_header_from(f, orig[t])
                &&& f.nodes@.len() == 0
                &&& f.input_area is None
                &&& f.output_area is None
            },
            covers_all_tabs(fs@, orig.take(i as int)),
            rest@ == non_tabs(orig.take(i as int)),
        decreases len - i,
    {
        let ghost prev = fs@;
        let node = work.remove(0);
        proof {
            assert(orig.take(i + 1).drop_last() =~= orig.take(i as int));
            assert(orig.take(i + 1).last() == orig[i as int]);
            assert(work@ =~= orig.subrange(i + 1, len as int));
        }
        if is_named(&node._type, "tab") {
            let found = find_flow(&fs, node.id.as_str());
            let FlowNodeResponse { id, label, disabled, configs, .. } = node;
            let flow = Flow {
                nodes: Vec::new(),
                id,
                name: label,
                disabled: match disabled {
                    Some(b) => b,
                    None => false,
                },
                configs: match configs {
                    Some(v) => v,
                    None => Vec::new(),
                },
                input_area: None,
                output_area: None,
            };
            match found {
                Some(k) => {
                    fs.set(k, flow);
                    proof {
                        assert forall|j: int| 0 <= j < i + 1 && is_tab(#[trigger] orig.take(i + 1)[j]) implies exists|k2: int|
                            0 <= k2 < fs@.len() && (#[trigger] fs@[k2]).id@ == orig.take(i + 1)[j].id@ by {
                            if j < i {
                                assert(orig.take(i as int)[j] == orig.take(i + 1)[j]);
                                let k3 = choose|k3: int| 0 <= k3 < prev.len() && (#[trigger] prev[k3]).id@ == orig.take(i as int)[j].id@;
                                assert(fs@[k3].id@ == prev[k3].id@);
                            } else {
                                assert(fs@[k as int].id@ == orig.take(i + 1)[j].id@);
                            }
                        }
                    }
                },
                None => {
                    fs.push(flow);
                    proof {
                        assert forall|j: int| 0 <= j < i + 1 && is_tab(#[trigger] orig.take(i + 1)[j]) implies exists|k2: int|
                            0 <= k2 < fs@.len() && (#[trigger] fs@[k2]).id@ == orig.take(i + 1)[j].id@ by {
                            if j < i {
                                assert(orig.take(i as int)[j] == orig.take(i + 1)[j]);
                                let k3 = choose|k3: int| 0 <= k3 < prev.len() && (#[trigger] prev[k3]).id@ == orig.take(i as int)[j].id@;
                                assert(fs@[k3] == prev[k3]);
                            } else {
                                assert(fs@[prev.len() as int].id@ == orig.take(i + 1)[j].id@);
                            }
                        }
                    }
                },
            }
        } else {
            rest.push(node);
            proof {
                assert forall|j: int| 0 <= j < i + 1 && is_tab(#[trigger] orig.take(i + 1)[j]) implies exists|k2: int|
                    0 <= k2 < fs@.len() && (#[trigger] fs@[k2]).id@ == orig.take(i + 1)[j].id@ by {
                    assert(orig.take(i as int)[j] == orig.take(i + 1)[j]);
                }
            }
        }
        i = i + 1;
    }
    let ghost fs1 = fs@;
    let ghost rest_orig = rest@;
    proof {
        assert(orig.take(len as int) =~= orig);
        lemma_non_tabs_are_not_tabs(orig);
    }
    let rest_len = rest.len();
    let mut m: usize = 0;
    while m < rest_len
        invariant
            m <= rest_len,
            rest_len == rest_orig.len(),
            rest@ == rest_orig.subrange(m as int, rest_len as int),
            forall|q: int| 0 <= q < rest_orig.len() ==> !is_tab(#[trigger] rest_orig[q]),
            rest_orig == non_tabs(orig),
            covers_all_tabs(fs1, orig),
            forall|k: int| 0 <= k < fs1.len() ==> {
                let t = last_tab_index(orig, (#[trigger] fs1[k]).id@);
                &&& 0 <= t < orig.len()
                &&& flow_header_from(fs1[k], orig[t])
            },
            fs@.len() == fs1.len(),
            unique_ids(fs@),
            forall|k: int| 0 <= k < fs@.len() ==> {
                let f = #[trigger] fs@[k];
                &&& f.id == fs1[k].id
                &&& f.name == fs1[k].name
                &&& f.disabled == fs1[k].disabled
                &&& f.configs == fs1[k].configs
                &&& f.nodes@ == nodes_of(rest_orig.take(m as int), f.id@)
                &&& f.input_area == area_from_nodes(f.nodes@, "input_area"@)
                &&& f.output_area == area_from_nodes(f.nodes@, "output_area"@)
            },
        decreases rest_len - m,
    {
        let ghost prev = fs@;
        let node = rest.remove(0);
        proof {
            assert(rest_orig.take(m + 1).drop_last() =~= rest_orig.take(m as int));
            assert(rest_orig.take(m + 1).last() == rest_orig[m as int]);
            assert(rest@ =~= rest_orig.subrange(m + 1, rest_len as int));
        }
        let found = match &node.z {
            Some(z) => find_flow(&fs, z.as_str()),
            None => None,
        };
        match found {
            Some(k) => {
                let is_template = is_named(&node._type, "template") && node.template.is_some();
                let is_input = is_template && match &node.field {
                    Some(f) => is_named(f, "input_area"),
                    None => false,
                };
                let is_output = is_template && match &node.field {
                    Some(f) => is_named(f, "output_area"),
                    None => false,
                };
                let template = copy_opt_string(&node.template);
                let mut flow = fs.remove(k);
                flow.nodes.push(node);
                if is_input {
                    flow.input_area = template;
                } else if is_output {
                    flow.output_area = template;
                }
                fs.insert(k, flow);
                proof {
                    reveal_strlit("input_area");
                    reveal_strlit("output_area");
                    reveal_strlit("template");
                    assert("input_area"@.len() != "output_area"@.len());
                    assert(!(is_input && is_output));
                    let id = prev[k as int].id@;
                    assert(belongs_to(rest_orig[m as int], id));
                    assert(nodes_of(rest_orig.take(m + 1), id) == nodes_of(rest_orig.take(m as int), id).push(rest_orig[m as int]));
                    assert(fs@[k as int].nodes@ == prev[k as int].nodes@.push(rest_orig[m as int]));
                    assert(fs@[k as int].nodes@.drop_last() =~= prev[k as int].nodes@);
                    assert(fs@ =~= prev.update(k as int, fs@[k as int]));
                    let nd = rest_orig[m as int];
                    assert(area_from_nodes(fs@[k as int].nodes@, "input_area"@) == (if is_area_template(nd, "input_area"@) {
                        nd.template
                    } else {
                        area_from_nodes(prev[k as int].nodes@, "input_area"@)
                    }));
                    assert(area_from_nodes(fs@[k as int].nodes@, "output_area"@) == (if is_area_template(nd, "output_area"@) {
                        nd.template
                    } else {
                        area_from_nodes(prev[k as int].nodes@, "output_area"@)
                    }));
                    assert forall|k2: int| 0 <= k2 < fs@.len() implies {
                        let f = #[trigger] fs@[k2];
                        &&& f.id == fs1[k2].id
                        &&& f.name == fs1[k2].name
                        &&& f.disabled == fs1[k2].disabled
                        &&& f.configs == fs1[k2].configs
                        &&& f.nodes@ == nodes_of(rest_orig.take(m + 1), f.id@)
                        &&& f.input_area == area_from_nodes(f.nodes@, "input_area"@)
                        &&& f.output_area == area_from_nodes(f.nodes@, "output_area"@)
                    } by {
                        if k2 == k {
                            assert(is_input == is_area_template(nd, "input_area"@));
                            assert(is_output == is_area_template(nd, "output_area"@));
                            assert(template == nd.template);
                            assert(fs@[k2].id == prev[k2].id);
                            assert(fs@[k2].nodes@ == nodes_of(rest_orig.take(m + 1), fs@[k2].id@));
                            assert(fs@[k2].input_area == area_from_nodes(fs@[k2].nodes@, "input_area"@));
                            assert(fs@[k2].output_area == area_from_nodes(fs@[k2].nodes@, "output_area"@));
                            assert(fs@[k2].id == fs1[k2].id);
                            assert(fs@[k2].name == fs1[k2].name);
                            assert(fs@[k2].configs == fs1[k2].configs);
                        } else {
                            assert(prev[k2].id@ != prev[k as int].id@);
                            assert(!belongs_to(nd, prev[k2].id@));
                            assert(fs@[k2] == prev[k2]);
                        }
                    }
                }
            },
            None => {
                proof {
                    assert forall|k2: int| 0 <= k2 < fs@.len() implies nodes_of(rest_orig.take(m + 1), (#[trigger] fs@[k2]).id@)
                        == nodes_of(rest_orig.take(m as int), fs@[k2].id@) by {
                        assert(!belongs_to(rest_orig[m as int], fs@[k2].id@));
                    }
                }
            },
        }
        m = m + 1;
    }
    proof {
        assert(rest_orig.take(rest_len as int) =~= rest_orig);
        assert forall|k: int| 0 <= k < fs@.len() implies grouped_flow(#[trigger] fs@[k], orig) by {
            lemma_nodes_of_non_tabs(orig, fs@[k].id@);
            assert(fs@[k].id@ == fs1[k].id@);
        }
        assert forall|j: int| 0 <= j < orig.len() && is_tab(#[trigger] orig[j]) implies exists|k: int|
            0 <= k < fs@.len() && (#[trigger] fs@[k]).id@ == orig[j].id@ by {
            let k = choose|k: int| 0 <= k < fs1.len() && (#[trigger] fs1[k]).id@ == orig[j].id@;
            assert(fs@[k].id == fs1[k].id);
        }
    }
    Flows { flows: fs, rev }
}

/// A copy of a list of strings.
pub fn copy_strings(v: &Vec<String>) -> (r: Vec<String>)
    ensures
        r@ == v@,
{
    let mut r: Vec<String> = Vec::new();
    let mut i: usize = 0;
    while i < v.len()
        invariant
            i <= v@.len(),
            r@ == v@.take(i as int),
        decreases v.len() - i,
    {
        r.push(v[i].clone());
        proof {
            assert(r@ =~= v@.take(i + 1));
        }
        i = i + 1;
    }
    proof {
        assert(v@.take(v@.len() as int) =~= v@);
    }
    r
}

fn copy_opt_strings(o: &Option<Vec<String>>) -> (r: Option<Vec<String>>)
    ensures
        r is Some <==> o is Some,
        r is Some ==> r->0@ == o->0@,
{
    match o {
        Some(v) => Some(copy_strings(v)),
        None => None,
    }
}

fn copy_opt_wires(o: &Option<Vec<Vec<String>>>) -> (r: Option<Vec<Vec<String>>>)
    ensures
        r is Some <==> o is Some,
        r is Some ==> r->0@.len() == o->0@.len() && forall|i: int| 0 <= i < r->0@.len() ==> (#[trigger] r->0@[i])@ == o->0@[i]@,
{
    match o {
        Some(v) => {
            let mut r: Vec<Vec<String>> = Vec::new();
            let mut i: usize = 0;
            while i < v.len()
                invariant
                    i <= v@.len(),
                    r@.len() == i,
                    forall|j: int| 0 <= j < i ==> (#[trigger] r@[j])@ == v@[j]@,
                decreases v.len() - i,
            {
                r.push(copy_strings(&v[i]));
                i = i + 1;
            }
            Some(r)
        },
        None => None,
    }
}

fn copy_pairs(v: &Vec<(String, String)>) -> (r: Vec<(String, String)>)
    ensures
        r@ == v@,
{
    let mut r: Vec<(String, String)> = Vec::new();
    let mut i: usize = 0;
    while i < v.len()
        invariant
            i <= v@.len(),
            r@ == v@.take(i as int),
        decreases v.len() - i,
    {
        r.push((v[i].0.clone(), v[i].1.clone()));
        proof {
            assert(r@ =~= v@.take(i + 1));
        }
        i = i + 1;
    }
    proof {
        assert(v@.take(v@.len() as int) =~= v@);
    }
    r
}

fn copy_opt_props(o: &Option<Vec<Vec<(String, String)>>>) -> (r: Option<Vec<Vec<(String, String)>>>)
    ensures
        r is Some <==> o is Some,
        r is Some ==> r->0@.len() == o->0@.len() && forall|i: int| 0 <= i < r->0@.len() ==> (#[trigger] r->0@[i])@ == o->0@[i]@,
{
    match o {
        Some(v) => {
            let mut r: Vec<Vec<(String, String)>> = Vec::new();
            let mut i: usize = 0;
            while i < v.len()
                invariant
                    i <= v@.len(),
                    r@.len() == i,
                    forall|j: int| 0 <= j < i ==> (#[trigger] r@[j])@ == v@[j]@,
                decreases v.len() - i,
            {
                r.push(copy_pairs(&v[i]));
                i = i + 1;
            }
            Some(r)
        },
        None => None,
    }
}

/// Two nodes hold the same values.
pub open spec fn same_node(a: FlowNodeResponse, b: FlowNodeResponse) -> bool {
    &&& a.id == b.id && a._type == b._type && a.label == b.label && a.disabled == b.disabled
    &&& a.info == b.info && a.x == b.x && a.y == b.y && a.z == b.z
    &&& (a.configs is Some <==> b.configs is Some) && (a.configs is Some ==> a.configs->0@ == b.configs->0@)
    &&& (a.env is Some <==> b.env is Some) && (a.env is Some ==> a.env->0@ == b.env->0@)
    &&& (a.libs is Some <==> b.libs is Some) && (a.libs is Some ==> a.libs->0@ == b.libs->0@)
    &&& (a.wires is Some <==> b.wires is Some) && (a.wires is Some ==> a.wires->0@.len() == b.wires->0@.len()
        && forall|i: int| 0 <= i < a.wires->0@.len() ==> (#[trigger] a.wires->0@[i])@ == b.wires->0@[i]@)
    &&& (a.props is Some <==> b.props is Some) && (a.props is Some ==> a.props->0@.len() == b.props->0@.len()
        && forall|i: int| 0 <= i < a.props->0@.len() ==> (#[trigger] a.props->0@[i])@ == b.props->0@[i]@)
    &&& a.repeat == b.repeat && a.crontab == b.crontab && a.once == b.once && a.once_delay == b.once_delay
    &&& a.topic == b.topic && a.payload == b.payload && a.payload_type == b.payload_type && a.name == b.name
    &&& a.func == b.func && a.outputs == b.outputs && a.noerr == b.noerr && a.initialize == b.initialize
    &&& a.finalize == b.finalize && a.method == b.method && a.ret == b.ret && a.paytoqs == b.paytoqs
    &&& a.url == b.url && a.field == b.field && a.field_type == b.field_type && a.template == b.template
    &&& a.iface == b.iface && a.port == b.port && a.outport == b.outport && a.ipv == b.ipv
    &&& a.multicast == b.multicast && a.group == b.group && a.datatype == b.datatype
    &&& a.syntax == b.syntax && a.output == b.output && a.addr == b.addr
}

/// A copy of a node.
pub fn copy_node(n: &FlowNodeResponse) -> (r: FlowNodeResponse)
    ensures
        same_node(r, *n),
{
    FlowNodeResponse {
        id: n.id.clone(),
        _type: n._type.clone(),
        label: copy_opt_string(&n.label),
        disabled: n.disabled,
        info: copy_opt_string(&n.info),
        configs: copy_opt_strings(&n.configs),
        env: copy_opt_strings(&n.env),
        x: n.x,
        y: n.y,
        z: copy_opt_string(&n.z),
        wires: copy_opt_wires(&n.wires),
        props: copy_opt_props(&n.props),
        repeat: copy_opt_string(&n.repeat),
        crontab: copy_opt_string(&n.crontab),
        once: n.once,
        once_delay: n.once_delay,
        topic: copy_opt_string(&n.topic),
        payload: copy_opt_string(&n.payload),
        payload_type: copy_opt_string(&n.payload_type),
        name: copy_opt_string(&n.name),
        func: copy_opt_string(&n.func),
        outputs: n.outputs,
        noerr: n.noerr,
        initialize: copy_opt_string(&n.initialize),
        finalize: copy_opt_string(&n.finalize),
        libs: copy_opt_strings(&n.libs),
        method: copy_opt_string(&n.method),
        ret: copy_opt_string(&n.ret),
        paytoqs: copy_opt_string(&n.paytoqs),
        url: copy_opt_string(&n.url),
        field: copy_opt_string(&n.field),
        field_type: copy_opt_string(&n.field_type),
        template: copy_opt_string(&n.template),
        iface: copy_opt_string(&n.iface),
        port: copy_opt_string(&n.port),
        outport: copy_opt_string(&n.outport),
        ipv: copy_opt_string(&n.ipv),
        multicast: copy_opt_string(&n.multicast),
        group: copy_opt_string(&n.group),
        datatype: copy_opt_string(&n.datatype),
        syntax: copy_opt_string(&n.syntax),
        output: copy_opt_string(&n.output),
        addr: copy_opt_string(&n.addr),
    }
}

/// Two flows hold the same values.
pub open spec fn same_flow(a: Flow, b: Flow) -> bool {
    &&& a.id == b.id && a.name == b.name && a.disabled == b.disabled && a.configs@ == b.configs@
    &&& a.input_area == b.input_area && a.output_area == b.output_area
    &&& a.nodes@.len() == b.nodes@.len()
    &&& forall|i: int| 0 <= i < a.nodes@.len() ==> same_node(#[trigger] a.nodes@[i], b.nodes@[i])
}

/// A copy of a flow.
pub fn copy_flow(f: &Flow) -> (r: Flow)
    ensures
        same_flow(r, *f),
{
    let mut nodes: Vec<FlowNodeResponse> = Vec::new();
    let mut i: usize = 0;
    while i < f.nodes.len()
        invariant
            i <= f.nodes@.len(),
            nodes@.len() == i,
            forall|j: int| 0 <= j < i ==> same_node(#[trigger] nodes@[j], f.nodes@[j]),
        decreases f.nodes.len() - i,
    {
        nodes.push(copy_node(&f.nodes[i]));
        i = i + 1;
    }
    Flow {
        nodes,
        id: f.id.clone(),
        name: copy_opt_string(&f.name),
        disabled: f.disabled,
        configs: copy_strings(&f.configs),
        input_area: copy_opt_string(&f.input_area),
        output_area: copy_opt_string(&f.output_area),
    }
}

/// A copy of the flow with id `id`, if there is one.
pub fn get_flow_by_id(flows: &Flows, id: &str) -> (r: Option<Flow>)
    ensures
        match r {
            Some(f) => exists|k: int| 0 <= k < flows.flows@.len() && (#[trigger] flows.flows@[k]).id@ == id@
                && same_flow(f, flows.flows@[k]),
            None => forall|k: int| 0 <= k < flows.flows@.len() ==> (#[trigger] flows.flows@[k]).id@ != id@,
        },
{
    match find_flow(&flows.flows, id) {
        Some(k) => Some(copy_flow(&flows.flows[k])),
        None => None,
    }
}

/// Whether `f` is named `name`.
pub open spec fn flow_named(f: Flow, name: Seq<char>) -> bool {
    f.name is Some && f.name->0@ == name
}

/// The id of a flow named `name`, if there is one (the first in `flows`).
pub fn get_flow_id_by_name(flows: &Flows, name: &str) -> (r: Option<String>)
    ensures
        match r {
            Some(id) => exists|k: int| 0 <= k < flows.flows@.len() && flow_named(#[trigger] flows.flows@[k], name@)
                && id@ == flows.flows@[k].id@
                && forall|j: int| 0 <= j < k ==> !flow_named(#[trigger] flows.flows@[j], name@),
            None => forall|k: int| 0 <= k < flows.flows@.len() ==> !flow_named(#[trigger] flows.flows@[k], name@),
        },
{
    let fs = &flows.flows;
    let mut k: usize = 0;
    while k < fs.len()
        invariant
            k <= fs@.len(),
            fs@ == flows.flows@,
            forall|j: int| 0 <= j < k ==> !flow_named(#[trigger] fs@[j], name@),
        decreases fs.len() - k,
    {
        let named = match &fs[k].name {
            Some(n) => *n == text::string_of(name),
            None => false,
        };
        if named {
            return Some(fs[k].id.clone());
        }
        k = k + 1;
    }
    None
}

/// The path of a flow in the Node-RED admin API.
pub open spec fn flow_path(id: Seq<char>) -> Seq<char> {
    "/flow/"@ + id
}

/// Sets the status of the flow with id `id` among `flows`, before the flow
/// is sent to Node-RED (`PUT` to the path returned, along with the index of
/// the flow).
pub fn prepare_flow_status_update(flows: &mut Flows, id: &str, is_disabled: bool) -> (r: Result<(usize, String), FlowError>)
    ensures
        final(flows).rev == old(flows).rev,
        match r {
            Ok((k, path)) => {
                &&& k < old(flows).flows@.len()
                &&& old(flows).flows@[k as int].id@ == id@
                &&& forall|j: int| 0 <= j < k ==> (#[trigger] old(flows).flows@[j]).id@ != id@
                &&& final(flows).flows@ == old(flows).flows@.update(k as int, Flow { disabled: is_disabled, ..old(flows).flows@[k as int] })
                &&& path@ == flow_path(id@)
            },
            Err(e) => {
                &&& forall|j: int| 0 <= j < old(flows).flows@.len() ==> (#[trigger] old(flows).flows@[j]).id@ != id@
                &&& final(flows).flows@ == old(flows).flows@
                &&& e.message@ == "Couldn't find flow with id "@ + id@
            },
        },
{
    match find_flow(&flows.flows, id) {
        Some(k) => {
            let mut flow = flows.flows.remove(k);
            flow.disabled = is_disabled;
            flows.flows.insert(k, flow);
            proof {
                assert(flows.flows@ =~= old(flows).flows@.update(k as int, Flow { disabled: is_disabled, ..old(flows).flows@[k as int] }));
            }
            Ok((k, concat("/flow/", id)))
        },
        None => Err(FlowError::new(concat("Couldn't find flow with id ", id))),
    }
}

/// The result of a status update, from whether the request was answered.
pub fn after_flow_status_sent(id: &str, answered: bool) -> (r: Result<(), FlowError>)
    ensures
        answered ==> r is Ok,
        !answered ==> (r matches Err(e) && e.message@ == "Couldn't update status of flow with id "@ + id@),
{
    if answered {
        Ok(())
    } else {
        Err(FlowError::new(concat("Couldn't update status of flow with id ", id)))
    }
}

/// The path at which the flow with id `id` is to be deleted (`DELETE`).
pub fn prepare_flow_deletion(flows: &Flows, id: &str) -> (r: Result<String, FlowError>)
    ensures
        match r {
            Ok(path) => (exists|k: int| 0 <= k < flows.flows@.len() && (#[trigger] flows.flows@[k]).id@ == id@)
                && path@ == flow_path(id@),
            Err(e) => (forall|k: int| 0 <= k < flows.flows@.len() ==> (#[trigger] flows.flows@[k]).id@ != id@)
                && e.message@ == "Couldn't find flow with id "@ + id@,
        },
{
    match find_flow(&flows.flows, id) {
        Some(_) => Ok(concat("/flow/", id)),
        None => Err(FlowError::new(concat("Couldn't find flow with id ", id))),
    }
}

/// The result of a deletion, from the HTTP status of Node-RED's answer
/// (`None` when the request failed): Node-RED answers 204 on success.
pub fn after_flow_deletion(id: &str, status: Option<u16>) -> (r: Result<(), FlowError>)
    ensures
        status == Some(204u16) ==> r is Ok,
        status != Some(204u16) ==> (r matches Err(e) && e.message@ == "Couldn't delete flow with id "@ + id@),
{
    match status {
        Some(204) => Ok(()),
        _ => Err(FlowError::new(concat("Couldn't delete flow with id ", id))),
    }
}

} // verus!
