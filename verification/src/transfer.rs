//! Moving a flow to another area: the rewriting of the flow for its new
//! area, and the steps of the transfer and of its undoing.
use vstd::prelude::*;
use vstd::string::*;
use crate::text;
use crate::config;
use crate::config::Config;
use crate::flows;
use crate::flows::{Flow, FlowNodeResponse, Flows, FlowError};

verus! {

/// What serde_json makes of the JSON text `template` once its key
/// `execution_area` is set to the string `area`: the text of the changed
/// object, or nothing where `template` is not a JSON object (or `null`).
pub uninterp spec fn meta_with_execution_area(template: Seq<char>, area: Seq<char>) -> Option<Seq<char>>;

/// Sets the key `execution_area` of the JSON object `template` to `area`.
///
/// Trusted: parses with `serde_json::from_str`, sets the key through
/// serde_json's `IndexMut` (which turns `null` into an object) and prints
/// with serde_json's `Display`. The contract names the result; what it is
/// on given text is not stated.
#[verifier::external_body]
fn set_execution_area(template: &str, area: &str) -> (r: Option<String>)
    ensures
        match r {
            Some(t) => meta_with_execution_area(template@, area@) == Some(t@),
            None => meta_with_execution_area(template@, area@) is None,
        },
{
    match serde_json::from_str::<serde_json::Value>(template) {
        Ok(mut value @ (serde_json::Value::Object(_) | serde_json::Value::Null)) => {
            value["execution_area"] = serde_json::Value::String(area.to_string());
            Some(value.to_string())
        },
        _ => None,
    }
}

/// Whether `c` is a lowercase hexadecimal digit.
pub open spec fn is_lower_hex(c: char) -> bool {
    ('0' <= c && c <= '9') || ('a' <= c && c <= 'f')
}

/// A random version 4 UUID in its simple form.
///
/// Trusted: `uuid::Uuid::new_v4().simple().to_string()`, which the uuid
/// crate renders as 32 lowercase hexadecimal digits. The value is random:
/// nothing more is stated of it.
#[verifier::external_body]
fn random_uuid_simple() -> (s: String)
    ensures
        s@.len() == 32,
        forall|i: int| 0 <= i < 32 ==> is_lower_hex(#[trigger] s@[i]),
{
    uuid::Uuid::new_v4().simple().to_string()
}

/// A fresh node id: the first 16 hexadecimal digits of a random UUID.
pub fn new_node_id() -> (id: String)
    ensures
        id@.len() == 16,
        forall|i: int| 0 <= i < 16 ==> is_lower_hex(#[trigger] id@[i]),
{
    let uuid = random_uuid_simple();
    let mut id = String::new();
    let mut i: usize = 0;
    while i < 16
        invariant
            i <= 16,
            uuid@.len() == 32,
            forall|j: int| 0 <= j < 32 ==> is_lower_hex(#[trigger] uuid@[j]),
            id@ == uuid@.take(i as int),
        decreases 16 - i,
    {
        let c = uuid.as_str().get_char(i);
        text::push_char(&mut id, c);
        proof {
            assert(id@ =~= uuid@.take(i + 1));
        }
        i = i + 1;
    }
    id
}

/// The lowercase hexadecimal digit of `d` (`d < 16`).
pub open spec fn hex_char(d: nat) -> char {
    if d < 10 {
        ((48 + d) as u8) as char
    } else {
        ((87 + d) as u8) as char
    }
}

/// `16` to the power `k`.
pub open spec fn pow16(k: nat) -> nat
    decreases k,
{
    if k == 0 {
        1
    } else {
        16 * pow16((k - 1) as nat)
    }
}

/// The last `k` hexadecimal digits of `v`, most significant first.
pub open spec fn hex_digits(v: nat, k: nat) -> Seq<char>
    decreases k,
{
    if k == 0 {
        Seq::empty()
    } else {
        hex_digits(v / 16, (k - 1) as nat).push(hex_char(v % 16))
    }
}

proof fn lemma_hex_digits_shape(v: nat, k: nat)
    ensures
        hex_digits(v, k).len() == k,
        forall|c: int| 0 <= c < k ==> is_lower_hex(#[trigger] hex_digits(v, k)[c]),
    decreases k,
{
    if k > 0 {
        lemma_hex_digits_shape(v / 16, (k - 1) as nat);
        let prev = hex_digits(v / 16, (k - 1) as nat);
        assert forall|c: int| 0 <= c < k implies is_lower_hex(#[trigger] hex_digits(v, k)[c]) by {
            if c < k - 1 {
                assert(hex_digits(v, k)[c] == prev[c]);
            }
        }
    }
}

proof fn lemma_hex_digits_injective(v: nat, w: nat, k: nat)
    requires
        v < pow16(k),
        w < pow16(k),
        v != w,
    ensures
        hex_digits(v, k) != hex_digits(w, k),
    decreases k,
{
    if k == 0 {
        assert(false);
    } else {
        let a = hex_digits(v, k);
        let b = hex_digits(w, k);
        if v % 16 != w % 16 {
            assert(a.last() == hex_char(v % 16));
            assert(b.last() == hex_char(w % 16));
            assert(hex_char(v % 16) != hex_char(w % 16));
        } else {
            let p = pow16((k - 1) as nat);
            assert(v / 16 < p && w / 16 < p && v / 16 != w / 16) by (nonlinear_arith)
                requires
                    v < 16 * p,
                    w < 16 * p,
                    v != w,
                    v % 16 == w % 16,
            ;
            lemma_hex_digits_injective(v / 16, w / 16, (k - 1) as nat);
            assert(a.drop_last() =~= hex_digits(v / 16, (k - 1) as nat));
            assert(b.drop_last() =~= hex_digits(w / 16, (k - 1) as nat));
        }
    }
}

proof fn lemma_pow16_16()
    ensures
        pow16(16) == 0x1_0000_0000_0000_0000,
{
    reveal_with_fuel(pow16, 17);
}

fn hex_digit(d: u64) -> (c: char)
    requires
        d < 16,
    ensures
        c == hex_char(d as nat),
{
    if d < 10 {
        (48u8 + d as u8) as char
    } else {
        (87u8 + d as u8) as char
    }
}

fn hex_of(v: u64, k: u8) -> (s: String)
    ensures
        s@ == hex_digits(v as nat, k as nat),
    decreases k,
{
    if k == 0 {
        let s = String::new();
        proof {
            assert(s@ =~= Seq::<char>::empty());
        }
        s
    } else {
        let mut s = hex_of(v / 16, k - 1);
        text::push_char(&mut s, hex_digit(v % 16));
        s
    }
}

/// Whether some id of `ids` is `id`.
fn has_id(ids: &Vec<String>, id: &String) -> (b: bool)
    ensures
        b <==> exists|j: int| 0 <= j < ids@.len() && (#[trigger] ids@[j])@ == id@,
{
    let mut j: usize = 0;
    while j < ids.len()
        invariant
            j <= ids@.len(),
            forall|t: int| 0 <= t < j ==> (#[trigger] ids@[t])@ != id@,
        decreases ids.len() - j,
    {
        if ids[j] == *id {
            return true;
        }
        j = j + 1;
    }
    false
}

/// An id of 16 hexadecimal digits that none of `ids` has: the first of
/// the numbers `0..=ids.len()`, written in hexadecimal, that is not taken
/// (one of them is free, as there are more of them than ids).
fn unused_id(ids: &Vec<String>) -> (id: String)
    requires
        ids@.len() < usize::MAX,
    ensures
        id@.len() == 16,
        forall|c: int| 0 <= c < 16 ==> is_lower_hex(#[trigger] id@[c]),
        forall|j: int| 0 <= j < ids@.len() ==> (#[trigger] ids@[j])@ != id@,
{
    let len = ids.len();
    let ghost views = ids@.map_values(|s: String| s@);
    let mut t: usize = 0;
    while t <= len
        invariant
            t <= len + 1,
            len == ids@.len(),
            len < usize::MAX,
            views == ids@.map_values(|s: String| s@),
            forall|u: int| 0 <= u < t ==> views.contains(#[trigger] hex_digits(u as nat, 16)),
        decreases len + 1 - t,
    {
        let c = hex_of(t as u64, 16);
        if !has_id(ids, &c) {
            proof {
                lemma_hex_digits_shape(t as nat, 16);
            }
            return c;
        }
        proof {
            let q = choose|q: int| 0 <= q < ids@.len() && (#[trigger] ids@[q])@ == c@;
            assert(views[q] == c@);
        }
        t = t + 1;
    }
    proof {
        let cands = Seq::new((len + 1) as nat, |u: int| hex_digits(u as nat, 16));
        lemma_pow16_16();
        assert forall|a: int, b: int| 0 <= a < cands.len() && 0 <= b < cands.len() && a != b
            implies cands[a] != cands[b] by {
            lemma_hex_digits_injective(a as nat, b as nat, 16);
        }
        assert(cands.no_duplicates());
        cands.unique_seq_to_set();
        views.lemma_cardinality_of_set();
        assert forall|x: Seq<char>| cands.to_set().contains(x) implies views.to_set().contains(x) by {
            let u = choose|u: int| 0 <= u < cands.len() && cands[u] == x;
            assert(views.contains(hex_digits(u as nat, 16)));
        }
        vstd::seq_lib::seq_to_set_is_finite(views);
        vstd::set_lib::lemma_len_subset(cands.to_set(), views.to_set());
        assert(false);
    }
    String::new()
}

/// Fresh ids for `n` nodes, no two alike: each is the start of a random
/// UUID, unless that is already taken (which only chance can bring about),
/// in which case it is an unused number instead.
pub fn new_node_ids(n: usize) -> (ids: Vec<String>)
    ensures
        ids@.len() == n,
        forall|i: int| 0 <= i < n ==> (#[trigger] ids@[i])@.len() == 16,
        forall|i: int, c: int| 0 <= i < n && 0 <= c < 16 ==> is_lower_hex(#[trigger] ids@[i]@[c]),
        forall|i: int, j: int| 0 <= i < n && 0 <= j < n && i != j ==> (#[trigger] ids@[i])@ != (#[trigger] ids@[j])@,
{
    let mut ids: Vec<String> = Vec::new();
    let mut i: usize = 0;
    while i < n
        invariant
            i <= n,
            ids@.len() == i,
            forall|j: int| 0 <= j < i ==> (#[trigger] ids@[j])@.len() == 16,
            forall|j: int, c: int| 0 <= j < i && 0 <= c < 16 ==> is_lower_hex(#[trigger] ids@[j]@[c]),
            forall|a: int, b: int| 0 <= a < i && 0 <= b < i && a != b ==> (#[trigger] ids@[a])@ != (#[trigger] ids@[b])@,
        decreases n - i,
    {
        let drawn = new_node_id();
        let id = if has_id(&ids, &drawn) {
            unused_id(&ids)
        } else {
            drawn
        };
        let ghost before = ids@;
        ids.push(id);
        proof {
            assert forall|a: int, b: int| 0 <= a < i + 1 && 0 <= b < i + 1 && a != b
                implies (#[trigger] ids@[a])@ != (#[trigger] ids@[b])@ by {
                if a < i && b < i {
                    assert(ids@[a] == before[a] && ids@[b] == before[b]);
                } else if a < i {
                    assert(ids@[a] == before[a]);
                } else {
                    assert(ids@[b] == before[b]);
                }
            }
        }
        i = i + 1;
    }
    ids
}

/// A template node that holds the flow's metadata (its field is "meta").
pub open spec fn is_meta_template(n: FlowNodeResponse) -> bool {
    n._type@ == "template"@ && n.field is Some && n.field->0@ == "meta"@
}

pub open spec fn is_udp_in(n: FlowNodeResponse) -> bool {
    n._type@ == "udp in"@
}

pub open spec fn is_udp_out(n: FlowNodeResponse) -> bool {
    n._type@ == "udp out"@
}

/// A port moved to the proxy's port range: `base + port % 10000`, where the
/// port must parse as a `u32` and the sum must fit in a `u16`.
pub open spec fn shifted_port(port: Seq<char>, base: u16) -> Option<Seq<char>> {
    match text::parse_unsigned(port, u32::MAX as nat) {
        Some(v) => if base + v % 10000 <= u16::MAX {
            Some(text::decimal((base + v % 10000) as nat))
        } else {
            None
        },
        None => None,
    }
}

/// Whether the rewriting of `n` for `area` and port base `base` goes
/// through: its metadata template (if it is one) is a JSON object, and the
/// ports of its UDP sockets can be moved.
pub open spec fn node_rewritable(n: FlowNodeResponse, area: Seq<char>, base: u16) -> bool {
    &&& is_meta_template(n) ==> n.template is Some && meta_with_execution_area(n.template->0@, area) is Some
    &&& (is_udp_in(n) || is_udp_out(n)) && n.port is Some ==> shifted_port(n.port->0@, base) is Some
    &&& is_udp_out(n) && n.outport is Some ==> shifted_port(n.outport->0@, base) is Some
}

pub open spec fn flow_rewritable(f: Flow, area: Seq<char>, base: u16) -> bool {
    forall|i: int| 0 <= i < f.nodes@.len() ==> node_rewritable(#[trigger] f.nodes@[i], area, base)
}

/// The index of the last node of `nodes` with id `id`, or -1.
pub open spec fn last_index_with_id(nodes: Seq<FlowNodeResponse>, id: Seq<char>) -> int
    decreases nodes.len(),
{
    if nodes.len() == 0 {
        -1
    } else if nodes.last().id@ == id {
        nodes.len() - 1
    } else {
        last_index_with_id(nodes.drop_last(), id)
    }
}

/// The new id of the node that had id `w`; ids of no node of the flow stay.
pub open spec fn renamed_id(nodes: Seq<FlowNodeResponse>, new_ids: Seq<String>, w: Seq<char>) -> Seq<char> {
    let k = last_index_with_id(nodes, w);
    if k >= 0 {
        new_ids[k]@
    } else {
        w
    }
}

/// Nodes `a` and `b` agree in everything that the rewriting leaves alone.
pub open spec fn same_but_rewritten(a: FlowNodeResponse, b: FlowNodeResponse) -> bool {
    &&& a._type == b._type
    &&& a.label == b.label
    &&& a.disabled == b.disabled
    &&& a.info == b.info
    &&& a.configs == b.configs
    &&& a.env == b.env
    &&& a.x == b.x
    &&& a.y == b.y
    &&& a.z == b.z
    &&& a.props == b.props
    &&& a.repeat == b.repeat
    &&& a.crontab == b.crontab
    &&& a.once == b.once
    &&& a.once_delay == b.once_delay
    &&& a.topic == b.topic
    &&& a.payload == b.payload
    &&& a.payload_type == b.payload_type
    &&& a.name == b.name
    &&& a.func == b.func
    &&& a.outputs == b.outputs
    &&& a.noerr == b.noerr
    &&& a.initialize == b.initialize
    &&& a.finalize == b.finalize
    &&& a.libs == b.libs
    &&& a.method == b.method
    &&& a.ret == b.ret
    &&& a.paytoqs == b.paytoqs
    &&& a.url == b.url
    &&& a.field == b.field
    &&& a.field_type == b.field_type
    &&& a.iface == b.iface
    &&& a.ipv == b.ipv
    &&& a.multicast == b.multicast
    &&& a.group == b.group
    &&& a.datatype == b.datatype
    &&& a.syntax == b.syntax
    &&& a.output == b.output
}

/// `new` is `old` (the node at `i` of `nodes`) rewritten for the new area:
/// new id, wires to the new ids, metadata template with the new execution
/// area, UDP sockets moved to the proxy's ports and address.
pub open spec fn rewritten_node(
    old: FlowNodeResponse,
    new: FlowNodeResponse,
    nodes: Seq<FlowNodeResponse>,
    new_ids: Seq<String>,
    i: int,
    area: Seq<char>,
    proxy_ip: Seq<char>,
    base: u16,
) -> bool {
    &&& new.id@ == new_ids[i]@
    &&& same_but_rewritten(new, old)
    &&& if is_meta_template(old) {
        new.template is Some && meta_with_execution_area(old.template->0@, area) == Some(new.template->0@)
    } else {
        new.template == old.template
    }
    &&& (new.wires is Some <==> old.wires is Some)
    &&& old.wires is Some ==> {
        let nw = new.wires->0@;
        let ow = old.wires->0@;
        &&& nw.len() == ow.len()
        &&& forall|j: int| 0 <= j < ow.len() ==> {
            &&& (#[trigger] nw[j])@.len() == ow[j]@.len()
            &&& forall|q: int| 0 <= q < ow[j]@.len() ==> (#[trigger] nw[j]@[q])@ == renamed_id(nodes, new_ids, ow[j]@[q]@)
        }
    }
    &&& if (is_udp_in(old) || is_udp_out(old)) && old.port is Some {
        new.port is Some && shifted_port(old.port->0@, base) == Some(new.port->0@)
    } else {
        new.port == old.port
    }
    &&& if is_udp_out(old) && old.outport is Some {
        new.outport is Some && shifted_port(old.outport->0@, base) == Some(new.outport->0@)
    } else {
        new.outport == old.outport
    }
    &&& if is_udp_out(old) && old.addr is Some {
        new.addr is Some && new.addr->0@ == proxy_ip
    } else {
        new.addr == old.addr
    }
}

/// The name a flow had before its transfer ("" when it had none).
pub open spec fn original_name(f: Flow) -> Seq<char> {
    match f.name {
        Some(n) => n@,
        None => Seq::empty(),
    }
}

/// `new` is flow `old` rewritten for area `area`, whose proxy listens at
/// `proxy_ip` with port base `base`; `new_ids` are the new node ids.
pub open spec fn rewritten_flow(
    old: Flow,
    new: Flow,
    new_ids: Seq<String>,
    area: Seq<char>,
    proxy_ip: Seq<char>,
    base: u16,
) -> bool {
    &&& new.id == old.id
    &&& new.disabled == old.disabled
    &&& new.configs == old.configs
    &&& new.input_area == old.input_area
    &&& new.output_area == old.output_area
    &&& new.name is Some && new.name->0@ == flows::transferred_name(original_name(old))
    &&& new.nodes@.len() == old.nodes@.len()
    &&& forall|i: int| 0 <= i < old.nodes@.len() ==> rewritten_node(
        old.nodes@[i],
        #[trigger] new.nodes@[i],
        old.nodes@,
        new_ids,
        i,
        area,
        proxy_ip,
        base,
    )
}

/// Moves a port to the proxy's port range (see `shifted_port`).
pub fn shift_port(port: &str, base: u16) -> (r: Option<String>)
    ensures
        match r {
            Some(p) => shifted_port(port@, base) == Some(p@),
            None => shifted_port(port@, base) is None,
        },
{
    match text::parse_u32(port) {
        Some(v) => {
            let shifted: u32 = base as u32 + v % 10000;
            if shifted <= 65535 {
                Some(text::u128_to_decimal(shifted as u128))
            } else {
                None
            }
        },
        None => None,
    }
}

proof fn lemma_last_index_with_id(nodes: Seq<FlowNodeResponse>, w: Seq<char>, k: int)
    requires
        -1 <= k < nodes.len(),
        k >= 0 ==> nodes[k].id@ == w,
        forall|j: int| k < j < nodes.len() ==> (#[trigger] nodes[j]).id@ != w,
    ensures
        last_index_with_id(nodes, w) == k,
    decreases nodes.len(),
{
    if nodes.len() > 0 && k < nodes.len() - 1 {
        assert(nodes.last() == nodes[nodes.len() - 1]);
        lemma_last_index_with_id(nodes.drop_last(), w, k);
    }
}

fn lookup_new_id(
    old_ids: &Vec<String>,
    new_ids: &Vec<String>,
    w: &String,
    Ghost(nodes): Ghost<Seq<FlowNodeResponse>>,
) -> (r: String)
    requires
        old_ids@.len() == nodes.len(),
        new_ids@.len() == nodes.len(),
        forall|k: int| 0 <= k < nodes.len() ==> (#[trigger] old_ids@[k])@ == nodes[k].id@,
    ensures
        r@ == renamed_id(nodes, new_ids@, w@),
{
    let mut k: usize = old_ids.len();
    while k > 0
        invariant
            k <= old_ids@.len(),
            old_ids@.len() == nodes.len(),
            new_ids@.len() == nodes.len(),
            forall|k2: int| 0 <= k2 < nodes.len() ==> (#[trigger] old_ids@[k2])@ == nodes[k2].id@,
            forall|j: int| k <= j < nodes.len() ==> (#[trigger] nodes[j]).id@ != w@,
        decreases k,
    {
        if old_ids[k - 1] == *w {
            proof {
                assert(old_ids@[k - 1]@ == nodes[k - 1].id@);
                lemma_last_index_with_id(nodes, w@, k - 1);
            }
            return new_ids[k - 1].clone();
        }
        proof {
            assert(old_ids@[k - 1]@ == nodes[k - 1].id@);
        }
        k = k - 1;
    }
    proof {
        lemma_last_index_with_id(nodes, w@, -1);
    }
    w.clone()
}

fn rewrite_wires(
    wires: &Vec<Vec<String>>,
    old_ids: &Vec<String>,
    new_ids: &Vec<String>,
    Ghost(nodes): Ghost<Seq<FlowNodeResponse>>,
) -> (r: Vec<Vec<String>>)
    requires
        old_ids@.len() == nodes.len(),
        new_ids@.len() == nodes.len(),
        forall|k: int| 0 <= k < nodes.len() ==> (#[trigger] old_ids@[k])@ == nodes[k].id@,
    ensures
        r@.len() == wires@.len(),
        forall|j: int| 0 <= j < wires@.len() ==> {
            &&& (#[trigger] r@[j])@.len() == wires@[j]@.len()
            &&& forall|q: int| 0 <= q < wires@[j]@.len() ==> (#[trigger] r@[j]@[q])@ == renamed_id(nodes, new_ids@, wires@[j]@[q]@)
        },
{
    let mut r: Vec<Vec<String>> = Vec::new();
    let mut j: usize = 0;
    while j < wires.len()
        invariant
            j <= wires@.len(),
            r@.len() == j,
            old_ids@.len() == nodes.len(),
            new_ids@.len() == nodes.len(),
            forall|k: int| 0 <= k < nodes.len() ==> (#[trigger] old_ids@[k])@ == nodes[k].id@,
            forall|j2: int| 0 <= j2 < j ==> {
                &&& (#[trigger] r@[j2])@.len() == wires@[j2]@.len()
                &&& forall|q: int| 0 <= q < wires@[j2]@.len() ==> (#[trigger] r@[j2]@[q])@ == renamed_id(nodes, new_ids@, wires@[j2]@[q]@)
            },
        decreases wires.len() - j,
    {
        let wire = &wires[j];
        let mut mapped: Vec<String> = Vec::new();
        let mut q: usize = 0;
        while q < wire.len()
            invariant
                q <= wire@.len(),
                mapped@.len() == q,
                old_ids@.len() == nodes.len(),
                new_ids@.len() == nodes.len(),
                forall|k: int| 0 <= k < nodes.len() ==> (#[trigger] old_ids@[k])@ == nodes[k].id@,
                forall|q2: int| 0 <= q2 < q ==> (#[trigger] mapped@[q2])@ == renamed_id(nodes, new_ids@, wire@[q2]@),
            decreases wire.len() - q,
        {
            mapped.push(lookup_new_id(old_ids, new_ids, &wire[q], Ghost(nodes)));
            q = q + 1;
        }
        r.push(mapped);
        j = j + 1;
    }
    r
}

fn is_named(s: &String, lit: &str) -> (b: bool)
    ensures
        b == (s@ == lit@),
{
    *s == text::string_of(lit)
}

fn rewrite_node(
    n: FlowNodeResponse,
    new_id: String,
    old_ids: &Vec<String>,
    new_ids: &Vec<String>,
    area: &str,
    proxy_ip: &str,
    base: u16,
    Ghost(nodes): Ghost<Seq<FlowNodeResponse>>,
    Ghost(i): Ghost<int>,
) -> (r: FlowNodeResponse)
    requires
        0 <= i < nodes.len(),
        nodes[i] == n,
        new_ids@[i] == new_id,
        old_ids@.len() == nodes.len(),
        new_ids@.len() == nodes.len(),
        forall|k: int| 0 <= k < nodes.len() ==> (#[trigger] old_ids@[k])@ == nodes[k].id@,
        node_rewritable(n, area@, base),
    ensures
        rewritten_node(n, r, nodes, new_ids@, i, area@, proxy_ip@, base),
{
    let ghost old_n = n;
    let mut n = n;
    n.id = new_id;
    let meta = is_named(&n._type, "template") && match &n.field {
        Some(f) => is_named(f, "meta"),
        None => false,
    };
    if meta {
        let template = n.template.take().unwrap();
        n.template = Some(set_execution_area(template.as_str(), area).unwrap());
    }
    let wires = n.wires.take();
    n.wires = match wires {
        Some(w) => Some(rewrite_wires(&w, old_ids, new_ids, Ghost(nodes))),
        None => None,
    };
    let udp_in = is_named(&n._type, "udp in");
    let udp_out = is_named(&n._type, "udp out");
    if udp_in || udp_out {
        let port = n.port.take();
        n.port = match port {
            Some(p) => Some(shift_port(p.as_str(), base).unwrap()),
            None => None,
        };
    }
    if udp_out {
        let outport = n.outport.take();
        n.outport = match outport {
            Some(p) => Some(shift_port(p.as_str(), base).unwrap()),
            None => None,
        };
        let addr = n.addr.take();
        n.addr = match addr {
            Some(_) => Some(text::string_of(proxy_ip)),
            None => None,
        };
    }
    n
}

/// Rewrites `flow` for its transfer to `area`, whose proxy listens at
/// `proxy_ip` with port base `proxy_port_base`: the flow is renamed, its
/// metadata templates get the new execution area, its nodes get the ids
/// `new_ids` (and wires follow), and its UDP sockets move to the proxy.
pub fn rewrite_flow_for_area(
    flow: &mut Flow,
    new_ids: &Vec<String>,
    area: &str,
    proxy_ip: &str,
    proxy_port_base: u16,
)
    requires
        flow_rewritable(*old(flow), area@, proxy_port_base),
        new_ids@.len() == old(flow).nodes@.len(),
    ensures
        rewritten_flow(*old(flow), *final(flow), new_ids@, area@, proxy_ip@, proxy_port_base),
{
    let ghost old_flow = *flow;
    let original = match &flow.name {
        Some(n) => n.clone(),
        None => String::new(),
    };
    flow.name = flows::to_transferred_flow_name(original.as_str(), area);
    let mut nodes: Vec<FlowNodeResponse> = Vec::new();
    std::mem::swap(&mut nodes, &mut flow.nodes);
    let ghost all = nodes@;
    let mut old_ids: Vec<String> = Vec::new();
    let mut k: usize = 0;
    while k < nodes.len()
        invariant
            k <= nodes@.len(),
            nodes@ == all,
            old_ids@.len() == k,
            forall|k2: int| 0 <= k2 < k ==> (#[trigger] old_ids@[k2])@ == all[k2].id@,
        decreases nodes.len() - k,
    {
        old_ids.push(nodes[k].id.clone());
        k = k + 1;
    }
    let len = nodes.len();
    let mut done: Vec<FlowNodeResponse> = Vec::new();
    let mut i: usize = 0;
    while i < len
        invariant
            i <= len,
            len == all.len(),
            nodes@ == all.subrange(i as int, len as int),
            done@.len() == i,
            old_ids@.len() == all.len(),
            new_ids@.len() == all.len(),
            forall|k2: int| 0 <= k2 < all.len() ==> (#[trigger] old_ids@[k2])@ == all[k2].id@,
            forall|k2: int| 0 <= k2 < all.len() ==> node_rewritable(#[trigger] all[k2], area@, proxy_port_base),
            forall|k2: int| 0 <= k2 < i ==> rewritten_node(
                all[k2],
                #[trigger] done@[k2],
                all,
                new_ids@,
                k2,
                area@,
                proxy_ip@,
                proxy_port_base,
            ),
        decreases len - i,
    {
        let n = nodes.remove(0);
        proof {
            assert(nodes@ =~= all.subrange(i + 1, len as int));
        }
        let r = rewrite_node(n, new_ids[i].clone(), &old_ids, new_ids, area, proxy_ip, proxy_port_base, Ghost(all), Ghost(i as int));
        done.push(r);
        i = i + 1;
    }
    flow.nodes = done;
}

/// Whether `flow` can be rewritten for `area` and port base
/// `proxy_port_base` (see `flow_rewritable`).
pub fn can_rewrite_flow(flow: &Flow, area: &str, proxy_port_base: u16) -> (b: bool)
    ensures
        b == flow_rewritable(*flow, area@, proxy_port_base),
{
    let mut i: usize = 0;
    while i < flow.nodes.len()
        invariant
            i <= flow.nodes@.len(),
            forall|k: int| 0 <= k < i ==> node_rewritable(#[trigger] flow.nodes@[k], area@, proxy_port_base),
        decreases flow.nodes.len() - i,
    {
        let n = &flow.nodes[i];
        let meta = is_named(&n._type, "template") && match &n.field {
            Some(f) => is_named(f, "meta"),
            None => false,
        };
        if meta {
            match &n.template {
                Some(t) => {
                    if set_execution_area(t.as_str(), area).is_none() {
                        return false;
                    }
                },
                None => {
                    return false;
                },
            }
        }
        let udp_in = is_named(&n._type, "udp in");
        let udp_out = is_named(&n._type, "udp out");
        if udp_in || udp_out {
            if let Some(p) = &n.port {
                if shift_port(p.as_str(), proxy_port_base).is_none() {
                    return false;
                }
            }
        }
        if udp_out {
            if let Some(p) = &n.outport {
                if shift_port(p.as_str(), proxy_port_base).is_none() {
                    return false;
                }
            }
        }
        i = i + 1;
    }
    true
}

/// The request that tells an input node where to send its messages from
/// now on: to `target`, at ports from `target_port_base` on.
#[derive(Debug)]
pub struct UpdateTarget {
    pub target: String,
    pub target_port_base: u16,
}

/// A transfer of a flow whose rewritten copy is ready to be created in the
/// new area.
#[derive(Debug)]
pub struct FlowTransfer {
    pub flow_id: String,
    pub new_area: String,
    pub proxy_ip: String,
    pub proxy_port_base: u16,
    pub original_flow_name: String,
    pub new_flow_name: Option<String>,
    /// where the rewritten flow stands among the flows
    pub flow_index: usize,
    /// where the rewritten flow is to be created (`POST`)
    pub post_url: String,
}

/// How a transfer begins.
#[derive(Debug)]
pub enum TransferStart {
    /// The transfer is refused.
    Failed(FlowError),
    /// The flow's metadata template is no JSON object, or one of its UDP
    /// ports cannot be moved: the transfer cannot go on.
    CannotRewrite,
    /// The flow has been rewritten; it is to be created in the new area.
    Rewritten(FlowTransfer),
}

/// What a transfer does once the new area has answered the creation of the
/// flow.
#[derive(Debug)]
pub enum AfterFlowCreated {
    /// The transfer ends with this error.
    Failed(FlowError),
    /// No input node needs to be told: the flow in the old area is to be
    /// disabled (then see `after_old_flow_disabled`).
    DisableOldFlow,
    /// Send `message` to the input node at `address`:`port` and wait for
    /// its acknowledgement.
    NotifyInputNode { address: (u8, u8, u8, u8), port: u16, message: UpdateTarget },
    /// The input node's address is no dotted IPv4 address: the transfer
    /// cannot go on.
    BadInputNodeAddress,
}

/// Whether a flow with id `id` is among `fs`.
pub open spec fn has_flow(fs: Seq<Flow>, id: Seq<char>) -> bool {
    exists|k: int| 0 <= k < fs.len() && (#[trigger] fs[k]).id@ == id
}

fn concat3(a: &str, b: &str, c: &str) -> (r: String)
    ensures
        r@ == a@ + b@ + c@,
{
    let mut r = text::string_of(a);
    r.append(b);
    r.append(c);
    r
}

/// Begins the transfer of the flow with id `flow_id` to area `new_area`:
/// refuses it when there is no such flow, no such area or the flow is
/// disabled; otherwise rewrites the flow in `flows` for the new area.
pub fn start_flow_transfer(flows: &mut Flows, config: &Config, flow_id: &str, new_area: &str) -> (r: TransferStart)
    requires
        flows::unique_ids(old(flows).flows@),
    ensures
        final(flows).rev == old(flows).rev,
        flows::unique_ids(final(flows).flows@),
        !has_flow(old(flows).flows@, flow_id@) ==> (r matches TransferStart::Failed(e)
            && e.message@ == "Couldn't find flow with id "@ + flow_id@),
        !(r is Rewritten) ==> final(flows).flows@ == old(flows).flows@,
        forall|k: int| 0 <= k < old(flows).flows@.len() && (#[trigger] old(flows).flows@[k]).id@ == flow_id@ ==> {
            let f = old(flows).flows@[k];
            &&& !config::has_area_named(config.areas, new_area@) ==> (r matches TransferStart::Failed(e)
                && e.message@ == "Couldn't find proxy IP for area "@ + new_area@)
            &&& config::has_area_named(config.areas, new_area@) && f.disabled ==> (r matches TransferStart::Failed(e)
                && e.message@ == "Flow with id "@ + flow_id@ + " is disabled. Please enable it first."@)
            &&& config::has_area_named(config.areas, new_area@) && !f.disabled ==> exists|a: int|
                config::is_first_area_named(config.areas->0@, a, new_area@) && {
                let area = #[trigger] config.areas->0@[a];
                if !flow_rewritable(f, new_area@, area.proxy_port_base) {
                    r is CannotRewrite
                } else {
                    r matches TransferStart::Rewritten(t) && {
                        &&& t.flow_id@ == flow_id@
                        &&& t.new_area@ == new_area@
                        &&& t.proxy_ip@ == area.proxy_ip@
                        &&& t.proxy_port_base == area.proxy_port_base
                        &&& t.original_flow_name@ == original_name(f)
                        &&& t.new_flow_name == final(flows).flows@[k].name
                        &&& t.flow_index == k
                        &&& t.post_url@ == config::url_for_path(flows::area_node_red_url(area), "/flow"@)
                        &&& final(flows).flows@.len() == old(flows).flows@.len()
                        &&& forall|j: int| 0 <= j < old(flows).flows@.len() && j != k ==>
                            final(flows).flows@[j] == #[trigger] old(flows).flows@[j]
                        &&& exists|ids: Seq<String>| ids.len() == f.nodes@.len()
                            && (forall|i: int| 0 <= i < ids.len() ==> (#[trigger] ids[i])@.len() == 16)
                            && (forall|i: int, c: int| 0 <= i < ids.len() && 0 <= c < 16 ==> is_lower_hex(#[trigger] ids[i]@[c]))
                            && (forall|i: int, j: int| 0 <= i < ids.len() && 0 <= j < ids.len() && i != j
                                ==> (#[trigger] ids[i])@ != (#[trigger] ids[j])@)
                            && rewritten_flow(
                            f,
                            final(flows).flows@[k],
                            ids,
                            new_area@,
                            area.proxy_ip@,
                            area.proxy_port_base,
                        )
                        &&& forall|i: int, j: int| 0 <= i < final(flows).flows@[k].nodes@.len()
                            && 0 <= j < final(flows).flows@[k].nodes@.len() && i != j
                            ==> (#[trigger] final(flows).flows@[k].nodes@[i]).id@
                                != (#[trigger] final(flows).flows@[k].nodes@[j]).id@
                    }
                }
            }
        },
{
    let k = match flows::find_flow(&flows.flows, flow_id) {
        Some(k) => k,
        None => {
            return TransferStart::Failed(FlowError::new(flows::concat("Couldn't find flow with id ", flow_id)));
        },
    };
    let a = match config::find_area(&config.areas, new_area) {
        Some(a) => a,
        None => {
            return TransferStart::Failed(FlowError::new(flows::concat("Couldn't find proxy IP for area ", new_area)));
        },
    };
    let ghost before = flows.flows@;
    proof {
        assert forall|k2: int| 0 <= k2 < before.len() && (#[trigger] before[k2]).id@ == flow_id@ implies k2 == k by {
            if k2 != k {
                assert(before[k2].id@ != before[k as int].id@);
            }
        }
    }
    let areas = config.areas.as_ref().unwrap();
    let proxy_ip = areas[a].proxy_ip.clone();
    let proxy_port_base = areas[a].proxy_port_base;
    if flows.flows[k].disabled {
        return TransferStart::Failed(FlowError::new(concat3("Flow with id ", flow_id, " is disabled. Please enable it first.")));
    }
    if !can_rewrite_flow(&flows.flows[k], new_area, proxy_port_base) {
        return TransferStart::CannotRewrite;
    }
    let original_flow_name = match &flows.flows[k].name {
        Some(n) => n.clone(),
        None => String::new(),
    };
    let new_ids = new_node_ids(flows.flows[k].nodes.len());
    let mut flow = flows.flows.remove(k);
    rewrite_flow_for_area(&mut flow, &new_ids, new_area, proxy_ip.as_str(), proxy_port_base);
    let new_flow_name = flows::copy_opt_string(&flow.name);
    proof {
        crate::laws::law_rewritten_node_ids_distinct(
            before[k as int], flow, new_ids@, new_area@, proxy_ip@, proxy_port_base,
        );
    }
    flows.flows.insert(k, flow);
    proof {
        assert(flows.flows@ =~= before.update(k as int, flows.flows@[k as int]));
        assert forall|i: int, j: int|
            0 <= i < flows.flows@.len() && 0 <= j < flows.flows@.len() && i != j implies
            (#[trigger] flows.flows@[i]).id@ != (#[trigger] flows.flows@[j]).id@ by {
            assert(before[i].id@ != before[j].id@);
        }
    }
    let base_url = match flows::lookup_node_red_base_url_by_area_name(config, new_area) {
        Ok(url) => url,
        Err(_) => {
            proof {
                assert(config.areas->0@[a as int].name@ == new_area@);
            }
            String::new()
        },
    };
    proof {
        let ka = choose|ka: int| config::is_first_area_named(config.areas->0@, ka, new_area@)
            && base_url@ == flows::area_node_red_url(#[trigger] config.areas->0@[ka]);
        if ka < a {
            assert(config.areas->0@[ka].name@ != new_area@);
        }
        if a < ka {
            assert(config.areas->0@[a as int].name@ != new_area@);
        }
        assert(ka == a);
    }
    let post_url = config::path_to_url_with_base_url("/flow", base_url.as_str());
    TransferStart::Rewritten(FlowTransfer {
        flow_id: text::string_of(flow_id),
        new_area: text::string_of(new_area),
        proxy_ip,
        proxy_port_base,
        original_flow_name,
        new_flow_name,
        flow_index: k,
        post_url,
    })
}

/// The first input node of `config` that feeds flow `flow`, if any.
pub open spec fn input_node_index(config: Config, flow: Seq<char>) -> Option<int> {
    if config.input_nodes is Some && exists|k: int| config::is_first_node_of_flow(config.input_nodes->0@, k, flow) {
        Some(choose|k: int| config::is_first_node_of_flow(config.input_nodes->0@, k, flow))
    } else {
        None
    }
}

proof fn lemma_first_node_unique(nodes: Seq<config::Node>, k: int, j: int, flow: Seq<char>)
    requires
        config::is_first_node_of_flow(nodes, k, flow),
        config::is_first_node_of_flow(nodes, j, flow),
    ensures
        k == j,
{
    if k < j {
        assert(nodes[k].flow@ != flow);
    }
    if j < k {
        assert(nodes[j].flow@ != flow);
    }
}

/// Continues a transfer once the new area has answered the creation of the
/// flow: `status` is the HTTP status of the answer, `None` when the request
/// failed. On success, the input node of the flow (if the configuration
/// lists input nodes) is to be told to send to the new area's proxy, and
/// the flow in the old area is to be disabled.
pub fn after_flow_created(t: &FlowTransfer, config: &Config, status: Option<u16>) -> (r: AfterFlowCreated)
    ensures
        status is None ==> (r matches AfterFlowCreated::Failed(e)
            && e.message@ == "Couldn't update status of flow with id "@ + t.flow_id@),
        status matches Some(code) && code != 200 ==> (r matches AfterFlowCreated::Failed(e)
            && e.message@ == "Couldn't create flow in new area"@),
        status == Some(200u16) && config.input_nodes is None ==> r is DisableOldFlow,
        status == Some(200u16) && config.input_nodes is Some ==> match input_node_index(*config, t.original_flow_name@) {
            None => r matches AfterFlowCreated::Failed(e)
                && e.message@ == "Couldn't find input node for flow "@ + t.original_flow_name@,
            Some(k) => {
                let node = config.input_nodes->0@[k];
                match text::dotted_quad(node.ip@) {
                    None => r is BadInputNodeAddress,
                    Some(address) => r matches AfterFlowCreated::NotifyInputNode { address: a, port, message }
                        && a == address && port == node.port
                        && message.target@ == t.proxy_ip@
                        && message.target_port_base == t.proxy_port_base,
                }
            },
        },
{
    match status {
        None => AfterFlowCreated::Failed(FlowError::new(flows::concat("Couldn't update status of flow with id ", t.flow_id.as_str()))),
        Some(code) => {
            if code != 200 {
                return AfterFlowCreated::Failed(FlowError::new(text::string_of("Couldn't create flow in new area")));
            }
            match &config.input_nodes {
                None => AfterFlowCreated::DisableOldFlow,
                Some(nodes) => match config::find_node_of_flow(nodes, t.original_flow_name.as_str()) {
                    None => AfterFlowCreated::Failed(FlowError::new(flows::concat("Couldn't find input node for flow ", t.original_flow_name.as_str()))),
                    Some(k) => {
                        proof {
                            let j = input_node_index(*config, t.original_flow_name@)->0;
                            lemma_first_node_unique(nodes@, k as int, j, t.original_flow_name@);
                        }
                        match text::parse_dotted_quad(nodes[k].ip.as_str()) {
                            None => AfterFlowCreated::BadInputNodeAddress,
                            Some(address) => AfterFlowCreated::NotifyInputNode {
                                address,
                                port: nodes[k].port,
                                message: UpdateTarget {
                                    target: t.proxy_ip.clone(),
                                    target_port_base: t.proxy_port_base,
                                },
                            },
                        }
                    },
                },
            }
        },
    }
}

/// Continues a transfer once the input node has (`acked`) or has not
/// acknowledged its new target in time: on acknowledgement the flow in the
/// old area is to be disabled (then see `after_old_flow_disabled`).
pub fn after_input_node_answer(acked: bool) -> (r: Result<(), FlowError>)
    ensures
        acked ==> r is Ok,
        !acked ==> (r matches Err(e)
            && e.message@ == "ACK from input node timed out. Flow still running in old area."@),
{
    if acked {
        Ok(())
    } else {
        Err(FlowError::new(text::string_of("ACK from input node timed out. Flow still running in old area.")))
    }
}

/// Ends a transfer once the flow in the old area has been disabled (or that
/// failed): its result is the flow's new name.
pub fn after_old_flow_disabled(t: &FlowTransfer, disabled: Result<(), FlowError>) -> (r: Result<Option<String>, FlowError>)
    ensures
        match disabled {
            Ok(()) => r == Ok::<Option<String>, FlowError>(t.new_flow_name),
            Err(e) => r == Err::<Option<String>, FlowError>(e),
        },
{
    match disabled {
        Ok(()) => Ok(flows::copy_opt_string(&t.new_flow_name)),
        Err(e) => Err(e),
    }
}

/// The undoing of a transfer: the flow goes back to this proxy's area and
/// its transferred copy is deleted in `area`.
#[derive(Debug)]
pub struct FlowUntransfer {
    pub flow_id: String,
    pub area: String,
    pub original_flow_name: String,
    pub transferred_flow_name: String,
    /// the webserver of the proxy of `area`
    pub proxy_base_url: String,
    /// where the flow stands among the flows
    pub flow_index: usize,
}

/// Where the transferred copy is deleted: its path at the proxy of the
/// area.
pub open spec fn copy_url(u: FlowUntransfer) -> Seq<char> {
    config::url_for_path(u.proxy_base_url@, "/flow/"@ + u.transferred_flow_name@)
}

fn copy_url_of(u: &FlowUntransfer) -> (url: String)
    ensures
        url@ == copy_url(*u),
{
    let path = flows::concat("/flow/", u.transferred_flow_name.as_str());
    config::path_to_url_with_base_url(path.as_str(), u.proxy_base_url.as_str())
}

/// What the undoing of a transfer does once the flow has been enabled
/// again (or that failed).
#[derive(Debug)]
pub enum AfterFlowEnabled {
    Failed(FlowError),
    /// No input node needs to be told: the transferred copy is to be
    /// deleted at this URL (then see `after_transferred_flow_deleted`).
    DeleteCopy(String),
    /// Tell the input node at `address`:`port` to send to this proxy, at
    /// ports from `target_port_base` on, and wait for its acknowledgement.
    NotifyInputNode { address: (u8, u8, u8, u8), port: u16, target_port_base: u16 },
    /// The input node's address is no dotted IPv4 address: the undoing
    /// cannot go on.
    BadInputNodeAddress,
}

/// Begins undoing the transfer of the flow with id `flow_id` to `area`;
/// the flow is then to be enabled again.
pub fn start_flow_untransfer(flows: &Flows, config: &Config, flow_id: &str, area: &str) -> (r: Result<FlowUntransfer, FlowError>)
    ensures
        !has_flow(flows.flows@, flow_id@) ==> (r matches Err(e)
            && e.message@ == "Couldn't find flow with id "@ + flow_id@),
        has_flow(flows.flows@, flow_id@) && !config::has_area_named(config.areas, area@) ==> (r matches Err(e)
            && e.message@ == "Couldn't find proxy IP for area "@ + area@),
        has_flow(flows.flows@, flow_id@) && config::has_area_named(config.areas, area@) ==> (r matches Ok(u) && {
            let f = flows.flows@[u.flow_index as int];
            &&& u.flow_index < flows.flows@.len()
            &&& f.id@ == flow_id@
            &&& forall|j: int| 0 <= j < u.flow_index ==> (#[trigger] flows.flows@[j]).id@ != flow_id@
            &&& u.flow_id@ == flow_id@
            &&& u.area@ == area@
            &&& u.original_flow_name@ == original_name(f)
            &&& u.transferred_flow_name@ == flows::transferred_name(original_name(f))
            &&& exists|a: int| config::is_first_area_named(config.areas->0@, a, area@)
                && u.proxy_base_url@ == config::http_url(
                    (#[trigger] config.areas->0@[a]).proxy_ip@,
                    text::decimal(config.areas->0@[a].proxy_webserver_port as nat),
                )
        }),
{
    let k = match flows::find_flow(&flows.flows, flow_id) {
        Some(k) => k,
        None => {
            return Err(FlowError::new(flows::concat("Couldn't find flow with id ", flow_id)));
        },
    };
    let a = match config::find_area(&config.areas, area) {
        Some(a) => a,
        None => {
            return Err(FlowError::new(flows::concat("Couldn't find proxy IP for area ", area)));
        },
    };
    let areas = config.areas.as_ref().unwrap();
    let original_flow_name = match &flows.flows[k].name {
        Some(n) => n.clone(),
        None => String::new(),
    };
    let transferred_flow_name = flows::concat(original_flow_name.as_str(), " (transferred)");
    let port = text::u128_to_decimal(areas[a].proxy_webserver_port as u128);
    let proxy_base_url = config::http_url_of(areas[a].proxy_ip.as_str(), port.as_str());
    proof {
        assert(config::is_first_area_named(config.areas->0@, a as int, area@));
        assert(proxy_base_url@ == config::http_url(
            config.areas->0@[a as int].proxy_ip@,
            text::decimal(config.areas->0@[a as int].proxy_webserver_port as nat),
        ));
    }
    Ok(FlowUntransfer {
        flow_id: text::string_of(flow_id),
        area: text::string_of(area),
        original_flow_name,
        transferred_flow_name,
        proxy_base_url,
        flow_index: k,
    })
}

/// Continues the undoing of a transfer once the flow has been enabled
/// again (`enabled`): the input node of the flow (if the configuration
/// lists input nodes) is then to be told to send to this proxy, and the
/// transferred copy is to be deleted.
pub fn after_flow_enabled(u: &FlowUntransfer, config: &Config, enabled: Result<(), FlowError>) -> (r: AfterFlowEnabled)
    ensures
        enabled is Err ==> (r matches AfterFlowEnabled::Failed(e)
            && e.message@ == "Couldn't update status of flow with id "@ + u.flow_id@),
        enabled is Ok && config.input_nodes is None ==> (r matches AfterFlowEnabled::DeleteCopy(url)
            && url@ == copy_url(*u)),
        enabled is Ok && config.input_nodes is Some ==> match input_node_index(*config, u.original_flow_name@) {
            None => r matches AfterFlowEnabled::Failed(e)
                && e.message@ == "Couldn't find input node for flow "@ + u.original_flow_name@,
            Some(k) => {
                let node = config.input_nodes->0@[k];
                match text::dotted_quad(node.ip@) {
                    None => r is BadInputNodeAddress,
                    Some(address) => r == AfterFlowEnabled::NotifyInputNode {
                        address,
                        port: node.port,
                        target_port_base: config.port_base,
                    },
                }
            },
        },
{
    match enabled {
        Err(_) => AfterFlowEnabled::Failed(FlowError::new(flows::concat("Couldn't update status of flow with id ", u.flow_id.as_str()))),
        Ok(()) => match &config.input_nodes {
            None => AfterFlowEnabled::DeleteCopy(copy_url_of(u)),
            Some(nodes) => match config::find_node_of_flow(nodes, u.original_flow_name.as_str()) {
                None => AfterFlowEnabled::Failed(FlowError::new(flows::concat("Couldn't find input node for flow ", u.original_flow_name.as_str()))),
                Some(k) => {
                    proof {
                        let j = input_node_index(*config, u.original_flow_name@)->0;
                        lemma_first_node_unique(nodes@, k as int, j, u.original_flow_name@);
                    }
                    match text::parse_dotted_quad(nodes[k].ip.as_str()) {
                        None => AfterFlowEnabled::BadInputNodeAddress,
                        Some(address) => AfterFlowEnabled::NotifyInputNode {
                            address,
                            port: nodes[k].port,
                            target_port_base: config.port_base,
                        },
                    }
                },
            },
        },
    }
}

/// Continues the undoing of a transfer once the input node has (`acked`)
/// or has not acknowledged in time: on acknowledgement the transferred copy
/// is to be deleted at the URL returned.
pub fn after_untransfer_ack(u: &FlowUntransfer, acked: bool) -> (r: Result<String, FlowError>)
    ensures
        acked ==> (r matches Ok(url) && url@ == copy_url(*u)),
        !acked ==> (r matches Err(e)
            && e.message@ == "ACK from input node timed out. Flow still running in old area."@),
{
    if acked {
        Ok(copy_url_of(u))
    } else {
        Err(FlowError::new(text::string_of("ACK from input node timed out. Flow still running in old area.")))
    }
}

/// Ends the undoing of a transfer once the proxy of the area has answered
/// the deletion of the transferred copy (`status`, `None` when the request
/// failed): its result is the flow's original name.
pub fn after_transferred_flow_deleted(u: &FlowUntransfer, status: Option<u16>) -> (r: Result<Option<String>, FlowError>)
    ensures
        status == Some(200u16) ==> r == Ok::<Option<String>, FlowError>(Some(u.original_flow_name)),
        status != Some(200u16) ==> (r matches Err(e)
            && e.message@ == "Couldn't delete flow from area '"@ + u.area@ + "'"@),
{
    match status {
        Some(200) => Ok(Some(u.original_flow_name.clone())),
        _ => Err(FlowError::new(concat3("Couldn't delete flow from area '", u.area.as_str(), "'"))),
    }
}

} // verus!

