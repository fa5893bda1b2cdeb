//! Routing of the UDP messages that pass through the proxy: from input
//! nodes or other proxies to Node-RED, and from Node-RED to their target;
//! and the events that the proxy logs for them.
use vstd::prelude::*;
use vstd::string::*;
use crate::text;
use crate::db;
use crate::db::{Address, Event, EventHandler, EventIdentifier, Timestamp};

verus! {

/// Why a UDP receiver of the proxy stopped.
#[derive(Debug)]
pub struct ProxyError {
    pub kind: String,
    pub message: String,
}

/// The OS error code of a socket that timed out (`WSAETIMEDOUT`).
pub const TIMED_OUT_OS_ERROR: i32 = 10060;

impl ProxyError {
    /// The error for an I/O error with OS error code `raw_os_error` and
    /// text `message`: a timeout, or an I/O error that keeps its text.
    pub fn from_io_error(raw_os_error: i32, message: String) -> (e: ProxyError)
        ensures
            raw_os_error == TIMED_OUT_OS_ERROR ==> e.kind@ == "timeout"@
                && e.message@ == "Socket timed out while waiting for a response"@,
            raw_os_error != TIMED_OUT_OS_ERROR ==> e.kind@ == "io"@ && e.message == message,
    {
        if raw_os_error == TIMED_OUT_OS_ERROR {
            ProxyError {
                kind: text::string_of("timeout"),
                message: text::string_of("Socket timed out while waiting for a response"),
            }
        } else {
            ProxyError { kind: text::string_of("io"), message }
        }
    }

    /// The error for a message that could not be handed to the database
    /// worker.
    pub fn message_passing(message: String) -> (e: ProxyError)
        ensures
            e.kind@ == "MessagePassing"@ && e.message == message,
    {
        ProxyError { kind: text::string_of("MessagePassing"), message }
    }

    /// The text of the error, as its `Display` shows it.
    pub fn to_string(&self) -> (s: String)
        ensures
            s@ == "Node-RED proxy error ["@ + self.kind@ + "]: "@ + self.message@,
    {
        let mut s = text::string_of("Node-RED proxy error [");
        s.append(self.kind.as_str());
        s.append("]: ");
        s.append(self.message.as_str());
        s
    }
}

/// The `meta` object of a message: the automation it belongs to.
#[derive(Debug)]
pub struct MessageMeta {
    pub flow_name: String,
    pub execution_area: String,
}

/// What the proxy reads of a message that Node-RED sends out.
#[derive(Debug)]
pub struct NodeRedMessage {
    pub meta: MessageMeta,
    pub target_ip: String,
}

/// The identifier of the events of a message.
pub fn identifier_of(meta: &MessageMeta) -> (id: EventIdentifier)
    ensures
        id.flow_name == meta.flow_name,
        id.execution_area == meta.execution_area,
{
    EventIdentifier { flow_name: meta.flow_name.clone(), execution_area: meta.execution_area.clone() }
}

/// The port a message goes to: the port base of the destination plus the
/// position of the receiving port in its range of a thousand; nothing
/// where the sum does not fit in a `u16`.
pub open spec fn paired_port(reception_port: u16, destination_port_base: u16) -> Option<u16> {
    if destination_port_base + reception_port % 1000 <= u16::MAX {
        Some((destination_port_base + reception_port % 1000) as u16)
    } else {
        None
    }
}

/// Computes `paired_port`.
pub fn destination_port(reception_port: u16, destination_port_base: u16) -> (r: Option<u16>)
    ensures
        r == paired_port(reception_port, destination_port_base),
{
    let p: u32 = destination_port_base as u32 + (reception_port % 1000) as u32;
    if p <= 65535 {
        Some(p as u16)
    } else {
        None
    }
}

/// The address of Node-RED on this machine at `port`.
pub open spec fn local_node_red(port: u16) -> Address {
    Address { ip: (127, 0, 0, 1), port }
}

/// The event of a message forwarded to Node-RED at port `port`.
pub fn forwarded_to_node_red(port: u16, sent: Timestamp, meta: &MessageMeta) -> (e: Event)
    ensures
        e.source is None,
        e.destination == Some(local_node_red(port)),
        e.timestamp == sent,
        e.identifier.flow_name == meta.flow_name,
        e.identifier.execution_area == meta.execution_area,
        e.handler == EventHandler::NodeRedForwarder,
{
    Event {
        source: None,
        destination: Some(Address { ip: (127, 0, 0, 1), port }),
        timestamp: sent,
        identifier: identifier_of(meta),
        handler: EventHandler::NodeRedForwarder,
    }
}

/// The event of a message received from `source`.
pub fn received_from(source: Address, received: Timestamp, meta: &MessageMeta, handler: EventHandler) -> (e: Event)
    ensures
        e.source == Some(source),
        e.destination is None,
        e.timestamp == received,
        e.identifier.flow_name == meta.flow_name,
        e.identifier.execution_area == meta.execution_area,
        e.handler == handler,
{
    Event { source: Some(source), destination: None, timestamp: received, identifier: identifier_of(meta), handler }
}

/// The event of a message sent on to `destination`.
pub fn sent_to(destination: Address, sent: Timestamp, meta: &MessageMeta, handler: EventHandler) -> (e: Event)
    ensures
        e.source is None,
        e.destination == Some(destination),
        e.timestamp == sent,
        e.identifier.flow_name == meta.flow_name,
        e.identifier.execution_area == meta.execution_area,
        e.handler == handler,
{
    Event { source: None, destination: Some(destination), timestamp: sent, identifier: identifier_of(meta), handler }
}

/// Where a message from Node-RED, received on `reception_port`, goes: to
/// its `target_ip` at the paired port of the destination range. Nothing
/// where the target is no dotted IPv4 address or the port does not fit.
pub fn route_from_node_red(message: &NodeRedMessage, reception_port: u16, destination_port_base: u16) -> (r: Option<Address>)
    ensures
        match (text::dotted_quad(message.target_ip@), paired_port(reception_port, destination_port_base)) {
            (Some(ip), Some(port)) => r == Some(Address { ip, port }),
            _ => r is None,
        },
{
    let port = destination_port(reception_port, destination_port_base);
    let ip = text::parse_dotted_quad(message.target_ip.as_str());
    match (ip, port) {
        (Some(ip), Some(port)) => Some(Address { ip, port }),
        _ => None,
    }
}

/// Removes the NUL characters at both ends of a received text (what is
/// left over from the receive buffer).
pub open spec fn trim_nul(s: Seq<char>) -> Seq<char>
    decreases s.len(),
{
    if s.len() > 0 && s[0] == '\0' {
        trim_nul(s.drop_first())
    } else if s.len() > 0 && s.last() == '\0' {
        trim_nul(s.drop_last())
    } else {
        s
    }
}

proof fn lemma_trim_nul(s: Seq<char>, a: int, b: int)
    requires
        0 <= a <= b <= s.len(),
        forall|i: int| 0 <= i < a ==> s[i] == '\0',
        forall|i: int| b <= i < s.len() ==> s[i] == '\0',
        a < b ==> s[a] != '\0' && s[b - 1] != '\0',
        a == b ==> b == s.len(),
    ensures
        trim_nul(s) == s.subrange(a, b),
    decreases s.len(),
{
    if s.len() > 0 && s[0] == '\0' {
        lemma_trim_nul(s.drop_first(), a - 1, b - 1);
        assert(s.drop_first().subrange(a - 1, b - 1) =~= s.subrange(a, b));
    } else if s.len() > 0 && s.last() == '\0' {
        assert(a == 0);
        lemma_trim_nul(s.drop_last(), a, b);
        assert(s.drop_last().subrange(a, b) =~= s.subrange(a, b));
    } else {
        assert(s.subrange(a, b) =~= s);
    }
}

/// The text of a datagram without the NUL characters around it, as
/// `str::trim_matches('\0')` gives it.
pub fn trim_datagram_text(s: &str) -> (r: String)
    ensures
        r@ == trim_nul(s@),
{
    let len = s.unicode_len();
    let mut a: usize = 0;
    while a < len && s.get_char(a) == '\0'
        invariant
            a <= len,
            len == s@.len(),
            forall|i: int| 0 <= i < a ==> s@[i] == '\0',
        decreases len - a,
    {
        a = a + 1;
    }
    let mut b: usize = len;
    while b > a && s.get_char(b - 1) == '\0'
        invariant
            a <= b <= len,
            len == s@.len(),
            a < len ==> s@[a as int] != '\0',
            forall|i: int| 0 <= i < a ==> s@[i] == '\0',
            forall|i: int| b <= i < len ==> s@[i] == '\0',
        decreases b - a,
    {
        b = b - 1;
    }
    proof {
        lemma_trim_nul(s@, a as int, b as int);
    }
    text::string_of(s.substring_char(a, b))
}

} // verus!
