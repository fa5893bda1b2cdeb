//! The answers of the proxy's HTTP endpoints, from the outcome of the
//! operation they ran.
use vstd::prelude::*;
use vstd::string::*;
use crate::text;
use crate::flows::FlowError;

verus! {

/// An HTTP answer: status code, message and, on failure, the error text.
#[derive(Debug)]
pub struct HttpReply {
    pub status: u16,
    pub message: String,
    pub error: Option<String>,
}

fn reply(status: u16, message: String, error: Option<String>) -> (r: HttpReply)
    ensures
        r.status == status && r.message == message && r.error == error,
{
    HttpReply { status, message, error }
}

fn concat3(a: &str, b: &str, c: &str) -> (r: String)
    ensures
        r@ == a@ + b@ + c@,
{
    let mut r = text::string_of(a);
    r.append(b);
    r.append(c);
    r
}

/// Why the JSON body of a request was refused.
#[derive(Debug)]
pub enum BodyRejection {
    /// The body is JSON but does not fit the request; the text says why.
    MissingFields(String),
    /// The body is no valid JSON.
    InvalidJson,
    /// Any other refusal.
    Other,
}

/// The answer to a request whose body was refused.
pub fn rejection_reply(rejection: &BodyRejection) -> (r: HttpReply)
    ensures
        r.error is None,
        match rejection {
            BodyRejection::MissingFields(why) => r.status == 400 && r.message@ == "Missing fields: "@ + why@,
            BodyRejection::InvalidJson => r.status == 400 && r.message@ == "Invalid JSON"@,
            BodyRejection::Other => r.status == 500 && r.message@ == "Unknown error"@,
        },
{
    match rejection {
        BodyRejection::MissingFields(why) => reply(400, crate::flows::concat("Missing fields: ", why.as_str()), None),
        BodyRejection::InvalidJson => reply(400, text::string_of("Invalid JSON"), None),
        BodyRejection::Other => reply(500, text::string_of("Unknown error"), None),
    }
}

/// The answer to a request for the contents of the database: `answer` is
/// `None` where the worker did not receive the request or gave no answer,
/// and otherwise whether it could serialise the database (with the error
/// text where not). On success the contents go along with the answer.
pub fn db_reply(answer: &Option<Result<(), String>>) -> (r: HttpReply)
    ensures
        match answer {
            None => r.status == 500 && r.message@ == "Database could not be retrieved"@ && r.error is None,
            Some(Ok(())) => r.status == 200 && r.message@ == "Database retrieved"@ && r.error is None,
            Some(Err(e)) => r.status == 500 && r.message@ == "Database could not be retrieved"@
                && (r.error matches Some(t) && t@ == e@),
        },
{
    match answer {
        None => reply(500, text::string_of("Database could not be retrieved"), None),
        Some(Ok(())) => reply(200, text::string_of("Database retrieved"), None),
        Some(Err(e)) => reply(500, text::string_of("Database could not be retrieved"), Some(e.clone())),
    }
}

/// The answer when no flow has the name asked for.
pub fn flow_not_found() -> (r: HttpReply)
    ensures
        r.status == 400 && r.message@ == "Flow not found"@ && r.error is None,
{
    reply(400, text::string_of("Flow not found"), None)
}

/// The answer to a request for a database operation that the worker did
/// (`sent`) or did not receive; `done` is the message of success (such as
/// "Database logged") and `failed` that of failure.
pub fn database_request_reply(sent: bool, done: &str, failed: &str) -> (r: HttpReply)
    ensures
        sent ==> r.status == 200 && r.message@ == done@ && r.error is None,
        !sent ==> r.status == 500 && r.message@ == failed@ && r.error is None,
{
    if sent {
        reply(200, text::string_of(done), None)
    } else {
        reply(500, text::string_of(failed), None)
    }
}

/// "disabled" or "enabled".
pub open spec fn status_word(disabled: bool) -> Seq<char> {
    if disabled {
        "disabled"@
    } else {
        "enabled"@
    }
}

/// The answer to a status update of a flow that was found.
pub fn status_update_reply(disabled: bool, result: &Result<(), FlowError>) -> (r: HttpReply)
    ensures
        match result {
            Ok(_) => r.status == 200 && r.message@ == "Flow "@ + status_word(disabled) && r.error is None,
            Err(e) => r.status == 500 && r.message@ == "Flow could not be "@ + status_word(disabled)
                && (r.error matches Some(t) && t@ == e.message@),
        },
{
    let word = if disabled {
        "disabled"
    } else {
        "enabled"
    };
    match result {
        Ok(_) => reply(200, crate::flows::concat("Flow ", word), None),
        Err(e) => reply(500, crate::flows::concat("Flow could not be ", word), Some(e.to_string())),
    }
}

/// The answer to the transfer of a flow that was found to `new_area`.
pub fn transfer_reply(new_area: &str, result: &Result<Option<String>, FlowError>) -> (r: HttpReply)
    ensures
        match result {
            Ok(_) => r.status == 200 && r.message@ == "Flow successfully transferred to area '"@ + new_area@ + "'"@
                && r.error is None,
            Err(e) => r.status == 500 && r.message@ == "Flow could not be transferred to area '"@ + new_area@ + "'"@
                && (r.error matches Some(t) && t@ == e.message@),
        },
{
    match result {
        Ok(_) => reply(200, concat3("Flow successfully transferred to area '", new_area, "'"), None),
        Err(e) => reply(500, concat3("Flow could not be transferred to area '", new_area, "'"), Some(e.to_string())),
    }
}

/// The answer to the undoing of the transfer of a flow that was found to
/// `area`.
pub fn untransfer_reply(area: &str, result: &Result<Option<String>, FlowError>) -> (r: HttpReply)
    ensures
        match result {
            Ok(_) => r.status == 200 && r.message@ == "Flow successfully untransferred from area '"@ + area@ + "'"@
                && r.error is None,
            Err(e) => r.status == 500 && r.message@ == "Flow could not be untransferred from area '"@ + area@ + "'"@
                && (r.error matches Some(t) && t@ == e.message@),
        },
{
    match result {
        Ok(_) => reply(200, concat3("Flow successfully untransferred from area '", area, "'"), None),
        Err(e) => reply(500, concat3("Flow could not be untransferred from area '", area, "'"), Some(e.to_string())),
    }
}

/// The answer to the deletion of a flow that was found.
pub fn delete_reply(result: &Result<(), FlowError>) -> (r: HttpReply)
    ensures
        match result {
            Ok(_) => r.status == 200 && r.message@ == "Flow successfully deleted"@ && r.error is None,
            Err(e) => r.status == 500 && r.message@ == "Flow could not be deleted"@
                && (r.error matches Some(t) && t@ == e.message@),
        },
{
    match result {
        Ok(_) => reply(200, text::string_of("Flow successfully deleted"), None),
        Err(e) => reply(500, text::string_of("Flow could not be deleted"), Some(e.to_string())),
    }
}

/// The path to which the database is saved: `./data/<timestamp>_dump_<area>.json`.
pub fn dump_path(timestamp: &str, area: &str) -> (p: String)
    ensures
        p@ == "./data/"@ + timestamp@ + "_dump_"@ + area@ + ".json"@,
{
    let mut p = text::string_of("./data/");
    p.append(timestamp);
    p.append("_dump_");
    p.append(area);
    p.append(".json");
    p
}

/// The UDP ports of the receivers of one kind: for each `port` of
/// `1..=limit`, the inbound port `inbound_base + port` and the outbound
/// port `outbound_base + port`; nothing where a sum does not fit in a
/// `u16`.
pub fn receiver_ports(inbound_base: u16, outbound_base: u16, limit: u16) -> (r: Option<Vec<(u16, u16)>>)
    ensures
        match r {
            Some(ports) => (limit == 0 || (inbound_base + limit <= u16::MAX && outbound_base + limit <= u16::MAX))
                && ports@.len() == limit
                && forall|i: int| 0 <= i < limit ==> #[trigger] ports@[i] == ((inbound_base + i + 1) as u16, (outbound_base + i + 1) as u16),
            None => limit > 0 && (inbound_base + limit > u16::MAX || outbound_base + limit > u16::MAX),
        },
{
    if limit > 0 && (inbound_base as u32 + limit as u32 > 65535 || outbound_base as u32 + limit as u32 > 65535) {
        return None;
    }
    let mut ports: Vec<(u16, u16)> = Vec::new();
    let mut port: u32 = 1;
    while port <= limit as u32
        invariant
            1 <= port,
            port <= limit + 1,
            limit == 0 || (inbound_base + limit <= u16::MAX && outbound_base + limit <= u16::MAX),
            ports@.len() == port - 1,
            forall|i: int| 0 <= i < port - 1 ==> #[trigger] ports@[i] == ((inbound_base + i + 1) as u16, (outbound_base + i + 1) as u16),
        decreases limit + 1 - port,
    {
        ports.push(((inbound_base as u32 + port) as u16, (outbound_base as u32 + port) as u16));
        port = port + 1;
    }
    Some(ports)
}

} // verus!
