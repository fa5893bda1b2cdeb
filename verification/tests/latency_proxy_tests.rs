use node_red_proxy::db::{Address, EventHandler, Timestamp};
use node_red_proxy::latency::{self, LatencyTestError, LatencyTestResult, Span};
use node_red_proxy::proxy::{self, MessageMeta, NodeRedMessage, ProxyError};
use node_red_proxy::responses;
use node_red_proxy::responses::BodyRejection;
use node_red_proxy::config;

#[test]
fn ping_evaluation() {
    let start = Span { secs: 100, nanos: 0 };
    let elapsed = Span { secs: 0, nanos: 3_001_999 };
    let reply = 100_000_100u64.to_be_bytes();
    let r = latency::evaluate_ping(start, elapsed, reply);
    assert_eq!(r.round_trip_time, 3001);
    assert_eq!(r.receiver_time_offset, 100_000_100 - 100_001_500);
}

#[test]
fn be_bytes_like_std() {
    for v in [0u64, 1, 255, 256, 0x0102_0304_0506_0708, u64::MAX] {
        assert_eq!(latency::u64_from_be_bytes(v.to_be_bytes()), v);
    }
}

#[test]
fn averages_round_toward_zero() {
    let rs = vec![
        LatencyTestResult { receiver_time_offset: -7, round_trip_time: 10 },
        LatencyTestResult { receiver_time_offset: 2, round_trip_time: 11 },
    ];
    let avg = latency::average_results(&rs);
    assert_eq!(avg.receiver_time_offset, -2);
    assert_eq!(avg.round_trip_time, 10);
    let none = latency::average_results(&vec![]);
    assert_eq!((none.receiver_time_offset, none.round_trip_time), (0, 0));
    let one = latency::average_results(&vec![LatencyTestResult { receiver_time_offset: 5, round_trip_time: 9 }]);
    assert_eq!((one.receiver_time_offset, one.round_trip_time), (5, 9));
}

#[test]
fn latency_errors() {
    let t = LatencyTestError::from_io_error(10060, "x".to_string());
    assert_eq!(t.to_string(), "Latency test error [timeout]: Socket timed out while waiting for a response");
    let io = LatencyTestError::from_io_error(111, "refused".to_string());
    assert_eq!(io.to_string(), "Latency test error [io]: refused");
    assert_eq!(LatencyTestError::from_time_error("t".to_string()).kind, "time");
    assert_eq!(LatencyTestError::from_ip_error("i".to_string()).kind, "ip");
    assert_eq!(latency::ping_reply_to("10.0.0.1", 5000), "10.0.0.1:5000");
}

#[test]
fn proxy_errors() {
    assert_eq!(
        ProxyError::from_io_error(10060, "x".to_string()).to_string(),
        "Node-RED proxy error [timeout]: Socket timed out while waiting for a response"
    );
    assert_eq!(ProxyError::from_io_error(1, "bad".to_string()).to_string(), "Node-RED proxy error [io]: bad");
    assert_eq!(ProxyError::message_passing("closed".to_string()).kind, "MessagePassing");
}

#[test]
fn routing() {
    assert_eq!(proxy::destination_port(35003, 37000), Some(37003));
    assert_eq!(proxy::destination_port(35999, 65000), None);
    let msg = NodeRedMessage {
        meta: MessageMeta { flow_name: "F".to_string(), execution_area: "base".to_string() },
        target_ip: "10.0.0.9".to_string(),
    };
    let a = proxy::route_from_node_red(&msg, 35003, 37000).unwrap();
    assert_eq!((a.ip, a.port), ((10, 0, 0, 9), 37003));
    let bad = NodeRedMessage { target_ip: "nowhere".to_string(), ..msg };
    assert!(proxy::route_from_node_red(&bad, 35003, 37000).is_none());
}

#[test]
fn proxy_events() {
    let meta = MessageMeta { flow_name: "F".to_string(), execution_area: "base".to_string() };
    let t = Timestamp { secs: 1, nanos: 2 };
    let e = proxy::forwarded_to_node_red(33004, t, &meta);
    let d = e.destination.unwrap();
    assert_eq!((d.ip, d.port), ((127, 0, 0, 1), 33004));
    assert!(e.source.is_none());
    let src = Address { ip: (1, 2, 3, 4), port: 9 };
    let r = proxy::received_from(src, t, &meta, EventHandler::NodeRedReceiver);
    assert_eq!(r.source.unwrap().port, 9);
    assert_eq!(r.identifier.to_string(), "F@base");
    let s = proxy::sent_to(src, t, &meta, EventHandler::ProxyForwarder);
    assert!(s.destination.is_some() && s.source.is_none());
}

#[test]
fn datagram_trimming() {
    for s in ["", "\0\0", "{\"a\":1}\0\0\0", "\0x\0y\0", "abc"] {
        assert_eq!(proxy::trim_datagram_text(s), s.trim_matches('\0'));
    }
}

#[test]
fn http_replies() {
    let r = responses::flow_not_found();
    assert_eq!((r.status, r.message.as_str()), (400, "Flow not found"));
    let ok = responses::status_update_reply(true, &Ok(()));
    assert_eq!((ok.status, ok.message.as_str()), (200, "Flow disabled"));
    let err = responses::status_update_reply(false, &Err(node_red_proxy::flows::FlowError::new("e".to_string())));
    assert_eq!((err.status, err.message.as_str(), err.error.as_deref()), (500, "Flow could not be enabled", Some("e")));
    let t = responses::transfer_reply("room1", &Ok(None));
    assert_eq!(t.message, "Flow successfully transferred to area 'room1'");
    let u = responses::untransfer_reply("room1", &Err(node_red_proxy::flows::FlowError::new("e".to_string())));
    assert_eq!((u.status, u.message.as_str()), (500, "Flow could not be untransferred from area 'room1'"));
    let d = responses::delete_reply(&Ok(()));
    assert_eq!(d.message, "Flow successfully deleted");
    let db = responses::database_request_reply(false, "Database logged", "Database could not be logged");
    assert_eq!((db.status, db.message.as_str()), (500, "Database could not be logged"));
    assert_eq!(responses::dump_path("2024-01-01T00-00-00", "base"), "./data/2024-01-01T00-00-00_dump_base.json");
    assert_eq!(responses::receiver_ports(35000, 36000, 3), Some(vec![(35001, 36001), (35002, 36002), (35003, 36003)]));
    assert_eq!(responses::receiver_ports(65534, 36000, 3), None);
    assert_eq!(responses::receiver_ports(65535, 65535, 0), Some(vec![]));
}

#[test]
fn url_building() {
    assert_eq!(config::path_to_url_with_base_url("/flows", "http://h:1880"), "http://h:1880/flows");
    assert_eq!(config::path_to_url_with_base_url("flows", "http://h:1880"), "http://h:1880/flows");
    assert_eq!(config::http_url_of("10.0.0.1", "1880"), "http://10.0.0.1:1880");
}

#[test]
fn refused_bodies() {
    let m = responses::rejection_reply(&BodyRejection::MissingFields("no name".to_string()));
    assert_eq!((m.status, m.message.as_str()), (400, "Missing fields: no name"));
    let i = responses::rejection_reply(&BodyRejection::InvalidJson);
    assert_eq!((i.status, i.message.as_str()), (400, "Invalid JSON"));
    let o = responses::rejection_reply(&BodyRejection::Other);
    assert_eq!((o.status, o.message.as_str(), o.error), (500, "Unknown error", None));
}

#[test]
fn database_replies() {
    let ok = responses::db_reply(&Some(Ok(())));
    assert_eq!((ok.status, ok.message.as_str(), ok.error), (200, "Database retrieved", None));
    let failed = responses::db_reply(&Some(Err("broken".to_string())));
    assert_eq!((failed.status, failed.message.as_str(), failed.error.as_deref()), (500, "Database could not be retrieved", Some("broken")));
    let lost = responses::db_reply(&None);
    assert_eq!((lost.status, lost.message.as_str(), lost.error), (500, "Database could not be retrieved", None));
}
