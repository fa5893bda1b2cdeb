use node_red_proxy::db::{
    Address, Database, DbAction, DeviceIdentifier, Event, EventHandler, EventIdentifier, MessageType, Timestamp,
    TimeOffsetConfig,
};

fn event(flow: &str, area: &str, secs: u64, nanos: u32, from: bool) -> Event {
    let addr = Address { ip: (10, 0, 0, 1), port: 3000 };
    Event {
        source: if from { Some(addr) } else { None },
        destination: if from { None } else { Some(addr) },
        timestamp: Timestamp { secs, nanos },
        identifier: EventIdentifier { flow_name: flow.to_string(), execution_area: area.to_string() },
        handler: EventHandler::ProxyReceiver,
    }
}

fn events_of<'a>(db: &'a Database, key: &str) -> Option<&'a Vec<Event>> {
    db.events.iter().find(|(k, _)| k == key).map(|(_, v)| v)
}

#[test]
fn identifiers_display() {
    let id = EventIdentifier { flow_name: "Flow 1".to_string(), execution_area: "room1".to_string() };
    assert_eq!(id.to_string(), "Flow 1@room1");
    let dev = DeviceIdentifier { device_ip: "10.0.0.5".to_string(), device_port: 3001 };
    assert_eq!(dev.to_string(), "10.0.0.5:3001");
    assert_eq!(EventHandler::ProxyReceiver.to_string(), "ProxyReceiver");
    assert_eq!(EventHandler::NodeRedForwarder.to_string(), "NodeRedForwarder");
    assert_eq!(EventHandler::NodeRedReceiver.to_string(), "NodeRedReceiver");
    assert_eq!(EventHandler::ProxyForwarder.to_string(), "ProxyForwarder");
}

#[test]
fn events_are_recorded_per_automation() {
    let mut db = Database::new();
    assert!(matches!(db.handle_message(MessageType::Event(event("F", "base", 1, 0, true))), DbAction::Recorded));
    assert!(matches!(db.handle_message(MessageType::Event(event("F", "base", 2, 0, false))), DbAction::Recorded));
    assert!(matches!(db.handle_message(MessageType::Event(event("G", "room1", 3, 0, true))), DbAction::Recorded));
    assert_eq!(db.events.len(), 2);
    let f = events_of(&db, "F@base").unwrap();
    assert_eq!(f.len(), 2);
    assert_eq!(f[1].timestamp.secs, 2);
    assert_eq!(events_of(&db, "G@room1").unwrap().len(), 1);
}

#[test]
fn events_without_addresses_stop_the_worker() {
    let mut db = Database::new();
    let mut e = event("F", "base", 1, 0, true);
    e.source = None;
    match db.handle_message(MessageType::Event(e)) {
        DbAction::Failed(err) => {
            assert_eq!(err.to_string(), "Event neither contained `source` nor `destination`!");
        }
        other => panic!("unexpected {:?}", other),
    }
    assert_eq!(events_of(&db, "F@base").unwrap().len(), 0);
}

#[test]
fn later_offsets_replace_earlier_ones() {
    let mut db = Database::new();
    let dev = || DeviceIdentifier { device_ip: "10.0.0.5".to_string(), device_port: 3001 };
    db.handle_message(MessageType::TimeOffset(TimeOffsetConfig { identifier: dev(), offset: -5 }));
    db.handle_message(MessageType::TimeOffset(TimeOffsetConfig { identifier: dev(), offset: 7 }));
    assert_eq!(db.time_offsets, vec![("10.0.0.5:3001".to_string(), 7)]);
}

#[test]
fn reading_leaves_the_database_alone() {
    let mut db = Database::new();
    db.handle_message(MessageType::Event(event("F", "base", 1, 0, true)));
    assert!(matches!(db.handle_message(MessageType::GetDB), DbAction::Respond));
    match db.handle_message(MessageType::SaveDB("./data/x.json".to_string())) {
        DbAction::Save(p) => assert_eq!(p, "./data/x.json"),
        other => panic!("unexpected {:?}", other),
    }
    assert_eq!(db.events.len(), 1);
}

#[test]
fn log_shows_times_between_events() {
    let mut db = Database::new();
    db.handle_message(MessageType::Event(event("F", "base", 1, 0, true)));
    db.handle_message(MessageType::Event(event("F", "base", 1, 1_500_000, false)));
    db.handle_message(MessageType::Event(event("F", "base", 3, 1_500_999, true)));
    db.handle_message(MessageType::Event(event("G", "room1", 5, 0, true)));
    assert!(db.log_is_ordered());
    match db.handle_message(MessageType::LogDB) {
        DbAction::Log(lines) => assert_eq!(
            lines,
            vec!["Database contents:", "  F@base:", "    1500µs", "    2000000µs", "  G@room1:"]
        ),
        other => panic!("unexpected {:?}", other),
    }
    db.handle_message(MessageType::Event(event("G", "room1", 4, 0, true)));
    assert!(!db.log_is_ordered());
}

#[test]
fn log_replays_the_messages() {
    let mut db = Database::new();
    let messages = vec![
        MessageType::Event(event("F", "base", 1, 0, true)),
        MessageType::GetDB,
        MessageType::Event(event("G", "room1", 2, 0, false)),
        MessageType::SaveDB("./x.json".to_string()),
        MessageType::Event(event("F", "base", 3, 0, false)),
    ];
    for m in messages {
        db.handle_message(m);
    }
    let keys: Vec<&str> = db.events.iter().map(|(k, _)| k.as_str()).collect();
    assert_eq!(keys, vec!["F@base", "G@room1"]);
    let f: Vec<u64> = events_of(&db, "F@base").unwrap().iter().map(|e| e.timestamp.secs).collect();
    assert_eq!(f, vec![1, 3]);
    assert_eq!(events_of(&db, "G@room1").unwrap().len(), 1);
}
