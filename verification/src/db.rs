//! The event log that the proxy keeps: for every automation and area, the
//! times at which its messages passed through the proxy, and the clock
//! offset of every device.
use vstd::prelude::*;
use vstd::string::*;
use crate::text;

verus! {

/// Why the database worker stopped.
#[derive(Debug)]
pub struct DbWorkerError {
    pub message: String,
}

impl DbWorkerError {
    /// The text of the error, as its `Display` shows it.
    pub fn to_string(&self) -> (s: String)
        ensures
            s@ == self.message@,
    {
        self.message.clone()
    }
}

/// The automation (flow) and the area it ran in that an event belongs to.
#[derive(Debug)]
pub struct EventIdentifier {
    pub flow_name: String,
    pub execution_area: String,
}

/// The key of the events of an automation: `<flow_name>@<execution_area>`.
pub open spec fn event_key(id: EventIdentifier) -> Seq<char> {
    id.flow_name@ + "@"@ + id.execution_area@
}

impl EventIdentifier {
    /// The identifier as its `Display` shows it (see `event_key`).
    pub fn to_string(&self) -> (s: String)
        ensures
            s@ == event_key(*self),
    {
        let mut s = text::string_of(self.flow_name.as_str());
        s.append("@");
        s.append(self.execution_area.as_str());
        s
    }
}

/// An input or output node, by address.
#[derive(Debug)]
pub struct DeviceIdentifier {
    pub device_ip: String,
    pub device_port: u16,
}

/// The key of a device: `<device_ip>:<device_port>`.
pub open spec fn device_key(id: DeviceIdentifier) -> Seq<char> {
    id.device_ip@ + ":"@ + text::decimal(id.device_port as nat)
}

impl DeviceIdentifier {
    /// The identifier as its `Display` shows it (see `device_key`).
    pub fn to_string(&self) -> (s: String)
        ensures
            s@ == device_key(*self),
    {
        let mut s = text::string_of(self.device_ip.as_str());
        s.append(":");
        let port = text::u128_to_decimal(self.device_port as u128);
        s.append(port.as_str());
        s
    }
}

/// The part of the proxy that saw an event.
#[derive(Debug, Clone, Copy)]
pub enum EventHandler {
    ProxyReceiver,
    NodeRedForwarder,
    NodeRedReceiver,
    ProxyForwarder,
}

/// The name of a handler.
pub open spec fn handler_name(h: EventHandler) -> Seq<char> {
    match h {
        EventHandler::ProxyReceiver => "ProxyReceiver"@,
        EventHandler::NodeRedForwarder => "NodeRedForwarder"@,
        EventHandler::NodeRedReceiver => "NodeRedReceiver"@,
        EventHandler::ProxyForwarder => "ProxyForwarder"@,
    }
}

impl EventHandler {
    /// The handler's name (see `handler_name`).
    pub fn to_string(&self) -> (s: String)
        ensures
            s@ == handler_name(*self),
    {
        match self {
            EventHandler::ProxyReceiver => text::string_of("ProxyReceiver"),
            EventHandler::NodeRedForwarder => text::string_of("NodeRedForwarder"),
            EventHandler::NodeRedReceiver => text::string_of("NodeRedReceiver"),
            EventHandler::ProxyForwarder => text::string_of("ProxyForwarder"),
        }
    }
}

/// An IPv4 socket address.
#[derive(Debug, Clone, Copy)]
pub struct Address {
    pub ip: (u8, u8, u8, u8),
    pub port: u16,
}

/// A point in time: seconds and nanoseconds since the UNIX epoch.
#[derive(Debug, Clone, Copy)]
pub struct Timestamp {
    pub secs: u64,
    pub nanos: u32,
}

/// Microseconds since the UNIX epoch, as `Duration::as_micros` counts them.
pub open spec fn micros(t: Timestamp) -> nat {
    t.secs as nat * 1_000_000 + t.nanos as nat / 1000
}

/// Computes `micros(t)`.
pub fn timestamp_micros(t: Timestamp) -> (m: u128)
    ensures
        m == micros(t),
{
    t.secs as u128 * 1_000_000 + (t.nanos / 1000) as u128
}

/// A message that passed through the proxy: received from `source`, or
/// sent to `destination`.
#[derive(Debug)]
pub struct Event {
    pub source: Option<Address>,
    pub destination: Option<Address>,
    pub timestamp: Timestamp,
    pub identifier: EventIdentifier,
    pub handler: EventHandler,
}

/// The measured clock offset of a device, in microseconds.
#[derive(Debug)]
pub struct TimeOffsetConfig {
    pub identifier: DeviceIdentifier,
    pub offset: i128,
}

/// A request to the database worker.
#[derive(Debug)]
pub enum MessageType {
    LogDB,
    GetDB,
    SaveDB(String),
    Event(Event),
    TimeOffset(TimeOffsetConfig),
}

/// The events of every automation (by `event_key`, in the order they were
/// recorded) and the clock offset of every device (by `device_key`).
#[derive(Debug)]
pub struct Database {
    pub events: Vec<(String, Vec<Event>)>,
    pub time_offsets: Vec<(String, i128)>,
}

/// What the worker is to do after a request.
#[derive(Debug)]
pub enum DbAction {
    /// Print these lines.
    Log(Vec<String>),
    /// Answer with the serialised database.
    Respond,
    /// Save the serialised database to this path.
    Save(String),
    /// The event or offset has been recorded.
    Recorded,
    /// Stop with this error.
    Failed(DbWorkerError),
}

/// No key occurs twice.
pub open spec fn unique_keys<V>(entries: Seq<(String, V)>) -> bool {
    forall|i: int, j: int|
        0 <= i < entries.len() && 0 <= j < entries.len() && i != j ==> (#[trigger] entries[i]).0@ != (#[trigger] entries[j]).0@
}

/// Whether `key` has an entry.
pub open spec fn has_key<V>(entries: Seq<(String, V)>, key: Seq<char>) -> bool {
    exists|i: int| 0 <= i < entries.len() && (#[trigger] entries[i]).0@ == key
}

/// The events recorded under `key` (none when there is no entry).
pub open spec fn events_of(db: Database, key: Seq<char>) -> Seq<Event> {
    if has_key(db.events@, key) {
        db.events@[choose|i: int| 0 <= i < db.events@.len() && (#[trigger] db.events@[i]).0@ == key].1@
    } else {
        Seq::empty()
    }
}

/// The offset recorded for device `key`.
pub open spec fn offset_of(db: Database, key: Seq<char>) -> Option<i128> {
    if has_key(db.time_offsets@, key) {
        Some(db.time_offsets@[choose|i: int| 0 <= i < db.time_offsets@.len() && (#[trigger] db.time_offsets@[i]).0@ == key].1)
    } else {
        None
    }
}

impl Database {
    /// No key has two entries.
    pub open spec fn well_formed(self) -> bool {
        unique_keys(self.events@) && unique_keys(self.time_offsets@)
    }

    /// An empty database.
    pub fn new() -> (db: Database)
        ensures
            db.well_formed(),
            db.events@.len() == 0,
            db.time_offsets@.len() == 0,
            forall|key: Seq<char>| events_of(db, key) == Seq::<Event>::empty(),
            forall|key: Seq<char>| offset_of(db, key) is None,
    {
        Database { events: Vec::new(), time_offsets: Vec::new() }
    }
}

proof fn lemma_entry_at<V>(entries: Seq<(String, V)>, i: int, key: Seq<char>)
    requires
        unique_keys(entries),
        0 <= i < entries.len(),
        entries[i].0@ == key,
    ensures
        has_key(entries, key),
        (choose|j: int| 0 <= j < entries.len() && (#[trigger] entries[j]).0@ == key) == i,
{
    let j = choose|j: int| 0 <= j < entries.len() && (#[trigger] entries[j]).0@ == key;
    if j != i {
        assert(entries[j].0@ != entries[i].0@);
    }
}

/// The index of the entry of `key`, if there is one.
fn find_key<V>(entries: &Vec<(String, V)>, key: &String) -> (r: Option<usize>)
    ensures
        match r {
            Some(i) => i < entries@.len() && entries@[i as int].0@ == key@,
            None => !has_key(entries@, key@),
        },
{
    let mut i: usize = 0;
    while i < entries.len()
        invariant
            i <= entries@.len(),
            forall|j: int| 0 <= j < i ==> (#[trigger] entries@[j]).0@ != key@,
        decreases entries.len() - i,
    {
        if entries[i].0 == *key {
            return Some(i);
        }
        i = i + 1;
    }
    None
}

impl Database {
    /// Records event `e` under its key (see `event_key`), creating the
    /// entry if needed. An event with neither source nor destination is
    /// refused (its entry is still created).
    pub fn record_event(&mut self, e: Event) -> (r: Result<(), DbWorkerError>)
        requires
            old(self).well_formed(),
        ensures
            final(self).well_formed(),
            final(self).time_offsets == old(self).time_offsets,
            has_key(final(self).events@, event_key(e.identifier)),
            forall|key: Seq<char>| key != event_key(e.identifier) ==> #[trigger] events_of(*final(self), key) == events_of(*old(self), key),
            forall|key: Seq<char>| key != event_key(e.identifier) ==> #[trigger] has_key(final(self).events@, key) == has_key(old(self).events@, key),
            (e.source is Some || e.destination is Some) ==> r is Ok
                && events_of(*final(self), event_key(e.identifier)) == events_of(*old(self), event_key(e.identifier)).push(e),
            (e.source is None && e.destination is None) ==> (r matches Err(err)
                && err.message@ == "Event neither contained `source` nor `destination`!"@
                && events_of(*final(self), event_key(e.identifier)) == events_of(*old(self), event_key(e.identifier))),
    {
        let key = e.identifier.to_string();
        let ghost k = key@;
        let ghost before = *self;
        let i = match find_key(&self.events, &key) {
            Some(i) => {
                proof {
                    lemma_entry_at(self.events@, i as int, k);
                }
                i
            },
            None => {
                self.events.push((key, Vec::new()));
                proof {
                    let n = before.events@.len() as int;
                    assert forall|a: int, b: int|
                        0 <= a < self.events@.len() && 0 <= b < self.events@.len() && a != b implies
                        (#[trigger] self.events@[a]).0@ != (#[trigger] self.events@[b]).0@ by {
                        if a < n && b < n {
                            assert(before.events@[a].0@ != before.events@[b].0@);
                        } else if a < n {
                            assert(before.events@[a].0@ != k);
                        } else {
                            assert(before.events@[b].0@ != k);
                        }
                    }
                    lemma_entry_at(self.events@, n, k);
                }
                self.events.len() - 1
            },
        };
        let ghost mid = *self;
        proof {
            assert forall|key2: Seq<char>| key2 != k implies #[trigger] has_key(mid.events@, key2) == has_key(before.events@, key2) by {
                if has_key(before.events@, key2) {
                    let j = choose|j: int| 0 <= j < before.events@.len() && (#[trigger] before.events@[j]).0@ == key2;
                    assert(mid.events@[j] == before.events@[j]);
                }
                if has_key(mid.events@, key2) {
                    let j = choose|j: int| 0 <= j < mid.events@.len() && (#[trigger] mid.events@[j]).0@ == key2;
                    assert(j < before.events@.len());
                    assert(mid.events@[j] == before.events@[j]);
                }
            }
            assert forall|key2: Seq<char>| key2 != k implies #[trigger] events_of(mid, key2) == events_of(before, key2)
                && has_key(mid.events@, key2) == has_key(before.events@, key2) by {
                if has_key(before.events@, key2) {
                    let j = choose|j: int| 0 <= j < before.events@.len() && (#[trigger] before.events@[j]).0@ == key2;
                    lemma_entry_at(before.events@, j, key2);
                    assert(mid.events@[j] == before.events@[j]);
                    lemma_entry_at(mid.events@, j, key2);
                }
                if has_key(mid.events@, key2) {
                    let j = choose|j: int| 0 <= j < mid.events@.len() && (#[trigger] mid.events@[j]).0@ == key2;
                    assert(j < before.events@.len());
                    assert(mid.events@[j] == before.events@[j]);
                }
            }
        }
        if e.source.is_none() && e.destination.is_none() {
            return Err(DbWorkerError { message: text::string_of("Event neither contained `source` nor `destination`!") });
        }
        let (entry_key, mut entry_events) = self.events.remove(i);
        entry_events.push(e);
        self.events.insert(i, (entry_key, entry_events));
        proof {
            assert(self.events@ =~= mid.events@.update(i as int, self.events@[i as int]));
            assert forall|a: int, b: int|
                0 <= a < self.events@.len() && 0 <= b < self.events@.len() && a != b implies
                (#[trigger] self.events@[a]).0@ != (#[trigger] self.events@[b]).0@ by {
                assert(mid.events@[a].0@ != mid.events@[b].0@);
            }
            lemma_entry_at(self.events@, i as int, k);
            assert forall|key2: Seq<char>| key2 != k implies #[trigger] has_key(self.events@, key2) == has_key(mid.events@, key2) by {
                if has_key(mid.events@, key2) {
                    let j = choose|j: int| 0 <= j < mid.events@.len() && (#[trigger] mid.events@[j]).0@ == key2;
                    assert(self.events@[j].0 == mid.events@[j].0);
                }
                if has_key(self.events@, key2) {
                    let j = choose|j: int| 0 <= j < self.events@.len() && (#[trigger] self.events@[j]).0@ == key2;
                    assert(self.events@[j].0 == mid.events@[j].0);
                }
            }
            assert forall|key2: Seq<char>| key2 != k implies #[trigger] events_of(*self, key2) == events_of(mid, key2)
                && has_key(self.events@, key2) == has_key(mid.events@, key2) by {
                if has_key(mid.events@, key2) {
                    let j = choose|j: int| 0 <= j < mid.events@.len() && (#[trigger] mid.events@[j]).0@ == key2;
                    lemma_entry_at(mid.events@, j, key2);
                    assert(j != i);
                    lemma_entry_at(self.events@, j, key2);
                }
                if has_key(self.events@, key2) {
                    let j = choose|j: int| 0 <= j < self.events@.len() && (#[trigger] self.events@[j]).0@ == key2;
                    assert(j != i);
                    assert(self.events@[j] == mid.events@[j]);
                }
            }
        }
        Ok(())
    }

    /// Records the clock offset of a device under its key (see
    /// `device_key`); a later offset replaces an earlier one.
    pub fn record_time_offset(&mut self, c: TimeOffsetConfig)
        requires
            old(self).well_formed(),
        ensures
            final(self).well_formed(),
            final(self).events == old(self).events,
            offset_of(*final(self), device_key(c.identifier)) == Some(c.offset),
            forall|key: Seq<char>| key != device_key(c.identifier) ==> #[trigger] offset_of(*final(self), key) == offset_of(*old(self), key),
    {
        let key = c.identifier.to_string();
        let ghost k = key@;
        let ghost before = *self;
        match find_key(&self.time_offsets, &key) {
            Some(i) => {
                self.time_offsets.set(i, (key, c.offset));
                proof {
                    assert forall|a: int, b: int|
                        0 <= a < self.time_offsets@.len() && 0 <= b < self.time_offsets@.len() && a != b implies
                        (#[trigger] self.time_offsets@[a]).0@ != (#[trigger] self.time_offsets@[b]).0@ by {
                        assert(before.time_offsets@[a].0@ != before.time_offsets@[b].0@);
                    }
                    lemma_entry_at(self.time_offsets@, i as int, k);
                    assert forall|key2: Seq<char>| key2 != k implies #[trigger] offset_of(*self, key2) == offset_of(before, key2) by {
                        if has_key(before.time_offsets@, key2) {
                            let j = choose|j: int| 0 <= j < before.time_offsets@.len() && (#[trigger] before.time_offsets@[j]).0@ == key2;
                            lemma_entry_at(before.time_offsets@, j, key2);
                            lemma_entry_at(self.time_offsets@, j, key2);
                        }
                        if has_key(self.time_offsets@, key2) {
                            let j = choose|j: int| 0 <= j < self.time_offsets@.len() && (#[trigger] self.time_offsets@[j]).0@ == key2;
                            assert(self.time_offsets@[j] == before.time_offsets@[j]);
                        }
                    }
                }
            },
            None => {
                self.time_offsets.push((key, c.offset));
                proof {
                    let n = before.time_offsets@.len() as int;
                    assert forall|a: int, b: int|
                        0 <= a < self.time_offsets@.len() && 0 <= b < self.time_offsets@.len() && a != b implies
                        (#[trigger] self.time_offsets@[a]).0@ != (#[trigger] self.time_offsets@[b]).0@ by {
                        if a < n && b < n {
                            assert(before.time_offsets@[a].0@ != before.time_offsets@[b].0@);
                        } else if a < n {
                            assert(before.time_offsets@[a].0@ != k);
                        } else {
                            assert(before.time_offsets@[b].0@ != k);
                        }
                    }
                    lemma_entry_at(self.time_offsets@, n, k);
                    assert forall|key2: Seq<char>| key2 != k implies #[trigger] offset_of(*self, key2) == offset_of(before, key2) by {
                        if has_key(before.time_offsets@, key2) {
                            let j = choose|j: int| 0 <= j < before.time_offsets@.len() && (#[trigger] before.time_offsets@[j]).0@ == key2;
                            lemma_entry_at(before.time_offsets@, j, key2);
                            assert(self.time_offsets@[j] == before.time_offsets@[j]);
                            lemma_entry_at(self.time_offsets@, j, key2);
                        }
                        if has_key(self.time_offsets@, key2) {
                            let j = choose|j: int| 0 <= j < self.time_offsets@.len() && (#[trigger] self.time_offsets@[j]).0@ == key2;
                            assert(j < n);
                            assert(self.time_offsets@[j] == before.time_offsets@[j]);
                        }
                    }
                }
            },
        }
    }
}

/// Each event of `events` happened no earlier than the one before it.
pub open spec fn timestamps_ordered(events: Seq<Event>) -> bool {
    forall|i: int| 0 < i < events.len() ==> micros((#[trigger] events[i - 1]).timestamp) <= micros(events[i].timestamp)
}

/// The events of every automation are in the order of their times.
pub open spec fn log_ordered(db: Database) -> bool {
    forall|k: int| 0 <= k < db.events@.len() ==> timestamps_ordered((#[trigger] db.events@[k]).1@)
}

/// The line that shows the time between two events, in microseconds.
pub open spec fn interval_line(micros_between: nat) -> Seq<char> {
    "    "@ + text::decimal(micros_between) + "µs"@
}

/// The lines that show the events of one automation: its key, then the
/// time from each event to the next.
pub open spec fn entry_lines(key: Seq<char>, events: Seq<Event>) -> Seq<Seq<char>> {
    let header = seq!["  "@ + key + ":"@];
    if events.len() == 0 {
        header
    } else {
        header + Seq::new(
            (events.len() - 1) as nat,
            |i: int| interval_line((micros(events[i + 1].timestamp) - micros(events[i].timestamp)) as nat),
        )
    }
}

/// The lines of all entries, in order.
pub open spec fn entries_lines(entries: Seq<(String, Vec<Event>)>) -> Seq<Seq<char>>
    decreases entries.len(),
{
    if entries.len() == 0 {
        Seq::empty()
    } else {
        entries_lines(entries.drop_last()) + entry_lines(entries.last().0@, entries.last().1@)
    }
}

/// What logging the database prints.
pub open spec fn database_log(db: Database) -> Seq<Seq<char>> {
    seq!["Database contents:"@] + entries_lines(db.events@)
}

fn push_line(lines: &mut Vec<String>, line: String)
    ensures
        final(lines)@.map_values(|l: String| l@) == old(lines)@.map_values(|l: String| l@).push(line@),
{
    let ghost before = lines@;
    lines.push(line);
    proof {
        assert(lines@.map_values(|l: String| l@) =~= before.map_values(|l: String| l@).push(line@));
    }
}

impl Database {
    /// Whether the events of every automation are in the order of their
    /// times (see `log_ordered`).
    pub fn log_is_ordered(&self) -> (b: bool)
        ensures
            b == log_ordered(*self),
    {
        let mut k: usize = 0;
        while k < self.events.len()
            invariant
                k <= self.events@.len(),
                forall|k2: int| 0 <= k2 < k ==> timestamps_ordered((#[trigger] self.events@[k2]).1@),
            decreases self.events.len() - k,
        {
            let events = &self.events[k].1;
            let mut i: usize = 1;
            while i < events.len()
                invariant
                    1 <= i,
                    k < self.events@.len(),
                    events@ == self.events@[k as int].1@,
                    i <= events@.len() || events@.len() == 0,
                    forall|i2: int| 0 < i2 < i && i2 < events@.len() ==> micros((#[trigger] events@[i2 - 1]).timestamp) <= micros(events@[i2].timestamp),
                decreases events.len() - i,
            {
                if timestamp_micros(events[i - 1].timestamp) > timestamp_micros(events[i].timestamp) {
                    proof {
                        assert(!timestamps_ordered(self.events@[k as int].1@));
                    }
                    return false;
                }
                i = i + 1;
            }
            k = k + 1;
        }
        true
    }

    /// The lines that logging the database prints: for every automation
    /// its key and the times between its consecutive events.
    pub fn log_lines(&self) -> (lines: Vec<String>)
        requires
            log_ordered(*self),
        ensures
            lines@.map_values(|l: String| l@) == database_log(*self),
    {
        let mut lines: Vec<String> = Vec::new();
        push_line(&mut lines, text::string_of("Database contents:"));
        proof {
            assert(lines@.map_values(|l: String| l@) =~= seq!["Database contents:"@] + entries_lines(self.events@.take(0)));
        }
        let mut k: usize = 0;
        while k < self.events.len()
            invariant
                k <= self.events@.len(),
                log_ordered(*self),
                lines@.map_values(|l: String| l@) == seq!["Database contents:"@] + entries_lines(self.events@.take(k as int)),
            decreases self.events.len() - k,
        {
            let ghost before = lines@.map_values(|l: String| l@);
            let key = &self.events[k].0;
            let events = &self.events[k].1;
            let mut header = text::string_of("  ");
            header.append(key.as_str());
            header.append(":");
            push_line(&mut lines, header);
            proof {
                assert(timestamps_ordered(self.events@[k as int].1@));
            }
            let mut i: usize = 1;
            while i < events.len()
                invariant
                    1 <= i,
                    i <= events@.len() || (events@.len() == 0 && i == 1),
                    timestamps_ordered(events@),
                    lines@.map_values(|l: String| l@) == before + seq!["  "@ + key@ + ":"@] + Seq::new(
                        (i - 1) as nat,
                        |j: int| interval_line((micros(events@[j + 1].timestamp) - micros(events@[j].timestamp)) as nat),
                    ),
                decreases events.len() - i,
            {
                let ghost prev_lines = lines@.map_values(|l: String| l@);
                proof {
                    assert(micros(events@[i - 1].timestamp) <= micros(events@[i as int].timestamp));
                }
                let d = timestamp_micros(events[i].timestamp) - timestamp_micros(events[i - 1].timestamp);
                let mut line = text::string_of("    ");
                let digits = text::u128_to_decimal(d);
                line.append(digits.as_str());
                line.append("µs");
                push_line(&mut lines, line);
                proof {
                    assert(lines@.map_values(|l: String| l@) =~= before + seq!["  "@ + key@ + ":"@] + Seq::new(
                        i as nat,
                        |j: int| interval_line((micros(events@[j + 1].timestamp) - micros(events@[j].timestamp)) as nat),
                    ));
                }
                i = i + 1;
            }
            proof {
                let entries = self.events@.take(k + 1);
                assert(entries.drop_last() =~= self.events@.take(k as int));
                assert(entries.last() == self.events@[k as int]);
                if events@.len() == 0 {
                    assert(i == 1);
                    assert(entry_lines(key@, events@) == seq!["  "@ + key@ + ":"@]);
                    assert(lines@.map_values(|l: String| l@) =~= before + seq!["  "@ + key@ + ":"@]);
                } else {
                    assert(lines@.map_values(|l: String| l@) =~= before + entry_lines(key@, events@));
                }
                assert(lines@.map_values(|l: String| l@) =~= seq!["Database contents:"@] + entries_lines(entries));
            }
            k = k + 1;
        }
        proof {
            assert(self.events@.take(self.events@.len() as int) =~= self.events@);
        }
        lines
    }
}

/// The events among `messages` whose key is `key`, in the order they came.
pub open spec fn recorded_events(messages: Seq<MessageType>, key: Seq<char>) -> Seq<Event>
    decreases messages.len(),
{
    if messages.len() == 0 {
        Seq::empty()
    } else {
        let prev = recorded_events(messages.drop_last(), key);
        match messages.last() {
            MessageType::Event(e) => if event_key(e.identifier) == key {
                prev.push(e)
            } else {
                prev
            },
            _ => prev,
        }
    }
}

/// Every event among `messages` has a source or a destination.
pub open spec fn events_addressed(messages: Seq<MessageType>) -> bool {
    forall|i: int| 0 <= i < messages.len() ==> match #[trigger] messages[i] {
        MessageType::Event(e) => e.source is Some || e.destination is Some,
        _ => true,
    }
}

/// What handling `message` does: `before` becomes `after`, and the worker
/// is to do `action`. Logging and reading leave the database as it is; an
/// event is appended to the events of its key (and no other key appears);
/// a clock offset replaces the one of its device.
pub open spec fn message_effect(before: Database, message: MessageType, after: Database, action: DbAction) -> bool {
    match message {
        MessageType::LogDB => after == before
            && (action matches DbAction::Log(lines)
            && lines@.map_values(|l: String| l@) == database_log(before)),
        MessageType::GetDB => after == before && action is Respond,
        MessageType::SaveDB(path) => after == before && action == DbAction::Save(path),
        MessageType::Event(e) => {
            let key = event_key(e.identifier);
            &&& after.time_offsets == before.time_offsets
            &&& has_key(after.events@, key)
            &&& forall|k2: Seq<char>| k2 != key ==> #[trigger] events_of(after, k2) == events_of(before, k2)
            &&& forall|k2: Seq<char>| k2 != key ==> #[trigger] has_key(after.events@, k2) == has_key(before.events@, k2)
            &&& if e.source is Some || e.destination is Some {
                action is Recorded && events_of(after, key) == events_of(before, key).push(e)
            } else {
                (action matches DbAction::Failed(err)
                    && err.message@ == "Event neither contained `source` nor `destination`!"@)
                    && events_of(after, key) == events_of(before, key)
            }
        },
        MessageType::TimeOffset(c) => {
            &&& action is Recorded
            &&& after.events == before.events
            &&& offset_of(after, device_key(c.identifier)) == Some(c.offset)
            &&& forall|k2: Seq<char>| k2 != device_key(c.identifier) ==> #[trigger] offset_of(after, k2) == offset_of(before, k2)
        },
    }
}

impl Database {
    /// Handles one request to the database worker: logging and reading
    /// leave the database as it is; an event or clock offset is recorded.
    pub fn handle_message(&mut self, message: MessageType) -> (action: DbAction)
        requires
            old(self).well_formed(),
            message is LogDB ==> log_ordered(*old(self)),
        ensures
            final(self).well_formed(),
            message_effect(*old(self), message, *final(self), action),
    {
        match message {
            MessageType::LogDB => DbAction::Log(self.log_lines()),
            MessageType::GetDB => DbAction::Respond,
            MessageType::SaveDB(path) => DbAction::Save(path),
            MessageType::Event(e) => match self.record_event(e) {
                Ok(()) => DbAction::Recorded,
                Err(err) => DbAction::Failed(err),
            },
            MessageType::TimeOffset(c) => {
                self.record_time_offset(c);
                DbAction::Recorded
            },
        }
    }
}

} // verus!

