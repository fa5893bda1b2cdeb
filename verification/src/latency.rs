//! Latency tests against input and output nodes: from one UDP ping, the
//! round-trip time and the receiver's clock offset; over many, their mean.
use vstd::prelude::*;
use vstd::string::*;
use crate::text;

verus! {

/// Why one ping of a latency test failed.
#[derive(Debug)]
pub struct LatencyTestError {
    pub kind: String,
    pub message: String,
}

/// The OS error code of a socket that timed out (`WSAETIMEDOUT`).
pub const TIMED_OUT_OS_ERROR: i32 = 10060;

impl LatencyTestError {
    /// The error for an I/O error with OS error code `raw_os_error` and
    /// text `message`: a timeout, or an I/O error that keeps its text.
    pub fn from_io_error(raw_os_error: i32, message: String) -> (e: LatencyTestError)
        ensures
            raw_os_error == TIMED_OUT_OS_ERROR ==> e.kind@ == "timeout"@
                && e.message@ == "Socket timed out while waiting for a response"@,
            raw_os_error != TIMED_OUT_OS_ERROR ==> e.kind@ == "io"@ && e.message == message,
    {
        if raw_os_error == TIMED_OUT_OS_ERROR {
            LatencyTestError {
                kind: text::string_of("timeout"),
                message: text::string_of("Socket timed out while waiting for a response"),
            }
        } else {
            LatencyTestError { kind: text::string_of("io"), message }
        }
    }

    /// The error for a failure to read the system time.
    pub fn from_time_error(message: String) -> (e: LatencyTestError)
        ensures
            e.kind@ == "time"@ && e.message == message,
    {
        LatencyTestError { kind: text::string_of("time"), message }
    }

    /// The error for a failure to find the local IP address.
    pub fn from_ip_error(message: String) -> (e: LatencyTestError)
        ensures
            e.kind@ == "ip"@ && e.message == message,
    {
        LatencyTestError { kind: text::string_of("ip"), message }
    }

    /// The text of the error, as its `Display` shows it.
    pub fn to_string(&self) -> (s: String)
        ensures
            s@ == "Latency test error ["@ + self.kind@ + "]: "@ + self.message@,
    {
        let mut s = text::string_of("Latency test error [");
        s.append(self.kind.as_str());
        s.append("]: ");
        s.append(self.message.as_str());
        s
    }
}

/// What a latency test measured, in microseconds.
#[derive(Debug, Clone, Copy)]
pub struct LatencyTestResult {
    pub receiver_time_offset: i128,
    pub round_trip_time: u64,
}

/// A span of time: whole seconds and the nanoseconds beyond them.
#[derive(Debug, Clone, Copy)]
pub struct Span {
    pub secs: u64,
    pub nanos: u32,
}

/// All nanoseconds of a span.
pub open spec fn total_nanos(s: Span) -> nat {
    s.secs as nat * 1_000_000_000 + s.nanos as nat
}

/// The number that the first `n` bytes of `b` denote, most significant
/// first.
pub open spec fn be_prefix_value(b: Seq<u8>, n: nat) -> nat
    decreases n,
{
    if n == 0 {
        0
    } else {
        be_prefix_value(b, (n - 1) as nat) * 256 + b[n - 1] as nat
    }
}

/// The number that the bytes `b` denote, most significant first.
pub open spec fn be_value(b: Seq<u8>) -> nat {
    be_prefix_value(b, b.len())
}

/// `u64::from_be_bytes`.
pub fn u64_from_be_bytes(bytes: [u8; 8]) -> (v: u64)
    ensures
        v == be_value(bytes@),
{
    proof {
        reveal_with_fuel(be_prefix_value, 9);
    }
    bytes[0] as u64 * 0x100_0000_0000_0000 + bytes[1] as u64 * 0x1_0000_0000_0000 + bytes[2] as u64 * 0x100_0000_0000
        + bytes[3] as u64 * 0x1_0000_0000 + bytes[4] as u64 * 0x100_0000 + bytes[5] as u64 * 0x1_0000
        + bytes[6] as u64 * 0x100 + bytes[7] as u64
}

/// The result of one ping sent at `start` (since the UNIX epoch), answered
/// after `elapsed` with the receiver's clock reading `receiver_micros`: the
/// round-trip time, and how far the receiver's clock runs ahead of the
/// sender's at the moment the ping arrived (half-way through the round
/// trip).
pub open spec fn ping_result(start: Span, elapsed: Span, receiver_micros: nat) -> (int, int) {
    let arrival_micros = (total_nanos(start) + total_nanos(elapsed) / 2) / 1000;
    (receiver_micros - arrival_micros, (total_nanos(elapsed) / 1000) as u64 as int)
}

/// Computes the result of one ping (see `ping_result`) from the eight bytes
/// of the receiver's answer.
pub fn evaluate_ping(start: Span, elapsed: Span, reply: [u8; 8]) -> (r: LatencyTestResult)
    requires
        start.nanos < 1_000_000_000,
        elapsed.nanos < 1_000_000_000,
    ensures
        r.receiver_time_offset == ping_result(start, elapsed, be_value(reply@)).0,
        r.round_trip_time == ping_result(start, elapsed, be_value(reply@)).1,
{
    let receiver = u64_from_be_bytes(reply);
    let start_nanos: u128 = start.secs as u128 * 1_000_000_000 + start.nanos as u128;
    let elapsed_nanos: u128 = elapsed.secs as u128 * 1_000_000_000 + elapsed.nanos as u128;
    let arrival_micros: u128 = (start_nanos + elapsed_nanos / 2) / 1000;
    let offset: i128 = receiver as i128 - arrival_micros as i128;
    let rtt: u64 = (elapsed_nanos / 1000) as u64;
    LatencyTestResult { receiver_time_offset: offset, round_trip_time: rtt }
}

/// The `replyTo` field of a ping: `<ip>:<port>`.
pub fn ping_reply_to(ip: &str, port: u16) -> (r: String)
    ensures
        r@ == ip@ + ":"@ + text::decimal(port as nat),
{
    let mut r = text::string_of(ip);
    r.append(":");
    let digits = text::u128_to_decimal(port as u128);
    r.append(digits.as_str());
    r
}

/// Division rounding toward zero, as Rust's `/` on signed integers does.
pub open spec fn div_toward_zero(a: int, b: int) -> int {
    if a >= 0 {
        a / b
    } else {
        -((-a) / b)
    }
}

/// The sum of the clock offsets of `results`.
pub open spec fn sum_offsets(results: Seq<LatencyTestResult>) -> int
    decreases results.len(),
{
    if results.len() == 0 {
        0
    } else {
        sum_offsets(results.drop_last()) + results.last().receiver_time_offset
    }
}

/// The sum of the round-trip times of `results`.
pub open spec fn sum_round_trips(results: Seq<LatencyTestResult>) -> int
    decreases results.len(),
{
    if results.len() == 0 {
        0
    } else {
        sum_round_trips(results.drop_last()) + results.last().round_trip_time
    }
}

/// The sums of every prefix of `results` fit the result's integer types.
pub open spec fn sums_fit(results: Seq<LatencyTestResult>) -> bool {
    forall|n: int| 0 <= n <= results.len() ==> {
        &&& i128::MIN <= #[trigger] sum_offsets(results.take(n)) <= i128::MAX
        &&& sum_round_trips(results.take(n)) <= u64::MAX
    }
}

/// The mean of the successful pings of a latency test (each average
/// rounded toward zero); zero for both when no ping succeeded.
pub fn average_results(results: &Vec<LatencyTestResult>) -> (r: LatencyTestResult)
    requires
        sums_fit(results@),
    ensures
        results@.len() == 0 ==> r.receiver_time_offset == 0 && r.round_trip_time == 0,
        results@.len() > 0 ==> r.receiver_time_offset == div_toward_zero(sum_offsets(results@), results@.len() as int)
            && r.round_trip_time == sum_round_trips(results@) / (results@.len() as int),
{
    let mut offset: i128 = 0;
    let mut rtt: u64 = 0;
    let mut count: u64 = 0;
    let mut i: usize = 0;
    while i < results.len()
        invariant
            i <= results@.len(),
            sums_fit(results@),
            count == i,
            offset == sum_offsets(results@.take(i as int)),
            rtt == sum_round_trips(results@.take(i as int)),
        decreases results.len() - i,
    {
        proof {
            assert(results@.take(i + 1).drop_last() =~= results@.take(i as int));
            assert(results@.take(i + 1).last() == results@[i as int]);
            assert(i128::MIN <= sum_offsets(results@.take(i + 1)) <= i128::MAX);
            assert(sum_round_trips(results@.take(i + 1)) <= u64::MAX);
        }
        offset = offset + results[i].receiver_time_offset;
        rtt = rtt + results[i].round_trip_time;
        count = count + 1;
        i = i + 1;
    }
    proof {
        assert(results@.take(results@.len() as int) =~= results@);
    }
    if count > 0 {
        offset = offset / (count as i128);
        rtt = rtt / count;
    }
    LatencyTestResult { receiver_time_offset: offset, round_trip_time: rtt }
}

/// Whether the sums that `average_results` builds fit (see `sums_fit`).
pub fn results_sums_fit(results: &Vec<LatencyTestResult>) -> (b: bool)
    ensures
        b == sums_fit(results@),
{
    let mut offset: i128 = 0;
    let mut rtt: u64 = 0;
    let mut i: usize = 0;
    proof {
        assert(results@.take(0) =~= Seq::<LatencyTestResult>::empty());
    }
    while i < results.len()
        invariant
            i <= results@.len(),
            offset == sum_offsets(results@.take(i as int)),
            rtt == sum_round_trips(results@.take(i as int)),
            forall|n: int| 0 <= n <= i ==> {
                &&& i128::MIN <= #[trigger] sum_offsets(results@.take(n)) <= i128::MAX
                &&& sum_round_trips(results@.take(n)) <= u64::MAX
            },
        decreases results.len() - i,
    {
        proof {
            assert(results@.take(i + 1).drop_last() =~= results@.take(i as int));
            assert(results@.take(i + 1).last() == results@[i as int]);
        }
        let next_offset = offset.checked_add(results[i].receiver_time_offset);
        let next_rtt = rtt.checked_add(results[i].round_trip_time);
        match (next_offset, next_rtt) {
            (Some(o), Some(r)) => {
                offset = o;
                rtt = r;
            },
            _ => {
                proof {
                    assert(!(i128::MIN <= sum_offsets(results@.take(i + 1)) <= i128::MAX
                        && sum_round_trips(results@.take(i + 1)) <= u64::MAX));
                }
                return false;
            },
        }
        i = i + 1;
    }
    proof {
        assert(results@.take(results@.len() as int) =~= results@);
    }
    true
}

} // verus!
