//! Properties of the library that span several functions.
use vstd::prelude::*;
use crate::text;
use crate::config;
use crate::flows;
use crate::flows::{Flow, FlowNodeResponse};
use crate::transfer;
use crate::analysis;
use crate::proxy;
use crate::latency;
use crate::latency::Span;
use crate::db;
use crate::db::{Database, DbAction, MessageType};

verus! {

/// A flow that carries the name of a transferred copy is never chosen to be
/// moved back: undoing all transfers only moves originals.
pub proof fn law_transferred_copies_are_not_moved_back(f: Flow, original: Seq<char>)
    requires
        f.name is Some,
        f.name->0@ == flows::transferred_name(original),
    ensures
        !analysis::is_candidate(f, true),
{
    reveal_strlit(" (transferred)");
    reveal_strlit("(transferred)");
    let n = f.name->0@;
    let suffix = "(transferred)"@;
    assert(n.subrange(n.len() - suffix.len(), n.len() as int) =~= suffix);
}

/// When the new node ids are all different, the nodes of the rewritten
/// flow have different ids.
pub proof fn law_rewritten_node_ids_distinct(
    old: Flow,
    new: Flow,
    new_ids: Seq<String>,
    area: Seq<char>,
    proxy_ip: Seq<char>,
    base: u16,
)
    requires
        transfer::rewritten_flow(old, new, new_ids, area, proxy_ip, base),
        new_ids.len() == old.nodes@.len(),
        forall|i: int, j: int| 0 <= i < new_ids.len() && 0 <= j < new_ids.len() && i != j
            ==> (#[trigger] new_ids[i])@ != (#[trigger] new_ids[j])@,
    ensures
        forall|i: int, j: int| 0 <= i < new.nodes@.len() && 0 <= j < new.nodes@.len() && i != j
            ==> (#[trigger] new.nodes@[i]).id@ != (#[trigger] new.nodes@[j]).id@,
{
    assert forall|i: int, j: int| 0 <= i < new.nodes@.len() && 0 <= j < new.nodes@.len() && i != j
        implies (#[trigger] new.nodes@[i]).id@ != (#[trigger] new.nodes@[j]).id@ by {
        assert(transfer::rewritten_node(old.nodes@[i], new.nodes@[i], old.nodes@, new_ids, i, area, proxy_ip, base));
        assert(transfer::rewritten_node(old.nodes@[j], new.nodes@[j], old.nodes@, new_ids, j, area, proxy_ip, base));
        assert(new_ids[i]@ != new_ids[j]@);
    }
}

/// Undoing a transfer deletes, at the proxy of the area, the very copy that
/// the transfer created there: the copy of flow `f` carries the name under
/// which the undoing of `f`'s transfer (`u`) deletes it.
pub proof fn law_untransfer_deletes_the_transferred_copy(
    f: Flow,
    copy: Flow,
    new_ids: Seq<String>,
    area: Seq<char>,
    proxy_ip: Seq<char>,
    base: u16,
    u: transfer::FlowUntransfer,
)
    requires
        transfer::rewritten_flow(f, copy, new_ids, area, proxy_ip, base),
        u.original_flow_name@ == transfer::original_name(f),
        u.transferred_flow_name@ == flows::transferred_name(u.original_flow_name@),
    ensures
        copy.name matches Some(name) && name@ == u.transferred_flow_name@,
        copy.id == f.id,
{
}

/// A message keeps its position in the port range: with a destination
/// port base divisible by 1000, the port it is sent to and the port it was
/// received on agree modulo 1000.
pub proof fn law_paired_port_keeps_position(reception_port: u16, destination_port_base: u16)
    requires
        destination_port_base % 1000 == 0,
        proxy::paired_port(reception_port, destination_port_base) is Some,
    ensures
        proxy::paired_port(reception_port, destination_port_base)->0 % 1000 == reception_port % 1000,
{
    let p = proxy::paired_port(reception_port, destination_port_base)->0;
    assert(p == destination_port_base + reception_port % 1000);
    assert((destination_port_base + reception_port % 1000) % 1000 == reception_port % 1000) by (nonlinear_arith)
        requires
            destination_port_base % 1000 == 0,
            destination_port_base >= 0,
    ;
}

/// A path gives the same URL with or without its leading slash.
pub proof fn law_url_leading_slash_optional(base_url: Seq<char>, path: Seq<char>)
    requires
        !text::starts_with_char(path, '/'),
    ensures
        config::url_for_path(base_url, seq!['/'] + path) == config::url_for_path(base_url, path),
{
    assert((seq!['/'] + path)[0] == '/');
    assert(base_url + (seq!['/'] + path) =~= base_url + seq!['/'] + path);
}

proof fn lemma_decimal_digits(n: nat)
    ensures
        text::decimal(n).len() > 0,
        text::all_digits(text::decimal(n)),
        text::digits_value(text::decimal(n)) == n,
        text::decimal(n)[0] != '+',
    decreases n,
{
    assert(text::digit_value(text::digit_char(n % 10)) == n % 10);
    if n >= 10 {
        lemma_decimal_digits(n / 10);
        assert(text::decimal(n).last() == text::digit_char(n % 10));
        assert(n == (n / 10) * 10 + n % 10);
        let d = text::decimal(n);
        assert(d.drop_last() =~= text::decimal(n / 10));
        assert forall|i: int| 0 <= i < d.len() implies text::is_digit(#[trigger] d[i]) by {
            if i < d.len() - 1 {
                assert(d[i] == text::decimal(n / 10)[i]);
            }
        }
        assert(d[0] == text::decimal(n / 10)[0]);
        assert(text::digits_value(d) == text::digits_value(text::decimal(n / 10)) * 10 + text::digit_value(d.last()));
    } else {
        assert(n % 10 == n);
        assert(text::decimal(n).drop_last() =~= Seq::<char>::empty());
        assert(text::digits_value(text::decimal(n)) == text::digits_value(Seq::<char>::empty()) * 10
            + text::digit_value(text::decimal(n).last()));
    }
}

/// A number written in decimal reads back as that number.
pub proof fn law_decimal_parses_back(n: nat, max: nat)
    requires
        n <= max,
    ensures
        text::parse_unsigned(text::decimal(n), max) == Some(n),
{
    lemma_decimal_digits(n);
}


/// The event log replays the messages: after an empty database has handled
/// `messages` one by one (`dbs[i]` before the `i`-th, `dbs[i + 1]` after
/// it), each key holds exactly the events of that key, in the order they
/// came, and no key is present but those of some event; logging, reading,
/// saving and clock offsets add none.
pub proof fn law_event_log_replays_messages(messages: Seq<MessageType>, dbs: Seq<Database>, actions: Seq<DbAction>)
    requires
        dbs.len() == messages.len() + 1,
        actions.len() == messages.len(),
        dbs[0].events@.len() == 0,
        forall|i: int| 0 <= i < messages.len() ==> db::message_effect(dbs[i], #[trigger] messages[i], dbs[i + 1], actions[i]),
        db::events_addressed(messages),
    ensures
        forall|key: Seq<char>| #[trigger] db::events_of(dbs.last(), key) == db::recorded_events(messages, key),
        forall|key: Seq<char>| #[trigger] db::has_key(dbs.last().events@, key) <==> db::recorded_events(messages, key).len() > 0,
    decreases messages.len(),
{
    if messages.len() == 0 {
        assert forall|key: Seq<char>| !#[trigger] db::has_key(dbs.last().events@, key) by {}
    } else {
        let n = messages.len() - 1;
        let prefix = messages.drop_last();
        let prev_dbs = dbs.drop_last();
        assert forall|i: int| 0 <= i < prefix.len() implies db::message_effect(prev_dbs[i], #[trigger] prefix[i], prev_dbs[i + 1], actions.drop_last()[i]) by {
            assert(prefix[i] == messages[i]);
        }
        assert forall|i: int| 0 <= i < prefix.len() implies match #[trigger] prefix[i] {
            MessageType::Event(e) => e.source is Some || e.destination is Some,
            _ => true,
        } by {
            assert(prefix[i] == messages[i]);
        }
        law_event_log_replays_messages(prefix, prev_dbs, actions.drop_last());
        let before = dbs[n];
        let after = dbs[n + 1];
        assert(prev_dbs.last() == before);
        assert(dbs.last() == after);
        assert(db::message_effect(before, messages[n], after, actions[n]));
        assert(messages.last() == messages[n]);
        match messages[n] {
            MessageType::Event(e) => {
                assert(e.source is Some || e.destination is Some);
            },
            _ => {},
        }
        assert forall|key: Seq<char>| #[trigger] db::events_of(after, key) == db::recorded_events(messages, key)
            && (db::has_key(after.events@, key) <==> db::recorded_events(messages, key).len() > 0) by {
            assert(db::events_of(before, key) == db::recorded_events(prefix, key));
            assert(db::has_key(before.events@, key) <==> db::recorded_events(prefix, key).len() > 0);
        }
    }
}


proof fn lemma_last_tab_is_tab(ns: Seq<FlowNodeResponse>, id: Seq<char>)
    ensures
        flows::last_tab_index(ns, id) < ns.len(),
        flows::last_tab_index(ns, id) >= 0 ==> ns[flows::last_tab_index(ns, id)]._type@ == "tab"@
            && ns[flows::last_tab_index(ns, id)].id@ == id,
    decreases ns.len(),
{
    reveal_strlit("tab");
    if ns.len() > 0 {
        lemma_last_tab_is_tab(ns.drop_last(), id);
    }
}

proof fn lemma_nodes_of_members(ns: Seq<FlowNodeResponse>, id: Seq<char>)
    ensures
        forall|j: int| 0 <= j < ns.len() && ns[j]._type@ != "tab"@ && ns[j].z is Some && ns[j].z->0@ == id
            ==> flows::nodes_of(ns, id).contains(#[trigger] ns[j]),
        forall|i: int| 0 <= i < flows::nodes_of(ns, id).len() ==> {
            let n = #[trigger] flows::nodes_of(ns, id)[i];
            n._type@ != "tab"@ && n.z is Some && n.z->0@ == id
        },
    decreases ns.len(),
{
    reveal_strlit("tab");
    if ns.len() > 0 {
        let prev = ns.drop_last();
        lemma_nodes_of_members(prev, id);
        let p = flows::nodes_of(prev, id);
        let all = flows::nodes_of(ns, id);
        assert forall|j: int| 0 <= j < ns.len() && ns[j]._type@ != "tab"@ && ns[j].z is Some && ns[j].z->0@ == id
            implies all.contains(#[trigger] ns[j]) by {
            if j < ns.len() - 1 {
                assert(prev[j] == ns[j]);
                assert(p.contains(ns[j]));
                let q = choose|q: int| 0 <= q < p.len() && p[q] == ns[j];
                if flows::belongs_to(ns.last(), id) {
                    assert(all[q] == p[q]);
                }
            } else {
                assert(all.last() == ns[j]);
            }
        }
        assert forall|i: int| 0 <= i < all.len() implies {
            let n = #[trigger] all[i];
            n._type@ != "tab"@ && n.z is Some && n.z->0@ == id
        } by {
            if flows::belongs_to(ns.last(), id) && i == all.len() - 1 {
            } else {
                assert(all[i] == p[i]);
            }
        }
    }
}

/// Grouping the answer `ns` of the flows API into flows `fs` (what
/// `convert_flows_response_to_flows` ensures) makes a flow of exactly the
/// nodes whose type is "tab": every flow has the id of such a node and
/// every such node has a flow. Every node of another type whose `z` names a
/// flow is among that flow's nodes, and a flow holds no other nodes.
pub proof fn law_flows_are_the_tabs(fs: Seq<Flow>, ns: Seq<FlowNodeResponse>)
    requires
        flows::groups_response(fs, ns),
    ensures
        forall|k: int| 0 <= k < fs.len() ==> exists|j: int|
            0 <= j < ns.len() && ns[j]._type@ == "tab"@ && (#[trigger] ns[j]).id@ == (#[trigger] fs[k]).id@,
        forall|j: int| 0 <= j < ns.len() && (#[trigger] ns[j])._type@ == "tab"@ ==> exists|k: int|
            0 <= k < fs.len() && (#[trigger] fs[k]).id@ == ns[j].id@,
        forall|j: int, k: int| 0 <= j < ns.len() && 0 <= k < fs.len() && ns[j]._type@ != "tab"@ && ns[j].z is Some
            && ns[j].z->0@ == fs[k].id@ ==> (#[trigger] fs[k]).nodes@.contains(#[trigger] ns[j]),
        forall|k: int, i: int| 0 <= k < fs.len() && 0 <= i < fs[k].nodes@.len() ==> {
            let n = #[trigger] fs[k].nodes@[i];
            n._type@ != "tab"@ && n.z is Some && n.z->0@ == fs[k].id@
        },
{
    reveal_strlit("tab");
    assert forall|k: int| 0 <= k < fs.len() implies exists|j: int|
        0 <= j < ns.len() && ns[j]._type@ == "tab"@ && (#[trigger] ns[j]).id@ == (#[trigger] fs[k]).id@ by {
        assert(flows::grouped_flow(fs[k], ns));
        lemma_last_tab_is_tab(ns, fs[k].id@);
        let t = flows::last_tab_index(ns, fs[k].id@);
        assert(ns[t].id@ == fs[k].id@);
    }
    assert forall|j: int| 0 <= j < ns.len() && (#[trigger] ns[j])._type@ == "tab"@ implies exists|k: int|
        0 <= k < fs.len() && (#[trigger] fs[k]).id@ == ns[j].id@ by {
        assert(flows::is_tab(ns[j]));
    }
    assert forall|j: int, k: int| 0 <= j < ns.len() && 0 <= k < fs.len() && ns[j]._type@ != "tab"@ && ns[j].z is Some
        && ns[j].z->0@ == fs[k].id@ implies (#[trigger] fs[k]).nodes@.contains(#[trigger] ns[j]) by {
        assert(flows::grouped_flow(fs[k], ns));
        lemma_nodes_of_members(ns, fs[k].id@);
    }
    assert forall|k: int, i: int| 0 <= k < fs.len() && 0 <= i < fs[k].nodes@.len() implies {
        let n = #[trigger] fs[k].nodes@[i];
        n._type@ != "tab"@ && n.z is Some && n.z->0@ == fs[k].id@
    } by {
        assert(flows::grouped_flow(fs[k], ns));
        lemma_nodes_of_members(ns, fs[k].id@);
        assert(fs[k].nodes@[i] == flows::nodes_of(ns, fs[k].id@)[i]);
    }
}


proof fn lemma_chosen_indices(fs: Seq<Flow>, config: config::Config, back: bool, n: int)
    requires
        0 <= n <= fs.len(),
    ensures
        forall|j: int| 0 <= j < analysis::chosen_indices(fs, config, back, n).len() ==> {
            let c = #[trigger] analysis::chosen_indices(fs, config, back, n)[j];
            0 <= c < n && analysis::is_chosen(fs[c], config, back)
        },
        forall|a: int, b: int| 0 <= a < b < analysis::chosen_indices(fs, config, back, n).len()
            ==> #[trigger] analysis::chosen_indices(fs, config, back, n)[a] < #[trigger] analysis::chosen_indices(fs, config, back, n)[b],
        forall|k: int| 0 <= k < n && analysis::is_chosen(#[trigger] fs[k], config, back)
            ==> analysis::chosen_indices(fs, config, back, n).contains(k),
    decreases n,
{
    if n > 0 {
        lemma_chosen_indices(fs, config, back, n - 1);
        let prev = analysis::chosen_indices(fs, config, back, n - 1);
        let cur = analysis::chosen_indices(fs, config, back, n);
        if analysis::is_chosen(fs[n - 1], config, back) {
            assert(cur == prev.push(n - 1));
            assert forall|k: int| 0 <= k < n && analysis::is_chosen(#[trigger] fs[k], config, back)
                implies cur.contains(k) by {
                if k < n - 1 {
                    let q = choose|q: int| 0 <= q < prev.len() && prev[q] == k;
                    assert(cur[q] == k);
                } else {
                    assert(cur[prev.len() as int] == k);
                }
            }
            assert forall|j: int| 0 <= j < cur.len() implies {
                let c = #[trigger] cur[j];
                0 <= c < n && analysis::is_chosen(fs[c], config, back)
            } by {
                if j < prev.len() {
                    assert(cur[j] == prev[j]);
                }
            }
            assert forall|a: int, b: int| 0 <= a < b < cur.len() implies #[trigger] cur[a] < #[trigger] cur[b] by {
                assert(cur[a] == prev[a]);
                if b < prev.len() {
                    assert(cur[b] == prev[b]);
                }
            }
        }
    }
}

/// Which flows an analysis plans to move, by their index `k` in `fs` (the
/// moves of `plan_flow_moves` are those of `chosen_indices`, in this
/// order): exactly the flows whose input and output areas are present,
/// equal, other than "base" and among the configured areas, and which are
/// enabled when moving out (`back` false), or disabled and not themselves a
/// transferred copy when moving back (`back` true). The chosen flows keep
/// their order.
pub proof fn law_chosen_flows_serve_one_area(fs: Seq<Flow>, config: config::Config, back: bool)
    ensures
        forall|j: int| 0 <= j < analysis::chosen_indices(fs, config, back, fs.len() as int).len() ==> {
            let k = #[trigger] analysis::chosen_indices(fs, config, back, fs.len() as int)[j];
            &&& 0 <= k < fs.len()
            &&& fs[k].input_area is Some && fs[k].output_area is Some
            &&& fs[k].input_area->0@ == fs[k].output_area->0@
            &&& fs[k].input_area->0@ != "base"@
            &&& config.areas is Some && config::has_area_named(config.areas, fs[k].input_area->0@)
            &&& fs[k].disabled == back
            &&& back ==> !text::ends_with(
                match fs[k].name {
                    Some(n) => n@,
                    None => Seq::empty(),
                },
                "(transferred)"@,
            )
        },
        forall|a: int, b: int| 0 <= a < b < analysis::chosen_indices(fs, config, back, fs.len() as int).len()
            ==> #[trigger] analysis::chosen_indices(fs, config, back, fs.len() as int)[a]
                < #[trigger] analysis::chosen_indices(fs, config, back, fs.len() as int)[b],
        forall|k: int| 0 <= k < fs.len() && (#[trigger] fs[k]).input_area is Some && fs[k].output_area is Some
            && fs[k].input_area->0@ == fs[k].output_area->0@ && fs[k].input_area->0@ != "base"@
            && config::has_area_named(config.areas, fs[k].input_area->0@) && fs[k].disabled == back
            && (back ==> !text::ends_with(
                match fs[k].name {
                    Some(n) => n@,
                    None => Seq::empty(),
                },
                "(transferred)"@,
            ))
            ==> analysis::chosen_indices(fs, config, back, fs.len() as int).contains(k),
{
    lemma_chosen_indices(fs, config, back, fs.len() as int);
    let chosen = analysis::chosen_indices(fs, config, back, fs.len() as int);
    assert forall|j: int| 0 <= j < chosen.len() implies {
        let k = #[trigger] chosen[j];
        &&& 0 <= k < fs.len()
        &&& fs[k].input_area is Some && fs[k].output_area is Some
        &&& fs[k].input_area->0@ == fs[k].output_area->0@
        &&& fs[k].input_area->0@ != "base"@
        &&& config.areas is Some && config::has_area_named(config.areas, fs[k].input_area->0@)
        &&& fs[k].disabled == back
        &&& back ==> !text::ends_with(
            match fs[k].name {
                Some(n) => n@,
                None => Seq::empty(),
            },
            "(transferred)"@,
        )
    } by {
        let k = chosen[j];
        assert(analysis::is_chosen(fs[k], config, back));
    }
}


/// The clock offset of a ping is the receiver's reading minus the moment,
/// in whole microseconds since the epoch, half-way through the round trip,
/// counted from the whole start time (seconds and nanoseconds); the
/// round-trip time is the elapsed time in whole microseconds.
pub proof fn law_ping_offset_counts_whole_start(start: Span, elapsed: Span, receiver_micros: nat)
    ensures
        latency::ping_result(start, elapsed, receiver_micros).0 == receiver_micros
            - (start.secs * 1_000_000_000 + start.nanos + (elapsed.secs * 1_000_000_000 + elapsed.nanos) / 2) / 1000,
        elapsed.secs * 1_000_000 + elapsed.nanos / 1000 <= u64::MAX ==>
            latency::ping_result(start, elapsed, receiver_micros).1 == elapsed.secs * 1_000_000 + elapsed.nanos / 1000,
{
    let e = elapsed.secs * 1_000_000_000 + elapsed.nanos;
    assert(e / 1000 == elapsed.secs * 1_000_000 + elapsed.nanos / 1000) by (nonlinear_arith)
        requires
            e == elapsed.secs * 1_000_000_000 + elapsed.nanos,
            elapsed.nanos >= 0,
            elapsed.secs >= 0,
    ;
}

/// A ping sent `d` microseconds later (within the same second), answered
/// with the same reading after the same time, shows an offset smaller by
/// `d`.
pub proof fn law_later_start_smaller_offset(start: Span, elapsed: Span, receiver_micros: nat, d: nat)
    requires
        start.nanos + 1000 * d < 1_000_000_000,
    ensures
        latency::ping_result(Span { nanos: (start.nanos + 1000 * d) as u32, ..start }, elapsed, receiver_micros).0
            == latency::ping_result(start, elapsed, receiver_micros).0 - d,
{
    let later = Span { nanos: (start.nanos + 1000 * d) as u32, ..start };
    let x = latency::total_nanos(start) + latency::total_nanos(elapsed) / 2;
    assert(latency::total_nanos(later) == latency::total_nanos(start) + 1000 * d);
    assert((x + 1000 * d) / 1000 == x / 1000 + d) by (nonlinear_arith)
        requires
            x >= 0,
            d >= 0,
    ;
}

} // verus!
