//! What the event counters count: each notification in terms of what it says, and what the metrics show
//! of it.

use crate::channels::count_lines;
use crate::event_metrics::{
    bound_text, events_lines, flow_lines, flows_lines, histogram_lines, notification_lines,
    pair_lines, payment_lines, peer_lines, peers_lines,
};
use crate::events::{
    after_notification, bounded_incremented, bounded_key, can_count, flow_of, has_bounded_room,
    has_room_for, no_observations, observed, with_connected, with_disconnected, with_received,
    with_sent, LATENCY_BUCKETS, CountersView, ForwardingFlow, HistogramView, PeerConnection,
};
use crate::exposition::{LineView, ValueView};
use crate::gauges::{lemma_pair_is_shown, unlabelled};
use crate::json::Json;
use crate::node::optional_line;
use crate::ordered::{
    ascending, law_put_then_get, law_remove_then_get, value_of, with_value, Entries,
};
use crate::readings::{
    lemma_count_is_shown, lemma_incremented_counts, lemma_joined, says, says_share,
};
use crate::text::decimal;
use vstd::prelude::*;

verus! {

/// The count of a key.
pub open spec fn count_at(entries: Entries<u64>, key: Seq<Seq<char>>) -> int {
    match value_of(entries, key) {
        Some(count) => count as int,
        None => 0,
    }
}

/// Whether one more was counted, and nothing else: of the key if it is known or there is room for it, and
/// of the key for all others if not.
pub open spec fn counts_one(
    before: Entries<u64>,
    after: Entries<u64>,
    key: Seq<Seq<char>>,
    others: Seq<Seq<char>>,
) -> bool {
    let own = if value_of(before, key) is Some || before.len() < 128 {
        key
    } else {
        others
    };
    &&& count_at(after, own) == count_at(before, own) + 1
    &&& forall|other: Seq<Seq<char>>|
        other != own ==> #[trigger] count_at(after, other) == count_at(before, other)
}

/// Whether there is still room to count one more.
pub open spec fn can_grow(
    entries: Entries<u64>,
    key: Seq<Seq<char>>,
    others: Seq<Seq<char>>,
) -> bool {
    ascending(entries) && count_at(entries, key) < u64::MAX && count_at(entries, others) < u64::MAX
}

proof fn lemma_counts_one(entries: Entries<u64>, key: Seq<Seq<char>>, others: Seq<Seq<char>>)
    requires
        can_grow(entries, key, others),
    ensures
        counts_one(entries, bounded_incremented(entries, key, others), key, others),
{
    let own = bounded_key(entries, key, others);
    let after = bounded_incremented(entries, key, others);
    lemma_incremented_counts(entries, own, own);
    assert forall|other: Seq<Seq<char>>| other != own implies #[trigger] count_at(after, other)
        == count_at(entries, other) by {
        lemma_incremented_counts(entries, own, other);
    }
}

/// What tells the topics apart.
proof fn lemma_topics_differ()
    ensures
        "warning"@.len() == 7,
        "warning"@[0] == 'w',
        "connect"@.len() == 7,
        "connect"@[0] == 'c',
        "plugin_started"@.len() == 14,
        "plugin_started"@[9] == 'a',
        "plugin_stopped"@.len() == 14,
        "plugin_stopped"@[9] == 'o',
        "channel_state_changed"@.len() == 21,
        "forward_event"@.len() == 13,
        "forward_event"@[0] == 'f',
        "coin_movement"@.len() == 13,
        "coin_movement"@[0] == 'c',
        "block_added"@.len() == 11,
        "disconnect"@.len() == 10,
        "invoice_creation"@.len() == 16,
        "invoice_payment"@.len() == 15,
        "invoice_payment"@[0] == 'i',
        "sendpay_success"@.len() == 15,
        "sendpay_success"@[0] == 's',
        "sendpay_success"@[9] == 'u',
        "sendpay_failure"@.len() == 15,
        "sendpay_failure"@[0] == 's',
        "sendpay_failure"@[9] == 'a',
{
    reveal_strlit("warning");
    reveal_strlit("connect");
    reveal_strlit("plugin_started");
    reveal_strlit("plugin_stopped");
    reveal_strlit("channel_state_changed");
    reveal_strlit("forward_event");
    reveal_strlit("coin_movement");
    reveal_strlit("block_added");
    reveal_strlit("disconnect");
    reveal_strlit("invoice_creation");
    reveal_strlit("invoice_payment");
    reveal_strlit("sendpay_success");
    reveal_strlit("sendpay_failure");
}

/// Whether all counts stayed as they were, but for the notifications and those of one topic.
pub open spec fn others_stay(before: CountersView, after: CountersView, topic: Seq<char>) -> bool {
    &&& topic != "warning"@ ==> after.warnings == before.warnings
    &&& topic != "plugin_started"@ && topic != "plugin_stopped"@ ==> after.plugin_events
        == before.plugin_events
    &&& topic != "channel_state_changed"@ ==> after.channel_transitions
        == before.channel_transitions
    &&& topic != "forward_event"@ ==> after.forwards == before.forwards
        && after.forwarding_channels == before.forwarding_channels
    &&& topic != "coin_movement"@ ==> after.coin_movements == before.coin_movements
    &&& topic != "block_added"@ ==> after.latest_block_height == before.latest_block_height
        && after.latest_block_time == before.latest_block_time
    &&& topic != "connect"@ && topic != "disconnect"@ ==> after.peers == before.peers
    &&& topic != "invoice_creation"@ && topic != "invoice_payment"@ ==> after.invoice_events
        == before.invoice_events && after.invoice_created_at == before.invoice_created_at
    &&& topic != "invoice_payment"@ ==> after.invoice_latency == before.invoice_latency
    &&& topic != "sendpay_success"@ && topic != "sendpay_failure"@ ==> after.sendpay_events
        == before.sendpay_events && after.sendpay_latency == before.sendpay_latency
}

/// Every notification is counted once by its topic, and changes no counts but those of its topic.
pub proof fn law_notifications_are_counted_by_topic(
    c: CountersView,
    topic: Seq<char>,
    body: Json,
    now: u64,
)
    requires
        can_grow(c.notifications, seq![topic], seq!["other"@]),
    ensures
        counts_one(
            c.notifications,
            after_notification(c, topic, body, now).notifications,
            seq![topic],
            seq!["other"@],
        ),
        others_stay(c, after_notification(c, topic, body, now), topic),
{
    lemma_counts_one(c.notifications, seq![topic], seq!["other"@]);
    lemma_topics_differ();
}

/// Warnings are counted by level and source, plugins by what they did, changes of channels by the new
/// state and the cause, forwards by their status, and movements of coins by type and tag.
pub proof fn law_notifications_are_counted_by_what_they_say(c: CountersView, body: Json, now: u64)
    ensures
        can_grow(
            c.warnings,
            seq![body.text_or("level"@, "unknown"@), body.text_or("source"@, "unknown"@)],
            seq!["unknown"@, "other"@],
        ) ==> counts_one(
            c.warnings,
            after_notification(c, "warning"@, body, now).warnings,
            seq![body.text_or("level"@, "unknown"@), body.text_or("source"@, "unknown"@)],
            seq!["unknown"@, "other"@],
        ),
        can_grow(
            c.plugin_events,
            seq![body.text_or("plugin_name"@, "unknown"@), "started"@],
            seq!["other"@, "unknown"@],
        ) ==> counts_one(
            c.plugin_events,
            after_notification(c, "plugin_started"@, body, now).plugin_events,
            seq![body.text_or("plugin_name"@, "unknown"@), "started"@],
            seq!["other"@, "unknown"@],
        ),
        can_grow(
            c.plugin_events,
            seq![body.text_or("plugin_name"@, "unknown"@), "stopped"@],
            seq!["other"@, "unknown"@],
        ) ==> counts_one(
            c.plugin_events,
            after_notification(c, "plugin_stopped"@, body, now).plugin_events,
            seq![body.text_or("plugin_name"@, "unknown"@), "stopped"@],
            seq!["other"@, "unknown"@],
        ),
        can_grow(
            c.channel_transitions,
            seq![body.text_or("new_state"@, "unknown"@), body.text_or("cause"@, "unknown"@)],
            seq!["other"@, "unknown"@],
        ) ==> counts_one(
            c.channel_transitions,
            after_notification(c, "channel_state_changed"@, body, now).channel_transitions,
            seq![body.text_or("new_state"@, "unknown"@), body.text_or("cause"@, "unknown"@)],
            seq!["other"@, "unknown"@],
        ),
        can_grow(c.forwards, seq![body.text_or("status"@, "unknown"@)], seq!["other"@])
            ==> counts_one(
            c.forwards,
            after_notification(c, "forward_event"@, body, now).forwards,
            seq![body.text_or("status"@, "unknown"@)],
            seq!["other"@],
        ),
        can_grow(
            c.coin_movements,
            seq![body.text_or("type"@, "unknown"@), body.text_or("primary_tag"@, "unknown"@)],
            seq!["other"@, "other"@],
        ) ==> counts_one(
            c.coin_movements,
            after_notification(c, "coin_movement"@, body, now).coin_movements,
            seq![body.text_or("type"@, "unknown"@), body.text_or("primary_tag"@, "unknown"@)],
            seq!["other"@, "other"@],
        ),
{
    lemma_topics_differ();
    let warning = seq![body.text_or("level"@, "unknown"@), body.text_or("source"@, "unknown"@)];
    if can_grow(c.warnings, warning, seq!["unknown"@, "other"@]) {
        lemma_counts_one(c.warnings, warning, seq!["unknown"@, "other"@]);
    }
    let started = seq![body.text_or("plugin_name"@, "unknown"@), "started"@];
    if can_grow(c.plugin_events, started, seq!["other"@, "unknown"@]) {
        lemma_counts_one(c.plugin_events, started, seq!["other"@, "unknown"@]);
    }
    let stopped = seq![body.text_or("plugin_name"@, "unknown"@), "stopped"@];
    if can_grow(c.plugin_events, stopped, seq!["other"@, "unknown"@]) {
        lemma_counts_one(c.plugin_events, stopped, seq!["other"@, "unknown"@]);
    }
    let change = seq![body.text_or("new_state"@, "unknown"@), body.text_or("cause"@, "unknown"@)];
    if can_grow(c.channel_transitions, change, seq!["other"@, "unknown"@]) {
        lemma_counts_one(c.channel_transitions, change, seq!["other"@, "unknown"@]);
    }
    let status = seq![body.text_or("status"@, "unknown"@)];
    if can_grow(c.forwards, status, seq!["other"@]) {
        lemma_counts_one(c.forwards, status, seq!["other"@]);
    }
    let movement = seq![body.text_or("type"@, "unknown"@), body.text_or("primary_tag"@, "unknown"@)];
    if can_grow(c.coin_movements, movement, seq!["other"@, "other"@]) {
        lemma_counts_one(c.coin_movements, movement, seq!["other"@, "other"@]);
    }
}

/// Whether a number grew by an amount, as far as it can.
pub open spec fn grew(before: u64, after: u64, amount: int) -> bool {
    &&& before + amount <= u64::MAX ==> after == before + amount
    &&& before + amount > u64::MAX ==> after == u64::MAX
}

/// What was received, sent and earned through a channel so far.
pub open spec fn traffic(c: CountersView, channel: Seq<char>) -> ForwardingFlow {
    match value_of(c.forwarding_channels, seq![channel]) {
        Some(flow) => flow,
        None => ForwardingFlow { received_msat: 0, sent_msat: 0, fees_msat: 0 },
    }
}

proof fn lemma_received(
    flows: Entries<ForwardingFlow>,
    channel: Seq<char>,
    amount: u64,
    fee: u64,
    other: Seq<char>,
)
    requires
        ascending(flows),
        flows.len() < 128,
    ensures
        ({
            let after = with_received(flows, channel, amount, fee);
            &&& ascending(after)
            &&& after.len() <= flows.len() + 1
            &&& grew(
                flow_of(flows, channel).received_msat,
                flow_of(after, channel).received_msat,
                amount as int,
            )
            &&& grew(
                flow_of(flows, channel).fees_msat,
                flow_of(after, channel).fees_msat,
                fee as int,
            )
            &&& flow_of(after, channel).sent_msat == flow_of(flows, channel).sent_msat
            &&& other != channel ==> flow_of(after, other) == flow_of(flows, other)
        }),
{
    let after = with_received(flows, channel, amount, fee);
    let flow = flow_of(after, channel);
    crate::ordered::lemma_place_of(flows, seq![channel]);
    let value = after[crate::ordered::place_of(flows, seq![channel])].1;
    assert(after == with_value(flows, seq![channel], value));
    law_put_then_get(flows, seq![channel], value, seq![other]);
    if other != channel {
        assert(seq![other][0] != seq![channel][0]);
    }
}

proof fn lemma_sent(flows: Entries<ForwardingFlow>, channel: Seq<char>, amount: u64, other: Seq<char>)
    requires
        ascending(flows),
        flows.len() < 128,
    ensures
        ({
            let after = with_sent(flows, channel, amount);
            &&& channel != "unknown"@ ==> {
                &&& grew(
                    flow_of(flows, channel).sent_msat,
                    flow_of(after, channel).sent_msat,
                    amount as int,
                )
                &&& flow_of(after, channel).received_msat == flow_of(flows, channel).received_msat
                &&& flow_of(after, channel).fees_msat == flow_of(flows, channel).fees_msat
            }
            &&& channel == "unknown"@ ==> after == flows
            &&& other != channel ==> flow_of(after, other) == flow_of(flows, other)
        }),
{
    if channel != "unknown"@ {
        let after = with_sent(flows, channel, amount);
        crate::ordered::lemma_place_of(flows, seq![channel]);
        let value = after[crate::ordered::place_of(flows, seq![channel])].1;
        assert(after == with_value(flows, seq![channel], value));
        law_put_then_get(flows, seq![channel], value, seq![other]);
        if other != channel {
            assert(seq![other][0] != seq![channel][0]);
        }
    }
}

/// A forward that settled adds what came in and its fee to what was received and earned through the
/// channel it came in by, and what went out to what was sent through the channel it went out by. A
/// forward that did not settle adds nothing.
pub proof fn law_settled_forwards_are_added_up(
    c: CountersView,
    body: Json,
    now: u64,
    other: Seq<char>,
)
    requires
        ascending(c.forwarding_channels),
        c.forwarding_channels.len() < 127,
    ensures
        ({
            let after = after_notification(c, "forward_event"@, body, now);
            let from = body.text_or("in_channel"@, "unknown"@);
            let to = body.text_or("out_channel"@, "unknown"@);
            &&& body.text_or("status"@, "unknown"@) != "settled"@ ==> after.forwarding_channels
                == c.forwarding_channels
            &&& body.text_or("status"@, "unknown"@) == "settled"@ ==> {
                &&& grew(
                    traffic(c, from).received_msat,
                    traffic(after, from).received_msat,
                    body.millisatoshi_or_zero("in_msat"@) as int,
                )
                &&& grew(
                    traffic(c, from).fees_msat,
                    traffic(after, from).fees_msat,
                    body.millisatoshi_or_zero("fee_msat"@) as int,
                )
                &&& to != "unknown"@ ==> grew(
                    traffic(c, to).sent_msat,
                    traffic(after, to).sent_msat,
                    body.millisatoshi_or_zero("out_msat"@) as int,
                )
                &&& other != to || to == "unknown"@ ==> traffic(after, other).sent_msat == traffic(
                    c,
                    other,
                ).sent_msat
                &&& other != from ==> traffic(after, other).received_msat == traffic(
                    c,
                    other,
                ).received_msat && traffic(after, other).fees_msat == traffic(c, other).fees_msat
            }
        }),
{
    lemma_topics_differ();
    let from = body.text_or("in_channel"@, "unknown"@);
    let to = body.text_or("out_channel"@, "unknown"@);
    let received = body.millisatoshi_or_zero("in_msat"@);
    let fee = body.millisatoshi_or_zero("fee_msat"@);
    let sent = body.millisatoshi_or_zero("out_msat"@);
    let middle = with_received(c.forwarding_channels, from, received, fee);
    lemma_received(c.forwarding_channels, from, received, fee, other);
    lemma_received(c.forwarding_channels, from, received, fee, to);
    lemma_sent(middle, to, sent, other);
    lemma_sent(middle, to, sent, from);
}

/// What is known of the connection to a peer.
pub open spec fn link(c: CountersView, peer: Seq<char>) -> PeerConnection {
    match value_of(c.peers, seq![peer]) {
        Some(connection) => connection,
        None => PeerConnection {
            connected_since: None,
            connected_seconds_total: 0,
            connects: 0,
            disconnects: 0,
        },
    }
}

proof fn lemma_link(
    peers: Entries<PeerConnection>,
    peer: Seq<char>,
    value: PeerConnection,
    other: Seq<char>,
)
    requires
        ascending(peers),
    ensures
        ascending(with_value(peers, seq![peer], value)),
        value_of(with_value(peers, seq![peer], value), seq![peer]) == Some(value),
        other != peer ==> value_of(with_value(peers, seq![peer], value), seq![other]) == value_of(
            peers,
            seq![other],
        ),
{
    law_put_then_get(peers, seq![peer], value, seq![other]);
    if other != peer {
        assert(seq![other][0] != seq![peer][0]);
    }
}

/// Whether a peer is known or there is room for one more.
pub open spec fn is_tracked(c: CountersView, peer: Seq<char>) -> bool {
    ascending(c.peers) && (c.peers.len() < 2048 || value_of(c.peers, seq![peer]) is Some)
}

/// A peer that connects is counted, and is connected since then if it was not before. A peer that
/// disconnects is counted, is connected no more, and the time since it connected is added to the time
/// that it was connected. Other peers stay as they are.
pub proof fn law_connections_are_timed(c: CountersView, body: Json, now: u64, other: Seq<char>)
    requires
        is_tracked(c, body.text_or("id"@, "unknown"@)),
    ensures
        ({
            let peer = body.text_or("id"@, "unknown"@);
            let before = link(c, peer);
            let up = link(after_notification(c, "connect"@, body, now), peer);
            let down = link(after_notification(c, "disconnect"@, body, now), peer);
            &&& grew(before.connects, up.connects, 1)
            &&& up.disconnects == before.disconnects
            &&& up.connected_seconds_total == before.connected_seconds_total
            &&& before.connected_since is None ==> up.connected_since == Some(now)
            &&& before.connected_since is Some ==> up.connected_since == before.connected_since
            &&& grew(before.disconnects, down.disconnects, 1)
            &&& down.connects == before.connects
            &&& down.connected_since is None
            &&& before.connected_since is None ==> down.connected_seconds_total
                == before.connected_seconds_total
            &&& before.connected_since matches Some(since) ==> {
                &&& since <= now ==> grew(
                    before.connected_seconds_total,
                    down.connected_seconds_total,
                    now - since,
                )
                &&& since > now ==> down.connected_seconds_total == before.connected_seconds_total
            }
            &&& other != peer ==> {
                &&& link(after_notification(c, "connect"@, body, now), other) == link(c, other)
                &&& link(after_notification(c, "disconnect"@, body, now), other) == link(c, other)
            }
        }),
{
    lemma_topics_differ();
    let peer = body.text_or("id"@, "unknown"@);
    let up = with_connected(c.peers, peer, now);
    let down = with_disconnected(c.peers, peer, now);
    crate::ordered::lemma_place_of(c.peers, seq![peer]);
    let at = crate::ordered::place_of(c.peers, seq![peer]);
    assert(up == with_value(c.peers, seq![peer], up[at].1));
    assert(down == with_value(c.peers, seq![peer], down[at].1));
    lemma_link(c.peers, peer, up[at].1, other);
    lemma_link(c.peers, peer, down[at].1, other);
}

/// A new block is noted with its height and the time it was heard of.
pub proof fn law_blocks_are_noted(c: CountersView, body: Json, now: u64)
    ensures
        ({
            let after = after_notification(c, "block_added"@, body, now);
            &&& after.latest_block_height == body.unsigned_at("height"@)
            &&& after.latest_block_time == Some(now)
        }),
{
    lemma_topics_differ();
}

/// Whether a time was added to a histogram: counted in every bucket that it fits in and in all, and
/// added to the sum.
pub open spec fn times_one(before: HistogramView, after: HistogramView, seconds: int) -> bool {
    &&& after.buckets.len() == 9
    &&& grew(before.buckets[0], after.buckets[0], if seconds <= 1 { 1 } else { 0 })
    &&& grew(before.buckets[1], after.buckets[1], if seconds <= 5 { 1 } else { 0 })
    &&& grew(before.buckets[2], after.buckets[2], if seconds <= 10 { 1 } else { 0 })
    &&& grew(before.buckets[3], after.buckets[3], if seconds <= 30 { 1 } else { 0 })
    &&& grew(before.buckets[4], after.buckets[4], if seconds <= 60 { 1 } else { 0 })
    &&& grew(before.buckets[5], after.buckets[5], if seconds <= 300 { 1 } else { 0 })
    &&& grew(before.buckets[6], after.buckets[6], if seconds <= 900 { 1 } else { 0 })
    &&& grew(before.buckets[7], after.buckets[7], if seconds <= 3600 { 1 } else { 0 })
    &&& grew(before.buckets[8], after.buckets[8], 1)
    &&& grew(before.count, after.count, 1)
    &&& grew(before.sum_seconds, after.sum_seconds, seconds)
}

/// A time is counted in the buckets that it fits in.
pub proof fn law_times_are_counted_in_buckets(histogram: HistogramView, seconds: u64)
    requires
        histogram.buckets.len() == 9,
    ensures
        times_one(histogram, observed(histogram, seconds), seconds as int),
{
}

/// The time that passed from one moment to another, or none.
pub open spec fn passed(from: u64, to: u64) -> int {
    if from <= to {
        to - from
    } else {
        0
    }
}

/// An invoice that is made is counted and remembered with its time if it is known or there is room. An
/// invoice that is paid is counted and forgotten, and the time since it was made is put on record if it
/// is known.
pub proof fn law_payments_of_invoices_are_timed(c: CountersView, body: Json, now: u64)
    requires
        ascending(c.invoice_events),
        ascending(c.invoice_created_at),
        c.invoice_latency.buckets.len() == 9,
        count_at(c.invoice_events, seq!["created"@]) < u64::MAX,
        count_at(c.invoice_events, seq!["paid"@]) < u64::MAX,
    ensures
        ({
            let label = seq![body.text_or("label"@, "unknown"@)];
            let made = after_notification(c, "invoice_creation"@, body, now);
            let paid = after_notification(c, "invoice_payment"@, body, now);
            &&& count_at(made.invoice_events, seq!["created"@]) == count_at(
                c.invoice_events,
                seq!["created"@],
            ) + 1
            &&& count_at(paid.invoice_events, seq!["paid"@]) == count_at(
                c.invoice_events,
                seq!["paid"@],
            ) + 1
            &&& count_at(made.invoice_events, seq!["paid"@]) == count_at(
                c.invoice_events,
                seq!["paid"@],
            )
            &&& count_at(paid.invoice_events, seq!["created"@]) == count_at(
                c.invoice_events,
                seq!["created"@],
            )
            &&& c.invoice_created_at.len() < 4096 || value_of(c.invoice_created_at, label) is Some
                ==> value_of(made.invoice_created_at, label) == Some(now)
            &&& c.invoice_created_at.len() >= 4096 && value_of(c.invoice_created_at, label) is None
                ==> made.invoice_created_at == c.invoice_created_at
            &&& value_of(paid.invoice_created_at, label) is None
            &&& forall|other: Seq<Seq<char>>|
                other != label ==> #[trigger] value_of(paid.invoice_created_at, other) == value_of(
                    c.invoice_created_at,
                    other,
                ) && value_of(made.invoice_created_at, other) == value_of(
                    c.invoice_created_at,
                    other,
                )
            &&& value_of(c.invoice_created_at, label) matches Some(since) ==> times_one(
                c.invoice_latency,
                paid.invoice_latency,
                passed(since, now),
            )
            &&& value_of(c.invoice_created_at, label) is None ==> paid.invoice_latency
                == c.invoice_latency
        }),
{
    lemma_topics_differ();
    let label = seq![body.text_or("label"@, "unknown"@)];
    let made = after_notification(c, "invoice_creation"@, body, now);
    let paid = after_notification(c, "invoice_payment"@, body, now);
    assert(seq!["created"@] != seq!["paid"@]) by {
        reveal_strlit("created");
        reveal_strlit("paid");
        assert("created"@.len() == 7);
        assert("paid"@.len() == 4);
        assert(seq!["created"@][0] != seq!["paid"@][0]);
    }
    lemma_incremented_counts(c.invoice_events, seq!["created"@], seq!["paid"@]);
    lemma_incremented_counts(c.invoice_events, seq!["paid"@], seq!["created"@]);
    law_put_then_get(c.invoice_created_at, label, now, label);
    law_remove_then_get(c.invoice_created_at, label, label);
    assert forall|other: Seq<Seq<char>>| other != label implies #[trigger] value_of(
        paid.invoice_created_at,
        other,
    ) == value_of(c.invoice_created_at, other) && value_of(made.invoice_created_at, other)
        == value_of(c.invoice_created_at, other) by {
        law_put_then_get(c.invoice_created_at, label, now, other);
        law_remove_then_get(c.invoice_created_at, label, other);
    }
}

/// The time that a payment took, where it is known when it began and ended.
pub open spec fn payment_time(data: Json) -> Option<int> {
    match (data.unsigned_at("created_at"@), data.unsigned_at("completed_at"@)) {
        (Some(from), Some(to)) => Some(passed(from, to)),
        _ => None,
    }
}

/// Payments are counted by how they ended, and the time that they took is put on record where it is
/// known: of a failed one, from the data of its failure.
pub proof fn law_payments_are_timed(c: CountersView, body: Json, now: u64)
    requires
        ascending(c.sendpay_events),
        c.sendpay_latency.buckets.len() == 9,
        count_at(c.sendpay_events, seq!["success"@]) < u64::MAX,
        count_at(c.sendpay_events, seq!["failure"@]) < u64::MAX,
    ensures
        ({
            let good = after_notification(c, "sendpay_success"@, body, now);
            let bad = after_notification(c, "sendpay_failure"@, body, now);
            let data = match body.field("data"@) {
                Some(data) => data,
                None => body,
            };
            &&& count_at(good.sendpay_events, seq!["success"@]) == count_at(
                c.sendpay_events,
                seq!["success"@],
            ) + 1
            &&& count_at(good.sendpay_events, seq!["failure"@]) == count_at(
                c.sendpay_events,
                seq!["failure"@],
            )
            &&& count_at(bad.sendpay_events, seq!["failure"@]) == count_at(
                c.sendpay_events,
                seq!["failure"@],
            ) + 1
            &&& count_at(bad.sendpay_events, seq!["success"@]) == count_at(
                c.sendpay_events,
                seq!["success"@],
            )
            &&& payment_time(body) matches Some(seconds) ==> times_one(
                c.sendpay_latency,
                good.sendpay_latency,
                seconds,
            )
            &&& payment_time(body) is None ==> good.sendpay_latency == c.sendpay_latency
            &&& payment_time(data) matches Some(seconds) ==> times_one(
                c.sendpay_latency,
                bad.sendpay_latency,
                seconds,
            )
            &&& payment_time(data) is None ==> bad.sendpay_latency == c.sendpay_latency
        }),
{
    lemma_topics_differ();
    assert(seq!["success"@] != seq!["failure"@]) by {
        reveal_strlit("success");
        reveal_strlit("failure");
        assert("success"@[0] != "failure"@[0]);
        assert(seq!["success"@][0] != seq!["failure"@][0]);
    }
    lemma_incremented_counts(c.sendpay_events, seq!["success"@], seq!["failure"@]);
    lemma_incremented_counts(c.sendpay_events, seq!["failure"@], seq!["success"@]);
}

/// Nothing is counted before anything happened.
pub proof fn law_counters_begin_at_nothing(key: Seq<Seq<char>>)
    ensures
        ({
            let c = crate::events::no_events();
            &&& count_at(c.notifications, key) == 0
            &&& count_at(c.warnings, key) == 0
            &&& count_at(c.plugin_events, key) == 0
            &&& count_at(c.channel_transitions, key) == 0
            &&& count_at(c.forwards, key) == 0
            &&& count_at(c.coin_movements, key) == 0
            &&& count_at(c.invoice_events, key) == 0
            &&& count_at(c.sendpay_events, key) == 0
            &&& value_of(c.peers, key) is None
            &&& value_of(c.forwarding_channels, key) is None
            &&& value_of(c.invoice_created_at, key) is None
            &&& c.latest_block_height is None
            &&& c.latest_block_time is None
            &&& no_observations().count == 0
            &&& no_observations().sum_seconds == 0
            &&& no_observations().buckets.len() == 9
            &&& forall|i: int| 0 <= i < 9 ==> #[trigger] no_observations().buckets[i] == 0
        }),
{
}

/// What is shown of the notifications, the payments and the latest block is shown on the page.
proof fn lemma_parts_are_shown(c: CountersView, now: u64)
    ensures
        forall|x: LineView| #[trigger]
            notification_lines(c).contains(x) ==> events_lines(c, now).contains(x),
        forall|x: LineView| #[trigger]
            peers_lines(c.peers, now).contains(x) ==> events_lines(c, now).contains(x),
        forall|x: LineView| #[trigger]
            flows_lines(c.forwarding_channels).contains(x) ==> events_lines(c, now).contains(x),
        forall|x: LineView| #[trigger]
            payment_lines(c).contains(x) ==> events_lines(c, now).contains(x),
        forall|x: LineView| #[trigger]
            optional_line("cln_latest_block_notification_height"@, c.latest_block_height).contains(
                x,
            ) ==> events_lines(c, now).contains(x),
        forall|x: LineView| #[trigger]
            optional_line(
                "cln_latest_block_notification_timestamp_seconds"@,
                c.latest_block_time,
            ).contains(x) ==> events_lines(c, now).contains(x),
{
    let a = notification_lines(c);
    let b = peers_lines(c.peers, now);
    let d = flows_lines(c.forwarding_channels);
    let e = payment_lines(c);
    let f = optional_line("cln_latest_block_notification_height"@, c.latest_block_height);
    let g = optional_line(
        "cln_latest_block_notification_timestamp_seconds"@,
        c.latest_block_time,
    );
    lemma_joined(a, b);
    lemma_joined(a + b, d);
    lemma_joined(a + b + d, e);
    lemma_joined(a + b + d + e, f);
    lemma_joined(a + b + d + e + f, g);
}

/// What is counted of the notifications is shown under the name of what is counted.
pub proof fn law_counts_of_notifications_are_shown(
    c: CountersView,
    now: u64,
    a: Seq<char>,
    b: Seq<char>,
)
    ensures
        ({
            let all = events_lines(c, now);
            &&& value_of(c.notifications, seq![a]) matches Some(n) ==> says(
                all,
                "cln_notifications_total"@,
                seq![("topic"@, a)],
                ValueView::Integer(n as int),
            )
            &&& value_of(c.warnings, seq![a, b]) matches Some(n) ==> says(
                all,
                "cln_warnings_total"@,
                seq![("level"@, a), ("source"@, b)],
                ValueView::Integer(n as int),
            )
            &&& value_of(c.plugin_events, seq![a, b]) matches Some(n) ==> says(
                all,
                "cln_plugin_events_total"@,
                seq![("plugin"@, a), ("action"@, b)],
                ValueView::Integer(n as int),
            )
            &&& value_of(c.channel_transitions, seq![a, b]) matches Some(n) ==> says(
                all,
                "cln_channel_state_changes_total"@,
                seq![("state"@, a), ("cause"@, b)],
                ValueView::Integer(n as int),
            )
            &&& value_of(c.forwards, seq![a]) matches Some(n) ==> says(
                all,
                "cln_forward_events_total"@,
                seq![("status"@, a)],
                ValueView::Integer(n as int),
            )
            &&& value_of(c.coin_movements, seq![a, b]) matches Some(n) ==> says(
                all,
                "cln_coin_movements_total"@,
                seq![("type"@, a), ("tag"@, b)],
                ValueView::Integer(n as int),
            )
        }),
{
    lemma_parts_are_shown(c, now);
    let p = count_lines("cln_notifications_total"@, "topic"@, c.notifications);
    let q = pair_lines("cln_warnings_total"@, "level"@, "source"@, c.warnings);
    let r = pair_lines("cln_plugin_events_total"@, "plugin"@, "action"@, c.plugin_events);
    let s = pair_lines(
        "cln_channel_state_changes_total"@,
        "state"@,
        "cause"@,
        c.channel_transitions,
    );
    let t = count_lines("cln_forward_events_total"@, "status"@, c.forwards);
    let u = pair_lines("cln_coin_movements_total"@, "type"@, "tag"@, c.coin_movements);
    lemma_joined(p, q);
    lemma_joined(p + q, r);
    lemma_joined(p + q + r, s);
    lemma_joined(p + q + r + s, t);
    lemma_joined(p + q + r + s + t, u);
    if let Some(n) = value_of(c.notifications, seq![a]) {
        lemma_count_is_shown("cln_notifications_total"@, "topic"@, c.notifications, a, n);
    }
    if let Some(n) = value_of(c.warnings, seq![a, b]) {
        lemma_pair_is_shown("cln_warnings_total"@, "level"@, "source"@, c.warnings, a, b, n);
    }
    if let Some(n) = value_of(c.plugin_events, seq![a, b]) {
        lemma_pair_is_shown(
            "cln_plugin_events_total"@,
            "plugin"@,
            "action"@,
            c.plugin_events,
            a,
            b,
            n,
        );
    }
    if let Some(n) = value_of(c.channel_transitions, seq![a, b]) {
        lemma_pair_is_shown(
            "cln_channel_state_changes_total"@,
            "state"@,
            "cause"@,
            c.channel_transitions,
            a,
            b,
            n,
        );
    }
    if let Some(n) = value_of(c.forwards, seq![a]) {
        lemma_count_is_shown("cln_forward_events_total"@, "status"@, c.forwards, a, n);
    }
    if let Some(n) = value_of(c.coin_movements, seq![a, b]) {
        lemma_pair_is_shown(
            "cln_coin_movements_total"@,
            "type"@,
            "tag"@,
            c.coin_movements,
            a,
            b,
            n,
        );
    }
}

proof fn lemma_peer_is_shown(peers: Entries<PeerConnection>, now: u64, i: int)
    requires
        0 <= i < peers.len(),
    ensures
        forall|x: LineView| #[trigger]
            peer_lines(peers[i].0[0], peers[i].1, now).contains(x) ==> peers_lines(
                peers,
                now,
            ).contains(x),
    decreases peers.len(),
{
    let front = peers.drop_last();
    lemma_joined(peers_lines(front, now), peer_lines(peers.last().0[0], peers.last().1, now));
    if i < front.len() {
        lemma_peer_is_shown(front, now, i);
        assert(front[i] == peers[i]);
    }
}

/// Of every peer it is shown how long it was connected, until now if it still is, and how often it
/// connected and disconnected.
pub proof fn law_connections_are_shown(c: CountersView, now: u64, i: int)
    requires
        0 <= i < c.peers.len(),
    ensures
        ({
            let all = events_lines(c, now);
            let labels = seq![("peer"@, c.peers[i].0[0])];
            let peer = c.peers[i].1;
            let time = peer.connected_seconds_total + match peer.connected_since {
                Some(since) => passed(since, now),
                None => 0,
            };
            &&& time <= u64::MAX ==> says(
                all,
                "cln_peer_connection_seconds_total"@,
                labels,
                ValueView::Integer(time),
            )
            &&& says(
                all,
                "cln_peer_connections_total"@,
                labels,
                ValueView::Integer(peer.connects as int),
            )
            &&& says(
                all,
                "cln_peer_disconnects_total"@,
                labels,
                ValueView::Integer(peer.disconnects as int),
            )
        }),
{
    lemma_parts_are_shown(c, now);
    lemma_peer_is_shown(c.peers, now, i);
    let own = peer_lines(c.peers[i].0[0], c.peers[i].1, now);
    assert(own.contains(own[0]));
    assert(own.contains(own[1]));
    assert(own.contains(own[2]));
}

proof fn lemma_flow_is_shown(flows: Entries<ForwardingFlow>, i: int)
    requires
        0 <= i < flows.len(),
    ensures
        forall|x: LineView| #[trigger]
            flow_lines(flows[i].0[0], flows[i].1).contains(x) ==> flows_lines(flows).contains(x),
    decreases flows.len(),
{
    let front = flows.drop_last();
    lemma_joined(flows_lines(front), flow_lines(flows.last().0[0], flows.last().1));
    if i < front.len() {
        lemma_flow_is_shown(front, i);
        assert(front[i] == flows[i]);
    }
}

/// Of every channel that forwards went through it is shown what was received, sent and earned, and by
/// how much more was received than sent.
pub proof fn law_traffic_is_shown(c: CountersView, now: u64, i: int)
    requires
        0 <= i < c.forwarding_channels.len(),
    ensures
        ({
            let all = events_lines(c, now);
            let labels = seq![("channel"@, c.forwarding_channels[i].0[0])];
            let flow = c.forwarding_channels[i].1;
            &&& says(
                all,
                "cln_channel_forward_received_msat_total"@,
                labels,
                ValueView::Integer(flow.received_msat as int),
            )
            &&& says(
                all,
                "cln_channel_forward_sent_msat_total"@,
                labels,
                ValueView::Integer(flow.sent_msat as int),
            )
            &&& says(
                all,
                "cln_channel_forward_fees_msat_total"@,
                labels,
                ValueView::Integer(flow.fees_msat as int),
            )
            &&& says(
                all,
                "cln_channel_forward_net_liquidity_drift_msat"@,
                labels,
                ValueView::Integer(flow.received_msat - flow.sent_msat),
            )
        }),
{
    lemma_parts_are_shown(c, now);
    lemma_flow_is_shown(c.forwarding_channels, i);
    let own = flow_lines(c.forwarding_channels[i].0[0], c.forwarding_channels[i].1);
    assert(own.contains(own[0]));
    assert(own.contains(own[1]));
    assert(own.contains(own[2]));
    assert(own.contains(own[3]));
}

/// Whether a histogram is shown: every bucket under its bound, the sum and the count.
pub open spec fn shows_histogram(
    lines: Seq<LineView>,
    name: Seq<char>,
    histogram: HistogramView,
) -> bool {
    let bucket = |bound: Seq<char>, count: u64|
        says(
            lines,
            name + "_bucket"@,
            seq![("le"@, bound)],
            ValueView::Integer(count as int),
        );
    &&& bucket(decimal(1), histogram.buckets[0])
    &&& bucket(decimal(5), histogram.buckets[1])
    &&& bucket(decimal(10), histogram.buckets[2])
    &&& bucket(decimal(30), histogram.buckets[3])
    &&& bucket(decimal(60), histogram.buckets[4])
    &&& bucket(decimal(300), histogram.buckets[5])
    &&& bucket(decimal(900), histogram.buckets[6])
    &&& bucket(decimal(3600), histogram.buckets[7])
    &&& bucket("+Inf"@, histogram.buckets[8])
    &&& says(
        lines,
        name + "_sum"@,
        unlabelled(),
        ValueView::Integer(histogram.sum_seconds as int),
    )
    &&& says(
        lines,
        name + "_count"@,
        unlabelled(),
        ValueView::Integer(histogram.count as int),
    )
}

proof fn lemma_histogram_is_shown(name: Seq<char>, histogram: HistogramView)
    ensures
        shows_histogram(histogram_lines(name, histogram), name, histogram),
{
    let lines = histogram_lines(name, histogram);
    assert(lines.len() == 12);
    assert forall|i: int| 0 <= i < 9 implies #[trigger] lines[i + 1] == (LineView::Sample {
        name: name + "_bucket"@,
        labels: seq![("le"@, bound_text(LATENCY_BUCKETS@[i]))],
        value: ValueView::Integer(histogram.buckets[i] as int),
    }) by {}
    assert(lines.contains(lines[0int + 1]));
    assert(lines.contains(lines[1int + 1]));
    assert(lines.contains(lines[2int + 1]));
    assert(lines.contains(lines[3int + 1]));
    assert(lines.contains(lines[4int + 1]));
    assert(lines.contains(lines[5int + 1]));
    assert(lines.contains(lines[6int + 1]));
    assert(lines.contains(lines[7int + 1]));
    assert(lines.contains(lines[8int + 1]));
    assert(lines.contains(lines[10]));
    assert(lines.contains(lines[11]));
}

/// The payments are shown: by how they ended, with the times that they took, and the share of the
/// invoices whose payment was seen.
pub proof fn law_payments_are_shown(c: CountersView, now: u64, event: Seq<char>)
    ensures
        ({
            let all = events_lines(c, now);
            &&& value_of(c.invoice_events, seq![event]) matches Some(n) ==> says(
                all,
                "cln_invoice_events_total"@,
                seq![("event"@, event)],
                ValueView::Integer(n as int),
            )
            &&& value_of(c.sendpay_events, seq![event]) matches Some(n) ==> says(
                all,
                "cln_sendpay_attempts_total"@,
                seq![("outcome"@, event)],
                ValueView::Integer(n as int),
            )
            &&& says_share(
                all,
                "cln_invoice_observed_payment_ratio"@,
                unlabelled(),
                c.invoice_latency.count as int,
                count_at(c.invoice_events, seq!["created"@]),
                0,
            )
            &&& shows_histogram(all, "cln_invoice_payment_latency_seconds"@, c.invoice_latency)
            &&& shows_histogram(all, "cln_sendpay_latency_seconds"@, c.sendpay_latency)
            &&& c.latest_block_height matches Some(n) ==> says(
                all,
                "cln_latest_block_notification_height"@,
                unlabelled(),
                ValueView::Integer(n as int),
            )
            &&& c.latest_block_time matches Some(n) ==> says(
                all,
                "cln_latest_block_notification_timestamp_seconds"@,
                unlabelled(),
                ValueView::Integer(n as int),
            )
        }),
{
    lemma_parts_are_shown(c, now);
    let all = payment_lines(c);
    let p = count_lines("cln_invoice_events_total"@, "event"@, c.invoice_events);
    let q = all.subrange(p.len() as int, p.len() as int + 1);
    let r = histogram_lines("cln_invoice_payment_latency_seconds"@, c.invoice_latency);
    let s = count_lines("cln_sendpay_attempts_total"@, "outcome"@, c.sendpay_events);
    let t = histogram_lines("cln_sendpay_latency_seconds"@, c.sendpay_latency);
    assert(all =~= p + q + r + s + t);
    lemma_joined(p, q);
    lemma_joined(p + q, r);
    lemma_joined(p + q + r, s);
    lemma_joined(p + q + r + s, t);
    assert(q.contains(q[0]));
    lemma_histogram_is_shown("cln_invoice_payment_latency_seconds"@, c.invoice_latency);
    lemma_histogram_is_shown("cln_sendpay_latency_seconds"@, c.sendpay_latency);
    if let Some(n) = value_of(c.invoice_events, seq![event]) {
        lemma_count_is_shown("cln_invoice_events_total"@, "event"@, c.invoice_events, event, n);
    }
    if let Some(n) = value_of(c.sendpay_events, seq![event]) {
        lemma_count_is_shown("cln_sendpay_attempts_total"@, "outcome"@, c.sendpay_events, event, n);
    }
    if c.latest_block_height is Some {
        let f = optional_line("cln_latest_block_notification_height"@, c.latest_block_height);
        assert(f.contains(f[0]));
    }
    if c.latest_block_time is Some {
        let g = optional_line(
            "cln_latest_block_notification_timestamp_seconds"@,
            c.latest_block_time,
        );
        assert(g.contains(g[0]));
    }
}

/// A notification can be counted unless a count is at its limit.
pub proof fn law_there_is_room_to_count(c: CountersView, topic: Seq<char>, body: Json)
    requires
        forall|key: Seq<Seq<char>>|
            #![trigger count_at(c.notifications, key)]
            #![trigger count_at(c.warnings, key)]
            #![trigger count_at(c.plugin_events, key)]
            #![trigger count_at(c.channel_transitions, key)]
            #![trigger count_at(c.forwards, key)]
            #![trigger count_at(c.coin_movements, key)]
            #![trigger count_at(c.invoice_events, key)]
            #![trigger count_at(c.sendpay_events, key)]
            {
                &&& count_at(c.notifications, key) < u64::MAX
                &&& count_at(c.warnings, key) < u64::MAX
                &&& count_at(c.plugin_events, key) < u64::MAX
                &&& count_at(c.channel_transitions, key) < u64::MAX
                &&& count_at(c.forwards, key) < u64::MAX
                &&& count_at(c.coin_movements, key) < u64::MAX
                &&& count_at(c.invoice_events, key) < u64::MAX
                &&& count_at(c.sendpay_events, key) < u64::MAX
            },
    ensures
        can_count(c, topic, body),
{
    assert forall|entries: Entries<u64>, key: Seq<Seq<char>>, others: Seq<Seq<char>>| count_at(
        entries,
        bounded_key(entries, key, others),
    ) < u64::MAX implies #[trigger] has_bounded_room(entries, key, others) by {}
    assert forall|entries: Entries<u64>, key: Seq<Seq<char>>| count_at(entries, key)
        < u64::MAX implies #[trigger] has_room_for(entries, key) by {}
}

/// A notification cannot be counted where the count of its topic is at its limit.
pub proof fn law_there_is_no_room_behind_the_limit(c: CountersView, topic: Seq<char>, body: Json)
    requires
        value_of(c.notifications, seq![topic]) == Some(u64::MAX),
    ensures
        !can_count(c, topic, body),
{
}

proof fn lemma_peer_line_count(peers: Entries<PeerConnection>, now: u64)
    ensures
        peers_lines(peers, now).len() == 3 * peers.len(),
    decreases peers.len(),
{
    if peers.len() > 0 {
        lemma_peer_line_count(peers.drop_last(), now);
    }
}

proof fn lemma_flow_line_count(flows: Entries<ForwardingFlow>)
    ensures
        flows_lines(flows).len() == 4 * flows.len(),
    decreases flows.len(),
{
    if flows.len() > 0 {
        lemma_flow_line_count(flows.drop_last());
    }
}

/// Nothing else is shown of what was counted: one line for every count, three for every peer, four for
/// every channel, those of the two histograms, the share of the invoices, and those of the latest block.
pub proof fn law_nothing_else_is_shown_of_events(c: CountersView, now: u64)
    ensures
        ({
            let block = if c.latest_block_height is Some {
                1int
            } else {
                0
            } + if c.latest_block_time is Some {
                1int
            } else {
                0
            };
            events_lines(c, now).len() == c.notifications.len() + c.warnings.len()
                + c.plugin_events.len() + c.channel_transitions.len() + c.forwards.len()
                + c.coin_movements.len() + 3 * c.peers.len() + 4 * c.forwarding_channels.len()
                + c.invoice_events.len() + c.sendpay_events.len() + 1 + 24 + block
        }),
{
    lemma_peer_line_count(c.peers, now);
    lemma_flow_line_count(c.forwarding_channels);
}

} // verus!
