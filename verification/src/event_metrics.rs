//! The samples of the event counters.

use crate::channels::{count_lines, write_counts};
use crate::events::{
    capped_sum, seconds_between, CountersView, EventCounters, ForwardingFlow, HistogramView,
    LatencyHistogram, PeerConnection, LATENCY_BUCKETS,
};
use crate::exposition::{
    family_line, integer, line0, line1, line2, share, share_value, unsigned_value, LineView,
    Metrics, SampleValue,
};
use crate::node::{optional_line, optional_sample};
use crate::ordered::{value_of, Entries, Key, OrderedMap};
use crate::text::{decimal, decimal_text, joined};
use vstd::prelude::*;

verus! {

/// One sample for each counted pair of keys.
pub open spec fn pair_lines(
    metric: Seq<char>,
    first: Seq<char>,
    second: Seq<char>,
    counts: Entries<u64>,
) -> Seq<LineView> {
    Seq::new(
        counts.len(),
        |i: int|
            line2(
                metric,
                first,
                counts[i].0[0],
                second,
                counts[i].0[1],
                integer(counts[i].1 as int),
            ),
    )
}

/// Writes one sample for each counted pair.
pub(crate) fn write_pairs(
    metrics: &mut Metrics,
    metric: &str,
    first: &str,
    second: &str,
    counts: &OrderedMap<(String, String), u64>,
)
    ensures
        final(metrics)@ == old(metrics)@ + pair_lines(metric@, first@, second@, counts@),
{
    let mut i: usize = 0;
    while i < counts.len()
        invariant
            i <= counts@.len(),
            metrics@ =~= old(metrics)@ + pair_lines(metric@, first@, second@, counts@).take(
                i as int,
            ),
        decreases counts@.len() - i,
    {
        let key = counts.key_at(i);
        assert(key.parts()[0] == key.0@ && key.parts()[1] == key.1@);
        metrics.sample2(
            metric,
            first,
            key.0.as_str(),
            second,
            key.1.as_str(),
            unsigned_value(*counts.value_at(i)),
        );
        i = i + 1;
    }
    assert(metrics@ =~= old(metrics)@ + pair_lines(metric@, first@, second@, counts@));
}

/// How long a peer was connected, up to now.
pub open spec fn connected_seconds(connection: PeerConnection, now: u64) -> u64 {
    capped_sum(
        connection.connected_seconds_total as int,
        match connection.connected_since {
            Some(since) => seconds_between(since, now) as int,
            None => 0,
        },
    )
}

/// The samples of one peer.
pub open spec fn peer_lines(peer: Seq<char>, connection: PeerConnection, now: u64) -> Seq<LineView> {
    seq![
        line1(
            "cln_peer_connection_seconds_total"@,
            "peer"@,
            peer,
            integer(connected_seconds(connection, now) as int),
        ),
        line1("cln_peer_connections_total"@, "peer"@, peer, integer(connection.connects as int)),
        line1("cln_peer_disconnects_total"@, "peer"@, peer, integer(connection.disconnects as int)),
    ]
}

/// The samples of every peer.
pub open spec fn peers_lines(peers: Entries<PeerConnection>, now: u64) -> Seq<LineView>
    decreases peers.len(),
{
    if peers.len() == 0 {
        Seq::empty()
    } else {
        peers_lines(peers.drop_last(), now) + peer_lines(peers.last().0[0], peers.last().1, now)
    }
}

fn collect_peer_connections(
    metrics: &mut Metrics,
    peers: &OrderedMap<String, PeerConnection>,
    now: u64,
)
    ensures
        final(metrics)@ == old(metrics)@ + peers_lines(peers@, now),
{
    let mut i: usize = 0;
    assert(peers@.take(0) =~= seq![]);
    while i < peers.len()
        invariant
            i <= peers@.len(),
            metrics@ =~= old(metrics)@ + peers_lines(peers@.take(i as int), now),
        decreases peers@.len() - i,
    {
        assert(peers@.take(i + 1).drop_last() =~= peers@.take(i as int));
        let peer = peers.key_at(i);
        assert(peer.parts()[0] == peer@);
        let connection = *peers.value_at(i);
        let current: u64 = match connection.connected_since {
            Some(since) => now.saturating_sub(since),
            None => 0,
        };
        metrics.sample1(
            "cln_peer_connection_seconds_total",
            "peer",
            peer.as_str(),
            unsigned_value(connection.connected_seconds_total.saturating_add(current)),
        );
        metrics.sample1(
            "cln_peer_connections_total",
            "peer",
            peer.as_str(),
            unsigned_value(connection.connects),
        );
        metrics.sample1(
            "cln_peer_disconnects_total",
            "peer",
            peer.as_str(),
            unsigned_value(connection.disconnects),
        );
        i = i + 1;
    }
    assert(peers@.take(i as int) =~= peers@);
}

/// The samples of one channel's forwards.
pub open spec fn flow_lines(channel: Seq<char>, flow: ForwardingFlow) -> Seq<LineView> {
    seq![
        line1(
            "cln_channel_forward_received_msat_total"@,
            "channel"@,
            channel,
            integer(flow.received_msat as int),
        ),
        line1(
            "cln_channel_forward_sent_msat_total"@,
            "channel"@,
            channel,
            integer(flow.sent_msat as int),
        ),
        line1(
            "cln_channel_forward_fees_msat_total"@,
            "channel"@,
            channel,
            integer(flow.fees_msat as int),
        ),
        line1(
            "cln_channel_forward_net_liquidity_drift_msat"@,
            "channel"@,
            channel,
            integer(flow.received_msat - flow.sent_msat),
        ),
    ]
}

/// The samples of every channel's forwards.
pub open spec fn flows_lines(flows: Entries<ForwardingFlow>) -> Seq<LineView>
    decreases flows.len(),
{
    if flows.len() == 0 {
        Seq::empty()
    } else {
        flows_lines(flows.drop_last()) + flow_lines(flows.last().0[0], flows.last().1)
    }
}

fn collect_flows(metrics: &mut Metrics, flows: &OrderedMap<String, ForwardingFlow>)
    ensures
        final(metrics)@ == old(metrics)@ + flows_lines(flows@),
{
    let mut i: usize = 0;
    assert(flows@.take(0) =~= seq![]);
    while i < flows.len()
        invariant
            i <= flows@.len(),
            metrics@ =~= old(metrics)@ + flows_lines(flows@.take(i as int)),
        decreases flows@.len() - i,
    {
        assert(flows@.take(i + 1).drop_last() =~= flows@.take(i as int));
        let channel = flows.key_at(i);
        assert(channel.parts()[0] == channel@);
        let flow = *flows.value_at(i);
        metrics.sample1(
            "cln_channel_forward_received_msat_total",
            "channel",
            channel.as_str(),
            unsigned_value(flow.received_msat),
        );
        metrics.sample1(
            "cln_channel_forward_sent_msat_total",
            "channel",
            channel.as_str(),
            unsigned_value(flow.sent_msat),
        );
        metrics.sample1(
            "cln_channel_forward_fees_msat_total",
            "channel",
            channel.as_str(),
            unsigned_value(flow.fees_msat),
        );
        metrics.sample1(
            "cln_channel_forward_net_liquidity_drift_msat",
            "channel",
            channel.as_str(),
            SampleValue::Signed(flow.received_msat as i128 - flow.sent_msat as i128),
        );
        i = i + 1;
    }
    assert(flows@.take(i as int) =~= flows@);
}

/// How the upper bound of a bucket is written.
pub open spec fn bound_text(bound: u64) -> Seq<char> {
    if bound == u64::MAX {
        "+Inf"@
    } else {
        decimal(bound as nat)
    }
}

/// The samples of a histogram.
pub open spec fn histogram_lines(name: Seq<char>, histogram: HistogramView) -> Seq<LineView> {
    seq![family_line(name, "Observed event latency in seconds."@, "histogram"@)] + Seq::new(
        9,
        |i: int|
            line1(
                name + "_bucket"@,
                "le"@,
                bound_text(LATENCY_BUCKETS@[i]),
                integer(histogram.buckets[i] as int),
            ),
    ) + seq![
        line0(name + "_sum"@, integer(histogram.sum_seconds as int)),
        line0(name + "_count"@, integer(histogram.count as int)),
    ]
}

/// Writes a histogram.
pub fn render_histogram(metrics: &mut Metrics, name: &str, histogram: &LatencyHistogram)
    ensures
        final(metrics)@ == old(metrics)@ + histogram_lines(name@, histogram@),
{
    metrics.family(name, "Observed event latency in seconds.", "histogram");
    let bucket = joined(name, "_bucket");
    let mut i: usize = 0;
    while i < 9
        invariant
            i <= 9,
            bucket@ == name@ + "_bucket"@,
            metrics@ =~= old(metrics)@ + histogram_lines(name@, histogram@).take(i + 1),
        decreases 9 - i,
    {
        let bound: u64 = LATENCY_BUCKETS[i];
        let label = if bound == u64::MAX {
            "+Inf".to_owned()
        } else {
            decimal_text(bound as u128)
        };
        metrics.sample1(
            bucket.as_str(),
            "le",
            label.as_str(),
            unsigned_value(histogram.buckets[i]),
        );
        i = i + 1;
    }
    let sum = joined(name, "_sum");
    let count = joined(name, "_count");
    metrics.sample0(sum.as_str(), unsigned_value(histogram.sum_seconds));
    metrics.sample0(count.as_str(), unsigned_value(histogram.count));
    assert(metrics@ =~= old(metrics)@ + histogram_lines(name@, histogram@));
}

/// How many invoices were created.
pub open spec fn created_invoices(c: CountersView) -> u64 {
    match value_of(c.invoice_events, seq!["created"@]) {
        Some(count) => count,
        None => 0,
    }
}

/// The samples of the counted notifications.
pub open spec fn notification_lines(c: CountersView) -> Seq<LineView> {
    count_lines("cln_notifications_total"@, "topic"@, c.notifications) + pair_lines(
        "cln_warnings_total"@,
        "level"@,
        "source"@,
        c.warnings,
    ) + pair_lines("cln_plugin_events_total"@, "plugin"@, "action"@, c.plugin_events) + pair_lines(
        "cln_channel_state_changes_total"@,
        "state"@,
        "cause"@,
        c.channel_transitions,
    ) + count_lines("cln_forward_events_total"@, "status"@, c.forwards) + pair_lines(
        "cln_coin_movements_total"@,
        "type"@,
        "tag"@,
        c.coin_movements,
    )
}

/// The samples of invoices and payments.
pub open spec fn payment_lines(c: CountersView) -> Seq<LineView> {
    count_lines("cln_invoice_events_total"@, "event"@, c.invoice_events) + seq![
        line0(
            "cln_invoice_observed_payment_ratio"@,
            share(c.invoice_latency.count as int, created_invoices(c) as int, 0),
        ),
    ] + histogram_lines("cln_invoice_payment_latency_seconds"@, c.invoice_latency) + count_lines(
        "cln_sendpay_attempts_total"@,
        "outcome"@,
        c.sendpay_events,
    ) + histogram_lines("cln_sendpay_latency_seconds"@, c.sendpay_latency)
}

/// What is written of the event counters.
pub open spec fn events_lines(c: CountersView, now: u64) -> Seq<LineView> {
    notification_lines(c) + peers_lines(c.peers, now) + flows_lines(c.forwarding_channels)
        + payment_lines(c) + optional_line(
        "cln_latest_block_notification_height"@,
        c.latest_block_height,
    ) + optional_line("cln_latest_block_notification_timestamp_seconds"@, c.latest_block_time)
}

fn collect_notifications(metrics: &mut Metrics, events: &EventCounters)
    ensures
        final(metrics)@ == old(metrics)@ + notification_lines(events@),
{
    write_counts(metrics, "cln_notifications_total", "topic", &events.notifications);
    write_pairs(metrics, "cln_warnings_total", "level", "source", &events.warnings);
    write_pairs(metrics, "cln_plugin_events_total", "plugin", "action", &events.plugin_events);
    write_pairs(
        metrics,
        "cln_channel_state_changes_total",
        "state",
        "cause",
        &events.channel_transitions,
    );
    write_counts(metrics, "cln_forward_events_total", "status", &events.forwards);
    write_pairs(metrics, "cln_coin_movements_total", "type", "tag", &events.coin_movements);
    assert(metrics@ =~= old(metrics)@ + notification_lines(events@));
}

fn collect_payments(metrics: &mut Metrics, events: &EventCounters)
    ensures
        final(metrics)@ == old(metrics)@ + payment_lines(events@),
{
    write_counts(metrics, "cln_invoice_events_total", "event", &events.invoice_events);
    let created_key = "created".to_owned();
    let created: u64 = match events.invoice_events.get(&created_key) {
        Some(count) => *count,
        None => 0,
    };
    metrics.sample0(
        "cln_invoice_observed_payment_ratio",
        share_value(events.invoice_latency.count as u128, created as u128, 0),
    );
    render_histogram(metrics, "cln_invoice_payment_latency_seconds", &events.invoice_latency);
    write_counts(metrics, "cln_sendpay_attempts_total", "outcome", &events.sendpay_events);
    render_histogram(metrics, "cln_sendpay_latency_seconds", &events.sendpay_latency);
    assert(metrics@ =~= old(metrics)@ + payment_lines(events@));
}

/// Writes the event counters.
pub fn collect_events(metrics: &mut Metrics, events: &EventCounters, now: u64)
    ensures
        final(metrics)@ == old(metrics)@ + events_lines(events@, now),
{
    collect_notifications(metrics, events);
    collect_peer_connections(metrics, &events.peers, now);
    collect_flows(metrics, &events.forwarding_channels);
    collect_payments(metrics, events);
    optional_sample(metrics, "cln_latest_block_notification_height", events.latest_block_height);
    optional_sample(
        metrics,
        "cln_latest_block_notification_timestamp_seconds",
        events.latest_block_time,
    );
    assert(metrics@ =~= old(metrics)@ + events_lines(events@, now));
}

} // verus!
