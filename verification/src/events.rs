//! Counters over the node's notifications.

use crate::json::Json;
use crate::ordered::{
    ascending, has_key, incremented, law_put_then_get, law_remove_then_get,
    lemma_place_of, place_of, value_of, with_value, without_key, Entries, Key, OrderedMap,
};
use crate::text::same_text;
use vstd::prelude::*;

verus! {

/// How many keys a map of dynamic labels holds before further ones are grouped.
pub const MAX_DYNAMIC_KEYS: usize = 128;

/// How many peers are tracked.
pub const MAX_TRACKED_PEERS: usize = 2048;

/// How many unpaid invoices are remembered.
pub const MAX_PENDING_INVOICES: usize = 4096;

/// The upper bounds of the latency buckets, in seconds. The last one is without bound.
pub const LATENCY_BUCKETS: [u64; 9] = [1, 5, 10, 30, 60, 300, 900, 3600, u64::MAX];

/// The sum, or the greatest 64-bit number where it is larger.
pub open spec fn capped_sum(a: int, b: int) -> u64 {
    if a + b > u64::MAX {
        u64::MAX
    } else {
        (a + b) as u64
    }
}

/// The seconds from one time to another; 0 where the second is earlier.
pub open spec fn seconds_between(from: u64, to: u64) -> u64 {
    if to >= from {
        (to - from) as u64
    } else {
        0
    }
}

/// How a peer's connection went while the exporter was running.
#[derive(Clone, Copy, Debug)]
pub struct PeerConnection {
    pub connected_since: Option<u64>,
    pub connected_seconds_total: u64,
    pub connects: u64,
    pub disconnects: u64,
}

/// A peer of which nothing was observed.
pub open spec fn new_connection() -> PeerConnection {
    PeerConnection {
        connected_since: None,
        connected_seconds_total: 0,
        connects: 0,
        disconnects: 0,
    }
}

impl Default for PeerConnection {
    fn default() -> (r: Self)
        ensures
            r == new_connection(),
    {
        PeerConnection {
            connected_since: None,
            connected_seconds_total: 0,
            connects: 0,
            disconnects: 0,
        }
    }
}

/// What a channel forwarded while the exporter was running.
#[derive(Clone, Copy, Debug)]
pub struct ForwardingFlow {
    pub received_msat: u64,
    pub sent_msat: u64,
    pub fees_msat: u64,
}

/// A channel that forwarded nothing.
pub open spec fn no_flow() -> ForwardingFlow {
    ForwardingFlow { received_msat: 0, sent_msat: 0, fees_msat: 0 }
}

impl Default for ForwardingFlow {
    fn default() -> (r: Self)
        ensures
            r == no_flow(),
    {
        ForwardingFlow { received_msat: 0, sent_msat: 0, fees_msat: 0 }
    }
}

/// A histogram of latencies. Each bucket counts the observations up to its bound.
#[derive(Clone, Copy, Debug)]
pub struct LatencyHistogram {
    pub buckets: [u64; 9],
    pub count: u64,
    pub sum_seconds: u64,
}

/// What a histogram holds.
pub struct HistogramView {
    pub buckets: Seq<u64>,
    pub count: u64,
    pub sum_seconds: u64,
}

impl View for LatencyHistogram {
    type V = HistogramView;

    open spec fn view(&self) -> HistogramView {
        HistogramView {
            buckets: self.buckets@,
            count: self.count,
            sum_seconds: self.sum_seconds,
        }
    }
}

/// A histogram without observations.
pub open spec fn no_observations() -> HistogramView {
    HistogramView { buckets: Seq::new(9, |i: int| 0u64), count: 0, sum_seconds: 0 }
}

/// A histogram after one more observation.
pub open spec fn observed(histogram: HistogramView, seconds: u64) -> HistogramView {
    HistogramView {
        buckets: Seq::new(
            9,
            |i: int|
                if seconds <= LATENCY_BUCKETS@[i] {
                    capped_sum(histogram.buckets[i] as int, 1)
                } else {
                    histogram.buckets[i]
                },
        ),
        count: capped_sum(histogram.count as int, 1),
        sum_seconds: capped_sum(histogram.sum_seconds as int, seconds as int),
    }
}

/// The buckets count up: each holds at least what the one before it holds, and the last holds all.
pub open spec fn cumulative(histogram: HistogramView) -> bool {
    &&& histogram.buckets.len() == 9
    &&& forall|i: int, j: int|
        0 <= i <= j < 9 ==> (#[trigger] histogram.buckets[i]) <= (#[trigger] histogram.buckets[j])
    &&& histogram.buckets[8] == histogram.count
}

/// An empty histogram is cumulative, and every observation keeps it so.
pub proof fn law_histogram_stays_cumulative(histogram: HistogramView, seconds: u64)
    ensures
        cumulative(no_observations()),
        cumulative(histogram) ==> cumulative(observed(histogram, seconds)),
{
    let after = observed(histogram, seconds);
    if cumulative(histogram) {
        assert forall|i: int, j: int| 0 <= i <= j < 9 implies (#[trigger] after.buckets[i]) <= (
        #[trigger] after.buckets[j]) by {
            assert(histogram.buckets[i] <= histogram.buckets[j]);
            assert(LATENCY_BUCKETS@[i] <= LATENCY_BUCKETS@[j]);
        }
    }
}

impl Default for LatencyHistogram {
    fn default() -> (r: Self)
        ensures
            r@ == no_observations(),
    {
        let r = LatencyHistogram { buckets: [0; 9], count: 0, sum_seconds: 0 };
        assert(r@.buckets =~= no_observations().buckets);
        r
    }
}

impl LatencyHistogram {
    /// Takes in one observation.
    pub fn observe(&mut self, seconds: u64)
        ensures
            final(self)@ == observed(old(self)@, seconds),
    {
        self.count = self.count.saturating_add(1);
        self.sum_seconds = self.sum_seconds.saturating_add(seconds);
        let mut i: usize = 0;
        while i < 9
            invariant
                i <= 9,
                self.count == capped_sum(old(self).count as int, 1),
                self.sum_seconds == capped_sum(old(self).sum_seconds as int, seconds as int),
                forall|j: int|
                    i <= j < 9 ==> #[trigger] self.buckets@[j] == old(self).buckets@[j],
                forall|j: int|
                    0 <= j < i ==> #[trigger] self.buckets@[j] == observed(
                        old(self)@,
                        seconds,
                    ).buckets[j],
            decreases 9 - i,
        {
            if seconds <= LATENCY_BUCKETS[i] {
                let count: u64 = self.buckets[i];
                self.buckets[i] = count.saturating_add(1);
            }
            i = i + 1;
        }
        assert(self@.buckets =~= observed(old(self)@, seconds).buckets);
    }
}

/// The key that a new event counts for: its own where it is known or there is room for it, else the
/// one for everything else.
pub open spec fn bounded_key(
    entries: Entries<u64>,
    key: Seq<Seq<char>>,
    overflow: Seq<Seq<char>>,
) -> Seq<Seq<char>> {
    if has_key(entries, key) || entries.len() < MAX_DYNAMIC_KEYS {
        key
    } else {
        overflow
    }
}

/// The counts after one more event.
pub open spec fn bounded_incremented(
    entries: Entries<u64>,
    key: Seq<Seq<char>>,
    overflow: Seq<Seq<char>>,
) -> Entries<u64> {
    incremented(entries, bounded_key(entries, key, overflow))
}

/// Counts an event, for `overflow` where there is no room for its own key.
pub fn bounded_increment<K: Key>(map: &mut OrderedMap<K, u64>, key: K, overflow: K)
    requires
        value_of(old(map)@, bounded_key(old(map)@, key.parts(), overflow.parts())) != Some(
            u64::MAX,
        ),
    ensures
        final(map)@ == bounded_incremented(old(map)@, key.parts(), overflow.parts()),
{
    if map.contains_key(&key) || map.len() < MAX_DYNAMIC_KEYS {
        map.increment(key);
    } else {
        map.increment(overflow);
    }
}

/// Whether there is room for `key` among at most `limit` keys.
pub open spec fn admits<V>(entries: Entries<V>, key: Seq<Seq<char>>, limit: usize) -> bool {
    entries.len() < limit || has_key(entries, key)
}

/// At most `limit` keys, and one more for everything else.
pub open spec fn capped<V>(entries: Entries<V>, limit: int, overflow: Seq<Seq<char>>) -> bool {
    &&& ascending(entries)
    &&& entries.len() <= limit || (entries.len() == limit + 1 && has_key(entries, overflow))
}

/// However many different events come, a bounded map holds at most its limit of keys and the one
/// for everything else.
pub proof fn law_dynamic_keys_are_capped(
    entries: Entries<u64>,
    key: Seq<Seq<char>>,
    overflow: Seq<Seq<char>>,
)
    requires
        capped(entries, MAX_DYNAMIC_KEYS as int, overflow),
    ensures
        capped(
            bounded_incremented(entries, key, overflow),
            MAX_DYNAMIC_KEYS as int,
            overflow,
        ),
{
    let chosen = bounded_key(entries, key, overflow);
    let count = match value_of(entries, chosen) {
        Some(count) => count as int,
        None => 0,
    };
    law_put_then_get(entries, chosen, (count + 1) as u64, overflow);
    lemma_place_of(entries, chosen);
}

/// Counters over everything that the node has notified since the exporter started.
pub struct EventCounters {
    pub notifications: OrderedMap<String, u64>,
    pub warnings: OrderedMap<(String, String), u64>,
    pub plugin_events: OrderedMap<(String, String), u64>,
    pub channel_transitions: OrderedMap<(String, String), u64>,
    pub forwards: OrderedMap<String, u64>,
    pub coin_movements: OrderedMap<(String, String), u64>,
    pub latest_block_height: Option<u64>,
    pub latest_block_time: Option<u64>,
    pub peers: OrderedMap<String, PeerConnection>,
    pub forwarding_channels: OrderedMap<String, ForwardingFlow>,
    pub invoice_events: OrderedMap<String, u64>,
    pub invoice_created_at: OrderedMap<String, u64>,
    pub invoice_latency: LatencyHistogram,
    pub sendpay_events: OrderedMap<String, u64>,
    pub sendpay_latency: LatencyHistogram,
}

/// What the counters hold.
pub struct CountersView {
    pub notifications: Entries<u64>,
    pub warnings: Entries<u64>,
    pub plugin_events: Entries<u64>,
    pub channel_transitions: Entries<u64>,
    pub forwards: Entries<u64>,
    pub coin_movements: Entries<u64>,
    pub latest_block_height: Option<u64>,
    pub latest_block_time: Option<u64>,
    pub peers: Entries<PeerConnection>,
    pub forwarding_channels: Entries<ForwardingFlow>,
    pub invoice_events: Entries<u64>,
    pub invoice_created_at: Entries<u64>,
    pub invoice_latency: HistogramView,
    pub sendpay_events: Entries<u64>,
    pub sendpay_latency: HistogramView,
}

impl View for EventCounters {
    type V = CountersView;

    open spec fn view(&self) -> CountersView {
        CountersView {
            notifications: self.notifications@,
            warnings: self.warnings@,
            plugin_events: self.plugin_events@,
            channel_transitions: self.channel_transitions@,
            forwards: self.forwards@,
            coin_movements: self.coin_movements@,
            latest_block_height: self.latest_block_height,
            latest_block_time: self.latest_block_time,
            peers: self.peers@,
            forwarding_channels: self.forwarding_channels@,
            invoice_events: self.invoice_events@,
            invoice_created_at: self.invoice_created_at@,
            invoice_latency: self.invoice_latency@,
            sendpay_events: self.sendpay_events@,
            sendpay_latency: self.sendpay_latency@,
        }
    }
}

/// Counters that have seen nothing.
pub open spec fn no_events() -> CountersView {
    CountersView {
        notifications: Seq::empty(),
        warnings: Seq::empty(),
        plugin_events: Seq::empty(),
        channel_transitions: Seq::empty(),
        forwards: Seq::empty(),
        coin_movements: Seq::empty(),
        latest_block_height: None,
        latest_block_time: None,
        peers: Seq::empty(),
        forwarding_channels: Seq::empty(),
        invoice_events: Seq::empty(),
        invoice_created_at: Seq::empty(),
        invoice_latency: no_observations(),
        sendpay_events: Seq::empty(),
        sendpay_latency: no_observations(),
    }
}

impl Default for EventCounters {
    fn default() -> (r: Self)
        ensures
            r@ == no_events(),
    {
        EventCounters {
            notifications: OrderedMap::new(),
            warnings: OrderedMap::new(),
            plugin_events: OrderedMap::new(),
            channel_transitions: OrderedMap::new(),
            forwards: OrderedMap::new(),
            coin_movements: OrderedMap::new(),
            latest_block_height: None,
            latest_block_time: None,
            peers: OrderedMap::new(),
            forwarding_channels: OrderedMap::new(),
            invoice_events: OrderedMap::new(),
            invoice_created_at: OrderedMap::new(),
            invoice_latency: LatencyHistogram::default(),
            sendpay_events: OrderedMap::new(),
            sendpay_latency: LatencyHistogram::default(),
        }
    }
}

/// Whether the count of a key has not reached its end.
pub open spec fn has_room_for(entries: Entries<u64>, key: Seq<Seq<char>>) -> bool {
    value_of(entries, key) != Some(u64::MAX)
}

/// Whether the count that an event goes to has not reached its end.
pub open spec fn has_bounded_room(
    entries: Entries<u64>,
    key: Seq<Seq<char>>,
    overflow: Seq<Seq<char>>,
) -> bool {
    has_room_for(entries, bounded_key(entries, key, overflow))
}

/// The text of a field, or `unknown`.
pub open spec fn named(body: Json, name: Seq<char>) -> Seq<char> {
    body.text_or(name, "unknown"@)
}

/// The flow of a channel so far.
pub open spec fn flow_of(flows: Entries<ForwardingFlow>, channel: Seq<char>) -> ForwardingFlow {
    match value_of(flows, seq![channel]) {
        Some(flow) => flow,
        None => no_flow(),
    }
}

/// The flows after a channel received an amount and earned a fee.
pub open spec fn with_received(
    flows: Entries<ForwardingFlow>,
    channel: Seq<char>,
    amount: u64,
    fee: u64,
) -> Entries<ForwardingFlow> {
    let flow = flow_of(flows, channel);
    if admits(flows, seq![channel], MAX_DYNAMIC_KEYS) {
        with_value(
            flows,
            seq![channel],
            ForwardingFlow {
                received_msat: capped_sum(flow.received_msat as int, amount as int),
                fees_msat: capped_sum(flow.fees_msat as int, fee as int),
                ..flow
            },
        )
    } else {
        flows
    }
}

/// The flows after a channel sent an amount. Nothing is kept of an unknown channel.
pub open spec fn with_sent(
    flows: Entries<ForwardingFlow>,
    channel: Seq<char>,
    amount: u64,
) -> Entries<ForwardingFlow> {
    let flow = flow_of(flows, channel);
    if channel != "unknown"@ && admits(flows, seq![channel], MAX_DYNAMIC_KEYS) {
        with_value(
            flows,
            seq![channel],
            ForwardingFlow { sent_msat: capped_sum(flow.sent_msat as int, amount as int), ..flow },
        )
    } else {
        flows
    }
}

/// The flows after a settled forward.
pub open spec fn with_forward(flows: Entries<ForwardingFlow>, body: Json) -> Entries<
    ForwardingFlow,
> {
    with_sent(
        with_received(
            flows,
            named(body, "in_channel"@),
            body.millisatoshi_or_zero("in_msat"@),
            body.millisatoshi_or_zero("fee_msat"@),
        ),
        named(body, "out_channel"@),
        body.millisatoshi_or_zero("out_msat"@),
    )
}

/// The connection of a peer so far.
pub open spec fn connection_of(peers: Entries<PeerConnection>, peer: Seq<char>) -> PeerConnection {
    match value_of(peers, seq![peer]) {
        Some(connection) => connection,
        None => new_connection(),
    }
}

/// The peers after one has connected.
pub open spec fn with_connected(
    peers: Entries<PeerConnection>,
    peer: Seq<char>,
    now: u64,
) -> Entries<PeerConnection> {
    let connection = connection_of(peers, peer);
    if admits(peers, seq![peer], MAX_TRACKED_PEERS) {
        with_value(
            peers,
            seq![peer],
            PeerConnection {
                connects: capped_sum(connection.connects as int, 1),
                connected_since: match connection.connected_since {
                    Some(since) => Some(since),
                    None => Some(now),
                },
                ..connection
            },
        )
    } else {
        peers
    }
}

/// The peers after one has disconnected.
pub open spec fn with_disconnected(
    peers: Entries<PeerConnection>,
    peer: Seq<char>,
    now: u64,
) -> Entries<PeerConnection> {
    let connection = connection_of(peers, peer);
    if admits(peers, seq![peer], MAX_TRACKED_PEERS) {
        with_value(
            peers,
            seq![peer],
            PeerConnection {
                disconnects: capped_sum(connection.disconnects as int, 1),
                connected_since: None,
                connected_seconds_total: match connection.connected_since {
                    Some(since) => capped_sum(
                        connection.connected_seconds_total as int,
                        seconds_between(since, now) as int,
                    ),
                    None => connection.connected_seconds_total,
                },
                ..connection
            },
        )
    } else {
        peers
    }
}

/// The latencies after a payment that names when it was made and completed.
pub open spec fn with_payment(histogram: HistogramView, data: Json) -> HistogramView {
    match (data.unsigned_at("created_at"@), data.unsigned_at("completed_at"@)) {
        (Some(created), Some(completed)) => observed(
            histogram,
            seconds_between(created, completed),
        ),
        _ => histogram,
    }
}

/// What a failed payment's times are read from: its field `data`, or itself.
pub open spec fn failure_data(body: Json) -> Json {
    match body.field("data"@) {
        Some(data) => data,
        None => body,
    }
}

/// Whether the counters that a notification goes to have not reached their ends.
pub open spec fn can_count(c: CountersView, topic: Seq<char>, body: Json) -> bool {
    has_bounded_room(c.notifications, seq![topic], seq!["other"@]) && if topic == "warning"@ {
        has_bounded_room(
            c.warnings,
            seq![named(body, "level"@), named(body, "source"@)],
            seq!["unknown"@, "other"@],
        )
    } else if topic == "plugin_started"@ {
        has_bounded_room(
            c.plugin_events,
            seq![named(body, "plugin_name"@), "started"@],
            seq!["other"@, "unknown"@],
        )
    } else if topic == "plugin_stopped"@ {
        has_bounded_room(
            c.plugin_events,
            seq![named(body, "plugin_name"@), "stopped"@],
            seq!["other"@, "unknown"@],
        )
    } else if topic == "channel_state_changed"@ {
        has_bounded_room(
            c.channel_transitions,
            seq![named(body, "new_state"@), named(body, "cause"@)],
            seq!["other"@, "unknown"@],
        )
    } else if topic == "forward_event"@ {
        has_bounded_room(c.forwards, seq![named(body, "status"@)], seq!["other"@])
    } else if topic == "coin_movement"@ {
        has_bounded_room(
            c.coin_movements,
            seq![named(body, "type"@), named(body, "primary_tag"@)],
            seq!["other"@, "other"@],
        )
    } else if topic == "invoice_creation"@ {
        has_room_for(c.invoice_events, seq!["created"@])
    } else if topic == "invoice_payment"@ {
        has_room_for(c.invoice_events, seq!["paid"@])
    } else if topic == "sendpay_success"@ {
        has_room_for(c.sendpay_events, seq!["success"@])
    } else if topic == "sendpay_failure"@ {
        has_room_for(c.sendpay_events, seq!["failure"@])
    } else {
        true
    }
}

/// The counters after an event of the given topic, besides the count of the topic itself.
pub open spec fn after_topic(c: CountersView, topic: Seq<char>, body: Json, now: u64) -> CountersView {
    if topic == "warning"@ {
        CountersView {
            warnings: bounded_incremented(
                c.warnings,
                seq![named(body, "level"@), named(body, "source"@)],
                seq!["unknown"@, "other"@],
            ),
            ..c
        }
    } else if topic == "plugin_started"@ || topic == "plugin_stopped"@ {
        let action = if topic == "plugin_started"@ {
            "started"@
        } else {
            "stopped"@
        };
        CountersView {
            plugin_events: bounded_incremented(
                c.plugin_events,
                seq![named(body, "plugin_name"@), action],
                seq!["other"@, "unknown"@],
            ),
            ..c
        }
    } else if topic == "channel_state_changed"@ {
        CountersView {
            channel_transitions: bounded_incremented(
                c.channel_transitions,
                seq![named(body, "new_state"@), named(body, "cause"@)],
                seq!["other"@, "unknown"@],
            ),
            ..c
        }
    } else if topic == "forward_event"@ {
        CountersView {
            forwards: bounded_incremented(
                c.forwards,
                seq![named(body, "status"@)],
                seq!["other"@],
            ),
            forwarding_channels: if named(body, "status"@) == "settled"@ {
                with_forward(c.forwarding_channels, body)
            } else {
                c.forwarding_channels
            },
            ..c
        }
    } else if topic == "coin_movement"@ {
        CountersView {
            coin_movements: bounded_incremented(
                c.coin_movements,
                seq![named(body, "type"@), named(body, "primary_tag"@)],
                seq!["other"@, "other"@],
            ),
            ..c
        }
    } else if topic == "block_added"@ {
        CountersView {
            latest_block_height: body.unsigned_at("height"@),
            latest_block_time: Some(now),
            ..c
        }
    } else if topic == "connect"@ {
        CountersView { peers: with_connected(c.peers, named(body, "id"@), now), ..c }
    } else if topic == "disconnect"@ {
        CountersView { peers: with_disconnected(c.peers, named(body, "id"@), now), ..c }
    } else if topic == "invoice_creation"@ {
        let label = seq![named(body, "label"@)];
        CountersView {
            invoice_events: incremented(c.invoice_events, seq!["created"@]),
            invoice_created_at: if admits(c.invoice_created_at, label, MAX_PENDING_INVOICES) {
                with_value(c.invoice_created_at, label, now)
            } else {
                c.invoice_created_at
            },
            ..c
        }
    } else if topic == "invoice_payment"@ {
        let label = seq![named(body, "label"@)];
        CountersView {
            invoice_events: incremented(c.invoice_events, seq!["paid"@]),
            invoice_created_at: without_key(c.invoice_created_at, label),
            invoice_latency: match value_of(c.invoice_created_at, label) {
                Some(created_at) => observed(c.invoice_latency, seconds_between(created_at, now)),
                None => c.invoice_latency,
            },
            ..c
        }
    } else if topic == "sendpay_success"@ {
        CountersView {
            sendpay_events: incremented(c.sendpay_events, seq!["success"@]),
            sendpay_latency: with_payment(c.sendpay_latency, body),
            ..c
        }
    } else if topic == "sendpay_failure"@ {
        CountersView {
            sendpay_events: incremented(c.sendpay_events, seq!["failure"@]),
            sendpay_latency: with_payment(c.sendpay_latency, failure_data(body)),
            ..c
        }
    } else {
        c
    }
}

/// The counters after a notification.
pub open spec fn after_notification(
    c: CountersView,
    topic: Seq<char>,
    body: Json,
    now: u64,
) -> CountersView {
    after_topic(
        CountersView {
            notifications: bounded_incremented(c.notifications, seq![topic], seq!["other"@]),
            ..c
        },
        topic,
        body,
        now,
    )
}

/// Every map is within its bound, its keys are in ascending order, and the histograms are
/// cumulative.
pub open spec fn bounded(c: CountersView) -> bool {
    let limit = MAX_DYNAMIC_KEYS as int;
    &&& capped(c.notifications, limit, seq!["other"@])
    &&& capped(c.warnings, limit, seq!["unknown"@, "other"@])
    &&& capped(c.plugin_events, limit, seq!["other"@, "unknown"@])
    &&& capped(c.channel_transitions, limit, seq!["other"@, "unknown"@])
    &&& capped(c.forwards, limit, seq!["other"@])
    &&& capped(c.coin_movements, limit, seq!["other"@, "other"@])
    &&& ascending(c.peers) && c.peers.len() <= MAX_TRACKED_PEERS
    &&& ascending(c.forwarding_channels) && c.forwarding_channels.len() <= MAX_DYNAMIC_KEYS
    &&& ascending(c.invoice_created_at) && c.invoice_created_at.len() <= MAX_PENDING_INVOICES
    &&& ascending(c.invoice_events)
    &&& ascending(c.sendpay_events)
    &&& cumulative(c.invoice_latency)
    &&& cumulative(c.sendpay_latency)
}

proof fn lemma_admitted<V>(entries: Entries<V>, key: Seq<Seq<char>>, value: V, limit: usize)
    requires
        ascending(entries),
        entries.len() <= limit,
        admits(entries, key, limit),
    ensures
        ascending(with_value(entries, key, value)),
        with_value(entries, key, value).len() <= limit,
{
    law_put_then_get(entries, key, value, key);
    lemma_place_of(entries, key);
}

proof fn lemma_flows_stay_bounded(flows: Entries<ForwardingFlow>, body: Json)
    requires
        ascending(flows),
        flows.len() <= MAX_DYNAMIC_KEYS,
    ensures
        ascending(with_forward(flows, body)),
        with_forward(flows, body).len() <= MAX_DYNAMIC_KEYS,
{
    let inbound = named(body, "in_channel"@);
    let amount = body.millisatoshi_or_zero("in_msat"@);
    let fee = body.millisatoshi_or_zero("fee_msat"@);
    let flow = flow_of(flows, inbound);
    if admits(flows, seq![inbound], MAX_DYNAMIC_KEYS) {
        lemma_admitted(
            flows,
            seq![inbound],
            ForwardingFlow {
                received_msat: capped_sum(flow.received_msat as int, amount as int),
                fees_msat: capped_sum(flow.fees_msat as int, fee as int),
                ..flow
            },
            MAX_DYNAMIC_KEYS,
        );
    }
    let received = with_received(flows, inbound, amount, fee);
    let outbound = named(body, "out_channel"@);
    let sent = body.millisatoshi_or_zero("out_msat"@);
    let flow2 = flow_of(received, outbound);
    if admits(received, seq![outbound], MAX_DYNAMIC_KEYS) {
        lemma_admitted(
            received,
            seq![outbound],
            ForwardingFlow { sent_msat: capped_sum(flow2.sent_msat as int, sent as int), ..flow2 },
            MAX_DYNAMIC_KEYS,
        );
    }
}

proof fn lemma_peers_stay_bounded(peers: Entries<PeerConnection>, peer: Seq<char>, now: u64)
    requires
        ascending(peers),
        peers.len() <= MAX_TRACKED_PEERS,
    ensures
        ascending(with_connected(peers, peer, now)),
        with_connected(peers, peer, now).len() <= MAX_TRACKED_PEERS,
        ascending(with_disconnected(peers, peer, now)),
        with_disconnected(peers, peer, now).len() <= MAX_TRACKED_PEERS,
{
    if admits(peers, seq![peer], MAX_TRACKED_PEERS) {
        let connected = with_connected(peers, peer, now);
        let disconnected = with_disconnected(peers, peer, now);
        let p = place_of(peers, seq![peer]);
        lemma_place_of(peers, seq![peer]);
        lemma_admitted(peers, seq![peer], connected[p].1, MAX_TRACKED_PEERS);
        lemma_admitted(peers, seq![peer], disconnected[p].1, MAX_TRACKED_PEERS);
        assert(connected =~= with_value(peers, seq![peer], connected[p].1));
        assert(disconnected =~= with_value(peers, seq![peer], disconnected[p].1));
    }
}

/// New counters are within their bounds, and no notification takes them out: the counters take a
/// bounded amount of memory however many peers, channels, plugins and invoices there are.
#[verifier::rlimit(50)]
pub proof fn law_counters_stay_bounded(c: CountersView, topic: Seq<char>, body: Json, now: u64)
    ensures
        bounded(no_events()),
        bounded(c) ==> bounded(after_notification(c, topic, body, now)),
{
    law_histogram_stays_cumulative(c.invoice_latency, 0);
    if bounded(c) {
        law_dynamic_keys_are_capped(c.notifications, seq![topic], seq!["other"@]);
        let label = seq![named(body, "label"@)];
        if topic == "warning"@ {
            law_dynamic_keys_are_capped(
                c.warnings,
                seq![named(body, "level"@), named(body, "source"@)],
                seq!["unknown"@, "other"@],
            );
        } else if topic == "plugin_started"@ || topic == "plugin_stopped"@ {
            law_dynamic_keys_are_capped(
                c.plugin_events,
                seq![named(body, "plugin_name"@), "started"@],
                seq!["other"@, "unknown"@],
            );
            law_dynamic_keys_are_capped(
                c.plugin_events,
                seq![named(body, "plugin_name"@), "stopped"@],
                seq!["other"@, "unknown"@],
            );
        } else if topic == "channel_state_changed"@ {
            law_dynamic_keys_are_capped(
                c.channel_transitions,
                seq![named(body, "new_state"@), named(body, "cause"@)],
                seq!["other"@, "unknown"@],
            );
        } else if topic == "forward_event"@ {
            law_dynamic_keys_are_capped(
                c.forwards,
                seq![named(body, "status"@)],
                seq!["other"@],
            );
            lemma_flows_stay_bounded(c.forwarding_channels, body);
        } else if topic == "coin_movement"@ {
            law_dynamic_keys_are_capped(
                c.coin_movements,
                seq![named(body, "type"@), named(body, "primary_tag"@)],
                seq!["other"@, "other"@],
            );
        } else if topic == "connect"@ || topic == "disconnect"@ {
            lemma_peers_stay_bounded(c.peers, named(body, "id"@), now);
        } else if topic == "invoice_creation"@ {
            lemma_incremented_ascending(c.invoice_events, seq!["created"@]);
            if admits(c.invoice_created_at, label, MAX_PENDING_INVOICES) {
                lemma_admitted(c.invoice_created_at, label, now, MAX_PENDING_INVOICES);
            }
        } else if topic == "invoice_payment"@ {
            lemma_incremented_ascending(c.invoice_events, seq!["paid"@]);
            law_remove_then_get(c.invoice_created_at, label, label);
            lemma_place_of(c.invoice_created_at, label);
            if let Some(created_at) = value_of(c.invoice_created_at, label) {
                law_histogram_stays_cumulative(
                    c.invoice_latency,
                    seconds_between(created_at, now),
                );
            }
        } else if topic == "sendpay_success"@ {
            lemma_incremented_ascending(c.sendpay_events, seq!["success"@]);
            lemma_payment_stays_cumulative(c.sendpay_latency, body);
        } else if topic == "sendpay_failure"@ {
            lemma_incremented_ascending(c.sendpay_events, seq!["failure"@]);
            lemma_payment_stays_cumulative(c.sendpay_latency, failure_data(body));
        }
    }
}

proof fn lemma_incremented_ascending(entries: Entries<u64>, key: Seq<Seq<char>>)
    requires
        ascending(entries),
    ensures
        ascending(incremented(entries, key)),
{
    let count = match value_of(entries, key) {
        Some(count) => count as int,
        None => 0,
    };
    law_put_then_get(entries, key, (count + 1) as u64, key);
}

proof fn lemma_payment_stays_cumulative(histogram: HistogramView, data: Json)
    requires
        cumulative(histogram),
    ensures
        cumulative(with_payment(histogram, data)),
{
    if let (Some(created), Some(completed)) = (
        data.unsigned_at("created_at"@),
        data.unsigned_at("completed_at"@),
    ) {
        law_histogram_stays_cumulative(histogram, seconds_between(created, completed));
    }
}

fn field<'a>(body: &'a Json, name: &str) -> (r: &'a str)
    ensures
        r@ == named(*body, name@),
{
    body.text_field_or(name, "unknown")
}

fn count_pair(
    map: &mut OrderedMap<(String, String), u64>,
    first: &str,
    second: &str,
    overflow: &str,
    overflow2: &str,
)
    requires
        has_bounded_room(old(map)@, seq![first@, second@], seq![overflow@, overflow2@]),
    ensures
        final(map)@ == bounded_incremented(
            old(map)@,
            seq![first@, second@],
            seq![overflow@, overflow2@],
        ),
{
    bounded_increment(
        map,
        (first.to_owned(), second.to_owned()),
        (overflow.to_owned(), overflow2.to_owned()),
    );
}

fn count_text(map: &mut OrderedMap<String, u64>, key: &str)
    requires
        has_bounded_room(old(map)@, seq![key@], seq!["other"@]),
    ensures
        final(map)@ == bounded_incremented(old(map)@, seq![key@], seq!["other"@]),
{
    bounded_increment(map, key.to_owned(), "other".to_owned());
}

fn count_known(map: &mut OrderedMap<String, u64>, key: &str)
    requires
        has_room_for(old(map)@, seq![key@]),
    ensures
        final(map)@ == incremented(old(map)@, seq![key@]),
{
    map.increment(key.to_owned());
}

fn receive(flows: &mut OrderedMap<String, ForwardingFlow>, channel: &str, amount: u64, fee: u64)
    ensures
        final(flows)@ == with_received(old(flows)@, channel@, amount, fee),
{
    let key = channel.to_owned();
    if flows.len() < MAX_DYNAMIC_KEYS || flows.contains_key(&key) {
        let mut flow = match flows.get(&key) {
            Some(flow) => *flow,
            None => ForwardingFlow::default(),
        };
        flow.received_msat = flow.received_msat.saturating_add(amount);
        flow.fees_msat = flow.fees_msat.saturating_add(fee);
        flows.insert(key, flow);
    }
}

fn send(flows: &mut OrderedMap<String, ForwardingFlow>, channel: &str, amount: u64)
    ensures
        final(flows)@ == with_sent(old(flows)@, channel@, amount),
{
    let key = channel.to_owned();
    if !same_text(channel, "unknown") && (flows.len() < MAX_DYNAMIC_KEYS || flows.contains_key(
        &key,
    )) {
        let mut flow = match flows.get(&key) {
            Some(flow) => *flow,
            None => ForwardingFlow::default(),
        };
        flow.sent_msat = flow.sent_msat.saturating_add(amount);
        flows.insert(key, flow);
    }
}

fn connect(peers: &mut OrderedMap<String, PeerConnection>, peer: &str, now: u64)
    ensures
        final(peers)@ == with_connected(old(peers)@, peer@, now),
{
    let key = peer.to_owned();
    if peers.len() < MAX_TRACKED_PEERS || peers.contains_key(&key) {
        let mut connection = match peers.get(&key) {
            Some(connection) => *connection,
            None => PeerConnection::default(),
        };
        connection.connects = connection.connects.saturating_add(1);
        if connection.connected_since.is_none() {
            connection.connected_since = Some(now);
        }
        peers.insert(key, connection);
    }
}

fn disconnect(peers: &mut OrderedMap<String, PeerConnection>, peer: &str, now: u64)
    ensures
        final(peers)@ == with_disconnected(old(peers)@, peer@, now),
{
    let key = peer.to_owned();
    if peers.len() < MAX_TRACKED_PEERS || peers.contains_key(&key) {
        let mut connection = match peers.get(&key) {
            Some(connection) => *connection,
            None => PeerConnection::default(),
        };
        connection.disconnects = connection.disconnects.saturating_add(1);
        if let Some(since) = connection.connected_since {
            connection.connected_seconds_total =
            connection.connected_seconds_total.saturating_add(now.saturating_sub(since));
        }
        connection.connected_since = None;
        peers.insert(key, connection);
    }
}

fn observe_payment(histogram: &mut LatencyHistogram, data: &Json)
    ensures
        final(histogram)@ == with_payment(old(histogram)@, *data),
{
    if let (Some(created), Some(completed)) = (
        data.u64_field("created_at"),
        data.u64_field("completed_at"),
    ) {
        histogram.observe(completed.saturating_sub(created));
    }
}

fn room_for<K: Key>(map: &OrderedMap<K, u64>, key: &K) -> (r: bool)
    ensures
        r == has_room_for(map@, key.parts()),
{
    match map.get(key) {
        Some(count) => *count != u64::MAX,
        None => true,
    }
}

fn bounded_room<K: Key>(map: &OrderedMap<K, u64>, key: K, overflow: K) -> (r: bool)
    ensures
        r == has_bounded_room(map@, key.parts(), overflow.parts()),
{
    if map.contains_key(&key) || map.len() < MAX_DYNAMIC_KEYS {
        room_for(map, &key)
    } else {
        room_for(map, &overflow)
    }
}

fn room_for_pair(
    map: &OrderedMap<(String, String), u64>,
    first: &str,
    second: &str,
    overflow: &str,
    overflow2: &str,
) -> (r: bool)
    ensures
        r == has_bounded_room(map@, seq![first@, second@], seq![overflow@, overflow2@]),
{
    bounded_room(
        map,
        (first.to_owned(), second.to_owned()),
        (overflow.to_owned(), overflow2.to_owned()),
    )
}

impl EventCounters {
    /// Whether the counters that a notification goes to can count one more.
    pub fn has_room(&self, topic: &str, body: &Json) -> (r: bool)
        ensures
            r == can_count(self@, topic@, *body),
    {
        if !bounded_room(&self.notifications, topic.to_owned(), "other".to_owned()) {
            return false;
        }
        if same_text(topic, "warning") {
            room_for_pair(
                &self.warnings,
                field(body, "level"),
                field(body, "source"),
                "unknown",
                "other",
            )
        } else if same_text(topic, "plugin_started") {
            room_for_pair(
                &self.plugin_events,
                field(body, "plugin_name"),
                "started",
                "other",
                "unknown",
            )
        } else if same_text(topic, "plugin_stopped") {
            room_for_pair(
                &self.plugin_events,
                field(body, "plugin_name"),
                "stopped",
                "other",
                "unknown",
            )
        } else if same_text(topic, "channel_state_changed") {
            room_for_pair(
                &self.channel_transitions,
                field(body, "new_state"),
                field(body, "cause"),
                "other",
                "unknown",
            )
        } else if same_text(topic, "forward_event") {
            bounded_room(&self.forwards, field(body, "status").to_owned(), "other".to_owned())
        } else if same_text(topic, "coin_movement") {
            room_for_pair(
                &self.coin_movements,
                field(body, "type"),
                field(body, "primary_tag"),
                "other",
                "other",
            )
        } else if same_text(topic, "invoice_creation") {
            room_for(&self.invoice_events, &"created".to_owned())
        } else if same_text(topic, "invoice_payment") {
            room_for(&self.invoice_events, &"paid".to_owned())
        } else if same_text(topic, "sendpay_success") {
            room_for(&self.sendpay_events, &"success".to_owned())
        } else if same_text(topic, "sendpay_failure") {
            room_for(&self.sendpay_events, &"failure".to_owned())
        } else {
            true
        }
    }

    /// Counts a notification.
    pub fn record(&mut self, topic: &str, body: &Json, now: u64)
        requires
            can_count(old(self)@, topic@, *body),
        ensures
            final(self)@ == after_notification(old(self)@, topic@, *body, now),
    {
        count_text(&mut self.notifications, topic);
        if same_text(topic, "warning") {
            count_pair(
                &mut self.warnings,
                field(body, "level"),
                field(body, "source"),
                "unknown",
                "other",
            );
        } else if same_text(topic, "plugin_started") {
            count_pair(
                &mut self.plugin_events,
                field(body, "plugin_name"),
                "started",
                "other",
                "unknown",
            );
        } else if same_text(topic, "plugin_stopped") {
            count_pair(
                &mut self.plugin_events,
                field(body, "plugin_name"),
                "stopped",
                "other",
                "unknown",
            );
        } else if same_text(topic, "channel_state_changed") {
            count_pair(
                &mut self.channel_transitions,
                field(body, "new_state"),
                field(body, "cause"),
                "other",
                "unknown",
            );
        } else if same_text(topic, "forward_event") {
            count_text(&mut self.forwards, field(body, "status"));
            if same_text(field(body, "status"), "settled") {
                receive(
                    &mut self.forwarding_channels,
                    field(body, "in_channel"),
                    body.msat_field_or_zero("in_msat"),
                    body.msat_field_or_zero("fee_msat"),
                );
                send(
                    &mut self.forwarding_channels,
                    field(body, "out_channel"),
                    body.msat_field_or_zero("out_msat"),
                );
            }
        } else if same_text(topic, "coin_movement") {
            count_pair(
                &mut self.coin_movements,
                field(body, "type"),
                field(body, "primary_tag"),
                "other",
                "other",
            );
        } else if same_text(topic, "block_added") {
            self.latest_block_height = body.u64_field("height");
            self.latest_block_time = Some(now);
        } else if same_text(topic, "connect") {
            connect(&mut self.peers, field(body, "id"), now);
        } else if same_text(topic, "disconnect") {
            disconnect(&mut self.peers, field(body, "id"), now);
        } else if same_text(topic, "invoice_creation") {
            count_known(&mut self.invoice_events, "created");
            let label = field(body, "label").to_owned();
            if self.invoice_created_at.len() < MAX_PENDING_INVOICES
                || self.invoice_created_at.contains_key(&label) {
                self.invoice_created_at.insert(label, now);
            }
        } else if same_text(topic, "invoice_payment") {
            count_known(&mut self.invoice_events, "paid");
            let label = field(body, "label").to_owned();
            if let Some(created_at) = self.invoice_created_at.remove(&label) {
                self.invoice_latency.observe(now.saturating_sub(created_at));
            }
        } else if same_text(topic, "sendpay_success") {
            count_known(&mut self.sendpay_events, "success");
            observe_payment(&mut self.sendpay_latency, body);
        } else if same_text(topic, "sendpay_failure") {
            count_known(&mut self.sendpay_events, "failure");
            match body.get("data") {
                Some(data) => observe_payment(&mut self.sendpay_latency, data),
                None => observe_payment(&mut self.sendpay_latency, body),
            }
        }
    }
}

/// A warning is counted by its level and its source alone: whatever else it says is not recorded.
pub proof fn law_warnings_are_counted_by_level_and_source(
    c: CountersView,
    one: Json,
    other: Json,
    now: u64,
)
    requires
        one.text_at("level"@) == other.text_at("level"@),
        one.text_at("source"@) == other.text_at("source"@),
    ensures
        after_notification(c, "warning"@, one, now) == after_notification(
            c,
            "warning"@,
            other,
            now,
        ),
{
}

} // verus!
