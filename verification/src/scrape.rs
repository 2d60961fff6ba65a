//! One scrape: everything that was fetched, written as one exposition.

use crate::accounting::{
    bookkeeper_lines, channel_apy_lines, collect_bookkeeper, collect_channel_apy, collect_tracker,
    percentages_of, tracker_lines,
};
use crate::channels::{channels_lines, collect_channels, ChannelContext};
use crate::event_metrics::{collect_events, events_lines};
use crate::events::{CountersView, EventCounters};
use crate::exposition::{
    family_line, integer, line0, line1, mentions, overlaps, truth, truth_value, LineView, Metrics,
    SampleValue, ValueView,
};
use crate::json::{Json, JsonNumber};
use crate::node::{
    anchor_tank_lines, collect_anchor_tank, collect_feerates, collect_funds, collect_liquidity_ad,
    collect_node, collect_peers, collect_plugins, feerates_lines, funds_lines, liquidity_ad_lines,
    node_lines, peers_lines, plugins_lines,
};
use crate::ordered::{Entries, Key};
use crate::plugin_metrics::{Batch, Collection, Family, PluginMetrics, Sample};
use crate::text::{joined, same_text};
use vstd::prelude::*;

verus! {

/// The value of a plugin's sample.
pub open spec fn number_value(n: JsonNumber) -> ValueView {
    match n {
        JsonNumber::Unsigned(n) => integer(n as int),
        JsonNumber::Negative(n) => integer(n as int),
        JsonNumber::Float(text) => ValueView::Decimal(text@),
    }
}

fn value_of_number(n: &JsonNumber) -> (r: SampleValue)
    ensures
        r@ == number_value(*n),
{
    match n {
        JsonNumber::Unsigned(n) => SampleValue::Unsigned(*n as u128),
        JsonNumber::Negative(n) => SampleValue::Signed(*n as i128),
        JsonNumber::Float(text) => SampleValue::Decimal(text.clone()),
    }
}

/// The labels of a plugin's sample, in order.
pub open spec fn label_pairs(labels: Entries<String>) -> Seq<(Seq<char>, Seq<char>)> {
    Seq::new(labels.len(), |i: int| (labels[i].0[0], labels[i].1@))
}

/// The samples of one family of a plugin.
pub open spec fn plugin_sample_lines(name: Seq<char>, samples: Seq<Sample>) -> Seq<LineView> {
    Seq::new(
        samples.len(),
        |i: int|
            LineView::Sample {
                name,
                labels: label_pairs(samples[i].labels@),
                value: number_value(samples[i].value),
            },
    )
}

/// The name under which a family of a plugin is written.
pub open spec fn plugin_metric_name(namespace: Seq<char>, family: Seq<char>) -> Seq<char> {
    "cln_"@ + namespace + "_"@ + family
}

/// What is written of the families of a plugin.
pub open spec fn plugin_families_lines(namespace: Seq<char>, families: Seq<Family>) -> Seq<LineView>
    decreases families.len(),
{
    if families.len() == 0 {
        Seq::empty()
    } else {
        let family = families.last();
        let name = plugin_metric_name(namespace, family.name@);
        plugin_families_lines(namespace, families.drop_last()) + seq![
            family_line(name, family.help@, family.kind.text()),
        ] + plugin_sample_lines(name, family.samples@)
    }
}

/// Whether a family of the plugin has the name of a metric that was written before.
pub open spec fn conflicts(
    lines: Seq<LineView>,
    namespace: Seq<char>,
    families: Seq<Family>,
) -> bool {
    exists|i: int|
        0 <= i < families.len() && mentions(
            lines,
            plugin_metric_name(namespace, (#[trigger] families[i]).name@),
        )
}

fn metric_name(namespace: &str, family: &str) -> (r: String)
    ensures
        r@ == plugin_metric_name(namespace@, family@),
{
    let prefix = joined("cln_", namespace);
    let separated = joined(prefix.as_str(), "_");
    joined(separated.as_str(), family)
}

fn write_plugin_sample(metrics: &mut Metrics, name: &str, sample: &Sample)
    ensures
        final(metrics)@ == old(metrics)@.push(
            LineView::Sample {
                name: name@,
                labels: label_pairs(sample.labels@),
                value: number_value(sample.value),
            },
        ),
{
    let mut labels: Vec<(&str, &str)> = Vec::new();
    let mut i: usize = 0;
    while i < sample.labels.len()
        invariant
            i <= sample.labels@.len(),
            labels@.len() == i,
            forall|j: int|
                0 <= j < i ==> (#[trigger] labels@[j]).0@ == label_pairs(sample.labels@)[j].0
                    && labels@[j].1@ == label_pairs(sample.labels@)[j].1,
        decreases sample.labels@.len() - i,
    {
        let key = sample.labels.key_at(i);
        assert(key.parts()[0] == key@);
        labels.push((key.as_str(), sample.labels.value_at(i).as_str()));
        i = i + 1;
    }
    let slice = labels.as_slice();
    assert(slice.deep_view() =~= label_pairs(sample.labels@));
    metrics.sample(name, slice, value_of_number(&sample.value));
}

fn write_plugin_family(metrics: &mut Metrics, name: &str, family: &Family)
    ensures
        final(metrics)@ == old(metrics)@ + seq![
            family_line(name@, family.help@, family.kind.text()),
        ] + plugin_sample_lines(name@, family.samples@),
{
    metrics.family(name, family.help.as_str(), family.kind.as_str());
    let ghost head = metrics@;
    let mut i: usize = 0;
    while i < family.samples.len()
        invariant
            i <= family.samples@.len(),
            metrics@ =~= head + plugin_sample_lines(name@, family.samples@).take(i as int),
        decreases family.samples@.len() - i,
    {
        write_plugin_sample(metrics, name, &family.samples[i]);
        i = i + 1;
    }
    assert(metrics@ =~= old(metrics)@ + seq![
        family_line(name@, family.help@, family.kind.text()),
    ] + plugin_sample_lines(name@, family.samples@));
}

/// Writes what a plugin sent, under the prefix of its namespace. Where one of its metrics was
/// already written, nothing is, and the first such name is handed back.
pub fn render_plugin_metrics(metrics: &mut Metrics, plugin: &PluginMetrics) -> (r: Result<
    (),
    String,
>)
    ensures
        r is Err <==> conflicts(old(metrics)@, plugin.namespace@, plugin.families@),
        r is Ok ==> final(metrics)@ == old(metrics)@ + plugin_families_lines(
            plugin.namespace@,
            plugin.families@,
        ),
        r matches Err(name) ==> {
            &&& final(metrics)@ == old(metrics)@
            &&& exists|i: int|
                0 <= i < plugin.families@.len() && name@ == plugin_metric_name(
                    plugin.namespace@,
                    (#[trigger] plugin.families@[i]).name@,
                ) && mentions(old(metrics)@, name@) && !conflicts(
                    old(metrics)@,
                    plugin.namespace@,
                    plugin.families@.take(i),
                )
        },
{
    let families = &plugin.families;
    let namespace = plugin.namespace.as_str();
    let mut i: usize = 0;
    while i < families.len()
        invariant
            i <= families@.len(),
            families@ == plugin.families@,
            namespace@ == plugin.namespace@,
            metrics@ == old(metrics)@,
            forall|j: int|
                0 <= j < i ==> !mentions(
                    metrics@,
                    plugin_metric_name(namespace@, (#[trigger] families@[j]).name@),
                ),
        decreases families@.len() - i,
    {
        let name = metric_name(namespace, families[i].name.as_str());
        if metrics.has_name(name.as_str()) {
            assert(name@ == plugin_metric_name(plugin.namespace@, plugin.families@[i as int].name@));
            assert(!conflicts(old(metrics)@, plugin.namespace@, plugin.families@.take(i as int)));
            return Err(name);
        }
        i = i + 1;
    }
    let mut k: usize = 0;
    assert(families@.take(0) =~= seq![]);
    while k < families.len()
        invariant
            k <= families@.len(),
            metrics@ =~= old(metrics)@ + plugin_families_lines(namespace@, families@.take(k as int)),
        decreases families@.len() - k,
    {
        assert(families@.take(k + 1).drop_last() =~= families@.take(k as int));
        let name = metric_name(namespace, families[k].name.as_str());
        write_plugin_family(metrics, name.as_str(), &families[k]);
        k = k + 1;
    }
    assert(families@.take(k as int) =~= families@);
    Ok(())
}

/// The answer to one call of the node. The duration is in seconds, as a decimal number; a call that
/// failed has no value.
pub struct Reply {
    pub duration: String,
    pub value: Option<Json>,
}

/// The answers that one scrape is made of.
pub struct Replies {
    pub node: Reply,
    pub funds: Reply,
    pub channels: Reply,
    pub peers: Reply,
    pub feerates: Reply,
    pub configs: Reply,
    pub plugins: Reply,
    pub tracker: Reply,
    pub bookkeeper: Reply,
    pub channel_apy: Reply,
    pub liquidity_ad: Reply,
}

/// The two samples about a collector.
pub open spec fn collector_lines(
    collector: Seq<char>,
    duration: Seq<char>,
    success: bool,
) -> Seq<LineView> {
    seq![
        line1("cln_exporter_collector_success"@, "collector"@, collector, truth(success)),
        line1(
            "cln_exporter_collector_duration_seconds"@,
            "collector"@,
            collector,
            ValueView::Decimal(duration),
        ),
    ]
}

/// Writes whether a collector succeeded and how long it took.
pub fn record_collector(metrics: &mut Metrics, collector: &str, duration: &str, success: bool)
    ensures
        final(metrics)@ == old(metrics)@ + collector_lines(collector@, duration@, success),
{
    metrics.sample1(
        "cln_exporter_collector_success",
        "collector",
        collector,
        truth_value(success),
    );
    metrics.sample1(
        "cln_exporter_collector_duration_seconds",
        "collector",
        collector,
        SampleValue::Decimal(duration.to_owned()),
    );
    assert(metrics@ =~= old(metrics)@ + collector_lines(collector@, duration@, success));
}

fn finish(metrics: &mut Metrics, collector: &str, reply: &Reply)
    ensures
        final(metrics)@ == old(metrics)@ + collector_lines(
            collector@,
            reply.duration@,
            reply.value is Some,
        ),
{
    record_collector(metrics, collector, reply.duration.as_str(), reply.value.is_some());
}

/// What is written of a collector: what its answer says, where there is one, and how it went.
pub open spec fn finished(collector: Seq<char>, reply: Reply, lines: Seq<LineView>) -> Seq<
    LineView,
> {
    (if reply.value is Some {
        lines
    } else {
        Seq::empty()
    }) + collector_lines(collector, reply.duration@, reply.value is Some)
}

/// The heads of the exporter's own metrics.
pub open spec fn exporter_lines() -> Seq<LineView> {
    seq![
        family_line("cln_exporter_up"@, "Whether the exporter process is running."@, "gauge"@),
        family_line(
            "cln_exporter_collector_success"@,
            "Whether the most recent collector RPC succeeded."@,
            "gauge"@,
        ),
        family_line(
            "cln_exporter_collector_duration_seconds"@,
            "Duration of the most recent collector RPC."@,
            "gauge"@,
        ),
        family_line(
            "cln_exporter_plugin_collector_success"@,
            "Whether a discovered plugin metrics RPC returned valid, non-conflicting metrics."@,
            "gauge"@,
        ),
        family_line(
            "cln_exporter_plugin_collector_duration_seconds"@,
            "Duration of a discovered plugin metrics RPC."@,
            "gauge"@,
        ),
        family_line(
            "cln_exporter_plugin_collector_samples"@,
            "Number of samples accepted from a discovered plugin metrics RPC."@,
            "gauge"@,
        ),
        line0("cln_exporter_up"@, integer(1)),
    ]
}

fn write_exporter(metrics: &mut Metrics)
    ensures
        final(metrics)@ == old(metrics)@ + exporter_lines(),
{
    metrics.family("cln_exporter_up", "Whether the exporter process is running.", "gauge");
    metrics.family(
        "cln_exporter_collector_success",
        "Whether the most recent collector RPC succeeded.",
        "gauge",
    );
    metrics.family(
        "cln_exporter_collector_duration_seconds",
        "Duration of the most recent collector RPC.",
        "gauge",
    );
    metrics.family(
        "cln_exporter_plugin_collector_success",
        "Whether a discovered plugin metrics RPC returned valid, non-conflicting metrics.",
        "gauge",
    );
    metrics.family(
        "cln_exporter_plugin_collector_duration_seconds",
        "Duration of a discovered plugin metrics RPC.",
        "gauge",
    );
    metrics.family(
        "cln_exporter_plugin_collector_samples",
        "Number of samples accepted from a discovered plugin metrics RPC.",
        "gauge",
    );
    metrics.sample0("cln_exporter_up", SampleValue::Unsigned(1));
    assert(metrics@ =~= old(metrics)@ + exporter_lines());
}

/// The block height that a `getinfo` answer names, or 0.
pub open spec fn height_of(node: Reply) -> u64 {
    match node.value {
        Some(value) => value.unsigned_or_zero("blockheight"@),
        None => 0,
    }
}

/// What the exporter was configured to, where it matters for a scrape.
#[derive(Clone, Copy, Debug)]
pub struct ScrapeSettings {
    pub liquidity_target_percent: u64,
    pub htlc_warning_blocks: u64,
}

/// What the channel collector goes by besides the channels.
pub open spec fn channel_context(replies: Replies, settings: ScrapeSettings) -> ChannelContext<
    'static,
> {
    ChannelContext {
        target_percent: settings.liquidity_target_percent,
        blockheight: height_of(replies.node),
        htlc_warning_blocks: settings.htlc_warning_blocks,
        feerates: match replies.feerates.value {
            Some(value) => Some(&value),
            None => None,
        },
    }
}

/// What is written of the node's own answers, up to the feerates and settings.
pub open spec fn base_lines(replies: Replies) -> Seq<LineView> {
    finished("node"@, replies.node, node_lines(replies.node.value->0)) + finished(
        "funds"@,
        replies.funds,
        funds_lines(replies.funds.value->0),
    ) + finished("peers"@, replies.peers, peers_lines(replies.peers.value->0)) + finished(
        "feerates"@,
        replies.feerates,
        feerates_lines(replies.feerates.value->0),
    ) + finished("configs"@, replies.configs, seq![])
}

/// What is written of the reserve for anchor closes, where all that it takes was answered.
pub open spec fn tank_lines(replies: Replies) -> Seq<LineView> {
    if replies.funds.value is Some && replies.channels.value is Some && replies.feerates.value
        is Some && replies.configs.value is Some {
        anchor_tank_lines(
            replies.funds.value->0,
            replies.channels.value->0,
            replies.feerates.value->0,
            replies.configs.value->0,
        )
    } else {
        Seq::empty()
    }
}

/// The id of the node, where `getinfo` answered with one.
pub open spec fn node_id(node: Reply) -> Option<Seq<char>> {
    match node.value {
        Some(value) => value.text_at("id"@),
        None => None,
    }
}

/// What is written of the liquidity advertisement. Without a node id it was not asked for.
pub open spec fn advertising_lines(replies: Replies) -> Seq<LineView> {
    if node_id(replies.node) is Some {
        finished(
            "liquidity_ad"@,
            replies.liquidity_ad,
            liquidity_ad_lines(replies.liquidity_ad.value->0),
        )
    } else {
        collector_lines("liquidity_ad"@, "0"@, false)
    }
}

/// What is written of channels, plugins, accounts and the reserve.
pub open spec fn detail_lines(
    replies: Replies,
    ratios: Seq<Option<Seq<char>>>,
    settings: ScrapeSettings,
) -> Seq<LineView> {
    finished(
        "channels"@,
        replies.channels,
        channels_lines(replies.channels.value->0, channel_context(replies, settings)),
    ) + finished("plugins"@, replies.plugins, plugins_lines(replies.plugins.value->0)) + finished(
        "bookkeeper"@,
        replies.bookkeeper,
        bookkeeper_lines(replies.bookkeeper.value->0),
    ) + finished(
        "channel_apy"@,
        replies.channel_apy,
        channel_apy_lines(replies.channel_apy.value->0, ratios),
    ) + tank_lines(replies) + advertising_lines(replies)
}

/// What was written, and whether the tracker's own metrics are part of it.
pub struct Rendered {
    pub lines: Seq<LineView>,
    pub tracker: bool,
}

/// The samples about the collection of one plugin's metrics.
pub open spec fn plugin_collector_lines(
    rpc: Seq<char>,
    success: bool,
    duration: Seq<char>,
    samples: int,
) -> Seq<LineView> {
    seq![
        line1("cln_exporter_plugin_collector_success"@, "rpc"@, rpc, truth(success)),
        line1(
            "cln_exporter_plugin_collector_duration_seconds"@,
            "rpc"@,
            rpc,
            ValueView::Decimal(duration),
        ),
        line1("cln_exporter_plugin_collector_samples"@, "rpc"@, rpc, integer(samples)),
    ]
}

/// Whether a collection is written: it succeeded, none of its metrics was written before, and, unless
/// it is the tracker's own, none of them is reserved.
pub open spec fn is_rendered(
    lines: Seq<LineView>,
    reserved: Seq<LineView>,
    collection: Collection,
) -> bool {
    match collection.result {
        Ok(plugin) => !conflicts(lines, plugin.namespace@, plugin.families@) && (plugin.namespace@
            == "tracker"@ || !conflicts(reserved, plugin.namespace@, plugin.families@)),
        Err(_) => false,
    }
}

/// What has been written after one more collection, where some metrics are reserved for the tracker.
pub open spec fn with_collection(
    before: Rendered,
    reserved: Seq<LineView>,
    collection: Collection,
) -> Rendered {
    let success = is_rendered(before.lines, reserved, collection);
    let plugin = collection.result->Ok_0;
    Rendered {
        lines: (if success {
            before.lines + plugin_families_lines(plugin.namespace@, plugin.families@)
        } else {
            before.lines
        }) + plugin_collector_lines(
            collection.rpc@,
            success,
            collection.duration@,
            if success {
                plugin.sample_count as int
            } else {
                0
            },
        ),
        tracker: before.tracker || (success && plugin.namespace@ == "tracker"@),
    }
}

/// What has been written after the collections, where some metrics are reserved for the tracker.
pub open spec fn with_collections(
    lines: Seq<LineView>,
    reserved: Seq<LineView>,
    collections: Seq<Collection>,
) -> Rendered
    decreases collections.len(),
{
    if collections.len() == 0 {
        Rendered { lines, tracker: false }
    } else {
        with_collection(
            with_collections(lines, reserved, collections.drop_last()),
            reserved,
            collections.last(),
        )
    }
}

/// What is written of the tracker's health where the tracker has no metrics of its own.
pub open spec fn fallback_lines(tracker: Reply) -> Seq<LineView> {
    match tracker.value {
        Some(value) => tracker_lines(value),
        None => Seq::empty(),
    }
}

/// What has been written after the collections, so that the tracker's health can follow. Where it would
/// repeat a metric that was written, its metrics are reserved from the start.
pub open spec fn settled(
    lines: Seq<LineView>,
    fallback: Seq<LineView>,
    collections: Seq<Collection>,
) -> Rendered {
    let unreserved = with_collections(lines, Seq::empty(), collections);
    if unreserved.tracker || !overlaps(unreserved.lines, fallback) {
        unreserved
    } else {
        with_collections(lines, fallback, collections)
    }
}

/// What one scrape writes ahead of the discovered collections.
pub open spec fn head_lines(
    replies: Replies,
    ratios: Seq<Option<Seq<char>>>,
    settings: ScrapeSettings,
    events: CountersView,
    now: u64,
    batch: Batch,
) -> Seq<LineView> {
    exporter_lines() + base_lines(replies) + detail_lines(replies, ratios, settings) + events_lines(
        events,
        now,
    ) + collector_lines(
        "plugin_metrics_discovery"@,
        batch.discovery_duration@,
        batch.discovery_error is None,
    )
}

/// Everything that one scrape writes. The tracker's health is asked for only where the tracker has
/// no metrics of its own.
pub open spec fn scrape_lines(
    replies: Replies,
    ratios: Seq<Option<Seq<char>>>,
    settings: ScrapeSettings,
    events: CountersView,
    now: u64,
    batch: Batch,
) -> Seq<LineView> {
    let head = head_lines(replies, ratios, settings, events, now, batch);
    let rendered = settled(head, fallback_lines(replies.tracker), batch.collections@);
    rendered.lines + if rendered.tracker {
        Seq::empty()
    } else {
        finished("tracker"@, replies.tracker, tracker_lines(replies.tracker.value->0))
    }
}

fn finish_node(metrics: &mut Metrics, reply: &Reply)
    ensures
        final(metrics)@ == old(metrics)@ + finished("node"@, *reply, node_lines(reply.value->0)),
{
    if let Some(value) = &reply.value {
        collect_node(metrics, value);
    }
    finish(metrics, "node", reply);
    assert(metrics@ =~= old(metrics)@ + finished("node"@, *reply, node_lines(reply.value->0)));
}

fn finish_funds(metrics: &mut Metrics, reply: &Reply)
    ensures
        final(metrics)@ == old(metrics)@ + finished("funds"@, *reply, funds_lines(reply.value->0)),
{
    if let Some(value) = &reply.value {
        collect_funds(metrics, value);
    }
    finish(metrics, "funds", reply);
    assert(metrics@ =~= old(metrics)@ + finished("funds"@, *reply, funds_lines(reply.value->0)));
}

fn finish_peers(metrics: &mut Metrics, reply: &Reply)
    ensures
        final(metrics)@ == old(metrics)@ + finished("peers"@, *reply, peers_lines(reply.value->0)),
{
    if let Some(value) = &reply.value {
        collect_peers(metrics, value);
    }
    finish(metrics, "peers", reply);
    assert(metrics@ =~= old(metrics)@ + finished("peers"@, *reply, peers_lines(reply.value->0)));
}

fn finish_feerates(metrics: &mut Metrics, reply: &Reply)
    ensures
        final(metrics)@ == old(metrics)@ + finished("feerates"@, *reply, feerates_lines(reply.value->0)),
{
    if let Some(value) = &reply.value {
        collect_feerates(metrics, value);
    }
    finish(metrics, "feerates", reply);
    assert(metrics@ =~= old(metrics)@ + finished("feerates"@, *reply, feerates_lines(reply.value->0)));
}

fn finish_plugins(metrics: &mut Metrics, reply: &Reply)
    ensures
        final(metrics)@ == old(metrics)@ + finished("plugins"@, *reply, plugins_lines(reply.value->0)),
{
    if let Some(value) = &reply.value {
        collect_plugins(metrics, value);
    }
    finish(metrics, "plugins", reply);
    assert(metrics@ =~= old(metrics)@ + finished("plugins"@, *reply, plugins_lines(reply.value->0)));
}

fn finish_bookkeeper(metrics: &mut Metrics, reply: &Reply)
    ensures
        final(metrics)@ == old(metrics)@ + finished("bookkeeper"@, *reply, bookkeeper_lines(reply.value->0)),
{
    if let Some(value) = &reply.value {
        collect_bookkeeper(metrics, value);
    }
    finish(metrics, "bookkeeper", reply);
    assert(metrics@ =~= old(metrics)@ + finished("bookkeeper"@, *reply, bookkeeper_lines(reply.value->0)));
}

fn finish_tracker(metrics: &mut Metrics, reply: &Reply)
    ensures
        final(metrics)@ == old(metrics)@ + finished("tracker"@, *reply, tracker_lines(reply.value->0)),
{
    if let Some(value) = &reply.value {
        collect_tracker(metrics, value);
    }
    finish(metrics, "tracker", reply);
    assert(metrics@ =~= old(metrics)@ + finished("tracker"@, *reply, tracker_lines(reply.value->0)));
}

fn finish_liquidity_ad(metrics: &mut Metrics, reply: &Reply)
    ensures
        final(metrics)@ == old(metrics)@ + finished("liquidity_ad"@, *reply, liquidity_ad_lines(reply.value->0)),
{
    if let Some(value) = &reply.value {
        collect_liquidity_ad(metrics, value);
    }
    finish(metrics, "liquidity_ad", reply);
    assert(metrics@ =~= old(metrics)@ + finished("liquidity_ad"@, *reply, liquidity_ad_lines(reply.value->0)));
}

fn write_base(metrics: &mut Metrics, replies: &Replies)
    ensures
        final(metrics)@ == old(metrics)@ + base_lines(*replies),
{
    finish_node(metrics, &replies.node);
    finish_funds(metrics, &replies.funds);
    finish_peers(metrics, &replies.peers);
    finish_feerates(metrics, &replies.feerates);
    finish(metrics, "configs", &replies.configs);
    assert(metrics@ =~= old(metrics)@ + base_lines(*replies));
}

/// The id that the node's advertisement is asked for by.
pub fn advertised_node(node: &Reply) -> (r: Option<&str>)
    ensures
        r.deep_view() == node_id(*node),
{
    match &node.value {
        Some(value) => value.text_field("id"),
        None => None,
    }
}

fn write_channels(metrics: &mut Metrics, replies: &Replies, settings: &ScrapeSettings)
    ensures
        final(metrics)@ == old(metrics)@ + finished(
            "channels"@,
            replies.channels,
            channels_lines(replies.channels.value->0, channel_context(*replies, *settings)),
        ),
{
    if let Some(value) = &replies.channels.value {
        let blockheight: u64 = match &replies.node.value {
            Some(node) => node.u64_field_or_zero("blockheight"),
            None => 0,
        };
        let feerates = match &replies.feerates.value {
            Some(feerates) => Some(feerates),
            None => None,
        };
        collect_channels(
            metrics,
            value,
            settings.liquidity_target_percent,
            blockheight,
            settings.htlc_warning_blocks,
            feerates,
        );
    }
    finish(metrics, "channels", &replies.channels);
    assert(metrics@ =~= old(metrics)@ + finished(
        "channels"@,
        replies.channels,
        channels_lines(replies.channels.value->0, channel_context(*replies, *settings)),
    ));
}

fn write_tank(metrics: &mut Metrics, replies: &Replies)
    ensures
        final(metrics)@ == old(metrics)@ + tank_lines(*replies),
{
    if let (Some(funds), Some(channels), Some(feerates), Some(configs)) = (
        &replies.funds.value,
        &replies.channels.value,
        &replies.feerates.value,
        &replies.configs.value,
    ) {
        collect_anchor_tank(metrics, funds, channels, feerates, configs);
    }
    assert(metrics@ =~= old(metrics)@ + tank_lines(*replies));
}

fn write_advertising(metrics: &mut Metrics, replies: &Replies)
    ensures
        final(metrics)@ == old(metrics)@ + advertising_lines(*replies),
{
    if advertised_node(&replies.node).is_some() {
        finish_liquidity_ad(metrics, &replies.liquidity_ad);
    } else {
        record_collector(metrics, "liquidity_ad", "0", false);
    }
    assert(metrics@ =~= old(metrics)@ + advertising_lines(*replies));
}

/// The percentages of the answer about the channels' yields, if there is one.
pub open spec fn expected_ratios(channel_apy: Reply) -> nat {
    match channel_apy.value {
        Some(value) => percentages_of(value.elements_at("channels_apy"@)).len(),
        None => 0,
    }
}

fn finish_channel_apy(metrics: &mut Metrics, reply: &Reply, ratios: &Vec<Option<String>>)
    requires
        ratios@.len() == expected_ratios(*reply),
    ensures
        final(metrics)@ == old(metrics)@ + finished(
            "channel_apy"@,
            *reply,
            channel_apy_lines(reply.value->0, ratios.deep_view()),
        ),
{
    if let Some(value) = &reply.value {
        collect_channel_apy(metrics, value, ratios);
    }
    finish(metrics, "channel_apy", reply);
    assert(metrics@ =~= old(metrics)@ + finished(
        "channel_apy"@,
        *reply,
        channel_apy_lines(reply.value->0, ratios.deep_view()),
    ));
}

proof fn lemma_appended(
    head: Seq<LineView>,
    a: Seq<LineView>,
    b: Seq<LineView>,
    c: Seq<LineView>,
    d: Seq<LineView>,
    e: Seq<LineView>,
    f: Seq<LineView>,
)
    ensures
        head + a + b + c + d + e + f == head + (a + b + c + d + e + f),
{
    assert(head + a + b + c + d + e + f =~= head + (a + b + c + d + e + f));
}

fn write_details(
    metrics: &mut Metrics,
    replies: &Replies,
    ratios: &Vec<Option<String>>,
    settings: &ScrapeSettings,
)
    requires
        ratios@.len() == expected_ratios(replies.channel_apy),
    ensures
        final(metrics)@ == old(metrics)@ + detail_lines(*replies, ratios.deep_view(), *settings),
{
    write_channels(metrics, replies, settings);
    finish_plugins(metrics, &replies.plugins);
    finish_bookkeeper(metrics, &replies.bookkeeper);
    finish_channel_apy(metrics, &replies.channel_apy, ratios);
    write_tank(metrics, replies);
    write_advertising(metrics, replies);
    proof {
        lemma_appended(
            old(metrics)@,
            finished(
                "channels"@,
                replies.channels,
                channels_lines(replies.channels.value->0, channel_context(*replies, *settings)),
            ),
            finished("plugins"@, replies.plugins, plugins_lines(replies.plugins.value->0)),
            finished(
                "bookkeeper"@,
                replies.bookkeeper,
                bookkeeper_lines(replies.bookkeeper.value->0),
            ),
            finished(
                "channel_apy"@,
                replies.channel_apy,
                channel_apy_lines(replies.channel_apy.value->0, ratios.deep_view()),
            ),
            tank_lines(*replies),
            advertising_lines(*replies),
        );
    }
}

/// Whether a family of the plugin has the name of a metric that is reserved.
fn is_reserved(reserved: &Metrics, plugin: &PluginMetrics) -> (r: bool)
    ensures
        r == conflicts(reserved@, plugin.namespace@, plugin.families@),
{
    let families = &plugin.families;
    let namespace = plugin.namespace.as_str();
    let mut i: usize = 0;
    while i < families.len()
        invariant
            i <= families@.len(),
            families@ == plugin.families@,
            namespace@ == plugin.namespace@,
            forall|j: int|
                0 <= j < i ==> !mentions(
                    reserved@,
                    plugin_metric_name(namespace@, (#[trigger] families@[j]).name@),
                ),
        decreases families@.len() - i,
    {
        let name = metric_name(namespace, families[i].name.as_str());
        if reserved.has_name(name.as_str()) {
            assert(name@ == plugin_metric_name(plugin.namespace@, plugin.families@[i as int].name@));
            return true;
        }
        i = i + 1;
    }
    false
}

fn write_collection(
    metrics: &mut Metrics,
    reserved: &Metrics,
    collection: &Collection,
    Ghost(tracker): Ghost<bool>,
) -> (r: bool)
    ensures
        ({
            let after = with_collection(
                (Rendered { lines: old(metrics)@, tracker }),
                reserved@,
                *collection,
            );
            final(metrics)@ == after.lines && after.tracker == (tracker || r)
        }),
{
    let mut samples: usize = 0;
    let mut success = false;
    let mut is_tracker = false;
    if let Ok(plugin) = &collection.result {
        let own = same_text(plugin.namespace.as_str(), "tracker");
        if (own || !is_reserved(reserved, plugin)) && render_plugin_metrics(
            metrics,
            plugin,
        ).is_ok() {
            success = true;
            samples = plugin.sample_count;
            is_tracker = own;
        }
    }
    let ghost head = metrics@;
    let rpc = collection.rpc.as_str();
    metrics.sample1("cln_exporter_plugin_collector_success", "rpc", rpc, truth_value(success));
    metrics.sample1(
        "cln_exporter_plugin_collector_duration_seconds",
        "rpc",
        rpc,
        SampleValue::Decimal(collection.duration.clone()),
    );
    metrics.sample1(
        "cln_exporter_plugin_collector_samples",
        "rpc",
        rpc,
        SampleValue::Unsigned(samples as u128),
    );
    assert(metrics@ =~= head + plugin_collector_lines(
        rpc@,
        success,
        collection.duration@,
        samples as int,
    ));
    is_tracker
}

fn write_collections(
    metrics: &mut Metrics,
    reserved: &Metrics,
    collections: &Vec<Collection>,
) -> (r: bool)
    ensures
        final(metrics)@ == with_collections(old(metrics)@, reserved@, collections@).lines,
        r == with_collections(old(metrics)@, reserved@, collections@).tracker,
{
    let ghost before = metrics@;
    let mut tracker_rendered = false;
    let mut i: usize = 0;
    assert(collections@.take(0) =~= seq![]);
    while i < collections.len()
        invariant
            i <= collections@.len(),
            metrics@ == with_collections(before, reserved@, collections@.take(i as int)).lines,
            tracker_rendered == with_collections(
                before,
                reserved@,
                collections@.take(i as int),
            ).tracker,
        decreases collections@.len() - i,
    {
        assert(collections@.take(i + 1).drop_last() =~= collections@.take(i as int));
        let rendered = write_collection(
            metrics,
            reserved,
            &collections[i],
            Ghost(tracker_rendered),
        );
        tracker_rendered = tracker_rendered || rendered;
        i = i + 1;
    }
    assert(collections@.take(i as int) =~= collections@);
    tracker_rendered
}

fn write_head(
    replies: &Replies,
    ratios: &Vec<Option<String>>,
    settings: &ScrapeSettings,
    events: &EventCounters,
    now: u64,
    batch: &Batch,
) -> (r: Metrics)
    requires
        ratios@.len() == expected_ratios(replies.channel_apy),
    ensures
        r@ == head_lines(*replies, ratios.deep_view(), *settings, events@, now, *batch),
{
    let mut metrics = Metrics::default();
    write_exporter(&mut metrics);
    write_base(&mut metrics, replies);
    write_details(&mut metrics, replies, ratios, settings);
    collect_events(&mut metrics, events, now);
    record_collector(
        &mut metrics,
        "plugin_metrics_discovery",
        batch.discovery_duration.as_str(),
        batch.discovery_error.is_none(),
    );
    assert(metrics@ =~= head_lines(
        *replies,
        ratios.deep_view(),
        *settings,
        events@,
        now,
        *batch,
    ));
    metrics
}

/// Writes everything that was fetched for one scrape.
pub fn render(
    replies: &Replies,
    ratios: &Vec<Option<String>>,
    settings: &ScrapeSettings,
    events: &EventCounters,
    now: u64,
    batch: &Batch,
) -> (r: Metrics)
    requires
        ratios@.len() == expected_ratios(replies.channel_apy),
    ensures
        r@ == scrape_lines(*replies, ratios.deep_view(), *settings, events@, now, *batch),
{
    let mut fallback = Metrics::default();
    if let Some(value) = &replies.tracker.value {
        collect_tracker(&mut fallback, value);
    }
    assert(fallback@ =~= fallback_lines(replies.tracker));
    let nothing = Metrics::default();
    let mut metrics = write_head(replies, ratios, settings, events, now, batch);
    let mut tracker_rendered = write_collections(&mut metrics, &nothing, &batch.collections);
    if !tracker_rendered && metrics.shares_name(&fallback) {
        metrics = write_head(replies, ratios, settings, events, now, batch);
        tracker_rendered = write_collections(&mut metrics, &fallback, &batch.collections);
    }
    if !tracker_rendered {
        finish_tracker(&mut metrics, &replies.tracker);
    }
    assert(metrics@ =~= scrape_lines(
        *replies,
        ratios.deep_view(),
        *settings,
        events@,
        now,
        *batch,
    ));
    metrics
}

/// Whether a name begins with the prefix of a namespace.
pub open spec fn is_namespaced(name: Seq<char>, namespace: Seq<char>) -> bool {
    let prefix = "cln_"@ + namespace + "_"@;
    prefix.len() <= name.len() && name.take(prefix.len() as int) == prefix
}

/// Every metric that a plugin offers is written under the prefix of the plugin's namespace.
pub proof fn law_plugin_metrics_are_namespaced(namespace: Seq<char>, families: Seq<Family>, i: int)
    requires
        0 <= i < plugin_families_lines(namespace, families).len(),
    ensures
        is_namespaced(plugin_families_lines(namespace, families)[i].name(), namespace),
    decreases families.len(),
{
    if families.len() > 0 {
        let before = plugin_families_lines(namespace, families.drop_last());
        if i < before.len() {
            law_plugin_metrics_are_namespaced(namespace, families.drop_last(), i);
        } else {
            let prefix = "cln_"@ + namespace + "_"@;
            let name = plugin_metric_name(namespace, families.last().name@);
            assert(plugin_families_lines(namespace, families)[i].name() == name);
            assert(name.take(prefix.len() as int) =~= prefix);
        }
    }
}

/// A plugin that was written cannot be written again: its names are taken.
pub proof fn law_plugin_metrics_are_written_once(
    lines: Seq<LineView>,
    namespace: Seq<char>,
    families: Seq<Family>,
)
    requires
        families.len() > 0,
    ensures
        conflicts(lines + plugin_families_lines(namespace, families), namespace, families),
{
    let after = lines + plugin_families_lines(namespace, families);
    let family = families.last();
    let name = plugin_metric_name(namespace, family.name@);
    let at = lines.len() + plugin_families_lines(namespace, families.drop_last()).len();
    assert(after[at as int] == family_line(name, family.help@, family.kind.text()));
    assert(mentions(after, name));
    assert(families[families.len() - 1] == family);
}

/// A collector that fails is reported as failed, and writes nothing else.
pub proof fn law_a_failing_collector_is_reported(
    collector: Seq<char>,
    reply: Reply,
    lines: Seq<LineView>,
)
    requires
        reply.value is None,
    ensures
        finished(collector, reply, lines) == collector_lines(collector, reply.duration@, false),
{
    assert(finished(collector, reply, lines) =~= collector_lines(
        collector,
        reply.duration@,
        false,
    ));
}

/// A discovered collector that fails, or whose metrics are in conflict with what is written, or with
/// what is reserved for the tracker, is reported as failed, and writes nothing else: its metrics are
/// refused as a whole.
pub proof fn law_a_failing_collection_is_reported(
    before: Rendered,
    reserved: Seq<LineView>,
    collection: Collection,
)
    requires
        collection.result matches Ok(plugin) ==> conflicts(
            before.lines,
            plugin.namespace@,
            plugin.families@,
        ) || (plugin.namespace@ != "tracker"@ && conflicts(
            reserved,
            plugin.namespace@,
            plugin.families@,
        )),
    ensures
        with_collection(before, reserved, collection) == (Rendered {
            lines: before.lines + plugin_collector_lines(
                collection.rpc@,
                false,
                collection.duration@,
                0,
            ),
            tracker: before.tracker,
        }),
{
}

/// Whatever the discovered collectors gave, what was written before them stays.
pub proof fn law_collections_only_add(
    lines: Seq<LineView>,
    fallback: Seq<LineView>,
    collections: Seq<Collection>,
)
    ensures
        settled(lines, fallback, collections).lines.len() >= lines.len(),
        settled(lines, fallback, collections).lines.take(lines.len() as int) == lines,
{
    lemma_collections_only_add(lines, Seq::empty(), collections);
    lemma_collections_only_add(lines, fallback, collections);
}

proof fn lemma_collections_only_add(
    lines: Seq<LineView>,
    reserved: Seq<LineView>,
    collections: Seq<Collection>,
)
    ensures
        with_collections(lines, reserved, collections).lines.len() >= lines.len(),
        with_collections(lines, reserved, collections).lines.take(lines.len() as int) == lines,
    decreases collections.len(),
{
    if collections.len() > 0 {
        lemma_collections_only_add(lines, reserved, collections.drop_last());
        let before = with_collections(lines, reserved, collections.drop_last());
        let after = with_collections(lines, reserved, collections);
        assert(after.lines.take(lines.len() as int) =~= before.lines.take(lines.len() as int));
    } else {
        assert(lines.take(lines.len() as int) =~= lines);
    }
}

/// A name of a family of the plugin, for every line that is written of it.
proof fn lemma_plugin_line(namespace: Seq<char>, families: Seq<Family>, i: int) -> (k: int)
    requires
        0 <= i < plugin_families_lines(namespace, families).len(),
    ensures
        0 <= k < families.len(),
        plugin_families_lines(namespace, families)[i].name() == plugin_metric_name(
            namespace,
            families[k].name@,
        ),
    decreases families.len(),
{
    let before = plugin_families_lines(namespace, families.drop_last());
    if i < before.len() {
        let k = lemma_plugin_line(namespace, families.drop_last(), i);
        assert(families.drop_last()[k] == families[k]);
        k
    } else {
        families.len() - 1
    }
}

proof fn lemma_tracker_name(value: Json, i: int)
    requires
        0 <= i < tracker_lines(value).len(),
    ensures
        tracker_lines(value)[i].name().len() > 4,
        tracker_lines(value)[i].name()[4] == 't',
{
    reveal_strlit("cln_tracker_healthy");
    reveal_strlit("cln_tracker_descriptors");
    reveal_strlit("cln_tracker_pending_movements");
    reveal_strlit("cln_tracker_incident");
    reveal_strlit("cln_tracker_bwatch_height");
    reveal_strlit("cln_tracker_bwatch_lag_blocks");
    reveal_strlit("cln_tracker_bwatch_active_rescans");
    reveal_strlit("cln_tracker_bwatch_rescan_blocks_processed");
    reveal_strlit("cln_tracker_bwatch_rescan_blocks_total");
    reveal_strlit("cln_tracker_bwatch_rescan_progress_ratio");
    reveal_strlit("cln_tracker_reconciliation_failures_total");
    reveal_strlit("cln_tracker_bookkeeper_failures_total");
    reveal_strlit("cln_tracker_reorgs_total");
}

/// Behind what was written before them, collections that leave the tracker's metrics to the fallback
/// write no metric of it.
proof fn lemma_reserved(
    lines: Seq<LineView>,
    value: Json,
    collections: Seq<Collection>,
    k: int,
)
    requires
        !with_collections(lines, tracker_lines(value), collections).tracker,
        lines.len() <= k < with_collections(lines, tracker_lines(value), collections).lines.len(),
    ensures
        !mentions(
            tracker_lines(value),
            with_collections(lines, tracker_lines(value), collections).lines[k].name(),
        ),
    decreases collections.len(),
{
    let reserved = tracker_lines(value);
    if collections.len() > 0 {
        let front = collections.drop_last();
        let collection = collections.last();
        let before = with_collections(lines, reserved, front);
        let after = with_collections(lines, reserved, collections);
        let name = after.lines[k].name();
        if k < before.lines.len() {
            lemma_reserved(lines, value, front, k);
        } else {
            let success = is_rendered(before.lines, reserved, collection);
            let plugin = collection.result->Ok_0;
            let own = plugin_families_lines(plugin.namespace@, plugin.families@);
            if success && k < before.lines.len() + own.len() {
                let j = lemma_plugin_line(
                    plugin.namespace@,
                    plugin.families@,
                    k - before.lines.len(),
                );
                assert(!conflicts(reserved, plugin.namespace@, plugin.families@));
                assert(name == plugin_metric_name(plugin.namespace@, plugin.families@[j].name@));
            } else {
                reveal_strlit("cln_exporter_plugin_collector_success");
                reveal_strlit("cln_exporter_plugin_collector_duration_seconds");
                reveal_strlit("cln_exporter_plugin_collector_samples");
                assert(name[4] == 'e');
                assert forall|i: int| 0 <= i < reserved.len() implies (
                #[trigger] reserved[i]).name() != name by {
                    lemma_tracker_name(value, i);
                }
            }
        }
    }
}

/// Where the tracker's health is written, no discovered collector wrote one of its metrics.
pub proof fn law_the_tracker_fallback_repeats_no_metric(
    lines: Seq<LineView>,
    tracker: Reply,
    collections: Seq<Collection>,
    k: int,
)
    requires
        !settled(lines, fallback_lines(tracker), collections).tracker,
        lines.len() <= k < settled(lines, fallback_lines(tracker), collections).lines.len(),
    ensures
        !mentions(
            fallback_lines(tracker),
            settled(lines, fallback_lines(tracker), collections).lines[k].name(),
        ),
{
    let fallback = fallback_lines(tracker);
    let unreserved = with_collections(lines, Seq::empty(), collections);
    if overlaps(unreserved.lines, fallback) {
        lemma_reserved(lines, tracker.value->0, collections, k);
    } else if mentions(fallback, unreserved.lines[k].name()) {
        let i = choose|i: int|
            0 <= i < fallback.len() && (#[trigger] fallback[i]).name() == unreserved.lines[k].name();
        assert(mentions(unreserved.lines, fallback[i].name()));
    }
}

} // verus!
