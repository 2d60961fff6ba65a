//! What is shown of everything together, and how it is written.

use crate::accounting::{bookkeeper_lines, channel_apy_lines, tracker_lines};
use crate::channels::channels_lines;
use crate::event_metrics::events_lines;
use crate::events::CountersView;
use crate::exposition::{
    escaped_help, escaped_label, exposition_text, labels_text, line_text, overlaps, quotients_of,
    LineView, ValueView,
};
use crate::gauges::unlabelled;
use crate::json::{Json, JsonNumber};
use crate::node::{
    anchor_tank_lines, feerates_lines, funds_lines, liquidity_ad_lines, node_lines, peers_lines,
    plugins_lines,
};
use crate::plugin_metrics::{Batch, Collection, Family, PluginMetrics, Sample};
use crate::readings::{lemma_joined, says, says_whether};
use crate::scrape::{
    advertising_lines, base_lines, channel_context, collector_lines, detail_lines, exporter_lines,
    fallback_lines, finished, head_lines, is_rendered, label_pairs, number_value,
    plugin_collector_lines, plugin_families_lines, plugin_metric_name, plugin_sample_lines,
    scrape_lines, settled, tank_lines, with_collection, with_collections, Rendered, Replies, Reply,
    ScrapeSettings,
};
use crate::text::signed_decimal;
use vstd::prelude::*;

verus! {

/// Whether a collector is reported: whether it succeeded, and how long it took.
pub open spec fn reports(
    lines: Seq<LineView>,
    collector: Seq<char>,
    success: bool,
    duration: Seq<char>,
) -> bool {
    &&& says_whether(
        lines,
        "cln_exporter_collector_success"@,
        seq![("collector"@, collector)],
        success,
    )
    &&& says(
        lines,
        "cln_exporter_collector_duration_seconds"@,
        seq![("collector"@, collector)],
        ValueView::Decimal(duration),
    )
}

/// Whether all lines of a part are shown.
pub open spec fn shows_all(lines: Seq<LineView>, part: Seq<LineView>) -> bool {
    forall|x: LineView| #[trigger] part.contains(x) ==> lines.contains(x)
}

proof fn lemma_finished(collector: Seq<char>, reply: Reply, lines: Seq<LineView>)
    ensures
        reports(finished(collector, reply, lines), collector, reply.value is Some, reply.duration@),
        reply.value is Some ==> shows_all(finished(collector, reply, lines), lines),
{
    let own = if reply.value is Some {
        lines
    } else {
        Seq::empty()
    };
    let report = collector_lines(collector, reply.duration@, reply.value is Some);
    lemma_joined(own, report);
    assert(report.contains(report[0]));
    assert(report.contains(report[1]));
}

proof fn lemma_collections_only_add(
    lines: Seq<LineView>,
    reserved: Seq<LineView>,
    collections: Seq<Collection>,
)
    ensures
        shows_all(with_collections(lines, reserved, collections).lines, lines),
    decreases collections.len(),
{
    if collections.len() > 0 {
        let front = collections.drop_last();
        lemma_collections_only_add(lines, reserved, front);
        lemma_collection_adds(
            with_collections(lines, reserved, front),
            reserved,
            collections.last(),
        );
    }
}

proof fn lemma_collection_adds(before: Rendered, reserved: Seq<LineView>, collection: Collection)
    ensures
        shows_all(with_collection(before, reserved, collection).lines, before.lines),
        ({
            let success = is_rendered(before.lines, reserved, collection);
            let plugin = collection.result->Ok_0;
            let after = with_collection(before, reserved, collection).lines;
            &&& shows_all(
                after,
                plugin_collector_lines(
                    collection.rpc@,
                    success,
                    collection.duration@,
                    if success {
                        plugin.sample_count as int
                    } else {
                        0
                    },
                ),
            )
            &&& success ==> shows_all(
                after,
                plugin_families_lines(plugin.namespace@, plugin.families@),
            )
        }),
{
    let success = is_rendered(before.lines, reserved, collection);
    let plugin = collection.result->Ok_0;
    let more = plugin_families_lines(plugin.namespace@, plugin.families@);
    let report = plugin_collector_lines(
        collection.rpc@,
        success,
        collection.duration@,
        if success {
            plugin.sample_count as int
        } else {
            0
        },
    );
    lemma_joined(before.lines, more);
    lemma_joined(before.lines + more, report);
    lemma_joined(before.lines, report);
}

/// What stands ahead of the metrics of the plugins is shown.
proof fn lemma_head_is_shown(
    replies: Replies,
    ratios: Seq<Option<Seq<char>>>,
    settings: ScrapeSettings,
    events: CountersView,
    now: u64,
    batch: Batch,
)
    ensures
        shows_all(
            scrape_lines(replies, ratios, settings, events, now, batch),
            head_lines(replies, ratios, settings, events, now, batch),
        ),
{
    let head = head_lines(replies, ratios, settings, events, now, batch);
    let fallback = fallback_lines(replies.tracker);
    lemma_collections_only_add(head, Seq::empty(), batch.collections@);
    lemma_collections_only_add(head, fallback, batch.collections@);
    let rendered = settled(head, fallback, batch.collections@);
    let rest = if rendered.tracker {
        Seq::empty()
    } else {
        finished("tracker"@, replies.tracker, tracker_lines(replies.tracker.value->0))
    };
    lemma_joined(rendered.lines, rest);
}

proof fn lemma_head(
    replies: Replies,
    ratios: Seq<Option<Seq<char>>>,
    settings: ScrapeSettings,
    events: CountersView,
    now: u64,
    batch: Batch,
)
    ensures
        ({
            let head = head_lines(replies, ratios, settings, events, now, batch);
            &&& shows_all(head, exporter_lines())
            &&& shows_all(head, base_lines(replies))
            &&& shows_all(head, detail_lines(replies, ratios, settings))
            &&& shows_all(head, events_lines(events, now))
            &&& shows_all(
                head,
                collector_lines(
                    "plugin_metrics_discovery"@,
                    batch.discovery_duration@,
                    batch.discovery_error is None,
                ),
            )
        }),
{
    let a = exporter_lines();
    let b = base_lines(replies);
    let c = detail_lines(replies, ratios, settings);
    let d = events_lines(events, now);
    let e = collector_lines(
        "plugin_metrics_discovery"@,
        batch.discovery_duration@,
        batch.discovery_error is None,
    );
    lemma_joined(a, b);
    lemma_joined(a + b, c);
    lemma_joined(a + b + c, d);
    lemma_joined(a + b + c + d, e);
}

proof fn lemma_base(replies: Replies)
    ensures
        ({
            let all = base_lines(replies);
            &&& shows_all(
                all,
                finished("node"@, replies.node, node_lines(replies.node.value->0)),
            )
            &&& shows_all(
                all,
                finished("funds"@, replies.funds, funds_lines(replies.funds.value->0)),
            )
            &&& shows_all(
                all,
                finished("peers"@, replies.peers, peers_lines(replies.peers.value->0)),
            )
            &&& shows_all(
                all,
                finished("feerates"@, replies.feerates, feerates_lines(replies.feerates.value->0)),
            )
            &&& shows_all(all, finished("configs"@, replies.configs, seq![]))
        }),
{
    let a = finished("node"@, replies.node, node_lines(replies.node.value->0));
    let b = finished("funds"@, replies.funds, funds_lines(replies.funds.value->0));
    let c = finished("peers"@, replies.peers, peers_lines(replies.peers.value->0));
    let d = finished("feerates"@, replies.feerates, feerates_lines(replies.feerates.value->0));
    let e = finished("configs"@, replies.configs, seq![]);
    lemma_joined(a, b);
    lemma_joined(a + b, c);
    lemma_joined(a + b + c, d);
    lemma_joined(a + b + c + d, e);
}

proof fn lemma_detail(
    replies: Replies,
    ratios: Seq<Option<Seq<char>>>,
    settings: ScrapeSettings,
)
    ensures
        ({
            let all = detail_lines(replies, ratios, settings);
            let context = channel_context(replies, settings);
            &&& shows_all(
                all,
                finished(
                    "channels"@,
                    replies.channels,
                    channels_lines(replies.channels.value->0, context),
                ),
            )
            &&& shows_all(
                all,
                finished("plugins"@, replies.plugins, plugins_lines(replies.plugins.value->0)),
            )
            &&& shows_all(
                all,
                finished(
                    "bookkeeper"@,
                    replies.bookkeeper,
                    bookkeeper_lines(replies.bookkeeper.value->0),
                ),
            )
            &&& shows_all(
                all,
                finished(
                    "channel_apy"@,
                    replies.channel_apy,
                    channel_apy_lines(replies.channel_apy.value->0, ratios),
                ),
            )
            &&& shows_all(all, tank_lines(replies))
            &&& shows_all(all, advertising_lines(replies))
        }),
{
    let context = channel_context(replies, settings);
    let a = finished(
        "channels"@,
        replies.channels,
        channels_lines(replies.channels.value->0, context),
    );
    let b = finished("plugins"@, replies.plugins, plugins_lines(replies.plugins.value->0));
    let c = finished(
        "bookkeeper"@,
        replies.bookkeeper,
        bookkeeper_lines(replies.bookkeeper.value->0),
    );
    let d = finished(
        "channel_apy"@,
        replies.channel_apy,
        channel_apy_lines(replies.channel_apy.value->0, ratios),
    );
    let e = tank_lines(replies);
    let f = advertising_lines(replies);
    lemma_joined(a, b);
    lemma_joined(a + b, c);
    lemma_joined(a + b + c, d);
    lemma_joined(a + b + c + d, e);
    lemma_joined(a + b + c + d + e, f);
}

/// Every collector is reported, as successful if and only if the node answered. The exporter is shown
/// as running.
pub proof fn law_collectors_are_reported(
    replies: Replies,
    ratios: Seq<Option<Seq<char>>>,
    settings: ScrapeSettings,
    events: CountersView,
    now: u64,
    batch: Batch,
)
    ensures
        ({
            let all = scrape_lines(replies, ratios, settings, events, now, batch);
            &&& says(all, "cln_exporter_up"@, unlabelled(), ValueView::Integer(1))
            &&& reports(all, "node"@, replies.node.value is Some, replies.node.duration@)
            &&& reports(all, "funds"@, replies.funds.value is Some, replies.funds.duration@)
            &&& reports(all, "peers"@, replies.peers.value is Some, replies.peers.duration@)
            &&& reports(
                all,
                "feerates"@,
                replies.feerates.value is Some,
                replies.feerates.duration@,
            )
            &&& reports(all, "configs"@, replies.configs.value is Some, replies.configs.duration@)
            &&& reports(
                all,
                "channels"@,
                replies.channels.value is Some,
                replies.channels.duration@,
            )
            &&& reports(all, "plugins"@, replies.plugins.value is Some, replies.plugins.duration@)
            &&& reports(
                all,
                "bookkeeper"@,
                replies.bookkeeper.value is Some,
                replies.bookkeeper.duration@,
            )
            &&& reports(
                all,
                "channel_apy"@,
                replies.channel_apy.value is Some,
                replies.channel_apy.duration@,
            )
            &&& reports(
                all,
                "plugin_metrics_discovery"@,
                batch.discovery_error is None,
                batch.discovery_duration@,
            )
        }),
{
    let all = scrape_lines(replies, ratios, settings, events, now, batch);
    lemma_head_is_shown(replies, ratios, settings, events, now, batch);
    lemma_head(replies, ratios, settings, events, now, batch);
    lemma_base(replies);
    lemma_detail(replies, ratios, settings);
    let context = channel_context(replies, settings);
    lemma_finished("node"@, replies.node, node_lines(replies.node.value->0));
    lemma_finished("funds"@, replies.funds, funds_lines(replies.funds.value->0));
    lemma_finished("peers"@, replies.peers, peers_lines(replies.peers.value->0));
    lemma_finished("feerates"@, replies.feerates, feerates_lines(replies.feerates.value->0));
    lemma_finished("configs"@, replies.configs, seq![]);
    lemma_finished(
        "channels"@,
        replies.channels,
        channels_lines(replies.channels.value->0, context),
    );
    lemma_finished("plugins"@, replies.plugins, plugins_lines(replies.plugins.value->0));
    lemma_finished(
        "bookkeeper"@,
        replies.bookkeeper,
        bookkeeper_lines(replies.bookkeeper.value->0),
    );
    lemma_finished(
        "channel_apy"@,
        replies.channel_apy,
        channel_apy_lines(replies.channel_apy.value->0, ratios),
    );
    let up = exporter_lines();
    assert(up.contains(up[6]));
    let report = collector_lines(
        "plugin_metrics_discovery"@,
        batch.discovery_duration@,
        batch.discovery_error is None,
    );
    assert(report.contains(report[0]));
    assert(report.contains(report[1]));
}

/// What the node answered is shown: of itself, its funds, its peers, the feerates, its channels, its
/// plugins, its books and its yields, and what was counted. The reserve for closing channels is shown
/// where all that it needs was answered.
pub proof fn law_answers_are_shown(
    replies: Replies,
    ratios: Seq<Option<Seq<char>>>,
    settings: ScrapeSettings,
    events: CountersView,
    now: u64,
    batch: Batch,
)
    ensures
        ({
            let all = scrape_lines(replies, ratios, settings, events, now, batch);
            &&& replies.node.value matches Some(value) ==> shows_all(all, node_lines(value))
            &&& replies.funds.value matches Some(value) ==> shows_all(all, funds_lines(value))
            &&& replies.peers.value matches Some(value) ==> shows_all(all, peers_lines(value))
            &&& replies.feerates.value matches Some(value) ==> shows_all(all, feerates_lines(value))
            &&& replies.channels.value matches Some(value) ==> shows_all(
                all,
                channels_lines(value, channel_context(replies, settings)),
            )
            &&& replies.plugins.value matches Some(value) ==> shows_all(all, plugins_lines(value))
            &&& replies.bookkeeper.value matches Some(value) ==> shows_all(
                all,
                bookkeeper_lines(value),
            )
            &&& replies.channel_apy.value matches Some(value) ==> shows_all(
                all,
                channel_apy_lines(value, ratios),
            )
            &&& shows_all(all, events_lines(events, now))
            &&& replies.funds.value is Some && replies.channels.value is Some
                && replies.feerates.value is Some && replies.configs.value is Some ==> shows_all(
                all,
                anchor_tank_lines(
                    replies.funds.value->0,
                    replies.channels.value->0,
                    replies.feerates.value->0,
                    replies.configs.value->0,
                ),
            )
        }),
{
    lemma_head_is_shown(replies, ratios, settings, events, now, batch);
    lemma_head(replies, ratios, settings, events, now, batch);
    lemma_base(replies);
    lemma_detail(replies, ratios, settings);
    let context = channel_context(replies, settings);
    lemma_finished("node"@, replies.node, node_lines(replies.node.value->0));
    lemma_finished("funds"@, replies.funds, funds_lines(replies.funds.value->0));
    lemma_finished("peers"@, replies.peers, peers_lines(replies.peers.value->0));
    lemma_finished("feerates"@, replies.feerates, feerates_lines(replies.feerates.value->0));
    lemma_finished(
        "channels"@,
        replies.channels,
        channels_lines(replies.channels.value->0, context),
    );
    lemma_finished("plugins"@, replies.plugins, plugins_lines(replies.plugins.value->0));
    lemma_finished(
        "bookkeeper"@,
        replies.bookkeeper,
        bookkeeper_lines(replies.bookkeeper.value->0),
    );
    lemma_finished(
        "channel_apy"@,
        replies.channel_apy,
        channel_apy_lines(replies.channel_apy.value->0, ratios),
    );
}

/// The offer of liquidity is asked for where the node told its id, and else reported as not answered.
pub proof fn law_the_offer_is_reported(
    replies: Replies,
    ratios: Seq<Option<Seq<char>>>,
    settings: ScrapeSettings,
    events: CountersView,
    now: u64,
    batch: Batch,
)
    ensures
        ({
            let all = scrape_lines(replies, ratios, settings, events, now, batch);
            let known = replies.node.value is Some && (replies.node.value->0).field("id"@) matches Some(
                Json::Text(_),
            );
            &&& known ==> reports(
                all,
                "liquidity_ad"@,
                replies.liquidity_ad.value is Some,
                replies.liquidity_ad.duration@,
            )
            &&& known ==> (replies.liquidity_ad.value matches Some(value) ==> shows_all(
                all,
                liquidity_ad_lines(value),
            ))
            &&& !known ==> reports(all, "liquidity_ad"@, false, "0"@)
        }),
{
    lemma_head_is_shown(replies, ratios, settings, events, now, batch);
    lemma_head(replies, ratios, settings, events, now, batch);
    lemma_detail(replies, ratios, settings);
    lemma_finished(
        "liquidity_ad"@,
        replies.liquidity_ad,
        liquidity_ad_lines(replies.liquidity_ad.value->0),
    );
    let report = collector_lines("liquidity_ad"@, "0"@, false);
    assert(report.contains(report[0]));
    assert(report.contains(report[1]));
}

/// The channels are shown against the height that the node told, the settings, and the feerates.
pub proof fn law_channels_are_shown_in_context(replies: Replies, settings: ScrapeSettings)
    ensures
        ({
            let context = channel_context(replies, settings);
            &&& context.target_percent == settings.liquidity_target_percent
            &&& context.htlc_warning_blocks == settings.htlc_warning_blocks
            &&& replies.node.value matches Some(value) ==> (value.unsigned_at(
                "blockheight"@,
            ) matches Some(height) ==> context.blockheight == height)
            &&& replies.node.value is None ==> context.blockheight == 0
            &&& crate::json::referent(context.feerates) == replies.feerates.value
        }),
{
}

/// Whether the samples of a family are shown under its name: each with its labels and its value.
pub open spec fn shows_samples(lines: Seq<LineView>, name: Seq<char>, samples: Seq<Sample>) -> bool {
    forall|k: int|
        0 <= k < samples.len() ==> {
            let sample = #[trigger] samples[k];
            let labels = Seq::new(
                sample.labels@.len(),
                |i: int| (sample.labels@[i].0[0], sample.labels@[i].1@),
            );
            &&& sample.value matches JsonNumber::Unsigned(n) ==> says(
                lines,
                name,
                labels,
                ValueView::Integer(n as int),
            )
            &&& sample.value matches JsonNumber::Negative(n) ==> says(
                lines,
                name,
                labels,
                ValueView::Integer(n as int),
            )
            &&& sample.value matches JsonNumber::Float(digits) ==> says(
                lines,
                name,
                labels,
                ValueView::Decimal(digits@),
            )
        }
}

proof fn lemma_family_is_shown(namespace: Seq<char>, families: Seq<Family>, i: int)
    requires
        0 <= i < families.len(),
    ensures
        ({
            let all = plugin_families_lines(namespace, families);
            let name = "cln_"@ + namespace + "_"@ + families[i].name@;
            &&& all.contains(
                LineView::Family {
                    name,
                    help: families[i].help@,
                    kind: families[i].kind.text(),
                },
            )
            &&& shows_samples(all, name, families[i].samples@)
        }),
    decreases families.len(),
{
    let front = families.drop_last();
    let last = families.last();
    let name = plugin_metric_name(namespace, last.name@);
    let a = plugin_families_lines(namespace, front);
    let b = seq![
        LineView::Family { name, help: last.help@, kind: last.kind.text() },
    ];
    let c = plugin_sample_lines(name, last.samples@);
    lemma_joined(a, b);
    lemma_joined(a + b, c);
    if i < front.len() {
        lemma_family_is_shown(namespace, front, i);
        assert(front[i] == families[i]);
    } else {
        assert(b.contains(b[0]));
        assert forall|k: int| 0 <= k < last.samples@.len() implies {
            let sample = #[trigger] last.samples@[k];
            c.contains(
                LineView::Sample {
                    name,
                    labels: Seq::new(
                        sample.labels@.len(),
                        |i: int| (sample.labels@[i].0[0], sample.labels@[i].1@),
                    ),
                    value: number_value(sample.value),
                },
            )
        } by {
            assert(c.contains(c[k]));
            let sample = last.samples@[k];
            assert(label_pairs(sample.labels@) =~= Seq::new(
                sample.labels@.len(),
                |i: int| (sample.labels@[i].0[0], sample.labels@[i].1@),
            ));
        }
    }
}

/// The metrics of a plugin are shown under names of its own: every family, with its help and its kind,
/// and every sample of it, with its labels and its value.
pub proof fn law_plugin_metrics_are_shown(
    before: Rendered,
    reserved: Seq<LineView>,
    collection: Collection,
    plugin: PluginMetrics,
    i: int,
)
    requires
        collection.result == Ok::<PluginMetrics, crate::plugin_metrics::CollectionError>(plugin),
        is_rendered(before.lines, reserved, collection),
        0 <= i < plugin.families@.len(),
    ensures
        ({
            let all = with_collection(before, reserved, collection).lines;
            let family = plugin.families@[i];
            let name = "cln_"@ + plugin.namespace@ + "_"@ + family.name@;
            &&& all.contains(
                LineView::Family { name, help: family.help@, kind: family.kind.text() },
            )
            &&& shows_samples(all, name, family.samples@)
        }),
{
    lemma_collection_adds(before, reserved, collection);
    lemma_family_is_shown(plugin.namespace@, plugin.families@, i);
}

/// Every collection of a plugin is reported: whether its metrics are shown, how long it took, and how
/// many samples are shown.
pub proof fn law_collections_are_reported(
    before: Rendered,
    reserved: Seq<LineView>,
    collection: Collection,
)
    ensures
        ({
            let all = with_collection(before, reserved, collection).lines;
            let labels = seq![("rpc"@, collection.rpc@)];
            let shown = is_rendered(before.lines, reserved, collection);
            &&& says_whether(all, "cln_exporter_plugin_collector_success"@, labels, shown)
            &&& says(
                all,
                "cln_exporter_plugin_collector_duration_seconds"@,
                labels,
                ValueView::Decimal(collection.duration@),
            )
            &&& shown ==> (collection.result matches Ok(plugin) && says(
                all,
                "cln_exporter_plugin_collector_samples"@,
                labels,
                ValueView::Integer(plugin.sample_count as int),
            ))
            &&& !shown ==> says(
                all,
                "cln_exporter_plugin_collector_samples"@,
                labels,
                ValueView::Integer(0),
            )
            &&& collection.result is Err ==> !shown
        }),
{
    lemma_collection_adds(before, reserved, collection);
    let success = is_rendered(before.lines, reserved, collection);
    let report = plugin_collector_lines(
        collection.rpc@,
        success,
        collection.duration@,
        if success {
            collection.result->Ok_0.sample_count as int
        } else {
            0
        },
    );
    assert(report.contains(report[0]));
    assert(report.contains(report[1]));
    assert(report.contains(report[2]));
}

/// The metrics of a plugin are not shown if and only if one of their names is taken: by what is shown
/// already, or by what is set aside, which only the tracker may take.
pub proof fn law_names_are_not_taken_twice(
    lines: Seq<LineView>,
    reserved: Seq<LineView>,
    collection: Collection,
    plugin: PluginMetrics,
)
    requires
        collection.result == Ok::<PluginMetrics, crate::plugin_metrics::CollectionError>(plugin),
    ensures
        is_rendered(lines, reserved, collection) <==> forall|i: int|
            0 <= i < plugin.families@.len() ==> {
                let name = "cln_"@ + plugin.namespace@ + "_"@ + (
                #[trigger] plugin.families@[i]).name@;
                &&& !is_taken(lines, name)
                &&& plugin.namespace@ != "tracker"@ ==> !is_taken(reserved, name)
            },
{
    let families = plugin.families@;
    let space = plugin.namespace@;
    assert forall|i: int| 0 <= i < families.len() implies {
        let name = "cln_"@ + space + "_"@ + (#[trigger] families[i]).name@;
        &&& is_taken(lines, name) == crate::exposition::mentions(
            lines,
            plugin_metric_name(space, families[i].name@),
        )
        &&& is_taken(reserved, name) == crate::exposition::mentions(
            reserved,
            plugin_metric_name(space, families[i].name@),
        )
    } by {}
    if crate::scrape::conflicts(lines, space, families) {
        let i = choose|i: int|
            0 <= i < families.len() && crate::exposition::mentions(
                lines,
                plugin_metric_name(space, (#[trigger] families[i]).name@),
            );
        assert(is_taken(lines, "cln_"@ + space + "_"@ + families[i].name@));
    } else if crate::scrape::conflicts(reserved, space, families) {
        let i = choose|i: int|
            0 <= i < families.len() && crate::exposition::mentions(
                reserved,
                plugin_metric_name(space, (#[trigger] families[i]).name@),
            );
        assert(is_taken(reserved, "cln_"@ + space + "_"@ + families[i].name@));
    }
}

/// Whether something is shown under a name.
pub open spec fn is_taken(lines: Seq<LineView>, name: Seq<char>) -> bool {
    exists|k: int| 0 <= k < lines.len() && (#[trigger] lines[k]).name() == name
}

/// The labels of a metric are written one behind the other, with commas between them, each value in
/// quotes.
pub proof fn law_labels_are_written(
    labels: Seq<(Seq<char>, Seq<char>)>,
    name: Seq<char>,
    value: Seq<char>,
)
    ensures
        labels_text(Seq::empty()) == Seq::<char>::empty(),
        labels.len() == 0 ==> labels_text(labels.push((name, value))) == name + seq!['=', '"']
            + escaped_label(value) + seq!['"'],
        labels.len() > 0 ==> labels_text(labels.push((name, value))) == labels_text(labels)
            + seq![','] + name + seq!['=', '"'] + escaped_label(value) + seq!['"'],
{
    reveal_strlit(",");
    reveal_strlit("=\"");
    reveal_strlit("\"");
    assert(","@ =~= seq![',']);
    assert("=\""@ =~= seq!['=', '"']);
    assert("\""@ =~= seq!['"']);
    let all = labels.push((name, value));
    assert(all.drop_last() =~= labels);
    if labels.len() == 0 {
        assert(labels_text(labels) =~= Seq::empty());
        assert(all.last() == (name, value));
        assert(labels_text(all) == labels_text(labels) + name + "=\""@ + escaped_label(value)
            + "\""@);
        assert(labels_text(all) =~= name + seq!['=', '"'] + escaped_label(value) + seq!['"']);
    }
}

/// In a label, a backslash, a quote and the end of a line are written with a backslash ahead. In a
/// help, a backslash and the end of a line are.
pub proof fn law_special_signs_are_escaped(s: Seq<char>, c: char)
    ensures
        escaped_label(Seq::empty()) == Seq::<char>::empty(),
        escaped_help(Seq::empty()) == Seq::<char>::empty(),
        c == '\\' || c == '"' ==> escaped_label(s.push(c)) == escaped_label(s) + seq!['\\', c],
        c == '\n' ==> escaped_label(s.push(c)) == escaped_label(s) + seq!['\\', 'n'],
        c != '\\' && c != '"' && c != '\n' ==> escaped_label(s.push(c)) == escaped_label(s) + seq![
            c,
        ],
        c == '\\' ==> escaped_help(s.push(c)) == escaped_help(s) + seq!['\\', '\\'],
        c == '\n' ==> escaped_help(s.push(c)) == escaped_help(s) + seq!['\\', 'n'],
        c != '\\' && c != '\n' ==> escaped_help(s.push(c)) == escaped_help(s) + seq![c],
{
    assert(s.push(c).drop_last() =~= s);
}

/// A help is written on one line.
pub proof fn law_helps_are_one_line(s: Seq<char>)
    ensures
        !escaped_help(s).contains('\n'),
    decreases s.len(),
{
    if s.len() > 0 {
        law_helps_are_one_line(s.drop_last());
        let all = escaped_help(s);
        let before = escaped_help(s.drop_last());
        let own = crate::exposition::escaped_help_char(s.last());
        assert forall|i: int| 0 <= i < all.len() implies all[i] != '\n' by {
            if i < before.len() {
                assert(all[i] == before[i]);
                assert(before.contains(before[i]));
            } else {
                assert(all[i] == own[i - before.len()]);
            }
        }
    }
}

/// A metric is written on a line of its own: its name, its labels in braces if it has any, and its value.
pub proof fn law_metrics_are_written(
    name: Seq<char>,
    labels: Seq<(Seq<char>, Seq<char>)>,
    value: ValueView,
    fraction: Seq<char>,
)
    ensures
        ({
            let text = line_text(LineView::Sample { name, labels, value }, fraction);
            let number = match value {
                ValueView::Integer(n) => signed_decimal(n),
                ValueView::Quotient { .. } => fraction,
                ValueView::Decimal(digits) => digits,
            };
            &&& labels.len() == 0 ==> text == name + seq![' '] + number + seq!['\n']
            &&& labels.len() > 0 ==> text == name + seq!['{'] + labels_text(labels) + seq!['}', ' ']
                + number + seq!['\n']
        }),
{
    reveal_strlit("{");
    reveal_strlit("}");
    reveal_strlit(" ");
    reveal_strlit("\n");
    assert("{"@ =~= seq!['{']);
    assert("}"@ =~= seq!['}']);
    assert(" "@ =~= seq![' ']);
    assert("\n"@ =~= seq!['\n']);
    let text = line_text(LineView::Sample { name, labels, value }, fraction);
    let number = match value {
        ValueView::Integer(n) => signed_decimal(n),
        ValueView::Quotient { .. } => fraction,
        ValueView::Decimal(digits) => digits,
    };
    if labels.len() > 0 {
        assert(text =~= name + seq!['{'] + labels_text(labels) + seq!['}', ' '] + number + seq![
            '\n',
        ]);
    }
}

/// A family is written on two lines: one with its help and one with its kind.
pub proof fn law_families_are_written(
    name: Seq<char>,
    help: Seq<char>,
    kind: Seq<char>,
    fraction: Seq<char>,
)
    ensures
        line_text(LineView::Family { name, help, kind }, fraction) == "# HELP "@ + name + seq![' ']
            + escaped_help(help) + seq!['\n'] + "# TYPE "@ + name + seq![' '] + kind + seq!['\n'],
{
    reveal_strlit(" ");
    reveal_strlit("\n");
    assert(" "@ =~= seq![' ']);
    assert("\n"@ =~= seq!['\n']);
}

/// The lines are written one behind the other. The fractions are used in the order of the lines that
/// have one.
pub proof fn law_lines_are_written_in_order(
    lines: Seq<LineView>,
    fractions: Seq<Seq<char>>,
    next: LineView,
)
    ensures
        exposition_text(Seq::empty(), fractions) == Seq::<char>::empty(),
        exposition_text(lines.push(next), fractions) == exposition_text(lines, fractions)
            + line_text(next, fractions[quotients_of(lines).len() as int]),
        next matches LineView::Sample { value: ValueView::Quotient { numerator, denominator }, .. }
            ==> quotients_of(lines.push(next)) == quotients_of(lines).push(
            (numerator, denominator),
        ),
        !(next matches LineView::Sample { value: ValueView::Quotient { .. }, .. }) ==> quotients_of(
            lines.push(next),
        ) == quotients_of(lines),
        quotients_of(Seq::empty()).len() == 0,
{
    assert(lines.push(next).drop_last() =~= lines);
}

/// Whether the tracker is among the collections whose metrics are shown.
proof fn lemma_tracker_is_collected(
    lines: Seq<LineView>,
    reserved: Seq<LineView>,
    collections: Seq<Collection>,
)
    ensures
        with_collections(lines, reserved, collections).tracker ==> exists|k: int|
            0 <= k < collections.len() && is_tracker(#[trigger] collections[k]),
    decreases collections.len(),
{
    if collections.len() > 0 {
        let front = collections.drop_last();
        lemma_tracker_is_collected(lines, reserved, front);
        if with_collections(lines, reserved, front).tracker {
            let k = choose|k: int| 0 <= k < front.len() && is_tracker(#[trigger] front[k]);
            assert(collections[k] == front[k]);
        } else {
            assert(collections[collections.len() - 1] == collections.last());
        }
    }
}

/// Whether a collection is of metrics of the tracker.
pub open spec fn is_tracker(collection: Collection) -> bool {
    collection.result matches Ok(plugin) && plugin.namespace@ == "tracker"@
}

/// The tracker is asked by itself where no collection brought its metrics: it is reported then, and what
/// it answered is shown.
pub proof fn law_the_tracker_is_asked_where_no_plugin_is(
    replies: Replies,
    ratios: Seq<Option<Seq<char>>>,
    settings: ScrapeSettings,
    events: CountersView,
    now: u64,
    batch: Batch,
)
    requires
        forall|k: int|
            0 <= k < batch.collections@.len() ==> !is_tracker(#[trigger] batch.collections@[k]),
    ensures
        ({
            let all = scrape_lines(replies, ratios, settings, events, now, batch);
            &&& reports(all, "tracker"@, replies.tracker.value is Some, replies.tracker.duration@)
            &&& replies.tracker.value matches Some(value) ==> shows_all(all, tracker_lines(value))
        }),
{
    let head = head_lines(replies, ratios, settings, events, now, batch);
    let fallback = fallback_lines(replies.tracker);
    lemma_tracker_is_collected(head, Seq::empty(), batch.collections@);
    lemma_tracker_is_collected(head, fallback, batch.collections@);
    let rendered = settled(head, fallback, batch.collections@);
    let rest = finished("tracker"@, replies.tracker, tracker_lines(replies.tracker.value->0));
    lemma_joined(rendered.lines, rest);
    lemma_finished("tracker"@, replies.tracker, tracker_lines(replies.tracker.value->0));
}

/// Two pages overlap if and only if something on one has the name of something on the other.
pub proof fn law_pages_overlap_in_a_name(one: Seq<LineView>, other: Seq<LineView>)
    ensures
        overlaps(one, other) <==> exists|i: int|
            0 <= i < other.len() && is_taken(one, (#[trigger] other[i]).name()),
{
    assert forall|i: int| 0 <= i < other.len() implies is_taken(one, (#[trigger] other[i]).name())
        == crate::exposition::mentions(one, other[i].name()) by {}
    if overlaps(one, other) {
        let i = choose|i: int|
            0 <= i < other.len() && crate::exposition::mentions(one, (#[trigger] other[i]).name());
        assert(is_taken(one, other[i].name()));
    }
}

} // verus!
