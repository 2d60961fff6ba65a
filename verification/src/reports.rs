//! The answers about probes and about the history itself, as JSON documents.

use crate::answers::{
    append, channel_details, details_json, fields_view, items_view, json_view, list, list_json,
    number_view, optional, optional_json, optional_text, optional_text_json, pagination,
    pagination_json, plain_text, put, unsigned, unsigned_json, Answer, JsonView, NumberView, API_VERSION,
};
use crate::json::{Json, JsonNumber};
use crate::ordered::{Entries, OrderedMap};
use crate::plugin_metrics::{Family, Sample, WireMetrics};
use crate::probes::{
    AggregateView, HopItem, HopItemView, ProbeAggregate, ProbeItem, ProbeItemView, ProbeItems,
    ProbeItemsView, ProbePage, ProbePageView,
};
use crate::store::{ProbeRow, RunRow};
use crate::upkeep::{Counts, Status, Storage};
use vstd::prelude::*;

verus! {

/// A number with a sign that may be missing.
pub open spec fn signed_json(n: Option<i64>) -> JsonView {
    match n {
        Some(n) => JsonView::Number(
            if n >= 0 {
                NumberView::Unsigned(n as u64)
            } else {
                NumberView::Negative(n)
            },
        ),
        None => JsonView::Null,
    }
}

fn signed(n: Option<i64>) -> (r: Json)
    ensures
        json_view(r) == signed_json(n),
{
    match n {
        Some(n) => if n >= 0 {
            unsigned(n as u64)
        } else {
            Json::Number(JsonNumber::Negative(n))
        },
        None => Json::Null,
    }
}

impl Answer for HopItem {
    open spec fn said(item: HopItemView) -> JsonView {
        JsonView::Object(
            seq![
                ("hop_index"@, unsigned_json(item.hop.hop_index)),
                ("channel_identity"@, JsonView::Text(item.identity)),
                ("channel_details"@, details_json(item.details)),
                ("short_channel_id"@, JsonView::Text(item.hop.short_channel_id)),
                ("short_channel_id_dir"@, JsonView::Text(item.directed)),
                ("direction"@, unsigned_json(item.hop.direction)),
                ("node_id_out"@, JsonView::Text(item.hop.node_id_out)),
                ("amount_out_msat"@, unsigned_json(item.hop.amount_out_msat)),
                ("cltv_out"@, unsigned_json(item.hop.cltv_out)),
                ("status"@, JsonView::Text(item.hop.status)),
            ],
        )
    }

    fn answer(&self) -> (r: Json) {
        let mut fields: Vec<(String, Json)> = Vec::new();
        put(&mut fields, "hop_index", unsigned(self.hop.hop_index));
        put(&mut fields, "channel_identity", plain_text(self.identity.as_str()));
        put(&mut fields, "channel_details", channel_details(&self.details));
        put(&mut fields, "short_channel_id", plain_text(self.hop.short_channel_id.as_str()));
        put(&mut fields, "short_channel_id_dir", plain_text(self.directed.as_str()));
        put(&mut fields, "direction", unsigned(self.hop.direction));
        put(&mut fields, "node_id_out", plain_text(self.hop.node_id_out.as_str()));
        put(&mut fields, "amount_out_msat", unsigned(self.hop.amount_out_msat));
        put(&mut fields, "cltv_out", unsigned(self.hop.cltv_out));
        put(&mut fields, "status", plain_text(self.hop.status.as_str()));
        assert(fields_view(fields@) =~= Self::said(self.deep_view())->Object_0);
        Json::Object(fields)
    }
}

/// What an answer says of the failure of a probe.
pub open spec fn failure_json(probe: ProbeRow<Seq<char>>) -> JsonView {
    JsonView::Object(
        seq![
            ("code"@, signed_json(probe.failure_code)),
            ("failcode"@, signed_json(probe.failcode)),
            ("failcodename"@, optional_text_json(probe.failcodename)),
            ("erring_index"@, signed_json(probe.erring_index)),
            ("erring_channel"@, optional_text_json(probe.erring_channel)),
            ("erring_direction"@, signed_json(probe.erring_direction)),
            ("erring_node"@, optional_text_json(probe.erring_node)),
        ],
    )
}

fn failure(probe: &ProbeRow<String>) -> (r: Json)
    ensures
        json_view(r) == failure_json(probe.deep_view()),
{
    let mut fields: Vec<(String, Json)> = Vec::new();
    put(&mut fields, "code", signed(probe.failure_code));
    put(&mut fields, "failcode", signed(probe.failcode));
    put(&mut fields, "failcodename", optional_text(&probe.failcodename));
    put(&mut fields, "erring_index", signed(probe.erring_index));
    put(&mut fields, "erring_channel", optional_text(&probe.erring_channel));
    put(&mut fields, "erring_direction", signed(probe.erring_direction));
    put(&mut fields, "erring_node", optional_text(&probe.erring_node));
    assert(fields_view(fields@) =~= failure_json(probe.deep_view())->Object_0);
    Json::Object(fields)
}

impl Answer for ProbeItem {
    open spec fn said(item: ProbeItemView) -> JsonView {
        JsonView::Object(
            seq![
                ("cursor"@, unsigned_json(item.probe.id)),
                ("timestamp"@, unsigned_json(item.probe.ts)),
                ("started_at"@, optional_json(item.probe.started_at)),
                ("duration_ms"@, optional_json(item.probe.duration_ms)),
                ("plugin_version"@, optional_text_json(item.probe.plugin_version)),
                ("status"@, JsonView::Text(item.probe.status)),
                ("destination_reached"@, JsonView::Bool(item.probe.destination_reached)),
                ("destination"@, optional_text_json(item.probe.destination)),
                ("delivered_msat"@, unsigned_json(item.probe.delivered_msat)),
                ("amount_at_source_msat"@, unsigned_json(item.probe.amount_at_source_msat)),
                ("total_fee_msat"@, unsigned_json(item.probe.total_fee_msat)),
                ("lower_bound_msat"@, optional_json(item.probe.lower_bound_msat)),
                ("failure"@, failure_json(item.probe)),
                ("route_key"@, JsonView::Text(item.route_key)),
                ("route"@, list_json::<HopItem>(item.route)),
            ],
        )
    }

    fn answer(&self) -> (r: Json) {
        let probe = &self.probe;
        let mut fields: Vec<(String, Json)> = Vec::new();
        put(&mut fields, "cursor", unsigned(probe.id));
        put(&mut fields, "timestamp", unsigned(probe.ts));
        put(&mut fields, "started_at", optional(probe.started_at));
        put(&mut fields, "duration_ms", optional(probe.duration_ms));
        put(&mut fields, "plugin_version", optional_text(&probe.plugin_version));
        put(&mut fields, "status", plain_text(probe.status.as_str()));
        put(&mut fields, "destination_reached", Json::Bool(probe.destination_reached));
        put(&mut fields, "destination", optional_text(&probe.destination));
        put(&mut fields, "delivered_msat", unsigned(probe.delivered_msat));
        put(&mut fields, "amount_at_source_msat", unsigned(probe.amount_at_source_msat));
        put(&mut fields, "total_fee_msat", unsigned(probe.total_fee_msat));
        put(&mut fields, "lower_bound_msat", optional(probe.lower_bound_msat));
        put(&mut fields, "failure", failure(probe));
        put(&mut fields, "route_key", plain_text(self.route_key.as_str()));
        put(&mut fields, "route", list(&self.route));
        assert(fields_view(fields@) =~= Self::said(self.deep_view())->Object_0);
        Json::Object(fields)
    }
}

/// What an answer says of counts by name.
pub open spec fn counts_json(counts: Entries<u64>) -> JsonView {
    JsonView::Object(
        Seq::new(counts.len(), |i: int| (counts[i].0[0], unsigned_json(counts[i].1))),
    )
}

fn counts(map: &OrderedMap<String, u64>) -> (r: Json)
    ensures
        json_view(r) == counts_json(map@),
{
    let mut fields: Vec<(String, Json)> = Vec::new();
    let ghost said = Seq::new(
        map@.len(),
        |i: int| (map@[i].0[0], unsigned_json(map@[i].1)),
    );
    let mut i: usize = 0;
    assert(said.take(0) =~= Seq::empty());
    while i < map.len()
        invariant
            i <= map@.len(),
            said == Seq::new(map@.len(), |i: int| (map@[i].0[0], unsigned_json(map@[i].1))),
            fields_view(fields@) == said.take(i as int),
        decreases map@.len() - i,
    {
        put(&mut fields, map.key_at(i).as_str(), unsigned(*map.value_at(i)));
        assert(said.take(i + 1) =~= said.take(i as int).push(said[i as int]));
        i = i + 1;
    }
    assert(said.take(i as int) =~= said);
    Json::Object(fields)
}

impl Answer for ProbeAggregate {
    open spec fn said(group: AggregateView) -> JsonView {
        JsonView::Object(
            seq![
                ("period"@, unsigned_json(group.period)),
                ("route_key"@, JsonView::Text(group.route_key)),
                ("route"@, list_json::<HopItem>(group.route)),
                ("attempts"@, unsigned_json(group.attempts)),
                ("destination_reached"@, unsigned_json(group.destination_reached)),
                ("route_failed"@, unsigned_json(group.route_failed)),
                ("unexpected_settlement"@, unsigned_json(group.unexpected_settlement)),
                ("max_success_msat"@, optional_json(group.max_success_msat)),
                ("smallest_failed_msat"@, optional_json(group.smallest_failed_msat)),
                ("last_success_at"@, optional_json(group.last_success_at)),
                ("last_observed_at"@, unsigned_json(group.last_observed_at)),
                ("failures"@, counts_json(group.failures)),
            ],
        )
    }

    fn answer(&self) -> (r: Json) {
        let mut fields: Vec<(String, Json)> = Vec::new();
        put(&mut fields, "period", unsigned(self.period));
        put(&mut fields, "route_key", plain_text(self.route_key.as_str()));
        put(&mut fields, "route", list(&self.route));
        put(&mut fields, "attempts", unsigned(self.attempts));
        put(&mut fields, "destination_reached", unsigned(self.destination_reached));
        put(&mut fields, "route_failed", unsigned(self.route_failed));
        put(&mut fields, "unexpected_settlement", unsigned(self.unexpected_settlement));
        put(&mut fields, "max_success_msat", optional(self.max_success_msat));
        put(&mut fields, "smallest_failed_msat", optional(self.smallest_failed_msat));
        put(&mut fields, "last_success_at", optional(self.last_success_at));
        put(&mut fields, "last_observed_at", unsigned(self.last_observed_at));
        put(&mut fields, "failures", counts(&self.failures));
        assert(fields_view(fields@) =~= Self::said(self.deep_view())->Object_0);
        Json::Object(fields)
    }
}

/// The answer to a query for probes.
pub open spec fn probes_json(page: ProbePageView) -> JsonView {
    JsonView::Object(
        seq![
            ("api_version"@, unsigned_json(API_VERSION)),
            ("start"@, unsigned_json(page.start)),
            ("end"@, unsigned_json(page.end)),
            ("interval"@, optional_json(page.interval)),
            (
                "probes"@,
                match page.items {
                    ProbeItemsView::Raw(items) => list_json::<ProbeItem>(items),
                    ProbeItemsView::Aggregated(groups) => list_json::<ProbeAggregate>(groups),
                },
            ),
            ("pagination"@, pagination_json(page.next_cursor, page.has_more)),
        ],
    )
}

/// Answers a query for probes.
pub fn probes_answer(page: &ProbePage) -> (r: Json)
    ensures
        json_view(r) == probes_json(page@),
{
    let probes = match &page.items {
        ProbeItems::Raw(items) => list(items),
        ProbeItems::Aggregated(groups) => list(groups),
    };
    let mut fields: Vec<(String, Json)> = Vec::new();
    put(&mut fields, "api_version", unsigned(API_VERSION));
    put(&mut fields, "start", unsigned(page.start));
    put(&mut fields, "end", unsigned(page.end));
    put(&mut fields, "interval", optional(page.interval));
    put(&mut fields, "probes", probes);
    put(&mut fields, "pagination", pagination(page.next_cursor, page.has_more));
    assert(fields_view(fields@) =~= probes_json(page@)->Object_0);
    Json::Object(fields)
}

/// What an answer says of the last attempt to record the channels.
pub open spec fn run_json(run: Option<RunRow<Seq<char>>>) -> JsonView {
    match run {
        Some(run) => JsonView::Object(
            seq![
                ("timestamp"@, unsigned_json(run.ts)),
                ("success"@, JsonView::Bool(run.success)),
                ("channel_count"@, optional_json(run.channel_count)),
                ("error"@, optional_text_json(run.error)),
            ],
        ),
        None => JsonView::Null,
    }
}

fn last_run(run: &Option<RunRow<String>>) -> (r: Json)
    ensures
        json_view(r) == run_json(run.deep_view()),
{
    match run {
        Some(run) => {
            let mut fields: Vec<(String, Json)> = Vec::new();
            put(&mut fields, "timestamp", unsigned(run.ts));
            put(&mut fields, "success", Json::Bool(run.success));
            put(&mut fields, "channel_count", optional(run.channel_count));
            put(&mut fields, "error", optional_text(&run.error));
            assert(fields_view(fields@) =~= run_json(Some(run.deep_view()))->Object_0);
            Json::Object(fields)
        },
        None => Json::Null,
    }
}

/// What an answer says of the numbers of rows.
pub open spec fn row_counts_json(counts: Counts) -> JsonView {
    JsonView::Object(
        seq![
            ("channels"@, unsigned_json(counts.channels)),
            ("channel_samples"@, unsigned_json(counts.channel_samples)),
            ("channel_events"@, unsigned_json(counts.channel_events)),
            ("peer_connection_events"@, unsigned_json(counts.peer_connection_events)),
            ("forward_pair_buckets"@, unsigned_json(counts.forward_pair_buckets)),
            ("probe_events"@, unsigned_json(counts.probe_events)),
            ("successful_probe_events"@, unsigned_json(counts.successful_probe_events)),
            ("channel_aliases"@, unsigned_json(counts.channel_aliases)),
        ],
    )
}

fn row_counts(counts: &Counts) -> (r: Json)
    ensures
        json_view(r) == row_counts_json(*counts),
{
    let mut fields: Vec<(String, Json)> = Vec::new();
    put(&mut fields, "channels", unsigned(counts.channels));
    put(&mut fields, "channel_samples", unsigned(counts.channel_samples));
    put(&mut fields, "channel_events", unsigned(counts.channel_events));
    put(&mut fields, "peer_connection_events", unsigned(counts.peer_connection_events));
    put(&mut fields, "forward_pair_buckets", unsigned(counts.forward_pair_buckets));
    put(&mut fields, "probe_events", unsigned(counts.probe_events));
    put(&mut fields, "successful_probe_events", unsigned(counts.successful_probe_events));
    put(&mut fields, "channel_aliases", unsigned(counts.channel_aliases));
    assert(fields_view(fields@) =~= row_counts_json(*counts)->Object_0);
    Json::Object(fields)
}

/// What an answer says of the time that the history covers.
pub open spec fn coverage_json(oldest: Option<u64>, newest: Option<u64>) -> JsonView {
    JsonView::Object(
        seq![("oldest"@, optional_json(oldest)), ("newest"@, optional_json(newest))],
    )
}

fn coverage(oldest: Option<u64>, newest: Option<u64>) -> (r: Json)
    ensures
        json_view(r) == coverage_json(oldest, newest),
{
    let mut fields: Vec<(String, Json)> = Vec::new();
    put(&mut fields, "oldest", optional(oldest));
    put(&mut fields, "newest", optional(newest));
    assert(fields_view(fields@) =~= coverage_json(oldest, newest)->Object_0);
    Json::Object(fields)
}

/// The answer about how the history stands.
pub open spec fn status_json(status: Status, storage: Storage, path: Seq<char>) -> JsonView {
    JsonView::Object(
        seq![
            ("api_version"@, unsigned_json(API_VERSION)),
            ("schema_version"@, unsigned_json(status.schema_version)),
            ("database"@, JsonView::Text(path)),
            ("database_bytes"@, unsigned_json(storage.database_bytes)),
            ("wal_bytes"@, unsigned_json(storage.wal_bytes)),
            ("storage_bytes"@, unsigned_json(storage.storage_bytes)),
            ("retention_days"@, unsigned_json(status.retention_days)),
            ("change_only"@, JsonView::Bool(true)),
            ("checkpoint_seconds"@, unsigned_json(status.checkpoint_seconds)),
            ("forward_bucket_seconds"@, unsigned_json(status.forward_bucket_seconds)),
            ("coverage"@, coverage_json(status.oldest, status.newest)),
            ("last_collection"@, run_json(status.last_collection.deep_view())),
            ("counts"@, row_counts_json(status.counts)),
        ],
    )
}

/// Answers how the history stands. The database is at that path and takes that much on disk.
pub fn status_answer(status: &Status, storage: &Storage, path: &str) -> (r: Json)
    ensures
        json_view(r) == status_json(*status, *storage, path@),
{
    let mut fields: Vec<(String, Json)> = Vec::new();
    put(&mut fields, "api_version", unsigned(API_VERSION));
    put(&mut fields, "schema_version", unsigned(status.schema_version));
    put(&mut fields, "database", plain_text(path));
    put(&mut fields, "database_bytes", unsigned(storage.database_bytes));
    put(&mut fields, "wal_bytes", unsigned(storage.wal_bytes));
    put(&mut fields, "storage_bytes", unsigned(storage.storage_bytes));
    put(&mut fields, "retention_days", unsigned(status.retention_days));
    put(&mut fields, "change_only", Json::Bool(true));
    put(&mut fields, "checkpoint_seconds", unsigned(status.checkpoint_seconds));
    put(&mut fields, "forward_bucket_seconds", unsigned(status.forward_bucket_seconds));
    put(&mut fields, "coverage", coverage(status.oldest, status.newest));
    put(&mut fields, "last_collection", last_run(&status.last_collection));
    put(&mut fields, "counts", row_counts(&status.counts));
    assert(fields_view(fields@) =~= status_json(*status, *storage, path@)->Object_0);
    Json::Object(fields)
}

/// What an answer says of the labels of a sample.
pub open spec fn labels_json(labels: Entries<String>) -> JsonView {
    JsonView::Object(
        Seq::new(labels.len(), |i: int| (labels[i].0[0], JsonView::Text(labels[i].1@))),
    )
}

fn labels(map: &OrderedMap<String, String>) -> (r: Json)
    ensures
        json_view(r) == labels_json(map@),
{
    let mut fields: Vec<(String, Json)> = Vec::new();
    let ghost said = Seq::new(
        map@.len(),
        |i: int| (map@[i].0[0], JsonView::Text(map@[i].1@)),
    );
    let mut i: usize = 0;
    assert(said.take(0) =~= Seq::empty());
    while i < map.len()
        invariant
            i <= map@.len(),
            said == Seq::new(map@.len(), |i: int| (map@[i].0[0], JsonView::Text(map@[i].1@))),
            fields_view(fields@) == said.take(i as int),
        decreases map@.len() - i,
    {
        put(&mut fields, map.key_at(i).as_str(), plain_text(map.value_at(i).as_str()));
        assert(said.take(i + 1) =~= said.take(i as int).push(said[i as int]));
        i = i + 1;
    }
    assert(said.take(i as int) =~= said);
    Json::Object(fields)
}

/// What an answer says of a sample of a metric. A sample without labels names none.
pub open spec fn metric_sample_json(sample: Sample) -> JsonView {
    JsonView::Object(
        if sample.labels@.len() == 0 {
            seq![("value"@, JsonView::Number(number_view(sample.value)))]
        } else {
            seq![
                ("labels"@, labels_json(sample.labels@)),
                ("value"@, JsonView::Number(number_view(sample.value))),
            ]
        },
    )
}

fn metric_sample(sample: &Sample) -> (r: Json)
    ensures
        json_view(r) == metric_sample_json(*sample),
{
    let mut fields: Vec<(String, Json)> = Vec::new();
    if sample.labels.len() > 0 {
        put(&mut fields, "labels", labels(&sample.labels));
    }
    put(&mut fields, "value", Json::Number(sample.value.clone()));
    assert(fields_view(fields@) =~= metric_sample_json(*sample)->Object_0);
    Json::Object(fields)
}

/// What an answer says of a family of metrics.
pub open spec fn family_json(family: Family) -> JsonView {
    JsonView::Object(
        seq![
            ("name"@, JsonView::Text(family.name@)),
            ("help"@, JsonView::Text(family.help@)),
            ("type"@, JsonView::Text(family.kind.text())),
            (
                "samples"@,
                JsonView::Array(
                    Seq::new(
                        family.samples@.len(),
                        |i: int| metric_sample_json(family.samples@[i]),
                    ),
                ),
            ),
        ],
    )
}

fn metric_family(family: &Family) -> (r: Json)
    ensures
        json_view(r) == family_json(*family),
{
    let rows = &family.samples;
    let mut items: Vec<Json> = Vec::new();
    let ghost said = Seq::new(rows@.len(), |i: int| metric_sample_json(rows@[i]));
    let mut i: usize = 0;
    assert(said.take(0) =~= Seq::empty());
    while i < rows.len()
        invariant
            i <= rows@.len(),
            said == Seq::new(rows@.len(), |i: int| metric_sample_json(rows@[i])),
            items_view(items@) == said.take(i as int),
        decreases rows@.len() - i,
    {
        append(&mut items, metric_sample(&rows[i]));
        assert(said.take(i + 1) =~= said.take(i as int).push(said[i as int]));
        i = i + 1;
    }
    assert(said.take(i as int) =~= said);
    let mut fields: Vec<(String, Json)> = Vec::new();
    put(&mut fields, "name", plain_text(family.name.as_str()));
    put(&mut fields, "help", plain_text(family.help.as_str()));
    put(&mut fields, "type", plain_text(family.kind.as_str()));
    put(&mut fields, "samples", Json::Array(items));
    assert(fields_view(fields@) =~= family_json(*family)->Object_0);
    Json::Object(fields)
}

/// The answer that holds the metrics.
pub open spec fn metrics_json(metrics: WireMetrics) -> JsonView {
    JsonView::Object(
        seq![
            ("version"@, unsigned_json(metrics.version)),
            ("namespace"@, JsonView::Text(metrics.namespace@)),
            (
                "families"@,
                JsonView::Array(
                    Seq::new(metrics.families@.len(), |i: int| family_json(metrics.families@[i])),
                ),
            ),
        ],
    )
}

/// Answers with the metrics.
pub fn metrics_answer(metrics: &WireMetrics) -> (r: Json)
    ensures
        json_view(r) == metrics_json(*metrics),
{
    let rows = &metrics.families;
    let mut items: Vec<Json> = Vec::new();
    let ghost said = Seq::new(rows@.len(), |i: int| family_json(rows@[i]));
    let mut i: usize = 0;
    assert(said.take(0) =~= Seq::empty());
    while i < rows.len()
        invariant
            i <= rows@.len(),
            said == Seq::new(rows@.len(), |i: int| family_json(rows@[i])),
            items_view(items@) == said.take(i as int),
        decreases rows@.len() - i,
    {
        append(&mut items, metric_family(&rows[i]));
        assert(said.take(i + 1) =~= said.take(i as int).push(said[i as int]));
        i = i + 1;
    }
    assert(said.take(i as int) =~= said);
    let mut fields: Vec<(String, Json)> = Vec::new();
    put(&mut fields, "version", unsigned(metrics.version));
    put(&mut fields, "namespace", plain_text(metrics.namespace.as_str()));
    put(&mut fields, "families", Json::Array(items));
    assert(fields_view(fields@) =~= metrics_json(*metrics)->Object_0);
    Json::Object(fields)
}

} // verus!
