use cln_exporter::answers::forward_pairs_answer;
use cln_exporter::browse::SamplePage;
use cln_exporter::history::{recording, HistorySettings, HistorySettingsError, Recording};
use cln_exporter::json::{Json, JsonNumber};
use cln_exporter::lookups::PairPage;
use cln_exporter::plugin_metrics::{validate_wire, WireMetrics};
use cln_exporter::probes::{ProbeAggregate, ProbeItem, ProbeItems, ProbePage};
use cln_exporter::queries::{EventQuery, PairQuery, Params, ProbeQuery, RangeQuery, SampleQuery};
use cln_exporter::recording::HistoryError;
use cln_exporter::reports::probes_answer;
use cln_exporter::store::{resolve_alias, BucketRow, ChannelRow, HistoryDb};
use cln_exporter::upkeep::{
    from_i64, from_optional_i64, optional_i64, schema_version, to_i64, OldBucket, OldEvent,
    OldSample, Storage,
};

const NOW: u64 = 1_000_000;

fn convert(value: &serde_json::Value) -> Json {
    match value {
        serde_json::Value::Null => Json::Null,
        serde_json::Value::Bool(b) => Json::Bool(*b),
        serde_json::Value::Number(n) => Json::Number(if let Some(n) = n.as_u64() {
            JsonNumber::Unsigned(n)
        } else if let Some(n) = n.as_i64() {
            JsonNumber::Negative(n)
        } else {
            JsonNumber::Float(n.to_string())
        }),
        serde_json::Value::String(text) => Json::Text(text.clone()),
        serde_json::Value::Array(items) => Json::Array(items.iter().map(convert).collect()),
        serde_json::Value::Object(fields) => Json::Object(
            fields
                .iter()
                .map(|(key, value)| (key.clone(), convert(value)))
                .collect(),
        ),
    }
}

fn json(text: &str) -> Json {
    convert(&serde_json::from_str(text).unwrap())
}

fn elements<'a>(answer: &'a Json, field: &str) -> &'a Vec<Json> {
    answer.get(field).unwrap().as_array().unwrap()
}

fn database() -> HistoryDb {
    HistoryDb::open(30)
}

fn range(start: Option<u64>, end: Option<u64>) -> RangeQuery {
    RangeQuery {
        start,
        end,
        channel: None,
        cursor: None,
        limit: 10_000,
    }
}

fn sample_query(range: RangeQuery, interval: Option<u64>) -> SampleQuery {
    SampleQuery::parse_at(Params::Named(SampleQuery { range, interval }), NOW).unwrap()
}

fn pair_query(range: RangeQuery, interval: u64) -> PairQuery {
    PairQuery::parse_at(
        Params::Named(PairQuery {
            range,
            interval,
            in_channel: None,
            out_channel: None,
            min_ppm: None,
            max_ppm: None,
        }),
        true,
        NOW,
    )
    .unwrap()
}

fn event_query(range: RangeQuery) -> EventQuery {
    EventQuery::parse_at(
        Params::Named(EventQuery {
            range,
            event_type: None,
        }),
        NOW,
    )
    .unwrap()
}

fn probe_query(range: RangeQuery, interval: Option<u64>) -> ProbeQuery {
    ProbeQuery::parse_at(
        Params::Named(ProbeQuery {
            range,
            status: None,
            destination: None,
            interval,
        }),
        NOW,
    )
    .unwrap()
}

fn all_samples(database: &HistoryDb) -> SamplePage {
    database
        .channel_samples(&sample_query(range(None, None), None), NOW)
        .unwrap()
}

fn ppm(row: &BucketRow<String>) -> f64 {
    if row.out_msat > 0 {
        row.fee_msat as f64 * 1_000_000.0 / row.out_msat as f64
    } else {
        0.0
    }
}

fn forward_pairs(database: &HistoryDb, query: &PairQuery) -> PairPage {
    let totals = database.pair_totals(query, NOW).unwrap();
    let admitted = totals.iter().map(|_| true).collect();
    database.forward_pairs(query, NOW, &totals, &admitted)
}

fn channels(to_us: u64) -> Json {
    json(&format!(
        r#"{{"channels": [{{
            "peer_id": "peer", "channel_id": "channel", "short_channel_id": "1x2x3",
            "state": "CHANNELD_NORMAL", "peer_connected": true, "reestablished": true,
            "total_msat": 1000000, "to_us_msat": {to_us},
            "spendable_msat": {}, "receivable_msat": {}, "htlcs": []
        }}]}}"#,
        to_us.saturating_sub(10_000),
        990_000u64.saturating_sub(to_us),
    ))
}

fn channel_version(channel_id: &str, scid: &str, local_alias: &str, to_us: u64) -> Json {
    json(&format!(
        r#"{{"channels": [{{
            "peer_id": "peer", "channel_id": "{channel_id}", "short_channel_id": "{scid}",
            "alias": {{"local": "{local_alias}"}},
            "state": "CHANNELD_NORMAL", "peer_connected": true, "reestablished": true,
            "total_msat": 1000000, "to_us_msat": {to_us},
            "spendable_msat": {}, "receivable_msat": {}, "htlcs": []
        }}]}}"#,
        to_us.saturating_sub(10_000),
        990_000u64.saturating_sub(to_us),
    ))
}

fn probe_result(timestamp: u64, status: &str, amount_msat: u64) -> Json {
    let reached = status == "destination_reached";
    let lower_bound = if reached {
        amount_msat.to_string()
    } else {
        "null".to_owned()
    };
    let failure = if reached {
        r#"{"code": 203, "failcodename": "WIRE_INCORRECT_OR_UNKNOWN_PAYMENT_DETAILS",
            "erring_index": 2, "erring_channel": "2x2x2", "erring_direction": 0,
            "erring_node": "destination"}"#
    } else {
        r#"{"code": 204, "failcode": 4103,
            "failcodename": "WIRE_TEMPORARY_CHANNEL_FAILURE", "erring_index": 1,
            "erring_channel": "1x2x3", "erring_direction": 0,
            "erring_node": "middle"}"#
    };
    let last_status = if reached { "reached" } else { "failed" };
    json(&format!(
        r#"{{
            "observed_at": {timestamp},
            "started_at": {},
            "duration_ms": 2000,
            "plugin_version": "0.1.0",
            "status": "{status}",
            "destination_reached": {reached},
            "delivered_msat": {amount_msat},
            "amount_at_source_msat": {},
            "total_fee_msat": 100,
            "lower_bound_msat": {lower_bound},
            "failure": {failure},
            "route": [
                {{"node_id_out": "middle", "short_channel_id_dir": "1x2x3/0",
                    "amount_out_msat": {}, "cltv_out": 144, "status": "reached"}},
                {{"node_id_out": "destination", "short_channel_id_dir": "2x2x2/0",
                    "amount_out_msat": {amount_msat}, "cltv_out": 110,
                    "status": "{last_status}"}}
            ]
        }}"#,
        timestamp.saturating_sub(2),
        amount_msat + 100,
        amount_msat + 100,
    ))
}

fn raw(page: &ProbePage) -> &Vec<ProbeItem> {
    match &page.items {
        ProbeItems::Raw(items) => items,
        ProbeItems::Aggregated(_) => panic!("aggregated"),
    }
}

fn aggregates(page: &ProbePage) -> &Vec<ProbeAggregate> {
    match &page.items {
        ProbeItems::Raw(_) => panic!("raw"),
        ProbeItems::Aggregated(items) => items,
    }
}

fn storage() -> Storage {
    Storage {
        database_bytes: 4_096,
        wal_bytes: 0,
        storage_bytes: 4_096,
        page_count: 1,
        freelist_count: 0,
    }
}

fn unsigned(metrics: &WireMetrics, name: &str) -> u64 {
    let family = metrics
        .families
        .iter()
        .find(|family| family.name == name)
        .unwrap();
    match &family.samples[0].value {
        JsonNumber::Unsigned(n) => *n,
        other => panic!("{other:?}"),
    }
}

#[test]
fn snapshots_are_change_only_with_hourly_checkpoints() {
    let mut database = database();
    database
        .record_channel_snapshot(1_000, &channels(600_000))
        .unwrap();
    database
        .record_channel_snapshot(1_300, &channels(600_000))
        .unwrap();
    database
        .record_channel_snapshot(1_600, &channels(500_000))
        .unwrap();
    database
        .record_channel_snapshot(5_300, &channels(500_000))
        .unwrap();
    assert_eq!(all_samples(&database).items.len(), 3);
}

#[test]
fn new_blocks_do_not_create_idle_channel_change_points() {
    let mut database = database();
    database
        .record_channel_snapshot_at_height(1_000, &channels(600_000), Some(900_000))
        .unwrap();
    database
        .record_channel_snapshot_at_height(1_300, &channels(600_000), Some(900_001))
        .unwrap();
    assert_eq!(all_samples(&database).items.len(), 1);
}

#[test]
fn aggregates_forward_pairs_and_effective_ppm() {
    let mut database = database();
    let forward = json(
        r#"{"status": "settled", "in_channel": "1x1x1", "out_channel": "2x2x2",
            "in_msat": 1000650, "out_msat": 1000000, "fee_msat": 650}"#,
    );
    database.record_forward_event(1_001, &forward).unwrap();
    database.record_forward_event(1_100, &forward).unwrap();
    let page = forward_pairs(&database, &pair_query(range(Some(0), Some(2_000)), 3600));
    assert_eq!(page.items[0].totals.forward_count, 2);
    assert_eq!(page.items[0].totals.fee_msat, 1_300);
    assert_eq!(ppm(&page.items[0].totals), 650.0);
}

#[test]
fn preserves_forward_failure_reasons_and_ingress_only_failures() {
    let mut database = database();
    for (failcode, failreason) in [
        (4103, "WIRE_TEMPORARY_CHANNEL_FAILURE"),
        (4103, "WIRE_TEMPORARY_CHANNEL_FAILURE"),
        (8194, "WIRE_TEMPORARY_NODE_FAILURE"),
    ] {
        database
            .record_forward_event(
                1_001,
                &json(&format!(
                    r#"{{"status": "local_failed", "in_channel": "1x1x1",
                        "in_msat": 250000, "failcode": {failcode},
                        "failreason": "{failreason}"}}"#
                )),
            )
            .unwrap();
    }
    let page = forward_pairs(&database, &pair_query(range(Some(0), Some(2_000)), 3_600));
    let pairs = &page.items;
    assert_eq!(pairs.len(), 2);
    assert_eq!(pairs[0].totals.out_channel, "unknown");
    assert_eq!(pairs[0].totals.failcode, 4103);
    assert_eq!(pairs[0].totals.failreason, "WIRE_TEMPORARY_CHANNEL_FAILURE");
    assert_eq!(pairs[0].totals.forward_count, 2);
    assert_eq!(pairs[1].totals.failcode, 8194);
}

#[test]
fn migrates_v2_forward_buckets_without_inventing_failure_details() {
    let mut database = database();
    database.buckets.push(
        OldBucket {
            bucket_start: 900,
            in_channel: "1x1x1".to_owned(),
            out_channel: "2x2x2".to_owned(),
            status: "local_failed".to_owned(),
            forward_count: 4,
            in_msat: 1_000_000,
            out_msat: 0,
            fee_msat: 0,
        }
        .upgrade(),
    );
    database.migrate(schema_version("2")).unwrap();
    let page = forward_pairs(&database, &pair_query(range(Some(0), Some(2_000)), 3_600));
    assert_eq!(database.status().schema_version, 5);
    assert_eq!(page.items[0].totals.forward_count, 4);
    assert_eq!(page.items[0].totals.failcode, 0);
    assert_eq!(page.items[0].totals.failreason, "");
    let answer = forward_pairs_answer(&page, &vec!["0.0".to_owned()]);
    let pair = &elements(&answer, "pairs")[0];
    assert_eq!(pair.get("forward_count").unwrap().as_u64(), Some(4));
    assert!(matches!(pair.get("failcode"), Some(Json::Null)));
    assert!(matches!(pair.get("failreason"), Some(Json::Null)));
}

#[test]
fn detects_channel_disappearance_and_reappearance() {
    let mut database = database();
    database
        .record_channel_snapshot(1_000, &channels(600_000))
        .unwrap();
    database
        .record_channel_snapshot(1_300, &json(r#"{"channels": []}"#))
        .unwrap();
    database
        .record_channel_snapshot(1_600, &channels(600_000))
        .unwrap();
    assert_eq!(database.status().counts.channel_events, 2);
    let page = database
        .events(&event_query(range(None, None)), NOW)
        .unwrap();
    assert_eq!(page.items[0].event_type, "disappeared");
    assert_eq!(page.items[0].old_state.as_deref(), Some("CHANNELD_NORMAL"));
    assert_eq!(page.items[1].event_type, "reappeared");
    assert_eq!(page.items[1].new_state.as_deref(), Some("CHANNELD_NORMAL"));
}

#[test]
fn records_exact_peer_connection_notifications() {
    let mut database = database();
    database
        .record_peer_connection_event(
            1_000,
            "connect",
            &json(r#"{"id": "peer", "direction": "out"}"#),
        )
        .unwrap();
    database
        .record_peer_connection_event(
            1_120,
            "disconnect",
            &json(r#"{"id": "peer", "reason": "socket closed"}"#),
        )
        .unwrap();
    let page = database
        .events(&event_query(range(Some(900), Some(1_200))), NOW)
        .unwrap();
    let events = &page.items;
    assert_eq!(events.len(), 2);
    assert_eq!(events[0].event_type, "connect");
    assert_eq!(events[0].peer_id.as_deref(), Some("peer"));
    assert_eq!(events[0].direction.as_deref(), Some("out"));
    assert_eq!(events[1].event_type, "disconnect");
    assert_eq!(events[1].reason.as_deref(), Some("socket closed"));
    assert_eq!(database.status().counts.peer_connection_events, 2);
}

#[test]
fn migrates_v3_channel_samples_and_events_to_v4() {
    let mut database = database();
    database.samples.push(
        OldSample {
            id: 7,
            ts: 1_000,
            channel_key: "channel".to_owned(),
            channel_id: Some("channel".to_owned()),
            short_channel_id: Some("1x2x3".to_owned()),
            peer_id: "peer".to_owned(),
            state: "CHANNELD_NORMAL".to_owned(),
            connected: true,
            reestablished: true,
            capacity_msat: 1_000_000,
            to_us_msat: 600_000,
            spendable_msat: 590_000,
            receivable_msat: 390_000,
            htlc_in_count: 0,
            htlc_out_count: 0,
            htlc_in_msat: 0,
            htlc_out_msat: 0,
        }
        .upgrade(),
    );
    database.last_sample_id = 7;
    database.events.push(
        OldEvent {
            id: 3,
            ts: 1_000,
            event_type: "state_changed".to_owned(),
            channel_key: Some("channel".to_owned()),
            channel_id: Some("channel".to_owned()),
            short_channel_id: Some("1x2x3".to_owned()),
            peer_id: Some("peer".to_owned()),
            old_state: Some("A".to_owned()),
            new_state: Some("B".to_owned()),
            cause: Some("local".to_owned()),
        }
        .upgrade(),
    );
    database.last_event_id = 3;
    database.migrate(schema_version("3")).unwrap();
    let samples = all_samples(&database);
    let events = database
        .events(&event_query(range(None, None)), NOW)
        .unwrap();
    assert_eq!(database.status().schema_version, 5);
    assert_eq!(samples.items[0].id, 7);
    assert_eq!(samples.items[0].sample.to_us_msat, 600_000);
    assert_eq!(samples.items[0].sample.blockheight, None);
    assert_eq!(events.items[0].id, 3);
    assert_eq!(events.items[0].direction, None);
}

#[test]
fn keeps_identity_when_channel_ids_change_but_an_alias_survives() {
    let mut database = database();
    database
        .record_channel_snapshot(
            1_000,
            &channel_version("channel-a", "1x1x1", "9x9x9", 600_000),
        )
        .unwrap();
    database
        .record_channel_snapshot(
            1_300,
            &channel_version("channel-b", "2x2x2", "9x9x9", 500_000),
        )
        .unwrap();
    let page = all_samples(&database);
    let identities = page
        .items
        .iter()
        .map(|item| item.sample.channel_key.as_str())
        .collect::<std::collections::HashSet<_>>();
    assert_eq!(identities, std::collections::HashSet::from(["channel-a"]));
    assert_eq!(database.status().counts.channels, 1);

    database
        .record_forward_event(
            1_400,
            &json(
                r#"{"status": "settled", "in_channel": "2x2x2", "out_channel": "unknown",
                    "in_msat": 1001, "out_msat": 1000, "fee_msat": 1}"#,
            ),
        )
        .unwrap();
    let pairs = forward_pairs(&database, &pair_query(range(Some(0), Some(2_000)), 3_600));
    assert_eq!(pairs.items[0].in_details.identity, "channel-a");
}

#[test]
fn paginates_samples_without_overlap() {
    let mut database = database();
    for (timestamp, balance) in [(1_000, 600_000), (1_300, 500_000), (1_600, 400_000)] {
        database
            .record_channel_snapshot(timestamp, &channels(balance))
            .unwrap();
    }
    let mut first_range = range(None, None);
    first_range.limit = 2;
    let first = database
        .channel_samples(&sample_query(first_range, None), NOW)
        .unwrap();
    assert_eq!(first.items.len(), 2);
    assert!(first.has_more);
    let cursor = first.next_cursor.unwrap();
    let mut second_range = range(None, None);
    second_range.limit = 2;
    second_range.cursor = Some(cursor);
    let second = database
        .channel_samples(&sample_query(second_range, None), NOW)
        .unwrap();
    assert_eq!(second.items.len(), 1);
    assert!(!second.has_more);
    assert!(second.items[0].id > cursor);
}

#[test]
fn returns_last_channel_state_in_each_time_bucket() {
    let mut database = database();
    for (timestamp, balance) in [(1_000, 600_000), (1_300, 500_000), (1_600, 400_000)] {
        database
            .record_channel_snapshot(timestamp, &channels(balance))
            .unwrap();
    }
    let page = database
        .channel_samples(
            &sample_query(range(Some(1_000), Some(2_000)), Some(600)),
            NOW,
        )
        .unwrap();
    assert_eq!(page.items.len(), 2);
    assert_eq!(page.items[0].bucket_start, Some(1_000));
    assert_eq!(page.items[0].sample.to_us_msat, 500_000);
    assert_eq!(page.items[1].bucket_start, Some(1_600));
}

#[test]
fn migrates_v1_channel_identifiers_into_aliases() {
    let mut database = database();
    database.channels.push(ChannelRow {
        channel_key: "stable".to_owned(),
        channel_id: Some("channel-id".to_owned()),
        short_channel_id: Some("1x2x3".to_owned()),
        peer_id: "peer".to_owned(),
        first_seen: 1_000,
        last_seen: 1_300,
        last_state: "CHANNELD_NORMAL".to_owned(),
        disappeared_at: None,
    });
    database.migrate(schema_version("1")).unwrap();
    assert_eq!(
        resolve_alias(&database.aliases, "channel-id").as_deref(),
        Some("stable")
    );
    assert_eq!(
        resolve_alias(&database.aliases, "1x2x3").as_deref(),
        Some("stable")
    );
    assert_eq!(database.status().schema_version, 5);
}

#[test]
fn paginates_forward_pairs_and_events() {
    let mut database = database();
    for (timestamp, incoming) in [(1_000, "1x1x1"), (5_000, "2x2x2"), (9_000, "3x3x3")] {
        database
            .record_forward_event(
                timestamp,
                &json(&format!(
                    r#"{{"status": "settled", "in_channel": "{incoming}",
                        "out_channel": "9x9x9", "in_msat": 1001, "out_msat": 1000,
                        "fee_msat": 1}}"#
                )),
            )
            .unwrap();
        database
            .record_channel_event(
                timestamp,
                &json(&format!(
                    r#"{{"channel_id": "{incoming}", "peer_id": "peer",
                        "old_state": "A", "new_state": "B", "cause": "local"}}"#
                )),
            )
            .unwrap();
    }
    let page = |cursor: Option<u64>| {
        let mut range = range(Some(0), Some(10_000));
        range.limit = 2;
        range.cursor = cursor;
        range
    };
    let pairs = forward_pairs(&database, &pair_query(page(None), 3600));
    assert_eq!(pairs.items.len(), 2);
    let pair_cursor = pairs.next_cursor.unwrap();
    let pairs = forward_pairs(&database, &pair_query(page(Some(pair_cursor)), 3600));
    assert_eq!(pairs.items.len(), 1);

    let events = database.events(&event_query(page(None)), NOW).unwrap();
    let event_cursor = events.next_cursor.unwrap();
    let events = database
        .events(&event_query(page(Some(event_cursor))), NOW)
        .unwrap();
    assert_eq!(events.items.len(), 1);
}

#[test]
fn records_probe_routes_with_durable_channel_identity() {
    let mut database = database();
    database
        .record_channel_snapshot(900, &channels(600_000))
        .unwrap();
    database
        .record_probe_result(1_001, &probe_result(1_000, "destination_reached", 500_000))
        .unwrap();
    let mut wanted = range(Some(900), Some(1_100));
    wanted.channel = Some("1x2x3".to_owned());
    let page = database
        .probe_events(&probe_query(wanted, None), NOW)
        .unwrap();
    let answer = probes_answer(&page);
    assert_eq!(answer.get("api_version").unwrap().as_u64(), Some(2));
    assert!(elements(&answer, "probes")[0].get("payment_hash").is_none());
    let probe = &raw(&page)[0];
    assert_eq!(probe.probe.status, "destination_reached");
    assert_eq!(probe.probe.destination.as_deref(), Some("destination"));
    assert_eq!(probe.route_key, "1x2x3/0>2x2x2/0");
    assert_eq!(probe.route[0].identity, "channel");
    assert_eq!(
        probe.route[0].details.current.as_ref().unwrap().peer_id,
        "peer"
    );
    assert_eq!(probe.probe.lower_bound_msat, Some(500_000));
    assert_eq!(probe.probe.failure_code, Some(203));
    assert_eq!(database.status().counts.probe_events, 1);
    assert_eq!(database.status().counts.successful_probe_events, 1);
}

#[test]
fn aggregates_probe_bounds_and_failure_reasons() {
    let mut database = database();
    database
        .record_probe_result(1_001, &probe_result(1_000, "destination_reached", 500_000))
        .unwrap();
    database
        .record_probe_result(1_101, &probe_result(1_100, "route_failed", 750_000))
        .unwrap();
    let page = database
        .probe_events(
            &probe_query(range(Some(900), Some(1_200)), Some(600)),
            NOW,
        )
        .unwrap();
    let aggregate = &aggregates(&page)[0];
    assert_eq!(aggregate.attempts, 2);
    assert_eq!(aggregate.destination_reached, 1);
    assert_eq!(aggregate.route_failed, 1);
    assert_eq!(aggregate.max_success_msat, Some(500_000));
    assert_eq!(aggregate.smallest_failed_msat, Some(750_000));
    assert_eq!(
        aggregate
            .failures
            .get(&"WIRE_TEMPORARY_CHANNEL_FAILURE".to_owned()),
        Some(&1)
    );
    assert_eq!(aggregate.period, 600);
    assert_eq!(aggregate.last_observed_at, 1_100);
    assert_eq!(aggregate.last_success_at, Some(1_000));
}

#[test]
fn paginates_raw_probe_results_without_overlap() {
    let mut database = database();
    for timestamp in [1_000, 1_100, 1_200] {
        database
            .record_probe_result(
                timestamp,
                &probe_result(timestamp, "destination_reached", timestamp * 10),
            )
            .unwrap();
    }
    let mut first_range = range(None, None);
    first_range.limit = 2;
    let first = database
        .probe_events(&probe_query(first_range, None), NOW)
        .unwrap();
    assert_eq!(raw(&first).len(), 2);
    let cursor = first.next_cursor.unwrap();
    let mut second_range = range(None, None);
    second_range.limit = 2;
    second_range.cursor = Some(cursor);
    let second = database
        .probe_events(&probe_query(second_range, None), NOW)
        .unwrap();
    assert_eq!(raw(&second).len(), 1);
    assert!(raw(&second)[0].probe.id > cursor);
}

#[test]
fn metrics_report_storage_rows_and_collection_health() {
    let mut database = database();
    database
        .record_channel_snapshot(1_000, &channels(600_000))
        .unwrap();
    database
        .record_collection_failure(1_300, "test failure")
        .unwrap();
    let metrics = database.metrics(&storage(), 2_000).unwrap();
    assert_eq!(metrics.version, 1);
    assert_eq!(metrics.namespace, "history");
    assert!(unsigned(&metrics, "database_bytes") > 0);
    assert_eq!(unsigned(&metrics, "channels"), 1);
    assert_eq!(unsigned(&metrics, "channel_samples"), 1);
    assert_eq!(unsigned(&metrics, "probe_events"), 0);
    assert_eq!(unsigned(&metrics, "retained_collection_failures"), 1);
    assert_eq!(unsigned(&metrics, "collection_success"), 0);
    assert_eq!(
        unsigned(&metrics, "last_successful_collection_timestamp_seconds"),
        1_000
    );
    assert_eq!(
        unsigned(&metrics, "last_successful_collection_age_seconds"),
        1_000
    );
    assert_eq!(unsigned(&metrics, "retention_seconds"), 30 * 86_400);
}

#[test]
fn the_exporter_accepts_the_history_metrics() {
    let metrics = database().metrics(&storage(), NOW).unwrap();
    let accepted = validate_wire("history-metrics", metrics).unwrap();
    assert_eq!(accepted.sample_count, 25);
    assert!(matches!(
        database().metrics(&storage(), u64::MAX),
        Err(HistoryError::OutOfRange)
    ));
}

#[test]
fn a_clock_that_went_back_gives_a_negative_age() {
    let mut database = database();
    database
        .record_channel_snapshot(1_000, &channels(1))
        .unwrap();
    let metrics = database.metrics(&storage(), 900).unwrap();
    let family = metrics
        .families
        .iter()
        .find(|family| family.name == "last_successful_collection_age_seconds")
        .unwrap();
    assert!(matches!(
        family.samples[0].value,
        JsonNumber::Negative(-100)
    ));
}

#[test]
fn the_latest_old_state_outlives_the_retention_time() {
    let mut database = HistoryDb::open(1);
    for (timestamp, balance) in [(1_000, 1), (2_000, 2), (3_000, 3)] {
        database
            .record_channel_snapshot(timestamp, &channels(balance))
            .unwrap();
    }
    database
        .record_forward_event(1_000, &json(r#"{"in_channel": "a"}"#))
        .unwrap();
    database
        .record_probe_result(1_000, &probe_result(1_000, "route_failed", 5))
        .unwrap();
    database
        .record_channel_snapshot(3_000 + 86_400 + 1, &channels(4))
        .unwrap();
    let balances: Vec<u64> = database
        .samples
        .iter()
        .map(|row| row.sample.to_us_msat)
        .collect();
    assert_eq!(balances, vec![3, 4]);
    assert_eq!(database.buckets.len(), 0);
    assert_eq!(database.probes.len(), 0);
    assert_eq!(database.hops.len(), 0);
    assert_eq!(database.runs.len(), 1);
    let page = database
        .channel_samples(&sample_query(range(Some(80_000), None), None), NOW)
        .unwrap();
    let seen: Vec<u64> = page
        .items
        .iter()
        .map(|item| item.sample.to_us_msat)
        .collect();
    assert_eq!(seen, vec![3, 4]);
}

#[test]
fn pending_htlcs_have_pages_of_their_own() {
    let with_htlcs = |count: usize| {
        let htlcs: Vec<String> = (0..count)
            .map(|_| r#"{"direction": "in", "amount_msat": 5}"#.to_owned())
            .collect();
        json(&format!(
            r#"{{"channels": [{{"channel_id": "c", "htlcs": [{}]}}]}}"#,
            htlcs.join(",")
        ))
    };
    let mut database = database();
    for (timestamp, count) in [(1_000, 2), (1_100, 1), (1_200, 0), (1_300, 1)] {
        database
            .record_channel_snapshot(timestamp, &with_htlcs(count))
            .unwrap();
    }
    let all = database
        .htlc_samples(&sample_query(range(Some(1_000), None), None), NOW)
        .unwrap();
    assert_eq!(all.items.len(), 3);
    let most = database
        .htlc_samples(&sample_query(range(Some(1_000), None), Some(600)), NOW)
        .unwrap();
    assert_eq!(most.items.len(), 1);
    assert_eq!(most.items[0].sample.htlc_in_count, 2);
    assert_eq!(most.items[0].sample.htlc_in_msat, 10);
}

#[test]
fn channel_details_list_names_by_kind() {
    let mut database = database();
    database
        .record_channel_snapshot(1_000, &channel_version("id", "1x1x1", "9x9x9", 1))
        .unwrap();
    database
        .record_channel_snapshot(1_300, &channel_version("id", "2x2x2", "9x9x9", 1))
        .unwrap();
    let details = database.channel_details("id");
    let names: Vec<(&str, &str, u64, u64)> = details
        .aliases
        .iter()
        .map(|row| {
            (
                row.alias_type.as_str(),
                row.alias.as_str(),
                row.first_seen,
                row.last_seen,
            )
        })
        .collect();
    assert_eq!(
        names,
        vec![
            ("channel_id", "id", 1_000, 1_300),
            ("identity", "id", 1_000, 1_300),
            ("local_alias", "9x9x9", 1_000, 1_300),
            ("short_channel_id", "1x1x1", 1_000, 1_000),
            ("short_channel_id", "2x2x2", 1_300, 1_300),
        ]
    );
    let current = details.current.unwrap();
    assert_eq!((current.first_seen, current.last_seen), (1_000, 1_300));
    assert!(database.channel_details("other").current.is_none());
}

#[test]
fn rates_filter_the_pairs() {
    let mut database = database();
    for (channel, fee) in [("a", 100), ("b", 900)] {
        database
            .record_forward_event(
                600,
                &json(&format!(
                    r#"{{"in_channel": "{channel}", "out_channel": "z", "status": "settled",
                        "in_msat": 1000000, "out_msat": 1000000, "fee_msat": {fee}}}"#
                )),
            )
            .unwrap();
    }
    let mut query = pair_query(range(Some(0), Some(2_000)), 3600);
    let totals = database.pair_totals(&query, NOW).unwrap();
    let admitted: Vec<bool> = totals.iter().map(|row| ppm(row) >= 500.0).collect();
    let page = database.forward_pairs(&query, NOW, &totals, &admitted);
    assert_eq!(page.items.len(), 1);
    assert_eq!(page.items[0].totals.in_channel, "b");
    query.in_channel = Some("a".to_owned());
    assert_eq!(
        forward_pairs(&database, &query).items[0].totals.in_channel,
        "a"
    );
    query.out_channel = Some("y".to_owned());
    assert_eq!(forward_pairs(&database, &query).items.len(), 0);
}

#[test]
fn forwards_without_a_fee_earn_the_difference() {
    let mut database = database();
    database
        .record_forward_event(
            299,
            &json(r#"{"in_channel": "a", "in_msat": 12, "out_msat": "10msat"}"#),
        )
        .unwrap();
    database
        .record_forward_event(300, &json(r#"{"in_msat": 12}"#))
        .unwrap();
    assert_eq!(database.buckets.len(), 1);
    assert_eq!(database.buckets[0].bucket_start, 0);
    assert_eq!(database.buckets[0].fee_msat, 2);
    assert_eq!(database.buckets[0].status, "unknown");
}

#[test]
fn numbers_that_no_table_holds_are_refused() {
    let big = u64::MAX;
    let mut database = database();
    assert_eq!(
        database.record_channel_snapshot(big, &channels(1)),
        Err(HistoryError::OutOfRange)
    );
    assert_eq!(
        database.record_channel_snapshot(1, &json(r#"{"channels": {}}"#)),
        Err(HistoryError::NoChannels)
    );
    assert_eq!(
        database.record_channel_snapshot(
            1,
            &json(r#"{"channels": [{}, {"total_msat": 9223372036854775808}]}"#)
        ),
        Err(HistoryError::OutOfRange)
    );
    assert_eq!(database.channels.len(), 0);
    assert_eq!(database.aliases.len(), 0);
    assert_eq!(
        database.record_collection_failure(big, "x"),
        Err(HistoryError::OutOfRange)
    );
    assert_eq!(
        database.record_channel_event(big, &json("{}")),
        Err(HistoryError::OutOfRange)
    );
    assert_eq!(
        database.record_peer_connection_event(big, "connect", &json(r#"{"id": "p"}"#)),
        Err(HistoryError::OutOfRange)
    );
    assert_eq!(
        database.record_forward_event(
            1,
            &json(r#"{"in_channel": "a", "in_msat": 9223372036854775808}"#)
        ),
        Err(HistoryError::OutOfRange)
    );
    assert!(database
        .events(&event_query(range(None, Some(big))), NOW)
        .is_err());
    assert!(database
        .channel_samples(&sample_query(range(None, Some(big)), None), NOW)
        .is_err());
    for _ in 0..2 {
        database
            .record_forward_event(
                1,
                &json(r#"{"in_channel": "a", "in_msat": 9223372036854775807}"#),
            )
            .unwrap();
    }
    assert!(database
        .pair_totals(&pair_query(range(None, None), 3600), NOW)
        .is_err());
}

#[test]
fn probe_results_are_checked() {
    let mut database = database();
    let mut record = |text: &str| database.record_probe_result(5, &json(text));
    assert_eq!(record("{}"), Err(HistoryError::NoStatus));
    assert_eq!(record(r#"{"status": "pending"}"#), Ok(()));
    assert_eq!(record(r#"{"status": "pending_after_restart"}"#), Ok(()));
    assert_eq!(record(r#"{"status": "odd"}"#), Err(HistoryError::UnknownStatus));
    assert_eq!(
        record(r#"{"status": "route_failed"}"#),
        Err(HistoryError::NoRoute)
    );
    assert_eq!(record(r#"{"status": "route_failed", "route": []}"#), Ok(()));
    let mut hop = |hop: &str| record(&format!(r#"{{"status": "route_failed", "route": [{hop}]}}"#));
    assert_eq!(hop("{}"), Err(HistoryError::NoHopChannel));
    assert_eq!(
        hop(r#"{"short_channel_id_dir": "1x1x1"}"#),
        Err(HistoryError::NoHopDirection)
    );
    assert_eq!(
        hop(r#"{"short_channel_id_dir": "1x1x1/x"}"#),
        Err(HistoryError::InvalidHopDirection)
    );
    assert_eq!(
        hop(r#"{"short_channel_id_dir": "1x1x1/1"}"#),
        Err(HistoryError::NoHopDestination)
    );
    assert_eq!(
        hop(r#"{"short_channel_id_dir": "1x1x1/9223372036854775808"}"#),
        Err(HistoryError::OutOfRange)
    );
    assert_eq!(database.probes.len(), 0);
    assert_eq!(
        database.record_probe_result(
            5,
            &json(
                r#"{"status": "route_failed", "route": [
                    {"short_channel_id_dir": "1x1x1/1", "node_id_out": "n"}]}"#
            )
        ),
        Ok(())
    );
    assert_eq!(database.probes[0].ts, 5);
    assert_eq!(database.hops[0].short_channel_id, "1x1x1");
    assert_eq!(database.hops[0].direction, 1);
    assert_eq!(database.hops[0].status, "unknown");
}

#[test]
fn databases_of_other_versions_are_refused() {
    assert_eq!(schema_version("x"), None);
    assert_eq!(
        database().migrate(Some(6)),
        Err(HistoryError::NewerSchema(6))
    );
    assert_eq!(
        database().migrate(Some(0)),
        Err(HistoryError::UnknownSchema(0))
    );
    assert_eq!(database().migrate(Some(5)), Ok(()));
    assert_eq!(database().migrate(Some(4)), Ok(()));
    assert_eq!(database().migrate(None), Ok(()));
}

#[test]
fn errors_are_worded() {
    for (error, text) in [
        (
            HistoryError::NoChannels,
            "listpeerchannels response has no channels array",
        ),
        (HistoryError::NoStatus, "probe result has no status"),
        (HistoryError::NoRoute, "probe result has no route"),
        (
            HistoryError::NoHopDestination,
            "probe hop has no destination",
        ),
        (
            HistoryError::NewerSchema(6),
            "database schema 6 is newer than this cln-history binary",
        ),
        (
            HistoryError::UnknownSchema(0),
            "unsupported cln-history database schema 0",
        ),
    ] {
        assert_eq!(error.message(), text);
        assert_eq!(error.probe_message(&json("{}")), text);
    }
    assert_eq!(
        HistoryError::UnknownStatus.probe_message(&json(r#"{"status": "odd"}"#)),
        "unknown terminal probe status: odd"
    );
}

#[test]
fn stored_numbers_keep_their_value() {
    assert_eq!(to_i64(7), Ok(7));
    assert_eq!(to_i64(1 << 63), Err(HistoryError::OutOfRange));
    assert_eq!(from_i64(7), 7);
    assert_eq!(from_i64(-7), 0);
    assert_eq!(optional_i64(None), Ok(None));
    assert_eq!(optional_i64(Some(1 << 63)), Err(HistoryError::OutOfRange));
    assert_eq!(from_optional_i64(Some(-1)), Some(0));
    assert_eq!(from_optional_i64(None), None);
}

#[test]
fn history_options_are_checked() {
    let settings = HistorySettings::configured(300, 730, 10).unwrap();
    assert_eq!(settings.retention_days, 730);
    let error = |interval, days, timeout| {
        HistorySettings::configured(interval, days, timeout)
            .err()
            .unwrap()
    };
    assert_eq!(error(29, 1, 1), HistorySettingsError::SampleInterval);
    assert_eq!(error(30, 0, 1), HistorySettingsError::RetentionDays);
    assert_eq!(error(30, 1, 0), HistorySettingsError::RpcTimeout);
    assert_eq!(
        HistorySettingsError::SampleInterval.message(),
        "history-sample-interval must be at least 30 seconds"
    );
    assert_eq!(
        HistorySettingsError::RetentionDays.message(),
        "history-retention-days must be positive"
    );
    assert_eq!(
        HistorySettingsError::RpcTimeout.message(),
        "history-rpc-timeout must be positive"
    );
}

#[test]
fn history_records_what_it_is_notified_of() {
    let mut database = database();
    assert_eq!(database.on_notification(&json("{}"), 5), Ok(false));
    assert_eq!(
        database.on_notification(&json(r#"{"shutdown": {}}"#), 5),
        Ok(true)
    );
    assert_eq!(
        database.on_notification(&json(r#"{"connect": {"id": "p"}}"#), 5),
        Ok(false)
    );
    assert_eq!(
        database.on_notification(
            &json(r#"{"channel_state_changed": {"peer_id": "p", "new_state": "B"}}"#),
            5
        ),
        Ok(false)
    );
    assert_eq!(
        database.on_notification(&json(r#"{"forward_event": {"in_channel": "a"}}"#), 5),
        Ok(false)
    );
    assert_eq!(
        database.on_notification(&json(r#"{"channel_state_changed": {}}"#), u64::MAX),
        Err(HistoryError::OutOfRange)
    );
    assert_eq!(database.events.len(), 1);
    assert_eq!(database.events[0].channel_key.as_deref(), Some("p"));
    assert_eq!(database.buckets.len(), 1);
}

#[test]
fn attempts_are_recorded_with_their_error() {
    let mut database = database();
    assert_eq!(database.collect_once(10, Ok(&channels(1))), None);
    assert_eq!(
        database.collect_once(20, Ok(&json("{}"))),
        Some("listpeerchannels response has no channels array".to_owned())
    );
    let long = "e".repeat(2_000);
    assert_eq!(database.collect_once(30, Err(&long)), Some(long.clone()));
    let status = database.status();
    assert_eq!((status.oldest, status.newest), (Some(10), Some(10)));
    let last = status.last_collection.unwrap();
    assert_eq!(last.ts, 30);
    assert_eq!(last.error.unwrap().len(), 1_000);
    assert_eq!(status.counts.collector_runs, 3);
    assert_eq!(status.retention_days, 30);
    assert!(database.has_ids(&channels(1)));
}

#[test]
fn notifications_are_recorded_by_their_topics() {
    for (text, expected) in [
        (r#"{"channel_state_changed": {}}"#, Recording::Event),
        (r#"{"forward_event": {}}"#, Recording::Forward),
        (r#"{"shutdown": {}}"#, Recording::Nothing),
        (r#"{"connect": {}}"#, Recording::Nothing),
        ("{}", Recording::Nothing),
        ("[]", Recording::Nothing),
    ] {
        assert_eq!(recording(&json(text)), expected);
    }
}
