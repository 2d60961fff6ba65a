use cln_exporter::answers::{
    channel_samples_answer, events_answer, forward_pairs_answer, htlc_samples_answer, sample_json,
};
use cln_exporter::json::{Json, JsonNumber};
use cln_exporter::queries::{
    EventQuery, PairQuery, Params, ProbeQuery, RangeQuery, SampleQuery,
};
use cln_exporter::reports::{metrics_answer, probes_answer, status_answer};
use cln_exporter::store::HistoryDb;
use cln_exporter::upkeep::Storage;
use serde_json::Value;

const NOW: u64 = 1_000_000;

fn convert(value: &Value) -> Json {
    match value {
        Value::Null => Json::Null,
        Value::Bool(b) => Json::Bool(*b),
        Value::Number(n) => Json::Number(if let Some(n) = n.as_u64() {
            JsonNumber::Unsigned(n)
        } else if let Some(n) = n.as_i64() {
            JsonNumber::Negative(n)
        } else {
            JsonNumber::Float(n.to_string())
        }),
        Value::String(text) => Json::Text(text.clone()),
        Value::Array(items) => Json::Array(items.iter().map(convert).collect()),
        Value::Object(fields) => Json::Object(
            fields
                .iter()
                .map(|(key, value)| (key.clone(), convert(value)))
                .collect(),
        ),
    }
}

fn value(json: &Json) -> Value {
    match json {
        Json::Null => Value::Null,
        Json::Bool(b) => Value::Bool(*b),
        Json::Number(JsonNumber::Unsigned(n)) => Value::from(*n),
        Json::Number(JsonNumber::Negative(n)) => Value::from(*n),
        Json::Number(JsonNumber::Float(text)) => serde_json::from_str(text).unwrap(),
        Json::Text(text) => Value::from(text.clone()),
        Json::Array(items) => Value::Array(items.iter().map(value).collect()),
        Json::Object(fields) => Value::Object(
            fields
                .iter()
                .map(|(key, field)| (key.clone(), value(field)))
                .collect(),
        ),
    }
}

fn json(text: &str) -> Json {
    convert(&parse(text))
}

fn parse(text: &str) -> Value {
    serde_json::from_str(text).unwrap()
}

fn range() -> RangeQuery {
    RangeQuery {
        start: None,
        end: Some(2_000),
        channel: None,
        cursor: None,
        limit: 10,
    }
}

fn samples(interval: Option<u64>) -> SampleQuery {
    SampleQuery::parse_at(
        Params::Named(SampleQuery {
            range: range(),
            interval,
        }),
        NOW,
    )
    .unwrap()
}

fn storage() -> Storage {
    Storage {
        database_bytes: 10,
        wal_bytes: 20,
        storage_bytes: 33,
        page_count: 4,
        freelist_count: 5,
    }
}

fn history() -> HistoryDb {
    let mut database = HistoryDb::open(30);
    database
        .record_channel_snapshot(
            1_000,
            &json(
                r#"{"channels": [{
                    "peer_id": "peer", "channel_id": "full", "state": "CHANNELD_NORMAL",
                    "peer_connected": true, "total_msat": 1000, "to_us_msat": 600,
                    "updates": {"local": {"fee_proportional_millionths": 650}},
                    "htlcs": [{"direction": "in", "amount_msat": 7, "expiry": 9}]
                }]}"#,
            ),
        )
        .unwrap();
    database
}

#[test]
fn states_are_answered_with_their_liquidity() {
    let page = history().channel_samples(&samples(None), NOW).unwrap();
    assert_eq!(
        value(&channel_samples_answer(&page)),
        parse(
            r#"{
                "api_version": 2, "start": 0, "end": 2000, "change_only": true, "interval": null,
                "samples": [{
                    "cursor": 1, "timestamp": 1000, "bucket_start": null,
                    "channel_identity": "full", "channel_key": "full", "channel_id": "full",
                    "short_channel_id": null, "peer_id": "peer",
                    "htlc_in_count": 1, "htlc_out_count": 0, "htlc_in_msat": 7, "htlc_out_msat": 0,
                    "blockheight": null, "htlc_min_expiry": 9, "htlc_max_expiry": 9,
                    "htlc_hooked_count": 0, "htlc_trimmed_count": 0, "max_accepted_htlcs": null,
                    "channel_details": {
                        "identity": "full",
                        "current": {
                            "channel_id": "full", "short_channel_id": null, "peer_id": "peer",
                            "first_seen": 1000, "last_seen": 1000, "disappeared_at": null
                        },
                        "aliases": [
                            {"type": "channel_id", "value": "full",
                                "first_seen": 1000, "last_seen": 1000},
                            {"type": "identity", "value": "full",
                                "first_seen": 1000, "last_seen": 1000}
                        ]
                    },
                    "state": "CHANNELD_NORMAL", "connected": true, "reestablished": false,
                    "capacity_msat": 1000, "to_us_msat": 600,
                    "spendable_msat": 0, "receivable_msat": 0,
                    "local_policy": {
                        "fee_base_msat": null, "fee_ppm": 650, "htlc_minimum_msat": null,
                        "htlc_maximum_msat": null, "cltv_expiry_delta": null
                    },
                    "remote_policy": {
                        "fee_base_msat": null, "fee_ppm": null, "htlc_minimum_msat": null,
                        "htlc_maximum_msat": null, "cltv_expiry_delta": null
                    }
                }],
                "pagination": {"next_cursor": null, "has_more": false}
            }"#
        )
    );
}

#[test]
fn pending_htlcs_are_answered_without_liquidity() {
    let page = history().htlc_samples(&samples(Some(600)), NOW).unwrap();
    let answer = value(&htlc_samples_answer(&page));
    assert_eq!(answer["interval"], 600);
    assert_eq!(answer["samples"][0]["bucket_start"], 600);
    assert_eq!(answer["samples"][0]["htlc_in_msat"], 7);
    assert!(answer["samples"][0].get("to_us_msat").is_none());
    assert!(answer.get("change_only").is_none());
    let item = &page.items[0];
    assert_eq!(value(&sample_json(item, false))["to_us_msat"], 600);
}

#[test]
fn pairs_are_answered_with_their_rates() {
    let mut database = history();
    for fields in [
        r#""status": "settled", "in_msat": 1000650, "out_msat": 1000000"#,
        r#""status": "local_failed", "failcode": 4103, "failreason": "WIRE_X""#,
    ] {
        database
            .record_forward_event(
                1_000,
                &json(&format!(
                    r#"{{"in_channel": "full", "out_channel": "2x2x2", {fields}}}"#
                )),
            )
            .unwrap();
    }
    let query = PairQuery::parse_at(
        Params::Named(PairQuery {
            range: range(),
            interval: 3600,
            in_channel: None,
            out_channel: None,
            min_ppm: None,
            max_ppm: None,
        }),
        true,
        NOW,
    )
    .unwrap();
    let totals = database.pair_totals(&query, NOW).unwrap();
    let page = database.forward_pairs(&query, NOW, &totals, &vec![true, true]);
    let answer = value(&forward_pairs_answer(
        &page,
        &vec!["0.0".to_owned(), "650.0".to_owned()],
    ));
    assert_eq!(answer["interval"], 3600);
    assert_eq!(answer["pairs"][0]["failcode"], 4103);
    assert_eq!(answer["pairs"][0]["failreason"], "WIRE_X");
    assert_eq!(answer["pairs"][1]["failcode"], Value::Null);
    assert_eq!(answer["pairs"][1]["failreason"], Value::Null);
    assert_eq!(answer["pairs"][1]["effective_ppm"], 650.0);
    assert_eq!(answer["pairs"][1]["fee_msat"], 650);
    assert_eq!(answer["pairs"][1]["in_channel_details"]["identity"], "full");
    assert_eq!(answer["pairs"][1]["out_channel_identity"], "2x2x2");
    assert_eq!(
        answer["pairs"][1]["out_channel_details"]["current"],
        Value::Null
    );
}

#[test]
fn events_are_answered() {
    let mut database = history();
    database
        .record_channel_snapshot(1_300, &json(r#"{"channels": []}"#))
        .unwrap();
    let query = EventQuery::parse_at(
        Params::Named(EventQuery {
            range: range(),
            event_type: None,
        }),
        NOW,
    )
    .unwrap();
    let page = database.events(&query, NOW).unwrap();
    assert_eq!(
        value(&events_answer(&page)),
        parse(
            r#"{
                "api_version": 2, "start": 0, "end": 2000,
                "events": [{
                    "cursor": 1, "timestamp": 1300, "event_type": "disappeared",
                    "channel_identity": "full", "channel_key": "full", "channel_id": "full",
                    "short_channel_id": null, "peer_id": "peer",
                    "old_state": "CHANNELD_NORMAL", "new_state": null, "cause": null,
                    "direction": null, "reason": null
                }],
                "pagination": {"next_cursor": null, "has_more": false}
            }"#
        )
    );
}

#[test]
fn probes_are_answered_one_by_one_or_by_period() {
    let mut database = history();
    database
        .record_probe_result(
            1_500,
            &json(
                r#"{"status": "route_failed", "delivered_msat": 5, "failure": {"code": -1},
                    "route": [{"short_channel_id_dir": "full/1", "node_id_out": "n"}]}"#,
            ),
        )
        .unwrap();
    let query = |interval| {
        ProbeQuery::parse_at(
            Params::Named(ProbeQuery {
                range: range(),
                status: None,
                destination: None,
                interval,
            }),
            NOW,
        )
        .unwrap()
    };
    let raw = value(&probes_answer(
        &database.probe_events(&query(None), NOW).unwrap(),
    ));
    let probe = &raw["probes"][0];
    assert_eq!(probe["failure"]["code"], -1);
    assert_eq!(probe["failure"]["failcode"], Value::Null);
    assert_eq!(probe["route_key"], "full/1");
    assert_eq!(probe["route"][0]["channel_identity"], "full");
    assert_eq!(probe["route"][0]["short_channel_id_dir"], "full/1");
    let grouped = value(&probes_answer(
        &database.probe_events(&query(Some(600)), NOW).unwrap(),
    ));
    assert_eq!(grouped["probes"][0]["period"], 1200);
    assert_eq!(
        grouped["probes"][0]["failures"],
        parse(r#"{"unknown": 1}"#)
    );
    assert_eq!(grouped["probes"][0]["smallest_failed_msat"], 5);
    assert_eq!(grouped["probes"][0]["last_success_at"], Value::Null);
}

#[test]
fn the_status_is_answered() {
    let answer = value(&status_answer(
        &history().status(),
        &storage(),
        "/tmp/history",
    ));
    assert_eq!(
        answer,
        parse(
            r#"{
                "api_version": 2, "schema_version": 5, "database": "/tmp/history",
                "database_bytes": 10, "wal_bytes": 20, "storage_bytes": 33,
                "retention_days": 30, "change_only": true, "checkpoint_seconds": 3600,
                "forward_bucket_seconds": 300, "coverage": {"oldest": 1000, "newest": 1000},
                "last_collection": {
                    "timestamp": 1000, "success": true, "channel_count": 1, "error": null
                },
                "counts": {
                    "channels": 1, "channel_samples": 1, "channel_events": 0,
                    "peer_connection_events": 0, "forward_pair_buckets": 0, "probe_events": 0,
                    "successful_probe_events": 0, "channel_aliases": 2
                }
            }"#
        )
    );
}

#[test]
fn metrics_are_answered_as_gauges() {
    let metrics = history().metrics(&storage(), 2_000).unwrap();
    let answer = value(&metrics_answer(&metrics));
    assert_eq!(answer["version"], 1);
    assert_eq!(answer["namespace"], "history");
    assert_eq!(
        answer["families"][0],
        parse(
            r#"{"name": "database_bytes",
                "help": "Size of the main cln-history SQLite database file in bytes.",
                "type": "gauge", "samples": [{"value": 10}]}"#
        )
    );
    assert_eq!(answer["families"].as_array().unwrap().len(), 25);
}
