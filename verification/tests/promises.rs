use cln_exporter::browse::{SampleItem, SamplePage};
use cln_exporter::events::EventCounters;
use cln_exporter::json::{Json, JsonNumber};
use cln_exporter::lookups::PairPage;
use cln_exporter::probes::{ProbeAggregate, ProbeItems, ProbePage};
use cln_exporter::queries::{EventQuery, PairQuery, Params, ProbeQuery, RangeQuery, SampleQuery};
use cln_exporter::store::{resolve_alias, HistoryDb};

const NOW: u64 = 1_000_000;

fn convert(value: &serde_json::Value) -> Json {
    match value {
        serde_json::Value::Null => Json::Null,
        serde_json::Value::Bool(b) => Json::Bool(*b),
        serde_json::Value::Number(n) => Json::Number(if let Some(n) = n.as_u64() {
            JsonNumber::Unsigned(n)
        } else if let Some(n) = n.as_i64() {
            JsonNumber::Negative(n)
        } else {
            JsonNumber::Float(n.to_string())
        }),
        serde_json::Value::String(text) => Json::Text(text.clone()),
        serde_json::Value::Array(items) => Json::Array(items.iter().map(convert).collect()),
        serde_json::Value::Object(fields) => Json::Object(
            fields
                .iter()
                .map(|(key, value)| (key.clone(), convert(value)))
                .collect(),
        ),
    }
}

fn json(text: &str) -> Json {
    convert(&serde_json::from_str(text).unwrap())
}

fn range(limit: u64, cursor: Option<u64>) -> RangeQuery {
    RangeQuery {
        start: Some(100),
        end: None,
        channel: None,
        cursor,
        limit,
    }
}

fn channels(states: &[(&str, u64)]) -> Json {
    let listed: Vec<String> = states
        .iter()
        .map(|(id, to_us)| format!(r#"{{"channel_id": "{id}", "to_us_msat": {to_us}}}"#))
        .collect();
    json(&format!(r#"{{"channels": [{}]}}"#, listed.join(",")))
}

fn recorded() -> HistoryDb {
    let mut database = HistoryDb::open(30);
    for (ts, a, b) in [(50, 1, 1), (150, 2, 1), (250, 2, 2), (350, 3, 3)] {
        database
            .record_channel_snapshot(ts, &channels(&[("a", a), ("b", b)]))
            .unwrap();
    }
    database
}

fn samples(database: &HistoryDb, limit: u64, cursor: Option<u64>) -> SamplePage {
    let query = SampleQuery {
        range: range(limit, cursor),
        interval: None,
    };
    database.channel_samples(&query, NOW).unwrap()
}

fn ids(items: &[SampleItem]) -> Vec<u64> {
    items.iter().map(|item| item.id).collect()
}

#[test]
fn the_last_recorded_state_is_the_one_seen_last() {
    let database = recorded();
    for id in ["a", "b"] {
        let last = database
            .samples
            .iter()
            .filter(|row| row.sample.channel_key == id)
            .last()
            .unwrap();
        assert_eq!(last.sample.to_us_msat, 3);
    }
}

#[test]
fn a_first_page_begins_with_baselines() {
    let page = samples(&recorded(), 10, None);
    assert_eq!(ids(&page.items), vec![1, 2, 3, 4, 5, 6]);
    assert!(page.items[0].timestamp < page.start);
    assert!(page.items[1].timestamp < page.start);
    let behind = samples(&recorded(), 10, Some(2));
    assert_eq!(ids(&behind.items), vec![3, 4, 5, 6]);
}

#[test]
fn sample_pages_join() {
    let database = recorded();
    let first = samples(&database, 3, None);
    assert!(first.has_more);
    let second = samples(&database, 2, first.next_cursor);
    let both = samples(&database, 5, None);
    let mut joined = ids(&first.items);
    joined.extend(ids(&second.items));
    assert_eq!(joined, ids(&both.items));
    assert_eq!(second.has_more, both.has_more);
    assert_eq!(second.next_cursor, both.next_cursor);
}

#[test]
fn a_page_that_ends_in_the_baselines_goes_on_with_the_others() {
    let database = recorded();
    let first = samples(&database, 1, None);
    assert_eq!(ids(&first.items), vec![1]);
    assert!(first.has_more);
    let second = samples(&database, 10, first.next_cursor);
    assert_eq!(ids(&second.items), vec![2, 3, 4, 5, 6]);
    assert!(second.items[0].timestamp < second.start);
}

#[test]
fn every_channel_has_a_baseline_on_some_page() {
    let mut database = HistoryDb::open(30);
    database
        .record_channel_snapshot(
            1_000,
            &json(
                r#"{"channels": [{"peer_id": "p", "channel_id": "A"},
                    {"peer_id": "p", "channel_id": "B"}]}"#,
            ),
        )
        .unwrap();
    let page = |cursor: Option<u64>| {
        let query = SampleQuery {
            range: RangeQuery {
                start: Some(2_000),
                end: Some(3_000),
                channel: None,
                cursor,
                limit: 1,
            },
            interval: None,
        };
        database.channel_samples(&query, NOW).unwrap()
    };
    let first = page(None);
    assert_eq!(first.items.len(), 1);
    assert_eq!(first.items[0].sample.channel_key, "A");
    assert_eq!(first.items[0].timestamp, 1_000);
    assert!(first.has_more);
    let second = page(first.next_cursor);
    assert_eq!(second.items.len(), 1);
    assert_eq!(second.items[0].sample.channel_key, "B");
    assert_eq!(second.items[0].timestamp, 1_000);
    assert!(!second.has_more);
    assert_eq!(second.next_cursor, None);
}

#[test]
fn htlc_pages_show_an_interval_once() {
    let mut database = HistoryDb::open(30);
    for (ts, id, count) in [(110, "a", 3), (120, "b", 1), (130, "a", 1), (140, "c", 1)] {
        let htlcs = vec![r#"{"direction": "in", "amount_msat": 1}"#; count].join(",");
        database
            .record_channel_snapshot(
                ts,
                &json(&format!(
                    r#"{{"channels": [{{"peer_id": "p", "channel_id": "{id}",
                        "htlcs": [{htlcs}]}}]}}"#
                )),
            )
            .unwrap();
    }
    let page = |limit: u64, cursor: Option<u64>| {
        let query = SampleQuery {
            range: range(limit, cursor),
            interval: Some(600),
        };
        database.htlc_samples(&query, NOW).unwrap()
    };
    let whole = page(10, None);
    assert_eq!(ids(&whole.items), vec![1, 2, 4]);
    let first = page(1, None);
    assert_eq!(ids(&first.items), vec![1]);
    let second = page(10, first.next_cursor);
    assert_eq!(ids(&second.items), vec![2, 4]);
}

#[test]
fn an_interval_shows_a_channel_once_in_a_period() {
    let query = SampleQuery {
        range: range(10, None),
        interval: Some(200),
    };
    let page = recorded().channel_samples(&query, NOW).unwrap();
    let shown: Vec<(u64, Option<u64>)> = page
        .items
        .iter()
        .map(|item| (item.id, item.bucket_start))
        .collect();
    assert_eq!(
        shown,
        vec![
            (1, None),
            (2, None),
            (3, Some(100)),
            (4, Some(100)),
            (5, Some(300)),
            (6, Some(300)),
        ]
    );
}

#[test]
fn event_pages_join() {
    let mut database = HistoryDb::open(30);
    for ts in [110, 120, 130, 140] {
        database
            .record_peer_connection_event(ts, "connect", &json(r#"{"id": "p"}"#))
            .unwrap();
    }
    let page = |limit: u64, cursor: Option<u64>| {
        let query = EventQuery {
            range: range(limit, cursor),
            event_type: None,
        };
        let page = database.events(&query, NOW).unwrap();
        let ids: Vec<u64> = page.items.iter().map(|event| event.id).collect();
        (ids, page.next_cursor)
    };
    let (first, cursor) = page(2, None);
    let (second, end) = page(1, cursor);
    assert_eq!((first, second), (vec![1, 2], vec![3]));
    assert_eq!(page(3, None), (vec![1, 2, 3], end));
}

#[test]
fn event_pages_join_out_of_time() {
    let mut database = HistoryDb::open(30);
    for ts in [130, 110, 120] {
        database
            .record_peer_connection_event(ts, "connect", &json(r#"{"id": "p"}"#))
            .unwrap();
    }
    let mut seen = Vec::new();
    let mut cursor = None;
    loop {
        let query = EventQuery {
            range: range(1, cursor),
            event_type: None,
        };
        let page = database.events(&query, NOW).unwrap();
        seen.extend(page.items.iter().map(|event| (event.ts, event.id)));
        cursor = page.next_cursor;
        if cursor.is_none() {
            break;
        }
    }
    assert_eq!(seen, vec![(110, 2), (120, 3), (130, 1)]);
}

#[test]
fn event_pages_go_on_behind_what_was_dropped() {
    let mut database = HistoryDb::open(1);
    for ts in [90_000, 110, 80_000] {
        database
            .record_peer_connection_event(ts, "connect", &json(r#"{"id": "p"}"#))
            .unwrap();
    }
    let page = |database: &HistoryDb, cursor: Option<u64>| {
        let query = EventQuery {
            range: RangeQuery {
                start: None,
                end: None,
                channel: None,
                cursor,
                limit: 1,
            },
            event_type: None,
        };
        database.events(&query, NOW).unwrap()
    };
    let first = page(&database, None);
    assert_eq!(first.items[0].id, 2);
    database
        .record_channel_snapshot(100_000, &json(r#"{"channels": []}"#))
        .unwrap();
    assert_eq!(database.events.len(), 2);
    assert_eq!(page(&database, first.next_cursor).items[0].id, 3);
    assert!(page(&database, Some(4)).items.is_empty());
}

#[test]
fn probe_pages_join_out_of_time() {
    let mut database = HistoryDb::open(30);
    for (received_at, observed_at) in [(2_000, 2_000), (2_001, 1_000)] {
        database
            .record_probe_result(
                received_at,
                &json(&format!(
                    r#"{{"status": "destination_reached", "observed_at": {observed_at},
                        "route": [{{"node_id_out": "d", "short_channel_id_dir": "1x1x1/0"}}]}}"#
                )),
            )
            .unwrap();
    }
    let page = |cursor: Option<u64>| {
        let query = ProbeQuery {
            range: RangeQuery {
                start: None,
                end: None,
                channel: None,
                cursor,
                limit: 1,
            },
            status: None,
            destination: None,
            interval: None,
        };
        let page = database.probe_events(&query, NOW).unwrap();
        let times: Vec<u64> = match &page.items {
            ProbeItems::Raw(items) => items.iter().map(|item| item.probe.ts).collect(),
            ProbeItems::Aggregated(_) => Vec::new(),
        };
        (times, page.next_cursor, page.has_more)
    };
    assert_eq!(page(None), (vec![1_000], Some(2), true));
    assert_eq!(page(Some(2)), (vec![2_000], None, false));
}

fn probed() -> HistoryDb {
    let mut database = HistoryDb::open(30);
    for (ts, status, scid) in [
        (110, "route_failed", "1x1x1/0"),
        (120, "destination_reached", "1x1x1/0"),
        (130, "unexpected_settlement", "2x2x2/0"),
        (800, "route_failed", "3x3x3/1"),
    ] {
        database
            .record_probe_result(
                ts,
                &json(&format!(
                    r#"{{"status": "{status}", "delivered_msat": {ts},
                        "route": [{{"short_channel_id_dir": "{scid}", "node_id_out": "n"}}]}}"#
                )),
            )
            .unwrap();
    }
    database
}

fn probes(limit: u64, cursor: Option<u64>, interval: Option<u64>) -> ProbePage {
    let query = ProbeQuery {
        range: range(limit, cursor),
        status: None,
        destination: None,
        interval,
    };
    probed().probe_events(&query, NOW).unwrap()
}

fn probe_ids(page: &ProbePage) -> Vec<u64> {
    match &page.items {
        ProbeItems::Raw(items) => items.iter().map(|item| item.probe.id).collect(),
        ProbeItems::Aggregated(_) => panic!("aggregated"),
    }
}

fn groups(page: &ProbePage) -> &Vec<ProbeAggregate> {
    match &page.items {
        ProbeItems::Raw(_) => panic!("raw"),
        ProbeItems::Aggregated(groups) => groups,
    }
}

#[test]
fn probe_pages_join() {
    let first = probes(3, None, None);
    let second = probes(3, first.next_cursor, None);
    assert_eq!(probe_ids(&first), vec![1, 2, 3]);
    assert_eq!(probe_ids(&second), vec![4]);
    assert_eq!(probe_ids(&probes(6, None, None)), vec![1, 2, 3, 4]);
}

#[test]
fn aggregates_count_every_probe() {
    let page = probes(10, None, Some(600));
    let attempts: u64 = groups(&page).iter().map(|group| group.attempts).sum();
    assert_eq!(attempts, 4);
    for group in groups(&page) {
        assert_eq!(
            group.attempts,
            group.destination_reached + group.route_failed + group.unexpected_settlement
        );
    }
    let first = probes(2, None, Some(600));
    let second = probes(2, first.next_cursor, Some(600));
    let keys = |page: &ProbePage| -> Vec<String> {
        groups(page)
            .iter()
            .map(|group| group.route_key.clone())
            .collect()
    };
    assert_eq!(keys(&first), vec!["1x1x1/0", "2x2x2/0"]);
    assert_eq!(keys(&second), vec!["3x3x3/1"]);
}

fn pairs(database: &HistoryDb, limit: u64, cursor: Option<u64>) -> PairPage {
    let query = PairQuery {
        range: RangeQuery {
            start: Some(0),
            ..range(limit, cursor)
        },
        interval: 600,
        in_channel: None,
        out_channel: None,
        min_ppm: None,
        max_ppm: None,
    };
    let totals = database.pair_totals(&query, NOW).unwrap();
    let admitted = totals.iter().map(|_| true).collect();
    database.forward_pairs(&query, NOW, &totals, &admitted)
}

#[test]
fn pairs_count_every_forward_once() {
    let mut database = HistoryDb::open(30);
    for (ts, channel) in [(0, "b"), (299, "b"), (300, "a"), (599, "b"), (600, "b")] {
        database
            .record_forward_event(
                ts,
                &json(&format!(
                    r#"{{"in_channel": "{channel}", "in_msat": 12, "out_msat": 10,
                        "payment_hash": "{ts}"}}"#
                )),
            )
            .unwrap();
    }
    let page = pairs(&database, 10, None);
    let listed: Vec<(u64, &str, u128, u128)> = page
        .items
        .iter()
        .map(|item| {
            let totals = &item.totals;
            (
                totals.bucket_start,
                totals.in_channel.as_str(),
                totals.forward_count,
                totals.fee_msat,
            )
        })
        .collect();
    assert_eq!(
        listed,
        vec![(0, "a", 1, 2), (0, "b", 3, 6), (600, "b", 1, 2)]
    );
    let first = pairs(&database, 2, None);
    let second = pairs(&database, 2, first.next_cursor);
    assert_eq!(first.items.len(), 2);
    assert_eq!(second.items.len(), 1);
    assert_eq!(second.items[0].totals.bucket_start, 600);
    assert_eq!(database.buckets.len(), 4);
}

#[test]
fn an_absence_is_noted_once_and_a_return_once() {
    let mut database = HistoryDb::open(30);
    for (ts, present) in [(10, true), (20, false), (30, false), (40, true), (50, true)] {
        let states: &[(&str, u64)] = if present { &[("a", 1)] } else { &[] };
        database
            .record_channel_snapshot(ts, &channels(states))
            .unwrap();
        assert_eq!(database.channels[0].disappeared_at.is_some(), !present);
    }
    let noted: Vec<(u64, &str)> = database
        .events
        .iter()
        .map(|event| (event.ts, event.event_type.as_str()))
        .collect();
    assert_eq!(noted, vec![(20, "disappeared"), (40, "reappeared")]);
}

#[test]
fn names_stand_for_the_channel_that_they_were_seen_with() {
    let mut database = HistoryDb::open(30);
    let snapshot = |fields: &str| json(&format!(r#"{{"channels": [{fields}]}}"#));
    database
        .record_channel_snapshot(
            10,
            &snapshot(
                r#"{"channel_id": "one", "peer_id": "p", "short_channel_id": "1x1x1"},
                   {"channel_id": "two", "peer_id": "p", "short_channel_id": "2x2x2"}"#,
            ),
        )
        .unwrap();
    database
        .record_channel_snapshot(
            20,
            &snapshot(r#"{"channel_id": "three", "peer_id": "p", "short_channel_id": "1x1x1"}"#),
        )
        .unwrap();
    let key = |name: &str| resolve_alias(&database.aliases, name);
    for name in ["one", "1x1x1", "three"] {
        assert_eq!(key(name).as_deref(), Some("one"));
    }
    for name in ["two", "2x2x2"] {
        assert_eq!(key(name).as_deref(), Some("two"));
    }
    assert_eq!(key("p"), None);
}

#[test]
fn warnings_are_counted_without_their_text() {
    let count = |text: &str| {
        let mut counters = EventCounters::default();
        counters.record(
            "warning",
            &json(&format!(
                r#"{{"level": "warn", "source": "s", "log": "{text}"}}"#
            )),
            1,
        );
        (
            counters.warnings.key_at(0).clone(),
            *counters.warnings.value_at(0),
        )
    };
    assert_eq!(count("one"), count("two"));
    assert_eq!(count("one"), (("warn".to_owned(), "s".to_owned()), 1));
}

#[test]
fn aggregates_are_ordered_and_show_extremes() {
    let page = probes(10, None, Some(600));
    let rows = match &page.items {
        ProbeItems::Aggregated(rows) => rows,
        ProbeItems::Raw(_) => panic!("expected aggregates"),
    };
    let listed: Vec<(u64, &str)> = rows
        .iter()
        .map(|row| (row.period, row.route_key.as_str()))
        .collect();
    assert_eq!(
        listed,
        vec![(0, "1x1x1/0"), (0, "2x2x2/0"), (600, "3x3x3/1")]
    );
    assert_eq!(rows[0].max_success_msat, Some(120));
    assert_eq!(rows[0].smallest_failed_msat, Some(110));
    assert_eq!(rows[0].last_success_at, Some(120));
    assert_eq!(rows[0].last_observed_at, 120);
    assert_eq!(rows[1].max_success_msat, None);
    assert_eq!(rows[1].smallest_failed_msat, None);
}
