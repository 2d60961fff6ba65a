use cln_exporter::clock::{now, seconds_at, seconds_or_zero};
use cln_exporter::json::{Json, JsonNumber};
use cln_exporter::model::{ChannelAlias, ChannelPolicy, ChannelSample};
use cln_exporter::queries::{
    EventQuery, PairQuery, Params, ProbeQuery, QueryError, RangeQuery, SampleQuery,
};
use cln_exporter::sorting::sort;
use cln_exporter::browse::Position;
use cln_exporter::text::{
    byte_length, decimal_text, digits_at_start, has_text, parse_number, precedes_text,
    replace_char, shortened, signed_decimal_text, split_last, without_suffix, word_of,
};

fn convert(value: &serde_json::Value) -> Json {
    match value {
        serde_json::Value::Null => Json::Null,
        serde_json::Value::Bool(b) => Json::Bool(*b),
        serde_json::Value::Number(n) => Json::Number(if let Some(n) = n.as_u64() {
            JsonNumber::Unsigned(n)
        } else if let Some(n) = n.as_i64() {
            JsonNumber::Negative(n)
        } else {
            JsonNumber::Float(n.to_string())
        }),
        serde_json::Value::String(text) => Json::Text(text.clone()),
        serde_json::Value::Array(items) => Json::Array(items.iter().map(convert).collect()),
        serde_json::Value::Object(fields) => Json::Object(
            fields
                .iter()
                .map(|(key, value)| (key.clone(), convert(value)))
                .collect(),
        ),
    }
}

fn json(text: &str) -> Json {
    convert(&serde_json::from_str(text).unwrap())
}

fn positional(text: &str) -> Vec<Json> {
    match json(text) {
        Json::Array(items) => items,
        other => panic!("{other:?}"),
    }
}

fn range() -> RangeQuery {
    RangeQuery {
        start: None,
        end: None,
        channel: None,
        cursor: None,
        limit: 10_000,
    }
}

fn pair(interval: u64) -> PairQuery {
    PairQuery {
        range: range(),
        interval,
        in_channel: None,
        out_channel: None,
        min_ppm: None,
        max_ppm: None,
    }
}

fn probe() -> ProbeQuery {
    ProbeQuery {
        range: range(),
        status: None,
        destination: None,
        interval: None,
    }
}

#[test]
fn parses_channel_liquidity_and_directional_htlcs() {
    let sample = ChannelSample::from_value(
        &json(
            r#"{
                "peer_id": "peer", "channel_id": "full", "short_channel_id": "1x2x3",
                "alias": {"local": "9x9x1", "remote": "9x9x2"},
                "state": "CHANNELD_NORMAL", "peer_connected": true, "reestablished": true,
                "total_msat": 1000000, "to_us_msat": 600000,
                "spendable_msat": {"msat": 590000}, "receivable_msat": "390000msat",
                "max_accepted_htlcs": 30,
                "updates": {
                    "local": {"fee_base_msat": 1000, "fee_proportional_millionths": 650,
                        "htlc_minimum_msat": 1, "htlc_maximum_msat": 990000,
                        "cltv_expiry_delta": 34},
                    "remote": {"fee_base_msat": 0, "fee_proportional_millionths": 40,
                        "htlc_minimum_msat": 1000, "htlc_maximum_msat": 900000,
                        "cltv_expiry_delta": 144}
                },
                "htlcs": [
                    {"direction": "in", "amount_msat": 10000, "expiry": 190,
                        "status": "waiting on htlc_accepted"},
                    {"direction": "out", "amount_msat": "20000msat", "expiry": 210,
                        "local_trimmed": true}
                ]
            }"#,
        ),
        0,
        Some(180),
    );
    assert_eq!(sample.channel_key, "full");
    assert_eq!(sample.aliases.len(), 4);
    assert_eq!(sample.spendable_msat, 590_000);
    assert_eq!((sample.htlc_in_count, sample.htlc_out_count), (1, 1));
    assert_eq!(
        (sample.htlc_in_msat, sample.htlc_out_msat),
        (10_000, 20_000)
    );
    assert_eq!(sample.blockheight, Some(180));
    assert_eq!(
        (sample.htlc_min_expiry, sample.htlc_max_expiry),
        (Some(190), Some(210))
    );
    assert_eq!(
        (sample.htlc_hooked_count, sample.htlc_trimmed_count),
        (1, 1)
    );
    assert_eq!(sample.max_accepted_htlcs, Some(30));
    assert_eq!(sample.local_policy.fee_ppm, Some(650));
    assert_eq!(sample.remote_policy.cltv_expiry_delta, Some(144));
}

#[test]
fn samples_compare_without_their_aliases() {
    let value = json(r#"{"channel_id": "a", "funding_txid": "f", "funding_outnum": 3}"#);
    let sample = ChannelSample::from_value(&value, 0, None);
    assert_eq!(
        sample.aliases,
        vec![
            ChannelAlias {
                kind: "channel_id",
                value: "a".to_owned()
            },
            ChannelAlias {
                kind: "funding_outpoint",
                value: "f:3".to_owned()
            },
        ]
    );
    let mut other = sample.clone();
    other.aliases.clear();
    assert!(sample == other);
    other.to_us_msat = 1;
    assert!(sample != other);
}

#[test]
fn channels_get_a_key_from_what_is_known() {
    let key = |text: &str| ChannelSample::from_value(&json(text), 4, None).channel_key;
    assert_eq!(key(r#"{"short_channel_id": "1x1x1"}"#), "1x1x1");
    assert_eq!(
        key(r#"{"funding_txid": "f", "funding_outnum": 3}"#),
        "f:3"
    );
    assert_eq!(key(r#"{"peer_id": "p"}"#), "pending:p:4");
    assert_eq!(key("{}"), "pending:unknown:4");
    let idle = ChannelSample::from_value(&json(r#"{"htlcs": []}"#), 0, Some(7));
    assert_eq!(idle.blockheight, None);
    assert_eq!(ChannelPolicy::from_value(None), ChannelPolicy::default());
    let aliases = ChannelSample::from_value(
        &json(r#"{"short_channel_id": "1x1x1", "aliases": {"local": "1x1x1"}}"#),
        0,
        None,
    )
    .aliases;
    assert_eq!(aliases.len(), 1);
}

#[test]
fn validates_probe_query_filters_and_buckets() {
    let mut wanted = probe();
    wanted.range.start = Some(1_000);
    wanted.range.end = Some(2_000);
    wanted.range.channel = Some("1x2x3".to_owned());
    wanted.range.limit = 25;
    wanted.status = Some("destination_reached".to_owned());
    wanted.interval = Some(300);
    let query = ProbeQuery::parse(Params::Named(wanted)).unwrap();
    assert_eq!(query.range.channel.as_deref(), Some("1x2x3"));
    assert_eq!(query.interval, Some(300));
    let mut short = probe();
    short.interval = Some(30);
    assert!(ProbeQuery::parse(Params::Named(short)).is_err());
    let mut pending = probe();
    pending.status = Some("pending".to_owned());
    assert_eq!(
        ProbeQuery::parse(Params::Named(pending)).err(),
        Some(QueryError::Status)
    );
}

#[test]
fn validates_query_bounds_and_limits() {
    let mut backwards = range();
    backwards.start = Some(20);
    backwards.end = Some(10);
    assert_eq!(
        RangeQuery::parse(Params::Named(backwards)).err(),
        Some(QueryError::StartAfterEnd)
    );
    let mut none = range();
    none.limit = 0;
    assert_eq!(
        RangeQuery::parse(Params::Named(none)).err(),
        Some(QueryError::Limit)
    );
    assert_eq!(
        PairQuery::parse(Params::Named(pair(59)), true).err(),
        Some(QueryError::Interval)
    );
    assert_eq!(
        SampleQuery::parse(Params::Named(SampleQuery {
            range: range(),
            interval: Some(59)
        }))
        .err(),
        Some(QueryError::Interval)
    );
}

#[test]
fn limits_and_intervals_have_inclusive_bounds() {
    let limited = |limit: u64| {
        let mut range = range();
        range.limit = limit;
        RangeQuery::parse_at(Params::Named(range), 0)
    };
    assert!(limited(1).is_ok());
    assert!(limited(50_000).is_ok());
    assert!(limited(50_001).is_err());
    assert!(PairQuery::parse_at(Params::Named(pair(60)), true, 0).is_ok());
    assert!(PairQuery::parse_at(Params::Named(pair(31_536_000)), true, 0).is_ok());
    assert!(PairQuery::parse_at(Params::Named(pair(31_536_001)), true, 0).is_err());
}

#[test]
fn ranges_end_now_unless_asked_otherwise() {
    let mut query = range();
    assert_eq!(query.bounds_at(77), (0, 77));
    query.start = Some(5);
    query.end = Some(6);
    assert_eq!(query.bounds_at(77), (5, 6));
    assert_eq!(query.bounds(), (5, 6));
    query.start = Some(100);
    query.end = None;
    assert_eq!(
        RangeQuery::parse_at(Params::Named(query), 77).err(),
        Some(QueryError::StartAfterEnd)
    );
    assert!(now() > 1_000_000_000);
    assert_eq!(seconds_or_zero(None), 0);
    assert_eq!(seconds_or_zero(Some(3)), 3);
    let (start, end) = range().bounds();
    assert_eq!(start, 0);
    assert!(end > 1_000_000_000);
}

#[test]
fn moments_are_told_in_whole_seconds_since_the_epoch() {
    let epoch = std::time::UNIX_EPOCH;
    let span = std::time::Duration::from_millis(3_900);
    assert_eq!(seconds_at(&epoch), 0);
    assert_eq!(seconds_at(&(epoch + span)), 3);
    assert_eq!(seconds_at(&(epoch - span)), 0);
}

#[test]
fn parameters_have_positions() {
    let query = RangeQuery::parse_at(
        Params::Positional(positional(r#"[1, 2, "c", 3, 4]"#)),
        0,
    )
    .unwrap();
    assert_eq!(
        (query.start, query.end, query.limit, query.cursor),
        (Some(1), Some(2), 3, Some(4))
    );
    assert_eq!(query.channel.as_deref(), Some("c"));
    let query = SampleQuery::parse_at(
        Params::Positional(positional(r#"[1, 2, null, 3, 4, 60]"#)),
        0,
    )
    .unwrap();
    assert_eq!(query.interval, Some(60));
    assert_eq!(query.range.channel, None);
    let query = PairQuery::parse_at(
        Params::Positional(positional(r#"[1, 2, 60, "i", "o", 1.5, 9, 3, 4]"#)),
        true,
        0,
    )
    .unwrap();
    assert_eq!(query.in_channel.as_deref(), Some("i"));
    assert_eq!(query.out_channel.as_deref(), Some("o"));
    assert!(matches!(&query.min_ppm, Some(JsonNumber::Float(text)) if text == "1.5"));
    assert!(matches!(query.max_ppm, Some(JsonNumber::Unsigned(9))));
    assert_eq!((query.range.limit, query.range.cursor), (3, Some(4)));
    let query = PairQuery::parse_at(Params::Positional(vec![]), true, 0).unwrap();
    assert_eq!((query.interval, query.range.limit), (3_600, 10_000));
    let query = EventQuery::parse_at(
        Params::Positional(positional(r#"[1, 2, "c", "t", 3, 4]"#)),
        0,
    )
    .unwrap();
    assert_eq!(query.event_type.as_deref(), Some("t"));
    assert_eq!((query.range.limit, query.range.cursor), (3, Some(4)));
    let query = ProbeQuery::parse_at(
        Params::Positional(positional(r#"[1, 2, "c", "route_failed", 60, 3, 4]"#)),
        0,
    )
    .unwrap();
    assert_eq!(query.status.as_deref(), Some("route_failed"));
    assert_eq!(query.interval, Some(60));
    assert_eq!((query.range.limit, query.range.cursor), (3, Some(4)));
    assert!(EventQuery::parse(Params::Positional(vec![])).is_ok());
}

#[test]
fn rates_must_be_in_order() {
    let outcome = |min: Option<JsonNumber>, max: Option<JsonNumber>, in_order: bool| {
        let mut query = pair(60);
        query.min_ppm = min;
        query.max_ppm = max;
        PairQuery::parse_at(Params::Named(query), in_order, 0).err()
    };
    let number = |n: u64| Some(JsonNumber::Unsigned(n));
    let fraction = |text: &str| Some(JsonNumber::Float(text.to_owned()));
    assert_eq!(outcome(number(2), number(1), true), Some(QueryError::PpmOrder));
    assert_eq!(outcome(number(1), number(1), false), None);
    assert_eq!(outcome(number(2), None, false), None);
    assert_eq!(outcome(Some(JsonNumber::Negative(-1)), number(0), false), None);
    assert_eq!(
        outcome(number(0), Some(JsonNumber::Negative(-1)), true),
        Some(QueryError::PpmOrder)
    );
    assert_eq!(
        outcome(fraction("2.5"), number(1), false),
        Some(QueryError::PpmOrder)
    );
    assert_eq!(outcome(fraction("0.5"), number(1), true), None);
    assert_eq!(
        outcome(number(u64::MAX), number(u64::MAX - 1), true),
        None
    );
    let mut query = pair(59);
    query.min_ppm = number(2);
    query.max_ppm = number(1);
    assert_eq!(
        PairQuery::parse(Params::Named(query), false).err(),
        Some(QueryError::Interval)
    );
}

#[test]
fn rates_are_found_in_the_parameters() {
    let params = Params::Positional(positional(r#"[1, 2, 60, null, null, 1.5, 9]"#));
    let (lower, upper) = PairQuery::rates(&params);
    assert!(matches!(lower, Some(JsonNumber::Float(text)) if text == "1.5"));
    assert!(matches!(upper, Some(JsonNumber::Unsigned(9))));
    let mut query = pair(60);
    query.max_ppm = Some(JsonNumber::Unsigned(3));
    let params = Params::Named(query);
    let (lower, upper) = PairQuery::rates(&params);
    assert!(lower.is_none());
    assert!(matches!(upper, Some(JsonNumber::Unsigned(3))));
}

#[test]
fn query_errors_are_worded() {
    for (error, text) in [
        (QueryError::StartAfterEnd, "start must not be after end"),
        (QueryError::Limit, "limit must be between 1 and 50000"),
        (
            QueryError::Interval,
            "interval must be between 60 seconds and 1 year",
        ),
        (QueryError::PpmOrder, "min_ppm must not exceed max_ppm"),
        (
            QueryError::Status,
            "status must be destination_reached, route_failed, or unexpected_settlement",
        ),
    ] {
        assert_eq!(error.message(), text);
    }
}

#[test]
fn texts_are_read_and_written() {
    assert_eq!(decimal_text(0), "0");
    assert_eq!(decimal_text(u64::MAX as u128 + 1), "18446744073709551616");
    assert_eq!(signed_decimal_text(-1_000), "-1000");
    assert_eq!(parse_number("007"), Some(7));
    assert_eq!(parse_number("+"), None);
    assert_eq!(parse_number("1 "), None);
    assert_eq!(without_suffix("42msat", "msat"), Some("42"));
    assert_eq!(split_last("a/b/c", '/'), Some(("a/b", "c")));
    assert_eq!(split_last("abc", '/'), None);
    assert_eq!(replace_char("a-b-c", '-', '_'), "a_b_c");
    assert_eq!(word_of(" \u{3000}one two"), Some("one".to_owned()));
    assert_eq!(word_of("  "), None);
    assert_eq!(digits_at_start("12a3"), "12");
    assert!(has_text("anchors/even", "anchor"));
    assert!(!has_text("anch", "anchor"));
    assert!(precedes_text("a", "ab"));
    assert!(precedes_text("Z", "a"));
    assert!(!precedes_text("b", "a"));
    assert_eq!(shortened("h\u{e9}llo", 2), "h\u{e9}");
    assert_eq!(byte_length("h\u{e9}"), 3);
}

#[test]
fn sorting_keeps_items_and_puts_them_in_order() {
    let position = |ts: u64, id: u64, at: usize| Position { ts, id, at };
    let sorted = sort(vec![
        position(2, 1, 0),
        position(1, 9, 1),
        position(2, 0, 2),
        position(1, 9, 3),
    ]);
    let places: Vec<usize> = sorted.iter().map(|position| position.at).collect();
    assert_eq!(places, vec![1, 3, 2, 0]);
}
