use cln_exporter::accounting::{
    collect_bookkeeper, collect_channel_apy, collect_tracker, percentage_text, percentages,
};
use cln_exporter::channels::{channel_is_anchor, collect_channels, multiply_capped};
use cln_exporter::event_metrics::{collect_events, render_histogram};
use cln_exporter::events::{
    bounded_increment, EventCounters, LatencyHistogram, MAX_DYNAMIC_KEYS, MAX_PENDING_INVOICES,
    MAX_TRACKED_PEERS,
};
use cln_exporter::exporter::{
    has_room_for_notification, health, on_notification, AppState, SettingsError,
};
use cln_exporter::exposition::{escape_help, escape_label, Metrics, SampleValue};
use cln_exporter::json::{amount_msat, leading_u64, msat, Json, JsonNumber};
use cln_exporter::node::{
    collect_anchor_tank, collect_feerates, collect_funds, collect_liquidity_ad, collect_node,
    collect_peers, collect_plugins,
};
use cln_exporter::ordered::OrderedMap;
use cln_exporter::plugin_metrics::{
    discover_methods, valid_metric_name, valid_rpc_name, validate_encoded, validate_response,
    validate_wire, Batch, Collection, CollectionError, DiscoveryError, Family, Help, Lookup,
    MetricType, PluginMetrics, Registry, ResponseError, Sample, WireMetrics, DISCOVERY_TTL,
};
use cln_exporter::scrape::{
    advertised_node, record_collector, render, render_plugin_metrics, Replies, Reply,
    ScrapeSettings,
};

fn convert(value: &serde_json::Value) -> Json {
    match value {
        serde_json::Value::Null => Json::Null,
        serde_json::Value::Bool(b) => Json::Bool(*b),
        serde_json::Value::Number(n) => Json::Number(if let Some(n) = n.as_u64() {
            JsonNumber::Unsigned(n)
        } else if let Some(n) = n.as_i64() {
            JsonNumber::Negative(n)
        } else {
            JsonNumber::Float(n.to_string())
        }),
        serde_json::Value::String(text) => Json::Text(text.clone()),
        serde_json::Value::Array(items) => Json::Array(items.iter().map(convert).collect()),
        serde_json::Value::Object(fields) => Json::Object(
            fields
                .iter()
                .map(|(key, value)| (key.clone(), convert(value)))
                .collect(),
        ),
    }
}

fn parse(text: &str) -> serde_json::Value {
    serde_json::from_str(text).unwrap()
}

fn json(text: &str) -> Json {
    convert(&parse(text))
}

fn output(metrics: &Metrics) -> String {
    let fractions: Vec<String> = metrics
        .quotients()
        .iter()
        .map(|(numerator, denominator)| format!("{}", *numerator as f64 / *denominator as f64))
        .collect();
    metrics.output(&fractions)
}

fn gauge_family(name: &str, kind: MetricType) -> Family {
    Family {
        name: name.to_owned(),
        help: "Help.".to_owned(),
        kind,
        samples: vec![Sample {
            labels: OrderedMap::new(),
            value: JsonNumber::Unsigned(1),
        }],
    }
}

fn wire(namespace: &str, families: Vec<Family>) -> WireMetrics {
    WireMetrics {
        version: 1,
        namespace: namespace.to_owned(),
        families,
    }
}

#[test]
fn dynamic_labels_are_bounded() {
    let mut values: OrderedMap<String, u64> = OrderedMap::new();
    for index in 0..MAX_DYNAMIC_KEYS + 5 {
        bounded_increment(&mut values, format!("key-{index}"), "other".to_owned());
    }
    assert_eq!(values.len(), MAX_DYNAMIC_KEYS + 1);
    assert_eq!(values.get(&"other".to_owned()), Some(&5));
}

#[test]
fn latency_histogram_buckets_are_cumulative() {
    let mut histogram = LatencyHistogram::default();
    histogram.observe(7);
    assert_eq!(histogram.count, 1);
    assert_eq!(histogram.sum_seconds, 7);
    assert_eq!(histogram.buckets[1], 0);
    assert_eq!(histogram.buckets[2], 1);
    assert_eq!(histogram.buckets.last(), Some(&1));
}

#[test]
fn labels_are_escaped() {
    assert_eq!(escape_label("a\\b\n\"c"), "a\\\\b\\n\\\"c");
}

#[test]
fn help_is_escaped_but_keeps_quotes() {
    assert_eq!(escape_help("a\\b\n\"c"), "a\\\\b\\n\"c");
}

#[test]
fn amounts_accept_cln_wire_shapes() {
    assert_eq!(msat(&json("42")), Some(42));
    assert_eq!(msat(&json("\"42msat\"")), Some(42));
    assert_eq!(msat(&json("{\"msat\": 42}")), Some(42));
}

#[test]
fn amounts_that_are_none_are_missing() {
    assert_eq!(msat(&json("-1")), None);
    assert_eq!(msat(&json("\"42\"")), None);
    assert_eq!(msat(&json("\"msat\"")), None);
    assert_eq!(msat(&json("{\"msat\": \"42msat\"}")), None);
    assert_eq!(msat(&json("\"+7msat\"")), Some(7));
    assert_eq!(msat(&json("\"18446744073709551616msat\"")), None);
    assert_eq!(amount_msat(None), 0);
    assert_eq!(amount_msat(Some(&json("null"))), 0);
    assert_eq!(leading_u64(&json("\"750perkw\"")), Some(750));
    assert_eq!(leading_u64(&json("\"perkw\"")), None);
}

#[test]
fn bookkeeper_percentages_become_ratios() {
    let ratio = percentage_text(&json("\"12.5%\""))
        .and_then(|text| text.parse::<f64>().ok())
        .map(|percent| percent / 100.0);
    assert_eq!(ratio, Some(0.125));
    assert_eq!(percentage_text(&json("\"12.5\"")), None);
    assert_eq!(percentage_text(&json("-3")), Some("-3".to_owned()));
    assert_eq!(percentage_text(&json("0.5")), Some("0.5".to_owned()));
}

#[test]
fn samples_use_prometheus_text_format() {
    let mut metrics = Metrics::default();
    metrics.sample("example", &[("label", "value")], SampleValue::Unsigned(3));
    assert_eq!(output(&metrics), "example{label=\"value\"} 3\n");
}

#[test]
fn families_and_values_are_written_in_order() {
    let mut metrics = Metrics::default();
    metrics.family("example", "One\nline.", "gauge");
    metrics.sample("example", &[("a", "1"), ("b", "x\"y")], SampleValue::Signed(-4));
    metrics.sample(
        "example",
        &[],
        SampleValue::Quotient {
            numerator: 3,
            denominator: 8,
        },
    );
    metrics.sample("example", &[], SampleValue::Decimal("0.25".to_owned()));
    assert_eq!(
        output(&metrics),
        "# HELP example One\\nline.\n# TYPE example gauge\nexample{a=\"1\",b=\"x\\\"y\"} -4\nexample 0.375\nexample 0.25\n"
    );
}

#[test]
fn channel_metrics_include_deadlines_fees_and_splices() {
    let channels = json(
        r#"{"channels": [{
            "peer_id": "peer",
            "short_channel_id": "1x2x3",
            "state": "CHANNELD_AWAITING_SPLICE",
            "peer_connected": true,
            "total_msat": "1000000msat",
            "spendable_msat": "400000msat",
            "receivable_msat": "500000msat",
            "channel_type": {"names": ["anchors/even"]},
            "feerate": {"perkw": 500},
            "htlcs": [{"expiry": 105}],
            "inflight": [{
                "funding_txid": "not-a-label",
                "feerate": "750perkw",
                "splice_amount": -1000,
                "total_funding_msat": "900000msat"
            }]
        }]}"#,
    );
    let feerates = json(
        r#"{"perkw": {
            "unilateral_anchor_close": 1000,
            "min_acceptable": 250,
            "max_acceptable": 2000
        }}"#,
    );
    let mut metrics = Metrics::default();
    collect_channels(&mut metrics, &channels, 20, 100, 12, Some(&feerates));
    let text = output(&metrics);
    assert!(text
        .contains("cln_channel_earliest_htlc_expiry_blocks{channel=\"1x2x3\",peer=\"peer\"} 5"));
    assert!(text
        .contains("cln_channel_feerate_competitiveness_ratio{channel=\"1x2x3\",peer=\"peer\"} 0.5"));
    assert!(text.contains(
        "cln_channel_splice_amount_sat{channel=\"1x2x3\",peer=\"peer\",candidate=\"0\"} -1000"
    ));
    assert!(!text.contains("not-a-label"));
    assert!(text.contains("cln_channel_feerate_acceptable{channel=\"1x2x3\",peer=\"peer\"} 1\n"));
    assert!(text.contains("cln_channels{state=\"CHANNELD_AWAITING_SPLICE\"} 1\n"));
}

#[test]
fn liquidity_targets_are_a_share_of_the_capacity() {
    let channels = json(
        r#"{"channels": [{"channel_id": "id", "total_msat": 1000000,
            "spendable_msat": 150000, "receivable_msat": 250000, "htlcs": []}]}"#,
    );
    let mut metrics = Metrics::default();
    collect_channels(&mut metrics, &channels, 20, 0, 12, None);
    let text = output(&metrics);
    assert!(text.contains(
        "cln_channel_outbound_liquidity_shortfall_msat{channel=\"id\",peer=\"unknown\"} 50000\n"
    ));
    assert!(text.contains(
        "cln_channel_inbound_liquidity_shortfall_msat{channel=\"id\",peer=\"unknown\"} 0\n"
    ));
    assert!(text.contains("cln_channels{state=\"unknown\"} 1\n"));
    assert_eq!(multiply_capped(u64::MAX, 2), u64::MAX);
}

#[test]
fn channels_without_a_name_go_by_their_position() {
    let channels = json(r#"{"channels": [{}, {"short_channel_id": 7, "channel_id": "id"}]}"#);
    let mut metrics = Metrics::default();
    collect_channels(&mut metrics, &channels, 20, 0, 12, None);
    let text = output(&metrics);
    assert!(text.contains("cln_channel_connected{channel=\"pending-0\",peer=\"unknown\"} 0\n"));
    assert!(text.contains("cln_channel_connected{channel=\"pending-1\",peer=\"unknown\"} 0\n"));
    assert!(text.contains("cln_channel_outbound_liquidity_ratio{channel=\"pending-0\",peer=\"unknown\"} 0\n"));
    assert!(!channel_is_anchor(&json(r#"{"channel_type": {"names": ["static_remotekey"]}}"#)));
}

#[test]
fn anchor_tank_uses_configured_or_estimated_requirement() {
    let funds = json(
        r#"{"outputs": [{
            "status": "confirmed", "reserved": false, "amount_msat": "100000msat"
        }]}"#,
    );
    let channels = json(
        r#"{"channels": [{
            "state": "CHANNELD_NORMAL", "channel_type": {"names": ["anchors/even"]}
        }]}"#,
    );
    let feerates = json(r#"{"onchain_fee_estimates": {"unilateral_close_satoshis": 200}}"#);
    let configs =
        json(r#"{"configs": {"min-emergency-msat": {"value_msat": "150000msat"}}}"#);
    let mut metrics = Metrics::default();
    collect_anchor_tank(&mut metrics, &funds, &channels, &feerates, &configs);
    let text = output(&metrics);
    assert!(text.contains("cln_anchor_tank_estimated_required_msat 200000"));
    assert!(text.contains("cln_anchor_tank_shortfall_msat 100000"));
    assert!(text.contains("cln_anchor_tank_coverage_ratio 0.5\n"));
}

#[test]
fn anchor_tank_without_need_is_covered() {
    let nothing = json("{}");
    let mut metrics = Metrics::default();
    collect_anchor_tank(&mut metrics, &nothing, &nothing, &nothing, &nothing);
    assert!(output(&metrics).contains("cln_anchor_tank_coverage_ratio 1\n"));
}

#[test]
fn node_funds_and_peers_are_written() {
    let mut metrics = Metrics::default();
    collect_node(
        &mut metrics,
        &json(
            r#"{"id": "me", "network": "regtest", "version": "v1", "blockheight": 7,
                "warning_bitcoind_sync": "behind", "fees_collected_msat": "9msat"}"#,
        ),
    );
    collect_funds(
        &mut metrics,
        &json(
            r#"{"outputs": [
                {"status": "confirmed", "amount_msat": 5},
                {"status": "confirmed", "amount_msat": 6},
                {"amount_msat": 1}]}"#,
        ),
    );
    collect_peers(
        &mut metrics,
        &json(r#"{"peers": [{"id": "a", "connected": true}, {}]}"#),
    );
    assert_eq!(
        output(&metrics),
        "cln_node_info{id=\"me\",network=\"regtest\",version=\"v1\"} 1\n\
         cln_node_blockheight 7\ncln_node_bitcoin_synced 0\ncln_node_lightning_synced 1\n\
         cln_routing_fees_collected_msat 9\n\
         cln_wallet_onchain_msat{status=\"confirmed\"} 11\n\
         cln_wallet_onchain_msat{status=\"unknown\"} 1\n\
         cln_peer_connected{peer=\"a\"} 1\ncln_peer_connected{peer=\"unknown\"} 0\n"
    );
}

#[test]
fn feerates_plugins_and_advertisements_are_written() {
    let mut metrics = Metrics::default();
    collect_feerates(
        &mut metrics,
        &json(
            r#"{"perkw": {"opening": 3, "estimates": [{"blockcount": 2, "feerate": 4}]},
                "onchain_fee_estimates": {"opening_channel_satoshis": 5, "x": "y"}}"#,
        ),
    );
    collect_plugins(
        &mut metrics,
        &json(
            r#"{"plugins": [{"name": "/opt/backup.py", "active": true},
                {"name": "other", "active": false, "dynamic": true}]}"#,
        ),
    );
    collect_liquidity_ad(&mut metrics, &json(r#"{"nodes": []}"#));
    collect_liquidity_ad(
        &mut metrics,
        &json(r#"{"nodes": [{"option_will_fund": {"lease_fee_basis": 65}}]}"#),
    );
    assert_eq!(
        output(&metrics),
        "cln_bitcoin_feerate_perkw{purpose=\"opening\"} 3\n\
         cln_bitcoin_feerate_estimate_perkw{blocks=\"2\",kind=\"raw\"} 4\n\
         cln_bitcoin_feerate_estimate_perkw{blocks=\"2\",kind=\"smoothed\"} 0\n\
         cln_bitcoin_onchain_fee_estimate_sat{transaction=\"opening_channel_satoshis\"} 5\n\
         cln_bitcoin_feerates_available 1\n\
         cln_plugin_active{plugin=\"/opt/backup.py\"} 1\n\
         cln_plugin_dynamic{plugin=\"/opt/backup.py\"} 0\n\
         cln_plugin_active{plugin=\"other\"} 0\n\
         cln_plugin_dynamic{plugin=\"other\"} 1\n\
         cln_backup_plugin_active 1\ncln_backup_freshness_supported 0\n\
         cln_liquidity_advertisement_enabled 0\ncln_liquidity_advertisement_enabled 1\n\
         cln_liquidity_ad_lease_fee_basis 65\n"
    );
}

#[test]
fn bookkeeper_groups_accounts_beyond_the_limit() {
    let accounts: Vec<Json> = (0..258)
        .map(|index| {
            json(&format!(
                r#"{{"account": "a{index}", "balances": [{{"coin_type": "bc", "balance_msat": 10}}]}}"#
            ))
        })
        .collect();
    let value = Json::Object(vec![("accounts".to_owned(), Json::Array(accounts))]);
    let mut metrics = Metrics::default();
    collect_bookkeeper(&mut metrics, &value);
    let text = output(&metrics);
    assert!(text.contains("cln_bookkeeper_balance_msat{account=\"a255\",coin=\"bc\"} 10\n"));
    assert!(!text.contains("\"a256\""));
    assert!(text.contains("cln_bookkeeper_balance_msat{account=\"__other__\",coin=\"bc\"} 20\n"));
}

#[test]
fn channel_yields_take_their_ratios() {
    let value = json(
        r#"{"channels_apy": [{"account": "c", "routed_in_msat": 4, "apy_total": "12.5%"}]}"#,
    );
    assert_eq!(
        percentages(&value),
        vec![Some("12.5".to_owned()), None, None, None]
    );
    let ratios = vec![Some("0.125".to_owned()), None, None, None];
    let mut metrics = Metrics::default();
    collect_channel_apy(&mut metrics, &value, &ratios);
    let text = output(&metrics);
    assert!(text.contains("cln_channel_routed_in_msat{account=\"c\"} 4\n"));
    assert!(text.contains("cln_channel_apy_ratio{account=\"c\"} 0.125\n"));
    assert!(!text.contains("cln_channel_lease_apy_ratio"));
}

#[test]
fn tracker_fallback_includes_aggregate_rescan_progress() {
    let health = json(
        r#"{
            "healthy": true,
            "bwatch": {
                "active_rescans": [
                    {"blocks_processed": 25, "blocks_total": 100},
                    {"blocks_processed": 50, "blocks_total": 100}
                ]
            }
        }"#,
    );
    let mut metrics = Metrics::default();
    collect_tracker(&mut metrics, &health);
    let text = output(&metrics);
    assert!(text.contains("cln_tracker_bwatch_active_rescans 2"));
    assert!(text.contains("cln_tracker_bwatch_rescan_blocks_processed 75"));
    assert!(text.contains("cln_tracker_bwatch_rescan_blocks_total 200"));
    assert!(text.contains("cln_tracker_bwatch_rescan_progress_ratio 0.375"));
}

#[test]
fn plugin_metrics_are_namespaced_and_collisions_are_rejected() {
    let plugin = PluginMetrics {
        namespace: "tracker".to_owned(),
        sample_count: 1,
        families: vec![Family {
            name: "healthy".to_owned(),
            help: "Tracker health.".to_owned(),
            kind: MetricType::Gauge,
            samples: vec![Sample {
                labels: OrderedMap::new(),
                value: JsonNumber::Unsigned(1),
            }],
        }],
    };
    let mut metrics = Metrics::default();
    render_plugin_metrics(&mut metrics, &plugin).unwrap();
    assert!(output(&metrics).contains("cln_tracker_healthy 1"));
    let before = output(&metrics);
    assert_eq!(
        render_plugin_metrics(&mut metrics, &plugin),
        Err("cln_tracker_healthy".to_owned())
    );
    assert_eq!(output(&metrics), before);
}

#[test]
fn plugin_samples_write_their_labels_in_order() {
    let mut labels = OrderedMap::new();
    labels.insert("z".to_owned(), "1".to_owned());
    labels.insert("a".to_owned(), "2".to_owned());
    let plugin = PluginMetrics {
        namespace: "p".to_owned(),
        sample_count: 2,
        families: vec![Family {
            name: "x_total".to_owned(),
            help: "H.".to_owned(),
            kind: MetricType::Counter,
            samples: vec![
                Sample {
                    labels,
                    value: JsonNumber::Negative(-2),
                },
                Sample {
                    labels: OrderedMap::new(),
                    value: JsonNumber::Float("1.5".to_owned()),
                },
            ],
        }],
    };
    let mut metrics = Metrics::default();
    assert!(render_plugin_metrics(&mut metrics, &plugin).is_ok());
    assert_eq!(
        output(&metrics),
        "# HELP cln_p_x_total H.\n# TYPE cln_p_x_total counter\n\
         cln_p_x_total{a=\"2\",z=\"1\"} -2\ncln_p_x_total 1.5\n"
    );
}

#[test]
fn discovers_only_metrics_rpcs() {
    let methods = discover_methods(&json(
        r#"{"help": [
            {"command": "tracker-metrics "},
            {"command": "pay bolt11 [amount_msat]"},
            {"command": "foo-metrics [unexpected]"},
            {"command": "bad.name-metrics"}
        ]}"#,
    ))
    .unwrap();
    assert_eq!(methods, ["foo-metrics", "tracker-metrics"]);
}

#[test]
fn discovery_fails_without_help_or_with_too_many_methods() {
    assert!(matches!(
        discover_methods(&json("{}")),
        Err(DiscoveryError::NoHelp)
    ));
    let entries = |count: usize| {
        Json::Object(vec![(
            "help".to_owned(),
            Json::Array(
                (0..count)
                    .map(|index| json(&format!(r#"{{"command": "p{index}-metrics"}}"#)))
                    .collect(),
            ),
        )])
    };
    assert!(discover_methods(&entries(64)).is_ok());
    assert!(matches!(
        discover_methods(&entries(65)),
        Err(DiscoveryError::TooMany)
    ));
}

#[test]
fn names_follow_their_rules() {
    assert!(valid_rpc_name("a-b_c9"));
    assert!(valid_rpc_name("9a"));
    assert!(!valid_rpc_name("-a"));
    assert!(!valid_rpc_name(""));
    assert!(!valid_rpc_name("a.b"));
    assert!(valid_metric_name("_a9"));
    assert!(!valid_metric_name("9a"));
    assert!(!valid_metric_name("a-b"));
    assert!(valid_metric_name(&"a".repeat(128)));
    assert!(!valid_metric_name(&"a".repeat(129)));
    assert!(!valid_metric_name("caf\u{e9}"));
    assert_eq!(MetricType::Counter.as_str(), "counter");
    assert_eq!(MetricType::Gauge.as_str(), "gauge");
}

#[test]
fn validates_a_metrics_response() {
    let mut labels = OrderedMap::new();
    labels.insert("kind".to_owned(), "chain".to_owned());
    let value = parse(
        r#"{
            "version": 1,
            "namespace": "tracker",
            "families": [{
                "name": "reorgs_total",
                "help": "Handled reorganizations.",
                "type": "counter",
                "samples": [{"labels": {"kind": "chain"}, "value": 2}]
            }]
        }"#,
    );
    let read = wire(
        "tracker",
        vec![Family {
            name: "reorgs_total".to_owned(),
            help: "Handled reorganizations.".to_owned(),
            kind: MetricType::Counter,
            samples: vec![Sample {
                labels,
                value: JsonNumber::Unsigned(2),
            }],
        }],
    );
    let metrics = validate_response("tracker-metrics", &value, Some(read)).unwrap();
    assert_eq!(metrics.namespace, "tracker");
    assert_eq!(metrics.sample_count, 1);
}

#[test]
fn rejects_namespace_spoofing_and_bad_counters() {
    let spoofed = parse(
        r#"{"version": 1, "namespace": "wallet", "families": [{
            "name": "healthy", "help": "Health.", "type": "gauge", "samples": [{"value": 1}]}]}"#,
    );
    let read = wire("wallet", vec![gauge_family("healthy", MetricType::Gauge)]);
    assert!(validate_response("tracker-metrics", &spoofed, Some(read)).is_err());
    let counter = parse(
        r#"{"version": 1, "namespace": "tracker", "families": [{
            "name": "reorgs", "help": "Reorgs.", "type": "counter", "samples": [{"value": 1}]}]}"#,
    );
    let read = wire("tracker", vec![gauge_family("reorgs", MetricType::Counter)]);
    assert!(validate_response("tracker-metrics", &counter, Some(read)).is_err());
}

#[test]
fn a_response_is_measured_by_its_compact_text() {
    let read = || Some(wire("t", vec![gauge_family("a", MetricType::Gauge)]));
    let text = |length: usize| serde_json::Value::String("a".repeat(length));
    assert!(validate_response("t-metrics", &text(1_048_574), read()).is_ok());
    assert!(matches!(
        validate_response("t-metrics", &text(1_048_575), read()),
        Err(ResponseError::TooLarge)
    ));
    assert!(matches!(
        validate_response("t-metrics", &text(1), None),
        Err(ResponseError::Malformed)
    ));
    assert!(validate_encoded("t-metrics", &vec![0; 1_048_576], read()).is_ok());
    assert!(matches!(
        validate_encoded("t-metrics", &vec![0; 1_048_577], read()),
        Err(ResponseError::TooLarge)
    ));
}

#[test]
fn every_rule_for_responses_has_its_error() {
    let family = |name: &str| gauge_family(name, MetricType::Gauge);
    let problem = |wire: WireMetrics| validate_wire("my-p-metrics", wire).err().unwrap();
    assert!(validate_wire("my-p-metrics", wire("my_p", vec![family("a")])).is_ok());
    let mut newer = wire("my_p", vec![family("a")]);
    newer.version = 2;
    assert!(matches!(problem(newer), ResponseError::Version(2)));
    assert!(matches!(
        problem(wire("my-p", vec![family("a")])),
        ResponseError::InvalidNamespace
    ));
    assert!(matches!(
        problem(wire("my_q", vec![family("a")])),
        ResponseError::ForeignNamespace
    ));
    assert!(matches!(problem(wire("my_p", vec![])), ResponseError::NoFamilies));
    assert!(matches!(
        problem(wire(
            "my_p",
            (0..257).map(|i| family(&format!("a{i}"))).collect()
        )),
        ResponseError::TooManyFamilies
    ));
    assert!(matches!(
        problem(wire("my_p", vec![family(&"a".repeat(129))])),
        ResponseError::LongFamilyName
    ));
    match problem(wire("my_p", vec![family("a-b")])) {
        ResponseError::InvalidFamily(name) => assert_eq!(name, "a-b"),
        other => panic!("{other:?}"),
    }
    match problem(wire("my_p", vec![family("a"), family("a")])) {
        ResponseError::DuplicateFamily(name) => assert_eq!(name, "a"),
        other => panic!("{other:?}"),
    }
    let mut long = family("a");
    long.help = "\u{e9}".repeat(257);
    assert!(matches!(
        problem(wire("my_p", vec![long])),
        ResponseError::LongHelp(_)
    ));
    let mut lines = family("a");
    lines.help = "one\rtwo".to_owned();
    assert!(matches!(
        problem(wire("my_p", vec![lines])),
        ResponseError::MultilineHelp(_)
    ));
    assert!(matches!(
        problem(wire("my_p", vec![gauge_family("a", MetricType::Counter)])),
        ResponseError::CounterName(_)
    ));
    let mut many = family("a");
    many.samples = (0..10_001)
        .map(|_| Sample {
            labels: OrderedMap::new(),
            value: JsonNumber::Unsigned(1),
        })
        .collect();
    assert!(matches!(
        problem(wire("my_p", vec![many])),
        ResponseError::TooManySamples
    ));
    let labelled = |pairs: Vec<(String, String)>| {
        let mut labels = OrderedMap::new();
        for (key, value) in pairs {
            labels.insert(key, value);
        }
        let mut family = gauge_family("a", MetricType::Gauge);
        family.samples = vec![Sample {
            labels,
            value: JsonNumber::Unsigned(1),
        }];
        wire("my_p", vec![family])
    };
    assert!(matches!(
        problem(labelled(
            (0..17).map(|i| (format!("k{i}"), String::new())).collect()
        )),
        ResponseError::TooManyLabels(_)
    ));
    match problem(labelled(vec![("a.b".to_owned(), String::new())])) {
        ResponseError::InvalidLabel(name) => assert_eq!(name, "a.b"),
        other => panic!("{other:?}"),
    }
    assert!(matches!(
        problem(labelled(vec![("k".to_owned(), "v".repeat(513))])),
        ResponseError::LongLabelValue(_)
    ));
}

#[test]
fn a_lookup_asks_once_and_keeps_what_it_knew() {
    let mut registry = Registry::default();
    let help = json(r#"{"help": [{"command": "a-metrics"}]}"#);
    let known = vec!["a-metrics".to_owned()];
    assert!(matches!(registry.methods(Help::NotAsked, 5), Lookup::Ask));
    assert!(matches!(
        registry.methods(Help::Answered(&help), 10),
        Lookup::Done(Ok(methods)) if methods == known
    ));
    assert!(matches!(
        registry.methods(Help::NotAsked, 9 + DISCOVERY_TTL),
        Lookup::Done(Ok(methods)) if methods == known
    ));
    assert!(matches!(
        registry.methods(Help::NotAsked, 10 + DISCOVERY_TTL),
        Lookup::Ask
    ));
    assert!(matches!(
        registry.methods(Help::Failed, 11 + DISCOVERY_TTL),
        Lookup::Done(Err(DiscoveryError::Unavailable))
    ));
    assert_eq!(registry.cached(11), Some(&known));
    assert_eq!(
        registry.refresh(Some(&json("{}")), 20),
        Err(DiscoveryError::NoHelp)
    );
    assert_eq!(registry.cached(11), Some(&known));
    registry.invalidate();
    assert!(matches!(registry.methods(Help::NotAsked, 12), Lookup::Ask));
    let other = json(r#"{"help": [{"command": "b-metrics"}]}"#);
    assert_eq!(
        registry.refresh(Some(&other), 30),
        Ok(vec!["b-metrics".to_owned()])
    );
    assert_eq!(registry.cached(30), Some(&vec!["b-metrics".to_owned()]));
}

#[test]
fn discovered_methods_are_kept_for_a_minute() {
    let mut registry = Registry::default();
    assert!(registry.cached(0).is_none());
    registry.store(vec!["a-metrics".to_owned()], 10);
    assert_eq!(
        registry.cached(10 + DISCOVERY_TTL - 1),
        Some(&vec!["a-metrics".to_owned()])
    );
    assert!(registry.cached(10 + DISCOVERY_TTL).is_none());
    registry.store(vec!["a-metrics".to_owned()], 10);
    registry.invalidate();
    assert!(registry.cached(11).is_none());
}

#[test]
fn options_are_checked() {
    let state = AppState::configured("rpc".to_owned(), 5, 20, 12).unwrap();
    assert_eq!(state.rpc_timeout, 5);
    assert_eq!(state.scrape_settings().liquidity_target_percent, 20);
    assert_eq!(state.scrape_settings().htlc_warning_blocks, 12);
    assert!(AppState::configured("rpc".to_owned(), 1, 0, 1).is_ok());
    let error = |timeout, target, blocks| {
        AppState::configured("rpc".to_owned(), timeout, target, blocks)
            .err()
            .unwrap()
    };
    assert_eq!(error(0, 20, 12), SettingsError::RpcTimeout);
    assert_eq!(error(5, 51, 12), SettingsError::LiquidityTarget);
    assert_eq!(error(5, -1, 12), SettingsError::LiquidityTarget);
    assert_eq!(error(5, 50, 0), SettingsError::HtlcWarningBlocks);
    assert_eq!(
        SettingsError::RpcTimeout.message(),
        "prometheus-rpc-timeout must be positive"
    );
    assert_eq!(
        SettingsError::LiquidityTarget.message(),
        "prometheus-liquidity-target-percent must be between 0 and 50"
    );
    assert_eq!(
        SettingsError::HtlcWarningBlocks.message(),
        "prometheus-htlc-warning-blocks must be positive"
    );
}

fn counters() -> EventCounters {
    EventCounters::default()
}

#[test]
fn notifications_reach_their_counters() {
    let mut state = AppState::configured("rpc".to_owned(), 5, 20, 12).unwrap();
    state
        .plugin_metrics
        .store(vec!["a-metrics".to_owned()], 0);
    let mut notify = |text: &str, now: u64| on_notification(&mut state, &json(text), now);
    assert!(!notify("[]", 0));
    assert!(!notify("{}", 0));
    assert!(notify(r#"{"shutdown": {}}"#, 0));
    assert!(!notify(r#"{"warning": {"level": "warn"}}"#, 1));
    assert!(!notify(r#"{"plugin_stopped": {"plugin_name": "p"}}"#, 1));
    assert!(!notify(r#"{"block_added": {"height": 5}}"#, 9));
    assert!(!notify(r#"{"connect": {"id": "n"}}"#, 10));
    assert!(!notify(r#"{"disconnect": {"id": "n"}}"#, 25));
    assert!(!notify(r#"{"invoice_creation": {"label": "l"}}"#, 30));
    assert!(!notify(r#"{"invoice_payment": {"label": "l"}}"#, 37));
    assert!(!notify(
        r#"{"sendpay_failure": {"data": {"created_at": 5, "completed_at": 8}}}"#,
        40
    ));
    assert!(!notify(
        r#"{"forward_event": {"status": "settled", "in_channel": "1x1x1",
            "out_channel": "2x2x2", "in_msat": 11, "out_msat": 10, "fee_msat": 1}}"#,
        41
    ));
    let events = &state.events;
    assert!(state.plugin_metrics.cached(1).is_none());
    let full = json(r#"{"level": "warn", "source": "s"}"#);
    assert!(events.has_room("warning", &full));
    let pair = |a: &str, b: &str| (a.to_owned(), b.to_owned());
    assert_eq!(events.notifications.get(&"shutdown".to_owned()), None);
    assert_eq!(events.notifications.get(&"warning".to_owned()), Some(&1));
    assert_eq!(events.warnings.get(&pair("warn", "unknown")), Some(&1));
    assert_eq!(events.plugin_events.get(&pair("p", "stopped")), Some(&1));
    assert_eq!(events.latest_block_height, Some(5));
    assert_eq!(events.latest_block_time, Some(9));
    let peer = events.peers.get(&"n".to_owned()).unwrap();
    assert_eq!(
        (peer.connects, peer.disconnects, peer.connected_seconds_total),
        (1, 1, 15)
    );
    assert_eq!(events.invoice_latency.sum_seconds, 7);
    assert_eq!(events.invoice_created_at.len(), 0);
    assert_eq!(events.sendpay_latency.sum_seconds, 3);
    let inbound = events.forwarding_channels.get(&"1x1x1".to_owned()).unwrap();
    assert_eq!((inbound.received_msat, inbound.fees_msat), (11, 1));
    let outbound = events.forwarding_channels.get(&"2x2x2".to_owned()).unwrap();
    assert_eq!(outbound.sent_msat, 10);
}

#[test]
fn counters_stay_bounded_however_many_names_come() {
    let mut events = counters();
    for index in 0..5_000 {
        let body = json(&format!(
            r#"{{"id": "n{index}", "label": "l{index}", "type": "t{index}", "status": "settled",
                "in_channel": "i{index}", "out_channel": "o{index}"}}"#
        ));
        events.record("connect", &body, 1);
        events.record("invoice_creation", &body, 1);
        if index < 200 {
            events.record("coin_movement", &body, 1);
            events.record("forward_event", &body, 1);
        }
    }
    assert_eq!(events.peers.len(), MAX_TRACKED_PEERS);
    assert_eq!(events.invoice_created_at.len(), MAX_PENDING_INVOICES);
    assert_eq!(events.coin_movements.len(), MAX_DYNAMIC_KEYS + 1);
    assert_eq!(
        events
            .coin_movements
            .get(&("other".to_owned(), "other".to_owned())),
        Some(&72)
    );
    assert_eq!(events.forwarding_channels.len(), MAX_DYNAMIC_KEYS);
}

#[test]
fn event_counters_are_written() {
    let mut events = counters();
    events.record("connect", &json(r#"{"id": "n"}"#), 10);
    events.record("invoice_creation", &json(r#"{"label": "l"}"#), 10);
    events.record("invoice_creation", &json(r#"{"label": "m"}"#), 10);
    events.record("invoice_payment", &json(r#"{"label": "l"}"#), 17);
    let mut metrics = Metrics::default();
    collect_events(&mut metrics, &events, 30);
    let text = output(&metrics);
    assert!(text.contains("cln_notifications_total{topic=\"invoice_creation\"} 2\n"));
    assert!(text.contains("cln_peer_connection_seconds_total{peer=\"n\"} 20\n"));
    assert!(text.contains("cln_invoice_events_total{event=\"created\"} 2\n"));
    assert!(text.contains("cln_invoice_observed_payment_ratio 0.5\n"));
    assert!(text.contains("cln_invoice_payment_latency_seconds_bucket{le=\"5\"} 0\n"));
    assert!(text.contains("cln_invoice_payment_latency_seconds_bucket{le=\"10\"} 1\n"));
    assert!(text.contains("cln_invoice_payment_latency_seconds_bucket{le=\"+Inf\"} 1\n"));
    assert!(text.contains("cln_invoice_payment_latency_seconds_sum 7\n"));
    assert!(text.contains("cln_sendpay_latency_seconds_count 0\n"));
}

#[test]
fn histograms_name_their_buckets() {
    let mut histogram = LatencyHistogram::default();
    histogram.observe(4_000);
    let mut metrics = Metrics::default();
    render_histogram(&mut metrics, "h", &histogram);
    let text = output(&metrics);
    assert!(text.starts_with("# HELP h Observed event latency in seconds.\n# TYPE h histogram\n"));
    assert!(text.contains("h_bucket{le=\"3600\"} 0\nh_bucket{le=\"+Inf\"} 1\nh_sum 4000\nh_count 1\n"));
}

fn reply(text: Option<&str>) -> Reply {
    Reply {
        duration: "0.5".to_owned(),
        value: text.map(json),
    }
}

fn replies(node: Option<&str>) -> Replies {
    Replies {
        node: reply(node),
        funds: reply(None),
        channels: reply(None),
        peers: reply(None),
        feerates: reply(None),
        configs: reply(None),
        plugins: reply(None),
        tracker: reply(Some("{\"healthy\": true}")),
        bookkeeper: reply(None),
        channel_apy: reply(None),
        liquidity_ad: reply(None),
    }
}

fn batch(collections: Vec<Collection>) -> Batch {
    Batch {
        discovery_duration: "0.25".to_owned(),
        discovery_error: None,
        collections,
    }
}

fn settings() -> ScrapeSettings {
    ScrapeSettings {
        liquidity_target_percent: 20,
        htlc_warning_blocks: 12,
    }
}

#[test]
fn a_scrape_says_which_collectors_failed() {
    let replies = replies(Some(r#"{"id": "me"}"#));
    assert_eq!(advertised_node(&replies.node), Some("me"));
    let metrics = render(&replies, &vec![], &settings(), &counters(), 0, &batch(vec![]));
    let text = output(&metrics);
    assert!(text.starts_with("# HELP cln_exporter_up Whether the exporter process is running.\n"));
    assert!(text.contains("cln_exporter_up 1\n"));
    assert!(text.contains("cln_exporter_collector_success{collector=\"node\"} 1\n"));
    assert!(text.contains("cln_exporter_collector_success{collector=\"funds\"} 0\n"));
    assert!(text.contains("cln_exporter_collector_duration_seconds{collector=\"funds\"} 0.5\n"));
    assert!(text.contains(
        "cln_exporter_collector_duration_seconds{collector=\"plugin_metrics_discovery\"} 0.25\n"
    ));
    assert!(text.contains("cln_tracker_healthy 1\n"));
    assert!(!text.contains("cln_anchor_channels"));
}

#[test]
fn without_a_node_id_there_is_no_advertisement() {
    let replies = replies(None);
    assert_eq!(advertised_node(&replies.node), None);
    let metrics = render(&replies, &vec![], &settings(), &counters(), 0, &batch(vec![]));
    assert!(output(&metrics)
        .contains("cln_exporter_collector_duration_seconds{collector=\"liquidity_ad\"} 0\n"));
}

#[test]
fn tracker_metrics_take_the_place_of_the_fallback() {
    let collection = |name: &str| Collection {
        rpc: "tracker-metrics".to_owned(),
        duration: "0.125".to_owned(),
        result: Ok(PluginMetrics {
            namespace: "tracker".to_owned(),
            sample_count: 1,
            families: vec![gauge_family(name, MetricType::Gauge)],
        }),
    };
    let failed = Collection {
        rpc: "x-metrics".to_owned(),
        duration: "1".to_owned(),
        result: Err(CollectionError::Unavailable),
    };
    let metrics = render(
        &replies(None),
        &vec![],
        &settings(),
        &counters(),
        0,
        &batch(vec![collection("a"), collection("a"), failed]),
    );
    let text = output(&metrics);
    assert!(text.contains("cln_tracker_a 1\n"));
    assert!(!text.contains("cln_tracker_healthy"));
    assert!(text.contains("cln_exporter_plugin_collector_success{rpc=\"tracker-metrics\"} 1\n"));
    assert!(text.contains("cln_exporter_plugin_collector_success{rpc=\"tracker-metrics\"} 0\n"));
    assert!(text.contains("cln_exporter_plugin_collector_samples{rpc=\"tracker-metrics\"} 0\n"));
    assert!(text.contains("cln_exporter_plugin_collector_success{rpc=\"x-metrics\"} 0\n"));
}

#[test]
fn collectors_are_recorded() {
    let mut metrics = Metrics::default();
    record_collector(&mut metrics, "c", "0.5", true);
    assert_eq!(
        output(&metrics),
        "cln_exporter_collector_success{collector=\"c\"} 1\n\
         cln_exporter_collector_duration_seconds{collector=\"c\"} 0.5\n"
    );
}

#[test]
fn incidents_are_counted_without_their_descriptors() {
    let health = json(
        r#"{"incidents": [
            {"descriptor": "wpkh(xpub)", "code": "c", "operation": "o"},
            {"descriptor": "tr(xpub)", "code": "c", "operation": "o"},
            {"descriptor": "wpkh(xpub)", "code": "b"}
        ]}"#,
    );
    let mut metrics = Metrics::default();
    collect_tracker(&mut metrics, &health);
    let text = output(&metrics);
    assert!(!text.contains("xpub"));
    assert!(!text.contains("descriptor="));
    assert!(text.contains("cln_tracker_incident{code=\"b\",operation=\"unknown\"} 1\n"));
    assert!(text.contains("cln_tracker_incident{code=\"c\",operation=\"o\"} 2\n"));
}

fn offered(rpc: &str, namespace: &str, family: &str) -> Collection {
    Collection {
        rpc: rpc.to_owned(),
        duration: "1".to_owned(),
        result: Ok(PluginMetrics {
            namespace: namespace.to_owned(),
            families: vec![gauge_family(family, MetricType::Gauge)],
            sample_count: 1,
        }),
    }
}

fn scraped(collections: Vec<Collection>) -> String {
    let replies = replies(None);
    let batch = batch(collections);
    output(&render(&replies, &vec![], &settings(), &counters(), 0, &batch))
}

#[test]
fn plugins_cannot_take_the_names_of_the_tracker_fallback() {
    let text = scraped(vec![
        offered("other-metrics", "other", "a"),
        offered("tracker-bwatch-metrics", "tracker_bwatch", "active_rescans"),
    ]);
    let named = text
        .lines()
        .filter(|line| line.starts_with("cln_tracker_bwatch_active_rescans"));
    assert_eq!(named.count(), 1);
    assert!(text.contains("cln_tracker_healthy 1\n"));
    assert!(text.contains("cln_other_a 1\n"));
    assert!(text
        .contains("cln_exporter_plugin_collector_success{rpc=\"tracker-bwatch-metrics\"} 0\n"));
    assert!(text.contains("cln_exporter_plugin_collector_success{rpc=\"other-metrics\"} 1\n"));
}

#[test]
fn without_the_fallback_its_names_are_free() {
    let text = scraped(vec![
        offered("tracker-bwatch-metrics", "tracker_bwatch", "active_rescans"),
        offered("tracker-metrics", "tracker", "healthy"),
    ]);
    assert!(text
        .contains("cln_exporter_plugin_collector_success{rpc=\"tracker-bwatch-metrics\"} 1\n"));
    assert!(text.contains("cln_exporter_plugin_collector_success{rpc=\"tracker-metrics\"} 1\n"));
    assert!(!text.contains("cln_tracker_bwatch_height"));
}

#[test]
fn health_goes_by_the_call_of_the_node() {
    let (status, body) = health(None);
    assert_eq!(status, 200);
    assert!(matches!(body.get("healthy"), Some(Json::Bool(true))));
    assert!(body.get("error").is_none());
    let (status, body) = health(Some("refused"));
    assert_eq!(status, 503);
    assert!(matches!(body.get("healthy"), Some(Json::Bool(false))));
    assert_eq!(body.get("error").unwrap().as_str(), Some("refused"));
}

#[test]
fn only_the_touched_counter_has_to_have_room() {
    let mut state = AppState::configured("rpc".to_owned(), 5, 20, 12).unwrap();
    state
        .events
        .warnings
        .insert(("warn".to_owned(), "a".to_owned()), u64::MAX);
    let warning = |source: &str| {
        json(&format!(
            r#"{{"warning": {{"level": "warn", "source": "{source}"}}}}"#
        ))
    };
    assert!(!has_room_for_notification(&state, &warning("a")));
    assert!(has_room_for_notification(&state, &warning("b")));
    assert!(has_room_for_notification(&state, &json(r#"{"shutdown": {}}"#)));
    assert!(has_room_for_notification(&state, &json("[]")));
    on_notification(&mut state, &warning("b"), 1);
    state
        .events
        .sendpay_events
        .insert("success".to_owned(), u64::MAX);
    assert!(!has_room_for_notification(&state, &json(r#"{"sendpay_success": {}}"#)));
    assert!(has_room_for_notification(&state, &json(r#"{"sendpay_failure": {}}"#)));
}
