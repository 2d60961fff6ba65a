//! The collectors of the node itself: its state, wallet, peers, feerates and plugins.

use crate::channels::{
    capped_product, channel_is_anchor, difference_or_zero, is_anchor, multiply_capped,
};
use crate::exposition::{
    integer, line0, line1, line2, line3, share, share_value, truth, truth_value, unsigned_value,
    LineView, Metrics, SampleValue,
};
use crate::json::{referent, Json};
use crate::ordered::{raised, Entries, Key, OrderedMap};
use crate::text::{decimal, decimal_text, last_position, same_text, split_last};
use vstd::prelude::*;

verus! {

/// The sample of an amount, where there is one.
pub open spec fn optional_line(metric: Seq<char>, amount: Option<u64>) -> Seq<LineView> {
    match amount {
        Some(amount) => seq![line0(metric, integer(amount as int))],
        None => seq![],
    }
}

/// Writes the sample of an amount, where there is one.
pub fn optional_sample(metrics: &mut Metrics, metric: &str, amount: Option<u64>)
    ensures
        final(metrics)@ == old(metrics)@ + optional_line(metric@, amount),
{
    if let Some(amount) = amount {
        metrics.sample0(metric, unsigned_value(amount));
    }
    assert(metrics@ =~= old(metrics)@ + optional_line(metric@, amount));
}

/// What is written of a `getinfo` response.
pub open spec fn node_lines(value: Json) -> Seq<LineView> {
    seq![
        line3(
            "cln_node_info"@,
            "id"@,
            value.text_or("id"@, "unknown"@),
            "network"@,
            value.text_or("network"@, "unknown"@),
            "version"@,
            value.text_or("version"@, "unknown"@),
            integer(1),
        ),
        line0(
            "cln_node_blockheight"@,
            integer(value.unsigned_or_zero("blockheight"@) as int),
        ),
        line0(
            "cln_node_bitcoin_synced"@,
            truth(value.field("warning_bitcoind_sync"@) is None),
        ),
        line0(
            "cln_node_lightning_synced"@,
            truth(value.field("warning_lightningd_sync"@) is None),
        ),
    ] + optional_line(
        "cln_routing_fees_collected_msat"@,
        value.millisatoshi_at("fees_collected_msat"@),
    )
}

/// Writes what a `getinfo` response says.
pub fn collect_node(metrics: &mut Metrics, value: &Json)
    ensures
        final(metrics)@ == old(metrics)@ + node_lines(*value),
{
    metrics.sample3(
        "cln_node_info",
        "id",
        value.text_field_or("id", "unknown"),
        "network",
        value.text_field_or("network", "unknown"),
        "version",
        value.text_field_or("version", "unknown"),
        SampleValue::Unsigned(1),
    );
    metrics.sample0(
        "cln_node_blockheight",
        unsigned_value(value.u64_field_or_zero("blockheight")),
    );
    metrics.sample0(
        "cln_node_bitcoin_synced",
        truth_value(value.get("warning_bitcoind_sync").is_none()),
    );
    metrics.sample0(
        "cln_node_lightning_synced",
        truth_value(value.get("warning_lightningd_sync").is_none()),
    );
    optional_sample(
        metrics,
        "cln_routing_fees_collected_msat",
        value.msat_field("fees_collected_msat"),
    );
    assert(metrics@ =~= old(metrics)@ + node_lines(*value));
}

/// The wallet's amounts by the status of their outputs.
pub open spec fn fund_totals(outputs: Seq<Json>) -> Entries<u128>
    decreases outputs.len(),
{
    if outputs.len() == 0 {
        Seq::empty()
    } else {
        raised(
            fund_totals(outputs.drop_last()),
            seq![outputs.last().text_or("status"@, "unknown"@)],
            outputs.last().millisatoshi_or_zero("amount_msat"@) as int,
        )
    }
}

/// One sample for each total.
pub open spec fn total_lines(
    metric: Seq<char>,
    label: Seq<char>,
    totals: Entries<u128>,
) -> Seq<LineView> {
    Seq::new(
        totals.len(),
        |i: int| line1(metric, label, totals[i].0[0], integer(totals[i].1 as int)),
    )
}

/// What is written of a `listfunds` response.
pub open spec fn funds_lines(value: Json) -> Seq<LineView> {
    total_lines(
        "cln_wallet_onchain_msat"@,
        "status"@,
        fund_totals(value.elements_at("outputs"@)),
    )
}

/// Writes what a `listfunds` response says.
pub fn collect_funds(metrics: &mut Metrics, value: &Json)
    ensures
        final(metrics)@ == old(metrics)@ + funds_lines(*value),
{
    let mut totals: OrderedMap<String, u128> = OrderedMap::new();
    if let Some(outputs) = value.array_field("outputs") {
        let mut i: usize = 0;
        assert(outputs@.take(0) =~= seq![]);
        while i < outputs.len()
            invariant
                i <= outputs@.len(),
                totals@ == fund_totals(outputs@.take(i as int)),
            decreases outputs@.len() - i,
        {
            assert(outputs@.take(i + 1).drop_last() =~= outputs@.take(i as int));
            totals.raise(
                outputs[i].text_field_or("status", "unknown").to_owned(),
                outputs[i].msat_field_or_zero("amount_msat"),
            );
            i = i + 1;
        }
        assert(outputs@.take(i as int) =~= outputs@);
    }
    let mut i: usize = 0;
    while i < totals.len()
        invariant
            i <= totals@.len(),
            totals@ == fund_totals(value.elements_at("outputs"@)),
            metrics@ =~= old(metrics)@ + funds_lines(*value).take(i as int),
        decreases totals@.len() - i,
    {
        let status = totals.key_at(i);
        assert(status.parts()[0] == status@);
        metrics.sample1(
            "cln_wallet_onchain_msat",
            "status",
            status.as_str(),
            SampleValue::Unsigned(*totals.value_at(i)),
        );
        i = i + 1;
    }
    assert(metrics@ =~= old(metrics)@ + funds_lines(*value));
}

/// What is written of a `listpeers` response.
pub open spec fn peers_lines(value: Json) -> Seq<LineView> {
    let peers = value.elements_at("peers"@);
    Seq::new(
        peers.len(),
        |i: int|
            line1(
                "cln_peer_connected"@,
                "peer"@,
                peers[i].text_or("id"@, "unknown"@),
                truth(peers[i].holds("connected"@)),
            ),
    )
}

/// Writes what a `listpeers` response says.
pub fn collect_peers(metrics: &mut Metrics, value: &Json)
    ensures
        final(metrics)@ == old(metrics)@ + peers_lines(*value),
{
    if let Some(peers) = value.array_field("peers") {
        let mut i: usize = 0;
        while i < peers.len()
            invariant
                i <= peers@.len(),
                value.elements_at("peers"@) == peers@,
                metrics@ =~= old(metrics)@ + peers_lines(*value).take(i as int),
            decreases peers@.len() - i,
        {
            metrics.sample1(
                "cln_peer_connected",
                "peer",
                peers[i].text_field_or("id", "unknown"),
                truth_value(peers[i].flag("connected")),
            );
            i = i + 1;
        }
    }
    assert(metrics@ =~= old(metrics)@ + peers_lines(*value));
}

/// The sample of one purpose's feerate, where it is known.
pub open spec fn purpose_line(perkw: Json, purpose: Seq<char>) -> Seq<LineView> {
    match perkw.unsigned_at(purpose) {
        Some(rate) => seq![
            line1("cln_bitcoin_feerate_perkw"@, "purpose"@, purpose, integer(rate as int)),
        ],
        None => seq![],
    }
}

/// The feerates of the purposes that the node estimates for.
pub open spec fn purposes_lines(perkw: Json) -> Seq<LineView> {
    purpose_line(perkw, "opening"@) + purpose_line(perkw, "mutual_close"@) + purpose_line(
        perkw,
        "unilateral_close"@,
    ) + purpose_line(perkw, "unilateral_anchor_close"@) + purpose_line(perkw, "penalty"@)
        + purpose_line(perkw, "splice"@) + purpose_line(perkw, "floor"@) + purpose_line(
        perkw,
        "min_acceptable"@,
    ) + purpose_line(perkw, "max_acceptable"@)
}

/// The raw and the smoothed feerate of one estimate.
pub open spec fn estimate_lines(estimate: Json) -> Seq<LineView> {
    let blocks = decimal(estimate.unsigned_or_zero("blockcount"@) as nat);
    seq![
        line2(
            "cln_bitcoin_feerate_estimate_perkw"@,
            "blocks"@,
            blocks,
            "kind"@,
            "raw"@,
            integer(estimate.unsigned_or_zero("feerate"@) as int),
        ),
        line2(
            "cln_bitcoin_feerate_estimate_perkw"@,
            "blocks"@,
            blocks,
            "kind"@,
            "smoothed"@,
            integer(estimate.unsigned_or_zero("smoothed_feerate"@) as int),
        ),
    ]
}

/// The feerates of every estimate.
pub open spec fn estimates_lines(estimates: Seq<Json>) -> Seq<LineView>
    decreases estimates.len(),
{
    if estimates.len() == 0 {
        Seq::empty()
    } else {
        estimates_lines(estimates.drop_last()) + estimate_lines(estimates.last())
    }
}

/// The estimated fees of every kind of transaction.
pub open spec fn fee_estimates_lines(fields: Seq<(String, Json)>) -> Seq<LineView>
    decreases fields.len(),
{
    if fields.len() == 0 {
        Seq::empty()
    } else {
        fee_estimates_lines(fields.drop_last()) + match fields.last().1.unsigned() {
            Some(satoshis) => seq![
                line1(
                    "cln_bitcoin_onchain_fee_estimate_sat"@,
                    "transaction"@,
                    fields.last().0@,
                    integer(satoshis as int),
                ),
            ],
            None => Seq::empty(),
        }
    }
}

/// What is written of the feerates per kiloweight.
pub open spec fn perkw_lines(value: Json) -> Seq<LineView> {
    match value.field("perkw"@) {
        Some(perkw) => purposes_lines(perkw) + estimates_lines(perkw.elements_at("estimates"@)),
        None => seq![],
    }
}

/// What is written of the fees of whole transactions.
pub open spec fn onchain_fees_lines(value: Json) -> Seq<LineView> {
    match value.field("onchain_fee_estimates"@) {
        Some(estimates) => match estimates.members() {
            Some(fields) => fee_estimates_lines(fields),
            None => seq![],
        },
        None => seq![],
    }
}

/// What is written of a `feerates` response.
pub open spec fn feerates_lines(value: Json) -> Seq<LineView> {
    perkw_lines(value) + onchain_fees_lines(value) + seq![
        line0(
            "cln_bitcoin_feerates_available"@,
            truth(value.field("warning_missing_feerates"@) is None),
        ),
    ]
}

fn collect_purpose(metrics: &mut Metrics, perkw: &Json, purpose: &str)
    ensures
        final(metrics)@ == old(metrics)@ + purpose_line(*perkw, purpose@),
{
    if let Some(rate) = perkw.u64_field(purpose) {
        metrics.sample1("cln_bitcoin_feerate_perkw", "purpose", purpose, unsigned_value(rate));
    }
    assert(metrics@ =~= old(metrics)@ + purpose_line(*perkw, purpose@));
}

fn collect_purposes(metrics: &mut Metrics, perkw: &Json)
    ensures
        final(metrics)@ == old(metrics)@ + purposes_lines(*perkw),
{
    collect_purpose(metrics, perkw, "opening");
    collect_purpose(metrics, perkw, "mutual_close");
    collect_purpose(metrics, perkw, "unilateral_close");
    collect_purpose(metrics, perkw, "unilateral_anchor_close");
    collect_purpose(metrics, perkw, "penalty");
    collect_purpose(metrics, perkw, "splice");
    collect_purpose(metrics, perkw, "floor");
    collect_purpose(metrics, perkw, "min_acceptable");
    collect_purpose(metrics, perkw, "max_acceptable");
    assert(metrics@ =~= old(metrics)@ + purposes_lines(*perkw));
}

fn collect_estimate(metrics: &mut Metrics, estimate: &Json)
    ensures
        final(metrics)@ == old(metrics)@ + estimate_lines(*estimate),
{
    let blocks = decimal_text(estimate.u64_field_or_zero("blockcount") as u128);
    metrics.sample2(
        "cln_bitcoin_feerate_estimate_perkw",
        "blocks",
        blocks.as_str(),
        "kind",
        "raw",
        unsigned_value(estimate.u64_field_or_zero("feerate")),
    );
    metrics.sample2(
        "cln_bitcoin_feerate_estimate_perkw",
        "blocks",
        blocks.as_str(),
        "kind",
        "smoothed",
        unsigned_value(estimate.u64_field_or_zero("smoothed_feerate")),
    );
    assert(metrics@ =~= old(metrics)@ + estimate_lines(*estimate));
}

fn collect_perkw(metrics: &mut Metrics, value: &Json)
    ensures
        final(metrics)@ == old(metrics)@ + perkw_lines(*value),
{
    if let Some(perkw) = value.get("perkw") {
        collect_purposes(metrics, perkw);
        if let Some(estimates) = perkw.array_field("estimates") {
            let ghost head = metrics@;
            let mut i: usize = 0;
            assert(estimates@.take(0) =~= seq![]);
            while i < estimates.len()
                invariant
                    i <= estimates@.len(),
                    metrics@ =~= head + estimates_lines(estimates@.take(i as int)),
                decreases estimates@.len() - i,
            {
                assert(estimates@.take(i + 1).drop_last() =~= estimates@.take(i as int));
                collect_estimate(metrics, &estimates[i]);
                i = i + 1;
            }
            assert(estimates@.take(i as int) =~= estimates@);
        }
    }
    assert(metrics@ =~= old(metrics)@ + perkw_lines(*value));
}

fn collect_onchain_fees(metrics: &mut Metrics, value: &Json)
    ensures
        final(metrics)@ == old(metrics)@ + onchain_fees_lines(*value),
{
    if let Some(estimates) = value.get("onchain_fee_estimates") {
        if let Some(fields) = estimates.as_object() {
            let mut i: usize = 0;
            assert(fields@.take(0) =~= seq![]);
            while i < fields.len()
                invariant
                    i <= fields@.len(),
                    metrics@ =~= old(metrics)@ + fee_estimates_lines(fields@.take(i as int)),
                decreases fields@.len() - i,
            {
                assert(fields@.take(i + 1).drop_last() =~= fields@.take(i as int));
                if let Some(satoshis) = fields[i].1.as_u64() {
                    metrics.sample1(
                        "cln_bitcoin_onchain_fee_estimate_sat",
                        "transaction",
                        fields[i].0.as_str(),
                        unsigned_value(satoshis),
                    );
                }
                i = i + 1;
            }
            assert(fields@.take(i as int) =~= fields@);
        }
    }
    assert(metrics@ =~= old(metrics)@ + onchain_fees_lines(*value));
}

/// Writes what a `feerates` response says.
pub fn collect_feerates(metrics: &mut Metrics, value: &Json)
    ensures
        final(metrics)@ == old(metrics)@ + feerates_lines(*value),
{
    collect_perkw(metrics, value);
    collect_onchain_fees(metrics, value);
    metrics.sample0(
        "cln_bitcoin_feerates_available",
        truth_value(value.get("warning_missing_feerates").is_none()),
    );
    assert(metrics@ =~= old(metrics)@ + feerates_lines(*value));
}

/// The last part of a path.
pub open spec fn base_name(path: Seq<char>) -> Seq<char> {
    if last_position(path, '/') >= 0 {
        path.skip(last_position(path, '/') + 1)
    } else {
        path
    }
}

/// Whether a plugin is an active backup plugin.
pub open spec fn is_active_backup(plugin: Json) -> bool {
    let name = base_name(plugin.text_or("name"@, "unknown"@));
    (name == "backup"@ || name == "backup.py"@) && plugin.holds("active"@)
}

/// What is written of one plugin.
pub open spec fn plugin_lines(plugin: Json) -> Seq<LineView> {
    let name = plugin.text_or("name"@, "unknown"@);
    seq![
        line1("cln_plugin_active"@, "plugin"@, name, truth(plugin.holds("active"@))),
        line1("cln_plugin_dynamic"@, "plugin"@, name, truth(plugin.holds("dynamic"@))),
    ]
}

/// What is written of every plugin.
pub open spec fn each_plugin_lines(plugins: Seq<Json>) -> Seq<LineView>
    decreases plugins.len(),
{
    if plugins.len() == 0 {
        Seq::empty()
    } else {
        each_plugin_lines(plugins.drop_last()) + plugin_lines(plugins.last())
    }
}

/// What is written of a response that lists the plugins.
pub open spec fn plugins_lines(value: Json) -> Seq<LineView> {
    let plugins = value.elements_at("plugins"@);
    each_plugin_lines(plugins) + seq![
        line0(
            "cln_backup_plugin_active"@,
            truth(exists|i: int| 0 <= i < plugins.len() && is_active_backup(#[trigger] plugins[i])),
        ),
        line0("cln_backup_freshness_supported"@, integer(0)),
    ]
}

fn active_backup(plugin: &Json) -> (r: bool)
    ensures
        r == is_active_backup(*plugin),
{
    let path = plugin.text_field_or("name", "unknown");
    let name = match split_last(path, '/') {
        Some((_, name)) => name,
        None => path,
    };
    (same_text(name, "backup") || same_text(name, "backup.py")) && plugin.flag("active")
}

/// Writes what a response that lists the plugins says.
pub fn collect_plugins(metrics: &mut Metrics, value: &Json)
    ensures
        final(metrics)@ == old(metrics)@ + plugins_lines(*value),
{
    let mut backup_active = false;
    if let Some(plugins) = value.array_field("plugins") {
        let mut i: usize = 0;
        assert(plugins@.take(0) =~= seq![]);
        while i < plugins.len()
            invariant
                i <= plugins@.len(),
                metrics@ =~= old(metrics)@ + each_plugin_lines(plugins@.take(i as int)),
                backup_active == (exists|j: int|
                    0 <= j < i && is_active_backup(#[trigger] plugins@[j])),
            decreases plugins@.len() - i,
        {
            assert(plugins@.take(i + 1).drop_last() =~= plugins@.take(i as int));
            let name = plugins[i].text_field_or("name", "unknown");
            if active_backup(&plugins[i]) {
                backup_active = true;
            }
            metrics.sample1(
                "cln_plugin_active",
                "plugin",
                name,
                truth_value(plugins[i].flag("active")),
            );
            metrics.sample1(
                "cln_plugin_dynamic",
                "plugin",
                name,
                truth_value(plugins[i].flag("dynamic")),
            );
            i = i + 1;
        }
        assert(plugins@.take(i as int) =~= plugins@);
    }
    metrics.sample0("cln_backup_plugin_active", truth_value(backup_active));
    metrics.sample0("cln_backup_freshness_supported", SampleValue::Unsigned(0));
    assert(metrics@ =~= old(metrics)@ + plugins_lines(*value));
}

/// Whether an output is confirmed and not reserved.
pub open spec fn is_available(output: Json) -> bool {
    output.text_at("status"@) == Some("confirmed"@) && !output.holds("reserved"@)
}

/// The sum of the available outputs.
pub open spec fn available_msat(outputs: Seq<Json>) -> int
    decreases outputs.len(),
{
    if outputs.len() == 0 {
        0
    } else {
        available_msat(outputs.drop_last()) + if is_available(outputs.last()) {
            outputs.last().millisatoshi_or_zero("amount_msat"@) as int
        } else {
            0
        }
    }
}

/// Whether a channel is an anchor channel that still has something to close.
pub open spec fn needs_anchor(channel: Json) -> bool {
    is_anchor(channel) && channel.text_at("state"@) != Some("CLOSED"@) && channel.text_at("state"@)
        != Some("CLOSINGD_COMPLETE"@)
}

/// How many channels may need fees for an anchor close.
pub open spec fn anchor_channels(channels: Seq<Json>) -> int
    decreases channels.len(),
{
    if channels.len() == 0 {
        0
    } else {
        anchor_channels(channels.drop_last()) + if needs_anchor(channels.last()) {
            1int
        } else {
            0
        }
    }
}

/// The estimated fee of a unilateral close.
pub open spec fn close_fee_msat(feerates: Json) -> u64 {
    match feerates.field2("onchain_fee_estimates"@, "unilateral_close_satoshis"@) {
        Some(satoshis) => match satoshis.unsigned() {
            Some(satoshis) => capped_product(satoshis, 1000),
            None => 0,
        },
        None => 0,
    }
}

/// The configured emergency reserve.
pub open spec fn configured_reserve(configs: Json) -> u64 {
    match configs.field2("configs"@, "min-emergency-msat"@) {
        Some(config) => config.millisatoshi_or_zero("value_msat"@),
        None => 0,
    }
}

/// What is written of the reserve for anchor closes: what the channels may need, against what the
/// wallet has available.
pub open spec fn anchor_tank_lines(
    funds: Json,
    channels: Json,
    feerates: Json,
    configs: Json,
) -> Seq<LineView> {
    let available = available_msat(funds.elements_at("outputs"@));
    let count = anchor_channels(channels.elements_at("channels"@));
    let estimated = capped_product(close_fee_msat(feerates), count as u64) as int;
    let configured = configured_reserve(configs) as int;
    let required = if estimated > configured {
        estimated
    } else {
        configured
    };
    seq![
        line0("cln_anchor_channels"@, integer(count)),
        line0("cln_anchor_tank_available_msat"@, integer(available)),
        line0("cln_anchor_tank_configured_minimum_msat"@, integer(configured)),
        line0("cln_anchor_tank_estimated_required_msat"@, integer(estimated)),
        line0(
            "cln_anchor_tank_shortfall_msat"@,
            integer(difference_or_zero(required, available)),
        ),
        line0("cln_anchor_tank_coverage_ratio"@, share(available, required, 1)),
    ]
}

fn sum_available(funds: &Json) -> (r: u128)
    ensures
        r == available_msat(funds.elements_at("outputs"@)),
{
    let mut sum: u128 = 0;
    if let Some(outputs) = funds.array_field("outputs") {
        let mut i: usize = 0;
        assert(outputs@.take(0) =~= seq![]);
        while i < outputs.len()
            invariant
                i <= outputs@.len(),
                sum == available_msat(outputs@.take(i as int)),
                sum <= i * u64::MAX,
            decreases outputs@.len() - i,
        {
            assert(outputs@.take(i + 1).drop_last() =~= outputs@.take(i as int));
            assert(i * u64::MAX + u64::MAX == (i + 1) * u64::MAX) by (nonlinear_arith);
            assert((i + 1) * u64::MAX <= u128::MAX) by (nonlinear_arith)
                requires
                    i < usize::MAX,
            ;
            let confirmed = match outputs[i].text_field("status") {
                Some(status) => same_text(status, "confirmed"),
                None => false,
            };
            if confirmed && !outputs[i].flag("reserved") {
                sum = sum + outputs[i].msat_field_or_zero("amount_msat") as u128;
            }
            i = i + 1;
        }
        assert(outputs@.take(i as int) =~= outputs@);
    }
    sum
}

fn count_anchor_channels(value: &Json) -> (r: usize)
    ensures
        r == anchor_channels(value.elements_at("channels"@)),
{
    let mut count: usize = 0;
    if let Some(channels) = value.array_field("channels") {
        let mut i: usize = 0;
        assert(channels@.take(0) =~= seq![]);
        while i < channels.len()
            invariant
                i <= channels@.len(),
                count == anchor_channels(channels@.take(i as int)),
                count <= i,
            decreases channels@.len() - i,
        {
            assert(channels@.take(i + 1).drop_last() =~= channels@.take(i as int));
            let closed = match channels[i].text_field("state") {
                Some(state) => same_text(state, "CLOSED") || same_text(state, "CLOSINGD_COMPLETE"),
                None => false,
            };
            if channel_is_anchor(&channels[i]) && !closed {
                count = count + 1;
            }
            i = i + 1;
        }
        assert(channels@.take(i as int) =~= channels@);
    }
    count
}

/// Writes how the reserve for anchor closes stands.
pub fn collect_anchor_tank(
    metrics: &mut Metrics,
    funds: &Json,
    channels: &Json,
    feerates: &Json,
    configs: &Json,
)
    ensures
        final(metrics)@ == old(metrics)@ + anchor_tank_lines(
            *funds,
            *channels,
            *feerates,
            *configs,
        ),
{
    let available: u128 = sum_available(funds);
    let count: usize = count_anchor_channels(channels);
    let close_fee: u64 = match feerates.get2("onchain_fee_estimates", "unilateral_close_satoshis") {
        Some(satoshis) => match satoshis.as_u64() {
            Some(satoshis) => multiply_capped(satoshis, 1000),
            None => 0,
        },
        None => 0,
    };
    let estimated: u64 = multiply_capped(close_fee, count as u64);
    let configured: u64 = match configs.get2("configs", "min-emergency-msat") {
        Some(config) => config.msat_field_or_zero("value_msat"),
        None => 0,
    };
    let required: u64 = if estimated > configured {
        estimated
    } else {
        configured
    };
    metrics.sample0("cln_anchor_channels", unsigned_value(count as u64));
    metrics.sample0("cln_anchor_tank_available_msat", SampleValue::Unsigned(available));
    metrics.sample0("cln_anchor_tank_configured_minimum_msat", unsigned_value(configured));
    metrics.sample0("cln_anchor_tank_estimated_required_msat", unsigned_value(estimated));
    metrics.sample0(
        "cln_anchor_tank_shortfall_msat",
        SampleValue::Unsigned((required as u128).saturating_sub(available)),
    );
    metrics.sample0(
        "cln_anchor_tank_coverage_ratio",
        share_value(available, required as u128, 1),
    );
    assert(metrics@ =~= old(metrics)@ + anchor_tank_lines(*funds, *channels, *feerates, *configs));
}

/// What is written of the terms of a liquidity advertisement.
pub open spec fn advertisement_lines(ad: Json) -> Seq<LineView> {
    seq![line0("cln_liquidity_advertisement_enabled"@, integer(1))] + optional_line(
        "cln_liquidity_ad_lease_fee_base_msat"@,
        ad.millisatoshi_at("lease_fee_base_msat"@),
    ) + optional_line(
        "cln_liquidity_ad_lease_fee_basis"@,
        ad.unsigned_at("lease_fee_basis"@),
    ) + optional_line("cln_liquidity_ad_funding_weight"@, ad.unsigned_at("funding_weight"@))
        + optional_line(
        "cln_liquidity_ad_channel_fee_max_proportional_thousandths"@,
        ad.unsigned_at("channel_fee_max_proportional_thousandths"@),
    ) + optional_line(
        "cln_liquidity_ad_channel_fee_max_base_msat"@,
        ad.millisatoshi_at("channel_fee_max_base_msat"@),
    )
}

/// The advertisement of the node that a `listnodes` response names first.
pub open spec fn advertisement(value: Json) -> Option<Json> {
    let nodes = value.elements_at("nodes"@);
    if nodes.len() == 0 {
        None
    } else {
        nodes[0].field("option_will_fund"@)
    }
}

/// What is written of a `listnodes` response.
pub open spec fn liquidity_ad_lines(value: Json) -> Seq<LineView> {
    match advertisement(value) {
        Some(ad) => advertisement_lines(ad),
        None => seq![line0("cln_liquidity_advertisement_enabled"@, integer(0))],
    }
}

fn advertised(value: &Json) -> (r: Option<&Json>)
    ensures
        referent(r) == advertisement(*value),
{
    match value.array_field("nodes") {
        Some(nodes) => if nodes.len() > 0 {
            nodes[0].get("option_will_fund")
        } else {
            None
        },
        None => None,
    }
}

/// Writes what a `listnodes` response says of the node's liquidity advertisement.
pub fn collect_liquidity_ad(metrics: &mut Metrics, value: &Json)
    ensures
        final(metrics)@ == old(metrics)@ + liquidity_ad_lines(*value),
{
    match advertised(value) {
        Some(ad) => {
            metrics.sample0("cln_liquidity_advertisement_enabled", SampleValue::Unsigned(1));
            optional_sample(
                metrics,
                "cln_liquidity_ad_lease_fee_base_msat",
                ad.msat_field("lease_fee_base_msat"),
            );
            optional_sample(
                metrics,
                "cln_liquidity_ad_lease_fee_basis",
                ad.u64_field("lease_fee_basis"),
            );
            optional_sample(
                metrics,
                "cln_liquidity_ad_funding_weight",
                ad.u64_field("funding_weight"),
            );
            optional_sample(
                metrics,
                "cln_liquidity_ad_channel_fee_max_proportional_thousandths",
                ad.u64_field("channel_fee_max_proportional_thousandths"),
            );
            optional_sample(
                metrics,
                "cln_liquidity_ad_channel_fee_max_base_msat",
                ad.msat_field("channel_fee_max_base_msat"),
            );
        },
        None => {
            metrics.sample0("cln_liquidity_advertisement_enabled", SampleValue::Unsigned(0));
        },
    }
    assert(metrics@ =~= old(metrics)@ + liquidity_ad_lines(*value));
}

} // verus!
