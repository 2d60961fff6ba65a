//! What the metrics of the node say: each in terms of what the node reports of itself.

use crate::accounting::{
    account_lines, active_rescans, apy_lines, balance_lines, bookkeeper_lines, bwatch_lines,
    channel_apy_lines, channel_percentages, counters_lines, descriptors_lines, each_apy_lines,
    incident_counts, incident_lines, other_accounts, other_lines, percentage, percentages_of,
    rescan_sum, tracker_lines,
};
use crate::channels::is_anchor;
use crate::event_metrics::pair_lines;
use crate::exposition::{LineView, ValueView};
use crate::json::Json;
use crate::node::{
    advertisement, anchor_channels, anchor_tank_lines, available_msat, base_name, close_fee_msat,
    configured_reserve, each_plugin_lines, estimate_lines, estimates_lines, fee_estimates_lines,
    feerates_lines, fund_totals, funds_lines, is_active_backup, liquidity_ad_lines, node_lines,
    onchain_fees_lines, optional_line, peers_lines, perkw_lines, plugin_lines, plugins_lines,
    purpose_line, purposes_lines,
};
use crate::ordered::{
    ascending, law_put_then_get, lemma_place_of, place_of, raised, value_of, Entries,
};
use crate::readings::{lemma_joined, misses, says, says_share, says_whether};
use crate::text::{decimal, last_position};
use crate::totals::sum_of;
use vstd::prelude::*;

verus! {

/// No labels.
pub open spec fn unlabelled() -> Seq<(Seq<char>, Seq<char>)> {
    Seq::empty()
}

proof fn lemma_optional(metric: Seq<char>, amount: Option<u64>)
    ensures
        amount matches Some(n) ==> says(
            optional_line(metric, amount),
            metric,
            unlabelled(),
            ValueView::Integer(n as int),
        ),
        amount is None ==> optional_line(metric, amount).len() == 0,
{
    if amount is Some {
        let lines = optional_line(metric, amount);
        assert(lines.contains(lines[0]));
    }
}

/// The node is shown with its id, its network and its version, its height, whether it keeps up with
/// the chain and with the network, and the fees that it collected.
pub proof fn law_the_node_is_shown(value: Json)
    ensures
        ({
            let all = node_lines(value);
            &&& says(
                all,
                "cln_node_info"@,
                seq![
                    ("id"@, value.text_or("id"@, "unknown"@)),
                    ("network"@, value.text_or("network"@, "unknown"@)),
                    ("version"@, value.text_or("version"@, "unknown"@)),
                ],
                ValueView::Integer(1),
            )
            &&& value.unsigned_at("blockheight"@) matches Some(height) ==> says(
                all,
                "cln_node_blockheight"@,
                unlabelled(),
                ValueView::Integer(height as int),
            )
            &&& says_whether(
                all,
                "cln_node_bitcoin_synced"@,
                unlabelled(),
                value.field("warning_bitcoind_sync"@) is None,
            )
            &&& says_whether(
                all,
                "cln_node_lightning_synced"@,
                unlabelled(),
                value.field("warning_lightningd_sync"@) is None,
            )
            &&& value.millisatoshi_at("fees_collected_msat"@) matches Some(fees) ==> says(
                all,
                "cln_routing_fees_collected_msat"@,
                unlabelled(),
                ValueView::Integer(fees as int),
            )
            &&& all.len() == if value.millisatoshi_at("fees_collected_msat"@) is Some {
                5int
            } else {
                4int
            }
        }),
{
    let all = node_lines(value);
    assert(all.contains(all[0]));
    assert(all.contains(all[1]));
    assert(all.contains(all[2]));
    assert(all.contains(all[3]));
    if value.millisatoshi_at("fees_collected_msat"@) is Some {
        assert(all.contains(all[4]));
    }
}

/// Adding an amount to the total of a key raises it by the amount and leaves the others.
pub proof fn lemma_raised_totals(
    entries: Entries<u128>,
    key: Seq<Seq<char>>,
    amount: int,
    other: Seq<Seq<char>>,
)
    requires
        ascending(entries),
    ensures
        ascending(raised(entries, key, amount)),
        other != key ==> value_of(raised(entries, key, amount), other) == value_of(entries, other),
        ({
            let before = match value_of(entries, key) {
                Some(total) => total as int,
                None => 0,
            };
            0 <= before + amount <= u128::MAX ==> value_of(raised(entries, key, amount), key)
                == Some((before + amount) as u128)
        }),
{
    let total = match value_of(entries, key) {
        Some(total) => total as int,
        None => 0,
    };
    let value = if total + amount > u128::MAX {
        u128::MAX
    } else {
        (total + amount) as u128
    };
    law_put_then_get(entries, key, value, other);
}

/// What an output adds to the funds of a status.
pub open spec fn of_status(status: Seq<char>) -> spec_fn(Json) -> int {
    |output: Json|
        if output.text_or("status"@, "unknown"@) == status {
            output.millisatoshi_or_zero("amount_msat"@) as int
        } else {
            0
        }
}

/// A sum of amounts that are not negative is not, and none of its parts is greater.
pub proof fn lemma_sum_grows(items: Seq<Json>, amount: spec_fn(Json) -> int)
    requires
        forall|item: Json| #[trigger] amount(item) >= 0,
    ensures
        sum_of(items, amount) >= 0,
        items.len() > 0 ==> sum_of(items, amount) >= sum_of(items.drop_last(), amount),
    decreases items.len(),
{
    if items.len() > 0 {
        lemma_sum_grows(items.drop_last(), amount);
        assert(amount(items.last()) >= 0);
    }
}

proof fn lemma_funds_add_up(outputs: Seq<Json>, status: Seq<char>)
    requires
        sum_of(outputs, of_status(status)) <= u128::MAX,
    ensures
        ascending(fund_totals(outputs)),
        match value_of(fund_totals(outputs), seq![status]) {
            Some(total) => total == sum_of(outputs, of_status(status)),
            None => sum_of(outputs, of_status(status)) == 0 && forall|i: int|
                0 <= i < outputs.len() ==> (#[trigger] outputs[i]).text_or("status"@, "unknown"@)
                    != status,
        },
    decreases outputs.len(),
{
    if outputs.len() > 0 {
        let front = outputs.drop_last();
        let own = outputs.last().text_or("status"@, "unknown"@);
        assert(forall|item: Json| #[trigger] of_status(status)(item) >= 0);
        lemma_sum_grows(outputs, of_status(status));
        lemma_funds_add_up(front, status);
        lemma_raised_totals(
            fund_totals(front),
            seq![own],
            outputs.last().millisatoshi_or_zero("amount_msat"@) as int,
            seq![status],
        );
        if own != status {
            assert(seq![own][0] != seq![status][0]);
        }
        assert forall|i: int| 0 <= i < front.len() implies front[i] == #[trigger] outputs[i] by {}
        lemma_sum_grows(front, of_status(status));
    }
}

/// The funds on the chain are shown by status: of every status that an output has, the sum of the
/// outputs that have it.
pub proof fn law_funds_are_summed_by_status(value: Json, i: int)
    requires
        0 <= i < value.elements_at("outputs"@).len(),
        ({
            let outputs = value.elements_at("outputs"@);
            sum_of(outputs, of_status(outputs[i].text_or("status"@, "unknown"@))) <= u128::MAX
        }),
    ensures
        ({
            let outputs = value.elements_at("outputs"@);
            let status = outputs[i].text_or("status"@, "unknown"@);
            says(
                funds_lines(value),
                "cln_wallet_onchain_msat"@,
                seq![("status"@, status)],
                ValueView::Integer(
                    sum_of(
                        outputs,
                        |output: Json|
                            if output.text_or("status"@, "unknown"@) == status {
                                output.millisatoshi_or_zero("amount_msat"@) as int
                            } else {
                                0
                            },
                    ),
                ),
            )
        }),
{
    let outputs = value.elements_at("outputs"@);
    let status = outputs[i].text_or("status"@, "unknown"@);
    lemma_funds_add_up(outputs, status);
    assert(of_status(status) =~= |output: Json|
        if output.text_or("status"@, "unknown"@) == status {
            output.millisatoshi_or_zero("amount_msat"@) as int
        } else {
            0
        });
    let totals = fund_totals(outputs);
    lemma_place_of(totals, seq![status]);
    let at = place_of(totals, seq![status]);
    let lines = funds_lines(value);
    assert(seq![status][0] == status);
    assert(lines.contains(lines[at]));
}

/// Every peer is shown, as connected or not.
pub proof fn law_peers_are_shown(value: Json, i: int)
    requires
        0 <= i < value.elements_at("peers"@).len(),
    ensures
        says_whether(
            peers_lines(value),
            "cln_peer_connected"@,
            seq![("peer"@, value.elements_at("peers"@)[i].text_or("id"@, "unknown"@))],
            value.elements_at("peers"@)[i].field("connected"@) == Some(Json::Bool(true)),
        ),
        peers_lines(value).len() == value.elements_at("peers"@).len(),
{
    let lines = peers_lines(value);
    assert(lines.contains(lines[i]));
}

/// The purposes that a feerate is known for.
pub open spec fn is_purpose(purpose: Seq<char>) -> bool {
    ||| purpose == "opening"@
    ||| purpose == "mutual_close"@
    ||| purpose == "unilateral_close"@
    ||| purpose == "unilateral_anchor_close"@
    ||| purpose == "penalty"@
    ||| purpose == "splice"@
    ||| purpose == "floor"@
    ||| purpose == "min_acceptable"@
    ||| purpose == "max_acceptable"@
}

proof fn lemma_purpose_is_shown(perkw: Json, purpose: Seq<char>, rate: u64)
    requires
        is_purpose(purpose),
        perkw.unsigned_at(purpose) == Some(rate),
    ensures
        says(
            purposes_lines(perkw),
            "cln_bitcoin_feerate_perkw"@,
            seq![("purpose"@, purpose)],
            ValueView::Integer(rate as int),
        ),
{
    let a = purpose_line(perkw, "opening"@);
    let b = purpose_line(perkw, "mutual_close"@);
    let c = purpose_line(perkw, "unilateral_close"@);
    let d = purpose_line(perkw, "unilateral_anchor_close"@);
    let e = purpose_line(perkw, "penalty"@);
    let f = purpose_line(perkw, "splice"@);
    let g = purpose_line(perkw, "floor"@);
    let h = purpose_line(perkw, "min_acceptable"@);
    let i = purpose_line(perkw, "max_acceptable"@);
    lemma_joined(a, b);
    lemma_joined(a + b, c);
    lemma_joined(a + b + c, d);
    lemma_joined(a + b + c + d, e);
    lemma_joined(a + b + c + d + e, f);
    lemma_joined(a + b + c + d + e + f, g);
    lemma_joined(a + b + c + d + e + f + g, h);
    lemma_joined(a + b + c + d + e + f + g + h, i);
    let own = purpose_line(perkw, purpose);
    assert(own.contains(own[0]));
}

proof fn lemma_estimate_is_shown(estimates: Seq<Json>, i: int)
    requires
        0 <= i < estimates.len(),
    ensures
        forall|x: LineView| #[trigger]
            estimate_lines(estimates[i]).contains(x) ==> estimates_lines(estimates).contains(x),
    decreases estimates.len(),
{
    let front = estimates.drop_last();
    lemma_joined(estimates_lines(front), estimate_lines(estimates.last()));
    if i < front.len() {
        lemma_estimate_is_shown(front, i);
        assert(front[i] == estimates[i]);
    }
}

/// The feerates are shown by purpose, and the estimates by the number of blocks, raw and smoothed.
pub proof fn law_feerates_are_shown(value: Json, perkw: Json)
    requires
        value.field("perkw"@) == Some(perkw),
    ensures
        forall|purpose: Seq<char>|
            is_purpose(purpose) && (#[trigger] perkw.unsigned_at(purpose)) is Some ==> says(
                feerates_lines(value),
                "cln_bitcoin_feerate_perkw"@,
                seq![("purpose"@, purpose)],
                ValueView::Integer(perkw.unsigned_at(purpose)->0 as int),
            ),
        forall|i: int|
            0 <= i < perkw.elements_at("estimates"@).len() ==> {
                let estimate = #[trigger] perkw.elements_at("estimates"@)[i];
                let blocks = decimal(estimate.unsigned_or_zero("blockcount"@) as nat);
                &&& says(
                    feerates_lines(value),
                    "cln_bitcoin_feerate_estimate_perkw"@,
                    seq![("blocks"@, blocks), ("kind"@, "raw"@)],
                    ValueView::Integer(estimate.unsigned_or_zero("feerate"@) as int),
                )
                &&& says(
                    feerates_lines(value),
                    "cln_bitcoin_feerate_estimate_perkw"@,
                    seq![("blocks"@, blocks), ("kind"@, "smoothed"@)],
                    ValueView::Integer(estimate.unsigned_or_zero("smoothed_feerate"@) as int),
                )
            },
{
    let all = feerates_lines(value);
    let purposes = purposes_lines(perkw);
    let estimates = estimates_lines(perkw.elements_at("estimates"@));
    let last = all.subrange(all.len() - 1, all.len() as int);
    lemma_joined(purposes, estimates);
    lemma_joined(perkw_lines(value), onchain_fees_lines(value));
    lemma_joined(perkw_lines(value) + onchain_fees_lines(value), last);
    assert(all =~= perkw_lines(value) + onchain_fees_lines(value) + last);
    assert forall|purpose: Seq<char>|
        is_purpose(purpose) && (#[trigger] perkw.unsigned_at(purpose)) is Some implies says(
        all,
        "cln_bitcoin_feerate_perkw"@,
        seq![("purpose"@, purpose)],
        ValueView::Integer(perkw.unsigned_at(purpose)->0 as int),
    ) by {
        lemma_purpose_is_shown(perkw, purpose, perkw.unsigned_at(purpose)->0);
    }
    assert forall|i: int| 0 <= i < perkw.elements_at("estimates"@).len() implies {
        let estimate = #[trigger] perkw.elements_at("estimates"@)[i];
        let blocks = decimal(estimate.unsigned_or_zero("blockcount"@) as nat);
        &&& says(
            all,
            "cln_bitcoin_feerate_estimate_perkw"@,
            seq![("blocks"@, blocks), ("kind"@, "raw"@)],
            ValueView::Integer(estimate.unsigned_or_zero("feerate"@) as int),
        )
        &&& says(
            all,
            "cln_bitcoin_feerate_estimate_perkw"@,
            seq![("blocks"@, blocks), ("kind"@, "smoothed"@)],
            ValueView::Integer(estimate.unsigned_or_zero("smoothed_feerate"@) as int),
        )
    } by {
        let estimate = perkw.elements_at("estimates"@)[i];
        lemma_estimate_is_shown(perkw.elements_at("estimates"@), i);
        let own = estimate_lines(estimate);
        assert(own.contains(own[0]));
        assert(own.contains(own[1]));
    }
}

proof fn lemma_fee_estimate_is_shown(fields: Seq<(String, Json)>, i: int)
    requires
        0 <= i < fields.len(),
    ensures
        fields[i].1.unsigned() matches Some(satoshis) ==> says(
            fee_estimates_lines(fields),
            "cln_bitcoin_onchain_fee_estimate_sat"@,
            seq![("transaction"@, fields[i].0@)],
            ValueView::Integer(satoshis as int),
        ),
    decreases fields.len(),
{
    let front = fields.drop_last();
    let all = fee_estimates_lines(fields);
    let before = fee_estimates_lines(front);
    let own = all.subrange(before.len() as int, all.len() as int);
    assert(all =~= before + own);
    lemma_joined(before, own);
    if i < front.len() {
        lemma_fee_estimate_is_shown(front, i);
        assert(front[i] == fields[i]);
    } else if fields[i].1.unsigned() is Some {
        assert(own.contains(own[0]));
    }
}

/// The estimated fees on the chain are shown by kind of transaction, and it is shown whether the
/// feerates are there.
pub proof fn law_onchain_fees_are_shown(value: Json)
    ensures
        says_whether(
            feerates_lines(value),
            "cln_bitcoin_feerates_available"@,
            unlabelled(),
            value.field("warning_missing_feerates"@) is None,
        ),
        value.field("onchain_fee_estimates"@) matches Some(Json::Object(fields)) ==> forall|i: int|
            0 <= i < fields@.len() && (#[trigger] fields@[i]).1.unsigned() is Some ==> says(
                feerates_lines(value),
                "cln_bitcoin_onchain_fee_estimate_sat"@,
                seq![("transaction"@, fields@[i].0@)],
                ValueView::Integer(fields@[i].1.unsigned()->0 as int),
            ),
{
    let all = feerates_lines(value);
    let last = all.subrange(all.len() - 1, all.len() as int);
    lemma_joined(perkw_lines(value), onchain_fees_lines(value));
    lemma_joined(perkw_lines(value) + onchain_fees_lines(value), last);
    assert(all =~= perkw_lines(value) + onchain_fees_lines(value) + last);
    assert(all.contains(all[all.len() - 1]));
    if let Some(Json::Object(fields)) = value.field("onchain_fee_estimates"@) {
        assert forall|i: int| 0 <= i < fields@.len() && (#[trigger] fields@[i]).1.unsigned() is Some implies says(
            all,
            "cln_bitcoin_onchain_fee_estimate_sat"@,
            seq![("transaction"@, fields@[i].0@)],
            ValueView::Integer(fields@[i].1.unsigned()->0 as int),
        ) by {
            lemma_fee_estimate_is_shown(fields@, i);
        }
    }
}

pub proof fn lemma_last_position(s: Seq<char>, c: char)
    ensures
        -1 <= last_position(s, c) < s.len(),
        last_position(s, c) >= 0 ==> s[last_position(s, c)] == c,
        forall|i: int| last_position(s, c) < i < s.len() ==> #[trigger] s[i] != c,
    decreases s.len(),
{
    if s.len() > 0 && s.last() != c {
        lemma_last_position(s.drop_last(), c);
        assert forall|i: int| last_position(s, c) < i < s.len() implies #[trigger] s[i] != c by {
            if i < s.len() - 1 {
                assert(s.drop_last()[i] == s[i]);
            }
        }
    }
}

/// The name of a program is what stands behind the last slash of its path.
pub proof fn law_programs_are_named_without_their_directories(
    directory: Seq<char>,
    name: Seq<char>,
)
    requires
        !name.contains('/'),
    ensures
        base_name(name) == name,
        base_name(directory.push('/') + name) == name,
{
    lemma_last_position(name, '/');
    if last_position(name, '/') >= 0 {
        assert(name.contains(name[last_position(name, '/')]));
    }
    let path = directory.push('/') + name;
    lemma_last_position(path, '/');
    assert(path[directory.len() as int] == '/');
    let at = last_position(path, '/');
    if at > directory.len() {
        assert(path[at] == name[at - directory.len() - 1]);
        assert(name.contains(name[at - directory.len() - 1]));
    }
    assert(path.skip(directory.len() as int + 1) =~= name);
}

proof fn lemma_plugin_is_shown(plugins: Seq<Json>, i: int)
    requires
        0 <= i < plugins.len(),
    ensures
        forall|x: LineView| #[trigger]
            plugin_lines(plugins[i]).contains(x) ==> each_plugin_lines(plugins).contains(x),
    decreases plugins.len(),
{
    let front = plugins.drop_last();
    lemma_joined(each_plugin_lines(front), plugin_lines(plugins.last()));
    if i < front.len() {
        lemma_plugin_is_shown(front, i);
        assert(front[i] == plugins[i]);
    }
}

proof fn lemma_plugin_lines(plugins: Seq<Json>)
    ensures
        each_plugin_lines(plugins).len() == 2 * plugins.len(),
    decreases plugins.len(),
{
    if plugins.len() > 0 {
        lemma_plugin_lines(plugins.drop_last());
    }
}

/// Whether a program keeps a backup, and runs.
pub open spec fn backs_up(plugin: Json) -> bool {
    let name = base_name(plugin.text_or("name"@, "unknown"@));
    plugin.field("active"@) == Some(Json::Bool(true)) && (name == "backup"@ || name == "backup.py"@)
}

/// Every plugin is shown, as active or not and as dynamic or not. It is shown whether one of them keeps
/// a backup.
pub proof fn law_plugins_are_shown(value: Json, i: int)
    ensures
        ({
            let all = plugins_lines(value);
            let plugins = value.elements_at("plugins"@);
            &&& 0 <= i < plugins.len() ==> {
                let labels = seq![("plugin"@, plugins[i].text_or("name"@, "unknown"@))];
                &&& says_whether(
                    all,
                    "cln_plugin_active"@,
                    labels,
                    plugins[i].field("active"@) == Some(Json::Bool(true)),
                )
                &&& says_whether(
                    all,
                    "cln_plugin_dynamic"@,
                    labels,
                    plugins[i].field("dynamic"@) == Some(Json::Bool(true)),
                )
            }
            &&& says_whether(
                all,
                "cln_backup_plugin_active"@,
                unlabelled(),
                exists|j: int| 0 <= j < plugins.len() && backs_up(#[trigger] plugins[j]),
            )
            &&& says(
                all,
                "cln_backup_freshness_supported"@,
                unlabelled(),
                ValueView::Integer(0),
            )
            &&& all.len() == 2 * plugins.len() + 2
        }),
{
    lemma_plugin_lines(value.elements_at("plugins"@));
    let all = plugins_lines(value);
    let plugins = value.elements_at("plugins"@);
    let each = each_plugin_lines(plugins);
    let n = each.len() as int;
    let rest = all.subrange(n, n + 2);
    assert(all =~= each + rest);
    lemma_joined(each, rest);
    assert(all.contains(all[n]));
    assert(all.contains(all[n + 1]));
    assert forall|j: int| 0 <= j < plugins.len() implies is_active_backup(#[trigger] plugins[j])
        == backs_up(plugins[j]) by {}
    if exists|j: int| 0 <= j < plugins.len() && backs_up(#[trigger] plugins[j]) {
        let j = choose|j: int| 0 <= j < plugins.len() && backs_up(#[trigger] plugins[j]);
        assert(is_active_backup(plugins[j]));
    }
    if 0 <= i < plugins.len() {
        lemma_plugin_is_shown(plugins, i);
        let own = plugin_lines(plugins[i]);
        assert(own.contains(own[0]));
        assert(own.contains(own[1]));
    }
}

/// What an output adds to the funds that can be spent at once.
pub open spec fn at_hand() -> spec_fn(Json) -> int {
    |output: Json|
        if output.text_at("status"@) == Some("confirmed"@) && output.field("reserved"@) != Some(
            Json::Bool(true),
        ) {
            output.millisatoshi_or_zero("amount_msat"@) as int
        } else {
            0
        }
}

proof fn lemma_available(outputs: Seq<Json>)
    ensures
        available_msat(outputs) == sum_of(outputs, at_hand()),
    decreases outputs.len(),
{
    if outputs.len() > 0 {
        lemma_available(outputs.drop_last());
    }
}

/// Whether a channel may have to be closed with an anchor.
pub open spec fn is_open_anchor(channel: Json) -> bool {
    is_anchor(channel) && channel.text_at("state"@) != Some("CLOSED"@) && channel.text_at("state"@)
        != Some("CLOSINGD_COMPLETE"@)
}

proof fn lemma_anchors(channels: Seq<Json>)
    ensures
        anchor_channels(channels) == channels.filter(
            |channel: Json| is_open_anchor(channel),
        ).len(),
    decreases channels.len(),
{
    if channels.len() > 0 {
        lemma_anchors(channels.drop_last());
        crate::census::lemma_filter_grows(channels, |channel: Json| is_open_anchor(channel));
    } else {
        reveal(Seq::filter);
    }
}

/// The reserve for closing channels is shown against what closing all of them at once would take: the
/// estimated fee of one times their number, and at least what is configured.
pub proof fn law_the_anchor_reserve_is_shown(
    funds: Json,
    channels: Json,
    feerates: Json,
    configs: Json,
)
    requires
        close_fee_msat(feerates) * anchor_channels(channels.elements_at("channels"@)) <= u64::MAX,
        anchor_channels(channels.elements_at("channels"@)) <= u64::MAX,
    ensures
        ({
            let all = anchor_tank_lines(funds, channels, feerates, configs);
            let available = sum_of(funds.elements_at("outputs"@), at_hand());
            let count = channels.elements_at("channels"@).filter(
                |channel: Json| is_open_anchor(channel),
            ).len();
            let configured = configured_reserve(configs) as int;
            let estimated = close_fee_msat(feerates) * count;
            let none = unlabelled();
            &&& all.len() == 6
            &&& says(all, "cln_anchor_channels"@, none, ValueView::Integer(count as int))
            &&& says(
                all,
                "cln_anchor_tank_available_msat"@,
                none,
                ValueView::Integer(available),
            )
            &&& says(
                all,
                "cln_anchor_tank_configured_minimum_msat"@,
                none,
                ValueView::Integer(configured),
            )
            &&& says(
                all,
                "cln_anchor_tank_estimated_required_msat"@,
                none,
                ValueView::Integer(estimated),
            )
            &&& estimated >= configured ==> misses(
                all,
                none,
                "cln_anchor_tank_shortfall_msat"@,
                available,
                estimated,
            ) && says_share(
                all,
                "cln_anchor_tank_coverage_ratio"@,
                none,
                available,
                estimated,
                1,
            )
            &&& estimated <= configured ==> misses(
                all,
                none,
                "cln_anchor_tank_shortfall_msat"@,
                available,
                configured,
            ) && says_share(
                all,
                "cln_anchor_tank_coverage_ratio"@,
                none,
                available,
                configured,
                1,
            )
        }),
{
    let all = anchor_tank_lines(funds, channels, feerates, configs);
    lemma_available(funds.elements_at("outputs"@));
    lemma_anchors(channels.elements_at("channels"@));
    assert(all.contains(all[0]));
    assert(all.contains(all[1]));
    assert(all.contains(all[2]));
    assert(all.contains(all[3]));
    assert(all.contains(all[4]));
    assert(all.contains(all[5]));
}

/// The fee for closing a channel is the estimated one, in thousandths of a satoshi. The configured
/// reserve is what the configuration says.
pub proof fn law_reserves_are_read(feerates: Json, configs: Json)
    ensures
        feerates.field2("onchain_fee_estimates"@, "unilateral_close_satoshis"@) matches Some(found)
            ==> (found.unsigned() matches Some(satoshis) ==> (satoshis * 1000 <= u64::MAX
            ==> close_fee_msat(feerates) == satoshis * 1000)),
        feerates.field2("onchain_fee_estimates"@, "unilateral_close_satoshis"@) is None
            ==> close_fee_msat(feerates) == 0,
        configs.field2("configs"@, "min-emergency-msat"@) matches Some(config) ==> (
        config.millisatoshi_at("value_msat"@) matches Some(amount) ==> configured_reserve(configs)
            == amount),
        configs.field2("configs"@, "min-emergency-msat"@) is None ==> configured_reserve(configs)
            == 0,
{
}

/// The terms on which the node offers to fund channels are shown if it offers that at all.
pub proof fn law_the_liquidity_offer_is_shown(value: Json)
    ensures
        ({
            let all = liquidity_ad_lines(value);
            let nodes = value.elements_at("nodes"@);
            let none = unlabelled();
            &&& says_whether(
                all,
                "cln_liquidity_advertisement_enabled"@,
                none,
                nodes.len() > 0 && nodes[0].field("option_will_fund"@) is Some,
            )
            &&& nodes.len() == 0 || nodes[0].field("option_will_fund"@) is None ==> all.len() == 1
            &&& nodes.len() > 0 ==> (nodes[0].field("option_will_fund"@) matches Some(ad) ==> {
                &&& ad.millisatoshi_at("lease_fee_base_msat"@) matches Some(n) ==> says(
                    all,
                    "cln_liquidity_ad_lease_fee_base_msat"@,
                    none,
                    ValueView::Integer(n as int),
                )
                &&& ad.unsigned_at("lease_fee_basis"@) matches Some(n) ==> says(
                    all,
                    "cln_liquidity_ad_lease_fee_basis"@,
                    none,
                    ValueView::Integer(n as int),
                )
                &&& ad.unsigned_at("funding_weight"@) matches Some(n) ==> says(
                    all,
                    "cln_liquidity_ad_funding_weight"@,
                    none,
                    ValueView::Integer(n as int),
                )
                &&& ad.unsigned_at("channel_fee_max_proportional_thousandths"@) matches Some(n)
                    ==> says(
                    all,
                    "cln_liquidity_ad_channel_fee_max_proportional_thousandths"@,
                    none,
                    ValueView::Integer(n as int),
                )
                &&& ad.millisatoshi_at("channel_fee_max_base_msat"@) matches Some(n) ==> says(
                    all,
                    "cln_liquidity_ad_channel_fee_max_base_msat"@,
                    none,
                    ValueView::Integer(n as int),
                )
            })
        }),
{
    let all = liquidity_ad_lines(value);
    assert(all.contains(all[0]));
    if let Some(ad) = advertisement(value) {
        let a = seq![
            LineView::Sample {
                name: "cln_liquidity_advertisement_enabled"@,
                labels: unlabelled(),
                value: ValueView::Integer(1),
            },
        ];
        let b = optional_line(
            "cln_liquidity_ad_lease_fee_base_msat"@,
            ad.millisatoshi_at("lease_fee_base_msat"@),
        );
        let c = optional_line(
            "cln_liquidity_ad_lease_fee_basis"@,
            ad.unsigned_at("lease_fee_basis"@),
        );
        let d = optional_line(
            "cln_liquidity_ad_funding_weight"@,
            ad.unsigned_at("funding_weight"@),
        );
        let e = optional_line(
            "cln_liquidity_ad_channel_fee_max_proportional_thousandths"@,
            ad.unsigned_at("channel_fee_max_proportional_thousandths"@),
        );
        let f = optional_line(
            "cln_liquidity_ad_channel_fee_max_base_msat"@,
            ad.millisatoshi_at("channel_fee_max_base_msat"@),
        );
        assert(all == a + b + c + d + e + f);
        lemma_joined(a, b);
        lemma_joined(a + b, c);
        lemma_joined(a + b + c, d);
        lemma_joined(a + b + c + d, e);
        lemma_joined(a + b + c + d + e, f);
        lemma_optional(
            "cln_liquidity_ad_lease_fee_base_msat"@,
            ad.millisatoshi_at("lease_fee_base_msat"@),
        );
        lemma_optional("cln_liquidity_ad_lease_fee_basis"@, ad.unsigned_at("lease_fee_basis"@));
        lemma_optional("cln_liquidity_ad_funding_weight"@, ad.unsigned_at("funding_weight"@));
        lemma_optional(
            "cln_liquidity_ad_channel_fee_max_proportional_thousandths"@,
            ad.unsigned_at("channel_fee_max_proportional_thousandths"@),
        );
        lemma_optional(
            "cln_liquidity_ad_channel_fee_max_base_msat"@,
            ad.millisatoshi_at("channel_fee_max_base_msat"@),
        );
    }
}

/// A number in a part of a report.
pub open spec fn figure(value: Json, part: Seq<char>, name: Seq<char>) -> int {
    match value.field(part) {
        Some(found) => found.unsigned_or_zero(name) as int,
        None => 0,
    }
}

/// Whether an incident has that code and operation.
pub open spec fn is_incident(incident: Json, code: Seq<char>, operation: Seq<char>) -> bool {
    incident.text_or("code"@, "unknown"@) == code && incident.text_or("operation"@, "unknown"@)
        == operation
}

proof fn lemma_incidents(incidents: Seq<Json>, code: Seq<char>, operation: Seq<char>)
    requires
        incidents.len() <= u64::MAX,
    ensures
        ascending(incident_counts(incidents)),
        match value_of(incident_counts(incidents), seq![code, operation]) {
            Some(count) => count > 0 && count == incidents.filter(
                |incident: Json| is_incident(incident, code, operation),
            ).len(),
            None => incidents.filter(
                |incident: Json| is_incident(incident, code, operation),
            ).len() == 0,
        },
    decreases incidents.len(),
{
    if incidents.len() > 0 {
        let front = incidents.drop_last();
        let own = incidents.last();
        let a = own.text_or("code"@, "unknown"@);
        let b = own.text_or("operation"@, "unknown"@);
        lemma_incidents(front, code, operation);
        lemma_incidents(front, a, b);
        crate::census::lemma_filter_grows(
            incidents,
            |incident: Json| is_incident(incident, code, operation),
        );
        crate::census::lemma_filter_is_part(front, |incident: Json| is_incident(incident, a, b));
        crate::readings::lemma_incremented_counts(
            incident_counts(front),
            seq![a, b],
            seq![code, operation],
        );
        if a != code {
            assert(seq![a, b][0] != seq![code, operation][0]);
        } else if b != operation {
            assert(seq![a, b][1] != seq![code, operation][1]);
        }
    } else {
        reveal(Seq::filter);
    }
}

/// A count that is kept for a pair of keys is shown.
pub proof fn lemma_pair_is_shown(
    metric: Seq<char>,
    first: Seq<char>,
    second: Seq<char>,
    counts: Entries<u64>,
    a: Seq<char>,
    b: Seq<char>,
    count: u64,
)
    requires
        value_of(counts, seq![a, b]) == Some(count),
    ensures
        says(
            pair_lines(metric, first, second, counts),
            metric,
            seq![(first, a), (second, b)],
            ValueView::Integer(count as int),
        ),
{
    let i = place_of(counts, seq![a, b]);
    lemma_place_of(counts, seq![a, b]);
    let lines = pair_lines(metric, first, second, counts);
    assert(seq![a, b][0] == a);
    assert(seq![a, b][1] == b);
    assert(lines.contains(lines[i]));
}

/// The parts of what is shown of the tracker.
proof fn lemma_tracker(value: Json)
    ensures
        forall|x: LineView| #[trigger]
            descriptors_lines(value).contains(x) ==> tracker_lines(value).contains(x),
        forall|x: LineView| #[trigger]
            incident_lines(value.elements_at("incidents"@)).contains(x) ==> tracker_lines(
                value,
            ).contains(x),
        forall|x: LineView| #[trigger]
            bwatch_lines(value).contains(x) ==> tracker_lines(value).contains(x),
        forall|x: LineView| #[trigger]
            counters_lines(value).contains(x) ==> tracker_lines(value).contains(x),
{
    let a = descriptors_lines(value);
    let b = incident_lines(value.elements_at("incidents"@));
    let c = bwatch_lines(value);
    let d = counters_lines(value);
    lemma_joined(a, b);
    lemma_joined(a + b, c);
    lemma_joined(a + b + c, d);
}

/// The tracker is shown as healthy or not, with its descriptors by status, what is pending, and what
/// went wrong so far.
pub proof fn law_the_tracker_is_shown(value: Json)
    ensures
        ({
            let all = tracker_lines(value);
            let none = unlabelled();
            &&& says_whether(
                all,
                "cln_tracker_healthy"@,
                none,
                value.field("healthy"@) == Some(Json::Bool(true)),
            )
            &&& forall|status: Seq<char>|
                status == "active"@ || status == "syncing"@ || status == "deleting"@ ==> says(
                    all,
                    "cln_tracker_descriptors"@,
                    seq![("status"@, status)],
                    ValueView::Integer(#[trigger] figure(value, "descriptors"@, status)),
                )
            &&& says(
                all,
                "cln_tracker_pending_movements"@,
                none,
                ValueView::Integer(figure(value, "descriptors"@, "pending_movements"@)),
            )
            &&& says(
                all,
                "cln_tracker_reconciliation_failures_total"@,
                none,
                ValueView::Integer(figure(value, "counters"@, "reconciliation_failures"@)),
            )
            &&& says(
                all,
                "cln_tracker_bookkeeper_failures_total"@,
                none,
                ValueView::Integer(figure(value, "counters"@, "bookkeeper_failures"@)),
            )
            &&& says(
                all,
                "cln_tracker_reorgs_total"@,
                none,
                ValueView::Integer(figure(value, "counters"@, "reorgs"@)),
            )
        }),
{
    lemma_tracker(value);
    let a = descriptors_lines(value);
    let d = counters_lines(value);
    assert(a.contains(a[0]));
    assert(a.contains(a[1]));
    assert(a.contains(a[2]));
    assert(a.contains(a[3]));
    assert(a.contains(a[4]));
    assert(d.contains(d[0]));
    assert(d.contains(d[1]));
    assert(d.contains(d[2]));
}

/// The incidents of the tracker are counted by code and operation.
pub proof fn law_incidents_are_shown(value: Json, code: Seq<char>, operation: Seq<char>)
    requires
        value.elements_at("incidents"@).len() <= u64::MAX,
        value.elements_at("incidents"@).filter(
            |incident: Json| is_incident(incident, code, operation),
        ).len() > 0,
    ensures
        says(
            tracker_lines(value),
            "cln_tracker_incident"@,
            seq![("code"@, code), ("operation"@, operation)],
            ValueView::Integer(
                value.elements_at("incidents"@).filter(
                    |incident: Json| is_incident(incident, code, operation),
                ).len() as int,
            ),
        ),
{
    let incidents = value.elements_at("incidents"@);
    lemma_tracker(value);
    lemma_incidents(incidents, code, operation);
    let counts = incident_counts(incidents);
    lemma_pair_is_shown(
        "cln_tracker_incident"@,
        "code"@,
        "operation"@,
        counts,
        code,
        operation,
        value_of(counts, seq![code, operation])->0,
    );
}

proof fn lemma_rescan_sum(rescans: Seq<Json>, field: Seq<char>)
    ensures
        rescan_sum(rescans, field) == sum_of(
            rescans,
            |rescan: Json| rescan.unsigned_or_zero(field) as int,
        ),
    decreases rescans.len(),
{
    if rescans.len() > 0 {
        lemma_rescan_sum(rescans.drop_last(), field);
    }
}

/// The watch on the chain is shown with its height and its lag, and with the sums of what its rescans
/// have done and have to do.
pub proof fn law_the_watch_is_shown(value: Json)
    ensures
        ({
            let all = tracker_lines(value);
            let none = unlabelled();
            let rescans = match value.field("bwatch"@) {
                Some(bwatch) => bwatch.elements_at("active_rescans"@),
                None => Seq::empty(),
            };
            let processed = sum_of(
                rescans,
                |rescan: Json| rescan.unsigned_or_zero("blocks_processed"@) as int,
            );
            let total = sum_of(
                rescans,
                |rescan: Json| rescan.unsigned_or_zero("blocks_total"@) as int,
            );
            &&& says(
                all,
                "cln_tracker_bwatch_height"@,
                none,
                ValueView::Integer(figure(value, "bwatch"@, "current_height"@)),
            )
            &&& says(
                all,
                "cln_tracker_bwatch_lag_blocks"@,
                none,
                ValueView::Integer(figure(value, "bwatch"@, "lag"@)),
            )
            &&& says(
                all,
                "cln_tracker_bwatch_active_rescans"@,
                none,
                ValueView::Integer(rescans.len() as int),
            )
            &&& says(
                all,
                "cln_tracker_bwatch_rescan_blocks_processed"@,
                none,
                ValueView::Integer(processed),
            )
            &&& says(
                all,
                "cln_tracker_bwatch_rescan_blocks_total"@,
                none,
                ValueView::Integer(total),
            )
            &&& says_share(
                all,
                "cln_tracker_bwatch_rescan_progress_ratio"@,
                none,
                processed,
                total,
                0,
            )
        }),
{
    lemma_tracker(value);
    let rescans = active_rescans(value);
    lemma_rescan_sum(rescans, "blocks_processed"@);
    lemma_rescan_sum(rescans, "blocks_total"@);
    let c = bwatch_lines(value);
    assert(c.contains(c[0]));
    assert(c.contains(c[1]));
    assert(c.contains(c[2]));
    assert(c.contains(c[3]));
    assert(c.contains(c[4]));
    assert(c.contains(c[5]));
}

proof fn lemma_account_is_shown(accounts: Seq<Json>, i: int)
    requires
        0 <= i < accounts.len(),
        i < 256,
    ensures
        forall|x: LineView| #[trigger]
            balance_lines(accounts[i]).contains(x) ==> account_lines(accounts).contains(x),
    decreases accounts.len(),
{
    let front = accounts.drop_last();
    let all = account_lines(accounts);
    let before = account_lines(front);
    let own = all.subrange(before.len() as int, all.len() as int);
    assert(all =~= before + own);
    lemma_joined(before, own);
    if i < front.len() {
        lemma_account_is_shown(front, i);
        assert(front[i] == accounts[i]);
    } else {
        assert(own =~= balance_lines(accounts[i]));
    }
}

/// The balances of the first 256 accounts are shown one by one.
pub proof fn law_balances_are_shown(value: Json, i: int, j: int)
    requires
        0 <= i < value.elements_at("accounts"@).len(),
        i < 256,
        0 <= j < value.elements_at("accounts"@)[i].elements_at("balances"@).len(),
    ensures
        ({
            let account = value.elements_at("accounts"@)[i];
            let balance = account.elements_at("balances"@)[j];
            says(
                bookkeeper_lines(value),
                "cln_bookkeeper_balance_msat"@,
                seq![
                    ("account"@, account.text_or("account"@, "unknown"@)),
                    ("coin"@, balance.text_or("coin_type"@, "unknown"@)),
                ],
                ValueView::Integer(balance.millisatoshi_or_zero("balance_msat"@) as int),
            )
        }),
{
    let accounts = value.elements_at("accounts"@);
    lemma_joined(account_lines(accounts), other_lines(other_accounts(accounts)));
    lemma_account_is_shown(accounts, i);
    let own = balance_lines(accounts[i]);
    assert(own.contains(own[j]));
}

/// What a balance adds to the total of a coin.
pub open spec fn of_coin(coin: Seq<char>) -> spec_fn(Json) -> int {
    |balance: Json|
        if balance.text_or("coin_type"@, "unknown"@) == coin {
            balance.millisatoshi_or_zero("balance_msat"@) as int
        } else {
            0
        }
}

/// What an account adds to the total of a coin.
pub open spec fn held_in(coin: Seq<char>) -> spec_fn(Json) -> int {
    |account: Json| sum_of(account.elements_at("balances"@), of_coin(coin))
}

proof fn lemma_balance_in(balances: Seq<Json>, coin: Seq<char>)
    ensures
        crate::accounting::balance_in(balances, coin) == sum_of(balances, of_coin(coin)),
    decreases balances.len(),
{
    if balances.len() > 0 {
        lemma_balance_in(balances.drop_last(), coin);
    }
}

proof fn lemma_other_balance(accounts: Seq<Json>, coin: Seq<char>)
    requires
        accounts.len() >= 256,
    ensures
        crate::accounting::other_balance(accounts, coin) == sum_of(
            accounts.skip(256),
            held_in(coin),
        ),
    decreases accounts.len(),
{
    let rest = accounts.skip(256);
    if accounts.len() > 256 {
        let front = accounts.drop_last();
        lemma_other_balance(front, coin);
        lemma_balance_in(accounts.last().elements_at("balances"@), coin);
        assert(rest.drop_last() =~= front.skip(256));
        assert(rest.last() == accounts.last());
    }
}

/// The balances of all accounts behind the first 256 are shown as one account, summed by coin.
pub proof fn law_other_balances_are_summed_by_coin(value: Json, coin: Seq<char>)
    requires
        value.elements_at("accounts"@).len() > 256,
        0 < sum_of(value.elements_at("accounts"@).skip(256), held_in(coin)) <= u128::MAX,
    ensures
        says(
            bookkeeper_lines(value),
            "cln_bookkeeper_balance_msat"@,
            seq![("account"@, "__other__"@), ("coin"@, coin)],
            ValueView::Integer(sum_of(value.elements_at("accounts"@).skip(256), held_in(coin))),
        ),
{
    let accounts = value.elements_at("accounts"@);
    lemma_other_balance(accounts, coin);
    crate::accounting::law_grouped_balances_add_up(accounts, coin);
    let totals = other_accounts(accounts);
    let lines = other_lines(totals);
    let at = place_of(totals, seq![coin]);
    lemma_place_of(totals, seq![coin]);
    assert(seq![coin][0] == coin);
    assert(lines.contains(lines[at]));
    lemma_joined(account_lines(accounts), lines);
}

/// A percentage is read as it is written: a number, or a text that ends in a percent sign.
pub proof fn law_percentages_are_read(value: Json)
    ensures
        value matches Json::Number(crate::json::JsonNumber::Unsigned(n)) ==> percentage(value)
            == Some(decimal(n as nat)),
        value matches Json::Number(crate::json::JsonNumber::Float(digits)) ==> percentage(value)
            == Some(digits@),
        value matches Json::Text(words) ==> forall|digits: Seq<char>|
            words@ == #[trigger] digits.push('%') ==> percentage(value) == Some(digits),
        value matches Json::Text(words) ==> (words@.len() == 0 || words@.last() != '%')
            ==> percentage(value) is None,
        value is Null || value is Bool || value is Array || value is Object ==> percentage(
            value,
        ) is None,
{
    reveal_strlit("%");
    assert("%"@ =~= seq!['%']);
    if let Json::Text(words) = value {
        assert forall|digits: Seq<char>| words@ == #[trigger] digits.push('%') implies percentage(
            value,
        ) == Some(digits) by {
            assert(words@.skip(words@.len() - 1) =~= "%"@);
            assert(words@.take(words@.len() - 1) =~= digits);
        }
        if words@.len() == 0 || words@.last() != '%' {
            if crate::text::has_suffix(words@, "%"@) {
                assert(words@.skip(words@.len() - 1)[0] == words@.last());
            }
        }
    }
}

proof fn lemma_percentages(channels: Seq<Json>, i: int)
    requires
        0 <= i < channels.len(),
    ensures
        percentages_of(channels).len() == 4 * channels.len(),
        percentages_of(channels).subrange(4 * i, 4 * i + 4) == channel_percentages(channels[i]),
    decreases channels.len(),
{
    let front = channels.drop_last();
    let before = percentages_of(front);
    let own = channel_percentages(channels.last());
    if front.len() > 0 {
        lemma_percentages(front, 0);
    }
    assert(before.len() == 4 * front.len());
    if i < front.len() {
        lemma_percentages(front, i);
        assert((before + own).subrange(4 * i, 4 * i + 4) =~= before.subrange(4 * i, 4 * i + 4));
        assert(front[i] == channels[i]);
    } else {
        assert((before + own).subrange(4 * i, 4 * i + 4) =~= own);
    }
}

/// Of every channel four percentages are read, in the order of the channels: the yield, the yield of
/// the lease, and how much of it was used in each direction.
pub proof fn law_percentages_are_read_in_order(channels: Seq<Json>, i: int)
    requires
        0 <= i < channels.len(),
    ensures
        ({
            let all = percentages_of(channels);
            let of = |name: Seq<char>|
                match channels[i].field(name) {
                    Some(found) => percentage(found),
                    None => None,
                };
            &&& all.len() == 4 * channels.len()
            &&& all[4 * i] == of("apy_total"@)
            &&& all[4 * i + 1] == of("apy_lease"@)
            &&& all[4 * i + 2] == of("utilization_in"@)
            &&& all[4 * i + 3] == of("utilization_out"@)
        }),
{
    lemma_percentages(channels, i);
    let own = percentages_of(channels).subrange(4 * i, 4 * i + 4);
    assert(own[0] == percentages_of(channels)[4 * i]);
    assert(own[1] == percentages_of(channels)[4 * i + 1]);
    assert(own[2] == percentages_of(channels)[4 * i + 2]);
    assert(own[3] == percentages_of(channels)[4 * i + 3]);
}

proof fn lemma_yield_is_shown(channels: Seq<Json>, ratios: Seq<Option<Seq<char>>>, i: int)
    requires
        0 <= i < channels.len(),
    ensures
        forall|x: LineView| #[trigger]
            apy_lines(channels[i], ratios.subrange(4 * i, 4 * i + 4)).contains(x)
                ==> each_apy_lines(channels, ratios).contains(x),
    decreases channels.len(),
{
    let front = channels.drop_last();
    let last = 4 * (channels.len() - 1);
    lemma_joined(
        each_apy_lines(front, ratios),
        apy_lines(channels.last(), ratios.subrange(last, last + 4)),
    );
    if i < front.len() {
        lemma_yield_is_shown(front, ratios, i);
        assert(front[i] == channels[i]);
    }
}

/// Of every channel it is shown what was routed through it in each direction, what was paid and earned
/// for its lease, and each of its four ratios that is known.
pub proof fn law_yields_are_shown(value: Json, ratios: Seq<Option<Seq<char>>>, i: int)
    requires
        0 <= i < value.elements_at("channels_apy"@).len(),
        ratios.len() == 4 * value.elements_at("channels_apy"@).len(),
    ensures
        ({
            let all = channel_apy_lines(value, ratios);
            let channel = value.elements_at("channels_apy"@)[i];
            let labels = seq![("account"@, channel.text_or("account"@, "unknown"@))];
            &&& says(
                all,
                "cln_channel_routed_in_msat"@,
                labels,
                ValueView::Integer(channel.millisatoshi_or_zero("routed_in_msat"@) as int),
            )
            &&& says(
                all,
                "cln_channel_routed_out_msat"@,
                labels,
                ValueView::Integer(channel.millisatoshi_or_zero("routed_out_msat"@) as int),
            )
            &&& says(
                all,
                "cln_channel_lease_fee_paid_msat"@,
                labels,
                ValueView::Integer(channel.millisatoshi_or_zero("lease_fee_paid_msat"@) as int),
            )
            &&& says(
                all,
                "cln_channel_lease_fee_earned_msat"@,
                labels,
                ValueView::Integer(channel.millisatoshi_or_zero("lease_fee_earned_msat"@) as int),
            )
            &&& ratios[4 * i] matches Some(ratio) ==> says(
                all,
                "cln_channel_apy_ratio"@,
                labels,
                ValueView::Decimal(ratio),
            )
            &&& ratios[4 * i + 1] matches Some(ratio) ==> says(
                all,
                "cln_channel_lease_apy_ratio"@,
                labels,
                ValueView::Decimal(ratio),
            )
            &&& ratios[4 * i + 2] matches Some(ratio) ==> says(
                all,
                "cln_channel_inbound_utilization_ratio"@,
                labels,
                ValueView::Decimal(ratio),
            )
            &&& ratios[4 * i + 3] matches Some(ratio) ==> says(
                all,
                "cln_channel_outbound_utilization_ratio"@,
                labels,
                ValueView::Decimal(ratio),
            )
        }),
{
    let channels = value.elements_at("channels_apy"@);
    let channel = channels[i];
    lemma_yield_is_shown(channels, ratios, i);
    let own = ratios.subrange(4 * i, 4 * i + 4);
    assert(own[0] == ratios[4 * i]);
    assert(own[1] == ratios[4 * i + 1]);
    assert(own[2] == ratios[4 * i + 2]);
    assert(own[3] == ratios[4 * i + 3]);
    let lines = apy_lines(channel, own);
    assert(lines.contains(lines[0]));
    assert(lines.contains(lines[1]));
    assert(lines.contains(lines[2]));
    assert(lines.contains(lines[3]));
    let a: int = if own[0] is Some {
        1
    } else {
        0
    };
    let b: int = if own[1] is Some {
        1
    } else {
        0
    };
    let c: int = if own[2] is Some {
        1
    } else {
        0
    };
    if own[0] is Some {
        assert(lines.contains(lines[4]));
    }
    if own[1] is Some {
        assert(lines.contains(lines[4 + a]));
    }
    if own[2] is Some {
        assert(lines.contains(lines[4 + a + b]));
    }
    if own[3] is Some {
        assert(lines.contains(lines[4 + a + b + c]));
    }
}

/// Nothing else is shown of the tracker: fourteen lines, and one for every kind of incident.
pub proof fn law_nothing_else_is_shown_of_the_tracker(value: Json)
    ensures
        tracker_lines(value).len() == 14 + incident_counts(value.elements_at("incidents"@)).len(),
{
}

/// Nothing else is shown of the funds: one line for every status.
pub proof fn law_nothing_else_is_shown_of_the_funds(value: Json)
    ensures
        funds_lines(value).len() == fund_totals(value.elements_at("outputs"@)).len(),
{
}

} // verus!
