//! The collectors of the tracker and bookkeeper plugins.

use crate::event_metrics::{pair_lines, write_pairs};
use crate::exposition::{
    integer, line0, line1, line2, share, share_value, truth, truth_value, unsigned_value,
    LineView, Metrics, SampleValue, ValueView,
};
use crate::json::{Json, JsonNumber};
use crate::ordered::{
    ascending, counts_within, incremented, law_put_then_get, lemma_counts_within, raised, value_of,
    Entries, Key, OrderedMap,
};
use crate::text::{
    decimal, decimal_text, has_suffix, signed_decimal, signed_decimal_text, without_suffix,
};
use vstd::prelude::*;

verus! {

/// How many accounts are written under their own names.
pub const MAX_ACCOUNTS: usize = 256;

/// The number in a field of a field, or 0.
pub open spec fn number(value: Json, first: Seq<char>, second: Seq<char>) -> u64 {
    match value.field2(first, second) {
        Some(found) => match found.unsigned() {
            Some(n) => n,
            None => 0,
        },
        None => 0,
    }
}

fn number_at(value: &Json, first: &str, second: &str) -> (r: u64)
    ensures
        r == number(*value, first@, second@),
{
    match value.get2(first, second) {
        Some(found) => match found.as_u64() {
            Some(n) => n,
            None => 0,
        },
        None => 0,
    }
}

/// The sum of a field over the rescans that have it.
pub open spec fn rescan_sum(rescans: Seq<Json>, field: Seq<char>) -> int
    decreases rescans.len(),
{
    if rescans.len() == 0 {
        0
    } else {
        rescan_sum(rescans.drop_last(), field) + rescans.last().unsigned_or_zero(field)
    }
}

/// The rescans that the block watcher is working on.
pub open spec fn active_rescans(value: Json) -> Seq<Json> {
    match value.field("bwatch"@) {
        Some(bwatch) => bwatch.elements_at("active_rescans"@),
        None => seq![],
    }
}

/// The sample of one status of descriptors.
pub open spec fn descriptor_line(value: Json, status: Seq<char>) -> LineView {
    line1(
        "cln_tracker_descriptors"@,
        "status"@,
        status,
        integer(number(value, "descriptors"@, status) as int),
    )
}

/// What an incident is counted by: its code and its operation. Its descriptor is no label.
pub open spec fn incident_key(incident: Json) -> Seq<Seq<char>> {
    seq![incident.text_or("code"@, "unknown"@), incident.text_or("operation"@, "unknown"@)]
}

/// How many incidents there are by code and operation.
pub open spec fn incident_counts(incidents: Seq<Json>) -> Entries<u64>
    decreases incidents.len(),
{
    if incidents.len() == 0 {
        Seq::empty()
    } else {
        incremented(incident_counts(incidents.drop_last()), incident_key(incidents.last()))
    }
}

/// The samples of the incidents.
pub open spec fn incident_lines(incidents: Seq<Json>) -> Seq<LineView> {
    pair_lines(
        "cln_tracker_incident"@,
        "code"@,
        "operation"@,
        incident_counts(incidents),
    )
}

/// What is written of the tracker's descriptors.
pub open spec fn descriptors_lines(value: Json) -> Seq<LineView> {
    seq![
        line0("cln_tracker_healthy"@, truth(value.holds("healthy"@))),
        descriptor_line(value, "active"@),
        descriptor_line(value, "syncing"@),
        descriptor_line(value, "deleting"@),
        line0(
            "cln_tracker_pending_movements"@,
            integer(number(value, "descriptors"@, "pending_movements"@) as int),
        ),
    ]
}

/// What is written of the block watcher.
pub open spec fn bwatch_lines(value: Json) -> Seq<LineView> {
    let rescans = active_rescans(value);
    let processed = rescan_sum(rescans, "blocks_processed"@);
    let total = rescan_sum(rescans, "blocks_total"@);
    seq![
        line0(
            "cln_tracker_bwatch_height"@,
            integer(number(value, "bwatch"@, "current_height"@) as int),
        ),
        line0("cln_tracker_bwatch_lag_blocks"@, integer(number(value, "bwatch"@, "lag"@) as int)),
        line0("cln_tracker_bwatch_active_rescans"@, integer(rescans.len() as int)),
        line0("cln_tracker_bwatch_rescan_blocks_processed"@, integer(processed)),
        line0("cln_tracker_bwatch_rescan_blocks_total"@, integer(total)),
        line0("cln_tracker_bwatch_rescan_progress_ratio"@, share(processed, total, 0)),
    ]
}

/// What is written of the tracker's counters.
pub open spec fn counters_lines(value: Json) -> Seq<LineView> {
    seq![
        line0(
            "cln_tracker_reconciliation_failures_total"@,
            integer(number(value, "counters"@, "reconciliation_failures"@) as int),
        ),
        line0(
            "cln_tracker_bookkeeper_failures_total"@,
            integer(number(value, "counters"@, "bookkeeper_failures"@) as int),
        ),
        line0(
            "cln_tracker_reorgs_total"@,
            integer(number(value, "counters"@, "reorgs"@) as int),
        ),
    ]
}

/// What is written of a `tracker-health` response.
pub open spec fn tracker_lines(value: Json) -> Seq<LineView> {
    descriptors_lines(value) + incident_lines(value.elements_at("incidents"@)) + bwatch_lines(value)
        + counters_lines(value)
}

fn sum_rescans(rescans: &Vec<Json>, field: &str) -> (r: u128)
    ensures
        r == rescan_sum(rescans@, field@),
{
    let mut sum: u128 = 0;
    let mut i: usize = 0;
    assert(rescans@.take(0) =~= seq![]);
    while i < rescans.len()
        invariant
            i <= rescans@.len(),
            sum == rescan_sum(rescans@.take(i as int), field@),
            sum <= i * u64::MAX,
        decreases rescans@.len() - i,
    {
        assert(rescans@.take(i + 1).drop_last() =~= rescans@.take(i as int));
        assert(i * u64::MAX + u64::MAX == (i + 1) * u64::MAX) by (nonlinear_arith);
        assert((i + 1) * u64::MAX <= u128::MAX) by (nonlinear_arith)
            requires
                i < usize::MAX,
        ;
        sum = sum + rescans[i].u64_field_or_zero(field) as u128;
        i = i + 1;
    }
    assert(rescans@.take(i as int) =~= rescans@);
    sum
}

fn collect_descriptors(metrics: &mut Metrics, value: &Json)
    ensures
        final(metrics)@ == old(metrics)@ + descriptors_lines(*value),
{
    metrics.sample0("cln_tracker_healthy", truth_value(value.flag("healthy")));
    metrics.sample1(
        "cln_tracker_descriptors",
        "status",
        "active",
        unsigned_value(number_at(value, "descriptors", "active")),
    );
    metrics.sample1(
        "cln_tracker_descriptors",
        "status",
        "syncing",
        unsigned_value(number_at(value, "descriptors", "syncing")),
    );
    metrics.sample1(
        "cln_tracker_descriptors",
        "status",
        "deleting",
        unsigned_value(number_at(value, "descriptors", "deleting")),
    );
    metrics.sample0(
        "cln_tracker_pending_movements",
        unsigned_value(number_at(value, "descriptors", "pending_movements")),
    );
    assert(metrics@ =~= old(metrics)@ + descriptors_lines(*value));
}

fn collect_incidents(metrics: &mut Metrics, value: &Json)
    ensures
        final(metrics)@ == old(metrics)@ + incident_lines(value.elements_at("incidents"@)),
{
    let mut counts: OrderedMap<(String, String), u64> = OrderedMap::new();
    if let Some(incidents) = value.array_field("incidents") {
        let mut i: usize = 0;
        assert(incidents@.take(0) =~= seq![]);
        while i < incidents.len()
            invariant
                i <= incidents@.len(),
                counts@ == incident_counts(incidents@.take(i as int)),
                counts_within(counts@, i as int),
            decreases incidents@.len() - i,
        {
            assert(incidents@.take(i + 1).drop_last() =~= incidents@.take(i as int));
            let key = (
                incidents[i].text_field_or("code", "unknown").to_owned(),
                incidents[i].text_field_or("operation", "unknown").to_owned(),
            );
            proof {
                assert(key.parts() =~= incident_key(incidents@[i as int]));
                lemma_counts_within(counts@, key.parts(), i as int);
            }
            counts.increment(key);
            i = i + 1;
        }
        assert(incidents@.take(i as int) =~= incidents@);
    }
    write_pairs(metrics, "cln_tracker_incident", "code", "operation", &counts);
}

fn collect_bwatch(metrics: &mut Metrics, value: &Json)
    ensures
        final(metrics)@ == old(metrics)@ + bwatch_lines(*value),
{
    let rescans = match value.get("bwatch") {
        Some(bwatch) => bwatch.array_field("active_rescans"),
        None => None,
    };
    let (count, processed, total) = match rescans {
        Some(rescans) => (
            rescans.len(),
            sum_rescans(rescans, "blocks_processed"),
            sum_rescans(rescans, "blocks_total"),
        ),
        None => (0, 0, 0),
    };
    assert(rescans is None ==> active_rescans(*value) =~= seq![]);
    metrics.sample0(
        "cln_tracker_bwatch_height",
        unsigned_value(number_at(value, "bwatch", "current_height")),
    );
    metrics.sample0(
        "cln_tracker_bwatch_lag_blocks",
        unsigned_value(number_at(value, "bwatch", "lag")),
    );
    metrics.sample0("cln_tracker_bwatch_active_rescans", unsigned_value(count as u64));
    metrics.sample0("cln_tracker_bwatch_rescan_blocks_processed", SampleValue::Unsigned(processed));
    metrics.sample0("cln_tracker_bwatch_rescan_blocks_total", SampleValue::Unsigned(total));
    metrics.sample0("cln_tracker_bwatch_rescan_progress_ratio", share_value(processed, total, 0));
    assert(metrics@ =~= old(metrics)@ + bwatch_lines(*value));
}

/// Writes what a `tracker-health` response says.
pub fn collect_tracker(metrics: &mut Metrics, value: &Json)
    ensures
        final(metrics)@ == old(metrics)@ + tracker_lines(*value),
{
    collect_descriptors(metrics, value);
    collect_incidents(metrics, value);
    collect_bwatch(metrics, value);
    metrics.sample0(
        "cln_tracker_reconciliation_failures_total",
        unsigned_value(number_at(value, "counters", "reconciliation_failures")),
    );
    metrics.sample0(
        "cln_tracker_bookkeeper_failures_total",
        unsigned_value(number_at(value, "counters", "bookkeeper_failures")),
    );
    metrics.sample0(
        "cln_tracker_reorgs_total",
        unsigned_value(number_at(value, "counters", "reorgs")),
    );
    assert(metrics@ =~= old(metrics)@ + tracker_lines(*value));
}

/// How many incidents have a code and an operation.
pub open spec fn incidents_with(incidents: Seq<Json>, key: Seq<Seq<char>>) -> int
    decreases incidents.len(),
{
    if incidents.len() == 0 {
        0
    } else {
        incidents_with(incidents.drop_last(), key) + if incident_key(incidents.last()) == key {
            1int
        } else {
            0int
        }
    }
}

proof fn lemma_incidents_with(incidents: Seq<Json>, key: Seq<Seq<char>>)
    ensures
        0 <= incidents_with(incidents, key) <= incidents.len(),
    decreases incidents.len(),
{
    if incidents.len() > 0 {
        lemma_incidents_with(incidents.drop_last(), key);
    }
}

/// Every incident is counted once, under its code and its operation.
pub proof fn law_incidents_are_counted_by_code_and_operation(
    incidents: Seq<Json>,
    key: Seq<Seq<char>>,
)
    requires
        incidents.len() <= u64::MAX,
    ensures
        ascending(incident_counts(incidents)),
        match value_of(incident_counts(incidents), key) {
            Some(count) => count == incidents_with(incidents, key) && count > 0,
            None => incidents_with(incidents, key) == 0,
        },
    decreases incidents.len(),
{
    if incidents.len() > 0 {
        let front = incidents.drop_last();
        let own = incident_key(incidents.last());
        law_incidents_are_counted_by_code_and_operation(front, key);
        law_incidents_are_counted_by_code_and_operation(front, own);
        lemma_incidents_with(front, own);
        let before = incident_counts(front);
        let count = match value_of(before, own) {
            Some(count) => count as int,
            None => 0,
        };
        law_put_then_get(before, own, (count + 1) as u64, key);
    }
}

/// What is written of incidents does not depend on their descriptors: incidents with the same codes and
/// operations are written alike.
pub proof fn law_descriptors_are_not_written(a: Seq<Json>, b: Seq<Json>)
    requires
        a.len() == b.len(),
        forall|i: int|
            0 <= i < a.len() ==> incident_key(#[trigger] a[i]) == incident_key(#[trigger] b[i]),
    ensures
        incident_lines(a) == incident_lines(b),
{
    lemma_same_incidents(a, b);
}

proof fn lemma_same_incidents(a: Seq<Json>, b: Seq<Json>)
    requires
        a.len() == b.len(),
        forall|i: int|
            0 <= i < a.len() ==> incident_key(#[trigger] a[i]) == incident_key(#[trigger] b[i]),
    ensures
        incident_counts(a) == incident_counts(b),
    decreases a.len(),
{
    if a.len() > 0 {
        let m = a.len() - 1;
        assert(incident_key(a[m]) == incident_key(b[m]));
        assert forall|i: int| 0 <= i < m implies incident_key(#[trigger] a.drop_last()[i])
            == incident_key(#[trigger] b.drop_last()[i]) by {
            assert(incident_key(a[i]) == incident_key(b[i]));
        }
        lemma_same_incidents(a.drop_last(), b.drop_last());
    }
}

/// The samples of one account's balances.
pub open spec fn balance_lines(account: Json) -> Seq<LineView> {
    let balances = account.elements_at("balances"@);
    Seq::new(
        balances.len(),
        |i: int|
            line2(
                "cln_bookkeeper_balance_msat"@,
                "account"@,
                account.text_or("account"@, "unknown"@),
                "coin"@,
                balances[i].text_or("coin_type"@, "unknown"@),
                integer(balances[i].millisatoshi_or_zero("balance_msat"@) as int),
            ),
    )
}

/// The totals by coin with the balances of one more account.
pub open spec fn with_balances(totals: Entries<u128>, balances: Seq<Json>) -> Entries<u128>
    decreases balances.len(),
{
    if balances.len() == 0 {
        totals
    } else {
        raised(
            with_balances(totals, balances.drop_last()),
            seq![balances.last().text_or("coin_type"@, "unknown"@)],
            balances.last().millisatoshi_or_zero("balance_msat"@) as int,
        )
    }
}

/// The samples of the accounts that are written under their own names.
pub open spec fn account_lines(accounts: Seq<Json>) -> Seq<LineView>
    decreases accounts.len(),
{
    if accounts.len() == 0 {
        Seq::empty()
    } else {
        account_lines(accounts.drop_last()) + if accounts.len() <= MAX_ACCOUNTS {
            balance_lines(accounts.last())
        } else {
            Seq::empty()
        }
    }
}

/// The totals by coin of the accounts that are not.
pub open spec fn other_accounts(accounts: Seq<Json>) -> Entries<u128>
    decreases accounts.len(),
{
    if accounts.len() <= MAX_ACCOUNTS {
        Seq::empty()
    } else {
        with_balances(
            other_accounts(accounts.drop_last()),
            accounts.last().elements_at("balances"@),
        )
    }
}

/// The samples of the grouped accounts.
pub open spec fn other_lines(totals: Entries<u128>) -> Seq<LineView> {
    Seq::new(
        totals.len(),
        |i: int|
            line2(
                "cln_bookkeeper_balance_msat"@,
                "account"@,
                "__other__"@,
                "coin"@,
                totals[i].0[0],
                integer(totals[i].1 as int),
            ),
    )
}

/// What is written of a `bkpr-listbalances` response.
pub open spec fn bookkeeper_lines(value: Json) -> Seq<LineView> {
    let accounts = value.elements_at("accounts"@);
    account_lines(accounts) + other_lines(other_accounts(accounts))
}

fn collect_balances(metrics: &mut Metrics, account: &Json)
    ensures
        final(metrics)@ == old(metrics)@ + balance_lines(*account),
{
    let name = account.text_field_or("account", "unknown");
    if let Some(balances) = account.array_field("balances") {
        let mut i: usize = 0;
        while i < balances.len()
            invariant
                i <= balances@.len(),
                account.elements_at("balances"@) == balances@,
                name@ == account.text_or("account"@, "unknown"@),
                metrics@ =~= old(metrics)@ + balance_lines(*account).take(i as int),
            decreases balances@.len() - i,
        {
            metrics.sample2(
                "cln_bookkeeper_balance_msat",
                "account",
                name,
                "coin",
                balances[i].text_field_or("coin_type", "unknown"),
                unsigned_value(balances[i].msat_field_or_zero("balance_msat")),
            );
            i = i + 1;
        }
    }
    assert(metrics@ =~= old(metrics)@ + balance_lines(*account));
}

fn add_balances(totals: &mut OrderedMap<String, u128>, account: &Json)
    ensures
        final(totals)@ == with_balances(old(totals)@, account.elements_at("balances"@)),
{
    if let Some(balances) = account.array_field("balances") {
        let mut i: usize = 0;
        assert(balances@.take(0) =~= seq![]);
        while i < balances.len()
            invariant
                i <= balances@.len(),
                totals@ == with_balances(old(totals)@, balances@.take(i as int)),
            decreases balances@.len() - i,
        {
            assert(balances@.take(i + 1).drop_last() =~= balances@.take(i as int));
            totals.raise(
                balances[i].text_field_or("coin_type", "unknown").to_owned(),
                balances[i].msat_field_or_zero("balance_msat"),
            );
            i = i + 1;
        }
        assert(balances@.take(i as int) =~= balances@);
    }
}

/// Writes what a `bkpr-listbalances` response says. Accounts beyond the limit are grouped.
pub fn collect_bookkeeper(metrics: &mut Metrics, value: &Json)
    ensures
        final(metrics)@ == old(metrics)@ + bookkeeper_lines(*value),
{
    let mut others: OrderedMap<String, u128> = OrderedMap::new();
    if let Some(accounts) = value.array_field("accounts") {
        let mut i: usize = 0;
        assert(accounts@.take(0) =~= seq![]);
        while i < accounts.len()
            invariant
                i <= accounts@.len(),
                metrics@ =~= old(metrics)@ + account_lines(accounts@.take(i as int)),
                others@ == other_accounts(accounts@.take(i as int)),
            decreases accounts@.len() - i,
        {
            assert(accounts@.take(i + 1).drop_last() =~= accounts@.take(i as int));
            if i >= MAX_ACCOUNTS {
                add_balances(&mut others, &accounts[i]);
            } else {
                collect_balances(metrics, &accounts[i]);
            }
            i = i + 1;
        }
        assert(accounts@.take(i as int) =~= accounts@);
    }
    let ghost head = metrics@;
    let mut i: usize = 0;
    while i < others.len()
        invariant
            i <= others@.len(),
            metrics@ =~= head + other_lines(others@).take(i as int),
        decreases others@.len() - i,
    {
        let coin = others.key_at(i);
        assert(coin.parts()[0] == coin@);
        metrics.sample2(
            "cln_bookkeeper_balance_msat",
            "account",
            "__other__",
            "coin",
            coin.as_str(),
            SampleValue::Unsigned(*others.value_at(i)),
        );
        i = i + 1;
    }
    assert(metrics@ =~= old(metrics)@ + bookkeeper_lines(*value));
}

/// The decimal text of a percentage: a number, or a text that ends in a percent sign.
pub open spec fn percentage(value: Json) -> Option<Seq<char>> {
    match value {
        Json::Number(JsonNumber::Unsigned(n)) => Some(decimal(n as nat)),
        Json::Number(JsonNumber::Negative(n)) => Some(signed_decimal(n as int)),
        Json::Number(JsonNumber::Float(text)) => Some(text@),
        Json::Text(text) => if has_suffix(text@, "%"@) {
            Some(text@.take(text@.len() - 1))
        } else {
            None
        },
        _ => None,
    }
}

/// The percentage in a field.
pub open spec fn percentage_at(value: Json, field: Seq<char>) -> Option<Seq<char>> {
    match value.field(field) {
        Some(found) => percentage(found),
        None => None,
    }
}

/// The decimal text of a percentage.
pub fn percentage_text(value: &Json) -> (r: Option<String>)
    ensures
        r.deep_view() == percentage(*value),
{
    match value {
        Json::Number(JsonNumber::Unsigned(n)) => Some(decimal_text(*n as u128)),
        Json::Number(JsonNumber::Negative(n)) => Some(signed_decimal_text(*n as i128)),
        Json::Number(JsonNumber::Float(text)) => Some(text.clone()),
        Json::Text(text) => {
            proof {
                reveal_strlit("%");
            }
            match without_suffix(text.as_str(), "%") {
                Some(number) => Some(number.to_owned()),
                None => None,
            }
        },
        _ => None,
    }
}

fn percentage_field(value: &Json, field: &str) -> (r: Option<String>)
    ensures
        r.deep_view() == percentage_at(*value, field@),
{
    match value.get(field) {
        Some(found) => percentage_text(found),
        None => None,
    }
}

/// The yields and utilizations of one channel.
pub open spec fn channel_percentages(channel: Json) -> Seq<Option<Seq<char>>> {
    seq![
        percentage_at(channel, "apy_total"@),
        percentage_at(channel, "apy_lease"@),
        percentage_at(channel, "utilization_in"@),
        percentage_at(channel, "utilization_out"@),
    ]
}

/// The percentages of the channels, four of each.
pub open spec fn percentages_of(channels: Seq<Json>) -> Seq<Option<Seq<char>>>
    decreases channels.len(),
{
    if channels.len() == 0 {
        Seq::empty()
    } else {
        percentages_of(channels.drop_last()) + channel_percentages(channels.last())
    }
}

proof fn lemma_percentages_len(channels: Seq<Json>)
    ensures
        percentages_of(channels).len() == 4 * channels.len(),
    decreases channels.len(),
{
    if channels.len() > 0 {
        lemma_percentages_len(channels.drop_last());
    }
}

/// The percentages of a `bkpr-channelsapy` response, four of each channel, in the order in which
/// [`collect_channel_apy`] takes their ratios.
pub fn percentages(value: &Json) -> (r: Vec<Option<String>>)
    ensures
        r.deep_view() == percentages_of(value.elements_at("channels_apy"@)),
{
    let mut r: Vec<Option<String>> = Vec::new();
    if let Some(channels) = value.array_field("channels_apy") {
        let mut i: usize = 0;
        assert(channels@.take(0) =~= seq![]);
        assert(r.deep_view() =~= seq![]);
        while i < channels.len()
            invariant
                i <= channels@.len(),
                r.deep_view() == percentages_of(channels@.take(i as int)),
            decreases channels@.len() - i,
        {
            assert(channels@.take(i + 1).drop_last() =~= channels@.take(i as int));
            let ghost before = r.deep_view();
            r.push(percentage_field(&channels[i], "apy_total"));
            r.push(percentage_field(&channels[i], "apy_lease"));
            r.push(percentage_field(&channels[i], "utilization_in"));
            r.push(percentage_field(&channels[i], "utilization_out"));
            assert(r.deep_view() =~= before + channel_percentages(channels@[i as int]));
            i = i + 1;
        }
        assert(channels@.take(i as int) =~= channels@);
    } else {
        assert(r.deep_view() =~= seq![]);
    }
    r
}

/// The sample of a ratio, where there is one.
pub open spec fn ratio_line(
    metric: Seq<char>,
    account: Seq<char>,
    ratio: Option<Seq<char>>,
) -> Seq<LineView> {
    match ratio {
        Some(ratio) => seq![line1(metric, "account"@, account, ValueView::Decimal(ratio))],
        None => seq![],
    }
}

/// What is written of one channel's yield, given the ratios of its percentages.
pub open spec fn apy_lines(channel: Json, ratios: Seq<Option<Seq<char>>>) -> Seq<LineView> {
    let account = channel.text_or("account"@, "unknown"@);
    seq![
        line1(
            "cln_channel_routed_in_msat"@,
            "account"@,
            account,
            integer(channel.millisatoshi_or_zero("routed_in_msat"@) as int),
        ),
        line1(
            "cln_channel_routed_out_msat"@,
            "account"@,
            account,
            integer(channel.millisatoshi_or_zero("routed_out_msat"@) as int),
        ),
        line1(
            "cln_channel_lease_fee_paid_msat"@,
            "account"@,
            account,
            integer(channel.millisatoshi_or_zero("lease_fee_paid_msat"@) as int),
        ),
        line1(
            "cln_channel_lease_fee_earned_msat"@,
            "account"@,
            account,
            integer(channel.millisatoshi_or_zero("lease_fee_earned_msat"@) as int),
        ),
    ] + ratio_line("cln_channel_apy_ratio"@, account, ratios[0]) + ratio_line(
        "cln_channel_lease_apy_ratio"@,
        account,
        ratios[1],
    ) + ratio_line("cln_channel_inbound_utilization_ratio"@, account, ratios[2]) + ratio_line(
        "cln_channel_outbound_utilization_ratio"@,
        account,
        ratios[3],
    )
}

/// What is written of every channel's yield.
pub open spec fn each_apy_lines(channels: Seq<Json>, ratios: Seq<Option<Seq<char>>>) -> Seq<LineView>
    decreases channels.len(),
{
    if channels.len() == 0 {
        Seq::empty()
    } else {
        let last = 4 * (channels.len() - 1);
        each_apy_lines(channels.drop_last(), ratios) + apy_lines(
            channels.last(),
            ratios.subrange(last, last + 4),
        )
    }
}

/// What is written of a `bkpr-channelsapy` response, given the ratios of its percentages.
pub open spec fn channel_apy_lines(value: Json, ratios: Seq<Option<Seq<char>>>) -> Seq<LineView> {
    each_apy_lines(value.elements_at("channels_apy"@), ratios)
}

fn collect_ratio(metrics: &mut Metrics, metric: &str, account: &str, ratio: &Option<String>)
    ensures
        final(metrics)@ == old(metrics)@ + ratio_line(metric@, account@, ratio.deep_view()),
{
    if let Some(ratio) = ratio {
        metrics.sample1(metric, "account", account, SampleValue::Decimal(ratio.clone()));
    }
    assert(metrics@ =~= old(metrics)@ + ratio_line(metric@, account@, ratio.deep_view()));
}

fn collect_apy(metrics: &mut Metrics, channel: &Json, ratios: &Vec<Option<String>>, from: usize)
    requires
        from + 4 <= ratios@.len(),
    ensures
        final(metrics)@ == old(metrics)@ + apy_lines(
            *channel,
            ratios.deep_view().subrange(from as int, from + 4),
        ),
{
    let account = channel.text_field_or("account", "unknown");
    let total: usize = ratios.len();
    assert(from + 4 <= total);
    metrics.sample1(
        "cln_channel_routed_in_msat",
        "account",
        account,
        unsigned_value(channel.msat_field_or_zero("routed_in_msat")),
    );
    metrics.sample1(
        "cln_channel_routed_out_msat",
        "account",
        account,
        unsigned_value(channel.msat_field_or_zero("routed_out_msat")),
    );
    metrics.sample1(
        "cln_channel_lease_fee_paid_msat",
        "account",
        account,
        unsigned_value(channel.msat_field_or_zero("lease_fee_paid_msat")),
    );
    metrics.sample1(
        "cln_channel_lease_fee_earned_msat",
        "account",
        account,
        unsigned_value(channel.msat_field_or_zero("lease_fee_earned_msat")),
    );
    collect_ratio(metrics, "cln_channel_apy_ratio", account, &ratios[from]);
    collect_ratio(metrics, "cln_channel_lease_apy_ratio", account, &ratios[from + 1]);
    collect_ratio(metrics, "cln_channel_inbound_utilization_ratio", account, &ratios[from + 2]);
    collect_ratio(metrics, "cln_channel_outbound_utilization_ratio", account, &ratios[from + 3]);
    assert(metrics@ =~= old(metrics)@ + apy_lines(
        *channel,
        ratios.deep_view().subrange(from as int, from + 4),
    ));
}

/// Writes what a `bkpr-channelsapy` response says. `ratios` are its percentages, each divided by a
/// hundred; one that is no number is missing.
pub fn collect_channel_apy(metrics: &mut Metrics, value: &Json, ratios: &Vec<Option<String>>)
    requires
        ratios@.len() == percentages_of(value.elements_at("channels_apy"@)).len(),
    ensures
        final(metrics)@ == old(metrics)@ + channel_apy_lines(*value, ratios.deep_view()),
{
    proof {
        lemma_percentages_len(value.elements_at("channels_apy"@));
    }
    if let Some(channels) = value.array_field("channels_apy") {
        let mut i: usize = 0;
        assert(channels@.take(0) =~= seq![]);
        while i < channels.len()
            invariant
                i <= channels@.len(),
                ratios@.len() == 4 * channels@.len(),
                metrics@ =~= old(metrics)@ + each_apy_lines(
                    channels@.take(i as int),
                    ratios.deep_view(),
                ),
            decreases channels@.len() - i,
        {
            assert(channels@.take(i + 1).drop_last() =~= channels@.take(i as int));
            let total: usize = ratios.len();
            collect_apy(metrics, &channels[i], ratios, 4 * i);
            i = i + 1;
        }
        assert(channels@.take(i as int) =~= channels@);
    }
    assert(metrics@ =~= old(metrics)@ + channel_apy_lines(*value, ratios.deep_view()));
}

/// The accounts beyond the cap have no series of their own.
pub proof fn law_account_series_are_capped(accounts: Seq<Json>)
    requires
        accounts.len() > MAX_ACCOUNTS,
    ensures
        account_lines(accounts) == account_lines(accounts.take(MAX_ACCOUNTS as int)),
    decreases accounts.len(),
{
    let front = accounts.drop_last();
    if front.len() > MAX_ACCOUNTS {
        law_account_series_are_capped(front);
        assert(front.take(MAX_ACCOUNTS as int) =~= accounts.take(MAX_ACCOUNTS as int));
    } else {
        assert(front =~= accounts.take(MAX_ACCOUNTS as int));
    }
    assert(account_lines(accounts) =~= account_lines(front));
}

/// What the balances of a coin come to.
pub open spec fn balance_in(balances: Seq<Json>, coin: Seq<char>) -> int
    decreases balances.len(),
{
    if balances.len() == 0 {
        0
    } else {
        balance_in(balances.drop_last(), coin) + if balances.last().text_or(
            "coin_type"@,
            "unknown"@,
        ) == coin {
            balances.last().millisatoshi_or_zero("balance_msat"@) as int
        } else {
            0
        }
    }
}

/// What the accounts beyond the cap have of a coin.
pub open spec fn other_balance(accounts: Seq<Json>, coin: Seq<char>) -> int
    decreases accounts.len(),
{
    if accounts.len() <= MAX_ACCOUNTS {
        0
    } else {
        other_balance(accounts.drop_last(), coin) + balance_in(
            accounts.last().elements_at("balances"@),
            coin,
        )
    }
}

/// The total of a coin, or 0.
pub open spec fn total_of(totals: Entries<u128>, coin: Seq<char>) -> int {
    match value_of(totals, seq![coin]) {
        Some(total) => total as int,
        None => 0,
    }
}

proof fn lemma_balances_add_up(totals: Entries<u128>, balances: Seq<Json>, coin: Seq<char>)
    requires
        ascending(totals),
        total_of(totals, coin) + balance_in(balances, coin) <= u128::MAX,
    ensures
        ascending(with_balances(totals, balances)),
        total_of(with_balances(totals, balances), coin) == total_of(totals, coin) + balance_in(
            balances,
            coin,
        ),
        balance_in(balances, coin) >= 0,
    decreases balances.len(),
{
    if balances.len() > 0 {
        let front = balances.drop_last();
        lemma_balances_add_up(totals, front, coin);
        let before = with_balances(totals, front);
        let key = seq![balances.last().text_or("coin_type"@, "unknown"@)];
        let own = seq![coin];
        assert(key[0] == coin <==> key == own) by {
            if key[0] == coin {
                assert(key =~= own);
            }
        }
        lemma_raised(
            before,
            key,
            balances.last().millisatoshi_or_zero("balance_msat"@) as int,
            own,
        );
    }
}

proof fn lemma_raised(
    entries: Entries<u128>,
    key: Seq<Seq<char>>,
    amount: int,
    other: Seq<Seq<char>>,
)
    requires
        ascending(entries),
    ensures
        ({
            let before = match value_of(entries, key) {
                Some(total) => total as int,
                None => 0,
            };
            let after = raised(entries, key, amount);
            &&& ascending(after)
            &&& other != key ==> value_of(after, other) == value_of(entries, other)
            &&& 0 <= before + amount <= u128::MAX ==> value_of(after, key) == Some(
                (before + amount) as u128,
            )
        }),
{
    let before = match value_of(entries, key) {
        Some(total) => total as int,
        None => 0,
    };
    let value = if before + amount > u128::MAX {
        u128::MAX
    } else {
        (before + amount) as u128
    };
    law_put_then_get(entries, key, value, other);
}

/// The balances of the accounts beyond the cap are written together, by coin, and none is lost.
pub proof fn law_grouped_balances_add_up(accounts: Seq<Json>, coin: Seq<char>)
    requires
        other_balance(accounts, coin) <= u128::MAX,
    ensures
        ascending(other_accounts(accounts)),
        total_of(other_accounts(accounts), coin) == other_balance(accounts, coin),
    decreases accounts.len(),
{
    if accounts.len() > MAX_ACCOUNTS {
        let front = accounts.drop_last();
        let balances = accounts.last().elements_at("balances"@);
        lemma_balance_is_positive(balances, coin);
        law_grouped_balances_add_up(front, coin);
        lemma_balances_add_up(other_accounts(front), balances, coin);
    }
}

proof fn lemma_balance_is_positive(balances: Seq<Json>, coin: Seq<char>)
    ensures
        balance_in(balances, coin) >= 0,
    decreases balances.len(),
{
    if balances.len() > 0 {
        lemma_balance_is_positive(balances.drop_last(), coin);
    }
}

} // verus!
