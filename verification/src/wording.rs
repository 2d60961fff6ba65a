//! What the answers say: every field of them, in terms of what was found.

use crate::answers::{
    alias_json, channel_samples_json, current_json, details_json, events_json, fields_view,
    forward_pairs_json, htlc_samples_json, items_view, json_view, list_json, pagination_json,
    pair_json, pairs_json, policy_json, samples_json, state_json, sum_json, Answer, JsonView,
    NumberView,
};
use crate::browse::{DetailsView, SampleItemView, SamplePageView};
use crate::exporter::health_json;
use crate::json::{Json, JsonNumber};
use crate::lookups::{EventPageView, PairItemView, PairPageView};
use crate::model::ChannelPolicy;
use crate::plugin_metrics::{Family, Sample, WireMetrics};
use crate::probes::{
    AggregateView, HopItem, HopItemView, ProbeAggregate, ProbeItem, ProbeItemView, ProbeItemsView,
    ProbePageView,
};
use crate::reports::{
    counts_json, coverage_json, failure_json, family_json, labels_json, metric_sample_json,
    metrics_json, probes_json, row_counts_json, run_json, status_json,
};
use crate::store::{AliasRow, ChannelRow, EventRow, ProbeRow, RunRow};
use crate::text::decimal;
use crate::upkeep::{Counts, Status, Storage};
use vstd::prelude::*;

verus! {

/// Whether an answer has a field of that name and value.
pub open spec fn has(answer: JsonView, name: Seq<char>, value: JsonView) -> bool {
    answer matches JsonView::Object(fields) && fields.contains((name, value))
}

/// The number of fields of an answer.
pub open spec fn width(answer: JsonView) -> int {
    match answer {
        JsonView::Object(fields) => fields.len() as int,
        _ => -1,
    }
}

/// A number in an answer.
pub open spec fn number(n: u64) -> JsonView {
    JsonView::Number(NumberView::Unsigned(n))
}

/// A number in an answer, or null.
pub open spec fn number_or_null(n: Option<u64>) -> JsonView {
    match n {
        Some(n) => JsonView::Number(NumberView::Unsigned(n)),
        None => JsonView::Null,
    }
}

/// A number that may be negative in an answer, or null.
pub open spec fn signed_or_null(n: Option<i64>) -> JsonView {
    match n {
        Some(n) => if n < 0 {
            JsonView::Number(NumberView::Negative(n))
        } else {
            JsonView::Number(NumberView::Unsigned(n as u64))
        },
        None => JsonView::Null,
    }
}

/// Words in an answer, or null.
pub open spec fn words_or_null(words: Option<Seq<char>>) -> JsonView {
    match words {
        Some(words) => JsonView::Text(words),
        None => JsonView::Null,
    }
}

/// An answer says where the next page starts, and whether there is one.
pub proof fn law_pagination_is_said(next_cursor: Option<u64>, has_more: bool)
    ensures
        ({
            let said = pagination_json(next_cursor, has_more);
            &&& width(said) == 2
            &&& has(said, "next_cursor"@, number_or_null(next_cursor))
            &&& has(said, "has_more"@, JsonView::Bool(has_more))
        }),
{
    let fields = (pagination_json(next_cursor, has_more))->Object_0;
    assert(fields.contains(fields[0]));
    assert(fields.contains(fields[1]));
}

/// A name of a channel is said with its kind and when it was seen.
pub proof fn law_names_are_said(alias: AliasRow<Seq<char>>)
    ensures
        ({
            let said = alias_json(alias);
            &&& width(said) == 4
            &&& has(said, "type"@, JsonView::Text(alias.alias_type))
            &&& has(said, "value"@, JsonView::Text(alias.alias))
            &&& has(said, "first_seen"@, number(alias.first_seen))
            &&& has(said, "last_seen"@, number(alias.last_seen))
        }),
{
    let fields = (alias_json(alias))->Object_0;
    assert(fields.contains(fields[0]));
    assert(fields.contains(fields[1]));
    assert(fields.contains(fields[2]));
    assert(fields.contains(fields[3]));
}

/// A channel is said with its ids, its peer, and when it was seen and gone.
pub proof fn law_channels_are_said(channel: ChannelRow<Seq<char>>)
    ensures
        ({
            let said = current_json(Some(channel));
            &&& width(said) == 6
            &&& has(said, "channel_id"@, words_or_null(channel.channel_id))
            &&& has(said, "short_channel_id"@, words_or_null(channel.short_channel_id))
            &&& has(said, "peer_id"@, JsonView::Text(channel.peer_id))
            &&& has(said, "first_seen"@, number(channel.first_seen))
            &&& has(said, "last_seen"@, number(channel.last_seen))
            &&& has(said, "disappeared_at"@, number_or_null(channel.disappeared_at))
        }),
{
    let fields = (current_json(Some(channel)))->Object_0;
    assert(fields.contains(fields[0]));
    assert(fields.contains(fields[1]));
    assert(fields.contains(fields[2]));
    assert(fields.contains(fields[3]));
    assert(fields.contains(fields[4]));
    assert(fields.contains(fields[5]));
}

/// What is known of a channel is said: its identity, the channel, and its names.
pub proof fn law_details_are_said(details: DetailsView)
    ensures
        ({
            let said = details_json(details);
            &&& width(said) == 3
            &&& has(said, "identity"@, JsonView::Text(details.identity))
            &&& has(said, "current"@, current_json(details.current))
            &&& has(said, "aliases"@, list_json::<AliasRow<String>>(details.aliases))
        }),
{
    let fields = (details_json(details))->Object_0;
    assert(fields.contains(fields[0]));
    assert(fields.contains(fields[1]));
    assert(fields.contains(fields[2]));
}

/// A policy is said with its fees, its limits and its delay.
pub proof fn law_policies_are_said(policy: ChannelPolicy)
    ensures
        ({
            let said = policy_json(policy);
            &&& width(said) == 5
            &&& has(said, "fee_base_msat"@, number_or_null(policy.fee_base_msat))
            &&& has(said, "fee_ppm"@, number_or_null(policy.fee_ppm))
            &&& has(said, "htlc_minimum_msat"@, number_or_null(policy.htlc_minimum_msat))
            &&& has(said, "htlc_maximum_msat"@, number_or_null(policy.htlc_maximum_msat))
            &&& has(said, "cltv_expiry_delta"@, number_or_null(policy.cltv_expiry_delta))
        }),
{
    let fields = (policy_json(policy))->Object_0;
    assert(fields.contains(fields[0]));
    assert(fields.contains(fields[1]));
    assert(fields.contains(fields[2]));
    assert(fields.contains(fields[3]));
    assert(fields.contains(fields[4]));
}

/// A state is said with its time, its channel and its HTLCs where HTLCs are asked for.
pub proof fn law_htlc_states_are_said(item: SampleItemView)
    ensures
        ({
            let said = state_json(item, true);
            &&& width(said) == 19
            &&& has(said, "cursor"@, number(item.id))
            &&& has(said, "timestamp"@, number(item.timestamp))
            &&& has(said, "bucket_start"@, number_or_null(item.bucket_start))
            &&& has(said, "channel_identity"@, JsonView::Text(item.sample.channel_key))
            &&& has(said, "channel_key"@, JsonView::Text(item.sample.channel_key))
            &&& has(said, "channel_id"@, words_or_null(item.sample.channel_id))
            &&& has(said, "short_channel_id"@, words_or_null(item.sample.short_channel_id))
            &&& has(said, "peer_id"@, JsonView::Text(item.sample.peer_id))
            &&& has(said, "htlc_in_count"@, number(item.sample.htlc_in_count))
            &&& has(said, "htlc_out_count"@, number(item.sample.htlc_out_count))
            &&& has(said, "htlc_in_msat"@, number(item.sample.htlc_in_msat))
            &&& has(said, "htlc_out_msat"@, number(item.sample.htlc_out_msat))
            &&& has(said, "blockheight"@, number_or_null(item.sample.blockheight))
            &&& has(said, "htlc_min_expiry"@, number_or_null(item.sample.htlc_min_expiry))
            &&& has(said, "htlc_max_expiry"@, number_or_null(item.sample.htlc_max_expiry))
            &&& has(said, "htlc_hooked_count"@, number(item.sample.htlc_hooked_count))
            &&& has(said, "htlc_trimmed_count"@, number(item.sample.htlc_trimmed_count))
            &&& has(said, "max_accepted_htlcs"@, number_or_null(item.sample.max_accepted_htlcs))
            &&& has(said, "channel_details"@, details_json(item.details))
        }),
{
    let fields = (state_json(item, true))->Object_0;
    assert(fields.contains(fields[0]));
    assert(fields.contains(fields[1]));
    assert(fields.contains(fields[2]));
    assert(fields.contains(fields[3]));
    assert(fields.contains(fields[4]));
    assert(fields.contains(fields[5]));
    assert(fields.contains(fields[6]));
    assert(fields.contains(fields[7]));
    assert(fields.contains(fields[8]));
    assert(fields.contains(fields[9]));
    assert(fields.contains(fields[10]));
    assert(fields.contains(fields[11]));
    assert(fields.contains(fields[12]));
    assert(fields.contains(fields[13]));
    assert(fields.contains(fields[14]));
    assert(fields.contains(fields[15]));
    assert(fields.contains(fields[16]));
    assert(fields.contains(fields[17]));
    assert(fields.contains(fields[18]));
}

/// A state is said with all of that and with its balances and policies where channels are asked for.
pub proof fn law_channel_states_are_said(item: SampleItemView)
    ensures
        ({
            let said = state_json(item, false);
            &&& width(said) == 28
            &&& has(said, "cursor"@, number(item.id))
            &&& has(said, "timestamp"@, number(item.timestamp))
            &&& has(said, "bucket_start"@, number_or_null(item.bucket_start))
            &&& has(said, "channel_identity"@, JsonView::Text(item.sample.channel_key))
            &&& has(said, "channel_key"@, JsonView::Text(item.sample.channel_key))
            &&& has(said, "channel_id"@, words_or_null(item.sample.channel_id))
            &&& has(said, "short_channel_id"@, words_or_null(item.sample.short_channel_id))
            &&& has(said, "peer_id"@, JsonView::Text(item.sample.peer_id))
            &&& has(said, "htlc_in_count"@, number(item.sample.htlc_in_count))
            &&& has(said, "htlc_out_count"@, number(item.sample.htlc_out_count))
            &&& has(said, "htlc_in_msat"@, number(item.sample.htlc_in_msat))
            &&& has(said, "htlc_out_msat"@, number(item.sample.htlc_out_msat))
            &&& has(said, "blockheight"@, number_or_null(item.sample.blockheight))
            &&& has(said, "htlc_min_expiry"@, number_or_null(item.sample.htlc_min_expiry))
            &&& has(said, "htlc_max_expiry"@, number_or_null(item.sample.htlc_max_expiry))
            &&& has(said, "htlc_hooked_count"@, number(item.sample.htlc_hooked_count))
            &&& has(said, "htlc_trimmed_count"@, number(item.sample.htlc_trimmed_count))
            &&& has(said, "max_accepted_htlcs"@, number_or_null(item.sample.max_accepted_htlcs))
            &&& has(said, "channel_details"@, details_json(item.details))
            &&& has(said, "state"@, JsonView::Text(item.sample.state))
            &&& has(said, "connected"@, JsonView::Bool(item.sample.connected))
            &&& has(said, "reestablished"@, JsonView::Bool(item.sample.reestablished))
            &&& has(said, "capacity_msat"@, number(item.sample.capacity_msat))
            &&& has(said, "to_us_msat"@, number(item.sample.to_us_msat))
            &&& has(said, "spendable_msat"@, number(item.sample.spendable_msat))
            &&& has(said, "receivable_msat"@, number(item.sample.receivable_msat))
            &&& has(said, "local_policy"@, policy_json(item.sample.local_policy))
            &&& has(said, "remote_policy"@, policy_json(item.sample.remote_policy))
        }),
{
    let fields = (state_json(item, false))->Object_0;
    assert(fields.contains(fields[0]));
    assert(fields.contains(fields[1]));
    assert(fields.contains(fields[2]));
    assert(fields.contains(fields[3]));
    assert(fields.contains(fields[4]));
    assert(fields.contains(fields[5]));
    assert(fields.contains(fields[6]));
    assert(fields.contains(fields[7]));
    assert(fields.contains(fields[8]));
    assert(fields.contains(fields[9]));
    assert(fields.contains(fields[10]));
    assert(fields.contains(fields[11]));
    assert(fields.contains(fields[12]));
    assert(fields.contains(fields[13]));
    assert(fields.contains(fields[14]));
    assert(fields.contains(fields[15]));
    assert(fields.contains(fields[16]));
    assert(fields.contains(fields[17]));
    assert(fields.contains(fields[18]));
    assert(fields.contains(fields[19]));
    assert(fields.contains(fields[20]));
    assert(fields.contains(fields[21]));
    assert(fields.contains(fields[22]));
    assert(fields.contains(fields[23]));
    assert(fields.contains(fields[24]));
    assert(fields.contains(fields[25]));
    assert(fields.contains(fields[26]));
    assert(fields.contains(fields[27]));
}

/// A page of states of channels is said with its range, its interval, the states and the next page.
pub proof fn law_pages_of_channel_states_are_said(page: SamplePageView)
    ensures
        ({
            let said = channel_samples_json(page);
            &&& width(said) == 7
            &&& has(said, "api_version"@, number(2))
            &&& has(said, "start"@, number(page.start))
            &&& has(said, "end"@, number(page.end))
            &&& has(said, "change_only"@, JsonView::Bool(true))
            &&& has(said, "interval"@, number_or_null(page.interval))
            &&& has(said, "samples"@, samples_json(page.items, false))
            &&& has(said, "pagination"@, pagination_json(page.next_cursor, page.has_more))
        }),
{
    let fields = (channel_samples_json(page))->Object_0;
    assert(fields.contains(fields[0]));
    assert(fields.contains(fields[1]));
    assert(fields.contains(fields[2]));
    assert(fields.contains(fields[3]));
    assert(fields.contains(fields[4]));
    assert(fields.contains(fields[5]));
    assert(fields.contains(fields[6]));
}

/// A page of states of HTLCs is said with its range, its interval, the states and the next page.
pub proof fn law_pages_of_htlc_states_are_said(page: SamplePageView)
    ensures
        ({
            let said = htlc_samples_json(page);
            &&& width(said) == 6
            &&& has(said, "api_version"@, number(2))
            &&& has(said, "start"@, number(page.start))
            &&& has(said, "end"@, number(page.end))
            &&& has(said, "interval"@, number_or_null(page.interval))
            &&& has(said, "samples"@, samples_json(page.items, true))
            &&& has(said, "pagination"@, pagination_json(page.next_cursor, page.has_more))
        }),
{
    let fields = (htlc_samples_json(page))->Object_0;
    assert(fields.contains(fields[0]));
    assert(fields.contains(fields[1]));
    assert(fields.contains(fields[2]));
    assert(fields.contains(fields[3]));
    assert(fields.contains(fields[4]));
    assert(fields.contains(fields[5]));
}

/// A pair is said with its time, its channels, its result, its sums and its rate. A code or a reason
/// that is none is null.
pub proof fn law_pairs_are_said(item: PairItemView, rate: Seq<char>)
    ensures
        ({
            let said = pair_json(item, rate);
            &&& width(said) == 15
            &&& has(said, "period"@, number(item.totals.bucket_start))
            &&& has(said, "in_channel"@, JsonView::Text(item.totals.in_channel))
            &&& has(said, "out_channel"@, JsonView::Text(item.totals.out_channel))
            &&& has(said, "status"@, JsonView::Text(item.totals.status))
            &&& has(
                said,
                "failcode"@,
                if item.totals.failcode == 0 {
                    JsonView::Null
                } else {
                    number(item.totals.failcode)
                },
            )
            &&& has(
                said,
                "failreason"@,
                if item.totals.failreason.len() == 0 {
                    JsonView::Null
                } else {
                    JsonView::Text(item.totals.failreason)
                },
            )
            &&& has(said, "forward_count"@, sum_json(item.totals.forward_count))
            &&& has(said, "in_msat"@, sum_json(item.totals.in_msat))
            &&& has(said, "out_msat"@, sum_json(item.totals.out_msat))
            &&& has(said, "fee_msat"@, sum_json(item.totals.fee_msat))
            &&& has(said, "effective_ppm"@, JsonView::Number(NumberView::Float(rate)))
            &&& has(said, "in_channel_identity"@, JsonView::Text(item.totals.in_channel))
            &&& has(said, "out_channel_identity"@, JsonView::Text(item.totals.out_channel))
            &&& has(said, "in_channel_details"@, details_json(item.in_details))
            &&& has(said, "out_channel_details"@, details_json(item.out_details))
        }),
{
    let fields = (pair_json(item, rate))->Object_0;
    assert(fields.contains(fields[0]));
    assert(fields.contains(fields[1]));
    assert(fields.contains(fields[2]));
    assert(fields.contains(fields[3]));
    assert(fields.contains(fields[4]));
    assert(fields.contains(fields[5]));
    assert(fields.contains(fields[6]));
    assert(fields.contains(fields[7]));
    assert(fields.contains(fields[8]));
    assert(fields.contains(fields[9]));
    assert(fields.contains(fields[10]));
    assert(fields.contains(fields[11]));
    assert(fields.contains(fields[12]));
    assert(fields.contains(fields[13]));
    assert(fields.contains(fields[14]));
}

/// A page of pairs is said with its range, its interval, the pairs and the next page.
pub proof fn law_pages_of_pairs_are_said(page: PairPageView, rates: Seq<Seq<char>>)
    ensures
        ({
            let said = forward_pairs_json(page, rates);
            &&& width(said) == 6
            &&& has(said, "api_version"@, number(2))
            &&& has(said, "start"@, number(page.start))
            &&& has(said, "end"@, number(page.end))
            &&& has(said, "interval"@, number(page.interval))
            &&& has(said, "pairs"@, pairs_json(page.items, rates))
            &&& has(said, "pagination"@, pagination_json(page.next_cursor, page.has_more))
        }),
{
    let fields = (forward_pairs_json(page, rates))->Object_0;
    assert(fields.contains(fields[0]));
    assert(fields.contains(fields[1]));
    assert(fields.contains(fields[2]));
    assert(fields.contains(fields[3]));
    assert(fields.contains(fields[4]));
    assert(fields.contains(fields[5]));
}

/// An event is said with its time, its type, its channel and its peer, and what changed and why.
pub proof fn law_events_are_said(event: EventRow<Seq<char>>)
    ensures
        ({
            let said = <EventRow<String> as Answer>::said(event);
            &&& width(said) == 13
            &&& has(said, "cursor"@, number(event.id))
            &&& has(said, "timestamp"@, number(event.ts))
            &&& has(said, "event_type"@, JsonView::Text(event.event_type))
            &&& has(said, "channel_identity"@, words_or_null(event.channel_key))
            &&& has(said, "channel_key"@, words_or_null(event.channel_key))
            &&& has(said, "channel_id"@, words_or_null(event.channel_id))
            &&& has(said, "short_channel_id"@, words_or_null(event.short_channel_id))
            &&& has(said, "peer_id"@, words_or_null(event.peer_id))
            &&& has(said, "old_state"@, words_or_null(event.old_state))
            &&& has(said, "new_state"@, words_or_null(event.new_state))
            &&& has(said, "cause"@, words_or_null(event.cause))
            &&& has(said, "direction"@, words_or_null(event.direction))
            &&& has(said, "reason"@, words_or_null(event.reason))
        }),
{
    let fields = (<EventRow<String> as Answer>::said(event))->Object_0;
    assert(fields.contains(fields[0]));
    assert(fields.contains(fields[1]));
    assert(fields.contains(fields[2]));
    assert(fields.contains(fields[3]));
    assert(fields.contains(fields[4]));
    assert(fields.contains(fields[5]));
    assert(fields.contains(fields[6]));
    assert(fields.contains(fields[7]));
    assert(fields.contains(fields[8]));
    assert(fields.contains(fields[9]));
    assert(fields.contains(fields[10]));
    assert(fields.contains(fields[11]));
    assert(fields.contains(fields[12]));
}

/// A page of events is said with its range, the events and the next page.
pub proof fn law_pages_of_events_are_said(page: EventPageView)
    ensures
        ({
            let said = events_json(page);
            &&& width(said) == 5
            &&& has(said, "api_version"@, number(2))
            &&& has(said, "start"@, number(page.start))
            &&& has(said, "end"@, number(page.end))
            &&& has(said, "events"@, list_json::<EventRow<String>>(page.items))
            &&& has(said, "pagination"@, pagination_json(page.next_cursor, page.has_more))
        }),
{
    let fields = (events_json(page))->Object_0;
    assert(fields.contains(fields[0]));
    assert(fields.contains(fields[1]));
    assert(fields.contains(fields[2]));
    assert(fields.contains(fields[3]));
    assert(fields.contains(fields[4]));
}

/// A hop is said with its place, its channel and its direction, where it goes and what it carries.
pub proof fn law_hops_are_said(item: HopItemView)
    ensures
        ({
            let said = <HopItem as Answer>::said(item);
            &&& width(said) == 10
            &&& has(said, "hop_index"@, number(item.hop.hop_index))
            &&& has(said, "channel_identity"@, JsonView::Text(item.identity))
            &&& has(said, "channel_details"@, details_json(item.details))
            &&& has(said, "short_channel_id"@, JsonView::Text(item.hop.short_channel_id))
            &&& has(said, "short_channel_id_dir"@, JsonView::Text(item.directed))
            &&& has(said, "direction"@, number(item.hop.direction))
            &&& has(said, "node_id_out"@, JsonView::Text(item.hop.node_id_out))
            &&& has(said, "amount_out_msat"@, number(item.hop.amount_out_msat))
            &&& has(said, "cltv_out"@, number(item.hop.cltv_out))
            &&& has(said, "status"@, JsonView::Text(item.hop.status))
        }),
{
    let fields = (<HopItem as Answer>::said(item))->Object_0;
    assert(fields.contains(fields[0]));
    assert(fields.contains(fields[1]));
    assert(fields.contains(fields[2]));
    assert(fields.contains(fields[3]));
    assert(fields.contains(fields[4]));
    assert(fields.contains(fields[5]));
    assert(fields.contains(fields[6]));
    assert(fields.contains(fields[7]));
    assert(fields.contains(fields[8]));
    assert(fields.contains(fields[9]));
}

/// The failure of a probe is said with its codes and where it happened.
pub proof fn law_failures_are_said(probe: ProbeRow<Seq<char>>)
    ensures
        ({
            let said = failure_json(probe);
            &&& width(said) == 7
            &&& has(said, "code"@, signed_or_null(probe.failure_code))
            &&& has(said, "failcode"@, signed_or_null(probe.failcode))
            &&& has(said, "failcodename"@, words_or_null(probe.failcodename))
            &&& has(said, "erring_index"@, signed_or_null(probe.erring_index))
            &&& has(said, "erring_channel"@, words_or_null(probe.erring_channel))
            &&& has(said, "erring_direction"@, signed_or_null(probe.erring_direction))
            &&& has(said, "erring_node"@, words_or_null(probe.erring_node))
        }),
{
    let fields = (failure_json(probe))->Object_0;
    assert(fields.contains(fields[0]));
    assert(fields.contains(fields[1]));
    assert(fields.contains(fields[2]));
    assert(fields.contains(fields[3]));
    assert(fields.contains(fields[4]));
    assert(fields.contains(fields[5]));
    assert(fields.contains(fields[6]));
}

/// A probe is said with its times, how it ended, its amounts, its failure and its route.
pub proof fn law_probes_are_said(item: ProbeItemView)
    ensures
        ({
            let said = <ProbeItem as Answer>::said(item);
            &&& width(said) == 15
            &&& has(said, "cursor"@, number(item.probe.id))
            &&& has(said, "timestamp"@, number(item.probe.ts))
            &&& has(said, "started_at"@, number_or_null(item.probe.started_at))
            &&& has(said, "duration_ms"@, number_or_null(item.probe.duration_ms))
            &&& has(said, "plugin_version"@, words_or_null(item.probe.plugin_version))
            &&& has(said, "status"@, JsonView::Text(item.probe.status))
            &&& has(said, "destination_reached"@, JsonView::Bool(item.probe.destination_reached))
            &&& has(said, "destination"@, words_or_null(item.probe.destination))
            &&& has(said, "delivered_msat"@, number(item.probe.delivered_msat))
            &&& has(said, "amount_at_source_msat"@, number(item.probe.amount_at_source_msat))
            &&& has(said, "total_fee_msat"@, number(item.probe.total_fee_msat))
            &&& has(said, "lower_bound_msat"@, number_or_null(item.probe.lower_bound_msat))
            &&& has(said, "failure"@, failure_json(item.probe))
            &&& has(said, "route_key"@, JsonView::Text(item.route_key))
            &&& has(said, "route"@, list_json::<HopItem>(item.route))
        }),
{
    let fields = (<ProbeItem as Answer>::said(item))->Object_0;
    assert(fields.contains(fields[0]));
    assert(fields.contains(fields[1]));
    assert(fields.contains(fields[2]));
    assert(fields.contains(fields[3]));
    assert(fields.contains(fields[4]));
    assert(fields.contains(fields[5]));
    assert(fields.contains(fields[6]));
    assert(fields.contains(fields[7]));
    assert(fields.contains(fields[8]));
    assert(fields.contains(fields[9]));
    assert(fields.contains(fields[10]));
    assert(fields.contains(fields[11]));
    assert(fields.contains(fields[12]));
    assert(fields.contains(fields[13]));
    assert(fields.contains(fields[14]));
}

/// A row of probes is said with its span of time, its route, its counts, its amounts and its times.
pub proof fn law_rows_of_probes_are_said(group: AggregateView)
    ensures
        ({
            let said = <ProbeAggregate as Answer>::said(group);
            &&& width(said) == 12
            &&& has(said, "period"@, number(group.period))
            &&& has(said, "route_key"@, JsonView::Text(group.route_key))
            &&& has(said, "route"@, list_json::<HopItem>(group.route))
            &&& has(said, "attempts"@, number(group.attempts))
            &&& has(said, "destination_reached"@, number(group.destination_reached))
            &&& has(said, "route_failed"@, number(group.route_failed))
            &&& has(said, "unexpected_settlement"@, number(group.unexpected_settlement))
            &&& has(said, "max_success_msat"@, number_or_null(group.max_success_msat))
            &&& has(said, "smallest_failed_msat"@, number_or_null(group.smallest_failed_msat))
            &&& has(said, "last_success_at"@, number_or_null(group.last_success_at))
            &&& has(said, "last_observed_at"@, number(group.last_observed_at))
            &&& has(said, "failures"@, counts_json(group.failures))
        }),
{
    let fields = (<ProbeAggregate as Answer>::said(group))->Object_0;
    assert(fields.contains(fields[0]));
    assert(fields.contains(fields[1]));
    assert(fields.contains(fields[2]));
    assert(fields.contains(fields[3]));
    assert(fields.contains(fields[4]));
    assert(fields.contains(fields[5]));
    assert(fields.contains(fields[6]));
    assert(fields.contains(fields[7]));
    assert(fields.contains(fields[8]));
    assert(fields.contains(fields[9]));
    assert(fields.contains(fields[10]));
    assert(fields.contains(fields[11]));
}

/// A page of probes is said with its range, its interval, the probes or their rows, and the next page.
pub proof fn law_pages_of_probes_are_said(page: ProbePageView)
    ensures
        ({
            let said = probes_json(page);
            &&& width(said) == 6
            &&& has(said, "api_version"@, number(2))
            &&& has(said, "start"@, number(page.start))
            &&& has(said, "end"@, number(page.end))
            &&& has(said, "interval"@, number_or_null(page.interval))
            &&& has(
                said,
                "probes"@,
                match page.items {
                    ProbeItemsView::Raw(items) => list_json::<ProbeItem>(items),
                    ProbeItemsView::Aggregated(groups) => list_json::<ProbeAggregate>(groups),
                },
            )
            &&& has(said, "pagination"@, pagination_json(page.next_cursor, page.has_more))
        }),
{
    let fields = (probes_json(page))->Object_0;
    assert(fields.contains(fields[0]));
    assert(fields.contains(fields[1]));
    assert(fields.contains(fields[2]));
    assert(fields.contains(fields[3]));
    assert(fields.contains(fields[4]));
    assert(fields.contains(fields[5]));
}

/// A run is said with its time, whether it succeeded, how many channels it found, and what went wrong.
pub proof fn law_runs_are_said(run: RunRow<Seq<char>>)
    ensures
        ({
            let said = run_json(Some(run));
            &&& width(said) == 4
            &&& has(said, "timestamp"@, number(run.ts))
            &&& has(said, "success"@, JsonView::Bool(run.success))
            &&& has(said, "channel_count"@, number_or_null(run.channel_count))
            &&& has(said, "error"@, words_or_null(run.error))
        }),
{
    let fields = (run_json(Some(run)))->Object_0;
    assert(fields.contains(fields[0]));
    assert(fields.contains(fields[1]));
    assert(fields.contains(fields[2]));
    assert(fields.contains(fields[3]));
}

/// The numbers of rows are said under the names of the tables.
pub proof fn law_counts_are_said(counts: Counts)
    ensures
        ({
            let said = row_counts_json(counts);
            &&& width(said) == 8
            &&& has(said, "channels"@, number(counts.channels))
            &&& has(said, "channel_samples"@, number(counts.channel_samples))
            &&& has(said, "channel_events"@, number(counts.channel_events))
            &&& has(said, "peer_connection_events"@, number(counts.peer_connection_events))
            &&& has(said, "forward_pair_buckets"@, number(counts.forward_pair_buckets))
            &&& has(said, "probe_events"@, number(counts.probe_events))
            &&& has(said, "successful_probe_events"@, number(counts.successful_probe_events))
            &&& has(said, "channel_aliases"@, number(counts.channel_aliases))
        }),
{
    let fields = (row_counts_json(counts))->Object_0;
    assert(fields.contains(fields[0]));
    assert(fields.contains(fields[1]));
    assert(fields.contains(fields[2]));
    assert(fields.contains(fields[3]));
    assert(fields.contains(fields[4]));
    assert(fields.contains(fields[5]));
    assert(fields.contains(fields[6]));
    assert(fields.contains(fields[7]));
}

/// The time that is covered is said with its beginning and its end.
pub proof fn law_coverage_is_said(oldest: Option<u64>, newest: Option<u64>)
    ensures
        ({
            let said = coverage_json(oldest, newest);
            &&& width(said) == 2
            &&& has(said, "oldest"@, number_or_null(oldest))
            &&& has(said, "newest"@, number_or_null(newest))
        }),
{
    let fields = (coverage_json(oldest, newest))->Object_0;
    assert(fields.contains(fields[0]));
    assert(fields.contains(fields[1]));
}

/// The status is said with the database and its sizes, its settings, what it covers, the last run and the
/// numbers of rows.
pub proof fn law_status_is_said(status: Status, storage: Storage, path: Seq<char>)
    ensures
        ({
            let said = status_json(status, storage, path);
            &&& width(said) == 13
            &&& has(said, "api_version"@, number(2))
            &&& has(said, "schema_version"@, number(status.schema_version))
            &&& has(said, "database"@, JsonView::Text(path))
            &&& has(said, "database_bytes"@, number(storage.database_bytes))
            &&& has(said, "wal_bytes"@, number(storage.wal_bytes))
            &&& has(said, "storage_bytes"@, number(storage.storage_bytes))
            &&& has(said, "retention_days"@, number(status.retention_days))
            &&& has(said, "change_only"@, JsonView::Bool(true))
            &&& has(said, "checkpoint_seconds"@, number(status.checkpoint_seconds))
            &&& has(said, "forward_bucket_seconds"@, number(status.forward_bucket_seconds))
            &&& has(said, "coverage"@, coverage_json(status.oldest, status.newest))
            &&& has(said, "last_collection"@, run_json(status.last_collection.deep_view()))
            &&& has(said, "counts"@, row_counts_json(status.counts))
        }),
{
    let fields = (status_json(status, storage, path))->Object_0;
    assert(fields.contains(fields[0]));
    assert(fields.contains(fields[1]));
    assert(fields.contains(fields[2]));
    assert(fields.contains(fields[3]));
    assert(fields.contains(fields[4]));
    assert(fields.contains(fields[5]));
    assert(fields.contains(fields[6]));
    assert(fields.contains(fields[7]));
    assert(fields.contains(fields[8]));
    assert(fields.contains(fields[9]));
    assert(fields.contains(fields[10]));
    assert(fields.contains(fields[11]));
    assert(fields.contains(fields[12]));
}

/// A family of metrics is said with its name, its help, its kind and its samples.
pub proof fn law_families_are_said(family: Family)
    ensures
        ({
            let said = family_json(family);
            &&& width(said) == 4
            &&& has(said, "name"@, JsonView::Text(family.name@))
            &&& has(said, "help"@, JsonView::Text(family.help@))
            &&& has(said, "type"@, JsonView::Text(family.kind.text()))
            &&& has(
                said,
                "samples"@,
                JsonView::Array(
                    Seq::new(
                        family.samples@.len(),
                        |i: int| metric_sample_json(family.samples@[i]),
                    ),
                ),
            )
        }),
{
    let fields = (family_json(family))->Object_0;
    assert(fields.contains(fields[0]));
    assert(fields.contains(fields[1]));
    assert(fields.contains(fields[2]));
    assert(fields.contains(fields[3]));
}

/// The metrics are said with their version, their namespace and their families.
pub proof fn law_metrics_are_said(metrics: WireMetrics)
    ensures
        ({
            let said = metrics_json(metrics);
            &&& width(said) == 3
            &&& has(said, "version"@, number(metrics.version))
            &&& has(said, "namespace"@, JsonView::Text(metrics.namespace@))
            &&& has(
                said,
                "families"@,
                JsonView::Array(
                    Seq::new(metrics.families@.len(), |i: int| family_json(metrics.families@[i])),
                ),
            )
        }),
{
    let fields = (metrics_json(metrics))->Object_0;
    assert(fields.contains(fields[0]));
    assert(fields.contains(fields[1]));
    assert(fields.contains(fields[2]));
}

/// A sample is said with its value, and with its labels where it has any.
pub proof fn law_samples_are_said(sample: Sample)
    ensures
        ({
            let said = metric_sample_json(sample);
            let value = JsonView::Number(crate::answers::number_view(sample.value));
            &&& has(said, "value"@, value)
            &&& sample.labels@.len() == 0 ==> width(said) == 1
            &&& sample.labels@.len() > 0 ==> width(said) == 2 && has(
                said,
                "labels"@,
                labels_json(sample.labels@),
            )
        }),
{
    let fields = metric_sample_json(sample)->Object_0;
    assert(fields.contains(fields[0]));
    assert(fields.contains(fields[fields.len() - 1]));
}

/// A label is said under its name, a count under its key.
pub proof fn law_entries_are_said(sample: Sample, group: AggregateView, i: int)
    ensures
        0 <= i < sample.labels@.len() ==> has(
            labels_json(sample.labels@),
            sample.labels@[i].0[0],
            JsonView::Text(sample.labels@[i].1@),
        ),
        0 <= i < group.failures.len() ==> has(
            counts_json(group.failures),
            group.failures[i].0[0],
            number(group.failures[i].1),
        ),
        width(labels_json(sample.labels@)) == sample.labels@.len(),
        width(counts_json(group.failures)) == group.failures.len(),
{
    if 0 <= i < sample.labels@.len() {
        let fields = labels_json(sample.labels@)->Object_0;
        assert(fields.contains(fields[i]));
    }
    if 0 <= i < group.failures.len() {
        let fields = counts_json(group.failures)->Object_0;
        assert(fields.contains(fields[i]));
    }
}

/// What is not there is said as null: a channel that is not known, and a run that never was.
pub proof fn law_nothing_is_said_as_null()
    ensures
        current_json(None) == JsonView::Null,
        run_json(None) == JsonView::Null,
{
}

/// A node that answers is healthy. One that does not is not, and what went wrong is said.
pub proof fn law_health_is_said(error: Seq<char>)
    ensures
        width(health_json(None)) == 1,
        has(health_json(None), "healthy"@, JsonView::Bool(true)),
        width(health_json(Some(error))) == 2,
        has(health_json(Some(error)), "healthy"@, JsonView::Bool(false)),
        has(health_json(Some(error)), "error"@, JsonView::Text(error)),
{
    let fine = health_json(None)->Object_0;
    assert(fine.contains(fine[0]));
    let wrong = health_json(Some(error))->Object_0;
    assert(wrong.contains(wrong[0]));
    assert(wrong.contains(wrong[1]));
}

/// A sum is said exactly: as a number where it is small enough for one, and by its digits where not.
pub proof fn law_sums_are_said(n: u128)
    ensures
        n <= u64::MAX ==> sum_json(n) == number(n as u64),
        n > u64::MAX ==> sum_json(n) == JsonView::Number(NumberView::Float(decimal(n as nat))),
{
}

/// Lists are said one by one, in their order.
pub proof fn law_lists_are_said(
    states: Seq<SampleItemView>,
    pairs: Seq<PairItemView>,
    rates: Seq<Seq<char>>,
    htlcs_only: bool,
)
    ensures
        samples_json(states, htlcs_only) matches JsonView::Array(items) && items.len()
            == states.len() && forall|i: int|
            0 <= i < items.len() ==> #[trigger] items[i] == state_json(states[i], htlcs_only),
        pairs_json(pairs, rates) matches JsonView::Array(items) && items.len() == pairs.len()
            && forall|i: int|
            0 <= i < items.len() ==> #[trigger] items[i] == pair_json(pairs[i], rates[i]),
{
}

/// Lists of rows are said one by one, in their order.
pub proof fn law_rows_are_said<T: Answer>(rows: Seq<T::V>)
    ensures
        list_json::<T>(rows) matches JsonView::Array(items) && items.len() == rows.len()
            && forall|i: int| 0 <= i < items.len() ==> #[trigger] items[i] == T::said(rows[i]),
{
}

proof fn lemma_items(items: Seq<Json>)
    ensures
        items_view(items).len() == items.len(),
        forall|i: int|
            0 <= i < items.len() ==> #[trigger] items_view(items)[i] == json_view(items[i]),
    decreases items.len(),
{
    if items.len() > 0 {
        let front = items.drop_last();
        lemma_items(front);
        assert forall|i: int| 0 <= i < items.len() implies #[trigger] items_view(items)[i]
            == json_view(items[i]) by {
            if i < front.len() {
                assert(front[i] == items[i]);
                assert(items_view(items)[i] == items_view(front)[i]);
            }
        }
    }
}

proof fn lemma_fields(fields: Seq<(String, Json)>)
    ensures
        fields_view(fields).len() == fields.len(),
        forall|i: int|
            0 <= i < fields.len() ==> #[trigger] fields_view(fields)[i] == (
                fields[i].0@,
                json_view(fields[i].1),
            ),
    decreases fields.len(),
{
    if fields.len() > 0 {
        let front = fields.drop_last();
        lemma_fields(front);
        assert forall|i: int| 0 <= i < fields.len() implies #[trigger] fields_view(fields)[i] == (
            fields[i].0@,
            json_view(fields[i].1),
        ) by {
            if i < front.len() {
                assert(front[i] == fields[i]);
                assert(fields_view(fields)[i] == fields_view(front)[i]);
            }
        }
    }
}

/// An answer is what its value says: item by item, field by field.
pub proof fn law_answers_are_what_their_values_say(value: Json)
    ensures
        value is Null ==> json_view(value) == JsonView::Null,
        value matches Json::Bool(b) ==> json_view(value) == JsonView::Bool(b),
        value matches Json::Text(s) ==> json_view(value) == JsonView::Text(s@),
        value matches Json::Number(JsonNumber::Unsigned(n)) ==> json_view(value) == number(n),
        value matches Json::Number(JsonNumber::Negative(n)) ==> json_view(value)
            == JsonView::Number(NumberView::Negative(n)),
        value matches Json::Number(JsonNumber::Float(s)) ==> json_view(value) == JsonView::Number(
            NumberView::Float(s@),
        ),
        value matches Json::Array(items) ==> (json_view(value) matches JsonView::Array(said)
            && said.len() == items@.len() && forall|i: int|
            0 <= i < said.len() ==> #[trigger] said[i] == json_view(items@[i])),
        value matches Json::Object(fields) ==> (json_view(value) matches JsonView::Object(said)
            && said.len() == fields@.len() && forall|i: int|
            0 <= i < said.len() ==> (#[trigger] said[i]).0 == fields@[i].0@ && said[i].1
                == json_view(fields@[i].1)),
{
    if let Json::Array(items) = value {
        lemma_items(items@);
    }
    if let Json::Object(fields) = value {
        lemma_fields(fields@);
    }
}

} // verus!
