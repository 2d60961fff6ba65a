//! Which requests and settings are accepted, and how they are read.

use crate::activity::{
    forward_fits, observed_at, probe_fits, probe_outcome, probe_row, route_problem,
};
use crate::events::{can_count, CountersView};
use crate::exporter::{can_take, is_plugin_topic, notification, settings_problem, SettingsError};
use crate::history::{history_settings_problem, HistorySettingsError};
use crate::json::{Json, JsonNumber};
use crate::lookups::group_fits;
use crate::model::{sample_of, ChannelPolicy, SampleView};
use crate::queries::{
    event_query_of, is_event_outcome, is_pair_outcome, is_probe_outcome, is_range_outcome,
    is_sample_outcome, pair_query_of, probe_query_of, range_of, rates_cross, sample_query_of,
    EventQuery, PairQuery, PairQueryView, Params, ProbeQuery, ProbeQueryView, QueryError,
    RangeQuery, RangeView, SampleQuery, SampleQueryView,
};
use crate::recording::{channels_fit, has_ids_for, sample_fits, snapshot_problem, HistoryError};
use crate::store::{BucketRow, DbView, ProbeRow};
use crate::text::decimal;
use vstd::prelude::*;

verus! {

/// The number at a place of a list.
pub open spec fn number_at(values: Seq<Json>, i: int) -> Option<u64> {
    if 0 <= i < values.len() {
        match values[i] {
            Json::Number(JsonNumber::Unsigned(n)) => Some(n),
            _ => None,
        }
    } else {
        None
    }
}

/// The words at a place of a list.
pub open spec fn words_at(values: Seq<Json>, i: int) -> Option<Seq<char>> {
    if 0 <= i < values.len() {
        match values[i] {
            Json::Text(text) => Some(text@),
            _ => None,
        }
    } else {
        None
    }
}

/// Whether a range is read off a list: the start and the end stand first, the limit and the cursor at
/// their places, and the limit is ten thousand if none is given.
pub open spec fn reads_range(range: RangeView, values: Seq<Json>, limit: int, cursor: int) -> bool {
    &&& range.start == number_at(values, 0)
    &&& range.end == number_at(values, 1)
    &&& range.cursor == number_at(values, cursor)
    &&& number_at(values, limit) matches Some(n) ==> range.limit == n
    &&& number_at(values, limit) is None ==> range.limit == 10_000
}

/// Requests that are lists are read by place.
pub proof fn law_lists_are_read_by_place(values: Vec<Json>)
    ensures
        ({
            let range = range_of(Params::Positional(values));
            &&& reads_range(range, values@, 3, 4)
            &&& range.channel == words_at(values@, 2)
        }),
        ({
            let query = sample_query_of(Params::Positional(values));
            &&& reads_range(query.range, values@, 3, 4)
            &&& query.range.channel == words_at(values@, 2)
            &&& query.interval == number_at(values@, 5)
        }),
        ({
            let query = pair_query_of(Params::Positional(values));
            &&& reads_range(query.range, values@, 7, 8)
            &&& query.range.channel is None
            &&& number_at(values@, 2) matches Some(n) ==> query.interval == n
            &&& number_at(values@, 2) is None ==> query.interval == 3_600
            &&& query.in_channel == words_at(values@, 3)
            &&& query.out_channel == words_at(values@, 4)
            &&& values@.len() > 5 ==> (values@[5] matches Json::Number(n) ==> query.min_ppm == Some(
                n,
            ))
            &&& values@.len() > 6 ==> (values@[6] matches Json::Number(n) ==> query.max_ppm == Some(
                n,
            ))
            &&& values@.len() <= 5 || !(values@[5] is Number) ==> query.min_ppm is None
            &&& values@.len() <= 6 || !(values@[6] is Number) ==> query.max_ppm is None
        }),
        ({
            let query = event_query_of(Params::Positional(values));
            &&& reads_range(query.range, values@, 4, 5)
            &&& query.range.channel == words_at(values@, 2)
            &&& query.event_type == words_at(values@, 3)
        }),
        ({
            let query = probe_query_of(Params::Positional(values));
            &&& reads_range(query.range, values@, 5, 6)
            &&& query.range.channel == words_at(values@, 2)
            &&& query.status == words_at(values@, 3)
            &&& query.interval == number_at(values@, 4)
            &&& query.destination is None
        }),
{
}

/// Requests with names are taken as they are.
pub proof fn law_named_requests_are_taken_as_they_are(
    range: RangeQuery,
    samples: SampleQuery,
    pairs: PairQuery,
    probes: ProbeQuery,
)
    ensures
        range_of(Params::Named(range)) == range@,
        sample_query_of(Params::Named(samples)) == samples@,
        pair_query_of(Params::Named(pairs)) == pairs@,
        probe_query_of(Params::Named(probes)) == probes@,
{
}

/// Whether a range does not end before it starts: from the beginning and until now where nothing else
/// is said.
pub open spec fn is_in_order(range: RangeView, now: u64) -> bool {
    match (range.start, range.end) {
        (Some(start), Some(end)) => start <= end,
        (Some(start), None) => start <= now,
        (None, _) => true,
    }
}

/// A range is accepted if and only if it does not end before it starts and its limit is from one to
/// fifty thousand.
pub proof fn law_ranges_are_accepted(range: RangeView, now: u64)
    ensures
        range.problem_at(now) is None <==> is_in_order(range, now) && 1 <= range.limit <= 50_000,
        !is_in_order(range, now) ==> range.problem_at(now) == Some(QueryError::StartAfterEnd),
        is_in_order(range, now) && !(1 <= range.limit <= 50_000) ==> range.problem_at(now) == Some(
            QueryError::Limit,
        ),
{
}

/// Whether an interval is at least a minute and at most a year.
pub open spec fn is_interval(interval: u64) -> bool {
    60 <= interval <= 31_536_000
}

/// A request for samples or probes is accepted if and only if its range is, its interval is from a
/// minute to a year where it has one, and its status is one that a probe can end with.
pub proof fn law_requests_are_accepted(samples: SampleQueryView, probes: ProbeQueryView, now: u64)
    ensures
        samples.problem_at(now) is None <==> samples.range.problem_at(now) is None && (
        samples.interval matches Some(interval) ==> is_interval(interval)),
        samples.range.problem_at(now) is Some ==> samples.problem_at(now) == samples.range.problem_at(
            now,
        ),
        samples.range.problem_at(now) is None && samples.problem_at(now) is Some
            ==> samples.problem_at(now) == Some(QueryError::Interval),
        probes.problem_at(now) is None <==> probes.range.problem_at(now) is None && (
        probes.interval matches Some(interval) ==> is_interval(interval)) && (
        probes.status matches Some(status) ==> status == "destination_reached"@ || status
            == "route_failed"@ || status == "unexpected_settlement"@),
        probes.range.problem_at(now) is Some ==> probes.problem_at(now) == probes.range.problem_at(
            now,
        ),
        probes.problem_at(now) == Some(QueryError::Interval) ==> (
        probes.interval matches Some(interval) && !is_interval(interval)),
        probes.problem_at(now) == Some(QueryError::Status) ==> (
        probes.interval matches Some(interval) ==> is_interval(interval)),
{
}

/// A request for pairs is accepted if and only if its range is, its interval is from a minute to a year,
/// and its least rate is not above its greatest.
pub proof fn law_requests_for_pairs_are_accepted(pairs: PairQueryView, in_order: bool, now: u64)
    ensures
        pairs.problem_at(in_order, now) is None ==> pairs.range.problem_at(now) is None
            && is_interval(pairs.interval),
        pairs.range.problem_at(now) is Some ==> pairs.problem_at(in_order, now)
            == pairs.range.problem_at(now),
        pairs.range.problem_at(now) is None && !is_interval(pairs.interval) ==> pairs.problem_at(
            in_order,
            now,
        ) == Some(QueryError::Interval),
        pairs.range.problem_at(now) is None && is_interval(pairs.interval) ==> {
            &&& pairs.min_ppm is None || pairs.max_ppm is None ==> pairs.problem_at(
                in_order,
                now,
            ) is None
            &&& pairs.min_ppm matches Some(JsonNumber::Unsigned(min)) ==> (
            pairs.max_ppm matches Some(JsonNumber::Unsigned(max)) ==> (min <= 9_007_199_254_740_992
                && max <= 9_007_199_254_740_992 ==> pairs.problem_at(in_order, now) == if min <= max {
                None
            } else {
                Some(QueryError::PpmOrder)
            }))
            &&& pairs.min_ppm matches Some(JsonNumber::Float(_)) ==> (pairs.max_ppm is Some
                ==> pairs.problem_at(in_order, now) == if in_order {
                None
            } else {
                Some(QueryError::PpmOrder)
            })
        },
{
}

/// The settings of the exporter are accepted if and only if the timeout and the number of blocks are
/// positive and the target is a share of at most one half.
pub proof fn law_exporter_settings_are_accepted(timeout: i64, target: i64, blocks: i64)
    ensures
        settings_problem(timeout, target, blocks) is None <==> timeout > 0 && target >= 0 && target
            <= 50 && blocks > 0,
        timeout <= 0 ==> settings_problem(timeout, target, blocks) == Some(
            SettingsError::RpcTimeout,
        ),
        timeout > 0 && (target < 0 || target > 50) ==> settings_problem(timeout, target, blocks)
            == Some(SettingsError::LiquidityTarget),
        timeout > 0 && 0 <= target <= 50 && blocks <= 0 ==> settings_problem(timeout, target, blocks)
            == Some(SettingsError::HtlcWarningBlocks),
{
}

/// The settings of the history are accepted if and only if snapshots are taken at most every half
/// minute, and the retention and the timeout are positive.
pub proof fn law_history_settings_are_accepted(interval: i64, days: i64, timeout: i64)
    ensures
        history_settings_problem(interval, days, timeout) is None <==> interval >= 30 && days >= 1
            && timeout >= 1,
        interval < 30 ==> history_settings_problem(interval, days, timeout) == Some(
            HistorySettingsError::SampleInterval,
        ),
        interval >= 30 && days < 1 ==> history_settings_problem(interval, days, timeout) == Some(
            HistorySettingsError::RetentionDays,
        ),
        interval >= 30 && days >= 1 && timeout < 1 ==> history_settings_problem(
            interval,
            days,
            timeout,
        ) == Some(HistorySettingsError::RpcTimeout),
{
}

/// Rates are compared as the numbers that they are, negative ones too, where they are exact. Where one
/// of them is not, it goes by how they compare otherwise.
pub proof fn law_rates_are_compared(min: JsonNumber, max: JsonNumber, in_order: bool)
    ensures
        ({
            let small = |n: u64| n <= 9_007_199_254_740_992;
            let low = |n: i64| n >= -9_007_199_254_740_992;
            let crossed = rates_cross(Some(min), Some(max), in_order);
            &&& min matches JsonNumber::Negative(a) ==> (max matches JsonNumber::Negative(b) ==> (low(
                a,
            ) && low(b) ==> (crossed <==> a > b)))
            &&& min matches JsonNumber::Negative(a) ==> (max matches JsonNumber::Unsigned(b) ==> (low(
                a,
            ) && a < 0 && small(b) ==> !crossed))
            &&& min matches JsonNumber::Unsigned(a) ==> (max matches JsonNumber::Negative(b)
                ==> (small(a) && low(b) && b < 0 ==> crossed))
            &&& max is Float ==> (crossed <==> !in_order)
        }),
        !rates_cross(None, Some(max), in_order),
        !rates_cross(Some(min), None, in_order),
{
}

/// Whether a number is small enough for the tables.
pub open spec fn is_small(n: u64) -> bool {
    n <= 0x7fff_ffff_ffff_ffff
}

/// Whether a number is small enough for the tables, or is none.
pub open spec fn is_small_or_none(n: Option<u64>) -> bool {
    n matches Some(n) ==> n <= 0x7fff_ffff_ffff_ffff
}

/// A snapshot is recorded if and only if it lists channels, and its time and all numbers of all channels
/// are small enough for the tables.
pub proof fn law_snapshots_are_accepted(ts: u64, response: Json, blockheight: Option<u64>)
    ensures
        !(response.field("channels"@) matches Some(Json::Array(_))) ==> snapshot_problem(
            ts,
            response,
            blockheight,
        ) == Some(HistoryError::NoChannels),
        response.field("channels"@) matches Some(Json::Array(channels)) ==> {
            let fine = is_small(ts) && channels@.len() <= 0x7fff_ffff_ffff_ffff && forall|i: int|
                0 <= i < channels@.len() ==> has_small_numbers(
                    sample_of(#[trigger] channels@[i], i, blockheight),
                );
            &&& fine ==> snapshot_problem(ts, response, blockheight) is None
            &&& !fine ==> snapshot_problem(ts, response, blockheight) == Some(
                HistoryError::OutOfRange,
            )
        },
{
    if let Some(Json::Array(channels)) = response.field("channels"@) {
        assert forall|i: int| 0 <= i < channels@.len() implies sample_fits(
            sample_of(#[trigger] channels@[i], i, blockheight),
        ) == has_small_numbers(sample_of(channels@[i], i, blockheight)) by {}
        if channels_fit(channels@, blockheight) {
            assert forall|i: int| 0 <= i < channels@.len() implies has_small_numbers(
                sample_of(#[trigger] channels@[i], i, blockheight),
            ) by {
                assert(sample_fits(sample_of(channels@[i], i, blockheight)));
            }
        }
    }
}

/// Whether all numbers of a policy are small enough for the tables.
pub open spec fn is_small_policy(policy: ChannelPolicy) -> bool {
    &&& is_small_or_none(policy.fee_base_msat)
    &&& is_small_or_none(policy.fee_ppm)
    &&& is_small_or_none(policy.htlc_minimum_msat)
    &&& is_small_or_none(policy.htlc_maximum_msat)
    &&& is_small_or_none(policy.cltv_expiry_delta)
}

/// Whether all numbers of a state are small enough for the tables.
pub open spec fn has_small_numbers(state: SampleView) -> bool {
    &&& is_small(state.capacity_msat)
    &&& is_small(state.to_us_msat)
    &&& is_small(state.spendable_msat)
    &&& is_small(state.receivable_msat)
    &&& is_small(state.htlc_in_count)
    &&& is_small(state.htlc_out_count)
    &&& is_small(state.htlc_in_msat)
    &&& is_small(state.htlc_out_msat)
    &&& is_small_or_none(state.blockheight)
    &&& is_small_or_none(state.htlc_min_expiry)
    &&& is_small_or_none(state.htlc_max_expiry)
    &&& is_small(state.htlc_hooked_count)
    &&& is_small(state.htlc_trimmed_count)
    &&& is_small_or_none(state.max_accepted_htlcs)
    &&& is_small_policy(state.local_policy)
    &&& is_small_policy(state.remote_policy)
}

/// A forward and a probe are recorded if and only if their times and amounts are small enough for the
/// tables.
pub proof fn law_amounts_are_accepted(
    row: BucketRow<Seq<char>>,
    probe: ProbeRow<Seq<char>>,
)
    ensures
        forward_fits(row) <==> is_small(row.bucket_start) && is_small(row.failcode) && row.in_msat
            <= 0x7fff_ffff_ffff_ffff && row.out_msat <= 0x7fff_ffff_ffff_ffff && row.fee_msat
            <= 0x7fff_ffff_ffff_ffff,
        probe_fits(probe) <==> is_small(probe.ts) && is_small_or_none(probe.started_at)
            && is_small_or_none(probe.duration_ms) && is_small(probe.delivered_msat) && is_small(
            probe.amount_at_source_msat,
        ) && is_small(probe.total_fee_msat) && is_small_or_none(probe.lower_bound_msat),
        group_fits(row) <==> row.forward_count <= 0x7fff_ffff_ffff_ffff && row.in_msat
            <= 0x7fff_ffff_ffff_ffff && row.out_msat <= 0x7fff_ffff_ffff_ffff && row.fee_msat
            <= 0x7fff_ffff_ffff_ffff,
{
}

/// A probe that ended, with a route that is fine and amounts that are small enough, is recorded. One
/// with other amounts is refused, and so is one with a hop that is wrong.
pub proof fn law_probes_are_accepted(db: DbView, received_at: u64, value: Json, route: Vec<Json>)
    requires
        value.text_at("status"@) == Some("destination_reached"@) || value.text_at("status"@) == Some(
            "route_failed"@,
        ),
        value.field("route"@) == Some(Json::Array(route)),
        route@.len() > 0,
    ensures
        ({
            let ts = observed_at(value, received_at);
            let row = probe_row(0, ts, value, route@);
            let outcome = probe_outcome(db, received_at, value);
            &&& probe_fits(row) && route_problem(route@) is None ==> outcome is Ok
            &&& !probe_fits(row) ==> outcome == Err::<DbView, HistoryError>(HistoryError::OutOfRange)
            &&& probe_fits(row) ==> (route_problem(route@) matches Some(problem) ==> outcome == Err::<
                DbView,
                HistoryError,
            >(problem))
        }),
{
    reveal_strlit("pending");
    reveal_strlit("pending_after_restart");
    reveal_strlit("destination_reached");
    reveal_strlit("route_failed");
    assert("pending"@.len() == 7);
    assert("pending_after_restart"@.len() == 21);
    assert("destination_reached"@.len() == 19);
    assert("route_failed"@.len() == 12);
}

/// The numbers that the answers give of the rules: the hour after which an unchanged state is recorded
/// anew, the five minutes that forwards are added up over, the form of the tables and of the answers, and
/// the codes for a node that answers and for one that does not.
pub proof fn law_the_rules_are_these()
    ensures
        crate::recording::CHECKPOINT_SECONDS == 3_600,
        crate::activity::FORWARD_BUCKET_SECONDS == 300,
        crate::activity::MAX_ERROR_CHARS == 1_000,
        crate::upkeep::SCHEMA_VERSION == 5,
        crate::upkeep::DAY_SECONDS == 86_400,
        crate::answers::API_VERSION == 2,
        crate::exporter::HEALTHY_STATUS == 200,
        crate::exporter::UNHEALTHY_STATUS == 503,
        crate::queries::DEFAULT_LIMIT == 10_000,
        crate::queries::MAX_LIMIT == 50_000,
        crate::store::MAX_STORED == i64::MAX,
{
}

/// Plugins that come or go are heard of under two topics. A notification is named by the first field of
/// its object, and what is no object is none.
pub proof fn law_notifications_are_named_by_their_field(value: Json)
    ensures
        is_plugin_topic("plugin_started"@),
        is_plugin_topic("plugin_stopped"@),
        forall|topic: Seq<char>| #[trigger]
            is_plugin_topic(topic) ==> topic == "plugin_started"@ || topic == "plugin_stopped"@,
        value matches Json::Object(fields) ==> {
            &&& fields@.len() > 0 ==> notification(value) == Some((fields@[0].0@, fields@[0].1))
            &&& fields@.len() == 0 ==> notification(value) is None
        },
        !(value is Object) ==> notification(value) is None,
{
}

/// A request is answered as it is read if it has no problem, and refused with its problem if it has one.
pub proof fn law_requests_are_answered(
    ranges: Result<RangeQuery, QueryError>,
    range: Params<RangeQuery>,
    samples: Result<SampleQuery, QueryError>,
    sample: Params<SampleQuery>,
    pairs: Result<PairQuery, QueryError>,
    pair: Params<PairQuery>,
    events: Result<EventQuery, QueryError>,
    event: Params<EventQuery>,
    probes: Result<ProbeQuery, QueryError>,
    probe: Params<ProbeQuery>,
    in_order: bool,
    now: u64,
)
    ensures
        is_range_outcome(ranges, range, now) ==> match ranges {
            Ok(query) => range_of(range).problem_at(now) is None && query@ == range_of(range),
            Err(problem) => range_of(range).problem_at(now) == Some(problem),
        },
        is_sample_outcome(samples, sample, now) ==> match samples {
            Ok(query) => sample_query_of(sample).problem_at(now) is None && query@
                == sample_query_of(sample),
            Err(problem) => sample_query_of(sample).problem_at(now) == Some(problem),
        },
        is_pair_outcome(pairs, pair, in_order, now) ==> match pairs {
            Ok(query) => pair_query_of(pair).problem_at(in_order, now) is None && query@
                == pair_query_of(pair),
            Err(problem) => pair_query_of(pair).problem_at(in_order, now) == Some(problem),
        },
        is_event_outcome(events, event, now) ==> match events {
            Ok(query) => event_query_of(event).range.problem_at(now) is None && query@
                == event_query_of(event),
            Err(problem) => event_query_of(event).range.problem_at(now) == Some(problem),
        },
        is_probe_outcome(probes, probe, now) ==> match probes {
            Ok(query) => probe_query_of(probe).problem_at(now) is None && query@ == probe_query_of(
                probe,
            ),
            Err(problem) => probe_query_of(probe).problem_at(now) == Some(problem),
        },
{
}

/// There are ids for a snapshot if and only if the tables can take one state for each channel that it
/// lists, two events for each of them, and one for each channel that is known.
pub proof fn law_there_are_ids_for_a_snapshot(db: DbView, listed: nat)
    ensures
        has_ids_for(db, listed) <==> db.last_sample_id + listed <= 0x7fff_ffff_ffff_ffff
            && db.last_event_id + 2 * listed + db.channels.len() <= 0x7fff_ffff_ffff_ffff,
{
}

/// A notification of a shutdown can always be taken, and any other if it can be counted.
pub proof fn law_notifications_can_be_taken(c: CountersView, fields: Vec<(String, Json)>)
    requires
        fields@.len() > 0,
    ensures
        ({
            let value = Json::Object(fields);
            &&& fields@[0].0@ == "shutdown"@ ==> can_take(c, value)
            &&& fields@[0].0@ != "shutdown"@ ==> (can_take(c, value) <==> can_count(
                c,
                fields@[0].0@,
                fields@[0].1,
            ))
        }),
{
}

/// What went wrong is said in words, with the form of the tables where that is what is wrong, and with
/// the status where that is.
pub proof fn law_problems_are_worded(version: u64, value: Json)
    ensures
        HistoryError::NewerSchema(version).text() == "database schema "@ + decimal(version as nat)
            + " is newer than this cln-history binary"@,
        HistoryError::UnknownSchema(version).text() == "unsupported cln-history database schema "@
            + decimal(version as nat),
        HistoryError::NoChannels.text() == "listpeerchannels response has no channels array"@,
        HistoryError::NoStatus.text() == "probe result has no status"@,
        HistoryError::NoRoute.text() == "probe result has no route"@,
        HistoryError::NoHopChannel.text() == "probe hop has no short_channel_id_dir"@,
        HistoryError::NoHopDirection.text() == "probe hop channel must include a direction"@,
        HistoryError::InvalidHopDirection.text() == "parsing probe hop direction"@,
        HistoryError::NoHopDestination.text() == "probe hop has no destination"@,
        value.text_at("status"@) matches Some(status) ==> HistoryError::UnknownStatus.probe_text(value)
            == "unknown terminal probe status"@ + ": "@ + status,
        HistoryError::NoRoute.probe_text(value) == HistoryError::NoRoute.text(),
{
}

} // verus!
