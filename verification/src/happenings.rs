//! What is recorded of the happenings that a node tells of: each in terms of what was told.

use crate::activity::{
    connected_peer, cut, event_key, forward_fits, forward_row, hop_channel, hop_direction,
    hop_problem, hop_row, hop_rows, is_pending, observed_at, probe_outcome, probe_row,
    route_problem, same_bucket, with_connection_event, with_forward_row, with_probe,
    with_state_change,
};
use crate::gauges::lemma_last_position;
use crate::history::{after_collection, notified, with_failed_run};
use crate::json::Json;
use crate::recording::{cutoff_at, kept_probes, pruned, with_run, HistoryError};
use crate::selection::lemma_filter_contains;
use crate::sightings::{words, words_or_unknown};
use crate::store::{
    has_alias_row, identity_of, resolved, with_alias_seen, MAX_STORED, AliasRow, BucketRow, DbView,
    HopRow, ProbeRow, RunRow,
};
use crate::text::{last_position, spelled_number};
use vstd::prelude::*;

verus! {

/// The channel that an event is about: the one that its id or its short id stands for, else the id,
/// the short id or the peer itself.
pub proof fn law_events_are_put_down_to_channels(aliases: Seq<AliasRow<Seq<char>>>, value: Json)
    ensures
        words(value, "channel_id"@) matches Some(id) ==> (resolved(aliases, id) matches Some(key)
            ==> event_key(aliases, value) == Some(key)),
        (words(value, "channel_id"@) is None || resolved(
            aliases,
            words(value, "channel_id"@)->0,
        ) is None) ==> {
            &&& words(value, "short_channel_id"@) matches Some(id) ==> (resolved(
                aliases,
                id,
            ) matches Some(key) ==> event_key(aliases, value) == Some(key))
            &&& (words(value, "short_channel_id"@) is None || resolved(
                aliases,
                words(value, "short_channel_id"@)->0,
            ) is None) ==> {
                &&& words(value, "channel_id"@) is Some ==> event_key(aliases, value) == words(
                    value,
                    "channel_id"@,
                )
                &&& words(value, "channel_id"@) is None && words(value, "short_channel_id"@) is Some
                    ==> event_key(aliases, value) == words(value, "short_channel_id"@)
                &&& words(value, "channel_id"@) is None && words(value, "short_channel_id"@) is None
                    ==> event_key(aliases, value) == words(value, "peer_id"@)
            }
        },
{
}

/// A change of a channel is recorded as one more event, under the next id, with what was told of it.
/// Nothing that was recorded before changes but for the names of the channel.
pub proof fn law_changes_of_channels_are_recorded(db: DbView, ts: u64, value: Json)
    requires
        db.last_event_id < MAX_STORED,
    ensures
        ({
            let after = with_state_change(db, ts, value);
            let event = after.events.last();
            &&& after.events.len() == db.events.len() + 1
            &&& after.events.drop_last() == db.events
            &&& event.id == db.last_event_id + 1
            &&& after.last_event_id == event.id
            &&& event.ts == ts
            &&& event.event_type == "state_changed"@
            &&& event.channel_key == event_key(db.aliases, value)
            &&& event.channel_id == words(value, "channel_id"@)
            &&& event.short_channel_id == words(value, "short_channel_id"@)
            &&& event.peer_id == words(value, "peer_id"@)
            &&& event.old_state == words(value, "old_state"@)
            &&& event.new_state == words(value, "new_state"@)
            &&& event.cause == words(value, "cause"@)
            &&& event.direction is None
            &&& event.reason is None
            &&& after.channels == db.channels
            &&& after.samples == db.samples
            &&& after.buckets == db.buckets
            &&& after.runs == db.runs
            &&& after.probes == db.probes
            &&& after.hops == db.hops
        }),
{
    let after = with_state_change(db, ts, value);
    assert(after.events.drop_last() =~= db.events);
}

/// A name that is seen for a channel is known from then on. One that was known keeps its channel and
/// the time it was first seen, and was last seen at the later of the two times. Other names stay.
pub proof fn law_names_are_seen(
    aliases: Seq<AliasRow<Seq<char>>>,
    ts: u64,
    kind: Seq<char>,
    name: Seq<char>,
    key: Seq<char>,
)
    ensures
        ({
            let after = with_alias_seen(aliases, ts, kind, name, key);
            let known = exists|i: int|
                0 <= i < aliases.len() && (#[trigger] aliases[i]).alias_type == kind
                    && aliases[i].alias == name;
            &&& !known ==> after == aliases.push(
                AliasRow {
                    alias_type: kind,
                    alias: name,
                    channel_key: key,
                    first_seen: ts,
                    last_seen: ts,
                },
            )
            &&& known ==> after.len() == aliases.len()
            &&& forall|i: int|
                0 <= i < aliases.len() ==> {
                    let row = #[trigger] after[i];
                    &&& row.alias_type == aliases[i].alias_type
                    &&& row.alias == aliases[i].alias
                    &&& row.channel_key == aliases[i].channel_key
                    &&& row.first_seen == aliases[i].first_seen
                    &&& row.last_seen == if aliases[i].alias_type == kind && aliases[i].alias == name
                        && ts > aliases[i].last_seen {
                        ts
                    } else {
                        aliases[i].last_seen
                    }
                }
        }),
{
    if has_alias_row(aliases, kind, name) {
        let i = choose|i: int|
            0 <= i < aliases.len() && crate::store::is_alias_row(#[trigger] aliases[i], kind, name);
        assert(aliases[i].alias_type == kind && aliases[i].alias == name);
    } else {
        assert forall|i: int| 0 <= i < aliases.len() implies !((
        #[trigger] aliases[i]).alias_type == kind && aliases[i].alias == name) by {
            assert(!crate::store::is_alias_row(aliases[i], kind, name));
        }
    }
}

/// The names by which an event calls a channel are those of the channel that it is put down to.
pub proof fn law_names_in_events_are_seen(db: DbView, ts: u64, value: Json, key: Seq<char>)
    requires
        event_key(db.aliases, value) == Some(key),
    ensures
        ({
            let once = match words(value, "channel_id"@) {
                Some(id) => with_alias_seen(db.aliases, ts, "channel_id"@, id, key),
                None => db.aliases,
            };
            let twice = match words(value, "short_channel_id"@) {
                Some(id) => with_alias_seen(once, ts, "short_channel_id"@, id, key),
                None => once,
            };
            with_state_change(db, ts, value).aliases == twice
        }),
{
}

/// A connection of a peer is recorded as one more event of the peer, under the next id.
pub proof fn law_connections_are_recorded(
    db: DbView,
    ts: u64,
    event_type: Seq<char>,
    peer: Seq<char>,
    value: Json,
)
    requires
        db.last_event_id < MAX_STORED,
    ensures
        ({
            let after = with_connection_event(db, ts, event_type, peer, value);
            let event = after.events.last();
            &&& after.events.len() == db.events.len() + 1
            &&& after.events.drop_last() == db.events
            &&& event.id == db.last_event_id + 1
            &&& event.ts == ts
            &&& event.event_type == event_type
            &&& event.peer_id == Some(peer)
            &&& event.direction == words(value, "direction"@)
            &&& event.reason == words(value, "reason"@)
            &&& event.channel_key is None && event.channel_id is None
                && event.short_channel_id is None
            &&& event.old_state is None && event.new_state is None && event.cause is None
            &&& after == (DbView {
                events: after.events,
                last_event_id: after.last_event_id,
                ..db
            })
        }),
        words(value, "id"@) is Some ==> connected_peer(value) == words(value, "id"@),
        words(value, "id"@) is None ==> connected_peer(value) == words(value, "peer_id"@),
{
    let after = with_connection_event(db, ts, event_type, peer, value);
    assert(after.events.drop_last() =~= db.events);
}

/// A forward is recorded under the five minutes that it fell in, with the channels that its names stand
/// for, how it ended, and its amounts. Its fee is what it says, else what came in and did not go out.
pub proof fn law_forwards_are_recorded_as_told(
    aliases: Seq<AliasRow<Seq<char>>>,
    ts: u64,
    in_channel: Seq<char>,
    value: Json,
)
    ensures
        ({
            let row = forward_row(aliases, ts, in_channel, value);
            let received = value.millisatoshi_or_zero("in_msat"@) as int;
            let sent = value.millisatoshi_or_zero("out_msat"@) as int;
            &&& row.bucket_start % 300 == 0
            &&& row.bucket_start <= ts < row.bucket_start + 300
            &&& row.in_channel == identity_of(aliases, in_channel)
            &&& row.out_channel == identity_of(aliases, words_or_unknown(value, "out_channel"@))
            &&& row.status == words_or_unknown(value, "status"@)
            &&& value.unsigned_at("failcode"@) matches Some(code) ==> row.failcode == code
            &&& value.unsigned_at("failcode"@) is None ==> row.failcode == 0
            &&& words(value, "failreason"@) matches Some(reason) ==> row.failreason == reason
            &&& words(value, "failreason"@) is None ==> row.failreason == ""@
            &&& row.forward_count == 1
            &&& row.in_msat == received
            &&& row.out_msat == sent
            &&& value.field("fee_msat"@) is Some ==> row.fee_msat == value.millisatoshi_or_zero(
                "fee_msat"@,
            )
            &&& value.field("fee_msat"@) is None && received >= sent ==> row.fee_msat == received
                - sent
            &&& value.field("fee_msat"@) is None && received < sent ==> row.fee_msat == 0
        }),
{
    assert(ts / 300 * 300 <= ts < ts / 300 * 300 + 300);
    assert((ts / 300 * 300) % 300 == 0);
}

/// Whether two rows of forwards are of the same time, the same channels and the same result.
pub open spec fn belong_together(a: BucketRow<Seq<char>>, b: BucketRow<Seq<char>>) -> bool {
    &&& a.bucket_start == b.bucket_start
    &&& a.in_channel == b.in_channel
    &&& a.out_channel == b.out_channel
    &&& a.status == b.status
    &&& a.failcode == b.failcode
    &&& a.failreason == b.failreason
}

/// A forward is added to the row that it belongs to, and becomes a row of its own where there is none.
/// The other rows stay.
pub proof fn law_forwards_are_added_to_their_row(
    buckets: Seq<BucketRow<Seq<char>>>,
    row: BucketRow<Seq<char>>,
)
    ensures
        ({
            let after = with_forward_row(buckets, row);
            let known = exists|i: int|
                0 <= i < buckets.len() && belong_together(#[trigger] buckets[i], row);
            &&& !known ==> after == buckets.push(row)
            &&& known ==> after.len() == buckets.len()
            &&& forall|i: int|
                0 <= i < buckets.len() ==> {
                    let now = #[trigger] after[i];
                    &&& !belong_together(buckets[i], row) ==> now == buckets[i]
                    &&& belong_together(buckets[i], row) ==> {
                        &&& belong_together(now, buckets[i])
                        &&& sums_up(now.forward_count, buckets[i].forward_count, row.forward_count)
                        &&& sums_up(now.in_msat, buckets[i].in_msat, row.in_msat)
                        &&& sums_up(now.out_msat, buckets[i].out_msat, row.out_msat)
                        &&& sums_up(now.fee_msat, buckets[i].fee_msat, row.fee_msat)
                    }
                }
        }),
{
    assert forall|i: int| 0 <= i < buckets.len() implies same_bucket(#[trigger] buckets[i], row)
        == belong_together(buckets[i], row) by {}
    if exists|i: int| 0 <= i < buckets.len() && same_bucket(#[trigger] buckets[i], row) {
        let i = choose|i: int| 0 <= i < buckets.len() && same_bucket(#[trigger] buckets[i], row);
        assert(belong_together(buckets[i], row));
    }
}

/// Whether a number is the sum of two, as far as it can be.
pub open spec fn sums_up(whole: u128, a: u128, b: u128) -> bool {
    a + b <= u128::MAX ==> whole == a + b
}

/// A directed channel is split at its last slash into the channel and the direction.
pub proof fn law_directed_channels_are_split(channel: Seq<char>, direction: Seq<char>)
    requires
        !direction.contains('/'),
    ensures
        hop_channel(channel.push('/') + direction) == channel,
        hop_direction(channel.push('/') + direction) == spelled_number(direction),
{
    let directed = channel.push('/') + direction;
    lemma_last_position(directed, '/');
    assert(directed[channel.len() as int] == '/');
    let at = last_position(directed, '/');
    if at > channel.len() {
        assert(directed[at] == direction[at - channel.len() - 1]);
        assert(direction.contains(direction[at - channel.len() - 1]));
    }
    assert(directed.take(channel.len() as int) =~= channel);
    assert(directed.skip(channel.len() as int + 1) =~= direction);
}

/// Whether a hop is recorded as it was told: at its place in the route of its probe, over the channel
/// and in the direction that it names.
pub open spec fn records_hop(
    row: HopRow<Seq<char>>,
    probe_id: u64,
    index: int,
    aliases: Seq<AliasRow<Seq<char>>>,
    hop: Json,
) -> bool {
    &&& row.probe_id == probe_id
    &&& row.hop_index == index
    &&& words(hop, "short_channel_id_dir"@) matches Some(directed) && {
        &&& row.short_channel_id == hop_channel(directed)
        &&& Some(row.direction) == hop_direction(directed)
        &&& row.channel_key == resolved(aliases, hop_channel(directed))
    }
    &&& Some(row.node_id_out) == words(hop, "node_id_out"@)
    &&& row.amount_out_msat == hop.millisatoshi_or_zero("amount_out_msat"@)
    &&& row.cltv_out == match hop.unsigned_at("cltv_out"@) {
        Some(n) => n,
        None => 0,
    }
    &&& row.status == words_or_unknown(hop, "status"@)
}

/// Whether a probe is recorded as it was told.
pub open spec fn records_probe(
    row: ProbeRow<Seq<char>>,
    id: u64,
    received_at: u64,
    value: Json,
    route: Seq<Json>,
) -> bool {
    let failure = match value.field("failure"@) {
        Some(failure) => failure,
        None => Json::Null,
    };
    &&& row.id == id
    &&& row.ts == match value.unsigned_at("observed_at"@) {
        Some(ts) => ts,
        None => received_at,
    }
    &&& row.started_at == value.unsigned_at("started_at"@)
    &&& row.duration_ms == value.unsigned_at("duration_ms"@)
    &&& row.plugin_version == words(value, "plugin_version"@)
    &&& Some(row.status) == words(value, "status"@)
    &&& row.destination_reached == (value.field("destination_reached"@) == Some(Json::Bool(true)))
    &&& row.destination == words(route[route.len() - 1], "node_id_out"@)
    &&& row.delivered_msat == value.millisatoshi_or_zero("delivered_msat"@)
    &&& row.amount_at_source_msat == value.millisatoshi_or_zero("amount_at_source_msat"@)
    &&& row.total_fee_msat == value.millisatoshi_or_zero("total_fee_msat"@)
    &&& value.field("lower_bound_msat"@) is None || value.field("lower_bound_msat"@) == Some(
        Json::Null,
    ) ==> row.lower_bound_msat is None
    &&& value.field("lower_bound_msat"@) is Some && value.field("lower_bound_msat"@) != Some(
        Json::Null,
    ) ==> row.lower_bound_msat == Some(value.millisatoshi_or_zero("lower_bound_msat"@))
    &&& row.failure_code == failure.signed_at("code"@)
    &&& row.failcode == failure.signed_at("failcode"@)
    &&& row.failcodename == words(failure, "failcodename"@)
    &&& row.erring_index == failure.signed_at("erring_index"@)
    &&& row.erring_channel == words(failure, "erring_channel"@)
    &&& row.erring_direction == failure.signed_at("erring_direction"@)
    &&& row.erring_node == words(failure, "erring_node"@)
}

proof fn lemma_route_is_fine(route: Seq<Json>, i: int)
    requires
        route_problem(route) is None,
        0 <= i < route.len(),
    ensures
        hop_problem(route[i], i) is None,
    decreases route.len(),
{
    if i < route.len() - 1 {
        lemma_route_is_fine(route.drop_last(), i);
        assert(route.drop_last()[i] == route[i]);
    }
}

/// A probe that ended is recorded, as one more probe under the next id, with every hop of its route.
pub proof fn law_probes_are_recorded_as_told(
    db: DbView,
    received_at: u64,
    value: Json,
    status: Seq<char>,
    route: Vec<Json>,
)
    requires
        db.last_probe_id < MAX_STORED,
        words(value, "status"@) == Some(status),
        status == "destination_reached"@ || status == "route_failed"@ || status
            == "unexpected_settlement"@,
        value.field("route"@) == Some(Json::Array(route)),
        0 < route@.len() <= MAX_STORED,
        probe_outcome(db, received_at, value) is Ok,
        forall|i: int| 0 <= i < db.probes.len() ==> (#[trigger] db.probes[i]).id <= db.last_probe_id,
    ensures
        ({
            let after = probe_outcome(db, received_at, value)->Ok_0;
            let id = (db.last_probe_id + 1) as u64;
            &&& exists|k: int|
                0 <= k < after.probes.len() && records_probe(
                    #[trigger] after.probes[k],
                    id,
                    received_at,
                    value,
                    route@,
                )
            &&& forall|i: int|
                0 <= i < route@.len() ==> exists|k: int|
                    0 <= k < after.hops.len() && records_hop(
                        #[trigger] after.hops[k],
                        id,
                        i,
                        db.aliases,
                        #[trigger] route@[i],
                    )
        }),
{
    reveal_strlit("pending");
    reveal_strlit("pending_after_restart");
    reveal_strlit("destination_reached");
    reveal_strlit("route_failed");
    reveal_strlit("unexpected_settlement");
    assert("pending"@.len() == 7);
    assert("pending_after_restart"@.len() == 21);
    assert("pending_after_restart"@[0] == 'p');
    assert("destination_reached"@.len() == 19);
    assert("route_failed"@.len() == 12);
    assert("unexpected_settlement"@.len() == 21);
    assert("unexpected_settlement"@[0] == 'u');
    assert(!is_pending(status));
    let ts = observed_at(value, received_at);
    let id = (db.last_probe_id + 1) as u64;
    let full = with_probe(db, ts, value, route@);
    let after = probe_outcome(db, received_at, value)->Ok_0;
    let cutoff = cutoff_at(full, ts);
    assert(after == pruned(full, ts));
    let row = probe_row(id, ts, value, route@);
    assert(records_probe(row, id, received_at, value, route@));
    lemma_filter_contains(full.probes, kept_probes(cutoff));
    assert(full.probes[full.probes.len() - 1] == row);
    assert(full.probes.contains(row));
    assert(after.probes.contains(row));
    let k = choose|k: int| 0 <= k < after.probes.len() && after.probes[k] == row;
    assert(records_probe(after.probes[k], id, received_at, value, route@));
    let kept = crate::recording::kept_hops(full.probes, cutoff);
    lemma_filter_contains(full.hops, kept);
    assert forall|i: int| 0 <= i < route@.len() implies exists|k: int|
        0 <= k < after.hops.len() && records_hop(
            #[trigger] after.hops[k],
            id,
            i,
            db.aliases,
            #[trigger] route@[i],
        ) by {
        lemma_route_is_fine(route@, i);
        let hop = hop_row(id, i, db.aliases, route@[i]);
        assert(hop_rows(id, db.aliases, route@)[i] == hop);
        assert(full.hops[db.hops.len() + i] == hop);
        assert(full.hops.contains(hop));
        assert forall|j: int| 0 <= j < full.probes.len() && (#[trigger] full.probes[j]).id == id implies
            full.probes[j].ts >= cutoff by {
            if j < db.probes.len() {
                assert(full.probes[j] == db.probes[j]);
            }
        }
        assert(kept(hop));
        assert(after.hops.contains(hop));
        let k = choose|k: int| 0 <= k < after.hops.len() && after.hops[k] == hop;
        assert(records_hop(after.hops[k], id, i, db.aliases, route@[i]));
    }
}

/// A probe without a status is refused, and so is one with a status that is not known and one without a
/// route. A probe that has not ended, or that had no hops, changes nothing.
pub proof fn law_probes_are_refused(db: DbView, received_at: u64, value: Json)
    ensures
        words(value, "status"@) is None ==> probe_outcome(db, received_at, value) == Err::<
            DbView,
            HistoryError,
        >(HistoryError::NoStatus),
        words(value, "status"@) matches Some(status) ==> {
            let pending = status == "pending"@ || status == "pending_after_restart"@;
            let ended = status == "destination_reached"@ || status == "route_failed"@ || status
                == "unexpected_settlement"@;
            &&& pending ==> probe_outcome(db, received_at, value) == Ok::<DbView, HistoryError>(db)
            &&& !pending && !ended ==> probe_outcome(db, received_at, value) == Err::<
                DbView,
                HistoryError,
            >(HistoryError::UnknownStatus)
            &&& !pending && ended && !(value.field("route"@) matches Some(Json::Array(_)))
                ==> probe_outcome(db, received_at, value) == Err::<DbView, HistoryError>(
                HistoryError::NoRoute,
            )
            &&& !pending && ended ==> (value.field("route"@) matches Some(Json::Array(route))
                ==> (route@.len() == 0 ==> probe_outcome(db, received_at, value) == Ok::<
                DbView,
                HistoryError,
            >(db)))
        },
{
}

/// A hop is refused for the first thing that is wrong with it: that it names no channel, or no
/// direction, or one that is no number, or no destination.
pub proof fn law_hops_are_refused(hop: Json, index: int)
    requires
        0 <= index <= MAX_STORED,
    ensures
        words(hop, "short_channel_id_dir"@) is None ==> hop_problem(hop, index) == Some(
            HistoryError::NoHopChannel,
        ),
        words(hop, "short_channel_id_dir"@) matches Some(directed) ==> {
            &&& !directed.contains('/') ==> hop_problem(hop, index) == Some(
                HistoryError::NoHopDirection,
            )
            &&& directed.contains('/') && hop_direction(directed) is None ==> hop_problem(hop, index)
                == Some(HistoryError::InvalidHopDirection)
            &&& directed.contains('/') && hop_direction(directed) is Some && hop_direction(
                directed,
            )->0 <= MAX_STORED && words(hop, "node_id_out"@) is None ==> hop_problem(hop, index)
                == Some(HistoryError::NoHopDestination)
            &&& directed.contains('/') && hop_direction(directed) is Some && hop_direction(
                directed,
            )->0 <= MAX_STORED && words(hop, "node_id_out"@) is Some && hop.millisatoshi_or_zero(
                "amount_out_msat"@,
            ) <= MAX_STORED && hop.unsigned_or_zero("cltv_out"@) <= MAX_STORED ==> hop_problem(
                hop,
                index,
            ) is None
        },
{
    if let Some(directed) = words(hop, "short_channel_id_dir"@) {
        lemma_last_position(directed, '/');
        if directed.contains('/') {
            let i = choose|i: int| 0 <= i < directed.len() && directed[i] == '/';
            assert(directed[i] == '/');
        } else if last_position(directed, '/') >= 0 {
            assert(directed.contains(directed[last_position(directed, '/')]));
        }
    }
}

/// A route is fine if and only if all its hops are.
pub proof fn law_routes_are_refused_for_a_hop(route: Seq<Json>)
    ensures
        route_problem(route) is None <==> forall|i: int|
            0 <= i < route.len() ==> hop_problem(#[trigger] route[i], i) is None,
        route_problem(route) matches Some(problem) ==> exists|i: int|
            0 <= i < route.len() && hop_problem(#[trigger] route[i], i) == Some(problem),
    decreases route.len(),
{
    if route.len() > 0 {
        let front = route.drop_last();
        law_routes_are_refused_for_a_hop(front);
        assert forall|i: int| 0 <= i < front.len() implies front[i] == #[trigger] route[i] by {}
        assert(route[route.len() - 1] == route.last());
        if route_problem(front) is Some {
            let i = choose|i: int|
                0 <= i < front.len() && hop_problem(#[trigger] front[i], i) == Some(
                    route_problem(front)->0,
                );
            assert(hop_problem(route[i], i) is Some);
        }
    }
}

/// A notification of a shutdown says so and changes nothing. One of a channel or of a forward is
/// recorded with its time. Any other changes nothing.
pub proof fn law_notifications_are_recorded_by_topic(
    db: DbView,
    fields: Vec<(String, Json)>,
    now: u64,
)
    requires
        fields@.len() > 0,
        now <= MAX_STORED,
    ensures
        ({
            let topic = fields@[0].0@;
            let body = fields@[0].1;
            let outcome = notified(db, Json::Object(fields), now);
            &&& topic == "shutdown"@ ==> outcome == Ok::<(bool, DbView), HistoryError>((true, db))
            &&& topic == "channel_state_changed"@ ==> outcome == Ok::<(bool, DbView), HistoryError>(
                (false, with_state_change(db, now, body)),
            )
            &&& topic == "forward_event"@ && words(body, "in_channel"@) is None ==> outcome == Ok::<
                (bool, DbView),
                HistoryError,
            >((false, db))
            &&& topic == "forward_event"@ ==> (words(body, "in_channel"@) matches Some(name) ==> (
            forward_fits(forward_row(db.aliases, now, name, body)) ==> (outcome matches Ok((
                ended,
                after,
            )) && !ended && after.buckets == with_forward_row(
                db.buckets,
                forward_row(db.aliases, now, name, body),
            ))))
            &&& topic != "shutdown"@ && topic != "channel_state_changed"@ && topic
                != "forward_event"@ ==> outcome == Ok::<(bool, DbView), HistoryError>((false, db))
        }),
{
    reveal_strlit("shutdown");
    reveal_strlit("channel_state_changed");
    reveal_strlit("forward_event");
    assert("shutdown"@.len() == 8);
    assert("channel_state_changed"@.len() == 21);
    assert("forward_event"@.len() == 13);
}

/// A collection that failed is on record as a run of its time that did not succeed, with at most a
/// thousand characters of what went wrong.
pub proof fn law_failures_are_on_record(db: DbView, ts: u64, message: Seq<char>)
    ensures
        ({
            let runs = with_failed_run(db, ts, message).runs;
            &&& exists|i: int| 0 <= i < runs.len() && (#[trigger] runs[i]).ts == ts
            &&& forall|i: int|
                0 <= i < runs.len() && (#[trigger] runs[i]).ts == ts ==> {
                    &&& !runs[i].success
                    &&& runs[i].channel_count is None
                    &&& runs[i].error matches Some(said) && {
                        &&& said.len() <= 1000
                        &&& message.len() <= 1000 ==> said == message
                        &&& message.len() > 1000 ==> said == message.take(1000)
                    }
                }
            &&& forall|i: int|
                0 <= i < db.runs.len() && (#[trigger] db.runs[i]).ts != ts ==> runs[i] == db.runs[i]
            &&& with_failed_run(db, ts, message) == (DbView { runs, ..db })
        }),
{
    let run = RunRow::<Seq<char>> {
        ts,
        success: false,
        channel_count: None,
        error: Some(cut(message, 1000)),
    };
    let runs = with_run(db.runs, run);
    if exists|i: int| 0 <= i < db.runs.len() && (#[trigger] db.runs[i]).ts == ts {
        let i = choose|i: int| 0 <= i < db.runs.len() && (#[trigger] db.runs[i]).ts == ts;
        assert(runs[i].ts == ts);
    } else {
        assert(runs[runs.len() - 1] == run);
    }
}

/// A collection is recorded as a snapshot if the node answered with channels, and as a failure with what
/// went wrong if it did not.
pub proof fn law_collections_are_recorded(db: DbView, ts: u64, response: &Json, message: &str)
    requires
        ts <= MAX_STORED,
    ensures
        after_collection(db, ts, Err(message)) == with_failed_run(db, ts, message@),
        !(response.field("channels"@) matches Some(Json::Array(_))) ==> after_collection(
            db,
            ts,
            Ok(response),
        ) == with_failed_run(db, ts, "listpeerchannels response has no channels array"@),
        response.field("channels"@) matches Some(Json::Array(channels)) ==> (channels@.len()
            <= MAX_STORED && crate::recording::channels_fit(channels@, None) ==> after_collection(
            db,
            ts,
            Ok(response),
        ) == crate::recording::with_snapshot(db, ts, channels@, None)),
{
}

} // verus!
