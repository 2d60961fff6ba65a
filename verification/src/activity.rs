//! Recording what happens between snapshots: failures, state changes, forwards, connections and
//! probes.

use crate::channels::difference_or_zero;
use crate::integrity::{
    law_probe_results_keep_the_tables_sound, law_state_changes_keep_the_tables_sound,
    lemma_forward_is_sound, lemma_run_is_sound, sound,
};
use crate::json::{amount_msat, amount_of, Json};
use crate::queries::{is_probe_status, probe_status};
use crate::recording::{
    fits, optional_fits, pruned, storable, with_run, HistoryError,
};
use crate::store::{
    identity, identity_of, record_alias, resolve_alias, resolved, with_alias_seen, AliasRow,
    BucketRow, DbView, EventRow, HistoryDb, HopRow, ProbeRow, RunRow, MAX_STORED,
};
use crate::text::{last_position, parse_number, same_text, shortened, spelled_number, split_last};
use vstd::prelude::*;

verus! {

/// How many characters of an error are kept.
pub const MAX_ERROR_CHARS: usize = 1_000;

/// The span of time over which forwards are counted together, in seconds.
pub const FORWARD_BUCKET_SECONDS: u64 = 300;

/// A text of at most that many characters.
pub open spec fn cut(text: Seq<char>, limit: int) -> Seq<char> {
    if text.len() <= limit {
        text
    } else {
        text.take(limit)
    }
}

/// The event of a state change.
pub open spec fn state_change(
    id: u64,
    ts: u64,
    key: Option<Seq<char>>,
    value: Json,
) -> EventRow<Seq<char>> {
    EventRow {
        id,
        ts,
        event_type: "state_changed"@,
        channel_key: key,
        channel_id: value.text_at("channel_id"@),
        short_channel_id: value.text_at("short_channel_id"@),
        peer_id: value.text_at("peer_id"@),
        old_state: value.text_at("old_state"@),
        new_state: value.text_at("new_state"@),
        cause: value.text_at("cause"@),
        direction: None,
        reason: None,
    }
}

/// The first of two that is there.
pub open spec fn first_of(a: Option<Seq<char>>, b: Option<Seq<char>>) -> Option<Seq<char>> {
    match a {
        Some(a) => Some(a),
        None => b,
    }
}

/// What a name that may be missing stands for.
pub open spec fn resolved_name(
    aliases: Seq<AliasRow<Seq<char>>>,
    name: Option<Seq<char>>,
) -> Option<Seq<char>> {
    match name {
        Some(name) => resolved(aliases, name),
        None => None,
    }
}

/// The channel that a state change is about: the one that its channel id or short channel id stands
/// for, else the channel id, the short channel id or the peer itself.
pub open spec fn event_key(aliases: Seq<AliasRow<Seq<char>>>, value: Json) -> Option<Seq<char>> {
    let channel_id = value.text_at("channel_id"@);
    let short_channel_id = value.text_at("short_channel_id"@);
    first_of(
        first_of(resolved_name(aliases, channel_id), resolved_name(aliases, short_channel_id)),
        first_of(channel_id, first_of(short_channel_id, value.text_at("peer_id"@))),
    )
}

/// The names after one that may be missing was seen.
pub open spec fn with_name_seen(
    aliases: Seq<AliasRow<Seq<char>>>,
    ts: u64,
    kind: Seq<char>,
    name: Option<Seq<char>>,
    key: Option<Seq<char>>,
) -> Seq<AliasRow<Seq<char>>> {
    match (name, key) {
        (Some(name), Some(key)) => with_alias_seen(aliases, ts, kind, name, key),
        _ => aliases,
    }
}

/// The history after a state change.
pub open spec fn with_state_change(db: DbView, ts: u64, value: Json) -> DbView {
    let key = event_key(db.aliases, value);
    let id = (db.last_event_id + 1) as u64;
    DbView {
        aliases: with_name_seen(
            with_name_seen(
                db.aliases,
                ts,
                "channel_id"@,
                value.text_at("channel_id"@),
                key,
            ),
            ts,
            "short_channel_id"@,
            value.text_at("short_channel_id"@),
            key,
        ),
        events: db.events.push(state_change(id, ts, key, value)),
        last_event_id: id,
        ..db
    }
}

fn name_seen(
    aliases: &mut Vec<AliasRow<String>>,
    ts: u64,
    kind: &str,
    name: Option<&str>,
    key: &Option<String>,
)
    ensures
        final(aliases).deep_view() == with_name_seen(
            old(aliases).deep_view(),
            ts,
            kind@,
            name.deep_view(),
            key.deep_view(),
        ),
{
    if let (Some(name), Some(key)) = (name, key) {
        record_alias(aliases, ts, kind, name, key.as_str());
    }
}

fn key_of_event(aliases: &Vec<AliasRow<String>>, value: &Json) -> (r: Option<String>)
    ensures
        r.deep_view() == event_key(aliases.deep_view(), *value),
{
    if let Some(name) = value.text_field("channel_id") {
        if let Some(key) = resolve_alias(aliases, name) {
            return Some(key);
        }
    }
    if let Some(name) = value.text_field("short_channel_id") {
        if let Some(key) = resolve_alias(aliases, name) {
            return Some(key);
        }
    }
    if let Some(name) = value.text_field("channel_id") {
        Some(name.to_owned())
    } else if let Some(name) = value.text_field("short_channel_id") {
        Some(name.to_owned())
    } else {
        value.owned_text_field("peer_id")
    }
}

/// The peer of a connection.
pub open spec fn connected_peer(value: Json) -> Option<Seq<char>> {
    first_of(value.text_at("id"@), value.text_at("peer_id"@))
}

/// The event of a connection.
pub open spec fn connection_event(
    id: u64,
    ts: u64,
    event_type: Seq<char>,
    peer_id: Seq<char>,
    value: Json,
) -> EventRow<Seq<char>> {
    EventRow {
        id,
        ts,
        event_type,
        channel_key: None,
        channel_id: None,
        short_channel_id: None,
        peer_id: Some(peer_id),
        old_state: None,
        new_state: None,
        cause: None,
        direction: value.text_at("direction"@),
        reason: value.text_at("reason"@),
    }
}

/// The history after a connection came or went.
pub open spec fn with_connection_event(
    db: DbView,
    ts: u64,
    event_type: Seq<char>,
    peer_id: Seq<char>,
    value: Json,
) -> DbView {
    let id = (db.last_event_id + 1) as u64;
    DbView {
        events: db.events.push(connection_event(id, ts, event_type, peer_id, value)),
        last_event_id: id,
        ..db
    }
}

/// What a forward counts as: its channels, how it ended, and its amounts.
pub open spec fn forward_row(
    aliases: Seq<AliasRow<Seq<char>>>,
    ts: u64,
    in_channel: Seq<char>,
    value: Json,
) -> BucketRow<Seq<char>> {
    let in_msat = amount_of(value.field("in_msat"@));
    let out_msat = amount_of(value.field("out_msat"@));
    BucketRow {
        bucket_start: (ts / FORWARD_BUCKET_SECONDS * FORWARD_BUCKET_SECONDS) as u64,
        in_channel: identity_of(aliases, in_channel),
        out_channel: identity_of(aliases, value.text_or("out_channel"@, "unknown"@)),
        status: value.text_or("status"@, "unknown"@),
        failcode: value.unsigned_or_zero("failcode"@),
        failreason: value.text_or("failreason"@, ""@),
        forward_count: 1,
        in_msat: in_msat as u128,
        out_msat: out_msat as u128,
        fee_msat: if value.field("fee_msat"@) is Some {
            amount_of(value.field("fee_msat"@)) as u128
        } else {
            difference_or_zero(in_msat as int, out_msat as int) as u128
        },
    }
}

/// Whether the numbers of a forward fit a table.
pub open spec fn forward_fits(row: BucketRow<Seq<char>>) -> bool {
    fits(row.bucket_start) && fits(row.failcode) && row.in_msat <= MAX_STORED && row.out_msat
        <= MAX_STORED && row.fee_msat <= MAX_STORED
}

/// Whether two rows count the same forwards: same span, channels and end.
pub open spec fn same_bucket(a: BucketRow<Seq<char>>, b: BucketRow<Seq<char>>) -> bool {
    a.bucket_start == b.bucket_start && a.in_channel == b.in_channel && a.out_channel
        == b.out_channel && a.status == b.status && a.failcode == b.failcode && a.failreason
        == b.failreason
}

/// The sum of two counts, or the greatest 128-bit number where it is larger.
pub open spec fn total(a: u128, b: u128) -> u128 {
    if a + b > u128::MAX {
        u128::MAX
    } else {
        (a + b) as u128
    }
}

/// A row with what another adds, where it counts the same forwards.
pub open spec fn merged(row: BucketRow<Seq<char>>, more: BucketRow<Seq<char>>) -> BucketRow<
    Seq<char>,
> {
    if same_bucket(row, more) {
        BucketRow {
            forward_count: total(row.forward_count, more.forward_count),
            in_msat: total(row.in_msat, more.in_msat),
            out_msat: total(row.out_msat, more.out_msat),
            fee_msat: total(row.fee_msat, more.fee_msat),
            ..row
        }
    } else {
        row
    }
}

/// The counted forwards with one more.
pub open spec fn with_forward_row(
    buckets: Seq<BucketRow<Seq<char>>>,
    row: BucketRow<Seq<char>>,
) -> Seq<BucketRow<Seq<char>>> {
    if exists|i: int| 0 <= i < buckets.len() && same_bucket(#[trigger] buckets[i], row) {
        Seq::new(buckets.len(), |i: int| merged(buckets[i], row))
    } else {
        buckets.push(row)
    }
}

/// Whether two rows count the same forwards.
pub fn counts_same(a: &BucketRow<String>, b: &BucketRow<String>) -> (r: bool)
    ensures
        r == same_bucket(a.deep_view(), b.deep_view()),
{
    a.bucket_start == b.bucket_start && same_text(a.in_channel.as_str(), b.in_channel.as_str())
        && same_text(a.out_channel.as_str(), b.out_channel.as_str()) && same_text(
        a.status.as_str(),
        b.status.as_str(),
    ) && a.failcode == b.failcode && same_text(a.failreason.as_str(), b.failreason.as_str())
}

/// Adds what another row counts.
pub fn add_counts(row: &mut BucketRow<String>, more: &BucketRow<String>)
    requires
        same_bucket(old(row).deep_view(), more.deep_view()),
    ensures
        final(row).deep_view() == merged(old(row).deep_view(), more.deep_view()),
{
    row.forward_count = row.forward_count.saturating_add(more.forward_count);
    row.in_msat = row.in_msat.saturating_add(more.in_msat);
    row.out_msat = row.out_msat.saturating_add(more.out_msat);
    row.fee_msat = row.fee_msat.saturating_add(more.fee_msat);
}

fn count_forward(buckets: &mut Vec<BucketRow<String>>, row: BucketRow<String>)
    ensures
        final(buckets).deep_view() == with_forward_row(old(buckets).deep_view(), row.deep_view()),
{
    let ghost before = buckets.deep_view();
    let mut known = false;
    let mut i: usize = 0;
    while i < buckets.len()
        invariant
            i <= buckets@.len(),
            buckets@.len() == before.len(),
            known == (exists|j: int|
                0 <= j < i && same_bucket(#[trigger] before[j], row.deep_view())),
            forall|j: int|
                0 <= j < i ==> (#[trigger] buckets@[j]).deep_view() == merged(
                    before[j],
                    row.deep_view(),
                ),
            forall|j: int|
                i <= j < buckets@.len() ==> (#[trigger] buckets@[j]).deep_view() == before[j],
        decreases buckets@.len() - i,
    {
        assert(buckets@[i as int].deep_view() == before[i as int]);
        if counts_same(&buckets[i], &row) {
            known = true;
            add_counts(&mut buckets[i], &row);
        }
        i = i + 1;
    }
    if !known {
        assert(buckets.deep_view() =~= before);
        buckets.push(row);
    }
    assert(buckets.deep_view() =~= with_forward_row(before, row.deep_view()));
}

fn read_forward(aliases: &Vec<AliasRow<String>>, ts: u64, in_channel: &str, value: &Json) -> (r:
    BucketRow<String>)
    ensures
        r.deep_view() == forward_row(aliases.deep_view(), ts, in_channel@, *value),
{
    let in_msat: u64 = amount_msat(value.get("in_msat"));
    let out_msat: u64 = amount_msat(value.get("out_msat"));
    let fee_msat: u64 = match value.get("fee_msat") {
        Some(fee) => amount_msat(Some(fee)),
        None => in_msat.saturating_sub(out_msat),
    };
    BucketRow {
        bucket_start: ts / FORWARD_BUCKET_SECONDS * FORWARD_BUCKET_SECONDS,
        in_channel: identity(aliases, in_channel),
        out_channel: identity(aliases, value.text_field_or("out_channel", "unknown")),
        status: value.text_field_or("status", "unknown").to_owned(),
        failcode: value.u64_field_or_zero("failcode"),
        failreason: value.text_field_or("failreason", "").to_owned(),
        forward_count: 1,
        in_msat: in_msat as u128,
        out_msat: out_msat as u128,
        fee_msat: fee_msat as u128,
    }
}

impl HistoryDb {
    /// Records that an attempt to record the channels failed.
    pub fn record_collection_failure(&mut self, ts: u64, message: &str) -> (r: Result<
        (),
        HistoryError,
    >)
        ensures
            if fits(ts) {
                r is Ok && final(self)@ == (DbView {
                    runs: with_run(
                        old(self)@.runs,
                        RunRow {
                            ts,
                            success: false,
                            channel_count: None,
                            error: Some(cut(message@, MAX_ERROR_CHARS as int)),
                        },
                    ),
                    ..old(self)@
                })
            } else {
                r == Err::<(), HistoryError>(HistoryError::OutOfRange) && final(self)@ == old(
                    self,
                )@
            },
            sound(old(self)@) ==> sound(final(self)@),
    {
        proof {
            if sound(self@) {
                lemma_run_is_sound(
                    self@.runs,
                    RunRow {
                        ts,
                        success: false,
                        channel_count: None,
                        error: Some(cut(message@, MAX_ERROR_CHARS as int)),
                    },
                );
            }
        }
        if ts > MAX_STORED {
            return Err(HistoryError::OutOfRange);
        }
        let error = shortened(message, MAX_ERROR_CHARS);
        self.put_run(RunRow { ts, success: false, channel_count: None, error: Some(error) });
        Ok(())
    }

    /// Records a state change of a channel.
    pub fn record_channel_event(&mut self, ts: u64, value: &Json) -> (r: Result<(), HistoryError>)
        requires
            old(self).last_event_id < MAX_STORED,
        ensures
            if fits(ts) {
                r is Ok && final(self)@ == with_state_change(old(self)@, ts, *value)
            } else {
                r == Err::<(), HistoryError>(HistoryError::OutOfRange) && final(self)@ == old(
                    self,
                )@
            },
            sound(old(self)@) ==> sound(final(self)@),
    {
        proof {
            if sound(self@) {
                law_state_changes_keep_the_tables_sound(self@, ts, *value);
            }
        }
        if ts > MAX_STORED {
            return Err(HistoryError::OutOfRange);
        }
        let key = key_of_event(&self.aliases, value);
        name_seen(&mut self.aliases, ts, "channel_id", value.text_field("channel_id"), &key);
        name_seen(
            &mut self.aliases,
            ts,
            "short_channel_id",
            value.text_field("short_channel_id"),
            &key,
        );
        self.last_event_id = self.last_event_id + 1;
        let event = EventRow {
            id: self.last_event_id,
            ts,
            event_type: "state_changed".to_owned(),
            channel_key: key,
            channel_id: value.owned_text_field("channel_id"),
            short_channel_id: value.owned_text_field("short_channel_id"),
            peer_id: value.owned_text_field("peer_id"),
            old_state: value.owned_text_field("old_state"),
            new_state: value.owned_text_field("new_state"),
            cause: value.owned_text_field("cause"),
            direction: None,
            reason: None,
        };
        self.events.push(event);
        assert(self@ =~= with_state_change(old(self)@, ts, *value));
        Ok(())
    }

    /// Counts a forward. One without an incoming channel is passed over.
    pub fn record_forward_event(&mut self, ts: u64, value: &Json) -> (r: Result<(), HistoryError>)
        ensures
            match value.text_at("in_channel"@) {
                None => r is Ok && final(self)@ == old(self)@,
                Some(in_channel) => {
                    let row = forward_row(old(self)@.aliases, ts, in_channel, *value);
                    if forward_fits(row) {
                        r is Ok && final(self)@ == (DbView {
                            buckets: with_forward_row(old(self)@.buckets, row),
                            ..old(self)@
                        })
                    } else {
                        r == Err::<(), HistoryError>(HistoryError::OutOfRange) && final(self)@
                            == old(self)@
                    }
                },
            },
            sound(old(self)@) ==> sound(final(self)@),
    {
        proof {
            if let Some(in_channel) = value.text_at("in_channel"@) {
                if sound(self@) {
                    lemma_forward_is_sound(
                        self@.buckets,
                        forward_row(self@.aliases, ts, in_channel, *value),
                    );
                }
            }
        }
        let in_channel = match value.text_field("in_channel") {
            Some(in_channel) => in_channel,
            None => {
                return Ok(());
            },
        };
        let row = read_forward(&self.aliases, ts, in_channel, value);
        if row.bucket_start > MAX_STORED || row.failcode > MAX_STORED || row.in_msat
            > MAX_STORED as u128 || row.out_msat > MAX_STORED as u128 || row.fee_msat
            > MAX_STORED as u128 {
            return Err(HistoryError::OutOfRange);
        }
        count_forward(&mut self.buckets, row);
        assert(self@ =~= (DbView { buckets: self@.buckets, ..old(self)@ }));
        Ok(())
    }

    /// Records that a peer connected or disconnected. One without a peer is passed over.
    pub fn record_peer_connection_event(&mut self, ts: u64, event_type: &str, value: &Json) -> (r:
        Result<(), HistoryError>)
        requires
            old(self).last_event_id < MAX_STORED,
        ensures
            match connected_peer(*value) {
                None => r is Ok && final(self)@ == old(self)@,
                Some(peer_id) => if fits(ts) {
                    r is Ok && final(self)@ == with_connection_event(
                        old(self)@,
                        ts,
                        event_type@,
                        peer_id,
                        *value,
                    )
                } else {
                    r == Err::<(), HistoryError>(HistoryError::OutOfRange) && final(self)@ == old(
                        self,
                    )@
                },
            },
            sound(old(self)@) ==> sound(final(self)@),
    {
        let peer_id = match value.text_field("id") {
            Some(id) => id,
            None => match value.text_field("peer_id") {
                Some(id) => id,
                None => {
                    return Ok(());
                },
            },
        };
        if ts > MAX_STORED {
            return Err(HistoryError::OutOfRange);
        }
        self.last_event_id = self.last_event_id + 1;
        let event = EventRow {
            id: self.last_event_id,
            ts,
            event_type: event_type.to_owned(),
            channel_key: None,
            channel_id: None,
            short_channel_id: None,
            peer_id: Some(peer_id.to_owned()),
            old_state: None,
            new_state: None,
            cause: None,
            direction: value.owned_text_field("direction"),
            reason: value.owned_text_field("reason"),
        };
        self.events.push(event);
        assert(self@ =~= with_connection_event(
            old(self)@,
            ts,
            event_type@,
            connected_peer(*value)->0,
            *value,
        ));
        Ok(())
    }
}

/// A field of a field that may be missing.
pub open spec fn failure_text(value: Json, field: Seq<char>) -> Option<Seq<char>> {
    match value.field("failure"@) {
        Some(failure) => failure.text_at(field),
        None => None,
    }
}

/// A number of the failure of a probe.
pub open spec fn failure_number(value: Json, field: Seq<char>) -> Option<i64> {
    match value.field("failure"@) {
        Some(failure) => failure.signed_at(field),
        None => None,
    }
}

/// The greatest amount that a probe showed to pass, where it showed one.
pub open spec fn lower_bound(value: Json) -> Option<u64> {
    match value.field("lower_bound_msat"@) {
        Some(Json::Null) => None,
        Some(amount) => Some(amount_of(Some(amount))),
        None => None,
    }
}

/// When a probe was observed.
pub open spec fn observed_at(value: Json, received_at: u64) -> u64 {
    match value.unsigned_at("observed_at"@) {
        Some(ts) => ts,
        None => received_at,
    }
}

/// What is kept of a probe.
pub open spec fn probe_row(id: u64, ts: u64, value: Json, route: Seq<Json>) -> ProbeRow<Seq<char>> {
    ProbeRow {
        id,
        ts,
        started_at: value.unsigned_at("started_at"@),
        duration_ms: value.unsigned_at("duration_ms"@),
        plugin_version: value.text_at("plugin_version"@),
        status: value.text_or("status"@, ""@),
        destination_reached: value.holds("destination_reached"@),
        destination: route.last().text_at("node_id_out"@),
        delivered_msat: amount_of(value.field("delivered_msat"@)),
        amount_at_source_msat: amount_of(value.field("amount_at_source_msat"@)),
        total_fee_msat: amount_of(value.field("total_fee_msat"@)),
        lower_bound_msat: lower_bound(value),
        failure_code: failure_number(value, "code"@),
        failcode: failure_number(value, "failcode"@),
        failcodename: failure_text(value, "failcodename"@),
        erring_index: failure_number(value, "erring_index"@),
        erring_channel: failure_text(value, "erring_channel"@),
        erring_direction: failure_number(value, "erring_direction"@),
        erring_node: failure_text(value, "erring_node"@),
    }
}

/// Whether the numbers of a probe fit a table.
pub open spec fn probe_fits(row: ProbeRow<Seq<char>>) -> bool {
    fits(row.ts) && optional_fits(row.started_at) && optional_fits(row.duration_ms) && fits(
        row.delivered_msat,
    ) && fits(row.amount_at_source_msat) && fits(row.total_fee_msat) && optional_fits(
        row.lower_bound_msat,
    )
}

/// The channel of a hop, before the last slash of its directed channel.
pub open spec fn hop_channel(directed: Seq<char>) -> Seq<char> {
    directed.take(last_position(directed, '/'))
}

/// The direction of a hop, behind the last slash.
pub open spec fn hop_direction(directed: Seq<char>) -> Option<u64> {
    spelled_number(directed.skip(last_position(directed, '/') + 1))
}

/// What is kept of a hop.
pub open spec fn hop_row(
    probe_id: u64,
    index: int,
    aliases: Seq<AliasRow<Seq<char>>>,
    hop: Json,
) -> HopRow<Seq<char>> {
    let directed = hop.text_at("short_channel_id_dir"@)->0;
    HopRow {
        probe_id,
        hop_index: index as u64,
        channel_key: resolved(aliases, hop_channel(directed)),
        short_channel_id: hop_channel(directed),
        direction: hop_direction(directed)->0,
        node_id_out: hop.text_at("node_id_out"@)->0,
        amount_out_msat: amount_of(hop.field("amount_out_msat"@)),
        cltv_out: hop.unsigned_or_zero("cltv_out"@),
        status: hop.text_or("status"@, "unknown"@),
    }
}

/// What is wrong with a hop, if anything.
pub open spec fn hop_problem(hop: Json, index: int) -> Option<HistoryError> {
    match hop.text_at("short_channel_id_dir"@) {
        None => Some(HistoryError::NoHopChannel),
        Some(directed) => if last_position(directed, '/') < 0 {
            Some(HistoryError::NoHopDirection)
        } else {
            match hop_direction(directed) {
                None => Some(HistoryError::InvalidHopDirection),
                Some(direction) => if index > MAX_STORED || !fits(direction) {
                    Some(HistoryError::OutOfRange)
                } else if hop.text_at("node_id_out"@) is None {
                    Some(HistoryError::NoHopDestination)
                } else if !fits(amount_of(hop.field("amount_out_msat"@))) || !fits(
                    hop.unsigned_or_zero("cltv_out"@),
                ) {
                    Some(HistoryError::OutOfRange)
                } else {
                    None
                },
            }
        },
    }
}

/// The first problem along a route.
pub open spec fn route_problem(route: Seq<Json>) -> Option<HistoryError>
    decreases route.len(),
{
    if route.len() == 0 {
        None
    } else {
        match route_problem(route.drop_last()) {
            Some(problem) => Some(problem),
            None => hop_problem(route.last(), route.len() - 1),
        }
    }
}

proof fn lemma_route_problem(route: Seq<Json>, n: int)
    requires
        0 <= n <= route.len(),
        route_problem(route.take(n)) is Some,
    ensures
        route_problem(route) == route_problem(route.take(n)),
    decreases route.len(),
{
    if n == route.len() {
        assert(route.take(n) =~= route);
    } else {
        assert(route.drop_last().take(n) =~= route.take(n));
        lemma_route_problem(route.drop_last(), n);
    }
}

/// The hops of a route.
pub open spec fn hop_rows(
    probe_id: u64,
    aliases: Seq<AliasRow<Seq<char>>>,
    route: Seq<Json>,
) -> Seq<HopRow<Seq<char>>> {
    Seq::new(route.len(), |i: int| hop_row(probe_id, i, aliases, route[i]))
}

/// The history after a probe, before what is too old is dropped.
pub open spec fn with_probe(db: DbView, ts: u64, value: Json, route: Seq<Json>) -> DbView {
    let id = (db.last_probe_id + 1) as u64;
    DbView {
        probes: db.probes.push(probe_row(id, ts, value, route)),
        hops: db.hops + hop_rows(id, db.aliases, route),
        last_probe_id: id,
        ..db
    }
}

/// Whether a probe has not ended yet.
pub open spec fn is_pending(status: Seq<char>) -> bool {
    status == "pending"@ || status == "pending_after_restart"@
}

/// The route of a probe result.
pub open spec fn route_of(value: Json) -> Option<Seq<Json>> {
    match value.field("route"@) {
        Some(route) => route.elements(),
        None => None,
    }
}

/// What comes of a probe result: an error, or the history after it.
pub open spec fn probe_outcome(db: DbView, received_at: u64, value: Json) -> Result<
    DbView,
    HistoryError,
> {
    match value.text_at("status"@) {
        None => Err(HistoryError::NoStatus),
        Some(status) => if is_pending(status) {
            Ok(db)
        } else if !is_probe_status(status) {
            Err(HistoryError::UnknownStatus)
        } else {
            match route_of(value) {
                None => Err(HistoryError::NoRoute),
                Some(route) => if route.len() == 0 {
                    Ok(db)
                } else {
                    let ts = observed_at(value, received_at);
                    if !probe_fits(probe_row(0, ts, value, route)) {
                        Err(HistoryError::OutOfRange)
                    } else {
                        match route_problem(route) {
                            Some(problem) => Err(problem),
                            None => Ok(pruned(with_probe(db, ts, value, route), ts)),
                        }
                    }
                },
            }
        },
    }
}

fn read_failure_text(value: &Json, field: &str) -> (r: Option<String>)
    ensures
        r.deep_view() == failure_text(*value, field@),
{
    match value.get("failure") {
        Some(failure) => failure.owned_text_field(field),
        None => None,
    }
}

fn read_failure_number(value: &Json, field: &str) -> (r: Option<i64>)
    ensures
        r == failure_number(*value, field@),
{
    match value.get("failure") {
        Some(failure) => failure.i64_field(field),
        None => None,
    }
}

fn read_lower_bound(value: &Json) -> (r: Option<u64>)
    ensures
        r == lower_bound(*value),
{
    match value.get("lower_bound_msat") {
        Some(amount) => match amount {
            Json::Null => None,
            _ => Some(amount_msat(Some(amount))),
        },
        None => None,
    }
}

fn read_probe(id: u64, ts: u64, value: &Json, route: &Vec<Json>) -> (r: ProbeRow<String>)
    requires
        route@.len() > 0,
    ensures
        r.deep_view() == probe_row(id, ts, *value, route@),
{
    ProbeRow {
        id,
        ts,
        started_at: value.u64_field("started_at"),
        duration_ms: value.u64_field("duration_ms"),
        plugin_version: value.owned_text_field("plugin_version"),
        status: value.text_field_or("status", "").to_owned(),
        destination_reached: value.flag("destination_reached"),
        destination: route[route.len() - 1].owned_text_field("node_id_out"),
        delivered_msat: amount_msat(value.get("delivered_msat")),
        amount_at_source_msat: amount_msat(value.get("amount_at_source_msat")),
        total_fee_msat: amount_msat(value.get("total_fee_msat")),
        lower_bound_msat: read_lower_bound(value),
        failure_code: read_failure_number(value, "code"),
        failcode: read_failure_number(value, "failcode"),
        failcodename: read_failure_text(value, "failcodename"),
        erring_index: read_failure_number(value, "erring_index"),
        erring_channel: read_failure_text(value, "erring_channel"),
        erring_direction: read_failure_number(value, "erring_direction"),
        erring_node: read_failure_text(value, "erring_node"),
    }
}

fn read_hop(probe_id: u64, index: usize, aliases: &Vec<AliasRow<String>>, hop: &Json) -> (r: Result<
    HopRow<String>,
    HistoryError,
>)
    ensures
        match hop_problem(*hop, index as int) {
            Some(problem) => r == Err::<HopRow<String>, HistoryError>(problem),
            None => r matches Ok(row) && row.deep_view() == hop_row(
                probe_id,
                index as int,
                aliases.deep_view(),
                *hop,
            ),
        },
{
    let directed = match hop.text_field("short_channel_id_dir") {
        Some(directed) => directed,
        None => {
            return Err(HistoryError::NoHopChannel);
        },
    };
    let (channel, direction) = match split_last(directed, '/') {
        Some(parts) => parts,
        None => {
            return Err(HistoryError::NoHopDirection);
        },
    };
    let direction: u64 = match parse_number(direction) {
        Some(direction) => direction,
        None => {
            return Err(HistoryError::InvalidHopDirection);
        },
    };
    if index as u64 > MAX_STORED || direction > MAX_STORED {
        return Err(HistoryError::OutOfRange);
    }
    let node_id_out = match hop.text_field("node_id_out") {
        Some(node) => node,
        None => {
            return Err(HistoryError::NoHopDestination);
        },
    };
    let amount_out_msat: u64 = amount_msat(hop.get("amount_out_msat"));
    let cltv_out: u64 = hop.u64_field_or_zero("cltv_out");
    if amount_out_msat > MAX_STORED || cltv_out > MAX_STORED {
        return Err(HistoryError::OutOfRange);
    }
    Ok(
        HopRow {
            probe_id,
            hop_index: index as u64,
            channel_key: resolve_alias(aliases, channel),
            short_channel_id: channel.to_owned(),
            direction,
            node_id_out: node_id_out.to_owned(),
            amount_out_msat,
            cltv_out,
            status: hop.text_field_or("status", "unknown").to_owned(),
        },
    )
}

fn read_route(probe_id: u64, aliases: &Vec<AliasRow<String>>, route: &Vec<Json>) -> (r: Result<
    Vec<HopRow<String>>,
    HistoryError,
>)
    ensures
        match route_problem(route@) {
            Some(problem) => r == Err::<Vec<HopRow<String>>, HistoryError>(problem),
            None => r matches Ok(hops) && hops.deep_view() == hop_rows(
                probe_id,
                aliases.deep_view(),
                route@,
            ),
        },
{
    let mut hops: Vec<HopRow<String>> = Vec::new();
    let mut i: usize = 0;
    assert(route@.take(0) =~= seq![]);
    while i < route.len()
        invariant
            i <= route@.len(),
            route_problem(route@.take(i as int)) is None,
            hops.deep_view() =~= hop_rows(probe_id, aliases.deep_view(), route@).take(i as int),
        decreases route@.len() - i,
    {
        assert(route@.take(i + 1).drop_last() =~= route@.take(i as int));
        let ghost before = hops.deep_view();
        match read_hop(probe_id, i, aliases, &route[i]) {
            Ok(hop) => {
                hops.push(hop);
                assert(hops.deep_view() =~= before.push(hop.deep_view()));
            },
            Err(problem) => {
                proof {
                    lemma_route_problem(route@, i + 1);
                }
                return Err(problem);
            },
        }
        i = i + 1;
    }
    assert(route@.take(i as int) =~= route@);
    Ok(hops)
}

impl HistoryDb {
    /// Records how a probe ended, with the hops of its route. One that has not ended, or has no
    /// hops, is passed over.
    pub fn record_probe_result(&mut self, received_at: u64, value: &Json) -> (r: Result<
        (),
        HistoryError,
    >)
        requires
            old(self).last_probe_id < MAX_STORED,
        ensures
            match probe_outcome(old(self)@, received_at, *value) {
                Ok(after) => r is Ok && final(self)@ == after,
                Err(error) => r == Err::<(), HistoryError>(error) && final(self)@ == old(self)@,
            },
            sound(old(self)@) ==> sound(final(self)@),
    {
        proof {
            if sound(self@) {
                law_probe_results_keep_the_tables_sound(self@, received_at, *value);
            }
        }
        let status = match value.text_field("status") {
            Some(status) => status,
            None => {
                return Err(HistoryError::NoStatus);
            },
        };
        if same_text(status, "pending") || same_text(status, "pending_after_restart") {
            return Ok(());
        }
        if !probe_status(status) {
            return Err(HistoryError::UnknownStatus);
        }
        let route = match value.get("route") {
            Some(route) => match route.as_array() {
                Some(route) => route,
                None => {
                    return Err(HistoryError::NoRoute);
                },
            },
            None => {
                return Err(HistoryError::NoRoute);
            },
        };
        if route.len() == 0 {
            return Ok(());
        }
        let ts: u64 = match value.u64_field("observed_at") {
            Some(ts) => ts,
            None => received_at,
        };
        let id: u64 = self.last_probe_id + 1;
        let row = read_probe(id, ts, value, route);
        if row.ts > MAX_STORED || !storable(row.started_at) || !storable(row.duration_ms)
            || row.delivered_msat > MAX_STORED || row.amount_at_source_msat > MAX_STORED
            || row.total_fee_msat > MAX_STORED || !storable(row.lower_bound_msat) {
            return Err(HistoryError::OutOfRange);
        }
        let mut hops = match read_route(id, &self.aliases, route) {
            Ok(hops) => hops,
            Err(problem) => {
                return Err(problem);
            },
        };
        let ghost added = hops.deep_view();
        self.last_probe_id = id;
        self.probes.push(row);
        self.hops.append(&mut hops);
        assert(self.hops.deep_view() =~= old(self)@.hops + added);
        assert(self@ =~= with_probe(old(self)@, ts, *value, route@));
        self.prune(ts);
        Ok(())
    }
}

/// A forward is recorded by its channels, its result and its amounts alone: whatever else the
/// notification holds is not stored.
pub proof fn law_forwards_are_recorded_by_channels_results_and_amounts(
    aliases: Seq<AliasRow<Seq<char>>>,
    ts: u64,
    in_channel: Seq<char>,
    one: Json,
    other: Json,
)
    requires
        one.text_at("out_channel"@) == other.text_at("out_channel"@),
        one.text_at("status"@) == other.text_at("status"@),
        one.text_at("failreason"@) == other.text_at("failreason"@),
        one.unsigned_at("failcode"@) == other.unsigned_at("failcode"@),
        one.field("in_msat"@) == other.field("in_msat"@),
        one.field("out_msat"@) == other.field("out_msat"@),
        one.field("fee_msat"@) == other.field("fee_msat"@),
    ensures
        forward_row(aliases, ts, in_channel, one) == forward_row(aliases, ts, in_channel, other),
{
}

} // verus!
