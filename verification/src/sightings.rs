//! What a snapshot leaves behind: the rows of the channels that it lists, the notes on those that come
//! and go, and what is dropped with time.

use crate::continuity::{
    lemma_departures_add, lemma_departures_are_noted, lemma_latest_row,
    lemma_seen_channels_are_there,
};
use crate::happenings::law_names_are_seen;
use crate::json::Json;
use crate::model::{aliases_of, AliasView, SampleView};
use crate::recording::{
    cutoff_at, departure, identified, is_kept, is_later, is_missing, is_of_channel, is_orphaned,
    kept_buckets, kept_events, kept_hops, kept_probes, kept_runs, kept_samples, keys_in, latest_row,
    pruned, reappearance, with_channel_seen, with_channels, with_departures, with_missing,
    with_names_seen, with_run, with_sample, with_snapshot,
};
use crate::selection::lemma_filter_contains;
use crate::stocktaking::is_on_record;
use crate::store::{
    with_alias_seen, AliasRow, BucketRow, ChannelRow, DbView, EventRow, HopRow, ProbeRow, RunRow,
    SampleRowView,
};
use vstd::prelude::*;

verus! {

/// The words that a field holds.
pub open spec fn words(value: Json, name: Seq<char>) -> Option<Seq<char>> {
    match value.field(name) {
        Some(Json::Text(text)) => Some(text@),
        _ => None,
    }
}

/// The words that a field holds, or that nothing is known.
pub open spec fn words_or_unknown(value: Json, name: Seq<char>) -> Seq<char> {
    match words(value, name) {
        Some(text) => text,
        None => "unknown"@,
    }
}

/// Whether a row shows a channel as it was listed at that time.
pub open spec fn shows_channel(row: ChannelRow<Seq<char>>, channel: Json, ts: u64) -> bool {
    &&& row.channel_id == words(channel, "channel_id"@)
    &&& row.short_channel_id == words(channel, "short_channel_id"@)
    &&& row.peer_id == words_or_unknown(channel, "peer_id"@)
    &&& row.last_state == words_or_unknown(channel, "state"@)
    &&& row.last_seen == ts
    &&& row.disappeared_at is None
}

/// Whether a channel of a snapshot is the last one with its key.
pub open spec fn is_listed_last(keys: Seq<Seq<char>>, k: int) -> bool {
    0 <= k < keys.len() && forall|j: int| k < j < keys.len() ==> #[trigger] keys[j] != keys[k]
}

proof fn lemma_keys_grow(
    db: DbView,
    ts: u64,
    channels: Seq<Json>,
    blockheight: Option<u64>,
)
    requires
        channels.len() > 0,
    ensures
        ({
            let front = channels.drop_last();
            let before = with_channels(db, ts, front, blockheight);
            let state = identified(before, channels.last(), channels.len() - 1, blockheight);
            let after = with_channels(db, ts, channels, blockheight);
            let keys = keys_in(db, ts, front, blockheight);
            &&& keys.len() == front.len()
            &&& keys_in(db, ts, channels, blockheight) == keys.push(state.channel_key)
            &&& after.channels == with_channel_seen(before.channels, ts, state)
            &&& after.channels.len() >= before.channels.len()
            &&& forall|i: int|
                0 <= i < before.channels.len() && (#[trigger] before.channels[i]).channel_key
                    != state.channel_key ==> after.channels[i] == before.channels[i]
            &&& forall|i: int|
                0 <= i < before.channels.len() ==> {
                    &&& (#[trigger] after.channels[i]).channel_key == before.channels[i].channel_key
                    &&& after.channels[i].first_seen == before.channels[i].first_seen
                }
            &&& forall|i: int|
                before.channels.len() <= i < after.channels.len() ==> {
                    &&& (#[trigger] after.channels[i]).channel_key == state.channel_key
                    &&& after.channels[i].first_seen == ts
                }
            &&& forall|i: int|
                0 <= i < after.channels.len() && (#[trigger] after.channels[i]).channel_key
                    == state.channel_key ==> shows_channel(after.channels[i], channels.last(), ts)
        }),
{
    lemma_seen_channels_are_there(db, ts, channels.drop_last(), blockheight);
}

proof fn lemma_rows_show_the_channels(
    db: DbView,
    ts: u64,
    channels: Seq<Json>,
    blockheight: Option<u64>,
    k: int,
)
    requires
        is_listed_last(keys_in(db, ts, channels, blockheight), k),
    ensures
        ({
            let after = with_channels(db, ts, channels, blockheight);
            forall|i: int|
                0 <= i < after.channels.len() && (#[trigger] after.channels[i]).channel_key
                    == keys_in(db, ts, channels, blockheight)[k] ==> shows_channel(
                    after.channels[i],
                    channels[k],
                    ts,
                )
        }),
    decreases channels.len(),
{
    lemma_seen_channels_are_there(db, ts, channels, blockheight);
    let front = channels.drop_last();
    lemma_keys_grow(db, ts, channels, blockheight);
    let keys = keys_in(db, ts, channels, blockheight);
    let known = keys_in(db, ts, front, blockheight);
    let before = with_channels(db, ts, front, blockheight);
    let after = with_channels(db, ts, channels, blockheight);
    if k < channels.len() - 1 {
        assert(keys[channels.len() - 1] != keys[k]);
        assert forall|j: int| k < j < known.len() implies #[trigger] known[j] != known[k] by {
            assert(keys[j] == known[j]);
        }
        lemma_rows_show_the_channels(db, ts, front, blockheight, k);
        assert forall|i: int|
            0 <= i < after.channels.len() && (#[trigger] after.channels[i]).channel_key
                == keys[k] implies shows_channel(after.channels[i], channels[k], ts) by {
            assert(i < before.channels.len());
            assert(before.channels[i].channel_key == known[k]);
            assert(front[k] == channels[k]);
        }
    }
}

/// After a snapshot, the row of a channel that it lists has the state, the peer and the ids that the
/// snapshot lists, was seen at its time, and is not marked as gone.
pub proof fn law_rows_show_the_last_snapshot(
    db: DbView,
    ts: u64,
    channels: Seq<Json>,
    blockheight: Option<u64>,
    k: int,
)
    requires
        is_listed_last(keys_in(db, ts, channels, blockheight), k),
    ensures
        ({
            let after = with_snapshot(db, ts, channels, blockheight);
            let key = keys_in(db, ts, channels, blockheight)[k];
            &&& exists|i: int|
                0 <= i < after.channels.len() && (#[trigger] after.channels[i]).channel_key == key
            &&& forall|i: int|
                0 <= i < after.channels.len() && (#[trigger] after.channels[i]).channel_key == key
                    ==> shows_channel(after.channels[i], channels[k], ts)
        }),
{
    lemma_rows_show_the_channels(db, ts, channels, blockheight, k);
    lemma_seen_channels_are_there(db, ts, channels, blockheight);
    let seen = with_channels(db, ts, channels, blockheight);
    let after = with_snapshot(db, ts, channels, blockheight);
    let keys = keys_in(db, ts, channels, blockheight);
    assert(crate::recording::has_channel(seen.channels, keys[k]));
    let at = choose|at: int|
        0 <= at < seen.channels.len() && (#[trigger] seen.channels[at]).channel_key == keys[k];
    assert(after.channels[at].channel_key == keys[k]);
    assert forall|i: int|
        0 <= i < after.channels.len() && (#[trigger] after.channels[i]).channel_key
            == keys[k] implies shows_channel(after.channels[i], channels[k], ts) by {
        assert(seen.channels[i].channel_key == keys[k]);
        assert(keys.contains(keys[k]));
    }
}

proof fn lemma_unlisted_rows_stay(
    db: DbView,
    ts: u64,
    channels: Seq<Json>,
    blockheight: Option<u64>,
    i: int,
)
    requires
        0 <= i < db.channels.len(),
    ensures
        ({
            let after = with_channels(db, ts, channels, blockheight);
            let keys = keys_in(db, ts, channels, blockheight);
            &&& i < after.channels.len()
            &&& after.channels[i].channel_key == db.channels[i].channel_key
            &&& after.channels[i].first_seen == db.channels[i].first_seen
            &&& !keys.contains(db.channels[i].channel_key) ==> after.channels[i] == db.channels[i]
        }),
    decreases channels.len(),
{
    if channels.len() > 0 {
        let front = channels.drop_last();
        lemma_unlisted_rows_stay(db, ts, front, blockheight, i);
        lemma_keys_grow(db, ts, channels, blockheight);
        let keys = keys_in(db, ts, channels, blockheight);
        let known = keys_in(db, ts, front, blockheight);
        let before = with_channels(db, ts, front, blockheight);
        let after = with_channels(db, ts, channels, blockheight);
        assert(after.channels[i].channel_key == before.channels[i].channel_key);
        if !keys.contains(db.channels[i].channel_key) {
            assert(keys[keys.len() - 1] != db.channels[i].channel_key);
            if known.contains(db.channels[i].channel_key) {
                let j = choose|j: int| 0 <= j < known.len() && known[j] == db.channels[i].channel_key;
                assert(keys[j] == known[j]);
            }
        }
    }
}

/// A known channel keeps its key and the time it was first seen. One that a snapshot does not list
/// keeps everything else too, but for the time since when it is gone: that of the first snapshot that
/// did not list it.
pub proof fn law_rows_outlive_the_snapshots(
    db: DbView,
    ts: u64,
    channels: Seq<Json>,
    blockheight: Option<u64>,
    i: int,
)
    requires
        0 <= i < db.channels.len(),
    ensures
        ({
            let after = with_snapshot(db, ts, channels, blockheight);
            let row = db.channels[i];
            &&& i < after.channels.len()
            &&& after.channels[i].channel_key == row.channel_key
            &&& after.channels[i].first_seen == row.first_seen
            &&& !keys_in(db, ts, channels, blockheight).contains(row.channel_key) ==> {
                &&& after.channels[i].channel_id == row.channel_id
                &&& after.channels[i].short_channel_id == row.short_channel_id
                &&& after.channels[i].peer_id == row.peer_id
                &&& after.channels[i].last_seen == row.last_seen
                &&& after.channels[i].last_state == row.last_state
                &&& after.channels[i].disappeared_at == match row.disappeared_at {
                    Some(since) => Some(since),
                    None => Some(ts),
                }
            }
        }),
{
    lemma_unlisted_rows_stay(db, ts, channels, blockheight, i);
}

proof fn lemma_new_rows(
    db: DbView,
    ts: u64,
    channels: Seq<Json>,
    blockheight: Option<u64>,
)
    ensures
        ({
            let after = with_channels(db, ts, channels, blockheight);
            let keys = keys_in(db, ts, channels, blockheight);
            &&& after.channels.len() >= db.channels.len()
            &&& forall|i: int|
                db.channels.len() <= i < after.channels.len() ==> {
                    &&& (#[trigger] after.channels[i]).first_seen == ts
                    &&& keys.contains(after.channels[i].channel_key)
                }
        }),
    decreases channels.len(),
{
    if channels.len() > 0 {
        let front = channels.drop_last();
        lemma_new_rows(db, ts, front, blockheight);
        lemma_keys_grow(db, ts, channels, blockheight);
        let keys = keys_in(db, ts, channels, blockheight);
        let known = keys_in(db, ts, front, blockheight);
        let before = with_channels(db, ts, front, blockheight);
        let after = with_channels(db, ts, channels, blockheight);
        assert forall|i: int| db.channels.len() <= i < after.channels.len() implies {
            &&& (#[trigger] after.channels[i]).first_seen == ts
            &&& keys.contains(after.channels[i].channel_key)
        } by {
            if i < before.channels.len() {
                assert(before.channels[i].first_seen == ts);
                let j = choose|j: int|
                    0 <= j < known.len() && known[j] == before.channels[i].channel_key;
                assert(keys[j] == known[j]);
            } else {
                assert(keys[keys.len() - 1] == after.channels[i].channel_key);
            }
        }
    }
}

/// A channel that becomes known with a snapshot is one that it lists, and is first seen at its time.
pub proof fn law_new_rows_are_of_the_snapshot(
    db: DbView,
    ts: u64,
    channels: Seq<Json>,
    blockheight: Option<u64>,
    i: int,
)
    requires
        db.channels.len() <= i < with_snapshot(db, ts, channels, blockheight).channels.len(),
    ensures
        with_snapshot(db, ts, channels, blockheight).channels[i].first_seen == ts,
        keys_in(db, ts, channels, blockheight).contains(
            with_snapshot(db, ts, channels, blockheight).channels[i].channel_key,
        ),
{
    lemma_new_rows(db, ts, channels, blockheight);
    let seen = with_channels(db, ts, channels, blockheight);
    assert(seen.channels[i].first_seen == ts);
}

/// Whether an event notes that a channel was gone at that time, with what was last known of it.
pub open spec fn notes_absence(
    event: EventRow<Seq<char>>,
    key: Seq<char>,
    channel: Json,
    ts: u64,
) -> bool {
    &&& event.ts == ts
    &&& event.event_type == "disappeared"@
    &&& event.channel_key == Some(key)
    &&& event.channel_id == words(channel, "channel_id"@)
    &&& event.short_channel_id == words(channel, "short_channel_id"@)
    &&& event.peer_id == Some(words_or_unknown(channel, "peer_id"@))
    &&& event.old_state == Some(words_or_unknown(channel, "state"@))
    &&& event.new_state is None
}

/// A channel that one snapshot lists and the next does not is noted as gone, with the state, the peer
/// and the ids that it had in the snapshot that listed it.
pub proof fn law_an_absence_shows_the_last_snapshot(
    db: DbView,
    ts: u64,
    channels: Seq<Json>,
    blockheight: Option<u64>,
    k: int,
    later: u64,
    listed: Seq<Json>,
    height: Option<u64>,
)
    requires
        is_listed_last(keys_in(db, ts, channels, blockheight), k),
        !keys_in(with_snapshot(db, ts, channels, blockheight), later, listed, height).contains(
            keys_in(db, ts, channels, blockheight)[k],
        ),
    ensures
        ({
            let first = with_snapshot(db, ts, channels, blockheight);
            let second = with_snapshot(first, later, listed, height);
            exists|e: int|
                0 <= e < second.events.len() && notes_absence(
                    #[trigger] second.events[e],
                    keys_in(db, ts, channels, blockheight)[k],
                    channels[k],
                    later,
                )
        }),
{
    let first = with_snapshot(db, ts, channels, blockheight);
    let second = with_snapshot(first, later, listed, height);
    let key = keys_in(db, ts, channels, blockheight)[k];
    law_rows_show_the_last_snapshot(db, ts, channels, blockheight, k);
    let i = choose|i: int|
        0 <= i < first.channels.len() && (#[trigger] first.channels[i]).channel_key == key;
    lemma_unlisted_rows_stay(first, later, listed, height, i);
    let seen = with_channels(first, later, listed, height);
    let keys = keys_in(first, later, listed, height);
    let noted = with_missing(seen, keys, later);
    assert(seen.channels[i] == first.channels[i]);
    assert(is_missing(seen.channels[i], keys));
    lemma_departures_are_noted(seen, seen.channels, keys, later, i);
    let all = with_departures(seen, seen.channels, keys, later);
    let e = choose|e: int|
        seen.events.len() <= e < all.events.len() && #[trigger] all.events[e] == departure(
            all.events[e].id,
            later,
            seen.channels[i],
        );
    let event = all.events[e];
    assert(notes_absence(event, key, channels[k], later));
    lemma_event_is_kept(noted, later, event, e);
    let at = choose|at: int| 0 <= at < second.events.len() && second.events[at] == event;
    assert(notes_absence(second.events[at], key, channels[k], later));
}

/// An event of the time at which old ones are dropped is not dropped.
proof fn lemma_event_is_kept(db: DbView, ts: u64, event: EventRow<Seq<char>>, e: int)
    requires
        0 <= e < db.events.len(),
        db.events[e] == event,
        event.ts == ts,
    ensures
        db.events.filter(kept_events(cutoff_at(db, ts))).contains(event),
{
    lemma_filter_contains(db.events, kept_events(cutoff_at(db, ts)));
    assert(db.events.contains(event));
}

/// Whether an event notes that a channel is back at that time, with what is known of it.
pub open spec fn notes_return(
    event: EventRow<Seq<char>>,
    key: Seq<char>,
    channel: Json,
    ts: u64,
) -> bool {
    &&& event.ts == ts
    &&& event.event_type == "reappeared"@
    &&& event.channel_key == Some(key)
    &&& event.channel_id == words(channel, "channel_id"@)
    &&& event.short_channel_id == words(channel, "short_channel_id"@)
    &&& event.peer_id == Some(words_or_unknown(channel, "peer_id"@))
    &&& event.old_state is None
    &&& event.new_state == Some(words_or_unknown(channel, "state"@))
}

proof fn lemma_returns_are_noted(
    db: DbView,
    ts: u64,
    channels: Seq<Json>,
    blockheight: Option<u64>,
    k: int,
    i: int,
)
    requires
        0 <= i < db.channels.len(),
        db.channels[i].disappeared_at is Some,
        0 <= k < channels.len(),
        keys_in(db, ts, channels, blockheight)[k] == db.channels[i].channel_key,
        forall|j: int|
            0 <= j < k ==> #[trigger] keys_in(db, ts, channels, blockheight)[j]
                != db.channels[i].channel_key,
    ensures
        ({
            let after = with_channels(db, ts, channels, blockheight);
            exists|e: int|
                0 <= e < after.events.len() && notes_return(
                    #[trigger] after.events[e],
                    db.channels[i].channel_key,
                    channels[k],
                    ts,
                )
        }),
    decreases channels.len(),
{
    let front = channels.drop_last();
    let key = db.channels[i].channel_key;
    lemma_keys_grow(db, ts, channels, blockheight);
    let keys = keys_in(db, ts, channels, blockheight);
    let known = keys_in(db, ts, front, blockheight);
    let before = with_channels(db, ts, front, blockheight);
    let after = with_channels(db, ts, channels, blockheight);
    let state = identified(before, channels.last(), channels.len() - 1, blockheight);
    if k == channels.len() - 1 {
        lemma_unlisted_rows_stay(db, ts, front, blockheight, i);
        if known.contains(key) {
            let j = choose|j: int| 0 <= j < known.len() && known[j] == key;
            assert(keys[j] == known[j]);
        }
        assert(before.channels[i] == db.channels[i]);
        let event = reappearance((before.last_event_id + 1) as u64, ts, state);
        assert(after.events == before.events.push(event));
        assert(notes_return(after.events[after.events.len() - 1], key, channels[k], ts));
    } else {
        assert forall|j: int| 0 <= j < k implies #[trigger] known[j] != key by {
            assert(keys[j] == known[j]);
        }
        assert(keys[k] == known[k]);
        lemma_returns_are_noted(db, ts, front, blockheight, k, i);
        let e = choose|e: int|
            0 <= e < before.events.len() && notes_return(
                #[trigger] before.events[e],
                key,
                front[k],
                ts,
            );
        assert(after.events[e] == before.events[e]);
    }
}

/// A channel that was gone and that a snapshot lists is noted as back, with the state, the peer and the
/// ids that the snapshot lists.
pub proof fn law_a_return_shows_the_snapshot(
    db: DbView,
    ts: u64,
    channels: Seq<Json>,
    blockheight: Option<u64>,
    k: int,
    i: int,
)
    requires
        0 <= i < db.channels.len(),
        db.channels[i].disappeared_at is Some,
        0 <= k < channels.len(),
        keys_in(db, ts, channels, blockheight)[k] == db.channels[i].channel_key,
        forall|j: int|
            0 <= j < k ==> #[trigger] keys_in(db, ts, channels, blockheight)[j]
                != db.channels[i].channel_key,
    ensures
        ({
            let after = with_snapshot(db, ts, channels, blockheight);
            exists|e: int|
                0 <= e < after.events.len() && notes_return(
                    #[trigger] after.events[e],
                    db.channels[i].channel_key,
                    channels[k],
                    ts,
                )
        }),
{
    lemma_returns_are_noted(db, ts, channels, blockheight, k, i);
    let seen = with_channels(db, ts, channels, blockheight);
    let keys = keys_in(db, ts, channels, blockheight);
    let after = with_snapshot(db, ts, channels, blockheight);
    let noted = with_missing(seen, keys, ts);
    let key = db.channels[i].channel_key;
    let e = choose|e: int|
        0 <= e < seen.events.len() && notes_return(#[trigger] seen.events[e], key, channels[k], ts);
    lemma_departures_add(seen, seen.channels, keys, ts);
    let event = seen.events[e];
    assert(noted.events.take(seen.events.len() as int)[e] == event);
    assert(noted.events[e] == event);
    lemma_event_is_kept(noted, ts, event, e);
    let at = choose|at: int| 0 <= at < after.events.len() && after.events[at] == event;
    assert(notes_return(after.events[at], key, channels[k], ts));
}

/// A snapshot is on record as a run that succeeded, with the number of channels that it listed. It is
/// the only run of its time.
pub proof fn law_a_snapshot_is_on_record(
    db: DbView,
    ts: u64,
    channels: Seq<Json>,
    blockheight: Option<u64>,
)
    requires
        channels.len() <= u64::MAX,
    ensures
        ({
            let runs = with_snapshot(db, ts, channels, blockheight).runs;
            &&& exists|i: int| 0 <= i < runs.len() && (#[trigger] runs[i]).ts == ts
            &&& forall|i: int|
                0 <= i < runs.len() && (#[trigger] runs[i]).ts == ts ==> {
                    &&& runs[i].success
                    &&& runs[i].channel_count == Some(channels.len() as u64)
                    &&& runs[i].error is None
                }
        }),
{
    let seen = with_channels(db, ts, channels, blockheight);
    let keys = keys_in(db, ts, channels, blockheight);
    let noted = with_missing(seen, keys, ts);
    let run = RunRow::<Seq<char>> {
        ts,
        success: true,
        channel_count: Some(channels.len() as u64),
        error: None,
    };
    let all = with_run(noted.runs, run);
    let cutoff = cutoff_at(db_of(noted, all), ts);
    let runs = with_snapshot(db, ts, channels, blockheight).runs;
    assert(runs == all.filter(kept_runs(cutoff)));
    assert(exists|i: int| 0 <= i < all.len() && #[trigger] all[i] == run) by {
        if exists|i: int| 0 <= i < noted.runs.len() && (#[trigger] noted.runs[i]).ts == ts {
            let i = choose|i: int|
                0 <= i < noted.runs.len() && (#[trigger] noted.runs[i]).ts == ts;
            assert(all[i] == run);
        } else {
            assert(all[all.len() - 1] == run);
        }
    }
    assert(all.contains(run));
    lemma_filter_contains(all, kept_runs(cutoff));
    assert(all.filter(kept_runs(cutoff)).contains(run));
    let at = choose|at: int| 0 <= at < runs.len() && runs[at] == run;
    assert(runs[at].ts == ts);
    assert forall|i: int| 0 <= i < runs.len() && (#[trigger] runs[i]).ts == ts implies {
        &&& runs[i].success
        &&& runs[i].channel_count == Some(channels.len() as u64)
        &&& runs[i].error is None
    } by {
        lemma_filter_contains(all, kept_runs(cutoff));
        assert(runs.contains(runs[i]));
        let j = choose|j: int| 0 <= j < all.len() && all[j] == runs[i];
        assert(all[j].ts == ts);
    }
}

spec fn db_of(db: DbView, runs: Seq<RunRow<Seq<char>>>) -> DbView {
    DbView { runs, ..db }
}

proof fn lemma_same_filter<T>(items: Seq<T>, a: spec_fn(T) -> bool, b: spec_fn(T) -> bool)
    requires
        forall|item: T| #[trigger] a(item) == b(item),
    ensures
        items.filter(a) == items.filter(b),
{
    assert(a =~= b);
}

/// What is dropped at a time is what is then older than the retention time, and nothing else: events,
/// forwards, runs and probes. The order of what stays is kept.
pub proof fn law_what_is_older_than_the_retention_is_dropped(db: DbView, ts: u64)
    ensures
        pruned(db, ts).events == db.events.filter(
            |row: EventRow<Seq<char>>| row.ts + db.retention_seconds >= ts,
        ),
        pruned(db, ts).buckets == db.buckets.filter(
            |row: BucketRow<Seq<char>>| row.bucket_start + db.retention_seconds >= ts,
        ),
        pruned(db, ts).runs == db.runs.filter(
            |row: RunRow<Seq<char>>| row.ts + db.retention_seconds >= ts,
        ),
        pruned(db, ts).probes == db.probes.filter(
            |row: ProbeRow<Seq<char>>| row.ts + db.retention_seconds >= ts,
        ),
        pruned(db, ts).channels == db.channels,
        pruned(db, ts).aliases == db.aliases,
{
    let cutoff = cutoff_at(db, ts);
    lemma_same_filter(
        db.events,
        kept_events(cutoff),
        |row: EventRow<Seq<char>>| row.ts + db.retention_seconds >= ts,
    );
    lemma_same_filter(
        db.buckets,
        kept_buckets(cutoff),
        |row: BucketRow<Seq<char>>| row.bucket_start + db.retention_seconds >= ts,
    );
    lemma_same_filter(
        db.runs,
        kept_runs(cutoff),
        |row: RunRow<Seq<char>>| row.ts + db.retention_seconds >= ts,
    );
    lemma_same_filter(
        db.probes,
        kept_probes(cutoff),
        |row: ProbeRow<Seq<char>>| row.ts + db.retention_seconds >= ts,
    );
}

/// A state of a channel stays if it is not older than the retention time, or if no state of the channel
/// that was recorded after it is older too.
pub proof fn law_the_last_old_state_is_not_dropped(db: DbView, ts: u64, row: SampleRowView)
    requires
        db.samples.contains(row),
    ensures
        row.ts + db.retention_seconds >= ts ==> pruned(db, ts).samples.contains(row),
        row.ts + db.retention_seconds < ts ==> (pruned(db, ts).samples.contains(row) <==> forall|i: int|
            0 <= i < db.samples.len() && (#[trigger] db.samples[i]).id > row.id
                && db.samples[i].sample.channel_key == row.sample.channel_key ==> db.samples[i].ts
                + db.retention_seconds >= ts),
{
    let cutoff = cutoff_at(db, ts);
    lemma_filter_contains(db.samples, kept_samples(db.samples, cutoff));
    assert(kept_samples(db.samples, cutoff)(row) == is_kept(db.samples, row, cutoff));
}

/// The hops of a probe are dropped with it, and no others.
pub proof fn law_hops_are_dropped_with_their_probes(db: DbView, ts: u64, hop: HopRow<Seq<char>>)
    requires
        db.hops.contains(hop),
    ensures
        pruned(db, ts).hops.contains(hop) <==> forall|i: int|
            0 <= i < db.probes.len() && (#[trigger] db.probes[i]).id == hop.probe_id
                ==> db.probes[i].ts + db.retention_seconds >= ts,
{
    let cutoff = cutoff_at(db, ts);
    lemma_filter_contains(db.hops, kept_hops(db.probes, cutoff));
    assert(kept_hops(db.probes, cutoff)(hop) == !is_orphaned(db.probes, hop, cutoff));
}

/// A state is recorded if and only if the channel has no recorded state, or the latest one differs from
/// it or is an hour old. It is recorded as it is, with its time, under the next id. Nothing that was
/// recorded before changes.
pub proof fn law_states_are_recorded_when_due(db: DbView, ts: u64, sample: SampleView)
    ensures
        ({
            let after = with_sample(db, ts, sample).samples;
            let known = exists|i: int|
                0 <= i < db.samples.len() && (#[trigger] db.samples[i]).sample.channel_key
                    == sample.channel_key;
            &&& after == db.samples || after == db.samples.push(
                SampleRowView { id: (db.last_sample_id + 1) as u64, ts, sample },
            )
            &&& !known ==> after.len() == db.samples.len() + 1
            &&& forall|i: int|
                0 <= i < db.samples.len() && (#[trigger] db.samples[i]).sample.channel_key
                    == sample.channel_key && is_newest(db.samples, i) ==> (after.len()
                    == db.samples.len() + 1 <==> (db.samples[i].sample != sample || ts
                    >= db.samples[i].ts + 3_600))
        }),
{
    lemma_latest_row(db.samples, sample.channel_key);
    assert forall|i: int|
        0 <= i < db.samples.len() && (#[trigger] db.samples[i]).sample.channel_key
            == sample.channel_key && is_newest(db.samples, i) implies latest_row(
        db.samples,
        sample.channel_key,
    ) matches Some(row) && row.ts == db.samples[i].ts && row.sample == db.samples[i].sample by {
        assert(is_of_channel(db.samples[i], sample.channel_key));
        let row = latest_row(db.samples, sample.channel_key)->0;
        let k = choose|k: int| 0 <= k < db.samples.len() && db.samples[k] == row;
        assert(db.samples[k].sample.channel_key == sample.channel_key);
        assert(!is_later(db.samples[i], row));
        if k != i {
            assert(is_later(db.samples[i], db.samples[k]));
        }
    }
}

/// Whether all other recorded states of a channel are of an earlier time, or of the same time and a
/// smaller id.
pub open spec fn is_newest(samples: Seq<SampleRowView>, i: int) -> bool {
    forall|j: int|
        0 <= j < samples.len() && j != i && (#[trigger] samples[j]).sample.channel_key
            == samples[i].sample.channel_key ==> samples[j].ts < samples[i].ts || (samples[j].ts
            == samples[i].ts && samples[j].id < samples[i].id)
}

proof fn lemma_stays_on_record(
    aliases: Seq<AliasRow<Seq<char>>>,
    ts: u64,
    kind: Seq<char>,
    name: Seq<char>,
    key: Seq<char>,
)
    ensures
        is_on_record(with_alias_seen(aliases, ts, kind, name, key), kind, name),
        forall|k: Seq<char>, n: Seq<char>| #[trigger]
            is_on_record(aliases, k, n) ==> is_on_record(
                with_alias_seen(aliases, ts, kind, name, key),
                k,
                n,
            ),
{
    let after = with_alias_seen(aliases, ts, kind, name, key);
    law_names_are_seen(aliases, ts, kind, name, key);
    assert forall|k: Seq<char>, n: Seq<char>| #[trigger]
        is_on_record(aliases, k, n) implies is_on_record(after, k, n) by {
        let i = choose|i: int|
            0 <= i < aliases.len() && (#[trigger] aliases[i]).alias_type == k && aliases[i].alias
                == n;
        assert(after[i].alias_type == k && after[i].alias == n);
    }
    if exists|i: int|
        0 <= i < aliases.len() && (#[trigger] aliases[i]).alias_type == kind && aliases[i].alias
            == name {
        assert(is_on_record(aliases, kind, name));
    } else {
        assert(after[aliases.len() as int].alias == name);
    }
}

proof fn lemma_names_go_on_record(
    aliases: Seq<AliasRow<Seq<char>>>,
    ts: u64,
    names: Seq<AliasView>,
    key: Seq<char>,
)
    ensures
        ({
            let after = with_names_seen(aliases, ts, names, key);
            &&& forall|k: Seq<char>, n: Seq<char>| #[trigger]
                is_on_record(aliases, k, n) ==> is_on_record(after, k, n)
            &&& forall|i: int|
                0 <= i < names.len() ==> is_on_record(
                    after,
                    (#[trigger] names[i]).kind,
                    names[i].value,
                )
        }),
    decreases names.len(),
{
    if names.len() > 0 {
        let front = names.drop_last();
        lemma_names_go_on_record(aliases, ts, front, key);
        let before = with_names_seen(aliases, ts, front, key);
        let after = with_names_seen(aliases, ts, names, key);
        lemma_stays_on_record(before, ts, names.last().kind, names.last().value, key);
        assert forall|i: int| 0 <= i < names.len() implies is_on_record(
            after,
            (#[trigger] names[i]).kind,
            names[i].value,
        ) by {
            if i < front.len() {
                assert(front[i] == names[i]);
                assert(is_on_record(before, front[i].kind, front[i].value));
            }
        }
    }
}

proof fn lemma_channels_go_on_record(
    db: DbView,
    ts: u64,
    channels: Seq<Json>,
    blockheight: Option<u64>,
)
    ensures
        ({
            let after = with_channels(db, ts, channels, blockheight).aliases;
            let keys = keys_in(db, ts, channels, blockheight);
            &&& keys.len() == channels.len()
            &&& forall|k: Seq<char>, n: Seq<char>| #[trigger]
                is_on_record(db.aliases, k, n) ==> is_on_record(after, k, n)
            &&& forall|i: int|
                0 <= i < channels.len() ==> {
                    &&& is_on_record(after, "identity"@, #[trigger] keys[i])
                    &&& forall|j: int|
                        0 <= j < aliases_of(channels[i]).len() ==> is_on_record(
                            after,
                            (#[trigger] aliases_of(channels[i])[j]).kind,
                            aliases_of(channels[i])[j].value,
                        )
                }
        }),
    decreases channels.len(),
{
    if channels.len() > 0 {
        let front = channels.drop_last();
        lemma_channels_go_on_record(db, ts, front, blockheight);
        lemma_keys_grow(db, ts, channels, blockheight);
        let before = with_channels(db, ts, front, blockheight);
        let after = with_channels(db, ts, channels, blockheight).aliases;
        let keys = keys_in(db, ts, channels, blockheight);
        let known = keys_in(db, ts, front, blockheight);
        let last = channels.len() - 1;
        let key = keys[last];
        let names = aliases_of(channels.last());
        let own = with_alias_seen(before.aliases, ts, "identity"@, key, key);
        lemma_stays_on_record(before.aliases, ts, "identity"@, key, key);
        lemma_names_go_on_record(own, ts, names, key);
        assert(after == with_names_seen(own, ts, names, key));
        assert forall|i: int| 0 <= i < channels.len() implies {
            &&& is_on_record(after, "identity"@, #[trigger] keys[i])
            &&& forall|j: int|
                0 <= j < aliases_of(channels[i]).len() ==> is_on_record(
                    after,
                    (#[trigger] aliases_of(channels[i])[j]).kind,
                    aliases_of(channels[i])[j].value,
                )
        } by {
            if i < last {
                assert(front[i] == channels[i]);
                assert(keys[i] == known[i]);
                assert(is_on_record(before.aliases, "identity"@, known[i]));
                assert forall|j: int| 0 <= j < aliases_of(channels[i]).len() implies is_on_record(
                    after,
                    (#[trigger] aliases_of(channels[i])[j]).kind,
                    aliases_of(channels[i])[j].value,
                ) by {
                    assert(is_on_record(
                        before.aliases,
                        aliases_of(front[i])[j].kind,
                        aliases_of(front[i])[j].value,
                    ));
                }
            } else {
                assert(channels[i] == channels.last());
            }
        }
    }
}

/// After a snapshot, the key and all names of every channel that it lists are on record, and so is every
/// name that was.
pub proof fn law_listed_channels_are_on_record(
    db: DbView,
    ts: u64,
    channels: Seq<Json>,
    blockheight: Option<u64>,
    i: int,
)
    requires
        0 <= i < channels.len(),
    ensures
        ({
            let after = with_snapshot(db, ts, channels, blockheight).aliases;
            &&& is_on_record(after, "identity"@, keys_in(db, ts, channels, blockheight)[i])
            &&& forall|j: int|
                0 <= j < aliases_of(channels[i]).len() ==> is_on_record(
                    after,
                    (#[trigger] aliases_of(channels[i])[j]).kind,
                    aliases_of(channels[i])[j].value,
                )
            &&& forall|k: Seq<char>, n: Seq<char>| #[trigger]
                is_on_record(db.aliases, k, n) ==> is_on_record(after, k, n)
        }),
{
    lemma_channels_go_on_record(db, ts, channels, blockheight);
    let seen = with_channels(db, ts, channels, blockheight);
    let keys = keys_in(db, ts, channels, blockheight);
    lemma_departures_keep_names(seen, seen.channels, keys, ts);
}

proof fn lemma_departures_keep_names(
    db: DbView,
    channels: Seq<ChannelRow<Seq<char>>>,
    keys: Seq<Seq<char>>,
    ts: u64,
)
    ensures
        with_departures(db, channels, keys, ts).aliases == db.aliases,
    decreases channels.len(),
{
    if channels.len() > 0 {
        lemma_departures_keep_names(db, channels.drop_last(), keys, ts);
    }
}

} // verus!
