//! What the recorded history says of the channels: their latest states, their identities, and when
//! they were gone.

use crate::integrity::{
    has_probe, lemma_channels_are_sound, lemma_departures_are_sound, lemma_kept_places,
    lemma_missing_is_sound, lemma_run_is_sound, samples_sound, sound,
};
use crate::json::Json;
use crate::model::SampleView;
use crate::recording::{
    cutoff_at, departure, has_channel, has_disappeared, has_ids_for, identified, is_kept, is_later,
    is_missing, is_of_channel, is_orphaned, is_recorded, kept_buckets, kept_events, kept_hops,
    kept_probes, kept_runs, kept_samples, key_in, keys_in, latest_row, pruned, reappearance,
    with_channel_seen, with_channels, with_departures, with_missing, with_run, with_sample,
    with_snapshot, CHECKPOINT_SECONDS,
};
use crate::store::{ChannelRow, DbView, RunRow, SampleRowView, MAX_STORED};
use vstd::prelude::*;

verus! {

/// Whether the states of a channel were recorded one after the other, none later than that time.
pub open spec fn in_time(rows: Seq<SampleRowView>, key: Seq<char>, ts: u64) -> bool {
    &&& forall|i: int, j: int|
        0 <= i < j < rows.len() && is_of_channel(#[trigger] rows[i], key) && is_of_channel(
            #[trigger] rows[j],
            key,
        ) ==> rows[i].ts <= rows[j].ts
    &&& forall|i: int|
        0 <= i < rows.len() && is_of_channel(#[trigger] rows[i], key) ==> rows[i].ts <= ts
}

/// The latest row of a channel is one of its rows, and none of its rows is later.
pub proof fn lemma_latest_row(samples: Seq<SampleRowView>, key: Seq<char>)
    ensures
        match latest_row(samples, key) {
            Some(row) => samples.contains(row) && is_of_channel(row, key) && forall|i: int|
                0 <= i < samples.len() && is_of_channel(#[trigger] samples[i], key) ==> !is_later(
                    samples[i],
                    row,
                ),
            None => forall|i: int|
                0 <= i < samples.len() ==> !is_of_channel(#[trigger] samples[i], key),
        },
    decreases samples.len(),
{
    if samples.len() > 0 {
        let front = samples.drop_last();
        lemma_latest_row(front, key);
        assert forall|i: int| 0 <= i < front.len() implies front[i] == #[trigger] samples[i] by {}
        assert(samples.contains(samples.last()));
        if let Some(row) = latest_row(front, key) {
            let k = choose|k: int| 0 <= k < front.len() && front[k] == row;
            assert(samples[k] == row);
        }
    }
}

/// A channel that did not change is recorded anew only after an hour.
pub proof fn law_unchanged_channels_are_recorded_hourly(
    db: DbView,
    ts: u64,
    sample: SampleView,
    previous: SampleRowView,
)
    requires
        latest_row(db.samples, sample.channel_key) == Some(previous),
        previous.sample == sample,
    ensures
        ts < previous.ts + CHECKPOINT_SECONDS ==> with_sample(db, ts, sample).samples == db.samples,
        ts >= previous.ts + CHECKPOINT_SECONDS ==> with_sample(db, ts, sample).samples.len()
            == db.samples.len() + 1,
{
}

/// A channel that changed is recorded at once.
pub proof fn law_changed_channels_are_recorded(
    db: DbView,
    ts: u64,
    sample: SampleView,
    previous: SampleRowView,
)
    requires
        latest_row(db.samples, sample.channel_key) == Some(previous),
        previous.sample != sample,
    ensures
        with_sample(db, ts, sample).samples.len() == db.samples.len() + 1,
        with_sample(db, ts, sample).samples.last().sample == sample,
        with_sample(db, ts, sample).samples.last().ts == ts,
{
}

/// The latest recorded state of a channel is the one that was seen last, and was recorded within the
/// hour.
pub proof fn law_the_latest_state_is_the_one_seen_last(db: DbView, ts: u64, sample: SampleView)
    requires
        samples_sound(db.samples, db.last_sample_id),
        db.last_sample_id < MAX_STORED,
        in_time(db.samples, sample.channel_key, ts),
    ensures
        latest_row(with_sample(db, ts, sample).samples, sample.channel_key) matches Some(row)
            && row.sample == sample && ts - row.ts < CHECKPOINT_SECONDS,
        in_time(with_sample(db, ts, sample).samples, sample.channel_key, ts),
        forall|key: Seq<char>|
            key != sample.channel_key ==> #[trigger] latest_row(
                with_sample(db, ts, sample).samples,
                key,
            ) == latest_row(db.samples, key),
{
    let after = with_sample(db, ts, sample).samples;
    lemma_latest_row(db.samples, sample.channel_key);
    if is_recorded(db.samples, ts, sample) {
        assert(after.drop_last() =~= db.samples);
        if let Some(previous) = latest_row(db.samples, sample.channel_key) {
            let k = choose|k: int| 0 <= k < db.samples.len() && db.samples[k] == previous;
            assert(is_later(after.last(), previous));
        }
    } else {
        assert(after == db.samples);
    }
}

/// A state that is seen of one channel leaves the states of another as they are.
proof fn lemma_others_stay(db: DbView, ts: u64, sample: SampleView, key: Seq<char>)
    requires
        key != sample.channel_key,
    ensures
        latest_row(with_sample(db, ts, sample).samples, key) == latest_row(db.samples, key),
        forall|at: u64|
            #[trigger] in_time(db.samples, key, at) ==> in_time(
                with_sample(db, ts, sample).samples,
                key,
                at,
            ),
{
    let after = with_sample(db, ts, sample).samples;
    if is_recorded(db.samples, ts, sample) {
        assert(after.drop_last() =~= db.samples);
    }
}

/// The state of the last channel of a snapshot that has that key.
pub open spec fn last_state(
    db: DbView,
    ts: u64,
    channels: Seq<Json>,
    blockheight: Option<u64>,
    key: Seq<char>,
) -> Option<SampleView>
    decreases channels.len(),
{
    if channels.len() == 0 {
        None
    } else {
        let before = with_channels(db, ts, channels.drop_last(), blockheight);
        let index = channels.len() - 1;
        if key_in(before, channels.last(), index, blockheight) == key {
            Some(identified(before, channels.last(), index, blockheight))
        } else {
            last_state(db, ts, channels.drop_last(), blockheight, key)
        }
    }
}

proof fn lemma_channels_are_the_latest(
    db: DbView,
    ts: u64,
    channels: Seq<Json>,
    blockheight: Option<u64>,
    key: Seq<char>,
)
    requires
        sound(db),
        has_ids_for(db, channels.len()),
        in_time(db.samples, key, ts),
    ensures
        ({
            let after = with_channels(db, ts, channels, blockheight);
            &&& in_time(after.samples, key, ts)
            &&& match last_state(db, ts, channels, blockheight, key) {
                Some(state) => latest_row(after.samples, key) matches Some(row) && row.sample
                    == state && ts - row.ts < CHECKPOINT_SECONDS,
                None => latest_row(after.samples, key) == latest_row(db.samples, key),
            }
        }),
    decreases channels.len(),
{
    if channels.len() > 0 {
        let front = channels.drop_last();
        lemma_channels_are_the_latest(db, ts, front, blockheight, key);
        lemma_channels_are_sound(db, ts, front, blockheight);
        let before = with_channels(db, ts, front, blockheight);
        let after = with_channels(db, ts, channels, blockheight);
        let state = identified(before, channels.last(), channels.len() - 1, blockheight);
        assert(after.samples == with_sample(before, ts, state).samples);
        if state.channel_key == key {
            law_the_latest_state_is_the_one_seen_last(
                DbView { aliases: after.aliases, ..before },
                ts,
                state,
            );
        } else {
            lemma_others_stay(before, ts, state, key);
        }
    }
}

/// Dropping what is old keeps the latest state of every channel.
pub proof fn law_pruning_keeps_the_latest_states(db: DbView, ts: u64, key: Seq<char>)
    requires
        sound(db),
        in_time(db.samples, key, ts),
    ensures
        latest_row(pruned(db, ts).samples, key) == latest_row(db.samples, key),
        in_time(pruned(db, ts).samples, key, ts),
{
    let cutoff = cutoff_at(db, ts);
    let kept = pruned(db, ts).samples;
    let places = lemma_kept_places(db.samples, kept_samples(db.samples, cutoff));
    lemma_latest_row(db.samples, key);
    lemma_latest_row(kept, key);
    match latest_row(db.samples, key) {
        Some(row) => {
            let k = choose|k: int| 0 <= k < db.samples.len() && db.samples[k] == row;
            assert(is_kept(db.samples, row, cutoff)) by {
                assert forall|i: int|
                    0 <= i < db.samples.len() && (#[trigger] db.samples[i]).ts < cutoff
                        && db.samples[i].id > row.id implies db.samples[i].sample.channel_key
                    != row.sample.channel_key by {
                    assert(i > k);
                    if is_of_channel(db.samples[i], key) {
                        assert(is_later(db.samples[i], row));
                    }
                }
            }
            assert(kept_samples(db.samples, cutoff)(db.samples[k]));
            let at = choose|at: int| 0 <= at < kept.len() && kept[at] == row;
            assert(is_of_channel(kept[at], key));
            let found = latest_row(kept, key)->0;
            let other = choose|i: int| 0 <= i < kept.len() && kept[i] == found;
            assert(db.samples[places[other]] == found);
            assert(!is_later(found, row));
            assert(!is_later(row, found));
            assert(places[other] == k);
        },
        None => {
            if let Some(found) = latest_row(kept, key) {
                let other = choose|i: int| 0 <= i < kept.len() && kept[i] == found;
                assert(db.samples[places[other]] == found);
            }
        },
    }
}

/// After a snapshot, what was recorded last of a channel is its state in the snapshot, recorded within
/// the hour. What was recorded last of a channel that the snapshot does not list stays.
pub proof fn law_a_snapshot_is_read_back(
    db: DbView,
    ts: u64,
    channels: Seq<Json>,
    blockheight: Option<u64>,
    key: Seq<char>,
)
    requires
        sound(db),
        has_ids_for(db, channels.len()),
        in_time(db.samples, key, ts),
    ensures
        ({
            let after = with_snapshot(db, ts, channels, blockheight);
            &&& in_time(after.samples, key, ts)
            &&& match last_state(db, ts, channels, blockheight, key) {
                Some(state) => latest_row(after.samples, key) matches Some(row) && row.sample
                    == state && ts - row.ts < CHECKPOINT_SECONDS,
                None => latest_row(after.samples, key) == latest_row(db.samples, key),
            }
        }),
{
    lemma_channels_are_the_latest(db, ts, channels, blockheight, key);
    lemma_channels_are_sound(db, ts, channels, blockheight);
    let seen = with_channels(db, ts, channels, blockheight);
    let keys = keys_in(db, ts, channels, blockheight);
    let noted = with_missing(seen, keys, ts);
    lemma_departures_are_sound(seen, seen.channels, keys, ts);
    lemma_missing_is_sound(seen, keys, ts);
    let run = RunRow {
        ts,
        success: true,
        channel_count: Some(channels.len() as u64),
        error: None,
    };
    lemma_run_is_sound(noted.runs, run);
    law_pruning_keeps_the_latest_states(
        DbView { runs: with_run(noted.runs, run), ..noted },
        ts,
        key,
    );
}

pub proof fn lemma_seen_channels_are_there(
    db: DbView,
    ts: u64,
    channels: Seq<Json>,
    blockheight: Option<u64>,
)
    ensures
        ({
            let after = with_channels(db, ts, channels, blockheight);
            let keys = keys_in(db, ts, channels, blockheight);
            &&& keys.len() == channels.len()
            &&& forall|i: int|
                0 <= i < after.channels.len() && keys.contains(
                    (#[trigger] after.channels[i]).channel_key,
                ) ==> after.channels[i].disappeared_at is None
            &&& forall|k: int|
                0 <= k < keys.len() ==> has_channel(after.channels, #[trigger] keys[k])
        }),
    decreases channels.len(),
{
    if channels.len() > 0 {
        let front = channels.drop_last();
        lemma_seen_channels_are_there(db, ts, front, blockheight);
        let before = with_channels(db, ts, front, blockheight);
        let known = keys_in(db, ts, front, blockheight);
        let after = with_channels(db, ts, channels, blockheight);
        let keys = keys_in(db, ts, channels, blockheight);
        let state = identified(before, channels.last(), channels.len() - 1, blockheight);
        assert(keys == known.push(state.channel_key));
        assert(after.channels == with_channel_seen(before.channels, ts, state));
        assert forall|i: int|
            0 <= i < after.channels.len() && keys.contains(
                (#[trigger] after.channels[i]).channel_key,
            ) implies after.channels[i].disappeared_at is None by {
            if after.channels[i].channel_key != state.channel_key {
                let at = choose|at: int|
                    0 <= at < keys.len() && keys[at] == after.channels[i].channel_key;
                assert(known[at] == keys[at]);
                assert(after.channels[i] == before.channels[i]);
            }
        }
        assert forall|k: int| 0 <= k < keys.len() implies has_channel(
            after.channels,
            #[trigger] keys[k],
        ) by {
            if k < known.len() {
                assert(has_channel(before.channels, known[k]));
                let at = choose|at: int|
                    0 <= at < before.channels.len() && (#[trigger] before.channels[at]).channel_key
                        == known[k];
                assert(after.channels[at].channel_key == known[k]);
            } else if has_channel(before.channels, state.channel_key) {
                let at = choose|at: int|
                    0 <= at < before.channels.len() && (#[trigger] before.channels[at]).channel_key
                        == state.channel_key;
                assert(after.channels[at].channel_key == state.channel_key);
            } else {
                assert(after.channels.last().channel_key == state.channel_key);
            }
        }
    }
}

/// After a snapshot, every channel that it lists is known, and a known channel is marked as gone if
/// and only if the snapshot does not list it.
pub proof fn law_a_snapshot_decides_which_channels_are_gone(
    db: DbView,
    ts: u64,
    channels: Seq<Json>,
    blockheight: Option<u64>,
)
    ensures
        ({
            let after = with_snapshot(db, ts, channels, blockheight);
            let keys = keys_in(db, ts, channels, blockheight);
            &&& forall|i: int|
                0 <= i < after.channels.len() ==> ((
                #[trigger] after.channels[i]).disappeared_at is Some <==> !keys.contains(
                    after.channels[i].channel_key,
                ))
            &&& forall|k: int|
                0 <= k < keys.len() ==> has_channel(after.channels, #[trigger] keys[k])
        }),
{
    lemma_seen_channels_are_there(db, ts, channels, blockheight);
    let seen = with_channels(db, ts, channels, blockheight);
    let keys = keys_in(db, ts, channels, blockheight);
    let after = with_snapshot(db, ts, channels, blockheight);
    assert(after.channels == with_missing(seen, keys, ts).channels);
    assert forall|k: int| 0 <= k < keys.len() implies has_channel(
        after.channels,
        #[trigger] keys[k],
    ) by {
        let at = choose|at: int|
            0 <= at < seen.channels.len() && (#[trigger] seen.channels[at]).channel_key == keys[k];
        assert(after.channels[at].channel_key == keys[k]);
    }
}

pub proof fn lemma_departures_are_noted(
    db: DbView,
    channels: Seq<ChannelRow<Seq<char>>>,
    keys: Seq<Seq<char>>,
    ts: u64,
    at: int,
)
    requires
        0 <= at < channels.len(),
        is_missing(channels[at], keys),
    ensures
        exists|i: int|
            db.events.len() <= i < with_departures(db, channels, keys, ts).events.len() && #[trigger]
                with_departures(db, channels, keys, ts).events[i] == departure(
                with_departures(db, channels, keys, ts).events[i].id,
                ts,
                channels[at],
            ),
    decreases channels.len(),
{
    let front = channels.drop_last();
    let before = with_departures(db, front, keys, ts);
    let after = with_departures(db, channels, keys, ts);
    lemma_departures_add(db, front, keys, ts);
    if at == channels.len() - 1 {
        let row = after.events.last();
        assert(after.events[after.events.len() - 1] == departure(row.id, ts, channels[at]));
    } else {
        lemma_departures_are_noted(db, front, keys, ts, at);
        let i = choose|i: int|
            db.events.len() <= i < before.events.len() && #[trigger] before.events[i] == departure(
                before.events[i].id,
                ts,
                front[at],
            );
        assert(after.events[i] == before.events[i]);
    }
}

pub proof fn lemma_departures_add(
    db: DbView,
    channels: Seq<ChannelRow<Seq<char>>>,
    keys: Seq<Seq<char>>,
    ts: u64,
)
    ensures
        with_departures(db, channels, keys, ts).events.len() >= db.events.len(),
        with_departures(db, channels, keys, ts).events.take(db.events.len() as int) == db.events,
    decreases channels.len(),
{
    if channels.len() > 0 {
        lemma_departures_add(db, channels.drop_last(), keys, ts);
        let before = with_departures(db, channels.drop_last(), keys, ts);
        let after = with_departures(db, channels, keys, ts);
        assert(after.events.take(db.events.len() as int) =~= before.events.take(
            db.events.len() as int,
        ));
    } else {
        assert(db.events.take(db.events.len() as int) =~= db.events);
    }
}

/// A channel that goes missing is noted, with the state that it had last.
pub proof fn law_a_departure_is_noted(db: DbView, keys: Seq<Seq<char>>, ts: u64, at: int)
    requires
        0 <= at < db.channels.len(),
        db.channels[at].disappeared_at is None,
        !keys.contains(db.channels[at].channel_key),
    ensures
        with_missing(db, keys, ts).channels[at].disappeared_at == Some(ts),
        exists|i: int|
            db.events.len() <= i < with_missing(db, keys, ts).events.len() && #[trigger] with_missing(
                db,
                keys,
                ts,
            ).events[i] == departure(
                with_missing(db, keys, ts).events[i].id,
                ts,
                db.channels[at],
            ),
{
    lemma_departures_are_noted(db, db.channels, keys, ts, at);
    let before = with_departures(db, db.channels, keys, ts);
    let i = choose|i: int|
        db.events.len() <= i < before.events.len() && #[trigger] before.events[i] == departure(
            before.events[i].id,
            ts,
            db.channels[at],
        );
    assert(with_missing(db, keys, ts).events[i] == before.events[i]);
}

proof fn lemma_no_departures(
    db: DbView,
    channels: Seq<ChannelRow<Seq<char>>>,
    keys: Seq<Seq<char>>,
    ts: u64,
)
    requires
        forall|i: int| 0 <= i < channels.len() ==> !is_missing(#[trigger] channels[i], keys),
    ensures
        with_departures(db, channels, keys, ts) == db,
    decreases channels.len(),
{
    if channels.len() > 0 {
        lemma_no_departures(db, channels.drop_last(), keys, ts);
        assert(channels.last() == channels[channels.len() - 1]);
    }
}

/// A channel that stays missing is noted once.
pub proof fn law_an_absence_is_noted_once(db: DbView, keys: Seq<Seq<char>>, ts: u64, later: u64)
    ensures
        with_missing(with_missing(db, keys, ts), keys, later) == with_missing(db, keys, ts),
{
    let once = with_missing(db, keys, ts);
    lemma_no_departures(once, once.channels, keys, later);
    assert(with_missing(once, keys, later).channels =~= once.channels);
}

/// A channel that is back is noted, and is marked as gone no more.
pub proof fn law_a_return_is_noted(db: DbView, ts: u64, sample: SampleView)
    requires
        has_disappeared(db.channels, sample.channel_key),
    ensures
        with_sample(db, ts, sample).events == db.events.push(
            reappearance((db.last_event_id + 1) as u64, ts, sample),
        ),
        !has_disappeared(with_sample(db, ts, sample).channels, sample.channel_key),
{
}

/// A channel that never went missing comes back without a note.
pub proof fn law_a_presence_is_not_noted(db: DbView, ts: u64, sample: SampleView)
    requires
        !has_disappeared(db.channels, sample.channel_key),
    ensures
        with_sample(db, ts, sample).events == db.events,
{
}

/// Dropping what is old keeps everything that is as new as the retention time asks for, and the hops
/// of the probes that stay.
pub proof fn law_pruning_keeps_what_is_new(db: DbView, ts: u64)
    requires
        sound(db),
    ensures
        ({
            let cutoff = cutoff_at(db, ts);
            let after = pruned(db, ts);
            &&& forall|i: int|
                0 <= i < db.samples.len() && (#[trigger] db.samples[i]).ts >= cutoff
                    ==> after.samples.contains(db.samples[i])
            &&& forall|i: int|
                0 <= i < db.events.len() && (#[trigger] db.events[i]).ts >= cutoff
                    ==> after.events.contains(db.events[i])
            &&& forall|i: int|
                0 <= i < db.buckets.len() && (#[trigger] db.buckets[i]).bucket_start >= cutoff
                    ==> after.buckets.contains(db.buckets[i])
            &&& forall|i: int|
                0 <= i < db.runs.len() && (#[trigger] db.runs[i]).ts >= cutoff
                    ==> after.runs.contains(db.runs[i])
            &&& forall|i: int|
                0 <= i < db.probes.len() && (#[trigger] db.probes[i]).ts >= cutoff
                    ==> after.probes.contains(db.probes[i])
            &&& forall|i: int|
                0 <= i < db.hops.len() && has_probe(after.probes, (#[trigger] db.hops[i]).probe_id)
                    ==> after.hops.contains(db.hops[i])
            &&& after.channels == db.channels
            &&& after.aliases == db.aliases
        }),
{
    let cutoff = cutoff_at(db, ts);
    let after = pruned(db, ts);
    let samples = lemma_kept_places(db.samples, kept_samples(db.samples, cutoff));
    assert forall|i: int| 0 <= i < db.samples.len() && (#[trigger] db.samples[i]).ts >= cutoff implies
        after.samples.contains(db.samples[i]) by {
        assert(kept_samples(db.samples, cutoff)(db.samples[i]));
    }
    let events = lemma_kept_places(db.events, kept_events(cutoff));
    assert forall|i: int| 0 <= i < db.events.len() && (#[trigger] db.events[i]).ts >= cutoff implies
        after.events.contains(db.events[i]) by {
        assert(kept_events(cutoff)(db.events[i]));
    }
    let buckets = lemma_kept_places(db.buckets, kept_buckets(cutoff));
    assert forall|i: int|
        0 <= i < db.buckets.len() && (#[trigger] db.buckets[i]).bucket_start >= cutoff implies
        after.buckets.contains(db.buckets[i]) by {
        assert(kept_buckets(cutoff)(db.buckets[i]));
    }
    let runs = lemma_kept_places(db.runs, kept_runs(cutoff));
    assert forall|i: int| 0 <= i < db.runs.len() && (#[trigger] db.runs[i]).ts >= cutoff implies
        after.runs.contains(db.runs[i]) by {
        assert(kept_runs(cutoff)(db.runs[i]));
    }
    let probes = lemma_kept_places(db.probes, kept_probes(cutoff));
    assert forall|i: int| 0 <= i < db.probes.len() && (#[trigger] db.probes[i]).ts >= cutoff implies
        after.probes.contains(db.probes[i]) by {
        assert(kept_probes(cutoff)(db.probes[i]));
    }
    let hops = lemma_kept_places(db.hops, kept_hops(db.probes, cutoff));
    assert forall|i: int|
        0 <= i < db.hops.len() && has_probe(after.probes, (#[trigger] db.hops[i]).probe_id) implies
        after.hops.contains(db.hops[i]) by {
        let hop = db.hops[i];
        let at = choose|at: int|
            0 <= at < after.probes.len() && (#[trigger] after.probes[at]).id == hop.probe_id;
        assert(db.probes[probes[at]] == after.probes[at]);
        assert(!is_orphaned(db.probes, hop, cutoff));
        assert(kept_hops(db.probes, cutoff)(hop));
    }
}

/// Nothing that is too old stays, but for the last old state of every channel.
pub proof fn law_pruning_drops_what_is_old(db: DbView, ts: u64)
    requires
        sound(db),
    ensures
        ({
            let cutoff = cutoff_at(db, ts);
            let after = pruned(db, ts);
            &&& forall|i: int, j: int|
                0 <= i < j < after.samples.len() && (#[trigger] after.samples[j]).ts < cutoff && (
                #[trigger] after.samples[i]).ts < cutoff ==> after.samples[i].sample.channel_key
                    != after.samples[j].sample.channel_key
            &&& forall|i: int|
                0 <= i < after.events.len() ==> (#[trigger] after.events[i]).ts >= cutoff
            &&& forall|i: int|
                0 <= i < after.buckets.len() ==> (#[trigger] after.buckets[i]).bucket_start
                    >= cutoff
            &&& forall|i: int| 0 <= i < after.runs.len() ==> (#[trigger] after.runs[i]).ts >= cutoff
            &&& forall|i: int|
                0 <= i < after.probes.len() ==> (#[trigger] after.probes[i]).ts >= cutoff
        }),
{
    let cutoff = cutoff_at(db, ts);
    let after = pruned(db, ts);
    let samples = lemma_kept_places(db.samples, kept_samples(db.samples, cutoff));
    assert forall|i: int, j: int|
        0 <= i < j < after.samples.len() && (#[trigger] after.samples[j]).ts < cutoff && (
        #[trigger] after.samples[i]).ts < cutoff implies after.samples[i].sample.channel_key
        != after.samples[j].sample.channel_key by {
        assert(db.samples[samples[i]] == after.samples[i]);
        assert(db.samples[samples[j]] == after.samples[j]);
        assert(is_kept(db.samples, after.samples[i], cutoff));
    }
    let events = lemma_kept_places(db.events, kept_events(cutoff));
    let buckets = lemma_kept_places(db.buckets, kept_buckets(cutoff));
    let runs = lemma_kept_places(db.runs, kept_runs(cutoff));
    let probes = lemma_kept_places(db.probes, kept_probes(cutoff));
}

} // verus!
