//! What holds of the tables of the history at all times.

use crate::activity::{
    event_key, hop_problem, hop_rows, observed_at, probe_outcome, route_of, route_problem,
    same_bucket, with_forward_row, with_name_seen, with_probe, with_state_change,
};
use crate::json::Json;
use crate::model::{aliases_of, AliasView, SampleView};
use crate::recording::{
    cutoff_at, has_channel, has_ids_for, identified, is_orphaned, kept_buckets, kept_events,
    kept_hops, kept_probes, kept_runs, kept_samples, key_in, keys_in, pruned, with_channels,
    with_departures, with_identity_seen, with_missing, with_names_seen, with_run, with_sample,
    with_snapshot,
};
use crate::store::{
    is_alias_row, with_alias_seen, AliasRow, BucketRow, ChannelRow, DbView, EventRow,
    HopRow, ProbeRow, RunRow, SampleRowView, MAX_STORED,
};
use crate::upkeep::{empty_history, migrated, with_old_name, with_old_names, NameKind};
use vstd::prelude::*;

verus! {

/// Every channel has one row.
pub open spec fn channels_sound(rows: Seq<ChannelRow<Seq<char>>>) -> bool {
    forall|i: int, j: int|
        0 <= i < j < rows.len() ==> (#[trigger] rows[i]).channel_key != (
        #[trigger] rows[j]).channel_key
}

/// The states have ascending ids, of which the last one handed out is the greatest.
pub open spec fn samples_sound(rows: Seq<SampleRowView>, last: u64) -> bool {
    &&& forall|i: int, j: int|
        0 <= i < j < rows.len() ==> (#[trigger] rows[i]).id < (#[trigger] rows[j]).id
    &&& forall|i: int| 0 <= i < rows.len() ==> 0 < (#[trigger] rows[i]).id <= last
    &&& last <= MAX_STORED
}

/// The events have ascending ids, of which the last one handed out is the greatest.
pub open spec fn events_sound(rows: Seq<EventRow<Seq<char>>>, last: u64) -> bool {
    &&& forall|i: int, j: int|
        0 <= i < j < rows.len() ==> (#[trigger] rows[i]).id < (#[trigger] rows[j]).id
    &&& forall|i: int| 0 <= i < rows.len() ==> 0 < (#[trigger] rows[i]).id <= last
    &&& last <= MAX_STORED
}

/// The probes have ascending ids, of which the last one handed out is the greatest.
pub open spec fn probes_sound(rows: Seq<ProbeRow<Seq<char>>>, last: u64) -> bool {
    &&& forall|i: int, j: int|
        0 <= i < j < rows.len() ==> (#[trigger] rows[i]).id < (#[trigger] rows[j]).id
    &&& forall|i: int| 0 <= i < rows.len() ==> 0 < (#[trigger] rows[i]).id <= last
    &&& last <= MAX_STORED
}

/// Forwards that ended alike in one span of time share a row.
pub open spec fn buckets_sound(rows: Seq<BucketRow<Seq<char>>>) -> bool {
    forall|i: int, j: int|
        0 <= i < j < rows.len() ==> !same_bucket(#[trigger] rows[i], #[trigger] rows[j])
}

/// There is one attempt at a time.
pub open spec fn runs_sound(rows: Seq<RunRow<Seq<char>>>) -> bool {
    forall|i: int, j: int|
        0 <= i < j < rows.len() ==> (#[trigger] rows[i]).ts != (#[trigger] rows[j]).ts
}

/// A name of a kind stands for one channel, and the key of a channel for that channel.
pub open spec fn aliases_sound(rows: Seq<AliasRow<Seq<char>>>) -> bool {
    &&& forall|i: int, j: int|
        0 <= i < j < rows.len() ==> !is_alias_row(
            #[trigger] rows[i],
            (#[trigger] rows[j]).alias_type,
            rows[j].alias,
        )
    &&& forall|i: int|
        0 <= i < rows.len() && (#[trigger] rows[i]).alias_type == "identity"@ ==> rows[i].alias
            == rows[i].channel_key
}

/// Whether a probe has that id.
pub open spec fn has_probe(probes: Seq<ProbeRow<Seq<char>>>, id: u64) -> bool {
    exists|i: int| 0 <= i < probes.len() && (#[trigger] probes[i]).id == id
}

/// Every hop is one of a recorded probe, and a probe has one hop at a place.
pub open spec fn hops_sound(
    rows: Seq<HopRow<Seq<char>>>,
    probes: Seq<ProbeRow<Seq<char>>>,
) -> bool {
    &&& forall|i: int| 0 <= i < rows.len() ==> has_probe(probes, (#[trigger] rows[i]).probe_id)
    &&& forall|i: int, j: int|
        0 <= i < j < rows.len() ==> (#[trigger] rows[i]).probe_id != (#[trigger] rows[j]).probe_id
            || rows[i].hop_index != rows[j].hop_index
}

/// What holds of the tables at all times.
pub open spec fn sound(db: DbView) -> bool {
    &&& channels_sound(db.channels)
    &&& samples_sound(db.samples, db.last_sample_id)
    &&& events_sound(db.events, db.last_event_id)
    &&& probes_sound(db.probes, db.last_probe_id)
    &&& buckets_sound(db.buckets)
    &&& runs_sound(db.runs)
    &&& aliases_sound(db.aliases)
    &&& hops_sound(db.hops, db.probes)
}

/// Where the rows that a filter keeps stood.
pub proof fn lemma_kept_places<T>(rows: Seq<T>, keep: spec_fn(T) -> bool) -> (places: Seq<int>)
    ensures
        places.len() == rows.filter(keep).len(),
        forall|i: int|
            #![trigger rows.filter(keep)[i]]
            #![trigger places[i]]
            0 <= i < places.len() ==> 0 <= places[i] < rows.len() && rows.filter(keep)[i]
                == rows[places[i]] && keep(rows[places[i]]),
        forall|i: int, j: int|
            0 <= i < j < places.len() ==> #[trigger] places[i] < #[trigger] places[j],
        forall|k: int|
            0 <= k < rows.len() && keep(#[trigger] rows[k]) ==> rows.filter(keep).contains(rows[k]),
    decreases rows.len(),
{
    reveal(Seq::filter);
    if rows.len() == 0 {
        Seq::empty()
    } else {
        let front = rows.drop_last();
        let before = lemma_kept_places(front, keep);
        let kept = rows.filter(keep);
        let places = if keep(rows.last()) {
            before.push(rows.len() - 1)
        } else {
            before
        };
        assert forall|i: int| 0 <= i < before.len() implies #[trigger] front.filter(keep)[i]
            == rows[before[i]] by {}
        assert forall|k: int| 0 <= k < rows.len() && keep(#[trigger] rows[k]) implies kept.contains(
            rows[k],
        ) by {
            if k == rows.len() - 1 {
                assert(kept.last() == rows[k]);
            } else {
                assert(front[k] == rows[k]);
                let at = choose|at: int|
                    0 <= at < front.filter(keep).len() && front.filter(keep)[at] == front[k];
                assert(kept[at] == rows[k]);
            }
        }
        places
    }
}

/// Dropping what is old keeps the tables sound.
pub proof fn law_pruning_keeps_the_tables_sound(db: DbView, ts: u64)
    requires
        sound(db),
    ensures
        sound(pruned(db, ts)),
{
    let cutoff = cutoff_at(db, ts);
    let after = pruned(db, ts);
    let samples = lemma_kept_places(db.samples, kept_samples(db.samples, cutoff));
    assert(samples_sound(after.samples, after.last_sample_id));
    let events = lemma_kept_places(db.events, kept_events(cutoff));
    assert(events_sound(after.events, after.last_event_id));
    let buckets = lemma_kept_places(db.buckets, kept_buckets(cutoff));
    assert(buckets_sound(after.buckets));
    let runs = lemma_kept_places(db.runs, kept_runs(cutoff));
    assert(runs_sound(after.runs));
    let probes = lemma_kept_places(db.probes, kept_probes(cutoff));
    assert(probes_sound(after.probes, after.last_probe_id));
    let hops = lemma_kept_places(db.hops, kept_hops(db.probes, cutoff));
    assert forall|i: int| 0 <= i < after.hops.len() implies has_probe(
        after.probes,
        (#[trigger] after.hops[i]).probe_id,
    ) by {
        let hop = db.hops[hops[i]];
        let at = choose|at: int|
            0 <= at < db.probes.len() && (#[trigger] db.probes[at]).id == hop.probe_id;
        assert(!is_orphaned(db.probes, hop, cutoff));
        assert(kept_probes(cutoff)(db.probes[at]));
        let kept = choose|k: int| 0 <= k < after.probes.len() && after.probes[k] == db.probes[at];
        assert(after.probes[kept].id == hop.probe_id);
    }
    assert(hops_sound(after.hops, after.probes));
}

/// A name that is seen keeps the names sound.
pub proof fn lemma_alias_seen_is_sound(
    aliases: Seq<AliasRow<Seq<char>>>,
    ts: u64,
    alias_type: Seq<char>,
    alias: Seq<char>,
    channel_key: Seq<char>,
)
    requires
        aliases_sound(aliases),
        alias_type == "identity"@ ==> alias == channel_key,
    ensures
        aliases_sound(with_alias_seen(aliases, ts, alias_type, alias, channel_key)),
{
}

/// A run of names that are seen keeps the names sound.
pub proof fn lemma_names_seen_are_sound(
    aliases: Seq<AliasRow<Seq<char>>>,
    ts: u64,
    names: Seq<AliasView>,
    key: Seq<char>,
)
    requires
        aliases_sound(aliases),
        forall|i: int| 0 <= i < names.len() ==> (#[trigger] names[i]).kind != "identity"@,
    ensures
        aliases_sound(with_names_seen(aliases, ts, names, key)),
    decreases names.len(),
{
    if names.len() > 0 {
        lemma_names_seen_are_sound(aliases, ts, names.drop_last(), key);
        assert(names.last() == names[names.len() - 1]);
        lemma_alias_seen_is_sound(
            with_names_seen(aliases, ts, names.drop_last(), key),
            ts,
            names.last().kind,
            names.last().value,
            key,
        );
    }
}

/// A state that is taken in keeps the tables sound.
pub proof fn lemma_sample_is_sound(db: DbView, ts: u64, sample: SampleView)
    requires
        sound(db),
        db.last_sample_id < MAX_STORED,
        db.last_event_id < MAX_STORED,
    ensures
        sound(with_sample(db, ts, sample)),
{
    let after = with_sample(db, ts, sample);
    assert(channels_sound(after.channels)) by {
        if has_channel(db.channels, sample.channel_key) {
            assert forall|i: int, j: int| 0 <= i < j < after.channels.len() implies (
            #[trigger] after.channels[i]).channel_key != (
            #[trigger] after.channels[j]).channel_key by {
                assert(db.channels[i].channel_key != db.channels[j].channel_key);
            }
        }
    }
    assert(samples_sound(after.samples, after.last_sample_id));
    assert(events_sound(after.events, after.last_event_id));
}

/// Noting departures keeps the events sound.
pub proof fn lemma_departures_are_sound(
    db: DbView,
    channels: Seq<ChannelRow<Seq<char>>>,
    keys: Seq<Seq<char>>,
    ts: u64,
)
    requires
        events_sound(db.events, db.last_event_id),
        db.last_event_id + channels.len() <= MAX_STORED,
    ensures
        ({
            let after = with_departures(db, channels, keys, ts);
            &&& events_sound(after.events, after.last_event_id)
            &&& after.last_event_id <= db.last_event_id + channels.len()
            &&& after == (DbView {
                events: after.events,
                last_event_id: after.last_event_id,
                ..db
            })
        }),
    decreases channels.len(),
{
    if channels.len() > 0 {
        lemma_departures_are_sound(db, channels.drop_last(), keys, ts);
    }
}

/// Finding channels missing keeps the tables sound.
pub proof fn lemma_missing_is_sound(db: DbView, keys: Seq<Seq<char>>, ts: u64)
    requires
        sound(db),
        db.last_event_id + db.channels.len() <= MAX_STORED,
    ensures
        sound(with_missing(db, keys, ts)),
{
    lemma_departures_are_sound(db, db.channels, keys, ts);
    let after = with_missing(db, keys, ts);
    assert forall|i: int, j: int| 0 <= i < j < after.channels.len() implies (
    #[trigger] after.channels[i]).channel_key != (#[trigger] after.channels[j]).channel_key by {
        assert(db.channels[i].channel_key != db.channels[j].channel_key);
    }
}

/// An attempt that is recorded keeps the attempts sound.
pub proof fn lemma_run_is_sound(runs: Seq<RunRow<Seq<char>>>, run: RunRow<Seq<char>>)
    requires
        runs_sound(runs),
    ensures
        runs_sound(with_run(runs, run)),
{
    let after = with_run(runs, run);
    if after.len() == runs.len() {
        assert forall|i: int, j: int| 0 <= i < j < after.len() implies (#[trigger] after[i]).ts != (
        #[trigger] after[j]).ts by {
            assert(runs[i].ts != runs[j].ts);
        }
    }
}

/// A forward that is counted keeps the forwards sound.
pub proof fn lemma_forward_is_sound(buckets: Seq<BucketRow<Seq<char>>>, row: BucketRow<Seq<char>>)
    requires
        buckets_sound(buckets),
    ensures
        buckets_sound(with_forward_row(buckets, row)),
{
    let after = with_forward_row(buckets, row);
    if after.len() == buckets.len() {
        assert forall|i: int, j: int| 0 <= i < j < after.len() implies !same_bucket(
            #[trigger] after[i],
            #[trigger] after[j],
        ) by {
            assert(!same_bucket(buckets[i], buckets[j]));
        }
    }
}

/// A probe that is recorded keeps the tables sound.
pub proof fn lemma_probe_is_sound(db: DbView, ts: u64, value: Json, route: Seq<Json>)
    requires
        sound(db),
        db.last_probe_id < MAX_STORED,
        route.len() <= u64::MAX,
    ensures
        sound(with_probe(db, ts, value, route)),
{
    let after = with_probe(db, ts, value, route);
    let id = after.last_probe_id;
    let added = hop_rows(id, db.aliases, route);
    assert(probes_sound(after.probes, after.last_probe_id));
    assert forall|i: int| 0 <= i < after.hops.len() implies has_probe(
        after.probes,
        (#[trigger] after.hops[i]).probe_id,
    ) by {
        if i < db.hops.len() {
            let at = choose|at: int|
                0 <= at < db.probes.len() && (#[trigger] db.probes[at]).id == db.hops[i].probe_id;
            assert(after.probes[at] == db.probes[at]);
        } else {
            assert(after.hops[i] == added[i - db.hops.len()]);
            assert(after.probes.last().id == id);
        }
    }
    assert forall|i: int, j: int| 0 <= i < j < after.hops.len() implies (
    #[trigger] after.hops[i]).probe_id != (#[trigger] after.hops[j]).probe_id
        || after.hops[i].hop_index != after.hops[j].hop_index by {
        if j >= db.hops.len() {
            assert(after.hops[j] == added[j - db.hops.len()]);
            if i < db.hops.len() {
                assert(has_probe(db.probes, db.hops[i].probe_id));
            } else {
                assert(after.hops[i] == added[i - db.hops.len()]);
            }
        }
    }
}

proof fn lemma_no_name_is_an_identity(value: Json)
    ensures
        forall|i: int|
            0 <= i < aliases_of(value).len() ==> (#[trigger] aliases_of(value)[i]).kind
                != "identity"@,
{
    reveal_strlit("identity");
    reveal_strlit("channel_id");
    reveal_strlit("short_channel_id");
    reveal_strlit("funding_outpoint");
    reveal_strlit("local_alias");
    reveal_strlit("remote_alias");
    assert("channel_id"@[0] != "identity"@[0]);
    assert("short_channel_id"@[0] != "identity"@[0]);
    assert("funding_outpoint"@[0] != "identity"@[0]);
    assert("local_alias"@[0] != "identity"@[0]);
    assert("remote_alias"@[0] != "identity"@[0]);
}

/// A channel that is seen keeps the names sound.
pub proof fn lemma_identity_seen_is_sound(
    aliases: Seq<AliasRow<Seq<char>>>,
    ts: u64,
    value: Json,
    key: Seq<char>,
)
    requires
        aliases_sound(aliases),
    ensures
        aliases_sound(with_identity_seen(aliases, ts, aliases_of(value), key)),
{
    lemma_alias_seen_is_sound(aliases, ts, "identity"@, key, key);
    lemma_no_name_is_an_identity(value);
    lemma_names_seen_are_sound(
        with_alias_seen(aliases, ts, "identity"@, key, key),
        ts,
        aliases_of(value),
        key,
    );
}

/// The channels of a snapshot keep the tables sound, and take an id each at most.
pub proof fn lemma_channels_are_sound(
    db: DbView,
    ts: u64,
    channels: Seq<Json>,
    blockheight: Option<u64>,
)
    requires
        sound(db),
        has_ids_for(db, channels.len()),
    ensures
        ({
            let after = with_channels(db, ts, channels, blockheight);
            &&& sound(after)
            &&& after.last_sample_id <= db.last_sample_id + channels.len()
            &&& after.last_event_id <= db.last_event_id + channels.len()
            &&& after.channels.len() <= db.channels.len() + channels.len()
            &&& after.retention_seconds == db.retention_seconds
        }),
    decreases channels.len(),
{
    if channels.len() > 0 {
        lemma_channels_are_sound(db, ts, channels.drop_last(), blockheight);
        let before = with_channels(db, ts, channels.drop_last(), blockheight);
        let value = channels.last();
        let index = channels.len() - 1;
        let key = key_in(before, value, index, blockheight);
        lemma_identity_seen_is_sound(before.aliases, ts, value, key);
        let named = DbView {
            aliases: with_identity_seen(before.aliases, ts, aliases_of(value), key),
            ..before
        };
        lemma_sample_is_sound(named, ts, identified(before, value, index, blockheight));
    }
}

/// A snapshot keeps the tables sound.
pub proof fn law_snapshots_keep_the_tables_sound(
    db: DbView,
    ts: u64,
    channels: Seq<Json>,
    blockheight: Option<u64>,
)
    requires
        sound(db),
        has_ids_for(db, channels.len()),
    ensures
        sound(with_snapshot(db, ts, channels, blockheight)),
{
    lemma_channels_are_sound(db, ts, channels, blockheight);
    let seen = with_channels(db, ts, channels, blockheight);
    let noted = with_missing(seen, keys_in(db, ts, channels, blockheight), ts);
    lemma_missing_is_sound(seen, keys_in(db, ts, channels, blockheight), ts);
    let run = RunRow {
        ts,
        success: true,
        channel_count: Some(channels.len() as u64),
        error: None,
    };
    lemma_run_is_sound(noted.runs, run);
    law_pruning_keeps_the_tables_sound(
        DbView { runs: with_run(noted.runs, run), ..noted },
        ts,
    );
}

/// A change of a channel's state keeps the tables sound.
pub proof fn law_state_changes_keep_the_tables_sound(db: DbView, ts: u64, value: Json)
    requires
        sound(db),
        db.last_event_id < MAX_STORED,
    ensures
        sound(with_state_change(db, ts, value)),
{
    reveal_strlit("identity");
    reveal_strlit("channel_id");
    reveal_strlit("short_channel_id");
    assert("channel_id"@[0] != "identity"@[0]);
    assert("short_channel_id"@[0] != "identity"@[0]);
    let key = event_key(db.aliases, value);
    let channel_id = value.text_at("channel_id"@);
    let short_channel_id = value.text_at("short_channel_id"@);
    let named = with_name_seen(db.aliases, ts, "channel_id"@, channel_id, key);
    if key is Some && channel_id is Some {
        lemma_alias_seen_is_sound(db.aliases, ts, "channel_id"@, channel_id->0, key->0);
    }
    if key is Some && short_channel_id is Some {
        lemma_alias_seen_is_sound(named, ts, "short_channel_id"@, short_channel_id->0, key->0);
    }
}

/// A probe result that is recorded keeps the tables sound.
pub proof fn law_probe_results_keep_the_tables_sound(db: DbView, received_at: u64, value: Json)
    requires
        sound(db),
        db.last_probe_id < MAX_STORED,
    ensures
        probe_outcome(db, received_at, value) matches Ok(after) ==> sound(after),
{
    if probe_outcome(db, received_at, value) is Ok && route_of(value) is Some && (route_of(
        value,
    )->0).len() > 0 && route_problem(route_of(value)->0) is None {
        let route = route_of(value)->0;
        let ts = observed_at(value, received_at);
        assert(hop_problem(route.last(), route.len() - 1) is None);
        lemma_probe_is_sound(db, ts, value, route);
        law_pruning_keeps_the_tables_sound(with_probe(db, ts, value, route), ts);
    }
}

/// An empty history is sound.
pub proof fn law_an_empty_history_is_sound(retention_days: u64)
    ensures
        sound(empty_history(retention_days)),
{
}

proof fn lemma_old_name_is_sound(
    aliases: Seq<AliasRow<Seq<char>>>,
    kind: NameKind,
    channel: ChannelRow<Seq<char>>,
)
    requires
        aliases_sound(aliases),
    ensures
        aliases_sound(with_old_name(aliases, kind.text(), kind.of(channel), channel)),
{
    reveal_strlit("identity");
    reveal_strlit("channel_id");
    reveal_strlit("short_channel_id");
    assert("channel_id"@[0] != "identity"@[0]);
    assert("short_channel_id"@[0] != "identity"@[0]);
}

proof fn lemma_old_names_are_sound(
    aliases: Seq<AliasRow<Seq<char>>>,
    kind: NameKind,
    channels: Seq<ChannelRow<Seq<char>>>,
)
    requires
        aliases_sound(aliases),
    ensures
        aliases_sound(with_old_names(aliases, kind, channels)),
    decreases channels.len(),
{
    if channels.len() > 0 {
        lemma_old_names_are_sound(aliases, kind, channels.drop_last());
        lemma_old_name_is_sound(
            with_old_names(aliases, kind, channels.drop_last()),
            kind,
            channels.last(),
        );
    }
}

/// Bringing a database up to date keeps the tables sound.
pub proof fn law_migration_keeps_the_tables_sound(db: DbView, version: Option<u64>)
    requires
        sound(db),
    ensures
        migrated(db, version) matches Ok(after) ==> sound(after),
{
    lemma_old_names_are_sound(db.aliases, NameKind::Identity, db.channels);
    let identities = with_old_names(db.aliases, NameKind::Identity, db.channels);
    lemma_old_names_are_sound(identities, NameKind::ChannelId, db.channels);
    let ids = with_old_names(identities, NameKind::ChannelId, db.channels);
    lemma_old_names_are_sound(ids, NameKind::ShortChannelId, db.channels);
}

} // verus!
