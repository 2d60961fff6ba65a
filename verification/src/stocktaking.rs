//! What the history says of itself: how much it holds, what it covers, and how it is kept.

use crate::census::lemma_filter_grows;
use crate::json::JsonNumber;
use crate::plugin_metrics::{Family, MetricType};
use crate::recording::HistoryError;
use crate::store::{
    alias_rank, best_alias, identity_of, resolved, AliasRow, ChannelRow, DbView, EventRow, ProbeRow,
    RunRow,
};
use crate::upkeep::{
    are_gauges, collection_age, count_of, counts_rows, coverage, empty_history, gauges_of, is_gauge,
    last_run, last_success, migrated, newest_success, of_connections, of_failures, of_gone_channels,
    of_status, oldest_success, read_number, row_gauges, run_gauges, stored, with_channel_names,
    with_old_names, Counts, Gauge, NameKind, Storage,
};
use vstd::prelude::*;

verus! {

/// The oldest and the newest success are those of runs that succeeded, and none that succeeded is older
/// or newer. Without a success there is none.
pub proof fn law_successes_span_the_history(runs: Seq<RunRow<Seq<char>>>)
    ensures
        forall|i: int|
            0 <= i < runs.len() && (#[trigger] runs[i]).success ==> {
                &&& oldest_success(runs) matches Some(oldest) && oldest <= runs[i].ts
                &&& newest_success(runs) matches Some(newest) && runs[i].ts <= newest
            },
        oldest_success(runs) matches Some(oldest) ==> exists|i: int|
            0 <= i < runs.len() && (#[trigger] runs[i]).success && runs[i].ts == oldest,
        newest_success(runs) matches Some(newest) ==> exists|i: int|
            0 <= i < runs.len() && (#[trigger] runs[i]).success && runs[i].ts == newest,
    decreases runs.len(),
{
    if runs.len() > 0 {
        let front = runs.drop_last();
        law_successes_span_the_history(front);
        assert forall|i: int| 0 <= i < front.len() implies front[i] == #[trigger] runs[i] by {}
        assert(runs[runs.len() - 1] == runs.last());
        if let Some(oldest) = oldest_success(front) {
            let i = choose|i: int|
                0 <= i < front.len() && (#[trigger] front[i]).success && front[i].ts == oldest;
            assert(runs[i].success);
        }
        if let Some(newest) = newest_success(front) {
            let i = choose|i: int|
                0 <= i < front.len() && (#[trigger] front[i]).success && front[i].ts == newest;
            assert(runs[i].success);
        }
    }
}

/// The last run is one of the runs, and none is later.
pub proof fn law_the_last_run_is_the_latest(runs: Seq<RunRow<Seq<char>>>)
    ensures
        runs.len() == 0 <==> last_run(runs) is None,
        last_run(runs) matches Some(last) ==> runs.contains(last) && forall|i: int|
            0 <= i < runs.len() ==> (#[trigger] runs[i]).ts <= last.ts,
    decreases runs.len(),
{
    if runs.len() > 0 {
        let front = runs.drop_last();
        law_the_last_run_is_the_latest(front);
        assert forall|i: int| 0 <= i < front.len() implies front[i] == #[trigger] runs[i] by {}
        assert(runs.contains(runs[runs.len() - 1]));
        if let Some(last) = last_run(front) {
            let i = choose|i: int| 0 <= i < front.len() && front[i] == last;
            assert(runs[i] == last);
        }
    }
}

proof fn lemma_count<T>(rows: Seq<T>, wanted: spec_fn(T) -> bool)
    ensures
        count_of(rows, wanted) == rows.filter(wanted).len(),
    decreases rows.len(),
{
    if rows.len() > 0 {
        lemma_count(rows.drop_last(), wanted);
        lemma_filter_grows(rows, wanted);
    } else {
        reveal(Seq::filter);
    }
}

/// How many channels are gone.
pub open spec fn gone_channels(db: DbView) -> int {
    db.channels.filter(|row: ChannelRow<Seq<char>>| row.disappeared_at is Some).len() as int
}

/// How many events are of connections.
pub open spec fn connection_events(db: DbView) -> int {
    db.events.filter(
        |row: EventRow<Seq<char>>| row.event_type == "connect"@ || row.event_type == "disconnect"@,
    ).len() as int
}

/// How many probes ended in that way.
pub open spec fn probes_that(db: DbView, status: Seq<char>) -> int {
    db.probes.filter(|row: ProbeRow<Seq<char>>| row.status == status).len() as int
}

/// How many runs failed.
pub open spec fn failed_runs(db: DbView) -> int {
    db.runs.filter(|row: RunRow<Seq<char>>| !row.success).len() as int
}

proof fn lemma_counts(db: DbView)
    ensures
        count_of(db.channels, of_gone_channels()) == gone_channels(db),
        count_of(db.events, of_connections()) == connection_events(db),
        count_of(db.probes, of_status("destination_reached"@)) == probes_that(
            db,
            "destination_reached"@,
        ),
        count_of(db.probes, of_status("route_failed"@)) == probes_that(db, "route_failed"@),
        count_of(db.runs, of_failures()) == failed_runs(db),
{
    lemma_count(db.channels, of_gone_channels());
    lemma_count(db.events, of_connections());
    lemma_count(db.probes, of_status("destination_reached"@));
    lemma_count(db.probes, of_status("route_failed"@));
    lemma_count(db.runs, of_failures());
    assert(of_gone_channels() =~= |row: ChannelRow<Seq<char>>| row.disappeared_at is Some);
    assert(of_connections() =~= |row: EventRow<Seq<char>>|
        row.event_type == "connect"@ || row.event_type == "disconnect"@);
    assert(of_status("destination_reached"@) =~= |row: ProbeRow<Seq<char>>|
        row.status == "destination_reached"@);
    assert(of_status("route_failed"@) =~= |row: ProbeRow<Seq<char>>| row.status == "route_failed"@);
    assert(of_failures() =~= |row: RunRow<Seq<char>>| !row.success);
}

/// The rows are counted table by table, and those of a kind one by one.
pub proof fn law_rows_are_counted(counts: Counts, db: DbView)
    requires
        counts_rows(counts, db),
    ensures
        counts.channels == db.channels.len(),
        counts.gone_channels == gone_channels(db),
        counts.channel_samples == db.samples.len(),
        counts.channel_events == db.events.len(),
        counts.peer_connection_events == connection_events(db),
        counts.forward_pair_buckets == db.buckets.len(),
        counts.probe_events == db.probes.len(),
        counts.successful_probe_events == probes_that(db, "destination_reached"@),
        counts.failed_probe_events == probes_that(db, "route_failed"@),
        counts.channel_aliases == db.aliases.len(),
        counts.collector_runs == db.runs.len(),
        counts.failed_runs == failed_runs(db),
{
    lemma_counts(db);
}

/// The age of the last success is the time since then, and none before the first.
pub proof fn law_the_age_of_the_last_success(db: DbView, now: u64)
    ensures
        newest_success(db.runs) is None ==> last_success(db) == 0 && collection_age(db, now) == 0,
        newest_success(db.runs) matches Some(ts) ==> last_success(db) == ts,
        newest_success(db.runs) matches Some(ts) ==> (0 < ts <= now ==> collection_age(db, now) == now
            - ts),
        newest_success(db.runs) matches Some(newest) ==> (oldest_success(db.runs) matches Some(oldest)
            ==> coverage(db) == newest - oldest),
        newest_success(db.runs) is None ==> coverage(db) == 0,
{
}

/// Whether a value is measured under a name.
pub open spec fn measures(gauges: Seq<Gauge>, name: Seq<char>, value: int) -> bool {
    exists|i: int|
        0 <= i < gauges.len() && (#[trigger] gauges[i]).name == name && gauges[i].value == value
}

proof fn lemma_measured(a: Seq<Gauge>, b: Seq<Gauge>, i: int)
    ensures
        0 <= i < a.len() ==> measures(a + b, a[i].name, a[i].value),
        0 <= i < b.len() ==> measures(a + b, b[i].name, b[i].value),
{
    if 0 <= i < a.len() {
        assert((a + b)[i] == a[i]);
    }
    if 0 <= i < b.len() {
        assert((a + b)[a.len() + i] == b[i]);
    }
}

/// The history measures its files, its rows, its runs and what it covers.
pub proof fn law_the_history_is_measured(db: DbView, storage: Storage, now: u64)
    ensures
        ({
            let all = gauges_of(db, storage, now);
            &&& all.len() == 25
            &&& measures(all, "database_bytes"@, storage.database_bytes as int)
            &&& measures(all, "wal_bytes"@, storage.wal_bytes as int)
            &&& measures(all, "storage_bytes"@, storage.storage_bytes as int)
            &&& measures(all, "database_pages"@, storage.page_count as int)
            &&& measures(all, "database_freelist_pages"@, storage.freelist_count as int)
            &&& measures(all, "schema_version"@, 5)
            &&& measures(all, "channels"@, db.channels.len() as int)
            &&& measures(all, "active_channels"@, db.channels.len() - gone_channels(db))
            &&& measures(all, "disappeared_channels"@, gone_channels(db))
            &&& measures(all, "channel_samples"@, db.samples.len() as int)
            &&& measures(all, "channel_events"@, db.events.len() as int)
            &&& measures(all, "peer_connection_events"@, connection_events(db))
            &&& measures(all, "forward_pair_buckets"@, db.buckets.len() as int)
            &&& measures(all, "probe_events"@, db.probes.len() as int)
            &&& measures(all, "successful_probe_events"@, probes_that(db, "destination_reached"@))
            &&& measures(all, "failed_probe_events"@, probes_that(db, "route_failed"@))
            &&& measures(all, "channel_aliases"@, db.aliases.len() as int)
            &&& measures(all, "collector_runs"@, db.runs.len() as int)
            &&& measures(all, "retained_collection_failures"@, failed_runs(db))
            &&& last_run(db.runs) matches Some(run) ==> {
                &&& run.success ==> measures(all, "collection_success"@, 1)
                &&& !run.success ==> measures(all, "collection_success"@, 0)
                &&& measures(all, "last_collection_timestamp_seconds"@, run.ts as int)
            }
            &&& last_run(db.runs) is None ==> {
                &&& measures(all, "collection_success"@, 0)
                &&& measures(all, "last_collection_timestamp_seconds"@, 0)
            }
            &&& measures(
                all,
                "last_successful_collection_timestamp_seconds"@,
                last_success(db),
            )
            &&& measures(
                all,
                "last_successful_collection_age_seconds"@,
                collection_age(db, now),
            )
            &&& measures(all, "history_coverage_seconds"@, coverage(db))
            &&& measures(all, "retention_seconds"@, db.retention_seconds as int)
        }),
{
    lemma_counts(db);
    let a = row_gauges(db, storage);
    let b = run_gauges(db, now);
    lemma_measured(a, b, 0);
    lemma_measured(a, b, 1);
    lemma_measured(a, b, 2);
    lemma_measured(a, b, 3);
    lemma_measured(a, b, 4);
    lemma_measured(a, b, 5);
    lemma_measured(a, b, 6);
    lemma_measured(a, b, 7);
    lemma_measured(a, b, 8);
    lemma_measured(a, b, 9);
    lemma_measured(a, b, 10);
    lemma_measured(a, b, 11);
    lemma_measured(a, b, 12);
}

/// A history starts empty, and keeps what it is given for so many days.
pub proof fn law_a_history_starts_empty(days: u64)
    ensures
        ({
            let db = empty_history(days);
            &&& db.channels.len() == 0
            &&& db.samples.len() == 0
            &&& db.events.len() == 0
            &&& db.buckets.len() == 0
            &&& db.runs.len() == 0
            &&& db.aliases.len() == 0
            &&& db.probes.len() == 0
            &&& db.hops.len() == 0
            &&& days * 86_400 <= u64::MAX ==> db.retention_seconds == days * 86_400
        }),
{
}

/// Numbers are stored if they have 63 bits, and read back as they are. What is negative is read as
/// nothing.
pub proof fn law_numbers_are_stored(value: u64, held: i64)
    ensures
        value <= 0x7fff_ffff_ffff_ffff ==> stored(value) == Ok::<i64, HistoryError>(value as i64),
        value > 0x7fff_ffff_ffff_ffff ==> stored(value) == Err::<i64, HistoryError>(
            HistoryError::OutOfRange,
        ),
        held >= 0 ==> read_number(held) == held,
        held < 0 ==> read_number(held) == 0,
{
}

/// Whether a channel has a name of a kind on record.
pub open spec fn is_on_record(
    aliases: Seq<AliasRow<Seq<char>>>,
    kind: Seq<char>,
    name: Seq<char>,
) -> bool {
    exists|i: int|
        0 <= i < aliases.len() && (#[trigger] aliases[i]).alias_type == kind && aliases[i].alias
            == name
}

proof fn lemma_record_grows(
    aliases: Seq<AliasRow<Seq<char>>>,
    after: Seq<AliasRow<Seq<char>>>,
    kind: Seq<char>,
    name: Seq<char>,
)
    requires
        aliases.len() <= after.len(),
        after.take(aliases.len() as int) == aliases,
        is_on_record(aliases, kind, name),
    ensures
        is_on_record(after, kind, name),
{
    let i = choose|i: int|
        0 <= i < aliases.len() && (#[trigger] aliases[i]).alias_type == kind && aliases[i].alias
            == name;
    assert(after.take(aliases.len() as int)[i] == after[i]);
}

proof fn lemma_old_names(
    aliases: Seq<AliasRow<Seq<char>>>,
    kind: NameKind,
    channels: Seq<ChannelRow<Seq<char>>>,
)
    ensures
        ({
            let after = with_old_names(aliases, kind, channels);
            &&& aliases.len() <= after.len()
            &&& after.take(aliases.len() as int) == aliases
            &&& forall|i: int|
                0 <= i < channels.len() ==> (kind.of(#[trigger] channels[i]) matches Some(name)
                    ==> is_on_record(after, kind.text(), name))
            &&& forall|k: int|
                aliases.len() <= k < after.len() ==> {
                    let row = #[trigger] after[k];
                    exists|i: int|
                        0 <= i < channels.len() && row.channel_key == (
                        #[trigger] channels[i]).channel_key && row.alias_type == kind.text()
                            && kind.of(channels[i]) == Some(row.alias) && row.first_seen
                            == channels[i].first_seen && row.last_seen == channels[i].last_seen
                }
        }),
    decreases channels.len(),
{
    if channels.len() > 0 {
        let front = channels.drop_last();
        lemma_old_names(aliases, kind, front);
        let before = with_old_names(aliases, kind, front);
        let after = with_old_names(aliases, kind, channels);
        let last = channels.last();
        assert(channels[channels.len() - 1] == last);
        assert(after.take(aliases.len() as int) =~= before.take(aliases.len() as int));
        assert(after.take(before.len() as int) =~= before);
        assert forall|i: int| 0 <= i < channels.len() implies (kind.of(
            #[trigger] channels[i],
        ) matches Some(name) ==> is_on_record(after, kind.text(), name)) by {
            if let Some(name) = kind.of(channels[i]) {
                if i < front.len() {
                    assert(front[i] == channels[i]);
                    lemma_record_grows(before, after, kind.text(), name);
                } else if crate::store::has_alias_row(before, kind.text(), name) {
                    let k = choose|k: int|
                        0 <= k < before.len() && crate::store::is_alias_row(
                            #[trigger] before[k],
                            kind.text(),
                            name,
                        );
                    assert(after[k].alias == name);
                } else {
                    assert(after[before.len() as int].alias == name);
                }
            }
        }
        assert forall|k: int| aliases.len() <= k < after.len() implies {
            let row = #[trigger] after[k];
            exists|i: int|
                0 <= i < channels.len() && row.channel_key == (#[trigger] channels[i]).channel_key
                    && row.alias_type == kind.text() && kind.of(channels[i]) == Some(row.alias)
                    && row.first_seen == channels[i].first_seen && row.last_seen
                    == channels[i].last_seen
        } by {
            let row = after[k];
            if k < before.len() {
                assert(before[k] == row);
                let i = choose|i: int|
                    0 <= i < front.len() && row.channel_key == (#[trigger] front[i]).channel_key
                        && row.alias_type == kind.text() && kind.of(front[i]) == Some(row.alias)
                        && row.first_seen == front[i].first_seen && row.last_seen
                        == front[i].last_seen;
                assert(channels[i] == front[i]);
            } else {
                assert(row.channel_key == channels[channels.len() - 1].channel_key);
            }
        }
    } else {
        assert(aliases.take(aliases.len() as int) =~= aliases);
    }
}

/// A history of the first form, or of none, gets the names of its channels: the key, the id and the short
/// id of every channel are on record then. The names that were on record stay.
pub proof fn law_old_channels_get_their_names(db: DbView, i: int)
    requires
        0 <= i < db.channels.len(),
    ensures
        ({
            let after = with_channel_names(db).aliases;
            let channel = db.channels[i];
            &&& db.aliases.len() <= after.len()
            &&& after.take(db.aliases.len() as int) == db.aliases
            &&& is_on_record(after, "identity"@, channel.channel_key)
            &&& channel.channel_id matches Some(id) ==> is_on_record(after, "channel_id"@, id)
            &&& channel.short_channel_id matches Some(id) ==> is_on_record(
                after,
                "short_channel_id"@,
                id,
            )
            &&& with_channel_names(db) == (DbView { aliases: after, ..db })
        }),
{
    let one = with_old_names(db.aliases, NameKind::Identity, db.channels);
    let two = with_old_names(one, NameKind::ChannelId, db.channels);
    let three = with_old_names(two, NameKind::ShortChannelId, db.channels);
    lemma_old_names(db.aliases, NameKind::Identity, db.channels);
    lemma_old_names(one, NameKind::ChannelId, db.channels);
    lemma_old_names(two, NameKind::ShortChannelId, db.channels);
    let channel = db.channels[i];
    assert(three.take(db.aliases.len() as int) =~= three.take(two.len() as int).take(
        one.len() as int,
    ).take(db.aliases.len() as int));
    assert(NameKind::Identity.of(channel) == Some(channel.channel_key));
    assert(is_on_record(one, "identity"@, channel.channel_key));
    lemma_record_grows(one, two, "identity"@, channel.channel_key);
    lemma_record_grows(two, three, "identity"@, channel.channel_key);
    if let Some(id) = channel.channel_id {
        assert(NameKind::ChannelId.of(channel) == Some(id));
        lemma_record_grows(two, three, "channel_id"@, id);
    }
    if let Some(id) = channel.short_channel_id {
        assert(NameKind::ShortChannelId.of(channel) == Some(id));
    }
}

/// A history of the present form is left as it is, and so is one of the forms between. One of a later
/// form is refused, and one of a form that never was too.
pub proof fn law_histories_are_brought_up_to_date(db: DbView, version: u64)
    ensures
        migrated(db, None) == Ok::<DbView, HistoryError>(with_channel_names(db)),
        version == 1 ==> migrated(db, Some(version)) == Ok::<DbView, HistoryError>(
            with_channel_names(db),
        ),
        2 <= version <= 5 ==> migrated(db, Some(version)) == Ok::<DbView, HistoryError>(db),
        version > 5 ==> migrated(db, Some(version)) == Err::<DbView, HistoryError>(
            HistoryError::NewerSchema(version),
        ),
        version == 0 ==> migrated(db, Some(version)) == Err::<DbView, HistoryError>(
            HistoryError::UnknownSchema(version),
        ),
{
}

/// A name stands for the channel of a row that has it: a row of the identity itself if there is one, else
/// one of the id, else any. A name that no row has stands for itself.
pub proof fn law_names_stand_for_channels(aliases: Seq<AliasRow<Seq<char>>>, name: Seq<char>)
    ensures
        ({
            let stands = |kind: Seq<char>|
                exists|i: int|
                    0 <= i < aliases.len() && (#[trigger] aliases[i]).alias == name
                        && aliases[i].alias_type == kind && aliases[i].channel_key == identity_of(
                        aliases,
                        name,
                    );
            &&& is_on_record(aliases, "identity"@, name) ==> stands("identity"@)
            &&& !is_on_record(aliases, "identity"@, name) && is_on_record(
                aliases,
                "channel_id"@,
                name,
            ) ==> stands("channel_id"@)
            &&& (forall|i: int| 0 <= i < aliases.len() ==> (#[trigger] aliases[i]).alias != name)
                ==> identity_of(aliases, name) == name && resolved(aliases, name) is None
            &&& (exists|i: int| 0 <= i < aliases.len() && (#[trigger] aliases[i]).alias == name)
                ==> resolved(aliases, name) == Some(identity_of(aliases, name)) && exists|i: int|
                0 <= i < aliases.len() && (#[trigger] aliases[i]).alias == name
                    && aliases[i].channel_key == identity_of(aliases, name)
        }),
{
    crate::identities::lemma_best_alias(aliases, name);
    reveal_strlit("identity");
    reveal_strlit("channel_id");
    assert("identity"@.len() == 8);
    assert("channel_id"@.len() == 10);
    if let Some(row) = best_alias(aliases, name) {
        let k = choose|k: int| 0 <= k < aliases.len() && aliases[k] == row;
        assert(aliases[k].alias == name);
        if is_on_record(aliases, "identity"@, name) {
            let i = choose|i: int|
                0 <= i < aliases.len() && (#[trigger] aliases[i]).alias_type == "identity"@
                    && aliases[i].alias == name;
            assert(alias_rank(row.alias_type) <= alias_rank(aliases[i].alias_type));
        } else {
            assert(row.alias_type != "identity"@);
            if is_on_record(aliases, "channel_id"@, name) {
                let i = choose|i: int|
                    0 <= i < aliases.len() && (#[trigger] aliases[i]).alias_type == "channel_id"@
                        && aliases[i].alias == name;
                assert(alias_rank(row.alias_type) <= alias_rank(aliases[i].alias_type));
            }
        }
    }
}

/// What is measured is told as gauges of one sample without labels, in the same order, under the same
/// names and with the same values.
pub proof fn law_measures_are_told_as_gauges(families: Seq<Family>, gauges: Seq<Gauge>, i: int)
    requires
        are_gauges(families, gauges),
        0 <= i < gauges.len(),
    ensures
        families.len() == gauges.len(),
        families[i].name@ == gauges[i].name,
        families[i].help@ == gauges[i].help,
        families[i].kind == MetricType::Gauge,
        families[i].samples@.len() == 1,
        families[i].samples@[0].labels@.len() == 0,
        families[i].samples@[0].value matches JsonNumber::Unsigned(n) ==> n == gauges[i].value,
        families[i].samples@[0].value matches JsonNumber::Negative(n) ==> n == gauges[i].value,
        !(families[i].samples@[0].value is Float),
{
    assert(is_gauge(families[i], gauges[i]));
}

} // verus!
