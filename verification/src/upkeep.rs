//! Opening the history, bringing older forms of it up to date, and saying how it stands.

use crate::activity::FORWARD_BUCKET_SECONDS;
use crate::channels::{capped_product, multiply_capped};
use crate::integrity::{law_migration_keeps_the_tables_sound, sound};
use crate::json::JsonNumber;
use crate::model::{
    heightened, lowered, no_policy, ChannelPolicy, ChannelSample, SampleView,
};
use crate::ordered::OrderedMap;
use crate::plugin_metrics::{Family, MetricType, Sample, WireMetrics};
use crate::recording::{HistoryError, CHECKPOINT_SECONDS};
use crate::store::{
    has_alias_row, is_alias_row, AliasRow, BucketRow, ChannelRow, DbView, EventRow, HistoryDb,
    ProbeRow, RunRow, SampleRow, SampleRowView, MAX_STORED,
};
use crate::text::{copy_text, parse_number, same_text, spelled_number};
use vstd::prelude::*;

verus! {

/// The form that the tables are in.
pub const SCHEMA_VERSION: u64 = 5;

/// The seconds of a day.
pub const DAY_SECONDS: u64 = 86_400;

/// A number as a table holds it, where a table holds it.
pub open spec fn stored(value: u64) -> Result<i64, HistoryError> {
    if value <= MAX_STORED {
        Ok(value as i64)
    } else {
        Err(HistoryError::OutOfRange)
    }
}

/// A number from a table. A negative one counts as 0.
pub open spec fn read_number(value: i64) -> u64 {
    if value < 0 {
        0
    } else {
        value as u64
    }
}

/// A number that a table holds is read back as it was.
pub proof fn law_stored_numbers_are_read_back(value: u64)
    ensures
        stored(value) matches Ok(held) ==> read_number(held) == value,
{
}

/// A number as a table holds it.
pub fn to_i64(value: u64) -> (r: Result<i64, HistoryError>)
    ensures
        r == stored(value),
{
    if value <= MAX_STORED {
        Ok(value as i64)
    } else {
        Err(HistoryError::OutOfRange)
    }
}

/// A number from a table. A negative one counts as 0.
pub fn from_i64(value: i64) -> (r: u64)
    ensures
        r == read_number(value),
{
    if value < 0 {
        0
    } else {
        value as u64
    }
}

/// A number that may be missing, as a table holds it.
pub fn optional_i64(value: Option<u64>) -> (r: Result<Option<i64>, HistoryError>)
    ensures
        match value {
            Some(value) => match stored(value) {
                Ok(held) => r == Ok::<Option<i64>, HistoryError>(Some(held)),
                Err(error) => r == Err::<Option<i64>, HistoryError>(error),
            },
            None => r == Ok::<Option<i64>, HistoryError>(None),
        },
{
    match value {
        Some(value) => match to_i64(value) {
            Ok(held) => Ok(Some(held)),
            Err(error) => Err(error),
        },
        None => Ok(None),
    }
}

/// A number from a table that may be missing there.
pub fn from_optional_i64(value: Option<i64>) -> (r: Option<u64>)
    ensures
        match value {
            Some(value) => r == Some(read_number(value)),
            None => r is None,
        },
{
    match value {
        Some(value) => Some(from_i64(value)),
        None => None,
    }
}

/// An empty history that keeps rows for that long.
pub open spec fn empty_history(retention_days: u64) -> DbView {
    DbView {
        channels: Seq::empty(),
        samples: Seq::empty(),
        events: Seq::empty(),
        buckets: Seq::empty(),
        runs: Seq::empty(),
        aliases: Seq::empty(),
        probes: Seq::empty(),
        hops: Seq::empty(),
        last_sample_id: 0,
        last_event_id: 0,
        last_probe_id: 0,
        retention_seconds: capped_product(retention_days, DAY_SECONDS),
    }
}

/// The names with one more, unless it is known.
pub open spec fn with_old_name(
    aliases: Seq<AliasRow<Seq<char>>>,
    alias_type: Seq<char>,
    alias: Option<Seq<char>>,
    channel: ChannelRow<Seq<char>>,
) -> Seq<AliasRow<Seq<char>>> {
    match alias {
        Some(alias) => if has_alias_row(aliases, alias_type, alias) {
            aliases
        } else {
            aliases.push(
                AliasRow {
                    alias_type,
                    alias,
                    channel_key: channel.channel_key,
                    first_seen: channel.first_seen,
                    last_seen: channel.last_seen,
                },
            )
        },
        None => aliases,
    }
}

/// The kinds of names that channels had before names were recorded.
#[derive(Clone, Copy, Debug, PartialEq, Eq, Structural)]
pub enum NameKind {
    Identity,
    ChannelId,
    ShortChannelId,
}

impl NameKind {
    /// How the kind is written.
    pub open spec fn text(self) -> Seq<char> {
        match self {
            NameKind::Identity => "identity"@,
            NameKind::ChannelId => "channel_id"@,
            NameKind::ShortChannelId => "short_channel_id"@,
        }
    }

    /// The name of that kind that a channel has.
    pub open spec fn of(self, channel: ChannelRow<Seq<char>>) -> Option<Seq<char>> {
        match self {
            NameKind::Identity => Some(channel.channel_key),
            NameKind::ChannelId => channel.channel_id,
            NameKind::ShortChannelId => channel.short_channel_id,
        }
    }
}

/// The names with those of one kind that the channels have.
pub open spec fn with_old_names(
    aliases: Seq<AliasRow<Seq<char>>>,
    kind: NameKind,
    channels: Seq<ChannelRow<Seq<char>>>,
) -> Seq<AliasRow<Seq<char>>>
    decreases channels.len(),
{
    if channels.len() == 0 {
        aliases
    } else {
        with_old_name(
            with_old_names(aliases, kind, channels.drop_last()),
            kind.text(),
            kind.of(channels.last()),
            channels.last(),
        )
    }
}

/// The history with the names that its channels have always had.
pub open spec fn with_channel_names(db: DbView) -> DbView {
    DbView {
        aliases: with_old_names(
            with_old_names(
                with_old_names(db.aliases, NameKind::Identity, db.channels),
                NameKind::ChannelId,
                db.channels,
            ),
            NameKind::ShortChannelId,
            db.channels,
        ),
        ..db
    }
}

fn knows_name(aliases: &Vec<AliasRow<String>>, alias_type: &str, alias: &str) -> (r: bool)
    ensures
        r == has_alias_row(aliases.deep_view(), alias_type@, alias@),
{
    let ghost rows = aliases.deep_view();
    let mut i: usize = 0;
    while i < aliases.len()
        invariant
            i <= aliases@.len(),
            rows == aliases.deep_view(),
            forall|j: int| 0 <= j < i ==> !is_alias_row(#[trigger] rows[j], alias_type@, alias@),
        decreases aliases@.len() - i,
    {
        if same_text(aliases[i].alias_type.as_str(), alias_type) && same_text(
            aliases[i].alias.as_str(),
            alias,
        ) {
            assert(is_alias_row(rows[i as int], alias_type@, alias@));
            return true;
        }
        i = i + 1;
    }
    false
}

fn add_old_name(
    aliases: &mut Vec<AliasRow<String>>,
    alias_type: &str,
    alias: Option<String>,
    channel: &ChannelRow<String>,
)
    ensures
        final(aliases).deep_view() == with_old_name(
            old(aliases).deep_view(),
            alias_type@,
            alias.deep_view(),
            channel.deep_view(),
        ),
{
    let ghost before = aliases.deep_view();
    if let Some(alias) = alias {
        if !knows_name(aliases, alias_type, alias.as_str()) {
            let row = AliasRow {
                alias_type: alias_type.to_owned(),
                alias,
                channel_key: channel.channel_key.clone(),
                first_seen: channel.first_seen,
                last_seen: channel.last_seen,
            };
            aliases.push(row);
            assert(aliases.deep_view() =~= before.push(row.deep_view()));
        }
    }
}

fn add_old_names(
    aliases: &mut Vec<AliasRow<String>>,
    kind: NameKind,
    channels: &Vec<ChannelRow<String>>,
)
    ensures
        final(aliases).deep_view() == with_old_names(
            old(aliases).deep_view(),
            kind,
            channels.deep_view(),
        ),
{
    let ghost before = aliases.deep_view();
    let ghost rows = channels.deep_view();
    let mut i: usize = 0;
    assert(rows.take(0) =~= seq![]);
    while i < channels.len()
        invariant
            i <= channels@.len(),
            rows == channels.deep_view(),
            aliases.deep_view() == with_old_names(before, kind, rows.take(i as int)),
        decreases channels@.len() - i,
    {
        assert(rows.take(i + 1).drop_last() =~= rows.take(i as int));
        let channel = &channels[i];
        assert(channel.deep_view() == rows[i as int]);
        match kind {
            NameKind::Identity => {
                add_old_name(aliases, "identity", Some(channel.channel_key.clone()), channel);
            },
            NameKind::ChannelId => {
                add_old_name(aliases, "channel_id", copy_text(&channel.channel_id), channel);
            },
            NameKind::ShortChannelId => {
                add_old_name(
                    aliases,
                    "short_channel_id",
                    copy_text(&channel.short_channel_id),
                    channel,
                );
            },
        }
        i = i + 1;
    }
    assert(rows.take(i as int) =~= rows);
}

/// Reads the version that a database was written with.
pub fn schema_version(text: &str) -> (r: Option<u64>)
    ensures
        r == spelled_number(text@),
{
    parse_number(text)
}

/// What comes of a database of that version: an error, or the history in the current form. A database
/// without a version is new, or from before versions were written.
pub open spec fn migrated(db: DbView, version: Option<u64>) -> Result<DbView, HistoryError> {
    match version {
        None => Ok(with_channel_names(db)),
        Some(version) => if version == SCHEMA_VERSION {
            Ok(db)
        } else if version == 1 {
            Ok(with_channel_names(db))
        } else if 2 <= version < SCHEMA_VERSION {
            Ok(db)
        } else if version > SCHEMA_VERSION {
            Err(HistoryError::NewerSchema(version))
        } else {
            Err(HistoryError::UnknownSchema(version))
        },
    }
}

impl HistoryDb {
    /// An empty history that keeps rows for that many days.
    pub fn open(retention_days: u64) -> (r: HistoryDb)
        ensures
            r@ == empty_history(retention_days),
            sound(r@),
    {
        let r = HistoryDb {
            channels: Vec::new(),
            samples: Vec::new(),
            events: Vec::new(),
            buckets: Vec::new(),
            runs: Vec::new(),
            aliases: Vec::new(),
            probes: Vec::new(),
            hops: Vec::new(),
            last_sample_id: 0,
            last_event_id: 0,
            last_probe_id: 0,
            retention_seconds: multiply_capped(retention_days, DAY_SECONDS),
        };
        assert(r@ =~= empty_history(retention_days));
        r
    }

    /// Brings the rows of a database of an older version up to date.
    pub fn migrate(&mut self, version: Option<u64>) -> (r: Result<(), HistoryError>)
        ensures
            match migrated(old(self)@, version) {
                Ok(after) => r is Ok && final(self)@ == after,
                Err(error) => r == Err::<(), HistoryError>(error) && final(self)@ == old(self)@,
            },
            sound(old(self)@) ==> sound(final(self)@),
    {
        proof {
            if sound(self@) {
                law_migration_keeps_the_tables_sound(self@, version);
            }
        }
        let backfill = match version {
            None => true,
            Some(version) => {
                if version > SCHEMA_VERSION {
                    return Err(HistoryError::NewerSchema(version));
                }
                if version == 0 {
                    return Err(HistoryError::UnknownSchema(version));
                }
                version == 1
            },
        };
        if backfill {
            add_old_names(&mut self.aliases, NameKind::Identity, &self.channels);
            add_old_names(&mut self.aliases, NameKind::ChannelId, &self.channels);
            add_old_names(&mut self.aliases, NameKind::ShortChannelId, &self.channels);
            assert(self@ =~= with_channel_names(old(self)@));
        }
        Ok(())
    }
}

/// Counted forwards from before failures were told apart.
#[derive(Debug)]
pub struct OldBucket<T> {
    pub bucket_start: u64,
    pub in_channel: T,
    pub out_channel: T,
    pub status: T,
    pub forward_count: u128,
    pub in_msat: u128,
    pub out_msat: u128,
    pub fee_msat: u128,
}

impl OldBucket<String> {
    /// The forwards in the current form, without a failure.
    pub fn upgrade(self) -> (r: BucketRow<String>)
        ensures
            r.deep_view() == (BucketRow {
                bucket_start: self.bucket_start,
                in_channel: self.in_channel@,
                out_channel: self.out_channel@,
                status: self.status@,
                failcode: 0,
                failreason: Seq::<char>::empty(),
                forward_count: self.forward_count,
                in_msat: self.in_msat,
                out_msat: self.out_msat,
                fee_msat: self.fee_msat,
            }),
    {
        BucketRow {
            bucket_start: self.bucket_start,
            in_channel: self.in_channel,
            out_channel: self.out_channel,
            status: self.status,
            failcode: 0,
            failreason: String::new(),
            forward_count: self.forward_count,
            in_msat: self.in_msat,
            out_msat: self.out_msat,
            fee_msat: self.fee_msat,
        }
    }
}

/// A recorded state from before HTLC details and policies were recorded.
#[derive(Debug)]
pub struct OldSample<T> {
    pub id: u64,
    pub ts: u64,
    pub channel_key: T,
    pub channel_id: Option<T>,
    pub short_channel_id: Option<T>,
    pub peer_id: T,
    pub state: T,
    pub connected: bool,
    pub reestablished: bool,
    pub capacity_msat: u64,
    pub to_us_msat: u64,
    pub spendable_msat: u64,
    pub receivable_msat: u64,
    pub htlc_in_count: u64,
    pub htlc_out_count: u64,
    pub htlc_in_msat: u64,
    pub htlc_out_msat: u64,
}

impl OldSample<String> {
    /// The state in the current form: what was not recorded is unknown or none.
    pub fn upgrade(self) -> (r: SampleRow)
        ensures
            r.deep_view() == (SampleRowView {
                id: self.id,
                ts: self.ts,
                sample: SampleView {
                    channel_key: self.channel_key@,
                    channel_id: self.channel_id.deep_view(),
                    short_channel_id: self.short_channel_id.deep_view(),
                    peer_id: self.peer_id@,
                    state: self.state@,
                    connected: self.connected,
                    reestablished: self.reestablished,
                    capacity_msat: self.capacity_msat,
                    to_us_msat: self.to_us_msat,
                    spendable_msat: self.spendable_msat,
                    receivable_msat: self.receivable_msat,
                    htlc_in_count: self.htlc_in_count,
                    htlc_out_count: self.htlc_out_count,
                    htlc_in_msat: self.htlc_in_msat,
                    htlc_out_msat: self.htlc_out_msat,
                    blockheight: None,
                    htlc_min_expiry: None,
                    htlc_max_expiry: None,
                    htlc_hooked_count: 0,
                    htlc_trimmed_count: 0,
                    max_accepted_htlcs: None,
                    local_policy: no_policy(),
                    remote_policy: no_policy(),
                },
            }),
    {
        SampleRow {
            id: self.id,
            ts: self.ts,
            sample: ChannelSample {
                channel_key: self.channel_key,
                aliases: Vec::new(),
                channel_id: self.channel_id,
                short_channel_id: self.short_channel_id,
                peer_id: self.peer_id,
                state: self.state,
                connected: self.connected,
                reestablished: self.reestablished,
                capacity_msat: self.capacity_msat,
                to_us_msat: self.to_us_msat,
                spendable_msat: self.spendable_msat,
                receivable_msat: self.receivable_msat,
                htlc_in_count: self.htlc_in_count,
                htlc_out_count: self.htlc_out_count,
                htlc_in_msat: self.htlc_in_msat,
                htlc_out_msat: self.htlc_out_msat,
                blockheight: None,
                htlc_min_expiry: None,
                htlc_max_expiry: None,
                htlc_hooked_count: 0,
                htlc_trimmed_count: 0,
                max_accepted_htlcs: None,
                local_policy: ChannelPolicy::default(),
                remote_policy: ChannelPolicy::default(),
            },
        }
    }
}

/// An event from before connections were recorded.
#[derive(Debug)]
pub struct OldEvent<T> {
    pub id: u64,
    pub ts: u64,
    pub event_type: T,
    pub channel_key: Option<T>,
    pub channel_id: Option<T>,
    pub short_channel_id: Option<T>,
    pub peer_id: Option<T>,
    pub old_state: Option<T>,
    pub new_state: Option<T>,
    pub cause: Option<T>,
}

impl OldEvent<String> {
    /// The event in the current form, without a direction and a reason.
    pub fn upgrade(self) -> (r: EventRow<String>)
        ensures
            r.deep_view() == (EventRow {
                id: self.id,
                ts: self.ts,
                event_type: self.event_type@,
                channel_key: self.channel_key.deep_view(),
                channel_id: self.channel_id.deep_view(),
                short_channel_id: self.short_channel_id.deep_view(),
                peer_id: self.peer_id.deep_view(),
                old_state: self.old_state.deep_view(),
                new_state: self.new_state.deep_view(),
                cause: self.cause.deep_view(),
                direction: None,
                reason: None,
            }),
    {
        EventRow {
            id: self.id,
            ts: self.ts,
            event_type: self.event_type,
            channel_key: self.channel_key,
            channel_id: self.channel_id,
            short_channel_id: self.short_channel_id,
            peer_id: self.peer_id,
            old_state: self.old_state,
            new_state: self.new_state,
            cause: self.cause,
            direction: None,
            reason: None,
        }
    }
}

/// When the first successful attempt was.
pub open spec fn oldest_success(runs: Seq<RunRow<Seq<char>>>) -> Option<u64>
    decreases runs.len(),
{
    if runs.len() == 0 {
        None
    } else if runs.last().success {
        lowered(oldest_success(runs.drop_last()), Some(runs.last().ts))
    } else {
        oldest_success(runs.drop_last())
    }
}

/// When the last successful attempt was.
pub open spec fn newest_success(runs: Seq<RunRow<Seq<char>>>) -> Option<u64>
    decreases runs.len(),
{
    if runs.len() == 0 {
        None
    } else if runs.last().success {
        heightened(newest_success(runs.drop_last()), Some(runs.last().ts))
    } else {
        newest_success(runs.drop_last())
    }
}

/// The last attempt.
pub open spec fn last_run(runs: Seq<RunRow<Seq<char>>>) -> Option<RunRow<Seq<char>>>
    decreases runs.len(),
{
    if runs.len() == 0 {
        None
    } else {
        match last_run(runs.drop_last()) {
            Some(last) => if runs.last().ts > last.ts {
                Some(runs.last())
            } else {
                Some(last)
            },
            None => Some(runs.last()),
        }
    }
}

/// How many rows are of that kind.
pub open spec fn count_of<T>(rows: Seq<T>, wanted: spec_fn(T) -> bool) -> int
    decreases rows.len(),
{
    if rows.len() == 0 {
        0
    } else {
        count_of(rows.drop_last(), wanted) + if wanted(rows.last()) {
            1int
        } else {
            0
        }
    }
}

/// Which events are of connections.
pub open spec fn of_connections() -> spec_fn(EventRow<Seq<char>>) -> bool {
    |row: EventRow<Seq<char>>| row.event_type == "connect"@ || row.event_type == "disconnect"@
}

/// Which probes ended like that.
pub open spec fn of_status(status: Seq<char>) -> spec_fn(ProbeRow<Seq<char>>) -> bool {
    |row: ProbeRow<Seq<char>>| row.status == status
}

/// Which channels are gone.
pub open spec fn of_gone_channels() -> spec_fn(ChannelRow<Seq<char>>) -> bool {
    |row: ChannelRow<Seq<char>>| row.disappeared_at is Some
}

/// Which attempts failed.
pub open spec fn of_failures() -> spec_fn(RunRow<Seq<char>>) -> bool {
    |row: RunRow<Seq<char>>| !row.success
}

/// How many rows there are.
#[derive(Clone, Copy, Debug)]
pub struct Counts {
    pub channels: u64,
    pub gone_channels: u64,
    pub channel_samples: u64,
    pub channel_events: u64,
    pub peer_connection_events: u64,
    pub forward_pair_buckets: u64,
    pub probe_events: u64,
    pub successful_probe_events: u64,
    pub failed_probe_events: u64,
    pub channel_aliases: u64,
    pub collector_runs: u64,
    pub failed_runs: u64,
}

/// Whether the counts are those of the history.
pub open spec fn counts_rows(counts: Counts, db: DbView) -> bool {
    &&& counts.channels == db.channels.len()
    &&& counts.gone_channels == count_of(db.channels, of_gone_channels())
    &&& counts.channel_samples == db.samples.len()
    &&& counts.channel_events == db.events.len()
    &&& counts.peer_connection_events == count_of(db.events, of_connections())
    &&& counts.forward_pair_buckets == db.buckets.len()
    &&& counts.probe_events == db.probes.len()
    &&& counts.successful_probe_events == count_of(
        db.probes,
        of_status("destination_reached"@),
    )
    &&& counts.failed_probe_events == count_of(db.probes, of_status("route_failed"@))
    &&& counts.channel_aliases == db.aliases.len()
    &&& counts.collector_runs == db.runs.len()
    &&& counts.failed_runs == count_of(db.runs, of_failures())
    &&& counts.gone_channels <= counts.channels
}

/// How the history stands.
#[derive(Debug)]
pub struct Status {
    pub schema_version: u64,
    pub retention_days: u64,
    pub checkpoint_seconds: u64,
    pub forward_bucket_seconds: u64,
    pub oldest: Option<u64>,
    pub newest: Option<u64>,
    pub last_collection: Option<RunRow<String>>,
    pub counts: Counts,
}

fn count_connections(events: &Vec<EventRow<String>>) -> (r: u64)
    ensures
        r == count_of(events.deep_view(), of_connections()),
{
    let ghost rows = events.deep_view();
    let mut count: u64 = 0;
    let mut i: usize = 0;
    assert(rows.take(0) =~= seq![]);
    while i < events.len()
        invariant
            i <= events@.len(),
            rows == events.deep_view(),
            count == count_of(rows.take(i as int), of_connections()),
            count <= i,
        decreases events@.len() - i,
    {
        assert(rows.take(i + 1).drop_last() =~= rows.take(i as int));
        assert(events@[i as int].deep_view() == rows[i as int]);
        if same_text(events[i].event_type.as_str(), "connect") || same_text(
            events[i].event_type.as_str(),
            "disconnect",
        ) {
            count = count + 1;
        }
        i = i + 1;
    }
    assert(rows.take(i as int) =~= rows);
    count
}

fn count_probes(probes: &Vec<ProbeRow<String>>, status: &str) -> (r: u64)
    ensures
        r == count_of(probes.deep_view(), of_status(status@)),
{
    let ghost rows = probes.deep_view();
    let mut count: u64 = 0;
    let mut i: usize = 0;
    assert(rows.take(0) =~= seq![]);
    while i < probes.len()
        invariant
            i <= probes@.len(),
            rows == probes.deep_view(),
            count == count_of(rows.take(i as int), of_status(status@)),
            count <= i,
        decreases probes@.len() - i,
    {
        assert(rows.take(i + 1).drop_last() =~= rows.take(i as int));
        assert(probes@[i as int].deep_view() == rows[i as int]);
        if same_text(probes[i].status.as_str(), status) {
            count = count + 1;
        }
        i = i + 1;
    }
    assert(rows.take(i as int) =~= rows);
    count
}

fn count_gone(channels: &Vec<ChannelRow<String>>) -> (r: u64)
    ensures
        r == count_of(channels.deep_view(), of_gone_channels()),
        r <= channels@.len(),
{
    let ghost rows = channels.deep_view();
    let mut count: u64 = 0;
    let mut i: usize = 0;
    assert(rows.take(0) =~= seq![]);
    while i < channels.len()
        invariant
            i <= channels@.len(),
            rows == channels.deep_view(),
            count == count_of(rows.take(i as int), of_gone_channels()),
            count <= i,
        decreases channels@.len() - i,
    {
        assert(rows.take(i + 1).drop_last() =~= rows.take(i as int));
        assert(channels@[i as int].deep_view() == rows[i as int]);
        if channels[i].disappeared_at.is_some() {
            count = count + 1;
        }
        i = i + 1;
    }
    assert(rows.take(i as int) =~= rows);
    count
}

fn count_failures(runs: &Vec<RunRow<String>>) -> (r: u64)
    ensures
        r == count_of(runs.deep_view(), of_failures()),
{
    let ghost rows = runs.deep_view();
    let mut count: u64 = 0;
    let mut i: usize = 0;
    assert(rows.take(0) =~= seq![]);
    while i < runs.len()
        invariant
            i <= runs@.len(),
            rows == runs.deep_view(),
            count == count_of(rows.take(i as int), of_failures()),
            count <= i,
        decreases runs@.len() - i,
    {
        assert(rows.take(i + 1).drop_last() =~= rows.take(i as int));
        assert(runs@[i as int].deep_view() == rows[i as int]);
        if !runs[i].success {
            count = count + 1;
        }
        i = i + 1;
    }
    assert(rows.take(i as int) =~= rows);
    count
}

fn success_span(runs: &Vec<RunRow<String>>) -> (r: (Option<u64>, Option<u64>))
    ensures
        r.0 == oldest_success(runs.deep_view()),
        r.1 == newest_success(runs.deep_view()),
{
    let ghost rows = runs.deep_view();
    let mut oldest: Option<u64> = None;
    let mut newest: Option<u64> = None;
    let mut i: usize = 0;
    assert(rows.take(0) =~= seq![]);
    while i < runs.len()
        invariant
            i <= runs@.len(),
            rows == runs.deep_view(),
            oldest == oldest_success(rows.take(i as int)),
            newest == newest_success(rows.take(i as int)),
        decreases runs@.len() - i,
    {
        assert(rows.take(i + 1).drop_last() =~= rows.take(i as int));
        assert(runs@[i as int].deep_view() == rows[i as int]);
        if runs[i].success {
            let ts: u64 = runs[i].ts;
            oldest = match oldest {
                Some(current) => if ts < current {
                    Some(ts)
                } else {
                    Some(current)
                },
                None => Some(ts),
            };
            newest = match newest {
                Some(current) => if ts > current {
                    Some(ts)
                } else {
                    Some(current)
                },
                None => Some(ts),
            };
        }
        i = i + 1;
    }
    assert(rows.take(i as int) =~= rows);
    (oldest, newest)
}

fn find_last_run(runs: &Vec<RunRow<String>>) -> (r: Option<RunRow<String>>)
    ensures
        r.deep_view() == last_run(runs.deep_view()),
{
    let ghost rows = runs.deep_view();
    let mut last: Option<usize> = None;
    let mut i: usize = 0;
    assert(rows.take(0) =~= seq![]);
    while i < runs.len()
        invariant
            i <= runs@.len(),
            rows == runs.deep_view(),
            match last {
                Some(at) => at < i && last_run(rows.take(i as int)) == Some(rows[at as int]),
                None => last_run(rows.take(i as int)) is None,
            },
        decreases runs@.len() - i,
    {
        assert(rows.take(i + 1).drop_last() =~= rows.take(i as int));
        assert(runs@[i as int].deep_view() == rows[i as int]);
        let later = match last {
            Some(at) => runs[i].ts > runs[at].ts,
            None => true,
        };
        if later {
            last = Some(i);
        }
        i = i + 1;
    }
    assert(rows.take(i as int) =~= rows);
    match last {
        Some(at) => Some(runs[at].clone()),
        None => None,
    }
}

impl HistoryDb {
    fn counts(&self) -> (r: Counts)
        ensures
            counts_rows(r, self@),
    {
        Counts {
            channels: self.channels.len() as u64,
            gone_channels: count_gone(&self.channels),
            channel_samples: self.samples.len() as u64,
            channel_events: self.events.len() as u64,
            peer_connection_events: count_connections(&self.events),
            forward_pair_buckets: self.buckets.len() as u64,
            probe_events: self.probes.len() as u64,
            successful_probe_events: count_probes(&self.probes, "destination_reached"),
            failed_probe_events: count_probes(&self.probes, "route_failed"),
            channel_aliases: self.aliases.len() as u64,
            collector_runs: self.runs.len() as u64,
            failed_runs: count_failures(&self.runs),
        }
    }

    /// How the history stands: how far back it goes, how the last attempt went, and how much there is.
    pub fn status(&self) -> (r: Status)
        ensures
            r.schema_version == SCHEMA_VERSION,
            r.retention_days == self.retention_seconds / DAY_SECONDS,
            r.checkpoint_seconds == CHECKPOINT_SECONDS,
            r.forward_bucket_seconds == FORWARD_BUCKET_SECONDS,
            r.oldest == oldest_success(self@.runs),
            r.newest == newest_success(self@.runs),
            r.last_collection.deep_view() == last_run(self@.runs),
            counts_rows(r.counts, self@),
    {
        let (oldest, newest) = success_span(&self.runs);
        Status {
            schema_version: SCHEMA_VERSION,
            retention_days: self.retention_seconds / DAY_SECONDS,
            checkpoint_seconds: CHECKPOINT_SECONDS,
            forward_bucket_seconds: FORWARD_BUCKET_SECONDS,
            oldest,
            newest,
            last_collection: find_last_run(&self.runs),
            counts: self.counts(),
        }
    }
}

/// What the database takes on disk.
#[derive(Clone, Copy, Debug)]
pub struct Storage {
    pub database_bytes: u64,
    pub wal_bytes: u64,
    pub storage_bytes: u64,
    pub page_count: u64,
    pub freelist_count: u64,
}

/// A metric with one value.
pub struct Gauge {
    pub name: Seq<char>,
    pub help: Seq<char>,
    pub value: int,
}

/// The integer that a number is.
pub open spec fn integer_of(n: JsonNumber) -> Option<int> {
    match n {
        JsonNumber::Unsigned(n) => Some(n as int),
        JsonNumber::Negative(n) => Some(n as int),
        JsonNumber::Float(_) => None,
    }
}

/// Whether a family is the metric.
pub open spec fn is_gauge(family: Family, gauge: Gauge) -> bool {
    &&& family.name@ == gauge.name
    &&& family.help@ == gauge.help
    &&& family.kind == MetricType::Gauge
    &&& family.samples@.len() == 1
    &&& family.samples@[0].labels@.len() == 0
    &&& integer_of(family.samples@[0].value) == Some(gauge.value)
}

/// When the last successful attempt was, or 0.
pub open spec fn last_success(db: DbView) -> int {
    match newest_success(db.runs) {
        Some(ts) => ts as int,
        None => 0,
    }
}

/// How long ago the last successful attempt was, or 0 where there was none.
pub open spec fn collection_age(db: DbView, now: u64) -> int {
    if last_success(db) <= 0 {
        0
    } else if now - last_success(db) < i64::MIN {
        i64::MIN as int
    } else {
        now - last_success(db)
    }
}

/// How much time the successful attempts span.
pub open spec fn coverage(db: DbView) -> int {
    match (oldest_success(db.runs), newest_success(db.runs)) {
        (Some(oldest), Some(newest)) => newest - oldest,
        _ => 0,
    }
}

/// The metrics about storage and rows.
pub open spec fn row_gauges(db: DbView, storage: Storage) -> Seq<Gauge> {
    let gone = count_of(db.channels, of_gone_channels());
    seq![
        Gauge {
            name: "database_bytes"@,
            help: "Size of the main cln-history SQLite database file in bytes."@,
            value: storage.database_bytes as int,
        },
        Gauge {
            name: "wal_bytes"@,
            help: "Size of the cln-history SQLite write-ahead log in bytes."@,
            value: storage.wal_bytes as int,
        },
        Gauge {
            name: "storage_bytes"@,
            help: "Total cln-history SQLite database, WAL, and shared-memory disk usage in bytes."@,
            value: storage.storage_bytes as int,
        },
        Gauge {
            name: "database_pages"@,
            help: "Number of pages in the cln-history SQLite database."@,
            value: storage.page_count as int,
        },
        Gauge {
            name: "database_freelist_pages"@,
            help: "Number of unused pages in the cln-history SQLite database."@,
            value: storage.freelist_count as int,
        },
        Gauge {
            name: "schema_version"@,
            help: "Current cln-history SQLite schema version."@,
            value: SCHEMA_VERSION as int,
        },
        Gauge {
            name: "channels"@,
            help: "Number of channels known to cln-history."@,
            value: db.channels.len() as int,
        },
        Gauge {
            name: "active_channels"@,
            help: "Number of channels present in the latest cln-history snapshot."@,
            value: db.channels.len() - gone,
        },
        Gauge {
            name: "disappeared_channels"@,
            help: "Number of historical channels absent from the latest cln-history snapshot."@,
            value: gone,
        },
        Gauge {
            name: "channel_samples"@,
            help: "Number of retained channel liquidity change points and checkpoints."@,
            value: db.samples.len() as int,
        },
        Gauge {
            name: "channel_events"@,
            help: "Number of retained channel lifecycle and state events."@,
            value: db.events.len() as int,
        },
        Gauge {
            name: "peer_connection_events"@,
            help: "Number of retained exact peer connect and disconnect notifications."@,
            value: count_of(db.events, of_connections()),
        },
        Gauge {
            name: "forward_pair_buckets"@,
            help: "Number of retained forwarding channel-pair buckets."@,
            value: db.buckets.len() as int,
        },
    ]
}

/// The metrics about probes, names and attempts.
pub open spec fn run_gauges(db: DbView, now: u64) -> Seq<Gauge> {
    seq![
        Gauge {
            name: "probe_events"@,
            help: "Number of retained terminal route-liquidity probe observations."@,
            value: db.probes.len() as int,
        },
        Gauge {
            name: "successful_probe_events"@,
            help: "Number of retained probes which reached their destination and failed safely there."@,
            value: count_of(db.probes, of_status("destination_reached"@)),
        },
        Gauge {
            name: "failed_probe_events"@,
            help: "Number of retained probes which failed before reaching their destination."@,
            value: count_of(db.probes, of_status("route_failed"@)),
        },
        Gauge {
            name: "channel_aliases"@,
            help: "Number of durable channel identifier aliases known to cln-history."@,
            value: db.aliases.len() as int,
        },
        Gauge {
            name: "collector_runs"@,
            help: "Number of retained cln-history collection attempts."@,
            value: db.runs.len() as int,
        },
        Gauge {
            name: "retained_collection_failures"@,
            help: "Number of failed collection attempts in the retention window."@,
            value: count_of(db.runs, of_failures()),
        },
        Gauge {
            name: "collection_success"@,
            help: "Whether the most recent cln-history collection attempt succeeded."@,
            value: match last_run(db.runs) {
                Some(run) => if run.success {
                    1
                } else {
                    0
                },
                None => 0,
            },
        },
        Gauge {
            name: "last_collection_timestamp_seconds"@,
            help: "Unix timestamp of the most recent cln-history collection attempt."@,
            value: match last_run(db.runs) {
                Some(run) => run.ts as int,
                None => 0,
            },
        },
        Gauge {
            name: "last_successful_collection_timestamp_seconds"@,
            help: "Unix timestamp of the most recent successful cln-history collection."@,
            value: last_success(db),
        },
        Gauge {
            name: "last_successful_collection_age_seconds"@,
            help: "Age of the most recent successful cln-history collection in seconds."@,
            value: collection_age(db, now),
        },
        Gauge {
            name: "history_coverage_seconds"@,
            help: "Elapsed time covered by retained successful cln-history collections."@,
            value: coverage(db),
        },
        Gauge {
            name: "retention_seconds"@,
            help: "Configured cln-history retention window in seconds."@,
            value: db.retention_seconds as int,
        },
    ]
}

/// The metrics of the history.
pub open spec fn gauges_of(db: DbView, storage: Storage, now: u64) -> Seq<Gauge> {
    row_gauges(db, storage) + run_gauges(db, now)
}

/// Whether the families are the metrics, one by one.
pub open spec fn are_gauges(families: Seq<Family>, gauges: Seq<Gauge>) -> bool {
    &&& families.len() == gauges.len()
    &&& forall|i: int|
        0 <= i < families.len() ==> is_gauge(#[trigger] families[i], gauges[i])
}

fn number(value: i128) -> (r: JsonNumber)
    requires
        i64::MIN <= value <= u64::MAX,
    ensures
        integer_of(r) == Some(value as int),
{
    if value < 0 {
        JsonNumber::Negative(value as i64)
    } else {
        JsonNumber::Unsigned(value as u64)
    }
}

fn push_gauge(
    families: &mut Vec<Family>,
    name: &str,
    help: &str,
    value: i128,
    Ghost(before): Ghost<Seq<Gauge>>,
)
    requires
        i64::MIN <= value <= u64::MAX,
        are_gauges(old(families)@, before),
    ensures
        are_gauges(
            final(families)@,
            before.push(Gauge { name: name@, help: help@, value: value as int }),
        ),
{
    let mut samples: Vec<Sample> = Vec::new();
    samples.push(Sample { labels: OrderedMap::new(), value: number(value) });
    families.push(
        Family { name: name.to_owned(), help: help.to_owned(), kind: MetricType::Gauge, samples },
    );
    proof {
        let after = before.push(Gauge { name: name@, help: help@, value: value as int });
        assert forall|i: int| 0 <= i < families@.len() implies is_gauge(
            #[trigger] families@[i],
            after[i],
        ) by {
            if i < before.len() {
                assert(is_gauge(old(families)@[i], before[i]));
            }
        }
    }
}

impl HistoryDb {
    fn push_row_gauges(
        &self,
        families: &mut Vec<Family>,
        storage: &Storage,
        counts: &Counts,
        Ghost(before): Ghost<Seq<Gauge>>,
    )
        requires
            are_gauges(old(families)@, before),
            counts_rows(*counts, self@),
        ensures
            are_gauges(final(families)@, before + row_gauges(self@, *storage)),
    {
        let ghost all = row_gauges(self@, *storage);
        assert(before + all.take(0) =~= before);
        push_gauge(
            families,
            "database_bytes",
            "Size of the main cln-history SQLite database file in bytes.",
            storage.database_bytes as i128,
            Ghost(before + all.take(0)),
        );
        assert((before + all.take(0)).push(all[0]) =~= before + all.take(1));
        push_gauge(
            families,
            "wal_bytes",
            "Size of the cln-history SQLite write-ahead log in bytes.",
            storage.wal_bytes as i128,
            Ghost(before + all.take(1)),
        );
        assert((before + all.take(1)).push(all[1]) =~= before + all.take(2));
        push_gauge(
            families,
            "storage_bytes",
            "Total cln-history SQLite database, WAL, and shared-memory disk usage in bytes.",
            storage.storage_bytes as i128,
            Ghost(before + all.take(2)),
        );
        assert((before + all.take(2)).push(all[2]) =~= before + all.take(3));
        push_gauge(
            families,
            "database_pages",
            "Number of pages in the cln-history SQLite database.",
            storage.page_count as i128,
            Ghost(before + all.take(3)),
        );
        assert((before + all.take(3)).push(all[3]) =~= before + all.take(4));
        push_gauge(
            families,
            "database_freelist_pages",
            "Number of unused pages in the cln-history SQLite database.",
            storage.freelist_count as i128,
            Ghost(before + all.take(4)),
        );
        assert((before + all.take(4)).push(all[4]) =~= before + all.take(5));
        push_gauge(
            families,
            "schema_version",
            "Current cln-history SQLite schema version.",
            SCHEMA_VERSION as i128,
            Ghost(before + all.take(5)),
        );
        assert((before + all.take(5)).push(all[5]) =~= before + all.take(6));
        push_gauge(
            families,
            "channels",
            "Number of channels known to cln-history.",
            counts.channels as i128,
            Ghost(before + all.take(6)),
        );
        assert((before + all.take(6)).push(all[6]) =~= before + all.take(7));
        push_gauge(
            families,
            "active_channels",
            "Number of channels present in the latest cln-history snapshot.",
            counts.channels as i128 - counts.gone_channels as i128,
            Ghost(before + all.take(7)),
        );
        assert((before + all.take(7)).push(all[7]) =~= before + all.take(8));
        push_gauge(
            families,
            "disappeared_channels",
            "Number of historical channels absent from the latest cln-history snapshot.",
            counts.gone_channels as i128,
            Ghost(before + all.take(8)),
        );
        assert((before + all.take(8)).push(all[8]) =~= before + all.take(9));
        push_gauge(
            families,
            "channel_samples",
            "Number of retained channel liquidity change points and checkpoints.",
            counts.channel_samples as i128,
            Ghost(before + all.take(9)),
        );
        assert((before + all.take(9)).push(all[9]) =~= before + all.take(10));
        push_gauge(
            families,
            "channel_events",
            "Number of retained channel lifecycle and state events.",
            counts.channel_events as i128,
            Ghost(before + all.take(10)),
        );
        assert((before + all.take(10)).push(all[10]) =~= before + all.take(11));
        push_gauge(
            families,
            "peer_connection_events",
            "Number of retained exact peer connect and disconnect notifications.",
            counts.peer_connection_events as i128,
            Ghost(before + all.take(11)),
        );
        assert((before + all.take(11)).push(all[11]) =~= before + all.take(12));
        push_gauge(
            families,
            "forward_pair_buckets",
            "Number of retained forwarding channel-pair buckets.",
            counts.forward_pair_buckets as i128,
            Ghost(before + all.take(12)),
        );
        assert((before + all.take(12)).push(all[12]) =~= before + all.take(13));
        assert(all.take(13) =~= all);
    }

    fn push_run_gauges(
        &self,
        families: &mut Vec<Family>,
        counts: &Counts,
        now: u64,
        Ghost(before): Ghost<Seq<Gauge>>,
    )
        requires
            are_gauges(old(families)@, before),
            counts_rows(*counts, self@),
        ensures
            are_gauges(final(families)@, before + run_gauges(self@, now)),
    {
        let ghost all = run_gauges(self@, now);
        let (oldest, newest) = success_span(&self.runs);
        let last = find_last_run(&self.runs);
        let last_success: u64 = match newest {
            Some(ts) => ts,
            None => 0,
        };
        let difference: i128 = now as i128 - last_success as i128;
        let age: i128 = if last_success == 0 {
            0
        } else if difference < i64::MIN as i128 {
            i64::MIN as i128
        } else {
            difference
        };
        let covered: i128 = match (oldest, newest) {
            (Some(oldest), Some(newest)) => newest as i128 - oldest as i128,
            _ => 0,
        };
        let (success, last_collection): (i128, u64) = match &last {
            Some(run) => (
                if run.success {
                    1
                } else {
                    0
                },
                run.ts,
            ),
            None => (0, 0),
        };
        proof {
            lemma_span(self@.runs);
        }
        assert(before + all.take(0) =~= before);
        push_gauge(
            families,
            "probe_events",
            "Number of retained terminal route-liquidity probe observations.",
            counts.probe_events as i128,
            Ghost(before + all.take(0)),
        );
        assert((before + all.take(0)).push(all[0]) =~= before + all.take(1));
        push_gauge(
            families,
            "successful_probe_events",
            "Number of retained probes which reached their destination and failed safely there.",
            counts.successful_probe_events as i128,
            Ghost(before + all.take(1)),
        );
        assert((before + all.take(1)).push(all[1]) =~= before + all.take(2));
        push_gauge(
            families,
            "failed_probe_events",
            "Number of retained probes which failed before reaching their destination.",
            counts.failed_probe_events as i128,
            Ghost(before + all.take(2)),
        );
        assert((before + all.take(2)).push(all[2]) =~= before + all.take(3));
        push_gauge(
            families,
            "channel_aliases",
            "Number of durable channel identifier aliases known to cln-history.",
            counts.channel_aliases as i128,
            Ghost(before + all.take(3)),
        );
        assert((before + all.take(3)).push(all[3]) =~= before + all.take(4));
        push_gauge(
            families,
            "collector_runs",
            "Number of retained cln-history collection attempts.",
            counts.collector_runs as i128,
            Ghost(before + all.take(4)),
        );
        assert((before + all.take(4)).push(all[4]) =~= before + all.take(5));
        push_gauge(
            families,
            "retained_collection_failures",
            "Number of failed collection attempts in the retention window.",
            counts.failed_runs as i128,
            Ghost(before + all.take(5)),
        );
        assert((before + all.take(5)).push(all[5]) =~= before + all.take(6));
        push_gauge(
            families,
            "collection_success",
            "Whether the most recent cln-history collection attempt succeeded.",
            success,
            Ghost(before + all.take(6)),
        );
        assert((before + all.take(6)).push(all[6]) =~= before + all.take(7));
        push_gauge(
            families,
            "last_collection_timestamp_seconds",
            "Unix timestamp of the most recent cln-history collection attempt.",
            last_collection as i128,
            Ghost(before + all.take(7)),
        );
        assert((before + all.take(7)).push(all[7]) =~= before + all.take(8));
        push_gauge(
            families,
            "last_successful_collection_timestamp_seconds",
            "Unix timestamp of the most recent successful cln-history collection.",
            last_success as i128,
            Ghost(before + all.take(8)),
        );
        assert((before + all.take(8)).push(all[8]) =~= before + all.take(9));
        push_gauge(
            families,
            "last_successful_collection_age_seconds",
            "Age of the most recent successful cln-history collection in seconds.",
            age,
            Ghost(before + all.take(9)),
        );
        assert((before + all.take(9)).push(all[9]) =~= before + all.take(10));
        push_gauge(
            families,
            "history_coverage_seconds",
            "Elapsed time covered by retained successful cln-history collections.",
            covered,
            Ghost(before + all.take(10)),
        );
        assert((before + all.take(10)).push(all[10]) =~= before + all.take(11));
        push_gauge(
            families,
            "retention_seconds",
            "Configured cln-history retention window in seconds.",
            self.retention_seconds as i128,
            Ghost(before + all.take(11)),
        );
        assert((before + all.take(11)).push(all[11]) =~= before + all.take(12));
        assert(all.take(12) =~= all);
    }

    /// The metrics of the history, as a metrics method of a plugin sends them.
    pub fn metrics(&self, storage: &Storage, now: u64) -> (r: Result<WireMetrics, HistoryError>)
        ensures
            if now > MAX_STORED {
                r == Err::<WireMetrics, HistoryError>(HistoryError::OutOfRange)
            } else {
                r matches Ok(metrics) && metrics.version == 1 && metrics.namespace@ == "history"@
                    && are_gauges(metrics.families@, gauges_of(self@, *storage, now))
            },
    {
        if now > MAX_STORED {
            return Err(HistoryError::OutOfRange);
        }
        let counts = self.counts();
        let mut families: Vec<Family> = Vec::new();
        let ghost none = Seq::<Gauge>::empty();
        self.push_row_gauges(&mut families, storage, &counts, Ghost(none));
        assert(none + row_gauges(self@, *storage) =~= row_gauges(self@, *storage));
        self.push_run_gauges(
            &mut families,
            &counts,
            now,
            Ghost(row_gauges(self@, *storage)),
        );
        Ok(WireMetrics { version: 1, namespace: "history".to_owned(), families })
    }
}

proof fn lemma_span(runs: Seq<RunRow<Seq<char>>>)
    ensures
        oldest_success(runs) is Some <==> newest_success(runs) is Some,
        oldest_success(runs) is Some ==> oldest_success(runs)->0 <= newest_success(runs)->0,
    decreases runs.len(),
{
    if runs.len() > 0 {
        lemma_span(runs.drop_last());
    }
}

} // verus!
