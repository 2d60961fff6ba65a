//! Recording the channels: what is kept of a snapshot, and what is dropped with time.

use crate::events::seconds_between;
use crate::integrity::{law_snapshots_keep_the_tables_sound, sound};
use crate::json::Json;
use crate::model::{
    aliases_of, sample_of, AliasView, ChannelAlias, ChannelPolicy, ChannelSample, SampleView,
};
use crate::sorting::retain;
use crate::store::{
    record_alias, resolve_alias, resolved, with_alias_seen, AliasRow, BucketRow, ChannelRow, DbView,
    EventRow, HistoryDb, HopRow, ProbeRow, RunRow, SampleRow, SampleRowView, MAX_STORED,
};
use crate::text::{copy_text, same_text};
use vstd::prelude::*;

verus! {

/// After how many seconds an unchanged channel is recorded anew.
pub const CHECKPOINT_SECONDS: u64 = 3_600;

/// Why something is not recorded or not found.
#[derive(Clone, Copy, Debug, PartialEq, Eq, Structural)]
pub enum HistoryError {
    /// A snapshot has no list of channels.
    NoChannels,
    /// A number is greater than a table holds.
    OutOfRange,
    /// A probe result has no status.
    NoStatus,
    /// A probe result has a status that is not known.
    UnknownStatus,
    /// A probe result has no route.
    NoRoute,
    /// A hop names no channel.
    NoHopChannel,
    /// The channel of a hop has no direction.
    NoHopDirection,
    /// The direction of a hop is no number.
    InvalidHopDirection,
    /// A hop names no destination.
    NoHopDestination,
    /// The database was written by a newer program.
    NewerSchema(u64),
    /// The database has a form that is not known.
    UnknownSchema(u64),
}

/// The channel that one of the names stands for: of the first name that is known.
pub open spec fn known_key(aliases: Seq<AliasRow<Seq<char>>>, names: Seq<AliasView>) -> Option<
    Seq<char>,
>
    decreases names.len(),
{
    if names.len() == 0 {
        None
    } else {
        match known_key(aliases, names.drop_last()) {
            Some(key) => Some(key),
            None => resolved(aliases, names.last().value),
        }
    }
}

/// The key that a channel keeps: that of the channel one of its names stands for, else its own.
pub open spec fn stable_key(
    aliases: Seq<AliasRow<Seq<char>>>,
    names: Seq<AliasView>,
    key: Seq<char>,
) -> Seq<char> {
    match known_key(aliases, names) {
        Some(key) => key,
        None => key,
    }
}

/// The names after each of them was seen for a channel.
pub open spec fn with_names_seen(
    aliases: Seq<AliasRow<Seq<char>>>,
    ts: u64,
    names: Seq<AliasView>,
    key: Seq<char>,
) -> Seq<AliasRow<Seq<char>>>
    decreases names.len(),
{
    if names.len() == 0 {
        aliases
    } else {
        with_alias_seen(
            with_names_seen(aliases, ts, names.drop_last(), key),
            ts,
            names.last().kind,
            names.last().value,
            key,
        )
    }
}

/// The names after a channel was seen under its key and its names.
pub open spec fn with_identity_seen(
    aliases: Seq<AliasRow<Seq<char>>>,
    ts: u64,
    names: Seq<AliasView>,
    key: Seq<char>,
) -> Seq<AliasRow<Seq<char>>> {
    with_names_seen(with_alias_seen(aliases, ts, "identity"@, key, key), ts, names, key)
}

fn find_known_key(aliases: &Vec<AliasRow<String>>, names: &Vec<ChannelAlias>) -> (r: Option<String>)
    ensures
        r.deep_view() == known_key(aliases.deep_view(), names.deep_view()),
{
    let ghost all = names.deep_view();
    let mut i: usize = 0;
    assert(all.take(0) =~= seq![]);
    while i < names.len()
        invariant
            i <= names@.len(),
            all == names.deep_view(),
            known_key(aliases.deep_view(), all.take(i as int)) is None,
        decreases names@.len() - i,
    {
        assert(all.take(i + 1).drop_last() =~= all.take(i as int));
        if let Some(key) = resolve_alias(aliases, names[i].value.as_str()) {
            proof {
                lemma_known_key(aliases.deep_view(), all, i + 1);
            }
            return Some(key);
        }
        i = i + 1;
    }
    assert(all.take(i as int) =~= all);
    None
}

proof fn lemma_known_key(aliases: Seq<AliasRow<Seq<char>>>, names: Seq<AliasView>, n: int)
    requires
        0 <= n <= names.len(),
        known_key(aliases, names.take(n)) is Some,
    ensures
        known_key(aliases, names) == known_key(aliases, names.take(n)),
    decreases names.len(),
{
    if n == names.len() {
        assert(names.take(n) =~= names);
    } else {
        assert(names.drop_last().take(n) =~= names.take(n));
        lemma_known_key(aliases, names.drop_last(), n);
    }
}

/// Gives a sample the key that its channel keeps, and records its names.
pub fn resolve_sample_identity(
    aliases: &mut Vec<AliasRow<String>>,
    ts: u64,
    sample: &mut ChannelSample,
)
    ensures
        ({
            let names = old(sample).aliases.deep_view();
            let key = stable_key(old(aliases).deep_view(), names, old(sample)@.channel_key);
            &&& final(sample)@ == SampleView { channel_key: key, ..old(sample)@ }
            &&& final(sample).aliases == old(sample).aliases
            &&& final(aliases).deep_view() == with_identity_seen(
                old(aliases).deep_view(),
                ts,
                names,
                key,
            )
        }),
{
    let ghost names = sample.aliases.deep_view();
    let key = match find_known_key(aliases, &sample.aliases) {
        Some(key) => key,
        None => sample.channel_key.clone(),
    };
    record_alias(aliases, ts, "identity", key.as_str(), key.as_str());
    let ghost base = aliases.deep_view();
    let mut i: usize = 0;
    assert(names.take(0) =~= seq![]);
    while i < sample.aliases.len()
        invariant
            i <= sample.aliases@.len(),
            names == sample.aliases.deep_view(),
            *sample == *old(sample),
            aliases.deep_view() == with_names_seen(base, ts, names.take(i as int), key@),
        decreases sample.aliases@.len() - i,
    {
        assert(names.take(i + 1).drop_last() =~= names.take(i as int));
        record_alias(
            aliases,
            ts,
            sample.aliases[i].kind,
            sample.aliases[i].value.as_str(),
            key.as_str(),
        );
        i = i + 1;
    }
    assert(names.take(i as int) =~= names);
    sample.channel_key = key;
}

/// Whether a row is of the channel.
pub open spec fn is_of_channel(row: SampleRowView, key: Seq<char>) -> bool {
    row.sample.channel_key == key
}

/// Whether a row is later than another.
pub open spec fn is_later(a: SampleRowView, b: SampleRowView) -> bool {
    a.ts > b.ts || (a.ts == b.ts && a.id > b.id)
}

/// The latest recorded state of a channel.
pub open spec fn latest_row(samples: Seq<SampleRowView>, key: Seq<char>) -> Option<SampleRowView>
    decreases samples.len(),
{
    if samples.len() == 0 {
        None
    } else {
        let before = latest_row(samples.drop_last(), key);
        let row = samples.last();
        if is_of_channel(row, key) && (before is None || is_later(row, before->0)) {
            Some(row)
        } else {
            before
        }
    }
}

fn latest_sample(samples: &Vec<SampleRow>, key: &str) -> (r: Option<usize>)
    ensures
        match r {
            Some(at) => at < samples@.len() && latest_row(samples.deep_view(), key@) == Some(
                samples@[at as int].deep_view(),
            ),
            None => latest_row(samples.deep_view(), key@) is None,
        },
{
    let ghost rows = samples.deep_view();
    let mut best: Option<usize> = None;
    let mut i: usize = 0;
    assert(rows.take(0) =~= seq![]);
    while i < samples.len()
        invariant
            i <= samples@.len(),
            rows == samples.deep_view(),
            match best {
                Some(at) => at < i && latest_row(rows.take(i as int), key@) == Some(
                    rows[at as int],
                ),
                None => latest_row(rows.take(i as int), key@) is None,
            },
        decreases samples@.len() - i,
    {
        assert(rows.take(i + 1).drop_last() =~= rows.take(i as int));
        if same_text(samples[i].sample.channel_key.as_str(), key) {
            let later = match best {
                Some(at) => samples[i].ts > samples[at].ts || (samples[i].ts == samples[at].ts
                    && samples[i].id > samples[at].id),
                None => true,
            };
            if later {
                best = Some(i);
            }
        }
        i = i + 1;
    }
    assert(rows.take(i as int) =~= rows);
    best
}

/// Whether a state is recorded: it is the first of its channel, it differs from the latest, or the
/// latest is an hour old.
pub open spec fn is_recorded(samples: Seq<SampleRowView>, ts: u64, sample: SampleView) -> bool {
    match latest_row(samples, sample.channel_key) {
        Some(previous) => previous.sample != sample || seconds_between(previous.ts, ts)
            >= CHECKPOINT_SECONDS,
        None => true,
    }
}

fn should_record(samples: &Vec<SampleRow>, ts: u64, sample: &ChannelSample) -> (r: bool)
    ensures
        r == is_recorded(samples.deep_view(), ts, sample@),
{
    match latest_sample(samples, sample.channel_key.as_str()) {
        Some(at) => samples[at].sample != *sample || ts.saturating_sub(samples[at].ts)
            >= CHECKPOINT_SECONDS,
        None => true,
    }
}

/// Whether the channel is known.
pub open spec fn has_channel(channels: Seq<ChannelRow<Seq<char>>>, key: Seq<char>) -> bool {
    exists|i: int| 0 <= i < channels.len() && (#[trigger] channels[i]).channel_key == key
}

/// Whether the channel is known and had disappeared.
pub open spec fn has_disappeared(channels: Seq<ChannelRow<Seq<char>>>, key: Seq<char>) -> bool {
    exists|i: int|
        0 <= i < channels.len() && (#[trigger] channels[i]).channel_key == key
            && channels[i].disappeared_at is Some
}

/// The row of a channel after it was seen.
pub open spec fn channel_seen(
    row: ChannelRow<Seq<char>>,
    ts: u64,
    sample: SampleView,
) -> ChannelRow<Seq<char>> {
    if row.channel_key == sample.channel_key {
        ChannelRow {
            channel_id: sample.channel_id,
            short_channel_id: sample.short_channel_id,
            peer_id: sample.peer_id,
            last_seen: ts,
            last_state: sample.state,
            disappeared_at: None,
            ..row
        }
    } else {
        row
    }
}

/// The channels after one of them was seen.
pub open spec fn with_channel_seen(
    channels: Seq<ChannelRow<Seq<char>>>,
    ts: u64,
    sample: SampleView,
) -> Seq<ChannelRow<Seq<char>>> {
    if has_channel(channels, sample.channel_key) {
        Seq::new(channels.len(), |i: int| channel_seen(channels[i], ts, sample))
    } else {
        channels.push(
            ChannelRow {
                channel_key: sample.channel_key,
                channel_id: sample.channel_id,
                short_channel_id: sample.short_channel_id,
                peer_id: sample.peer_id,
                first_seen: ts,
                last_seen: ts,
                last_state: sample.state,
                disappeared_at: None,
            },
        )
    }
}

fn disappeared(channels: &Vec<ChannelRow<String>>, key: &str) -> (r: bool)
    ensures
        r == has_disappeared(channels.deep_view(), key@),
{
    let ghost rows = channels.deep_view();
    let mut i: usize = 0;
    while i < channels.len()
        invariant
            i <= channels@.len(),
            rows == channels.deep_view(),
            forall|j: int|
                0 <= j < i ==> (#[trigger] rows[j]).channel_key != key@ || rows[j].disappeared_at
                    is None,
        decreases channels@.len() - i,
    {
        if same_text(channels[i].channel_key.as_str(), key) && channels[i].disappeared_at.is_some() {
            assert(rows[i as int].channel_key == key@);
            return true;
        }
        i = i + 1;
    }
    false
}

fn see_channel(channels: &mut Vec<ChannelRow<String>>, ts: u64, sample: &ChannelSample)
    ensures
        final(channels).deep_view() == with_channel_seen(old(channels).deep_view(), ts, sample@),
{
    let ghost before = channels.deep_view();
    let mut known = false;
    let mut i: usize = 0;
    while i < channels.len()
        invariant
            i <= channels@.len(),
            channels@.len() == before.len(),
            known == (exists|j: int|
                0 <= j < i && (#[trigger] before[j]).channel_key == sample@.channel_key),
            forall|j: int|
                0 <= j < i ==> (#[trigger] channels@[j]).deep_view() == channel_seen(
                    before[j],
                    ts,
                    sample@,
                ),
            forall|j: int|
                i <= j < channels@.len() ==> (#[trigger] channels@[j]).deep_view() == before[j],
        decreases channels@.len() - i,
    {
        assert(channels@[i as int].deep_view() == before[i as int]);
        if same_text(channels[i].channel_key.as_str(), sample.channel_key.as_str()) {
            known = true;
            let first_seen: u64 = channels[i].first_seen;
            channels.set(
                i,
                ChannelRow {
                    channel_key: sample.channel_key.clone(),
                    channel_id: copy_text(&sample.channel_id),
                    short_channel_id: copy_text(&sample.short_channel_id),
                    peer_id: sample.peer_id.clone(),
                    first_seen,
                    last_seen: ts,
                    last_state: sample.state.clone(),
                    disappeared_at: None,
                },
            );
        }
        i = i + 1;
    }
    if !known {
        assert(!has_channel(before, sample@.channel_key));
        assert(channels.deep_view() =~= before);
        channels.push(
            ChannelRow {
                channel_key: sample.channel_key.clone(),
                channel_id: copy_text(&sample.channel_id),
                short_channel_id: copy_text(&sample.short_channel_id),
                peer_id: sample.peer_id.clone(),
                first_seen: ts,
                last_seen: ts,
                last_state: sample.state.clone(),
                disappeared_at: None,
            },
        );
    }
    assert(channels.deep_view() =~= with_channel_seen(before, ts, sample@));
}

/// The event of a channel that is back.
pub open spec fn reappearance(id: u64, ts: u64, sample: SampleView) -> EventRow<Seq<char>> {
    EventRow {
        id,
        ts,
        event_type: "reappeared"@,
        channel_key: Some(sample.channel_key),
        channel_id: sample.channel_id,
        short_channel_id: sample.short_channel_id,
        peer_id: Some(sample.peer_id),
        old_state: None,
        new_state: Some(sample.state),
        cause: None,
        direction: None,
        reason: None,
    }
}

/// The event of a channel that is gone.
pub open spec fn departure(id: u64, ts: u64, row: ChannelRow<Seq<char>>) -> EventRow<Seq<char>> {
    EventRow {
        id,
        ts,
        event_type: "disappeared"@,
        channel_key: Some(row.channel_key),
        channel_id: row.channel_id,
        short_channel_id: row.short_channel_id,
        peer_id: Some(row.peer_id),
        old_state: Some(row.last_state),
        new_state: None,
        cause: None,
        direction: None,
        reason: None,
    }
}

/// The history after a state of a channel was taken in.
pub open spec fn with_sample(db: DbView, ts: u64, sample: SampleView) -> DbView {
    let back = has_disappeared(db.channels, sample.channel_key);
    let recorded = is_recorded(db.samples, ts, sample);
    let event_id = (db.last_event_id + 1) as u64;
    let sample_id = (db.last_sample_id + 1) as u64;
    DbView {
        channels: with_channel_seen(db.channels, ts, sample),
        events: if back {
            db.events.push(reappearance(event_id, ts, sample))
        } else {
            db.events
        },
        last_event_id: if back {
            event_id
        } else {
            db.last_event_id
        },
        samples: if recorded {
            db.samples.push(SampleRowView { id: sample_id, ts, sample })
        } else {
            db.samples
        },
        last_sample_id: if recorded {
            sample_id
        } else {
            db.last_sample_id
        },
        ..db
    }
}

impl HistoryDb {
    fn record_sample(&mut self, ts: u64, sample: ChannelSample)
        requires
            old(self).last_event_id < MAX_STORED,
            old(self).last_sample_id < MAX_STORED,
        ensures
            final(self)@ == with_sample(old(self)@, ts, sample@),
    {
        let back = disappeared(&self.channels, sample.channel_key.as_str());
        let recorded = should_record(&self.samples, ts, &sample);
        see_channel(&mut self.channels, ts, &sample);
        if back {
            self.last_event_id = self.last_event_id + 1;
            self.events.push(
                EventRow {
                    id: self.last_event_id,
                    ts,
                    event_type: "reappeared".to_owned(),
                    channel_key: Some(sample.channel_key.clone()),
                    channel_id: copy_text(&sample.channel_id),
                    short_channel_id: copy_text(&sample.short_channel_id),
                    peer_id: Some(sample.peer_id.clone()),
                    old_state: None,
                    new_state: Some(sample.state.clone()),
                    cause: None,
                    direction: None,
                    reason: None,
                },
            );
        }
        if recorded {
            self.last_sample_id = self.last_sample_id + 1;
            self.samples.push(SampleRow { id: self.last_sample_id, ts, sample });
        }
        assert(self@ =~= with_sample(old(self)@, ts, sample@));
    }
}

/// Whether a channel that was there is missing among the keys.
pub open spec fn is_missing(row: ChannelRow<Seq<char>>, keys: Seq<Seq<char>>) -> bool {
    row.disappeared_at is None && !keys.contains(row.channel_key)
}

/// The row of a channel, marked as gone where it is missing.
pub open spec fn marked(row: ChannelRow<Seq<char>>, keys: Seq<Seq<char>>, ts: u64) -> ChannelRow<
    Seq<char>,
> {
    if is_missing(row, keys) {
        ChannelRow { disappeared_at: Some(ts), ..row }
    } else {
        row
    }
}

/// The history with the events of the missing channels.
pub open spec fn with_departures(
    db: DbView,
    channels: Seq<ChannelRow<Seq<char>>>,
    keys: Seq<Seq<char>>,
    ts: u64,
) -> DbView
    decreases channels.len(),
{
    if channels.len() == 0 {
        db
    } else {
        let before = with_departures(db, channels.drop_last(), keys, ts);
        if is_missing(channels.last(), keys) {
            let id = (before.last_event_id + 1) as u64;
            DbView {
                events: before.events.push(departure(id, ts, channels.last())),
                last_event_id: id,
                ..before
            }
        } else {
            before
        }
    }
}

/// The history after the channels that are not among the keys were found missing.
pub open spec fn with_missing(db: DbView, keys: Seq<Seq<char>>, ts: u64) -> DbView {
    DbView {
        channels: Seq::new(db.channels.len(), |i: int| marked(db.channels[i], keys, ts)),
        ..with_departures(db, db.channels, keys, ts)
    }
}

fn is_present(keys: &Vec<String>, key: &str) -> (r: bool)
    ensures
        r == keys.deep_view().contains(key@),
{
    let ghost all = keys.deep_view();
    let mut i: usize = 0;
    while i < keys.len()
        invariant
            i <= keys@.len(),
            all == keys.deep_view(),
            forall|j: int| 0 <= j < i ==> #[trigger] all[j] != key@,
        decreases keys@.len() - i,
    {
        if same_text(keys[i].as_str(), key) {
            assert(all[i as int] == key@);
            return true;
        }
        i = i + 1;
    }
    false
}

impl HistoryDb {
    fn record_disappearances(&mut self, ts: u64, keys: &Vec<String>)
        requires
            old(self).last_event_id + old(self).channels@.len() <= MAX_STORED,
        ensures
            final(self)@ == with_missing(old(self)@, keys.deep_view(), ts),
    {
        let ghost db = self@;
        let ghost before = self.channels.deep_view();
        let ghost present = keys.deep_view();
        let mut i: usize = 0;
        assert(before.take(0) =~= seq![]);
        while i < self.channels.len()
            invariant
                i <= self.channels@.len(),
                self.channels@.len() == before.len(),
                present == keys.deep_view(),
                before == db.channels,
                forall|j: int|
                    0 <= j < i ==> (#[trigger] self.channels@[j]).deep_view() == marked(
                        before[j],
                        present,
                        ts,
                    ),
                forall|j: int|
                    i <= j < self.channels@.len() ==> (#[trigger] self.channels@[j]).deep_view()
                        == before[j],
                self@ =~= (DbView {
                    channels: self@.channels,
                    ..with_departures(db, before.take(i as int), present, ts)
                }),
                db.last_event_id <= self.last_event_id <= db.last_event_id + i,
                db.last_event_id + before.len() <= MAX_STORED,
            decreases self.channels@.len() - i,
        {
            assert(before.take(i + 1).drop_last() =~= before.take(i as int));
            assert(self.channels@[i as int].deep_view() == before[i as int]);
            let row = &self.channels[i];
            if row.disappeared_at.is_none() && !is_present(keys, row.channel_key.as_str()) {
                let event = EventRow {
                    id: self.last_event_id + 1,
                    ts,
                    event_type: "disappeared".to_owned(),
                    channel_key: Some(row.channel_key.clone()),
                    channel_id: copy_text(&row.channel_id),
                    short_channel_id: copy_text(&row.short_channel_id),
                    peer_id: Some(row.peer_id.clone()),
                    old_state: Some(row.last_state.clone()),
                    new_state: None,
                    cause: None,
                    direction: None,
                    reason: None,
                };
                let ghost events = self.events.deep_view();
                self.last_event_id = self.last_event_id + 1;
                self.events.push(event);
                assert(self.events.deep_view() =~= events.push(event.deep_view()));
                self.channels[i].disappeared_at = Some(ts);
            }
            i = i + 1;
        }
        assert(before.take(i as int) =~= before);
        assert(self@ =~= with_missing(db, present, ts));
    }
}

/// The attempts with one more, in place of one at the same time.
pub open spec fn with_run(runs: Seq<RunRow<Seq<char>>>, run: RunRow<Seq<char>>) -> Seq<
    RunRow<Seq<char>>,
> {
    if exists|i: int| 0 <= i < runs.len() && (#[trigger] runs[i]).ts == run.ts {
        Seq::new(
            runs.len(),
            |i: int|
                if runs[i].ts == run.ts {
                    run
                } else {
                    runs[i]
                },
        )
    } else {
        runs.push(run)
    }
}

fn put_run(runs: &mut Vec<RunRow<String>>, run: RunRow<String>)
    ensures
        final(runs).deep_view() == with_run(old(runs).deep_view(), run.deep_view()),
{
    let ghost before = runs.deep_view();
    let mut known = false;
    let mut i: usize = 0;
    while i < runs.len()
        invariant
            i <= runs@.len(),
            runs@.len() == before.len(),
            known == (exists|j: int| 0 <= j < i && (#[trigger] before[j]).ts == run.ts),
            forall|j: int|
                0 <= j < i ==> (#[trigger] runs@[j]).deep_view() == (if before[j].ts == run.ts {
                    run.deep_view()
                } else {
                    before[j]
                }),
            forall|j: int| i <= j < runs@.len() ==> (#[trigger] runs@[j]).deep_view() == before[j],
        decreases runs@.len() - i,
    {
        assert(runs@[i as int].deep_view() == before[i as int]);
        if runs[i].ts == run.ts {
            known = true;
            runs.set(i, run.clone());
        }
        i = i + 1;
    }
    if !known {
        assert(runs.deep_view() =~= before);
        runs.push(run);
    }
    assert(runs.deep_view() =~= with_run(before, run.deep_view()));
}

impl HistoryDb {
    /// Records an attempt, in place of one at the same time.
    pub(crate) fn put_run(&mut self, run: RunRow<String>)
        ensures
            final(self)@ == (DbView {
                runs: with_run(old(self)@.runs, run.deep_view()),
                ..old(self)@
            }),
    {
        put_run(&mut self.runs, run);
        assert(self@ =~= (DbView { runs: self@.runs, ..old(self)@ }));
    }
}

/// The time before which rows are dropped.
pub open spec fn cutoff_at(db: DbView, ts: u64) -> u64 {
    if ts >= db.retention_seconds {
        (ts - db.retention_seconds) as u64
    } else {
        0
    }
}

/// Whether a state is kept: it is new enough, or it is the last one of its channel that is not.
pub open spec fn is_kept(samples: Seq<SampleRowView>, row: SampleRowView, cutoff: u64) -> bool {
    row.ts >= cutoff || !(exists|i: int|
        0 <= i < samples.len() && (#[trigger] samples[i]).ts < cutoff && samples[i].id > row.id
            && samples[i].sample.channel_key == row.sample.channel_key)
}

/// Whether the probe of a hop is dropped.
pub open spec fn is_orphaned(
    probes: Seq<ProbeRow<Seq<char>>>,
    hop: HopRow<Seq<char>>,
    cutoff: u64,
) -> bool {
    exists|i: int|
        0 <= i < probes.len() && (#[trigger] probes[i]).id == hop.probe_id && probes[i].ts < cutoff
}

/// Which states are kept.
pub open spec fn kept_samples(samples: Seq<SampleRowView>, cutoff: u64) -> spec_fn(
    SampleRowView,
) -> bool {
    |row: SampleRowView| is_kept(samples, row, cutoff)
}

/// Which events are kept.
pub open spec fn kept_events(cutoff: u64) -> spec_fn(EventRow<Seq<char>>) -> bool {
    |row: EventRow<Seq<char>>| row.ts >= cutoff
}

/// Which forwards are kept.
pub open spec fn kept_buckets(cutoff: u64) -> spec_fn(BucketRow<Seq<char>>) -> bool {
    |row: BucketRow<Seq<char>>| row.bucket_start >= cutoff
}

/// Which attempts are kept.
pub open spec fn kept_runs(cutoff: u64) -> spec_fn(RunRow<Seq<char>>) -> bool {
    |row: RunRow<Seq<char>>| row.ts >= cutoff
}

/// Which probes are kept.
pub open spec fn kept_probes(cutoff: u64) -> spec_fn(ProbeRow<Seq<char>>) -> bool {
    |row: ProbeRow<Seq<char>>| row.ts >= cutoff
}

/// Which hops are kept.
pub open spec fn kept_hops(probes: Seq<ProbeRow<Seq<char>>>, cutoff: u64) -> spec_fn(
    HopRow<Seq<char>>,
) -> bool {
    |row: HopRow<Seq<char>>| !is_orphaned(probes, row, cutoff)
}

/// The history without what is older than the retention time. The last older state of every channel
/// stays, so that a later query still finds what a channel was like at its start.
pub open spec fn pruned(db: DbView, ts: u64) -> DbView {
    let cutoff = cutoff_at(db, ts);
    DbView {
        samples: db.samples.filter(kept_samples(db.samples, cutoff)),
        events: db.events.filter(kept_events(cutoff)),
        buckets: db.buckets.filter(kept_buckets(cutoff)),
        runs: db.runs.filter(kept_runs(cutoff)),
        probes: db.probes.filter(kept_probes(cutoff)),
        hops: db.hops.filter(kept_hops(db.probes, cutoff)),
        ..db
    }
}

fn keeps_sample(samples: &Vec<SampleRow>, at: usize, cutoff: u64) -> (r: bool)
    requires
        at < samples@.len(),
    ensures
        r == is_kept(samples.deep_view(), samples@[at as int].deep_view(), cutoff),
{
    if samples[at].ts >= cutoff {
        return true;
    }
    let ghost rows = samples.deep_view();
    let mut i: usize = 0;
    while i < samples.len()
        invariant
            i <= samples@.len(),
            at < samples@.len(),
            samples@[at as int].ts < cutoff,
            rows == samples.deep_view(),
            forall|j: int|
                0 <= j < i ==> !((#[trigger] rows[j]).ts < cutoff && rows[j].id > rows[at as int].id
                    && rows[j].sample.channel_key == rows[at as int].sample.channel_key),
        decreases samples@.len() - i,
    {
        if samples[i].ts < cutoff && samples[i].id > samples[at].id && same_text(
            samples[i].sample.channel_key.as_str(),
            samples[at].sample.channel_key.as_str(),
        ) {
            assert(rows[i as int].ts < cutoff);
            return false;
        }
        i = i + 1;
    }
    true
}

fn prune_samples(samples: Vec<SampleRow>, cutoff: u64) -> (r: Vec<SampleRow>)
    ensures
        r.deep_view() == samples.deep_view().filter(kept_samples(samples.deep_view(), cutoff)),
{
    let mut keep: Vec<bool> = Vec::new();
    let mut i: usize = 0;
    while i < samples.len()
        invariant
            i <= samples@.len(),
            keep@.len() == i,
            forall|j: int|
                0 <= j < i ==> #[trigger] keep@[j] == is_kept(
                    samples.deep_view(),
                    samples.deep_view()[j],
                    cutoff,
                ),
        decreases samples@.len() - i,
    {
        keep.push(keeps_sample(&samples, i, cutoff));
        i = i + 1;
    }
    let ghost wanted = kept_samples(samples.deep_view(), cutoff);
    retain(samples, &keep, Ghost(wanted))
}

fn prune_events(events: Vec<EventRow<String>>, cutoff: u64) -> (r: Vec<EventRow<String>>)
    ensures
        r.deep_view() == events.deep_view().filter(kept_events(cutoff)),
{
    let mut keep: Vec<bool> = Vec::new();
    let mut i: usize = 0;
    while i < events.len()
        invariant
            i <= events@.len(),
            keep@.len() == i,
            forall|j: int|
                0 <= j < i ==> #[trigger] keep@[j] == (events.deep_view()[j].ts >= cutoff),
        decreases events@.len() - i,
    {
        keep.push(events[i].ts >= cutoff);
        i = i + 1;
    }
    retain(events, &keep, Ghost(kept_events(cutoff)))
}

fn prune_buckets(buckets: Vec<BucketRow<String>>, cutoff: u64) -> (r: Vec<BucketRow<String>>)
    ensures
        r.deep_view() == buckets.deep_view().filter(kept_buckets(cutoff)),
{
    let mut keep: Vec<bool> = Vec::new();
    let mut i: usize = 0;
    while i < buckets.len()
        invariant
            i <= buckets@.len(),
            keep@.len() == i,
            forall|j: int|
                0 <= j < i ==> #[trigger] keep@[j] == (buckets.deep_view()[j].bucket_start
                    >= cutoff),
        decreases buckets@.len() - i,
    {
        keep.push(buckets[i].bucket_start >= cutoff);
        i = i + 1;
    }
    retain(buckets, &keep, Ghost(kept_buckets(cutoff)))
}

fn prune_runs(runs: Vec<RunRow<String>>, cutoff: u64) -> (r: Vec<RunRow<String>>)
    ensures
        r.deep_view() == runs.deep_view().filter(kept_runs(cutoff)),
{
    let mut keep: Vec<bool> = Vec::new();
    let mut i: usize = 0;
    while i < runs.len()
        invariant
            i <= runs@.len(),
            keep@.len() == i,
            forall|j: int| 0 <= j < i ==> #[trigger] keep@[j] == (runs.deep_view()[j].ts >= cutoff),
        decreases runs@.len() - i,
    {
        keep.push(runs[i].ts >= cutoff);
        i = i + 1;
    }
    retain(runs, &keep, Ghost(kept_runs(cutoff)))
}

fn prune_probes(probes: Vec<ProbeRow<String>>, cutoff: u64) -> (r: Vec<ProbeRow<String>>)
    ensures
        r.deep_view() == probes.deep_view().filter(kept_probes(cutoff)),
{
    let mut keep: Vec<bool> = Vec::new();
    let mut i: usize = 0;
    while i < probes.len()
        invariant
            i <= probes@.len(),
            keep@.len() == i,
            forall|j: int|
                0 <= j < i ==> #[trigger] keep@[j] == (probes.deep_view()[j].ts >= cutoff),
        decreases probes@.len() - i,
    {
        keep.push(probes[i].ts >= cutoff);
        i = i + 1;
    }
    retain(probes, &keep, Ghost(kept_probes(cutoff)))
}

fn orphaned(probes: &Vec<ProbeRow<String>>, probe_id: u64, cutoff: u64) -> (r: bool)
    ensures
        r == (exists|i: int|
            0 <= i < probes@.len() && (#[trigger] probes.deep_view()[i]).id == probe_id
                && probes.deep_view()[i].ts < cutoff),
{
    let ghost rows = probes.deep_view();
    let mut i: usize = 0;
    while i < probes.len()
        invariant
            i <= probes@.len(),
            rows == probes.deep_view(),
            forall|j: int|
                0 <= j < i ==> !((#[trigger] rows[j]).id == probe_id && rows[j].ts < cutoff),
        decreases probes@.len() - i,
    {
        if probes[i].id == probe_id && probes[i].ts < cutoff {
            assert(rows[i as int].id == probe_id);
            return true;
        }
        i = i + 1;
    }
    false
}

fn prune_hops(hops: Vec<HopRow<String>>, probes: &Vec<ProbeRow<String>>, cutoff: u64) -> (r: Vec<
    HopRow<String>,
>)
    ensures
        r.deep_view() == hops.deep_view().filter(kept_hops(probes.deep_view(), cutoff)),
{
    let mut keep: Vec<bool> = Vec::new();
    let mut i: usize = 0;
    while i < hops.len()
        invariant
            i <= hops@.len(),
            keep@.len() == i,
            forall|j: int|
                0 <= j < i ==> #[trigger] keep@[j] == !is_orphaned(
                    probes.deep_view(),
                    hops.deep_view()[j],
                    cutoff,
                ),
        decreases hops@.len() - i,
    {
        keep.push(!orphaned(probes, hops[i].probe_id, cutoff));
        i = i + 1;
    }
    let ghost wanted = kept_hops(probes.deep_view(), cutoff);
    retain(hops, &keep, Ghost(wanted))
}

fn take_rows<T>(rows: &mut Vec<T>) -> (r: Vec<T>)
    ensures
        r@ == old(rows)@,
        final(rows)@ == Seq::<T>::empty(),
{
    let mut taken: Vec<T> = Vec::new();
    std::mem::swap(&mut taken, rows);
    taken
}

impl HistoryDb {
    /// Drops what is older than the retention time.
    pub(crate) fn prune(&mut self, ts: u64)
        ensures
            final(self)@ == pruned(old(self)@, ts),
    {
        let cutoff: u64 = ts.saturating_sub(self.retention_seconds);
        let samples = take_rows(&mut self.samples);
        assert(samples.deep_view() =~= old(self)@.samples);
        self.samples = prune_samples(samples, cutoff);
        let events = take_rows(&mut self.events);
        assert(events.deep_view() =~= old(self)@.events);
        self.events = prune_events(events, cutoff);
        let buckets = take_rows(&mut self.buckets);
        assert(buckets.deep_view() =~= old(self)@.buckets);
        self.buckets = prune_buckets(buckets, cutoff);
        let runs = take_rows(&mut self.runs);
        assert(runs.deep_view() =~= old(self)@.runs);
        self.runs = prune_runs(runs, cutoff);
        let hops = take_rows(&mut self.hops);
        assert(hops.deep_view() =~= old(self)@.hops);
        self.hops = prune_hops(hops, &self.probes, cutoff);
        let probes = take_rows(&mut self.probes);
        assert(probes.deep_view() =~= old(self)@.probes);
        self.probes = prune_probes(probes, cutoff);
        assert(self@ =~= pruned(old(self)@, ts));
    }
}

/// Whether a number fits a table.
pub open spec fn fits(n: u64) -> bool {
    n <= MAX_STORED
}

/// Whether a number that may be missing fits a table.
pub open spec fn optional_fits(n: Option<u64>) -> bool {
    match n {
        Some(n) => fits(n),
        None => true,
    }
}

/// Whether the numbers of a policy fit a table.
pub open spec fn policy_fits(policy: ChannelPolicy) -> bool {
    optional_fits(policy.fee_base_msat) && optional_fits(policy.fee_ppm) && optional_fits(
        policy.htlc_minimum_msat,
    ) && optional_fits(policy.htlc_maximum_msat) && optional_fits(policy.cltv_expiry_delta)
}

/// Whether the numbers of a state fit a table.
pub open spec fn sample_fits(sample: SampleView) -> bool {
    fits(sample.capacity_msat) && fits(sample.to_us_msat) && fits(sample.spendable_msat) && fits(
        sample.receivable_msat,
    ) && fits(sample.htlc_in_count) && fits(sample.htlc_out_count) && fits(sample.htlc_in_msat)
        && fits(sample.htlc_out_msat) && optional_fits(sample.blockheight) && optional_fits(
        sample.htlc_min_expiry,
    ) && optional_fits(sample.htlc_max_expiry) && fits(sample.htlc_hooked_count) && fits(
        sample.htlc_trimmed_count,
    ) && optional_fits(sample.max_accepted_htlcs) && policy_fits(sample.local_policy)
        && policy_fits(sample.remote_policy)
}

/// Whether a number that may be missing fits a table.
pub fn storable(n: Option<u64>) -> (r: bool)
    ensures
        r == optional_fits(n),
{
    match n {
        Some(n) => n <= MAX_STORED,
        None => true,
    }
}

fn policy_storable(policy: &ChannelPolicy) -> (r: bool)
    ensures
        r == policy_fits(*policy),
{
    storable(policy.fee_base_msat) && storable(policy.fee_ppm) && storable(policy.htlc_minimum_msat)
        && storable(policy.htlc_maximum_msat) && storable(policy.cltv_expiry_delta)
}

fn sample_storable(sample: &ChannelSample) -> (r: bool)
    ensures
        r == sample_fits(sample@),
{
    sample.capacity_msat <= MAX_STORED && sample.to_us_msat <= MAX_STORED && sample.spendable_msat
        <= MAX_STORED && sample.receivable_msat <= MAX_STORED && sample.htlc_in_count <= MAX_STORED
        && sample.htlc_out_count <= MAX_STORED && sample.htlc_in_msat <= MAX_STORED
        && sample.htlc_out_msat <= MAX_STORED && storable(sample.blockheight) && storable(
        sample.htlc_min_expiry,
    ) && storable(sample.htlc_max_expiry) && sample.htlc_hooked_count <= MAX_STORED
        && sample.htlc_trimmed_count <= MAX_STORED && storable(sample.max_accepted_htlcs)
        && policy_storable(&sample.local_policy) && policy_storable(&sample.remote_policy)
}

/// The key that a channel of a snapshot keeps.
pub open spec fn key_in(db: DbView, value: Json, index: int, blockheight: Option<u64>) -> Seq<char> {
    stable_key(db.aliases, aliases_of(value), sample_of(value, index, blockheight).channel_key)
}

/// The state of a channel of a snapshot, under the key that it keeps.
pub open spec fn identified(db: DbView, value: Json, index: int, blockheight: Option<u64>) -> SampleView {
    SampleView {
        channel_key: key_in(db, value, index, blockheight),
        ..sample_of(value, index, blockheight)
    }
}

/// The history after one channel of a snapshot.
pub open spec fn with_channel(
    db: DbView,
    ts: u64,
    value: Json,
    index: int,
    blockheight: Option<u64>,
) -> DbView {
    with_sample(
        DbView {
            aliases: with_identity_seen(
                db.aliases,
                ts,
                aliases_of(value),
                key_in(db, value, index, blockheight),
            ),
            ..db
        },
        ts,
        identified(db, value, index, blockheight),
    )
}

/// The history after the channels of a snapshot.
pub open spec fn with_channels(
    db: DbView,
    ts: u64,
    channels: Seq<Json>,
    blockheight: Option<u64>,
) -> DbView
    decreases channels.len(),
{
    if channels.len() == 0 {
        db
    } else {
        with_channel(
            with_channels(db, ts, channels.drop_last(), blockheight),
            ts,
            channels.last(),
            channels.len() - 1,
            blockheight,
        )
    }
}

/// The keys that the channels of a snapshot keep.
pub open spec fn keys_in(
    db: DbView,
    ts: u64,
    channels: Seq<Json>,
    blockheight: Option<u64>,
) -> Seq<Seq<char>>
    decreases channels.len(),
{
    if channels.len() == 0 {
        Seq::empty()
    } else {
        keys_in(db, ts, channels.drop_last(), blockheight).push(
            key_in(
                with_channels(db, ts, channels.drop_last(), blockheight),
                channels.last(),
                channels.len() - 1,
                blockheight,
            ),
        )
    }
}

/// The history after a snapshot: its channels are taken in, those that are missing are noted, the
/// attempt is recorded, and what is too old is dropped.
pub open spec fn with_snapshot(
    db: DbView,
    ts: u64,
    channels: Seq<Json>,
    blockheight: Option<u64>,
) -> DbView {
    let seen = with_channels(db, ts, channels, blockheight);
    let noted = with_missing(seen, keys_in(db, ts, channels, blockheight), ts);
    pruned(
        DbView {
            runs: with_run(
                noted.runs,
                RunRow {
                    ts,
                    success: true,
                    channel_count: Some(channels.len() as u64),
                    error: None,
                },
            ),
            ..noted
        },
        ts,
    )
}

/// The channels of a `listpeerchannels` response.
pub open spec fn channels_in(response: Json) -> Option<Seq<Json>> {
    match response.field("channels"@) {
        Some(channels) => channels.elements(),
        None => None,
    }
}

/// Whether the numbers of every channel fit a table.
pub open spec fn channels_fit(channels: Seq<Json>, blockheight: Option<u64>) -> bool {
    forall|i: int|
        0 <= i < channels.len() ==> sample_fits(sample_of(#[trigger] channels[i], i, blockheight))
}

/// Why a snapshot is not recorded, if it is not.
pub open spec fn snapshot_problem(ts: u64, response: Json, blockheight: Option<u64>) -> Option<
    HistoryError,
> {
    match channels_in(response) {
        None => Some(HistoryError::NoChannels),
        Some(channels) => if fits(ts) && channels.len() <= MAX_STORED && channels_fit(
            channels,
            blockheight,
        ) {
            None
        } else {
            Some(HistoryError::OutOfRange)
        },
    }
}

/// Whether there are ids left for a snapshot of that many channels.
pub open spec fn has_ids_for(db: DbView, channels: nat) -> bool {
    &&& db.last_sample_id + channels <= MAX_STORED
    &&& db.last_event_id + 2 * channels + db.channels.len() <= MAX_STORED
}

/// How many channels a response lists.
pub open spec fn channel_count(response: Json) -> nat {
    match channels_in(response) {
        Some(channels) => channels.len(),
        None => 0,
    }
}

fn list_channels(response: &Json) -> (r: Option<&Vec<Json>>)
    ensures
        match r {
            Some(channels) => channels_in(*response) == Some(channels@),
            None => channels_in(*response) is None,
        },
{
    match response.get("channels") {
        Some(channels) => channels.as_array(),
        None => None,
    }
}

fn read_channels(channels: &Vec<Json>, blockheight: Option<u64>) -> (r: Option<Vec<ChannelSample>>)
    ensures
        r is Some <==> channels_fit(channels@, blockheight),
        r matches Some(samples) ==> samples@.len() == channels@.len() && forall|i: int|
            #![trigger samples@[i]]
            0 <= i < samples@.len() ==> samples@[i]@ == sample_of(channels@[i], i, blockheight)
                && samples@[i].aliases.deep_view() == aliases_of(channels@[i]),
{
    let mut samples: Vec<ChannelSample> = Vec::new();
    let mut i: usize = 0;
    while i < channels.len()
        invariant
            i <= channels@.len(),
            samples@.len() == i,
            forall|j: int|
                #![trigger channels@[j]]
                0 <= j < i ==> sample_fits(sample_of(channels@[j], j, blockheight)),
            forall|j: int|
                #![trigger samples@[j]]
                0 <= j < i ==> samples@[j]@ == sample_of(channels@[j], j, blockheight)
                    && samples@[j].aliases.deep_view() == aliases_of(channels@[j]),
        decreases channels@.len() - i,
    {
        let sample = ChannelSample::from_value(&channels[i], i, blockheight);
        if !sample_storable(&sample) {
            assert(!sample_fits(sample_of(channels@[i as int], i as int, blockheight)));
            return None;
        }
        samples.push(sample);
        i = i + 1;
    }
    Some(samples)
}

proof fn lemma_channel_growth(db: DbView, ts: u64, sample: SampleView)
    requires
        db.last_event_id < MAX_STORED,
        db.last_sample_id < MAX_STORED,
    ensures
        with_sample(db, ts, sample).last_event_id <= db.last_event_id + 1,
        with_sample(db, ts, sample).last_sample_id <= db.last_sample_id + 1,
        with_sample(db, ts, sample).channels.len() <= db.channels.len() + 1,
{
}

impl HistoryDb {
    /// Whether there are ids left for a snapshot.
    pub fn has_ids(&self, response: &Json) -> (r: bool)
        ensures
            r == has_ids_for(self@, channel_count(*response)),
    {
        let channels: usize = match list_channels(response) {
            Some(channels) => channels.len(),
            None => 0,
        };
        let known: usize = self.channels.len();
        self.last_sample_id as u128 + channels as u128 <= MAX_STORED as u128
            && self.last_event_id as u128 + 2 * channels as u128 + known as u128
            <= MAX_STORED as u128
    }

    /// Records the channels of a `listpeerchannels` response. A channel is recorded where it changed
    /// or was not recorded for an hour; where it went missing or came back, that is noted.
    pub fn record_channel_snapshot_at_height(
        &mut self,
        ts: u64,
        response: &Json,
        blockheight: Option<u64>,
    ) -> (r: Result<(), HistoryError>)
        requires
            has_ids_for(old(self)@, channel_count(*response)),
        ensures
            match snapshot_problem(ts, *response, blockheight) {
                Some(problem) => r == Err::<(), HistoryError>(problem) && final(self)@ == old(
                    self,
                )@,
                None => r is Ok && final(self)@ == with_snapshot(
                    old(self)@,
                    ts,
                    channels_in(*response)->0,
                    blockheight,
                ),
            },
            sound(old(self)@) ==> sound(final(self)@),
    {
        proof {
            if sound(self@) && channels_in(*response) is Some {
                law_snapshots_keep_the_tables_sound(
                    self@,
                    ts,
                    channels_in(*response)->0,
                    blockheight,
                );
            }
        }
        let channels = match list_channels(response) {
            Some(channels) => channels,
            None => {
                return Err(HistoryError::NoChannels);
            },
        };
        let count: usize = channels.len();
        let samples = match read_channels(channels, blockheight) {
            Some(samples) => samples,
            None => {
                return Err(HistoryError::OutOfRange);
            },
        };
        if ts > MAX_STORED || count as u64 > MAX_STORED {
            return Err(HistoryError::OutOfRange);
        }
        let ghost db = self@;
        let mut keys: Vec<String> = Vec::new();
        let mut i: usize = 0;
        assert(channels@.take(0) =~= seq![]);
        assert(keys.deep_view() =~= seq![]);
        for sample in it: samples
            invariant
                it.seq() == samples@,
                i == it.index(),
                count == channels@.len(),
                samples@.len() == channels@.len(),
                forall|j: int|
                    #![trigger samples@[j]]
                    0 <= j < samples@.len() ==> samples@[j]@ == sample_of(
                        channels@[j],
                        j,
                        blockheight,
                    ) && samples@[j].aliases.deep_view() == aliases_of(channels@[j]),
                has_ids_for(db, channels@.len()),
                self@ == with_channels(db, ts, channels@.take(i as int), blockheight),
                keys.deep_view() == keys_in(db, ts, channels@.take(i as int), blockheight),
                self.last_sample_id <= db.last_sample_id + i,
                self.last_event_id <= db.last_event_id + i,
                self.channels@.len() <= db.channels.len() + i,
        {
            assert(channels@.take(i + 1).drop_last() =~= channels@.take(i as int));
            assert(sample == samples@[i as int]);
            let ghost before = self@;
            let ghost known = keys.deep_view();
            let mut sample = sample;
            resolve_sample_identity(&mut self.aliases, ts, &mut sample);
            assert(self@ =~= (DbView { aliases: self@.aliases, ..before }));
            keys.push(sample.channel_key.clone());
            assert(keys.deep_view() =~= known.push(sample@.channel_key));
            sample.aliases = Vec::new();
            proof {
                lemma_channel_growth(self@, ts, sample@);
            }
            self.record_sample(ts, sample);
            i = i + 1;
        }
        assert(channels@.take(i as int) =~= channels@);
        self.record_disappearances(ts, &keys);
        self.put_run(
            RunRow { ts, success: true, channel_count: Some(count as u64), error: None },
        );
        self.prune(ts);
        Ok(())
    }

    /// Records the channels of a `listpeerchannels` response at an unknown block height.
    pub fn record_channel_snapshot(&mut self, ts: u64, response: &Json) -> (r: Result<
        (),
        HistoryError,
    >)
        requires
            has_ids_for(old(self)@, channel_count(*response)),
        ensures
            match snapshot_problem(ts, *response, None) {
                Some(problem) => r == Err::<(), HistoryError>(problem) && final(self)@ == old(
                    self,
                )@,
                None => r is Ok && final(self)@ == with_snapshot(
                    old(self)@,
                    ts,
                    channels_in(*response)->0,
                    None,
                ),
            },
            sound(old(self)@) ==> sound(final(self)@),
    {
        self.record_channel_snapshot_at_height(ts, response, None)
    }
}

} // verus!
