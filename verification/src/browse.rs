//! Reading recorded states: pages of channel samples, with what is known of their channels.

use crate::events::seconds_between;
use crate::model::{ChannelSample, SampleView};
use crate::queries::{RangeView, SampleQuery, SampleQueryView};
use crate::recording::HistoryError;
use crate::sorting::{in_order, lemma_in_order_keeps, sort, Ranked};
use crate::store::{
    identity, identity_of, AliasRow, ChannelRow, DbView, HistoryDb, SampleRow, SampleRowView,
    MAX_STORED,
};
use crate::text::{
    is_text, lemma_text_before_irreflexive, lemma_text_before_total, lemma_text_before_transitive,
    precedes_text, same_text, text_before,
};
use vstd::prelude::*;

verus! {

impl Ranked for AliasRow<String> {
    /// By kind, then by when they were first seen, then by name.
    open spec fn before(a: AliasRow<Seq<char>>, b: AliasRow<Seq<char>>) -> bool {
        text_before(a.alias_type, b.alias_type) || (a.alias_type == b.alias_type && (a.first_seen
            < b.first_seen || (a.first_seen == b.first_seen && text_before(a.alias, b.alias))))
    }

    proof fn before_is_transitive(
        a: AliasRow<Seq<char>>,
        b: AliasRow<Seq<char>>,
        c: AliasRow<Seq<char>>,
    ) {
        if text_before(a.alias_type, b.alias_type) && text_before(b.alias_type, c.alias_type) {
            lemma_text_before_transitive(a.alias_type, b.alias_type, c.alias_type);
        }
        if text_before(a.alias, b.alias) && text_before(b.alias, c.alias) {
            lemma_text_before_transitive(a.alias, b.alias, c.alias);
        }
    }

    proof fn before_is_irreflexive(a: AliasRow<Seq<char>>) {
        lemma_text_before_irreflexive(a.alias_type);
        lemma_text_before_irreflexive(a.alias);
    }

    proof fn before_is_weak(
        a: AliasRow<Seq<char>>,
        b: AliasRow<Seq<char>>,
        c: AliasRow<Seq<char>>,
    ) {
        lemma_text_before_total(a.alias_type, b.alias_type);
        lemma_text_before_total(b.alias_type, c.alias_type);
        lemma_text_before_total(a.alias, b.alias);
        lemma_text_before_total(b.alias, c.alias);
        lemma_text_before_irreflexive(a.alias_type);
        if text_before(a.alias_type, c.alias_type) {
            if text_before(b.alias_type, a.alias_type) {
                lemma_text_before_transitive(b.alias_type, a.alias_type, c.alias_type);
            }
        } else {
            if text_before(b.alias_type, a.alias_type) && text_before(c.alias_type, b.alias_type) {
                lemma_text_before_transitive(c.alias_type, b.alias_type, a.alias_type);
            }
            if a.first_seen == c.first_seen && text_before(b.alias, a.alias) {
                lemma_text_before_transitive(b.alias, a.alias, c.alias);
            }
        }
    }

    fn precedes(&self, other: &Self) -> (r: bool) {
        if precedes_text(self.alias_type.as_str(), other.alias_type.as_str()) {
            true
        } else if !same_text(self.alias_type.as_str(), other.alias_type.as_str()) {
            false
        } else if self.first_seen < other.first_seen {
            true
        } else {
            self.first_seen == other.first_seen && precedes_text(
                self.alias.as_str(),
                other.alias.as_str(),
            )
        }
    }
}

/// What is known of a channel: its current row and all its names.
#[derive(Debug)]
pub struct ChannelDetails {
    pub identity: String,
    pub current: Option<ChannelRow<String>>,
    pub aliases: Vec<AliasRow<String>>,
}

/// What is known of a channel.
pub struct DetailsView {
    pub identity: Seq<char>,
    pub current: Option<ChannelRow<Seq<char>>>,
    pub aliases: Seq<AliasRow<Seq<char>>>,
}

impl DeepView for ChannelDetails {
    type V = DetailsView;

    open spec fn deep_view(&self) -> DetailsView {
        DetailsView {
            identity: self.identity@,
            current: self.current.deep_view(),
            aliases: self.aliases.deep_view(),
        }
    }
}

/// The row of a channel: the first that has its key.
pub open spec fn channel_row(channels: Seq<ChannelRow<Seq<char>>>, key: Seq<char>) -> Option<
    ChannelRow<Seq<char>>,
>
    decreases channels.len(),
{
    if channels.len() == 0 {
        None
    } else {
        match channel_row(channels.drop_last(), key) {
            Some(row) => Some(row),
            None => if channels.last().channel_key == key {
                Some(channels.last())
            } else {
                None
            },
        }
    }
}

/// Which names stand for a channel.
pub open spec fn stands_for(key: Seq<char>) -> spec_fn(AliasRow<Seq<char>>) -> bool {
    |row: AliasRow<Seq<char>>| row.channel_key == key
}

/// What is known of a channel.
pub open spec fn details_of(db: DbView, key: Seq<char>) -> DetailsView {
    DetailsView {
        identity: key,
        current: channel_row(db.channels, key),
        aliases: in_order::<AliasRow<String>>(db.aliases.filter(stands_for(key))),
    }
}

proof fn lemma_channel_row(channels: Seq<ChannelRow<Seq<char>>>, key: Seq<char>, n: int)
    requires
        0 <= n <= channels.len(),
        channel_row(channels.take(n), key) is Some,
    ensures
        channel_row(channels, key) == channel_row(channels.take(n), key),
    decreases channels.len(),
{
    if n == channels.len() {
        assert(channels.take(n) =~= channels);
    } else {
        assert(channels.drop_last().take(n) =~= channels.take(n));
        lemma_channel_row(channels.drop_last(), key, n);
    }
}

fn find_channel(channels: &Vec<ChannelRow<String>>, key: &str) -> (r: Option<ChannelRow<String>>)
    ensures
        r.deep_view() == channel_row(channels.deep_view(), key@),
{
    let ghost rows = channels.deep_view();
    let mut i: usize = 0;
    assert(rows.take(0) =~= seq![]);
    while i < channels.len()
        invariant
            i <= channels@.len(),
            rows == channels.deep_view(),
            channel_row(rows.take(i as int), key@) is None,
        decreases channels@.len() - i,
    {
        assert(rows.take(i + 1).drop_last() =~= rows.take(i as int));
        if same_text(channels[i].channel_key.as_str(), key) {
            proof {
                lemma_channel_row(rows, key@, i + 1);
            }
            return Some(channels[i].clone());
        }
        i = i + 1;
    }
    assert(rows.take(i as int) =~= rows);
    None
}

fn names_of(aliases: &Vec<AliasRow<String>>, key: &str) -> (r: Vec<AliasRow<String>>)
    ensures
        r.deep_view() == aliases.deep_view().filter(stands_for(key@)),
{
    let ghost rows = aliases.deep_view();
    let mut r: Vec<AliasRow<String>> = Vec::new();
    let mut i: usize = 0;
    proof {
        reveal(Seq::filter);
    }
    assert(rows.take(0) =~= seq![]);
    assert(r.deep_view() =~= seq![]);
    while i < aliases.len()
        invariant
            i <= aliases@.len(),
            rows == aliases.deep_view(),
            r.deep_view() == rows.take(i as int).filter(stands_for(key@)),
        decreases aliases@.len() - i,
    {
        proof {
            reveal(Seq::filter);
        }
        let ghost before = r.deep_view();
        assert(rows.take(i + 1).drop_last() =~= rows.take(i as int));
        if same_text(aliases[i].channel_key.as_str(), key) {
            r.push(aliases[i].clone());
            assert(r.deep_view() =~= before.push(rows[i as int]));
        }
        i = i + 1;
    }
    assert(rows.take(i as int) =~= rows);
    r
}

impl HistoryDb {
    /// What is known of a channel.
    pub fn channel_details(&self, key: &str) -> (r: ChannelDetails)
        ensures
            r.deep_view() == details_of(self@, key@),
    {
        ChannelDetails {
            identity: key.to_owned(),
            current: find_channel(&self.channels, key),
            aliases: sort(names_of(&self.aliases, key)),
        }
    }
}

/// A recorded state, by its place in the table.
#[derive(Clone, Copy, Debug)]
pub struct Position {
    pub ts: u64,
    pub id: u64,
    pub at: usize,
}

impl DeepView for Position {
    type V = Position;

    open spec fn deep_view(&self) -> Position {
        *self
    }
}

impl Ranked for Position {
    /// By time, then by id.
    open spec fn before(a: Position, b: Position) -> bool {
        a.ts < b.ts || (a.ts == b.ts && a.id < b.id)
    }

    proof fn before_is_transitive(a: Position, b: Position, c: Position) {
    }

    proof fn before_is_irreflexive(a: Position) {
    }

    proof fn before_is_weak(a: Position, b: Position, c: Position) {
    }

    fn precedes(&self, other: &Self) -> (r: bool) {
        self.ts < other.ts || (self.ts == other.ts && self.id < other.id)
    }
}

/// A recorded state that is part of an answer.
#[derive(Clone, Copy, Debug)]
pub struct Chosen {
    pub id: u64,
    pub at: usize,
    pub bucket_start: Option<u64>,
}

impl DeepView for Chosen {
    type V = Chosen;

    open spec fn deep_view(&self) -> Chosen {
        *self
    }
}

impl Ranked for Chosen {
    /// By id.
    open spec fn before(a: Chosen, b: Chosen) -> bool {
        a.id < b.id
    }

    proof fn before_is_transitive(a: Chosen, b: Chosen, c: Chosen) {
    }

    proof fn before_is_irreflexive(a: Chosen) {
    }

    proof fn before_is_weak(a: Chosen, b: Chosen, c: Chosen) {
    }

    fn precedes(&self, other: &Self) -> (r: bool) {
        self.id < other.id
    }
}

/// Whether a state is of the channel or peer asked for.
pub open spec fn is_asked_for(filter: Option<Seq<char>>, sample: SampleView) -> bool {
    match filter {
        Some(filter) => sample.channel_key == filter || sample.channel_id == Some(filter)
            || sample.short_channel_id == Some(filter) || sample.peer_id == filter,
        None => true,
    }
}

/// Whether a state is of the channel or peer asked for.
pub fn sample_matches(filter: &Option<String>, sample: &ChannelSample) -> (r: bool)
    ensures
        r == is_asked_for(filter.deep_view(), sample@),
{
    match filter {
        Some(filter) => same_text(sample.channel_key.as_str(), filter.as_str()) || is_text(
            &sample.channel_id,
            filter.as_str(),
        ) || is_text(&sample.short_channel_id, filter.as_str()) || same_text(
            sample.peer_id.as_str(),
            filter.as_str(),
        ),
        None => true,
    }
}

/// How many HTLCs were pending.
pub open spec fn pending_htlcs(sample: SampleView) -> int {
    sample.htlc_in_count + sample.htlc_out_count
}

/// What is asked for: which channel, over which time, behind which id, and whether only states with
/// pending HTLCs count.
pub struct Scope {
    pub filter: Option<Seq<char>>,
    pub start: u64,
    pub end: u64,
    pub cursor: u64,
    pub htlcs_only: bool,
}

/// Whether a state is part of the range.
pub open spec fn in_range(scope: Scope, row: SampleRowView) -> bool {
    &&& is_asked_for(scope.filter, row.sample)
    &&& scope.start <= row.ts <= scope.end
    &&& scope.htlcs_only ==> pending_htlcs(row.sample) > 0
}

/// Whether a state is from before the range.
pub open spec fn ahead_of_range(scope: Scope, row: SampleRowView) -> bool {
    is_asked_for(scope.filter, row.sample) && row.ts < scope.start && row.ts <= scope.end
}

/// The positions of the states in the range.
pub open spec fn positions_in(rows: Seq<SampleRowView>, scope: Scope) -> Seq<Position>
    decreases rows.len(),
{
    if rows.len() == 0 {
        Seq::empty()
    } else {
        let before = positions_in(rows.drop_last(), scope);
        if in_range(scope, rows.last()) {
            before.push(
                Position {
                    ts: rows.last().ts,
                    id: rows.last().id,
                    at: (rows.len() - 1) as usize,
                },
            )
        } else {
            before
        }
    }
}

/// The positions of the states from before the range.
pub open spec fn positions_ahead(rows: Seq<SampleRowView>, scope: Scope) -> Seq<Position>
    decreases rows.len(),
{
    if rows.len() == 0 {
        Seq::empty()
    } else {
        let before = positions_ahead(rows.drop_last(), scope);
        if ahead_of_range(scope, rows.last()) {
            before.push(
                Position {
                    ts: rows.last().ts,
                    id: rows.last().id,
                    at: (rows.len() - 1) as usize,
                },
            )
        } else {
            before
        }
    }
}

/// The start of the interval that a time falls in.
pub open spec fn bucket_of(ts: u64, start: u64, interval: u64) -> u64 {
    (start + seconds_between(start, ts) / interval * interval) as u64
}

/// Whether two states share a channel and, where there are intervals, the interval.
pub open spec fn shares_group(
    a: SampleRowView,
    b: SampleRowView,
    start: u64,
    interval: Option<u64>,
) -> bool {
    a.sample.channel_key == b.sample.channel_key && match interval {
        Some(interval) => bucket_of(a.ts, start, interval) == bucket_of(b.ts, start, interval),
        None => true,
    }
}

/// Where the state that stands for a group is, or -1 where none does.
pub open spec fn standing_for(
    rows: Seq<SampleRowView>,
    kept: Seq<Position>,
    row: SampleRowView,
    start: u64,
    interval: Option<u64>,
) -> int
    decreases kept.len(),
{
    if kept.len() == 0 {
        -1
    } else if shares_group(rows[kept.last().at as int], row, start, interval) {
        kept.len() - 1
    } else {
        standing_for(rows, kept.drop_last(), row, start, interval)
    }
}

/// The states that stand for their groups, with one more taken in. It takes the place of the one
/// that stood for its group; where the most HTLCs count, only if it has at least as many.
pub open spec fn with_candidate(
    rows: Seq<SampleRowView>,
    kept: Seq<Position>,
    candidate: Position,
    start: u64,
    interval: Option<u64>,
    most: bool,
) -> Seq<Position> {
    let row = rows[candidate.at as int];
    let p = standing_for(rows, kept, row, start, interval);
    if p < 0 {
        kept.push(candidate)
    } else if !most || pending_htlcs(row.sample) >= pending_htlcs(rows[kept[p].at as int].sample) {
        kept.update(p, candidate)
    } else {
        kept
    }
}

/// One state for each group.
pub open spec fn condensed(
    rows: Seq<SampleRowView>,
    positions: Seq<Position>,
    start: u64,
    interval: Option<u64>,
    most: bool,
) -> Seq<Position>
    decreases positions.len(),
{
    if positions.len() == 0 {
        Seq::empty()
    } else {
        with_candidate(
            rows,
            condensed(rows, positions.drop_last(), start, interval, most),
            positions.last(),
            start,
            interval,
            most,
        )
    }
}

/// The states in the range that are shown: all, or one for each channel and interval.
pub open spec fn shown_positions(
    rows: Seq<SampleRowView>,
    scope: Scope,
    interval: Option<u64>,
) -> Seq<Position> {
    let inside = in_order::<Position>(positions_in(rows, scope));
    if interval is Some {
        condensed(rows, inside, scope.start, interval, scope.htlcs_only)
    } else {
        inside
    }
}

/// The last state of each channel from before the range.
pub open spec fn baseline_positions(rows: Seq<SampleRowView>, scope: Scope) -> Seq<Position> {
    condensed(rows, in_order::<Position>(positions_ahead(rows, scope)), scope.start, None, false)
}

/// A shown state with the start of its interval.
pub open spec fn shown(position: Position, start: u64, interval: Option<u64>) -> Chosen {
    Chosen {
        id: position.id,
        at: position.at,
        bucket_start: match interval {
            Some(interval) => Some(bucket_of(position.ts, start, interval)),
            None => None,
        },
    }
}

/// A state from before the range.
pub open spec fn baseline(position: Position) -> Chosen {
    Chosen { id: position.id, at: position.at, bucket_start: None }
}

/// The states of an answer on all its pages, by id.
pub open spec fn answer_of(rows: Seq<SampleRowView>, scope: Scope, interval: Option<u64>) -> Seq<
    Chosen,
> {
    let inside = shown_positions(rows, scope, interval);
    let ahead = baseline_positions(rows, scope);
    in_order::<Chosen>(
        Seq::new(inside.len(), |i: int| shown(inside[i], scope.start, interval)) + Seq::new(
            ahead.len(),
            |i: int| baseline(ahead[i]),
        ),
    )
}

/// Which states are behind an id.
pub open spec fn is_behind_id(cursor: u64) -> spec_fn(Chosen) -> bool {
    |c: Chosen| c.id > cursor
}

/// The states of an answer that are behind the cursor. Which state stands for a group does not depend
/// on the cursor.
pub open spec fn chosen_of(rows: Seq<SampleRowView>, scope: Scope, interval: Option<u64>) -> Seq<
    Chosen,
> {
    answer_of(rows, scope, interval).filter(is_behind_id(scope.cursor))
}

/// A recorded state in an answer.
#[derive(Debug)]
pub struct SampleItem {
    pub id: u64,
    pub timestamp: u64,
    pub bucket_start: Option<u64>,
    pub sample: ChannelSample,
    pub details: ChannelDetails,
}

/// What a recorded state in an answer says.
pub struct SampleItemView {
    pub id: u64,
    pub timestamp: u64,
    pub bucket_start: Option<u64>,
    pub sample: SampleView,
    pub details: DetailsView,
}

impl DeepView for SampleItem {
    type V = SampleItemView;

    open spec fn deep_view(&self) -> SampleItemView {
        SampleItemView {
            id: self.id,
            timestamp: self.timestamp,
            bucket_start: self.bucket_start,
            sample: self.sample@,
            details: self.details.deep_view(),
        }
    }
}

/// A page of recorded states.
#[derive(Debug)]
pub struct SamplePage {
    pub start: u64,
    pub end: u64,
    pub interval: Option<u64>,
    pub items: Vec<SampleItem>,
    pub next_cursor: Option<u64>,
    pub has_more: bool,
}

/// What a page says.
pub struct SamplePageView {
    pub start: u64,
    pub end: u64,
    pub interval: Option<u64>,
    pub items: Seq<SampleItemView>,
    pub next_cursor: Option<u64>,
    pub has_more: bool,
}

impl View for SamplePage {
    type V = SamplePageView;

    open spec fn view(&self) -> SamplePageView {
        SamplePageView {
            start: self.start,
            end: self.end,
            interval: self.interval,
            items: self.items.deep_view(),
            next_cursor: self.next_cursor,
            has_more: self.has_more,
        }
    }
}

/// A chosen state as it is shown.
pub open spec fn item_of(db: DbView, chosen: Chosen) -> SampleItemView {
    let row = db.samples[chosen.at as int];
    SampleItemView {
        id: row.id,
        timestamp: row.ts,
        bucket_start: chosen.bucket_start,
        sample: row.sample,
        details: details_of(db, row.sample.channel_key),
    }
}

/// How many of `count` results fit a page.
pub open spec fn page_len(count: nat, limit: u64) -> int {
    if count > limit {
        limit as int
    } else {
        count as int
    }
}

/// What a query asks for.
pub open spec fn scope_of(db: DbView, query: RangeView, now: u64, htlcs_only: bool) -> Scope {
    Scope {
        filter: match query.channel {
            Some(channel) => Some(identity_of(db.aliases, channel)),
            None => None,
        },
        start: query.range_at(now).0,
        end: query.range_at(now).1,
        cursor: query.after(),
        htlcs_only,
    }
}

/// The page that answers a query for samples.
pub open spec fn sample_page(
    db: DbView,
    query: SampleQueryView,
    now: u64,
    htlcs_only: bool,
) -> SamplePageView {
    let scope = scope_of(db, query.range, now, htlcs_only);
    let chosen = chosen_of(db.samples, scope, query.interval);
    let n = page_len(chosen.len(), query.range.limit);
    SamplePageView {
        start: scope.start,
        end: scope.end,
        interval: query.interval,
        items: Seq::new(n as nat, |i: int| item_of(db, chosen[i])),
        next_cursor: if chosen.len() > query.range.limit && n > 0 {
            Some(chosen[n - 1].id)
        } else {
            None
        },
        has_more: chosen.len() > query.range.limit,
    }
}

/// Which positions are those of rows.
pub open spec fn is_position(rows: Seq<SampleRowView>) -> spec_fn(Position) -> bool {
    |p: Position| p.at < rows.len() && p.ts == rows[p.at as int].ts && p.id == rows[p.at as int].id
}

/// Whether every one is the position of a row.
pub open spec fn are_positions(rows: Seq<SampleRowView>, positions: Seq<Position>) -> bool {
    forall|i: int| 0 <= i < positions.len() ==> is_position(rows)(#[trigger] positions[i])
}

proof fn lemma_condensed_positions(
    rows: Seq<SampleRowView>,
    positions: Seq<Position>,
    start: u64,
    interval: Option<u64>,
    most: bool,
)
    requires
        are_positions(rows, positions),
    ensures
        are_positions(rows, condensed(rows, positions, start, interval, most)),
        condensed(rows, positions, start, interval, most).len() <= positions.len(),
    decreases positions.len(),
{
    if positions.len() > 0 {
        let before = positions.drop_last();
        assert(are_positions(rows, before)) by {
            assert forall|i: int| 0 <= i < before.len() implies is_position(rows)(
                #[trigger] before[i],
            ) by {
                assert(before[i] == positions[i]);
            }
        }
        lemma_condensed_positions(rows, before, start, interval, most);
        let kept = condensed(rows, before, start, interval, most);
        let row = rows[positions.last().at as int];
        lemma_standing_for(rows, kept, row, start, interval);
        assert(is_position(rows)(positions[positions.len() - 1]));
    }
}

proof fn lemma_standing_for(
    rows: Seq<SampleRowView>,
    kept: Seq<Position>,
    row: SampleRowView,
    start: u64,
    interval: Option<u64>,
)
    ensures
        -1 <= standing_for(rows, kept, row, start, interval) < kept.len(),
    decreases kept.len(),
{
    if kept.len() > 0 {
        lemma_standing_for(rows, kept.drop_last(), row, start, interval);
    }
}

fn bucket_start_of(ts: u64, start: u64, interval: u64) -> (r: u64)
    requires
        interval > 0,
    ensures
        r == bucket_of(ts, start, interval),
{
    let passed: u64 = ts.saturating_sub(start);
    assert(passed / interval * interval <= passed) by (nonlinear_arith)
        requires
            interval > 0,
    ;
    start + passed / interval * interval
}

fn groups_together(
    a: &SampleRow,
    b: &SampleRow,
    start: u64,
    interval: Option<u64>,
) -> (r: bool)
    requires
        interval != Some(0u64),
    ensures
        r == shares_group(a.deep_view(), b.deep_view(), start, interval),
{
    same_text(a.sample.channel_key.as_str(), b.sample.channel_key.as_str()) && match interval {
        Some(interval) => bucket_start_of(a.ts, start, interval) == bucket_start_of(
            b.ts,
            start,
            interval,
        ),
        None => true,
    }
}

fn find_standing(
    samples: &Vec<SampleRow>,
    kept: &Vec<Position>,
    at: usize,
    start: u64,
    interval: Option<u64>,
) -> (r: Option<usize>)
    requires
        interval != Some(0u64),
        at < samples@.len(),
        are_positions(samples.deep_view(), kept@),
    ensures
        match r {
            Some(p) => p < kept@.len() && p == standing_for(
                samples.deep_view(),
                kept@,
                samples@[at as int].deep_view(),
                start,
                interval,
            ),
            None => standing_for(
                samples.deep_view(),
                kept@,
                samples@[at as int].deep_view(),
                start,
                interval,
            ) < 0,
        },
{
    let ghost rows = samples.deep_view();
    let ghost row = samples@[at as int].deep_view();
    let mut i: usize = kept.len();
    assert(kept@.take(i as int) =~= kept@);
    while i > 0
        invariant
            i <= kept@.len(),
            interval != Some(0u64),
            at < samples@.len(),
            rows == samples.deep_view(),
            row == samples@[at as int].deep_view(),
            are_positions(rows, kept@),
            standing_for(rows, kept@, row, start, interval) == standing_for(
                rows,
                kept@.take(i as int),
                row,
                start,
                interval,
            ),
        decreases i,
    {
        assert(kept@.take(i as int).drop_last() =~= kept@.take(i - 1));
        i = i - 1;
        assert(is_position(rows)(kept@[i as int]));
        if groups_together(&samples[kept[i].at], &samples[at], start, interval) {
            return Some(i);
        }
    }
    None
}

fn condense(
    samples: &Vec<SampleRow>,
    positions: &Vec<Position>,
    start: u64,
    interval: Option<u64>,
    most: bool,
) -> (r: Vec<Position>)
    requires
        interval != Some(0u64),
        are_positions(samples.deep_view(), positions@),
    ensures
        r@ == condensed(samples.deep_view(), positions@, start, interval, most),
{
    let ghost rows = samples.deep_view();
    let mut kept: Vec<Position> = Vec::new();
    let mut i: usize = 0;
    assert(positions@.take(0) =~= seq![]);
    while i < positions.len()
        invariant
            i <= positions@.len(),
            interval != Some(0u64),
            rows == samples.deep_view(),
            are_positions(rows, positions@),
            kept@ == condensed(rows, positions@.take(i as int), start, interval, most),
        decreases positions@.len() - i,
    {
        let ghost done = positions@.take(i as int);
        assert(positions@.take(i + 1).drop_last() =~= done);
        proof {
            assert forall|j: int| 0 <= j < done.len() implies is_position(rows)(
                #[trigger] done[j],
            ) by {
                assert(done[j] == positions@[j]);
            }
            lemma_condensed_positions(rows, done, start, interval, most);
            assert(is_position(rows)(positions@[i as int]));
        }
        let candidate = positions[i];
        match find_standing(samples, &kept, candidate.at, start, interval) {
            Some(p) => {
                assert(is_position(rows)(kept@[p as int]));
                let row = &samples[candidate.at].sample;
                let standing = &samples[kept[p].at].sample;
                if !most || row.htlc_in_count as u128 + row.htlc_out_count as u128
                    >= standing.htlc_in_count as u128 + standing.htlc_out_count as u128 {
                    kept.set(p, candidate);
                }
            },
            None => {
                kept.push(candidate);
            },
        }
        i = i + 1;
    }
    assert(positions@.take(i as int) =~= positions@);
    kept
}

proof fn lemma_positions_in(rows: Seq<SampleRowView>, n: int, scope: Scope)
    requires
        0 <= n <= rows.len(),
        rows.len() <= usize::MAX,
    ensures
        are_positions(rows, positions_in(rows.take(n), scope)),
        are_positions(rows, positions_ahead(rows.take(n), scope)),
    decreases n,
{
    if n > 0 {
        assert(rows.take(n).drop_last() =~= rows.take(n - 1));
        lemma_positions_in(rows, n - 1, scope);
    }
}

/// The range that an answer is looked for in, as plain values.
struct Search {
    filter: Option<String>,
    start: u64,
    end: u64,
    cursor: u64,
    htlcs_only: bool,
}

impl Search {
    spec fn scope(&self) -> Scope {
        Scope {
            filter: self.filter.deep_view(),
            start: self.start,
            end: self.end,
            cursor: self.cursor,
            htlcs_only: self.htlcs_only,
        }
    }
}

fn find_positions(samples: &Vec<SampleRow>, search: &Search) -> (r: (Vec<Position>, Vec<Position>))
    ensures
        r.0@ == positions_in(samples.deep_view(), search.scope()),
        r.1@ == positions_ahead(samples.deep_view(), search.scope()),
{
    let ghost rows = samples.deep_view();
    let mut inside: Vec<Position> = Vec::new();
    let mut ahead: Vec<Position> = Vec::new();
    let mut i: usize = 0;
    assert(rows.take(0) =~= seq![]);
    while i < samples.len()
        invariant
            i <= samples@.len(),
            rows == samples.deep_view(),
            inside@ == positions_in(rows.take(i as int), search.scope()),
            ahead@ == positions_ahead(rows.take(i as int), search.scope()),
        decreases samples@.len() - i,
    {
        assert(rows.take(i + 1).drop_last() =~= rows.take(i as int));
        let row = &samples[i];
        assert(row.deep_view() == rows[i as int]);
        if row.ts <= search.end && sample_matches(&search.filter, &row.sample) {
            let position = Position { ts: row.ts, id: row.id, at: i };
            if row.ts < search.start {
                ahead.push(position);
            } else if !search.htlcs_only || row.sample.htlc_in_count > 0
                || row.sample.htlc_out_count > 0 {
                inside.push(position);
            }
        }
        i = i + 1;
    }
    assert(rows.take(i as int) =~= rows);
    (inside, ahead)
}

fn behind_id(answer: &Vec<Chosen>, cursor: u64, count: usize) -> (r: Vec<Chosen>)
    requires
        forall|i: int| 0 <= i < answer@.len() ==> (#[trigger] answer@[i]).at < count,
    ensures
        r@ == answer@.filter(is_behind_id(cursor)),
        forall|i: int| 0 <= i < r@.len() ==> (#[trigger] r@[i]).at < count,
{
    reveal(Seq::filter);
    let mut r: Vec<Chosen> = Vec::new();
    let mut i: usize = 0;
    assert(answer@.take(0).filter(is_behind_id(cursor)) =~= seq![]);
    while i < answer.len()
        invariant
            i <= answer@.len(),
            r@ == answer@.take(i as int).filter(is_behind_id(cursor)),
            forall|j: int| 0 <= j < answer@.len() ==> (#[trigger] answer@[j]).at < count,
            forall|j: int| 0 <= j < r@.len() ==> (#[trigger] r@[j]).at < count,
        decreases answer@.len() - i,
    {
        reveal(Seq::filter);
        assert(answer@.take(i + 1).drop_last() =~= answer@.take(i as int));
        if answer[i].id > cursor {
            r.push(answer[i]);
        }
        i = i + 1;
    }
    assert(answer@.take(i as int) =~= answer@);
    r
}

fn choose_samples(samples: &Vec<SampleRow>, search: &Search, interval: Option<u64>) -> (r: Vec<
    Chosen,
>)
    requires
        interval != Some(0u64),
    ensures
        r@ == chosen_of(samples.deep_view(), search.scope(), interval),
        forall|i: int| 0 <= i < r@.len() ==> (#[trigger] r@[i]).at < samples@.len(),
{
    let ghost rows = samples.deep_view();
    let ghost scope = search.scope();
    let count: usize = samples.len();
    let (inside, ahead) = find_positions(samples, search);
    proof {
        assert(rows.take(rows.len() as int) =~= rows);
        lemma_positions_in(rows, rows.len() as int, scope);
        lemma_in_order_keeps::<Position>(inside@, is_position(rows));
        lemma_in_order_keeps::<Position>(ahead@, is_position(rows));
    }
    assert(inside.deep_view() =~= inside@);
    assert(ahead.deep_view() =~= ahead@);
    let inside = sort(inside);
    let ahead = sort(ahead);
    assert(inside.deep_view() =~= inside@);
    assert(ahead.deep_view() =~= ahead@);
    let inside = if interval.is_some() {
        condense(samples, &inside, search.start, interval, search.htlcs_only)
    } else {
        inside
    };
    proof {
        lemma_condensed_positions(
            rows,
            in_order::<Position>(positions_in(rows, scope)),
            scope.start,
            interval,
            scope.htlcs_only,
        );
        lemma_condensed_positions(
            rows,
            in_order::<Position>(positions_ahead(rows, scope)),
            scope.start,
            None,
            false,
        );
    }
    let mut chosen: Vec<Chosen> = Vec::new();
    let ghost shown_all = Seq::new(
        inside@.len(),
        |i: int| shown(inside@[i], scope.start, interval),
    );
    let mut i: usize = 0;
    while i < inside.len()
        invariant
            i <= inside@.len(),
            interval != Some(0u64),
            scope == search.scope(),
            shown_all == Seq::new(
                inside@.len(),
                |i: int| shown(inside@[i], scope.start, interval),
            ),
            chosen@ =~= shown_all.take(i as int),
        decreases inside@.len() - i,
    {
        let position = inside[i];
        chosen.push(
            Chosen {
                id: position.id,
                at: position.at,
                bucket_start: match interval {
                    Some(interval) => Some(bucket_start_of(position.ts, search.start, interval)),
                    None => None,
                },
            },
        );
        i = i + 1;
    }
    assert(chosen@ =~= shown_all);
    let ghost ahead_all = Seq::new(
        baseline_positions(rows, scope).len(),
        |i: int| baseline(baseline_positions(rows, scope)[i]),
    );
    let ahead = condense(samples, &ahead, search.start, None, false);
    let mut j: usize = 0;
    while j < ahead.len()
        invariant
            j <= ahead@.len(),
            ahead@ == baseline_positions(rows, scope),
            ahead_all == Seq::new(
                baseline_positions(rows, scope).len(),
                |i: int| baseline(baseline_positions(rows, scope)[i]),
            ),
            chosen@ =~= shown_all + ahead_all.take(j as int),
        decreases ahead@.len() - j,
    {
        let position = ahead[j];
        chosen.push(Chosen { id: position.id, at: position.at, bucket_start: None });
        j = j + 1;
    }
    assert(chosen@ =~= shown_all + ahead_all);
    proof {
        let holds = |c: Chosen| c.at < rows.len();
        assert forall|k: int| 0 <= k < chosen@.len() implies holds(#[trigger] chosen@[k]) by {
            if k < shown_all.len() {
                assert(is_position(rows)(inside@[k]));
            } else {
                assert(is_position(rows)(baseline_positions(rows, scope)[k - shown_all.len()]));
            }
        }
        lemma_in_order_keeps::<Chosen>(chosen@, holds);
    }
    assert(chosen.deep_view() =~= chosen@);
    let answer = sort(chosen);
    assert(answer.deep_view() =~= answer@);
    proof {
        assert forall|k: int| 0 <= k < answer@.len() implies (#[trigger] answer@[k]).at
            < samples@.len() by {
            assert(in_order::<Chosen>(shown_all + ahead_all)[k] == answer@[k]);
        }
    }
    behind_id(&answer, search.cursor, samples.len())
}

impl HistoryDb {
    fn load_samples(&self, query: &SampleQuery, now: u64, htlcs_only: bool) -> (r: Result<
        SamplePage,
        HistoryError,
    >)
        requires
            query.interval != Some(0u64),
        ensures
            if query@.range.range_at(now).1 > MAX_STORED {
                r == Err::<SamplePage, HistoryError>(HistoryError::OutOfRange)
            } else {
                r matches Ok(page) && page@ == sample_page(self@, query@, now, htlcs_only)
            },
    {
        let (start, end) = query.range.bounds_at(now);
        if end > MAX_STORED {
            return Err(HistoryError::OutOfRange);
        }
        let filter = match &query.range.channel {
            Some(channel) => Some(identity(&self.aliases, channel.as_str())),
            None => None,
        };
        let cursor: u64 = match query.range.cursor {
            Some(cursor) => cursor,
            None => 0,
        };
        let search = Search { filter, start, end, cursor, htlcs_only };
        let ghost scope = scope_of(self@, query@.range, now, htlcs_only);
        assert(search.scope() == scope);
        let chosen = choose_samples(&self.samples, &search, query.interval);
        let limit: u64 = query.range.limit;
        let has_more = chosen.len() as u64 > limit;
        let count: usize = if has_more {
            limit as usize
        } else {
            chosen.len()
        };
        let mut items: Vec<SampleItem> = Vec::new();
        let ghost expected = sample_page(self@, query@, now, htlcs_only);
        let mut i: usize = 0;
        while i < count
            invariant
                i <= count <= chosen@.len(),
                count == expected.items.len(),
                expected == sample_page(self@, query@, now, htlcs_only),
                scope == scope_of(self@, query@.range, now, htlcs_only),
                chosen@ == chosen_of(self@.samples, scope, query@.interval),
                forall|j: int| 0 <= j < chosen@.len() ==> (#[trigger] chosen@[j]).at
                    < self.samples@.len(),
                items.deep_view() =~= expected.items.take(i as int),
            decreases count - i,
        {
            let ghost before = items.deep_view();
            assert(chosen@[i as int].at < self.samples@.len());
            let row = &self.samples[chosen[i].at];
            assert(row.deep_view() == self@.samples[chosen@[i as int].at as int]);
            let item = SampleItem {
                id: row.id,
                timestamp: row.ts,
                bucket_start: chosen[i].bucket_start,
                sample: row.sample.clone(),
                details: self.channel_details(row.sample.channel_key.as_str()),
            };
            assert(item.deep_view() == expected.items[i as int]);
            items.push(item);
            assert(items.deep_view() =~= before.push(item.deep_view()));
            i = i + 1;
        }
        let next_cursor = if has_more && count > 0 {
            Some(chosen[count - 1].id)
        } else {
            None
        };
        assert(items.deep_view() =~= expected.items);
        Ok(SamplePage { start, end, interval: query.interval, items, next_cursor, has_more })
    }

    /// The recorded states of the channels in a range of time, and the last state of each channel from
    /// before the range, by id. With an interval, each channel shows the last state in each interval.
    pub fn channel_samples(&self, query: &SampleQuery, now: u64) -> (r: Result<
        SamplePage,
        HistoryError,
    >)
        requires
            query.interval != Some(0u64),
        ensures
            if query@.range.range_at(now).1 > MAX_STORED {
                r == Err::<SamplePage, HistoryError>(HistoryError::OutOfRange)
            } else {
                r matches Ok(page) && page@ == sample_page(self@, query@, now, false)
            },
    {
        self.load_samples(query, now, false)
    }

    /// The recorded states with pending HTLCs, and the last state of each channel from before the range,
    /// by id. With an interval, each channel shows the state with the most pending HTLCs in each
    /// interval.
    pub fn htlc_samples(&self, query: &SampleQuery, now: u64) -> (r: Result<
        SamplePage,
        HistoryError,
    >)
        requires
            query.interval != Some(0u64),
        ensures
            if query@.range.range_at(now).1 > MAX_STORED {
                r == Err::<SamplePage, HistoryError>(HistoryError::OutOfRange)
            } else {
                r matches Ok(page) && page@ == sample_page(self@, query@, now, true)
            },
    {
        self.load_samples(query, now, true)
    }
}

} // verus!
