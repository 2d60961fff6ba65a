//! Reading recorded events and forwarding results, page by page.

use crate::activity::{add_counts, counts_same, merged, same_bucket};
use crate::browse::{details_of, page_len, ChannelDetails, DetailsView, Position};
use crate::ordered::{lemma_parts_before_irreflexive, parts_before};
use crate::queries::{EventQuery, EventQueryView, PairQuery, PairQueryView};
use crate::recording::{fits, HistoryError};
use crate::sorting::{in_order, lemma_in_order_keeps, sort};
use crate::store::{
    identity, identity_of, AliasRow, BucketRow, DbView, EventRow, HistoryDb, MAX_STORED,
};
use crate::text::{is_text, lemma_text_before_irreflexive, precedes_text, same_text, text_before};
use vstd::prelude::*;

verus! {

/// What a name that may be missing stands for.
pub open spec fn filter_of(aliases: Seq<AliasRow<Seq<char>>>, name: Option<Seq<char>>) -> Option<
    Seq<char>,
> {
    match name {
        Some(name) => Some(identity_of(aliases, name)),
        None => None,
    }
}

/// What a name that may be missing stands for.
pub fn resolve_filter(aliases: &Vec<AliasRow<String>>, name: &Option<String>) -> (r: Option<String>)
    ensures
        r.deep_view() == filter_of(aliases.deep_view(), name.deep_view()),
{
    match name {
        Some(name) => Some(identity(aliases, name.as_str())),
        None => None,
    }
}

/// Whether an event is about the channel or peer.
pub open spec fn is_about(event: EventRow<Seq<char>>, channel: Seq<char>) -> bool {
    event.channel_key == Some(channel) || event.channel_id == Some(channel)
        || event.short_channel_id == Some(channel) || event.peer_id == Some(channel)
}

/// Where a page of rows that come by time and id begins.
#[derive(Clone, Copy, Debug)]
pub enum PageStart {
    /// With the first row.
    First,
    /// Behind a row of that time and id.
    Behind { ts: u64, id: u64 },
    /// Behind all rows.
    Nowhere,
}

impl PageStart {
    /// Whether the row of a time and an id comes on the page or on a later one.
    pub open spec fn is_ahead_of(self, ts: u64, id: u64) -> bool {
        match self {
            PageStart::First => true,
            PageStart::Behind { ts: seen, id: last } => seen < ts || (seen == ts && last < id),
            PageStart::Nowhere => false,
        }
    }

    /// Whether the row of a time and an id comes on the page or on a later one.
    pub fn precedes(&self, ts: u64, id: u64) -> (r: bool)
        ensures
            r == self.is_ahead_of(ts, id),
    {
        match self {
            PageStart::First => true,
            PageStart::Behind { ts: seen, id: last } => *seen < ts || (*seen == ts && *last < id),
            PageStart::Nowhere => false,
        }
    }
}

/// Where the page behind a cursor begins, for the time of the row that the cursor names and the last id
/// that was given to a row. Ids begin with 1, so that all rows are behind a cursor of 0. An id that was
/// given and is no longer found is that of a row that was dropped for its age: all rows that are left
/// stand behind it.
pub open spec fn start_behind(time: Option<u64>, cursor: u64, last: u64) -> PageStart {
    match time {
        Some(ts) => PageStart::Behind { ts, id: cursor },
        None => if cursor <= last {
            PageStart::First
        } else {
            PageStart::Nowhere
        },
    }
}

/// Where the page behind a cursor begins.
pub fn page_start(time: Option<u64>, cursor: u64, last: u64) -> (r: PageStart)
    ensures
        r == start_behind(time, cursor, last),
{
    match time {
        Some(ts) => PageStart::Behind { ts, id: cursor },
        None => if cursor <= last {
            PageStart::First
        } else {
            PageStart::Nowhere
        },
    }
}

/// The time of the event with an id.
pub open spec fn event_time(events: Seq<EventRow<Seq<char>>>, id: u64) -> Option<u64>
    decreases events.len(),
{
    if events.len() == 0 {
        None
    } else if events.last().id == id {
        Some(events.last().ts)
    } else {
        event_time(events.drop_last(), id)
    }
}

fn find_event_time(events: &Vec<EventRow<String>>, id: u64) -> (r: Option<u64>)
    ensures
        r == event_time(events.deep_view(), id),
{
    let ghost rows = events.deep_view();
    let mut i: usize = events.len();
    assert(rows.take(i as int) =~= rows);
    while i > 0
        invariant
            i <= events@.len(),
            rows == events.deep_view(),
            event_time(rows, id) == event_time(rows.take(i as int), id),
        decreases i,
    {
        assert(rows.take(i as int).drop_last() =~= rows.take(i - 1));
        i = i - 1;
        assert(events@[i as int].deep_view() == rows[i as int]);
        if events[i].id == id {
            return Some(events[i].ts);
        }
    }
    None
}

/// Which events are asked for.
pub struct EventScope {
    pub start: u64,
    pub end: u64,
    pub after: PageStart,
    pub event_type: Option<Seq<char>>,
    pub channel: Option<Seq<char>>,
}

/// Whether an event is asked for.
pub open spec fn is_event_wanted(scope: EventScope, event: EventRow<Seq<char>>) -> bool {
    &&& scope.start <= event.ts <= scope.end
    &&& scope.after.is_ahead_of(event.ts, event.id)
    &&& scope.event_type matches Some(kind) ==> event.event_type == kind
    &&& scope.channel matches Some(channel) ==> is_about(event, channel)
}

/// The positions of the events that are asked for.
pub open spec fn event_positions(events: Seq<EventRow<Seq<char>>>, scope: EventScope) -> Seq<
    Position,
>
    decreases events.len(),
{
    if events.len() == 0 {
        Seq::empty()
    } else {
        let before = event_positions(events.drop_last(), scope);
        if is_event_wanted(scope, events.last()) {
            before.push(
                Position {
                    ts: events.last().ts,
                    id: events.last().id,
                    at: (events.len() - 1) as usize,
                },
            )
        } else {
            before
        }
    }
}

/// A page of events.
#[derive(Debug)]
pub struct EventPage {
    pub start: u64,
    pub end: u64,
    pub items: Vec<EventRow<String>>,
    pub next_cursor: Option<u64>,
    pub has_more: bool,
}

/// What a page of events says.
pub struct EventPageView {
    pub start: u64,
    pub end: u64,
    pub items: Seq<EventRow<Seq<char>>>,
    pub next_cursor: Option<u64>,
    pub has_more: bool,
}

impl View for EventPage {
    type V = EventPageView;

    open spec fn view(&self) -> EventPageView {
        EventPageView {
            start: self.start,
            end: self.end,
            items: self.items.deep_view(),
            next_cursor: self.next_cursor,
            has_more: self.has_more,
        }
    }
}

/// What a query for events asks for.
pub open spec fn event_scope(db: DbView, query: EventQueryView, now: u64) -> EventScope {
    EventScope {
        start: query.range.range_at(now).0,
        end: query.range.range_at(now).1,
        after: start_behind(
            event_time(db.events, query.range.after()),
            query.range.after(),
            db.last_event_id,
        ),
        event_type: query.event_type,
        channel: filter_of(db.aliases, query.range.channel),
    }
}

/// The page that answers a query for events: by time, then by id, behind the event that the cursor
/// names.
pub open spec fn event_page(db: DbView, query: EventQueryView, now: u64) -> EventPageView {
    let scope = event_scope(db, query, now);
    let found = in_order::<Position>(event_positions(db.events, scope));
    let n = page_len(found.len(), query.range.limit);
    EventPageView {
        start: scope.start,
        end: scope.end,
        items: Seq::new(n as nat, |i: int| db.events[found[i].at as int]),
        next_cursor: if found.len() > query.range.limit && n > 0 {
            Some(found[n - 1].id)
        } else {
            None
        },
        has_more: found.len() > query.range.limit,
    }
}

fn about(event: &EventRow<String>, channel: &str) -> (r: bool)
    ensures
        r == is_about(event.deep_view(), channel@),
{
    is_text(&event.channel_key, channel) || is_text(&event.channel_id, channel) || is_text(
        &event.short_channel_id,
        channel,
    ) || is_text(&event.peer_id, channel)
}

fn find_events(
    events: &Vec<EventRow<String>>,
    start: u64,
    end: u64,
    after: PageStart,
    event_type: &Option<String>,
    channel: &Option<String>,
    Ghost(scope): Ghost<EventScope>,
) -> (r: Vec<Position>)
    requires
        scope == (EventScope {
            start,
            end,
            after,
            event_type: event_type.deep_view(),
            channel: channel.deep_view(),
        }),
    ensures
        r@ == event_positions(events.deep_view(), scope),
        forall|i: int| 0 <= i < r@.len() ==> (#[trigger] r@[i]).at < events@.len(),
{
    let ghost rows = events.deep_view();
    let mut found: Vec<Position> = Vec::new();
    let mut i: usize = 0;
    assert(rows.take(0) =~= seq![]);
    while i < events.len()
        invariant
            i <= events@.len(),
            rows == events.deep_view(),
            scope == (EventScope {
                start,
                end,
                after,
                event_type: event_type.deep_view(),
                channel: channel.deep_view(),
            }),
            found@ == event_positions(rows.take(i as int), scope),
            forall|j: int| 0 <= j < found@.len() ==> (#[trigger] found@[j]).at < events@.len(),
        decreases events@.len() - i,
    {
        assert(rows.take(i + 1).drop_last() =~= rows.take(i as int));
        let event = &events[i];
        assert(event.deep_view() == rows[i as int]);
        let type_matches = match event_type {
            Some(kind) => same_text(event.event_type.as_str(), kind.as_str()),
            None => true,
        };
        let channel_matches = match channel {
            Some(channel) => about(event, channel.as_str()),
            None => true,
        };
        if start <= event.ts && event.ts <= end && after.precedes(event.ts, event.id)
            && type_matches && channel_matches {
            found.push(Position { ts: event.ts, id: event.id, at: i });
        }
        i = i + 1;
    }
    assert(rows.take(i as int) =~= rows);
    found
}

impl HistoryDb {
    /// The events in a range of time, by time and id.
    pub fn events(&self, query: &EventQuery, now: u64) -> (r: Result<EventPage, HistoryError>)
        ensures
            if fits(query@.range.range_at(now).0) && fits(query@.range.range_at(now).1) {
                r matches Ok(page) && page@ == event_page(self@, query@, now)
            } else {
                r == Err::<EventPage, HistoryError>(HistoryError::OutOfRange)
            },
    {
        let (start, end) = query.range.bounds_at(now);
        if start > MAX_STORED || end > MAX_STORED {
            return Err(HistoryError::OutOfRange);
        }
        let channel = resolve_filter(&self.aliases, &query.range.channel);
        let cursor: u64 = match query.range.cursor {
            Some(cursor) => cursor,
            None => 0,
        };
        let time = find_event_time(&self.events, cursor);
        let after = page_start(time, cursor, self.last_event_id);
        let ghost scope = event_scope(self@, query@, now);
        let found = find_events(
            &self.events,
            start,
            end,
            after,
            &query.event_type,
            &channel,
            Ghost(scope),
        );
        proof {
            let holds = |p: Position| p.at < self.events@.len();
            lemma_in_order_keeps::<Position>(found@, holds);
            assert forall|k: int| 0 <= k < in_order::<Position>(found@).len() implies (
            #[trigger] in_order::<Position>(found@)[k]).at < self.events@.len() by {
                assert(holds(in_order::<Position>(found@)[k]));
            }
        }
        assert(found.deep_view() =~= found@);
        let found = sort(found);
        assert(found.deep_view() =~= found@);
        let limit: u64 = query.range.limit;
        let has_more = found.len() as u64 > limit;
        let count: usize = if has_more {
            limit as usize
        } else {
            found.len()
        };
        let ghost expected = event_page(self@, query@, now);
        let mut items: Vec<EventRow<String>> = Vec::new();
        let mut i: usize = 0;
        while i < count
            invariant
                i <= count <= found@.len(),
                count == expected.items.len(),
                expected == event_page(self@, query@, now),
                scope == event_scope(self@, query@, now),
                found@ == in_order::<Position>(event_positions(self@.events, scope)),
                forall|j: int| 0 <= j < found@.len() ==> (#[trigger] found@[j]).at
                    < self.events@.len(),
                items.deep_view() =~= expected.items.take(i as int),
            decreases count - i,
        {
            let ghost before = items.deep_view();
            assert(found@[i as int].at < self.events@.len());
            items.push(self.events[found[i].at].clone());
            assert(items.deep_view() =~= before.push(expected.items[i as int]));
            i = i + 1;
        }
        let next_cursor = if has_more && count > 0 {
            Some(found[count - 1].id)
        } else {
            None
        };
        assert(items.deep_view() =~= expected.items);
        Ok(EventPage { start, end, items, next_cursor, has_more })
    }
}

/// The texts by which forwards are ordered, after their time.
pub open spec fn pair_parts(row: BucketRow<Seq<char>>) -> Seq<Seq<char>> {
    seq![row.in_channel, row.out_channel, row.status]
}

/// Whether one group of forwards comes before another: by time, channels, status, failure code and
/// failure reason.
pub open spec fn pair_before(a: BucketRow<Seq<char>>, b: BucketRow<Seq<char>>) -> bool {
    a.bucket_start < b.bucket_start || (a.bucket_start == b.bucket_start && (parts_before(
        pair_parts(a),
        pair_parts(b),
    ) || (pair_parts(a) == pair_parts(b) && (a.failcode < b.failcode || (a.failcode == b.failcode
        && text_before(a.failreason, b.failreason))))))
}

fn pair_precedes(a: &BucketRow<String>, b: &BucketRow<String>) -> (r: bool)
    ensures
        r == pair_before(a.deep_view(), b.deep_view()),
{
    let ghost x = pair_parts(a.deep_view());
    let ghost y = pair_parts(b.deep_view());
    proof {
        reveal_with_fuel(parts_before, 4);
        assert(x.drop_first() =~= seq![a.out_channel@, a.status@]);
        assert(y.drop_first() =~= seq![b.out_channel@, b.status@]);
        assert(x.drop_first().drop_first() =~= seq![a.status@]);
        assert(y.drop_first().drop_first() =~= seq![b.status@]);
        assert(x.drop_first().drop_first().drop_first() =~= Seq::<Seq<char>>::empty());
        assert(y.drop_first().drop_first().drop_first() =~= Seq::<Seq<char>>::empty());
        if a.in_channel@ == b.in_channel@ && a.out_channel@ == b.out_channel@ && a.status@
            == b.status@ {
            assert(x =~= y);
        } else {
            assert(x[0] == a.in_channel@ && x[1] == a.out_channel@ && x[2] == a.status@);
            assert(y[0] == b.in_channel@ && y[1] == b.out_channel@ && y[2] == b.status@);
        }
    }
    if a.bucket_start != b.bucket_start {
        return a.bucket_start < b.bucket_start;
    }
    if !same_text(a.in_channel.as_str(), b.in_channel.as_str()) {
        return precedes_text(a.in_channel.as_str(), b.in_channel.as_str());
    }
    proof {
        lemma_text_before_irreflexive(a.in_channel@);
    }
    if !same_text(a.out_channel.as_str(), b.out_channel.as_str()) {
        return precedes_text(a.out_channel.as_str(), b.out_channel.as_str());
    }
    proof {
        lemma_text_before_irreflexive(a.out_channel@);
    }
    if !same_text(a.status.as_str(), b.status.as_str()) {
        return precedes_text(a.status.as_str(), b.status.as_str());
    }
    proof {
        lemma_text_before_irreflexive(a.status@);
        lemma_parts_before_irreflexive(x);
    }
    if a.failcode != b.failcode {
        return a.failcode < b.failcode;
    }
    precedes_text(a.failreason.as_str(), b.failreason.as_str())
}

/// A counted forward, moved to the start of its interval.
pub open spec fn in_period(row: BucketRow<Seq<char>>, interval: u64) -> BucketRow<Seq<char>> {
    BucketRow { bucket_start: (row.bucket_start / interval * interval) as u64, ..row }
}

/// The place of a group: behind the last that comes before it.
pub open spec fn group_place(groups: Seq<BucketRow<Seq<char>>>, row: BucketRow<Seq<char>>) -> int
    decreases groups.len(),
{
    if groups.len() == 0 || pair_before(groups.last(), row) {
        groups.len() as int
    } else {
        group_place(groups.drop_last(), row)
    }
}

/// The groups with one more row: added to its group, or a group of its own.
pub open spec fn with_group(groups: Seq<BucketRow<Seq<char>>>, row: BucketRow<Seq<char>>) -> Seq<
    BucketRow<Seq<char>>,
> {
    let p = group_place(groups, row);
    if p < groups.len() && same_bucket(groups[p], row) {
        groups.update(p, merged(groups[p], row))
    } else {
        groups.insert(p, row)
    }
}

/// The forwards from `start` to `end`, added up by interval, channels and how they ended.
pub open spec fn grouped(
    buckets: Seq<BucketRow<Seq<char>>>,
    start: u64,
    end: u64,
    interval: u64,
) -> Seq<BucketRow<Seq<char>>>
    decreases buckets.len(),
{
    if buckets.len() == 0 {
        Seq::empty()
    } else {
        let before = grouped(buckets.drop_last(), start, end, interval);
        let row = buckets.last();
        if start <= row.bucket_start <= end {
            with_group(before, in_period(row, interval))
        } else {
            before
        }
    }
}

/// Whether the totals of a group fit a table.
pub open spec fn group_fits(row: BucketRow<Seq<char>>) -> bool {
    row.forward_count <= MAX_STORED && row.in_msat <= MAX_STORED && row.out_msat <= MAX_STORED
        && row.fee_msat <= MAX_STORED
}

/// Whether the totals of every group fit a table.
pub open spec fn groups_fit(groups: Seq<BucketRow<Seq<char>>>) -> bool {
    forall|i: int| 0 <= i < groups.len() ==> group_fits(#[trigger] groups[i])
}

fn find_group(groups: &Vec<BucketRow<String>>, row: &BucketRow<String>) -> (r: usize)
    ensures
        r == group_place(groups.deep_view(), row.deep_view()),
        r <= groups@.len(),
{
    let ghost all = groups.deep_view();
    let mut i: usize = groups.len();
    assert(all.take(i as int) =~= all);
    while i > 0 && !pair_precedes(&groups[i - 1], row)
        invariant
            i <= groups@.len(),
            all == groups.deep_view(),
            group_place(all, row.deep_view()) == group_place(all.take(i as int), row.deep_view()),
        decreases i,
    {
        assert(all.take(i as int).drop_last() =~= all.take(i - 1));
        assert(all.take(i as int).last() == groups@[i - 1].deep_view());
        i = i - 1;
    }
    if i > 0 {
        assert(all.take(i as int).last() == groups@[i - 1].deep_view());
    }
    i
}

fn group_forwards(buckets: &Vec<BucketRow<String>>, start: u64, end: u64, interval: u64) -> (r: Vec<
    BucketRow<String>,
>)
    requires
        interval > 0,
    ensures
        r.deep_view() == grouped(buckets.deep_view(), start, end, interval),
{
    let ghost rows = buckets.deep_view();
    let mut groups: Vec<BucketRow<String>> = Vec::new();
    let mut i: usize = 0;
    assert(rows.take(0) =~= seq![]);
    assert(groups.deep_view() =~= seq![]);
    while i < buckets.len()
        invariant
            i <= buckets@.len(),
            interval > 0,
            rows == buckets.deep_view(),
            groups.deep_view() == grouped(rows.take(i as int), start, end, interval),
        decreases buckets@.len() - i,
    {
        assert(rows.take(i + 1).drop_last() =~= rows.take(i as int));
        let bucket_start: u64 = buckets[i].bucket_start;
        assert(rows[i as int].bucket_start == bucket_start);
        if start <= bucket_start && bucket_start <= end {
            let ghost before = groups.deep_view();
            let mut row = buckets[i].clone();
            assert(bucket_start / interval * interval <= bucket_start) by (nonlinear_arith)
                requires
                    interval > 0,
            ;
            row.bucket_start = bucket_start / interval * interval;
            assert(row.deep_view() == in_period(rows[i as int], interval));
            let at = find_group(&groups, &row);
            if at < groups.len() && counts_same(&groups[at], &row) {
                add_counts(&mut groups[at], &row);
                assert(groups.deep_view() =~= before.update(
                    at as int,
                    merged(before[at as int], row.deep_view()),
                ));
            } else {
                groups.insert(at, row);
                assert(groups.deep_view() =~= before.insert(at as int, row.deep_view()));
            }
        }
        i = i + 1;
    }
    assert(rows.take(i as int) =~= rows);
    groups
}

fn all_fit(groups: &Vec<BucketRow<String>>) -> (r: bool)
    ensures
        r == groups_fit(groups.deep_view()),
{
    let ghost rows = groups.deep_view();
    let limit: u128 = MAX_STORED as u128;
    let mut i: usize = 0;
    while i < groups.len()
        invariant
            i <= groups@.len(),
            limit == MAX_STORED,
            rows == groups.deep_view(),
            forall|j: int| 0 <= j < i ==> group_fits(#[trigger] rows[j]),
        decreases groups@.len() - i,
    {
        let row = &groups[i];
        if row.forward_count > limit || row.in_msat > limit || row.out_msat > limit || row.fee_msat
            > limit {
            assert(!group_fits(rows[i as int]));
            return false;
        }
        i = i + 1;
    }
    true
}

/// A group of forwards, with what is known of its channels.
#[derive(Debug)]
pub struct PairItem {
    pub totals: BucketRow<String>,
    pub in_details: ChannelDetails,
    pub out_details: ChannelDetails,
}

/// What a group of forwards says.
pub struct PairItemView {
    pub totals: BucketRow<Seq<char>>,
    pub in_details: DetailsView,
    pub out_details: DetailsView,
}

impl DeepView for PairItem {
    type V = PairItemView;

    open spec fn deep_view(&self) -> PairItemView {
        PairItemView {
            totals: self.totals.deep_view(),
            in_details: self.in_details.deep_view(),
            out_details: self.out_details.deep_view(),
        }
    }
}

/// A page of forwarding results.
#[derive(Debug)]
pub struct PairPage {
    pub start: u64,
    pub end: u64,
    pub interval: u64,
    pub items: Vec<PairItem>,
    pub next_cursor: Option<u64>,
    pub has_more: bool,
}

/// What a page of forwarding results says.
pub struct PairPageView {
    pub start: u64,
    pub end: u64,
    pub interval: u64,
    pub items: Seq<PairItemView>,
    pub next_cursor: Option<u64>,
    pub has_more: bool,
}

impl View for PairPage {
    type V = PairPageView;

    open spec fn view(&self) -> PairPageView {
        PairPageView {
            start: self.start,
            end: self.end,
            interval: self.interval,
            items: self.items.deep_view(),
            next_cursor: self.next_cursor,
            has_more: self.has_more,
        }
    }
}

/// Whether a channel is the one asked for.
pub open spec fn is_channel(filter: Option<Seq<char>>, channel: Seq<char>) -> bool {
    match filter {
        Some(filter) => filter == channel,
        None => true,
    }
}

/// Whether a channel is the one asked for.
pub fn matches_channel(filter: &Option<String>, channel: &str) -> (r: bool)
    ensures
        r == is_channel(filter.deep_view(), channel@),
{
    match filter {
        Some(filter) => same_text(filter.as_str(), channel),
        None => true,
    }
}

/// The groups of the channels asked for whose rate is admitted.
pub open spec fn passing(
    groups: Seq<BucketRow<Seq<char>>>,
    admitted: Seq<bool>,
    in_filter: Option<Seq<char>>,
    out_filter: Option<Seq<char>>,
) -> Seq<BucketRow<Seq<char>>>
    decreases groups.len(),
{
    if groups.len() == 0 {
        Seq::empty()
    } else {
        let before = passing(groups.drop_last(), admitted, in_filter, out_filter);
        let row = groups.last();
        if admitted[groups.len() - 1] && is_channel(in_filter, row.in_channel) && is_channel(
            out_filter,
            row.out_channel,
        ) {
            before.push(row)
        } else {
            before
        }
    }
}

/// How many of `count` results come before the page behind `cursor`.
pub open spec fn skipped(count: nat, cursor: u64) -> int {
    if cursor >= count {
        count as int
    } else {
        cursor as int
    }
}

/// A group with what is known of its channels.
pub open spec fn pair_item(db: DbView, row: BucketRow<Seq<char>>) -> PairItemView {
    PairItemView {
        totals: row,
        in_details: details_of(db, row.in_channel),
        out_details: details_of(db, row.out_channel),
    }
}

/// The page of groups that answers a query. The cursor counts the groups of earlier pages.
pub open spec fn pair_page(
    db: DbView,
    query: PairQueryView,
    now: u64,
    groups: Seq<BucketRow<Seq<char>>>,
    admitted: Seq<bool>,
) -> PairPageView {
    let found = passing(
        groups,
        admitted,
        filter_of(db.aliases, query.in_channel),
        filter_of(db.aliases, query.out_channel),
    );
    let from = skipped(found.len(), query.range.after());
    let rest = (found.len() - from) as nat;
    let n = page_len(rest, query.range.limit);
    PairPageView {
        start: query.range.range_at(now).0,
        end: query.range.range_at(now).1,
        interval: query.interval,
        items: Seq::new(n as nat, |i: int| pair_item(db, found[from + i])),
        next_cursor: if rest > query.range.limit {
            Some((query.range.after() + n) as u64)
        } else {
            None
        },
        has_more: rest > query.range.limit,
    }
}

fn pass(
    groups: &Vec<BucketRow<String>>,
    admitted: &Vec<bool>,
    in_filter: &Option<String>,
    out_filter: &Option<String>,
) -> (r: Vec<usize>)
    requires
        admitted@.len() == groups@.len(),
    ensures
        r@.len() == passing(
            groups.deep_view(),
            admitted@,
            in_filter.deep_view(),
            out_filter.deep_view(),
        ).len(),
        forall|i: int|
            0 <= i < r@.len() ==> (#[trigger] r@[i]) < groups@.len() && groups.deep_view()[r@[i] as int]
                == passing(
                groups.deep_view(),
                admitted@,
                in_filter.deep_view(),
                out_filter.deep_view(),
            )[i],
{
    let ghost rows = groups.deep_view();
    let ghost fin = in_filter.deep_view();
    let ghost fout = out_filter.deep_view();
    let mut r: Vec<usize> = Vec::new();
    let mut i: usize = 0;
    assert(rows.take(0) =~= seq![]);
    while i < groups.len()
        invariant
            i <= groups@.len(),
            admitted@.len() == groups@.len(),
            rows == groups.deep_view(),
            fin == in_filter.deep_view(),
            fout == out_filter.deep_view(),
            r@.len() == passing(rows.take(i as int), admitted@, fin, fout).len(),
            forall|j: int|
                0 <= j < r@.len() ==> (#[trigger] r@[j]) < groups@.len() && rows[r@[j] as int]
                    == passing(rows.take(i as int), admitted@, fin, fout)[j],
        decreases groups@.len() - i,
    {
        assert(rows.take(i + 1).drop_last() =~= rows.take(i as int));
        let row = &groups[i];
        assert(row.deep_view() == rows[i as int]);
        if admitted[i] && matches_channel(in_filter, row.in_channel.as_str()) && matches_channel(
            out_filter,
            row.out_channel.as_str(),
        ) {
            r.push(i);
        }
        i = i + 1;
    }
    assert(rows.take(i as int) =~= rows);
    r
}

impl HistoryDb {
    /// The forwarding results in a range of time, added up by interval, channels and how they ended.
    pub fn pair_totals(&self, query: &PairQuery, now: u64) -> (r: Result<
        Vec<BucketRow<String>>,
        HistoryError,
    >)
        requires
            query.interval > 0,
        ensures
            ({
                let (start, end) = query@.range.range_at(now);
                let groups = grouped(self@.buckets, start, end, query.interval);
                if fits(start) && fits(end) && fits(query.interval) && groups_fit(groups) {
                    r matches Ok(totals) && totals.deep_view() == groups
                } else {
                    r == Err::<Vec<BucketRow<String>>, HistoryError>(HistoryError::OutOfRange)
                }
            }),
    {
        let (start, end) = query.range.bounds_at(now);
        if start > MAX_STORED || end > MAX_STORED || query.interval > MAX_STORED {
            return Err(HistoryError::OutOfRange);
        }
        let groups = group_forwards(&self.buckets, start, end, query.interval);
        if all_fit(&groups) {
            Ok(groups)
        } else {
            Err(HistoryError::OutOfRange)
        }
    }

    /// The page of forwarding results for the totals of [`HistoryDb::pair_totals`]. `admitted` says of
    /// each of them whether its effective rate is within what was asked for.
    pub fn forward_pairs(
        &self,
        query: &PairQuery,
        now: u64,
        totals: &Vec<BucketRow<String>>,
        admitted: &Vec<bool>,
    ) -> (r: PairPage)
        requires
            admitted@.len() == totals@.len(),
        ensures
            r@ == pair_page(self@, query@, now, totals.deep_view(), admitted@),
    {
        let (start, end) = query.range.bounds_at(now);
        let in_filter = resolve_filter(&self.aliases, &query.in_channel);
        let out_filter = resolve_filter(&self.aliases, &query.out_channel);
        let found = pass(totals, admitted, &in_filter, &out_filter);
        let ghost passed = passing(
            totals.deep_view(),
            admitted@,
            in_filter.deep_view(),
            out_filter.deep_view(),
        );
        let cursor: u64 = match query.range.cursor {
            Some(cursor) => cursor,
            None => 0,
        };
        let available: usize = found.len();
        let from: usize = if cursor >= available as u64 {
            available
        } else {
            cursor as usize
        };
        let rest: usize = available - from;
        let limit: u64 = query.range.limit;
        let has_more = rest as u64 > limit;
        let count: usize = if has_more {
            limit as usize
        } else {
            rest
        };
        let ghost expected = pair_page(self@, query@, now, totals.deep_view(), admitted@);
        let mut items: Vec<PairItem> = Vec::new();
        let mut i: usize = 0;
        while i < count
            invariant
                i <= count,
                from + count <= available,
                available == found@.len(),
                found@.len() == passed.len(),
                count == expected.items.len(),
                expected == pair_page(self@, query@, now, totals.deep_view(), admitted@),
                passed == passing(
                    totals.deep_view(),
                    admitted@,
                    filter_of(self@.aliases, query@.in_channel),
                    filter_of(self@.aliases, query@.out_channel),
                ),
                from == skipped(passed.len(), query@.range.after()),
                forall|j: int|
                    0 <= j < found@.len() ==> (#[trigger] found@[j]) < totals@.len()
                        && totals.deep_view()[found@[j] as int] == passed[j],
                items.deep_view() =~= expected.items.take(i as int),
            decreases count - i,
        {
            let ghost before = items.deep_view();
            let at: usize = found[from + i];
            assert(totals.deep_view()[at as int] == passed[from + i]);
            let row = totals[at].clone();
            let item = PairItem {
                in_details: self.channel_details(row.in_channel.as_str()),
                out_details: self.channel_details(row.out_channel.as_str()),
                totals: row,
            };
            assert(item.deep_view() == expected.items[i as int]);
            items.push(item);
            assert(items.deep_view() =~= before.push(item.deep_view()));
            i = i + 1;
        }
        let next_cursor = if has_more {
            Some(cursor + count as u64)
        } else {
            None
        };
        assert(items.deep_view() =~= expected.items);
        PairPage { start, end, interval: query.interval, items, next_cursor, has_more }
    }
}

} // verus!
