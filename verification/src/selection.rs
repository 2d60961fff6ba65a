//! What the answers to queries hold: the rows that were asked for, all of them, and no others.

use crate::browse::{
    ahead_of_range, answer_of, baseline, baseline_positions, bucket_of, channel_row, chosen_of,
    details_of, in_range, is_position, item_of, positions_ahead, positions_in, sample_page,
    scope_of, shares_group, shown, shown_positions, stands_for, Chosen, Position, SamplePageView,
    Scope,
};
use crate::integrity::sound;
use crate::model::SampleView;
use crate::paging::{
    chosen_id, lemma_answer, lemma_answer_rows, lemma_baseline_positions, lemma_chosen,
    lemma_condensed_groups, lemma_kept_for, lemma_positions_ahead, lemma_positions_in,
    lemma_shown_positions,
};
use crate::queries::{RangeView, SampleQueryView};
use crate::recording::is_later;
use crate::sorting::{in_order, law_sorting_orders_and_keeps, lemma_in_order_contains};
use crate::store::{identity_of, AliasRow, ChannelRow, DbView, SampleRowView};
use vstd::prelude::*;

verus! {

/// The first second that a range asks for.
pub open spec fn asked_start(range: RangeView) -> int {
    match range.start {
        Some(start) => start as int,
        None => 0,
    }
}

/// The last second that a range asks for.
pub open spec fn asked_end(range: RangeView, now: u64) -> int {
    match range.end {
        Some(end) => end as int,
        None => now as int,
    }
}

/// Whether a state bears a name: as its key, as one of its ids, or as its peer.
pub open spec fn bears(sample: SampleView, name: Seq<char>) -> bool {
    ||| sample.channel_key == name
    ||| sample.channel_id == Some(name)
    ||| sample.short_channel_id == Some(name)
    ||| sample.peer_id == name
}

/// Whether a state is of what the range names, if it names anything.
pub open spec fn is_named(db: DbView, range: RangeView, sample: SampleView) -> bool {
    range.channel matches Some(name) ==> bears(sample, identity_of(db.aliases, name))
}

/// Whether the row of that id is on the page or was on an earlier one.
pub open spec fn is_reached(page: SamplePageView, id: u64) -> bool {
    page.has_more ==> (page.next_cursor matches Some(last) && id <= last)
}

/// Whether a page shows a recorded state.
pub open spec fn shows_row(page: SamplePageView, row: SampleRowView) -> bool {
    exists|i: int|
        0 <= i < page.items.len() && (#[trigger] page.items[i]).id == row.id
            && page.items[i].timestamp == row.ts && page.items[i].sample == row.sample
}

/// Whether one state is behind another: by time, then by id.
pub open spec fn comes_after(a: SampleRowView, b: SampleRowView) -> bool {
    a.ts > b.ts || (a.ts == b.ts && a.id > b.id)
}

proof fn lemma_page_item(
    db: DbView,
    query: SampleQueryView,
    now: u64,
    htlcs_only: bool,
    c: Chosen,
)
    requires
        sound(db),
        db.samples.len() <= usize::MAX,
        query.range.limit > 0,
        answer_of(
            db.samples,
            scope_of(db, query.range, now, htlcs_only),
            query.interval,
        ).contains(c),
        query.range.cursor matches Some(cursor) ==> c.id > cursor,
        is_reached(sample_page(db, query, now, htlcs_only), c.id),
    ensures
        c.at < db.samples.len(),
        shows_row(sample_page(db, query, now, htlcs_only), db.samples[c.at as int]),
{
    let scope = scope_of(db, query.range, now, htlcs_only);
    let all = chosen_of(db.samples, scope, query.interval);
    let page = sample_page(db, query, now, htlcs_only);
    lemma_chosen(db.samples, db.last_sample_id, scope, query.interval);
    lemma_answer_rows(db.samples, scope, query.interval, c);
    assert(all.contains(c));
    let k = choose|k: int| 0 <= k < all.len() && all[k] == c;
    let id = chosen_id();
    if page.has_more {
        let n = query.range.limit as int;
        if k > n - 1 {
            assert(id(all[n - 1]) < id(all[k]));
        }
    }
    assert(page.items[k] == item_of(db, c));
}

/// What a page of states holds was recorded, lies behind the cursor and not behind the end of the range,
/// and bears the name that was asked for. What lies in the range has pending HTLCs where those are asked
/// for, and is shown with the span of time that it falls in where there are intervals. What lies ahead of
/// the range is the last such state of its channel.
pub proof fn law_sample_pages_hold_what_is_asked_for(
    db: DbView,
    query: SampleQueryView,
    now: u64,
    htlcs_only: bool,
    i: int,
)
    requires
        sound(db),
        db.samples.len() <= usize::MAX,
        query.interval != Some(0u64),
        0 <= i < sample_page(db, query, now, htlcs_only).items.len(),
    ensures
        ({
            let item = sample_page(db, query, now, htlcs_only).items[i];
            let start = asked_start(query.range);
            &&& exists|r: int|
                0 <= r < db.samples.len() && (#[trigger] db.samples[r]).id == item.id
                    && db.samples[r].ts == item.timestamp && db.samples[r].sample == item.sample
            &&& query.range.cursor matches Some(cursor) ==> item.id > cursor
            &&& item.timestamp <= asked_end(query.range, now)
            &&& query.range.channel matches Some(name) ==> {
                let key = identity_of(db.aliases, name);
                ||| item.sample.channel_key == key
                ||| item.sample.channel_id == Some(key)
                ||| item.sample.short_channel_id == Some(key)
                ||| item.sample.peer_id == key
            }
            &&& htlcs_only && item.timestamp >= start ==> item.sample.htlc_in_count
                + item.sample.htlc_out_count > 0
            &&& item.timestamp < start || query.interval is None ==> item.bucket_start is None
            &&& item.timestamp >= start && query.interval is Some ==> {
                &&& item.bucket_start is Some
                &&& start <= item.bucket_start->0 <= item.timestamp
                &&& item.timestamp < item.bucket_start->0 + query.interval->0
                &&& (item.bucket_start->0 - start) % (query.interval->0 as int) == 0
            }
            &&& item.timestamp < start ==> forall|r: int|
                0 <= r < db.samples.len() && (#[trigger] db.samples[r]).ts < start
                    && db.samples[r].ts <= asked_end(query.range, now)
                    && db.samples[r].sample.channel_key == item.sample.channel_key && is_named(
                    db,
                    query.range,
                    db.samples[r].sample,
                ) ==> db.samples[r].ts < item.timestamp || (db.samples[r].ts == item.timestamp
                    && db.samples[r].id <= item.id)
            &&& item.details.identity == item.sample.channel_key
        }),
{
    let scope = scope_of(db, query.range, now, htlcs_only);
    let rows = db.samples;
    let all = chosen_of(rows, scope, query.interval);
    lemma_chosen(rows, db.last_sample_id, scope, query.interval);
    let c = all[i];
    let item = sample_page(db, query, now, htlcs_only).items[i];
    assert(all.contains(c));
    lemma_answer_rows(rows, scope, query.interval, c);
    assert(rows[c.at as int].id == item.id);
    lemma_answer(rows, scope, query.interval, c);
    let inside = shown_positions(rows, scope, query.interval);
    let ahead = baseline_positions(rows, scope);
    lemma_shown_positions(rows, scope, query.interval);
    lemma_baseline_positions(rows, scope);
    if exists|p: Position|
        #[trigger] inside.contains(p) && c == shown(p, scope.start, query.interval) {
        let p = choose|p: Position|
            #[trigger] inside.contains(p) && c == shown(p, scope.start, query.interval);
        let k = choose|k: int| 0 <= k < inside.len() && inside[k] == p;
        assert(is_position(rows)(inside[k]) && in_range(scope, rows[inside[k].at as int]));
        if let Some(interval) = query.interval {
            lemma_bucket(p.ts, scope.start, interval);
        }
    } else {
        let p = choose|p: Position| #[trigger] ahead.contains(p) && c == baseline(p);
        let k = choose|k: int| 0 <= k < ahead.len() && ahead[k] == p;
        assert(is_position(rows)(ahead[k]) && ahead_of_range(scope, rows[ahead[k].at as int]));
        assert forall|r: int|
            0 <= r < rows.len() && (#[trigger] rows[r]).ts < scope.start && rows[r].ts <= scope.end
                && rows[r].sample.channel_key == item.sample.channel_key && is_named(
                db,
                query.range,
                rows[r].sample,
            ) implies rows[r].ts < item.timestamp || (rows[r].ts == item.timestamp && rows[r].id
            <= item.id) by {
            assert(ahead_of_range(scope, rows[r]));
            let q = lemma_baseline_of(rows, scope, r);
            let j = choose|j: int| 0 <= j < ahead.len() && ahead[j] == q;
            lemma_one_baseline(rows, scope, k, j);
        }
    }
}

/// The start of the span of time that a moment falls in.
proof fn lemma_bucket(ts: u64, start: u64, interval: u64)
    requires
        start <= ts,
        interval > 0,
    ensures
        start <= bucket_of(ts, start, interval) <= ts < bucket_of(ts, start, interval) + interval,
        (bucket_of(ts, start, interval) - start) % (interval as int) == 0,
{
    let passed = (ts - start) as int;
    let n = interval as int;
    assert(passed / n * n <= passed < passed / n * n + n && passed / n * n % n == 0)
        by (nonlinear_arith)
        requires
            n > 0,
            passed >= 0,
    ;
}

proof fn lemma_baseline_of(rows: Seq<SampleRowView>, scope: Scope, r: int) -> (p: Position)
    requires
        0 <= r < rows.len() <= usize::MAX,
        ahead_of_range(scope, rows[r]),
    ensures
        baseline_positions(rows, scope).contains(p),
        is_position(rows)(p),
        rows[p.at as int].sample.channel_key == rows[r].sample.channel_key,
        !is_later(rows[r], rows[p.at as int]),
{
    lemma_positions_ahead(rows, scope);
    let found = positions_ahead(rows, scope);
    let p = lemma_kept_for(rows, found, scope.start, None, false, r);
    let at = choose|at: int| 0 <= at < found.len() && found[at] == p;
    assert(is_position(rows)(found[at]));
    p
}

proof fn lemma_one_baseline(rows: Seq<SampleRowView>, scope: Scope, i: int, j: int)
    requires
        rows.len() <= usize::MAX,
        0 <= i < baseline_positions(rows, scope).len(),
        0 <= j < baseline_positions(rows, scope).len(),
        rows[baseline_positions(rows, scope)[i].at as int].sample.channel_key
            == rows[baseline_positions(rows, scope)[j].at as int].sample.channel_key,
    ensures
        i == j,
{
    let kept = baseline_positions(rows, scope);
    lemma_condensed_groups(
        rows,
        in_order::<Position>(positions_ahead(rows, scope)),
        scope.start,
        None,
        false,
    );
    assert(shares_group(rows[kept[i].at as int], rows[kept[j].at as int], scope.start, None));
    assert(shares_group(rows[kept[j].at as int], rows[kept[i].at as int], scope.start, None));
}

/// Without an interval, every recorded state that lies in the range and bears the name that was asked for
/// is on the page that reaches its id.
pub proof fn law_sample_pages_leave_nothing_out(
    db: DbView,
    query: SampleQueryView,
    now: u64,
    htlcs_only: bool,
    r: int,
)
    requires
        sound(db),
        db.samples.len() <= usize::MAX,
        query.range.limit > 0,
        query.interval is None,
        0 <= r < db.samples.len(),
        asked_start(query.range) <= db.samples[r].ts <= asked_end(query.range, now),
        query.range.channel matches Some(name) ==> {
            let key = identity_of(db.aliases, name);
            ||| db.samples[r].sample.channel_key == key
            ||| db.samples[r].sample.channel_id == Some(key)
            ||| db.samples[r].sample.short_channel_id == Some(key)
            ||| db.samples[r].sample.peer_id == key
        },
        htlcs_only ==> db.samples[r].sample.htlc_in_count + db.samples[r].sample.htlc_out_count > 0,
        query.range.cursor matches Some(cursor) ==> db.samples[r].id > cursor,
        is_reached(sample_page(db, query, now, htlcs_only), db.samples[r].id),
    ensures
        shows_row(sample_page(db, query, now, htlcs_only), db.samples[r]),
{
    let scope = scope_of(db, query.range, now, htlcs_only);
    let rows = db.samples;
    assert(in_range(scope, rows[r]));
    lemma_positions_in(rows, scope);
    let p = Position { ts: rows[r].ts, id: rows[r].id, at: r as usize };
    lemma_in_order_contains::<Position>(positions_in(rows, scope), p);
    let c = shown(p, scope.start, None);
    lemma_answer(rows, scope, None, c);
    lemma_page_item(db, query, now, htlcs_only, c);
}

/// With intervals, the state that stands for its channel in its span of time is on the page that reaches
/// its id: the last one, or, where pending HTLCs are asked for, the last one that has the most.
pub proof fn law_interval_pages_leave_nothing_out(
    db: DbView,
    query: SampleQueryView,
    now: u64,
    htlcs_only: bool,
    r: int,
)
    requires
        sound(db),
        db.samples.len() <= usize::MAX,
        query.range.limit > 0,
        query.interval matches Some(interval) && interval > 0,
        0 <= r < db.samples.len(),
        asked_start(query.range) <= db.samples[r].ts <= asked_end(query.range, now),
        is_named(db, query.range, db.samples[r].sample),
        htlcs_only ==> db.samples[r].sample.htlc_in_count + db.samples[r].sample.htlc_out_count > 0,
        forall|k: int|
            0 <= k < db.samples.len() && asked_start(query.range) <= (#[trigger] db.samples[k]).ts
                <= asked_end(query.range, now) && is_named(db, query.range, db.samples[k].sample)
                && db.samples[k].sample.channel_key == db.samples[r].sample.channel_key
                && (db.samples[k].ts - asked_start(query.range)) / (query.interval->0 as int) == (
            db.samples[r].ts - asked_start(query.range)) / (query.interval->0 as int) ==> {
                let here = db.samples[r].sample.htlc_in_count + db.samples[r].sample.htlc_out_count;
                let there = db.samples[k].sample.htlc_in_count + db.samples[k].sample.htlc_out_count;
                if htlcs_only {
                    there < here || (there == here && !comes_after(db.samples[k], db.samples[r]))
                } else {
                    !comes_after(db.samples[k], db.samples[r])
                }
            },
        query.range.cursor matches Some(cursor) ==> db.samples[r].id > cursor,
        is_reached(sample_page(db, query, now, htlcs_only), db.samples[r].id),
    ensures
        shows_row(sample_page(db, query, now, htlcs_only), db.samples[r]),
{
    let scope = scope_of(db, query.range, now, htlcs_only);
    let rows = db.samples;
    let interval = query.interval->0;
    assert(in_range(scope, rows[r]));
    lemma_positions_in(rows, scope);
    let found = positions_in(rows, scope);
    let q = lemma_kept_for(rows, found, scope.start, Some(interval), htlcs_only, r);
    let at = choose|at: int| 0 <= at < found.len() && found[at] == q;
    assert(is_position(rows)(found[at]) && in_range(scope, rows[found[at].at as int]));
    let k = q.at as int;
    lemma_same_bucket(rows[k].ts, rows[r].ts, scope.start, interval);
    assert(rows[k].sample.channel_key == rows[r].sample.channel_key);
    assert(k == r) by {
        if k != r {
            assert(rows[k].id != rows[r].id) by {
                if k < r {
                    assert(rows[k].id < rows[r].id);
                } else {
                    assert(rows[r].id < rows[k].id);
                }
            }
        }
    }
    let c = shown(q, scope.start, Some(interval));
    lemma_answer(rows, scope, Some(interval), c);
    assert(shown_positions(rows, scope, Some(interval)).contains(q));
    lemma_page_item(db, query, now, htlcs_only, c);
}

proof fn lemma_same_bucket(a: u64, b: u64, start: u64, interval: u64)
    requires
        start <= a,
        start <= b,
        interval > 0,
        bucket_of(a, start, interval) == bucket_of(b, start, interval),
    ensures
        (a - start) / (interval as int) == (b - start) / (interval as int),
{
    let n = interval as int;
    let x = (a - start) / n;
    let y = (b - start) / n;
    assert(0 <= x * n <= a - start) by (nonlinear_arith)
        requires
            x == (a - start) / n,
            n > 0,
            start <= a,
    ;
    assert(0 <= y * n <= b - start) by (nonlinear_arith)
        requires
            y == (b - start) / n,
            n > 0,
            start <= b,
    ;
    assert(x * n == y * n);
    assert(x == y) by (nonlinear_arith)
        requires
            x * n == y * n,
            n > 0,
    ;
}

/// The last state of a channel from before the range is on the page that reaches its id.
pub proof fn law_baselines_are_left_out_of_no_page(
    db: DbView,
    query: SampleQueryView,
    now: u64,
    htlcs_only: bool,
    r: int,
)
    requires
        sound(db),
        db.samples.len() <= usize::MAX,
        query.range.limit > 0,
        0 <= r < db.samples.len(),
        db.samples[r].ts < asked_start(query.range),
        db.samples[r].ts <= asked_end(query.range, now),
        is_named(db, query.range, db.samples[r].sample),
        forall|k: int|
            0 <= k < db.samples.len() && (#[trigger] db.samples[k]).ts < asked_start(query.range)
                && db.samples[k].ts <= asked_end(query.range, now) && is_named(
                db,
                query.range,
                db.samples[k].sample,
            ) && db.samples[k].sample.channel_key == db.samples[r].sample.channel_key
                ==> !comes_after(db.samples[k], db.samples[r]),
        query.range.cursor matches Some(cursor) ==> db.samples[r].id > cursor,
        is_reached(sample_page(db, query, now, htlcs_only), db.samples[r].id),
    ensures
        shows_row(sample_page(db, query, now, htlcs_only), db.samples[r]),
{
    let scope = scope_of(db, query.range, now, htlcs_only);
    let rows = db.samples;
    assert(ahead_of_range(scope, rows[r]));
    let q = lemma_baseline_of(rows, scope, r);
    let ahead = baseline_positions(rows, scope);
    lemma_baseline_positions(rows, scope);
    let j = choose|j: int| 0 <= j < ahead.len() && ahead[j] == q;
    assert(is_position(rows)(ahead[j]) && ahead_of_range(scope, rows[ahead[j].at as int]));
    let k = q.at as int;
    assert(k == r) by {
        if k < r {
            assert(rows[k].id < rows[r].id);
        } else if r < k {
            assert(rows[r].id < rows[k].id);
        }
    }
    let c = baseline(q);
    lemma_answer(rows, scope, query.interval, c);
    lemma_page_item(db, query, now, htlcs_only, c);
}

/// A page holds at most as many states as asked for, in the order of their ids. There is more behind it
/// only where it is full, and then the cursor names its last state.
pub proof fn law_sample_pages_are_limited(
    db: DbView,
    query: SampleQueryView,
    now: u64,
    htlcs_only: bool,
)
    requires
        sound(db),
        db.samples.len() <= usize::MAX,
        query.range.limit > 0,
    ensures
        ({
            let page = sample_page(db, query, now, htlcs_only);
            &&& page.items.len() <= query.range.limit
            &&& page.start == asked_start(query.range) && page.end == asked_end(query.range, now)
            &&& page.interval == query.interval
            &&& forall|i: int, j: int|
                0 <= i < j < page.items.len() ==> (#[trigger] page.items[i]).id < (
                #[trigger] page.items[j]).id
            &&& page.has_more ==> page.items.len() == query.range.limit && page.next_cursor == Some(
                page.items.last().id,
            )
            &&& !page.has_more ==> page.next_cursor is None
        }),
{
    let scope = scope_of(db, query.range, now, htlcs_only);
    let all = chosen_of(db.samples, scope, query.interval);
    let page = sample_page(db, query, now, htlcs_only);
    lemma_chosen(db.samples, db.last_sample_id, scope, query.interval);
    let id = chosen_id();
    assert forall|i: int| 0 <= i < page.items.len() implies (#[trigger] page.items[i]).id
        == all[i].id by {
        assert(all.contains(all[i]));
        lemma_answer_rows(db.samples, scope, query.interval, all[i]);
    }
    assert forall|i: int, j: int| 0 <= i < j < page.items.len() implies (#[trigger] page.items[i]).id
        < (#[trigger] page.items[j]).id by {
        assert(id(all[i]) < id(all[j]));
    }
}

/// What is told of a channel: its row, if it is known, and all its names, by kind.
pub proof fn law_details_are_those_of_the_channel(db: DbView, key: Seq<char>)
    ensures
        ({
            let details = details_of(db, key);
            &&& details.identity == key
            &&& match details.current {
                Some(row) => row.channel_key == key && db.channels.contains(row),
                None => forall|i: int|
                    0 <= i < db.channels.len() ==> (#[trigger] db.channels[i]).channel_key != key,
            }
            &&& forall|row: AliasRow<Seq<char>>| #[trigger]
                details.aliases.contains(row) <==> db.aliases.contains(row) && row.channel_key == key
            &&& details.aliases.len() == db.aliases.filter(
                |row: AliasRow<Seq<char>>| row.channel_key == key,
            ).len()
        }),
{
    lemma_channel_row_found(db.channels, key);
    let kept = db.aliases.filter(stands_for(key));
    law_sorting_orders_and_keeps::<AliasRow<String>>(kept);
    assert(stands_for(key) =~= (|row: AliasRow<Seq<char>>| row.channel_key == key));
    lemma_filter_contains(db.aliases, stands_for(key));
    assert forall|row: AliasRow<Seq<char>>| #[trigger]
        details_of(db, key).aliases.contains(row) <==> db.aliases.contains(row) && row.channel_key
            == key by {
        lemma_in_order_contains::<AliasRow<String>>(kept, row);
    }
}

proof fn lemma_channel_row_found(channels: Seq<ChannelRow<Seq<char>>>, key: Seq<char>)
    ensures
        match channel_row(channels, key) {
            Some(row) => row.channel_key == key && channels.contains(row),
            None => forall|i: int|
                0 <= i < channels.len() ==> (#[trigger] channels[i]).channel_key != key,
        },
    decreases channels.len(),
{
    if channels.len() > 0 {
        let front = channels.drop_last();
        lemma_channel_row_found(front, key);
        match channel_row(front, key) {
            Some(row) => {
                let k = choose|k: int| 0 <= k < front.len() && front[k] == row;
                assert(channels[k] == row);
            },
            None => {
                assert(channels[channels.len() - 1] == channels.last());
                assert forall|i: int| 0 <= i < channels.len() - 1 implies (
                #[trigger] channels[i]).channel_key != key by {
                    assert(front[i] == channels[i]);
                }
            },
        }
    }
}

pub proof fn lemma_filter_contains<T>(items: Seq<T>, keep: spec_fn(T) -> bool)
    ensures
        forall|x: T| #[trigger] items.filter(keep).contains(x) <==> items.contains(x) && keep(x),
    decreases items.len(),
{
    reveal(Seq::filter);
    if items.len() > 0 {
        let front = items.drop_last();
        lemma_filter_contains(front, keep);
        let kept = items.filter(keep);
        let before = front.filter(keep);
        assert forall|x: T| #[trigger] kept.contains(x) <==> items.contains(x) && keep(x) by {
            if kept.contains(x) {
                let i = choose|i: int| 0 <= i < kept.len() && kept[i] == x;
                if i < before.len() {
                    assert(before[i] == x);
                    assert(before.contains(x));
                    let k = choose|k: int| 0 <= k < front.len() && front[k] == x;
                    assert(items[k] == x);
                } else {
                    assert(items[items.len() - 1] == x);
                }
            }
            if items.contains(x) && keep(x) {
                let k = choose|k: int| 0 <= k < items.len() && items[k] == x;
                if k < front.len() {
                    assert(front[k] == x);
                    assert(before.contains(x));
                    let i = choose|i: int| 0 <= i < before.len() && before[i] == x;
                    assert(kept[i] == x);
                } else {
                    assert(kept[kept.len() - 1] == x);
                }
            }
        }
    }
}

} // verus!
