//! That the pages of events, of probes and of forwarding pairs join.

use crate::browse::Position;
use crate::integrity::{
    events_sound, law_pruning_keeps_the_tables_sound, lemma_kept_places, probes_sound, sound,
};
use crate::lookups::{
    event_page, event_positions, event_scope, event_time, is_event_wanted, pair_page, start_behind,
    EventScope, PageStart,
};
use crate::paging::{is_ascending, lemma_ascending_rest, lemma_same_ascending};
use crate::probes::{
    is_probe_wanted, probe_page, probe_positions, probe_scope, probe_time, probes_in_order,
    ProbeScope,
};
use crate::queries::{EventQueryView, PairQueryView, ProbeQueryView, RangeView};
use crate::recording::{cutoff_at, kept_events, kept_probes, pruned};
use crate::sorting::{
    in_order, law_sorting_orders_and_keeps, lemma_in_order_contains, lemma_in_order_stays_distinct,
    Ranked,
};
use crate::store::{BucketRow, DbView, EventRow, HopRow, ProbeRow};
use vstd::prelude::*;

verus! {

/// A number by which positions are ordered as by time and id.
pub open spec fn position_rank() -> spec_fn(Position) -> int {
    |p: Position| p.ts * 0x1_0000_0000_0000_0000 + p.id
}

/// Whether the position is that of an event.
pub open spec fn is_event_position(rows: Seq<EventRow<Seq<char>>>, p: Position) -> bool {
    p.at < rows.len() && p.ts == rows[p.at as int].ts && p.id == rows[p.at as int].id
}

pub proof fn lemma_event_positions(rows: Seq<EventRow<Seq<char>>>, scope: EventScope)
    requires
        rows.len() <= usize::MAX,
    ensures
        ({
            let found = event_positions(rows, scope);
            &&& forall|i: int|
                0 <= i < found.len() ==> is_event_position(rows, #[trigger] found[i])
                    && is_event_wanted(scope, rows[found[i].at as int])
            &&& forall|i: int, j: int|
                0 <= i < j < found.len() ==> (#[trigger] found[i]).at < (#[trigger] found[j]).at
            &&& forall|r: int|
                0 <= r < rows.len() && is_event_wanted(scope, #[trigger] rows[r])
                    ==> found.contains(
                    Position { ts: rows[r].ts, id: rows[r].id, at: r as usize },
                )
        }),
    decreases rows.len(),
{
    if rows.len() > 0 {
        let front = rows.drop_last();
        lemma_event_positions(front, scope);
        let before = event_positions(front, scope);
        let found = event_positions(rows, scope);
        assert forall|i: int| 0 <= i < front.len() implies front[i] == #[trigger] rows[i] by {}
        assert forall|i: int| 0 <= i < found.len() implies is_event_position(
            rows,
            #[trigger] found[i],
        ) && is_event_wanted(scope, rows[found[i].at as int]) by {
            if i < before.len() {
                assert(found[i] == before[i]);
            }
        }
        assert forall|i: int, j: int| 0 <= i < j < found.len() implies (#[trigger] found[i]).at < (
        #[trigger] found[j]).at by {
            assert(found[i] == before[i]);
            if j < before.len() {
                assert(found[j] == before[j]);
            }
        }
        assert forall|r: int|
            0 <= r < rows.len() && is_event_wanted(scope, #[trigger] rows[r]) implies found.contains(
            Position { ts: rows[r].ts, id: rows[r].id, at: r as usize },
        ) by {
            let position = Position { ts: rows[r].ts, id: rows[r].id, at: r as usize };
            if r < front.len() {
                assert(front[r] == rows[r]);
                let k = choose|k: int| 0 <= k < before.len() && before[k] == position;
                assert(found[k] == position);
            } else {
                assert(found.last() == position);
            }
        }
    }
}

/// The events that are found come by time and id, each of them once.
pub proof fn lemma_events_ascend(rows: Seq<EventRow<Seq<char>>>, scope: EventScope, last: u64)
    requires
        rows.len() <= usize::MAX,
        events_sound(rows, last),
    ensures
        is_ascending(in_order::<Position>(event_positions(rows, scope)), position_rank()),
        forall|p: Position|
            #[trigger] in_order::<Position>(event_positions(rows, scope)).contains(p) <==> (
            is_event_position(rows, p) && is_event_wanted(scope, rows[p.at as int])),
{
    let found = event_positions(rows, scope);
    let sorted = in_order::<Position>(found);
    lemma_event_positions(rows, scope);
    law_sorting_orders_and_keeps::<Position>(found);
    let at = |p: Position| p.at as int;
    lemma_in_order_stays_distinct::<Position>(found, at);
    let id = position_rank();
    assert forall|p: Position| #[trigger] sorted.contains(p) <==> (is_event_position(rows, p)
        && is_event_wanted(scope, rows[p.at as int])) by {
        lemma_in_order_contains::<Position>(found, p);
        if found.contains(p) {
            let k = choose|k: int| 0 <= k < found.len() && found[k] == p;
            assert(is_event_position(rows, found[k]));
        }
    }
    assert forall|i: int, j: int| 0 <= i < j < sorted.len() implies id(#[trigger] sorted[i]) < id(
        #[trigger] sorted[j],
    ) by {
        assert(sorted.contains(sorted[i]) && sorted.contains(sorted[j]));
        assert(!<Position as Ranked>::before(sorted[j], sorted[i]));
        assert(at(sorted[i]) != at(sorted[j]));
        let a = rows[sorted[i].at as int];
        let b = rows[sorted[j].at as int];
        assert(a.id != b.id);
    }
}

/// Whether the position is that of a probe.
pub open spec fn is_probe_position(rows: Seq<ProbeRow<Seq<char>>>, p: Position) -> bool {
    p.at < rows.len() && p.ts == rows[p.at as int].ts && p.id == rows[p.at as int].id
}

pub proof fn lemma_probe_positions(
    rows: Seq<ProbeRow<Seq<char>>>,
    hops: Seq<HopRow<Seq<char>>>,
    scope: ProbeScope,
)
    requires
        rows.len() <= usize::MAX,
    ensures
        ({
            let found = probe_positions(rows, hops, scope);
            &&& forall|i: int|
                0 <= i < found.len() ==> is_probe_position(rows, #[trigger] found[i])
                    && is_probe_wanted(hops, scope, rows[found[i].at as int])
            &&& forall|i: int, j: int|
                0 <= i < j < found.len() ==> (#[trigger] found[i]).at < (#[trigger] found[j]).at
            &&& forall|r: int|
                0 <= r < rows.len() && is_probe_wanted(hops, scope, #[trigger] rows[r])
                    ==> found.contains(
                    Position { ts: rows[r].ts, id: rows[r].id, at: r as usize },
                )
        }),
    decreases rows.len(),
{
    if rows.len() > 0 {
        let front = rows.drop_last();
        lemma_probe_positions(front, hops, scope);
        let before = probe_positions(front, hops, scope);
        let found = probe_positions(rows, hops, scope);
        assert forall|i: int| 0 <= i < front.len() implies front[i] == #[trigger] rows[i] by {}
        assert forall|i: int| 0 <= i < found.len() implies is_probe_position(
            rows,
            #[trigger] found[i],
        ) && is_probe_wanted(hops, scope, rows[found[i].at as int]) by {
            if i < before.len() {
                assert(found[i] == before[i]);
            }
        }
        assert forall|i: int, j: int| 0 <= i < j < found.len() implies (#[trigger] found[i]).at < (
        #[trigger] found[j]).at by {
            assert(found[i] == before[i]);
            if j < before.len() {
                assert(found[j] == before[j]);
            }
        }
        assert forall|r: int|
            0 <= r < rows.len() && is_probe_wanted(hops, scope, #[trigger] rows[r]) implies found.contains(
            Position { ts: rows[r].ts, id: rows[r].id, at: r as usize },
        ) by {
            let position = Position { ts: rows[r].ts, id: rows[r].id, at: r as usize };
            if r < front.len() {
                assert(front[r] == rows[r]);
                let k = choose|k: int| 0 <= k < before.len() && before[k] == position;
                assert(found[k] == position);
            } else {
                assert(found.last() == position);
            }
        }
    }
}

/// The probes that are found come by time and id, each of them once.
pub proof fn lemma_probes_ascend(
    rows: Seq<ProbeRow<Seq<char>>>,
    hops: Seq<HopRow<Seq<char>>>,
    scope: ProbeScope,
    last: u64,
)
    requires
        rows.len() <= usize::MAX,
        probes_sound(rows, last),
    ensures
        is_ascending(in_order::<Position>(probe_positions(rows, hops, scope)), position_rank()),
        forall|p: Position|
            #[trigger] in_order::<Position>(probe_positions(rows, hops, scope)).contains(p) <==> (
            is_probe_position(rows, p) && is_probe_wanted(hops, scope, rows[p.at as int])),
{
    let found = probe_positions(rows, hops, scope);
    let sorted = in_order::<Position>(found);
    lemma_probe_positions(rows, hops, scope);
    law_sorting_orders_and_keeps::<Position>(found);
    let at = |p: Position| p.at as int;
    lemma_in_order_stays_distinct::<Position>(found, at);
    let id = position_rank();
    assert forall|p: Position| #[trigger] sorted.contains(p) <==> (is_probe_position(rows, p)
        && is_probe_wanted(hops, scope, rows[p.at as int])) by {
        lemma_in_order_contains::<Position>(found, p);
        if found.contains(p) {
            let k = choose|k: int| 0 <= k < found.len() && found[k] == p;
            assert(is_probe_position(rows, found[k]));
        }
    }
    assert forall|i: int, j: int| 0 <= i < j < sorted.len() implies id(#[trigger] sorted[i]) < id(
        #[trigger] sorted[j],
    ) by {
        assert(sorted.contains(sorted[i]) && sorted.contains(sorted[j]));
        assert(!<Position as Ranked>::before(sorted[j], sorted[i]));
        assert(at(sorted[i]) != at(sorted[j]));
        let a = rows[sorted[i].at as int];
        let b = rows[sorted[j].at as int];
        assert(a.id != b.id);
    }
}

/// The time of a recorded event is found by its id.
pub proof fn lemma_event_time(rows: Seq<EventRow<Seq<char>>>, last: u64, r: int)
    requires
        events_sound(rows, last),
        0 <= r < rows.len(),
    ensures
        event_time(rows, rows[r].id) == Some(rows[r].ts),
    decreases rows.len(),
{
    if r < rows.len() - 1 {
        let front = rows.drop_last();
        assert forall|i: int| 0 <= i < front.len() implies front[i] == #[trigger] rows[i] by {}
        lemma_event_time(front, last, r);
        assert(rows[r].id < rows[rows.len() - 1].id);
    }
}

/// A page of events and the page behind it hold together what one page of both sizes would.
pub proof fn law_event_pages_join(db: DbView, query: EventQueryView, now: u64, more: u64)
    requires
        sound(db),
        db.events.len() <= usize::MAX,
        0 < query.range.limit,
        query.range.limit + more <= u64::MAX,
        event_page(db, query, now).has_more,
    ensures
        ({
            let page = event_page(db, query, now);
            let next = event_page(
                db,
                EventQueryView {
                    range: RangeView { cursor: page.next_cursor, limit: more, ..query.range },
                    ..query
                },
                now,
            );
            let both = event_page(
                db,
                EventQueryView {
                    range: RangeView { limit: (query.range.limit + more) as u64, ..query.range },
                    ..query
                },
                now,
            );
            &&& page.items + next.items == both.items
            &&& next.has_more == both.has_more
            &&& more > 0 ==> next.next_cursor == both.next_cursor
        }),
{
    let scope = event_scope(db, query, now);
    let all = in_order::<Position>(event_positions(db.events, scope));
    let n = query.range.limit as int;
    let page = event_page(db, query, now);
    let rest_query = EventQueryView {
        range: RangeView { cursor: page.next_cursor, limit: more, ..query.range },
        ..query
    };
    let next_scope = event_scope(db, rest_query, now);
    let rest = in_order::<Position>(event_positions(db.events, next_scope));
    let id = position_rank();
    let end = all[n - 1];
    lemma_events_ascend(db.events, scope, db.last_event_id);
    assert(all.contains(end));
    lemma_event_time(db.events, db.last_event_id, end.at as int);
    assert(next_scope == (EventScope {
        after: PageStart::Behind { ts: end.ts, id: end.id },
        ..scope
    }));
    lemma_events_ascend(db.events, next_scope, db.last_event_id);
    assert forall|p: Position| #[trigger] rest.contains(p) <==> all.skip(n).contains(p) by {
        lemma_ascending_rest(all, id, n, p);
        assert(all.contains(p) <==> is_event_position(db.events, p) && is_event_wanted(
            scope,
            db.events[p.at as int],
        ));
    }
    lemma_ascending_rest(all, id, n, all[n - 1]);
    lemma_same_ascending(rest, all.skip(n), id);
    let next = event_page(db, rest_query, now);
    let both = event_page(
        db,
        EventQueryView {
            range: RangeView { limit: (query.range.limit + more) as u64, ..query.range },
            ..query
        },
        now,
    );
    assert(page.items + next.items =~= both.items);
}

/// The time of a recorded probe is found by its id.
pub proof fn lemma_probe_time(rows: Seq<ProbeRow<Seq<char>>>, last: u64, r: int)
    requires
        probes_sound(rows, last),
        0 <= r < rows.len(),
    ensures
        probe_time(rows, rows[r].id) == Some(rows[r].ts),
    decreases rows.len(),
{
    if r < rows.len() - 1 {
        let front = rows.drop_last();
        assert forall|i: int| 0 <= i < front.len() implies front[i] == #[trigger] rows[i] by {}
        lemma_probe_time(front, last, r);
        assert(rows[r].id < rows[rows.len() - 1].id);
    }
}

/// A page of probes and the page behind it hold together what one page of both sizes would.
pub proof fn law_probe_pages_join(db: DbView, query: ProbeQueryView, now: u64, more: u64)
    requires
        sound(db),
        db.probes.len() <= usize::MAX,
        query.interval is None,
        0 < query.range.limit,
        query.range.limit + more <= u64::MAX,
        probe_page(db, query, now).has_more,
    ensures
        ({
            let page = probe_page(db, query, now);
            let next = probe_page(
                db,
                ProbeQueryView {
                    range: RangeView { cursor: page.next_cursor, limit: more, ..query.range },
                    ..query
                },
                now,
            );
            let both = probe_page(
                db,
                ProbeQueryView {
                    range: RangeView { limit: (query.range.limit + more) as u64, ..query.range },
                    ..query
                },
                now,
            );
            &&& page.items->Raw_0 + next.items->Raw_0 == both.items->Raw_0
            &&& next.has_more == both.has_more
            &&& more > 0 ==> next.next_cursor == both.next_cursor
        }),
{
    let scope = probe_scope(db, query, now);
    let all = in_order::<Position>(probe_positions(db.probes, db.hops, scope));
    let n = query.range.limit as int;
    let page = probe_page(db, query, now);
    let rest_query = ProbeQueryView {
        range: RangeView { cursor: page.next_cursor, limit: more, ..query.range },
        ..query
    };
    let next_scope = probe_scope(db, rest_query, now);
    let rest = in_order::<Position>(probe_positions(db.probes, db.hops, next_scope));
    let id = position_rank();
    lemma_probes_ascend(db.probes, db.hops, scope, db.last_probe_id);
    let end = all[n - 1];
    assert(all.contains(end));
    lemma_probe_time(db.probes, db.last_probe_id, end.at as int);
    assert(next_scope == (ProbeScope {
        after: PageStart::Behind { ts: end.ts, id: end.id },
        ..scope
    }));
    lemma_probes_ascend(db.probes, db.hops, next_scope, db.last_probe_id);
    assert forall|p: Position| #[trigger] rest.contains(p) <==> all.skip(n).contains(p) by {
        lemma_ascending_rest(all, id, n, p);
        assert(all.contains(p) <==> is_probe_position(db.probes, p) && is_probe_wanted(
            db.hops,
            scope,
            db.probes[p.at as int],
        ));
    }
    lemma_ascending_rest(all, id, n, all[n - 1]);
    lemma_same_ascending(rest, all.skip(n), id);
    let found = probes_in_order(db, scope);
    let behind = probes_in_order(db, next_scope);
    assert(behind =~= found.skip(n));
    let next = probe_page(db, rest_query, now);
    let both = probe_page(
        db,
        ProbeQueryView {
            range: RangeView { limit: (query.range.limit + more) as u64, ..query.range },
            ..query
        },
        now,
    );
    assert(page.items->Raw_0 + next.items->Raw_0 =~= both.items->Raw_0);
}

/// A page of forwarding pairs and the page behind it hold together what one page of both sizes would.
pub proof fn law_pair_pages_join(
    db: DbView,
    query: PairQueryView,
    now: u64,
    groups: Seq<BucketRow<Seq<char>>>,
    admitted: Seq<bool>,
    more: u64,
)
    requires
        query.range.limit + more <= u64::MAX,
        query.range.after() + query.range.limit <= u64::MAX,
        pair_page(db, query, now, groups, admitted).has_more,
    ensures
        ({
            let page = pair_page(db, query, now, groups, admitted);
            let next = pair_page(
                db,
                PairQueryView {
                    range: RangeView { cursor: page.next_cursor, limit: more, ..query.range },
                    ..query
                },
                now,
                groups,
                admitted,
            );
            let both = pair_page(
                db,
                PairQueryView {
                    range: RangeView { limit: (query.range.limit + more) as u64, ..query.range },
                    ..query
                },
                now,
                groups,
                admitted,
            );
            &&& page.items + next.items == both.items
            &&& next.has_more == both.has_more
            &&& next.next_cursor == both.next_cursor
        }),
{
    let page = pair_page(db, query, now, groups, admitted);
    let next = pair_page(
        db,
        PairQueryView {
            range: RangeView { cursor: page.next_cursor, limit: more, ..query.range },
            ..query
        },
        now,
        groups,
        admitted,
    );
    let both = pair_page(
        db,
        PairQueryView {
            range: RangeView { limit: (query.range.limit + more) as u64, ..query.range },
            ..query
        },
        now,
        groups,
        admitted,
    );
    assert(page.items + next.items =~= both.items);
}

/// A page of probes by span of time and the page behind it hold together what one page of both sizes
/// would.
pub proof fn law_aggregate_pages_join(db: DbView, query: ProbeQueryView, now: u64, more: u64)
    requires
        query.interval is Some,
        query.range.limit + more <= u64::MAX,
        query.range.after() + query.range.limit <= u64::MAX,
        probe_page(db, query, now).has_more,
    ensures
        ({
            let page = probe_page(db, query, now);
            let next = probe_page(
                db,
                ProbeQueryView {
                    range: RangeView { cursor: page.next_cursor, limit: more, ..query.range },
                    ..query
                },
                now,
            );
            let both = probe_page(
                db,
                ProbeQueryView {
                    range: RangeView { limit: (query.range.limit + more) as u64, ..query.range },
                    ..query
                },
                now,
            );
            &&& page.items->Aggregated_0 + next.items->Aggregated_0 == both.items->Aggregated_0
            &&& next.has_more == both.has_more
            &&& next.next_cursor == both.next_cursor
        }),
{
    let page = probe_page(db, query, now);
    let rest_query = ProbeQueryView {
        range: RangeView { cursor: page.next_cursor, limit: more, ..query.range },
        ..query
    };
    let next = probe_page(db, rest_query, now);
    let both_query = ProbeQueryView {
        range: RangeView { limit: (query.range.limit + more) as u64, ..query.range },
        ..query
    };
    let both = probe_page(db, both_query, now);
    assert(probe_scope(db, rest_query, now) == probe_scope(db, query, now));
    assert(probe_scope(db, both_query, now) == probe_scope(db, query, now));
    assert(page.items->Aggregated_0 + next.items->Aggregated_0 =~= both.items->Aggregated_0);
}

/// The time that is found is that of a recorded event.
proof fn lemma_event_found(rows: Seq<EventRow<Seq<char>>>, id: u64) -> (r: int)
    requires
        event_time(rows, id) is Some,
    ensures
        0 <= r < rows.len(),
        rows[r].id == id,
        event_time(rows, id) == Some(rows[r].ts),
    decreases rows.len(),
{
    if rows.last().id == id {
        rows.len() - 1
    } else {
        lemma_event_found(rows.drop_last(), id)
    }
}

/// The page behind an event that was dropped for its age begins with the first one that is left, and
/// every one that is left stands behind it.
pub proof fn law_pages_behind_a_dropped_event_go_on(db: DbView, at: u64, cursor: u64, r: int)
    requires
        sound(db),
        event_time(db.events, cursor) is Some,
        event_time(pruned(db, at).events, cursor) is None,
        0 <= r < pruned(db, at).events.len(),
    ensures
        ({
            let seen = PageStart::Behind { ts: event_time(db.events, cursor)->0, id: cursor };
            let left = pruned(db, at).events;
            &&& seen.is_ahead_of(left[r].ts, left[r].id)
            &&& start_behind(event_time(left, cursor), cursor, pruned(db, at).last_event_id)
                is First
        }),
{
    let cutoff = cutoff_at(db, at);
    let left = pruned(db, at).events;
    let places = lemma_kept_places(db.events, kept_events(cutoff));
    let k = lemma_event_found(db.events, cursor);
    law_pruning_keeps_the_tables_sound(db, at);
    if db.events[k].ts >= cutoff {
        assert(left.contains(db.events[k]));
        let j = choose|j: int| 0 <= j < left.len() && left[j] == db.events[k];
        lemma_event_time(left, db.last_event_id, j);
    }
    assert(left[r] == db.events[places[r]]);
    assert(0 < db.events[k].id <= db.last_event_id);
}

/// The time that is found is that of a recorded probe.
proof fn lemma_probe_found(rows: Seq<ProbeRow<Seq<char>>>, id: u64) -> (r: int)
    requires
        probe_time(rows, id) is Some,
    ensures
        0 <= r < rows.len(),
        rows[r].id == id,
        probe_time(rows, id) == Some(rows[r].ts),
    decreases rows.len(),
{
    if rows.last().id == id {
        rows.len() - 1
    } else {
        lemma_probe_found(rows.drop_last(), id)
    }
}

/// The page behind a probe that was dropped for its age begins with the first one that is left, and
/// every one that is left stands behind it.
pub proof fn law_pages_behind_a_dropped_probe_go_on(db: DbView, at: u64, cursor: u64, r: int)
    requires
        sound(db),
        probe_time(db.probes, cursor) is Some,
        probe_time(pruned(db, at).probes, cursor) is None,
        0 <= r < pruned(db, at).probes.len(),
    ensures
        ({
            let seen = PageStart::Behind { ts: probe_time(db.probes, cursor)->0, id: cursor };
            let left = pruned(db, at).probes;
            &&& seen.is_ahead_of(left[r].ts, left[r].id)
            &&& start_behind(probe_time(left, cursor), cursor, pruned(db, at).last_probe_id)
                is First
        }),
{
    let cutoff = cutoff_at(db, at);
    let left = pruned(db, at).probes;
    let places = lemma_kept_places(db.probes, kept_probes(cutoff));
    let k = lemma_probe_found(db.probes, cursor);
    law_pruning_keeps_the_tables_sound(db, at);
    if db.probes[k].ts >= cutoff {
        assert(left.contains(db.probes[k]));
        let j = choose|j: int| 0 <= j < left.len() && left[j] == db.probes[k];
        lemma_probe_time(left, db.last_probe_id, j);
    }
    assert(left[r] == db.probes[places[r]]);
    assert(0 < db.probes[k].id <= db.last_probe_id);
}

} // verus!
