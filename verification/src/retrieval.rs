//! What the pages of events, of probes and of pairs hold: what was asked for, all of it, and nothing else.

use crate::browse::{details_of, Position};
use crate::census::{
    arrived, counts_its_probes, failed_for, is_counted_by, law_aggregates_count_their_probes,
    lemma_filter_grows, was_settled,
};
use crate::integrity::sound;
use crate::listing::{
    lemma_event_time, lemma_events_ascend, lemma_probe_positions, lemma_probe_time,
    lemma_probes_ascend, position_rank,
};
use crate::lookups::{
    event_page, event_positions, event_scope, event_time, filter_of, grouped, is_event_wanted,
    pair_before, pair_page, pair_parts, skipped,
};
use crate::ordered::parts_before;
use crate::probes::{
    aggregated, hop_item, hops_for, is_probe_wanted, probe_item, probe_page, probe_period,
    probe_positions, probe_scope, probe_time, probes_in_order, route_key_of, HopItemView,
    ProbeItemView, ProbeItemsView, ProbeScope,
};
use crate::queries::{EventQueryView, PairQueryView, ProbeQueryView};
use crate::selection::{asked_end, asked_start, lemma_filter_contains};
use crate::sorting::{
    in_order, law_sorting_orders_and_keeps, lemma_in_order_contains, lemma_place_behind,
    place_behind, Ranked,
};
use crate::spelling::law_keys_are_ordered_by_their_parts;
use crate::store::{identity_of, AliasRow, BucketRow, DbView, EventRow, HopRow, ProbeRow};
use crate::text::{decimal, lemma_text_before_total, text_before};
use crate::totals::{
    is_listed_before, law_aggregates_are_listed_once_in_order, law_aggregates_show_the_extremes,
    law_pairs_are_listed_once_in_order, lemma_aggregate_place, lemma_sum_of_insert, shows, sum_of,
};
use vstd::prelude::*;

verus! {

/// Whether one comes ahead of another: by time, then by id.
pub open spec fn comes_before(ts: u64, id: u64, other_ts: u64, other_id: u64) -> bool {
    ts < other_ts || (ts == other_ts && id < other_id)
}

/// Whether an event is one that was asked for: in the range, of the type, and of the channel.
pub open spec fn is_asked_event(
    db: DbView,
    query: EventQueryView,
    now: u64,
    event: EventRow<Seq<char>>,
) -> bool {
    &&& asked_start(query.range) <= event.ts <= asked_end(query.range, now)
    &&& query.event_type matches Some(kind) ==> event.event_type == kind
    &&& query.range.channel matches Some(name) ==> {
        let channel = identity_of(db.aliases, name);
        ||| event.channel_key == Some(channel)
        ||| event.channel_id == Some(channel)
        ||| event.short_channel_id == Some(channel)
        ||| event.peer_id == Some(channel)
    }
}

/// Whether an event is behind the cursor: behind the recorded event that the cursor names. A cursor that
/// names no recorded event has none ahead of it if it was given out, and all of them if it was not.
pub open spec fn is_behind_cursor(
    db: DbView,
    cursor: Option<u64>,
    event: EventRow<Seq<char>>,
) -> bool {
    cursor matches Some(cursor) ==> {
        &&& forall|r: int|
            0 <= r < db.events.len() && (#[trigger] db.events[r]).id == cursor ==> comes_before(
                db.events[r].ts,
                cursor,
                event.ts,
                event.id,
            )
        &&& cursor <= db.last_event_id
    }
}

proof fn lemma_event_cursor(db: DbView, query: EventQueryView, now: u64, event: EventRow<Seq<char>>)
    requires
        sound(db),
    ensures
        is_event_wanted(event_scope(db, query, now), event) <==> is_asked_event(
            db,
            query,
            now,
            event,
        ) && is_behind_cursor(db, query.range.cursor, event),
{
    let cursor = query.range.after();
    lemma_event_time_is_recorded(db.events, cursor);
    if let Some(ts) = event_time(db.events, cursor) {
        let r = choose|r: int|
            0 <= r < db.events.len() && (#[trigger] db.events[r]).id == cursor && db.events[r].ts
                == ts;
        assert(db.events[r].id == cursor);
        assert forall|k: int| 0 <= k < db.events.len() && (#[trigger] db.events[k]).id == cursor implies
            db.events[k].ts == ts by {
            lemma_event_time(db.events, db.last_event_id, k);
        }
    } else {
        assert forall|k: int| 0 <= k < db.events.len() implies (#[trigger] db.events[k]).id
            != cursor by {
            lemma_event_time(db.events, db.last_event_id, k);
        }
    }
}

proof fn lemma_event_time_is_recorded(rows: Seq<EventRow<Seq<char>>>, id: u64)
    ensures
        event_time(rows, id) matches Some(ts) ==> exists|r: int|
            0 <= r < rows.len() && (#[trigger] rows[r]).id == id && rows[r].ts == ts,
    decreases rows.len(),
{
    if rows.len() > 0 {
        let front = rows.drop_last();
        if rows.last().id == id {
            assert(rows[rows.len() - 1].id == id);
        } else {
            lemma_event_time_is_recorded(front, id);
            if event_time(front, id) is Some {
                let r = choose|r: int|
                    0 <= r < front.len() && (#[trigger] front[r]).id == id && front[r].ts
                        == event_time(front, id)->0;
                assert(rows[r] == front[r]);
            }
        }
    }
}

/// What a page of events holds was recorded, is what was asked for, and lies behind the cursor. The
/// events come by time and then by id.
pub proof fn law_event_pages_hold_what_is_asked_for(
    db: DbView,
    query: EventQueryView,
    now: u64,
    i: int,
)
    requires
        sound(db),
        db.events.len() <= usize::MAX,
        0 <= i < event_page(db, query, now).items.len(),
    ensures
        ({
            let items = event_page(db, query, now).items;
            &&& db.events.contains(items[i])
            &&& is_asked_event(db, query, now, items[i])
            &&& is_behind_cursor(db, query.range.cursor, items[i])
            &&& forall|j: int|
                i < j < items.len() ==> comes_before(
                    items[i].ts,
                    items[i].id,
                    (#[trigger] items[j]).ts,
                    items[j].id,
                )
        }),
{
    let scope = event_scope(db, query, now);
    let found = in_order::<Position>(event_positions(db.events, scope));
    let items = event_page(db, query, now).items;
    lemma_events_ascend(db.events, scope, db.last_event_id);
    assert(found.contains(found[i]));
    lemma_event_cursor(db, query, now, items[i]);
    assert(items[i] == db.events[found[i].at as int]);
    let rank = position_rank();
    assert forall|j: int| i < j < items.len() implies comes_before(
        items[i].ts,
        items[i].id,
        (#[trigger] items[j]).ts,
        items[j].id,
    ) by {
        assert(found.contains(found[j]));
        assert(items[j] == db.events[found[j].at as int]);
        assert(rank(found[i]) < rank(found[j]));
    }
}

/// Every recorded event that was asked for and lies behind the cursor is on the page, or behind all that
/// is on it: the page then is full and says where the next one starts.
pub proof fn law_event_pages_leave_nothing_out(db: DbView, query: EventQueryView, now: u64, r: int)
    requires
        sound(db),
        db.events.len() <= usize::MAX,
        query.range.limit > 0,
        0 <= r < db.events.len(),
        is_asked_event(db, query, now, db.events[r]),
        is_behind_cursor(db, query.range.cursor, db.events[r]),
    ensures
        ({
            let page = event_page(db, query, now);
            ||| page.items.contains(db.events[r])
            ||| {
                &&& page.has_more
                &&& page.items.len() == query.range.limit
                &&& page.next_cursor == Some(page.items.last().id)
                &&& comes_before(
                    page.items.last().ts,
                    page.items.last().id,
                    db.events[r].ts,
                    db.events[r].id,
                )
            }
        }),
{
    let scope = event_scope(db, query, now);
    let found = in_order::<Position>(event_positions(db.events, scope));
    let page = event_page(db, query, now);
    lemma_events_ascend(db.events, scope, db.last_event_id);
    lemma_event_cursor(db, query, now, db.events[r]);
    let p = Position { ts: db.events[r].ts, id: db.events[r].id, at: r as usize };
    assert(found.contains(p));
    let k = choose|k: int| 0 <= k < found.len() && found[k] == p;
    let n = page.items.len() as int;
    if k < n {
        assert(page.items[k] == db.events[r]);
    } else {
        assert(found.contains(found[n - 1]));
        assert(page.items[n - 1] == db.events[found[n - 1].at as int]);
        let rank = position_rank();
        assert(rank(found[n - 1]) < rank(found[k]));
    }
}

/// A page of events holds no more than the limit, says that there is more exactly where it is full and
/// something is left, and gives the id of its last event as the next cursor then.
pub proof fn law_event_pages_are_limited(db: DbView, query: EventQueryView, now: u64)
    requires
        query.range.limit > 0,
    ensures
        ({
            let page = event_page(db, query, now);
            &&& page.items.len() <= query.range.limit
            &&& page.start == asked_start(query.range)
            &&& page.end == asked_end(query.range, now)
            &&& page.has_more <==> page.next_cursor is Some
            &&& page.has_more ==> page.items.len() == query.range.limit
        }),
{
}

/// Whether a probe is one that was asked for: in the range, with that end and that destination, and
/// over the channel.
pub open spec fn is_asked_probe(
    db: DbView,
    query: ProbeQueryView,
    now: u64,
    probe: ProbeRow<Seq<char>>,
) -> bool {
    &&& asked_start(query.range) <= probe.ts <= asked_end(query.range, now)
    &&& query.status matches Some(status) ==> probe.status == status
    &&& query.destination matches Some(node) ==> probe.destination == Some(node)
    &&& query.range.channel matches Some(name) ==> exists|h: int|
        0 <= h < db.hops.len() && (#[trigger] db.hops[h]).probe_id == probe.id && goes_over(
            db.hops[h],
            identity_of(db.aliases, name),
        )
}

/// Whether a hop goes over a channel or to a node of that name.
pub open spec fn goes_over(hop: HopRow<Seq<char>>, name: Seq<char>) -> bool {
    ||| hop.channel_key == Some(name)
    ||| hop.short_channel_id == name
    ||| hop.node_id_out == name
}

/// Whether a probe is behind the cursor: behind the recorded probe that the cursor names. A cursor that
/// names no recorded probe has none ahead of it if it was given out, and all of them if it was not.
pub open spec fn is_probe_behind_cursor(
    db: DbView,
    cursor: Option<u64>,
    probe: ProbeRow<Seq<char>>,
) -> bool {
    cursor matches Some(cursor) ==> {
        &&& forall|r: int|
            0 <= r < db.probes.len() && (#[trigger] db.probes[r]).id == cursor ==> comes_before(
                db.probes[r].ts,
                cursor,
                probe.ts,
                probe.id,
            )
        &&& cursor <= db.last_probe_id
    }
}

proof fn lemma_probe_time_is_recorded(rows: Seq<ProbeRow<Seq<char>>>, id: u64)
    ensures
        probe_time(rows, id) matches Some(ts) ==> exists|r: int|
            0 <= r < rows.len() && (#[trigger] rows[r]).id == id && rows[r].ts == ts,
    decreases rows.len(),
{
    if rows.len() > 0 {
        let front = rows.drop_last();
        if rows.last().id == id {
            assert(rows[rows.len() - 1].id == id);
        } else {
            lemma_probe_time_is_recorded(front, id);
            if probe_time(front, id) is Some {
                let r = choose|r: int|
                    0 <= r < front.len() && (#[trigger] front[r]).id == id && front[r].ts
                        == probe_time(front, id)->0;
                assert(rows[r] == front[r]);
            }
        }
    }
}

proof fn lemma_probe_is_wanted(
    db: DbView,
    query: ProbeQueryView,
    now: u64,
    probe: ProbeRow<Seq<char>>,
)
    requires
        sound(db),
    ensures
        is_probe_wanted(db.hops, probe_scope(db, query, now), probe) <==> is_asked_probe(
            db,
            query,
            now,
            probe,
        ) && (query.interval is None ==> is_probe_behind_cursor(db, query.range.cursor, probe)),
{
    let cursor = query.range.after();
    lemma_probe_time_is_recorded(db.probes, cursor);
    if let Some(ts) = probe_time(db.probes, cursor) {
        let r = choose|r: int|
            0 <= r < db.probes.len() && (#[trigger] db.probes[r]).id == cursor && db.probes[r].ts
                == ts;
        assert(db.probes[r].id == cursor);
        assert forall|k: int| 0 <= k < db.probes.len() && (#[trigger] db.probes[k]).id == cursor implies
            db.probes[k].ts == ts by {
            lemma_probe_time(db.probes, db.last_probe_id, k);
        }
    } else {
        assert forall|k: int| 0 <= k < db.probes.len() implies (#[trigger] db.probes[k]).id
            != cursor by {
            lemma_probe_time(db.probes, db.last_probe_id, k);
        }
    }
    if let Some(name) = query.range.channel {
        let channel = identity_of(db.aliases, name);
        if crate::probes::route_touches(db.hops, probe.id, channel) {
            let h = choose|h: int|
                0 <= h < db.hops.len() && (#[trigger] db.hops[h]).probe_id == probe.id
                    && crate::probes::hop_touches(db.hops[h], channel);
            assert(goes_over(db.hops[h], channel));
        }
        if exists|h: int|
            0 <= h < db.hops.len() && (#[trigger] db.hops[h]).probe_id == probe.id && goes_over(
                db.hops[h],
                channel,
            ) {
            let h = choose|h: int|
                0 <= h < db.hops.len() && (#[trigger] db.hops[h]).probe_id == probe.id && goes_over(
                    db.hops[h],
                    channel,
                );
            assert(crate::probes::hop_touches(db.hops[h], channel));
        }
    }
}

/// The probes that a page shows one by one.
pub open spec fn single_probes(db: DbView, query: ProbeQueryView, now: u64) -> Seq<ProbeItemView> {
    match probe_page(db, query, now).items {
        ProbeItemsView::Raw(items) => items,
        ProbeItemsView::Aggregated(_) => Seq::empty(),
    }
}

/// What a page of single probes holds was recorded, is what was asked for, and lies behind the cursor.
/// The probes come by time and then by id.
pub proof fn law_probe_pages_hold_what_is_asked_for(
    db: DbView,
    query: ProbeQueryView,
    now: u64,
    i: int,
)
    requires
        sound(db),
        db.probes.len() <= usize::MAX,
        query.interval is None,
        0 <= i < single_probes(db, query, now).len(),
    ensures
        ({
            let items = single_probes(db, query, now);
            &&& db.probes.contains(items[i].probe)
            &&& is_asked_probe(db, query, now, items[i].probe)
            &&& is_probe_behind_cursor(db, query.range.cursor, items[i].probe)
            &&& forall|j: int|
                i < j < items.len() ==> comes_before(
                    items[i].probe.ts,
                    items[i].probe.id,
                    (#[trigger] items[j]).probe.ts,
                    items[j].probe.id,
                )
        }),
{
    let scope = probe_scope(db, query, now);
    let found = in_order::<Position>(probe_positions(db.probes, db.hops, scope));
    let items = single_probes(db, query, now);
    lemma_probes_ascend(db.probes, db.hops, scope, db.last_probe_id);
    assert(found.contains(found[i]));
    assert(items[i].probe == db.probes[found[i].at as int]);
    lemma_probe_is_wanted(db, query, now, items[i].probe);
    let rank = position_rank();
    assert forall|j: int| i < j < items.len() implies comes_before(
        items[i].probe.ts,
        items[i].probe.id,
        (#[trigger] items[j]).probe.ts,
        items[j].probe.id,
    ) by {
        assert(found.contains(found[j]));
        assert(items[j].probe == db.probes[found[j].at as int]);
        assert(rank(found[i]) < rank(found[j]));
    }
}

/// Every recorded probe that was asked for and lies behind the cursor is on the page of single probes,
/// or behind all that is on it: the page then is full and says where the next one starts.
pub proof fn law_probe_pages_leave_nothing_out(db: DbView, query: ProbeQueryView, now: u64, r: int)
    requires
        sound(db),
        db.probes.len() <= usize::MAX,
        query.interval is None,
        query.range.limit > 0,
        0 <= r < db.probes.len(),
        is_asked_probe(db, query, now, db.probes[r]),
        is_probe_behind_cursor(db, query.range.cursor, db.probes[r]),
    ensures
        ({
            let page = probe_page(db, query, now);
            let items = single_probes(db, query, now);
            ||| exists|k: int| 0 <= k < items.len() && (#[trigger] items[k]).probe == db.probes[r]
            ||| {
                &&& page.has_more
                &&& items.len() == query.range.limit
                &&& page.next_cursor == Some(items.last().probe.id)
                &&& comes_before(
                    items.last().probe.ts,
                    items.last().probe.id,
                    db.probes[r].ts,
                    db.probes[r].id,
                )
            }
        }),
{
    let scope = probe_scope(db, query, now);
    let found = in_order::<Position>(probe_positions(db.probes, db.hops, scope));
    let items = single_probes(db, query, now);
    lemma_probes_ascend(db.probes, db.hops, scope, db.last_probe_id);
    lemma_probe_is_wanted(db, query, now, db.probes[r]);
    let p = Position { ts: db.probes[r].ts, id: db.probes[r].id, at: r as usize };
    assert(found.contains(p));
    let k = choose|k: int| 0 <= k < found.len() && found[k] == p;
    let n = items.len() as int;
    if k < n {
        assert(items[k].probe == db.probes[r]);
    } else {
        assert(found.contains(found[n - 1]));
        assert(items[n - 1].probe == db.probes[found[n - 1].at as int]);
        let rank = position_rank();
        assert(rank(found[n - 1]) < rank(found[k]));
    }
}

/// The route of a probe is made of its hops, by their places, each shown with the channel that it goes
/// over and the direction.
pub proof fn law_routes_are_those_of_the_probes(db: DbView, probe: ProbeRow<Seq<char>>)
    ensures
        ({
            let route = probe_item(db, probe).route;
            &&& forall|i: int|
                0 <= i < route.len() ==> {
                    let item = #[trigger] route[i];
                    &&& db.hops.contains(item.hop)
                    &&& item.hop.probe_id == probe.id
                    &&& item.directed == item.hop.short_channel_id + seq!['/'] + decimal(
                        item.hop.direction as nat,
                    )
                    &&& item.hop.channel_key matches Some(key) ==> item.identity == key
                    &&& item.hop.channel_key is None ==> item.identity == item.hop.short_channel_id
                    &&& item.details == details_of(db, item.identity)
                }
            &&& forall|i: int, j: int|
                0 <= i < j < route.len() ==> (#[trigger] route[i]).hop.hop_index <= (
                #[trigger] route[j]).hop.hop_index
            &&& forall|h: int|
                0 <= h < db.hops.len() && (#[trigger] db.hops[h]).probe_id == probe.id
                    ==> exists|i: int| 0 <= i < route.len() && (#[trigger] route[i]).hop == db.hops[h]
            &&& probe_item(db, probe).probe == probe
        }),
{
    reveal_strlit("/");
    assert("/"@ =~= seq!['/']);
    let own = db.hops.filter(hops_for(probe.id));
    let hops = in_order::<HopRow<String>>(own);
    let route = probe_item(db, probe).route;
    lemma_filter_contains(db.hops, hops_for(probe.id));
    law_sorting_orders_and_keeps::<HopRow<String>>(own);
    assert forall|i: int| 0 <= i < route.len() implies {
        let item = #[trigger] route[i];
        &&& db.hops.contains(item.hop)
        &&& item.hop.probe_id == probe.id
        &&& item == hop_item(db, item.hop)
    } by {
        lemma_in_order_contains::<HopRow<String>>(own, hops[i]);
        assert(hops.contains(hops[i]));
        assert(own.contains(hops[i]));
        assert(route[i] == hop_item(db, hops[i]));
    }
    assert forall|i: int, j: int| 0 <= i < j < route.len() implies (#[trigger] route[i]).hop.hop_index
        <= (#[trigger] route[j]).hop.hop_index by {
        assert(!<HopRow<String> as Ranked>::before(hops[j], hops[i]));
    }
    assert forall|h: int| 0 <= h < db.hops.len() && (#[trigger] db.hops[h]).probe_id == probe.id implies exists|
        i: int,
    | 0 <= i < route.len() && (#[trigger] route[i]).hop == db.hops[h] by {
        let hop = db.hops[h];
        assert(db.hops.contains(hop));
        assert(own.contains(hop));
        lemma_in_order_contains::<HopRow<String>>(own, hop);
        let i = choose|i: int| 0 <= i < hops.len() && hops[i] == hop;
        assert(route[i].hop == hop);
    }
}

/// The key of a route is made of its directed channels, one behind the other.
pub proof fn law_routes_are_keyed_by_their_channels(route: Seq<HopItemView>, next: HopItemView)
    ensures
        route.len() == 0 ==> route_key_of(route) == Seq::<char>::empty(),
        route.len() == 0 ==> route_key_of(route.push(next)) == next.directed,
        route.len() > 0 ==> route_key_of(route.push(next)) == route_key_of(route) + seq!['>']
            + next.directed,
{
    reveal_strlit(">");
    assert(">"@ =~= seq!['>']);
    assert(route.push(next).drop_last() =~= route);
}

proof fn lemma_sorted_sum<T: Ranked>(items: Seq<T::V>, amount: spec_fn(T::V) -> int)
    ensures
        sum_of(in_order::<T>(items), amount) == sum_of(items, amount),
    decreases items.len(),
{
    if items.len() > 0 {
        let rest = in_order::<T>(items.drop_last());
        lemma_sorted_sum::<T>(items.drop_last(), amount);
        lemma_place_behind::<T>(rest, items.last());
        lemma_sum_of_insert(rest, amount, place_behind::<T>(rest, items.last()), items.last());
    }
}

/// One for what is counted, nothing for the rest.
spec fn one_if<T>(wanted: spec_fn(T) -> bool) -> spec_fn(T) -> int {
    |item: T|
        if wanted(item) {
            1
        } else {
            0
        }
}

proof fn lemma_count_is_sum<T>(items: Seq<T>, wanted: spec_fn(T) -> bool)
    ensures
        items.filter(wanted).len() == sum_of(items, one_if(wanted)),
    decreases items.len(),
{
    if items.len() > 0 {
        lemma_filter_grows(items, wanted);
        lemma_count_is_sum(items.drop_last(), wanted);
    } else {
        reveal(Seq::filter);
    }
}

proof fn lemma_mapped_sum(
    positions: Seq<Position>,
    rows: Seq<ProbeRow<Seq<char>>>,
    amount: spec_fn(ProbeRow<Seq<char>>) -> int,
)
    ensures
        sum_of(
            Seq::new(positions.len(), |i: int| rows[positions[i].at as int]),
            amount,
        ) == sum_of(positions, |p: Position| amount(rows[p.at as int])),
    decreases positions.len(),
{
    let all = Seq::new(positions.len(), |i: int| rows[positions[i].at as int]);
    if positions.len() > 0 {
        let front = positions.drop_last();
        lemma_mapped_sum(front, rows, amount);
        assert(all.drop_last() =~= Seq::new(front.len(), |i: int| rows[front[i].at as int]));
        assert(all.last() == rows[positions.last().at as int]);
    }
}

proof fn lemma_same_positions(
    positions: Seq<Position>,
    a: Seq<ProbeRow<Seq<char>>>,
    b: Seq<ProbeRow<Seq<char>>>,
    amount: spec_fn(ProbeRow<Seq<char>>) -> int,
)
    requires
        forall|i: int|
            0 <= i < positions.len() ==> a[(#[trigger] positions[i]).at as int]
                == b[positions[i].at as int],
    ensures
        sum_of(positions, |p: Position| amount(a[p.at as int])) == sum_of(
            positions,
            |p: Position| amount(b[p.at as int]),
        ),
    decreases positions.len(),
{
    if positions.len() > 0 {
        let front = positions.drop_last();
        assert forall|i: int| 0 <= i < front.len() implies a[(#[trigger] front[i]).at as int]
            == b[front[i].at as int] by {
            assert(front[i] == positions[i]);
        }
        lemma_same_positions(front, a, b, amount);
        assert(positions[positions.len() - 1] == positions.last());
    }
}

proof fn lemma_positions_sum(
    rows: Seq<ProbeRow<Seq<char>>>,
    hops: Seq<HopRow<Seq<char>>>,
    scope: ProbeScope,
    amount: spec_fn(ProbeRow<Seq<char>>) -> int,
)
    requires
        rows.len() <= usize::MAX,
    ensures
        sum_of(
            probe_positions(rows, hops, scope),
            |p: Position| amount(rows[p.at as int]),
        ) == sum_of(
            rows,
            |row: ProbeRow<Seq<char>>|
                if is_probe_wanted(hops, scope, row) {
                    amount(row)
                } else {
                    0
                },
        ),
    decreases rows.len(),
{
    if rows.len() > 0 {
        let front = rows.drop_last();
        lemma_positions_sum(front, hops, scope, amount);
        lemma_probe_positions(front, hops, scope);
        let before = probe_positions(front, hops, scope);
        let found = probe_positions(rows, hops, scope);
        assert forall|i: int| 0 <= i < before.len() implies front[(#[trigger] before[i]).at as int]
            == rows[before[i].at as int] by {}
        lemma_same_positions(before, front, rows, amount);
        if is_probe_wanted(hops, scope, rows.last()) {
            assert(found.drop_last() =~= before);
            assert(rows[found.last().at as int] == rows.last());
        }
    }
}

/// How many of the recorded probes are asked for and wanted.
pub open spec fn asked_count(
    db: DbView,
    query: ProbeQueryView,
    now: u64,
    wanted: spec_fn(ProbeRow<Seq<char>>) -> bool,
) -> nat {
    db.probes.filter(
        |probe: ProbeRow<Seq<char>>| is_asked_probe(db, query, now, probe) && wanted(probe),
    ).len()
}

proof fn lemma_asked_count(
    db: DbView,
    query: ProbeQueryView,
    now: u64,
    wanted: spec_fn(ProbeRow<Seq<char>>) -> bool,
)
    requires
        sound(db),
        db.probes.len() <= usize::MAX,
        query.interval is Some,
    ensures
        probes_in_order(db, probe_scope(db, query, now)).filter(wanted).len() == asked_count(
            db,
            query,
            now,
            wanted,
        ),
{
    let scope = probe_scope(db, query, now);
    let positions = probe_positions(db.probes, db.hops, scope);
    let found = in_order::<Position>(positions);
    let amount = one_if(wanted);
    let at = |p: Position| amount(db.probes[p.at as int]);
    lemma_count_is_sum(probes_in_order(db, scope), wanted);
    lemma_mapped_sum(found, db.probes, amount);
    lemma_sorted_sum::<Position>(positions, at);
    lemma_positions_sum(db.probes, db.hops, scope, amount);
    let both = |probe: ProbeRow<Seq<char>>| is_asked_probe(db, query, now, probe) && wanted(probe);
    lemma_count_is_sum(db.probes, both);
    let chosen = |row: ProbeRow<Seq<char>>|
        if is_probe_wanted(db.hops, scope, row) {
            amount(row)
        } else {
            0
        };
    assert forall|row: ProbeRow<Seq<char>>| #[trigger] chosen(row) == one_if(both)(row) by {
        lemma_probe_is_wanted(db, query, now, row);
    }
    assert(chosen =~= one_if(both));
}

/// The rows of probes that a page shows.
pub open spec fn probe_rows(db: DbView, query: ProbeQueryView, now: u64) -> Seq<
    crate::probes::AggregateView,
> {
    match probe_page(db, query, now).items {
        ProbeItemsView::Raw(_) => Seq::empty(),
        ProbeItemsView::Aggregated(items) => items,
    }
}

/// A row of probes that a page shows counts the recorded probes that were asked for, of its span of time
/// and its route: all of them, those that reached their destination, those that were paid out, and those
/// that failed for each reason.
pub proof fn law_rows_of_probes_count_what_is_asked_for(
    db: DbView,
    query: ProbeQueryView,
    now: u64,
    interval: u64,
    i: int,
    reason: Seq<char>,
)
    requires
        sound(db),
        db.probes.len() <= usize::MAX,
        query.interval == Some(interval),
        interval > 0,
        0 <= i < probe_rows(db, query, now).len(),
    ensures
        ({
            let row = probe_rows(db, query, now)[i];
            &&& row.attempts == asked_count(
                db,
                query,
                now,
                |probe: ProbeRow<Seq<char>>| is_counted_by(db, row, interval, probe),
            )
            &&& row.destination_reached == asked_count(
                db,
                query,
                now,
                |probe: ProbeRow<Seq<char>>|
                    is_counted_by(db, row, interval, probe) && arrived(probe),
            )
            &&& row.unexpected_settlement == asked_count(
                db,
                query,
                now,
                |probe: ProbeRow<Seq<char>>|
                    is_counted_by(db, row, interval, probe) && was_settled(probe),
            )
            &&& crate::tallies::count_at(row.failures, seq![reason]) == asked_count(
                db,
                query,
                now,
                |probe: ProbeRow<Seq<char>>|
                    is_counted_by(db, row, interval, probe) && failed_for(probe, reason),
            )
        }),
{
    let scope = probe_scope(db, query, now);
    let found = probes_in_order(db, scope);
    let groups = aggregated(db, found, interval);
    let from = skipped(groups.len(), query.range.after());
    let row = probe_rows(db, query, now)[i];
    assert(row == groups[from + i]);
    lemma_probes_ascend(db.probes, db.hops, scope, db.last_probe_id);
    lemma_found_len(db.probes, db.hops, scope);
    law_sorting_orders_and_keeps::<Position>(probe_positions(db.probes, db.hops, scope));
    law_aggregates_count_their_probes(db, found, interval, from + i);
    lemma_asked_count(
        db,
        query,
        now,
        |probe: ProbeRow<Seq<char>>| is_counted_by(db, row, interval, probe),
    );
    lemma_asked_count(
        db,
        query,
        now,
        |probe: ProbeRow<Seq<char>>| is_counted_by(db, row, interval, probe) && arrived(probe),
    );
    lemma_asked_count(
        db,
        query,
        now,
        |probe: ProbeRow<Seq<char>>| is_counted_by(db, row, interval, probe) && was_settled(probe),
    );
    lemma_asked_count(
        db,
        query,
        now,
        |probe: ProbeRow<Seq<char>>|
            is_counted_by(db, row, interval, probe) && failed_for(probe, reason),
    );
    assert(counts_its_probes(db, row, interval, found));
    assert(match crate::ordered::value_of(row.failures, seq![reason]) {
        Some(count) => count == crate::census::failures_for(db, row, interval, found, reason),
        None => crate::census::failures_for(db, row, interval, found, reason) == 0,
    });
}

proof fn lemma_found_len(
    rows: Seq<ProbeRow<Seq<char>>>,
    hops: Seq<HopRow<Seq<char>>>,
    scope: ProbeScope,
)
    ensures
        probe_positions(rows, hops, scope).len() <= rows.len(),
    decreases rows.len(),
{
    if rows.len() > 0 {
        lemma_found_len(rows.drop_last(), hops, scope);
    }
}

/// A page of pairs holds no more than the limit, starts where the cursor says, and says where the next
/// one starts if something is left.
pub proof fn law_pair_pages_are_limited(
    db: DbView,
    query: PairQueryView,
    now: u64,
    groups: Seq<BucketRow<Seq<char>>>,
    admitted: Seq<bool>,
)
    requires
        groups.len() <= u64::MAX,
    ensures
        ({
            let page = pair_page(db, query, now, groups, admitted);
            &&& page.items.len() <= query.range.limit
            &&& page.start == asked_start(query.range)
            &&& page.end == asked_end(query.range, now)
            &&& page.interval == query.interval
            &&& page.has_more <==> page.next_cursor is Some
            &&& page.next_cursor matches Some(next) ==> {
                &&& page.items.len() == query.range.limit
                &&& next == page.items.len() + match query.range.cursor {
                    Some(cursor) => cursor as int,
                    None => 0,
                }
            }
        }),
{
    let in_filter = filter_of(db.aliases, query.in_channel);
    let out_filter = filter_of(db.aliases, query.out_channel);
    crate::census::lemma_passing_is_part(groups, admitted, in_filter, out_filter);
}

/// Whether one pair is listed ahead of another: by its time, then by the channel it comes in by, the one
/// it goes out by, how it ended, the code and the reason.
pub open spec fn is_listed_ahead(a: BucketRow<Seq<char>>, b: BucketRow<Seq<char>>) -> bool {
    ||| a.bucket_start < b.bucket_start
    ||| a.bucket_start == b.bucket_start && {
        ||| text_before(a.in_channel, b.in_channel)
        ||| a.in_channel == b.in_channel && {
            ||| text_before(a.out_channel, b.out_channel)
            ||| a.out_channel == b.out_channel && {
                ||| text_before(a.status, b.status)
                ||| a.status == b.status && {
                    ||| a.failcode < b.failcode
                    ||| a.failcode == b.failcode && text_before(a.failreason, b.failreason)
                }
            }
        }
    }
}

/// The pairs are listed by time, then by their channels, then by their result.
pub proof fn law_pairs_are_listed_by_time_and_channels(
    buckets: Seq<BucketRow<Seq<char>>>,
    start: u64,
    end: u64,
    interval: u64,
    i: int,
    j: int,
)
    requires
        0 <= i < j < grouped(buckets, start, end, interval).len(),
    ensures
        is_listed_ahead(
            grouped(buckets, start, end, interval)[i],
            grouped(buckets, start, end, interval)[j],
        ),
{
    law_pairs_are_listed_once_in_order(buckets, start, end, interval);
    let a = grouped(buckets, start, end, interval)[i];
    let b = grouped(buckets, start, end, interval)[j];
    assert(pair_before(a, b));
    let x = pair_parts(a);
    let y = pair_parts(b);
    assert(x.drop_first() =~= seq![a.out_channel, a.status]);
    assert(y.drop_first() =~= seq![b.out_channel, b.status]);
    assert(x.drop_first().drop_first() =~= seq![a.status]);
    assert(y.drop_first().drop_first() =~= seq![b.status]);
    law_keys_are_ordered_by_their_parts(a.status, b.status, a.status, b.status);
    assert(parts_before(x, y) ==> text_before(a.in_channel, b.in_channel) || (a.in_channel
        == b.in_channel && parts_before(x.drop_first(), y.drop_first())));
    assert(parts_before(x.drop_first(), y.drop_first()) ==> text_before(
        a.out_channel,
        b.out_channel,
    ) || (a.out_channel == b.out_channel && parts_before(
        x.drop_first().drop_first(),
        y.drop_first().drop_first(),
    )));
    if x == y {
        assert(x[0] == a.in_channel && y[0] == b.in_channel);
        assert(x[1] == a.out_channel && y[1] == b.out_channel);
        assert(x[2] == a.status && y[2] == b.status);
    }
}

/// The rows of probes are listed by time, then by their route.
pub proof fn law_rows_of_probes_are_listed_by_time_and_route(
    db: DbView,
    query: ProbeQueryView,
    now: u64,
    i: int,
    j: int,
)
    requires
        query.interval matches Some(interval) && interval > 0,
        0 <= i < j < probe_rows(db, query, now).len(),
    ensures
        ({
            let a = probe_rows(db, query, now)[i];
            let b = probe_rows(db, query, now)[j];
            a.period < b.period || (a.period == b.period && text_before(a.route_key, b.route_key))
        }),
{
    let found = probes_in_order(db, probe_scope(db, query, now));
    let interval = query.interval->0;
    let groups = aggregated(db, found, interval);
    let from = skipped(groups.len(), query.range.after());
    law_aggregates_are_listed_once_in_order(db, found, interval);
    assert(probe_rows(db, query, now)[i] == groups[from + i]);
    assert(probe_rows(db, query, now)[j] == groups[from + j]);
    assert(is_listed_before(groups[from + i], groups[from + j]));
}

/// A page of rows of probes holds no more than the limit, and says that there is more exactly where it
/// says where the next one starts.
pub proof fn law_pages_of_rows_of_probes_are_limited(db: DbView, query: ProbeQueryView, now: u64)
    requires
        query.interval matches Some(interval) && interval > 0,
    ensures
        ({
            let page = probe_page(db, query, now);
            let rows = probe_rows(db, query, now);
            &&& rows.len() <= query.range.limit
            &&& page.start == asked_start(query.range)
            &&& page.end == asked_end(query.range, now)
            &&& page.interval == query.interval
            &&& page.has_more <==> page.next_cursor is Some
            &&& page.has_more ==> rows.len() == query.range.limit
        }),
{
}

/// A page of single probes holds no more than the limit, and says where the next one starts if something
/// is left.
pub proof fn law_probe_pages_are_limited(db: DbView, query: ProbeQueryView, now: u64)
    requires
        query.interval is None,
        query.range.limit > 0,
    ensures
        ({
            let page = probe_page(db, query, now);
            let items = single_probes(db, query, now);
            &&& items.len() <= query.range.limit
            &&& page.start == asked_start(query.range)
            &&& page.end == asked_end(query.range, now)
            &&& page.interval is None
            &&& page.has_more <==> page.next_cursor is Some
            &&& page.has_more ==> items.len() == query.range.limit
        }),
{
}

/// Every recorded probe that was asked for is counted by a row of some page.
pub proof fn law_rows_of_probes_leave_nothing_out(
    db: DbView,
    query: ProbeQueryView,
    now: u64,
    interval: u64,
    r: int,
)
    requires
        sound(db),
        db.probes.len() <= usize::MAX,
        query.interval == Some(interval),
        interval > 0,
        query.range.limit > 0,
        0 <= r < db.probes.len(),
        is_asked_probe(db, query, now, db.probes[r]),
    ensures
        exists|cursor: u64| {
            let rows = #[trigger] probe_rows(
                db,
                ProbeQueryView {
                    range: crate::queries::RangeView { cursor: Some(cursor), ..query.range },
                    ..query
                },
                now,
            );
            rows.len() > 0 && is_counted_by(db, rows[0], interval, db.probes[r])
        },
{
    let scope = probe_scope(db, query, now);
    let found = in_order::<Position>(probe_positions(db.probes, db.hops, scope));
    lemma_probes_ascend(db.probes, db.hops, scope, db.last_probe_id);
    lemma_probe_is_wanted(db, query, now, db.probes[r]);
    let p = Position { ts: db.probes[r].ts, id: db.probes[r].id, at: r as usize };
    assert(found.contains(p));
    let k = choose|k: int| 0 <= k < found.len() && found[k] == p;
    let probes = probes_in_order(db, scope);
    assert(probes[k] == db.probes[r]);
    let groups = aggregated(db, probes, interval);
    law_aggregates_show_the_extremes(db, probes, interval, k);
    let i = choose|i: int|
        0 <= i < groups.len() && shows(db, #[trigger] groups[i], probes[k], interval);
    lemma_group_count(db, probes, interval);
    lemma_found_len(db.probes, db.hops, scope);
    law_sorting_orders_and_keeps::<Position>(probe_positions(db.probes, db.hops, scope));
    let cursor = i as u64;
    let asked = ProbeQueryView {
        range: crate::queries::RangeView { cursor: Some(cursor), ..query.range },
        ..query
    };
    assert(probe_scope(db, asked, now) == scope);
    let rows = probe_rows(db, asked, now);
    assert(rows[0] == groups[i]);
    assert(probe_period(db.probes[r].ts, interval) == db.probes[r].ts / interval * interval) by {
        assert(db.probes[r].ts as int / interval as int * interval as int <= db.probes[r].ts)
            by (nonlinear_arith)
            requires
                interval > 0,
        ;
    }
}

proof fn lemma_group_count(db: DbView, probes: Seq<ProbeRow<Seq<char>>>, interval: u64)
    ensures
        aggregated(db, probes, interval).len() <= probes.len(),
    decreases probes.len(),
{
    if probes.len() > 0 {
        lemma_group_count(db, probes.drop_last(), interval);
        let before = aggregated(db, probes.drop_last(), interval);
        let probe = probes.last();
        lemma_aggregate_place(
            before,
            probe_period(probe.ts, interval),
            probe_item(db, probe).route_key,
        );
    }
}

/// The names of a channel are listed by kind, then by when they were first seen, then by themselves.
pub proof fn law_names_are_listed_by_kind_and_time(db: DbView, key: Seq<char>, i: int, j: int)
    requires
        0 <= i < j < details_of(db, key).aliases.len(),
    ensures
        ({
            let a = details_of(db, key).aliases[i];
            let b = details_of(db, key).aliases[j];
            ||| text_before(a.alias_type, b.alias_type)
            ||| a.alias_type == b.alias_type && (a.first_seen < b.first_seen || (a.first_seen
                == b.first_seen && (text_before(a.alias, b.alias) || a.alias == b.alias)))
        }),
{
    let own = db.aliases.filter(crate::browse::stands_for(key));
    law_sorting_orders_and_keeps::<AliasRow<String>>(own);
    let a = details_of(db, key).aliases[i];
    let b = details_of(db, key).aliases[j];
    assert(!<AliasRow<String> as Ranked>::before(b, a));
    lemma_text_before_total(a.alias_type, b.alias_type);
    lemma_text_before_total(a.alias, b.alias);
}

} // verus!
