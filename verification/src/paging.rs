//! What the pages of a query hold: what an interval shows, what stands ahead of a range, and that the
//! pages join.

use crate::browse::{
    ahead_of_range, answer_of, are_positions, baseline, baseline_positions, bucket_of, chosen_of,
    condensed, in_range, is_behind_id, is_position, pending_htlcs, positions_ahead, positions_in,
    sample_page, scope_of, shares_group, shown, shown_positions, standing_for, with_candidate, Chosen,
    Position, Scope,
};
use crate::integrity::{samples_sound, sound};
use crate::queries::{RangeView, SampleQueryView};
use crate::recording::is_later;
use crate::sorting::{
    in_order, law_sorting_orders_and_keeps, lemma_in_order_contains, lemma_in_order_stays_distinct,
    Ranked,
};
use crate::store::{DbView, SampleRowView};
use vstd::prelude::*;

verus! {

/// Whether one candidate counts more than another of its group: it is later, or, where the most
/// HTLCs count, it has more of them, or as many and is later.
pub open spec fn outranks(
    rows: Seq<SampleRowView>,
    positions: Seq<Position>,
    k: int,
    q: int,
    most: bool,
) -> bool {
    let chosen = pending_htlcs(rows[positions[k].at as int].sample);
    let other = pending_htlcs(rows[positions[q].at as int].sample);
    if most {
        chosen > other || (chosen == other && k >= q)
    } else {
        k >= q
    }
}

/// Whether what is kept holds a candidate of the group of that one that counts at least as much.
pub open spec fn is_stood_for(
    rows: Seq<SampleRowView>,
    positions: Seq<Position>,
    kept: Seq<Position>,
    q: int,
    start: u64,
    interval: Option<u64>,
    most: bool,
) -> bool {
    exists|i: int, k: int|
        #![trigger kept[i], positions[k]]
        0 <= i < kept.len() && 0 <= k < positions.len() && kept[i] == positions[k] && shares_group(
            rows[positions[k].at as int],
            rows[positions[q].at as int],
            start,
            interval,
        ) && outranks(rows, positions, k, q, most)
}

proof fn lemma_standing(
    rows: Seq<SampleRowView>,
    kept: Seq<Position>,
    row: SampleRowView,
    start: u64,
    interval: Option<u64>,
)
    ensures
        ({
            let p = standing_for(rows, kept, row, start, interval);
            &&& -1 <= p < kept.len()
            &&& p >= 0 ==> shares_group(rows[kept[p].at as int], row, start, interval)
            &&& p < 0 ==> forall|i: int|
                0 <= i < kept.len() ==> !shares_group(
                    rows[(#[trigger] kept[i]).at as int],
                    row,
                    start,
                    interval,
                )
        }),
    decreases kept.len(),
{
    if kept.len() > 0 {
        lemma_standing(rows, kept.drop_last(), row, start, interval);
        assert forall|i: int| 0 <= i < kept.len() - 1 implies kept.drop_last()[i]
            == #[trigger] kept[i] by {}
    }
}

pub proof fn lemma_condensed_groups(
    rows: Seq<SampleRowView>,
    positions: Seq<Position>,
    start: u64,
    interval: Option<u64>,
    most: bool,
)
    ensures
        ({
            let kept = condensed(rows, positions, start, interval, most);
            &&& forall|i: int| 0 <= i < kept.len() ==> positions.contains(#[trigger] kept[i])
            &&& forall|i: int, j: int|
                0 <= i < j < kept.len() ==> !shares_group(
                    rows[(#[trigger] kept[i]).at as int],
                    rows[(#[trigger] kept[j]).at as int],
                    start,
                    interval,
                )
        }),
    decreases positions.len(),
{
    if positions.len() > 0 {
        let front = positions.drop_last();
        let candidate = positions.last();
        let row = rows[candidate.at as int];
        lemma_condensed_groups(rows, front, start, interval, most);
        let before = condensed(rows, front, start, interval, most);
        let kept = condensed(rows, positions, start, interval, most);
        let p = standing_for(rows, before, row, start, interval);
        lemma_standing(rows, before, row, start, interval);
        assert forall|i: int| 0 <= i < kept.len() implies positions.contains(#[trigger] kept[i]) by {
            if kept[i] == candidate {
                assert(positions[positions.len() - 1] == candidate);
            } else {
                assert(kept[i] == before[i]);
                let k = choose|k: int| 0 <= k < front.len() && front[k] == before[i];
                assert(positions[k] == before[i]);
            }
        }
    }
}

proof fn lemma_still_stood_for(
    rows: Seq<SampleRowView>,
    positions: Seq<Position>,
    before: Seq<Position>,
    q: int,
    start: u64,
    interval: Option<u64>,
    most: bool,
)
    requires
        positions.len() > 0,
        0 <= q < positions.len() - 1,
        is_stood_for(rows, positions.drop_last(), before, q, start, interval, most),
    ensures
        is_stood_for(
            rows,
            positions,
            with_candidate(rows, before, positions.last(), start, interval, most),
            q,
            start,
            interval,
            most,
        ),
{
    let front = positions.drop_last();
    let m = positions.len() - 1;
    let row = rows[positions.last().at as int];
    let kept = with_candidate(rows, before, positions.last(), start, interval, most);
    let p = standing_for(rows, before, row, start, interval);
    lemma_standing(rows, before, row, start, interval);
    let (i, k) = choose|i: int, k: int|
        #![trigger before[i], front[k]]
        0 <= i < before.len() && 0 <= k < front.len() && before[i] == front[k] && shares_group(
            rows[front[k].at as int],
            rows[front[q].at as int],
            start,
            interval,
        ) && outranks(rows, front, k, q, most);
    assert(front[k] == positions[k] && front[q] == positions[q]);
    if kept[i] == before[i] {
        assert(kept[i] == positions[k]);
        assert(outranks(rows, positions, k, q, most));
    } else {
        assert(i == p);
        assert(kept[i] == positions[m]);
        assert(outranks(rows, positions, m, q, most));
    }
}

proof fn lemma_candidate_stood_for(
    rows: Seq<SampleRowView>,
    positions: Seq<Position>,
    before: Seq<Position>,
    start: u64,
    interval: Option<u64>,
    most: bool,
)
    requires
        positions.len() > 0,
        forall|i: int|
            0 <= i < before.len() ==> positions.drop_last().contains(#[trigger] before[i]),
    ensures
        is_stood_for(
            rows,
            positions,
            with_candidate(rows, before, positions.last(), start, interval, most),
            positions.len() - 1,
            start,
            interval,
            most,
        ),
{
    let front = positions.drop_last();
    let m = positions.len() - 1;
    let candidate = positions.last();
    let row = rows[candidate.at as int];
    let kept = with_candidate(rows, before, candidate, start, interval, most);
    let p = standing_for(rows, before, row, start, interval);
    lemma_standing(rows, before, row, start, interval);
    if p < 0 {
        assert(kept[kept.len() - 1] == positions[m]);
    } else if kept[p] == candidate {
        assert(kept[p] == positions[m]);
    } else {
        assert(kept[p] == before[p]);
        let k = choose|k: int| 0 <= k < front.len() && front[k] == before[p];
        assert(kept[p] == positions[k]);
        assert(outranks(rows, positions, k, m, most));
    }
}

/// Of every group one candidate is kept: the one that counts most.
proof fn lemma_condensed(
    rows: Seq<SampleRowView>,
    positions: Seq<Position>,
    start: u64,
    interval: Option<u64>,
    most: bool,
    q: int,
)
    requires
        0 <= q < positions.len(),
    ensures
        is_stood_for(
            rows,
            positions,
            condensed(rows, positions, start, interval, most),
            q,
            start,
            interval,
            most,
        ),
    decreases positions.len(),
{
    let front = positions.drop_last();
    let before = condensed(rows, front, start, interval, most);
    if q < positions.len() - 1 {
        lemma_condensed(rows, front, start, interval, most, q);
        lemma_still_stood_for(rows, positions, before, q, start, interval, most);
    } else {
        lemma_condensed_groups(rows, front, start, interval, most);
        lemma_candidate_stood_for(rows, positions, before, start, interval, most);
    }
}

/// The positions of the states in the range.
pub proof fn lemma_positions_in(rows: Seq<SampleRowView>, scope: Scope)
    requires
        rows.len() <= usize::MAX,
    ensures
        ({
            let found = positions_in(rows, scope);
            &&& forall|i: int|
                0 <= i < found.len() ==> is_position(rows)(#[trigger] found[i]) && in_range(
                    scope,
                    rows[found[i].at as int],
                )
            &&& forall|i: int, j: int|
                0 <= i < j < found.len() ==> (#[trigger] found[i]).at < (#[trigger] found[j]).at
            &&& forall|r: int|
                0 <= r < rows.len() && in_range(scope, #[trigger] rows[r]) ==> found.contains(
                    Position { ts: rows[r].ts, id: rows[r].id, at: r as usize },
                )
        }),
    decreases rows.len(),
{
    if rows.len() > 0 {
        let front = rows.drop_last();
        lemma_positions_in(front, scope);
        let before = positions_in(front, scope);
        let found = positions_in(rows, scope);
        assert forall|i: int| 0 <= i < front.len() implies front[i] == #[trigger] rows[i] by {}
        assert forall|i: int| 0 <= i < found.len() implies is_position(rows)(#[trigger] found[i])
            && in_range(scope, rows[found[i].at as int]) by {
            if i < before.len() {
                assert(found[i] == before[i]);
            }
        }
        assert forall|i: int, j: int| 0 <= i < j < found.len() implies (#[trigger] found[i]).at < (
        #[trigger] found[j]).at by {
            assert(found[i] == before[i]);
            if j < before.len() {
                assert(found[j] == before[j]);
            }
        }
        assert forall|r: int|
            0 <= r < rows.len() && in_range(scope, #[trigger] rows[r]) implies found.contains(
            Position { ts: rows[r].ts, id: rows[r].id, at: r as usize },
        ) by {
            let position = Position { ts: rows[r].ts, id: rows[r].id, at: r as usize };
            if r < front.len() {
                assert(front[r] == rows[r]);
                let k = choose|k: int| 0 <= k < before.len() && before[k] == position;
                assert(found[k] == position);
            } else {
                assert(found.last() == position);
            }
        }
    }
}

/// The positions of the states ahead of the range.
pub proof fn lemma_positions_ahead(rows: Seq<SampleRowView>, scope: Scope)
    requires
        rows.len() <= usize::MAX,
    ensures
        ({
            let found = positions_ahead(rows, scope);
            &&& forall|i: int|
                0 <= i < found.len() ==> is_position(rows)(#[trigger] found[i]) && ahead_of_range(
                    scope,
                    rows[found[i].at as int],
                )
            &&& forall|i: int, j: int|
                0 <= i < j < found.len() ==> (#[trigger] found[i]).at < (#[trigger] found[j]).at
            &&& forall|r: int|
                0 <= r < rows.len() && ahead_of_range(scope, #[trigger] rows[r]) ==> found.contains(
                    Position { ts: rows[r].ts, id: rows[r].id, at: r as usize },
                )
        }),
    decreases rows.len(),
{
    if rows.len() > 0 {
        let front = rows.drop_last();
        lemma_positions_ahead(front, scope);
        let before = positions_ahead(front, scope);
        let found = positions_ahead(rows, scope);
        assert forall|i: int| 0 <= i < front.len() implies front[i] == #[trigger] rows[i] by {}
        assert forall|i: int| 0 <= i < found.len() implies is_position(rows)(#[trigger] found[i])
            && ahead_of_range(scope, rows[found[i].at as int]) by {
            if i < before.len() {
                assert(found[i] == before[i]);
            }
        }
        assert forall|i: int, j: int| 0 <= i < j < found.len() implies (#[trigger] found[i]).at < (
        #[trigger] found[j]).at by {
            assert(found[i] == before[i]);
            if j < before.len() {
                assert(found[j] == before[j]);
            }
        }
        assert forall|r: int|
            0 <= r < rows.len() && ahead_of_range(scope, #[trigger] rows[r]) implies found.contains(
            Position { ts: rows[r].ts, id: rows[r].id, at: r as usize },
        ) by {
            let position = Position { ts: rows[r].ts, id: rows[r].id, at: r as usize };
            if r < front.len() {
                assert(front[r] == rows[r]);
                let k = choose|k: int| 0 <= k < before.len() && before[k] == position;
                assert(found[k] == position);
            } else {
                assert(found.last() == position);
            }
        }
    }
}

/// The answer holds what is shown and the baselines.
pub proof fn lemma_answer(rows: Seq<SampleRowView>, scope: Scope, interval: Option<u64>, x: Chosen)
    ensures
        answer_of(rows, scope, interval).contains(x) <==> (exists|p: Position|
            #[trigger] shown_positions(rows, scope, interval).contains(p) && x == shown(
                p,
                scope.start,
                interval,
            )) || (exists|p: Position|
            #[trigger] baseline_positions(rows, scope).contains(p) && x == baseline(p)),
{
    let inside = shown_positions(rows, scope, interval);
    let ahead = baseline_positions(rows, scope);
    let front = Seq::new(inside.len(), |i: int| shown(inside[i], scope.start, interval));
    let back = Seq::new(ahead.len(), |i: int| baseline(ahead[i]));
    let all = front + back;
    lemma_in_order_contains::<Chosen>(all, x);
    if all.contains(x) {
        let i = choose|i: int| 0 <= i < all.len() && all[i] == x;
        if i < front.len() {
            assert(inside.contains(inside[i]));
        } else {
            assert(all[i] == back[i - front.len()]);
            assert(ahead.contains(ahead[i - front.len()]));
        }
    }
    if exists|p: Position|
        #[trigger] inside.contains(p) && x == shown(p, scope.start, interval) {
        let p = choose|p: Position|
            #[trigger] inside.contains(p) && x == shown(p, scope.start, interval);
        let i = choose|i: int| 0 <= i < inside.len() && inside[i] == p;
        assert(all[i] == x);
    }
    if exists|p: Position| #[trigger] ahead.contains(p) && x == baseline(p) {
        let p = choose|p: Position| #[trigger] ahead.contains(p) && x == baseline(p);
        let i = choose|i: int| 0 <= i < ahead.len() && ahead[i] == p;
        assert(all[front.len() + i] == x);
    }
}

/// The candidate that is kept for one of the sorted candidates counts at least as much.
pub proof fn lemma_kept_for(
    rows: Seq<SampleRowView>,
    found: Seq<Position>,
    start: u64,
    interval: Option<u64>,
    most: bool,
    r: int,
) -> (p: Position)
    requires
        0 <= r < rows.len() <= usize::MAX,
        are_positions(rows, found),
        found.contains(Position { ts: rows[r].ts, id: rows[r].id, at: r as usize }),
    ensures
        condensed(rows, in_order::<Position>(found), start, interval, most).contains(p),
        found.contains(p),
        shares_group(rows[p.at as int], rows[r], start, interval),
        most ==> pending_htlcs(rows[p.at as int].sample) >= pending_htlcs(rows[r].sample),
        !most || pending_htlcs(rows[p.at as int].sample) == pending_htlcs(rows[r].sample)
            ==> !is_later(rows[r], rows[p.at as int]),
{
    let sorted = in_order::<Position>(found);
    let own = Position { ts: rows[r].ts, id: rows[r].id, at: r as usize };
    law_sorting_orders_and_keeps::<Position>(found);
    lemma_in_order_contains::<Position>(found, own);
    let q = choose|q: int| 0 <= q < sorted.len() && sorted[q] == own;
    lemma_condensed(rows, sorted, start, interval, most, q);
    let kept = condensed(rows, sorted, start, interval, most);
    let (i, k) = choose|i: int, k: int|
        #![trigger kept[i], sorted[k]]
        0 <= i < kept.len() && 0 <= k < sorted.len() && kept[i] == sorted[k] && shares_group(
            rows[sorted[k].at as int],
            rows[sorted[q].at as int],
            start,
            interval,
        ) && outranks(rows, sorted, k, q, most);
    let p = sorted[k];
    assert(kept.contains(p)) by {
        assert(kept[i] == p);
    }
    lemma_in_order_contains::<Position>(found, p);
    assert(sorted.contains(p));
    let at = choose|at: int| 0 <= at < found.len() && found[at] == p;
    assert(is_position(rows)(found[at]));
    if k > q {
        assert(!<Position as Ranked>::before(sorted[k], sorted[q]));
    }
    p
}

/// With an interval, every state in the range is stood for by one of its channel and its span of time:
/// by the last one, or, where the pending HTLCs are asked for, by the last one that has the most.
pub proof fn law_an_interval_shows_the_last_state(
    rows: Seq<SampleRowView>,
    scope: Scope,
    interval: u64,
    r: int,
)
    requires
        0 <= r < rows.len() <= usize::MAX,
        in_range(scope, rows[r]),
    ensures
        exists|c: Chosen| #[trigger]
            answer_of(rows, scope, Some(interval)).contains(c) && c.bucket_start == Some(
                bucket_of(rows[r].ts, scope.start, interval),
            ) && in_range(scope, rows[c.at as int]) && shares_group(
                rows[c.at as int],
                rows[r],
                scope.start,
                Some(interval),
            ) && (if scope.htlcs_only {
                pending_htlcs(rows[c.at as int].sample) > pending_htlcs(rows[r].sample) || (
                pending_htlcs(rows[c.at as int].sample) == pending_htlcs(rows[r].sample)
                    && !is_later(rows[r], rows[c.at as int]))
            } else {
                !is_later(rows[r], rows[c.at as int])
            }),
{
    lemma_positions_in(rows, scope);
    let found = positions_in(rows, scope);
    let p = lemma_kept_for(rows, found, scope.start, Some(interval), scope.htlcs_only, r);
    let at = choose|at: int| 0 <= at < found.len() && found[at] == p;
    assert(is_position(rows)(found[at]));
    let c = shown(p, scope.start, Some(interval));
    lemma_answer(rows, scope, Some(interval), c);
    assert(shown_positions(rows, scope, Some(interval)).contains(p));
}

/// With an interval, a channel is shown once in a span of time, over all the pages.
pub proof fn law_an_interval_shows_a_channel_once(
    rows: Seq<SampleRowView>,
    scope: Scope,
    interval: u64,
    a: Chosen,
    b: Chosen,
)
    requires
        rows.len() <= usize::MAX,
        answer_of(rows, scope, Some(interval)).contains(a),
        answer_of(rows, scope, Some(interval)).contains(b),
        a.bucket_start is Some,
        b.bucket_start == a.bucket_start,
        rows[a.at as int].sample.channel_key == rows[b.at as int].sample.channel_key,
    ensures
        a == b,
{
    lemma_positions_in(rows, scope);
    let found = positions_in(rows, scope);
    let sorted = in_order::<Position>(found);
    let kept = shown_positions(rows, scope, Some(interval));
    lemma_answer(rows, scope, Some(interval), a);
    lemma_answer(rows, scope, Some(interval), b);
    let p = choose|p: Position|
        #[trigger] kept.contains(p) && a == shown(p, scope.start, Some(interval));
    let q = choose|q: Position|
        #[trigger] kept.contains(q) && b == shown(q, scope.start, Some(interval));
    let i = choose|i: int| 0 <= i < kept.len() && kept[i] == p;
    let j = choose|j: int| 0 <= j < kept.len() && kept[j] == q;
    lemma_condensed_groups(rows, sorted, scope.start, Some(interval), scope.htlcs_only);
    lemma_in_order_contains::<Position>(found, p);
    lemma_in_order_contains::<Position>(found, q);
    assert(sorted.contains(kept[i]) && sorted.contains(kept[j]));
    let at = choose|at: int| 0 <= at < found.len() && found[at] == p;
    assert(is_position(rows)(found[at]));
    let other = choose|at: int| 0 <= at < found.len() && found[at] == q;
    assert(is_position(rows)(found[other]));
    assert(shares_group(rows[p.at as int], rows[q.at as int], scope.start, Some(interval)));
    assert(shares_group(rows[q.at as int], rows[p.at as int], scope.start, Some(interval)));
}

/// The answer holds what every channel was like ahead of the range: for every state that is earlier than
/// the range, the last such state of its channel is shown.
pub proof fn law_a_range_has_a_baseline(
    rows: Seq<SampleRowView>,
    scope: Scope,
    interval: Option<u64>,
    r: int,
)
    requires
        0 <= r < rows.len() <= usize::MAX,
        ahead_of_range(scope, rows[r]),
    ensures
        exists|c: Chosen| #[trigger]
            answer_of(rows, scope, interval).contains(c) && ahead_of_range(scope, rows[c.at as int])
                && rows[c.at as int].sample.channel_key == rows[r].sample.channel_key && !is_later(
                rows[r],
                rows[c.at as int],
            ),
{
    lemma_positions_ahead(rows, scope);
    let found = positions_ahead(rows, scope);
    let p = lemma_kept_for(rows, found, scope.start, None, false, r);
    let at = choose|at: int| 0 <= at < found.len() && found[at] == p;
    assert(is_position(rows)(found[at]));
    let c = baseline(p);
    lemma_answer(rows, scope, interval, c);
    assert(baseline_positions(rows, scope).contains(p));
}

/// Whether the items have ascending ids.
pub open spec fn is_ascending<T>(items: Seq<T>, id: spec_fn(T) -> int) -> bool {
    forall|i: int, j: int|
        0 <= i < j < items.len() ==> id(#[trigger] items[i]) < id(#[trigger] items[j])
}

pub proof fn lemma_same_ascending<T>(a: Seq<T>, b: Seq<T>, id: spec_fn(T) -> int)
    requires
        is_ascending(a, id),
        is_ascending(b, id),
        forall|x: T| #[trigger] a.contains(x) <==> b.contains(x),
    ensures
        a == b,
    decreases a.len(),
{
    if a.len() == 0 {
        if b.len() > 0 {
            assert(b.contains(b[0]));
            assert(a.contains(b[0]));
        }
        assert(a =~= b);
    } else {
        assert(a.contains(a.last()));
        let j = choose|j: int| 0 <= j < b.len() && b[j] == a.last();
        assert(b.contains(b.last()));
        assert(a.contains(b.last()));
        let i = choose|i: int| 0 <= i < a.len() && a[i] == b.last();
        if j < b.len() - 1 {
            assert(id(b[j]) < id(b[b.len() - 1]));
        }
        if i < a.len() - 1 {
            assert(id(a[i]) < id(a[a.len() - 1]));
        }
        assert(a.last() == b.last());
        let front = a.drop_last();
        let other = b.drop_last();
        assert forall|x: T| #[trigger] front.contains(x) <==> other.contains(x) by {
            lemma_ascending_front(a, id, x);
            lemma_ascending_front(b, id, x);
        }
        assert forall|i: int, j: int| 0 <= i < j < front.len() implies id(#[trigger] front[i]) < id(
            #[trigger] front[j],
        ) by {
            assert(front[i] == a[i] && front[j] == a[j]);
        }
        assert forall|i: int, j: int| 0 <= i < j < other.len() implies id(#[trigger] other[i]) < id(
            #[trigger] other[j],
        ) by {
            assert(other[i] == b[i] && other[j] == b[j]);
        }
        lemma_same_ascending(front, other, id);
        assert(a =~= front.push(a.last()));
        assert(b =~= other.push(b.last()));
    }
}

proof fn lemma_ascending_front<T>(items: Seq<T>, id: spec_fn(T) -> int, x: T)
    requires
        items.len() > 0,
        is_ascending(items, id),
    ensures
        items.drop_last().contains(x) <==> items.contains(x) && x != items.last(),
{
    let front = items.drop_last();
    if front.contains(x) {
        let i = choose|i: int| 0 <= i < front.len() && front[i] == x;
        assert(items[i] == x);
        assert(id(items[i]) < id(items[items.len() - 1]));
    }
    if items.contains(x) && x != items.last() {
        let i = choose|i: int| 0 <= i < items.len() && items[i] == x;
        assert(front[i] == x);
    }
}

/// What is behind an item of ascending ones: those of greater ids.
pub proof fn lemma_ascending_rest<T>(items: Seq<T>, id: spec_fn(T) -> int, n: int, x: T)
    requires
        is_ascending(items, id),
        0 < n <= items.len(),
    ensures
        is_ascending(items.skip(n), id),
        items.skip(n).contains(x) <==> items.contains(x) && id(x) > id(items[n - 1]),
{
    let rest = items.skip(n);
    if rest.contains(x) {
        let i = choose|i: int| 0 <= i < rest.len() && rest[i] == x;
        assert(items[n + i] == x);
    }
    if items.contains(x) && id(x) > id(items[n - 1]) {
        let i = choose|i: int| 0 <= i < items.len() && items[i] == x;
        if i < n - 1 {
            assert(id(items[i]) < id(items[n - 1]));
        }
        assert(rest[i - n] == x);
    }
}

pub proof fn lemma_shown_positions(rows: Seq<SampleRowView>, scope: Scope, interval: Option<u64>)
    requires
        rows.len() <= usize::MAX,
    ensures
        ({
            let kept = shown_positions(rows, scope, interval);
            &&& forall|i: int|
                0 <= i < kept.len() ==> is_position(rows)(#[trigger] kept[i]) && in_range(
                    scope,
                    rows[kept[i].at as int],
                )
            &&& forall|i: int, j: int|
                0 <= i < j < kept.len() ==> (#[trigger] kept[i]).at != (#[trigger] kept[j]).at
        }),
{
    lemma_positions_in(rows, scope);
    let found = positions_in(rows, scope);
    let sorted = in_order::<Position>(found);
    let kept = shown_positions(rows, scope, interval);
    lemma_in_order_stays_distinct::<Position>(found, |p: Position| p.at as int);
    if interval is Some {
        lemma_condensed_groups(rows, sorted, scope.start, interval, scope.htlcs_only);
    }
    assert forall|i: int| 0 <= i < kept.len() implies is_position(rows)(#[trigger] kept[i])
        && in_range(scope, rows[kept[i].at as int]) by {
        assert(sorted.contains(kept[i]));
        lemma_in_order_contains::<Position>(found, kept[i]);
        let at = choose|at: int| 0 <= at < found.len() && found[at] == kept[i];
        assert(is_position(rows)(found[at]));
    }
    assert forall|i: int, j: int| 0 <= i < j < kept.len() implies (#[trigger] kept[i]).at != (
    #[trigger] kept[j]).at by {
        if interval is None {
            let at = |p: Position| p.at as int;
            assert(at(sorted[i]) != at(sorted[j]));
        }
    }
}

pub proof fn lemma_baseline_positions(rows: Seq<SampleRowView>, scope: Scope)
    requires
        rows.len() <= usize::MAX,
    ensures
        ({
            let kept = baseline_positions(rows, scope);
            &&& forall|i: int|
                0 <= i < kept.len() ==> is_position(rows)(#[trigger] kept[i]) && ahead_of_range(
                    scope,
                    rows[kept[i].at as int],
                )
            &&& forall|i: int, j: int|
                0 <= i < j < kept.len() ==> (#[trigger] kept[i]).at != (#[trigger] kept[j]).at
        }),
{
    lemma_positions_ahead(rows, scope);
    let found = positions_ahead(rows, scope);
    let sorted = in_order::<Position>(found);
    let kept = baseline_positions(rows, scope);
    lemma_condensed_groups(rows, sorted, scope.start, None, false);
    assert forall|i: int| 0 <= i < kept.len() implies is_position(rows)(#[trigger] kept[i])
        && ahead_of_range(scope, rows[kept[i].at as int]) by {
        assert(sorted.contains(kept[i]));
        lemma_in_order_contains::<Position>(found, kept[i]);
        let at = choose|at: int| 0 <= at < found.len() && found[at] == kept[i];
        assert(is_position(rows)(found[at]));
    }
}

/// The id of a chosen state.
pub open spec fn chosen_id() -> spec_fn(Chosen) -> int {
    |c: Chosen| c.id as int
}

/// An answer comes in the order of its ids, each of which occurs once.
pub proof fn law_samples_come_in_the_order_of_their_ids(
    rows: Seq<SampleRowView>,
    last: u64,
    scope: Scope,
    interval: Option<u64>,
)
    requires
        samples_sound(rows, last),
        rows.len() <= usize::MAX,
    ensures
        is_ascending(answer_of(rows, scope, interval), chosen_id()),
{
    let inside = shown_positions(rows, scope, interval);
    let ahead = baseline_positions(rows, scope);
    lemma_shown_positions(rows, scope, interval);
    lemma_baseline_positions(rows, scope);
    let front = Seq::new(inside.len(), |i: int| shown(inside[i], scope.start, interval));
    let back = Seq::new(ahead.len(), |i: int| baseline(ahead[i]));
    let all = front + back;
    let id = chosen_id();
    assert forall|i: int, j: int| 0 <= i < j < all.len() implies id(#[trigger] all[i]) != id(
        #[trigger] all[j],
    ) by {
        let p = if i < front.len() {
            inside[i]
        } else {
            ahead[i - front.len()]
        };
        let q = if j < front.len() {
            inside[j]
        } else {
            ahead[j - front.len()]
        };
        assert(all[i].id == p.id && all[j].id == q.id);
        assert(is_position(rows)(p) && is_position(rows)(q));
        assert(p.at != q.at);
        assert(rows[p.at as int].id != rows[q.at as int].id);
    }
    lemma_in_order_stays_distinct::<Chosen>(all, id);
    law_sorting_orders_and_keeps::<Chosen>(all);
    let sorted = in_order::<Chosen>(all);
    assert forall|i: int, j: int| 0 <= i < j < sorted.len() implies id(#[trigger] sorted[i]) < id(
        #[trigger] sorted[j],
    ) by {
        assert(!<Chosen as Ranked>::before(sorted[j], sorted[i]));
    }
}

proof fn lemma_ascending_filter<T>(items: Seq<T>, id: spec_fn(T) -> int, keep: spec_fn(T) -> bool)
    requires
        is_ascending(items, id),
    ensures
        is_ascending(items.filter(keep), id),
        forall|x: T| #[trigger] items.filter(keep).contains(x) <==> items.contains(x) && keep(x),
    decreases items.len(),
{
    reveal(Seq::filter);
    let kept = items.filter(keep);
    if items.len() > 0 {
        let front = items.drop_last();
        assert forall|i: int, j: int| 0 <= i < j < front.len() implies id(#[trigger] front[i]) < id(
            #[trigger] front[j],
        ) by {
            assert(front[i] == items[i] && front[j] == items[j]);
        }
        lemma_ascending_filter(front, id, keep);
        let before = front.filter(keep);
        assert forall|x: T| #[trigger] kept.contains(x) <==> items.contains(x) && keep(x) by {
            lemma_ascending_front(items, id, x);
            if before.contains(x) {
                let i = choose|i: int| 0 <= i < before.len() && before[i] == x;
                assert(kept[i] == x);
            }
            if keep(items.last()) {
                assert(kept[kept.len() - 1] == items.last());
            }
            if kept.contains(x) {
                let i = choose|i: int| 0 <= i < kept.len() && kept[i] == x;
                if i < before.len() {
                    assert(before[i] == x);
                } else {
                    assert(items[items.len() - 1] == x);
                }
            }
            assert(items.contains(items.last())) by {
                assert(items[items.len() - 1] == items.last());
            }
        }
        assert forall|i: int, j: int| 0 <= i < j < kept.len() implies id(#[trigger] kept[i]) < id(
            #[trigger] kept[j],
        ) by {
            assert(kept[i] == before[i]);
            if j < before.len() {
                assert(kept[j] == before[j]);
            } else {
                assert(before.contains(before[i]));
                let k = choose|k: int| 0 <= k < front.len() && front[k] == before[i];
                assert(items[k] == kept[i]);
                assert(kept[j] == items[items.len() - 1]);
            }
        }
    }
}

/// What is chosen behind an id: the states of the answer with greater ids, in order.
pub proof fn lemma_chosen(rows: Seq<SampleRowView>, last: u64, scope: Scope, interval: Option<u64>)
    requires
        samples_sound(rows, last),
        rows.len() <= usize::MAX,
    ensures
        is_ascending(chosen_of(rows, scope, interval), chosen_id()),
        forall|c: Chosen| #[trigger]
            chosen_of(rows, scope, interval).contains(c) <==> answer_of(
                rows,
                scope,
                interval,
            ).contains(c) && c.id > scope.cursor,
{
    law_samples_come_in_the_order_of_their_ids(rows, last, scope, interval);
    lemma_ascending_filter(
        answer_of(rows, scope, interval),
        chosen_id(),
        is_behind_id(scope.cursor),
    );
}

/// Every state of the answer is one that was recorded.
pub proof fn lemma_answer_rows(rows: Seq<SampleRowView>, scope: Scope, interval: Option<u64>, c: Chosen)
    requires
        rows.len() <= usize::MAX,
        answer_of(rows, scope, interval).contains(c),
    ensures
        c.at < rows.len(),
        c.id == rows[c.at as int].id,
{
    lemma_shown_positions(rows, scope, interval);
    lemma_baseline_positions(rows, scope);
    lemma_answer(rows, scope, interval, c);
    let inside = shown_positions(rows, scope, interval);
    let ahead = baseline_positions(rows, scope);
    if exists|p: Position| #[trigger] inside.contains(p) && c == shown(p, scope.start, interval) {
        let p = choose|p: Position|
            #[trigger] inside.contains(p) && c == shown(p, scope.start, interval);
        let k = choose|k: int| 0 <= k < inside.len() && inside[k] == p;
        assert(is_position(rows)(inside[k]));
    } else {
        let p = choose|p: Position| #[trigger] ahead.contains(p) && c == baseline(p);
        let k = choose|k: int| 0 <= k < ahead.len() && ahead[k] == p;
        assert(is_position(rows)(ahead[k]));
    }
}

/// Without a cursor, the whole answer is chosen.
pub proof fn law_pages_begin_with_the_answer(
    rows: Seq<SampleRowView>,
    last: u64,
    scope: Scope,
    interval: Option<u64>,
)
    requires
        samples_sound(rows, last),
        rows.len() <= usize::MAX,
        scope.cursor == 0,
    ensures
        chosen_of(rows, scope, interval) == answer_of(rows, scope, interval),
{
    lemma_chosen(rows, last, scope, interval);
    law_samples_come_in_the_order_of_their_ids(rows, last, scope, interval);
    let answer = answer_of(rows, scope, interval);
    let chosen = chosen_of(rows, scope, interval);
    assert forall|c: Chosen| #[trigger] chosen.contains(c) <==> answer.contains(c) by {
        if answer.contains(c) {
            lemma_answer_rows(rows, scope, interval, c);
        }
    }
    lemma_same_ascending(chosen, answer, chosen_id());
}

/// Behind the last state of a page come those that the next page chooses.
proof fn lemma_samples_behind(
    rows: Seq<SampleRowView>,
    last: u64,
    scope: Scope,
    interval: Option<u64>,
    n: int,
)
    requires
        rows.len() <= usize::MAX,
        samples_sound(rows, last),
        0 < n <= chosen_of(rows, scope, interval).len(),
    ensures
        chosen_of(
            rows,
            Scope { cursor: chosen_of(rows, scope, interval)[n - 1].id, ..scope },
            interval,
        ) == chosen_of(rows, scope, interval).skip(n),
{
    let all = chosen_of(rows, scope, interval);
    let end = all[n - 1];
    let next = Scope { cursor: end.id, ..scope };
    let rest = chosen_of(rows, next, interval);
    let id = chosen_id();
    lemma_chosen(rows, last, scope, interval);
    lemma_chosen(rows, last, next, interval);
    lemma_same_answer(rows, scope, end.id, interval);
    assert(all.contains(end));
    assert forall|x: Chosen| #[trigger] rest.contains(x) <==> all.skip(n).contains(x) by {
        lemma_ascending_rest(all, id, n, x);
    }
    lemma_ascending_rest(all, id, n, end);
    lemma_same_ascending(rest, all.skip(n), id);
}

/// The cursor has no part in the answer.
proof fn lemma_same_answer(
    rows: Seq<SampleRowView>,
    scope: Scope,
    cursor: u64,
    interval: Option<u64>,
)
    ensures
        answer_of(rows, Scope { cursor, ..scope }, interval) == answer_of(rows, scope, interval),
{
    let next = Scope { cursor, ..scope };
    lemma_same_positions(rows, scope, cursor);
    let inside = shown_positions(rows, scope, interval);
    let ahead = baseline_positions(rows, scope);
    assert(shown_positions(rows, next, interval) == inside);
    assert(baseline_positions(rows, next) == ahead);
    assert(Seq::new(inside.len(), |i: int| shown(inside[i], next.start, interval)) =~= Seq::new(
        inside.len(),
        |i: int| shown(inside[i], scope.start, interval),
    ));
}

proof fn lemma_same_positions(rows: Seq<SampleRowView>, scope: Scope, cursor: u64)
    ensures
        positions_in(rows, Scope { cursor, ..scope }) == positions_in(rows, scope),
        positions_ahead(rows, Scope { cursor, ..scope }) == positions_ahead(rows, scope),
    decreases rows.len(),
{
    if rows.len() > 0 {
        lemma_same_positions(rows.drop_last(), scope, cursor);
    }
}

/// A page of states and the page behind it hold together what one page of both sizes would: nothing is
/// left out and nothing is shown twice.
pub proof fn law_sample_pages_join(
    db: DbView,
    query: SampleQueryView,
    now: u64,
    htlcs_only: bool,
    more: u64,
)
    requires
        sound(db),
        db.samples.len() <= usize::MAX,
        0 < query.range.limit,
        query.range.limit + more <= u64::MAX,
        sample_page(db, query, now, htlcs_only).has_more,
    ensures
        ({
            let page = sample_page(db, query, now, htlcs_only);
            let next = sample_page(
                db,
                SampleQueryView {
                    range: RangeView { cursor: page.next_cursor, limit: more, ..query.range },
                    ..query
                },
                now,
                htlcs_only,
            );
            let both = sample_page(
                db,
                SampleQueryView {
                    range: RangeView {
                        limit: (query.range.limit + more) as u64,
                        ..query.range
                    },
                    ..query
                },
                now,
                htlcs_only,
            );
            &&& page.items + next.items == both.items
            &&& next.has_more == both.has_more
            &&& more > 0 ==> next.next_cursor == both.next_cursor
        }),
{
    let scope = scope_of(db, query.range, now, htlcs_only);
    let all = chosen_of(db.samples, scope, query.interval);
    let n = query.range.limit as int;
    let page = sample_page(db, query, now, htlcs_only);
    lemma_samples_behind(db.samples, db.last_sample_id, scope, query.interval, n);
    let rest_range = RangeView { cursor: page.next_cursor, limit: more, ..query.range };
    let next_scope = scope_of(db, rest_range, now, htlcs_only);
    assert(next_scope == (Scope { cursor: all[n - 1].id, ..scope }));
    let next = sample_page(
        db,
        SampleQueryView { range: rest_range, ..query },
        now,
        htlcs_only,
    );
    let both_range = RangeView { limit: (query.range.limit + more) as u64, ..query.range };
    assert(scope_of(db, both_range, now, htlcs_only) == scope);
    let both = sample_page(
        db,
        SampleQueryView { range: both_range, ..query },
        now,
        htlcs_only,
    );
    assert(page.items + next.items =~= both.items);
}

/// A page of states that begins behind another shows none of its states, whatever was recorded or
/// asked for in between.
pub proof fn law_sample_pages_do_not_overlap(
    db: DbView,
    query: SampleQueryView,
    now: u64,
    htlcs_only: bool,
    later: DbView,
    next_query: SampleQueryView,
    next_now: u64,
    i: int,
    j: int,
)
    requires
        sound(db),
        sound(later),
        db.samples.len() <= usize::MAX,
        later.samples.len() <= usize::MAX,
        sample_page(db, query, now, htlcs_only).next_cursor is Some,
        next_query.range.cursor == sample_page(db, query, now, htlcs_only).next_cursor,
        0 <= i < sample_page(db, query, now, htlcs_only).items.len(),
        0 <= j < sample_page(later, next_query, next_now, htlcs_only).items.len(),
    ensures
        sample_page(db, query, now, htlcs_only).items[i].id < sample_page(
            later,
            next_query,
            next_now,
            htlcs_only,
        ).items[j].id,
{
    let scope = scope_of(db, query.range, now, htlcs_only);
    let all = chosen_of(db.samples, scope, query.interval);
    lemma_chosen(db.samples, db.last_sample_id, scope, query.interval);
    let next_scope = scope_of(later, next_query.range, next_now, htlcs_only);
    let rest = chosen_of(later.samples, next_scope, next_query.interval);
    lemma_chosen(later.samples, later.last_sample_id, next_scope, next_query.interval);
    let n = query.range.limit as int;
    let id = chosen_id();
    if i < n - 1 {
        assert(id(all[i]) < id(all[n - 1]));
    }
    assert(all.contains(all[i]) && all.contains(all[n - 1]) && rest.contains(rest[j]));
    lemma_answer_rows(db.samples, scope, query.interval, all[i]);
    lemma_answer_rows(db.samples, scope, query.interval, all[n - 1]);
    lemma_answer_rows(later.samples, next_scope, next_query.interval, rest[j]);
}

} // verus!
