//! That nothing is lost where forwards and probes are counted together.

use crate::activity::{merged, same_bucket, with_forward_row};
use crate::integrity::buckets_sound;
use crate::lookups::{
    group_fits, group_place, grouped, groups_fit, in_period, pair_before, pair_parts, with_group,
};
use crate::ordered::{
    lemma_parts_before_irreflexive, lemma_parts_before_total, lemma_parts_before_transitive,
    parts_before,
};
use crate::probes::{
    aggregate_before, aggregate_place, aggregated, no_probes, probe_item, probe_period,
    with_observation, AggregateView,
};
use crate::store::{BucketRow, DbView, ProbeRow};
use crate::text::{
    lemma_text_before_irreflexive, lemma_text_before_total, lemma_text_before_transitive, text_before,
};
use vstd::prelude::*;

verus! {

/// The sum of an amount over the rows.
pub open spec fn sum_of<T>(rows: Seq<T>, amount: spec_fn(T) -> int) -> int
    decreases rows.len(),
{
    if rows.len() == 0 {
        0
    } else {
        sum_of(rows.drop_last(), amount) + amount(rows.last())
    }
}

/// How many forwards a row counts.
pub open spec fn forwards() -> spec_fn(BucketRow<Seq<char>>) -> int {
    |row: BucketRow<Seq<char>>| row.forward_count as int
}

/// What came in with the forwards of a row.
pub open spec fn incoming() -> spec_fn(BucketRow<Seq<char>>) -> int {
    |row: BucketRow<Seq<char>>| row.in_msat as int
}

/// What went out with the forwards of a row.
pub open spec fn outgoing() -> spec_fn(BucketRow<Seq<char>>) -> int {
    |row: BucketRow<Seq<char>>| row.out_msat as int
}

/// What the forwards of a row earned.
pub open spec fn fees() -> spec_fn(BucketRow<Seq<char>>) -> int {
    |row: BucketRow<Seq<char>>| row.fee_msat as int
}

/// Which rows are of the range.
pub open spec fn of_range(start: u64, end: u64) -> spec_fn(BucketRow<Seq<char>>) -> bool {
    |row: BucketRow<Seq<char>>| start <= row.bucket_start <= end
}

pub proof fn lemma_sum_of_update<T>(rows: Seq<T>, amount: spec_fn(T) -> int, p: int, x: T)
    requires
        0 <= p < rows.len(),
    ensures
        sum_of(rows.update(p, x), amount) == sum_of(rows, amount) - amount(rows[p]) + amount(x),
    decreases rows.len(),
{
    let after = rows.update(p, x);
    if p == rows.len() - 1 {
        assert(after.drop_last() =~= rows.drop_last());
    } else {
        assert(after.drop_last() =~= rows.drop_last().update(p, x));
        lemma_sum_of_update(rows.drop_last(), amount, p, x);
    }
}

pub proof fn lemma_sum_of_insert<T>(rows: Seq<T>, amount: spec_fn(T) -> int, p: int, x: T)
    requires
        0 <= p <= rows.len(),
    ensures
        sum_of(rows.insert(p, x), amount) == sum_of(rows, amount) + amount(x),
    decreases rows.len(),
{
    let after = rows.insert(p, x);
    if p == rows.len() {
        assert(after.drop_last() =~= rows);
    } else {
        assert(after.drop_last() =~= rows.drop_last().insert(p, x));
        assert(after.last() == rows.last());
        lemma_sum_of_insert(rows.drop_last(), amount, p, x);
    }
}

pub proof fn lemma_sum_bounds<T>(rows: Seq<T>, amount: spec_fn(T) -> int, p: int)
    requires
        0 <= p < rows.len(),
        forall|x: T| #[trigger] amount(x) >= 0,
    ensures
        amount(rows[p]) <= sum_of(rows, amount),
    decreases rows.len(),
{
    lemma_sum_is_positive(rows.drop_last(), amount);
    if p < rows.len() - 1 {
        lemma_sum_bounds(rows.drop_last(), amount, p);
    }
}

pub proof fn lemma_sum_is_positive<T>(rows: Seq<T>, amount: spec_fn(T) -> int)
    requires
        forall|x: T| #[trigger] amount(x) >= 0,
    ensures
        sum_of(rows, amount) >= 0,
    decreases rows.len(),
{
    if rows.len() > 0 {
        lemma_sum_is_positive(rows.drop_last(), amount);
    }
}

pub proof fn lemma_group_place(groups: Seq<BucketRow<Seq<char>>>, row: BucketRow<Seq<char>>)
    ensures
        ({
            let p = group_place(groups, row);
            &&& 0 <= p <= groups.len()
            &&& p > 0 ==> pair_before(groups[p - 1], row)
            &&& forall|i: int| p <= i < groups.len() ==> !pair_before(#[trigger] groups[i], row)
        }),
    decreases groups.len(),
{
    if groups.len() > 0 && !pair_before(groups.last(), row) {
        lemma_group_place(groups.drop_last(), row);
        assert forall|i: int| group_place(groups, row) <= i < groups.len() implies !pair_before(
            #[trigger] groups[i],
            row,
        ) by {
            if i < groups.len() - 1 {
                assert(groups.drop_last()[i] == groups[i]);
            }
        }
    }
}

/// Whether the amount of merged rows is the sum of theirs, and does not go by the span of time.
spec fn adds_up(amount: spec_fn(BucketRow<Seq<char>>) -> int) -> bool {
    &&& forall|a: BucketRow<Seq<char>>, b: BucketRow<Seq<char>>|
        same_bucket(a, b) && group_fits(#[trigger] merged(a, b)) ==> amount(merged(a, b)) == amount(
            a,
        ) + amount(b)
    &&& forall|row: BucketRow<Seq<char>>, interval: u64|
        amount(#[trigger] in_period(row, interval)) == amount(row)
}

proof fn lemma_group_adds_up(
    groups: Seq<BucketRow<Seq<char>>>,
    row: BucketRow<Seq<char>>,
    amount: spec_fn(BucketRow<Seq<char>>) -> int,
)
    requires
        adds_up(amount),
        groups_fit(with_group(groups, row)),
    ensures
        groups_fit(groups),
        sum_of(with_group(groups, row), amount) == sum_of(groups, amount) + amount(row),
{
    let p = group_place(groups, row);
    let after = with_group(groups, row);
    lemma_group_place(groups, row);
    if p < groups.len() && same_bucket(groups[p], row) {
        assert(after[p] == merged(groups[p], row));
        assert forall|i: int| 0 <= i < groups.len() implies group_fits(#[trigger] groups[i]) by {
            if i != p {
                assert(after[i] == groups[i]);
            }
        }
        lemma_sum_of_update(groups, amount, p, merged(groups[p], row));
    } else {
        assert forall|i: int| 0 <= i < groups.len() implies group_fits(#[trigger] groups[i]) by {
            if i < p {
                assert(after[i] == groups[i]);
            } else {
                assert(after[i + 1] == groups[i]);
            }
        }
        lemma_sum_of_insert(groups, amount, p, row);
    }
}

proof fn lemma_groups_add_up(
    buckets: Seq<BucketRow<Seq<char>>>,
    start: u64,
    end: u64,
    interval: u64,
    amount: spec_fn(BucketRow<Seq<char>>) -> int,
)
    requires
        adds_up(amount),
        groups_fit(grouped(buckets, start, end, interval)),
    ensures
        sum_of(grouped(buckets, start, end, interval), amount) == sum_of(
            buckets.filter(of_range(start, end)),
            amount,
        ),
    decreases buckets.len(),
{
    reveal(Seq::filter);
    if buckets.len() > 0 {
        let front = buckets.drop_last();
        let before = grouped(front, start, end, interval);
        let row = buckets.last();
        let kept = front.filter(of_range(start, end));
        if of_range(start, end)(row) {
            lemma_group_adds_up(before, in_period(row, interval), amount);
            assert(kept.push(row).drop_last() =~= kept);
        }
        lemma_groups_add_up(front, start, end, interval, amount);
    }
}

/// The forwarding pairs of a range count every forward of the range once: how many there were, what
/// came in, what went out, and what they earned.
pub proof fn law_pairs_lose_no_forward(
    buckets: Seq<BucketRow<Seq<char>>>,
    start: u64,
    end: u64,
    interval: u64,
)
    requires
        groups_fit(grouped(buckets, start, end, interval)),
    ensures
        ({
            let groups = grouped(buckets, start, end, interval);
            let counted = buckets.filter(of_range(start, end));
            &&& sum_of(groups, forwards()) == sum_of(counted, forwards())
            &&& sum_of(groups, incoming()) == sum_of(counted, incoming())
            &&& sum_of(groups, outgoing()) == sum_of(counted, outgoing())
            &&& sum_of(groups, fees()) == sum_of(counted, fees())
        }),
{
    lemma_groups_add_up(buckets, start, end, interval, forwards());
    lemma_groups_add_up(buckets, start, end, interval, incoming());
    lemma_groups_add_up(buckets, start, end, interval, outgoing());
    lemma_groups_add_up(buckets, start, end, interval, fees());
}

proof fn lemma_pair_before_transitive(
    a: BucketRow<Seq<char>>,
    b: BucketRow<Seq<char>>,
    c: BucketRow<Seq<char>>,
)
    requires
        pair_before(a, b),
        pair_before(b, c),
    ensures
        pair_before(a, c),
{
    if parts_before(pair_parts(a), pair_parts(b)) && parts_before(pair_parts(b), pair_parts(c)) {
        lemma_parts_before_transitive(pair_parts(a), pair_parts(b), pair_parts(c));
    }
    if text_before(a.failreason, b.failreason) && text_before(b.failreason, c.failreason) {
        lemma_text_before_transitive(a.failreason, b.failreason, c.failreason);
    }
}

pub proof fn lemma_pair_before_total(a: BucketRow<Seq<char>>, b: BucketRow<Seq<char>>)
    ensures
        pair_before(a, b) || pair_before(b, a) || same_bucket(a, b),
        !(pair_before(a, b) && same_bucket(a, b)),
{
    lemma_parts_before_total(pair_parts(a), pair_parts(b));
    lemma_text_before_total(a.failreason, b.failreason);
    lemma_text_before_irreflexive(a.failreason);
    lemma_parts_before_irreflexive(pair_parts(a));
    if pair_parts(a) == pair_parts(b) {
        assert(pair_parts(a)[0] == pair_parts(b)[0]);
        assert(pair_parts(a)[1] == pair_parts(b)[1]);
        assert(pair_parts(a)[2] == pair_parts(b)[2]);
    }
    if same_bucket(a, b) {
        assert(pair_parts(a) =~= pair_parts(b));
    }
}

/// Whether the pairs are in order and each of them is listed once.
pub open spec fn pairs_in_order(groups: Seq<BucketRow<Seq<char>>>) -> bool {
    forall|i: int, j: int|
        0 <= i < j < groups.len() ==> pair_before(#[trigger] groups[i], #[trigger] groups[j])
}

/// The forwarding pairs of a range are in order, by span of time, channels and result, and each of
/// them is listed once.
pub proof fn law_pairs_are_listed_once_in_order(
    buckets: Seq<BucketRow<Seq<char>>>,
    start: u64,
    end: u64,
    interval: u64,
)
    ensures
        pairs_in_order(grouped(buckets, start, end, interval)),
    decreases buckets.len(),
{
    if buckets.len() > 0 {
        law_pairs_are_listed_once_in_order(buckets.drop_last(), start, end, interval);
        let before = grouped(buckets.drop_last(), start, end, interval);
        lemma_group_keeps_the_order(before, in_period(buckets.last(), interval));
    }
}

proof fn lemma_group_keeps_the_order(
    groups: Seq<BucketRow<Seq<char>>>,
    row: BucketRow<Seq<char>>,
)
    requires
        pairs_in_order(groups),
    ensures
        pairs_in_order(with_group(groups, row)),
{
    let p = group_place(groups, row);
    let after = with_group(groups, row);
    lemma_group_place(groups, row);
    if p < groups.len() && same_bucket(groups[p], row) {
        assert forall|i: int, j: int| 0 <= i < j < after.len() implies pair_before(
            #[trigger] after[i],
            #[trigger] after[j],
        ) by {
            assert(pair_before(groups[i], groups[j]));
            assert(pair_parts(after[p]) =~= pair_parts(groups[p]));
        }
    } else {
        assert forall|i: int| 0 <= i < groups.len() implies if i < p {
            pair_before(#[trigger] groups[i], row)
        } else {
            pair_before(row, groups[i])
        } by {
            if i < p - 1 {
                assert(pair_before(groups[i], groups[p - 1]));
                lemma_pair_before_transitive(groups[i], groups[p - 1], row);
            } else if i >= p {
                lemma_pair_before_total(groups[p], row);
                if i > p {
                    assert(pair_before(groups[p], groups[i]));
                    lemma_pair_before_transitive(row, groups[p], groups[i]);
                }
            }
        }
        assert forall|i: int, j: int| 0 <= i < j < after.len() implies pair_before(
            #[trigger] after[i],
            #[trigger] after[j],
        ) by {
            let old_i = if i < p {
                i
            } else {
                i - 1
            };
            let old_j = if j < p {
                j
            } else {
                j - 1
            };
            if i == p {
                assert(after[j] == groups[j - 1]);
            } else if j == p {
                assert(after[i] == groups[i]);
            } else {
                assert(after[i] == groups[old_i] && after[j] == groups[old_j]);
            }
        }
    }
}

/// Counting a forward adds it to what was counted, and changes nothing else of it.
pub proof fn law_a_forward_is_counted_once(
    buckets: Seq<BucketRow<Seq<char>>>,
    row: BucketRow<Seq<char>>,
)
    requires
        buckets_sound(buckets),
        sum_of(buckets, forwards()) + row.forward_count <= u128::MAX,
        sum_of(buckets, incoming()) + row.in_msat <= u128::MAX,
        sum_of(buckets, outgoing()) + row.out_msat <= u128::MAX,
        sum_of(buckets, fees()) + row.fee_msat <= u128::MAX,
    ensures
        ({
            let after = with_forward_row(buckets, row);
            &&& sum_of(after, forwards()) == sum_of(buckets, forwards()) + row.forward_count
            &&& sum_of(after, incoming()) == sum_of(buckets, incoming()) + row.in_msat
            &&& sum_of(after, outgoing()) == sum_of(buckets, outgoing()) + row.out_msat
            &&& sum_of(after, fees()) == sum_of(buckets, fees()) + row.fee_msat
        }),
{
    let after = with_forward_row(buckets, row);
    if exists|i: int| 0 <= i < buckets.len() && same_bucket(#[trigger] buckets[i], row) {
        let p = choose|i: int| 0 <= i < buckets.len() && same_bucket(#[trigger] buckets[i], row);
        let sum = merged(buckets[p], row);
        assert forall|i: int| 0 <= i < buckets.len() && i != p implies #[trigger] after[i]
            == buckets[i] by {
            if i < p {
                assert(!same_bucket(buckets[i], buckets[p]));
            } else {
                assert(!same_bucket(buckets[p], buckets[i]));
            }
        }
        assert(after =~= buckets.update(p, sum));
        lemma_sum_bounds(buckets, forwards(), p);
        lemma_sum_bounds(buckets, incoming(), p);
        lemma_sum_bounds(buckets, outgoing(), p);
        lemma_sum_bounds(buckets, fees(), p);
        lemma_sum_of_update(buckets, forwards(), p, sum);
        lemma_sum_of_update(buckets, incoming(), p, sum);
        lemma_sum_of_update(buckets, outgoing(), p, sum);
        lemma_sum_of_update(buckets, fees(), p, sum);
    } else {
        assert(after.drop_last() =~= buckets);
    }
}

/// How many probes a row counts.
pub open spec fn attempts() -> spec_fn(AggregateView) -> int {
    |group: AggregateView| group.attempts as int
}

/// Whether every probe of a row ended in one of three ways.
pub open spec fn ends_add_up(group: AggregateView) -> bool {
    group.attempts == group.destination_reached + group.route_failed + group.unexpected_settlement
}

pub proof fn lemma_aggregate_place(groups: Seq<AggregateView>, period: u64, route_key: Seq<char>)
    ensures
        0 <= aggregate_place(groups, period, route_key) <= groups.len(),
    decreases groups.len(),
{
    if groups.len() > 0 {
        lemma_aggregate_place(groups.drop_last(), period, route_key);
    }
}

/// The probes of a range that are shown by span of time are all counted, each once, and for each it is
/// counted how it ended.
pub proof fn law_aggregates_lose_no_probe(
    db: DbView,
    probes: Seq<ProbeRow<Seq<char>>>,
    interval: u64,
)
    requires
        probes.len() <= u64::MAX,
    ensures
        sum_of(aggregated(db, probes, interval), attempts()) == probes.len(),
        forall|i: int|
            0 <= i < aggregated(db, probes, interval).len() ==> ends_add_up(
                #[trigger] aggregated(db, probes, interval)[i],
            ),
    decreases probes.len(),
{
    if probes.len() > 0 {
        let front = probes.drop_last();
        law_aggregates_lose_no_probe(db, front, interval);
        let before = aggregated(db, front, interval);
        let probe = probes.last();
        let item = probe_item(db, probe);
        let period = probe_period(probe.ts, interval);
        let p = aggregate_place(before, period, item.route_key);
        lemma_aggregate_place(before, period, item.route_key);
        let after = aggregated(db, probes, interval);
        if p < before.len() && before[p].period == period && before[p].route_key
            == item.route_key {
            let group = with_observation(before[p], probe);
            assert(ends_add_up(before[p]));
            lemma_sum_bounds(before, attempts(), p);
            lemma_sum_of_update(before, attempts(), p, group);
            assert(after == before.update(p, group));
            assert(ends_add_up(group));
        } else {
            let group = with_observation(
                no_probes(period, item.route_key, item.route, probe.ts),
                probe,
            );
            lemma_sum_of_insert(before, attempts(), p, group);
            assert(after == before.insert(p, group));
            assert(ends_add_up(group));
            assert forall|i: int| 0 <= i < after.len() implies ends_add_up(#[trigger] after[i]) by {
                if i < p {
                    assert(after[i] == before[i]);
                } else if i > p {
                    assert(after[i] == before[i - 1]);
                }
            }
        }
    }
}

/// Whether one row comes before another: by span of time, then by route.
pub open spec fn is_listed_before(a: AggregateView, b: AggregateView) -> bool {
    aggregate_before(a, b.period, b.route_key)
}

/// Whether the rows are listed in order, each span of time and route once.
pub open spec fn aggregates_ascend(groups: Seq<AggregateView>) -> bool {
    forall|i: int, j: int|
        0 <= i < j < groups.len() ==> is_listed_before(#[trigger] groups[i], #[trigger] groups[j])
}

/// In ordered rows, those ahead of a place come before it, and those behind it do not.
pub proof fn lemma_aggregate_order(groups: Seq<AggregateView>, period: u64, route_key: Seq<char>)
    requires
        aggregates_ascend(groups),
    ensures
        ({
            let p = aggregate_place(groups, period, route_key);
            &&& 0 <= p <= groups.len()
            &&& forall|i: int|
                0 <= i < p ==> aggregate_before(#[trigger] groups[i], period, route_key)
            &&& forall|i: int|
                p <= i < groups.len() ==> !aggregate_before(#[trigger] groups[i], period, route_key)
        }),
    decreases groups.len(),
{
    if groups.len() > 0 {
        let front = groups.drop_last();
        assert forall|i: int, j: int| 0 <= i < j < front.len() implies is_listed_before(
            #[trigger] front[i],
            #[trigger] front[j],
        ) by {
            assert(front[i] == groups[i] && front[j] == groups[j]);
        }
        if aggregate_before(groups.last(), period, route_key) {
            assert forall|i: int| 0 <= i < groups.len() implies aggregate_before(
                #[trigger] groups[i],
                period,
                route_key,
            ) by {
                if i < groups.len() - 1 {
                    assert(is_listed_before(groups[i], groups[groups.len() - 1]));
                    if text_before(groups[i].route_key, groups.last().route_key) && text_before(
                        groups.last().route_key,
                        route_key,
                    ) {
                        lemma_text_before_transitive(
                            groups[i].route_key,
                            groups.last().route_key,
                            route_key,
                        );
                    }
                }
            }
        } else {
            lemma_aggregate_order(front, period, route_key);
            let p = aggregate_place(groups, period, route_key);
            assert forall|i: int| 0 <= i < p implies aggregate_before(
                #[trigger] groups[i],
                period,
                route_key,
            ) by {
                assert(front[i] == groups[i]);
            }
            assert forall|i: int| p <= i < groups.len() implies !aggregate_before(
                #[trigger] groups[i],
                period,
                route_key,
            ) by {
                if i < front.len() {
                    assert(front[i] == groups[i]);
                }
            }
        }
    }
}

/// The rows of probes are listed by span of time and route, each of which occurs once.
pub proof fn law_aggregates_are_listed_once_in_order(
    db: DbView,
    probes: Seq<ProbeRow<Seq<char>>>,
    interval: u64,
)
    ensures
        aggregates_ascend(aggregated(db, probes, interval)),
    decreases probes.len(),
{
    if probes.len() > 0 {
        let front = probes.drop_last();
        law_aggregates_are_listed_once_in_order(db, front, interval);
        let before = aggregated(db, front, interval);
        let probe = probes.last();
        let key = probe_item(db, probe).route_key;
        let period = probe_period(probe.ts, interval);
        let p = aggregate_place(before, period, key);
        lemma_aggregate_order(before, period, key);
        let after = aggregated(db, probes, interval);
        if p < before.len() && before[p].period == period && before[p].route_key == key {
            assert forall|i: int, j: int| 0 <= i < j < after.len() implies is_listed_before(
                #[trigger] after[i],
                #[trigger] after[j],
            ) by {
                assert(is_listed_before(before[i], before[j]));
            }
        } else {
            assert forall|i: int, j: int| 0 <= i < j < after.len() implies is_listed_before(
                #[trigger] after[i],
                #[trigger] after[j],
            ) by {
                lemma_inserted_before(before, period, key, p, i, j);
                if i < p {
                    assert(after[i] == before[i]);
                } else if i > p {
                    assert(after[i] == before[i - 1]);
                }
                if j < p {
                    assert(after[j] == before[j]);
                } else if j > p {
                    assert(after[j] == before[j - 1]);
                }
            }
        }
    }
}

/// A row that is put in its place keeps the order.
proof fn lemma_inserted_before(
    before: Seq<AggregateView>,
    period: u64,
    key: Seq<char>,
    p: int,
    i: int,
    j: int,
)
    requires
        aggregates_ascend(before),
        p == aggregate_place(before, period, key),
        0 <= p <= before.len(),
        !(p < before.len() && before[p].period == period && before[p].route_key == key),
        forall|k: int| 0 <= k < p ==> aggregate_before(#[trigger] before[k], period, key),
        forall|k: int|
            p <= k < before.len() ==> !aggregate_before(#[trigger] before[k], period, key),
        0 <= i < j <= before.len(),
    ensures
        j < p ==> is_listed_before(before[i], before[j]),
        j == p ==> aggregate_before(before[i], period, key),
        i < p < j ==> is_listed_before(before[i], before[j - 1]),
        i == p ==> period < before[j - 1].period || (period == before[j - 1].period && text_before(
            key,
            before[j - 1].route_key,
        )),
        i > p ==> is_listed_before(before[i - 1], before[j - 1]),
{
    if j < p {
        assert(is_listed_before(before[i], before[j]));
    }
    if i > p {
        assert(is_listed_before(before[i - 1], before[j - 1]));
    }
    if i < p && p < j {
        assert(is_listed_before(before[i], before[j - 1]));
    }
    if i == p {
        let row = before[j - 1];
        assert(!aggregate_before(row, period, key));
        lemma_text_before_total(key, row.route_key);
        if j - 1 > p {
            assert(!aggregate_before(before[p], period, key));
            assert(is_listed_before(before[p], row));
            lemma_text_before_total(key, before[p].route_key);
            if row.period == period && row.route_key == key {
                assert(aggregate_before(before[p], period, key));
            }
        }
    }
}

/// Whether a row is that of a probe, and shows no less than it.
pub open spec fn shows(
    db: DbView,
    group: AggregateView,
    probe: ProbeRow<Seq<char>>,
    interval: u64,
) -> bool {
    &&& group.period == probe_period(probe.ts, interval)
    &&& group.route_key == probe_item(db, probe).route_key
    &&& group.last_observed_at >= probe.ts
    &&& probe.status == "destination_reached"@ ==> {
        &&& group.max_success_msat matches Some(most) && most >= probe.delivered_msat
        &&& group.last_success_at matches Some(last) && last >= probe.ts
    }
    &&& probe.status != "destination_reached"@ && probe.status != "unexpected_settlement"@ ==> {
        &&& group.smallest_failed_msat matches Some(least) && least <= probe.delivered_msat
    }
}

/// Every probe is shown by a row of its span of time and route: by the greatest amount that reached its
/// destination, the smallest one that failed, and the last times.
pub proof fn law_aggregates_show_the_extremes(
    db: DbView,
    probes: Seq<ProbeRow<Seq<char>>>,
    interval: u64,
    k: int,
)
    requires
        0 <= k < probes.len(),
    ensures
        exists|i: int|
            0 <= i < aggregated(db, probes, interval).len() && shows(
                db,
                #[trigger] aggregated(db, probes, interval)[i],
                probes[k],
                interval,
            ),
    decreases probes.len(),
{
    let front = probes.drop_last();
    let before = aggregated(db, front, interval);
    let last = probes.last();
    let key = probe_item(db, last).route_key;
    let period = probe_period(last.ts, interval);
    let p = aggregate_place(before, period, key);
    lemma_aggregate_place(before, period, key);
    let after = aggregated(db, probes, interval);
    let known = p < before.len() && before[p].period == period && before[p].route_key == key;
    if k == probes.len() - 1 {
        assert(shows(db, after[p], last, interval));
    } else {
        law_aggregates_show_the_extremes(db, front, interval, k);
        assert(front[k] == probes[k]);
        let i = choose|i: int|
            0 <= i < before.len() && shows(db, #[trigger] before[i], probes[k], interval);
        if known || i < p {
            assert(shows(db, after[i], probes[k], interval));
        } else {
            assert(after[i + 1] == before[i]);
            assert(shows(db, after[i + 1], probes[k], interval));
        }
    }
}

/// Whether a probe belongs to a row: it has its span of time and its route.
pub open spec fn belongs(
    db: DbView,
    group: AggregateView,
    probe: ProbeRow<Seq<char>>,
    interval: u64,
) -> bool {
    group.period == probe_period(probe.ts, interval) && group.route_key == probe_item(
        db,
        probe,
    ).route_key
}

/// Whether one of the probes belongs to the row and is as asked for.
pub open spec fn has_probe_like(
    db: DbView,
    group: AggregateView,
    probes: Seq<ProbeRow<Seq<char>>>,
    interval: u64,
    wanted: spec_fn(ProbeRow<Seq<char>>) -> bool,
) -> bool {
    exists|k: int|
        0 <= k < probes.len() && belongs(db, group, #[trigger] probes[k], interval) && wanted(
            probes[k],
        )
}

/// Which probes delivered an amount and reached their destination.
pub open spec fn reached_with(amount: u64) -> spec_fn(ProbeRow<Seq<char>>) -> bool {
    |probe: ProbeRow<Seq<char>>|
        probe.status == "destination_reached"@ && probe.delivered_msat == amount
}

/// Which probes reached their destination at a time.
pub open spec fn reached_at(ts: u64) -> spec_fn(ProbeRow<Seq<char>>) -> bool {
    |probe: ProbeRow<Seq<char>>| probe.status == "destination_reached"@ && probe.ts == ts
}

/// Which probes failed with an amount.
pub open spec fn failed_with(amount: u64) -> spec_fn(ProbeRow<Seq<char>>) -> bool {
    |probe: ProbeRow<Seq<char>>|
        probe.status != "destination_reached"@ && probe.status != "unexpected_settlement"@
            && probe.delivered_msat == amount
}

/// Which probes were observed at a time.
pub open spec fn seen_at(ts: u64) -> spec_fn(ProbeRow<Seq<char>>) -> bool {
    |probe: ProbeRow<Seq<char>>| probe.ts == ts
}

/// Whether what a row shows is what some of its probes show.
pub open spec fn is_shown_of(
    db: DbView,
    group: AggregateView,
    probes: Seq<ProbeRow<Seq<char>>>,
    interval: u64,
) -> bool {
    &&& has_probe_like(db, group, probes, interval, seen_at(group.last_observed_at))
    &&& group.max_success_msat matches Some(amount) ==> has_probe_like(
        db,
        group,
        probes,
        interval,
        reached_with(amount),
    )
    &&& group.last_success_at matches Some(ts) ==> has_probe_like(
        db,
        group,
        probes,
        interval,
        reached_at(ts),
    )
    &&& group.smallest_failed_msat matches Some(amount) ==> has_probe_like(
        db,
        group,
        probes,
        interval,
        failed_with(amount),
    )
}

proof fn lemma_has_probe_like(
    db: DbView,
    group: AggregateView,
    same: AggregateView,
    probes: Seq<ProbeRow<Seq<char>>>,
    interval: u64,
    wanted: spec_fn(ProbeRow<Seq<char>>) -> bool,
)
    requires
        probes.len() > 0,
        has_probe_like(db, group, probes.drop_last(), interval, wanted),
        same.period == group.period,
        same.route_key == group.route_key,
    ensures
        has_probe_like(db, same, probes, interval, wanted),
{
    let front = probes.drop_last();
    let k = choose|k: int|
        0 <= k < front.len() && belongs(db, group, #[trigger] front[k], interval) && wanted(
            front[k],
        );
    assert(probes[k] == front[k]);
}

proof fn lemma_still_shown_of(
    db: DbView,
    group: AggregateView,
    probes: Seq<ProbeRow<Seq<char>>>,
    interval: u64,
)
    requires
        probes.len() > 0,
        is_shown_of(db, group, probes.drop_last(), interval),
    ensures
        is_shown_of(db, group, probes, interval),
{
    lemma_has_probe_like(db, group, group, probes, interval, seen_at(group.last_observed_at));
    if let Some(amount) = group.max_success_msat {
        lemma_has_probe_like(db, group, group, probes, interval, reached_with(amount));
    }
    if let Some(ts) = group.last_success_at {
        lemma_has_probe_like(db, group, group, probes, interval, reached_at(ts));
    }
    if let Some(amount) = group.smallest_failed_msat {
        lemma_has_probe_like(db, group, group, probes, interval, failed_with(amount));
    }
}

/// A row with one more probe shows what its probes show.
proof fn lemma_observation_shown_of(
    db: DbView,
    group: AggregateView,
    probes: Seq<ProbeRow<Seq<char>>>,
    interval: u64,
)
    requires
        probes.len() > 0,
        belongs(db, group, probes.last(), interval),
        is_shown_of(db, group, probes.drop_last(), interval) || (group.last_observed_at
            == probes.last().ts && group.max_success_msat is None && group.last_success_at is None
            && group.smallest_failed_msat is None),
    ensures
        is_shown_of(db, with_observation(group, probes.last()), probes, interval),
{
    let m = probes.len() - 1;
    let probe = probes.last();
    let after = with_observation(group, probe);
    assert(probes[m] == probe);
    assert(belongs(db, after, probes[m], interval));
    if after.last_observed_at != probe.ts {
        lemma_has_probe_like(db, group, after, probes, interval, seen_at(after.last_observed_at));
    } else {
        assert(seen_at(after.last_observed_at)(probes[m]));
    }
    if let Some(amount) = after.max_success_msat {
        if reached_with(amount)(probe) {
            assert(reached_with(amount)(probes[m]));
        } else {
            lemma_has_probe_like(db, group, after, probes, interval, reached_with(amount));
        }
    }
    if let Some(ts) = after.last_success_at {
        if reached_at(ts)(probe) {
            assert(reached_at(ts)(probes[m]));
        } else {
            lemma_has_probe_like(db, group, after, probes, interval, reached_at(ts));
        }
    }
    if let Some(amount) = after.smallest_failed_msat {
        if failed_with(amount)(probe) {
            assert(failed_with(amount)(probes[m]));
        } else {
            lemma_has_probe_like(db, group, after, probes, interval, failed_with(amount));
        }
    }
}

/// What a row shows is what some of its probes show: its greatest and smallest amounts and its last times
/// are those of probes of its span of time and route.
pub proof fn law_aggregates_show_nothing_else(
    db: DbView,
    probes: Seq<ProbeRow<Seq<char>>>,
    interval: u64,
    i: int,
)
    requires
        0 <= i < aggregated(db, probes, interval).len(),
    ensures
        is_shown_of(db, aggregated(db, probes, interval)[i], probes, interval),
    decreases probes.len(),
{
    let front = probes.drop_last();
    let before = aggregated(db, front, interval);
    let last = probes.last();
    let item = probe_item(db, last);
    let period = probe_period(last.ts, interval);
    let p = aggregate_place(before, period, item.route_key);
    lemma_aggregate_place(before, period, item.route_key);
    let after = aggregated(db, probes, interval);
    if p < before.len() && before[p].period == period && before[p].route_key == item.route_key {
        law_aggregates_show_nothing_else(db, front, interval, i);
        if i == p {
            lemma_observation_shown_of(db, before[p], probes, interval);
        } else {
            assert(after[i] == before[i]);
            lemma_still_shown_of(db, before[i], probes, interval);
        }
    } else if i == p {
        let empty = no_probes(period, item.route_key, item.route, last.ts);
        lemma_observation_shown_of(db, empty, probes, interval);
    } else {
        let j = if i < p {
            i
        } else {
            i - 1
        };
        assert(after[i] == before[j]);
        law_aggregates_show_nothing_else(db, front, interval, j);
        lemma_still_shown_of(db, before[j], probes, interval);
    }
}

} // verus!
