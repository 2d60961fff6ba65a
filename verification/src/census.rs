//! That what is counted together is counted exactly: the rows of forwards and of probes, one by one.

use crate::activity::{merged, same_bucket};
use crate::lookups::{
    filter_of, group_fits, group_place, grouped, groups_fit, in_period, pair_item, pair_page,
    passing, with_group,
};
use crate::ordered::{ascending, law_put_then_get, lemma_place_of, value_of, Entries};
use crate::probes::{
    aggregate_before, aggregate_place, aggregated, no_probes, probe_item, probe_period,
    with_failure, with_observation, AggregateView,
};
use crate::queries::PairQueryView;
use crate::store::{identity_of, BucketRow, DbView, ProbeRow};
use crate::text::{lemma_text_before_irreflexive, signed_decimal};
use crate::totals::{
    aggregates_ascend, is_listed_before, law_aggregates_are_listed_once_in_order,
    law_aggregates_show_the_extremes, law_pairs_are_listed_once_in_order, lemma_aggregate_order,
    lemma_group_place, lemma_pair_before_total, lemma_sum_of_insert, lemma_sum_of_update, sum_of,
};
use vstd::prelude::*;

verus! {

/// One more item raises the number of those that are asked for by one if it is one of them.
pub proof fn lemma_filter_grows<T>(items: Seq<T>, wanted: spec_fn(T) -> bool)
    requires
        items.len() > 0,
    ensures
        items.filter(wanted).len() == items.drop_last().filter(wanted).len() + if wanted(
            items.last(),
        ) {
            1int
        } else {
            0int
        },
{
    reveal(Seq::filter);
}

pub proof fn lemma_filter_is_part<T>(items: Seq<T>, wanted: spec_fn(T) -> bool)
    ensures
        0 <= items.filter(wanted).len() <= items.len(),
    decreases items.len(),
{
    if items.len() > 0 {
        lemma_filter_grows(items, wanted);
        lemma_filter_is_part(items.drop_last(), wanted);
    } else {
        reveal(Seq::filter);
    }
}

/// Whether a probe falls in the span of time of a row and took its route.
pub open spec fn is_counted_by(
    db: DbView,
    group: AggregateView,
    interval: u64,
    probe: ProbeRow<Seq<char>>,
) -> bool {
    group.period == probe.ts / interval * interval && group.route_key == probe_item(
        db,
        probe,
    ).route_key
}

/// Whether a probe reached its destination.
pub open spec fn arrived(probe: ProbeRow<Seq<char>>) -> bool {
    probe.status == "destination_reached"@
}

/// Whether a probe was paid out unexpectedly.
pub open spec fn was_settled(probe: ProbeRow<Seq<char>>) -> bool {
    probe.status == "unexpected_settlement"@
}

/// Whether a probe failed for a reason: the name of the failure, else its code, else an unknown one.
pub open spec fn failed_for(probe: ProbeRow<Seq<char>>, reason: Seq<char>) -> bool {
    &&& !arrived(probe) && !was_settled(probe)
    &&& probe.failcodename matches Some(name) ==> reason == name
    &&& probe.failcodename is None && probe.failcode is Some ==> reason == signed_decimal(
        probe.failcode->0 as int,
    )
    &&& probe.failcodename is None && probe.failcode is None ==> reason == "unknown"@
}

/// How many of the probes a row counts.
pub open spec fn tried(
    db: DbView,
    group: AggregateView,
    interval: u64,
    probes: Seq<ProbeRow<Seq<char>>>,
) -> nat {
    probes.filter(|probe: ProbeRow<Seq<char>>| is_counted_by(db, group, interval, probe)).len()
}

/// How many of the probes that a row counts reached their destination.
pub open spec fn arrivals(
    db: DbView,
    group: AggregateView,
    interval: u64,
    probes: Seq<ProbeRow<Seq<char>>>,
) -> nat {
    probes.filter(
        |probe: ProbeRow<Seq<char>>| is_counted_by(db, group, interval, probe) && arrived(probe),
    ).len()
}

/// How many of the probes that a row counts were paid out unexpectedly.
pub open spec fn settlements(
    db: DbView,
    group: AggregateView,
    interval: u64,
    probes: Seq<ProbeRow<Seq<char>>>,
) -> nat {
    probes.filter(
        |probe: ProbeRow<Seq<char>>| is_counted_by(db, group, interval, probe) && was_settled(probe),
    ).len()
}

/// How many of the probes that a row counts failed for a reason.
pub open spec fn failures_for(
    db: DbView,
    group: AggregateView,
    interval: u64,
    probes: Seq<ProbeRow<Seq<char>>>,
    reason: Seq<char>,
) -> nat {
    probes.filter(
        |probe: ProbeRow<Seq<char>>|
            is_counted_by(db, group, interval, probe) && failed_for(probe, reason),
    ).len()
}

/// The count of an entry.
pub open spec fn entry_count() -> spec_fn((Seq<Seq<char>>, u64)) -> int {
    |entry: (Seq<Seq<char>>, u64)| entry.1 as int
}

/// Whether a row counts its probes: how many there were, how many ended in each way, and how many failed
/// for each reason.
pub open spec fn counts_its_probes(
    db: DbView,
    group: AggregateView,
    interval: u64,
    probes: Seq<ProbeRow<Seq<char>>>,
) -> bool {
    &&& group.attempts == tried(db, group, interval, probes)
    &&& group.destination_reached == arrivals(db, group, interval, probes)
    &&& group.unexpected_settlement == settlements(db, group, interval, probes)
    &&& group.route_failed == group.attempts - group.destination_reached
        - group.unexpected_settlement
    &&& sum_of(group.failures, entry_count()) == group.route_failed
    &&& forall|reason: Seq<char>|
        match #[trigger] value_of(group.failures, seq![reason]) {
            Some(count) => count == failures_for(db, group, interval, probes, reason),
            None => failures_for(db, group, interval, probes, reason) == 0,
        }
}

proof fn lemma_counts_grow(
    db: DbView,
    group: AggregateView,
    interval: u64,
    probes: Seq<ProbeRow<Seq<char>>>,
)
    requires
        probes.len() > 0,
    ensures
        ({
            let front = probes.drop_last();
            let own = is_counted_by(db, group, interval, probes.last());
            &&& tried(db, group, interval, probes) == tried(db, group, interval, front) + if own {
                1int
            } else {
                0int
            }
            &&& arrivals(db, group, interval, probes) == arrivals(db, group, interval, front) + if own
                && arrived(probes.last()) {
                1int
            } else {
                0int
            }
            &&& settlements(db, group, interval, probes) == settlements(db, group, interval, front)
                + if own && was_settled(probes.last()) {
                1int
            } else {
                0int
            }
            &&& forall|reason: Seq<char>| #[trigger]
                failures_for(db, group, interval, probes, reason) == failures_for(
                    db,
                    group,
                    interval,
                    front,
                    reason,
                ) + if own && failed_for(probes.last(), reason) {
                    1int
                } else {
                    0int
                }
        }),
{
    lemma_filter_grows(
        probes,
        |probe: ProbeRow<Seq<char>>| is_counted_by(db, group, interval, probe),
    );
    lemma_filter_grows(
        probes,
        |probe: ProbeRow<Seq<char>>| is_counted_by(db, group, interval, probe) && arrived(probe),
    );
    lemma_filter_grows(
        probes,
        |probe: ProbeRow<Seq<char>>| is_counted_by(db, group, interval, probe) && was_settled(probe),
    );
    assert forall|reason: Seq<char>| #[trigger]
        failures_for(db, group, interval, probes, reason) == failures_for(
            db,
            group,
            interval,
            probes.drop_last(),
            reason,
        ) + if is_counted_by(db, group, interval, probes.last()) && failed_for(
            probes.last(),
            reason,
        ) {
            1int
        } else {
            0int
        } by {
        lemma_filter_grows(
            probes,
            |probe: ProbeRow<Seq<char>>|
                is_counted_by(db, group, interval, probe) && failed_for(probe, reason),
        );
    }
}

/// What a row counts goes by its span of time and its route alone.
proof fn lemma_counts_alike(
    db: DbView,
    a: AggregateView,
    b: AggregateView,
    interval: u64,
    probes: Seq<ProbeRow<Seq<char>>>,
)
    requires
        a.period == b.period,
        a.route_key == b.route_key,
    ensures
        tried(db, a, interval, probes) == tried(db, b, interval, probes),
        arrivals(db, a, interval, probes) == arrivals(db, b, interval, probes),
        settlements(db, a, interval, probes) == settlements(db, b, interval, probes),
        forall|reason: Seq<char>| #[trigger]
            failures_for(db, a, interval, probes, reason) == failures_for(
                db,
                b,
                interval,
                probes,
                reason,
            ),
    decreases probes.len(),
{
    if probes.len() > 0 {
        lemma_counts_grow(db, a, interval, probes);
        lemma_counts_grow(db, b, interval, probes);
        lemma_counts_alike(db, a, b, interval, probes.drop_last());
        assert forall|reason: Seq<char>| #[trigger]
            failures_for(db, a, interval, probes, reason) == failures_for(
                db,
                b,
                interval,
                probes,
                reason,
            ) by {
            assert(failures_for(db, a, interval, probes.drop_last(), reason) == failures_for(
                db,
                b,
                interval,
                probes.drop_last(),
                reason,
            ));
        }
    } else {
        reveal(Seq::filter);
    }
}

proof fn lemma_failure_counts(failures: Entries<u64>, name: Seq<char>)
    requires
        ascending(failures),
        value_of(failures, seq![name]) != Some(u64::MAX),
    ensures
        ascending(with_failure(failures, name)),
        sum_of(with_failure(failures, name), entry_count()) == sum_of(failures, entry_count()) + 1,
        forall|reason: Seq<char>| #[trigger]
            value_of(with_failure(failures, name), seq![reason]) == if reason == name {
                match value_of(failures, seq![name]) {
                    Some(count) => Some((count + 1) as u64),
                    None => Some(1u64),
                }
            } else {
                value_of(failures, seq![reason])
            },
{
    let key = seq![name];
    let count = match value_of(failures, key) {
        Some(count) => count as int,
        None => 0,
    };
    let more = (count + 1) as u64;
    lemma_place_of(failures, key);
    let p = crate::ordered::place_of(failures, key);
    let after = with_failure(failures, name);
    law_put_then_get(failures, key, more, key);
    if value_of(failures, key) is Some {
        assert(after == failures.update(p, (key, more)));
        lemma_sum_of_update(failures, entry_count(), p, (key, more));
    } else {
        assert(after == failures.insert(p, (key, more)));
        lemma_sum_of_insert(failures, entry_count(), p, (key, more));
    }
    assert forall|reason: Seq<char>| #[trigger]
        value_of(after, seq![reason]) == if reason == name {
            match value_of(failures, seq![name]) {
                Some(count) => Some((count + 1) as u64),
                None => Some(1u64),
            }
        } else {
            value_of(failures, seq![reason])
        } by {
        law_put_then_get(failures, key, more, seq![reason]);
        if reason != name {
            assert(seq![reason][0] != key[0]);
        }
    }
}

proof fn lemma_counted(
    db: DbView,
    group: AggregateView,
    interval: u64,
    probes: Seq<ProbeRow<Seq<char>>>,
)
    requires
        0 < probes.len() <= u64::MAX,
        ascending(group.failures),
        counts_its_probes(db, group, interval, probes.drop_last()),
        is_counted_by(db, group, interval, probes.last()),
    ensures
        counts_its_probes(db, with_observation(group, probes.last()), interval, probes),
        ascending(with_observation(group, probes.last()).failures),
{
    let front = probes.drop_last();
    let probe = probes.last();
    let after = with_observation(group, probe);
    lemma_counts_grow(db, after, interval, probes);
    lemma_counts_alike(db, group, after, interval, front);
    lemma_filter_is_part(
        front,
        |probe: ProbeRow<Seq<char>>| is_counted_by(db, group, interval, probe),
    );
    lemma_filter_is_part(
        front,
        |probe: ProbeRow<Seq<char>>| is_counted_by(db, group, interval, probe) && arrived(probe),
    );
    lemma_filter_is_part(
        front,
        |probe: ProbeRow<Seq<char>>| is_counted_by(db, group, interval, probe) && was_settled(probe),
    );
    assert("destination_reached"@ != "unexpected_settlement"@) by {
        reveal_strlit("destination_reached");
        reveal_strlit("unexpected_settlement");
        assert("destination_reached"@.len() == 19);
        assert("unexpected_settlement"@.len() == 21);
    }
    if !arrived(probe) && !was_settled(probe) {
        let name = crate::probes::failure_name(probe);
        assert(failed_for(probe, name));
        assert(failures_for(db, group, interval, front, name) <= front.len()) by {
            lemma_filter_is_part(
                front,
                |probe: ProbeRow<Seq<char>>|
                    is_counted_by(db, group, interval, probe) && failed_for(probe, name),
            );
        }
        lemma_failure_counts(group.failures, name);
    }
    assert forall|reason: Seq<char>|
        match #[trigger] value_of(after.failures, seq![reason]) {
            Some(count) => count == failures_for(db, after, interval, probes, reason),
            None => failures_for(db, after, interval, probes, reason) == 0,
        } by {
        assert(failures_for(db, group, interval, front, reason) == failures_for(
            db,
            after,
            interval,
            front,
            reason,
        ));
        assert(match value_of(group.failures, seq![reason]) {
            Some(count) => count == failures_for(db, group, interval, front, reason),
            None => failures_for(db, group, interval, front, reason) == 0,
        });
    }
}

proof fn lemma_not_counted(
    db: DbView,
    group: AggregateView,
    interval: u64,
    probes: Seq<ProbeRow<Seq<char>>>,
)
    requires
        0 < probes.len(),
        counts_its_probes(db, group, interval, probes.drop_last()),
        !is_counted_by(db, group, interval, probes.last()),
    ensures
        counts_its_probes(db, group, interval, probes),
{
    lemma_counts_grow(db, group, interval, probes);
    assert forall|reason: Seq<char>|
        match #[trigger] value_of(group.failures, seq![reason]) {
            Some(count) => count == failures_for(db, group, interval, probes, reason),
            None => failures_for(db, group, interval, probes, reason) == 0,
        } by {
        assert(failures_for(db, group, interval, probes, reason) == failures_for(
            db,
            group,
            interval,
            probes.drop_last(),
            reason,
        ));
    }
}

/// A row without probes counts none, where none of the probes is its own.
proof fn lemma_nothing_counted(
    db: DbView,
    group: AggregateView,
    interval: u64,
    probes: Seq<ProbeRow<Seq<char>>>,
)
    requires
        group.attempts == 0,
        group.destination_reached == 0,
        group.unexpected_settlement == 0,
        group.route_failed == 0,
        group.failures.len() == 0,
        forall|k: int|
            0 <= k < probes.len() ==> !is_counted_by(db, group, interval, #[trigger] probes[k]),
    ensures
        counts_its_probes(db, group, interval, probes),
    decreases probes.len(),
{
    if probes.len() > 0 {
        let front = probes.drop_last();
        assert forall|k: int| 0 <= k < front.len() implies !is_counted_by(
            db,
            group,
            interval,
            #[trigger] front[k],
        ) by {
            assert(front[k] == probes[k]);
        }
        lemma_nothing_counted(db, group, interval, front);
        assert(probes[probes.len() - 1] == probes.last());
        lemma_not_counted(db, group, interval, probes);
    } else {
        reveal(Seq::filter);
    }
}

/// Where a row has a span of time and a route, their place is its place.
proof fn lemma_place_of_row(groups: Seq<AggregateView>, i: int)
    requires
        aggregates_ascend(groups),
        0 <= i < groups.len(),
    ensures
        aggregate_place(groups, groups[i].period, groups[i].route_key) == i,
{
    let row = groups[i];
    lemma_aggregate_order(groups, row.period, row.route_key);
    let p = aggregate_place(groups, row.period, row.route_key);
    lemma_text_before_irreflexive(row.route_key);
    if i < p {
        assert(aggregate_before(groups[i], row.period, row.route_key));
    } else if p < i {
        assert(is_listed_before(groups[p], groups[i]));
    }
}

proof fn lemma_aggregates_count(
    db: DbView,
    probes: Seq<ProbeRow<Seq<char>>>,
    interval: u64,
)
    requires
        interval > 0,
        probes.len() <= u64::MAX,
    ensures
        forall|i: int|
            0 <= i < aggregated(db, probes, interval).len() ==> {
                &&& counts_its_probes(
                    db,
                    #[trigger] aggregated(db, probes, interval)[i],
                    interval,
                    probes,
                )
                &&& ascending(aggregated(db, probes, interval)[i].failures)
            },
    decreases probes.len(),
{
    if probes.len() > 0 {
        let front = probes.drop_last();
        lemma_aggregates_count(db, front, interval);
        law_aggregates_are_listed_once_in_order(db, front, interval);
        let before = aggregated(db, front, interval);
        let after = aggregated(db, probes, interval);
        let probe = probes.last();
        let item = probe_item(db, probe);
        let period = probe_period(probe.ts, interval);
        assert(period == probe.ts / interval * interval) by {
            assert(probe.ts as int / interval as int * interval as int <= probe.ts)
                by (nonlinear_arith)
                requires
                    interval > 0,
            ;
        }
        let p = aggregate_place(before, period, item.route_key);
        lemma_aggregate_order(before, period, item.route_key);
        let known = p < before.len() && before[p].period == period && before[p].route_key
            == item.route_key;
        assert forall|j: int| 0 <= j < before.len() && !(known && j == p) implies counts_its_probes(
            db,
            #[trigger] before[j],
            interval,
            probes,
        ) by {
            if is_counted_by(db, before[j], interval, probe) {
                lemma_place_of_row(before, j);
            }
            lemma_not_counted(db, before[j], interval, probes);
        }
        if known {
            lemma_counted(db, before[p], interval, probes);
            assert forall|i: int| 0 <= i < after.len() implies {
                &&& counts_its_probes(db, #[trigger] after[i], interval, probes)
                &&& ascending(after[i].failures)
            } by {
                if i != p {
                    assert(after[i] == before[i]);
                }
            }
        } else {
            let empty = no_probes(period, item.route_key, item.route, probe.ts);
            assert forall|k: int| 0 <= k < front.len() implies !is_counted_by(
                db,
                empty,
                interval,
                #[trigger] front[k],
            ) by {
                if is_counted_by(db, empty, interval, front[k]) {
                    law_aggregates_show_the_extremes(db, front, interval, k);
                    let i = choose|i: int|
                        0 <= i < before.len() && crate::totals::shows(
                            db,
                            #[trigger] before[i],
                            front[k],
                            interval,
                        );
                    lemma_place_of_row(before, i);
                }
            }
            lemma_nothing_counted(db, empty, interval, front);
            lemma_counted(db, empty, interval, probes);
            assert forall|i: int| 0 <= i < after.len() implies {
                &&& counts_its_probes(db, #[trigger] after[i], interval, probes)
                &&& ascending(after[i].failures)
            } by {
                if i < p {
                    assert(after[i] == before[i]);
                } else if i > p {
                    assert(after[i] == before[i - 1]);
                }
            }
        }
    }
}

/// A row of probes counts the probes of its span of time and its route: how many there were, how many
/// reached their destination, were paid out unexpectedly, or failed, and, for every reason, how many
/// failed for it. The counts of the reasons add up to the number of failures.
pub proof fn law_aggregates_count_their_probes(
    db: DbView,
    probes: Seq<ProbeRow<Seq<char>>>,
    interval: u64,
    i: int,
)
    requires
        interval > 0,
        probes.len() <= u64::MAX,
        0 <= i < aggregated(db, probes, interval).len(),
    ensures
        counts_its_probes(db, aggregated(db, probes, interval)[i], interval, probes),
{
    lemma_aggregates_count(db, probes, interval);
}

/// Whether a recorded row of forwards is part of a pair that is shown: it lies in the range and in the
/// pair's span of time, has its channels, and ended as it did.
pub open spec fn is_part_of(
    row: BucketRow<Seq<char>>,
    pair: BucketRow<Seq<char>>,
    start: u64,
    end: u64,
    interval: u64,
) -> bool {
    &&& start <= row.bucket_start <= end
    &&& pair.bucket_start <= row.bucket_start < pair.bucket_start + interval
    &&& row.in_channel == pair.in_channel
    &&& row.out_channel == pair.out_channel
    &&& row.status == pair.status
    &&& row.failcode == pair.failcode
    &&& row.failreason == pair.failreason
}

/// Whether the amount of merged rows is the sum of theirs.
spec fn is_additive(amount: spec_fn(BucketRow<Seq<char>>) -> int) -> bool {
    forall|a: BucketRow<Seq<char>>, b: BucketRow<Seq<char>>|
        same_bucket(a, b) && group_fits(#[trigger] merged(a, b)) ==> amount(merged(a, b)) == amount(a)
            + amount(b)
}

/// The amount of a row in its span of time, where it lies in the range.
spec fn ranged(
    amount: spec_fn(BucketRow<Seq<char>>) -> int,
    start: u64,
    end: u64,
    interval: u64,
) -> spec_fn(BucketRow<Seq<char>>) -> int {
    |row: BucketRow<Seq<char>>|
        if start <= row.bucket_start <= end {
            amount(in_period(row, interval))
        } else {
            0
        }
}

proof fn lemma_ranged_sum(
    buckets: Seq<BucketRow<Seq<char>>>,
    start: u64,
    end: u64,
    interval: u64,
    amount: spec_fn(BucketRow<Seq<char>>) -> int,
)
    requires
        is_additive(amount),
        groups_fit(grouped(buckets, start, end, interval)),
    ensures
        sum_of(grouped(buckets, start, end, interval), amount) == sum_of(
            buckets,
            ranged(amount, start, end, interval),
        ),
    decreases buckets.len(),
{
    if buckets.len() > 0 {
        let front = buckets.drop_last();
        let before = grouped(front, start, end, interval);
        let row = buckets.last();
        if start <= row.bucket_start <= end {
            let moved = in_period(row, interval);
            let p = group_place(before, moved);
            let after = with_group(before, moved);
            lemma_group_place(before, moved);
            if p < before.len() && same_bucket(before[p], moved) {
                assert(after[p] == merged(before[p], moved));
                assert forall|i: int| 0 <= i < before.len() implies group_fits(
                    #[trigger] before[i],
                ) by {
                    if i != p {
                        assert(after[i] == before[i]);
                    }
                }
                lemma_sum_of_update(before, amount, p, merged(before[p], moved));
            } else {
                assert forall|i: int| 0 <= i < before.len() implies group_fits(
                    #[trigger] before[i],
                ) by {
                    if i < p {
                        assert(after[i] == before[i]);
                    } else {
                        assert(after[i + 1] == before[i]);
                    }
                }
                lemma_sum_of_insert(before, amount, p, moved);
            }
        }
        lemma_ranged_sum(front, start, end, interval, amount);
    }
}

/// The sum over rows of which one alone counts.
proof fn lemma_one_counts(
    groups: Seq<BucketRow<Seq<char>>>,
    amount: spec_fn(BucketRow<Seq<char>>) -> int,
    i: int,
)
    requires
        0 <= i < groups.len(),
        forall|j: int| 0 <= j < groups.len() && j != i ==> amount(#[trigger] groups[j]) == 0,
    ensures
        sum_of(groups, amount) == amount(groups[i]),
    decreases groups.len(),
{
    let front = groups.drop_last();
    if i == groups.len() - 1 {
        lemma_none_counts(front, amount);
    } else {
        assert forall|j: int| 0 <= j < front.len() && j != i implies amount(#[trigger] front[j])
            == 0 by {
            assert(front[j] == groups[j]);
        }
        lemma_one_counts(front, amount, i);
        assert(amount(groups[groups.len() - 1]) == 0);
    }
}

proof fn lemma_none_counts(
    groups: Seq<BucketRow<Seq<char>>>,
    amount: spec_fn(BucketRow<Seq<char>>) -> int,
)
    requires
        forall|j: int| 0 <= j < groups.len() ==> amount(#[trigger] groups[j]) == 0,
    ensures
        sum_of(groups, amount) == 0,
    decreases groups.len(),
{
    if groups.len() > 0 {
        let front = groups.drop_last();
        assert forall|j: int| 0 <= j < front.len() implies amount(#[trigger] front[j]) == 0 by {
            assert(front[j] == groups[j]);
        }
        lemma_none_counts(front, amount);
        assert(amount(groups[groups.len() - 1]) == 0);
    }
}

proof fn lemma_same_sum<T>(
    rows: Seq<T>,
    a: spec_fn(T) -> int,
    b: spec_fn(T) -> int,
)
    requires
        forall|x: T| #[trigger] a(x) == b(x),
    ensures
        sum_of(rows, a) == sum_of(rows, b),
    decreases rows.len(),
{
    if rows.len() > 0 {
        lemma_same_sum(rows.drop_last(), a, b);
        assert(a(rows.last()) == b(rows.last()));
    }
}

proof fn lemma_period(row: u64, start: u64, interval: u64)
    requires
        interval > 0,
        start % interval == 0,
    ensures
        (row / interval * interval) as u64 == start <==> start <= row < start + interval,
        ((row / interval * interval) as u64) % interval == 0,
        row / interval * interval <= row,
{
    let q = row as int / interval as int;
    let s = start as int / interval as int;
    let n = interval as int;
    assert(row as int == q * n + row as int % n && 0 <= row as int % n < n) by (nonlinear_arith)
        requires
            q == row as int / n,
            n > 0,
    ;
    assert(start as int == s * n) by (nonlinear_arith)
        requires
            s == start as int / n,
            start as int % n == 0,
            n > 0,
    ;
    assert(q * n % n == 0) by (nonlinear_arith)
        requires
            n > 0,
    ;
    if q != s {
        assert(q > s ==> q * n >= s * n + n) by (nonlinear_arith)
            requires
                n > 0,
        ;
        assert(q < s ==> q * n + n <= s * n) by (nonlinear_arith)
            requires
                n > 0,
        ;
    }
}

proof fn lemma_pair_starts(
    buckets: Seq<BucketRow<Seq<char>>>,
    start: u64,
    end: u64,
    interval: u64,
)
    requires
        interval > 0,
    ensures
        forall|i: int|
            0 <= i < grouped(buckets, start, end, interval).len() ==> (#[trigger] grouped(
                buckets,
                start,
                end,
                interval,
            )[i]).bucket_start % interval == 0,
    decreases buckets.len(),
{
    if buckets.len() > 0 {
        let front = buckets.drop_last();
        lemma_pair_starts(front, start, end, interval);
        let before = grouped(front, start, end, interval);
        let row = buckets.last();
        if start <= row.bucket_start <= end {
            let moved = in_period(row, interval);
            lemma_period(row.bucket_start, 0, interval);
            lemma_group_place(before, moved);
            let p = group_place(before, moved);
            let after = with_group(before, moved);
            assert forall|i: int| 0 <= i < after.len() implies (#[trigger] after[i]).bucket_start
                % interval == 0 by {
                if p < before.len() && same_bucket(before[p], moved) {
                    assert(before[i].bucket_start % interval == 0);
                } else if i < p {
                    assert(after[i] == before[i]);
                } else if i > p {
                    assert(after[i] == before[i - 1]);
                }
            }
        }
    }
}

proof fn lemma_pair_amount(
    buckets: Seq<BucketRow<Seq<char>>>,
    start: u64,
    end: u64,
    interval: u64,
    i: int,
    amount: spec_fn(BucketRow<Seq<char>>) -> int,
)
    requires
        interval > 0,
        is_additive(amount),
        forall|row: BucketRow<Seq<char>>, n: u64|
            amount(#[trigger] in_period(row, n)) == amount(row),
        groups_fit(grouped(buckets, start, end, interval)),
        0 <= i < grouped(buckets, start, end, interval).len(),
    ensures
        amount(grouped(buckets, start, end, interval)[i]) == sum_of(
            buckets,
            |row: BucketRow<Seq<char>>|
                if is_part_of(row, grouped(buckets, start, end, interval)[i], start, end, interval) {
                    amount(row)
                } else {
                    0
                },
        ),
{
    let groups = grouped(buckets, start, end, interval);
    let pair = groups[i];
    let own = |row: BucketRow<Seq<char>>|
        if same_bucket(row, pair) {
            amount(row)
        } else {
            0int
        };
    assert forall|a: BucketRow<Seq<char>>, b: BucketRow<Seq<char>>|
        same_bucket(a, b) && group_fits(#[trigger] merged(a, b)) implies own(merged(a, b)) == own(a)
        + own(b) by {
        assert(same_bucket(merged(a, b), pair) == same_bucket(a, pair));
        assert(same_bucket(b, pair) == same_bucket(a, pair));
    }
    lemma_ranged_sum(buckets, start, end, interval, own);
    law_pairs_are_listed_once_in_order(buckets, start, end, interval);
    assert forall|j: int| 0 <= j < groups.len() && j != i implies own(#[trigger] groups[j]) == 0 by {
        lemma_pair_before_total(groups[j], pair);
        lemma_pair_before_total(pair, groups[j]);
        if j < i {
            assert(crate::lookups::pair_before(groups[j], groups[i]));
        } else {
            assert(crate::lookups::pair_before(groups[i], groups[j]));
        }
    }
    lemma_one_counts(groups, own, i);
    lemma_pair_starts(buckets, start, end, interval);
    let plain = |row: BucketRow<Seq<char>>|
        if is_part_of(row, grouped(buckets, start, end, interval)[i], start, end, interval) {
            amount(row)
        } else {
            0
        };
    assert forall|row: BucketRow<Seq<char>>| #[trigger]
        ranged(own, start, end, interval)(row) == plain(row) by {
        lemma_period(row.bucket_start, pair.bucket_start, interval);
        assert(amount(in_period(row, interval)) == amount(row));
    }
    lemma_same_sum(buckets, ranged(own, start, end, interval), plain);
}

/// A pair that is shown adds up the recorded forwards that are part of it, and no others: how many there
/// were, what came in, what went out and what they earned.
pub proof fn law_a_pair_adds_up_its_forwards(
    buckets: Seq<BucketRow<Seq<char>>>,
    start: u64,
    end: u64,
    interval: u64,
    i: int,
)
    requires
        interval > 0,
        groups_fit(grouped(buckets, start, end, interval)),
        0 <= i < grouped(buckets, start, end, interval).len(),
    ensures
        ({
            let pair = grouped(buckets, start, end, interval)[i];
            &&& pair.bucket_start % interval == 0
            &&& pair.forward_count == sum_of(
                buckets,
                |row: BucketRow<Seq<char>>|
                    if is_part_of(row, pair, start, end, interval) {
                        row.forward_count as int
                    } else {
                        0
                    },
            )
            &&& pair.in_msat == sum_of(
                buckets,
                |row: BucketRow<Seq<char>>|
                    if is_part_of(row, pair, start, end, interval) {
                        row.in_msat as int
                    } else {
                        0
                    },
            )
            &&& pair.out_msat == sum_of(
                buckets,
                |row: BucketRow<Seq<char>>|
                    if is_part_of(row, pair, start, end, interval) {
                        row.out_msat as int
                    } else {
                        0
                    },
            )
            &&& pair.fee_msat == sum_of(
                buckets,
                |row: BucketRow<Seq<char>>|
                    if is_part_of(row, pair, start, end, interval) {
                        row.fee_msat as int
                    } else {
                        0
                    },
            )
        }),
{
    let pair = grouped(buckets, start, end, interval)[i];
    lemma_pair_starts(buckets, start, end, interval);
    let count = |row: BucketRow<Seq<char>>| row.forward_count as int;
    let incoming = |row: BucketRow<Seq<char>>| row.in_msat as int;
    let outgoing = |row: BucketRow<Seq<char>>| row.out_msat as int;
    let fee = |row: BucketRow<Seq<char>>| row.fee_msat as int;
    lemma_pair_amount(buckets, start, end, interval, i, count);
    lemma_pair_amount(buckets, start, end, interval, i, incoming);
    lemma_pair_amount(buckets, start, end, interval, i, outgoing);
    lemma_pair_amount(buckets, start, end, interval, i, fee);
    lemma_same_sum(
        buckets,
        |row: BucketRow<Seq<char>>|
            if is_part_of(row, grouped(buckets, start, end, interval)[i], start, end, interval) {
                count(row)
            } else {
                0
            },
        |row: BucketRow<Seq<char>>|
            if is_part_of(row, pair, start, end, interval) {
                row.forward_count as int
            } else {
                0
            },
    );
    lemma_same_sum(
        buckets,
        |row: BucketRow<Seq<char>>|
            if is_part_of(row, grouped(buckets, start, end, interval)[i], start, end, interval) {
                incoming(row)
            } else {
                0
            },
        |row: BucketRow<Seq<char>>|
            if is_part_of(row, pair, start, end, interval) {
                row.in_msat as int
            } else {
                0
            },
    );
    lemma_same_sum(
        buckets,
        |row: BucketRow<Seq<char>>|
            if is_part_of(row, grouped(buckets, start, end, interval)[i], start, end, interval) {
                outgoing(row)
            } else {
                0
            },
        |row: BucketRow<Seq<char>>|
            if is_part_of(row, pair, start, end, interval) {
                row.out_msat as int
            } else {
                0
            },
    );
    lemma_same_sum(
        buckets,
        |row: BucketRow<Seq<char>>|
            if is_part_of(row, grouped(buckets, start, end, interval)[i], start, end, interval) {
                fee(row)
            } else {
                0
            },
        |row: BucketRow<Seq<char>>|
            if is_part_of(row, pair, start, end, interval) {
                row.fee_msat as int
            } else {
                0
            },
    );
}

/// Every recorded row of forwards that lies in the range is part of a pair that is shown.
pub proof fn law_every_forward_is_part_of_a_pair(
    buckets: Seq<BucketRow<Seq<char>>>,
    start: u64,
    end: u64,
    interval: u64,
    k: int,
)
    requires
        interval > 0,
        0 <= k < buckets.len(),
        start <= buckets[k].bucket_start <= end,
    ensures
        exists|i: int|
            0 <= i < grouped(buckets, start, end, interval).len() && is_part_of(
                buckets[k],
                #[trigger] grouped(buckets, start, end, interval)[i],
                start,
                end,
                interval,
            ),
    decreases buckets.len(),
{
    let front = buckets.drop_last();
    let before = grouped(front, start, end, interval);
    let after = grouped(buckets, start, end, interval);
    let row = buckets.last();
    let moved = in_period(row, interval);
    lemma_group_place(before, moved);
    let p = group_place(before, moved);
    lemma_period(row.bucket_start, 0, interval);
    lemma_period(row.bucket_start, moved.bucket_start, interval);
    if k == buckets.len() - 1 {
        assert(is_part_of(row, after[p], start, end, interval));
    } else {
        law_every_forward_is_part_of_a_pair(front, start, end, interval, k);
        assert(front[k] == buckets[k]);
        let i = choose|i: int|
            0 <= i < before.len() && is_part_of(
                buckets[k],
                #[trigger] before[i],
                start,
                end,
                interval,
            );
        if !(start <= row.bucket_start <= end) {
            assert(after[i] == before[i]);
        } else if p < before.len() && same_bucket(before[p], moved) {
            assert(is_part_of(buckets[k], after[i], start, end, interval));
        } else if i < p {
            assert(after[i] == before[i]);
        } else {
            assert(after[i + 1] == before[i]);
        }
    }
}

/// Where the pairs that pass stood among all of them.
proof fn lemma_passing_places(
    groups: Seq<BucketRow<Seq<char>>>,
    admitted: Seq<bool>,
    in_filter: Option<Seq<char>>,
    out_filter: Option<Seq<char>>,
) -> (places: Seq<int>)
    ensures
        places.len() == passing(groups, admitted, in_filter, out_filter).len(),
        forall|i: int|
            0 <= i < places.len() ==> {
                let k = #[trigger] places[i];
                &&& 0 <= k < groups.len()
                &&& passing(groups, admitted, in_filter, out_filter)[i] == groups[k]
                &&& admitted[k]
                &&& in_filter matches Some(channel) ==> groups[k].in_channel == channel
                &&& out_filter matches Some(channel) ==> groups[k].out_channel == channel
            },
        forall|i: int, j: int|
            0 <= i < j < places.len() ==> #[trigger] places[i] < #[trigger] places[j],
        forall|k: int|
            0 <= k < groups.len() && #[trigger] admitted[k] && (in_filter matches Some(channel)
                ==> groups[k].in_channel == channel) && (out_filter matches Some(channel)
                ==> groups[k].out_channel == channel) ==> places.contains(k),
    decreases groups.len(),
{
    if groups.len() == 0 {
        Seq::empty()
    } else {
        let front = groups.drop_last();
        let before = lemma_passing_places(front, admitted, in_filter, out_filter);
        let m = groups.len() - 1;
        let kept = passing(front, admitted, in_filter, out_filter);
        let all = passing(groups, admitted, in_filter, out_filter);
        let row = groups.last();
        let passes = admitted[m] && (in_filter matches Some(channel) ==> row.in_channel == channel)
            && (out_filter matches Some(channel) ==> row.out_channel == channel);
        assert forall|i: int| 0 <= i < before.len() implies {
            let k = #[trigger] before[i];
            &&& 0 <= k < front.len()
            &&& kept[i] == groups[k]
        } by {
            assert(front[before[i]] == groups[before[i]]);
        }
        let places = if passes {
            before.push(m)
        } else {
            before
        };
        assert(all == if passes {
            kept.push(row)
        } else {
            kept
        });
        assert forall|i: int| 0 <= i < places.len() implies {
            let k = #[trigger] places[i];
            &&& 0 <= k < groups.len()
            &&& all[i] == groups[k]
            &&& admitted[k]
            &&& in_filter matches Some(channel) ==> groups[k].in_channel == channel
            &&& out_filter matches Some(channel) ==> groups[k].out_channel == channel
        } by {
            if i < before.len() {
                assert(places[i] == before[i]);
                assert(front[before[i]] == groups[before[i]]);
            }
        }
        assert forall|i: int, j: int| 0 <= i < j < places.len() implies #[trigger] places[i]
            < #[trigger] places[j] by {
            assert(places[i] == before[i]);
            if j < before.len() {
                assert(places[j] == before[j]);
            }
        }
        assert forall|k: int|
            0 <= k < groups.len() && #[trigger] admitted[k] && (in_filter matches Some(channel)
                ==> groups[k].in_channel == channel) && (out_filter matches Some(channel)
                ==> groups[k].out_channel == channel) implies places.contains(k) by {
            if k < m {
                assert(front[k] == groups[k]);
                assert(before.contains(k));
                let i = choose|i: int| 0 <= i < before.len() && before[i] == k;
                assert(places[i] == k);
            } else {
                assert(places[before.len() as int] == m);
            }
        }
        places
    }
}

/// Whether one of the totals stands ahead of another.
pub open spec fn stand_in_order(
    groups: Seq<BucketRow<Seq<char>>>,
    first: BucketRow<Seq<char>>,
    second: BucketRow<Seq<char>>,
) -> bool {
    exists|k: int, l: int|
        0 <= k < l < groups.len() && #[trigger] groups[k] == first && #[trigger] groups[l] == second
}

/// What a page of pairs holds was admitted, comes in at the channel that was asked for, and goes out at
/// the one that was asked for. The pairs keep the order of the totals.
pub proof fn law_pair_pages_hold_what_is_asked_for(
    db: DbView,
    query: PairQueryView,
    now: u64,
    groups: Seq<BucketRow<Seq<char>>>,
    admitted: Seq<bool>,
    i: int,
)
    requires
        0 <= i < pair_page(db, query, now, groups, admitted).items.len(),
    ensures
        ({
            let items = pair_page(db, query, now, groups, admitted).items;
            let item = items[i];
            &&& exists|k: int|
                0 <= k < groups.len() && admitted[k] && item.totals == #[trigger] groups[k]
            &&& query.in_channel matches Some(name) ==> item.totals.in_channel == identity_of(
                db.aliases,
                name,
            )
            &&& query.out_channel matches Some(name) ==> item.totals.out_channel == identity_of(
                db.aliases,
                name,
            )
            &&& item.in_details.identity == item.totals.in_channel
            &&& item.out_details.identity == item.totals.out_channel
            &&& forall|j: int|
                i < j < items.len() ==> stand_in_order(groups, item.totals, (#[trigger] items[j]).totals)
        }),
{
    let in_filter = filter_of(db.aliases, query.in_channel);
    let out_filter = filter_of(db.aliases, query.out_channel);
    let found = passing(groups, admitted, in_filter, out_filter);
    let places = lemma_passing_places(groups, admitted, in_filter, out_filter);
    let items = pair_page(db, query, now, groups, admitted).items;
    let from = crate::lookups::skipped(found.len(), query.range.after());
    let k = places[from + i];
    assert(items[i] == pair_item(db, found[from + i]));
    assert(items[i].totals == groups[k]);
    assert forall|j: int| i < j < items.len() implies stand_in_order(
        groups,
        items[i].totals,
        (#[trigger] items[j]).totals,
    ) by {
        let l = places[from + j];
        assert(items[j] == pair_item(db, found[from + j]));
        assert(places[from + i] < places[from + j]);
        assert(items[i].totals == groups[k] && items[j].totals == groups[l]);
    }
}

/// Every admitted pair of the channels that were asked for is on some page.
pub proof fn law_pair_pages_leave_nothing_out(
    db: DbView,
    query: PairQueryView,
    now: u64,
    groups: Seq<BucketRow<Seq<char>>>,
    admitted: Seq<bool>,
    k: int,
)
    requires
        query.range.limit > 0,
        groups.len() <= u64::MAX,
        0 <= k < groups.len(),
        admitted[k],
        query.in_channel matches Some(name) ==> groups[k].in_channel == identity_of(db.aliases, name),
        query.out_channel matches Some(name) ==> groups[k].out_channel == identity_of(
            db.aliases,
            name,
        ),
    ensures
        exists|cursor: u64| {
            let page = #[trigger] pair_page(
                db,
                PairQueryView {
                    range: crate::queries::RangeView { cursor: Some(cursor), ..query.range },
                    ..query
                },
                now,
                groups,
                admitted,
            );
            page.items.len() > 0 && page.items[0].totals == groups[k]
        },
{
    let in_filter = filter_of(db.aliases, query.in_channel);
    let out_filter = filter_of(db.aliases, query.out_channel);
    let found = passing(groups, admitted, in_filter, out_filter);
    let places = lemma_passing_places(groups, admitted, in_filter, out_filter);
    assert(places.contains(k));
    let i = choose|i: int| 0 <= i < places.len() && places[i] == k;
    assert(found[i] == groups[k]);
    lemma_passing_is_part(groups, admitted, in_filter, out_filter);
    let cursor = i as u64;
    let asked = PairQueryView {
        range: crate::queries::RangeView { cursor: Some(cursor), ..query.range },
        ..query
    };
    let page = pair_page(db, asked, now, groups, admitted);
    assert(page.items[0] == pair_item(db, found[i]));
}

pub proof fn lemma_passing_is_part(
    groups: Seq<BucketRow<Seq<char>>>,
    admitted: Seq<bool>,
    in_filter: Option<Seq<char>>,
    out_filter: Option<Seq<char>>,
)
    ensures
        passing(groups, admitted, in_filter, out_filter).len() <= groups.len(),
    decreases groups.len(),
{
    if groups.len() > 0 {
        lemma_passing_is_part(groups.drop_last(), admitted, in_filter, out_filter);
    }
}

} // verus!
