//! Reading probe results: page by page, or added up by interval and route.

use crate::browse::{details_of, page_len, ChannelDetails, DetailsView, Position};
use crate::events::capped_sum;
use crate::lookups::{filter_of, page_start, resolve_filter, skipped, start_behind, PageStart};
use crate::model::{heightened, lowered};
use crate::ordered::{value_of, with_value, Entries, Key, OrderedMap};
use crate::queries::{ProbeQuery, ProbeQueryView};
use crate::recording::{fits, HistoryError};
use crate::sorting::{in_order, lemma_in_order_keeps, sort, Ranked};
use crate::store::{DbView, HistoryDb, HopRow, ProbeRow, MAX_STORED};
use crate::text::{
    decimal, decimal_text, is_text, joined, precedes_text, same_text, signed_decimal,
    signed_decimal_text, text_before,
};
use vstd::prelude::*;

verus! {

impl Ranked for HopRow<String> {
    /// By their place in the route.
    open spec fn before(a: HopRow<Seq<char>>, b: HopRow<Seq<char>>) -> bool {
        a.hop_index < b.hop_index
    }

    proof fn before_is_transitive(
        a: HopRow<Seq<char>>,
        b: HopRow<Seq<char>>,
        c: HopRow<Seq<char>>,
    ) {
    }

    proof fn before_is_irreflexive(a: HopRow<Seq<char>>) {
    }

    proof fn before_is_weak(a: HopRow<Seq<char>>, b: HopRow<Seq<char>>, c: HopRow<Seq<char>>) {
    }

    fn precedes(&self, other: &Self) -> (r: bool) {
        self.hop_index < other.hop_index
    }
}

/// The channel that a hop goes over: the known one, else the short channel id.
pub open spec fn hop_identity(hop: HopRow<Seq<char>>) -> Seq<char> {
    match hop.channel_key {
        Some(key) => key,
        None => hop.short_channel_id,
    }
}

/// The directed channel of a hop.
pub open spec fn directed_channel(hop: HopRow<Seq<char>>) -> Seq<char> {
    hop.short_channel_id + "/"@ + decimal(hop.direction as nat)
}

/// A hop, with what is known of its channel.
#[derive(Debug)]
pub struct HopItem {
    pub hop: HopRow<String>,
    pub identity: String,
    pub directed: String,
    pub details: ChannelDetails,
}

/// What a hop says.
pub struct HopItemView {
    pub hop: HopRow<Seq<char>>,
    pub identity: Seq<char>,
    pub directed: Seq<char>,
    pub details: DetailsView,
}

impl DeepView for HopItem {
    type V = HopItemView;

    open spec fn deep_view(&self) -> HopItemView {
        HopItemView {
            hop: self.hop.deep_view(),
            identity: self.identity@,
            directed: self.directed@,
            details: self.details.deep_view(),
        }
    }
}

/// Which hops are of a probe.
pub open spec fn hops_for(probe_id: u64) -> spec_fn(HopRow<Seq<char>>) -> bool {
    |hop: HopRow<Seq<char>>| hop.probe_id == probe_id
}

/// A hop with what is known of its channel.
pub open spec fn hop_item(db: DbView, hop: HopRow<Seq<char>>) -> HopItemView {
    HopItemView {
        hop,
        identity: hop_identity(hop),
        directed: directed_channel(hop),
        details: details_of(db, hop_identity(hop)),
    }
}

/// The route of a probe.
pub open spec fn route_items(db: DbView, probe_id: u64) -> Seq<HopItemView> {
    let hops = in_order::<HopRow<String>>(db.hops.filter(hops_for(probe_id)));
    Seq::new(hops.len(), |i: int| hop_item(db, hops[i]))
}

/// The directed channels of a route, one behind the other.
pub open spec fn route_key_of(route: Seq<HopItemView>) -> Seq<char>
    decreases route.len(),
{
    if route.len() == 0 {
        Seq::empty()
    } else if route.len() == 1 {
        route[0].directed
    } else {
        route_key_of(route.drop_last()) + ">"@ + route.last().directed
    }
}

fn hops_of(hops: &Vec<HopRow<String>>, probe_id: u64) -> (r: Vec<HopRow<String>>)
    ensures
        r.deep_view() == hops.deep_view().filter(hops_for(probe_id)),
{
    let ghost rows = hops.deep_view();
    let mut r: Vec<HopRow<String>> = Vec::new();
    let mut i: usize = 0;
    proof {
        reveal(Seq::filter);
    }
    assert(rows.take(0) =~= seq![]);
    assert(r.deep_view() =~= seq![]);
    while i < hops.len()
        invariant
            i <= hops@.len(),
            rows == hops.deep_view(),
            r.deep_view() == rows.take(i as int).filter(hops_for(probe_id)),
        decreases hops@.len() - i,
    {
        proof {
            reveal(Seq::filter);
        }
        let ghost before = r.deep_view();
        assert(rows.take(i + 1).drop_last() =~= rows.take(i as int));
        assert(hops@[i as int].deep_view() == rows[i as int]);
        if hops[i].probe_id == probe_id {
            r.push(hops[i].clone());
            assert(r.deep_view() =~= before.push(rows[i as int]));
        }
        i = i + 1;
    }
    assert(rows.take(i as int) =~= rows);
    r
}

fn route_key(route: &Vec<HopItem>) -> (r: String)
    ensures
        r@ == route_key_of(route.deep_view()),
{
    let ghost items = route.deep_view();
    let mut r = String::new();
    let mut i: usize = 0;
    assert(items.take(0) =~= seq![]);
    while i < route.len()
        invariant
            i <= route@.len(),
            items == route.deep_view(),
            r@ == route_key_of(items.take(i as int)),
        decreases route@.len() - i,
    {
        assert(items.take(i + 1).drop_last() =~= items.take(i as int));
        assert(items.take(i + 1).last() == route@[i as int].deep_view());
        if i > 0 {
            r.append(">");
        }
        let ghost before = r@;
        r.append(route[i].directed.as_str());
        if i == 0 {
            assert(r@ =~= route@[i as int].deep_view().directed);
        }
        i = i + 1;
    }
    assert(items.take(i as int) =~= items);
    r
}

impl HistoryDb {
    fn load_probe_hops(&self, probe_id: u64) -> (r: Vec<HopItem>)
        ensures
            r.deep_view() == route_items(self@, probe_id),
    {
        let hops = sort(hops_of(&self.hops, probe_id));
        let ghost rows = hops.deep_view();
        let mut items: Vec<HopItem> = Vec::new();
        for hop in it: hops
            invariant
                it.seq() == hops@,
                rows == hops.deep_view(),
                rows == in_order::<HopRow<String>>(self@.hops.filter(hops_for(probe_id))),
                items.deep_view() =~= route_items(self@, probe_id).take(it.index()),
        {
            let ghost before = items.deep_view();
            let ghost at = it.index();
            assert(hop.deep_view() == rows[at]);
            let identity = match &hop.channel_key {
                Some(key) => key.clone(),
                None => hop.short_channel_id.clone(),
            };
            let separated = joined(hop.short_channel_id.as_str(), "/");
            let direction = decimal_text(hop.direction as u128);
            let item = HopItem {
                details: self.channel_details(identity.as_str()),
                directed: joined(separated.as_str(), direction.as_str()),
                identity,
                hop,
            };
            assert(item.deep_view() == hop_item(self@, rows[at]));
            items.push(item);
            assert(items.deep_view() =~= before.push(item.deep_view()));
        }
        items
    }
}

/// Whether a hop goes over the channel or to the node.
pub open spec fn hop_touches(hop: HopRow<Seq<char>>, channel: Seq<char>) -> bool {
    hop_identity(hop) == channel || hop.short_channel_id == channel || hop.node_id_out == channel
}

/// Whether a hop of the probe goes over the channel or to the node.
pub open spec fn route_touches(
    hops: Seq<HopRow<Seq<char>>>,
    probe_id: u64,
    channel: Seq<char>,
) -> bool {
    exists|i: int|
        0 <= i < hops.len() && (#[trigger] hops[i]).probe_id == probe_id && hop_touches(
            hops[i],
            channel,
        )
}

/// Which probes are asked for.
pub struct ProbeScope {
    pub start: u64,
    pub end: u64,
    pub after: PageStart,
    pub channel: Option<Seq<char>>,
    pub status: Option<Seq<char>>,
    pub destination: Option<Seq<char>>,
}

/// Whether a probe is asked for.
pub open spec fn is_probe_wanted(
    hops: Seq<HopRow<Seq<char>>>,
    scope: ProbeScope,
    probe: ProbeRow<Seq<char>>,
) -> bool {
    &&& scope.start <= probe.ts <= scope.end
    &&& scope.after.is_ahead_of(probe.ts, probe.id)
    &&& scope.channel matches Some(channel) ==> route_touches(hops, probe.id, channel)
    &&& scope.status matches Some(status) ==> probe.status == status
    &&& scope.destination matches Some(node) ==> probe.destination == Some(node)
}

/// The positions of the probes that are asked for.
pub open spec fn probe_positions(
    probes: Seq<ProbeRow<Seq<char>>>,
    hops: Seq<HopRow<Seq<char>>>,
    scope: ProbeScope,
) -> Seq<Position>
    decreases probes.len(),
{
    if probes.len() == 0 {
        Seq::empty()
    } else {
        let before = probe_positions(probes.drop_last(), hops, scope);
        if is_probe_wanted(hops, scope, probes.last()) {
            before.push(
                Position {
                    ts: probes.last().ts,
                    id: probes.last().id,
                    at: (probes.len() - 1) as usize,
                },
            )
        } else {
            before
        }
    }
}

/// The probes that are asked for, by time and id.
pub open spec fn probes_in_order(db: DbView, scope: ProbeScope) -> Seq<ProbeRow<Seq<char>>> {
    let found = in_order::<Position>(probe_positions(db.probes, db.hops, scope));
    Seq::new(found.len(), |i: int| db.probes[found[i].at as int])
}

fn touches(hops: &Vec<HopRow<String>>, probe_id: u64, channel: &str) -> (r: bool)
    ensures
        r == route_touches(hops.deep_view(), probe_id, channel@),
{
    let ghost rows = hops.deep_view();
    let mut i: usize = 0;
    while i < hops.len()
        invariant
            i <= hops@.len(),
            rows == hops.deep_view(),
            forall|j: int|
                0 <= j < i ==> !((#[trigger] rows[j]).probe_id == probe_id && hop_touches(
                    rows[j],
                    channel@,
                )),
        decreases hops@.len() - i,
    {
        let hop = &hops[i];
        assert(hop.deep_view() == rows[i as int]);
        if hop.probe_id == probe_id {
            let same_identity = match &hop.channel_key {
                Some(key) => same_text(key.as_str(), channel),
                None => same_text(hop.short_channel_id.as_str(), channel),
            };
            if same_identity || same_text(hop.short_channel_id.as_str(), channel) || same_text(
                hop.node_id_out.as_str(),
                channel,
            ) {
                assert(hop_touches(rows[i as int], channel@));
                return true;
            }
        }
        i = i + 1;
    }
    false
}

/// The range that probes are looked for in, as plain values.
struct ProbeSearch<'a> {
    start: u64,
    end: u64,
    after: PageStart,
    channel: Option<String>,
    status: &'a Option<String>,
    destination: &'a Option<String>,
}

impl<'a> ProbeSearch<'a> {
    spec fn scope(&self) -> ProbeScope {
        ProbeScope {
            start: self.start,
            end: self.end,
            after: self.after,
            channel: self.channel.deep_view(),
            status: self.status.deep_view(),
            destination: self.destination.deep_view(),
        }
    }
}

fn probe_wanted(hops: &Vec<HopRow<String>>, search: &ProbeSearch, probe: &ProbeRow<String>) -> (r:
    bool)
    ensures
        r == is_probe_wanted(hops.deep_view(), search.scope(), probe.deep_view()),
{
    if probe.ts < search.start || probe.ts > search.end {
        return false;
    }
    if !search.after.precedes(probe.ts, probe.id) {
        return false;
    }
    if let Some(status) = search.status {
        if !same_text(probe.status.as_str(), status.as_str()) {
            return false;
        }
    }
    if let Some(destination) = search.destination {
        if !is_text(&probe.destination, destination.as_str()) {
            return false;
        }
    }
    match &search.channel {
        Some(channel) => touches(hops, probe.id, channel.as_str()),
        None => true,
    }
}

impl HistoryDb {
    fn find_probes(&self, search: &ProbeSearch) -> (r: Vec<Position>)
        ensures
            r@ == in_order::<Position>(
                probe_positions(self@.probes, self@.hops, search.scope()),
            ),
            forall|i: int| 0 <= i < r@.len() ==> (#[trigger] r@[i]).at < self.probes@.len(),
    {
        let ghost rows = self.probes.deep_view();
        let ghost hops = self.hops.deep_view();
        let ghost scope = search.scope();
        let mut found: Vec<Position> = Vec::new();
        let mut i: usize = 0;
        assert(rows.take(0) =~= seq![]);
        while i < self.probes.len()
            invariant
                i <= self.probes@.len(),
                rows == self.probes.deep_view(),
                hops == self.hops.deep_view(),
                scope == search.scope(),
                found@ == probe_positions(rows.take(i as int), hops, scope),
                forall|j: int| 0 <= j < found@.len() ==> (#[trigger] found@[j]).at
                    < self.probes@.len(),
            decreases self.probes@.len() - i,
        {
            assert(rows.take(i + 1).drop_last() =~= rows.take(i as int));
            assert(self.probes@[i as int].deep_view() == rows[i as int]);
            if probe_wanted(&self.hops, search, &self.probes[i]) {
                found.push(Position { ts: self.probes[i].ts, id: self.probes[i].id, at: i });
            }
            i = i + 1;
        }
        assert(rows.take(i as int) =~= rows);
        proof {
            let holds = |p: Position| p.at < self.probes@.len();
            lemma_in_order_keeps::<Position>(found@, holds);
            assert forall|k: int| 0 <= k < in_order::<Position>(found@).len() implies (
            #[trigger] in_order::<Position>(found@)[k]).at < self.probes@.len() by {
                assert(holds(in_order::<Position>(found@)[k]));
            }
        }
        assert(found.deep_view() =~= found@);
        let r = sort(found);
        assert(r.deep_view() =~= r@);
        r
    }
}

/// A probe, with its route.
#[derive(Debug)]
pub struct ProbeItem {
    pub probe: ProbeRow<String>,
    pub route_key: String,
    pub route: Vec<HopItem>,
}

/// What a probe says.
pub struct ProbeItemView {
    pub probe: ProbeRow<Seq<char>>,
    pub route_key: Seq<char>,
    pub route: Seq<HopItemView>,
}

impl DeepView for ProbeItem {
    type V = ProbeItemView;

    open spec fn deep_view(&self) -> ProbeItemView {
        ProbeItemView {
            probe: self.probe.deep_view(),
            route_key: self.route_key@,
            route: self.route.deep_view(),
        }
    }
}

/// A probe with its route.
pub open spec fn probe_item(db: DbView, probe: ProbeRow<Seq<char>>) -> ProbeItemView {
    ProbeItemView {
        probe,
        route_key: route_key_of(route_items(db, probe.id)),
        route: route_items(db, probe.id),
    }
}

/// What the probes of one route in one interval show together.
#[derive(Debug)]
pub struct ProbeAggregate {
    pub period: u64,
    pub route_key: String,
    pub route: Vec<HopItem>,
    pub attempts: u64,
    pub destination_reached: u64,
    pub route_failed: u64,
    pub unexpected_settlement: u64,
    pub max_success_msat: Option<u64>,
    pub smallest_failed_msat: Option<u64>,
    pub last_success_at: Option<u64>,
    pub last_observed_at: u64,
    pub failures: OrderedMap<String, u64>,
}

/// What an aggregate says.
pub struct AggregateView {
    pub period: u64,
    pub route_key: Seq<char>,
    pub route: Seq<HopItemView>,
    pub attempts: u64,
    pub destination_reached: u64,
    pub route_failed: u64,
    pub unexpected_settlement: u64,
    pub max_success_msat: Option<u64>,
    pub smallest_failed_msat: Option<u64>,
    pub last_success_at: Option<u64>,
    pub last_observed_at: u64,
    pub failures: Entries<u64>,
}

impl DeepView for ProbeAggregate {
    type V = AggregateView;

    open spec fn deep_view(&self) -> AggregateView {
        AggregateView {
            period: self.period,
            route_key: self.route_key@,
            route: self.route.deep_view(),
            attempts: self.attempts,
            destination_reached: self.destination_reached,
            route_failed: self.route_failed,
            unexpected_settlement: self.unexpected_settlement,
            max_success_msat: self.max_success_msat,
            smallest_failed_msat: self.smallest_failed_msat,
            last_success_at: self.last_success_at,
            last_observed_at: self.last_observed_at,
            failures: self.failures@,
        }
    }
}

/// An aggregate of no probes.
pub open spec fn no_probes(
    period: u64,
    route_key: Seq<char>,
    route: Seq<HopItemView>,
    observed_at: u64,
) -> AggregateView {
    AggregateView {
        period,
        route_key,
        route,
        attempts: 0,
        destination_reached: 0,
        route_failed: 0,
        unexpected_settlement: 0,
        max_success_msat: None,
        smallest_failed_msat: None,
        last_success_at: None,
        last_observed_at: observed_at,
        failures: Seq::empty(),
    }
}

/// Why a probe failed: the name of the failure, else its code, else `unknown`.
pub open spec fn failure_name(probe: ProbeRow<Seq<char>>) -> Seq<char> {
    match probe.failcodename {
        Some(name) => name,
        None => match probe.failcode {
            Some(code) => signed_decimal(code as int),
            None => "unknown"@,
        },
    }
}

/// The counts with one more failure.
pub open spec fn with_failure(failures: Entries<u64>, name: Seq<char>) -> Entries<u64> {
    let count = match value_of(failures, seq![name]) {
        Some(count) => count as int,
        None => 0,
    };
    with_value(failures, seq![name], capped_sum(count, 1))
}

/// The later of two times.
pub open spec fn later_of(a: u64, b: u64) -> u64 {
    if a >= b {
        a
    } else {
        b
    }
}

/// The aggregate with one more probe: a success raises the greatest amount that passed, a failure
/// lowers the smallest that did not.
pub open spec fn with_observation(group: AggregateView, probe: ProbeRow<Seq<char>>) -> AggregateView {
    let seen = AggregateView {
        attempts: capped_sum(group.attempts as int, 1),
        last_observed_at: later_of(group.last_observed_at, probe.ts),
        ..group
    };
    if probe.status == "destination_reached"@ {
        AggregateView {
            destination_reached: capped_sum(group.destination_reached as int, 1),
            max_success_msat: heightened(group.max_success_msat, Some(probe.delivered_msat)),
            last_success_at: heightened(group.last_success_at, Some(probe.ts)),
            ..seen
        }
    } else if probe.status == "unexpected_settlement"@ {
        AggregateView {
            unexpected_settlement: capped_sum(group.unexpected_settlement as int, 1),
            ..seen
        }
    } else {
        AggregateView {
            route_failed: capped_sum(group.route_failed as int, 1),
            smallest_failed_msat: lowered(group.smallest_failed_msat, Some(probe.delivered_msat)),
            failures: with_failure(group.failures, failure_name(probe)),
            ..seen
        }
    }
}

/// Whether an aggregate comes before a route in an interval.
pub open spec fn aggregate_before(group: AggregateView, period: u64, route_key: Seq<char>) -> bool {
    group.period < period || (group.period == period && text_before(group.route_key, route_key))
}

/// The place of a route in an interval: behind the last aggregate that comes before it.
pub open spec fn aggregate_place(
    groups: Seq<AggregateView>,
    period: u64,
    route_key: Seq<char>,
) -> int
    decreases groups.len(),
{
    if groups.len() == 0 || aggregate_before(groups.last(), period, route_key) {
        groups.len() as int
    } else {
        aggregate_place(groups.drop_last(), period, route_key)
    }
}

/// The start of the interval that a probe falls in.
pub open spec fn probe_period(ts: u64, interval: u64) -> u64 {
    (ts / interval * interval) as u64
}

/// The aggregates with one more probe.
pub open spec fn with_probe_counted(
    groups: Seq<AggregateView>,
    db: DbView,
    probe: ProbeRow<Seq<char>>,
    interval: u64,
) -> Seq<AggregateView> {
    let item = probe_item(db, probe);
    let period = probe_period(probe.ts, interval);
    let p = aggregate_place(groups, period, item.route_key);
    if p < groups.len() && groups[p].period == period && groups[p].route_key == item.route_key {
        groups.update(p, with_observation(groups[p], probe))
    } else {
        groups.insert(
            p,
            with_observation(no_probes(period, item.route_key, item.route, probe.ts), probe),
        )
    }
}

/// What the probes show together, by interval and route.
pub open spec fn aggregated(
    db: DbView,
    probes: Seq<ProbeRow<Seq<char>>>,
    interval: u64,
) -> Seq<AggregateView>
    decreases probes.len(),
{
    if probes.len() == 0 {
        Seq::empty()
    } else {
        with_probe_counted(
            aggregated(db, probes.drop_last(), interval),
            db,
            probes.last(),
            interval,
        )
    }
}

fn name_failure(probe: &ProbeRow<String>) -> (r: String)
    ensures
        r@ == failure_name(probe.deep_view()),
{
    match &probe.failcodename {
        Some(name) => name.clone(),
        None => match probe.failcode {
            Some(code) => signed_decimal_text(code as i128),
            None => "unknown".to_owned(),
        },
    }
}

fn count_failure(failures: &mut OrderedMap<String, u64>, name: String)
    ensures
        final(failures)@ == with_failure(old(failures)@, name@),
{
    assert(name.parts() =~= seq![name@]);
    let count: u64 = match failures.get(&name) {
        Some(count) => *count,
        None => 0,
    };
    failures.insert(name, count.saturating_add(1));
}

fn raise(current: Option<u64>, value: u64) -> (r: Option<u64>)
    ensures
        r == heightened(current, Some(value)),
{
    match current {
        Some(current) => if value > current {
            Some(value)
        } else {
            Some(current)
        },
        None => Some(value),
    }
}

fn observe(group: &mut ProbeAggregate, probe: &ProbeRow<String>)
    ensures
        final(group).deep_view() == with_observation(old(group).deep_view(), probe.deep_view()),
{
    group.attempts = group.attempts.saturating_add(1);
    if probe.ts > group.last_observed_at {
        group.last_observed_at = probe.ts;
    }
    if same_text(probe.status.as_str(), "destination_reached") {
        group.destination_reached = group.destination_reached.saturating_add(1);
        group.max_success_msat = raise(group.max_success_msat, probe.delivered_msat);
        group.last_success_at = raise(group.last_success_at, probe.ts);
    } else if same_text(probe.status.as_str(), "unexpected_settlement") {
        group.unexpected_settlement = group.unexpected_settlement.saturating_add(1);
    } else {
        group.route_failed = group.route_failed.saturating_add(1);
        group.smallest_failed_msat = match group.smallest_failed_msat {
            Some(current) => if probe.delivered_msat < current {
                Some(probe.delivered_msat)
            } else {
                Some(current)
            },
            None => Some(probe.delivered_msat),
        };
        count_failure(&mut group.failures, name_failure(probe));
    }
}

fn find_aggregate(groups: &Vec<ProbeAggregate>, period: u64, key: &str) -> (r: usize)
    ensures
        r == aggregate_place(groups.deep_view(), period, key@),
        r <= groups@.len(),
{
    let ghost all = groups.deep_view();
    let mut i: usize = groups.len();
    assert(all.take(i as int) =~= all);
    while i > 0 && !(groups[i - 1].period < period || (groups[i - 1].period == period
        && precedes_text(groups[i - 1].route_key.as_str(), key)))
        invariant
            i <= groups@.len(),
            all == groups.deep_view(),
            aggregate_place(all, period, key@) == aggregate_place(
                all.take(i as int),
                period,
                key@,
            ),
        decreases i,
    {
        assert(all.take(i as int).drop_last() =~= all.take(i - 1));
        assert(all.take(i as int).last() == groups@[i - 1].deep_view());
        i = i - 1;
    }
    if i > 0 {
        assert(all.take(i as int).last() == groups@[i - 1].deep_view());
    }
    i
}

impl HistoryDb {
    fn aggregate_probe_events(&self, found: &Vec<Position>, interval: u64) -> (r: Vec<
        ProbeAggregate,
    >)
        requires
            interval > 0,
            forall|i: int| 0 <= i < found@.len() ==> (#[trigger] found@[i]).at < self.probes@.len(),
        ensures
            r.deep_view() == aggregated(
                self@,
                Seq::new(found@.len(), |i: int| self@.probes[found@[i].at as int]),
                interval,
            ),
    {
        let ghost rows = Seq::new(found@.len(), |i: int| self@.probes[found@[i].at as int]);
        let mut groups: Vec<ProbeAggregate> = Vec::new();
        let mut i: usize = 0;
        assert(rows.take(0) =~= seq![]);
        assert(groups.deep_view() =~= seq![]);
        while i < found.len()
            invariant
                i <= found@.len(),
                interval > 0,
                rows == Seq::new(found@.len(), |i: int| self@.probes[found@[i].at as int]),
                forall|j: int| 0 <= j < found@.len() ==> (#[trigger] found@[j]).at
                    < self.probes@.len(),
                groups.deep_view() == aggregated(self@, rows.take(i as int), interval),
            decreases found@.len() - i,
        {
            assert(rows.take(i + 1).drop_last() =~= rows.take(i as int));
            let ghost before = groups.deep_view();
            assert(found@[i as int].at < self.probes@.len());
            let probe = &self.probes[found[i].at];
            assert(probe.deep_view() == rows[i as int]);
            let route = self.load_probe_hops(probe.id);
            let key = route_key(&route);
            assert(probe.ts / interval * interval <= probe.ts) by (nonlinear_arith)
                requires
                    interval > 0,
            ;
            let period: u64 = probe.ts / interval * interval;
            let at = find_aggregate(&groups, period, key.as_str());
            if at < groups.len() && groups[at].period == period && same_text(
                groups[at].route_key.as_str(),
                key.as_str(),
            ) {
                observe(&mut groups[at], probe);
                assert(groups.deep_view() =~= before.update(
                    at as int,
                    with_observation(before[at as int], probe.deep_view()),
                ));
            } else {
                let mut group = ProbeAggregate {
                    period,
                    route_key: key,
                    route,
                    attempts: 0,
                    destination_reached: 0,
                    route_failed: 0,
                    unexpected_settlement: 0,
                    max_success_msat: None,
                    smallest_failed_msat: None,
                    last_success_at: None,
                    last_observed_at: probe.ts,
                    failures: OrderedMap::new(),
                };
                observe(&mut group, probe);
                groups.insert(at, group);
                assert(groups.deep_view() =~= before.insert(at as int, group.deep_view()));
            }
            i = i + 1;
        }
        assert(rows.take(i as int) =~= rows);
        groups
    }
}

/// The probes of a page: one by one, or added up by interval and route.
#[derive(Debug)]
pub enum ProbeItems {
    Raw(Vec<ProbeItem>),
    Aggregated(Vec<ProbeAggregate>),
}

/// What the probes of a page say.
pub enum ProbeItemsView {
    Raw(Seq<ProbeItemView>),
    Aggregated(Seq<AggregateView>),
}

impl View for ProbeItems {
    type V = ProbeItemsView;

    open spec fn view(&self) -> ProbeItemsView {
        match self {
            ProbeItems::Raw(items) => ProbeItemsView::Raw(items.deep_view()),
            ProbeItems::Aggregated(items) => ProbeItemsView::Aggregated(items.deep_view()),
        }
    }
}

/// A page of probe results.
#[derive(Debug)]
pub struct ProbePage {
    pub start: u64,
    pub end: u64,
    pub interval: Option<u64>,
    pub items: ProbeItems,
    pub next_cursor: Option<u64>,
    pub has_more: bool,
}

/// What a page of probe results says.
pub struct ProbePageView {
    pub start: u64,
    pub end: u64,
    pub interval: Option<u64>,
    pub items: ProbeItemsView,
    pub next_cursor: Option<u64>,
    pub has_more: bool,
}

impl View for ProbePage {
    type V = ProbePageView;

    open spec fn view(&self) -> ProbePageView {
        ProbePageView {
            start: self.start,
            end: self.end,
            interval: self.interval,
            items: self.items@,
            next_cursor: self.next_cursor,
            has_more: self.has_more,
        }
    }
}

/// The time of the probe with an id.
pub open spec fn probe_time(probes: Seq<ProbeRow<Seq<char>>>, id: u64) -> Option<u64>
    decreases probes.len(),
{
    if probes.len() == 0 {
        None
    } else if probes.last().id == id {
        Some(probes.last().ts)
    } else {
        probe_time(probes.drop_last(), id)
    }
}

fn find_probe_time(probes: &Vec<ProbeRow<String>>, id: u64) -> (r: Option<u64>)
    ensures
        r == probe_time(probes.deep_view(), id),
{
    let ghost rows = probes.deep_view();
    let mut i: usize = probes.len();
    assert(rows.take(i as int) =~= rows);
    while i > 0
        invariant
            i <= probes@.len(),
            rows == probes.deep_view(),
            probe_time(rows, id) == probe_time(rows.take(i as int), id),
        decreases i,
    {
        assert(rows.take(i as int).drop_last() =~= rows.take(i - 1));
        i = i - 1;
        assert(probes@[i as int].deep_view() == rows[i as int]);
        if probes[i].id == id {
            return Some(probes[i].ts);
        }
    }
    None
}

/// What a query for probes asks for. Pages of single probes begin behind the probe that the cursor
/// names.
pub open spec fn probe_scope(db: DbView, query: ProbeQueryView, now: u64) -> ProbeScope {
    ProbeScope {
        start: query.range.range_at(now).0,
        end: query.range.range_at(now).1,
        after: if query.interval is None {
            start_behind(
                probe_time(db.probes, query.range.after()),
                query.range.after(),
                db.last_probe_id,
            )
        } else {
            PageStart::First
        },
        channel: filter_of(db.aliases, query.range.channel),
        status: query.status,
        destination: query.destination,
    }
}

/// The page of single probes that answers a query.
pub open spec fn raw_probe_page(db: DbView, query: ProbeQueryView, now: u64) -> ProbePageView {
    let scope = probe_scope(db, query, now);
    let found = probes_in_order(db, scope);
    let n = page_len(found.len(), query.range.limit);
    ProbePageView {
        start: scope.start,
        end: scope.end,
        interval: query.interval,
        items: ProbeItemsView::Raw(Seq::new(n as nat, |i: int| probe_item(db, found[i]))),
        next_cursor: if found.len() > query.range.limit {
            Some(
                if n > 0 {
                    found[n - 1].id
                } else {
                    0
                },
            )
        } else {
            None
        },
        has_more: found.len() > query.range.limit,
    }
}

/// The page of aggregates that answers a query. The cursor counts the aggregates of earlier pages.
pub open spec fn aggregated_probe_page(
    db: DbView,
    query: ProbeQueryView,
    now: u64,
    interval: u64,
) -> ProbePageView {
    let scope = probe_scope(db, query, now);
    let groups = aggregated(db, probes_in_order(db, scope), interval);
    let from = skipped(groups.len(), query.range.after());
    let rest = (groups.len() - from) as nat;
    let n = page_len(rest, query.range.limit);
    ProbePageView {
        start: scope.start,
        end: scope.end,
        interval: query.interval,
        items: ProbeItemsView::Aggregated(groups.subrange(from, from + n)),
        next_cursor: if rest > query.range.limit {
            Some((query.range.after() + n) as u64)
        } else {
            None
        },
        has_more: rest > query.range.limit,
    }
}

/// The page that answers a query for probes.
pub open spec fn probe_page(db: DbView, query: ProbeQueryView, now: u64) -> ProbePageView {
    match query.interval {
        Some(interval) => aggregated_probe_page(db, query, now, interval),
        None => raw_probe_page(db, query, now),
    }
}

fn page_of(groups: Vec<ProbeAggregate>, from: usize, count: usize) -> (r: Vec<ProbeAggregate>)
    requires
        from + count <= groups@.len(),
    ensures
        r.deep_view() == groups.deep_view().subrange(from as int, from + count),
{
    let ghost all = groups.deep_view();
    let mut groups = groups;
    let mut page = groups.split_off(from);
    page.truncate(count);
    assert(page.deep_view() =~= all.subrange(from as int, from + count));
    page
}

impl HistoryDb {
    fn raw_probes(&self, found: &Vec<Position>, count: usize) -> (r: Vec<ProbeItem>)
        requires
            count <= found@.len(),
            forall|i: int| 0 <= i < found@.len() ==> (#[trigger] found@[i]).at < self.probes@.len(),
        ensures
            r.deep_view() == Seq::new(
                count as nat,
                |i: int| probe_item(self@, self@.probes[found@[i].at as int]),
            ),
    {
        let ghost expected = Seq::new(
            count as nat,
            |i: int| probe_item(self@, self@.probes[found@[i].at as int]),
        );
        let mut items: Vec<ProbeItem> = Vec::new();
        let mut i: usize = 0;
        while i < count
            invariant
                i <= count <= found@.len(),
                forall|j: int| 0 <= j < found@.len() ==> (#[trigger] found@[j]).at
                    < self.probes@.len(),
                expected == Seq::new(
                    count as nat,
                    |i: int| probe_item(self@, self@.probes[found@[i].at as int]),
                ),
                items.deep_view() =~= expected.take(i as int),
            decreases count - i,
        {
            let ghost before = items.deep_view();
            assert(found@[i as int].at < self.probes@.len());
            let probe = &self.probes[found[i].at];
            assert(probe.deep_view() == self@.probes[found@[i as int].at as int]);
            let route = self.load_probe_hops(probe.id);
            let item = ProbeItem { probe: probe.clone(), route_key: route_key(&route), route };
            assert(item.deep_view() == expected[i as int]);
            items.push(item);
            assert(items.deep_view() =~= before.push(item.deep_view()));
            i = i + 1;
        }
        assert(items.deep_view() =~= expected);
        items
    }

    /// The probes in a range of time. Without an interval they come by time and id; with one they are
    /// added up by interval and route.
    pub fn probe_events(&self, query: &ProbeQuery, now: u64) -> (r: Result<ProbePage, HistoryError>)
        requires
            query.interval != Some(0u64),
        ensures
            if fits(query@.range.range_at(now).0) && fits(query@.range.range_at(now).1) {
                r matches Ok(page) && page@ == probe_page(self@, query@, now)
            } else {
                r == Err::<ProbePage, HistoryError>(HistoryError::OutOfRange)
            },
    {
        let (start, end) = query.range.bounds_at(now);
        if start > MAX_STORED || end > MAX_STORED {
            return Err(HistoryError::OutOfRange);
        }
        let cursor: u64 = match query.range.cursor {
            Some(cursor) => cursor,
            None => 0,
        };
        let search = ProbeSearch {
            start,
            end,
            after: if query.interval.is_none() {
                let time = find_probe_time(&self.probes, cursor);
                page_start(time, cursor, self.last_probe_id)
            } else {
                PageStart::First
            },
            channel: resolve_filter(&self.aliases, &query.range.channel),
            status: &query.status,
            destination: &query.destination,
        };
        let ghost scope = probe_scope(self@, query@, now);
        assert(search.scope() == scope);
        let found = self.find_probes(&search);
        let limit: u64 = query.range.limit;
        assert(probes_in_order(self@, scope) =~= Seq::new(
            found@.len(),
            |i: int| self@.probes[found@[i].at as int],
        ));
        match query.interval {
            Some(interval) => {
                let groups = self.aggregate_probe_events(&found, interval);
                let available: usize = groups.len();
                let from: usize = if cursor >= available as u64 {
                    available
                } else {
                    cursor as usize
                };
                let rest: usize = available - from;
                let has_more = rest as u64 > limit;
                let count: usize = if has_more {
                    limit as usize
                } else {
                    rest
                };
                let items = page_of(groups, from, count);
                let next_cursor = if has_more {
                    Some(cursor + count as u64)
                } else {
                    None
                };
                Ok(
                    ProbePage {
                        start,
                        end,
                        interval: query.interval,
                        items: ProbeItems::Aggregated(items),
                        next_cursor,
                        has_more,
                    },
                )
            },
            None => {
                let has_more = found.len() as u64 > limit;
                let count: usize = if has_more {
                    limit as usize
                } else {
                    found.len()
                };
                let items = self.raw_probes(&found, count);
                let next_cursor = if has_more {
                    if count > 0 {
                        Some(self.probes[found[count - 1].at].id)
                    } else {
                        Some(0)
                    }
                } else {
                    None
                };
                assert(items.deep_view() =~= raw_probe_page(self@, query@, now).items->Raw_0);
                Ok(
                    ProbePage {
                        start,
                        end,
                        interval: query.interval,
                        items: ProbeItems::Raw(items),
                        next_cursor,
                        has_more,
                    },
                )
            },
        }
    }
}

} // verus!
