//! The tables of the channel history, and the names by which channels are found in them.

use crate::model::{ChannelSample, SampleView};
use crate::text::{copy_text, same_text};
use vstd::prelude::*;

verus! {

/// The greatest number that a table holds.
pub const MAX_STORED: u64 = 0x7fff_ffff_ffff_ffff;

/// A channel that was seen.
#[derive(Debug)]
pub struct ChannelRow<T> {
    pub channel_key: T,
    pub channel_id: Option<T>,
    pub short_channel_id: Option<T>,
    pub peer_id: T,
    pub first_seen: u64,
    pub last_seen: u64,
    pub last_state: T,
    pub disappeared_at: Option<u64>,
}

impl DeepView for ChannelRow<String> {
    type V = ChannelRow<Seq<char>>;

    open spec fn deep_view(&self) -> ChannelRow<Seq<char>> {
        ChannelRow {
            channel_key: self.channel_key@,
            channel_id: self.channel_id.deep_view(),
            short_channel_id: self.short_channel_id.deep_view(),
            peer_id: self.peer_id@,
            first_seen: self.first_seen,
            last_seen: self.last_seen,
            last_state: self.last_state@,
            disappeared_at: self.disappeared_at,
        }
    }
}

impl Clone for ChannelRow<String> {
    fn clone(&self) -> (r: Self)
        ensures
            r.deep_view() == self.deep_view(),
    {
        ChannelRow {
            channel_key: self.channel_key.clone(),
            channel_id: copy_text(&self.channel_id),
            short_channel_id: copy_text(&self.short_channel_id),
            peer_id: self.peer_id.clone(),
            first_seen: self.first_seen,
            last_seen: self.last_seen,
            last_state: self.last_state.clone(),
            disappeared_at: self.disappeared_at,
        }
    }
}

/// A recorded state of a channel.
#[derive(Debug)]
pub struct SampleRow {
    pub id: u64,
    pub ts: u64,
    pub sample: ChannelSample,
}

/// What a recorded state says.
pub struct SampleRowView {
    pub id: u64,
    pub ts: u64,
    pub sample: SampleView,
}

impl DeepView for SampleRow {
    type V = SampleRowView;

    open spec fn deep_view(&self) -> SampleRowView {
        SampleRowView { id: self.id, ts: self.ts, sample: self.sample@ }
    }
}

/// Something that happened to a channel or a peer.
#[derive(Debug)]
pub struct EventRow<T> {
    pub id: u64,
    pub ts: u64,
    pub event_type: T,
    pub channel_key: Option<T>,
    pub channel_id: Option<T>,
    pub short_channel_id: Option<T>,
    pub peer_id: Option<T>,
    pub old_state: Option<T>,
    pub new_state: Option<T>,
    pub cause: Option<T>,
    pub direction: Option<T>,
    pub reason: Option<T>,
}

impl DeepView for EventRow<String> {
    type V = EventRow<Seq<char>>;

    open spec fn deep_view(&self) -> EventRow<Seq<char>> {
        EventRow {
            id: self.id,
            ts: self.ts,
            event_type: self.event_type@,
            channel_key: self.channel_key.deep_view(),
            channel_id: self.channel_id.deep_view(),
            short_channel_id: self.short_channel_id.deep_view(),
            peer_id: self.peer_id.deep_view(),
            old_state: self.old_state.deep_view(),
            new_state: self.new_state.deep_view(),
            cause: self.cause.deep_view(),
            direction: self.direction.deep_view(),
            reason: self.reason.deep_view(),
        }
    }
}

impl Clone for EventRow<String> {
    fn clone(&self) -> (r: Self)
        ensures
            r.deep_view() == self.deep_view(),
    {
        EventRow {
            id: self.id,
            ts: self.ts,
            event_type: self.event_type.clone(),
            channel_key: copy_text(&self.channel_key),
            channel_id: copy_text(&self.channel_id),
            short_channel_id: copy_text(&self.short_channel_id),
            peer_id: copy_text(&self.peer_id),
            old_state: copy_text(&self.old_state),
            new_state: copy_text(&self.new_state),
            cause: copy_text(&self.cause),
            direction: copy_text(&self.direction),
            reason: copy_text(&self.reason),
        }
    }
}

/// The forwards of one channel pair in one span of time that ended alike.
#[derive(Debug)]
pub struct BucketRow<T> {
    pub bucket_start: u64,
    pub in_channel: T,
    pub out_channel: T,
    pub status: T,
    pub failcode: u64,
    pub failreason: T,
    pub forward_count: u128,
    pub in_msat: u128,
    pub out_msat: u128,
    pub fee_msat: u128,
}

impl DeepView for BucketRow<String> {
    type V = BucketRow<Seq<char>>;

    open spec fn deep_view(&self) -> BucketRow<Seq<char>> {
        BucketRow {
            bucket_start: self.bucket_start,
            in_channel: self.in_channel@,
            out_channel: self.out_channel@,
            status: self.status@,
            failcode: self.failcode,
            failreason: self.failreason@,
            forward_count: self.forward_count,
            in_msat: self.in_msat,
            out_msat: self.out_msat,
            fee_msat: self.fee_msat,
        }
    }
}

impl Clone for BucketRow<String> {
    fn clone(&self) -> (r: Self)
        ensures
            r.deep_view() == self.deep_view(),
    {
        BucketRow {
            bucket_start: self.bucket_start,
            in_channel: self.in_channel.clone(),
            out_channel: self.out_channel.clone(),
            status: self.status.clone(),
            failcode: self.failcode,
            failreason: self.failreason.clone(),
            forward_count: self.forward_count,
            in_msat: self.in_msat,
            out_msat: self.out_msat,
            fee_msat: self.fee_msat,
        }
    }
}

/// One attempt to record the channels.
#[derive(Debug)]
pub struct RunRow<T> {
    pub ts: u64,
    pub success: bool,
    pub channel_count: Option<u64>,
    pub error: Option<T>,
}

impl DeepView for RunRow<String> {
    type V = RunRow<Seq<char>>;

    open spec fn deep_view(&self) -> RunRow<Seq<char>> {
        RunRow {
            ts: self.ts,
            success: self.success,
            channel_count: self.channel_count,
            error: self.error.deep_view(),
        }
    }
}

impl Clone for RunRow<String> {
    fn clone(&self) -> (r: Self)
        ensures
            r.deep_view() == self.deep_view(),
    {
        RunRow {
            ts: self.ts,
            success: self.success,
            channel_count: self.channel_count,
            error: copy_text(&self.error),
        }
    }
}

/// A name that stands for a channel.
#[derive(Debug)]
pub struct AliasRow<T> {
    pub alias_type: T,
    pub alias: T,
    pub channel_key: T,
    pub first_seen: u64,
    pub last_seen: u64,
}

impl DeepView for AliasRow<String> {
    type V = AliasRow<Seq<char>>;

    open spec fn deep_view(&self) -> AliasRow<Seq<char>> {
        AliasRow {
            alias_type: self.alias_type@,
            alias: self.alias@,
            channel_key: self.channel_key@,
            first_seen: self.first_seen,
            last_seen: self.last_seen,
        }
    }
}

impl Clone for AliasRow<String> {
    fn clone(&self) -> (r: Self)
        ensures
            r.deep_view() == self.deep_view(),
    {
        AliasRow {
            alias_type: self.alias_type.clone(),
            alias: self.alias.clone(),
            channel_key: self.channel_key.clone(),
            first_seen: self.first_seen,
            last_seen: self.last_seen,
        }
    }
}

/// How a probe of a route ended.
#[derive(Debug)]
pub struct ProbeRow<T> {
    pub id: u64,
    pub ts: u64,
    pub started_at: Option<u64>,
    pub duration_ms: Option<u64>,
    pub plugin_version: Option<T>,
    pub status: T,
    pub destination_reached: bool,
    pub destination: Option<T>,
    pub delivered_msat: u64,
    pub amount_at_source_msat: u64,
    pub total_fee_msat: u64,
    pub lower_bound_msat: Option<u64>,
    pub failure_code: Option<i64>,
    pub failcode: Option<i64>,
    pub failcodename: Option<T>,
    pub erring_index: Option<i64>,
    pub erring_channel: Option<T>,
    pub erring_direction: Option<i64>,
    pub erring_node: Option<T>,
}

impl DeepView for ProbeRow<String> {
    type V = ProbeRow<Seq<char>>;

    open spec fn deep_view(&self) -> ProbeRow<Seq<char>> {
        ProbeRow {
            id: self.id,
            ts: self.ts,
            started_at: self.started_at,
            duration_ms: self.duration_ms,
            plugin_version: self.plugin_version.deep_view(),
            status: self.status@,
            destination_reached: self.destination_reached,
            destination: self.destination.deep_view(),
            delivered_msat: self.delivered_msat,
            amount_at_source_msat: self.amount_at_source_msat,
            total_fee_msat: self.total_fee_msat,
            lower_bound_msat: self.lower_bound_msat,
            failure_code: self.failure_code,
            failcode: self.failcode,
            failcodename: self.failcodename.deep_view(),
            erring_index: self.erring_index,
            erring_channel: self.erring_channel.deep_view(),
            erring_direction: self.erring_direction,
            erring_node: self.erring_node.deep_view(),
        }
    }
}

impl Clone for ProbeRow<String> {
    fn clone(&self) -> (r: Self)
        ensures
            r.deep_view() == self.deep_view(),
    {
        ProbeRow {
            id: self.id,
            ts: self.ts,
            started_at: self.started_at,
            duration_ms: self.duration_ms,
            plugin_version: copy_text(&self.plugin_version),
            status: self.status.clone(),
            destination_reached: self.destination_reached,
            destination: copy_text(&self.destination),
            delivered_msat: self.delivered_msat,
            amount_at_source_msat: self.amount_at_source_msat,
            total_fee_msat: self.total_fee_msat,
            lower_bound_msat: self.lower_bound_msat,
            failure_code: self.failure_code,
            failcode: self.failcode,
            failcodename: copy_text(&self.failcodename),
            erring_index: self.erring_index,
            erring_channel: copy_text(&self.erring_channel),
            erring_direction: self.erring_direction,
            erring_node: copy_text(&self.erring_node),
        }
    }
}

/// One hop of a probed route.
#[derive(Debug)]
pub struct HopRow<T> {
    pub probe_id: u64,
    pub hop_index: u64,
    pub channel_key: Option<T>,
    pub short_channel_id: T,
    pub direction: u64,
    pub node_id_out: T,
    pub amount_out_msat: u64,
    pub cltv_out: u64,
    pub status: T,
}

impl DeepView for HopRow<String> {
    type V = HopRow<Seq<char>>;

    open spec fn deep_view(&self) -> HopRow<Seq<char>> {
        HopRow {
            probe_id: self.probe_id,
            hop_index: self.hop_index,
            channel_key: self.channel_key.deep_view(),
            short_channel_id: self.short_channel_id@,
            direction: self.direction,
            node_id_out: self.node_id_out@,
            amount_out_msat: self.amount_out_msat,
            cltv_out: self.cltv_out,
            status: self.status@,
        }
    }
}

impl Clone for HopRow<String> {
    fn clone(&self) -> (r: Self)
        ensures
            r.deep_view() == self.deep_view(),
    {
        HopRow {
            probe_id: self.probe_id,
            hop_index: self.hop_index,
            channel_key: copy_text(&self.channel_key),
            short_channel_id: self.short_channel_id.clone(),
            direction: self.direction,
            node_id_out: self.node_id_out.clone(),
            amount_out_msat: self.amount_out_msat,
            cltv_out: self.cltv_out,
            status: self.status.clone(),
        }
    }
}

/// The recorded history: its tables, the ids that were handed out last, and how long rows are kept.
#[derive(Debug)]
pub struct HistoryDb {
    pub channels: Vec<ChannelRow<String>>,
    pub samples: Vec<SampleRow>,
    pub events: Vec<EventRow<String>>,
    pub buckets: Vec<BucketRow<String>>,
    pub runs: Vec<RunRow<String>>,
    pub aliases: Vec<AliasRow<String>>,
    pub probes: Vec<ProbeRow<String>>,
    pub hops: Vec<HopRow<String>>,
    pub last_sample_id: u64,
    pub last_event_id: u64,
    pub last_probe_id: u64,
    pub retention_seconds: u64,
}

/// What the history holds.
#[verifier::ext_equal]
pub struct DbView {
    pub channels: Seq<ChannelRow<Seq<char>>>,
    pub samples: Seq<SampleRowView>,
    pub events: Seq<EventRow<Seq<char>>>,
    pub buckets: Seq<BucketRow<Seq<char>>>,
    pub runs: Seq<RunRow<Seq<char>>>,
    pub aliases: Seq<AliasRow<Seq<char>>>,
    pub probes: Seq<ProbeRow<Seq<char>>>,
    pub hops: Seq<HopRow<Seq<char>>>,
    pub last_sample_id: u64,
    pub last_event_id: u64,
    pub last_probe_id: u64,
    pub retention_seconds: u64,
}

impl View for HistoryDb {
    type V = DbView;

    open spec fn view(&self) -> DbView {
        DbView {
            channels: self.channels.deep_view(),
            samples: self.samples.deep_view(),
            events: self.events.deep_view(),
            buckets: self.buckets.deep_view(),
            runs: self.runs.deep_view(),
            aliases: self.aliases.deep_view(),
            probes: self.probes.deep_view(),
            hops: self.hops.deep_view(),
            last_sample_id: self.last_sample_id,
            last_event_id: self.last_event_id,
            last_probe_id: self.last_probe_id,
            retention_seconds: self.retention_seconds,
        }
    }
}

/// How much a kind of name counts where a name stands for several channels: the key of a channel
/// most, then a channel id.
pub open spec fn alias_rank(alias_type: Seq<char>) -> int {
    if alias_type == "identity"@ {
        0
    } else if alias_type == "channel_id"@ {
        1
    } else {
        2
    }
}

fn rank_of_alias(alias_type: &str) -> (r: u8)
    ensures
        r == alias_rank(alias_type@),
{
    if same_text(alias_type, "identity") {
        0
    } else if same_text(alias_type, "channel_id") {
        1
    } else {
        2
    }
}

/// The row of the name that counts most. Of several that count alike it is the first.
pub open spec fn best_alias(aliases: Seq<AliasRow<Seq<char>>>, alias: Seq<char>) -> Option<
    AliasRow<Seq<char>>,
>
    decreases aliases.len(),
{
    if aliases.len() == 0 {
        None
    } else {
        let row = aliases.last();
        match best_alias(aliases.drop_last(), alias) {
            Some(best) => if row.alias == alias && alias_rank(row.alias_type) < alias_rank(
                best.alias_type,
            ) {
                Some(row)
            } else {
                Some(best)
            },
            None => if row.alias == alias {
                Some(row)
            } else {
                None
            },
        }
    }
}

/// The channel that a name stands for.
pub open spec fn resolved(aliases: Seq<AliasRow<Seq<char>>>, alias: Seq<char>) -> Option<
    Seq<char>,
> {
    match best_alias(aliases, alias) {
        Some(row) => Some(row.channel_key),
        None => None,
    }
}

/// The channel that a name stands for, or the name itself.
pub open spec fn identity_of(aliases: Seq<AliasRow<Seq<char>>>, alias: Seq<char>) -> Seq<char> {
    match resolved(aliases, alias) {
        Some(key) => key,
        None => alias,
    }
}

/// The channel that a name stands for, where the name is known.
pub fn resolve_alias(aliases: &Vec<AliasRow<String>>, alias: &str) -> (r: Option<String>)
    ensures
        r.deep_view() == resolved(aliases.deep_view(), alias@),
{
    let ghost rows = aliases.deep_view();
    let mut best: Option<usize> = None;
    let mut i: usize = 0;
    assert(rows.take(0) =~= seq![]);
    while i < aliases.len()
        invariant
            i <= aliases@.len(),
            rows == aliases.deep_view(),
            match best {
                Some(at) => at < i && best_alias(rows.take(i as int), alias@) == Some(
                    rows[at as int],
                ),
                None => best_alias(rows.take(i as int), alias@) is None,
            },
        decreases aliases@.len() - i,
    {
        assert(rows.take(i + 1).drop_last() =~= rows.take(i as int));
        if same_text(aliases[i].alias.as_str(), alias) {
            let rank: u8 = rank_of_alias(aliases[i].alias_type.as_str());
            let better = match best {
                Some(at) => rank < rank_of_alias(aliases[at].alias_type.as_str()),
                None => true,
            };
            if better {
                best = Some(i);
            }
        }
        i = i + 1;
    }
    assert(rows.take(i as int) =~= rows);
    match best {
        Some(at) => Some(aliases[at].channel_key.clone()),
        None => None,
    }
}

/// The channel that a name stands for, or the name itself.
pub fn identity(aliases: &Vec<AliasRow<String>>, alias: &str) -> (r: String)
    ensures
        r@ == identity_of(aliases.deep_view(), alias@),
{
    match resolve_alias(aliases, alias) {
        Some(key) => key,
        None => alias.to_owned(),
    }
}

/// Whether the row is about that name of that kind.
pub open spec fn is_alias_row(
    row: AliasRow<Seq<char>>,
    alias_type: Seq<char>,
    alias: Seq<char>,
) -> bool {
    row.alias_type == alias_type && row.alias == alias
}

/// Whether the name of that kind is known.
pub open spec fn has_alias_row(
    aliases: Seq<AliasRow<Seq<char>>>,
    alias_type: Seq<char>,
    alias: Seq<char>,
) -> bool {
    exists|i: int|
        0 <= i < aliases.len() && is_alias_row(#[trigger] aliases[i], alias_type, alias)
}

/// A row of a name that was seen once more.
pub open spec fn seen_again(
    row: AliasRow<Seq<char>>,
    alias_type: Seq<char>,
    alias: Seq<char>,
    ts: u64,
) -> AliasRow<Seq<char>> {
    if is_alias_row(row, alias_type, alias) && row.last_seen < ts {
        AliasRow { last_seen: ts, ..row }
    } else {
        row
    }
}

/// The names after one was seen. A known name keeps the channel that it stands for.
pub open spec fn with_alias_seen(
    aliases: Seq<AliasRow<Seq<char>>>,
    ts: u64,
    alias_type: Seq<char>,
    alias: Seq<char>,
    channel_key: Seq<char>,
) -> Seq<AliasRow<Seq<char>>> {
    if has_alias_row(aliases, alias_type, alias) {
        Seq::new(aliases.len(), |i: int| seen_again(aliases[i], alias_type, alias, ts))
    } else {
        aliases.push(
            AliasRow { alias_type, alias, channel_key, first_seen: ts, last_seen: ts },
        )
    }
}

/// Records that a name was seen.
pub fn record_alias(
    aliases: &mut Vec<AliasRow<String>>,
    ts: u64,
    alias_type: &str,
    alias: &str,
    channel_key: &str,
)
    ensures
        final(aliases).deep_view() == with_alias_seen(
            old(aliases).deep_view(),
            ts,
            alias_type@,
            alias@,
            channel_key@,
        ),
{
    let ghost before = aliases.deep_view();
    let mut known = false;
    let mut i: usize = 0;
    while i < aliases.len()
        invariant
            i <= aliases@.len(),
            aliases@.len() == before.len(),
            known == (exists|j: int|
                0 <= j < i && is_alias_row(#[trigger] before[j], alias_type@, alias@)),
            forall|j: int|
                0 <= j < i ==> (#[trigger] aliases@[j]).deep_view() == seen_again(
                    before[j],
                    alias_type@,
                    alias@,
                    ts,
                ),
            forall|j: int|
                i <= j < aliases@.len() ==> (#[trigger] aliases@[j]).deep_view() == before[j],
        decreases aliases@.len() - i,
    {
        assert(aliases@[i as int].deep_view() == before[i as int]);
        if same_text(aliases[i].alias_type.as_str(), alias_type) && same_text(
            aliases[i].alias.as_str(),
            alias,
        ) {
            known = true;
            if aliases[i].last_seen < ts {
                aliases[i].last_seen = ts;
            }
        }
        i = i + 1;
    }
    if !known {
        assert(!has_alias_row(before, alias_type@, alias@));
        assert(aliases.deep_view() =~= before);
        aliases.push(
            AliasRow {
                alias_type: alias_type.to_owned(),
                alias: alias.to_owned(),
                channel_key: channel_key.to_owned(),
                first_seen: ts,
                last_seen: ts,
            },
        );
    }
    assert(aliases.deep_view() =~= with_alias_seen(
        before,
        ts,
        alias_type@,
        alias@,
        channel_key@,
    ));
}

} // verus!
