//! What the metrics of the channels say: each in terms of what the node reports of the channel.

use crate::census::{lemma_filter_grows, lemma_filter_is_part};
use crate::channels::{
    candidate_lines, candidates_lines, channel_lines, channel_name, channels_lines, count_lines,
    each_channel_lines, earliest_expiry, feerate_lines, funding_lines, htlc_lines, is_anchor,
    liquidity_lines, near_expiry, splice_lines, state_counts, state_lines, ChannelContext,
};
use crate::exposition::{LineView, ValueView};
use crate::json::{referent, Json};
use crate::ordered::{ascending, incremented, law_put_then_get, value_of, Entries};
use crate::text::decimal;
use crate::totals::sum_of;
use vstd::prelude::*;

verus! {

/// Whether a metric is shown with these labels and this value.
pub open spec fn says(
    lines: Seq<LineView>,
    name: Seq<char>,
    labels: Seq<(Seq<char>, Seq<char>)>,
    value: ValueView,
) -> bool {
    lines.contains(LineView::Sample { name, labels, value })
}

/// Whether a metric is shown as one if something holds, and as zero if it does not.
pub open spec fn says_whether(
    lines: Seq<LineView>,
    name: Seq<char>,
    labels: Seq<(Seq<char>, Seq<char>)>,
    condition: bool,
) -> bool {
    &&& condition ==> says(lines, name, labels, ValueView::Integer(1))
    &&& !condition ==> says(lines, name, labels, ValueView::Integer(0))
}

/// Whether a metric is shown as what a part is of a whole, and as another number where there is no
/// whole.
pub open spec fn says_share(
    lines: Seq<LineView>,
    name: Seq<char>,
    labels: Seq<(Seq<char>, Seq<char>)>,
    part: int,
    whole: int,
    otherwise: int,
) -> bool {
    &&& whole != 0 ==> says(
        lines,
        name,
        labels,
        ValueView::Quotient { numerator: part, denominator: whole },
    )
    &&& whole == 0 ==> says(lines, name, labels, ValueView::Integer(otherwise))
}

/// What is shown in a part is shown in the whole.
pub proof fn lemma_joined(a: Seq<LineView>, b: Seq<LineView>)
    ensures
        forall|x: LineView| #[trigger] a.contains(x) ==> (a + b).contains(x),
        forall|x: LineView| #[trigger] b.contains(x) ==> (a + b).contains(x),
        forall|x: LineView| #[trigger] (a + b).contains(x) ==> a.contains(x) || b.contains(x),
{
    assert forall|x: LineView| #[trigger] a.contains(x) implies (a + b).contains(x) by {
        let i = choose|i: int| 0 <= i < a.len() && a[i] == x;
        assert((a + b)[i] == x);
    }
    assert forall|x: LineView| #[trigger] b.contains(x) implies (a + b).contains(x) by {
        let i = choose|i: int| 0 <= i < b.len() && b[i] == x;
        assert((a + b)[a.len() + i] == x);
    }
    assert forall|x: LineView| #[trigger] (a + b).contains(x) implies a.contains(x) || b.contains(
        x,
    ) by {
        let i = choose|i: int| 0 <= i < (a + b).len() && (a + b)[i] == x;
        if i < a.len() {
            assert(a[i] == x);
        } else {
            assert(b[i - a.len()] == x);
        }
    }
}

/// The labels of a channel.
pub open spec fn labels_of(channel: Json, i: int) -> Seq<(Seq<char>, Seq<char>)> {
    seq![
        ("channel"@, channel_name(channel, i)),
        ("peer"@, channel.text_or("peer_id"@, "unknown"@)),
    ]
}

/// A channel is named by its short id, else by its id, else by its place in the list.
pub proof fn law_channels_are_named_by_their_ids(channel: Json, i: int)
    ensures
        channel.field("short_channel_id"@) matches Some(Json::Text(id)) ==> channel_name(channel, i)
            == id@,
        channel.field("short_channel_id"@) is None ==> (channel.field("channel_id"@) matches Some(
            Json::Text(id),
        ) ==> channel_name(channel, i) == id@),
        channel.field("short_channel_id"@) is None && channel.field("channel_id"@) is None
            ==> channel_name(channel, i) == "pending-"@ + decimal(i as nat),
{
}

proof fn lemma_lines_of_a_channel(channels: Seq<Json>, context: ChannelContext, i: int)
    requires
        0 <= i < channels.len(),
    ensures
        forall|x: LineView| #[trigger]
            channel_lines(channels[i], i, context).contains(x) ==> each_channel_lines(
                channels,
                context,
            ).contains(x),
    decreases channels.len(),
{
    let front = channels.drop_last();
    let last = channels.len() - 1;
    lemma_joined(each_channel_lines(front, context), channel_lines(channels.last(), last, context));
    if i < last {
        lemma_lines_of_a_channel(front, context, i);
        assert(front[i] == channels[i]);
    }
}

/// What is shown of each channel is shown on the page.
proof fn lemma_channel_is_shown(value: Json, channels: Vec<Json>, context: ChannelContext, i: int)
    requires
        value.field("channels"@) == Some(Json::Array(channels)),
        0 <= i < channels@.len(),
    ensures
        ({
            let all = channels_lines(value, context);
            let channel = channels@[i];
            let name = channel_name(channel, i);
            let peer = channel.text_or("peer_id"@, "unknown"@);
            &&& forall|x: LineView| #[trigger]
                state_lines(channel, name, peer).contains(x) ==> all.contains(x)
            &&& forall|x: LineView| #[trigger]
                liquidity_lines(channel, name, peer, context.target_percent).contains(x)
                    ==> all.contains(x)
            &&& forall|x: LineView| #[trigger]
                htlc_lines(
                    channel,
                    name,
                    peer,
                    context.blockheight,
                    context.htlc_warning_blocks,
                ).contains(x) ==> all.contains(x)
            &&& forall|x: LineView| #[trigger]
                feerate_lines(channel, name, peer, referent(context.feerates)).contains(x)
                    ==> all.contains(x)
            &&& forall|x: LineView| #[trigger]
                splice_lines(channel, name, peer).contains(x) ==> all.contains(x)
        }),
{
    let channel = channels@[i];
    let name = channel_name(channel, i);
    let peer = channel.text_or("peer_id"@, "unknown"@);
    let s = state_lines(channel, name, peer);
    let l = liquidity_lines(channel, name, peer, context.target_percent);
    let h = htlc_lines(channel, name, peer, context.blockheight, context.htlc_warning_blocks);
    let f = feerate_lines(channel, name, peer, referent(context.feerates));
    let p = splice_lines(channel, name, peer);
    lemma_joined(s, l);
    lemma_joined(s + l, h);
    lemma_joined(s + l + h, f);
    lemma_joined(s + l + h + f, p);
    lemma_lines_of_a_channel(channels@, context, i);
    lemma_joined(
        each_channel_lines(channels@, context),
        count_lines("cln_channels"@, "state"@, state_counts(channels@)),
    );
    assert(channel_lines(channel, i, context) == s + l + h + f + p);
}

/// Of every channel it is shown whether its peer is connected, which state it is in, and whether it is
/// being closed on the chain.
pub proof fn law_states_of_channels_are_shown(
    value: Json,
    channels: Vec<Json>,
    context: ChannelContext,
    i: int,
)
    requires
        value.field("channels"@) == Some(Json::Array(channels)),
        0 <= i < channels@.len(),
    ensures
        ({
            let all = channels_lines(value, context);
            let channel = channels@[i];
            let labels = labels_of(channel, i);
            let state = channel.text_or("state"@, "unknown"@);
            &&& says_whether(
                all,
                "cln_channel_connected"@,
                labels,
                channel.field("peer_connected"@) == Some(Json::Bool(true)),
            )
            &&& says(
                all,
                "cln_channel_state"@,
                labels.push(("state"@, state)),
                ValueView::Integer(1),
            )
            &&& says_whether(
                all,
                "cln_channel_onchain"@,
                labels,
                state == "ONCHAIN"@ || state == "FUNDING_SPEND_SEEN"@ || state
                    == "AWAITING_UNILATERAL"@,
            )
        }),
{
    lemma_channel_is_shown(value, channels, context, i);
    let channel = channels@[i];
    let name = channel_name(channel, i);
    let peer = channel.text_or("peer_id"@, "unknown"@);
    let lines = state_lines(channel, name, peer);
    assert(lines.contains(lines[0]));
    assert(lines.contains(lines[1]));
    assert(lines.contains(lines[2]));
    let state = channel.text_or("state"@, "unknown"@);
    assert(labels_of(channel, i).push(("state"@, state)) =~= seq![
        ("channel"@, name),
        ("peer"@, peer),
        ("state"@, state),
    ]);
}

/// Of every channel its capacity is shown, and what can be sent and received through it: as amounts, as
/// shares of the capacity, and as what is missing to the share that is aimed for.
pub proof fn law_liquidity_of_channels_is_shown(
    value: Json,
    channels: Vec<Json>,
    context: ChannelContext,
    i: int,
)
    requires
        value.field("channels"@) == Some(Json::Array(channels)),
        0 <= i < channels@.len(),
    ensures
        ({
            let all = channels_lines(value, context);
            let channel = channels@[i];
            let labels = labels_of(channel, i);
            let capacity = channel.millisatoshi_or_zero("total_msat"@) as int;
            let spendable = channel.millisatoshi_or_zero("spendable_msat"@) as int;
            let receivable = channel.millisatoshi_or_zero("receivable_msat"@) as int;
            &&& says(all, "cln_channel_capacity_msat"@, labels, ValueView::Integer(capacity))
            &&& says(all, "cln_channel_spendable_msat"@, labels, ValueView::Integer(spendable))
            &&& says(all, "cln_channel_receivable_msat"@, labels, ValueView::Integer(receivable))
            &&& says_share(
                all,
                "cln_channel_outbound_liquidity_ratio"@,
                labels,
                spendable,
                capacity,
                0,
            )
            &&& says_share(
                all,
                "cln_channel_inbound_liquidity_ratio"@,
                labels,
                receivable,
                capacity,
                0,
            )
            &&& forall|target: int|
                capacity * context.target_percent <= u64::MAX && 100 * target <= capacity
                    * context.target_percent < 100 * target + 100 ==> #[trigger] misses(
                    all,
                    labels,
                    "cln_channel_outbound_liquidity_shortfall_msat"@,
                    spendable,
                    target,
                ) && #[trigger] misses(
                    all,
                    labels,
                    "cln_channel_inbound_liquidity_shortfall_msat"@,
                    receivable,
                    target,
                )
        }),
{
    lemma_channel_is_shown(value, channels, context, i);
    let channel = channels@[i];
    let name = channel_name(channel, i);
    let peer = channel.text_or("peer_id"@, "unknown"@);
    let lines = liquidity_lines(channel, name, peer, context.target_percent);
    let n = funding_lines(channel, name, peer).len() as int;
    assert(lines.contains(lines[0]));
    assert(lines.contains(lines[1]));
    assert(lines.contains(lines[2]));
    assert(lines.contains(lines[n + 3]));
    assert(lines.contains(lines[n + 4]));
    assert(lines.contains(lines[n + 5]));
    assert(lines.contains(lines[n + 6]));
}

/// Whether what is missing of an amount to a target is shown: nothing, once the target is reached.
pub open spec fn misses(
    lines: Seq<LineView>,
    labels: Seq<(Seq<char>, Seq<char>)>,
    name: Seq<char>,
    amount: int,
    target: int,
) -> bool {
    &&& amount >= target ==> says(lines, name, labels, ValueView::Integer(0))
    &&& amount < target ==> says(lines, name, labels, ValueView::Integer(target - amount))
}

/// The fees that were paid and received for the opening of a channel are shown where they are known.
pub proof fn law_funding_fees_are_shown(
    value: Json,
    channels: Vec<Json>,
    context: ChannelContext,
    i: int,
    funding: Json,
)
    requires
        value.field("channels"@) == Some(Json::Array(channels)),
        0 <= i < channels@.len(),
        channels@[i].field("funding"@) == Some(funding),
    ensures
        ({
            let all = channels_lines(value, context);
            let labels = labels_of(channels@[i], i);
            &&& funding.millisatoshi_at("fee_paid_msat"@) matches Some(fee) ==> says(
                all,
                "cln_channel_funding_fee_paid_msat"@,
                labels,
                ValueView::Integer(fee as int),
            )
            &&& funding.millisatoshi_at("fee_rcvd_msat"@) matches Some(fee) ==> says(
                all,
                "cln_channel_funding_fee_received_msat"@,
                labels,
                ValueView::Integer(fee as int),
            )
        }),
{
    lemma_channel_is_shown(value, channels, context, i);
    let channel = channels@[i];
    let name = channel_name(channel, i);
    let peer = channel.text_or("peer_id"@, "unknown"@);
    let fees = funding_lines(channel, name, peer);
    let lines = liquidity_lines(channel, name, peer, context.target_percent);
    assert forall|j: int| 0 <= j < fees.len() implies lines.contains(#[trigger] fees[j]) by {
        assert(lines[3 + j] == fees[j]);
    }
    if funding.millisatoshi_at("fee_paid_msat"@) is Some {
        assert(lines.contains(fees[0]));
    }
    if funding.millisatoshi_at("fee_rcvd_msat"@) is Some {
        assert(lines.contains(fees[fees.len() - 1]));
    }
}

/// Whether an HTLC has expired or expires within so many blocks.
pub open spec fn is_due(htlc: Json, blockheight: u64, window: u64) -> bool {
    htlc.unsigned_at("expiry"@) matches Some(expiry) && expiry <= blockheight + window
}

/// The HTLCs near their expiry are those that expire at most so many blocks after the present one.
pub proof fn law_near_expiry_counts_what_is_due(htlcs: Seq<Json>, blockheight: u64, window: u64)
    ensures
        near_expiry(htlcs, blockheight, window) == htlcs.filter(
            |htlc: Json| is_due(htlc, blockheight, window),
        ).len(),
    decreases htlcs.len(),
{
    if htlcs.len() > 0 {
        law_near_expiry_counts_what_is_due(htlcs.drop_last(), blockheight, window);
        lemma_filter_grows(htlcs, |htlc: Json| is_due(htlc, blockheight, window));
    } else {
        reveal(Seq::filter);
    }
}

/// The number of HTLCs near their expiry does not shrink when the window grows or the chain does.
pub proof fn law_near_expiry_does_not_shrink(
    htlcs: Seq<Json>,
    blockheight: u64,
    window: u64,
    height: u64,
    wider: u64,
)
    requires
        blockheight <= height,
        window <= wider,
    ensures
        0 <= near_expiry(htlcs, blockheight, window) <= near_expiry(htlcs, height, wider)
            <= htlcs.len(),
    decreases htlcs.len(),
{
    if htlcs.len() > 0 {
        law_near_expiry_does_not_shrink(htlcs.drop_last(), blockheight, window, height, wider);
    }
}

/// One more HTLC raises the number of those near their expiry by one if it has expired or expires
/// within the window, and leaves it as it is if it expires later.
pub proof fn law_a_due_htlc_is_counted(
    htlcs: Seq<Json>,
    htlc: Json,
    blockheight: u64,
    window: u64,
    expiry: u64,
)
    requires
        htlc.unsigned_at("expiry"@) == Some(expiry),
    ensures
        expiry <= blockheight + window ==> near_expiry(htlcs.push(htlc), blockheight, window)
            == near_expiry(htlcs, blockheight, window) + 1,
        expiry > blockheight + window ==> near_expiry(htlcs.push(htlc), blockheight, window)
            == near_expiry(htlcs, blockheight, window),
{
    assert(htlcs.push(htlc).drop_last() =~= htlcs);
}

/// The earliest expiry is that of one of the HTLCs, and none expires earlier.
pub proof fn law_the_earliest_expiry_is_the_least(htlcs: Seq<Json>)
    ensures
        match earliest_expiry(htlcs) {
            Some(earliest) => {
                &&& exists|j: int|
                    0 <= j < htlcs.len() && (#[trigger] htlcs[j]).unsigned_at("expiry"@) == Some(
                        earliest,
                    )
                &&& forall|j: int|
                    0 <= j < htlcs.len() ==> ((#[trigger] htlcs[j]).unsigned_at("expiry"@) matches Some(
                        expiry,
                    ) ==> earliest <= expiry)
            },
            None => forall|j: int|
                0 <= j < htlcs.len() ==> (#[trigger] htlcs[j]).unsigned_at("expiry"@) is None,
        },
    decreases htlcs.len(),
{
    if htlcs.len() > 0 {
        let front = htlcs.drop_last();
        law_the_earliest_expiry_is_the_least(front);
        assert forall|j: int| 0 <= j < front.len() implies front[j] == #[trigger] htlcs[j] by {}
        if let Some(before) = earliest_expiry(front) {
            let j = choose|j: int|
                0 <= j < front.len() && (#[trigger] front[j]).unsigned_at("expiry"@) == Some(before);
            assert(htlcs[j].unsigned_at("expiry"@) == Some(before));
        }
        assert(htlcs[htlcs.len() - 1] == htlcs.last());
    }
}

/// Of every channel it is shown how many HTLCs it holds, how many of them are near their expiry, when
/// the first of them expires and in how many blocks, and which part of the slots is taken.
pub proof fn law_htlcs_of_channels_are_shown(
    value: Json,
    channels: Vec<Json>,
    context: ChannelContext,
    i: int,
)
    requires
        value.field("channels"@) == Some(Json::Array(channels)),
        0 <= i < channels@.len(),
    ensures
        ({
            let all = channels_lines(value, context);
            let channel = channels@[i];
            let labels = labels_of(channel, i);
            let htlcs = channel.elements_at("htlcs"@);
            let height = context.blockheight;
            let window = context.htlc_warning_blocks;
            &&& says(all, "cln_channel_htlcs"@, labels, ValueView::Integer(htlcs.len() as int))
            &&& says(
                all,
                "cln_channel_htlcs_near_expiry"@,
                labels,
                ValueView::Integer(
                    htlcs.filter(|htlc: Json| is_due(htlc, height, window)).len() as int,
                ),
            )
            &&& earliest_expiry(htlcs) matches Some(expiry) ==> {
                &&& says(
                    all,
                    "cln_channel_earliest_htlc_expiry_height"@,
                    labels,
                    ValueView::Integer(expiry as int),
                )
                &&& misses(
                    all,
                    labels,
                    "cln_channel_earliest_htlc_expiry_blocks"@,
                    height as int,
                    expiry as int,
                )
            }
            &&& channel.unsigned_at("max_accepted_htlcs"@) matches Some(slots) ==> says_share(
                all,
                "cln_channel_htlc_slot_utilization_ratio"@,
                labels,
                htlcs.len() as int,
                slots as int,
                0,
            )
        }),
{
    lemma_channel_is_shown(value, channels, context, i);
    let channel = channels@[i];
    let name = channel_name(channel, i);
    let peer = channel.text_or("peer_id"@, "unknown"@);
    let htlcs = channel.elements_at("htlcs"@);
    let lines = htlc_lines(channel, name, peer, context.blockheight, context.htlc_warning_blocks);
    law_near_expiry_counts_what_is_due(htlcs, context.blockheight, context.htlc_warning_blocks);
    let n: int = if earliest_expiry(htlcs) is Some {
        2
    } else {
        0
    };
    assert(lines.contains(lines[0]));
    assert(lines.contains(lines[n + 1]));
    if n == 2 {
        assert(lines.contains(lines[1]));
        assert(lines.contains(lines[2]));
    }
    if channel.unsigned_at("max_accepted_htlcs"@) is Some {
        assert(lines.contains(lines[n + 2]));
    }
}

/// A channel has anchors if and only if one of the names of its type speaks of them.
pub proof fn law_anchors_are_known_by_the_type(channel: Json)
    ensures
        is_anchor(channel) <==> (channel.field2("channel_type"@, "names"@) matches Some(Json::Array(
            names,
        )) && exists|j: int, at: int|
            0 <= j < names@.len() && speaks_of_anchors(#[trigger] names@[j], #[trigger] place(at))),
{
    if is_anchor(channel) {
        let names = channel.field2("channel_type"@, "names"@)->0->Array_0;
        let j = choose|j: int|
            0 <= j < names@.len() && match (#[trigger] names@[j]).text() {
                Some(text) => crate::text::contains_text(text, "anchor"@),
                None => false,
            };
        let text = names@[j].text()->0;
        let at = choose|at: int|
            0 <= at <= text.len() - "anchor"@.len() && #[trigger] text.subrange(
                at,
                at + "anchor"@.len(),
            ) == "anchor"@;
        reveal_strlit("anchor");
        assert(speaks_of_anchors(names@[j], place(at)));
    }
    if let Some(Json::Array(names)) = channel.field2("channel_type"@, "names"@) {
        if exists|j: int, at: int|
            0 <= j < names@.len() && speaks_of_anchors(#[trigger] names@[j], #[trigger] place(at)) {
            let (j, at) = choose|j: int, at: int|
                0 <= j < names@.len() && speaks_of_anchors(
                    #[trigger] names@[j],
                    #[trigger] place(at),
                );
            reveal_strlit("anchor");
            let text = names@[j].text()->0;
            assert(text.subrange(at, at + "anchor"@.len()) == "anchor"@);
        }
    }
}

/// A place in a text.
pub open spec fn place(at: int) -> int {
    at
}

/// Whether the word for anchors stands at that place of a name.
pub open spec fn speaks_of_anchors(name: Json, at: int) -> bool {
    name matches Json::Text(text) && 0 <= at && at + 6 <= text@.len() && text@.subrange(at, at + 6)
        == "anchor"@
}

/// The feerate of a channel is shown where it is known. Where the present feerates are known too, it is
/// shown whether it lies between the least and the greatest acceptable one, and what it is of the one
/// that is recommended for closing a channel of its type.
pub proof fn law_feerates_of_channels_are_shown(
    value: Json,
    channels: Vec<Json>,
    context: ChannelContext,
    i: int,
    rate: u64,
)
    requires
        value.field("channels"@) == Some(Json::Array(channels)),
        0 <= i < channels@.len(),
        channels@[i].field2("feerate"@, "perkw"@) matches Some(found) && found.unsigned() == Some(rate),
    ensures
        ({
            let all = channels_lines(value, context);
            let channel = channels@[i];
            let labels = labels_of(channel, i);
            &&& says(
                all,
                "cln_channel_commitment_feerate_perkw"@,
                labels,
                ValueView::Integer(rate as int),
            )
            &&& referent(context.feerates) matches Some(feerates) ==> (feerates.field("perkw"@) matches Some(
                perkw,
            ) ==> {
                &&& says_whether(
                    all,
                    "cln_channel_feerate_acceptable"@,
                    labels,
                    perkw.unsigned_at("min_acceptable"@) is Some && perkw.unsigned_at(
                        "max_acceptable"@,
                    ) is Some && perkw.unsigned_at("min_acceptable"@)->0 <= rate
                        && rate <= perkw.unsigned_at("max_acceptable"@)->0,
                )
                &&& is_anchor(channel) ==> (perkw.unsigned_at("unilateral_anchor_close"@) matches Some(
                    recommended,
                ) ==> says_share(
                    all,
                    "cln_channel_feerate_competitiveness_ratio"@,
                    labels,
                    rate as int,
                    recommended as int,
                    0,
                ))
                &&& !is_anchor(channel) ==> (perkw.unsigned_at("unilateral_close"@) matches Some(
                    recommended,
                ) ==> says_share(
                    all,
                    "cln_channel_feerate_competitiveness_ratio"@,
                    labels,
                    rate as int,
                    recommended as int,
                    0,
                ))
            })
        }),
{
    lemma_channel_is_shown(value, channels, context, i);
    let channel = channels@[i];
    let name = channel_name(channel, i);
    let peer = channel.text_or("peer_id"@, "unknown"@);
    let lines = feerate_lines(channel, name, peer, referent(context.feerates));
    assert(lines.contains(lines[0]));
    if lines.len() > 1 {
        assert(lines.contains(lines[1]));
        assert(lines.contains(lines[lines.len() - 1]));
    }
}

proof fn lemma_lines_of_a_candidate(
    inflights: Seq<Json>,
    name: Seq<char>,
    peer: Seq<char>,
    j: int,
)
    requires
        0 <= j < inflights.len(),
    ensures
        forall|x: LineView| #[trigger]
            candidate_lines(inflights[j], name, peer, j).contains(x) ==> candidates_lines(
                inflights,
                name,
                peer,
            ).contains(x),
    decreases inflights.len(),
{
    let front = inflights.drop_last();
    let last = inflights.len() - 1;
    lemma_joined(
        candidates_lines(front, name, peer),
        candidate_lines(inflights.last(), name, peer, last),
    );
    if j < last {
        lemma_lines_of_a_candidate(front, name, peer, j);
        assert(front[j] == inflights[j]);
    }
}

/// Of every channel it is shown how many splices are under way, and of each of them the amount, the
/// feerate and the funding.
pub proof fn law_splices_of_channels_are_shown(
    value: Json,
    channels: Vec<Json>,
    context: ChannelContext,
    i: int,
    j: int,
)
    requires
        value.field("channels"@) == Some(Json::Array(channels)),
        0 <= i < channels@.len(),
        0 <= j < channels@[i].elements_at("inflight"@).len(),
    ensures
        ({
            let all = channels_lines(value, context);
            let channel = channels@[i];
            let splices = channel.elements_at("inflight"@);
            let labels = labels_of(channel, i).push(("candidate"@, decimal(j as nat)));
            &&& says(
                all,
                "cln_channel_splice_inflight"@,
                labels_of(channel, i),
                ValueView::Integer(splices.len() as int),
            )
            &&& splices[j].signed_at("splice_amount"@) matches Some(amount) ==> says(
                all,
                "cln_channel_splice_amount_sat"@,
                labels,
                ValueView::Integer(amount as int),
            )
            &&& splices[j].field("feerate"@) matches Some(feerate) ==> (
            feerate.leading_number() matches Some(rate) ==> says(
                all,
                "cln_channel_splice_feerate_perkw"@,
                labels,
                ValueView::Integer(rate as int),
            ))
            &&& says(
                all,
                "cln_channel_splice_total_funding_msat"@,
                labels,
                ValueView::Integer(splices[j].millisatoshi_or_zero("total_funding_msat"@) as int),
            )
        }),
{
    lemma_channel_is_shown(value, channels, context, i);
    let channel = channels@[i];
    let name = channel_name(channel, i);
    let peer = channel.text_or("peer_id"@, "unknown"@);
    let splices = channel.elements_at("inflight"@);
    let lines = splice_lines(channel, name, peer);
    let own = candidate_lines(splices[j], name, peer, j);
    lemma_lines_of_a_candidate(splices, name, peer, j);
    lemma_joined(
        seq![
            crate::channels::channel_line(
                "cln_channel_splice_inflight"@,
                name,
                peer,
                ValueView::Integer(splices.len() as int),
            ),
        ],
        candidates_lines(splices, name, peer),
    );
    assert(lines.contains(lines[0]));
    assert(own.contains(own[0]));
    assert(own.contains(own[1]));
    assert(own.contains(own[2]));
    assert(labels_of(channel, i).push(("candidate"@, decimal(j as nat))) =~= seq![
        ("channel"@, name),
        ("peer"@, peer),
        ("candidate"@, decimal(j as nat)),
    ]);
}

/// Counting one more of a key raises its count by one and leaves the others.
pub proof fn lemma_incremented_counts(
    entries: Entries<u64>,
    key: Seq<Seq<char>>,
    other: Seq<Seq<char>>,
)
    requires
        ascending(entries),
        value_of(entries, key) != Some(u64::MAX),
    ensures
        ascending(incremented(entries, key)),
        other != key ==> value_of(incremented(entries, key), other) == value_of(entries, other),
        value_of(incremented(entries, key), key) == Some(
            match value_of(entries, key) {
                Some(count) => (count + 1) as u64,
                None => 1u64,
            },
        ),
{
    let count = match value_of(entries, key) {
        Some(count) => count as int,
        None => 0,
    };
    law_put_then_get(entries, key, (count + 1) as u64, other);
}

/// Whether a channel is in a state.
pub open spec fn is_in_state(channel: Json, state: Seq<char>) -> bool {
    match channel.field("state"@) {
        Some(Json::Text(text)) => text@ == state,
        _ => state == "unknown"@,
    }
}

proof fn lemma_states_are_counted(channels: Seq<Json>, state: Seq<char>)
    requires
        channels.len() <= u64::MAX,
    ensures
        ascending(state_counts(channels)),
        match value_of(state_counts(channels), seq![state]) {
            Some(count) => count > 0 && count == channels.filter(
                |channel: Json| is_in_state(channel, state),
            ).len(),
            None => channels.filter(|channel: Json| is_in_state(channel, state)).len() == 0,
        },
    decreases channels.len(),
{
    if channels.len() > 0 {
        let front = channels.drop_last();
        let own = channels.last().text_or("state"@, "unknown"@);
        lemma_states_are_counted(front, state);
        lemma_states_are_counted(front, own);
        lemma_filter_grows(channels, |channel: Json| is_in_state(channel, state));
        lemma_filter_is_part(front, |channel: Json| is_in_state(channel, own));
        lemma_incremented_counts(state_counts(front), seq![own], seq![state]);
        if own != state {
            assert(seq![own][0] != seq![state][0]);
        }
    } else {
        reveal(Seq::filter);
    }
}

/// A count that is kept for a key is shown.
pub proof fn lemma_count_is_shown(
    metric: Seq<char>,
    label: Seq<char>,
    counts: Entries<u64>,
    name: Seq<char>,
    count: u64,
)
    requires
        value_of(counts, seq![name]) == Some(count),
    ensures
        says(
            count_lines(metric, label, counts),
            metric,
            seq![(label, name)],
            ValueView::Integer(count as int),
        ),
{
    let i = crate::ordered::place_of(counts, seq![name]);
    crate::ordered::lemma_place_of(counts, seq![name]);
    let lines = count_lines(metric, label, counts);
    assert(seq![name][0] == name);
    assert(lines[i] == LineView::Sample {
        name: metric,
        labels: seq![(label, name)],
        value: ValueView::Integer(count as int),
    });
}

/// Of every state that a channel is in, the number of channels in it is shown.
pub proof fn law_channels_are_counted_by_state(
    value: Json,
    channels: Vec<Json>,
    context: ChannelContext,
    state: Seq<char>,
)
    requires
        value.field("channels"@) == Some(Json::Array(channels)),
        channels@.len() <= u64::MAX,
        channels@.filter(|channel: Json| is_in_state(channel, state)).len() > 0,
    ensures
        says(
            channels_lines(value, context),
            "cln_channels"@,
            seq![("state"@, state)],
            ValueView::Integer(
                channels@.filter(|channel: Json| is_in_state(channel, state)).len() as int,
            ),
        ),
{
    lemma_states_are_counted(channels@, state);
    let counts = state_counts(channels@);
    let count = value_of(counts, seq![state])->0;
    lemma_count_is_shown("cln_channels"@, "state"@, counts, state, count);
    lemma_joined(
        each_channel_lines(channels@, context),
        count_lines("cln_channels"@, "state"@, counts),
    );
}

/// One for what is known, nothing for what is not.
pub open spec fn one_if_known<T>(value: Option<T>) -> int {
    match value {
        Some(_) => 1,
        None => 0,
    }
}

/// The number of lines that a channel takes: those of its state, its liquidity, its HTLCs and its splices,
/// and those of its funding, its expiries, its slots and its feerate as far as they are known.
pub open spec fn line_count(channel: Json, context: ChannelContext) -> int {
    let funding = match channel.field("funding"@) {
        Some(funding) => one_if_known(funding.millisatoshi_at("fee_paid_msat"@)) + one_if_known(
            funding.millisatoshi_at("fee_rcvd_msat"@),
        ),
        None => 0,
    };
    let htlcs = 2 * one_if_known(earliest_expiry(channel.elements_at("htlcs"@))) + one_if_known(
        channel.unsigned_at("max_accepted_htlcs"@),
    );
    let perkw = match referent(context.feerates) {
        Some(feerates) => feerates.field("perkw"@),
        None => None,
    };
    let known = channel.field2("feerate"@, "perkw"@) matches Some(rate) && rate.unsigned() is Some;
    let feerate = if !known {
        0
    } else {
        1 + match perkw {
            Some(perkw) => 1 + if is_anchor(channel) {
                one_if_known(perkw.unsigned_at("unilateral_anchor_close"@))
            } else {
                one_if_known(perkw.unsigned_at("unilateral_close"@))
            },
            None => 0,
        }
    };
    3 + 7 + 2 + 1 + funding + htlcs + feerate + 3 * channel.elements_at("inflight"@).len()
}

proof fn lemma_candidate_count(inflights: Seq<Json>, name: Seq<char>, peer: Seq<char>)
    ensures
        candidates_lines(inflights, name, peer).len() == 3 * inflights.len(),
    decreases inflights.len(),
{
    if inflights.len() > 0 {
        lemma_candidate_count(inflights.drop_last(), name, peer);
    }
}

proof fn lemma_line_count(channels: Seq<Json>, context: ChannelContext)
    ensures
        each_channel_lines(channels, context).len() == sum_of(
            channels,
            |channel: Json| line_count(channel, context),
        ),
    decreases channels.len(),
{
    if channels.len() > 0 {
        let last = channels.last();
        let i = channels.len() - 1;
        lemma_line_count(channels.drop_last(), context);
        lemma_candidate_count(
            last.elements_at("inflight"@),
            channel_name(last, i),
            last.text_or("peer_id"@, "unknown"@),
        );
        assert(channel_lines(last, i, context).len() == line_count(last, context));
    }
}

/// Nothing else is shown of the channels: every channel takes the lines of what is known of it, and every
/// state one more.
pub proof fn law_nothing_else_is_shown_of_channels(
    value: Json,
    channels: Vec<Json>,
    context: ChannelContext,
)
    requires
        value.field("channels"@) == Some(Json::Array(channels)),
    ensures
        channels_lines(value, context).len() == sum_of(
            channels@,
            |channel: Json| line_count(channel, context),
        ) + state_counts(channels@).len(),
{
    lemma_line_count(channels@, context);
}

} // verus!
