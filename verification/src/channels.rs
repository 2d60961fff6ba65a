//! The channel collector: liquidity, pending HTLCs, feerates and splices of every channel.

use crate::exposition::{
    integer, line1, line2, line3, share, share_value, truth, truth_value, unsigned_value, LineView,
    Metrics, SampleValue, ValueView,
};
use crate::json::{leading_u64, referent, Json};
use crate::ordered::{
    counts_within, incremented, lemma_counts_within, Entries, Key, OrderedMap,
};
use crate::text::{contains_text, decimal, decimal_text, has_text, joined, same_text};
use vstd::prelude::*;

verus! {

/// The product, or the greatest 64-bit number where it is larger.
pub open spec fn capped_product(a: u64, b: u64) -> u64 {
    if a * b > u64::MAX {
        u64::MAX
    } else {
        (a * b) as u64
    }
}

/// The difference, or 0 where it is negative.
pub open spec fn difference_or_zero(a: int, b: int) -> int {
    if a > b {
        a - b
    } else {
        0
    }
}

/// Multiplies without exceeding 64 bits.
pub fn multiply_capped(a: u64, b: u64) -> (r: u64)
    ensures
        r == capped_product(a, b),
{
    assert(a * b <= u128::MAX) by (nonlinear_arith)
        requires
            a <= u64::MAX,
            b <= u64::MAX,
    ;
    let product: u128 = a as u128 * b as u128;
    if product > u64::MAX as u128 {
        u64::MAX
    } else {
        product as u64
    }
}

/// The name that a channel goes by: its short channel id, else its channel id, else its position.
pub open spec fn channel_name(channel: Json, index: int) -> Seq<char> {
    let named = match channel.field("short_channel_id"@) {
        Some(value) => Some(value),
        None => channel.field("channel_id"@),
    };
    let text = match named {
        Some(value) => value.text(),
        None => None,
    };
    match text {
        Some(text) => text,
        None => "pending-"@ + decimal(index as nat),
    }
}

/// A sample about one channel.
pub open spec fn channel_line(
    name: Seq<char>,
    channel: Seq<char>,
    peer: Seq<char>,
    value: ValueView,
) -> LineView {
    line2(name, "channel"@, channel, "peer"@, peer, value)
}

/// A sample about one channel, or none where there is no value.
pub open spec fn optional_channel_line(
    name: Seq<char>,
    channel: Seq<char>,
    peer: Seq<char>,
    value: Option<u64>,
) -> Seq<LineView> {
    match value {
        Some(n) => seq![channel_line(name, channel, peer, integer(n as int))],
        None => seq![],
    }
}

/// The states of a channel whose funding output is spent or about to be.
pub open spec fn is_onchain(state: Seq<char>) -> bool {
    state == "AWAITING_UNILATERAL"@ || state == "FUNDING_SPEND_SEEN"@ || state == "ONCHAIN"@
}

/// Connection and state of a channel.
pub open spec fn state_lines(channel: Json, name: Seq<char>, peer: Seq<char>) -> Seq<LineView> {
    let state = channel.text_or("state"@, "unknown"@);
    seq![
        channel_line(
            "cln_channel_connected"@,
            name,
            peer,
            truth(channel.holds("peer_connected"@)),
        ),
        line3(
            "cln_channel_state"@,
            "channel"@,
            name,
            "peer"@,
            peer,
            "state"@,
            state,
            integer(1),
        ),
        channel_line("cln_channel_onchain"@, name, peer, truth(is_onchain(state))),
    ]
}

/// The least liquidity that a channel should have in either direction.
pub open spec fn liquidity_target(capacity: u64, percent: u64) -> int {
    capped_product(capacity, percent) as int / 100
}

/// The fees paid and received when the channel was funded.
pub open spec fn funding_lines(channel: Json, name: Seq<char>, peer: Seq<char>) -> Seq<LineView> {
    match channel.field("funding"@) {
        Some(funding) => optional_channel_line(
            "cln_channel_funding_fee_paid_msat"@,
            name,
            peer,
            funding.millisatoshi_at("fee_paid_msat"@),
        ) + optional_channel_line(
            "cln_channel_funding_fee_received_msat"@,
            name,
            peer,
            funding.millisatoshi_at("fee_rcvd_msat"@),
        ),
        None => seq![],
    }
}

/// Capacity, liquidity in both directions, and what is missing to the target.
pub open spec fn liquidity_lines(
    channel: Json,
    name: Seq<char>,
    peer: Seq<char>,
    percent: u64,
) -> Seq<LineView> {
    let capacity = channel.millisatoshi_or_zero("total_msat"@);
    let spendable = channel.millisatoshi_or_zero("spendable_msat"@);
    let receivable = channel.millisatoshi_or_zero("receivable_msat"@);
    let target = liquidity_target(capacity, percent);
    seq![
        channel_line("cln_channel_capacity_msat"@, name, peer, integer(capacity as int)),
        channel_line("cln_channel_spendable_msat"@, name, peer, integer(spendable as int)),
        channel_line("cln_channel_receivable_msat"@, name, peer, integer(receivable as int)),
    ] + funding_lines(channel, name, peer) + seq![
        channel_line(
            "cln_channel_outbound_liquidity_ratio"@,
            name,
            peer,
            share(spendable as int, capacity as int, 0),
        ),
        channel_line(
            "cln_channel_inbound_liquidity_ratio"@,
            name,
            peer,
            share(receivable as int, capacity as int, 0),
        ),
        channel_line(
            "cln_channel_outbound_liquidity_shortfall_msat"@,
            name,
            peer,
            integer(difference_or_zero(target, spendable as int)),
        ),
        channel_line(
            "cln_channel_inbound_liquidity_shortfall_msat"@,
            name,
            peer,
            integer(difference_or_zero(target, receivable as int)),
        ),
    ]
}

/// The earliest of the expiry heights that the HTLCs have.
pub open spec fn earliest_expiry(htlcs: Seq<Json>) -> Option<u64>
    decreases htlcs.len(),
{
    if htlcs.len() == 0 {
        None
    } else {
        match (earliest_expiry(htlcs.drop_last()), htlcs.last().unsigned_at("expiry"@)) {
            (Some(a), Some(b)) => Some(
                if b < a {
                    b
                } else {
                    a
                },
            ),
            (Some(a), None) => Some(a),
            (None, b) => b,
        }
    }
}

/// How many HTLCs expire at most `window` blocks after `blockheight`.
pub open spec fn near_expiry(htlcs: Seq<Json>, blockheight: u64, window: u64) -> int
    decreases htlcs.len(),
{
    if htlcs.len() == 0 {
        0
    } else {
        near_expiry(htlcs.drop_last(), blockheight, window) + match htlcs.last().unsigned_at(
            "expiry"@,
        ) {
            Some(expiry) if difference_or_zero(expiry as int, blockheight as int) <= window => 1int,
            _ => 0int,
        }
    }
}

/// Pending HTLCs: their number, the nearest expiry, and how many slots they take.
pub open spec fn htlc_lines(
    channel: Json,
    name: Seq<char>,
    peer: Seq<char>,
    blockheight: u64,
    window: u64,
) -> Seq<LineView> {
    let htlcs = channel.elements_at("htlcs"@);
    let count = channel_line("cln_channel_htlcs"@, name, peer, integer(htlcs.len() as int));
    let earliest = match earliest_expiry(htlcs) {
        Some(expiry) => seq![
            channel_line(
                "cln_channel_earliest_htlc_expiry_height"@,
                name,
                peer,
                integer(expiry as int),
            ),
            channel_line(
                "cln_channel_earliest_htlc_expiry_blocks"@,
                name,
                peer,
                integer(difference_or_zero(expiry as int, blockheight as int)),
            ),
        ],
        None => seq![],
    };
    let near = channel_line(
        "cln_channel_htlcs_near_expiry"@,
        name,
        peer,
        integer(near_expiry(htlcs, blockheight, window)),
    );
    let slots = match channel.unsigned_at("max_accepted_htlcs"@) {
        Some(max) => seq![
            channel_line(
                "cln_channel_htlc_slot_utilization_ratio"@,
                name,
                peer,
                share(htlcs.len() as int, max as int, 0),
            ),
        ],
        None => seq![],
    };
    seq![count] + earliest + seq![near] + slots
}

/// Whether some element is a string in which `needle` occurs.
pub open spec fn some_text_contains(items: Seq<Json>, needle: Seq<char>) -> bool {
    exists|i: int|
        0 <= i < items.len() && match (#[trigger] items[i]).text() {
            Some(text) => contains_text(text, needle),
            None => false,
        }
}

/// Whether the channel type of a channel names anchor outputs.
pub open spec fn is_anchor(channel: Json) -> bool {
    match channel.field2("channel_type"@, "names"@) {
        Some(names) => match names.elements() {
            Some(items) => some_text_contains(items, "anchor"@),
            None => false,
        },
        None => false,
    }
}

/// Whether a feerate is within the acceptable bounds, where both are known.
pub open spec fn is_acceptable(feerate: u64, perkw: Json) -> bool {
    match (perkw.unsigned_at("min_acceptable"@), perkw.unsigned_at("max_acceptable"@)) {
        (Some(min), Some(max)) => min <= feerate <= max,
        _ => false,
    }
}

/// The feerate of a channel against the node's current feerates.
pub open spec fn competitiveness_lines(
    channel: Json,
    name: Seq<char>,
    peer: Seq<char>,
    feerate: u64,
    perkw: Json,
) -> Seq<LineView> {
    let purpose = if is_anchor(channel) {
        "unilateral_anchor_close"@
    } else {
        "unilateral_close"@
    };
    let ratio = match perkw.unsigned_at(purpose) {
        Some(recommended) => seq![
            channel_line(
                "cln_channel_feerate_competitiveness_ratio"@,
                name,
                peer,
                share(feerate as int, recommended as int, 0),
            ),
        ],
        None => seq![],
    };
    ratio + seq![
        channel_line(
            "cln_channel_feerate_acceptable"@,
            name,
            peer,
            truth(is_acceptable(feerate, perkw)),
        ),
    ]
}

/// The commitment feerate of a channel.
pub open spec fn feerate_lines(
    channel: Json,
    name: Seq<char>,
    peer: Seq<char>,
    feerates: Option<Json>,
) -> Seq<LineView> {
    let feerate = match channel.field2("feerate"@, "perkw"@) {
        Some(value) => value.unsigned(),
        None => None,
    };
    let perkw = match feerates {
        Some(feerates) => feerates.field("perkw"@),
        None => None,
    };
    match feerate {
        Some(feerate) => seq![
            channel_line(
                "cln_channel_commitment_feerate_perkw"@,
                name,
                peer,
                integer(feerate as int),
            ),
        ] + match perkw {
            Some(perkw) => competitiveness_lines(channel, name, peer, feerate, perkw),
            None => seq![],
        },
        None => seq![],
    }
}

/// One candidate of a splice.
pub open spec fn candidate_lines(
    inflight: Json,
    name: Seq<char>,
    peer: Seq<char>,
    index: int,
) -> Seq<LineView> {
    let candidate = decimal(index as nat);
    let amount = match inflight.signed_at("splice_amount"@) {
        Some(amount) => amount,
        None => 0,
    };
    let feerate = match inflight.field("feerate"@) {
        Some(value) => match value.leading_number() {
            Some(feerate) => feerate,
            None => 0,
        },
        None => 0,
    };
    seq![
        line3(
            "cln_channel_splice_amount_sat"@,
            "channel"@,
            name,
            "peer"@,
            peer,
            "candidate"@,
            candidate,
            integer(amount as int),
        ),
        line3(
            "cln_channel_splice_feerate_perkw"@,
            "channel"@,
            name,
            "peer"@,
            peer,
            "candidate"@,
            candidate,
            integer(feerate as int),
        ),
        line3(
            "cln_channel_splice_total_funding_msat"@,
            "channel"@,
            name,
            "peer"@,
            peer,
            "candidate"@,
            candidate,
            integer(inflight.millisatoshi_or_zero("total_funding_msat"@) as int),
        ),
    ]
}

/// The candidates of the splices in flight.
pub open spec fn candidates_lines(
    inflights: Seq<Json>,
    name: Seq<char>,
    peer: Seq<char>,
) -> Seq<LineView>
    decreases inflights.len(),
{
    if inflights.len() == 0 {
        seq![]
    } else {
        candidates_lines(inflights.drop_last(), name, peer) + candidate_lines(
            inflights.last(),
            name,
            peer,
            inflights.len() - 1,
        )
    }
}

/// The splices in flight of a channel.
pub open spec fn splice_lines(channel: Json, name: Seq<char>, peer: Seq<char>) -> Seq<LineView> {
    let inflights = channel.elements_at("inflight"@);
    seq![
        channel_line(
            "cln_channel_splice_inflight"@,
            name,
            peer,
            integer(inflights.len() as int),
        ),
    ] + candidates_lines(inflights, name, peer)
}

/// What the channel collector is told besides the channels themselves.
pub struct ChannelContext<'a> {
    pub target_percent: u64,
    pub blockheight: u64,
    pub htlc_warning_blocks: u64,
    pub feerates: Option<&'a Json>,
}

/// Everything about one channel.
pub open spec fn channel_lines(channel: Json, index: int, context: ChannelContext) -> Seq<LineView> {
    let peer = channel.text_or("peer_id"@, "unknown"@);
    let name = channel_name(channel, index);
    state_lines(channel, name, peer) + liquidity_lines(channel, name, peer, context.target_percent)
        + htlc_lines(channel, name, peer, context.blockheight, context.htlc_warning_blocks)
        + feerate_lines(channel, name, peer, referent(context.feerates)) + splice_lines(
        channel,
        name,
        peer,
    )
}

/// Everything about every channel.
pub open spec fn each_channel_lines(channels: Seq<Json>, context: ChannelContext) -> Seq<LineView>
    decreases channels.len(),
{
    if channels.len() == 0 {
        seq![]
    } else {
        each_channel_lines(channels.drop_last(), context) + channel_lines(
            channels.last(),
            channels.len() - 1,
            context,
        )
    }
}

/// How many channels are in each state.
pub open spec fn state_counts(channels: Seq<Json>) -> Entries<u64>
    decreases channels.len(),
{
    if channels.len() == 0 {
        seq![]
    } else {
        incremented(
            state_counts(channels.drop_last()),
            seq![channels.last().text_or("state"@, "unknown"@)],
        )
    }
}

/// One sample for each counted key.
pub open spec fn count_lines(
    metric: Seq<char>,
    label: Seq<char>,
    counts: Entries<u64>,
) -> Seq<LineView> {
    Seq::new(
        counts.len(),
        |i: int| line1(metric, label, counts[i].0[0], integer(counts[i].1 as int)),
    )
}

/// What the channel collector writes for a `listpeerchannels` response.
pub open spec fn channels_lines(value: Json, context: ChannelContext) -> Seq<LineView> {
    match value.field("channels"@) {
        Some(Json::Array(channels)) => each_channel_lines(channels@, context) + count_lines(
            "cln_channels"@,
            "state"@,
            state_counts(channels@),
        ),
        _ => seq![],
    }
}

fn name_of_channel(channel: &Json, index: usize) -> (r: String)
    ensures
        r@ == channel_name(*channel, index as int),
{
    let named = match channel.get("short_channel_id") {
        Some(value) => Some(value),
        None => channel.get("channel_id"),
    };
    let text = match named {
        Some(value) => value.as_str(),
        None => None,
    };
    match text {
        Some(text) => text.to_owned(),
        None => {
            let digits = decimal_text(index as u128);
            joined("pending-", digits.as_str())
        },
    }
}

fn onchain(state: &str) -> (r: bool)
    ensures
        r == is_onchain(state@),
{
    same_text(state, "AWAITING_UNILATERAL") || same_text(state, "FUNDING_SPEND_SEEN") || same_text(
        state,
        "ONCHAIN",
    )
}

fn channel_sample(metrics: &mut Metrics, name: &str, channel: &str, peer: &str, value: SampleValue)
    ensures
        final(metrics)@ == old(metrics)@.push(channel_line(name@, channel@, peer@, value@)),
{
    metrics.sample2(name, "channel", channel, "peer", peer, value);
}

fn optional_channel_sample(
    metrics: &mut Metrics,
    name: &str,
    channel: &str,
    peer: &str,
    value: Option<u64>,
)
    ensures
        final(metrics)@ == old(metrics)@ + optional_channel_line(name@, channel@, peer@, value),
{
    if let Some(n) = value {
        channel_sample(metrics, name, channel, peer, unsigned_value(n));
    }
    assert(metrics@ =~= old(metrics)@ + optional_channel_line(name@, channel@, peer@, value));
}

fn collect_state(metrics: &mut Metrics, channel: &Json, name: &str, peer: &str)
    ensures
        final(metrics)@ == old(metrics)@ + state_lines(*channel, name@, peer@),
{
    let state = channel.text_field_or("state", "unknown");
    channel_sample(
        metrics,
        "cln_channel_connected",
        name,
        peer,
        truth_value(channel.flag("peer_connected")),
    );
    metrics.sample3(
        "cln_channel_state",
        "channel",
        name,
        "peer",
        peer,
        "state",
        state,
        SampleValue::Unsigned(1),
    );
    channel_sample(metrics, "cln_channel_onchain", name, peer, truth_value(onchain(state)));
    assert(metrics@ =~= old(metrics)@ + state_lines(*channel, name@, peer@));
}

fn collect_funding(metrics: &mut Metrics, channel: &Json, name: &str, peer: &str)
    ensures
        final(metrics)@ == old(metrics)@ + funding_lines(*channel, name@, peer@),
{
    if let Some(funding) = channel.get("funding") {
        optional_channel_sample(
            metrics,
            "cln_channel_funding_fee_paid_msat",
            name,
            peer,
            funding.msat_field("fee_paid_msat"),
        );
        optional_channel_sample(
            metrics,
            "cln_channel_funding_fee_received_msat",
            name,
            peer,
            funding.msat_field("fee_rcvd_msat"),
        );
    }
    assert(metrics@ =~= old(metrics)@ + funding_lines(*channel, name@, peer@));
}

fn collect_liquidity(metrics: &mut Metrics, channel: &Json, name: &str, peer: &str, percent: u64)
    ensures
        final(metrics)@ == old(metrics)@ + liquidity_lines(*channel, name@, peer@, percent),
{
    let capacity = channel.msat_field_or_zero("total_msat");
    let spendable = channel.msat_field_or_zero("spendable_msat");
    let receivable = channel.msat_field_or_zero("receivable_msat");
    let target: u64 = multiply_capped(capacity, percent) / 100;
    channel_sample(metrics, "cln_channel_capacity_msat", name, peer, unsigned_value(capacity));
    channel_sample(metrics, "cln_channel_spendable_msat", name, peer, unsigned_value(spendable));
    channel_sample(metrics, "cln_channel_receivable_msat", name, peer, unsigned_value(receivable));
    collect_funding(metrics, channel, name, peer);
    channel_sample(
        metrics,
        "cln_channel_outbound_liquidity_ratio",
        name,
        peer,
        share_value(spendable as u128, capacity as u128, 0),
    );
    channel_sample(
        metrics,
        "cln_channel_inbound_liquidity_ratio",
        name,
        peer,
        share_value(receivable as u128, capacity as u128, 0),
    );
    channel_sample(
        metrics,
        "cln_channel_outbound_liquidity_shortfall_msat",
        name,
        peer,
        unsigned_value(target.saturating_sub(spendable)),
    );
    channel_sample(
        metrics,
        "cln_channel_inbound_liquidity_shortfall_msat",
        name,
        peer,
        unsigned_value(target.saturating_sub(receivable)),
    );
    assert(metrics@ =~= old(metrics)@ + liquidity_lines(*channel, name@, peer@, percent));
}

fn expiry_summary(htlcs: &Vec<Json>, blockheight: u64, window: u64) -> (r: (Option<u64>, usize))
    ensures
        r.0 == earliest_expiry(htlcs@),
        r.1 == near_expiry(htlcs@, blockheight, window),
{
    let mut earliest: Option<u64> = None;
    let mut near: usize = 0;
    let mut i: usize = 0;
    assert(htlcs@.take(0) =~= seq![]);
    while i < htlcs.len()
        invariant
            i <= htlcs@.len(),
            near <= i,
            earliest == earliest_expiry(htlcs@.take(i as int)),
            near == near_expiry(htlcs@.take(i as int), blockheight, window),
        decreases htlcs@.len() - i,
    {
        assert(htlcs@.take(i + 1).drop_last() =~= htlcs@.take(i as int));
        if let Some(expiry) = htlcs[i].u64_field("expiry") {
            earliest = match earliest {
                Some(current) => if expiry < current {
                    Some(expiry)
                } else {
                    Some(current)
                },
                None => Some(expiry),
            };
            if expiry.saturating_sub(blockheight) <= window {
                near = near + 1;
            }
        }
        i = i + 1;
    }
    assert(htlcs@.take(i as int) =~= htlcs@);
    (earliest, near)
}

fn collect_htlcs(
    metrics: &mut Metrics,
    channel: &Json,
    name: &str,
    peer: &str,
    blockheight: u64,
    window: u64,
)
    ensures
        final(metrics)@ == old(metrics)@ + htlc_lines(
            *channel,
            name@,
            peer@,
            blockheight,
            window,
        ),
{
    let (count, summary): (usize, (Option<u64>, usize)) = match channel.array_field("htlcs") {
        Some(htlcs) => (htlcs.len(), expiry_summary(htlcs, blockheight, window)),
        None => (0, (None, 0)),
    };
    channel_sample(metrics, "cln_channel_htlcs", name, peer, unsigned_value(count as u64));
    if let Some(expiry) = summary.0 {
        channel_sample(
            metrics,
            "cln_channel_earliest_htlc_expiry_height",
            name,
            peer,
            unsigned_value(expiry),
        );
        channel_sample(
            metrics,
            "cln_channel_earliest_htlc_expiry_blocks",
            name,
            peer,
            unsigned_value(expiry.saturating_sub(blockheight)),
        );
    }
    channel_sample(
        metrics,
        "cln_channel_htlcs_near_expiry",
        name,
        peer,
        unsigned_value(summary.1 as u64),
    );
    if let Some(max) = channel.u64_field("max_accepted_htlcs") {
        channel_sample(
            metrics,
            "cln_channel_htlc_slot_utilization_ratio",
            name,
            peer,
            share_value(count as u128, max as u128, 0),
        );
    }
    assert(metrics@ =~= old(metrics)@ + htlc_lines(*channel, name@, peer@, blockheight, window));
}

/// Whether the channel type of a channel names anchor outputs.
pub fn channel_is_anchor(channel: &Json) -> (r: bool)
    ensures
        r == is_anchor(*channel),
{
    match channel.get2("channel_type", "names") {
        Some(names) => match names.as_array() {
            Some(items) => {
                let mut i: usize = 0;
                while i < items.len()
                    invariant
                        i <= items@.len(),
                        forall|j: int|
                            0 <= j < i ==> !(match (#[trigger] items@[j]).text() {
                                Some(text) => contains_text(text, "anchor"@),
                                None => false,
                            }),
                        is_anchor(*channel) == some_text_contains(items@, "anchor"@),
                    decreases items@.len() - i,
                {
                    if let Some(text) = items[i].as_str() {
                        if has_text(text, "anchor") {
                            assert(items@[i as int].text() == Some(text@));
                            return true;
                        }
                    }
                    i = i + 1;
                }
                false
            },
            None => false,
        },
        None => false,
    }
}

fn collect_competitiveness(
    metrics: &mut Metrics,
    channel: &Json,
    name: &str,
    peer: &str,
    feerate: u64,
    perkw: &Json,
)
    ensures
        final(metrics)@ == old(metrics)@ + competitiveness_lines(
            *channel,
            name@,
            peer@,
            feerate,
            *perkw,
        ),
{
    let purpose = if channel_is_anchor(channel) {
        "unilateral_anchor_close"
    } else {
        "unilateral_close"
    };
    if let Some(recommended) = perkw.u64_field(purpose) {
        channel_sample(
            metrics,
            "cln_channel_feerate_competitiveness_ratio",
            name,
            peer,
            share_value(feerate as u128, recommended as u128, 0),
        );
    }
    let acceptable = match (perkw.u64_field("min_acceptable"), perkw.u64_field("max_acceptable")) {
        (Some(min), Some(max)) => min <= feerate && feerate <= max,
        _ => false,
    };
    channel_sample(
        metrics,
        "cln_channel_feerate_acceptable",
        name,
        peer,
        truth_value(acceptable),
    );
    assert(metrics@ =~= old(metrics)@ + competitiveness_lines(
        *channel,
        name@,
        peer@,
        feerate,
        *perkw,
    ));
}

fn collect_feerate(
    metrics: &mut Metrics,
    channel: &Json,
    name: &str,
    peer: &str,
    feerates: Option<&Json>,
)
    ensures
        final(metrics)@ == old(metrics)@ + feerate_lines(
            *channel,
            name@,
            peer@,
            referent(feerates),
        ),
{
    let feerate = match channel.get2("feerate", "perkw") {
        Some(value) => value.as_u64(),
        None => None,
    };
    if let Some(feerate) = feerate {
        channel_sample(
            metrics,
            "cln_channel_commitment_feerate_perkw",
            name,
            peer,
            unsigned_value(feerate),
        );
        let perkw = match feerates {
            Some(feerates) => feerates.get("perkw"),
            None => None,
        };
        if let Some(perkw) = perkw {
            collect_competitiveness(metrics, channel, name, peer, feerate, perkw);
        }
    }
    assert(metrics@ =~= old(metrics)@ + feerate_lines(*channel, name@, peer@, referent(feerates)));
}

fn collect_candidate(metrics: &mut Metrics, inflight: &Json, name: &str, peer: &str, index: usize)
    ensures
        final(metrics)@ == old(metrics)@ + candidate_lines(*inflight, name@, peer@, index as int),
{
    let candidate = decimal_text(index as u128);
    let amount: i64 = match inflight.i64_field("splice_amount") {
        Some(amount) => amount,
        None => 0,
    };
    let feerate: u64 = match inflight.get("feerate") {
        Some(value) => match leading_u64(value) {
            Some(feerate) => feerate,
            None => 0,
        },
        None => 0,
    };
    metrics.sample3(
        "cln_channel_splice_amount_sat",
        "channel",
        name,
        "peer",
        peer,
        "candidate",
        candidate.as_str(),
        SampleValue::Signed(amount as i128),
    );
    metrics.sample3(
        "cln_channel_splice_feerate_perkw",
        "channel",
        name,
        "peer",
        peer,
        "candidate",
        candidate.as_str(),
        unsigned_value(feerate),
    );
    metrics.sample3(
        "cln_channel_splice_total_funding_msat",
        "channel",
        name,
        "peer",
        peer,
        "candidate",
        candidate.as_str(),
        unsigned_value(inflight.msat_field_or_zero("total_funding_msat")),
    );
    assert(metrics@ =~= old(metrics)@ + candidate_lines(*inflight, name@, peer@, index as int));
}

fn collect_splices(metrics: &mut Metrics, channel: &Json, name: &str, peer: &str)
    ensures
        final(metrics)@ == old(metrics)@ + splice_lines(*channel, name@, peer@),
{
    match channel.array_field("inflight") {
        Some(inflights) => {
            channel_sample(
                metrics,
                "cln_channel_splice_inflight",
                name,
                peer,
                unsigned_value(inflights.len() as u64),
            );
            let ghost head = metrics@;
            let mut i: usize = 0;
            assert(inflights@.take(0) =~= seq![]);
            while i < inflights.len()
                invariant
                    i <= inflights@.len(),
                    metrics@ =~= head + candidates_lines(
                        inflights@.take(i as int),
                        name@,
                        peer@,
                    ),
                decreases inflights@.len() - i,
            {
                assert(inflights@.take(i + 1).drop_last() =~= inflights@.take(i as int));
                collect_candidate(metrics, &inflights[i], name, peer, i);
                i = i + 1;
            }
            assert(inflights@.take(i as int) =~= inflights@);
        },
        None => {
            channel_sample(
                metrics,
                "cln_channel_splice_inflight",
                name,
                peer,
                SampleValue::Unsigned(0),
            );
            assert(channel.elements_at("inflight"@) =~= seq![]);
        },
    }
    assert(metrics@ =~= old(metrics)@ + splice_lines(*channel, name@, peer@));
}

fn collect_channel(metrics: &mut Metrics, channel: &Json, index: usize, context: &ChannelContext)
    ensures
        final(metrics)@ == old(metrics)@ + channel_lines(*channel, index as int, *context),
{
    let peer = channel.text_field_or("peer_id", "unknown");
    let name = name_of_channel(channel, index);
    collect_state(metrics, channel, name.as_str(), peer);
    collect_liquidity(metrics, channel, name.as_str(), peer, context.target_percent);
    collect_htlcs(
        metrics,
        channel,
        name.as_str(),
        peer,
        context.blockheight,
        context.htlc_warning_blocks,
    );
    collect_feerate(metrics, channel, name.as_str(), peer, context.feerates);
    collect_splices(metrics, channel, name.as_str(), peer);
    assert(metrics@ =~= old(metrics)@ + channel_lines(*channel, index as int, *context));
}

/// Writes one sample for each counted key.
pub fn write_counts(
    metrics: &mut Metrics,
    metric: &str,
    label: &str,
    counts: &OrderedMap<String, u64>,
)
    ensures
        final(metrics)@ == old(metrics)@ + count_lines(metric@, label@, counts@),
{
    let mut i: usize = 0;
    while i < counts.len()
        invariant
            i <= counts@.len(),
            metrics@ =~= old(metrics)@ + count_lines(metric@, label@, counts@).take(i as int),
        decreases counts@.len() - i,
    {
        let key = counts.key_at(i);
        assert(key.parts()[0] == key@);
        metrics.sample1(metric, label, key.as_str(), unsigned_value(*counts.value_at(i)));
        i = i + 1;
    }
    assert(metrics@ =~= old(metrics)@ + count_lines(metric@, label@, counts@));
}

/// Writes what there is to say about every channel of a `listpeerchannels` response.
pub fn collect_channels(
    metrics: &mut Metrics,
    value: &Json,
    target_percent: u64,
    blockheight: u64,
    htlc_warning_blocks: u64,
    feerates: Option<&Json>,
)
    ensures
        final(metrics)@ == old(metrics)@ + channels_lines(
            *value,
            (ChannelContext { target_percent, blockheight, htlc_warning_blocks, feerates }),
        ),
{
    let context = ChannelContext { target_percent, blockheight, htlc_warning_blocks, feerates };
    if let Some(channels) = value.array_field("channels") {
        let mut states: OrderedMap<String, u64> = OrderedMap::new();
        let mut i: usize = 0;
        assert(channels@.take(0) =~= seq![]);
        while i < channels.len()
            invariant
                i <= channels@.len(),
                metrics@ =~= old(metrics)@ + each_channel_lines(channels@.take(i as int), context),
                states@ == state_counts(channels@.take(i as int)),
                counts_within(states@, i as int),
            decreases channels@.len() - i,
        {
            assert(channels@.take(i + 1).drop_last() =~= channels@.take(i as int));
            let state = channels[i].text_field_or("state", "unknown").to_owned();
            proof {
                lemma_counts_within(states@, state.parts(), i as int);
            }
            states.increment(state);
            collect_channel(metrics, &channels[i], i, &context);
            i = i + 1;
        }
        assert(channels@.take(i as int) =~= channels@);
        write_counts(metrics, "cln_channels", "state", &states);
    }
    assert(metrics@ =~= old(metrics)@ + channels_lines(*value, context));
}

} // verus!
