//! What is recorded of a channel: its aliases, liquidity, pending HTLCs and policies.

use crate::events::capped_sum;
use crate::json::{amount_msat, amount_of, referent, Json};
use crate::text::{
    copy_text, decimal, decimal_text, joined, same_optional_text, same_text,
};
use vstd::prelude::*;
use vstd::std_specs::cmp::PartialEqSpecImpl;

verus! {

/// A name that a channel goes by, and what kind of name it is.
#[derive(Debug)]
pub struct ChannelAlias {
    pub kind: &'static str,
    pub value: String,
}

/// The texts of an alias.
pub struct AliasView {
    pub kind: Seq<char>,
    pub value: Seq<char>,
}

impl View for ChannelAlias {
    type V = AliasView;

    open spec fn view(&self) -> AliasView {
        AliasView { kind: self.kind@, value: self.value@ }
    }
}

impl DeepView for ChannelAlias {
    type V = AliasView;

    open spec fn deep_view(&self) -> AliasView {
        self@
    }
}

impl Clone for ChannelAlias {
    fn clone(&self) -> (r: Self)
        ensures
            r@ == self@,
    {
        ChannelAlias { kind: self.kind, value: self.value.clone() }
    }
}

impl PartialEq for ChannelAlias {
    fn eq(&self, other: &Self) -> (r: bool) {
        same_text(self.kind, other.kind) && same_text(self.value.as_str(), other.value.as_str())
    }
}

impl PartialEqSpecImpl for ChannelAlias {
    open spec fn obeys_eq_spec() -> bool {
        true
    }

    open spec fn eq_spec(&self, other: &Self) -> bool {
        self@ == other@
    }
}

/// What a side asks for forwarding over a channel.
#[derive(Clone, Copy, Debug, PartialEq, Eq, Structural)]
pub struct ChannelPolicy {
    pub fee_base_msat: Option<u64>,
    pub fee_ppm: Option<u64>,
    pub htlc_minimum_msat: Option<u64>,
    pub htlc_maximum_msat: Option<u64>,
    pub cltv_expiry_delta: Option<u64>,
}

/// A policy of which nothing is known.
pub open spec fn no_policy() -> ChannelPolicy {
    ChannelPolicy {
        fee_base_msat: None,
        fee_ppm: None,
        htlc_minimum_msat: None,
        htlc_maximum_msat: None,
        cltv_expiry_delta: None,
    }
}

impl Default for ChannelPolicy {
    fn default() -> (r: Self)
        ensures
            r == no_policy(),
    {
        ChannelPolicy {
            fee_base_msat: None,
            fee_ppm: None,
            htlc_minimum_msat: None,
            htlc_maximum_msat: None,
            cltv_expiry_delta: None,
        }
    }
}

/// The state of a channel at one time.
#[derive(Debug)]
pub struct ChannelSample {
    pub channel_key: String,
    pub aliases: Vec<ChannelAlias>,
    pub channel_id: Option<String>,
    pub short_channel_id: Option<String>,
    pub peer_id: String,
    pub state: String,
    pub connected: bool,
    pub reestablished: bool,
    pub capacity_msat: u64,
    pub to_us_msat: u64,
    pub spendable_msat: u64,
    pub receivable_msat: u64,
    pub htlc_in_count: u64,
    pub htlc_out_count: u64,
    pub htlc_in_msat: u64,
    pub htlc_out_msat: u64,
    pub blockheight: Option<u64>,
    pub htlc_min_expiry: Option<u64>,
    pub htlc_max_expiry: Option<u64>,
    pub htlc_hooked_count: u64,
    pub htlc_trimmed_count: u64,
    pub max_accepted_htlcs: Option<u64>,
    pub local_policy: ChannelPolicy,
    pub remote_policy: ChannelPolicy,
}

/// What two samples are compared by: everything but the aliases.
pub struct SampleView {
    pub channel_key: Seq<char>,
    pub channel_id: Option<Seq<char>>,
    pub short_channel_id: Option<Seq<char>>,
    pub peer_id: Seq<char>,
    pub state: Seq<char>,
    pub connected: bool,
    pub reestablished: bool,
    pub capacity_msat: u64,
    pub to_us_msat: u64,
    pub spendable_msat: u64,
    pub receivable_msat: u64,
    pub htlc_in_count: u64,
    pub htlc_out_count: u64,
    pub htlc_in_msat: u64,
    pub htlc_out_msat: u64,
    pub blockheight: Option<u64>,
    pub htlc_min_expiry: Option<u64>,
    pub htlc_max_expiry: Option<u64>,
    pub htlc_hooked_count: u64,
    pub htlc_trimmed_count: u64,
    pub max_accepted_htlcs: Option<u64>,
    pub local_policy: ChannelPolicy,
    pub remote_policy: ChannelPolicy,
}

impl View for ChannelSample {
    type V = SampleView;

    open spec fn view(&self) -> SampleView {
        SampleView {
            channel_key: self.channel_key@,
            channel_id: self.channel_id.deep_view(),
            short_channel_id: self.short_channel_id.deep_view(),
            peer_id: self.peer_id@,
            state: self.state@,
            connected: self.connected,
            reestablished: self.reestablished,
            capacity_msat: self.capacity_msat,
            to_us_msat: self.to_us_msat,
            spendable_msat: self.spendable_msat,
            receivable_msat: self.receivable_msat,
            htlc_in_count: self.htlc_in_count,
            htlc_out_count: self.htlc_out_count,
            htlc_in_msat: self.htlc_in_msat,
            htlc_out_msat: self.htlc_out_msat,
            blockheight: self.blockheight,
            htlc_min_expiry: self.htlc_min_expiry,
            htlc_max_expiry: self.htlc_max_expiry,
            htlc_hooked_count: self.htlc_hooked_count,
            htlc_trimmed_count: self.htlc_trimmed_count,
            max_accepted_htlcs: self.max_accepted_htlcs,
            local_policy: self.local_policy,
            remote_policy: self.remote_policy,
        }
    }
}

fn copy_aliases(aliases: &Vec<ChannelAlias>) -> (r: Vec<ChannelAlias>)
    ensures
        r.deep_view() == aliases.deep_view(),
{
    let mut r: Vec<ChannelAlias> = Vec::new();
    let mut i: usize = 0;
    while i < aliases.len()
        invariant
            i <= aliases@.len(),
            r.deep_view() =~= aliases.deep_view().take(i as int),
        decreases aliases@.len() - i,
    {
        let ghost before = r.deep_view();
        r.push(aliases[i].clone());
        assert(r.deep_view() =~= before.push(aliases.deep_view()[i as int]));
        i = i + 1;
    }
    r
}

impl Clone for ChannelSample {
    fn clone(&self) -> (r: Self)
        ensures
            r@ == self@,
            r.aliases.deep_view() == self.aliases.deep_view(),
    {
        ChannelSample {
            channel_key: self.channel_key.clone(),
            aliases: copy_aliases(&self.aliases),
            channel_id: copy_text(&self.channel_id),
            short_channel_id: copy_text(&self.short_channel_id),
            peer_id: self.peer_id.clone(),
            state: self.state.clone(),
            ..*self
        }
    }
}

impl PartialEq for ChannelSample {
    fn eq(&self, other: &Self) -> (r: bool) {
        same_text(self.channel_key.as_str(), other.channel_key.as_str()) && same_optional_text(
            &self.channel_id,
            &other.channel_id,
        ) && same_optional_text(&self.short_channel_id, &other.short_channel_id) && same_text(
            self.peer_id.as_str(),
            other.peer_id.as_str(),
        ) && same_text(self.state.as_str(), other.state.as_str()) && self.connected
            == other.connected && self.reestablished == other.reestablished && self.capacity_msat
            == other.capacity_msat && self.to_us_msat == other.to_us_msat && self.spendable_msat
            == other.spendable_msat && self.receivable_msat == other.receivable_msat
            && self.htlc_in_count == other.htlc_in_count && self.htlc_out_count
            == other.htlc_out_count && self.htlc_in_msat == other.htlc_in_msat
            && self.htlc_out_msat == other.htlc_out_msat && self.blockheight == other.blockheight
            && self.htlc_min_expiry == other.htlc_min_expiry && self.htlc_max_expiry
            == other.htlc_max_expiry && self.htlc_hooked_count == other.htlc_hooked_count
            && self.htlc_trimmed_count == other.htlc_trimmed_count && self.max_accepted_htlcs
            == other.max_accepted_htlcs && self.local_policy == other.local_policy
            && self.remote_policy == other.remote_policy
    }
}

impl PartialEqSpecImpl for ChannelSample {
    open spec fn obeys_eq_spec() -> bool {
        true
    }

    open spec fn eq_spec(&self, other: &Self) -> bool {
        self@ == other@
    }
}

/// The amount in a field, where there is such a field. One that is no amount counts as 0.
pub open spec fn amount_in(value: Json, field: Seq<char>) -> Option<u64> {
    match value.field(field) {
        Some(amount) => Some(amount_of(Some(amount))),
        None => None,
    }
}

/// The policy in an update.
pub open spec fn policy_of(value: Option<Json>) -> ChannelPolicy {
    match value {
        Some(update) => ChannelPolicy {
            fee_base_msat: amount_in(update, "fee_base_msat"@),
            fee_ppm: update.unsigned_at("fee_proportional_millionths"@),
            htlc_minimum_msat: amount_in(update, "htlc_minimum_msat"@),
            htlc_maximum_msat: amount_in(update, "htlc_maximum_msat"@),
            cltv_expiry_delta: update.unsigned_at("cltv_expiry_delta"@),
        },
        None => no_policy(),
    }
}

fn optional_amount_msat(value: &Json, field: &str) -> (r: Option<u64>)
    ensures
        r == amount_in(*value, field@),
{
    match value.get(field) {
        Some(amount) => Some(amount_msat(Some(amount))),
        None => None,
    }
}

impl ChannelPolicy {
    /// Reads the policy in an update.
    pub fn from_value(value: Option<&Json>) -> (r: Self)
        ensures
            r == policy_of(referent(value)),
    {
        match value {
            Some(update) => ChannelPolicy {
                fee_base_msat: optional_amount_msat(update, "fee_base_msat"),
                fee_ppm: update.u64_field("fee_proportional_millionths"),
                htlc_minimum_msat: optional_amount_msat(update, "htlc_minimum_msat"),
                htlc_maximum_msat: optional_amount_msat(update, "htlc_maximum_msat"),
                cltv_expiry_delta: update.u64_field("cltv_expiry_delta"),
            },
            None => ChannelPolicy::default(),
        }
    }
}

/// The pending HTLCs of a channel, taken together.
#[derive(Clone, Copy, Debug)]
pub struct HtlcSummary {
    pub in_count: u64,
    pub out_count: u64,
    pub in_msat: u64,
    pub out_msat: u64,
    pub min_expiry: Option<u64>,
    pub max_expiry: Option<u64>,
    pub hooked_count: u64,
    pub trimmed_count: u64,
}

/// No HTLCs.
pub open spec fn no_htlcs() -> HtlcSummary {
    HtlcSummary {
        in_count: 0,
        out_count: 0,
        in_msat: 0,
        out_msat: 0,
        min_expiry: None,
        max_expiry: None,
        hooked_count: 0,
        trimmed_count: 0,
    }
}

/// The smaller of a known minimum and one more value.
pub open spec fn lowered(current: Option<u64>, value: Option<u64>) -> Option<u64> {
    match (current, value) {
        (Some(current), Some(value)) => Some(
            if value < current {
                value
            } else {
                current
            },
        ),
        (Some(current), None) => Some(current),
        (None, value) => value,
    }
}

/// The greater of a known maximum and one more value.
pub open spec fn heightened(current: Option<u64>, value: Option<u64>) -> Option<u64> {
    match (current, value) {
        (Some(current), Some(value)) => Some(
            if value > current {
                value
            } else {
                current
            },
        ),
        (Some(current), None) => Some(current),
        (None, value) => value,
    }
}

/// A count with one more where the condition holds.
pub open spec fn counted(count: u64, condition: bool) -> u64 {
    if condition {
        capped_sum(count as int, 1)
    } else {
        count
    }
}

/// A sum with one more amount where the condition holds.
pub open spec fn summed(sum: u64, amount: u64, condition: bool) -> u64 {
    if condition {
        capped_sum(sum as int, amount as int)
    } else {
        sum
    }
}

/// The summary with one more HTLC.
pub open spec fn with_htlc(summary: HtlcSummary, htlc: Json) -> HtlcSummary {
    let amount = amount_of(htlc.field("amount_msat"@));
    let incoming = htlc.text_at("direction"@) == Some("in"@);
    HtlcSummary {
        in_count: counted(summary.in_count, incoming),
        out_count: counted(summary.out_count, !incoming),
        in_msat: summed(summary.in_msat, amount, incoming),
        out_msat: summed(summary.out_msat, amount, !incoming),
        min_expiry: lowered(summary.min_expiry, htlc.unsigned_at("expiry"@)),
        max_expiry: heightened(summary.max_expiry, htlc.unsigned_at("expiry"@)),
        hooked_count: counted(summary.hooked_count, htlc.text_at("status"@) is Some),
        trimmed_count: counted(summary.trimmed_count, htlc.holds("local_trimmed"@)),
    }
}

/// The summary of HTLCs.
pub open spec fn summary_of(htlcs: Seq<Json>) -> HtlcSummary
    decreases htlcs.len(),
{
    if htlcs.len() == 0 {
        no_htlcs()
    } else {
        with_htlc(summary_of(htlcs.drop_last()), htlcs.last())
    }
}

fn lower(current: Option<u64>, value: Option<u64>) -> (r: Option<u64>)
    ensures
        r == lowered(current, value),
{
    match (current, value) {
        (Some(current), Some(value)) => Some(
            if value < current {
                value
            } else {
                current
            },
        ),
        (Some(current), None) => Some(current),
        (None, value) => value,
    }
}

fn heighten(current: Option<u64>, value: Option<u64>) -> (r: Option<u64>)
    ensures
        r == heightened(current, value),
{
    match (current, value) {
        (Some(current), Some(value)) => Some(
            if value > current {
                value
            } else {
                current
            },
        ),
        (Some(current), None) => Some(current),
        (None, value) => value,
    }
}

/// Takes the pending HTLCs of a channel together.
pub fn summarize_htlcs(value: &Json) -> (r: HtlcSummary)
    ensures
        r == summary_of(value.elements_at("htlcs"@)),
{
    let mut summary = HtlcSummary {
        in_count: 0,
        out_count: 0,
        in_msat: 0,
        out_msat: 0,
        min_expiry: None,
        max_expiry: None,
        hooked_count: 0,
        trimmed_count: 0,
    };
    if let Some(htlcs) = value.array_field("htlcs") {
        let mut i: usize = 0;
        assert(htlcs@.take(0) =~= seq![]);
        while i < htlcs.len()
            invariant
                i <= htlcs@.len(),
                summary == summary_of(htlcs@.take(i as int)),
            decreases htlcs@.len() - i,
        {
            assert(htlcs@.take(i + 1).drop_last() =~= htlcs@.take(i as int));
            let htlc = &htlcs[i];
            let amount: u64 = amount_msat(htlc.get("amount_msat"));
            let expiry = htlc.u64_field("expiry");
            summary.min_expiry = lower(summary.min_expiry, expiry);
            summary.max_expiry = heighten(summary.max_expiry, expiry);
            if htlc.text_field("status").is_some() {
                summary.hooked_count = summary.hooked_count.saturating_add(1);
            }
            if htlc.flag("local_trimmed") {
                summary.trimmed_count = summary.trimmed_count.saturating_add(1);
            }
            let incoming = match htlc.text_field("direction") {
                Some(direction) => same_text(direction, "in"),
                None => false,
            };
            if incoming {
                summary.in_count = summary.in_count.saturating_add(1);
                summary.in_msat = summary.in_msat.saturating_add(amount);
            } else {
                summary.out_count = summary.out_count.saturating_add(1);
                summary.out_msat = summary.out_msat.saturating_add(amount);
            }
            i = i + 1;
        }
        assert(htlcs@.take(i as int) =~= htlcs@);
    }
    summary
}

/// The output that funds a channel, as `txid:outnum`.
pub open spec fn funding_outpoint(value: Json) -> Option<Seq<char>> {
    match (value.text_at("funding_txid"@), value.unsigned_at("funding_outnum"@)) {
        (Some(txid), Some(outnum)) => Some(txid + ":"@ + decimal(outnum as nat)),
        _ => None,
    }
}

/// The key that a channel is known by: its channel id, else its short channel id, else its funding
/// output, else its peer and position.
pub open spec fn key_of(value: Json, index: int) -> Seq<char> {
    if let Some(id) = value.text_at("channel_id"@) {
        id
    } else if let Some(id) = value.text_at("short_channel_id"@) {
        id
    } else if let Some(outpoint) = funding_outpoint(value) {
        outpoint
    } else {
        "pending:"@ + value.text_or("peer_id"@, "unknown"@) + ":"@ + decimal(index as nat)
    }
}

/// An alias of a kind, where there is one.
pub open spec fn optional_alias(kind: Seq<char>, value: Option<Seq<char>>) -> Seq<AliasView> {
    match value {
        Some(value) => seq![AliasView { kind, value }],
        None => seq![],
    }
}

/// Whether an alias has that value.
pub open spec fn has_alias(aliases: Seq<AliasView>, value: Seq<char>) -> bool {
    exists|i: int| 0 <= i < aliases.len() && (#[trigger] aliases[i]).value == value
}

/// The aliases with one more, unless its value is there already.
pub open spec fn with_alias(
    aliases: Seq<AliasView>,
    kind: Seq<char>,
    value: Option<Seq<char>>,
) -> Seq<AliasView> {
    match value {
        Some(value) => if has_alias(aliases, value) {
            aliases
        } else {
            aliases.push(AliasView { kind, value })
        },
        None => aliases,
    }
}

/// One of the two scid aliases of a channel.
pub open spec fn scid_alias(value: Json, side: Seq<char>) -> Option<Seq<char>> {
    let aliases = match value.field("alias"@) {
        Some(aliases) => Some(aliases),
        None => value.field("aliases"@),
    };
    match aliases {
        Some(aliases) => aliases.text_at(side),
        None => None,
    }
}

/// The names that a channel goes by.
pub open spec fn aliases_of(value: Json) -> Seq<AliasView> {
    let fixed = optional_alias("channel_id"@, value.text_at("channel_id"@)) + optional_alias(
        "short_channel_id"@,
        value.text_at("short_channel_id"@),
    ) + optional_alias("funding_outpoint"@, funding_outpoint(value));
    with_alias(
        with_alias(fixed, "local_alias"@, scid_alias(value, "local"@)),
        "remote_alias"@,
        scid_alias(value, "remote"@),
    )
}

/// The state of a channel as `listpeerchannels` shows it. The block height is kept only where HTLCs
/// are pending: without them a new block is no change of the channel.
pub open spec fn sample_of(value: Json, index: int, blockheight: Option<u64>) -> SampleView {
    let htlcs = summary_of(value.elements_at("htlcs"@));
    SampleView {
        channel_key: key_of(value, index),
        channel_id: value.text_at("channel_id"@),
        short_channel_id: value.text_at("short_channel_id"@),
        peer_id: value.text_or("peer_id"@, "unknown"@),
        state: value.text_or("state"@, "unknown"@),
        connected: value.holds("peer_connected"@),
        reestablished: value.holds("reestablished"@),
        capacity_msat: amount_of(value.field("total_msat"@)),
        to_us_msat: amount_of(value.field("to_us_msat"@)),
        spendable_msat: amount_of(value.field("spendable_msat"@)),
        receivable_msat: amount_of(value.field("receivable_msat"@)),
        htlc_in_count: htlcs.in_count,
        htlc_out_count: htlcs.out_count,
        htlc_in_msat: htlcs.in_msat,
        htlc_out_msat: htlcs.out_msat,
        blockheight: if htlcs.in_count > 0 || htlcs.out_count > 0 {
            blockheight
        } else {
            None
        },
        htlc_min_expiry: htlcs.min_expiry,
        htlc_max_expiry: htlcs.max_expiry,
        htlc_hooked_count: htlcs.hooked_count,
        htlc_trimmed_count: htlcs.trimmed_count,
        max_accepted_htlcs: value.unsigned_at("max_accepted_htlcs"@),
        local_policy: policy_of(value.field2("updates"@, "local"@)),
        remote_policy: policy_of(value.field2("updates"@, "remote"@)),
    }
}

/// Without pending HTLCs, the block height does not enter a sample: a new block makes no change
/// point of an idle channel.
pub proof fn law_idle_channels_ignore_blocks(
    value: Json,
    index: int,
    before: Option<u64>,
    after: Option<u64>,
)
    requires
        value.elements_at("htlcs"@).len() == 0,
    ensures
        sample_of(value, index, before) == sample_of(value, index, after),
{
}

fn funding_outpoint_text(value: &Json) -> (r: Option<String>)
    ensures
        r.deep_view() == funding_outpoint(*value),
{
    match (value.text_field("funding_txid"), value.u64_field("funding_outnum")) {
        (Some(txid), Some(outnum)) => {
            let head = joined(txid, ":");
            let number = decimal_text(outnum as u128);
            Some(joined(head.as_str(), number.as_str()))
        },
        _ => None,
    }
}

fn key_text(value: &Json, index: usize) -> (r: String)
    ensures
        r@ == key_of(*value, index as int),
{
    if let Some(id) = value.text_field("channel_id") {
        id.to_owned()
    } else if let Some(id) = value.text_field("short_channel_id") {
        id.to_owned()
    } else if let Some(outpoint) = funding_outpoint_text(value) {
        outpoint
    } else {
        let head = joined("pending:", value.text_field_or("peer_id", "unknown"));
        let separated = joined(head.as_str(), ":");
        let number = decimal_text(index as u128);
        joined(separated.as_str(), number.as_str())
    }
}

fn push_alias(aliases: &mut Vec<ChannelAlias>, kind: &'static str, value: Option<String>)
    ensures
        final(aliases).deep_view() == old(aliases).deep_view() + optional_alias(
            kind@,
            value.deep_view(),
        ),
{
    if let Some(value) = value {
        aliases.push(ChannelAlias { kind, value });
    }
    assert(aliases.deep_view() =~= old(aliases).deep_view() + optional_alias(
        kind@,
        value.deep_view(),
    ));
}

fn knows_alias(aliases: &Vec<ChannelAlias>, value: &str) -> (r: bool)
    ensures
        r == has_alias(aliases.deep_view(), value@),
{
    let mut i: usize = 0;
    while i < aliases.len()
        invariant
            i <= aliases@.len(),
            forall|j: int| 0 <= j < i ==> (#[trigger] aliases.deep_view()[j]).value != value@,
        decreases aliases@.len() - i,
    {
        if same_text(aliases[i].value.as_str(), value) {
            assert(aliases.deep_view()[i as int].value == value@);
            return true;
        }
        i = i + 1;
    }
    false
}

fn push_new_alias(aliases: &mut Vec<ChannelAlias>, kind: &'static str, value: Option<&str>)
    ensures
        final(aliases).deep_view() == with_alias(
            old(aliases).deep_view(),
            kind@,
            value.deep_view(),
        ),
{
    if let Some(value) = value {
        if !knows_alias(aliases, value) {
            aliases.push(ChannelAlias { kind, value: value.to_owned() });
            assert(aliases.deep_view() =~= old(aliases).deep_view().push(
                AliasView { kind: kind@, value: value@ },
            ));
        }
    }
}

fn scid_alias_text<'a>(value: &'a Json, side: &str) -> (r: Option<&'a str>)
    ensures
        r.deep_view() == scid_alias(*value, side@),
{
    let aliases = match value.get("alias") {
        Some(aliases) => Some(aliases),
        None => value.get("aliases"),
    };
    match aliases {
        Some(aliases) => aliases.text_field(side),
        None => None,
    }
}

fn collect_aliases(value: &Json) -> (r: Vec<ChannelAlias>)
    ensures
        r.deep_view() == aliases_of(*value),
{
    let mut aliases: Vec<ChannelAlias> = Vec::new();
    assert(aliases.deep_view() =~= seq![]);
    push_alias(&mut aliases, "channel_id", value.owned_text_field("channel_id"));
    push_alias(&mut aliases, "short_channel_id", value.owned_text_field("short_channel_id"));
    push_alias(&mut aliases, "funding_outpoint", funding_outpoint_text(value));
    assert(aliases.deep_view() =~= optional_alias("channel_id"@, value.text_at("channel_id"@))
        + optional_alias("short_channel_id"@, value.text_at("short_channel_id"@)) + optional_alias(
        "funding_outpoint"@,
        funding_outpoint(*value),
    ));
    push_new_alias(&mut aliases, "local_alias", scid_alias_text(value, "local"));
    push_new_alias(&mut aliases, "remote_alias", scid_alias_text(value, "remote"));
    aliases
}

impl ChannelSample {
    /// Reads the state of a channel.
    pub fn from_value(value: &Json, index: usize, blockheight: Option<u64>) -> (r: Self)
        ensures
            r@ == sample_of(*value, index as int, blockheight),
            r.aliases.deep_view() == aliases_of(*value),
    {
        let htlcs = summarize_htlcs(value);
        ChannelSample {
            channel_key: key_text(value, index),
            aliases: collect_aliases(value),
            channel_id: value.owned_text_field("channel_id"),
            short_channel_id: value.owned_text_field("short_channel_id"),
            peer_id: value.text_field_or("peer_id", "unknown").to_owned(),
            state: value.text_field_or("state", "unknown").to_owned(),
            connected: value.flag("peer_connected"),
            reestablished: value.flag("reestablished"),
            capacity_msat: amount_msat(value.get("total_msat")),
            to_us_msat: amount_msat(value.get("to_us_msat")),
            spendable_msat: amount_msat(value.get("spendable_msat")),
            receivable_msat: amount_msat(value.get("receivable_msat")),
            htlc_in_count: htlcs.in_count,
            htlc_out_count: htlcs.out_count,
            htlc_in_msat: htlcs.in_msat,
            htlc_out_msat: htlcs.out_msat,
            blockheight: if htlcs.in_count > 0 || htlcs.out_count > 0 {
                blockheight
            } else {
                None
            },
            htlc_min_expiry: htlcs.min_expiry,
            htlc_max_expiry: htlcs.max_expiry,
            htlc_hooked_count: htlcs.hooked_count,
            htlc_trimmed_count: htlcs.trimmed_count,
            max_accepted_htlcs: value.u64_field("max_accepted_htlcs"),
            local_policy: ChannelPolicy::from_value(value.get2("updates", "local")),
            remote_policy: ChannelPolicy::from_value(value.get2("updates", "remote")),
        }
    }
}

} // verus!
