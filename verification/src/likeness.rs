//! How a recorded state shows its channel: each part in terms of what the node reports of the channel.

use crate::census::{lemma_filter_grows, lemma_filter_is_part};
use crate::gauges::lemma_sum_grows;
use crate::json::Json;
use crate::model::{
    aliases_of, funding_outpoint, has_alias, key_of, policy_of, sample_of, summary_of, with_htlc,
    AliasView,
};
use crate::recording::{known_key, stable_key};
use crate::sightings::{words, words_or_unknown};
use crate::store::{resolved, AliasRow};
use crate::text::decimal;
use crate::totals::sum_of;
use vstd::prelude::*;

verus! {

/// A recorded state shows the ids, the peer and the state of the channel, whether it is connected, its
/// balances and its limits.
pub proof fn law_states_show_the_channel(value: Json, index: int, blockheight: Option<u64>)
    ensures
        ({
            let state = sample_of(value, index, blockheight);
            &&& state.channel_key == key_of(value, index)
            &&& state.channel_id == words(value, "channel_id"@)
            &&& state.short_channel_id == words(value, "short_channel_id"@)
            &&& state.peer_id == words_or_unknown(value, "peer_id"@)
            &&& state.state == words_or_unknown(value, "state"@)
            &&& state.connected == (value.field("peer_connected"@) == Some(Json::Bool(true)))
            &&& state.reestablished == (value.field("reestablished"@) == Some(Json::Bool(true)))
            &&& state.capacity_msat == value.millisatoshi_or_zero("total_msat"@)
            &&& state.to_us_msat == value.millisatoshi_or_zero("to_us_msat"@)
            &&& state.spendable_msat == value.millisatoshi_or_zero("spendable_msat"@)
            &&& state.receivable_msat == value.millisatoshi_or_zero("receivable_msat"@)
            &&& state.max_accepted_htlcs == value.unsigned_at("max_accepted_htlcs"@)
            &&& value.elements_at("htlcs"@).len() == 0 ==> state.blockheight is None
        }),
        value.field("updates"@) matches Some(updates) ==> {
            let state = sample_of(value, index, blockheight);
            &&& state.local_policy == policy_of(updates.field("local"@))
            &&& state.remote_policy == policy_of(updates.field("remote"@))
        },
        value.field("updates"@) is None ==> {
            let state = sample_of(value, index, blockheight);
            &&& state.local_policy == policy_of(None)
            &&& state.remote_policy == policy_of(None)
        },
{
}

/// A policy shows the fees, the limits and the delay that the update of a side gives, and nothing where
/// there is no update.
pub proof fn law_policies_are_read(update: Json)
    ensures
        ({
            let policy = policy_of(Some(update));
            &&& policy.fee_ppm == update.unsigned_at("fee_proportional_millionths"@)
            &&& policy.cltv_expiry_delta == update.unsigned_at("cltv_expiry_delta"@)
            &&& gives_amount(policy.fee_base_msat, update, "fee_base_msat"@)
            &&& gives_amount(policy.htlc_minimum_msat, update, "htlc_minimum_msat"@)
            &&& gives_amount(policy.htlc_maximum_msat, update, "htlc_maximum_msat"@)
        }),
        ({
            let none = policy_of(None);
            &&& none.fee_base_msat is None
            &&& none.fee_ppm is None
            &&& none.htlc_minimum_msat is None
            &&& none.htlc_maximum_msat is None
            &&& none.cltv_expiry_delta is None
        }),
{
}

/// Whether an amount is the one in a field, and none where the field is not there.
pub open spec fn gives_amount(amount: Option<u64>, value: Json, name: Seq<char>) -> bool {
    &&& value.field(name) is Some ==> amount == Some(value.millisatoshi_or_zero(name))
    &&& value.field(name) is None ==> amount is None
}

/// Whether an HTLC comes in.
pub open spec fn comes_in(htlc: Json) -> bool {
    words(htlc, "direction"@) == Some("in"@)
}

/// The amount of an HTLC that goes one way.
pub open spec fn amount_of_htlc(incoming: bool) -> spec_fn(Json) -> int {
    |htlc: Json|
        if comes_in(htlc) == incoming {
            htlc.millisatoshi_or_zero("amount_msat"@) as int
        } else {
            0
        }
}

/// The HTLCs of a channel are counted by direction, and how many of them are held by a hook or trimmed.
pub proof fn law_htlcs_are_counted(htlcs: Seq<Json>)
    requires
        htlcs.len() <= u64::MAX,
    ensures
        summary_of(htlcs).in_count == htlcs.filter(|htlc: Json| comes_in(htlc)).len(),
        summary_of(htlcs).out_count == htlcs.filter(|htlc: Json| !comes_in(htlc)).len(),
        summary_of(htlcs).hooked_count == htlcs.filter(
            |htlc: Json| words(htlc, "status"@) is Some,
        ).len(),
        summary_of(htlcs).trimmed_count == htlcs.filter(
            |htlc: Json| htlc.field("local_trimmed"@) == Some(Json::Bool(true)),
        ).len(),
    decreases htlcs.len(),
{
    if htlcs.len() > 0 {
        let front = htlcs.drop_last();
        law_htlcs_are_counted(front);
        lemma_filter_grows(htlcs, |htlc: Json| comes_in(htlc));
        lemma_filter_grows(htlcs, |htlc: Json| !comes_in(htlc));
        lemma_filter_grows(htlcs, |htlc: Json| words(htlc, "status"@) is Some);
        lemma_filter_grows(
            htlcs,
            |htlc: Json| htlc.field("local_trimmed"@) == Some(Json::Bool(true)),
        );
        lemma_filter_is_part(front, |htlc: Json| comes_in(htlc));
        lemma_filter_is_part(front, |htlc: Json| !comes_in(htlc));
        lemma_filter_is_part(front, |htlc: Json| words(htlc, "status"@) is Some);
        lemma_filter_is_part(
            front,
            |htlc: Json| htlc.field("local_trimmed"@) == Some(Json::Bool(true)),
        );
        assert(summary_of(htlcs) == with_htlc(summary_of(front), htlcs.last()));
    } else {
        reveal(Seq::filter);
    }
}

/// The amounts of the HTLCs of a channel are summed by direction.
pub proof fn law_htlcs_are_summed(htlcs: Seq<Json>)
    requires
        sum_of(htlcs, amount_of_htlc(true)) <= u64::MAX,
        sum_of(htlcs, amount_of_htlc(false)) <= u64::MAX,
    ensures
        summary_of(htlcs).in_msat == sum_of(
            htlcs,
            |htlc: Json|
                if comes_in(htlc) {
                    htlc.millisatoshi_or_zero("amount_msat"@) as int
                } else {
                    0
                },
        ),
        summary_of(htlcs).out_msat == sum_of(
            htlcs,
            |htlc: Json|
                if comes_in(htlc) {
                    0
                } else {
                    htlc.millisatoshi_or_zero("amount_msat"@) as int
                },
        ),
{
    lemma_htlcs_are_summed(htlcs);
    assert(amount_of_htlc(true) =~= |htlc: Json|
        if comes_in(htlc) {
            htlc.millisatoshi_or_zero("amount_msat"@) as int
        } else {
            0
        });
    assert(amount_of_htlc(false) =~= |htlc: Json|
        if comes_in(htlc) {
            0
        } else {
            htlc.millisatoshi_or_zero("amount_msat"@) as int
        });
}

proof fn lemma_htlcs_are_summed(htlcs: Seq<Json>)
    requires
        sum_of(htlcs, amount_of_htlc(true)) <= u64::MAX,
        sum_of(htlcs, amount_of_htlc(false)) <= u64::MAX,
    ensures
        summary_of(htlcs).in_msat == sum_of(htlcs, amount_of_htlc(true)),
        summary_of(htlcs).out_msat == sum_of(htlcs, amount_of_htlc(false)),
    decreases htlcs.len(),
{
    assert(forall|htlc: Json| #[trigger] amount_of_htlc(true)(htlc) >= 0);
    assert(forall|htlc: Json| #[trigger] amount_of_htlc(false)(htlc) >= 0);
    lemma_sum_grows(htlcs, amount_of_htlc(true));
    lemma_sum_grows(htlcs, amount_of_htlc(false));
    if htlcs.len() > 0 {
        lemma_htlcs_are_summed(htlcs.drop_last());
        lemma_sum_grows(htlcs.drop_last(), amount_of_htlc(true));
        lemma_sum_grows(htlcs.drop_last(), amount_of_htlc(false));
    }
}

/// The expiries of the HTLCs of a channel lie between the least and the greatest, each of which is that
/// of one of them.
pub proof fn law_expiries_are_bounded(htlcs: Seq<Json>)
    ensures
        forall|i: int|
            0 <= i < htlcs.len() ==> ((#[trigger] htlcs[i]).unsigned_at("expiry"@) matches Some(
                expiry,
            ) ==> {
                &&& summary_of(htlcs).min_expiry matches Some(least) && least <= expiry
                &&& summary_of(htlcs).max_expiry matches Some(greatest) && expiry <= greatest
            }),
        summary_of(htlcs).min_expiry matches Some(least) ==> exists|i: int|
            0 <= i < htlcs.len() && (#[trigger] htlcs[i]).unsigned_at("expiry"@) == Some(least),
        summary_of(htlcs).max_expiry matches Some(greatest) ==> exists|i: int|
            0 <= i < htlcs.len() && (#[trigger] htlcs[i]).unsigned_at("expiry"@) == Some(greatest),
    decreases htlcs.len(),
{
    if htlcs.len() > 0 {
        let front = htlcs.drop_last();
        law_expiries_are_bounded(front);
        assert forall|i: int| 0 <= i < front.len() implies front[i] == #[trigger] htlcs[i] by {}
        assert(htlcs[htlcs.len() - 1] == htlcs.last());
        if let Some(least) = summary_of(front).min_expiry {
            let i = choose|i: int|
                0 <= i < front.len() && (#[trigger] front[i]).unsigned_at("expiry"@) == Some(least);
            assert(htlcs[i].unsigned_at("expiry"@) == Some(least));
        }
        if let Some(greatest) = summary_of(front).max_expiry {
            let i = choose|i: int|
                0 <= i < front.len() && (#[trigger] front[i]).unsigned_at("expiry"@) == Some(
                    greatest,
                );
            assert(htlcs[i].unsigned_at("expiry"@) == Some(greatest));
        }
    }
}

/// A recorded state shows what its HTLCs add up to, and the height of the chain while there are any.
pub proof fn law_states_show_the_htlcs(value: Json, index: int, blockheight: Option<u64>)
    requires
        value.elements_at("htlcs"@).len() <= u64::MAX,
    ensures
        ({
            let state = sample_of(value, index, blockheight);
            let htlcs = value.elements_at("htlcs"@);
            let sums = summary_of(htlcs);
            &&& state.htlc_in_count == htlcs.filter(|htlc: Json| comes_in(htlc)).len()
            &&& state.htlc_out_count == htlcs.filter(|htlc: Json| !comes_in(htlc)).len()
            &&& state.htlc_in_msat == sums.in_msat
            &&& state.htlc_out_msat == sums.out_msat
            &&& state.htlc_min_expiry == sums.min_expiry
            &&& state.htlc_max_expiry == sums.max_expiry
            &&& state.htlc_hooked_count == sums.hooked_count
            &&& state.htlc_trimmed_count == sums.trimmed_count
            &&& htlcs.len() > 0 ==> state.blockheight == blockheight
        }),
{
    let htlcs = value.elements_at("htlcs"@);
    law_htlcs_are_counted(htlcs);
    if htlcs.len() > 0 {
        lemma_filter_grows(htlcs, |htlc: Json| comes_in(htlc));
        lemma_filter_grows(htlcs, |htlc: Json| !comes_in(htlc));
    }
}

/// The point of the chain that a channel was opened at: the transaction and the place in it.
pub open spec fn opening(value: Json) -> Option<Seq<char>> {
    match (words(value, "funding_txid"@), value.unsigned_at("funding_outnum"@)) {
        (Some(txid), Some(n)) => Some(txid + seq![':'] + decimal(n as nat)),
        _ => None,
    }
}

/// A channel is known by its id, else by its short id, else by where it was opened, else by its peer and
/// its place in the list.
pub proof fn law_channels_are_known_by_their_ids(value: Json, index: nat)
    ensures
        words(value, "channel_id"@) matches Some(id) ==> key_of(value, index as int) == id,
        words(value, "channel_id"@) is None ==> (words(value, "short_channel_id"@) matches Some(id)
            ==> key_of(value, index as int) == id),
        words(value, "channel_id"@) is None && words(value, "short_channel_id"@) is None ==> {
            &&& opening(value) matches Some(at) ==> key_of(value, index as int) == at
            &&& opening(value) is None ==> key_of(value, index as int) == "pending:"@
                + words_or_unknown(value, "peer_id"@) + seq![':'] + decimal(index)
        },
        funding_outpoint(value) == opening(value),
{
    reveal_strlit(":");
    assert(":"@ =~= seq![':']);
}

/// A name of a channel by which it was called at a side.
pub open spec fn side_name(value: Json, side: Seq<char>) -> Option<Seq<char>> {
    match value.field("alias"@) {
        Some(names) => words(names, side),
        None => match value.field("aliases"@) {
            Some(names) => words(names, side),
            None => None,
        },
    }
}

/// The names of a channel are its id, its short id, the point where it was opened, and what each side
/// calls it, and no others.
pub proof fn law_channels_are_called_by_their_names(value: Json)
    ensures
        ({
            let names = aliases_of(value);
            &&& words(value, "channel_id"@) matches Some(id) ==> names.contains(
                AliasView { kind: "channel_id"@, value: id },
            )
            &&& words(value, "short_channel_id"@) matches Some(id) ==> names.contains(
                AliasView { kind: "short_channel_id"@, value: id },
            )
            &&& opening(value) matches Some(at) ==> names.contains(
                AliasView { kind: "funding_outpoint"@, value: at },
            )
            &&& side_name(value, "local"@) matches Some(name) ==> has_name(names, name)
            &&& side_name(value, "remote"@) matches Some(name) ==> has_name(names, name)
            &&& forall|i: int|
                0 <= i < names.len() ==> {
                    let name = #[trigger] names[i];
                    ||| name.kind == "channel_id"@ && words(value, "channel_id"@) == Some(name.value)
                    ||| name.kind == "short_channel_id"@ && words(value, "short_channel_id"@)
                        == Some(name.value)
                    ||| name.kind == "funding_outpoint"@ && opening(value) == Some(name.value)
                    ||| name.kind == "local_alias"@ && side_name(value, "local"@) == Some(name.value)
                    ||| name.kind == "remote_alias"@ && side_name(value, "remote"@) == Some(
                        name.value,
                    )
                }
        }),
{
    reveal_strlit(":");
    assert(":"@ =~= seq![':']);
    let a = crate::model::optional_alias("channel_id"@, words(value, "channel_id"@));
    let b = crate::model::optional_alias("short_channel_id"@, words(value, "short_channel_id"@));
    let c = crate::model::optional_alias("funding_outpoint"@, opening(value));
    let fixed = a + b + c;
    let names = aliases_of(value);
    let more = crate::model::with_alias(fixed, "local_alias"@, side_name(value, "local"@));
    assert(names == crate::model::with_alias(more, "remote_alias"@, side_name(value, "remote"@)));
    assert forall|i: int| 0 <= i < fixed.len() implies #[trigger] names[i] == fixed[i] by {}
    if words(value, "channel_id"@) is Some {
        assert(names[0] == a[0]);
    }
    if words(value, "short_channel_id"@) is Some {
        assert(fixed[a.len() as int] == b[0]);
        assert(names[a.len() as int] == b[0]);
    }
    if opening(value) is Some {
        assert(fixed[a.len() as int + b.len()] == c[0]);
        assert(names[a.len() as int + b.len()] == c[0]);
    }
    if let Some(name) = side_name(value, "local"@) {
        if has_alias(fixed, name) {
            let i = choose|i: int| 0 <= i < fixed.len() && (#[trigger] fixed[i]).value == name;
            assert(names[i].value == name);
        } else {
            assert(names[fixed.len() as int].value == name);
        }
    }
    if let Some(name) = side_name(value, "remote"@) {
        if has_alias(more, name) {
            let i = choose|i: int| 0 <= i < more.len() && (#[trigger] more[i]).value == name;
            assert(names[i].value == name);
        } else {
            assert(names[more.len() as int].value == name);
        }
    }
}

/// Whether one of the names is that one.
pub open spec fn has_name(names: Seq<AliasView>, name: Seq<char>) -> bool {
    exists|i: int| 0 <= i < names.len() && (#[trigger] names[i]).value == name
}

/// A channel keeps the identity that the first of its known names stands for.
pub proof fn law_the_first_known_name_decides(
    aliases: Seq<AliasRow<Seq<char>>>,
    names: Seq<AliasView>,
    own: Seq<char>,
    i: int,
)
    requires
        0 <= i < names.len(),
        resolved(aliases, names[i].value) is Some,
        forall|j: int| 0 <= j < i ==> resolved(aliases, (#[trigger] names[j]).value) is None,
    ensures
        Some(stable_key(aliases, names, own)) == resolved(aliases, names[i].value),
{
    lemma_first_known(aliases, names, i);
}

proof fn lemma_first_known(aliases: Seq<AliasRow<Seq<char>>>, names: Seq<AliasView>, i: int)
    requires
        -1 <= i < names.len(),
        i >= 0 ==> resolved(aliases, names[i].value) is Some,
        forall|j: int|
            0 <= j < names.len() && (i < 0 || j < i) ==> resolved(
                aliases,
                (#[trigger] names[j]).value,
            ) is None,
    ensures
        i >= 0 ==> known_key(aliases, names) == resolved(aliases, names[i].value),
        i < 0 ==> known_key(aliases, names) is None,
    decreases names.len(),
{
    if names.len() > 0 {
        let front = names.drop_last();
        assert forall|j: int| 0 <= j < front.len() implies front[j] == #[trigger] names[j] by {}
        assert(names[names.len() - 1] == names.last());
        if i == names.len() - 1 {
            assert forall|j: int| 0 <= j < front.len() implies resolved(
                aliases,
                (#[trigger] front[j]).value,
            ) is None by {
                assert(front[j] == names[j]);
            }
            lemma_first_known(aliases, front, -1);
        } else {
            lemma_first_known(aliases, front, i);
        }
    }
}

} // verus!
