//! How a channel keeps its identity while its names change.

use crate::integrity::aliases_sound;
use crate::model::AliasView;
use crate::recording::{known_key, stable_key, with_identity_seen, with_names_seen};
use crate::store::{
    alias_rank, best_alias, has_alias_row, is_alias_row, resolved, seen_again, with_alias_seen,
    AliasRow,
};
use vstd::prelude::*;

verus! {

/// Whether none of the names stands for a channel other than that one.
pub open spec fn names_agree(
    aliases: Seq<AliasRow<Seq<char>>>,
    names: Seq<AliasView>,
    key: Seq<char>,
) -> bool {
    forall|i: int|
        0 <= i < names.len() ==> (resolved(aliases, (#[trigger] names[i]).value) matches Some(known)
            ==> known == key)
}

/// A channel of which one name is known keeps the identity that the name stands for, whatever became
/// of its other names.
pub proof fn law_a_surviving_name_keeps_the_identity(
    aliases: Seq<AliasRow<Seq<char>>>,
    names: Seq<AliasView>,
    own: Seq<char>,
    key: Seq<char>,
    at: int,
)
    requires
        0 <= at < names.len(),
        resolved(aliases, names[at].value) == Some(key),
        names_agree(aliases, names, key),
    ensures
        stable_key(aliases, names, own) == key,
{
    lemma_known_name_is_found(aliases, names, key, at);
}

proof fn lemma_known_name_is_found(
    aliases: Seq<AliasRow<Seq<char>>>,
    names: Seq<AliasView>,
    key: Seq<char>,
    at: int,
)
    requires
        0 <= at < names.len(),
        resolved(aliases, names[at].value) == Some(key),
        names_agree(aliases, names, key),
    ensures
        known_key(aliases, names) == Some(key),
    decreases names.len(),
{
    let front = names.drop_last();
    assert forall|i: int| 0 <= i < front.len() implies front[i] == #[trigger] names[i] by {}
    assert(names_agree(aliases, front, key));
    if at < front.len() {
        lemma_known_name_is_found(aliases, front, key, at);
    } else {
        lemma_known_name_agrees(aliases, front, key);
    }
}

proof fn lemma_known_name_agrees(
    aliases: Seq<AliasRow<Seq<char>>>,
    names: Seq<AliasView>,
    key: Seq<char>,
)
    requires
        names_agree(aliases, names, key),
    ensures
        known_key(aliases, names) matches Some(known) ==> known == key,
    decreases names.len(),
{
    if names.len() > 0 {
        let front = names.drop_last();
        assert forall|i: int| 0 <= i < front.len() implies front[i] == #[trigger] names[i] by {}
        lemma_known_name_agrees(aliases, front, key);
        assert(names.last() == names[names.len() - 1]);
    }
}

/// A channel of which no name is known is a channel of its own: sharing a peer with another makes it
/// no part of that one.
pub proof fn law_a_channel_without_known_names_is_its_own(
    aliases: Seq<AliasRow<Seq<char>>>,
    names: Seq<AliasView>,
    own: Seq<char>,
)
    requires
        forall|i: int| 0 <= i < names.len() ==> resolved(aliases, (#[trigger] names[i]).value) is None,
    ensures
        stable_key(aliases, names, own) == own,
    decreases names.len(),
{
    if names.len() > 0 {
        let front = names.drop_last();
        assert forall|i: int| 0 <= i < front.len() implies front[i] == #[trigger] names[i] by {}
        law_a_channel_without_known_names_is_its_own(aliases, front, own);
        assert(names.last() == names[names.len() - 1]);
        lemma_known_name_agrees(aliases, names, own);
    }
}

/// The row that stands for a name is one of the rows of that name, and none counts more.
pub proof fn lemma_best_alias(aliases: Seq<AliasRow<Seq<char>>>, alias: Seq<char>)
    ensures
        match best_alias(aliases, alias) {
            Some(row) => aliases.contains(row) && row.alias == alias && forall|i: int|
                0 <= i < aliases.len() && (#[trigger] aliases[i]).alias == alias ==> alias_rank(
                    row.alias_type,
                ) <= alias_rank(aliases[i].alias_type),
            None => forall|i: int| 0 <= i < aliases.len() ==> (#[trigger] aliases[i]).alias != alias,
        },
    decreases aliases.len(),
{
    if aliases.len() > 0 {
        let front = aliases.drop_last();
        lemma_best_alias(front, alias);
        assert forall|i: int| 0 <= i < front.len() implies front[i] == #[trigger] aliases[i] by {}
        assert(aliases.contains(aliases.last()));
        if let Some(row) = best_alias(front, alias) {
            let k = choose|k: int| 0 <= k < front.len() && front[k] == row;
            assert(aliases[k] == row);
        }
    }
}

proof fn lemma_seen_again_resolves(
    aliases: Seq<AliasRow<Seq<char>>>,
    after: Seq<AliasRow<Seq<char>>>,
    ts: u64,
    alias_type: Seq<char>,
    alias: Seq<char>,
    name: Seq<char>,
)
    requires
        after.len() == aliases.len(),
        forall|i: int|
            0 <= i < after.len() ==> #[trigger] after[i] == seen_again(
                aliases[i],
                alias_type,
                alias,
                ts,
            ),
    ensures
        match best_alias(aliases, name) {
            Some(row) => best_alias(after, name) matches Some(again) && again.channel_key
                == row.channel_key && again.alias_type == row.alias_type,
            None => best_alias(after, name) is None,
        },
    decreases aliases.len(),
{
    if aliases.len() > 0 {
        lemma_seen_again_resolves(
            aliases.drop_last(),
            after.drop_last(),
            ts,
            alias_type,
            alias,
            name,
        );
        assert(after.last() == seen_again(aliases.last(), alias_type, alias, ts));
    }
}

/// Seeing a name changes what no other name stands for. A name that stood for that channel, or for
/// none, stands for that channel afterwards.
proof fn lemma_alias_seen_resolves(
    aliases: Seq<AliasRow<Seq<char>>>,
    ts: u64,
    alias_type: Seq<char>,
    alias: Seq<char>,
    key: Seq<char>,
    name: Seq<char>,
)
    ensures
        ({
            let after = with_alias_seen(aliases, ts, alias_type, alias, key);
            &&& name != alias ==> resolved(after, name) == resolved(aliases, name)
            &&& (resolved(aliases, alias) matches Some(known) ==> known == key) ==> resolved(
                after,
                alias,
            ) == Some(key)
        }),
{
    let after = with_alias_seen(aliases, ts, alias_type, alias, key);
    if has_alias_row(aliases, alias_type, alias) {
        lemma_seen_again_resolves(aliases, after, ts, alias_type, alias, name);
        lemma_seen_again_resolves(aliases, after, ts, alias_type, alias, alias);
        lemma_best_alias(aliases, alias);
    } else {
        assert(after.drop_last() =~= aliases);
    }
}

/// Seeing the key of a channel makes it stand for that channel.
proof fn lemma_key_seen_resolves(aliases: Seq<AliasRow<Seq<char>>>, ts: u64, key: Seq<char>)
    requires
        aliases_sound(aliases),
    ensures
        resolved(with_alias_seen(aliases, ts, "identity"@, key, key), key) == Some(key),
{
    let after = with_alias_seen(aliases, ts, "identity"@, key, key);
    lemma_best_alias(after, key);
    let at = if has_alias_row(aliases, "identity"@, key) {
        choose|at: int|
            0 <= at < aliases.len() && is_alias_row(#[trigger] aliases[at], "identity"@, key)
    } else {
        after.len() - 1
    };
    assert(after[at].alias == key && after[at].alias_type == "identity"@);
    let row = best_alias(after, key)->0;
    let k = choose|k: int| 0 <= k < after.len() && after[k] == row;
    assert(alias_rank(row.alias_type) == 0);
    if k < aliases.len() {
        assert(aliases[k].alias_type == "identity"@);
    }
}

proof fn lemma_names_seen_resolve(
    aliases: Seq<AliasRow<Seq<char>>>,
    ts: u64,
    names: Seq<AliasView>,
    key: Seq<char>,
    name: Seq<char>,
)
    requires
        resolved(aliases, name) matches Some(known) ==> known == key,
    ensures
        ({
            let after = with_names_seen(aliases, ts, names, key);
            &&& (exists|i: int| 0 <= i < names.len() && (#[trigger] names[i]).value == name)
                ==> resolved(after, name) == Some(key)
            &&& resolved(aliases, name) is Some ==> resolved(after, name) == Some(key)
            &&& resolved(after, name) matches Some(known) ==> known == key
        }),
    decreases names.len(),
{
    if names.len() > 0 {
        let front = names.drop_last();
        let before = with_names_seen(aliases, ts, front, key);
        lemma_names_seen_resolve(aliases, ts, front, key, name);
        lemma_alias_seen_resolves(
            before,
            ts,
            names.last().kind,
            names.last().value,
            key,
            name,
        );
        if exists|i: int| 0 <= i < names.len() && (#[trigger] names[i]).value == name {
            let i = choose|i: int| 0 <= i < names.len() && (#[trigger] names[i]).value == name;
            if i < front.len() {
                assert(front[i].value == name);
            } else {
                assert(names[i] == names.last());
            }
        }
    }
}

proof fn lemma_names_seen_leave(
    aliases: Seq<AliasRow<Seq<char>>>,
    ts: u64,
    names: Seq<AliasView>,
    key: Seq<char>,
    name: Seq<char>,
)
    requires
        forall|i: int| 0 <= i < names.len() ==> (#[trigger] names[i]).value != name,
    ensures
        resolved(with_names_seen(aliases, ts, names, key), name) == resolved(aliases, name),
    decreases names.len(),
{
    if names.len() > 0 {
        let front = names.drop_last();
        assert forall|i: int| 0 <= i < front.len() implies front[i] == #[trigger] names[i] by {}
        lemma_names_seen_leave(aliases, ts, front, key, name);
        assert(names.last() == names[names.len() - 1]);
        lemma_alias_seen_resolves(
            with_names_seen(aliases, ts, front, key),
            ts,
            names.last().kind,
            names.last().value,
            key,
            name,
        );
    }
}

/// Once a channel was seen, its key and each of its names stand for it.
pub proof fn law_the_names_of_a_channel_are_remembered(
    aliases: Seq<AliasRow<Seq<char>>>,
    ts: u64,
    names: Seq<AliasView>,
    key: Seq<char>,
)
    requires
        aliases_sound(aliases),
        names_agree(aliases, names, key),
    ensures
        ({
            let after = with_identity_seen(aliases, ts, names, key);
            &&& resolved(after, key) == Some(key)
            &&& forall|i: int|
                0 <= i < names.len() ==> resolved(after, (#[trigger] names[i]).value) == Some(key)
        }),
{
    let known = with_alias_seen(aliases, ts, "identity"@, key, key);
    let after = with_identity_seen(aliases, ts, names, key);
    lemma_key_seen_resolves(aliases, ts, key);
    lemma_names_seen_resolve(known, ts, names, key, key);
    assert forall|i: int| 0 <= i < names.len() implies resolved(after, (#[trigger] names[i]).value)
        == Some(key) by {
        lemma_alias_seen_resolves(aliases, ts, "identity"@, key, key, names[i].value);
        lemma_names_seen_resolve(known, ts, names, key, names[i].value);
    }
}

/// Seeing a channel changes what no name of another channel stands for.
pub proof fn law_other_names_keep_their_channel(
    aliases: Seq<AliasRow<Seq<char>>>,
    ts: u64,
    names: Seq<AliasView>,
    key: Seq<char>,
    name: Seq<char>,
)
    requires
        name != key,
        forall|i: int| 0 <= i < names.len() ==> (#[trigger] names[i]).value != name,
    ensures
        resolved(with_identity_seen(aliases, ts, names, key), name) == resolved(aliases, name),
{
    lemma_alias_seen_resolves(aliases, ts, "identity"@, key, key, name);
    lemma_names_seen_leave(
        with_alias_seen(aliases, ts, "identity"@, key, key),
        ts,
        names,
        key,
        name,
    );
}

/// A channel that comes back under other names keeps its identity as long as one of the names that it
/// had is among them.
pub proof fn law_an_identity_outlives_its_names(
    aliases: Seq<AliasRow<Seq<char>>>,
    ts: u64,
    names: Seq<AliasView>,
    key: Seq<char>,
    later_names: Seq<AliasView>,
    own: Seq<char>,
    at: int,
    later_at: int,
)
    requires
        aliases_sound(aliases),
        names_agree(aliases, names, key),
        0 <= at < names.len(),
        0 <= later_at < later_names.len(),
        names[at].value == later_names[later_at].value,
        names_agree(with_identity_seen(aliases, ts, names, key), later_names, key),
    ensures
        stable_key(with_identity_seen(aliases, ts, names, key), later_names, own) == key,
{
    law_the_names_of_a_channel_are_remembered(aliases, ts, names, key);
    law_a_surviving_name_keeps_the_identity(
        with_identity_seen(aliases, ts, names, key),
        later_names,
        own,
        key,
        later_at,
    );
}

} // verus!
