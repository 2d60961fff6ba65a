//! The answers of the history's methods, as JSON documents.

use crate::browse::{
    ChannelDetails, DetailsView, SampleItem, SampleItemView, SamplePage, SamplePageView,
};
use crate::json::{Json, JsonNumber};
use crate::lookups::{EventPage, EventPageView, PairItem, PairItemView, PairPage, PairPageView};
use crate::model::{ChannelPolicy, ChannelSample, SampleView};
use crate::store::{AliasRow, ChannelRow, EventRow};
use crate::text::{decimal, decimal_text};
use vstd::prelude::*;

verus! {

/// The form that the answers have.
pub const API_VERSION: u64 = 2;

/// What a JSON number says.
pub enum NumberView {
    Unsigned(u64),
    Negative(i64),
    Float(Seq<char>),
}

/// What a JSON document says.
pub enum JsonView {
    Null,
    Bool(bool),
    Number(NumberView),
    Text(Seq<char>),
    Array(Seq<JsonView>),
    Object(Seq<(Seq<char>, JsonView)>),
}

/// What a number says.
pub open spec fn number_view(number: JsonNumber) -> NumberView {
    match number {
        JsonNumber::Unsigned(n) => NumberView::Unsigned(n),
        JsonNumber::Negative(n) => NumberView::Negative(n),
        JsonNumber::Float(text) => NumberView::Float(text@),
    }
}

/// What a document says.
pub open spec fn json_view(value: Json) -> JsonView
    decreases value,
{
    match value {
        Json::Null => JsonView::Null,
        Json::Bool(b) => JsonView::Bool(b),
        Json::Number(number) => JsonView::Number(number_view(number)),
        Json::Text(text) => JsonView::Text(text@),
        Json::Array(items) => JsonView::Array(items_view(items@)),
        Json::Object(fields) => JsonView::Object(fields_view(fields@)),
    }
}

/// What the elements of an array say.
pub open spec fn items_view(items: Seq<Json>) -> Seq<JsonView>
    decreases items,
{
    if items.len() == 0 {
        Seq::empty()
    } else {
        items_view(items.drop_last()).push(json_view(items.last()))
    }
}

/// What the fields of an object say.
pub open spec fn fields_view(fields: Seq<(String, Json)>) -> Seq<(Seq<char>, JsonView)>
    decreases fields,
{
    if fields.len() == 0 {
        Seq::empty()
    } else {
        fields_view(fields.drop_last()).push((fields.last().0@, json_view(fields.last().1)))
    }
}

/// A number in an answer.
pub open spec fn unsigned_json(n: u64) -> JsonView {
    JsonView::Number(NumberView::Unsigned(n))
}

/// A number that may be missing.
pub open spec fn optional_json(n: Option<u64>) -> JsonView {
    match n {
        Some(n) => unsigned_json(n),
        None => JsonView::Null,
    }
}

/// A text that may be missing.
pub open spec fn optional_text_json(text: Option<Seq<char>>) -> JsonView {
    match text {
        Some(text) => JsonView::Text(text),
        None => JsonView::Null,
    }
}

pub(crate) fn unsigned(n: u64) -> (r: Json)
    ensures
        json_view(r) == unsigned_json(n),
{
    Json::Number(JsonNumber::Unsigned(n))
}

pub(crate) fn optional(n: Option<u64>) -> (r: Json)
    ensures
        json_view(r) == optional_json(n),
{
    match n {
        Some(n) => unsigned(n),
        None => Json::Null,
    }
}

pub(crate) fn plain_text(s: &str) -> (r: Json)
    ensures
        json_view(r) == JsonView::Text(s@),
{
    Json::Text(s.to_owned())
}

pub(crate) fn optional_text(s: &Option<String>) -> (r: Json)
    ensures
        json_view(r) == optional_text_json(s.deep_view()),
{
    match s {
        Some(s) => plain_text(s.as_str()),
        None => Json::Null,
    }
}

pub(crate) fn put(fields: &mut Vec<(String, Json)>, name: &str, value: Json)
    ensures
        fields_view(final(fields)@) == fields_view(old(fields)@).push((name@, json_view(value))),
{
    fields.push((name.to_owned(), value));
    assert(fields@.drop_last() =~= old(fields)@);
}

pub(crate) fn append(items: &mut Vec<Json>, item: Json)
    ensures
        items_view(final(items)@) == items_view(old(items)@).push(json_view(item)),
{
    items.push(item);
    assert(items@.drop_last() =~= old(items)@);
}

/// Rows that an answer lists.
pub trait Answer: DeepView {
    /// What the answer says of a row.
    spec fn said(row: Self::V) -> JsonView;

    /// The row as the answer has it.
    fn answer(&self) -> (r: Json)
        ensures
            json_view(r) == Self::said(self.deep_view()),
    ;
}

/// What an answer says of the rows.
pub open spec fn list_json<T: Answer>(rows: Seq<T::V>) -> JsonView {
    JsonView::Array(Seq::new(rows.len(), |i: int| T::said(rows[i])))
}

pub(crate) fn list<T: Answer>(rows: &Vec<T>) -> (r: Json)
    ensures
        json_view(r) == list_json::<T>(rows.deep_view()),
{
    let mut items: Vec<Json> = Vec::new();
    let ghost all = rows.deep_view();
    let ghost said = Seq::new(all.len(), |i: int| T::said(all[i]));
    let mut i: usize = 0;
    assert(said.take(0) =~= Seq::empty());
    while i < rows.len()
        invariant
            i <= rows@.len(),
            all == rows.deep_view(),
            said == Seq::new(all.len(), |i: int| T::said(all[i])),
            items_view(items@) == said.take(i as int),
        decreases rows@.len() - i,
    {
        append(&mut items, rows[i].answer());
        assert(said.take(i + 1) =~= said.take(i as int).push(said[i as int]));
        i = i + 1;
    }
    assert(said.take(i as int) =~= said);
    Json::Array(items)
}

/// The place in the pages that an answer names.
pub open spec fn pagination_json(next_cursor: Option<u64>, has_more: bool) -> JsonView {
    JsonView::Object(
        seq![
            ("next_cursor"@, optional_json(next_cursor)),
            ("has_more"@, JsonView::Bool(has_more)),
        ],
    )
}

pub(crate) fn pagination(next_cursor: Option<u64>, has_more: bool) -> (r: Json)
    ensures
        json_view(r) == pagination_json(next_cursor, has_more),
{
    let mut fields: Vec<(String, Json)> = Vec::new();
    put(&mut fields, "next_cursor", optional(next_cursor));
    put(&mut fields, "has_more", Json::Bool(has_more));
    assert(fields_view(fields@) =~= pagination_json(next_cursor, has_more)->Object_0);
    Json::Object(fields)
}

/// A name of a channel.
pub open spec fn alias_json(alias: AliasRow<Seq<char>>) -> JsonView {
    JsonView::Object(
        seq![
            ("type"@, JsonView::Text(alias.alias_type)),
            ("value"@, JsonView::Text(alias.alias)),
            ("first_seen"@, unsigned_json(alias.first_seen)),
            ("last_seen"@, unsigned_json(alias.last_seen)),
        ],
    )
}

impl Answer for AliasRow<String> {
    open spec fn said(row: AliasRow<Seq<char>>) -> JsonView {
        alias_json(row)
    }

    fn answer(&self) -> (r: Json) {
        let mut fields: Vec<(String, Json)> = Vec::new();
        put(&mut fields, "type", plain_text(self.alias_type.as_str()));
        put(&mut fields, "value", plain_text(self.alias.as_str()));
        put(&mut fields, "first_seen", unsigned(self.first_seen));
        put(&mut fields, "last_seen", unsigned(self.last_seen));
        assert(fields_view(fields@) =~= alias_json(self.deep_view())->Object_0);
        Json::Object(fields)
    }
}

/// What is known of a channel now.
pub open spec fn current_json(channel: Option<ChannelRow<Seq<char>>>) -> JsonView {
    match channel {
        Some(channel) => JsonView::Object(
            seq![
                ("channel_id"@, optional_text_json(channel.channel_id)),
                ("short_channel_id"@, optional_text_json(channel.short_channel_id)),
                ("peer_id"@, JsonView::Text(channel.peer_id)),
                ("first_seen"@, unsigned_json(channel.first_seen)),
                ("last_seen"@, unsigned_json(channel.last_seen)),
                ("disappeared_at"@, optional_json(channel.disappeared_at)),
            ],
        ),
        None => JsonView::Null,
    }
}

fn current(channel: &Option<ChannelRow<String>>) -> (r: Json)
    ensures
        json_view(r) == current_json(channel.deep_view()),
{
    match channel {
        Some(channel) => {
            let mut fields: Vec<(String, Json)> = Vec::new();
            put(&mut fields, "channel_id", optional_text(&channel.channel_id));
            put(&mut fields, "short_channel_id", optional_text(&channel.short_channel_id));
            put(&mut fields, "peer_id", plain_text(channel.peer_id.as_str()));
            put(&mut fields, "first_seen", unsigned(channel.first_seen));
            put(&mut fields, "last_seen", unsigned(channel.last_seen));
            put(&mut fields, "disappeared_at", optional(channel.disappeared_at));
            assert(fields_view(fields@) =~= current_json(Some(channel.deep_view()))->Object_0);
            Json::Object(fields)
        },
        None => Json::Null,
    }
}

/// What is known of a channel.
pub open spec fn details_json(details: DetailsView) -> JsonView {
    JsonView::Object(
        seq![
            ("identity"@, JsonView::Text(details.identity)),
            ("current"@, current_json(details.current)),
            ("aliases"@, list_json::<AliasRow<String>>(details.aliases)),
        ],
    )
}

pub(crate) fn channel_details(details: &ChannelDetails) -> (r: Json)
    ensures
        json_view(r) == details_json(details.deep_view()),
{
    let mut fields: Vec<(String, Json)> = Vec::new();
    put(&mut fields, "identity", plain_text(details.identity.as_str()));
    put(&mut fields, "current", current(&details.current));
    put(&mut fields, "aliases", list(&details.aliases));
    assert(fields_view(fields@) =~= details_json(details.deep_view())->Object_0);
    Json::Object(fields)
}

/// The policy of one side of a channel.
pub open spec fn policy_json(policy: ChannelPolicy) -> JsonView {
    JsonView::Object(
        seq![
            ("fee_base_msat"@, optional_json(policy.fee_base_msat)),
            ("fee_ppm"@, optional_json(policy.fee_ppm)),
            ("htlc_minimum_msat"@, optional_json(policy.htlc_minimum_msat)),
            ("htlc_maximum_msat"@, optional_json(policy.htlc_maximum_msat)),
            ("cltv_expiry_delta"@, optional_json(policy.cltv_expiry_delta)),
        ],
    )
}

fn channel_policy(policy: &ChannelPolicy) -> (r: Json)
    ensures
        json_view(r) == policy_json(*policy),
{
    let mut fields: Vec<(String, Json)> = Vec::new();
    put(&mut fields, "fee_base_msat", optional(policy.fee_base_msat));
    put(&mut fields, "fee_ppm", optional(policy.fee_ppm));
    put(&mut fields, "htlc_minimum_msat", optional(policy.htlc_minimum_msat));
    put(&mut fields, "htlc_maximum_msat", optional(policy.htlc_maximum_msat));
    put(&mut fields, "cltv_expiry_delta", optional(policy.cltv_expiry_delta));
    assert(fields_view(fields@) =~= policy_json(*policy)->Object_0);
    Json::Object(fields)
}

/// What an answer says of the pending HTLCs of a channel.
pub open spec fn htlc_fields(item: SampleItemView) -> Seq<(Seq<char>, JsonView)> {
    seq![
        ("cursor"@, unsigned_json(item.id)),
        ("timestamp"@, unsigned_json(item.timestamp)),
        ("bucket_start"@, optional_json(item.bucket_start)),
        ("channel_identity"@, JsonView::Text(item.sample.channel_key)),
        ("channel_key"@, JsonView::Text(item.sample.channel_key)),
        ("channel_id"@, optional_text_json(item.sample.channel_id)),
        ("short_channel_id"@, optional_text_json(item.sample.short_channel_id)),
        ("peer_id"@, JsonView::Text(item.sample.peer_id)),
        ("htlc_in_count"@, unsigned_json(item.sample.htlc_in_count)),
        ("htlc_out_count"@, unsigned_json(item.sample.htlc_out_count)),
        ("htlc_in_msat"@, unsigned_json(item.sample.htlc_in_msat)),
        ("htlc_out_msat"@, unsigned_json(item.sample.htlc_out_msat)),
        ("blockheight"@, optional_json(item.sample.blockheight)),
        ("htlc_min_expiry"@, optional_json(item.sample.htlc_min_expiry)),
        ("htlc_max_expiry"@, optional_json(item.sample.htlc_max_expiry)),
        ("htlc_hooked_count"@, unsigned_json(item.sample.htlc_hooked_count)),
        ("htlc_trimmed_count"@, unsigned_json(item.sample.htlc_trimmed_count)),
        ("max_accepted_htlcs"@, optional_json(item.sample.max_accepted_htlcs)),
        ("channel_details"@, details_json(item.details)),
    ]
}

/// What an answer adds about the state and the liquidity of a channel.
pub open spec fn liquidity_fields(sample: SampleView) -> Seq<(Seq<char>, JsonView)> {
    seq![
        ("state"@, JsonView::Text(sample.state)),
        ("connected"@, JsonView::Bool(sample.connected)),
        ("reestablished"@, JsonView::Bool(sample.reestablished)),
        ("capacity_msat"@, unsigned_json(sample.capacity_msat)),
        ("to_us_msat"@, unsigned_json(sample.to_us_msat)),
        ("spendable_msat"@, unsigned_json(sample.spendable_msat)),
        ("receivable_msat"@, unsigned_json(sample.receivable_msat)),
        ("local_policy"@, policy_json(sample.local_policy)),
        ("remote_policy"@, policy_json(sample.remote_policy)),
    ]
}

/// A state of a channel, or only its pending HTLCs.
pub open spec fn state_json(item: SampleItemView, htlcs_only: bool) -> JsonView {
    JsonView::Object(
        if htlcs_only {
            htlc_fields(item)
        } else {
            htlc_fields(item) + liquidity_fields(item.sample)
        },
    )
}

fn put_htlcs(fields: &mut Vec<(String, Json)>, item: &SampleItem)
    requires
        old(fields)@.len() == 0,
    ensures
        fields_view(final(fields)@) == htlc_fields(item.deep_view()),
{
    let sample = &item.sample;
    put(fields, "cursor", unsigned(item.id));
    put(fields, "timestamp", unsigned(item.timestamp));
    put(fields, "bucket_start", optional(item.bucket_start));
    put(fields, "channel_identity", plain_text(sample.channel_key.as_str()));
    put(fields, "channel_key", plain_text(sample.channel_key.as_str()));
    put(fields, "channel_id", optional_text(&sample.channel_id));
    put(fields, "short_channel_id", optional_text(&sample.short_channel_id));
    put(fields, "peer_id", plain_text(sample.peer_id.as_str()));
    put(fields, "htlc_in_count", unsigned(sample.htlc_in_count));
    put(fields, "htlc_out_count", unsigned(sample.htlc_out_count));
    put(fields, "htlc_in_msat", unsigned(sample.htlc_in_msat));
    put(fields, "htlc_out_msat", unsigned(sample.htlc_out_msat));
    put(fields, "blockheight", optional(sample.blockheight));
    put(fields, "htlc_min_expiry", optional(sample.htlc_min_expiry));
    put(fields, "htlc_max_expiry", optional(sample.htlc_max_expiry));
    put(fields, "htlc_hooked_count", unsigned(sample.htlc_hooked_count));
    put(fields, "htlc_trimmed_count", unsigned(sample.htlc_trimmed_count));
    put(fields, "max_accepted_htlcs", optional(sample.max_accepted_htlcs));
    put(fields, "channel_details", channel_details(&item.details));
}

fn put_liquidity(fields: &mut Vec<(String, Json)>, sample: &ChannelSample)
    ensures
        fields_view(final(fields)@) == fields_view(old(fields)@) + liquidity_fields(sample@),
{
    let ghost before = fields_view(fields@);
    put(fields, "state", plain_text(sample.state.as_str()));
    put(fields, "connected", Json::Bool(sample.connected));
    put(fields, "reestablished", Json::Bool(sample.reestablished));
    put(fields, "capacity_msat", unsigned(sample.capacity_msat));
    put(fields, "to_us_msat", unsigned(sample.to_us_msat));
    put(fields, "spendable_msat", unsigned(sample.spendable_msat));
    put(fields, "receivable_msat", unsigned(sample.receivable_msat));
    put(fields, "local_policy", channel_policy(&sample.local_policy));
    put(fields, "remote_policy", channel_policy(&sample.remote_policy));
    assert(fields_view(fields@) =~= before + liquidity_fields(sample@));
}

/// A state of a channel as an answer has it, or only its pending HTLCs.
pub fn sample_json(item: &SampleItem, htlcs_only: bool) -> (r: Json)
    ensures
        json_view(r) == state_json(item.deep_view(), htlcs_only),
{
    let mut fields: Vec<(String, Json)> = Vec::new();
    put_htlcs(&mut fields, item);
    if !htlcs_only {
        put_liquidity(&mut fields, &item.sample);
    }
    Json::Object(fields)
}

/// What an answer says of the states, or only of their pending HTLCs.
pub open spec fn samples_json(items: Seq<SampleItemView>, htlcs_only: bool) -> JsonView {
    JsonView::Array(Seq::new(items.len(), |i: int| state_json(items[i], htlcs_only)))
}

fn sample_list(rows: &Vec<SampleItem>, htlcs_only: bool) -> (r: Json)
    ensures
        json_view(r) == samples_json(rows.deep_view(), htlcs_only),
{
    let mut items: Vec<Json> = Vec::new();
    let ghost all = rows.deep_view();
    let ghost said = Seq::new(all.len(), |i: int| state_json(all[i], htlcs_only));
    let mut i: usize = 0;
    assert(said.take(0) =~= Seq::empty());
    while i < rows.len()
        invariant
            i <= rows@.len(),
            all == rows.deep_view(),
            said == Seq::new(all.len(), |i: int| state_json(all[i], htlcs_only)),
            items_view(items@) == said.take(i as int),
        decreases rows@.len() - i,
    {
        append(&mut items, sample_json(&rows[i], htlcs_only));
        assert(said.take(i + 1) =~= said.take(i as int).push(said[i as int]));
        i = i + 1;
    }
    assert(said.take(i as int) =~= said);
    Json::Array(items)
}

/// The answer to a query for channels.
pub open spec fn channel_samples_json(page: SamplePageView) -> JsonView {
    JsonView::Object(
        seq![
            ("api_version"@, unsigned_json(API_VERSION)),
            ("start"@, unsigned_json(page.start)),
            ("end"@, unsigned_json(page.end)),
            ("change_only"@, JsonView::Bool(true)),
            ("interval"@, optional_json(page.interval)),
            ("samples"@, samples_json(page.items, false)),
            ("pagination"@, pagination_json(page.next_cursor, page.has_more)),
        ],
    )
}

/// The answer to a query for pending HTLCs.
pub open spec fn htlc_samples_json(page: SamplePageView) -> JsonView {
    JsonView::Object(
        seq![
            ("api_version"@, unsigned_json(API_VERSION)),
            ("start"@, unsigned_json(page.start)),
            ("end"@, unsigned_json(page.end)),
            ("interval"@, optional_json(page.interval)),
            ("samples"@, samples_json(page.items, true)),
            ("pagination"@, pagination_json(page.next_cursor, page.has_more)),
        ],
    )
}

/// Answers a query for channels.
pub fn channel_samples_answer(page: &SamplePage) -> (r: Json)
    ensures
        json_view(r) == channel_samples_json(page@),
{
    let mut fields: Vec<(String, Json)> = Vec::new();
    put(&mut fields, "api_version", unsigned(API_VERSION));
    put(&mut fields, "start", unsigned(page.start));
    put(&mut fields, "end", unsigned(page.end));
    put(&mut fields, "change_only", Json::Bool(true));
    put(&mut fields, "interval", optional(page.interval));
    put(&mut fields, "samples", sample_list(&page.items, false));
    put(&mut fields, "pagination", pagination(page.next_cursor, page.has_more));
    assert(fields_view(fields@) =~= channel_samples_json(page@)->Object_0);
    Json::Object(fields)
}

/// Answers a query for pending HTLCs.
pub fn htlc_samples_answer(page: &SamplePage) -> (r: Json)
    ensures
        json_view(r) == htlc_samples_json(page@),
{
    let mut fields: Vec<(String, Json)> = Vec::new();
    put(&mut fields, "api_version", unsigned(API_VERSION));
    put(&mut fields, "start", unsigned(page.start));
    put(&mut fields, "end", unsigned(page.end));
    put(&mut fields, "interval", optional(page.interval));
    put(&mut fields, "samples", sample_list(&page.items, true));
    put(&mut fields, "pagination", pagination(page.next_cursor, page.has_more));
    assert(fields_view(fields@) =~= htlc_samples_json(page@)->Object_0);
    Json::Object(fields)
}

/// A sum in an answer. One that does not fit 64 bits is written out.
pub open spec fn sum_json(n: u128) -> JsonView {
    if n <= u64::MAX {
        unsigned_json(n as u64)
    } else {
        JsonView::Number(NumberView::Float(decimal(n as nat)))
    }
}

fn sum(n: u128) -> (r: Json)
    ensures
        json_view(r) == sum_json(n),
{
    if n <= u64::MAX as u128 {
        unsigned(n as u64)
    } else {
        Json::Number(JsonNumber::Float(decimal_text(n)))
    }
}

/// What an answer says of a forwarding pair that earned at that rate.
pub open spec fn pair_json(item: PairItemView, rate: Seq<char>) -> JsonView {
    JsonView::Object(
        seq![
            ("period"@, unsigned_json(item.totals.bucket_start)),
            ("in_channel"@, JsonView::Text(item.totals.in_channel)),
            ("out_channel"@, JsonView::Text(item.totals.out_channel)),
            ("status"@, JsonView::Text(item.totals.status)),
            (
                "failcode"@,
                if item.totals.failcode == 0 {
                    JsonView::Null
                } else {
                    unsigned_json(item.totals.failcode)
                },
            ),
            (
                "failreason"@,
                if item.totals.failreason.len() == 0 {
                    JsonView::Null
                } else {
                    JsonView::Text(item.totals.failreason)
                },
            ),
            ("forward_count"@, sum_json(item.totals.forward_count)),
            ("in_msat"@, sum_json(item.totals.in_msat)),
            ("out_msat"@, sum_json(item.totals.out_msat)),
            ("fee_msat"@, sum_json(item.totals.fee_msat)),
            ("effective_ppm"@, JsonView::Number(NumberView::Float(rate))),
            ("in_channel_identity"@, JsonView::Text(item.totals.in_channel)),
            ("out_channel_identity"@, JsonView::Text(item.totals.out_channel)),
            ("in_channel_details"@, details_json(item.in_details)),
            ("out_channel_details"@, details_json(item.out_details)),
        ],
    )
}

fn pair(item: &PairItem, rate: &str) -> (r: Json)
    ensures
        json_view(r) == pair_json(item.deep_view(), rate@),
{
    let totals = &item.totals;
    let failcode = if totals.failcode == 0 {
        Json::Null
    } else {
        unsigned(totals.failcode)
    };
    let failreason = if totals.failreason.as_str().unicode_len() == 0 {
        Json::Null
    } else {
        plain_text(totals.failreason.as_str())
    };
    let mut fields: Vec<(String, Json)> = Vec::new();
    put(&mut fields, "period", unsigned(totals.bucket_start));
    put(&mut fields, "in_channel", plain_text(totals.in_channel.as_str()));
    put(&mut fields, "out_channel", plain_text(totals.out_channel.as_str()));
    put(&mut fields, "status", plain_text(totals.status.as_str()));
    put(&mut fields, "failcode", failcode);
    put(&mut fields, "failreason", failreason);
    put(&mut fields, "forward_count", sum(totals.forward_count));
    put(&mut fields, "in_msat", sum(totals.in_msat));
    put(&mut fields, "out_msat", sum(totals.out_msat));
    put(&mut fields, "fee_msat", sum(totals.fee_msat));
    put(&mut fields, "effective_ppm", Json::Number(JsonNumber::Float(rate.to_owned())));
    put(&mut fields, "in_channel_identity", plain_text(totals.in_channel.as_str()));
    put(&mut fields, "out_channel_identity", plain_text(totals.out_channel.as_str()));
    put(&mut fields, "in_channel_details", channel_details(&item.in_details));
    put(&mut fields, "out_channel_details", channel_details(&item.out_details));
    assert(fields_view(fields@) =~= pair_json(item.deep_view(), rate@)->Object_0);
    Json::Object(fields)
}

/// What an answer says of forwarding pairs that earned at those rates.
pub open spec fn pairs_json(items: Seq<PairItemView>, rates: Seq<Seq<char>>) -> JsonView {
    JsonView::Array(Seq::new(items.len(), |i: int| pair_json(items[i], rates[i])))
}

fn pair_list(rows: &Vec<PairItem>, rates: &Vec<String>) -> (r: Json)
    requires
        rates@.len() == rows@.len(),
    ensures
        json_view(r) == pairs_json(rows.deep_view(), rates.deep_view()),
{
    let mut items: Vec<Json> = Vec::new();
    let ghost all = rows.deep_view();
    let ghost texts = rates.deep_view();
    let ghost said = Seq::new(all.len(), |i: int| pair_json(all[i], texts[i]));
    let mut i: usize = 0;
    assert(said.take(0) =~= Seq::empty());
    while i < rows.len()
        invariant
            i <= rows@.len(),
            rates@.len() == rows@.len(),
            all == rows.deep_view(),
            texts == rates.deep_view(),
            said == Seq::new(all.len(), |i: int| pair_json(all[i], texts[i])),
            items_view(items@) == said.take(i as int),
        decreases rows@.len() - i,
    {
        append(&mut items, pair(&rows[i], rates[i].as_str()));
        assert(said.take(i + 1) =~= said.take(i as int).push(said[i as int]));
        i = i + 1;
    }
    assert(said.take(i as int) =~= said);
    Json::Array(items)
}

/// The answer to a query for forwarding pairs.
pub open spec fn forward_pairs_json(page: PairPageView, rates: Seq<Seq<char>>) -> JsonView {
    JsonView::Object(
        seq![
            ("api_version"@, unsigned_json(API_VERSION)),
            ("start"@, unsigned_json(page.start)),
            ("end"@, unsigned_json(page.end)),
            ("interval"@, unsigned_json(page.interval)),
            ("pairs"@, pairs_json(page.items, rates)),
            ("pagination"@, pagination_json(page.next_cursor, page.has_more)),
        ],
    )
}

/// Answers a query for forwarding pairs, each of which earned at the rate that stands in its place.
pub fn forward_pairs_answer(page: &PairPage, rates: &Vec<String>) -> (r: Json)
    requires
        rates@.len() == page.items@.len(),
    ensures
        json_view(r) == forward_pairs_json(page@, rates.deep_view()),
{
    let mut fields: Vec<(String, Json)> = Vec::new();
    put(&mut fields, "api_version", unsigned(API_VERSION));
    put(&mut fields, "start", unsigned(page.start));
    put(&mut fields, "end", unsigned(page.end));
    put(&mut fields, "interval", unsigned(page.interval));
    put(&mut fields, "pairs", pair_list(&page.items, rates));
    put(&mut fields, "pagination", pagination(page.next_cursor, page.has_more));
    assert(fields_view(fields@) =~= forward_pairs_json(page@, rates.deep_view())->Object_0);
    Json::Object(fields)
}

impl Answer for EventRow<String> {
    open spec fn said(event: EventRow<Seq<char>>) -> JsonView {
        JsonView::Object(
            seq![
                ("cursor"@, unsigned_json(event.id)),
                ("timestamp"@, unsigned_json(event.ts)),
                ("event_type"@, JsonView::Text(event.event_type)),
                ("channel_identity"@, optional_text_json(event.channel_key)),
                ("channel_key"@, optional_text_json(event.channel_key)),
                ("channel_id"@, optional_text_json(event.channel_id)),
                ("short_channel_id"@, optional_text_json(event.short_channel_id)),
                ("peer_id"@, optional_text_json(event.peer_id)),
                ("old_state"@, optional_text_json(event.old_state)),
                ("new_state"@, optional_text_json(event.new_state)),
                ("cause"@, optional_text_json(event.cause)),
                ("direction"@, optional_text_json(event.direction)),
                ("reason"@, optional_text_json(event.reason)),
            ],
        )
    }

    fn answer(&self) -> (r: Json) {
        let mut fields: Vec<(String, Json)> = Vec::new();
        put(&mut fields, "cursor", unsigned(self.id));
        put(&mut fields, "timestamp", unsigned(self.ts));
        put(&mut fields, "event_type", plain_text(self.event_type.as_str()));
        put(&mut fields, "channel_identity", optional_text(&self.channel_key));
        put(&mut fields, "channel_key", optional_text(&self.channel_key));
        put(&mut fields, "channel_id", optional_text(&self.channel_id));
        put(&mut fields, "short_channel_id", optional_text(&self.short_channel_id));
        put(&mut fields, "peer_id", optional_text(&self.peer_id));
        put(&mut fields, "old_state", optional_text(&self.old_state));
        put(&mut fields, "new_state", optional_text(&self.new_state));
        put(&mut fields, "cause", optional_text(&self.cause));
        put(&mut fields, "direction", optional_text(&self.direction));
        put(&mut fields, "reason", optional_text(&self.reason));
        assert(fields_view(fields@) =~= Self::said(self.deep_view())->Object_0);
        Json::Object(fields)
    }
}

/// The answer to a query for events.
pub open spec fn events_json(page: EventPageView) -> JsonView {
    JsonView::Object(
        seq![
            ("api_version"@, unsigned_json(API_VERSION)),
            ("start"@, unsigned_json(page.start)),
            ("end"@, unsigned_json(page.end)),
            ("events"@, list_json::<EventRow<String>>(page.items)),
            ("pagination"@, pagination_json(page.next_cursor, page.has_more)),
        ],
    )
}

/// Answers a query for events.
pub fn events_answer(page: &EventPage) -> (r: Json)
    ensures
        json_view(r) == events_json(page@),
{
    let mut fields: Vec<(String, Json)> = Vec::new();
    put(&mut fields, "api_version", unsigned(API_VERSION));
    put(&mut fields, "start", unsigned(page.start));
    put(&mut fields, "end", unsigned(page.end));
    put(&mut fields, "events", list(&page.items));
    put(&mut fields, "pagination", pagination(page.next_cursor, page.has_more));
    assert(fields_view(fields@) =~= events_json(page@)->Object_0);
    Json::Object(fields)
}

} // verus!
