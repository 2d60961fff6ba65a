//! JSON documents as plain values, and the ways the plugins read them.

use crate::text::{
    digits_at_start, has_suffix, leading_digits, parse_number, same_text, spelled_number,
    without_suffix,
};
use vstd::prelude::*;

verus! {

/// A JSON number. A number that is not an integer, or does not fit 64 bits, is kept as its text.
#[derive(Debug)]
pub enum JsonNumber {
    Unsigned(u64),
    Negative(i64),
    Float(String),
}

/// A JSON document. The fields of an object stand in the order in which they are walked.
#[derive(Debug)]
pub enum Json {
    Null,
    Bool(bool),
    Number(JsonNumber),
    Text(String),
    Array(Vec<Json>),
    Object(Vec<(String, Json)>),
}

impl Clone for JsonNumber {
    fn clone(&self) -> (r: Self)
        ensures
            r == *self,
    {
        match self {
            JsonNumber::Unsigned(n) => JsonNumber::Unsigned(*n),
            JsonNumber::Negative(n) => JsonNumber::Negative(*n),
            JsonNumber::Float(text) => JsonNumber::Float(text.clone()),
        }
    }
}

/// The value of the first field that is named `key`.
pub open spec fn find_field(fields: Seq<(String, Json)>, key: Seq<char>) -> Option<Json>
    decreases fields.len(),
{
    if fields.len() == 0 {
        None
    } else if fields[0].0@ == key {
        Some(fields[0].1)
    } else {
        find_field(fields.drop_first(), key)
    }
}

/// What an optional reference refers to.
pub open spec fn referent(value: Option<&Json>) -> Option<Json> {
    match value {
        Some(value) => Some(*value),
        None => None,
    }
}

impl Json {
    /// The value of a field. Only objects have fields.
    pub open spec fn field(self, key: Seq<char>) -> Option<Json> {
        match self {
            Json::Object(fields) => find_field(fields@, key),
            _ => None,
        }
    }

    /// The text of a string.
    pub open spec fn text(self) -> Option<Seq<char>> {
        match self {
            Json::Text(text) => Some(text@),
            _ => None,
        }
    }

    /// An integer from 0 to 2^64 - 1.
    pub open spec fn unsigned(self) -> Option<u64> {
        match self {
            Json::Number(JsonNumber::Unsigned(n)) => Some(n),
            _ => None,
        }
    }

    /// An integer that fits 64 bits with a sign.
    pub open spec fn signed(self) -> Option<i64> {
        match self {
            Json::Number(JsonNumber::Unsigned(n)) if n <= i64::MAX => Some(n as i64),
            Json::Number(JsonNumber::Negative(n)) => Some(n),
            _ => None,
        }
    }

    /// A truth value.
    pub open spec fn boolean(self) -> Option<bool> {
        match self {
            Json::Bool(b) => Some(b),
            _ => None,
        }
    }

    /// The elements of an array.
    pub open spec fn elements(self) -> Option<Seq<Json>> {
        match self {
            Json::Array(items) => Some(items@),
            _ => None,
        }
    }

    /// The fields of an object.
    pub open spec fn members(self) -> Option<Seq<(String, Json)>> {
        match self {
            Json::Object(fields) => Some(fields@),
            _ => None,
        }
    }

    /// The field of a field.
    pub open spec fn field2(self, first: Seq<char>, second: Seq<char>) -> Option<Json> {
        match self.field(first) {
            Some(value) => value.field(second),
            None => None,
        }
    }

    /// The text of a field that is a string.
    pub open spec fn text_at(self, key: Seq<char>) -> Option<Seq<char>> {
        match self.field(key) {
            Some(value) => value.text(),
            None => None,
        }
    }

    /// The text of a field, or a default where it is missing or no string.
    pub open spec fn text_or(self, key: Seq<char>, default: Seq<char>) -> Seq<char> {
        match self.text_at(key) {
            Some(text) => text,
            None => default,
        }
    }

    /// The integer of a field.
    pub open spec fn unsigned_at(self, key: Seq<char>) -> Option<u64> {
        match self.field(key) {
            Some(value) => value.unsigned(),
            None => None,
        }
    }

    /// The integer of a field, or 0.
    pub open spec fn unsigned_or_zero(self, key: Seq<char>) -> u64 {
        match self.unsigned_at(key) {
            Some(n) => n,
            None => 0,
        }
    }

    /// The signed integer of a field.
    pub open spec fn signed_at(self, key: Seq<char>) -> Option<i64> {
        match self.field(key) {
            Some(value) => value.signed(),
            None => None,
        }
    }

    /// Whether a field is the truth value `true`.
    pub open spec fn holds(self, key: Seq<char>) -> bool {
        match self.field(key) {
            Some(value) => value.boolean() == Some(true),
            None => false,
        }
    }

    /// The elements of a field that is an array; none where it is missing or no array.
    pub open spec fn elements_at(self, key: Seq<char>) -> Seq<Json> {
        match self.field(key) {
            Some(Json::Array(items)) => items@,
            _ => seq![],
        }
    }

    /// An amount in millisatoshi: an integer, a string of digits with the unit `msat` behind it,
    /// or an object whose field `msat` is an integer.
    pub open spec fn millisatoshi(self) -> Option<u64> {
        match self {
            Json::Number(JsonNumber::Unsigned(n)) => Some(n),
            Json::Text(text) => if has_suffix(text@, "msat"@) {
                spelled_number(text@.take(text@.len() - "msat"@.len()))
            } else {
                None
            },
            _ => self.unsigned_at("msat"@),
        }
    }

    /// The amount of a field.
    pub open spec fn millisatoshi_at(self, key: Seq<char>) -> Option<u64> {
        match self.field(key) {
            Some(value) => value.millisatoshi(),
            None => None,
        }
    }

    /// The amount of a field, or 0.
    pub open spec fn millisatoshi_or_zero(self, key: Seq<char>) -> u64 {
        amount_of(self.field(key))
    }

    /// An integer, or the digits that a string starts with.
    pub open spec fn leading_number(self) -> Option<u64> {
        match self {
            Json::Number(JsonNumber::Unsigned(n)) => Some(n),
            Json::Text(text) => spelled_number(text@.take(leading_digits(text@))),
            _ => None,
        }
    }

    /// The value of a field.
    pub fn get(&self, key: &str) -> (r: Option<&Json>)
        ensures
            referent(r) == self.field(key@),
    {
        match self {
            Json::Object(fields) => {
                let mut i: usize = 0;
                assert(fields@.skip(0) =~= fields@);
                while i < fields.len()
                    invariant
                        *self == Json::Object(*fields),
                        i <= fields@.len(),
                        find_field(fields@, key@) == find_field(fields@.skip(i as int), key@),
                    decreases fields@.len() - i,
                {
                    assert(fields@.skip(i as int).drop_first() =~= fields@.skip(i + 1));
                    if same_text(fields[i].0.as_str(), key) {
                        return Some(&fields[i].1);
                    }
                    i = i + 1;
                }
                None
            },
            _ => None,
        }
    }

    /// The field of a field.
    pub fn get2(&self, first: &str, second: &str) -> (r: Option<&Json>)
        ensures
            referent(r) == self.field2(first@, second@),
    {
        match self.get(first) {
            Some(value) => value.get(second),
            None => None,
        }
    }

    /// The text of a string.
    pub fn as_str(&self) -> (r: Option<&str>)
        ensures
            r.deep_view() == self.text(),
    {
        match self {
            Json::Text(text) => Some(text.as_str()),
            _ => None,
        }
    }

    /// An integer without a sign.
    pub fn as_u64(&self) -> (r: Option<u64>)
        ensures
            r == self.unsigned(),
    {
        match self {
            Json::Number(JsonNumber::Unsigned(n)) => Some(*n),
            _ => None,
        }
    }

    /// An integer with a sign.
    pub fn as_i64(&self) -> (r: Option<i64>)
        ensures
            r == self.signed(),
    {
        match self {
            Json::Number(JsonNumber::Unsigned(n)) => if *n <= i64::MAX as u64 {
                Some(*n as i64)
            } else {
                None
            },
            Json::Number(JsonNumber::Negative(n)) => Some(*n),
            _ => None,
        }
    }

    /// A truth value.
    pub fn as_bool(&self) -> (r: Option<bool>)
        ensures
            r == self.boolean(),
    {
        match self {
            Json::Bool(b) => Some(*b),
            _ => None,
        }
    }

    /// The fields of an object.
    pub fn as_object(&self) -> (r: Option<&Vec<(String, Json)>>)
        ensures
            match r {
                Some(fields) => *self == Json::Object(*fields) && self.members() == Some(fields@),
                None => self.members() is None,
            },
    {
        match self {
            Json::Object(fields) => Some(fields),
            _ => None,
        }
    }

    /// The elements of an array.
    pub fn as_array(&self) -> (r: Option<&Vec<Json>>)
        ensures
            match r {
                Some(items) => *self == Json::Array(*items) && self.elements() == Some(items@),
                None => self.elements() is None,
            },
    {
        match self {
            Json::Array(items) => Some(items),
            _ => None,
        }
    }

    /// The text of a field.
    pub fn text_field(&self, key: &str) -> (r: Option<&str>)
        ensures
            r.deep_view() == self.text_at(key@),
    {
        match self.get(key) {
            Some(value) => value.as_str(),
            None => None,
        }
    }

    /// A copy of the text of a field.
    pub fn owned_text_field(&self, key: &str) -> (r: Option<String>)
        ensures
            r.deep_view() == self.text_at(key@),
    {
        match self.text_field(key) {
            Some(text) => Some(text.to_owned()),
            None => None,
        }
    }

    /// The text of a field, or a default.
    pub fn text_field_or<'a>(&'a self, key: &str, default: &'a str) -> (r: &'a str)
        ensures
            r@ == self.text_or(key@, default@),
    {
        match self.text_field(key) {
            Some(text) => text,
            None => default,
        }
    }

    /// The integer of a field.
    pub fn u64_field(&self, key: &str) -> (r: Option<u64>)
        ensures
            r == self.unsigned_at(key@),
    {
        match self.get(key) {
            Some(value) => value.as_u64(),
            None => None,
        }
    }

    /// The integer of a field, or 0.
    pub fn u64_field_or_zero(&self, key: &str) -> (r: u64)
        ensures
            r == self.unsigned_or_zero(key@),
    {
        match self.u64_field(key) {
            Some(n) => n,
            None => 0,
        }
    }

    /// The signed integer of a field.
    pub fn i64_field(&self, key: &str) -> (r: Option<i64>)
        ensures
            r == self.signed_at(key@),
    {
        match self.get(key) {
            Some(value) => value.as_i64(),
            None => None,
        }
    }

    /// Whether a field is `true`.
    pub fn flag(&self, key: &str) -> (r: bool)
        ensures
            r == self.holds(key@),
    {
        match self.get(key) {
            Some(value) => match value.as_bool() {
                Some(b) => b,
                None => false,
            },
            None => false,
        }
    }

    /// The elements of a field that is an array.
    pub fn array_field(&self, key: &str) -> (r: Option<&Vec<Json>>)
        ensures
            match r {
                Some(items) => self.elements_at(key@) == items@ && self.field(key@) == Some(
                    Json::Array(*items),
                ),
                None => self.elements_at(key@).len() == 0 && !(self.field(key@) matches Some(
                    Json::Array(_),
                )),
            },
    {
        match self.get(key) {
            Some(value) => value.as_array(),
            None => None,
        }
    }

    /// The amount of a field.
    pub fn msat_field(&self, key: &str) -> (r: Option<u64>)
        ensures
            r == self.millisatoshi_at(key@),
    {
        match self.get(key) {
            Some(value) => msat(value),
            None => None,
        }
    }

    /// The amount of a field, or 0.
    pub fn msat_field_or_zero(&self, key: &str) -> (r: u64)
        ensures
            r == self.millisatoshi_or_zero(key@),
    {
        amount_msat(self.get(key))
    }
}

/// The amount of a value that may be missing: 0 where it is missing or no amount.
pub open spec fn amount_of(value: Option<Json>) -> u64 {
    match value {
        Some(value) => match value.millisatoshi() {
            Some(amount) => amount,
            None => 0,
        },
        None => 0,
    }
}

/// Reads an amount in millisatoshi.
pub fn msat(value: &Json) -> (r: Option<u64>)
    ensures
        r == value.millisatoshi(),
{
    match value {
        Json::Number(JsonNumber::Unsigned(n)) => Some(*n),
        Json::Text(text) => match without_suffix(text.as_str(), "msat") {
            Some(digits) => parse_number(digits),
            None => None,
        },
        _ => value.u64_field("msat"),
    }
}

/// Reads an amount that may be missing.
pub fn amount_msat(value: Option<&Json>) -> (r: u64)
    ensures
        r == amount_of(referent(value)),
{
    match value {
        Some(value) => match msat(value) {
            Some(amount) => amount,
            None => 0,
        },
        None => 0,
    }
}

/// Reads an integer, or the digits at the start of a string.
pub fn leading_u64(value: &Json) -> (r: Option<u64>)
    ensures
        r == value.leading_number(),
{
    match value {
        Json::Number(JsonNumber::Unsigned(n)) => Some(*n),
        Json::Text(text) => {
            let digits = digits_at_start(text.as_str());
            parse_number(digits.as_str())
        },
        _ => None,
    }
}

/// Where no two fields of an object share a name, every field is found by its name.
pub proof fn law_distinct_fields_are_found(fields: Vec<(String, Json)>, i: int)
    requires
        0 <= i < fields@.len(),
        forall|a: int, b: int|
            0 <= a < b < fields@.len() ==> (#[trigger] fields@[a]).0@ != (#[trigger] fields@[b]).0@,
    ensures
        Json::Object(fields).field(fields@[i].0@) == Some(fields@[i].1),
{
    lemma_find_field(fields@, i);
}

proof fn lemma_find_field(fields: Seq<(String, Json)>, i: int)
    requires
        0 <= i < fields.len(),
        forall|a: int, b: int|
            0 <= a < b < fields.len() ==> (#[trigger] fields[a]).0@ != (#[trigger] fields[b]).0@,
    ensures
        find_field(fields, fields[i].0@) == Some(fields[i].1),
    decreases fields.len(),
{
    if i > 0 {
        let rest = fields.drop_first();
        assert forall|a: int, b: int| 0 <= a < b < rest.len() implies (#[trigger] rest[a]).0@ != (
        #[trigger] rest[b]).0@ by {
            assert(rest[a] == fields[a + 1]);
            assert(rest[b] == fields[b + 1]);
        }
        lemma_find_field(rest, i - 1);
    }
}

} // verus!
