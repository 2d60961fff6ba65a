//! How numbers, amounts and words are written and read.

use crate::json::{amount_of, find_field, Json, JsonNumber};
use crate::ordered::parts_before;
use crate::text::{
    all_digits, contains_text, decimal, first_word, has_suffix, is_digit, is_space, leading_digits,
    leading_spaces, leading_word, number_of, replaced, signed_decimal, spelled_number, text_before,
};
use vstd::prelude::*;

verus! {

/// A number that is written in decimals is made of digits, does not begin with a zero unless it is
/// zero, and is read back.
pub proof fn law_decimals_are_read_back(n: nat)
    ensures
        decimal(n).len() > 0,
        all_digits(decimal(n)),
        number_of(decimal(n)) == n,
        n > 0 ==> decimal(n)[0] != '0',
        n == 0 ==> decimal(n) == seq!['0'],
        n <= u64::MAX ==> spelled_number(decimal(n)) == Some(n as u64),
        n > u64::MAX ==> spelled_number(decimal(n)) is None,
    decreases n,
{
    if n < 10 {
        let s = decimal(n);
        assert(s.drop_last() =~= Seq::empty());
        assert(number_of(s.drop_last()) == 0);
    } else {
        law_decimals_are_read_back(n / 10);
        let s = decimal(n);
        assert(s.drop_last() =~= decimal(n / 10));
        assert(s[0] == decimal(n / 10)[0]);
        assert forall|i: int| 0 <= i < s.len() implies is_digit(#[trigger] s[i]) by {
            if i < s.len() - 1 {
                assert(s[i] == decimal(n / 10)[i]);
            }
        }
    }
    assert(is_digit(decimal(n)[0]));
}

/// Different numbers are written differently.
pub proof fn law_decimals_differ(a: nat, b: nat)
    requires
        a != b,
    ensures
        decimal(a) != decimal(b),
{
    law_decimals_are_read_back(a);
    law_decimals_are_read_back(b);
}

/// A negative number is written with a minus sign ahead of its size, another without.
pub proof fn law_signs_are_written(n: nat)
    ensures
        signed_decimal(n as int) == decimal(n),
        n > 0 ==> signed_decimal(-(n as int)) == seq!['-'] + decimal(n),
{
}

/// A number may be written with a plus sign. What has any other sign in it, or nothing, is no number.
pub proof fn law_other_words_are_no_numbers(s: Seq<char>, n: u64, i: int)
    ensures
        spelled_number(seq!['+'] + decimal(n as nat)) == Some(n),
        s.len() == 0 ==> spelled_number(s) is None,
        0 <= i < s.len() && !is_digit(s[i]) && !(i == 0 && s[0] == '+') ==> spelled_number(s) is None,
{
    law_decimals_are_read_back(n as nat);
    let signed = seq!['+'] + decimal(n as nat);
    assert(signed.drop_first() =~= decimal(n as nat));
    if 0 <= i < s.len() && !is_digit(s[i]) && !(i == 0 && s[0] == '+') {
        if s[0] == '+' {
            assert(s.drop_first()[i - 1] == s[i]);
        }
    }
}

/// A field that no member has the name of is not there.
pub proof fn law_missing_fields_are_not_found(fields: Vec<(String, Json)>, name: Seq<char>)
    requires
        forall|i: int| 0 <= i < fields@.len() ==> (#[trigger] fields@[i]).0@ != name,
    ensures
        Json::Object(fields).field(name) is None,
{
    lemma_missing(fields@, name);
}

proof fn lemma_missing(fields: Seq<(String, Json)>, name: Seq<char>)
    requires
        forall|i: int| 0 <= i < fields.len() ==> (#[trigger] fields[i]).0@ != name,
    ensures
        find_field(fields, name) is None,
    decreases fields.len(),
{
    if fields.len() > 0 {
        let rest = fields.drop_first();
        assert forall|i: int| 0 <= i < rest.len() implies (#[trigger] rest[i]).0@ != name by {
            assert(rest[i] == fields[i + 1]);
        }
        lemma_missing(rest, name);
    }
}

/// Only an object has fields.
pub proof fn law_only_objects_have_fields(value: Json, name: Seq<char>)
    requires
        !(value is Object),
    ensures
        value.field(name) is None,
        value.text_at(name) is None,
        value.unsigned_at(name) is None,
        value.elements_at(name).len() == 0,
        !value.holds(name),
{
}

/// What a field holds is read by its kind: words from a text, a number that is not negative from a
/// number, a truth from a truth, a list from a list, and nothing from what is of another kind.
pub proof fn law_fields_are_read_by_kind(value: Json, name: Seq<char>)
    ensures
        value.field(name) matches Some(Json::Text(s)) ==> value.text_at(name) == Some(s@),
        !(value.field(name) matches Some(Json::Text(_))) ==> value.text_at(name) is None,
        value.field(name) matches Some(Json::Number(JsonNumber::Unsigned(n))) ==> value.unsigned_at(
            name,
        ) == Some(n) && value.unsigned_or_zero(name) == n,
        !(value.field(name) matches Some(Json::Number(JsonNumber::Unsigned(_))))
            ==> value.unsigned_at(name) is None && value.unsigned_or_zero(name) == 0,
        value.field(name) matches Some(Json::Number(JsonNumber::Negative(n))) ==> value.signed_at(
            name,
        ) == Some(n),
        value.field(name) matches Some(Json::Number(JsonNumber::Unsigned(n))) ==> (n <= i64::MAX
            ==> value.signed_at(name) == Some(n as i64)),
        value.field(name) matches Some(Json::Number(JsonNumber::Unsigned(n))) ==> (n > i64::MAX
            ==> value.signed_at(name) is None),
        value.holds(name) <==> value.field(name) == Some(Json::Bool(true)),
        value.field(name) matches Some(Json::Array(items)) ==> value.elements_at(name) == items@,
        !(value.field(name) matches Some(Json::Array(_))) ==> value.elements_at(name).len() == 0,
        value.text_or(name, "unknown"@) == match value.field(name) {
            Some(Json::Text(s)) => s@,
            _ => "unknown"@,
        },
{
}

/// An amount is a number, a text that gives the number and the unit, or an object that gives the number
/// under the name of the unit. Anything else is no amount, and counts as none.
pub proof fn law_amounts_are_read(value: Json, n: u64)
    ensures
        value == Json::Number(JsonNumber::Unsigned(n)) ==> value.millisatoshi() == Some(n),
        value matches Json::Text(s) ==> (s@ == decimal(n as nat) + "msat"@ ==> value.millisatoshi()
            == Some(n)),
        value matches Json::Text(s) ==> (s@.len() < 4 || s@.skip(s@.len() - 4) != "msat"@
            ==> value.millisatoshi() is None),
        value is Object ==> value.millisatoshi() == value.unsigned_at("msat"@),
        value is Null || value is Bool || value is Array || (value is Number && !(
        value->Number_0 is Unsigned)) ==> value.millisatoshi() is None,
        value.millisatoshi() matches Some(amount) ==> amount_of(Some(value)) == amount,
        value.millisatoshi() is None ==> amount_of(Some(value)) == 0,
        amount_of(None) == 0,
{
    reveal_strlit("msat");
    assert("msat"@.len() == 4);
    law_decimals_are_read_back(n as nat);
    if let Json::Text(s) = value {
        if s@ == decimal(n as nat) + "msat"@ {
            assert(s@.skip(s@.len() - 4) =~= "msat"@);
            assert(s@.take(s@.len() - 4) =~= decimal(n as nat));
        }
    }
}

/// The amount in a field is that of what the field holds, and none where there is no field.
pub proof fn law_amounts_in_fields_are_read(value: Json, name: Seq<char>)
    ensures
        value.field(name) matches Some(found) ==> value.millisatoshi_at(name) == found.millisatoshi(),
        value.field(name) is None ==> value.millisatoshi_at(name) is None,
        value.millisatoshi_or_zero(name) == match value.millisatoshi_at(name) {
            Some(amount) => amount,
            None => 0,
        },
{
}

proof fn lemma_leading_digits(s: Seq<char>, n: int)
    requires
        0 <= n <= s.len(),
        all_digits(s.take(n)),
        n < s.len() ==> !is_digit(s[n]),
    ensures
        leading_digits(s) == n,
    decreases s.len(),
{
    if n > 0 {
        assert(s.take(n)[0] == s[0]);
        let rest = s.drop_first();
        assert forall|i: int| 0 <= i < rest.take(n - 1).len() implies is_digit(
            #[trigger] rest.take(n - 1)[i],
        ) by {
            assert(s.take(n)[i + 1] == rest.take(n - 1)[i]);
        }
        lemma_leading_digits(rest, n - 1);
    }
}

/// The number at the beginning of a text is read, whatever follows its digits.
pub proof fn law_leading_numbers_are_read(value: Json, n: u64, rest: Seq<char>)
    requires
        rest.len() > 0 ==> !is_digit(rest[0]),
    ensures
        value == Json::Number(JsonNumber::Unsigned(n)) ==> value.leading_number() == Some(n),
        value matches Json::Text(s) ==> (s@ == decimal(n as nat) + rest ==> value.leading_number()
            == Some(n)),
        value matches Json::Text(s) ==> (s@.len() == 0 || !is_digit(s@[0])
            ==> value.leading_number() is None),
        !(value is Number) && !(value is Text) ==> value.leading_number() is None,
{
    law_decimals_are_read_back(n as nat);
    if let Json::Text(s) = value {
        let d = decimal(n as nat);
        if s@ == d + rest {
            assert(s@.take(d.len() as int) =~= d);
            lemma_leading_digits(s@, d.len() as int);
        }
        if s@.len() == 0 || !is_digit(s@[0]) {
            assert(s@.take(0) =~= Seq::empty());
        }
    }
}

proof fn lemma_leading_word(s: Seq<char>, n: int)
    requires
        0 <= n <= s.len(),
        forall|i: int| 0 <= i < n ==> !is_space(#[trigger] s[i]),
        n < s.len() ==> is_space(s[n]),
    ensures
        leading_word(s) == n,
    decreases s.len(),
{
    if n > 0 {
        let rest = s.drop_first();
        assert forall|i: int| 0 <= i < n - 1 implies !is_space(#[trigger] rest[i]) by {
            assert(rest[i] == s[i + 1]);
        }
        assert(!is_space(s[0]));
        lemma_leading_word(rest, n - 1);
    }
}

proof fn lemma_leading_spaces(s: Seq<char>, n: int)
    requires
        0 <= n <= s.len(),
        forall|i: int| 0 <= i < n ==> is_space(#[trigger] s[i]),
        n < s.len() ==> !is_space(s[n]),
    ensures
        leading_spaces(s) == n,
    decreases s.len(),
{
    if n > 0 {
        let rest = s.drop_first();
        assert forall|i: int| 0 <= i < n - 1 implies is_space(#[trigger] rest[i]) by {
            assert(rest[i] == s[i + 1]);
        }
        assert(is_space(s[0]));
        lemma_leading_spaces(rest, n - 1);
    }
}

/// The first word of a text is what stands between the space ahead of it and the space behind it. A text
/// of space alone has none.
pub proof fn law_the_first_word_is_found(space: Seq<char>, word: Seq<char>, rest: Seq<char>)
    requires
        forall|i: int| 0 <= i < space.len() ==> is_space(#[trigger] space[i]),
        forall|i: int| 0 <= i < word.len() ==> !is_space(#[trigger] word[i]),
        rest.len() > 0 ==> is_space(rest[0]),
    ensures
        word.len() > 0 ==> first_word(space + word + rest) == Some(word),
        first_word(space) is None,
{
    lemma_leading_spaces(space, space.len() as int);
    if word.len() > 0 {
        let all = space + word + rest;
        assert(all[space.len() as int] == word[0]);
        lemma_leading_spaces(all, space.len() as int);
        let tail = all.skip(space.len() as int);
        assert(tail =~= word + rest);
        assert forall|i: int| 0 <= i < word.len() implies !is_space(#[trigger] tail[i]) by {
            assert(tail[i] == word[i]);
        }
        lemma_leading_word(tail, word.len() as int);
        assert(tail.take(word.len() as int) =~= word);
    }
}

/// A blank, a tab and the ends of lines are space. Letters, digits and signs are not.
pub proof fn law_space_is_known(c: char)
    ensures
        c == ' ' || c == '\t' || c == '\n' || c == '\r' ==> is_space(c),
        '!' <= c && c <= '~' ==> !is_space(c),
{
}

/// Replacing a sign leaves the others, and leaves none of it.
pub proof fn law_signs_are_replaced(s: Seq<char>, from: char, to: char)
    ensures
        replaced(s, from, to).len() == s.len(),
        forall|i: int|
            0 <= i < s.len() && s[i] != from ==> #[trigger] replaced(s, from, to)[i] == s[i],
        forall|i: int|
            0 <= i < s.len() && s[i] == from ==> #[trigger] replaced(s, from, to)[i] == to,
        from != to ==> !replaced(s, from, to).contains(from),
{
}

/// A text ends with an ending if and only if it is something and then the ending.
pub proof fn law_endings_are_known(s: Seq<char>, ending: Seq<char>)
    ensures
        has_suffix(s + ending, ending),
        has_suffix(s, ending) ==> s == s.take(s.len() - ending.len()) + ending,
{
    assert((s + ending).skip(s.len() as int) =~= ending);
    if has_suffix(s, ending) {
        assert(s =~= s.take(s.len() - ending.len()) + s.skip(s.len() - ending.len()));
    }
}

/// A text contains what stands between its beginning and its end.
pub proof fn law_parts_are_contained(head: Seq<char>, part: Seq<char>, tail: Seq<char>)
    ensures
        contains_text(head + part + tail, part),
{
    let s = head + part + tail;
    assert(s.subrange(head.len() as int, head.len() as int + part.len()) =~= part);
}

/// Texts are ordered by the first sign in which they differ, and one that another begins with comes
/// ahead of it.
pub proof fn law_texts_are_ordered_by_their_first_difference(
    head: Seq<char>,
    c: char,
    d: char,
    x: Seq<char>,
    y: Seq<char>,
)
    ensures
        c < d ==> text_before(head.push(c) + x, head.push(d) + y),
        c > d ==> !text_before(head.push(c) + x, head.push(d) + y),
        text_before(head, head.push(c) + x),
        !text_before(head.push(c) + x, head),
    decreases head.len(),
{
    let one = head.push(c) + x;
    let two = head.push(d) + y;
    if head.len() > 0 {
        let rest = head.drop_first();
        law_texts_are_ordered_by_their_first_difference(rest, c, d, x, y);
        assert(one.drop_first() =~= rest.push(c) + x);
        assert(two.drop_first() =~= rest.push(d) + y);
        assert(one[0] == head[0] && two[0] == head[0]);
    } else {
        assert(one[0] == c && two[0] == d);
    }
}

/// Keys of two parts are ordered by the first, and by the second where the first is the same.
pub proof fn law_keys_are_ordered_by_their_parts(
    a: Seq<char>,
    b: Seq<char>,
    x: Seq<char>,
    y: Seq<char>,
)
    ensures
        parts_before(seq![a], seq![b]) <==> text_before(a, b),
        text_before(a, b) ==> parts_before(seq![a, x], seq![b, y]),
        parts_before(seq![a, x], seq![a, y]) <==> text_before(x, y),
{
    crate::text::lemma_text_before_irreflexive(a);
    assert(seq![a].drop_first() =~= Seq::empty());
    assert(seq![b].drop_first() =~= Seq::empty());
    assert(seq![a, x].drop_first() =~= seq![x]);
    assert(seq![a, y].drop_first() =~= seq![y]);
    assert(seq![x].drop_first() =~= Seq::empty());
    assert(seq![y].drop_first() =~= Seq::empty());
    assert(!parts_before(Seq::<Seq<char>>::empty(), Seq::<Seq<char>>::empty()));
    assert(parts_before(seq![x], seq![y]) <==> text_before(x, y));
}

} // verus!
