//! Text as sequences of characters: comparison, order, decimal numbers and searching.

use vstd::prelude::*;
use vstd::utf8::encode_utf8;

verus! {

/// Trusts `String::push`: it appends one character to the end of the string.
pub assume_specification[ String::push ](text: &mut String, c: char)
    ensures
        final(text)@ == old(text)@.push(c),
;

/// Trusts the comparison of two `str` values: it holds exactly when both are made of the same
/// characters in the same order.
pub assume_specification[ <str as PartialEq>::eq ](a: &str, b: &str) -> (r: bool)
    ensures
        r == (a@ == b@),
;

/// Whether two texts are the same.
pub fn same_text(a: &str, b: &str) -> (r: bool)
    ensures
        r == (a@ == b@),
{
    *a == *b
}

/// Whether an optional text is present and equal to `b`.
pub fn is_text(a: &Option<String>, b: &str) -> (r: bool)
    ensures
        r == (a.deep_view() == Some(b@)),
{
    match a {
        Some(a) => same_text(a.as_str(), b),
        None => false,
    }
}

/// Whether two optional texts are both absent or both present and equal.
pub fn same_optional_text(a: &Option<String>, b: &Option<String>) -> (r: bool)
    ensures
        r == (a.deep_view() == b.deep_view()),
{
    match (a, b) {
        (Some(a), Some(b)) => same_text(a.as_str(), b.as_str()),
        (None, None) => true,
        _ => false,
    }
}

/// A copy of an optional text.
pub fn copy_text(a: &Option<String>) -> (r: Option<String>)
    ensures
        r == *a,
        r.deep_view() == a.deep_view(),
{
    match a {
        Some(a) => Some(a.clone()),
        None => None,
    }
}

/// The characters of a text.
pub fn chars_of(text: &str) -> (r: Vec<char>)
    ensures
        r@ == text@,
{
    let mut r: Vec<char> = Vec::new();
    for c in it: text.chars()
        invariant
            it.seq() == text@,
            r@ == text@.take(it.index()),
    {
        r.push(c);
    }
    r
}

/// The text made of the characters from position `from` on, up to but not including `to`.
pub fn text_between(chars: &Vec<char>, from: usize, to: usize) -> (r: String)
    requires
        from <= to <= chars@.len(),
    ensures
        r@ == chars@.subrange(from as int, to as int),
{
    let mut r = String::new();
    let mut i: usize = from;
    while i < to
        invariant
            from <= i <= to <= chars@.len(),
            r@ == chars@.subrange(from as int, i as int),
        decreases to - i,
    {
        r.push(chars[i]);
        i = i + 1;
        assert(chars@.subrange(from as int, i as int) =~= chars@.subrange(
            from as int,
            i - 1,
        ).push(chars@[i - 1]));
    }
    r
}

/// Two texts one after the other.
pub fn joined(a: &str, b: &str) -> (r: String)
    ensures
        r@ == a@ + b@,
{
    let mut r = a.to_owned();
    r.append(b);
    r
}

/// Code point order: `a` comes before `b` when `a` is a proper prefix of `b`, or holds the smaller
/// character at the first position where they differ. UTF-8 keeps this order byte by byte.
pub open spec fn text_before(a: Seq<char>, b: Seq<char>) -> bool
    decreases a.len(),
{
    b.len() > 0 && (a.len() == 0 || a[0] < b[0] || (a[0] == b[0] && text_before(
        a.drop_first(),
        b.drop_first(),
    )))
}

/// No text comes before itself.
pub proof fn lemma_text_before_irreflexive(a: Seq<char>)
    ensures
        !text_before(a, a),
    decreases a.len(),
{
    if a.len() > 0 {
        lemma_text_before_irreflexive(a.drop_first());
    }
}

/// The order of texts is transitive.
pub proof fn lemma_text_before_transitive(a: Seq<char>, b: Seq<char>, c: Seq<char>)
    requires
        text_before(a, b),
        text_before(b, c),
    ensures
        text_before(a, c),
    decreases a.len(),
{
    if a.len() > 0 && a[0] == b[0] && b[0] == c[0] {
        lemma_text_before_transitive(a.drop_first(), b.drop_first(), c.drop_first());
    }
}

/// Of two different texts one comes before the other.
pub proof fn lemma_text_before_total(a: Seq<char>, b: Seq<char>)
    ensures
        a == b || text_before(a, b) || text_before(b, a),
    decreases a.len(),
{
    if a.len() > 0 && b.len() > 0 && a[0] == b[0] {
        lemma_text_before_total(a.drop_first(), b.drop_first());
        if a.drop_first() == b.drop_first() {
            assert(a =~= seq![a[0]] + a.drop_first());
            assert(b =~= seq![b[0]] + b.drop_first());
        }
    } else if a.len() == 0 && b.len() == 0 {
        assert(a =~= b);
    }
}

/// Whether `a` comes before `b` in code point order.
pub fn precedes_text(a: &str, b: &str) -> (r: bool)
    ensures
        r == text_before(a@, b@),
{
    let first = chars_of(a);
    let second = chars_of(b);
    let mut i: usize = 0;
    assert(first@.skip(0) =~= first@);
    assert(second@.skip(0) =~= second@);
    while i < first.len() && i < second.len() && first[i] == second[i]
        invariant
            i <= first@.len(),
            i <= second@.len(),
            text_before(first@, second@) == text_before(
                first@.skip(i as int),
                second@.skip(i as int),
            ),
        decreases first@.len() - i,
    {
        assert(first@.skip(i as int).drop_first() =~= first@.skip(i + 1));
        assert(second@.skip(i as int).drop_first() =~= second@.skip(i + 1));
        i = i + 1;
    }
    if i == second.len() {
        false
    } else if i == first.len() {
        true
    } else {
        first[i] < second[i]
    }
}

/// The character of a decimal digit.
pub open spec fn digit_char(digit: int) -> char {
    ('0' as u32 + digit) as char
}

/// The decimal digits of a number, without leading zeros.
pub open spec fn decimal(n: nat) -> Seq<char>
    decreases n,
{
    if n < 10 {
        seq![digit_char(n as int)]
    } else {
        decimal(n / 10).push(digit_char((n % 10) as int))
    }
}

/// The decimal form of an integer: its digits, after a minus sign where it is negative.
pub open spec fn signed_decimal(n: int) -> Seq<char> {
    if n < 0 {
        seq!['-'] + decimal((-n) as nat)
    } else {
        decimal(n as nat)
    }
}

fn digit_of(digit: u8) -> (c: char)
    requires
        digit < 10,
    ensures
        c == digit_char(digit as int),
{
    (48 + digit) as char
}

/// The decimal digits of `n`.
pub fn decimal_text(n: u128) -> (r: String)
    ensures
        r@ == decimal(n as nat),
    decreases n,
{
    if n < 10 {
        let mut r = String::new();
        r.push(digit_of(n as u8));
        assert(r@ =~= decimal(n as nat));
        r
    } else {
        let mut r = decimal_text(n / 10);
        r.push(digit_of((n % 10) as u8));
        r
    }
}

/// The decimal form of `n`, with a minus sign where it is negative.
pub fn signed_decimal_text(n: i128) -> (r: String)
    ensures
        r@ == signed_decimal(n as int),
{
    if n < 0 {
        let size: u128 = if n == i128::MIN {
            170141183460469231731687303715884105728
        } else {
            (-n) as u128
        };
        let digits = decimal_text(size);
        proof {
            reveal_strlit("-");
        }
        assert("-"@ =~= seq!['-']);
        joined("-", digits.as_str())
    } else {
        decimal_text(n as u128)
    }
}

/// Whether every character is one of the ten decimal digits.
pub open spec fn all_digits(s: Seq<char>) -> bool {
    forall|i: int| 0 <= i < s.len() ==> is_digit(#[trigger] s[i])
}

/// One of the ten decimal digits.
pub open spec fn is_digit(c: char) -> bool {
    '0' <= c && c <= '9'
}

/// The number that a sequence of decimal digits stands for.
pub open spec fn number_of(s: Seq<char>) -> nat
    decreases s.len(),
{
    if s.len() == 0 {
        0
    } else {
        number_of(s.drop_last()) * 10 + (s.last() as u32 - '0' as u32) as nat
    }
}

/// The unsigned number that a text spells: decimal digits, at least one, after an optional plus
/// sign, with a value that fits 64 bits.
pub open spec fn spelled_number(s: Seq<char>) -> Option<u64> {
    let digits = if s.len() > 0 && s[0] == '+' {
        s.drop_first()
    } else {
        s
    };
    if digits.len() > 0 && all_digits(digits) && number_of(digits) <= u64::MAX {
        Some(number_of(digits) as u64)
    } else {
        None
    }
}

proof fn lemma_number_of_prefix(s: Seq<char>, n: int)
    requires
        all_digits(s),
        0 <= n <= s.len(),
    ensures
        number_of(s.take(n)) <= number_of(s),
    decreases s.len(),
{
    if n < s.len() {
        lemma_number_of_prefix(s.drop_last(), n);
        assert(s.drop_last().take(n) =~= s.take(n));
    } else {
        assert(s.take(n) =~= s);
    }
}

/// Reads an unsigned number.
pub fn parse_number(text: &str) -> (r: Option<u64>)
    ensures
        r == spelled_number(text@),
{
    let chars = chars_of(text);
    let from: usize = if chars.len() > 0 && chars[0] == '+' {
        1
    } else {
        0
    };
    let ghost digits = if chars@.len() > 0 && chars@[0] == '+' {
        chars@.drop_first()
    } else {
        chars@
    };
    assert(digits =~= chars@.skip(from as int));
    if from == chars.len() {
        return None;
    }
    let mut value: u128 = 0;
    let mut i: usize = from;
    while i < chars.len()
        invariant
            from <= i <= chars@.len(),
            digits == chars@.skip(from as int),
            spelled_number(text@) == (if digits.len() > 0 && all_digits(digits) && number_of(digits)
                <= u64::MAX {
                Some(number_of(digits) as u64)
            } else {
                None
            }),
            all_digits(digits.take(i - from)),
            value == number_of(digits.take(i - from)),
            value <= u64::MAX,
        decreases chars@.len() - i,
    {
        let c = chars[i];
        assert(digits[i - from] == c);
        if !('0' <= c && c <= '9') {
            return None;
        }
        let digit: u128 = (c as u32 - 48) as u128;
        assert(digits.take(i - from + 1).drop_last() =~= digits.take(i - from));
        value = value * 10 + digit;
        i = i + 1;
        if value > u64::MAX as u128 {
            proof {
                if all_digits(digits) {
                    lemma_number_of_prefix(digits, i - from);
                }
            }
            return None;
        }
    }
    assert(digits.take(i - from) =~= digits);
    Some(value as u64)
}

/// Whether `s` ends in `suffix`.
pub open spec fn has_suffix(s: Seq<char>, suffix: Seq<char>) -> bool {
    suffix.len() <= s.len() && s.skip(s.len() - suffix.len()) == suffix
}

/// What stands before `suffix`, where the text ends in it.
pub fn without_suffix<'a>(text: &'a str, suffix: &str) -> (r: Option<&'a str>)
    ensures
        r is Some <==> has_suffix(text@, suffix@),
        r matches Some(rest) ==> rest@ == text@.take(text@.len() - suffix@.len()),
{
    let length = text.unicode_len();
    let tail = suffix.unicode_len();
    if length < tail {
        return None;
    }
    assert(text@.subrange(length - tail, length as int) =~= text@.skip(length - tail));
    if same_text(text.substring_char(length - tail, length), suffix) {
        Some(text.substring_char(0, length - tail))
    } else {
        None
    }
}

/// Whether `needle` occurs in `s`.
pub open spec fn contains_text(s: Seq<char>, needle: Seq<char>) -> bool {
    exists|i: int|
        0 <= i <= s.len() - needle.len() && #[trigger] s.subrange(i, i + needle.len()) == needle
}

/// Whether `needle` occurs in `text`.
pub fn has_text(text: &str, needle: &str) -> (r: bool)
    ensures
        r == contains_text(text@, needle@),
{
    let length = text.unicode_len();
    let size = needle.unicode_len();
    if length < size {
        return false;
    }
    let mut i: usize = 0;
    while i <= length - size
        invariant
            length == text@.len(),
            size == needle@.len(),
            size <= length,
            i <= length - size + 1,
            forall|j: int| 0 <= j < i ==> #[trigger] text@.subrange(j, j + size) != needle@,
        decreases length - size + 1 - i,
    {
        if same_text(text.substring_char(i, i + size), needle) {
            assert(text@.subrange(i as int, i + size) == needle@);
            return true;
        }
        if i == length - size {
            return false;
        }
        i = i + 1;
    }
    false
}

/// The position of the last `c` in `s`, or -1 where there is none.
pub open spec fn last_position(s: Seq<char>, c: char) -> int
    decreases s.len(),
{
    if s.len() == 0 {
        -1
    } else if s.last() == c {
        s.len() - 1
    } else {
        last_position(s.drop_last(), c)
    }
}

/// The parts before and after the last `c`, where there is one.
pub fn split_last<'a>(text: &'a str, c: char) -> (r: Option<(&'a str, &'a str)>)
    ensures
        r is Some <==> last_position(text@, c) >= 0,
        r matches Some((head, tail)) ==> {
            let at = last_position(text@, c);
            &&& 0 <= at < text@.len()
            &&& head@ == text@.take(at)
            &&& tail@ == text@.skip(at + 1)
        },
{
    let chars = chars_of(text);
    let mut i: usize = chars.len();
    assert(text@.take(i as int) =~= text@);
    while i > 0
        invariant
            chars@ == text@,
            i <= text@.len(),
            last_position(text@, c) == last_position(text@.take(i as int), c),
        decreases i,
    {
        assert(text@.take(i as int).drop_last() =~= text@.take(i - 1));
        i = i - 1;
        if chars[i] == c {
            let length = text.unicode_len();
            assert(text@.subrange(0, i as int) =~= text@.take(i as int));
            assert(text@.subrange(i + 1, length as int) =~= text@.skip(i + 1));
            return Some((text.substring_char(0, i), text.substring_char(i + 1, length)));
        }
    }
    None
}

/// The text with every `from` replaced by `to`.
pub open spec fn replaced(s: Seq<char>, from: char, to: char) -> Seq<char> {
    s.map_values(
        |c: char|
            if c == from {
                to
            } else {
                c
            },
    )
}

/// Replaces every `from` by `to`.
pub fn replace_char(text: &str, from: char, to: char) -> (r: String)
    ensures
        r@ == replaced(text@, from, to),
{
    let mut r = String::new();
    for c in it: text.chars()
        invariant
            it.seq() == text@,
            r@ == replaced(text@.take(it.index()), from, to),
    {
        let ghost before = r@;
        if c == from {
            r.push(to);
        } else {
            r.push(c);
        }
        assert(r@ =~= replaced(text@.take(it.index() + 1), from, to));
    }
    assert(text@.take(text@.len() as int) =~= text@);
    r
}

/// The characters with the Unicode property `White_Space`.
pub open spec fn is_space(c: char) -> bool {
    let n = c as u32;
    ||| 0x9 <= n <= 0xd
    ||| n == 0x20
    ||| n == 0x85
    ||| n == 0xa0
    ||| n == 0x1680
    ||| 0x2000 <= n <= 0x200a
    ||| n == 0x2028
    ||| n == 0x2029
    ||| n == 0x202f
    ||| n == 0x205f
    ||| n == 0x3000
}

fn space(c: char) -> (r: bool)
    ensures
        r == is_space(c),
{
    let n: u32 = c as u32;
    (n >= 0x9 && n <= 0xd) || n == 0x20 || n == 0x85 || n == 0xa0 || n == 0x1680 || (n >= 0x2000
        && n <= 0x200a) || n == 0x2028 || n == 0x2029 || n == 0x202f || n == 0x205f || n == 0x3000
}

/// How many characters at the start of `s` are white space.
pub open spec fn leading_spaces(s: Seq<char>) -> int
    decreases s.len(),
{
    if s.len() == 0 || !is_space(s[0]) {
        0
    } else {
        1 + leading_spaces(s.drop_first())
    }
}

/// How many characters at the start of `s` are not white space.
pub open spec fn leading_word(s: Seq<char>) -> int
    decreases s.len(),
{
    if s.len() == 0 || is_space(s[0]) {
        0
    } else {
        1 + leading_word(s.drop_first())
    }
}

/// The first word of a text: what stands between its leading white space and the next. A text of
/// white space alone has none.
pub open spec fn first_word(s: Seq<char>) -> Option<Seq<char>> {
    let from = leading_spaces(s);
    let rest = s.skip(from);
    if rest.len() == 0 {
        None
    } else {
        Some(rest.take(leading_word(rest)))
    }
}

/// The first word of a text.
pub fn word_of(text: &str) -> (r: Option<String>)
    ensures
        r.deep_view() == first_word(text@),
{
    let chars = chars_of(text);
    let mut from: usize = 0;
    assert(text@.skip(0) =~= text@);
    while from < chars.len() && space(chars[from])
        invariant
            chars@ == text@,
            from <= text@.len(),
            leading_spaces(text@) == from + leading_spaces(text@.skip(from as int)),
        decreases text@.len() - from,
    {
        assert(text@.skip(from as int).drop_first() =~= text@.skip(from + 1));
        from = from + 1;
    }
    if from == chars.len() {
        return None;
    }
    let ghost rest = text@.skip(from as int);
    assert(rest.skip(0) =~= rest);
    let mut to: usize = from;
    while to < chars.len() && !space(chars[to])
        invariant
            chars@ == text@,
            from <= to <= text@.len(),
            rest == text@.skip(from as int),
            leading_word(rest) == to - from + leading_word(rest.skip(to - from)),
        decreases text@.len() - to,
    {
        assert(rest.skip(to - from).drop_first() =~= rest.skip(to - from + 1));
        assert(rest.skip(to - from)[0] == text@[to as int]);
        to = to + 1;
    }
    if to < chars.len() {
        assert(rest.skip(to - from)[0] == text@[to as int]);
    }
    assert(rest.take(leading_word(rest)) =~= chars@.subrange(from as int, to as int));
    Some(text_between(&chars, from, to))
}

/// How many characters at the start of `s` are decimal digits.
pub open spec fn leading_digits(s: Seq<char>) -> int
    decreases s.len(),
{
    if s.len() == 0 || !is_digit(s[0]) {
        0
    } else {
        1 + leading_digits(s.drop_first())
    }
}

/// The text of the decimal digits that a text starts with.
pub fn digits_at_start(text: &str) -> (r: String)
    ensures
        r@ == text@.take(leading_digits(text@)),
{
    let chars = chars_of(text);
    let mut to: usize = 0;
    assert(text@.skip(0) =~= text@);
    while to < chars.len() && '0' <= chars[to] && chars[to] <= '9'
        invariant
            chars@ == text@,
            to <= text@.len(),
            leading_digits(text@) == to + leading_digits(text@.skip(to as int)),
        decreases text@.len() - to,
    {
        assert(text@.skip(to as int).drop_first() =~= text@.skip(to + 1));
        to = to + 1;
    }
    assert(chars@.subrange(0, to as int) =~= text@.take(to as int));
    text_between(&chars, 0, to)
}

/// The first `limit` characters of a text, or all where it has fewer.
pub fn shortened(text: &str, limit: usize) -> (r: String)
    ensures
        r@ == (if text@.len() <= limit {
            text@
        } else {
            text@.take(limit as int)
        }),
{
    let length = text.unicode_len();
    if length <= limit {
        text.to_owned()
    } else {
        assert(text@.subrange(0, limit as int) =~= text@.take(limit as int));
        text.substring_char(0, limit).to_owned()
    }
}

/// How many bytes a text takes in UTF-8.
pub open spec fn byte_len(s: Seq<char>) -> nat {
    encode_utf8(s).len()
}

/// How many bytes a text takes.
pub fn byte_length(text: &str) -> (r: usize)
    ensures
        r == byte_len(text@),
{
    text.as_bytes().len()
}

/// Whether `c` is an ASCII letter.
pub open spec fn is_letter(c: char) -> bool {
    'a' <= c <= 'z' || 'A' <= c <= 'Z'
}

/// Whether `c` is an ASCII letter.
pub fn letter(c: char) -> (r: bool)
    ensures
        r == is_letter(c),
{
    ('a' <= c && c <= 'z') || ('A' <= c && c <= 'Z')
}

/// Whether `c` is an ASCII digit.
pub fn digit(c: char) -> (r: bool)
    ensures
        r == is_digit(c),
{
    '0' <= c && c <= '9'
}

} // verus!
