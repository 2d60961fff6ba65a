//! The Prometheus text exposition: metric families, samples and how they are written.

use crate::text::{decimal_text, same_text, signed_decimal, signed_decimal_text};
use vstd::prelude::*;

verus! {

/// The value of a sample. A quotient is written as a decimal fraction by whoever can divide.
#[derive(Debug)]
pub enum SampleValue {
    Unsigned(u128),
    Signed(i128),
    Quotient { numerator: u128, denominator: u128 },
    Decimal(String),
}

/// What a sample's value stands for.
pub enum ValueView {
    Integer(int),
    Quotient { numerator: int, denominator: int },
    Decimal(Seq<char>),
}

impl View for SampleValue {
    type V = ValueView;

    open spec fn view(&self) -> ValueView {
        match self {
            SampleValue::Unsigned(n) => ValueView::Integer(*n as int),
            SampleValue::Signed(n) => ValueView::Integer(*n as int),
            SampleValue::Quotient { numerator, denominator } => ValueView::Quotient {
                numerator: *numerator as int,
                denominator: *denominator as int,
            },
            SampleValue::Decimal(text) => ValueView::Decimal(text@),
        }
    }
}

/// One entry of the exposition: the head of a family, or a sample.
#[derive(Debug)]
pub enum Line {
    Family { name: String, help: String, kind: String },
    Sample { name: String, labels: Vec<(String, String)>, value: SampleValue },
}

/// What an entry stands for.
pub enum LineView {
    Family { name: Seq<char>, help: Seq<char>, kind: Seq<char> },
    Sample { name: Seq<char>, labels: Seq<(Seq<char>, Seq<char>)>, value: ValueView },
}

impl View for Line {
    type V = LineView;

    open spec fn view(&self) -> LineView {
        match self {
            Line::Family { name, help, kind } => LineView::Family {
                name: name@,
                help: help@,
                kind: kind@,
            },
            Line::Sample { name, labels, value } => LineView::Sample {
                name: name@,
                labels: labels.deep_view(),
                value: value@,
            },
        }
    }
}

impl LineView {
    /// The metric that the entry is about.
    pub open spec fn name(self) -> Seq<char> {
        match self {
            LineView::Family { name, .. } => name,
            LineView::Sample { name, .. } => name,
        }
    }
}

/// The head of a family.
pub open spec fn family_line(name: Seq<char>, help: Seq<char>, kind: Seq<char>) -> LineView {
    LineView::Family { name, help, kind }
}

/// A sample without labels.
pub open spec fn line0(name: Seq<char>, value: ValueView) -> LineView {
    LineView::Sample { name, labels: Seq::empty(), value }
}

/// A sample with one label.
pub open spec fn line1(
    name: Seq<char>,
    key: Seq<char>,
    label: Seq<char>,
    value: ValueView,
) -> LineView {
    LineView::Sample { name, labels: seq![(key, label)], value }
}

/// A sample with two labels.
pub open spec fn line2(
    name: Seq<char>,
    key: Seq<char>,
    label: Seq<char>,
    key2: Seq<char>,
    label2: Seq<char>,
    value: ValueView,
) -> LineView {
    LineView::Sample { name, labels: seq![(key, label), (key2, label2)], value }
}

/// A sample with three labels.
pub open spec fn line3(
    name: Seq<char>,
    key: Seq<char>,
    label: Seq<char>,
    key2: Seq<char>,
    label2: Seq<char>,
    key3: Seq<char>,
    label3: Seq<char>,
    value: ValueView,
) -> LineView {
    LineView::Sample { name, labels: seq![(key, label), (key2, label2), (key3, label3)], value }
}

/// An integer value.
pub open spec fn integer(n: int) -> ValueView {
    ValueView::Integer(n)
}

/// The value 1 for true and 0 for false.
pub open spec fn truth(b: bool) -> ValueView {
    ValueView::Integer(
        if b {
            1
        } else {
            0
        },
    )
}

/// A share of a whole: the quotient, or the given integer where the whole is 0.
pub open spec fn share(part: int, whole: int, otherwise: int) -> ValueView {
    if whole == 0 {
        ValueView::Integer(otherwise)
    } else {
        ValueView::Quotient { numerator: part, denominator: whole }
    }
}

/// The value 1 for true and 0 for false.
pub fn truth_value(b: bool) -> (r: SampleValue)
    ensures
        r@ == truth(b),
{
    if b {
        SampleValue::Unsigned(1)
    } else {
        SampleValue::Unsigned(0)
    }
}

/// A share of a whole.
pub fn share_value(part: u128, whole: u128, otherwise: u128) -> (r: SampleValue)
    ensures
        r@ == share(part as int, whole as int, otherwise as int),
{
    if whole == 0 {
        SampleValue::Unsigned(otherwise)
    } else {
        SampleValue::Quotient { numerator: part, denominator: whole }
    }
}

/// An unsigned value.
pub fn unsigned_value(n: u64) -> (r: SampleValue)
    ensures
        r@ == integer(n as int),
{
    SampleValue::Unsigned(n as u128)
}

/// A character of a label as it is written: a backslash, a line feed and a quotation mark behind a
/// backslash.
pub open spec fn escaped_label_char(c: char) -> Seq<char> {
    if c == '\\' {
        seq!['\\', '\\']
    } else if c == '\n' {
        seq!['\\', 'n']
    } else if c == '"' {
        seq!['\\', '"']
    } else {
        seq![c]
    }
}

/// A label value as it is written.
pub open spec fn escaped_label(s: Seq<char>) -> Seq<char>
    decreases s.len(),
{
    if s.len() == 0 {
        Seq::empty()
    } else {
        escaped_label(s.drop_last()) + escaped_label_char(s.last())
    }
}

/// A character of a help text as it is written: a backslash and a line feed behind a backslash.
pub open spec fn escaped_help_char(c: char) -> Seq<char> {
    if c == '\\' {
        seq!['\\', '\\']
    } else if c == '\n' {
        seq!['\\', 'n']
    } else {
        seq![c]
    }
}

/// A help text as it is written.
pub open spec fn escaped_help(s: Seq<char>) -> Seq<char>
    decreases s.len(),
{
    if s.len() == 0 {
        Seq::empty()
    } else {
        escaped_help(s.drop_last()) + escaped_help_char(s.last())
    }
}

/// Writes a label value.
pub fn escape_label(value: &str) -> (r: String)
    ensures
        r@ == escaped_label(value@),
{
    let mut r = String::new();
    for c in it: value.chars()
        invariant
            it.seq() == value@,
            r@ == escaped_label(value@.take(it.index())),
    {
        let ghost done = value@.take(it.index() + 1);
        let ghost before = r@;
        assert(done.drop_last() =~= value@.take(it.index()));
        if c == '\\' {
            r.push('\\');
            r.push('\\');
        } else if c == '\n' {
            r.push('\\');
            r.push('n');
        } else if c == '"' {
            r.push('\\');
            r.push('"');
        } else {
            r.push(c);
        }
        assert(r@ =~= before + escaped_label_char(c));
    }
    assert(value@.take(value@.len() as int) =~= value@);
    r
}

/// Writes a help text.
pub fn escape_help(value: &str) -> (r: String)
    ensures
        r@ == escaped_help(value@),
{
    let mut r = String::new();
    for c in it: value.chars()
        invariant
            it.seq() == value@,
            r@ == escaped_help(value@.take(it.index())),
    {
        let ghost done = value@.take(it.index() + 1);
        let ghost before = r@;
        assert(done.drop_last() =~= value@.take(it.index()));
        if c == '\\' {
            r.push('\\');
            r.push('\\');
        } else if c == '\n' {
            r.push('\\');
            r.push('n');
        } else {
            r.push(c);
        }
        assert(r@ =~= before + escaped_help_char(c));
    }
    assert(value@.take(value@.len() as int) =~= value@);
    r
}

/// The labels of a sample as they are written, separated by commas.
pub open spec fn labels_text(labels: Seq<(Seq<char>, Seq<char>)>) -> Seq<char>
    decreases labels.len(),
{
    if labels.len() == 0 {
        Seq::empty()
    } else {
        let before = labels_text(labels.drop_last());
        let separated = if labels.len() == 1 {
            before
        } else {
            before + ","@
        };
        separated + labels.last().0 + "=\""@ + escaped_label(labels.last().1) + "\""@
    }
}

/// A sample as it is written: its name, its labels in braces where it has any, and its value.
pub open spec fn sample_text(
    name: Seq<char>,
    labels: Seq<(Seq<char>, Seq<char>)>,
    value: Seq<char>,
) -> Seq<char> {
    let head = if labels.len() == 0 {
        name
    } else {
        name + "{"@ + labels_text(labels) + "}"@
    };
    head + " "@ + value + "\n"@
}

/// The head of a family as it is written: its help and its type.
pub open spec fn family_text(name: Seq<char>, help: Seq<char>, kind: Seq<char>) -> Seq<char> {
    "# HELP "@ + name + " "@ + escaped_help(help) + "\n"@ + "# TYPE "@ + name + " "@ + kind + "\n"@
}

/// The quotients among the entries, in their order.
pub open spec fn quotients_of(lines: Seq<LineView>) -> Seq<(int, int)>
    decreases lines.len(),
{
    if lines.len() == 0 {
        Seq::empty()
    } else {
        let before = quotients_of(lines.drop_last());
        match lines.last() {
            LineView::Sample {
                value: ValueView::Quotient { numerator, denominator },
                ..
            } => before.push((numerator, denominator)),
            _ => before,
        }
    }
}

/// An entry as it is written, where `fraction` is the text of its quotient.
pub open spec fn line_text(line: LineView, fraction: Seq<char>) -> Seq<char> {
    match line {
        LineView::Family { name, help, kind } => family_text(name, help, kind),
        LineView::Sample { name, labels, value } => sample_text(
            name,
            labels,
            match value {
                ValueView::Integer(n) => signed_decimal(n),
                ValueView::Quotient { .. } => fraction,
                ValueView::Decimal(text) => text,
            },
        ),
    }
}

/// The exposition as it is written, where `fractions` holds the texts of the quotients in their
/// order.
pub open spec fn exposition_text(lines: Seq<LineView>, fractions: Seq<Seq<char>>) -> Seq<char>
    decreases lines.len(),
{
    if lines.len() == 0 {
        Seq::empty()
    } else {
        let before = lines.drop_last();
        exposition_text(before, fractions) + line_text(
            lines.last(),
            fractions[quotients_of(before).len() as int],
        )
    }
}

/// The exposition under construction.
#[derive(Debug)]
pub struct Metrics {
    lines: Vec<Line>,
}

impl View for Metrics {
    type V = Seq<LineView>;

    closed spec fn view(&self) -> Seq<LineView> {
        Seq::new(self.lines@.len(), |i: int| self.lines@[i]@)
    }
}

impl Default for Metrics {
    fn default() -> (r: Self)
        ensures
            r@ == Seq::<LineView>::empty(),
    {
        let r = Metrics { lines: Vec::new() };
        assert(r@ =~= Seq::<LineView>::empty());
        r
    }
}

/// Whether some entry is about the metric `name`.
pub open spec fn mentions(lines: Seq<LineView>, name: Seq<char>) -> bool {
    exists|i: int| 0 <= i < lines.len() && (#[trigger] lines[i]).name() == name
}

/// Whether two expositions have entries about the same metric.
pub open spec fn overlaps(a: Seq<LineView>, b: Seq<LineView>) -> bool {
    exists|i: int| 0 <= i < b.len() && mentions(a, (#[trigger] b[i]).name())
}

impl Metrics {
    /// The entries so far.
    pub fn lines(&self) -> (r: &Vec<Line>)
        ensures
            self@ == Seq::new(r@.len(), |i: int| r@[i]@),
    {
        &self.lines
    }

    fn push(&mut self, line: Line)
        ensures
            final(self)@ == old(self)@.push(line@),
    {
        self.lines.push(line);
        assert(self@ =~= old(self)@.push(line@));
    }

    /// Writes the head of a family.
    pub fn family(&mut self, name: &str, help: &str, kind: &str)
        ensures
            final(self)@ == old(self)@.push(family_line(name@, help@, kind@)),
    {
        self.push(
            Line::Family { name: name.to_owned(), help: help.to_owned(), kind: kind.to_owned() },
        );
    }

    /// Writes a sample.
    pub fn sample(&mut self, name: &str, labels: &[(&str, &str)], value: SampleValue)
        ensures
            final(self)@ == old(self)@.push(
                LineView::Sample { name: name@, labels: labels.deep_view(), value: value@ },
            ),
    {
        let mut owned: Vec<(String, String)> = Vec::new();
        let mut i: usize = 0;
        while i < labels.len()
            invariant
                i <= labels@.len(),
                owned.deep_view() =~= labels.deep_view().take(i as int),
            decreases labels@.len() - i,
        {
            let ghost before = owned.deep_view();
            owned.push((labels[i].0.to_owned(), labels[i].1.to_owned()));
            assert(owned.deep_view() =~= before.push((labels@[i as int].0@, labels@[i as int].1@)));
            assert(labels.deep_view()[i as int] == (labels@[i as int].0@, labels@[i as int].1@));
            i = i + 1;
        }
        assert(owned.deep_view() =~= labels.deep_view());
        self.push(Line::Sample { name: name.to_owned(), labels: owned, value });
    }

    /// Writes a sample without labels.
    pub fn sample0(&mut self, name: &str, value: SampleValue)
        ensures
            final(self)@ == old(self)@.push(line0(name@, value@)),
    {
        let owned: Vec<(String, String)> = Vec::new();
        assert(owned.deep_view() =~= Seq::empty());
        self.push(Line::Sample { name: name.to_owned(), labels: owned, value });
    }

    /// Writes a sample with one label.
    pub fn sample1(&mut self, name: &str, key: &str, label: &str, value: SampleValue)
        ensures
            final(self)@ == old(self)@.push(line1(name@, key@, label@, value@)),
    {
        let mut owned: Vec<(String, String)> = Vec::new();
        owned.push((key.to_owned(), label.to_owned()));
        assert(owned.deep_view() =~= seq![(key@, label@)]);
        self.push(Line::Sample { name: name.to_owned(), labels: owned, value });
    }

    /// Writes a sample with two labels.
    pub fn sample2(
        &mut self,
        name: &str,
        key: &str,
        label: &str,
        key2: &str,
        label2: &str,
        value: SampleValue,
    )
        ensures
            final(self)@ == old(self)@.push(line2(name@, key@, label@, key2@, label2@, value@)),
    {
        let mut owned: Vec<(String, String)> = Vec::new();
        owned.push((key.to_owned(), label.to_owned()));
        owned.push((key2.to_owned(), label2.to_owned()));
        assert(owned.deep_view() =~= seq![(key@, label@), (key2@, label2@)]);
        self.push(Line::Sample { name: name.to_owned(), labels: owned, value });
    }

    /// Writes a sample with three labels.
    pub fn sample3(
        &mut self,
        name: &str,
        key: &str,
        label: &str,
        key2: &str,
        label2: &str,
        key3: &str,
        label3: &str,
        value: SampleValue,
    )
        ensures
            final(self)@ == old(self)@.push(
                line3(name@, key@, label@, key2@, label2@, key3@, label3@, value@),
            ),
    {
        let mut owned: Vec<(String, String)> = Vec::new();
        owned.push((key.to_owned(), label.to_owned()));
        owned.push((key2.to_owned(), label2.to_owned()));
        owned.push((key3.to_owned(), label3.to_owned()));
        assert(owned.deep_view() =~= seq![(key@, label@), (key2@, label2@), (key3@, label3@)]);
        self.push(Line::Sample { name: name.to_owned(), labels: owned, value });
    }

    /// Whether some entry is about the metric `name`.
    pub fn has_name(&self, name: &str) -> (r: bool)
        ensures
            r == mentions(self@, name@),
    {
        let mut i: usize = 0;
        while i < self.lines.len()
            invariant
                i <= self.lines@.len(),
                forall|j: int| 0 <= j < i ==> (#[trigger] self@[j]).name() != name@,
            decreases self.lines@.len() - i,
        {
            let found = match &self.lines[i] {
                Line::Family { name: own, .. } => same_text(own.as_str(), name),
                Line::Sample { name: own, .. } => same_text(own.as_str(), name),
            };
            assert(self@[i as int] == self.lines@[i as int]@);
            if found {
                return true;
            }
            i = i + 1;
        }
        false
    }

    /// Whether this exposition and another have entries about the same metric.
    pub fn shares_name(&self, other: &Metrics) -> (r: bool)
        ensures
            r == overlaps(self@, other@),
    {
        let mut i: usize = 0;
        while i < other.lines.len()
            invariant
                i <= other.lines@.len(),
                forall|j: int| 0 <= j < i ==> !mentions(self@, (#[trigger] other@[j]).name()),
            decreases other.lines@.len() - i,
        {
            assert(other@[i as int] == other.lines@[i as int]@);
            let found = match &other.lines[i] {
                Line::Family { name, .. } => self.has_name(name.as_str()),
                Line::Sample { name, .. } => self.has_name(name.as_str()),
            };
            if found {
                return true;
            }
            i = i + 1;
        }
        false
    }

    /// The quotients that have to be written as decimal fractions, in their order.
    pub fn quotients(&self) -> (r: Vec<(u128, u128)>)
        ensures
            r@.len() == quotients_of(self@).len(),
            forall|i: int|
                0 <= i < r@.len() ==> quotients_of(self@)[i] == (
                    (#[trigger] r@[i]).0 as int,
                    r@[i].1 as int,
                ),
    {
        let mut r: Vec<(u128, u128)> = Vec::new();
        let mut i: usize = 0;
        assert(self@.take(0) =~= Seq::empty());
        while i < self.lines.len()
            invariant
                i <= self.lines@.len(),
                self@.len() == self.lines@.len(),
                r@.len() == quotients_of(self@.take(i as int)).len(),
                forall|j: int|
                    0 <= j < r@.len() ==> quotients_of(self@.take(i as int))[j] == (
                        (#[trigger] r@[j]).0 as int,
                        r@[j].1 as int,
                    ),
            decreases self.lines@.len() - i,
        {
            assert(self@.take(i + 1).drop_last() =~= self@.take(i as int));
            assert(self@.take(i + 1).last() == self.lines@[i as int]@);
            match &self.lines[i] {
                Line::Sample { value: SampleValue::Quotient { numerator, denominator }, .. } => {
                    r.push((*numerator, *denominator));
                },
                _ => {},
            }
            i = i + 1;
        }
        assert(self@.take(i as int) =~= self@);
        r
    }

    /// The exposition as it is written, with the texts of its quotients.
    pub fn output(&self, fractions: &Vec<String>) -> (r: String)
        requires
            fractions@.len() == quotients_of(self@).len(),
        ensures
            r@ == exposition_text(self@, fractions.deep_view()),
    {
        let mut r = String::new();
        let total: usize = fractions.len();
        let mut used: usize = 0;
        let mut i: usize = 0;
        assert(self@.take(0) =~= Seq::empty());
        while i < self.lines.len()
            invariant
                i <= self.lines@.len(),
                self@.len() == self.lines@.len(),
                total == fractions@.len(),
                total == quotients_of(self@).len(),
                used == quotients_of(self@.take(i as int)).len(),
                r@ == exposition_text(self@.take(i as int), fractions.deep_view()),
            decreases self.lines@.len() - i,
        {
            assert(self@.take(i + 1).drop_last() =~= self@.take(i as int));
            assert(self@.take(i + 1).last() == self.lines@[i as int]@);
            proof {
                lemma_quotients_of_prefix(self@, i + 1);
            }
            let text = match &self.lines[i] {
                Line::Family { name, help, kind } => write_family(
                    name.as_str(),
                    help.as_str(),
                    kind.as_str(),
                ),
                Line::Sample { name, labels, value } => match value {
                    SampleValue::Unsigned(n) => {
                        let digits = decimal_text(*n);
                        write_sample(name.as_str(), labels, digits.as_str())
                    },
                    SampleValue::Signed(n) => {
                        let digits = signed_decimal_text(*n);
                        write_sample(name.as_str(), labels, digits.as_str())
                    },
                    SampleValue::Quotient { .. } => {
                        assert(fractions.deep_view()[used as int] == fractions@[used as int]@);
                        let text = write_sample(name.as_str(), labels, fractions[used].as_str());
                        used = used + 1;
                        text
                    },
                    SampleValue::Decimal(text) => write_sample(
                        name.as_str(),
                        labels,
                        text.as_str(),
                    ),
                },
            };
            r.append(text.as_str());
            i = i + 1;
        }
        assert(self@.take(i as int) =~= self@);
        r
    }
}

proof fn lemma_quotients_of_prefix(lines: Seq<LineView>, n: int)
    requires
        0 <= n <= lines.len(),
    ensures
        quotients_of(lines.take(n)).len() <= quotients_of(lines).len(),
    decreases lines.len(),
{
    if n < lines.len() {
        lemma_quotients_of_prefix(lines.drop_last(), n);
        assert(lines.drop_last().take(n) =~= lines.take(n));
    } else {
        assert(lines.take(n) =~= lines);
    }
}

fn write_family(name: &str, help: &str, kind: &str) -> (r: String)
    ensures
        r@ == family_text(name@, help@, kind@),
{
    let written = escape_help(help);
    let mut r = "# HELP ".to_owned();
    r.append(name);
    r.append(" ");
    r.append(written.as_str());
    r.append("\n");
    r.append("# TYPE ");
    r.append(name);
    r.append(" ");
    r.append(kind);
    r.append("\n");
    r
}

fn write_sample(name: &str, labels: &Vec<(String, String)>, value: &str) -> (r: String)
    ensures
        r@ == sample_text(name@, labels.deep_view(), value@),
{
    let mut r = name.to_owned();
    if labels.len() > 0 {
        let mut inner = String::new();
        let mut i: usize = 0;
        assert(labels.deep_view().take(0) =~= Seq::empty());
        while i < labels.len()
            invariant
                i <= labels@.len(),
                inner@ == labels_text(labels.deep_view().take(i as int)),
            decreases labels@.len() - i,
        {
            assert(labels.deep_view().take(i + 1).drop_last() =~= labels.deep_view().take(
                i as int,
            ));
            if i != 0 {
                inner.append(",");
            }
            let written = escape_label(labels[i].1.as_str());
            inner.append(labels[i].0.as_str());
            inner.append("=\"");
            inner.append(written.as_str());
            inner.append("\"");
            i = i + 1;
        }
        assert(labels.deep_view().take(i as int) =~= labels.deep_view());
        r.append("{");
        r.append(inner.as_str());
        r.append("}");
    }
    r.append(" ");
    r.append(value);
    r.append("\n");
    r
}

proof fn lemma_escaped_label_front(s: Seq<char>)
    requires
        s.len() > 0,
    ensures
        escaped_label(s) == escaped_label_char(s[0]) + escaped_label(s.drop_first()),
    decreases s.len(),
{
    if s.len() == 1 {
        assert(s.drop_last() =~= seq![]);
        assert(s.drop_first() =~= seq![]);
        assert(escaped_label(s) =~= escaped_label_char(s[0]) + escaped_label(s.drop_first()));
    } else {
        lemma_escaped_label_front(s.drop_last());
        assert(s.drop_last().drop_first() =~= s.drop_first().drop_last());
        assert(escaped_label(s) =~= escaped_label_char(s[0]) + escaped_label(s.drop_first()));
    }
}

/// An escaped label has no line feed, so that a sample stays on one line.
pub proof fn law_escaped_label_is_one_line(s: Seq<char>)
    ensures
        !escaped_label(s).contains('\n'),
    decreases s.len(),
{
    if s.len() > 0 {
        law_escaped_label_is_one_line(s.drop_last());
        assert forall|i: int| 0 <= i < escaped_label(s).len() implies escaped_label(s)[i]
            != '\n' by {
            let before = escaped_label(s.drop_last());
            if i < before.len() {
                assert(before.contains(before[i]));
            }
        }
    }
}

/// Escaping loses nothing: different labels are written differently.
pub proof fn law_escaped_labels_differ(a: Seq<char>, b: Seq<char>)
    requires
        a != b,
    ensures
        escaped_label(a) != escaped_label(b),
    decreases a.len(),
{
    if a.len() == 0 {
        assert(b.len() > 0) by {
            if b.len() == 0 {
                assert(a =~= b);
            }
        }
        lemma_escaped_label_front(b);
        assert(escaped_label(b).len() > 0);
    } else if b.len() == 0 {
        lemma_escaped_label_front(a);
        assert(escaped_label(a).len() > 0);
    } else {
        lemma_escaped_label_front(a);
        lemma_escaped_label_front(b);
        let ea = escaped_label(a);
        let eb = escaped_label(b);
        let ca = escaped_label_char(a[0]);
        let cb = escaped_label_char(b[0]);
        if ea == eb {
            assert(ea[0] == ca[0] && eb[0] == cb[0]);
            if ca.len() == 2 && cb.len() == 2 {
                assert(ea[1] == ca[1] && eb[1] == cb[1]);
            }
            assert(a[0] == b[0]);
            let ra = a.drop_first();
            let rb = b.drop_first();
            assert(ra != rb) by {
                if ra == rb {
                    assert(a =~= seq![a[0]] + ra);
                    assert(b =~= seq![b[0]] + rb);
                }
            }
            law_escaped_labels_differ(ra, rb);
            assert(escaped_label(ra) =~= ea.skip(ca.len() as int));
            assert(escaped_label(rb) =~= eb.skip(cb.len() as int));
        }
    }
}

} // verus!
