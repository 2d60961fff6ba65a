//! Metrics that other plugins offer over RPC: discovery and validation.

use crate::json::{referent, Json, JsonNumber};
use crate::ordered::{ascending, has_key, law_put_then_get, with_value, Entries, Key, OrderedMap};
use crate::text::{
    byte_len, byte_length, digit, first_word, has_suffix, is_digit, is_letter, letter, replace_char,
    replaced, same_text, without_suffix, word_of,
};
use vstd::prelude::*;

verus! {

/// How long a discovered list of methods is used, in nanoseconds.
pub const DISCOVERY_TTL: u128 = 60_000_000_000;

/// How many metrics methods there may be.
pub const MAX_COLLECTORS: usize = 64;

/// How many bytes a response may have.
pub const MAX_RESPONSE_BYTES: usize = 1_048_576;

/// How many families a response may have.
pub const MAX_FAMILIES: usize = 256;

/// How many samples a response may have.
pub const MAX_SAMPLES: usize = 10_000;

/// How many labels a sample may have.
pub const MAX_LABELS: usize = 16;

/// How many bytes a name may have.
pub const MAX_NAME_BYTES: usize = 128;

/// How many bytes a help text may have.
pub const MAX_HELP_BYTES: usize = 512;

/// How many bytes the value of a label may have.
pub const MAX_LABEL_VALUE_BYTES: usize = 512;

/// The methods that were discovered, and when.
pub struct Registry {
    methods: Vec<String>,
    refreshed_at: Option<u128>,
}

/// What is known of the methods.
#[verifier::ext_equal]
pub struct RegistryView {
    /// The discovered methods.
    pub known: Seq<Seq<char>>,
    /// When they were discovered, on a clock that never goes back, in nanoseconds. Nothing where they
    /// are to be discovered anew.
    pub refreshed: Option<u128>,
}

/// How far the question for the methods has come: the node was not asked for its help, did not answer,
/// or answered.
pub enum Help<'a> {
    NotAsked,
    Failed,
    Answered(&'a Json),
}

/// What is to be done for the methods: the node is to be asked for its help, or they are found or found
/// to be missing.
#[derive(Debug)]
pub enum Lookup {
    Ask,
    Done(Result<Vec<String>, DiscoveryError>),
}

/// What a lookup says.
pub enum LookupView {
    Ask,
    Found(Seq<Seq<char>>),
    Missing(DiscoveryError),
}

impl View for Lookup {
    type V = LookupView;

    open spec fn view(&self) -> LookupView {
        match self {
            Lookup::Ask => LookupView::Ask,
            Lookup::Done(Ok(methods)) => LookupView::Found(methods.deep_view()),
            Lookup::Done(Err(error)) => LookupView::Missing(*error),
        }
    }
}

impl RegistryView {
    /// Whether the discovered methods can still be used.
    pub open spec fn is_fresh(self, now: u128) -> bool {
        match self.refreshed {
            Some(at) => now < at || now - at < DISCOVERY_TTL,
            None => false,
        }
    }

    /// What is known once a plugin came or went.
    pub open spec fn invalidated(self) -> RegistryView {
        RegistryView { refreshed: None, ..self }
    }

    /// What is known after an answer of the node. One that gives no methods leaves all as it was.
    pub open spec fn with_answer(self, help: Option<Json>, now: u128) -> RegistryView {
        match discovered(help) {
            Ok(known) => RegistryView { known, refreshed: Some(now) },
            Err(_) => self,
        }
    }

    /// One step of a lookup: what is known after it, and what is to be done. The node is asked where the
    /// methods are not fresh; what it answers decides.
    pub open spec fn step(self, help: Help, now: u128) -> (RegistryView, LookupView) {
        match help {
            Help::NotAsked => (
                self,
                if self.is_fresh(now) {
                    LookupView::Found(self.known)
                } else {
                    LookupView::Ask
                },
            ),
            Help::Failed => (self.with_answer(None, now), outcome(discovered(None))),
            Help::Answered(response) => (
                self.with_answer(Some(*response), now),
                outcome(discovered(Some(*response))),
            ),
        }
    }
}

/// The end of a lookup.
pub open spec fn outcome(methods: Result<Seq<Seq<char>>, DiscoveryError>) -> LookupView {
    match methods {
        Ok(methods) => LookupView::Found(methods),
        Err(error) => LookupView::Missing(error),
    }
}

impl View for Registry {
    type V = RegistryView;

    closed spec fn view(&self) -> RegistryView {
        RegistryView { known: self.methods.deep_view(), refreshed: self.refreshed_at }
    }
}

fn copied(methods: &Vec<String>) -> (r: Vec<String>)
    ensures
        r.deep_view() == methods.deep_view(),
{
    let mut r: Vec<String> = Vec::new();
    let mut i: usize = 0;
    assert(r.deep_view() =~= methods.deep_view().take(0));
    while i < methods.len()
        invariant
            i <= methods@.len(),
            r.deep_view() =~= methods.deep_view().take(i as int),
        decreases methods@.len() - i,
    {
        let ghost before = r.deep_view();
        r.push(methods[i].clone());
        assert(r.deep_view() =~= before.push(methods@[i as int]@));
        i = i + 1;
    }
    assert(r.deep_view() =~= methods.deep_view());
    r
}

impl Registry {
    /// The discovered methods.
    pub open spec fn known(&self) -> Seq<Seq<char>> {
        self@.known
    }

    /// When they were discovered.
    pub open spec fn refreshed(&self) -> Option<u128> {
        self@.refreshed
    }

    /// Forgets when the methods were discovered, so that they are discovered anew.
    pub fn invalidate(&mut self)
        ensures
            final(self)@ == old(self)@.invalidated(),
    {
        self.refreshed_at = None;
    }

    /// The discovered methods, while they can be used.
    pub fn cached(&self, now: u128) -> (r: Option<&Vec<String>>)
        ensures
            r is Some <==> self@.is_fresh(now),
            r matches Some(methods) ==> methods.deep_view() == self@.known,
    {
        match self.refreshed_at {
            Some(at) => if now.saturating_sub(at) < DISCOVERY_TTL {
                Some(&self.methods)
            } else {
                None
            },
            None => None,
        }
    }

    /// Keeps the methods that were discovered.
    pub fn store(&mut self, methods: Vec<String>, now: u128)
        ensures
            final(self)@ == (RegistryView { known: methods.deep_view(), refreshed: Some(now) }),
    {
        self.methods = methods;
        self.refreshed_at = Some(now);
    }

    /// Takes in the answer to `help`, if there is one. The methods that it lists are kept and handed
    /// out; where it lists none that are accepted, those that were known stay.
    pub fn refresh(&mut self, help: Option<&Json>, now: u128) -> (r: Result<
        Vec<String>,
        DiscoveryError,
    >)
        ensures
            final(self)@ == old(self)@.with_answer(referent(help), now),
            is_discovery(r, discovered(referent(help))),
    {
        let response = match help {
            Some(response) => response,
            None => {
                return Err(DiscoveryError::Unavailable);
            },
        };
        match discover_methods(response) {
            Ok(methods) => {
                self.store(copied(&methods), now);
                Ok(methods)
            },
            Err(error) => Err(error),
        }
    }

    /// One step of a lookup of the methods. Those that are known are handed out while they are fresh;
    /// otherwise the node is to be asked for its help, once, and what comes of that is taken in.
    pub fn methods(&mut self, help: Help, now: u128) -> (r: Lookup)
        ensures
            (final(self)@, r@) == old(self)@.step(help, now),
    {
        match help {
            Help::NotAsked => match self.cached(now) {
                Some(methods) => Lookup::Done(Ok(copied(methods))),
                None => Lookup::Ask,
            },
            Help::Failed => Lookup::Done(self.refresh(None, now)),
            Help::Answered(response) => Lookup::Done(self.refresh(Some(response), now)),
        }
    }
}

impl Default for Registry {
    fn default() -> (r: Self)
        ensures
            r@ == (RegistryView { known: Seq::empty(), refreshed: None }),
    {
        let r = Registry { methods: Vec::new(), refreshed_at: None };
        assert(r@.known =~= Seq::<Seq<char>>::empty());
        r
    }
}

/// The kind of a metric.
#[derive(Clone, Copy, Debug, PartialEq, Eq, Structural)]
pub enum MetricType {
    Counter,
    Gauge,
}

impl MetricType {
    /// How the kind is written.
    pub open spec fn text(self) -> Seq<char> {
        match self {
            MetricType::Counter => "counter"@,
            MetricType::Gauge => "gauge"@,
        }
    }

    /// How the kind is written.
    pub fn as_str(self) -> (r: &'static str)
        ensures
            r@ == self.text(),
    {
        match self {
            MetricType::Counter => "counter",
            MetricType::Gauge => "gauge",
        }
    }
}

/// One value of a family, with its labels.
pub struct Sample {
    pub labels: OrderedMap<String, String>,
    pub value: JsonNumber,
}

/// A metric and its samples.
pub struct Family {
    pub name: String,
    pub help: String,
    pub kind: MetricType,
    pub samples: Vec<Sample>,
}

/// A response as a plugin sent it.
pub struct WireMetrics {
    pub version: u64,
    pub namespace: String,
    pub families: Vec<Family>,
}

/// A response that was found to be valid.
pub struct PluginMetrics {
    pub namespace: String,
    pub families: Vec<Family>,
    pub sample_count: usize,
}

/// What came of one metrics method. The duration is in seconds, as a decimal number.
pub struct Collection {
    pub rpc: String,
    pub duration: String,
    pub result: Result<PluginMetrics, CollectionError>,
}

/// What came of all metrics methods. The duration is in seconds, as a decimal number.
pub struct Batch {
    pub discovery_duration: String,
    pub discovery_error: Option<DiscoveryError>,
    pub collections: Vec<Collection>,
}

/// Why no metrics methods were discovered.
#[derive(Clone, Copy, Debug, PartialEq, Eq, Structural)]
pub enum DiscoveryError {
    /// The node did not answer.
    Unavailable,
    /// The answer has no list of commands.
    NoHelp,
    /// There are more metrics methods than are collected.
    TooMany,
}

/// Why a metrics method gave nothing.
#[derive(Debug)]
pub enum CollectionError {
    /// The node did not answer.
    Unavailable,
    /// The answer is not valid.
    Response(ResponseError<String>),
}

/// What is wrong with a response. Where the problem is in a family or a label, its name is given.
#[derive(Debug)]
pub enum ResponseError<T> {
    NotEncoded,
    TooLarge,
    Malformed,
    Version(u64),
    InvalidNamespace,
    ForeignNamespace,
    TooManyFamilies,
    LongFamilyName,
    InvalidFamily(T),
    DuplicateFamily(T),
    LongHelp(T),
    MultilineHelp(T),
    CounterName(T),
    TooManySamples,
    TooManyLabels(T),
    InvalidLabel(T),
    LongLabelValue(T),
    NoFamilies,
}

impl DeepView for ResponseError<String> {
    type V = ResponseError<Seq<char>>;

    open spec fn deep_view(&self) -> ResponseError<Seq<char>> {
        match self {
            ResponseError::NotEncoded => ResponseError::NotEncoded,
            ResponseError::TooLarge => ResponseError::TooLarge,
            ResponseError::Malformed => ResponseError::Malformed,
            ResponseError::Version(version) => ResponseError::Version(*version),
            ResponseError::InvalidNamespace => ResponseError::InvalidNamespace,
            ResponseError::ForeignNamespace => ResponseError::ForeignNamespace,
            ResponseError::TooManyFamilies => ResponseError::TooManyFamilies,
            ResponseError::LongFamilyName => ResponseError::LongFamilyName,
            ResponseError::InvalidFamily(name) => ResponseError::InvalidFamily(name@),
            ResponseError::DuplicateFamily(name) => ResponseError::DuplicateFamily(name@),
            ResponseError::LongHelp(name) => ResponseError::LongHelp(name@),
            ResponseError::MultilineHelp(name) => ResponseError::MultilineHelp(name@),
            ResponseError::CounterName(name) => ResponseError::CounterName(name@),
            ResponseError::TooManySamples => ResponseError::TooManySamples,
            ResponseError::TooManyLabels(name) => ResponseError::TooManyLabels(name@),
            ResponseError::InvalidLabel(name) => ResponseError::InvalidLabel(name@),
            ResponseError::LongLabelValue(name) => ResponseError::LongLabelValue(name@),
            ResponseError::NoFamilies => ResponseError::NoFamilies,
        }
    }
}

/// A letter or a digit.
pub open spec fn is_alphanumeric(c: char) -> bool {
    is_letter(c) || is_digit(c)
}

/// A method name: letters, digits, underscores and hyphens, with a letter or digit first.
pub open spec fn is_rpc_name(s: Seq<char>) -> bool {
    &&& 0 < s.len()
    &&& byte_len(s) <= MAX_NAME_BYTES
    &&& is_alphanumeric(s[0])
    &&& forall|i: int|
        0 <= i < s.len() ==> is_alphanumeric(#[trigger] s[i]) || s[i] == '_' || s[i] == '-'
}

/// A metric name: letters, digits and underscores, with no digit first.
pub open spec fn is_metric_name(s: Seq<char>) -> bool {
    &&& 0 < s.len()
    &&& byte_len(s) <= MAX_NAME_BYTES
    &&& is_letter(s[0]) || s[0] == '_'
    &&& forall|i: int| 0 <= i < s.len() ==> is_alphanumeric(#[trigger] s[i]) || s[i] == '_'
}

/// Whether a method name is accepted.
pub fn valid_rpc_name(value: &str) -> (r: bool)
    ensures
        r == is_rpc_name(value@),
{
    if value.is_empty() || byte_length(value) > MAX_NAME_BYTES {
        return false;
    }
    let length = value.unicode_len();
    let first = value.get_char(0);
    if !letter(first) && !digit(first) {
        return false;
    }
    let mut i: usize = 0;
    while i < length
        invariant
            i <= length,
            length == value@.len(),
            forall|j: int|
                0 <= j < i ==> is_alphanumeric(#[trigger] value@[j]) || value@[j] == '_'
                    || value@[j] == '-',
        decreases length - i,
    {
        let c = value.get_char(i);
        if !letter(c) && !digit(c) && c != '_' && c != '-' {
            assert(value@[i as int] == c);
            return false;
        }
        i = i + 1;
    }
    true
}

/// Whether a metric name is accepted.
pub fn valid_metric_name(value: &str) -> (r: bool)
    ensures
        r == is_metric_name(value@),
{
    if value.is_empty() || byte_length(value) > MAX_NAME_BYTES {
        return false;
    }
    let length = value.unicode_len();
    let first = value.get_char(0);
    if !letter(first) && first != '_' {
        return false;
    }
    let mut i: usize = 0;
    while i < length
        invariant
            i <= length,
            length == value@.len(),
            forall|j: int|
                0 <= j < i ==> is_alphanumeric(#[trigger] value@[j]) || value@[j] == '_',
        decreases length - i,
    {
        let c = value.get_char(i);
        if !letter(c) && !digit(c) && c != '_' {
            assert(value@[i as int] == c);
            return false;
        }
        i = i + 1;
    }
    true
}

/// The metrics method that a help entry is about, if it is about one.
pub open spec fn metrics_method(entry: Json) -> Option<Seq<char>> {
    match entry.text_at("command"@) {
        Some(command) => match first_word(command) {
            Some(method) => if has_suffix(method, "-metrics"@) && is_rpc_name(method) {
                Some(method)
            } else {
                None
            },
            None => None,
        },
        None => None,
    }
}

/// The metrics methods among the help entries, each once, in order.
pub open spec fn metrics_methods(entries: Seq<Json>) -> Entries<()>
    decreases entries.len(),
{
    if entries.len() == 0 {
        Seq::empty()
    } else {
        let before = metrics_methods(entries.drop_last());
        match metrics_method(entries.last()) {
            Some(method) => with_value(before, seq![method], ()),
            None => before,
        }
    }
}

/// The names of the entries.
pub open spec fn names_of(methods: Entries<()>) -> Seq<Seq<char>> {
    Seq::new(methods.len(), |i: int| methods[i].0[0])
}

/// The list of commands in a `help` response.
pub open spec fn help_entries(response: Json) -> Option<Seq<Json>> {
    match response.field("help"@) {
        Some(help) => help.elements(),
        None => None,
    }
}

fn method_of(entry: &Json) -> (r: Option<String>)
    ensures
        r.deep_view() == metrics_method(*entry),
{
    match entry.text_field("command") {
        Some(command) => match word_of(command) {
            Some(method) => if without_suffix(method.as_str(), "-metrics").is_some()
                && valid_rpc_name(method.as_str()) {
                Some(method)
            } else {
                None
            },
            None => None,
        },
        None => None,
    }
}

/// What the node's answer to `help` gives, if it answered.
pub open spec fn discovered(help: Option<Json>) -> Result<Seq<Seq<char>>, DiscoveryError> {
    match help {
        None => Err(DiscoveryError::Unavailable),
        Some(response) => match help_entries(response) {
            None => Err(DiscoveryError::NoHelp),
            Some(entries) => if metrics_methods(entries).len() > MAX_COLLECTORS {
                Err(DiscoveryError::TooMany)
            } else {
                Ok(names_of(metrics_methods(entries)))
            },
        },
    }
}

/// Whether `r` says what was discovered.
pub open spec fn is_discovery(
    r: Result<Vec<String>, DiscoveryError>,
    expected: Result<Seq<Seq<char>>, DiscoveryError>,
) -> bool {
    match expected {
        Ok(names) => r matches Ok(methods) && methods.deep_view() == names,
        Err(problem) => r matches Err(error) && error == problem,
    }
}

/// The methods of a `help` response whose names end in `-metrics`, each once, in order.
pub fn discover_methods(response: &Json) -> (r: Result<Vec<String>, DiscoveryError>)
    ensures
        is_discovery(r, discovered(Some(*response))),
{
    let help = match response.get("help") {
        Some(help) => match help.as_array() {
            Some(help) => help,
            None => {
                return Err(DiscoveryError::NoHelp);
            },
        },
        None => {
            return Err(DiscoveryError::NoHelp);
        },
    };
    let mut methods: OrderedMap<String, ()> = OrderedMap::new();
    let mut i: usize = 0;
    assert(help@.take(0) =~= seq![]);
    while i < help.len()
        invariant
            i <= help@.len(),
            methods@ == metrics_methods(help@.take(i as int)),
        decreases help@.len() - i,
    {
        assert(help@.take(i + 1).drop_last() =~= help@.take(i as int));
        if let Some(method) = method_of(&help[i]) {
            methods.insert(method, ());
        }
        i = i + 1;
    }
    assert(help@.take(i as int) =~= help@);
    if methods.len() > MAX_COLLECTORS {
        return Err(DiscoveryError::TooMany);
    }
    let mut names: Vec<String> = Vec::new();
    let mut j: usize = 0;
    assert(names.deep_view() =~= seq![]);
    while j < methods.len()
        invariant
            j <= methods@.len(),
            names.deep_view() =~= names_of(methods@).take(j as int),
        decreases methods@.len() - j,
    {
        let name = methods.key_at(j);
        assert(name.parts()[0] == name@);
        let ghost before = names.deep_view();
        names.push(name.clone());
        assert(names.deep_view() =~= before.push(name@));
        j = j + 1;
    }
    assert(names.deep_view() =~= names_of(methods@));
    Ok(names)
}

/// A problem of one label.
pub open spec fn label_problem(name: Seq<char>, value: Seq<char>) -> Option<
    ResponseError<Seq<char>>,
> {
    if !is_metric_name(name) {
        Some(ResponseError::InvalidLabel(name))
    } else if byte_len(value) > MAX_LABEL_VALUE_BYTES {
        Some(ResponseError::LongLabelValue(name))
    } else {
        None
    }
}

/// The first problem among the labels.
pub open spec fn labels_problem(labels: Entries<String>) -> Option<ResponseError<Seq<char>>>
    decreases labels.len(),
{
    if labels.len() == 0 {
        None
    } else {
        match labels_problem(labels.drop_last()) {
            Some(problem) => Some(problem),
            None => label_problem(labels.last().0[0], labels.last().1@),
        }
    }
}

/// The first problem among the samples of a family.
pub open spec fn samples_problem(family: Seq<char>, samples: Seq<Sample>) -> Option<
    ResponseError<Seq<char>>,
>
    decreases samples.len(),
{
    if samples.len() == 0 {
        None
    } else {
        match samples_problem(family, samples.drop_last()) {
            Some(problem) => Some(problem),
            None => if samples.last().labels@.len() > MAX_LABELS {
                Some(ResponseError::TooManyLabels(family))
            } else {
                labels_problem(samples.last().labels@)
            },
        }
    }
}

/// Whether a family of that name is among them.
pub open spec fn has_family(families: Seq<Family>, name: Seq<char>) -> bool {
    exists|i: int| 0 <= i < families.len() && (#[trigger] families[i]).name@ == name
}

/// How many samples the families have together.
pub open spec fn samples_of(families: Seq<Family>) -> int
    decreases families.len(),
{
    if families.len() == 0 {
        0
    } else {
        samples_of(families.drop_last()) + families.last().samples@.len()
    }
}

/// Whether a text has no line break.
pub open spec fn is_one_line(s: Seq<char>) -> bool {
    forall|i: int| 0 <= i < s.len() ==> #[trigger] s[i] != '\n' && s[i] != '\r'
}

/// A problem of a family that follows others.
pub open spec fn family_problem(before: Seq<Family>, family: Family) -> Option<
    ResponseError<Seq<char>>,
> {
    let name = family.name@;
    if byte_len(name) > MAX_NAME_BYTES {
        Some(ResponseError::LongFamilyName)
    } else if !is_metric_name(name) {
        Some(ResponseError::InvalidFamily(name))
    } else if has_family(before, name) {
        Some(ResponseError::DuplicateFamily(name))
    } else if byte_len(family.help@) > MAX_HELP_BYTES {
        Some(ResponseError::LongHelp(name))
    } else if !is_one_line(family.help@) {
        Some(ResponseError::MultilineHelp(name))
    } else if family.kind == MetricType::Counter && !has_suffix(name, "_total"@) {
        Some(ResponseError::CounterName(name))
    } else if samples_of(before) + family.samples@.len() > MAX_SAMPLES {
        Some(ResponseError::TooManySamples)
    } else {
        samples_problem(name, family.samples@)
    }
}

/// The first problem among the families.
pub open spec fn families_problem(families: Seq<Family>) -> Option<ResponseError<Seq<char>>>
    decreases families.len(),
{
    if families.len() == 0 {
        None
    } else {
        match families_problem(families.drop_last()) {
            Some(problem) => Some(problem),
            None => family_problem(families.drop_last(), families.last()),
        }
    }
}

/// The namespace that a method must use: its name without `-metrics`, with underscores for hyphens.
pub open spec fn namespace_of(method: Seq<char>) -> Seq<char> {
    replaced(method.take(method.len() - "-metrics"@.len()), '-', '_')
}

/// The first problem of a response.
pub open spec fn wire_problem(method: Seq<char>, wire: WireMetrics) -> Option<
    ResponseError<Seq<char>>,
> {
    if wire.version != 1 {
        Some(ResponseError::Version(wire.version))
    } else if !is_metric_name(wire.namespace@) {
        Some(ResponseError::InvalidNamespace)
    } else if wire.namespace@ != namespace_of(method) {
        Some(ResponseError::ForeignNamespace)
    } else if wire.families@.len() > MAX_FAMILIES {
        Some(ResponseError::TooManyFamilies)
    } else if families_problem(wire.families@) is Some {
        families_problem(wire.families@)
    } else if wire.families@.len() == 0 {
        Some(ResponseError::NoFamilies)
    } else {
        None
    }
}

/// A prefix that has a problem has it in every longer prefix.
proof fn lemma_labels_problem(labels: Entries<String>, n: int)
    requires
        0 <= n <= labels.len(),
        labels_problem(labels.take(n)) is Some,
    ensures
        labels_problem(labels) == labels_problem(labels.take(n)),
    decreases labels.len(),
{
    if n == labels.len() {
        assert(labels.take(n) =~= labels);
    } else {
        assert(labels.drop_last().take(n) =~= labels.take(n));
        lemma_labels_problem(labels.drop_last(), n);
    }
}

proof fn lemma_samples_problem(family: Seq<char>, samples: Seq<Sample>, n: int)
    requires
        0 <= n <= samples.len(),
        samples_problem(family, samples.take(n)) is Some,
    ensures
        samples_problem(family, samples) == samples_problem(family, samples.take(n)),
    decreases samples.len(),
{
    if n == samples.len() {
        assert(samples.take(n) =~= samples);
    } else {
        assert(samples.drop_last().take(n) =~= samples.take(n));
        lemma_samples_problem(family, samples.drop_last(), n);
    }
}

proof fn lemma_families_problem(families: Seq<Family>, n: int)
    requires
        0 <= n <= families.len(),
        families_problem(families.take(n)) is Some,
    ensures
        families_problem(families) == families_problem(families.take(n)),
    decreases families.len(),
{
    if n == families.len() {
        assert(families.take(n) =~= families);
    } else {
        assert(families.drop_last().take(n) =~= families.take(n));
        lemma_families_problem(families.drop_last(), n);
    }
}

fn check_labels(labels: &OrderedMap<String, String>) -> (r: Option<ResponseError<String>>)
    ensures
        r.deep_view() == labels_problem(labels@),
{
    let mut i: usize = 0;
    assert(labels@.take(0) =~= seq![]);
    while i < labels.len()
        invariant
            i <= labels@.len(),
            labels_problem(labels@.take(i as int)) is None,
        decreases labels@.len() - i,
    {
        assert(labels@.take(i + 1).drop_last() =~= labels@.take(i as int));
        let name = labels.key_at(i);
        assert(name.parts()[0] == name@);
        if !valid_metric_name(name.as_str()) {
            proof {
                lemma_labels_problem(labels@, i + 1);
            }
            return Some(ResponseError::InvalidLabel(name.clone()));
        }
        if byte_length(labels.value_at(i).as_str()) > MAX_LABEL_VALUE_BYTES {
            proof {
                lemma_labels_problem(labels@, i + 1);
            }
            return Some(ResponseError::LongLabelValue(name.clone()));
        }
        i = i + 1;
    }
    assert(labels@.take(i as int) =~= labels@);
    None
}

fn check_samples(family: &str, samples: &Vec<Sample>) -> (r: Option<ResponseError<String>>)
    ensures
        r.deep_view() == samples_problem(family@, samples@),
{
    let mut i: usize = 0;
    assert(samples@.take(0) =~= seq![]);
    while i < samples.len()
        invariant
            i <= samples@.len(),
            samples_problem(family@, samples@.take(i as int)) is None,
        decreases samples@.len() - i,
    {
        assert(samples@.take(i + 1).drop_last() =~= samples@.take(i as int));
        if samples[i].labels.len() > MAX_LABELS {
            proof {
                lemma_samples_problem(family@, samples@, i + 1);
            }
            return Some(ResponseError::TooManyLabels(family.to_owned()));
        }
        if let Some(problem) = check_labels(&samples[i].labels) {
            proof {
                lemma_samples_problem(family@, samples@, i + 1);
            }
            return Some(problem);
        }
        i = i + 1;
    }
    assert(samples@.take(i as int) =~= samples@);
    None
}

fn named_before(families: &Vec<Family>, end: usize, name: &str) -> (r: bool)
    requires
        end <= families@.len(),
    ensures
        r == has_family(families@.take(end as int), name@),
{
    let mut i: usize = 0;
    while i < end
        invariant
            i <= end <= families@.len(),
            forall|j: int| 0 <= j < i ==> (#[trigger] families@.take(end as int)[j]).name@ != name@,
        decreases end - i,
    {
        if same_text(families[i].name.as_str(), name) {
            assert(families@.take(end as int)[i as int].name@ == name@);
            return true;
        }
        i = i + 1;
    }
    false
}

fn one_line(text: &str) -> (r: bool)
    ensures
        r == is_one_line(text@),
{
    let length = text.unicode_len();
    let mut i: usize = 0;
    while i < length
        invariant
            i <= length,
            length == text@.len(),
            forall|j: int| 0 <= j < i ==> #[trigger] text@[j] != '\n' && text@[j] != '\r',
        decreases length - i,
    {
        let c = text.get_char(i);
        if c == '\n' || c == '\r' {
            assert(text@[i as int] == c);
            return false;
        }
        i = i + 1;
    }
    true
}

fn check_family(families: &Vec<Family>, i: usize, counted: usize) -> (r: Option<
    ResponseError<String>,
>)
    requires
        i < families@.len(),
        counted == samples_of(families@.take(i as int)),
        counted <= MAX_SAMPLES,
    ensures
        r.deep_view() == family_problem(families@.take(i as int), families@[i as int]),
{
    let family = &families[i];
    let name = family.name.as_str();
    if byte_length(name) > MAX_NAME_BYTES {
        return Some(ResponseError::LongFamilyName);
    }
    if !valid_metric_name(name) {
        return Some(ResponseError::InvalidFamily(name.to_owned()));
    }
    if named_before(families, i, name) {
        return Some(ResponseError::DuplicateFamily(name.to_owned()));
    }
    if byte_length(family.help.as_str()) > MAX_HELP_BYTES {
        return Some(ResponseError::LongHelp(name.to_owned()));
    }
    if !one_line(family.help.as_str()) {
        return Some(ResponseError::MultilineHelp(name.to_owned()));
    }
    if family.kind == MetricType::Counter && without_suffix(name, "_total").is_none() {
        return Some(ResponseError::CounterName(name.to_owned()));
    }
    if family.samples.len() > MAX_SAMPLES - counted {
        return Some(ResponseError::TooManySamples);
    }
    check_samples(name, &family.samples)
}

fn check_families(families: &Vec<Family>) -> (r: Result<usize, ResponseError<String>>)
    ensures
        match families_problem(families@) {
            Some(problem) => r matches Err(error) && error.deep_view() == problem,
            None => r matches Ok(count) && count == samples_of(families@),
        },
{
    let mut counted: usize = 0;
    let mut i: usize = 0;
    assert(families@.take(0) =~= seq![]);
    while i < families.len()
        invariant
            i <= families@.len(),
            families_problem(families@.take(i as int)) is None,
            counted == samples_of(families@.take(i as int)),
            counted <= MAX_SAMPLES,
        decreases families@.len() - i,
    {
        assert(families@.take(i + 1).drop_last() =~= families@.take(i as int));
        if let Some(problem) = check_family(families, i, counted) {
            proof {
                lemma_families_problem(families@, i + 1);
            }
            return Err(problem);
        }
        counted = counted + families[i].samples.len();
        i = i + 1;
    }
    assert(families@.take(i as int) =~= families@);
    Ok(counted)
}

/// Checks what a metrics method sent against the limits and the naming rules.
pub fn validate_wire(method: &str, wire: WireMetrics) -> (r: Result<
    PluginMetrics,
    ResponseError<String>,
>)
    requires
        has_suffix(method@, "-metrics"@),
    ensures
        match wire_problem(method@, wire) {
            Some(problem) => r matches Err(error) && error.deep_view() == problem,
            None => r matches Ok(metrics) && metrics.namespace == wire.namespace && metrics.families
                == wire.families && metrics.sample_count == samples_of(wire.families@),
        },
{
    if wire.version != 1 {
        return Err(ResponseError::Version(wire.version));
    }
    if !valid_metric_name(wire.namespace.as_str()) {
        return Err(ResponseError::InvalidNamespace);
    }
    let expected = match without_suffix(method, "-metrics") {
        Some(stem) => replace_char(stem, '-', '_'),
        None => String::new(),
    };
    if !same_text(wire.namespace.as_str(), expected.as_str()) {
        return Err(ResponseError::ForeignNamespace);
    }
    if wire.families.len() > MAX_FAMILIES {
        return Err(ResponseError::TooManyFamilies);
    }
    let sample_count: usize = match check_families(&wire.families) {
        Ok(count) => count,
        Err(problem) => {
            return Err(problem);
        },
    };
    if wire.families.len() == 0 {
        return Err(ResponseError::NoFamilies);
    }
    Ok(PluginMetrics { namespace: wire.namespace, families: wire.families, sample_count })
}

/// The type of a JSON value in `serde_json`.
#[verifier::external_type_specification]
#[verifier::external_body]
pub struct ExValue(serde_json::Value);

/// The type of an error in `serde_json`.
#[verifier::external_type_specification]
#[verifier::external_body]
pub struct ExError(serde_json::Error);

/// What `serde_json::to_vec` writes for a value: its JSON text without white space, or nothing
/// where it fails.
pub uninterp spec fn compact_json(value: serde_json::Value) -> Option<Seq<u8>>;

/// Trusts `serde_json::to_vec`: whether it succeeds and the bytes it then writes depend on the
/// value alone.
#[verifier::external_body]
fn encode(value: &serde_json::Value) -> (r: Result<Vec<u8>, serde_json::Error>)
    ensures
        match r {
            Ok(bytes) => compact_json(*value) == Some(bytes@),
            Err(_) => compact_json(*value) is None,
        },
{
    serde_json::to_vec(value)
}

/// What comes of a response of that many bytes, read as `wire`.
pub open spec fn response_problem(method: Seq<char>, size: int, wire: Option<WireMetrics>) -> Option<
    ResponseError<Seq<char>>,
> {
    if size > MAX_RESPONSE_BYTES {
        Some(ResponseError::TooLarge)
    } else {
        match wire {
            Some(wire) => wire_problem(method, wire),
            None => Some(ResponseError::Malformed),
        }
    }
}

/// Whether `r` is the outcome for a response of that many bytes, read as `wire`.
pub open spec fn is_outcome(
    r: Result<PluginMetrics, ResponseError<String>>,
    method: Seq<char>,
    size: int,
    wire: Option<WireMetrics>,
) -> bool {
    match response_problem(method, size, wire) {
        Some(problem) => r matches Err(error) && error.deep_view() == problem,
        None => r matches Ok(metrics) && wire matches Some(wire) && metrics.namespace
            == wire.namespace && metrics.families == wire.families && metrics.sample_count
            == samples_of(wire.families@),
    }
}

/// Validates a response whose compact JSON text is `encoded` and which reads as `wire`.
pub fn validate_encoded(method: &str, encoded: &Vec<u8>, wire: Option<WireMetrics>) -> (r: Result<
    PluginMetrics,
    ResponseError<String>,
>)
    requires
        has_suffix(method@, "-metrics"@),
    ensures
        is_outcome(r, method@, encoded@.len() as int, wire),
{
    if encoded.len() > MAX_RESPONSE_BYTES {
        return Err(ResponseError::TooLarge);
    }
    match wire {
        Some(wire) => validate_wire(method, wire),
        None => Err(ResponseError::Malformed),
    }
}

/// Validates a response that reads as `wire`, or as nothing where its shape is wrong.
pub fn validate_response(
    method: &str,
    value: &serde_json::Value,
    wire: Option<WireMetrics>,
) -> (r: Result<PluginMetrics, ResponseError<String>>)
    requires
        has_suffix(method@, "-metrics"@),
    ensures
        match compact_json(*value) {
            Some(bytes) => is_outcome(r, method@, bytes.len() as int, wire),
            None => r matches Err(ResponseError::NotEncoded),
        },
{
    match encode(value) {
        Ok(encoded) => validate_encoded(method, &encoded, wire),
        Err(_) => Err(ResponseError::NotEncoded),
    }
}

/// What was discovered is used for a minute, and then, or once a plugin came or went, the node is asked
/// anew.
pub proof fn law_a_discovery_lasts_a_minute(
    before: RegistryView,
    help: Option<Json>,
    at: u128,
    now: u128,
)
    requires
        discovered(help) is Ok,
        at <= now,
    ensures
        ({
            let registry = before.with_answer(help, at);
            let found = LookupView::Found(discovered(help)->Ok_0);
            &&& registry.step(Help::NotAsked, now) == (registry, if now - at < 60_000_000_000 {
                found
            } else {
                LookupView::Ask
            })
            &&& registry.invalidated().step(Help::NotAsked, now) == (
                registry.invalidated(),
                LookupView::Ask,
            )
        }),
{
}

/// Once the node was asked, a lookup ends: with what was discovered, which is then what is known, or
/// with an error, which leaves what is known as it was. So the node is asked at most once.
pub proof fn law_a_lookup_asks_at_most_once(before: RegistryView, help: Help, now: u128)
    requires
        !(help is NotAsked),
    ensures
        ({
            let response = match help {
                Help::Answered(response) => Some(*response),
                _ => None,
            };
            match discovered(response) {
                Ok(known) => before.step(help, now) == (
                    RegistryView { known, refreshed: Some(now) },
                    LookupView::Found(known),
                ),
                Err(error) => before.step(help, now) == (before, LookupView::Missing(error)),
            }
        }),
{
}

/// The discovered methods are in order, each of them once, and are those of the listed commands that
/// are metrics methods.
pub proof fn law_discovery_finds_the_metrics_methods(entries: Seq<Json>)
    ensures
        ascending(metrics_methods(entries)),
        forall|key: Seq<Seq<char>>|
            #[trigger] has_key(metrics_methods(entries), key) <==> exists|i: int|
                0 <= i < entries.len() && (metrics_method(#[trigger] entries[i]) matches Some(method)
                    && key == seq![method]),
    decreases entries.len(),
{
    if entries.len() > 0 {
        let front = entries.drop_last();
        law_discovery_finds_the_metrics_methods(front);
        let before = metrics_methods(front);
        let after = metrics_methods(entries);
        if let Some(method) = metrics_method(entries.last()) {
            assert forall|key: Seq<Seq<char>>| #[trigger] has_key(after, key) <==> (has_key(
                before,
                key,
            ) || key == seq![method]) by {
                law_put_then_get(before, seq![method], (), key);
            }
            law_put_then_get(before, seq![method], (), seq![method]);
        }
        assert forall|key: Seq<Seq<char>>| #[trigger] has_key(after, key) <==> exists|i: int|
            0 <= i < entries.len() && (metrics_method(#[trigger] entries[i]) matches Some(method)
                && key == seq![method]) by {
            if has_key(before, key) {
                let i = choose|i: int|
                    0 <= i < front.len() && (metrics_method(#[trigger] front[i]) matches Some(method)
                        && key == seq![method]);
                assert(entries[i] == front[i]);
            }
            if metrics_method(entries.last()) is Some && key == seq![
                metrics_method(entries.last())->0,
            ] {
                assert(entries[entries.len() - 1] == entries.last());
            }
            if exists|i: int|
                0 <= i < entries.len() && (metrics_method(#[trigger] entries[i]) matches Some(method)
                    && key == seq![method]) {
                let i = choose|i: int|
                    0 <= i < entries.len() && (metrics_method(#[trigger] entries[i]) matches Some(
                        method,
                    ) && key == seq![method]);
                if i < front.len() {
                    assert(front[i] == entries[i]);
                }
            }
        }
    }
}

proof fn lemma_accepted_labels(labels: Entries<String>)
    requires
        labels_problem(labels) is None,
    ensures
        forall|i: int|
            0 <= i < labels.len() ==> is_metric_name((#[trigger] labels[i]).0[0]) && byte_len(
                labels[i].1@,
            ) <= MAX_LABEL_VALUE_BYTES,
    decreases labels.len(),
{
    if labels.len() > 0 {
        lemma_accepted_labels(labels.drop_last());
        assert forall|i: int| 0 <= i < labels.len() implies is_metric_name(
            (#[trigger] labels[i]).0[0],
        ) && byte_len(labels[i].1@) <= MAX_LABEL_VALUE_BYTES by {
            if i < labels.len() - 1 {
                assert(labels.drop_last()[i] == labels[i]);
            }
        }
    }
}

/// Whether the labels of a sample keep to the limits.
pub open spec fn labels_keep_to_the_limits(sample: Sample) -> bool {
    &&& sample.labels@.len() <= MAX_LABELS
    &&& forall|i: int|
        0 <= i < sample.labels@.len() ==> is_metric_name((#[trigger] sample.labels@[i]).0[0])
            && byte_len(sample.labels@[i].1@) <= MAX_LABEL_VALUE_BYTES
}

/// Whether a family keeps to the limits.
pub open spec fn keeps_to_the_limits(family: Family) -> bool {
    &&& is_metric_name(family.name@)
    &&& byte_len(family.help@) <= MAX_HELP_BYTES
    &&& is_one_line(family.help@)
    &&& family.kind == MetricType::Counter ==> has_suffix(family.name@, "_total"@)
    &&& forall|k: int|
        0 <= k < family.samples@.len() ==> labels_keep_to_the_limits(#[trigger] family.samples@[k])
}

proof fn lemma_accepted_samples(name: Seq<char>, samples: Seq<Sample>)
    requires
        samples_problem(name, samples) is None,
    ensures
        forall|k: int|
            0 <= k < samples.len() ==> labels_keep_to_the_limits(#[trigger] samples[k]),
    decreases samples.len(),
{
    if samples.len() > 0 {
        lemma_accepted_samples(name, samples.drop_last());
        lemma_accepted_labels(samples.last().labels@);
        assert forall|k: int| 0 <= k < samples.len() implies labels_keep_to_the_limits(
            #[trigger] samples[k],
        ) by {
            if k < samples.len() - 1 {
                assert(samples.drop_last()[k] == samples[k]);
            }
        }
    }
}

proof fn lemma_accepted_families(families: Seq<Family>)
    requires
        families_problem(families) is None,
    ensures
        forall|i: int| 0 <= i < families.len() ==> keeps_to_the_limits(#[trigger] families[i]),
        forall|i: int, j: int|
            0 <= i < j < families.len() ==> (#[trigger] families[i]).name@ != (
            #[trigger] families[j]).name@,
        samples_of(families) <= MAX_SAMPLES,
    decreases families.len(),
{
    if families.len() > 0 {
        let front = families.drop_last();
        lemma_accepted_families(front);
        lemma_accepted_samples(families.last().name@, families.last().samples@);
        assert forall|i: int| 0 <= i < families.len() implies keeps_to_the_limits(
            #[trigger] families[i],
        ) by {
            if i < front.len() {
                assert(front[i] == families[i]);
            }
        }
        assert forall|i: int, j: int| 0 <= i < j < families.len() implies (
        #[trigger] families[i]).name@ != (#[trigger] families[j]).name@ by {
            assert(front[i] == families[i]);
            if j < front.len() {
                assert(front[j] == families[j]);
            }
        }
    }
}

/// Metrics that are accepted are in the namespace of their method, keep to every limit, and name no
/// family twice.
pub proof fn law_accepted_metrics_keep_to_the_limits(method: Seq<char>, wire: WireMetrics)
    requires
        wire_problem(method, wire) is None,
    ensures
        wire.version == 1,
        wire.namespace@ == namespace_of(method),
        0 < wire.families@.len() <= MAX_FAMILIES,
        samples_of(wire.families@) <= MAX_SAMPLES,
        forall|i: int|
            0 <= i < wire.families@.len() ==> keeps_to_the_limits(#[trigger] wire.families@[i]),
        forall|i: int, j: int|
            0 <= i < j < wire.families@.len() ==> (#[trigger] wire.families@[i]).name@ != (
            #[trigger] wire.families@[j]).name@,
{
    lemma_accepted_families(wire.families@);
}

} // verus!
