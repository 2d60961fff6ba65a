//! Which methods are asked for metrics, and which answers are accepted.

use crate::json::Json;
use crate::ordered::{has_key, lemma_place_is_found, place_of, Entries};
use crate::plugin_metrics::{
    discovered, families_problem, family_problem, has_family, is_discovery, is_metric_name,
    is_one_line, is_outcome, is_rpc_name, label_problem, labels_problem,
    law_accepted_metrics_keep_to_the_limits, law_discovery_finds_the_metrics_methods,
    metrics_method, metrics_methods, names_of, namespace_of, response_problem, samples_of,
    samples_problem, wire_problem, DiscoveryError, Family, MetricType, PluginMetrics, ResponseError,
    Sample, WireMetrics,
};
use crate::spelling::{law_endings_are_known, law_the_first_word_is_found};
use crate::text::{byte_len, first_word, has_suffix, is_space, replaced};
use crate::totals::sum_of;
use vstd::prelude::*;

verus! {

/// Whether a sign is a letter of the alphabet or a digit.
pub open spec fn is_plain(c: char) -> bool {
    ('a' <= c && c <= 'z') || ('A' <= c && c <= 'Z') || ('0' <= c && c <= '9')
}

/// The name of a metric has at most 128 bytes, is made of letters, digits and underscores, and does not
/// begin with a digit. The name of a method may have hyphens too, and begins with a letter or a digit.
pub proof fn law_names_are_plain(s: Seq<char>)
    ensures
        is_metric_name(s) <==> {
            &&& s.len() > 0
            &&& byte_len(s) <= 128
            &&& !('0' <= s[0] && s[0] <= '9')
            &&& forall|i: int| 0 <= i < s.len() ==> is_plain(#[trigger] s[i]) || s[i] == '_'
        },
        is_rpc_name(s) <==> {
            &&& s.len() > 0
            &&& byte_len(s) <= 128
            &&& s[0] != '_' && s[0] != '-'
            &&& forall|i: int|
                0 <= i < s.len() ==> is_plain(#[trigger] s[i]) || s[i] == '_' || s[i] == '-'
        },
{
    if is_metric_name(s) {
        assert forall|i: int| 0 <= i < s.len() implies is_plain(#[trigger] s[i]) || s[i] == '_' by {}
    }
    if is_rpc_name(s) {
        assert forall|i: int| 0 <= i < s.len() implies is_plain(#[trigger] s[i]) || s[i] == '_'
            || s[i] == '-' by {}
    }
    if s.len() > 0 && forall|i: int| 0 <= i < s.len() ==> is_plain(#[trigger] s[i]) || s[i] == '_' {
        assert(is_plain(s[0]) || s[0] == '_');
    }
    if s.len() > 0 && forall|i: int|
        0 <= i < s.len() ==> is_plain(#[trigger] s[i]) || s[i] == '_' || s[i] == '-' {
        assert(is_plain(s[0]) || s[0] == '_' || s[0] == '-');
    }
}

/// A method is asked for metrics if its help begins with a name that ends in what such names end in.
pub proof fn law_metrics_methods_are_known_by_their_names(
    entry: Json,
    stem: Seq<char>,
    rest: Seq<char>,
)
    requires
        is_rpc_name(stem + "-metrics"@),
        rest.len() > 0 ==> is_space(rest[0]),
        entry.text_at("command"@) == Some(stem + "-metrics"@ + rest),
    ensures
        metrics_method(entry) == Some(stem + "-metrics"@),
{
    let word = stem + "-metrics"@;
    let none = Seq::<char>::empty();
    assert(none + word + rest =~= word + rest);
    assert forall|i: int| 0 <= i < word.len() implies !is_space(#[trigger] word[i]) by {
        assert(crate::plugin_metrics::is_alphanumeric(word[i]) || word[i] == '_' || word[i] == '-');
    }
    law_the_first_word_is_found(none, word, rest);
    law_endings_are_known(stem, "-metrics"@);
}

/// A method whose name ends otherwise, or is no name of a method, is not asked.
pub proof fn law_other_methods_are_not_asked(entry: Json)
    ensures
        metrics_method(entry) matches Some(method) ==> {
            &&& is_rpc_name(method)
            &&& method == method.take(method.len() - "-metrics"@.len()) + "-metrics"@
            &&& entry.text_at("command"@) matches Some(command) && first_word(command) == Some(
                method,
            )
        },
{
    if let Some(method) = metrics_method(entry) {
        law_endings_are_known(method, "-metrics"@);
    }
}

/// The methods that are found are those of the entries, each of them once, and at most 64.
pub proof fn law_found_methods_are_those_of_the_help(response: Json, entries: Vec<Json>)
    requires
        response.field("help"@) == Some(Json::Array(entries)),
    ensures
        match discovered(Some(response)) {
            Ok(methods) => {
                &&& methods.len() <= 64
                &&& forall|i: int, j: int|
                    0 <= i < j < methods.len() ==> #[trigger] methods[i] != #[trigger] methods[j]
                &&& forall|i: int|
                    0 <= i < methods.len() ==> exists|k: int|
                        0 <= k < entries@.len() && metrics_method(#[trigger] entries@[k]) == Some(
                            #[trigger] methods[i],
                        )
                &&& forall|k: int|
                    0 <= k < entries@.len() && metrics_method(#[trigger] entries@[k]) is Some
                        ==> methods.contains(metrics_method(entries@[k])->0)
            },
            Err(error) => error == DiscoveryError::TooMany && metrics_methods(entries@).len() > 64,
        },
{
    let found = metrics_methods(entries@);
    law_discovery_finds_the_metrics_methods(entries@);
    let names = names_of(found);
    if found.len() <= 64 {
        assert forall|i: int| 0 <= i < found.len() implies #[trigger] found[i].0 == seq![names[i]]
            && exists|k: int|
            0 <= k < entries@.len() && metrics_method(#[trigger] entries@[k]) == Some(
                #[trigger] names[i],
            ) by {
            lemma_place_is_found(found, i);
            assert(has_key(found, found[i].0));
            let k = choose|k: int|
                0 <= k < entries@.len() && (metrics_method(#[trigger] entries@[k]) matches Some(
                    method,
                ) && found[i].0 == seq![method]);
            assert(names[i] == seq![metrics_method(entries@[k])->0][0]);
            assert(metrics_method(entries@[k]) == Some(names[i]));
        }
        assert forall|i: int, j: int| 0 <= i < j < names.len() implies #[trigger] names[i]
            != #[trigger] names[j] by {
            lemma_place_is_found(found, i);
            lemma_place_is_found(found, j);
            assert(found[i].0 == seq![names[i]]);
            assert(found[j].0 == seq![names[j]]);
        }
        assert forall|k: int|
            0 <= k < entries@.len() && metrics_method(#[trigger] entries@[k]) is Some implies names.contains(
            metrics_method(entries@[k])->0,
        ) by {
            let method = metrics_method(entries@[k])->0;
            assert(has_key(found, seq![method]));
            let i = place_of(found, seq![method]);
            crate::ordered::lemma_place_of(found, seq![method]);
            assert(names[i] == seq![method][0]);
        }
    }
}

/// An answer without a list of commands is refused, and so is none.
pub proof fn law_discovery_needs_the_help(response: Json)
    ensures
        discovered(None) == Err::<Seq<Seq<char>>, DiscoveryError>(DiscoveryError::Unavailable),
        !(response.field("help"@) matches Some(Json::Array(_))) ==> discovered(Some(response))
            == Err::<Seq<Seq<char>>, DiscoveryError>(DiscoveryError::NoHelp),
{
}

/// The namespace of a method is its name without the ending, with underscores for hyphens.
pub proof fn law_namespaces_are_those_of_the_methods(stem: Seq<char>)
    ensures
        namespace_of(stem + "-metrics"@) == replaced(stem, '-', '_'),
{
    let method = stem + "-metrics"@;
    assert(method.take(stem.len() as int) =~= stem);
}

/// Whether the labels of a sample are accepted: at most sixteen, each with the name of a metric and a
/// value of at most 512 bytes.
pub open spec fn has_fine_labels(sample: Sample) -> bool {
    &&& sample.labels@.len() <= 16
    &&& forall|i: int|
        0 <= i < sample.labels@.len() ==> is_metric_name((#[trigger] sample.labels@[i]).0[0])
            && byte_len(sample.labels@[i].1@) <= 512
}

/// Whether a family is accepted by itself: it has the name of a metric, which ends as those of counters
/// do if it is one, a help of one line and at most 512 bytes, and samples with fine labels.
pub open spec fn is_fine(family: Family) -> bool {
    &&& is_metric_name(family.name@)
    &&& byte_len(family.help@) <= 512
    &&& forall|i: int|
        0 <= i < family.help@.len() ==> #[trigger] family.help@[i] != '\n' && family.help@[i] != '\r'
    &&& family.kind == MetricType::Counter ==> has_suffix(family.name@, "_total"@)
    &&& forall|k: int|
        0 <= k < family.samples@.len() ==> has_fine_labels(#[trigger] family.samples@[k])
}

proof fn lemma_fine_labels(labels: Entries<String>)
    requires
        forall|i: int|
            0 <= i < labels.len() ==> is_metric_name((#[trigger] labels[i]).0[0]) && byte_len(
                labels[i].1@,
            ) <= 512,
    ensures
        labels_problem(labels) is None,
    decreases labels.len(),
{
    if labels.len() > 0 {
        let front = labels.drop_last();
        assert forall|i: int| 0 <= i < front.len() implies is_metric_name((
        #[trigger] front[i]).0[0]) && byte_len(front[i].1@) <= 512 by {
            assert(front[i] == labels[i]);
        }
        lemma_fine_labels(front);
        assert(labels[labels.len() - 1] == labels.last());
    }
}

proof fn lemma_fine_samples(name: Seq<char>, samples: Seq<Sample>)
    requires
        forall|k: int| 0 <= k < samples.len() ==> has_fine_labels(#[trigger] samples[k]),
    ensures
        samples_problem(name, samples) is None,
    decreases samples.len(),
{
    if samples.len() > 0 {
        let front = samples.drop_last();
        assert forall|k: int| 0 <= k < front.len() implies has_fine_labels(#[trigger] front[k]) by {
            assert(front[k] == samples[k]);
        }
        lemma_fine_samples(name, front);
        assert(samples[samples.len() - 1] == samples.last());
        lemma_fine_labels(samples.last().labels@);
    }
}

/// The number of samples of a family.
pub open spec fn sample_count() -> spec_fn(Family) -> int {
    |family: Family| family.samples@.len() as int
}

proof fn lemma_samples_of(families: Seq<Family>)
    ensures
        samples_of(families) == sum_of(families, sample_count()),
        samples_of(families) >= 0,
    decreases families.len(),
{
    if families.len() > 0 {
        lemma_samples_of(families.drop_last());
    }
}

proof fn lemma_fine_families(families: Seq<Family>)
    requires
        forall|i: int| 0 <= i < families.len() ==> is_fine(#[trigger] families[i]),
        forall|i: int, j: int|
            0 <= i < j < families.len() ==> (#[trigger] families[i]).name@ != (
            #[trigger] families[j]).name@,
        samples_of(families) <= 10_000,
    ensures
        families_problem(families) is None,
    decreases families.len(),
{
    if families.len() > 0 {
        let front = families.drop_last();
        let last = families.last();
        assert forall|i: int| 0 <= i < front.len() implies front[i] == #[trigger] families[i] by {}
        assert(families[families.len() - 1] == last);
        assert forall|i: int| 0 <= i < front.len() implies is_fine(#[trigger] front[i]) by {
            assert(front[i] == families[i]);
        }
        assert forall|i: int, j: int| 0 <= i < j < front.len() implies (#[trigger] front[i]).name@
            != (#[trigger] front[j]).name@ by {
            assert(front[i] == families[i] && front[j] == families[j]);
        }
        lemma_fine_families(front);
        assert(!has_family(front, last.name@)) by {
            if has_family(front, last.name@) {
                let i = choose|i: int|
                    0 <= i < front.len() && (#[trigger] front[i]).name@ == last.name@;
                assert(families[i].name@ != families[families.len() - 1].name@);
            }
        }
        lemma_fine_samples(last.name@, last.samples@);
    }
}

/// The metrics of a method are accepted if and only if they are of version one and in the namespace of
/// the method, which is the name of a metric, have one to 256 families with names of their own that are
/// fine, and at most ten thousand samples in all.
pub proof fn law_metrics_are_accepted(method: Seq<char>, wire: WireMetrics)
    ensures
        wire_problem(method, wire) is None <==> {
            let families = wire.families@;
            &&& wire.version == 1
            &&& is_metric_name(wire.namespace@)
            &&& wire.namespace@ == namespace_of(method)
            &&& 1 <= families.len() <= 256
            &&& forall|i: int| 0 <= i < families.len() ==> is_fine(#[trigger] families[i])
            &&& forall|i: int, j: int|
                0 <= i < j < families.len() ==> (#[trigger] families[i]).name@ != (
                #[trigger] families[j]).name@
            &&& sum_of(families, |family: Family| family.samples@.len() as int) <= 10_000
        },
{
    let families = wire.families@;
    lemma_samples_of(families);
    assert(sample_count() =~= |family: Family| family.samples@.len() as int);
    if wire_problem(method, wire) is None {
        law_accepted_metrics_keep_to_the_limits(method, wire);
        assert forall|i: int| 0 <= i < families.len() implies is_fine(#[trigger] families[i]) by {
            assert(crate::plugin_metrics::keeps_to_the_limits(families[i]));
            assert forall|k: int| 0 <= k < families[i].samples@.len() implies has_fine_labels(
                #[trigger] families[i].samples@[k],
            ) by {
                assert(crate::plugin_metrics::labels_keep_to_the_limits(families[i].samples@[k]));
            }
        }
    } else if (forall|i: int| 0 <= i < families.len() ==> is_fine(#[trigger] families[i])) && (
    forall|i: int, j: int|
        0 <= i < j < families.len() ==> (#[trigger] families[i]).name@ != (
        #[trigger] families[j]).name@) && samples_of(families) <= 10_000 {
        lemma_fine_families(families);
    }
}

/// Metrics are refused for the first thing that is wrong with them: the version, the namespace, whose
/// it is, and the number of families.
pub proof fn law_metrics_are_refused(method: Seq<char>, wire: WireMetrics)
    ensures
        wire.version != 1 ==> wire_problem(method, wire) == Some(
            ResponseError::<Seq<char>>::Version(wire.version),
        ),
        wire.version == 1 && !is_metric_name(wire.namespace@) ==> wire_problem(method, wire) == Some(
            ResponseError::<Seq<char>>::InvalidNamespace,
        ),
        wire.version == 1 && is_metric_name(wire.namespace@) && wire.namespace@ != namespace_of(
            method,
        ) ==> wire_problem(method, wire) == Some(ResponseError::<Seq<char>>::ForeignNamespace),
        wire.version == 1 && is_metric_name(wire.namespace@) && wire.namespace@ == namespace_of(
            method,
        ) ==> {
            &&& wire.families@.len() > 256 ==> wire_problem(method, wire) == Some(
                ResponseError::<Seq<char>>::TooManyFamilies,
            )
            &&& wire.families@.len() == 0 ==> wire_problem(method, wire) == Some(
                ResponseError::<Seq<char>>::NoFamilies,
            )
        },
{
}

/// A family is refused for the first thing that is wrong with it.
pub proof fn law_families_are_refused(before: Seq<Family>, family: Family)
    ensures
        ({
            let name = family.name@;
            let problem = family_problem(before, family);
            let known = exists|i: int|
                0 <= i < before.len() && (#[trigger] before[i]).name@ == name;
            let one_line = !family.help@.contains('\n') && !family.help@.contains('\r');
            let named = is_metric_name(name) && !known;
            let helped = byte_len(family.help@) <= 512 && one_line;
            let counts = family.kind == MetricType::Counter && !has_suffix(name, "_total"@);
            &&& byte_len(name) > 128 ==> problem == Some(ResponseError::<Seq<char>>::LongFamilyName)
            &&& byte_len(name) <= 128 && !is_metric_name(name) ==> problem == Some(
                ResponseError::<Seq<char>>::InvalidFamily(name),
            )
            &&& is_metric_name(name) && known ==> problem == Some(
                ResponseError::<Seq<char>>::DuplicateFamily(name),
            )
            &&& named && byte_len(family.help@) > 512 ==> problem == Some(
                ResponseError::<Seq<char>>::LongHelp(name),
            )
            &&& named && byte_len(family.help@) <= 512 && !one_line ==> problem == Some(
                ResponseError::<Seq<char>>::MultilineHelp(name),
            )
            &&& named && helped && counts ==> problem == Some(ResponseError::<Seq<char>>::CounterName(name))
            &&& named && helped && !counts && samples_of(before) + family.samples@.len() > 10_000
                ==> problem == Some(ResponseError::<Seq<char>>::TooManySamples)
            &&& named && helped && !counts && samples_of(before) + family.samples@.len() <= 10_000
                ==> problem == samples_problem(name, family.samples@)
        }),
{
    if is_one_line(family.help@) {
        if family.help@.contains('\n') {
            let i = choose|i: int| 0 <= i < family.help@.len() && family.help@[i] == '\n';
            assert(family.help@[i] == '\n');
        }
        if family.help@.contains('\r') {
            let i = choose|i: int| 0 <= i < family.help@.len() && family.help@[i] == '\r';
            assert(family.help@[i] == '\r');
        }
    } else {
        let i = choose|i: int|
            0 <= i < family.help@.len() && !(#[trigger] family.help@[i] != '\n' && family.help@[i]
                != '\r');
        assert(family.help@.contains(family.help@[i]));
    }
}

/// A label is refused for its name, and else for the length of its value.
pub proof fn law_labels_are_refused(name: Seq<char>, value: Seq<char>)
    ensures
        !is_metric_name(name) ==> label_problem(name, value) == Some(
            ResponseError::<Seq<char>>::InvalidLabel(name),
        ),
        is_metric_name(name) && byte_len(value) > 512 ==> label_problem(name, value) == Some(
            ResponseError::<Seq<char>>::LongLabelValue(name),
        ),
        is_metric_name(name) && byte_len(value) <= 512 ==> label_problem(name, value) is None,
{
}

/// An answer is refused if it has more than a mebibyte or does not have the form of metrics, and else
/// for what is wrong with its metrics.
pub proof fn law_answers_are_refused(method: Seq<char>, size: int, wire: WireMetrics)
    ensures
        size > 1_048_576 ==> response_problem(method, size, Some(wire)) == Some(
            ResponseError::<Seq<char>>::TooLarge,
        ) && response_problem(method, size, None) == Some(ResponseError::<Seq<char>>::TooLarge),
        size <= 1_048_576 ==> response_problem(method, size, None) == Some(
            ResponseError::<Seq<char>>::Malformed,
        ) && response_problem(method, size, Some(wire)) == wire_problem(method, wire),
{
}

/// A discovery gives what was found, or why nothing was.
pub proof fn law_discoveries_are_answered(
    r: Result<Vec<String>, DiscoveryError>,
    found: Result<Seq<Seq<char>>, DiscoveryError>,
)
    requires
        is_discovery(r, found),
    ensures
        match r {
            Ok(methods) => found == Ok::<Seq<Seq<char>>, DiscoveryError>(methods.deep_view()),
            Err(error) => found == Err::<Seq<Seq<char>>, DiscoveryError>(error),
        },
{
}

/// An answer with metrics gives these metrics and the number of their samples, and one that is refused
/// gives what is wrong with it.
pub proof fn law_answers_are_taken_as_they_are(
    r: Result<PluginMetrics, ResponseError<String>>,
    method: Seq<char>,
    size: int,
    wire: Option<WireMetrics>,
)
    requires
        is_outcome(r, method, size, wire),
    ensures
        match r {
            Ok(metrics) => {
                &&& response_problem(method, size, wire) is None
                &&& wire matches Some(told) && metrics.namespace == told.namespace
                    && metrics.families == told.families
                &&& metrics.sample_count == sum_of(
                    metrics.families@,
                    |family: Family| family.samples@.len() as int,
                )
            },
            Err(error) => response_problem(method, size, wire) == Some(error.deep_view()),
        },
{
    if let Ok(metrics) = r {
        lemma_samples_of(metrics.families@);
        assert(sample_count() =~= |family: Family| family.samples@.len() as int);
    }
}

} // verus!
