//! That the exporter accepts the metrics of the history.

use crate::plugin_metrics::{
    families_problem, is_alphanumeric, is_metric_name, is_one_line, is_rpc_name, labels_problem,
    samples_of, samples_problem, wire_problem, Family, WireMetrics, MAX_HELP_BYTES,
};
use crate::store::DbView;
use crate::text::{byte_len, has_suffix, replaced};
use crate::upkeep::{are_gauges, gauges_of, is_gauge, row_gauges, run_gauges, Gauge, Storage};
use vstd::prelude::*;
use vstd::utf8::{is_ascii_chars, is_ascii_chars_encode_utf8};

verus! {

/// Whether the first characters are such as stand in a metric's name.
spec fn is_name_up_to(s: Seq<char>, n: int) -> bool
    decreases n,
{
    n <= 0 || ((is_alphanumeric(s[n - 1]) || s[n - 1] == '_') && is_name_up_to(s, n - 1))
}

/// Whether the first characters are printable ASCII.
spec fn is_plain_up_to(s: Seq<char>, n: int) -> bool
    decreases n,
{
    n <= 0 || (' ' <= s[n - 1] <= '~' && is_plain_up_to(s, n - 1))
}

proof fn lemma_name_up_to(s: Seq<char>, n: int)
    requires
        is_name_up_to(s, n),
    ensures
        forall|i: int| 0 <= i < n ==> is_alphanumeric(#[trigger] s[i]) || s[i] == '_',
    decreases n,
{
    if n > 0 {
        lemma_name_up_to(s, n - 1);
    }
}

proof fn lemma_plain_up_to(s: Seq<char>, n: int)
    requires
        is_plain_up_to(s, n),
    ensures
        forall|i: int| 0 <= i < n ==> ' ' <= #[trigger] s[i] <= '~',
    decreases n,
{
    if n > 0 {
        lemma_plain_up_to(s, n - 1);
    }
}

/// Whether a metric's name and help are such as the exporter accepts.
pub open spec fn is_acceptable(gauge: Gauge) -> bool {
    &&& is_metric_name(gauge.name)
    &&& byte_len(gauge.help) <= MAX_HELP_BYTES
    &&& is_one_line(gauge.help)
}

proof fn lemma_acceptable(gauge: Gauge)
    requires
        8 <= gauge.name.len() <= 128,
        gauge.help.len() <= MAX_HELP_BYTES,
        is_name_up_to(gauge.name, gauge.name.len() as int),
        !(gauge.name[0] <= '9'),
        is_plain_up_to(gauge.help, gauge.help.len() as int),
    ensures
        is_acceptable(gauge),
{
    lemma_name_up_to(gauge.name, gauge.name.len() as int);
    lemma_plain_up_to(gauge.help, gauge.help.len() as int);
    assert(is_ascii_chars(gauge.name));
    assert(is_ascii_chars(gauge.help));
    is_ascii_chars_encode_utf8(gauge.name);
    is_ascii_chars_encode_utf8(gauge.help);
}

/// What tells the names of the metrics apart: how long they are, and the character that stands fourth
/// from their end.
spec fn tag(name: Seq<char>) -> int {
    name.len() * 0x200 + name[name.len() - 4] as int
}

/// Whether the metric is acceptable and its name has that tag.
#[verifier::opaque]
spec fn conforms(gauge: Gauge, t: int) -> bool {
    is_acceptable(gauge) && tag(gauge.name) == t
}

proof fn lemma_database_bytes(gauge: Gauge)
    requires
        gauge.name == "database_bytes"@,
        gauge.help == "Size of the main cln-history SQLite database file in bytes."@,
    ensures
        conforms(gauge, 7289),
{
    reveal(conforms);
    reveal_strlit("database_bytes");
    reveal_strlit("Size of the main cln-history SQLite database file in bytes.");
    reveal_with_fuel(is_name_up_to, 15);
    reveal_with_fuel(is_plain_up_to, 60);
    lemma_acceptable(gauge);
}

proof fn lemma_wal_bytes(gauge: Gauge)
    requires
        gauge.name == "wal_bytes"@,
        gauge.help == "Size of the cln-history SQLite write-ahead log in bytes."@,
    ensures
        conforms(gauge, 4729),
{
    reveal(conforms);
    reveal_strlit("wal_bytes");
    reveal_strlit("Size of the cln-history SQLite write-ahead log in bytes.");
    reveal_with_fuel(is_name_up_to, 10);
    reveal_with_fuel(is_plain_up_to, 57);
    lemma_acceptable(gauge);
}

proof fn lemma_storage_bytes(gauge: Gauge)
    requires
        gauge.name == "storage_bytes"@,
        gauge.help == "Total cln-history SQLite database, WAL, and shared-memory disk usage in bytes."@,
    ensures
        conforms(gauge, 6777),
{
    reveal(conforms);
    reveal_strlit("storage_bytes");
    reveal_strlit("Total cln-history SQLite database, WAL, and shared-memory disk usage in bytes.");
    reveal_with_fuel(is_name_up_to, 14);
    reveal_with_fuel(is_plain_up_to, 79);
    lemma_acceptable(gauge);
}

proof fn lemma_database_pages(gauge: Gauge)
    requires
        gauge.name == "database_pages"@,
        gauge.help == "Number of pages in the cln-history SQLite database."@,
    ensures
        conforms(gauge, 7265),
{
    reveal(conforms);
    reveal_strlit("database_pages");
    reveal_strlit("Number of pages in the cln-history SQLite database.");
    reveal_with_fuel(is_name_up_to, 15);
    reveal_with_fuel(is_plain_up_to, 52);
    lemma_acceptable(gauge);
}

proof fn lemma_database_freelist_pages(gauge: Gauge)
    requires
        gauge.name == "database_freelist_pages"@,
        gauge.help == "Number of unused pages in the cln-history SQLite database."@,
    ensures
        conforms(gauge, 11873),
{
    reveal(conforms);
    reveal_strlit("database_freelist_pages");
    reveal_strlit("Number of unused pages in the cln-history SQLite database.");
    reveal_with_fuel(is_name_up_to, 24);
    reveal_with_fuel(is_plain_up_to, 59);
    lemma_acceptable(gauge);
}

proof fn lemma_schema_version(gauge: Gauge)
    requires
        gauge.name == "schema_version"@,
        gauge.help == "Current cln-history SQLite schema version."@,
    ensures
        conforms(gauge, 7283),
{
    reveal(conforms);
    reveal_strlit("schema_version");
    reveal_strlit("Current cln-history SQLite schema version.");
    reveal_with_fuel(is_name_up_to, 15);
    reveal_with_fuel(is_plain_up_to, 43);
    lemma_acceptable(gauge);
}

proof fn lemma_channels(gauge: Gauge)
    requires
        gauge.name == "channels"@,
        gauge.help == "Number of channels known to cln-history."@,
    ensures
        conforms(gauge, 4206),
{
    reveal(conforms);
    reveal_strlit("channels");
    reveal_strlit("Number of channels known to cln-history.");
    reveal_with_fuel(is_name_up_to, 9);
    reveal_with_fuel(is_plain_up_to, 41);
    lemma_acceptable(gauge);
}

proof fn lemma_active_channels(gauge: Gauge)
    requires
        gauge.name == "active_channels"@,
        gauge.help == "Number of channels present in the latest cln-history snapshot."@,
    ensures
        conforms(gauge, 7790),
{
    reveal(conforms);
    reveal_strlit("active_channels");
    reveal_strlit("Number of channels present in the latest cln-history snapshot.");
    reveal_with_fuel(is_name_up_to, 16);
    reveal_with_fuel(is_plain_up_to, 63);
    lemma_acceptable(gauge);
}

proof fn lemma_disappeared_channels(gauge: Gauge)
    requires
        gauge.name == "disappeared_channels"@,
        gauge.help == "Number of historical channels absent from the latest cln-history snapshot."@,
    ensures
        conforms(gauge, 10350),
{
    reveal(conforms);
    reveal_strlit("disappeared_channels");
    reveal_strlit("Number of historical channels absent from the latest cln-history snapshot.");
    reveal_with_fuel(is_name_up_to, 21);
    reveal_with_fuel(is_plain_up_to, 75);
    lemma_acceptable(gauge);
}

proof fn lemma_channel_samples(gauge: Gauge)
    requires
        gauge.name == "channel_samples"@,
        gauge.help == "Number of retained channel liquidity change points and checkpoints."@,
    ensures
        conforms(gauge, 7792),
{
    reveal(conforms);
    reveal_strlit("channel_samples");
    reveal_strlit("Number of retained channel liquidity change points and checkpoints.");
    reveal_with_fuel(is_name_up_to, 16);
    reveal_with_fuel(is_plain_up_to, 68);
    lemma_acceptable(gauge);
}

proof fn lemma_channel_events(gauge: Gauge)
    requires
        gauge.name == "channel_events"@,
        gauge.help == "Number of retained channel lifecycle and state events."@,
    ensures
        conforms(gauge, 7269),
{
    reveal(conforms);
    reveal_strlit("channel_events");
    reveal_strlit("Number of retained channel lifecycle and state events.");
    reveal_with_fuel(is_name_up_to, 15);
    reveal_with_fuel(is_plain_up_to, 55);
    lemma_acceptable(gauge);
}

proof fn lemma_peer_connection_events(gauge: Gauge)
    requires
        gauge.name == "peer_connection_events"@,
        gauge.help == "Number of retained exact peer connect and disconnect notifications."@,
    ensures
        conforms(gauge, 11365),
{
    reveal(conforms);
    reveal_strlit("peer_connection_events");
    reveal_strlit("Number of retained exact peer connect and disconnect notifications.");
    reveal_with_fuel(is_name_up_to, 23);
    reveal_with_fuel(is_plain_up_to, 68);
    lemma_acceptable(gauge);
}

proof fn lemma_forward_pair_buckets(gauge: Gauge)
    requires
        gauge.name == "forward_pair_buckets"@,
        gauge.help == "Number of retained forwarding channel-pair buckets."@,
    ensures
        conforms(gauge, 10347),
{
    reveal(conforms);
    reveal_strlit("forward_pair_buckets");
    reveal_strlit("Number of retained forwarding channel-pair buckets.");
    reveal_with_fuel(is_name_up_to, 21);
    reveal_with_fuel(is_plain_up_to, 52);
    lemma_acceptable(gauge);
}

proof fn lemma_probe_events(gauge: Gauge)
    requires
        gauge.name == "probe_events"@,
        gauge.help == "Number of retained terminal route-liquidity probe observations."@,
    ensures
        conforms(gauge, 6245),
{
    reveal(conforms);
    reveal_strlit("probe_events");
    reveal_strlit("Number of retained terminal route-liquidity probe observations.");
    reveal_with_fuel(is_name_up_to, 13);
    reveal_with_fuel(is_plain_up_to, 64);
    lemma_acceptable(gauge);
}

proof fn lemma_successful_probe_events(gauge: Gauge)
    requires
        gauge.name == "successful_probe_events"@,
        gauge.help == "Number of retained probes which reached their destination and failed safely there."@,
    ensures
        conforms(gauge, 11877),
{
    reveal(conforms);
    reveal_strlit("successful_probe_events");
    reveal_strlit("Number of retained probes which reached their destination and failed safely there.");
    reveal_with_fuel(is_name_up_to, 24);
    reveal_with_fuel(is_plain_up_to, 83);
    lemma_acceptable(gauge);
}

proof fn lemma_failed_probe_events(gauge: Gauge)
    requires
        gauge.name == "failed_probe_events"@,
        gauge.help == "Number of retained probes which failed before reaching their destination."@,
    ensures
        conforms(gauge, 9829),
{
    reveal(conforms);
    reveal_strlit("failed_probe_events");
    reveal_strlit("Number of retained probes which failed before reaching their destination.");
    reveal_with_fuel(is_name_up_to, 20);
    reveal_with_fuel(is_plain_up_to, 74);
    lemma_acceptable(gauge);
}

proof fn lemma_channel_aliases(gauge: Gauge)
    requires
        gauge.name == "channel_aliases"@,
        gauge.help == "Number of durable channel identifier aliases known to cln-history."@,
    ensures
        conforms(gauge, 7777),
{
    reveal(conforms);
    reveal_strlit("channel_aliases");
    reveal_strlit("Number of durable channel identifier aliases known to cln-history.");
    reveal_with_fuel(is_name_up_to, 16);
    reveal_with_fuel(is_plain_up_to, 67);
    lemma_acceptable(gauge);
}

proof fn lemma_collector_runs(gauge: Gauge)
    requires
        gauge.name == "collector_runs"@,
        gauge.help == "Number of retained cln-history collection attempts."@,
    ensures
        conforms(gauge, 7282),
{
    reveal(conforms);
    reveal_strlit("collector_runs");
    reveal_strlit("Number of retained cln-history collection attempts.");
    reveal_with_fuel(is_name_up_to, 15);
    reveal_with_fuel(is_plain_up_to, 52);
    lemma_acceptable(gauge);
}

proof fn lemma_retained_collection_failures(gauge: Gauge)
    requires
        gauge.name == "retained_collection_failures"@,
        gauge.help == "Number of failed collection attempts in the retention window."@,
    ensures
        conforms(gauge, 14453),
{
    reveal(conforms);
    reveal_strlit("retained_collection_failures");
    reveal_strlit("Number of failed collection attempts in the retention window.");
    reveal_with_fuel(is_name_up_to, 29);
    reveal_with_fuel(is_plain_up_to, 62);
    lemma_acceptable(gauge);
}

proof fn lemma_collection_success(gauge: Gauge)
    requires
        gauge.name == "collection_success"@,
        gauge.help == "Whether the most recent cln-history collection attempt succeeded."@,
    ensures
        conforms(gauge, 9315),
{
    reveal(conforms);
    reveal_strlit("collection_success");
    reveal_strlit("Whether the most recent cln-history collection attempt succeeded.");
    reveal_with_fuel(is_name_up_to, 19);
    reveal_with_fuel(is_plain_up_to, 66);
    lemma_acceptable(gauge);
}

proof fn lemma_last_collection_timestamp_seconds(gauge: Gauge)
    requires
        gauge.name == "last_collection_timestamp_seconds"@,
        gauge.help == "Unix timestamp of the most recent cln-history collection attempt."@,
    ensures
        conforms(gauge, 17007),
{
    reveal(conforms);
    reveal_strlit("last_collection_timestamp_seconds");
    reveal_strlit("Unix timestamp of the most recent cln-history collection attempt.");
    reveal_with_fuel(is_name_up_to, 34);
    reveal_with_fuel(is_plain_up_to, 66);
    lemma_acceptable(gauge);
}

proof fn lemma_last_successful_collection_timestamp_seconds(gauge: Gauge)
    requires
        gauge.name == "last_successful_collection_timestamp_seconds"@,
        gauge.help == "Unix timestamp of the most recent successful cln-history collection."@,
    ensures
        conforms(gauge, 22639),
{
    reveal(conforms);
    reveal_strlit("last_successful_collection_timestamp_seconds");
    reveal_strlit("Unix timestamp of the most recent successful cln-history collection.");
    reveal_with_fuel(is_name_up_to, 45);
    reveal_with_fuel(is_plain_up_to, 69);
    lemma_acceptable(gauge);
}

proof fn lemma_last_successful_collection_age_seconds(gauge: Gauge)
    requires
        gauge.name == "last_successful_collection_age_seconds"@,
        gauge.help == "Age of the most recent successful cln-history collection in seconds."@,
    ensures
        conforms(gauge, 19567),
{
    reveal(conforms);
    reveal_strlit("last_successful_collection_age_seconds");
    reveal_strlit("Age of the most recent successful cln-history collection in seconds.");
    reveal_with_fuel(is_name_up_to, 39);
    reveal_with_fuel(is_plain_up_to, 69);
    lemma_acceptable(gauge);
}

proof fn lemma_history_coverage_seconds(gauge: Gauge)
    requires
        gauge.name == "history_coverage_seconds"@,
        gauge.help == "Elapsed time covered by retained successful cln-history collections."@,
    ensures
        conforms(gauge, 12399),
{
    reveal(conforms);
    reveal_strlit("history_coverage_seconds");
    reveal_strlit("Elapsed time covered by retained successful cln-history collections.");
    reveal_with_fuel(is_name_up_to, 25);
    reveal_with_fuel(is_plain_up_to, 69);
    lemma_acceptable(gauge);
}

proof fn lemma_retention_seconds(gauge: Gauge)
    requires
        gauge.name == "retention_seconds"@,
        gauge.help == "Configured cln-history retention window in seconds."@,
    ensures
        conforms(gauge, 8815),
{
    reveal(conforms);
    reveal_strlit("retention_seconds");
    reveal_strlit("Configured cln-history retention window in seconds.");
    reveal_with_fuel(is_name_up_to, 18);
    reveal_with_fuel(is_plain_up_to, 52);
    lemma_acceptable(gauge);
}

/// The tags of the metrics' names.
spec fn tags() -> Seq<int> {
    seq![
        7289,
        4729,
        6777,
        7265,
        11873,
        7283,
        4206,
        7790,
        10350,
        7792,
        7269,
        11365,
        10347,
        6245,
        11877,
        9829,
        7777,
        7282,
        14453,
        9315,
        17007,
        22639,
        19567,
        12399,
        8815,
    ]
}

/// Whether the tag is none of the first ones.
spec fn is_new(n: int, t: int) -> bool
    decreases n,
{
    n <= 0 || (tags()[n - 1] != t && is_new(n - 1, t))
}

/// Whether each of the first tags is new.
spec fn are_new(n: int) -> bool
    decreases n,
{
    n <= 0 || (is_new(n - 1, tags()[n - 1]) && are_new(n - 1))
}

proof fn lemma_tags_are_new()
    ensures
        are_new(25),
{
    reveal_with_fuel(is_new, 26);
    reveal_with_fuel(are_new, 26);
}

proof fn lemma_new(n: int, t: int, i: int)
    requires
        is_new(n, t),
        0 <= i < n,
    ensures
        tags()[i] != t,
    decreases n,
{
    if i < n - 1 {
        lemma_new(n - 1, t, i);
    }
}

proof fn lemma_tags_differ(n: int, i: int, j: int)
    requires
        are_new(n),
        0 <= i < j < n,
    ensures
        tags()[i] != tags()[j],
    decreases n,
{
    if j == n - 1 {
        lemma_new(n - 1, tags()[n - 1], i);
    } else {
        lemma_tags_differ(n - 1, i, j);
    }
}

/// Whether the first of the metrics conform, with the tags from that one on.
spec fn conform(gauges: Seq<Gauge>, from: int, n: int) -> bool
    decreases n,
{
    n <= 0 || (conforms(gauges[n - 1], tags()[from + n - 1]) && conform(gauges, from, n - 1))
}

proof fn lemma_conforms(gauges: Seq<Gauge>, from: int, n: int, i: int)
    requires
        conform(gauges, from, n),
        0 <= i < n,
    ensures
        is_acceptable(gauges[i]),
        tag(gauges[i].name) == tags()[from + i],
    decreases n,
{
    reveal(conforms);
    if i < n - 1 {
        lemma_conforms(gauges, from, n - 1, i);
    }
}

proof fn lemma_row_gauges(db: DbView, storage: Storage)
    ensures
        conform(row_gauges(db, storage), 0, 13),
{
    let gauges = row_gauges(db, storage);
    reveal_with_fuel(conform, 14);
    lemma_database_bytes(gauges[0]);
    lemma_wal_bytes(gauges[1]);
    lemma_storage_bytes(gauges[2]);
    lemma_database_pages(gauges[3]);
    lemma_database_freelist_pages(gauges[4]);
    lemma_schema_version(gauges[5]);
    lemma_channels(gauges[6]);
    lemma_active_channels(gauges[7]);
    lemma_disappeared_channels(gauges[8]);
    lemma_channel_samples(gauges[9]);
    lemma_channel_events(gauges[10]);
    lemma_peer_connection_events(gauges[11]);
    lemma_forward_pair_buckets(gauges[12]);
}

proof fn lemma_run_gauges(db: DbView, now: u64)
    ensures
        conform(run_gauges(db, now), 13, 12),
{
    let gauges = run_gauges(db, now);
    reveal_with_fuel(conform, 13);
    lemma_probe_events(gauges[0]);
    lemma_successful_probe_events(gauges[1]);
    lemma_failed_probe_events(gauges[2]);
    lemma_channel_aliases(gauges[3]);
    lemma_collector_runs(gauges[4]);
    lemma_retained_collection_failures(gauges[5]);
    lemma_collection_success(gauges[6]);
    lemma_last_collection_timestamp_seconds(gauges[7]);
    lemma_last_successful_collection_timestamp_seconds(gauges[8]);
    lemma_last_successful_collection_age_seconds(gauges[9]);
    lemma_history_coverage_seconds(gauges[10]);
    lemma_retention_seconds(gauges[11]);
}

proof fn lemma_gauge_at(db: DbView, storage: Storage, now: u64, i: int)
    requires
        0 <= i < 25,
    ensures
        is_acceptable(gauges_of(db, storage, now)[i]),
        tag(gauges_of(db, storage, now)[i].name) == tags()[i],
{
    if i < 13 {
        lemma_row_gauges(db, storage);
        lemma_conforms(row_gauges(db, storage), 0, 13, i);
    } else {
        lemma_run_gauges(db, now);
        lemma_conforms(run_gauges(db, now), 13, 12, i - 13);
    }
}

proof fn lemma_families_are_accepted(
    db: DbView,
    storage: Storage,
    now: u64,
    families: Seq<Family>,
)
    requires
        families.len() <= 25,
        forall|i: int|
            0 <= i < families.len() ==> is_gauge(
                #[trigger] families[i],
                gauges_of(db, storage, now)[i],
            ),
    ensures
        families_problem(families) is None,
        samples_of(families) == families.len(),
    decreases families.len(),
{
    if families.len() > 0 {
        let before = families.drop_last();
        let n = families.len() - 1;
        let family = families.last();
        assert forall|i: int| 0 <= i < before.len() implies is_gauge(
            #[trigger] before[i],
            gauges_of(db, storage, now)[i],
        ) by {
            assert(before[i] == families[i]);
        }
        lemma_families_are_accepted(db, storage, now, before);
        assert(is_gauge(families[n], gauges_of(db, storage, now)[n]));
        lemma_gauge_at(db, storage, now, n);
        assert forall|i: int| 0 <= i < before.len() implies (#[trigger] before[i]).name@
            != family.name@ by {
            assert(is_gauge(before[i], gauges_of(db, storage, now)[i]));
            lemma_gauge_at(db, storage, now, i);
            lemma_tags_are_new();
            lemma_tags_differ(25, i, n);
        }
        let samples = family.samples@;
        assert(samples.drop_last() =~= Seq::empty());
        assert(samples_problem(family.name@, samples.drop_last()) is None);
        assert(labels_problem(samples.last().labels@) is None);
        assert(samples_problem(family.name@, samples) is None);
    }
}

/// Whatever the history holds, its metrics are found under `history-metrics` and accepted.
pub proof fn law_the_exporter_accepts_the_history(
    db: DbView,
    storage: Storage,
    now: u64,
    wire: WireMetrics,
)
    requires
        wire.version == 1,
        wire.namespace@ == "history"@,
        are_gauges(wire.families@, gauges_of(db, storage, now)),
    ensures
        has_suffix("history-metrics"@, "-metrics"@),
        is_rpc_name("history-metrics"@),
        wire_problem("history-metrics"@, wire) is None,
{
    reveal_strlit("history");
    reveal_strlit("history-metrics");
    reveal_strlit("-metrics");
    reveal_with_fuel(is_name_up_to, 8);
    reveal_with_fuel(is_plain_up_to, 16);
    let method = "history-metrics"@;
    let suffix = "-metrics"@;
    assert(method.skip(method.len() - suffix.len()) =~= suffix);
    assert(method.take(method.len() - suffix.len()) =~= "history"@);
    assert(replaced("history"@, '-', '_') =~= "history"@);
    lemma_name_up_to("history"@, 7);
    lemma_plain_up_to(method, 15);
    assert(is_ascii_chars("history"@));
    assert(is_ascii_chars(method));
    is_ascii_chars_encode_utf8("history"@);
    is_ascii_chars_encode_utf8(method);
    lemma_families_are_accepted(db, storage, now, wire.families@);
}

} // verus!
