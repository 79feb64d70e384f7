//! What the node measures of itself.
//!
//! All metrics are made and registered together.  A counter only grows, a gauge goes
//! up and down, and a histogram counts observations by size.

use vstd::prelude::*;

use crate::node::metric_ids::{metric_id, node_metrics_have_different_ids};
use crate::text;

verus! {

// ---------------------------------------------------------------------------
// Descriptions
// ---------------------------------------------------------------------------

/// The kind of a metric.
#[derive(Clone, Copy, Debug, PartialEq, Eq, Structural)]
pub enum MetricKind {
    Counter,
    Gauge,
    Histogram,
}

/// The description of a metric: its name, its explanation, the labels by which it is
/// split up, and the upper bounds of a histogram's buckets in microseconds.
#[verifier::ext_equal]
pub struct MetricView {
    pub kind: MetricKind,
    pub name: Seq<char>,
    pub help: Seq<char>,
    pub labels: Seq<Seq<char>>,
    /// Whether it keeps a value for each choice of labels.  Such a metric has no value
    /// at first.
    pub by_label: bool,
    pub buckets: Seq<u64>,
}

/// A counter, split up by the labels whose names stand in `labels`.
pub open spec fn counter_of(name: Seq<char>, help: Seq<char>, labels: Seq<char>) -> MetricView {
    MetricView {
        kind: MetricKind::Counter,
        name,
        help,
        labels: text::words(labels),
        by_label: true,
        buckets: Seq::empty(),
    }
}

/// A gauge that is a single value.
pub open spec fn single_gauge_of(name: Seq<char>, help: Seq<char>) -> MetricView {
    MetricView {
        kind: MetricKind::Gauge,
        name,
        help,
        labels: Seq::empty(),
        by_label: false,
        buckets: Seq::empty(),
    }
}

/// A gauge, split up by labels.
pub open spec fn gauge_of(name: Seq<char>, help: Seq<char>, labels: Seq<char>) -> MetricView {
    MetricView {
        kind: MetricKind::Gauge,
        name,
        help,
        labels: text::words(labels),
        by_label: true,
        buckets: Seq::empty(),
    }
}

/// A histogram.
pub open spec fn histogram_of(
    name: Seq<char>,
    help: Seq<char>,
    labels: Seq<char>,
    buckets: Seq<u64>,
) -> MetricView {
    MetricView {
        kind: MetricKind::Histogram,
        name,
        help,
        labels: text::words(labels),
        by_label: true,
        buckets,
    }
}

/// The buckets of requests and searches: from a millisecond to ten seconds.
pub open spec fn request_buckets() -> Seq<u64> {
    seq![
        1000,
        5000,
        10000,
        25000,
        50000,
        100000,
        250000,
        500000,
        1000000,
        2500000,
        5000000,
        10000000,
    ]
}

/// The buckets of commits: from half a millisecond to one second.
pub open spec fn commit_buckets() -> Seq<u64> {
    seq![500, 1000, 5000, 10000, 25000, 50000, 100000, 250000, 500000, 1000000]
}

/// The character may stand in a name.
pub open spec fn name_char(c: char, first: bool) -> bool {
    ||| 'a' <= c <= 'z'
    ||| 'A' <= c <= 'Z'
    ||| c == '_'
    ||| !first && '0' <= c <= '9'
}

/// The name of a label: letters, underscores, and digits behind the first.
pub open spec fn valid_label(s: Seq<char>) -> bool {
    &&& s.len() > 0
    &&& forall|i: int| 0 <= i < s.len() ==> name_char(#[trigger] s[i], i == 0)
}

/// The name of a metric: the same, with colons.
pub open spec fn valid_metric_name(s: Seq<char>) -> bool {
    &&& s.len() > 0
    &&& forall|i: int|
        0 <= i < s.len() ==> name_char(#[trigger] s[i], i == 0) || s[i] == ':'
}

/// The metric can be made: it has a valid name, an explanation, and valid labels that
/// are all different.
pub open spec fn valid_metric(m: MetricView) -> bool {
    &&& m.help.len() > 0
    &&& valid_metric_name(m.name)
    &&& forall|i: int| 0 <= i < m.labels.len() ==> valid_label(#[trigger] m.labels[i])
    &&& m.labels.no_duplicates()
}

// ---------------------------------------------------------------------------
// Registered metrics
// ---------------------------------------------------------------------------

/// `prometheus::Registry`: the metrics that are reported.
#[verifier::external_type_specification]
#[verifier::external_body]
pub struct ExPrometheusRegistry(prometheus::Registry);

/// `prometheus::Error`: why a metric could not be made, registered or reported.
#[verifier::external_type_specification]
#[verifier::external_body]
pub struct ExPrometheusError(prometheus::Error);

/// A `prometheus::IntCounterVec`: counters by the values of their labels, none of which
/// is fixed in advance.
#[verifier::external_body]
pub struct Counters {
    pub inner: prometheus::IntCounterVec,
}

/// A `prometheus::IntGauge` that has no labels at all.
#[verifier::external_body]
pub struct Gauge {
    pub inner: prometheus::IntGauge,
}

/// A `prometheus::GaugeVec`: gauges by the values of their labels, none of which is
/// fixed in advance.
#[verifier::external_body]
pub struct Gauges {
    pub inner: prometheus::GaugeVec,
}

/// A `prometheus::HistogramVec`: histograms by the values of their labels, none of which
/// is fixed in advance.
#[verifier::external_body]
pub struct Histograms {
    pub inner: prometheus::HistogramVec,
}

/// The description of counters.
pub uninterp spec fn counters_metric(c: Counters) -> MetricView;

/// The description of a gauge.
pub uninterp spec fn gauge_metric(g: Gauge) -> MetricView;

/// The description of gauges.
pub uninterp spec fn gauges_metric(g: Gauges) -> MetricView;

/// The description of histograms.
pub uninterp spec fn histograms_metric(h: Histograms) -> MetricView;

/// The metrics of a registry.
pub uninterp spec fn registered_metrics(registry: prometheus::Registry) -> Set<MetricView>;

/// The registry reports its metrics as they are: it was made without a prefix and
/// without labels of its own, holds nothing but counters, gauges and histograms whose
/// labels are not fixed in advance, and none was ever taken out of it.
pub uninterp spec fn plain_registry(registry: prometheus::Registry) -> bool;

/// The registry reports what these very counters, or clones of them, have counted.
pub uninterp spec fn holds_counters(registry: prometheus::Registry, c: Counters) -> bool;

/// The registry reports what this very gauge, or a clone of it, is set to.
pub uninterp spec fn holds_gauge(registry: prometheus::Registry, g: Gauge) -> bool;

/// The registry reports what these very gauges, or clones of them, are set to.
pub uninterp spec fn holds_gauges(registry: prometheus::Registry, g: Gauges) -> bool;

/// The registry reports what these very histograms, or clones of them, have observed.
pub uninterp spec fn holds_histograms(registry: prometheus::Registry, h: Histograms) -> bool;

/// Whatever the registry held before it holds still.
pub open spec fn keeps_all(before: prometheus::Registry, after: prometheus::Registry) -> bool {
    &&& forall|c: Counters| #[trigger] holds_counters(before, c) ==> holds_counters(after, c)
    &&& forall|g: Gauge| #[trigger] holds_gauge(before, g) ==> holds_gauge(after, g)
    &&& forall|g: Gauges| #[trigger] holds_gauges(before, g) ==> holds_gauges(after, g)
    &&& forall|h: Histograms| #[trigger] holds_histograms(before, h) ==> holds_histograms(after, h)
}

/// One of the metrics has the number of the name.
pub open spec fn id_taken(metrics: Set<MetricView>, name: Seq<char>) -> bool {
    exists|m: MetricView| #[trigger] metrics.contains(m) && metric_id(m.name) == metric_id(name)
}

/// The text has no character that a report writes in another way.
pub open spec fn written_as_is(s: Seq<char>) -> bool {
    forall|i: int| 0 <= i < s.len() ==> #[trigger] s[i] != '\\' && s[i] != '\n'
}

/// What a report calls a kind of metric.
pub open spec fn kind_name(kind: MetricKind) -> Seq<char> {
    match kind {
        MetricKind::Counter => "counter"@,
        MetricKind::Gauge => "gauge"@,
        MetricKind::Histogram => "histogram"@,
    }
}

/// How a report begins to tell of a metric: what it is, and its name.
pub open spec fn heading(m: MetricView) -> Seq<char> {
    "# HELP "@ + m.name + " "@ + m.help + "\n# TYPE "@ + m.name + " "@ + kind_name(m.kind)
        + "\n"@ + m.name
}

/// The report tells of the metrics: of every gauge that is a single value, and of the
/// others, where they have a value, as what they are.
pub open spec fn tells_metrics(report: Seq<char>, metrics: Set<MetricView>) -> bool {
    forall|m: MetricView|
        #![trigger metrics.contains(m)]
        metrics.contains(m) && written_as_is(m.help) && (!m.by_label || text::occurs(
            report,
            "\n# TYPE "@ + m.name + " "@,
        )) ==> text::occurs(report, heading(m))
}

/// `prometheus::Registry::new`: no metrics, and nothing of its own.
#[verifier::external_body]
fn registry_new() -> (r: prometheus::Registry)
    ensures
        registered_metrics(r) == Set::<MetricView>::empty(),
        plain_registry(r),
{
    prometheus::Registry::new()
}

/// `prometheus::IntCounterVec::new`: counters with this description; an error where it
/// is not valid.
#[verifier::external_body]
fn counters_new(name: &str, help: &str, labels: &Vec<String>) -> (r: Result<
    Counters,
    prometheus::Error,
>)
    ensures
        match r {
            Ok(c) => {
                &&& counters_metric(c).kind == MetricKind::Counter
                &&& counters_metric(c).name == name@
                &&& counters_metric(c).help == help@
                &&& counters_metric(c).labels == text::texts(labels@)
                &&& counters_metric(c).by_label
                &&& counters_metric(c).buckets.len() == 0
                &&& valid_metric(counters_metric(c))
            },
            Err(_) => !valid_metric(
                (MetricView {
                    kind: MetricKind::Counter,
                    name: name@,
                    help: help@,
                    labels: text::texts(labels@),
                    by_label: true,
                    buckets: Seq::empty(),
                }),
            ),
        },
{
    let labels: Vec<&str> = labels.iter().map(|s| s.as_str()).collect();
    let inner = prometheus::IntCounterVec::new(prometheus::Opts::new(name, help), &labels)?;
    Ok(Counters { inner })
}

/// `prometheus::IntGauge::new`: a gauge with this description and without labels; an
/// error where it is not valid.
#[verifier::external_body]
fn gauge_new(name: &str, help: &str) -> (r: Result<Gauge, prometheus::Error>)
    ensures
        match r {
            Ok(g) => {
                &&& gauge_metric(g).kind == MetricKind::Gauge
                &&& gauge_metric(g).name == name@
                &&& gauge_metric(g).help == help@
                &&& gauge_metric(g).labels.len() == 0
                &&& !gauge_metric(g).by_label
                &&& gauge_metric(g).buckets.len() == 0
                &&& valid_metric(gauge_metric(g))
            },
            Err(_) => !valid_metric(
                (MetricView {
                    kind: MetricKind::Gauge,
                    name: name@,
                    help: help@,
                    labels: Seq::empty(),
                    by_label: false,
                    buckets: Seq::empty(),
                }),
            ),
        },
{
    let inner = prometheus::IntGauge::new(name, help)?;
    Ok(Gauge { inner })
}

/// `prometheus::GaugeVec::new`: gauges with this description; an error where it is not
/// valid.
#[verifier::external_body]
fn gauges_new(name: &str, help: &str, labels: &Vec<String>) -> (r: Result<
    Gauges,
    prometheus::Error,
>)
    ensures
        match r {
            Ok(g) => {
                &&& gauges_metric(g).kind == MetricKind::Gauge
                &&& gauges_metric(g).name == name@
                &&& gauges_metric(g).help == help@
                &&& gauges_metric(g).labels == text::texts(labels@)
                &&& gauges_metric(g).by_label
                &&& gauges_metric(g).buckets.len() == 0
                &&& valid_metric(gauges_metric(g))
            },
            Err(_) => !valid_metric(
                (MetricView {
                    kind: MetricKind::Gauge,
                    name: name@,
                    help: help@,
                    labels: text::texts(labels@),
                    by_label: true,
                    buckets: Seq::empty(),
                }),
            ),
        },
{
    let labels: Vec<&str> = labels.iter().map(|s| s.as_str()).collect();
    let inner = prometheus::GaugeVec::new(prometheus::Opts::new(name, help), &labels)?;
    Ok(Gauges { inner })
}

/// `prometheus::HistogramVec::new`: histograms with this description, whose buckets are
/// given in seconds; an error where it is not valid.
#[verifier::external_body]
fn histograms_new(name: &str, help: &str, labels: &Vec<String>, buckets: &Vec<u64>) -> (r: Result<
    Histograms,
    prometheus::Error,
>)
    ensures
        match r {
            Ok(h) => {
                &&& histograms_metric(h).kind == MetricKind::Histogram
                &&& histograms_metric(h).name == name@
                &&& histograms_metric(h).help == help@
                &&& histograms_metric(h).labels == text::texts(labels@)
                &&& histograms_metric(h).by_label
                &&& histograms_metric(h).buckets == buckets@
                &&& valid_metric(histograms_metric(h))
            },
            Err(_) => !valid_metric(
                (MetricView {
                    kind: MetricKind::Histogram,
                    name: name@,
                    help: help@,
                    labels: text::texts(labels@),
                    by_label: true,
                    buckets: buckets@,
                }),
            ),
        },
{
    let labels: Vec<&str> = labels.iter().map(|s| s.as_str()).collect();
    let micros = buckets.iter().map(|b| std::time::Duration::from_micros(*b));
    let seconds = micros.map(|d| d.as_secs_f64()).collect();
    let opts = prometheus::HistogramOpts::new(name, help).buckets(seconds);
    let inner = prometheus::HistogramVec::new(opts, &labels)?;
    Ok(Histograms { inner })
}

/// `prometheus::Registry::register` of a clone of counters: the registry reports them
/// too, or is left as it is.  Clones share what they count, so what is counted in `c` is
/// reported from then on.  A plain registry refuses them exactly where one of its metrics
/// has the number of their name: the `id` of a `prometheus::core::Desc` without fixed
/// labels, which is the FNV-1a hash of the name and a separator.
#[verifier::external_body]
fn register_counters(registry: &mut prometheus::Registry, c: &Counters) -> (r: Result<
    (),
    prometheus::Error,
>)
    ensures
        registered_metrics(*final(registry)) == match r {
            Ok(_) => registered_metrics(*old(registry)).insert(counters_metric(*c)),
            Err(_) => registered_metrics(*old(registry)),
        },
        plain_registry(*old(registry)) ==> r is Ok == !id_taken(
            registered_metrics(*old(registry)),
            counters_metric(*c).name,
        ),
        plain_registry(*final(registry)) == plain_registry(*old(registry)),
        r is Ok ==> holds_counters(*final(registry), *c),
        keeps_all(*old(registry), *final(registry)),
{
    registry.register(Box::new(c.inner.clone()))
}

/// `prometheus::Registry::register` of a gauge, in the same way.
#[verifier::external_body]
fn register_gauge(registry: &mut prometheus::Registry, g: &Gauge) -> (r: Result<
    (),
    prometheus::Error,
>)
    ensures
        registered_metrics(*final(registry)) == match r {
            Ok(_) => registered_metrics(*old(registry)).insert(gauge_metric(*g)),
            Err(_) => registered_metrics(*old(registry)),
        },
        plain_registry(*old(registry)) ==> r is Ok == !id_taken(
            registered_metrics(*old(registry)),
            gauge_metric(*g).name,
        ),
        plain_registry(*final(registry)) == plain_registry(*old(registry)),
        r is Ok ==> holds_gauge(*final(registry), *g),
        keeps_all(*old(registry), *final(registry)),
{
    registry.register(Box::new(g.inner.clone()))
}

/// `prometheus::Registry::register` of gauges, in the same way.
#[verifier::external_body]
fn register_gauges(registry: &mut prometheus::Registry, g: &Gauges) -> (r: Result<
    (),
    prometheus::Error,
>)
    ensures
        registered_metrics(*final(registry)) == match r {
            Ok(_) => registered_metrics(*old(registry)).insert(gauges_metric(*g)),
            Err(_) => registered_metrics(*old(registry)),
        },
        plain_registry(*old(registry)) ==> r is Ok == !id_taken(
            registered_metrics(*old(registry)),
            gauges_metric(*g).name,
        ),
        plain_registry(*final(registry)) == plain_registry(*old(registry)),
        r is Ok ==> holds_gauges(*final(registry), *g),
        keeps_all(*old(registry), *final(registry)),
{
    registry.register(Box::new(g.inner.clone()))
}

/// `prometheus::Registry::register` of histograms, in the same way.
#[verifier::external_body]
fn register_histograms(registry: &mut prometheus::Registry, h: &Histograms) -> (r: Result<
    (),
    prometheus::Error,
>)
    ensures
        registered_metrics(*final(registry)) == match r {
            Ok(_) => registered_metrics(*old(registry)).insert(histograms_metric(*h)),
            Err(_) => registered_metrics(*old(registry)),
        },
        plain_registry(*old(registry)) ==> r is Ok == !id_taken(
            registered_metrics(*old(registry)),
            histograms_metric(*h).name,
        ),
        plain_registry(*final(registry)) == plain_registry(*old(registry)),
        r is Ok ==> holds_histograms(*final(registry), *h),
        keeps_all(*old(registry), *final(registry)),
{
    registry.register(Box::new(h.inner.clone()))
}

/// `prometheus::TextEncoder::encode_to_string` of `prometheus::Registry::gather`: the
/// report of all metrics.  That of a plain registry does not fail: metrics without a
/// value are left out, and the rest have names.  It tells of every gauge that is a
/// single value, and of whatever else it tells what it is.  The values, and which of
/// the other metrics have any, are those of this moment.
#[verifier::external_body]
fn encode(registry: &prometheus::Registry) -> (r: Result<String, prometheus::Error>)
    requires
        plain_registry(*registry),
    ensures
        r is Ok,
        r is Ok ==> tells_metrics(r->Ok_0@, registered_metrics(*registry)),
{
    prometheus::TextEncoder::new().encode_to_string(&registry.gather())
}

// ---------------------------------------------------------------------------
// The metrics of the node
// ---------------------------------------------------------------------------

fn new_counters(registry: &mut prometheus::Registry, name: &str, help: &str, labels: &str) -> (c:
    Counters)
    requires
        plain_registry(*old(registry)),
        valid_metric(counter_of(name@, help@, labels@)),
        !id_taken(registered_metrics(*old(registry)), name@),
    ensures
        counters_metric(c) == counter_of(name@, help@, labels@),
        registered_metrics(*final(registry)) == registered_metrics(*old(registry)).insert(
            counters_metric(c),
        ),
        plain_registry(*final(registry)),
        holds_counters(*final(registry), c),
        keeps_all(*old(registry), *final(registry)),
{
    let ghost expected = counter_of(name@, help@, labels@);
    let labels = text::split_whitespace(labels);
    match counters_new(name, help, &labels) {
        Ok(c) => {
            assert(counters_metric(c) =~= expected);
            match register_counters(registry, &c) {
                Ok(_) => c,
                Err(_) => vstd::pervasive::unreached(),
            }
        },
        Err(_) => vstd::pervasive::unreached(),
    }
}

fn new_gauge(registry: &mut prometheus::Registry, name: &str, help: &str) -> (g: Gauge)
    requires
        plain_registry(*old(registry)),
        valid_metric(single_gauge_of(name@, help@)),
        !id_taken(registered_metrics(*old(registry)), name@),
    ensures
        gauge_metric(g) == single_gauge_of(name@, help@),
        registered_metrics(*final(registry)) == registered_metrics(*old(registry)).insert(
            gauge_metric(g),
        ),
        plain_registry(*final(registry)),
        holds_gauge(*final(registry), g),
        keeps_all(*old(registry), *final(registry)),
{
    match gauge_new(name, help) {
        Ok(g) => {
            assert(gauge_metric(g) =~= single_gauge_of(name@, help@));
            match register_gauge(registry, &g) {
                Ok(_) => g,
                Err(_) => vstd::pervasive::unreached(),
            }
        },
        Err(_) => vstd::pervasive::unreached(),
    }
}

fn new_gauges(registry: &mut prometheus::Registry, name: &str, help: &str, labels: &str) -> (g:
    Gauges)
    requires
        plain_registry(*old(registry)),
        valid_metric(gauge_of(name@, help@, labels@)),
        !id_taken(registered_metrics(*old(registry)), name@),
    ensures
        gauges_metric(g) == gauge_of(name@, help@, labels@),
        registered_metrics(*final(registry)) == registered_metrics(*old(registry)).insert(
            gauges_metric(g),
        ),
        plain_registry(*final(registry)),
        holds_gauges(*final(registry), g),
        keeps_all(*old(registry), *final(registry)),
{
    let ghost expected = gauge_of(name@, help@, labels@);
    let labels = text::split_whitespace(labels);
    match gauges_new(name, help, &labels) {
        Ok(g) => {
            assert(gauges_metric(g) =~= expected);
            match register_gauges(registry, &g) {
                Ok(_) => g,
                Err(_) => vstd::pervasive::unreached(),
            }
        },
        Err(_) => vstd::pervasive::unreached(),
    }
}

fn new_histograms(
    registry: &mut prometheus::Registry,
    name: &str,
    help: &str,
    labels: &str,
    buckets: &Vec<u64>,
) -> (h: Histograms)
    requires
        plain_registry(*old(registry)),
        valid_metric(histogram_of(name@, help@, labels@, buckets@)),
        !id_taken(registered_metrics(*old(registry)), name@),
    ensures
        histograms_metric(h) == histogram_of(name@, help@, labels@, buckets@),
        registered_metrics(*final(registry)) == registered_metrics(*old(registry)).insert(
            histograms_metric(h),
        ),
        plain_registry(*final(registry)),
        holds_histograms(*final(registry), h),
        keeps_all(*old(registry), *final(registry)),
{
    let ghost expected = histogram_of(name@, help@, labels@, buckets@);
    let labels = text::split_whitespace(labels);
    match histograms_new(name, help, &labels, buckets) {
        Ok(h) => {
            assert(histograms_metric(h) =~= expected);
            match register_histograms(registry, &h) {
                Ok(_) => h,
                Err(_) => vstd::pervasive::unreached(),
            }
        },
        Err(_) => vstd::pervasive::unreached(),
    }
}

fn buckets_of_requests() -> (b: Vec<u64>)
    ensures
        b@ == request_buckets(),
{
    let mut b = buckets_from(1000);
    b.push(1000000);
    b.push(2500000);
    b.push(5000000);
    b.push(10000000);
    assert(b@ =~= request_buckets());
    b
}

fn buckets_of_commits() -> (b: Vec<u64>)
    ensures
        b@ == commit_buckets(),
{
    let mut b = buckets_from(1000);
    b.insert(0, 500);
    b.push(1000000);
    assert(b@ =~= commit_buckets());
    b
}

fn buckets_from(first: u64) -> (b: Vec<u64>)
    ensures
        b@ == seq![first, 5000, 10000, 25000, 50000, 100000, 250000, 500000],
{
    let mut b: Vec<u64> = Vec::new();
    b.push(first);
    b.push(5000);
    b.push(10000);
    b.push(25000);
    b.push(50000);
    b.push(100000);
    b.push(250000);
    b.push(500000);
    assert(b@ =~= seq![first, 5000, 10000, 25000, 50000, 100000, 250000, 500000]);
    b
}

/// The metrics of the node.
pub struct Metrics {
    pub registry: prometheus::Registry,
    pub documents_total: Counters,
    pub index_operations_total: Counters,
    pub search_duration_seconds: Histograms,
    pub storage_bytes_used: Gauge,
    pub raft_commit_index: Gauge,
    pub raft_leader_id: Gauge,
    pub raft_commit_latency_seconds: Histograms,
    pub replication_lag: Gauges,
    pub node_health: Gauges,
    pub http_requests_total: Counters,
    pub http_request_duration_seconds: Histograms,
    pub cache_hits_total: Counters,
    pub cache_misses_total: Counters,
    pub active_connections: Gauge,
    pub collections_total: Gauge,
}

/// The descriptions of all metrics of the node.
pub open spec fn catalogue() -> Seq<MetricView> {
    seq![
        counter_of(
            "msearchdb_documents_total"@,
            "Total documents indexed per collection"@,
            "collection"@,
        ),
        counter_of(
            "msearchdb_index_operations_total"@,
            "Index operations per type and collection"@,
            "operation collection"@,
        ),
        histogram_of(
            "msearchdb_search_duration_seconds"@,
            "Search latency distribution"@,
            "collection"@,
            request_buckets(),
        ),
        single_gauge_of("msearchdb_storage_bytes_used"@, "Approximate storage bytes used"@),
        single_gauge_of("msearchdb_raft_commit_index"@, "Latest committed Raft log index"@),
        single_gauge_of("msearchdb_raft_leader_id"@, "Node ID of the current Raft leader"@),
        histogram_of(
            "msearchdb_raft_commit_latency_seconds"@,
            "Raft commit latency in seconds"@,
            ""@,
            commit_buckets(),
        ),
        gauge_of(
            "msearchdb_replication_lag"@,
            "Replication lag per node in committed log entries"@,
            "node_id"@,
        ),
        gauge_of("msearchdb_node_health"@, "Node health (1=up, 0=down)"@, "node_id"@),
        counter_of(
            "msearchdb_http_requests_total"@,
            "HTTP requests by method, path, and status"@,
            "method path status"@,
        ),
        histogram_of(
            "msearchdb_http_request_duration_seconds"@,
            "HTTP request latency distribution"@,
            "method path"@,
            request_buckets(),
        ),
        counter_of(
            "msearchdb_cache_hits_total"@,
            "Total cache hits by type"@,
            "cache_type"@,
        ),
        counter_of(
            "msearchdb_cache_misses_total"@,
            "Total cache misses by type"@,
            "cache_type"@,
        ),
        single_gauge_of("msearchdb_active_connections"@, "Number of active HTTP connections"@),
        single_gauge_of("msearchdb_collections_total"@, "Total number of collections"@),
    ]
}

/// The first `n` metrics of the catalogue.
pub open spec fn first_metrics(n: int) -> Set<MetricView>
    decreases n,
{
    if n <= 0 {
        Set::empty()
    } else {
        first_metrics(n - 1).insert(catalogue()[n - 1])
    }
}

/// A registry can tell all metrics of the catalogue apart.
pub open spec fn ids_are_distinct() -> bool {
    forall|i: int, j: int|
        #![trigger catalogue()[i], catalogue()[j]]
        0 <= i < j < catalogue().len() ==> metric_id(catalogue()[i].name) != metric_id(
            catalogue()[j].name,
        )
}

proof fn lemma_first_metrics(n: int)
    requires
        0 <= n <= catalogue().len(),
    ensures
        forall|m: MetricView| #[trigger]
            first_metrics(n).contains(m) ==> exists|i: int|
                0 <= i < n && #[trigger] catalogue()[i] == m,
        forall|i: int| 0 <= i < n ==> first_metrics(n).contains(#[trigger] catalogue()[i]),
    decreases n,
{
    if n > 0 {
        lemma_first_metrics(n - 1);
        assert forall|m: MetricView| #[trigger] first_metrics(n).contains(m) implies exists|i: int|
            0 <= i < n && #[trigger] catalogue()[i] == m by {
            if m != catalogue()[n - 1] {
                assert(first_metrics(n - 1).contains(m));
            }
        }
    }
}

/// A registry can tell all metrics of the catalogue apart.
pub proof fn metrics_are_told_apart()
    ensures
        ids_are_distinct(),
{
    node_metrics_have_different_ids();
    let ids = Seq::new(catalogue().len(), |i: int| metric_id(catalogue()[i].name));
    assert(ids.no_duplicates());
    assert forall|i: int, j: int|
        #![trigger catalogue()[i], catalogue()[j]]
        0 <= i < j < catalogue().len() implies metric_id(catalogue()[i].name) != metric_id(
        catalogue()[j].name,
    ) by {
        assert(ids[i] != ids[j]);
    }
}

proof fn lemma_next(k: int)
    requires
        0 <= k < catalogue().len(),
    ensures
        valid_metric(catalogue()[k]),
        !id_taken(first_metrics(k), catalogue()[k].name),
{
    catalogue_is_valid();
    metrics_are_told_apart();
    lemma_first_metrics(k);
    if id_taken(first_metrics(k), catalogue()[k].name) {
        let m = choose|m: MetricView| #[trigger]
            first_metrics(k).contains(m) && metric_id(m.name) == metric_id(catalogue()[k].name);
        let i = choose|i: int| 0 <= i < k && #[trigger] catalogue()[i] == m;
        assert(metric_id(catalogue()[i].name) != metric_id(catalogue()[k].name));
    }
}

impl Metrics {
    /// Each metric is the one that the catalogue describes, and is itself registered:
    /// what is recorded through it is what the registry reports.
    pub open spec fn complete(&self) -> bool {
        &&& plain_registry(self.registry)
        &&& registered_metrics(self.registry) == first_metrics(catalogue().len() as int)
        &&& counters_metric(self.documents_total) == catalogue()[0]
        &&& counters_metric(self.index_operations_total) == catalogue()[1]
        &&& histograms_metric(self.search_duration_seconds) == catalogue()[2]
        &&& gauge_metric(self.storage_bytes_used) == catalogue()[3]
        &&& gauge_metric(self.raft_commit_index) == catalogue()[4]
        &&& gauge_metric(self.raft_leader_id) == catalogue()[5]
        &&& histograms_metric(self.raft_commit_latency_seconds) == catalogue()[6]
        &&& gauges_metric(self.replication_lag) == catalogue()[7]
        &&& gauges_metric(self.node_health) == catalogue()[8]
        &&& counters_metric(self.http_requests_total) == catalogue()[9]
        &&& histograms_metric(self.http_request_duration_seconds) == catalogue()[10]
        &&& counters_metric(self.cache_hits_total) == catalogue()[11]
        &&& counters_metric(self.cache_misses_total) == catalogue()[12]
        &&& gauge_metric(self.active_connections) == catalogue()[13]
        &&& gauge_metric(self.collections_total) == catalogue()[14]
        &&& holds_counters(self.registry, self.documents_total)
        &&& holds_counters(self.registry, self.index_operations_total)
        &&& holds_histograms(self.registry, self.search_duration_seconds)
        &&& holds_gauge(self.registry, self.storage_bytes_used)
        &&& holds_gauge(self.registry, self.raft_commit_index)
        &&& holds_gauge(self.registry, self.raft_leader_id)
        &&& holds_histograms(self.registry, self.raft_commit_latency_seconds)
        &&& holds_gauges(self.registry, self.replication_lag)
        &&& holds_gauges(self.registry, self.node_health)
        &&& holds_counters(self.registry, self.http_requests_total)
        &&& holds_histograms(self.registry, self.http_request_duration_seconds)
        &&& holds_counters(self.registry, self.cache_hits_total)
        &&& holds_counters(self.registry, self.cache_misses_total)
        &&& holds_gauge(self.registry, self.active_connections)
        &&& holds_gauge(self.registry, self.collections_total)
    }

    /// Make and register all metrics.
    pub fn new() -> (m: Metrics)
        ensures
            m.complete(),
    {
        let mut registry = registry_new();
        let requests = buckets_of_requests();
        let commits = buckets_of_commits();
        proof {
            reveal_with_fuel(first_metrics, 16);
        }
        proof {
            lemma_next(0);
        }
        let documents_total = new_counters(
            &mut registry,
            "msearchdb_documents_total",
            "Total documents indexed per collection",
            "collection",
        );
        proof {
            lemma_next(1);
        }
        let index_operations_total = new_counters(
            &mut registry,
            "msearchdb_index_operations_total",
            "Index operations per type and collection",
            "operation collection",
        );
        proof {
            lemma_next(2);
        }
        let search_duration_seconds = new_histograms(
            &mut registry,
            "msearchdb_search_duration_seconds",
            "Search latency distribution",
            "collection",
            &requests,
        );
        proof {
            lemma_next(3);
        }
        let storage_bytes_used = new_gauge(
            &mut registry,
            "msearchdb_storage_bytes_used",
            "Approximate storage bytes used",
        );
        proof {
            lemma_next(4);
        }
        let raft_commit_index = new_gauge(
            &mut registry,
            "msearchdb_raft_commit_index",
            "Latest committed Raft log index",
        );
        proof {
            lemma_next(5);
        }
        let raft_leader_id = new_gauge(
            &mut registry,
            "msearchdb_raft_leader_id",
            "Node ID of the current Raft leader",
        );
        proof {
            lemma_next(6);
        }
        let raft_commit_latency_seconds = new_histograms(
            &mut registry,
            "msearchdb_raft_commit_latency_seconds",
            "Raft commit latency in seconds",
            "",
            &commits,
        );
        proof {
            lemma_next(7);
        }
        let replication_lag = new_gauges(
            &mut registry,
            "msearchdb_replication_lag",
            "Replication lag per node in committed log entries",
            "node_id",
        );
        proof {
            lemma_next(8);
        }
        let node_health = new_gauges(
            &mut registry,
            "msearchdb_node_health",
            "Node health (1=up, 0=down)",
            "node_id",
        );
        proof {
            lemma_next(9);
        }
        let http_requests_total = new_counters(
            &mut registry,
            "msearchdb_http_requests_total",
            "HTTP requests by method, path, and status",
            "method path status",
        );
        proof {
            lemma_next(10);
        }
        let http_request_duration_seconds = new_histograms(
            &mut registry,
            "msearchdb_http_request_duration_seconds",
            "HTTP request latency distribution",
            "method path",
            &requests,
        );
        proof {
            lemma_next(11);
        }
        let cache_hits_total = new_counters(
            &mut registry,
            "msearchdb_cache_hits_total",
            "Total cache hits by type",
            "cache_type",
        );
        proof {
            lemma_next(12);
        }
        let cache_misses_total = new_counters(
            &mut registry,
            "msearchdb_cache_misses_total",
            "Total cache misses by type",
            "cache_type",
        );
        proof {
            lemma_next(13);
        }
        let active_connections = new_gauge(
            &mut registry,
            "msearchdb_active_connections",
            "Number of active HTTP connections",
        );
        proof {
            lemma_next(14);
        }
        let collections_total = new_gauge(
            &mut registry,
            "msearchdb_collections_total",
            "Total number of collections",
        );
        Metrics {
            registry,
            documents_total,
            index_operations_total,
            search_duration_seconds,
            storage_bytes_used,
            raft_commit_index,
            raft_leader_id,
            raft_commit_latency_seconds,
            replication_lag,
            node_health,
            http_requests_total,
            http_request_duration_seconds,
            cache_hits_total,
            cache_misses_total,
            active_connections,
            collections_total,
        }
    }

    /// The report of all metrics in the text format of Prometheus.  The values are those
    /// of this moment, and so is which of the metrics that are split up by labels have
    /// any.
    pub fn gather(&self) -> (report: String)
        requires
            plain_registry(self.registry),
        ensures
            tells_metrics(report@, registered_metrics(self.registry)),
    {
        match encode(&self.registry) {
            Ok(report) => report,
            Err(_) => String::new(),
        }
    }
}

impl Default for Metrics {
    fn default() -> (m: Metrics)
        ensures
            m.complete(),
    {
        Metrics::new()
    }
}

// ---------------------------------------------------------------------------
// Laws
// ---------------------------------------------------------------------------

/// The labels whose names stand in `labels` are valid and all different.
pub open spec fn valid_labels(labels: Seq<char>) -> bool {
    &&& forall|i: int|
        0 <= i < text::words(labels).len() ==> valid_label(#[trigger] text::words(labels)[i])
    &&& text::words(labels).no_duplicates()
}

proof fn lemma_one_label(s: Seq<char>)
    requires
        valid_label(s),
        s.len() <= 12,
    ensures
        valid_labels(s),
{
    reveal_with_fuel(text::run_end, 14);
    reveal_with_fuel(text::words_from, 2);
    assert forall|i: int| 0 <= i < s.len() implies !text::is_space(#[trigger] s[i]) by {
        assert(name_char(s[i], i == 0));
    }
    assert(text::run_end(s, true, 0) == s.len());
    assert(s.subrange(0, s.len() as int) =~= s);
    assert(text::words(s) =~= seq![s]);
}

proof fn lemma_label_lists()
    ensures
        valid_labels(Seq::empty()),
        valid_labels(""@),
        valid_labels("collection"@),
        valid_labels("node_id"@),
        valid_labels("cache_type"@),
        valid_labels("operation collection"@),
        valid_labels("method path"@),
        valid_labels("method path status"@),
{
    reveal_strlit("");
    assert(""@ =~= Seq::<char>::empty());
    assert(text::words(Seq::empty()) =~= Seq::<Seq<char>>::empty());
    reveal_strlit("collection");
    lemma_one_label("collection"@);
    reveal_strlit("node_id");
    lemma_one_label("node_id"@);
    reveal_strlit("cache_type");
    lemma_one_label("cache_type"@);
    reveal_with_fuel(text::run_end, 12);
    reveal_with_fuel(text::words_from, 4);
    reveal_strlit("operation collection");
    let s = "operation collection"@;
    assert(text::run_end(s, true, 0) == 9);
    assert(text::run_end(s, true, 10) == 20);
    assert(text::words(s) =~= seq![s.subrange(0, 9), s.subrange(10, 20)]);
    assert(s.subrange(0, 9).len() != s.subrange(10, 20).len());
    reveal_strlit("method path");
    let s = "method path"@;
    assert(text::run_end(s, true, 0) == 6);
    assert(text::run_end(s, true, 7) == 11);
    assert(text::words(s) =~= seq![s.subrange(0, 6), s.subrange(7, 11)]);
    assert(s.subrange(0, 6).len() != s.subrange(7, 11).len());
    reveal_strlit("method path status");
    let s = "method path status"@;
    assert(text::run_end(s, true, 0) == 6);
    assert(text::run_end(s, true, 7) == 11);
    assert(text::run_end(s, true, 12) == 18);
    assert(text::words(s) =~= seq![s.subrange(0, 6), s.subrange(7, 11), s.subrange(12, 18)]);
    assert(s.subrange(0, 6).len() != s.subrange(7, 11).len());
    assert(s.subrange(12, 18).len() != s.subrange(7, 11).len());
    assert(s.subrange(0, 6)[0] != s.subrange(12, 18)[0]);
}

proof fn lemma_names()
    ensures
        forall|i: int|
            0 <= i < catalogue().len() ==> valid_metric_name((#[trigger] catalogue()[i]).name),
        forall|i: int, j: int|
            #![trigger catalogue()[i], catalogue()[j]]
            0 <= i < j < catalogue().len() ==> catalogue()[i].name != catalogue()[j].name,
{
    reveal_strlit("msearchdb_documents_total");
    reveal_strlit("msearchdb_index_operations_total");
    reveal_strlit("msearchdb_search_duration_seconds");
    reveal_strlit("msearchdb_storage_bytes_used");
    reveal_strlit("msearchdb_raft_commit_index");
    reveal_strlit("msearchdb_raft_leader_id");
    reveal_strlit("msearchdb_raft_commit_latency_seconds");
    reveal_strlit("msearchdb_replication_lag");
    reveal_strlit("msearchdb_node_health");
    reveal_strlit("msearchdb_http_requests_total");
    reveal_strlit("msearchdb_http_request_duration_seconds");
    reveal_strlit("msearchdb_cache_hits_total");
    reveal_strlit("msearchdb_cache_misses_total");
    reveal_strlit("msearchdb_active_connections");
    reveal_strlit("msearchdb_collections_total");
    assert(valid_metric_name("msearchdb_documents_total"@));
    assert(valid_metric_name("msearchdb_index_operations_total"@));
    assert(valid_metric_name("msearchdb_search_duration_seconds"@));
    assert(valid_metric_name("msearchdb_storage_bytes_used"@));
    assert(valid_metric_name("msearchdb_raft_commit_index"@));
    assert(valid_metric_name("msearchdb_raft_leader_id"@));
    assert(valid_metric_name("msearchdb_raft_commit_latency_seconds"@));
    assert(valid_metric_name("msearchdb_replication_lag"@));
    assert(valid_metric_name("msearchdb_node_health"@));
    assert(valid_metric_name("msearchdb_http_requests_total"@));
    assert(valid_metric_name("msearchdb_http_request_duration_seconds"@));
    assert(valid_metric_name("msearchdb_cache_hits_total"@));
    assert(valid_metric_name("msearchdb_cache_misses_total"@));
    assert(valid_metric_name("msearchdb_active_connections"@));
    assert(valid_metric_name("msearchdb_collections_total"@));
    let cat = catalogue();
    assert forall|i: int, j: int|
        #![trigger cat[i], cat[j]]
        0 <= i < j < cat.len() implies cat[i].name != cat[j].name by {
        assert(cat[i].name.len() != cat[j].name.len() || cat[i].name[10] != cat[j].name[10]);
    }
}

/// A report of the node's metrics tells of each of its gauges that is a single value,
/// and of every other metric that it tells of as what the catalogue says.
pub proof fn reports_follow_the_catalogue(m: Metrics, report: Seq<char>, i: int)
    requires
        m.complete(),
        tells_metrics(report, registered_metrics(m.registry)),
        0 <= i < catalogue().len(),
        !catalogue()[i].by_label || text::occurs(
            report,
            "\n# TYPE "@ + catalogue()[i].name + " "@,
        ),
    ensures
        text::occurs(report, heading(catalogue()[i])),
{
    lemma_helps();
    lemma_first_metrics(catalogue().len() as int);
    assert(registered_metrics(m.registry).contains(catalogue()[i]));
    assert(written_as_is(catalogue()[i].help));
}

proof fn lemma_helps()
    ensures
        forall|i: int|
            0 <= i < catalogue().len() ==> written_as_is((#[trigger] catalogue()[i]).help)
                && catalogue()[i].help.len() > 0,
{
    reveal_strlit("Total documents indexed per collection");
    reveal_strlit("Index operations per type and collection");
    reveal_strlit("Search latency distribution");
    reveal_strlit("Approximate storage bytes used");
    reveal_strlit("Latest committed Raft log index");
    reveal_strlit("Node ID of the current Raft leader");
    reveal_strlit("Raft commit latency in seconds");
    reveal_strlit("Replication lag per node in committed log entries");
    reveal_strlit("Node health (1=up, 0=down)");
    reveal_strlit("HTTP requests by method, path, and status");
    reveal_strlit("HTTP request latency distribution");
    reveal_strlit("Total cache hits by type");
    reveal_strlit("Total cache misses by type");
    reveal_strlit("Number of active HTTP connections");
    reveal_strlit("Total number of collections");
    assert(written_as_is("Total documents indexed per collection"@));
    assert(written_as_is("Index operations per type and collection"@));
    assert(written_as_is("Search latency distribution"@));
    assert(written_as_is("Approximate storage bytes used"@));
    assert(written_as_is("Latest committed Raft log index"@));
    assert(written_as_is("Node ID of the current Raft leader"@));
    assert(written_as_is("Raft commit latency in seconds"@));
    assert(written_as_is("Replication lag per node in committed log entries"@));
    assert(written_as_is("Node health (1=up, 0=down)"@));
    assert(written_as_is("HTTP requests by method, path, and status"@));
    assert(written_as_is("HTTP request latency distribution"@));
    assert(written_as_is("Total cache hits by type"@));
    assert(written_as_is("Total cache misses by type"@));
    assert(written_as_is("Number of active HTTP connections"@));
    assert(written_as_is("Total number of collections"@));
}

/// Every metric of the node is valid, and no two have the same name.
pub proof fn catalogue_is_valid()
    ensures
        forall|i: int| 0 <= i < catalogue().len() ==> valid_metric(#[trigger] catalogue()[i]),
        forall|i: int, j: int|
            #![trigger catalogue()[i], catalogue()[j]]
            0 <= i < j < catalogue().len() ==> catalogue()[i].name != catalogue()[j].name,
{
    lemma_names();
    lemma_label_lists();
    lemma_helps();
    let cat = catalogue();
    assert forall|i: int| 0 <= i < cat.len() implies valid_metric(#[trigger] cat[i]) by {
        assert(valid_metric_name(catalogue()[i].name));
    }
}

/// A metric has the kind, the name, the explanation, the labels and the buckets that it was
/// described with; only a gauge that is a single value has a value without labels.
pub proof fn metrics_are_as_described(
    name: Seq<char>,
    help: Seq<char>,
    labels: Seq<char>,
    buckets: Seq<u64>,
)
    ensures
        ({
            let c = counter_of(name, help, labels);
            let s = single_gauge_of(name, help);
            let g = gauge_of(name, help, labels);
            let h = histogram_of(name, help, labels, buckets);
            &&& c.kind == MetricKind::Counter && c.by_label && c.buckets.len() == 0
            &&& s.kind == MetricKind::Gauge && !s.by_label && s.labels.len() == 0
                && s.buckets.len() == 0
            &&& g.kind == MetricKind::Gauge && g.by_label && g.buckets.len() == 0
            &&& h.kind == MetricKind::Histogram && h.by_label && h.buckets == buckets
            &&& c.name == name && s.name == name && g.name == name && h.name == name
            &&& c.help == help && s.help == help && g.help == help && h.help == help
            &&& c.labels == text::words(labels) && g.labels == text::words(labels) && h.labels
                == text::words(labels)
        }),
{
}

/// The node has fifteen metrics, each under its name and of its kind.
pub proof fn the_catalogue_names_every_metric()
    ensures
        catalogue().len() == 15,
        catalogue()[0].name == "msearchdb_documents_total"@ && catalogue()[0].kind
            == MetricKind::Counter,
        catalogue()[1].name == "msearchdb_index_operations_total"@ && catalogue()[1].kind
            == MetricKind::Counter,
        catalogue()[2].name == "msearchdb_search_duration_seconds"@ && catalogue()[2].kind
            == MetricKind::Histogram,
        catalogue()[3].name == "msearchdb_storage_bytes_used"@ && catalogue()[3].kind
            == MetricKind::Gauge && !catalogue()[3].by_label,
        catalogue()[4].name == "msearchdb_raft_commit_index"@ && catalogue()[4].kind
            == MetricKind::Gauge && !catalogue()[4].by_label,
        catalogue()[5].name == "msearchdb_raft_leader_id"@ && catalogue()[5].kind
            == MetricKind::Gauge && !catalogue()[5].by_label,
        catalogue()[6].name == "msearchdb_raft_commit_latency_seconds"@ && catalogue()[6].kind
            == MetricKind::Histogram,
        catalogue()[7].name == "msearchdb_replication_lag"@ && catalogue()[7].kind
            == MetricKind::Gauge && catalogue()[7].by_label,
        catalogue()[8].name == "msearchdb_node_health"@ && catalogue()[8].kind
            == MetricKind::Gauge && catalogue()[8].by_label,
        catalogue()[9].name == "msearchdb_http_requests_total"@ && catalogue()[9].kind
            == MetricKind::Counter,
        catalogue()[10].name == "msearchdb_http_request_duration_seconds"@ && catalogue()[10].kind
            == MetricKind::Histogram,
        catalogue()[11].name == "msearchdb_cache_hits_total"@ && catalogue()[11].kind
            == MetricKind::Counter,
        catalogue()[12].name == "msearchdb_cache_misses_total"@ && catalogue()[12].kind
            == MetricKind::Counter,
        catalogue()[13].name == "msearchdb_active_connections"@ && catalogue()[13].kind
            == MetricKind::Gauge && !catalogue()[13].by_label,
        catalogue()[14].name == "msearchdb_collections_total"@ && catalogue()[14].kind
            == MetricKind::Gauge && !catalogue()[14].by_label,
{
}

proof fn lemma_label_words(a: Seq<char>, b: Seq<char>, c: Seq<char>)
    requires
        valid_label(a),
        valid_label(b),
        valid_label(c),
    ensures
        text::words(a) == seq![a],
        text::words(a + seq![' '] + b) == seq![a, b],
        text::words(a + seq![' '] + b + seq![' '] + c) == seq![a, b, c],
{
    let three = seq![a, b, c];
    assert forall|i: int, j: int|
        0 <= i < three.len() && 0 <= j < three[i].len() implies !text::is_space(
        #[trigger] three[i][j],
    ) by {
        if i == 0 {
            assert(name_char(a[j], j == 0));
        } else if i == 1 {
            assert(name_char(b[j], j == 0));
        } else {
            assert(name_char(c[j], j == 0));
        }
    }
    let two = seq![a, b];
    assert forall|i: int, j: int|
        0 <= i < two.len() && 0 <= j < two[i].len() implies !text::is_space(#[trigger] two[i][j]) by {
        assert(!text::is_space(three[i][j]));
    }
    let one = seq![a];
    assert forall|i: int, j: int|
        0 <= i < one.len() && 0 <= j < one[i].len() implies !text::is_space(#[trigger] one[i][j]) by {
        assert(!text::is_space(three[0][j]));
    }
    text::words_undo_joining(one);
    text::words_undo_joining(two);
    text::words_undo_joining(three);
    text::joining_keeps_the_order(one, seq![b], seq![' ']);
    text::joining_keeps_the_order(seq![b], seq![c], seq![' ']);
    text::joining_keeps_the_order(seq![c], seq![c], seq![' ']);
    text::joining_keeps_the_order(two, seq![c], seq![' ']);
    assert(one + seq![b] =~= two);
    assert(two + seq![c] =~= three);
    assert(text::joined(two, seq![' ']) =~= a + seq![' '] + b);
    assert(text::joined(three, seq![' ']) =~= a + seq![' '] + b + seq![' '] + c);
}

/// The metrics of the node are split up by their labels.
pub proof fn metrics_are_split_up_by_their_labels()
    ensures
        catalogue()[0].labels == seq!["collection"@],
        catalogue()[1].labels == seq!["operation"@, "collection"@],
        catalogue()[2].labels == seq!["collection"@],
        catalogue()[7].labels == seq!["node_id"@],
        catalogue()[8].labels == seq!["node_id"@],
        catalogue()[9].labels == seq!["method"@, "path"@, "status"@],
        catalogue()[10].labels == seq!["method"@, "path"@],
        catalogue()[11].labels == seq!["cache_type"@],
        catalogue()[12].labels == seq!["cache_type"@],
{
    reveal_strlit("collection");
    reveal_strlit("operation");
    reveal_strlit("operation collection");
    reveal_strlit("node_id");
    reveal_strlit("method");
    reveal_strlit("path");
    reveal_strlit("status");
    reveal_strlit("method path");
    reveal_strlit("method path status");
    reveal_strlit("cache_type");
    assert("operation collection"@ =~= "operation"@ + seq![' '] + "collection"@);
    assert("method path"@ =~= "method"@ + seq![' '] + "path"@);
    assert("method path status"@ =~= "method"@ + seq![' '] + "path"@ + seq![' '] + "status"@);
    lemma_label_words("operation"@, "collection"@, "node_id"@);
    lemma_label_words("collection"@, "operation"@, "node_id"@);
    lemma_label_words("node_id"@, "operation"@, "node_id"@);
    lemma_label_words("method"@, "path"@, "status"@);
    lemma_label_words("cache_type"@, "path"@, "status"@);
}

/// The buckets of requests go from a millisecond to ten seconds, and those of commits from
/// half a millisecond to one second, each bound greater than the one before.
pub proof fn buckets_go_up(i: int, j: int)
    ensures
        request_buckets().len() == 12,
        request_buckets().first() == 1_000,
        request_buckets().last() == 10_000_000,
        0 <= i < j < request_buckets().len() ==> request_buckets()[i] < request_buckets()[j],
        commit_buckets().len() == 10,
        commit_buckets().first() == 500,
        commit_buckets().last() == 1_000_000,
        0 <= i < j < commit_buckets().len() ==> commit_buckets()[i] < commit_buckets()[j],
        catalogue()[2].buckets == request_buckets(),
        catalogue()[10].buckets == request_buckets(),
        catalogue()[6].buckets == commit_buckets(),
{
}

/// A metric can be made where it has an explanation, where its name and its labels hold
/// letters, underscores and digits, but none of them first, and where no label occurs twice.
pub proof fn valid_metrics_have_valid_names(m: MetricView, i: int, k: int)
    requires
        valid_metric(m),
        0 <= i < m.labels.len(),
    ensures
        m.help.len() > 0,
        m.name.len() > 0,
        m.labels[i].len() > 0,
        0 <= k < m.name.len() ==> !text::is_space(m.name[k]) && m.name[k] != '{' && m.name[k]
            != '-',
        0 <= k < m.labels[i].len() ==> !text::is_space(m.labels[i][k]) && m.labels[i][k] != ':'
            && m.labels[i][k] != '-',
        !('0' <= m.name[0] <= '9'),
        !('0' <= m.labels[i][0] <= '9'),
        0 <= k < m.labels.len() && k != i ==> m.labels[k] != m.labels[i],
{
    assert(valid_label(m.labels[i]));
    assert(name_char(m.name[0], true) || m.name[0] == ':');
    assert(name_char(m.labels[i][0], true));
    if 0 <= k < m.name.len() {
        assert(name_char(m.name[k], k == 0) || m.name[k] == ':');
    }
    if 0 <= k < m.labels[i].len() {
        assert(name_char(m.labels[i][k], k == 0));
    }
}

/// A report begins to tell of a metric with its explanation, and goes on with its kind, each
/// under its name.
pub proof fn headings_name_the_metric(m: MetricView)
    ensures
        m.kind == MetricKind::Counter ==> heading(m) == "# HELP "@ + m.name + " "@ + m.help
            + "\n# TYPE "@ + m.name + " "@ + "counter"@ + "\n"@ + m.name,
        m.kind == MetricKind::Gauge ==> heading(m) == "# HELP "@ + m.name + " "@ + m.help
            + "\n# TYPE "@ + m.name + " "@ + "gauge"@ + "\n"@ + m.name,
        m.kind == MetricKind::Histogram ==> heading(m) == "# HELP "@ + m.name + " "@ + m.help
            + "\n# TYPE "@ + m.name + " "@ + "histogram"@ + "\n"@ + m.name,
{
}

/// Through every metric of the node that is complete is recorded what its registry reports,
/// and the registry has every metric of the catalogue and no other.
pub proof fn complete_metrics_are_registered(m: Metrics, view: MetricView)
    requires
        m.complete(),
    ensures
        registered_metrics(m.registry).contains(view) <==> catalogue().contains(view),
        counters_metric(m.documents_total).name == "msearchdb_documents_total"@,
        holds_counters(m.registry, m.documents_total),
        counters_metric(m.index_operations_total).name == "msearchdb_index_operations_total"@,
        holds_counters(m.registry, m.index_operations_total),
        histograms_metric(m.search_duration_seconds).name
            == "msearchdb_search_duration_seconds"@,
        holds_histograms(m.registry, m.search_duration_seconds),
        gauge_metric(m.storage_bytes_used).name == "msearchdb_storage_bytes_used"@,
        holds_gauge(m.registry, m.storage_bytes_used),
        gauge_metric(m.raft_commit_index).name == "msearchdb_raft_commit_index"@,
        holds_gauge(m.registry, m.raft_commit_index),
        gauge_metric(m.raft_leader_id).name == "msearchdb_raft_leader_id"@,
        holds_gauge(m.registry, m.raft_leader_id),
        histograms_metric(m.raft_commit_latency_seconds).name
            == "msearchdb_raft_commit_latency_seconds"@,
        holds_histograms(m.registry, m.raft_commit_latency_seconds),
        gauges_metric(m.replication_lag).name == "msearchdb_replication_lag"@,
        holds_gauges(m.registry, m.replication_lag),
        gauges_metric(m.node_health).name == "msearchdb_node_health"@,
        holds_gauges(m.registry, m.node_health),
        counters_metric(m.http_requests_total).name == "msearchdb_http_requests_total"@,
        holds_counters(m.registry, m.http_requests_total),
        histograms_metric(m.http_request_duration_seconds).name
            == "msearchdb_http_request_duration_seconds"@,
        holds_histograms(m.registry, m.http_request_duration_seconds),
        counters_metric(m.cache_hits_total).name == "msearchdb_cache_hits_total"@,
        holds_counters(m.registry, m.cache_hits_total),
        counters_metric(m.cache_misses_total).name == "msearchdb_cache_misses_total"@,
        holds_counters(m.registry, m.cache_misses_total),
        gauge_metric(m.active_connections).name == "msearchdb_active_connections"@,
        holds_gauge(m.registry, m.active_connections),
        gauge_metric(m.collections_total).name == "msearchdb_collections_total"@,
        holds_gauge(m.registry, m.collections_total),
{
    lemma_first_metrics(catalogue().len() as int);
    let all = first_metrics(catalogue().len() as int);
    if all.contains(view) {
        let k = choose|k: int| 0 <= k < catalogue().len() && #[trigger] catalogue()[k] == view;
        assert(catalogue().contains(view));
    }
    if catalogue().contains(view) {
        let k = choose|k: int| 0 <= k < catalogue().len() && #[trigger] catalogue()[k] == view;
        assert(all.contains(catalogue()[k]));
    }
}

/// A report owes nothing to metrics that it does not tell of: to those that are split up by
/// labels and have no value, and to those whose explanation is written in another way.
pub proof fn reports_may_leave_out_metrics_without_a_value(
    report: Seq<char>,
    metrics: Set<MetricView>,
)
    requires
        forall|m: MetricView|
            #![trigger metrics.contains(m)]
            metrics.contains(m) ==> m.help.contains('\\') || m.help.contains('\n') || (m.by_label
                && !text::occurs(report, "\n# TYPE "@ + m.name + " "@)),
    ensures
        tells_metrics(report, metrics),
{
    assert forall|m: MetricView|
        #![trigger metrics.contains(m)]
        metrics.contains(m) && written_as_is(m.help) && (!m.by_label || text::occurs(
            report,
            "\n# TYPE "@ + m.name + " "@,
        )) implies text::occurs(report, heading(m)) by {
        if m.help.contains('\\') {
            let k = choose|k: int| 0 <= k < m.help.len() && m.help[k] == '\\';
            assert(m.help[k] != '\\');
        }
        if m.help.contains('\n') {
            let k = choose|k: int| 0 <= k < m.help.len() && m.help[k] == '\n';
            assert(m.help[k] != '\n');
        }
    }
}

/// The bounds of the buckets, in milliseconds for requests and in half milliseconds for
/// commits.
pub proof fn buckets_have_their_bounds(i: int)
    ensures
        0 <= i < 12 ==> request_buckets()[i] == 1_000 * seq![
            1int,
            5,
            10,
            25,
            50,
            100,
            250,
            500,
            1_000,
            2_500,
            5_000,
            10_000,
        ][i],
        0 <= i < 10 ==> commit_buckets()[i] == 500 * seq![
            1int,
            2,
            10,
            20,
            50,
            100,
            200,
            500,
            1_000,
            2_000,
        ][i],
{
}

/// Letters and underscores may stand anywhere in a name, digits behind the first character,
/// and colons in the name of a metric alone.
pub proof fn names_hold_letters_digits_and_underscores(c: char, a: char)
    requires
        a == '_',
    ensures
        ({
            let n = c as int;
            let letter = 65 <= n <= 90 || 97 <= n <= 122 || n == 95;
            let digit = 48 <= n <= 57;
            &&& valid_label(seq![c]) <==> letter
            &&& valid_label(seq![a, c]) <==> letter || digit
            &&& valid_metric_name(seq![c]) <==> letter || c == ':'
            &&& valid_metric_name(seq![a, c]) <==> letter || digit || c == ':'
            &&& !valid_label(Seq::empty())
            &&& !valid_metric_name(Seq::empty())
        }),
{
    let one = seq![c];
    let two = seq![a, c];
    assert(one[0] == c);
    assert(two[0] == a && two[1] == c);
    assert(name_char(two[0], true));
    if valid_label(one) {
        assert(name_char(one[0], 0int == 0));
    }
    if valid_label(two) {
        assert(name_char(two[1], 1int == 0));
    }
    if valid_metric_name(one) {
        assert(name_char(one[0], 0int == 0) || one[0] == ':');
    }
    if valid_metric_name(two) {
        assert(name_char(two[1], 1int == 0) || two[1] == ':');
    }
}

} // verus!
