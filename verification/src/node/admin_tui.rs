//! The dashboard of a cluster: what it shows, and when it asks for news.

use vstd::prelude::*;

use crate::clock::{elapsed_since, Span};
use crate::table::Table;
use crate::text;

verus! {

// ---------------------------------------------------------------------------
// What the dashboard knows
// ---------------------------------------------------------------------------

/// A collection as the cluster reports it.
#[derive(Clone, Copy, Debug, PartialEq, Eq, Structural)]
pub struct CollectionInfo {
    pub docs: u64,
    pub size_bytes: u64,
}

/// The health of the cluster as it reports it.
pub struct ClusterHealthData {
    /// `"green"`, `"yellow"` or `"red"`.
    pub status: String,
    pub cluster_name: String,
    pub number_of_nodes: u64,
    pub active_nodes: u64,
    pub leader_node: Option<u64>,
    pub raft_commit_index: i64,
    /// How many entries each follower is behind.
    pub replication_lag: Table<String, i64>,
    pub collections: Table<String, CollectionInfo>,
}

impl ClusterHealthData {
    /// Nothing is known but the status.
    pub open spec fn only_status(&self, status: Seq<char>) -> bool {
        &&& self.status@ == status
        &&& self.cluster_name@.len() == 0
        &&& self.number_of_nodes == 0
        &&& self.active_nodes == 0
        &&& self.leader_node is None
        &&& self.raft_commit_index == 0
        &&& self.replication_lag.entries().len() == 0
        &&& self.collections.entries().len() == 0
    }

    /// Nothing is known but the status.
    pub fn with_status(status: &str) -> (h: ClusterHealthData)
        ensures
            h.only_status(status@),
    {
        ClusterHealthData {
            status: status.to_owned(),
            cluster_name: String::new(),
            number_of_nodes: 0,
            active_nodes: 0,
            leader_node: None,
            raft_commit_index: 0,
            replication_lag: Table::new(),
            collections: Table::new(),
        }
    }
}

impl Default for ClusterHealthData {
    fn default() -> (h: ClusterHealthData)
        ensures
            h.only_status(""@),
    {
        ClusterHealthData::with_status("")
    }
}

/// What came of asking the cluster for its health.
pub enum HealthReply {
    /// An answer that can be read.
    Health(ClusterHealthData),
    /// An answer that cannot be read.
    Unreadable,
    /// No answer.
    Unreachable,
}

/// The health to show: where there is none, only a status that says so.
pub fn fetched_health(reply: HealthReply) -> (h: ClusterHealthData)
    ensures
        match reply {
            HealthReply::Health(health) => h == health,
            HealthReply::Unreadable => h.only_status("unknown"@),
            HealthReply::Unreachable => h.only_status("unreachable"@),
        },
{
    match reply {
        HealthReply::Health(health) => health,
        HealthReply::Unreadable => ClusterHealthData::with_status("unknown"),
        HealthReply::Unreachable => ClusterHealthData::with_status("unreachable"),
    }
}

// ---------------------------------------------------------------------------
// Asking
// ---------------------------------------------------------------------------

/// The URL without its scheme.
pub open spec fn without_scheme(url: Seq<char>) -> Seq<char> {
    if text::begins_with(url, "http://"@) {
        url.skip("http://"@.len() as int)
    } else {
        url
    }
}

/// The host and the path of a URL; the path is `/` where it names none.
pub open spec fn url_parts(url: Seq<char>) -> (Seq<char>, Seq<char>) {
    let rest = without_scheme(url);
    let at = text::first_index(rest, '/', 0);
    if at < rest.len() {
        (rest.take(at), rest.skip(at))
    } else {
        (rest, "/"@)
    }
}

/// The host and the path of a URL.
pub fn split_url(url: &str) -> (r: (String, String))
    ensures
        (r.0@, r.1@) == url_parts(url@),
{
    let rest = match text::strip_prefix(url, "http://") {
        Some(rest) => rest,
        None => url.to_owned(),
    };
    assert(rest@ =~= without_scheme(url@));
    let chars = text::chars_of(rest.as_str());
    let at = text::find_from(&chars, '/', 0);
    if at < chars.len() {
        let host = text::string_of(&chars, 0, at);
        let path = text::string_of(&chars, at, chars.len());
        assert(host@ =~= rest@.take(at as int));
        assert(path@ =~= rest@.skip(at as int));
        (host, path)
    } else {
        (rest, "/".to_owned())
    }
}

/// The request for the path of a host.
pub fn get_request(host: &str, path: &str) -> (r: String)
    ensures
        r@ == "GET "@ + path@ + " HTTP/1.1\r\nHost: "@ + host@
            + "\r\nConnection: close\r\n\r\n"@,
{
    let mut r = text::concat3("GET ", path, " HTTP/1.1\r\nHost: ");
    r.append(host);
    r.append("\r\nConnection: close\r\n\r\n");
    r
}

/// The first position of `needle` in `s` from `from` on, or the length of `s`.
pub open spec fn first_occurrence(s: Seq<char>, needle: Seq<char>, from: int) -> int
    decreases s.len() - from,
{
    if from >= s.len() {
        s.len() as int
    } else if text::occurs_at(s, needle, from) {
        from
    } else {
        first_occurrence(s, needle, from + 1)
    }
}

/// The body of a response: what stands behind the first empty line, or all of it.
pub open spec fn body_of(response: Seq<char>) -> Seq<char> {
    let at = first_occurrence(response, "\r\n\r\n"@, 0);
    if at < response.len() {
        response.skip(at + 4)
    } else {
        response
    }
}

/// The body of a response.
pub fn response_body(response: &str) -> (body: String)
    ensures
        body@ == body_of(response@),
{
    proof {
        reveal_strlit("\r\n\r\n");
    }
    let a = text::chars_of(response);
    let needle = text::chars_of("\r\n\r\n");
    let mut i: usize = 0;
    while i < a.len() && !text::matches_at(&a, &needle, i)
        invariant
            a@ == response@,
            needle@ == "\r\n\r\n"@,
            i <= a@.len(),
            first_occurrence(response@, "\r\n\r\n"@, 0) == first_occurrence(
                response@,
                "\r\n\r\n"@,
                i as int,
            ),
        decreases a@.len() - i,
    {
        i = i + 1;
    }
    if i < a.len() {
        let body = text::string_of(&a, i + 4, a.len());
        assert(body@ =~= response@.skip(i + 4));
        body
    } else {
        response.to_owned()
    }
}

/// The URL of the health of a cluster.
pub fn health_url(endpoint: &str) -> (u: String)
    ensures
        u@ == endpoint@ + "/_cluster/health"@,
{
    text::concat2(endpoint, "/_cluster/health")
}

/// The URL of the metrics of a node.
pub fn metrics_url(endpoint: &str) -> (u: String)
    ensures
        u@ == endpoint@ + "/metrics"@,
{
    text::concat2(endpoint, "/metrics")
}

// ---------------------------------------------------------------------------
// Metrics
// ---------------------------------------------------------------------------

/// The value that a line of a report gives for a metric: the last word of a line that
/// begins with the name of the metric and white space or a brace.
pub open spec fn line_value(line: Seq<char>, name: Seq<char>) -> Option<Seq<char>> {
    let s = text::trimmed(line);
    if s.len() > 0 && s[0] != '#' && text::begins_with(s, name) && s.len() > name.len() && (
    text::is_space(s[name.len() as int]) || s[name.len() as int] == '{') && text::words(s).len()
        > 1 {
        Some(text::words(s).last())
    } else {
        None
    }
}

/// The first value that a report gives for a metric.
pub open spec fn first_value(lines: Seq<Seq<char>>, name: Seq<char>) -> Option<Seq<char>>
    decreases lines.len(),
{
    if lines.len() == 0 {
        None
    } else {
        match line_value(lines[0], name) {
            Some(v) => Some(v),
            None => first_value(lines.skip(1), name),
        }
    }
}

fn value_in_line(line: &str, name: &str) -> (r: Option<String>)
    ensures
        match (r, line_value(line@, name@)) {
            (Some(v), Some(view)) => v@ == view,
            (None, None) => true,
            _ => false,
        },
{
    let s = text::trim(line);
    let a = text::chars_of(s.as_str());
    let n: usize = text::chars_of(name).len();
    if a.len() == 0 || a[0] == '#' || !text::starts_with(s.as_str(), name) || a.len() <= n {
        return None;
    }
    if !text::is_whitespace(a[n]) && a[n] != '{' {
        return None;
    }
    let words = text::split_whitespace(s.as_str());
    let k: usize = words.len();
    if k <= 1 {
        return None;
    }
    assert(text::texts(words@).last() == words@[k - 1]@);
    Some(words[k - 1].clone())
}

/// The text of the first value that a report gives for a metric.
pub fn parse_metric_value(metrics: &str, metric_name: &str) -> (r: Option<String>)
    ensures
        match (r, first_value(text::text_lines(metrics@), metric_name@)) {
            (Some(v), Some(view)) => v@ == view,
            (None, None) => true,
            _ => false,
        },
{
    let lines = text::nonblank_lines(metrics);
    let ghost all = text::text_lines(metrics@);
    assert(all.skip(0) =~= all);
    let mut i: usize = 0;
    while i < lines.len()
        invariant
            i <= lines@.len(),
            all == text::texts(lines@),
            all == text::text_lines(metrics@),
            first_value(all, metric_name@) == first_value(all.skip(i as int), metric_name@),
        decreases lines@.len() - i,
    {
        proof {
            assert(all.skip(i as int)[0] == lines@[i as int]@);
            assert(all.skip(i as int).skip(1) =~= all.skip(i + 1));
        }
        if let Some(v) = value_in_line(lines[i].as_str(), metric_name) {
            return Some(v);
        }
        i = i + 1;
    }
    None
}

// ---------------------------------------------------------------------------
// Numbers as text
// ---------------------------------------------------------------------------

/// A number in two digits.
pub open spec fn two_digits(n: nat) -> Seq<char> {
    if n < 10 {
        "0"@ + text::decimal(n)
    } else {
        text::decimal(n)
    }
}

/// The time of day, in hours, minutes and seconds.
pub open spec fn time_of_day(secs: nat) -> Seq<char> {
    two_digits((secs % 86400) / 3600) + ":"@ + two_digits((secs % 3600) / 60) + ":"@ + two_digits(
        secs % 60,
    )
}

fn in_two_digits(n: u64) -> (r: String)
    ensures
        r@ == two_digits(n as nat),
{
    let digits = text::decimal_of(n);
    if n < 10 {
        text::concat2("0", digits.as_str())
    } else {
        digits
    }
}

/// The time of day of a moment, given in seconds since midnight of some day.
pub fn clock_text(secs: u64) -> (r: String)
    ensures
        r@ == time_of_day(secs as nat),
{
    let hours = in_two_digits((secs % 86400) / 3600);
    let minutes = in_two_digits((secs % 3600) / 60);
    let seconds = in_two_digits(secs % 60);
    let mut r = text::concat3(hours.as_str(), ":", minutes.as_str());
    r.append(":");
    r.append(seconds.as_str());
    r
}

/// The integer that is nearest to `n / d`; of two that are equally near, the even one.
pub open spec fn nearest(n: int, d: int) -> int {
    let q = n / d;
    let r = n % d;
    if 2 * r > d || (2 * r == d && q % 2 == 1) {
        q + 1
    } else {
        q
    }
}

/// The distance of the double-precision numbers around `n`.
pub open spec fn double_step(n: int, step: int) -> int
    decreases 2 * n - step,
{
    if step < 1 || n / step < 0x20000000000000 || step > n {
        step
    } else {
        double_step(n, 2 * step)
    }
}

/// The double-precision number that is nearest to `n`.
pub open spec fn as_double(n: int) -> int {
    let step = double_step(n, 1);
    nearest(n, step) * step
}

/// So many units, to one decimal place.
pub open spec fn tenths_text(bytes: int, unit: int) -> Seq<char> {
    let tenths = nearest(10 * as_double(bytes), unit);
    text::decimal((tenths / 10) as nat) + "."@ + text::decimal((tenths % 10) as nat)
}

/// A number of bytes in the largest unit of which there is at least one.
pub open spec fn bytes_text(bytes: int) -> Seq<char> {
    if bytes >= 1073741824 {
        tenths_text(bytes, 1073741824) + " GB"@
    } else if bytes >= 1048576 {
        tenths_text(bytes, 1048576) + " MB"@
    } else if bytes >= 1024 {
        tenths_text(bytes, 1024) + " KB"@
    } else {
        text::decimal(bytes as nat) + " B"@
    }
}

fn nearest_to(n: u128, d: u128) -> (r: u128)
    requires
        0 < d,
        n < 0x8000000000000000_0000000000000000,
        d < 0x8000000000000000_0000000000000000,
    ensures
        r == nearest(n as int, d as int),
        r <= n / d + 1,
{
    let q: u128 = n / d;
    let r: u128 = n % d;
    if r > d - r || (r == d - r && q % 2 == 1) {
        assert(q <= n) by (nonlinear_arith)
            requires
                q == n / d,
                d > 0,
        ;
        q + 1
    } else {
        q
    }
}

fn to_double(n: u64) -> (r: u128)
    ensures
        r == as_double(n as int),
        r <= 0x20000000000000000,
{
    let wide: u128 = n as u128;
    let mut step: u128 = 1;
    while wide / step >= 0x20000000000000 && step <= wide
        invariant
            wide == n,
            1 <= step <= 0x1000,
            step <= 0x800 || wide / step < 0x20000000000000,
            double_step(n as int, 1) == double_step(n as int, step as int),
        decreases 0x2000 - step,
    {
        proof {
            assert(step <= 0x800);
            lemma_halves(wide as int, step as int);
        }
        step = step * 2;
    }
    let q = nearest_to(wide, step);
    proof {
        lemma_multiple(wide as int, step as int, q as int);
    }
    q * step
}

proof fn lemma_halves(n: int, step: int)
    requires
        0 <= n < 0x10000000000000000,
        1 <= step <= 0x800,
    ensures
        2 * step <= 0x800 || n / (2 * step) < 0x20000000000000,
{
    if 2 * step > 0x800 {
        assert(n / (2 * step) < 0x20000000000000) by (nonlinear_arith)
            requires
                0 <= n < 0x10000000000000000,
                2 * step > 0x800,
        ;
    }
}

proof fn lemma_multiple(n: int, step: int, q: int)
    requires
        0 <= n < 0x10000000000000000,
        1 <= step <= 0x1000,
        q <= n / step + 1,
        0 <= q,
    ensures
        0 <= q * step <= 0x20000000000000000,
{
    assert(q * step <= n + step) by (nonlinear_arith)
        requires
            0 <= n,
            1 <= step,
            q <= n / step + 1,
            0 <= q,
    ;
    assert(0 <= q * step) by (nonlinear_arith)
        requires
            0 <= q,
            1 <= step,
    ;
}

fn in_tenths(bytes: u64, unit: u64) -> (r: String)
    requires
        1024 <= unit <= 1073741824,
    ensures
        r@ == tenths_text(bytes as int, unit as int),
{
    let double = to_double(bytes);
    let tenths: u128 = nearest_to(10 * double, unit as u128);
    proof {
        assert((10 * double) / (unit as int) <= 10 * double / 1024) by (nonlinear_arith)
            requires
                0 <= double,
                1024 <= unit,
        ;
    }
    let whole = text::decimal_of((tenths / 10) as u64);
    let part = text::decimal_of((tenths % 10) as u64);
    text::concat3(whole.as_str(), ".", part.as_str())
}

/// A number of bytes in the largest unit of which there is at least one.
pub fn format_bytes(bytes: u64) -> (r: String)
    ensures
        r@ == bytes_text(bytes as int),
{
    if bytes >= 1073741824 {
        let number = in_tenths(bytes, 1073741824);
        text::concat2(number.as_str(), " GB")
    } else if bytes >= 1048576 {
        let number = in_tenths(bytes, 1048576);
        text::concat2(number.as_str(), " MB")
    } else if bytes >= 1024 {
        let number = in_tenths(bytes, 1024);
        text::concat2(number.as_str(), " KB")
    } else {
        let number = text::decimal_of(bytes);
        text::concat2(number.as_str(), " B")
    }
}

/// A number with its sign, where it is negative.
pub open spec fn signed_text(n: int) -> Seq<char> {
    if n < 0 {
        "-"@ + text::decimal((-n) as nat)
    } else {
        text::decimal(n as nat)
    }
}

fn in_digits(n: i64) -> (r: String)
    ensures
        r@ == signed_text(n as int),
{
    if n < 0 {
        let magnitude: i128 = -(n as i128);
        let digits = text::decimal_of(magnitude as u64);
        text::concat2("-", digits.as_str())
    } else {
        text::decimal_of(n as u64)
    }
}

// ---------------------------------------------------------------------------
// Panels
// ---------------------------------------------------------------------------

/// A colour of the dashboard.
#[derive(Clone, Copy, Debug, PartialEq, Eq, Structural)]
pub enum Color {
    Green,
    Yellow,
    Red,
    DarkGray,
}

/// The colour of a status.
pub open spec fn color_of_status(status: Seq<char>) -> Color {
    if status == "green"@ {
        Color::Green
    } else if status == "yellow"@ {
        Color::Yellow
    } else if status == "red"@ {
        Color::Red
    } else {
        Color::DarkGray
    }
}

/// The colour of a status.
pub fn status_color(status: &str) -> (c: Color)
    ensures
        c == color_of_status(status@),
{
    if text::same(status, "green") {
        Color::Green
    } else if text::same(status, "yellow") {
        Color::Yellow
    } else if text::same(status, "red") {
        Color::Red
    } else {
        Color::DarkGray
    }
}

/// The colour of a follower that is so many entries behind.
pub fn lag_color(lag: i64) -> (c: Color)
    ensures
        c == if lag == 0 {
            Color::Green
        } else if lag < 10 {
            Color::Yellow
        } else {
            Color::Red
        },
{
    if lag == 0 {
        Color::Green
    } else if lag < 10 {
        Color::Yellow
    } else {
        Color::Red
    }
}

/// The colour of an entry of the log.
pub open spec fn color_of_entry(entry: Seq<char>) -> Color {
    if text::occurs(entry, "unreachable"@) || text::occurs(entry, "unknown"@) {
        Color::Red
    } else if text::occurs(entry, "yellow"@) {
        Color::Yellow
    } else {
        Color::DarkGray
    }
}

/// The colour of an entry of the log.
pub fn log_color(entry: &str) -> (c: Color)
    ensures
        c == color_of_entry(entry@),
{
    if text::contains(entry, "unreachable") || text::contains(entry, "unknown") {
        Color::Red
    } else if text::contains(entry, "yellow") {
        Color::Yellow
    } else {
        Color::DarkGray
    }
}

/// The title of the dashboard, from the cluster's name and its status in capitals.
pub fn header_text(cluster_name: &str, status: &str) -> (r: String)
    ensures
        r@ == "MSearchDB Admin — "@ + (if cluster_name@.len() == 0 {
            "msearchdb"@
        } else {
            cluster_name@
        }) + "  ["@ + status@ + "]"@,
{
    let name = if cluster_name.unicode_len() == 0 {
        "msearchdb"
    } else {
        cluster_name
    };
    let mut r = text::concat3("MSearchDB Admin — ", name, "  [");
    r.append(status);
    r.append("]");
    r
}

/// A line of a panel: a label, and a value in a colour.
#[derive(Debug)]
pub struct PanelLine {
    pub label: String,
    pub value: String,
    pub color: Option<Color>,
}

impl PanelLine {
    /// What the line says.
    pub open spec fn says(&self, label: Seq<char>, value: Seq<char>, color: Option<Color>) -> bool {
        &&& self.label@ == label
        &&& self.value@ == value
        &&& self.color == color
    }
}

/// The line of the leader.
pub fn leader_line(leader: Option<u64>) -> (l: PanelLine)
    ensures
        match leader {
            Some(id) => l.says("Leader: Node "@, text::decimal(id as nat), Some(Color::Green)),
            None => l.says(""@, "Leader: NONE"@, Some(Color::Red)),
        },
{
    match leader {
        Some(id) => PanelLine {
            label: "Leader: Node ".to_owned(),
            value: text::decimal_of(id),
            color: Some(Color::Green),
        },
        None => PanelLine {
            label: "".to_owned(),
            value: "Leader: NONE".to_owned(),
            color: Some(Color::Red),
        },
    }
}

/// The line of the nodes: how many there are, and how many there should be.
pub fn nodes_line(active: u64, total: u64) -> (l: PanelLine)
    ensures
        l.says(
            "Nodes: "@,
            text::decimal(active as nat) + "/"@ + text::decimal(total as nat),
            None,
        ),
{
    let a = text::decimal_of(active);
    let t = text::decimal_of(total);
    PanelLine {
        label: "Nodes: ".to_owned(),
        value: text::concat3(a.as_str(), "/", t.as_str()),
        color: None,
    }
}

/// The line of a follower.
pub fn lag_line(node: &str, lag: i64) -> (l: PanelLine)
    ensures
        l.says(
            "  Node "@ + node@ + ": "@,
            signed_text(lag as int) + " entries"@,
            Some(
                if lag == 0 {
                    Color::Green
                } else if lag < 10 {
                    Color::Yellow
                } else {
                    Color::Red
                },
            ),
        ),
{
    let digits = in_digits(lag);
    PanelLine {
        label: text::concat3("  Node ", node, ": "),
        value: text::concat2(digits.as_str(), " entries"),
        color: Some(lag_color(lag)),
    }
}

fn entries_of<T: Copy>(table: &Table<String, T>) -> (out: Vec<(String, T)>)
    ensures
        out@ == table.entries(),
{
    let mut out: Vec<(String, T)> = Vec::new();
    let n: usize = table.len();
    let mut i: usize = 0;
    while i < n
        invariant
            i <= n,
            n == table.entries().len(),
            out@ == table.entries().take(i as int),
        decreases n - i,
    {
        let (name, value) = table.entry(i);
        out.push((name.clone(), *value));
        i = i + 1;
        assert(table.entries().take(i as int) =~= table.entries().take(i - 1).push(
            table.entries()[i - 1],
        ));
    }
    assert(table.entries().take(n as int) =~= table.entries());
    out
}

/// The followers in the order of their names.
pub fn sorted_lag(health: &ClusterHealthData) -> (out: Vec<(String, i64)>)
    ensures
        text::in_order(out@),
        out@.to_multiset() == health.replication_lag.entries().to_multiset(),
{
    text::sort_by_name(entries_of(&health.replication_lag))
}

/// The collections in the order of their names.
pub fn sorted_collections(health: &ClusterHealthData) -> (out: Vec<(String, CollectionInfo)>)
    ensures
        text::in_order(out@),
        out@.to_multiset() == health.collections.entries().to_multiset(),
{
    text::sort_by_name(entries_of(&health.collections))
}

/// The row of a collection: its name, its documents, and its size.
pub fn collection_row(name: &str, info: CollectionInfo) -> (row: Vec<String>)
    ensures
        text::texts(row@) == seq![
            name@,
            text::decimal(info.docs as nat),
            bytes_text(info.size_bytes as int),
        ],
{
    let mut row: Vec<String> = Vec::new();
    row.push(name.to_owned());
    row.push(text::decimal_of(info.docs));
    row.push(format_bytes(info.size_bytes));
    assert(text::texts(row@) =~= seq![
        name@,
        text::decimal(info.docs as nat),
        bytes_text(info.size_bytes as int),
    ]);
    row
}

// ---------------------------------------------------------------------------
// The dashboard
// ---------------------------------------------------------------------------

/// How many entries the log keeps.
pub const LOG_CAPACITY: usize = 100;

/// How many entries of the log are shown.
pub const LOG_SHOWN: usize = 20;

/// How long the dashboard waits for a key, in milliseconds.
pub const TICK_MS: u64 = 250;

/// How long news are news, in seconds.
pub const REFRESH_SECS: u64 = 2;

/// The state of the dashboard.
pub struct App {
    pub endpoint: String,
    pub health: ClusterHealthData,
    pub metrics_text: String,
    pub ops_log: Vec<String>,
    /// When the dashboard last got news; none where it never did.
    pub last_refresh: Option<std::time::Instant>,
    pub should_quit: bool,
}

/// The last `n` items of `s`, or all of them.
pub open spec fn last_items<T>(s: Seq<T>, n: int) -> Seq<T> {
    if s.len() > n {
        s.skip(s.len() - n)
    } else {
        s
    }
}

/// The entry of the log for news that came at the given time of day.
pub open spec fn log_entry(timestamp: Seq<char>, status: Seq<char>) -> Seq<char> {
    "["@ + timestamp + "] Refreshed — status="@ + status
}

/// A key.
#[derive(Clone, Copy, Debug, PartialEq, Eq, Structural)]
pub enum Key {
    Char(char),
    Esc,
    Other,
}

impl App {
    /// A dashboard that has no news yet.
    pub fn new(endpoint: &str) -> (a: App)
        ensures
            a.endpoint@ == endpoint@,
            a.health.only_status(""@),
            a.metrics_text@.len() == 0,
            a.ops_log@.len() == 0,
            a.last_refresh is None,
            !a.should_quit,
    {
        App {
            endpoint: endpoint.to_owned(),
            health: ClusterHealthData::default(),
            metrics_text: String::new(),
            ops_log: Vec::new(),
            last_refresh: None,
            should_quit: false,
        }
    }

    /// Take the news: the log tells of them and keeps its latest entries.
    pub fn refresh(&mut self, health: ClusterHealthData, metrics: String, secs: u64)
        ensures
            final(self).endpoint == old(self).endpoint,
            final(self).should_quit == old(self).should_quit,
            final(self).health == health,
            final(self).metrics_text == metrics,
            final(self).last_refresh is Some,
            text::texts(final(self).ops_log@) == last_items(
                text::texts(old(self).ops_log@).push(
                    log_entry(time_of_day(secs as nat), health.status@),
                ),
                LOG_CAPACITY as int,
            ),
    {
        let timestamp = clock_text(secs);
        let mut entry = text::concat3("[", timestamp.as_str(), "] Refreshed — status=");
        entry.append(health.status.as_str());
        let ghost before = self.ops_log@;
        let ghost said = entry@;
        self.ops_log.push(entry);
        proof {
            text::lemma_texts_push(before, entry);
        }
        let n: usize = self.ops_log.len();
        let ghost whole = self.ops_log@;
        if n > LOG_CAPACITY {
            let kept = self.ops_log.split_off(n - LOG_CAPACITY);
            self.ops_log = kept;
            assert(self.ops_log@ =~= whole.skip(n - LOG_CAPACITY));
        }
        assert(text::texts(self.ops_log@) =~= last_items(
            text::texts(before).push(said),
            LOG_CAPACITY as int,
        ));
        self.health = health;
        self.metrics_text = metrics;
        self.last_refresh = Some(std::time::Instant::now());
    }

    /// Take a key that was pressed: `q` and escape end the dashboard.
    pub fn on_key(&mut self, key: Key)
        ensures
            final(self).should_quit == (old(self).should_quit || key == Key::Esc || key
                == Key::Char('q')),
            final(self).endpoint == old(self).endpoint,
            final(self).health == old(self).health,
            final(self).metrics_text == old(self).metrics_text,
            final(self).ops_log == old(self).ops_log,
            final(self).last_refresh == old(self).last_refresh,
    {
        match key {
            Key::Esc => {
                self.should_quit = true;
            },
            Key::Char(c) => {
                if c == 'q' {
                    self.should_quit = true;
                }
            },
            Key::Other => {},
        }
    }

    /// Whether news that are this old are old.
    pub fn is_due(age: Option<Span>) -> (r: bool)
        ensures
            r == match age {
                Some(s) => s.nanos >= REFRESH_SECS * 1_000_000_000,
                None => true,
            },
    {
        match age {
            Some(s) => s.nanos >= Span::from_secs(REFRESH_SECS).nanos,
            None => true,
        }
    }

    /// Whether it is time to ask for news.  A dashboard that never had any asks at once;
    /// for the others the clock decides, and nothing is stated.
    pub fn needs_refresh(&self) -> (r: bool)
        ensures
            self.last_refresh is None ==> r,
    {
        let age = match &self.last_refresh {
            Some(at) => Some(elapsed_since(at)),
            None => None,
        };
        Self::is_due(age)
    }

    /// The entries of the log that are shown.
    pub fn shown_log(&self) -> (out: Vec<String>)
        ensures
            text::texts(out@) == last_items(text::texts(self.ops_log@), LOG_SHOWN as int),
    {
        let n: usize = self.ops_log.len();
        let start: usize = if n > LOG_SHOWN {
            n - LOG_SHOWN
        } else {
            0
        };
        let mut out: Vec<String> = Vec::new();
        let ghost all = text::texts(self.ops_log@);
        let mut i: usize = start;
        while i < n
            invariant
                start <= i <= n,
                n == self.ops_log@.len(),
                all == text::texts(self.ops_log@),
                text::texts(out@) == all.subrange(start as int, i as int),
            decreases n - i,
        {
            let entry = self.ops_log[i].clone();
            proof {
                text::lemma_texts_push(out@, entry);
                assert(all.subrange(start as int, i + 1) =~= all.subrange(
                    start as int,
                    i as int,
                ).push(all[i as int]));
            }
            out.push(entry);
            i = i + 1;
        }
        assert(all.subrange(start as int, n as int) =~= last_items(all, LOG_SHOWN as int));
        out
    }
}

// ---------------------------------------------------------------------------
// Laws
// ---------------------------------------------------------------------------

/// The log never holds more entries than it keeps, and the latest is always among them.
pub proof fn log_keeps_the_latest(log: Seq<Seq<char>>, entry: Seq<char>)
    ensures
        last_items(log.push(entry), LOG_CAPACITY as int).len() <= LOG_CAPACITY,
        last_items(log.push(entry), LOG_CAPACITY as int).last() == entry,
{
}

/// The time of day has eight characters, with colons between its numbers.
pub proof fn time_of_day_has_its_form(secs: nat)
    ensures
        time_of_day(secs).len() == 8,
        time_of_day(secs)[2] == ':',
        time_of_day(secs)[5] == ':',
{
    reveal_strlit("0");
    reveal_strlit(":");
    let hours = (secs % 86400) / 3600;
    let minutes = (secs % 3600) / 60;
    let seconds = secs % 60;
    assert(hours < 24);
    assert(minutes < 60);
    reveal_with_fuel(text::decimal, 3);
    assert(two_digits(hours).len() == 2);
    assert(two_digits(minutes).len() == 2);
    assert(two_digits(seconds).len() == 2);
}

/// Half of the way between two tenths is rounded to the even one: a whole number of
/// units keeps a zero behind the point.
pub proof fn whole_units_end_in_zero(units: int, unit: int)
    requires
        0 <= units,
        0 < unit,
    ensures
        nearest(10 * (units * unit), unit) == 10 * units,
{
    assert((10 * (units * unit)) / unit == 10 * units && (10 * (units * unit)) % unit == 0)
        by (nonlinear_arith)
        requires
            0 <= units,
            0 < unit,
    {
        assert(10 * (units * unit) == (10 * units) * unit);
        vstd::arithmetic::div_mod::lemma_div_multiples_vanish(10 * units, unit);
        vstd::arithmetic::div_mod::lemma_mod_multiples_basic(10 * units, unit);
    }
}

/// Where nothing is known but the status, nothing else is shown.
pub proof fn unknown_health_is_empty(h: ClusterHealthData, status: Seq<char>)
    requires
        h.only_status(status),
    ensures
        h.status@ == status,
        h.cluster_name@.len() == 0,
        h.number_of_nodes == 0,
        h.active_nodes == 0,
        h.leader_node is None,
        h.raft_commit_index == 0,
        h.replication_lag.entries().len() == 0,
        h.collections.entries().len() == 0,
{
}

/// A URL is its host and its path, with or without the scheme; the path is `/` where the URL
/// names none.
pub proof fn urls_are_parted(host: Seq<char>, path: Seq<char>)
    requires
        !host.contains('/'),
        path.len() > 0,
        path[0] == '/',
    ensures
        url_parts("http://"@ + host + path) == (host, path),
        url_parts("http://"@ + host) == (host, "/"@),
        !text::begins_with(host + path, "http://"@) ==> url_parts(host + path) == (host, path),
{
    reveal_strlit("http://");
    let scheme = "http://"@;
    let rest = host + path;
    let url = scheme + host + path;
    assert(url.subrange(0, scheme.len() as int) =~= scheme);
    assert(url.skip(scheme.len() as int) =~= rest);
    text::lemma_first_index(rest, '/', 0);
    let at = text::first_index(rest, '/', 0);
    assert(rest[host.len() as int] == '/');
    if at < host.len() {
        assert(host[at] == '/');
        assert(host.contains('/'));
    }
    assert(at == host.len());
    assert(rest.take(at) =~= host);
    assert(rest.skip(at) =~= path);
    let bare = scheme + host;
    assert(bare.subrange(0, scheme.len() as int) =~= scheme);
    assert(bare.skip(scheme.len() as int) =~= host);
    text::lemma_first_index(host, '/', 0);
    let end = text::first_index(host, '/', 0);
    if end < host.len() {
        assert(host.contains(host[end]));
    }
}

/// The body of a response is what stands behind the first empty line; a response without
/// one is all body.
pub proof fn bodies_stand_behind_the_empty_line(head: Seq<char>, body: Seq<char>)
    requires
        forall|j: int|
            0 <= j < head.len() ==> !text::occurs_at(
                head + "\r\n\r\n"@ + body,
                "\r\n\r\n"@,
                j,
            ),
    ensures
        body_of(head + "\r\n\r\n"@ + body) == body,
        !text::occurs(head, "\r\n\r\n"@) ==> body_of(head) == head,
{
    reveal_strlit("\r\n\r\n");
    let gap = "\r\n\r\n"@;
    let all = head + gap + body;
    assert(all.subrange(head.len() as int, (head.len() + 4) as int) =~= gap);
    assert(text::occurs_at(all, gap, head.len() as int));
    lemma_first_occurrence(all, gap, 0, head.len() as int);
    assert(all.skip((head.len() + 4) as int) =~= body);
    if !text::occurs(head, gap) {
        assert forall|j: int| 0 <= j < head.len() implies !text::occurs_at(head, gap, j) by {}
        lemma_first_occurrence(head, gap, 0, head.len() as int);
    }
}

proof fn lemma_first_occurrence(s: Seq<char>, needle: Seq<char>, from: int, at: int)
    requires
        0 <= from <= at <= s.len(),
        forall|j: int| from <= j < at ==> !text::occurs_at(s, needle, j),
        at < s.len() ==> text::occurs_at(s, needle, at),
    ensures
        first_occurrence(s, needle, from) == at,
    decreases at - from,
{
    if from < at {
        lemma_first_occurrence(s, needle, from + 1, at);
    }
}

/// A report gives for a metric what its first line on that metric gives.
pub proof fn the_first_line_gives_the_value(
    lines: Seq<Seq<char>>,
    name: Seq<char>,
    k: int,
)
    requires
        0 <= k <= lines.len(),
        forall|i: int| 0 <= i < k ==> line_value(#[trigger] lines[i], name) is None,
        k < lines.len() ==> line_value(lines[k], name) is Some,
    ensures
        first_value(lines, name) == if k < lines.len() {
            line_value(lines[k], name)
        } else {
            None
        },
    decreases lines.len(),
{
    if k > 0 {
        assert(line_value(lines[0], name) is None);
        let rest = lines.skip(1);
        assert forall|i: int| 0 <= i < k - 1 implies line_value(
            #[trigger] rest[i],
            name,
        ) is None by {
            assert(rest[i] == lines[i + 1]);
        }
        the_first_line_gives_the_value(rest, name, k - 1);
    }
}

/// A line with the name of a metric and its value gives that value; a comment gives none,
/// and so does a line on a metric whose name is only the beginning of this one.
pub proof fn lines_give_their_values(name: Seq<char>, value: Seq<char>, c: char)
    requires
        name.len() > 0,
        value.len() > 0,
        name[0] != '#',
        forall|i: int| 0 <= i < name.len() ==> !text::is_space(#[trigger] name[i]),
        forall|i: int| 0 <= i < value.len() ==> !text::is_space(#[trigger] value[i]),
        !text::is_space(c),
    ensures
        line_value(name + seq![' '] + value, name) == Some(value),
        line_value(seq!['#'] + name + seq![' '] + value, name) is None,
        c != '{' ==> line_value(name + seq![c] + seq![' '] + value, name) is None,
{
    let line = name + seq![' '] + value;
    let parts = seq![name, value];
    text::joining_keeps_the_order(seq![name], seq![value], seq![' ']);
    text::joining_keeps_the_order(seq![value], seq![name], seq![' ']);
    assert(seq![name] + seq![value] =~= parts);
    assert(text::joined(parts, seq![' ']) =~= line);
    assert forall|i: int, j: int|
        0 <= i < parts.len() && 0 <= j < parts[i].len() implies !text::is_space(
        #[trigger] parts[i][j],
    ) by {
        if i == 0 {
            assert(parts[i] == name);
        } else {
            assert(parts[i] == value);
        }
    }
    text::words_undo_joining(parts);
    assert(!text::is_space(line[0]) && !text::is_space(line.last())) by {
        assert(line[0] == name[0]);
        assert(line.last() == value[value.len() - 1]);
    }
    assert(text::trimmed(line) == line);
    assert(line.subrange(0, name.len() as int) =~= name);
    assert(text::is_space(line[name.len() as int]));
    let remark = seq!['#'] + name + seq![' '] + value;
    assert(remark[0] == '#');
    assert(remark.last() == value[value.len() - 1]);
    assert(text::trimmed(remark) == remark);
    let longer = name + seq![c] + seq![' '] + value;
    assert(longer[0] == name[0]);
    assert(longer.last() == value[value.len() - 1]);
    assert(text::trimmed(longer) == longer);
    assert(longer[name.len() as int] == c);
}

/// The time of day is told by the numbers of hours, minutes and seconds, each in two digits
/// that read as that number; a day later it is the same.
pub proof fn the_time_of_day_is_told(hours: nat, minutes: nat, seconds: nat, days: nat)
    requires
        hours < 24,
        minutes < 60,
        seconds < 60,
    ensures
        time_of_day(days * 86400 + hours * 3600 + minutes * 60 + seconds) == two_digits(hours)
            + ":"@ + two_digits(minutes) + ":"@ + two_digits(seconds),
        text::parsed_unsigned(two_digits(hours), 99) == Some(hours),
        two_digits(hours).len() == 2,
{
    let secs = days * 86400 + hours * 3600 + minutes * 60 + seconds;
    let day = hours * 3600 + minutes * 60 + seconds;
    assert(secs % 86400 == day) by (nonlinear_arith)
        requires
            secs == days * 86400 + day,
            0 <= day < 86400,
    ;
    assert(day / 3600 == hours);
    let rest = minutes * 60 + seconds;
    assert(secs % 3600 == rest) by (nonlinear_arith)
        requires
            secs == (days * 24 + hours) * 3600 + rest,
            0 <= rest < 3600,
    ;
    assert(rest / 60 == minutes);
    assert(secs % 60 == seconds) by (nonlinear_arith)
        requires
            secs == (days * 1440 + hours * 60 + minutes) * 60 + seconds,
            0 <= seconds < 60,
    ;
    reveal_strlit("0");
    let d = text::decimal(hours);
    text::lemma_decimal(hours);
    reveal_with_fuel(text::decimal, 2);
    assert(d.len() == if hours < 10 {
        1int
    } else {
        2
    });
    let s = two_digits(hours);
    assert(text::is_digit(d[0]));
    if hours < 10 {
        assert(s =~= seq!['0', d[0]]);
        reveal_with_fuel(text::digits_value, 3);
        assert(s.drop_last() =~= seq!['0']);
        assert(seq!['0'].drop_last() =~= Seq::<char>::empty());
        assert(text::digits_value(seq!['0']) == 0);
        assert(d.drop_last() =~= Seq::<char>::empty());
        assert(text::digits_value(s) == hours);
        assert(text::all_digits(s));
    }
    text::digits_make_numbers(s, '0', 99);
}

/// The nearest number to a quotient is no further from it than a half, and where two are
/// equally near it is even.
pub proof fn the_nearest_number_is_near(n: int, d: int)
    requires
        0 <= n,
        0 < d,
    ensures
        -d <= 2 * (nearest(n, d) * d - n) <= d,
        2 * (nearest(n, d) * d - n) == d || 2 * (nearest(n, d) * d - n) == -d ==> nearest(n, d) % 2
            == 0,
{
    let q = n / d;
    let r = n % d;
    assert(n == q * d + r && 0 <= r < d) by (nonlinear_arith)
        requires
            q == n / d,
            r == n % d,
            0 < d,
    ;
    assert((q + 1) * d == q * d + d) by (nonlinear_arith);
}

/// A number of bytes is told in gigabytes, megabytes or kilobytes where there is at least one
/// of them, and else in bytes.
pub proof fn bytes_are_told_in_the_largest_unit(bytes: int)
    requires
        0 <= bytes,
    ensures
        bytes < 1024 ==> bytes_text(bytes) == text::decimal(bytes as nat) + " B"@,
        1024 <= bytes < 1024 * 1024 ==> bytes_text(bytes) == tenths_text(bytes, 1024) + " KB"@,
        1024 * 1024 <= bytes < 1024 * 1024 * 1024 ==> bytes_text(bytes) == tenths_text(
            bytes,
            0x100000,
        ) + " MB"@,
        1024 * 1024 * 1024 <= bytes ==> bytes_text(bytes) == tenths_text(
            bytes,
            0x40000000,
        ) + " GB"@,
{
}

/// Numbers of up to fifty-three bits are held exactly, so that their tenths are those of the
/// number itself.
pub proof fn small_numbers_are_held_exactly(bytes: int, unit: int)
    requires
        0 <= bytes < 0x20000000000000,
        0 < unit,
    ensures
        as_double(bytes) == bytes,
        ({
            let tenths = nearest(10 * bytes, unit);
            tenths_text(bytes, unit) == text::decimal((tenths / 10) as nat) + "."@
                + text::decimal((tenths % 10) as nat)
        }),
{
    assert(bytes / 1 == bytes);
    assert(double_step(bytes, 1) == 1);
    assert(nearest(bytes, 1) == bytes);
}

/// A number is told with its digits, and with a minus sign where it is negative.
pub proof fn numbers_are_told_with_their_sign(n: nat)
    ensures
        signed_text(n as int) == text::decimal(n),
        n > 0 ==> signed_text(-n) == "-"@ + text::decimal(n),
{
}

/// Every status has its colour, and so has every entry of the log: red where the cluster
/// could not be reached or read, yellow where it is yellow.
pub proof fn colours_tell_of_the_status(status: Seq<char>, entry: Seq<char>)
    ensures
        color_of_status(status) == Color::Green <==> status == "green"@,
        color_of_status(status) == Color::Yellow <==> status == "yellow"@,
        color_of_status(status) == Color::Red <==> status == "red"@,
        color_of_entry(entry) == Color::Red <==> text::occurs(entry, "unreachable"@)
            || text::occurs(entry, "unknown"@),
        color_of_entry(entry) == Color::Yellow <==> text::occurs(entry, "yellow"@)
            && !text::occurs(entry, "unreachable"@) && !text::occurs(entry, "unknown"@),
        color_of_entry(entry) != Color::Green,
{
    reveal_strlit("green");
    reveal_strlit("yellow");
    reveal_strlit("red");
    assert("green"@[0] == 'g' && "yellow"@[0] == 'y' && "red"@[0] == 'r');
}

/// A line says its label, its value and its colour.
pub proof fn lines_say_what_they_hold(
    line: PanelLine,
    label: Seq<char>,
    value: Seq<char>,
    color: Option<Color>,
)
    ensures
        line.says(label, value, color) <==> line.label@ == label && line.value@ == value
            && line.color == color,
{
}

/// The last items of a list are its end: all of it where it is short enough.
pub proof fn the_last_items_are_the_end<T>(s: Seq<T>, n: int, i: int)
    requires
        0 <= n,
    ensures
        s.len() <= n ==> last_items(s, n) == s,
        s.len() > n ==> last_items(s, n).len() == n,
        s.len() > n && 0 <= i < n ==> last_items(s, n)[i] == s[s.len() - n + i],
{
}

/// An entry of the log tells the time and the status.
pub proof fn log_entries_tell_time_and_status(timestamp: Seq<char>, status: Seq<char>)
    ensures
        log_entry(timestamp, status) == "["@ + timestamp + "] Refreshed — status="@ + status,
        text::finishes_with(log_entry(timestamp, status), status),
{
    let e = log_entry(timestamp, status);
    assert(e.subrange(e.len() - status.len(), e.len() as int) =~= status);
}

/// The log keeps a hundred entries and shows twenty; a key is waited for a quarter of a
/// second, and news are old after two seconds.
pub proof fn the_dashboard_has_its_limits()
    ensures
        LOG_CAPACITY == 100,
        LOG_SHOWN == 20,
        TICK_MS == 250,
        REFRESH_SECS == 2,
{
}

proof fn lemma_double_step(n: int, step: int)
    requires
        0 <= n,
        1 <= step,
    ensures
        double_step(n, step) >= step,
        n / double_step(n, step) < 0x20000000000000,
        double_step(n, step) > step ==> n / (double_step(n, step) / 2) >= 0x20000000000000,
    decreases 2 * n - step,
{
    if n / step < 0x20000000000000 || step > n {
        if step > n {
            assert(n / step == 0) by (nonlinear_arith)
                requires
                    0 <= n < step,
            ;
        }
    } else {
        lemma_double_step(n, 2 * step);
        assert((2 * step) / 2 == step);
    }
}

/// A number is held by the nearest number that its distance allows: the least doubled
/// distance at which it takes no more than fifty-three bits.
pub proof fn large_numbers_are_held_nearly(n: int)
    requires
        0 <= n,
    ensures
        ({
            let step = double_step(n, 1);
            &&& n / step < 0x20000000000000
            &&& step > 1 ==> n / (step / 2) >= 0x20000000000000
            &&& -step <= 2 * (as_double(n) - n) <= step
            &&& as_double(n) == nearest(n, step) * step
        }),
{
    lemma_double_step(n, 1);
    the_nearest_number_is_near(n, double_step(n, 1));
}

} // verus!
