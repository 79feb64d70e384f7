//! Where the node's log goes.

use vstd::prelude::*;

verus! {

/// The name under which the log is written to disk; each day begins a new file.
pub const LOG_FILE: &'static str = "msearchdb.log";

/// How an output of the log is written.
#[derive(Clone, Copy, Debug, PartialEq, Eq, Structural)]
pub struct LogFormat {
    /// As JSON, or to be read by people.
    pub json: bool,
    pub thread_ids: bool,
    /// The file and the line of the source.
    pub source: bool,
    /// In colours.
    pub ansi: bool,
}

/// The output to files in a directory.
#[derive(Debug)]
pub struct LogFile {
    pub directory: String,
    pub format: LogFormat,
}

/// The export of traces to a collector.
#[derive(Debug)]
pub struct TraceExport {
    pub endpoint: String,
    pub service_name: String,
}

/// Where the log goes.
#[derive(Debug)]
pub struct LogPlan {
    pub console: LogFormat,
    pub file: Option<LogFile>,
    pub export: Option<TraceExport>,
}

/// The log goes to the console, to files where a directory is named, and to no
/// collector.
pub open spec fn plain_plan(plan: LogPlan, json: bool, log_dir: Option<&str>) -> bool {
    &&& plan.console == (LogFormat { json, thread_ids: true, source: true, ansi: true })
    &&& match (plan.file, log_dir) {
        (Some(f), Some(dir)) => f.directory@ == dir@ && f.format == (LogFormat {
            json,
            thread_ids: false,
            source: false,
            ansi: false,
        }),
        (None, None) => true,
        _ => false,
    }
}

/// Where the log goes without a collector.
pub fn init_tracing(json_format: bool, log_dir: Option<&str>) -> (plan: LogPlan)
    ensures
        plain_plan(plan, json_format, log_dir),
        plan.export is None,
{
    let file = match log_dir {
        Some(dir) => Some(
            LogFile {
                directory: dir.to_owned(),
                format: LogFormat {
                    json: json_format,
                    thread_ids: false,
                    source: false,
                    ansi: false,
                },
            },
        ),
        None => None,
    };
    LogPlan {
        console: LogFormat { json: json_format, thread_ids: true, source: true, ansi: true },
        file,
        export: None,
    }
}

/// Where the log goes: the same, and its traces to a collector where one is named.
pub fn init_tracing_with_otel(
    json_format: bool,
    log_dir: Option<&str>,
    otlp_endpoint: Option<&str>,
    service_name: &str,
) -> (plan: LogPlan)
    ensures
        plain_plan(plan, json_format, log_dir),
        match (plan.export, otlp_endpoint) {
            (Some(e), Some(endpoint)) => e.endpoint@ == endpoint@ && e.service_name@
                == service_name@,
            (None, None) => true,
            _ => false,
        },
{
    let plan = init_tracing(json_format, log_dir);
    let export = match otlp_endpoint {
        Some(endpoint) => Some(
            TraceExport { endpoint: endpoint.to_owned(), service_name: service_name.to_owned() },
        ),
        None => None,
    };
    LogPlan { console: plan.console, file: plan.file, export }
}

// ---------------------------------------------------------------------------
// Laws
// ---------------------------------------------------------------------------

/// The console is written in the format that was asked for, in colours and with threads and
/// places; files are written only where a directory is named, in the same format and without
/// those.
pub proof fn logs_go_where_they_are_sent(plan: LogPlan, json: bool, log_dir: Option<&str>)
    requires
        plain_plan(plan, json, log_dir),
    ensures
        plan.console.json == json,
        plan.console.thread_ids && plan.console.source && plan.console.ansi,
        plan.file is Some <==> log_dir is Some,
        plan.file matches Some(f) ==> f.directory@ == log_dir->0@ && f.format.json == json
            && !f.format.thread_ids && !f.format.source && !f.format.ansi,
{
}

} // verus!
