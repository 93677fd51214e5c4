//! Reading service logs: a status summary per service, and the parts of a
//! `docker compose logs` line.

use vstd::prelude::*;
use crate::patterns::{
    group, group_opt, group_or_empty, groups_view, opt_groups_view, regex_captures,
    regex_captures_of, regex_count, regex_count_of, regex_find, regex_find_of, regex_replace_all,
    regex_replace_all_of,
};
use crate::text::{
    chars_of, concat3, contains, decimal, find, find_char_exec, find_char_from, find_exec,
    find_from, lemma_find_char_bounds, lemma_find_from_spec, matches_at, matches_at_exec, opt_view,
    owned, parse_u32, parse_u32_spec, parse_u64, parse_u64_spec, slice_chars, starts_with,
    starts_with_exec, str_contains, string_of, to_upper, trim, trim_chars, u64_to_string,
    uppercase,
};

verus! {

/// The level of a log line.
#[derive(Debug, Clone, Copy, PartialEq, Eq, Structural)]
pub enum LogLevel {
    Error,
    Warn,
    Info,
    Debug,
    Trace,
    Unknown,
}

/// The level whose name (upper case) occurs in `s`, trying ERROR, WARN, INFO, DEBUG, TRACE in turn.
pub open spec fn level_in(s: Seq<char>) -> LogLevel {
    let u = uppercase(s);
    if contains(u, "ERROR"@) {
        LogLevel::Error
    } else if contains(u, "WARN"@) {
        LogLevel::Warn
    } else if contains(u, "INFO"@) {
        LogLevel::Info
    } else if contains(u, "DEBUG"@) {
        LogLevel::Debug
    } else if contains(u, "TRACE"@) {
        LogLevel::Trace
    } else {
        LogLevel::Unknown
    }
}

/// The level named exactly `s`.
pub open spec fn level_named(s: Seq<char>) -> LogLevel {
    if s == "ERROR"@ {
        LogLevel::Error
    } else if s == "WARN"@ {
        LogLevel::Warn
    } else if s == "INFO"@ {
        LogLevel::Info
    } else if s == "DEBUG"@ {
        LogLevel::Debug
    } else if s == "TRACE"@ {
        LogLevel::Trace
    } else {
        LogLevel::Unknown
    }
}

impl LogLevel {
    /// The level whose name occurs in `s`, in any case.
    pub fn from_str(s: &str) -> (r: LogLevel)
        ensures
            r == level_in(s@),
    {
        let upper = to_upper(s);
        if str_contains(upper.as_str(), "ERROR") {
            LogLevel::Error
        } else if str_contains(upper.as_str(), "WARN") {
            LogLevel::Warn
        } else if str_contains(upper.as_str(), "INFO") {
            LogLevel::Info
        } else if str_contains(upper.as_str(), "DEBUG") {
            LogLevel::Debug
        } else if str_contains(upper.as_str(), "TRACE") {
            LogLevel::Trace
        } else {
            LogLevel::Unknown
        }
    }

    /// The level's five-column label.
    pub fn to_string(&self) -> (r: &'static str)
        ensures
            r@ == match self {
                LogLevel::Error => "ERROR"@,
                LogLevel::Warn => "WARN "@,
                LogLevel::Info => "INFO "@,
                LogLevel::Debug => "DEBUG"@,
                LogLevel::Trace => "TRACE"@,
                LogLevel::Unknown => "     "@,
            },
    {
        match self {
            LogLevel::Error => "ERROR",
            LogLevel::Warn => "WARN ",
            LogLevel::Info => "INFO ",
            LogLevel::Debug => "DEBUG",
            LogLevel::Trace => "TRACE",
            LogLevel::Unknown => "     ",
        }
    }

    /// The level named exactly `s`.
    fn named(s: &str) -> (r: LogLevel)
        ensures
            r == level_named(s@),
    {
        if crate::text::str_eq(s, "ERROR") {
            LogLevel::Error
        } else if crate::text::str_eq(s, "WARN") {
            LogLevel::Warn
        } else if crate::text::str_eq(s, "INFO") {
            LogLevel::Info
        } else if crate::text::str_eq(s, "DEBUG") {
            LogLevel::Debug
        } else if crate::text::str_eq(s, "TRACE") {
            LogLevel::Trace
        } else {
            LogLevel::Unknown
        }
    }
}

// ---------------------------------------------------------------------------
// Status summaries
// ---------------------------------------------------------------------------

/// What the logs of a service say about it.
#[derive(Debug)]
pub struct ServiceMetrics {
    /// A short status, such as "Synced" or "Syncing".
    pub status_text: Option<String>,
    /// The main figure, such as a block number or a rate.
    pub primary_metric: Option<String>,
    /// A second figure, such as a latency or a peer count.
    pub secondary_metric: Option<String>,
    /// Whether nothing wrong was seen.
    pub is_healthy: bool,
}

pub struct MetricsView {
    pub status: Option<Seq<char>>,
    pub primary: Option<Seq<char>>,
    pub secondary: Option<Seq<char>>,
    pub healthy: bool,
}

impl View for ServiceMetrics {
    type V = MetricsView;

    open spec fn view(&self) -> MetricsView {
        MetricsView {
            status: opt_view(self.status_text),
            primary: opt_view(self.primary_metric),
            secondary: opt_view(self.secondary_metric),
            healthy: self.is_healthy,
        }
    }
}

/// Nothing known, healthy.
pub open spec fn healthy_blank() -> MetricsView {
    MetricsView { status: None, primary: None, secondary: None, healthy: true }
}

/// Nothing known and not healthy: what an unknown service gets.
pub open spec fn unknown_service() -> MetricsView {
    MetricsView { status: None, primary: None, secondary: None, healthy: false }
}

/// `t` followed by `suffix`, when `t` is there.
pub open spec fn suffixed(t: Option<Seq<char>>, suffix: Seq<char>) -> Option<Seq<char>> {
    match t {
        Some(x) => Some(x + suffix),
        None => None,
    }
}

pub open spec fn kaspad_accepted_pattern() -> Seq<char> {
    "Accepted (\\d+) blocks.*via relay"@
}

pub open spec fn kaspad_throughput_pattern() -> Seq<char> {
    "Tx throughput stats: ([\\d.]+) u-tps"@
}

pub open spec fn kaspad_processed_pattern() -> Seq<char> {
    "Processed (\\d+) blocks and (\\d+) headers"@
}

/// kaspad: blocks accepted via relay mean synced (with the transaction
/// rate), processed batches mean syncing, else an error or warning is a warning.
pub open spec fn kaspad_metrics(
    accepted: bool,
    throughput: Option<Seq<Option<Seq<char>>>>,
    processed: Option<Seq<Option<Seq<char>>>>,
    warned: bool,
) -> MetricsView {
    if accepted {
        MetricsView {
            status: Some("Synced"@),
            primary: match throughput {
                Some(g) => suffixed(group(g, 1), " TPS"@),
                None => None,
            },
            ..healthy_blank()
        }
    } else if processed is Some {
        let g = processed->0;
        if group(g, 1) is Some && group(g, 2) is Some {
            MetricsView {
                status: Some("Syncing"@),
                primary: suffixed(group(g, 1), " blk/10s"@),
                secondary: suffixed(group(g, 2), " hdr"@),
                healthy: true,
            }
        } else {
            healthy_blank()
        }
    } else if warned {
        MetricsView { status: Some("Warning"@), healthy: false, ..healthy_blank() }
    } else {
        healthy_blank()
    }
}

pub open spec fn parse_kaspad(logs: Seq<char>) -> MetricsView {
    kaspad_metrics(
        regex_captures_of(kaspad_accepted_pattern(), logs) is Some,
        regex_captures_of(kaspad_throughput_pattern(), logs),
        regex_captures_of(kaspad_processed_pattern(), logs),
        contains(logs, "ERROR"@) || contains(logs, "WARN"@),
    )
}

pub open spec fn el_block_pattern() -> Seq<char> {
    "Block added to canonical chain.*number=(\\d+)"@
}

pub open spec fn el_tx_pattern() -> Seq<char> {
    "txs=(\\d+)"@
}

pub open spec fn el_peers_pattern() -> Seq<char> {
    "peers=(\\d+)"@
}

/// execution layer: the latest canonical block, with the transaction count
/// or else the peer count.
pub open spec fn execution_layer_metrics(
    block: Option<Seq<Option<Seq<char>>>>,
    txs: Option<Seq<Option<Seq<char>>>>,
    peers: Option<Seq<Option<Seq<char>>>>,
) -> MetricsView {
    match block {
        Some(b) => match group(b, 1) {
            Some(n) => MetricsView {
                status: Some("Active"@),
                primary: Some("#"@ + n),
                secondary: match txs {
                    Some(t) => suffixed(group(t, 1), " txs"@),
                    None => match peers {
                        Some(p) => suffixed(group(p, 1), " peers"@),
                        None => None,
                    },
                },
                healthy: true,
            },
            None => healthy_blank(),
        },
        None => healthy_blank(),
    }
}

pub open spec fn parse_execution_layer(logs: Seq<char>) -> MetricsView {
    execution_layer_metrics(
        regex_captures_of(el_block_pattern(), logs),
        regex_captures_of(el_tx_pattern(), logs),
        regex_captures_of(el_peers_pattern(), logs),
    )
}

/// `n` in decimal with a comma between groups of three digits.
pub open spec fn grouped(s: Seq<char>) -> Seq<char>
    decreases s.len(),
{
    if s.len() <= 3 {
        s
    } else {
        grouped(s.subrange(0, s.len() - 3)) + ","@ + s.subrange(s.len() - 3, s.len() as int)
    }
}

pub open spec fn viaduct_daa_pattern() -> Seq<char> {
    "with score (\\d+) to the queue"@
}

pub open spec fn viaduct_latency_pattern() -> Seq<char> {
    "Sending took (\\d+) ms"@
}

pub open spec fn viaduct_queue_pattern() -> Seq<char> {
    "len now (\\d+)"@
}

/// viaduct: the DAA score (grouped by thousands), then the send latency
/// (unhealthy above 100 ms) or else the queue length.
pub open spec fn viaduct_metrics(
    daa: Option<Seq<Option<Seq<char>>>>,
    latency: Option<Seq<Option<Seq<char>>>>,
    queue: Option<Seq<Option<Seq<char>>>>,
) -> MetricsView {
    let primary = match daa {
        Some(d) => match group(d, 1) {
            Some(t) => match parse_u64_spec(t) {
                Some(n) => Some("DAA:"@ + grouped(decimal(n as nat))),
                None => None,
            },
            None => None,
        },
        None => None,
    };
    let base = MetricsView {
        status: Some("Active"@),
        primary,
        secondary: None,
        healthy: true,
    };
    match latency {
        Some(l) => match group(l, 1) {
            Some(t) => {
                let ms: u32 = match parse_u32_spec(t) {
                    Some(v) => v,
                    None => 0,
                };
                MetricsView { secondary: Some(decimal(ms as nat) + "ms"@), healthy: ms <= 100, ..base }
            },
            None => base,
        },
        None => match queue {
            Some(q) => match group(q, 1) {
                Some(t) => MetricsView { secondary: Some("Q:"@ + t), ..base },
                None => base,
            },
            None => base,
        },
    }
}

pub open spec fn parse_viaduct(logs: Seq<char>) -> MetricsView {
    viaduct_metrics(
        regex_captures_of(viaduct_daa_pattern(), logs),
        regex_captures_of(viaduct_latency_pattern(), logs),
        regex_captures_of(viaduct_queue_pattern(), logs),
    )
}

pub open spec fn builder_built_pattern() -> Seq<char> {
    "Block built with (\\d+) transactions"@
}

pub open spec fn builder_building_pattern() -> Seq<char> {
    "Building payload on parent"@
}

/// block builder: a built block with its transaction count, else building.
pub open spec fn block_builder_metrics(built: Option<Seq<Option<Seq<char>>>>, building: bool) -> MetricsView {
    match built {
        Some(b) => MetricsView {
            status: Some("Built"@),
            primary: suffixed(group(b, 1), " txs"@),
            ..healthy_blank()
        },
        None => if building {
            MetricsView { status: Some("Building"@), primary: Some("..."@), ..healthy_blank() }
        } else {
            healthy_blank()
        },
    }
}

pub open spec fn parse_block_builder(logs: Seq<char>) -> MetricsView {
    block_builder_metrics(
        regex_captures_of(builder_built_pattern(), logs),
        regex_captures_of(builder_building_pattern(), logs) is Some,
    )
}

pub open spec fn rpc_request_pattern() -> Seq<char> {
    "RPC REQUEST.*method=(\\w+)"@
}

/// rpc provider: serving, with the request rate over ten seconds of logs.
pub open spec fn rpc_provider_metrics(requests: nat) -> MetricsView {
    MetricsView {
        status: Some("Serving"@),
        primary: if requests > 0 {
            Some(decimal(requests / 10) + " req/s"@)
        } else {
            None
        },
        ..healthy_blank()
    }
}

pub open spec fn parse_rpc_provider(logs: Seq<char>) -> MetricsView {
    rpc_provider_metrics(regex_count_of(rpc_request_pattern(), logs))
}

/// kaswallet: synced, syncing or starting, by the messages it logged.
pub open spec fn parse_kaswallet(logs: Seq<char>) -> MetricsView {
    if contains(logs, "Finished initial sync"@) {
        MetricsView { status: Some("Synced"@), primary: Some("Ready"@), ..healthy_blank() }
    } else if contains(logs, "Connected to kaspa node successfully"@) {
        MetricsView { status: Some("Syncing"@), primary: Some("..."@), ..healthy_blank() }
    } else if contains(logs, "Starting wallet server"@) {
        MetricsView { status: Some("Starting"@), ..healthy_blank() }
    } else {
        healthy_blank()
    }
}

pub open spec fn checkpoint_pattern() -> Seq<char> {
    "checkpoint block (\\d+).*latest: (\\d+)"@
}

/// node health check: how far the pushed checkpoint is behind the latest block.
pub open spec fn health_check_metrics(cp: Option<Seq<Option<Seq<char>>>>) -> MetricsView {
    match cp {
        Some(g) => match (group(g, 1), group(g, 2)) {
            (Some(a), Some(b)) => {
                let c: u64 = match parse_u64_spec(a) {
                    Some(v) => v,
                    None => 0,
                };
                let l: u64 = match parse_u64_spec(b) {
                    Some(v) => v,
                    None => 0,
                };
                let lag: int = if l > c {
                    l - c
                } else {
                    0
                };
                MetricsView {
                    status: Some(
                        if lag == 0 {
                            "Synced"@
                        } else if lag < 5 {
                            "OK"@
                        } else if lag < 10 {
                            "Lagging"@
                        } else {
                            "Behind"@
                        },
                    ),
                    primary: Some("-"@ + decimal(lag as nat) + " blk"@),
                    secondary: None,
                    healthy: lag < 10,
                }
            },
            _ => healthy_blank(),
        },
        None => healthy_blank(),
    }
}

pub open spec fn parse_health_check(logs: Seq<char>) -> MetricsView {
    health_check_metrics(regex_captures_of(checkpoint_pattern(), logs))
}

/// How many non-overlapping copies of `p` occur in `s` from `i` on, left to right.
pub open spec fn count_matches_from(s: Seq<char>, p: Seq<char>, i: int) -> nat
    decreases s.len() + 1 - i,
{
    if p.len() == 0 || i < 0 || i + p.len() > s.len() {
        0
    } else if matches_at(s, p, i) {
        1 + count_matches_from(s, p, i + p.len())
    } else {
        count_matches_from(s, p, i + 1)
    }
}

/// traefik: certificates in order, and the number of errors logged.
pub open spec fn parse_traefik(logs: Seq<char>) -> MetricsView {
    let base = if contains(logs, "No ACME certificate generation required"@) {
        MetricsView { status: Some("SSL OK"@), primary: Some("Active"@), ..healthy_blank() }
    } else {
        healthy_blank()
    };
    let errors = count_matches_from(logs, "ERR"@, 0);
    if errors > 0 {
        MetricsView { healthy: false, secondary: Some(decimal(errors) + " err"@), ..base }
    } else {
        base
    }
}

pub open spec fn ansi_pattern() -> Seq<char> {
    "\x1b\\[[0-9;]*[a-zA-Z]"@
}

/// `logs` without ANSI colour codes.
pub open spec fn strip_ansi(logs: Seq<char>) -> Seq<char> {
    regex_replace_all_of(ansi_pattern(), logs, ""@)
}

/// The summary for a service, chosen by the first of these that its name
/// contains: kaspad, execution-layer, viaduct, block-builder, rpc-provider,
/// kaswallet, node-health-check, traefik. Other services get nothing, unhealthy.
/// For the rpc provider the average request latency is not part of it.
pub open spec fn service_metrics(name: Seq<char>, logs: Seq<char>) -> MetricsView {
    let clean = strip_ansi(logs);
    if contains(name, "kaspad"@) {
        parse_kaspad(clean)
    } else if contains(name, "execution-layer"@) {
        parse_execution_layer(clean)
    } else if contains(name, "viaduct"@) {
        parse_viaduct(clean)
    } else if contains(name, "block-builder"@) {
        parse_block_builder(clean)
    } else if contains(name, "rpc-provider"@) {
        parse_rpc_provider(clean)
    } else if contains(name, "kaswallet"@) {
        parse_kaswallet(clean)
    } else if contains(name, "node-health-check"@) {
        parse_health_check(clean)
    } else if contains(name, "traefik"@) {
        parse_traefik(clean)
    } else {
        unknown_service()
    }
}

fn opt_concat(a: &str, t: Option<String>, b: &str) -> (r: Option<String>)
    ensures
        opt_view(r) == match opt_view(t) {
            Some(x) => Some(a@ + x + b@),
            None => None,
        },
{
    match t {
        Some(x) => Some(concat3(a, x.as_str(), b)),
        None => None,
    }
}

/// The kaspad summary from its three searches and whether an error or
/// warning was logged.
pub fn kaspad_metrics_from(
    accepted: bool,
    throughput: &Option<Vec<Option<String>>>,
    processed: &Option<Vec<Option<String>>>,
    warned: bool,
) -> (r: ServiceMetrics)
    ensures
        r@ == kaspad_metrics(accepted, opt_groups_view(*throughput), opt_groups_view(*processed), warned),
{
    if accepted {
        let primary = match throughput {
            Some(g) => opt_concat("", group_opt(g, 1), " TPS"),
            None => None,
        };
        proof {
            assert(""@ =~= Seq::<char>::empty()) by {
                reveal_strlit("");
            }
        }
        return ServiceMetrics {
            status_text: Some(owned("Synced")),
            primary_metric: primary,
            secondary_metric: None,
            is_healthy: true,
        };
    }
    match processed {
        Some(g) => {
            let b = group_opt(g, 1);
            let h = group_opt(g, 2);
            proof {
                assert(""@ =~= Seq::<char>::empty()) by {
                    reveal_strlit("");
                }
            }
            if b.is_some() && h.is_some() {
                ServiceMetrics {
                    status_text: Some(owned("Syncing")),
                    primary_metric: opt_concat("", b, " blk/10s"),
                    secondary_metric: opt_concat("", h, " hdr"),
                    is_healthy: true,
                }
            } else {
                ServiceMetrics {
                    status_text: None,
                    primary_metric: None,
                    secondary_metric: None,
                    is_healthy: true,
                }
            }
        },
        None => {
            if warned {
                ServiceMetrics {
                    status_text: Some(owned("Warning")),
                    primary_metric: None,
                    secondary_metric: None,
                    is_healthy: false,
                }
            } else {
                ServiceMetrics {
                    status_text: None,
                    primary_metric: None,
                    secondary_metric: None,
                    is_healthy: true,
                }
            }
        },
    }
}

/// The kaspad summary of `logs`.
pub fn parse_kaspad_logs(logs: &str) -> (r: ServiceMetrics)
    ensures
        r@ == parse_kaspad(logs@),
{
    let accepted = regex_captures("Accepted (\\d+) blocks.*via relay", logs);
    let throughput = regex_captures("Tx throughput stats: ([\\d.]+) u-tps", logs);
    let processed = regex_captures("Processed (\\d+) blocks and (\\d+) headers", logs);
    let warned = str_contains(logs, "ERROR") || str_contains(logs, "WARN");
    kaspad_metrics_from(accepted.is_some(), &throughput, &processed, warned)
}

/// The execution-layer summary from its three searches.
pub fn execution_layer_metrics_from(
    block: &Option<Vec<Option<String>>>,
    txs: &Option<Vec<Option<String>>>,
    peers: &Option<Vec<Option<String>>>,
) -> (r: ServiceMetrics)
    ensures
        r@ == execution_layer_metrics(
            opt_groups_view(*block),
            opt_groups_view(*txs),
            opt_groups_view(*peers),
        ),
{
    let blank = ServiceMetrics {
        status_text: None,
        primary_metric: None,
        secondary_metric: None,
        is_healthy: true,
    };
    proof {
        assert(""@ =~= Seq::<char>::empty()) by {
            reveal_strlit("");
        }
    }
    match block {
        Some(b) => match group_opt(b, 1) {
            Some(n) => {
                let secondary = match txs {
                    Some(t) => opt_concat("", group_opt(t, 1), " txs"),
                    None => match peers {
                        Some(p) => opt_concat("", group_opt(p, 1), " peers"),
                        None => None,
                    },
                };
                ServiceMetrics {
                    status_text: Some(owned("Active")),
                    primary_metric: Some(concat3("#", n.as_str(), "")),
                    secondary_metric: secondary,
                    is_healthy: true,
                }
            },
            None => blank,
        },
        None => blank,
    }
}

/// The execution-layer summary of `logs`.
pub fn parse_execution_layer_logs(logs: &str) -> (r: ServiceMetrics)
    ensures
        r@ == parse_execution_layer(logs@),
{
    let block = regex_captures("Block added to canonical chain.*number=(\\d+)", logs);
    let txs = regex_captures("txs=(\\d+)", logs);
    let peers = regex_captures("peers=(\\d+)", logs);
    execution_layer_metrics_from(&block, &txs, &peers)
}

/// The digits of `s[0..n]` with a comma between groups of three, from the right.
fn group_digits(s: &[char], n: usize) -> (r: Vec<char>)
    requires
        n <= s.len(),
    ensures
        r@ == grouped(s@.subrange(0, n as int)),
    decreases n,
{
    if n <= 3 {
        slice_chars(s, 0, n)
    } else {
        let mut v = group_digits(s, n - 3);
        let ghost head = v@;
        v.push(',');
        let tail = slice_chars(s, n - 3, n);
        crate::text::push_chars(&mut v, &tail);
        proof {
            let t = s@.subrange(0, n as int);
            assert(t.subrange(0, t.len() - 3) =~= s@.subrange(0, n - 3));
            assert(t.subrange(t.len() - 3, t.len() as int) =~= s@.subrange(n - 3, n as int));
            assert(","@ =~= seq![',']) by {
                reveal_strlit(",");
            }
            assert(v@ =~= head + ","@ + tail@);
        }
        v
    }
}

/// `num` in decimal with comma separators between groups of three digits.
pub fn format_large_number(num: u64) -> (r: String)
    ensures
        r@ == grouped(decimal(num as nat)),
{
    let s = u64_to_string(num);
    let v = chars_of(s.as_str());
    let g = group_digits(&v, v.len());
    assert(v@.subrange(0, v.len() as int) =~= v@);
    string_of(&g)
}

/// The viaduct summary from its three searches.
pub fn viaduct_metrics_from(
    daa: &Option<Vec<Option<String>>>,
    latency: &Option<Vec<Option<String>>>,
    queue: &Option<Vec<Option<String>>>,
) -> (r: ServiceMetrics)
    ensures
        r@ == viaduct_metrics(opt_groups_view(*daa), opt_groups_view(*latency), opt_groups_view(*queue)),
{
    let primary = match daa {
        Some(d) => match group_opt(d, 1) {
            Some(t) => match parse_u64(&chars_of(t.as_str())) {
                Some(n) => {
                    let f = format_large_number(n);
                    Some(concat3("DAA:", f.as_str(), ""))
                },
                None => None,
            },
            None => None,
        },
        None => None,
    };
    proof {
        assert(""@ =~= Seq::<char>::empty()) by {
            reveal_strlit("");
        }
    }
    let mut m = ServiceMetrics {
        status_text: Some(owned("Active")),
        primary_metric: primary,
        secondary_metric: None,
        is_healthy: true,
    };
    match latency {
        Some(l) => match group_opt(l, 1) {
            Some(t) => {
                let ms: u32 = match parse_u32(&chars_of(t.as_str())) {
                    Some(v) => v,
                    None => 0,
                };
                let d = u64_to_string(ms as u64);
                m.secondary_metric = Some(concat3("", d.as_str(), "ms"));
                if ms > 100 {
                    m.is_healthy = false;
                }
            },
            None => {},
        },
        None => match queue {
            Some(q) => match group_opt(q, 1) {
                Some(t) => {
                    m.secondary_metric = Some(concat3("Q:", t.as_str(), ""));
                },
                None => {},
            },
            None => {},
        },
    }
    m
}

/// The viaduct summary of `logs`.
pub fn parse_viaduct_logs(logs: &str) -> (r: ServiceMetrics)
    ensures
        r@ == parse_viaduct(logs@),
{
    let daa = regex_captures("with score (\\d+) to the queue", logs);
    let latency = regex_captures("Sending took (\\d+) ms", logs);
    let queue = regex_captures("len now (\\d+)", logs);
    viaduct_metrics_from(&daa, &latency, &queue)
}

/// The block-builder summary from its two searches.
pub fn block_builder_metrics_from(built: &Option<Vec<Option<String>>>, building: bool) -> (r:
    ServiceMetrics)
    ensures
        r@ == block_builder_metrics(opt_groups_view(*built), building),
{
    proof {
        assert(""@ =~= Seq::<char>::empty()) by {
            reveal_strlit("");
        }
    }
    match built {
        Some(b) => ServiceMetrics {
            status_text: Some(owned("Built")),
            primary_metric: opt_concat("", group_opt(b, 1), " txs"),
            secondary_metric: None,
            is_healthy: true,
        },
        None => if building {
            ServiceMetrics {
                status_text: Some(owned("Building")),
                primary_metric: Some(owned("...")),
                secondary_metric: None,
                is_healthy: true,
            }
        } else {
            ServiceMetrics {
                status_text: None,
                primary_metric: None,
                secondary_metric: None,
                is_healthy: true,
            }
        },
    }
}

/// The block-builder summary of `logs`.
pub fn parse_block_builder_logs(logs: &str) -> (r: ServiceMetrics)
    ensures
        r@ == parse_block_builder(logs@),
{
    let built = regex_captures("Block built with (\\d+) transactions", logs);
    let building = regex_captures("Building payload on parent", logs);
    block_builder_metrics_from(&built, building.is_some())
}

/// The rpc-provider summary from its number of requests.
pub fn rpc_provider_metrics_from(requests: usize) -> (r: ServiceMetrics)
    ensures
        r@ == rpc_provider_metrics(requests as nat),
{
    let primary = if requests > 0 {
        let d = u64_to_string((requests / 10) as u64);
        proof {
            assert(""@ =~= Seq::<char>::empty()) by {
                reveal_strlit("");
            }
        }
        Some(concat3("", d.as_str(), " req/s"))
    } else {
        None
    };
    ServiceMetrics {
        status_text: Some(owned("Serving")),
        primary_metric: primary,
        secondary_metric: None,
        is_healthy: true,
    }
}

/// The rpc-provider summary of `logs`, without the latency.
pub fn parse_rpc_provider_logs(logs: &str) -> (r: ServiceMetrics)
    ensures
        r@ == parse_rpc_provider(logs@),
{
    let n = regex_count("RPC REQUEST.*method=(\\w+)", logs);
    rpc_provider_metrics_from(n)
}

/// The kaswallet summary of `logs`.
pub fn parse_kaswallet_logs(logs: &str) -> (r: ServiceMetrics)
    ensures
        r@ == parse_kaswallet(logs@),
{
    if str_contains(logs, "Finished initial sync") {
        ServiceMetrics {
            status_text: Some(owned("Synced")),
            primary_metric: Some(owned("Ready")),
            secondary_metric: None,
            is_healthy: true,
        }
    } else if str_contains(logs, "Connected to kaspa node successfully") {
        ServiceMetrics {
            status_text: Some(owned("Syncing")),
            primary_metric: Some(owned("...")),
            secondary_metric: None,
            is_healthy: true,
        }
    } else if str_contains(logs, "Starting wallet server") {
        ServiceMetrics {
            status_text: Some(owned("Starting")),
            primary_metric: None,
            secondary_metric: None,
            is_healthy: true,
        }
    } else {
        ServiceMetrics {
            status_text: None,
            primary_metric: None,
            secondary_metric: None,
            is_healthy: true,
        }
    }
}

/// The health-check summary from its checkpoint search.
pub fn health_check_metrics_from(cp: &Option<Vec<Option<String>>>) -> (r: ServiceMetrics)
    ensures
        r@ == health_check_metrics(opt_groups_view(*cp)),
{
    let blank = ServiceMetrics {
        status_text: None,
        primary_metric: None,
        secondary_metric: None,
        is_healthy: true,
    };
    match cp {
        Some(g) => {
            let a = group_opt(g, 1);
            let b = group_opt(g, 2);
            match (a, b) {
                (Some(x), Some(y)) => {
                    let c: u64 = match parse_u64(&chars_of(x.as_str())) {
                        Some(v) => v,
                        None => 0,
                    };
                    let l: u64 = match parse_u64(&chars_of(y.as_str())) {
                        Some(v) => v,
                        None => 0,
                    };
                    let lag: u64 = if l > c {
                        l - c
                    } else {
                        0
                    };
                    let status = if lag == 0 {
                        owned("Synced")
                    } else if lag < 5 {
                        owned("OK")
                    } else if lag < 10 {
                        owned("Lagging")
                    } else {
                        owned("Behind")
                    };
                    let d = u64_to_string(lag);
                    ServiceMetrics {
                        status_text: Some(status),
                        primary_metric: Some(concat3("-", d.as_str(), " blk")),
                        secondary_metric: None,
                        is_healthy: lag < 10,
                    }
                },
                _ => blank,
            }
        },
        None => blank,
    }
}

/// The health-check summary of `logs`.
pub fn parse_health_check_logs(logs: &str) -> (r: ServiceMetrics)
    ensures
        r@ == parse_health_check(logs@),
{
    let cp = regex_captures("checkpoint block (\\d+).*latest: (\\d+)", logs);
    health_check_metrics_from(&cp)
}

/// How many non-overlapping copies of `p` occur in `s`, left to right.
pub fn count_matches(s: &[char], p: &[char]) -> (r: usize)
    ensures
        r == count_matches_from(s@, p@, 0),
{
    if p.len() == 0 {
        return 0;
    }
    let mut n: usize = 0;
    let mut i: usize = 0;
    while i <= s.len() && p.len() <= s.len() - i
        invariant
            p@.len() > 0,
            i <= s.len(),
            n <= i,
            n + count_matches_from(s@, p@, i as int) == count_matches_from(s@, p@, 0),
        decreases s.len() - i,
    {
        if matches_at_exec(s, p, i) {
            n += 1;
            i += p.len();
        } else {
            i += 1;
        }
    }
    n
}

/// The traefik summary of `logs`.
pub fn parse_traefik_logs(logs: &str) -> (r: ServiceMetrics)
    ensures
        r@ == parse_traefik(logs@),
{
    let mut m = if str_contains(logs, "No ACME certificate generation required") {
        ServiceMetrics {
            status_text: Some(owned("SSL OK")),
            primary_metric: Some(owned("Active")),
            secondary_metric: None,
            is_healthy: true,
        }
    } else {
        ServiceMetrics {
            status_text: None,
            primary_metric: None,
            secondary_metric: None,
            is_healthy: true,
        }
    };
    let errors = count_matches(&chars_of(logs), &chars_of("ERR"));
    if errors > 0 {
        m.is_healthy = false;
        let d = u64_to_string(errors as u64);
        proof {
            assert(""@ =~= Seq::<char>::empty()) by {
                reveal_strlit("");
            }
        }
        m.secondary_metric = Some(concat3("", d.as_str(), " err"));
    }
    m
}

/// `logs` without ANSI colour codes.
pub fn strip_ansi_codes(logs: &str) -> (r: String)
    ensures
        r@ == strip_ansi(logs@),
{
    regex_replace_all("\x1b\\[[0-9;]*[a-zA-Z]", logs, "")
}

/// The summary of a service's logs, chosen by its name. For the rpc
/// provider the average request latency is left out.
pub fn parse_service_logs(service_name: &str, logs: &str) -> (r: ServiceMetrics)
    ensures
        r@ == service_metrics(service_name@, logs@),
{
    let clean = strip_ansi_codes(logs);
    let c = clean.as_str();
    if str_contains(service_name, "kaspad") {
        parse_kaspad_logs(c)
    } else if str_contains(service_name, "execution-layer") {
        parse_execution_layer_logs(c)
    } else if str_contains(service_name, "viaduct") {
        parse_viaduct_logs(c)
    } else if str_contains(service_name, "block-builder") {
        parse_block_builder_logs(c)
    } else if str_contains(service_name, "rpc-provider") {
        parse_rpc_provider_logs(c)
    } else if str_contains(service_name, "kaswallet") {
        parse_kaswallet_logs(c)
    } else if str_contains(service_name, "node-health-check") {
        parse_health_check_logs(c)
    } else if str_contains(service_name, "traefik") {
        parse_traefik_logs(c)
    } else {
        ServiceMetrics {
            status_text: None,
            primary_metric: None,
            secondary_metric: None,
            is_healthy: false,
        }
    }
}

// ---------------------------------------------------------------------------
// Lines of `docker compose logs`
// ---------------------------------------------------------------------------

/// The parts of one `docker compose logs` line.
#[derive(Debug)]
pub struct ParsedLogLine {
    /// The timestamp as written, such as "2025-10-21T08:48:40Z".
    pub timestamp: String,
    /// The compose service before the `|`.
    pub service: String,
    /// The logging module path, such as "viaduct::uni_storage".
    pub module: String,
    /// The last segment of the module path.
    pub module_short: String,
    pub level: LogLevel,
    /// The message without the prefix.
    pub message: String,
    /// The whole line.
    pub raw_line: String,
}

pub struct ParsedLogLineView {
    pub timestamp: Seq<char>,
    pub service: Seq<char>,
    pub module: Seq<char>,
    pub module_short: Seq<char>,
    pub level: LogLevel,
    pub message: Seq<char>,
    pub raw_line: Seq<char>,
}

impl View for ParsedLogLine {
    type V = ParsedLogLineView;

    open spec fn view(&self) -> ParsedLogLineView {
        ParsedLogLineView {
            timestamp: self.timestamp@,
            service: self.service@,
            module: self.module@,
            module_short: self.module_short@,
            level: self.level,
            message: self.message@,
            raw_line: self.raw_line@,
        }
    }
}

pub open spec fn kaspad_line_pattern() -> Seq<char> {
    "^(\\d{4}-\\d{2}-\\d{2}\\s+\\d{2}:\\d{2}:\\d{2}(?:\\.\\d+)?(?:[+-]\\d{2}:\\d{2})?)\\s+\\[(ERROR|WARN|INFO|DEBUG|TRACE)\\s*\\]\\s+(.*)$"@
}

pub open spec fn bracketed_line_pattern() -> Seq<char> {
    "^\\[(\\d{4}-\\d{2}-\\d{2}T\\d{2}:\\d{2}:\\d{2}(?:\\.\\d+)?Z?)\\s+(ERROR|WARN|INFO|DEBUG|TRACE)\\s+([^\\]]+)\\]\\s*(.*)$"@
}

pub open spec fn plain_line_pattern() -> Seq<char> {
    "^(\\d{2}:\\d{2}:\\d{2}(?:\\.\\d+)?)\\s+(ERROR|WARN|INFO|DEBUG|TRACE)\\s+(.+)$"@
}

pub open spec fn iso_line_pattern() -> Seq<char> {
    "^(\\d{4}-\\d{2}-\\d{2}T\\d{2}:\\d{2}:\\d{2}(?:\\.\\d+)?Z?)\\s+(ERROR|WARN|INFO|DEBUG|TRACE)\\s+(.+)$"@
}

pub open spec fn timestamp_pattern() -> Seq<char> {
    "^(\\d{4}-\\d{2}-\\d{2}[T\\s]\\d{2}:\\d{2}:\\d{2}(?:\\.\\d+)?(?:Z|[+-]\\d{2}:\\d{2})?)"@
}


/// The text, or nothing.
pub open spec fn or_empty(o: Option<Seq<char>>) -> Seq<char> {
    match o {
        Some(t) => t,
        None => Seq::empty(),
    }
}

/// Scanning `s` from `i` for non-overlapping copies of `p`, the piece after
/// the last copy found (the piece so far starting at `start`): the last item
/// of `s.split(p)`.
pub open spec fn last_piece(s: Seq<char>, p: Seq<char>, start: int, i: int) -> Seq<char>
    decreases s.len() + 1 - i,
{
    if p.len() == 0 || i < 0 || i + p.len() > s.len() {
        s.subrange(start, s.len() as int)
    } else if matches_at(s, p, i) {
        last_piece(s, p, i + p.len(), i + p.len())
    } else {
        last_piece(s, p, start, i + 1)
    }
}

/// The last `::` segment of a module path.
pub open spec fn module_short_of(mp: Seq<char>) -> Seq<char> {
    last_piece(mp, "::"@, 0, 0)
}

/// The text after a `: ` names a source file.
pub open spec fn names_source(a: Seq<char>) -> bool {
    starts_with(a, "src/"@) || starts_with(a, "/"@)
}

/// A bracketed module path without a trailing `: src/file.rs:line`.
pub open spec fn bracketed_module(mp: Seq<char>) -> Seq<char> {
    match find(mp, ": "@) {
        Some(cp) => if names_source(mp.subrange(cp + 2, mp.len() as int)) {
            trim(mp.subrange(0, cp))
        } else {
            mp
        },
        None => mp,
    }
}

/// Module path and message of `module: src/file.rs:line: message` or `module: message`.
pub open spec fn split_plain_target(rem: Seq<char>) -> (Seq<char>, Seq<char>) {
    match find(rem, ": "@) {
        Some(cp) => {
            let before = rem.subrange(0, cp);
            let after = rem.subrange(cp + 2, rem.len() as int);
            if names_source(after) {
                match find(after, ": "@) {
                    Some(mp) => (before, after.subrange(mp + 2, after.len() as int)),
                    None => (before, Seq::empty()),
                }
            } else {
                (before, after)
            }
        },
        None => (Seq::empty(), rem),
    }
}

/// Module path and message of `target: message`.
pub open spec fn split_iso_target(rem: Seq<char>) -> (Seq<char>, Seq<char>) {
    match find(rem, ": "@) {
        Some(cp) => (rem.subrange(0, cp), rem.subrange(cp + 2, rem.len() as int)),
        None => (Seq::empty(), rem),
    }
}

/// A line read with a module path and message.
pub open spec fn line_with_module(
    ts: Seq<char>,
    service: Seq<char>,
    mp: Seq<char>,
    level: Seq<char>,
    message: Seq<char>,
    raw: Seq<char>,
) -> ParsedLogLineView {
    ParsedLogLineView {
        timestamp: ts,
        service,
        module: mp,
        module_short: module_short_of(mp),
        level: level_named(level),
        message,
        raw_line: raw,
    }
}

/// The parts of the text `rest` after the `|` of a line of `service`, given
/// the searches for, in turn: the kaspad format, the bracketed Rust format,
/// the time-only format, the ISO format and a leading timestamp. The first
/// that matched decides; with none, the whole text is the message.
pub open spec fn log_line_of(
    service: Seq<char>,
    rest: Seq<char>,
    raw: Seq<char>,
    kaspad: Option<Seq<Option<Seq<char>>>>,
    bracketed: Option<Seq<Option<Seq<char>>>>,
    plain: Option<Seq<Option<Seq<char>>>>,
    iso: Option<Seq<Option<Seq<char>>>>,
    ts: Option<(Seq<char>, Seq<char>)>,
) -> ParsedLogLineView {
    match kaspad {
        Some(g) => ParsedLogLineView {
            timestamp: or_empty(group(g, 1)),
            service,
            module: Seq::empty(),
            module_short: Seq::empty(),
            level: level_named(or_empty(group(g, 2))),
            message: or_empty(group(g, 3)),
            raw_line: raw,
        },
        None => match bracketed {
            Some(g) => line_with_module(
                or_empty(group(g, 1)),
                service,
                bracketed_module(trim(or_empty(group(g, 3)))),
                or_empty(group(g, 2)),
                or_empty(group(g, 4)),
                raw,
            ),
            None => match plain {
                Some(g) => {
                    let mm = split_plain_target(trim(or_empty(group(g, 3))));
                    line_with_module(or_empty(group(g, 1)), service, mm.0, or_empty(group(g, 2)), mm.1, raw)
                },
                None => match iso {
                    Some(g) => {
                        let mm = split_iso_target(trim(or_empty(group(g, 3))));
                        line_with_module(or_empty(group(g, 1)), service, mm.0, or_empty(group(g, 2)), mm.1, raw)
                    },
                    None => match ts {
                        Some(m) => ParsedLogLineView {
                            timestamp: m.0,
                            service,
                            module: Seq::empty(),
                            module_short: Seq::empty(),
                            level: level_in(trim(m.1)),
                            message: trim(m.1),
                            raw_line: raw,
                        },
                        None => ParsedLogLineView {
                            timestamp: Seq::empty(),
                            service,
                            module: Seq::empty(),
                            module_short: Seq::empty(),
                            level: level_in(rest),
                            message: rest,
                            raw_line: raw,
                        },
                    },
                },
            },
        },
    }
}

/// The parts of a `docker compose logs` line: the service before the first
/// `|`, and the text after it (trimmed, colour codes removed) read by
/// `log_line_of`. A line without `|` is all message.
pub open spec fn parse_log_line(line: Seq<char>) -> ParsedLogLineView {
    let pipe = find_char_from(line, '|', 0);
    if pipe < line.len() {
        let service = trim(line.subrange(0, pipe));
        let rest = strip_ansi(trim(line.subrange(pipe + 1, line.len() as int)));
        log_line_of(
            service,
            rest,
            line,
            regex_captures_of(kaspad_line_pattern(), rest),
            regex_captures_of(bracketed_line_pattern(), rest),
            regex_captures_of(plain_line_pattern(), rest),
            regex_captures_of(iso_line_pattern(), rest),
            regex_find_of(timestamp_pattern(), rest),
        )
    } else {
        ParsedLogLineView {
            timestamp: Seq::empty(),
            service: Seq::empty(),
            module: Seq::empty(),
            module_short: Seq::empty(),
            level: LogLevel::Unknown,
            message: line,
            raw_line: line,
        }
    }
}

/// The last item of `s.split(p)`.
fn last_piece_exec(s: &[char], p: &[char]) -> (r: Vec<char>)
    ensures
        r@ == last_piece(s@, p@, 0, 0),
{
    let mut start: usize = 0;
    let mut i: usize = 0;
    if p.len() == 0 {
        return slice_chars(s, 0, s.len());
    }
    while i <= s.len() && p.len() <= s.len() - i
        invariant
            p@.len() > 0,
            start <= i <= s.len(),
            last_piece(s@, p@, start as int, i as int) == last_piece(s@, p@, 0, 0),
        decreases s.len() - i,
    {
        if matches_at_exec(s, p, i) {
            i += p.len();
            start = i;
        } else {
            i += 1;
        }
    }
    slice_chars(s, start, s.len())
}

/// The first index of `": "` in `s`, with what that tells of its bounds.
fn find_colon_space(s: &[char]) -> (r: Option<usize>)
    ensures
        match r {
            Some(k) => find(s@, ": "@) == Some(k as int) && k + 2 <= s@.len(),
            None => find(s@, ": "@) is None,
        },
{
    let pat = chars_of(": ");
    let r = find_exec(s, &pat);
    proof {
        reveal_strlit(": ");
        lemma_find_from_spec(s@, pat@, 0);
    }
    r
}

fn bracketed_module_exec(mp: &[char]) -> (r: Vec<char>)
    ensures
        r@ == bracketed_module(mp@),
{
    let n = mp.len();
    match find_colon_space(mp) {
        Some(cp) => {
            let after = slice_chars(mp, cp + 2, n);
            if starts_with_exec(&after, &chars_of("src/")) || starts_with_exec(&after, &chars_of("/")) {
                let before = slice_chars(mp, 0, cp);
                trim_chars(&before)
            } else {
                slice_chars(mp, 0, mp.len())
            }
        },
        None => slice_chars(mp, 0, mp.len()),
    }
}

fn split_plain_target_exec(rem: &[char]) -> (r: (Vec<char>, Vec<char>))
    ensures
        (r.0@, r.1@) == split_plain_target(rem@),
{
    match find_colon_space(rem) {
        Some(cp) => {
            let before = slice_chars(rem, 0, cp);
            let after = slice_chars(rem, cp + 2, rem.len());
            if starts_with_exec(&after, &chars_of("src/")) || starts_with_exec(&after, &chars_of("/")) {
                match find_colon_space(&after) {
                    Some(mp) => {
                        let msg = slice_chars(&after, mp + 2, after.len());
                        (before, msg)
                    },
                    None => (before, Vec::new()),
                }
            } else {
                (before, after)
            }
        },
        None => (Vec::new(), slice_chars(rem, 0, rem.len())),
    }
}

fn split_iso_target_exec(rem: &[char]) -> (r: (Vec<char>, Vec<char>))
    ensures
        (r.0@, r.1@) == split_iso_target(rem@),
{
    match find_colon_space(rem) {
        Some(cp) => (slice_chars(rem, 0, cp), slice_chars(rem, cp + 2, rem.len())),
        None => (Vec::new(), slice_chars(rem, 0, rem.len())),
    }
}

fn line_with_module_exec(
    ts: String,
    service: String,
    mp: &[char],
    level: &str,
    message: &[char],
    raw: String,
) -> (r: ParsedLogLine)
    ensures
        r@ == line_with_module(ts@, service@, mp@, level@, message@, raw@),
{
    let short = last_piece_exec(mp, &chars_of("::"));
    ParsedLogLine {
        timestamp: ts,
        service,
        module: string_of(mp),
        module_short: string_of(&short),
        level: LogLevel::named(level),
        message: string_of(message),
        raw_line: raw,
    }
}

/// The parts of a line from the text after its `|` and the five searches
/// made on that text (see `log_line_of`).
pub fn log_line_from_matches(
    service: String,
    rest: &str,
    raw: String,
    kaspad: &Option<Vec<Option<String>>>,
    bracketed: &Option<Vec<Option<String>>>,
    plain: &Option<Vec<Option<String>>>,
    iso: &Option<Vec<Option<String>>>,
    ts: &Option<(String, String)>,
) -> (r: ParsedLogLine)
    ensures
        r@ == log_line_of(
            service@,
            rest@,
            raw@,
            opt_groups_view(*kaspad),
            opt_groups_view(*bracketed),
            opt_groups_view(*plain),
            opt_groups_view(*iso),
            match ts {
                Some(m) => Some((m.0@, m.1@)),
                None => None,
            },
        ),
{
    if let Some(g) = kaspad {
        let lv = group_or_empty(g, 2);
        return ParsedLogLine {
            timestamp: group_or_empty(g, 1),
            service,
            module: String::new(),
            module_short: String::new(),
            level: LogLevel::named(lv.as_str()),
            message: group_or_empty(g, 3),
            raw_line: raw,
        };
    }
    if let Some(g) = bracketed {
        let m3 = group_or_empty(g, 3);
        let t3 = trim_chars(&chars_of(m3.as_str()));
        let mp = bracketed_module_exec(&t3);
        let lv = group_or_empty(g, 2);
        let msg = group_or_empty(g, 4);
        return line_with_module_exec(
            group_or_empty(g, 1),
            service,
            &mp,
            lv.as_str(),
            &chars_of(msg.as_str()),
            raw,
        );
    }
    if let Some(g) = plain {
        let m3 = group_or_empty(g, 3);
        let t3 = trim_chars(&chars_of(m3.as_str()));
        let mm = split_plain_target_exec(&t3);
        let lv = group_or_empty(g, 2);
        return line_with_module_exec(group_or_empty(g, 1), service, &mm.0, lv.as_str(), &mm.1, raw);
    }
    if let Some(g) = iso {
        let m3 = group_or_empty(g, 3);
        let t3 = trim_chars(&chars_of(m3.as_str()));
        let mm = split_iso_target_exec(&t3);
        let lv = group_or_empty(g, 2);
        return line_with_module_exec(group_or_empty(g, 1), service, &mm.0, lv.as_str(), &mm.1, raw);
    }
    match ts {
        Some(m) => {
            let after = crate::text::trim_str(m.1.as_str());
            ParsedLogLine {
                timestamp: m.0.clone(),
                service,
                module: String::new(),
                module_short: String::new(),
                level: LogLevel::from_str(after.as_str()),
                message: after,
                raw_line: raw,
            }
        },
        None => ParsedLogLine {
            timestamp: String::new(),
            service,
            module: String::new(),
            module_short: String::new(),
            level: LogLevel::from_str(rest),
            message: owned(rest),
            raw_line: raw,
        },
    }
}

/// The parts of a `docker compose logs` line.
pub fn parse_docker_log_line(line: &str) -> (r: ParsedLogLine)
    ensures
        r@ == parse_log_line(line@),
{
    let raw_line = owned(line);
    let chars = chars_of(line);
    proof {
        lemma_find_char_bounds(chars@, '|', 0);
    }
    let pipe = find_char_exec(&chars, '|', 0);
    if pipe < chars.len() {
        let service = string_of(&trim_chars(&slice_chars(&chars, 0, pipe)));
        let after = string_of(&trim_chars(&slice_chars(&chars, pipe + 1, chars.len())));
        let rest = strip_ansi_codes(after.as_str());
        let r = rest.as_str();
        let kaspad = regex_captures("^(\\d{4}-\\d{2}-\\d{2}\\s+\\d{2}:\\d{2}:\\d{2}(?:\\.\\d+)?(?:[+-]\\d{2}:\\d{2})?)\\s+\\[(ERROR|WARN|INFO|DEBUG|TRACE)\\s*\\]\\s+(.*)$", r);
        let bracketed = regex_captures("^\\[(\\d{4}-\\d{2}-\\d{2}T\\d{2}:\\d{2}:\\d{2}(?:\\.\\d+)?Z?)\\s+(ERROR|WARN|INFO|DEBUG|TRACE)\\s+([^\\]]+)\\]\\s*(.*)$", r);
        let plain = regex_captures("^(\\d{2}:\\d{2}:\\d{2}(?:\\.\\d+)?)\\s+(ERROR|WARN|INFO|DEBUG|TRACE)\\s+(.+)$", r);
        let iso = regex_captures("^(\\d{4}-\\d{2}-\\d{2}T\\d{2}:\\d{2}:\\d{2}(?:\\.\\d+)?Z?)\\s+(ERROR|WARN|INFO|DEBUG|TRACE)\\s+(.+)$", r);
        let ts = regex_find("^(\\d{4}-\\d{2}-\\d{2}[T\\s]\\d{2}:\\d{2}:\\d{2}(?:\\.\\d+)?(?:Z|[+-]\\d{2}:\\d{2})?)", r);
        log_line_from_matches(service, r, raw_line, &kaspad, &bracketed, &plain, &iso, &ts)
    } else {
        ParsedLogLine {
            timestamp: String::new(),
            service: String::new(),
            module: String::new(),
            module_short: String::new(),
            level: LogLevel::Unknown,
            message: owned(line),
            raw_line,
        }
    }
}


/// `s` with its commas taken out.
pub open spec fn without_commas(s: Seq<char>) -> Seq<char>
    decreases s.len(),
{
    if s.len() == 0 {
        s
    } else if s.last() == ',' {
        without_commas(s.drop_last())
    } else {
        without_commas(s.drop_last()).push(s.last())
    }
}

proof fn lemma_without_commas_concat(a: Seq<char>, b: Seq<char>)
    ensures
        without_commas(a + b) == without_commas(a) + without_commas(b),
    decreases b.len(),
{
    if b.len() == 0 {
        assert(a + b =~= a);
        assert(without_commas(a) + without_commas(b) =~= without_commas(a));
    } else {
        lemma_without_commas_concat(a, b.drop_last());
        assert((a + b).drop_last() =~= a + b.drop_last());
        assert((a + b).last() == b.last());
        if b.last() != ',' {
            assert(without_commas(a) + without_commas(b.drop_last()).push(b.last())
                =~= (without_commas(a) + without_commas(b.drop_last())).push(b.last()));
        }
    }
}

proof fn lemma_no_commas_unchanged(s: Seq<char>)
    requires
        !s.contains(','),
    ensures
        without_commas(s) == s,
    decreases s.len(),
{
    if s.len() > 0 {
        assert(!s.drop_last().contains(',')) by {
            if s.drop_last().contains(',') {
                let i = choose|i: int| 0 <= i < s.drop_last().len() && s.drop_last()[i] == ',';
                assert(s[i] == ',');
            }
        }
        lemma_no_commas_unchanged(s.drop_last());
        assert(s[s.len() - 1] != ',');
        assert(s.drop_last().push(s.last()) =~= s);
    }
}

/// Whenever the kaswallet logs say "Finished initial sync", the summary is
/// "Synced" with "Ready" as its figure, healthy; and only then is it "Synced".
pub proof fn law_kaswallet_synced(logs: Seq<char>)
    ensures
        contains(logs, "Finished initial sync"@) ==> parse_kaswallet(logs).status == Some("Synced"@)
            && parse_kaswallet(logs).primary == Some("Ready"@) && parse_kaswallet(logs).secondary
            is None && parse_kaswallet(logs).healthy,
        parse_kaswallet(logs).status == Some("Synced"@) ==> contains(logs, "Finished initial sync"@),
{
    reveal_strlit("Synced");
    reveal_strlit("Syncing");
    reveal_strlit("Starting");
    assert("Synced"@.len() == 6);
    assert("Syncing"@.len() == 7);
    assert("Starting"@.len() == 8);
}

/// A pattern with a character that the text lacks does not occur in it.
proof fn lemma_missing_char_not_contained(s: Seq<char>, p: Seq<char>, j: int)
    requires
        0 <= j < p.len(),
        forall|k: int| 0 <= k < s.len() ==> s[k] != p[j],
    ensures
        !contains(s, p),
{
    crate::text::lemma_find_from_spec(s, p, 0);
    if let Some(k) = find(s, p) {
        assert(s.subrange(k, k + p.len())[j] == s[k + j]);
    }
}

/// The service named "kaswallet" is summarised by its wallet messages: once
/// its logs (without colour codes) say "Finished initial sync", it is
/// "Synced" with "Ready" as its figure.
pub proof fn law_kaswallet_service_synced(logs: Seq<char>)
    requires
        contains(strip_ansi(logs), "Finished initial sync"@),
    ensures
        service_metrics("kaswallet"@, logs).status == Some("Synced"@),
        service_metrics("kaswallet"@, logs).primary == Some("Ready"@),
        service_metrics("kaswallet"@, logs).healthy,
{
    let n = "kaswallet"@;
    reveal_strlit("kaswallet");
    reveal_strlit("kaspad");
    reveal_strlit("execution-layer");
    reveal_strlit("viaduct");
    reveal_strlit("block-builder");
    reveal_strlit("rpc-provider");
    assert(forall|k: int| 0 <= k < n.len() ==> n[k] != 'd');
    lemma_missing_char_not_contained(n, "kaspad"@, 5);
    assert(forall|k: int| 0 <= k < n.len() ==> n[k] != 'x');
    lemma_missing_char_not_contained(n, "execution-layer"@, 1);
    assert(forall|k: int| 0 <= k < n.len() ==> n[k] != 'v');
    lemma_missing_char_not_contained(n, "viaduct"@, 0);
    assert(forall|k: int| 0 <= k < n.len() ==> n[k] != 'b');
    lemma_missing_char_not_contained(n, "block-builder"@, 0);
    assert(forall|k: int| 0 <= k < n.len() ==> n[k] != 'r');
    lemma_missing_char_not_contained(n, "rpc-provider"@, 0);
    assert(matches_at(n, n, 0)) by {
        assert(n.subrange(0, n.len() as int) =~= n);
    }
    crate::text::lemma_find_from_spec(n, n, 0);
    assert(contains(n, "kaswallet"@));
    law_kaswallet_synced(strip_ansi(logs));
}

/// Grouping by thousands only inserts commas: taking them out gives the
/// digits back, and there is one comma for each full group of three
/// digits after the first digit.
pub proof fn law_grouping_keeps_digits(s: Seq<char>)
    requires
        !s.contains(','),
    ensures
        without_commas(grouped(s)) == s,
        s.len() > 0 ==> grouped(s).len() == s.len() + (s.len() - 1) / 3,
    decreases s.len(),
{
    if s.len() <= 3 {
        lemma_no_commas_unchanged(s);
    } else {
        let head = s.subrange(0, s.len() - 3);
        let tail = s.subrange(s.len() - 3, s.len() as int);
        assert(!head.contains(',')) by {
            if head.contains(',') {
                let i = choose|i: int| 0 <= i < head.len() && head[i] == ',';
                assert(s[i] == ',');
            }
        }
        assert(!tail.contains(',')) by {
            if tail.contains(',') {
                let i = choose|i: int| 0 <= i < tail.len() && tail[i] == ',';
                assert(s[s.len() - 3 + i] == ',');
            }
        }
        law_grouping_keeps_digits(head);
        lemma_no_commas_unchanged(tail);
        reveal_strlit(",");
        lemma_without_commas_concat(grouped(head), ","@);
        lemma_without_commas_concat(grouped(head) + ","@, tail);
        assert(without_commas(","@) =~= Seq::<char>::empty()) by {
            reveal_strlit(",");
            let c = ","@;
            assert(c.len() == 1);
            assert(c.last() == ',');
            assert(c.drop_last() =~= Seq::<char>::empty());
            assert(without_commas(c.drop_last()) =~= Seq::<char>::empty());
        }
        assert(head + tail =~= s);
    }
}
} // verus!
