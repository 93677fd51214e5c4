//! Metric fetchers and the registry that picks a plugin for a container or
//! system service and builds its fetcher.

use vstd::prelude::*;
use crate::plugin::{DisplayPriority, FetcherConfig, FetcherType, MetricDefinition, PluginConfig};
use crate::text::{concat2, ends_with, opt_view, owned, str_ends_with, string_views};
use crate::wallet::{join_path, path_join};

verus! {

/// Reads a Prometheus-style endpoint at `port` and `path`.
#[derive(Debug)]
pub struct PrometheusFetcher {
    pub port: u16,
    pub path: String,
}

impl PrometheusFetcher {
    pub fn new(port: u16, path: String) -> (r: PrometheusFetcher)
        ensures
            r.port == port,
            r.path@ == path@,
    {
        PrometheusFetcher { port, path }
    }
}

/// Runs a command inside a container and reads a number from its output.
#[derive(Debug)]
pub struct DockerExecFetcher {
    pub command: String,
    pub regex_pattern: Option<String>,
}

impl DockerExecFetcher {
    pub fn new(command: String, regex_pattern: Option<String>) -> (r: DockerExecFetcher)
        ensures
            r.command@ == command@,
            opt_view(r.regex_pattern) == opt_view(regex_pattern),
    {
        DockerExecFetcher { command, regex_pattern }
    }
}

/// Reads numbers from the last `lines` lines of a container's logs.
#[derive(Debug)]
pub struct LogsFetcher {
    pub lines: usize,
    /// One pattern for every metric, or none when each metric has its own.
    pub pattern: Option<String>,
}

impl LogsFetcher {
    pub fn new(pattern: String, lines: usize) -> (r: LogsFetcher)
        ensures
            r.lines == lines,
            opt_view(r.pattern) == Some(pattern@),
    {
        LogsFetcher { lines, pattern: Some(pattern) }
    }

    /// A fetcher whose metrics each bring their own pattern.
    pub fn new_without_pattern(lines: usize) -> (r: LogsFetcher)
        ensures
            r.lines == lines,
            r.pattern is None,
    {
        LogsFetcher { lines, pattern: None }
    }
}

/// Any of the fetchers.
#[derive(Debug)]
pub enum AnyFetcher {
    Prometheus(PrometheusFetcher),
    DockerExec(DockerExecFetcher),
    Logs(LogsFetcher),
}

/// A fetcher, as plain values.
pub enum FetcherView {
    Prometheus { port: u16, path: Seq<char> },
    DockerExec { command: Seq<char>, regex_pattern: Option<Seq<char>> },
    Logs { lines: usize, pattern: Option<Seq<char>> },
}

impl View for AnyFetcher {
    type V = FetcherView;

    open spec fn view(&self) -> FetcherView {
        match self {
            AnyFetcher::Prometheus(f) => FetcherView::Prometheus { port: f.port, path: f.path@ },
            AnyFetcher::DockerExec(f) => FetcherView::DockerExec {
                command: f.command@,
                regex_pattern: opt_view(f.regex_pattern),
            },
            AnyFetcher::Logs(f) => FetcherView::Logs { lines: f.lines, pattern: opt_view(f.pattern) },
        }
    }
}

/// Why no fetcher could be built.
#[derive(Debug, Clone, Copy, PartialEq, Eq, Structural)]
pub enum FetcherError {
    PrometheusPortMissing,
    HttpPortMissing,
    SystemServiceUnsupported,
}

impl FetcherError {
    /// The message that tells the user.
    pub fn message(&self) -> (r: &'static str)
        ensures
            r@ == match self {
                FetcherError::PrometheusPortMissing => "Prometheus fetcher requires port"@,
                FetcherError::HttpPortMissing => "HTTP fetcher requires port"@,
                FetcherError::SystemServiceUnsupported => "System service fetchers not yet implemented"@,
            },
    {
        match self {
            FetcherError::PrometheusPortMissing => "Prometheus fetcher requires port",
            FetcherError::HttpPortMissing => "HTTP fetcher requires port",
            FetcherError::SystemServiceUnsupported => "System service fetchers not yet implemented",
        }
    }
}

/// How many log lines a logs fetcher reads.
pub open spec fn log_lines() -> usize {
    100
}

/// The fetcher a plugin's settings call for: Prometheus and HTTP endpoints
/// need a port (default paths `/metrics` and `/`); logs read the last 100
/// lines with the plugin's pattern, if any; system service fetchers do not exist.
pub open spec fn fetcher_for(c: FetcherConfig) -> Result<FetcherView, FetcherError> {
    match c.fetcher_type {
        FetcherType::Prometheus => match c.port {
            Some(p) => Ok(
                FetcherView::Prometheus {
                    port: p,
                    path: match opt_view(c.path) {
                        Some(x) => x,
                        None => "/metrics"@,
                    },
                },
            ),
            None => Err(FetcherError::PrometheusPortMissing),
        },
        FetcherType::Http => match c.port {
            Some(p) => Ok(
                FetcherView::Prometheus {
                    port: p,
                    path: match opt_view(c.path) {
                        Some(x) => x,
                        None => "/"@,
                    },
                },
            ),
            None => Err(FetcherError::HttpPortMissing),
        },
        FetcherType::Logs => Ok(FetcherView::Logs { lines: log_lines(), pattern: opt_view(c.log_pattern) }),
        _ => Err(FetcherError::SystemServiceUnsupported),
    }
}

/// The loaded plugins.
#[derive(Debug)]
pub struct PluginRegistry {
    pub plugins: Vec<PluginConfig>,
}

impl PluginRegistry {
    /// A registry without plugins.
    pub fn new() -> (r: PluginRegistry)
        ensures
            r.plugins@.len() == 0,
    {
        PluginRegistry { plugins: Vec::new() }
    }

    /// The first plugin that applies to the container.
    pub fn find_plugin(&self, container_name: &str, container_image: &str) -> (r: Option<
        &PluginConfig,
    >)
        ensures
            r is Some <==> exists|i: int|
                0 <= i < self.plugins@.len() && (#[trigger] self.plugins@[i]).accepts_container(
                    container_name@,
                    container_image@,
                ),
            r matches Some(p) ==> exists|i: int|
                0 <= i < self.plugins@.len() && self.plugins@[i] == *p && p.accepts_container(
                    container_name@,
                    container_image@,
                ) && forall|j: int|
                    0 <= j < i ==> !(#[trigger] self.plugins@[j]).accepts_container(
                        container_name@,
                        container_image@,
                    ),
    {
        let mut i: usize = 0;
        while i < self.plugins.len()
            invariant
                i <= self.plugins@.len(),
                forall|j: int|
                    0 <= j < i ==> !(#[trigger] self.plugins@[j]).accepts_container(
                        container_name@,
                        container_image@,
                    ),
            decreases self.plugins@.len() - i,
        {
            if self.plugins[i].matches_container(container_name, container_image) {
                return Some(&self.plugins[i]);
            }
            i += 1;
        }
        None
    }

    /// The first plugin that applies to the system service.
    pub fn find_service_plugin(&self, service_name: &str) -> (r: Option<&PluginConfig>)
        ensures
            r is Some <==> exists|i: int|
                0 <= i < self.plugins@.len() && (#[trigger] self.plugins@[i]).accepts_service(
                    service_name@,
                ),
            r matches Some(p) ==> exists|i: int|
                0 <= i < self.plugins@.len() && self.plugins@[i] == *p && p.accepts_service(
                    service_name@,
                ) && forall|j: int|
                    0 <= j < i ==> !(#[trigger] self.plugins@[j]).accepts_service(service_name@),
    {
        let mut i: usize = 0;
        while i < self.plugins.len()
            invariant
                i <= self.plugins@.len(),
                forall|j: int|
                    0 <= j < i ==> !(#[trigger] self.plugins@[j]).accepts_service(service_name@),
            decreases self.plugins@.len() - i,
        {
            if self.plugins[i].matches_service(service_name) {
                return Some(&self.plugins[i]);
            }
            i += 1;
        }
        None
    }

    /// The fetcher that a plugin's settings call for.
    pub fn create_fetcher(&self, config: &FetcherConfig) -> (r: Result<AnyFetcher, FetcherError>)
        ensures
            match r {
                Ok(f) => fetcher_for(*config) == Ok::<FetcherView, FetcherError>(f@),
                Err(e) => fetcher_for(*config) == Err::<FetcherView, FetcherError>(e),
            },
    {
        match config.fetcher_type {
            FetcherType::Prometheus => match config.port {
                Some(port) => {
                    let path = match &config.path {
                        Some(p) => p.clone(),
                        None => owned("/metrics"),
                    };
                    Ok(AnyFetcher::Prometheus(PrometheusFetcher::new(port, path)))
                },
                None => Err(FetcherError::PrometheusPortMissing),
            },
            FetcherType::Http => match config.port {
                Some(port) => {
                    let path = match &config.path {
                        Some(p) => p.clone(),
                        None => owned("/"),
                    };
                    Ok(AnyFetcher::Prometheus(PrometheusFetcher::new(port, path)))
                },
                None => Err(FetcherError::HttpPortMissing),
            },
            FetcherType::Logs => {
                let lines: usize = 100;
                match &config.log_pattern {
                    Some(p) => Ok(AnyFetcher::Logs(LogsFetcher::new(p.clone(), lines))),
                    None => Ok(AnyFetcher::Logs(LogsFetcher::new_without_pattern(lines))),
                }
            },
            _ => Err(FetcherError::SystemServiceUnsupported),
        }
    }
}

/// Where one metric's value is read from.
#[derive(Debug)]
pub enum MetricSource {
    /// A named metric of the plugin's Prometheus endpoint.
    Prometheus(String),
    /// The first capture of a pattern in the fetched logs.
    Pattern(String),
    /// Nowhere: the metric has neither.
    Nothing,
}

/// A metric's source: its Prometheus name when it has one, else its pattern.
pub fn metric_source(def: &MetricDefinition) -> (r: MetricSource)
    ensures
        match def.prometheus_metric {
            Some(m) => r matches MetricSource::Prometheus(x) && x@ == m@,
            None => match def.regex_pattern {
                Some(p) => r matches MetricSource::Pattern(x) && x@ == p@,
                None => r is Nothing,
            },
        },
{
    match &def.prometheus_metric {
        Some(m) => MetricSource::Prometheus(m.clone()),
        None => match &def.regex_pattern {
            Some(p) => MetricSource::Pattern(p.clone()),
            None => MetricSource::Nothing,
        },
    }
}

/// Whether a metric appears in the services list (primary or secondary figure).
pub fn shown_in_list(p: DisplayPriority) -> (r: bool)
    ensures
        r == (p == DisplayPriority::Primary || p == DisplayPriority::Secondary),
{
    match p {
        DisplayPriority::Primary => true,
        DisplayPriority::Secondary => true,
        DisplayPriority::Detail => false,
    }
}

/// Nanoseconds from `fetched` to `now` on a monotonic clock; zero when `now`
/// is earlier.
pub open spec fn elapsed_nanos(fetched: u64, now: u64) -> int {
    if now >= fetched {
        now - fetched
    } else {
        0
    }
}

/// Whether a value fetched at `fetched_at_nanos` is still fresh at
/// `now_nanos` for a cache duration of `duration_secs` seconds.
pub fn cache_fresh(fetched_at_nanos: u64, now_nanos: u64, duration_secs: u64) -> (r: bool)
    ensures
        r == (elapsed_nanos(fetched_at_nanos, now_nanos) < duration_secs * 1_000_000_000),
{
    let elapsed: u64 = if now_nanos >= fetched_at_nanos {
        now_nanos - fetched_at_nanos
    } else {
        0
    };
    let limit: u128 = (duration_secs as u128) * 1_000_000_000u128;
    (elapsed as u128) < limit
}

/// The systemd unit of a service: the name itself when it ends in
/// `.service`, else the name with `.service` added.
pub fn service_unit_name(service_name: &str) -> (r: String)
    ensures
        r@ == if ends_with(service_name@, ".service"@) {
            service_name@
        } else {
            service_name@ + ".service"@
        },
{
    if str_ends_with(service_name, ".service") {
        owned(service_name)
    } else {
        concat2(service_name, ".service")
    }
}

/// Among the first `n` metrics, the formatted value of the last one with
/// priority `p` that has a value.
pub open spec fn last_figure(
    metrics: Seq<MetricDefinition>,
    values: Seq<Option<String>>,
    p: DisplayPriority,
    n: int,
) -> Option<Seq<char>>
    decreases n,
{
    if n <= 0 {
        None
    } else if metrics[n - 1].display_priority == p && values[n - 1] is Some {
        Some(values[n - 1]->0@)
    } else {
        last_figure(metrics, values, p, n - 1)
    }
}

/// The two figures of a container in the services list, from the formatted
/// value of each metric of its plugin (`None` where none was had): the last
/// primary metric with a value, and the last secondary one.
pub fn condensed_figures(metrics: &Vec<MetricDefinition>, values: &Vec<Option<String>>) -> (r: (
    Option<String>,
    Option<String>,
))
    requires
        metrics@.len() == values@.len(),
    ensures
        opt_view(r.0) == last_figure(metrics@, values@, DisplayPriority::Primary, metrics@.len() as int),
        opt_view(r.1) == last_figure(metrics@, values@, DisplayPriority::Secondary, metrics@.len() as int),
{
    let mut primary: Option<String> = None;
    let mut secondary: Option<String> = None;
    let mut i: usize = 0;
    while i < metrics.len()
        invariant
            i <= metrics@.len(),
            metrics@.len() == values@.len(),
            opt_view(primary) == last_figure(metrics@, values@, DisplayPriority::Primary, i as int),
            opt_view(secondary) == last_figure(metrics@, values@, DisplayPriority::Secondary, i as int),
        decreases metrics@.len() - i,
    {
        match &values[i] {
            Some(f) => match metrics[i].display_priority {
                DisplayPriority::Primary => {
                    primary = Some(f.clone());
                },
                DisplayPriority::Secondary => {
                    secondary = Some(f.clone());
                },
                DisplayPriority::Detail => {},
            },
            None => {},
        }
        i += 1;
    }
    (primary, secondary)
}

/// Where plugins are looked for, in order, and the user's own plugin
/// directory (where the bundled plugins go when none is found).
#[derive(Debug)]
pub struct PluginSearch {
    pub paths: Vec<String>,
    pub user_path: Option<String>,
}

/// The user's plugin directory: `igra-cli/plugins` under the configuration
/// directory, else under `$HOME/.config`.
pub open spec fn user_plugin_dir_of(config_dir: Option<Seq<char>>, home: Option<Seq<char>>) -> Option<Seq<char>> {
    match config_dir {
        Some(c) => Some(path_join(path_join(c, "igra-cli"@), "plugins"@)),
        None => match home {
            Some(h) => Some(h + "/.config/igra-cli/plugins"@),
            None => None,
        },
    }
}

/// The plugin directories, in the order they are tried: the one under the
/// configuration directory (where it is known), the system one, and
/// `./plugins`.
pub open spec fn plugin_search_paths_of(config_dir: Option<Seq<char>>) -> Seq<Seq<char>> {
    (match config_dir {
        Some(c) => seq![path_join(path_join(c, "igra-cli"@), "plugins"@)],
        None => Seq::empty(),
    }) + seq!["/etc/igra-cli/plugins"@, "./plugins"@]
}

/// The plugin directories to try, from the user's configuration directory
/// and home directory where they are known.
pub fn plugin_search_paths(config_dir: Option<&str>, home: Option<&str>) -> (r: PluginSearch)
    ensures
        string_views(r.paths@) == plugin_search_paths_of(opt_str_view(config_dir)),
        opt_view(r.user_path) == user_plugin_dir_of(opt_str_view(config_dir), opt_str_view(home)),
{
    let mut paths: Vec<String> = Vec::new();
    let user_path = match config_dir {
        Some(c) => {
            let base = join_path(c, "igra-cli");
            let p = join_path(base.as_str(), "plugins");
            paths.push(p.clone());
            Some(p)
        },
        None => match home {
            Some(h) => Some(concat2(h, "/.config/igra-cli/plugins")),
            None => None,
        },
    };
    paths.push(owned("/etc/igra-cli/plugins"));
    paths.push(owned("./plugins"));
    proof {
        assert(string_views(paths@) =~= plugin_search_paths_of(opt_str_view(config_dir)));
    }
    PluginSearch { paths, user_path }
}

/// The text of an optional string slice.
pub open spec fn opt_str_view(o: Option<&str>) -> Option<Seq<char>> {
    match o {
        Some(s) => Some(s@),
        None => None,
    }
}

} // verus!
