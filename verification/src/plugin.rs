//! Metric plugins: what a plugin declares and which containers or system
//! services it applies to.

use vstd::prelude::*;
use crate::text::{contains, lowercase, opt_view, str_contains, str_eq, to_lower};

verus! {

/// Name and description of a plugin.
#[derive(Debug)]
pub struct PluginMeta {
    pub name: String,
    pub description: String,
}

/// How a matcher compares its value.
#[derive(Debug, Clone, Copy, PartialEq, Eq, Structural)]
pub enum MatchType {
    ImageContains,
    ImageEquals,
    NameEquals,
    NameContains,
    ServiceNameEquals,
    ServiceNameContains,
}

/// One matching rule of a plugin.
#[derive(Debug)]
pub struct ContainerMatcher {
    pub match_type: MatchType,
    pub value: String,
}

/// Where a plugin's metrics come from.
#[derive(Debug, Clone, Copy, PartialEq, Eq, Structural)]
pub enum FetcherType {
    Prometheus,
    Http,
    Logs,
    Systemd,
    SystemLogs,
}

/// How an HTTP endpoint is reached.
#[derive(Debug, Clone, Copy, PartialEq, Eq, Structural)]
pub enum FetchMethod {
    DockerExec,
    HttpDirect,
}

/// A plugin's fetcher settings.
#[derive(Debug)]
pub struct FetcherConfig {
    pub fetcher_type: FetcherType,
    pub method: Option<FetchMethod>,
    pub port: Option<u16>,
    pub path: Option<String>,
    pub log_pattern: Option<String>,
}

/// Where a metric is shown.
#[derive(Debug, Clone, Copy, PartialEq, Eq, Structural)]
pub enum DisplayPriority {
    /// In the services list, as the main figure.
    Primary,
    /// In the services list, as the second figure.
    Secondary,
    /// In the detail view only.
    Detail,
}

/// One metric that a plugin reads.
#[derive(Debug)]
pub struct MetricDefinition {
    pub name: String,
    pub prometheus_metric: Option<String>,
    pub json_path: Option<String>,
    pub regex_pattern: Option<String>,
    pub display_format: String,
    pub display_priority: DisplayPriority,
    pub category: Option<String>,
    /// Seconds between refreshes.
    pub refresh_interval_secs: u64,
    /// Seconds a value stays cached; the refresh interval when unset.
    pub cache_duration_secs: Option<u64>,
}

/// A whole plugin file.
#[derive(Debug)]
pub struct PluginConfig {
    pub plugin: PluginMeta,
    pub matchers: Vec<ContainerMatcher>,
    pub fetcher: FetcherConfig,
    pub metrics: Vec<MetricDefinition>,
}

/// The refresh interval of a metric whose file gives none, in seconds.
pub fn default_refresh_interval() -> (r: u64)
    ensures
        r == 5,
{
    5
}

impl MetricDefinition {
    /// How long a value stays cached: the cache duration when set, else the refresh interval.
    pub fn cache_duration(&self) -> (r: u64)
        ensures
            r == match self.cache_duration_secs {
                Some(d) => d,
                None => self.refresh_interval_secs,
            },
    {
        match self.cache_duration_secs {
            Some(d) => d,
            None => self.refresh_interval_secs,
        }
    }
}

/// Whether one matcher accepts a container, comparing without regard to case.
pub open spec fn matcher_accepts_container(m: ContainerMatcher, name: Seq<char>, image: Seq<char>) -> bool {
    let v = lowercase(m.value@);
    match m.match_type {
        MatchType::ImageContains => contains(lowercase(image), v),
        MatchType::ImageEquals => lowercase(image) == v,
        MatchType::NameEquals => lowercase(name) == v,
        MatchType::NameContains => contains(lowercase(name), v),
        _ => false,
    }
}

/// Whether one matcher accepts a system service, comparing without regard
/// to case; container name rules count for services too.
pub open spec fn matcher_accepts_service(m: ContainerMatcher, name: Seq<char>) -> bool {
    let v = lowercase(m.value@);
    match m.match_type {
        MatchType::NameEquals | MatchType::ServiceNameEquals => lowercase(name) == v,
        MatchType::NameContains | MatchType::ServiceNameContains => contains(lowercase(name), v),
        _ => false,
    }
}

impl PluginConfig {
    /// Whether some matcher of the plugin accepts the container.
    pub open spec fn accepts_container(&self, name: Seq<char>, image: Seq<char>) -> bool {
        exists|i: int|
            0 <= i < self.matchers@.len() && matcher_accepts_container(
                #[trigger] self.matchers@[i],
                name,
                image,
            )
    }

    /// Whether some matcher of the plugin accepts the system service.
    pub open spec fn accepts_service(&self, name: Seq<char>) -> bool {
        exists|i: int|
            0 <= i < self.matchers@.len() && matcher_accepts_service(#[trigger] self.matchers@[i], name)
    }

    /// Whether the plugin applies to the container with this name and image.
    pub fn matches_container(&self, container_name: &str, container_image: &str) -> (r: bool)
        ensures
            r == self.accepts_container(container_name@, container_image@),
    {
        let image_lower = to_lower(container_image);
        let name_lower = to_lower(container_name);
        let mut i: usize = 0;
        while i < self.matchers.len()
            invariant
                i <= self.matchers@.len(),
                image_lower@ == lowercase(container_image@),
                name_lower@ == lowercase(container_name@),
                forall|k: int|
                    0 <= k < i ==> !matcher_accepts_container(
                        #[trigger] self.matchers@[k],
                        container_name@,
                        container_image@,
                    ),
            decreases self.matchers@.len() - i,
        {
            let m = &self.matchers[i];
            let value_lower = to_lower(m.value.as_str());
            let is_match = match m.match_type {
                MatchType::ImageContains => str_contains(image_lower.as_str(), value_lower.as_str()),
                MatchType::ImageEquals => str_eq(image_lower.as_str(), value_lower.as_str()),
                MatchType::NameEquals => str_eq(name_lower.as_str(), value_lower.as_str()),
                MatchType::NameContains => str_contains(name_lower.as_str(), value_lower.as_str()),
                _ => false,
            };
            if is_match {
                return true;
            }
            i += 1;
        }
        false
    }

    /// Whether the plugin applies to the system service with this name.
    pub fn matches_service(&self, service_name: &str) -> (r: bool)
        ensures
            r == self.accepts_service(service_name@),
    {
        let name_lower = to_lower(service_name);
        let mut i: usize = 0;
        while i < self.matchers.len()
            invariant
                i <= self.matchers@.len(),
                name_lower@ == lowercase(service_name@),
                forall|k: int|
                    0 <= k < i ==> !matcher_accepts_service(#[trigger] self.matchers@[k], service_name@),
            decreases self.matchers@.len() - i,
        {
            let m = &self.matchers[i];
            let value_lower = to_lower(m.value.as_str());
            let is_match = match m.match_type {
                MatchType::NameEquals | MatchType::ServiceNameEquals => str_eq(
                    name_lower.as_str(),
                    value_lower.as_str(),
                ),
                MatchType::NameContains | MatchType::ServiceNameContains => str_contains(
                    name_lower.as_str(),
                    value_lower.as_str(),
                ),
                _ => false,
            };
            if is_match {
                return true;
            }
            i += 1;
        }
        false
    }
}

} // verus!
