//! Disk and Docker storage: the history of usage measurements, and the log
//! rotation settings of the node's containers.

use vstd::prelude::*;
use crate::docker::{
    entry_with_key, get, int_text, int_to_string, is_key, key_pos, key_position, lemma_entry_at_key_pos,
    lemma_key_pos_from, yaml_get, yaml_str, YamlValue,
};
use crate::strmap::StrMap;
use crate::text::{chars_of, concat3, contains, owned, starts_with, str_contains, str_starts_with};

verus! {

/// Usage of one Docker storage category (images, containers, build cache).
#[derive(Debug, Clone, Copy, PartialEq, Eq)]
pub struct DockerStorageInfo {
    pub total_bytes: u64,
    pub reclaimable_bytes: u64,
    pub active_count: usize,
    pub total_count: usize,
}

/// One Docker volume and its size.
#[derive(Debug, Clone)]
pub struct VolumeUsage {
    pub name: String,
    pub size_bytes: u64,
    pub mount_point: String,
    pub in_use: bool,
    /// Volumes holding chain data, which must not be pruned.
    pub critical: bool,
}

/// One container's JSON log file.
#[derive(Debug, Clone)]
pub struct ContainerLogInfo {
    pub container_id: String,
    pub container_name: String,
    pub log_size_bytes: u64,
    pub log_path: String,
}

/// Which way disk usage is heading.
#[derive(Debug, Clone, Copy, PartialEq, Eq)]
pub enum GrowthTrend {
    Growing,
    Stable,
    Declining,
}

/// A volume is critical when its name mentions the chain-data volume.
pub open spec fn is_critical_volume(name: Seq<char>) -> bool {
    contains(name, "viaduct"@) || contains(name, "viaduct_data"@)
}

/// Describes a volume, marking the critical ones.
pub fn volume_usage(name: String, size_bytes: u64, mount_point: String, in_use: bool) -> (r: VolumeUsage)
    ensures
        r.name@ == name@,
        r.size_bytes == size_bytes,
        r.mount_point@ == mount_point@,
        r.in_use == in_use,
        r.critical == is_critical_volume(name@),
{
    let critical = str_contains(name.as_str(), "viaduct") || str_contains(name.as_str(), "viaduct_data");
    VolumeUsage { name, size_bytes, mount_point, in_use, critical }
}

/// Where Docker keeps the JSON log of a container.
pub open spec fn log_path_of(id: Seq<char>) -> Seq<char> {
    "/var/lib/docker/containers/"@ + id + "/"@ + id + "-json.log"@
}

/// The path of a container's JSON log file.
pub fn container_log_path(container_id: &str) -> (r: String)
    ensures
        r@ == log_path_of(container_id@),
{
    let mut path: Vec<char> = Vec::new();
    crate::text::push_str(&mut path, "/var/lib/docker/containers/");
    crate::text::push_str(&mut path, container_id);
    crate::text::push_str(&mut path, "/");
    crate::text::push_str(&mut path, container_id);
    crate::text::push_str(&mut path, "-json.log");
    proof {
        assert(path@ =~= log_path_of(container_id@));
    }
    crate::text::string_of(&path)
}

/// The name shown for a container: its first name without leading
/// slashes, or `unknown`.
pub open spec fn container_name_of(names: Option<Seq<Seq<char>>>) -> Seq<char> {
    match names {
        Some(ns) if ns.len() > 0 => crate::text::trim_start_matches(ns[0], "/"@),
        _ => "unknown"@,
    }
}

/// The name shown for a container that Docker lists with `names`.
pub fn container_display_name(names: &Option<Vec<String>>) -> (r: String)
    ensures
        r@ == container_name_of(match *names {
            Some(v) => Some(crate::text::string_views(v@)),
            None => None,
        }),
{
    match names {
        Some(v) => {
            if v.len() > 0 {
                let t = crate::text::trim_start_matches_exec(&chars_of(v[0].as_str()), &chars_of("/"));
                crate::text::string_of(&t)
            } else {
                owned("unknown")
            }
        },
        None => owned("unknown"),
    }
}

/// Describes a container's log file from what Docker reports of the
/// container and the size of the file.
pub fn container_log_info(container_id: String, names: Option<Vec<String>>, log_size_bytes: u64) -> (r: ContainerLogInfo)
    ensures
        r.container_id@ == container_id@,
        r.container_name@ == container_name_of(match names {
            Some(v) => Some(crate::text::string_views(v@)),
            None => None,
        }),
        r.log_size_bytes == log_size_bytes,
        r.log_path@ == log_path_of(container_id@),
{
    let container_name = container_display_name(&names);
    let log_path = container_log_path(container_id.as_str());
    ContainerLogInfo { container_id, container_name, log_size_bytes, log_path }
}


// ---------------------------------------------------------------------------
// Usage history
// ---------------------------------------------------------------------------

/// Nanoseconds in a second.
pub const NANOS_PER_SEC: i128 = 1_000_000_000i128;

/// One snapshot of disk usage. The time is a UTC instant: whole seconds
/// since the Unix epoch (rounded down) and the nanoseconds past them.
#[derive(Debug, Clone, Copy, PartialEq, Eq)]
pub struct StorageMeasurement {
    pub timestamp_secs: i64,
    pub timestamp_nanos: u32,
    pub total_used_bytes: u64,
    pub docker_volumes_bytes: u64,
    pub docker_images_bytes: u64,
}

impl StorageMeasurement {
    /// The nanoseconds part is below one second.
    pub open spec fn wf(self) -> bool {
        self.timestamp_nanos < 1_000_000_000
    }

    /// The instant, in nanoseconds since the epoch.
    pub open spec fn instant(self) -> int {
        self.timestamp_secs * 1_000_000_000 + self.timestamp_nanos
    }

    fn instant_exec(&self) -> (r: i128)
        ensures
            r == self.instant(),
    {
        (self.timestamp_secs as i128) * NANOS_PER_SEC + (self.timestamp_nanos as i128)
    }
}

/// Integer division rounding toward zero, as Rust's `/` does.
pub open spec fn div_trunc(a: int, b: int) -> int {
    if a >= 0 {
        a / b
    } else {
        -((-a) / b)
    }
}

/// The time bucket of a measurement: whole hours since the epoch, divided
/// into spans of `interval_hours`.
pub open spec fn bucket_of(m: StorageMeasurement, interval_hours: int) -> int {
    div_trunc(div_trunc(m.timestamp_secs as int, 3600), interval_hours)
}

/// The measurements that downsampling keeps: each one whose bucket differs
/// from that of the measurement just before it (so the first one always).
pub open spec fn downsampled(s: Seq<StorageMeasurement>, interval_hours: int) -> Seq<StorageMeasurement>
    decreases s.len(),
{
    if s.len() == 0 {
        s
    } else {
        let kept = downsampled(s.drop_last(), interval_hours);
        if s.len() == 1 || bucket_of(s.last(), interval_hours) != bucket_of(s[s.len() - 2], interval_hours) {
            kept.push(s.last())
        } else {
            kept
        }
    }
}

/// Whole hours between the first and the last measurement, rounded toward
/// zero.
pub open spec fn span_hours(s: Seq<StorageMeasurement>) -> int {
    div_trunc(s.last().instant() - s[0].instant(), 3_600_000_000_000)
}

/// Whole hours from the instant `then_nanos` (nanoseconds since the epoch)
/// to `now_micros` (microseconds since the epoch), rounded toward zero.
pub open spec fn hours_since(then_nanos: int, now_micros: int) -> int {
    div_trunc(now_micros * 1000 - then_nanos, 3_600_000_000_000)
}

/// How many measurements one per `interval_hours` would give over the span.
pub open spec fn expected_count(s: Seq<StorageMeasurement>, interval_hours: int) -> int {
    div_trunc(span_hours(s), interval_hours) + 1
}

/// Nanoseconds in `days` days.
pub open spec fn days_nanos(days: int) -> int {
    days * 86_400 * 1_000_000_000
}

/// The instant `days` days before `now_micros` (microseconds since the
/// epoch), in nanoseconds since the epoch.
pub open spec fn cutoff_nanos(now_micros: int, days: int) -> int {
    now_micros * 1000 - days_nanos(days)
}

/// The measurements taken after `cutoff` (nanoseconds since the epoch), in
/// their order.
pub open spec fn taken_after(s: Seq<StorageMeasurement>, cutoff: int) -> Seq<StorageMeasurement> {
    s.filter(|m: StorageMeasurement| m.instant() > cutoff)
}

/// The history of disk usage measurements, oldest first.
#[derive(Debug, Clone)]
pub struct StorageHistory {
    pub measurements: Vec<StorageMeasurement>,
}

impl StorageHistory {
    /// Every measurement has a valid nanoseconds part.
    pub open spec fn wf(&self) -> bool {
        forall|i: int| 0 <= i < self.measurements@.len() ==> #[trigger] self.measurements@[i].wf()
    }

    /// An empty history.
    pub fn new() -> (r: StorageHistory)
        ensures
            r.measurements@ == Seq::<StorageMeasurement>::empty(),
    {
        StorageHistory { measurements: Vec::new() }
    }

    /// Appends a measurement, then keeps only those of the last 90 days
    /// before `now_micros`.
    pub fn add_measurement_at(&mut self, measurement: StorageMeasurement, now_micros: i64)
        ensures
            final(self).measurements@ == taken_after(
                old(self).measurements@.push(measurement),
                cutoff_nanos(now_micros as int, 90),
            ),
    {
        self.measurements.push(measurement);
        let cutoff: i128 = (now_micros as i128) * 1000i128 - 90i128 * 86_400i128 * NANOS_PER_SEC;
        let ghost all = self.measurements@;
        let mut kept: Vec<StorageMeasurement> = Vec::new();
        let mut i: usize = 0;
        while i < self.measurements.len()
            invariant
                i <= all.len(),
                self.measurements@ == all,
                cutoff == cutoff_nanos(now_micros as int, 90),
                kept@ == taken_after(all.take(i as int), cutoff as int),
            decreases all.len() - i,
        {
            let m = self.measurements[i];
            proof {
                assert(all.take(i + 1).drop_last() == all.take(i as int));
                assert(all.take(i + 1).last() == m);
                reveal(Seq::filter);
            }
            if m.instant_exec() > cutoff {
                kept.push(m);
            }
            i += 1;
        }
        proof {
            assert(all.take(all.len() as int) == all);
        }
        self.measurements = kept;
    }

    /// Appends a measurement taken now and drops those older than 90 days.
    pub fn add_measurement(&mut self, measurement: StorageMeasurement)
        ensures
            exists|now: i64| final(self).measurements@ == #[trigger] taken_after(
                old(self).measurements@.push(measurement),
                cutoff_nanos(now as int, 90),
            ),
    {
        let now = crate::audit::now_micros();
        self.add_measurement_at(measurement, now);
    }

    /// The measurements of the last `days` days before `now_micros`.
    pub fn get_last_n_days_at(&self, days: u32, now_micros: i64) -> (r: Vec<StorageMeasurement>)
        ensures
            r@ == taken_after(self.measurements@, cutoff_nanos(now_micros as int, days as int)),
    {
        let cutoff: i128 = (now_micros as i128) * 1000i128 - (days as i128) * 86_400i128 * NANOS_PER_SEC;
        let mut out: Vec<StorageMeasurement> = Vec::new();
        let mut i: usize = 0;
        while i < self.measurements.len()
            invariant
                i <= self.measurements@.len(),
                cutoff == cutoff_nanos(now_micros as int, days as int),
                out@ == taken_after(self.measurements@.take(i as int), cutoff as int),
            decreases self.measurements@.len() - i,
        {
            let m = self.measurements[i];
            proof {
                assert(self.measurements@.take(i + 1).drop_last() == self.measurements@.take(i as int));
                reveal(Seq::filter);
            }
            if m.instant_exec() > cutoff {
                out.push(m);
            }
            i += 1;
        }
        proof {
            assert(self.measurements@.take(self.measurements@.len() as int) == self.measurements@);
        }
        out
    }

    /// The measurements of the last `days` days.
    pub fn get_last_n_days(&self, days: u32) -> (r: Vec<StorageMeasurement>)
        ensures
            exists|now: i64| r@ == #[trigger] taken_after(self.measurements@, cutoff_nanos(now as int, days as int)),
    {
        let now = crate::audit::now_micros();
        self.get_last_n_days_at(days, now)
    }
}


/// A quotient is no larger in size than a non-negative dividend.
proof fn lemma_div_bound(x: int, y: int)
    requires
        y != 0,
        x >= 0,
    ensures
        -x <= x / y <= x,
        y > 0 ==> x / y >= 0,
{
    assert(-x <= x / y <= x) by (nonlinear_arith)
        requires
            x >= 0,
            y != 0,
    ;
    assert(y > 0 ==> x / y >= 0) by (nonlinear_arith)
        requires
            x >= 0,
            y != 0,
    ;
}

/// An instant lies within 2^94 nanoseconds of the epoch.
proof fn lemma_instant_bound(m: StorageMeasurement)
    ensures
        -0x4000_0000_0000_0000_0000_0000 < m.instant() < 0x4000_0000_0000_0000_0000_0000,
{
    let s = m.timestamp_secs as int;
    let n = m.timestamp_nanos as int;
    assert(-0x4000_0000_0000_0000_0000_0000 < s * 1_000_000_000 + n < 0x4000_0000_0000_0000_0000_0000)
        by (nonlinear_arith)
        requires
            -0x8000_0000_0000_0000 <= s < 0x8000_0000_0000_0000,
            0 <= n < 0x1_0000_0000,
    ;
}

/// `a / b` on `i64`, rounding toward zero.
fn div_i64(a: i64, b: i64) -> (r: i64)
    requires
        b != 0,
        a > i64::MIN || b > 0,
    ensures
        r == div_trunc(a as int, b as int),
{
    proof {
        if a >= 0 {
            lemma_div_bound(a as int, b as int);
        } else {
            lemma_div_bound(-a, b as int);
        }
    }
    a / b
}

/// `a / b` on `i128`, rounding toward zero.
pub(crate) fn div_i128(a: i128, b: i128) -> (r: i128)
    requires
        b != 0,
        a > i128::MIN,
    ensures
        r == div_trunc(a as int, b as int),
{
    proof {
        if a >= 0 {
            lemma_div_bound(a as int, b as int);
        } else {
            lemma_div_bound(-a, b as int);
        }
    }
    a / b
}

impl StorageHistory {
    /// Keeps the first measurement of each run that falls in one bucket of
    /// `interval_hours` hours.
    pub fn downsample_to_interval(&mut self, interval_hours: i64)
        requires
            interval_hours != 0,
        ensures
            final(self).measurements@ == downsampled(old(self).measurements@, interval_hours as int),
    {
        if self.measurements.len() == 0 {
            return;
        }
        let ghost all = self.measurements@;
        let mut out: Vec<StorageMeasurement> = Vec::new();
        let mut current: Option<i64> = None;
        let mut i: usize = 0;
        while i < self.measurements.len()
            invariant
                i <= all.len(),
                self.measurements@ == all,
                interval_hours != 0,
                out@ == downsampled(all.take(i as int), interval_hours as int),
                i == 0 ==> current is None,
                i > 0 ==> current == Some(bucket_of(all[i - 1], interval_hours as int) as i64),
                i > 0 ==> i64::MIN <= bucket_of(all[i - 1], interval_hours as int) <= i64::MAX,
            decreases all.len() - i,
        {
            let m = self.measurements[i];
            let hours = div_i64(m.timestamp_secs, 3600);
            let bucket = div_i64(hours, interval_hours);
            proof {
                let t = all.take(i + 1);
                assert(t.drop_last() == all.take(i as int));
                assert(t.last() == m);
                if i > 0 {
                    assert(t[t.len() - 2] == all[i - 1]);
                }
            }
            let keep = match current {
                Some(c) => c != bucket,
                None => true,
            };
            if keep {
                out.push(m);
                current = Some(bucket);
            }
            i += 1;
        }
        proof {
            assert(all.take(all.len() as int) == all);
        }
        self.measurements = out;
    }

    /// Whether a new snapshot is due at `now_micros` (microseconds since the
    /// epoch): there is none yet, or the last one is at least
    /// `interval_hours` whole hours old.
    pub fn snapshot_due_at(&self, interval_hours: i64, now_micros: i64) -> (r: bool)
        ensures
            r == (self.measurements@.len() == 0 || hours_since(
                self.measurements@.last().instant(),
                now_micros as int,
            ) >= interval_hours),
    {
        let n = self.measurements.len();
        if n == 0 {
            return true;
        }
        let last = self.measurements[n - 1];
        proof {
            lemma_instant_bound(last);
        }
        let elapsed: i128 = (now_micros as i128) * 1000i128 - last.instant_exec();
        let hours: i128 = div_i128(elapsed, 3_600_000_000_000i128);
        hours >= interval_hours as i128
    }

    /// Whether the history holds more than twice the measurements that one
    /// per `interval_hours` would give over its span.
    pub fn needs_downsampling(&self, interval_hours: i64) -> (r: bool)
        requires
            interval_hours != 0,
        ensures
            r == (self.measurements@.len() >= 2 && self.measurements@.len() > (
            expected_count(self.measurements@, interval_hours as int) * 2) as usize),
    {
        let n = self.measurements.len();
        if n < 2 {
            return false;
        }
        let first = self.measurements[0];
        let last = self.measurements[n - 1];
        let a = first.instant_exec();
        let b = last.instant_exec();
        proof {
            lemma_instant_bound(first);
            lemma_instant_bound(last);
        }
        let diff: i128 = b - a;
        let hours: i128 = div_i128(diff, 3_600_000_000_000i128);
        proof {
            if diff >= 0 {
                lemma_div_bound(diff as int, 3_600_000_000_000);
            } else {
                lemma_div_bound(-diff, 3_600_000_000_000);
            }
        }
        let q = div_i128(hours, interval_hours as i128);
        proof {
            if hours >= 0 {
                lemma_div_bound(hours as int, interval_hours as int);
            } else {
                lemma_div_bound(-hours, interval_hours as int);
            }
        }
        let expected: i128 = q + 1;
        n > (expected * 2) as usize
    }
}

// ---------------------------------------------------------------------------
// Log rotation
// ---------------------------------------------------------------------------

/// How Docker rotates a container's log: the driver, the size at which a
/// file is rotated, and how many files are kept.
#[derive(Debug, Clone)]
pub struct LogRotationSettings {
    pub driver: String,
    pub max_size: String,
    pub max_file: String,
}

/// The text of each setting.
pub struct RotationView {
    pub driver: Seq<char>,
    pub max_size: Seq<char>,
    pub max_file: Seq<char>,
}

impl View for LogRotationSettings {
    type V = RotationView;

    open spec fn view(&self) -> RotationView {
        RotationView { driver: self.driver@, max_size: self.max_size@, max_file: self.max_file@ }
    }
}

impl LogRotationSettings {
    /// A copy with the same text.
    pub fn duplicate(&self) -> (r: LogRotationSettings)
        ensures
            r@ == self@,
    {
        LogRotationSettings {
            driver: self.driver.clone(),
            max_size: self.max_size.clone(),
            max_file: self.max_file.clone(),
        }
    }
}

/// The global settings and the containers that override them.
#[derive(Debug)]
pub struct LogRotationConfig {
    pub global: LogRotationSettings,
    pub overrides: StrMap<LogRotationSettings>,
}

/// A value, or a default where it is absent.
pub open spec fn or_default(v: Option<Seq<char>>, d: Seq<char>) -> Seq<char> {
    match v {
        Some(x) => x,
        None => d,
    }
}

/// The global settings from the `LOGGING_DRIVER`, `LOG_MAX_SIZE` and
/// `LOG_MAX_FILE` variables: `json-file`, `100m` and `3` where unset.
pub open spec fn global_rotation_of(driver: Option<Seq<char>>, max_size: Option<Seq<char>>, max_file: Option<Seq<char>>) -> RotationView {
    RotationView {
        driver: or_default(driver, "json-file"@),
        max_size: or_default(max_size, "100m"@),
        max_file: or_default(max_file, "3"@),
    }
}

/// The `max-file` option: a string as written, an integer in decimal, `3`
/// otherwise.
pub open spec fn max_file_of(v: Option<YamlValue>) -> Seq<char> {
    match v {
        Some(YamlValue::Str(s)) => s@,
        Some(YamlValue::Int(i)) => int_text(i),
        _ => "3"@,
    }
}

/// The rotation a compose service declares under `logging`, where it is a
/// mapping with an `options` mapping.
pub open spec fn override_of(service: YamlValue) -> Option<RotationView> {
    match yaml_get(service, "logging"@) {
        Some(logging) => match logging {
            YamlValue::Mapping(_) => match yaml_get(logging, "options"@) {
                Some(opts) => match opts {
                    YamlValue::Mapping(_) => Some(RotationView {
                        driver: or_default(yaml_str(yaml_get(logging, "driver"@)), "json-file"@),
                        max_size: or_default(yaml_str(yaml_get(opts, "max-size"@)), "100m"@),
                        max_file: max_file_of(yaml_get(opts, "max-file"@)),
                    }),
                    _ => None,
                },
                None => None,
            },
            _ => None,
        },
        None => None,
    }
}

/// The overrides of a compose mapping's entries, by service name (an empty
/// name where it is not a string); a later entry of a name wins.
pub open spec fn overrides_from(entries: Seq<(YamlValue, YamlValue)>) -> Map<Seq<char>, RotationView>
    decreases entries.len(),
{
    if entries.len() == 0 {
        Map::empty()
    } else {
        let m = overrides_from(entries.drop_last());
        let name = match entries.last().0 {
            YamlValue::Str(s) => s@,
            _ => Seq::empty(),
        };
        match override_of(entries.last().1) {
            Some(o) => m.insert(name, o),
            None => m,
        }
    }
}

/// The per-service overrides that a compose document declares.
pub open spec fn overrides_of(doc: YamlValue) -> Map<Seq<char>, RotationView> {
    match yaml_get(doc, "services"@) {
        Some(YamlValue::Mapping(entries)) => overrides_from(entries@),
        _ => Map::empty(),
    }
}

fn str_or(v: Option<String>, d: &str) -> (r: String)
    ensures
        r@ == or_default(crate::text::opt_view(v), d@),
{
    match v {
        Some(x) => x,
        None => owned(d),
    }
}

/// The rotation one compose service declares, if it has its own.
pub fn service_override(service: &YamlValue) -> (r: Option<LogRotationSettings>)
    ensures
        match r {
            Some(x) => override_of(*service) == Some(x@),
            None => override_of(*service) is None,
        },
{
    match get(service, "logging") {
        Some(logging) => match logging {
            YamlValue::Mapping(_) => match get(logging, "options") {
                Some(opts) => match opts {
                    YamlValue::Mapping(_) => {
                        let driver = str_or(crate::docker::get_str(logging, "driver"), "json-file");
                        let max_size = str_or(crate::docker::get_str(opts, "max-size"), "100m");
                        let max_file = match get(opts, "max-file") {
                            Some(YamlValue::Str(x)) => x.clone(),
                            Some(YamlValue::Int(i)) => int_to_string(*i),
                            _ => owned("3"),
                        };
                        Some(LogRotationSettings { driver, max_size, max_file })
                    },
                    _ => None,
                },
                None => None,
            },
            _ => None,
        },
        None => None,
    }
}

/// The per-service log rotation overrides of a parsed `docker-compose.yml`.
pub fn logging_overrides(doc: &YamlValue) -> (r: StrMap<LogRotationSettings>)
    ensures
        r.wf(),
        r.map().map_values(|c: LogRotationSettings| c@) == overrides_of(*doc),
{
    let mut m: StrMap<LogRotationSettings> = StrMap::new();
    proof {
        assert(m.map().map_values(|c: LogRotationSettings| c@) =~= Map::<Seq<char>, RotationView>::empty());
    }
    match get(doc, "services") {
        Some(YamlValue::Mapping(entries)) => {
            let mut i: usize = 0;
            while i < entries.len()
                invariant
                    i <= entries@.len(),
                    m.wf(),
                    m.map().map_values(|c: LogRotationSettings| c@) == overrides_from(entries@.take(i as int)),
                decreases entries@.len() - i,
            {
                proof {
                    assert(entries@.take(i + 1).drop_last() == entries@.take(i as int));
                    assert(entries@.take(i + 1).last() == entries@[i as int]);
                }
                match service_override(&entries[i].1) {
                    Some(settings) => {
                        let name = match &entries[i].0 {
                            YamlValue::Str(s) => s.clone(),
                            _ => String::new(),
                        };
                        let ghost m0 = m.map();
                        let ghost nv = name@;
                        let ghost cv = settings@;
                        m.insert(name, settings);
                        proof {
                            let f = |c: LogRotationSettings| c@;
                            let a = m.map().map_values(f);
                            let b = m0.map_values(f).insert(nv, cv);
                            assert forall|x: Seq<char>| #[trigger] a.contains_key(x) == b.contains_key(x) by {
                                assert(m0.map_values(f).contains_key(x) == m0.contains_key(x));
                            }
                            assert forall|x: Seq<char>| #[trigger] a.contains_key(x) implies a[x] == b[x] by {
                                if x != nv {
                                    assert(m0.map_values(f)[x] == f(m0[x]));
                                }
                            }
                            assert(a =~= b);
                        }
                    },
                    None => {},
                }
                i += 1;
            }
            assert(entries@.take(entries.len() as int) == entries@);
        },
        _ => {},
    }
    m
}

/// The rotation configuration from the three environment variables (where
/// set) and the compose document (where there is one).
pub fn log_rotation_config(
    driver: Option<String>,
    max_size: Option<String>,
    max_file: Option<String>,
    compose: Option<&YamlValue>,
) -> (r: LogRotationConfig)
    ensures
        r.global@ == global_rotation_of(
            crate::text::opt_view(driver),
            crate::text::opt_view(max_size),
            crate::text::opt_view(max_file),
        ),
        r.overrides.wf(),
        r.overrides.map().map_values(|c: LogRotationSettings| c@) == match compose {
            Some(doc) => overrides_of(*doc),
            None => Map::empty(),
        },
{
    let global = LogRotationSettings {
        driver: str_or(driver, "json-file"),
        max_size: str_or(max_size, "100m"),
        max_file: str_or(max_file, "3"),
    };
    let overrides = match compose {
        Some(doc) => logging_overrides(doc),
        None => {
            let m: StrMap<LogRotationSettings> = StrMap::new();
            proof {
                assert(m.map().map_values(|c: LogRotationSettings| c@) =~= Map::<Seq<char>, RotationView>::empty());
            }
            m
        },
    };
    LogRotationConfig { global, overrides }
}

/// The rotation that applies to a container: its override, or the global
/// settings.
pub fn get_container_log_rotation(config: &LogRotationConfig, container_name: &str) -> (r: LogRotationSettings)
    requires
        config.overrides.wf(),
    ensures
        config.overrides.map().contains_key(container_name@) ==> r@ == config.overrides.map()[container_name@]@,
        !config.overrides.map().contains_key(container_name@) ==> r@ == config.global@,
{
    match config.overrides.get(container_name) {
        Some(o) => o.duplicate(),
        None => config.global.duplicate(),
    }
}

/// Why a container's log rotation could not be written into the compose
/// document.
#[derive(Debug, Clone, Copy, PartialEq, Eq, Structural)]
pub enum RotationUpdateError {
    /// The document has no `services` mapping.
    NoServicesSection,
    /// The services have no mapping under the container's name.
    ServiceNotFound,
}

impl RotationUpdateError {
    /// The message that tells the user.
    pub fn message(&self, container_name: &str) -> (r: String)
        ensures
            r@ == match self {
                RotationUpdateError::NoServicesSection => "No services section found in docker-compose.yml"@,
                RotationUpdateError::ServiceNotFound => "Service '"@ + container_name@
                    + "' not found in docker-compose.yml"@,
            },
    {
        match self {
            RotationUpdateError::NoServicesSection => owned("No services section found in docker-compose.yml"),
            RotationUpdateError::ServiceNotFound => concat3("Service '", container_name, "' not found in docker-compose.yml"),
        }
    }
}

/// Whether `v` is the string `t`.
pub open spec fn str_value(v: YamlValue, t: Seq<char>) -> bool {
    v matches YamlValue::Str(x) && x@ == t
}

/// Whether `v` is the `logging` mapping that declares the rotation `s`:
/// `driver`, then `options` with `max-size` and `max-file`, all strings.
pub open spec fn is_rotation_value(v: YamlValue, s: RotationView) -> bool {
    match v {
        YamlValue::Mapping(l) => {
            &&& l@.len() == 2
            &&& is_key(l@[0].0, "driver"@)
            &&& str_value(l@[0].1, s.driver)
            &&& is_key(l@[1].0, "options"@)
            &&& match l@[1].1 {
                YamlValue::Mapping(o) => {
                    &&& o@.len() == 2
                    &&& is_key(o@[0].0, "max-size"@)
                    &&& str_value(o@[0].1, s.max_size)
                    &&& is_key(o@[1].0, "max-file"@)
                    &&& str_value(o@[1].1, s.max_file)
                },
                _ => false,
            }
        },
        _ => false,
    }
}

/// The entries of a service mapping after its `logging` entry is removed
/// the way a YAML mapping removes a key: the last entry takes its place.
pub open spec fn without_logging(e: Seq<(YamlValue, YamlValue)>) -> Seq<(YamlValue, YamlValue)> {
    match key_pos(e, "logging"@) {
        Some(p) => e.update(p, e.last()).drop_last(),
        None => e,
    }
}

/// Whether `new` are the entries of the service mapping `old` with the
/// rotation `setting` written under `logging`: the rotation mapping in place
/// of the old value, or added at the end where there was none; for `None`,
/// the old entry removed and `*default-logging` added at the end.
pub open spec fn logging_written(
    old: Seq<(YamlValue, YamlValue)>,
    new: Seq<(YamlValue, YamlValue)>,
    setting: Option<RotationView>,
) -> bool {
    match setting {
        Some(s) => match key_pos(old, "logging"@) {
            Some(p) => {
                &&& new.len() == old.len()
                &&& new[p].0 == old[p].0
                &&& is_rotation_value(new[p].1, s)
                &&& forall|j: int| 0 <= j < old.len() && j != p ==> new[j] == old[j]
            },
            None => {
                &&& new.len() == old.len() + 1
                &&& new.drop_last() == old
                &&& is_key(new.last().0, "logging"@)
                &&& is_rotation_value(new.last().1, s)
            },
        },
        None => {
            &&& new.len() == without_logging(old).len() + 1
            &&& new.drop_last() == without_logging(old)
            &&& is_key(new.last().0, "logging"@)
            &&& str_value(new.last().1, "*default-logging"@)
        },
    }
}

/// Whether `new` is `old` with only the value at position `p` changed.
pub open spec fn replaced_at(old: Seq<(YamlValue, YamlValue)>, new: Seq<(YamlValue, YamlValue)>, p: int) -> bool {
    &&& new.len() == old.len()
    &&& 0 <= p < old.len()
    &&& new[p].0 == old[p].0
    &&& forall|j: int| 0 <= j < old.len() && j != p ==> new[j] == old[j]
}

/// The error, if any, of writing a rotation for the service `name` into
/// `doc`: there must be a `services` mapping, and a mapping under the name.
pub open spec fn rotation_update_error(doc: YamlValue, name: Seq<char>) -> Option<RotationUpdateError> {
    match doc {
        YamlValue::Mapping(de) => match key_pos(de@, "services"@) {
            Some(si) => match de@[si].1 {
                YamlValue::Mapping(se) => match key_pos(se@, name) {
                    Some(ci) => match se@[ci].1 {
                        YamlValue::Mapping(_) => None,
                        _ => Some(RotationUpdateError::ServiceNotFound),
                    },
                    None => Some(RotationUpdateError::ServiceNotFound),
                },
                _ => Some(RotationUpdateError::NoServicesSection),
            },
            None => Some(RotationUpdateError::NoServicesSection),
        },
        _ => Some(RotationUpdateError::NoServicesSection),
    }
}

/// Whether `result` is `doc` with the rotation `setting` written into the
/// service `name`, and everything else as it was.
pub open spec fn rotation_written(doc: YamlValue, name: Seq<char>, setting: Option<RotationView>, result: YamlValue) -> bool {
    match (doc, result) {
        (YamlValue::Mapping(de), YamlValue::Mapping(de2)) => match key_pos(de@, "services"@) {
            Some(si) => replaced_at(de@, de2@, si) && match (de@[si].1, de2@[si].1) {
                (YamlValue::Mapping(se), YamlValue::Mapping(se2)) => match key_pos(se@, name) {
                    Some(ci) => replaced_at(se@, se2@, ci) && match (se@[ci].1, se2@[ci].1) {
                        (YamlValue::Mapping(ce), YamlValue::Mapping(ce2)) => logging_written(ce@, ce2@, setting),
                        _ => false,
                    },
                    None => false,
                },
                _ => false,
            },
            None => false,
        },
        _ => false,
    }
}

/// The settings as plain text, where there are any.
pub open spec fn setting_view(settings: Option<&LogRotationSettings>) -> Option<RotationView> {
    match settings {
        Some(s) => Some(s@),
        None => None,
    }
}

/// The `logging` mapping that declares `s`.
fn rotation_value(s: &LogRotationSettings) -> (r: YamlValue)
    ensures
        is_rotation_value(r, s@),
{
    let options = vec![
        (YamlValue::Str(owned("max-size")), YamlValue::Str(s.max_size.clone())),
        (YamlValue::Str(owned("max-file")), YamlValue::Str(s.max_file.clone())),
    ];
    YamlValue::Mapping(
        vec![
            (YamlValue::Str(owned("driver")), YamlValue::Str(s.driver.clone())),
            (YamlValue::Str(owned("options")), YamlValue::Mapping(options)),
        ],
    )
}

/// Writes the rotation into a service mapping's entries.
fn write_logging(entries: Vec<(YamlValue, YamlValue)>, settings: Option<&LogRotationSettings>) -> (r: Vec<
    (YamlValue, YamlValue),
>)
    ensures
        logging_written(entries@, r@, setting_view(settings)),
{
    let mut e = entries;
    let pos = key_position(&e, "logging");
    match settings {
        Some(s) => match pos {
            Some(p) => {
                let (k, _old) = e.remove(p);
                e.insert(p, (k, rotation_value(s)));
                assert(e@ =~= entries@.update(p as int, (entries@[p as int].0, e@[p as int].1)));
            },
            None => {
                e.push((YamlValue::Str(owned("logging")), rotation_value(s)));
                assert(e@.drop_last() =~= entries@);
            },
        },
        None => {
            match pos {
                Some(p) => {
                    let _old = e.swap_remove(p);
                },
                None => {},
            }
            let ghost base = e@;
            assert(base =~= without_logging(entries@));
            e.push((YamlValue::Str(owned("logging")), YamlValue::Str(owned("*default-logging"))));
            assert(e@.drop_last() =~= base);
        },
    }
    e
}

/// Writes a container's log rotation into a parsed `docker-compose.yml`:
/// with settings, the service gets its own `logging` mapping; without, it
/// goes back to the shared `*default-logging` settings.
pub fn set_container_log_rotation(doc: YamlValue, container_name: &str, settings: Option<&LogRotationSettings>) -> (r: Result<
    YamlValue,
    RotationUpdateError,
>)
    ensures
        match r {
            Ok(d) => rotation_update_error(doc, container_name@) is None
                && rotation_written(doc, container_name@, setting_view(settings), d),
            Err(e) => rotation_update_error(doc, container_name@) == Some(e),
        },
{
    match doc {
        YamlValue::Mapping(top) => {
            let mut de = top;
            match key_position(&de, "services") {
                Some(si) => {
                    let (skey, sval) = de.remove(si);
                    match sval {
                        YamlValue::Mapping(services) => {
                            let mut se = services;
                            match key_position(&se, container_name) {
                                Some(ci) => {
                                    let (ckey, cval) = se.remove(ci);
                                    match cval {
                                        YamlValue::Mapping(ce) => {
                                            let ce2 = write_logging(ce, settings);
                                            se.insert(ci, (ckey, YamlValue::Mapping(ce2)));
                                            de.insert(si, (skey, YamlValue::Mapping(se)));
                                            Ok(YamlValue::Mapping(de))
                                        },
                                        _ => Err(RotationUpdateError::ServiceNotFound),
                                    }
                                },
                                None => Err(RotationUpdateError::ServiceNotFound),
                            }
                        },
                        _ => Err(RotationUpdateError::NoServicesSection),
                    }
                },
                None => Err(RotationUpdateError::NoServicesSection),
            }
        },
        _ => Err(RotationUpdateError::NoServicesSection),
    }
}

/// Whether no two entries of a mapping have the same string key, as a YAML
/// mapping keeps them.
pub open spec fn string_keys_distinct(e: Seq<(YamlValue, YamlValue)>) -> bool {
    forall|i: int, j: int, k: Seq<char>|
        0 <= i < e.len() && 0 <= j < e.len() && i != j && #[trigger] is_key(e[i].0, k) ==> !#[trigger] is_key(
            e[j].0,
            k,
        )
}

/// The mappings that a rotation update of the service `name` reads have
/// distinct string keys: the services, and the service itself.
pub open spec fn rotation_target_distinct(doc: YamlValue, name: Seq<char>) -> bool {
    match doc {
        YamlValue::Mapping(de) => match key_pos(de@, "services"@) {
            Some(si) => match de@[si].1 {
                YamlValue::Mapping(se) => string_keys_distinct(se@) && match key_pos(se@, name) {
                    Some(ci) => match se@[ci].1 {
                        YamlValue::Mapping(ce) => string_keys_distinct(ce@),
                        _ => true,
                    },
                    None => true,
                },
                _ => true,
            },
            None => true,
        },
        _ => true,
    }
}

/// The name under which an entry's override is listed: its string key, or
/// the empty name.
pub open spec fn entry_name(k: YamlValue) -> Seq<char> {
    match k {
        YamlValue::Str(s) => s@,
        _ => Seq::empty(),
    }
}

/// The first position of a key, from what comes before it.
proof fn lemma_key_pos_is(e: Seq<(YamlValue, YamlValue)>, key: Seq<char>, p: int)
    requires
        0 <= p < e.len(),
        is_key(e[p].0, key),
        forall|j: int| 0 <= j < p ==> !is_key(#[trigger] e[j].0, key),
    ensures
        key_pos(e, key) == Some(p),
{
    lemma_key_pos_from(e, key, 0);
    match key_pos(e, key) {
        Some(q) => {
            if q > p {
                assert(!is_key(e[p].0, key));
            }
        },
        None => {},
    }
}

/// A mapping with no entry of a name lists no override for it.
proof fn lemma_overrides_lack(e: Seq<(YamlValue, YamlValue)>, name: Seq<char>)
    requires
        forall|j: int| 0 <= j < e.len() ==> entry_name(#[trigger] e[j].0) != name,
    ensures
        !overrides_from(e).contains_key(name),
    decreases e.len(),
{
    if e.len() > 0 {
        let d = e.drop_last();
        assert forall|j: int| 0 <= j < d.len() implies entry_name(#[trigger] d[j].0) != name by {
            assert(d[j] == e[j]);
        }
        lemma_overrides_lack(d, name);
        assert(entry_name(e.last().0) != name);
    }
}

/// Changing the value of the one entry named `name` changes the overrides
/// only under that name.
proof fn lemma_overrides_replaced(
    e: Seq<(YamlValue, YamlValue)>,
    e2: Seq<(YamlValue, YamlValue)>,
    p: int,
    name: Seq<char>,
)
    requires
        replaced_at(e, e2, p),
        entry_name(e[p].0) == name,
        forall|j: int| 0 <= j < e.len() && j != p ==> entry_name(#[trigger] e[j].0) != name,
    ensures
        overrides_from(e2) == match override_of(e2[p].1) {
            Some(o) => overrides_from(e).insert(name, o),
            None => overrides_from(e).remove(name),
        },
    decreases e.len(),
{
    let n = e.len() - 1;
    let d = e.drop_last();
    let d2 = e2.drop_last();
    if p == n {
        assert(d2 =~= d);
        assert forall|j: int| 0 <= j < d.len() implies entry_name(#[trigger] d[j].0) != name by {
            assert(d[j] == e[j]);
        }
        lemma_overrides_lack(d, name);
        let m = overrides_from(d);
        assert(entry_name(e2.last().0) == name);
        assert(entry_name(e.last().0) == name);
        match override_of(e2[p].1) {
            Some(o) => {
                assert(overrides_from(e2) == m.insert(name, o));
                match override_of(e.last().1) {
                    Some(oo) => assert(m.insert(name, o) =~= m.insert(name, oo).insert(name, o)),
                    None => {},
                }
            },
            None => {
                assert(overrides_from(e2) == m);
                match override_of(e.last().1) {
                    Some(oo) => assert(m =~= m.insert(name, oo).remove(name)),
                    None => assert(m =~= m.remove(name)),
                }
            },
        }
    } else {
        assert(replaced_at(d, d2, p)) by {
            assert forall|j: int| 0 <= j < d.len() && j != p implies d2[j] == d[j] by {
                assert(d2[j] == e2[j] && d[j] == e[j]);
            }
        }
        assert(d[p] == e[p] && d2[p] == e2[p]);
        assert forall|j: int| 0 <= j < d.len() && j != p implies entry_name(#[trigger] d[j].0) != name by {
            assert(d[j] == e[j]);
        }
        lemma_overrides_replaced(d, d2, p, name);
        assert(e2.last() == e.last());
        let nm = entry_name(e.last().0);
        assert(nm != name);
        let m = overrides_from(d);
        let m2 = overrides_from(d2);
        assert(overrides_from(e) == match override_of(e.last().1) {
            Some(o) => m.insert(nm, o),
            None => m,
        });
        assert(overrides_from(e2) == match override_of(e.last().1) {
            Some(o) => m2.insert(nm, o),
            None => m2,
        });
        match override_of(e2[p].1) {
            Some(o) => match override_of(e.last().1) {
                Some(ol) => assert(m.insert(name, o).insert(nm, ol) =~= m.insert(nm, ol).insert(name, o)),
                None => {},
            },
            None => match override_of(e.last().1) {
                Some(ol) => assert(m.remove(name).insert(nm, ol) =~= m.insert(nm, ol).remove(name)),
                None => {},
            },
        }
    }
}

/// The `logging` mapping written for `s` declares `s`.
proof fn lemma_rotation_value_override(l: YamlValue, s: RotationView)
    requires
        is_rotation_value(l, s),
    ensures
        match l {
            YamlValue::Mapping(_) => match yaml_get(l, "options"@) {
                Some(opts) => match opts {
                    YamlValue::Mapping(_) => RotationView {
                        driver: or_default(yaml_str(yaml_get(l, "driver"@)), "json-file"@),
                        max_size: or_default(yaml_str(yaml_get(opts, "max-size"@)), "100m"@),
                        max_file: max_file_of(yaml_get(opts, "max-file"@)),
                    } == s,
                    _ => false,
                },
                None => false,
            },
            _ => false,
        },
{
    reveal_strlit("driver");
    reveal_strlit("options");
    reveal_strlit("max-size");
    reveal_strlit("max-file");
    match l {
        YamlValue::Mapping(lv) => {
            let le = lv@;
            lemma_key_pos_is(le, "driver"@, 0);
            lemma_entry_at_key_pos(le, "driver"@);
            assert("driver"@.len() != "options"@.len());
            assert(!is_key(le[0].0, "options"@));
            lemma_key_pos_is(le, "options"@, 1);
            lemma_entry_at_key_pos(le, "options"@);
            match le[1].1 {
                YamlValue::Mapping(ov) => {
                    let oe = ov@;
                    lemma_key_pos_is(oe, "max-size"@, 0);
                    lemma_entry_at_key_pos(oe, "max-size"@);
                    assert("max-size"@[4] != "max-file"@[4]);
                    assert(!is_key(oe[0].0, "max-file"@));
                    lemma_key_pos_is(oe, "max-file"@, 1);
                    lemma_entry_at_key_pos(oe, "max-file"@);
                },
                _ => {},
            }
        },
        _ => {},
    }
}

/// A service mapping with the rotation written declares exactly that
/// rotation (none, after a reset).
proof fn lemma_written_override(old: YamlValue, new: YamlValue, setting: Option<RotationView>)
    requires
        old matches YamlValue::Mapping(ce) && new matches YamlValue::Mapping(ce2) && logging_written(
            ce@,
            ce2@,
            setting,
        ) && string_keys_distinct(ce@),
    ensures
        override_of(new) == setting,
{
    let ce = match old {
        YamlValue::Mapping(v) => v@,
        _ => Seq::empty(),
    };
    let ce2 = match new {
        YamlValue::Mapping(v) => v@,
        _ => Seq::empty(),
    };
    let k = "logging"@;
    lemma_key_pos_from(ce, k, 0);
    let pos: int = match setting {
        Some(s) => match key_pos(ce, k) {
            Some(p) => p,
            None => ce.len() as int,
        },
        None => without_logging(ce).len() as int,
    };
    assert forall|j: int| 0 <= j < pos implies !is_key(#[trigger] ce2[j].0, k) by {
        match setting {
            Some(s) => match key_pos(ce, k) {
                Some(p) => {
                    assert(ce2[j] == ce[j]);
                },
                None => {
                    assert(ce2[j] == ce2.drop_last()[j]);
                },
            },
            None => {
                assert(ce2[j] == ce2.drop_last()[j]);
                match key_pos(ce, k) {
                    Some(p) => {
                        let n = ce.len() - 1;
                        if j == p {
                            assert(ce2[j] == ce[n]);
                            if is_key(ce[n].0, k) {
                                assert(n != p);
                            }
                        } else {
                            assert(ce2[j] == ce[j]);
                            if is_key(ce[j].0, k) {
                                assert(is_key(ce[p].0, k));
                            }
                        }
                    },
                    None => {
                        assert(ce2[j] == ce[j]);
                    },
                }
            },
        }
    }
    lemma_key_pos_is(ce2, k, pos);
    lemma_entry_at_key_pos(ce2, k);
    assert(yaml_get(new, k) == Some(ce2[pos].1));
    match setting {
        Some(s) => {
            lemma_rotation_value_override(ce2[pos].1, s);
        },
        None => {},
    }
}

/// Writing a container's log rotation into the compose document and
/// reading the overrides back gives the old overrides with that container's
/// entry replaced by the new settings, or removed by a reset; every other
/// container keeps its override.
pub proof fn law_rotation_update_read_back(
    doc: YamlValue,
    name: Seq<char>,
    setting: Option<RotationView>,
    result: YamlValue,
)
    requires
        name.len() > 0,
        rotation_target_distinct(doc, name),
        rotation_update_error(doc, name) is None,
        rotation_written(doc, name, setting, result),
    ensures
        overrides_of(result) == match setting {
            Some(s) => overrides_of(doc).insert(name, s),
            None => overrides_of(doc).remove(name),
        },
{
    match (doc, result) {
        (YamlValue::Mapping(dv), YamlValue::Mapping(dv2)) => {
            let de = dv@;
            let de2 = dv2@;
            let sk = "services"@;
            let si = match key_pos(de, sk) {
                Some(p) => p,
                None => 0,
            };
            lemma_key_pos_from(de, sk, 0);
            assert forall|j: int| 0 <= j < si implies !is_key(#[trigger] de2[j].0, sk) by {
                assert(de2[j] == de[j]);
            }
            lemma_key_pos_is(de2, sk, si);
            lemma_entry_at_key_pos(de, sk);
            lemma_entry_at_key_pos(de2, sk);
            match (de[si].1, de2[si].1) {
                (YamlValue::Mapping(sv), YamlValue::Mapping(sv2)) => {
                    let se = sv@;
                    let se2 = sv2@;
                    assert(overrides_of(doc) == overrides_from(se));
                    assert(overrides_of(result) == overrides_from(se2));
                    lemma_key_pos_from(se, name, 0);
                    let ci = match key_pos(se, name) {
                        Some(p) => p,
                        None => 0,
                    };
                    assert(entry_name(se[ci].0) == name);
                    assert forall|j: int| 0 <= j < se.len() && j != ci implies entry_name(
                        #[trigger] se[j].0,
                    ) != name by {
                        if entry_name(se[j].0) == name {
                            assert(is_key(se[j].0, name));
                            assert(is_key(se[ci].0, name));
                        }
                    }
                    lemma_written_override(se[ci].1, se2[ci].1, setting);
                    lemma_overrides_replaced(se, se2, ci, name);
                },
                _ => {},
            }
        },
        _ => {},
    }
}

/// A line of the `.env` file with the rotation settings written in: a line
/// that sets one of the three variables gets the new value.
pub open spec fn env_line_updated(l: Seq<char>, s: RotationView) -> Seq<char> {
    if starts_with(l, "LOGGING_DRIVER="@) {
        "LOGGING_DRIVER="@ + s.driver
    } else if starts_with(l, "LOG_MAX_SIZE="@) {
        "LOG_MAX_SIZE="@ + s.max_size
    } else if starts_with(l, "LOG_MAX_FILE="@) {
        "LOG_MAX_FILE="@ + s.max_file
    } else {
        l
    }
}

/// Some line starts with `p`.
pub open spec fn sets_var(ls: Seq<Seq<char>>, p: Seq<char>) -> bool {
    exists|i: int| 0 <= i < ls.len() && starts_with(#[trigger] ls[i], p)
}

/// The `.env` lines with the rotation settings written in: each line that
/// sets one of the three variables gets the new value, and a line is added
/// at the end, in the order driver, size, count, for each variable that no
/// line sets.
pub open spec fn env_lines_updated(ls: Seq<Seq<char>>, s: RotationView) -> Seq<Seq<char>> {
    ls.map_values(|l: Seq<char>| env_line_updated(l, s))
        + (if sets_var(ls, "LOGGING_DRIVER="@) { Seq::empty() } else { seq!["LOGGING_DRIVER="@ + s.driver] })
        + (if sets_var(ls, "LOG_MAX_SIZE="@) { Seq::empty() } else { seq!["LOG_MAX_SIZE="@ + s.max_size] })
        + (if sets_var(ls, "LOG_MAX_FILE="@) { Seq::empty() } else { seq!["LOG_MAX_FILE="@ + s.max_file] })
}

/// Writes the rotation settings into the lines of a `.env` file.
pub fn update_env_lines(lines: &Vec<String>, settings: &LogRotationSettings) -> (r: Vec<String>)
    ensures
        crate::text::string_views(r@) == env_lines_updated(crate::text::string_views(lines@), settings@),
{
    let ghost ls = crate::text::string_views(lines@);
    let mut out: Vec<String> = Vec::new();
    let mut found_driver = false;
    let mut found_max_size = false;
    let mut found_max_file = false;
    let mut i: usize = 0;
    while i < lines.len()
        invariant
            i <= lines@.len(),
            ls == crate::text::string_views(lines@),
            crate::text::string_views(out@) == ls.take(i as int).map_values(|l: Seq<char>| env_line_updated(l, settings@)),
            found_driver == sets_var(ls.take(i as int), "LOGGING_DRIVER="@),
            found_max_size == sets_var(ls.take(i as int), "LOG_MAX_SIZE="@),
            found_max_file == sets_var(ls.take(i as int), "LOG_MAX_FILE="@),
        decreases lines@.len() - i,
    {
        let line = &lines[i];
        let ghost t = ls.take(i + 1);
        proof {
            assert(t.drop_last() =~= ls.take(i as int));
            assert(t.last() == line@);
        }
        proof {
            lemma_prefixes_exclusive(line@);
        }
        let d = str_starts_with(line.as_str(), "LOGGING_DRIVER=");
        let z = str_starts_with(line.as_str(), "LOG_MAX_SIZE=");
        let f = str_starts_with(line.as_str(), "LOG_MAX_FILE=");
        let new_line = if d {
            found_driver = true;
            crate::text::concat2("LOGGING_DRIVER=", settings.driver.as_str())
        } else if z {
            found_max_size = true;
            crate::text::concat2("LOG_MAX_SIZE=", settings.max_size.as_str())
        } else if f {
            found_max_file = true;
            crate::text::concat2("LOG_MAX_FILE=", settings.max_file.as_str())
        } else {
            line.clone()
        };
        let ghost before = crate::text::string_views(out@);
        out.push(new_line);
        proof {
            assert(crate::text::string_views(out@) =~= before.push(new_line@));
            assert(new_line@ =~= env_line_updated(line@, settings@));
            assert(t.map_values(|l: Seq<char>| env_line_updated(l, settings@))
                =~= ls.take(i as int).map_values(|l: Seq<char>| env_line_updated(l, settings@)).push(env_line_updated(line@, settings@)));
            lemma_sets_var_push(ls.take(i as int), line@, "LOGGING_DRIVER="@);
            lemma_sets_var_push(ls.take(i as int), line@, "LOG_MAX_SIZE="@);
            lemma_sets_var_push(ls.take(i as int), line@, "LOG_MAX_FILE="@);
        }
        i += 1;
    }
    proof {
        assert(ls.take(lines@.len() as int) =~= ls);
    }
    let ghost body = crate::text::string_views(out@);
    if !found_driver {
        out.push(crate::text::concat2("LOGGING_DRIVER=", settings.driver.as_str()));
    }
    let ghost body2 = crate::text::string_views(out@);
    proof {
        assert(body2 =~= body + (if found_driver { Seq::empty() } else { seq!["LOGGING_DRIVER="@ + settings.driver@] }));
    }
    if !found_max_size {
        out.push(crate::text::concat2("LOG_MAX_SIZE=", settings.max_size.as_str()));
    }
    let ghost body3 = crate::text::string_views(out@);
    proof {
        assert(body3 =~= body2 + (if found_max_size { Seq::empty() } else { seq!["LOG_MAX_SIZE="@ + settings.max_size@] }));
    }
    if !found_max_file {
        out.push(crate::text::concat2("LOG_MAX_FILE=", settings.max_file.as_str()));
    }
    proof {
        assert(crate::text::string_views(out@) =~= body3 + (if found_max_file { Seq::empty() } else { seq!["LOG_MAX_FILE="@ + settings.max_file@] }));
    }
    out
}

/// No line sets two of the three variables.
proof fn lemma_prefixes_exclusive(l: Seq<char>)
    ensures
        starts_with(l, "LOGGING_DRIVER="@) ==> !starts_with(l, "LOG_MAX_SIZE="@) && !starts_with(l, "LOG_MAX_FILE="@),
        starts_with(l, "LOG_MAX_SIZE="@) ==> !starts_with(l, "LOG_MAX_FILE="@),
{
    reveal_strlit("LOGGING_DRIVER=");
    reveal_strlit("LOG_MAX_SIZE=");
    reveal_strlit("LOG_MAX_FILE=");
    if starts_with(l, "LOGGING_DRIVER="@) {
        assert(l[3] == "LOGGING_DRIVER="@[3]);
    }
    if starts_with(l, "LOG_MAX_SIZE="@) {
        assert(l[3] == "LOG_MAX_SIZE="@[3]);
        assert(l[8] == "LOG_MAX_SIZE="@[8]);
    }
    if starts_with(l, "LOG_MAX_FILE="@) {
        assert(l[3] == "LOG_MAX_FILE="@[3]);
        assert(l[8] == "LOG_MAX_FILE="@[8]);
    }
}

proof fn lemma_sets_var_push(ls: Seq<Seq<char>>, l: Seq<char>, p: Seq<char>)
    ensures
        sets_var(ls.push(l), p) == (sets_var(ls, p) || starts_with(l, p)),
{
    if sets_var(ls, p) {
        let i = choose|i: int| 0 <= i < ls.len() && starts_with(#[trigger] ls[i], p);
        assert(ls.push(l)[i] == ls[i]);
    }
    if starts_with(l, p) {
        assert(ls.push(l)[ls.len() as int] == l);
    }
    if sets_var(ls.push(l), p) {
        let i = choose|i: int| 0 <= i < ls.push(l).len() && starts_with(#[trigger] ls.push(l)[i], p);
        if i < ls.len() {
            assert(ls.push(l)[i] == ls[i]);
        }
    }
}

proof fn lemma_prefixed_starts(p: Seq<char>, v: Seq<char>)
    ensures
        starts_with(p + v, p),
{
    assert((p + v).subrange(0, p.len() as int) =~= p);
}

/// A line the settings were written into stays as it is when they are
/// written in again.
proof fn lemma_env_line_stable(l: Seq<char>, s: RotationView)
    ensures
        env_line_updated(env_line_updated(l, s), s) == env_line_updated(l, s),
{
    let d = "LOGGING_DRIVER="@;
    let z = "LOG_MAX_SIZE="@;
    let f = "LOG_MAX_FILE="@;
    lemma_prefixed_starts(d, s.driver);
    lemma_prefixed_starts(z, s.max_size);
    lemma_prefixed_starts(f, s.max_file);
    lemma_prefixes_exclusive(d + s.driver);
    lemma_prefixes_exclusive(z + s.max_size);
    lemma_prefixes_exclusive(f + s.max_file);
    lemma_prefixes_exclusive(l);
}

/// After the settings are written in, a line sets each of the three
/// variables.
proof fn lemma_env_sets_all(ls: Seq<Seq<char>>, s: RotationView, p: Seq<char>)
    requires
        p == "LOGGING_DRIVER="@ || p == "LOG_MAX_SIZE="@ || p == "LOG_MAX_FILE="@,
    ensures
        sets_var(env_lines_updated(ls, s), p),
{
    let u = env_lines_updated(ls, s);
    let m = ls.map_values(|l: Seq<char>| env_line_updated(l, s));
    let d = "LOGGING_DRIVER="@;
    let z = "LOG_MAX_SIZE="@;
    let f = "LOG_MAX_FILE="@;
    lemma_prefixed_starts(d, s.driver);
    lemma_prefixed_starts(z, s.max_size);
    lemma_prefixed_starts(f, s.max_file);
    if sets_var(ls, p) {
        let i = choose|i: int| 0 <= i < ls.len() && starts_with(#[trigger] ls[i], p);
        lemma_prefixes_exclusive(ls[i]);
        assert(u[i] == m[i]);
        assert(starts_with(u[i], p));
    } else {
        let a = if sets_var(ls, d) { Seq::<Seq<char>>::empty() } else { seq![d + s.driver] };
        let b = if sets_var(ls, z) { Seq::<Seq<char>>::empty() } else { seq![z + s.max_size] };
        let c = if sets_var(ls, f) { Seq::<Seq<char>>::empty() } else { seq![f + s.max_file] };
        assert(u == m + a + b + c);
        if p == d {
            assert(u[m.len() as int] == d + s.driver);
            assert(starts_with(u[m.len() as int], p));
        } else if p == z {
            assert(u[(m.len() + a.len()) as int] == z + s.max_size);
            assert(starts_with(u[(m.len() + a.len()) as int], p));
        } else {
            assert(u[(m.len() + a.len() + b.len()) as int] == f + s.max_file);
            assert(starts_with(u[(m.len() + a.len() + b.len()) as int], p));
        }
    }
}

/// Writing the same log rotation settings into a `.env` file a second time
/// changes nothing.
pub proof fn law_env_update_idempotent(ls: Seq<Seq<char>>, s: RotationView)
    ensures
        env_lines_updated(env_lines_updated(ls, s), s) == env_lines_updated(ls, s),
{
    let u = env_lines_updated(ls, s);
    lemma_env_sets_all(ls, s, "LOGGING_DRIVER="@);
    lemma_env_sets_all(ls, s, "LOG_MAX_SIZE="@);
    lemma_env_sets_all(ls, s, "LOG_MAX_FILE="@);
    let uu = u.map_values(|l: Seq<char>| env_line_updated(l, s));
    assert forall|i: int| 0 <= i < u.len() implies uu[i] == u[i] by {
        let m = ls.map_values(|l: Seq<char>| env_line_updated(l, s));
        if i < m.len() {
            lemma_env_line_stable(ls[i], s);
        } else {
            let d = "LOGGING_DRIVER="@;
            let z = "LOG_MAX_SIZE="@;
            let f = "LOG_MAX_FILE="@;
            lemma_env_line_stable(d + s.driver, s);
            lemma_env_line_stable(z + s.max_size, s);
            lemma_env_line_stable(f + s.max_file, s);
            lemma_prefixed_starts(d, s.driver);
            lemma_prefixed_starts(z, s.max_size);
            lemma_prefixed_starts(f, s.max_file);
            lemma_prefixes_exclusive(d + s.driver);
            lemma_prefixes_exclusive(z + s.max_size);
            lemma_prefixes_exclusive(f + s.max_file);
        }
    }
    assert(uu =~= u);
    assert(env_lines_updated(u, s) =~= uu);
}

/// Neighbouring measurements lie in different buckets.
pub open spec fn buckets_alternate(s: Seq<StorageMeasurement>, interval_hours: int) -> bool {
    forall|i: int| 0 < i < s.len() ==> #[trigger] bucket_of(s[i], interval_hours) != bucket_of(s[i - 1], interval_hours)
}

proof fn lemma_downsampled_alternates(s: Seq<StorageMeasurement>, iv: int)
    ensures
        buckets_alternate(downsampled(s, iv), iv),
        s.len() > 0 ==> downsampled(s, iv).len() > 0
            && bucket_of(downsampled(s, iv).last(), iv) == bucket_of(s.last(), iv),
        s.len() == 0 ==> downsampled(s, iv).len() == 0,
    decreases s.len(),
{
    if s.len() > 0 {
        lemma_downsampled_alternates(s.drop_last(), iv);
        let kept = downsampled(s.drop_last(), iv);
        if s.len() > 1 {
            assert(s.drop_last().last() == s[s.len() - 2]);
        }
        let d = downsampled(s, iv);
        assert forall|i: int| 0 < i < d.len() implies #[trigger] bucket_of(d[i], iv) != bucket_of(d[i - 1], iv) by {
            if i < kept.len() {
                assert(d[i] == kept[i] && d[i - 1] == kept[i - 1]);
                assert(bucket_of(kept[i], iv) != bucket_of(kept[i - 1], iv));
            }
        }
    }
}

proof fn lemma_downsampled_identity(s: Seq<StorageMeasurement>, iv: int)
    requires
        buckets_alternate(s, iv),
    ensures
        downsampled(s, iv) == s,
    decreases s.len(),
{
    if s.len() > 0 {
        let t = s.drop_last();
        assert forall|i: int| 0 < i < t.len() implies #[trigger] bucket_of(t[i], iv) != bucket_of(t[i - 1], iv) by {
            assert(bucket_of(s[i], iv) != bucket_of(s[i - 1], iv));
        }
        lemma_downsampled_identity(t, iv);
        if s.len() > 1 {
            assert(bucket_of(s[s.len() - 1], iv) != bucket_of(s[s.len() - 2], iv));
        }
        assert(t.push(s.last()) =~= s);
    }
}

/// Downsampling a history a second time, to the same interval, keeps every
/// measurement: the first pass leaves no two neighbours in one bucket.
pub proof fn law_downsample_idempotent(s: Seq<StorageMeasurement>, interval_hours: int)
    ensures
        downsampled(downsampled(s, interval_hours), interval_hours) == downsampled(s, interval_hours),
        buckets_alternate(downsampled(s, interval_hours), interval_hours),
{
    lemma_downsampled_alternates(s, interval_hours);
    lemma_downsampled_identity(downsampled(s, interval_hours), interval_hours);
}

// ---------------------------------------------------------------------------
// Largest first
// ---------------------------------------------------------------------------

/// The first index of `s` whose size is below `size` (or `s.len()`).
pub open spec fn first_smaller(s: Seq<u64>, size: u64, i: int) -> int
    decreases s.len() - i,
{
    if 0 <= i < s.len() && s[i] >= size {
        first_smaller(s, size, i + 1)
    } else {
        i
    }
}

/// The positions that sorting sizes largest first, keeping equal sizes in
/// their order (a stable sort), gives: entry `k` of the result is entry
/// `order[k]` of the input.
pub open spec fn largest_first(sizes: Seq<u64>) -> Seq<int>
    decreases sizes.len(),
{
    if sizes.len() == 0 {
        Seq::empty()
    } else {
        let before = largest_first(sizes.drop_last());
        let placed = before.map_values(|i: int| sizes[i]);
        before.insert(first_smaller(placed, sizes.last(), 0), sizes.len() - 1)
    }
}

proof fn lemma_first_smaller(s: Seq<u64>, size: u64, i: int)
    requires
        0 <= i <= s.len(),
    ensures
        i <= first_smaller(s, size, i) <= s.len(),
        forall|k: int| i <= k < first_smaller(s, size, i) ==> #[trigger] s[k] >= size,
        first_smaller(s, size, i) < s.len() ==> s[first_smaller(s, size, i)] < size,
    decreases s.len() - i,
{
    if i < s.len() && s[i] >= size {
        lemma_first_smaller(s, size, i + 1);
    }
}

/// A value sorted by a number, largest first.
pub trait SortKey {
    /// The number it is sorted by.
    spec fn sort_key_spec(&self) -> u64;

    /// The number it is sorted by.
    fn sort_key(&self) -> (r: u64)
        ensures
            r == self.sort_key_spec(),
    ;
}

impl SortKey for VolumeUsage {
    open spec fn sort_key_spec(&self) -> u64 {
        self.size_bytes
    }

    fn sort_key(&self) -> (r: u64) {
        self.size_bytes
    }
}

impl SortKey for ContainerLogInfo {
    open spec fn sort_key_spec(&self) -> u64 {
        self.log_size_bytes
    }

    fn sort_key(&self) -> (r: u64) {
        self.log_size_bytes
    }
}

/// The sort keys of a sequence of values.
pub open spec fn sort_keys<T: SortKey>(items: Seq<T>) -> Seq<u64> {
    items.map_values(|v: T| v.sort_key_spec())
}

/// The items, largest key first; items with equal keys keep their order
/// (a stable sort).
pub fn sort_largest_first<T: SortKey>(items: Vec<T>) -> (r: Vec<T>)
    ensures
        r@.len() == items@.len(),
        forall|k: int| 0 <= k < r@.len() ==> #[trigger] r@[k] == items@[largest_first(sort_keys(items@))[k]],
{
    let ghost all = items@;
    let ghost sizes = sort_keys(all);
    let mut rest = items;
    let mut out: Vec<T> = Vec::new();
    let ghost mut taken: int = 0;
    proof {
        lemma_largest_first_len(sizes.take(0));
    }
    while rest.len() > 0
        invariant
            0 <= taken <= all.len(),
            sizes == sort_keys(all),
            rest@ == all.skip(taken),
            out@.len() == taken,
            largest_first(sizes.take(taken)).len() == taken,
            forall|k: int| 0 <= k < taken ==> 0 <= #[trigger] largest_first(sizes.take(taken))[k] < taken,
            forall|k: int| 0 <= k < taken ==> #[trigger] out@[k] == all[largest_first(sizes.take(taken))[k]],
        decreases rest@.len(),
    {
        let ghost before_rest = rest@;
        let v = rest.remove(0);
        proof {
            assert(before_rest[0] == all[taken]);
            assert(rest@ =~= all.skip(taken + 1));
        }
        let size = v.sort_key();
        let mut k: usize = 0;
        while k < out.len() && out[k].sort_key() >= size
            invariant
                k <= out@.len(),
                forall|m: int| 0 <= m < k ==> #[trigger] out@[m].sort_key_spec() >= size,
            decreases out@.len() - k,
        {
            k += 1;
        }
        let ghost out_before = out@;
        out.insert(k, v);
        proof {
            let t = sizes.take(taken);
            let t1 = sizes.take(taken + 1);
            assert(t1.drop_last() =~= t);
            assert(t1.last() == size);
            let before = largest_first(t);
            let placed = before.map_values(|i: int| t1[i]);
            assert forall|m: int| 0 <= m < before.len() implies #[trigger] placed[m] == out_before[m].sort_key_spec() by {
                assert(t1[before[m]] == sizes[before[m]]);
            }
            lemma_first_smaller(placed, size, 0);
            lemma_first_smaller_is(placed, size, k as int);
            let after = largest_first(t1);
            assert(after == before.insert(k as int, taken));
            assert forall|m: int| 0 <= m < taken + 1 implies #[trigger] out@[m] == all[after[m]] by {
                if m < k {
                    assert(out@[m] == out_before[m]);
                } else if m > k {
                    assert(out@[m] == out_before[m - 1]);
                }
            }
            taken = taken + 1;
        }
    }
    proof {
        assert(sizes.take(taken) =~= sizes);
    }
    out
}

/// The volumes, largest first; volumes of equal size keep their order.
pub fn sort_volumes_by_size(volumes: Vec<VolumeUsage>) -> (r: Vec<VolumeUsage>)
    ensures
        r@.len() == volumes@.len(),
        forall|k: int| 0 <= k < r@.len() ==> #[trigger] r@[k] == volumes@[largest_first(volumes@.map_values(|v: VolumeUsage| v.size_bytes))[k]],
{
    proof {
        assert(sort_keys(volumes@) =~= volumes@.map_values(|v: VolumeUsage| v.size_bytes));
    }
    sort_largest_first(volumes)
}

/// The container logs, largest first; logs of equal size keep their order.
pub fn sort_logs_by_size(logs: Vec<ContainerLogInfo>) -> (r: Vec<ContainerLogInfo>)
    ensures
        r@.len() == logs@.len(),
        forall|k: int| 0 <= k < r@.len() ==> #[trigger] r@[k] == logs@[largest_first(logs@.map_values(|v: ContainerLogInfo| v.log_size_bytes))[k]],
{
    proof {
        assert(sort_keys(logs@) =~= logs@.map_values(|v: ContainerLogInfo| v.log_size_bytes));
    }
    sort_largest_first(logs)
}

proof fn lemma_largest_first_len(sizes: Seq<u64>)
    ensures
        largest_first(sizes).len() == sizes.len(),
    decreases sizes.len(),
{
    if sizes.len() > 0 {
        lemma_largest_first_len(sizes.drop_last());
        let before = largest_first(sizes.drop_last());
        let placed = before.map_values(|i: int| sizes[i]);
        lemma_first_smaller(placed, sizes.last(), 0);
    }
}

proof fn lemma_first_smaller_is(s: Seq<u64>, size: u64, k: int)
    requires
        0 <= k <= s.len(),
        forall|m: int| 0 <= m < k ==> #[trigger] s[m] >= size,
        k < s.len() ==> s[k] < size,
    ensures
        first_smaller(s, size, 0) == k,
{
    lemma_first_smaller_from(s, size, 0, k);
}

proof fn lemma_first_smaller_from(s: Seq<u64>, size: u64, i: int, k: int)
    requires
        0 <= i <= k <= s.len(),
        forall|m: int| i <= m < k ==> #[trigger] s[m] >= size,
        k < s.len() ==> s[k] < size,
    ensures
        first_smaller(s, size, i) == k,
    decreases k - i,
{
    if i < k {
        lemma_first_smaller_from(s, size, i + 1, k);
    }
}
} // verus!

