//! Native system services (systemd): reading what `systemctl`, `ss` and
//! `/proc` report about them.

use vstd::prelude::*;
use crate::strmap::StrMap;
use crate::text::{
    chars_eq, chars_of, contains, contains_exec, decimal, ends_with, ends_with_exec, find_char_exec,
    find_char_from, lemma_find_char_bounds, lemma_split_nonempty, lines, owned, parse_u16,
    parse_u16_spec, parse_u32, parse_u32_spec, parse_u64, parse_u64_spec, push_decimal, push_str,
    slice_chars, split, split_lines, split_on, split_words, starts_with, starts_with_exec, str_eq,
    string_of, string_views, trim_end_matches, trim_end_matches_exec, views, words,
};

verus! {

/// How a service is run.
#[derive(Debug, Clone, Copy, PartialEq, Eq, Structural)]
pub enum ServiceType {
    Systemd,
    Process,
    Custom,
}

/// The state of a service.
#[derive(Debug, Clone, Copy, PartialEq, Eq, Structural)]
pub enum ServiceStatus {
    Running,
    Stopped,
    Failed,
    Inactive,
    Activating,
    Deactivating,
    Unknown,
}

/// A row of `systemctl list-units`.
#[derive(Debug)]
pub struct ServiceUnit {
    pub name: String,
    /// The name without `.service`.
    pub display_name: String,
    pub status: ServiceStatus,
    pub loaded: bool,
    pub active: bool,
    pub sub_state: String,
}

pub struct ServiceUnitView {
    pub name: Seq<char>,
    pub display_name: Seq<char>,
    pub status: ServiceStatus,
    pub loaded: bool,
    pub active: bool,
    pub sub_state: Seq<char>,
}

impl View for ServiceUnit {
    type V = ServiceUnitView;

    open spec fn view(&self) -> ServiceUnitView {
        ServiceUnitView {
            name: self.name@,
            display_name: self.display_name@,
            status: self.status,
            loaded: self.loaded,
            active: self.active,
            sub_state: self.sub_state@,
        }
    }
}

/// What `systemctl show` reports of a service.
#[derive(Debug)]
pub struct ServiceDetails {
    pub name: String,
    pub display_name: String,
    pub status: ServiceStatus,
    pub description: String,
    pub pid: Option<u32>,
    pub enabled: bool,
    pub loaded: bool,
    pub active: bool,
    pub sub_state: String,
    pub auto_restart: bool,
}

pub struct ServiceDetailsView {
    pub name: Seq<char>,
    pub display_name: Seq<char>,
    pub status: ServiceStatus,
    pub description: Seq<char>,
    pub pid: Option<u32>,
    pub enabled: bool,
    pub loaded: bool,
    pub active: bool,
    pub sub_state: Seq<char>,
    pub auto_restart: bool,
}

impl View for ServiceDetails {
    type V = ServiceDetailsView;

    open spec fn view(&self) -> ServiceDetailsView {
        ServiceDetailsView {
            name: self.name@,
            display_name: self.display_name@,
            status: self.status,
            description: self.description@,
            pid: self.pid,
            enabled: self.enabled,
            loaded: self.loaded,
            active: self.active,
            sub_state: self.sub_state@,
            auto_restart: self.auto_restart,
        }
    }
}

/// The status of a `list-units` row from its active flag and sub-state.
pub open spec fn unit_status(active: bool, sub: Seq<char>) -> ServiceStatus {
    if active && sub == "running"@ {
        ServiceStatus::Running
    } else if active && sub == "exited"@ {
        ServiceStatus::Stopped
    } else if !active && sub == "dead"@ {
        ServiceStatus::Stopped
    } else if !active && sub == "failed"@ {
        ServiceStatus::Failed
    } else if active && sub == "activating"@ {
        ServiceStatus::Activating
    } else if active && sub == "deactivating"@ {
        ServiceStatus::Deactivating
    } else {
        ServiceStatus::Unknown
    }
}

/// The index of the first word that ends in `.service`, from `i` on.
pub open spec fn service_word(parts: Seq<Seq<char>>, i: int) -> Option<int>
    decreases parts.len() - i,
{
    if i < 0 || i >= parts.len() {
        None
    } else if ends_with(parts[i], ".service"@) {
        Some(i)
    } else {
        service_word(parts, i + 1)
    }
}

/// The service in a `systemctl list-units` row: the first word ending in
/// `.service`, followed by the load state, the active state and the sub-state.
pub open spec fn unit_of_line(line: Seq<char>) -> Option<ServiceUnitView> {
    let parts = words(line);
    if parts.len() < 4 {
        None
    } else {
        match service_word(parts, 0) {
            None => None,
            Some(i) => if parts.len() < i + 4 {
                None
            } else {
                let active = parts[i + 2] == "active"@;
                Some(
                    ServiceUnitView {
                        name: parts[i],
                        display_name: trim_end_matches(parts[i], ".service"@),
                        status: unit_status(active, parts[i + 3]),
                        loaded: parts[i + 1] == "loaded"@ || parts[i + 1] == "not-found"@,
                        active,
                        sub_state: parts[i + 3],
                    },
                )
            },
        }
    }
}

/// The `KEY=value` properties of `systemctl show` output; a later line wins.
pub open spec fn properties(ls: Seq<Seq<char>>) -> Map<Seq<char>, Seq<char>>
    decreases ls.len(),
{
    if ls.len() == 0 {
        Map::empty()
    } else {
        let m = properties(ls.drop_last());
        let l = ls.last();
        let j = find_char_from(l, '=', 0);
        if j < l.len() {
            m.insert(l.subrange(0, j), l.subrange(j + 1, l.len() as int))
        } else {
            m
        }
    }
}

/// The property `key`, or `default`.
pub open spec fn prop_or(m: Map<Seq<char>, Seq<char>>, key: Seq<char>, default: Seq<char>) -> Seq<char> {
    if m.contains_key(key) {
        m[key]
    } else {
        default
    }
}

/// The status from `ActiveState` and `SubState`.
pub open spec fn show_status(active: Seq<char>, sub: Seq<char>) -> ServiceStatus {
    if active == "active"@ && sub == "running"@ {
        ServiceStatus::Running
    } else if active == "active"@ && sub == "exited"@ {
        ServiceStatus::Stopped
    } else if active == "inactive"@ {
        ServiceStatus::Stopped
    } else if active == "failed"@ {
        ServiceStatus::Failed
    } else if active == "activating"@ {
        ServiceStatus::Activating
    } else if active == "deactivating"@ {
        ServiceStatus::Deactivating
    } else {
        ServiceStatus::Unknown
    }
}

/// What `systemctl show NAME` output says of the service.
pub open spec fn details_of(name: Seq<char>, output: Seq<char>) -> ServiceDetailsView {
    let m = properties(lines(output));
    let active = prop_or(m, "ActiveState"@, "unknown"@);
    let sub = prop_or(m, "SubState"@, "unknown"@);
    ServiceDetailsView {
        name,
        display_name: trim_end_matches(name, ".service"@),
        status: show_status(active, sub),
        description: prop_or(m, "Description"@, Seq::empty()),
        pid: if m.contains_key("MainPID"@) {
            parse_u32_spec(m["MainPID"@])
        } else {
            None
        },
        enabled: m.contains_key("UnitFileState"@) && m["UnitFileState"@] == "enabled"@,
        loaded: m.contains_key("LoadState"@) && m["LoadState"@] == "loaded"@,
        active: active == "active"@,
        sub_state: sub,
        auto_restart: m.contains_key("Restart"@) && m["Restart"@] != "no"@,
    }
}

/// The service names left out of the services list: system services.
pub open spec fn is_relevant(name: Seq<char>) -> bool {
    &&& !starts_with(name, "systemd-"@)
    &&& !starts_with(name, "user@"@)
    &&& !starts_with(name, "getty@"@)
    &&& !starts_with(name, "dbus"@)
    &&& !starts_with(name, "polkit"@)
    &&& !starts_with(name, "rtkit"@)
    &&& !starts_with(name, "colord"@)
    &&& !starts_with(name, "cups"@)
    &&& !starts_with(name, "avahi"@)
    &&& !starts_with(name, "bluetooth"@)
    &&& !starts_with(name, "udisks2"@)
    &&& !starts_with(name, "upower"@)
    &&& !starts_with(name, "wpa_supplicant"@)
    &&& !starts_with(name, "NetworkManager"@)
    &&& !starts_with(name, "ModemManager"@)
    &&& name != "cron.service"@
    &&& name != "rsyslog.service"@
    &&& name != "snapd.service"@
    &&& name != "ssh.service"@
    &&& name != "packagekit.service"@
    &&& name != "fwupd.service"@
}

/// The TCP ports of `ss -ltnp` output that the process `pid` listens on, in
/// the order first seen: lines that mention `pid=PID` (headers skipped), the
/// port after the last `:` of the fourth column.
pub open spec fn ports_seen(ls: Seq<Seq<char>>, pid: u32) -> Seq<u16>
    decreases ls.len(),
{
    if ls.len() == 0 {
        Seq::empty()
    } else {
        let rest = ports_seen(ls.drop_last(), pid);
        let l = ls.last();
        let parts = words(l);
        if starts_with(l, "State"@) || starts_with(l, "Netid"@) || !contains(l, "pid="@ + decimal(pid as nat))
            || parts.len() < 4 {
            rest
        } else {
            match parse_u16_spec(split(parts[3], ':').last()) {
                Some(p) => if rest.contains(p) {
                    rest
                } else {
                    rest.push(p)
                },
                None => rest,
            }
        }
    }
}

/// The text `P/tcp`.
pub open spec fn tcp_entry(p: u16) -> Seq<char> {
    decimal(p as nat) + "/tcp"@
}

pub open spec fn strictly_increasing(s: Seq<u16>) -> bool {
    forall|i: int, j: int| 0 <= i < j < s.len() ==> s[i] < s[j]
}

/// The resident memory in kB of the first `VmRSS:` line of `/proc/PID/status` that reads as one.
pub open spec fn vmrss_kb(ls: Seq<Seq<char>>) -> Option<u64>
    decreases ls.len(),
{
    if ls.len() == 0 {
        None
    } else {
        let parts = words(ls[0]);
        if starts_with(ls[0], "VmRSS:"@) && parts.len() >= 2 && parse_u64_spec(parts[1]) is Some {
            parse_u64_spec(parts[1])
        } else {
            vmrss_kb(ls.drop_first())
        }
    }
}

/// The bytes received and sent by the interfaces of `/proc/PID/net/dev`
/// lines (headers already skipped), loopback left out; a column that does
/// not read as a number counts nothing.
pub open spec fn net_totals(ls: Seq<Seq<char>>) -> (int, int)
    decreases ls.len(),
{
    if ls.len() == 0 {
        (0, 0)
    } else {
        let (rx, tx) = net_totals(ls.drop_last());
        let parts = words(ls.last());
        if parts.len() < 10 || starts_with(parts[0], "lo:"@) {
            (rx, tx)
        } else {
            (
                rx + match parse_u64_spec(parts[1]) {
                    Some(v) => v as int,
                    None => 0,
                },
                tx + match parse_u64_spec(parts[9]) {
                    Some(v) => v as int,
                    None => 0,
                },
            )
        }
    }
}

/// The lines of `/proc/PID/net/dev` after its two header lines.
pub open spec fn net_dev_body(content: Seq<char>) -> Seq<Seq<char>> {
    if lines(content).len() >= 2 {
        lines(content).skip(2)
    } else {
        Seq::empty()
    }
}

/// Manages system services, with or without `sudo`.
#[derive(Debug, Clone, Copy)]
pub struct SystemServiceManager {
    use_sudo: bool,
}

/// The memory and restart count that `systemctl show` lines give, from
/// `memory` and `restarts` on: a `MemoryCurrent=` or `NRestarts=` line
/// whose value parses sets it, later lines winning.
pub open spec fn show_counters_of(ls: Seq<Seq<char>>, memory: u64, restarts: u32) -> (u64, u32)
    decreases ls.len(),
{
    if ls.len() == 0 {
        (memory, restarts)
    } else {
        let (m, r) = show_counters_of(ls.drop_last(), memory, restarts);
        let l = ls.last();
        let p = find_char_from(l, '=', 0);
        if p < l.len() {
            let key = l.subrange(0, p);
            let value = l.subrange(p + 1, l.len() as int);
            if key == "MemoryCurrent"@ {
                match parse_u64_spec(value) {
                    Some(x) => (x, r),
                    None => (m, r),
                }
            } else if key == "NRestarts"@ {
                match parse_u32_spec(value) {
                    Some(x) => (m, x),
                    None => (m, r),
                }
            } else {
                (m, r)
            }
        } else {
            (m, r)
        }
    }
}

impl SystemServiceManager {
    pub fn new(use_sudo: bool) -> (r: SystemServiceManager)
        ensures
            r.uses_sudo_spec() == use_sudo,
    {
        SystemServiceManager { use_sudo }
    }

    pub closed spec fn uses_sudo_spec(&self) -> bool {
        self.use_sudo
    }

    /// Whether commands that change services run under `sudo`.
    pub fn uses_sudo(&self) -> (r: bool)
        ensures
            r == self.uses_sudo_spec(),
    {
        self.use_sudo
    }

    fn unit_status_exec(active: bool, sub: &[char]) -> (r: ServiceStatus)
        ensures
            r == unit_status(active, sub@),
    {
        if active && chars_eq_str(sub, "running") {
            ServiceStatus::Running
        } else if active && chars_eq_str(sub, "exited") {
            ServiceStatus::Stopped
        } else if !active && chars_eq_str(sub, "dead") {
            ServiceStatus::Stopped
        } else if !active && chars_eq_str(sub, "failed") {
            ServiceStatus::Failed
        } else if active && chars_eq_str(sub, "activating") {
            ServiceStatus::Activating
        } else if active && chars_eq_str(sub, "deactivating") {
            ServiceStatus::Deactivating
        } else {
            ServiceStatus::Unknown
        }
    }

    /// The service in a row of `systemctl list-units`, if the row names one.
    pub fn parse_service_line(&self, line: &str) -> (r: Option<ServiceUnit>)
        ensures
            match r {
                Some(u) => unit_of_line(line@) == Some(u@),
                None => unit_of_line(line@) is None,
            },
    {
        let parts = split_words(&chars_of(line));
        if parts.len() < 4 {
            return None;
        }
        let suffix = chars_of(".service");
        let mut i: usize = 0;
        while i < parts.len() && !ends_with_exec(&parts[i], &suffix)
            invariant
                i <= parts@.len(),
                suffix@ == ".service"@,
                service_word(views(parts@), i as int) == service_word(views(parts@), 0),
            decreases parts@.len() - i,
        {
            i += 1;
        }
        if i >= parts.len() {
            return None;
        }
        if parts.len() - i < 4 {
            return None;
        }
        let name = string_of(&parts[i]);
        let display = trim_end_matches_exec(&parts[i], &suffix);
        let loaded = chars_eq_str(&parts[i + 1], "loaded") || chars_eq_str(&parts[i + 1], "not-found");
        let active = chars_eq_str(&parts[i + 2], "active");
        let status = Self::unit_status_exec(active, &parts[i + 3]);
        Some(
            ServiceUnit {
                name,
                display_name: string_of(&display),
                status,
                loaded,
                active,
                sub_state: string_of(&parts[i + 3]),
            },
        )
    }

    /// The `KEY=value` properties of `systemctl show` output.
    fn properties_exec(output: &str) -> (r: StrMap<String>)
        ensures
            r.wf(),
            r.map().map_values(|s: String| s@) == properties(lines(output@)),
    {
        let ls = split_lines(&chars_of(output));
        let mut m: StrMap<String> = StrMap::new();
        let mut i: usize = 0;
        while i < ls.len()
            invariant
                i <= ls@.len(),
                views(ls@) == lines(output@),
                m.wf(),
                m.map().map_values(|s: String| s@) == properties(views(ls@).take(i as int)),
            decreases ls@.len() - i,
        {
            proof {
                assert(views(ls@).take(i + 1).drop_last() == views(ls@).take(i as int));
                assert(views(ls@).take(i + 1).last() == ls@[i as int]@);
                lemma_find_char_bounds(ls@[i as int]@, '=', 0);
            }
            let l = &ls[i];
            let j = find_char_exec(l, '=', 0);
            if j < l.len() {
                let key = string_of(&slice_chars(l, 0, j));
                let value = string_of(&slice_chars(l, j + 1, l.len()));
                let ghost m0 = m.map();
                let ghost kv = key@;
                let ghost vv = value@;
                m.insert(key, value);
                proof {
                    let f = |s: String| s@;
                    assert forall|k: Seq<char>| #[trigger] m0.map_values(f).contains_key(k) == m0.contains_key(k) by {}
                    assert(m.map().map_values(f) =~= m0.map_values(f).insert(kv, vv)) by {
                        assert forall|k: Seq<char>| #[trigger] m.map().map_values(f).contains_key(k) implies m.map().map_values(f)[k]
                            == m0.map_values(f).insert(kv, vv)[k] by {
                            if k != kv {
                                assert(m0.map_values(f)[k] == f(m0[k]));
                            }
                        }
                    }
                }
            }
            i += 1;
        }
        assert(views(ls@).take(ls.len() as int) == views(ls@));
        m
    }

    /// What `systemctl show NAME` output says of the service named `name`.
    pub fn parse_service_details(&self, name: &str, output: &str) -> (r: ServiceDetails)
        ensures
            r@ == details_of(name@, output@),
    {
        let m = Self::properties_exec(output);
        let ghost pm = properties(lines(output@));
        proof {
            let f = |s: String| s@;
            assert forall|k: Seq<char>| #[trigger] m.map().contains_key(k) == pm.contains_key(k) by {
                assert(m.map().map_values(f).contains_key(k) == m.map().contains_key(k));
            }
            assert forall|k: Seq<char>| #[trigger] m.map().contains_key(k) implies m.map()[k]@ == pm[k] by {
                assert(m.map().map_values(f)[k] == f(m.map()[k]));
            }
        }
        let active_state = match m.get("ActiveState") {
            Some(s) => s.clone(),
            None => owned("unknown"),
        };
        let sub_state = match m.get("SubState") {
            Some(s) => s.clone(),
            None => owned("unknown"),
        };
        let loaded = match m.get("LoadState") {
            Some(s) => str_eq(s.as_str(), "loaded"),
            None => false,
        };
        let a = active_state.as_str();
        let sb = sub_state.as_str();
        let status = if str_eq(a, "active") && str_eq(sb, "running") {
            ServiceStatus::Running
        } else if str_eq(a, "active") && str_eq(sb, "exited") {
            ServiceStatus::Stopped
        } else if str_eq(a, "inactive") {
            ServiceStatus::Stopped
        } else if str_eq(a, "failed") {
            ServiceStatus::Failed
        } else if str_eq(a, "activating") {
            ServiceStatus::Activating
        } else if str_eq(a, "deactivating") {
            ServiceStatus::Deactivating
        } else {
            ServiceStatus::Unknown
        };
        let pid = match m.get("MainPID") {
            Some(s) => parse_u32(&chars_of(s.as_str())),
            None => None,
        };
        let enabled = match m.get("UnitFileState") {
            Some(s) => str_eq(s.as_str(), "enabled"),
            None => false,
        };
        let description = match m.get("Description") {
            Some(s) => s.clone(),
            None => String::new(),
        };
        let auto_restart = match m.get("Restart") {
            Some(s) => !str_eq(s.as_str(), "no"),
            None => false,
        };
        let display = trim_end_matches_exec(&chars_of(name), &chars_of(".service"));
        ServiceDetails {
            name: owned(name),
            display_name: string_of(&display),
            status,
            description,
            pid,
            enabled,
            loaded,
            active: str_eq(a, "active"),
            sub_state,
            auto_restart,
        }
    }

    /// Whether a service belongs in the services list (system services do not).
    pub fn is_relevant_service(name: &str) -> (r: bool)
        ensures
            r == is_relevant(name@),
    {
        let n = chars_of(name);
        !starts_with_exec(&n, &chars_of("systemd-")) && !starts_with_exec(&n, &chars_of("user@"))
            && !starts_with_exec(&n, &chars_of("getty@")) && !starts_with_exec(&n, &chars_of("dbus"))
            && !starts_with_exec(&n, &chars_of("polkit")) && !starts_with_exec(&n, &chars_of("rtkit"))
            && !starts_with_exec(&n, &chars_of("colord")) && !starts_with_exec(&n, &chars_of("cups"))
            && !starts_with_exec(&n, &chars_of("avahi")) && !starts_with_exec(
            &n,
            &chars_of("bluetooth"),
        ) && !starts_with_exec(&n, &chars_of("udisks2")) && !starts_with_exec(
            &n,
            &chars_of("upower"),
        ) && !starts_with_exec(&n, &chars_of("wpa_supplicant")) && !starts_with_exec(
            &n,
            &chars_of("NetworkManager"),
        ) && !starts_with_exec(&n, &chars_of("ModemManager")) && !str_eq(name, "cron.service")
            && !str_eq(name, "rsyslog.service") && !str_eq(name, "snapd.service") && !str_eq(
            name,
            "ssh.service",
        ) && !str_eq(name, "packagekit.service") && !str_eq(name, "fwupd.service")
    }

    /// The services that belong in the services list, in their order.
    pub fn filter_relevant_services(&self, services: Vec<ServiceUnit>) -> (r: Vec<ServiceUnit>)
        ensures
            r@.map_values(|u: ServiceUnit| u@) == services@.map_values(|u: ServiceUnit| u@).filter(
                |u: ServiceUnitView| is_relevant(u.name),
            ),
    {
        let ghost all = services@.map_values(|u: ServiceUnit| u@);
        let mut rest = services;
        let mut kept: Vec<ServiceUnit> = Vec::new();
        let ghost mut taken: int = 0;
        while rest.len() > 0
            invariant
                0 <= taken <= all.len(),
                rest@.map_values(|u: ServiceUnit| u@) == all.skip(taken),
                kept@.map_values(|u: ServiceUnit| u@) == all.take(taken).filter(|u: ServiceUnitView| is_relevant(u.name)),
            decreases rest@.len(),
        {
            let ghost before = rest@;
            let u = rest.remove(0);
            proof {
                let bv = before.map_values(|u: ServiceUnit| u@);
                assert(bv == all.skip(taken));
                assert(bv[0] == u@);
                assert(all.skip(taken)[0] == all[taken]);
                assert(all[taken] == u@);
                assert(rest@ =~= before.subrange(1, before.len() as int));
                assert(rest@.map_values(|u: ServiceUnit| u@) =~= bv.subrange(1, bv.len() as int));
                assert(bv.subrange(1, bv.len() as int) =~= all.skip(taken + 1));
                reveal(Seq::filter);
                assert(all.take(taken + 1).drop_last() =~= all.take(taken));
                assert(all.take(taken + 1).last() == u@);
            }
            if Self::is_relevant_service(u.name.as_str()) {
                let ghost kb = kept@;
                kept.push(u);
                proof {
                    assert(kept@.map_values(|u: ServiceUnit| u@) =~= kb.map_values(|u: ServiceUnit| u@).push(kept@.last()@));
                }
            }
            proof {
                taken = taken + 1;
            }
        }
        proof {
            assert(all.take(taken) =~= all);
        }
        kept
    }

    /// The `P/tcp` ports that process `pid` listens on, according to `ss
    /// -ltnp` output, each once, in increasing order.
    pub fn listening_ports_from(&self, output: &str, pid: u32) -> (r: Vec<String>)
        ensures
            exists|s: Seq<u16>|
                strictly_increasing(s) && s.to_set() == ports_seen(lines(output@), pid).to_set()
                    && string_views(r@) == s.map_values(|p: u16| tcp_entry(p)),
    {
        let ls = split_lines(&chars_of(output));
        let mut pat: Vec<char> = chars_of("pid=");
        push_decimal(&mut pat, pid as u64);
        let mut seen: Vec<u16> = Vec::new();
        let mut i: usize = 0;
        while i < ls.len()
            invariant
                i <= ls@.len(),
                views(ls@) == lines(output@),
                pat@ == "pid="@ + decimal(pid as nat),
                seen@ == ports_seen(views(ls@).take(i as int), pid),
                seen@.no_duplicates(),
            decreases ls@.len() - i,
        {
            proof {
                assert(views(ls@).take(i + 1).drop_last() == views(ls@).take(i as int));
                assert(views(ls@).take(i + 1).last() == ls@[i as int]@);
            }
            let l = &ls[i];
            let parts = split_words(l);
            if !(starts_with_exec(l, &chars_of("State")) || starts_with_exec(l, &chars_of("Netid"))
                || !contains_exec(l, &pat) || parts.len() < 4) {
                let pieces = split_on(&parts[3], ':');
                proof {
                    lemma_split_nonempty(parts@[3]@, ':');
                }
                match parse_u16(&pieces[pieces.len() - 1]) {
                    Some(p) => {
                        let mut found = false;
                        let mut k: usize = 0;
                        while k < seen.len()
                            invariant
                                k <= seen@.len(),
                                found <==> exists|j: int| 0 <= j < k && seen@[j] == p,
                            decreases seen@.len() - k,
                        {
                            if seen[k] == p {
                                found = true;
                            }
                            k += 1;
                        }
                        proof {
                            if found {
                                let j = choose|j: int| 0 <= j < k && seen@[j] == p;
                                assert(seen@.contains(p));
                            } else {
                                assert(!seen@.contains(p));
                            }
                        }
                        if !found {
                            seen.push(p);
                        }
                    },
                    None => {},
                }
            }
            i += 1;
        }
        proof {
            assert(views(ls@).take(ls.len() as int) == views(ls@));
        }
        let sorted = sort_ports(&seen);
        let ghost ss = sorted@;
        let mut out: Vec<String> = Vec::new();
        let mut k: usize = 0;
        while k < sorted.len()
            invariant
                k <= sorted@.len(),
                string_views(out@) == sorted@.take(k as int).map_values(|p: u16| tcp_entry(p)),
            decreases sorted@.len() - k,
        {
            let mut e: Vec<char> = Vec::new();
            push_decimal(&mut e, sorted[k] as u64);
            push_str(&mut e, "/tcp");
            let ghost before = out@;
            out.push(string_of(&e));
            proof {
                assert(string_views(out@) =~= string_views(before).push(tcp_entry(sorted@[k as int])));
                assert(sorted@.take(k + 1).map_values(|p: u16| tcp_entry(p)) =~= sorted@.take(
                    k as int,
                ).map_values(|p: u16| tcp_entry(p)).push(tcp_entry(sorted@[k as int])));
            }
            k += 1;
        }
        assert(sorted@.take(sorted.len() as int) == sorted@);
        assert(strictly_increasing(ss) && ss.to_set() == ports_seen(lines(output@), pid).to_set()
            && string_views(out@) == ss.map_values(|p: u16| tcp_entry(p)));
        out
    }

    /// The memory in bytes and the restart count from `systemctl show`
    /// output: each `MemoryCurrent=` or `NRestarts=` line whose value is a
    /// number sets it (a later line wins); `memory` is the memory where none
    /// does, and the count starts at zero.
    pub fn show_counters(&self, output: &str, memory: u64) -> (r: (u64, u32))
        ensures
            r == show_counters_of(lines(output@), memory, 0),
    {
        let ls = split_lines(&chars_of(output));
        let ghost all = views(ls@);
        let mem_key = chars_of("MemoryCurrent");
        let restarts_key = chars_of("NRestarts");
        let mut mem: u64 = memory;
        let mut restarts: u32 = 0;
        let mut i: usize = 0;
        while i < ls.len()
            invariant
                i <= ls@.len(),
                all == views(ls@),
                all == lines(output@),
                mem_key@ == "MemoryCurrent"@,
                restarts_key@ == "NRestarts"@,
                (mem, restarts) == show_counters_of(all.take(i as int), memory, 0),
            decreases ls@.len() - i,
        {
            let line = &ls[i];
            proof {
                assert(all.take(i + 1).drop_last() =~= all.take(i as int));
                assert(all.take(i + 1).last() == line@);
                lemma_find_char_bounds(line@, '=', 0);
            }
            let p = find_char_exec(line, '=', 0);
            if p < line.len() {
                let key = slice_chars(line, 0, p);
                let value = slice_chars(line, p + 1, line.len());
                if chars_eq(&key, &mem_key) {
                    match parse_u64(&value) {
                        Some(x) => {
                            mem = x;
                        },
                        None => {},
                    }
                } else if chars_eq(&key, &restarts_key) {
                    match parse_u32(&value) {
                        Some(x) => {
                            restarts = x;
                        },
                        None => {},
                    }
                }
            }
            i += 1;
        }
        proof {
            assert(all.take(ls.len() as int) =~= all);
        }
        (mem, restarts)
    }

    /// The resident memory in bytes, from `/proc/PID/status`.
    pub fn memory_from_status(&self, content: &str) -> (r: Option<u64>)
        requires
            vmrss_kb(lines(content@)) matches Some(kb) ==> kb * 1024 <= u64::MAX,
        ensures
            r == match vmrss_kb(lines(content@)) {
                Some(kb) => Some((kb * 1024) as u64),
                None => None,
            },
    {
        let ls = split_lines(&chars_of(content));
        let mut i: usize = 0;
        assert(views(ls@).skip(0) =~= views(ls@));
        while i < ls.len()
            invariant
                i <= ls@.len(),
                views(ls@) == lines(content@),
                vmrss_kb(views(ls@).skip(i as int)) == vmrss_kb(views(ls@)),
                vmrss_kb(lines(content@)) matches Some(kb) ==> kb * 1024 <= u64::MAX,
            decreases ls@.len() - i,
        {
            let ghost rest = views(ls@).skip(i as int);
            assert(rest[0] == ls@[i as int]@);
            let parts = split_words(&ls[i]);
            if starts_with_exec(&ls[i], &chars_of("VmRSS:")) && parts.len() >= 2 {
                match parse_u64(&parts[1]) {
                    Some(kb) => {
                        return Some(kb * 1024);
                    },
                    None => {},
                }
            }
            assert(rest.drop_first() =~= views(ls@).skip(i + 1));
            i += 1;
        }
        assert(views(ls@).skip(i as int) =~= Seq::<Seq<char>>::empty());
        None
    }

    /// Bytes received and sent by the process's interfaces, loopback left
    /// out, from `/proc/PID/net/dev` (its first two lines are headers).
    pub fn network_from_net_dev(&self, content: &str) -> (r: (u64, u64))
        requires
            net_totals(net_dev_body(content@)).0 <= u64::MAX,
            net_totals(net_dev_body(content@)).1 <= u64::MAX,
        ensures
            r.0 == net_totals(net_dev_body(content@)).0,
            r.1 == net_totals(net_dev_body(content@)).1,
    {
        let ls = split_lines(&chars_of(content));
        let ghost body = net_dev_body(content@);
        proof {
            lemma_net_totals_prefix(body);
        }
        let mut rx: u64 = 0;
        let mut tx: u64 = 0;
        let mut i: usize = 2;
        while i < ls.len()
            invariant
                2 <= i,
                i <= ls@.len() || ls@.len() < 2,
                views(ls@) == lines(content@),
                body == net_dev_body(content@),
                ls@.len() >= 2 ==> body == views(ls@).skip(2),
                net_totals(body).0 <= u64::MAX,
                net_totals(body).1 <= u64::MAX,
                forall|k: int| 0 <= k <= body.len() ==> #[trigger] net_totals(body.take(k)).0 <= net_totals(body).0
                    && net_totals(body.take(k)).1 <= net_totals(body).1,
                i <= ls@.len() ==> rx == net_totals(body.take(i - 2)).0 && tx == net_totals(
                    body.take(i - 2),
                ).1,
                ls@.len() < 2 ==> rx == 0 && tx == 0,
            decreases ls@.len() - i,
        {
            proof {
                assert(body.take(i - 1).drop_last() == body.take(i - 2));
                assert(body.take(i - 1).last() == ls@[i as int]@);
                assert(net_totals(body.take(i - 1)).0 <= net_totals(body).0);
                assert(net_totals(body.take(i - 1)).1 <= net_totals(body).1);
            }
            let parts = split_words(&ls[i]);
            if parts.len() >= 10 && !starts_with_exec(&parts[0], &chars_of("lo:")) {
                match parse_u64(&parts[1]) {
                    Some(v) => {
                        rx = rx + v;
                    },
                    None => {},
                }
                match parse_u64(&parts[9]) {
                    Some(v) => {
                        tx = tx + v;
                    },
                    None => {},
                }
            }
            i += 1;
        }
        proof {
            if ls@.len() >= 2 {
                assert(body.take(ls@.len() - 2) == body);
            } else {
                assert(body.len() == 0);
            }
        }
        (rx, tx)
    }
}

/// The totals of a prefix are at most the totals of the whole.
pub proof fn lemma_net_totals_prefix(ls: Seq<Seq<char>>)
    ensures
        forall|k: int| 0 <= k <= ls.len() ==> #[trigger] net_totals(ls.take(k)).0 <= net_totals(ls).0
            && net_totals(ls.take(k)).1 <= net_totals(ls).1,
    decreases ls.len(),
{
    if ls.len() > 0 {
        lemma_net_totals_prefix(ls.drop_last());
        assert forall|k: int| 0 <= k <= ls.len() implies #[trigger] net_totals(ls.take(k)).0 <= net_totals(ls).0
            && net_totals(ls.take(k)).1 <= net_totals(ls).1 by {
            if k < ls.len() {
                assert(ls.take(k) == ls.drop_last().take(k));
            } else {
                assert(ls.take(k) == ls);
            }
        }
    } else {
        assert forall|k: int| 0 <= k <= ls.len() implies #[trigger] net_totals(ls.take(k)).0 <= net_totals(ls).0
            && net_totals(ls.take(k)).1 <= net_totals(ls).1 by {
            assert(ls.take(k) == ls);
        }
    }
}

/// Whether `s` spells `t`.
fn chars_eq_str(s: &[char], t: &str) -> (r: bool)
    ensures
        r == (s@ == t@),
{
    crate::text::chars_eq(s, &chars_of(t))
}

/// `v` in increasing order; `v` holds no value twice.
fn sort_ports(v: &Vec<u16>) -> (r: Vec<u16>)
    requires
        v@.no_duplicates(),
    ensures
        strictly_increasing(r@),
        r@.to_set() == v@.to_set(),
{
    let mut out: Vec<u16> = Vec::new();
    let mut i: usize = 0;
    while i < v.len()
        invariant
            i <= v@.len(),
            v@.no_duplicates(),
            strictly_increasing(out@),
            out@.to_set() == v@.take(i as int).to_set(),
        decreases v@.len() - i,
    {
        let x = v[i];
        let mut j: usize = 0;
        while j < out.len() && out[j] < x
            invariant
                j <= out@.len(),
                forall|k: int| 0 <= k < j ==> out@[k] < x,
            decreases out@.len() - j,
        {
            j += 1;
        }
        proof {
            assert(!v@.take(i as int).contains(x)) by {
                if v@.take(i as int).contains(x) {
                    let k = choose|k: int| 0 <= k < i && v@.take(i as int)[k] == x;
                    assert(v@[k] == v@[i as int]);
                }
            }
            assert(!out@.to_set().contains(x));
            if j < out@.len() {
                assert(out@[j as int] != x) by {
                    assert(out@.to_set().contains(out@[j as int]));
                }
            }
        }
        let ghost ob = out@;
        out.insert(j, x);
        proof {
            assert forall|a: int, b: int| 0 <= a < b < out@.len() implies out@[a] < out@[b] by {
                if b < j {
                    assert(out@[a] == ob[a] && out@[b] == ob[b]);
                } else if b == j {
                    assert(out@[a] == ob[a]);
                } else if a < j {
                    assert(out@[a] == ob[a] && out@[b] == ob[b - 1]);
                    assert(ob[j as int] >= x);
                    if j < b - 1 {
                        assert(ob[j as int] < ob[b - 1]);
                    }
                } else if a == j {
                    assert(out@[b] == ob[b - 1]);
                    if j < b - 1 {
                        assert(ob[j as int] < ob[b - 1]);
                    }
                } else {
                    assert(out@[a] == ob[a - 1] && out@[b] == ob[b - 1]);
                }
            }
            let t1 = v@.take(i + 1);
            let t0 = v@.take(i as int);
            assert(out@ == ob.insert(j as int, x));
            assert(t1 == t0.push(x));
            assert forall|y: u16| #[trigger] out@.to_set().contains(y) <==> t1.to_set().contains(y) by {
                if out@.contains(y) {
                    let k = choose|k: int| 0 <= k < out@.len() && out@[k] == y;
                    if k < j {
                        assert(ob[k] == y);
                        assert(ob.to_set().contains(y));
                    } else if k > j {
                        assert(ob[k - 1] == y);
                        assert(ob.to_set().contains(y));
                    }
                    if y != x {
                        assert(t0.contains(y));
                        let m = choose|m: int| 0 <= m < i && t0[m] == y;
                        assert(t1[m] == y);
                    } else {
                        assert(t1[i as int] == y);
                    }
                }
                if t1.contains(y) {
                    let m = choose|m: int| 0 <= m < i + 1 && t1[m] == y;
                    if m < i {
                        assert(t0[m] == y);
                        assert(t0.to_set().contains(y));
                        assert(ob.contains(y));
                        let k = choose|k: int| 0 <= k < ob.len() && ob[k] == y;
                        if k < j {
                            assert(out@[k] == y);
                        } else {
                            assert(out@[k + 1] == y);
                        }
                    } else {
                        assert(out@[j as int] == y);
                    }
                }
            }
            assert(out@.to_set() =~= v@.take(i + 1).to_set());
        }
        i += 1;
    }
    assert(v@.take(v.len() as int) == v@);
    out
}

} // verus!
