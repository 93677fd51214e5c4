//! Network facts about the host, and checks of what it exposes.

use vstd::prelude::*;
use crate::text::{
    chars_of, contains, contains_exec, decimal, opt_view, owned, push_chars, push_decimal,
    push_str, split, split_on, split_words, starts_with, starts_with_exec, str_eq, string_of,
    string_views, trim, trim_chars, views, words,
};

verus! {

/// What is known of the host's addresses and names.
#[derive(Debug)]
pub struct NetworkInfo {
    pub public_ipv4: Option<String>,
    pub public_ipv6: Option<String>,
    pub lan_ip: Option<String>,
    pub hostname: Option<String>,
    /// The domains, each once.
    pub domains: Vec<String>,
}

/// What the host was asked, as the text that came back: environment
/// variables, and the output of commands that succeeded (`None` when a
/// variable is unset or a command failed).
#[derive(Debug)]
pub struct NetworkProbes {
    /// `PUBLIC_IP`.
    pub env_public_ip: Option<String>,
    /// `curl -s -4 https://api.ipify.org`.
    pub ipify_v4: Option<String>,
    /// `curl -s -4 https://ifconfig.me`.
    pub ifconfig_v4: Option<String>,
    /// `curl -s -6 https://api6.ipify.org`.
    pub ipify_v6: Option<String>,
    /// `hostname -I` (Linux only).
    pub host_addresses: Option<String>,
    /// `hostname`.
    pub hostname: Option<String>,
    /// `DOMAIN`.
    pub env_domain: Option<String>,
    /// `DOMAINS`, comma-separated.
    pub env_domains: Option<String>,
}

/// A service's answer, trimmed, when it is not empty and holds `marker`.
pub open spec fn address_answer(out: Option<Seq<char>>, marker: char) -> Option<Seq<char>> {
    match out {
        Some(o) => if trim(o).len() > 0 && trim(o).contains(marker) {
            Some(trim(o))
        } else {
            None
        },
        None => None,
    }
}

/// The public IPv4 address: `PUBLIC_IP` when set and not empty, else the
/// first answer of the two services that looks like an IPv4 address.
pub open spec fn public_ipv4_of(p: NetworkProbes) -> Option<Seq<char>> {
    match opt_view(p.env_public_ip) {
        Some(e) if e.len() > 0 => Some(e),
        _ => match address_answer(opt_view(p.ipify_v4), '.') {
            Some(a) => Some(a),
            None => address_answer(opt_view(p.ifconfig_v4), '.'),
        },
    }
}

/// A private-network address: `192.168.*`, `10.*` or `172.*`.
pub open spec fn is_private(ip: Seq<char>) -> bool {
    starts_with(ip, "192.168."@) || starts_with(ip, "10."@) || starts_with(ip, "172."@)
}

/// The first private address among the words of `out`.
pub open spec fn first_private(ws: Seq<Seq<char>>) -> Option<Seq<char>>
    decreases ws.len(),
{
    if ws.len() == 0 {
        None
    } else if is_private(ws[0]) {
        Some(ws[0])
    } else {
        first_private(ws.drop_first())
    }
}

/// The domains of `DOMAIN` and the trimmed non-empty items of `DOMAINS`, each once.
pub open spec fn domain_candidates(p: NetworkProbes) -> Seq<Seq<char>> {
    let d = match opt_view(p.env_domain) {
        Some(x) if x.len() > 0 => seq![x],
        _ => Seq::empty(),
    };
    let more = match opt_view(p.env_domains) {
        Some(x) => split(x, ',').map_values(|t: Seq<char>| trim(t)).filter(|t: Seq<char>| t.len() > 0),
        None => Seq::empty(),
    };
    d + more
}

/// What the probes say of the host.
pub struct NetworkInfoView {
    pub public_ipv4: Option<Seq<char>>,
    pub public_ipv6: Option<Seq<char>>,
    pub lan_ip: Option<Seq<char>>,
    pub hostname: Option<Seq<char>>,
    pub domains: Set<Seq<char>>,
}

pub open spec fn network_info_of(p: NetworkProbes) -> NetworkInfoView {
    NetworkInfoView {
        public_ipv4: public_ipv4_of(p),
        public_ipv6: address_answer(opt_view(p.ipify_v6), ':'),
        lan_ip: match opt_view(p.host_addresses) {
            Some(o) => first_private(words(o)),
            None => None,
        },
        hostname: match opt_view(p.hostname) {
            Some(h) => if trim(h).len() > 0 {
                Some(trim(h))
            } else {
                None
            },
            None => None,
        },
        domains: domain_candidates(p).to_set(),
    }
}

proof fn lemma_push_to_set(a: Seq<Seq<char>>, b: Seq<Seq<char>>, t: Seq<char>)
    requires
        a.to_set() == b.to_set(),
    ensures
        a.push(t).to_set() == b.push(t).to_set(),
{
    assert forall|x: Seq<char>| a.push(t).contains(x) implies b.push(t).contains(x) by {
        let i = choose|i: int| 0 <= i < a.push(t).len() && a.push(t)[i] == x;
        if i < a.len() {
            assert(a[i] == x);
            assert(a.to_set().contains(x));
            assert(b.contains(x));
            let j = choose|j: int| 0 <= j < b.len() && b[j] == x;
            assert(b.push(t)[j] == x);
        } else {
            assert(b.push(t)[b.len() as int] == x);
        }
    }
    assert forall|x: Seq<char>| b.push(t).contains(x) implies a.push(t).contains(x) by {
        let i = choose|i: int| 0 <= i < b.push(t).len() && b.push(t)[i] == x;
        if i < b.len() {
            assert(b[i] == x);
            assert(b.to_set().contains(x));
            assert(a.contains(x));
            let j = choose|j: int| 0 <= j < a.len() && a[j] == x;
            assert(a.push(t)[j] == x);
        } else {
            assert(a.push(t)[a.len() as int] == x);
        }
    }
    assert(a.push(t).to_set() =~= b.push(t).to_set());
}

proof fn lemma_push_member_to_set(b: Seq<Seq<char>>, t: Seq<char>)
    requires
        b.to_set().contains(t),
    ensures
        b.push(t).to_set() == b.to_set(),
{
    assert forall|x: Seq<char>| b.push(t).contains(x) implies b.contains(x) by {
        let i = choose|i: int| 0 <= i < b.push(t).len() && b.push(t)[i] == x;
        if i < b.len() {
            assert(b[i] == x);
        }
    }
    assert forall|x: Seq<char>| b.contains(x) implies b.push(t).contains(x) by {
        let i = choose|i: int| 0 <= i < b.len() && b[i] == x;
        assert(b.push(t)[i] == x);
    }
    assert(b.push(t).to_set() =~= b.to_set());
}

/// Works out network facts from what the host answered.
#[derive(Debug, Clone, Copy)]
pub struct NetworkInfoDetector {}

impl NetworkInfoDetector {
    pub fn new() -> (r: NetworkInfoDetector) {
        NetworkInfoDetector {  }
    }

    fn address_answer_exec(out: &Option<String>, marker: char) -> (r: Option<String>)
        ensures
            opt_view(r) == address_answer(opt_view(*out), marker),
    {
        match out {
            Some(o) => {
                let t = trim_chars(&chars_of(o.as_str()));
                let mut has = false;
                let mut i: usize = 0;
                while i < t.len()
                    invariant
                        i <= t@.len(),
                        has <==> exists|k: int| 0 <= k < i && t@[k] == marker,
                    decreases t@.len() - i,
                {
                    if t[i] == marker {
                        has = true;
                    }
                    i += 1;
                }
                if t.len() > 0 && has {
                    Some(string_of(&t))
                } else {
                    None
                }
            },
            None => None,
        }
    }

    fn first_private_exec(ws: &Vec<Vec<char>>) -> (r: Option<String>)
        ensures
            opt_view(r) == first_private(views(ws@)),
    {
        let mut i: usize = 0;
        assert(views(ws@).skip(0) =~= views(ws@));
        while i < ws.len()
            invariant
                i <= ws@.len(),
                first_private(views(ws@).skip(i as int)) == first_private(views(ws@)),
            decreases ws@.len() - i,
        {
            let ghost rest = views(ws@).skip(i as int);
            assert(rest[0] == ws@[i as int]@);
            let w = &ws[i];
            if starts_with_exec(w, &chars_of("192.168.")) || starts_with_exec(w, &chars_of("10."))
                || starts_with_exec(w, &chars_of("172.")) {
                return Some(string_of(w));
            }
            assert(rest.drop_first() =~= views(ws@).skip(i + 1));
            i += 1;
        }
        assert(views(ws@).skip(i as int) =~= Seq::<Seq<char>>::empty());
        None
    }

    /// The domains named by the environment, each once, in the order first named.
    fn domains_exec(p: &NetworkProbes) -> (r: Vec<String>)
        ensures
            string_views(r@).to_set() == domain_candidates(*p).to_set(),
            string_views(r@).no_duplicates(),
    {
        let mut out: Vec<String> = Vec::new();
        let ghost mut seen: Seq<Seq<char>> = Seq::empty();
        match &p.env_domain {
            Some(d) => {
                if chars_of(d.as_str()).len() > 0 {
                    out.push(d.clone());
                    proof {
                        seen = seq![d@];
                        assert(string_views(out@) =~= seen);
                    }
                }
            },
            None => {},
        }
        proof {
            assert(string_views(out@) =~= seen);
            let d = match opt_view(p.env_domain) {
                Some(x) if x.len() > 0 => seq![x],
                _ => Seq::<Seq<char>>::empty(),
            };
            assert(seen == d);
        }
        match &p.env_domains {
            Some(all) => {
                let parts = split_on(&chars_of(all.as_str()), ',');
                let ghost items = views(parts@).map_values(|t: Seq<char>| trim(t));
                let mut i: usize = 0;
                let ghost base = seen;
                while i < parts.len()
                    invariant
                        i <= parts@.len(),
                        items == views(parts@).map_values(|t: Seq<char>| trim(t)),
                        seen == base + items.take(i as int).filter(|t: Seq<char>| t.len() > 0),
                        string_views(out@).to_set() == seen.to_set(),
                        string_views(out@).no_duplicates(),
                    decreases parts@.len() - i,
                {
                    let t = trim_chars(&parts[i]);
                    proof {
                        assert(items.take(i + 1) =~= items.take(i as int).push(items[i as int]));
                        reveal(Seq::filter);
                        assert(items.take(i + 1).drop_last() =~= items.take(i as int));
                    }
                    if t.len() > 0 {
                        let ts = string_of(&t);
                        let mut dup = false;
                        let mut k: usize = 0;
                        while k < out.len()
                            invariant
                                k <= out@.len(),
                                dup <==> exists|j: int| 0 <= j < k && out@[j]@ == ts@,
                            decreases out@.len() - k,
                        {
                            if str_eq(out[k].as_str(), ts.as_str()) {
                                dup = true;
                            }
                            k += 1;
                        }
                        let ghost old_seen = seen;
                        proof {
                            seen = seen.push(t@);
                        }
                        if !dup {
                            let ghost before = out@;
                            out.push(ts);
                            proof {
                                assert(string_views(out@) =~= string_views(before).push(t@));
                                assert forall|a: int, b: int|
                                    0 <= a < b < string_views(out@).len() implies string_views(
                                    out@,
                                )[a] != string_views(out@)[b] by {
                                    if b == string_views(out@).len() - 1 {
                                        assert(out@[a]@ == string_views(out@)[a]);
                                    }
                                }
                                lemma_push_to_set(string_views(before), old_seen, t@);
                            }
                        } else {
                            proof {
                                let j = choose|j: int| 0 <= j < out@.len() && out@[j]@ == ts@;
                                assert(string_views(out@)[j] == t@);
                                assert(string_views(out@).contains(t@));
                                assert(string_views(out@).to_set().contains(t@));
                                assert(old_seen.to_set().contains(t@));
                                lemma_push_member_to_set(old_seen, t@);
                            }
                        }
                    }
                    i += 1;
                }
                proof {
                    assert(items.take(parts.len() as int) == items);
                    assert(views(parts@) == split(all@, ','));
                }
            },
            None => {
                proof {
                    assert(seen + Seq::<Seq<char>>::empty() =~= seen);
                }
            },
        }
        out
    }

    /// The facts that the probes give: see `network_info_of`.
    pub fn get_info(&self, probes: &NetworkProbes) -> (r: NetworkInfo)
        ensures
            (NetworkInfoView {
                public_ipv4: opt_view(r.public_ipv4),
                public_ipv6: opt_view(r.public_ipv6),
                lan_ip: opt_view(r.lan_ip),
                hostname: opt_view(r.hostname),
                domains: string_views(r.domains@).to_set(),
            }) == network_info_of(*probes),
            string_views(r.domains@).no_duplicates(),
    {
        let public_ipv4 = match &probes.env_public_ip {
            Some(e) if chars_of(e.as_str()).len() > 0 => Some(e.clone()),
            _ => match Self::address_answer_exec(&probes.ipify_v4, '.') {
                Some(a) => Some(a),
                None => Self::address_answer_exec(&probes.ifconfig_v4, '.'),
            },
        };
        let public_ipv6 = Self::address_answer_exec(&probes.ipify_v6, ':');
        let lan_ip = match &probes.host_addresses {
            Some(o) => Self::first_private_exec(&split_words(&chars_of(o.as_str()))),
            None => None,
        };
        let hostname = match &probes.hostname {
            Some(h) => {
                let t = trim_chars(&chars_of(h.as_str()));
                if t.len() > 0 {
                    Some(string_of(&t))
                } else {
                    None
                }
            },
            None => None,
        };
        let domains = Self::domains_exec(probes);
        NetworkInfo { public_ipv4, public_ipv6, lan_ip, hostname, domains }
    }
}

// ---------------------------------------------------------------------------
// Security checks
// ---------------------------------------------------------------------------

/// Kinds of security problem.
#[derive(Debug, Clone, Copy, PartialEq, Eq, Structural)]
pub enum SecurityIssueType {
    PubliclyExposedSensitivePort,
    MissingSSL,
    RunningAsRoot,
    WeakAuthentication,
}

/// One security problem found.
#[derive(Debug)]
pub struct SecurityWarning {
    pub issue_type: SecurityIssueType,
    /// "critical", "high", "medium" or "low".
    pub severity: String,
    pub service: String,
    pub description: String,
    pub recommendation: String,
}

pub struct SecurityWarningView {
    pub issue_type: SecurityIssueType,
    pub severity: Seq<char>,
    pub service: Seq<char>,
    pub description: Seq<char>,
    pub recommendation: Seq<char>,
}

impl View for SecurityWarning {
    type V = SecurityWarningView;

    open spec fn view(&self) -> SecurityWarningView {
        SecurityWarningView {
            issue_type: self.issue_type,
            severity: self.severity@,
            service: self.service@,
            description: self.description@,
            recommendation: self.recommendation@,
        }
    }
}

pub open spec fn warning_views(v: Seq<SecurityWarning>) -> Seq<SecurityWarningView> {
    v.map_values(|w: SecurityWarning| w@)
}

/// The ports that should not be open to everyone, with the service usually
/// behind them and why.
pub open spec fn sensitive_port(port: u16) -> Option<(Seq<char>, Seq<char>)> {
    if port == 3306 {
        Some(("MySQL"@, "Database server should not be publicly accessible"@))
    } else if port == 5432 {
        Some(("PostgreSQL"@, "Database server should not be publicly accessible"@))
    } else if port == 6379 {
        Some(("Redis"@, "Cache server should not be publicly accessible"@))
    } else if port == 27017 {
        Some(("MongoDB"@, "Database server should not be publicly accessible"@))
    } else if port == 3389 {
        Some(("RDP"@, "Remote desktop protocol should not be publicly accessible"@))
    } else if port == 5900 {
        Some(("VNC"@, "VNC server should not be publicly accessible"@))
    } else if port == 9200 {
        Some(("Elasticsearch"@, "Search engine should not be publicly accessible"@))
    } else if port == 8080 {
        Some(("Common HTTP Alt"@, "May expose admin panels or development servers"@))
    } else {
        None
    }
}

/// The warning for `service` listening publicly on a sensitive `port`.
pub open spec fn exposed_port_warning(port: u16, service: Seq<char>, name: Seq<char>, why: Seq<char>) -> SecurityWarningView {
    SecurityWarningView {
        issue_type: SecurityIssueType::PubliclyExposedSensitivePort,
        severity: if port == 3389 || port == 3306 || port == 5432 {
            "critical"@
        } else {
            "high"@
        },
        service,
        description: "Port "@ + decimal(port as nat) + " ("@ + name + ") is publicly accessible: "@ + why,
        recommendation: "Use firewall rules to restrict access to "@ + decimal(port as nat)
            + " or bind to 127.0.0.1 only"@,
    }
}

/// One warning for each listed port that is sensitive, in the order given.
pub open spec fn port_warnings(ports: Seq<(u16, Seq<char>)>) -> Seq<SecurityWarningView>
    decreases ports.len(),
{
    if ports.len() == 0 {
        Seq::empty()
    } else {
        let rest = port_warnings(ports.drop_last());
        let (port, service) = ports.last();
        match sensitive_port(port) {
            Some((name, why)) => rest.push(exposed_port_warning(port, service, name, why)),
            None => rest,
        }
    }
}

pub open spec fn port_views(v: Seq<(u16, String)>) -> Seq<(u16, Seq<char>)> {
    v.map_values(|p: (u16, String)| (p.0, p.1@))
}

/// The warning for plain HTTP on a public web port.
pub open spec fn ssl_warning(has_ssl: bool, is_public: bool, port: u16) -> Option<SecurityWarningView> {
    if is_public && (port == 80 || port == 8080) && !has_ssl {
        Some(
            SecurityWarningView {
                issue_type: SecurityIssueType::MissingSSL,
                severity: "medium"@,
                service: "Port "@ + decimal(port as nat),
                description: "HTTP service on port "@ + decimal(port as nat) + " is not using SSL/TLS"@,
                recommendation: "Enable SSL/TLS encryption for public web services"@,
            },
        )
    } else {
        None
    }
}

/// The ports that are never to be open to everyone: MySQL, PostgreSQL,
/// Redis, MongoDB, RDP, VNC, Elasticsearch and the common HTTP alternative.
pub open spec fn listed_sensitive(port: u16) -> bool {
    port == 3306 || port == 5432 || port == 6379 || port == 27017 || port == 3389 || port == 5900
        || port == 9200 || port == 8080
}

/// How many of the scanned ports are among the sensitive ones.
pub open spec fn listed_count(ports: Seq<(u16, Seq<char>)>) -> nat
    decreases ports.len(),
{
    if ports.len() == 0 {
        0
    } else {
        listed_count(ports.drop_last()) + if listed_sensitive(ports.last().0) {
            1nat
        } else {
            0nat
        }
    }
}

/// The scan gives exactly one warning for each scanned port among 3306,
/// 5432, 6379, 27017, 3389, 5900, 9200 and 8080, and none for other ports.
pub proof fn law_one_warning_per_sensitive_port(ports: Seq<(u16, Seq<char>)>)
    ensures
        port_warnings(ports).len() == listed_count(ports),
    decreases ports.len(),
{
    if ports.len() > 0 {
        law_one_warning_per_sensitive_port(ports.drop_last());
    }
}

/// Scanning one sensitive port gives one warning about that port's public
/// exposure, naming its service and the port; it is critical for 3306,
/// 3389 and 5432 and high for the others.
pub proof fn law_sensitive_port_warning(port: u16, service: Seq<char>)
    requires
        listed_sensitive(port),
    ensures
        port_warnings(seq![(port, service)]).len() == 1,
        port_warnings(seq![(port, service)])[0].issue_type
            == SecurityIssueType::PubliclyExposedSensitivePort,
        port_warnings(seq![(port, service)])[0].service == service,
        crate::text::starts_with(
            port_warnings(seq![(port, service)])[0].description,
            "Port "@ + decimal(port as nat) + " ("@,
        ),
        port_warnings(seq![(port, service)])[0].severity == if port == 3306 || port == 3389 || port
            == 5432 {
            "critical"@
        } else {
            "high"@
        },
{
    let ps = seq![(port, service)];
    assert(ps.drop_last() =~= Seq::<(u16, Seq<char>)>::empty());
    assert(ps.last() == (port, service));
    assert(port_warnings(Seq::<(u16, Seq<char>)>::empty()) == Seq::<SecurityWarningView>::empty());
    assert(sensitive_port(port) is Some);
    let (name, why) = sensitive_port(port)->0;
    assert(port_warnings(ps) == Seq::<SecurityWarningView>::empty().push(
        exposed_port_warning(port, service, name, why),
    ));
    let w = port_warnings(ps)[0];
    assert(w == exposed_port_warning(port, service, name, why));
    let pre = "Port "@ + decimal(port as nat) + " ("@;
    assert(w.description.subrange(0, pre.len() as int) =~= pre);
}

/// Checks what a host exposes.
#[derive(Debug, Clone, Copy)]
pub struct SecurityScanner {}

impl SecurityScanner {
    pub fn new() -> (r: SecurityScanner) {
        SecurityScanner {  }
    }

    fn sensitive_port_exec(port: u16) -> (r: Option<(&'static str, &'static str)>)
        ensures
            match r {
                Some(p) => sensitive_port(port) == Some((p.0@, p.1@)),
                None => sensitive_port(port) is None,
            },
    {
        if port == 3306 {
            Some(("MySQL", "Database server should not be publicly accessible"))
        } else if port == 5432 {
            Some(("PostgreSQL", "Database server should not be publicly accessible"))
        } else if port == 6379 {
            Some(("Redis", "Cache server should not be publicly accessible"))
        } else if port == 27017 {
            Some(("MongoDB", "Database server should not be publicly accessible"))
        } else if port == 3389 {
            Some(("RDP", "Remote desktop protocol should not be publicly accessible"))
        } else if port == 5900 {
            Some(("VNC", "VNC server should not be publicly accessible"))
        } else if port == 9200 {
            Some(("Elasticsearch", "Search engine should not be publicly accessible"))
        } else if port == 8080 {
            Some(("Common HTTP Alt", "May expose admin panels or development servers"))
        } else {
            None
        }
    }

    /// A warning for every listed `(port, service)` whose port is sensitive.
    pub fn scan_public_ports(&self, ports: &[(u16, String)]) -> (r: Vec<SecurityWarning>)
        ensures
            warning_views(r@) == port_warnings(port_views(ports@)),
    {
        let mut out: Vec<SecurityWarning> = Vec::new();
        let mut i: usize = 0;
        while i < ports.len()
            invariant
                i <= ports@.len(),
                warning_views(out@) == port_warnings(port_views(ports@).take(i as int)),
            decreases ports@.len() - i,
        {
            proof {
                assert(port_views(ports@).take(i + 1).drop_last() == port_views(ports@).take(
                    i as int,
                ));
                assert(port_views(ports@).take(i + 1).last() == (ports@[i as int].0, ports@[i as int].1@));
            }
            let port = ports[i].0;
            match Self::sensitive_port_exec(port) {
                Some((name, why)) => {
                    let severity = if port == 3389 || port == 3306 || port == 5432 {
                        owned("critical")
                    } else {
                        owned("high")
                    };
                    let mut d: Vec<char> = Vec::new();
                    push_str(&mut d, "Port ");
                    push_decimal(&mut d, port as u64);
                    push_str(&mut d, " (");
                    push_str(&mut d, name);
                    push_str(&mut d, ") is publicly accessible: ");
                    push_str(&mut d, why);
                    let mut rec: Vec<char> = Vec::new();
                    push_str(&mut rec, "Use firewall rules to restrict access to ");
                    push_decimal(&mut rec, port as u64);
                    push_str(&mut rec, " or bind to 127.0.0.1 only");
                    let w = SecurityWarning {
                        issue_type: SecurityIssueType::PubliclyExposedSensitivePort,
                        severity,
                        service: ports[i].1.clone(),
                        description: string_of(&d),
                        recommendation: string_of(&rec),
                    };
                    let ghost before = out@;
                    out.push(w);
                    proof {
                        assert(warning_views(out@) =~= warning_views(before).push(
                            exposed_port_warning(port, ports@[i as int].1@, name@, why@),
                        ));
                    }
                },
                None => {},
            }
            i += 1;
        }
        assert(port_views(ports@).take(ports.len() as int) == port_views(ports@));
        out
    }

    /// A warning when a public web port serves plain HTTP.
    pub fn check_ssl(&self, has_ssl: bool, is_public: bool, port: u16) -> (r: Option<SecurityWarning>)
        ensures
            match r {
                Some(w) => ssl_warning(has_ssl, is_public, port) == Some(w@),
                None => ssl_warning(has_ssl, is_public, port) is None,
            },
    {
        if is_public && (port == 80 || port == 8080) && !has_ssl {
            let mut s: Vec<char> = Vec::new();
            push_str(&mut s, "Port ");
            push_decimal(&mut s, port as u64);
            let mut d: Vec<char> = Vec::new();
            push_str(&mut d, "HTTP service on port ");
            push_decimal(&mut d, port as u64);
            push_str(&mut d, " is not using SSL/TLS");
            return Some(
                SecurityWarning {
                    issue_type: SecurityIssueType::MissingSSL,
                    severity: owned("medium"),
                    service: string_of(&s),
                    description: string_of(&d),
                    recommendation: owned("Enable SSL/TLS encryption for public web services"),
                },
            );
        }
        None
    }
}

} // verus!
