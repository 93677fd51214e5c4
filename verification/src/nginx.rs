//! Nginx site configurations: reading a site file and listing where it proxies to.

use vstd::prelude::*;
use crate::service_categories::copy_strings;
use crate::strmap::StrMap;
use crate::text::{
    chars_of, contains, contains_exec, count_char, count_char_exec, lemma_count_char_le,
    lemma_lines_total_len, lemma_split_nonempty, lemma_total_len_take, lemma_trim_len, lines,
    opt_view, owned, parse_u16, parse_u16_spec, split, split_lines, split_on, split_words,
    starts_with, starts_with_exec, str_eq, string_of, string_views, total_len, trim, trim_chars,
    trim_end_matches, trim_end_matches_exec, trim_start_matches, trim_start_matches_exec, views,
    words,
};

verus! {

/// An `upstream` block: its name and its `server` entries (`host:port`).
#[derive(Debug)]
pub struct NginxUpstream {
    pub name: String,
    pub servers: Vec<String>,
}

/// A `location` block: its path and where it proxies to.
#[derive(Debug)]
pub struct NginxLocation {
    pub path: String,
    pub proxy_pass: Option<String>,
    pub upstream_name: Option<String>,
}

/// What a site file configures.
#[derive(Debug)]
pub struct NginxSite {
    pub name: String,
    pub config_file: String,
    pub enabled: bool,
    pub server_names: Vec<String>,
    pub listen_ports: Vec<u16>,
    pub ssl_enabled: bool,
    pub ssl_certificate: Option<String>,
    pub upstreams: Vec<NginxUpstream>,
    pub locations: Vec<NginxLocation>,
    pub auth_basic: bool,
}

pub struct NginxUpstreamView {
    pub name: Seq<char>,
    pub servers: Seq<Seq<char>>,
}

pub struct NginxLocationView {
    pub path: Seq<char>,
    pub proxy_pass: Option<Seq<char>>,
    pub upstream_name: Option<Seq<char>>,
}

pub struct NginxSiteView {
    pub name: Seq<char>,
    pub config_file: Seq<char>,
    pub enabled: bool,
    pub server_names: Seq<Seq<char>>,
    pub listen_ports: Seq<u16>,
    pub ssl_enabled: bool,
    pub ssl_certificate: Option<Seq<char>>,
    pub upstreams: Seq<NginxUpstreamView>,
    pub locations: Seq<NginxLocationView>,
    pub auth_basic: bool,
}

impl View for NginxUpstream {
    type V = NginxUpstreamView;

    open spec fn view(&self) -> NginxUpstreamView {
        NginxUpstreamView { name: self.name@, servers: string_views(self.servers@) }
    }
}

impl View for NginxLocation {
    type V = NginxLocationView;

    open spec fn view(&self) -> NginxLocationView {
        NginxLocationView {
            path: self.path@,
            proxy_pass: opt_view(self.proxy_pass),
            upstream_name: opt_view(self.upstream_name),
        }
    }
}

pub open spec fn upstream_views(v: Seq<NginxUpstream>) -> Seq<NginxUpstreamView> {
    v.map_values(|u: NginxUpstream| u@)
}

pub open spec fn location_views(v: Seq<NginxLocation>) -> Seq<NginxLocationView> {
    v.map_values(|l: NginxLocation| l@)
}

impl View for NginxSite {
    type V = NginxSiteView;

    open spec fn view(&self) -> NginxSiteView {
        NginxSiteView {
            name: self.name@,
            config_file: self.config_file@,
            enabled: self.enabled,
            server_names: string_views(self.server_names@),
            listen_ports: self.listen_ports@,
            ssl_enabled: self.ssl_enabled,
            ssl_certificate: opt_view(self.ssl_certificate),
            upstreams: upstream_views(self.upstreams@),
            locations: location_views(self.locations@),
            auth_basic: self.auth_basic,
        }
    }
}

pub open spec fn opt_location_view(o: Option<NginxLocation>) -> Option<NginxLocationView> {
    match o {
        Some(l) => Some(l@),
        None => None,
    }
}

pub open spec fn opt_upstream_view(o: Option<NginxUpstream>) -> Option<NginxUpstreamView> {
    match o {
        Some(u) => Some(u@),
        None => None,
    }
}

/// A site with nothing configured yet.
pub open spec fn empty_site(name: Seq<char>, config_file: Seq<char>) -> NginxSiteView {
    NginxSiteView {
        name,
        config_file,
        enabled: true,
        server_names: Seq::empty(),
        listen_ports: Seq::empty(),
        ssl_enabled: false,
        ssl_certificate: None,
        upstreams: Seq::empty(),
        locations: Seq::empty(),
        auth_basic: false,
    }
}

/// The port of a `listen` argument: the text after the last `:`, up to
/// whitespace, read as a port; 80 when that does not read as one.
pub open spec fn listen_port(arg: Seq<char>) -> u16 {
    let ps = trim_end_matches(arg, ";"@);
    let parts = split(ps, ':');
    let ws = words(parts.last());
    if ws.len() > 0 {
        match parse_u16_spec(ws[0]) {
            Some(p) => p,
            None => 80,
        }
    } else {
        80
    }
}

/// `line` with the directive `name` removed from its front and `;` from its end, trimmed.
pub open spec fn directive_value(line: Seq<char>, name: Seq<char>) -> Seq<char> {
    trim(trim_end_matches(trim_start_matches(line, name), ";"@))
}

/// What a line inside a `server` block adds to the site: names from
/// `server_name`, a port (once) and SSL from `listen`, the certificate from
/// `ssl_certificate`, basic authentication from `auth_basic`.
pub open spec fn server_directive(site: NginxSiteView, l: Seq<char>) -> NginxSiteView {
    let s1 = if starts_with(l, "server_name"@) {
        NginxSiteView {
            server_names: site.server_names + words(
                trim_end_matches(trim_start_matches(l, "server_name"@), ";"@),
            ),
            ..site
        }
    } else {
        site
    };
    let w = words(l);
    let s2 = if starts_with(l, "listen"@) && w.len() > 1 {
        let port = listen_port(w[1]);
        let s = if s1.listen_ports.contains(port) {
            s1
        } else {
            NginxSiteView { listen_ports: s1.listen_ports.push(port), ..s1 }
        };
        if contains(l, "ssl"@) {
            NginxSiteView { ssl_enabled: true, ..s }
        } else {
            s
        }
    } else {
        s1
    };
    let s3 = if starts_with(l, "ssl_certificate"@) && !contains(l, "ssl_certificate_key"@) {
        NginxSiteView { ssl_certificate: Some(directive_value(l, "ssl_certificate"@)), ..s2 }
    } else {
        s2
    };
    if starts_with(l, "auth_basic"@) && !contains(l, "auth_basic_user_file"@) {
        NginxSiteView { auth_basic: true, ..s3 }
    } else {
        s3
    }
}

/// What a `proxy_pass` line does to the open location: a URL is the proxy
/// target and its host (up to the first `/`) the upstream name; anything
/// else names an upstream.
pub open spec fn location_directive(loc: Option<NginxLocationView>, l: Seq<char>) -> Option<
    NginxLocationView,
> {
    match loc {
        None => None,
        Some(lv) => if starts_with(l, "proxy_pass"@) {
            let proxy = directive_value(l, "proxy_pass"@);
            let bare = trim_start_matches(trim_start_matches(proxy, "http://"@), "https://"@);
            if starts_with(proxy, "http://"@) || starts_with(proxy, "https://"@) {
                Some(
                    NginxLocationView {
                        proxy_pass: Some(proxy),
                        upstream_name: Some(split(bare, '/')[0]),
                        ..lv
                    },
                )
            } else {
                Some(NginxLocationView { upstream_name: Some(bare), ..lv })
            }
        } else {
            Some(lv)
        },
    }
}

/// What a `server` line does to the open upstream: its first word, without
/// `;`, is added when not empty.
pub open spec fn upstream_directive(up: Option<NginxUpstreamView>, l: Seq<char>) -> Option<
    NginxUpstreamView,
> {
    match up {
        None => None,
        Some(u) => if starts_with(l, "server"@) {
            let ws = words(trim_start_matches(l, "server"@));
            let first = if ws.len() > 0 {
                ws[0]
            } else {
                Seq::empty()
            };
            let server = trim_end_matches(first, ";"@);
            if server.len() > 0 {
                Some(NginxUpstreamView { servers: u.servers.push(server), ..u })
            } else {
                Some(u)
            }
        } else {
            Some(u)
        },
    }
}

/// Where reading a site file stands after some lines.
pub struct NginxState {
    pub site: NginxSiteView,
    pub in_server: bool,
    pub in_location: bool,
    pub in_upstream: bool,
    pub location: Option<NginxLocationView>,
    pub upstream: Option<NginxUpstreamView>,
    pub depth: int,
}

/// When the braces balance: the open location and upstream are stored, and
/// every block counts as closed.
pub open spec fn close_blocks(st: NginxState) -> NginxState {
    let s1 = if st.in_location {
        NginxState {
            site: match st.location {
                Some(loc) => NginxSiteView { locations: st.site.locations.push(loc), ..st.site },
                None => st.site,
            },
            location: None,
            in_location: false,
            ..st
        }
    } else {
        st
    };
    let s2 = if s1.in_upstream {
        NginxState {
            site: match s1.upstream {
                Some(up) => NginxSiteView { upstreams: s1.site.upstreams.push(up), ..s1.site },
                None => s1.site,
            },
            upstream: None,
            in_upstream: false,
            ..s1
        }
    } else {
        s1
    };
    NginxState { in_server: false, ..s2 }
}

/// One line of a site file. The brace depth counts `{` and `}`; a
/// `server ... {` line opens a server block, an `upstream NAME` line opens an
/// upstream, a `location PATH` line opens a location (path `/` when none is
/// given); any other line first closes the blocks when the depth is back to
/// zero and then applies to the blocks still open.
pub open spec fn nginx_step(st: NginxState, raw: Seq<char>) -> NginxState {
    let l = trim(raw);
    let depth = st.depth + count_char(l, '{') - count_char(l, '}');
    let w = words(l);
    if starts_with(l, "server"@) && contains(l, "{"@) {
        NginxState { in_server: true, depth, ..st }
    } else if starts_with(l, "upstream"@) {
        if w.len() > 1 {
            NginxState {
                upstream: Some(
                    NginxUpstreamView {
                        name: trim(trim_end_matches(w[1], "{"@)),
                        servers: Seq::empty(),
                    },
                ),
                in_upstream: true,
                depth,
                ..st
            }
        } else {
            NginxState { depth, ..st }
        }
    } else if starts_with(l, "location"@) {
        let p = if w.len() > 1 {
            w[1]
        } else {
            "/"@
        };
        NginxState {
            location: Some(
                NginxLocationView {
                    path: trim(trim_end_matches(p, "{"@)),
                    proxy_pass: None,
                    upstream_name: None,
                },
            ),
            in_location: true,
            depth,
            ..st
        }
    } else {
        let c = if depth == 0 {
            close_blocks(st)
        } else {
            st
        };
        let c2 = NginxState { depth, ..c };
        let s1 = if c2.in_server {
            NginxState { site: server_directive(c2.site, l), ..c2 }
        } else {
            c2
        };
        let s2 = if s1.in_location {
            NginxState { location: location_directive(s1.location, l), ..s1 }
        } else {
            s1
        };
        if s2.in_upstream {
            NginxState { upstream: upstream_directive(s2.upstream, l), ..s2 }
        } else {
            s2
        }
    }
}

/// The state after reading `ls` in order.
pub open spec fn nginx_fold(start: NginxSiteView, ls: Seq<Seq<char>>) -> NginxState
    decreases ls.len(),
{
    if ls.len() == 0 {
        NginxState {
            site: start,
            in_server: false,
            in_location: false,
            in_upstream: false,
            location: None,
            upstream: None,
            depth: 0,
        }
    } else {
        nginx_step(nginx_fold(start, ls.drop_last()), ls.last())
    }
}

/// The site that the text of a site file describes.
pub open spec fn parse_site(name: Seq<char>, config_file: Seq<char>, content: Seq<char>) -> NginxSiteView {
    nginx_fold(empty_site(name, config_file), lines(content)).site
}

/// The proxy targets of one site, in order: a location's `proxy_pass` when
/// it has one, else the servers of the first upstream named by it.
pub open spec fn site_targets(site: NginxSiteView) -> Seq<Seq<char>> {
    location_targets(site.upstreams, site.locations)
}

pub open spec fn location_targets(ups: Seq<NginxUpstreamView>, locs: Seq<NginxLocationView>) -> Seq<
    Seq<char>,
>
    decreases locs.len(),
{
    if locs.len() == 0 {
        Seq::empty()
    } else {
        let rest = location_targets(ups, locs.drop_last());
        let loc = locs.last();
        rest + match loc.proxy_pass {
            Some(p) => seq![p],
            None => match loc.upstream_name {
                Some(n) => match first_upstream(ups, n) {
                    Some(u) => u.servers,
                    None => Seq::empty(),
                },
                None => Seq::empty(),
            },
        }
    }
}

/// The first upstream called `name`.
pub open spec fn first_upstream(ups: Seq<NginxUpstreamView>, name: Seq<char>) -> Option<
    NginxUpstreamView,
>
    decreases ups.len(),
{
    if ups.len() == 0 {
        None
    } else if ups[0].name == name {
        Some(ups[0])
    } else {
        first_upstream(ups.drop_first(), name)
    }
}

/// The proxy targets of every site, by site name: the targets of all sites
/// of one name in order; a name with no target has no entry.
pub open spec fn proxy_targets(sites: Seq<NginxSiteView>) -> Map<Seq<char>, Seq<Seq<char>>>
    decreases sites.len(),
{
    if sites.len() == 0 {
        Map::empty()
    } else {
        let m = proxy_targets(sites.drop_last());
        let s = sites.last();
        let t = site_targets(s);
        if t.len() == 0 {
            m
        } else {
            let before = if m.contains_key(s.name) {
                m[s.name]
            } else {
                Seq::empty()
            };
            m.insert(s.name, before + t)
        }
    }
}

pub open spec fn site_views(v: Seq<NginxSite>) -> Seq<NginxSiteView> {
    v.map_values(|s: NginxSite| s@)
}

/// The state of reading a site file, as values a program holds.
struct SiteReader {
    site: NginxSite,
    in_server: bool,
    in_location: bool,
    in_upstream: bool,
    location: Option<NginxLocation>,
    upstream: Option<NginxUpstream>,
    depth: i64,
}

impl View for SiteReader {
    type V = NginxState;

    closed spec fn view(&self) -> NginxState {
        NginxState {
            site: self.site@,
            in_server: self.in_server,
            in_location: self.in_location,
            in_upstream: self.in_upstream,
            location: opt_location_view(self.location),
            upstream: opt_upstream_view(self.upstream),
            depth: self.depth as int,
        }
    }
}

/// Reads nginx site configurations.
#[derive(Debug, Clone, Copy)]
pub struct NginxParser {}

impl NginxParser {
    pub fn new() -> (r: NginxParser) {
        NginxParser {  }
    }

    fn listen_port_exec(arg: &[char]) -> (r: u16)
        ensures
            r == listen_port(arg@),
    {
        let ps = trim_end_matches_exec(arg, &[';']);
        assert([';']@ =~= ";"@) by {
            reveal_strlit(";");
        }
        let parts = split_on(&ps, ':');
        proof {
            lemma_split_nonempty(ps@, ':');
        }
        let ws = split_words(&parts[parts.len() - 1]);
        if ws.len() > 0 {
            match parse_u16(&ws[0]) {
                Some(p) => p,
                None => 80,
            }
        } else {
            80
        }
    }

    fn directive_value_exec(l: &[char], name: &str) -> (r: String)
        ensures
            r@ == directive_value(l@, name@),
    {
        let a = trim_start_matches_exec(l, &chars_of(name));
        let b = trim_end_matches_exec(&a, &[';']);
        assert([';']@ =~= ";"@) by {
            reveal_strlit(";");
        }
        let c = trim_chars(&b);
        string_of(&c)
    }

    fn server_directive_exec(site: NginxSite, l: &[char]) -> (r: NginxSite)
        ensures
            r@ == server_directive(site@, l@),
    {
        let mut site = site;
        let ghost s0 = site@;
        if starts_with_exec(l, &chars_of("server_name")) {
            let a = trim_start_matches_exec(l, &chars_of("server_name"));
            let b = trim_end_matches_exec(&a, &[';']);
            assert([';']@ =~= ";"@) by {
                reveal_strlit(";");
            }
            let ws = split_words(&b);
            let mut k: usize = 0;
            let ghost names0 = string_views(site.server_names@);
            while k < ws.len()
                invariant
                    k <= ws.len(),
                    string_views(site.server_names@) == names0 + views(ws@).take(k as int),
                    site@ == (NginxSiteView { server_names: string_views(site.server_names@), ..s0 }),
                decreases ws.len() - k,
            {
                let ghost before = site.server_names@;
                site.server_names.push(string_of(&ws[k]));
                proof {
                    assert(string_views(site.server_names@) =~= string_views(before).push(
                        ws@[k as int]@,
                    ));
                    assert(views(ws@).take(k + 1) =~= views(ws@).take(k as int).push(ws@[k as int]@));
                }
                k += 1;
            }
            assert(views(ws@).take(ws.len() as int) == views(ws@));
        }
        let ghost s1 = site@;
        assert(s1 == (if starts_with(l@, "server_name"@) {
            NginxSiteView {
                server_names: s0.server_names + words(
                    trim_end_matches(trim_start_matches(l@, "server_name"@), ";"@),
                ),
                ..s0
            }
        } else {
            s0
        }));
        let w = split_words(l);
        if starts_with_exec(l, &chars_of("listen")) && w.len() > 1 {
            let port = Self::listen_port_exec(&w[1]);
            let mut found = false;
            let mut k: usize = 0;
            while k < site.listen_ports.len()
                invariant
                    k <= site.listen_ports@.len(),
                    site@ == s1,
                    found <==> exists|j: int| 0 <= j < k && site.listen_ports@[j] == port,
                decreases site.listen_ports@.len() - k,
            {
                if site.listen_ports[k] == port {
                    found = true;
                }
                k += 1;
            }
            if !found {
                site.listen_ports.push(port);
            }
            if contains_exec(l, &chars_of("ssl")) {
                site.ssl_enabled = true;
            }
        }
        if starts_with_exec(l, &chars_of("ssl_certificate")) && !contains_exec(
            l,
            &chars_of("ssl_certificate_key"),
        ) {
            site.ssl_certificate = Some(Self::directive_value_exec(l, "ssl_certificate"));
        }
        if starts_with_exec(l, &chars_of("auth_basic")) && !contains_exec(
            l,
            &chars_of("auth_basic_user_file"),
        ) {
            site.auth_basic = true;
        }
        site
    }

    fn location_directive_exec(loc: Option<NginxLocation>, l: &[char]) -> (r: Option<NginxLocation>)
        ensures
            opt_location_view(r) == location_directive(opt_location_view(loc), l@),
    {
        match loc {
            None => None,
            Some(lv) => {
                if starts_with_exec(l, &chars_of("proxy_pass")) {
                    let proxy = Self::directive_value_exec(l, "proxy_pass");
                    let pc = chars_of(proxy.as_str());
                    let a = trim_start_matches_exec(&pc, &chars_of("http://"));
                    let bare = trim_start_matches_exec(&a, &chars_of("https://"));
                    if starts_with_exec(&pc, &chars_of("http://")) || starts_with_exec(
                        &pc,
                        &chars_of("https://"),
                    ) {
                        let parts = split_on(&bare, '/');
                        proof {
                            lemma_split_nonempty(bare@, '/');
                        }
                        let host = string_of(&parts[0]);
                        Some(
                            NginxLocation {
                                path: lv.path,
                                proxy_pass: Some(proxy),
                                upstream_name: Some(host),
                            },
                        )
                    } else {
                        Some(
                            NginxLocation {
                                path: lv.path,
                                proxy_pass: lv.proxy_pass,
                                upstream_name: Some(string_of(&bare)),
                            },
                        )
                    }
                } else {
                    Some(lv)
                }
            },
        }
    }

    fn upstream_directive_exec(up: Option<NginxUpstream>, l: &[char]) -> (r: Option<NginxUpstream>)
        ensures
            opt_upstream_view(r) == upstream_directive(opt_upstream_view(up), l@),
    {
        match up {
            None => None,
            Some(u) => {
                if starts_with_exec(l, &chars_of("server")) {
                    let rest = trim_start_matches_exec(l, &chars_of("server"));
                    let ws = split_words(&rest);
                    let first: Vec<char> = if ws.len() > 0 {
                        crate::text::slice_chars(&ws[0], 0, ws[0].len())
                    } else {
                        Vec::new()
                    };
                    proof {
                        if ws.len() > 0 {
                            assert(ws@[0]@.subrange(0, ws@[0]@.len() as int) =~= ws@[0]@);
                        }
                    }
                    let server = trim_end_matches_exec(&first, &[';']);
                    assert([';']@ =~= ";"@) by {
                        reveal_strlit(";");
                    }
                    if server.len() > 0 {
                        let mut u = u;
                        let ghost before = u.servers@;
                        u.servers.push(string_of(&server));
                        proof {
                            assert(string_views(u.servers@) =~= string_views(before).push(server@));
                        }
                        Some(u)
                    } else {
                        Some(u)
                    }
                } else {
                    Some(u)
                }
            },
        }
    }

    fn close_blocks_exec(st: SiteReader) -> (r: SiteReader)
        ensures
            r@ == close_blocks(st@),
            r.depth == st.depth,
    {
        let mut st = st;
        if st.in_location {
            match st.location {
                Some(loc) => {
                    let ghost before = st.site.locations@;
                    let ghost lv = loc@;
                    st.site.locations.push(loc);
                    proof {
                        assert(location_views(st.site.locations@) =~= location_views(before).push(lv));
                    }
                },
                None => {},
            }
            st.location = None;
            st.in_location = false;
        }
        if st.in_upstream {
            match st.upstream {
                Some(up) => {
                    let ghost before = st.site.upstreams@;
                    let ghost uv = up@;
                    st.site.upstreams.push(up);
                    proof {
                        assert(upstream_views(st.site.upstreams@) =~= upstream_views(before).push(uv));
                    }
                },
                None => {},
            }
            st.upstream = None;
            st.in_upstream = false;
        }
        st.in_server = false;
        st
    }

    fn step(st: SiteReader, raw: &[char]) -> (r: SiteReader)
        requires
            i64::MIN + raw@.len() <= st.depth <= i64::MAX - raw@.len(),
        ensures
            r@ == nginx_step(st@, raw@),
            st.depth - raw@.len() <= r.depth <= st.depth + raw@.len(),
    {
        let l = trim_chars(raw);
        proof {
            lemma_trim_len(raw@);
            lemma_count_char_le(l@, '{');
            lemma_count_char_le(l@, '}');
        }
        let opens = count_char_exec(&l, '{');
        let closes = count_char_exec(&l, '}');
        let depth: i64 = st.depth + opens as i64 - closes as i64;
        let w = split_words(&l);
        let mut st = st;
        assert(['{']@ =~= "{"@) by {
            reveal_strlit("{");
        }
        if starts_with_exec(&l, &chars_of("server")) && contains_exec(&l, &['{']) {
            st.in_server = true;
            st.depth = depth;
            return st;
        }
        if starts_with_exec(&l, &chars_of("upstream")) {
            if w.len() > 1 {
                let a = trim_end_matches_exec(&w[1], &['{']);
                let name = trim_chars(&a);
                st.upstream = Some(NginxUpstream { name: string_of(&name), servers: Vec::new() });
                st.in_upstream = true;
                proof {
                    assert(string_views(Seq::<String>::empty()) =~= Seq::<Seq<char>>::empty());
                }
            }
            st.depth = depth;
            return st;
        }
        if starts_with_exec(&l, &chars_of("location")) {
            let p: Vec<char> = if w.len() > 1 {
                crate::text::slice_chars(&w[1], 0, w[1].len())
            } else {
                chars_of("/")
            };
            proof {
                if w.len() > 1 {
                    assert(w@[1]@.subrange(0, w@[1]@.len() as int) =~= w@[1]@);
                }
            }
            let a = trim_end_matches_exec(&p, &['{']);
            let path = trim_chars(&a);
            st.location = Some(
                NginxLocation { path: string_of(&path), proxy_pass: None, upstream_name: None },
            );
            st.in_location = true;
            st.depth = depth;
            return st;
        }
        let mut c = if depth == 0 {
            Self::close_blocks_exec(st)
        } else {
            st
        };
        c.depth = depth;
        if c.in_server {
            let site = c.site;
            c.site = Self::server_directive_exec(site, &l);
        }
        if c.in_location {
            let loc = c.location;
            c.location = Self::location_directive_exec(loc, &l);
        }
        if c.in_upstream {
            let up = c.upstream;
            c.upstream = Self::upstream_directive_exec(up, &l);
        }
        c
    }

    /// The site that `content`, the text of the site file `config_file`, describes.
    pub fn parse_site_content(&self, name: String, config_file: String, content: &str) -> (r: NginxSite)
        requires
            content@.len() <= i64::MAX,
        ensures
            r@ == parse_site(name@, config_file@, content@),
    {
        let chars = chars_of(content);
        let ls = split_lines(&chars);
        let ghost start = empty_site(name@, config_file@);
        let site = NginxSite {
            name,
            config_file,
            enabled: true,
            server_names: Vec::new(),
            listen_ports: Vec::new(),
            ssl_enabled: false,
            ssl_certificate: None,
            upstreams: Vec::new(),
            locations: Vec::new(),
            auth_basic: false,
        };
        proof {
            assert(string_views(Seq::<String>::empty()) =~= Seq::<Seq<char>>::empty());
            assert(upstream_views(Seq::<NginxUpstream>::empty()) =~= Seq::<NginxUpstreamView>::empty());
            assert(location_views(Seq::<NginxLocation>::empty()) =~= Seq::<NginxLocationView>::empty());
            assert(site@ =~= start);
            lemma_lines_total_len(content@, 0);
        }
        let mut st = SiteReader {
            site,
            in_server: false,
            in_location: false,
            in_upstream: false,
            location: None,
            upstream: None,
            depth: 0,
        };
        let mut i: usize = 0;
        while i < ls.len()
            invariant
                i <= ls.len(),
                views(ls@) == lines(content@),
                total_len(views(ls@)) <= content@.len() <= i64::MAX,
                st@ == nginx_fold(start, views(ls@).take(i as int)),
                -total_len(views(ls@).take(i as int)) <= st.depth <= total_len(
                    views(ls@).take(i as int),
                ),
            decreases ls.len() - i,
        {
            proof {
                assert(views(ls@).take(i + 1).drop_last() == views(ls@).take(i as int));
                assert(views(ls@).take(i + 1).last() == ls@[i as int]@);
                lemma_total_len_take(views(ls@), i + 1);
            }
            st = Self::step(st, &ls[i]);
            i += 1;
        }
        proof {
            assert(views(ls@).take(ls.len() as int) == views(ls@));
        }
        st.site
    }

    /// The servers of the first upstream of `ups` called `name`.
    fn find_upstream<'a>(ups: &'a Vec<NginxUpstream>, name: &str) -> (r: Option<&'a NginxUpstream>)
        ensures
            opt_upstream_view(
                match r {
                    Some(u) => Some(*u),
                    None => None,
                },
            ) == first_upstream(upstream_views(ups@), name@),
    {
        let mut i: usize = 0;
        assert(upstream_views(ups@).skip(0) =~= upstream_views(ups@));
        while i < ups.len()
            invariant
                i <= ups@.len(),
                first_upstream(upstream_views(ups@).skip(i as int), name@) == first_upstream(
                    upstream_views(ups@),
                    name@,
                ),
            decreases ups@.len() - i,
        {
            let ghost rest = upstream_views(ups@).skip(i as int);
            assert(rest[0] == ups@[i as int]@);
            if str_eq(ups[i].name.as_str(), name) {
                return Some(&ups[i]);
            }
            assert(rest.drop_first() =~= upstream_views(ups@).skip(i + 1));
            i += 1;
        }
        assert(upstream_views(ups@).skip(i as int) =~= Seq::<NginxUpstreamView>::empty());
        None
    }

    /// The proxy targets of one site, in order.
    fn site_targets_exec(site: &NginxSite) -> (r: Vec<String>)
        ensures
            string_views(r@) == site_targets(site@),
    {
        let mut out: Vec<String> = Vec::new();
        let mut i: usize = 0;
        while i < site.locations.len()
            invariant
                i <= site.locations@.len(),
                string_views(out@) == location_targets(
                    upstream_views(site.upstreams@),
                    location_views(site.locations@).take(i as int),
                ),
            decreases site.locations@.len() - i,
        {
            proof {
                assert(location_views(site.locations@).take(i + 1).drop_last() == location_views(
                    site.locations@,
                ).take(i as int));
                assert(location_views(site.locations@).take(i + 1).last()
                    == site.locations@[i as int]@);
            }
            let loc = &site.locations[i];
            let ghost before = string_views(out@);
            match &loc.proxy_pass {
                Some(p) => {
                    out.push(p.clone());
                    assert(string_views(out@) =~= before + seq![p@]);
                },
                None => match &loc.upstream_name {
                    Some(n) => match Self::find_upstream(&site.upstreams, n.as_str()) {
                        Some(u) => {
                            let mut k: usize = 0;
                            while k < u.servers.len()
                                invariant
                                    k <= u.servers@.len(),
                                    string_views(out@) == before + string_views(u.servers@).take(
                                        k as int,
                                    ),
                                decreases u.servers@.len() - k,
                            {
                                let ghost ob = out@;
                                out.push(u.servers[k].clone());
                                assert(string_views(out@) =~= string_views(ob).push(
                                    u.servers@[k as int]@,
                                ));
                                assert(string_views(u.servers@).take(k + 1) =~= string_views(
                                    u.servers@,
                                ).take(k as int).push(u.servers@[k as int]@));
                                assert(string_views(out@) =~= before + string_views(
                                    u.servers@,
                                ).take(k + 1));
                                k += 1;
                            }
                            assert(string_views(u.servers@).take(u.servers.len() as int)
                                == string_views(u.servers@));
                        },
                        None => {
                            assert(string_views(out@) =~= before + Seq::<Seq<char>>::empty());
                        },
                    },
                    None => {
                        assert(string_views(out@) =~= before + Seq::<Seq<char>>::empty());
                    },
                },
            }
            i += 1;
        }
        assert(location_views(site.locations@).take(site.locations.len() as int) == location_views(
            site.locations@,
        ));
        out
    }

    /// Every proxy target, by site name.
    pub fn get_proxy_targets(&self, sites: &[NginxSite]) -> (r: StrMap<Vec<String>>)
        ensures
            r.wf(),
            r.map().map_values(|v: Vec<String>| string_views(v@)) == proxy_targets(site_views(sites@)),
    {
        let mut out: StrMap<Vec<String>> = StrMap::new();
        let mut i: usize = 0;
        while i < sites.len()
            invariant
                i <= sites@.len(),
                out.wf(),
                out.map().map_values(|v: Vec<String>| string_views(v@)) == proxy_targets(
                    site_views(sites@).take(i as int),
                ),
            decreases sites@.len() - i,
        {
            proof {
                assert(site_views(sites@).take(i + 1).drop_last() == site_views(sites@).take(
                    i as int,
                ));
                assert(site_views(sites@).take(i + 1).last() == sites@[i as int]@);
            }
            let site = &sites[i];
            let t = Self::site_targets_exec(site);
            if t.len() > 0 {
                let ghost m0 = out.map();
                let mut merged: Vec<String> = match out.get(site.name.as_str()) {
                    Some(v) => copy_strings(v),
                    None => Vec::new(),
                };
                let ghost mb = string_views(merged@);
                let mut k: usize = 0;
                while k < t.len()
                    invariant
                        k <= t@.len(),
                        string_views(merged@) == mb + string_views(t@).take(k as int),
                    decreases t@.len() - k,
                {
                    let ghost ob = merged@;
                    merged.push(t[k].clone());
                    assert(string_views(merged@) =~= string_views(ob).push(t@[k as int]@));
                    assert(string_views(t@).take(k + 1) =~= string_views(t@).take(k as int).push(
                        t@[k as int]@,
                    ));
                    assert(string_views(merged@) =~= mb + string_views(t@).take(k + 1));
                    k += 1;
                }
                assert(string_views(t@).take(t.len() as int) == string_views(t@));
                let ghost mv = merged@;
                out.insert(site.name.clone(), merged);
                proof {
                    let pm = proxy_targets(site_views(sites@).take(i as int));
                    let f = |v: Vec<String>| string_views(v@);
                    assert(m0.map_values(f) == pm);
                    assert(m0.contains_key(site.name@) == pm.contains_key(site.name@)) by {
                        assert(m0.map_values(f).contains_key(site.name@) == m0.contains_key(
                            site.name@,
                        ));
                    }
                    if m0.contains_key(site.name@) {
                        assert(m0.map_values(f)[site.name@] == f(m0[site.name@]));
                    }
                    let lhs = out.map().map_values(f);
                    let rhs = proxy_targets(site_views(sites@).take(i + 1));
                    assert forall|k: Seq<char>| #[trigger] lhs.contains_key(k) <==> rhs.contains_key(k) by {
                        assert(m0.map_values(f).contains_key(k) == m0.contains_key(k));
                    }
                    assert forall|k: Seq<char>| #[trigger] lhs.contains_key(k) implies lhs[k]
                        == rhs[k] by {
                        if k != site.name@ {
                            assert(m0.map_values(f)[k] == f(m0[k]));
                        }
                    }
                    assert(lhs =~= rhs);
                }
            }
            i += 1;
        }
        assert(site_views(sites@).take(sites.len() as int) == site_views(sites@));
        out
    }
}

} // verus!
