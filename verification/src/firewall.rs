//! UFW firewall status: reading `ufw status verbose` output and classifying its rules.

use vstd::prelude::*;
use crate::text::{
    chars_eq, chars_of, contains, contains_exec, decimal, join, join_exec, lemma_split_nonempty,
    lines, lowercase, opt_view, slice_chars, split, split_lines, split_on, split_words,
    starts_with, starts_with_exec, string_of, to_lower, trim, trim_chars, trim_end_matches,
    trim_end_matches_exec, u64_to_string, views, words, owned,
};

verus! {

/// One firewall rule.
#[derive(Debug)]
pub struct FirewallRule {
    pub port: String,
    pub protocol: String,
    pub action: String,
    /// `0.0.0.0/0` for public, an address or CIDR for restricted.
    pub source: String,
    pub destination: Option<String>,
}

/// A firewall rule, as plain values.
pub struct FirewallRuleView {
    pub port: Seq<char>,
    pub protocol: Seq<char>,
    pub action: Seq<char>,
    pub source: Seq<char>,
    pub destination: Option<Seq<char>>,
}

impl View for FirewallRule {
    type V = FirewallRuleView;

    open spec fn view(&self) -> FirewallRuleView {
        FirewallRuleView {
            port: self.port@,
            protocol: self.protocol@,
            action: self.action@,
            source: self.source@,
            destination: opt_view(self.destination),
        }
    }
}

impl FirewallRule {
    /// A copy of the rule.
    pub fn duplicate(&self) -> (r: FirewallRule)
        ensures
            r@ == self@,
    {
        FirewallRule {
            port: self.port.clone(),
            protocol: self.protocol.clone(),
            action: self.action.clone(),
            source: self.source.clone(),
            destination: match &self.destination {
                Some(d) => Some(d.clone()),
                None => None,
            },
        }
    }
}

/// Whether the firewall is on, its default policies and its rules.
#[derive(Debug)]
pub struct FirewallStatus {
    pub active: bool,
    pub default_incoming: String,
    pub default_outgoing: String,
    pub rules: Vec<FirewallRule>,
}

/// A firewall status, as plain values.
pub struct FirewallStatusView {
    pub active: bool,
    pub default_incoming: Seq<char>,
    pub default_outgoing: Seq<char>,
    pub rules: Seq<FirewallRuleView>,
}

pub open spec fn rule_views(v: Seq<FirewallRule>) -> Seq<FirewallRuleView> {
    v.map_values(|r: FirewallRule| r@)
}

impl View for FirewallStatus {
    type V = FirewallStatusView;

    open spec fn view(&self) -> FirewallStatusView {
        FirewallStatusView {
            active: self.active,
            default_incoming: self.default_incoming@,
            default_outgoing: self.default_outgoing@,
            rules: rule_views(self.rules@),
        }
    }
}

/// The status reported when the firewall cannot be asked: off, deny in, allow out, no rules.
pub open spec fn inactive_status() -> FirewallStatusView {
    FirewallStatusView {
        active: false,
        default_incoming: "deny"@,
        default_outgoing: "allow"@,
        rules: Seq::empty(),
    }
}

/// The port and protocol of a rule's destination column: `P/proto` splits at
/// the `/`, `Anywhere` is every port of every protocol, a bare port is TCP.
pub open spec fn port_and_protocol(dest: Seq<char>) -> (Seq<char>, Seq<char>) {
    if contains(dest, "/"@) {
        let parts = split(dest, '/');
        (parts[0], if parts.len() > 1 { parts[1] } else { "tcp"@ })
    } else if dest == "Anywhere"@ {
        ("*"@, "all"@)
    } else {
        (dest, "tcp"@)
    }
}

/// A source column as stored: any form of `Anywhere` becomes `0.0.0.0/0`.
pub open spec fn normalized_source(source: Seq<char>) -> Seq<char> {
    if source == "Anywhere"@ || starts_with(source, "Anywhere"@) {
        "0.0.0.0/0"@
    } else {
        source
    }
}

/// The rule on one line of the rules table: at least four words, destination,
/// action, direction and then the source (the remaining words joined by a space).
pub open spec fn rule_of_line(line: Seq<char>) -> Option<FirewallRuleView> {
    let parts = words(line);
    if parts.len() < 4 {
        None
    } else {
        let dest = parts[0];
        let pp = port_and_protocol(dest);
        Some(
            FirewallRuleView {
                port: pp.0,
                protocol: pp.1,
                action: lowercase(parts[1]),
                source: normalized_source(join(parts.subrange(3, parts.len() as int), " "@)),
                destination: Some(dest),
            },
        )
    }
}

/// The policy inside the parentheses of one part of the `Default:` line,
/// lower-cased, when the part has a `(`.
pub open spec fn policy_of(part: Seq<char>) -> Option<Seq<char>> {
    let pieces = split(part, '(');
    if pieces.len() > 1 {
        Some(lowercase(trim_end_matches(pieces[1], ")"@)))
    } else {
        None
    }
}

/// Where reading `ufw status` output stands after some lines.
pub struct UfwState {
    pub status: FirewallStatusView,
    pub in_rules: bool,
}

/// The status line sets `active`; the `Default:` line sets the policies; the
/// `To ... Action ... From` header starts the rules table; separator and empty
/// lines are skipped; in the table, every line that reads as a rule adds it.
pub open spec fn ufw_step(st: UfwState, raw: Seq<char>) -> UfwState {
    let l = trim(raw);
    let s0 = st.status;
    let s1 = if starts_with(l, "Status:"@) {
        FirewallStatusView { active: contains(l, "active"@), ..s0 }
    } else {
        s0
    };
    let s2 = if starts_with(l, "Default:"@) {
        let parts = split(l, ',');
        let inc = match policy_of(parts[0]) {
            Some(p) => p,
            None => s1.default_incoming,
        };
        let out = if parts.len() > 1 {
            match policy_of(parts[1]) {
                Some(p) => p,
                None => s1.default_outgoing,
            }
        } else {
            s1.default_outgoing
        };
        FirewallStatusView { default_incoming: inc, default_outgoing: out, ..s1 }
    } else {
        s1
    };
    if starts_with(l, "To"@) && contains(l, "Action"@) && contains(l, "From"@) {
        UfwState { status: s2, in_rules: true }
    } else if starts_with(l, "--"@) || l.len() == 0 {
        UfwState { status: s2, in_rules: st.in_rules }
    } else if st.in_rules {
        match rule_of_line(l) {
            Some(r) => UfwState {
                status: FirewallStatusView { rules: s2.rules.push(r), ..s2 },
                in_rules: true,
            },
            None => UfwState { status: s2, in_rules: true },
        }
    } else {
        UfwState { status: s2, in_rules: false }
    }
}

/// The state after reading `ls` in order.
pub open spec fn ufw_fold(ls: Seq<Seq<char>>) -> UfwState
    decreases ls.len(),
{
    if ls.len() == 0 {
        UfwState { status: inactive_status(), in_rules: false }
    } else {
        ufw_step(ufw_fold(ls.drop_last()), ls.last())
    }
}

/// The status that `ufw status verbose` output describes.
pub open spec fn parse_ufw(output: Seq<char>) -> FirewallStatusView {
    ufw_fold(lines(output)).status
}

/// How widely a rule's source reaches: 0 public, 1 private network, 2 other.
pub open spec fn source_class(source: Seq<char>) -> int {
    if source == "0.0.0.0/0"@ || source == "Anywhere"@ {
        0
    } else if starts_with(source, "192.168."@) || starts_with(source, "10."@) || starts_with(
        source,
        "172."@,
    ) {
        1
    } else {
        2
    }
}

/// The rules of `rules` whose source is of class `c`, in order.
pub open spec fn rules_of_class(rules: Seq<FirewallRuleView>, c: int) -> Seq<FirewallRuleView>
    decreases rules.len(),
{
    if rules.len() == 0 {
        Seq::empty()
    } else {
        let rest = rules_of_class(rules.drop_last(), c);
        if source_class(rules.last().source) == c {
            rest.push(rules.last())
        } else {
            rest
        }
    }
}

/// A rule that lets anyone reach `port`.
pub open spec fn opens_port_publicly(r: FirewallRuleView, port: u16) -> bool {
    &&& r.action == "allow"@
    &&& r.port == decimal(port as nat) || r.port == "*"@
    &&& r.source == "0.0.0.0/0"@ || r.source == "Anywhere"@
}

/// Reads and classifies UFW firewall rules.
#[derive(Debug, Clone, Copy)]
pub struct FirewallManager {}

impl FirewallManager {
    pub fn new() -> (r: FirewallManager) {
        FirewallManager {  }
    }

    /// The status that the output of `ufw status verbose` gives: when the
    /// command failed, the firewall counts as off with the default policies.
    pub fn status_from_ufw(&self, success: bool, output: &str) -> (r: FirewallStatus)
        ensures
            r@ == if success {
                parse_ufw(output@)
            } else {
                inactive_status()
            },
    {
        if !success {
            return Self::inactive();
        }
        self.parse_ufw_output(output)
    }

    fn inactive() -> (r: FirewallStatus)
        ensures
            r@ == inactive_status(),
    {
        let r = FirewallStatus {
            active: false,
            default_incoming: owned("deny"),
            default_outgoing: owned("allow"),
            rules: Vec::new(),
        };
        assert(rule_views(r.rules@) =~= Seq::<FirewallRuleView>::empty());
        r
    }

    /// The lower-cased policy in the parentheses of `part`, if it has a `(`.
    fn policy_exec(part: &[char]) -> (r: Option<String>)
        ensures
            opt_view(r) == policy_of(part@),
    {
        let pieces = split_on(part, '(');
        if pieces.len() > 1 {
            let t = trim_end_matches_exec(&pieces[1], &[')']);
            assert([')']@ =~= ")"@) by {
                reveal_strlit(")");
            }
            let ts = string_of(&t);
            Some(to_lower(ts.as_str()))
        } else {
            None
        }
    }

    /// The status that `ufw status verbose` output describes.
    pub fn parse_ufw_output(&self, output: &str) -> (r: FirewallStatus)
        ensures
            r@ == parse_ufw(output@),
    {
        let chars = chars_of(output);
        let ls = split_lines(&chars);
        let mut status = Self::inactive();
        let mut in_rules = false;
        let mut i: usize = 0;
        let status_kw = chars_of("Status:");
        let active_kw = chars_of("active");
        let default_kw = chars_of("Default:");
        let to_kw = chars_of("To");
        let action_kw = chars_of("Action");
        let from_kw = chars_of("From");
        let dash_kw = chars_of("--");
        while i < ls.len()
            invariant
                i <= ls.len(),
                views(ls@) == lines(output@),
                status@ == ufw_fold(views(ls@).take(i as int)).status,
                in_rules == ufw_fold(views(ls@).take(i as int)).in_rules,
                status_kw@ == "Status:"@,
                active_kw@ == "active"@,
                default_kw@ == "Default:"@,
                to_kw@ == "To"@,
                action_kw@ == "Action"@,
                from_kw@ == "From"@,
                dash_kw@ == "--"@,
            decreases ls.len() - i,
        {
            let ghost before = ufw_fold(views(ls@).take(i as int));
            proof {
                assert(views(ls@).take(i + 1).drop_last() == views(ls@).take(i as int));
                assert(views(ls@).take(i + 1).last() == ls@[i as int]@);
            }
            let l = trim_chars(&ls[i]);
            if starts_with_exec(&l, &status_kw) {
                status.active = contains_exec(&l, &active_kw);
            }
            if starts_with_exec(&l, &default_kw) {
                let parts = split_on(&l, ',');
                proof {
                    lemma_split_nonempty(l@, ',');
                }
                match Self::policy_exec(&parts[0]) {
                    Some(p) => {
                        status.default_incoming = p;
                    },
                    None => {},
                }
                if parts.len() > 1 {
                    match Self::policy_exec(&parts[1]) {
                        Some(p) => {
                            status.default_outgoing = p;
                        },
                        None => {},
                    }
                }
            }
            if starts_with_exec(&l, &to_kw) && contains_exec(&l, &action_kw) && contains_exec(
                &l,
                &from_kw,
            ) {
                in_rules = true;
            } else if starts_with_exec(&l, &dash_kw) || l.len() == 0 {
            } else if in_rules {
                let ls_str = string_of(&l);
                match self.parse_rule_line(ls_str.as_str()) {
                    Some(rule) => {
                        let ghost rv = rule@;
                        let ghost old_rules = status.rules@;
                        status.rules.push(rule);
                        proof {
                            assert(rule_views(status.rules@) =~= rule_views(old_rules).push(rv));
                        }
                    },
                    None => {},
                }
            }
            i += 1;
        }
        proof {
            assert(views(ls@).take(ls.len() as int) == views(ls@));
        }
        status
    }

    /// The port and protocol of a destination column.
    fn port_and_protocol_exec(dest: &[char]) -> (r: (String, String))
        ensures
            (r.0@, r.1@) == port_and_protocol(dest@),
    {
        assert(['/']@ =~= "/"@) by {
            reveal_strlit("/");
        }
        if contains_exec(dest, &['/']) {
            let parts = split_on(dest, '/');
            proof {
                lemma_split_nonempty(dest@, '/');
            }
            let port = string_of(&parts[0]);
            let proto = if parts.len() > 1 {
                string_of(&parts[1])
            } else {
                owned("tcp")
            };
            (port, proto)
        } else if chars_eq(dest, &chars_of("Anywhere")) {
            (owned("*"), owned("all"))
        } else {
            (string_of(dest), owned("tcp"))
        }
    }

    /// The rule on one line of the rules table, if the line has at least four words.
    pub fn parse_rule_line(&self, line: &str) -> (r: Option<FirewallRule>)
        ensures
            match r {
                Some(rule) => rule_of_line(line@) == Some(rule@),
                None => rule_of_line(line@) is None,
            },
    {
        let chars = chars_of(line);
        let parts = split_words(&chars);
        if parts.len() < 4 {
            return None;
        }
        let dest = string_of(&parts[0]);
        let pp = Self::port_and_protocol_exec(&parts[0]);
        let action = to_lower(string_of(&parts[1]).as_str());
        let mut rest: Vec<Vec<char>> = Vec::new();
        let mut k: usize = 3;
        while k < parts.len()
            invariant
                3 <= k <= parts.len(),
                views(rest@) == views(parts@).subrange(3, k as int),
            decreases parts.len() - k,
        {
            let w = slice_chars(&parts[k], 0, parts[k].len());
            proof {
                assert(parts[k as int]@.subrange(0, parts[k as int]@.len() as int) =~= parts[k as int]@);
            }
            let ghost old_rest = rest@;
            rest.push(w);
            proof {
                assert(views(rest@) =~= views(old_rest).push(parts@[k as int]@));
                assert(views(rest@) =~= views(parts@).subrange(3, k + 1));
            }
            k += 1;
        }
        let source = join_exec(&rest, " ");
        let anywhere = chars_of("Anywhere");
        let sc = chars_of(source.as_str());
        let normalized = if chars_eq(&sc, &anywhere) || starts_with_exec(&sc, &anywhere) {
            owned("0.0.0.0/0")
        } else {
            source
        };
        Some(
            FirewallRule {
                port: pp.0,
                protocol: pp.1,
                action,
                source: normalized,
                destination: Some(dest),
            },
        )
    }

    /// The class of a source: 0 public, 1 private network, 2 other.
    fn source_class_exec(source: &str) -> (r: u8)
        ensures
            r == source_class(source@),
    {
        let s = chars_of(source);
        if chars_eq(&s, &chars_of("0.0.0.0/0")) || chars_eq(&s, &chars_of("Anywhere")) {
            0
        } else if starts_with_exec(&s, &chars_of("192.168.")) || starts_with_exec(
            &s,
            &chars_of("10."),
        ) || starts_with_exec(&s, &chars_of("172.")) {
            1
        } else {
            2
        }
    }

    /// The rules split into public ones, private-network ones and the rest,
    /// each in the order given.
    pub fn categorize_rules(&self, rules: &[FirewallRule]) -> (r: (
        Vec<FirewallRule>,
        Vec<FirewallRule>,
        Vec<FirewallRule>,
    ))
        ensures
            rule_views(r.0@) == rules_of_class(rule_views(rules@), 0),
            rule_views(r.1@) == rules_of_class(rule_views(rules@), 1),
            rule_views(r.2@) == rules_of_class(rule_views(rules@), 2),
    {
        let mut public_rules: Vec<FirewallRule> = Vec::new();
        let mut lan_rules: Vec<FirewallRule> = Vec::new();
        let mut special_rules: Vec<FirewallRule> = Vec::new();
        let mut i: usize = 0;
        while i < rules.len()
            invariant
                i <= rules.len(),
                rule_views(public_rules@) == rules_of_class(rule_views(rules@).take(i as int), 0),
                rule_views(lan_rules@) == rules_of_class(rule_views(rules@).take(i as int), 1),
                rule_views(special_rules@) == rules_of_class(rule_views(rules@).take(i as int), 2),
            decreases rules.len() - i,
        {
            proof {
                assert(rule_views(rules@).take(i + 1).drop_last() == rule_views(rules@).take(
                    i as int,
                ));
                assert(rule_views(rules@).take(i + 1).last() == rules@[i as int]@);
            }
            let c = Self::source_class_exec(rules[i].source.as_str());
            let copy = rules[i].duplicate();
            if c == 0 {
                let ghost o = public_rules@;
                public_rules.push(copy);
                assert(rule_views(public_rules@) =~= rule_views(o).push(rules@[i as int]@));
            } else if c == 1 {
                let ghost o = lan_rules@;
                lan_rules.push(copy);
                assert(rule_views(lan_rules@) =~= rule_views(o).push(rules@[i as int]@));
            } else {
                let ghost o = special_rules@;
                special_rules.push(copy);
                assert(rule_views(special_rules@) =~= rule_views(o).push(rules@[i as int]@));
            }
            i += 1;
        }
        assert(rule_views(rules@).take(rules.len() as int) == rule_views(rules@));
        (public_rules, lan_rules, special_rules)
    }

    /// Whether some rule allows anyone to reach `port`.
    pub fn is_port_public(&self, status: &FirewallStatus, port: u16) -> (r: bool)
        ensures
            r == exists|i: int|
                0 <= i < status.rules@.len() && opens_port_publicly(#[trigger] status.rules@[i]@, port),
    {
        let port_str = u64_to_string(port as u64);
        let mut i: usize = 0;
        while i < status.rules.len()
            invariant
                i <= status.rules@.len(),
                port_str@ == decimal(port as nat),
                forall|k: int| 0 <= k < i ==> !opens_port_publicly(#[trigger] status.rules@[k]@, port),
            decreases status.rules@.len() - i,
        {
            let rule = &status.rules[i];
            let allow = crate::text::str_eq(rule.action.as_str(), "allow");
            let port_ok = crate::text::str_eq(rule.port.as_str(), port_str.as_str())
                || crate::text::str_eq(rule.port.as_str(), "*");
            let src_ok = crate::text::str_eq(rule.source.as_str(), "0.0.0.0/0")
                || crate::text::str_eq(rule.source.as_str(), "Anywhere");
            if allow && port_ok && src_ok {
                assert(opens_port_publicly(status.rules@[i as int]@, port));
                return true;
            }
            i += 1;
        }
        false
    }
}


/// A port that `is_port_public` reports as public is covered by some rule
/// whose action is `allow`, for that port or every port, from anywhere.
pub proof fn law_public_port_needs_allow_rule(status: FirewallStatus, port: u16)
    ensures
        (exists|i: int|
            0 <= i < status.rules@.len() && opens_port_publicly(#[trigger] status.rules@[i]@, port))
            ==> exists|i: int|
            0 <= i < status.rules@.len() && (#[trigger] status.rules@[i]@).action == "allow"@ && (
            status.rules@[i]@.port == decimal(port as nat) || status.rules@[i]@.port == "*"@) && (
            status.rules@[i]@.source == "0.0.0.0/0"@ || status.rules@[i]@.source == "Anywhere"@),
{
}

/// Rules none of which allows anything make no port public: a deny, reject
/// or limit rule never opens a port.
pub proof fn law_no_allow_rule_no_public_port(status: FirewallStatus, port: u16)
    requires
        forall|i: int| 0 <= i < status.rules@.len() ==> (#[trigger] status.rules@[i]@).action != "allow"@,
    ensures
        !exists|i: int|
            0 <= i < status.rules@.len() && opens_port_publicly(#[trigger] status.rules@[i]@, port),
{
}

/// A rule that allows the port from anywhere makes it public.
pub proof fn law_allow_anywhere_makes_public(status: FirewallStatus, port: u16, i: int)
    requires
        0 <= i < status.rules@.len(),
        status.rules@[i]@.action == "allow"@,
        status.rules@[i]@.port == decimal(port as nat),
        status.rules@[i]@.source == "Anywhere"@,
    ensures
        exists|k: int|
            0 <= k < status.rules@.len() && opens_port_publicly(#[trigger] status.rules@[k]@, port),
{
    assert(opens_port_publicly(status.rules@[i]@, port));
}

/// Sorting rules into public, private-network and other ones loses or
/// duplicates none: every rule lands in exactly one of the three groups.
pub proof fn law_categories_partition_rules(rules: Seq<FirewallRuleView>)
    ensures
        rules_of_class(rules, 0).len() + rules_of_class(rules, 1).len() + rules_of_class(rules, 2).len() == rules.len(),
        rules_of_class(rules, 0).to_multiset().add(rules_of_class(rules, 1).to_multiset()).add(
            rules_of_class(rules, 2).to_multiset(),
        ) == rules.to_multiset(),
    decreases rules.len(),
{
    broadcast use vstd::seq_lib::group_to_multiset_ensures;
    if rules.len() == 0 {
        assert(rules_of_class(rules, 0).to_multiset() =~= vstd::multiset::Multiset::empty());
        assert(rules_of_class(rules, 1).to_multiset() =~= vstd::multiset::Multiset::empty());
        assert(rules_of_class(rules, 2).to_multiset() =~= vstd::multiset::Multiset::empty());
        assert(rules.to_multiset() =~= vstd::multiset::Multiset::empty());
    } else {
        let d = rules.drop_last();
        law_categories_partition_rules(d);
        assert(d.push(rules.last()) == rules);
        let c = source_class(rules.last().source);
        assert(0 <= c <= 2);
        assert(rules_of_class(rules, 0).to_multiset().add(rules_of_class(rules, 1).to_multiset()).add(
            rules_of_class(rules, 2).to_multiset(),
        ) =~= rules.to_multiset());
    }
}
} // verus!
