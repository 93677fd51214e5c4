//! The node's `.env` configuration: reading, editing, rendering and checking it.

use vstd::prelude::*;
use crate::strmap::StrMap;
use crate::text::{
    chars_of, concat3, contains, contains_exec, decimal, digit, digit_char, find_char_exec,
    find_char_from, join, join_exec, lemma_decimal_injective, lemma_find_char_bounds,
    lemma_lex_antisym, lemma_lex_total, lemma_lex_trans, lex_le, lex_le_exec, lex_lt, lines, owned,
    push_chars, push_decimal, push_str, slice_chars, split, split_lines, starts_with,
    starts_with_exec, string_of, string_views, trim, trim_chars, trim_start_matches,
    trim_start_matches_exec, views, opt_view, lines_read_back, lemma_trim_strip_cr, skip_ws,
    rskip_ws, lemma_skip_ws_bounds, lemma_rskip_ws_bounds, lemma_trim_is, lemma_skip_ws_exact,
    lemma_find_skip, is_ws, lines_from, one_line, lemma_lines_one_line, lemma_lines_of_join, strip_cr,
};
use argon2::password_hash::rand_core::{OsRng, RngCore};

verus! {

/// How many RPC access tokens the node has (`RPC_ACCESS_TOKEN_1` onwards).
pub const RPC_TOKEN_COUNT: usize = 46;

/// One `KEY=value` setting, with the comment line just above it.
#[derive(Debug)]
pub struct ConfigValue {
    pub key: String,
    pub value: String,
    pub comment: Option<String>,
}

/// A setting, as plain values.
pub struct ConfigValueView {
    pub key: Seq<char>,
    pub value: Seq<char>,
    pub comment: Option<Seq<char>>,
}

impl View for ConfigValue {
    type V = ConfigValueView;

    open spec fn view(&self) -> ConfigValueView {
        ConfigValueView {
            key: self.key@,
            value: self.value@,
            comment: match self.comment {
                Some(c) => Some(c@),
                None => None,
            },
        }
    }
}

/// Where reading a `.env` text stands after some lines.
pub struct EnvState {
    pub settings: Map<Seq<char>, ConfigValueView>,
    pub comment: Option<Seq<char>>,
}

/// One line of a `.env` text: a `#` line becomes the pending comment, an
/// empty line drops it, a `KEY=value` line (both sides trimmed, split at the
/// first `=`) sets the key and takes the pending comment; other lines change nothing.
pub open spec fn env_step(st: EnvState, line: Seq<char>) -> EnvState {
    let l = trim(line);
    if starts_with(l, "#"@) {
        EnvState { comment: Some(trim(trim_start_matches(l, "#"@))), ..st }
    } else if l.len() == 0 {
        EnvState { comment: None, ..st }
    } else {
        let j = find_char_from(l, '=', 0);
        if j < l.len() {
            let k = trim(l.subrange(0, j));
            let v = trim(l.subrange(j + 1, l.len() as int));
            EnvState {
                settings: st.settings.insert(k, ConfigValueView { key: k, value: v, comment: st.comment }),
                comment: None,
            }
        } else {
            st
        }
    }
}

/// The state after reading `lines` in order.
pub open spec fn env_fold(lines: Seq<Seq<char>>) -> EnvState
    decreases lines.len(),
{
    if lines.len() == 0 {
        EnvState { settings: Map::empty(), comment: None }
    } else {
        env_step(env_fold(lines.drop_last()), lines.last())
    }
}

/// The settings that a `.env` text holds.
pub open spec fn parse_env(content: Seq<char>) -> Map<Seq<char>, ConfigValueView> {
    env_fold(lines(content)).settings
}

/// A line of the file as it is written back: comments and empty
/// lines unchanged, a `KEY=...` line with the current value of `KEY` when it
/// has one, else unchanged; other lines are dropped.
pub open spec fn render_line(m: Map<Seq<char>, ConfigValueView>, line: Seq<char>) -> Option<
    Seq<char>,
> {
    let t = trim(line);
    if starts_with(t, "#"@) || t.len() == 0 {
        Some(line)
    } else {
        let j = find_char_from(t, '=', 0);
        if j < t.len() {
            let k = trim(t.subrange(0, j));
            if m.contains_key(k) {
                Some(k + "="@ + m[k].value)
            } else {
                Some(line)
            }
        } else {
            None
        }
    }
}

/// The written-back lines of `lines`.
pub open spec fn render_lines(m: Map<Seq<char>, ConfigValueView>, lines: Seq<Seq<char>>) -> Seq<
    Seq<char>,
>
    decreases lines.len(),
{
    if lines.len() == 0 {
        Seq::empty()
    } else {
        let rest = render_lines(m, lines.drop_last());
        match render_line(m, lines.last()) {
            Some(l) => rest.push(l),
            None => rest,
        }
    }
}

/// The value set for `key`.
pub open spec fn value_of(m: Map<Seq<char>, ConfigValueView>, key: Seq<char>) -> Option<Seq<char>> {
    if m.contains_key(key) {
        Some(m[key].value)
    } else {
        None
    }
}

/// The key of RPC access token `i`.
pub open spec fn token_key(i: nat) -> Seq<char> {
    "RPC_ACCESS_TOKEN_"@ + decimal(i)
}

/// A lower-case or upper-case hexadecimal digit.
pub open spec fn is_hex_char(c: char) -> bool {
    ('0' <= c <= '9') || ('a' <= c <= 'f') || ('A' <= c <= 'F')
}

/// A non-empty text of hexadecimal digits.
pub open spec fn valid_hex(s: Seq<char>) -> bool {
    s.len() > 0 && forall|i: int| 0 <= i < s.len() ==> is_hex_char(#[trigger] s[i])
}

/// A character allowed in a domain name.
pub open spec fn is_domain_char(c: char) -> bool {
    ('0' <= c <= '9') || ('a' <= c <= 'z') || ('A' <= c <= 'Z') || c == '-' || c == '.'
}

/// A domain name: letters, digits, `-` and `.`, at least one `.`, and
/// neither starting nor ending with `.` or `-`.
pub open spec fn valid_domain(s: Seq<char>) -> bool {
    &&& s.len() > 0
    &&& forall|i: int| 0 <= i < s.len() ==> is_domain_char(#[trigger] s[i])
    &&& contains(s, "."@)
    &&& s[0] != '.' && s[0] != '-'
    &&& s.last() != '.' && s.last() != '-'
}

/// An email address: one `@`, a non-empty part before it and a domain name after it.
pub open spec fn valid_email(s: Seq<char>) -> bool {
    let j = find_char_from(s, '@', 0);
    &&& j < s.len()
    &&& j > 0
    &&& find_char_from(s, '@', j + 1) == s.len()
    &&& valid_domain(s.subrange(j + 1, s.len() as int))
}

/// The complaints about the tokens `i..=RPC_TOKEN_COUNT` that are set but not 32 hex digits.
pub open spec fn token_errors(m: Map<Seq<char>, ConfigValueView>, i: nat) -> Seq<Seq<char>>
    decreases RPC_TOKEN_COUNT + 1 - i,
{
    if i > RPC_TOKEN_COUNT || i == 0 {
        Seq::empty()
    } else {
        let here = match value_of(m, token_key(i)) {
            Some(t) => if !valid_hex(t) || t.len() != 32 {
                seq!["RPC_ACCESS_TOKEN_"@ + decimal(i) + " must be 32 hex characters"@]
            } else {
                Seq::empty()
            },
            None => Seq::empty(),
        };
        here + token_errors(m, i + 1)
    }
}

/// The complaints about a configuration, in the order they are reported.
pub open spec fn config_errors(m: Map<Seq<char>, ConfigValueView>) -> Seq<Seq<char>> {
    let e1 = if value_of(m, "NETWORK"@) is None {
        seq!["NETWORK is not set"@]
    } else {
        Seq::empty()
    };
    let e2 = if value_of(m, "NODE_ID"@) is None {
        seq!["NODE_ID is not set"@]
    } else {
        Seq::empty()
    };
    let e3 = match value_of(m, "IGRA_ORCHESTRA_DOMAIN"@) {
        Some(d) => if !valid_domain(d) {
            seq!["Invalid domain: "@ + d]
        } else {
            Seq::empty()
        },
        None => Seq::empty(),
    };
    let e4 = match value_of(m, "IGRA_ORCHESTRA_DOMAIN_EMAIL"@) {
        Some(e) => if !valid_email(e) {
            seq!["Invalid email: "@ + e]
        } else {
            Seq::empty()
        },
        None => Seq::empty(),
    };
    let e5 = if value_of(m, "RPC_ACCESS_TOKEN_1"@) is None {
        seq!["No RPC access tokens configured"@]
    } else {
        Seq::empty()
    };
    e1 + e2 + e3 + e4 + e5 + token_errors(m, 1)
}

/// The lower-case hexadecimal digit for `d < 16`.
pub open spec fn hex_digit(d: int) -> char {
    if d < 10 {
        digit_char(d)
    } else if d == 10 {
        'a'
    } else if d == 11 {
        'b'
    } else if d == 12 {
        'c'
    } else if d == 13 {
        'd'
    } else if d == 14 {
        'e'
    } else {
        'f'
    }
}

/// The lower-case hexadecimal text of `bytes`, two digits a byte.
pub open spec fn hex_of(bytes: Seq<u8>) -> Seq<char>
    decreases bytes.len(),
{
    if bytes.len() == 0 {
        Seq::empty()
    } else {
        hex_of(bytes.drop_last()) + seq![
            hex_digit(bytes.last() as int / 16),
            hex_digit(bytes.last() as int % 16),
        ]
    }
}

/// `n` random bytes from the operating system (`OsRng::fill_bytes`). Only
/// their number is stated: their values come from the operating system.
#[verifier::external_body]
fn random_bytes(n: usize) -> (r: Vec<u8>)
    ensures
        r@.len() == n,
{
    let mut v = vec![0u8; n];
    OsRng.fill_bytes(&mut v);
    v
}

/// The hexadecimal digit for `d < 16`.
fn hex_digit_exec(d: u8) -> (r: char)
    requires
        d < 16,
    ensures
        r == hex_digit(d as int),
{
    if d < 10 {
        digit(d as u64)
    } else if d == 10 {
        'a'
    } else if d == 11 {
        'b'
    } else if d == 12 {
        'c'
    } else if d == 13 {
        'd'
    } else if d == 14 {
        'e'
    } else {
        'f'
    }
}

/// The lower-case hexadecimal text of `bytes`.
pub fn hex_encode(bytes: &[u8]) -> (r: String)
    ensures
        r@ == hex_of(bytes@),
        r@.len() == 2 * bytes@.len(),
        valid_hex(r@) || bytes@.len() == 0,
{
    let mut out: Vec<char> = Vec::new();
    let mut i: usize = 0;
    while i < bytes.len()
        invariant
            i <= bytes.len(),
            out@ == hex_of(bytes@.take(i as int)),
            out@.len() == 2 * i,
            forall|k: int| 0 <= k < out@.len() ==> is_hex_char(#[trigger] out@[k]),
        decreases bytes.len() - i,
    {
        let b = bytes[i];
        out.push(hex_digit_exec(b / 16));
        out.push(hex_digit_exec(b % 16));
        proof {
            assert(bytes@.take(i + 1).drop_last() == bytes@.take(i as int));
            assert(bytes@.take(i + 1).last() == b);
        }
        i += 1;
    }
    assert(bytes@.take(bytes.len() as int) == bytes@);
    string_of(&out)
}

/// A random token of `len` lower-case hexadecimal digits (`len` even).
pub fn generate_hex_string(len: usize) -> (r: String)
    ensures
        r@.len() == 2 * (len / 2),
        len >= 2 ==> valid_hex(r@),
{
    let bytes = random_bytes(len / 2);
    hex_encode(&bytes)
}

/// Whether `c` is a hexadecimal digit.
fn is_hex_char_exec(c: char) -> (r: bool)
    ensures
        r == is_hex_char(c),
{
    ('0' <= c && c <= '9') || ('a' <= c && c <= 'f') || ('A' <= c && c <= 'F')
}

/// Whether `s` is a non-empty text of hexadecimal digits.
pub fn is_valid_hex(s: &str) -> (r: bool)
    ensures
        r == valid_hex(s@),
{
    let v = chars_of(s);
    if v.len() == 0 {
        return false;
    }
    let mut i: usize = 0;
    while i < v.len()
        invariant
            i <= v.len(),
            v@ == s@,
            forall|k: int| 0 <= k < i ==> is_hex_char(#[trigger] v@[k]),
        decreases v.len() - i,
    {
        if !is_hex_char_exec(v[i]) {
            return false;
        }
        i += 1;
    }
    true
}

/// Whether `s[a..b]` is a domain name.
fn is_valid_domain_chars(s: &[char], a: usize, b: usize) -> (r: bool)
    requires
        a <= b <= s.len(),
    ensures
        r == valid_domain(s@.subrange(a as int, b as int)),
{
    let d = slice_chars(s, a, b);
    if d.len() == 0 {
        return false;
    }
    let mut i: usize = 0;
    while i < d.len()
        invariant
            i <= d.len(),
            d@ == s@.subrange(a as int, b as int),
            forall|k: int| 0 <= k < i ==> is_domain_char(#[trigger] d@[k]),
        decreases d.len() - i,
    {
        let c = d[i];
        if !(('0' <= c && c <= '9') || ('a' <= c && c <= 'z') || ('A' <= c && c <= 'Z') || c
            == '-' || c == '.') {
            return false;
        }
        i += 1;
    }
    let dot = ['.'];
    if !contains_exec(&d, &dot) {
        assert(dot@ =~= "."@) by {
            reveal_strlit(".");
        }
        return false;
    }
    assert(dot@ =~= "."@) by {
        reveal_strlit(".");
    }
    let first = d[0];
    let last = d[d.len() - 1];
    first != '.' && first != '-' && last != '.' && last != '-'
}

/// Whether `s` is a domain name.
pub fn is_valid_domain(s: &str) -> (r: bool)
    ensures
        r == valid_domain(s@),
{
    let v = chars_of(s);
    assert(v@.subrange(0, v@.len() as int) =~= v@);
    is_valid_domain_chars(&v, 0, v.len())
}

/// Whether `s` is an email address.
pub fn is_valid_email(s: &str) -> (r: bool)
    ensures
        r == valid_email(s@),
{
    let v = chars_of(s);
    proof {
        lemma_find_char_bounds(v@, '@', 0);
    }
    let j = find_char_exec(&v, '@', 0);
    if j >= v.len() || j == 0 {
        return false;
    }
    proof {
        lemma_find_char_bounds(v@, '@', j + 1);
    }
    if find_char_exec(&v, '@', j + 1) != v.len() {
        return false;
    }
    is_valid_domain_chars(&v, j + 1, v.len())
}

/// A worker's wallet settings.
#[derive(Debug)]
pub struct WalletConfig {
    pub worker_id: usize,
    pub address: String,
    pub password: Option<String>,
}

/// The domain and certificate (OVH DNS) settings.
#[derive(Debug)]
pub struct DomainConfig {
    pub domain: String,
    pub email: String,
    pub ovh_endpoint: Option<String>,
    pub ovh_app_key: Option<String>,
    pub ovh_app_secret: Option<String>,
    pub ovh_consumer_key: Option<String>,
}

impl DomainConfig {
    /// Whether all four OVH settings are present.
    pub fn has_ovh_config(&self) -> (r: bool)
        ensures
            r == (self.ovh_endpoint is Some && self.ovh_app_key is Some && self.ovh_app_secret is Some
                && self.ovh_consumer_key is Some),
    {
        self.ovh_endpoint.is_some() && self.ovh_app_key.is_some() && self.ovh_app_secret.is_some()
            && self.ovh_consumer_key.is_some()
    }
}


/// Why a configuration change was refused.
#[derive(Debug, Clone, PartialEq, Eq)]
pub enum ConfigError {
    /// A token index outside `1..=RPC_TOKEN_COUNT`.
    TokenIndexOutOfRange(usize),
}

/// The settings of a `.env` file.
pub struct ConfigManager {
    env_file: String,
    config: StrMap<ConfigValue>,
}

/// A copy of an optional string.
fn copy_opt(o: &Option<String>) -> (r: Option<String>)
    ensures
        r == *o,
{
    match o {
        Some(s) => Some(s.clone()),
        None => None,
    }
}

impl ConfigManager {
    /// The settings, by key.
    pub closed spec fn settings(&self) -> Map<Seq<char>, ConfigValueView> {
        self.config.map().map_values(|v: ConfigValue| v@)
    }

    /// The path of the `.env` file.
    pub closed spec fn env_file_spec(&self) -> Seq<char> {
        self.env_file@
    }

    /// The settings are well formed.
    pub closed spec fn wf(&self) -> bool {
        self.config.wf()
    }

    /// The settings that the text of the `.env` file at `env_file` holds.
    pub fn from_content(env_file: String, content: &str) -> (r: ConfigManager)
        ensures
            r.wf(),
            r.settings() == parse_env(content@),
            r.env_file_spec() == env_file@,
    {
        let chars = chars_of(content);
        let ls = split_lines(&chars);
        let mut config: StrMap<ConfigValue> = StrMap::new();
        let mut comment: Option<String> = None;
        let mut i: usize = 0;
        proof {
            assert(views(ls@).take(0) =~= Seq::<Seq<char>>::empty());
        }
        while i < ls.len()
            invariant
                i <= ls.len(),
                views(ls@) == lines(content@),
                config.wf(),
                config.map().map_values(|v: ConfigValue| v@) == env_fold(
                    views(ls@).take(i as int),
                ).settings,
                opt_view(comment) == env_fold(views(ls@).take(i as int)).comment,
            decreases ls.len() - i,
        {
            let ghost before = env_fold(views(ls@).take(i as int));
            proof {
                assert(views(ls@).take(i + 1).drop_last() == views(ls@).take(i as int));
                assert(views(ls@).take(i + 1).last() == ls@[i as int]@);
            }
            let l = trim_chars(&ls[i]);
            if starts_with_exec(&l, &['#']) {
                assert(['#']@ =~= "#"@) by {
                    reveal_strlit("#");
                }
                let t = trim_start_matches_exec(&l, &['#']);
                let c = trim_chars(&t);
                comment = Some(string_of(&c));
            } else if l.len() == 0 {
                assert(['#']@ =~= "#"@) by {
                    reveal_strlit("#");
                }
                comment = None;
            } else {
                assert(['#']@ =~= "#"@) by {
                    reveal_strlit("#");
                }
                proof {
                    lemma_find_char_bounds(l@, '=', 0);
                }
                let j = find_char_exec(&l, '=', 0);
                if j < l.len() {
                    let k0 = slice_chars(&l, 0, j);
                    let v0 = slice_chars(&l, j + 1, l.len());
                    let k = trim_chars(&k0);
                    let v = trim_chars(&v0);
                    let key = string_of(&k);
                    let cv = ConfigValue { key: key.clone(), value: string_of(&v), comment };
                    let ghost m0 = config.map();
                    let ghost cvv = cv@;
                    config.insert(key, cv);
                    proof {
                        assert(config.map().map_values(|v: ConfigValue| v@) =~= m0.map_values(
                            |v: ConfigValue| v@,
                        ).insert(k@, cvv));
                    }
                    comment = None;
                }
            }
            i += 1;
        }
        proof {
            assert(views(ls@).take(ls.len() as int) == views(ls@));
        }
        ConfigManager { env_file, config }
    }

    /// The path of the `.env` file.
    pub fn env_file(&self) -> (r: &str)
        ensures
            r@ == self.env_file_spec(),
    {
        self.env_file.as_str()
    }

    /// The file text to write back, given the file's current text `current`: its
    /// lines with updated values, joined by `\n`.
    pub fn render(&self, current: &str) -> (r: String)
        requires
            self.wf(),
        ensures
            r@ == join(render_lines(self.settings(), lines(current@)), "\n"@),
    {
        let chars = chars_of(current);
        let ls = split_lines(&chars);
        let mut out: Vec<Vec<char>> = Vec::new();
        let mut i: usize = 0;
        while i < ls.len()
            invariant
                self.wf(),
                i <= ls.len(),
                views(ls@) == lines(current@),
                views(out@) == render_lines(self.settings(), views(ls@).take(i as int)),
            decreases ls.len() - i,
        {
            proof {
                assert(views(ls@).take(i + 1).drop_last() == views(ls@).take(i as int));
                assert(views(ls@).take(i + 1).last() == ls@[i as int]@);
                assert(['#']@ =~= "#"@) by {
                    reveal_strlit("#");
                }
            }
            let line = &ls[i];
            let t = trim_chars(line);
            let ghost ob = out@;
            if starts_with_exec(&t, &['#']) || t.len() == 0 {
                out.push(slice_chars(line, 0, line.len()));
                proof {
                    assert(line@.subrange(0, line@.len() as int) =~= line@);
                    assert(views(out@) =~= views(ob).push(line@));
                }
            } else {
                proof {
                    lemma_find_char_bounds(t@, '=', 0);
                }
                let j = find_char_exec(&t, '=', 0);
                if j < t.len() {
                    let k0 = slice_chars(&t, 0, j);
                    let k = trim_chars(&k0);
                    let key = string_of(&k);
                    match self.config.get(key.as_str()) {
                        Some(cv) => {
                            let mut nl: Vec<char> = Vec::new();
                            push_chars(&mut nl, &k);
                            push_str(&mut nl, "=");
                            push_str(&mut nl, cv.value.as_str());
                            out.push(nl);
                            proof {
                                assert(views(out@) =~= views(ob).push(nl@));
                            }
                        },
                        None => {
                            out.push(slice_chars(line, 0, line.len()));
                            proof {
                                assert(line@.subrange(0, line@.len() as int) =~= line@);
                                assert(views(out@) =~= views(ob).push(line@));
                            }
                        },
                    }
                }
            }
            i += 1;
        }
        proof {
            assert(views(ls@).take(ls.len() as int) == views(ls@));
        }
        join_exec(&out, "\n")
    }

    /// The value set for `key`.
    pub fn get(&self, key: &str) -> (r: Option<&str>)
        requires
            self.wf(),
        ensures
            r matches Some(v) ==> value_of(self.settings(), key@) == Some(v@),
            r is None ==> value_of(self.settings(), key@) is None,
    {
        match self.config.get(key) {
            Some(v) => Some(v.value.as_str()),
            None => None,
        }
    }

    /// Sets `key` to `value`; an existing key keeps its comment.
    pub fn set(&mut self, key: String, value: String)
        requires
            old(self).wf(),
        ensures
            final(self).wf(),
            final(self).env_file_spec() == old(self).env_file_spec(),
            final(self).settings() == old(self).settings().insert(
                key@,
                ConfigValueView {
                    key: key@,
                    value: value@,
                    comment: if old(self).settings().contains_key(key@) {
                        old(self).settings()[key@].comment
                    } else {
                        None
                    },
                },
            ),
            final(self).settings().dom().finite(),
            final(self).settings().len() == old(self).settings().len() + (if old(
                self,
            ).settings().contains_key(key@) {
                0int
            } else {
                1int
            }),
    {
        proof {
            self.lemma_settings_finite();
        }
        let comment = match self.config.get(key.as_str()) {
            Some(existing) => copy_opt(&existing.comment),
            None => None,
        };
        let cv = ConfigValue { key: key.clone(), value, comment };
        let ghost m0 = self.config.map();
        let ghost cvv = cv@;
        self.config.insert(key, cv);
        proof {
            assert(self.config.map().map_values(|v: ConfigValue| v@) =~= m0.map_values(
                |v: ConfigValue| v@,
            ).insert(cvv.key, cvv));
            self.lemma_settings_finite();
            let s0 = old(self).settings();
            assert(self.settings().dom() =~= s0.dom().insert(cvv.key));
            vstd::set::axiom_set_insert_len(s0.dom(), cvv.key);
        }
    }

    /// The settings have finitely many keys.
    proof fn lemma_settings_finite(&self)
        requires
            self.wf(),
        ensures
            self.settings().dom().finite(),
            self.settings().dom() == self.config.map().dom(),
    {
        self.config.lemma_map_is_entries();
        crate::strmap::lemma_dom_len_seq(self.config.entries_spec());
        assert(self.settings().dom() =~= self.config.map().dom());
    }

    /// The key of RPC access token `i`.
    fn token_key_exec(i: usize) -> (r: String)
        ensures
            r@ == token_key(i as nat),
    {
        let mut v: Vec<char> = Vec::new();
        push_str(&mut v, "RPC_ACCESS_TOKEN_");
        push_decimal(&mut v, i as u64);
        string_of(&v)
    }

    /// Each token index from 1 to `RPC_TOKEN_COUNT` with its value, if set.
    pub fn get_rpc_tokens(&self) -> (r: Vec<(usize, Option<String>)>)
        requires
            self.wf(),
        ensures
            r@.len() == RPC_TOKEN_COUNT,
            forall|k: int|
                0 <= k < RPC_TOKEN_COUNT ==> (#[trigger] r@[k]).0 == k + 1 && opt_view(r@[k].1)
                    == value_of(self.settings(), token_key((k + 1) as nat)),
    {
        let mut out: Vec<(usize, Option<String>)> = Vec::new();
        let mut i: usize = 1;
        while i <= RPC_TOKEN_COUNT
            invariant
                self.wf(),
                1 <= i <= RPC_TOKEN_COUNT + 1,
                out@.len() == i - 1,
                forall|k: int|
                    0 <= k < i - 1 ==> (#[trigger] out@[k]).0 == k + 1 && opt_view(out@[k].1)
                        == value_of(self.settings(), token_key((k + 1) as nat)),
            decreases RPC_TOKEN_COUNT + 1 - i,
        {
            let key = Self::token_key_exec(i);
            let token = match self.get(key.as_str()) {
                Some(t) => Some(owned(t)),
                None => None,
            };
            out.push((i, token));
            i += 1;
        }
        out
    }

    /// Sets RPC access token `index` to a fresh random 32-digit hex token.
    pub fn generate_rpc_token(&mut self, index: usize) -> (r: Result<String, ConfigError>)
        requires
            old(self).wf(),
        ensures
            final(self).wf(),
            r is Ok <==> 1 <= index <= RPC_TOKEN_COUNT,
            r is Err ==> r == Err::<String, ConfigError>(ConfigError::TokenIndexOutOfRange(index))
                && final(self).settings() == old(self).settings(),
            r matches Ok(t) ==> t@.len() == 32 && valid_hex(t@) && value_of(
                final(self).settings(),
                token_key(index as nat),
            ) == Some(t@),
            r matches Ok(t) ==> final(self).settings().remove(token_key(index as nat)) == old(
                self,
            ).settings().remove(token_key(index as nat)),
            final(self).env_file_spec() == old(self).env_file_spec(),
    {
        if index < 1 || index > RPC_TOKEN_COUNT {
            return Err(ConfigError::TokenIndexOutOfRange(index));
        }
        let token = generate_hex_string(32);
        let key = Self::token_key_exec(index);
        let ghost ks = key@;
        self.set(key, token.clone());
        proof {
            assert(self.settings().remove(ks) =~= old(self).settings().remove(ks));
        }
        Ok(token)
    }

    /// Sets every RPC access token to a fresh random token, in index order.
    pub fn generate_all_rpc_tokens(&mut self) -> (r: Result<Vec<String>, ConfigError>)
        requires
            old(self).wf(),
        ensures
            final(self).wf(),
            r is Ok,
            r matches Ok(ts) ==> ts@.len() == RPC_TOKEN_COUNT && forall|k: int|
                0 <= k < RPC_TOKEN_COUNT ==> (#[trigger] ts@[k])@.len() == 32 && valid_hex(ts@[k]@)
                    && value_of(final(self).settings(), token_key((k + 1) as nat)) == Some(
                    ts@[k]@,
                ),
            forall|key: Seq<char>|
                (forall|k: nat| 1 <= k <= RPC_TOKEN_COUNT ==> key != #[trigger] token_key(k))
                    ==> value_of(final(self).settings(), key) == value_of(old(self).settings(), key),
            all_tokens_valid(final(self).settings()),
    {
        let mut tokens: Vec<String> = Vec::new();
        let mut i: usize = 1;
        while i <= RPC_TOKEN_COUNT
            invariant
                self.wf(),
                1 <= i <= RPC_TOKEN_COUNT + 1,
                tokens@.len() == i - 1,
                forall|k: int|
                    0 <= k < i - 1 ==> (#[trigger] tokens@[k])@.len() == 32 && valid_hex(tokens@[k]@)
                        && value_of(self.settings(), token_key((k + 1) as nat)) == Some(
                        tokens@[k]@,
                    ),
                forall|key: Seq<char>|
                    (forall|k: nat| 1 <= k <= RPC_TOKEN_COUNT ==> key != #[trigger] token_key(k))
                        ==> value_of(self.settings(), key) == value_of(old(self).settings(), key),
            decreases RPC_TOKEN_COUNT + 1 - i,
        {
            let ghost before = self.settings();
            let t = match self.generate_rpc_token(i) {
                Ok(t) => t,
                Err(e) => return Err(e),
            };
            proof {
                assert forall|k: nat| 1 <= k < i implies value_of(
                    self.settings(),
                    #[trigger] token_key(k),
                ) == value_of(before, token_key(k)) by {
                    lemma_token_keys_distinct(k, i as nat);
                    lemma_value_of_other_key(self.settings(), before, token_key(i as nat), token_key(k));
                }
                assert forall|key: Seq<char>|
                    (forall|k: nat| 1 <= k <= RPC_TOKEN_COUNT ==> key != #[trigger] token_key(k))
                        implies value_of(self.settings(), key) == value_of(before, key) by {
                    assert(key != token_key(i as nat));
                    lemma_value_of_other_key(self.settings(), before, token_key(i as nat), key);
                }
            }
            tokens.push(t);
            i += 1;
        }
        proof {
            assert forall|k: nat| 1 <= k <= RPC_TOKEN_COUNT implies (#[trigger] value_of(
                self.settings(),
                token_key(k),
            ) matches Some(t) && t.len() == 32 && valid_hex(t)) by {
                assert(tokens@[k - 1]@.len() == 32);
            }
        }
        Ok(tokens)
    }

    /// The wallet settings of worker `worker_id`, when its address is set.
    pub fn get_wallet_config(&self, worker_id: usize) -> (r: Option<WalletConfig>)
        requires
            self.wf(),
        ensures
            r is Some <==> value_of(
                self.settings(),
                "W"@ + decimal(worker_id as nat) + "_WALLET_TO_ADDRESS"@,
            ) is Some,
            r matches Some(w) ==> w.worker_id == worker_id && Some(w.address@) == value_of(
                self.settings(),
                "W"@ + decimal(worker_id as nat) + "_WALLET_TO_ADDRESS"@,
            ) && opt_view(w.password) == value_of(
                self.settings(),
                "W"@ + decimal(worker_id as nat) + "_KASWALLET_PASSWORD"@,
            ),
    {
        let mut ak: Vec<char> = Vec::new();
        push_str(&mut ak, "W");
        push_decimal(&mut ak, worker_id as u64);
        let mut pk: Vec<char> = Vec::new();
        push_chars(&mut pk, &ak);
        push_str(&mut ak, "_WALLET_TO_ADDRESS");
        push_str(&mut pk, "_KASWALLET_PASSWORD");
        let address_key = string_of(&ak);
        let password_key = string_of(&pk);
        let address = match self.get(address_key.as_str()) {
            Some(a) => owned(a),
            None => return None,
        };
        let password = match self.get(password_key.as_str()) {
            Some(p) => Some(owned(p)),
            None => None,
        };
        Some(WalletConfig { worker_id, address, password })
    }

    /// The domain settings, when both the domain and its email are set.
    pub fn get_domain_config(&self) -> (r: Option<DomainConfig>)
        requires
            self.wf(),
        ensures
            r is Some <==> value_of(self.settings(), "IGRA_ORCHESTRA_DOMAIN"@) is Some && value_of(
                self.settings(),
                "IGRA_ORCHESTRA_DOMAIN_EMAIL"@,
            ) is Some,
            r matches Some(d) ==> Some(d.domain@) == value_of(
                self.settings(),
                "IGRA_ORCHESTRA_DOMAIN"@,
            ) && Some(d.email@) == value_of(self.settings(), "IGRA_ORCHESTRA_DOMAIN_EMAIL"@)
                && opt_view(d.ovh_endpoint) == value_of(self.settings(), "OVH_ENDPOINT"@)
                && opt_view(d.ovh_app_key) == value_of(self.settings(), "OVH_APPLICATION_KEY"@)
                && opt_view(d.ovh_app_secret) == value_of(
                self.settings(),
                "OVH_APPLICATION_SECRET"@,
            ) && opt_view(d.ovh_consumer_key) == value_of(self.settings(), "OVH_CONSUMER_KEY"@),
    {
        let domain = match self.get("IGRA_ORCHESTRA_DOMAIN") {
            Some(d) => owned(d),
            None => return None,
        };
        let email = match self.get("IGRA_ORCHESTRA_DOMAIN_EMAIL") {
            Some(e) => owned(e),
            None => return None,
        };
        Some(
            DomainConfig {
                domain,
                email,
                ovh_endpoint: self.get_owned("OVH_ENDPOINT"),
                ovh_app_key: self.get_owned("OVH_APPLICATION_KEY"),
                ovh_app_secret: self.get_owned("OVH_APPLICATION_SECRET"),
                ovh_consumer_key: self.get_owned("OVH_CONSUMER_KEY"),
            },
        )
    }

    /// The value set for `key`, as an owned string.
    fn get_owned(&self, key: &str) -> (r: Option<String>)
        requires
            self.wf(),
        ensures
            opt_view(r) == value_of(self.settings(), key@),
    {
        match self.get(key) {
            Some(v) => Some(owned(v)),
            None => None,
        }
    }

    /// The complaints about the configuration, in the order they are reported.
    pub fn validate(&self) -> (r: Vec<String>)
        requires
            self.wf(),
        ensures
            string_views(r@) == config_errors(self.settings()),
    {
        let mut errors: Vec<String> = Vec::new();
        let ghost m = self.settings();
        if self.get("NETWORK").is_none() {
            errors.push(owned("NETWORK is not set"));
        }
        if self.get("NODE_ID").is_none() {
            errors.push(owned("NODE_ID is not set"));
        }
        if let Some(domain) = self.get("IGRA_ORCHESTRA_DOMAIN") {
            if !is_valid_domain(domain) {
                errors.push(concat3("Invalid domain: ", domain, ""));
            }
        }
        if let Some(email) = self.get("IGRA_ORCHESTRA_DOMAIN_EMAIL") {
            if !is_valid_email(email) {
                errors.push(concat3("Invalid email: ", email, ""));
            }
        }
        if self.get("RPC_ACCESS_TOKEN_1").is_none() {
            errors.push(owned("No RPC access tokens configured"));
        }
        let ghost head = string_views(errors@);
        proof {
            reveal_strlit("");
            assert(head =~= (if value_of(m, "NETWORK"@) is None {
                seq!["NETWORK is not set"@]
            } else {
                Seq::empty()
            }) + (if value_of(m, "NODE_ID"@) is None {
                seq!["NODE_ID is not set"@]
            } else {
                Seq::empty()
            }) + (match value_of(m, "IGRA_ORCHESTRA_DOMAIN"@) {
                Some(d) => if !valid_domain(d) {
                    seq!["Invalid domain: "@ + d]
                } else {
                    Seq::empty()
                },
                None => Seq::empty(),
            }) + (match value_of(m, "IGRA_ORCHESTRA_DOMAIN_EMAIL"@) {
                Some(e) => if !valid_email(e) {
                    seq!["Invalid email: "@ + e]
                } else {
                    Seq::empty()
                },
                None => Seq::empty(),
            }) + (if value_of(m, "RPC_ACCESS_TOKEN_1"@) is None {
                seq!["No RPC access tokens configured"@]
            } else {
                Seq::empty()
            }));
        }
        let tokens = self.get_rpc_tokens();
        let mut i: usize = 0;
        while i < tokens.len()
            invariant
                self.wf(),
                m == self.settings(),
                tokens@.len() == RPC_TOKEN_COUNT,
                forall|k: int|
                    0 <= k < RPC_TOKEN_COUNT ==> (#[trigger] tokens@[k]).0 == k + 1 && opt_view(
                        tokens@[k].1,
                    ) == value_of(m, token_key((k + 1) as nat)),
                i <= RPC_TOKEN_COUNT,
                string_views(errors@) + token_errors(m, (i + 1) as nat) == config_errors(m),
            decreases RPC_TOKEN_COUNT - i,
        {
            let ghost eb = string_views(errors@);
            let (idx, tok) = &tokens[i];
            proof {
                assert(token_errors(m, (i + 1) as nat) == (match value_of(
                    m,
                    token_key((i + 1) as nat),
                ) {
                    Some(t) => if !valid_hex(t) || t.len() != 32 {
                        seq!["RPC_ACCESS_TOKEN_"@ + decimal((i + 1) as nat) + " must be 32 hex characters"@]
                    } else {
                        Seq::<Seq<char>>::empty()
                    },
                    None => Seq::<Seq<char>>::empty(),
                }) + token_errors(m, (i + 2) as nat));
            }
            if let Some(t) = tok {
                if !is_valid_hex(t.as_str()) || t.as_str().unicode_len() != 32 {
                    let mut v: Vec<char> = Vec::new();
                    push_str(&mut v, "RPC_ACCESS_TOKEN_");
                    push_decimal(&mut v, *idx as u64);
                    push_str(&mut v, " must be 32 hex characters");
                    let msg = string_of(&v);
                    errors.push(msg);
                    proof {
                        assert(string_views(errors@) =~= eb.push(msg@));
                        assert(msg@ =~= "RPC_ACCESS_TOKEN_"@ + decimal((i + 1) as nat)
                            + " must be 32 hex characters"@);
                        assert(string_views(errors@) + token_errors(m, (i + 2) as nat) =~= eb
                            + token_errors(m, (i + 1) as nat));
                    }
                } else {
                    proof {
                        assert(eb + token_errors(m, (i + 2) as nat) =~= eb + token_errors(
                            m,
                            (i + 1) as nat,
                        ));
                    }
                }
            } else {
                proof {
                    assert(eb + token_errors(m, (i + 2) as nat) =~= eb + token_errors(
                        m,
                        (i + 1) as nat,
                    ));
                }
            }
            i += 1;
        }
        proof {
            assert(token_errors(m, (RPC_TOKEN_COUNT + 1) as nat) == Seq::<Seq<char>>::empty());
            assert(string_views(errors@) =~= string_views(errors@) + Seq::<Seq<char>>::empty());
        }
        errors
    }

    /// All keys, in character order.
    pub fn keys(&self) -> (r: Vec<String>)
        requires
            self.wf(),
        ensures
            self.settings().dom().finite(),
            r@.len() == self.settings().dom().len(),
            forall|i: int, j: int|
                0 <= i < j < r@.len() ==> lex_lt((#[trigger] r@[i])@, (#[trigger] r@[j])@),
            forall|k: Seq<char>| self.settings().contains_key(k) <==> #[trigger] listed(r@, k),
    {
        let n = self.config.len();
        let mut out: Vec<String> = Vec::new();
        let mut i: usize = 0;
        let ghost e = self.config.entries_spec();
        proof {
            self.config.lemma_map_is_entries();
        }
        while i < n
            invariant
                self.wf(),
                e == self.config.entries_spec(),
                n == e.len(),
                i <= n,
                crate::strmap::distinct_keys(e),
                out@.len() == i,
                forall|a: int, b: int|
                    0 <= a < b < out@.len() ==> lex_lt((#[trigger] out@[a])@, (#[trigger] out@[b])@),
                forall|k: Seq<char>| #[trigger] listed(out@, k) <==> keyed(e, i as int, k),
            decreases n - i,
        {
            let (key, _) = self.config.entry(i);
            let kc = chars_of(key.as_str());
            let mut j: usize = 0;
            while j < out.len() && lex_le_exec(&chars_of(out[j].as_str()), &kc)
                invariant
                    j <= out@.len(),
                    kc@ == key@,
                    forall|a: int| 0 <= a < j ==> lex_le((#[trigger] out@[a])@, kc@),
                decreases out@.len() - j,
            {
                j += 1;
            }
            let ghost ob = out@;
            proof {
                // the new key differs from every key already placed
                assert forall|a: int| 0 <= a < ob.len() implies (#[trigger] ob[a])@ != key@ by {
                    assert(listed(ob, ob[a]@));
                    assert(keyed(e, i as int, ob[a]@));
                    let b = choose|b: int| 0 <= b < i && (#[trigger] e[b]).0@ == ob[a]@;
                    assert(e[b].0@ != e[i as int].0@);
                }
                if j < ob.len() {
                    lemma_lex_total(ob[j as int]@, key@);
                }
            }
            out.insert(j, key.clone());
            proof {
                assert forall|a: int, b: int|
                    0 <= a < b < out@.len() implies lex_lt(
                    (#[trigger] out@[a])@,
                    (#[trigger] out@[b])@,
                ) by {
                    if a < j && b < j {
                        assert(out@[a] == ob[a] && out@[b] == ob[b]);
                    } else if a < j && b == j {
                        assert(out@[a] == ob[a]);
                    } else if a < j && b > j {
                        assert(out@[a] == ob[a] && out@[b] == ob[b - 1]);
                        assert(lex_le(ob[a]@, key@));
                        assert(lex_le(key@, ob[j as int]@));
                        if j < b - 1 {
                            assert(lex_lt(ob[j as int]@, ob[b - 1]@));
                            lemma_lex_trans(key@, ob[j as int]@, ob[b - 1]@);
                        }
                        lemma_lex_trans(ob[a]@, key@, ob[b - 1]@);
                        if ob[a]@ == ob[b - 1]@ {
                            lemma_lex_antisym(ob[a]@, key@);
                        }
                    } else if a == j {
                        assert(out@[b] == ob[b - 1]);
                        assert(lex_le(key@, ob[j as int]@));
                        if j < b - 1 {
                            assert(lex_lt(ob[j as int]@, ob[b - 1]@));
                            lemma_lex_trans(key@, ob[j as int]@, ob[b - 1]@);
                        }
                    } else {
                        assert(out@[a] == ob[a - 1] && out@[b] == ob[b - 1]);
                    }
                }
                assert forall|k: Seq<char>| #[trigger] listed(out@, k) <==> keyed(e, i + 1, k) by {
                    if listed(out@, k) {
                        let a = choose|a: int| 0 <= a < out@.len() && (#[trigger] out@[a])@ == k;
                        if a < j {
                            assert(out@[a] == ob[a]);
                            assert(listed(ob, k));
                        } else if a > j {
                            assert(out@[a] == ob[a - 1]);
                            assert(listed(ob, k));
                        } else {
                            assert(e[i as int].0@ == k);
                        }
                    }
                    if keyed(e, i + 1, k) {
                        let b = choose|b: int| 0 <= b < i + 1 && (#[trigger] e[b]).0@ == k;
                        if b == i {
                            assert(out@[j as int]@ == k);
                        } else {
                            assert(keyed(e, i as int, k));
                            assert(listed(ob, k));
                            let a = choose|a: int| 0 <= a < ob.len() && (#[trigger] ob[a])@ == k;
                            if a < j {
                                assert(out@[a] == ob[a]);
                            } else {
                                assert(out@[a + 1] == ob[a]);
                            }
                        }
                    }
                }
            }
            i += 1;
        }
        proof {
            crate::strmap::lemma_dom_len_seq(e);
            assert(self.settings().dom() =~= crate::strmap::map_of(e).dom());
            assert forall|k: Seq<char>| self.settings().contains_key(k) <==> #[trigger] listed(
                out@,
                k,
            ) by {
                crate::strmap::lemma_map_of_domain(e, k);
            }
        }
        out
    }

    /// Every key with its value.
    pub fn to_map(&self) -> (r: StrMap<String>)
        requires
            self.wf(),
        ensures
            r.wf(),
            r.map().map_values(|s: String| s@) == self.settings().map_values(
                |v: ConfigValueView| v.value,
            ),
            r.map().dom() == self.settings().dom(),
    {
        let n = self.config.len();
        let mut out: StrMap<String> = StrMap::new();
        let mut i: usize = 0;
        let ghost e = self.config.entries_spec();
        proof {
            self.config.lemma_map_is_entries();
        }
        while i < n
            invariant
                self.wf(),
                e == self.config.entries_spec(),
                n == e.len(),
                i <= n,
                crate::strmap::distinct_keys(e),
                out.wf(),
                out.map().map_values(|s: String| s@) == crate::strmap::map_of(e.take(i as int)).map_values(
                    |v: ConfigValue| v.value@,
                ),
            decreases n - i,
        {
            let (key, v) = self.config.entry(i);
            let ghost ob = out.map();
            let val = v.value.clone();
            out.insert(key.clone(), val);
            proof {
                let mi = crate::strmap::map_of(e.take(i as int));
                assert(e.take(i + 1).drop_last() == e.take(i as int));
                assert(e.take(i + 1).last() == e[i as int]);
                let mn = crate::strmap::map_of(e.take(i + 1));
                assert(mn == mi.insert(e[i as int].0@, e[i as int].1));
                let lhs = out.map().map_values(|s: String| s@);
                let rhs = mn.map_values(|v: ConfigValue| v.value@);
                assert(ob.dom() =~= mi.dom()) by {
                    let a = ob.map_values(|s: String| s@);
                    let b = mi.map_values(|v: ConfigValue| v.value@);
                    assert forall|k: Seq<char>| #[trigger] ob.contains_key(k) == mi.contains_key(k) by {
                        assert(a.contains_key(k) == ob.contains_key(k));
                        assert(b.contains_key(k) == mi.contains_key(k));
                    }
                }
                assert forall|k: Seq<char>| #[trigger] lhs.contains_key(k) implies lhs[k]
                    == rhs[k] by {
                    if k != key@ {
                        assert(ob.map_values(|s: String| s@)[k] == mi.map_values(
                            |v: ConfigValue| v.value@,
                        )[k]);
                    }
                }
                assert(lhs =~= rhs);
            }
            i += 1;
        }
        proof {
            assert(e.take(n as int) == e);
            assert(self.settings().map_values(|v: ConfigValueView| v.value) =~= crate::strmap::map_of(
                e,
            ).map_values(|v: ConfigValue| v.value@));
            let a = out.map().map_values(|s: String| s@);
            let b = self.settings().map_values(|v: ConfigValueView| v.value);
            assert forall|k: Seq<char>| #[trigger] out.map().contains_key(k) == self.settings().contains_key(k) by {
                assert(a.contains_key(k) == out.map().contains_key(k));
                assert(b.contains_key(k) == self.settings().contains_key(k));
            }
            assert(out.map().dom() =~= self.settings().dom());
        }
        out
    }
}

/// `k` is one of the strings in `v`.
pub open spec fn listed(v: Seq<String>, k: Seq<char>) -> bool {
    exists|a: int| 0 <= a < v.len() && (#[trigger] v[a])@ == k
}

/// `k` is the key of one of the first `n` entries of `e`.
pub open spec fn keyed(e: Seq<(String, ConfigValue)>, n: int, k: Seq<char>) -> bool {
    exists|b: int| 0 <= b < n && (#[trigger] e[b]).0@ == k
}

/// Two maps that agree away from `k0` give every other key the same value.
pub proof fn lemma_value_of_other_key(
    m1: Map<Seq<char>, ConfigValueView>,
    m2: Map<Seq<char>, ConfigValueView>,
    k0: Seq<char>,
    key: Seq<char>,
)
    requires
        m1.remove(k0) == m2.remove(k0),
        key != k0,
    ensures
        value_of(m1, key) == value_of(m2, key),
{
    assert(m1.remove(k0).contains_key(key) == m1.contains_key(key));
    assert(m2.remove(k0).contains_key(key) == m2.contains_key(key));
    if m1.contains_key(key) {
        assert(m1.remove(k0)[key] == m1[key]);
        assert(m2.remove(k0)[key] == m2[key]);
    }
}

pub proof fn lemma_token_keys_distinct(a: nat, b: nat)
    requires
        a != b,
    ensures
        token_key(a) != token_key(b),
{
    let p = "RPC_ACCESS_TOKEN_"@;
    if token_key(a) == token_key(b) {
        assert(token_key(a).subrange(p.len() as int, token_key(a).len() as int) =~= decimal(a));
        assert(token_key(b).subrange(p.len() as int, token_key(b).len() as int) =~= decimal(b));
        lemma_decimal_injective(a, b);
    }
}


/// A value that was set is the value read back for its key, and every
/// other key keeps its value.
pub proof fn law_set_then_get(
    m: Map<Seq<char>, ConfigValueView>,
    key: Seq<char>,
    value: Seq<char>,
    comment: Option<Seq<char>>,
    other: Seq<char>,
)
    ensures
        value_of(m.insert(key, ConfigValueView { key, value, comment }), key) == Some(value),
        other != key ==> value_of(m.insert(key, ConfigValueView { key, value, comment }), other) == value_of(m, other),
{
}

/// The complaints about a configuration that do not concern RPC access tokens.
pub open spec fn general_errors(m: Map<Seq<char>, ConfigValueView>) -> Seq<Seq<char>> {
    let e1 = if value_of(m, "NETWORK"@) is None {
        seq!["NETWORK is not set"@]
    } else {
        Seq::empty()
    };
    let e2 = if value_of(m, "NODE_ID"@) is None {
        seq!["NODE_ID is not set"@]
    } else {
        Seq::empty()
    };
    let e3 = match value_of(m, "IGRA_ORCHESTRA_DOMAIN"@) {
        Some(d) => if !valid_domain(d) {
            seq!["Invalid domain: "@ + d]
        } else {
            Seq::empty()
        },
        None => Seq::empty(),
    };
    let e4 = match value_of(m, "IGRA_ORCHESTRA_DOMAIN_EMAIL"@) {
        Some(e) => if !valid_email(e) {
            seq!["Invalid email: "@ + e]
        } else {
            Seq::empty()
        },
        None => Seq::empty(),
    };
    e1 + e2 + e3 + e4
}

/// Every RPC access token from 1 to `RPC_TOKEN_COUNT` is set to 32 hex digits,
/// as `generate_all_rpc_tokens` leaves them.
pub open spec fn all_tokens_valid(m: Map<Seq<char>, ConfigValueView>) -> bool {
    forall|k: nat|
        1 <= k <= RPC_TOKEN_COUNT ==> ((#[trigger] value_of(m, token_key(k))) matches Some(t)
            && t.len() == 32 && valid_hex(t))
}

proof fn lemma_no_token_errors(m: Map<Seq<char>, ConfigValueView>, i: nat)
    requires
        all_tokens_valid(m),
    ensures
        token_errors(m, i) == Seq::<Seq<char>>::empty(),
    decreases RPC_TOKEN_COUNT + 1 - i,
{
    if i > RPC_TOKEN_COUNT || i == 0 {
    } else {
        assert(value_of(m, token_key(i)) matches Some(t) && t.len() == 32 && valid_hex(t));
        lemma_no_token_errors(m, i + 1);
        assert(token_errors(m, i) =~= Seq::<Seq<char>>::empty());
    }
}

/// Once every RPC access token is set to 32 hex digits (as after
/// `generate_all_rpc_tokens`), validation reports no complaint about tokens:
/// what it reports are the complaints about the other settings alone.
pub proof fn law_generated_tokens_validate(m: Map<Seq<char>, ConfigValueView>)
    requires
        all_tokens_valid(m),
    ensures
        config_errors(m) == general_errors(m),
{
    lemma_no_token_errors(m, 1);
    reveal_strlit("RPC_ACCESS_TOKEN_");
    reveal_strlit("RPC_ACCESS_TOKEN_1");
    assert(decimal(1) =~= seq!['1']);
    assert(token_key(1) =~= "RPC_ACCESS_TOKEN_1"@);
    assert(value_of(m, token_key(1)) is Some);
    assert(config_errors(m) =~= general_errors(m));
}

/// Writing the settings back keeps every comment and blank line where it
/// was, and rewrites a `KEY=...` line only with the current value of its key.
pub proof fn law_render_keeps_layout(m: Map<Seq<char>, ConfigValueView>, line: Seq<char>)
    ensures
        (starts_with(trim(line), "#"@) || trim(line).len() == 0) ==> render_line(m, line) == Some(line),
        render_line(m, line) matches Some(out) ==> out == line || (exists|k: Seq<char>|
            #[trigger] m.contains_key(k) && out == k + "="@ + m[k].value),
{
    let t = trim(line);
    if !(starts_with(t, "#"@) || t.len() == 0) {
        let j = find_char_from(t, '=', 0);
        if j < t.len() {
            let k = trim(t.subrange(0, j));
            if m.contains_key(k) {
                assert(m.contains_key(k));
            }
        }
    }
}

// ---------------------------------------------------------------------------
// Writing the settings back and reading them again
// ---------------------------------------------------------------------------

/// Reading lines in order from the state `st` on.
pub open spec fn env_fold_from(st: EnvState, ls: Seq<Seq<char>>) -> EnvState
    decreases ls.len(),
{
    if ls.len() == 0 {
        st
    } else {
        env_fold_from(env_step(st, ls[0]), ls.drop_first())
    }
}

/// Nothing read yet.
pub open spec fn env_start() -> EnvState {
    EnvState { settings: Map::empty(), comment: None }
}

proof fn lemma_fold_from_push(st: EnvState, ls: Seq<Seq<char>>, x: Seq<char>)
    ensures
        env_fold_from(st, ls.push(x)) == env_step(env_fold_from(st, ls), x),
    decreases ls.len(),
{
    if ls.len() == 0 {
        assert(ls.push(x)[0] == x);
        assert(ls.push(x).drop_first() =~= Seq::<Seq<char>>::empty());
        assert(env_fold_from(env_step(st, x), Seq::<Seq<char>>::empty()) == env_step(st, x));
    } else {
        assert(ls.push(x)[0] == ls[0]);
        assert(ls.push(x).drop_first() =~= ls.drop_first().push(x));
        lemma_fold_from_push(env_step(st, ls[0]), ls.drop_first(), x);
    }
}

proof fn lemma_fold_from_start(ls: Seq<Seq<char>>)
    ensures
        env_fold_from(env_start(), ls) == env_fold(ls),
    decreases ls.len(),
{
    if ls.len() > 0 {
        lemma_fold_from_start(ls.drop_last());
        lemma_fold_from_push(env_start(), ls.drop_last(), ls.last());
        assert(ls.drop_last().push(ls.last()) =~= ls);
    }
}

/// Reading lines back as `str::lines` does after they were joined leaves
/// the settings as reading the lines themselves.
proof fn lemma_read_back_settings(st: EnvState, ls: Seq<Seq<char>>)
    ensures
        env_fold_from(st, lines_read_back(ls)).settings == env_fold_from(st, ls).settings,
    decreases ls.len(),
{
    reveal_strlit("#");
    if ls.len() == 1 {
        assert(ls.drop_first() =~= Seq::<Seq<char>>::empty());
        assert(env_fold_from(st, ls) == env_fold_from(env_step(st, ls[0]), ls.drop_first()));
        if ls[0].len() == 0 {
            let e = ls[0];
            assert(trim(e) =~= Seq::<char>::empty());
            assert(!starts_with(trim(e), "#"@));
            assert(lines_read_back(ls) =~= Seq::<Seq<char>>::empty());
        }
    } else if ls.len() > 1 {
        let x = ls[0];
        let rest = ls.drop_first();
        lemma_trim_strip_cr(x);
        assert(env_step(st, strip_cr(x)) == env_step(st, x));
        let rb = seq![strip_cr(x)] + lines_read_back(rest);
        assert(rb[0] == strip_cr(x));
        assert(rb.drop_first() =~= lines_read_back(rest));
        lemma_read_back_settings(env_step(st, x), rest);
        assert(lines_read_back(ls) == rb);
        assert(env_fold_from(st, rb) == env_fold_from(env_step(st, strip_cr(x)), lines_read_back(rest)));
        assert(env_fold_from(st, ls) == env_fold_from(env_step(st, x), rest));
    }
}

/// The settings read, with the value of every key that `m` holds replaced
/// by that value, trimmed.
pub open spec fn updated_settings(
    s: Map<Seq<char>, ConfigValueView>,
    m: Map<Seq<char>, ConfigValueView>,
) -> Map<Seq<char>, ConfigValueView> {
    Map::new(
        |k: Seq<char>| s.contains_key(k),
        |k: Seq<char>|
            if m.contains_key(k) {
                ConfigValueView { value: trim(m[k].value), ..s[k] }
            } else {
                s[k]
            },
    )
}

/// Trimming twice trims no more.
proof fn lemma_trim_twice(s: Seq<char>)
    ensures
        trim(trim(s)) == trim(s),
{
    let a = skip_ws(s, 0);
    lemma_skip_ws_bounds(s, 0);
    let b = rskip_ws(s, a, s.len() as int);
    lemma_rskip_ws_bounds(s, a, s.len() as int);
    let t = trim(s);
    if a < b {
        assert(t[0] == s[a] && t[t.len() - 1] == s[b - 1]);
        lemma_trim_is(t, 0, t.len() as int);
    } else {
        lemma_trim_is(t, t.len() as int, t.len() as int);
    }
    assert(t.subrange(0, t.len() as int) =~= t);
}

/// Trimming ignores whitespace at the end.
proof fn lemma_trim_without_ws_tail(v: Seq<char>, x: int)
    requires
        0 <= x <= v.len(),
        forall|m: int| x <= m < v.len() ==> is_ws(#[trigger] v[m]),
    ensures
        trim(v.subrange(0, x)) == trim(v),
{
    let w = v.subrange(0, x);
    let a = skip_ws(v, 0);
    lemma_skip_ws_bounds(v, 0);
    let b = rskip_ws(v, a, v.len() as int);
    lemma_rskip_ws_bounds(v, a, v.len() as int);
    if a < v.len() {
        assert(b > a) by {
            if b <= a {
                lemma_rskip_ws_bounds(v, a, v.len() as int);
                assert(is_ws(v[a]));
            }
        }
        assert(b <= x) by {
            if b > x {
                assert(is_ws(v[b - 1]));
            }
        }
        assert forall|m: int| 0 <= m < a implies is_ws(#[trigger] w[m]) by {
            assert(w[m] == v[m]);
        }
        assert forall|m: int| b <= m < w.len() implies is_ws(#[trigger] w[m]) by {
            assert(w[m] == v[m]);
        }
        assert(w[a] == v[a] && w[b - 1] == v[b - 1]);
        lemma_trim_is(w, a, b);
        assert(w.subrange(a, b) =~= v.subrange(a, b));
    } else {
        assert forall|m: int| 0 <= m < w.len() implies is_ws(#[trigger] w[m]) by {
            assert(w[m] == v[m]);
        }
        lemma_trim_is(w, w.len() as int, w.len() as int);
        assert(b == v.len());
        assert(w.subrange(w.len() as int, w.len() as int) =~= v.subrange(a, b));
    }
}

/// Reading a line `k=v` written back for a trimmed key `k` sets `k` to
/// `v`, trimmed, with the pending comment.
proof fn lemma_written_line_step(st: EnvState, k: Seq<char>, v: Seq<char>)
    requires
        trim(k) == k,
        !k.contains('='),
        k.len() > 0 ==> k[0] != '#',
    ensures
        env_step(st, k + "="@ + v) == (EnvState {
            settings: st.settings.insert(k, ConfigValueView { key: k, value: trim(v), comment: st.comment }),
            comment: None,
        }),
{
    reveal_strlit("=");
    reveal_strlit("#");
    let u = k + "="@ + v;
    let n = k.len();
    assert(u[n as int] == '=');
    assert(!is_ws('='));
    // `k` starts and ends with something other than whitespace, if anything.
    if n > 0 {
        let ka = skip_ws(k, 0);
        lemma_skip_ws_bounds(k, 0);
        let kb = rskip_ws(k, ka, n as int);
        lemma_rskip_ws_bounds(k, ka, n as int);
        assert(k == k.subrange(ka, kb));
        assert(ka == 0 && kb == n) by {
            assert(k.subrange(ka, kb).len() == n);
        }
        assert(!is_ws(k[0]));
    }
    let a = skip_ws(u, 0);
    lemma_skip_ws_exact(u, 0, 0);
    let b = rskip_ws(u, 0, u.len() as int);
    lemma_rskip_ws_bounds(u, 0, u.len() as int);
    assert(b > n) by {
        if b <= n {
            assert(is_ws(u[n as int]));
        }
    }
    let t = trim(u);
    assert(t == u.subrange(0, b));
    assert(t[0] == u[0]);
    if n > 0 {
        assert(u[0] == k[0]);
    }
    assert(!starts_with(t, "#"@)) by {
        if starts_with(t, "#"@) {
            assert("#"@.len() == 1);
            assert(t.subrange(0, 1) == "#"@);
            assert(t.subrange(0, 1)[0] == t[0]);
            assert("#"@[0] == '#');
            assert(t[0] == '#');
        }
    }
    assert(t.len() > 0);
    assert forall|m: int| 0 <= m < n implies #[trigger] t[m] != '=' by {
        assert(t[m] == k[m]);
        if k[m] == '=' {
            assert(k.contains('='));
        }
    }
    lemma_find_skip(t, '=', 0, n as int);
    assert(t[n as int] == '=');
    assert(find_char_from(t, '=', n as int) == n);
    assert(find_char_from(t, '=', 0) == n);
    assert(t.subrange(0, n as int) =~= k);
    let rest = t.subrange((n + 1) as int, t.len() as int);
    assert(rest =~= v.subrange(0, b - n - 1));
    assert forall|m: int| b - n - 1 <= m < v.len() implies is_ws(#[trigger] v[m]) by {
        assert(v[m] == u[n + 1 + m]);
    }
    lemma_trim_without_ws_tail(v, b - n - 1);
}

/// After the same lines, the written-back file and the file as it was
/// have read the same pending comment, and the written-back one has the
/// settings read from the file with the values of `m` in place.
pub open spec fn reads_alike(written: EnvState, read: EnvState, m: Map<Seq<char>, ConfigValueView>) -> bool {
    &&& written.comment == read.comment
    &&& written.settings == updated_settings(read.settings, m)
}

/// The key a `KEY=value` line sets starts with something other than `#`
/// and holds no `=`, and is trimmed.
proof fn lemma_line_key(line: Seq<char>)
    requires
        !starts_with(trim(line), "#"@),
        trim(line).len() > 0,
        find_char_from(trim(line), '=', 0) < trim(line).len(),
    ensures
        ({
            let t = trim(line);
            let k = trim(t.subrange(0, find_char_from(t, '=', 0)));
            &&& trim(k) == k
            &&& !k.contains('=')
            &&& k.len() > 0 ==> k[0] != '#'
        }),
{
    reveal_strlit("#");
    let t = trim(line);
    let j = find_char_from(t, '=', 0);
    lemma_find_char_bounds(t, '=', 0);
    let p = t.subrange(0, j);
    let k = trim(p);
    lemma_trim_twice(p);
    // `t` starts with something other than whitespace.
    let a = skip_ws(line, 0);
    lemma_skip_ws_bounds(line, 0);
    let b = rskip_ws(line, a, line.len() as int);
    lemma_rskip_ws_bounds(line, a, line.len() as int);
    assert(t[0] == line[a]);
    assert(!is_ws(t[0]));
    assert(t[0] != '#') by {
        if t[0] == '#' {
            assert(t.subrange(0, 1) =~= "#"@);
        }
    }
    let pa = skip_ws(p, 0);
    lemma_skip_ws_bounds(p, 0);
    let pb = rskip_ws(p, pa, p.len() as int);
    lemma_rskip_ws_bounds(p, pa, p.len() as int);
    if j > 0 {
        assert(p[0] == t[0]);
        lemma_skip_ws_exact(p, 0, 0);
        assert(pa == 0);
        if k.len() > 0 {
            assert(k[0] == p[0]);
        }
    }
    assert(!k.contains('=')) by {
        if k.contains('=') {
            let m = choose|m: int| 0 <= m < k.len() && k[m] == '=';
            assert(k[m] == p[pa + m]);
            assert(t[pa + m] == '=');
        }
    }
}

/// One line more of the file keeps the two readings alike.
proof fn lemma_render_step(written: EnvState, read: EnvState, m: Map<Seq<char>, ConfigValueView>, line: Seq<char>)
    requires
        reads_alike(written, read, m),
    ensures
        reads_alike(
            match render_line(m, line) {
                Some(l) => env_step(written, l),
                None => written,
            },
            env_step(read, line),
            m,
        ),
{
    let t = trim(line);
    if starts_with(t, "#"@) || t.len() == 0 {
        assert(render_line(m, line) == Some(line));
    } else {
        let j = find_char_from(t, '=', 0);
        lemma_find_char_bounds(t, '=', 0);
        if j < t.len() {
            let k = trim(t.subrange(0, j));
            let v = trim(t.subrange(j + 1, t.len() as int));
            let cv = ConfigValueView { key: k, value: v, comment: read.comment };
            let after = env_step(read, line);
            assert(after.settings == read.settings.insert(k, cv));
            if m.contains_key(k) {
                lemma_line_key(line);
                lemma_written_line_step(written, k, m[k].value);
                let w = env_step(written, k + "="@ + m[k].value);
                assert(w.settings =~= updated_settings(after.settings, m));
            } else {
                assert(render_line(m, line) == Some(line));
                assert(env_step(written, line).settings =~= updated_settings(after.settings, m));
            }
        } else {
            assert(render_line(m, line) is None);
        }
    }
}

proof fn lemma_render_fold(m: Map<Seq<char>, ConfigValueView>, ls: Seq<Seq<char>>)
    ensures
        reads_alike(env_fold(render_lines(m, ls)), env_fold(ls), m),
    decreases ls.len(),
{
    if ls.len() == 0 {
        assert(updated_settings(Map::empty(), m) =~= Map::<Seq<char>, ConfigValueView>::empty());
    } else {
        let d = ls.drop_last();
        let x = ls.last();
        lemma_render_fold(m, d);
        let r = render_lines(m, d);
        lemma_render_step(env_fold(r), env_fold(d), m, x);
        match render_line(m, x) {
            Some(l) => {
                assert(r.push(l).drop_last() =~= r);
                assert(r.push(l).last() == l);
            },
            None => {},
        }
    }
}

/// Every line written back is one line.
proof fn lemma_render_one_line(m: Map<Seq<char>, ConfigValueView>, ls: Seq<Seq<char>>)
    requires
        forall|i: int| 0 <= i < ls.len() ==> one_line(#[trigger] ls[i]),
        forall|k: Seq<char>| #[trigger] m.contains_key(k) ==> one_line(m[k].value),
    ensures
        forall|i: int| 0 <= i < render_lines(m, ls).len() ==> one_line(#[trigger] render_lines(m, ls)[i]),
    decreases ls.len(),
{
    reveal_strlit("=");
    if ls.len() > 0 {
        let d = ls.drop_last();
        assert forall|i: int| 0 <= i < d.len() implies one_line(#[trigger] d[i]) by {
            assert(d[i] == ls[i]);
        }
        lemma_render_one_line(m, d);
        let x = ls.last();
        assert(one_line(x));
        match render_line(m, x) {
            Some(l) => {
                assert(one_line(l)) by {
                    let t = trim(x);
                    if !(starts_with(t, "#"@) || t.len() == 0) {
                        let j = find_char_from(t, '=', 0);
                        lemma_find_char_bounds(t, '=', 0);
                        if j < t.len() {
                            let k = trim(t.subrange(0, j));
                            if m.contains_key(k) {
                                let a = skip_ws(x, 0);
                                lemma_skip_ws_bounds(x, 0);
                                let b = rskip_ws(x, a, x.len() as int);
                                lemma_rskip_ws_bounds(x, a, x.len() as int);
                                let p = t.subrange(0, j);
                                let pa = skip_ws(p, 0);
                                lemma_skip_ws_bounds(p, 0);
                                let pb = rskip_ws(p, pa, p.len() as int);
                                lemma_rskip_ws_bounds(p, pa, p.len() as int);
                                let v = m[k].value;
                                if l.contains('\n') {
                                    let q = choose|q: int| 0 <= q < l.len() && l[q] == '\n';
                                    if q < k.len() {
                                        assert(l[q] == k[q]);
                                        assert(x[a + pa + q] == '\n');
                                        assert(x.contains('\n'));
                                    } else if q == k.len() {
                                        assert(l[q] == '=');
                                    } else {
                                        assert(l[q] == v[q - k.len() - 1]);
                                        assert(v.contains('\n'));
                                    }
                                }
                            }
                        }
                    }
                }
                let r = render_lines(m, d);
                assert forall|i: int| 0 <= i < r.push(l).len() implies one_line(#[trigger] r.push(l)[i]) by {
                    if i < r.len() {
                        assert(r.push(l)[i] == r[i]);
                    }
                }
            },
            None => {},
        }
    }
}

/// What reading back a file gives for `k`, after the settings `m` were
/// written into a file whose settings were `before`: a key the file set
/// reads back as its value in `m` (trimmed) where `m` holds it, else as it
/// was; a key the file did not set is not in the written file either.
pub open spec fn read_back_value(
    before: Map<Seq<char>, ConfigValueView>,
    m: Map<Seq<char>, ConfigValueView>,
    k: Seq<char>,
) -> Option<Seq<char>> {
    if before.contains_key(k) {
        if m.contains_key(k) {
            Some(trim(m[k].value))
        } else {
            Some(before[k].value)
        }
    } else {
        None
    }
}

/// Saving keeps the file's lines in place and writes the current values
/// into them: reading the saved file back gives, for every key the file
/// sets, the value that was saved (trimmed), and for every other key
/// nothing. Values must be single lines.
pub proof fn law_saved_values_read_back(content: Seq<char>, m: Map<Seq<char>, ConfigValueView>, k: Seq<char>)
    requires
        forall|key: Seq<char>| #[trigger] m.contains_key(key) ==> one_line(m[key].value),
    ensures
        value_of(parse_env(join(render_lines(m, lines(content)), "\n"@)), k)
            == read_back_value(parse_env(content), m, k),
{
    let ls = lines(content);
    lemma_lines_one_line(content, 0);
    lemma_render_one_line(m, ls);
    let r = render_lines(m, ls);
    lemma_lines_of_join(r);
    lemma_fold_from_start(lines_read_back(r));
    lemma_fold_from_start(r);
    lemma_read_back_settings(env_start(), r);
    lemma_render_fold(m, ls);
}
} // verus!
