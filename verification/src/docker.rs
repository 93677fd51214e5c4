//! Docker Compose services: what `docker-compose.yml` declares, what a
//! running container reports, and where the two differ.

use vstd::prelude::*;
use crate::strmap::StrMap;
use crate::text::{
    chars_of, contains, contains_exec, decimal, find_char_exec, find_char_from, lemma_find_char_bounds,
    lemma_split_nonempty, lines, opt_view, owned, parse_u16, parse_u16_spec, push_str, slice_chars,
    split, split_lines, split_on, split_words, starts_with, starts_with_exec, str_contains, str_eq,
    string_of, string_views, u64_to_string, views, words,
};

verus! {

/// A YAML value, as the compose file parser reads it. A number that is not
/// a 64-bit integer is kept as its text; a tagged value keeps its tag and
/// the value, and lookups do not look inside it.
#[derive(Debug)]
pub enum YamlValue {
    Null,
    Bool(bool),
    Int(i64),
    OtherNumber(String),
    Str(String),
    Sequence(Vec<YamlValue>),
    Mapping(Vec<(YamlValue, YamlValue)>),
    Tagged(String, Box<YamlValue>),
}

/// The value of `key` in a mapping (the first entry with that string key).
pub open spec fn yaml_get(v: YamlValue, key: Seq<char>) -> Option<YamlValue> {
    match v {
        YamlValue::Mapping(entries) => entry_with_key(entries@, key),
        _ => None,
    }
}

pub open spec fn entry_with_key(entries: Seq<(YamlValue, YamlValue)>, key: Seq<char>) -> Option<YamlValue>
    decreases entries.len(),
{
    if entries.len() == 0 {
        None
    } else {
        match entries[0].0 {
            YamlValue::Str(s) if s@ == key => Some(entries[0].1),
            _ => entry_with_key(entries.drop_first(), key),
        }
    }
}

/// A string value's text.
pub open spec fn yaml_str(v: Option<YamlValue>) -> Option<Seq<char>> {
    match v {
        Some(YamlValue::Str(s)) => Some(s@),
        _ => None,
    }
}

/// The text of an integer as `i64::to_string` writes it.
pub open spec fn int_text(i: i64) -> Seq<char> {
    if i < 0 {
        "-"@ + decimal((-i) as nat)
    } else {
        decimal(i as nat)
    }
}

/// The string items of a sequence value, in order (other items skipped).
pub open spec fn str_items(items: Seq<YamlValue>) -> Seq<Seq<char>>
    decreases items.len(),
{
    if items.len() == 0 {
        Seq::empty()
    } else {
        let rest = str_items(items.drop_last());
        match items.last() {
            YamlValue::Str(s) => rest.push(s@),
            _ => rest,
        }
    }
}

/// The port items of a sequence value: strings, and integers written out.
pub open spec fn port_items(items: Seq<YamlValue>) -> Seq<Seq<char>>
    decreases items.len(),
{
    if items.len() == 0 {
        Seq::empty()
    } else {
        let rest = port_items(items.drop_last());
        match items.last() {
            YamlValue::Str(s) => rest.push(s@),
            YamlValue::Int(i) => rest.push(int_text(i)),
            _ => rest,
        }
    }
}

/// The strings of the sequence under `key`, or none when it is no sequence.
pub open spec fn str_list(v: YamlValue, key: Seq<char>) -> Seq<Seq<char>> {
    match yaml_get(v, key) {
        Some(YamlValue::Sequence(items)) => str_items(items@),
        _ => Seq::empty(),
    }
}

/// Environment entries given as a mapping: string keys with string values.
pub open spec fn env_from_map(entries: Seq<(YamlValue, YamlValue)>) -> Map<Seq<char>, Seq<char>>
    decreases entries.len(),
{
    if entries.len() == 0 {
        Map::empty()
    } else {
        let m = env_from_map(entries.drop_last());
        match (entries.last().0, entries.last().1) {
            (YamlValue::Str(k), YamlValue::Str(v)) => m.insert(k@, v@),
            _ => m,
        }
    }
}

/// Environment entries given as a list of `KEY=value` strings.
pub open spec fn env_from_list(items: Seq<YamlValue>) -> Map<Seq<char>, Seq<char>>
    decreases items.len(),
{
    if items.len() == 0 {
        Map::empty()
    } else {
        let m = env_from_list(items.drop_last());
        match items.last() {
            YamlValue::Str(s) => {
                let j = find_char_from(s@, '=', 0);
                if j < s@.len() {
                    m.insert(s@.subrange(0, j), s@.subrange(j + 1, s@.len() as int))
                } else {
                    m
                }
            },
            _ => m,
        }
    }
}

/// A service's `environment`, in either form.
pub open spec fn env_of(v: YamlValue) -> Map<Seq<char>, Seq<char>> {
    match yaml_get(v, "environment"@) {
        Some(YamlValue::Mapping(entries)) => env_from_map(entries@),
        Some(YamlValue::Sequence(items)) => env_from_list(items@),
        _ => Map::empty(),
    }
}

/// A service of `docker-compose.yml`.
#[derive(Debug)]
pub struct ComposeServiceConfig {
    pub image: Option<String>,
    pub environment: StrMap<String>,
    pub volumes: Vec<String>,
    pub ports: Vec<String>,
    pub networks: Vec<String>,
    pub profiles: Vec<String>,
    pub restart: Option<String>,
    pub command: Option<String>,
    pub entrypoint: Option<String>,
    pub depends_on: Vec<String>,
}

pub struct ComposeView {
    pub image: Option<Seq<char>>,
    pub environment: Map<Seq<char>, Seq<char>>,
    pub volumes: Seq<Seq<char>>,
    pub ports: Seq<Seq<char>>,
    pub networks: Seq<Seq<char>>,
    pub profiles: Seq<Seq<char>>,
    pub restart: Option<Seq<char>>,
    pub command: Option<Seq<char>>,
    pub entrypoint: Option<Seq<char>>,
    pub depends_on: Seq<Seq<char>>,
}

impl View for ComposeServiceConfig {
    type V = ComposeView;

    open spec fn view(&self) -> ComposeView {
        ComposeView {
            image: opt_view(self.image),
            environment: self.environment.map().map_values(|s: String| s@),
            volumes: string_views(self.volumes@),
            ports: string_views(self.ports@),
            networks: string_views(self.networks@),
            profiles: string_views(self.profiles@),
            restart: opt_view(self.restart),
            command: opt_view(self.command),
            entrypoint: opt_view(self.entrypoint),
            depends_on: string_views(self.depends_on@),
        }
    }
}

/// What a service's compose entry declares.
pub open spec fn compose_service_of(v: YamlValue) -> ComposeView {
    ComposeView {
        image: yaml_str(yaml_get(v, "image"@)),
        environment: env_of(v),
        volumes: str_list(v, "volumes"@),
        ports: match yaml_get(v, "ports"@) {
            Some(YamlValue::Sequence(items)) => port_items(items@),
            _ => Seq::empty(),
        },
        networks: str_list(v, "networks"@),
        profiles: str_list(v, "profiles"@),
        restart: yaml_str(yaml_get(v, "restart"@)),
        command: yaml_str(yaml_get(v, "command"@)),
        entrypoint: yaml_str(yaml_get(v, "entrypoint"@)),
        depends_on: str_list(v, "depends_on"@),
    }
}

/// The services of a compose mapping's entries, by name (a name that is
/// not a string counts as `unknown`); a later entry of a name wins.
pub open spec fn services_from(entries: Seq<(YamlValue, YamlValue)>) -> Map<Seq<char>, ComposeView>
    decreases entries.len(),
{
    if entries.len() == 0 {
        Map::empty()
    } else {
        let m = services_from(entries.drop_last());
        let name = match entries.last().0 {
            YamlValue::Str(s) => s@,
            _ => "unknown"@,
        };
        m.insert(name, compose_service_of(entries.last().1))
    }
}

/// The services that a compose document declares under `services`.
pub open spec fn compose_services_of(doc: YamlValue) -> Map<Seq<char>, ComposeView> {
    match yaml_get(doc, "services"@) {
        Some(YamlValue::Mapping(entries)) => services_from(entries@),
        _ => Map::empty(),
    }
}

/// The value of `key` in the mapping `v`.
pub(crate) fn get<'a>(v: &'a YamlValue, key: &str) -> (r: Option<&'a YamlValue>)
    ensures
        match r {
            Some(x) => yaml_get(*v, key@) == Some(*x),
            None => yaml_get(*v, key@) is None,
        },
{
    match v {
        YamlValue::Mapping(entries) => {
            assert(yaml_get(*v, key@) == entry_with_key(entries@, key@));
            let mut i: usize = 0;
            assert(entries@.skip(0) =~= entries@);
            while i < entries.len()
                invariant
                    i <= entries@.len(),
                    yaml_get(*v, key@) == entry_with_key(entries@, key@),
                    entry_with_key(entries@.skip(i as int), key@) == entry_with_key(entries@, key@),
                decreases entries@.len() - i,
            {
                let ghost rest = entries@.skip(i as int);
                assert(rest[0] == entries@[i as int]);
                match &entries[i].0 {
                    YamlValue::Str(s) => {
                        if str_eq(s.as_str(), key) {
                            assert(entry_with_key(rest, key@) == Some(rest[0].1));
                            assert(rest[0].1 == entries@[i as int].1);
                            return Some(&entries[i].1);
                        }
                    },
                    _ => {},
                }
                assert(rest.drop_first() =~= entries@.skip(i + 1));
                i += 1;
            }
            assert(entries@.skip(i as int) =~= Seq::<(YamlValue, YamlValue)>::empty());
            None
        },
        _ => None,
    }
}

/// The volume rows of `docker system df -v` from the lines `ls` on, as
/// name and size text: the rows follow the `VOLUME NAME` header and end at
/// an empty line or at `Build cache`; a row needs at least three words
/// (name, links, size).
pub open spec fn df_volume_rows_from(ls: Seq<Seq<char>>, in_section: bool) -> Seq<(Seq<char>, Seq<char>)>
    decreases ls.len(),
{
    if ls.len() == 0 {
        Seq::empty()
    } else {
        let l = ls[0];
        let rest = ls.drop_first();
        if contains(l, "VOLUME NAME"@) {
            df_volume_rows_from(rest, true)
        } else if in_section {
            if l.len() == 0 || starts_with(l, "Build cache"@) {
                Seq::empty()
            } else {
                let w = words(l);
                let tail = df_volume_rows_from(rest, true);
                if w.len() >= 3 {
                    seq![(w[0], w[2])] + tail
                } else {
                    tail
                }
            }
        } else {
            df_volume_rows_from(rest, false)
        }
    }
}

/// The name and size text of each volume that `docker system df -v`
/// lists, in order.
pub fn df_volume_rows(output: &str) -> (r: Vec<(String, String)>)
    ensures
        r@.map_values(|p: (String, String)| (p.0@, p.1@)) == df_volume_rows_from(lines(output@), false),
{
    let ls = split_lines(&chars_of(output));
    let ghost all = views(ls@);
    let header = chars_of("VOLUME NAME");
    let build = chars_of("Build cache");
    let mut out: Vec<(String, String)> = Vec::new();
    let mut in_section = false;
    let mut i: usize = 0;
    assert(all.skip(0) =~= all);
    while i < ls.len()
        invariant
            i <= ls@.len(),
            all == views(ls@),
            all == lines(output@),
            header@ == "VOLUME NAME"@,
            build@ == "Build cache"@,
            out@.map_values(|p: (String, String)| (p.0@, p.1@)) + df_volume_rows_from(all.skip(i as int), in_section)
                == df_volume_rows_from(all, false),
        decreases ls@.len() - i,
    {
        let line = &ls[i];
        let ghost rest = all.skip(i as int);
        let ghost before = out@.map_values(|p: (String, String)| (p.0@, p.1@));
        proof {
            assert(rest[0] == line@);
            assert(rest.drop_first() =~= all.skip(i + 1));
        }
        if contains_exec(line, &header) {
            in_section = true;
        } else if in_section {
            if line.len() == 0 || starts_with_exec(line, &build) {
                proof {
                    assert(before + Seq::<(Seq<char>, Seq<char>)>::empty() =~= before);
                }
                return out;
            }
            let w = split_words(line);
            if w.len() >= 3 {
                let name = string_of(&w[0]);
                let size = string_of(&w[2]);
                out.push((name, size));
                proof {
                    let now = out@.map_values(|p: (String, String)| (p.0@, p.1@));
                    assert(now =~= before.push((w@[0]@, w@[2]@)));
                    assert(views(w@)[0] == w@[0]@ && views(w@)[2] == w@[2]@);
                    let tail = df_volume_rows_from(all.skip(i + 1), true);
                    assert(now + tail =~= before + (seq![(w@[0]@, w@[2]@)] + tail));
                }
            }
        }
        i += 1;
    }
    proof {
        assert(all.skip(i as int) =~= Seq::<Seq<char>>::empty());
        assert(out@.map_values(|p: (String, String)| (p.0@, p.1@)) + Seq::<(Seq<char>, Seq<char>)>::empty()
            =~= out@.map_values(|p: (String, String)| (p.0@, p.1@)));
    }
    out
}

/// Whether `k` is the string key `key`.
pub open spec fn is_key(k: YamlValue, key: Seq<char>) -> bool {
    k matches YamlValue::Str(s) && s@ == key
}

/// The position of the first entry with key `key`, from position `i` on.
pub open spec fn key_pos_from(entries: Seq<(YamlValue, YamlValue)>, key: Seq<char>, i: nat) -> Option<int>
    decreases entries.len() - i,
{
    if i >= entries.len() {
        None
    } else if is_key(entries[i as int].0, key) {
        Some(i as int)
    } else {
        key_pos_from(entries, key, i + 1)
    }
}

/// The position of the first entry with key `key`.
pub open spec fn key_pos(entries: Seq<(YamlValue, YamlValue)>, key: Seq<char>) -> Option<int> {
    key_pos_from(entries, key, 0)
}

/// What the search from `i` finds: the first key at or after `i`, or none.
pub proof fn lemma_key_pos_from(entries: Seq<(YamlValue, YamlValue)>, key: Seq<char>, i: nat)
    ensures
        match key_pos_from(entries, key, i) {
            Some(p) => i <= p < entries.len() && is_key(entries[p].0, key) && forall|j: int|
                i <= j < p ==> !is_key(#[trigger] entries[j].0, key),
            None => forall|j: int| i <= j < entries.len() ==> !is_key(#[trigger] entries[j].0, key),
        },
    decreases entries.len() - i,
{
    if i < entries.len() && !is_key(entries[i as int].0, key) {
        lemma_key_pos_from(entries, key, i + 1);
    }
}

/// The lookup by key finds the value at the first position of the key.
pub proof fn lemma_entry_at_key_pos(entries: Seq<(YamlValue, YamlValue)>, key: Seq<char>)
    ensures
        entry_with_key(entries, key) == match key_pos(entries, key) {
            Some(p) => Some(entries[p].1),
            None => None::<YamlValue>,
        },
    decreases entries.len(),
{
    lemma_key_pos_from(entries, key, 0);
    if entries.len() > 0 && !is_key(entries[0].0, key) {
        let rest = entries.drop_first();
        lemma_entry_at_key_pos(rest, key);
        lemma_key_pos_from(rest, key, 0);
        match key_pos(entries, key) {
            Some(p) => {
                assert(p > 0);
                assert(forall|j: int| 0 <= j < p - 1 ==> rest[j] == entries[j + 1]);
                assert forall|j: int| 0 <= j < p - 1 implies !is_key(#[trigger] rest[j].0, key) by {
                    assert(!is_key(entries[j + 1].0, key));
                }
                match key_pos(rest, key) {
                    Some(q) => {
                        assert(rest[q] == entries[q + 1]);
                        if q < p - 1 {
                            assert(!is_key(entries[q + 1].0, key));
                        }
                        if q > p - 1 {
                            assert(rest[p - 1] == entries[p]);
                        }
                    },
                    None => {
                        assert(rest[p - 1] == entries[p]);
                    },
                }
            },
            None => {
                match key_pos(rest, key) {
                    Some(q) => {
                        assert(rest[q] == entries[q + 1]);
                    },
                    None => {},
                }
            },
        }
    }
}

/// The first position of the string key `key` among the entries.
pub(crate) fn key_position(entries: &Vec<(YamlValue, YamlValue)>, key: &str) -> (r: Option<usize>)
    ensures
        match r {
            Some(p) => key_pos(entries@, key@) == Some(p as int) && p < entries@.len(),
            None => key_pos(entries@, key@) is None,
        },
{
    proof {
        lemma_key_pos_from(entries@, key@, 0);
    }
    let mut i: usize = 0;
    while i < entries.len()
        invariant
            i <= entries@.len(),
            key_pos(entries@, key@) == key_pos_from(entries@, key@, i as nat),
        decreases entries@.len() - i,
    {
        match &entries[i].0 {
            YamlValue::Str(s) => {
                if str_eq(s.as_str(), key) {
                    return Some(i);
                }
            },
            _ => {},
        }
        i += 1;
    }
    None
}

/// The text of the string value under `key`.
pub(crate) fn get_str(v: &YamlValue, key: &str) -> (r: Option<String>)
    ensures
        opt_view(r) == yaml_str(yaml_get(*v, key@)),
{
    match get(v, key) {
        Some(YamlValue::Str(s)) => Some(s.clone()),
        _ => None,
    }
}

/// `i` written out as `i64::to_string` does.
pub fn int_to_string(i: i64) -> (r: String)
    ensures
        r@ == int_text(i),
{
    if i < 0 {
        let m: u64 = if i == i64::MIN {
            0x8000_0000_0000_0000u64
        } else {
            (-i) as u64
        };
        let d = u64_to_string(m);
        let mut v: Vec<char> = chars_of("-");
        crate::text::push_chars(&mut v, &chars_of(d.as_str()));
        proof {
            reveal_strlit("-");
        }
        string_of(&v)
    } else {
        u64_to_string(i as u64)
    }
}

/// The strings (or, for ports, strings and integers) of the sequence under `key`.
fn list_of(v: &YamlValue, key: &str, with_ints: bool) -> (r: Vec<String>)
    ensures
        string_views(r@) == match yaml_get(*v, key@) {
            Some(YamlValue::Sequence(items)) => if with_ints {
                port_items(items@)
            } else {
                str_items(items@)
            },
            _ => Seq::empty(),
        },
{
    let mut out: Vec<String> = Vec::new();
    match get(v, key) {
        Some(YamlValue::Sequence(items)) => {
            let mut i: usize = 0;
            while i < items.len()
                invariant
                    i <= items@.len(),
                    string_views(out@) == if with_ints {
                        port_items(items@.take(i as int))
                    } else {
                        str_items(items@.take(i as int))
                    },
                decreases items@.len() - i,
            {
                proof {
                    assert(items@.take(i + 1).drop_last() == items@.take(i as int));
                    assert(items@.take(i + 1).last() == items@[i as int]);
                }
                let ghost before = out@;
                match &items[i] {
                    YamlValue::Str(s) => {
                        out.push(s.clone());
                        assert(string_views(out@) =~= string_views(before).push(s@));
                    },
                    YamlValue::Int(n) => {
                        if with_ints {
                            out.push(int_to_string(*n));
                            assert(string_views(out@) =~= string_views(before).push(int_text(*n)));
                        }
                    },
                    _ => {},
                }
                i += 1;
            }
            assert(items@.take(items.len() as int) == items@);
            proof {
                if !with_ints {
                    assert(string_views(Seq::<String>::empty()) =~= Seq::<Seq<char>>::empty());
                }
            }
        },
        _ => {
            assert(string_views(out@) =~= Seq::<Seq<char>>::empty());
        },
    }
    proof {
        assert(string_views(Seq::<String>::empty()) =~= Seq::<Seq<char>>::empty());
    }
    out
}

/// A service's `environment`.
fn env_exec(v: &YamlValue) -> (r: StrMap<String>)
    ensures
        r.wf(),
        r.map().map_values(|s: String| s@) == env_of(*v),
{
    let mut m: StrMap<String> = StrMap::new();
    proof {
        assert(m.map().map_values(|s: String| s@) =~= Map::<Seq<char>, Seq<char>>::empty());
    }
    match get(v, "environment") {
        Some(YamlValue::Mapping(entries)) => {
            let mut i: usize = 0;
            while i < entries.len()
                invariant
                    i <= entries@.len(),
                    m.wf(),
                    m.map().map_values(|s: String| s@) == env_from_map(entries@.take(i as int)),
                decreases entries@.len() - i,
            {
                proof {
                    assert(entries@.take(i + 1).drop_last() == entries@.take(i as int));
                    assert(entries@.take(i + 1).last() == entries@[i as int]);
                }
                match (&entries[i].0, &entries[i].1) {
                    (YamlValue::Str(k), YamlValue::Str(val)) => {
                        let ghost m0 = m.map();
                        m.insert(k.clone(), val.clone());
                        proof {
                            lemma_insert_view(m0, m.map(), k@, *val);
                        }
                    },
                    _ => {},
                }
                i += 1;
            }
            assert(entries@.take(entries.len() as int) == entries@);
        },
        Some(YamlValue::Sequence(items)) => {
            let mut i: usize = 0;
            while i < items.len()
                invariant
                    i <= items@.len(),
                    m.wf(),
                    m.map().map_values(|s: String| s@) == env_from_list(items@.take(i as int)),
                decreases items@.len() - i,
            {
                proof {
                    assert(items@.take(i + 1).drop_last() == items@.take(i as int));
                    assert(items@.take(i + 1).last() == items@[i as int]);
                }
                match &items[i] {
                    YamlValue::Str(s) => {
                        let c = chars_of(s.as_str());
                        proof {
                            lemma_find_char_bounds(c@, '=', 0);
                        }
                        let j = find_char_exec(&c, '=', 0);
                        if j < c.len() {
                            let k = string_of(&slice_chars(&c, 0, j));
                            let val = string_of(&slice_chars(&c, j + 1, c.len()));
                            let ghost m0 = m.map();
                            let ghost kv = k@;
                            let ghost vs = val;
                            m.insert(k, val);
                            proof {
                                lemma_insert_view(m0, m.map(), kv, vs);
                            }
                        }
                    },
                    _ => {},
                }
                i += 1;
            }
            assert(items@.take(items.len() as int) == items@);
        },
        _ => {},
    }
    m
}

/// Inserting into a map of strings inserts into its view.
proof fn lemma_insert_view(m0: Map<Seq<char>, String>, m1: Map<Seq<char>, String>, k: Seq<char>, s: String)
    requires
        m1 == m0.insert(k, s),
    ensures
        m1.map_values(|s: String| s@) == m0.map_values(|s: String| s@).insert(k, s@),
{
    let v = s@;
    let f = |s: String| s@;
    let a = m1.map_values(f);
    let b = m0.map_values(f).insert(k, v);
    assert forall|x: Seq<char>| #[trigger] a.contains_key(x) == b.contains_key(x) by {
        assert(m0.map_values(f).contains_key(x) == m0.contains_key(x));
    }
    assert forall|x: Seq<char>| #[trigger] a.contains_key(x) implies a[x] == b[x] by {
        if x != k {
            assert(m0.map_values(f)[x] == f(m0[x]));
        }
    }
    assert(a =~= b);
}

/// What one compose entry declares.
pub fn compose_service_from(v: &YamlValue) -> (r: ComposeServiceConfig)
    ensures
        r@ == compose_service_of(*v),
{
    ComposeServiceConfig {
        image: get_str(v, "image"),
        environment: env_exec(v),
        volumes: list_of(v, "volumes", false),
        ports: list_of(v, "ports", true),
        networks: list_of(v, "networks", false),
        profiles: list_of(v, "profiles", false),
        restart: get_str(v, "restart"),
        command: get_str(v, "command"),
        entrypoint: get_str(v, "entrypoint"),
        depends_on: list_of(v, "depends_on", false),
    }
}

/// The services that a parsed `docker-compose.yml` declares, by name.
pub fn compose_services(doc: &YamlValue) -> (r: StrMap<ComposeServiceConfig>)
    ensures
        r.wf(),
        r.map().map_values(|c: ComposeServiceConfig| c@) == compose_services_of(*doc),
{
    let mut m: StrMap<ComposeServiceConfig> = StrMap::new();
    proof {
        assert(m.map().map_values(|c: ComposeServiceConfig| c@) =~= Map::<Seq<char>, ComposeView>::empty());
    }
    match get(doc, "services") {
        Some(YamlValue::Mapping(entries)) => {
            let mut i: usize = 0;
            while i < entries.len()
                invariant
                    i <= entries@.len(),
                    m.wf(),
                    m.map().map_values(|c: ComposeServiceConfig| c@) == services_from(entries@.take(i as int)),
                decreases entries@.len() - i,
            {
                proof {
                    assert(entries@.take(i + 1).drop_last() == entries@.take(i as int));
                    assert(entries@.take(i + 1).last() == entries@[i as int]);
                }
                let name = match &entries[i].0 {
                    YamlValue::Str(s) => s.clone(),
                    _ => owned("unknown"),
                };
                let cfg = compose_service_from(&entries[i].1);
                let ghost m0 = m.map();
                let ghost nv = name@;
                let ghost cv = cfg@;
                m.insert(name, cfg);
                proof {
                    let f = |c: ComposeServiceConfig| c@;
                    let a = m.map().map_values(f);
                    let b = m0.map_values(f).insert(nv, cv);
                    assert forall|x: Seq<char>| #[trigger] a.contains_key(x) == b.contains_key(x) by {
                        assert(m0.map_values(f).contains_key(x) == m0.contains_key(x));
                    }
                    assert forall|x: Seq<char>| #[trigger] a.contains_key(x) implies a[x] == b[x] by {
                        if x != nv {
                            assert(m0.map_values(f)[x] == f(m0[x]));
                        }
                    }
                    assert(a =~= b);
                }
                i += 1;
            }
            assert(entries@.take(entries.len() as int) == entries@);
        },
        _ => {},
    }
    m
}

// ---------------------------------------------------------------------------
// Running containers
// ---------------------------------------------------------------------------

/// What `docker inspect` reports of a running container.
#[derive(Debug)]
pub struct RunningServiceConfig {
    pub image: String,
    pub env_vars: Vec<(String, String)>,
    pub volumes: Vec<String>,
    pub ports: Vec<String>,
    pub networks: Vec<String>,
    pub restart_policy: String,
    pub command: Option<Vec<String>>,
    pub entrypoint: Option<Vec<String>>,
    pub status: String,
    pub uptime: String,
}

/// A service's compose entry beside its running container.
#[derive(Debug)]
pub struct ServiceConfigComparison {
    pub service_name: String,
    pub yaml_config: ComposeServiceConfig,
    pub running_config: Option<RunningServiceConfig>,
    /// Differences, in words.
    pub config_drift: Vec<String>,
}

/// A volume or bind mount of a container.
#[derive(Debug)]
pub struct VolumeMount {
    pub source: String,
    pub destination: String,
    pub mode: String,
    pub rw: bool,
}

/// Any mount of a container.
#[derive(Debug)]
pub struct MountInfo {
    pub mount_type: String,
    pub source: String,
    pub destination: String,
    pub mode: String,
}

/// A network a container is attached to.
#[derive(Debug)]
pub struct NetworkInfo {
    pub name: String,
    pub ip_address: String,
    pub gateway: String,
    pub mac_address: String,
}

/// A published container port.
#[derive(Debug)]
pub struct PortMapping {
    pub container_port: u16,
    pub host_port: Option<u16>,
    pub protocol: String,
}

/// Bytes read and written by a container.
#[derive(Debug, Clone, Copy)]
pub struct BlockIoStats {
    pub read_bytes: u64,
    pub write_bytes: u64,
}

/// Network traffic of a container.
#[derive(Debug, Clone, Copy)]
pub struct NetworkStats {
    pub rx_bytes: u64,
    pub tx_bytes: u64,
    pub rx_packets: u64,
    pub tx_packets: u64,
}

/// A variable name that may hold a secret.
pub open spec fn is_sensitive(key: Seq<char>) -> bool {
    contains(key, "PASSWORD"@) || contains(key, "SECRET"@) || contains(key, "KEY"@) || contains(
        key,
        "TOKEN"@,
    ) || contains(key, "API_KEY"@)
}

/// The `KEY=value` entries of an environment list, split at the first `=`,
/// with the value of a sensitive key hidden; entries without `=` dropped.
pub open spec fn shown_env(env: Seq<Seq<char>>) -> Seq<(Seq<char>, Seq<char>)>
    decreases env.len(),
{
    if env.len() == 0 {
        Seq::empty()
    } else {
        let rest = shown_env(env.drop_last());
        let e = env.last();
        let j = find_char_from(e, '=', 0);
        if j < e.len() {
            let key = e.subrange(0, j);
            rest.push(
                (
                    key,
                    if is_sensitive(key) {
                        "***HIDDEN***"@
                    } else {
                        e.subrange(j + 1, e.len() as int)
                    },
                ),
            )
        } else {
            rest
        }
    }
}

pub open spec fn pair_views(v: Seq<(String, String)>) -> Seq<(Seq<char>, Seq<char>)> {
    v.map_values(|p: (String, String)| (p.0@, p.1@))
}

/// The environment of a container with secrets hidden.
pub fn filter_sensitive_env(env: &[String]) -> (r: Vec<(String, String)>)
    ensures
        pair_views(r@) == shown_env(string_views(env@)),
{
    let mut out: Vec<(String, String)> = Vec::new();
    let mut i: usize = 0;
    while i < env.len()
        invariant
            i <= env@.len(),
            pair_views(out@) == shown_env(string_views(env@).take(i as int)),
        decreases env@.len() - i,
    {
        proof {
            assert(string_views(env@).take(i + 1).drop_last() == string_views(env@).take(i as int));
            assert(string_views(env@).take(i + 1).last() == env@[i as int]@);
        }
        let c = chars_of(env[i].as_str());
        proof {
            lemma_find_char_bounds(c@, '=', 0);
        }
        let j = find_char_exec(&c, '=', 0);
        if j < c.len() {
            let key = string_of(&slice_chars(&c, 0, j));
            let k = key.as_str();
            let hidden = str_contains(k, "PASSWORD") || str_contains(k, "SECRET") || str_contains(
                k,
                "KEY",
            ) || str_contains(k, "TOKEN") || str_contains(k, "API_KEY");
            let value = if hidden {
                owned("***HIDDEN***")
            } else {
                string_of(&slice_chars(&c, j + 1, c.len()))
            };
            let ghost before = out@;
            let ghost pv = (key@, value@);
            out.push((key, value));
            assert(pair_views(out@) =~= pair_views(before).push(pv));
        }
        i += 1;
    }
    assert(string_views(env@).take(env.len() as int) == string_views(env@));
    out
}

/// The differences between a compose entry and its container: a different
/// image, or that the container is not running.
pub open spec fn drift_of(yaml_image: Option<Seq<char>>, running_image: Option<Seq<char>>) -> Seq<Seq<char>> {
    match running_image {
        Some(ri) => match yaml_image {
            Some(yi) => if yi != ri {
                seq!["Image: YAML='"@ + yi + "' ≠ Running='"@ + ri + "'"@]
            } else {
                Seq::empty()
            },
            None => Seq::empty(),
        },
        None => seq!["Container is not running"@],
    }
}

/// The differences between a compose entry and its container (see `drift_of`).
pub fn detect_config_drift(yaml: &ComposeServiceConfig, running: &Option<RunningServiceConfig>) -> (r:
    Vec<String>)
    ensures
        string_views(r@) == drift_of(
            opt_view(yaml.image),
            match running {
                Some(rc) => Some(rc.image@),
                None => None,
            },
        ),
{
    let mut drift: Vec<String> = Vec::new();
    match running {
        Some(rc) => match &yaml.image {
            Some(yi) => {
                if !str_eq(yi.as_str(), rc.image.as_str()) {
                    let mut v: Vec<char> = chars_of("Image: YAML='");
                    push_str(&mut v, yi.as_str());
                    push_str(&mut v, "' ≠ Running='");
                    push_str(&mut v, rc.image.as_str());
                    push_str(&mut v, "'");
                    let s = string_of(&v);
                    drift.push(s);
                    assert(string_views(drift@) =~= seq![
                        "Image: YAML='"@ + yi@ + "' ≠ Running='"@ + rc.image@ + "'"@,
                    ]);
                } else {
                    assert(string_views(drift@) =~= Seq::<Seq<char>>::empty());
                }
            },
            None => {
                assert(string_views(drift@) =~= Seq::<Seq<char>>::empty());
            },
        },
        None => {
            drift.push(owned("Container is not running"));
            assert(string_views(drift@) =~= seq!["Container is not running"@]);
        },
    }
    drift
}

/// Why a comparison could not be made.
#[derive(Debug, Clone, PartialEq, Eq)]
pub enum DockerError {
    /// The service is not in `docker-compose.yml`.
    ServiceNotInCompose(String),
}

/// A service's compose entry beside its running container, if any; the
/// service must be declared.
pub fn config_comparison(
    service_name: &str,
    configs: &StrMap<ComposeServiceConfig>,
    running: Option<RunningServiceConfig>,
) -> (r: Result<ServiceConfigComparison, DockerError>)
    requires
        configs.wf(),
    ensures
        r is Ok <==> configs.map().contains_key(service_name@),
        r matches Err(DockerError::ServiceNotInCompose(s)) ==> s@ == service_name@,
        r matches Ok(c) ==> c.service_name@ == service_name@ && c.yaml_config@
            == configs.map()[service_name@]@ && c.running_config == running && string_views(
            c.config_drift@,
        ) == drift_of(
            opt_view(configs.map()[service_name@].image),
            match running {
                Some(rc) => Some(rc.image@),
                None => None,
            },
        ),
{
    match configs.get(service_name) {
        None => Err(DockerError::ServiceNotInCompose(owned(service_name))),
        Some(c) => {
            let yaml_config = ComposeServiceConfig {
                image: match &c.image {
                    Some(i) => Some(i.clone()),
                    None => None,
                },
                environment: copy_env(&c.environment),
                volumes: crate::service_categories::copy_strings(&c.volumes),
                ports: crate::service_categories::copy_strings(&c.ports),
                networks: crate::service_categories::copy_strings(&c.networks),
                profiles: crate::service_categories::copy_strings(&c.profiles),
                restart: match &c.restart {
                    Some(i) => Some(i.clone()),
                    None => None,
                },
                command: match &c.command {
                    Some(i) => Some(i.clone()),
                    None => None,
                },
                entrypoint: match &c.entrypoint {
                    Some(i) => Some(i.clone()),
                    None => None,
                },
                depends_on: crate::service_categories::copy_strings(&c.depends_on),
            };
            let config_drift = detect_config_drift(&yaml_config, &running);
            Ok(
                ServiceConfigComparison {
                    service_name: owned(service_name),
                    yaml_config,
                    running_config: running,
                    config_drift,
                },
            )
        },
    }
}

/// A copy of a map of strings.
fn copy_env(m: &StrMap<String>) -> (r: StrMap<String>)
    ensures
        r.wf(),
        r.map() == m.map(),
{
    let mut out: StrMap<String> = StrMap::new();
    let n = m.entry_count();
    let mut i: usize = 0;
    proof {
        m.lemma_map_is_entries();
    }
    while i < n
        invariant
            n == m.entries_spec().len(),
            i <= n,
            out.wf(),
            out.map() == crate::strmap::map_of(m.entries_spec().take(i as int)),
        decreases n - i,
    {
        proof {
            assert(m.entries_spec().take(i + 1).drop_last() == m.entries_spec().take(i as int));
            assert(m.entries_spec().take(i + 1).last() == m.entries_spec()[i as int]);
        }
        let (k, v) = m.entry(i);
        out.insert(k.clone(), v.clone());
        i += 1;
    }
    proof {
        assert(m.entries_spec().take(n as int) == m.entries_spec());
        m.lemma_map_is_entries();
    }
    out
}

/// The published port of a `PORT/PROTO` key with the host port of its
/// first binding, when the key has exactly that form and the port reads as one.
pub open spec fn port_mapping_of(port_proto: Seq<char>, host_port: Option<Seq<char>>) -> Option<(u16, Option<u16>, Seq<char>)> {
    let parts = split(port_proto, '/');
    if parts.len() == 2 {
        match parse_u16_spec(parts[0]) {
            Some(p) => Some(
                (
                    p,
                    match host_port {
                        Some(h) => parse_u16_spec(h),
                        None => None,
                    },
                    parts[1],
                ),
            ),
            None => None,
        }
    } else {
        None
    }
}

/// The published port of a `PORT/PROTO` key (see `port_mapping_of`).
pub fn port_mapping(port_proto: &str, host_port: Option<&str>) -> (r: Option<PortMapping>)
    ensures
        match r {
            Some(m) => port_mapping_of(
                port_proto@,
                match host_port {
                    Some(h) => Some(h@),
                    None => None,
                },
            ) == Some((m.container_port, m.host_port, m.protocol@)),
            None => port_mapping_of(
                port_proto@,
                match host_port {
                    Some(h) => Some(h@),
                    None => None,
                },
            ) is None,
        },
{
    let parts = split_on(&chars_of(port_proto), '/');
    if parts.len() != 2 {
        return None;
    }
    match parse_u16(&parts[0]) {
        Some(p) => {
            let hp = match host_port {
                Some(h) => parse_u16(&chars_of(h)),
                None => None,
            };
            Some(PortMapping { container_port: p, host_port: hp, protocol: string_of(&parts[1]) })
        },
        None => None,
    }
}

/// The health that a container's status line states: `unhealthy`,
/// `starting` or `healthy`, checked in that order.
pub open spec fn health_of(status: Seq<char>) -> Option<Seq<char>> {
    if contains(status, "unhealthy"@) {
        Some("unhealthy"@)
    } else if contains(status, "starting"@) {
        Some("starting"@)
    } else if contains(status, "healthy"@) {
        Some("healthy"@)
    } else {
        None
    }
}

/// The health that a container's status line states.
pub fn health_from_status(status: &str) -> (r: Option<String>)
    ensures
        opt_view(r) == health_of(status@),
{
    if str_contains(status, "unhealthy") {
        Some(owned("unhealthy"))
    } else if str_contains(status, "starting") {
        Some(owned("starting"))
    } else if str_contains(status, "healthy") {
        Some(owned("healthy"))
    } else {
        None
    }
}


// ---------------------------------------------------------------------------
// The container list
// ---------------------------------------------------------------------------

/// A container as the dashboard lists it.
#[derive(Debug)]
pub struct ContainerInfo {
    pub id: String,
    pub name: String,
    pub image: String,
    /// Docker's status line, such as `Up 2 hours (healthy)`.
    pub status: String,
    /// Docker's state, such as `running` or `exited`.
    pub state: String,
    pub health: Option<String>,
    pub created: i64,
    /// Published ports as `ip:public->private`.
    pub ports: Vec<String>,
    pub metrics: crate::log_parser::ServiceMetrics,
    /// The Docker Compose project the container belongs to.
    pub project_name: Option<String>,
}

/// A port as Docker lists it for a container.
#[derive(Debug, Clone)]
pub struct PortSummary {
    pub ip: Option<String>,
    pub public_port: Option<u16>,
    pub private_port: u16,
}

impl ContainerInfo {
    /// Docker reports the container as running.
    pub open spec fn running(&self) -> bool {
        self.state@ == "running"@
    }

    /// Whether the container is running.
    pub fn is_running(&self) -> (r: bool)
        ensures
            r == self.running(),
    {
        str_eq(self.state.as_str(), "running")
    }
}

/// How a published port is listed.
pub open spec fn port_text(p: PortSummary) -> Option<Seq<char>> {
    match p.public_port {
        Some(public) => Some(
            (match p.ip {
                Some(ip) => ip@,
                None => "0.0.0.0"@,
            }) + ":"@ + decimal(public as nat) + "->"@ + decimal(p.private_port as nat),
        ),
        None => None,
    }
}

/// The listed texts of the published ports, in order.
pub open spec fn published_ports(ps: Seq<PortSummary>) -> Seq<Seq<char>>
    decreases ps.len(),
{
    if ps.len() == 0 {
        Seq::empty()
    } else {
        let rest = published_ports(ps.drop_last());
        match port_text(ps.last()) {
            Some(t) => rest.push(t),
            None => rest,
        }
    }
}

fn published_ports_exec(ports: &Vec<PortSummary>) -> (r: Vec<String>)
    ensures
        string_views(r@) == published_ports(ports@),
{
    let mut out: Vec<String> = Vec::new();
    let mut i: usize = 0;
    while i < ports.len()
        invariant
            i <= ports@.len(),
            string_views(out@) == published_ports(ports@.take(i as int)),
        decreases ports@.len() - i,
    {
        let p = &ports[i];
        proof {
            assert(ports@.take(i + 1).drop_last() =~= ports@.take(i as int));
            assert(ports@.take(i + 1).last() == *p);
        }
        match p.public_port {
            Some(public) => {
                let mut t: Vec<char> = Vec::new();
                match &p.ip {
                    Some(ip) => push_str(&mut t, ip.as_str()),
                    None => push_str(&mut t, "0.0.0.0"),
                }
                push_str(&mut t, ":");
                crate::text::push_decimal(&mut t, public as u64);
                push_str(&mut t, "->");
                crate::text::push_decimal(&mut t, p.private_port as u64);
                let text = string_of(&t);
                let ghost before = string_views(out@);
                out.push(text);
                proof {
                    assert(string_views(out@) =~= before.push(text@));
                }
            },
            None => {},
        }
        i += 1;
    }
    proof {
        assert(ports@.take(ports@.len() as int) =~= ports@);
    }
    out
}

/// The text of an optional value, or `unknown`.
pub open spec fn or_unknown(v: Option<Seq<char>>) -> Seq<char> {
    match v {
        Some(x) => x,
        None => "unknown"@,
    }
}

/// Lists a container from what Docker reports of it: the first name
/// without leading slashes, `unknown` for what is missing, the health read
/// off the status line, the published ports, and the Compose project.
pub fn container_info_from(
    id: Option<String>,
    names: Option<Vec<String>>,
    image: Option<String>,
    status: Option<String>,
    state: Option<String>,
    created: Option<i64>,
    ports: Option<Vec<PortSummary>>,
    compose_project: Option<String>,
) -> (r: ContainerInfo)
    ensures
        r.id@ == (match id {
            Some(x) => x@,
            None => Seq::<char>::empty(),
        }),
        r.name@ == crate::storage::container_name_of(match names {
            Some(v) => Some(string_views(v@)),
            None => None,
        }),
        r.image@ == or_unknown(opt_view(image)),
        r.status@ == or_unknown(opt_view(status)),
        r.state@ == or_unknown(opt_view(state)),
        opt_view(r.health) == (match status {
            Some(s) => health_of(s@),
            None => None,
        }),
        r.created == (match created {
            Some(c) => c,
            None => 0,
        }),
        string_views(r.ports@) == (match ports {
            Some(ps) => published_ports(ps@),
            None => Seq::<Seq<char>>::empty(),
        }),
        r.metrics@ == crate::log_parser::unknown_service(),
        opt_view(r.project_name) == opt_view(compose_project),
{
    let name = crate::storage::container_display_name(&names);
    let health = match &status {
        Some(s) => health_from_status(s.as_str()),
        None => None,
    };
    let port_texts = match &ports {
        Some(ps) => published_ports_exec(ps),
        None => Vec::new(),
    };
    proof {
        assert(ports is None ==> string_views(port_texts@) =~= Seq::<Seq<char>>::empty());
    }
    ContainerInfo {
        id: match id {
            Some(x) => x,
            None => String::new(),
        },
        name,
        image: match image {
            Some(x) => x,
            None => owned("unknown"),
        },
        status: match status {
            Some(x) => x,
            None => owned("unknown"),
        },
        state: match state {
            Some(x) => x,
            None => owned("unknown"),
        },
        health,
        created: match created {
            Some(c) => c,
            None => 0,
        },
        ports: port_texts,
        metrics: crate::log_parser::ServiceMetrics {
            status_text: None,
            primary_metric: None,
            secondary_metric: None,
            is_healthy: false,
        },
        project_name: compose_project,
    }
}

/// The services that make up the backend profile.
pub open spec fn is_backend_service(name: Seq<char>) -> bool {
    name == "execution-layer"@ || name == "block-builder"@ || name == "viaduct"@
}

/// How many RPC provider containers are running.
pub open spec fn running_rpc_count(cs: Seq<ContainerInfo>) -> nat
    decreases cs.len(),
{
    if cs.len() == 0 {
        0
    } else {
        running_rpc_count(cs.drop_last()) + (if cs.last().running() && crate::text::starts_with(cs.last().name@, "rpc-provider-"@) { 1nat } else { 0nat })
    }
}

/// The profiles that the running containers show: `kaspad` when kaspad
/// runs, `backend` when one of its services runs, and `frontend-wN` for
/// `N` running RPC providers (at most 5).
pub open spec fn active_profiles_of(cs: Seq<ContainerInfo>) -> Seq<Seq<char>> {
    let kaspad = exists|i: int| 0 <= i < cs.len() && #[trigger] cs[i].running() && cs[i].name@ == "kaspad"@;
    let backend = exists|i: int| 0 <= i < cs.len() && #[trigger] cs[i].running() && is_backend_service(cs[i].name@);
    let n = running_rpc_count(cs);
    (if kaspad { seq!["kaspad"@] } else { Seq::empty() })
        + (if backend { seq!["backend"@] } else { Seq::empty() })
        + (if n == 0 { Seq::empty() } else if n <= 5 { seq!["frontend-w"@ + decimal(n)] } else { seq!["frontend-w5"@] })
}

/// The backend profile is active exactly when a running container is named
/// execution-layer, block-builder or viaduct.
pub proof fn law_backend_profile_active(cs: Seq<ContainerInfo>)
    ensures
        active_profiles_of(cs).contains("backend"@) <==> exists|i: int|
            0 <= i < cs.len() && (#[trigger] cs[i]).state@ == "running"@ && (cs[i].name@
                == "execution-layer"@ || cs[i].name@ == "block-builder"@ || cs[i].name@
                == "viaduct"@),
{
    reveal_strlit("backend");
    reveal_strlit("kaspad");
    reveal_strlit("frontend-w");
    reveal_strlit("frontend-w5");
    let p = active_profiles_of(cs);
    let kaspad = exists|i: int| 0 <= i < cs.len() && #[trigger] cs[i].running() && cs[i].name@ == "kaspad"@;
    let backend = exists|i: int| 0 <= i < cs.len() && #[trigger] cs[i].running() && is_backend_service(cs[i].name@);
    let n = running_rpc_count(cs);
    let a: Seq<Seq<char>> = if kaspad { seq!["kaspad"@] } else { Seq::empty() };
    let b: Seq<Seq<char>> = if backend { seq!["backend"@] } else { Seq::empty() };
    let c: Seq<Seq<char>> = if n == 0 { Seq::empty() } else if n <= 5 { seq!["frontend-w"@ + decimal(n)] } else { seq!["frontend-w5"@] };
    assert(p == a + b + c);
    assert("backend"@[0] == 'b');
    assert("kaspad"@[0] == 'k');
    assert(forall|k: int| 0 <= k < c.len() ==> (#[trigger] c[k])[0] == 'f');
    if p.contains("backend"@) {
        let k = choose|k: int| 0 <= k < p.len() && p[k] == "backend"@;
        if k < a.len() {
            assert(p[k] == a[k]);
        } else if k < a.len() + b.len() {
            assert(p[k] == b[k - a.len()]);
        } else {
            assert(p[k] == c[k - a.len() - b.len()]);
        }
    }
    if backend {
        assert(p[a.len() as int] == "backend"@);
        let i = choose|i: int| 0 <= i < cs.len() && #[trigger] cs[i].running() && is_backend_service(cs[i].name@);
        assert(cs[i].state@ == "running"@);
    }
    if exists|i: int|
        0 <= i < cs.len() && (#[trigger] cs[i]).state@ == "running"@ && (cs[i].name@
            == "execution-layer"@ || cs[i].name@ == "block-builder"@ || cs[i].name@ == "viaduct"@) {
        let i = choose|i: int|
            0 <= i < cs.len() && (#[trigger] cs[i]).state@ == "running"@ && (cs[i].name@
                == "execution-layer"@ || cs[i].name@ == "block-builder"@ || cs[i].name@ == "viaduct"@);
        assert(cs[i].running());
        assert(backend);
        assert(p[a.len() as int] == "backend"@);
    }
}

/// The kaspad profile is active exactly when a running container is named kaspad.
pub proof fn law_kaspad_profile_active(cs: Seq<ContainerInfo>)
    ensures
        active_profiles_of(cs).contains("kaspad"@) <==> exists|i: int|
            0 <= i < cs.len() && (#[trigger] cs[i]).state@ == "running"@ && cs[i].name@ == "kaspad"@,
{
    reveal_strlit("backend");
    reveal_strlit("kaspad");
    reveal_strlit("frontend-w");
    reveal_strlit("frontend-w5");
    let p = active_profiles_of(cs);
    let kaspad = exists|i: int| 0 <= i < cs.len() && #[trigger] cs[i].running() && cs[i].name@ == "kaspad"@;
    let backend = exists|i: int| 0 <= i < cs.len() && #[trigger] cs[i].running() && is_backend_service(cs[i].name@);
    let n = running_rpc_count(cs);
    let a: Seq<Seq<char>> = if kaspad { seq!["kaspad"@] } else { Seq::empty() };
    let b: Seq<Seq<char>> = if backend { seq!["backend"@] } else { Seq::empty() };
    let c: Seq<Seq<char>> = if n == 0 { Seq::empty() } else if n <= 5 { seq!["frontend-w"@ + decimal(n)] } else { seq!["frontend-w5"@] };
    assert(p == a + b + c);
    assert("backend"@[0] == 'b');
    assert("kaspad"@[0] == 'k');
    assert(forall|k: int| 0 <= k < c.len() ==> (#[trigger] c[k])[0] == 'f');
    if p.contains("kaspad"@) {
        let k = choose|k: int| 0 <= k < p.len() && p[k] == "kaspad"@;
        if k < a.len() {
            assert(p[k] == a[k]);
        } else if k < a.len() + b.len() {
            assert(p[k] == b[k - a.len()]);
        } else {
            assert(p[k] == c[k - a.len() - b.len()]);
        }
    }
    if kaspad {
        assert(p[0] == "kaspad"@);
        let i = choose|i: int| 0 <= i < cs.len() && #[trigger] cs[i].running() && cs[i].name@ == "kaspad"@;
        assert(cs[i].state@ == "running"@);
    }
    if exists|i: int| 0 <= i < cs.len() && (#[trigger] cs[i]).state@ == "running"@ && cs[i].name@ == "kaspad"@ {
        let i = choose|i: int| 0 <= i < cs.len() && (#[trigger] cs[i]).state@ == "running"@ && cs[i].name@ == "kaspad"@;
        assert(cs[i].running());
        assert(kaspad);
        assert(p[0] == "kaspad"@);
    }
}

/// The node's Docker setup: the project directory that holds the compose
/// file, and the network (`testnet` or `mainnet`) whose Compose project,
/// `igra-orchestra-<network>`, it manages.
#[derive(Debug)]
pub struct DockerManager {
    project_root: String,
    network: String,
}

/// The Compose project of a network.
pub open spec fn compose_project_of(network: Seq<char>) -> Seq<char> {
    "igra-orchestra-"@ + network
}

impl DockerManager {
    pub closed spec fn root_spec(&self) -> Seq<char> {
        self.project_root@
    }

    pub closed spec fn network_spec(&self) -> Seq<char> {
        self.network@
    }

    pub fn new(project_root: String, network: String) -> (r: DockerManager)
        ensures
            r.root_spec() == project_root@,
            r.network_spec() == network@,
    {
        DockerManager { project_root, network }
    }

    /// The project directory.
    pub fn project_root(&self) -> (r: &str)
        ensures
            r@ == self.root_spec(),
    {
        self.project_root.as_str()
    }

    /// The network, `testnet` or `mainnet`.
    pub fn network(&self) -> (r: &str)
        ensures
            r@ == self.network_spec(),
    {
        self.network.as_str()
    }

    /// The Compose project whose containers are managed.
    pub fn compose_project(&self) -> (r: String)
        ensures
            r@ == compose_project_of(self.network_spec()),
    {
        crate::text::concat2("igra-orchestra-", self.network.as_str())
    }

    /// The profiles that the running containers of a list show.
    pub fn get_active_profiles_from_list(containers: &[ContainerInfo]) -> (r: Vec<String>)
        ensures
            string_views(r@) == active_profiles_of(containers@),
    {
        let mut kaspad = false;
        let mut backend = false;
        let mut rpc_count: usize = 0;
        let mut i: usize = 0;
        while i < containers.len()
            invariant
                i <= containers@.len(),
                kaspad == exists|k: int| 0 <= k < i && #[trigger] containers@[k].running() && containers@[k].name@ == "kaspad"@,
                backend == exists|k: int| 0 <= k < i && #[trigger] containers@[k].running() && is_backend_service(containers@[k].name@),
                rpc_count == running_rpc_count(containers@.take(i as int)),
                rpc_count <= i,
            decreases containers@.len() - i,
        {
            let c = &containers[i];
            proof {
                assert(containers@.take(i + 1).drop_last() =~= containers@.take(i as int));
                assert(containers@.take(i + 1).last() == *c);
            }
            let running = c.is_running();
            let name = c.name.as_str();
            if running && str_eq(name, "kaspad") {
                kaspad = true;
            }
            if running && (str_eq(name, "execution-layer") || str_eq(name, "block-builder") || str_eq(name, "viaduct")) {
                backend = true;
            }
            if running && crate::text::str_starts_with(name, "rpc-provider-") {
                rpc_count += 1;
            }
            i += 1;
        }
        proof {
            assert(containers@.take(containers@.len() as int) =~= containers@);
        }
        let mut out: Vec<String> = Vec::new();
        if kaspad {
            out.push(owned("kaspad"));
        }
        if backend {
            out.push(owned("backend"));
        }
        let ghost head = string_views(out@);
        if rpc_count > 0 {
            let n: u64 = if rpc_count <= 5 { rpc_count as u64 } else { 5 };
            let mut t: Vec<char> = Vec::new();
            push_str(&mut t, "frontend-w");
            crate::text::push_decimal(&mut t, n);
            let text = string_of(&t);
            out.push(text);
            proof {
                reveal_strlit("frontend-w5");
                reveal_strlit("frontend-w");
                if rpc_count > 5 {
                    assert(decimal(5) =~= seq!['5']);
                    assert(text@ =~= "frontend-w5"@);
                }
            }
        }
        proof {
            let cs = containers@;
            let a = if kaspad { seq!["kaspad"@] } else { Seq::<Seq<char>>::empty() };
            let b = if backend { seq!["backend"@] } else { Seq::<Seq<char>>::empty() };
            assert(head =~= a + b);
            assert(string_views(out@) =~= active_profiles_of(cs));
        }
        out
    }
}

/// Docker lists a container under `name` or `/name`.
pub open spec fn lists_name(names: Seq<Seq<char>>, name: Seq<char>) -> bool {
    exists|i: int| 0 <= i < names.len() && (#[trigger] names[i] == name || names[i] == "/"@ + name)
}

/// Whether a container listed with `names` is the one called `name`.
pub fn names_match(names: &Vec<String>, name: &str) -> (r: bool)
    ensures
        r == lists_name(string_views(names@), name@),
{
    let slashed = crate::text::concat2("/", name);
    let ghost ns = string_views(names@);
    let mut i: usize = 0;
    while i < names.len()
        invariant
            i <= names@.len(),
            ns == string_views(names@),
            slashed@ == "/"@ + name@,
            forall|k: int| 0 <= k < i ==> !(#[trigger] ns[k] == name@ || ns[k] == "/"@ + name@),
        decreases names@.len() - i,
    {
        let n = names[i].as_str();
        if str_eq(n, name) || str_eq(n, slashed.as_str()) {
            proof {
                assert(ns[i as int] == names@[i as int]@);
            }
            return true;
        }
        proof {
            assert(ns[i as int] == names@[i as int]@);
        }
        i += 1;
    }
    false
}
} // verus!
