//! What the dashboard header shows of the host: its operating system, read
//! from `/etc/os-release`, and its processor, read from `lscpu`.

use vstd::prelude::*;
use crate::text::{
    chars_of, lines, owned, parse_u64, parse_u64_spec, split, split_lines, split_on, split_words,
    starts_with, starts_with_exec, string_of, trim, trim_chars, trim_end_matches,
    trim_end_matches_exec, trim_start_matches, trim_start_matches_exec, views, words,
};

verus! {

/// `s` without the double quotes at either end (what `trim_matches('"')`
/// returns).
pub open spec fn unquoted(s: Seq<char>) -> Seq<char> {
    trim_end_matches(trim_start_matches(s, "\""@), "\""@)
}

/// The operating system's name and version, after some lines of
/// `os-release`: a `NAME=` line sets the name, a `VERSION=` line the
/// version, each unquoted; later lines win.
pub open spec fn os_info_from(ls: Seq<Seq<char>>) -> (Seq<char>, Seq<char>)
    decreases ls.len(),
{
    if ls.len() == 0 {
        ("Linux"@, Seq::empty())
    } else {
        let (name, version) = os_info_from(ls.drop_last());
        let l = ls.last();
        if starts_with(l, "NAME="@) {
            (unquoted(l.subrange(5, l.len() as int)), version)
        } else if starts_with(l, "VERSION="@) {
            (name, unquoted(l.subrange(8, l.len() as int)))
        } else {
            (name, version)
        }
    }
}

fn unquote(s: &[char]) -> (r: Vec<char>)
    ensures
        r@ == unquoted(s@),
{
    let q = chars_of("\"");
    let a = trim_start_matches_exec(s, &q);
    trim_end_matches_exec(&a, &q)
}

/// The operating system's name and version in the text of `os-release`.
pub fn os_info(os_release: &str) -> (r: (String, String))
    ensures
        (r.0@, r.1@) == os_info_from(lines(os_release@)),
{
    proof {
        reveal_strlit("NAME=");
        reveal_strlit("VERSION=");
    }
    let ls = split_lines(&chars_of(os_release));
    let mut name: Vec<char> = chars_of("Linux");
    let mut version: Vec<char> = Vec::new();
    let ghost all = views(ls@);
    let mut i: usize = 0;
    while i < ls.len()
        invariant
            i <= ls@.len(),
            all == views(ls@),
            all == lines(os_release@),
            (name@, version@) == os_info_from(all.take(i as int)),
        decreases ls@.len() - i,
    {
        let l = &ls[i];
        proof {
            reveal_strlit("NAME=");
            reveal_strlit("VERSION=");
            assert(all.take(i + 1).drop_last() =~= all.take(i as int));
            assert(all.take(i + 1).last() == l@);
        }
        if starts_with_exec(l.as_slice(), chars_of("NAME=").as_slice()) {
            let rest = crate::text::slice_chars(l.as_slice(), 5, l.len());
            name = unquote(&rest);
        } else if starts_with_exec(l.as_slice(), chars_of("VERSION=").as_slice()) {
            let rest = crate::text::slice_chars(l.as_slice(), 8, l.len());
            version = unquote(&rest);
        }
        i += 1;
    }
    proof {
        assert(all.take(ls@.len() as int) =~= all);
    }
    (string_of(&name), string_of(&version))
}

/// The number of processors and the model, after some lines of `lscpu`:
/// a `CPU(s):` line gives the count (its second word, or 0 when that is
/// no number), a `Model name:` line the model (the text after the first
/// colon, up to a second one, trimmed); later lines win.
pub open spec fn cpu_info_from(ls: Seq<Seq<char>>) -> (int, Seq<char>)
    decreases ls.len(),
{
    if ls.len() == 0 {
        (0, "Unknown CPU"@)
    } else {
        let (cores, model) = cpu_info_from(ls.drop_last());
        let l = ls.last();
        if starts_with(l, "CPU(s):"@) {
            let w = words(l);
            (
                if w.len() > 1 {
                    match parse_u64_spec(w[1]) {
                        Some(n) => n as int,
                        None => 0,
                    }
                } else {
                    0
                },
                model,
            )
        } else if starts_with(l, "CPU max MHz:"@) || starts_with(l, "CPU MHz:"@) {
            (cores, model)
        } else if starts_with(l, "Model name:"@) {
            (cores, trim(split(l, ':')[1]))
        } else {
            (cores, model)
        }
    }
}

/// The number of processors and their model in the output of `lscpu`.
pub fn cpu_info(lscpu: &str) -> (r: (u64, String))
    ensures
        (r.0 as int, r.1@) == cpu_info_from(lines(lscpu@)),
{
    proof {
        reveal_strlit("Model name:");
    }
    let ls = split_lines(&chars_of(lscpu));
    let mut cores: u64 = 0;
    let mut model: Vec<char> = chars_of("Unknown CPU");
    let ghost all = views(ls@);
    let mut i: usize = 0;
    while i < ls.len()
        invariant
            i <= ls@.len(),
            all == views(ls@),
            all == lines(lscpu@),
            (cores as int, model@) == cpu_info_from(all.take(i as int)),
        decreases ls@.len() - i,
    {
        let l = &ls[i];
        proof {
            reveal_strlit("Model name:");
            assert(all.take(i + 1).drop_last() =~= all.take(i as int));
            assert(all.take(i + 1).last() == l@);
        }
        if starts_with_exec(l.as_slice(), chars_of("CPU(s):").as_slice()) {
            let w = split_words(l.as_slice());
            cores = if w.len() > 1 {
                match parse_u64(w[1].as_slice()) {
                    Some(n) => n,
                    None => 0,
                }
            } else {
                0
            };
            proof {
                if w.len() > 1 {
                    assert(views(w@)[1] == w@[1]@);
                }
            }
        } else if starts_with_exec(l.as_slice(), chars_of("CPU max MHz:").as_slice()) || starts_with_exec(
            l.as_slice(),
            chars_of("CPU MHz:").as_slice(),
        ) {
        } else if starts_with_exec(l.as_slice(), chars_of("Model name:").as_slice()) {
            let parts = split_on(l.as_slice(), ':');
            proof {
                // A line that starts with `Model name:` has a colon, so a second piece.
                assert(l@.subrange(0, 11) == "Model name:"@);
                assert("Model name:"@[10] == ':');
                assert(l@.subrange(0, 11)[10] == l@[10]);
                assert(l@[10] == ':');
                crate::text::lemma_split_has_piece_after(l@, ':', 10);
                assert(views(parts@)[1] == parts@[1]@);
            }
            model = trim_chars(parts[1].as_slice());
        }
        i += 1;
    }
    proof {
        assert(all.take(ls@.len() as int) =~= all);
    }
    (cores, string_of(&model))
}

} // verus!
