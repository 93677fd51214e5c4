//! Character-level text helpers with their specifications.
//!
//! Text is handled as sequences of Unicode scalar values (`Seq<char>`), the
//! view that vstd gives `str` and `String`.

use vstd::prelude::*;

verus! {

// ---------------------------------------------------------------------------
// Specifications
// ---------------------------------------------------------------------------

/// The characters of the Unicode `White_Space` property, which is what
/// `char::is_whitespace` tests.
pub open spec fn is_ws(c: char) -> bool {
    ||| 0x09 <= c as u32 <= 0x0D
    ||| c as u32 == 0x20
    ||| c as u32 == 0x85
    ||| c as u32 == 0xA0
    ||| c as u32 == 0x1680
    ||| 0x2000 <= c as u32 <= 0x200A
    ||| c as u32 == 0x2028
    ||| c as u32 == 0x2029
    ||| c as u32 == 0x202F
    ||| c as u32 == 0x205F
    ||| c as u32 == 0x3000
}

/// The first index at or after `i` that does not hold whitespace (or `s.len()`).
pub open spec fn skip_ws(s: Seq<char>, i: int) -> int
    decreases s.len() - i,
{
    if 0 <= i < s.len() && is_ws(s[i]) {
        skip_ws(s, i + 1)
    } else {
        i
    }
}

/// The first index at or after `i` that holds whitespace (or `s.len()`).
pub open spec fn skip_word(s: Seq<char>, i: int) -> int
    decreases s.len() - i,
{
    if 0 <= i < s.len() && !is_ws(s[i]) {
        skip_word(s, i + 1)
    } else {
        i
    }
}

/// Going down from `j`, the end of the text once trailing whitespace above `lo` is dropped.
pub open spec fn rskip_ws(s: Seq<char>, lo: int, j: int) -> int
    decreases j - lo,
{
    if lo < j <= s.len() && is_ws(s[j - 1]) {
        rskip_ws(s, lo, j - 1)
    } else {
        j
    }
}

/// `s` without leading and trailing whitespace (what `str::trim` returns).
pub open spec fn trim(s: Seq<char>) -> Seq<char> {
    let a = skip_ws(s, 0);
    s.subrange(a, rskip_ws(s, a, s.len() as int))
}

/// `s` without leading whitespace (what `str::trim_start` returns).
pub open spec fn trim_start(s: Seq<char>) -> Seq<char> {
    s.skip(skip_ws(s, 0))
}

pub proof fn lemma_skip_ws_bounds(s: Seq<char>, i: int)
    requires
        0 <= i <= s.len(),
    ensures
        i <= skip_ws(s, i) <= s.len(),
        forall|k: int| i <= k < skip_ws(s, i) ==> is_ws(#[trigger] s[k]),
        skip_ws(s, i) < s.len() ==> !is_ws(s[skip_ws(s, i)]),
    decreases s.len() - i,
{
    if i < s.len() && is_ws(s[i]) {
        lemma_skip_ws_bounds(s, i + 1);
    }
}

pub proof fn lemma_skip_word_bounds(s: Seq<char>, i: int)
    requires
        0 <= i <= s.len(),
    ensures
        i <= skip_word(s, i) <= s.len(),
        forall|k: int| i <= k < skip_word(s, i) ==> !is_ws(#[trigger] s[k]),
        skip_word(s, i) < s.len() ==> is_ws(s[skip_word(s, i)]),
    decreases s.len() - i,
{
    if i < s.len() && !is_ws(s[i]) {
        lemma_skip_word_bounds(s, i + 1);
    }
}

pub proof fn lemma_rskip_ws_bounds(s: Seq<char>, lo: int, j: int)
    requires
        0 <= lo <= j <= s.len(),
    ensures
        lo <= rskip_ws(s, lo, j) <= j,
        forall|k: int| rskip_ws(s, lo, j) <= k < j ==> is_ws(#[trigger] s[k]),
        rskip_ws(s, lo, j) > lo ==> !is_ws(s[rskip_ws(s, lo, j) - 1]),
    decreases j - lo,
{
    if lo < j && is_ws(s[j - 1]) {
        lemma_rskip_ws_bounds(s, lo, j - 1);
    }
}

/// The whitespace-separated words of `s` from index `i` on (what `split_whitespace` yields).
pub open spec fn words_from(s: Seq<char>, i: int) -> Seq<Seq<char>>
    decreases s.len() - i,
{
    if i < 0 || i > s.len() {
        seq![]
    } else {
        let a = skip_ws(s, i);
        if a >= s.len() {
            seq![]
        } else {
            let b = skip_word(s, a);
            proof {
                lemma_skip_ws_bounds(s, i);
                lemma_skip_word_bounds(s, a);
            }
            seq![s.subrange(a, b)] + words_from(s, b)
        }
    }
}

/// The whitespace-separated words of `s`.
pub open spec fn words(s: Seq<char>) -> Seq<Seq<char>> {
    words_from(s, 0)
}

/// The first index at or after `i` that holds `c` (or `s.len()`).
pub open spec fn find_char_from(s: Seq<char>, c: char, i: int) -> int
    decreases s.len() - i,
{
    if 0 <= i < s.len() && s[i] != c {
        find_char_from(s, c, i + 1)
    } else {
        i
    }
}

pub proof fn lemma_find_char_bounds(s: Seq<char>, c: char, i: int)
    requires
        0 <= i <= s.len(),
    ensures
        i <= find_char_from(s, c, i) <= s.len(),
        forall|k: int| i <= k < find_char_from(s, c, i) ==> #[trigger] s[k] != c,
        find_char_from(s, c, i) < s.len() ==> s[find_char_from(s, c, i)] == c,
    decreases s.len() - i,
{
    if i < s.len() && s[i] != c {
        lemma_find_char_bounds(s, c, i + 1);
    }
}

/// The pieces of `s` between occurrences of `c`, from index `i` on (what `str::split(c)` yields).
pub open spec fn split_from(s: Seq<char>, c: char, i: int) -> Seq<Seq<char>>
    decreases s.len() - i,
{
    if i < 0 || i > s.len() {
        seq![]
    } else {
        let j = find_char_from(s, c, i);
        proof {
            lemma_find_char_bounds(s, c, i);
        }
        if j >= s.len() {
            seq![s.subrange(i, s.len() as int)]
        } else {
            seq![s.subrange(i, j)] + split_from(s, c, j + 1)
        }
    }
}

/// The pieces of `s` between occurrences of `c`; never empty.
pub open spec fn split(s: Seq<char>, c: char) -> Seq<Seq<char>> {
    split_from(s, c, 0)
}

pub proof fn lemma_split_nonempty(s: Seq<char>, c: char)
    ensures
        split(s, c).len() >= 1,
{
    lemma_find_char_bounds(s, c, 0);
}

/// A line without the carriage return that preceded its newline.
pub open spec fn strip_cr(l: Seq<char>) -> Seq<char> {
    if l.len() > 0 && l.last() == '\r' {
        l.drop_last()
    } else {
        l
    }
}

/// The lines of `s` from index `i` on (what `str::lines` yields): split at
/// `\n`, a `\r` before the `\n` dropped, no empty line after a final newline.
pub open spec fn lines_from(s: Seq<char>, i: int) -> Seq<Seq<char>>
    decreases s.len() - i,
{
    if i < 0 || i >= s.len() {
        seq![]
    } else {
        let j = find_char_from(s, '\n', i);
        proof {
            lemma_find_char_bounds(s, '\n', i);
        }
        if j >= s.len() {
            seq![s.subrange(i, s.len() as int)]
        } else {
            seq![strip_cr(s.subrange(i, j))] + lines_from(s, j + 1)
        }
    }
}

/// The lines of `s`.
pub open spec fn lines(s: Seq<char>) -> Seq<Seq<char>> {
    lines_from(s, 0)
}

/// How many times `c` occurs in `s` (what `s.matches(c).count()` gives).
pub open spec fn count_char(s: Seq<char>, c: char) -> nat
    decreases s.len(),
{
    if s.len() == 0 {
        0
    } else {
        count_char(s.drop_last(), c) + if s.last() == c {
            1nat
        } else {
            0nat
        }
    }
}

pub proof fn lemma_count_char_le(s: Seq<char>, c: char)
    ensures
        count_char(s, c) <= s.len(),
    decreases s.len(),
{
    if s.len() > 0 {
        lemma_count_char_le(s.drop_last(), c);
    }
}

pub proof fn lemma_trim_len(s: Seq<char>)
    ensures
        trim(s).len() <= s.len(),
{
    lemma_skip_ws_bounds(s, 0);
    let a = skip_ws(s, 0);
    lemma_rskip_ws_bounds(s, a, s.len() as int);
}

/// The total length of the pieces of `ls`.
pub open spec fn total_len(ls: Seq<Seq<char>>) -> nat
    decreases ls.len(),
{
    if ls.len() == 0 {
        0
    } else {
        total_len(ls.drop_last()) + ls.last().len()
    }
}

pub proof fn lemma_total_len_concat(a: Seq<Seq<char>>, b: Seq<Seq<char>>)
    ensures
        total_len(a + b) == total_len(a) + total_len(b),
    decreases b.len(),
{
    if b.len() == 0 {
        assert(a + b =~= a);
    } else {
        assert((a + b).drop_last() =~= a + b.drop_last());
        lemma_total_len_concat(a, b.drop_last());
    }
}

pub proof fn lemma_total_len_take(ls: Seq<Seq<char>>, i: int)
    requires
        0 <= i <= ls.len(),
    ensures
        total_len(ls.take(i)) <= total_len(ls),
{
    assert(ls =~= ls.take(i) + ls.skip(i));
    lemma_total_len_concat(ls.take(i), ls.skip(i));
}

/// The lines of a text are no longer, all together, than the text.
pub proof fn lemma_lines_total_len(s: Seq<char>, i: int)
    requires
        0 <= i,
    ensures
        i <= s.len() ==> total_len(lines_from(s, i)) <= s.len() - i,
        i > s.len() ==> total_len(lines_from(s, i)) == 0,
    decreases s.len() - i,
{
    if i >= s.len() {
        assert(lines_from(s, i) =~= Seq::<Seq<char>>::empty());
    } else {
        let j = find_char_from(s, '\n', i);
        lemma_find_char_bounds(s, '\n', i);
        let first = if j >= s.len() {
            s.subrange(i, s.len() as int)
        } else {
            strip_cr(s.subrange(i, j))
        };
        if j >= s.len() {
            assert(lines_from(s, i) == seq![first]);
            assert(seq![first].drop_last() =~= Seq::<Seq<char>>::empty());
        } else {
            lemma_lines_total_len(s, j + 1);
            lemma_total_len_concat(seq![first], lines_from(s, j + 1));
            assert(seq![first].drop_last() =~= Seq::<Seq<char>>::empty());
            assert(total_len(Seq::<Seq<char>>::empty()) == 0);
            assert(seq![first].last() == first);
            assert(total_len(seq![first]) == first.len());
            assert(first.len() <= j - i);
            assert(lines_from(s, i) == seq![first] + lines_from(s, j + 1));
        }
    }
}

/// `p` occurs in `s` at index `i`.
pub open spec fn matches_at(s: Seq<char>, p: Seq<char>, i: int) -> bool {
    0 <= i && i + p.len() <= s.len() && s.subrange(i, i + p.len()) == p
}

/// The first index at or after `i` where `p` occurs in `s`.
pub open spec fn find_from(s: Seq<char>, p: Seq<char>, i: int) -> Option<int>
    decreases s.len() + 1 - i,
{
    if i < 0 || i + p.len() > s.len() {
        None
    } else if matches_at(s, p, i) {
        Some(i)
    } else {
        find_from(s, p, i + 1)
    }
}

/// The first index where `p` occurs in `s` (what `str::find` returns, counted in chars).
pub open spec fn find(s: Seq<char>, p: Seq<char>) -> Option<int> {
    find_from(s, p, 0)
}

/// `p` occurs somewhere in `s`.
pub open spec fn contains(s: Seq<char>, p: Seq<char>) -> bool {
    find(s, p) is Some
}

pub open spec fn starts_with(s: Seq<char>, p: Seq<char>) -> bool {
    matches_at(s, p, 0)
}

pub open spec fn ends_with(s: Seq<char>, p: Seq<char>) -> bool {
    p.len() <= s.len() && matches_at(s, p, s.len() - p.len())
}

pub proof fn lemma_find_from_spec(s: Seq<char>, p: Seq<char>, i: int)
    requires
        0 <= i,
    ensures
        find_from(s, p, i) matches Some(k) ==> i <= k && matches_at(s, p, k) && forall|m: int|
            i <= m < k ==> !matches_at(s, p, m),
        find_from(s, p, i) is None ==> forall|m: int| i <= m ==> !matches_at(s, p, m),
    decreases s.len() + 1 - i,
{
    if i + p.len() > s.len() {
    } else if matches_at(s, p, i) {
    } else {
        lemma_find_from_spec(s, p, i + 1);
    }
}

/// `s` with every copy of `p` at its end removed (what `trim_end_matches(p)` returns).
pub open spec fn trim_end_matches(s: Seq<char>, p: Seq<char>) -> Seq<char>
    decreases s.len(),
{
    if p.len() > 0 && ends_with(s, p) {
        trim_end_matches(s.subrange(0, s.len() - p.len()), p)
    } else {
        s
    }
}

/// `s` with every copy of `p` at its start removed (what `trim_start_matches(p)` returns).
pub open spec fn trim_start_matches(s: Seq<char>, p: Seq<char>) -> Seq<char>
    decreases s.len(),
{
    if p.len() > 0 && starts_with(s, p) {
        trim_start_matches(s.subrange(p.len() as int, s.len() as int), p)
    } else {
        s
    }
}

/// The decimal digit character for `d < 10`.
pub open spec fn digit_char(d: int) -> char {
    if d == 0 {
        '0'
    } else if d == 1 {
        '1'
    } else if d == 2 {
        '2'
    } else if d == 3 {
        '3'
    } else if d == 4 {
        '4'
    } else if d == 5 {
        '5'
    } else if d == 6 {
        '6'
    } else if d == 7 {
        '7'
    } else if d == 8 {
        '8'
    } else {
        '9'
    }
}

/// The digit character for `d < 10`.
pub fn digit(d: u64) -> (r: char)
    requires
        d < 10,
    ensures
        r == digit_char(d as int),
        r as u32 == 48 + d,
{
    if d == 0 {
        '0'
    } else if d == 1 {
        '1'
    } else if d == 2 {
        '2'
    } else if d == 3 {
        '3'
    } else if d == 4 {
        '4'
    } else if d == 5 {
        '5'
    } else if d == 6 {
        '6'
    } else if d == 7 {
        '7'
    } else if d == 8 {
        '8'
    } else {
        '9'
    }
}

/// The decimal representation of `n`, without sign or leading zeros.
pub open spec fn decimal(n: nat) -> Seq<char>
    decreases n,
{
    if n < 10 {
        seq![digit_char(n as int)]
    } else {
        decimal(n / 10).push(digit_char((n % 10) as int))
    }
}

pub proof fn lemma_decimal_nonempty(n: nat)
    ensures
        decimal(n).len() >= 1,
    decreases n,
{
    if n >= 10 {
        lemma_decimal_nonempty(n / 10);
    }
}

/// Different numbers have different decimal representations.
pub proof fn lemma_decimal_injective(a: nat, b: nat)
    requires
        decimal(a) == decimal(b),
    ensures
        a == b,
    decreases a,
{
    if a < 10 && b < 10 {
        assert(decimal(a)[0] == digit_char(a as int));
        assert(decimal(b)[0] == digit_char(b as int));
    } else if a < 10 {
        lemma_decimal_nonempty(b / 10);
        assert(decimal(b).len() >= 2);
    } else if b < 10 {
        lemma_decimal_nonempty(a / 10);
        assert(decimal(a).len() >= 2);
    } else {
        let da = decimal(a);
        let db = decimal(b);
        assert(da.drop_last() =~= decimal(a / 10));
        assert(db.drop_last() =~= decimal(b / 10));
        lemma_decimal_injective(a / 10, b / 10);
        assert(da.last() == digit_char((a % 10) as int));
        assert(db.last() == digit_char((b % 10) as int));
    }
}

pub open spec fn is_digit(c: char) -> bool {
    '0' <= c <= '9'
}

/// The value of a string of decimal digits.
pub open spec fn digits_value(s: Seq<char>) -> nat
    decreases s.len(),
{
    if s.len() == 0 {
        0
    } else {
        digits_value(s.drop_last()) * 10 + (s.last() as nat - 48) as nat
    }
}

/// The value that `str::parse` gives an unsigned integer type with unbounded
/// range: an optional `+`, then one or more decimal digits.
pub open spec fn parse_unsigned(s: Seq<char>) -> Option<nat> {
    let d = unsigned_digits(s);
    if d.len() > 0 && all_digits(d) {
        Some(digits_value(d))
    } else {
        None
    }
}

/// The text after an optional leading `+`.
pub open spec fn unsigned_digits(s: Seq<char>) -> Seq<char> {
    if s.len() > 0 && s[0] == '+' {
        s.drop_first()
    } else {
        s
    }
}

/// Every character of `d` is a decimal digit.
pub open spec fn all_digits(d: Seq<char>) -> bool {
    forall|i: int| 0 <= i < d.len() ==> is_digit(#[trigger] d[i])
}

/// What `str::parse::<u64>` returns, as an option.
pub open spec fn parse_u64_spec(s: Seq<char>) -> Option<u64> {
    match parse_unsigned(s) {
        Some(v) => if v <= u64::MAX {
            Some(v as u64)
        } else {
            None
        },
        None => None,
    }
}

/// What `str::parse::<u16>` returns, as an option.
pub open spec fn parse_u16_spec(s: Seq<char>) -> Option<u16> {
    match parse_unsigned(s) {
        Some(v) => if v <= u16::MAX {
            Some(v as u16)
        } else {
            None
        },
        None => None,
    }
}

/// What `str::parse::<u32>` returns, as an option.
pub open spec fn parse_u32_spec(s: Seq<char>) -> Option<u32> {
    match parse_unsigned(s) {
        Some(v) => if v <= u32::MAX {
            Some(v as u32)
        } else {
            None
        },
        None => None,
    }
}

/// `a` comes before or equals `b` in character order (the order of `str`'s `Ord`,
/// which compares the UTF-8 bytes and so the code points).
pub open spec fn lex_le(a: Seq<char>, b: Seq<char>) -> bool
    decreases a.len(),
{
    if a.len() == 0 {
        true
    } else if b.len() == 0 {
        false
    } else if a[0] != b[0] {
        a[0] < b[0]
    } else {
        lex_le(a.drop_first(), b.drop_first())
    }
}

/// `a` comes strictly before `b` in character order.
pub open spec fn lex_lt(a: Seq<char>, b: Seq<char>) -> bool {
    lex_le(a, b) && a != b
}

pub proof fn lemma_lex_total(a: Seq<char>, b: Seq<char>)
    ensures
        lex_le(a, b) || lex_le(b, a),
    decreases a.len(),
{
    if a.len() > 0 && b.len() > 0 && a[0] == b[0] {
        lemma_lex_total(a.drop_first(), b.drop_first());
    }
}

pub proof fn lemma_lex_antisym(a: Seq<char>, b: Seq<char>)
    requires
        lex_le(a, b),
        lex_le(b, a),
    ensures
        a == b,
    decreases a.len(),
{
    if a.len() > 0 && b.len() > 0 {
        if a[0] == b[0] {
            lemma_lex_antisym(a.drop_first(), b.drop_first());
            assert(a =~= seq![a[0]] + a.drop_first());
            assert(b =~= seq![b[0]] + b.drop_first());
        }
    } else {
        assert(a.len() == 0 && b.len() == 0);
        assert(a =~= b);
    }
}

pub proof fn lemma_lex_trans(a: Seq<char>, b: Seq<char>, c: Seq<char>)
    requires
        lex_le(a, b),
        lex_le(b, c),
    ensures
        lex_le(a, c),
    decreases a.len(),
{
    if a.len() > 0 && b.len() > 0 && c.len() > 0 {
        if a[0] == b[0] && b[0] == c[0] {
            lemma_lex_trans(a.drop_first(), b.drop_first(), c.drop_first());
        }
    }
}

/// Whether `a` comes before or equals `b` in character order.
pub fn lex_le_exec(a: &[char], b: &[char]) -> (r: bool)
    ensures
        r == lex_le(a@, b@),
{
    let mut i: usize = 0;
    assert(a@.skip(0) =~= a@);
    assert(b@.skip(0) =~= b@);
    while i < a.len() && i < b.len() && a[i] == b[i]
        invariant
            i <= a.len(),
            i <= b.len(),
            lex_le(a@, b@) == lex_le(a@.skip(i as int), b@.skip(i as int)),
        decreases a.len() - i,
    {
        proof {
            assert(a@.skip(i as int).drop_first() =~= a@.skip(i + 1));
            assert(b@.skip(i as int).drop_first() =~= b@.skip(i + 1));
        }
        i += 1;
    }
    if i == a.len() {
        true
    } else if i == b.len() {
        false
    } else {
        a[i] < b[i]
    }
}

/// The texts of `parts`, with `sep` between each two.
pub open spec fn join(parts: Seq<Seq<char>>, sep: Seq<char>) -> Seq<char>
    decreases parts.len(),
{
    if parts.len() == 0 {
        Seq::empty()
    } else if parts.len() == 1 {
        parts[0]
    } else {
        join(parts.drop_last(), sep) + sep + parts.last()
    }
}

/// The texts of `parts`, with `sep` between each two.
pub fn join_exec(parts: &Vec<Vec<char>>, sep: &str) -> (r: String)
    ensures
        r@ == join(views(parts@), sep@),
{
    let mut out: Vec<char> = Vec::new();
    let mut i: usize = 0;
    while i < parts.len()
        invariant
            i <= parts.len(),
            out@ == join(views(parts@).take(i as int), sep@),
        decreases parts.len() - i,
    {
        proof {
            assert(views(parts@).take(i + 1).drop_last() == views(parts@).take(i as int));
            assert(views(parts@).take(i + 1).last() == parts@[i as int]@);
        }
        if i > 0 {
            push_str(&mut out, sep);
        } else {
            assert(out@ == Seq::<char>::empty());
        }
        push_chars(&mut out, &parts[i]);
        proof {
            if i == 0 {
                assert(out@ =~= parts@[0]@);
            }
        }
        i += 1;
    }
    assert(views(parts@).take(parts.len() as int) == views(parts@));
    string_of(&out)
}

/// The character views of a vector of character vectors.
pub open spec fn views(v: Seq<Vec<char>>) -> Seq<Seq<char>> {
    v.map_values(|x: Vec<char>| x@)
}

/// The character view of an optional string.
pub open spec fn opt_view(o: Option<String>) -> Option<Seq<char>> {
    match o {
        Some(s) => Some(s@),
        None => None,
    }
}

/// The character views of a vector of strings.
pub open spec fn string_views(v: Seq<String>) -> Seq<Seq<char>> {
    v.map_values(|x: String| x@)
}

/// What `str::to_lowercase` returns for `s`.
pub uninterp spec fn lowercase(s: Seq<char>) -> Seq<char>;

/// What `str::to_uppercase` returns for `s`.
pub uninterp spec fn uppercase(s: Seq<char>) -> Seq<char>;

// ---------------------------------------------------------------------------
// Trusted items over std functions that vstd leaves unspecified
// ---------------------------------------------------------------------------

/// `String::push`: the string afterwards is the old one with `c` appended.
#[verifier::external_body]
pub fn push_char(s: &mut String, c: char)
    ensures
        final(s)@ == old(s)@.push(c),
{
    s.push(c);
}

/// `str::to_lowercase`: its result is named `lowercase`, a function of the text alone.
#[verifier::external_body]
pub fn to_lower(s: &str) -> (r: String)
    ensures
        r@ == lowercase(s@),
{
    s.to_lowercase()
}

/// `str::to_uppercase`: its result is named `uppercase`, a function of the text alone.
#[verifier::external_body]
pub fn to_upper(s: &str) -> (r: String)
    ensures
        r@ == uppercase(s@),
{
    s.to_uppercase()
}

// ---------------------------------------------------------------------------
// Executable helpers
// ---------------------------------------------------------------------------

/// The characters of `s`, in order.
pub fn chars_of(s: &str) -> (r: Vec<char>)
    ensures
        r@ == s@,
{
    let mut v: Vec<char> = Vec::new();
    for c in it: s.chars()
        invariant
            v@ == it.seq().take(it.index() as int),
            it.seq() == s@,
    {
        v.push(c);
        assert(v@ == it.seq().take(it.index() + 1));
    }
    v
}

/// A string holding the characters of `v`.
pub fn string_of(v: &[char]) -> (r: String)
    ensures
        r@ == v@,
{
    let mut s = String::new();
    let mut i: usize = 0;
    while i < v.len()
        invariant
            0 <= i <= v.len(),
            s@ == v@.take(i as int),
        decreases v.len() - i,
    {
        push_char(&mut s, v[i]);
        assert(v@.take(i + 1) == v@.take(i as int).push(v@[i as int]));
        i += 1;
    }
    assert(v@.take(v.len() as int) == v@);
    s
}

/// A string holding the characters of a string literal or slice.
pub fn owned(s: &str) -> (r: String)
    ensures
        r@ == s@,
{
    let v = chars_of(s);
    string_of(&v)
}

/// Appends the characters of `s` to `out`.
pub fn push_str(out: &mut Vec<char>, s: &str)
    ensures
        final(out)@ == old(out)@ + s@,
{
    let v = chars_of(s);
    push_chars(out, &v);
}

/// Appends the characters of `v` to `out`.
pub fn push_chars(out: &mut Vec<char>, v: &[char])
    ensures
        final(out)@ == old(out)@ + v@,
{
    let ghost start = out@;
    let mut i: usize = 0;
    while i < v.len()
        invariant
            i <= v.len(),
            out@ == start + v@.take(i as int),
        decreases v.len() - i,
    {
        out.push(v[i]);
        assert(v@.take(i + 1) == v@.take(i as int).push(v@[i as int]));
        i += 1;
    }
    assert(v@.take(v.len() as int) == v@);
}

/// `a` followed by `b`.
pub fn concat2(a: &str, b: &str) -> (r: String)
    ensures
        r@ == a@ + b@,
{
    let mut v: Vec<char> = Vec::new();
    push_str(&mut v, a);
    push_str(&mut v, b);
    string_of(&v)
}

/// An integer as `Display` writes it: a minus sign for negative values,
/// then the decimal digits of the magnitude.
pub open spec fn int_text_of(i: int) -> Seq<char> {
    if i < 0 {
        "-"@ + decimal((-i) as nat)
    } else {
        decimal(i as nat)
    }
}

/// Appends `i` as `Display` writes it.
pub fn push_int(out: &mut Vec<char>, i: i64)
    ensures
        final(out)@ == old(out)@ + int_text_of(i as int),
{
    if i < 0 {
        let ghost before = out@;
        push_str(out, "-");
        let m: i128 = -(i as i128);
        push_decimal(out, m as u64);
        proof {
            assert(out@ =~= before + int_text_of(i as int));
        }
    } else {
        push_decimal(out, i as u64);
    }
}

/// The concatenation of three texts.
pub fn concat3(a: &str, b: &str, c: &str) -> (r: String)
    ensures
        r@ == a@ + b@ + c@,
{
    let mut v: Vec<char> = Vec::new();
    push_str(&mut v, a);
    push_str(&mut v, b);
    push_str(&mut v, c);
    assert(v@ =~= a@ + b@ + c@);
    string_of(&v)
}

/// A copy of `s[a..b]`.
pub fn slice_chars(s: &[char], a: usize, b: usize) -> (r: Vec<char>)
    requires
        a <= b <= s.len(),
    ensures
        r@ == s@.subrange(a as int, b as int),
{
    let mut v: Vec<char> = Vec::new();
    let mut i = a;
    while i < b
        invariant
            a <= i <= b <= s.len(),
            v@ == s@.subrange(a as int, i as int),
        decreases b - i,
    {
        v.push(s[i]);
        assert(s@.subrange(a as int, i + 1) == s@.subrange(a as int, i as int).push(s@[i as int]));
        i += 1;
    }
    v
}

/// Whether `c` is whitespace (what `char::is_whitespace` returns).
pub fn is_whitespace(c: char) -> (r: bool)
    ensures
        r == is_ws(c),
{
    let u = c as u32;
    (0x09 <= u && u <= 0x0D) || u == 0x20 || u == 0x85 || u == 0xA0 || u == 0x1680 || (0x2000
        <= u && u <= 0x200A) || u == 0x2028 || u == 0x2029 || u == 0x202F || u == 0x205F || u
        == 0x3000
}

/// The index where the whitespace run starting at `i` ends.
pub fn skip_ws_exec(s: &[char], i: usize) -> (r: usize)
    requires
        i <= s.len(),
    ensures
        r == skip_ws(s@, i as int),
{
    let mut j = i;
    while j < s.len() && is_whitespace(s[j])
        invariant
            i <= j <= s.len(),
            skip_ws(s@, i as int) == skip_ws(s@, j as int),
        decreases s.len() - j,
    {
        j += 1;
    }
    j
}

/// The index where the word starting at `i` ends.
pub fn skip_word_exec(s: &[char], i: usize) -> (r: usize)
    requires
        i <= s.len(),
    ensures
        r == skip_word(s@, i as int),
{
    let mut j = i;
    while j < s.len() && !is_whitespace(s[j])
        invariant
            i <= j <= s.len(),
            skip_word(s@, i as int) == skip_word(s@, j as int),
        decreases s.len() - j,
    {
        j += 1;
    }
    j
}

/// `s` without leading and trailing whitespace.
pub fn trim_chars(s: &[char]) -> (r: Vec<char>)
    ensures
        r@ == trim(s@),
{
    let a = skip_ws_exec(s, 0);
    proof {
        lemma_skip_ws_bounds(s@, 0);
    }
    let mut b = s.len();
    while b > a && is_whitespace(s[b - 1])
        invariant
            a <= b <= s.len(),
            rskip_ws(s@, a as int, s.len() as int) == rskip_ws(s@, a as int, b as int),
        decreases b - a,
    {
        b -= 1;
    }
    slice_chars(s, a, b)
}

/// How many times `c` occurs in `s`.
pub fn count_char_exec(s: &[char], c: char) -> (r: usize)
    ensures
        r == count_char(s@, c),
{
    let mut n: usize = 0;
    let mut i: usize = 0;
    while i < s.len()
        invariant
            i <= s.len(),
            n == count_char(s@.take(i as int), c),
            n <= i,
        decreases s.len() - i,
    {
        proof {
            assert(s@.take(i + 1).drop_last() == s@.take(i as int));
        }
        if s[i] == c {
            n += 1;
        }
        i += 1;
    }
    assert(s@.take(s.len() as int) == s@);
    n
}

/// `s` without leading and trailing whitespace, as a string.
pub fn trim_str(s: &str) -> (r: String)
    ensures
        r@ == trim(s@),
{
    let v = chars_of(s);
    let t = trim_chars(&v);
    string_of(&t)
}

/// The whitespace-separated words of `s`.
pub fn split_words(s: &[char]) -> (r: Vec<Vec<char>>)
    ensures
        views(r@) == words(s@),
{
    let mut out: Vec<Vec<char>> = Vec::new();
    let mut i: usize = 0;
    while i < s.len()
        invariant
            i <= s.len(),
            views(out@) + words_from(s@, i as int) == words(s@),
        decreases s.len() - i,
    {
        let a = skip_ws_exec(s, i);
        proof {
            lemma_skip_ws_bounds(s@, i as int);
        }
        if a >= s.len() {
            i = a;
        } else {
            let b = skip_word_exec(s, a);
            proof {
                lemma_skip_word_bounds(s@, a as int);
            }
            let w = slice_chars(s, a, b);
            let ghost old_out = out@;
            out.push(w);
            proof {
                assert(views(out@) == views(old_out).push(w@));
                assert(words_from(s@, i as int) == seq![s@.subrange(a as int, b as int)]
                    + words_from(s@, b as int));
                assert(views(out@) + words_from(s@, b as int) == views(old_out) + words_from(
                    s@,
                    i as int,
                ));
            }
            i = b;
        }
    }
    assert(words_from(s@, i as int) == Seq::<Seq<char>>::empty());
    assert(views(out@) == views(out@) + Seq::<Seq<char>>::empty());
    out
}

/// The first index at or after `i` holding `c` (or `s.len()`).
pub fn find_char_exec(s: &[char], c: char, i: usize) -> (r: usize)
    requires
        i <= s.len(),
    ensures
        r == find_char_from(s@, c, i as int),
{
    let mut j = i;
    while j < s.len() && s[j] != c
        invariant
            i <= j <= s.len(),
            find_char_from(s@, c, i as int) == find_char_from(s@, c, j as int),
        decreases s.len() - j,
    {
        j += 1;
    }
    j
}

/// The pieces of `s` between occurrences of `c`.
pub fn split_on(s: &[char], c: char) -> (r: Vec<Vec<char>>)
    ensures
        views(r@) == split(s@, c),
{
    let mut out: Vec<Vec<char>> = Vec::new();
    let mut i: usize = 0;
    loop
        invariant
            i <= s.len(),
            views(out@) + split_from(s@, c, i as int) == split(s@, c),
        decreases s.len() - i,
    {
        let j = find_char_exec(s, c, i);
        proof {
            lemma_find_char_bounds(s@, c, i as int);
        }
        let piece = slice_chars(s, i, j);
        let ghost old_out = out@;
        out.push(piece);
        assert(views(out@) == views(old_out).push(piece@));
        if j >= s.len() {
            assert(split_from(s@, c, i as int) == seq![s@.subrange(i as int, s.len() as int)]);
            assert(views(out@) == views(old_out) + split_from(s@, c, i as int));
            return out;
        }
        assert(split_from(s@, c, i as int) == seq![s@.subrange(i as int, j as int)] + split_from(
            s@,
            c,
            j + 1,
        ));
        assert(views(out@) + split_from(s@, c, j + 1) == views(old_out) + split_from(
            s@,
            c,
            i as int,
        ));
        i = j + 1;
    }
}

/// The lines of `s`.
pub fn split_lines(s: &[char]) -> (r: Vec<Vec<char>>)
    ensures
        views(r@) == lines(s@),
{
    let mut out: Vec<Vec<char>> = Vec::new();
    let mut i: usize = 0;
    while i < s.len()
        invariant
            i <= s.len(),
            views(out@) + lines_from(s@, i as int) == lines(s@),
        decreases s.len() - i,
    {
        let j = find_char_exec(s, '\n', i);
        proof {
            lemma_find_char_bounds(s@, '\n', i as int);
        }
        let ghost old_out = out@;
        if j >= s.len() {
            let piece = slice_chars(s, i, j);
            out.push(piece);
            assert(views(out@) == views(old_out).push(piece@));
            assert(lines_from(s@, i as int) == seq![s@.subrange(i as int, s.len() as int)]);
            assert(lines_from(s@, j as int) == Seq::<Seq<char>>::empty());
            assert(views(out@) + lines_from(s@, j as int) == views(old_out) + lines_from(
                s@,
                i as int,
            ));
            i = j;
        } else {
            let end = if j > i && s[j - 1] == '\r' {
                j - 1
            } else {
                j
            };
            let piece = slice_chars(s, i, end);
            out.push(piece);
            assert(piece@ == strip_cr(s@.subrange(i as int, j as int)));
            assert(views(out@) == views(old_out).push(piece@));
            assert(lines_from(s@, i as int) == seq![strip_cr(s@.subrange(i as int, j as int))]
                + lines_from(s@, j + 1));
            assert(views(out@) + lines_from(s@, j + 1) == views(old_out) + lines_from(
                s@,
                i as int,
            ));
            i = j + 1;
        }
    }
    assert(views(out@) == views(out@) + Seq::<Seq<char>>::empty());
    out
}

/// Whether `p` occurs in `s` at index `i`.
pub fn matches_at_exec(s: &[char], p: &[char], i: usize) -> (r: bool)
    ensures
        r == matches_at(s@, p@, i as int),
{
    if i > s.len() || p.len() > s.len() - i {
        return false;
    }
    let mut k: usize = 0;
    while k < p.len()
        invariant
            k <= p.len(),
            i + p.len() <= s.len(),
            forall|m: int| 0 <= m < k ==> s@[i + m] == p@[m],
        decreases p.len() - k,
    {
        if s[i + k] != p[k] {
            assert(s@.subrange(i as int, i + p.len())[k as int] != p@[k as int]);
            return false;
        }
        k += 1;
    }
    assert(s@.subrange(i as int, i + p.len()) =~= p@);
    true
}

/// The first index where `p` occurs in `s`.
pub fn find_exec(s: &[char], p: &[char]) -> (r: Option<usize>)
    ensures
        r matches Some(k) ==> find(s@, p@) == Some(k as int),
        r is None ==> find(s@, p@) is None,
{
    if p.len() > s.len() {
        return None;
    }
    let mut i: usize = 0;
    loop
        invariant
            p.len() <= s.len(),
            i <= s.len() - p.len(),
            find(s@, p@) == find_from(s@, p@, i as int),
        decreases s.len() - i,
    {
        if matches_at_exec(s, p, i) {
            return Some(i);
        }
        if i >= s.len() - p.len() {
            assert(find_from(s@, p@, i + 1) is None);
            return None;
        }
        i += 1;
    }
}

/// Whether `p` occurs in `s`.
pub fn contains_exec(s: &[char], p: &[char]) -> (r: bool)
    ensures
        r == contains(s@, p@),
{
    find_exec(s, p).is_some()
}

/// Whether `s` starts with `p`.
pub fn starts_with_exec(s: &[char], p: &[char]) -> (r: bool)
    ensures
        r == starts_with(s@, p@),
{
    matches_at_exec(s, p, 0)
}

/// Whether `s` ends with `p`.
pub fn ends_with_exec(s: &[char], p: &[char]) -> (r: bool)
    ensures
        r == ends_with(s@, p@),
{
    if p.len() > s.len() {
        return false;
    }
    matches_at_exec(s, p, s.len() - p.len())
}

/// Whether two character sequences are equal.
pub fn chars_eq(a: &[char], b: &[char]) -> (r: bool)
    ensures
        r == (a@ == b@),
{
    if a.len() != b.len() {
        return false;
    }
    let r = matches_at_exec(a, b, 0);
    assert(r ==> a@.subrange(0, b@.len() as int) == b@);
    assert(a@.subrange(0, a@.len() as int) =~= a@);
    r
}

/// Whether the strings `a` and `b` hold the same text.
pub fn str_eq(a: &str, b: &str) -> (r: bool)
    ensures
        r == (a@ == b@),
{
    let x = chars_of(a);
    let y = chars_of(b);
    chars_eq(&x, &y)
}

/// Whether `p` occurs in `s`.
pub fn str_contains(s: &str, p: &str) -> (r: bool)
    ensures
        r == contains(s@, p@),
{
    let x = chars_of(s);
    let y = chars_of(p);
    contains_exec(&x, &y)
}

/// Whether `s` starts with `p`.
pub fn str_starts_with(s: &str, p: &str) -> (r: bool)
    ensures
        r == starts_with(s@, p@),
{
    let x = chars_of(s);
    let y = chars_of(p);
    starts_with_exec(&x, &y)
}

/// Whether `s` ends with `p`.
pub fn str_ends_with(s: &str, p: &str) -> (r: bool)
    ensures
        r == ends_with(s@, p@),
{
    let x = chars_of(s);
    let y = chars_of(p);
    ends_with_exec(&x, &y)
}

/// `s` with every copy of `p` at its end removed.
pub fn trim_end_matches_exec(s: &[char], p: &[char]) -> (r: Vec<char>)
    ensures
        r@ == trim_end_matches(s@, p@),
{
    let mut end = s.len();
    assert(s@.subrange(0, end as int) =~= s@);
    if p.len() == 0 {
        return slice_chars(s, 0, end);
    }
    loop
        invariant
            end <= s.len(),
            p.len() > 0,
            trim_end_matches(s@, p@) == trim_end_matches(s@.subrange(0, end as int), p@),
        decreases end,
    {
        let ghost cur = s@.subrange(0, end as int);
        if p.len() <= end && matches_at_exec(s, p, end - p.len()) {
            proof {
                assert(cur.subrange(end - p.len(), end as int) =~= s@.subrange(
                    end - p.len(),
                    end as int,
                ));
                assert(ends_with(cur, p@));
                assert(cur.subrange(0, cur.len() - p.len()) =~= s@.subrange(0, end - p.len()));
            }
            end = end - p.len();
        } else {
            proof {
                if ends_with(cur, p@) {
                    assert(cur.subrange(end - p.len(), end as int) =~= s@.subrange(
                        end - p.len(),
                        end as int,
                    ));
                }
            }
            return slice_chars(s, 0, end);
        }
    }
}

/// `s` with every copy of `p` at its start removed.
pub fn trim_start_matches_exec(s: &[char], p: &[char]) -> (r: Vec<char>)
    ensures
        r@ == trim_start_matches(s@, p@),
{
    let mut start: usize = 0;
    assert(s@.subrange(0, s.len() as int) =~= s@);
    if p.len() == 0 {
        return slice_chars(s, 0, s.len());
    }
    loop
        invariant
            start <= s.len(),
            p.len() > 0,
            trim_start_matches(s@, p@) == trim_start_matches(
                s@.subrange(start as int, s.len() as int),
                p@,
            ),
        decreases s.len() - start,
    {
        let ghost cur = s@.subrange(start as int, s.len() as int);
        if matches_at_exec(s, p, start) {
            proof {
                assert(cur.subrange(0, p.len() as int) =~= s@.subrange(
                    start as int,
                    start + p.len(),
                ));
                assert(starts_with(cur, p@));
                assert(cur.subrange(p.len() as int, cur.len() as int) =~= s@.subrange(
                    start + p.len(),
                    s.len() as int,
                ));
            }
            start = start + p.len();
        } else {
            proof {
                if starts_with(cur, p@) {
                    assert(cur.subrange(0, p.len() as int) =~= s@.subrange(
                        start as int,
                        start + p.len(),
                    ));
                }
            }
            return slice_chars(s, start, s.len());
        }
    }
}

/// Appends the decimal representation of `n` to `out`.
pub fn push_decimal(out: &mut Vec<char>, n: u64)
    ensures
        final(out)@ == old(out)@ + decimal(n as nat),
    decreases n,
{
    if n >= 10 {
        push_decimal(out, n / 10);
    }
    let ch = digit(n % 10);
    let ghost mid = out@;
    out.push(ch);
    proof {
        if n >= 10 {
            assert(mid + seq![ch] =~= mid.push(ch));
        } else {
            assert(mid.push(ch) =~= mid + decimal(n as nat));
        }
    }
}

/// The decimal representation of `n`.
pub fn u64_to_string(n: u64) -> (r: String)
    ensures
        r@ == decimal(n as nat),
{
    let mut v: Vec<char> = Vec::new();
    push_decimal(&mut v, n);
    assert(v@ =~= decimal(n as nat));
    string_of(&v)
}

pub proof fn lemma_digits_value_prefix(d: Seq<char>, k: int)
    requires
        0 <= k <= d.len(),
    ensures
        digits_value(d.take(k)) <= digits_value(d),
    decreases d.len(),
{
    if k < d.len() {
        assert(d.drop_last().take(k) == d.take(k));
        lemma_digits_value_prefix(d.drop_last(), k);
    } else {
        assert(d.take(k) == d);
    }
}

/// What `str::parse::<u64>` returns, as an option.
pub fn parse_u64(s: &[char]) -> (r: Option<u64>)
    ensures
        r == parse_u64_spec(s@),
{
    let start: usize = if s.len() > 0 && s[0] == '+' {
        1
    } else {
        0
    };
    let ghost d = unsigned_digits(s@);
    assert(d =~= s@.subrange(start as int, s.len() as int));
    if start >= s.len() {
        return None;
    }
    let mut v: u64 = 0;
    let mut i = start;
    while i < s.len()
        invariant
            start <= i <= s.len(),
            start < s.len(),
            d == s@.subrange(start as int, s.len() as int),
            d == unsigned_digits(s@),
            forall|m: int| 0 <= m < i - start ==> is_digit(#[trigger] d[m]),
            v as nat == digits_value(d.take(i - start)),
        decreases s.len() - i,
    {
        let c = s[i];
        if !('0' <= c && c <= '9') {
            assert(d[i - start] == c);
            assert(!is_digit(d[i - start]));
            assert(!all_digits(d));
            return None;
        }
        let dig = (c as u32 - 48) as u64;
        proof {
            assert(d.take(i - start + 1).drop_last() =~= d.take(i - start));
            assert(d.take(i - start + 1).last() == c);
        }
        if v > (u64::MAX - dig) / 10 {
            proof {
                assert(digits_value(d.take(i - start + 1)) == v * 10 + dig) by (nonlinear_arith)
                    requires
                        digits_value(d.take(i - start + 1)) == digits_value(d.take(i - start))
                            * 10 + (c as nat - 48) as nat,
                        v as nat == digits_value(d.take(i - start)),
                        dig == c as nat - 48,
                ;
                assert(v * 10 + dig > u64::MAX) by (nonlinear_arith)
                    requires
                        v > (u64::MAX - dig) / 10,
                        dig <= 9,
                ;
                lemma_digits_value_prefix(d, i - start + 1);
                assert(digits_value(d) > u64::MAX);
                assert(!all_digits(d) || parse_unsigned(s@) == Some(digits_value(d)));
            }
            // the value no longer fits; the rest decides only between two kinds of failure
            return None;
        }
        proof {
            assert(v * 10 + dig <= u64::MAX) by (nonlinear_arith)
                requires
                    v <= (u64::MAX - dig) / 10,
                    dig <= 9,
            ;
        }
        v = v * 10 + dig;
        i += 1;
    }
    assert(d.take(s.len() - start) == d);
    assert(all_digits(d));
    Some(v)
}

/// What `str::parse::<u16>` returns, as an option.
pub fn parse_u16(s: &[char]) -> (r: Option<u16>)
    ensures
        r == parse_u16_spec(s@),
{
    match parse_u64(s) {
        Some(v) => if v <= 65535 {
            Some(v as u16)
        } else {
            None
        },
        None => None,
    }
}

/// What `str::parse::<u32>` returns, as an option.
pub fn parse_u32(s: &[char]) -> (r: Option<u32>)
    ensures
        r == parse_u32_spec(s@),
{
    match parse_u64(s) {
        Some(v) => if v <= 4294967295 {
            Some(v as u32)
        } else {
            None
        },
        None => None,
    }
}


// ---------------------------------------------------------------------------
// Lines of joined text
// ---------------------------------------------------------------------------

/// `s` holds no newline.
pub open spec fn one_line(s: Seq<char>) -> bool {
    !s.contains('\n')
}

/// The lines that `str::lines` reads back from lines joined with `\n`:
/// each line but the last loses one carriage return at its end, and a last
/// line that is empty is not read.
pub open spec fn lines_read_back(ls: Seq<Seq<char>>) -> Seq<Seq<char>>
    decreases ls.len(),
{
    if ls.len() == 0 {
        ls
    } else if ls.len() == 1 {
        if ls[0].len() == 0 { Seq::empty() } else { ls }
    } else {
        seq![strip_cr(ls[0])] + lines_read_back(ls.drop_first())
    }
}

proof fn lemma_find_char_shift(p: Seq<char>, b: Seq<char>, c: char, i: int)
    requires
        0 <= i <= b.len(),
    ensures
        find_char_from(p + b, c, p.len() + i) == p.len() + find_char_from(b, c, i),
    decreases b.len() - i,
{
    if i < b.len() {
        assert((p + b)[p.len() + i] == b[i]);
        if b[i] != c {
            lemma_find_char_shift(p, b, c, i + 1);
        }
    }
}

proof fn lemma_lines_shift(p: Seq<char>, b: Seq<char>, i: int)
    requires
        0 <= i <= b.len(),
    ensures
        lines_from(p + b, p.len() + i) == lines_from(b, i),
    decreases b.len() - i,
{
    let s = p + b;
    if i < b.len() {
        lemma_find_char_shift(p, b, '\n', i);
        lemma_find_char_bounds(b, '\n', i);
        let jb = find_char_from(b, '\n', i);
        assert(s.subrange(p.len() + i, p.len() + jb) =~= b.subrange(i, jb));
        assert(s.subrange(p.len() + i, s.len() as int) =~= b.subrange(i, b.len() as int));
        if jb < b.len() {
            lemma_lines_shift(p, b, jb + 1);
        }
    }
}

pub proof fn lemma_find_skip(s: Seq<char>, c: char, i: int, k: int)
    requires
        0 <= i <= k <= s.len(),
        forall|m: int| i <= m < k ==> #[trigger] s[m] != c,
    ensures
        find_char_from(s, c, i) == find_char_from(s, c, k),
    decreases k - i,
{
    if i < k {
        lemma_find_skip(s, c, i + 1, k);
    }
}

proof fn lemma_find_in_one_line(s: Seq<char>, i: int)
    requires
        0 <= i <= s.len(),
        one_line(s),
    ensures
        find_char_from(s, '\n', i) == s.len(),
    decreases s.len() - i,
{
    if i < s.len() {
        assert(s[i] != '\n') by {
            if s[i] == '\n' {
                assert(s.contains('\n'));
            }
        }
        lemma_find_in_one_line(s, i + 1);
    }
}

/// Joining with a separator puts the first part, the separator and the
/// join of the others one after the other.
pub proof fn lemma_join_front(ls: Seq<Seq<char>>, sep: Seq<char>)
    requires
        ls.len() >= 2,
    ensures
        join(ls, sep) == ls[0] + sep + join(ls.drop_first(), sep),
    decreases ls.len(),
{
    if ls.len() == 2 {
        assert(ls.drop_last().len() == 1);
        assert(join(ls.drop_last(), sep) == ls.drop_last()[0]);
        assert(ls.drop_first().len() == 1);
        assert(join(ls.drop_first(), sep) == ls.drop_first()[0]);
        assert(ls.drop_first()[0] == ls[1]);
        assert(join(ls, sep) =~= ls[0] + sep + join(ls.drop_first(), sep));
    } else {
        lemma_join_front(ls.drop_last(), sep);
        let d = ls.drop_last();
        assert(d.drop_first() =~= ls.drop_first().drop_last());
        assert(ls.drop_first().last() == ls.last());
        assert(d[0] == ls[0]);
        assert(join(ls.drop_first(), sep) == join(d.drop_first(), sep) + sep + ls.last());
        assert(join(ls, sep) =~= ls[0] + sep + join(ls.drop_first(), sep));
    }
}

/// Reading back lines that were joined with `\n` gives them again, but
/// for the carriage returns and the empty last line that `str::lines`
/// drops.
pub proof fn lemma_lines_of_join(ls: Seq<Seq<char>>)
    requires
        forall|i: int| 0 <= i < ls.len() ==> one_line(#[trigger] ls[i]),
    ensures
        lines(join(ls, "\n"@)) == lines_read_back(ls),
    decreases ls.len(),
{
    reveal_strlit("\n");
    if ls.len() == 0 {
        assert(lines(Seq::<char>::empty()) =~= Seq::<Seq<char>>::empty());
    } else if ls.len() == 1 {
        let x = ls[0];
        assert(join(ls, "\n"@) == x);
        if x.len() > 0 {
            lemma_find_in_one_line(x, 0);
            assert(x.subrange(0, x.len() as int) =~= x);
            assert(lines_from(x, 0) == seq![x]);
            assert(ls =~= seq![x]);
        }
    } else {
        let x = ls[0];
        let rest = ls.drop_first();
        assert forall|i: int| 0 <= i < rest.len() implies one_line(#[trigger] rest[i]) by {
            assert(rest[i] == ls[i + 1]);
        }
        lemma_lines_of_join(rest);
        lemma_join_front(ls, "\n"@);
        let p = x + "\n"@;
        let b = join(rest, "\n"@);
        let s = join(ls, "\n"@);
        assert(s =~= p + b);
        lemma_find_in_one_line(x, 0);
        lemma_find_char_shift(x, "\n"@ + b, '\n', 0);
        assert((x + ("\n"@ + b)) =~= s);
        assert(("\n"@ + b)[0] == '\n');
        assert(find_char_from("\n"@ + b, '\n', 0) == 0);
        assert forall|m: int| 0 <= m < x.len() implies #[trigger] s[m] != '\n' by {
            assert(s[m] == x[m]);
            if x[m] == '\n' {
                assert(x.contains('\n'));
            }
        }
        lemma_find_skip(s, '\n', 0, x.len() as int);
        assert(find_char_from(s, '\n', 0) == x.len());
        assert(s.subrange(0, x.len() as int) =~= x);
        lemma_lines_shift(p, b, 0);
        assert(lines_from(s, (x.len() + 1) as int) == lines_from(b, 0));
        assert(lines(s) == seq![strip_cr(x)] + lines(b));
    }
}

/// No line that `str::lines` yields holds a newline.
pub proof fn lemma_lines_one_line(s: Seq<char>, i: int)
    requires
        0 <= i,
    ensures
        forall|k: int| 0 <= k < lines_from(s, i).len() ==> one_line(#[trigger] lines_from(s, i)[k]),
    decreases s.len() - i,
{
    if i < s.len() {
        let j = find_char_from(s, '\n', i);
        lemma_find_char_bounds(s, '\n', i);
        let first = if j >= s.len() { s.subrange(i, s.len() as int) } else { strip_cr(s.subrange(i, j)) };
        assert(one_line(first)) by {
            if first.contains('\n') {
                let m = choose|m: int| 0 <= m < first.len() && first[m] == '\n';
                assert(s[i + m] == '\n');
            }
        }
        if j < s.len() {
            lemma_lines_one_line(s, j + 1);
            assert(lines_from(s, i) == seq![first] + lines_from(s, j + 1));
            assert forall|k: int| 0 <= k < lines_from(s, i).len() implies one_line(#[trigger] lines_from(s, i)[k]) by {
                if k > 0 {
                    assert(lines_from(s, i)[k] == lines_from(s, j + 1)[k - 1]);
                }
            }
        } else {
            assert(lines_from(s, i) == seq![first]);
        }
    }
}

pub proof fn lemma_skip_ws_exact(s: Seq<char>, i: int, k: int)
    requires
        0 <= i <= k <= s.len(),
        forall|m: int| i <= m < k ==> is_ws(#[trigger] s[m]),
        k < s.len() ==> !is_ws(s[k]),
    ensures
        skip_ws(s, i) == k,
    decreases k - i,
{
    if i < k {
        lemma_skip_ws_exact(s, i + 1, k);
    }
}

pub proof fn lemma_rskip_ws_exact(s: Seq<char>, lo: int, j: int, k: int)
    requires
        0 <= lo <= k <= j <= s.len(),
        forall|m: int| k <= m < j ==> is_ws(#[trigger] s[m]),
        k > lo ==> !is_ws(s[k - 1]),
    ensures
        rskip_ws(s, lo, j) == k,
    decreases j - k,
{
    if k < j {
        lemma_rskip_ws_exact(s, lo, j - 1, k);
    }
}

/// Trimming `s` gives its middle part `s[a..b]` when everything before
/// `a` and from `b` on is whitespace and the middle part is empty or
/// starts and ends with something else.
pub proof fn lemma_trim_is(s: Seq<char>, a: int, b: int)
    requires
        0 <= a <= b <= s.len(),
        forall|m: int| 0 <= m < a ==> is_ws(#[trigger] s[m]),
        forall|m: int| b <= m < s.len() ==> is_ws(#[trigger] s[m]),
        a < b ==> !is_ws(s[a]) && !is_ws(s[b - 1]),
        a == b ==> a == s.len(),
    ensures
        trim(s) == s.subrange(a, b),
{
    if a < b {
        lemma_skip_ws_exact(s, 0, a);
        lemma_rskip_ws_exact(s, a, s.len() as int, b);
    } else {
        lemma_skip_ws_exact(s, 0, a);
        assert(rskip_ws(s, a, s.len() as int) == s.len());
    }
}

/// Dropping a carriage return before the newline leaves the trimmed line
/// as it was.
pub proof fn lemma_trim_strip_cr(l: Seq<char>)
    ensures
        trim(strip_cr(l)) == trim(l),
{
    if l.len() > 0 && l.last() == '\r' {
        let d = l.drop_last();
        let a = skip_ws(d, 0);
        lemma_skip_ws_bounds(d, 0);
        let b = rskip_ws(d, a, d.len() as int);
        lemma_rskip_ws_bounds(d, a, d.len() as int);
        assert(is_ws('\r'));
        assert forall|m: int| 0 <= m < a implies is_ws(#[trigger] l[m]) by {
            assert(l[m] == d[m]);
        }
        assert forall|m: int| b <= m < l.len() implies is_ws(#[trigger] l[m]) by {
            if m < d.len() {
                assert(l[m] == d[m]);
            }
        }
        if a < b {
            assert(l[a] == d[a] && l[b - 1] == d[b - 1]);
            lemma_trim_is(l, a, b);
            assert(l.subrange(a, b) =~= d.subrange(a, b));
        } else {
            assert(b == a);
            if a < d.len() {
                assert(!is_ws(d[a]));
                assert(false);
            }
            assert forall|m: int| l.len() <= m < l.len() implies is_ws(#[trigger] l[m]) by {}
            lemma_trim_is(l, l.len() as int, l.len() as int);
            assert(l.subrange(l.len() as int, l.len() as int) =~= d.subrange(a, b));
        }
    }
}

proof fn lemma_split_from_nonempty(s: Seq<char>, c: char, i: int)
    requires
        0 <= i <= s.len(),
    ensures
        split_from(s, c, i).len() >= 1,
{
    lemma_find_char_bounds(s, c, i);
}

/// A text with `c` at index `k` splits at `c` into at least two pieces.
pub proof fn lemma_split_has_piece_after(s: Seq<char>, c: char, k: int)
    requires
        0 <= k < s.len(),
        s[k] == c,
    ensures
        split(s, c).len() >= 2,
{
    lemma_find_char_bounds(s, c, 0);
    let j = find_char_from(s, c, 0);
    assert(j <= k) by {
        if j > k {
            assert(s[k] != c);
        }
    }
    lemma_split_from_nonempty(s, c, j + 1);
}
} // verus!
