//! TLS certificates of the node's domain: whether Traefik's ACME store
//! holds one, and what `openssl` reports of the one being served.

use vstd::prelude::*;
use crate::storage::div_trunc;
use crate::text::{chars_of, lines, opt_view, owned, split_lines, starts_with, starts_with_exec,
    trim, trim_chars, trim_end_matches, trim_end_matches_exec, views};

verus! {

/// The certificates of the project at `project_root`.
#[derive(Debug)]
pub struct SslManager {
    pub project_root: String,
}

impl SslManager {
    /// The certificates of the project at `project_root`.
    pub fn new(project_root: String) -> (r: SslManager)
        ensures
            r.project_root@ == project_root@,
    {
        SslManager { project_root }
    }
}

/// What is known of a domain's certificate. Times are seconds since the
/// Unix epoch.
#[derive(Debug, Clone)]
pub struct CertificateInfo {
    pub domain: String,
    pub valid_from: Option<i64>,
    pub valid_until: Option<i64>,
    pub days_remaining: Option<i64>,
    pub is_valid: bool,
}

/// A domain with no certificate known.
pub fn no_certificate(domain: &str) -> (r: CertificateInfo)
    ensures
        r.domain@ == domain@,
        r.valid_from is None,
        r.valid_until is None,
        r.days_remaining is None,
        !r.is_valid,
{
    CertificateInfo { domain: owned(domain), valid_from: None, valid_until: None, days_remaining: None, is_valid: false }
}

/// Whether the ACME store holds a certificate whose main domain is
/// `domain`. Each resolver is listed with the main domain of each of its
/// certificates (`None` where a certificate names none).
pub open spec fn acme_holds(resolvers: Seq<Seq<Option<Seq<char>>>>, domain: Seq<char>) -> bool {
    exists|i: int, j: int|
        0 <= i < resolvers.len() && 0 <= j < resolvers[i].len() && #[trigger] resolvers[i][j] == Some(domain)
}

/// Looks for `domain` among the certificates of the ACME store.
pub fn acme_has_certificate(resolvers: &Vec<Vec<Option<String>>>, domain: &str) -> (r: bool)
    ensures
        r == acme_holds(resolvers@.map_values(|v: Vec<Option<String>>| v@.map_values(|o: Option<String>| opt_view(o))), domain@),
{
    let ghost rs = resolvers@.map_values(|v: Vec<Option<String>>| v@.map_values(|o: Option<String>| opt_view(o)));
    let mut i: usize = 0;
    while i < resolvers.len()
        invariant
            i <= resolvers@.len(),
            rs == resolvers@.map_values(|v: Vec<Option<String>>| v@.map_values(|o: Option<String>| opt_view(o))),
            forall|a: int, b: int| 0 <= a < i && 0 <= b < rs[a].len() ==> rs[a][b] != Some(domain@),
        decreases resolvers@.len() - i,
    {
        let certs = &resolvers[i];
        let mut j: usize = 0;
        while j < certs.len()
            invariant
                i < resolvers@.len(),
                j <= certs@.len(),
                certs@ == resolvers@[i as int]@,
                rs == resolvers@.map_values(|v: Vec<Option<String>>| v@.map_values(|o: Option<String>| opt_view(o))),
                forall|b: int| 0 <= b < j ==> rs[i as int][b] != Some(domain@),
            decreases certs@.len() - j,
        {
            match &certs[j] {
                Some(main) => {
                    if crate::text::str_eq(main.as_str(), domain) {
                        proof {
                            assert(rs[i as int][j as int] == Some(domain@));
                        }
                        return true;
                    }
                },
                None => {},
            }
            j += 1;
        }
        i += 1;
    }
    false
}

/// The time `NaiveDateTime::parse_from_str(s, "%b %e %H:%M:%S %Y")` reads
/// from `s`, taken as UTC, in seconds since the epoch.
pub uninterp spec fn openssl_date_secs(s: Seq<char>) -> Option<i64>;

/// Reads a date as `openssl x509 -dates` writes it (without the zone),
/// such as `Jan  1 00:00:00 2024`, with `chrono`.
#[verifier::external_body]
fn parse_openssl_timestamp(s: &str) -> (r: Option<i64>)
    ensures
        r == openssl_date_secs(s@),
{
    chrono::NaiveDateTime::parse_from_str(s, "%b %e %H:%M:%S %Y").ok().map(|dt| dt.and_utc().timestamp())
}

/// The first line that starts with `p`.
pub open spec fn line_with(ls: Seq<Seq<char>>, p: Seq<char>) -> Option<Seq<char>>
    decreases ls.len(),
{
    if ls.len() == 0 {
        None
    } else if starts_with(ls[0], p) {
        Some(ls[0])
    } else {
        line_with(ls.drop_first(), p)
    }
}

/// The date on the first line of `output` that starts with `p`.
pub open spec fn openssl_field(output: Seq<char>, p: Seq<char>) -> Option<i64> {
    match line_with(lines(output), p) {
        Some(l) => openssl_date_secs(trim_end_matches(trim(l.subrange(p.len() as int, l.len() as int)), " GMT"@)),
        None => None,
    }
}

fn field_date(ls: &Vec<Vec<char>>, p: &str) -> (r: Option<i64>)
    ensures
        r == match line_with(views(ls@), p@) {
            Some(l) => openssl_date_secs(trim_end_matches(trim(l.subrange(p@.len() as int, l.len() as int)), " GMT"@)),
            None => None,
        },
{
    let pc = chars_of(p);
    let ghost all = views(ls@);
    let mut i: usize = 0;
    assert(all.skip(0) =~= all);
    while i < ls.len()
        invariant
            i <= ls@.len(),
            all == views(ls@),
            pc@ == p@,
            line_with(all.skip(i as int), p@) == line_with(all, p@),
        decreases ls@.len() - i,
    {
        proof {
            assert(all.skip(i as int)[0] == all[i as int]);
            assert(all.skip(i as int).drop_first() =~= all.skip(i + 1));
        }
        let l = &ls[i];
        if starts_with_exec(l.as_slice(), pc.as_slice()) {
            let rest = crate::text::slice_chars(l.as_slice(), pc.len(), l.len());
            let t = trim_chars(&rest);
            let d = trim_end_matches_exec(&t, &chars_of(" GMT"));
            let text = crate::text::string_of(&d);
            return parse_openssl_timestamp(text.as_str());
        }
        i += 1;
    }
    proof {
        assert(all.skip(i as int) =~= Seq::<Seq<char>>::empty());
    }
    None
}

/// Microseconds in a day.
pub const MICROS_PER_DAY: i128 = 86_400_000_000i128;

/// What `openssl` reported of `domain`'s certificate, judged at
/// `now_micros` (microseconds since the epoch): the days left are rounded
/// toward zero, and the certificate is valid when `now` lies strictly
/// between its two dates.
pub open spec fn certificate_of(output: Seq<char>, now_micros: int) -> (Option<i64>, Option<i64>, Option<int>, bool) {
    let from = openssl_field(output, "notBefore="@);
    let until = openssl_field(output, "notAfter="@);
    (
        from,
        until,
        match until {
            Some(u) => Some(div_trunc(u * 1_000_000 - now_micros, 86_400_000_000)),
            None => None,
        },
        (match until {
            Some(u) => u * 1_000_000 > now_micros,
            None => false,
        }) && (match from {
            Some(f) => f * 1_000_000 < now_micros,
            None => false,
        }),
    )
}

impl CertificateInfo {
    /// The dates, the days left and the validity.
    pub open spec fn judged(&self) -> (Option<i64>, Option<i64>, Option<int>, bool) {
        (self.valid_from, self.valid_until, match self.days_remaining {
            Some(d) => Some(d as int),
            None => None,
        }, self.is_valid)
    }
}

/// Reads the output of `openssl x509 -noout -dates` for `domain`.
pub fn certificate_from_openssl(domain: &str, output: &str, now_micros: i64) -> (r: CertificateInfo)
    ensures
        r.domain@ == domain@,
        r.judged() == certificate_of(output@, now_micros as int),
{
    let ls = split_lines(&chars_of(output));
    let valid_from = field_date(&ls, "notBefore=");
    let valid_until = field_date(&ls, "notAfter=");
    let now = now_micros as i128;
    let days_remaining = match valid_until {
        Some(u) => {
            let diff: i128 = (u as i128) * 1_000_000i128 - now;
            let d = crate::storage::div_i128(diff, MICROS_PER_DAY);
            proof {
                assert(-0x1_0000_0000_0000 <= d <= 0x1_0000_0000_0000);
            }
            Some(d as i64)
        },
        None => None,
    };
    let until_ok = match valid_until {
        Some(u) => (u as i128) * 1_000_000i128 > now,
        None => false,
    };
    let from_ok = match valid_from {
        Some(f) => (f as i128) * 1_000_000i128 < now,
        None => false,
    };
    CertificateInfo { domain: owned(domain), valid_from, valid_until, days_remaining, is_valid: until_ok && from_ok }
}

} // verus!
