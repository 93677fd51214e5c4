//! The command line: its commands, and the decisions the command handlers
//! make before they talk to Docker, the RPC endpoints or the terminal.

use vstd::prelude::*;
use crate::text::{contains, decimal, owned, push_decimal, push_str, str_contains, string_of, opt_view};

verus! {

/// The parsed command line: a command, or none for the interactive
/// dashboard.
#[derive(Debug)]
pub struct Cli {
    pub command: Option<Commands>,
}

/// The top-level commands.
#[derive(Debug)]
pub enum Commands {
    /// Show service status, filtered by profile, status, project or name.
    Status {
        profiles: Option<String>,
        status: Option<String>,
        project: Option<String>,
        name: Option<String>,
        all: bool,
    },
    /// Start a profile or a service.
    Start { profile: Option<String>, service: Option<String> },
    /// Stop all services or one.
    Stop { all: bool, service: Option<String> },
    /// Restart a service.
    Restart { service: String },
    /// View a service's logs.
    Logs { service: String, follow: bool, tail: usize },
    /// RPC management.
    Rpc { command: RpcCommands },
    /// Wallet management.
    Wallet { command: WalletCommands },
    /// Backup operations.
    Backup { command: BackupCommands },
    /// Configuration management.
    Config { command: ConfigCommands },
    /// Resource monitoring.
    Monitor,
    /// Health check report.
    Health,
    /// Check for, pull or apply updates.
    Upgrade { check: bool, pull: bool, apply: bool },
    /// Run diagnostics.
    Diag { report: bool },
    /// Run the setup wizard.
    Setup,
    /// Watch L2 transactions.
    Watch { filter: String, record: Option<String>, format: String },
    /// Run the HTTP API server.
    Serve {
        port: u16,
        host: String,
        cors: bool,
        tls_cert: Option<String>,
        tls_key: Option<String>,
    },
    /// Install the web UI as a systemd service.
    InstallService { port: u16, host: String, cors: bool, user: Option<String> },
    /// User management.
    User { command: UserCommands },
    /// Security management.
    Security { command: SecurityCommands },
    /// Audit logs.
    Audit { command: AuditCommands },
}

/// RPC commands.
#[derive(Debug)]
pub enum RpcCommands {
    /// Token management (listing where no subcommand is given).
    Tokens { command: Option<TokenCommands> },
    /// Test the endpoints with a token (the first one set where none is
    /// given).
    TestEndpoint { token: Option<usize> },
}

/// RPC token commands.
#[derive(Debug)]
pub enum TokenCommands {
    List,
    Generate,
    Test { token_number: usize },
}

/// Wallet commands.
#[derive(Debug)]
pub enum WalletCommands {
    List,
    Balance { worker_id: usize },
    Generate { worker_id: usize },
}

/// Backup commands.
#[derive(Debug)]
pub enum BackupCommands {
    Create { service: String },
    List,
    Restore { service: String, file: String },
}

/// Configuration commands.
#[derive(Debug)]
pub enum ConfigCommands {
    View,
    Edit,
    Validate,
    GenerateTokens,
}

/// User management commands.
#[derive(Debug)]
pub enum UserCommands {
    List,
    Add { username: String, password: Option<String>, roles: String },
    Remove { username: String },
    ResetPassword { username: String, password: Option<String> },
    SetEnabled { username: String, enabled: bool },
    Show { username: String },
}

/// Security commands.
#[derive(Debug)]
pub enum SecurityCommands {
    Ip { command: IpCommands },
    Show,
}

/// IP allowlist commands.
#[derive(Debug)]
pub enum IpCommands {
    List,
    Add { network: String },
    Remove { network: String },
    Test { ip: String },
}

/// Audit log commands.
#[derive(Debug)]
pub enum AuditCommands {
    Show { limit: usize },
    Export { output: String },
    Clear { confirm: bool },
}

/// The version line: the package version and when it was built.
pub open spec fn version_text(build_timestamp: Seq<char>) -> Seq<char> {
    "0.12.0 (built: "@ + build_timestamp + ")"@
}

/// The version shown by `--version`.
pub fn get_version(build_timestamp: &str) -> (r: String)
    ensures
        r@ == version_text(build_timestamp@),
{
    let mut out: Vec<char> = Vec::new();
    push_str(&mut out, "0.12.0 (built: ");
    push_str(&mut out, build_timestamp);
    push_str(&mut out, ")");
    string_of(&out)
}

/// `n` in decimal, at least two digits wide.
pub open spec fn two_digits(n: nat) -> Seq<char> {
    if n < 10 {
        "0"@ + decimal(n)
    } else {
        decimal(n)
    }
}

/// How many bytes UTF-8 takes for `c`.
pub open spec fn char_utf8_len(c: char) -> nat {
    if (c as u32) < 0x80 {
        1
    } else if (c as u32) < 0x800 {
        2
    } else if (c as u32) < 0x10000 {
        3
    } else {
        4
    }
}

/// How many bytes UTF-8 takes for `s`.
pub open spec fn utf8_len(s: Seq<char>) -> nat
    decreases s.len(),
{
    if s.len() == 0 {
        0
    } else {
        utf8_len(s.drop_last()) + char_utf8_len(s.last())
    }
}

/// The first eight bytes of `t` end between two characters.
pub open spec fn has_byte_head(t: Seq<char>) -> bool {
    exists|i: int| 0 <= i <= t.len() && #[trigger] utf8_len(t.take(i)) == 8
}

/// The last eight bytes of `t` start between two characters.
pub open spec fn has_byte_tail(t: Seq<char>) -> bool {
    exists|j: int| 0 <= j <= t.len() && #[trigger] utf8_len(t.subrange(j, t.len() as int)) == 8
}

/// The characters of the first eight bytes of `t`.
pub open spec fn byte_head(t: Seq<char>) -> Seq<char> {
    let i = choose|i: int| 0 <= i <= t.len() && #[trigger] utf8_len(t.take(i)) == 8;
    t.take(i)
}

/// The characters of the last eight bytes of `t`.
pub open spec fn byte_tail(t: Seq<char>) -> Seq<char> {
    let j = choose|j: int| 0 <= j <= t.len() && #[trigger] utf8_len(t.subrange(j, t.len() as int)) == 8;
    t.subrange(j, t.len() as int)
}

/// How a token is listed: its index, and its first and last eight
/// bytes, or `<not set>`.
pub open spec fn token_line_text(index: nat, token: Option<Seq<char>>) -> Seq<char> {
    match token {
        Some(t) => "TOKEN_"@ + two_digits(index) + ": "@ + byte_head(t) + "..."@ + byte_tail(t),
        None => "TOKEN_"@ + two_digits(index) + ": <not set>"@,
    }
}

proof fn lemma_utf8_len_concat(a: Seq<char>, b: Seq<char>)
    ensures
        utf8_len(a + b) == utf8_len(a) + utf8_len(b),
    decreases b.len(),
{
    if b.len() > 0 {
        assert((a + b).drop_last() =~= a + b.drop_last());
        assert((a + b).last() == b.last());
        lemma_utf8_len_concat(a, b.drop_last());
    } else {
        assert(a + b =~= a);
    }
}

proof fn lemma_utf8_len_single(x: char)
    ensures
        utf8_len(seq![x]) == char_utf8_len(x),
{
    assert(seq![x].drop_last() =~= Seq::<char>::empty());
    assert(utf8_len(Seq::<char>::empty()) == 0);
}

proof fn lemma_utf8_len_at_least(s: Seq<char>)
    ensures
        utf8_len(s) >= s.len(),
    decreases s.len(),
{
    if s.len() > 0 {
        lemma_utf8_len_at_least(s.drop_last());
    }
}

/// Longer prefixes take more bytes.
proof fn lemma_prefix_grows(s: Seq<char>, i: int, k: int)
    requires
        0 <= i < k <= s.len(),
    ensures
        utf8_len(s.take(i)) < utf8_len(s.take(k)),
{
    assert(s.take(k) =~= s.take(i) + s.subrange(i, k));
    lemma_utf8_len_concat(s.take(i), s.subrange(i, k));
    lemma_utf8_len_at_least(s.subrange(i, k));
}

/// Longer suffixes take more bytes.
proof fn lemma_suffix_grows(s: Seq<char>, k: int, j: int)
    requires
        0 <= k < j <= s.len(),
    ensures
        utf8_len(s.subrange(j, s.len() as int)) < utf8_len(s.subrange(k, s.len() as int)),
{
    assert(s.subrange(k, s.len() as int) =~= s.subrange(k, j) + s.subrange(j, s.len() as int));
    lemma_utf8_len_concat(s.subrange(k, j), s.subrange(j, s.len() as int));
    lemma_utf8_len_at_least(s.subrange(k, j));
}

/// The UTF-8 length of one character.
fn char_utf8_len_exec(c: char) -> (r: usize)
    ensures
        r == char_utf8_len(c),
{
    let u = c as u32;
    if u < 0x80 {
        1
    } else if u < 0x800 {
        2
    } else if u < 0x10000 {
        3
    } else {
        4
    }
}

/// The number of leading characters of `c` that make up its first eight bytes.
fn head_cut(c: &Vec<char>) -> (r: usize)
    requires
        has_byte_head(c@),
    ensures
        r <= c@.len(),
        c@.take(r as int) == byte_head(c@),
{
    let mut k: usize = 0;
    let mut sum: usize = 0;
    while sum < 8 && k < c.len()
        invariant
            k <= c@.len(),
            sum == utf8_len(c@.take(k as int)),
            k > 0 ==> utf8_len(c@.take(k - 1)) < 8,
            sum < 12,
        decreases c@.len() - k,
    {
        proof {
            assert(c@.take(k + 1).drop_last() =~= c@.take(k as int));
        }
        sum = sum + char_utf8_len_exec(c[k]);
        k = k + 1;
    }
    proof {
        let i = choose|i: int| 0 <= i <= c@.len() && #[trigger] utf8_len(c@.take(i)) == 8;
        if i < k {
            if i < k - 1 {
                lemma_prefix_grows(c@, i, k - 1);
            }
            assert(false);
        } else if k < i {
            lemma_prefix_grows(c@, k as int, i);
            assert(false);
        }
        assert(i == k);
    }
    k
}

/// The index of the first character of the last eight bytes of `c`.
fn tail_cut(c: &Vec<char>) -> (r: usize)
    requires
        has_byte_tail(c@),
    ensures
        r <= c@.len(),
        c@.subrange(r as int, c@.len() as int) == byte_tail(c@),
{
    let n = c.len();
    let mut k: usize = n;
    let mut sum: usize = 0;
    proof {
        assert(c@.subrange(n as int, n as int) =~= Seq::<char>::empty());
    }
    while sum < 8 && k > 0
        invariant
            k <= n == c@.len(),
            sum == utf8_len(c@.subrange(k as int, n as int)),
            k < n ==> utf8_len(c@.subrange(k + 1, n as int)) < 8,
            sum < 12,
        decreases k,
    {
        proof {
            assert(c@.subrange(k - 1, n as int) =~= seq![c@[k - 1]] + c@.subrange(k as int, n as int));
            lemma_utf8_len_concat(seq![c@[k - 1]], c@.subrange(k as int, n as int));
            lemma_utf8_len_single(c@[k - 1]);
        }
        sum = sum + char_utf8_len_exec(c[k - 1]);
        k = k - 1;
    }
    proof {
        let j = choose|j: int| 0 <= j <= c@.len() && #[trigger] utf8_len(c@.subrange(j, c@.len() as int)) == 8;
        if j > k {
            if j > k + 1 {
                lemma_suffix_grows(c@, k + 1, j);
            }
            assert(false);
        } else if j < k {
            lemma_suffix_grows(c@, j, k as int);
            assert(false);
        }
        assert(j == k);
    }
    k
}

/// The listing line of one RPC token: its first and last eight bytes, which
/// must each end or start between two characters.
pub fn token_line(index: usize, token: Option<&str>) -> (r: String)
    requires
        token matches Some(t) ==> has_byte_head(t@) && has_byte_tail(t@),
    ensures
        r@ == token_line_text(index as nat, match token {
            Some(t) => Some(t@),
            None => None,
        }),
{
    let mut out: Vec<char> = Vec::new();
    push_str(&mut out, "TOKEN_");
    if index < 10 {
        push_str(&mut out, "0");
    }
    push_decimal(&mut out, index as u64);
    match token {
        Some(t) => {
            let c = crate::text::chars_of(t);
            let n = c.len();
            push_str(&mut out, ": ");
            let h = head_cut(&c);
            let j = tail_cut(&c);
            let head = crate::text::slice_chars(&c, 0, h);
            let tail = crate::text::slice_chars(&c, j, n);
            proof {
                assert(head@ =~= c@.take(h as int));
            }
            crate::text::push_chars(&mut out, &head);
            push_str(&mut out, "...");
            crate::text::push_chars(&mut out, &tail);
            proof {
                assert(out@ =~= token_line_text(index as nat, Some(t@)));
            }
        },
        None => {
            push_str(&mut out, ": <not set>");
            proof {
                assert(out@ =~= token_line_text(index as nat, None));
            }
        },
    }
    string_of(&out)
}

/// Why an RPC command could not go on.
#[derive(Debug, Clone, PartialEq, Eq)]
pub enum CliError {
    /// `IGRA_ORCHESTRA_DOMAIN` is not in the configuration.
    DomainNotSet,
    /// No token has the given number.
    InvalidTokenNumber,
    /// The token with the given number has no value.
    TokenNotSet(usize),
    /// The token with the given number is absent or has no value.
    TokenNotFound(usize),
    /// No token has a value.
    NoTokens,
}

impl CliError {
    /// The message shown for the error.
    pub fn message(&self) -> (r: String)
        ensures
            r@ == match *self {
                CliError::DomainNotSet => "IGRA_ORCHESTRA_DOMAIN not set in .env"@,
                CliError::InvalidTokenNumber => "Invalid token number"@,
                CliError::TokenNotSet(n) => "Token "@ + decimal(n as nat) + " is not set"@,
                CliError::TokenNotFound(n) => "Token "@ + decimal(n as nat) + " not found"@,
                CliError::NoTokens => "No RPC tokens configured"@,
            },
    {
        match self {
            CliError::DomainNotSet => owned("IGRA_ORCHESTRA_DOMAIN not set in .env"),
            CliError::InvalidTokenNumber => owned("Invalid token number"),
            CliError::TokenNotSet(n) => {
                let mut out: Vec<char> = Vec::new();
                push_str(&mut out, "Token ");
                push_decimal(&mut out, *n as u64);
                push_str(&mut out, " is not set");
                string_of(&out)
            },
            CliError::TokenNotFound(n) => {
                let mut out: Vec<char> = Vec::new();
                push_str(&mut out, "Token ");
                push_decimal(&mut out, *n as u64);
                push_str(&mut out, " not found");
                string_of(&out)
            },
            CliError::NoTokens => owned("No RPC tokens configured"),
        }
    }
}

/// The tokens as numbers and text.
pub open spec fn token_views(tokens: Seq<(usize, Option<String>)>) -> Seq<(usize, Option<Seq<char>>)> {
    tokens.map_values(|t: (usize, Option<String>)| (t.0, opt_view(t.1)))
}

/// The value of the first entry numbered `n`: `None` where no entry has
/// that number.
pub open spec fn token_numbered(tokens: Seq<(usize, Option<Seq<char>>)>, n: usize) -> Option<Option<Seq<char>>>
    decreases tokens.len(),
{
    if tokens.len() == 0 {
        None
    } else if tokens[0].0 == n {
        Some(tokens[0].1)
    } else {
        token_numbered(tokens.drop_first(), n)
    }
}

/// The first value that is set.
pub open spec fn first_set_token(tokens: Seq<(usize, Option<Seq<char>>)>) -> Option<Seq<char>>
    decreases tokens.len(),
{
    if tokens.len() == 0 {
        None
    } else if tokens[0].1 is Some {
        tokens[0].1
    } else {
        first_set_token(tokens.drop_first())
    }
}

fn lookup_token(tokens: &Vec<(usize, Option<String>)>, n: usize) -> (r: Option<Option<String>>)
    ensures
        match r {
            Some(v) => token_numbered(token_views(tokens@), n) == Some(opt_view(v)),
            None => token_numbered(token_views(tokens@), n) is None,
        },
{
    let ghost all = token_views(tokens@);
    let mut i: usize = 0;
    assert(all.skip(0) =~= all);
    while i < tokens.len()
        invariant
            i <= tokens@.len(),
            all == token_views(tokens@),
            token_numbered(all.skip(i as int), n) == token_numbered(all, n),
        decreases tokens@.len() - i,
    {
        proof {
            assert(all.skip(i as int)[0] == all[i as int]);
            assert(all.skip(i as int).drop_first() =~= all.skip(i + 1));
        }
        if tokens[i].0 == n {
            let v = match &tokens[i].1 {
                Some(t) => Some(t.clone()),
                None => None,
            };
            return Some(v);
        }
        i += 1;
    }
    proof {
        assert(all.skip(i as int) =~= Seq::<(usize, Option<Seq<char>>)>::empty());
    }
    None
}

/// The token that `rpc tokens test` uses: the one numbered
/// `token_number`, which must be set.
pub fn token_to_test(tokens: &Vec<(usize, Option<String>)>, token_number: usize) -> (r: Result<String, CliError>)
    ensures
        match token_numbered(token_views(tokens@), token_number) {
            None => r == Err::<String, CliError>(CliError::InvalidTokenNumber),
            Some(None) => r == Err::<String, CliError>(CliError::TokenNotSet(token_number)),
            Some(Some(t)) => r matches Ok(s) && s@ == t,
        },
{
    match lookup_token(tokens, token_number) {
        None => Err(CliError::InvalidTokenNumber),
        Some(None) => Err(CliError::TokenNotSet(token_number)),
        Some(Some(t)) => Ok(t),
    }
}

/// The token that `rpc test-endpoint` uses: the one numbered `token`,
/// which must be set, or else the first one that is set.
pub fn endpoint_test_token(tokens: &Vec<(usize, Option<String>)>, token: Option<usize>) -> (r: Result<String, CliError>)
    ensures
        token matches Some(n) ==> match token_numbered(token_views(tokens@), n) {
            Some(Some(t)) => r matches Ok(s) && s@ == t,
            _ => r == Err::<String, CliError>(CliError::TokenNotFound(n)),
        },
        token is None ==> match first_set_token(token_views(tokens@)) {
            Some(t) => r matches Ok(s) && s@ == t,
            None => r == Err::<String, CliError>(CliError::NoTokens),
        },
{
    match token {
        Some(n) => match lookup_token(tokens, n) {
            Some(Some(t)) => Ok(t),
            _ => Err(CliError::TokenNotFound(n)),
        },
        None => {
            let ghost all = token_views(tokens@);
            let mut i: usize = 0;
            assert(all.skip(0) =~= all);
            while i < tokens.len()
                invariant
                    i <= tokens@.len(),
                    all == token_views(tokens@),
                    first_set_token(all.skip(i as int)) == first_set_token(all),
                    token is None,
                decreases tokens@.len() - i,
            {
                proof {
                    assert(all.skip(i as int)[0] == all[i as int]);
                    assert(all.skip(i as int).drop_first() =~= all.skip(i + 1));
                }
                match &tokens[i].1 {
                    Some(t) => {
                        let c = t.clone();
                        proof {
                            let rest = all.skip(i as int);
                            assert(rest[0] == all[i as int]);
                            assert(all[i as int].1 == Some(t@));
                            assert(first_set_token(rest) == Some(t@));
                            assert(c@ == t@);
                        }
                        return Ok(c);
                    },
                    None => {},
                }
                i += 1;
            }
            proof {
                assert(all.skip(i as int) =~= Seq::<(usize, Option<Seq<char>>)>::empty());
            }
            Err(CliError::NoTokens)
        },
    }
}

/// Whether a configuration key names a secret.
pub open spec fn is_secret_key(key: Seq<char>) -> bool {
    contains(key, "PASSWORD"@) || contains(key, "SECRET"@) || contains(key, "KEY"@)
}

/// The value `config view` shows: secrets are masked.
pub fn displayed_config_value(key: &str, value: &str) -> (r: String)
    ensures
        r@ == (if is_secret_key(key@) { "****"@ } else { value@ }),
{
    if str_contains(key, "PASSWORD") || str_contains(key, "SECRET") || str_contains(key, "KEY") {
        owned("****")
    } else {
        owned(value)
    }
}

/// What `start` acts on.
#[derive(Debug, PartialEq, Eq)]
pub enum StartTarget {
    Profile(String),
    Service(String),
    /// Neither a profile nor a service was given.
    Missing,
}

/// A profile when one is given, else a service when one is given.
pub fn start_target(profile: Option<String>, service: Option<String>) -> (r: StartTarget)
    ensures
        match profile {
            Some(p) => r matches StartTarget::Profile(x) && x@ == p@,
            None => match service {
                Some(s) => r matches StartTarget::Service(x) && x@ == s@,
                None => r is Missing,
            },
        },
{
    match profile {
        Some(p) => StartTarget::Profile(p),
        None => match service {
            Some(s) => StartTarget::Service(s),
            None => StartTarget::Missing,
        },
    }
}

/// What `stop` acts on.
#[derive(Debug, PartialEq, Eq)]
pub enum StopTarget {
    All,
    Service(String),
    /// Neither `--all` nor a service was given.
    Missing,
}

/// Everything when `--all` is given, else a service when one is given.
pub fn stop_target(all: bool, service: Option<String>) -> (r: StopTarget)
    ensures
        all ==> r is All,
        !all ==> match service {
            Some(s) => r matches StopTarget::Service(x) && x@ == s@,
            None => r is Missing,
        },
{
    if all {
        StopTarget::All
    } else {
        match service {
            Some(s) => StopTarget::Service(s),
            None => StopTarget::Missing,
        }
    }
}

/// What `upgrade` does.
#[derive(Debug, Clone, Copy, PartialEq, Eq)]
pub enum UpgradeMode {
    Check,
    Pull,
    Apply,
    /// No flag was given.
    Unspecified,
}

/// The first of `--check`, `--pull` and `--apply` that is given.
pub fn upgrade_mode(check: bool, pull: bool, apply: bool) -> (r: UpgradeMode)
    ensures
        r == (if check {
            UpgradeMode::Check
        } else if pull {
            UpgradeMode::Pull
        } else if apply {
            UpgradeMode::Apply
        } else {
            UpgradeMode::Unspecified
        }),
{
    if check {
        UpgradeMode::Check
    } else if pull {
        UpgradeMode::Pull
    } else if apply {
        UpgradeMode::Apply
    } else {
        UpgradeMode::Unspecified
    }
}

} // verus!
