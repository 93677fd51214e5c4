//! The program's own version, and what a GitHub release says about updates.

use vstd::prelude::*;
use crate::text::{chars_of, contains, opt_view, owned, str_contains, string_of, trim_start_matches, trim_start_matches_exec};

verus! {

/// This program's version.
pub const CURRENT_VERSION: &'static str = "0.12.0";

/// Where the program's releases are published.
pub const REPO_URL: &'static str = "https://github.com/Zorglub4242/Igra-mgt";

/// The GitHub API address of the latest release.
pub const GITHUB_API_URL: &'static str = "https://api.github.com/repos/Zorglub4242/Igra-mgt/releases/latest";

/// What is known of the current and the latest version.
#[derive(Debug)]
pub struct VersionInfo {
    pub current_version: String,
    pub latest_version: Option<String>,
    pub update_available: bool,
    pub release_url: Option<String>,
    pub release_notes: Option<String>,
    pub published_at: Option<String>,
    pub download_url: Option<String>,
}

pub struct VersionInfoView {
    pub current_version: Seq<char>,
    pub latest_version: Option<Seq<char>>,
    pub update_available: bool,
    pub release_url: Option<Seq<char>>,
    pub release_notes: Option<Seq<char>>,
    pub published_at: Option<Seq<char>>,
    pub download_url: Option<Seq<char>>,
}

impl View for VersionInfo {
    type V = VersionInfoView;

    open spec fn view(&self) -> VersionInfoView {
        VersionInfoView {
            current_version: self.current_version@,
            latest_version: opt_view(self.latest_version),
            update_available: self.update_available,
            release_url: opt_view(self.release_url),
            release_notes: opt_view(self.release_notes),
            published_at: opt_view(self.published_at),
            download_url: opt_view(self.download_url),
        }
    }
}

/// One downloadable file of a release.
#[derive(Debug)]
pub struct GitHubAsset {
    pub name: String,
    pub browser_download_url: String,
}

/// The parts of a GitHub release that matter here.
#[derive(Debug)]
pub struct GitHubRelease {
    pub tag_name: String,
    pub body: Option<String>,
    pub html_url: String,
    pub published_at: String,
    pub assets: Vec<GitHubAsset>,
}

/// Why a release could not be read.
#[derive(Debug, Clone, Copy, PartialEq, Eq, Structural)]
pub enum UpdateError {
    /// The release tag is no semantic version.
    InvalidLatestVersion,
}

/// Compares the semantic versions `latest` and `current` as the `semver`
/// crate parses and orders them: whether `latest` is the later one, and
/// `latest` written back out; `None` when either is no version.
pub uninterp spec fn semver_newer_of(latest: Seq<char>, current: Seq<char>) -> Option<(bool, Seq<char>)>;

/// `semver::Version::parse` of both texts, `>` between them and the
/// `Display` text of `latest`: the result is named `semver_newer_of`.
#[verifier::external_body]
fn semver_newer(latest: &str, current: &str) -> (r: Option<(bool, String)>)
    ensures
        match r {
            Some(p) => semver_newer_of(latest@, current@) == Some((p.0, p.1@)),
            None => semver_newer_of(latest@, current@) is None,
        },
{
    let l = semver::Version::parse(latest).ok()?;
    let c = semver::Version::parse(current).ok()?;
    Some((l > c, l.to_string()))
}

/// The releases page.
pub open spec fn releases_page() -> Seq<char> {
    "https://github.com/Zorglub4242/Igra-mgt"@ + "/releases"@
}

/// The version information when nothing newer is known.
pub open spec fn current_only() -> VersionInfoView {
    VersionInfoView {
        current_version: "0.12.0"@,
        latest_version: None,
        update_available: false,
        release_url: Some(releases_page()),
        release_notes: None,
        published_at: None,
        download_url: None,
    }
}

/// The download address of the first asset whose name mentions `linux-x86_64`.
pub open spec fn linux_download(assets: Seq<GitHubAsset>) -> Option<Seq<char>>
    decreases assets.len(),
{
    if assets.len() == 0 {
        None
    } else if contains(assets[0].name@, "linux-x86_64"@) {
        Some(assets[0].browser_download_url@)
    } else {
        linux_download(assets.drop_first())
    }
}

/// What a release says: the tag without leading `v`s must be a version;
/// an update is available when it is later than the current version.
pub open spec fn release_info(r: GitHubRelease) -> Result<VersionInfoView, UpdateError> {
    match semver_newer_of(trim_start_matches(r.tag_name@, "v"@), "0.12.0"@) {
        None => Err(UpdateError::InvalidLatestVersion),
        Some((newer, text)) => Ok(
            VersionInfoView {
                current_version: "0.12.0"@,
                latest_version: Some(text),
                update_available: newer,
                release_url: Some(r.html_url@),
                release_notes: opt_view(r.body),
                published_at: Some(r.published_at@),
                download_url: linux_download(r.assets@),
            },
        ),
    }
}

/// The current version, without asking GitHub.
pub fn get_current_version() -> (r: VersionInfo)
    ensures
        r@ == current_only(),
{
    let mut url: Vec<char> = chars_of(REPO_URL);
    crate::text::push_str(&mut url, "/releases");
    VersionInfo {
        current_version: owned(CURRENT_VERSION),
        latest_version: None,
        update_available: false,
        release_url: Some(string_of(&url)),
        release_notes: None,
        published_at: None,
        download_url: None,
    }
}

/// What the latest GitHub release says about updates (see `release_info`).
pub fn version_info_from_release(release: &GitHubRelease) -> (r: Result<VersionInfo, UpdateError>)
    ensures
        match r {
            Ok(v) => release_info(*release) == Ok::<VersionInfoView, UpdateError>(v@),
            Err(e) => release_info(*release) == Err::<VersionInfoView, UpdateError>(e),
        },
{
    let tag = trim_start_matches_exec(&chars_of(release.tag_name.as_str()), &['v']);
    assert(['v']@ =~= "v"@) by {
        reveal_strlit("v");
    }
    let tag_s = string_of(&tag);
    match semver_newer(tag_s.as_str(), CURRENT_VERSION) {
        None => Err(UpdateError::InvalidLatestVersion),
        Some((newer, text)) => {
            let mut download: Option<String> = None;
            let mut i: usize = 0;
            assert(release.assets@.skip(0) =~= release.assets@);
            while i < release.assets.len()
                invariant_except_break
                    i <= release.assets@.len(),
                    download is None,
                    linux_download(release.assets@.skip(i as int)) == linux_download(release.assets@),
                ensures
                    opt_view(download) == linux_download(release.assets@),
                decreases release.assets@.len() - i,
            {
                let ghost rest = release.assets@.skip(i as int);
                assert(rest[0] == release.assets@[i as int]);
                if str_contains(release.assets[i].name.as_str(), "linux-x86_64") {
                    download = Some(release.assets[i].browser_download_url.clone());
                    break;
                }
                assert(rest.drop_first() =~= release.assets@.skip(i + 1));
                i += 1;
                proof {
                    if i == release.assets@.len() {
                        assert(release.assets@.skip(i as int) =~= Seq::<GitHubAsset>::empty());
                    }
                }
            }
            Ok(
                VersionInfo {
                    current_version: owned(CURRENT_VERSION),
                    latest_version: Some(text),
                    update_available: newer,
                    release_url: Some(release.html_url.clone()),
                    release_notes: match &release.body {
                        Some(b) => Some(b.clone()),
                        None => None,
                    },
                    published_at: Some(release.published_at.clone()),
                    download_url: download,
                },
            )
        },
    }
}

} // verus!
