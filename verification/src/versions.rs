//! Versions of the node's images: which upstream each image follows, which
//! published tag counts as the latest, and when an update is due.

use vstd::prelude::*;
use crate::text::{chars_of, lemma_split_nonempty, opt_view, owned, split, split_on, str_eq,
    string_of, views};

verus! {

/// An image's running tag against the latest published one.
#[derive(Debug, Clone)]
pub struct ImageVersion {
    pub current: String,
    pub latest: Option<String>,
    pub update_available: bool,
}

/// Where the latest version of an image is published.
#[derive(Debug, Clone, Copy, PartialEq, Eq)]
pub enum VersionSource {
    /// The latest release of a GitHub repository.
    GitHubRelease(&'static str),
    /// The tags of a Docker Hub repository.
    DockerHubTags(&'static str),
    /// Nowhere that is checked.
    Unknown,
}

/// The image's name: its last path segment, without a tag.
pub open spec fn image_name_of(image: Seq<char>) -> Seq<char> {
    split(split(image, '/').last(), ':')[0]
}

/// The name of an image reference such as `igranetwork/viaduct:1.2`.
pub fn image_name(image: &str) -> (r: String)
    ensures
        r@ == image_name_of(image@),
{
    let parts = split_on(&chars_of(image), '/');
    proof {
        lemma_split_nonempty(image@, '/');
    }
    let last = &parts[parts.len() - 1];
    proof {
        assert(last@ == views(parts@)[parts@.len() - 1]);
    }
    let pieces = split_on(last.as_slice(), ':');
    proof {
        lemma_split_nonempty(last@, ':');
        assert(pieces@[0]@ == views(pieces@)[0]);
    }
    string_of(pieces[0].as_slice())
}

/// The name and tag of a running image: its last path segment, cut at the
/// first `:`; the tag is `latest` where there is no `:`.
pub open spec fn image_and_tag_of(image: Seq<char>) -> (Seq<char>, Seq<char>) {
    let last = split(image, '/').last();
    let j = crate::text::find_char_from(last, ':', 0);
    if j < last.len() {
        (last.subrange(0, j), last.subrange(j + 1, last.len() as int))
    } else {
        (last, "latest"@)
    }
}

/// The name and tag of a running image, as the version check keys them.
pub fn image_and_tag(image: &str) -> (r: (String, String))
    ensures
        (r.0@, r.1@) == image_and_tag_of(image@),
{
    let parts = split_on(&chars_of(image), '/');
    proof {
        lemma_split_nonempty(image@, '/');
    }
    let last = &parts[parts.len() - 1];
    proof {
        assert(last@ == views(parts@)[parts@.len() - 1]);
    }
    let j = crate::text::find_char_exec(last.as_slice(), ':', 0);
    proof {
        crate::text::lemma_find_char_bounds(last@, ':', 0);
    }
    if j < last.len() {
        let name = crate::text::slice_chars(last.as_slice(), 0, j);
        let tag = crate::text::slice_chars(last.as_slice(), j + 1, last.len());
        (string_of(name.as_slice()), string_of(tag.as_slice()))
    } else {
        (string_of(last.as_slice()), owned("latest"))
    }
}

/// The upstream that each known image follows.
pub open spec fn version_source_of(name: Seq<char>) -> VersionSource {
    if name == "kaspad"@ || name == "rusty-kaspa"@ {
        VersionSource::GitHubRelease("kaspanet/rusty-kaspa")
    } else if name == "execution-layer"@ || name == "reth"@ {
        VersionSource::GitHubRelease("paradigmxyz/reth")
    } else if name == "block-builder"@ {
        VersionSource::DockerHubTags("igranetwork/block-builder")
    } else if name == "viaduct"@ {
        VersionSource::DockerHubTags("igranetwork/viaduct")
    } else if name == "rpc-provider"@ {
        VersionSource::DockerHubTags("igranetwork/rpc-provider")
    } else if name == "kaswallet"@ {
        VersionSource::DockerHubTags("igranetwork/kaswallet")
    } else {
        VersionSource::Unknown
    }
}

/// Where to look up the latest version of the image named `name`.
pub fn version_source(name: &str) -> (r: VersionSource)
    ensures
        r == version_source_of(name@),
{
    if str_eq(name, "kaspad") || str_eq(name, "rusty-kaspa") {
        VersionSource::GitHubRelease("kaspanet/rusty-kaspa")
    } else if str_eq(name, "execution-layer") || str_eq(name, "reth") {
        VersionSource::GitHubRelease("paradigmxyz/reth")
    } else if str_eq(name, "block-builder") {
        VersionSource::DockerHubTags("igranetwork/block-builder")
    } else if str_eq(name, "viaduct") {
        VersionSource::DockerHubTags("igranetwork/viaduct")
    } else if str_eq(name, "rpc-provider") {
        VersionSource::DockerHubTags("igranetwork/rpc-provider")
    } else if str_eq(name, "kaswallet") {
        VersionSource::DockerHubTags("igranetwork/kaswallet")
    } else {
        VersionSource::Unknown
    }
}

/// What `char::is_numeric` returns for `c`.
pub uninterp spec fn numeric_char(c: char) -> bool;

/// `char::is_numeric`: whether `c` is in a Unicode number category. The
/// contract states its result on ASCII (the digits and nothing else); of
/// other characters it says only that the result is `numeric_char(c)`.
#[verifier::external_body]
fn is_numeric(c: char) -> (r: bool)
    ensures
        r == numeric_char(c),
        (c as u32) < 128 ==> (r <==> ('0' <= c && c <= '9')),
{
    c.is_numeric()
}

/// A tag that names a release: `v` followed by a numeric character.
pub open spec fn is_release_tag(tag: Seq<char>) -> bool {
    tag.len() >= 2 && tag[0] == 'v' && numeric_char(tag[1])
}

/// The first release tag of a list, or `latest` where there is none.
pub open spec fn latest_tag_of(tags: Seq<Seq<char>>) -> Seq<char>
    decreases tags.len(),
{
    if tags.len() == 0 {
        "latest"@
    } else if is_release_tag(tags[0]) {
        tags[0]
    } else {
        latest_tag_of(tags.drop_first())
    }
}

/// The latest version among a Docker Hub repository's tags, newest first.
pub fn latest_docker_hub_tag(tags: &Vec<String>) -> (r: String)
    ensures
        r@ == latest_tag_of(crate::text::string_views(tags@)),
{
    let ghost all = crate::text::string_views(tags@);
    let mut i: usize = 0;
    assert(all.skip(0) =~= all);
    while i < tags.len()
        invariant
            i <= tags@.len(),
            all == crate::text::string_views(tags@),
            latest_tag_of(all.skip(i as int)) == latest_tag_of(all),
        decreases tags@.len() - i,
    {
        let c = chars_of(tags[i].as_str());
        proof {
            assert(all.skip(i as int)[0] == all[i as int]);
            assert(all.skip(i as int).drop_first() =~= all.skip(i + 1));
        }
        if c.len() >= 2 && c[0] == 'v' && is_numeric(c[1]) {
            return tags[i].clone();
        }
        i += 1;
    }
    proof {
        assert(all.skip(i as int) =~= Seq::<Seq<char>>::empty());
    }
    owned("latest")
}

/// An update is due when the image does not follow `latest` and the latest
/// tag is known and differs.
pub open spec fn update_due(current: Seq<char>, latest: Option<Seq<char>>) -> bool {
    match latest {
        Some(l) => current != "latest"@ && current != l,
        None => false,
    }
}

impl ImageVersion {
    /// Compares a running tag with the latest one, if that could be found.
    pub fn new(current: String, latest: Option<String>) -> (r: ImageVersion)
        ensures
            r.current@ == current@,
            opt_view(r.latest) == opt_view(latest),
            r.update_available == update_due(current@, opt_view(latest)),
    {
        let update_available = match &latest {
            Some(l) => !str_eq(current.as_str(), "latest") && !str_eq(current.as_str(), l.as_str()),
            None => false,
        };
        ImageVersion { current, latest, update_available }
    }
}

} // verus!
