//! Read-only release discovery for registered GitHub packages: which
//! published release, if any, is an update for the installed one.
use vstd::prelude::*;
use crate::text::{copy_string};

use crate::github_distribution::{GitHubRelease, GitHubSource, ReleaseCatalog};
use crate::runtime_update::{
    compare, parse, parse_version, precedence, spec_newer_version, Version, VersionError,
};
use crate::text::{first_index, has_char, chars_of, find_from, contains_char};

verus! {

/// Most managed plugins checked in one scan.
pub const MAX_PLUGINS: usize = 128;
/// Most distinct repositories fetched in one scan.
pub const MAX_REPOSITORIES: usize = 32;
/// Shortest interval between unforced scans, in milliseconds.
pub const MIN_CHECK_INTERVAL_MS: u64 = 60_000;

/// Finding for one installed plugin.
#[derive(Debug, Clone, Copy, PartialEq, Eq, Structural)]
pub enum ReleaseState {
    Unknown,
    Available,
    UpToDate,
    Failed,
}

impl ReleaseState {
    pub open spec fn spec_name(self) -> Seq<char> {
        match self {
            ReleaseState::Unknown => "unknown"@,
            ReleaseState::Available => "available"@,
            ReleaseState::UpToDate => "upToDate"@,
            ReleaseState::Failed => "failed"@,
        }
    }

    /// Wire name of the finding.
    pub fn as_str(self) -> (s: &'static str)
        ensures
            s@ == self.spec_name(),
    {
        match self {
            ReleaseState::Unknown => "unknown",
            ReleaseState::Available => "available",
            ReleaseState::UpToDate => "upToDate",
            ReleaseState::Failed => "failed",
        }
    }
}

/// Release finding for one installed version.
#[derive(Debug, Clone)]
pub struct PluginReleaseStatus {
    pub version_key: String,
    pub status: ReleaseState,
    pub release_tag: Option<String>,
    pub release_url: Option<String>,
    pub error: Option<String>,
}

/// A tag without one leading `v`.
pub open spec fn spec_tag_version(tag: Seq<char>) -> Seq<char> {
    if tag.len() > 0 && tag[0] == 'v' {
        tag.skip(1)
    } else {
        tag
    }
}

/// A version text has a prerelease part before any build metadata.
pub open spec fn has_prerelease_text(v: Seq<char>) -> bool {
    has_char(v.take(first_index(v, '+')), '-')
}

/// The release may be offered as an update of `source`.
pub open spec fn eligible(source: GitHubSource, release: GitHubRelease) -> bool {
    let current = spec_tag_version(source.tag@);
    let accepts = has_prerelease_text(current);
    let version = spec_tag_version(release.tag@);
    &&& release.id != source.release_id
    &&& !(release.prerelease && !accepts)
    &&& release.assets@.len() > 0
    &&& !(!accepts && has_prerelease_text(version))
    &&& spec_newer_version(version, current) == Ok::<bool, VersionError>(true)
}

/// Precedence of two release tags (both must parse).
pub open spec fn tag_precedence(a: GitHubRelease, b: GitHubRelease) -> int {
    precedence(
        parse_version(spec_tag_version(a.tag@)).unwrap(),
        parse_version(spec_tag_version(b.tag@)).unwrap(),
    )
}

/// `index` names the first eligible release of highest precedence.
pub open spec fn is_latest(source: GitHubSource, releases: Seq<GitHubRelease>, index: int) -> bool {
    &&& 0 <= index < releases.len()
    &&& eligible(source, releases[index])
    &&& forall|j: int|
        0 <= j < releases.len() && eligible(source, #[trigger] releases[j]) ==> tag_precedence(
            releases[j],
            releases[index],
        ) <= 0
    &&& forall|j: int|
        0 <= j < index && eligible(source, #[trigger] releases[j]) ==> tag_precedence(
            releases[j],
            releases[index],
        ) < 0
}

/// The tag without one leading `v`.
pub fn tag_version(tag: &str) -> (v: Vec<char>)
    ensures
        v@ == spec_tag_version(tag@),
{
    let s = chars_of(tag);
    if s.len() > 0 && s[0] == 'v' {
        let t = &s.as_slice()[1..s.len()];
        let mut out: Vec<char> = Vec::new();
        let mut i: usize = 0;
        while i < t.len()
            invariant
                i <= t@.len(),
                out@ == t@.take(i as int),
            decreases t@.len() - i,
        {
            out.push(t[i]);
            i = i + 1;
            proof {
                assert(out@ =~= t@.take(i as int));
            }
        }
        proof {
            assert(t@.take(t@.len() as int) =~= t@);
            assert(t@ =~= s@.skip(1));
        }
        out
    } else {
        s
    }
}

fn prerelease_text(v: &Vec<char>) -> (b: bool)
    ensures
        b == has_prerelease_text(v@),
{
    let plus = find_from(v.as_slice(), 0, '+');
    proof {
        assert(v@.skip(0) =~= v@);
    }
    let head = &v.as_slice()[0..plus];
    proof {
        assert(head@ =~= v@.take(plus as int));
    }
    contains_char(head, '-')
}

fn parse_chars(v: &Vec<char>) -> (r: Option<Version>)
    ensures
        match r {
            Some(x) => parse_version(v@) == Some(x@),
            None => parse_version(v@) is None,
        },
{
    let s = crate::text::string_from_chars(v.as_slice());
    parse(s.as_str())
}

/// The release's parsed version when it is eligible as an update.
fn eligible_version(source: &GitHubSource, release: &GitHubRelease, current: &Version, accepts: bool) -> (r: Option<Version>)
    requires
        parse_version(spec_tag_version(source.tag@)) == Some(current@),
        accepts == has_prerelease_text(spec_tag_version(source.tag@)),
    ensures
        r is Some <==> eligible(*source, *release),
        r matches Some(v) ==> parse_version(spec_tag_version(release.tag@)) == Some(v@),
{
    let text = tag_version(release.tag.as_str());
    if release.id == source.release_id || (release.prerelease && !accepts) || release.assets.len() == 0
        || (!accepts && prerelease_text(&text)) {
        return None;
    }
    match parse_chars(&text) {
        Some(version) => {
            if compare(&version, current) > 0 {
                Some(version)
            } else {
                None
            }
        },
        None => None,
    }
}

/// The first published release of highest precedence that is an update of
/// `source`: newer than the installed tag, with assets, not the installed
/// release, and a prerelease only when the installed version is one.
pub fn latest_release<'a>(source: &GitHubSource, catalog: &'a ReleaseCatalog) -> (r: Option<&'a GitHubRelease>)
    ensures
        match r {
            Some(rel) => exists|i: int| is_latest(*source, catalog.releases@, i) && *rel == catalog.releases@[i],
            None => forall|i: int| 0 <= i < catalog.releases@.len() ==> !eligible(*source, #[trigger] catalog.releases@[i]),
        },
{
    let current_text = tag_version(source.tag.as_str());
    let current = match parse_chars(&current_text) {
        Some(v) => v,
        None => {
            assert forall|i: int| 0 <= i < catalog.releases@.len() implies !eligible(*source, #[trigger] catalog.releases@[i]) by {}
            return None;
        },
    };
    let accepts = prerelease_text(&current_text);
    let releases = &catalog.releases;
    let mut best: Option<usize> = None;
    let mut best_version: Option<Version> = None;
    let mut i: usize = 0;
    while i < releases.len()
        invariant
            i <= releases@.len(),
            parse_version(spec_tag_version(source.tag@)) == Some(current@),
            accepts == has_prerelease_text(spec_tag_version(source.tag@)),
            best is None ==> best_version is None && forall|j: int| 0 <= j < i ==> !eligible(*source, #[trigger] releases@[j]),
            best matches Some(b) ==> {
                &&& b < i
                &&& best_version matches Some(bv) && parse_version(spec_tag_version(releases@[b as int].tag@)) == Some(bv@)
                &&& eligible(*source, releases@[b as int])
                &&& forall|j: int| 0 <= j < i && eligible(*source, #[trigger] releases@[j]) ==> tag_precedence(releases@[j], releases@[b as int]) <= 0
                &&& forall|j: int| 0 <= j < b && eligible(*source, #[trigger] releases@[j]) ==> tag_precedence(releases@[j], releases@[b as int]) < 0
            },
        decreases releases@.len() - i,
    {
        let release = &releases[i];
        match eligible_version(source, release, &current, accepts) {
            Some(version) => {
                let better = match &best_version {
                    None => true,
                    Some(old) => compare(&version, old) > 0,
                };
                if better {
                    proof {
                        lemma_best_advances(*source, releases@, i as int, best, version@);
                    }
                    best = Some(i);
                    best_version = Some(version);
                }
            },
            None => {},
        }
        i = i + 1;
    }
    match best {
        Some(b) => Some(&releases[b]),
        None => None,
    }
}

/// Every tag of the catalog, and the installed tag, is a semantic version.
pub open spec fn all_versions_known(source: GitHubSource, catalog: ReleaseCatalog) -> bool {
    &&& parse_version(spec_tag_version(source.tag@)) is Some
    &&& forall|i: int| 0 <= i < catalog.releases@.len() ==> (#[trigger] parse_version(spec_tag_version(catalog.releases@[i].tag@))) is Some
}


/// Records the finding for one installed version: the latest eligible
/// release when there is one; otherwise up to date only when the installed
/// tag and every listed tag are semantic versions and the listing is
/// complete; otherwise the finding is left as it was.
pub fn select_release(source: &GitHubSource, catalog: &ReleaseCatalog, result: &mut PluginReleaseStatus)
    ensures
        final(result).version_key == old(result).version_key,
        final(result).error == old(result).error,
        (exists|i: int| 0 <= i < catalog.releases@.len() && eligible(*source, #[trigger] catalog.releases@[i])) ==> exists|i: int|
            is_latest(*source, catalog.releases@, i) && final(result).status == ReleaseState::Available
                && final(result).release_tag == Some(catalog.releases@[i].tag) && final(result).release_url == Some(
                catalog.releases@[i].url,
            ),
        !(exists|i: int| 0 <= i < catalog.releases@.len() && eligible(*source, #[trigger] catalog.releases@[i])) ==> {
            &&& final(result).release_tag == old(result).release_tag
            &&& final(result).release_url == old(result).release_url
            &&& final(result).status == (if all_versions_known(*source, *catalog) && !catalog.truncated {
                ReleaseState::UpToDate
            } else {
                old(result).status
            })
        },
{
    match latest_release(source, catalog) {
        Some(release) => {
            result.status = ReleaseState::Available;
            result.release_tag = Some(copy_string(&release.tag));
            result.release_url = Some(copy_string(&release.url));
            return;
        },
        None => {},
    }
    let current = tag_version(source.tag.as_str());
    if parse_chars(&current).is_none() || catalog.truncated {
        return;
    }
    let mut i: usize = 0;
    while i < catalog.releases.len()
        invariant
            i <= catalog.releases@.len(),
            *result == *old(result),
            !catalog.truncated,
            parse_version(spec_tag_version(source.tag@)) is Some,
            !(exists|k: int| 0 <= k < catalog.releases@.len() && eligible(*source, #[trigger] catalog.releases@[k])),
            forall|j: int| 0 <= j < i ==> (#[trigger] parse_version(spec_tag_version(catalog.releases@[j].tag@))) is Some,
        decreases catalog.releases@.len() - i,
    {
        let t = tag_version(catalog.releases[i].tag.as_str());
        if parse_chars(&t).is_none() {
            return;
        }
        i = i + 1;
    }
    result.status = ReleaseState::UpToDate;
}

proof fn lemma_best_advances(source: GitHubSource, releases: Seq<GitHubRelease>, i: int, best: Option<usize>, v: crate::runtime_update::VersionView)
    requires
        0 <= i < releases.len(),
        eligible(source, releases[i]),
        parse_version(spec_tag_version(releases[i].tag@)) == Some(v),
        best is None ==> forall|j: int| 0 <= j < i ==> !eligible(source, #[trigger] releases[j]),
        best matches Some(b) ==> {
            &&& b < i
            &&& eligible(source, releases[b as int])
            &&& precedence(v, parse_version(spec_tag_version(releases[b as int].tag@)).unwrap()) > 0
            &&& forall|j: int| 0 <= j < i && eligible(source, #[trigger] releases[j]) ==> tag_precedence(releases[j], releases[b as int]) <= 0
        },
    ensures
        forall|j: int| 0 <= j < i + 1 && eligible(source, #[trigger] releases[j]) ==> tag_precedence(releases[j], releases[i]) <= 0,
        forall|j: int| 0 <= j < i && eligible(source, #[trigger] releases[j]) ==> tag_precedence(releases[j], releases[i]) < 0,
{
    crate::runtime_update::lemma_precedence_public(v, v, v);
    if let Some(b) = best {
        let vb = parse_version(spec_tag_version(releases[b as int].tag@)).unwrap();
        assert forall|j: int| 0 <= j < i && eligible(source, #[trigger] releases[j]) implies tag_precedence(releases[j], releases[i]) < 0 by {
            let vj = parse_version(spec_tag_version(releases[j].tag@)).unwrap();
            crate::runtime_update::lemma_precedence_public(vj, vb, v);
            crate::runtime_update::lemma_precedence_public(v, vb, vj);
        }
    }
}

proof fn lemma_latest_unique(source: GitHubSource, releases: Seq<GitHubRelease>, i: int, k: int)
    requires
        is_latest(source, releases, i),
        is_latest(source, releases, k),
    ensures
        i == k,
{
    if i < k {
        assert(tag_precedence(releases[i], releases[k]) < 0);
        assert(tag_precedence(releases[k], releases[i]) <= 0);
        crate::runtime_update::lemma_precedence_public(
            parse_version(spec_tag_version(releases[i].tag@)).unwrap(),
            parse_version(spec_tag_version(releases[k].tag@)).unwrap(),
            parse_version(spec_tag_version(releases[k].tag@)).unwrap(),
        );
    } else if k < i {
        assert(tag_precedence(releases[k], releases[i]) < 0);
        assert(tag_precedence(releases[i], releases[k]) <= 0);
        crate::runtime_update::lemma_precedence_public(
            parse_version(spec_tag_version(releases[k].tag@)).unwrap(),
            parse_version(spec_tag_version(releases[i].tag@)).unwrap(),
            parse_version(spec_tag_version(releases[i].tag@)).unwrap(),
        );
    }
}

} // verus!
