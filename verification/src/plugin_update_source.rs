//! Read-only update channels, distinct from downloaded GitHub provenance.
use vstd::prelude::*;

use crate::github_distribution::GitHubSource;
use crate::text::{any_control, chars_of, eq_ignore_ascii_case, is_ascii_alnum, is_control, split, split_chars, utf8_len, utf8_within, views};

verus! {

/// Where a plugin's updates are looked for.
#[derive(Debug, Clone)]
pub struct UpdateChannel {
    pub kind: String,
    pub repository_url: String,
    pub repository_id: Option<u64>,
    pub owner_id: Option<u64>,
    pub asset_name_template: String,
}

/// A character of a GitHub owner or repository name.
pub open spec fn repo_name_char(c: char) -> bool {
    is_ascii_alnum(c) || c == '-' || c == '_' || c == '.'
}

/// A GitHub owner or repository name: 1..=100 name characters, not `.` or `..`.
pub open spec fn repo_name(s: Seq<char>) -> bool {
    1 <= s.len() <= 100 && s != seq!['.'] && s != seq!['.', '.'] && forall|i: int| 0 <= i < s.len() ==> repo_name_char(
        #[trigger] s[i],
    )
}

/// The canonical URL of a GitHub repository: `https://github.com/owner/repo`.
pub open spec fn canonical_repository_url(url: Seq<char>) -> bool {
    url.len() > 19 && url.take(19) == "https://github.com/"@ && split(url.skip(19), '/').len() == 2 && repo_name(
        split(url.skip(19), '/')[0],
    ) && repo_name(split(url.skip(19), '/')[1])
}

/// A well-formed channel: GitHub kind, a canonical repository URL, numeric
/// identities both present or both absent (and required for an installer
/// channel), never zero, and an asset template of 1..=255 bytes without
/// separators or control characters.
pub open spec fn spec_valid_channel(c: UpdateChannel, installer: bool) -> bool {
    &&& c.kind@ == "github"@
    &&& canonical_repository_url(c.repository_url@)
    &&& c.repository_id != Some(0u64)
    &&& c.owner_id != Some(0u64)
    &&& (c.repository_id is Some) == (c.owner_id is Some)
    &&& (installer ==> c.repository_id is Some)
    &&& c.asset_name_template@.len() > 0
    &&& utf8_len(c.asset_name_template@) <= 255
    &&& forall|i: int| 0 <= i < c.asset_name_template@.len() ==> {
        let ch = #[trigger] c.asset_name_template@[i];
        ch != '/' && ch != '\\' && !is_control(ch)
    }
}

fn repo_name_ok(s: &Vec<char>) -> (b: bool)
    ensures
        b == repo_name(s@),
{
    if s.len() == 0 || s.len() > 100 {
        return false;
    }
    if (s.len() == 1 && s[0] == '.') || (s.len() == 2 && s[0] == '.' && s[1] == '.') {
        proof {
            if s@.len() == 1 {
                assert(s@ =~= seq!['.']);
            } else {
                assert(s@ =~= seq!['.', '.']);
            }
        }
        return false;
    }
    proof {
        if s@ == seq!['.'] {
            assert(s@[0] == '.');
        }
        if s@ == seq!['.', '.'] {
            assert(s@[0] == '.' && s@[1] == '.');
        }
    }
    let mut i: usize = 0;
    while i < s.len()
        invariant
            i <= s@.len(),
            forall|j: int| 0 <= j < i ==> repo_name_char(#[trigger] s@[j]),
        decreases s@.len() - i,
    {
        let c = s[i];
        if !(('0' <= c && c <= '9') || ('a' <= c && c <= 'z') || ('A' <= c && c <= 'Z') || c == '-' || c == '_' || c == '.') {
            proof {
                assert(!repo_name_char(s@[i as int]));
            }
            return false;
        }
        i = i + 1;
    }
    true
}

/// Whether the URL is the canonical URL of a GitHub repository.
pub fn is_canonical_repository_url(url: &str) -> (b: bool)
    ensures
        b == canonical_repository_url(url@),
{
    let v = chars_of(url);
    let prefix = chars_of("https://github.com/");
    proof {
        reveal_strlit("https://github.com/");
    }
    if v.len() <= 19 || !crate::text::chars_start_with(v.as_slice(), prefix.as_slice()) {
        proof {
            if v@.len() > 19 && v@.take(19) == "https://github.com/"@ {
                assert(v@.take(prefix@.len() as int) =~= prefix@);
            }
        }
        return false;
    }
    let mut rest: Vec<char> = Vec::new();
    let mut i: usize = 19;
    while i < v.len()
        invariant
            19 <= i <= v@.len(),
            rest@ == v@.subrange(19, i as int),
        decreases v@.len() - i,
    {
        rest.push(v[i]);
        i = i + 1;
        proof {
            assert(rest@ =~= v@.subrange(19, i as int));
        }
    }
    proof {
        assert(rest@ =~= v@.skip(19));
    }
    let pieces = split_chars(rest.as_slice(), '/');
    if pieces.len() != 2 {
        return false;
    }
    proof {
        assert(views(pieces@)[0] == pieces@[0]@);
        assert(views(pieces@)[1] == pieces@[1]@);
    }
    repo_name_ok(&pieces[0]) && repo_name_ok(&pieces[1])
}

impl UpdateChannel {
    /// Refuses a malformed channel; an installer channel must name its
    /// numeric repository and owner identities.
    pub fn validate(&self, installer: bool) -> (r: Result<(), String>)
        ensures
            r is Ok <==> spec_valid_channel(*self, installer),
    {
        let t = chars_of(self.asset_name_template.as_str());
        let mut seps = false;
        let mut i: usize = 0;
        while i < t.len()
            invariant
                i <= t@.len(),
                seps == exists|j: int| 0 <= j < i && (t@[j] == '/' || t@[j] == '\\'),
            decreases t@.len() - i,
        {
            if t[i] == '/' || t[i] == '\\' {
                seps = true;
            }
            i = i + 1;
        }
        let ok = crate::text::str_equal(self.kind.as_str(), "github") && is_canonical_repository_url(self.repository_url.as_str())
            && self.repository_id != Some(0u64) && self.owner_id != Some(0u64)
            && self.repository_id.is_some() == self.owner_id.is_some() && !(installer && self.repository_id.is_none())
            && t.len() > 0 && utf8_within(t.as_slice(), 255) && !seps && !any_control(t.as_slice());
        if !ok {
            return Err("Invalid update channel identity or asset template".to_string());
        }
        Ok(())
    }

    /// Whether a downloaded source belongs to this channel: the same
    /// repository URL ignoring ASCII case, and the channel's identities
    /// where it names them.
    pub fn accepts(&self, source: &GitHubSource) -> (b: bool)
        ensures
            b == (eq_ignore_ascii_case(source.repository_url@, self.repository_url@)
                && (self.repository_id matches Some(id) ==> source.repository_id == Some(id))
                && (self.owner_id matches Some(id) ==> source.owner_id == Some(id))),
    {
        let a = chars_of(source.repository_url.as_str());
        let b = chars_of(self.repository_url.as_str());
        let same = crate::text::chars_eq_ignore_ascii_case(a.as_slice(), b.as_slice());
        let repo = match self.repository_id {
            Some(id) => source.repository_id == Some(id),
            None => true,
        };
        let owner = match self.owner_id {
            Some(id) => source.owner_id == Some(id),
            None => true,
        };
        same && repo && owner
    }
}

} // verus!
