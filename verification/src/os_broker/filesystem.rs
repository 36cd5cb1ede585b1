//! Path authority of the file system endpoints: the lexical form a request
//! is compared in, containment in a granted root and exact grants. On
//! Windows every component after the drive keeps its exact spelling.
use vstd::prelude::*;

use crate::os_broker::{denied, invalid, OsBrokerError};
use crate::platform::path::{backslashed, posix_components, spec_within, strip_verbatim, verbatim_prefix};
use crate::platform::PathStyle;
use crate::plugin_permissions::{spec_valid_policy_path, validate_policy_path, windows_names};
use crate::text::{ascii_upper, chars_of, string_from_chars, views};

verus! {

/// The lexical form a path is compared in: itself on POSIX; on Windows the
/// verbatim spelling with `\` separators and an uppercase drive letter.
/// `None` where the path (or its Windows form) is not a valid policy path.
pub open spec fn spec_lexical_path(s: Seq<char>, style: PathStyle) -> Option<Seq<char>> {
    if !spec_valid_policy_path(s, style) {
        None
    } else {
        match style {
            PathStyle::Posix => Some(s),
            PathStyle::Windows => {
                let d = strip_verbatim(backslashed(s));
                let n = verbatim_prefix() + seq![ascii_upper(d[0])] + d.skip(1);
                if spec_valid_policy_path(n, style) {
                    Some(n)
                } else {
                    None
                }
            },
        }
    }
}

/// The lexical form of a requested path.
pub fn lexical_path(path: &str, style: PathStyle) -> (r: Result<String, OsBrokerError>)
    ensures
        match spec_lexical_path(path@, style) {
            Some(n) => r matches Ok(s) && s@ == n,
            None => r matches Err(e) && e.code@ == "invalid_params"@,
        },
{
    match validate_policy_path(path, style) {
        Ok(()) => {},
        Err(e) => return Err(invalid(e.message.as_str())),
    }
    match style {
        PathStyle::Posix => Ok(string_from_chars(chars_of(path).as_slice())),
        PathStyle::Windows => {
            let v = chars_of(path);
            let mut t: Vec<char> = Vec::new();
            let mut i: usize = 0;
            while i < v.len()
                invariant
                    i <= v@.len(),
                    t@ == backslashed(v@.take(i as int)),
                decreases v@.len() - i,
            {
                t.push(if v[i] == '/' { '\\' } else { v[i] });
                i = i + 1;
                proof {
                    assert(t@ =~= backslashed(v@.take(i as int)));
                }
            }
            proof {
                assert(v@.take(v@.len() as int) =~= v@);
            }
            let start: usize = if t.len() >= 4 && t[0] == '\\' && t[1] == '\\' && t[2] == '?' && t[3] == '\\' {
                4
            } else {
                0
            };
            proof {
                if t@.len() >= 4 && t@.take(4) == verbatim_prefix() {
                    assert(t@.take(4)[0] == t@[0] && t@.take(4)[1] == t@[1] && t@.take(4)[2] == t@[2] && t@.take(4)[3] == t@[3]);
                }
                if start == 4 {
                    assert(t@.take(4) =~= verbatim_prefix());
                }
                assert(t@.skip(start as int) == strip_verbatim(t@)) by {
                    if start == 0 {
                        assert(t@.skip(0) =~= t@);
                    }
                }
                // A valid Windows policy path starts with a drive letter after any verbatim prefix.
                assert(start < t@.len());
            }
            let mut n: Vec<char> = Vec::new();
            n.push('\\');
            n.push('\\');
            n.push('?');
            n.push('\\');
            n.push(crate::text::upper_char(t[start]));
            let mut j: usize = start + 1;
            while j < t.len()
                invariant
                    start < j <= t@.len(),
                    n@ == verbatim_prefix() + seq![ascii_upper(t@[start as int])] + t@.subrange(start as int + 1, j as int),
                decreases t@.len() - j,
            {
                n.push(t[j]);
                j = j + 1;
                proof {
                    assert(n@ =~= verbatim_prefix() + seq![ascii_upper(t@[start as int])] + t@.subrange(start as int + 1, j as int));
                }
            }
            proof {
                let d = strip_verbatim(backslashed(path@));
                assert(d == t@.skip(start as int));
                assert(d.skip(1) =~= t@.subrange(start as int + 1, t@.len() as int));
                assert(n@ =~= verbatim_prefix() + seq![ascii_upper(d[0])] + d.skip(1));
            }
            let s = string_from_chars(n.as_slice());
            match validate_policy_path(s.as_str(), style) {
                Ok(()) => Ok(s),
                Err(e) => Err(invalid(e.message.as_str())),
            }
        },
    }
}

/// The components of a lexical Windows path: its verbatim drive prefix,
/// its root if written, then its names.
pub open spec fn lexical_components(n: Seq<char>) -> Seq<Seq<char>> {
    seq![n.take(6)] + (if n.len() > 6 { seq![seq!['\\']] } else { Seq::empty() }) + windows_names(n)
}

/// Whether `path` lies within `root`: component-wise on POSIX; on Windows
/// component-wise between both lexical forms, each component spelled alike.
pub open spec fn spec_contains_path(root: Seq<char>, path: Seq<char>, style: PathStyle) -> bool {
    match style {
        PathStyle::Posix => spec_within(path, root, style),
        PathStyle::Windows => match (spec_lexical_path(root, style), spec_lexical_path(path, style)) {
            (Some(r), Some(p)) => {
                let rc = lexical_components(r);
                let pc = lexical_components(p);
                rc.len() <= pc.len() && pc.take(rc.len() as int) == rc
            },
            _ => false,
        },
    }
}

/// Whether two paths name the same grant: equal components on POSIX, equal
/// lexical forms on Windows.
pub open spec fn spec_paths_equal(left: Seq<char>, right: Seq<char>, style: PathStyle) -> bool {
    match style {
        PathStyle::Posix => posix_components(left) == posix_components(right),
        PathStyle::Windows => match (spec_lexical_path(left, style), spec_lexical_path(right, style)) {
            (Some(a), Some(b)) => a == b,
            _ => false,
        },
    }
}

fn lexical_components_of(n: &str) -> (r: Vec<Vec<char>>)
    requires
        spec_valid_policy_path(n@, PathStyle::Windows),
        n@.len() >= 6,
        n@.take(4) == verbatim_prefix(),
    ensures
        views(r@) == lexical_components(n@),
{
    let v = chars_of(n);
    proof {
        assert(v@.take(4)[0] == v@[0] && v@.take(4)[1] == v@[1] && v@.take(4)[2] == v@[2] && v@.take(4)[3] == v@[3]);
    }
    let names = crate::plugin_permissions::windows_names_of(v.as_slice());
    let mut out: Vec<Vec<char>> = Vec::new();
    let mut p: Vec<char> = Vec::new();
    let mut i: usize = 0;
    while i < 6
        invariant
            i <= 6,
            v@.len() >= 6,
            p@ == v@.take(i as int),
        decreases 6 - i,
    {
        p.push(v[i]);
        i = i + 1;
        proof {
            assert(p@ =~= v@.take(i as int));
        }
    }
    out.push(p);
    if v.len() > 6 {
        let mut root: Vec<char> = Vec::new();
        root.push('\\');
        proof {
            assert(root@ =~= seq!['\\']);
        }
        out.push(root);
    }
    let ghost lead = views(out@);
    proof {
        assert(lead =~= seq![v@.take(6)] + (if v@.len() > 6 { seq![seq!['\\']] } else { Seq::<Seq<char>>::empty() }));
    }
    let mut k: usize = 0;
    while k < names.len()
        invariant
            k <= names@.len(),
            views(out@) == lead + views(names@).take(k as int),
        decreases names@.len() - k,
    {
        let c = crate::plugin_permissions::copy_chars(&names[k]);
        let ghost old_out = out@;
        out.push(c);
        proof {
            assert(views(out@) =~= views(old_out).push(c@));
            assert(views(names@).take(k as int + 1) =~= views(names@).take(k as int).push(names@[k as int]@));
        }
        k = k + 1;
    }
    proof {
        assert(views(names@).take(names@.len() as int) =~= views(names@));
        assert(views(out@) =~= lexical_components(n@));
    }
    out
}

/// Whether `path` lies within the granted `root`.
pub fn contains_path(root: &str, path: &str, style: PathStyle) -> (b: bool)
    ensures
        b == spec_contains_path(root@, path@, style),
{
    match style {
        PathStyle::Posix => crate::platform::path::within(path, root, style),
        PathStyle::Windows => {
            let r = match lexical_path(root, style) {
                Ok(r) => r,
                Err(_) => return false,
            };
            let p = match lexical_path(path, style) {
                Ok(p) => p,
                Err(_) => return false,
            };
            proof {
                lemma_lexical_is_verbatim(root@);
                lemma_lexical_is_verbatim(path@);
            }
            let rc = lexical_components_of(r.as_str());
            let pc = lexical_components_of(p.as_str());
            if rc.len() > pc.len() {
                return false;
            }
            let mut i: usize = 0;
            while i < rc.len()
                invariant
                    i <= rc@.len(),
                    rc@.len() <= pc@.len(),
                    style == PathStyle::Windows,
                    spec_lexical_path(root@, style) == Some(r@),
                    spec_lexical_path(path@, style) == Some(p@),
                    views(rc@) == lexical_components(r@),
                    views(pc@) == lexical_components(p@),
                    forall|j: int| 0 <= j < i ==> views(pc@)[j] == views(rc@)[j],
                decreases rc@.len() - i,
            {
                if !crate::text::chars_equal(pc[i].as_slice(), rc[i].as_slice()) {
                    proof {
                        assert(views(pc@).take(rc@.len() as int)[i as int] != views(rc@)[i as int]);
                    }
                    return false;
                }
                i = i + 1;
            }
            proof {
                assert(views(pc@).take(rc@.len() as int) =~= views(rc@));
            }
            true
        },
    }
}

proof fn lemma_lexical_is_verbatim(s: Seq<char>)
    requires
        spec_lexical_path(s, PathStyle::Windows) is Some,
    ensures
        ({
            let n = spec_lexical_path(s, PathStyle::Windows).unwrap();
            n.len() >= 6 && n.take(4) == verbatim_prefix() && spec_valid_policy_path(n, PathStyle::Windows)
        }),
{
    let d = strip_verbatim(backslashed(s));
    let n = verbatim_prefix() + seq![ascii_upper(d[0])] + d.skip(1);
    assert(n.take(4) =~= verbatim_prefix());
}

/// Whether two paths name the same grant.
pub fn paths_equal(left: &str, right: &str, style: PathStyle) -> (b: bool)
    ensures
        b == spec_paths_equal(left@, right@, style),
{
    match style {
        PathStyle::Posix => {
            let a = crate::platform::path::posix_components_of(left);
            let b = crate::platform::path::posix_components_of(right);
            same_components(&a, &b)
        },
        PathStyle::Windows => {
            let a = match lexical_path(left, style) {
                Ok(a) => a,
                Err(_) => return false,
            };
            let b = match lexical_path(right, style) {
                Ok(b) => b,
                Err(_) => return false,
            };
            crate::text::str_equal(a.as_str(), b.as_str())
        },
    }
}

fn same_components(a: &Vec<Vec<char>>, b: &Vec<Vec<char>>) -> (r: bool)
    ensures
        r == (views(a@) == views(b@)),
{
    if a.len() != b.len() {
        proof {
            assert(views(a@).len() != views(b@).len());
        }
        return false;
    }
    let mut i: usize = 0;
    while i < a.len()
        invariant
            i <= a@.len(),
            a@.len() == b@.len(),
            forall|j: int| 0 <= j < i ==> views(a@)[j] == views(b@)[j],
        decreases a@.len() - i,
    {
        if !crate::text::chars_equal(a[i].as_slice(), b[i].as_slice()) {
            proof {
                assert(views(a@)[i as int] != views(b@)[i as int]);
            }
            return false;
        }
        i = i + 1;
    }
    proof {
        assert(views(a@) =~= views(b@));
    }
    true
}

/// Refuses a path that no explicitly granted path equals.
pub fn check_exact_grant(requested: &str, allowed: &Vec<String>, style: PathStyle) -> (r: Result<String, OsBrokerError>)
    ensures
        match spec_lexical_path(requested@, style) {
            None => r matches Err(e) && e.code@ == "invalid_params"@,
            Some(n) => if exists|i: int| 0 <= i < allowed@.len() && spec_paths_equal(#[trigger] allowed@[i]@, n, style) {
                r matches Ok(s) && s@ == n
            } else {
                r matches Err(e) && e.code@ == "policy_denied"@
            },
        },
{
    let n = lexical_path(requested, style)?;
    let mut i: usize = 0;
    while i < allowed.len()
        invariant
            i <= allowed@.len(),
            spec_lexical_path(requested@, style) == Some(n@),
            forall|j: int| 0 <= j < i ==> !spec_paths_equal(#[trigger] allowed@[j]@, n@, style),
        decreases allowed@.len() - i,
    {
        if paths_equal(allowed[i].as_str(), n.as_str(), style) {
            proof {
                assert(spec_paths_equal(allowed@[i as int]@, n@, style));
            }
            return Ok(n);
        }
        i = i + 1;
    }
    Err(denied("path was not explicitly granted"))
}

/// The index of the first granted root containing the path.
pub fn first_containing_root(path: &str, roots: &Vec<String>, style: PathStyle) -> (r: Result<usize, OsBrokerError>)
    ensures
        match r {
            Ok(i) => i < roots@.len() && spec_contains_path(roots@[i as int]@, path@, style)
                && forall|j: int| 0 <= j < i ==> !spec_contains_path(#[trigger] roots@[j]@, path@, style),
            Err(e) => e.code@ == "policy_denied"@ && forall|j: int| 0 <= j < roots@.len() ==> !spec_contains_path(#[trigger] roots@[j]@, path@, style),
        },
{
    let mut i: usize = 0;
    while i < roots.len()
        invariant
            i <= roots@.len(),
            forall|j: int| 0 <= j < i ==> !spec_contains_path(#[trigger] roots@[j]@, path@, style),
        decreases roots@.len() - i,
    {
        if contains_path(roots[i].as_str(), path, style) {
            return Ok(i);
        }
        i = i + 1;
    }
    Err(denied("path is outside the explicitly granted roots"))
}

} // verus!
