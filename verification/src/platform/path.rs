//! Path identity and containment. Registry paths are case-insensitive on
//! Windows; POSIX names (a literal backslash included) are never rewritten
//! by Windows rules.
use vstd::prelude::*;

use crate::platform::PathStyle;
use crate::text::{chars_of, split, split_chars, string_from_chars, views};

verus! {

/// Unicode lowercase mapping of a string, as `str::to_lowercase` gives it.
pub uninterp spec fn unicode_lowercase(s: Seq<char>) -> Seq<char>;

/// Calls `str::to_lowercase`. Claims only that the result is the one
/// `unicode_lowercase` names for the input; the Unicode case tables are
/// left to std.
#[verifier::external_body]
fn to_lowercase(s: &str) -> (r: String)
    ensures
        r@ == unicode_lowercase(s@),
{
    s.to_lowercase()
}

/// Every `/` written as `\`.
pub open spec fn backslashed(s: Seq<char>) -> Seq<char> {
    s.map_values(|c: char| if c == '/' { '\\' } else { c })
}

/// The verbatim prefix `\\?\`.
pub open spec fn verbatim_prefix() -> Seq<char> {
    seq!['\\', '\\', '?', '\\']
}

/// Drops a leading verbatim prefix.
pub open spec fn strip_verbatim(s: Seq<char>) -> Seq<char> {
    if s.len() >= 4 && s.take(4) == verbatim_prefix() {
        s.skip(4)
    } else {
        s
    }
}

/// Drops every trailing `\`.
pub open spec fn trim_trailing_backslashes(s: Seq<char>) -> Seq<char>
    decreases s.len(),
{
    if s.len() > 0 && s.last() == '\\' {
        trim_trailing_backslashes(s.drop_last())
    } else {
        s
    }
}

/// The comparison key of a path: the text itself on POSIX; on Windows the
/// lowercase text with `\` separators, no verbatim prefix and no trailing
/// separators.
pub open spec fn spec_path_key(path: Seq<char>, style: PathStyle) -> Seq<char> {
    match style {
        PathStyle::Posix => path,
        PathStyle::Windows => unicode_lowercase(trim_trailing_backslashes(strip_verbatim(backslashed(path)))),
    }
}

/// The comparison key of a path.
pub fn path_key(path: &str, style: PathStyle) -> (k: String)
    ensures
        k@ == spec_path_key(path@, style),
{
    match style {
        PathStyle::Posix => string_from_chars(chars_of(path).as_slice()),
        PathStyle::Windows => {
            let v = chars_of(path);
            let mut t: Vec<char> = Vec::new();
            let mut i: usize = 0;
            while i < v.len()
                invariant
                    i <= v@.len(),
                    t@ == backslashed(v@.take(i as int)),
                decreases v@.len() - i,
            {
                t.push(if v[i] == '/' { '\\' } else { v[i] });
                i = i + 1;
                proof {
                    assert(t@ =~= backslashed(v@.take(i as int)));
                }
            }
            proof {
                assert(v@.take(v@.len() as int) =~= v@);
            }
            let start: usize = if t.len() >= 4 && t[0] == '\\' && t[1] == '\\' && t[2] == '?' && t[3] == '\\' {
                4
            } else {
                0
            };
            proof {
                if t@.len() >= 4 && t@.take(4) == verbatim_prefix() {
                    assert(t@.take(4)[0] == t@[0] && t@.take(4)[1] == t@[1] && t@.take(4)[2] == t@[2] && t@.take(4)[3] == t@[3]);
                }
                if start == 4 {
                    assert(t@.take(4) =~= verbatim_prefix());
                }
                assert(t@.skip(start as int) == strip_verbatim(t@)) by {
                    if start == 0 {
                        assert(t@.skip(0) =~= t@);
                    }
                }
            }
            let mut end: usize = t.len();
            while end > start && t[end - 1] == '\\'
                invariant
                    start <= end <= t@.len(),
                    trim_trailing_backslashes(t@.subrange(start as int, end as int)) == trim_trailing_backslashes(t@.skip(start as int)),
                decreases end,
            {
                proof {
                    assert(t@.subrange(start as int, end as int).drop_last() =~= t@.subrange(start as int, end as int - 1));
                }
                end = end - 1;
            }
            let mut u: Vec<char> = Vec::new();
            let mut j: usize = start;
            while j < end
                invariant
                    start <= j <= end,
                    end <= t@.len(),
                    u@ == t@.subrange(start as int, j as int),
                decreases end - j,
            {
                u.push(t[j]);
                j = j + 1;
                proof {
                    assert(u@ =~= t@.subrange(start as int, j as int));
                }
            }
            let trimmed = string_from_chars(u.as_slice());
            to_lowercase(trimmed.as_str())
        },
    }
}

/// Whether two paths name the same registry entry.
pub fn same_path(left: &str, right: &str, style: PathStyle) -> (b: bool)
    ensures
        b == (spec_path_key(left@, style) == spec_path_key(right@, style)),
{
    let a = path_key(left, style);
    let b = path_key(right, style);
    crate::text::str_equal(a.as_str(), b.as_str())
}

/// Pieces of a POSIX path that name components: no empty or `.` pieces.
pub open spec fn named_pieces(ps: Seq<Seq<char>>) -> Seq<Seq<char>>
    decreases ps.len(),
{
    if ps.len() == 0 {
        Seq::empty()
    } else {
        let init = named_pieces(ps.drop_last());
        if ps.last().len() == 0 || ps.last() == seq!['.'] {
            init
        } else {
            init.push(ps.last())
        }
    }
}

/// The components of a POSIX path, as `Path::components` yields them: the
/// root (written `/`), a leading `.` of a relative path, then each named
/// piece between `/` separators.
pub open spec fn posix_components(s: Seq<char>) -> Seq<Seq<char>> {
    let pieces = split(s, '/');
    let rooted = s.len() > 0 && s[0] == '/';
    let lead: Seq<Seq<char>> = if rooted {
        seq![seq!['/']]
    } else if pieces[0] == seq!['.'] {
        seq![seq!['.']]
    } else {
        Seq::empty()
    };
    lead + named_pieces(pieces)
}

/// Whether `path` lies within `root` (or is it).
pub open spec fn spec_within(path: Seq<char>, root: Seq<char>, style: PathStyle) -> bool {
    match style {
        PathStyle::Posix => {
            let p = posix_components(path);
            let r = posix_components(root);
            r.len() <= p.len() && p.take(r.len() as int) == r
        },
        PathStyle::Windows => {
            let p = spec_path_key(path, style);
            let r = spec_path_key(root, style);
            p == r || (r.len() < p.len() && p.take(r.len() as int) == r && p[r.len() as int] == '\\')
        },
    }
}

pub(crate) fn posix_components_of(s: &str) -> (r: Vec<Vec<char>>)
    ensures
        views(r@) == posix_components(s@),
{
    let v = chars_of(s);
    let pieces = split_chars(v.as_slice(), '/');
    proof {
        crate::text::lemma_split_nonempty(v@, '/');
    }
    let mut out: Vec<Vec<char>> = Vec::new();
    if v.len() > 0 && v[0] == '/' {
        let mut root: Vec<char> = Vec::new();
        root.push('/');
        out.push(root);
    } else if pieces[0].len() == 1 && pieces[0][0] == '.' {
        let mut cur: Vec<char> = Vec::new();
        cur.push('.');
        out.push(cur);
        proof {
            assert(views(pieces@)[0] =~= seq!['.']);
        }
    } else {
        proof {
            if views(pieces@)[0] == seq!['.'] {
                assert(pieces@[0]@[0] == '.');
            }
        }
    }
    let ghost lead = views(out@);
    proof {
        assert(lead =~= posix_components(v@).take(lead.len() as int)) by {
            let ps = split(v@, '/');
            assert(ps == views(pieces@));
        }
        assert(views(out@) =~= lead + named_pieces(views(pieces@).take(0)));
    }
    let mut i: usize = 0;
    while i < pieces.len()
        invariant
            i <= pieces@.len(),
            views(out@) == lead + named_pieces(views(pieces@).take(i as int)),
        decreases pieces@.len() - i,
    {
        let p = &pieces[i];
        let skip = p.len() == 0 || (p.len() == 1 && p[0] == '.');
        proof {
            assert(views(pieces@).take(i as int + 1).drop_last() =~= views(pieces@).take(i as int));
            assert(views(pieces@).take(i as int + 1).last() == p@);
            if p@ == seq!['.'] {
                assert(p@[0] == '.');
            }
            if p@.len() == 1 && p@[0] == '.' {
                assert(p@ =~= seq!['.']);
            }
        }
        if !skip {
            let mut c: Vec<char> = Vec::new();
            let mut k: usize = 0;
            while k < p.len()
                invariant
                    k <= p@.len(),
                    c@ == p@.take(k as int),
                decreases p@.len() - k,
            {
                c.push(p[k]);
                k = k + 1;
                proof {
                    assert(c@ =~= p@.take(k as int));
                }
            }
            proof {
                assert(p@.take(p@.len() as int) =~= p@);
            }
            let ghost old_out = out@;
            out.push(c);
            proof {
                assert(views(out@) =~= views(old_out).push(c@));
                assert(named_pieces(views(pieces@).take(i as int + 1)) == named_pieces(views(pieces@).take(i as int)).push(p@));
                assert(views(out@) =~= lead + named_pieces(views(pieces@).take(i as int + 1)));
            }
        }
        i = i + 1;
    }
    proof {
        assert(views(pieces@).take(pieces@.len() as int) =~= views(pieces@));
        let ps = split(v@, '/');
        assert(ps == views(pieces@));
        assert(views(out@) =~= posix_components(v@));
    }
    out
}

/// Whether `path` lies within `root` (or is it): component-wise on POSIX,
/// by comparison key and separator boundary on Windows.
pub fn within(path: &str, root: &str, style: PathStyle) -> (b: bool)
    ensures
        b == spec_within(path@, root@, style),
{
    match style {
        PathStyle::Posix => {
            let p = posix_components_of(path);
            let r = posix_components_of(root);
            if r.len() > p.len() {
                return false;
            }
            let mut i: usize = 0;
            while i < r.len()
                invariant
                    i <= r@.len(),
                    r@.len() <= p@.len(),
                    views(p@) == posix_components(path@),
                    views(r@) == posix_components(root@),
                    style == PathStyle::Posix,
                    forall|j: int| 0 <= j < i ==> views(p@)[j] == views(r@)[j],
                decreases r@.len() - i,
            {
                if !crate::text::chars_equal(p[i].as_slice(), r[i].as_slice()) {
                    proof {
                        assert(views(p@).take(r@.len() as int)[i as int] != views(r@)[i as int]);
                    }
                    return false;
                }
                i = i + 1;
            }
            proof {
                assert(views(p@).take(r@.len() as int) =~= views(r@));
            }
            true
        },
        PathStyle::Windows => {
            let pk = path_key(path, style);
            let rk = path_key(root, style);
            let p = chars_of(pk.as_str());
            let r = chars_of(rk.as_str());
            if crate::text::chars_equal(p.as_slice(), r.as_slice()) {
                return true;
            }
            if r.len() < p.len() && crate::text::chars_start_with(p.as_slice(), r.as_slice()) && p[r.len()] == '\\' {
                return true;
            }
            false
        },
    }
}

} // verus!
