//! Explicit OS broker scope grants. Validation is structural and never
//! follows a directory; only explicitly selected paths are canonicalised,
//! and that happens outside this library.
use vstd::prelude::*;

use crate::platform::path::{backslashed, posix_components};
use crate::platform::PathStyle;
use crate::plugin_services::secrets::{parse_url, port_suffix, serialize_origin, url_parts, UrlPartsView};
use crate::plugins::{contains_permission, LocalPluginRegistration, Permission};
use crate::text::{ascii_upper, chars_of, eq_ignore_ascii_case, is_ascii_letter, split, split_chars, utf8_len, utf8_within, views};

verus! {

pub const MAX_BROKER_SCOPES: usize = 32;
pub const MAX_POLICY_PATH_BYTES: usize = 4096;
pub const MAX_POLICY_ORIGIN_BYTES: usize = 4096;

/// Paths and origins a plugin may reach through the OS broker.
#[derive(Debug, Clone)]
pub struct BrokerPolicy {
    pub read_roots: Vec<String>,
    pub network_origins: Vec<String>,
    pub executables: Vec<String>,
}

/// A refused broker policy.
#[derive(Debug, Clone)]
pub struct PermissionPolicyError {
    pub message: String,
}

/// An error with the message.
pub fn policy_error(message: &str) -> (e: PermissionPolicyError)
    ensures
        e.message@ == message@,
{
    PermissionPolicyError { message: message.to_string() }
}

/// Pieces that are not empty.
pub open spec fn nonempty_pieces(ps: Seq<Seq<char>>) -> Seq<Seq<char>>
    decreases ps.len(),
{
    if ps.len() == 0 {
        Seq::empty()
    } else if ps.last().len() == 0 {
        nonempty_pieces(ps.drop_last())
    } else {
        nonempty_pieces(ps.drop_last()).push(ps.last())
    }
}

/// No piece between `/` or `\` separators is `.` or `..`.
pub open spec fn dot_free(s: Seq<char>) -> bool {
    forall|i: int| 0 <= i < split(backslashed(s), '\\').len() ==> {
        let p = #[trigger] split(backslashed(s), '\\')[i];
        p != seq!['.'] && p != seq!['.', '.']
    }
}

/// `X:` followed by a separator: a drive path with a root.
pub open spec fn disk_form(s: Seq<char>) -> bool {
    s.len() >= 3 && is_ascii_letter(s[0]) && s[1] == ':' && (s[2] == '\\' || s[2] == '/')
}

/// `\\?\X:` alone or followed by `\`: a verbatim drive path.
pub open spec fn verbatim_disk_form(s: Seq<char>) -> bool {
    &&& s.len() >= 6
    &&& s[0] == '\\' && s[1] == '\\' && s[2] == '?' && s[3] == '\\'
    &&& is_ascii_letter(s[4]) && s[5] == ':'
    &&& (s.len() == 6 || s[6] == '\\')
}

/// The named components of a Windows drive path, after its prefix.
pub open spec fn windows_names(s: Seq<char>) -> Seq<Seq<char>> {
    if verbatim_disk_form(s) {
        nonempty_pieces(split(s.skip(6), '\\'))
    } else {
        nonempty_pieces(split(backslashed(s.skip(2)), '\\'))
    }
}

/// The text of a name before its first `.`, ASCII-uppercased.
pub open spec fn upper_stem(name: Seq<char>) -> Seq<char> {
    split(name, '.')[0].map_values(|c: char| if 'a' <= c && c <= 'z' { ((c as u32) - 32) as char } else { c })
}

/// A digit that makes `COM` or `LPT` a device name: 1..9 or a superscript 1..3.
pub open spec fn device_digit(c: char) -> bool {
    ('1' <= c && c <= '9') || c == '\u{b9}' || c == '\u{b2}' || c == '\u{b3}'
}

/// A reserved Windows device name stem.
pub open spec fn device_stem(stem: Seq<char>) -> bool {
    ||| stem == seq!['C', 'O', 'N']
    ||| stem == seq!['P', 'R', 'N']
    ||| stem == seq!['A', 'U', 'X']
    ||| stem == seq!['N', 'U', 'L']
    ||| stem == seq!['C', 'L', 'O', 'C', 'K', '$']
    ||| (stem.len() == 4 && (stem.take(3) == seq!['C', 'O', 'M'] || stem.take(3) == seq!['L', 'P', 'T']) && device_digit(stem[3]))
}

/// A Windows component name without a stream separator, an ambiguous
/// trailing dot or space, or a device name.
pub open spec fn windows_name_ok(name: Seq<char>) -> bool {
    &&& forall|i: int| 0 <= i < name.len() ==> name[i] != ':'
    &&& !(name.len() > 0 && (name.last() == '.' || name.last() == ' '))
    &&& !device_stem(upper_stem(name))
}

/// A bounded absolute local path without dot segments or NUL; on Windows a
/// drive path whose names are neither streams, ambiguous nor devices.
pub open spec fn spec_valid_policy_path(s: Seq<char>, style: PathStyle) -> bool {
    &&& s.len() > 0
    &&& utf8_len(s) <= MAX_POLICY_PATH_BYTES
    &&& forall|i: int| 0 <= i < s.len() ==> s[i] != '\0'
    &&& dot_free(s)
    &&& match style {
        PathStyle::Posix => s[0] == '/',
        PathStyle::Windows => {
            &&& (disk_form(s) || verbatim_disk_form(s))
            &&& forall|i: int| 0 <= i < windows_names(s).len() ==> windows_name_ok(#[trigger] windows_names(s)[i])
        },
    }
}

/// The components by which two paths are the same path.
pub open spec fn policy_path_key(s: Seq<char>, style: PathStyle) -> Seq<Seq<char>> {
    match style {
        PathStyle::Posix => posix_components(s),
        PathStyle::Windows => if verbatim_disk_form(s) {
            seq![seq!['\\', '?', ascii_upper(s[4]), ':']] + (if s.len() > 6 { seq![seq!['\\']] } else { Seq::empty() }) + windows_names(s)
        } else {
            seq![seq![ascii_upper(s[0]), ':'], seq!['\\']] + windows_names(s)
        },
    }
}

proof fn lemma_nonempty_pieces_push(ps: Seq<Seq<char>>, p: Seq<char>)
    ensures
        nonempty_pieces(ps.push(p)) == (if p.len() == 0 { nonempty_pieces(ps) } else { nonempty_pieces(ps).push(p) }),
{
    assert(ps.push(p).drop_last() =~= ps);
}

fn nonempty_of(pieces: &Vec<Vec<char>>) -> (r: Vec<Vec<char>>)
    ensures
        views(r@) == nonempty_pieces(views(pieces@)),
{
    let mut out: Vec<Vec<char>> = Vec::new();
    let mut i: usize = 0;
    proof {
        assert(views(pieces@).take(0) =~= Seq::<Seq<char>>::empty());
        assert(views(out@) =~= Seq::<Seq<char>>::empty());
    }
    while i < pieces.len()
        invariant
            i <= pieces@.len(),
            views(out@) == nonempty_pieces(views(pieces@).take(i as int)),
        decreases pieces@.len() - i,
    {
        proof {
            lemma_nonempty_pieces_push(views(pieces@).take(i as int), pieces@[i as int]@);
            assert(views(pieces@).take(i as int).push(pieces@[i as int]@) =~= views(pieces@).take(i as int + 1));
        }
        if pieces[i].len() > 0 {
            let c = copy_chars(&pieces[i]);
            let ghost old_out = out@;
            out.push(c);
            proof {
                assert(views(out@) =~= views(old_out).push(c@));
            }
        }
        i = i + 1;
    }
    proof {
        assert(views(pieces@).take(pieces@.len() as int) =~= views(pieces@));
    }
    out
}

pub(crate) fn copy_chars(v: &Vec<char>) -> (r: Vec<char>)
    ensures
        r@ == v@,
{
    let mut out: Vec<char> = Vec::new();
    let mut i: usize = 0;
    while i < v.len()
        invariant
            i <= v@.len(),
            out@ == v@.take(i as int),
        decreases v@.len() - i,
    {
        out.push(v[i]);
        i = i + 1;
        proof {
            assert(out@ =~= v@.take(i as int));
        }
    }
    proof {
        assert(v@.take(v@.len() as int) =~= v@);
    }
    out
}

fn backslash_all(v: &[char]) -> (r: Vec<char>)
    ensures
        r@ == backslashed(v@),
{
    let mut t: Vec<char> = Vec::new();
    let mut i: usize = 0;
    while i < v.len()
        invariant
            i <= v@.len(),
            t@ == backslashed(v@.take(i as int)),
        decreases v@.len() - i,
    {
        t.push(if v[i] == '/' { '\\' } else { v[i] });
        i = i + 1;
        proof {
            assert(t@ =~= backslashed(v@.take(i as int)));
        }
    }
    proof {
        assert(v@.take(v@.len() as int) =~= v@);
    }
    t
}

fn skip_chars(v: &[char], k: usize) -> (r: Vec<char>)
    requires
        k <= v@.len(),
    ensures
        r@ == v@.skip(k as int),
{
    let mut out: Vec<char> = Vec::new();
    let mut i: usize = k;
    while i < v.len()
        invariant
            k <= i <= v@.len(),
            out@ == v@.subrange(k as int, i as int),
        decreases v@.len() - i,
    {
        out.push(v[i]);
        i = i + 1;
        proof {
            assert(out@ =~= v@.subrange(k as int, i as int));
        }
    }
    proof {
        assert(v@.subrange(k as int, v@.len() as int) =~= v@.skip(k as int));
    }
    out
}

fn dot_free_exec(v: &[char]) -> (b: bool)
    ensures
        b == dot_free(v@),
{
    let t = backslash_all(v);
    let pieces = split_chars(t.as_slice(), '\\');
    let mut i: usize = 0;
    while i < pieces.len()
        invariant
            i <= pieces@.len(),
            views(pieces@) == split(backslashed(v@), '\\'),
            forall|j: int| 0 <= j < i ==> {
                let p = #[trigger] split(backslashed(v@), '\\')[j];
                p != seq!['.'] && p != seq!['.', '.']
            },
        decreases pieces@.len() - i,
    {
        let p = &pieces[i];
        let one = p.len() == 1 && p[0] == '.';
        let two = p.len() == 2 && p[0] == '.' && p[1] == '.';
        proof {
            assert(split(backslashed(v@), '\\')[i as int] == p@);
            if one {
                assert(p@ =~= seq!['.']);
            }
            if two {
                assert(p@ =~= seq!['.', '.']);
            }
            if p@ == seq!['.'] {
                assert(p@[0] == '.');
            }
            if p@ == seq!['.', '.'] {
                assert(p@[0] == '.' && p@[1] == '.');
            }
        }
        if one || two {
            return false;
        }
        i = i + 1;
    }
    true
}

fn upper(c: char) -> (r: char)
    ensures
        r == (if 'a' <= c && c <= 'z' { ((c as u32) - 32) as char } else { c }),
{
    if 'a' <= c && c <= 'z' {
        let code: u8 = ((c as u32) - 32) as u8;
        code as char
    } else {
        c
    }
}

fn device_name(name: &Vec<char>) -> (b: bool)
    ensures
        b == device_stem(upper_stem(name@)),
{
    let parts = split_chars(name.as_slice(), '.');
    proof {
        crate::text::lemma_split_nonempty(name@, '.');
    }
    let first = &parts[0];
    let mut stem: Vec<char> = Vec::new();
    let mut i: usize = 0;
    while i < first.len()
        invariant
            i <= first@.len(),
            stem@ == first@.take(i as int).map_values(|c: char| if 'a' <= c && c <= 'z' { ((c as u32) - 32) as char } else { c }),
        decreases first@.len() - i,
    {
        stem.push(upper(first[i]));
        i = i + 1;
        proof {
            assert(stem@ =~= first@.take(i as int).map_values(|c: char| if 'a' <= c && c <= 'z' { ((c as u32) - 32) as char } else { c }));
        }
    }
    proof {
        assert(first@.take(first@.len() as int) =~= first@);
        assert(split(name@, '.')[0] == first@);
        assert(stem@ =~= upper_stem(name@));
    }
    let s = stem;
    let n = s.len();
    let three = n == 3 && ((s[0] == 'C' && s[1] == 'O' && s[2] == 'N') || (s[0] == 'P' && s[1] == 'R' && s[2] == 'N')
        || (s[0] == 'A' && s[1] == 'U' && s[2] == 'X') || (s[0] == 'N' && s[1] == 'U' && s[2] == 'L'));
    let clock = n == 6 && s[0] == 'C' && s[1] == 'L' && s[2] == 'O' && s[3] == 'C' && s[4] == 'K' && s[5] == '$';
    let port = n == 4 && ((s[0] == 'C' && s[1] == 'O' && s[2] == 'M') || (s[0] == 'L' && s[1] == 'P' && s[2] == 'T'))
        && (('1' <= s[3] && s[3] <= '9') || s[3] == '\u{b9}' || s[3] == '\u{b2}' || s[3] == '\u{b3}');
    proof {
        let t = s@;
        if t.len() == 3 {
            assert((t =~= seq!['C', 'O', 'N']) == (t[0] == 'C' && t[1] == 'O' && t[2] == 'N'));
            assert((t =~= seq!['P', 'R', 'N']) == (t[0] == 'P' && t[1] == 'R' && t[2] == 'N'));
            assert((t =~= seq!['A', 'U', 'X']) == (t[0] == 'A' && t[1] == 'U' && t[2] == 'X'));
            assert((t =~= seq!['N', 'U', 'L']) == (t[0] == 'N' && t[1] == 'U' && t[2] == 'L'));
        }
        if t.len() == 6 {
            assert((t =~= seq!['C', 'L', 'O', 'C', 'K', '$']) == (t[0] == 'C' && t[1] == 'L' && t[2] == 'O' && t[3] == 'C' && t[4] == 'K'
                && t[5] == '$'));
        }
        if t.len() == 4 {
            assert((t.take(3) =~= seq!['C', 'O', 'M']) == (t[0] == 'C' && t[1] == 'O' && t[2] == 'M'));
            assert((t.take(3) =~= seq!['L', 'P', 'T']) == (t[0] == 'L' && t[1] == 'P' && t[2] == 'T'));
        }
    }
    three || clock || port
}

fn windows_name_valid(name: &Vec<char>) -> (b: bool)
    ensures
        b == windows_name_ok(name@),
{
    let mut i: usize = 0;
    while i < name.len()
        invariant
            i <= name@.len(),
            forall|j: int| 0 <= j < i ==> name@[j] != ':',
        decreases name@.len() - i,
    {
        if name[i] == ':' {
            return false;
        }
        i = i + 1;
    }
    if name.len() > 0 && (name[name.len() - 1] == '.' || name[name.len() - 1] == ' ') {
        return false;
    }
    !device_name(name)
}

pub(crate) fn windows_names_of(v: &[char]) -> (r: Vec<Vec<char>>)
    requires
        disk_form(v@) || verbatim_disk_form(v@),
    ensures
        views(r@) == windows_names(v@),
{
    if v.len() >= 6 && v[0] == '\\' && v[1] == '\\' && v[2] == '?' && v[3] == '\\'
        && (('a' <= v[4] && v[4] <= 'z') || ('A' <= v[4] && v[4] <= 'Z')) && v[5] == ':' && (v.len() == 6 || v[6] == '\\') {
        let rest = skip_chars(v, 6);
        let pieces = split_chars(rest.as_slice(), '\\');
        nonempty_of(&pieces)
    } else {
        let rest = skip_chars(v, 2);
        let t = backslash_all(rest.as_slice());
        let pieces = split_chars(t.as_slice(), '\\');
        nonempty_of(&pieces)
    }
}

/// Refuses a path that is not a bounded absolute local path without dot
/// segments or NUL; on Windows also non-drive prefixes, stream separators,
/// ambiguous trailing characters and device names.
pub fn validate_policy_path(path: &str, style: PathStyle) -> (r: Result<(), PermissionPolicyError>)
    ensures
        r is Ok <==> spec_valid_policy_path(path@, style),
{
    let v = chars_of(path);
    let mut no_nul = true;
    let mut i: usize = 0;
    while i < v.len()
        invariant
            i <= v@.len(),
            no_nul == forall|j: int| 0 <= j < i ==> v@[j] != '\0',
        decreases v@.len() - i,
    {
        if v[i] == '\0' {
            no_nul = false;
        }
        i = i + 1;
    }
    let rooted = match style {
        PathStyle::Posix => v.len() > 0 && v[0] == '/',
        PathStyle::Windows => {
            let disk = v.len() >= 3 && (('a' <= v[0] && v[0] <= 'z') || ('A' <= v[0] && v[0] <= 'Z')) && v[1] == ':'
                && (v[2] == '\\' || v[2] == '/');
            let verbatim = v.len() >= 6 && v[0] == '\\' && v[1] == '\\' && v[2] == '?' && v[3] == '\\' && (('a' <= v[4]
                && v[4] <= 'z') || ('A' <= v[4] && v[4] <= 'Z')) && v[5] == ':' && (v.len() == 6 || v[6] == '\\');
            disk || verbatim
        },
    };
    if v.len() == 0 || !utf8_within(v.as_slice(), MAX_POLICY_PATH_BYTES) || !no_nul || !rooted || !dot_free_exec(v.as_slice()) {
        return Err(policy_error("broker paths must be bounded absolute local paths without dot segments or NUL"));
    }
    match style {
        PathStyle::Posix => Ok(()),
        PathStyle::Windows => {
            let names = windows_names_of(v.as_slice());
            let mut k: usize = 0;
            while k < names.len()
                invariant
                    k <= names@.len(),
                    views(names@) == windows_names(v@),
                    v@ == path@,
                    style == PathStyle::Windows,
                    forall|j: int| 0 <= j < k ==> windows_name_ok(#[trigger] windows_names(v@)[j]),
                decreases names@.len() - k,
            {
                if !windows_name_valid(&names[k]) {
                    proof {
                        assert(windows_names(v@)[k as int] == names@[k as int]@);
                    }
                    return Err(policy_error("broker paths reject Windows stream separators, ambiguous trailing characters and device names"));
                }
                proof {
                    assert(windows_names(v@)[k as int] == names@[k as int]@);
                }
                k = k + 1;
            }
            Ok(())
        },
    }
}

} // verus!

verus! {

/// Index of the last `c`, or -1.
pub open spec fn last_index(s: Seq<char>, c: char) -> int
    decreases s.len(),
{
    if s.len() == 0 {
        -1
    } else if s.last() == c {
        s.len() - 1
    } else {
        last_index(s.drop_last(), c)
    }
}

/// A Windows path whose file name has the extension `exe` (any case).
pub open spec fn exe_path(s: Seq<char>) -> bool {
    let names = windows_names(s);
    names.len() > 0 && {
        let n = names.last();
        let i = last_index(n, '.');
        i > 0 && eq_ignore_ascii_case(n.skip(i + 1), seq!['e', 'x', 'e'])
    }
}

/// A bounded list of valid, distinct paths; executables on Windows must be
/// `.exe` files.
pub open spec fn spec_valid_paths(paths: Seq<Seq<char>>, style: PathStyle, executables: bool) -> bool {
    &&& paths.len() <= MAX_BROKER_SCOPES
    &&& forall|i: int| 0 <= i < paths.len() ==> spec_valid_policy_path(#[trigger] paths[i], style)
    &&& (executables && style == PathStyle::Windows) ==> forall|i: int| 0 <= i < paths.len() ==> exe_path(#[trigger] paths[i])
    &&& forall|i: int, j: int| 0 <= i < j < paths.len() ==> policy_path_key(paths[i], style) != policy_path_key(paths[j], style)
}

/// The exact origin of an HTTP(S) URL with only scheme, host and port.
pub open spec fn spec_policy_origin(value: Seq<char>) -> Option<Seq<char>> {
    if utf8_len(value) > MAX_POLICY_ORIGIN_BYTES {
        None
    } else {
        match url_parts(value) {
            None => None,
            Some(u) => if (u.scheme == seq!['h', 't', 't', 'p'] || u.scheme == seq!['h', 't', 't', 'p', 's']) && u.host is Some
                && u.username.len() == 0 && u.password is None && (u.path.len() == 0 || u.path == seq!['/'])
                && u.query is None && u.fragment is None {
                Some(u.scheme + seq![':', '/', '/'] + u.host.unwrap() + port_suffix(u.port))
            } else {
                None
            },
        }
    }
}

/// A bounded list of distinct origins, each already in normal form.
pub open spec fn spec_valid_origins(origins: Seq<Seq<char>>) -> bool {
    &&& origins.len() <= MAX_BROKER_SCOPES
    &&& forall|i: int| 0 <= i < origins.len() ==> spec_policy_origin(#[trigger] origins[i]) == Some(origins[i])
    &&& forall|i: int, j: int| 0 <= i < j < origins.len() ==> origins[i] != origins[j]
}

/// Valid scopes: read roots, network origins and executables.
pub open spec fn spec_valid_scopes(read_roots: Seq<Seq<char>>, origins: Seq<Seq<char>>, executables: Seq<Seq<char>>, style: PathStyle) -> bool {
    &&& spec_valid_paths(read_roots, style, false)
    &&& spec_valid_paths(executables, style, true)
    &&& spec_valid_origins(origins)
}

/// The invariants of every stored broker policy.
pub open spec fn spec_valid_policy(p: BrokerPolicy, style: PathStyle) -> bool {
    spec_valid_scopes(p.read_roots.deep_view(), p.network_origins.deep_view(), p.executables.deep_view(), style)
}

/// Every origin normalises.
pub open spec fn all_normalise(origins: Seq<String>) -> bool {
    forall|i: int| 0 <= i < origins.len() ==> (#[trigger] spec_policy_origin(origins[i]@)) is Some
}

/// The normal forms of origins that all normalise.
pub open spec fn normalised(origins: Seq<String>) -> Seq<Seq<char>> {
    Seq::new(origins.len(), |i: int| spec_policy_origin(origins[i]@).unwrap())
}

/// Normalises an explicit network origin: an absolute HTTP(S) URL with
/// only scheme, host and optional port.
pub fn normalize_origin(value: &str) -> (r: Result<String, PermissionPolicyError>)
    ensures
        match spec_policy_origin(value@) {
            Some(o) => r matches Ok(s) && s@ == o,
            None => r is Err,
        },
{
    let v = chars_of(value);
    if !utf8_within(v.as_slice(), MAX_POLICY_ORIGIN_BYTES) {
        return Err(policy_error("network origin is too long"));
    }
    let u = match parse_url(value) {
        Some(u) => u,
        None => return Err(policy_error("network origin must be an absolute HTTP(S) origin")),
    };
    let s = chars_of(u.scheme.as_str());
    let http = s.len() == 4 && s[0] == 'h' && s[1] == 't' && s[2] == 't' && s[3] == 'p';
    let https = s.len() == 5 && s[0] == 'h' && s[1] == 't' && s[2] == 't' && s[3] == 'p' && s[4] == 's';
    let path = chars_of(u.path.as_str());
    let path_ok = path.len() == 0 || (path.len() == 1 && path[0] == '/');
    proof {
        assert((s@ =~= seq!['h', 't', 't', 'p']) == http);
        assert((s@ =~= seq!['h', 't', 't', 'p', 's']) == https);
        assert(path_ok == (path@.len() == 0 || path@ =~= seq!['/']));
    }
    let user_empty = u.username.as_str().unicode_len() == 0;
    if !(http || https) || u.host.is_none() || !user_empty || u.password.is_some() || !path_ok || u.query.is_some()
        || u.fragment.is_some() {
        return Err(policy_error(
            "network origin must contain only HTTP(S) scheme, host and optional port; no credentials, path, query or fragment",
        ));
    }
    let host = match &u.host {
        Some(h) => h.as_str(),
        None => "",
    };
    Ok(serialize_origin(s.as_slice(), host, u.port))
}

fn last_dot(n: &Vec<char>) -> (r: usize)
    ensures
        r <= n@.len(),
        r == n@.len() ==> last_index(n@, '.') == -1,
        r < n@.len() ==> last_index(n@, '.') == r as int,
{
    let mut k: usize = n.len();
    proof {
        assert(n@.take(k as int) =~= n@);
    }
    while k > 0
        invariant
            k <= n@.len(),
            last_index(n@, '.') == last_index(n@.take(k as int), '.'),
        decreases k,
    {
        proof {
            assert(n@.take(k as int).drop_last() =~= n@.take(k as int - 1));
        }
        if n[k - 1] == '.' {
            return k - 1;
        }
        k = k - 1;
    }
    n.len()
}

fn exe_path_exec(v: &[char]) -> (b: bool)
    requires
        disk_form(v@) || verbatim_disk_form(v@),
    ensures
        b == exe_path(v@),
{
    let names = windows_names_of(v);
    if names.len() == 0 {
        return false;
    }
    let n = &names[names.len() - 1];
    proof {
        assert(windows_names(v@).last() == n@);
    }
    let i = last_dot(n);
    if i == n.len() || i == 0 {
        return false;
    }
    let ext = skip_chars(n.as_slice(), i + 1);
    let mut exe: Vec<char> = Vec::new();
    exe.push('e');
    exe.push('x');
    exe.push('e');
    proof {
        assert(exe@ =~= seq!['e', 'x', 'e']);
    }
    crate::text::chars_eq_ignore_ascii_case(ext.as_slice(), exe.as_slice())
}

fn policy_key_of(path: &str, style: PathStyle) -> (r: Vec<Vec<char>>)
    requires
        spec_valid_policy_path(path@, style),
    ensures
        views(r@) == policy_path_key(path@, style),
{
    match style {
        PathStyle::Posix => crate::platform::path::posix_components_of(path),
        PathStyle::Windows => {
            let v = chars_of(path);
            let names = windows_names_of(v.as_slice());
            let mut out: Vec<Vec<char>> = Vec::new();
            let verbatim = v.len() >= 6 && v[0] == '\\' && v[1] == '\\' && v[2] == '?' && v[3] == '\\' && (('a' <= v[4]
                && v[4] <= 'z') || ('A' <= v[4] && v[4] <= 'Z')) && v[5] == ':' && (v.len() == 6 || v[6] == '\\');
            if verbatim {
                let mut p: Vec<char> = Vec::new();
                p.push('\\');
                p.push('?');
                p.push(crate::text::upper_char(v[4]));
                p.push(':');
                proof {
                    assert(p@ =~= seq!['\\', '?', ascii_upper(v@[4]), ':']);
                }
                out.push(p);
                if v.len() > 6 {
                    let mut root: Vec<char> = Vec::new();
                    root.push('\\');
                    proof {
                        assert(root@ =~= seq!['\\']);
                    }
                    out.push(root);
                    proof {
                        assert(views(out@) =~= seq![seq!['\\', '?', ascii_upper(v@[4]), ':'], seq!['\\']]);
                    }
                } else {
                    proof {
                        assert(views(out@) =~= seq![seq!['\\', '?', ascii_upper(v@[4]), ':']]);
                    }
                }
            } else {
                let mut p: Vec<char> = Vec::new();
                p.push(crate::text::upper_char(v[0]));
                p.push(':');
                proof {
                    assert(p@ =~= seq![ascii_upper(v@[0]), ':']);
                }
                out.push(p);
                let mut root: Vec<char> = Vec::new();
                root.push('\\');
                proof {
                    assert(root@ =~= seq!['\\']);
                }
                out.push(root);
                proof {
                    assert(views(out@) =~= seq![seq![ascii_upper(v@[0]), ':'], seq!['\\']]);
                }
            }
            let ghost lead = views(out@);
            let mut i: usize = 0;
            while i < names.len()
                invariant
                    i <= names@.len(),
                    views(out@) == lead + views(names@).take(i as int),
                decreases names@.len() - i,
            {
                let c = copy_chars(&names[i]);
                let ghost old_out = out@;
                out.push(c);
                proof {
                    assert(views(out@) =~= views(old_out).push(c@));
                    assert(views(names@).take(i as int + 1) =~= views(names@).take(i as int).push(names@[i as int]@));
                }
                i = i + 1;
                proof {
                    assert(views(out@) =~= lead + views(names@).take(i as int));
                }
            }
            proof {
                assert(views(names@).take(names@.len() as int) =~= views(names@));
                if verbatim {
                    assert(verbatim_disk_form(path@));
                    if v@.len() > 6 {
                        assert(lead =~= seq![seq!['\\', '?', ascii_upper(v@[4]), ':'], seq!['\\']]);
                    } else {
                        assert(lead =~= seq![seq!['\\', '?', ascii_upper(v@[4]), ':']]);
                    }
                } else {
                    assert(!verbatim_disk_form(path@));
                    assert(lead =~= seq![seq![ascii_upper(v@[0]), ':'], seq!['\\']]);
                }
                assert(views(out@) =~= policy_path_key(path@, style));
            }
            out
        },
    }
}

fn same_key(a: &Vec<Vec<char>>, b: &Vec<Vec<char>>) -> (r: bool)
    ensures
        r == (views(a@) == views(b@)),
{
    if a.len() != b.len() {
        proof {
            assert(views(a@).len() != views(b@).len());
        }
        return false;
    }
    let mut i: usize = 0;
    while i < a.len()
        invariant
            i <= a@.len(),
            a@.len() == b@.len(),
            forall|j: int| 0 <= j < i ==> views(a@)[j] == views(b@)[j],
        decreases a@.len() - i,
    {
        if !crate::text::chars_equal(a[i].as_slice(), b[i].as_slice()) {
            proof {
                assert(views(a@)[i as int] != views(b@)[i as int]);
            }
            return false;
        }
        i = i + 1;
    }
    proof {
        assert(views(a@) =~= views(b@));
    }
    true
}

fn validate_paths(paths: &Vec<String>, style: PathStyle, executables: bool, name_error: &str) -> (r: Result<(), PermissionPolicyError>)
    ensures
        r is Ok <==> spec_valid_paths(paths.deep_view(), style, executables),
{
    if paths.len() > MAX_BROKER_SCOPES {
        return Err(policy_error(name_error));
    }
    let mut keys: Vec<Vec<Vec<char>>> = Vec::new();
    let mut i: usize = 0;
    while i < paths.len()
        invariant
            i <= paths@.len(),
            paths@.len() <= MAX_BROKER_SCOPES,
            keys@.len() == i,
            forall|j: int| 0 <= j < i ==> spec_valid_policy_path(#[trigger] paths.deep_view()[j], style),
            (executables && style == PathStyle::Windows) ==> forall|j: int| 0 <= j < i ==> exe_path(#[trigger] paths.deep_view()[j]),
            forall|j: int| 0 <= j < i ==> views(#[trigger] keys@[j]@) == policy_path_key(paths.deep_view()[j], style),
            forall|a: int, b: int| 0 <= a < b < i ==> policy_path_key(paths.deep_view()[a], style) != policy_path_key(paths.deep_view()[b], style),
        decreases paths@.len() - i,
    {
        proof {
            assert(paths.deep_view()[i as int] == paths@[i as int]@);
        }
        validate_policy_path(paths[i].as_str(), style)?;
        if executables && style == PathStyle::Windows {
            let v = chars_of(paths[i].as_str());
            if !exe_path_exec(v.as_slice()) {
                return Err(policy_error("executables must name .exe files"));
            }
        }
        let k = policy_key_of(paths[i].as_str(), style);
        let mut j: usize = 0;
        while j < i
            invariant
                j <= i,
                i < paths@.len(),
                keys@.len() == i,
                views(k@) == policy_path_key(paths.deep_view()[i as int], style),
                forall|q: int| 0 <= q < i ==> views(#[trigger] keys@[q]@) == policy_path_key(paths.deep_view()[q], style),
                forall|q: int| 0 <= q < j ==> policy_path_key(paths.deep_view()[q], style) != policy_path_key(paths.deep_view()[i as int], style),
            decreases i - j,
        {
            if same_key(&keys[j], &k) {
                return Err(policy_error("broker paths contain duplicates"));
            }
            j = j + 1;
        }
        keys.push(k);
        i = i + 1;
    }
    Ok(())
}

fn validate_origins(origins: &Vec<String>) -> (r: Result<(), PermissionPolicyError>)
    ensures
        r is Ok <==> spec_valid_origins(origins.deep_view()),
{
    if origins.len() > MAX_BROKER_SCOPES {
        return Err(policy_error("networkOrigins exceeds its entry bound"));
    }
    let mut i: usize = 0;
    while i < origins.len()
        invariant
            i <= origins@.len(),
            origins@.len() <= MAX_BROKER_SCOPES,
            forall|j: int| 0 <= j < i ==> spec_policy_origin(#[trigger] origins.deep_view()[j]) == Some(origins.deep_view()[j]),
            forall|a: int, b: int| 0 <= a < b < i ==> origins.deep_view()[a] != origins.deep_view()[b],
        decreases origins@.len() - i,
    {
        proof {
            assert(origins.deep_view()[i as int] == origins@[i as int]@);
        }
        let n = normalize_origin(origins[i].as_str())?;
        if !crate::text::str_equal(n.as_str(), origins[i].as_str()) {
            return Err(policy_error("networkOrigins must use normalized exact HTTP(S) origins without a trailing slash"));
        }
        let mut j: usize = 0;
        while j < i
            invariant
                j <= i,
                i < origins@.len(),
                forall|q: int| 0 <= q < j ==> origins.deep_view()[q] != origins.deep_view()[i as int],
            decreases i - j,
        {
            proof {
                assert(origins.deep_view()[j as int] == origins@[j as int]@);
            }
            if crate::text::str_equal(origins[j].as_str(), origins[i].as_str()) {
                proof {
                    assert(origins.deep_view()[i as int] == origins@[i as int]@);
                    assert(origins.deep_view()[j as int] == origins.deep_view()[i as int]);
                }
                return Err(policy_error("networkOrigins contains duplicates"));
            }
            j = j + 1;
        }
        i = i + 1;
    }
    Ok(())
}

impl BrokerPolicy {
    /// Whether the policy grants no scope at all.
    pub fn is_empty(&self) -> (b: bool)
        ensures
            b == (self.read_roots@.len() == 0 && self.network_origins@.len() == 0 && self.executables@.len() == 0),
    {
        self.read_roots.len() == 0 && self.network_origins.len() == 0 && self.executables.len() == 0
    }

    /// Refuses a policy with too many, invalid or duplicate scopes.
    pub fn validate(&self, style: PathStyle) -> (r: Result<(), PermissionPolicyError>)
        ensures
            r is Ok <==> spec_valid_policy(*self, style),
    {
        validate_paths(&self.read_roots, style, false, "readRoots exceeds 32 entries")?;
        validate_paths(&self.executables, style, true, "executables exceeds 32 entries")?;
        validate_origins(&self.network_origins)
    }

    /// Refuses a policy that is invalid or whose scopes lack their explicit grant.
    pub fn validate_grants(&self, grants: &Vec<Permission>, style: PathStyle) -> (r: Result<(), PermissionPolicyError>)
        ensures
            r is Ok <==> (spec_valid_policy(*self, style)
                && (self.read_roots@.len() > 0 ==> grants@.contains(Permission::HostFs))
                && (self.network_origins@.len() > 0 ==> grants@.contains(Permission::HostNetwork))
                && (self.executables@.len() > 0 ==> grants@.contains(Permission::HostProcess))),
    {
        self.validate(style)?;
        if self.read_roots.len() > 0 && !contains_permission(grants, Permission::HostFs) {
            return Err(policy_error("broker scope requires explicit host.fs grant"));
        }
        if self.network_origins.len() > 0 && !contains_permission(grants, Permission::HostNetwork) {
            return Err(policy_error("broker scope requires explicit host.network grant"));
        }
        if self.executables.len() > 0 && !contains_permission(grants, Permission::HostProcess) {
            return Err(policy_error("broker scope requires explicit host.process grant"));
        }
        Ok(())
    }

    /// Builds a policy from explicitly supplied scopes: paths already
    /// canonicalised by the caller, origins normalised here.
    pub fn from_explicit_inputs(read_roots: Vec<String>, network_origins: &Vec<String>, executables: Vec<String>, style: PathStyle) -> (r: Result<BrokerPolicy, PermissionPolicyError>)
        ensures
            r is Ok <==> (all_normalise(network_origins@) && spec_valid_scopes(
                read_roots.deep_view(),
                normalised(network_origins@),
                executables.deep_view(),
                style,
            )),
            r matches Ok(p) ==> p.read_roots == read_roots && p.executables == executables
                && p.network_origins.deep_view() == normalised(network_origins@),
    {
        let mut origins: Vec<String> = Vec::new();
        let mut i: usize = 0;
        while i < network_origins.len()
            invariant
                i <= network_origins@.len(),
                origins@.len() == i,
                forall|j: int| 0 <= j < i ==> (#[trigger] spec_policy_origin(network_origins@[j]@)) == Some(origins@[j]@),
            decreases network_origins@.len() - i,
        {
            let o = match normalize_origin(network_origins[i].as_str()) {
                Ok(o) => o,
                Err(e) => {
                    proof {
                        assert(spec_policy_origin(network_origins@[i as int]@) is None);
                    }
                    return Err(e);
                },
            };
            origins.push(o);
            i = i + 1;
        }
        proof {
            assert(origins.deep_view() =~= normalised(network_origins@));
        }
        let policy = BrokerPolicy { read_roots, network_origins: origins, executables };
        policy.validate(style)?;
        Ok(policy)
    }
}

impl LocalPluginRegistration {
    /// Withdraws one grant and, for a broker permission, its scopes.
    /// Removing one grant never broadens another. Reports whether anything
    /// changed.
    pub fn remove_permission(&mut self, permission: Permission) -> (changed: bool)
        ensures
            final(self).path == old(self).path,
            final(self).grants@ == old(self).grants@.filter(|g: Permission| g != permission),
            final(self).broker_policy.read_roots@ == (if permission == Permission::HostFs { Seq::empty() } else { old(self).broker_policy.read_roots@ }),
            final(self).broker_policy.network_origins@ == (if permission == Permission::HostNetwork { Seq::empty() } else { old(self).broker_policy.network_origins@ }),
            final(self).broker_policy.executables@ == (if permission == Permission::HostProcess { Seq::empty() } else { old(self).broker_policy.executables@ }),
            changed == (old(self).grants@.contains(permission)
                || (permission == Permission::HostFs && old(self).broker_policy.read_roots@.len() > 0)
                || (permission == Permission::HostNetwork && old(self).broker_policy.network_origins@.len() > 0)
                || (permission == Permission::HostProcess && old(self).broker_policy.executables@.len() > 0)),
    {
        let ghost pred = |g: Permission| g != permission;
        let mut kept: Vec<Permission> = Vec::new();
        let mut removed = false;
        let mut i: usize = 0;
        proof {
            reveal_with_fuel(Seq::<Permission>::filter, 1);
            assert(self.grants@.take(0) =~= Seq::<Permission>::empty());
        }
        while i < self.grants.len()
            invariant
                i <= self.grants@.len(),
                pred == (|g: Permission| g != permission),
                kept@ == self.grants@.take(i as int).filter(pred),
                removed == self.grants@.take(i as int).contains(permission),
            decreases self.grants@.len() - i,
        {
            let g = self.grants[i];
            proof {
                reveal_with_fuel(Seq::<Permission>::filter, 1);
                assert(self.grants@.take(i as int + 1).drop_last() =~= self.grants@.take(i as int));
                assert(self.grants@.take(i as int + 1).last() == g);
            }
            if g != permission {
                kept.push(g);
            } else {
                removed = true;
            }
            proof {
                let t = self.grants@.take(i as int + 1);
                assert(t.contains(permission) == (self.grants@.take(i as int).contains(permission) || g == permission)) by {
                    if t.contains(permission) {
                        let k = choose|k: int| 0 <= k < t.len() && t[k] == permission;
                        if k < i {
                            assert(self.grants@.take(i as int)[k] == permission);
                        }
                    }
                    if self.grants@.take(i as int).contains(permission) {
                        let k = choose|k: int| 0 <= k < i && self.grants@.take(i as int)[k] == permission;
                        assert(t[k] == permission);
                    }
                    if g == permission {
                        assert(t[i as int] == permission);
                    }
                }
            }
            i = i + 1;
        }
        proof {
            assert(self.grants@.take(self.grants@.len() as int) =~= self.grants@);
        }
        self.grants = kept;
        let mut changed = removed;
        match permission {
            Permission::HostFs => {
                if self.broker_policy.read_roots.len() > 0 {
                    changed = true;
                }
                self.broker_policy.read_roots = Vec::new();
            },
            Permission::HostNetwork => {
                if self.broker_policy.network_origins.len() > 0 {
                    changed = true;
                }
                self.broker_policy.network_origins = Vec::new();
            },
            Permission::HostProcess => {
                if self.broker_policy.executables.len() > 0 {
                    changed = true;
                }
                self.broker_policy.executables = Vec::new();
            },
            _ => {},
        }
        changed
    }
}

} // verus!
