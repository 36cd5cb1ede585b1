//! Credential metadata: references, origins, labels and the metadata
//! document, updated by compare-and-swap. Secrets themselves live in the
//! system credential store; only their metadata is modelled here.
use vstd::prelude::*;
use crate::text::{copy_string};

use crate::plugin_services::{ServiceCode, ServiceError, MAX_REVISION};
use crate::plugins::opt_view;
use crate::text::{any_control, chars_of, push_all, is_control, is_digit, is_lower_hex, string_from_chars, utf8_len, utf8_within};

verus! {

pub const MAX_CREDENTIALS: usize = 256;
pub const MAX_SECRET_BYTES: usize = 2048;
pub const MAX_LABEL_BYTES: usize = 128;
pub const MAX_ORIGIN_BYTES: usize = 2048;
pub const REFERENCE_RANDOM_BYTES: usize = 24;

/// `cred_` followed by 48 lowercase hexadecimal digits.
pub open spec fn spec_valid_reference(r: Seq<char>) -> bool {
    &&& r.len() == 53
    &&& r.take(5) == seq!['c', 'r', 'e', 'd', '_']
    &&& forall|i: int| 5 <= i < 53 ==> is_lower_hex(#[trigger] r[i])
}

/// Refuses a reference that is not `cred_` and 48 lowercase hex digits.
pub fn validate_reference(reference: &str) -> (r: Result<(), ServiceError>)
    ensures
        r is Ok <==> spec_valid_reference(reference@),
        r matches Err(e) ==> e.code == ServiceCode::InvalidParams,
{
    let v = chars_of(reference);
    let mut ok = v.len() == 53 && v[0] == 'c' && v[1] == 'r' && v[2] == 'e' && v[3] == 'd' && v[4] == '_';
    if ok {
        let mut i: usize = 5;
        while i < 53
            invariant
                v@.len() == 53,
                v@ == reference@,
                5 <= i <= 53,
                forall|j: int| 5 <= j < i ==> is_lower_hex(#[trigger] v@[j]),
            decreases 53 - i,
        {
            let c = v[i];
            if !(('0' <= c && c <= '9') || ('a' <= c && c <= 'f')) {
                proof {
                    assert(!is_lower_hex(v@[i as int]));
                }
                return Err(ServiceError::new(ServiceCode::InvalidParams, "credential reference is invalid"));
            }
            i = i + 1;
        }
        proof {
            assert(v@.take(5) =~= seq!['c', 'r', 'e', 'd', '_']);
        }
    } else {
        proof {
            if v@.len() == 53 {
                assert(v@.take(5)[0] == v@[0]);
                assert(v@.take(5)[1] == v@[1]);
                assert(v@.take(5)[2] == v@[2]);
                assert(v@.take(5)[3] == v@[3]);
                assert(v@.take(5)[4] == v@[4]);
            }
        }
        return Err(ServiceError::new(ServiceCode::InvalidParams, "credential reference is invalid"));
    }
    Ok(())
}

/// Unicode White_Space, the characters `str::trim` removes.
pub open spec fn is_white_space(c: char) -> bool {
    let u = c as u32;
    (0x09 <= u && u <= 0x0d) || u == 0x20 || u == 0x85 || u == 0xa0 || u == 0x1680
        || (0x2000 <= u && u <= 0x200a) || u == 0x2028 || u == 0x2029 || u == 0x202f
        || u == 0x205f || u == 0x3000
}

/// Whether the character is Unicode white space.
pub fn white_space(c: char) -> (b: bool)
    ensures
        b == is_white_space(c),
{
    let u: u32 = c as u32;
    (0x09 <= u && u <= 0x0d) || u == 0x20 || u == 0x85 || u == 0xa0 || u == 0x1680
        || (0x2000 <= u && u <= 0x200a) || u == 0x2028 || u == 0x2029 || u == 0x202f
        || u == 0x205f || u == 0x3000
}

/// A readable label: not blank, at most 128 UTF-8 bytes, no control
/// characters. No label at all is fine.
pub open spec fn spec_valid_label(label: Option<Seq<char>>) -> bool {
    match label {
        None => true,
        Some(l) => {
            &&& exists|i: int| 0 <= i < l.len() && !is_white_space(#[trigger] l[i])
            &&& utf8_len(l) <= MAX_LABEL_BYTES
            &&& forall|i: int| 0 <= i < l.len() ==> !is_control(#[trigger] l[i])
        },
    }
}

/// The view of an optional string slice.
pub open spec fn opt_str(s: Option<&str>) -> Option<Seq<char>> {
    match s {
        Some(v) => Some(v@),
        None => None,
    }
}

/// Refuses a blank, oversized or unreadable label.
pub fn validate_label(label: Option<&str>) -> (r: Result<(), ServiceError>)
    ensures
        r is Ok <==> spec_valid_label(opt_str(label)),
        r matches Err(e) ==> e.code == ServiceCode::InvalidParams,
{
    match label {
        None => {
            proof {
                assert(opt_str(label) is None);
                assert(spec_valid_label(None));
            }
            Ok(())
        },
        Some(l) => {
            let v = chars_of(l);
            let mut blank = true;
            let mut i: usize = 0;
            while i < v.len()
                invariant
                    i <= v@.len(),
                    blank == forall|j: int| 0 <= j < i ==> is_white_space(#[trigger] v@[j]),
                decreases v@.len() - i,
            {
                if !white_space(v[i]) {
                    blank = false;
                }
                i = i + 1;
            }
            if blank || !utf8_within(v.as_slice(), MAX_LABEL_BYTES) || any_control(v.as_slice()) {
                return Err(ServiceError::new(
                    ServiceCode::InvalidParams,
                    "credential label must contain 1..128 readable UTF-8 bytes",
                ));
            }
            Ok(())
        },
    }
}

/// Refuses a stale expected revision; the error carries the current one.
pub fn check_revision(current: u64, expected: u64) -> (r: Result<(), ServiceError>)
    ensures
        r is Ok <==> current == expected,
        r matches Err(e) ==> e.code == ServiceCode::CredentialConflict && e.revision == Some(current),
{
    if current == expected {
        Ok(())
    } else {
        let mut e = ServiceError::new(
            ServiceCode::CredentialConflict,
            "credential metadata changed in another window; read and retry",
        );
        e.revision = Some(current);
        Err(e)
    }
}

/// The error for a reference that is not in the namespace.
pub fn not_found() -> (e: ServiceError)
    ensures
        e.code == ServiceCode::CredentialNotFound,
        e.revision is None,
{
    ServiceError::new(ServiceCode::CredentialNotFound, "credential reference does not exist in this plugin namespace")
}

} // verus!

verus! {

/// The components of a parsed URL that an origin depends on.
#[derive(Debug, Clone)]
pub struct UrlParts {
    pub scheme: String,
    pub host: Option<String>,
    pub port: Option<u16>,
    pub username: String,
    pub password: Option<String>,
    pub query: Option<String>,
    pub fragment: Option<String>,
    pub path: String,
    /// The whole URL as the parser serialises it.
    pub href: String,
}

/// `UrlParts` as character sequences.
pub struct UrlPartsView {
    pub scheme: Seq<char>,
    pub host: Option<Seq<char>>,
    pub port: Option<u16>,
    pub username: Seq<char>,
    pub password: Option<Seq<char>>,
    pub query: Option<Seq<char>>,
    pub fragment: Option<Seq<char>>,
    pub path: Seq<char>,
    pub href: Seq<char>,
}

impl View for UrlParts {
    type V = UrlPartsView;

    open spec fn view(&self) -> UrlPartsView {
        UrlPartsView {
            scheme: self.scheme@,
            host: opt_view(self.host),
            port: self.port,
            username: self.username@,
            password: opt_view(self.password),
            query: opt_view(self.query),
            fragment: opt_view(self.fragment),
            path: self.path@,
            href: self.href@,
        }
    }
}

/// The components that the WHATWG URL parser of the `url` crate gives for
/// the input, or `None` where it refuses the input.
pub uninterp spec fn url_parts(input: Seq<char>) -> Option<UrlPartsView>;

/// Parses with `url::Url::parse` and reads the components back through
/// `scheme`, `host_str`, `port`, `username`, `password`, `query`,
/// `fragment`, `path` and `as_str`. The contract claims only that the result is the
/// one `url_parts` names for the input (the parser is deterministic); which
/// inputs it accepts and how it normalises them is left to the `url` crate.
#[verifier::external_body]
pub(crate) fn parse_url(input: &str) -> (r: Option<UrlParts>)
    ensures
        match r {
            Some(p) => url_parts(input@) == Some(p@),
            None => url_parts(input@) is None,
        },
{
    match url::Url::parse(input) {
        Ok(u) => Some(UrlParts {
            scheme: u.scheme().to_string(),
            host: u.host_str().map(String::from),
            port: u.port(),
            username: u.username().to_string(),
            password: u.password().map(String::from),
            query: u.query().map(String::from),
            fragment: u.fragment().map(String::from),
            path: u.path().to_string(),
            href: u.as_str().to_string(),
        }),
        Err(_) => None,
    }
}

/// The optional view of parsed components.
pub open spec fn opt_parts(p: Option<UrlParts>) -> Option<UrlPartsView> {
    match p {
        Some(u) => Some(u@),
        None => None,
    }
}

/// WebSocket schemes stand for their HTTP counterparts, which share their
/// default ports.
pub open spec fn web_scheme(s: Seq<char>) -> Seq<char> {
    if s == seq!['w', 's'] {
        seq!['h', 't', 't', 'p']
    } else if s == seq!['w', 's', 's'] {
        seq!['h', 't', 't', 'p', 's']
    } else {
        s
    }
}

/// The ASCII digit for 0..=9.
pub open spec fn digit_char(d: int) -> char {
    if d == 0 { '0' } else if d == 1 { '1' } else if d == 2 { '2' } else if d == 3 { '3' }
    else if d == 4 { '4' } else if d == 5 { '5' } else if d == 6 { '6' } else if d == 7 { '7' }
    else if d == 8 { '8' } else { '9' }
}

/// Decimal notation of a natural number.
pub open spec fn decimal(n: nat) -> Seq<char>
    decreases n,
{
    if n < 10 {
        seq![digit_char(n as int)]
    } else {
        decimal(n / 10).push(digit_char((n % 10) as int))
    }
}

proof fn lemma_digit_char_injective(a: int, b: int)
    requires
        0 <= a < 10,
        0 <= b < 10,
        digit_char(a) == digit_char(b),
    ensures
        a == b,
{
}

proof fn lemma_decimal_short(n: nat)
    ensures
        (decimal(n).len() == 1) == (n < 10),
        decimal(n).len() >= 1,
    decreases n,
{
    if n >= 10 {
        lemma_decimal_short(n / 10);
    }
}

/// Different numbers have different decimal notations.
pub proof fn lemma_decimal_injective(a: nat, b: nat)
    requires
        a != b,
    ensures
        decimal(a) != decimal(b),
    decreases a,
{
    lemma_decimal_short(a);
    lemma_decimal_short(b);
    if a < 10 && b < 10 {
        if decimal(a) == decimal(b) {
            assert(decimal(a)[0] == decimal(b)[0]);
            lemma_digit_char_injective(a as int, b as int);
        }
    } else if a >= 10 && b >= 10 {
        if decimal(a) == decimal(b) {
            assert(decimal(a).last() == decimal(b).last());
            lemma_digit_char_injective((a % 10) as int, (b % 10) as int);
            assert(decimal(a).drop_last() =~= decimal(a / 10));
            assert(decimal(b).drop_last() =~= decimal(b / 10));
            assert(a / 10 != b / 10);
            lemma_decimal_injective(a / 10, b / 10);
        }
    }
}

/// `:port` for an explicit (non-default) port, nothing otherwise.
pub open spec fn port_suffix(port: Option<u16>) -> Seq<char> {
    match port {
        Some(p) => seq![':'] + decimal(p as nat),
        None => Seq::empty(),
    }
}

/// The ASCII serialisation of the origin of an HTTP(S) URL without path,
/// credentials, query or fragment; `None` for any other URL.
pub open spec fn spec_origin_of(parts: Option<UrlPartsView>) -> Option<Seq<char>> {
    match parts {
        None => None,
        Some(u) => {
            let scheme = web_scheme(u.scheme);
            if (scheme == seq!['h', 't', 't', 'p'] || scheme == seq!['h', 't', 't', 'p', 's'])
                && u.host is Some && u.username.len() == 0 && u.password is None && u.query is None
                && u.fragment is None && u.path == seq!['/'] {
                Some(scheme + seq![':', '/', '/'] + u.host.unwrap() + port_suffix(u.port))
            } else {
                None
            }
        },
    }
}

/// What `normalize_origin` gives for an input.
pub open spec fn spec_normalize_origin(input: Seq<char>) -> Option<Seq<char>> {
    if utf8_len(input) > MAX_ORIGIN_BYTES {
        None
    } else {
        spec_origin_of(url_parts(input))
    }
}

fn digit(d: u64) -> (c: char)
    requires
        d < 10,
    ensures
        c == digit_char(d as int),
{
    if d == 0 { '0' } else if d == 1 { '1' } else if d == 2 { '2' } else if d == 3 { '3' }
    else if d == 4 { '4' } else if d == 5 { '5' } else if d == 6 { '6' } else if d == 7 { '7' }
    else if d == 8 { '8' } else { '9' }
}

/// Appends the decimal notation of `n`.
pub fn push_decimal(out: &mut Vec<char>, n: u64)
    ensures
        final(out)@ == old(out)@ + decimal(n as nat),
    decreases n,
{
    if n < 10 {
        out.push(digit(n));
        proof {
            assert(old(out)@.push(digit_char(n as int)) =~= old(out)@ + decimal(n as nat));
        }
    } else {
        push_decimal(out, n / 10);
        out.push(digit(n % 10));
        proof {
            assert(decimal(n as nat) == decimal((n / 10) as nat).push(digit_char((n % 10) as int)));
            assert(old(out)@ + decimal((n / 10) as nat) + seq![digit_char((n % 10) as int)] =~= old(out)@ + decimal(n as nat));
        }
    }
}

/// The origin of already parsed URL components: WebSocket schemes become
/// HTTP(S); anything but a bare HTTP(S) origin is refused.
pub fn origin_from_parts(parts: Option<UrlParts>) -> (r: Result<String, ServiceError>)
    ensures
        match spec_origin_of(opt_parts(parts)) {
            Some(o) => r matches Ok(s) && s@ == o,
            None => r matches Err(e) && e.code == ServiceCode::InvalidParams,
        },
{
    let u = match parts {
        Some(u) => u,
        None => return Err(ServiceError::new(ServiceCode::InvalidParams, "credential origin is invalid")),
    };
    let s = chars_of(u.scheme.as_str());
    let mut scheme: Vec<char> = Vec::new();
    if s.len() == 2 && s[0] == 'w' && s[1] == 's' {
        scheme.push('h');
        scheme.push('t');
        scheme.push('t');
        scheme.push('p');
        proof {
            assert(s@ =~= seq!['w', 's']);
        }
    } else if s.len() == 3 && s[0] == 'w' && s[1] == 's' && s[2] == 's' {
        scheme.push('h');
        scheme.push('t');
        scheme.push('t');
        scheme.push('p');
        scheme.push('s');
        proof {
            assert(s@ =~= seq!['w', 's', 's']);
        }
    } else {
        push_all(&mut scheme, s.as_slice());
        proof {
            assert(s@.len() == 2 ==> s@ != seq!['w', 's'] || !(s@[0] == 'w' && s@[1] == 's'));
            if s@ == seq!['w', 's'] {
                assert(s@[0] == 'w' && s@[1] == 's');
            }
            if s@ == seq!['w', 's', 's'] {
                assert(s@[0] == 'w' && s@[1] == 's' && s@[2] == 's');
            }
        }
    }
    let ghost want = web_scheme(u@.scheme);
    proof {
        assert(scheme@ =~= want);
    }
    let is_http = scheme.len() == 4 && scheme[0] == 'h' && scheme[1] == 't' && scheme[2] == 't' && scheme[3] == 'p';
    let is_https = scheme.len() == 5 && scheme[0] == 'h' && scheme[1] == 't' && scheme[2] == 't' && scheme[3] == 'p'
        && scheme[4] == 's';
    proof {
        if is_http {
            assert(scheme@ =~= seq!['h', 't', 't', 'p']);
        }
        if is_https {
            assert(scheme@ =~= seq!['h', 't', 't', 'p', 's']);
        }
        if scheme@ == seq!['h', 't', 't', 'p'] {
            assert(scheme@[0] == 'h' && scheme@[1] == 't' && scheme@[2] == 't' && scheme@[3] == 'p');
        }
        if scheme@ == seq!['h', 't', 't', 'p', 's'] {
            assert(scheme@[0] == 'h' && scheme@[1] == 't' && scheme@[2] == 't' && scheme@[3] == 'p' && scheme@[4] == 's');
        }
    }
    let path = chars_of(u.path.as_str());
    let path_ok = path.len() == 1 && path[0] == '/';
    proof {
        if path_ok {
            assert(path@ =~= seq!['/']);
        }
        if path@ == seq!['/'] {
            assert(path@[0] == '/');
        }
    }
    let user_empty = u.username.as_str().unicode_len() == 0;
    proof {
        assert(user_empty == (u@.username.len() == 0));
    }
    if !(is_http || is_https) || u.host.is_none() || !user_empty || u.password.is_some() || u.query.is_some()
        || u.fragment.is_some() || !path_ok {
        return Err(ServiceError::new(
            ServiceCode::InvalidParams,
            "credential origin must be an HTTP(S) origin without path, credentials, query or fragment",
        ));
    }
    let host = match &u.host {
        Some(h) => h.as_str(),
        None => "",
    };
    Ok(serialize_origin(scheme.as_slice(), host, u.port))
}

/// `scheme://host` with `:port` for an explicit port.
pub(crate) fn serialize_origin(scheme: &[char], host: &str, port: Option<u16>) -> (s: String)
    ensures
        s@ == scheme@ + seq![':', '/', '/'] + host@ + port_suffix(port),
{
    let mut out: Vec<char> = Vec::new();
    push_all(&mut out, scheme);
    out.push(':');
    out.push('/');
    out.push('/');
    let h = chars_of(host);
    push_all(&mut out, h.as_slice());
    match port {
        Some(p) => {
            out.push(':');
            push_decimal(&mut out, p as u64);
        },
        None => {},
    }
    proof {
        assert(out@ =~= scheme@ + seq![':', '/', '/'] + host@ + port_suffix(port));
    }
    string_from_chars(out.as_slice())
}

/// Normalises a credential origin to the ASCII serialisation of an HTTP(S)
/// origin. Inputs over 2048 bytes are refused before parsing.
pub fn normalize_origin(input: &str) -> (r: Result<String, ServiceError>)
    ensures
        match spec_normalize_origin(input@) {
            Some(o) => r matches Ok(s) && s@ == o,
            None => r matches Err(e) && e.code == ServiceCode::InvalidParams,
        },
{
    let v = chars_of(input);
    if !utf8_within(v.as_slice(), MAX_ORIGIN_BYTES) {
        return Err(ServiceError::new(ServiceCode::InvalidParams, "credential origin is invalid"));
    }
    origin_from_parts(parse_url(input))
}

/// An origin already in normalised form.
pub open spec fn spec_canonical_origin(origin: Seq<char>) -> bool {
    spec_normalize_origin(origin) == Some(origin)
}

/// Whether the origin is its own normal form.
pub fn is_canonical_origin(origin: &str) -> (b: bool)
    ensures
        b == spec_canonical_origin(origin@),
{
    match normalize_origin(origin) {
        Ok(n) => crate::text::str_equal(n.as_str(), origin),
        Err(_) => false,
    }
}

} // verus!

verus! {

/// Metadata of one stored credential; the secret itself is not part of it.
#[derive(Debug, Clone)]
pub struct CredentialMetadata {
    pub reference: String,
    pub origin: String,
    pub label: Option<String>,
    pub created_revision: u64,
    pub updated_revision: u64,
}

/// The credential metadata document of one plugin namespace: each
/// credential under its reference.
#[derive(Debug, Clone)]
pub struct CredentialDocument {
    pub schema: u32,
    pub revision: u64,
    pub credentials: Vec<(String, CredentialMetadata)>,
}

/// Where a put lands: an existing credential (by index) or a new one.
#[derive(Debug, Clone, Copy, PartialEq, Eq)]
pub enum PutTarget {
    Existing(usize),
    Fresh,
}

/// No reference occurs twice.
pub open spec fn unique_keys(cs: Seq<(String, CredentialMetadata)>) -> bool {
    forall|i: int, j: int| 0 <= i < cs.len() && 0 <= j < cs.len() && i != j ==> cs[i].0@ != cs[j].0@
}

/// The index of the credential stored under `k`.
pub open spec fn find_ref(cs: Seq<(String, CredentialMetadata)>, k: Seq<char>) -> Option<int> {
    if exists|i: int| 0 <= i < cs.len() && cs[i].0@ == k {
        Some(choose|i: int| 0 <= i < cs.len() && cs[i].0@ == k)
    } else {
        None
    }
}

/// One well-formed entry of a document at `revision`.
pub open spec fn valid_entry(key: Seq<char>, m: CredentialMetadata, revision: u64) -> bool {
    &&& key == m.reference@
    &&& spec_valid_reference(key)
    &&& spec_canonical_origin(m.origin@)
    &&& spec_valid_label(opt_view(m.label))
    &&& m.created_revision != 0
    &&& m.created_revision <= m.updated_revision
    &&& m.updated_revision <= revision
}

/// The invariants every stored credential document keeps.
pub open spec fn spec_valid_credentials(d: CredentialDocument) -> bool {
    &&& d.schema == 1
    &&& d.revision <= MAX_REVISION
    &&& d.credentials@.len() <= MAX_CREDENTIALS
    &&& forall|i: int| 0 <= i < d.credentials@.len() ==> valid_entry(#[trigger] d.credentials@[i].0@, d.credentials@[i].1, d.revision)
}

proof fn lemma_find_ref_is(cs: Seq<(String, CredentialMetadata)>, i: int)
    requires
        unique_keys(cs),
        0 <= i < cs.len(),
    ensures
        find_ref(cs, cs[i].0@) == Some(i),
{
    let k = cs[i].0@;
    assert(exists|j: int| 0 <= j < cs.len() && cs[j].0@ == k);
    let j = choose|j: int| 0 <= j < cs.len() && cs[j].0@ == k;
    assert(j == i);
}

/// Index of the credential stored under the reference.
pub fn find_credential(d: &CredentialDocument, reference: &str) -> (r: Option<usize>)
    requires
        unique_keys(d.credentials@),
    ensures
        match r {
            Some(i) => find_ref(d.credentials@, reference@) == Some(i as int),
            None => find_ref(d.credentials@, reference@) is None,
        },
{
    let mut i: usize = 0;
    while i < d.credentials.len()
        invariant
            i <= d.credentials@.len(),
            unique_keys(d.credentials@),
            forall|j: int| 0 <= j < i ==> d.credentials@[j].0@ != reference@,
        decreases d.credentials@.len() - i,
    {
        if crate::text::str_equal(d.credentials[i].0.as_str(), reference) {
            proof {
                lemma_find_ref_is(d.credentials@, i as int);
            }
            return Some(i);
        }
        i = i + 1;
    }
    None
}

/// Refuses a document that breaks the credential metadata invariants.
pub fn validate_document(d: &CredentialDocument) -> (r: Result<(), ServiceError>)
    ensures
        r is Ok <==> spec_valid_credentials(*d),
        r matches Err(e) ==> e.code == ServiceCode::StorageCorrupt,
{
    if d.schema != 1 || d.revision > MAX_REVISION || d.credentials.len() > MAX_CREDENTIALS {
        return Err(ServiceError::new(ServiceCode::StorageCorrupt, "credential metadata invariants are invalid"));
    }
    let mut i: usize = 0;
    while i < d.credentials.len()
        invariant
            i <= d.credentials@.len(),
            forall|j: int| 0 <= j < i ==> valid_entry(#[trigger] d.credentials@[j].0@, d.credentials@[j].1, d.revision),
        decreases d.credentials@.len() - i,
    {
        let key = &d.credentials[i].0;
        let m = &d.credentials[i].1;
        let label = match &m.label {
            Some(l) => Some(l.as_str()),
            None => None,
        };
        proof {
            assert(opt_str(label) == opt_view(m.label));
        }
        if !crate::text::str_equal(key.as_str(), m.reference.as_str()) || validate_reference(key.as_str()).is_err()
            || !is_canonical_origin(m.origin.as_str()) || validate_label(label).is_err() || m.created_revision == 0
            || m.created_revision > m.updated_revision || m.updated_revision > d.revision {
            return Err(ServiceError::new(ServiceCode::StorageCorrupt, "credential metadata entry is invalid"));
        }
        i = i + 1;
    }
    Ok(())
}

/// The checks a put makes before it reads the document: a normalisable
/// origin, a readable label and a secret of 1..=2048 UTF-8 bytes. Gives the
/// normalised origin.
pub fn put_precheck(origin: &str, label: Option<&str>, secret: &str) -> (r: Result<String, ServiceError>)
    ensures
        r is Ok <==> (spec_normalize_origin(origin@) is Some && spec_valid_label(opt_str(label)) && secret@.len() > 0
            && utf8_len(secret@) <= MAX_SECRET_BYTES),
        r matches Ok(s) ==> spec_normalize_origin(origin@) == Some(s@),
        r matches Err(e) ==> e.code == ServiceCode::InvalidParams,
{
    let o = normalize_origin(origin)?;
    validate_label(label)?;
    let v = chars_of(secret);
    if v.len() == 0 || !utf8_within(v.as_slice(), MAX_SECRET_BYTES) {
        return Err(ServiceError::new(ServiceCode::InvalidParams, "credential secret must contain 1..2048 UTF-8 bytes"));
    }
    Ok(o)
}

/// What `put_target` decides: an index, a new credential (`None`), or an error.
pub open spec fn spec_put_target(d: CredentialDocument, expected: u64, reference: Option<Seq<char>>, origin: Seq<char>) -> Result<Option<int>, ServiceCode> {
    if !spec_valid_credentials(d) {
        Err(ServiceCode::StorageCorrupt)
    } else if d.revision != expected {
        Err(ServiceCode::CredentialConflict)
    } else if d.revision == MAX_REVISION {
        Err(ServiceCode::RevisionExhausted)
    } else {
        match reference {
            Some(rf) => if !spec_valid_reference(rf) {
                Err(ServiceCode::InvalidParams)
            } else {
                match find_ref(d.credentials@, rf) {
                    None => Err(ServiceCode::CredentialNotFound),
                    Some(i) => if d.credentials@[i].1.origin@ != origin {
                        Err(ServiceCode::CredentialOriginImmutable)
                    } else {
                        Ok(Some(i))
                    },
                }
            },
            None => if d.credentials@.len() >= MAX_CREDENTIALS {
                Err(ServiceCode::QuotaExceeded)
            } else {
                Ok(None)
            },
        }
    }
}

/// Decides, on the read document, where a put of `origin` (already
/// normalised) lands: an explicit reference must exist and keep its origin;
/// a new credential needs room under the quota.
pub fn put_target(d: &CredentialDocument, expected_revision: u64, reference: Option<&str>, origin: &str) -> (r: Result<PutTarget, ServiceError>)
    requires
        unique_keys(d.credentials@),
    ensures
        match spec_put_target(*d, expected_revision, opt_str(reference), origin@) {
            Ok(Some(i)) => r == Ok::<PutTarget, ServiceError>(PutTarget::Existing(i as usize)),
            Ok(None) => r == Ok::<PutTarget, ServiceError>(PutTarget::Fresh),
            Err(c) => r matches Err(e) && e.code == c && (c == ServiceCode::CredentialConflict ==> e.revision == Some(d.revision)),
        },
{
    validate_document(d)?;
    check_revision(d.revision, expected_revision)?;
    if d.revision == MAX_REVISION {
        return Err(ServiceError::new(ServiceCode::RevisionExhausted, "credential metadata revision is exhausted"));
    }
    match reference {
        Some(rf) => {
            validate_reference(rf)?;
            match find_credential(d, rf) {
                None => Err(not_found()),
                Some(i) => {
                    if !crate::text::str_equal(d.credentials[i].1.origin.as_str(), origin) {
                        return Err(ServiceError::new(
                            ServiceCode::CredentialOriginImmutable,
                            "remove and recreate a credential to bind it to another origin",
                        ));
                    }
                    Ok(PutTarget::Existing(i))
                },
            }
        },
        None => {
            if d.credentials.len() >= MAX_CREDENTIALS {
                return Err(ServiceError::new(ServiceCode::QuotaExceeded, "credential count exceeds its quota"));
            }
            Ok(PutTarget::Fresh)
        },
    }
}

} // verus!

verus! {

/// The lowercase hexadecimal digit for 0..=15.
pub open spec fn hex_char(d: int) -> char {
    if d < 10 {
        digit_char(d)
    } else if d == 10 { 'a' } else if d == 11 { 'b' } else if d == 12 { 'c' } else if d == 13 { 'd' }
    else if d == 14 { 'e' } else { 'f' }
}

/// Lowercase hexadecimal notation of bytes, two digits each.
pub open spec fn hex_of(bytes: Seq<u8>) -> Seq<char>
    decreases bytes.len(),
{
    if bytes.len() == 0 {
        Seq::empty()
    } else {
        hex_of(bytes.drop_last()) + seq![hex_char(bytes.last() as int / 16), hex_char(bytes.last() as int % 16)]
    }
}

/// The reference made from random bytes.
pub open spec fn spec_reference_from(bytes: Seq<u8>) -> Seq<char> {
    seq!['c', 'r', 'e', 'd', '_'] + hex_of(bytes)
}

fn hex(d: u8) -> (c: char)
    requires
        d < 16,
    ensures
        c == hex_char(d as int),
        is_lower_hex(c),
{
    if d < 10 {
        if d == 0 { '0' } else if d == 1 { '1' } else if d == 2 { '2' } else if d == 3 { '3' }
        else if d == 4 { '4' } else if d == 5 { '5' } else if d == 6 { '6' } else if d == 7 { '7' }
        else if d == 8 { '8' } else { '9' }
    } else if d == 10 { 'a' } else if d == 11 { 'b' } else if d == 12 { 'c' } else if d == 13 { 'd' }
    else if d == 14 { 'e' } else { 'f' }
}

pub proof fn lemma_hex_of(bytes: Seq<u8>)
    ensures
        hex_of(bytes).len() == 2 * bytes.len(),
        forall|i: int| 0 <= i < hex_of(bytes).len() ==> is_lower_hex(#[trigger] hex_of(bytes)[i]),
    decreases bytes.len(),
{
    if bytes.len() > 0 {
        lemma_hex_of(bytes.drop_last());
        let h = hex_of(bytes.drop_last());
        let t = seq![hex_char(bytes.last() as int / 16), hex_char(bytes.last() as int % 16)];
        assert forall|i: int| 0 <= i < hex_of(bytes).len() implies is_lower_hex(#[trigger] hex_of(bytes)[i]) by {
            if i < h.len() {
                assert(hex_of(bytes)[i] == h[i]);
            } else {
                assert(hex_of(bytes)[i] == t[i - h.len()]);
            }
        }
    }
}

/// Appends the lowercase hexadecimal notation of the bytes.
pub fn push_hex(out: &mut Vec<char>, bytes: &[u8])
    ensures
        final(out)@ == old(out)@ + hex_of(bytes@),
{
    let mut i: usize = 0;
    proof {
        assert(bytes@.take(0) =~= Seq::<u8>::empty());
        assert(out@ =~= old(out)@ + hex_of(bytes@.take(0)));
    }
    while i < bytes.len()
        invariant
            i <= bytes@.len(),
            out@ == old(out)@ + hex_of(bytes@.take(i as int)),
        decreases bytes@.len() - i,
    {
        let b = bytes[i];
        out.push(hex(b / 16));
        out.push(hex(b % 16));
        proof {
            assert(bytes@.take(i as int + 1).drop_last() =~= bytes@.take(i as int));
            assert(out@ =~= old(out)@ + hex_of(bytes@.take(i as int + 1)));
        }
        i = i + 1;
    }
    proof {
        assert(bytes@.take(bytes@.len() as int) =~= bytes@);
    }
}

/// The reference for 24 random bytes: `cred_` and their hex digits.
pub fn reference_from_random(bytes: &[u8]) -> (r: String)
    requires
        bytes@.len() == REFERENCE_RANDOM_BYTES,
    ensures
        r@ == spec_reference_from(bytes@),
        spec_valid_reference(r@),
{
    let mut out: Vec<char> = Vec::new();
    out.push('c');
    out.push('r');
    out.push('e');
    out.push('d');
    out.push('_');
    proof {
        assert(out@ =~= seq!['c', 'r', 'e', 'd', '_']);
    }
    push_hex(&mut out, bytes);
    proof {
        lemma_hex_of(bytes@);
        let r = spec_reference_from(bytes@);
        assert(r.take(5) =~= seq!['c', 'r', 'e', 'd', '_']);
        assert forall|k: int| 5 <= k < 53 implies is_lower_hex(#[trigger] r[k]) by {
            assert(r[k] == hex_of(bytes@)[k - 5]);
        }
    }
    string_from_chars(out.as_slice())
}


/// An exact copy of credential metadata.
pub fn clone_metadata(m: &CredentialMetadata) -> (r: CredentialMetadata)
    ensures
        r == *m,
{
    let label = match &m.label {
        Some(l) => Some(copy_string(l)),
        None => None,
    };
    CredentialMetadata {
        reference: copy_string(&m.reference),
        origin: copy_string(&m.origin),
        label,
        created_revision: m.created_revision,
        updated_revision: m.updated_revision,
    }
}

/// The metadata a put stores: a new credential is created at the next
/// revision; an existing one keeps its creation revision.
pub open spec fn put_metadata(d: CredentialDocument, target: PutTarget, reference: String, origin: String, label: Option<String>) -> CredentialMetadata {
    CredentialMetadata {
        reference,
        origin,
        label,
        created_revision: match target {
            PutTarget::Existing(i) => d.credentials@[i as int].1.created_revision,
            PutTarget::Fresh => (d.revision + 1) as u64,
        },
        updated_revision: (d.revision + 1) as u64,
    }
}

/// Commits a put decided by `put_target`: the document advances one
/// revision and holds the credential's new metadata under its reference.
pub fn commit_put(d: CredentialDocument, target: PutTarget, reference: String, origin: String, label: Option<String>) -> (n: CredentialDocument)
    requires
        unique_keys(d.credentials@),
        d.revision < MAX_REVISION,
        match target {
            PutTarget::Existing(i) => i < d.credentials@.len() && d.credentials@[i as int].0@ == reference@,
            PutTarget::Fresh => find_ref(d.credentials@, reference@) is None,
        },
    ensures
        n.schema == d.schema,
        n.revision == d.revision + 1,
        n.credentials@ == (match target {
            PutTarget::Existing(i) => d.credentials@.update(i as int, (reference, put_metadata(d, target, reference, origin, label))),
            PutTarget::Fresh => d.credentials@.push((reference, put_metadata(d, target, reference, origin, label))),
        }),
        unique_keys(n.credentials@),
        find_ref(n.credentials@, reference@) is Some,
        ({
            let m = n.credentials@[find_ref(n.credentials@, reference@).unwrap()].1;
            m == put_metadata(d, target, reference, origin, label)
        }),
        spec_valid_credentials(d) && spec_valid_reference(reference@) && spec_canonical_origin(origin@)
            && spec_valid_label(opt_view(label)) && (target is Fresh ==> d.credentials@.len() < MAX_CREDENTIALS)
            ==> spec_valid_credentials(n),
{
    let CredentialDocument { schema, revision, credentials } = d;
    let next = revision + 1;
    let mut credentials = credentials;
    let ghost old_cs = credentials@;
    let created = match target {
        PutTarget::Existing(i) => credentials[i].1.created_revision,
        PutTarget::Fresh => next,
    };
    let key = copy_string(&reference);
    let m = CredentialMetadata { reference, origin, label, created_revision: created, updated_revision: next };
    let ghost idx: int;
    match target {
        PutTarget::Existing(i) => {
            credentials.set(i, (key, m));
            proof {
                idx = i as int;
                assert forall|a: int, b: int| 0 <= a < credentials@.len() && 0 <= b < credentials@.len() && a != b
                    implies credentials@[a].0@ != credentials@[b].0@ by {
                    if a != idx && b != idx {
                        assert(credentials@[a] == old_cs[a]);
                        assert(credentials@[b] == old_cs[b]);
                    } else if a == idx {
                        assert(credentials@[b] == old_cs[b]);
                    } else {
                        assert(credentials@[a] == old_cs[a]);
                    }
                }
            }
        },
        PutTarget::Fresh => {
            credentials.push((key, m));
            proof {
                idx = old_cs.len() as int;
                assert forall|a: int, b: int| 0 <= a < credentials@.len() && 0 <= b < credentials@.len() && a != b
                    implies credentials@[a].0@ != credentials@[b].0@ by {
                    if a < idx && b < idx {
                        assert(credentials@[a] == old_cs[a]);
                        assert(credentials@[b] == old_cs[b]);
                    } else if a == idx {
                        assert(credentials@[b] == old_cs[b]);
                        if credentials@[a].0@ == credentials@[b].0@ {
                            assert(exists|j: int| 0 <= j < old_cs.len() && old_cs[j].0@ == credentials@[a].0@);
                        }
                    } else {
                        assert(credentials@[a] == old_cs[a]);
                        if credentials@[a].0@ == credentials@[b].0@ {
                            assert(exists|j: int| 0 <= j < old_cs.len() && old_cs[j].0@ == credentials@[b].0@);
                        }
                    }
                }
            }
        },
    }
    let n = CredentialDocument { schema, revision: next, credentials };
    proof {
        lemma_find_ref_is(n.credentials@, idx);
        if spec_valid_credentials(d) && spec_valid_reference(n.credentials@[idx].0@) && spec_canonical_origin(n.credentials@[idx].1.origin@)
            && spec_valid_label(opt_view(n.credentials@[idx].1.label)) && (target is Fresh ==> old_cs.len() < MAX_CREDENTIALS) {
            assert forall|j: int| 0 <= j < n.credentials@.len() implies valid_entry(#[trigger] n.credentials@[j].0@, n.credentials@[j].1, n.revision) by {
                if j != idx {
                    assert(n.credentials@[j] == old_cs[j]);
                    assert(valid_entry(old_cs[j].0@, old_cs[j].1, d.revision));
                } else {
                    match target {
                        PutTarget::Existing(i) => {
                            assert(valid_entry(old_cs[idx].0@, old_cs[idx].1, d.revision));
                        },
                        PutTarget::Fresh => {},
                    }
                }
            }
        }
    }
    n
}

/// What `remove_target` decides: the index to remove, or an error.
pub open spec fn spec_remove_target(d: CredentialDocument, expected: u64, reference: Seq<char>) -> Result<int, ServiceCode> {
    if !spec_valid_reference(reference) {
        Err(ServiceCode::InvalidParams)
    } else if !spec_valid_credentials(d) {
        Err(ServiceCode::StorageCorrupt)
    } else if d.revision != expected {
        Err(ServiceCode::CredentialConflict)
    } else if d.revision == MAX_REVISION {
        Err(ServiceCode::RevisionExhausted)
    } else {
        match find_ref(d.credentials@, reference) {
            None => Err(ServiceCode::CredentialNotFound),
            Some(i) => Ok(i),
        }
    }
}

/// Decides, on the read document, which credential a remove deletes.
pub fn remove_target(d: &CredentialDocument, expected_revision: u64, reference: &str) -> (r: Result<usize, ServiceError>)
    requires
        unique_keys(d.credentials@),
    ensures
        match spec_remove_target(*d, expected_revision, reference@) {
            Ok(i) => r == Ok::<usize, ServiceError>(i as usize),
            Err(c) => r matches Err(e) && e.code == c && (c == ServiceCode::CredentialConflict ==> e.revision == Some(d.revision)),
        },
{
    validate_reference(reference)?;
    validate_document(d)?;
    check_revision(d.revision, expected_revision)?;
    if d.revision == MAX_REVISION {
        return Err(ServiceError::new(ServiceCode::RevisionExhausted, "credential metadata revision is exhausted"));
    }
    match find_credential(d, reference) {
        None => Err(not_found()),
        Some(i) => Ok(i),
    }
}

/// Commits a remove: the credential leaves and the revision advances.
pub fn commit_remove(d: CredentialDocument, index: usize) -> (n: CredentialDocument)
    requires
        unique_keys(d.credentials@),
        index < d.credentials@.len(),
        d.revision < MAX_REVISION,
    ensures
        n.schema == d.schema,
        n.revision == d.revision + 1,
        n.credentials@ == d.credentials@.remove(index as int),
        unique_keys(n.credentials@),
        find_ref(n.credentials@, d.credentials@[index as int].0@) is None,
        spec_valid_credentials(d) ==> spec_valid_credentials(n),
{
    let CredentialDocument { schema, revision, credentials } = d;
    let mut credentials = credentials;
    let ghost old_cs = credentials@;
    credentials.remove(index);
    let n = CredentialDocument { schema, revision: revision + 1, credentials };
    proof {
        let cs = n.credentials@;
        let k = index as int;
        assert forall|a: int, b: int| 0 <= a < cs.len() && 0 <= b < cs.len() && a != b implies cs[a].0@ != cs[b].0@ by {
            let a0 = if a < k { a } else { a + 1 };
            let b0 = if b < k { b } else { b + 1 };
            assert(cs[a] == old_cs[a0]);
            assert(cs[b] == old_cs[b0]);
        }
        assert forall|j: int| 0 <= j < cs.len() implies cs[j].0@ != old_cs[k].0@ by {
            let j0 = if j < k { j } else { j + 1 };
            assert(cs[j] == old_cs[j0]);
        }
        if spec_valid_credentials(d) {
            assert forall|j: int| 0 <= j < cs.len() implies valid_entry(#[trigger] cs[j].0@, cs[j].1, n.revision) by {
                let j0 = if j < k { j } else { j + 1 };
                assert(cs[j] == old_cs[j0]);
                assert(valid_entry(old_cs[j0].0@, old_cs[j0].1, d.revision));
            }
        }
    }
    n
}

/// The checks a resolve makes before it reads the document. Gives the
/// normalised origin.
pub fn resolve_precheck(reference: &str, origin: &str) -> (r: Result<String, ServiceError>)
    ensures
        r is Ok <==> (spec_valid_reference(reference@) && spec_normalize_origin(origin@) is Some),
        r matches Ok(s) ==> spec_normalize_origin(origin@) == Some(s@),
        r matches Err(e) ==> e.code == ServiceCode::InvalidParams,
{
    validate_reference(reference)?;
    normalize_origin(origin)
}

/// The credential a resolve may read: it must exist and be bound to the
/// (normalised) origin.
pub fn bound_credential(d: &CredentialDocument, reference: &str, origin: &str) -> (r: Result<usize, ServiceError>)
    requires
        unique_keys(d.credentials@),
    ensures
        !spec_valid_credentials(*d) ==> (r matches Err(e) && e.code == ServiceCode::StorageCorrupt),
        spec_valid_credentials(*d) ==> match find_ref(d.credentials@, reference@) {
            None => r matches Err(e) && e.code == ServiceCode::CredentialNotFound,
            Some(i) => if d.credentials@[i].1.origin@ == origin@ {
                r == Ok::<usize, ServiceError>(i as usize)
            } else {
                r matches Err(e) && e.code == ServiceCode::CredentialOriginMismatch
            },
        },
{
    validate_document(d)?;
    match find_credential(d, reference) {
        None => Err(not_found()),
        Some(i) => {
            if !crate::text::str_equal(d.credentials[i].1.origin.as_str(), origin) {
                return Err(ServiceError::new(
                    ServiceCode::CredentialOriginMismatch,
                    "credential reference is not bound to the requested origin",
                ));
            }
            Ok(i)
        },
    }
}

/// The metadata of one credential, after the document validates.
pub fn credential_metadata(d: &CredentialDocument, reference: &str) -> (r: Result<CredentialMetadata, ServiceError>)
    requires
        unique_keys(d.credentials@),
    ensures
        !spec_valid_credentials(*d) ==> (r matches Err(e) && e.code == ServiceCode::StorageCorrupt),
        spec_valid_credentials(*d) ==> match find_ref(d.credentials@, reference@) {
            None => r matches Err(e) && e.code == ServiceCode::CredentialNotFound,
            Some(i) => r == Ok::<CredentialMetadata, ServiceError>(d.credentials@[i].1),
        },
{
    validate_document(d)?;
    match find_credential(d, reference) {
        None => Err(not_found()),
        Some(i) => Ok(clone_metadata(&d.credentials[i].1)),
    }
}

/// The listed credentials: those bound to the origin, or all of them.
pub open spec fn listed(cs: Seq<(String, CredentialMetadata)>, origin: Option<Seq<char>>) -> Seq<CredentialMetadata> {
    cs.filter(|c: (String, CredentialMetadata)| origin is None || c.1.origin@ == origin.unwrap()).map_values(
        |c: (String, CredentialMetadata)| c.1,
    )
}

/// Lists the credentials, in document order, optionally only those bound
/// to one (normalised) origin.
pub fn list_credentials(d: &CredentialDocument, origin: Option<&str>) -> (r: Result<Vec<CredentialMetadata>, ServiceError>)
    ensures
        r is Ok <==> spec_valid_credentials(*d),
        r matches Err(e) ==> e.code == ServiceCode::StorageCorrupt,
        r matches Ok(v) ==> v@ == listed(d.credentials@, opt_str(origin)),
{
    validate_document(d)?;
    let ghost o = opt_str(origin);
    let ghost pred = |c: (String, CredentialMetadata)| o is None || c.1.origin@ == o.unwrap();
    let ghost get = |c: (String, CredentialMetadata)| c.1;
    let mut out: Vec<CredentialMetadata> = Vec::new();
    let mut i: usize = 0;
    proof {
        reveal_with_fuel(Seq::<(String, CredentialMetadata)>::filter, 1);
        assert(d.credentials@.take(0).filter(pred).map_values(get) =~= Seq::<CredentialMetadata>::empty());
    }
    while i < d.credentials.len()
        invariant
            i <= d.credentials@.len(),
            o == opt_str(origin),
            pred == (|c: (String, CredentialMetadata)| o is None || c.1.origin@ == o.unwrap()),
            get == (|c: (String, CredentialMetadata)| c.1),
            out@ == d.credentials@.take(i as int).filter(pred).map_values(get),
        decreases d.credentials@.len() - i,
    {
        let keep = match origin {
            None => true,
            Some(x) => crate::text::str_equal(d.credentials[i].1.origin.as_str(), x),
        };
        let ghost before = d.credentials@.take(i as int).filter(pred);
        proof {
            reveal_with_fuel(Seq::<(String, CredentialMetadata)>::filter, 1);
            assert(d.credentials@.take(i as int + 1).drop_last() =~= d.credentials@.take(i as int));
            assert(keep == pred(d.credentials@[i as int]));
        }
        if keep {
            out.push(clone_metadata(&d.credentials[i].1));
            proof {
                assert(d.credentials@.take(i as int + 1).filter(pred) == before.push(d.credentials@[i as int]));
                assert(out@ =~= d.credentials@.take(i as int + 1).filter(pred).map_values(get));
            }
        } else {
            proof {
                assert(d.credentials@.take(i as int + 1).filter(pred) == before);
            }
        }
        i = i + 1;
    }
    proof {
        assert(d.credentials@.take(d.credentials@.len() as int) =~= d.credentials@);
        assert(out@ =~= listed(d.credentials@, o));
    }
    Ok(out)
}

/// A secret read back from the system credential store. It has no `Debug`
/// or `Display`: its printable form is `redacted`.
pub struct SecretValue {
    secret: String,
}

impl SecretValue {
    /// Wraps a secret of valid UTF-8.
    pub fn new(secret: String) -> (v: Self)
        ensures
            v.view() == secret@,
    {
        SecretValue { secret }
    }

    pub closed spec fn view(&self) -> Seq<char> {
        self.secret@
    }

    /// The secret text.
    pub fn as_str(&self) -> (s: &str)
        ensures
            s@ == self.view(),
    {
        self.secret.as_str()
    }

    /// The printable form of the secret: a redacted marker that never holds
    /// the secret itself.
    pub fn redacted(&self) -> (s: &'static str)
        ensures
            s@ == "SecretValue([REDACTED])"@,
    {
        "SecretValue([REDACTED])"
    }
}


/// Listing by an origin keeps exactly the credentials bound to that origin,
/// in document order: a credential appended to the document is appended to
/// the listing when its metadata's origin is the one asked for, and left
/// out otherwise; without an origin every credential is listed. So every
/// credential bound to the origin is listed, and nothing else is.
pub proof fn law_listing_by_origin_keeps_exactly_its_credentials(
    cs: Seq<(String, CredentialMetadata)>,
    c: (String, CredentialMetadata),
    o: Seq<char>,
)
    ensures
        listed(Seq::empty(), Some(o)) == Seq::<CredentialMetadata>::empty(),
        listed(cs.push(c), Some(o)) == if c.1.origin@ == o {
            listed(cs, Some(o)).push(c.1)
        } else {
            listed(cs, Some(o))
        },
        listed(cs.push(c), None) == listed(cs, None).push(c.1),
        forall|i: int| 0 <= i < cs.len() && (#[trigger] cs[i]).1.origin@ == o ==> listed(cs, Some(o)).contains(cs[i].1),
        forall|k: int| 0 <= k < listed(cs, Some(o)).len() ==> (#[trigger] listed(cs, Some(o))[k]).origin@ == o,
{
    reveal_with_fuel(Seq::<(String, CredentialMetadata)>::filter, 1);
    let p = |x: (String, CredentialMetadata)| Some(o) is None || x.1.origin@ == Some(o).unwrap();
    let q = |x: (String, CredentialMetadata)| None::<Seq<char>> is None || x.1.origin@ == None::<Seq<char>>.unwrap();
    let get = |x: (String, CredentialMetadata)| x.1;
    assert(cs.push(c).drop_last() =~= cs);
    assert(Seq::<(String, CredentialMetadata)>::empty().filter(p) =~= Seq::<(String, CredentialMetadata)>::empty());
    assert(listed(Seq::empty(), Some(o)) =~= Seq::<CredentialMetadata>::empty());
    if c.1.origin@ == o {
        assert(cs.push(c).filter(p) == cs.filter(p).push(c));
        assert(listed(cs.push(c), Some(o)) =~= listed(cs, Some(o)).push(c.1));
    } else {
        assert(cs.push(c).filter(p) == cs.filter(p));
    }
    assert(cs.push(c).filter(q) == cs.filter(q).push(c));
    assert(listed(cs.push(c), None) =~= listed(cs, None).push(c.1));
    broadcast use vstd::seq_lib::group_filter_ensures;
    assert forall|i: int| 0 <= i < cs.len() && (#[trigger] cs[i]).1.origin@ == o implies listed(cs, Some(o)).contains(
        cs[i].1,
    ) by {
        assert(p(cs[i]));
        assert(cs.filter(p).contains(cs[i]));
        let j = choose|j: int| 0 <= j < cs.filter(p).len() && cs.filter(p)[j] == cs[i];
        assert(listed(cs, Some(o))[j] == get(cs.filter(p)[j]));
    }
    assert forall|k: int| 0 <= k < listed(cs, Some(o)).len() implies (#[trigger] listed(cs, Some(o))[k]).origin@ == o by {
        assert(p(cs.filter(p)[k]));
        assert(listed(cs, Some(o))[k] == get(cs.filter(p)[k]));
    }
}

} // verus!
