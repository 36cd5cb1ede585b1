//! The official client application bundle: which inspected bundle is the
//! official application, whether it changed since, which of several found
//! bundles to use, and which running processes may belong to it.
use vstd::prelude::*;

use crate::platform::path::{posix_components, posix_components_of, spec_within, within};
use crate::platform::PathStyle;
use crate::plugin_services::secrets::hex_of;
use crate::plugin_services::{hash_hex, sha256_of};
use crate::text::{
    joined,
    chars_end_with, chars_of, chars_start_with, concat3, contains_char, ends_with, has_char, starts_with, str_equal,
    string_from_chars, utf8_len, utf8_within,
};

verus! {

/// Largest Info.plist read, in bytes.
pub const MAX_INFO_BYTES: usize = 1048576;

/// Longest accepted metadata field, exclusive, in bytes.
pub const MAX_FIELD_BYTES: usize = 512;

/// The verified official client application.
#[derive(Debug, Clone)]
pub struct Application {
    pub bundle: String,
    pub executable: String,
    pub identifier: String,
    pub version: String,
    pub build: String,
    pub minimum_macos: String,
    info_digest: String,
}

/// Spec view of an application.
pub struct ApplicationView {
    pub bundle: Seq<char>,
    pub executable: Seq<char>,
    pub identifier: Seq<char>,
    pub version: Seq<char>,
    pub build: Seq<char>,
    pub minimum_macos: Seq<char>,
    /// Digest of the Info.plist the application was inspected with.
    pub info_digest: Seq<char>,
}

impl View for Application {
    type V = ApplicationView;

    closed spec fn view(&self) -> ApplicationView {
        ApplicationView {
            bundle: self.bundle@,
            executable: self.executable@,
            identifier: self.identifier@,
            version: self.version@,
            build: self.build@,
            minimum_macos: self.minimum_macos@,
            info_digest: self.info_digest@,
        }
    }
}

/// The text fields a bundle's Info.plist declares; a field that is absent or
/// not text is `None`.
#[derive(Debug, Clone)]
pub struct ApplicationMetadata {
    pub identifier: Option<String>,
    pub executable_name: Option<String>,
    pub version: Option<String>,
    pub build: Option<String>,
    pub minimum_macos: Option<String>,
}

/// The last component of a path, if it names one.
pub open spec fn file_name(p: Seq<char>) -> Option<Seq<char>> {
    let c = posix_components(p);
    if c.len() > 0 && c.last() != seq!['/'] {
        Some(c.last())
    } else {
        None
    }
}

fn file_name_of(p: &str) -> (r: Option<Vec<char>>)
    ensures
        match r {
            Some(v) => file_name(p@) == Some(v@),
            None => file_name(p@) is None,
        },
{
    let c = posix_components_of(p);
    if c.len() == 0 {
        return None;
    }
    let last = &c[c.len() - 1];
    proof {
        assert(crate::text::views(c@)[c@.len() - 1] == last@);
    }
    if last.len() == 1 && last[0] == '/' {
        proof {
            assert(last@ =~= seq!['/']);
        }
        return None;
    }
    let mut out: Vec<char> = Vec::new();
    crate::text::push_all(&mut out, last.as_slice());
    proof {
        assert(out@ =~= last@);
    }
    Some(out)
}

/// The path names a bundle: its name has the extension `app`.
pub open spec fn spec_is_bundle(p: Seq<char>) -> bool {
    file_name(p) matches Some(n) && n.len() > 4 && ends_with(n, ".app"@)
}

/// Whether the path names an application bundle.
pub fn is_bundle(path: &str) -> (r: bool)
    ensures
        r == spec_is_bundle(path@),
{
    match file_name_of(path) {
        Some(n) => {
            let suffix = chars_of(".app");
            proof {
                reveal_strlit(".app");
            }
            n.len() > 4 && chars_end_with(n.as_slice(), suffix.as_slice())
        },
        None => false,
    }
}

/// A field holds text of 1 to 511 bytes.
pub open spec fn field_ok(v: Option<String>) -> bool {
    match v {
        Some(s) => s@.len() > 0 && utf8_len(s@) < MAX_FIELD_BYTES,
        None => false,
    }
}

fn field(v: &Option<String>, key: &str) -> (r: Result<String, String>)
    ensures
        field_ok(*v) ==> r == Ok::<String, String>(v->0),
        !field_ok(*v) ==> (r matches Err(e) && e@ == "Missing application field "@ + key@),
{
    match v {
        Some(s) => {
            let c = chars_of(s.as_str());
            if c.len() > 0 && utf8_within(c.as_slice(), MAX_FIELD_BYTES - 1) {
                return Ok(s.clone());
            }
        },
        None => {},
    }
    let e = concat3("Missing application field ", key, "");
    proof {
        reveal_strlit("");
        assert(e@ =~= "Missing application field "@ + key@);
    }
    Err(e)
}

/// A plain executable name: no separator or NUL, and not `.` or `..`.
pub open spec fn spec_executable_name_ok(n: Seq<char>) -> bool {
    !has_char(n, '/') && !has_char(n, '\\') && !has_char(n, '\0') && n != seq!['.'] && n != seq!['.', '.']
}

/// The executable lies directly in the bundle's `Contents/MacOS`.
pub open spec fn spec_directly_in_macos(executable: Seq<char>, bundle: Seq<char>) -> bool {
    let c = posix_components(executable);
    c.len() > 1 && c.drop_last() == posix_components(bundle) + seq!["Contents"@, "MacOS"@]
}

/// The header of an ARM64 Mach-O executable.
pub open spec fn spec_arm64_header(h: Seq<u8>) -> bool {
    h == seq![0xcfu8, 0xfau8, 0xedu8, 0xfeu8, 0x0cu8, 0u8, 0u8, 1u8]
}

/// Why an inspected bundle is not the official application, by message, in
/// the order the checks run; `None` when it is.
pub open spec fn spec_inspection_problem(
    bundle: Seq<char>,
    info: Seq<u8>,
    m: ApplicationMetadata,
    executable: Result<Seq<char>, Seq<char>>,
    header: Result<Seq<u8>, Seq<char>>,
    signature: Result<(), Seq<char>>,
) -> Option<Seq<char>> {
    if !spec_is_bundle(bundle) {
        Some("Expected an application bundle"@)
    } else if info.len() > MAX_INFO_BYTES {
        Some("Application metadata exceeds its limit"@)
    } else if !field_ok(m.identifier) {
        Some("Missing application field CFBundleIdentifier"@)
    } else if m.identifier->0@ != "com.openai.codex"@ {
        Some("This bundle is not the official Codex desktop application"@)
    } else if !field_ok(m.executable_name) {
        Some("Missing application field CFBundleExecutable"@)
    } else if !spec_executable_name_ok(m.executable_name->0@) {
        Some("Invalid application executable name"@)
    } else if executable is Err {
        Some(executable->Err_0)
    } else if !spec_directly_in_macos(executable->Ok_0, bundle) {
        Some("Application executable redirected outside its bundle"@)
    } else if header is Err {
        Some(header->Err_0)
    } else if !spec_arm64_header(header->Ok_0) {
        Some("This target requires the official ARM64 Mach-O executable"@)
    } else if signature is Err {
        Some(signature->Err_0)
    } else if !field_ok(m.version) {
        Some("Missing application field CFBundleShortVersionString"@)
    } else if !field_ok(m.build) {
        Some("Missing application field CFBundleVersion"@)
    } else if !field_ok(m.minimum_macos) {
        Some("Missing application field LSMinimumSystemVersion"@)
    } else {
        None
    }
}

fn directly_in_macos(executable: &str, bundle: &str) -> (r: bool)
    ensures
        r == spec_directly_in_macos(executable@, bundle@),
{
    let c = posix_components_of(executable);
    let b = posix_components_of(bundle);
    if c.len() < 3 || c.len() - 3 != b.len() {
        proof {
            if c@.len() > 1 {
                assert(crate::text::views(c@).drop_last().len() != (crate::text::views(b@) + seq!["Contents"@, "MacOS"@]).len());
            }
        }
        return false;
    }
    let ghost want = posix_components(bundle@) + seq!["Contents"@, "MacOS"@];
    let ghost have = posix_components(executable@).drop_last();
    let contents = chars_of("Contents");
    let macos = chars_of("MacOS");
    let mut i: usize = 0;
    while i < b.len()
        invariant
            i <= b@.len(),
            c@.len() == b@.len() + 3,
            crate::text::views(c@) == posix_components(executable@),
            crate::text::views(b@) == posix_components(bundle@),
            forall|j: int| 0 <= j < i ==> have[j] == want[j],
            have == posix_components(executable@).drop_last(),
            want == posix_components(bundle@) + seq!["Contents"@, "MacOS"@],
        decreases b@.len() - i,
    {
        proof {
            assert(crate::text::views(c@)[i as int] == c@[i as int]@);
            assert(crate::text::views(b@)[i as int] == b@[i as int]@);
        }
        if !crate::text::chars_equal(c[i].as_slice(), b[i].as_slice()) {
            proof {
                assert(have[i as int] == c@[i as int]@);
                assert(want[i as int] == b@[i as int]@);
            }
            return false;
        }
        i = i + 1;
    }
    proof {
        assert(crate::text::views(c@)[b@.len() as int] == c@[b@.len() as int]@);
        assert(crate::text::views(c@)[b@.len() as int + 1] == c@[b@.len() as int + 1]@);
    }
    let r = crate::text::chars_equal(c[b.len()].as_slice(), contents.as_slice()) && crate::text::chars_equal(
        c[b.len() + 1].as_slice(),
        macos.as_slice(),
    );
    proof {
        assert(want[b@.len() as int] == "Contents"@);
        assert(want[b@.len() as int + 1] == "MacOS"@);
        assert(have[b@.len() as int] == c@[b@.len() as int]@);
        assert(have[b@.len() as int + 1] == c@[b@.len() as int + 1]@);
        if r {
            assert(have =~= want);
        }
    }
    r
}

impl Application {
    /// The application an inspection found, or why the bundle is not the
    /// official application. `bundle` and `executable` are canonical paths,
    /// `info` the Info.plist bytes read (one more than the limit at most),
    /// `header` the executable's first eight bytes, and `signature` the
    /// outcome of the code-signature check.
    pub fn from_inspection(
        bundle: String,
        info: &[u8],
        metadata: &ApplicationMetadata,
        executable: Result<String, String>,
        header: Result<Vec<u8>, String>,
        signature: Result<(), String>,
    ) -> (r: Result<Application, String>)
        ensures
            ({
                let exe = match executable {
                    Ok(e) => Ok(e@),
                    Err(e) => Err(e@),
                };
                let head = match header {
                    Ok(h) => Ok(h@),
                    Err(e) => Err(e@),
                };
                let sig = match signature {
                    Ok(()) => Ok(()),
                    Err(e) => Err(e@),
                };
                match spec_inspection_problem(bundle@, info@, *metadata, exe, head, sig) {
                    Some(m) => r matches Err(e) && e@ == m,
                    None => r matches Ok(a) && a@ == (ApplicationView {
                        bundle: bundle@,
                        executable: exe->Ok_0,
                        identifier: "com.openai.codex"@,
                        version: metadata.version->0@,
                        build: metadata.build->0@,
                        minimum_macos: metadata.minimum_macos->0@,
                        info_digest: hex_of(sha256_of(info@)),
                    }),
                }
            }),
    {
        if !is_bundle(bundle.as_str()) {
            return Err("Expected an application bundle".to_string());
        }
        if info.len() > MAX_INFO_BYTES {
            return Err("Application metadata exceeds its limit".to_string());
        }
        let identifier = match field(&metadata.identifier, "CFBundleIdentifier") {
            Ok(v) => v,
            Err(e) => {
                proof {
                    reveal_strlit("CFBundleIdentifier");
                    reveal_strlit("Missing application field ");
                    reveal_strlit("Missing application field CFBundleIdentifier");
                    assert(e@ =~= "Missing application field CFBundleIdentifier"@);
                }
                return Err(e);
            },
        };
        if !str_equal(identifier.as_str(), "com.openai.codex") {
            return Err("This bundle is not the official Codex desktop application".to_string());
        }
        let name = match field(&metadata.executable_name, "CFBundleExecutable") {
            Ok(v) => v,
            Err(e) => {
                proof {
                    reveal_strlit("CFBundleExecutable");
                    reveal_strlit("Missing application field ");
                    reveal_strlit("Missing application field CFBundleExecutable");
                    assert(e@ =~= "Missing application field CFBundleExecutable"@);
                }
                return Err(e);
            },
        };
        let n = chars_of(name.as_str());
        proof {
            if n@.len() == 1 && n@[0] == '.' {
                assert(n@ =~= seq!['.']);
            }
            if n@.len() == 2 && n@[0] == '.' && n@[1] == '.' {
                assert(n@ =~= seq!['.', '.']);
            }
        }
        if contains_char(n.as_slice(), '/') || contains_char(n.as_slice(), '\\') || contains_char(n.as_slice(), '\0')
            || (n.len() == 1 && n[0] == '.') || (n.len() == 2 && n[0] == '.' && n[1] == '.') {
            return Err("Invalid application executable name".to_string());
        }
        proof {
            if n@ == seq!['.'] {
                assert(n@.len() == 1 && n@[0] == '.');
            }
            if n@ == seq!['.', '.'] {
                assert(n@.len() == 2 && n@[0] == '.' && n@[1] == '.');
            }
        }
        let executable = match executable {
            Ok(e) => e,
            Err(e) => return Err(e),
        };
        if !directly_in_macos(executable.as_str(), bundle.as_str()) {
            return Err("Application executable redirected outside its bundle".to_string());
        }
        let header = match header {
            Ok(h) => h,
            Err(e) => return Err(e),
        };
        if !(header.len() == 8 && header[0] == 0xcf && header[1] == 0xfa && header[2] == 0xed && header[3] == 0xfe
            && header[4] == 0x0c && header[5] == 0 && header[6] == 0 && header[7] == 1) {
            proof {
                if spec_arm64_header(header@) {
                    assert(header@.len() == 8);
                    assert(header@[0] == 0xcf && header@[1] == 0xfa && header@[2] == 0xed && header@[3] == 0xfe);
                    assert(header@[4] == 0x0c && header@[5] == 0 && header@[6] == 0 && header@[7] == 1);
                }
            }
            return Err("This target requires the official ARM64 Mach-O executable".to_string());
        }
        proof {
            assert(header@ =~= seq![0xcfu8, 0xfau8, 0xedu8, 0xfeu8, 0x0cu8, 0u8, 0u8, 1u8]);
        }
        if let Err(e) = signature {
            return Err(e);
        }
        proof {
            reveal_strlit("Missing application field ");
        }
        let version = match field(&metadata.version, "CFBundleShortVersionString") {
            Ok(v) => v,
            Err(e) => {
                proof {
                    reveal_strlit("CFBundleShortVersionString");
                    reveal_strlit("Missing application field CFBundleShortVersionString");
                    assert(e@ =~= "Missing application field CFBundleShortVersionString"@);
                }
                return Err(e);
            },
        };
        let build = match field(&metadata.build, "CFBundleVersion") {
            Ok(v) => v,
            Err(e) => {
                proof {
                    reveal_strlit("CFBundleVersion");
                    reveal_strlit("Missing application field CFBundleVersion");
                    assert(e@ =~= "Missing application field CFBundleVersion"@);
                }
                return Err(e);
            },
        };
        let minimum_macos = match field(&metadata.minimum_macos, "LSMinimumSystemVersion") {
            Ok(v) => v,
            Err(e) => {
                proof {
                    reveal_strlit("LSMinimumSystemVersion");
                    reveal_strlit("Missing application field LSMinimumSystemVersion");
                    assert(e@ =~= "Missing application field LSMinimumSystemVersion"@);
                }
                return Err(e);
            },
        };
        Ok(
            Application {
                bundle,
                executable,
                identifier,
                version,
                build,
                minimum_macos,
                info_digest: hash_hex(info),
            },
        )
    }

    /// Refuses to go on when the application inspected again differs from
    /// this one in its executable or its metadata.
    pub fn revalidated(&self, current: &Application) -> (r: Result<(), String>)
        ensures
            r is Ok <==> (current@.executable == self@.executable && current@.info_digest == self@.info_digest),
            r matches Err(e) ==> e@ == "The application changed during launch preparation; retry with its current version"@,
    {
        if !str_equal(current.executable.as_str(), self.executable.as_str()) || !str_equal(
            current.info_digest.as_str(),
            self.info_digest.as_str(),
        ) {
            return Err("The application changed during launch preparation; retry with its current version".to_string());
        }
        Ok(())
    }

    /// The process's executable lies inside this bundle's `Contents`.
    pub open spec fn spec_owns_executable(&self, executable: Seq<char>) -> bool {
        spec_within(executable, self@.bundle + "/Contents"@, PathStyle::Posix)
    }

    /// Whether a process running `executable` is part of this bundle.
    pub fn owns_executable(&self, executable: &str) -> (r: bool)
        ensures
            r == self.spec_owns_executable(executable@),
    {
        let root = concat3(self.bundle.as_str(), "/Contents", "");
        proof {
            reveal_strlit("");
            assert(root@ =~= self.bundle@ + "/Contents"@);
        }
        within(executable, root.as_str(), PathStyle::Posix)
    }

    /// A process outside this bundle whose executable name makes it worth
    /// asking whether another installed copy of the application runs it.
    pub open spec fn spec_may_be_another_copy(&self, executable: Seq<char>) -> bool {
        match file_name(executable) {
            Some(n) => starts_with(n, "Codex"@) || starts_with(n, "ChatGPT"@) || Some(n) == file_name(self@.executable),
            None => false,
        }
    }

    /// Whether the process running `executable` may be another installed copy.
    pub fn may_be_another_copy(&self, executable: &str) -> (r: bool)
        ensures
            r == self.spec_may_be_another_copy(executable@),
    {
        match file_name_of(executable) {
            Some(n) => {
                let codex = chars_of("Codex");
                let chatgpt = chars_of("ChatGPT");
                let own = match file_name_of(self.executable.as_str()) {
                    Some(m) => crate::text::chars_equal(n.as_slice(), m.as_slice()),
                    None => false,
                };
                chars_start_with(n.as_slice(), codex.as_slice()) || chars_start_with(n.as_slice(), chatgpt.as_slice())
                    || own
            },
            None => false,
        }
    }
}

/// The view of an inspection outcome.
pub open spec fn outcome_view(o: (String, Result<Application, String>)) -> (Seq<char>, Result<ApplicationView, Seq<char>>) {
    (
        o.0@,
        match o.1 {
            Ok(a) => Ok(a@),
            Err(e) => Err(e@),
        },
    )
}

/// The failures among the inspection outcomes, each as `path: error`.
pub open spec fn failure_items(s: Seq<(Seq<char>, Result<ApplicationView, Seq<char>>)>) -> Seq<Seq<char>>
    decreases s.len(),
{
    if s.len() == 0 {
        Seq::empty()
    } else {
        let rest = failure_items(s.drop_last());
        match s.last().1 {
            Err(e) => rest.push(s.last().0 + ": "@ + e),
            Ok(_) => rest,
        }
    }
}

/// Which application discovery settles on among the inspected candidate
/// bundles: the one official application found, or why there is none to use.
pub open spec fn spec_discovered(s: Seq<(Seq<char>, Result<ApplicationView, Seq<char>>)>) -> Result<ApplicationView, Seq<char>> {
    if !(exists|i: int| 0 <= i < s.len() && #[trigger] s[i].1 is Ok) {
        Err(
            "No verified official Codex application found; select its .app with --app. "@ + joined(
                failure_items(s),
                "; "@,
            ),
        )
    } else if exists|i: int, j: int|
        0 <= i < s.len() && 0 <= j < s.len() && #[trigger] s[i].1 is Ok && #[trigger] s[j].1 is Ok && s[i].1->Ok_0.bundle
            != s[j].1->Ok_0.bundle {
        Err("Multiple official applications found; select one with --app"@)
    } else {
        s[choose|i: int| 0 <= i < s.len() && #[trigger] s[i].1 is Ok && forall|k: int| 0 <= k < i ==> !(s[k].1 is Ok)].1
    }
}

/// The application to use among the inspected candidate bundles, given as
/// each candidate's path and inspection outcome: the one official
/// application found, however often it was found.
pub fn select_discovered(inspected: Vec<(String, Result<Application, String>)>) -> (r: Result<Application, String>)
    ensures
        match spec_discovered(inspected@.map_values(|o: (String, Result<Application, String>)| outcome_view(o))) {
            Ok(a) => r matches Ok(x) && x@ == a,
            Err(m) => r matches Err(e) && e@ == m,
        },
{
    let ghost s = inspected@.map_values(|o: (String, Result<Application, String>)| outcome_view(o));
    let mut chosen: Option<Application> = None;
    let mut multiple = false;
    let mut items: Vec<Vec<char>> = Vec::new();
    let mut rest = inspected;
    let mut taken: Vec<(String, Result<Application, String>)> = Vec::new();
    let n = rest.len();
    let mut i: usize = 0;
    proof {
        assert(crate::text::views(items@) =~= failure_items(s.take(0)));
    }
    while i < n
        invariant
            n == s.len(),
            i <= n,
            i + rest@.len() == n,
            forall|k: int| 0 <= k < rest@.len() ==> outcome_view(#[trigger] rest@[k]) == s[i + k],
            crate::text::views(items@) == failure_items(s.take(i as int)),
            match chosen {
                None => forall|k: int| 0 <= k < i ==> !(#[trigger] s[k].1 is Ok),
                Some(a) => exists|f: int|
                    0 <= f < i && #[trigger] s[f].1 is Ok && s[f].1->Ok_0 == a@ && forall|k: int| 0 <= k < f ==> !(s[k].1 is Ok),
            },
            !multiple ==> (chosen matches Some(a) ==> forall|k: int| 0 <= k < i && #[trigger] s[k].1 is Ok ==> s[k].1->Ok_0.bundle == a@.bundle),
            multiple ==> exists|p: int, q: int|
                0 <= p < n && 0 <= q < n && #[trigger] s[p].1 is Ok && #[trigger] s[q].1 is Ok && s[p].1->Ok_0.bundle != s[q].1->Ok_0.bundle,
        decreases n - i,
    {
        let (path, outcome) = rest.remove(0);
        proof {
            assert(outcome_view((path, outcome)) == s[i as int]);
            assert(s.take(i + 1).drop_last() =~= s.take(i as int));
            assert(s.take(i + 1).last() == s[i as int]);
        }
        match outcome {
            Ok(app) => {
                match &chosen {
                    None => {
                        chosen = Some(app);
                    },
                    Some(first) => {
                        if !str_equal(first.bundle.as_str(), app.bundle.as_str()) {
                            proof {
                                let f = choose|f: int|
                                    0 <= f < i && #[trigger] s[f].1 is Ok && s[f].1->Ok_0 == first@ && forall|k: int|
                                        0 <= k < f ==> !(s[k].1 is Ok);
                                assert(s[i as int].1 is Ok && s[i as int].1->Ok_0.bundle != s[f].1->Ok_0.bundle);
                            }
                            multiple = true;
                        }
                    },
                }
                proof {
                    assert(crate::text::views(items@) =~= failure_items(s.take(i + 1)));
                }
            },
            Err(e) => {
                let mut item = chars_of(path.as_str());
                crate::text::push_str(&mut item, ": ");
                crate::text::push_str(&mut item, e.as_str());
                let ghost before = items@;
                items.push(item);
                proof {
                    assert(crate::text::views(items@) =~= crate::text::views(before).push(path@ + ": "@ + e@));
                }
            },
        }
        proof {
            assert forall|k: int| 0 <= k < rest@.len() implies outcome_view(#[trigger] rest@[k]) == s[i + 1 + k] by {}
        }
        i = i + 1;
    }
    proof {
        assert(s.take(n as int) =~= s);
    }
    if multiple {
        return Err("Multiple official applications found; select one with --app".to_string());
    }
    match chosen {
        Some(app) => Ok(app),
        None => {
            let mut message = chars_of("No verified official Codex application found; select its .app with --app. ");
            let mut k: usize = 0;
            while k < items.len()
                invariant
                    k <= items@.len(),
                    message@ == "No verified official Codex application found; select its .app with --app. "@ + joined(
                        crate::text::views(items@).take(k as int),
                        "; "@,
                    ),
                decreases items@.len() - k,
            {
                let ghost v = crate::text::views(items@);
                proof {
                    assert(v.take(k + 1).drop_last() =~= v.take(k as int));
                    assert(v.take(k + 1).last() == items@[k as int]@);
                }
                if k > 0 {
                    crate::text::push_str(&mut message, "; ");
                }
                crate::text::push_all(&mut message, items[k].as_slice());
                proof {
                    if k == 0 {
                        assert(v.take(1) =~= seq![items@[0]@]);
                        assert(joined(Seq::<Seq<char>>::empty(), "; "@) =~= Seq::<char>::empty());
                    }
                    assert(message@ =~= "No verified official Codex application found; select its .app with --app. "@ + joined(
                        v.take(k + 1),
                        "; "@,
                    ));
                }
                k = k + 1;
            }
            proof {
                assert(crate::text::views(items@).take(items@.len() as int) =~= crate::text::views(items@));
            }
            Err(string_from_chars(message.as_slice()))
        },
    }
}

} // verus!
