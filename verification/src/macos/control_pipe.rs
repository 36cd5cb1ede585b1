//! The registry scope of a control socket: a canonical registry path and
//! the hash that names its socket and lock files.
use vstd::prelude::*;

use crate::plugin_services::secrets::hex_of;
use crate::plugin_services::{hash_hex, sha256_of};
use crate::text::{chars_of, string_from_chars};

verus! {

/// One registry's control scope.
#[derive(Debug)]
pub struct RegistryScope {
    path: String,
    id: String,
    root: String,
}

impl Clone for RegistryScope {
    fn clone(&self) -> (r: Self)
        ensures
            r.path_view() == self.path_view(),
            r.id_view() == self.id_view(),
            r.root_view() == self.root_view(),
    {
        proof {
            use_type_invariant(self);
        }
        RegistryScope { path: self.path.clone(), id: self.id.clone(), root: self.root.clone() }
    }
}

impl RegistryScope {
    #[verifier::type_invariant]
    spec fn scope_inv(self) -> bool {
        self.id@.len() == 64
    }

    pub closed spec fn path_view(self) -> Seq<char> {
        self.path@
    }

    pub closed spec fn id_view(self) -> Seq<char> {
        self.id@
    }

    pub closed spec fn root_view(self) -> Seq<char> {
        self.root@
    }

    /// The scope of a canonical registry path whose sockets live in `root`:
    /// its ID is the lowercase hex SHA-256 of the path's bytes.
    pub fn for_path(path: &str, root: &str) -> (s: Self)
        ensures
            s.path_view() == path@,
            s.id_view() == hex_of(sha256_of(vstd::utf8::encode_utf8(path@))),
            s.id_view().len() == 64,
            s.root_view() == root@,
    {
        let id = hash_hex(path.as_bytes());
        RegistryScope { path: path.to_string(), id, root: root.to_string() }
    }

    /// The registry path.
    pub fn path(&self) -> (p: &str)
        ensures
            p@ == self.path_view(),
    {
        self.path.as_str()
    }

    /// The scope ID.
    pub fn id(&self) -> (i: &str)
        ensures
            i@ == self.id_view(),
            i@.len() == 64,
    {
        proof {
            use_type_invariant(self);
        }
        self.id.as_str()
    }

    fn named(&self, suffix: &str) -> (n: String)
        ensures
            n@ == self.id_view().take(32) + suffix@,
    {
        proof {
            use_type_invariant(self);
        }
        let v = chars_of(self.id.as_str());
        let mut out: Vec<char> = Vec::new();
        let mut i: usize = 0;
        while i < 32
            invariant
                i <= 32,
                v@.len() == 64,
                out@ == v@.take(i as int),
            decreases 32 - i,
        {
            out.push(v[i]);
            i = i + 1;
            proof {
                assert(out@ =~= v@.take(i as int));
            }
        }
        let s = chars_of(suffix);
        let mut j: usize = 0;
        while j < s.len()
            invariant
                j <= s@.len(),
                out@ == v@.take(32) + s@.take(j as int),
            decreases s@.len() - j,
        {
            out.push(s[j]);
            j = j + 1;
            proof {
                assert(out@ =~= v@.take(32) + s@.take(j as int));
            }
        }
        proof {
            assert(s@.take(s@.len() as int) =~= s@);
        }
        string_from_chars(out.as_slice())
    }

    /// The socket file name: the first half of the ID and `.sock`.
    pub fn socket_name(&self) -> (n: String)
        ensures
            n@ == self.id_view().take(32) + ".sock"@,
    {
        self.named(".sock")
    }

    /// The lock file name: the first half of the ID and `.lock`.
    pub fn lock_name(&self) -> (n: String)
        ensures
            n@ == self.id_view().take(32) + ".lock"@,
    {
        self.named(".lock")
    }
}

/// The length a control frame header announces: four little-endian bytes.
pub open spec fn announced_length(h: Seq<u8>) -> nat {
    h[0] as nat + 256 * h[1] as nat + 65536 * h[2] as nat + 16777216 * h[3] as nat
}

/// The length of the frame a header announces, when it is neither empty nor
/// longer than `maximum`.
pub fn frame_length(header: [u8; 4], maximum: usize) -> (r: Option<usize>)
    ensures
        r is Some <==> 0 < announced_length(header@) <= maximum,
        r matches Some(n) ==> n == announced_length(header@),
{
    let n: u64 = header[0] as u64 + 256 * (header[1] as u64) + 65536 * (header[2] as u64) + 16777216 * (header[3] as u64);
    if n == 0 || n > maximum as u64 {
        return None;
    }
    Some(n as usize)
}

/// The header announcing a frame of `length` bytes.
pub fn frame_header(length: u32) -> (h: [u8; 4])
    ensures
        h@ == frame_header_spec(length),
        announced_length(h@) == length,
{
    let b0: u8 = (length % 256) as u8;
    let b1: u8 = ((length / 256) % 256) as u8;
    let b2: u8 = ((length / 65536) % 256) as u8;
    let b3: u8 = (length / 16777216) as u8;
    let h = [b0, b1, b2, b3];
    proof {
        assert(h@[0] == b0 && h@[1] == b1 && h@[2] == b2 && h@[3] == b3);
        assert(h@ =~= frame_header_spec(length));
        assert(length == (length % 256) + 256 * ((length / 256) % 256) + 65536 * ((length / 65536) % 256) + 16777216 * (
        length / 16777216)) by (nonlinear_arith);
    }
    h
}

/// A frame header read back gives the length it was written for: a reader
/// whose bound admits the length accepts the header with that length.
pub proof fn law_frame_header_round_trip(length: u32, maximum: usize)
    requires
        0 < length <= maximum,
    ensures
        0 < announced_length(frame_header_spec(length)) <= maximum,
        announced_length(frame_header_spec(length)) == length,
{
    assert(length == (length % 256) + 256 * ((length / 256) % 256) + 65536 * ((length / 65536) % 256) + 16777216 * (
    length / 16777216)) by (nonlinear_arith);
}

/// The header bytes of a frame length.
pub open spec fn frame_header_spec(length: u32) -> Seq<u8> {
    seq![
        (length % 256) as u8,
        ((length / 256) % 256) as u8,
        ((length / 65536) % 256) as u8,
        (length / 16777216) as u8,
    ]
}

/// Whether the socket directory is private to the current user: a real
/// directory, not a link, owned by the user, with mode `0700`.
pub fn private_socket_directory(is_dir: bool, is_symlink: bool, uid: u32, euid: u32, mode: u32) -> (b: bool)
    ensures
        b == (is_dir && !is_symlink && uid == euid && mode % 512 == 448),
{
    let bits = mode & 0o777;
    proof {
        assert(mode & 511 == mode % 512) by (bit_vector);
    }
    is_dir && !is_symlink && uid == euid && bits == 0o700
}

/// Why connecting to a control socket failed.
#[derive(Debug, Clone, Copy, PartialEq, Eq, Structural)]
pub enum ConnectFailure {
    /// No socket exists at the path.
    Missing,
    /// Nothing accepts on the socket.
    Refused,
    TimedOut,
    Other,
}

/// The report status of a failed connection: no Host runs when the socket
/// is missing or refuses.
pub fn connect_failure_status(f: ConnectFailure) -> (s: crate::plugin_cli::ControlStatus)
    ensures
        s == match f {
            ConnectFailure::Missing | ConnectFailure::Refused => crate::plugin_cli::ControlStatus::NotRunning,
            ConnectFailure::TimedOut => crate::plugin_cli::ControlStatus::Timeout,
            ConnectFailure::Other => crate::plugin_cli::ControlStatus::CommunicationError,
        },
{
    match f {
        ConnectFailure::Missing | ConnectFailure::Refused => crate::plugin_cli::ControlStatus::NotRunning,
        ConnectFailure::TimedOut => crate::plugin_cli::ControlStatus::Timeout,
        ConnectFailure::Other => crate::plugin_cli::ControlStatus::CommunicationError,
    }
}

} // verus!

