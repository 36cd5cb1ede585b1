//! Persistent, plugin-owned Core services: the storage document and the
//! credential metadata, with their validation and compare-and-swap rules.
use vstd::prelude::*;

use crate::plugins::{spec_valid_plugin_id, valid_plugin_id};
use crate::text::{any_control, chars_of, is_control};

pub mod storage;
pub mod secrets;

verus! {

/// Largest revision any service document may reach (2^53 - 1).
pub const MAX_REVISION: u64 = 9_007_199_254_740_991;

/// Stable error codes of the plugin services.
#[derive(Debug, Clone, Copy, PartialEq, Eq, Structural)]
pub enum ServiceCode {
    InvalidOwner,
    InvalidParams,
    MethodNotFound,
    StorageConflict,
    StorageCorrupt,
    StorageUnavailable,
    RevisionExhausted,
    QuotaExceeded,
    InvalidCursor,
    SourceIdentityChanged,
    CredentialConflict,
    CredentialNotFound,
    CredentialOriginMismatch,
    CredentialOriginImmutable,
    CredentialUnavailable,
}

impl ServiceCode {
    pub open spec fn spec_name(self) -> Seq<char> {
        match self {
            ServiceCode::InvalidOwner => "invalid_owner"@,
            ServiceCode::InvalidParams => "invalid_params"@,
            ServiceCode::MethodNotFound => "method_not_found"@,
            ServiceCode::StorageConflict => "storage_conflict"@,
            ServiceCode::StorageCorrupt => "storage_corrupt"@,
            ServiceCode::StorageUnavailable => "storage_unavailable"@,
            ServiceCode::RevisionExhausted => "revision_exhausted"@,
            ServiceCode::QuotaExceeded => "quota_exceeded"@,
            ServiceCode::InvalidCursor => "invalid_cursor"@,
            ServiceCode::SourceIdentityChanged => "source_identity_changed"@,
            ServiceCode::CredentialConflict => "credential_conflict"@,
            ServiceCode::CredentialNotFound => "credential_not_found"@,
            ServiceCode::CredentialOriginMismatch => "credential_origin_mismatch"@,
            ServiceCode::CredentialOriginImmutable => "credential_origin_immutable"@,
            ServiceCode::CredentialUnavailable => "credential_unavailable"@,
        }
    }

    /// Wire name of the code.
    pub fn as_str(self) -> (s: &'static str)
        ensures
            s@ == self.spec_name(),
    {
        match self {
            ServiceCode::InvalidOwner => "invalid_owner",
            ServiceCode::InvalidParams => "invalid_params",
            ServiceCode::MethodNotFound => "method_not_found",
            ServiceCode::StorageConflict => "storage_conflict",
            ServiceCode::StorageCorrupt => "storage_corrupt",
            ServiceCode::StorageUnavailable => "storage_unavailable",
            ServiceCode::RevisionExhausted => "revision_exhausted",
            ServiceCode::QuotaExceeded => "quota_exceeded",
            ServiceCode::InvalidCursor => "invalid_cursor",
            ServiceCode::SourceIdentityChanged => "source_identity_changed",
            ServiceCode::CredentialConflict => "credential_conflict",
            ServiceCode::CredentialNotFound => "credential_not_found",
            ServiceCode::CredentialOriginMismatch => "credential_origin_mismatch",
            ServiceCode::CredentialOriginImmutable => "credential_origin_immutable",
            ServiceCode::CredentialUnavailable => "credential_unavailable",
        }
    }
}

/// A plugin-service failure; conflicts carry the current revision.
#[derive(Debug, Clone)]
pub struct ServiceError {
    pub code: ServiceCode,
    pub message: String,
    pub revision: Option<u64>,
}

impl ServiceError {
    /// An error with the code and message.
    pub fn new(code: ServiceCode, message: &str) -> (e: Self)
        ensures
            e.code == code,
            e.message@ == message@,
            e.revision is None,
    {
        ServiceError { code, message: message.to_string(), revision: None }
    }
}

/// The authenticated owner of a plugin-service namespace.
#[derive(Debug, Clone)]
pub struct ServiceOwner {
    pub plugin_id: String,
    pub source_identity: String,
}

/// A valid owner: a valid plugin ID and a stable source identity of
/// 1..=1024 UTF-8 bytes without control characters.
pub open spec fn spec_valid_owner(owner: ServiceOwner) -> bool {
    &&& spec_valid_plugin_id(owner.plugin_id@)
    &&& owner.source_identity@.len() > 0
    &&& crate::text::utf8_len(owner.source_identity@) <= 1024
    &&& !(exists|i: int| 0 <= i < owner.source_identity@.len() && is_control(#[trigger] owner.source_identity@[i]))
}

impl ServiceOwner {
    /// Refuses an owner without a valid plugin ID or stable source identity.
    pub fn validate(&self) -> (r: Result<(), ServiceError>)
        ensures
            r is Ok <==> spec_valid_owner(*self),
            r matches Err(e) ==> e.code == ServiceCode::InvalidOwner,
    {
        let id_ok = valid_plugin_id(self.plugin_id.as_str());
        let v = chars_of(self.source_identity.as_str());
        let ok = id_ok && v.len() > 0 && v.len() <= 1024 && crate::text::utf8_length(v.as_slice()) <= 1024
            && !any_control(v.as_slice());
        proof {
            if id_ok && v.len() > 1024 {
                lemma_utf8_len_at_least(v@);
            }
        }
        if !ok {
            return Err(ServiceError::new(
                ServiceCode::InvalidOwner,
                "plugin services require a valid plugin ID and stable source identity",
            ));
        }
        Ok(())
    }
}

/// The SHA-256 digest of a byte string, as the `sha2` crate computes it.
pub uninterp spec fn sha256_of(data: Seq<u8>) -> Seq<u8>;

/// Calls `sha2::Sha256::digest`. Claims that the result is the digest
/// `sha256_of` names for the input, and that it has the 32 bytes of the
/// algorithm's output size; the compression function itself is left to
/// the `sha2` crate.
#[verifier::external_body]
pub(crate) fn sha256(data: &[u8]) -> (r: Vec<u8>)
    ensures
        r@ == sha256_of(data@),
        r@.len() == 32,
{
    <sha2::Sha256 as sha2::Digest>::digest(data).to_vec()
}

/// Lowercase hexadecimal SHA-256 of the bytes.
pub fn hash_hex(data: &[u8]) -> (s: String)
    ensures
        s@ == crate::plugin_services::secrets::hex_of(sha256_of(data@)),
        s@.len() == 64,
{
    let d = sha256(data);
    let mut out: Vec<char> = Vec::new();
    crate::plugin_services::secrets::push_hex(&mut out, d.as_slice());
    proof {
        assert(out@ =~= crate::plugin_services::secrets::hex_of(d@));
        crate::plugin_services::secrets::lemma_hex_of(d@);
    }
    crate::text::string_from_chars(out.as_slice())
}

/// The record binding a plugin namespace to the source identity that
/// first used it; only a hash of the identity is kept.
#[derive(Debug, Clone)]
pub struct OwnerDocument {
    pub schema: u32,
    pub plugin_id: String,
    pub source_identity_hash: String,
}

/// The owner record the namespace of `owner` must hold.
pub fn expected_owner_document(owner: &ServiceOwner) -> (d: OwnerDocument)
    ensures
        d.schema == 1,
        d.plugin_id@ == owner.plugin_id@,
        d.source_identity_hash@ == crate::plugin_services::secrets::hex_of(sha256_of(vstd::utf8::encode_utf8(owner.source_identity@))),
{
    OwnerDocument { schema: 1, plugin_id: owner.plugin_id.clone(), source_identity_hash: hash_hex(owner.source_identity.as_str().as_bytes()) }
}

/// Every character takes at least one byte.
pub proof fn lemma_utf8_len_at_least(s: Seq<char>)
    ensures
        crate::text::utf8_len(s) >= s.len(),
    decreases s.len(),
{
    if s.len() > 0 {
        lemma_utf8_len_at_least(s.drop_last());
    }
}


/// Calls `std::str::from_utf8`. Claims what its documentation states: the
/// bytes are accepted exactly when they are valid UTF-8, and then stand for
/// the characters they encode.
#[verifier::external_body]
pub(crate) fn utf8_text(bytes: &[u8]) -> (r: Option<String>)
    ensures
        r is Some <==> vstd::utf8::valid_utf8(bytes@),
        r matches Some(s) ==> s@ == vstd::utf8::decode_utf8(bytes@),
{
    std::str::from_utf8(bytes).ok().map(str::to_owned)
}

/// The plugin storage and credential services of one registry.
#[derive(Debug)]
pub struct PluginServices {
    root: String,
    scope_hash: String,
}

/// Spec view of the services: their root directory and the hash that scopes
/// their system credentials to one registry.
pub struct PluginServicesView {
    pub root: Seq<char>,
    pub scope_hash: Seq<char>,
}

impl View for PluginServices {
    type V = PluginServicesView;

    closed spec fn view(&self) -> PluginServicesView {
        PluginServicesView { root: self.root@, scope_hash: self.scope_hash@ }
    }
}

/// The owner record equals the one expected of the owner.
pub open spec fn owner_record_matches(d: OwnerDocument, owner: ServiceOwner) -> bool {
    d.schema == 1 && d.plugin_id@ == owner.plugin_id@ && d.source_identity_hash@ == crate::plugin_services::secrets::hex_of(
        sha256_of(vstd::utf8::encode_utf8(owner.source_identity@)),
    )
}

/// The prefix of the owner's system credentials.
pub open spec fn spec_credential_prefix(scope_hash: Seq<char>, owner: ServiceOwner) -> Seq<char> {
    "Codlet/"@ + scope_hash.take(32) + "/"@ + owner.plugin_id@ + "/"@ + crate::plugin_services::secrets::hex_of(
        sha256_of(vstd::utf8::encode_utf8(owner.source_identity@)),
    )
}

impl PluginServices {
    #[verifier::type_invariant]
    spec fn inv(self) -> bool {
        self.scope_hash@.len() == 64
    }

    /// The services kept beside the registry file at `registry_path`, whose
    /// canonical path has the bytes `scope_identity`.
    pub fn new(registry_path: &str, scope_identity: &[u8]) -> (s: Self)
        ensures
            s@.root == registry_path@ + ".plugin-services"@,
            s@.scope_hash == crate::plugin_services::secrets::hex_of(sha256_of(scope_identity@)),
    {
        let root = crate::text::concat3(registry_path, ".plugin-services", "");
        proof {
            reveal_strlit("");
            assert(root@ =~= registry_path@ + ".plugin-services"@);
        }
        PluginServices { root, scope_hash: hash_hex(scope_identity) }
    }

    /// The directory the services keep their data in.
    pub fn root(&self) -> (r: &str)
        ensures
            r@ == self@.root,
    {
        self.root.as_str()
    }

    /// The prefix of the owner's system credentials, once its namespace is
    /// known to be its own: refused for an invalid owner, and when the
    /// namespace's owner record `existing` names another source.
    pub fn credential_prefix(&self, owner: &ServiceOwner, existing: Option<&OwnerDocument>) -> (r: Result<String, ServiceError>)
        ensures
            !spec_valid_owner(*owner) ==> (r matches Err(e) && e.code == ServiceCode::InvalidOwner),
            spec_valid_owner(*owner) && (existing matches Some(d) && !owner_record_matches(*d, *owner)) ==> (r matches Err(e)
                && e.code == ServiceCode::SourceIdentityChanged),
            spec_valid_owner(*owner) && !(existing matches Some(d) && !owner_record_matches(*d, *owner)) ==> (r matches Ok(p)
                && p@ == spec_credential_prefix(self@.scope_hash, *owner)),
    {
        proof {
            use_type_invariant(self);
        }
        owner.validate()?;
        let expected = expected_owner_document(owner);
        match existing {
            Some(d) => {
                if !(d.schema == expected.schema && crate::text::str_equal(d.plugin_id.as_str(), expected.plugin_id.as_str())
                    && crate::text::str_equal(d.source_identity_hash.as_str(), expected.source_identity_hash.as_str())) {
                    return Err(ServiceError::new(
                        ServiceCode::SourceIdentityChanged,
                        "this plugin ID already has data owned by another stable source identity",
                    ));
                }
            },
            None => {},
        }
        let hash = chars_of(self.scope_hash.as_str());
        let mut out = chars_of("Codlet/");
        let mut i: usize = 0;
        while i < 32
            invariant
                hash@ == self@.scope_hash,
                hash@.len() == 64,
                i <= 32,
                out@ == "Codlet/"@ + hash@.take(i as int),
            decreases 32 - i,
        {
            out.push(hash[i]);
            i = i + 1;
            proof {
                assert(out@ =~= "Codlet/"@ + hash@.take(i as int));
            }
        }
        crate::text::push_str(&mut out, "/");
        crate::text::push_str(&mut out, owner.plugin_id.as_str());
        crate::text::push_str(&mut out, "/");
        crate::text::push_str(&mut out, expected.source_identity_hash.as_str());
        proof {
            assert(out@ =~= spec_credential_prefix(self@.scope_hash, *owner));
        }
        Ok(crate::text::string_from_chars(out.as_slice()))
    }

    /// Resolves a credential for the owner at the origin. `existing` is the
    /// owner record of the owner's namespace, `document` the credential
    /// metadata read from it, and `secret` what the system credential store
    /// holds for the credential, if anything. Refused, in this order: an
    /// invalid reference or origin, a foreign namespace, corrupt metadata, an
    /// unknown reference, a credential bound to another origin, and a missing
    /// or non-UTF-8 system credential.
    pub fn resolve_credential(
        &self,
        owner: &ServiceOwner,
        reference: &str,
        origin: &str,
        existing: Option<&OwnerDocument>,
        document: &crate::plugin_services::secrets::CredentialDocument,
        secret: Option<Vec<u8>>,
    ) -> (r: Result<crate::plugin_services::secrets::SecretValue, ServiceError>)
        requires
            crate::plugin_services::secrets::unique_keys(document.credentials@),
        ensures
            spec_resolution(reference@, origin@, *owner, existing, *document, secret, r),
    {
        let origin = crate::plugin_services::secrets::resolve_precheck(reference, origin)?;
        self.credential_prefix(owner, existing)?;
        crate::plugin_services::secrets::bound_credential(document, reference, origin.as_str())?;
        let bytes = match secret {
            Some(b) => b,
            None => {
                return Err(ServiceError::new(
                    ServiceCode::CredentialUnavailable,
                    "credential metadata exists but its system credential is unavailable",
                ));
            },
        };
        match utf8_text(bytes.as_slice()) {
            Some(text) => Ok(crate::plugin_services::secrets::SecretValue::new(text)),
            None => Err(ServiceError::new(
                ServiceCode::CredentialUnavailable,
                "system credential has an unsupported representation",
            )),
        }
    }
}

/// What resolving a credential gives: the error code of the first refusal,
/// or the secret the system store holds, decoded.
pub open spec fn spec_resolution(
    reference: Seq<char>,
    origin: Seq<char>,
    owner: ServiceOwner,
    existing: Option<&OwnerDocument>,
    document: crate::plugin_services::secrets::CredentialDocument,
    secret: Option<Vec<u8>>,
    r: Result<crate::plugin_services::secrets::SecretValue, ServiceError>,
) -> bool {
    let norm = crate::plugin_services::secrets::spec_normalize_origin(origin);
    if !crate::plugin_services::secrets::spec_valid_reference(reference) || norm is None {
        r matches Err(e) && e.code == ServiceCode::InvalidParams
    } else if !spec_valid_owner(owner) {
        r matches Err(e) && e.code == ServiceCode::InvalidOwner
    } else if existing matches Some(d) && !owner_record_matches(*d, owner) {
        r matches Err(e) && e.code == ServiceCode::SourceIdentityChanged
    } else if !crate::plugin_services::secrets::spec_valid_credentials(document) {
        r matches Err(e) && e.code == ServiceCode::StorageCorrupt
    } else {
        match crate::plugin_services::secrets::find_ref(document.credentials@, reference) {
            None => r matches Err(e) && e.code == ServiceCode::CredentialNotFound,
            Some(i) => if document.credentials@[i].1.origin@ != norm->0 {
                r matches Err(e) && e.code == ServiceCode::CredentialOriginMismatch
            } else {
                match secret {
                    None => r matches Err(e) && e.code == ServiceCode::CredentialUnavailable,
                    Some(b) => if vstd::utf8::valid_utf8(b@) {
                        r matches Ok(v) && v.view() == vstd::utf8::decode_utf8(b@)
                    } else {
                        r matches Err(e) && e.code == ServiceCode::CredentialUnavailable
                    },
                }
            },
        }
    }
}

} // verus!
