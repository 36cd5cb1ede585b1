//! Exact-generation OS authorisations: which loaded Host may use the broker,
//! the history of owner generations per plugin, and which recorded
//! authorisations a registry change revokes.
use vstd::prelude::*;

use crate::managed_plugins::permissions_equal;
use crate::os_broker::OsBrokerError;
use crate::platform::PathStyle;
use crate::plugins::{contains_permission, spec_valid_plugin_id, valid_plugin_id, LocalPluginRegistration, Permission, RegistrationView};
use crate::plugin_permissions::{spec_valid_policy, BrokerPolicy};
use crate::text::{concat3, copy_string, str_equal};

verus! {

/// Most plugin identities whose owner generations are remembered.
pub const MAX_AUTHORIZATION_IDENTITIES: usize = 4096;

/// Longest deadline of one OS request, in milliseconds.
pub const MAX_OS_DEADLINE_MS: u64 = 15000;

/// The largest generation a JSON number carries exactly.
pub const MAX_SAFE_GENERATION: u64 = 9007199254740991;

/// The loaded Host a plugin offers for authorisation, as far as the broker
/// checks it.
#[derive(Debug)]
pub struct HostOffer {
    /// Whether the plugin has a loaded Host entry.
    pub host_loaded: bool,
    /// The registration recorded with the Host entry.
    pub registration: Option<LocalPluginRegistration>,
    /// Whether the registration's path is the Host's root, literally or
    /// once resolved.
    pub source_matches: bool,
}

/// Why a plugin may not be authorised.
#[derive(Debug, Clone, Copy, PartialEq, Eq, Structural)]
pub enum OfferRefusal {
    BrokerStopped,
    InvalidOwner,
    NoHost,
    NoRecordedAuthorization,
    SourceMismatch,
    InvalidPolicy,
}

/// The error code of a refusal.
pub open spec fn refusal_code(r: OfferRefusal) -> Seq<char> {
    match r {
        OfferRefusal::BrokerStopped => "broker_stopped"@,
        OfferRefusal::InvalidOwner | OfferRefusal::NoHost => "invalid_owner"@,
        OfferRefusal::NoRecordedAuthorization | OfferRefusal::SourceMismatch => "permission_denied"@,
        OfferRefusal::InvalidPolicy => "invalid_policy"@,
    }
}

/// The fixed message of a refusal; an invalid policy carries the policy's
/// own message.
pub open spec fn refusal_message(r: OfferRefusal) -> Option<Seq<char>> {
    match r {
        OfferRefusal::BrokerStopped => Some("OS broker is stopping or unavailable"@),
        OfferRefusal::InvalidOwner => Some("OS authorization requires a valid logical ID and positive safe generation"@),
        OfferRefusal::NoHost => Some("OS authorization requires a loaded Host entry"@),
        OfferRefusal::NoRecordedAuthorization => Some("inspection alone does not supply a recorded Host authorization"@),
        OfferRefusal::SourceMismatch => Some("loaded Host source does not match its explicit registration and grants"@),
        OfferRefusal::InvalidPolicy => None,
    }
}

/// Why a plugin may not be authorised, in the order checked; `None` when it
/// may.
pub open spec fn spec_authorization_refusal(
    closing: bool,
    plugin_id: Seq<char>,
    generation: u64,
    declared: Seq<Permission>,
    offer: HostOffer,
    style: PathStyle,
) -> Option<OfferRefusal> {
    if closing {
        Some(OfferRefusal::BrokerStopped)
    } else if !spec_valid_plugin_id(plugin_id) || !(1 <= generation <= MAX_SAFE_GENERATION) {
        Some(OfferRefusal::InvalidOwner)
    } else if !offer.host_loaded {
        Some(OfferRefusal::NoHost)
    } else {
        match offer.registration {
            None => Some(OfferRefusal::NoRecordedAuthorization),
            Some(r) => if !offer.source_matches || exists|i: int|
                0 <= i < declared.len() && !r.grants@.contains(#[trigger] declared[i]) {
                Some(OfferRefusal::SourceMismatch)
            } else if !policy_grants_ok(r.broker_policy, r.grants@, style) {
                Some(OfferRefusal::InvalidPolicy)
            } else {
                None
            },
        }
    }
}

/// The broker policy is valid and each of its scopes has its grant.
pub open spec fn policy_grants_ok(p: BrokerPolicy, grants: Seq<Permission>, style: PathStyle) -> bool {
    &&& spec_valid_policy(p, style)
    &&& p.read_roots@.len() > 0 ==> grants.contains(Permission::HostFs)
    &&& p.network_origins@.len() > 0 ==> grants.contains(Permission::HostNetwork)
    &&& p.executables@.len() > 0 ==> grants.contains(Permission::HostProcess)
}

/// Checks a plugin's offer for an OS authorisation of `generation`: the
/// broker must be open, the ID valid and the generation a positive safe
/// integer, the Host loaded with a recorded registration whose source is the
/// Host's and whose grants cover every declared permission, and its broker
/// policy valid for those grants. Gives the registration to record.
pub fn check_offer(
    closing: bool,
    plugin_id: &str,
    generation: u64,
    declared: &Vec<Permission>,
    offer: HostOffer,
    style: PathStyle,
) -> (r: Result<LocalPluginRegistration, OsBrokerError>)
    ensures
        match spec_authorization_refusal(closing, plugin_id@, generation, declared@, offer, style) {
            None => r matches Ok(reg) && offer.registration == Some(reg),
            Some(refusal) => r matches Err(e) && e.code@ == refusal_code(refusal) && (refusal_message(refusal) matches Some(
                m) ==> e.message@ == m),
        },
{
    if closing {
        return Err(OsBrokerError::new("broker_stopped", "OS broker is stopping or unavailable"));
    }
    if !valid_plugin_id(plugin_id) || generation < 1 || generation > MAX_SAFE_GENERATION {
        return Err(OsBrokerError::new(
            "invalid_owner",
            "OS authorization requires a valid logical ID and positive safe generation",
        ));
    }
    if !offer.host_loaded {
        return Err(OsBrokerError::new("invalid_owner", "OS authorization requires a loaded Host entry"));
    }
    let registration = match offer.registration {
        Some(r) => r,
        None => {
            return Err(OsBrokerError::new(
                "permission_denied",
                "inspection alone does not supply a recorded Host authorization",
            ))
        },
    };
    let mut i: usize = 0;
    while i < declared.len()
        invariant
            i <= declared@.len(),
            forall|j: int| 0 <= j < i ==> registration.grants@.contains(#[trigger] declared@[j]),
            !closing,
            spec_valid_plugin_id(plugin_id@),
            1 <= generation <= MAX_SAFE_GENERATION,
            offer.host_loaded,
            offer.registration == Some(registration),
        decreases declared@.len() - i,
    {
        if !contains_permission(&registration.grants, declared[i]) {
            proof {
                assert(!registration.grants@.contains(declared@[i as int]));
            }
            return Err(OsBrokerError::new(
                "permission_denied",
                "loaded Host source does not match its explicit registration and grants",
            ));
        }
        i = i + 1;
    }
    if !offer.source_matches {
        return Err(OsBrokerError::new(
            "permission_denied",
            "loaded Host source does not match its explicit registration and grants",
        ));
    }
    match registration.broker_policy.validate_grants(&registration.grants, style) {
        Ok(()) => {},
        Err(e) => return Err(OsBrokerError { code: "invalid_policy".to_string(), message: e.message }),
    }
    Ok(registration)
}

/// Refuses an endpoint unless the permission is both declared by the
/// plugin and granted to it.
pub fn require_permission(declared: &Vec<Permission>, grants: &Vec<Permission>, permission: Permission) -> (r: Result<
    (),
    OsBrokerError,
>)
    ensures
        r is Ok <==> (declared@.contains(permission) && grants@.contains(permission)),
        r matches Err(e) ==> e.code@ == "permission_denied"@ && e.message@ == permission.spec_name()
            + " must be declared and explicitly granted before using this endpoint"@,
{
    if !contains_permission(declared, permission) || !contains_permission(grants, permission) {
        let message = concat3(permission.as_str(), " must be declared and explicitly granted before using this endpoint", "");
        proof {
            reveal_strlit("");
            assert(message@ =~= permission.spec_name() + " must be declared and explicitly granted before using this endpoint"@);
        }
        return Err(OsBrokerError { code: "permission_denied".to_string(), message });
    }
    Ok(())
}

/// The broker as an authorisation sees it.
#[derive(Debug, Clone, Copy, PartialEq, Eq, Structural)]
pub enum BrokerState {
    Open,
    Closing,
    Gone,
}

/// What the registry says now of an authorised plugin.
#[derive(Debug)]
pub enum CurrentRegistration {
    /// The broker has no registry to check against.
    Unchecked,
    /// The registry could not be read.
    Unavailable(String),
    /// The plugin's registration in the registry, if any.
    Found(Option<LocalPluginRegistration>),
}

/// Whether two registrations are the same record.
pub fn same_registration(a: &LocalPluginRegistration, b: &LocalPluginRegistration) -> (r: bool)
    ensures
        r == (a@ == b@),
{
    let same = str_equal(a.path.as_str(), b.path.as_str()) && permissions_equal(&a.grants, &b.grants) && strings_equal(
        &a.broker_policy.read_roots,
        &b.broker_policy.read_roots,
    ) && strings_equal(&a.broker_policy.network_origins, &b.broker_policy.network_origins) && strings_equal(
        &a.broker_policy.executables,
        &b.broker_policy.executables,
    );
    proof {
        if a@.path == b@.path && a@.grants == b@.grants && a@.read_roots == b@.read_roots && a@.network_origins
            == b@.network_origins && a@.executables == b@.executables {
            assert(a@ == b@);
        }
    }
    same
}

/// Whether two lists of strings hold the same texts.
pub fn strings_equal(a: &Vec<String>, b: &Vec<String>) -> (r: bool)
    ensures
        r == (a.deep_view() == b.deep_view()),
{
    if a.len() != b.len() {
        proof {
            assert(a.deep_view().len() != b.deep_view().len());
        }
        return false;
    }
    let mut i: usize = 0;
    while i < a.len()
        invariant
            i <= a@.len(),
            a@.len() == b@.len(),
            forall|j: int| 0 <= j < i ==> a@[j]@ == b@[j]@,
        decreases a@.len() - i,
    {
        if !str_equal(a[i].as_str(), b[i].as_str()) {
            proof {
                assert(a.deep_view()[i as int] != b.deep_view()[i as int]);
            }
            return false;
        }
        i = i + 1;
    }
    proof {
        assert(a.deep_view() =~= b.deep_view());
    }
    true
}

/// Whether an authorisation still stands, and whether a refusal revokes it:
/// `Err((error, revoke))`.
pub open spec fn spec_check_current(
    live: bool,
    broker: BrokerState,
    current: CurrentRegistration,
    recorded: RegistrationView,
) -> Result<(), (Seq<char>, bool)> {
    if !live {
        Err(("permission_revoked"@, false))
    } else if broker == BrokerState::Gone {
        Err(("broker_stopped"@, false))
    } else if broker == BrokerState::Closing {
        Err(("broker_stopped"@, true))
    } else {
        match current {
            CurrentRegistration::Unchecked => Ok(()),
            CurrentRegistration::Unavailable(_) => Err(("authorization_unavailable"@, true)),
            CurrentRegistration::Found(r) => if r matches Some(x) && x@ == recorded {
                Ok(())
            } else {
                Err(("permission_revoked"@, true))
            },
        }
    }
}

/// Whether an authorisation still stands: live, its broker open, and its
/// recorded registration still the registry's. A refusal says whether the
/// authorisation is to be revoked with it.
pub fn check_current(live: bool, broker: BrokerState, current: &CurrentRegistration, recorded: &LocalPluginRegistration) -> (r: Result<
    (),
    (OsBrokerError, bool),
>)
    ensures
        match spec_check_current(live, broker, *current, recorded@) {
            Ok(()) => r is Ok,
            Err((code, revoke)) => r matches Err((e, rv)) && e.code@ == code && rv == revoke,
        },
        live && broker == BrokerState::Open ==> match current {
            CurrentRegistration::Unavailable(m) => r matches Err((e, _)) && e.message@
                == "cannot verify current registration: "@ + m@,
            _ => true,
        },
{
    if !live {
        return Err((revoked(), false));
    }
    match broker {
        BrokerState::Gone => return Err((stopped(), false)),
        BrokerState::Closing => return Err((stopped(), true)),
        BrokerState::Open => {},
    }
    match current {
        CurrentRegistration::Unchecked => Ok(()),
        CurrentRegistration::Unavailable(m) => {
            let message = concat3("cannot verify current registration: ", m.as_str(), "");
            proof {
                reveal_strlit("");
                assert(message@ =~= "cannot verify current registration: "@ + m@);
            }
            Err((OsBrokerError { code: "authorization_unavailable".to_string(), message }, true))
        },
        CurrentRegistration::Found(r) => match r {
            Some(x) => if same_registration(x, recorded) {
                Ok(())
            } else {
                Err((revoked(), true))
            },
            None => Err((revoked(), true)),
        },
    }
}

fn revoked() -> (e: OsBrokerError)
    ensures
        e.code@ == "permission_revoked"@,
        e.message@ == "this exact-generation authorization is no longer current"@,
{
    OsBrokerError::new("permission_revoked", "this exact-generation authorization is no longer current")
}

fn stopped() -> (e: OsBrokerError)
    ensures
        e.code@ == "broker_stopped"@,
        e.message@ == "OS broker is stopping or unavailable"@,
{
    OsBrokerError::new("broker_stopped", "OS broker is stopping or unavailable")
}

/// The permission an endpoint needs, when the authorisation belongs to this
/// broker and the endpoint is registered.
pub fn endpoint_permission(same_broker: bool, endpoint: &str) -> (r: Result<Permission, OsBrokerError>)
    ensures
        !same_broker ==> (r matches Err(e) && e.code@ == "invalid_owner"@ && e.message@
            == "authorization belongs to another broker"@),
        same_broker ==> match crate::os_broker::spec_permission_for_endpoint(endpoint@) {
            Some(p) => r == Ok::<Permission, OsBrokerError>(p),
            None => r matches Err(e) && e.code@ == "method_not_found"@ && e.message@
                == "OS broker endpoint is not registered"@,
        },
{
    if !same_broker {
        return Err(OsBrokerError::new("invalid_owner", "authorization belongs to another broker"));
    }
    match crate::os_broker::permission_for_endpoint(endpoint) {
        Some(p) => Ok(p),
        None => Err(OsBrokerError::new("method_not_found", "OS broker endpoint is not registered")),
    }
}

/// Admits a request whose permission is settled: its deadline must lie in
/// the next 15 seconds, its parameters fit the byte limit, and the broker
/// hold fewer than its most operations; in that order.
pub fn admit_request(deadline: u64, now: u64, params_bytes: usize, retained: usize) -> (r: Result<(), OsBrokerError>)
    ensures
        deadline <= now ==> (r matches Err(e) && e.code@ == "deadline_exceeded"@),
        deadline > now && deadline - now > MAX_OS_DEADLINE_MS ==> (r matches Err(e) && e.code@ == "invalid_deadline"@
            && e.message@ == "OS request deadline may not exceed 15 seconds"@),
        deadline > now && deadline - now <= MAX_OS_DEADLINE_MS && params_bytes > crate::os_broker::MAX_OS_BYTES ==> (r matches Err(e)
            && e.code@ == "request_too_large"@ && e.message@ == "OS request exceeds its JSON byte limit"@),
        deadline > now && deadline - now <= MAX_OS_DEADLINE_MS && params_bytes <= crate::os_broker::MAX_OS_BYTES
            && retained >= crate::os_broker::MAX_OS_OPERATIONS ==> (r matches Err(e) && e.code@ == "broker_busy"@
            && e.message@ == "OS operation/result capacity is full"@),
        r is Ok <==> (deadline > now && deadline - now <= MAX_OS_DEADLINE_MS && params_bytes
            <= crate::os_broker::MAX_OS_BYTES && retained < crate::os_broker::MAX_OS_OPERATIONS),
{
    if deadline <= now {
        return Err(OsBrokerError::new("deadline_exceeded", "OS operation deadline expired"));
    }
    if deadline - now > MAX_OS_DEADLINE_MS {
        return Err(OsBrokerError::new("invalid_deadline", "OS request deadline may not exceed 15 seconds"));
    }
    if params_bytes > crate::os_broker::MAX_OS_BYTES {
        return Err(OsBrokerError::new("request_too_large", "OS request exceeds its JSON byte limit"));
    }
    if retained >= crate::os_broker::MAX_OS_OPERATIONS {
        return Err(OsBrokerError::new("broker_busy", "OS operation/result capacity is full"));
    }
    Ok(())
}

/// What the broker remembers of one plugin's latest authorisation.
#[derive(Debug)]
pub struct OwnerRecord {
    pub plugin_id: String,
    pub generation: u64,
    pub registration: LocalPluginRegistration,
    /// Whether the authorisation may still be used.
    pub live: bool,
    /// Whether a change of its registration was already reported.
    pub change_reported: bool,
    /// Whether the authorisation still exists: it was not dropped.
    pub held: bool,
}

/// Spec view of a remembered authorisation.
pub struct OwnerState {
    pub generation: u64,
    pub registration: RegistrationView,
    pub live: bool,
    pub change_reported: bool,
    pub held: bool,
}

/// The view of a record, keyed by its plugin ID.
pub open spec fn owner_entry(r: OwnerRecord) -> (Seq<char>, OwnerState) {
    (
        r.plugin_id@,
        OwnerState {
            generation: r.generation,
            registration: r.registration@,
            live: r.live,
            change_reported: r.change_reported,
            held: r.held,
        },
    )
}

/// The records as keyed entries.
pub open spec fn owner_entries(v: Seq<OwnerRecord>) -> Seq<(Seq<char>, OwnerState)> {
    v.map_values(|r: OwnerRecord| owner_entry(r))
}

/// A list of keyed entries as a map, later entries overriding earlier ones.
pub open spec fn keyed<V>(s: Seq<(Seq<char>, V)>) -> Map<Seq<char>, V>
    decreases s.len(),
{
    if s.len() == 0 {
        Map::empty()
    } else {
        keyed(s.drop_last()).insert(s.last().0, s.last().1)
    }
}

/// No key occurs twice.
pub open spec fn distinct_keys<V>(s: Seq<(Seq<char>, V)>) -> bool {
    forall|i: int, j: int| 0 <= i < j < s.len() ==> #[trigger] s[i].0 != #[trigger] s[j].0
}

proof fn lemma_keyed_dom<V>(s: Seq<(Seq<char>, V)>, k: Seq<char>)
    ensures
        keyed(s).dom().contains(k) <==> exists|i: int| 0 <= i < s.len() && #[trigger] s[i].0 == k,
    decreases s.len(),
{
    if s.len() > 0 {
        lemma_keyed_dom(s.drop_last(), k);
        if exists|i: int| 0 <= i < s.len() && #[trigger] s[i].0 == k {
            let i = choose|i: int| 0 <= i < s.len() && #[trigger] s[i].0 == k;
            if i < s.len() - 1 {
                assert(s.drop_last()[i].0 == k);
            }
        }
        if exists|i: int| 0 <= i < s.drop_last().len() && #[trigger] s.drop_last()[i].0 == k {
            let i = choose|i: int| 0 <= i < s.drop_last().len() && #[trigger] s.drop_last()[i].0 == k;
            assert(s[i].0 == k);
        }
    }
}

proof fn lemma_keyed_at<V>(s: Seq<(Seq<char>, V)>, i: int)
    requires
        distinct_keys(s),
        0 <= i < s.len(),
    ensures
        keyed(s).dom().contains(s[i].0),
        keyed(s)[s[i].0] == s[i].1,
    decreases s.len(),
{
    if i < s.len() - 1 {
        lemma_keyed_at(s.drop_last(), i);
        assert(s.drop_last()[i] == s[i]);
        assert(s[i].0 != s.last().0);
    }
}

proof fn lemma_keyed_update<V>(s: Seq<(Seq<char>, V)>, i: int, v: V)
    requires
        distinct_keys(s),
        0 <= i < s.len(),
    ensures
        keyed(s.update(i, (s[i].0, v))) == keyed(s).insert(s[i].0, v),
    decreases s.len(),
{
    let t = s.update(i, (s[i].0, v));
    if i == s.len() - 1 {
        assert(t.drop_last() =~= s.drop_last());
        assert(keyed(t) =~= keyed(s).insert(s[i].0, v));
    } else {
        assert(distinct_keys(s.drop_last()));
        lemma_keyed_update(s.drop_last(), i, v);
        assert(t.drop_last() =~= s.drop_last().update(i, (s[i].0, v)));
        assert(s.last().0 != s[i].0);
        assert(keyed(t) =~= keyed(s).insert(s[i].0, v));
    }
}

proof fn lemma_keyed_len<V>(s: Seq<(Seq<char>, V)>)
    requires
        distinct_keys(s),
    ensures
        keyed(s).dom().finite(),
        keyed(s).dom().len() == s.len(),
    decreases s.len(),
{
    if s.len() > 0 {
        assert(distinct_keys(s.drop_last()));
        lemma_keyed_len(s.drop_last());
        lemma_keyed_dom(s.drop_last(), s.last().0);
        assert forall|i: int| 0 <= i < s.drop_last().len() implies #[trigger] s.drop_last()[i].0 != s.last().0 by {
            assert(s[i].0 != s[s.len() - 1].0);
        }
    }
}

/// A fresh authorisation of `generation` with the registration.
pub open spec fn fresh_owner(generation: u64, registration: RegistrationView) -> OwnerState {
    OwnerState { generation, registration, live: true, change_reported: false, held: true }
}

/// Why a new owner generation is refused.
#[derive(Debug, Clone, Copy, PartialEq, Eq, Structural)]
pub enum OwnerRefusal {
    /// The generation is not newer than one already allocated.
    StaleGeneration,
    /// The identity history is full.
    IdentityLimit,
}

/// What recording an authorisation does to the history: a newer generation
/// of a known plugin replaces the older one, whose authorisation stops being
/// live; a new plugin is added while the history has room.
pub open spec fn spec_authorize(
    m: Map<Seq<char>, OwnerState>,
    plugin_id: Seq<char>,
    generation: u64,
    registration: RegistrationView,
) -> Result<Map<Seq<char>, OwnerState>, OwnerRefusal> {
    if m.dom().contains(plugin_id) {
        if m[plugin_id].generation >= generation {
            Err(OwnerRefusal::StaleGeneration)
        } else {
            Ok(m.insert(plugin_id, fresh_owner(generation, registration)))
        }
    } else if m.dom().len() >= MAX_AUTHORIZATION_IDENTITIES {
        Err(OwnerRefusal::IdentityLimit)
    } else {
        Ok(m.insert(plugin_id, fresh_owner(generation, registration)))
    }
}

/// The registration a registry lists for a plugin: its first entry.
pub open spec fn registered(s: Seq<(Seq<char>, RegistrationView)>, id: Seq<char>) -> Option<RegistrationView>
    decreases s.len(),
{
    if s.len() == 0 {
        None
    } else if s[0].0 == id {
        Some(s[0].1)
    } else {
        registered(s.skip(1), id)
    }
}

/// A registry's entries as views.
pub open spec fn registry_entries(v: Seq<(String, LocalPluginRegistration)>) -> Seq<(Seq<char>, RegistrationView)> {
    v.map_values(|e: (String, LocalPluginRegistration)| (e.0@, e.1@))
}

/// A live-held authorisation whose registration the registry no longer
/// lists unchanged.
pub open spec fn changed_owner(st: OwnerState, now: Option<RegistrationView>) -> bool {
    st.held && now != Some(st.registration)
}

/// The history after a registry change: every changed authorisation stops
/// being live and counts as reported.
pub open spec fn after_change(m: Map<Seq<char>, OwnerState>, registry: Seq<(Seq<char>, RegistrationView)>) -> Map<
    Seq<char>,
    OwnerState,
> {
    Map::new(
        |k: Seq<char>| m.dom().contains(k),
        |k: Seq<char>| revised(m[k], registered(registry, k)),
    )
}

/// The latest owner generation of each plugin, and whether its
/// authorisation may still act.
#[derive(Debug)]
pub struct AuthorizationTable {
    owners: Vec<OwnerRecord>,
}

impl View for AuthorizationTable {
    type V = Map<Seq<char>, OwnerState>;

    closed spec fn view(&self) -> Map<Seq<char>, OwnerState> {
        keyed(owner_entries(self.owners@))
    }
}

impl AuthorizationTable {
    #[verifier::type_invariant]
    spec fn inv(self) -> bool {
        distinct_keys(owner_entries(self.owners@)) && self.owners@.len() <= MAX_AUTHORIZATION_IDENTITIES
    }

    /// How many plugin identities the history remembers: a finite set of at
    /// most 4096.
    pub fn identities(&self) -> (n: usize)
        ensures
            self@.dom().finite(),
            n == self@.dom().len(),
            n <= MAX_AUTHORIZATION_IDENTITIES,
    {
        proof {
            use_type_invariant(self);
            lemma_keyed_len(owner_entries(self.owners@));
        }
        self.owners.len()
    }

    /// An empty history.
    pub fn new() -> (t: Self)
        ensures
            t@ == Map::<Seq<char>, OwnerState>::empty(),
    {
        let t = AuthorizationTable { owners: Vec::new() };
        proof {
            assert(owner_entries(t.owners@) =~= Seq::<(Seq<char>, OwnerState)>::empty());
        }
        t
    }

    fn index_of(&self, plugin_id: &str) -> (r: Option<usize>)
        ensures
            match r {
                Some(i) => i < self.owners@.len() && self.owners@[i as int].plugin_id@ == plugin_id@
                    && self@.dom().contains(plugin_id@) && self@[plugin_id@] == owner_entry(self.owners@[i as int]).1,
                None => !self@.dom().contains(plugin_id@),
            },
    {
        proof {
            use_type_invariant(self);
        }
        let ghost s = owner_entries(self.owners@);
        let key = plugin_id.to_string();
        let mut i: usize = 0;
        while i < self.owners.len()
            invariant
                i <= self.owners@.len(),
                s == owner_entries(self.owners@),
                distinct_keys(s),
                key@ == plugin_id@,
                forall|j: int| 0 <= j < i ==> self.owners@[j].plugin_id@ != plugin_id@,
            decreases self.owners@.len() - i,
        {
            if self.owners[i].plugin_id == key {
                proof {
                    lemma_keyed_at(s, i as int);
                }
                return Some(i);
            }
            i = i + 1;
        }
        proof {
            lemma_keyed_dom(s, plugin_id@);
            assert forall|j: int| 0 <= j < s.len() implies #[trigger] s[j].0 != plugin_id@ by {
                assert(s[j].0 == self.owners@[j].plugin_id@);
            }
        }
        None
    }

    /// Records an authorisation of `generation` for the plugin. A generation
    /// is never reused: one not newer than the plugin's last is refused. A
    /// newer one replaces the last, which stops being live. A plugin not yet
    /// known is refused once 4096 identities are remembered.
    pub fn authorize(&mut self, plugin_id: &str, generation: u64, registration: LocalPluginRegistration) -> (r: Result<
        (),
        OsBrokerError,
    >)
        ensures
            match spec_authorize(old(self)@, plugin_id@, generation, registration@) {
                Ok(m) => r is Ok && final(self)@ == m,
                Err(OwnerRefusal::StaleGeneration) => (r matches Err(e) && e.code@ == "stale_generation"@ && e.message@
                    == "OS authorization never reuses a previously allocated owner generation"@) && final(self)@ == old(
                    self,
                )@,
                Err(OwnerRefusal::IdentityLimit) => (r matches Err(e) && e.code@ == "identity_limit"@ && e.message@
                    == "OS authorization identity history is full"@) && final(self)@ == old(self)@,
            },
    {
        proof {
            use_type_invariant(&*self);
            lemma_keyed_len(owner_entries(self.owners@));
        }
        let ghost s = owner_entries(self.owners@);
        let record = OwnerRecord {
            plugin_id: plugin_id.to_string(),
            generation,
            registration,
            live: true,
            change_reported: false,
            held: true,
        };
        match self.index_of(plugin_id) {
            Some(i) => {
                if self.owners[i].generation >= generation {
                    return Err(OsBrokerError::new(
                        "stale_generation",
                        "OS authorization never reuses a previously allocated owner generation",
                    ));
                }
                proof {
                    lemma_keyed_update(s, i as int, owner_entry(record).1);
                }
                let mut owners = Vec::new();
                std::mem::swap(&mut owners, &mut self.owners);
                owners.set(i, record);
                proof {
                    assert(owner_entries(owners@) =~= s.update(i as int, (s[i as int].0, owner_entry(record).1)));
                    assert forall|a: int, b: int| 0 <= a < b < owners@.len() implies #[trigger] owner_entries(owners@)[a].0
                        != #[trigger] owner_entries(owners@)[b].0 by {
                        assert(owner_entries(owners@)[a].0 == s[a].0);
                        assert(owner_entries(owners@)[b].0 == s[b].0);
                    }
                }
                self.owners = owners;
                Ok(())
            },
            None => {
                if self.owners.len() >= MAX_AUTHORIZATION_IDENTITIES {
                    return Err(OsBrokerError::new("identity_limit", "OS authorization identity history is full"));
                }
                proof {
                    lemma_keyed_dom(s, plugin_id@);
                }
                let mut owners = Vec::new();
                std::mem::swap(&mut owners, &mut self.owners);
                owners.push(record);
                proof {
                    assert(owner_entries(owners@) =~= s.push(owner_entry(record)));
                    assert(owner_entries(owners@).drop_last() =~= s);
                    assert forall|a: int, b: int| 0 <= a < b < owners@.len() implies #[trigger] owner_entries(owners@)[a].0
                        != #[trigger] owner_entries(owners@)[b].0 by {
                        if b == owners@.len() - 1 {
                            assert(s[a].0 != plugin_id@);
                        }
                    }
                }
                self.owners = owners;
                Ok(())
            },
        }
    }

    fn set_flags(&mut self, i: usize, live: bool, change_reported: bool, held: bool)
        requires
            i < old(self).owners@.len(),
        ensures
            final(self).owners@.len() == old(self).owners@.len(),
            final(self)@ == old(self)@.insert(
                old(self).owners@[i as int].plugin_id@,
                OwnerState { live, change_reported, held, ..owner_entry(old(self).owners@[i as int]).1 },
            ),
            final(self).owners@[i as int].plugin_id@ == old(self).owners@[i as int].plugin_id@,
            forall|j: int| 0 <= j < old(self).owners@.len() && j != i ==> #[trigger] final(self).owners@[j] == old(
                self,
            ).owners@[j],
            final(self).owners@[i as int].generation == old(self).owners@[i as int].generation,
            final(self).owners@[i as int].registration == old(self).owners@[i as int].registration,
            final(self).owners@[i as int].live == live,
            final(self).owners@[i as int].change_reported == change_reported,
            final(self).owners@[i as int].held == held,
    {
        proof {
            use_type_invariant(&*self);
        }
        let ghost s = owner_entries(self.owners@);
        let mut owners = Vec::new();
        std::mem::swap(&mut owners, &mut self.owners);
        let mut record = owners.remove(i);
        record.live = live;
        record.change_reported = change_reported;
        record.held = held;
        owners.insert(i, record);
        proof {
            let v = OwnerState { live, change_reported, held, ..s[i as int].1 };
            lemma_keyed_update(s, i as int, v);
            assert(owner_entries(owners@) =~= s.update(i as int, (s[i as int].0, v)));
            assert forall|a: int, b: int| 0 <= a < b < owners@.len() implies #[trigger] owner_entries(owners@)[a].0
                != #[trigger] owner_entries(owners@)[b].0 by {
                assert(owner_entries(owners@)[a].0 == s[a].0);
                assert(owner_entries(owners@)[b].0 == s[b].0);
            }
        }
        self.owners = owners;
    }

    /// Whether the authorisation of this exact generation may still act.
    pub fn is_live(&self, plugin_id: &str, generation: u64) -> (b: bool)
        ensures
            b == (self@.dom().contains(plugin_id@) && self@[plugin_id@].generation == generation
                && self@[plugin_id@].live),
    {
        match self.index_of(plugin_id) {
            Some(i) => self.owners[i].generation == generation && self.owners[i].live,
            None => false,
        }
    }

    /// Revokes the authorisation of this exact generation, if it is the
    /// plugin's latest and still exists. Reports whether it did.
    pub fn revoke_owner(&mut self, plugin_id: &str, generation: u64) -> (revoked: bool)
        ensures
            revoked == (old(self)@.dom().contains(plugin_id@) && old(self)@[plugin_id@].generation == generation
                && old(self)@[plugin_id@].held),
            final(self)@ == if revoked {
                old(self)@.insert(plugin_id@, OwnerState { live: false, ..old(self)@[plugin_id@] })
            } else {
                old(self)@
            },
    {
        match self.index_of(plugin_id) {
            Some(i) => {
                if self.owners[i].generation == generation && self.owners[i].held {
                    let reported = self.owners[i].change_reported;
                    self.set_flags(i, false, reported, true);
                    true
                } else {
                    false
                }
            },
            None => false,
        }
    }

    /// The authorisation of this exact generation was dropped: it no longer
    /// exists to act or to be revoked.
    pub fn release(&mut self, plugin_id: &str, generation: u64)
        ensures
            final(self)@ == if old(self)@.dom().contains(plugin_id@) && old(self)@[plugin_id@].generation == generation {
                old(self)@.insert(plugin_id@, OwnerState { live: false, held: false, ..old(self)@[plugin_id@] })
            } else {
                old(self)@
            },
    {
        match self.index_of(plugin_id) {
            Some(i) => {
                if self.owners[i].generation == generation {
                    let reported = self.owners[i].change_reported;
                    self.set_flags(i, false, reported, false);
                }
            },
            None => {},
        }
    }

    /// The broker is stopping: every existing authorisation stops being
    /// live.
    pub fn revoke_all(&mut self)
        ensures
            final(self)@ == Map::new(
                |k: Seq<char>| old(self)@.dom().contains(k),
                |k: Seq<char>| stopped_owner(old(self)@[k]),
            ),
    {
        proof {
            use_type_invariant(&*self);
        }
        let ghost s0 = owner_entries(self.owners@);
        let ghost m0 = self@;
        let mut i: usize = 0;
        while i < self.owners.len()
            invariant
                i <= self.owners@.len(),
                self.owners@.len() == s0.len(),
                m0 == keyed(s0),
                distinct_keys(s0),
                forall|j: int| 0 <= j < self.owners@.len() ==> #[trigger] owner_entry(self.owners@[j]) == if j < i {
                    (s0[j].0, stopped_owner(s0[j].1))
                } else {
                    s0[j]
                },
            decreases self.owners@.len() - i,
        {
            proof {
                assert(owner_entry(self.owners@[i as int]) == s0[i as int]);
            }
            if self.owners[i].held {
                let reported = self.owners[i].change_reported;
                let ghost before = self.owners@;
                self.set_flags(i, false, reported, true);
                proof {
                    assert forall|j: int| 0 <= j < self.owners@.len() implies #[trigger] owner_entry(self.owners@[j]) == if j
                        < i + 1 {
                        (s0[j].0, stopped_owner(s0[j].1))
                    } else {
                        s0[j]
                    } by {
                        if j != i {
                            assert(self.owners@[j] == before[j]);
                            assert(owner_entry(before[j]) == if j < i {
                                (s0[j].0, stopped_owner(s0[j].1))
                            } else {
                                s0[j]
                            });
                        }
                    }
                }
            }
            i = i + 1;
        }
        proof {
            let s1 = owner_entries(self.owners@);
            assert(distinct_keys(s1)) by {
                assert forall|a: int, b: int| 0 <= a < b < s1.len() implies #[trigger] s1[a].0 != #[trigger] s1[b].0 by {
                    assert(s1[a] == owner_entry(self.owners@[a]));
                    assert(s1[b] == owner_entry(self.owners@[b]));
                }
            }
            let target = Map::new(
                |k: Seq<char>| m0.dom().contains(k),
                |k: Seq<char>| stopped_owner(m0[k]),
            );
            assert forall|k: Seq<char>| #[trigger] keyed(s1).dom().contains(k) == target.dom().contains(k) by {
                lemma_keyed_dom(s1, k);
                lemma_keyed_dom(s0, k);
                if exists|x: int| 0 <= x < s1.len() && #[trigger] s1[x].0 == k {
                    let x = choose|x: int| 0 <= x < s1.len() && #[trigger] s1[x].0 == k;
                    assert(s1[x] == owner_entry(self.owners@[x]));
                    assert(s0[x].0 == k);
                }
                if exists|x: int| 0 <= x < s0.len() && #[trigger] s0[x].0 == k {
                    let x = choose|x: int| 0 <= x < s0.len() && #[trigger] s0[x].0 == k;
                    assert(s1[x] == owner_entry(self.owners@[x]));
                    assert(s1[x].0 == k);
                }
            }
            assert forall|k: Seq<char>| #[trigger] keyed(s1).dom().contains(k) implies keyed(s1)[k] == target[k] by {
                lemma_keyed_dom(s1, k);
                let x = choose|x: int| 0 <= x < s1.len() && #[trigger] s1[x].0 == k;
                assert(s1[x] == owner_entry(self.owners@[x]));
                lemma_keyed_at(s1, x);
                lemma_keyed_at(s0, x);
            }
            assert(keyed(s1) =~= target);
        }
    }

    /// Revokes every existing authorisation whose registration the
    /// registry no longer lists unchanged, and reports each such plugin and
    /// generation once, even if a request already noticed the change.
    pub fn revoke_changed(&mut self, registry: &Vec<(String, LocalPluginRegistration)>) -> (reported: Vec<(String, u64)>)
        ensures
            final(self)@ == after_change(old(self)@, registry_entries(registry@)),
            forall|j: int| 0 <= j < reported@.len() ==> {
                let k = #[trigger] reported@[j].0@;
                &&& old(self)@.dom().contains(k)
                &&& newly_changed(old(self)@[k], registered(registry_entries(registry@), k))
                &&& reported@[j].1 == old(self)@[k].generation
            },
            forall|k: Seq<char>|
                old(self)@.dom().contains(k) && #[trigger] newly_changed(old(self)@[k], registered(registry_entries(registry@), k))
                    ==> exists|j: int| 0 <= j < reported@.len() && #[trigger] reported@[j].0@ == k,
            forall|a: int, b: int| 0 <= a < b < reported@.len() ==> #[trigger] reported@[a].0@ != #[trigger] reported@[b].0@,
    {
        proof {
            use_type_invariant(&*self);
        }
        let ghost s0 = owner_entries(self.owners@);
        let ghost m0 = self@;
        let ghost reg = registry_entries(registry@);
        let mut reported: Vec<(String, u64)> = Vec::new();
        let ghost mut keys: Seq<Seq<char>> = Seq::empty();
        let mut i: usize = 0;
        while i < self.owners.len()
            invariant
                i <= self.owners@.len(),
                self.owners@.len() == s0.len(),
                m0 == keyed(s0),
                distinct_keys(s0),
                reg == registry_entries(registry@),
                forall|j: int| 0 <= j < self.owners@.len() ==> #[trigger] owner_entry(self.owners@[j]) == if j < i {
                    (s0[j].0, revised(s0[j].1, registered(reg, s0[j].0)))
                } else {
                    s0[j]
                },
                keys.len() == reported@.len(),
                forall|j: int| 0 <= j < reported@.len() ==> #[trigger] keys[j] == reported@[j].0@,
                forall|j: int| 0 <= j < reported@.len() ==> {
                    let k = #[trigger] reported@[j].0@;
                    &&& m0.dom().contains(k)
                    &&& newly_changed(m0[k], registered(reg, k))
                    &&& reported@[j].1 == m0[k].generation
                },
                forall|j: int, x: int| 0 <= j < reported@.len() && i <= x < s0.len() ==> #[trigger] reported@[j].0@
                    != #[trigger] s0[x].0,
                forall|x: int| 0 <= x < i && newly_changed(s0[x].1, registered(reg, s0[x].0)) ==> keys.contains(
                    #[trigger] s0[x].0,
                ),
                forall|a: int, b: int| 0 <= a < b < reported@.len() ==> #[trigger] reported@[a].0@ != #[trigger] reported@[b].0@,
            decreases self.owners@.len() - i,
        {
            proof {
                use_type_invariant(&*self);
                assert(owner_entry(self.owners@[i as int]) == s0[i as int]);
                lemma_keyed_at(s0, i as int);
            }
            let now = lookup_registration(registry, self.owners[i].plugin_id.as_str());
            let unchanged = match now {
                Some(x) => same_registration(&registry[x].1, &self.owners[i].registration),
                None => false,
            };
            let changed = self.owners[i].held && !unchanged;
            proof {
                assert(changed == changed_owner(s0[i as int].1, registered(reg, s0[i as int].0)));
            }
            if changed {
                if !self.owners[i].change_reported {
                    let id = copy_string(&self.owners[i].plugin_id);
                    let generation = self.owners[i].generation;
                    let ghost old_reported = reported@;
                    let ghost old_keys = keys;
                    reported.push((id, generation));
                    proof {
                        keys = keys.push(s0[i as int].0);
                        assert forall|j: int| 0 <= j < reported@.len() implies #[trigger] keys[j] == reported@[j].0@ by {
                            if j < old_reported.len() {
                                assert(reported@[j] == old_reported[j]);
                            }
                        }
                        assert forall|j: int| 0 <= j < reported@.len() implies {
                            let k = #[trigger] reported@[j].0@;
                            &&& m0.dom().contains(k)
                            &&& newly_changed(m0[k], registered(reg, k))
                            &&& reported@[j].1 == m0[k].generation
                        } by {
                            if j < old_reported.len() {
                                assert(reported@[j] == old_reported[j]);
                            }
                        }
                        assert forall|j: int, x: int| 0 <= j < reported@.len() && i + 1 <= x < s0.len() implies #[trigger] reported@[
                            j].0@ != #[trigger] s0[x].0 by {
                            if j < old_reported.len() {
                                assert(reported@[j] == old_reported[j]);
                            } else {
                                assert(s0[i as int].0 != s0[x].0);
                            }
                        }
                        assert forall|x: int| 0 <= x < i + 1 && newly_changed(s0[x].1, registered(reg, s0[x].0)) implies keys.contains(
                            #[trigger] s0[x].0,
                        ) by {
                            if x < i {
                                let j = choose|j: int| 0 <= j < old_keys.len() && old_keys[j] == s0[x].0;
                                assert(keys[j] == old_keys[j]);
                            } else {
                                assert(keys[old_keys.len() as int] == s0[x].0);
                            }
                        }
                        assert forall|a: int, b: int| 0 <= a < b < reported@.len() implies #[trigger] reported@[a].0@
                            != #[trigger] reported@[b].0@ by {
                            if b < old_reported.len() {
                                assert(reported@[a] == old_reported[a]);
                                assert(reported@[b] == old_reported[b]);
                            } else {
                                assert(reported@[a] == old_reported[a]);
                                assert(old_reported[a].0@ != s0[i as int].0);
                            }
                        }
                    }
                }
                let ghost before = self.owners@;
                self.set_flags(i, false, true, true);
                proof {
                    assert forall|j: int| 0 <= j < self.owners@.len() implies #[trigger] owner_entry(self.owners@[j]) == if j
                        < i + 1 {
                        (s0[j].0, revised(s0[j].1, registered(reg, s0[j].0)))
                    } else {
                        s0[j]
                    } by {
                        if j != i {
                            assert(self.owners@[j] == before[j]);
                            assert(owner_entry(before[j]) == if j < i {
                                (s0[j].0, revised(s0[j].1, registered(reg, s0[j].0)))
                            } else {
                                s0[j]
                            });
                        }
                    }
                }
            }
            proof {
                assert forall|j: int, x: int| 0 <= j < reported@.len() && i + 1 <= x < s0.len() implies #[trigger] reported@[
                    j].0@ != #[trigger] s0[x].0 by {}
            }
            i = i + 1;
        }
        proof {
            let s1 = owner_entries(self.owners@);
            assert forall|x: int| 0 <= x < s1.len() implies #[trigger] s1[x] == (s0[x].0, revised(
                s0[x].1,
                registered(reg, s0[x].0),
            )) by {
                assert(s1[x] == owner_entry(self.owners@[x]));
            }
            lemma_after_change_keyed(s0, s1, reg);
            assert forall|k: Seq<char>|
                m0.dom().contains(k) && #[trigger] newly_changed(m0[k], registered(reg, k)) implies exists|j: int|
                0 <= j < reported@.len() && #[trigger] reported@[j].0@ == k by {
                lemma_keyed_dom(s0, k);
                let x = choose|x: int| 0 <= x < s0.len() && #[trigger] s0[x].0 == k;
                lemma_keyed_at(s0, x);
                assert(keys.contains(s0[x].0));
                let j = choose|j: int| 0 <= j < keys.len() && keys[j] == s0[x].0;
                assert(reported@[j].0@ == keys[j]);
            }
        }
        reported
    }
}

/// A remembered authorisation once the broker stops.
pub open spec fn stopped_owner(st: OwnerState) -> OwnerState {
    if st.held {
        OwnerState { live: false, ..st }
    } else {
        st
    }
}

/// A changed authorisation whose change was not reported yet.
pub open spec fn newly_changed(st: OwnerState, now: Option<RegistrationView>) -> bool {
    changed_owner(st, now) && !st.change_reported
}

/// What a registry change does to one remembered authorisation.
pub open spec fn revised(st: OwnerState, now: Option<RegistrationView>) -> OwnerState {
    if changed_owner(st, now) {
        OwnerState { live: false, change_reported: true, ..st }
    } else {
        st
    }
}

proof fn lemma_after_change_keyed(
    s0: Seq<(Seq<char>, OwnerState)>,
    s1: Seq<(Seq<char>, OwnerState)>,
    reg: Seq<(Seq<char>, RegistrationView)>,
)
    requires
        distinct_keys(s0),
        s1.len() == s0.len(),
        forall|x: int| 0 <= x < s1.len() ==> #[trigger] s1[x] == (s0[x].0, revised(s0[x].1, registered(reg, s0[x].0))),
    ensures
        keyed(s1) == after_change(keyed(s0), reg),
{
    assert(distinct_keys(s1)) by {
        assert forall|a: int, b: int| 0 <= a < b < s1.len() implies #[trigger] s1[a].0 != #[trigger] s1[b].0 by {
            assert(s1[a].0 == s0[a].0);
            assert(s1[b].0 == s0[b].0);
        }
    }
    assert forall|k: Seq<char>| #[trigger] keyed(s1).dom().contains(k) == keyed(s0).dom().contains(k) by {
        lemma_keyed_dom(s1, k);
        lemma_keyed_dom(s0, k);
        if exists|x: int| 0 <= x < s1.len() && #[trigger] s1[x].0 == k {
            let x = choose|x: int| 0 <= x < s1.len() && #[trigger] s1[x].0 == k;
            assert(s0[x].0 == k);
        }
        if exists|x: int| 0 <= x < s0.len() && #[trigger] s0[x].0 == k {
            let x = choose|x: int| 0 <= x < s0.len() && #[trigger] s0[x].0 == k;
            assert(s1[x].0 == k);
        }
    }
    assert forall|k: Seq<char>| #[trigger] keyed(s1).dom().contains(k) implies keyed(s1)[k] == after_change(keyed(s0), reg)[k] by {
        lemma_keyed_dom(s1, k);
        let x = choose|x: int| 0 <= x < s1.len() && #[trigger] s1[x].0 == k;
        lemma_keyed_at(s1, x);
        lemma_keyed_at(s0, x);
    }
    assert(keyed(s1) =~= after_change(keyed(s0), reg));
}

/// The index of the first registry entry for the plugin.
pub fn lookup_registration(registry: &Vec<(String, LocalPluginRegistration)>, plugin_id: &str) -> (r: Option<usize>)
    ensures
        match r {
            Some(i) => i < registry@.len() && registered(registry_entries(registry@), plugin_id@) == Some(
                registry@[i as int].1@,
            ),
            None => registered(registry_entries(registry@), plugin_id@) is None,
        },
{
    let ghost s = registry_entries(registry@);
    let mut i: usize = 0;
    proof {
        assert(s.skip(0) =~= s);
    }
    while i < registry.len()
        invariant
            i <= registry@.len(),
            s == registry_entries(registry@),
            registered(s, plugin_id@) == registered(s.skip(i as int), plugin_id@),
        decreases registry@.len() - i,
    {
        proof {
            assert(s.skip(i as int)[0] == s[i as int]);
            assert(s.skip(i as int).skip(1) =~= s.skip(i + 1));
        }
        if str_equal(registry[i].0.as_str(), plugin_id) {
            return Some(i);
        }
        i = i + 1;
    }
    None
}

/// An owner generation is never reused: once a generation is recorded for
/// a plugin, recording it or any older one again is refused, and a newer one
/// replaces it.
pub proof fn law_owner_generations_only_grow(
    m: Map<Seq<char>, OwnerState>,
    plugin_id: Seq<char>,
    generation: u64,
    later: u64,
    registration: RegistrationView,
)
    requires
        spec_authorize(m, plugin_id, generation, registration) is Ok,
    ensures
        ({
            let m1 = spec_authorize(m, plugin_id, generation, registration)->Ok_0;
            &&& m1[plugin_id].generation == generation
            &&& m1[plugin_id].live
            &&& (later <= generation ==> spec_authorize(m1, plugin_id, later, registration) == Err::<
                Map<Seq<char>, OwnerState>,
                OwnerRefusal,
            >(OwnerRefusal::StaleGeneration))
            &&& (later > generation ==> (spec_authorize(m1, plugin_id, later, registration) matches Ok(m2)
                && m2[plugin_id].generation == later))
        }),
{
}

/// Recording an authorisation never grows the history past 4096 identities,
/// and a newer generation of a known plugin leaves the history's size as it
/// was.
pub proof fn law_identity_history_is_bounded(
    m: Map<Seq<char>, OwnerState>,
    plugin_id: Seq<char>,
    generation: u64,
    registration: RegistrationView,
)
    requires
        m.dom().finite(),
        m.dom().len() <= MAX_AUTHORIZATION_IDENTITIES,
        spec_authorize(m, plugin_id, generation, registration) is Ok,
    ensures
        ({
            let m1 = spec_authorize(m, plugin_id, generation, registration)->Ok_0;
            &&& m1.dom().finite()
            &&& m1.dom().len() <= MAX_AUTHORIZATION_IDENTITIES
            &&& (m.dom().contains(plugin_id) ==> m1.dom().len() == m.dom().len())
        }),
{
    if m.dom().contains(plugin_id) {
        assert(m.insert(plugin_id, fresh_owner(generation, registration)).dom() =~= m.dom());
    }
}

/// A changed registration is reported once: after a registry change, the
/// same registry reports nothing more, and every changed authorisation is
/// no longer live.
pub proof fn law_changes_are_reported_once(m: Map<Seq<char>, OwnerState>, registry: Seq<(Seq<char>, RegistrationView)>)
    ensures
        ({
            let m1 = after_change(m, registry);
            &&& forall|k: Seq<char>|
                #![trigger m1[k]]
                m1.dom().contains(k) && changed_owner(m1[k], registered(registry, k)) ==> m1[k].change_reported
                    && !m1[k].live
            &&& after_change(m1, registry) == m1
        }),
{
    let m1 = after_change(m, registry);
    assert(after_change(m1, registry) =~= m1);
}

/// Refuses an endpoint's result whose serialised JSON exceeds the broker's
/// byte limit.
pub fn check_result_bytes(bytes: usize) -> (r: Result<(), OsBrokerError>)
    ensures
        r is Ok <==> bytes <= crate::os_broker::MAX_OS_BYTES,
        r matches Err(e) ==> e.code@ == "response_too_large"@ && e.message@
            == "OS result exceeds its serialized JSON limit"@,
{
    if bytes > crate::os_broker::MAX_OS_BYTES {
        return Err(OsBrokerError::new("response_too_large", "OS result exceeds its serialized JSON limit"));
    }
    Ok(())
}

} // verus!
