//! The request bookkeeping and deadlines of one Host process: which requests
//! Core may still send, which child requests and responses are accepted,
//! when a Host has timed out, and how shutdown begins. The supervisor's
//! threads, pipes and process handle carry out what these decisions say;
//! times are the owner's monotonic milliseconds.
use vstd::prelude::*;

use crate::plugin_host::protocol::{spec_valid_method, validate_method, MAX_HOST_PENDING_REQUESTS, MAX_SAFE_INTEGER};
use crate::plugin_host::supervisor::{HostError, HostState};

verus! {

/// How long initialization may take, in milliseconds.
pub const STARTUP_TIMEOUT_MS: u64 = 5000;

/// The longest budget of one request, in milliseconds.
pub const REQUEST_TIMEOUT_MS: u64 = 15000;

/// How long a refusal sent while stopping may wait to be written, in milliseconds.
pub const STOP_TIMEOUT_MS: u64 = 2000;

/// How long a stopping Host may take to exit on its own, in milliseconds.
pub const STOP_GRACE_MS: u64 = 1500;

/// `a + b`, or the largest `u64` when that overflows.
pub open spec fn sat_add(a: u64, b: u64) -> u64 {
    if a + b <= u64::MAX {
        (a + b) as u64
    } else {
        u64::MAX
    }
}

/// The pending requests without the one with ID `id`.
pub open spec fn without(s: Seq<(u64, u64)>, id: u64) -> Seq<(u64, u64)>
    decreases s.len(),
{
    if s.len() == 0 {
        s
    } else {
        let r = without(s.drop_last(), id);
        if s.last().0 == id {
            r
        } else {
            r.push(s.last())
        }
    }
}

/// The deadline of the pending request with ID `id`.
pub open spec fn deadline_of(s: Seq<(u64, u64)>, id: u64) -> Option<u64>
    decreases s.len(),
{
    if s.len() == 0 {
        None
    } else if s.last().0 == id {
        Some(s.last().1)
    } else {
        deadline_of(s.drop_last(), id)
    }
}

/// The IDs of the pending requests whose deadline has passed at `now`, oldest first.
pub open spec fn overdue(s: Seq<(u64, u64)>, now: u64) -> Seq<u64>
    decreases s.len(),
{
    if s.len() == 0 {
        Seq::empty()
    } else {
        let r = overdue(s.drop_last(), now);
        if now >= s.last().1 {
            r.push(s.last().0)
        } else {
            r
        }
    }
}

/// The pending requests whose deadline has not passed at `now`.
pub open spec fn unexpired(s: Seq<(u64, u64)>, now: u64) -> Seq<(u64, u64)>
    decreases s.len(),
{
    if s.len() == 0 {
        s
    } else {
        let r = unexpired(s.drop_last(), now);
        if now >= s.last().1 {
            r
        } else {
            r.push(s.last())
        }
    }
}

/// IDs strictly increase along the list and none exceeds `bound`.
pub open spec fn ascending_below(s: Seq<(u64, u64)>, bound: u64) -> bool {
    &&& forall|i: int, j: int| 0 <= i < j < s.len() ==> #[trigger] s[i].0 < #[trigger] s[j].0
    &&& forall|i: int| 0 <= i < s.len() ==> #[trigger] s[i].0 <= bound
}

/// What the ledger knows of one Host.
pub struct LedgerView {
    pub state: HostState,
    pub startup_deadline: u64,
    pub stop_grace_until: Option<u64>,
    pub allow_shutdown_requests: bool,
    pub exited: bool,
    pub outgoing: Seq<(u64, u64)>,
    pub incoming: Seq<(u64, u64)>,
    pub last_issued_id: u64,
    pub last_received_id: u64,
    pub failure: Option<(Seq<char>, Seq<char>)>,
    pub forced: bool,
    pub shutdown_sent: bool,
    pub shutdown_request_id: Option<u64>,
    pub failure_reported: bool,
    pub exit_reported: bool,
}

/// Request bookkeeping and deadlines of one Host.
#[derive(Debug)]
pub struct HostLedger {
    state: HostState,
    startup_deadline: u64,
    stop_grace_until: Option<u64>,
    allow_shutdown_requests: bool,
    exited: bool,
    outgoing: Vec<(u64, u64)>,
    incoming: Vec<(u64, u64)>,
    last_issued_id: u64,
    last_received_id: u64,
    failure: Option<HostError>,
    forced: bool,
    shutdown_sent: bool,
    shutdown_request_id: Option<u64>,
    failure_reported: bool,
    exit_reported: bool,
}

impl View for HostLedger {
    type V = LedgerView;

    closed spec fn view(&self) -> LedgerView {
        LedgerView {
            state: self.state,
            startup_deadline: self.startup_deadline,
            stop_grace_until: self.stop_grace_until,
            allow_shutdown_requests: self.allow_shutdown_requests,
            exited: self.exited,
            outgoing: self.outgoing@,
            incoming: self.incoming@,
            last_issued_id: self.last_issued_id,
            last_received_id: self.last_received_id,
            failure: match self.failure {
                Some(e) => Some((e.code@, e.message@)),
                None => None,
            },
            forced: self.forced,
            shutdown_sent: self.shutdown_sent,
            shutdown_request_id: self.shutdown_request_id,
            failure_reported: self.failure_reported,
            exit_reported: self.exit_reported,
        }
    }
}

/// The ledger keeps its bookkeeping consistent: pending IDs ascend and were
/// issued or received, and the Host never holds more than the pending limit.
pub open spec fn ledger_wf(v: LedgerView) -> bool {
    &&& ascending_below(v.outgoing, v.last_issued_id)
    &&& ascending_below(v.incoming, v.last_received_id)
    &&& v.incoming.len() <= MAX_HOST_PENDING_REQUESTS
    &&& v.last_issued_id <= MAX_SAFE_INTEGER
}

/// A Host that accepts requests.
pub open spec fn admitting(v: LedgerView) -> bool {
    v.state == HostState::Starting || v.state == HostState::Ready
}

/// A stopping Host still within the shutdown budget its owner opted into.
pub open spec fn in_cleanup(v: LedgerView, now: u64) -> bool {
    v.state == HostState::Stopping && v.allow_shutdown_requests && (v.stop_grace_until matches Some(t) && now < t)
}

/// The ledger after a failure: the first failure is kept, the Host is failed
/// and forced, and nothing stays pending.
pub open spec fn failed(v: LedgerView, code: Seq<char>, message: Seq<char>) -> LedgerView {
    LedgerView {
        failure: if v.failure is None {
            Some((code, message))
        } else {
            v.failure
        },
        state: HostState::Failed,
        outgoing: Seq::empty(),
        incoming: Seq::empty(),
        forced: true,
        ..v
    }
}

/// What becomes of a request the Host sent.
#[derive(Debug, Clone, Copy, PartialEq, Eq, Structural)]
pub enum IncomingDecision {
    /// The process has exited; the request is dropped.
    Ignore,
    /// Answer `host_stopping`: Core is stopping this Host.
    RefuseStopping,
    /// Answer `request_timeout`: the request expired before dispatch.
    RefuseExpired,
    /// Hand the request to the owner, to be answered by the deadline.
    Deliver { deadline: u64 },
}

/// What becomes of a response the Host sent.
#[derive(Debug, Clone, Copy, PartialEq, Eq, Structural)]
pub enum ResponseDecision {
    /// No request with that ID is pending any more; the response is dropped.
    Stale,
    /// The request's deadline passed before its response arrived.
    TimedOut,
    /// Hand the response to the owner.
    Deliver,
}

/// The ledger and decision after the Host sent request `id` with an
/// optional timeout, received at `received_at` and looked at `now`; `Err`
/// is a protocol violation.
pub open spec fn spec_accept_request(
    v: LedgerView,
    id: u64,
    timeout_ms: Option<u64>,
    received_at: u64,
    now: u64,
) -> Result<(LedgerView, IncomingDecision), Seq<char>> {
    if v.exited {
        Ok((v, IncomingDecision::Ignore))
    } else if id <= v.last_received_id {
        Err("Host request ids must increase and cannot be repeated"@)
    } else if v.incoming.len() >= MAX_HOST_PENDING_REQUESTS {
        Err("Host exceeded its pending request limit"@)
    } else {
        let w = LedgerView { last_received_id: id, ..v };
        if v.state == HostState::Stopping && !in_cleanup(v, now) {
            Ok((w, IncomingDecision::RefuseStopping))
        } else {
            let requested = sat_add(
                received_at,
                match timeout_ms {
                    Some(t) => t,
                    None => REQUEST_TIMEOUT_MS,
                },
            );
            if now >= requested {
                Ok((w, IncomingDecision::RefuseExpired))
            } else {
                let deadline = if v.state == HostState::Stopping {
                    let g = v.stop_grace_until->0;
                    if requested < g {
                        requested
                    } else {
                        g
                    }
                } else {
                    requested
                };
                Ok((LedgerView { incoming: w.incoming.push((id, deadline)), ..w }, IncomingDecision::Deliver { deadline }))
            }
        }
    }
}

/// The ledger and decision after the Host answered request `id` at `now`;
/// `Err` is a protocol violation.
pub open spec fn spec_accept_response(v: LedgerView, id: u64, now: u64) -> Result<(LedgerView, ResponseDecision), Seq<char>> {
    if id > v.last_issued_id {
        Err("Host answered a request id that Core never issued"@)
    } else {
        match deadline_of(v.outgoing, id) {
            None => Ok((v, ResponseDecision::Stale)),
            Some(d) => Ok(
                (
                    LedgerView { outgoing: without(v.outgoing, id), ..v },
                    if now >= d {
                        ResponseDecision::TimedOut
                    } else {
                        ResponseDecision::Deliver
                    },
                ),
            ),
        }
    }
}

/// The failure, if any, the deadlines at `now` declare: initialization that
/// overran, a frame left incomplete for a whole request budget, or a write
/// the Host did not consume in time. The first applies.
pub open spec fn deadline_failure(v: LedgerView, now: u64, partial_since: Option<u64>, write_deadline: Option<u64>) -> Option<
    (Seq<char>, Seq<char>),
> {
    if v.state == HostState::Starting && now >= v.startup_deadline {
        Some(("startup_timeout"@, "Host initialization did not finish within 5 seconds"@))
    } else if partial_since matches Some(s) && now >= s && now - s >= REQUEST_TIMEOUT_MS {
        Some(("frame_timeout"@, "Host left an incomplete stdout frame beyond its absolute deadline"@))
    } else if write_deadline matches Some(w) && now >= w {
        Some(("write_timeout"@, "Host did not consume its stdin frame before the deadline"@))
    } else {
        None
    }
}

/// The ledger after the deadlines at `now` are enforced, with the IDs of
/// Core's requests that timed out and of the Host's requests Core must now
/// answer with `request_timeout`. Deadlines are enforced only while the Host
/// admits requests or is in its opted-in cleanup.
pub open spec fn spec_expire(
    v: LedgerView,
    now: u64,
    partial_since: Option<u64>,
    write_deadline: Option<u64>,
) -> (LedgerView, Seq<u64>, Seq<u64>) {
    if !(admitting(v) || in_cleanup(v, now)) {
        (v, Seq::empty(), Seq::empty())
    } else {
        let first = if v.state == HostState::Starting && now >= v.startup_deadline {
            failed(v, "startup_timeout"@, "Host initialization did not finish within 5 seconds"@)
        } else {
            v
        };
        let second = if partial_since matches Some(s) && now >= s && now - s >= REQUEST_TIMEOUT_MS {
            failed(first, "frame_timeout"@, "Host left an incomplete stdout frame beyond its absolute deadline"@)
        } else {
            first
        };
        let third = if write_deadline matches Some(w) && now >= w {
            failed(second, "write_timeout"@, "Host did not consume its stdin frame before the deadline"@)
        } else {
            second
        };
        (
            LedgerView { outgoing: unexpired(third.outgoing, now), incoming: unexpired(third.incoming, now), ..third },
            overdue(third.outgoing, now),
            overdue(third.incoming, now),
        )
    }
}

proof fn lemma_without(s: Seq<(u64, u64)>, id: u64, bound: u64)
    requires
        ascending_below(s, bound),
    ensures
        ascending_below(without(s, id), bound),
        without(s, id).len() <= s.len(),
        forall|i: int| 0 <= i < without(s, id).len() ==> #[trigger] without(s, id)[i].0 != id,
        forall|i: int| 0 <= i < without(s, id).len() ==> s.contains(#[trigger] without(s, id)[i]),
    decreases s.len(),
{
    if s.len() > 0 {
        lemma_without(s.drop_last(), id, bound);
        let r = without(s.drop_last(), id);
        assert forall|i: int| 0 <= i < r.len() implies #[trigger] r[i].0 < s.last().0 by {
            assert(s.drop_last().contains(r[i]));
            let k = choose|k: int| 0 <= k < s.drop_last().len() && s.drop_last()[k] == r[i];
            assert(s[k] == r[i]);
        }
        assert forall|i: int| 0 <= i < r.len() implies s.contains(#[trigger] r[i]) by {
            assert(s.drop_last().contains(r[i]));
            let k = choose|k: int| 0 <= k < s.drop_last().len() && s.drop_last()[k] == r[i];
            assert(s[k] == r[i]);
        }
        if s.last().0 != id {
            assert(s.contains(s.last()));
        }
    }
}

proof fn lemma_unexpired(s: Seq<(u64, u64)>, now: u64, bound: u64)
    requires
        ascending_below(s, bound),
    ensures
        ascending_below(unexpired(s, now), bound),
        unexpired(s, now).len() <= s.len(),
        forall|i: int| 0 <= i < unexpired(s, now).len() ==> now < #[trigger] unexpired(s, now)[i].1,
        forall|i: int| 0 <= i < unexpired(s, now).len() ==> s.contains(#[trigger] unexpired(s, now)[i]),
    decreases s.len(),
{
    if s.len() > 0 {
        lemma_unexpired(s.drop_last(), now, bound);
        let r = unexpired(s.drop_last(), now);
        assert forall|i: int| 0 <= i < r.len() implies #[trigger] r[i].0 < s.last().0 by {
            let k = choose|k: int| 0 <= k < s.drop_last().len() && s.drop_last()[k] == r[i];
            assert(s[k] == r[i]);
        }
        assert forall|i: int| 0 <= i < r.len() implies s.contains(#[trigger] r[i]) by {
            let k = choose|k: int| 0 <= k < s.drop_last().len() && s.drop_last()[k] == r[i];
            assert(s[k] == r[i]);
        }
        assert(s.contains(s.last()));
    }
}

fn remove_id(v: &Vec<(u64, u64)>, id: u64) -> (r: Vec<(u64, u64)>)
    ensures
        r@ == without(v@, id),
{
    let mut out: Vec<(u64, u64)> = Vec::new();
    let mut i: usize = 0;
    while i < v.len()
        invariant
            i <= v@.len(),
            out@ == without(v@.take(i as int), id),
        decreases v@.len() - i,
    {
        proof {
            assert(v@.take(i + 1).drop_last() =~= v@.take(i as int));
            assert(v@.take(i + 1).last() == v@[i as int]);
        }
        if v[i].0 != id {
            out.push(v[i]);
        }
        i = i + 1;
    }
    proof {
        assert(v@.take(v@.len() as int) =~= v@);
    }
    out
}

fn find_deadline(v: &Vec<(u64, u64)>, id: u64) -> (r: Option<u64>)
    ensures
        r == deadline_of(v@, id),
{
    let mut i: usize = v.len();
    proof {
        assert(v@.take(i as int) =~= v@);
    }
    while i > 0
        invariant
            i <= v@.len(),
            deadline_of(v@, id) == deadline_of(v@.take(i as int), id),
        decreases i,
    {
        proof {
            assert(v@.take(i as int).drop_last() =~= v@.take(i - 1));
            assert(v@.take(i as int).last() == v@[i - 1]);
        }
        if v[i - 1].0 == id {
            return Some(v[i - 1].1);
        }
        i = i - 1;
    }
    None
}

fn split_overdue(v: &Vec<(u64, u64)>, now: u64) -> (r: (Vec<(u64, u64)>, Vec<u64>))
    ensures
        r.0@ == unexpired(v@, now),
        r.1@ == overdue(v@, now),
{
    let mut kept: Vec<(u64, u64)> = Vec::new();
    let mut due: Vec<u64> = Vec::new();
    let mut i: usize = 0;
    while i < v.len()
        invariant
            i <= v@.len(),
            kept@ == unexpired(v@.take(i as int), now),
            due@ == overdue(v@.take(i as int), now),
        decreases v@.len() - i,
    {
        proof {
            assert(v@.take(i + 1).drop_last() =~= v@.take(i as int));
            assert(v@.take(i + 1).last() == v@[i as int]);
        }
        if now >= v[i].1 {
            due.push(v[i].0);
        } else {
            kept.push(v[i]);
        }
        i = i + 1;
    }
    proof {
        assert(v@.take(v@.len() as int) =~= v@);
    }
    (kept, due)
}

impl HostLedger {
    #[verifier::type_invariant]
    spec fn inv(self) -> bool {
        ledger_wf(self@)
    }

    /// The ledger of a Host started at `now`.
    pub fn new(now: u64) -> (r: Self)
        ensures
            r@ == (LedgerView {
                state: HostState::Starting,
                startup_deadline: sat_add(now, STARTUP_TIMEOUT_MS),
                stop_grace_until: None,
                allow_shutdown_requests: false,
                exited: false,
                outgoing: Seq::empty(),
                incoming: Seq::empty(),
                last_issued_id: 0,
                last_received_id: 0,
                failure: None,
                forced: false,
                shutdown_sent: false,
                shutdown_request_id: None,
                failure_reported: false,
                exit_reported: false,
            }),
    {
        HostLedger {
            state: HostState::Starting,
            startup_deadline: now.saturating_add(STARTUP_TIMEOUT_MS),
            stop_grace_until: None,
            allow_shutdown_requests: false,
            exited: false,
            outgoing: Vec::new(),
            incoming: Vec::new(),
            last_issued_id: 0,
            last_received_id: 0,
            failure: None,
            forced: false,
            shutdown_sent: false,
            shutdown_request_id: None,
            failure_reported: false,
            exit_reported: false,
        }
    }

    /// The Host's state.
    pub fn state(&self) -> (r: HostState)
        ensures
            r == self@.state,
    {
        self.state
    }

    /// The deadline by which Core must answer the Host's request `id`; reading
    /// it never renews the budget.
    pub fn incoming_deadline(&self, id: u64) -> (r: Option<u64>)
        ensures
            r == deadline_of(self@.incoming, id),
    {
        find_deadline(&self.incoming, id)
    }

    /// Refuses work once the Host no longer accepts requests.
    pub fn admission(&self) -> (r: Result<(), HostError>)
        ensures
            r is Ok <==> admitting(self@),
            r matches Err(e) ==> e.code@ == "host_unavailable"@ && e.message@ == "this Host no longer accepts requests"@,
    {
        match self.state {
            HostState::Starting | HostState::Ready => Ok(()),
            _ => Err(HostError::new("host_unavailable", "this Host no longer accepts requests")),
        }
    }

    /// Marks an initializing Host ready, within its startup deadline.
    pub fn mark_ready(&mut self, now: u64) -> (r: Result<(), HostError>)
        ensures
            (old(self)@.state == HostState::Starting && now < old(self)@.startup_deadline) ==> (r is Ok && final(self)@
                == (LedgerView { state: HostState::Ready, ..old(self)@ })),
            !(old(self)@.state == HostState::Starting && now < old(self)@.startup_deadline) ==> (r matches Err(e)
                && e.code@ == "host_not_starting"@ && final(self)@ == old(self)@),
    {
        proof {
            use_type_invariant(&*self);
        }
        if self.state != HostState::Starting || now >= self.startup_deadline {
            return Err(HostError::new("host_not_starting", "only a live initializing Host may become ready"));
        }
        self.state = HostState::Ready;
        Ok(())
    }

    /// The ID the next request from Core would use, or why Core may not send
    /// it now: the Host must admit requests, the method must be valid, fewer
    /// than the limit may be pending, the deadline must lie in the next
    /// request budget, the caller must not have cancelled, and IDs must
    /// remain exact JSON integers.
    pub fn next_request(&self, method: &str, now: u64, expires_at: u64, cancelled: bool) -> (r: Result<u64, HostError>)
        ensures
            ({
                let v = self@;
                if !admitting(v) {
                    r matches Err(e) && e.code@ == "host_unavailable"@
                } else if !spec_valid_method(method@) {
                    r matches Err(e) && e.code@ == "invalid_method"@
                } else if v.outgoing.len() >= MAX_HOST_PENDING_REQUESTS {
                    r matches Err(e) && e.code@ == "request_limit"@
                } else if expires_at <= now || expires_at - now > REQUEST_TIMEOUT_MS {
                    r matches Err(e) && e.code@ == "request_expired"@
                } else if cancelled {
                    r matches Err(e) && e.code@ == "invocation_cancelled"@
                } else if v.last_issued_id >= MAX_SAFE_INTEGER {
                    r matches Err(e) && e.code@ == "request_ids_exhausted"@
                } else {
                    r == Ok::<u64, HostError>((v.last_issued_id + 1) as u64)
                }
            }),
    {
        self.admission()?;
        if let Err(message) = validate_method(method) {
            return Err(HostError::new("invalid_method", message.as_str()));
        }
        if self.outgoing.len() >= MAX_HOST_PENDING_REQUESTS {
            return Err(HostError::new("request_limit", "this Host has too many pending requests"));
        }
        if expires_at <= now || expires_at - now > REQUEST_TIMEOUT_MS {
            return Err(HostError::new("request_expired", "the original Host request budget is unavailable"));
        }
        if cancelled {
            return Err(HostError::new("invocation_cancelled", "the Host request was cancelled before dispatch"));
        }
        if self.last_issued_id >= MAX_SAFE_INTEGER {
            return Err(HostError::new("request_ids_exhausted", "this Host exhausted request ids"));
        }
        Ok(self.last_issued_id + 1)
    }

    /// Records that request `id`, the one `next_request` named, was queued
    /// with its deadline.
    pub fn issued(&mut self, id: u64, expires_at: u64)
        requires
            id == old(self)@.last_issued_id + 1,
            id <= MAX_SAFE_INTEGER,
        ensures
            final(self)@ == (LedgerView {
                last_issued_id: id,
                outgoing: old(self)@.outgoing.push((id, expires_at)),
                ..old(self)@
            }),
    {
        proof {
            use_type_invariant(&*self);
        }
        let mut outgoing = Vec::new();
        std::mem::swap(&mut outgoing, &mut self.outgoing);
        outgoing.push((id, expires_at));
        self.last_issued_id = id;
        self.outgoing = outgoing;
    }

    /// Forgets Core's request `id`, as when its caller gave up on it.
    pub fn cancel_request(&mut self, id: u64)
        ensures
            final(self)@ == (LedgerView { outgoing: without(old(self)@.outgoing, id), ..old(self)@ }),
    {
        proof {
            use_type_invariant(&*self);
            lemma_without(self.outgoing@, id, self.last_issued_id);
        }
        let outgoing = remove_id(&self.outgoing, id);
        self.outgoing = outgoing;
    }

    /// Forgets the Host's request `id`, which Core will not answer.
    pub fn abandon_incoming(&mut self, id: u64)
        ensures
            final(self)@ == (LedgerView { incoming: without(old(self)@.incoming, id), ..old(self)@ }),
    {
        proof {
            use_type_invariant(&*self);
            lemma_without(self.incoming@, id, self.last_received_id);
        }
        let incoming = remove_id(&self.incoming, id);
        self.incoming = incoming;
    }

    /// Records a failure: only the first is kept; the Host is failed and
    /// forced, and nothing stays pending.
    pub fn fail(&mut self, error: HostError)
        ensures
            final(self)@ == failed(old(self)@, error.code@, error.message@),
    {
        proof {
            use_type_invariant(&*self);
        }
        if self.failure.is_none() {
            self.failure = Some(error);
        }
        self.state = HostState::Failed;
        self.outgoing = Vec::new();
        self.incoming = Vec::new();
        self.forced = true;
    }

    /// The recorded failure, if any.
    pub fn failure(&self) -> (r: Option<&HostError>)
        ensures
            match r {
                Some(e) => self@.failure == Some((e.code@, e.message@)),
                None => self@.failure is None,
            },
    {
        self.failure.as_ref()
    }

    /// Whether Core had to force the Host down.
    pub fn forced(&self) -> (r: bool)
        ensures
            r == self@.forced,
    {
        self.forced
    }

    /// Records that the process exited; a Host that had not failed has exited.
    pub fn process_exited(&mut self)
        ensures
            final(self)@ == (LedgerView {
                exited: true,
                incoming: Seq::empty(),
                state: if old(self)@.state == HostState::Failed {
                    HostState::Failed
                } else {
                    HostState::Exited
                },
                ..old(self)@
            }),
    {
        proof {
            use_type_invariant(&*self);
        }
        self.exited = true;
        self.incoming = Vec::new();
        if self.state != HostState::Failed {
            self.state = HostState::Exited;
        }
    }

    /// Takes in a request the Host sent: request `id` with its optional
    /// timeout, received at `received_at` and looked at `now`.
    pub fn accept_request(&mut self, id: u64, timeout_ms: Option<u64>, received_at: u64, now: u64) -> (r: Result<
        IncomingDecision,
        String,
    >)
        ensures
            match spec_accept_request(old(self)@, id, timeout_ms, received_at, now) {
                Ok((w, d)) => r == Ok::<IncomingDecision, String>(d) && final(self)@ == w,
                Err(m) => r matches Err(e) && e@ == m && final(self)@ == old(self)@,
            },
    {
        proof {
            use_type_invariant(&*self);
        }
        if self.exited {
            return Ok(IncomingDecision::Ignore);
        }
        if id <= self.last_received_id {
            return Err("Host request ids must increase and cannot be repeated".to_string());
        }
        if self.incoming.len() >= MAX_HOST_PENDING_REQUESTS {
            return Err("Host exceeded its pending request limit".to_string());
        }
        let cleanup = self.state == HostState::Stopping && self.allow_shutdown_requests && match self.stop_grace_until {
            Some(t) => now < t,
            None => false,
        };
        self.last_received_id = id;
        if self.state == HostState::Stopping && !cleanup {
            return Ok(IncomingDecision::RefuseStopping);
        }
        let requested = received_at.saturating_add(
            match timeout_ms {
                Some(t) => t,
                None => REQUEST_TIMEOUT_MS,
            },
        );
        if now >= requested {
            return Ok(IncomingDecision::RefuseExpired);
        }
        let deadline = if self.state == HostState::Stopping {
            let g = match self.stop_grace_until {
                Some(t) => t,
                None => requested,
            };
            if requested < g {
                requested
            } else {
                g
            }
        } else {
            requested
        };
        let mut incoming = Vec::new();
        std::mem::swap(&mut incoming, &mut self.incoming);
        incoming.push((id, deadline));
        self.incoming = incoming;
        Ok(IncomingDecision::Deliver { deadline })
    }

    /// Takes in the Host's response to Core's request `id` at `now`.
    pub fn accept_response(&mut self, id: u64, now: u64) -> (r: Result<ResponseDecision, String>)
        ensures
            match spec_accept_response(old(self)@, id, now) {
                Ok((w, d)) => r == Ok::<ResponseDecision, String>(d) && final(self)@ == w,
                Err(m) => r matches Err(e) && e@ == m && final(self)@ == old(self)@,
            },
    {
        proof {
            use_type_invariant(&*self);
        }
        if id > self.last_issued_id {
            return Err("Host answered a request id that Core never issued".to_string());
        }
        match find_deadline(&self.outgoing, id) {
            None => Ok(ResponseDecision::Stale),
            Some(d) => {
                proof {
                    lemma_without(self.outgoing@, id, self.last_issued_id);
                }
                let outgoing = remove_id(&self.outgoing, id);
                self.outgoing = outgoing;
                if now >= d {
                    Ok(ResponseDecision::TimedOut)
                } else {
                    Ok(ResponseDecision::Deliver)
                }
            },
        }
    }

    /// Whether a notification from the Host is handed to the owner: not while
    /// the Host is stopping.
    pub fn accepts_notification(&self) -> (r: bool)
        ensures
            r == (self@.state != HostState::Stopping),
    {
        self.state != HostState::Stopping
    }

    /// The deadline of Core's answer to the Host's request `id` at `now`, or
    /// why it may not be sent: outside the opted-in cleanup the Host must
    /// admit requests, the request must be pending, and its deadline must not
    /// have passed (an expired request is forgotten).
    pub fn answer_deadline(&mut self, id: u64, now: u64) -> (r: Result<u64, HostError>)
        ensures
            ({
                let v = old(self)@;
                if !in_cleanup(v, now) && !admitting(v) {
                    r matches Err(e) && e.code@ == "host_unavailable"@ && final(self)@ == v
                } else {
                    match deadline_of(v.incoming, id) {
                        None => r matches Err(e) && e.code@ == "unknown_request"@ && final(self)@ == v,
                        Some(d) => if now >= d {
                            r matches Err(e) && e.code@ == "request_expired"@ && final(self)@ == (LedgerView {
                                incoming: without(v.incoming, id),
                                ..v
                            })
                        } else {
                            r == Ok::<u64, HostError>(d) && final(self)@ == v
                        },
                    }
                }
            }),
    {
        proof {
            use_type_invariant(&*self);
        }
        let cleanup = self.state == HostState::Stopping && self.allow_shutdown_requests && match self.stop_grace_until {
            Some(t) => now < t,
            None => false,
        };
        if !cleanup {
            self.admission()?;
        }
        match find_deadline(&self.incoming, id) {
            None => Err(HostError::new("unknown_request", "the Host request was not received or was already answered")),
            Some(d) => {
                if now >= d {
                    proof {
                        lemma_without(self.incoming@, id, self.last_received_id);
                    }
                    let incoming = remove_id(&self.incoming, id);
                    self.incoming = incoming;
                    return Err(HostError::new("request_expired", "the Host request deadline has expired"));
                }
                Ok(d)
            },
        }
    }

    /// Records that Core's answer to the Host's request `id` was queued.
    pub fn answered(&mut self, id: u64)
        ensures
            final(self)@ == (LedgerView { incoming: without(old(self)@.incoming, id), ..old(self)@ }),
    {
        self.abandon_incoming(id);
    }

    /// Enforces the deadlines at `now`, given since when an incomplete stdout
    /// frame has waited and until when the current stdin write may take. The
    /// result names Core's requests that timed out and the Host's requests to
    /// answer with `request_timeout`, oldest first.
    pub fn expire(&mut self, now: u64, partial_since: Option<u64>, write_deadline: Option<u64>) -> (r: (Vec<u64>, Vec<u64>))
        ensures
            ({
                let (w, timed_out, unanswered) = spec_expire(old(self)@, now, partial_since, write_deadline);
                final(self)@ == w && r.0@ == timed_out && r.1@ == unanswered
            }),
    {
        proof {
            use_type_invariant(&*self);
        }
        let cleanup = self.state == HostState::Stopping && self.allow_shutdown_requests && match self.stop_grace_until {
            Some(t) => now < t,
            None => false,
        };
        let live = self.state == HostState::Starting || self.state == HostState::Ready;
        if !(live || cleanup) {
            return (Vec::new(), Vec::new());
        }
        if self.state == HostState::Starting && now >= self.startup_deadline {
            self.fail(HostError::new("startup_timeout", "Host initialization did not finish within 5 seconds"));
        }
        match partial_since {
            Some(s) => {
                if now >= s && now - s >= REQUEST_TIMEOUT_MS {
                    self.fail(HostError::new(
                        "frame_timeout",
                        "Host left an incomplete stdout frame beyond its absolute deadline",
                    ));
                }
            },
            None => {},
        }
        match write_deadline {
            Some(w) => {
                if now >= w {
                    self.fail(HostError::new("write_timeout", "Host did not consume its stdin frame before the deadline"));
                }
            },
            None => {},
        }
        proof {
            use_type_invariant(&*self);
            lemma_unexpired(self.outgoing@, now, self.last_issued_id);
            lemma_unexpired(self.incoming@, now, self.last_received_id);
        }
        let (outgoing, timed_out) = split_overdue(&self.outgoing, now);
        let (incoming, unanswered) = split_overdue(&self.incoming, now);
        self.outgoing = outgoing;
        self.incoming = incoming;
        (timed_out, unanswered)
    }

    /// Begins a bounded shutdown at `now`, optionally opting into cleanup
    /// requests from the Host during the grace period. Answers the grace
    /// deadline when Core must now send the Host its `shutdown` request; the
    /// owner then sends it with `next_request` and `shutdown_issued`.
    pub fn begin_stop(&mut self, now: u64, with_requests: bool) -> (r: Option<u64>)
        ensures
            ({
                let v = old(self)@;
                let allow = v.allow_shutdown_requests || (with_requests && admitting(v));
                let grace = match v.stop_grace_until {
                    Some(g) => g,
                    None => sat_add(now, STOP_GRACE_MS),
                };
                let live = !v.exited && admitting(v);
                let send = live && !v.shutdown_sent;
                &&& r == if send {
                    Some(grace)
                } else {
                    None::<u64>
                }
                &&& final(self)@ == (LedgerView {
                    allow_shutdown_requests: allow,
                    stop_grace_until: Some(grace),
                    shutdown_sent: v.shutdown_sent || send,
                    incoming: if send {
                        Seq::empty()
                    } else {
                        v.incoming
                    },
                    outgoing: if send {
                        Seq::empty()
                    } else {
                        v.outgoing
                    },
                    state: if live {
                        HostState::Stopping
                    } else {
                        v.state
                    },
                    ..v
                })
            }),
    {
        proof {
            use_type_invariant(&*self);
        }
        let live_before = self.state == HostState::Starting || self.state == HostState::Ready;
        if with_requests && live_before {
            self.allow_shutdown_requests = true;
        }
        let grace = match self.stop_grace_until {
            Some(g) => g,
            None => now.saturating_add(STOP_GRACE_MS),
        };
        self.stop_grace_until = Some(grace);
        let mut send = None;
        if !self.exited && live_before {
            if !self.shutdown_sent {
                self.shutdown_sent = true;
                self.incoming = Vec::new();
                self.outgoing = Vec::new();
                send = Some(grace);
            }
            self.state = HostState::Stopping;
        }
        send
    }

    /// Records that the `shutdown` request `id` was queued; it stays pending
    /// until the grace deadline.
    pub fn shutdown_issued(&mut self, id: u64)
        requires
            id == old(self)@.last_issued_id + 1,
            id <= MAX_SAFE_INTEGER,
            old(self)@.stop_grace_until is Some,
        ensures
            final(self)@ == (LedgerView {
                last_issued_id: id,
                shutdown_request_id: Some(id),
                outgoing: old(self)@.outgoing.push((id, old(self)@.stop_grace_until->0)),
                ..old(self)@
            }),
    {
        let grace = match self.stop_grace_until {
            Some(g) => g,
            None => 0,
        };
        self.issued(id, grace);
        proof {
            use_type_invariant(&*self);
        }
        self.shutdown_request_id = Some(id);
    }

    /// Whether the shutdown grace period ended at `now` before the process
    /// exited; then Core forces the Host down, and the grace period is over.
    pub fn grace_expired(&mut self, now: u64) -> (r: bool)
        ensures
            r == (!old(self)@.exited && (old(self)@.stop_grace_until matches Some(t) && now >= t)),
            r ==> final(self)@ == (LedgerView { forced: true, stop_grace_until: None, ..old(self)@ }),
            !r ==> final(self)@ == old(self)@,
    {
        proof {
            use_type_invariant(&*self);
        }
        let due = !self.exited && match self.stop_grace_until {
            Some(t) => now >= t,
            None => false,
        };
        if due {
            self.forced = true;
            self.stop_grace_until = None;
        }
        due
    }

    /// The failure to report, once.
    pub fn take_failure_report(&mut self) -> (r: Option<HostError>)
        ensures
            ({
                let v = old(self)@;
                if v.failure is Some && !v.failure_reported {
                    r matches Some(e) && v.failure == Some((e.code@, e.message@)) && final(self)@ == (LedgerView {
                        failure_reported: true,
                        ..v
                    })
                } else {
                    r is None && final(self)@ == v
                }
            }),
    {
        proof {
            use_type_invariant(&*self);
        }
        if self.failure_reported {
            return None;
        }
        match &self.failure {
            Some(e) => {
                let report = HostError { code: e.code.clone(), message: e.message.clone() };
                self.failure_reported = true;
                Some(report)
            },
            None => None,
        }
    }

    /// Whether the exit is reported now, once: the process exited, its
    /// stdio workers and job are gone, and either the Host failed or its last
    /// frames were drained after the workers ended. Core's remaining requests
    /// are then forgotten.
    pub fn report_exit(&mut self, workers_done: bool, job_empty: bool, input_drained: bool) -> (r: bool)
        ensures
            ({
                let v = old(self)@;
                let due = v.exited && !v.exit_reported && workers_done && job_empty && (v.state == HostState::Failed
                    || input_drained);
                &&& r == due
                &&& final(self)@ == if due {
                    LedgerView { exit_reported: true, outgoing: Seq::empty(), ..v }
                } else {
                    v
                }
            }),
    {
        proof {
            use_type_invariant(&*self);
        }
        let due = self.exited && !self.exit_reported && workers_done && job_empty && (self.state == HostState::Failed
            || input_drained);
        if due {
            self.exit_reported = true;
            self.outgoing = Vec::new();
        }
        due
    }

    /// Whether the owner should read the Host's queued frames this turn: while
    /// it runs or stops, and after it exited until its exit is reported.
    pub fn reads_frames(&self) -> (r: bool)
        ensures
            r == (admitting(self@) || self@.state == HostState::Stopping || (self@.state == HostState::Exited
                && !self@.exit_reported)),
    {
        match self.state {
            HostState::Starting | HostState::Ready | HostState::Stopping => true,
            HostState::Exited => !self.exit_reported,
            HostState::Failed => false,
        }
    }

    /// The request ID of the shutdown request, once sent.
    pub fn shutdown_request_id(&self) -> (r: Option<u64>)
        ensures
            r == self@.shutdown_request_id,
    {
        self.shutdown_request_id
    }
}

/// Request IDs from the Host strictly increase: once a request is taken in,
/// a request with the same or a smaller ID is a protocol violation.
pub proof fn law_host_request_ids_increase(v: LedgerView, id: u64, t: Option<u64>, received_at: u64, now: u64, later: u64, t2: Option<u64>)
    requires
        !v.exited,
        spec_accept_request(v, id, t, received_at, now) is Ok,
        later <= id,
    ensures
        spec_accept_request(spec_accept_request(v, id, t, received_at, now)->Ok_0.0, later, t2, received_at, now) is Err,
{
}

/// A response is handed to the owner at most once: after the response to
/// `id` is taken in, another response to `id` is stale.
pub proof fn law_responses_are_taken_once(v: LedgerView, id: u64, now: u64, later: u64)
    requires
        ledger_wf(v),
        spec_accept_response(v, id, now) is Ok,
    ensures
        spec_accept_response(spec_accept_response(v, id, now)->Ok_0.0, id, later) matches Ok((_, d)) && d
            == ResponseDecision::Stale,
{
    lemma_without(v.outgoing, id, v.last_issued_id);
    lemma_deadline_absent(without(v.outgoing, id), id);
}

proof fn lemma_deadline_absent(s: Seq<(u64, u64)>, id: u64)
    requires
        forall|i: int| 0 <= i < s.len() ==> #[trigger] s[i].0 != id,
    ensures
        deadline_of(s, id) is None,
    decreases s.len(),
{
    if s.len() > 0 {
        assert(s.last().0 != id);
        assert forall|i: int| 0 <= i < s.drop_last().len() implies #[trigger] s.drop_last()[i].0 != id by {
            assert(s.drop_last()[i] == s[i]);
        }
        lemma_deadline_absent(s.drop_last(), id);
    }
}

/// After the deadlines at `now` are enforced, nothing pending is overdue.
pub proof fn law_no_pending_request_outlives_its_deadline(
    v: LedgerView,
    now: u64,
    partial_since: Option<u64>,
    write_deadline: Option<u64>,
)
    requires
        ledger_wf(v),
        admitting(v) || in_cleanup(v, now),
    ensures
        ({
            let w = spec_expire(v, now, partial_since, write_deadline).0;
            &&& forall|i: int| 0 <= i < w.outgoing.len() ==> now < #[trigger] w.outgoing[i].1
            &&& forall|i: int| 0 <= i < w.incoming.len() ==> now < #[trigger] w.incoming[i].1
        }),
{
    let (w, a, b) = spec_expire(v, now, partial_since, write_deadline);
    let first = if v.state == HostState::Starting && now >= v.startup_deadline {
        failed(v, "startup_timeout"@, "Host initialization did not finish within 5 seconds"@)
    } else {
        v
    };
    let second = if partial_since matches Some(s) && now >= s && now - s >= REQUEST_TIMEOUT_MS {
        failed(first, "frame_timeout"@, "Host left an incomplete stdout frame beyond its absolute deadline"@)
    } else {
        first
    };
    let third = if write_deadline matches Some(wd) && now >= wd {
        failed(second, "write_timeout"@, "Host did not consume its stdin frame before the deadline"@)
    } else {
        second
    };
    assert(ascending_below(third.outgoing, third.last_issued_id));
    assert(ascending_below(third.incoming, third.last_received_id));
    lemma_unexpired(third.outgoing, now, third.last_issued_id);
    lemma_unexpired(third.incoming, now, third.last_received_id);
}

} // verus!
