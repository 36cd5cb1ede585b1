//! What the Host's stream workers decide: the bounded stderr tail, when an
//! incomplete stdout frame started, which queued writes are still due, and
//! the deadline of a request.
use vstd::prelude::*;

use crate::plugin_host::ledger::REQUEST_TIMEOUT_MS;
use crate::plugin_host::supervisor::HostError;

verus! {

/// Most bytes of stderr kept.
pub const STDERR_TAIL_BYTES: usize = 65536;

/// The last `n` bytes of `s`, or all of it when shorter.
pub open spec fn keep_last(s: Seq<u8>, n: nat) -> Seq<u8> {
    if s.len() <= n {
        s
    } else {
        s.skip(s.len() - n)
    }
}

/// The diagnostic tail of a Host's stderr: the last 64 KiB it wrote.
#[derive(Debug)]
pub struct StderrTail {
    bytes: Vec<u8>,
}

impl View for StderrTail {
    type V = Seq<u8>;

    closed spec fn view(&self) -> Seq<u8> {
        self.bytes@
    }
}

impl StderrTail {
    #[verifier::type_invariant]
    spec fn inv(self) -> bool {
        self.bytes@.len() <= STDERR_TAIL_BYTES
    }

    /// An empty tail.
    pub fn new() -> (t: Self)
        ensures
            t@ == Seq::<u8>::empty(),
    {
        StderrTail { bytes: Vec::new() }
    }

    /// Appends what the Host wrote, keeping only the last 64 KiB.
    pub fn append(&mut self, chunk: &[u8])
        ensures
            final(self)@ == keep_last(old(self)@ + chunk@, STDERR_TAIL_BYTES as nat),
    {
        proof {
            use_type_invariant(&*self);
        }
        let ghost all = self.bytes@ + chunk@;
        let mut out: Vec<u8> = Vec::new();
        if chunk.len() >= STDERR_TAIL_BYTES {
            let start = chunk.len() - STDERR_TAIL_BYTES;
            let mut i: usize = start;
            while i < chunk.len()
                invariant
                    start == chunk@.len() - STDERR_TAIL_BYTES,
                    start <= i <= chunk@.len(),
                    out@ == chunk@.subrange(start as int, i as int),
                decreases chunk@.len() - i,
            {
                out.push(chunk[i]);
                i = i + 1;
                proof {
                    assert(out@ =~= chunk@.subrange(start as int, i as int));
                }
            }
            proof {
                assert(out@ =~= keep_last(all, STDERR_TAIL_BYTES as nat));
            }
        } else {
            let kept = self.bytes.len();
            let total = kept + chunk.len();
            let skip = if total > STDERR_TAIL_BYTES {
                total - STDERR_TAIL_BYTES
            } else {
                0
            };
            let mut i: usize = skip;
            while i < total
                invariant
                    kept == self.bytes@.len(),
                    total == kept + chunk@.len(),
                    all == self.bytes@ + chunk@,
                    skip <= i <= total,
                    out@ == all.subrange(skip as int, i as int),
                decreases total - i,
            {
                let b = if i < kept {
                    self.bytes[i]
                } else {
                    chunk[i - kept]
                };
                out.push(b);
                i = i + 1;
                proof {
                    assert(out@ =~= all.subrange(skip as int, i as int));
                }
            }
            proof {
                assert(out@ =~= keep_last(all, STDERR_TAIL_BYTES as nat));
            }
        }
        self.bytes = out;
    }

    /// The bytes kept.
    pub fn bytes(&self) -> (r: Vec<u8>)
        ensures
            r@ == self@,
    {
        let mut out: Vec<u8> = Vec::new();
        let mut i: usize = 0;
        while i < self.bytes.len()
            invariant
                i <= self.bytes@.len(),
                out@ == self.bytes@.take(i as int),
            decreases self.bytes@.len() - i,
        {
            out.push(self.bytes[i]);
            i = i + 1;
            proof {
                assert(out@ =~= self.bytes@.take(i as int));
            }
        }
        proof {
            assert(self.bytes@.take(self.bytes@.len() as int) =~= self.bytes@);
        }
        out
    }
}

/// Keeping the tail chunk by chunk keeps what keeping it once over all the
/// output would: the tail is always the last 64 KiB written.
pub proof fn law_tail_is_the_last_bytes_written(a: Seq<u8>, b: Seq<u8>, n: nat)
    ensures
        keep_last(keep_last(a, n) + b, n) == keep_last(a + b, n),
{
    let k = keep_last(a, n);
    if a.len() <= n {
        assert(k == a);
    } else {
        let s = k + b;
        let t = a + b;
        if s.len() <= n {
            assert(s.len() == n + b.len());
            assert(b.len() == 0);
            assert(s =~= t.skip(t.len() - n));
        } else {
            assert(s.skip(s.len() - n) =~= t.skip(t.len() - n));
        }
    }
}

/// When an incomplete stdout frame started: a frame left incomplete by this
/// read starts now unless the previous read already left one and this read
/// ended no line; a read that leaves none clears it.
pub open spec fn spec_partial_since(
    was_partial: bool,
    partial_now: bool,
    chunk_has_newline: bool,
    since: Option<u64>,
    now: u64,
) -> Option<u64> {
    if partial_now {
        if !was_partial || chunk_has_newline {
            Some(now)
        } else {
            since
        }
    } else {
        None
    }
}

/// When the incomplete stdout frame after this read started.
pub fn partial_since(was_partial: bool, partial_now: bool, chunk_has_newline: bool, since: Option<u64>, now: u64) -> (r: Option<u64>)
    ensures
        r == spec_partial_since(was_partial, partial_now, chunk_has_newline, since, now),
{
    if partial_now {
        if !was_partial || chunk_has_newline {
            Some(now)
        } else {
            since
        }
    } else {
        None
    }
}

/// Whether a queued write is still to be written: before its expiry and not
/// cancelled.
pub fn outbound_due(now: u64, expires_at: u64, cancelled: bool) -> (b: bool)
    ensures
        b == (now < expires_at && !cancelled),
{
    now < expires_at && !cancelled
}

/// The deadline of a request sent at `now` with this timeout: more than
/// zero and at most 15 seconds.
pub fn request_deadline(now: u64, timeout_ms: u64) -> (r: Result<u64, HostError>)
    ensures
        timeout_ms == 0 || timeout_ms > REQUEST_TIMEOUT_MS ==> (r matches Err(e) && e.code@ == "invalid_timeout"@ && e.message@
            == "Host request timeout must be greater than zero and at most 15 seconds"@),
        0 < timeout_ms <= REQUEST_TIMEOUT_MS && now + timeout_ms > u64::MAX ==> (r matches Err(e) && e.code@
            == "invalid_timeout"@ && e.message@ == "Host request deadline cannot be represented"@),
        0 < timeout_ms <= REQUEST_TIMEOUT_MS && now + timeout_ms <= u64::MAX ==> r == Ok::<u64, HostError>(
            (now + timeout_ms) as u64,
        ),
{
    if timeout_ms == 0 || timeout_ms > REQUEST_TIMEOUT_MS {
        return Err(HostError::new("invalid_timeout", "Host request timeout must be greater than zero and at most 15 seconds"));
    }
    match now.checked_add(timeout_ms) {
        Some(d) => Ok(d),
        None => Err(HostError::new("invalid_timeout", "Host request deadline cannot be represented")),
    }
}

} // verus!
