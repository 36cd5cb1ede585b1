//! The Host protocol: JSON lines on stdio. This module frames the byte
//! stream into lines and checks the facts of each strictly decoded frame.
use vstd::prelude::*;

use crate::plugin_services::secrets::{decimal, push_decimal};
use crate::plugins::{spec_valid_plugin_id, valid_plugin_id};
use crate::text::{any_control, chars_of, is_control, string_from_chars, utf8_len, utf8_within};

verus! {

pub const MAX_HOST_FRAME_BYTES: usize = 1048576;
pub const MAX_HOST_PENDING_REQUESTS: usize = 16;
pub const MAX_SAFE_INTEGER: u64 = 9007199254740991;
pub const MAX_HOST_METHOD_BYTES: usize = 256;
pub const MAX_REQUEST_TIMEOUT_MS: u64 = 15000;

/// The plugin generation a Host process speaks for.
#[derive(Debug, Clone)]
pub struct HostIdentity {
    pub plugin_id: String,
    pub generation: u64,
}

impl HostIdentity {
    /// Refuses an invalid plugin ID or a generation outside 1..=2^53-1.
    pub fn validate(&self) -> (r: Result<(), String>)
        ensures
            !spec_valid_plugin_id(self.plugin_id@) ==> (r matches Err(m) && m@ == "invalid host-plugin id"@),
            spec_valid_plugin_id(self.plugin_id@) && !(1 <= self.generation <= MAX_SAFE_INTEGER) ==> (r matches Err(m)
                && m@ == "host-plugin generation must be a positive JavaScript safe integer"@),
            spec_valid_plugin_id(self.plugin_id@) && 1 <= self.generation <= MAX_SAFE_INTEGER ==> r is Ok,
    {
        if !valid_plugin_id(self.plugin_id.as_str()) {
            return Err("invalid host-plugin id".to_string());
        }
        if !(1 <= self.generation && self.generation <= MAX_SAFE_INTEGER) {
            return Err("host-plugin generation must be a positive JavaScript safe integer".to_string());
        }
        Ok(())
    }
}

/// A method name of 1..=256 UTF-8 bytes without control characters.
pub open spec fn spec_valid_method(m: Seq<char>) -> bool {
    &&& m.len() > 0
    &&& utf8_len(m) <= MAX_HOST_METHOD_BYTES
    &&& forall|i: int| 0 <= i < m.len() ==> !is_control(#[trigger] m[i])
}

/// Refuses an empty, oversized or control-bearing method name.
pub fn validate_method(method: &str) -> (r: Result<(), String>)
    ensures
        r is Ok <==> spec_valid_method(method@),
        r matches Err(m) ==> m@ == "method must contain 1..=256 bytes and no control characters"@,
{
    let v = chars_of(method);
    if v.len() == 0 || !utf8_within(v.as_slice(), MAX_HOST_METHOD_BYTES) || any_control(v.as_slice()) {
        return Err("method must contain 1..=256 bytes and no control characters".to_string());
    }
    Ok(())
}

/// The fields of a strictly decoded frame that its checks read.
#[derive(Debug, Clone)]
pub enum FrameFacts {
    Request { version: u32, plugin_id: String, generation: u64, id: u64, method: String, timeout_ms: Option<u64> },
    /// `result_key` and `error_key` say whether the frame's object has those
    /// keys at all; `error` is the decoded (non-null) error object.
    Response {
        version: u32,
        plugin_id: String,
        generation: u64,
        id: u64,
        ok: bool,
        result_key: bool,
        error_key: bool,
        error: Option<(String, String)>,
    },
    Notification { version: u32, plugin_id: String, generation: u64, method: String },
}

/// The version, plugin ID and generation every frame carries.
pub open spec fn frame_header(f: FrameFacts) -> (u32, Seq<char>, u64) {
    match f {
        FrameFacts::Request { version, plugin_id, generation, .. } => (version, plugin_id@, generation),
        FrameFacts::Response { version, plugin_id, generation, .. } => (version, plugin_id@, generation),
        FrameFacts::Notification { version, plugin_id, generation, .. } => (version, plugin_id@, generation),
    }
}

/// The message of the first check a frame fails, in the order they run.
pub open spec fn spec_frame_error(f: FrameFacts, identity: HostIdentity) -> Option<Seq<char>> {
    let (version, plugin_id, generation) = frame_header(f);
    if version != 1 {
        Some("unsupported host protocol version "@ + decimal(version as nat))
    } else if plugin_id != identity.plugin_id@ || generation != identity.generation {
        Some("host frame does not match this plugin generation"@)
    } else if (f matches FrameFacts::Request { id, .. } && !(1 <= id <= MAX_SAFE_INTEGER)) || (f matches FrameFacts::Response {
        id,
        ..
    } && !(1 <= id <= MAX_SAFE_INTEGER)) {
        Some("request id must be a positive JavaScript safe integer"@)
    } else if (f matches FrameFacts::Request { method, .. } && !spec_valid_method(method@)) || (f matches FrameFacts::Notification {
        method,
        ..
    } && !spec_valid_method(method@)) {
        Some("method must contain 1..=256 bytes and no control characters"@)
    } else if f matches FrameFacts::Request { timeout_ms: Some(t), .. } && !(1 <= t <= MAX_REQUEST_TIMEOUT_MS) {
        Some("request timeoutMs must be between 1 and 15000"@)
    } else if f matches FrameFacts::Response { ok, result_key, error_key, error, .. } && !(if ok {
        result_key && !error_key
    } else {
        !result_key && (error matches Some(e) && e.0@.len() > 0 && e.1@.len() > 0)
    }) {
        Some("response requires exactly result for ok=true or a nonempty error for ok=false"@)
    } else {
        None
    }
}

/// Checks a decoded frame against the Host's identity and the protocol's
/// bounds and response shape.
pub fn check_frame(f: &FrameFacts, identity: &HostIdentity) -> (r: Result<(), String>)
    ensures
        match spec_frame_error(*f, *identity) {
            None => r is Ok,
            Some(m) => r matches Err(e) && e@ == m,
        },
{
    let (version, plugin_id, generation) = match f {
        FrameFacts::Request { version, plugin_id, generation, .. } => (*version, plugin_id, *generation),
        FrameFacts::Response { version, plugin_id, generation, .. } => (*version, plugin_id, *generation),
        FrameFacts::Notification { version, plugin_id, generation, .. } => (*version, plugin_id, *generation),
    };
    if version != 1 {
        let mut out = chars_of("unsupported host protocol version ");
        push_decimal(&mut out, version as u64);
        return Err(string_from_chars(out.as_slice()));
    }
    if !crate::text::str_equal(plugin_id.as_str(), identity.plugin_id.as_str()) || generation != identity.generation {
        return Err("host frame does not match this plugin generation".to_string());
    }
    match f {
        FrameFacts::Request { id, .. } | FrameFacts::Response { id, .. } => {
            if !(1 <= *id && *id <= MAX_SAFE_INTEGER) {
                return Err("request id must be a positive JavaScript safe integer".to_string());
            }
        },
        _ => {},
    }
    match f {
        FrameFacts::Request { method, .. } | FrameFacts::Notification { method, .. } => {
            validate_method(method.as_str())?;
        },
        _ => {},
    }
    match f {
        FrameFacts::Request { timeout_ms: Some(t), .. } => {
            if !(1 <= *t && *t <= MAX_REQUEST_TIMEOUT_MS) {
                return Err("request timeoutMs must be between 1 and 15000".to_string());
            }
        },
        _ => {},
    }
    match f {
        FrameFacts::Response { ok, result_key, error_key, error, .. } => {
            let valid = if *ok {
                *result_key && !*error_key
            } else {
                match error {
                    Some(e) => !*result_key && e.0.as_str().unicode_len() > 0 && e.1.as_str().unicode_len() > 0,
                    None => false,
                }
            };
            if !valid {
                return Err("response requires exactly result for ok=true or a nonempty error for ok=false".to_string());
            }
        },
        _ => {},
    }
    Ok(())
}

} // verus!

verus! {

/// Why a stdout stream stopped framing.
#[derive(Debug, Clone, Copy, PartialEq, Eq, Structural)]
pub enum LineProblem {
    EmptyLine,
    Oversized,
}

/// The framing state after some bytes: the unfinished line, the completed
/// frames, and the problem that stopped framing, if any.
pub struct LineState {
    pub pending: Seq<u8>,
    pub frames: Seq<Seq<u8>>,
    pub problem: Option<LineProblem>,
}

/// One byte of stdout: `\n` ends a line (a `\r` before it is dropped) and an
/// empty line is refused; any other byte extends the line, up to the frame
/// limit. Nothing changes once a problem stopped framing.
pub open spec fn line_step(s: LineState, b: u8) -> LineState {
    if s.problem is Some {
        s
    } else if b == 10 {
        let p = if s.pending.len() > 0 && s.pending.last() == 13 { s.pending.drop_last() } else { s.pending };
        if p.len() == 0 {
            LineState { pending: p, frames: s.frames, problem: Some(LineProblem::EmptyLine) }
        } else {
            LineState { pending: Seq::empty(), frames: s.frames.push(p), problem: None }
        }
    } else if s.pending.len() >= MAX_HOST_FRAME_BYTES {
        LineState { pending: s.pending, frames: s.frames, problem: Some(LineProblem::Oversized) }
    } else {
        LineState { pending: s.pending.push(b), frames: s.frames, problem: None }
    }
}

/// The framing state after feeding `bytes` in order.
pub open spec fn line_run(s: LineState, bytes: Seq<u8>) -> LineState
    decreases bytes.len(),
{
    if bytes.len() == 0 {
        s
    } else {
        line_step(line_run(s, bytes.drop_last()), bytes.last())
    }
}

/// A fresh push from an unfinished line.
pub open spec fn line_start(pending: Seq<u8>) -> LineState {
    LineState { pending, frames: Seq::empty(), problem: None }
}

/// The views of byte vectors.
pub open spec fn byte_views(v: Seq<Vec<u8>>) -> Seq<Seq<u8>> {
    v.map_values(|f: Vec<u8>| f@)
}

/// Splits a Host's stdout into protocol lines across reads.
pub struct LineDecoder {
    pending: Vec<u8>,
}

impl LineDecoder {
    /// The bytes of the line not yet ended.
    pub closed spec fn pending(&self) -> Seq<u8> {
        self.pending@
    }

    /// A decoder with no unfinished line.
    pub fn new() -> (d: Self)
        ensures
            d.pending() == Seq::<u8>::empty(),
    {
        LineDecoder { pending: Vec::new() }
    }

    /// Feeds the next bytes; gives the lines they complete.
    pub fn push(&mut self, bytes: &[u8]) -> (r: Result<Vec<Vec<u8>>, String>)
        ensures
            final(self).pending() == line_run(line_start(old(self).pending()), bytes@).pending,
            match line_run(line_start(old(self).pending()), bytes@).problem {
                None => r matches Ok(fs) && byte_views(fs@) == line_run(line_start(old(self).pending()), bytes@).frames,
                Some(LineProblem::EmptyLine) => r matches Err(m) && m@ == "host stdout contains an empty protocol line"@,
                Some(LineProblem::Oversized) => r matches Err(m) && m@ == "host stdout frame exceeds its byte limit"@,
            },
    {
        let ghost start = line_start(self.pending@);
        let mut frames: Vec<Vec<u8>> = Vec::new();
        let mut i: usize = 0;
        proof {
            assert(bytes@.take(0) =~= Seq::<u8>::empty());
            assert(byte_views(frames@) =~= Seq::<Seq<u8>>::empty());
        }
        while i < bytes.len()
            invariant
                i <= bytes@.len(),
                start == line_start(old(self).pending()),
                line_run(start, bytes@.take(i as int)).problem is None,
                line_run(start, bytes@.take(i as int)).pending == self.pending@,
                line_run(start, bytes@.take(i as int)).frames == byte_views(frames@),
            decreases bytes@.len() - i,
        {
            let b = bytes[i];
            let ghost before = line_run(start, bytes@.take(i as int));
            proof {
                assert(bytes@.take(i as int + 1).drop_last() =~= bytes@.take(i as int));
                assert(line_run(start, bytes@.take(i as int + 1)) == line_step(before, b));
            }
            if b == 10 {
                if self.pending.len() > 0 && self.pending[self.pending.len() - 1] == 13 {
                    self.pending.pop();
                }
                proof {
                    let p = if before.pending.len() > 0 && before.pending.last() == 13 {
                        before.pending.drop_last()
                    } else {
                        before.pending
                    };
                    assert(self.pending@ == p);
                }
                if self.pending.len() == 0 {
                    proof {
                        assert(line_run(start, bytes@.take(i as int + 1)).problem == Some(LineProblem::EmptyLine));
                        assert(line_run(start, bytes@.take(i as int + 1)).pending == self.pending@);
                        lemma_line_run_stops(start, bytes@, i as int + 1);
                    }
                    return Err("host stdout contains an empty protocol line".to_string());
                }
                let mut taken: Vec<u8> = Vec::new();
                std::mem::swap(&mut taken, &mut self.pending);
                let ghost old_frames = frames@;
                frames.push(taken);
                proof {
                    assert(byte_views(frames@) =~= byte_views(old_frames).push(taken@));
                }
            } else {
                if self.pending.len() >= MAX_HOST_FRAME_BYTES {
                    proof {
                        lemma_line_run_stops(start, bytes@, i as int + 1);
                    }
                    return Err("host stdout frame exceeds its byte limit".to_string());
                }
                self.pending.push(b);
            }
            i = i + 1;
        }
        proof {
            assert(bytes@.take(bytes@.len() as int) =~= bytes@);
        }
        Ok(frames)
    }

    /// Whether an unfinished line is waiting for more bytes.
    pub fn has_partial_frame(&self) -> (b: bool)
        ensures
            b == (self.pending().len() > 0),
    {
        self.pending.len() > 0
    }
}

proof fn lemma_line_run_stops(s: LineState, bytes: Seq<u8>, k: int)
    requires
        0 <= k <= bytes.len(),
        line_run(s, bytes.take(k)).problem is Some,
    ensures
        line_run(s, bytes) == line_run(s, bytes.take(k)),
    decreases bytes.len() - k,
{
    if k < bytes.len() {
        assert(bytes.take(k + 1).drop_last() =~= bytes.take(k));
        lemma_line_run_stops(s, bytes, k + 1);
    } else {
        assert(bytes.take(k) =~= bytes);
    }
}

proof fn lemma_line_run_append(s: LineState, a: Seq<u8>, b: Seq<u8>)
    ensures
        line_run(s, a + b) == line_run(line_run(s, a), b),
    decreases b.len(),
{
    if b.len() == 0 {
        assert(a + b =~= a);
    } else {
        assert((a + b).drop_last() =~= a + b.drop_last());
        lemma_line_run_append(s, a, b.drop_last());
    }
}

proof fn lemma_line_run_frames(pending: Seq<u8>, frames: Seq<Seq<u8>>, bytes: Seq<u8>)
    ensures
        ({
            let with = line_run(LineState { pending, frames, problem: None }, bytes);
            let without = line_run(line_start(pending), bytes);
            with.pending == without.pending && with.problem == without.problem && with.frames == frames + without.frames
        }),
    decreases bytes.len(),
{
    if bytes.len() == 0 {
        assert(frames + Seq::<Seq<u8>>::empty() =~= frames);
    } else {
        lemma_line_run_frames(pending, frames, bytes.drop_last());
        let w = line_run(line_start(pending), bytes.drop_last());
        let p = if w.pending.len() > 0 && w.pending.last() == 13 { w.pending.drop_last() } else { w.pending };
        assert((frames + w.frames).push(p) =~= frames + w.frames.push(p));
    }
}

/// Splitting a byte stream across two pushes yields the same lines, the
/// same unfinished line and the same problem as one push of the whole.
pub proof fn law_split_reads_frame_alike(pending: Seq<u8>, a: Seq<u8>, b: Seq<u8>)
    requires
        line_run(line_start(pending), a).problem is None,
    ensures
        ({
            let first = line_run(line_start(pending), a);
            let second = line_run(line_start(first.pending), b);
            let whole = line_run(line_start(pending), a + b);
            &&& whole.pending == second.pending
            &&& whole.problem == second.problem
            &&& whole.frames == first.frames + second.frames
        }),
{
    let first = line_run(line_start(pending), a);
    lemma_line_run_append(line_start(pending), a, b);
    lemma_line_run_frames(first.pending, first.frames, b);
    assert(first == LineState { pending: first.pending, frames: first.frames, problem: None });
}

} // verus!
