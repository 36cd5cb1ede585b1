//! Startup diagnostics of a native Host process. Only fixed stage names and
//! OS classifications cross this boundary; command paths, arguments,
//! environment and arbitrary error text never do.
use vstd::prelude::*;

use crate::plugin_host::supervisor::HostError;
use crate::plugin_services::secrets::{decimal, push_decimal};
use crate::runtime_update::{all_digits, digits_value};
use crate::text::{chars_of, push_str, split, split_chars, starts_with, string_from_chars, views};

verus! {

/// The startup stages an owner process may name.
pub open spec fn known_stage(s: Seq<char>) -> bool {
    ||| s == "owner_exec"@
    ||| s == "plan_write"@
    ||| s == "plan_delimiter"@
    ||| s == "startup_reply"@
    ||| s == "plugin_exec"@
    ||| s == "parent_identity_inspect"@
    ||| s == "parent_identity_rejected"@
}

/// The stage a failure message names: the first `;`-field after a leading
/// `owner_stage=` when it is a known stage, `prepare` otherwise.
pub open spec fn spec_stage(message: Seq<char>) -> Seq<char> {
    if starts_with(message, "owner_stage="@) && known_stage(split(message.skip(12), ';')[0]) {
        split(message.skip(12), ';')[0]
    } else {
        "prepare"@
    }
}

/// The value of a decimal `i32` text with an optional sign, as `str::parse`
/// accepts it.
pub open spec fn spec_parse_i32(t: Seq<char>) -> Option<i32> {
    let neg = t.len() > 0 && t[0] == '-';
    let digits = if t.len() > 0 && (t[0] == '-' || t[0] == '+') { t.skip(1) } else { t };
    if digits.len() == 0 || !all_digits(digits) {
        None
    } else {
        let v: int = if neg { -(digits_value(digits) as int) } else { digits_value(digits) as int };
        if i32::MIN <= v <= i32::MAX {
            Some(v as i32)
        } else {
            None
        }
    }
}

/// The number in an `errno=Some(n)` field.
pub open spec fn field_errno(f: Seq<char>) -> Option<i32> {
    if f.len() >= 12 && starts_with(f, "errno=Some("@) && f.last() == ')' {
        spec_parse_i32(f.subrange(11, f.len() - 1))
    } else {
        None
    }
}

/// The first field that carries an errno.
pub open spec fn first_errno(fields: Seq<Seq<char>>) -> Option<i32>
    decreases fields.len(),
{
    if fields.len() == 0 {
        None
    } else if field_errno(fields[0]) is Some {
        field_errno(fields[0])
    } else {
        first_errno(fields.drop_first())
    }
}

/// The OS error number: the error's own, else one its message carries.
pub open spec fn spec_errno(raw: Option<i32>, message: Seq<char>) -> Option<i32> {
    if raw is Some {
        raw
    } else {
        first_errno(split(message, ';'))
    }
}

/// Decimal notation of an integer with its sign.
pub open spec fn signed_decimal(v: int) -> Seq<char> {
    if v < 0 {
        seq!['-'] + decimal((-v) as nat)
    } else {
        decimal(v as nat)
    }
}

/// `Some(n)` or `None`, as `{:?}` prints an optional number.
pub open spec fn debug_errno(e: Option<i32>) -> Seq<char> {
    match e {
        Some(v) => "Some("@ + signed_decimal(v as int) + seq![')'],
        None => "None"@,
    }
}

/// The diagnostic a failed native start reports.
pub open spec fn spawn_message(message: Seq<char>, raw: Option<i32>, kind: Seq<char>) -> Seq<char> {
    "Native process startup failed: owner_stage="@ + spec_stage(message) + ";io_kind="@ + kind + ";errno="@ + debug_errno(
        spec_errno(raw, message),
    )
}

fn push_chars(out: &mut Vec<char>, v: &Vec<char>)
    ensures
        final(out)@ == old(out)@ + v@,
{
    let mut i: usize = 0;
    while i < v.len()
        invariant
            i <= v@.len(),
            out@ == old(out)@ + v@.take(i as int),
        decreases v@.len() - i,
    {
        out.push(v[i]);
        i = i + 1;
        proof {
            assert(out@ =~= old(out)@ + v@.take(i as int));
        }
    }
    proof {
        assert(v@.take(v@.len() as int) =~= v@);
    }
}

proof fn lemma_digits_value_push(s: Seq<char>, c: char)
    ensures
        digits_value(s.push(c)) == digits_value(s) * 10 + ((c as u32) - ('0' as u32)) as nat,
{
    assert(s.push(c).drop_last() =~= s);
}

/// Parses a decimal `i32` with an optional sign.
pub fn parse_i32(t: &[char]) -> (r: Option<i32>)
    ensures
        r == spec_parse_i32(t@),
{
    let neg = t.len() > 0 && t[0] == '-';
    let start: usize = if t.len() > 0 && (t[0] == '-' || t[0] == '+') { 1 } else { 0 };
    if start == t.len() {
        proof {
            assert(t@.skip(start as int).len() == 0);
            if start == 0 {
                assert(t@.skip(0) =~= t@);
            }
        }
        return None;
    }
    let mut value: u64 = 0;
    let mut i: usize = start;
    while i < t.len()
        invariant
            start <= i <= t@.len(),
            start == (if t@.len() > 0 && (t@[0] == '-' || t@[0] == '+') { 1usize } else { 0usize }),
            all_digits(t@.subrange(start as int, i as int)),
            value == digits_value(t@.subrange(start as int, i as int)),
            value <= 2147483648,
        decreases t@.len() - i,
    {
        let c = t[i];
        if !('0' <= c && c <= '9') {
            proof {
                let d = t@.skip(start as int);
                assert(d[i - start] == c);
                assert(!crate::text::is_digit(d[i - start]));
                if start == 0 {
                    assert(t@.skip(0) =~= t@);
                }
            }
            return None;
        }
        let digit: u64 = (c as u32 - '0' as u32) as u64;
        proof {
            assert(t@.subrange(start as int, i as int + 1) =~= t@.subrange(start as int, i as int).push(c));
            lemma_digits_value_push(t@.subrange(start as int, i as int), c);
        }
        if value > 214748364 || (value == 214748364 && digit > 8) {
            proof {
                lemma_digits_prefix_bound(t@.skip(start as int), (i + 1 - start) as int);
                assert(t@.skip(start as int).take((i + 1 - start) as int) =~= t@.subrange(start as int, i as int + 1));
                if start == 0 {
                    assert(t@.skip(0) =~= t@);
                }
                let d = t@.skip(start as int);
                if all_digits(d) {
                    assert(digits_value(d) >= 2147483649);
                }
            }
            return None;
        }
        value = value * 10 + digit;
        i = i + 1;
    }
    proof {
        assert(t@.subrange(start as int, t@.len() as int) =~= t@.skip(start as int));
        if start == 0 {
            assert(t@.skip(0) =~= t@);
        }
    }
    if neg {
        let v: i64 = -(value as i64);
        if v < -2147483648 {
            return None;
        }
        Some(v as i32)
    } else {
        if value > 2147483647 {
            return None;
        }
        Some(value as i32)
    }
}

proof fn lemma_digits_prefix_bound(d: Seq<char>, k: int)
    requires
        0 <= k <= d.len(),
        all_digits(d.take(k)),
    ensures
        all_digits(d) ==> digits_value(d) >= digits_value(d.take(k)),
    decreases d.len() - k,
{
    if k < d.len() && all_digits(d) {
        assert(d.take(k + 1).drop_last() =~= d.take(k));
        assert(all_digits(d.take(k + 1)));
        lemma_digits_prefix_bound(d, k + 1);
    } else if k == d.len() {
        assert(d.take(k) =~= d);
    }
}

fn field_errno_exec(f: &Vec<char>) -> (r: Option<i32>)
    ensures
        r == field_errno(f@),
{
    let prefix = chars_of("errno=Some(");
    if f.len() < 12 || !crate::text::chars_start_with(f.as_slice(), prefix.as_slice()) || f[f.len() - 1] != ')' {
        return None;
    }
    let mut inner: Vec<char> = Vec::new();
    let mut i: usize = 11;
    while i < f.len() - 1
        invariant
            11 <= i <= f@.len() - 1,
            f@.len() >= 12,
            inner@ == f@.subrange(11, i as int),
        decreases f@.len() - 1 - i,
    {
        inner.push(f[i]);
        i = i + 1;
        proof {
            assert(inner@ =~= f@.subrange(11, i as int));
        }
    }
    parse_i32(inner.as_slice())
}

fn first_errno_of(fields: &Vec<Vec<char>>) -> (r: Option<i32>)
    ensures
        r == first_errno(views(fields@)),
{
    let mut k: usize = 0;
    proof {
        assert(views(fields@).skip(0) =~= views(fields@));
    }
    while k < fields.len()
        invariant
            k <= fields@.len(),
            first_errno(views(fields@).skip(k as int)) == first_errno(views(fields@)),
        decreases fields@.len() - k,
    {
        let fe = field_errno_exec(&fields[k]);
        proof {
            let rest = views(fields@).skip(k as int);
            assert(rest[0] == fields@[k as int]@);
            assert(rest.drop_first() =~= views(fields@).skip(k as int + 1));
        }
        if fe.is_some() {
            return fe;
        }
        k = k + 1;
    }
    proof {
        assert(views(fields@).skip(k as int) =~= Seq::<Seq<char>>::empty());
    }
    None
}

/// The error a failed native start reports: the fixed code, the known
/// stage (or `prepare`), the I/O kind and the OS error number, never the
/// error's own text.
pub fn spawn_failure(code: &str, message: &str, raw_os_error: Option<i32>, kind: &str) -> (e: HostError)
    ensures
        e.code@ == code@,
        e.message@ == spawn_message(message@, raw_os_error, kind@),
        known_stage(spec_stage(message@)) || spec_stage(message@) == "prepare"@,
{
    let m = chars_of(message);
    let prefix = chars_of("owner_stage=");
    proof {
        reveal_strlit("owner_stage=");
    }
    let mut stage: Vec<char> = chars_of("prepare");
    if crate::text::chars_start_with(m.as_slice(), prefix.as_slice()) {
        let mut rest: Vec<char> = Vec::new();
        let mut i: usize = 12;
        while i < m.len()
            invariant
                12 <= i <= m@.len(),
                rest@ == m@.subrange(12, i as int),
            decreases m@.len() - i,
        {
            rest.push(m[i]);
            i = i + 1;
            proof {
                assert(rest@ =~= m@.subrange(12, i as int));
            }
        }
        proof {
            assert(rest@ =~= m@.skip(12));
        }
        let fields = split_chars(rest.as_slice(), ';');
        proof {
            crate::text::lemma_split_nonempty(rest@, ';');
        }
        let first = &fields[0];
        let s = string_from_chars(first.as_slice());
        let known = crate::text::str_equal(s.as_str(), "owner_exec") || crate::text::str_equal(s.as_str(), "plan_write")
            || crate::text::str_equal(s.as_str(), "plan_delimiter") || crate::text::str_equal(s.as_str(), "startup_reply")
            || crate::text::str_equal(s.as_str(), "plugin_exec") || crate::text::str_equal(s.as_str(), "parent_identity_inspect")
            || crate::text::str_equal(s.as_str(), "parent_identity_rejected");
        proof {
            assert(views(fields@)[0] == first@);
        }
        if known {
            stage = chars_of(s.as_str());
        }
    }
    let errno: Option<i32> = match raw_os_error {
        Some(v) => Some(v),
        None => {
            let fields = split_chars(m.as_slice(), ';');
            first_errno_of(&fields)
        },
    };
    proof {
        reveal_strlit("owner_stage=");
    }
    let mut out: Vec<char> = chars_of("Native process startup failed: owner_stage=");
    push_chars(&mut out, &stage);
    push_str(&mut out, ";io_kind=");
    push_str(&mut out, kind);
    push_str(&mut out, ";errno=");
    match errno {
        Some(v) => {
            push_str(&mut out, "Some(");
            if v < 0 {
                out.push('-');
                let magnitude: u64 = (-(v as i64)) as u64;
                push_decimal(&mut out, magnitude);
            } else {
                push_decimal(&mut out, v as u64);
            }
            out.push(')');
        },
        None => push_str(&mut out, "None"),
    }
    proof {
        assert(out@ =~= spawn_message(message@, raw_os_error, kind@));
    }
    HostError::new(code, string_from_chars(out.as_slice()).as_str())
}

/// Most bytes of the serialised start plan handed to the process owner.
pub const MAX_SPAWN_PLAN_BYTES: usize = 1048576;

/// Refuses a start plan (executable, arguments, directory and environment,
/// serialised) beyond 1 MiB.
pub fn check_spawn_plan_size(bytes: usize) -> (r: Result<(), String>)
    ensures
        r is Ok <==> bytes <= MAX_SPAWN_PLAN_BYTES,
        r matches Err(e) ==> e@ == "Host environment exceeded its startup limit"@,
{
    if bytes > MAX_SPAWN_PLAN_BYTES {
        return Err("Host environment exceeded its startup limit".to_string());
    }
    Ok(())
}

/// What the process owner reports.
#[derive(Debug, Clone, PartialEq, Eq)]
pub enum OwnerReply {
    Started { pid: u32 },
    Exited { code: u32, process_group_reaped: bool },
    Failed { message: String },
}

/// The Host's pid from the owner's reply to a start plan: a start with a
/// positive pid; a failure carries its message; any other reply is refused.
pub fn startup_pid(reply: OwnerReply) -> (r: Result<u32, String>)
    ensures
        match reply {
            OwnerReply::Started { pid } => if pid > 0 {
                r == Ok::<u32, String>(pid)
            } else {
                r matches Err(e) && e@ == "Invalid Host owner startup reply"@
            },
            OwnerReply::Failed { message } => r matches Err(e) && e@ == message@,
            OwnerReply::Exited { .. } => r matches Err(e) && e@ == "Invalid Host owner startup reply"@,
        },
{
    match reply {
        OwnerReply::Started { pid } => if pid > 0 {
            Ok(pid)
        } else {
            Err("Invalid Host owner startup reply".to_string())
        },
        OwnerReply::Failed { message } => Err(message),
        OwnerReply::Exited { .. } => Err("Invalid Host owner startup reply".to_string()),
    }
}

} // verus!

