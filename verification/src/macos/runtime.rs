//! Rules of launching the official client and of the native process owner:
//! which inherited variables never reach the client, when a launch must not
//! start, and how the owner vets its spawn plan and reports an exit.
use vstd::prelude::*;

use crate::plugin_services::secrets::{decimal, push_decimal};
use crate::text::{ascii_upper, chars_of, chars_start_with, push_str, starts_with, str_equal, string_from_chars, upper_char};

verus! {

/// Most arguments a spawn plan may carry.
pub const MAX_PLAN_ARGUMENTS: usize = 128;

/// An inherited variable that could load code into the client: its name,
/// ASCII-uppercased, starts with `DYLD_` or `NODE_`, or is `ELECTRON_RUN_AS_NODE`.
pub open spec fn spec_scrubbed_variable(key: Seq<char>) -> bool {
    let k = key.map_values(|c: char| ascii_upper(c));
    starts_with(k, "DYLD_"@) || starts_with(k, "NODE_"@) || k == "ELECTRON_RUN_AS_NODE"@
}

/// Whether the inherited variable `key` (as text) is removed from the client's environment.
pub fn scrubbed_variable(key: &str) -> (r: bool)
    ensures
        r == spec_scrubbed_variable(key@),
{
    let v = chars_of(key);
    let mut upper: Vec<char> = Vec::new();
    let mut i: usize = 0;
    while i < v.len()
        invariant
            i <= v@.len(),
            v@ == key@,
            upper@ == v@.take(i as int).map_values(|c: char| ascii_upper(c)),
        decreases v@.len() - i,
    {
        let ghost before = upper@;
        upper.push(upper_char(v[i]));
        i = i + 1;
        proof {
            assert(upper@ =~= v@.take(i as int).map_values(|c: char| ascii_upper(c)));
        }
    }
    proof {
        assert(v@.take(v@.len() as int) =~= v@);
    }
    let dyld = chars_of("DYLD_");
    let node = chars_of("NODE_");
    let electron = chars_of("ELECTRON_RUN_AS_NODE");
    chars_start_with(upper.as_slice(), dyld.as_slice()) || chars_start_with(upper.as_slice(), node.as_slice())
        || crate::text::chars_equal(upper.as_slice(), electron.as_slice())
}

/// The process IDs as a list, `[1, 2]`.
pub open spec fn pid_list(pids: Seq<u32>) -> Seq<char> {
    if pids.len() == 0 {
        "[]"@
    } else {
        "["@ + pid_items(pids) + "]"@
    }
}

/// The process IDs separated by `, `.
pub open spec fn pid_items(pids: Seq<u32>) -> Seq<char>
    decreases pids.len(),
{
    if pids.len() <= 1 {
        if pids.len() == 0 {
            Seq::empty()
        } else {
            decimal(pids[0] as nat)
        }
    } else {
        pid_items(pids.drop_last()) + ", "@ + decimal(pids.last() as nat)
    }
}

/// Refuses to launch while processes of the official client already run.
pub fn running_refusal(pids: &Vec<u32>) -> (r: Result<(), String>)
    ensures
        pids@.len() == 0 ==> r is Ok,
        pids@.len() > 0 ==> (r matches Err(e) && e@
            == "Close the existing official client before starting Codlet; running process IDs: "@ + pid_list(pids@)),
{
    if pids.len() == 0 {
        return Ok(());
    }
    let mut out = chars_of("Close the existing official client before starting Codlet; running process IDs: [");
    let mut i: usize = 0;
    proof {
        reveal_strlit("[");
        reveal_strlit("Close the existing official client before starting Codlet; running process IDs: [");
        reveal_strlit("Close the existing official client before starting Codlet; running process IDs: ");
        assert("Close the existing official client before starting Codlet; running process IDs: ["@
            =~= "Close the existing official client before starting Codlet; running process IDs: "@ + "["@);
        assert(pids@.take(0) =~= Seq::<u32>::empty());
    }
    while i < pids.len()
        invariant
            0 < pids@.len(),
            i <= pids@.len(),
            out@ == "Close the existing official client before starting Codlet; running process IDs: "@ + "["@ + pid_items(
                pids@.take(i as int),
            ),
        decreases pids@.len() - i,
    {
        let ghost before = out@;
        if i > 0 {
            push_str(&mut out, ", ");
        }
        push_decimal(&mut out, pids[i] as u64);
        proof {
            let t = pids@.take(i + 1);
            assert(t.drop_last() =~= pids@.take(i as int));
            assert(t.last() == pids@[i as int]);
            if i == 0 {
                assert(t.len() == 1);
                assert(pid_items(pids@.take(0)) =~= Seq::<char>::empty());
                assert(out@ =~= before + decimal(pids@[0] as nat));
            }
            assert(out@ =~= "Close the existing official client before starting Codlet; running process IDs: "@ + "["@
                + pid_items(t));
        }
        i = i + 1;
    }
    push_str(&mut out, "]");
    proof {
        assert(pids@.take(pids@.len() as int) =~= pids@);
        assert(out@ =~= "Close the existing official client before starting Codlet; running process IDs: "@ + pid_list(
            pids@,
        ));
    }
    Err(string_from_chars(out.as_slice()))
}

/// Refuses a launched process that is not the selected application's
/// executable running as the current user.
pub fn launched_identity(executable: &str, expected: &str, uid: u32, current_uid: u32) -> (r: Result<(), String>)
    ensures
        r is Ok <==> (executable@ == expected@ && uid == current_uid),
        r matches Err(e) ==> e@ == "Launched application identity does not match the selected bundle"@,
{
    if !str_equal(executable, expected) || uid != current_uid {
        return Err("Launched application identity does not match the selected bundle".to_string());
    }
    Ok(())
}

/// A spawn plan the owner accepts: absolute executable and working directory,
/// and at most 128 arguments.
pub open spec fn spec_plan_ok(executable: Seq<char>, cwd: Seq<char>, arguments: nat) -> bool {
    executable.len() > 0 && executable[0] == '/' && cwd.len() > 0 && cwd[0] == '/' && arguments <= MAX_PLAN_ARGUMENTS
}

/// Refuses a spawn plan the process owner must not run.
pub fn check_spawn_plan(executable: &str, cwd: &str, arguments: usize) -> (r: Result<(), String>)
    ensures
        r is Ok <==> spec_plan_ok(executable@, cwd@, arguments as nat),
        r matches Err(e) ==> e@ == "Invalid Core process plan"@,
{
    let e = chars_of(executable);
    let c = chars_of(cwd);
    if e.len() == 0 || e[0] != '/' || c.len() == 0 || c[0] != '/' || arguments > MAX_PLAN_ARGUMENTS {
        return Err("Invalid Core process plan".to_string());
    }
    Ok(())
}

/// The exit code the owner reports: the process's own code, or 128 plus the
/// signal that ended it.
pub open spec fn spec_owner_exit_code(code: Option<i32>, signal: Option<i32>) -> u32 {
    match code {
        Some(c) => c as u32,
        None => (128 + match signal {
            Some(s) => s,
            None => 0,
        }) as u32,
    }
}

/// The exit code the owner reports for a process that ended with `code`, or
/// by `signal`; signal numbers are below 128.
pub fn owner_exit_code(code: Option<i32>, signal: Option<i32>) -> (r: u32)
    requires
        signal matches Some(s) ==> 0 <= s < 128,
    ensures
        r == spec_owner_exit_code(code, signal),
{
    match code {
        Some(c) => c as u32,
        None => (128 + match signal {
            Some(s) => s,
            None => 0,
        }) as u32,
    }
}

/// What the doctor reports of the running Host for its registry.
#[derive(Debug, Clone, PartialEq, Eq)]
pub enum DoctorRuntime {
    /// No registry path is known, so no Host was asked.
    NotProbed,
    NotRunning,
    /// The Host reported its inspection, without Host-process execution.
    Inspected,
    /// The Host reported its inspection and its Host processes.
    ExecutionInspected,
    Unavailable { code: String, message: String },
}

/// What the doctor makes of the inspection query: `scope` is `None` without
/// a registry path, else whether its control scope could be formed; the
/// remaining arguments describe the Host's reply.
pub fn doctor_runtime(
    scope: Option<Result<(), String>>,
    status: crate::plugin_cli::ControlStatus,
    has_inspection: bool,
    has_hosts: bool,
    error: Option<String>,
) -> (r: DoctorRuntime)
    ensures
        match scope {
            None => r == DoctorRuntime::NotProbed,
            Some(Err(m)) => r matches DoctorRuntime::Unavailable { code, message } && code@ == "runtime_scope"@ && message@
                == m@,
            Some(Ok(())) => if status == crate::plugin_cli::ControlStatus::Inspected && has_inspection && has_hosts {
                r == DoctorRuntime::ExecutionInspected
            } else if status == crate::plugin_cli::ControlStatus::Inspected && has_inspection {
                r == DoctorRuntime::Inspected
            } else if status == crate::plugin_cli::ControlStatus::NotRunning {
                r == DoctorRuntime::NotRunning
            } else {
                r matches DoctorRuntime::Unavailable { code, message } && code@ == "runtime_unavailable"@ && message@
                    == match error {
                    Some(e) => e@,
                    None => "Runtime identity was not verified"@,
                }
            },
        },
{
    match scope {
        None => DoctorRuntime::NotProbed,
        Some(Err(m)) => DoctorRuntime::Unavailable { code: "runtime_scope".to_string(), message: m },
        Some(Ok(())) => {
            if status == crate::plugin_cli::ControlStatus::Inspected && has_inspection && has_hosts {
                DoctorRuntime::ExecutionInspected
            } else if status == crate::plugin_cli::ControlStatus::Inspected && has_inspection {
                DoctorRuntime::Inspected
            } else if status == crate::plugin_cli::ControlStatus::NotRunning {
                DoctorRuntime::NotRunning
            } else {
                let message = match error {
                    Some(e) => e,
                    None => "Runtime identity was not verified".to_string(),
                };
                DoctorRuntime::Unavailable { code: "runtime_unavailable".to_string(), message }
            }
        },
    }
}

} // verus!

