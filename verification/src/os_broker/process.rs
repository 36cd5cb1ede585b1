//! The process endpoint of the OS broker: the bounds of the arguments handed
//! to a granted executable and of the output it may produce.
use vstd::prelude::*;

use crate::os_broker::{invalid, OsBrokerError};
use crate::text::{chars_of, contains_char, has_char, utf8_len, utf8_length_upto};

verus! {

/// Most arguments of one run.
pub const MAX_PROCESS_ARGS: usize = 64;

/// Longest single argument, in bytes.
pub const MAX_ARG_BYTES: usize = 8192;

/// Most bytes of all arguments together.
pub const MAX_ARGS_TOTAL_BYTES: usize = 65536;

/// The bytes of all arguments together.
pub open spec fn args_bytes(args: Seq<Seq<char>>) -> int
    decreases args.len(),
{
    if args.len() == 0 {
        0
    } else {
        args_bytes(args.drop_last()) + utf8_len(args.last())
    }
}

/// Arguments a run accepts: at most 64, each at most 8192 bytes without NUL,
/// and at most 64 KiB together.
pub open spec fn spec_args_acceptable(args: Seq<Seq<char>>) -> bool {
    &&& args.len() <= MAX_PROCESS_ARGS
    &&& forall|i: int| 0 <= i < args.len() ==> utf8_len(#[trigger] args[i]) <= MAX_ARG_BYTES && !has_char(args[i], '\0')
    &&& args_bytes(args) <= MAX_ARGS_TOTAL_BYTES
}

proof fn lemma_args_bytes_grow(args: Seq<Seq<char>>, k: int)
    requires
        0 <= k <= args.len(),
    ensures
        args_bytes(args.take(k)) <= args_bytes(args),
    decreases args.len() - k,
{
    if k < args.len() {
        lemma_args_bytes_grow(args, k + 1);
        assert(args.take(k + 1).drop_last() =~= args.take(k));
    } else {
        assert(args.take(k) =~= args);
    }
}

/// Refuses arguments beyond the bounds of a run.
pub fn check_process_args(args: &Vec<String>) -> (r: Result<(), OsBrokerError>)
    ensures
        r is Ok <==> spec_args_acceptable(args.deep_view()),
        r matches Err(e) ==> e.code@ == "invalid_params"@ && e.message@
            == "process args must be at most 64 bounded strings without NUL"@,
{
    let ghost a = args.deep_view();
    if args.len() > MAX_PROCESS_ARGS {
        return Err(invalid("process args must be at most 64 bounded strings without NUL"));
    }
    let mut total: usize = 0;
    let mut i: usize = 0;
    proof {
        assert(a.take(0) =~= Seq::<Seq<char>>::empty());
    }
    while i < args.len()
        invariant
            i <= args@.len() <= MAX_PROCESS_ARGS,
            a == args.deep_view(),
            a.len() == args@.len(),
            forall|j: int| 0 <= j < i ==> utf8_len(#[trigger] a[j]) <= MAX_ARG_BYTES && !has_char(a[j], '\0'),
            total == args_bytes(a.take(i as int)),
            total <= MAX_ARGS_TOTAL_BYTES,
        decreases args@.len() - i,
    {
        let v = chars_of(args[i].as_str());
        proof {
            assert(a[i as int] == args@[i as int]@);
            assert(a.take(i + 1).drop_last() =~= a.take(i as int));
            assert(a.take(i + 1).last() == a[i as int]);
        }
        let n = match utf8_length_upto(v.as_slice(), MAX_ARG_BYTES) {
            Some(n) => n,
            None => {
                return Err(invalid("process args must be at most 64 bounded strings without NUL"));
            },
        };
        if contains_char(v.as_slice(), '\0') {
            return Err(invalid("process args must be at most 64 bounded strings without NUL"));
        }
        if n > MAX_ARGS_TOTAL_BYTES - total {
            proof {
                lemma_args_bytes_grow(a, i + 1);
            }
            return Err(invalid("process args must be at most 64 bounded strings without NUL"));
        }
        total = total + n;
        i = i + 1;
    }
    proof {
        assert(a.take(a.len() as int) =~= a);
    }
    Ok(())
}

/// Refuses output once what was read from stdout and stderr together passes
/// the limit.
pub fn check_combined_output(stdout_bytes: usize, stderr_bytes: usize, limit: usize) -> (r: Result<(), OsBrokerError>)
    ensures
        r is Ok <==> stdout_bytes + stderr_bytes <= limit,
        r matches Err(e) ==> e.code@ == "response_too_large"@ && e.message@
            == "combined process output exceeds its byte limit"@,
{
    if stdout_bytes > limit || stderr_bytes > limit - stdout_bytes {
        return Err(OsBrokerError::new("response_too_large", "combined process output exceeds its byte limit"));
    }
    Ok(())
}

} // verus!
