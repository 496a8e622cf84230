//! Resource ceilings for a native run: the hard limit that goes with each
//! ceiling, whether this user can set it at all, the exit code a run
//! reports, and what the supervisor does at each look at a running group.
//! Setting the limits, waiting and killing are the host's.

use vstd::prelude::*;
use crate::text::{decimal, owned, push_decimal, push_str};
use crate::request::{CPU_EXCEEDED, MEMORY_EXCEEDED, TIMED_OUT};

verus! {

/// One MiB.
pub const MIB: u64 = 1048576;

/// One rlimit a request asks for: the kernel's resource id, whether it is
/// the CPU-time limit, the value in the kernel's unit, and the flag that
/// asked.
pub struct Ceiling {
    pub resource: i32,
    pub cpu: bool,
    pub value: u64,
    pub flag: String,
}

/// The hard limit that goes with a soft one: one second above it for CPU
/// (so both platforms end the command with SIGXCPU at the soft limit, and
/// kill one that ignores it a second later), the same value otherwise.
pub open spec fn hard_of(c: Ceiling) -> int {
    if c.cpu { c.value + 1 } else { c.value as int }
}

/// A CPU ceiling's hard limit fits the kernel's counter.
pub open spec fn settable(c: Ceiling) -> bool {
    !c.cpu || c.value < u64::MAX
}

/// The hard limit that goes with a ceiling.
pub fn hard_limit(c: &Ceiling) -> (r: u64)
    requires
        settable(*c),
    ensures
        r == hard_of(*c),
{
    if c.cpu { c.value + 1 } else { c.value }
}

/// Why one ceiling cannot be set, given this user's current hard limit for
/// it (`Ok(None)` when unlimited) or why that could not be read.
pub open spec fn ceiling_refusal(c: Ceiling, current: Result<Option<u64>, String>) -> Option<Seq<char>> {
    match current {
        Err(e) => Some(c.flag@ + " cannot be applied: "@ + e@),
        Ok(None) => None,
        Ok(Some(max)) => if hard_of(c) > max {
            Some(c.flag@ + " asks for "@ + decimal(c.value as nat) + " but this user's hard limit is "@ + decimal(
                max as nat,
            ) + "; an unprivileged process can only lower it"@)
        } else {
            None
        },
    }
}

/// The first ceiling of a list that cannot be set, and why.
pub open spec fn first_refusal(cs: Seq<Ceiling>, current: Seq<Result<Option<u64>, String>>) -> Option<Seq<char>>
    decreases cs.len(),
{
    if cs.len() == 0 || current.len() == 0 {
        None
    } else {
        match ceiling_refusal(cs[0], current[0]) {
            Some(m) => Some(m),
            None => first_refusal(cs.drop_first(), current.drop_first()),
        }
    }
}

/// Why a ceiling cannot be set, if one cannot: an unprivileged process may
/// only lower a hard limit, so a ceiling above this user's is one the kernel
/// would refuse; better said here, with the number, than as a bare
/// "Operation not permitted" from the spawn. `current` holds this user's
/// hard limit for each ceiling, or why it could not be read.
pub fn unsettable_ceiling(ceilings: &Vec<Ceiling>, current: &Vec<Result<Option<u64>, String>>) -> (r: Option<String>)
    requires
        current@.len() == ceilings@.len(),
        forall|i: int| 0 <= i < ceilings@.len() ==> settable(#[trigger] ceilings@[i]),
    ensures
        match first_refusal(ceilings@, current@) {
            Some(m) => r is Some && r->Some_0@ == m,
            None => r is None,
        },
{
    let mut i: usize = 0;
    assert(ceilings@.skip(0) =~= ceilings@);
    assert(current@.skip(0) =~= current@);
    while i < ceilings.len()
        invariant
            i <= ceilings@.len(),
            current@.len() == ceilings@.len(),
            forall|k: int| 0 <= k < ceilings@.len() ==> settable(#[trigger] ceilings@[k]),
            first_refusal(ceilings@, current@) == first_refusal(ceilings@.skip(i as int), current@.skip(i as int)),
        decreases ceilings.len() - i,
    {
        let c = &ceilings[i];
        proof {
            assert(ceilings@.skip(i as int)[0] == ceilings@[i as int]);
            assert(current@.skip(i as int)[0] == current@[i as int]);
            assert(ceilings@.skip(i as int).drop_first() =~= ceilings@.skip(i + 1));
            assert(current@.skip(i as int).drop_first() =~= current@.skip(i + 1));
        }
        match &current[i] {
            Err(e) => {
                let mut m = owned(c.flag.as_str());
                push_str(&mut m, " cannot be applied: ");
                push_str(&mut m, e.as_str());
                return Some(m);
            },
            Ok(None) => {},
            Ok(Some(max)) => {
                if hard_limit(c) > *max {
                    let mut m = owned(c.flag.as_str());
                    push_str(&mut m, " asks for ");
                    push_decimal(&mut m, c.value);
                    push_str(&mut m, " but this user's hard limit is ");
                    push_decimal(&mut m, *max);
                    push_str(&mut m, "; an unprivileged process can only lower it");
                    return Some(m);
                }
            },
        }
        i = i + 1;
    }
    assert(ceilings@.skip(i as int).len() == 0);
    None
}

/// A child's exit code, or 128 plus the signal that ended it, as a shell
/// would report it.
pub fn exit_code(code: Option<i32>, signal: Option<i32>) -> (r: i64)
    ensures
        r == match code {
            Some(c) => c as int,
            None => 128 + match signal {
                Some(s) => s as int,
                None => 0,
            },
        },
{
    match code {
        Some(c) => c as i64,
        None => 128 + match signal {
            Some(s) => s as i64,
            None => 0,
        },
    }
}

/// Which ceiling a group has passed, if any, as the exit code to report:
/// CPU time (in nanoseconds) at or past its ceiling in seconds first, then
/// the resident footprint at or past its ceiling in bytes; a ceiling of 0
/// is none.
pub fn ceiling_passed(cpu_nanos: u128, memory_bytes: u64, max_cpu: u64, max_memory: u64) -> (r: Option<i64>)
    ensures
        max_cpu > 0 && cpu_nanos >= max_cpu * 1000000000 ==> r == Some(CPU_EXCEEDED),
        !(max_cpu > 0 && cpu_nanos >= max_cpu * 1000000000) && max_memory > 0 && memory_bytes >= max_memory ==> r
            == Some(MEMORY_EXCEEDED),
        !(max_cpu > 0 && cpu_nanos >= max_cpu * 1000000000) && !(max_memory > 0 && memory_bytes >= max_memory) ==> r
            is None,
{
    if max_cpu > 0 && cpu_nanos >= (max_cpu as u128) * 1000000000 {
        return Some(CPU_EXCEEDED);
    }
    if max_memory > 0 && memory_bytes >= max_memory {
        return Some(MEMORY_EXCEEDED);
    }
    None
}

/// Whether the supervisor must look at a running group at all: there is a
/// deadline, or (where the kernel does not enforce them, on macOS) a CPU or
/// memory ceiling to watch.
pub fn must_poll(timeout: u64, watched_platform: bool, max_cpu: u64, max_memory: u64) -> (r: bool)
    ensures
        r == (timeout > 0 || (watched_platform && (max_cpu > 0 || max_memory > 0))),
{
    timeout > 0 || (watched_platform && (max_cpu > 0 || max_memory > 0))
}

/// What one look at a running group decides: the code it exited with
/// (nothing to kill); 124 at the deadline, or the code of a passed ceiling,
/// with the group to be killed; nothing yet.
pub fn poll_outcome(exited: Option<i64>, past_deadline: bool, passed: Option<i64>) -> (r: Option<(i64, bool)>)
    ensures
        exited is Some ==> r == Some((exited->Some_0, false)),
        exited is None && past_deadline ==> r == Some((TIMED_OUT, true)),
        exited is None && !past_deadline && passed is Some ==> r == Some((passed->Some_0, true)),
        exited is None && !past_deadline && passed is None ==> r is None,
{
    match exited {
        Some(code) => Some((code, false)),
        None => if past_deadline {
            Some((TIMED_OUT, true))
        } else {
            match passed {
                Some(code) => Some((code, true)),
                None => None,
            }
        },
    }
}

/// A memory ceiling in bytes, saturating.
pub fn memory_bytes(max_memory_mb: u64) -> (r: u64)
    ensures
        r == (if max_memory_mb * MIB > u64::MAX { u64::MAX as int } else { max_memory_mb * MIB }),
{
    if max_memory_mb > u64::MAX / MIB {
        u64::MAX
    } else {
        assert(max_memory_mb * MIB <= u64::MAX) by (nonlinear_arith)
            requires
                max_memory_mb <= u64::MAX / MIB,
                MIB == 1048576,
        ;
        max_memory_mb * MIB
    }
}

} // verus!
