//! The supervisor-call path: recognizing a capability invocation, the words
//! it returns to the caller, and what happens when it blocks — the caller
//! is parked and the next runnable thread resumes.
//!
//! The platform layer reads the syndrome and the caller's registers, runs
//! the decisions here, and performs what they return: it writes the reply
//! words into the saved frame, or switches stacks to the thread chosen.

use vstd::prelude::*;
use crate::access::ObjectId;
use crate::completion::PendingState;
use crate::dispatch::{handle_cap_invoke, invoke_done, invoke_wakes, wakes_fit};
use crate::error::{spec_code, CapError};
use crate::invoke::InvokeOutcome;
use crate::key::{wire_key, RawKey};
use crate::nucleus::Nucleus;
use crate::object_pool::SlotState;
use crate::sched::Scheduler;
use crate::syscall_status;
use crate::thread::{ExecutionContext, Thread};
use crate::waiter_queues::{lemma_switch_keeps_queues, queues_waiting};

verus! {

/// The exception class of an `SVC` from AArch64 state.
pub const EC_SVC64: u64 = 0x15;

/// Whether an exception syndrome reports an `SVC` from AArch64 state:
/// its exception class, bits `[31:26]`, is [`EC_SVC64`].
pub open spec fn spec_is_svc64(esr: u64) -> bool {
    (esr >> 26u64) & 0x3Fu64 == EC_SVC64
}

/// See [`spec_is_svc64`].
pub fn is_svc64(esr: u64) -> (r: bool)
    ensures
        r == spec_is_svc64(esr),
{
    (esr >> 26u64) & 0x3F == EC_SVC64
}

/// What the exception path does once an invocation has run.
#[derive(Clone, Copy, Debug, PartialEq, Eq, Structural)]
pub enum SyscallAction {
    /// Write `x0`, `x1`, `x2` into the caller's saved frame and return to
    /// it.
    Reply { x0: u64, x1: u64, x2: u64 },
    /// The caller blocked on `record`: park it and switch away.
    Park { record: ObjectId },
}

/// The action for an invocation outcome: a completion replies success and
/// its two words, a refusal replies the error's words, a block parks.
pub open spec fn action_of(r: Result<InvokeOutcome, CapError>) -> SyscallAction {
    match r {
        Ok(InvokeOutcome::Complete((v0, v1))) => SyscallAction::Reply { x0: syscall_status::SUCCESS, x1: v0, x2: v1 },
        Ok(InvokeOutcome::Blocked(record)) => SyscallAction::Park { record },
        Err(e) => {
            let (x0, x1, x2) = spec_code(e);
            SyscallAction::Reply { x0, x1, x2 }
        },
    }
}

/// The invocation registers: `x0` the invoked key's wire form, `x1` the
/// operation, `x2`..`x7` the arguments.
pub open spec fn invocation_args(gpr: Seq<u64>) -> Seq<u64> {
    gpr.subrange(2, 8)
}

/// Whether the runnable queue has room for every thread the invocation in
/// `gpr` would wake: what [`cap_invoke`] needs.
pub fn syscall_wakes_fit(nucleus: &Nucleus, gpr: &[u64; 8]) -> (r: bool)
    requires
        nucleus.wf(),
    ensures
        r == (nucleus.scheduler@.len() + invoke_wakes(nucleus, wire_key(gpr@[0]), gpr@[1], invocation_args(gpr@))
            <= Scheduler::CAPACITY),
{
    let args: [u64; 6] = [gpr[2], gpr[3], gpr[4], gpr[5], gpr[6], gpr[7]];
    assert(args@ =~= invocation_args(gpr@));
    wakes_fit(nucleus, RawKey::from_wire(gpr[0]), gpr[1], &args)
}

/// Run the capability invocation whose registers are `gpr` (`x0`..`x7`)
/// for the running thread, and decide what the exception path does next.
/// The runnable queue must have room for every thread it wakes (see
/// [`syscall_wakes_fit`]).
pub fn cap_invoke(nucleus: &mut Nucleus, gpr: &[u64; 8]) -> (r: SyscallAction)
    requires
        old(nucleus).wf(),
        old(nucleus).scheduler@.len() + invoke_wakes(old(nucleus), wire_key(gpr@[0]), gpr@[1], invocation_args(gpr@))
            <= Scheduler::CAPACITY,
    ensures
        final(nucleus).wf(),
        exists|res: Result<InvokeOutcome, CapError>|
            invoke_done(old(nucleus), final(nucleus), wire_key(gpr@[0]), gpr@[1], invocation_args(gpr@), res)
            && r == action_of(res),
        queues_waiting(old(nucleus)) ==> queues_waiting(final(nucleus)),
{
    let key = RawKey::from_wire(gpr[0]);
    let op = gpr[1];
    let args: [u64; 6] = [gpr[2], gpr[3], gpr[4], gpr[5], gpr[6], gpr[7]];
    assert(args@ =~= invocation_args(gpr@));
    let res = handle_cap_invoke(nucleus, key, op, &args);
    let action = match res {
        Ok(InvokeOutcome::Complete((v0, v1))) => SyscallAction::Reply { x0: syscall_status::SUCCESS, x1: v0, x2: v1 },
        Ok(InvokeOutcome::Blocked(record)) => SyscallAction::Park { record },
        Err(e) => {
            let (x0, x1, x2) = e.code();
            SyscallAction::Reply { x0, x1, x2 }
        },
    };
    assert(action == action_of(res));
    action
}

/// Where the next thread resumes.
#[derive(Clone, Copy, Debug, PartialEq, Eq, Structural)]
pub enum Resume {
    /// Restore the saved frame at `frame_addr`, after writing the blocked
    /// invocation's outcome into its `x0`, `x1`, `x2`.
    Parked { frame_addr: u64, x0: u64, x1: u64, x2: u64 },
    /// Start the thread at `pc` on the kernel stack whose top is
    /// `stack_top`.
    Start { pc: u64, stack_top: u64 },
}

/// The inconsistencies that stop the kernel when it parks the caller.
#[derive(Clone, Copy, Debug, PartialEq, Eq, Structural)]
pub enum SwitchFault {
    /// A blocked invocation without a running thread.
    NoCurrentThread,
    /// The running thread is not live.
    CurrentNotLive,
    /// Every thread is blocked and nothing can wake one.
    NothingRunnable,
    /// The runnable thread is not live.
    NextNotLive,
    /// The runnable thread is already executing.
    AlreadyRunning,
    /// The runnable thread's record has not reached its terminal
    /// transition.
    RecordWaiting,
    /// The runnable thread's record was cancelled.
    RecordCancelled,
    /// The runnable thread's record identity is stale.
    StaleRecord,
}

/// Whether pool slot `i` holds a live thread.
pub open spec fn thread_live(n: &Nucleus, i: int) -> bool {
    i < n.pools.threads.capacity() && n.pools.threads.meta()[i].state == SlotState::Live
}

/// The thread pool's objects once the running thread is parked on
/// `record` with its frame at `frame_addr`.
pub open spec fn parked_threads(n: &Nucleus, frame_addr: u64, record: ObjectId) -> Seq<Option<Thread>> {
    let cur = n.current_thread->Some_0 as int;
    n.pools.threads.objects().update(cur, Some(Thread {
        context: ExecutionContext::Parked { frame_addr, record },
        ..n.pools.threads.objects()[cur].unwrap()
    }))
}

/// What parking the running thread decides: the next runnable thread, the
/// front of the runnable queue, and where it resumes — a parked thread
/// with its completed record's words, an unstarted one at its entry — or
/// the inconsistency that stops the kernel.
pub open spec fn switch_plan(n: &Nucleus, frame_addr: u64, record: ObjectId) -> Result<(u16, Resume), SwitchFault> {
    match n.current_thread {
        None => Err(SwitchFault::NoCurrentThread),
        Some(cur) => if !thread_live(n, cur as int) {
            Err(SwitchFault::CurrentNotLive)
        } else if n.scheduler@.len() == 0 {
            Err(SwitchFault::NothingRunnable)
        } else {
            let next = n.scheduler@[0];
            if !thread_live(n, next as int) {
                Err(SwitchFault::NextNotLive)
            } else {
                match parked_threads(n, frame_addr, record)[next as int].unwrap().context {
                    ExecutionContext::Parked { frame_addr: fa, record: rec } => match n.pending.live(rec) {
                        None => Err(SwitchFault::StaleRecord),
                        Some(inv) => match inv.state {
                            PendingState::Completed { status, result0, result1 } =>
                                Ok((next, Resume::Parked { frame_addr: fa, x0: status, x1: result0, x2: result1 })),
                            PendingState::Cancelled => Err(SwitchFault::RecordCancelled),
                            PendingState::Waiting => Err(SwitchFault::RecordWaiting),
                        },
                    },
                    ExecutionContext::NotStarted { pc, stack_top } => Ok((next, Resume::Start { pc, stack_top })),
                    ExecutionContext::Running => Err(SwitchFault::AlreadyRunning),
                }
            }
        },
    }
}

/// The nucleus after parking the running thread and switching to `next`:
/// the parked thread records its frame and record, `next` leaves the
/// runnable queue and runs, and a resumed thread's record is released.
pub open spec fn switched(a: &Nucleus, b: &Nucleus, frame_addr: u64, record: ObjectId, next: u16) -> bool {
    let objs = parked_threads(a, frame_addr, record);
    let t = objs[next as int].unwrap();
    &&& b.pools.threads.objects() == objs.update(next as int, Some(Thread { context: ExecutionContext::Running, ..t }))
    &&& b.pools.threads.meta() == a.pools.threads.meta()
    &&& b.pools.threads.tag() == a.pools.threads.tag()
    &&& b.pools.threads.capacity() == a.pools.threads.capacity()
    &&& b.pools.threads.next_free() == a.pools.threads.next_free()
    &&& b.pools.threads.spec_len() == a.pools.threads.spec_len()
    &&& b.current_thread == Some(next as u32)
    &&& b.scheduler@ == a.scheduler@.drop_first()
    &&& match t.context {
        ExecutionContext::Parked { record: rec, .. } => {
            &&& b.pending.records() == a.pending.records().update(rec.index as int, None)
            &&& b.pending.generations() == a.pending.generations()
            &&& b.pending.next_free() == a.pending.next_free()
        },
        _ => b.pending == a.pending,
    }
    &&& b.pools.notifications == a.pools.notifications
    &&& b.pools.event_counts == a.pools.event_counts
    &&& b.pools.arch == a.pools.arch
    &&& b.tables == a.tables
    &&& b.phys == a.phys
    &&& b.dcb_pages == a.dcb_pages
    &&& b.hw == a.hw
}

/// Park the running thread, whose invocation blocked on `record` with its
/// saved frame at `frame_addr`, and switch to the next runnable thread
/// (see [`switch_plan`] and [`switched`]). A fault leaves a nucleus the
/// kernel does not continue with.
pub fn park_and_switch(nucleus: &mut Nucleus, frame_addr: u64, record: ObjectId) -> (r: Result<Resume, SwitchFault>)
    requires
        old(nucleus).wf(),
    ensures
        final(nucleus).wf(),
        match switch_plan(old(nucleus), frame_addr, record) {
            Err(f) => r == Err::<Resume, SwitchFault>(f),
            Ok((next, resume)) => r == Ok::<Resume, SwitchFault>(resume)
                && switched(old(nucleus), final(nucleus), frame_addr, record, next),
        },
        r is Ok && queues_waiting(old(nucleus)) ==> queues_waiting(final(nucleus)),
{
    let current = match nucleus.current_thread {
        None => {
            return Err(SwitchFault::NoCurrentThread);
        },
        Some(c) => c,
    };
    match nucleus.pools.threads.get_live_mut(current as usize) {
        None => {
            return Err(SwitchFault::CurrentNotLive);
        },
        Some(t) => {
            t.context = ExecutionContext::Parked { frame_addr, record };
        },
    }
    let ghost parked = *nucleus;
    let next = match nucleus.scheduler.pop() {
        None => {
            return Err(SwitchFault::NothingRunnable);
        },
        Some(n) => n,
    };
    nucleus.current_thread = Some(next as u32);
    let context = match nucleus.pools.threads.get_live(next as usize) {
        None => {
            return Err(SwitchFault::NextNotLive);
        },
        Some(t) => t.context,
    };
    let resume = match context {
        ExecutionContext::Parked { frame_addr: fa, record: rec } => {
            let (x0, x1, x2) = match nucleus.pending.state(rec) {
                Ok(PendingState::Completed { status, result0, result1 }) => (status, result0, result1),
                Ok(PendingState::Cancelled) => {
                    return Err(SwitchFault::RecordCancelled);
                },
                Ok(PendingState::Waiting) => {
                    return Err(SwitchFault::RecordWaiting);
                },
                Err(_) => {
                    return Err(SwitchFault::StaleRecord);
                },
            };
            if nucleus.pending.release(rec).is_err() {
                return Err(SwitchFault::StaleRecord);
            }
            Resume::Parked { frame_addr: fa, x0, x1, x2 }
        },
        ExecutionContext::NotStarted { pc, stack_top } => Resume::Start { pc, stack_top },
        ExecutionContext::Running => {
            return Err(SwitchFault::AlreadyRunning);
        },
    };
    match nucleus.pools.threads.get_live_mut(next as usize) {
        None => {
            return Err(SwitchFault::NextNotLive);
        },
        Some(t) => {
            t.context = ExecutionContext::Running;
        },
    }
    proof {
        assert(nucleus.pools.threads.objects() =~= parked_threads(old(nucleus), frame_addr, record).update(
            next as int, Some(Thread { context: ExecutionContext::Running,
                ..parked_threads(old(nucleus), frame_addr, record)[next as int].unwrap() })));
        if queues_waiting(old(nucleus)) {
            lemma_switch_keeps_queues(old(nucleus), nucleus, frame_addr, record);
        }
    }
    Ok(resume)
}

} // verus!
