//! Who waits where: the order that every trap keeps among the endpoints.
//!
//! A task that waits on an endpoint is Blocked, and it waits in one
//! place only: in one slot of one sender queue, or in one receiver slot.
//! The running task waits nowhere.  The laws below show that a kernel
//! state that has this order keeps it through every syscall, fault, tick
//! and interrupt.

use vstd::prelude::*;
use crate::exception::{
    heartbeat_recorded,
    index_of,
    notify_awaited,
    svc_allowed,
    svc_frame,
    svc_state,
    waiting_for_notification,
    TrapFrame,
};
use crate::kernel::cap::{
    covers,
    lemma_covers_is_subset,
    required_bits,
    syscall_recognized,
    CapBits,
    CAP_IPC_RECV_EP0,
    CAP_IPC_RECV_EP1,
    CAP_IPC_RECV_EP2,
    CAP_IPC_RECV_EP3,
    CAP_IPC_SEND_EP0,
    CAP_IPC_SEND_EP1,
    CAP_IPC_SEND_EP2,
    CAP_IPC_SEND_EP3,
    CAP_WAIT_NOTIFY,
};
use crate::kernel::ipc::{
    awaiting,
    call_made,
    called,
    delivered,
    enqueued,
    frame_after_recv,
    lemma_with_message,
    lemma_without_contains,
    received,
    recvd,
    saved,
    sent,
    waits_nowhere,
    without,
    EndpointView,
    MAX_ENDPOINTS,
    MAX_WAITERS,
    MSG_REGS,
};
use crate::kernel::sched::{
    cleaned_up,
    exit_of,
    fault_of,
    faulted,
    any_eligible,
    candidates,
    eligibility,
    lemma_scheduled_task,
    next_task,
    scheduled,
    TaskState,
    Tcb,
    IDLE_TASK_ID,
    NUM_TASKS,
};
use crate::kernel::state::KernelView;
use crate::kernel::timer::{tick_accounted, tick_counted};

verus! {

/// The capabilities that let a task block: to send or receive on some
/// endpoint, or to wait for a notification.
pub const BLOCKING_CAPS: CapBits = CAP_IPC_SEND_EP0 | CAP_IPC_RECV_EP0 | CAP_IPC_SEND_EP1
    | CAP_IPC_RECV_EP1 | CAP_IPC_SEND_EP2 | CAP_IPC_RECV_EP2 | CAP_IPC_SEND_EP3 | CAP_IPC_RECV_EP3
    | CAP_WAIT_NOTIFY;

/// A task that waits on an endpoint: Blocked, and not also waiting for
/// a notification.
pub open spec fn parked(t: Tcb) -> bool {
    t.state == TaskState::Blocked && !t.notify_waiting
}

/// A task that waits to send: parked, and waiting for nobody's reply.
pub open spec fn queued(t: Tcb) -> bool {
    parked(t) && t.awaits.is_none()
}

/// A task is settled: if it can run it does not wait for a
/// notification, and if it waits for a reply it is parked.
pub open spec fn settled(t: Tcb) -> bool {
    &&& t.state == TaskState::Ready || t.state == TaskState::Running ==> !t.notify_waiting
    &&& t.awaits.is_some() ==> parked(t)
}

/// No task waits in two places: no sender queue holds a task twice, no
/// two sender queues and no two receiver slots hold the same task, and
/// no task waits both to send and to receive.
pub open spec fn one_place_each(eps: Seq<EndpointView>) -> bool {
    &&& forall|e: int| 0 <= e < eps.len() ==> (#[trigger] eps[e]).senders.no_duplicates()
    &&& forall|e1: int, e2: int|
        0 <= e1 < eps.len() && 0 <= e2 < eps.len() && e1 != e2
            ==> (#[trigger] eps[e1]).senders.disjoint(
            (#[trigger] eps[e2]).senders,
        )
    &&& forall|e1: int, e2: int|
        0 <= e1 < eps.len() && 0 <= e2 < eps.len() && e1 != e2
            && (#[trigger] eps[e1]).receiver.is_some()
            ==> eps[e1].receiver != (#[trigger] eps[e2]).receiver
    &&& forall|e1: int, e2: int, j: int|
        0 <= e1 < eps.len() && 0 <= e2 < eps.len() && 0 <= j < eps[e2].senders.len() ==> (
        #[trigger] eps[e1]).receiver != Some(#[trigger] eps[e2].senders[j])
}

/// Every task that waits on an endpoint is parked, and a task that
/// waits to send waits for nobody's reply.
pub open spec fn waiters_parked(k: KernelView) -> bool {
    &&& forall|e: int, j: int|
        0 <= e < k.endpoints.len() && 0 <= j < k.endpoints[e].senders.len() ==> queued(
            k.tcbs[#[trigger] k.endpoints[e].senders[j] as int],
        )
    &&& forall|e: int|
        0 <= e < k.endpoints.len() ==> ((#[trigger] k.endpoints[e]).receiver matches Some(r)
            ==> parked(k.tcbs[r as int]))
}

/// Every task is settled: a task that can run does not wait for a
/// notification, and only a parked task waits for a reply.
pub open spec fn runnable_not_waiting(k: KernelView) -> bool {
    forall|t: int| 0 <= t < NUM_TASKS ==> settled(#[trigger] k.tcbs[t])
}

/// The idle task never blocks: it holds no capability that would let
/// it, and it is neither Blocked nor waiting for a notification.
pub open spec fn idle_never_blocks(k: KernelView) -> bool {
    &&& k.tcbs[IDLE_TASK_ID as int].caps & BLOCKING_CAPS == 0
    &&& k.tcbs[IDLE_TASK_ID as int].state != TaskState::Blocked
    &&& !k.tcbs[IDLE_TASK_ID as int].notify_waiting
}

/// The order among the waiting tasks, but for the state of the current
/// task: this is what holds while a trap is being handled.
pub open spec fn orderly_within_trap(k: KernelView) -> bool {
    &&& k.wf()
    &&& k.senders_in_range()
    &&& one_place_each(k.endpoints)
    &&& waiters_parked(k)
    &&& runnable_not_waiting(k)
    &&& idle_never_blocks(k)
}

/// The order among the waiting tasks: what holds whenever a task runs.
pub open spec fn orderly(k: KernelView) -> bool {
    &&& orderly_within_trap(k)
    &&& k.tcbs[k.current as int].state == TaskState::Running
}

/// In an orderly state a task waits in at most one slot of the sender
/// queues and in at most one receiver slot.
pub proof fn lemma_at_most_one_slot(
    k: KernelView,
    t: usize,
    e1: int,
    j1: int,
    e2: int,
    j2: int,
)
    requires
        orderly_within_trap(k),
        0 <= e1 < MAX_ENDPOINTS,
        0 <= e2 < MAX_ENDPOINTS,
    ensures
        0 <= j1 < k.endpoints[e1].senders.len() && 0 <= j2 < k.endpoints[e2].senders.len()
            && k.endpoints[e1].senders[j1] == t && k.endpoints[e2].senders[j2] == t ==> e1 == e2
            && j1 == j2,
        k.endpoints[e1].receiver == Some(t) && k.endpoints[e2].receiver == Some(t) ==> e1 == e2,
        0 <= j1 < k.endpoints[e1].senders.len() && k.endpoints[e1].senders[j1] == t
            ==> k.endpoints[e2].receiver != Some(t),
{
    let eps = k.endpoints;
    if 0 <= j1 < eps[e1].senders.len() && 0 <= j2 < eps[e2].senders.len() && eps[e1].senders[j1]
        == t && eps[e2].senders[j2] == t {
        if e1 != e2 {
            assert(eps[e1].senders.disjoint(eps[e2].senders));
        } else {
            assert(eps[e1].senders.no_duplicates());
        }
    }
}

/// In an orderly state the running task waits nowhere.
pub proof fn lemma_running_waits_nowhere(k: KernelView)
    requires
        orderly(k),
    ensures
        crate::kernel::ipc::waits_nowhere(k.endpoints, k.current),
{
    assert forall|e: int| 0 <= e < k.endpoints.len()
        implies !(#[trigger] k.endpoints[e]).senders.contains(
        k.current,
    ) && k.endpoints[e].receiver != Some(k.current) by {
        if k.endpoints[e].senders.contains(k.current) {
            let j = choose|j: int|
                0 <= j < k.endpoints[e].senders.len() && k.endpoints[e].senders[j] == k.current;
            assert(queued(k.tcbs[k.endpoints[e].senders[j] as int]));
        }
    }
}

/// A scheduling decision restores the order: from a state that is
/// orderly but for the current task, it leads to an orderly state.
pub proof fn lemma_schedule_restores_order(k: KernelView, frame: TrapFrame)
    requires
        orderly_within_trap(k),
    ensures
        orderly(scheduled(k, frame)),
{
    let s = scheduled(k, frame);
    let c = candidates(k, frame);
    let n = next_task(k, frame);
    lemma_scheduled_task(k, frame);
    assert(s.endpoints == k.endpoints);
    // Who is parked stays parked.
    assert forall|t: int| 0 <= t < NUM_TASKS && parked(k.tcbs[t]) implies parked(s.tcbs[t]) by {
        assert(parked(c[t]));
    }
    assert(waiters_parked(s)) by {
        assert forall|e: int, j: int|
            0 <= e < s.endpoints.len() && 0 <= j < s.endpoints[e].senders.len()
                implies queued(s.tcbs[#[trigger] s.endpoints[e].senders[j] as int],) by {
            assert(queued(k.tcbs[k.endpoints[e].senders[j] as int]));
        }
        assert forall|e: int| 0 <= e < s.endpoints.len()
            implies ((#[trigger] s.endpoints[e]).receiver matches Some(
            r,
        ) ==> parked(s.tcbs[r as int])) by {
            assert(k.endpoints[e].receiver matches Some(r) ==> parked(k.tcbs[r as int]));
        }
    }
    assert(runnable_not_waiting(s)) by {
        assert forall|t: int| 0 <= t < NUM_TASKS implies settled(#[trigger] s.tcbs[t]) by {
            assert(settled(k.tcbs[t]));
            assert(settled(c[t]));
        }
    }
}

/// Taking a task out of a queue leaves no task twice in it.
pub proof fn lemma_without_no_duplicates(s: Seq<usize>, task: usize)
    requires
        s.no_duplicates(),
    ensures
        without(s, task).no_duplicates(),
    decreases s.len(),
{
    reveal(Seq::filter);
    if s.len() > 0 {
        let rest = s.drop_last();
        lemma_without_no_duplicates(rest, task);
        let f = without(rest, task);
        if s.last() != task {
            lemma_without_contains(rest, task);
            assert(!rest.contains(s.last())) by {
                if rest.contains(s.last()) {
                    let i = choose|i: int| 0 <= i < rest.len() && rest[i] == s.last();
                    assert(s[i] == s[s.len() - 1]);
                }
            }
            assert(!f.contains(s.last()));
            assert(without(s, task) == f.push(s.last()));
            assert forall|i: int, j: int|
                0 <= i < f.len() + 1 && 0 <= j < f.len() + 1 && i != j implies f.push(s.last())[i]
                != f.push(s.last())[j] by {
                if i == f.len() {
                    assert(f.contains(f[j]));
                } else if j == f.len() {
                    assert(f.contains(f[i]));
                }
            }
        } else {
            assert(without(s, task) == f);
        }
    }
}

/// The current task joining a sender queue keeps the order, but for
/// the state of the current task, which is Blocked now.
pub proof fn lemma_enqueue_keeps_order(k: KernelView, frame: TrapFrame, ep: int)
    requires
        orderly(k),
        0 <= ep < MAX_ENDPOINTS,
        k.endpoints[ep].senders.len() < MAX_WAITERS,
        k.current != IDLE_TASK_ID,
    ensures
        orderly_within_trap(enqueued(saved(k, frame), ep)),
{
    let q = enqueued(saved(k, frame), ep);
    let cur = k.current;
    lemma_running_waits_nowhere(k);
    assert forall|e: int| 0 <= e < q.endpoints.len() implies q.endpoints[e] == (if e == ep {
        EndpointView { senders: k.endpoints[ep].senders.push(cur), ..k.endpoints[ep] }
    } else {
        k.endpoints[e]
    }) by {}
    assert forall|e: int, j: int|
        0 <= e < MAX_ENDPOINTS && 0 <= j < k.endpoints[e].senders.len()
            implies k.endpoints[e].senders[j]
        != cur by {
        assert(k.endpoints[e].senders.contains(k.endpoints[e].senders[j]));
    }
    assert(one_place_each(q.endpoints)) by {
        assert forall|e: int| 0 <= e < q.endpoints.len()
            implies (#[trigger] q.endpoints[e]).senders.no_duplicates() by {
            assert(k.endpoints[e].senders.no_duplicates());
        }
        assert forall|e1: int, e2: int|
            0 <= e1 < q.endpoints.len() && 0 <= e2 < q.endpoints.len() && e1 != e2 implies (
        #[trigger] q.endpoints[e1]).senders.disjoint((#[trigger] q.endpoints[e2]).senders) by {
            assert(k.endpoints[e1].senders.disjoint(k.endpoints[e2].senders));
        }
        assert forall|e1: int, e2: int|
            0 <= e1 < q.endpoints.len() && 0 <= e2 < q.endpoints.len() && e1 != e2 && (
            #[trigger] q.endpoints[e1]).receiver.is_some() implies q.endpoints[e1].receiver != (
        #[trigger] q.endpoints[e2]).receiver by {
            assert(k.endpoints[e1].receiver.is_some() ==> k.endpoints[e1].receiver
                != k.endpoints[e2].receiver);
        }
        assert forall|e1: int, e2: int, j: int|
            0 <= e1 < q.endpoints.len() && 0 <= e2 < q.endpoints.len() && 0 <= j
                < q.endpoints[e2].senders.len() implies (#[trigger] q.endpoints[e1]).receiver
            != Some(#[trigger] q.endpoints[e2].senders[j]) by {
            if j < k.endpoints[e2].senders.len() {
                assert(k.endpoints[e1].receiver != Some(k.endpoints[e2].senders[j]));
            }
        }
    }
    assert(waiters_parked(q)) by {
        assert forall|e: int, j: int|
            0 <= e < q.endpoints.len() && 0 <= j < q.endpoints[e].senders.len()
                implies queued(q.tcbs[#[trigger] q.endpoints[e].senders[j] as int],) by {
            if j < k.endpoints[e].senders.len() {
                assert(queued(k.tcbs[k.endpoints[e].senders[j] as int]));
            }
        }
        assert forall|e: int| 0 <= e < q.endpoints.len()
            implies ((#[trigger] q.endpoints[e]).receiver matches Some(
            r,
        ) ==> parked(q.tcbs[r as int])) by {
            assert(k.endpoints[e].receiver matches Some(r) ==> parked(k.tcbs[r as int]));
        }
    }
    assert(q.senders_in_range()) by {
        assert forall|e: int, j: int|
            0 <= e < q.endpoints.len() && 0 <= j < q.endpoints[e].senders.len()
                implies #[trigger] q.endpoints[e].senders[j]
            < NUM_TASKS by {
            if j < k.endpoints[e].senders.len() {
                assert(k.endpoints[e].senders[j] < NUM_TASKS);
            }
        }
    }
    assert(runnable_not_waiting(q)) by {
        assert forall|t: int| 0 <= t < NUM_TASKS implies settled(#[trigger] q.tcbs[t]) by {
            assert(settled(k.tcbs[t]));
        }
    }
}

/// Endpoints from which waiting tasks have left, and nothing else has
/// changed, still have each task in one place only.
pub proof fn lemma_fewer_waiters(before: Seq<EndpointView>, after: Seq<EndpointView>)
    requires
        one_place_each(before),
        after.len() == before.len(),
        forall|e: int| 0 <= e < after.len() ==> (#[trigger] after[e]).senders.no_duplicates(),
        forall|e: int, j: int|
            0 <= e < after.len() && 0 <= j < after[e].senders.len() ==> before[e].senders.contains(
                #[trigger] after[e].senders[j],
            ),
        forall|e: int|
            0 <= e < after.len() ==> (#[trigger] after[e]).receiver.is_none() || after[e].receiver
                == before[e].receiver,
    ensures
        one_place_each(after),
{
    assert forall|e1: int, e2: int|
        0 <= e1 < after.len() && 0 <= e2 < after.len() && e1 != e2
            implies (#[trigger] after[e1]).senders.disjoint(
        (#[trigger] after[e2]).senders,
    ) by {
        assert(before[e1].senders.disjoint(before[e2].senders));
        assert forall|i: int, j: int|
            0 <= i < after[e1].senders.len() && 0 <= j < after[e2].senders.len()
                implies after[e1].senders[i]
            != after[e2].senders[j] by {
            let a = after[e1].senders[i];
            let b = after[e2].senders[j];
            assert(before[e1].senders.contains(a));
            assert(before[e2].senders.contains(b));
            let x = choose|x: int| 0 <= x < before[e1].senders.len() && before[e1].senders[x] == a;
            let y = choose|y: int| 0 <= y < before[e2].senders.len() && before[e2].senders[y] == b;
            assert(before[e1].senders[x] != before[e2].senders[y]);
        }
    }
    assert forall|e1: int, e2: int|
        0 <= e1 < after.len() && 0 <= e2 < after.len() && e1 != e2
            && (#[trigger] after[e1]).receiver.is_some() implies after[e1].receiver
        != (#[trigger] after[e2]).receiver by {
        assert(before[e1].receiver.is_some() ==> before[e1].receiver != before[e2].receiver);
        assert(after[e2].receiver.is_none() || after[e2].receiver == before[e2].receiver);
    }
    assert forall|e1: int, e2: int, j: int|
        0 <= e1 < after.len() && 0 <= e2 < after.len() && 0 <= j < after[e2].senders.len() implies (
    #[trigger] after[e1]).receiver != Some(#[trigger] after[e2].senders[j]) by {
        let b = after[e2].senders[j];
        assert(before[e2].senders.contains(b));
        let y = choose|y: int| 0 <= y < before[e2].senders.len() && before[e2].senders[y] == b;
        assert(before[e1].receiver != Some(before[e2].senders[y]));
    }
}

/// A state whose endpoints hold fewer waiting tasks than those of an
/// orderly state, with the tasks that still wait parked as before, and
/// in which no task that can run waits for a notification and the idle
/// task cannot block, is orderly but for the state of the current task.
pub proof fn lemma_order_with_fewer_waiters(k: KernelView, q: KernelView)
    requires
        orderly_within_trap(k),
        q.wf(),
        forall|e: int| 0 <= e < MAX_ENDPOINTS
            ==> (#[trigger] q.endpoints[e]).senders.no_duplicates(),
        forall|e: int, j: int|
            0 <= e < MAX_ENDPOINTS && 0 <= j < q.endpoints[e].senders.len()
                ==> k.endpoints[e].senders.contains(#[trigger] q.endpoints[e].senders[j]),
        forall|e: int|
            0 <= e < MAX_ENDPOINTS ==> (#[trigger] q.endpoints[e]).receiver.is_none()
                || q.endpoints[e].receiver == k.endpoints[e].receiver,
        forall|e: int, j: int|
            0 <= e < MAX_ENDPOINTS && 0 <= j < q.endpoints[e].senders.len()
                ==> queued(q.tcbs[#[trigger] q.endpoints[e].senders[j] as int],),
        forall|e: int|
            0 <= e < MAX_ENDPOINTS ==> ((#[trigger] q.endpoints[e]).receiver matches Some(r)
                ==> parked(q.tcbs[r as int])),
        runnable_not_waiting(q),
        idle_never_blocks(q),
    ensures
        orderly_within_trap(q),
{
    lemma_fewer_waiters(k.endpoints, q.endpoints);
    assert forall|e: int, j: int|
        0 <= e < q.endpoints.len() && 0 <= j < q.endpoints[e].senders.len()
            implies #[trigger] q.endpoints[e].senders[j]
        < NUM_TASKS by {
        let b = q.endpoints[e].senders[j];
        assert(k.endpoints[e].senders.contains(b));
        let y = choose|y: int| 0 <= y < k.endpoints[e].senders.len()
            && k.endpoints[e].senders[y] == b;
        assert(k.endpoints[e].senders[y] < NUM_TASKS);
    }
}

/// The release of a task that faulted or exited, which also releases
/// the tasks that waited for its reply, keeps the order, but for the
/// state of the current task.
pub proof fn lemma_leave_keeps_order(k: KernelView, task: usize, gone: Tcb)
    requires
        orderly_within_trap(k),
        task < NUM_TASKS,
        gone.id == k.tcbs[task as int].id,
        gone.caps == k.tcbs[task as int].caps,
        gone.notify_waiting == k.tcbs[task as int].notify_waiting,
        gone.state == TaskState::Faulted || gone.state == TaskState::Exited,
    ensures
        orderly_within_trap(cleaned_up(k.with_tcb(task as int, gone), task)),
{
    let q = cleaned_up(k.with_tcb(task as int, gone), task);
    let k1 = k.with_tcb(task as int, crate::kernel::sched::released(gone));
    assert forall|e: int| 0 <= e < MAX_ENDPOINTS implies q.endpoints[e]
        == crate::kernel::ipc::ep_cleaned(k.endpoints[e], task, k1.tcbs) by {}
    assert forall|t: int| 0 <= t < NUM_TASKS implies #[trigger] q.tcbs[t] == (if t == task {
        crate::kernel::sched::released(gone)
    } else if crate::kernel::ipc::awaits_reply_of(k.tcbs[t], task) {
        crate::kernel::ipc::partner_released(k.tcbs[t])
    } else {
        k.tcbs[t]
    }) by {}
    assert forall|e: int| 0 <= e < MAX_ENDPOINTS
        implies (#[trigger] q.endpoints[e]).senders.no_duplicates() by {
        assert(k.endpoints[e].senders.no_duplicates());
        lemma_without_no_duplicates(k.endpoints[e].senders, task);
    }
    assert forall|e: int, j: int|
        0 <= e < MAX_ENDPOINTS && 0 <= j < q.endpoints[e].senders.len()
        implies k.endpoints[e].senders.contains(#[trigger] q.endpoints[e].senders[j]) && queued(
        q.tcbs[q.endpoints[e].senders[j] as int],
    ) by {
        let f = q.endpoints[e].senders;
        assert(f == without(k.endpoints[e].senders, task));
        lemma_without_contains(k.endpoints[e].senders, task);
        assert(f.contains(f[j]));
        assert(k.endpoints[e].senders.contains(f[j]));
        let y = choose|y: int|
            0 <= y < k.endpoints[e].senders.len() && k.endpoints[e].senders[y] == f[j];
        assert(queued(k.tcbs[k.endpoints[e].senders[y] as int]));
        assert(k.endpoints[e].senders[y] < NUM_TASKS);
        assert(f[j] != task);
    }
    assert forall|e: int| 0 <= e < MAX_ENDPOINTS
        implies ((#[trigger] q.endpoints[e]).receiver matches Some(r) ==> parked(q.tcbs[r as int])
        && r < NUM_TASKS) && (q.endpoints[e].receiver.is_none() || q.endpoints[e].receiver
        == k.endpoints[e].receiver) by {
        assert(k.endpoints[e].receiver matches Some(r) ==> parked(k.tcbs[r as int]) && r
            < NUM_TASKS);
    }
    assert forall|e: int| 0 <= e < MAX_ENDPOINTS
        implies (#[trigger] q.endpoints[e]).senders.len() <= MAX_WAITERS by {
        lemma_without_contains(k.endpoints[e].senders, task);
        assert(k.endpoints[e].senders.len() <= MAX_WAITERS);
    }
    assert(runnable_not_waiting(q)) by {
        assert forall|t: int| 0 <= t < NUM_TASKS implies settled(#[trigger] q.tcbs[t]) by {
            assert(settled(k.tcbs[t]));
        }
    }
    lemma_order_with_fewer_waiters(k, q);
}

/// A fault of a task keeps the order, but for the state of the current
/// task.
pub proof fn lemma_fault_keeps_order(k: KernelView, task: usize)
    requires
        orderly_within_trap(k),
        task < NUM_TASKS,
    ensures
        orderly_within_trap(fault_of(k, task)),
{
    lemma_leave_keeps_order(k, task, faulted(k.tcbs[task as int], k.tick_count));
}

/// The exit of a task keeps the order, but for the state of the
/// current task.
pub proof fn lemma_exit_keeps_order(k: KernelView, task: usize)
    requires
        orderly_within_trap(k),
        task < NUM_TASKS,
    ensures
        orderly_within_trap(exit_of(k, task)),
{
    lemma_leave_keeps_order(
        k,
        task,
        Tcb { state: TaskState::Exited, ..k.tcbs[task as int] },
    );
}

/// In an orderly state a Blocked task is neither the running task nor
/// the idle task.
pub proof fn lemma_waiter_is_elsewhere(k: KernelView, w: usize)
    requires
        orderly(k),
        w < NUM_TASKS,
        parked(k.tcbs[w as int]),
    ensures
        w != k.current,
        w != IDLE_TASK_ID,
{
}

/// A receive completes a rendezvous.  When senders wait on an endpoint
/// of an orderly state and the running task receives there, the sender
/// that waited longest is another task; it is gone from the queue and
/// waits nowhere, is Ready with its base priority and its context as it
/// was; the receiver holds the four message words of that sender, in its
/// saved context and in the frame it goes on with, whose other registers
/// are its own; and the receiver is still the running task.
pub proof fn lemma_recv_completes_rendezvous(k: KernelView, frame: TrapFrame, ep_id: usize)
    requires
        orderly(k),
        ep_id < MAX_ENDPOINTS,
        k.endpoints[ep_id as int].senders.len() > 0,
    ensures
        ({
            let a = k.endpoints[ep_id as int].senders[0];
            let b = k.current;
            let after = recvd(k, frame, ep_id);
            let resumed = frame_after_recv(k, frame, ep_id);
            &&& a < NUM_TASKS && a != b
            &&& !after.endpoints[ep_id as int].senders.contains(a)
            &&& waits_nowhere(after.endpoints, a)
            &&& forall|i: int|
                0 <= i < MSG_REGS
                    ==> after.tcbs[b as int].context.x[i] == k.tcbs[a as int].context.x[i]
            &&& forall|i: int| 0 <= i < MSG_REGS ==> resumed.x[i] == k.tcbs[a as int].context.x[i]
            &&& forall|i: int| MSG_REGS <= i < 31 ==> resumed.x[i] == frame.x[i]
            &&& after.current == b
            &&& after.tcbs[b as int].state == TaskState::Running
            &&& after.tcbs[a as int].state == TaskState::Ready
            &&& after.tcbs[a as int].priority == k.tcbs[a as int].base_priority
            &&& after.tcbs[a as int].context == k.tcbs[a as int].context
            &&& orderly(after)
        }),
{
    let ep = ep_id as int;
    let a = k.endpoints[ep].senders[0];
    let sv = saved(k, frame);
    let after = recvd(k, frame, ep_id);
    assert(queued(k.tcbs[a as int]));
    lemma_receive_keeps_order(k, frame, ep);
    lemma_with_message(sv.tcbs[k.current as int].context, sv.tcbs[a as int].context);
    let rest = k.endpoints[ep].senders.drop_first();
    assert(after.endpoints[ep].senders == rest);
    assert forall|e: int| 0 <= e < after.endpoints.len()
        implies !(#[trigger] after.endpoints[e]).senders.contains(a)
        && after.endpoints[e].receiver != Some(a) by {
        if after.endpoints[e].senders.contains(a) {
            let j = choose|j: int|
                0 <= j < after.endpoints[e].senders.len() && after.endpoints[e].senders[j] == a;
            if e == ep {
                assert(k.endpoints[ep].senders[j + 1] == a);
            } else {
                assert(k.endpoints[e].senders[j] == a);
                assert(k.endpoints[e].senders.disjoint(k.endpoints[ep].senders));
            }
        }
        assert(after.endpoints[e].receiver == k.endpoints[e].receiver);
        assert(k.endpoints[e].receiver != Some(k.endpoints[ep].senders[0]));
    }
}

/// A message left on an endpoint reaches the task that receives there
/// next.  When the running task, which is not the idle task, sends or
/// calls with `sent_frame` on an endpoint where nobody waits, it waits
/// there first in line, Blocked, and another task runs; when that task
/// then receives on the endpoint, it goes on with the four message
/// words of `sent_frame`, still running, and the sender is Ready with
/// its base priority and waits nowhere.
pub proof fn lemma_message_waits_for_receiver(
    k: KernelView,
    sent_frame: TrapFrame,
    recv_frame: TrapFrame,
    ep_id: usize,
)
    requires
        orderly(k),
        k.current != IDLE_TASK_ID,
        ep_id < MAX_ENDPOINTS,
        k.endpoints[ep_id as int].receiver.is_none(),
        k.endpoints[ep_id as int].senders.len() == 0,
    ensures
        call_made(k, sent_frame, ep_id) == sent(k, sent_frame, ep_id),
        ({
            let a = k.current;
            let waiting = sent(k, sent_frame, ep_id);
            let b = waiting.current;
            let after = recvd(waiting, recv_frame, ep_id);
            let resumed = frame_after_recv(waiting, recv_frame, ep_id);
            &&& orderly(waiting)
            &&& waiting.endpoints[ep_id as int].senders == seq![a]
            &&& waiting.tcbs[a as int].state == TaskState::Blocked
            &&& a != b
            &&& forall|i: int| 0 <= i < MSG_REGS ==> resumed.x[i] == sent_frame.x[i]
            &&& forall|i: int|
                0 <= i < MSG_REGS ==> after.tcbs[b as int].context.x[i] == sent_frame.x[i]
            &&& after.current == b
            &&& after.tcbs[b as int].state == TaskState::Running
            &&& after.tcbs[a as int].state == TaskState::Ready
            &&& after.tcbs[a as int].priority == k.tcbs[a as int].base_priority
            &&& waits_nowhere(after.endpoints, a)
            &&& orderly(after)
        }),
{
    let ep = ep_id as int;
    let a = k.current;
    let q = enqueued(saved(k, sent_frame), ep);
    let waiting = scheduled(q, sent_frame);
    lemma_enqueue_keeps_order(k, sent_frame, ep);
    lemma_schedule_restores_order(q, sent_frame);
    lemma_scheduled_task(q, sent_frame);
    assert(waiting.endpoints[ep].senders =~= seq![a]);
    let c = candidates(q, sent_frame);
    assert(c[a as int].state == TaskState::Blocked);
    assert(c[a as int].context == sent_frame);
    if any_eligible(eligibility(c)) {
        assert(crate::kernel::sched::eligible(c[next_task(q, sent_frame)]));
    }
    assert(waiting.tcbs[a as int] == c[a as int]);
    lemma_recv_completes_rendezvous(waiting, recv_frame, ep_id);
}

/// A call and the receive that answers it, as two syscalls.  Task A,
/// which holds the capabilities to send and to receive on an endpoint
/// where nobody waits, calls there with a payload: it waits first in
/// line and another task, B, runs.  When B, which holds the capability
/// to receive there, receives on the endpoint, A is out of the queue and
/// waits nowhere, Ready with its base priority; B holds A's payload, in
/// its saved context and in the frame it goes on with, and is still the
/// running task.
pub proof fn lemma_call_then_receive(
    k: KernelView,
    call_frame: TrapFrame,
    recv_frame: TrapFrame,
    ep_id: usize,
)
    requires
        orderly(k),
        ep_id < MAX_ENDPOINTS,
        k.endpoints[ep_id as int].receiver.is_none(),
        k.endpoints[ep_id as int].senders.len() == 0,
        call_frame.x[7] == crate::kernel::ipc::SYS_CALL,
        call_frame.x[6] == ep_id,
        svc_allowed(k, call_frame),
        recv_frame.x[7] == crate::kernel::ipc::SYS_RECV,
        recv_frame.x[6] == ep_id,
        svc_allowed(svc_state(k, call_frame), recv_frame),
    ensures
        ({
            let a = k.current;
            let waiting = svc_state(k, call_frame);
            let b = waiting.current;
            let after = svc_state(waiting, recv_frame);
            let resumed = svc_frame(waiting, recv_frame);
            &&& a != b
            &&& waiting.endpoints[ep_id as int].senders == seq![a]
            &&& waiting.tcbs[a as int].state == TaskState::Blocked
            &&& !after.endpoints[ep_id as int].senders.contains(a)
            &&& waits_nowhere(after.endpoints, a)
            &&& forall|i: int| 0 <= i < MSG_REGS ==> resumed.x[i] == call_frame.x[i]
            &&& forall|i: int|
                0 <= i < MSG_REGS ==> after.tcbs[b as int].context.x[i] == call_frame.x[i]
            &&& after.current == b
            &&& after.tcbs[b as int].state == TaskState::Running
            &&& after.tcbs[a as int].state == TaskState::Ready
            &&& after.tcbs[a as int].priority == k.tcbs[a as int].base_priority
            &&& orderly(after)
        }),
{
    assert(index_of(call_frame.x[6]) == ep_id);
    lemma_blocking_call_not_idle(k, 3, ep_id as u64);
    lemma_message_waits_for_receiver(k, call_frame, recv_frame, ep_id);
}

/// Handing a message to the waiting receiver keeps the order.
pub proof fn lemma_deliver_keeps_order(k: KernelView, frame: TrapFrame, ep: int, r: usize)
    requires
        orderly(k),
        0 <= ep < MAX_ENDPOINTS,
        k.endpoints[ep].receiver == Some(r),
    ensures
        orderly(delivered(saved(k, frame), ep, r)),
{
    let q = delivered(saved(k, frame), ep, r);
    assert(parked(k.tcbs[r as int]));
    assert forall|e: int| 0 <= e < MAX_ENDPOINTS implies q.endpoints[e] == (if e == ep {
        EndpointView { receiver: None, ..k.endpoints[ep] }
    } else {
        k.endpoints[e]
    }) by {}
    assert forall|e: int, j: int|
        0 <= e < MAX_ENDPOINTS && 0 <= j < q.endpoints[e].senders.len()
            implies k.endpoints[e].senders.contains(
        #[trigger] q.endpoints[e].senders[j],
    ) && queued(q.tcbs[q.endpoints[e].senders[j] as int]) by {
        let w = k.endpoints[e].senders[j];
        assert(parked(k.tcbs[w as int]));
        assert(k.endpoints[ep].receiver != Some(k.endpoints[e].senders[j]));
    }
    assert forall|e: int| 0 <= e < MAX_ENDPOINTS
        implies ((#[trigger] q.endpoints[e]).receiver matches Some(
        w,
    ) ==> parked(q.tcbs[w as int])) by {
        assert(k.endpoints[e].receiver matches Some(w) ==> parked(k.tcbs[w as int]));
        if e != ep {
            assert(k.endpoints[ep].receiver.is_some() ==> k.endpoints[ep].receiver
                != k.endpoints[e].receiver);
        }
    }
    assert forall|e: int| 0 <= e < MAX_ENDPOINTS
        implies (#[trigger] q.endpoints[e]).senders.no_duplicates() by {
        assert(k.endpoints[e].senders.no_duplicates());
    }
    assert(runnable_not_waiting(q)) by {
        assert forall|t: int| 0 <= t < NUM_TASKS implies settled(#[trigger] q.tcbs[t]) by {
            assert(settled(k.tcbs[t]));
        }
    }
    assert forall|e: int| 0 <= e < MAX_ENDPOINTS implies (#[trigger] q.endpoints[e]).senders.len()
        <= MAX_WAITERS && (q.endpoints[e].receiver matches Some(w) ==> w < NUM_TASKS) by {
        assert(k.endpoints[e].senders.len() <= MAX_WAITERS);
    }
    lemma_order_with_fewer_waiters(k, q);
}

/// Taking the message of the first waiting sender keeps the order.
pub proof fn lemma_receive_keeps_order(k: KernelView, frame: TrapFrame, ep: int)
    requires
        orderly(k),
        0 <= ep < MAX_ENDPOINTS,
        k.endpoints[ep].senders.len() > 0,
    ensures
        orderly(received(saved(k, frame), ep, k.endpoints[ep].senders[0])),
{
    let s = k.endpoints[ep].senders[0];
    let q = received(saved(k, frame), ep, s);
    assert(queued(k.tcbs[k.endpoints[ep].senders[0] as int]));
    assert forall|e: int| 0 <= e < MAX_ENDPOINTS implies q.endpoints[e] == (if e == ep {
        EndpointView { senders: k.endpoints[ep].senders.drop_first(), ..k.endpoints[ep] }
    } else {
        k.endpoints[e]
    }) by {}
    assert forall|e: int, j: int|
        0 <= e < MAX_ENDPOINTS && 0 <= j < q.endpoints[e].senders.len()
            implies k.endpoints[e].senders.contains(
        #[trigger] q.endpoints[e].senders[j],
    ) && queued(q.tcbs[q.endpoints[e].senders[j] as int]) by {
        if e == ep {
            let w = k.endpoints[ep].senders[j + 1];
            assert(q.endpoints[e].senders[j] == w);
            assert(parked(k.tcbs[w as int]));
            assert(k.endpoints[ep].senders.no_duplicates());
            assert(w != s);
        } else {
            let w = k.endpoints[e].senders[j];
            assert(parked(k.tcbs[w as int]));
            assert(k.endpoints[e].senders.disjoint(k.endpoints[ep].senders));
            assert(w != s);
        }
    }
    assert forall|e: int| 0 <= e < MAX_ENDPOINTS
        implies ((#[trigger] q.endpoints[e]).receiver matches Some(
        w,
    ) ==> parked(q.tcbs[w as int])) by {
        assert(k.endpoints[e].receiver matches Some(w) ==> parked(k.tcbs[w as int]));
        assert(k.endpoints[e].receiver != Some(k.endpoints[ep].senders[0]));
    }
    assert forall|e: int| 0 <= e < MAX_ENDPOINTS
        implies (#[trigger] q.endpoints[e]).senders.no_duplicates() by {
        assert(k.endpoints[e].senders.no_duplicates());
        if e == ep {
            let old_s = k.endpoints[ep].senders;
            assert forall|i: int, j: int|
                0 <= i < old_s.drop_first().len() && 0 <= j < old_s.drop_first().len() && i
                    != j implies old_s.drop_first()[i] != old_s.drop_first()[j] by {
                assert(old_s[i + 1] != old_s[j + 1]);
            }
        }
    }
    assert(runnable_not_waiting(q)) by {
        assert forall|t: int| 0 <= t < NUM_TASKS implies settled(#[trigger] q.tcbs[t]) by {
            assert(settled(k.tcbs[t]));
        }
    }
    assert forall|e: int| 0 <= e < MAX_ENDPOINTS implies (#[trigger] q.endpoints[e]).senders.len()
        <= MAX_WAITERS && (q.endpoints[e].receiver matches Some(w) ==> w < NUM_TASKS) by {
        assert(k.endpoints[e].senders.len() <= MAX_WAITERS);
    }
    lemma_order_with_fewer_waiters(k, q);
}

/// Endpoints in which the task `t`, which waited nowhere, has taken the
/// receiver slot of `ep`, and from which at most other tasks have left,
/// still have each task in one place only.
pub proof fn lemma_new_receiver(
    before: Seq<EndpointView>,
    after: Seq<EndpointView>,
    ep: int,
    t: usize,
)
    requires
        one_place_each(before),
        crate::kernel::ipc::waits_nowhere(before, t),
        after.len() == before.len(),
        0 <= ep < after.len(),
        after[ep].receiver == Some(t),
        forall|e: int| 0 <= e < after.len() ==> (#[trigger] after[e]).senders == before[e].senders,
        forall|e: int|
            0 <= e < after.len() && e != ep
                ==> (#[trigger] after[e]).receiver == before[e].receiver,
    ensures
        one_place_each(after),
{
    assert forall|e: int| 0 <= e < after.len()
        implies (#[trigger] after[e]).senders.no_duplicates() by {
        assert(before[e].senders.no_duplicates());
    }
    assert forall|e1: int, e2: int|
        0 <= e1 < after.len() && 0 <= e2 < after.len() && e1 != e2
            implies (#[trigger] after[e1]).senders.disjoint(
        (#[trigger] after[e2]).senders,
    ) by {
        assert(before[e1].senders.disjoint(before[e2].senders));
    }
    assert forall|e1: int, e2: int|
        0 <= e1 < after.len() && 0 <= e2 < after.len() && e1 != e2
            && (#[trigger] after[e1]).receiver.is_some() implies after[e1].receiver
        != (#[trigger] after[e2]).receiver by {
        assert(before[e1].receiver.is_some() ==> before[e1].receiver != before[e2].receiver);
        assert(before[e1].receiver != Some(t));
        assert(before[e2].receiver != Some(t));
    }
    assert forall|e1: int, e2: int, j: int|
        0 <= e1 < after.len() && 0 <= e2 < after.len() && 0 <= j < after[e2].senders.len() implies (
    #[trigger] after[e1]).receiver != Some(#[trigger] after[e2].senders[j]) by {
        assert(before[e1].receiver != Some(before[e2].senders[j]));
        assert(before[e2].senders.contains(before[e2].senders[j]));
    }
}

/// The current task taking a receiver slot keeps the order, but for
/// the state of the current task, which is Blocked now.
pub proof fn lemma_await_keeps_order(k: KernelView, frame: TrapFrame, ep: int)
    requires
        orderly(k),
        0 <= ep < MAX_ENDPOINTS,
        k.current != IDLE_TASK_ID,
    ensures
        orderly_within_trap(awaiting(saved(k, frame), ep)),
{
    let q = awaiting(saved(k, frame), ep);
    lemma_running_waits_nowhere(k);
    assert forall|e: int| 0 <= e < MAX_ENDPOINTS implies q.endpoints[e] == (if e == ep {
        EndpointView { receiver: Some(k.current), ..k.endpoints[ep] }
    } else {
        k.endpoints[e]
    }) by {}
    lemma_new_receiver(k.endpoints, q.endpoints, ep, k.current);
    assert(runnable_not_waiting(q)) by {
        assert forall|t: int| 0 <= t < NUM_TASKS implies settled(#[trigger] q.tcbs[t]) by {
            assert(settled(k.tcbs[t]));
        }
    }
    lemma_order_after_block(k, q);
}

/// A state in which, compared with an orderly one, only the current
/// task has begun to wait, parked, and other tasks have been woken, is
/// orderly but for the state of the current task.
proof fn lemma_order_after_block(k: KernelView, q: KernelView)
    requires
        orderly(k),
        k.current != IDLE_TASK_ID,
        q.tcbs.len() == NUM_TASKS,
        q.endpoints.len() == MAX_ENDPOINTS,
        q.grants.len() == k.grants.len(),
        q.irq_bindings.len() == k.irq_bindings.len(),
        q.current == k.current,
        one_place_each(q.endpoints),
        parked(q.tcbs[k.current as int]),
        forall|t: int| 0 <= t < NUM_TASKS ==> (#[trigger] q.tcbs[t]).id == k.tcbs[t].id,
        runnable_not_waiting(q),
        idle_never_blocks(q),
        forall|e: int, j: int|
            0 <= e < MAX_ENDPOINTS && 0 <= j < q.endpoints[e].senders.len()
                ==> queued(q.tcbs[#[trigger] q.endpoints[e].senders[j] as int],)
                    && q.endpoints[e].senders[j] < NUM_TASKS,
        forall|e: int|
            0 <= e < MAX_ENDPOINTS ==> ((#[trigger] q.endpoints[e]).receiver matches Some(r)
                ==> parked(q.tcbs[r as int]) && r < NUM_TASKS),
        forall|e: int| 0 <= e < MAX_ENDPOINTS
            ==> (#[trigger] q.endpoints[e]).senders.len() <= MAX_WAITERS,
    ensures
        orderly_within_trap(q),
{
}

/// A call that reaches the waiting receiver keeps the order, but for
/// the state of the current task, which is Blocked now.
pub proof fn lemma_call_keeps_order(k: KernelView, frame: TrapFrame, ep: int, r: usize)
    requires
        orderly(k),
        0 <= ep < MAX_ENDPOINTS,
        k.endpoints[ep].receiver == Some(r),
        k.current != IDLE_TASK_ID,
    ensures
        orderly_within_trap(called(saved(k, frame), ep, r)),
{
    let q = called(saved(k, frame), ep, r);
    let d = delivered(saved(k, frame), ep, r);
    lemma_deliver_keeps_order(k, frame, ep, r);
    lemma_running_waits_nowhere(d);
    assert(parked(k.tcbs[r as int]));
    assert forall|e: int| 0 <= e < MAX_ENDPOINTS implies q.endpoints[e] == (if e == ep {
        EndpointView { receiver: Some(k.current), ..d.endpoints[ep] }
    } else {
        d.endpoints[e]
    }) by {}
    lemma_new_receiver(d.endpoints, q.endpoints, ep, k.current);
    assert forall|e: int, j: int|
        0 <= e < MAX_ENDPOINTS && 0 <= j < q.endpoints[e].senders.len()
            implies queued(q.tcbs[#[trigger] q.endpoints[e].senders[j] as int],)
                && q.endpoints[e].senders[j] < NUM_TASKS by {
        let w = d.endpoints[e].senders[j];
        assert(parked(d.tcbs[w as int]));
        assert(w < NUM_TASKS);
    }
    assert forall|e: int| 0 <= e < MAX_ENDPOINTS
        implies ((#[trigger] q.endpoints[e]).receiver matches Some(
        w,
    ) ==> parked(q.tcbs[w as int]) && w < NUM_TASKS) by {
        assert(d.endpoints[e].receiver matches Some(w)
            ==> parked(d.tcbs[w as int]) && w < NUM_TASKS);
    }
    assert forall|e: int| 0 <= e < MAX_ENDPOINTS implies (#[trigger] q.endpoints[e]).senders.len()
        <= MAX_WAITERS by {
        assert(d.endpoints[e].senders.len() <= MAX_WAITERS);
    }
    assert(runnable_not_waiting(q)) by {
        assert forall|t: int| 0 <= t < NUM_TASKS implies settled(#[trigger] q.tcbs[t]) by {
            assert(settled(d.tcbs[t]));
        }
    }
    lemma_order_after_block(d, q);
}

/// A state with the waiting tasks of an orderly state, in which those
/// tasks are parked as before, no task that can run waits for a
/// notification and the idle task cannot block, is orderly but for the
/// state of the current task.
pub proof fn lemma_order_same_waiters(k: KernelView, q: KernelView)
    requires
        orderly_within_trap(k),
        q.endpoints == k.endpoints,
        q.tcbs.len() == NUM_TASKS,
        q.grants.len() == k.grants.len(),
        q.irq_bindings.len() == k.irq_bindings.len(),
        q.current < NUM_TASKS,
        forall|t: int| 0 <= t < NUM_TASKS ==> (#[trigger] q.tcbs[t]).id == k.tcbs[t].id,
        forall|t: int| 0 <= t < NUM_TASKS && parked(k.tcbs[t]) ==> parked(#[trigger] q.tcbs[t]),
        forall|t: int| 0 <= t < NUM_TASKS && queued(k.tcbs[t]) ==> queued(#[trigger] q.tcbs[t]),
        runnable_not_waiting(q),
        idle_never_blocks(q),
    ensures
        orderly_within_trap(q),
{
    assert forall|e: int, j: int|
        0 <= e < q.endpoints.len() && 0 <= j < q.endpoints[e].senders.len()
            implies queued(q.tcbs[#[trigger] q.endpoints[e].senders[j] as int],) by {
        assert(queued(k.tcbs[k.endpoints[e].senders[j] as int]));
        assert(k.endpoints[e].senders[j] < NUM_TASKS);
    }
    assert forall|e: int| 0 <= e < q.endpoints.len()
        implies ((#[trigger] q.endpoints[e]).receiver matches Some(
        r,
    ) ==> parked(q.tcbs[r as int])) by {
        assert(k.endpoints[e].receiver matches Some(r)
            ==> parked(k.tcbs[r as int]) && r < NUM_TASKS);
    }
}

/// Delivering notification bits to a task keeps the order, and leaves
/// the running task running.
pub proof fn lemma_notify_keeps_order(k: KernelView, target: usize, bits: u64)
    requires
        orderly_within_trap(k),
        target < NUM_TASKS,
    ensures
        orderly_within_trap(
            k.with_tcb(target as int, crate::kernel::sched::notified(k.tcbs[target as int], bits)),
        ),
        orderly(k) ==> orderly(
            k.with_tcb(target as int, crate::kernel::sched::notified(k.tcbs[target as int], bits)),
        ),
{
    let q = k.with_tcb(
        target as int,
        crate::kernel::sched::notified(k.tcbs[target as int], bits),
    );
    assert(runnable_not_waiting(q)) by {
        assert forall|t: int| 0 <= t < NUM_TASKS implies settled(#[trigger] q.tcbs[t]) by {
            assert(settled(k.tcbs[t]));
        }
    }
    lemma_order_same_waiters(k, q);
    if orderly(k) {
        assert(k.tcbs[k.current as int].state == TaskState::Running
            ==> !k.tcbs[k.current as int].notify_waiting);
    }
}

/// A task that may make a call that can block holds a capability that
/// the idle task does not hold: it is not the idle task.
pub proof fn lemma_blocking_call_not_idle(k: KernelView, syscall_nr: u64, ep_id: u64)
    requires
        idle_never_blocks(k),
        k.current < NUM_TASKS,
        1 <= syscall_nr <= 3 || syscall_nr == 6,
        syscall_recognized(syscall_nr, ep_id),
        covers(k.tcbs[k.current as int].caps, required_bits(syscall_nr, ep_id)),
    ensures
        k.current != IDLE_TASK_ID,
{
    let caps = k.tcbs[k.current as int].caps;
    let req = required_bits(syscall_nr, ep_id);
    lemma_covers_is_subset(caps, req);
    assert(req != 0 && req & BLOCKING_CAPS == req) by (bit_vector)
        requires
            req == 1u64 << 0 || req == 1u64 << 1 || req == 1u64 << 2 || req == 1u64 << 3 || req
                == 1u64 << 7 || req == 1u64 << 8 || req == 1u64 << 9 || req == 1u64 << 10 || req
                == 1u64 << 11 || req == (1u64 << 0) | (1u64 << 1) || req == (1u64 << 2) | (1u64
                << 3) || req == (1u64 << 8) | (1u64 << 9) || req == (1u64 << 10) | (1u64 << 11),
    ;
    assert(caps & BLOCKING_CAPS != 0) by (bit_vector)
        requires
            caps & req == req,
            req != 0,
            req & BLOCKING_CAPS == req,
    ;
}

/// A state without waiting tasks, in which a task runs, no task that
/// can run waits for a notification, and the idle task cannot block, is
/// orderly.  Such is the state that the kernel boots into.
pub proof fn lemma_order_at_boot(k: KernelView)
    requires
        k.wf(),
        forall|e: int|
            0 <= e < MAX_ENDPOINTS ==> (#[trigger] k.endpoints[e]).senders.len() == 0
                && k.endpoints[e].receiver.is_none(),
        runnable_not_waiting(k),
        idle_never_blocks(k),
        k.tcbs[k.current as int].state == TaskState::Running,
    ensures
        orderly(k),
{
    assert forall|e1: int, e2: int|
        0 <= e1 < k.endpoints.len() && 0 <= e2 < k.endpoints.len() && e1 != e2 implies (
    #[trigger] k.endpoints[e1]).senders.disjoint((#[trigger] k.endpoints[e2]).senders) by {}
}

/// The housekeeping of a tick keeps the order, but for the state of the
/// current task: the watchdog may fault the running task.
pub proof fn lemma_watchdog_keeps_order(k: KernelView, n: nat)
    requires
        orderly_within_trap(k),
        n <= NUM_TASKS,
    ensures
        orderly_within_trap(crate::kernel::sched::watchdog_scanned(k, n)),
    decreases n,
{
    if n > 0 {
        lemma_watchdog_keeps_order(k, (n - 1) as nat);
        let before = crate::kernel::sched::watchdog_scanned(k, (n - 1) as nat);
        lemma_fault_keeps_order(before, (n - 1) as usize);
    }
}

/// A timer tick keeps the order.
pub proof fn lemma_tick_keeps_order(k: KernelView, frame: TrapFrame)
    requires
        orderly(k),
    ensures
        orderly(scheduled(tick_accounted(k), frame)),
{
    let k1 = tick_counted(k);
    lemma_order_same_waiters(k, k1);
    let k2 = if k1.epoch_ticks >= crate::kernel::sched::EPOCH_LENGTH {
        crate::kernel::sched::epoch_started(k1)
    } else {
        k1
    };
    lemma_order_same_waiters(k1, k2);
    lemma_watchdog_keeps_order(k2, NUM_TASKS as nat);
    lemma_schedule_restores_order(tick_accounted(k), frame);
}

/// A fault of the running task keeps the order.
pub proof fn lemma_task_fault_keeps_order(k: KernelView, frame: TrapFrame)
    requires
        orderly(k),
    ensures
        orderly(scheduled(fault_of(k, k.current), frame)),
{
    lemma_fault_keeps_order(k, k.current);
    lemma_schedule_restores_order(fault_of(k, k.current), frame);
}

/// An interrupt routed to the task that bound it keeps the order.
pub proof fn lemma_route_keeps_order(k: KernelView, intid: u32)
    requires
        orderly(k),
        crate::kernel::irq::targets_in_range(k.irq_bindings),
    ensures
        orderly(crate::kernel::irq::routed(k, intid)),
{
    if crate::kernel::irq::is_bound(k.irq_bindings, intid) {
        let i = crate::kernel::irq::first_bound(k.irq_bindings, intid);
        let witness = choose|j: int| crate::kernel::irq::bound_at(k.irq_bindings, intid, j);
        crate::kernel::irq::lemma_has_first_bound(k.irq_bindings, intid, witness + 1);
        assert(crate::kernel::irq::first_bound_at(k.irq_bindings, intid, i));
        let b = k.irq_bindings[i];
        assert(b.task_id < NUM_TASKS);
        lemma_notify_keeps_order(k, b.task_id, b.notify_bit);
        let n = k.with_tcb(
            b.task_id as int,
            crate::kernel::sched::notified(k.tcbs[b.task_id as int], b.notify_bit),
        );
        lemma_order_same_waiters(n, crate::kernel::irq::routed(k, intid));
    }
}

/// Every syscall keeps the order, whether it is carried out or denied.
pub proof fn lemma_svc_keeps_order(k: KernelView, frame: TrapFrame)
    requires
        orderly(k),
    ensures
        orderly(svc_state(k, frame)),
{
    let nr = frame.x[7];
    let cur = k.current;
    let ep = index_of(frame.x[6]);
    if !svc_allowed(k, frame) {
        lemma_task_fault_keeps_order(k, frame);
    } else if nr == 0 {
        lemma_schedule_restores_order(k, frame);
    } else if nr == 1 || nr == 3 {
        lemma_blocking_call_not_idle(k, nr, frame.x[6]);
        if let Some(r) = k.endpoints[ep as int].receiver {
            if nr == 1 {
                lemma_deliver_keeps_order(k, frame, ep as int, r);
            } else {
                lemma_call_keeps_order(k, frame, ep as int, r);
                lemma_schedule_restores_order(called(saved(k, frame), ep as int, r), frame);
            }
        } else if k.endpoints[ep as int].senders.len() >= MAX_WAITERS {
        } else {
            lemma_enqueue_keeps_order(k, frame, ep as int);
            lemma_schedule_restores_order(enqueued(saved(k, frame), ep as int), frame);
        }
    } else if nr == 2 {
        lemma_blocking_call_not_idle(k, nr, frame.x[6]);
        if k.endpoints[ep as int].senders.len() > 0 {
            lemma_receive_keeps_order(k, frame, ep as int);
        } else {
            lemma_await_keeps_order(k, frame, ep as int);
            lemma_schedule_restores_order(awaiting(saved(k, frame), ep as int), frame);
        }
    } else if nr == 4 {
    } else if nr == 5 {
        let target = index_of(frame.x[6]);
        if target < NUM_TASKS && frame.x[0] != 0 {
            lemma_notify_keeps_order(k, target, frame.x[0]);
        }
    } else if nr == 6 {
        lemma_blocking_call_not_idle(k, nr, frame.x[6]);
        if k.tcbs[cur as int].notify_pending != 0 {
            lemma_order_same_waiters(k, notify_awaited(k, frame));
        } else {
            let q = k.with_tcb(cur as int, waiting_for_notification(k.tcbs[cur as int], frame));
            assert(runnable_not_waiting(q)) by {
                assert forall|t: int| 0 <= t < NUM_TASKS implies settled(#[trigger] q.tcbs[t]) by {
            assert(settled(k.tcbs[t]));
        }
            }
            lemma_order_same_waiters(k, q);
            lemma_schedule_restores_order(q, frame);
        }
    } else if nr == 7 || nr == 8 || nr == 9 || nr == 10 {
        let table = k.irq_bindings;
        let intid = crate::exception::low_word(frame.x[0]);
        if nr == 9 && crate::kernel::irq::has_free(table) {
            crate::kernel::irq::lemma_has_first_free(table, table.len() as int);
        }
        if nr == 10 && crate::kernel::irq::is_bound(table, intid) {
            let w = choose|j: int| crate::kernel::irq::bound_at(table, intid, j);
            crate::kernel::irq::lemma_has_first_bound(table, intid, w + 1);
        }
        lemma_order_same_waiters(k, svc_state(k, frame));
    } else if nr == 11 {
    } else if nr == 12 {
        lemma_order_same_waiters(k, heartbeat_recorded(k, frame));
    } else {
        lemma_exit_keeps_order(k, cur);
        lemma_schedule_restores_order(exit_of(k, cur), frame);
    }
}

} // verus!
