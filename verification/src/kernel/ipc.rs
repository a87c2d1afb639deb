//! Synchronous endpoint-based messaging.
//!
//! A message is four machine words, carried in `x[0]..x[3]` of the trap
//! frame.  A sender that finds no receiver waits in the endpoint's bounded
//! FIFO queue; a receiver that finds no sender waits in the endpoint's
//! single receiver slot.

use vstd::prelude::*;
use crate::exception::TrapFrame;
use crate::kernel::sched::{
    resumed_frame,
    schedule,
    scheduled,
    TaskState,
    Tcb,
    NUM_TASKS,
};
use crate::kernel::state::{Kernel, KernelView};

verus! {

pub const SYS_SEND: u64 = 1;

pub const SYS_RECV: u64 = 2;

pub const SYS_CALL: u64 = 3;

/// Number of IPC endpoints.
pub const MAX_ENDPOINTS: usize = 4;

/// Number of message registers, `x[0]..x[3]`.
pub const MSG_REGS: usize = 4;

/// Most senders that can wait on one endpoint.
pub const MAX_WAITERS: usize = 4;

/// Circular queue of the tasks waiting to send on an endpoint.
#[derive(Clone, Copy, Debug)]
pub struct SenderQueue {
    pub tasks: [usize; MAX_WAITERS],
    /// index of the next task to dequeue
    pub head: usize,
    /// number of tasks in the queue
    pub count: usize,
}

/// The sequence `s` without the occurrences of `task`, order kept.
pub open spec fn without(s: Seq<usize>, task: usize) -> Seq<usize> {
    s.filter(other_than(task))
}

/// The predicate that holds of every task but `task`.
pub open spec fn other_than(task: usize) -> spec_fn(usize) -> bool {
    |t: usize| t != task
}

impl SenderQueue {
    /// The slot that holds the `i`-th waiting task.
    pub open spec fn slot(&self, i: int) -> int {
        (self.head + i) % (MAX_WAITERS as int)
    }

    /// The queue holds at most [`MAX_WAITERS`] tasks and its head is a
    /// slot of the buffer.
    pub open spec fn wf(&self) -> bool {
        &&& self.head < MAX_WAITERS
        &&& self.count <= MAX_WAITERS
    }

    /// An empty queue: nobody waits, the head is the first slot, and
    /// every slot of the buffer holds zero.
    pub fn new() -> (q: SenderQueue)
        ensures
            q.wf(),
            q@ == Seq::<usize>::empty(),
            q.head == 0,
            q.count == 0,
            forall|i: int| 0 <= i < MAX_WAITERS ==> q.tasks[i] == 0,
    {
        let q = SenderQueue { tasks: [0; MAX_WAITERS], head: 0, count: 0 };
        assert(q@ =~= Seq::<usize>::empty());
        q
    }

    /// Whether the queue is well formed, for callers that build one by
    /// hand.
    pub fn is_wf(&self) -> (ok: bool)
        ensures
            ok == self.wf(),
    {
        self.head < MAX_WAITERS && self.count <= MAX_WAITERS
    }

    /// Push a task index.  Returns false, and changes nothing, if the
    /// queue is full.
    pub fn push(&mut self, task: usize) -> (ok: bool)
        requires
            old(self).wf(),
        ensures
            final(self).wf(),
            ok == (old(self)@.len() < MAX_WAITERS),
            ok ==> final(self)@ == old(self)@.push(task),
            ok ==> final(self).head == old(self).head && final(self).count == old(self).count + 1,
            ok ==> final(self).tasks@ == old(self).tasks@.update(
                old(self).slot(old(self).count as int),
                task,
            ),
            !ok ==> *final(self) == *old(self),
    {
        if self.count >= MAX_WAITERS {
            return false;
        }
        let tail = (self.head + self.count) % MAX_WAITERS;
        self.tasks[tail] = task;
        self.count += 1;
        proof {
            let a = old(self)@.push(task);
            assert(self@.len() == a.len());
            assert forall|i: int| 0 <= i < a.len() implies self@[i] == a[i] by {
                if i < old(self).count {
                    assert(self.slot(i) != tail);
                }
            }
            assert(self@ =~= a);
        }
        true
    }

    /// Pop the task that has waited longest: the head moves on by one
    /// slot, around the end of the buffer, and the buffer stays as it is.
    /// Returns `None`, and changes nothing, if the queue is empty.
    pub fn pop(&mut self) -> (r: Option<usize>)
        requires
            old(self).wf(),
        ensures
            final(self).wf(),
            old(self)@.len() == 0 ==> r.is_none() && *final(self) == *old(self),
            old(self)@.len() > 0
                ==> r == Some(old(self)@[0]) && final(self)@ == old(self)@.drop_first(),
            old(self)@.len() > 0 ==> final(self).head == (old(self).head + 1) % (
            MAX_WAITERS as int) && final(self).count == old(self).count - 1 && final(self).tasks
                == old(self).tasks,
    {
        if self.count == 0 {
            return None;
        }
        let task = self.tasks[self.head];
        self.head = (self.head + 1) % MAX_WAITERS;
        self.count -= 1;
        proof {
            let a = old(self)@.drop_first();
            assert(task == old(self)@[0]);
            assert forall|i: int| 0 <= i < a.len() implies self@[i] == a[i] by {
                assert(self.slot(i) == old(self).slot(i + 1));
            }
            assert(self@ =~= a);
        }
        Some(task)
    }

    /// Remove every occurrence of a task from the queue; the tasks that
    /// stay keep their order.
    pub fn remove(&mut self, task: usize)
        requires
            old(self).wf(),
        ensures
            final(self).wf(),
            final(self)@ == without(old(self)@, task),
            final(self).head == 0,
    {
        let old_count = self.count;
        let old_head = self.head;
        let mut new_tasks = [0usize; MAX_WAITERS];
        let mut new_count: usize = 0;
        let ghost before = self@;
        let mut i: usize = 0;
        while i < old_count
            invariant
                self.wf(),
                *self == *old(self),
                old_count == self.count,
                old_head == self.head,
                before == self@,
                i <= old_count,
                new_count <= i,
                Seq::new(new_count as nat, |j: int| new_tasks[j]) == without(
                    before.take(i as int),
                    task,
                ),
            decreases old_count - i,
        {
            let idx = (old_head + i) % MAX_WAITERS;
            let t = self.tasks[idx];
            proof {
                lemma_without_step(before, task, i as int);
                assert(t == before[i as int]);
            }
            let ghost prev = Seq::new(new_count as nat, |j: int| new_tasks[j]);
            if t != task {
                new_tasks[new_count] = t;
                new_count += 1;
                assert(Seq::new(new_count as nat, |j: int| new_tasks[j]) =~= prev.push(t));
            }
            i += 1;
        }
        self.tasks = new_tasks;
        self.head = 0;
        self.count = new_count;
        proof {
            assert(before.take(old_count as int) =~= before);
            assert(self@ =~= Seq::new(new_count as nat, |j: int| new_tasks[j]));
        }
    }

    /// Check if a task is in the queue.
    pub fn contains(&self, task: usize) -> (found: bool)
        requires
            self.wf(),
        ensures
            found == self@.contains(task),
    {
        let mut i: usize = 0;
        while i < self.count
            invariant
                self.wf(),
                i <= self.count,
                forall|j: int| 0 <= j < i ==> self@[j] != task,
            decreases self.count - i,
        {
            let idx = (self.head + i) % MAX_WAITERS;
            if self.tasks[idx] == task {
                assert(self@[i as int] == task);
                return true;
            }
            i += 1;
        }
        false
    }
}

/// An IPC endpoint.  Several senders can queue, one receiver waits.
#[derive(Clone, Copy, Debug)]
pub struct Endpoint {
    /// Tasks blocked waiting to send on this endpoint
    pub sender_queue: SenderQueue,
    /// Task blocked waiting to receive on this endpoint
    pub receiver: Option<usize>,
}

/// What an endpoint holds: the waiting senders in arrival order and the
/// waiting receiver.
pub struct EndpointView {
    pub senders: Seq<usize>,
    pub receiver: Option<usize>,
}

impl View for Endpoint {
    type V = EndpointView;

    open spec fn view(&self) -> EndpointView {
        EndpointView { senders: self.sender_queue@, receiver: self.receiver }
    }
}

impl Endpoint {
    /// The sender queue is well formed.
    pub open spec fn wf(&self) -> bool {
        self.sender_queue.wf()
    }
}

/// The task waits, Blocked, for the reply of `task`: it called, its
/// message reached `task`, and the reply has not come.
pub open spec fn awaits_reply_of(t: Tcb, task: usize) -> bool {
    t.state == TaskState::Blocked && t.awaits == Some(task)
}

/// Task `c` of the table is a partner of `task`: another task that
/// waits for the reply of `task`.
pub open spec fn is_partner(tcbs: Seq<Tcb>, c: usize, task: usize) -> bool {
    c < tcbs.len() && c != task && awaits_reply_of(tcbs[c as int], task)
}

/// A task whose partner has left: it is Ready again, with no reply to
/// wait for and with what it held when it blocked.
pub open spec fn partner_released(t: Tcb) -> Tcb {
    Tcb { state: TaskState::Ready, awaits: None, ..t }
}

/// What an endpoint holds once `task` has left: `task` is out of the
/// sender queue and out of the receiver slot, and so is a receiver that
/// waited for the reply of `task`.
pub open spec fn ep_cleaned(ep: EndpointView, task: usize, tcbs: Seq<Tcb>) -> EndpointView {
    EndpointView {
        senders: without(ep.senders, task),
        receiver: match ep.receiver {
            Some(r) => if r == task || is_partner(tcbs, r, task) {
                None
            } else {
                Some(r)
            },
            None => None,
        },
    }
}

/// What the endpoints of a table hold.
pub open spec fn endpoint_views(endpoints: [Endpoint; MAX_ENDPOINTS]) -> Seq<EndpointView> {
    Seq::new(MAX_ENDPOINTS as nat, |e: int| endpoints[e]@)
}

/// `task` waits in no sender queue and in no receiver slot.
pub open spec fn waits_nowhere(eps: Seq<EndpointView>, task: usize) -> bool {
    forall|e: int|
        0 <= e < eps.len() ==> !(#[trigger] eps[e]).senders.contains(task) && eps[e].receiver
            != Some(task)
}

/// `task` waits in no receiver slot.
pub open spec fn receives_nowhere(eps: Seq<EndpointView>, task: usize) -> bool {
    forall|e: int| 0 <= e < eps.len() ==> (#[trigger] eps[e]).receiver != Some(task)
}

/// The endpoints once `task` has left.
pub open spec fn endpoints_cleaned(eps: Seq<EndpointView>, task: usize, tcbs: Seq<Tcb>) -> Seq<
    EndpointView,
> {
    Seq::new(eps.len(), |e: int| ep_cleaned(eps[e], task, tcbs))
}

/// The control blocks once `task` has left: its partners are released.
pub open spec fn partners_released(tcbs: Seq<Tcb>, task: usize) -> Seq<Tcb> {
    Seq::new(
        tcbs.len(),
        |c: int|
            if is_partner(tcbs, c as usize, task) {
                partner_released(tcbs[c])
            } else {
                tcbs[c]
            },
    )
}

/// The kernel state once `task` has left the endpoints: it waits
/// nowhere, and every task that waited for its reply is Ready and out of
/// the receiver slot it waited in.
pub open spec fn ipc_cleaned(k: KernelView, task: usize) -> KernelView {
    KernelView {
        tcbs: partners_released(k.tcbs, task),
        endpoints: endpoints_cleaned(k.endpoints, task, k.tcbs),
        ..k
    }
}

/// A task that has left the endpoints waits nowhere, and a task that
/// waited for its reply waits in no receiver slot.
pub proof fn lemma_cleaned_waits_nowhere(eps: Seq<EndpointView>, task: usize, tcbs: Seq<Tcb>)
    ensures
        waits_nowhere(endpoints_cleaned(eps, task, tcbs), task),
        forall|c: usize|
            is_partner(tcbs, c, task) ==> receives_nowhere(endpoints_cleaned(eps, task, tcbs), c),
{
    let after = endpoints_cleaned(eps, task, tcbs);
    assert forall|e: int| 0 <= e < eps.len() implies !(#[trigger] after[e]).senders.contains(task)
        && after[e].receiver != Some(task) by {
        lemma_without_contains(eps[e].senders, task);
    }
    assert forall|c: usize| is_partner(tcbs, c, task) implies receives_nowhere(after, c) by {
        assert forall|e: int| 0 <= e < after.len() implies (#[trigger] after[e]).receiver != Some(
            c,
        ) by {}
    }
}

/// Remove a task from every endpoint, from each sender queue and from
/// each receiver slot it waits in, and unblock the tasks that wait for
/// its reply: each of them leaves the receiver slot it waits in and is
/// Ready again.  The other waiting tasks stay, in their order.
pub fn cleanup_task(k: &mut Kernel, task_idx: usize)
    requires
        forall|e: int| 0 <= e < MAX_ENDPOINTS ==> (#[trigger] old(k).endpoints[e]).wf(),
    ensures
        final(k)@ == ipc_cleaned(old(k)@, task_idx),
        forall|e: int| 0 <= e < MAX_ENDPOINTS ==> (#[trigger] final(k).endpoints[e]).wf(),
        final(k).keeps_identity(old(k)),
        final(k).current == old(k).current,
        final(k).tick_count == old(k).tick_count,
        final(k).epoch_ticks == old(k).epoch_ticks,
        final(k).grants == old(k).grants,
        final(k).irq_bindings == old(k).irq_bindings,
        old(k).wf() ==> final(k).wf(),
        waits_nowhere(final(k)@.endpoints, task_idx),
        forall|c: usize|
            is_partner(old(k)@.tcbs, c, task_idx) ==> final(k).tcbs[c as int].state
                == TaskState::Ready && final(k).tcbs[c as int].awaits.is_none()
                && receives_nowhere(final(k)@.endpoints, c),
{
    let ghost kv = old(k)@;
    let mut i: usize = 0;
    while i < MAX_ENDPOINTS
        invariant
            i <= MAX_ENDPOINTS,
            k.tcbs == old(k).tcbs,
            k.current == old(k).current,
            k.tick_count == old(k).tick_count,
            k.epoch_ticks == old(k).epoch_ticks,
            k.grants == old(k).grants,
            k.irq_bindings == old(k).irq_bindings,
            kv == old(k)@,
            forall|e: int| 0 <= e < MAX_ENDPOINTS ==> (#[trigger] k.endpoints[e]).wf(),
            forall|e: int|
                0 <= e < i ==> (#[trigger] k.endpoints[e])@ == ep_cleaned(
                    old(k).endpoints[e]@,
                    task_idx,
                    kv.tcbs,
                ),
            forall|e: int| i <= e < MAX_ENDPOINTS
                ==> #[trigger] k.endpoints[e] == old(k).endpoints[e],
        decreases MAX_ENDPOINTS - i,
    {
        k.endpoints[i].sender_queue.remove(task_idx);
        match k.endpoints[i].receiver {
            Some(r) => {
                if r == task_idx || (r < NUM_TASKS && k.tcbs[r].state == TaskState::Blocked
                    && k.tcbs[r].awaits == Some(task_idx)) {
                    k.endpoints[i].receiver = None;
                }
            },
            None => {},
        }
        i += 1;
    }
    let mut c: usize = 0;
    while c < NUM_TASKS
        invariant
            c <= NUM_TASKS,
            k.current == old(k).current,
            k.tick_count == old(k).tick_count,
            k.epoch_ticks == old(k).epoch_ticks,
            k.grants == old(k).grants,
            k.irq_bindings == old(k).irq_bindings,
            kv == old(k)@,
            forall|e: int| 0 <= e < MAX_ENDPOINTS ==> (#[trigger] k.endpoints[e]).wf(),
            forall|e: int|
                0 <= e < MAX_ENDPOINTS ==> (#[trigger] k.endpoints[e])@ == ep_cleaned(
                    old(k).endpoints[e]@,
                    task_idx,
                    kv.tcbs,
                ),
            forall|t: int|
                0 <= t < c ==> #[trigger] k.tcbs[t] == partners_released(kv.tcbs, task_idx)[t],
            forall|t: int| c <= t < NUM_TASKS ==> #[trigger] k.tcbs[t] == old(k).tcbs[t],
        decreases NUM_TASKS - c,
    {
        if c != task_idx && k.tcbs[c].state == TaskState::Blocked && k.tcbs[c].awaits == Some(
            task_idx,
        ) {
            k.tcbs[c].state = TaskState::Ready;
            k.tcbs[c].awaits = None;
        }
        c += 1;
    }
    proof {
        let want = ipc_cleaned(kv, task_idx);
        assert(k@.tcbs =~= want.tcbs);
        assert(k@.endpoints =~= want.endpoints);
        lemma_cleaned_waits_nowhere(kv.endpoints, task_idx, kv.tcbs);
        if old(k).wf() {
            assert forall|e: int| 0 <= e < MAX_ENDPOINTS
                implies ((#[trigger] k@.endpoints[e]).receiver matches Some(
                r,
            ) ==> r < NUM_TASKS) && k@.endpoints[e].senders.len() <= MAX_WAITERS by {
                lemma_without_contains(kv.endpoints[e].senders, task_idx);
                assert(kv.endpoints[e].senders.len() <= MAX_WAITERS);
            }
        }
    }
}

/// An endpoint on which nobody waits.
pub fn empty_ep() -> (ep: Endpoint)
    ensures
        ep.wf(),
        ep@.senders == Seq::<usize>::empty(),
        ep@.receiver.is_none(),
        ep.sender_queue.count == 0,
{
    Endpoint { sender_queue: SenderQueue::new(), receiver: None }
}

impl View for SenderQueue {
    type V = Seq<usize>;

    /// The waiting tasks, the one that has waited longest first.
    open spec fn view(&self) -> Seq<usize> {
        Seq::new(self.count as nat, |i: int| self.tasks[self.slot(i)])
    }
}

/// The message registers of `dst` replaced by those of `src`; the other
/// registers of `dst` stay.
pub open spec fn message_copied(dst: [u64; 31], src: [u64; 31]) -> [u64; 31] {
    vstd::array::spec_array_update(
        vstd::array::spec_array_update(
            vstd::array::spec_array_update(vstd::array::spec_array_update(dst, 0, src[0]), 1,
                src[1]),
            2,
            src[2],
        ),
        3,
        src[3],
    )
}

/// The frame `dst` carrying the message of the frame `src`.
pub open spec fn with_message(dst: TrapFrame, src: TrapFrame) -> TrapFrame {
    TrapFrame { x: message_copied(dst.x, src.x), ..dst }
}

/// A frame that carries a message holds exactly the four message words
/// of the source, and is otherwise as it was.
pub proof fn lemma_with_message(dst: TrapFrame, src: TrapFrame)
    ensures
        forall|i: int| 0 <= i < MSG_REGS ==> with_message(dst, src).x[i] == src.x[i],
        forall|i: int| MSG_REGS <= i < 31 ==> with_message(dst, src).x[i] == dst.x[i],
        with_message(dst, src).sp_el0 == dst.sp_el0,
        with_message(dst, src).elr_el1 == dst.elr_el1,
        with_message(dst, src).spsr_el1 == dst.spsr_el1,
        with_message(dst, src)._pad == dst._pad,
{
}

/// Copy the message registers of one array to another.
pub fn copy_message_pure(src: &[u64; MSG_REGS], dst: &[u64; MSG_REGS]) -> (out: [u64; MSG_REGS])
    ensures
        out@ == src@,
{
    let mut out = *dst;
    let mut i: usize = 0;
    while i < MSG_REGS
        invariant
            i <= MSG_REGS,
            forall|j: int| 0 <= j < i ==> out[j] == src[j],
        decreases MSG_REGS - i,
    {
        out[i] = src[i];
        i += 1;
    }
    assert(out@ =~= src@);
    out
}

/// Copy the message registers x0..x3 from the saved context of one task
/// to that of another.
pub fn copy_message(k: &mut Kernel, from_task: usize, to_task: usize)
    requires
        from_task < NUM_TASKS,
        to_task < NUM_TASKS,
    ensures
        final(k).keeps_identity(old(k)),
        final(k).same_but_tcbs(old(k)),
        final(k).tcbs@ == old(k).tcbs@.update(
            to_task as int,
            Tcb {
                context: with_message(
                    old(k).tcbs[to_task as int].context,
                    old(k).tcbs[from_task as int].context,
                ),
                ..old(k).tcbs[to_task as int]
            },
        ),
{
    let src = k.tcbs[from_task].context.x;
    let mut i: usize = 0;
    while i < MSG_REGS
        invariant
            i <= MSG_REGS,
            to_task < NUM_TASKS,
            k.same_but_tcbs(old(k)),
            src == old(k).tcbs[from_task as int].context.x,
            forall|t: int| 0 <= t < NUM_TASKS && t != to_task ==> k.tcbs[t] == old(k).tcbs[t],
            k.tcbs[to_task as int] == (Tcb {
                context: TrapFrame {
                    x: k.tcbs[to_task as int].context.x,
                    ..old(k).tcbs[to_task as int].context
                },
                ..old(k).tcbs[to_task as int]
            }),
            forall|j: int| 0 <= j < i ==> k.tcbs[to_task as int].context.x[j] == src[j],
            forall|j: int|
                i <= j < 31 ==> k.tcbs[to_task as int].context.x[j]
                    == old(k).tcbs[to_task as int].context.x[j],
        decreases MSG_REGS - i,
    {
        k.tcbs[to_task].context.x[i] = src[i];
        i += 1;
    }
    proof {
        let want = message_copied(old(k).tcbs[to_task as int].context.x, src);
        assert(k.tcbs[to_task as int].context.x =~= want);
        assert(k.tcbs@ =~= old(k).tcbs@.update(
            to_task as int,
            Tcb {
                context: with_message(
                    old(k).tcbs[to_task as int].context,
                    old(k).tcbs[from_task as int].context,
                ),
                ..old(k).tcbs[to_task as int]
            },
        ));
    }
}

/// The priority a task holds after a task of priority `blocker` has
/// begun to wait for it: the higher of the two.
pub open spec fn boosted(holder: u8, blocker: u8) -> u8 {
    if blocker > holder {
        blocker
    } else {
        holder
    }
}

/// Raise the priority of `holder` to that of `blocker` if that is
/// higher, so that a task waited for by a more important one is not kept
/// from running by tasks in between.  A task index out of range counts
/// as a task of priority 0 that cannot be boosted.
pub fn maybe_boost_priority(k: &mut Kernel, blocker: usize, holder: usize)
    ensures
        final(k).keeps_identity(old(k)),
        final(k).same_but_tcbs(old(k)),
        holder < NUM_TASKS && blocker < NUM_TASKS ==> final(k).tcbs@ == old(k).tcbs@.update(
            holder as int,
            Tcb {
                priority: boosted(
                    old(k).tcbs[holder as int].priority,
                    old(k).tcbs[blocker as int].priority,
                ),
                ..old(k).tcbs[holder as int]
            },
        ),
        holder >= NUM_TASKS || blocker >= NUM_TASKS ==> *final(k) == *old(k),
{
    let blocker_prio = crate::kernel::sched::get_task_priority(k, blocker);
    let holder_prio = crate::kernel::sched::get_task_priority(k, holder);
    if blocker_prio > holder_prio {
        crate::kernel::sched::set_task_priority(k, holder, blocker_prio);
    } else {
        assert(holder < NUM_TASKS ==> k.tcbs@ =~= old(k).tcbs@.update(
            holder as int,
            old(k).tcbs[holder as int],
        ));
    }
}

/// The kernel state with the trap frame of the current task saved in
/// its control block.
pub open spec fn saved(k: KernelView, frame: TrapFrame) -> KernelView {
    k.with_tcb(k.current as int, Tcb { context: frame, ..k.tcbs[k.current as int] })
}

/// A waiting task woken with a message: it holds the message, has its
/// base priority back, waits for nobody any more and is Ready.
pub open spec fn woken_with(t: Tcb, msg: TrapFrame) -> Tcb {
    Tcb {
        context: with_message(t.context, msg),
        priority: t.base_priority,
        state: TaskState::Ready,
        awaits: None,
        ..t
    }
}

/// The state after the current task's message went to the receiver `r`
/// that waited on endpoint `ep`: `r` is woken with the message and the
/// receiver slot is free.
pub open spec fn delivered(k: KernelView, ep: int, r: usize) -> KernelView {
    KernelView {
        tcbs: k.tcbs.update(
            r as int,
            woken_with(k.tcbs[r as int], k.tcbs[k.current as int].context),
        ),
        endpoints: k.endpoints.update(ep, EndpointView { receiver: None, ..k.endpoints[ep] }),
        ..k
    }
}

/// The state after the current task joined the senders of endpoint `ep`:
/// it is last in the queue and Blocked.
pub open spec fn enqueued(k: KernelView, ep: int) -> KernelView {
    KernelView {
        tcbs: k.tcbs.update(
            k.current as int,
            Tcb { state: TaskState::Blocked, ..k.tcbs[k.current as int] },
        ),
        endpoints: k.endpoints.update(
            ep,
            EndpointView { senders: k.endpoints[ep].senders.push(k.current), ..k.endpoints[ep] },
        ),
        ..k
    }
}

/// The current task has to wait as a sender on endpoint `ep_id`, and
/// can: the endpoint exists, nobody waits to receive, the queue has room.
pub open spec fn send_blocks(k: KernelView, ep_id: usize) -> bool {
    &&& ep_id < MAX_ENDPOINTS
    &&& k.endpoints[ep_id as int].receiver.is_none()
    &&& k.endpoints[ep_id as int].senders.len() < MAX_WAITERS
}

/// The kernel state after the current task, trapped with `frame`, sends
/// on endpoint `ep_id`.
///
/// A waiting receiver gets the message at once and the sender goes on.
/// Without a receiver the sender queues up, blocks, and another task is
/// scheduled.  A full queue, or an endpoint that does not exist, leaves
/// everything as it was.
pub open spec fn sent(k: KernelView, frame: TrapFrame, ep_id: usize) -> KernelView {
    if ep_id >= MAX_ENDPOINTS {
        k
    } else if let Some(r) = k.endpoints[ep_id as int].receiver {
        delivered(saved(k, frame), ep_id as int, r)
    } else if k.endpoints[ep_id as int].senders.len() >= MAX_WAITERS {
        k
    } else {
        scheduled(enqueued(saved(k, frame), ep_id as int), frame)
    }
}

/// The frame execution resumes with after a send: the sender's own
/// unless it blocked, else that of the task scheduled instead.
pub open spec fn frame_after_send(k: KernelView, frame: TrapFrame, ep_id: usize) -> TrapFrame {
    if send_blocks(k, ep_id) {
        resumed_frame(enqueued(saved(k, frame), ep_id as int), frame)
    } else {
        frame
    }
}

/// Send the message in `frame.x[0..4]` on an endpoint.
///
/// If a receiver is waiting the message is delivered at once and the
/// receiver becomes Ready with its base priority; the sender goes on.
/// Otherwise the sender joins the endpoint's queue and blocks, and the
/// next task is scheduled.  If the queue is full, or the endpoint does
/// not exist, nothing changes.
pub fn sys_send(k: &mut Kernel, frame: &mut TrapFrame, ep_id: usize)
    requires
        old(k).wf(),
    ensures
        final(k).keeps_identity(old(k)),
        final(k).wf(),
        final(k)@ == sent(old(k)@, *old(frame), ep_id),
        *final(frame) == frame_after_send(old(k)@, *old(frame), ep_id),
        old(k)@.senders_in_range() ==> final(k)@.senders_in_range(),
{
    if ep_id >= MAX_ENDPOINTS {
        return ;
    }
    let current = crate::kernel::sched::current_task_id(k) as usize;
    let ghost kv = old(k)@;
    let ghost fr = *old(frame);
    assert(kv.endpoints[ep_id as int] == old(k).endpoints[ep_id as int]@);
    proof {
        lemma_wf_receivers(old(k));
    }
    match k.endpoints[ep_id].receiver {
        Some(recv_task) => {
            k.endpoints[ep_id].receiver = None;
            crate::kernel::sched::save_frame(k, current, frame);
            copy_message(k, current, recv_task);
            crate::kernel::sched::restore_base_priority(k, recv_task);
            crate::kernel::sched::set_task_state(k, recv_task, TaskState::Ready);
            k.tcbs[recv_task].awaits = None;
            proof {
                lemma_wf_receivers(old(k));
                let want = delivered(saved(kv, fr), ep_id as int, recv_task);
                assert(k@.tcbs =~= want.tcbs);
                assert(k@.endpoints =~= want.endpoints);
                lemma_view_wf(old(k), k);
            }
        },
        None => {
            if !k.endpoints[ep_id].sender_queue.push(current) {
                assert(k.endpoints =~= old(k).endpoints);
                return ;
            }
            crate::kernel::sched::save_frame(k, current, frame);
            crate::kernel::sched::set_task_state(k, current, TaskState::Blocked);
            proof {
                lemma_wf_receivers(old(k));
                let want = enqueued(saved(kv, fr), ep_id as int);
                assert(k@.tcbs =~= want.tcbs);
                assert(k@.endpoints =~= want.endpoints);
                assert(k@ == want);
                lemma_view_wf(old(k), k);
            }
            schedule(k, frame);
        },
    }
}

/// The state after the current task received the message of `s`, the
/// sender that waited longest on endpoint `ep`: the current task holds
/// the message, `s` has left the queue, has its base priority back and
/// is Ready.
pub open spec fn received(k: KernelView, ep: int, s: usize) -> KernelView {
    let cur = k.current as int;
    let t1 = k.tcbs.update(
        cur,
        Tcb { context: with_message(k.tcbs[cur].context, k.tcbs[s as int].context), ..k.tcbs[cur] },
    );
    let t2 = t1.update(
        s as int,
        Tcb {
            priority: t1[s as int].base_priority,
            state: TaskState::Ready,
            awaits: None,
            ..t1[s as int]
        },
    );
    KernelView {
        tcbs: t2,
        endpoints: k.endpoints.update(
            ep,
            EndpointView { senders: k.endpoints[ep].senders.drop_first(), ..k.endpoints[ep] },
        ),
        ..k
    }
}

/// The state after the current task took the receiver slot of endpoint
/// `ep` and blocked.
pub open spec fn awaiting(k: KernelView, ep: int) -> KernelView {
    KernelView {
        tcbs: k.tcbs.update(
            k.current as int,
            Tcb { state: TaskState::Blocked, ..k.tcbs[k.current as int] },
        ),
        endpoints: k.endpoints.update(
            ep,
            EndpointView { receiver: Some(k.current), ..k.endpoints[ep] },
        ),
        ..k
    }
}

/// The kernel state after the current task, trapped with `frame`,
/// receives on endpoint `ep_id`.
///
/// If senders wait, the message of the first is taken and that sender
/// woken; the receiver goes on.  Otherwise the receiver takes the
/// endpoint's receiver slot, blocks, and another task is scheduled.  An
/// endpoint that does not exist leaves everything as it was.
pub open spec fn recvd(k: KernelView, frame: TrapFrame, ep_id: usize) -> KernelView {
    if ep_id >= MAX_ENDPOINTS {
        k
    } else if k.endpoints[ep_id as int].senders.len() > 0 {
        received(saved(k, frame), ep_id as int, k.endpoints[ep_id as int].senders[0])
    } else {
        scheduled(awaiting(saved(k, frame), ep_id as int), frame)
    }
}

/// The frame execution resumes with after a receive: the receiver's own
/// with the message in it if a sender waited, else that of the task
/// scheduled instead.
pub open spec fn frame_after_recv(k: KernelView, frame: TrapFrame, ep_id: usize) -> TrapFrame {
    if ep_id >= MAX_ENDPOINTS {
        frame
    } else if k.endpoints[ep_id as int].senders.len() > 0 {
        recvd(k, frame, ep_id).tcbs[k.current as int].context
    } else {
        resumed_frame(awaiting(saved(k, frame), ep_id as int), frame)
    }
}

/// Receive a message from an endpoint.
///
/// If a sender is queued, the message of the first-queued sender is
/// copied into the receiver's frame; that sender becomes Ready with its
/// base priority and the receiver goes on.  Otherwise the receiver is
/// recorded as the endpoint's waiting receiver and blocks, and the next
/// task is scheduled.  If the endpoint does not exist nothing changes.
pub fn sys_recv(k: &mut Kernel, frame: &mut TrapFrame, ep_id: usize)
    requires
        old(k).wf(),
        old(k)@.senders_in_range(),
    ensures
        final(k).keeps_identity(old(k)),
        final(k).wf(),
        final(k)@.senders_in_range(),
        final(k)@ == recvd(old(k)@, *old(frame), ep_id),
        *final(frame) == frame_after_recv(old(k)@, *old(frame), ep_id),
        crate::kernel::waiting::orderly(old(k)@) && ep_id < MAX_ENDPOINTS
            && old(k)@.endpoints[ep_id as int].senders.len() > 0 ==> ({
            let a = old(k)@.endpoints[ep_id as int].senders[0];
            let b = old(k).current;
            &&& a < NUM_TASKS && a != b
            &&& !final(k)@.endpoints[ep_id as int].senders.contains(a)
            &&& waits_nowhere(final(k)@.endpoints, a)
            &&& forall|i: int|
                0 <= i < MSG_REGS
                    ==> final(k).tcbs[b as int].context.x[i] == old(k).tcbs[a as int].context.x[i]
            &&& forall|i: int|
                0 <= i < MSG_REGS ==> final(frame).x[i] == old(k).tcbs[a as int].context.x[i]
            &&& forall|i: int| MSG_REGS <= i < 31 ==> final(frame).x[i] == old(frame).x[i]
            &&& final(k).current == b
            &&& final(k).tcbs[b as int].state == TaskState::Running
            &&& final(k).tcbs[a as int].state == TaskState::Ready
            &&& final(k).tcbs[a as int].priority == old(k).tcbs[a as int].base_priority
            &&& crate::kernel::waiting::orderly(final(k)@)
        }),
{
    proof {
        if crate::kernel::waiting::orderly(old(k)@) && ep_id < MAX_ENDPOINTS
            && old(k)@.endpoints[ep_id as int].senders.len() > 0 {
            crate::kernel::waiting::lemma_recv_completes_rendezvous(old(k)@, *old(frame), ep_id);
        }
    }
    if ep_id >= MAX_ENDPOINTS {
        return ;
    }
    let current = crate::kernel::sched::current_task_id(k) as usize;
    let ghost kv = old(k)@;
    let ghost fr = *old(frame);
    assert(kv.endpoints[ep_id as int] == old(k).endpoints[ep_id as int]@);
    proof {
        lemma_wf_receivers(old(k));
    }
    match k.endpoints[ep_id].sender_queue.pop() {
        Some(send_task) => {
            assert(send_task == kv.endpoints[ep_id as int].senders[0]);
            crate::kernel::sched::save_frame(k, current, frame);
            copy_message(k, send_task, current);
            crate::kernel::sched::restore_base_priority(k, send_task);
            crate::kernel::sched::set_task_state(k, send_task, TaskState::Ready);
            k.tcbs[send_task].awaits = None;
            crate::kernel::sched::load_frame(k, current, frame);
            proof {
                let want = received(saved(kv, fr), ep_id as int, send_task);
                assert(k@.tcbs =~= want.tcbs);
                assert(k@.endpoints =~= want.endpoints);
                lemma_view_wf(old(k), k);
            }
        },
        None => {
            assert(k.endpoints =~= old(k).endpoints);
            k.endpoints[ep_id].receiver = Some(current);
            crate::kernel::sched::save_frame(k, current, frame);
            crate::kernel::sched::set_task_state(k, current, TaskState::Blocked);
            proof {
                let want = awaiting(saved(kv, fr), ep_id as int);
                assert(k@.tcbs =~= want.tcbs);
                assert(k@.endpoints =~= want.endpoints);
                assert(k@ == want);
                lemma_view_wf(old(k), k);
            }
            schedule(k, frame);
        },
    }
}

/// The state after the current task's call reached the receiver `r`
/// that waited on endpoint `ep`: `r` is woken with the message and
/// inherits the caller's priority if that is higher; the caller waits in
/// the receiver slot for the reply of `r`, Blocked.
pub open spec fn called(k: KernelView, ep: int, r: usize) -> KernelView {
    let d = delivered(k, ep, r);
    let cur = k.current as int;
    let t1 = d.tcbs.update(
        r as int,
        Tcb {
            priority: boosted(d.tcbs[r as int].priority, d.tcbs[cur].priority),
            ..d.tcbs[r as int]
        },
    );
    let t2 = t1.update(cur, Tcb { state: TaskState::Blocked, awaits: Some(r), ..t1[cur] });
    KernelView {
        tcbs: t2,
        endpoints: d.endpoints.update(
            ep,
            EndpointView { receiver: Some(k.current), ..d.endpoints[ep] },
        ),
        ..d
    }
}

/// The kernel state after the current task, trapped with `frame`, calls
/// on endpoint `ep_id`: a send followed by a wait for the reply.
///
/// A waiting receiver gets the message and the caller's priority if that
/// is higher, and the caller waits in the receiver slot.  Without a
/// receiver the caller queues up as in a send.  Either way the caller
/// blocks and another task is scheduled; a full queue, or an endpoint
/// that does not exist, leaves everything as it was.
pub open spec fn call_made(k: KernelView, frame: TrapFrame, ep_id: usize) -> KernelView {
    if ep_id >= MAX_ENDPOINTS {
        k
    } else if let Some(r) = k.endpoints[ep_id as int].receiver {
        scheduled(called(saved(k, frame), ep_id as int, r), frame)
    } else if k.endpoints[ep_id as int].senders.len() >= MAX_WAITERS {
        k
    } else {
        scheduled(enqueued(saved(k, frame), ep_id as int), frame)
    }
}

/// The frame execution resumes with after a call: that of the task
/// scheduled instead of the caller, or the caller's own if nothing
/// changed.
pub open spec fn frame_after_call(k: KernelView, frame: TrapFrame, ep_id: usize) -> TrapFrame {
    if ep_id >= MAX_ENDPOINTS {
        frame
    } else if let Some(r) = k.endpoints[ep_id as int].receiver {
        resumed_frame(called(saved(k, frame), ep_id as int, r), frame)
    } else if k.endpoints[ep_id as int].senders.len() >= MAX_WAITERS {
        frame
    } else {
        resumed_frame(enqueued(saved(k, frame), ep_id as int), frame)
    }
}

/// Send a message and wait for the reply.
///
/// If a receiver is waiting it gets the message as in a send, the caller
/// becomes the endpoint's waiting receiver, and the woken task inherits
/// the caller's priority if that is higher.  If no receiver is waiting
/// the caller is queued as a sender.  In both cases the caller blocks
/// and the next task is scheduled.  If the queue is full, or the
/// endpoint does not exist, nothing changes.
pub fn sys_call(k: &mut Kernel, frame: &mut TrapFrame, ep_id: usize)
    requires
        old(k).wf(),
    ensures
        final(k).keeps_identity(old(k)),
        final(k).wf(),
        final(k)@ == call_made(old(k)@, *old(frame), ep_id),
        *final(frame) == frame_after_call(old(k)@, *old(frame), ep_id),
        old(k)@.senders_in_range() ==> final(k)@.senders_in_range(),
{
    if ep_id >= MAX_ENDPOINTS {
        return ;
    }
    let current = crate::kernel::sched::current_task_id(k) as usize;
    let ghost kv = old(k)@;
    let ghost fr = *old(frame);
    assert(kv.endpoints[ep_id as int] == old(k).endpoints[ep_id as int]@);
    proof {
        lemma_wf_receivers(old(k));
    }
    match k.endpoints[ep_id].receiver {
        Some(recv_task) => {
            crate::kernel::sched::save_frame(k, current, frame);
            copy_message(k, current, recv_task);
            crate::kernel::sched::restore_base_priority(k, recv_task);
            crate::kernel::sched::set_task_state(k, recv_task, TaskState::Ready);
            k.tcbs[recv_task].awaits = None;
            k.endpoints[ep_id].receiver = Some(current);
            maybe_boost_priority(k, current, recv_task);
            k.tcbs[current].awaits = Some(recv_task);
            crate::kernel::sched::set_task_state(k, current, TaskState::Blocked);
            proof {
                let want = called(saved(kv, fr), ep_id as int, recv_task);
                assert(k@.tcbs =~= want.tcbs);
                assert(k@.endpoints =~= want.endpoints);
                assert(k@ == want);
                lemma_view_wf(old(k), k);
            }
            schedule(k, frame);
        },
        None => {
            if !k.endpoints[ep_id].sender_queue.push(current) {
                assert(k.endpoints =~= old(k).endpoints);
                return ;
            }
            crate::kernel::sched::save_frame(k, current, frame);
            crate::kernel::sched::set_task_state(k, current, TaskState::Blocked);
            proof {
                let want = enqueued(saved(kv, fr), ep_id as int);
                assert(k@.tcbs =~= want.tcbs);
                assert(k@.endpoints =~= want.endpoints);
                assert(k@ == want);
                lemma_view_wf(old(k), k);
            }
            schedule(k, frame);
        },
    }
}

/// A send on an endpoint with a waiting receiver hands the receiver the
/// payload as it is: the four message words of the sender's frame are
/// in the receiver's saved context, whose other registers stay; the
/// receiver is Ready with its base priority; the sender goes on with its
/// frame; no task besides sender and receiver and no other endpoint is
/// touched.
pub proof fn lemma_send_delivers(k: KernelView, frame: TrapFrame, ep_id: usize, r: usize)
    requires
        k.wf(),
        ep_id < MAX_ENDPOINTS,
        k.endpoints[ep_id as int].receiver == Some(r),
    ensures
        forall|i: int|
            0 <= i < MSG_REGS ==> sent(k, frame, ep_id).tcbs[r as int].context.x[i] == frame.x[i],
        r != k.current ==> forall|i: int|
            MSG_REGS <= i < 31 ==> sent(k, frame, ep_id).tcbs[r as int].context.x[i]
                == k.tcbs[r as int].context.x[i],
        sent(k, frame, ep_id).tcbs[r as int].state == TaskState::Ready,
        sent(k, frame, ep_id).tcbs[r as int].priority == k.tcbs[r as int].base_priority,
        sent(k, frame, ep_id).current == k.current,
        frame_after_send(k, frame, ep_id) == frame,
        sent(k, frame, ep_id).endpoints[ep_id as int].receiver.is_none(),
        sent(k, frame, ep_id).endpoints[ep_id as int].senders == k.endpoints[ep_id as int].senders,
        forall|t: int|
            0 <= t < NUM_TASKS && t != r && t != k.current ==> sent(k, frame, ep_id).tcbs[t]
                == k.tcbs[t],
        forall|e: int|
            0 <= e < MAX_ENDPOINTS && e != ep_id ==> sent(k, frame, ep_id).endpoints[e]
                == k.endpoints[e],
{
    let s = saved(k, frame);
    lemma_with_message(s.tcbs[r as int].context, frame);
}

/// A receive on an endpoint with waiting senders takes the message of
/// the sender that has waited longest, and that sender leaves the queue
/// and is Ready; the senders behind it stay in their order.
pub proof fn lemma_recv_takes_first(k: KernelView, frame: TrapFrame, ep_id: usize)
    requires
        k.wf(),
        k.senders_in_range(),
        ep_id < MAX_ENDPOINTS,
        k.endpoints[ep_id as int].senders.len() > 0,
        k.endpoints[ep_id as int].senders[0] != k.current,
    ensures
        ({
            let s = k.endpoints[ep_id as int].senders[0];
            let after = recvd(k, frame, ep_id);
            &&& forall|i: int|
                0 <= i < MSG_REGS ==> after.tcbs[k.current as int].context.x[i]
                    == k.tcbs[s as int].context.x[i]
            &&& forall|i: int|
                0 <= i < MSG_REGS ==> frame_after_recv(k, frame, ep_id).x[i]
                    == k.tcbs[s as int].context.x[i]
            &&& after.tcbs[s as int].state == TaskState::Ready
            &&& after.tcbs[s as int].priority == k.tcbs[s as int].base_priority
            &&& after.endpoints[ep_id as int].senders
                == k.endpoints[ep_id as int].senders.drop_first()
            &&& after.current == k.current
        }),
{
    let s = k.endpoints[ep_id as int].senders[0];
    let sv = saved(k, frame);
    lemma_with_message(sv.tcbs[k.current as int].context, sv.tcbs[s as int].context);
}

/// In a well-formed state every waiting receiver is a task.
pub proof fn lemma_wf_receivers(k: &Kernel)
    requires
        k.wf(),
    ensures
        forall|e: int|
            0 <= e < MAX_ENDPOINTS ==> ((#[trigger] k.endpoints[e]).receiver matches Some(r) ==> r
                < NUM_TASKS),
{
    assert forall|e: int| 0 <= e < MAX_ENDPOINTS
        implies ((#[trigger] k.endpoints[e]).receiver matches Some(
        r,
    ) ==> r < NUM_TASKS) by {
        assert(k@.endpoints[e].receiver == k.endpoints[e].receiver);
    }
}

/// A state whose endpoints are well formed, whose receivers are tasks,
/// and whose control blocks kept their ids and whose current task exists
/// is well formed.
proof fn lemma_view_wf(before: &Kernel, after: &Kernel)
    requires
        before.wf(),
        after.current < NUM_TASKS,
        after.keeps_identity(before),
        forall|e: int| 0 <= e < MAX_ENDPOINTS ==> (#[trigger] after.endpoints[e]).wf(),
        forall|e: int|
            0 <= e < MAX_ENDPOINTS ==> ((#[trigger] after.endpoints[e]).receiver matches Some(r)
                ==> r < NUM_TASKS),
    ensures
        after.wf(),
{
    assert forall|e: int| 0 <= e < MAX_ENDPOINTS
        implies ((#[trigger] after@.endpoints[e]).receiver matches Some(
        r,
    ) ==> r < NUM_TASKS) && after@.endpoints[e].senders.len() <= MAX_WAITERS by {
        assert(after.endpoints[e].wf());
        assert(after@.endpoints[e] == after.endpoints[e]@);
    }
}

/// Filtering one more element either appends it or leaves the result as
/// it was.
pub proof fn lemma_without_step(s: Seq<usize>, task: usize, i: int)
    requires
        0 <= i < s.len(),
    ensures
        without(s.take(i + 1), task) == if s[i] != task {
            without(s.take(i), task).push(s[i])
        } else {
            without(s.take(i), task)
        },
{
    reveal(Seq::filter);
    assert(s.take(i + 1).drop_last() =~= s.take(i));
    assert(s.take(i + 1).last() == s[i]);
}

/// What is left after removing a task does not hold it, holds every
/// other task that was there, and nothing else.
pub proof fn lemma_without_contains(s: Seq<usize>, task: usize)
    ensures
        !without(s, task).contains(task),
        forall|t: usize| t != task ==> without(s, task).contains(t) == s.contains(t),
        without(s, task).len() <= s.len(),
{
    let pred = other_than(task);
    let f = without(s, task);
    s.lemma_filter_len(pred);
    assert forall|t: usize| f.contains(t) == (s.contains(t) && t != task) by {
        if s.contains(t) && t != task {
            let i = choose|i: int| 0 <= i < s.len() && s[i] == t;
            s.lemma_filter_contains(pred, i);
        }
        if f.contains(t) {
            let j = choose|j: int| 0 <= j < f.len() && f[j] == t;
            s.lemma_filter_pred(pred, j);
            s.lemma_filter_contains_rev(pred, t);
        }
    }
}

} // verus!
