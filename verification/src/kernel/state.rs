//! The kernel's tables, owned by one structure.
//!
//! The kernel runs every trap to completion on a single core, so one
//! exclusive borrow of [`Kernel`] per trap stands for the whole of the
//! kernel's mutable state.

use vstd::prelude::*;
use crate::kernel::grant::{empty_grant, Grant, MAX_GRANTS};
use crate::kernel::ipc::{empty_ep, Endpoint, EndpointView, MAX_ENDPOINTS, MAX_WAITERS};
use crate::kernel::irq::{empty_binding, IrqBinding, MAX_IRQ_BINDINGS};
use crate::kernel::sched::{empty_tcb, Tcb, NUM_TASKS};

verus! {

/// Task table, endpoints, grant and IRQ tables, and the tick counters.
#[derive(Clone, Copy, Debug)]
pub struct Kernel {
    /// task control blocks, indexed by task
    pub tcbs: [Tcb; NUM_TASKS],
    /// index of the currently running task
    pub current: usize,
    /// monotonic tick counter
    pub tick_count: u64,
    /// ticks since the last epoch reset
    pub epoch_ticks: u64,
    /// IPC endpoints
    pub endpoints: [Endpoint; MAX_ENDPOINTS],
    /// shared memory grants
    pub grants: [Grant; MAX_GRANTS],
    /// IRQ bindings
    pub irq_bindings: [IrqBinding; MAX_IRQ_BINDINGS],
}

/// The kernel state as plain sequences.
pub struct KernelView {
    pub tcbs: Seq<Tcb>,
    pub current: usize,
    pub tick_count: u64,
    pub epoch_ticks: u64,
    pub endpoints: Seq<EndpointView>,
    pub grants: Seq<Grant>,
    pub irq_bindings: Seq<IrqBinding>,
}

impl View for Kernel {
    type V = KernelView;

    open spec fn view(&self) -> KernelView {
        KernelView {
            tcbs: self.tcbs@,
            current: self.current,
            tick_count: self.tick_count,
            epoch_ticks: self.epoch_ticks,
            endpoints: crate::kernel::ipc::endpoint_views(self.endpoints),
            grants: self.grants@,
            irq_bindings: self.irq_bindings@,
        }
    }
}

impl KernelView {
    /// The state with the control block of task `i` replaced.
    pub open spec fn with_tcb(self, i: int, t: Tcb) -> KernelView {
        KernelView { tcbs: self.tcbs.update(i, t), ..self }
    }

    /// The tables have their fixed sizes, the current task exists, every
    /// control block carries its own index, and every waiting receiver is
    /// a task.
    pub open spec fn wf(self) -> bool {
        &&& self.tcbs.len() == NUM_TASKS
        &&& self.endpoints.len() == MAX_ENDPOINTS
        &&& self.grants.len() == MAX_GRANTS
        &&& self.irq_bindings.len() == MAX_IRQ_BINDINGS
        &&& self.current < NUM_TASKS
        &&& forall|i: int| 0 <= i < NUM_TASKS ==> (#[trigger] self.tcbs[i]).id == i
        &&& forall|e: int|
            0 <= e < MAX_ENDPOINTS ==> ((#[trigger] self.endpoints[e]).receiver matches Some(r)
                ==> r < NUM_TASKS)
        &&& forall|e: int|
            0 <= e < MAX_ENDPOINTS ==> (#[trigger] self.endpoints[e]).senders.len() <= MAX_WAITERS
    }

    /// Every task that waits to send is a task of the table.
    pub open spec fn senders_in_range(self) -> bool {
        forall|e: int, j: int|
            0 <= e < self.endpoints.len() && 0 <= j < self.endpoints[e].senders.len()
                ==> #[trigger] self.endpoints[e].senders[j] < NUM_TASKS
    }
}

impl Kernel {
    /// Everything but the task table is as in `other`.
    pub open spec fn same_but_tcbs(&self, other: &Kernel) -> bool {
        &&& self.current == other.current
        &&& self.tick_count == other.tick_count
        &&& self.epoch_ticks == other.epoch_ticks
        &&& self.endpoints == other.endpoints
        &&& self.grants == other.grants
        &&& self.irq_bindings == other.irq_bindings
    }

    /// Every task has the identity it had in `before`: id, capabilities,
    /// base priority, budget, entry point, stacks and address space.
    pub open spec fn keeps_identity(&self, before: &Kernel) -> bool {
        forall|i: int|
            0 <= i < NUM_TASKS ==> crate::kernel::sched::same_identity(
                #[trigger] self.tcbs[i],
                before.tcbs[i],
            )
    }

    /// Everything but the grant table is as in `other`.
    pub open spec fn same_but_grants(&self, other: &Kernel) -> bool {
        &&& self.tcbs == other.tcbs
        &&& self.current == other.current
        &&& self.tick_count == other.tick_count
        &&& self.epoch_ticks == other.epoch_ticks
        &&& self.endpoints == other.endpoints
        &&& self.irq_bindings == other.irq_bindings
    }

    /// Everything but the IRQ table is as in `other`.
    pub open spec fn same_but_irqs(&self, other: &Kernel) -> bool {
        &&& self.tcbs == other.tcbs
        &&& self.current == other.current
        &&& self.tick_count == other.tick_count
        &&& self.epoch_ticks == other.epoch_ticks
        &&& self.endpoints == other.endpoints
        &&& self.grants == other.grants
    }

    /// The abstract state is well formed and every sender queue is.
    pub open spec fn wf(&self) -> bool {
        &&& self@.wf()
        &&& forall|e: int| 0 <= e < MAX_ENDPOINTS ==> (#[trigger] self.endpoints[e]).wf()
    }

    /// A kernel with every table empty: all tasks Inactive with their
    /// index as id, nobody waiting, tick zero, task 0 current.
    pub fn new() -> (k: Kernel)
        ensures
            k.wf(),
            k@.senders_in_range(),
            k.current == 0,
            k.tick_count == 0,
            k.epoch_ticks == 0,
            forall|i: int|
                0 <= i < NUM_TASKS ==> #[trigger] k.tcbs[i] == (Tcb {
                    id: i as u16,
                    ..crate::kernel::sched::empty_tcb_spec()
                }),
            forall|e: int|
                0 <= e < MAX_ENDPOINTS ==> (#[trigger] k.endpoints[e])@.senders.len() == 0
                    && k.endpoints[e].receiver.is_none(),
            forall|g: int|
                0 <= g < MAX_GRANTS ==> #[trigger] k.grants[g]
                    == crate::kernel::grant::empty_grant_spec(),
            forall|b: int|
                0 <= b < MAX_IRQ_BINDINGS ==> #[trigger] k.irq_bindings[b]
                    == crate::kernel::irq::empty_binding_spec(),
    {
        let mut k = Kernel {
            tcbs: [empty_tcb(); NUM_TASKS],
            current: 0,
            tick_count: 0,
            epoch_ticks: 0,
            endpoints: [empty_ep(); MAX_ENDPOINTS],
            grants: [empty_grant(); MAX_GRANTS],
            irq_bindings: [empty_binding(); MAX_IRQ_BINDINGS],
        };
        let mut i: usize = 0;
        while i < NUM_TASKS
            invariant
                i <= NUM_TASKS,
                k.current == 0,
                k.tick_count == 0,
                k.epoch_ticks == 0,
                forall|j: int|
                    0 <= j < i ==> #[trigger] k.tcbs[j] == (Tcb {
                        id: j as u16,
                        ..crate::kernel::sched::empty_tcb_spec()
                    }),
                forall|j: int|
                    i <= j < NUM_TASKS ==> #[trigger] k.tcbs[j]
                        == crate::kernel::sched::empty_tcb_spec(),
                forall|e: int|
                    0 <= e < MAX_ENDPOINTS ==> (#[trigger] k.endpoints[e]).wf()
                        && k.endpoints[e]@.senders.len() == 0 && k.endpoints[e].receiver.is_none(),
                forall|g: int|
                    0 <= g < MAX_GRANTS ==> #[trigger] k.grants[g]
                        == crate::kernel::grant::empty_grant_spec(),
                forall|b: int|
                    0 <= b < MAX_IRQ_BINDINGS ==> #[trigger] k.irq_bindings[b]
                        == crate::kernel::irq::empty_binding_spec(),
            decreases NUM_TASKS - i,
        {
            k.tcbs[i].id = i as u16;
            i += 1;
        }
        k
    }

    /// Whether every task that waits to send is a task of the table.
    pub fn senders_ok(&self) -> (ok: bool)
        requires
            self.wf(),
        ensures
            ok == self@.senders_in_range(),
    {
        let mut e: usize = 0;
        while e < MAX_ENDPOINTS
            invariant
                e <= MAX_ENDPOINTS,
                self.wf(),
                forall|i: int, j: int|
                    0 <= i < e && 0 <= j < self@.endpoints[i].senders.len()
                        ==> #[trigger] self@.endpoints[i].senders[j] < NUM_TASKS,
            decreases MAX_ENDPOINTS - e,
        {
            let q = &self.endpoints[e].sender_queue;
            assert(self@.endpoints[e as int].senders == q@);
            assert(self.endpoints[e as int].wf());
            let mut j: usize = 0;
            while j < q.count
                invariant
                    j <= q.count,
                    q.wf(),
                    e < MAX_ENDPOINTS,
                    self@.endpoints[e as int].senders == q@,
                    forall|t: int| 0 <= t < j ==> #[trigger] q@[t] < NUM_TASKS,
                decreases q.count - j,
            {
                let idx = (q.head + j) % MAX_WAITERS;
                if q.tasks[idx] >= NUM_TASKS {
                    assert(self@.endpoints[e as int].senders[j as int] >= NUM_TASKS);
                    return false;
                }
                j += 1;
            }
            e += 1;
        }
        true
    }

    /// Whether the state is well formed, for callers that fill the
    /// tables by hand.
    pub fn is_wf(&self) -> (ok: bool)
        ensures
            ok == self.wf(),
    {
        if self.current >= NUM_TASKS {
            return false;
        }
        let mut i: usize = 0;
        while i < NUM_TASKS
            invariant
                i <= NUM_TASKS,
                forall|j: int| 0 <= j < i ==> (#[trigger] self.tcbs[j]).id == j,
            decreases NUM_TASKS - i,
        {
            if self.tcbs[i].id as usize != i {
                return false;
            }
            i += 1;
        }
        let mut e: usize = 0;
        while e < MAX_ENDPOINTS
            invariant
                e <= MAX_ENDPOINTS,
                forall|j: int| 0 <= j < e ==> (#[trigger] self.endpoints[j]).wf(),
                forall|j: int|
                    0 <= j < e ==> ((#[trigger] self.endpoints[j]).receiver matches Some(r) ==> r
                        < NUM_TASKS),
            decreases MAX_ENDPOINTS - e,
        {
            if !self.endpoints[e].sender_queue.is_wf() {
                return false;
            }
            match self.endpoints[e].receiver {
                Some(r) => {
                    if r >= NUM_TASKS {
                        assert(self@.endpoints[e as int].receiver == Some(r));
                        return false;
                    }
                },
                None => {},
            }
            e += 1;
        }
        assert forall|j: int| 0 <= j < MAX_ENDPOINTS
            implies ((#[trigger] self@.endpoints[j]).receiver matches Some(
            r,
        ) ==> r < NUM_TASKS) by {
            assert(self.endpoints[j].receiver == self@.endpoints[j].receiver);
        }
        true
    }
}

/// A state that differs from a well-formed one only in what control
/// blocks hold besides their ids, in which task is current, and in the
/// grant and IRQ tables, is well formed and queues the same senders.
pub proof fn lemma_tables_kept(before: &Kernel, after: &Kernel)
    requires
        before.wf(),
        after.current < NUM_TASKS,
        after.endpoints == before.endpoints,
        after.keeps_identity(before),
    ensures
        after.wf(),
        after@.endpoints == before@.endpoints,
        before@.senders_in_range() ==> after@.senders_in_range(),
{
    assert(after@.endpoints =~= before@.endpoints);
}

} // verus!
