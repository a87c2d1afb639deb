//! Routing of hardware interrupts to tasks.
//!
//! A task binds a shared peripheral interrupt to one of its notification
//! bits.  When the interrupt fires the bit is delivered and the interrupt
//! stays masked until the task acknowledges it.

use vstd::prelude::*;
use crate::kernel::sched::{deliver_notification, notified, NUM_TASKS};
use crate::kernel::state::{Kernel, KernelView};

verus! {

/// Maximum number of IRQ bindings
pub const MAX_IRQ_BINDINGS: usize = 8;

/// Minimum INTID that a task may bind (shared peripheral interrupts
/// start at 32)
pub const MIN_SPI_INTID: u32 = 32;

pub const ERR_INVALID_INTID: u64 = 0xFFFF_1001;

pub const ERR_ALREADY_BOUND: u64 = 0xFFFF_1002;

pub const ERR_TABLE_FULL: u64 = 0xFFFF_1003;

pub const ERR_NOT_BOUND: u64 = 0xFFFF_1004;

pub const ERR_NOT_OWNER: u64 = 0xFFFF_1005;

/// An IRQ-to-task binding: routes a hardware INTID to a notification.
#[derive(Clone, Copy, Debug)]
pub struct IrqBinding {
    /// Hardware interrupt ID
    pub intid: u32,
    /// Task receiving notifications when this IRQ fires
    pub task_id: usize,
    /// Which bit to OR into the task's pending notifications
    pub notify_bit: u64,
    /// Whether this binding slot is in use
    pub active: bool,
    /// The IRQ fired and the task has not acknowledged it yet
    pub pending_ack: bool,
}

/// The unused binding slot.
pub open spec fn empty_binding_spec() -> IrqBinding {
    IrqBinding { intid: 0, task_id: 0, notify_bit: 0, active: false, pending_ack: false }
}

/// An unused binding slot.
pub fn empty_binding() -> (b: IrqBinding)
    ensures
        b == empty_binding_spec(),
{
    IrqBinding { intid: 0, task_id: 0, notify_bit: 0, active: false, pending_ack: false }
}

/// Slot `i` of the table holds an active binding of `intid`.
pub open spec fn bound_at(table: Seq<IrqBinding>, intid: u32, i: int) -> bool {
    0 <= i < table.len() && table[i].active && table[i].intid == intid
}

/// Some slot holds an active binding of `intid`.
pub open spec fn is_bound(table: Seq<IrqBinding>, intid: u32) -> bool {
    exists|i: int| bound_at(table, intid, i)
}

/// `i` is the first slot that holds an active binding of `intid`.
pub open spec fn first_bound_at(table: Seq<IrqBinding>, intid: u32, i: int) -> bool {
    bound_at(table, intid, i) && forall|j: int| 0 <= j < i ==> !bound_at(table, intid, j)
}

/// The first slot that holds an active binding of `intid`.
pub open spec fn first_bound(table: Seq<IrqBinding>, intid: u32) -> int {
    choose|i: int| first_bound_at(table, intid, i)
}

/// `i` is the first slot that is not in use.
pub open spec fn first_free_at(table: Seq<IrqBinding>, i: int) -> bool {
    0 <= i < table.len() && !table[i].active && forall|j: int| 0 <= j < i ==> table[j].active
}

/// Some slot is not in use.
pub open spec fn has_free(table: Seq<IrqBinding>) -> bool {
    exists|i: int| 0 <= i < table.len() && !table[i].active
}

/// The first slot that is not in use.
pub open spec fn first_free(table: Seq<IrqBinding>) -> int {
    choose|i: int| first_free_at(table, i)
}

/// The first slot found is the first slot there is.
pub proof fn lemma_first_bound(table: Seq<IrqBinding>, intid: u32, i: int)
    requires
        first_bound_at(table, intid, i),
    ensures
        is_bound(table, intid),
        first_bound(table, intid) == i,
{
    let c = first_bound(table, intid);
    assert(first_bound_at(table, intid, c));
    if c < i {
        assert(!bound_at(table, intid, c));
    }
    if i < c {
        assert(!bound_at(table, intid, i));
    }
}

/// An INTID that is bound among the first `n` slots has a first
/// binding.
pub proof fn lemma_has_first_bound(table: Seq<IrqBinding>, intid: u32, n: int)
    requires
        0 <= n <= table.len(),
        exists|i: int| 0 <= i < n && bound_at(table, intid, i),
    ensures
        exists|i: int| first_bound_at(table, intid, i),
        first_bound_at(table, intid, first_bound(table, intid)),
    decreases n,
{
    if exists|i: int| 0 <= i < n - 1 && bound_at(table, intid, i) {
        lemma_has_first_bound(table, intid, n - 1);
    } else {
        assert(first_bound_at(table, intid, n - 1));
    }
}

/// The first free slot found is the first free slot there is.
pub proof fn lemma_first_free(table: Seq<IrqBinding>, i: int)
    requires
        first_free_at(table, i),
    ensures
        has_free(table),
        first_free(table) == i,
{
    let c = first_free(table);
    assert(first_free_at(table, c));
    if c < i {
        assert(table[c].active);
    }
    if i < c {
        assert(table[i].active);
    }
}

/// Why `intid` cannot be bound, the first reason that applies, or zero
/// if it can.
pub open spec fn bind_code(table: Seq<IrqBinding>, intid: u32, notify_bit: u64) -> u64 {
    if intid < MIN_SPI_INTID {
        ERR_INVALID_INTID
    } else if notify_bit == 0 {
        ERR_INVALID_INTID
    } else if is_bound(table, intid) {
        ERR_ALREADY_BOUND
    } else if !has_free(table) {
        ERR_TABLE_FULL
    } else {
        0
    }
}

/// Find the first active binding of `intid`.
fn find_binding(table: &[IrqBinding; MAX_IRQ_BINDINGS], intid: u32) -> (r: Option<usize>)
    ensures
        r.is_some() == is_bound(table@, intid),
        r matches Some(i) ==> i == first_bound(table@, intid) && first_bound_at(
            table@,
            intid,
            i as int,
        ),
{
    let mut i: usize = 0;
    while i < MAX_IRQ_BINDINGS
        invariant
            i <= MAX_IRQ_BINDINGS,
            forall|j: int| 0 <= j < i ==> !bound_at(table@, intid, j),
        decreases MAX_IRQ_BINDINGS - i,
    {
        if table[i].active && table[i].intid == intid {
            proof {
                lemma_first_bound(table@, intid, i as int);
            }
            return Some(i);
        }
        i += 1;
    }
    None
}

/// Decide a binding without carrying it out: the slot the binding is to
/// be stored in, or the error code.
///
/// Only shared peripheral interrupts (INTID 32 and up) can be bound, to
/// a notification bit that is not zero, and each INTID only once.
pub fn irq_bind_pure(
    table: &[IrqBinding; MAX_IRQ_BINDINGS],
    intid: u32,
    task_id: usize,
    notify_bit: u64,
) -> (r: Result<usize, u64>)
    ensures
        bind_code(table@, intid, notify_bit) == 0 ==> r == Ok::<usize, u64>(
            first_free(table@) as usize,
        ) && first_free_at(table@, first_free(table@)),
        bind_code(table@, intid, notify_bit) != 0 ==> r == Err::<usize, u64>(
            bind_code(table@, intid, notify_bit),
        ),
{
    if intid < MIN_SPI_INTID {
        return Err(ERR_INVALID_INTID);
    }
    if notify_bit == 0 {
        return Err(ERR_INVALID_INTID);
    }
    if find_binding(table, intid).is_some() {
        return Err(ERR_ALREADY_BOUND);
    }
    let mut j: usize = 0;
    while j < MAX_IRQ_BINDINGS
        invariant
            j <= MAX_IRQ_BINDINGS,
            intid >= MIN_SPI_INTID,
            notify_bit != 0,
            !is_bound(table@, intid),
            forall|i: int| 0 <= i < j ==> table[i].active,
        decreases MAX_IRQ_BINDINGS - j,
    {
        if !table[j].active {
            proof {
                lemma_first_free(table@, j as int);
            }
            return Ok(j);
        }
        j += 1;
    }
    Err(ERR_TABLE_FULL)
}

/// The table after a request to bind `intid`: the binding stored in the
/// first free slot if the request is in order, the table as it was if
/// not.
pub open spec fn bound(table: Seq<IrqBinding>, intid: u32, task_id: usize, notify_bit: u64) -> Seq<
    IrqBinding,
> {
    if bind_code(table, intid, notify_bit) == 0 {
        table.update(
            first_free(table),
            IrqBinding { intid, task_id, notify_bit, active: true, pending_ack: false },
        )
    } else {
        table
    }
}

/// Bind an IRQ to a notification bit of a task.
///
/// Returns 0 on success and stores the binding in the first free slot;
/// otherwise returns the error code and leaves the table as it was.  On
/// success the INTID is to be enabled in the interrupt controller.
pub fn irq_bind(
    table: &mut [IrqBinding; MAX_IRQ_BINDINGS],
    intid: u32,
    task_id: usize,
    notify_bit: u64,
) -> (code: u64)
    ensures
        code == bind_code(old(table)@, intid, notify_bit),
        final(table)@ == bound(old(table)@, intid, task_id, notify_bit),
        task_id < NUM_TASKS && targets_in_range(old(table)@) ==> targets_in_range(final(table)@),
        code == 0 ==> first_free_at(old(table)@, first_free(old(table)@))
            && final(table)@ == old(table)@.update(
            first_free(old(table)@),
            IrqBinding { intid, task_id, notify_bit, active: true, pending_ack: false },
        ),
        code != 0 ==> *final(table) == *old(table),
{
    match irq_bind_pure(table, intid, task_id, notify_bit) {
        Ok(idx) => {
            table[idx] = IrqBinding { intid, task_id, notify_bit, active: true,
                pending_ack: false };
            0
        },
        Err(e) => e,
    }
}

/// What acknowledging `intid` on behalf of `task_id` returns.
pub open spec fn ack_code(table: Seq<IrqBinding>, intid: u32, task_id: usize) -> u64 {
    if !is_bound(table, intid) {
        ERR_NOT_BOUND
    } else if table[first_bound(table, intid)].task_id != task_id {
        ERR_NOT_OWNER
    } else {
        0
    }
}

/// The table after a request to acknowledge `intid`.
pub open spec fn acked(table: Seq<IrqBinding>, intid: u32, task_id: usize) -> Seq<IrqBinding> {
    if ack_code(table, intid, task_id) == 0 {
        table.update(
            first_bound(table, intid),
            IrqBinding { pending_ack: false, ..table[first_bound(table, intid)] },
        )
    } else {
        table
    }
}

/// The acknowledgement unmasks the interrupt: it is accepted and the
/// binding awaited it.
pub open spec fn ack_unmasks(table: Seq<IrqBinding>, intid: u32, task_id: usize) -> bool {
    ack_code(table, intid, task_id) == 0 && table[first_bound(table, intid)].pending_ack
}

/// Acknowledge an IRQ on behalf of the task it is bound to.
///
/// Returns 0 and clears the binding's pending flag (the INTID is then to
/// be unmasked if the flag was set); returns an error code, and changes
/// nothing, if the INTID is not bound or bound to another task.
pub fn irq_ack(
    table: &mut [IrqBinding; MAX_IRQ_BINDINGS],
    intid: u32,
    task_id: usize,
) -> (code: u64)
    ensures
        code == ack_code(old(table)@, intid, task_id),
        final(table)@ == acked(old(table)@, intid, task_id),
        targets_in_range(old(table)@) ==> targets_in_range(final(table)@),
        code == 0 ==> final(table)@ == old(table)@.update(
            first_bound(old(table)@, intid),
            IrqBinding { pending_ack: false, ..old(table)[first_bound(old(table)@, intid)] },
        ),
        code != 0 ==> *final(table) == *old(table),
{
    match find_binding(table, intid) {
        Some(i) => {
            if table[i].task_id != task_id {
                return ERR_NOT_OWNER;
            }
            if !table[i].pending_ack {
                assert(table@ =~= old(table)@.update(
                    i as int,
                    IrqBinding { pending_ack: false, ..old(table)[i as int] },
                ));
                return 0;
            }
            table[i].pending_ack = false;
            0
        },
        None => ERR_NOT_BOUND,
    }
}

/// Find the task and notification bit that `intid` is bound to: those of
/// the first active binding of it.
pub fn irq_route_pure(
    table: &[IrqBinding; MAX_IRQ_BINDINGS],
    intid: u32,
) -> (r: Option<(usize, u64)>)
    ensures
        r == (if is_bound(table@, intid) {
            Some(
                (
                    table[first_bound(table@, intid)].task_id,
                    table[first_bound(table@, intid)].notify_bit,
                ),
            )
        } else {
            None
        }),
{
    match find_binding(table, intid) {
        Some(i) => Some((table[i].task_id, table[i].notify_bit)),
        None => None,
    }
}

/// Every active binding is bound to a task of the table.
pub open spec fn targets_in_range(table: Seq<IrqBinding>) -> bool {
    forall|i: int| 0 <= i < table.len() && (#[trigger] table[i]).active
        ==> table[i].task_id < NUM_TASKS
}

/// Whether every active binding is bound to a task of the table.
pub fn targets_ok(table: &[IrqBinding; MAX_IRQ_BINDINGS]) -> (ok: bool)
    ensures
        ok == targets_in_range(table@),
{
    let mut i: usize = 0;
    while i < MAX_IRQ_BINDINGS
        invariant
            i <= MAX_IRQ_BINDINGS,
            forall|j: int| 0 <= j < i && (#[trigger] table@[j]).active
                ==> table@[j].task_id < NUM_TASKS,
        decreases MAX_IRQ_BINDINGS - i,
    {
        if table[i].active && table[i].task_id >= NUM_TASKS {
            return false;
        }
        i += 1;
    }
    true
}

/// The kernel state after the interrupt `intid` fired: the task of its
/// first active binding is notified with the binding's bit and the
/// binding awaits the acknowledgement.  An interrupt that nobody bound
/// changes nothing.
pub open spec fn routed(k: KernelView, intid: u32) -> KernelView {
    if is_bound(k.irq_bindings, intid) {
        let i = first_bound(k.irq_bindings, intid);
        let b = k.irq_bindings[i];
        KernelView {
            tcbs: k.tcbs.update(
                b.task_id as int,
                notified(k.tcbs[b.task_id as int], b.notify_bit),
            ),
            irq_bindings: k.irq_bindings.update(i, IrqBinding { pending_ack: true, ..b }),
            ..k
        }
    } else {
        k
    }
}

/// Route a hardware IRQ to the task it is bound to.
///
/// The bound task gets the binding's notification bit, and is unblocked
/// if it waits for notifications; the binding is marked as awaiting the
/// task's acknowledgement.  Returns whether the INTID was bound; if so
/// it is to stay masked until the task acknowledges it.
pub fn irq_route(k: &mut Kernel, intid: u32) -> (bound: bool)
    requires
        targets_in_range(old(k).irq_bindings@),
    ensures
        bound == is_bound(old(k).irq_bindings@, intid),
        final(k)@ == routed(old(k)@, intid),
        final(k).current == old(k).current,
        final(k).endpoints == old(k).endpoints,
        final(k).keeps_identity(old(k)),
        old(k).wf() ==> final(k).wf(),
        targets_in_range(final(k).irq_bindings@),
{
    match find_binding(&k.irq_bindings, intid) {
        Some(i) => {
            let tid = k.irq_bindings[i].task_id;
            let bit = k.irq_bindings[i].notify_bit;
            deliver_notification(k, tid, bit);
            k.irq_bindings[i].pending_ack = true;
            proof {
                let want = routed(old(k)@, intid);
                assert(k@.irq_bindings =~= want.irq_bindings);
                assert(k@.endpoints =~= old(k)@.endpoints);
                assert(k@.tcbs =~= want.tcbs);
                if old(k).wf() {
                    crate::kernel::state::lemma_tables_kept(old(k), k);
                }
            }
            true
        },
        None => false,
    }
}

/// Route an IRQ as [`irq_route`] does; `_task_id` is not looked at.
pub fn irq_route_test(k: &mut Kernel, intid: u32, _task_id: usize)
    requires
        targets_in_range(old(k).irq_bindings@),
    ensures
        final(k).keeps_identity(old(k)),
        final(k)@ == routed(old(k)@, intid),
        old(k).wf() ==> final(k).wf(),
        targets_in_range(final(k).irq_bindings@),
{
    let _ = irq_route(k, intid);
}

/// Whether the first active binding of `intid` awaits an
/// acknowledgement; false if the INTID is not bound.
pub fn is_pending(table: &[IrqBinding; MAX_IRQ_BINDINGS], intid: u32) -> (pending: bool)
    ensures
        pending == (is_bound(table@, intid) && table[first_bound(table@, intid)].pending_ack),
{
    match find_binding(table, intid) {
        Some(i) => table[i].pending_ack,
        None => false,
    }
}

/// A binding after `task_id` has left the system.
pub open spec fn binding_cleaned(b: IrqBinding, task_id: usize) -> IrqBinding {
    if b.active && b.task_id == task_id {
        empty_binding_spec()
    } else {
        b
    }
}

/// The table once every binding of `task_id` has been removed.
pub open spec fn bindings_cleaned(table: Seq<IrqBinding>, task_id: usize) -> Seq<IrqBinding> {
    Seq::new(table.len(), |i: int| binding_cleaned(table[i], task_id))
}

/// The table with every binding of `task_id` removed.
pub fn irq_cleanup_pure(
    table: &[IrqBinding; MAX_IRQ_BINDINGS],
    task_id: usize,
) -> (result: [IrqBinding; MAX_IRQ_BINDINGS])
    ensures
        forall|i: int|
            0 <= i < MAX_IRQ_BINDINGS ==> #[trigger] result[i] == binding_cleaned(
                table[i],
                task_id,
            ),
{
    let mut result = *table;
    let mut i: usize = 0;
    while i < MAX_IRQ_BINDINGS
        invariant
            i <= MAX_IRQ_BINDINGS,
            forall|j: int| 0 <= j < i
                ==> #[trigger] result[j] == binding_cleaned(table[j], task_id),
            forall|j: int| i <= j < MAX_IRQ_BINDINGS ==> #[trigger] result[j] == table[j],
        decreases MAX_IRQ_BINDINGS - i,
    {
        if result[i].active && result[i].task_id == task_id {
            result[i] = empty_binding();
        }
        i += 1;
    }
    result
}

/// Remove all IRQ bindings of a task that faulted or exited.  No active
/// binding names the task afterwards.  The INTIDs that were bound are to
/// be disabled in the interrupt controller.
pub fn irq_cleanup_task(table: &mut [IrqBinding; MAX_IRQ_BINDINGS], task_id: usize)
    ensures
        forall|i: int|
            0 <= i < MAX_IRQ_BINDINGS ==> #[trigger] final(table)[i] == binding_cleaned(
                old(table)[i],
                task_id,
            ),
        forall|i: int|
            0 <= i < MAX_IRQ_BINDINGS && (#[trigger] final(table)[i]).active
                ==> final(table)[i].task_id != task_id,
{
    let cleaned = irq_cleanup_pure(table, task_id);
    *table = cleaned;
}

/// An INTID whose only active binding is in slot `slot` is routed to the
/// task and bit of that binding.
pub proof fn lemma_route_finds_binding(table: Seq<IrqBinding>, intid: u32, slot: int)
    requires
        bound_at(table, intid, slot),
        forall|j: int| bound_at(table, intid, j) ==> j == slot,
    ensures
        is_bound(table, intid),
        first_bound(table, intid) == slot,
{
    lemma_first_bound(table, intid, slot);
}

/// Once an INTID is bound, binding it again fails with
/// [`ERR_ALREADY_BOUND`], whatever the task and bit.
pub proof fn lemma_bind_no_duplicate(
    table: Seq<IrqBinding>,
    intid: u32,
    task1: usize,
    bit1: u64,
    bit2: u64,
)
    requires
        bind_code(table, intid, bit1) == 0,
        bit2 != 0,
    ensures
        bind_code(
            table.update(
                first_free(table),
                IrqBinding {
                    intid,
                    task_id: task1,
                    notify_bit: bit1,
                    active: true,
                    pending_ack: false,
                },
            ),
            intid,
            bit2,
        ) == ERR_ALREADY_BOUND,
{
    let slot = first_free(table);
    let i = choose|i: int| 0 <= i < table.len() && !table[i].active;
    assert(exists|i: int| first_free_at(table, i)) by {
        lemma_has_first_free(table, table.len() as int);
    }
    let after = table.update(
        slot,
        IrqBinding { intid, task_id: task1, notify_bit: bit1, active: true, pending_ack: false },
    );
    assert(bound_at(after, intid, slot));
}

/// A table with a free slot among its first `n` has a first free slot.
pub proof fn lemma_has_first_free(table: Seq<IrqBinding>, n: int)
    requires
        0 <= n <= table.len(),
        exists|i: int| 0 <= i < n && !table[i].active,
    ensures
        exists|i: int| first_free_at(table, i),
        first_free_at(table, first_free(table)),
    decreases n,
{
    if exists|i: int| 0 <= i < n - 1 && !table[i].active {
        lemma_has_first_free(table, n - 1);
    } else {
        assert(first_free_at(table, n - 1));
    }
}

} // verus!
