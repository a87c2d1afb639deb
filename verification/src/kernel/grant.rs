//! Shared memory grants.
//!
//! A grant lets two tasks share one statically allocated page: the owner
//! creates it for a peer and may revoke it again.  The table records who
//! owns and who shares each page; mapping the page is the business of the
//! address-space code.

use vstd::prelude::*;
use crate::kernel::sched::NUM_TASKS;

verus! {

/// Maximum number of grant pages
pub const MAX_GRANTS: usize = 2;

/// Grant page size
pub const GRANT_PAGE_SIZE: usize = 4096;

/// A shared memory grant: who owns and who shares a page.
#[derive(Clone, Copy, Debug)]
pub struct Grant {
    /// Task that created the grant (None = slot unused)
    pub owner: Option<usize>,
    /// Task that was granted access (None = not shared)
    pub peer: Option<usize>,
    /// Physical address of the grant page
    pub phys_addr: u64,
    /// Whether this grant is currently active
    pub active: bool,
}

/// The unused grant slot.
pub open spec fn empty_grant_spec() -> Grant {
    Grant { owner: None, peer: None, phys_addr: 0, active: false }
}

/// An unused grant slot.
pub fn empty_grant() -> (g: Grant)
    ensures
        g == empty_grant_spec(),
{
    Grant { owner: None, peer: None, phys_addr: 0, active: false }
}

/// Address at which the memory map places the first grant page.
pub const GRANT_PAGES_BASE: u64 = 0x4010_0000;

pub const ERR_INVALID_GRANT: u64 = 0xFFFF_0001;

pub const ERR_GRANT_ACTIVE: u64 = 0xFFFF_0002;

pub const ERR_INVALID_PEER: u64 = 0xFFFF_0003;

pub const ERR_SELF_GRANT: u64 = 0xFFFF_0004;

pub const ERR_NOT_GRANT_OWNER: u64 = 0xFFFF_0005;

/// Address of grant page `grant_id`.
pub open spec fn page_addr(grant_id: int) -> u64 {
    (GRANT_PAGES_BASE + grant_id * GRANT_PAGE_SIZE) as u64
}

/// Get the physical address of grant page `grant_id`.
/// Returns None if grant_id is out of range.
pub fn grant_page_addr(grant_id: usize) -> (addr: Option<u64>)
    ensures
        addr == (if grant_id < MAX_GRANTS {
            Some(page_addr(grant_id as int))
        } else {
            None
        }),
{
    if grant_id >= MAX_GRANTS {
        return None;
    }
    Some(0x4010_0000_u64 + (grant_id as u64) * 4096)
}

/// Why a grant cannot be created, the first reason that applies, or zero
/// if it can.
pub open spec fn create_code(
    grants: Seq<Grant>,
    grant_id: usize,
    owner: usize,
    peer: usize,
) -> u64 { if grant_id>= MAX_GRANTS {
        ERR_INVALID_GRANT
    } else if grants[grant_id as int].active {
        ERR_GRANT_ACTIVE
    } else if peer >= NUM_TASKS {
        ERR_INVALID_PEER
    } else if owner == peer {
        ERR_SELF_GRANT
    } else {
        0
    }
}

/// Decide a grant creation without carrying it out: the grant to store
/// in slot `grant_id` (its page address left zero), or the error code.
pub fn grant_create_pure(
    grants: &[Grant; MAX_GRANTS],
    grant_id: usize,
    owner: usize,
    peer: usize,
) -> (r: Result<Grant, u64>)
    ensures
        create_code(grants@, grant_id, owner, peer) == 0 ==> r == Ok::<Grant, u64>(
            Grant { owner: Some(owner), peer: Some(peer), phys_addr: 0, active: true },
        ),
        create_code(grants@, grant_id, owner, peer) != 0 ==> r == Err::<Grant, u64>(
            create_code(grants@, grant_id, owner, peer),
        ),
{
    if grant_id >= MAX_GRANTS {
        return Err(0xFFFF_0001);
    }
    if grants[grant_id].active {
        return Err(0xFFFF_0002);
    }
    if peer >= NUM_TASKS {
        return Err(0xFFFF_0003);
    }
    if owner == peer {
        return Err(0xFFFF_0004);
    }
    Ok(Grant { owner: Some(owner), peer: Some(peer), phys_addr: 0, active: true })
}

/// The grant table after a request to create a grant: the grant stored
/// if the request is in order, the table as it was if not.
pub open spec fn created(grants: Seq<Grant>, grant_id: usize, owner: usize, peer: usize) -> Seq<
    Grant,
> {
    if create_code(grants, grant_id, owner, peer) == 0 {
        grants.update(
            grant_id as int,
            Grant {
                owner: Some(owner),
                peer: Some(peer),
                phys_addr: page_addr(grant_id as int),
                active: true,
            },
        )
    } else {
        grants
    }
}

/// Create a shared memory grant of page `grant_id` from `owner` to
/// `peer`.
///
/// Returns 0 on success and records the grant; otherwise returns the
/// error code and leaves the table as it was.  On success the page is to
/// be mapped for both tasks.
pub fn grant_create(
    grants: &mut [Grant; MAX_GRANTS],
    grant_id: usize,
    owner: usize,
    peer: usize,
) -> (code: u64)
    ensures
        code == create_code(old(grants)@, grant_id, owner, peer),
        final(grants)@ == created(old(grants)@, grant_id, owner, peer),
        code == 0 ==> final(grants)@ == old(grants)@.update(
            grant_id as int,
            Grant {
                owner: Some(owner),
                peer: Some(peer),
                phys_addr: page_addr(grant_id as int),
                active: true,
            },
        ),
        code != 0 ==> *final(grants) == *old(grants),
{
    match grant_create_pure(grants, grant_id, owner, peer) {
        Ok(g) => {
            let phys = match grant_page_addr(grant_id) {
                Some(addr) => addr,
                None => { return 0xFFFF_0001; },
            };
            grants[grant_id] = Grant { owner: g.owner, peer: g.peer, phys_addr: phys,
                active: true };
            0
        },
        Err(e) => e,
    }
}

/// Why a grant cannot be revoked by `caller`, or zero if it can (an
/// inactive grant is revoked by doing nothing).
pub open spec fn revoke_code(grants: Seq<Grant>, grant_id: usize, caller: usize) -> u64 {
    if grant_id >= MAX_GRANTS {
        ERR_INVALID_GRANT
    } else if !grants[grant_id as int].active {
        0
    } else if grants[grant_id as int].owner != Some(caller) {
        ERR_NOT_GRANT_OWNER
    } else {
        0
    }
}

/// A grant after its owner revoked it: inactive, without peer; owner and
/// page address stay.
pub open spec fn revoked(g: Grant) -> Grant {
    if g.active {
        Grant { owner: g.owner, peer: None, phys_addr: g.phys_addr, active: false }
    } else {
        g
    }
}

/// Decide a revocation without carrying it out: the grant to store in
/// slot `grant_id`, or the error code.
pub fn grant_revoke_pure(
    grants: &[Grant; MAX_GRANTS],
    grant_id: usize,
    caller: usize,
) -> (r: Result<Grant, u64>)
    ensures
        revoke_code(grants@, grant_id, caller) == 0 ==> r == Ok::<Grant, u64>(
            revoked(grants[grant_id as int]),
        ),
        revoke_code(grants@, grant_id, caller) != 0 ==> r == Err::<Grant, u64>(
            revoke_code(grants@, grant_id, caller),
        ),
{
    if grant_id >= MAX_GRANTS {
        return Err(0xFFFF_0001);
    }
    if !grants[grant_id].active {
        return Ok(grants[grant_id]);
    }
    if grants[grant_id].owner != Some(caller) {
        return Err(0xFFFF_0005);
    }
    Ok(
        Grant {
            owner: grants[grant_id].owner,
            peer: None,
            phys_addr: grants[grant_id].phys_addr,
            active: false,
        },
    )
}

/// The grant table after a request to revoke a grant.
pub open spec fn revoked_in(grants: Seq<Grant>, grant_id: usize, caller: usize) -> Seq<Grant> {
    if grant_id < MAX_GRANTS && revoke_code(grants, grant_id, caller) == 0 {
        grants.update(grant_id as int, revoked(grants[grant_id as int]))
    } else {
        grants
    }
}

/// Revoke a shared memory grant; only its owner may.
///
/// Returns 0 on success, also for a grant that was not active; otherwise
/// the error code, with the table as it was.  The peer that an active
/// grant had is to be unmapped.
pub fn grant_revoke(grants: &mut [Grant; MAX_GRANTS], grant_id: usize, caller: usize) -> (code: u64)
    ensures
        code == revoke_code(old(grants)@, grant_id, caller),
        final(grants)@ == revoked_in(old(grants)@, grant_id, caller),
        code == 0 && grant_id < MAX_GRANTS ==> final(grants)@ == old(grants)@.update(
            grant_id as int,
            revoked(old(grants)[grant_id as int]),
        ),
        code != 0 ==> *final(grants) == *old(grants),
{
    match grant_revoke_pure(grants, grant_id, caller) {
        Ok(g) => {
            grants[grant_id] = g;
            0
        },
        Err(e) => e,
    }
}

/// A grant after `task` has left the system.  The owner's leaving empties
/// the slot; the peer's leaving deactivates the grant and keeps the
/// owner on record.
pub open spec fn grant_cleaned(g: Grant, task: usize) -> Grant {
    if !g.active {
        g
    } else if g.owner == Some(task) {
        empty_grant_spec()
    } else if g.peer == Some(task) {
        Grant { peer: None, active: false, ..g }
    } else {
        g
    }
}

/// The grant table once `task` has been taken out of every grant.
pub open spec fn grants_cleaned(grants: Seq<Grant>, task: usize) -> Seq<Grant> {
    Seq::new(grants.len(), |i: int| grant_cleaned(grants[i], task))
}

/// The grant table with `task` taken out of every grant.
pub fn grant_cleanup_pure(
    grants: &[Grant; MAX_GRANTS],
    task_idx: usize,
) -> (result: [Grant; MAX_GRANTS])
    ensures
        forall|i: int|
            0 <= i < MAX_GRANTS ==> #[trigger] result[i] == grant_cleaned(grants[i], task_idx),
{
    let mut result = *grants;
    let mut i: usize = 0;
    while i < MAX_GRANTS
        invariant
            i <= MAX_GRANTS,
            forall|j: int| 0 <= j < i
                ==> #[trigger] result[j] == grant_cleaned(grants[j], task_idx),
            forall|j: int| i <= j < MAX_GRANTS ==> #[trigger] result[j] == grants[j],
        decreases MAX_GRANTS - i,
    {
        if result[i].active {
            if result[i].owner == Some(task_idx) {
                result[i] = empty_grant();
            } else if result[i].peer == Some(task_idx) {
                result[i].peer = None;
                result[i].active = false;
            }
        }
        i += 1;
    }
    result
}

/// Clean up all grants involving a task that faulted or exited.  No
/// active grant names the task afterwards.
pub fn cleanup_task(grants: &mut [Grant; MAX_GRANTS], task_idx: usize)
    ensures
        forall|i: int|
            0 <= i < MAX_GRANTS ==> #[trigger] final(grants)[i] == grant_cleaned(
                old(grants)[i],
                task_idx,
            ),
        forall|i: int|
            0 <= i < MAX_GRANTS && (#[trigger] final(grants)[i]).active ==> final(grants)[i].owner
                != Some(task_idx) && final(grants)[i].peer != Some(task_idx),
{
    let cleaned = grant_cleanup_pure(grants, task_idx);
    *grants = cleaned;
}

/// Creating a grant in a slot that is in use fails and says so, whoever
/// asks and for whomever.
pub proof fn lemma_create_on_active_slot_fails(
    grants: Seq<Grant>,
    grant_id: usize,
    owner: usize,
    peer: usize,
)
    requires
        grant_id < MAX_GRANTS,
        grants[grant_id as int].active,
    ensures
        create_code(grants, grant_id, owner, peer) == ERR_GRANT_ACTIVE,
{
}

/// After a task was cleaned up it is owner or peer of no active grant,
/// and a slot that still records it as owner is inactive.
pub proof fn lemma_cleanup_complete(g: Grant, task: usize)
    ensures
        grant_cleaned(g, task).active ==> grant_cleaned(g, task).owner != Some(task)
            && grant_cleaned(g, task).peer != Some(task),
        grant_cleaned(g, task).owner == Some(task) ==> !grant_cleaned(g, task).active,
        grant_cleaned(grant_cleaned(g, task), task) == grant_cleaned(g, task),
{
}

} // verus!
