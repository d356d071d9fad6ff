//! Jobs, pools of memory, memory objects and places for metadata.
use kernel_task::error::SystemCallError;
use kernel_task::handle::{ProcessHandleEntry, TableError};
use kernel_task::job;
use kernel_task::job::{CursorStep, JobMemberKind, JobState, JobTree};
use kernel_task::memory_object;
use kernel_task::memory_object::{
    ExecutableState, MemoryObjectCore, MemoryObjectCreateRequest, ObjectError, Protection,
};
use kernel_task::memory_pool;
use kernel_task::memory_pool::{FundError, MemoryCharge, PoolError, PoolTree};
use kernel_task::object::{HandleRole, ObjectKind};
use kernel_task::resources::{
    Metadata, MetadataAdmission, MetadataSponsor, ProcessResources, POOL_CORES_PER_SPONSOR,
};
use kernel_task::rights;
use kernel_task::signals;
use kernel_task::view_permits::{acquire_view_permits, release_view_permits, PermitRequirement};

const MANY: usize = 1000;

fn control(rights: u64) -> Result<ProcessHandleEntry, TableError> {
    Ok(ProcessHandleEntry {
        object: 1,
        kind: ObjectKind::Job,
        role: HandleRole::JobControl,
        rights,
    })
}

fn pool_handle(rights: u64) -> Result<ProcessHandleEntry, TableError> {
    Ok(ProcessHandleEntry {
        object: 1,
        kind: ObjectKind::MemoryPool,
        role: HandleRole::MemoryPool,
        rights,
    })
}

fn child_of(tree: &mut JobTree, j: usize) -> usize {
    let all = rights::JOB_CONTROL;
    tree.create(j, control(all), all, MANY, true, true, Ok(()), Ok(())).unwrap()
}

#[test]
fn jobs_count_their_members() {
    let mut tree = JobTree::root();
    let child = child_of(&mut tree, 0);
    let (pid, reservation) = tree.gate_reserve_member(child, MANY, true, true).unwrap();
    assert_eq!(tree.member_process(child, pid), None);
    tree.commit_member(child, reservation, 500);
    assert_eq!(tree.member_process(child, pid), Some(500));
    let told = job::query(&tree, child, control(rights::READ), Ok(())).unwrap();
    assert_eq!((told.state, told.live_processes, told.live_children), (JobState::Open, 1, 0));
    assert_eq!(job::query(&tree, 0, control(0), Ok(())).unwrap().live_children, 1);
    assert_eq!(
        job::query(&tree, 0, control(0), Err(SystemCallError::MemoryNotAccessible)).err(),
        Some(SystemCallError::MemoryNotAccessible)
    );
    assert_eq!(
        job::query(&tree, 0, pool_handle(0), Ok(())).err(),
        Some(SystemCallError::WrongObjectType)
    );
    let page = tree
        .enumerate(child, control(rights::READ), 1, 0, 8, 16, Ok(()))
        .unwrap();
    assert_eq!(page.ids, vec![pid]);
    assert!(!page.more);
    assert_eq!(job::parse_member_kind(0), Ok(JobMemberKind::ChildJobs));
    assert_eq!(job::parse_member_kind(1), Ok(JobMemberKind::MemberProcesses));
    assert_eq!(job::parse_member_kind(2), Err(SystemCallError::IllegalArgument));
}

#[test]
fn sealing_closes_the_subtree() {
    let mut tree = JobTree::root();
    let child = child_of(&mut tree, 0);
    let grandchild = child_of(&mut tree, child);
    let (pid, reservation) = tree.gate_reserve_member(grandchild, MANY, true, true).unwrap();
    tree.commit_member(grandchild, reservation, 500);
    tree.seal(child);
    assert!(tree.chain_sealed(grandchild));
    assert!(!tree.chain_sealed(0));
    assert_eq!(
        tree.gate_reserve_member(grandchild, MANY, true, true).err(),
        Some(SystemCallError::ObjectClosed)
    );
    assert_eq!(tree.snapshot(child).state, JobState::Sealed);
    // A sealed job ends with its last member.
    tree.seal(grandchild);
    let mut cursor = tree.remove_member(grandchild, pid).unwrap();
    let mut published = vec![];
    loop {
        match tree.advance(&mut cursor) {
            CursorStep::Published(j) => published.push(j),
            CursorStep::Climbed => {}
            CursorStep::Done => break,
        }
    }
    assert_eq!(published, vec![grandchild, child]);
    assert_eq!(tree.snapshot(child).state, JobState::Dead);
    assert_eq!(tree.snapshot(0).state, JobState::Open);
}

#[test]
fn sealed_job_shows_its_end_once_it_is_empty() {
    let mut tree = JobTree::root();
    let child = child_of(&mut tree, 0);
    let other = child_of(&mut tree, 0);
    let (pid, reservation) = tree.gate_reserve_member(child, MANY, true, true).unwrap();
    tree.commit_member(child, reservation, 500);
    assert_eq!(tree.seal(child), vec![]);
    assert_eq!(tree.seal(child), vec![]);
    assert_eq!(tree.snapshot(child).state, JobState::Sealed);
    assert_eq!(tree.member_process(child, pid), Some(500));
    assert_eq!(tree.signals(child), signals::NONE);
    assert_eq!(tree.seal(other), vec![other]);
    assert_eq!(tree.snapshot(other).state, JobState::Dead);
    assert_eq!(tree.signals(other), signals::CLOSED);
    assert_eq!(tree.seal(other), vec![]);
    let all = rights::JOB_CONTROL;
    for j in [child, other] {
        assert_eq!(
            tree.create(j, control(all), all, MANY, true, true, Ok(()), Ok(())),
            Err(SystemCallError::ObjectClosed)
        );
    }
    assert_eq!(tree.signals(0), signals::NONE);
}

#[test]
fn failed_creation_spends_only_its_numbers() {
    let mut tree = JobTree::root();
    let all = rights::JOB_CONTROL;
    let failed = Err(SystemCallError::OutOfMemory);
    assert!(tree.create(0, control(all), all, MANY, true, true, failed, Ok(())).is_err());
    assert_eq!(job::query(&tree, 0, control(0), Ok(())).unwrap().live_children, 0);
    let child = child_of(&mut tree, 0);
    // The identity of the first try is used up.
    assert_eq!(tree.snapshot(child).jid, 3);
    assert_eq!(tree.snapshot(child).parent_jid, 1);
}

#[test]
fn reservation_that_is_given_up_leaves_nothing() {
    let mut tree = JobTree::root();
    let (pid, reservation) = tree.gate_reserve_member(0, MANY, true, true).unwrap();
    tree.rollback_member(0, reservation);
    assert_eq!(tree.member_process(0, pid), None);
    assert_eq!(tree.snapshot(0).live_processes, 0);
    let (_, reservation) = tree.gate_reserve_child(0, MANY, true, true).unwrap();
    tree.rollback_child(0, reservation);
    assert_eq!(tree.snapshot(0).live_children, 0);
    assert_eq!(
        tree.gate_reserve_member(0, MANY, false, true).err(),
        Some(SystemCallError::OutOfMemory)
    );
    assert_eq!(
        tree.gate_reserve_member(0, MANY, true, false).err(),
        Some(SystemCallError::OutOfMemory)
    );
}

#[test]
fn pool_credit_comes_back() {
    let mut tree = PoolTree::initialize_root(7, 10);
    let baseline = tree.snapshot(0);
    let child = tree.prepared_child(0, 8, 2, 4).unwrap();
    tree.rollback_prepared(child);
    assert_eq!(tree.snapshot(0), baseline);
    let child = tree.prepared_child(0, 9, 2, 4).unwrap();
    tree.commit_prepared(child);
    let told = tree.snapshot(child);
    assert_eq!((told.parent_identity, told.total, told.depth), (7, 2, 1));
    let parent = tree.snapshot(0);
    assert_eq!(parent.delegated, baseline.delegated + 2);
    assert_eq!(parent.available, baseline.available - 2);
    assert_eq!(tree.reserve_charge(child, 3), Err(PoolError::QuotaExceeded));
    assert_eq!(tree.reserve_charge(child, 2), Ok(()));
    tree.commit_charge(child, 2);
    assert_eq!(tree.snapshot(child).allocated, 2);
    tree.return_charge(child, 2);
    tree.drop_pool(child);
    assert_eq!(tree.snapshot(0), baseline);
    assert_eq!(tree.reserve_charge(0, 0), Err(PoolError::ZeroAmount));
}

#[test]
fn failed_derivation_changes_no_credit() {
    let mut tree = PoolTree::initialize_root(7, 10);
    let baseline = tree.snapshot(0);
    let all = rights::MEMORY_POOL;
    let cases = [
        (rights::WRITE, Ok(()), Ok(()), SystemCallError::RightsDenied),
        (1 << 63, Ok(()), Ok(()), SystemCallError::RightsDenied),
        (
            rights::READ,
            Err(SystemCallError::ReachLimit),
            Ok(()),
            SystemCallError::ReachLimit,
        ),
        (
            rights::READ,
            Ok(()),
            Err(SystemCallError::MemoryNotAccessible),
            SystemCallError::MemoryNotAccessible,
        ),
    ];
    for (asked, permit, installed, error) in cases {
        let made = tree.derive(0, pool_handle(all), 1, asked, permit, Some(8), 4, true, installed);
        assert_eq!(made.err(), Some(error));
        assert_eq!(tree.snapshot(0), baseline);
    }
    let made = tree.derive(0, pool_handle(all), 4, rights::READ, Ok(()), Some(8), 4, true, Ok(()));
    let child = tree.snapshot(made.unwrap());
    assert_eq!((child.total, child.available, child.depth), (4, 4, 1));
    assert_eq!(
        memory_pool::query(&tree, 0, control(0), Ok(())).err(),
        Some(SystemCallError::WrongObjectType)
    );
    let told = memory_pool::query(&tree, 0, pool_handle(rights::READ), Ok(())).unwrap();
    assert_eq!(told.available, 6);
    assert_eq!(
        memory_pool::query(&tree, 0, Err(TableError::RightsDenied), Ok(())).err(),
        Some(SystemCallError::RightsDenied)
    );
}

#[test]
fn charges_are_split_exactly() {
    let mut charge = MemoryCharge { pool: 0, pages: 5 };
    let part = charge.split(2).unwrap();
    assert_eq!((charge.pages, part.pages), (3, 2));
    assert!(charge.split(0).is_err());
    assert!(charge.split(4).is_err());
}

#[test]
fn sponsors_have_one_shell_each() {
    let mut admission = MetadataAdmission::init();
    let mut sponsor = MetadataSponsor::try_new(&mut admission, true).unwrap();
    for kind in [Metadata::Builder, Metadata::Control] {
        assert_eq!(sponsor.reserve(&mut admission, kind), Ok(()));
        assert_eq!(
            sponsor.reserve(&mut admission, kind),
            Err(SystemCallError::ReachLimit)
        );
        sponsor.release(&mut admission, kind);
        assert_eq!(sponsor.reserve(&mut admission, kind), Ok(()));
        sponsor.release(&mut admission, kind);
    }
    for _ in 0..POOL_CORES_PER_SPONSOR {
        assert_eq!(sponsor.reserve_pool_core(&mut admission), Ok(()));
    }
    assert_eq!(
        sponsor.reserve_pool_core(&mut admission),
        Err(SystemCallError::ReachLimit)
    );
    let before = admission;
    assert!(MetadataSponsor::try_new(&mut admission, false).is_err());
    assert_eq!(admission, before);
    assert_eq!(admission.primordial(), Ok(()));
}

#[test]
fn binding_is_taken_once() {
    let mut admission = MetadataAdmission::init();
    let metadata = MetadataSponsor::try_new(&mut admission, true).unwrap();
    let mut resources = ProcessResources { metadata, bind_in_progress: false };
    assert_eq!(resources.try_reserve_binding(), Ok(()));
    assert_eq!(resources.try_reserve_binding(), Err(SystemCallError::ObjectBusy));
    resources.release_binding();
    let before = (resources.metadata, admission);
    let quota = Err(FundError::Quota(PoolError::QuotaExceeded));
    assert_eq!(
        resources.prepare_binding(&mut admission, quota),
        Err(SystemCallError::QuotaExceeded)
    );
    assert_eq!((resources.metadata, admission), before);
    assert_eq!(resources.prepare_binding(&mut admission, Ok(())), Ok(()));
}

#[test]
fn sealing_waits_for_the_last_permit() {
    let mut core = MemoryObjectCore::new(5, 3, 2);
    assert_eq!(core.reserve_writes(2), Ok(()));
    assert_eq!(core.reserve_writes(1), Err(ObjectError::PermitLimit));
    assert!(!core.seal());
    assert_eq!(core.snapshot(), (5, 3 * 4096, 2, ExecutableState::Sealing));
    assert_eq!(core.reserve_writes(1), Err(ObjectError::PermitDenied));
    assert!(!core.retire_write());
    assert!(core.retire_write());
    assert_eq!(core.snapshot().3, ExecutableState::Executable);
    assert!(!core.seal());
    let found = Ok(ProcessHandleEntry {
        object: 5,
        kind: ObjectKind::MemoryObject,
        role: HandleRole::MemoryObject,
        rights: rights::READ,
    });
    let told = memory_object::query(&core, found, Ok(())).unwrap();
    assert_eq!(told, (5, 3 * 4096, 0, ExecutableState::Executable));
}

#[test]
fn objects_are_made_of_whole_pages() {
    let request = |bytes| MemoryObjectCreateRequest { bytes, reserved_clear: true };
    assert_eq!(memory_object::check_create(request(1), 4), Ok(1));
    assert_eq!(memory_object::check_create(request(4097), 4), Ok(2));
    assert_eq!(
        memory_object::check_create(request(0), 4),
        Err(SystemCallError::IllegalArgument)
    );
    assert_eq!(
        memory_object::check_create(request(5 * 4096), 4),
        Err(SystemCallError::ReachLimit)
    );
    let (pages, entry) = memory_object::create(request(4096), 4, Ok(6)).unwrap();
    assert_eq!((pages, entry.object, entry.rights), (1, 6, rights::MEMORY_OBJECT));
    assert_eq!(
        memory_object::create(request(4096), 4, Err(SystemCallError::OutOfMemory)).err(),
        Some(SystemCallError::OutOfMemory)
    );
    assert_eq!(
        memory_object::required_rights(Protection::ReadExecute),
        rights::MAP | rights::READ | rights::EXECUTE
    );
}

#[test]
fn permits_are_had_all_or_none() {
    let mut cores = vec![MemoryObjectCore::new(5, 3, 4), MemoryObjectCore::new(6, 3, 1)];
    let fits = vec![
        PermitRequirement { source: 0, count: 3 },
        PermitRequirement { source: 1, count: 1 },
    ];
    assert_eq!(acquire_view_permits(&mut cores, &fits, true), Ok(4));
    assert_eq!((cores[0].snapshot().2, cores[1].snapshot().2), (3, 1));
    release_view_permits(&mut cores, &fits);
    assert_eq!((cores[0].snapshot().2, cores[1].snapshot().2), (0, 0));
    let more = vec![
        PermitRequirement { source: 0, count: 3 },
        PermitRequirement { source: 1, count: 2 },
    ];
    assert!(acquire_view_permits(&mut cores, &more, true).is_err());
    assert_eq!((cores[0].snapshot().2, cores[1].snapshot().2), (0, 0));
}

#[test]
fn child_jobs_are_found_by_their_number() {
    let mut tree = JobTree::root();
    let child = child_of(&mut tree, 0);
    assert_eq!(tree.child_job(0, 2), Some(child as u64));
    assert_eq!(tree.child_job(0, 1), None);
    assert_eq!(tree.child_job(child, 2), None);
}

#[test]
fn abandoned_charge_frees_its_credit() {
    let mut tree = PoolTree::initialize_root(7, 10);
    let baseline = tree.snapshot(0);
    assert_eq!(tree.reserve_charge(0, 4), Ok(()));
    assert_eq!(tree.snapshot(0).available, baseline.available - 4);
    tree.rollback_charge(0, 1);
    assert_eq!(tree.snapshot(0).available, baseline.available - 3);
    tree.rollback_charge(0, 3);
    assert_eq!(tree.snapshot(0), baseline);
}

#[test]
fn failures_to_fund_an_object_are_reported() {
    let quota = FundError::Quota(PoolError::QuotaExceeded);
    assert_eq!(memory_object::map_fund_error(quota), SystemCallError::QuotaExceeded);
    for limit in [FundError::PageLimit, FundError::ExtentLimit] {
        assert_eq!(memory_object::map_fund_error(limit), SystemCallError::ReachLimit);
    }
    let rest = [
        FundError::Quota(PoolError::ZeroAmount),
        FundError::Physical,
        FundError::ZeroPages,
        FundError::InvalidClaim,
    ];
    for error in rest {
        assert_eq!(memory_object::map_fund_error(error), SystemCallError::OutOfMemory);
    }
}

#[test]
fn tree_is_no_deeper_than_it_may_be() {
    let mut tree = JobTree::root();
    let mut deepest = 0;
    for _ in 1..job::JOB_DEPTH_MAX {
        deepest = child_of(&mut tree, deepest);
    }
    assert_eq!(tree.collect_chain(deepest, MANY), Ok(job::JOB_DEPTH_MAX));
    assert_eq!(
        tree.gate_reserve_child(deepest, MANY, true, true).err(),
        Some(SystemCallError::IllegalArgument)
    );
    // Processes are still taken there, until a job above is sealed.
    let (pid, reservation) = tree.gate_reserve_member(deepest, MANY, true, true).unwrap();
    assert_eq!(tree.snapshot(deepest).live_processes, 0);
    assert_eq!(tree.member_process(deepest, pid), None);
    tree.rollback_member(deepest, reservation);
    let (next, reservation) = tree.gate_reserve_member(deepest, MANY, true, true).unwrap();
    assert!(next > pid);
    tree.rollback_member(deepest, reservation);
    tree.seal(1);
    assert_eq!(
        tree.gate_reserve_member(deepest, MANY, true, true).err(),
        Some(SystemCallError::ObjectClosed)
    );
    assert_eq!(
        tree.gate_reserve_child(deepest, MANY, true, true).err(),
        Some(SystemCallError::IllegalArgument)
    );
    assert_eq!(
        tree.gate_reserve_child(2, MANY, true, true).err(),
        Some(SystemCallError::ObjectClosed)
    );
}

#[test]
fn jobs_are_sealed_through_their_handles() {
    let mut tree = JobTree::root();
    let child = child_of(&mut tree, 0);
    assert_eq!(
        job::seal(&mut tree, child, pool_handle(0)),
        Err(SystemCallError::WrongObjectType)
    );
    assert_eq!(
        job::seal(&mut tree, child, Err(TableError::RightsDenied)),
        Err(SystemCallError::RightsDenied)
    );
    assert_eq!(tree.snapshot(child).state, JobState::Open);
    assert_eq!(job::seal(&mut tree, child, control(rights::MANAGE)), Ok(vec![child]));
    assert_eq!(tree.snapshot(child).state, JobState::Dead);
    assert_eq!(job::seal(&mut tree, child, control(rights::MANAGE)), Ok(vec![]));
}

#[test]
fn objects_are_sealed_through_their_handles() {
    let mut core = MemoryObjectCore::new(5, 3, 2);
    let found = Ok(ProcessHandleEntry {
        object: 5,
        kind: ObjectKind::MemoryObject,
        role: HandleRole::MemoryObject,
        rights: rights::MANAGE,
    });
    assert_eq!(
        memory_object::seal(&mut core, pool_handle(0)),
        Err(SystemCallError::WrongObjectType)
    );
    assert!(core.reserve_writes(1).is_ok());
    assert_eq!(memory_object::seal(&mut core, found), Ok(false));
    assert!(core.reserve_writes(1).is_err());
    assert_eq!(core.signals(), signals::NONE);
    core.retire_write();
    assert_eq!(core.signals(), signals::EXECUTABLE);
    assert_eq!(memory_object::seal(&mut core, found), Ok(false));
    let mut fresh = MemoryObjectCore::new(6, 3, 2);
    assert_eq!(memory_object::seal(&mut fresh, found), Ok(true));
}
