//! Processes and threads from their making to their end.
use kernel_task::bootstrap::rollback_unpublished;
use kernel_task::error::SystemCallError;
use kernel_task::execution::{
    initial_context, revive_control, ExecutionBinding, ThreadExit, ThreadStartContext,
};
use kernel_task::handle::{CallFailure, ProcessHandleEntry, TableError};
use kernel_task::handle_close;
use kernel_task::handle_close::PublishOutcomes;
use kernel_task::ids::IdSequence;
use kernel_task::job::JobTree;
use kernel_task::lifecycle::{
    AttachFault, BeginFault, EnterRunning, Lifecycle, ProcessExitReason, ProcessState,
};
use kernel_task::map_intent::UserSpace;
use kernel_task::object::{HandleRole, ObjectKind};
use kernel_task::process;
use kernel_task::process::{
    DeadSnapshot, DepartureEnd, DrainStart, GrantFailure, IsaRequirement, KillOutcome, ProcessBuilder,
    ProcessControl,
};
use kernel_task::process_drain::{BatchStep, ProcessDrain};
use kernel_task::request::ProcessDrainResult;
use kernel_task::resources::{MetadataAdmission, MetadataSponsor, ProcessResources};
use kernel_task::rights;
use kernel_task::signals;
use kernel_task::space::SpaceError;
use kernel_task::space_drain::{RetiredSpaceResource, SpaceDrain};
use kernel_task::thread;
use kernel_task::thread::{DepartureKind, SpawnOutcomes, ThreadControl, ThreadDeparture};
use kernel_task::translation;
use kernel_task::translation::{BuildingChunk, PageMapping};

const MANY: usize = 1000;

fn control_handle() -> Result<ProcessHandleEntry, TableError> {
    Ok(ProcessHandleEntry {
        object: 1,
        kind: ObjectKind::ProcessControl,
        role: HandleRole::ProcessControl,
        rights: rights::PROCESS_CONTROL,
    })
}

fn running(threads: usize) -> Lifecycle {
    let mut lifecycle = Lifecycle::building(8);
    for thread in 0..threads {
        lifecycle.attach_member(Ok(100 + thread as u64), true).unwrap();
    }
    let mut out = vec![];
    assert!(lifecycle.enter_building_op());
    lifecycle.begin_running(threads, &mut out).unwrap();
    assert_eq!(out.len(), threads);
    lifecycle
}

#[test]
fn attach_that_was_registered_outlives_the_cutoff() {
    let mut lifecycle = Lifecycle::building(8);
    assert!(lifecycle.enter_building_op());
    let todo = lifecycle.request_termination(ProcessExitReason::Killed, 0, None);
    assert!(!todo.reapable);
    let (tid, retired) = lifecycle.attach_registered_member(Ok(100), true).unwrap();
    assert_eq!(tid, 1);
    assert_eq!(retired, Some(100));
    assert_eq!(lifecycle.member_count(), 0);
    assert!(lifecycle.leave_building_op());
    assert!(lifecycle.is_reapable());
    assert!(!lifecycle.enter_building_op());
}

#[test]
fn threads_are_numbered_without_gaps() {
    let mut lifecycle = Lifecycle::building(8);
    let mut expected = 1;
    let faulty: [(Result<u64, AttachFault>, bool); 5] = [
        (Ok(100), true),
        (Err(AttachFault::Oom), true),
        (Ok(101), false),
        (Ok(102), true),
        (Ok(103), true),
    ];
    for (built, room) in faulty {
        if let Ok(tid) = lifecycle.attach_member(built, room) {
            assert_eq!(tid, expected);
            expected += 1;
        }
    }
    assert_eq!(expected, 4);
}

#[test]
fn building_ends_with_the_start() {
    let mut lifecycle = Lifecycle::building(1);
    assert_eq!(lifecycle.attach_member(Ok(100), false), Err(AttachFault::Oom));
    let tid = lifecycle.attach_member(Ok(100), true).unwrap();
    assert_eq!(lifecycle.attach_member(Ok(101), true), Err(AttachFault::Limit));
    let mut out = vec![];
    assert!(lifecycle.enter_building_op());
    assert_eq!(lifecycle.begin_running(2, &mut out), Err(BeginFault::StaleCount));
    assert_eq!(lifecycle.begin_running(1, &mut out), Ok(()));
    assert_eq!(out, vec![100]);
    assert_eq!(lifecycle.begin_running(1, &mut out), Err(BeginFault::Closed));
    assert_eq!(lifecycle.attach_member(Ok(102), true), Err(AttachFault::Closed));
    assert_eq!(lifecycle.snapshot().0, ProcessState::Running);
    assert_eq!(lifecycle.enter_running_if(tid, 3, true), EnterRunning::Entered);
    assert_eq!(lifecycle.snapshot_running().unwrap().active, 0b1000);
}

#[test]
fn changes_are_told_from_the_snapshot() {
    let mut lifecycle = running(2);
    let before = lifecycle.snapshot_running().unwrap();
    assert!(lifecycle.commit_if_current(before).is_ok());
    assert_eq!(lifecycle.enter_running_if(1, 0, true), EnterRunning::Entered);
    assert!(lifecycle.commit_if_current(before).is_err());
    assert_eq!(lifecycle.enter_running_if(2, 1, false), EnterRunning::Retry);
    assert!(lifecycle.park_waiting(1, 900));
    assert_eq!(lifecycle.take_first_waiting(), Some(900));
}

#[test]
fn termination_reaches_every_core() {
    let mut lifecycle = running(2);
    lifecycle.enter_running_if(1, 0, true);
    lifecycle.enter_running_if(2, 5, true);
    let todo = lifecycle.request_termination(ProcessExitReason::Fault, -7, None);
    assert_eq!(todo.ipi_slots, 0b10_0001);
    assert!(!todo.reapable);
    assert!(lifecycle.is_terminating());
    assert_eq!(lifecycle.enter_running_if(2, 5, true), EnterRunning::Closed);
    // The first reason stays.
    lifecycle.request_termination(ProcessExitReason::Killed, 3, None);
    assert_eq!(
        lifecycle.snapshot(),
        (ProcessState::Terminating, ProcessExitReason::Fault, -7)
    );
    assert!(lifecycle.clear_active_if(0, true));
    assert!(lifecycle.clear_active_if(5, true));
    assert!(!lifecycle.thread_departed(1));
    assert!(lifecycle.thread_departed(2));
    assert!(lifecycle.is_reapable());
    assert_eq!(lifecycle.mark_dead(), (ProcessExitReason::Fault, -7));
}

#[test]
fn killing_is_accepted_once_and_for_all() {
    let mut lifecycle = running(1);
    let other = Ok(ProcessHandleEntry { kind: ObjectKind::Job, ..control_handle().unwrap() });
    assert_eq!(
        process::kill(&mut lifecycle, other, true, None, 5).err(),
        Some(SystemCallError::WrongObjectType)
    );
    let (outcome, todo) = process::kill(&mut lifecycle, control_handle(), true, None, 5).unwrap();
    assert_eq!(outcome, KillOutcome::Accepted);
    assert!(todo.is_some());
    assert_eq!(lifecycle.snapshot().1, ProcessExitReason::Killed);
    let mut mine = running(1);
    mine.enter_running_if(1, 2, true);
    let own = process::kill(&mut mine, control_handle(), true, Some((1, 2)), 5).unwrap();
    assert_eq!(own.0, KillOutcome::TerminatedCaller);
}

#[test]
fn threads_that_never_ran_are_dropped() {
    let mut lifecycle = Lifecycle::building(8);
    lifecycle.attach_member(Ok(100), true).unwrap();
    lifecycle.attach_member(Ok(101), true).unwrap();
    assert_eq!(rollback_unpublished(&mut lifecycle), vec![100, 101]);
    assert_eq!(lifecycle.member_count(), 0);
    let mut lifecycle = Lifecycle::building(8);
    lifecycle.attach_member(Ok(100), true).unwrap();
    let todo = lifecycle.request_termination(ProcessExitReason::Abandoned, 0, None);
    let rest = process::run_termination_todo(&mut lifecycle, todo);
    assert_eq!(rest.dropped, vec![100]);
    assert!(rest.reapable);
    assert_eq!(process::confirm_departure(None, true), DepartureEnd::PublishReapable);
    assert_eq!(process::confirm_departure(None, false), DepartureEnd::Nothing);
    assert_eq!(
        process::confirm_departure(Some(todo), true),
        DepartureEnd::Terminate(todo)
    );
}

#[test]
fn departures_wait_for_results() {
    let mut departure = ThreadDeparture::new();
    departure.acquire_result();
    assert_eq!(departure.request(DepartureKind::Normal(4)), None);
    assert_eq!(departure.complete_result(), Some(DepartureKind::Normal(4)));
    assert_eq!(departure.request(DepartureKind::Terminated), None);
    let mut plain = ThreadDeparture::new();
    assert_eq!(plain.request(DepartureKind::Terminated), Some(DepartureKind::Terminated));
    assert_eq!(DepartureKind::Normal(4).normal_code(), Some(4));
    assert_eq!(DepartureKind::Terminated.normal_code(), None);
    let mut control = ThreadControl::new();
    assert_eq!(control.publish_done(), None);
    let mut exit = ThreadExit::new();
    assert_eq!(exit.departure_kind(), DepartureKind::Terminated);
    exit.mark_normal_exit(9);
    assert_eq!(exit.departure_kind(), DepartureKind::Normal(9));
}

#[test]
fn control_tells_the_end() {
    let lifecycle = running(1);
    let mut control = ProcessControl::new(77);
    let told = process::query(&control, control_handle(), 5, 1, &lifecycle, Ok(()), Ok(())).unwrap();
    assert_eq!((told.pid, told.parent_pid, told.state), (5, 1, ProcessState::Running));
    control.publish_reapable();
    assert_eq!(control.signals(), signals::REAPABLE);
    let end = DeadSnapshot { pid: 5, parent_pid: 1, reason: ProcessExitReason::Killed, code: 3 };
    control.publish_dead(end);
    assert!(control.is_dead());
    assert_eq!(control.signals(), signals::CLOSED);
    let told = process::query(&control, control_handle(), 5, 1, &lifecycle, Ok(()), Ok(())).unwrap();
    assert_eq!((told.state, told.reason, told.code), (ProcessState::Dead, ProcessExitReason::Killed, 3));
    let answer = process::drain_start(&control, 4, 16, Ok(()), control_handle(), false, true);
    assert_eq!(
        answer,
        Ok(DrainStart::Answer(ProcessDrainResult { work_done: 0, complete: true }))
    );
    assert_eq!(
        process::drain_start(&control, 0, 16, Ok(()), control_handle(), true, true).err(),
        Some(SystemCallError::IllegalArgument)
    );
}

#[test]
fn processes_are_made_and_started() {
    let mut tree = JobTree::root();
    let job = Ok(ProcessHandleEntry {
        object: 1,
        kind: ObjectKind::Job,
        role: HandleRole::JobControl,
        rights: rights::JOB_CONTROL,
    });
    let pid = process::create(&mut tree, 0, job, rights::READ, MANY, true, true, Ok(500)).unwrap();
    assert_eq!(tree.member_process(0, pid), Some(500));
    let failed = process::create(
        &mut tree,
        0,
        job,
        rights::READ,
        MANY,
        true,
        true,
        Err(SystemCallError::OutOfMemory),
    );
    assert_eq!(failed, Err(SystemCallError::OutOfMemory));
    assert_eq!(tree.snapshot(0).live_processes, 1);
    let (builder, control) = process::create_entries(3, 4, true, rights::READ).unwrap();
    assert_eq!(builder.role, HandleRole::ProcessBuilder);
    assert_eq!((control.role, control.rights), (HandleRole::ProcessControl, rights::READ));

    let mut lifecycle = Lifecycle::building(8);
    assert!(lifecycle.enter_building_op());
    let (tid, retired) = process::attach(&mut lifecycle, Ok(()), Ok(100), true).unwrap();
    assert_eq!((tid, retired), (1, None));
    assert_eq!(
        process::attach(&mut lifecycle, Err(SpaceError::Conflict), Ok(101), true).err(),
        Some(SystemCallError::InvalidAddress)
    );
    let unbound = process::start(
        &tree, 0, &mut lifecycle, false, true, 1, true, Ok(()), true, MANY, true,
    );
    assert!(unbound.result.is_err());
    let end = process::start(
        &tree, 0, &mut lifecycle, true, true, 1, true, Ok(()), true, MANY, true,
    );
    assert_eq!(end.result, Ok(vec![100]));
    assert!(!end.return_batch);
    assert_eq!(lifecycle.snapshot().0, ProcessState::Running);
}

#[test]
fn builders_are_used_up() {
    let mut builder = ProcessBuilder { process: Some(500) };
    assert_eq!(builder.process(true), Ok(500));
    assert!(builder.process(false).is_err());
    builder.consume();
    assert!(builder.process(true).is_err());
    assert_eq!(builder.abort(true), None);
    let mut other = ProcessBuilder { process: Some(500) };
    assert_eq!(other.abort(true), Some(500));
    assert_eq!(process::check_bind_handles(3, 3), Err(SystemCallError::IllegalArgument));
    assert_eq!(process::check_bind_handles(3, 4), Ok(()));
    assert_eq!(process::check_grant(0, 4, true, Ok(())), Err(SystemCallError::IllegalArgument));
    assert_eq!(process::check_grant(4, 4, true, Ok(())), Ok(()));
    assert_eq!(process::parse_profile(11, 10, 11), Ok(IsaRequirement::D64));
    assert!(process::parse_profile(12, 10, 11).is_err());
}

#[test]
fn memory_is_bound_once() {
    let mut admission = MetadataAdmission::init();
    let metadata = MetadataSponsor::try_new(&mut admission, true).unwrap();
    let mut resources = ProcessResources { metadata, bind_in_progress: false };
    let pool = Ok(ProcessHandleEntry {
        object: 2,
        kind: ObjectKind::MemoryPool,
        role: HandleRole::MemoryPool,
        rights: rights::MEMORY_POOL,
    });
    let again = process::bind_memory(&mut resources, true, true, pool, Ok(()), true, Ok(()), false);
    assert!(again.result.is_err());
    let end = process::bind_memory(&mut resources, false, false, pool, Ok(()), true, Ok(()), false);
    assert_eq!(end.result, Ok(()));
    assert!(!resources.bind_in_progress);
}

#[test]
fn execution_is_bound_to_a_domain() {
    let mut binding = ExecutionBinding::unbound();
    binding.bind_execution(IsaRequirement::D64, 6);
    assert_eq!((binding.requirement(), binding.domain()), (IsaRequirement::D64, 6));
    let context = initial_context(ThreadStartContext {
        entry: 0x1000,
        stack_pointer: 0x8000,
        arg1: 3,
        arg2: 4,
    });
    assert_eq!(context.sepc, 0x1000);
    assert_eq!((context.x[2], context.x[10], context.x[11], context.x[1]), (0x8000, 3, 4, 0));
}

#[test]
fn drained_process_ends() {
    let entry = ProcessHandleEntry {
        object: 8,
        kind: ObjectKind::Notification,
        role: HandleRole::NotificationOwner,
        rights: rights::READ,
    };
    let mut tree = JobTree::root();
    let (pid, reservation) = tree.gate_reserve_member(0, MANY, true, true).unwrap();
    tree.commit_member(0, reservation, 500);
    let mut lifecycle = Lifecycle::building(8);
    lifecycle.request_termination(ProcessExitReason::Abandoned, 6, None);
    let mut control = ProcessControl::new(500);
    let space = SpaceDrain::new(vec![], vec![], vec![], vec![]);
    let mut drain = ProcessDrain::new(vec![None, Some(entry)], space);
    let mut closed = 0;
    let mut released = vec![];
    let mut work = 0;
    let mut step = drain.begin_batch();
    loop {
        step = match step {
            BatchStep::Close(entry) => {
                closed += 1;
                work += 1;
                drain.closed(entry, true, work, MANY)
            }
            BatchStep::Release(resource) => {
                released.push(resource);
                BatchStep::Continue
            }
            BatchStep::Continue => {
                let (next, now) = drain.step(
                    work, MANY, &mut control, &mut lifecycle, &mut tree, 0, pid, 1,
                );
                work = now;
                next
            }
            BatchStep::End(complete) => {
                assert!(complete);
                break;
            }
        };
    }
    assert_eq!(closed, 1);
    assert!(matches!(released.last(), Some(RetiredSpaceResource::Root)));
    assert!(control.is_dead());
    assert_eq!(tree.member_process(0, pid), None);
}

fn published() -> PublishOutcomes {
    PublishOutcomes { slot: Ok(77), output: Ok(()), delivered: Ok(()) }
}

#[test]
fn handles_are_published_whole_or_not_at_all() {
    let mut tokens = IdSequence::new();
    let entry = control_handle().unwrap();
    assert_eq!(handle_close::install_one(&mut tokens, entry, true, &published()), Ok((77, entry)));
    let unwritable = PublishOutcomes {
        output: Err(SystemCallError::MemoryNotAccessible),
        ..published()
    };
    assert_eq!(
        handle_close::install_one(&mut tokens, entry, true, &unwritable),
        Err(CallFailure { error: SystemCallError::MemoryNotAccessible, give_back: true })
    );
    // A caller that dies of the failure takes its slot along.
    let fatal = PublishOutcomes {
        delivered: Err(SystemCallError::MemoryNotAccessible),
        ..published()
    };
    assert_eq!(
        handle_close::duplicate(&mut tokens, true, Ok(entry), &fatal),
        Err(CallFailure { error: SystemCallError::MemoryNotAccessible, give_back: false })
    );
    assert_eq!(
        handle_close::duplicate(&mut tokens, true, Err(TableError::RightsDenied), &published()),
        Err(CallFailure { error: SystemCallError::RightsDenied, give_back: false })
    );
    let full = PublishOutcomes { slot: Err(TableError::ReachLimit), ..published() };
    assert_eq!(
        handle_close::duplicate(&mut tokens, true, Ok(entry), &full),
        Err(CallFailure { error: SystemCallError::ReachLimit, give_back: false })
    );
    // Each try that had memory took a token.
    assert_eq!(tokens.allocate(), Some(6));
    assert_eq!(
        handle_close::install_one(&mut tokens, entry, false, &published()),
        Err(CallFailure { error: SystemCallError::OutOfMemory, give_back: false })
    );
    assert_eq!(tokens.allocate(), Some(7));
}

fn spawning() -> SpawnOutcomes {
    SpawnOutcomes {
        context: Ok(ThreadStartContext { entry: 0x1000, stack_pointer: 0x8000, arg1: 0, arg2: 0 }),
        made: Ok(()),
        entries_room: true,
        ready_room: true,
        batch: true,
        slot: Ok(77),
        output: Ok(()),
        admitted: Ok(()),
        built: Ok(200),
        member_room: true,
        written: Ok(()),
    }
}

#[test]
fn threads_are_created_whole_or_not_at_all() {
    let mut lifecycle = running(1);
    assert_eq!(lifecycle.enter_running_if(1, 3, true), EnterRunning::Entered);
    let spawned = thread::spawn(&mut lifecycle, 9, 1, 3, -2, &spawning()).unwrap();
    assert_eq!((spawned.tid, spawned.thread, spawned.handle), (2, 200, 77));
    assert_eq!(spawned.entry.role, HandleRole::ThreadControl);
    assert_eq!(spawned.entry.rights, rights::THREAD_CONTROL);
    assert_eq!(lifecycle.member_count(), 2);

    let no_place = SpawnOutcomes { batch: false, ..spawning() };
    let failure = thread::spawn(&mut lifecycle, 9, 1, 3, -2, &no_place).unwrap_err();
    assert_eq!(failure.error, SystemCallError::OutOfMemory);
    assert!(!failure.return_batch && !failure.give_back);
    let no_slot = SpawnOutcomes { slot: Err(TableError::ReachLimit), ..spawning() };
    let failure = thread::spawn(&mut lifecycle, 9, 1, 3, -2, &no_slot).unwrap_err();
    assert!(failure.return_batch && !failure.give_back);
    let odd = SpawnOutcomes { admitted: Err(SpaceError::Conflict), ..spawning() };
    let failure = thread::spawn(&mut lifecycle, 9, 1, 3, -2, &odd).unwrap_err();
    assert_eq!(failure.error, SystemCallError::InvalidAddress);
    assert!(failure.return_batch && failure.give_back);
    let oom = SpawnOutcomes { built: Err(AttachFault::Oom), ..spawning() };
    assert_eq!(
        thread::spawn(&mut lifecycle, 9, 1, 3, -2, &oom).unwrap_err().error,
        SystemCallError::OutOfMemory
    );
    assert_eq!(lifecycle.member_count(), 2);

    // A caller that cannot be answered ends its process.
    let mute = SpawnOutcomes { written: Err(SystemCallError::MemoryNotAccessible), ..spawning() };
    let failure = thread::spawn(&mut lifecycle, 9, 1, 3, -2, &mute).unwrap_err();
    assert_eq!(failure.dropped, Some(200));
    assert_eq!(failure.todo.unwrap().ipi_slots, 0);
    assert_eq!(
        lifecycle.snapshot(),
        (ProcessState::Terminating, ProcessExitReason::Fault, -2)
    );
    assert_eq!(lifecycle.member_count(), 2);
    let late = thread::spawn(&mut lifecycle, 9, 1, 3, -2, &spawning()).unwrap_err();
    assert_eq!(late.error, SystemCallError::ObjectClosed);
}

#[test]
fn grants_move_everything_or_nothing() {
    let two = vec![Ok(()), Ok(())];
    assert_eq!(process::grant(Ok(()), Ok(()), true, &two), Ok(()));
    let bad = vec![Ok(()), Err(SystemCallError::MemoryNotAccessible)];
    assert_eq!(
        process::grant(Ok(()), Ok(()), true, &bad),
        Err(GrantFailure {
            error: SystemCallError::MemoryNotAccessible,
            unpin: true,
            give_back: true,
        })
    );
    assert_eq!(
        process::grant(Ok(()), Err(TableError::ReachLimit), true, &two),
        Err(GrantFailure { error: SystemCallError::ReachLimit, unpin: true, give_back: false })
    );
    assert_eq!(
        process::grant(Err(TableError::RightsDenied), Ok(()), true, &two),
        Err(GrantFailure { error: SystemCallError::RightsDenied, unpin: false, give_back: false })
    );
    assert_eq!(
        process::grant(Ok(()), Ok(()), false, &two),
        Err(GrantFailure { error: SystemCallError::OutOfMemory, unpin: true, give_back: true })
    );
}

#[test]
fn building_is_registered_after_the_arguments_are_read() {
    let mut lifecycle = Lifecycle::building(8);
    let builder = ProcessBuilder { process: Some(500) };
    let found = Ok(ProcessHandleEntry {
        object: 3,
        kind: ObjectKind::ProcessBuilder,
        role: HandleRole::ProcessBuilder,
        rights: rights::PROCESS_BUILDER,
    });
    let denied = Err(TableError::RightsDenied);
    let long = process::check_write(9, 8);
    assert_eq!(
        process::begin_building(&mut lifecycle, long, denied, &builder, true),
        Err(SystemCallError::IllegalArgument)
    );
    let short = process::check_write(8, 8);
    assert_eq!(
        process::begin_building(&mut lifecycle, short, denied, &builder, true),
        Err(SystemCallError::RightsDenied)
    );
    assert_eq!(process::begin_building(&mut lifecycle, short, found, &builder, true), Ok(500));
    let user = UserSpace { top: 0x10_0000, stack_bytes: 0x1000 };
    let mapped = vec![Some(PageMapping { ppn: 9, flags: translation::USER }), None];
    let write = |bound, len, pages: &Vec<Option<PageMapping>>| {
        process::write(true, Ok(()), bound, user, 0x2ffc, len, pages)
    };
    assert_eq!(
        write(Err(SpaceError::NotMapped), 4, &vec![mapped[0]]).err(),
        Some(SystemCallError::NotMapped)
    );
    assert_eq!(write(Ok(()), 8, &mapped).err(), Some(SystemCallError::IllegalArgument));
    assert_eq!(
        write(Ok(()), 4, &vec![mapped[0]]),
        Ok(vec![BuildingChunk { source: 0, physical: 9 * 4096 + 0xffc, bytes: 4 }])
    );
    lifecycle.request_termination(ProcessExitReason::Killed, 0, None);
    assert!(lifecycle.leave_building_op());
    assert_eq!(
        process::begin_building(&mut lifecycle, short, found, &builder, true),
        Err(SystemCallError::ObjectClosed)
    );
}

#[test]
fn preempted_thread_is_ready_again() {
    let mut lifecycle = running(1);
    assert_eq!(lifecycle.enter_running_if(1, 2, true), EnterRunning::Entered);
    let before = lifecycle.snapshot_running().unwrap();
    assert_eq!(before.active, 0b100);
    assert!(!lifecycle.on_requeue_if(1, 2, false));
    assert!(lifecycle.commit_if_current(before).is_ok());
    assert!(lifecycle.on_requeue_if(1, 2, true));
    assert_eq!(lifecycle.snapshot_running().unwrap().active, 0);
    assert!(lifecycle.commit_if_current(before).is_err());
    assert_eq!(lifecycle.enter_running_if(1, 0, true), EnterRunning::Entered);
}

#[test]
fn last_visit_ends_the_process() {
    let mut tree = JobTree::root();
    let (pid, reservation) = tree.gate_reserve_member(0, MANY, true, true).unwrap();
    tree.commit_member(0, reservation, 500);
    let mut lifecycle = Lifecycle::building(8);
    lifecycle.request_termination(ProcessExitReason::Killed, -3, None);
    let mut control = ProcessControl::new(500);
    let (early, none) =
        process::drain_end(&mut control, &mut lifecycle, &mut tree, 0, pid, 7, 5, false);
    assert_eq!(early, ProcessDrainResult { work_done: 5, complete: false });
    assert!(none.is_none());
    assert!(!control.is_dead());
    assert_eq!(tree.member_process(0, pid), Some(500));
    let (last, risen) =
        process::drain_end(&mut control, &mut lifecycle, &mut tree, 0, pid, 7, 2, true);
    assert_eq!(last, ProcessDrainResult { work_done: 2, complete: true });
    // The job still takes members, so nothing rises from it.
    assert!(risen.is_none());
    assert!(control.is_dead());
    assert_eq!(control.signals(), signals::CLOSED);
    assert_eq!(lifecycle.snapshot().0, ProcessState::Dead);
    assert_eq!(tree.member_process(0, pid), None);
}

#[test]
fn control_made_late_tells_the_same() {
    let mut lifecycle = running(1);
    assert_eq!(revive_control(500, 4, 1, &lifecycle).signals(), signals::NONE);
    let mut ending = Lifecycle::building(8);
    ending.request_termination(ProcessExitReason::Killed, -3, None);
    let reapable = revive_control(500, 4, 1, &ending);
    assert_eq!(reapable.signals(), signals::REAPABLE);
    assert!(!reapable.is_dead());
    lifecycle.request_termination(ProcessExitReason::Killed, -3, None);
    lifecycle.mark_dead();
    let dead = revive_control(500, 4, 1, &lifecycle);
    assert_eq!(dead.signals(), signals::CLOSED);
    assert!(dead.is_dead());
}

#[test]
fn mapping_of_a_new_process_is_bounded() {
    assert_eq!(process::check_map(0), Err(SystemCallError::IllegalArgument));
    assert_eq!(process::check_map(1), Ok(()));
    assert_eq!(process::check_map(256 * 4096 + 4095), Ok(()));
    assert_eq!(process::check_map(257 * 4096), Err(SystemCallError::IllegalArgument));
}

#[test]
fn start_that_fails_needs_no_operation() {
    let tree = JobTree::root();
    let mut lifecycle = Lifecycle::building(4);
    let mut out = vec![];
    assert_eq!(lifecycle.begin_running(1, &mut out), Err(BeginFault::Closed));
    lifecycle.attach_member(Ok(100), true).unwrap();
    assert_eq!(lifecycle.begin_running(2, &mut out), Err(BeginFault::StaleCount));
    assert_eq!(
        tree.start_commit_gate(0, MANY, true, &mut lifecycle, 2, &mut out),
        Err(SystemCallError::ObjectBusy)
    );
    assert_eq!(
        tree.start_commit_gate(0, 0, true, &mut lifecycle, 1, &mut out),
        Err(SystemCallError::OutOfMemory)
    );
    assert!(out.is_empty());
    assert_eq!(lifecycle.snapshot().0, ProcessState::Building);
}
