//! Handles, what objects publish, and the work that publishing leaves.
use kernel_task::delivery::Delivery;
use kernel_task::error::SystemCallError;
use kernel_task::handle;
use kernel_task::handle::{ProcessHandleEntry, TableError};
use kernel_task::handle_close;
use kernel_task::handle_close::{
    CloseAction, CloseOutcome, HandleCloseStart, PendingClose, PendingEntries,
};
use kernel_task::ids::IdSequence;
use kernel_task::lifetime::LifetimeOwner;
use kernel_task::notification;
use kernel_task::notification::Notification;
use kernel_task::notify_work::{
    finish_range, finish_turn_end, has_current, visit_next, Completion, DrainTurn, FinishClass,
    FinishReservation, FinishSlots, Reservation, TurnEnd, VisitAction, VisitPhase, SLOTS,
};
use kernel_task::object::{
    select_snapshot, try_mint_koid, HandleRole, ObjectHeader, ObjectKind, ObjectWaitState,
    OfferResult, RetireStep, SignalEpoch, SubscribeResult, Subscription, WaitAdvance, WaitOutcome,
};
use kernel_task::ordered_table::{Entry, InsertError, OrderedTable};
use kernel_task::request::{
    DrainBatchOutcome, DrainExecutor, DrainRequest, ProcessDrainResult, StepState, VisitBudget,
};
use kernel_task::retirement::{step_end, Launch, RetireAction, RetirementCompletion};
use kernel_task::rights;
use kernel_task::signals;
use kernel_task::system_reset;
use kernel_task::system_reset::{
    PlatformAction, PlatformAnswer, PlatformReason, ResetAction, ResetReason, SystemReset,
};

fn entry_of(kind: ObjectKind, role: HandleRole) -> ProcessHandleEntry {
    ProcessHandleEntry { object: 40, kind, role, rights: rights::READ }
}

fn watch(interest: u64) -> Subscription {
    Subscription { object: 9, interest, sink: 70, persistent: false }
}

#[test]
fn identities_count_up() {
    let mut sequence = IdSequence::new();
    assert_eq!(try_mint_koid(&mut sequence), Some(1));
    assert_eq!(ObjectHeader::try_new(&mut sequence).unwrap().koid(), 2);
    assert_eq!(ObjectHeader::new(&mut sequence).koid(), 3);
    assert_eq!(handle_close::transaction_token(&mut sequence), Ok(4));
}

#[test]
fn entries_stay_within_the_policy() {
    let read = handle::entry(1, ObjectKind::MemoryPool, HandleRole::JobControl, rights::READ);
    assert_eq!(read, Err(TableError::RightsDenied));
    let unknown = handle::entry(1, ObjectKind::MemoryPool, HandleRole::MemoryPool, 1 << 63);
    assert_eq!(unknown, Err(TableError::RightsDenied));
    let write = handle::entry(1, ObjectKind::MemoryPool, HandleRole::MemoryPool, rights::WRITE);
    assert_eq!(write, Err(TableError::RightsDenied));
    let good = handle::entry(1, ObjectKind::MemoryPool, HandleRole::MemoryPool, rights::READ);
    assert_eq!(good.unwrap().rights, rights::READ);
    let most = handle::allowed_rights(ObjectKind::Delivery, HandleRole::Delivery).unwrap();
    assert_eq!(most, rights::TRANSIT | rights::GRANT);
    assert!(handle::entry(1, ObjectKind::Delivery, HandleRole::Delivery, most).is_ok());
    assert_eq!(most & rights::DUPLICATE, 0);
    let owner = handle::allowed_rights(ObjectKind::Mailbox, HandleRole::MailboxOwner).unwrap();
    assert_eq!(owner & rights::TRANSIT, 0);
    assert_eq!(
        handle::allowed_signals(ObjectKind::Job, HandleRole::JobControl),
        Some(signals::CLOSED)
    );
    assert_eq!(handle::allowed_signals(ObjectKind::Delivery, HandleRole::Delivery), None);
}

#[test]
fn table_failures_are_reported() {
    let reported = [
        (TableError::InvalidHandle, SystemCallError::IllegalArgument),
        (TableError::StaleHandle, SystemCallError::StaleHandle),
        (TableError::ObjectBusy, SystemCallError::ObjectBusy),
        (TableError::RightsDenied, SystemCallError::RightsDenied),
        (TableError::DuplicateHandle, SystemCallError::IllegalArgument),
        (TableError::ReachLimit, SystemCallError::ReachLimit),
        (TableError::BadReservation, SystemCallError::InternalError),
        (TableError::AllocationFailed, SystemCallError::OutOfMemory),
    ];
    for (error, call) in reported {
        assert_eq!(handle::map_error(error), call);
    }
    let entry = entry_of(ObjectKind::Job, HandleRole::JobControl);
    assert_eq!(
        handle::resolve(Ok(entry), ObjectKind::MemoryPool, HandleRole::MemoryPool),
        Err(SystemCallError::WrongObjectType)
    );
    assert_eq!(
        handle::resolve(Ok(entry), ObjectKind::Job, HandleRole::JobControl),
        Ok(entry)
    );
    let told = handle::query(Ok(entry), 5, 6).unwrap();
    assert_eq!((told.object_id, told.related_object_id, told.badge), (40, 5, 6));
}

#[test]
fn closing_a_handle_goes_by_its_object() {
    let job = entry_of(ObjectKind::Job, HandleRole::JobControl);
    let tunnel = entry_of(ObjectKind::TunnelEndpoint, HandleRole::TunnelEndpoint);
    let missing = handle_close::close(Err(TableError::StaleHandle), false, Ok(1), Ok(2));
    assert_eq!(missing, Err(SystemCallError::StaleHandle));
    assert_eq!(
        handle_close::close(Ok(job), false, Ok(1), Ok(2)),
        Ok(CloseOutcome {
            start: HandleCloseStart::Ready,
            remove: true,
            action: Some(CloseAction::CloseHandle(40, HandleRole::JobControl)),
        })
    );
    assert_eq!(
        handle_close::close(Ok(job), true, Ok(1), Ok(2)),
        Ok(CloseOutcome { start: HandleCloseStart::Wait(2), remove: true, action: None })
    );
    assert_eq!(
        handle_close::close(Ok(job), true, Ok(1), Err(SystemCallError::ReachLimit)),
        Err(SystemCallError::ReachLimit)
    );
    assert_eq!(
        handle_close::close(Ok(tunnel), false, Ok(1), Ok(2)),
        Ok(CloseOutcome { start: HandleCloseStart::Wait(1), remove: false, action: None })
    );
    assert_eq!(
        handle_close::close(Ok(tunnel), false, Err(SystemCallError::ObjectBusy), Ok(2)),
        Err(SystemCallError::ObjectBusy)
    );
    assert_eq!(handle_close::close_entry(tunnel, false, true), CloseAction::Detach(40));
}

#[test]
fn retirement_is_waited_for() {
    let job = entry_of(ObjectKind::Job, HandleRole::JobControl);
    let started = handle_close::retire_entry(job, true);
    assert_eq!(started.work, 1);
    assert_eq!(started.action, Some(CloseAction::Retire(40)));
    let pending = started.left.unwrap();
    assert_eq!(pending.dependency(), 40);
    let waiting = pending.advance(true, false);
    assert_eq!((waiting.work, waiting.left), (0, Some(PendingClose::Retirement(40))));
    let over = pending.advance(true, true);
    assert_eq!((over.work, over.left), (1, None));
    let plain = PendingClose::Entry(job).advance(false, false);
    assert_eq!(plain.left, None);
}

#[test]
fn pending_entries_have_their_room_first() {
    assert!(matches!(
        PendingEntries::try_new(2, false),
        Err(SystemCallError::OutOfMemory)
    ));
    let mut pending = PendingEntries::try_new(1, true).unwrap();
    pending.push(entry_of(ObjectKind::Job, HandleRole::JobControl));
    assert_eq!(pending.try_reserve(2, false), Err(SystemCallError::OutOfMemory));
    assert_eq!(pending.try_reserve(2, true), Ok(()));
    pending.push(entry_of(ObjectKind::Mailbox, HandleRole::MailboxOwner));
    assert_eq!(pending.take().len(), 2);
}

#[test]
fn tables_keep_their_order() {
    let mut table = OrderedTable::new(3);
    assert_eq!(table.try_insert(5, Entry::Live(50), true), Ok(()));
    assert_eq!(table.try_insert(2, Entry::Reserved { token: 1 }, true), Ok(()));
    assert_eq!(table.try_insert(9, Entry::Live(90), false), Err(InsertError::Allocation));
    assert_eq!(table.try_insert(9, Entry::Live(90), true), Ok(()));
    assert_eq!(table.try_insert(1, Entry::Live(10), true), Err(InsertError::Limit));
    assert_eq!(table.len(), 3);
    assert_eq!(table.count_live(), 2);
    table.set(2, Entry::Live(20));
    assert_eq!(table.scan_visible(0, 2), (vec![2, 5], true));
    assert_eq!(table.scan_visible(5, 2), (vec![9], false));
    assert_eq!(table.remove(5), Entry::Live(50));
    assert_eq!(table.get(5), None);
    assert_eq!(table.get(9), Some(Entry::Live(90)));
}

fn epochs_of(list: &[(usize, u64, u64)]) -> Vec<SignalEpoch> {
    let mut epochs = vec![SignalEpoch { generation: 0, serial: 0, snapshot: 0 }; signals::COUNT];
    for (index, serial, snapshot) in list {
        epochs[*index] = SignalEpoch { generation: 1, serial: *serial, snapshot: *snapshot };
    }
    epochs
}

#[test]
fn history_is_told_in_the_order_in_which_it_happened() {
    let interest = signals::DATA | signals::PEER_ATTACHED;
    let mut seen = vec![0; signals::COUNT];
    let history = [(3, 1, signals::PEER_ATTACHED), (2, 2, signals::DATA)];
    let epochs = epochs_of(&history);
    assert_eq!(
        select_snapshot(&epochs, &seen, interest, signals::DATA),
        Some(signals::PEER_ATTACHED)
    );
    seen[3] = 1;
    assert_eq!(
        select_snapshot(&epochs, &seen, interest, signals::DATA),
        Some(signals::DATA)
    );
    let closed = epochs_of(&[history[0], history[1], (8, 3, signals::CLOSED)]);
    assert_eq!(
        select_snapshot(&closed, &seen, interest, signals::CLOSED),
        Some(signals::DATA)
    );
    let all: Vec<u64> = closed.iter().map(|epoch| epoch.generation).collect();
    assert_eq!(
        select_snapshot(&closed, &all, interest, signals::CLOSED),
        Some(signals::CLOSED)
    );
}

#[test]
fn observers_learn_of_levels() {
    let mut state = ObjectWaitState::new(signals::NONE);
    let now = state.update(signals::NONE, signals::READABLE);
    assert_eq!(now, signals::READABLE);
    assert_eq!(state.signals(), signals::READABLE);
    let ready = state.subscribe(watch(signals::READABLE), None, true);
    assert_eq!(
        ready.result,
        SubscribeResult::Ready {
            outcome: WaitOutcome::Observed(signals::READABLE),
            retired: watch(signals::READABLE),
        }
    );
    state.update(signals::READABLE, signals::NONE);
    assert!(state.needs_notification());
    let slot = Reservation { slot: 3 };
    let waiting = state.subscribe(watch(signals::READABLE), Some(slot), true);
    let id = match waiting.result {
        SubscribeResult::Registered(id) => id,
        _ => panic!("nothing is raised"),
    };
    assert_eq!(state.active_waiters(), 1);
    state.update(signals::NONE, signals::READABLE);
    let (reservation, object) = state.take_notification().unwrap();
    assert_eq!((reservation, object), (slot, 9));
    let offer = loop {
        match state.advance_waiter() {
            WaitAdvance::Offer { slot, outcome, .. } => break (slot, outcome),
            WaitAdvance::Progress(_) => {}
            other => panic!("{:?}", other),
        }
    };
    assert_eq!(offer.1, WaitOutcome::Observed(signals::READABLE));
    let settled = state.settle_offer(offer.0, OfferResult::Complete);
    assert!(matches!(settled, WaitAdvance::Complete { sink: 70, .. }));
    while !state.advance_waiter().finish() {}
    assert_eq!(state.complete_notification(reservation), Completion::Release(slot));
    assert!(state.unsubscribe(id).is_none());
    assert_eq!(state.active_waiters(), 0);
}

#[test]
fn cancelled_observers_give_their_slot_back() {
    let mut state = ObjectWaitState::new(signals::NONE);
    let slot = Reservation { slot: 1 };
    let first = state.subscribe(watch(signals::DATA), Some(slot), true);
    let id = match first.result {
        SubscribeResult::Registered(id) => id,
        _ => panic!("nothing is raised"),
    };
    let refused = state.subscribe(watch(signals::DATA), None, false);
    assert!(matches!(refused.result, SubscribeResult::OutOfMemory(_)));
    let (retired, returned) = state.unsubscribe(id).unwrap();
    assert_eq!(retired, watch(signals::DATA));
    assert_eq!(returned, Some(slot));
    assert!(state.cancel_observer(id).is_none());
}

#[test]
fn closed_object_retires_its_observers() {
    let mut state = ObjectWaitState::new(signals::NONE);
    state.subscribe(watch(signals::DATA), Some(Reservation { slot: 1 }), true);
    state.update(signals::NONE, signals::CLOSED);
    let mut offered = 0;
    loop {
        match state.retire_closed_step() {
            RetireStep::Progress => {}
            RetireStep::Offer { outcome, .. } => {
                assert_eq!(outcome, WaitOutcome::Observed(signals::CLOSED));
                offered += 1;
            }
            RetireStep::Done => break,
        }
    }
    assert_eq!(offered, 1);
    assert!(state.subscriptions_retired());
}

#[test]
fn notifications_collect_bits() {
    let mut bell = Notification::new();
    assert_eq!(bell.signal(0b101), Ok(()));
    assert_eq!(bell.signal(0b010), Ok(()));
    assert_eq!(bell.take(0b001), Ok(0b001));
    assert_eq!(bell.take(u64::MAX), Ok(0b110));
    assert_eq!(bell.take(u64::MAX), Err(SystemCallError::ObjectNotAvailable));
    bell.close_owner();
    assert_eq!(bell.signal(1), Err(SystemCallError::ObjectClosed));
    let made = notification::create(8, true, rights::READ | rights::WAIT, rights::SIGNAL);
    let (owner, signaler) = made.unwrap();
    assert_eq!(owner.role, HandleRole::NotificationOwner);
    assert_eq!(signaler.role, HandleRole::NotificationSignaler);
}

#[test]
fn level_stays_until_the_last_bit_is_taken() {
    let mut bell = Notification::new();
    assert_eq!(bell.signals(), signals::NONE);
    assert_eq!(bell.signal(0b0110), Ok(()));
    assert_eq!(bell.take(0), Err(SystemCallError::IllegalArgument));
    assert_eq!(bell.take(0b0011), Ok(0b0010));
    assert_eq!(bell.signals(), signals::READABLE);
    assert_eq!(bell.take(0b0011), Err(SystemCallError::ObjectNotAvailable));
    assert_eq!(bell.take(u64::MAX), Ok(0b0100));
    assert_eq!(bell.signals(), signals::NONE);
    bell.close_owner();
    assert_eq!(bell.signals(), signals::CLOSED);
}

#[test]
fn one_publication_costs_one_pass() {
    let mut state = ObjectWaitState::new(signals::NONE);
    let slot = Reservation { slot: 3 };
    let mut ids = vec![];
    for n in 0..4 {
        let interest = if n == 2 { signals::DATA } else { signals::READABLE };
        let bought = if n == 0 { Some(slot) } else { None };
        match state.subscribe(watch(interest), bought, true).result {
            SubscribeResult::Registered(id) => ids.push(id),
            _ => panic!("nothing is raised"),
        }
    }
    // An identity is never given twice, even if its observer has left.
    assert!(state.unsubscribe(ids[1]).is_some());
    match state.subscribe(watch(signals::READABLE), None, true).result {
        SubscribeResult::Registered(id) => ids.push(id),
        _ => panic!("nothing is raised"),
    }
    assert_eq!(ids, vec![1, 2, 3, 4, 5]);
    assert_eq!(state.active_waiters(), 4);
    state.update(signals::NONE, signals::READABLE);
    let (reservation, _) = state.take_notification().unwrap();
    let mut passed = 0;
    let mut offered = vec![];
    loop {
        match state.advance_waiter() {
            WaitAdvance::Offer { slot, .. } => {
                offered.push(slot);
                state.settle_offer(slot, OfferResult::Deferred);
            }
            WaitAdvance::Done => break,
            _ => {}
        }
        passed += 1;
    }
    assert_eq!(passed, 4);
    offered.sort();
    assert_eq!(offered, vec![0, 1, 3]);
    assert!(state.advance_waiter().finish());
    assert_eq!(state.complete_notification(reservation), Completion::Held);
}

#[test]
fn completion_slots_are_apart() {
    let mut slots = FinishSlots::new(2, 1);
    let kernel = slots.reserve_finish(FinishClass::Kernel).unwrap();
    assert_eq!(kernel.class, FinishClass::Kernel);
    assert!(kernel.slot == SLOTS || kernel.slot == SLOTS + 1);
    let other = slots.reserve_finish(FinishClass::Kernel).unwrap();
    assert_ne!(other.slot, kernel.slot);
    assert_eq!(slots.reserve_finish(FinishClass::Kernel), Err(()));
    // The other classes have theirs.
    let lasting = FinishReservation { class: FinishClass::Persistent, slot: SLOTS + 2 };
    assert_eq!(slots.reserve_finish(FinishClass::Persistent), Ok(lasting));
    assert_eq!(slots.reserve_finish(FinishClass::Persistent), Err(()));
    assert!(slots.reserve_finish(FinishClass::Thread).unwrap().slot < SLOTS);
    slots.release(kernel);
    assert_eq!(slots.reserve_finish(FinishClass::Kernel), Ok(kernel));
    slots.release(other);
}

/// Serves `queue` within `budget`; each entry needs so much work.
fn visit(queue: &mut Vec<usize>, budget: usize) -> usize {
    let mut visit = VisitBudget::new(budget, 4);
    while let Some(turn) = visit.turn() {
        if queue.is_empty() {
            break;
        }
        let needs = queue.remove(0);
        let work = needs.min(turn);
        visit.charge(work);
        if needs > work {
            queue.push(needs - work);
        }
    }
    visit.used
}

#[test]
fn visit_reports_its_work() {
    let mut queue = vec![0, 9, 3];
    assert_eq!(visit(&mut queue, 0), 0);
    assert_eq!(queue.len(), 3);
    // An entry that turns out to need nothing costs one all the same.
    assert_eq!(visit(&mut queue, 6), 6);
    assert_eq!(queue, vec![5, 2]);
    assert_eq!(visit(&mut queue, 100), 7);
    assert_eq!(visit(&mut queue, 100), 0);
}

#[test]
fn lifetimes_and_deliveries_name_their_object() {
    let mut sequence = IdSequence::new();
    let delivery = Delivery::create(77, &mut sequence, Ok(()), true).unwrap();
    assert_eq!(delivery.related_id(), 77);
    assert!(matches!(
        Delivery::create(77, &mut sequence, Err(SystemCallError::ReachLimit), true),
        Err(SystemCallError::ReachLimit)
    ));
    assert!(matches!(
        LifetimeOwner::new(77, &mut sequence, Ok(()), false),
        Err(SystemCallError::OutOfMemory)
    ));
    let mut owner = LifetimeOwner::new(77, &mut sequence, Ok(()), true).unwrap();
    assert_eq!(owner.end(), None);
}

#[test]
fn turns_are_bounded_and_make_progress() {
    let mut turn = DrainTurn::new(2);
    turn.step(true);
    assert!(!turn.goes_on());
    assert_eq!((turn.cost(), turn.end()), (1, TurnEnd::Rearm));
    let mut turn = DrainTurn::new(2);
    turn.step(false);
    turn.step(false);
    assert!(!turn.goes_on());
    assert_eq!((turn.cost(), turn.end()), (2, TurnEnd::Requeue));
    assert_eq!(finish_turn_end(true, true), TurnEnd::Rearm);
    assert_eq!(finish_turn_end(true, false), TurnEnd::Finish);
    assert_eq!(finish_turn_end(false, true), TurnEnd::Requeue);
    assert_eq!(finish_range(FinishClass::Thread, 10, 20), (0, SLOTS));
    assert_eq!(finish_range(FinishClass::Kernel, 10, 20), (SLOTS, SLOTS + 10));
    assert_eq!(finish_range(FinishClass::Persistent, 10, 20), (SLOTS + 10, SLOTS + 30));
    assert!(!has_current(0, 0, 0, 0));
    assert!(has_current(0, 0, 0, 1));
}

#[test]
fn visits_serve_every_class_in_turn() {
    let mut phase = VisitPhase::Notifications;
    let mut seen = vec![];
    let mut notify = 2;
    loop {
        let (next, action) = visit_next(phase, (notify, true), (0, true));
        phase = next;
        seen.push(action);
        match action {
            VisitAction::Notify => notify -= 1,
            VisitAction::Stop => break,
            _ => {}
        }
    }
    assert_eq!(
        seen,
        vec![
            VisitAction::Notify,
            VisitAction::Notify,
            VisitAction::Requests,
            VisitAction::Retirements,
            VisitAction::Stop,
        ]
    );
}

#[test]
fn requests_keep_their_budget() {
    let mut budget = VisitBudget::new(5, 3);
    assert_eq!(budget.turn(), Some(3));
    budget.charge(3);
    assert_eq!(budget.turn(), Some(2));
    budget.charge(0);
    assert_eq!(budget.turn(), Some(1));
    budget.charge(1);
    assert_eq!(budget.turn(), None);

    let mut request = DrainRequest { budget: 4, work_done: 0, output: 0x100, key: 6 };
    assert_eq!(request.batch(3), 3);
    let step = request.step(false, 3, DrainBatchOutcome::Blocked(40));
    assert_eq!((step.work_done, step.state), (3, StepState::Blocked(40)));
    assert_eq!(request.batch(3), 1);
    let step = request.step(false, 1, DrainBatchOutcome::More);
    assert_eq!(step.state, StepState::Complete);
    assert_eq!(step.reply, Some(ProcessDrainResult { work_done: 4, complete: false }));
    let mut gone = DrainRequest { budget: 4, work_done: 1, output: 0x100, key: 6 };
    let step = gone.step(true, 0, DrainBatchOutcome::More);
    assert_eq!((step.state, step.reply), (StepState::Complete, None));
}

#[test]
fn executor_keeps_its_slot() {
    let slot = Reservation { slot: 2 };
    let request = DrainRequest { budget: 4, work_done: 0, output: 0, key: 6 };
    let mut executor = DrainExecutor::new(slot);
    executor.begin(30, request);
    assert!(executor.activation.is_some() && executor.reservation.is_some());
    assert_eq!(executor.start(5), None);
    assert_eq!(executor.start(6), Some((30, slot)));
    assert_eq!(executor.take(), request);
    executor.restore_blocked(request, 40);
    assert_eq!(executor.dependency, Some((6, 40)));
    assert!(executor.reservation.is_none() && executor.activation.is_none());
    assert_eq!(executor.cancel(6), (Some(40), None));
    let taken = executor.take();
    executor.restore(taken);
    executor.take();
    executor.complete(slot);
    assert!(executor.request.is_none() && executor.reservation == Some(slot));
    executor.begin(30, request);
    assert_eq!(executor.cancel(6), (None, Some(request)));
    assert!(executor.request.is_none() && executor.reservation == Some(slot));
}

#[test]
fn retirements_end_with_their_answers() {
    let published = Launch { object: 4, work: Some(Reservation { slot: 1 }), reply: Some(9) };
    let published = published.publish();
    assert_eq!((published.announce, published.reply), (4, Some(9)));
    let completion = RetirementCompletion { reply: Some(9), owner: Some(30) };
    assert_eq!(completion.deliver(false).reapable, None);
    assert_eq!(completion.deliver(true).reapable, Some(30));
    assert_eq!(completion.deliver(true).complete, Some(9));
    assert_eq!(step_end(4, 0, StepState::Complete), (RetireAction::Finish, 1));
    assert_eq!(step_end(4, 3, StepState::Runnable), (RetireAction::Requeue, 3));
    assert_eq!(step_end(4, 0, StepState::Blocked(1)), (RetireAction::Park, 1));
}

#[test]
fn one_reset_at_a_time() {
    let mut sequence = IdSequence::new();
    let mut reset = SystemReset::new(&mut sequence);
    let found = Ok(entry_of(ObjectKind::SystemReset, HandleRole::SystemResetControl));
    assert_eq!(
        system_reset::request(&mut reset, None, Some(ResetReason::Requested), found),
        Err(SystemCallError::IllegalArgument)
    );
    let asked = system_reset::request(
        &mut reset,
        Some(ResetAction::Reboot),
        Some(ResetReason::SystemFailure),
        found,
    );
    assert_eq!(asked, Ok((PlatformAction::ColdReboot, PlatformReason::SystemFailure)));
    assert_eq!(reset.begin(), Err(SystemCallError::ObjectBusy));
    let error = system_reset::answered(&mut reset, PlatformAnswer::NotSupported);
    assert_eq!(error, SystemCallError::NotSupported);
    assert_eq!(reset.begin(), Ok(()));
    assert_eq!(
        system_reset::map_to_sbi(ResetAction::Shutdown, ResetReason::Requested),
        (PlatformAction::Shutdown, PlatformReason::Unspecified)
    );
}

#[test]
fn rearmed_observer_is_told_of_the_present() {
    let mut state = ObjectWaitState::new(signals::NONE);
    let lasting = Subscription { persistent: true, ..watch(signals::READABLE) };
    let slot = Reservation { slot: 1 };
    let id = match state.subscribe(lasting, Some(slot), true).result {
        SubscribeResult::Registered(id) => id,
        _ => panic!("nothing is raised"),
    };
    let quiet = state.rearm_observer(id, Ok(4)).unwrap();
    assert_eq!((quiet.generation, quiet.sink, quiet.offer), (4, 70, None));
    state.update(signals::NONE, signals::READABLE);
    let raised = state.rearm_observer(id, Ok(5)).unwrap();
    assert_eq!(raised.offer, Some(WaitOutcome::Observed(signals::READABLE)));
    assert_eq!(
        state.rearm_observer(id, Err(SystemCallError::ReachLimit)).err(),
        Some(SystemCallError::ReachLimit)
    );
    assert_eq!(
        state.rearm_observer(id + 1, Ok(6)).err(),
        Some(SystemCallError::ObjectNotFound)
    );
}
