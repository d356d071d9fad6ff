//! Messages and signals between processes.
use kernel_task::error::SystemCallError;
use kernel_task::ipc::{
    write_reply, CallFrame, Exchange, Mailbox, Message, Port, RecvOutcome, Reply, SigTarget,
    SignalItem, SignalState, UserBuffer, WaitPlan, WaitTable, Wakeup, NONEMPTY,
};

fn message(kind: usize, payload: Vec<u8>) -> Message {
    Message { sender: 7, kind, payload }
}

fn exchange_of(pids: &[u64], capacity: usize) -> Exchange {
    let mut exchange = Exchange::new(capacity);
    for pid in pids {
        exchange.add_port(Port::new(*pid, capacity));
    }
    exchange
}

#[test]
fn replies_are_written_behind_the_call() {
    let mut frame = CallFrame { status: 9, value: 5, pc: 0x1000 };
    write_reply(&mut frame, Reply::Done(42), None);
    assert_eq!(frame, CallFrame { status: 0, value: 42, pc: 0x1004 });
    write_reply(&mut frame, Reply::Failed(SystemCallError::MailboxFull), Some(17));
    assert_eq!(frame, CallFrame { status: 17, value: 42, pc: 0x1008 });
    write_reply(&mut frame, Reply::Failed(SystemCallError::MailboxFull), None);
    assert_eq!(frame.status, 1);
}

#[test]
fn wait_completes_once() {
    let mut waits = WaitTable::new();
    let thread = waits.add_thread();
    let generation = waits.begin(thread);
    assert_eq!(generation, 1);
    assert!(waits.fulfill(thread, generation));
    assert!(!waits.fulfill(thread, generation));
}

#[test]
fn mailbox_is_bounded_and_keeps_order() {
    let mut waits = WaitTable::new();
    let mut mailbox = Mailbox::new(2);
    for kind in [1, 2] {
        let sent = mailbox.deliver(&mut waits, message(kind, vec![kind as u8]), &vec![]);
        assert_eq!(sent.result, Ok(()));
        assert!(sent.wakeups.is_empty());
    }
    let full = mailbox.deliver(&mut waits, message(3, vec![]), &vec![]);
    assert_eq!(full.result, Err(SystemCallError::MailboxFull));
    assert_eq!(mailbox.front().unwrap().kind, 1);
    assert_eq!(mailbox.peek(Ok(())), Ok(1));
    assert_eq!(
        mailbox.peek(Err(SystemCallError::MemoryNotAccessible)),
        Err(SystemCallError::MemoryNotAccessible)
    );
    assert_eq!(mailbox.take().unwrap().kind, 1);
    assert_eq!(mailbox.discard(), Ok(()));
    assert_eq!(mailbox.discard(), Err(SystemCallError::ObjectNotAvailable));
    assert_eq!(mailbox.peek(Ok(())), Err(SystemCallError::ObjectNotAvailable));
}

#[test]
fn receive_takes_the_first_message() {
    let mut waits = WaitTable::new();
    let mut mailbox = Mailbox::new(4);
    let empty = mailbox.receive(8, Ok(()));
    assert!(matches!(empty.outcome, RecvOutcome::Block));
    let none = mailbox.receive(0, Ok(()));
    assert!(matches!(
        none.outcome,
        RecvOutcome::Done(Err(SystemCallError::IllegalArgument))
    ));
    mailbox.deliver(&mut waits, message(1, vec![1, 2, 3]), &vec![]);
    mailbox.deliver(&mut waits, message(2, vec![4]), &vec![]);
    let small = mailbox.receive(2, Ok(()));
    assert!(matches!(
        small.outcome,
        RecvOutcome::Done(Err(SystemCallError::IllegalArgument))
    ));
    assert!(small.copied.is_none());
    let good = mailbox.receive(2, Ok(()));
    assert!(matches!(good.outcome, RecvOutcome::Done(Ok(1))));
    assert_eq!(good.copied.unwrap().payload, vec![4]);
    assert!(mailbox.front().is_none());
}

#[test]
fn waiting_receivers_are_served_in_order() {
    let mut waits = WaitTable::new();
    let a = waits.add_thread();
    let b = waits.add_thread();
    let c = waits.add_thread();
    let mut port = Port::new(7, 4);
    for (thread, len) in [(a, 1), (b, 8), (c, 8)] {
        let published = port.publish_recv(&mut waits, thread, 0x100 * (thread + 1), len, Ok(()));
        assert!(published.wakeup.is_none());
    }
    let sent = port.mailbox_mut().deliver(
        &mut waits,
        message(1, vec![1, 2, 3]),
        &vec![true, false, true],
    );
    assert_eq!(sent.result, Ok(()));
    assert_eq!(sent.taken, Some(UserBuffer { thread: c, address: 0x300 }));
    assert_eq!(
        sent.wakeups,
        vec![
            Wakeup { thread: a, reply: Reply::Failed(SystemCallError::IllegalArgument) },
            Wakeup { thread: b, reply: Reply::Failed(SystemCallError::MemoryNotAccessible) },
            Wakeup { thread: c, reply: Reply::Done(3) },
        ]
    );
    assert!(port.mailbox_mut().front().is_none());
}

#[test]
fn publishing_a_receive_sees_a_message_that_came_since() {
    let mut waits = WaitTable::new();
    let thread = waits.add_thread();
    let mut port = Port::new(7, 4);
    for payload in [vec![9, 9], vec![1, 2, 3], vec![5]] {
        port.mailbox_mut().deliver(&mut waits, message(1, payload), &vec![]);
    }
    let done = port.publish_recv(&mut waits, thread, 0, 4, Ok(()));
    assert_eq!(done.wakeup, Some(Wakeup { thread, reply: Reply::Done(2) }));
    let small = port.publish_recv(&mut waits, thread, 0, 2, Ok(()));
    assert_eq!(
        small.wakeup,
        Some(Wakeup { thread, reply: Reply::Failed(SystemCallError::IllegalArgument) })
    );
    let fault = port.publish_recv(
        &mut waits,
        thread,
        0,
        2,
        Err(SystemCallError::MemoryNotAccessible),
    );
    assert_eq!(
        fault.wakeup,
        Some(Wakeup { thread, reply: Reply::Failed(SystemCallError::MemoryNotAccessible) })
    );
}

#[test]
fn events_are_kept_or_handed_over() {
    let mut waits = WaitTable::new();
    let mut signals = SignalState::new();
    assert_eq!(signals.submit(&mut waits, 0b0110, true), None);
    assert_eq!(signals.raised(0b1111), 0b0110);
    signals.consume(0b0010);
    assert_eq!(signals.raised(0b1111), 0b0100);
}

#[test]
fn process_signals_are_consumed_by_waits() {
    let mut waits = WaitTable::new();
    let thread = waits.add_thread();
    let mut exchange = exchange_of(&[5], 2);
    assert_eq!(exchange.signal_send(&mut waits, 5, 0b11), Ok(None));
    let place = exchange.lookup(5).unwrap();
    let items = vec![SignalItem { kind: 1, interest: NONEMPTY }, SignalItem { kind: 0, interest: 0b01 }];
    let plan = exchange.port_mut(place).signal_wait(2, 8, Ok(items));
    assert!(matches!(plan, Ok(WaitPlan::Now { index: 1, bits: 0b01 })));
    let items = vec![SignalItem { kind: 0, interest: 0b01 }];
    let plan = exchange.port_mut(place).signal_wait(1, 8, Ok(items));
    let targets = match plan {
        Ok(WaitPlan::Park(targets)) => targets,
        _ => panic!("nothing is raised"),
    };
    assert!(matches!(targets[0], (SigTarget::Process, 0b01)));
    assert_eq!(exchange.port_mut(place).publish_signal_wait(&mut waits, thread, &targets), None);
    let woken = exchange.signal_send(&mut waits, 5, 0b101);
    assert_eq!(woken, Ok(Some(Wakeup { thread, reply: Reply::Done(0b001) })));
    let again = exchange.port_mut(place).signal_wait(
        1,
        8,
        Ok(vec![SignalItem { kind: 0, interest: 0b111 }]),
    );
    assert!(matches!(again, Ok(WaitPlan::Now { index: 0, bits: 0b110 })));
}

#[test]
fn waits_with_bad_items_are_refused() {
    let mut port = Port::new(5, 2);
    let refused = |r: Result<WaitPlan, SystemCallError>| match r {
        Err(error) => error,
        Ok(_) => panic!("refused"),
    };
    assert_eq!(
        refused(port.signal_wait(0, 8, Ok(vec![]))),
        SystemCallError::IllegalArgument
    );
    let one = SignalItem { kind: 0, interest: 1 };
    assert_eq!(
        refused(port.signal_wait(3, 2, Ok(vec![one, one, one]))),
        SystemCallError::IllegalArgument
    );
    assert_eq!(
        refused(port.signal_wait(1, 2, Err(SystemCallError::MemoryNotAccessible))),
        SystemCallError::MemoryNotAccessible
    );
    assert_eq!(
        refused(port.signal_wait(1, 2, Ok(vec![SignalItem { kind: 0, interest: 0 }]))),
        SystemCallError::IllegalArgument
    );
    assert_eq!(
        refused(port.signal_wait(1, 2, Ok(vec![SignalItem { kind: 2, interest: 1 }]))),
        SystemCallError::NotSupported
    );
}

#[test]
fn mailbox_level_is_reported_and_not_consumed() {
    let mut waits = WaitTable::new();
    let thread = waits.add_thread();
    let mut exchange = exchange_of(&[5], 2);
    let place = exchange.lookup(5).unwrap();
    let targets = vec![(SigTarget::Process, 0b1000), (SigTarget::Mailbox, NONEMPTY)];
    let woken = exchange.port_mut(place).publish_signal_wait(&mut waits, thread, &targets);
    assert_eq!(woken, None);
    let sent = exchange.send(&mut waits, 7, Ok(vec![1, 2]), 2, 64, 5, 3, &vec![true]);
    assert_eq!(sent.result, Ok(2));
    assert_eq!(
        sent.wakeups,
        vec![Wakeup { thread, reply: Reply::Done((1 << 56) | NONEMPTY) }]
    );
    // The entry that waited for the process is dead: the event stays raised.
    assert_eq!(exchange.signal_send(&mut waits, 5, 0b1000), Ok(None));
    let item = SignalItem { kind: 1, interest: NONEMPTY };
    for _ in 0..2 {
        let plan = exchange.port_mut(place).signal_wait(1, 8, Ok(vec![item]));
        assert!(matches!(plan, Ok(WaitPlan::Now { index: 0, bits: NONEMPTY })));
    }
    assert_eq!(exchange.port_mut(place).mailbox_mut().discard(), Ok(()));
    let plan = exchange.port_mut(place).signal_wait(1, 8, Ok(vec![item]));
    assert!(matches!(plan, Ok(WaitPlan::Park(_))));
}

#[test]
fn publishing_a_wait_ends_it_when_a_level_was_raised_since() {
    let mut waits = WaitTable::new();
    let thread = waits.add_thread();
    let mut exchange = exchange_of(&[5], 2);
    let place = exchange.lookup(5).unwrap();
    exchange.send(&mut waits, 7, Ok(vec![]), 0, 64, 5, 3, &vec![]);
    let targets = vec![(SigTarget::Process, 0b10), (SigTarget::Mailbox, NONEMPTY)];
    let woken = exchange.port_mut(place).publish_signal_wait(&mut waits, thread, &targets);
    assert_eq!(woken, Some(Wakeup { thread, reply: Reply::Done((1 << 56) | NONEMPTY) }));
    // The entry for the process was made first and can complete nothing any more.
    assert_eq!(exchange.signal_send(&mut waits, 5, 0b10), Ok(None));
}

#[test]
fn sends_are_refused_with_their_reason() {
    let mut waits = WaitTable::new();
    let mut exchange = exchange_of(&[5], 1);
    let long = exchange.send(&mut waits, 7, Ok(vec![0; 65]), 65, 64, 5, 0, &vec![]);
    assert_eq!(long.result, Err(SystemCallError::IllegalArgument));
    let fault = exchange.send(
        &mut waits,
        7,
        Err(SystemCallError::MemoryNotAccessible),
        4,
        64,
        5,
        0,
        &vec![],
    );
    assert_eq!(fault.result, Err(SystemCallError::MemoryNotAccessible));
    let lost = exchange.send(&mut waits, 7, Ok(vec![1]), 1, 64, 6, 0, &vec![]);
    assert_eq!(lost.result, Err(SystemCallError::ObjectNotFound));
    // The kernel has a mailbox too, and it is bounded.
    let kernel = exchange.send(&mut waits, 7, Ok(vec![1]), 1, 64, 0, 0, &vec![]);
    assert_eq!(kernel.result, Ok(1));
    let full = exchange.send(&mut waits, 7, Ok(vec![1]), 1, 64, 0, 0, &vec![]);
    assert_eq!(full.result, Err(SystemCallError::MailboxFull));
    assert_eq!(
        exchange.signal_send(&mut waits, 5, 0),
        Err(SystemCallError::IllegalArgument)
    );
    assert_eq!(
        exchange.signal_send(&mut waits, 0, 1),
        Err(SystemCallError::ObjectNotFound)
    );
    assert_eq!(
        exchange.signal_send(&mut waits, 9, 1),
        Err(SystemCallError::ObjectNotFound)
    );
}
