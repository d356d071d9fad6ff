//! Mailboxes of objects and who may send to them.
use kernel_task::error::SystemCallError;
use kernel_task::handle::{ProcessHandleEntry, TableError};
use kernel_task::ids::IdSequence;
use kernel_task::mailbox;
use kernel_task::mailbox::{
    Mailbox, MailboxSender, Message, MessageHeader, MessageLimits, ReceiveEnd, SendHeader,
};
use kernel_task::object::{HandleRole, ObjectKind};
use kernel_task::rights;
use kernel_task::signals;

const LIMITS: MessageLimits = MessageLimits { payload_max: 64, handle_max: 2 };

fn entry_of(kind: ObjectKind, role: HandleRole, rights: u64) -> ProcessHandleEntry {
    ProcessHandleEntry { object: 40, kind, role, rights }
}

fn owner() -> Result<ProcessHandleEntry, TableError> {
    Ok(entry_of(ObjectKind::Mailbox, HandleRole::MailboxOwner, rights::READ))
}

fn delivery() -> ProcessHandleEntry {
    entry_of(ObjectKind::Delivery, HandleRole::Delivery, rights::TRANSIT)
}

fn header(kind: u64) -> MessageHeader {
    MessageHeader {
        sender_pid: 5,
        sender_badge: 0xa1,
        kind,
        payload_len: 0,
        handle_count: 0,
        sender_context_id: 9,
    }
}

fn put(queue: &mut Mailbox, kind: u64) -> Result<(), SystemCallError> {
    queue.enqueue_with(true, Ok(vec![]), Ok(()), header(kind), vec![1, 2], delivery())
}

fn receive(queue: &mut Mailbox, tokens: &mut IdSequence) -> Result<(u64, Message), SystemCallError> {
    mailbox::receive(queue, 8, 1, LIMITS, Ok(()), owner(), tokens, true, Ok(()))
}

#[test]
fn mailbox_says_whether_it_has_messages_and_room() {
    let mut queue = Mailbox::new(2);
    assert_eq!(queue.signals(), signals::WRITABLE);
    assert_eq!(queue.peek(), Err(SystemCallError::ObjectNotAvailable));
    assert_eq!(put(&mut queue, 11), Ok(()));
    assert_eq!(queue.signals(), signals::WRITABLE | signals::READABLE);
    assert_eq!(put(&mut queue, 22), Ok(()));
    assert_eq!(queue.signals(), signals::READABLE);
    assert_eq!(put(&mut queue, 33), Err(SystemCallError::MailboxFull));
    assert_eq!(queue.peek().unwrap().kind, 11);
    assert_eq!(queue.discard().unwrap().header.kind, 11);
    assert_eq!(queue.peek().unwrap().kind, 22);
    let left = queue.close_owner();
    assert_eq!(left.len(), 1);
    assert_eq!(queue.signals(), signals::CLOSED);
    assert_eq!(put(&mut queue, 44), Err(SystemCallError::ObjectClosed));
    assert_eq!(queue.peek(), Err(SystemCallError::ObjectClosed));
}

#[test]
fn refused_messages_are_not_queued() {
    let mut queue = Mailbox::new(2);
    assert_eq!(
        queue.enqueue_with(false, Ok(vec![]), Ok(()), header(1), vec![], delivery()),
        Err(SystemCallError::OutOfMemory)
    );
    assert_eq!(
        queue.enqueue_with(
            true,
            Err(TableError::RightsDenied),
            Ok(()),
            header(1),
            vec![],
            delivery()
        ),
        Err(SystemCallError::RightsDenied)
    );
    assert_eq!(queue.signals(), signals::WRITABLE);
}

#[test]
fn failed_receive_puts_the_message_back() {
    let mut queue = Mailbox::new(2);
    let mut tokens = IdSequence::new();
    put(&mut queue, 11).unwrap();
    put(&mut queue, 22).unwrap();
    let (token, message) = receive(&mut queue, &mut tokens).unwrap();
    assert_eq!(message.header.kind, 11);
    // The message keeps its room while it is aside, and nothing can be read.
    assert_eq!(queue.signals(), signals::NONE);
    assert_eq!(put(&mut queue, 33), Err(SystemCallError::MailboxFull));
    assert!(matches!(
        receive(&mut queue, &mut tokens),
        Err(SystemCallError::ObjectBusy)
    ));
    let end = mailbox::finish_receive(
        &mut queue,
        token,
        message,
        Err(SystemCallError::MemoryNotAccessible),
    );
    assert!(matches!(
        end,
        ReceiveEnd::CalledOff { error: SystemCallError::MemoryNotAccessible, close: None }
    ));
    assert_eq!(queue.peek().unwrap().kind, 11);
    let (token, message) = receive(&mut queue, &mut tokens).unwrap();
    let end = mailbox::finish_receive(&mut queue, token, message, Ok(()));
    match end {
        ReceiveEnd::Delivered(entries) => assert_eq!(entries, vec![delivery()]),
        _ => panic!("copied"),
    }
    assert_eq!(queue.peek().unwrap().kind, 22);
    assert_eq!(queue.signals(), signals::WRITABLE | signals::READABLE);
}

#[test]
fn message_of_a_closed_mailbox_is_handed_back() {
    let mut queue = Mailbox::new(2);
    let mut tokens = IdSequence::new();
    put(&mut queue, 11).unwrap();
    let (token, message) = receive(&mut queue, &mut tokens).unwrap();
    assert!(queue.close_owner().is_empty());
    let end = mailbox::finish_receive(
        &mut queue,
        token,
        message,
        Err(SystemCallError::MemoryNotAccessible),
    );
    match end {
        ReceiveEnd::CalledOff { close, .. } => assert_eq!(close, Some(vec![delivery()])),
        _ => panic!("not copied"),
    }
}

#[test]
fn receives_are_refused_with_their_reason() {
    let mut queue = Mailbox::new(2);
    let mut tokens = IdSequence::new();
    let q = &mut queue;
    let t = &mut tokens;
    let long = mailbox::receive(q, 65, 1, LIMITS, Ok(()), owner(), t, true, Ok(()));
    assert_eq!(long.err(), Some(SystemCallError::IllegalArgument));
    let many = mailbox::receive(q, 8, 3, LIMITS, Ok(()), owner(), t, true, Ok(()));
    assert_eq!(many.err(), Some(SystemCallError::IllegalArgument));
    let fault = Err(SystemCallError::MemoryNotAccessible);
    let fault = mailbox::receive(q, 8, 1, LIMITS, fault, owner(), t, true, Ok(()));
    assert_eq!(fault.err(), Some(SystemCallError::MemoryNotAccessible));
    let other = Ok(entry_of(ObjectKind::Job, HandleRole::JobControl, rights::READ));
    let other = mailbox::receive(q, 8, 1, LIMITS, Ok(()), other, t, true, Ok(()));
    assert_eq!(other.err(), Some(SystemCallError::WrongObjectType));
    let empty = mailbox::receive(q, 8, 1, LIMITS, Ok(()), owner(), t, true, Ok(()));
    assert_eq!(empty.err(), Some(SystemCallError::ObjectNotAvailable));
    put(q, 1).unwrap();
    let small = mailbox::receive(q, 1, 1, LIMITS, Ok(()), owner(), t, true, Ok(()));
    assert_eq!(small.err(), Some(SystemCallError::BufferTooSmall));
    let memory = mailbox::receive(q, 8, 1, LIMITS, Ok(()), owner(), t, false, Ok(()));
    assert_eq!(memory.err(), Some(SystemCallError::OutOfMemory));
    let slots = Err(TableError::ReachLimit);
    let slots = mailbox::receive(q, 8, 1, LIMITS, Ok(()), owner(), t, true, slots);
    assert_eq!(slots.err(), Some(SystemCallError::ReachLimit));
}

#[test]
fn senders_are_told_apart() {
    let mut sequence = IdSequence::new();
    let (a, _) = MailboxSender::create(40, 0xa1, &mut sequence, Ok(()), true, Ok(()), true).unwrap();
    let (b, _) = MailboxSender::create(40, 0xb2, &mut sequence, Ok(()), true, Ok(()), true).unwrap();
    assert_eq!((a.badge(), b.badge()), (0xa1, 0xb2));
    assert_eq!((a.queue(), b.queue()), (40, 40));
    let sent = SendHeader { kind: 11, payload_len: 2, handle_count: 0, reserved_clear: true };
    let from_a = a.message_header(5, sent);
    let from_b = b.message_header(5, sent);
    assert_eq!((from_a.sender_badge, from_a.kind, from_a.sender_pid), (0xa1, 11, 5));
    assert_ne!(from_a.sender_context_id, from_b.sender_context_id);
}

#[test]
fn a_sender_that_is_used_once_says_so() {
    let mut sequence = IdSequence::new();
    let (a, _) = MailboxSender::create(40, 0xa1, &mut sequence, Ok(()), true, Ok(()), true).unwrap();
    let mut queue = Mailbox::new(2);
    let sent = SendHeader { kind: 11, payload_len: 1, handle_count: 0, reserved_clear: true };
    let mut send = |role| {
        mailbox::send(
            &mut queue,
            Ok(entry_of(ObjectKind::MailboxSender, role, rights::WRITE)),
            3,
            &vec![],
            &a,
            5,
            sent,
            vec![7],
            Ok(90),
            true,
            Ok(vec![]),
            Ok(()),
        )
    };
    assert_eq!(send(HandleRole::MailboxSender), Ok(false));
    assert_eq!(send(HandleRole::MailboxSenderOnce), Ok(true));
    assert_eq!(send(HandleRole::MailboxSenderOnce), Err(SystemCallError::MailboxFull));
    assert_eq!(send(HandleRole::JobControl), Err(SystemCallError::WrongObjectType));
    let message = queue.discard().unwrap();
    assert_eq!(message.payload, vec![7]);
    assert_eq!(message.delivery.object, 90);
}

#[test]
fn send_sizes_and_headers_are_checked() {
    assert_eq!(mailbox::check_send_size(64, 2, LIMITS), Ok(()));
    assert_eq!(
        mailbox::check_send_size(65, 0, LIMITS),
        Err(SystemCallError::IllegalArgument)
    );
    let good = SendHeader { kind: 1, payload_len: 3, handle_count: 1, reserved_clear: true };
    assert_eq!(mailbox::check_send_header(good, 3, 1), Ok(()));
    assert_eq!(
        mailbox::check_send_header(good, 4, 1),
        Err(SystemCallError::IllegalArgument)
    );
    let dirty = SendHeader { reserved_clear: false, ..good };
    assert_eq!(
        mailbox::check_send_header(dirty, 3, 1),
        Err(SystemCallError::IllegalArgument)
    );
    let mut raw = vec![0u8; 32];
    raw[0] = 5;
    raw[8] = 2;
    raw[16] = 6;
    raw[25] = 1;
    assert_eq!(mailbox::decode_moves(&raw), vec![(5, 2), (6, 0x100)]);
}

#[test]
fn minting_gives_a_sender_and_its_observer() {
    let found = Ok(entry_of(ObjectKind::Mailbox, HandleRole::MailboxOwner, rights::MANAGE));
    let made = mailbox::mint_sender(found, Ok((50, 51)), true, rights::WRITE | rights::WAIT);
    let (sender, observer) = made.unwrap();
    assert_eq!((sender.object, sender.role), (50, HandleRole::MailboxSender));
    assert_eq!((observer.object, observer.role), (51, HandleRole::LifetimeObserver));
    let denied = mailbox::mint_sender(found, Ok((50, 51)), true, rights::EXECUTE);
    assert_eq!(denied.err(), Some(SystemCallError::RightsDenied));
    let full = entry_of(
        ObjectKind::MailboxSender,
        HandleRole::MailboxSender,
        rights::MAILBOX_SENDER,
    );
    let once = mailbox::make_send_once(Ok(full), true, rights::WRITE).unwrap();
    assert_eq!((once.object, once.role), (40, HandleRole::MailboxSenderOnce));
    let more = mailbox::make_send_once(Ok(full), true, rights::DUPLICATE);
    assert_eq!(more.err(), Some(SystemCallError::RightsDenied));
}

#[test]
fn receiver_learns_how_many_handles_come() {
    let mut queue = Mailbox::new(2);
    assert_eq!(queue.receive_slots(8, 1), Err(SystemCallError::ObjectNotAvailable));
    assert_eq!(put(&mut queue, 11), Ok(()));
    assert_eq!(queue.receive_slots(1, 0), Err(SystemCallError::BufferTooSmall));
    assert_eq!(queue.receive_slots(2, 0), Ok(1));
    queue.close_owner();
    assert_eq!(queue.receive_slots(8, 1), Err(SystemCallError::ObjectClosed));
}

#[test]
fn owner_reaches_the_mailbox_through_a_handle() {
    let all = rights::READ | rights::MANAGE;
    assert_eq!(
        mailbox::create(Err(SystemCallError::ReachLimit), 2, all).err(),
        Some(SystemCallError::ReachLimit)
    );
    assert_eq!(
        mailbox::create(Ok(40), 2, rights::TRANSIT).err(),
        Some(SystemCallError::RightsDenied)
    );
    let (mut queue, entry) = mailbox::create(Ok(40), 2, rights::READ).unwrap();
    assert_eq!(entry, owner().unwrap());
    assert_eq!(queue.signals(), signals::WRITABLE);
    let stranger = Ok(delivery());
    let none = Err(SystemCallError::ObjectNotAvailable);
    assert_eq!(mailbox::peek(&queue, Ok(entry), Ok(())), none);
    assert_eq!(put(&mut queue, 11), Ok(()));
    assert_eq!(put(&mut queue, 22), Ok(()));
    assert_eq!(
        mailbox::peek(&queue, stranger, Ok(())),
        Err(SystemCallError::WrongObjectType)
    );
    let unwritten = Err(SystemCallError::MemoryNotAccessible);
    assert_eq!(
        mailbox::peek(&queue, Ok(entry), unwritten),
        Err(SystemCallError::MemoryNotAccessible)
    );
    assert_eq!(mailbox::peek(&queue, Ok(entry), Ok(())).unwrap().kind, 11);
    assert_eq!(
        mailbox::discard(&mut queue, Err(TableError::RightsDenied)),
        Err(SystemCallError::RightsDenied)
    );
    assert_eq!(mailbox::discard(&mut queue, Ok(entry)), Ok(vec![delivery()]));
    assert_eq!(queue.signals(), signals::WRITABLE | signals::READABLE);
    assert_eq!(mailbox::peek(&queue, Ok(entry), Ok(())).unwrap().kind, 22);
    assert_eq!(mailbox::discard(&mut queue, Ok(entry)), Ok(vec![delivery()]));
    assert_eq!(
        mailbox::discard(&mut queue, Ok(entry)),
        Err(SystemCallError::ObjectNotAvailable)
    );
}
