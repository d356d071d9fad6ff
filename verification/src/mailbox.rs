//! Mailboxes: queues of messages that carry bytes and handles.
//!
//! A receive first takes the head of the queue aside; only when everything has been
//! copied to the receiver is it committed, else the message goes back to the head.
//! The levels that a mailbox shows are a function of its state.
use std::collections::VecDeque;

use vstd::prelude::*;

use crate::error::SystemCallError;
use crate::handle;
use crate::handle::{Handle, ProcessHandleEntry, TableError};
use crate::ids;
use crate::ids::IdSequence;
use crate::lifetime::LifetimeOwner;
use crate::notify_work::Reservation;
use crate::object;
use crate::object::{HandleRole, Koid, ObjectHeader, ObjectKind, ObjectWaitState, WaitView};
use crate::rights;
use crate::rights::Rights;
use crate::signals;
use crate::signals::ObjectSignals;

verus! {

/// What a message says of itself.
#[derive(Clone, Copy, Debug, PartialEq, Eq, Structural)]
pub struct MessageHeader {
    pub sender_pid: u64,
    pub sender_badge: u64,
    pub kind: u64,
    pub payload_len: u32,
    pub handle_count: u32,
    /// Identity of the authorization that the message was sent with.
    pub sender_context_id: Koid,
}

/// What a sender says of its message.
#[derive(Clone, Copy, Debug, PartialEq, Eq, Structural)]
pub struct SendHeader {
    pub kind: u64,
    pub payload_len: u32,
    pub handle_count: u32,
    /// The reserved words are all zero.
    pub reserved_clear: bool,
}

/// How much a message may carry.
#[derive(Clone, Copy, Debug, PartialEq, Eq, Structural)]
pub struct MessageLimits {
    pub payload_max: usize,
    pub handle_max: usize,
}

/// A message with the handles that travel in it, and the one that stands for the
/// duty to deal with it.
pub struct Message {
    pub header: MessageHeader,
    pub payload: Vec<u8>,
    pub handles: Vec<ProcessHandleEntry>,
    pub delivery: ProcessHandleEntry,
}

impl Message {
    /// The handles to close when the message is thrown away: those that travel in
    /// it, then its delivery.
    pub open spec fn transit(self) -> Seq<ProcessHandleEntry> {
        self.handles@.push(self.delivery)
    }

    /// Throws the message away; the handles to close, in order.
    pub fn close_transit_handles(self) -> (r: Vec<ProcessHandleEntry>)
        ensures
            r@ == self.transit(),
            r@.len() == self.handles@.len() + 1,
            forall|i: int| 0 <= i < self.handles@.len() ==> #[trigger] r@[i] == self.handles@[i],
            r@.last() == self.delivery,
    {
        let mut entries = self.handles;
        entries.push(self.delivery);
        entries
    }
}

/// A mailbox.
pub struct Mailbox {
    wait: ObjectWaitState,
    queue: VecDeque<Message>,
    receiving: Option<u64>,
    closed: bool,
    capacity: usize,
}

/// A mailbox, as a value.
#[verifier::ext_equal]
pub struct MailboxView {
    pub wait: WaitView,
    /// The messages, oldest first.
    pub queue: Seq<Message>,
    /// The transaction that has the head of the queue aside.
    pub receiving: Option<u64>,
    pub closed: bool,
    pub capacity: usize,
}

impl View for Mailbox {
    type V = MailboxView;

    closed spec fn view(&self) -> MailboxView {
        MailboxView {
            wait: self.wait@,
            queue: self.queue@,
            receiving: self.receiving,
            closed: self.closed,
            capacity: self.capacity,
        }
    }
}

impl MailboxView {
    /// An empty mailbox for `capacity` messages; it is writable.
    pub open spec fn fresh(capacity: usize) -> MailboxView {
        MailboxView {
            wait: WaitView::fresh(signals::WRITABLE),
            queue: Seq::empty(),
            receiving: None,
            closed: false,
            capacity,
        }
    }

    /// How many messages take up room: those in the queue and the one set aside.
    pub open spec fn occupied(self) -> nat {
        self.queue.len() + if self.receiving is Some {
            1nat
        } else {
            0nat
        }
    }

    /// The levels that the state calls for: readable if there is a message and none
    /// is set aside, writable if there is room.
    pub open spec fn level(self) -> ObjectSignals {
        let readable = self.receiving is None && self.queue.len() > 0;
        let writable = self.occupied() < self.capacity;
        if readable && writable {
            signals::READABLE | signals::WRITABLE
        } else if readable {
            signals::READABLE
        } else if writable {
            signals::WRITABLE
        } else {
            signals::NONE
        }
    }

    /// The state once its levels are published. A closed mailbox shows the terminal
    /// level alone.
    pub open spec fn published(self) -> MailboxView {
        MailboxView {
            wait: self.wait.updated(
                signals::READABLE | signals::WRITABLE,
                if self.closed {
                    signals::CLOSED
                } else {
                    self.level()
                },
            ),
            ..self
        }
    }

    /// The state with `message` behind all others.
    pub open spec fn appended(self, message: Message) -> MailboxView {
        (MailboxView { queue: self.queue.push(message), ..self }).published()
    }

    /// The state with the oldest message aside for the transaction `token`.
    pub open spec fn set_aside(self, token: u64) -> MailboxView {
        (MailboxView { receiving: Some(token), queue: self.queue.drop_first(), ..self }).published()
    }

    /// The state once the message that is aside was received.
    pub open spec fn received(self) -> MailboxView {
        (MailboxView { receiving: None, ..self }).published()
    }

    /// The state once the receive of `message` was called off: it is the oldest again, unless
    /// the mailbox was closed meanwhile.
    pub open spec fn called_off(self, message: Message) -> MailboxView {
        (MailboxView {
            receiving: None,
            queue: if self.closed {
                self.queue
            } else {
                seq![message] + self.queue
            },
            ..self
        }).published()
    }

    /// The state without its oldest message.
    pub open spec fn discarded(self) -> MailboxView {
        (MailboxView { queue: self.queue.drop_first(), ..self }).published()
    }

    /// The state once its owner is gone.
    pub open spec fn ended(self) -> MailboxView {
        (MailboxView { closed: true, queue: Seq::empty(), ..self }).published()
    }

    /// What every operation keeps: the levels shown are those that the state calls
    /// for, and the terminal one alone once the mailbox is closed. Only a spent counter
    /// of publications makes an open one show the terminal level.
    pub open spec fn wf(self) -> bool {
        &&& self.wait.wf()
        &&& self.capacity > 0
        &&& self.closed ==> self.wait.signals == signals::CLOSED && self.queue.len() == 0
        &&& !self.closed && self.wait.serial < u64::MAX ==> self.wait.signals == self.level()
        &&& self.wait.signals == signals::CLOSED || self.wait.signals == self.level()
        &&& self.occupied() <= self.capacity
    }

    /// Why a receiver cannot have the head of the queue.
    pub open spec fn head_refused(self) -> Option<SystemCallError> {
        if self.closed {
            Some(SystemCallError::ObjectClosed)
        } else if self.receiving is Some {
            Some(SystemCallError::ObjectBusy)
        } else if self.queue.len() == 0 {
            Some(SystemCallError::ObjectNotAvailable)
        } else {
            None
        }
    }
}

/// Publishing keeps the state well formed.
proof fn publish_keeps_wf(state: MailboxView, before: MailboxView)
    requires
        before.wf(),
        state.wait == before.wait,
        state.capacity == before.capacity,
        state.occupied() <= state.capacity,
        before.closed ==> state.closed,
        state.closed ==> state.queue.len() == 0,
    ensures
        state.published().wf(),
        state.published().wait.active() == state.wait.active(),
        !state.closed && state.wait.serial < u64::MAX ==> state.published().wait.signals
            == state.level(),
{
    let shown = state.wait.signals;
    let set = if state.closed {
        signals::CLOSED
    } else {
        state.level()
    };
    object::update_keeps_wf(state.wait, signals::READABLE | signals::WRITABLE, set);
    signals::closed_is_last();
    levels_replace(shown, set);
    if !signals::closed(shown) {
        object::publication_is_exact(state.wait, signals::READABLE | signals::WRITABLE, set);
    }
}

/// The two levels of a mailbox are replaced as a whole: what is shown next is what
/// is set, and none of them is the terminal one.
proof fn levels_replace(shown: ObjectSignals, set: ObjectSignals)
    ensures
        shown <= 3 ==> (shown & !(signals::READABLE | signals::WRITABLE)) | set == set,
        shown <= 3 ==> !signals::closed(shown),
        signals::READABLE | signals::WRITABLE == 3,
        set & !set == 0,
{
    assert(0x1u64 | 0x2 == 3 && (shown <= 3 ==> ((shown & !3u64) | set) == set && shown & 0x100 == 0)
        && set & !set == 0) by (bit_vector);
}

/// What a mailbox shows is a function of its state: the terminal level alone once
/// it is closed, and before that readable if a message can be had, writable if there
/// is room, and nothing else. Only a spent counter of publications makes an open
/// mailbox show the terminal level.
pub proof fn levels_follow_the_state(state: MailboxView)
    requires
        state.wf(),
    ensures
        state.closed ==> state.wait.signals == signals::CLOSED,
        !state.closed && state.wait.serial < u64::MAX ==> state.wait.signals == state.level(),
        !state.closed ==> state.wait.signals == signals::CLOSED || state.wait.signals
            == state.level(),
        !signals::closed(state.wait.signals) ==> !state.closed && state.wait.signals
            == state.level(),
{
    signals::closed_is_last();
}

/// A well-formed mailbox has published: doing it again changes nothing.
pub proof fn publishing_again_changes_nothing(state: MailboxView)
    requires
        state.wf(),
    ensures
        state.published() == state,
{
    let shown = state.wait.signals;
    let set = if state.closed {
        signals::CLOSED
    } else {
        state.level()
    };
    signals::closed_is_last();
    levels_replace(shown, set);
}

/// Publishing twice is publishing once, whatever changed before it, and shows what the
/// changed state calls for: the terminal level alone if the change closed the mailbox, and
/// else the levels of the queue, if the counter of publications was not spent.
pub proof fn second_publication_is_silent(state: MailboxView, before: MailboxView)
    requires
        before.wf(),
        state.wait == before.wait,
        state.capacity == before.capacity,
        state.occupied() <= state.capacity,
        before.closed ==> state.closed,
        state.closed ==> state.queue.len() == 0,
    ensures
        state.published().published() == state.published(),
        state.closed ==> state.published().wait.signals == signals::CLOSED,
        !state.closed && state.wait.serial < u64::MAX ==> state.published().wait.signals
            == state.level(),
{
    publish_keeps_wf(state, before);
    publishing_again_changes_nothing(state.published());
}

impl Mailbox {
    /// What every operation keeps.
    pub closed spec fn wf(&self) -> bool {
        self@.wf() && self.wait.wf()
    }

    pub proof fn wf_view(&self)
        requires
            self.wf(),
        ensures
            self@.wf(),
    {
    }

    /// An empty mailbox for `capacity` messages; it is writable.
    pub fn new(capacity: usize) -> (r: Mailbox)
        requires
            capacity > 0,
        ensures
            r.wf(),
            r@ == MailboxView::fresh(capacity),
    {
        let mailbox = Mailbox {
            wait: ObjectWaitState::new(signals::WRITABLE),
            queue: VecDeque::new(),
            receiving: None,
            closed: false,
            capacity,
        };
        proof {
            mailbox.wait.wf_view();
        }
        mailbox
    }

    /// Publishes the levels that the state calls for.
    fn publish(&mut self, Ghost(before): Ghost<MailboxView>)
        requires
            before.wf(),
            old(self).wait.wf(),
            old(self)@.wait == before.wait,
            old(self)@.capacity == before.capacity,
            old(self)@.occupied() <= old(self)@.capacity,
            before.closed ==> old(self)@.closed,
            old(self)@.closed ==> old(self)@.queue.len() == 0,
        ensures
            final(self).wf(),
            final(self)@ == old(self)@.published(),
    {
        proof {
            publish_keeps_wf(self@, before);
        }
        if self.closed {
            self.wait.update(signals::READABLE | signals::WRITABLE, signals::CLOSED);
            return ;
        }
        let occupied: usize = self.queue.len() + if self.receiving.is_some() {
            1
        } else {
            0
        };
        let readable: bool = self.receiving.is_none() && self.queue.len() > 0;
        let writable: bool = occupied < self.capacity;
        let level: ObjectSignals = if readable && writable {
            signals::READABLE | signals::WRITABLE
        } else if readable {
            signals::READABLE
        } else if writable {
            signals::WRITABLE
        } else {
            signals::NONE
        };
        self.wait.update(signals::READABLE | signals::WRITABLE, level);
    }

    /// The levels shown.
    pub fn signals(&self) -> (r: ObjectSignals)
        ensures
            r == self@.wait.signals,
    {
        self.wait.signals()
    }

    /// Appends a message. `room` says whether the queue can grow, `moved` is what
    /// taking the handles out of the sender's table gave, and `in_time` whether the
    /// message is not overdue. A message is appended only if all of it succeeds.
    pub fn enqueue_with(
        &mut self,
        room: bool,
        moved: Result<Vec<ProcessHandleEntry>, TableError>,
        in_time: Result<(), SystemCallError>,
        header: MessageHeader,
        payload: Vec<u8>,
        delivery: ProcessHandleEntry,
    ) -> (r: Result<(), SystemCallError>)
        requires
            old(self).wf(),
        ensures
            final(self).wf(),
            r == if old(self)@.closed {
                Err::<(), _>(SystemCallError::ObjectClosed)
            } else if old(self)@.occupied() >= old(self)@.capacity {
                Err(SystemCallError::MailboxFull)
            } else if !room {
                Err(SystemCallError::OutOfMemory)
            } else if moved is Err {
                Err(handle::reported(moved->Err_0))
            } else if in_time is Err {
                Err(in_time->Err_0)
            } else {
                Ok(())
            },
            r is Err ==> final(self)@ == old(self)@,
            r is Ok ==> {
                let queue = final(self)@.queue;
                &&& queue.len() == old(self)@.queue.len() + 1
                &&& queue.drop_last() == old(self)@.queue
                &&& queue.last().header == header && queue.last().payload == payload
                &&& Ok::<_, TableError>(queue.last().handles) == moved
                &&& queue.last().delivery == delivery
                &&& final(self)@.receiving == old(self)@.receiving && !final(self)@.closed
            },
            r is Ok ==> final(self)@ == old(self)@.appended(
                Message { header, payload, handles: moved->Ok_0, delivery },
            ),
    {
        let ghost before = self@;
        if self.closed {
            return Err(SystemCallError::ObjectClosed);
        }
        let occupied: usize = self.occupied();
        if occupied >= self.capacity {
            return Err(SystemCallError::MailboxFull);
        }
        if !room {
            return Err(SystemCallError::OutOfMemory);
        }
        let handles = match moved {
            Err(error) => {
                return Err(handle::map_error(error));
            },
            Ok(handles) => handles,
        };
        match in_time {
            Err(error) => {
                return Err(error);
            },
            Ok(_) => {},
        }
        self.queue.push_back(Message { header, payload, handles, delivery });
        self.publish(Ghost(before));
        Ok(())
    }

    /// How many messages take up room.
    fn occupied(&self) -> (r: usize)
        requires
            self.wf(),
        ensures
            r == self@.occupied(),
    {
        self.queue.len() + if self.receiving.is_some() {
            1
        } else {
            0
        }
    }

    /// Whether a receiver can have the head of the queue.
    fn head(&self) -> (r: Result<(), SystemCallError>)
        ensures
            r == match self@.head_refused() {
                Some(error) => Err::<(), _>(error),
                None => Ok(()),
            },
    {
        if self.closed {
            return Err(SystemCallError::ObjectClosed);
        }
        if self.receiving.is_some() {
            return Err(SystemCallError::ObjectBusy);
        }
        if self.queue.len() == 0 {
            return Err(SystemCallError::ObjectNotAvailable);
        }
        Ok(())
    }

    /// What the oldest message says of itself.
    pub fn peek(&self) -> (r: Result<MessageHeader, SystemCallError>)
        ensures
            r == match self@.head_refused() {
                Some(error) => Err::<MessageHeader, _>(error),
                None => Ok(self@.queue[0].header),
            },
    {
        match self.head() {
            Err(error) => Err(error),
            Ok(_) => Ok(self.queue[0].header),
        }
    }

    /// How many table slots a receive with these buffers needs: one for every handle
    /// of the oldest message and one for its delivery.
    pub fn receive_slots(&self, payload_capacity: usize, handle_capacity: usize) -> (r: Result<
        usize,
        SystemCallError,
    >)
        requires
            self@.head_refused() is None ==> self@.queue[0].handles.len() < usize::MAX,
        ensures
            r == if self@.head_refused() is Some {
                Err::<usize, _>(self@.head_refused()->0)
            } else if payload_capacity < self@.queue[0].payload.len() || handle_capacity
                < self@.queue[0].handles.len() {
                Err(SystemCallError::BufferTooSmall)
            } else {
                Ok((self@.queue[0].handles.len() + 1) as usize)
            },
    {
        match self.head() {
            Err(error) => {
                return Err(error);
            },
            Ok(_) => {},
        }
        let front = &self.queue[0];
        if payload_capacity < front.payload.len() || handle_capacity < front.handles.len() {
            return Err(SystemCallError::BufferTooSmall);
        }
        Ok(front.handles.len() + 1)
    }

    /// Takes the oldest message aside for the transaction `token`. `room` says whether
    /// its list of handles can grow by one, `reserved` what reserving the table slots
    /// gave. While it is aside the mailbox is not readable, and it still takes up its
    /// room.
    pub fn begin_receive(
        &mut self,
        token: u64,
        payload_capacity: usize,
        handle_capacity: usize,
        room: bool,
        reserved: Result<(), TableError>,
    ) -> (r: Result<Message, SystemCallError>)
        requires
            old(self).wf(),
        ensures
            final(self).wf(),
            ({
                let front = old(self)@.queue[0];
                let refused = |error: SystemCallError| Err::<Message, _>(error);
                if old(self)@.head_refused() is Some {
                    r == refused(old(self)@.head_refused()->0)
                } else if payload_capacity < front.payload.len() || handle_capacity
                    < front.handles.len() {
                    r == refused(SystemCallError::BufferTooSmall)
                } else if !room {
                    r == refused(SystemCallError::OutOfMemory)
                } else if reserved is Err {
                    r == refused(handle::reported(reserved->Err_0))
                } else {
                    r == Ok::<_, SystemCallError>(front)
                }
            }),
            r is Err ==> final(self)@ == old(self)@,
            r is Ok ==> final(self)@ == old(self)@.set_aside(token),
    {
        let ghost before = self@;
        match self.head() {
            Err(error) => {
                return Err(error);
            },
            Ok(_) => {},
        }
        let front = &self.queue[0];
        if payload_capacity < front.payload.len() || handle_capacity < front.handles.len() {
            return Err(SystemCallError::BufferTooSmall);
        }
        if !room {
            return Err(SystemCallError::OutOfMemory);
        }
        match reserved {
            Err(error) => {
                return Err(handle::map_error(error));
            },
            Ok(_) => {},
        }
        self.receiving = Some(token);
        let message = self.queue.pop_front().unwrap();
        assert(self@.queue =~= before.queue.drop_first());
        self.publish(Ghost(before));
        Ok(message)
    }

    /// Ends the receive `token`: its message is gone for good.
    pub fn commit_receive(&mut self, token: u64)
        requires
            old(self).wf(),
            old(self)@.receiving == Some(token),
        ensures
            final(self).wf(),
            final(self)@ == old(self)@.received(),
    {
        let ghost before = self@;
        self.receiving = None;
        self.publish(Ghost(before));
    }

    /// Calls the receive `token` off: its message goes back to the head of the queue,
    /// unless the mailbox was closed meanwhile; then the message is handed back.
    pub fn rollback_receive(&mut self, token: u64, message: Message) -> (r: Option<Message>)
        requires
            old(self).wf(),
            old(self)@.receiving == Some(token),
        ensures
            final(self).wf(),
            r == if old(self)@.closed {
                Some(message)
            } else {
                None
            },
            final(self)@ == old(self)@.called_off(message),
    {
        let ghost before = self@;
        self.receiving = None;
        if self.closed {
            self.publish(Ghost(before));
            return Some(message);
        }
        self.queue.push_front(message);
        assert(self@.queue =~= seq![message] + before.queue);
        self.publish(Ghost(before));
        None
    }

    /// Throws the oldest message away.
    pub fn discard(&mut self) -> (r: Result<Message, SystemCallError>)
        requires
            old(self).wf(),
        ensures
            final(self).wf(),
            r == match old(self)@.head_refused() {
                Some(error) => Err::<Message, _>(error),
                None => Ok(old(self)@.queue[0]),
            },
            r is Err ==> final(self)@ == old(self)@,
            r is Ok ==> final(self)@ == old(self)@.discarded(),
    {
        let ghost before = self@;
        match self.head() {
            Err(error) => {
                return Err(error);
            },
            Ok(_) => {},
        }
        let message = self.queue.pop_front().unwrap();
        assert(self@.queue =~= before.queue.drop_first());
        self.publish(Ghost(before));
        Ok(message)
    }

    /// Closes the mailbox when its owner goes; the messages to throw away. Closing
    /// again changes nothing. A message that is set aside is not touched.
    pub fn close_owner(&mut self) -> (r: VecDeque<Message>)
        requires
            old(self).wf(),
        ensures
            final(self).wf(),
            old(self)@.closed ==> final(self)@ == old(self)@ && r@.len() == 0,
            !old(self)@.closed ==> r@ == old(self)@.queue && final(self)@ == old(self)@.ended(),
    {
        let ghost before = self@;
        if self.closed {
            return VecDeque::new();
        }
        self.closed = true;
        let mut messages: VecDeque<Message> = VecDeque::new();
        messages.append(&mut self.queue);
        assert(messages@ =~= before.queue);
        assert(self@.queue =~= Seq::<Message>::empty());
        self.publish(Ghost(before));
        messages
    }

    /// Its observers. Whatever is done with them, the mailbox stays in order as long
    /// as its levels are left alone.
    pub fn observers(&mut self) -> (r: &mut ObjectWaitState)
        requires
            old(self).wf(),
        ensures
            r.wf(),
            r@ == old(self)@.wait,
            final(self)@ == (MailboxView { wait: final(r)@, ..old(self)@ }),
            final(r).wf() && final(r)@.wf() && final(r)@.same_levels(old(self)@.wait)
                ==> final(self).wf(),
    {
        &mut self.wait
    }

    /// Queues the mailbox if its observers have something to learn.
    pub fn finish_waiters(&mut self) -> (r: Option<(Reservation, Koid)>)
        requires
            old(self).wf(),
        ensures
            final(self).wf(),
            r == old(self)@.wait.news(),
            final(self)@ == (MailboxView { wait: old(self)@.wait.queued(), ..old(self)@ }),
    {
        let pending = self.wait.take_notification();
        proof {
            self.wait.wf_view();
        }
        pending
    }
}

/// A receive that is called off leaves an open mailbox as it was: the same messages
/// in the same order, and the same levels.
pub proof fn rollback_restores(state: MailboxView, token: u64)
    requires
        state.wf(),
        state.head_refused() is None,
    ensures
        ({
            let aside = state.set_aside(token);
            let back = aside.called_off(state.queue[0]);
            &&& back.queue == state.queue
            &&& back.receiving == state.receiving
            &&& back.closed == state.closed
            &&& back.wf()
            &&& aside.receiving is Some
        }),
{
    let taken = MailboxView { receiving: Some(token), queue: state.queue.drop_first(), ..state };
    publish_keeps_wf(taken, state);
    let aside = taken.published();
    let returned = MailboxView {
        receiving: None,
        queue: seq![state.queue[0]] + aside.queue,
        ..aside
    };
    publish_keeps_wf(returned, aside);
    assert(returned.queue =~= state.queue);
}

/// A message that is set aside still takes up its room: a full mailbox stays full,
/// and is not readable meanwhile.
pub proof fn setting_aside_frees_nothing(state: MailboxView, token: u64)
    requires
        state.wf(),
        state.head_refused() is None,
    ensures
        ({
            let aside = state.set_aside(token);
            &&& aside.occupied() == state.occupied()
            &&& aside.level() == signals::WRITABLE || aside.level() == signals::NONE
            &&& aside.head_refused() == Some(SystemCallError::ObjectBusy)
        }),
{
}

/// Messages come out in the order in which they went in: sending to a mailbox that
/// holds messages changes neither the next message nor those after it.
pub proof fn first_in_first_out(queue: Seq<Message>, message: Message)
    requires
        queue.len() > 0,
    ensures
        queue.push(message)[0] == queue[0],
        queue.push(message).drop_first() == queue.drop_first().push(message),
{
    assert(queue.push(message).drop_first() =~= queue.drop_first().push(message));
}

/// The number of bytes of one move: a handle, then its rights.
pub const MOVE_BYTES: usize = 16;

/// The word stored at position `i`, lowest byte first.
pub open spec fn word_at(bytes: Seq<u8>, i: int) -> int {
    bytes[i] + 0x100 * bytes[i + 1] + 0x1_0000 * bytes[i + 2] + 0x100_0000 * bytes[i + 3]
        + 0x1_0000_0000 * bytes[i + 4] + 0x100_0000_0000 * bytes[i + 5] + 0x1_0000_0000_0000
        * bytes[i + 6] + 0x100_0000_0000_0000 * bytes[i + 7]
}

/// The word stored at position `i`, lowest byte first.
fn read_word(bytes: &Vec<u8>, i: usize) -> (r: u64)
    requires
        i + 8 <= bytes.len(),
    ensures
        r == word_at(bytes@, i as int),
{
    let low: u64 = bytes[i] as u64 + 0x100 * (bytes[i + 1] as u64) + 0x1_0000 * (bytes[i
        + 2] as u64) + 0x100_0000 * (bytes[i + 3] as u64);
    let high: u64 = bytes[i + 4] as u64 + 0x100 * (bytes[i + 5] as u64) + 0x1_0000 * (bytes[i
        + 6] as u64) + 0x100_0000 * (bytes[i + 7] as u64);
    low + 0x1_0000_0000 * high
}

/// The moves that a sender wrote down, one after the other; a rest that is too short
/// for a move is not read.
pub fn decode_moves(raw: &Vec<u8>) -> (r: Vec<(Handle, Rights)>)
    ensures
        r@.len() == raw@.len() / MOVE_BYTES as nat,
        forall|k: int|
            0 <= k < r@.len() ==> (#[trigger] r@[k]).0 == word_at(raw@, MOVE_BYTES * k)
                && r@[k].1 == word_at(raw@, MOVE_BYTES * k + 8),
{
    let mut moves: Vec<(Handle, Rights)> = Vec::new();
    let mut at: usize = 0;
    while raw.len() - at >= MOVE_BYTES
        invariant
            at <= raw.len(),
            at == MOVE_BYTES * moves@.len(),
            forall|k: int|
                0 <= k < moves@.len() ==> (#[trigger] moves@[k]).0 == word_at(raw@, MOVE_BYTES * k)
                    && moves@[k].1 == word_at(raw@, MOVE_BYTES * k + 8),
        decreases raw.len() - at,
    {
        moves.push((read_word(raw, at), read_word(raw, at + 8)));
        at = at + MOVE_BYTES;
    }
    moves
}

/// Some move names `handle`.
pub open spec fn moves_name(moves: Seq<(Handle, Rights)>, handle: Handle) -> bool {
    exists|k: int| 0 <= k < moves.len() && (#[trigger] moves[k]).0 == handle
}

fn names(moves: &Vec<(Handle, Rights)>, handle: Handle) -> (r: bool)
    ensures
        r == moves_name(moves@, handle),
{
    let mut index: usize = 0;
    while index < moves.len()
        invariant
            index <= moves.len(),
            forall|k: int| 0 <= k < index ==> (#[trigger] moves@[k]).0 != handle,
        decreases moves.len() - index,
    {
        if moves[index].0 == handle {
            assert(moves@[index as int].0 == handle);
            return true;
        }
        index = index + 1;
    }
    false
}

/// Whether a message of this size may be sent at all.
pub fn check_send_size(payload_len: usize, move_count: usize, limits: MessageLimits) -> (r: Result<
    (),
    SystemCallError,
>)
    ensures
        r == if payload_len > limits.payload_max || move_count > limits.handle_max {
            Err::<(), _>(SystemCallError::IllegalArgument)
        } else {
            Ok(())
        },
{
    if payload_len > limits.payload_max || move_count > limits.handle_max {
        Err(SystemCallError::IllegalArgument)
    } else {
        Ok(())
    }
}

/// Whether what the sender says of its message is what it sends.
pub fn check_send_header(header: SendHeader, payload_len: usize, move_count: usize) -> (r: Result<
    (),
    SystemCallError,
>)
    ensures
        r == if header.payload_len != payload_len || header.handle_count != move_count
            || !header.reserved_clear {
            Err::<(), _>(SystemCallError::IllegalArgument)
        } else {
            Ok(())
        },
{
    if header.payload_len as usize != payload_len || header.handle_count as usize != move_count
        || !header.reserved_clear {
        Err(SystemCallError::IllegalArgument)
    } else {
        Ok(())
    }
}

/// What comes of resolving the handle that a message is sent through.
pub open spec fn send_target_result(
    found: Result<ProcessHandleEntry, TableError>,
    target: Handle,
    moves: Seq<(Handle, Rights)>,
) -> Result<(ProcessHandleEntry, bool), SystemCallError> {
    match found {
        Err(error) => Err(handle::reported(error)),
        Ok(entry) => {
            let once = entry.role == HandleRole::MailboxSenderOnce;
            if entry.role != HandleRole::MailboxSender && !once {
                Err(SystemCallError::WrongObjectType)
            } else if once && moves_name(moves, target) {
                Err(SystemCallError::IllegalArgument)
            } else if entry.kind != ObjectKind::MailboxSender {
                Err(SystemCallError::WrongObjectType)
            } else {
                Ok((entry, once))
            }
        },
    }
}

/// Resolves the handle `target` that a message is sent through, where `found` is
/// what the lookup with the right to write gave; and whether a successful send uses
/// it up. A handle for one send cannot travel in its own message.
pub fn send_target(
    found: Result<ProcessHandleEntry, TableError>,
    target: Handle,
    moves: &Vec<(Handle, Rights)>,
) -> (r: Result<(ProcessHandleEntry, bool), SystemCallError>)
    ensures
        r == send_target_result(found, target, moves@),
{
    let entry = match found {
        Err(error) => {
            return Err(handle::map_error(error));
        },
        Ok(entry) => entry,
    };
    let once: bool = match entry.role {
        HandleRole::MailboxSender => false,
        HandleRole::MailboxSenderOnce => true,
        _ => {
            return Err(SystemCallError::WrongObjectType);
        },
    };
    if once && names(moves, target) {
        return Err(SystemCallError::IllegalArgument);
    }
    if entry.kind != ObjectKind::MailboxSender {
        return Err(SystemCallError::WrongObjectType);
    }
    Ok((entry, once))
}

/// A sender's authorization: immutable badge and queue.
pub struct MailboxSender {
    header: ObjectHeader,
    badge: u64,
    queue: Koid,
}

impl MailboxSender {
    pub closed spec fn koid(&self) -> Koid {
        self.header.spec_koid()
    }

    pub closed spec fn spec_badge(&self) -> u64 {
        self.badge
    }

    pub closed spec fn spec_queue(&self) -> Koid {
        self.queue
    }

    /// Makes an authorization to send to `queue` with `badge`, and the object through
    /// which its end can be observed. `lifetime_permit` and `permit` are what asking
    /// for the metadata of the two gave, the two rooms whether there is memory for
    /// them.
    pub fn create(
        queue: Koid,
        badge: u64,
        sequence: &mut IdSequence,
        lifetime_permit: Result<(), SystemCallError>,
        lifetime_room: bool,
        permit: Result<(), SystemCallError>,
        room: bool,
    ) -> (r: Result<(MailboxSender, LifetimeOwner), SystemCallError>)
        ensures
            match r {
                Ok((sender, lifetime)) => {
                    &&& lifetime.wf()
                    &&& Some(sender.koid()) == old(sequence)@
                    &&& Some(lifetime.koid()) == ids::after(old(sequence)@)
                    &&& sender.spec_badge() == badge
                    &&& sender.spec_queue() == queue
                    &&& lifetime.related() == sender.koid()
                    &&& lifetime.wait().signals == signals::NONE
                },
                Err(error) => error == if old(sequence)@ is None || ids::after(
                    old(sequence)@,
                ) is None {
                    SystemCallError::ReachLimit
                } else if lifetime_permit is Err {
                    lifetime_permit->Err_0
                } else if !lifetime_room {
                    SystemCallError::OutOfMemory
                } else if permit is Err {
                    permit->Err_0
                } else {
                    SystemCallError::OutOfMemory
                },
            },
            r is Ok <==> ids::after(old(sequence)@) is Some && lifetime_permit is Ok
                && lifetime_room && permit is Ok && room,
            final(sequence)@ == ids::after(ids::after(old(sequence)@)),
    {
        let header = match ObjectHeader::try_new(sequence) {
            None => {
                return Err(SystemCallError::ReachLimit);
            },
            Some(header) => header,
        };
        let lifetime = match LifetimeOwner::new(
            header.koid(),
            sequence,
            lifetime_permit,
            lifetime_room,
        ) {
            Err(error) => {
                return Err(error);
            },
            Ok(lifetime) => lifetime,
        };
        match permit {
            Err(error) => {
                return Err(error);
            },
            Ok(_) => {},
        }
        if !room {
            return Err(SystemCallError::OutOfMemory);
        }
        Ok((MailboxSender { header, badge, queue }, lifetime))
    }

    pub fn badge(&self) -> (r: u64)
        ensures
            r == self.spec_badge(),
    {
        self.badge
    }

    /// The queue that messages go to, whose levels are also what a sender waits for.
    pub fn queue(&self) -> (r: Koid)
        ensures
            r == self.spec_queue(),
    {
        self.queue
    }

    /// What a message sent by process `pid` with this authorization says of itself.
    pub fn message_header(&self, pid: u64, header: SendHeader) -> (r: MessageHeader)
        ensures
            r == (MessageHeader {
                sender_pid: pid,
                sender_badge: self.spec_badge(),
                kind: header.kind,
                payload_len: header.payload_len,
                handle_count: header.handle_count,
                sender_context_id: self.koid(),
            }),
    {
        MessageHeader {
            sender_pid: pid,
            sender_badge: self.badge,
            kind: header.kind,
            payload_len: header.payload_len,
            handle_count: header.handle_count,
            sender_context_id: self.header.koid(),
        }
    }
}

/// Sends a message through the handle `target`. `found` is what the lookup with the
/// right to write gave; `sender` is the authorization behind it; `delivery` is the
/// delivery made for the message, or why none could be; the rest is as in
/// [`Mailbox::enqueue_with`]. Success says whether the handle is used up; a failure
/// leaves queue and handle alone.
pub fn send(
    mailbox: &mut Mailbox,
    found: Result<ProcessHandleEntry, TableError>,
    target: Handle,
    moves: &Vec<(Handle, Rights)>,
    sender: &MailboxSender,
    pid: u64,
    header: SendHeader,
    payload: Vec<u8>,
    delivery: Result<Koid, SystemCallError>,
    room: bool,
    moved: Result<Vec<ProcessHandleEntry>, TableError>,
    in_time: Result<(), SystemCallError>,
) -> (r: Result<bool, SystemCallError>)
    requires
        old(mailbox).wf(),
        moved matches Ok(handles) ==> handles@.len() == moves@.len(),
    ensures
        final(mailbox).wf(),
        ({
            let resolved = send_target_result(found, target, moves@);
            let refused = |error: SystemCallError| Err::<bool, _>(error);
            if resolved is Err {
                r == refused(resolved->Err_0)
            } else if delivery is Err {
                r == refused(delivery->Err_0)
            } else if old(mailbox)@.closed {
                r == refused(SystemCallError::ObjectClosed)
            } else if old(mailbox)@.occupied() >= old(mailbox)@.capacity {
                r == refused(SystemCallError::MailboxFull)
            } else if !room {
                r == refused(SystemCallError::OutOfMemory)
            } else if moved is Err {
                r == refused(handle::reported(moved->Err_0))
            } else if in_time is Err {
                r == refused(in_time->Err_0)
            } else {
                &&& r == Ok::<_, SystemCallError>(resolved->Ok_0.1)
                &&& final(mailbox)@ == old(mailbox)@.appended(
                    Message {
                        header: MessageHeader {
                            sender_pid: pid,
                            sender_badge: sender.spec_badge(),
                            kind: header.kind,
                            payload_len: header.payload_len,
                            handle_count: header.handle_count,
                            sender_context_id: sender.koid(),
                        },
                        payload,
                        handles: moved->Ok_0,
                        delivery: ProcessHandleEntry {
                            object: delivery->Ok_0,
                            kind: ObjectKind::Delivery,
                            role: HandleRole::Delivery,
                            rights: rights::DELIVERY,
                        },
                    },
                )
            }
        }),
        r is Err ==> final(mailbox)@ == old(mailbox)@,
{
    let (_, once) = match send_target(found, target, moves) {
        Err(error) => {
            return Err(error);
        },
        Ok(resolved) => resolved,
    };
    let object = match delivery {
        Err(error) => {
            return Err(error);
        },
        Ok(object) => object,
    };
    proof {
        handle::all_rights_may_enter(object, ObjectKind::Delivery, HandleRole::Delivery);
    }
    let entry = match handle::entry(
        object,
        ObjectKind::Delivery,
        HandleRole::Delivery,
        rights::TRANSIT | rights::GRANT,
    ) {
        Err(error) => {
            return Err(handle::map_error(error));
        },
        Ok(entry) => entry,
    };
    let message = sender.message_header(pid, header);
    match mailbox.enqueue_with(room, moved, in_time, message, payload, entry) {
        Err(error) => Err(error),
        Ok(_) => Ok(once),
    }
}

/// Whether buffers of this size may be received into at all.
pub fn check_receive_size(
    payload_capacity: usize,
    handle_capacity: usize,
    limits: MessageLimits,
) -> (r: Result<(), SystemCallError>)
    ensures
        r == if payload_capacity > limits.payload_max || handle_capacity > limits.handle_max {
            Err::<(), _>(SystemCallError::IllegalArgument)
        } else {
            Ok(())
        },
{
    if payload_capacity > limits.payload_max || handle_capacity > limits.handle_max {
        Err(SystemCallError::IllegalArgument)
    } else {
        Ok(())
    }
}

/// Why a receive is refused before it takes a message.
pub open spec fn receive_refusal(
    mailbox: MailboxView,
    payload_capacity: usize,
    handle_capacity: usize,
    limits: MessageLimits,
    outputs: Result<(), SystemCallError>,
    found: Result<ProcessHandleEntry, TableError>,
    token: Option<u64>,
    room: bool,
    reserved: Result<(), TableError>,
) -> Option<SystemCallError> {
    if payload_capacity > limits.payload_max || handle_capacity > limits.handle_max
        || handle_capacity * HANDLE_BYTES > usize::MAX {
        Some(SystemCallError::IllegalArgument)
    } else if outputs is Err {
        Some(outputs->Err_0)
    } else if handle::resolve_result(found, ObjectKind::Mailbox, HandleRole::MailboxOwner) is Err {
        Some(
            handle::resolve_result(found, ObjectKind::Mailbox, HandleRole::MailboxOwner)->Err_0,
        )
    } else if token is None {
        Some(SystemCallError::ReachLimit)
    } else if mailbox.head_refused() is Some {
        mailbox.head_refused()
    } else if payload_capacity < mailbox.queue[0].payload.len() || handle_capacity
        < mailbox.queue[0].handles.len() {
        Some(SystemCallError::BufferTooSmall)
    } else if !room {
        Some(SystemCallError::OutOfMemory)
    } else if reserved is Err {
        Some(handle::reported(reserved->Err_0))
    } else {
        None
    }
}

/// How many bytes a handle takes in a receiver's buffer.
pub const HANDLE_BYTES: usize = 8;

/// Takes a message aside for a receiver; [`finish_receive`] ends what this begins. `outputs`
/// says whether the receiver's buffers can be written, `found` is what the lookup of the
/// owner with the right to read gave; `room` and `reserved` are those of
/// [`Mailbox::begin_receive`].
pub fn receive(
    mailbox: &mut Mailbox,
    payload_capacity: usize,
    handle_capacity: usize,
    limits: MessageLimits,
    outputs: Result<(), SystemCallError>,
    found: Result<ProcessHandleEntry, TableError>,
    tokens: &mut IdSequence,
    room: bool,
    reserved: Result<(), TableError>,
) -> (r: Result<(u64, Message), SystemCallError>)
    requires
        old(mailbox).wf(),
    ensures
        final(mailbox).wf(),
        ({
            let refusal = receive_refusal(
                old(mailbox)@,
                payload_capacity,
                handle_capacity,
                limits,
                outputs,
                found,
                old(tokens)@,
                room,
                reserved,
            );
            match r {
                Err(error) => refusal == Some(error) && final(mailbox)@ == old(mailbox)@,
                Ok((token, message)) => {
                    &&& refusal is None
                    &&& Some(token) == old(tokens)@
                    &&& message == old(mailbox)@.queue[0]
                    &&& final(mailbox)@ == old(mailbox)@.set_aside(token)
                },
            }
        }),
        ({
            let asked = payload_capacity <= limits.payload_max && handle_capacity
                <= limits.handle_max && handle_capacity * HANDLE_BYTES <= usize::MAX && outputs is Ok
                && handle::resolve_result(
                found,
                ObjectKind::Mailbox,
                HandleRole::MailboxOwner,
            ) is Ok;
            final(tokens)@ == if asked {
                ids::after(old(tokens)@)
            } else {
                old(tokens)@
            }
        }),
{
    match check_receive_size(payload_capacity, handle_capacity, limits) {
        Err(error) => {
            return Err(error);
        },
        Ok(_) => {},
    }
    if handle_capacity.checked_mul(HANDLE_BYTES).is_none() {
        return Err(SystemCallError::IllegalArgument);
    }
    match outputs {
        Err(error) => {
            return Err(error);
        },
        Ok(_) => {},
    }
    match handle::resolve(found, ObjectKind::Mailbox, HandleRole::MailboxOwner) {
        Err(error) => {
            return Err(error);
        },
        Ok(_) => {},
    }
    let token: u64 = match tokens.allocate() {
        None => {
            return Err(SystemCallError::ReachLimit);
        },
        Some(token) => token,
    };
    match mailbox.begin_receive(token, payload_capacity, handle_capacity, room, reserved) {
        Err(error) => Err(error),
        Ok(message) => Ok((token, message)),
    }
}

/// What a receive leaves to do.
pub enum ReceiveEnd {
    /// Enter these handles in the reserved slots: those of the message, then its
    /// delivery.
    Delivered(Vec<ProcessHandleEntry>),
    /// Give the reserved slots up; if the message did not go back to the queue,
    /// close these handles.
    CalledOff { error: SystemCallError, close: Option<Vec<ProcessHandleEntry>> },
}

/// Ends the receive `token` of `message`, where `copied` is what copying the message
/// to the receiver gave.
pub fn finish_receive(
    mailbox: &mut Mailbox,
    token: u64,
    message: Message,
    copied: Result<(), SystemCallError>,
) -> (r: ReceiveEnd)
    requires
        old(mailbox).wf(),
        old(mailbox)@.receiving == Some(token),
    ensures
        final(mailbox).wf(),
        match copied {
            Ok(_) => {
                &&& r is Delivered
                &&& r->Delivered_0@ == message.transit()
                &&& r->Delivered_0@.len() == message.handles@.len() + 1
                &&& r->Delivered_0@.drop_last() == message.handles@
                &&& r->Delivered_0@.last() == message.delivery
                &&& final(mailbox)@ == old(mailbox)@.received()
            },
            Err(failure) => {
                &&& r is CalledOff
                &&& r->error == failure
                &&& r->close is Some <==> old(mailbox)@.closed
                &&& r->close matches Some(entries) ==> entries@ == message.transit()
                    && entries@.drop_last() == message.handles@ && entries@.last()
                    == message.delivery
                &&& final(mailbox)@ == old(mailbox)@.called_off(message)
            },
        },
{
    match copied {
        Err(error) => {
            let close = match mailbox.rollback_receive(token, message) {
                Some(rejected) => Some(rejected.close_transit_handles()),
                None => None,
            };
            ReceiveEnd::CalledOff { error, close }
        },
        Ok(_) => {
            mailbox.commit_receive(token);
            ReceiveEnd::Delivered(message.close_transit_handles())
        },
    }
}

/// Makes a mailbox for `capacity` messages, and the entry through which its owner gets it.
/// `made` is the identity of its object, or why the object could not be made.
pub fn create(made: Result<Koid, SystemCallError>, capacity: usize, owner_rights: Rights) -> (r:
    Result<(Mailbox, ProcessHandleEntry), SystemCallError>)
    requires
        capacity > 0,
    ensures
        match made {
            Err(error) => r == Err::<(Mailbox, ProcessHandleEntry), _>(error),
            Ok(object) => if !handle::may_enter(
                ObjectKind::Mailbox,
                HandleRole::MailboxOwner,
                owner_rights,
            ) {
                r == Err::<(Mailbox, ProcessHandleEntry), _>(SystemCallError::RightsDenied)
            } else {
                &&& r is Ok
                &&& r->Ok_0.0.wf()
                &&& r->Ok_0.0@ == MailboxView::fresh(capacity)
                &&& r->Ok_0.1 == (ProcessHandleEntry {
                    object,
                    kind: ObjectKind::Mailbox,
                    role: HandleRole::MailboxOwner,
                    rights: owner_rights,
                })
            },
        },
{
    let object: Koid = match made {
        Err(error) => {
            return Err(error);
        },
        Ok(object) => object,
    };
    match handle::entry(object, ObjectKind::Mailbox, HandleRole::MailboxOwner, owner_rights) {
        Err(error) => Err(handle::map_error(error)),
        Ok(entry) => Ok((Mailbox::new(capacity), entry)),
    }
}

/// Tells the owner what the oldest message says of itself; `found` is what the lookup of
/// the owner with the right to read gave, `written` whether the answer could be written
/// where the owner wants it.
pub fn peek(
    mailbox: &Mailbox,
    found: Result<ProcessHandleEntry, TableError>,
    written: Result<(), SystemCallError>,
) -> (r: Result<MessageHeader, SystemCallError>)
    ensures
        ({
            let resolved = handle::resolve_result(
                found,
                ObjectKind::Mailbox,
                HandleRole::MailboxOwner,
            );
            r == if resolved is Err {
                Err::<MessageHeader, _>(resolved->Err_0)
            } else if mailbox@.head_refused() is Some {
                Err(mailbox@.head_refused()->0)
            } else if written is Err {
                Err(written->Err_0)
            } else {
                Ok(mailbox@.queue[0].header)
            }
        }),
{
    match handle::resolve(found, ObjectKind::Mailbox, HandleRole::MailboxOwner) {
        Err(error) => {
            return Err(error);
        },
        Ok(_) => {},
    }
    let header = match mailbox.peek() {
        Err(error) => {
            return Err(error);
        },
        Ok(header) => header,
    };
    match written {
        Err(error) => Err(error),
        Ok(_) => Ok(header),
    }
}

/// Throws the oldest message away for the owner; `found` is what the lookup of the owner
/// with the right to read gave. The entries that travelled with the message are to be
/// closed, and senders may be waiting for the room.
pub fn discard(mailbox: &mut Mailbox, found: Result<ProcessHandleEntry, TableError>) -> (r: Result<
    Vec<ProcessHandleEntry>,
    SystemCallError,
>)
    requires
        old(mailbox).wf(),
    ensures
        final(mailbox).wf(),
        ({
            let resolved = handle::resolve_result(
                found,
                ObjectKind::Mailbox,
                HandleRole::MailboxOwner,
            );
            if resolved is Err {
                &&& r == Err::<Vec<ProcessHandleEntry>, _>(resolved->Err_0)
                &&& final(mailbox)@ == old(mailbox)@
            } else if old(mailbox)@.head_refused() is Some {
                &&& r == Err::<Vec<ProcessHandleEntry>, _>(old(mailbox)@.head_refused()->0)
                &&& final(mailbox)@ == old(mailbox)@
            } else {
                &&& r is Ok
                &&& r->Ok_0@ == old(mailbox)@.queue[0].transit()
                &&& r->Ok_0@.drop_last() == old(mailbox)@.queue[0].handles@
                &&& r->Ok_0@.last() == old(mailbox)@.queue[0].delivery
                &&& final(mailbox)@ == old(mailbox)@.discarded()
            }
        }),
{
    match handle::resolve(found, ObjectKind::Mailbox, HandleRole::MailboxOwner) {
        Err(error) => {
            return Err(error);
        },
        Ok(_) => {},
    }
    match mailbox.discard() {
        Err(error) => Err(error),
        Ok(message) => Ok(message.close_transit_handles()),
    }
}

/// The two entries that minting a sender publishes: the sender with `rights`, and
/// the observer of its end. `found` is what the lookup of the owner with the right
/// to manage gave; `made` the two objects, or why they could not be made.
pub fn mint_sender(
    found: Result<ProcessHandleEntry, TableError>,
    made: Result<(Koid, Koid), SystemCallError>,
    room: bool,
    rights: Rights,
) -> (r: Result<(ProcessHandleEntry, ProcessHandleEntry), SystemCallError>)
    ensures
        ({
            let resolved = handle::resolve_result(
                found,
                ObjectKind::Mailbox,
                HandleRole::MailboxOwner,
            );
            let refused = |error: SystemCallError|
                Err::<(ProcessHandleEntry, ProcessHandleEntry), _>(error);
            if resolved is Err {
                r == refused(resolved->Err_0)
            } else if made is Err {
                r == refused(made->Err_0)
            } else if !room {
                r == refused(SystemCallError::OutOfMemory)
            } else if !handle::may_enter(
                ObjectKind::MailboxSender,
                HandleRole::MailboxSender,
                rights,
            ) {
                r == refused(SystemCallError::RightsDenied)
            } else {
                r == Ok::<_, SystemCallError>(
                    (
                        ProcessHandleEntry {
                            object: made->Ok_0.0,
                            kind: ObjectKind::MailboxSender,
                            role: HandleRole::MailboxSender,
                            rights,
                        },
                        ProcessHandleEntry {
                            object: made->Ok_0.1,
                            kind: ObjectKind::Lifetime,
                            role: HandleRole::LifetimeObserver,
                            rights: rights::LIFETIME_OBSERVER,
                        },
                    ),
                )
            }
        }),
{
    match handle::resolve(found, ObjectKind::Mailbox, HandleRole::MailboxOwner) {
        Err(error) => {
            return Err(error);
        },
        Ok(_) => {},
    }
    let (sender, lifetime) = match made {
        Err(error) => {
            return Err(error);
        },
        Ok(made) => made,
    };
    if !room {
        return Err(SystemCallError::OutOfMemory);
    }
    let first = match handle::entry(
        sender,
        ObjectKind::MailboxSender,
        HandleRole::MailboxSender,
        rights,
    ) {
        Err(error) => {
            return Err(handle::map_error(error));
        },
        Ok(entry) => entry,
    };
    proof {
        handle::all_rights_may_enter(lifetime, ObjectKind::Lifetime, HandleRole::LifetimeObserver);
    }
    match handle::entry(
        lifetime,
        ObjectKind::Lifetime,
        HandleRole::LifetimeObserver,
        rights::WAIT | rights::DUPLICATE | rights::TRANSIT | rights::GRANT,
    ) {
        Err(error) => Err(handle::map_error(error)),
        Ok(second) => Ok((first, second)),
    }
}

/// The entry for one send that is derived from a sender. `found` is what the lookup
/// with the right to duplicate gave. Rights that the source lacks, or that such an
/// entry cannot have, are refused, not trimmed.
pub fn make_send_once(
    found: Result<ProcessHandleEntry, TableError>,
    room: bool,
    rights: Rights,
) -> (r: Result<ProcessHandleEntry, SystemCallError>)
    ensures
        ({
            let resolved = handle::resolve_result(
                found,
                ObjectKind::MailboxSender,
                HandleRole::MailboxSender,
            );
            let refused = |error: SystemCallError| Err::<ProcessHandleEntry, _>(error);
            if resolved is Err {
                r == refused(resolved->Err_0)
            } else if !rights::subset(rights, resolved->Ok_0.rights) {
                r == refused(SystemCallError::RightsDenied)
            } else if !room {
                r == refused(SystemCallError::OutOfMemory)
            } else if !handle::may_enter(
                ObjectKind::MailboxSender,
                HandleRole::MailboxSenderOnce,
                rights,
            ) {
                r == refused(SystemCallError::RightsDenied)
            } else {
                r == Ok::<_, SystemCallError>(
                    ProcessHandleEntry {
                        object: resolved->Ok_0.object,
                        kind: ObjectKind::MailboxSender,
                        role: HandleRole::MailboxSenderOnce,
                        rights,
                    },
                )
            }
        }),
{
    let source = match handle::resolve(found, ObjectKind::MailboxSender, HandleRole::MailboxSender) {
        Err(error) => {
            return Err(error);
        },
        Ok(source) => source,
    };
    if !rights::is_subset_of(rights, source.rights) {
        return Err(SystemCallError::RightsDenied);
    }
    if !room {
        return Err(SystemCallError::OutOfMemory);
    }
    match handle::entry(
        source.object,
        ObjectKind::MailboxSender,
        HandleRole::MailboxSenderOnce,
        rights,
    ) {
        Err(error) => Err(handle::map_error(error)),
        Ok(entry) => Ok(entry),
    }
}

/// A handle for one send cannot be derived from another one: it carries no right to
/// duplicate.
pub proof fn send_once_cannot_multiply(asked: Rights)
    requires
        handle::may_enter(ObjectKind::MailboxSender, HandleRole::MailboxSenderOnce, asked),
    ensures
        asked & rights::DUPLICATE == 0,
{
    assert(asked & 0x100 == 0) by (bit_vector)
        requires
            asked & !(0x2u64 | 0x20 | 0x200 | 0x400) == 0,
    ;
}

/// Nothing that travels with a message is lost or exchanged: what is delivered, or left to
/// close, is every handle of the message in its order, and then the delivery.
pub proof fn every_handle_travels(message: Message)
    ensures
        message.transit().len() == message.handles@.len() + 1,
        forall|i: int|
            0 <= i < message.handles@.len() ==> #[trigger] message.transit()[i]
                == message.handles@[i],
        message.transit()[message.handles@.len() as int] == message.delivery,
        message.transit().last() == message.delivery,
{
}

/// The levels, bit by bit: the readable one is up exactly if there is a message that no
/// receiver has aside, the writable one exactly if another message fits, and no other is up.
pub proof fn levels_bit_by_bit(state: MailboxView)
    ensures
        state.level() & 0x1 != 0 <==> state.receiving is None && state.queue.len() > 0,
        state.level() & 0x2 != 0 <==> (if state.receiving is Some {
            state.queue.len() + 1 < state.capacity
        } else {
            state.queue.len() < state.capacity
        }),
        state.level() & !0x3u64 == 0,
{
    assert(0x1u64 & 0x1 != 0 && 0x1u64 & 0x2 == 0 && 0x1u64 & !0x3u64 == 0 && 0x2u64 & 0x1 == 0
        && 0x2u64 & 0x2 != 0 && 0x2u64 & !0x3u64 == 0 && 0u64 & 0x1 == 0 && 0u64 & 0x2 == 0 && 0u64
        & !0x3u64 == 0 && (0x1u64 | 0x2) & 0x1 != 0 && (0x1u64 | 0x2) & 0x2 != 0 && (0x1u64 | 0x2)
        & !0x3u64 == 0) by (bit_vector);
}

/// Publishing changes what observers see and nothing else.
pub proof fn publishing_touches_only_the_levels(state: MailboxView)
    ensures
        state.published().queue == state.queue,
        state.published().receiving == state.receiving,
        state.published().closed == state.closed,
        state.published().capacity == state.capacity,
{
}

/// A new mailbox is open and empty, refuses a receiver for want of a message, and takes as
/// many messages as it was made for.
pub proof fn new_mailbox_is_empty(capacity: usize)
    requires
        capacity > 0,
    ensures
        ({
            let new = MailboxView::fresh(capacity);
            &&& new.queue.len() == 0 && new.receiving is None && !new.closed
            &&& new.capacity == capacity
            &&& new.wait.signals == 0x2
            &&& new.head_refused() == Some(SystemCallError::ObjectNotAvailable)
        }),
{
}

/// When a receiver gets the oldest message, and what it is told else: a closed mailbox says
/// so first, then one whose head is aside, then an empty one.
pub proof fn receivers_are_told_why(state: MailboxView)
    ensures
        state.head_refused() is None <==> !state.closed && state.receiving is None
            && state.queue.len() >= 1,
        state.head_refused() == Some(SystemCallError::ObjectClosed) <==> state.closed,
        state.head_refused() == Some(SystemCallError::ObjectBusy) <==> !state.closed
            && state.receiving is Some,
        state.head_refused() == Some(SystemCallError::ObjectNotAvailable) <==> !state.closed
            && state.receiving is None && state.queue.len() == 0,
{
}

/// What stands above the lowest `unit` comes out by dividing.
proof fn upper_part(low: int, unit: int, high: int)
    requires
        0 <= low < unit,
    ensures
        (low + unit * high) / unit == high,
{
    assert(low + unit * high == high * unit + low) by (nonlinear_arith);
    vstd::arithmetic::div_mod::lemma_fundamental_div_mod_converse(
        low + unit * high,
        unit,
        high,
        low,
    );
}

/// A word is its eight bytes, lowest first: dividing the lower ones away and cutting the
/// higher ones off gives each byte back.
pub proof fn word_is_its_bytes(bytes: Seq<u8>, i: int)
    ensures
        0 <= word_at(bytes, i) <= u64::MAX,
        word_at(bytes, i) % 0x100 == bytes[i],
        word_at(bytes, i) / 0x100 % 0x100 == bytes[i + 1],
        word_at(bytes, i) / 0x1_0000 % 0x100 == bytes[i + 2],
        word_at(bytes, i) / 0x100_0000 % 0x100 == bytes[i + 3],
        word_at(bytes, i) / 0x1_0000_0000 % 0x100 == bytes[i + 4],
        word_at(bytes, i) / 0x100_0000_0000 % 0x100 == bytes[i + 5],
        word_at(bytes, i) / 0x1_0000_0000_0000 % 0x100 == bytes[i + 6],
        word_at(bytes, i) / 0x100_0000_0000_0000 == bytes[i + 7],
{
    let word = word_at(bytes, i);
    let h7 = bytes[i + 7] as int;
    let h6 = bytes[i + 6] + 0x100 * h7;
    let h5 = bytes[i + 5] + 0x100 * h6;
    let h4 = bytes[i + 4] + 0x100 * h5;
    let h3 = bytes[i + 3] + 0x100 * h4;
    let h2 = bytes[i + 2] + 0x100 * h3;
    let h1 = bytes[i + 1] + 0x100 * h2;
    let l1 = bytes[i] as int;
    let l2 = l1 + 0x100 * bytes[i + 1];
    let l3 = l2 + 0x1_0000 * bytes[i + 2];
    let l4 = l3 + 0x100_0000 * bytes[i + 3];
    let l5 = l4 + 0x1_0000_0000 * bytes[i + 4];
    let l6 = l5 + 0x100_0000_0000 * bytes[i + 5];
    let l7 = l6 + 0x1_0000_0000_0000 * bytes[i + 6];
    upper_part(l1, 0x100, h1);
    upper_part(l2, 0x1_0000, h2);
    upper_part(l3, 0x100_0000, h3);
    upper_part(l4, 0x1_0000_0000, h4);
    upper_part(l5, 0x100_0000_0000, h5);
    upper_part(l6, 0x1_0000_0000_0000, h6);
    upper_part(l7, 0x100_0000_0000_0000, h7);
    assert(word == l1 + 0x100 * h1);
}

/// A message goes out only through a handle to a sender: the very entry that was found. It is
/// used up exactly if it is for one send, and then does not travel in its own message.
pub proof fn senders_send(
    found: Result<ProcessHandleEntry, TableError>,
    target: Handle,
    moves: Seq<(Handle, Rights)>,
)
    ensures
        send_target_result(found, target, moves) matches Ok((entry, once)) ==> {
            &&& found == Ok::<_, TableError>(entry)
            &&& entry.kind == ObjectKind::MailboxSender
            &&& once <==> entry.role == HandleRole::MailboxSenderOnce
            &&& !once <==> entry.role == HandleRole::MailboxSender
            &&& once ==> forall|k: int| 0 <= k < moves.len() ==> (#[trigger] moves[k]).0 != target
        },
        found matches Ok(entry) ==> (entry.role == HandleRole::MailboxSender && entry.kind
            == ObjectKind::MailboxSender ==> send_target_result(found, target, moves) == Ok::<
            _,
            SystemCallError,
        >((entry, false))),
        found matches Ok(entry) ==> (entry.role == HandleRole::MailboxSenderOnce && (exists|k: int|
            0 <= k < moves.len() && (#[trigger] moves[k]).0 == target) ==> send_target_result(
            found,
            target,
            moves,
        ) == Err::<(ProcessHandleEntry, bool), _>(SystemCallError::IllegalArgument)),
        found matches Ok(entry) ==> (entry.role == HandleRole::MailboxSenderOnce && entry.kind
            == ObjectKind::MailboxSender && (forall|k: int|
            0 <= k < moves.len() ==> (#[trigger] moves[k]).0 != target) ==> send_target_result(
            found,
            target,
            moves,
        ) == Ok::<_, SystemCallError>((entry, true))),
        found is Err ==> send_target_result(found, target, moves) is Err,
{
}

/// A receive that is not refused has room for all of the oldest message, and a slot was kept
/// for every handle; one that asks for more than is allowed is refused before anything else.
pub proof fn receives_have_room(
    mailbox: MailboxView,
    payload_capacity: usize,
    handle_capacity: usize,
    limits: MessageLimits,
    outputs: Result<(), SystemCallError>,
    found: Result<ProcessHandleEntry, TableError>,
    token: Option<u64>,
    room: bool,
    reserved: Result<(), TableError>,
)
    ensures
        ({
            let refusal = receive_refusal(
                mailbox,
                payload_capacity,
                handle_capacity,
                limits,
                outputs,
                found,
                token,
                room,
                reserved,
            );
            &&& refusal is None <==> {
                &&& mailbox.queue.len() > 0 && !mailbox.closed && mailbox.receiving is None
                &&& mailbox.queue[0].payload@.len() <= payload_capacity <= limits.payload_max
                &&& mailbox.queue[0].handles@.len() <= handle_capacity <= limits.handle_max
                &&& handle_capacity * 8 <= usize::MAX
                &&& outputs is Ok && token is Some && room && reserved is Ok
                &&& found matches Ok(entry) && entry.kind == ObjectKind::Mailbox && entry.role
                    == HandleRole::MailboxOwner
            }
            &&& payload_capacity > limits.payload_max || handle_capacity > limits.handle_max
                ==> refusal == Some(SystemCallError::IllegalArgument)
            &&& refusal == Some(SystemCallError::BufferTooSmall) && outputs
                != Err::<(), _>(SystemCallError::BufferTooSmall) && reserved is Ok ==> (
            mailbox.queue[0].payload@.len() > payload_capacity || mailbox.queue[0].handles@.len()
                > handle_capacity)
        }),
{
}

/// A message that is sent is behind all others, and nothing else changes but the levels.
pub proof fn sending_adds_one_at_the_end(state: MailboxView, message: Message)
    ensures
        ({
            let after = state.appended(message);
            &&& after.queue.len() == state.queue.len() + 1
            &&& after.queue.last() == message
            &&& forall|i: int|
                0 <= i < state.queue.len() ==> #[trigger] after.queue[i] == state.queue[i]
            &&& after.receiving == state.receiving && after.closed == state.closed
            &&& after.capacity == state.capacity
        }),
{
}

/// A receive that is carried out takes the oldest message and no other: the rest move up by one,
/// and there is room for one more. Discarding it does the same in one go.
pub proof fn receiving_takes_the_oldest(state: MailboxView, token: u64)
    requires
        state.head_refused() is None,
    ensures
        ({
            let aside = state.set_aside(token);
            let after = aside.received();
            &&& aside.receiving == Some(token) && after.receiving is None
            &&& after.queue.len() == state.queue.len() - 1
            &&& forall|i: int|
                0 <= i < after.queue.len() ==> #[trigger] after.queue[i] == state.queue[i + 1]
            &&& after.occupied() == state.occupied() - 1
            &&& after.closed == state.closed && after.capacity == state.capacity
            &&& state.discarded().queue == after.queue && state.discarded().receiving is None
                && state.discarded().closed == state.closed && state.discarded().capacity
                == state.capacity
        }),
{
}

/// An end is final: the queue is empty and stays so, also when a receive that was under way is
/// called off; the message then does not come back.
pub proof fn ended_mailbox_stays_empty(state: MailboxView, message: Message)
    requires
        state.wf(),
        !state.closed,
    ensures
        ({
            let ended = state.ended();
            &&& ended.closed && ended.queue.len() == 0 && ended.wait.signals == 0x100
            &&& ended.receiving == state.receiving && ended.capacity == state.capacity
            &&& ended.head_refused() == Some(SystemCallError::ObjectClosed)
            &&& ended.called_off(message).queue.len() == 0 && ended.called_off(message).closed
            &&& ended.called_off(message).receiving is None
        }),
{
    publish_keeps_wf(
        MailboxView { closed: true, queue: Seq::empty(), ..state },
        state,
    );
}

} // verus!
