//! Messages and signals between processes: bounded mailboxes, sticky signals, and the
//! threads that wait for either.
use vstd::prelude::*;

use crate::error::SystemCallError;
use crate::job::Pid;

verus! {

/// The level of a mailbox that holds a message.
pub const NONEMPTY: u64 = 0x1;

/// The number of a thread among those that wait.
pub type ThreadIndex = usize;

/// What a waiting thread gets when its wait completes.
#[derive(Clone, Copy, Debug, PartialEq, Eq, Structural)]
pub enum Reply {
    /// Success, with this value.
    Done(u64),
    Failed(SystemCallError),
}

/// A thread whose wait has completed; it is ready to run again.
#[derive(Clone, Copy, Debug, PartialEq, Eq, Structural)]
pub struct Wakeup {
    pub thread: ThreadIndex,
    pub reply: Reply,
}

/// The registers that a reply is written to.
#[derive(Clone, Copy, Debug, PartialEq, Eq, Structural)]
pub struct CallFrame {
    /// The error code, or zero.
    pub status: u64,
    pub value: u64,
    /// Where the thread goes on.
    pub pc: u64,
}

/// How long the instruction is that makes a system call.
pub const CALL_BYTES: u64 = 4;

/// The frame after a reply; `code` is the number of the error, if it has one.
pub open spec fn answered(frame: CallFrame, reply: Reply, code: Option<u64>) -> CallFrame {
    CallFrame {
        status: match reply {
            Reply::Done(_) => 0,
            Reply::Failed(_) => match code {
                Some(number) => number,
                None => 1,
            },
        },
        value: match reply {
            Reply::Done(value) => value,
            Reply::Failed(_) => frame.value,
        },
        pc: (frame.pc + CALL_BYTES) as u64,
    }
}

/// Writes a reply. The thread goes on behind its call; an error leaves the value alone.
pub fn write_reply(frame: &mut CallFrame, reply: Reply, code: Option<u64>)
    requires
        old(frame).pc + CALL_BYTES <= u64::MAX,
    ensures
        *final(frame) == answered(*old(frame), reply, code),
{
    match reply {
        Reply::Done(value) => {
            frame.status = 0;
            frame.value = value;
        },
        Reply::Failed(_) => {
            frame.status = match code {
                Some(number) => number,
                None => 1,
            };
        },
    }
    frame.pc = frame.pc + CALL_BYTES;
}

/// The value with which a wait for signals completes: the item in the top byte, the
/// levels below.
pub open spec fn signal_word(index: usize, bits: u64) -> u64 {
    ((index as u64) << 56u64) | bits
}

fn pack_signal(index: usize, bits: u64) -> (r: u64)
    ensures
        r == signal_word(index, bits),
{
    ((index as u64) << 56u64) | bits
}

/// A waiter can tell the item and the levels apart.
pub proof fn signal_word_reads_back(index: usize, bits: u64)
    requires
        index < 0x100,
        bits < 0x100_0000_0000_0000,
    ensures
        signal_word(index, bits) >> 56u64 == index,
        signal_word(index, bits) & 0xff_ffff_ffff_ffff == bits,
{
    let item = index as u64;
    assert(((item << 56u64) | bits) >> 56u64 == item && ((item << 56u64) | bits)
        & 0xff_ffff_ffff_ffff == bits) by (bit_vector)
        requires
            item < 0x100,
            bits < 0x100_0000_0000_0000,
    ;
}

/// The waits of all threads. Each wait has a generation, and completing it ends that
/// generation: of all entries made for one wait, one can complete it.
pub struct WaitTable {
    generations: Vec<u64>,
}

/// The generation after `generation`.
pub open spec fn following(generation: u64) -> u64 {
    if generation < u64::MAX {
        (generation + 1) as u64
    } else {
        0
    }
}

/// Wait `generation` of a thread is not complete.
pub open spec fn current(
    generations: Seq<u64>,
    thread: ThreadIndex,
    generation: u64,
) -> bool {
    generations[thread as int] == generation
}

/// The generations once a thread's wait has moved on.
pub open spec fn moved_on(generations: Seq<u64>, thread: ThreadIndex) -> Seq<u64> {
    generations.update(thread as int, following(generations[thread as int]))
}

/// The generations after completing a wait, if it was not complete.
pub open spec fn completed(
    generations: Seq<u64>,
    thread: ThreadIndex,
    generation: u64,
) -> Seq<u64> {
    if current(generations, thread, generation) {
        moved_on(generations, thread)
    } else {
        generations
    }
}

/// A wait completes once.
pub proof fn wait_completes_once(
    generations: Seq<u64>,
    thread: ThreadIndex,
    generation: u64,
)
    requires
        thread < generations.len(),
    ensures
        !current(completed(generations, thread, generation), thread, generation),
{
}

impl View for WaitTable {
    type V = Seq<u64>;

    closed spec fn view(&self) -> Seq<u64> {
        self.generations@
    }
}

impl WaitTable {
    /// No thread yet.
    pub fn new() -> (r: WaitTable)
        ensures
            r@ == Seq::<u64>::empty(),
    {
        WaitTable { generations: Vec::new() }
    }

    /// Adds a thread that has not waited yet.
    pub fn add_thread(&mut self) -> (r: ThreadIndex)
        ensures
            r == old(self)@.len(),
            final(self)@ == old(self)@.push(0),
    {
        let index: usize = self.generations.len();
        self.generations.push(0);
        index
    }

    fn move_on(&mut self, thread: ThreadIndex)
        requires
            thread < old(self)@.len(),
        ensures
            final(self)@ == moved_on(old(self)@, thread),
    {
        let generation: u64 = self.generations[thread];
        let next: u64 = if generation < u64::MAX {
            generation + 1
        } else {
            0
        };
        self.generations.set(thread, next);
    }

    /// Begins a wait of a thread and gives its generation.
    pub fn begin(&mut self, thread: ThreadIndex) -> (r: u64)
        requires
            thread < old(self)@.len(),
        ensures
            final(self)@ == moved_on(old(self)@, thread),
            r == final(self)@[thread as int],
    {
        self.move_on(thread);
        self.generations[thread]
    }

    /// Completes a wait, unless it is complete already.
    pub fn fulfill(&mut self, thread: ThreadIndex, generation: u64) -> (r: bool)
        requires
            thread < old(self)@.len(),
        ensures
            r == current(old(self)@, thread, generation),
            final(self)@ == completed(old(self)@, thread, generation),
    {
        if self.generations[thread] != generation {
            return false;
        }
        self.move_on(thread);
        true
    }
}

/// What a thread waits for.
#[derive(Clone, Copy, Debug, PartialEq, Eq, Structural)]
pub enum WaitRequest {
    /// A message, to be copied to this buffer.
    Recv { buf: usize, len: usize },
    /// One of these levels, as one item of a wait for several.
    Signal { index: usize, interest: u64 },
}

/// An entry of a wait.
#[derive(Clone, Copy, Debug, PartialEq, Eq, Structural)]
pub struct ObjectWaiter {
    pub thread: ThreadIndex,
    pub generation: u64,
    pub request: WaitRequest,
}

/// An entry waits for one of `bits`.
pub open spec fn wants(waiter: ObjectWaiter, bits: u64) -> bool {
    waiter.request matches WaitRequest::Signal { interest, .. } && interest & bits != 0
}

/// The first entry from `from` on that waits for one of `bits`.
pub open spec fn first_wanting(waiters: Seq<ObjectWaiter>, bits: u64, from: int) -> Option<int>
    decreases waiters.len() - from,
{
    if from >= waiters.len() {
        None
    } else if wants(waiters[from], bits) {
        Some(from)
    } else {
        first_wanting(waiters, bits, from + 1)
    }
}

proof fn first_wanting_is_first(waiters: Seq<ObjectWaiter>, bits: u64, from: int)
    requires
        0 <= from,
    ensures
        match first_wanting(waiters, bits, from) {
            Some(i) => from <= i < waiters.len() && wants(waiters[i], bits) && forall|j: int|
                from <= j < i ==> !wants(#[trigger] waiters[j], bits),
            None => forall|j: int|
                from <= j < waiters.len() ==> !wants(#[trigger] waiters[j], bits),
        },
    decreases waiters.len() - from,
{
    if from < waiters.len() && !wants(waiters[from], bits) {
        first_wanting_is_first(waiters, bits, from + 1);
    }
}

/// The threads of all entries are among `count`.
pub open spec fn threads_known(waiters: Seq<ObjectWaiter>, count: nat) -> bool {
    forall|i: int| 0 <= i < waiters.len() ==> (#[trigger] waiters[i]).thread < count
}

/// The signals of an object: levels that were raised and not consumed, and the threads
/// that wait, in the order in which they came.
pub struct SignalState {
    mask: u64,
    waiters: Vec<ObjectWaiter>,
}

/// The same as a value.
#[verifier::ext_equal]
pub struct SignalView {
    pub mask: u64,
    pub waiters: Seq<ObjectWaiter>,
}

impl View for SignalState {
    type V = SignalView;

    closed spec fn view(&self) -> SignalView {
        SignalView { mask: self.mask, waiters: self.waiters@ }
    }
}

/// What an event does.
#[verifier::ext_equal]
pub struct Submitted {
    pub signals: SignalView,
    pub generations: Seq<u64>,
    pub wakeup: Option<Wakeup>,
}

/// An event raises `bits`. The first entry that waits for one of them is taken out, and
/// if its wait is not complete yet it completes with those that it waits for. They are
/// then consumed, where `consumed` says so; an event that completes no wait stays raised.
pub open spec fn submitted(
    signals: SignalView,
    generations: Seq<u64>,
    bits: u64,
    consumed: bool,
) -> Submitted {
    let raised = signals.mask | bits;
    match first_wanting(signals.waiters, bits, 0) {
        None => Submitted {
            signals: SignalView { mask: raised, waiters: signals.waiters },
            generations,
            wakeup: None,
        },
        Some(i) => {
            let waiter = signals.waiters[i];
            let handed = waiter.request->interest & bits;
            let live = current(generations, waiter.thread, waiter.generation);
            Submitted {
                signals: SignalView {
                    mask: if live && consumed {
                        raised & !handed
                    } else {
                        raised
                    },
                    waiters: signals.waiters.remove(i),
                },
                generations: completed(generations, waiter.thread, waiter.generation),
                wakeup: if live {
                    Some(
                        Wakeup {
                            thread: waiter.thread,
                            reply: Reply::Done(signal_word(waiter.request->index, handed)),
                        },
                    )
                } else {
                    None
                },
            }
        },
    }
}

/// No event is lost: a level that was raised before, or by the event, is raised still or
/// was handed to the thread that woke. An event that woke no one is raised.
pub proof fn events_are_kept(
    signals: SignalView,
    generations: Seq<u64>,
    bits: u64,
    consumed: bool,
)
    ensures
        ({
            let after = submitted(signals, generations, bits, consumed);
            let first = first_wanting(signals.waiters, bits, 0);
            &&& after.wakeup is None ==> after.signals.mask == signals.mask | bits
            &&& after.wakeup is Some ==> first is Some && {
                let waiter = signals.waiters[first->0];
                let handed = waiter.request->interest & bits;
                &&& wants(waiter, bits)
                &&& (after.wakeup->0).reply == Reply::Done(
                    signal_word(waiter.request->index, handed),
                )
                &&& after.signals.mask | handed == signals.mask | bits
            }
        }),
{
    first_wanting_is_first(signals.waiters, bits, 0);
    let first = first_wanting(signals.waiters, bits, 0);
    if first is Some {
        let mask = signals.mask;
        let interest = signals.waiters[first->0].request->interest;
        assert((((mask | bits) & !(interest & bits)) | (interest & bits)) == mask | bits && ((mask
            | bits) | (interest & bits)) == mask | bits) by (bit_vector);
    }
}

impl SignalState {
    pub fn new() -> (r: SignalState)
        ensures
            r@ == (SignalView { mask: 0, waiters: Seq::empty() }),
    {
        SignalState { mask: 0, waiters: Vec::new() }
    }

    /// Raises `bits` and wakes the first thread that waits for one of them.
    pub fn submit(&mut self, waits: &mut WaitTable, bits: u64, clear_on_deliver: bool) -> (r:
        Option<Wakeup>)
        requires
            threads_known(old(self)@.waiters, old(waits)@.len()),
        ensures
            (Submitted { signals: final(self)@, generations: final(waits)@, wakeup: r })
                == submitted(old(self)@, old(waits)@, bits, clear_on_deliver),
            final(waits)@.len() == old(waits)@.len(),
            threads_known(final(self)@.waiters, final(waits)@.len()),
    {
        let ghost before = self@;
        proof {
            first_wanting_is_first(before.waiters, bits, 0);
        }
        self.mask = self.mask | bits;
        let mut i: usize = 0;
        while i < self.waiters.len()
            invariant
                i <= self.waiters.len(),
                self.waiters@ == before.waiters,
                self.mask == before.mask | bits,
                before == old(self)@,
                waits@ == old(waits)@,
                threads_known(before.waiters, waits@.len()),
                first_wanting(before.waiters, bits, 0) == first_wanting(
                    before.waiters,
                    bits,
                    i as int,
                ),
            decreases self.waiters.len() - i,
        {
            let waiter = self.waiters[i];
            assert(waiter == before.waiters[i as int]);
            if let WaitRequest::Signal { index, interest } = waiter.request {
                if interest & bits != 0 {
                    let _ = self.waiters.remove(i);
                    let handed: u64 = interest & bits;
                    let woken = waits.fulfill(waiter.thread, waiter.generation);
                    if !woken {
                        return None;
                    }
                    if clear_on_deliver {
                        self.mask = self.mask & !handed;
                    }
                    return Some(
                        Wakeup {
                            thread: waiter.thread,
                            reply: Reply::Done(pack_signal(index, handed)),
                        },
                    );
                }
            }
            i = i + 1;
        }
        None
    }

    /// Adds an entry behind all others.
    pub fn enroll(&mut self, waiter: ObjectWaiter)
        ensures
            final(self)@ == (SignalView {
                waiters: old(self)@.waiters.push(waiter),
                ..old(self)@
            }),
    {
        self.waiters.push(waiter);
    }

    /// The levels of `interest` that are raised.
    pub fn raised(&self, interest: u64) -> (r: u64)
        ensures
            r == self@.mask & interest,
    {
        self.mask & interest
    }

    /// Consumes levels.
    pub fn consume(&mut self, bits: u64)
        ensures
            final(self)@ == (SignalView { mask: old(self)@.mask & !bits, ..old(self)@ }),
    {
        self.mask = self.mask & !bits;
    }
}

/// A message on its way.
pub struct Message {
    pub sender: Pid,
    pub kind: usize,
    pub payload: Vec<u8>,
}

/// The same as a value.
#[verifier::ext_equal]
pub struct MessageView {
    pub sender: Pid,
    pub kind: usize,
    pub payload: Seq<u8>,
}

impl View for Message {
    type V = MessageView;

    open spec fn view(&self) -> MessageView {
        MessageView { sender: self.sender, kind: self.kind, payload: self.payload@ }
    }
}

/// What a receiver can learn of a message before taking it.
#[derive(Clone, Copy, Debug, PartialEq, Eq, Structural)]
pub struct MessageDigest {
    pub sender: Pid,
    pub kind: usize,
    pub payload_length: usize,
}

/// A buffer of a thread's process.
#[derive(Clone, Copy, Debug, PartialEq, Eq, Structural)]
pub struct UserBuffer {
    pub thread: ThreadIndex,
    pub address: usize,
}

/// What offering a message to waiting receivers does.
#[verifier::ext_equal]
pub struct Offered {
    /// How many entries it took out.
    pub gone: int,
    pub generations: Seq<u64>,
    pub wakeups: Seq<Wakeup>,
    /// The buffer that the message went to.
    pub taken: Option<UserBuffer>,
}

/// `wakeups` and the end of a wait, if it was not complete.
pub open spec fn and_wakeup(
    wakeups: Seq<Wakeup>,
    generations: Seq<u64>,
    waiter: ObjectWaiter,
    reply: Reply,
) -> Seq<Wakeup> {
    if current(generations, waiter.thread, waiter.generation) {
        wakeups.push(Wakeup { thread: waiter.thread, reply })
    } else {
        wakeups
    }
}

/// Offers a message of `size` bytes to the entries from `from` on, while they wait for
/// one. The first whose buffer is large enough and can be written (`writable`) takes it;
/// those before it fail.
pub open spec fn offered(
    waiters: Seq<ObjectWaiter>,
    writable: Seq<bool>,
    size: int,
    from: int,
    generations: Seq<u64>,
    wakeups: Seq<Wakeup>,
) -> Offered
    decreases waiters.len() - from,
{
    if from >= waiters.len() || !(waiters[from].request is Recv) {
        Offered { gone: from, generations, wakeups, taken: None }
    } else {
        let waiter = waiters[from];
        let after = completed(generations, waiter.thread, waiter.generation);
        if waiter.request->len < size {
            offered(
                waiters,
                writable,
                size,
                from + 1,
                after,
                and_wakeup(
                    wakeups,
                    generations,
                    waiter,
                    Reply::Failed(SystemCallError::IllegalArgument),
                ),
            )
        } else if !writable[from] {
            offered(
                waiters,
                writable,
                size,
                from + 1,
                after,
                and_wakeup(
                    wakeups,
                    generations,
                    waiter,
                    Reply::Failed(SystemCallError::MemoryNotAccessible),
                ),
            )
        } else {
            Offered {
                gone: from + 1,
                generations: after,
                wakeups: and_wakeup(wakeups, generations, waiter, Reply::Done(size as u64)),
                taken: Some(UserBuffer { thread: waiter.thread, address: waiter.request->buf }),
            }
        }
    }
}

/// A mailbox: messages in the order in which they came, at most as many as it has room
/// for, and its signals. It is readable while it holds a message.
pub struct Mailbox {
    queue: Vec<Message>,
    sig: SignalState,
    capacity: usize,
}

/// The same as a value.
#[verifier::ext_equal]
pub struct MailboxView {
    pub queue: Seq<MessageView>,
    pub signals: SignalView,
    pub capacity: usize,
}

/// The level of a mailbox says whether it holds a message, and it holds no more than it
/// has room for.
pub open spec fn level_matches(mailbox: MailboxView) -> bool {
    &&& mailbox.signals.mask & NONEMPTY != 0 <==> mailbox.queue.len() > 0
    &&& mailbox.queue.len() <= mailbox.capacity
}

/// What delivering a message does.
#[verifier::ext_equal]
pub struct Delivered {
    pub mailbox: MailboxView,
    pub generations: Seq<u64>,
    pub wakeups: Seq<Wakeup>,
    pub taken: Option<UserBuffer>,
    pub result: Result<(), SystemCallError>,
}

/// Delivers a message: to a receiver that waits, or else to the queue while it has room,
/// which is an event for those who wait for the level.
pub open spec fn delivered(
    mailbox: MailboxView,
    generations: Seq<u64>,
    message: MessageView,
    writable: Seq<bool>,
) -> Delivered {
    let offer = offered(
        mailbox.signals.waiters,
        writable,
        message.payload.len() as int,
        0,
        generations,
        Seq::empty(),
    );
    let signals = SignalView {
        mask: mailbox.signals.mask,
        waiters: mailbox.signals.waiters.skip(offer.gone),
    };
    if offer.taken is Some {
        Delivered {
            mailbox: MailboxView { signals, ..mailbox },
            generations: offer.generations,
            wakeups: offer.wakeups,
            taken: offer.taken,
            result: Ok(()),
        }
    } else if mailbox.queue.len() >= mailbox.capacity {
        Delivered {
            mailbox: MailboxView { signals, ..mailbox },
            generations: offer.generations,
            wakeups: offer.wakeups,
            taken: None,
            result: Err(SystemCallError::MailboxFull),
        }
    } else {
        let event = submitted(signals, offer.generations, NONEMPTY, false);
        Delivered {
            mailbox: MailboxView {
                queue: mailbox.queue.push(message),
                signals: event.signals,
                ..mailbox
            },
            generations: event.generations,
            wakeups: match event.wakeup {
                Some(wakeup) => offer.wakeups.push(wakeup),
                None => offer.wakeups,
            },
            taken: None,
            result: Ok(()),
        }
    }
}

/// The mailbox without its first message.
pub open spec fn without_first(mailbox: MailboxView) -> MailboxView {
    MailboxView {
        queue: mailbox.queue.drop_first(),
        signals: SignalView {
            mask: if mailbox.queue.len() == 1 {
                mailbox.signals.mask & !NONEMPTY
            } else {
                mailbox.signals.mask | NONEMPTY
            },
            ..mailbox.signals
        },
        ..mailbox
    }
}

/// What a delivery leaves behind.
pub struct Delivery {
    pub result: Result<(), SystemCallError>,
    /// The buffer that the message was copied to.
    pub taken: Option<UserBuffer>,
    /// The waits that completed, in order.
    pub wakeups: Vec<Wakeup>,
}

proof fn offered_is_bounded(
    waiters: Seq<ObjectWaiter>,
    writable: Seq<bool>,
    size: int,
    from: int,
    generations: Seq<u64>,
    wakeups: Seq<Wakeup>,
)
    requires
        0 <= from <= waiters.len(),
        threads_known(waiters, generations.len()),
    ensures
        ({
            let offer = offered(waiters, writable, size, from, generations, wakeups);
            from <= offer.gone <= waiters.len() && offer.generations.len() == generations.len()
        }),
    decreases waiters.len() - from,
{
    if from < waiters.len() && waiters[from].request is Recv {
        let waiter = waiters[from];
        let after = completed(generations, waiter.thread, waiter.generation);
        if waiter.request->len < size {
            offered_is_bounded(
                waiters,
                writable,
                size,
                from + 1,
                after,
                and_wakeup(
                    wakeups,
                    generations,
                    waiter,
                    Reply::Failed(SystemCallError::IllegalArgument),
                ),
            );
        } else if !writable[from] {
            offered_is_bounded(
                waiters,
                writable,
                size,
                from + 1,
                after,
                and_wakeup(
                    wakeups,
                    generations,
                    waiter,
                    Reply::Failed(SystemCallError::MemoryNotAccessible),
                ),
            );
        }
    }
}

/// Facts about the level of a mailbox.
proof fn level_facts(mask: u64)
    ensures
        (mask | NONEMPTY) & NONEMPTY != 0,
        (mask & !NONEMPTY) & NONEMPTY == 0,
{
    assert((mask | 0x1) & 0x1 != 0 && (mask & !0x1) & 0x1 == 0) by (bit_vector);
}

/// A delivery keeps the level in step with the queue, and the queue within its room.
pub proof fn delivery_keeps_the_level(
    mailbox: MailboxView,
    generations: Seq<u64>,
    message: MessageView,
    writable: Seq<bool>,
)
    requires
        level_matches(mailbox),
    ensures
        level_matches(delivered(mailbox, generations, message, writable).mailbox),
{
    level_facts(mailbox.signals.mask);
}

/// Taking a message keeps the level in step with the queue.
pub proof fn taking_keeps_the_level(mailbox: MailboxView)
    requires
        level_matches(mailbox),
        mailbox.queue.len() > 0,
    ensures
        level_matches(without_first(mailbox)),
{
    level_facts(mailbox.signals.mask);
}

/// A mailbox hands out messages in the order in which they came: a message that is queued
/// is the last to be taken of those that were there.
pub proof fn messages_keep_their_order(
    mailbox: MailboxView,
    generations: Seq<u64>,
    message: MessageView,
    writable: Seq<bool>,
)
    ensures
        ({
            let after = delivered(mailbox, generations, message, writable);
            &&& after.result is Ok && after.taken is None ==> after.mailbox.queue
                == mailbox.queue.push(message)
            &&& after.result is Err || after.taken is Some ==> after.mailbox.queue
                == mailbox.queue
        }),
        mailbox.queue.len() > 0 ==> mailbox.queue == seq![mailbox.queue[0]] + without_first(
            mailbox,
        ).queue,
{
    if mailbox.queue.len() > 0 {
        assert(mailbox.queue =~= seq![mailbox.queue[0]] + without_first(mailbox).queue);
    }
}

impl View for Mailbox {
    type V = MailboxView;

    closed spec fn view(&self) -> MailboxView {
        MailboxView {
            queue: self.queue@.map_values(|m: Message| m@),
            signals: self.sig@,
            capacity: self.capacity,
        }
    }
}

/// What receiving comes to at once.
#[derive(Clone, Copy, Debug)]
pub enum RecvOutcome {
    Done(Result<usize, SystemCallError>),
    /// There is no message; the thread is to wait.
    Block,
}

/// What receiving leaves behind.
pub struct Received {
    pub outcome: RecvOutcome,
    /// The message that is copied out; one that the buffer is too small for is lost.
    pub copied: Option<Message>,
}

impl Mailbox {
    pub open spec fn wf(&self) -> bool {
        level_matches(self@)
    }

    pub fn new(capacity: usize) -> (r: Mailbox)
        ensures
            r.wf(),
            r@ == (MailboxView {
                queue: Seq::empty(),
                signals: SignalView { mask: 0, waiters: Seq::empty() },
                capacity,
            }),
    {
        let r = Mailbox { queue: Vec::new(), sig: SignalState::new(), capacity };
        proof {
            assert(0u64 & 0x1 == 0) by (bit_vector);
            assert(r@.queue =~= Seq::empty());
        }
        r
    }

    /// Makes the level say whether there is a message.
    fn sync_nonempty(&mut self)
        ensures
            final(self)@ == (MailboxView {
                signals: SignalView {
                    mask: if old(self)@.queue.len() == 0 {
                        old(self)@.signals.mask & !NONEMPTY
                    } else {
                        old(self)@.signals.mask | NONEMPTY
                    },
                    ..old(self)@.signals
                },
                ..old(self)@
            }),
    {
        if self.queue.len() == 0 {
            self.sig.mask = self.sig.mask & !NONEMPTY;
        } else {
            self.sig.mask = self.sig.mask | NONEMPTY;
        }
    }

    /// Offers a message to those who wait for one.
    fn offer(&mut self, waits: &mut WaitTable, size: usize, writable: &Vec<bool>) -> (r: (
        Option<UserBuffer>,
        Vec<Wakeup>,
    ))
        requires
            threads_known(old(self)@.signals.waiters, old(waits)@.len()),
            writable.len() == old(self)@.signals.waiters.len(),
        ensures
            ({
                let offer = offered(
                    old(self)@.signals.waiters,
                    writable@,
                    size as int,
                    0,
                    old(waits)@,
                    Seq::empty(),
                );
                &&& final(self)@ == (MailboxView {
                    signals: SignalView {
                        waiters: old(self)@.signals.waiters.skip(offer.gone),
                        ..old(self)@.signals
                    },
                    ..old(self)@
                })
                &&& final(waits)@ == offer.generations
                &&& r.0 == offer.taken
                &&& r.1@ == offer.wakeups
            }),
            final(waits)@.len() == old(waits)@.len(),
            threads_known(final(self)@.signals.waiters, final(waits)@.len()),
    {
        let ghost before = self@;
        let ghost waiters = self@.signals.waiters;
        let ghost generations = waits@;
        proof {
            offered_is_bounded(waiters, writable@, size as int, 0, generations, Seq::empty());
        }
        let mut wakeups: Vec<Wakeup> = Vec::new();
        let mut taken: Option<UserBuffer> = None;
        let mut i: usize = 0;
        let mut more = true;
        while more && i < self.sig.waiters.len()
            invariant
                i <= self.sig.waiters.len(),
                self@ == before,
                self.sig.waiters@ == waiters,
                waits@.len() == generations.len(),
                threads_known(waiters, generations.len()),
                writable.len() == waiters.len(),
                more ==> taken is None && offered(
                    waiters,
                    writable@,
                    size as int,
                    0,
                    generations,
                    Seq::empty(),
                ) == offered(waiters, writable@, size as int, i as int, waits@, wakeups@),
                !more ==> offered(waiters, writable@, size as int, 0, generations, Seq::empty())
                    == (Offered { gone: i as int, generations: waits@, wakeups: wakeups@, taken }),
            decreases self.sig.waiters.len() - i, (if more { 1int } else { 0int }),
        {
            let waiter = self.sig.waiters[i];
            assert(waiter == waiters[i as int]);
            match waiter.request {
                WaitRequest::Signal { .. } => {
                    more = false;
                },
                WaitRequest::Recv { buf, len } => {
                    i = i + 1;
                    let reply = if len < size {
                        Reply::Failed(SystemCallError::IllegalArgument)
                    } else if !writable[i - 1] {
                        Reply::Failed(SystemCallError::MemoryNotAccessible)
                    } else {
                        more = false;
                        taken = Some(UserBuffer { thread: waiter.thread, address: buf });
                        Reply::Done(size as u64)
                    };
                    if waits.fulfill(waiter.thread, waiter.generation) {
                        wakeups.push(Wakeup { thread: waiter.thread, reply });
                    }
                },
            }
        }
        let rest = self.sig.waiters.split_off(i);
        self.sig.waiters = rest;
        proof {
            assert(self@.signals.waiters =~= waiters.skip(i as int));
        }
        (taken, wakeups)
    }

    /// Delivers a message. `writable` says of each entry in turn whether its buffer can be
    /// written.
    pub fn deliver(&mut self, waits: &mut WaitTable, message: Message, writable: &Vec<bool>) -> (r:
        Delivery)
        requires
            old(self).wf(),
            threads_known(old(self)@.signals.waiters, old(waits)@.len()),
            writable.len() == old(self)@.signals.waiters.len(),
        ensures
            final(self).wf(),
            final(waits)@.len() == old(waits)@.len(),
            threads_known(final(self)@.signals.waiters, final(waits)@.len()),
            (Delivered {
                mailbox: final(self)@,
                generations: final(waits)@,
                wakeups: r.wakeups@,
                taken: r.taken,
                result: r.result,
            }) == delivered(old(self)@, old(waits)@, message@, writable@),
    {
        let ghost before = self@;
        let ghost generations = waits@;
        proof {
            delivery_keeps_the_level(before, generations, message@, writable@);
        }
        let (taken, wakeups) = self.offer(waits, message.payload.len(), writable);
        if taken.is_some() {
            return Delivery { result: Ok(()), taken, wakeups };
        }
        proof {
            assert(self.queue.len() == self@.queue.len());
        }
        if self.queue.len() >= self.capacity {
            return Delivery { result: Err(SystemCallError::MailboxFull), taken: None, wakeups };
        }
        let mut wakeups = wakeups;
        let ghost queue = self@.queue;
        let ghost added = message@;
        let ghost offer = self@;
        self.queue.push(message);
        proof {
            assert(self@.queue =~= queue.push(added));
        }
        self.sync_nonempty();
        proof {
            let mask = offer.signals.mask;
            assert(((mask | 0x1) | 0x1) == mask | 0x1) by (bit_vector);
        }
        let wakeup = self.sig.submit(waits, NONEMPTY, false);
        if let Some(one) = wakeup {
            wakeups.push(one);
        }
        Delivery { result: Ok(()), taken: None, wakeups }
    }

    /// Takes the first message.
    pub fn take(&mut self) -> (r: Option<Message>)
        requires
            old(self).wf(),
        ensures
            final(self).wf(),
            match r {
                None => old(self)@.queue.len() == 0 && final(self)@ == old(self)@,
                Some(message) => old(self)@.queue.len() > 0 && message@ == old(self)@.queue[0]
                    && final(self)@ == without_first(old(self)@),
            },
    {
        let ghost before = self@;
        assert(self.queue.len() == self@.queue.len());
        if self.queue.len() == 0 {
            return None;
        }
        proof {
            taking_keeps_the_level(before);
        }
        let message = self.queue.remove(0);
        proof {
            assert(self@.queue =~= before.queue.drop_first());
        }
        self.sync_nonempty();
        Some(message)
    }

    /// What the first message is.
    pub fn front(&self) -> (r: Option<MessageDigest>)
        ensures
            match r {
                None => self@.queue.len() == 0,
                Some(digest) => self@.queue.len() > 0 && digest.sender == self@.queue[0].sender
                    && digest.kind == self@.queue[0].kind && digest.payload_length
                    == self@.queue[0].payload.len(),
            },
    {
        assert(self.queue.len() == self@.queue.len());
        if self.queue.len() == 0 {
            return None;
        }
        let message = &self.queue[0];
        Some(
            MessageDigest {
                sender: message.sender,
                kind: message.kind,
                payload_length: message.payload.len(),
            },
        )
    }

    /// Tells a thread what the first message is, without taking it; `written` is what
    /// writing that to the thread's buffer gave.
    pub fn peek(&self, written: Result<(), SystemCallError>) -> (r: Result<
        usize,
        SystemCallError,
    >)
        ensures
            match r {
                Ok(length) => self@.queue.len() > 0 && written is Ok && length
                    == self@.queue[0].payload.len(),
                Err(error) => if self@.queue.len() == 0 {
                    error == SystemCallError::ObjectNotAvailable
                } else {
                    written == Err::<(), _>(error)
                },
            },
    {
        match self.front() {
            None => Err(SystemCallError::ObjectNotAvailable),
            Some(digest) => match written {
                Ok(()) => Ok(digest.payload_length),
                Err(error) => Err(error),
            },
        }
    }

    /// Throws the first message away.
    pub fn discard(&mut self) -> (r: Result<(), SystemCallError>)
        requires
            old(self).wf(),
        ensures
            final(self).wf(),
            match r {
                Ok(()) => old(self)@.queue.len() > 0 && final(self)@ == without_first(
                    old(self)@,
                ),
                Err(error) => old(self)@.queue.len() == 0 && error
                    == SystemCallError::ObjectNotAvailable && final(self)@ == old(self)@,
            },
    {
        match self.take() {
            Some(_) => Ok(()),
            None => Err(SystemCallError::ObjectNotAvailable),
        }
    }

    /// Takes the first message for a buffer of `len` bytes; `copied` is what copying a
    /// message there gives. A message that the buffer is too small for is taken too.
    pub fn receive(&mut self, len: usize, copied: Result<(), SystemCallError>) -> (r: Received)
        requires
            old(self).wf(),
        ensures
            final(self).wf(),
            final(self)@ == if len == 0 || old(self)@.queue.len() == 0 {
                old(self)@
            } else {
                without_first(old(self)@)
            },
            match r.outcome {
                RecvOutcome::Block => len > 0 && old(self)@.queue.len() == 0,
                RecvOutcome::Done(result) => len == 0 || old(self)@.queue.len() > 0,
            },
            r.outcome matches RecvOutcome::Done(result) ==> match result {
                Ok(size) => size == old(self)@.queue[0].payload.len() && size <= len && len > 0
                    && copied is Ok,
                Err(error) => if len == 0 || len < old(self)@.queue[0].payload.len() {
                    error == SystemCallError::IllegalArgument
                } else {
                    copied == Err::<(), _>(error)
                },
            },
            match r.copied {
                Some(message) => len > 0 && old(self)@.queue.len() > 0 && message@
                    == old(self)@.queue[0] && message@.payload.len() <= len,
                None => len == 0 || old(self)@.queue.len() == 0 || len
                    < old(self)@.queue[0].payload.len(),
            },
    {
        if len == 0 {
            return Received {
                outcome: RecvOutcome::Done(Err(SystemCallError::IllegalArgument)),
                copied: None,
            };
        }
        let message = match self.take() {
            None => {
                return Received { outcome: RecvOutcome::Block, copied: None };
            },
            Some(message) => message,
        };
        let size: usize = message.payload.len();
        if len < size {
            return Received {
                outcome: RecvOutcome::Done(Err(SystemCallError::IllegalArgument)),
                copied: None,
            };
        }
        let outcome = match copied {
            Ok(()) => RecvOutcome::Done(Ok(size)),
            Err(error) => RecvOutcome::Done(Err(error)),
        };
        Received { outcome, copied: Some(message) }
    }
}

/// What a process can wait for.
#[derive(Clone, Copy, Debug, PartialEq, Eq, Structural)]
pub enum SigTarget {
    /// Its own signals.
    Process,
    /// Its mailbox.
    Mailbox,
}

/// One item of a wait, as a process writes it.
#[derive(Clone, Copy, Debug, PartialEq, Eq, Structural)]
pub struct SignalItem {
    /// Zero for the process, one for its mailbox.
    pub kind: u64,
    pub interest: u64,
}

/// How a wait for signals goes on.
pub enum WaitPlan {
    /// One of the levels is raised; the wait is over.
    Now { index: usize, bits: u64 },
    /// None is; the thread is to wait for these.
    Park(Vec<(SigTarget, u64)>),
}

/// The object that an item names.
pub open spec fn target_of(kind: u64) -> Option<SigTarget> {
    if kind == 0 {
        Some(SigTarget::Process)
    } else if kind == 1 {
        Some(SigTarget::Mailbox)
    } else {
        None
    }
}

/// What is raised of an object, given the levels of a process and of its mailbox.
pub open spec fn mask_of(target: SigTarget, process: u64, mailbox: u64) -> u64 {
    match target {
        SigTarget::Process => process,
        SigTarget::Mailbox => mailbox,
    }
}

/// What the first item decides that decides anything.
pub enum WaitVerdict {
    Refused(SystemCallError),
    Hit { index: int, target: SigTarget, interest: u64 },
    Nothing,
}

/// Looks at the items in order. One that is no valid item ends the wait with an error, one
/// whose level is raised completes it.
pub open spec fn wait_verdict(
    items: Seq<SignalItem>,
    from: int,
    process: u64,
    mailbox: u64,
) -> WaitVerdict
    decreases items.len() - from,
{
    if from >= items.len() {
        WaitVerdict::Nothing
    } else if items[from].interest == 0 {
        WaitVerdict::Refused(SystemCallError::IllegalArgument)
    } else {
        match target_of(items[from].kind) {
            None => WaitVerdict::Refused(SystemCallError::NotSupported),
            Some(target) => if mask_of(target, process, mailbox) & items[from].interest != 0 {
                WaitVerdict::Hit { index: from, target, interest: items[from].interest }
            } else {
                wait_verdict(items, from + 1, process, mailbox)
            },
        }
    }
}

/// The object and the levels of an item.
pub open spec fn as_target(item: SignalItem) -> (SigTarget, u64) {
    (target_of(item.kind)->0, item.interest)
}

/// What a process has for others to send to.
pub struct Port {
    pid: Pid,
    mailbox: Mailbox,
    signals: SignalState,
}

/// The same as a value.
#[verifier::ext_equal]
pub struct PortView {
    pub pid: Pid,
    pub mailbox: MailboxView,
    pub signals: SignalView,
}

impl View for Port {
    type V = PortView;

    closed spec fn view(&self) -> PortView {
        PortView { pid: self.pid, mailbox: self.mailbox@, signals: self.signals@ }
    }
}

/// The threads that wait at a port are among `count`.
pub open spec fn port_threads_known(port: PortView, count: nat) -> bool {
    threads_known(port.mailbox.signals.waiters, count) && threads_known(
        port.signals.waiters,
        count,
    )
}

/// The port once levels of an object were consumed: those of the process are, the level of
/// its mailbox is not.
pub open spec fn after_hit(port: PortView, target: SigTarget, interest: u64) -> PortView {
    match target {
        SigTarget::Process => PortView {
            signals: SignalView { mask: port.signals.mask & !interest, ..port.signals },
            ..port
        },
        SigTarget::Mailbox => port,
    }
}

/// The port with one more entry for an object.
pub open spec fn with_entry(
    port: PortView,
    target: SigTarget,
    waiter: ObjectWaiter,
) -> PortView {
    match target {
        SigTarget::Process => PortView {
            signals: SignalView { waiters: port.signals.waiters.push(waiter), ..port.signals },
            ..port
        },
        SigTarget::Mailbox => PortView {
            mailbox: MailboxView {
                signals: SignalView {
                    waiters: port.mailbox.signals.waiters.push(waiter),
                    ..port.mailbox.signals
                },
                ..port.mailbox
            },
            ..port
        },
    }
}

/// What putting a thread among the waiting does.
#[verifier::ext_equal]
pub struct Published {
    pub port: PortView,
    /// The item whose level is raised by now, and the levels.
    pub hit: Option<(int, u64)>,
}

/// Makes an entry for each item in turn, until one has its level raised.
pub open spec fn published(
    port: PortView,
    thread: ThreadIndex,
    generation: u64,
    targets: Seq<(SigTarget, u64)>,
    from: int,
) -> Published
    decreases targets.len() - from,
{
    if from >= targets.len() {
        Published { port, hit: None }
    } else {
        let (target, interest) = targets[from];
        let raised = mask_of(target, port.signals.mask, port.mailbox.signals.mask) & interest;
        if raised != 0 {
            Published { port: after_hit(port, target, interest), hit: Some((from, raised)) }
        } else {
            let waiter = ObjectWaiter {
                thread,
                generation,
                request: WaitRequest::Signal { index: from as usize, interest },
            };
            published(with_entry(port, target, waiter), thread, generation, targets, from + 1)
        }
    }
}

/// Where one item of a wait is complete at once, the entries that were made for those before
/// it can complete nothing any more.
pub proof fn abandoned_entries_are_dead(generations: Seq<u64>, thread: ThreadIndex)
    requires
        thread < generations.len(),
    ensures
        ({
            let begun = moved_on(generations, thread);
            let generation = begun[thread as int];
            !current(moved_on(begun, thread), thread, generation)
        }),
{
}

/// What publishing a receive comes to: the reply, if the thread is ready at once, and the
/// message that is copied out.
pub struct PublishedRecv {
    pub wakeup: Option<Wakeup>,
    pub copied: Option<Message>,
}

impl Port {
    pub open spec fn wf(&self) -> bool {
        level_matches(self@.mailbox)
    }

    pub fn new(pid: Pid, capacity: usize) -> (r: Port)
        ensures
            r.wf(),
            r@ == (PortView {
                pid,
                mailbox: MailboxView {
                    queue: Seq::empty(),
                    signals: SignalView { mask: 0, waiters: Seq::empty() },
                    capacity,
                },
                signals: SignalView { mask: 0, waiters: Seq::empty() },
            }),
    {
        Port { pid, mailbox: Mailbox::new(capacity), signals: SignalState::new() }
    }

    pub fn pid(&self) -> (r: Pid)
        ensures
            r == self@.pid,
    {
        self.pid
    }

    /// The mailbox, for the threads of the process.
    pub fn mailbox_mut(&mut self) -> (r: &mut Mailbox)
        ensures
            r@ == old(self)@.mailbox,
            final(self)@ == (PortView { mailbox: final(r)@, ..old(self)@ }),
    {
        &mut self.mailbox
    }

    fn raised(&self, target: SigTarget, interest: u64) -> (r: u64)
        ensures
            r == mask_of(target, self@.signals.mask, self@.mailbox.signals.mask) & interest,
    {
        match target {
            SigTarget::Process => self.signals.raised(interest),
            SigTarget::Mailbox => self.mailbox.sig.raised(interest),
        }
    }

    fn hit(&mut self, target: SigTarget, interest: u64)
        ensures
            final(self)@ == after_hit(old(self)@, target, interest),
    {
        match target {
            SigTarget::Process => {
                self.signals.consume(interest);
            },
            SigTarget::Mailbox => {},
        }
    }

    /// Waits for one of several levels. There are `count` items, at most `limit`, and
    /// `items` is what reading them gave. The levels of the process are consumed, that of
    /// its mailbox is only reported.
    pub fn signal_wait(
        &mut self,
        count: usize,
        limit: usize,
        items: Result<Vec<SignalItem>, SystemCallError>,
    ) -> (r: Result<WaitPlan, SystemCallError>)
        requires
            old(self).wf(),
            items matches Ok(list) ==> list.len() == count,
        ensures
            final(self).wf(),
            count == 0 || count > limit ==> r == Err::<WaitPlan, _>(
                SystemCallError::IllegalArgument,
            ) && final(self)@ == old(self)@,
            0 < count <= limit ==> match items {
                Err(error) => r == Err::<WaitPlan, _>(error) && final(self)@ == old(self)@,
                Ok(list) => match wait_verdict(
                    list@,
                    0,
                    old(self)@.signals.mask,
                    old(self)@.mailbox.signals.mask,
                ) {
                    WaitVerdict::Refused(error) => r == Err::<WaitPlan, _>(error)
                        && final(self)@ == old(self)@,
                    WaitVerdict::Hit { index, target, interest } => r == Ok::<
                        WaitPlan,
                        SystemCallError,
                    >(
                        WaitPlan::Now {
                            index: index as usize,
                            bits: mask_of(
                                target,
                                old(self)@.signals.mask,
                                old(self)@.mailbox.signals.mask,
                            ) & interest,
                        },
                    ) && final(self)@ == after_hit(old(self)@, target, interest),
                    WaitVerdict::Nothing => r matches Ok(plan) && plan matches WaitPlan::Park(
                        targets,
                    ) && targets@ == list@.map_values(|item: SignalItem| as_target(item))
                        && final(self)@ == old(self)@,
                },
            },
    {
        if count == 0 || count > limit {
            return Err(SystemCallError::IllegalArgument);
        }
        let list = match items {
            Err(error) => {
                return Err(error);
            },
            Ok(read) => read,
        };
        let mut plan: Vec<(SigTarget, u64)> = Vec::new();
        let mut index: usize = 0;
        while index < list.len()
            invariant
                index <= list.len(),
                0 < count <= limit,
                items == Ok::<Vec<SignalItem>, SystemCallError>(list),
                self@ == old(self)@,
                self.wf(),
                plan@ == list@.take(index as int).map_values(|item: SignalItem| as_target(item)),
                wait_verdict(list@, 0, self@.signals.mask, self@.mailbox.signals.mask)
                    == wait_verdict(
                    list@,
                    index as int,
                    self@.signals.mask,
                    self@.mailbox.signals.mask,
                ),
            decreases list.len() - index,
        {
            let item = list[index];
            if item.interest == 0 {
                return Err(SystemCallError::IllegalArgument);
            }
            let target = if item.kind == 0 {
                SigTarget::Process
            } else if item.kind == 1 {
                SigTarget::Mailbox
            } else {
                return Err(SystemCallError::NotSupported);
            };
            let bits: u64 = self.raised(target, item.interest);
            if bits != 0 {
                self.hit(target, item.interest);
                return Ok(WaitPlan::Now { index, bits });
            }
            plan.push((target, item.interest));
            index = index + 1;
            proof {
                assert(plan@ =~= list@.take(index as int).map_values(
                    |item: SignalItem| as_target(item),
                ));
            }
        }
        proof {
            assert(list@.take(list.len() as int) =~= list@);
        }
        Ok(WaitPlan::Park(plan))
    }

    /// Puts a thread that is to wait for a message among the waiting, unless one has come
    /// since; `copied` is what copying a message to its buffer gives.
    pub fn publish_recv(
        &mut self,
        waits: &mut WaitTable,
        thread: ThreadIndex,
        buf: usize,
        len: usize,
        copied: Result<(), SystemCallError>,
    ) -> (r: PublishedRecv)
        requires
            old(self).wf(),
            thread < old(waits)@.len(),
        ensures
            final(self).wf(),
            final(waits)@ == moved_on(old(waits)@, thread),
            old(self)@.mailbox.queue.len() == 0 ==> r.wakeup is None && r.copied is None
                && final(self)@ == with_entry(
                old(self)@,
                SigTarget::Mailbox,
                ObjectWaiter {
                    thread,
                    generation: final(waits)@[thread as int],
                    request: WaitRequest::Recv { buf, len },
                },
            ),
            old(self)@.mailbox.queue.len() > 0 ==> {
                let message = old(self)@.mailbox.queue[0];
                &&& final(self)@ == (PortView {
                    mailbox: without_first(old(self)@.mailbox),
                    ..old(self)@
                })
                &&& r.wakeup == Some(
                    Wakeup {
                        thread,
                        reply: if len < message.payload.len() {
                            Reply::Failed(SystemCallError::IllegalArgument)
                        } else {
                            match copied {
                                Ok(_) => Reply::Done(message.payload.len() as u64),
                                Err(error) => Reply::Failed(error),
                            }
                        },
                    },
                )
                &&& match r.copied {
                    Some(one) => one@ == message && message.payload.len() <= len,
                    None => len < message.payload.len(),
                }
            },
    {
        let generation: u64 = waits.begin(thread);
        let ghost before = self@;
        match self.mailbox.take() {
            Some(message) => {
                let size: usize = message.payload.len();
                if len < size {
                    let reply = Reply::Failed(SystemCallError::IllegalArgument);
                    return PublishedRecv { wakeup: Some(Wakeup { thread, reply }), copied: None };
                }
                let reply = match copied {
                    Ok(()) => Reply::Done(size as u64),
                    Err(error) => Reply::Failed(error),
                };
                PublishedRecv { wakeup: Some(Wakeup { thread, reply }), copied: Some(message) }
            },
            None => {
                let request = WaitRequest::Recv { buf, len };
                self.mailbox.sig.enroll(ObjectWaiter { thread, generation, request });
                PublishedRecv { wakeup: None, copied: None }
            },
        }
    }

    /// Puts a thread that is to wait for levels among the waiting. Where a level has been
    /// raised since, the thread goes on with it, and the entries that were made are void.
    pub fn publish_signal_wait(
        &mut self,
        waits: &mut WaitTable,
        thread: ThreadIndex,
        targets: &Vec<(SigTarget, u64)>,
    ) -> (r: Option<Wakeup>)
        requires
            old(self).wf(),
            thread < old(waits)@.len(),
            port_threads_known(old(self)@, old(waits)@.len()),
        ensures
            final(self).wf(),
            port_threads_known(final(self)@, final(waits)@.len()),
            ({
                let begun = moved_on(old(waits)@, thread);
                let end = published(old(self)@, thread, begun[thread as int], targets@, 0);
                &&& final(self)@ == end.port
                &&& match end.hit {
                    None => r is None && final(waits)@ == begun,
                    Some((index, bits)) => final(waits)@ == moved_on(begun, thread) && r == Some(
                        Wakeup { thread, reply: Reply::Done(signal_word(index as usize, bits)) },
                    ),
                }
            }),
    {
        let generation: u64 = waits.begin(thread);
        let ghost begun = waits@;
        let ghost end = published(self@, thread, generation, targets@, 0);
        let mut index: usize = 0;
        while index < targets.len()
            invariant
                index <= targets.len(),
                self.wf(),
                waits@ == begun,
                thread < begun.len(),
                generation == begun[thread as int],
                begun == moved_on(old(waits)@, thread),
                port_threads_known(self@, waits@.len()),
                end == published(old(self)@, thread, generation, targets@, 0),
                end == published(self@, thread, generation, targets@, index as int),
            decreases targets.len() - index,
        {
            let target = targets[index].0;
            let interest: u64 = targets[index].1;
            let bits: u64 = self.raised(target, interest);
            if bits != 0 {
                self.hit(target, interest);
                waits.move_on(thread);
                return Some(Wakeup { thread, reply: Reply::Done(pack_signal(index, bits)) });
            }
            let ghost port = self@;
            let request = WaitRequest::Signal { index, interest };
            let waiter = ObjectWaiter { thread, generation, request };
            match target {
                SigTarget::Process => {
                    self.signals.enroll(waiter);
                },
                SigTarget::Mailbox => {
                    self.mailbox.sig.enroll(waiter);
                },
            }
            proof {
                assert(self@ == with_entry(port, target, waiter));
            }
            index = index + 1;
        }
        None
    }
}

/// The kernel's mailbox and the ports of all processes. Process identity zero stands for the
/// kernel.
pub struct Exchange {
    kernel: Mailbox,
    ports: Vec<Port>,
}

/// The same as a value.
#[verifier::ext_equal]
pub struct ExchangeView {
    pub kernel: MailboxView,
    pub ports: Seq<PortView>,
}

impl View for Exchange {
    type V = ExchangeView;

    closed spec fn view(&self) -> ExchangeView {
        ExchangeView { kernel: self.kernel@, ports: self.ports@.map_values(|p: Port| p@) }
    }
}

/// The port of a process, from `from` on.
pub open spec fn port_of(ports: Seq<PortView>, pid: Pid, from: int) -> Option<int>
    decreases ports.len() - from,
{
    if from >= ports.len() {
        None
    } else if ports[from].pid == pid {
        Some(from)
    } else {
        port_of(ports, pid, from + 1)
    }
}

proof fn port_of_is_found(ports: Seq<PortView>, pid: Pid, from: int)
    requires
        0 <= from,
    ensures
        match port_of(ports, pid, from) {
            Some(i) => from <= i < ports.len() && ports[i].pid == pid && forall|j: int|
                from <= j < i ==> (#[trigger] ports[j]).pid != pid,
            None => forall|j: int| from <= j < ports.len() ==> (#[trigger] ports[j]).pid != pid,
        },
    decreases ports.len() - from,
{
    if from < ports.len() && ports[from].pid != pid {
        port_of_is_found(ports, pid, from + 1);
    }
}

/// Where a message goes.
pub enum Destination {
    Kernel,
    Port(int),
    Nowhere,
}

/// Where a message for `target` goes.
pub open spec fn destination(exchange: ExchangeView, target: Pid) -> Destination {
    if target == 0 {
        Destination::Kernel
    } else {
        match port_of(exchange.ports, target, 0) {
            Some(i) => Destination::Port(i),
            None => Destination::Nowhere,
        }
    }
}

/// The mailbox at a destination.
pub open spec fn mailbox_at(exchange: ExchangeView, place: Destination) -> MailboxView {
    match place {
        Destination::Port(i) => exchange.ports[i].mailbox,
        _ => exchange.kernel,
    }
}

/// The exchange with another mailbox at a destination.
pub open spec fn with_mailbox(
    exchange: ExchangeView,
    place: Destination,
    mailbox: MailboxView,
) -> ExchangeView {
    match place {
        Destination::Kernel => ExchangeView { kernel: mailbox, ..exchange },
        Destination::Port(i) => ExchangeView {
            ports: exchange.ports.update(i, PortView { mailbox, ..exchange.ports[i] }),
            ..exchange
        },
        Destination::Nowhere => exchange,
    }
}

/// What sending leaves behind.
pub struct Sent {
    pub result: Result<usize, SystemCallError>,
    pub taken: Option<UserBuffer>,
    pub wakeups: Vec<Wakeup>,
}

impl Exchange {
    /// Every port and the kernel's mailbox are sound, and the threads that wait at them are
    /// among `count`.
    pub open spec fn wf(&self, count: nat) -> bool {
        &&& level_matches(self@.kernel)
        &&& threads_known(self@.kernel.signals.waiters, count)
        &&& forall|i: int|
            0 <= i < self@.ports.len() ==> level_matches((#[trigger] self@.ports[i]).mailbox)
                && port_threads_known(self@.ports[i], count)
    }

    pub fn new(capacity: usize) -> (r: Exchange)
        ensures
            r.wf(0),
            r@.kernel.queue == Seq::<MessageView>::empty(),
            r@.kernel.signals == (SignalView { mask: 0, waiters: Seq::empty() }),
            r@.kernel.capacity == capacity,
            r@.ports == Seq::<PortView>::empty(),
    {
        let r = Exchange { kernel: Mailbox::new(capacity), ports: Vec::new() };
        proof {
            assert(r@.ports =~= Seq::<PortView>::empty());
        }
        r
    }

    /// Adds the port of a process.
    pub fn add_port(&mut self, port: Port)
        ensures
            final(self)@ == (ExchangeView { ports: old(self)@.ports.push(port@), ..old(self)@ }),
    {
        let ghost before = self@;
        self.ports.push(port);
        proof {
            assert(self@.ports =~= before.ports.push(port@));
        }
    }

    /// A port, for the threads of its process.
    pub fn port_mut(&mut self, i: usize) -> (r: &mut Port)
        requires
            i < old(self)@.ports.len(),
        ensures
            r@ == old(self)@.ports[i as int],
            final(self)@ == (ExchangeView {
                ports: old(self)@.ports.update(i as int, final(r)@),
                ..old(self)@
            }),
    {
        proof {
            assert(self@.ports.len() == self.ports.len());
            assert forall|p: Port|
                (#[trigger] self.ports@.update(i as int, p)).map_values(|p: Port| p@)
                    == self@.ports.update(i as int, p@) by {
                assert(self.ports@.update(i as int, p).map_values(|p: Port| p@)
                    =~= self@.ports.update(i as int, p@));
            }
        }
        &mut self.ports[i]
    }

    /// The port of a process, if there is one.
    pub fn lookup(&self, pid: Pid) -> (r: Option<usize>)
        ensures
            match r {
                Some(i) => port_of(self@.ports, pid, 0) == Some(i as int) && i < self@.ports.len(),
                None => port_of(self@.ports, pid, 0) is None,
            },
    {
        let mut i: usize = 0;
        while i < self.ports.len()
            invariant
                i <= self.ports.len(),
                self.ports.len() == self@.ports.len(),
                port_of(self@.ports, pid, 0) == port_of(self@.ports, pid, i as int),
            decreases self.ports.len() - i,
        {
            assert(self.ports[i as int]@ == self@.ports[i as int]);
            if self.ports[i].pid == pid {
                return Some(i);
            }
            i = i + 1;
        }
        None
    }

    /// Sends a message of `len` bytes, at most `limit`; it never waits. `payload` is what
    /// reading it gave, `writable` says of each entry at its destination whether its buffer
    /// can be written.
    pub fn send(
        &mut self,
        waits: &mut WaitTable,
        sender: Pid,
        payload: Result<Vec<u8>, SystemCallError>,
        len: usize,
        limit: usize,
        target: Pid,
        kind: usize,
        writable: &Vec<bool>,
    ) -> (r: Sent)
        requires
            old(self).wf(old(waits)@.len()),
            payload matches Ok(bytes) ==> bytes.len() == len,
            writable.len() == mailbox_at(
                old(self)@,
                destination(old(self)@, target),
            ).signals.waiters.len(),
        ensures
            final(waits)@.len() == old(waits)@.len(),
            final(self).wf(final(waits)@.len()),
            ({
                let place = destination(old(self)@, target);
                let mailbox = mailbox_at(old(self)@, place);
                let refusal = if len > limit {
                    Some(SystemCallError::IllegalArgument)
                } else if payload is Err {
                    Some(payload->Err_0)
                } else if place is Nowhere {
                    Some(SystemCallError::ObjectNotFound)
                } else {
                    None
                };
                match refusal {
                    Some(error) => r.result == Err::<usize, _>(error) && final(self)@
                        == old(self)@ && final(waits)@ == old(waits)@ && r.taken is None
                        && r.wakeups@ == Seq::<Wakeup>::empty(),
                    None => {
                        let message = MessageView { sender, kind, payload: payload->Ok_0@ };
                        let end = delivered(mailbox, old(waits)@, message, writable@);
                        &&& final(self)@ == with_mailbox(old(self)@, place, end.mailbox)
                        &&& final(waits)@ == end.generations
                        &&& r.taken == end.taken
                        &&& r.wakeups@ == end.wakeups
                        &&& r.result == match end.result {
                            Ok(_) => Ok::<usize, SystemCallError>(len),
                            Err(error) => Err(error),
                        }
                    },
                }
            }),
    {
        if len > limit {
            return Sent {
                result: Err(SystemCallError::IllegalArgument),
                taken: None,
                wakeups: Vec::new(),
            };
        }
        let payload = match payload {
            Err(error) => {
                return Sent { result: Err(error), taken: None, wakeups: Vec::new() };
            },
            Ok(bytes) => bytes,
        };
        let ghost before = self@;
        let ghost count = waits@.len();
        let message = Message { sender, kind, payload };
        let delivery = if target == 0 {
            self.kernel.deliver(waits, message, writable)
        } else {
            match self.lookup(target) {
                None => {
                    return Sent {
                        result: Err(SystemCallError::ObjectNotFound),
                        taken: None,
                        wakeups: Vec::new(),
                    };
                },
                Some(i) => {
                    assert(self.ports[i as int]@ == before.ports[i as int]);
                    let delivery = self.ports[i].mailbox.deliver(waits, message, writable);
                    proof {
                        assert(self@.ports =~= with_mailbox(
                            before,
                            Destination::Port(i as int),
                            self.ports[i as int]@.mailbox,
                        ).ports);
                    }
                    delivery
                },
            }
        };
        proof {
            assert(waits@.len() == count);
        }
        let result = match delivery.result {
            Ok(()) => Ok(len),
            Err(error) => Err(error),
        };
        Sent { result, taken: delivery.taken, wakeups: delivery.wakeups }
    }

    /// Raises levels of a process. The thread that woke, if one did; else the levels stay
    /// raised.
    pub fn signal_send(&mut self, waits: &mut WaitTable, pid: Pid, mask: u64) -> (r: Result<
        Option<Wakeup>,
        SystemCallError,
    >)
        requires
            old(self).wf(old(waits)@.len()),
        ensures
            final(waits)@.len() == old(waits)@.len(),
            final(self).wf(final(waits)@.len()),
            mask == 0 ==> r == Err::<Option<Wakeup>, _>(SystemCallError::IllegalArgument),
            mask != 0 && !(destination(old(self)@, pid) is Port) ==> r == Err::<
                Option<Wakeup>,
                _,
            >(SystemCallError::ObjectNotFound),
            r is Err ==> final(self)@ == old(self)@ && final(waits)@ == old(waits)@,
            mask != 0 ==> match destination(old(self)@, pid) {
                Destination::Port(i) => {
                    let port = old(self)@.ports[i];
                    let event = submitted(port.signals, old(waits)@, mask, true);
                    &&& r == Ok::<Option<Wakeup>, SystemCallError>(event.wakeup)
                    &&& final(waits)@ == event.generations
                    &&& final(self)@ == (ExchangeView {
                        ports: old(self)@.ports.update(
                            i,
                            PortView { signals: event.signals, ..port },
                        ),
                        ..old(self)@
                    })
                },
                _ => true,
            },
    {
        if mask == 0 {
            return Err(SystemCallError::IllegalArgument);
        }
        if pid == 0 {
            return Err(SystemCallError::ObjectNotFound);
        }
        let ghost before = self@;
        match self.lookup(pid) {
            None => Err(SystemCallError::ObjectNotFound),
            Some(i) => {
                assert(self.ports[i as int]@ == before.ports[i as int]);
                let wakeup = self.ports[i].signals.submit(waits, mask, true);
                proof {
                    assert(self@.ports =~= before.ports.update(
                        i as int,
                        PortView {
                            signals: self.ports[i as int]@.signals,
                            ..before.ports[i as int]
                        },
                    ));
                }
                Ok(wakeup)
            },
        }
    }
}

/// What raising and consuming does to a mask: consuming leaves none of the levels that were
/// asked for and all of the others, raising leaves the others alone.
proof fn mask_facts(mask: u64, interest: u64, bits: u64)
    ensures
        (mask & !interest) & interest == 0,
        (mask & !interest) & !interest == mask & !interest,
        (mask | bits) & !bits == mask & !bits,
        (mask | bits) & bits == bits,
        ((mask | bits) & !(interest & bits)) & !bits == mask & !bits,
        ((mask | bits) & !(interest & bits)) & (interest & bits) == 0,
{
    assert((mask & !interest) & interest == 0 && (mask & !interest) & !interest == mask & !interest
        && (mask | bits) & !bits == mask & !bits && (mask | bits) & bits == bits && ((mask | bits)
        & !(interest & bits)) & !bits == mask & !bits && ((mask | bits) & !(interest & bits)) & (
    interest & bits) == 0) by (bit_vector);
}

/// A wait that is over at once takes the levels that it waited for and no others, and raises
/// none: of the process's signals nothing of `interest` is left, whatever was not asked for
/// stays as it was, and the level of a mailbox is only looked at. No entry, no message and no
/// other object is touched.
pub proof fn waiting_takes_what_it_waited_for(port: PortView, target: SigTarget, interest: u64)
    ensures
        ({
            let after = after_hit(port, target, interest);
            &&& target is Process ==> after.signals.mask & interest == 0
            &&& after.signals.mask & !interest == port.signals.mask & !interest
            &&& after.signals.waiters == port.signals.waiters
            &&& after.mailbox == port.mailbox
            &&& after.pid == port.pid
            &&& target is Mailbox ==> after.signals.mask == port.signals.mask
        }),
{
    mask_facts(port.signals.mask, interest, 0);
}

/// What is raised of an object is raised of that object.
pub proof fn objects_have_their_own_levels(process: u64, mailbox: u64)
    ensures
        target_of(0) matches Some(own) && mask_of(own, process, mailbox) == process,
        target_of(1) matches Some(box_of) && mask_of(box_of, process, mailbox) == mailbox,
        forall|kind: u64| kind > 1 ==> #[trigger] target_of(kind) is None,
{
}

/// An item that a wait can go by: it names the process or its mailbox, and some level.
pub open spec fn valid_item(item: SignalItem) -> bool {
    item.interest != 0 && (item.kind == 0 || item.kind == 1)
}

/// A valid item has one of its levels raised.
pub open spec fn item_raised(item: SignalItem, process: u64, mailbox: u64) -> bool {
    if item.kind == 0 {
        process & item.interest != 0
    } else {
        mailbox & item.interest != 0
    }
}

/// The first item that decides is the one that does: a wait completes with the first raised
/// item if all before it are valid and not raised, fails with the first item that is not valid
/// if none before it is raised, and parks only if every item is valid and none is raised.
pub proof fn first_item_decides(items: Seq<SignalItem>, from: int, process: u64, mailbox: u64)
    requires
        0 <= from <= items.len(),
    ensures
        match wait_verdict(items, from, process, mailbox) {
            WaitVerdict::Hit { index, target, interest } => {
                &&& from <= index < items.len()
                &&& valid_item(items[index]) && item_raised(items[index], process, mailbox)
                &&& interest == items[index].interest
                &&& target is Process <==> items[index].kind == 0
                &&& forall|j: int|
                    from <= j < index ==> valid_item(#[trigger] items[j]) && !item_raised(
                        items[j],
                        process,
                        mailbox,
                    )
            },
            WaitVerdict::Refused(error) => exists|k: int|
                {
                    &&& from <= k < items.len()
                    &&& !valid_item(#[trigger] items[k])
                    &&& error == if items[k].interest == 0 {
                        SystemCallError::IllegalArgument
                    } else {
                        SystemCallError::NotSupported
                    }
                    &&& forall|j: int|
                        from <= j < k ==> valid_item(#[trigger] items[j]) && !item_raised(
                            items[j],
                            process,
                            mailbox,
                        )
                },
            WaitVerdict::Nothing => forall|j: int|
                from <= j < items.len() ==> valid_item(#[trigger] items[j]) && !item_raised(
                    items[j],
                    process,
                    mailbox,
                ),
        },
    decreases items.len() - from,
{
    if from < items.len() {
        let first = items[from];
        if valid_item(first) && !item_raised(first, process, mailbox) {
            first_item_decides(items, from + 1, process, mailbox);
            if let WaitVerdict::Refused(error) = wait_verdict(items, from + 1, process, mailbox) {
                let k = choose|k: int|
                    {
                        &&& from + 1 <= k < items.len()
                        &&& !valid_item(#[trigger] items[k])
                        &&& error == if items[k].interest == 0 {
                            SystemCallError::IllegalArgument
                        } else {
                            SystemCallError::NotSupported
                        }
                        &&& forall|j: int|
                            from + 1 <= j < k ==> valid_item(#[trigger] items[j]) && !item_raised(
                                items[j],
                                process,
                                mailbox,
                            )
                    };
                assert(!valid_item(items[k]));
                assert forall|j: int| from <= j < k implies valid_item(#[trigger] items[j])
                    && !item_raised(items[j], process, mailbox) by {}
            }
        }
    }
}

/// The entries at an object of a port.
pub open spec fn entries_at(port: PortView, target: SigTarget) -> Seq<ObjectWaiter> {
    match target {
        SigTarget::Process => port.signals.waiters,
        SigTarget::Mailbox => port.mailbox.signals.waiters,
    }
}

/// One entry is added, behind all others, at the object it is for; no level changes.
pub proof fn entries_go_last(port: PortView, target: SigTarget, waiter: ObjectWaiter)
    ensures
        ({
            let after = with_entry(port, target, waiter);
            &&& entries_at(after, target) == entries_at(port, target).push(waiter)
            &&& target is Process ==> after.mailbox == port.mailbox
            &&& target is Mailbox ==> after.signals == port.signals
            &&& after.signals.mask == port.signals.mask
            &&& after.mailbox.signals.mask == port.mailbox.signals.mask
            &&& after.mailbox.queue == port.mailbox.queue
            &&& after.mailbox.capacity == port.mailbox.capacity
            &&& after.pid == port.pid
        }),
{
}

/// A thread that is put among the waiting goes on with the first of its items that is raised,
/// and takes of it what a wait takes; if none is raised it has an entry for every item, with
/// the item's number and levels, and no level has changed. No message is touched, and no entry
/// of another thread is lost.
pub proof fn parking_makes_an_entry_for_each_item(
    port: PortView,
    thread: ThreadIndex,
    generation: u64,
    targets: Seq<(SigTarget, u64)>,
    from: int,
)
    requires
        0 <= from <= targets.len() <= usize::MAX,
    ensures
        ({
            let end = published(port, thread, generation, targets, from);
            let raised = |k: int|
                mask_of(targets[k].0, port.signals.mask, port.mailbox.signals.mask) & targets[k].1;
            let stop = match end.hit {
                Some((k, _)) => k,
                None => targets.len() as int,
            };
            &&& from <= stop <= targets.len()
            &&& forall|j: int| from <= j < stop ==> #[trigger] raised(j) == 0
            &&& forall|j: int|
                from <= j < stop ==> entries_at(end.port, (#[trigger] targets[j]).0).contains(
                    ObjectWaiter {
                        thread,
                        generation,
                        request: WaitRequest::Signal { index: j as usize, interest: targets[j].1 },
                    },
                )
            &&& end.port.signals.waiters.len() + end.port.mailbox.signals.waiters.len()
                == port.signals.waiters.len() + port.mailbox.signals.waiters.len() + (stop - from)
            &&& port.signals.waiters.is_prefix_of(end.port.signals.waiters)
            &&& port.mailbox.signals.waiters.is_prefix_of(end.port.mailbox.signals.waiters)
            &&& end.port.mailbox.signals.mask == port.mailbox.signals.mask
            &&& end.port.mailbox.queue == port.mailbox.queue && end.port.mailbox.capacity
                == port.mailbox.capacity && end.port.pid == port.pid
            &&& match end.hit {
                None => end.port.signals.mask == port.signals.mask,
                Some((k, bits)) => {
                    &&& k < targets.len() && bits == raised(k) && bits != 0
                    &&& targets[k].0 is Mailbox ==> end.port.signals.mask == port.signals.mask
                    &&& targets[k].0 is Process ==> end.port.signals.mask & targets[k].1 == 0
                        && end.port.signals.mask & !targets[k].1 == port.signals.mask
                        & !targets[k].1
                },
            }
        }),
    decreases targets.len() - from,
{
    if from < targets.len() {
        let (target, interest) = targets[from];
        let raised = mask_of(target, port.signals.mask, port.mailbox.signals.mask) & interest;
        mask_facts(port.signals.mask, interest, 0);
        if raised == 0 {
            let waiter = ObjectWaiter {
                thread,
                generation,
                request: WaitRequest::Signal { index: from as usize, interest },
            };
            let next = with_entry(port, target, waiter);
            parking_makes_an_entry_for_each_item(next, thread, generation, targets, from + 1);
            let end = published(next, thread, generation, targets, from + 1);
            let own = entries_at(port, target).len() as int;
            assert(entries_at(next, target)[own] == waiter);
            assert(entries_at(next, target).is_prefix_of(entries_at(end.port, target)));
            assert(entries_at(end.port, target)[own] == waiter);
            assert(entries_at(end.port, target).contains(waiter));
            assert(port.signals.waiters.is_prefix_of(next.signals.waiters));
            assert(port.mailbox.signals.waiters.is_prefix_of(next.mailbox.signals.waiters));
        }
    }
}

/// An event touches the levels that it raises and no others, takes out the first entry that
/// waits for one of them and no other, and completes that entry's wait and no other. The thread
/// that wakes is that entry's, and consumed levels are down afterwards.
pub proof fn events_touch_one_wait(
    signals: SignalView,
    generations: Seq<u64>,
    bits: u64,
    consumed: bool,
)
    requires
        threads_known(signals.waiters, generations.len()),
    ensures
        ({
            let after = submitted(signals, generations, bits, consumed);
            &&& after.signals.mask & !bits == signals.mask & !bits
            &&& !consumed ==> after.signals.mask & bits == bits
            &&& after.generations.len() == generations.len()
            &&& (forall|i: int|
                0 <= i < signals.waiters.len() ==> !wants(#[trigger] signals.waiters[i], bits))
                ==> after.wakeup is None && after.signals.waiters == signals.waiters
                && after.generations == generations
            &&& (exists|i: int|
                0 <= i < signals.waiters.len() && wants(#[trigger] signals.waiters[i], bits))
                ==> exists|i: int|
                {
                    let waiter = signals.waiters[i];
                    let live = generations[waiter.thread as int] == waiter.generation;
                    &&& 0 <= i < signals.waiters.len()
                    &&& wants(#[trigger] signals.waiters[i], bits)
                    &&& forall|j: int| 0 <= j < i ==> !wants(#[trigger] signals.waiters[j], bits)
                    &&& after.signals.waiters.len() == signals.waiters.len() - 1
                    &&& forall|j: int|
                        0 <= j < i ==> #[trigger] after.signals.waiters[j] == signals.waiters[j]
                    &&& forall|j: int|
                        i <= j < signals.waiters.len() - 1 ==> #[trigger] after.signals.waiters[j]
                            == signals.waiters[j + 1]
                    &&& after.wakeup is Some <==> live
                    &&& after.wakeup matches Some(woken) ==> woken.thread == waiter.thread
                    &&& live ==> after.generations[waiter.thread as int] != waiter.generation
                    &&& live && consumed ==> after.signals.mask & (waiter.request->interest & bits)
                        == 0
                    &&& forall|t: int|
                        0 <= t < generations.len() && (t != waiter.thread || !live)
                            ==> #[trigger] after.generations[t] == generations[t]
                }
        }),
{
    first_wanting_is_first(signals.waiters, bits, 0);
    mask_facts(signals.mask, 0, bits);
    if let Some(i) = first_wanting(signals.waiters, bits, 0) {
        let waiter = signals.waiters[i];
        mask_facts(signals.mask, waiter.request->interest, bits);
        assert(wants(signals.waiters[i], bits));
    }
}

/// A thread's next wait is another one, and beginning or completing it leaves the waits of all
/// other threads alone.
pub proof fn waits_are_told_apart(generations: Seq<u64>, thread: ThreadIndex, generation: u64)
    requires
        thread < generations.len(),
    ensures
        ({
            let next = moved_on(generations, thread);
            &&& next.len() == generations.len()
            &&& next[thread as int] != generations[thread as int]
            &&& generations[thread as int] < u64::MAX ==> next[thread as int]
                == generations[thread as int] + 1
            &&& generations[thread as int] == u64::MAX ==> next[thread as int] == 0
            &&& forall|t: int|
                0 <= t < generations.len() && t != thread ==> #[trigger] next[t] == generations[t]
        }),
        current(generations, thread, generation) <==> generations[thread as int] == generation,
        generations[thread as int] != generation ==> completed(generations, thread, generation)
            == generations,
{
}

/// A thread that is answered goes on behind its call. Success is status zero and the value; a
/// failure is its number, or one where it has none, and leaves the value alone.
pub proof fn answers_arrive(frame: CallFrame, reply: Reply, code: Option<u64>)
    requires
        frame.pc + 4 <= u64::MAX,
    ensures
        ({
            let after = answered(frame, reply, code);
            &&& after.pc == frame.pc + 4
            &&& reply matches Reply::Done(value) ==> after.status == 0 && after.value == value
            &&& reply is Failed ==> after.value == frame.value
            &&& reply is Failed && code is Some ==> Some(after.status) == code
            &&& reply is Failed && code is None ==> after.status == 1
        }),
{
}

/// A receiver at place `i` can have a message of `size` bytes.
pub open spec fn can_take(waiter: ObjectWaiter, writable: bool, size: int) -> bool {
    waiter.request matches WaitRequest::Recv { len, .. } && size <= len && writable
}

/// A message is offered to the receivers in front, in their order, and goes to the first whose
/// buffer is large enough and can be written, to that very buffer. Those before it are out, and
/// nobody behind it is; a thread that waits for a level stops the offer. Each entry that is out
/// is told at most once, and only the one that has the message is told of success.
pub proof fn first_fitting_receiver_takes(
    waiters: Seq<ObjectWaiter>,
    writable: Seq<bool>,
    size: int,
    from: int,
    generations: Seq<u64>,
    wakeups: Seq<Wakeup>,
)
    requires
        0 <= from <= waiters.len(),
        0 <= size <= u64::MAX,
    ensures
        ({
            let offer = offered(waiters, writable, size, from, generations, wakeups);
            &&& from <= offer.gone <= waiters.len()
            &&& forall|i: int|
                from <= i < offer.gone ==> (#[trigger] waiters[i]).request is Recv
            &&& wakeups.is_prefix_of(offer.wakeups)
            &&& offer.wakeups.len() - wakeups.len() <= offer.gone - from
            &&& forall|k: int|
                wakeups.len() <= k < offer.wakeups.len() ==> exists|i: int|
                    from <= i < offer.gone && (#[trigger] waiters[i]).thread
                        == (#[trigger] offer.wakeups[k]).thread && if can_take(
                        waiters[i],
                        writable[i],
                        size,
                    ) {
                        offer.wakeups[k].reply == Reply::Done(size as u64)
                    } else if waiters[i].request->len < size {
                        offer.wakeups[k].reply == Reply::Failed(SystemCallError::IllegalArgument)
                    } else {
                        offer.wakeups[k].reply == Reply::Failed(
                            SystemCallError::MemoryNotAccessible,
                        )
                    }
            &&& match offer.taken {
                Some(buffer) => {
                    let last = offer.gone - 1;
                    &&& from <= last && can_take(waiters[last], writable[last], size)
                    &&& buffer.thread == waiters[last].thread
                    &&& buffer.address == waiters[last].request->buf
                    &&& forall|i: int|
                        from <= i < last ==> !can_take(#[trigger] waiters[i], writable[i], size)
                },
                None => {
                    &&& forall|i: int|
                        from <= i < offer.gone ==> !can_take(
                            #[trigger] waiters[i],
                            writable[i],
                            size,
                        )
                    &&& offer.gone < waiters.len() ==> waiters[offer.gone].request is Signal
                },
            }
        }),
    decreases waiters.len() - from,
{
    if from < waiters.len() && waiters[from].request is Recv {
        let waiter = waiters[from];
        let after = completed(generations, waiter.thread, waiter.generation);
        let reply = if waiter.request->len < size {
            Reply::Failed(SystemCallError::IllegalArgument)
        } else if !writable[from] {
            Reply::Failed(SystemCallError::MemoryNotAccessible)
        } else {
            Reply::Done(size as u64)
        };
        let told = and_wakeup(wakeups, generations, waiter, reply);
        assert(waiters[from].thread == waiter.thread);
        if !can_take(waiter, writable[from], size) {
            first_fitting_receiver_takes(waiters, writable, size, from + 1, after, told);
            let offer = offered(waiters, writable, size, from + 1, after, told);
            assert(offer == offered(waiters, writable, size, from, generations, wakeups));
            assert(wakeups.is_prefix_of(told));
            assert forall|k: int| wakeups.len() <= k < offer.wakeups.len() implies exists|i: int|
                from <= i < offer.gone && (#[trigger] waiters[i]).thread
                    == (#[trigger] offer.wakeups[k]).thread && if can_take(
                    waiters[i],
                    writable[i],
                    size,
                ) {
                    offer.wakeups[k].reply == Reply::Done(size as u64)
                } else if waiters[i].request->len < size {
                    offer.wakeups[k].reply == Reply::Failed(SystemCallError::IllegalArgument)
                } else {
                    offer.wakeups[k].reply == Reply::Failed(SystemCallError::MemoryNotAccessible)
                } by {
                if k < told.len() {
                    assert(offer.wakeups[k] == told[k]);
                    assert(waiters[from].thread == offer.wakeups[k].thread);
                }
            }
        }
    }
}

/// A message that is sent ends in exactly one place: in the buffer of a receiver, at the end of
/// the queue, or nowhere, and then the sender learns that the mailbox is full. It is full only
/// if it holds all it has room for and nobody takes the message. What was queued stays, and so
/// does every entry that was not offered the message, but for the one that a queued message
/// wakes.
pub proof fn message_is_in_one_place(
    mailbox: MailboxView,
    generations: Seq<u64>,
    message: MessageView,
    writable: Seq<bool>,
)
    requires
        message.payload.len() <= u64::MAX,
    ensures
        ({
            let end = delivered(mailbox, generations, message, writable);
            let offer = offered(
                mailbox.signals.waiters,
                writable,
                message.payload.len() as int,
                0,
                generations,
                Seq::empty(),
            );
            let rest = mailbox.signals.waiters.len() - offer.gone;
            &&& end.taken == offer.taken
            &&& end.taken is Some ==> end.result is Ok && end.mailbox.queue == mailbox.queue
            &&& end.result == Err::<(), _>(SystemCallError::MailboxFull) <==> end.taken is None
                && mailbox.queue.len() >= mailbox.capacity
            &&& end.result is Err ==> end.mailbox.queue == mailbox.queue
            &&& end.result is Ok && end.taken is None ==> {
                &&& end.mailbox.queue.len() == mailbox.queue.len() + 1
                &&& end.mailbox.queue.last() == message
                &&& end.mailbox.queue.drop_last() == mailbox.queue
                &&& end.mailbox.signals.mask & 0x1 == 0x1
            }
            &&& end.mailbox.queue == mailbox.queue ==> end.mailbox.signals.mask
                == mailbox.signals.mask && end.mailbox.signals.waiters.len() == rest
                && end.wakeups == offer.wakeups
            &&& end.mailbox.signals.mask & !0x1u64 == mailbox.signals.mask & !0x1u64
            &&& rest - 1 <= end.mailbox.signals.waiters.len() <= rest
            &&& end.mailbox.capacity == mailbox.capacity
            &&& offer.wakeups.is_prefix_of(end.wakeups)
            &&& end.wakeups.len() <= offer.wakeups.len() + 1
        }),
{
    let waiters = mailbox.signals.waiters;
    first_fitting_receiver_takes(
        waiters,
        writable,
        message.payload.len() as int,
        0,
        generations,
        Seq::empty(),
    );
    let offer = offered(
        waiters,
        writable,
        message.payload.len() as int,
        0,
        generations,
        Seq::empty(),
    );
    let left = waiters.skip(offer.gone);
    first_wanting_is_first(left, NONEMPTY, 0);
    mask_facts(mailbox.signals.mask, 0, 0x1);
    assert(mailbox.queue.push(message).drop_last() =~= mailbox.queue);
    assert(mailbox.queue.push(message).len() != mailbox.queue.len());
}

/// Taking a message takes the oldest, moves the others up by one, and leaves entries and other
/// levels alone; the level of the mailbox is up afterwards exactly if a message is left.
pub proof fn taking_moves_the_others_up(mailbox: MailboxView)
    requires
        mailbox.queue.len() > 0,
    ensures
        ({
            let after = without_first(mailbox);
            &&& after.queue.len() == mailbox.queue.len() - 1
            &&& forall|i: int|
                0 <= i < after.queue.len() ==> #[trigger] after.queue[i] == mailbox.queue[i + 1]
            &&& after.signals.waiters == mailbox.signals.waiters
            &&& after.signals.mask & 0x1 != 0 <==> mailbox.queue.len() > 1
            &&& after.signals.mask & !0x1u64 == mailbox.signals.mask & !0x1u64
            &&& after.capacity == mailbox.capacity
        }),
{
    level_facts(mailbox.signals.mask);
    mask_facts(mailbox.signals.mask, 0x1, 0x1);
}

/// A process is found at its first port, and only if it has one. Identity zero is the kernel,
/// never a port.
pub proof fn messages_find_their_process(exchange: ExchangeView, target: Pid)
    ensures
        match destination(exchange, target) {
            Destination::Kernel => target == 0,
            Destination::Port(i) => {
                &&& target != 0 && 0 <= i < exchange.ports.len()
                &&& exchange.ports[i].pid == target
                &&& forall|j: int| 0 <= j < i ==> (#[trigger] exchange.ports[j]).pid != target
            },
            Destination::Nowhere => target != 0 && forall|j: int|
                0 <= j < exchange.ports.len() ==> (#[trigger] exchange.ports[j]).pid != target,
        },
{
    port_of_is_found(exchange.ports, target, 0);
}

/// A mailbox that is put at a destination is the one found there, and no other mailbox, and no
/// process's signals, change.
pub proof fn mailboxes_are_kept_apart(
    exchange: ExchangeView,
    target: Pid,
    mailbox: MailboxView,
)
    ensures
        ({
            let place = destination(exchange, target);
            let after = with_mailbox(exchange, place, mailbox);
            &&& !(place is Nowhere) ==> mailbox_at(after, place) == mailbox
            &&& place is Nowhere ==> after == exchange
            &&& target != 0 ==> after.kernel == exchange.kernel
            &&& target == 0 ==> after.ports == exchange.ports
            &&& after.ports.len() == exchange.ports.len()
            &&& forall|j: int|
                0 <= j < exchange.ports.len() ==> (#[trigger] after.ports[j]).pid
                    == exchange.ports[j].pid && after.ports[j].signals == exchange.ports[j].signals
            &&& forall|j: int|
                0 <= j < exchange.ports.len() && exchange.ports[j].pid != target ==> (
                #[trigger] after.ports[j]) == exchange.ports[j]
        }),
{
    port_of_is_found(exchange.ports, target, 0);
}

} // verus!
