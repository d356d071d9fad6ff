//! What every kernel object shares: its identity, its type, and the levels,
//! publication history and subscriptions that live under the object's own lock.
use vstd::prelude::*;

use crate::error::SystemCallError;
use crate::ids;
use crate::ids::IdSequence;
use crate::notify_work::{Completion, Reservation};
use crate::signals;
use crate::signals::ObjectSignals;

verus! {

/// Identity of a kernel object, for diagnosis and internal association only; it
/// is no credential.
pub type Koid = u64;

/// Mints the next object identity; `None` once all are spent. All objects draw on
/// one sequence.
pub fn try_mint_koid(sequence: &mut IdSequence) -> (r: Option<Koid>)
    ensures
        r == old(sequence)@,
        final(sequence)@ == ids::after(old(sequence)@),
{
    sequence.allocate()
}

/// The stable identity at the head of every object.
#[derive(Debug)]
pub struct ObjectHeader {
    koid: Koid,
}

impl ObjectHeader {
    pub closed spec fn spec_koid(&self) -> Koid {
        self.koid
    }

    /// Mints a header; `None` once the identities are spent.
    pub fn try_new(sequence: &mut IdSequence) -> (r: Option<ObjectHeader>)
        ensures
            r is Some <==> old(sequence)@ is Some,
            r matches Some(header) ==> Some(header.spec_koid()) == old(sequence)@,
            final(sequence)@ == ids::after(old(sequence)@),
    {
        match try_mint_koid(sequence) {
            Some(koid) => Some(ObjectHeader { koid }),
            None => None,
        }
    }

    /// Mints a header from a sequence that is not spent.
    pub fn new(sequence: &mut IdSequence) -> (r: ObjectHeader)
        requires
            old(sequence)@ is Some,
        ensures
            Some(r.spec_koid()) == old(sequence)@,
            final(sequence)@ == ids::successor(r.spec_koid()),
    {
        ObjectHeader::try_new(sequence).unwrap()
    }

    pub fn koid(&self) -> (r: Koid)
        ensures
            r == self.spec_koid(),
    {
        self.koid
    }
}

/// How many subscriptions one object accepts at a time. It bounds the work of a
/// cooperative publication.
pub const OBJECT_WAIT_LIMIT: usize = 1024;

/// The type of a kernel object.
#[derive(Clone, Copy, Debug, PartialEq, Eq, Structural)]
pub enum ObjectKind {
    Delivery,
    Job,
    Lifetime,
    Mailbox,
    MailboxSender,
    MemoryObject,
    MemoryPool,
    Notification,
    ProcessBuilder,
    ProcessControl,
    SystemReset,
    ThreadControl,
    TunnelEndpoint,
    TunnelInvitation,
}

/// What a handle lets its holder be towards the object.
#[derive(Clone, Copy, Debug, PartialEq, Eq, Structural)]
pub enum HandleRole {
    Delivery,
    JobControl,
    LifetimeObserver,
    MailboxOwner,
    MailboxSender,
    MailboxSenderOnce,
    MemoryObject,
    MemoryPool,
    NotificationOwner,
    NotificationSignaler,
    ProcessBuilder,
    ProcessControl,
    SystemResetControl,
    ThreadControl,
    TunnelEndpoint,
    TunnelInvitation,
}

/// What a wait ends with.
#[derive(Clone, Copy, Debug, PartialEq, Eq, Structural)]
pub enum WaitOutcome {
    /// The object showed these levels.
    Observed(ObjectSignals),
    /// The observation was called off.
    Cancelled,
    /// The waiting process is being taken down.
    Abandoned,
}

/// What became of an outcome that was offered to an observer.
#[derive(Clone, Copy, Debug, PartialEq, Eq, Structural)]
pub enum OfferResult {
    /// Recorded; the observer is not armed yet.
    Deferred,
    /// Another outcome was there first.
    Lost,
    /// Accepted; whoever offered it finishes the wait.
    Complete,
}

/// An observer of one object: which object, which levels, and who is told.
#[derive(Clone, Copy, Debug, PartialEq, Eq, Structural)]
pub struct Subscription {
    pub object: Koid,
    pub interest: ObjectSignals,
    pub sink: u64,
    /// The observer stays registered after an observation.
    pub persistent: bool,
}

impl Subscription {
    /// What this observer makes of `levels`: an observation if a level it asks
    /// for, or the terminal level, is set.
    pub open spec fn spec_outcome(self, levels: ObjectSignals) -> Option<WaitOutcome> {
        if signals::meets(levels, self.interest) || signals::closed(levels) {
            Some(WaitOutcome::Observed(levels))
        } else {
            None
        }
    }

    pub fn outcome(self, levels: ObjectSignals) -> (r: Option<WaitOutcome>)
        ensures
            r == self.spec_outcome(levels),
    {
        if signals::intersects(levels, self.interest) || signals::intersects(
            levels,
            signals::CLOSED,
        ) {
            Some(WaitOutcome::Observed(levels))
        } else {
            None
        }
    }
}

/// The latest activation of one level: how often it was activated, at which
/// publication, and all levels at that moment. Clearing a level later does not
/// change it.
#[derive(Clone, Copy, Debug, PartialEq, Eq, Structural)]
pub struct SignalEpoch {
    pub generation: u64,
    pub serial: u64,
    pub snapshot: ObjectSignals,
}

/// The history at position `i` is news to an observer that has seen `seen` and
/// asks for `interest`. The terminal level is news to everyone.
pub open spec fn eligible(
    epochs: Seq<SignalEpoch>,
    seen: Seq<u64>,
    interest: ObjectSignals,
    i: int,
) -> bool {
    &&& epochs[i].generation != seen[i]
    &&& signals::meets(interest, signals::bit(i)) || i == signals::CLOSED_INDEX
}

/// Position `i` holds the earliest news: the smallest serial, and the first
/// position among equals.
pub open spec fn earliest(
    epochs: Seq<SignalEpoch>,
    seen: Seq<u64>,
    interest: ObjectSignals,
    i: int,
) -> bool {
    &&& 0 <= i < signals::COUNT
    &&& eligible(epochs, seen, interest, i)
    &&& forall|j: int|
        0 <= j < signals::COUNT && #[trigger] eligible(epochs, seen, interest, j)
            ==> epochs[i].serial < epochs[j].serial || (epochs[i].serial == epochs[j].serial && i
            <= j)
}

/// `selected` is what an observer is shown: the snapshot of the earliest news;
/// without news, the current levels of a closed object; else nothing.
pub open spec fn selects(
    epochs: Seq<SignalEpoch>,
    seen: Seq<u64>,
    interest: ObjectSignals,
    current: ObjectSignals,
    selected: Option<ObjectSignals>,
) -> bool {
    if exists|i: int| earliest(epochs, seen, interest, i) {
        exists|i: int| #[trigger]
            earliest(epochs, seen, interest, i) && selected == Some(epochs[i].snapshot)
    } else {
        &&& forall|i: int|
            0 <= i < signals::COUNT ==> !#[trigger] eligible(epochs, seen, interest, i)
        &&& selected == if signals::closed(current) {
            Some(current)
        } else {
            None
        }
    }
}

/// What an observer is shown is determined by the history, what it has seen, what
/// it asks for and the current levels.
pub proof fn selection_is_unique(
    epochs: Seq<SignalEpoch>,
    seen: Seq<u64>,
    interest: ObjectSignals,
    current: ObjectSignals,
    a: Option<ObjectSignals>,
    b: Option<ObjectSignals>,
)
    requires
        selects(epochs, seen, interest, current, a),
        selects(epochs, seen, interest, current, b),
    ensures
        a == b,
{
    if exists|i: int| earliest(epochs, seen, interest, i) {
        let i = choose|i: int| #[trigger]
            earliest(epochs, seen, interest, i) && a == Some(epochs[i].snapshot);
        let j = choose|j: int| #[trigger]
            earliest(epochs, seen, interest, j) && b == Some(epochs[j].snapshot);
        assert(eligible(epochs, seen, interest, i));
        assert(eligible(epochs, seen, interest, j));
        assert(i == j);
    }
}

/// Every level's history carries that level in its snapshot, and no serial beyond
/// the latest. No level came up more often than there were publications.
pub open spec fn epochs_wf(epochs: Seq<SignalEpoch>, serial: u64) -> bool {
    &&& epochs.len() == signals::COUNT
    &&& forall|i: int| 0 <= i < signals::COUNT ==> (#[trigger] epochs[i]).generation <= serial
    &&& forall|i: int|
        0 <= i < signals::COUNT && (#[trigger] epochs[i]).generation != 0 ==> signals::meets(
            epochs[i].snapshot,
            signals::bit(i),
        ) && epochs[i].serial <= serial
}

/// The generations of a history, position by position.
pub open spec fn generations_of(epochs: Seq<SignalEpoch>) -> Seq<u64> {
    epochs.map_values(|e: SignalEpoch| e.generation)
}

/// Picks what an observer is shown.
pub fn select_snapshot(
    epochs: &Vec<SignalEpoch>,
    seen: &Vec<u64>,
    interest: ObjectSignals,
    current: ObjectSignals,
) -> (r: Option<ObjectSignals>)
    requires
        epochs.len() == signals::COUNT,
        seen.len() == signals::COUNT,
    ensures
        selects(epochs@, seen@, interest, current, r),
{
    let mut selected: Option<usize> = None;
    let mut index: usize = 0;
    while index < signals::COUNT
        invariant
            index <= signals::COUNT,
            epochs.len() == signals::COUNT,
            seen.len() == signals::COUNT,
            selected is None ==> forall|j: int|
                0 <= j < index ==> !#[trigger] eligible(epochs@, seen@, interest, j),
            selected matches Some(best) ==> {
                &&& best < index
                &&& eligible(epochs@, seen@, interest, best as int)
                &&& forall|j: int|
                    0 <= j < index && #[trigger] eligible(epochs@, seen@, interest, j)
                        ==> epochs[best as int].serial < epochs[j].serial || (
                    epochs[best as int].serial == epochs[j].serial && best <= j)
            },
        decreases signals::COUNT - index,
    {
        let epoch = epochs[index];
        let wanted: bool = signals::intersects(interest, signals::bit_at(index)) || index
            == signals::CLOSED_INDEX;
        if epoch.generation != seen[index] && wanted {
            assert(eligible(epochs@, seen@, interest, index as int));
            match selected {
                None => {
                    selected = Some(index);
                },
                Some(best) => {
                    if epoch.serial < epochs[best].serial {
                        selected = Some(index);
                    }
                },
            }
        } else {
            assert(!eligible(epochs@, seen@, interest, index as int));
        }
        index = index + 1;
    }
    match selected {
        Some(best) => {
            assert(earliest(epochs@, seen@, interest, best as int));
            Some(epochs[best].snapshot)
        },
        None => {
            if signals::intersects(current, signals::CLOSED) {
                Some(current)
            } else {
                None
            }
        },
    }
}

/// The generations of a history, position by position.
fn generations(epochs: &Vec<SignalEpoch>) -> (r: Vec<u64>)
    ensures
        r@ == generations_of(epochs@),
{
    let mut seen: Vec<u64> = Vec::new();
    let mut index: usize = 0;
    while index < epochs.len()
        invariant
            index <= epochs.len(),
            seen@ =~= generations_of(epochs@).take(index as int),
        decreases epochs.len() - index,
    {
        seen.push(epochs[index].generation);
        index = index + 1;
    }
    seen
}

/// What an observer with news is shown always means something to it.
proof fn selected_is_observed(
    epochs: Seq<SignalEpoch>,
    seen: Seq<u64>,
    serial: u64,
    subscription: Subscription,
    current: ObjectSignals,
    selected: ObjectSignals,
)
    requires
        epochs_wf(epochs, serial),
        seen.len() == signals::COUNT,
        forall|i: int| 0 <= i < signals::COUNT ==> seen[i] <= (#[trigger] epochs[i]).generation,
        selects(epochs, seen, subscription.interest, current, Some(selected)),
    ensures
        subscription.spec_outcome(selected) == Some(WaitOutcome::Observed(selected)),
{
    if exists|i: int| earliest(epochs, seen, subscription.interest, i) {
        let i = choose|i: int| #[trigger]
            earliest(epochs, seen, subscription.interest, i) && Some(selected) == Some(
                epochs[i].snapshot,
            );
        assert(eligible(epochs, seen, subscription.interest, i));
        signals::closed_is_last();
        if signals::meets(subscription.interest, signals::bit(i)) {
            signals::common_bit_meets(selected, subscription.interest, i);
        }
    }
}

/// A registered observer with the generations that it has seen.
pub struct RegisteredSubscription {
    id: u64,
    subscription: Subscription,
    seen: Vec<u64>,
}

/// A registered observer, as a value.
#[verifier::ext_equal]
pub struct RegisteredView {
    pub id: u64,
    pub subscription: Subscription,
    pub seen: Seq<u64>,
}

impl View for RegisteredSubscription {
    type V = RegisteredView;

    closed spec fn view(&self) -> RegisteredView {
        RegisteredView { id: self.id, subscription: self.subscription, seen: self.seen@ }
    }
}

/// Levels, publication history and subscription slots of one object. A publisher
/// touches the fixed history alone; matching and offering go slot by slot, driven
/// by the notification debt.
pub struct ObjectWaitState {
    signals: ObjectSignals,
    next_id: u64,
    serial: u64,
    epochs: Vec<SignalEpoch>,
    waiters: Vec<Option<RegisteredSubscription>>,
    active_waiters: usize,
    scan_cursor: usize,
    scan_remaining: usize,
    scan_serial: u64,
    dirty: bool,
    scheduled: bool,
    notification: Option<Reservation>,
}

/// The state of [`ObjectWaitState`], as a value.
#[verifier::ext_equal]
pub struct WaitView {
    pub signals: ObjectSignals,
    /// Identity of the next subscription; zero once all are spent.
    pub next_id: u64,
    pub serial: u64,
    pub epochs: Seq<SignalEpoch>,
    pub waiters: Seq<Option<RegisteredView>>,
    pub scan_cursor: usize,
    pub scan_remaining: usize,
    pub scan_serial: u64,
    pub dirty: bool,
    pub scheduled: bool,
    pub notification: Option<Reservation>,
}

/// How many slots are taken.
pub open spec fn occupied(waiters: Seq<Option<RegisteredView>>) -> nat
    decreases waiters.len(),
{
    if waiters.len() == 0 {
        0
    } else {
        occupied(waiters.drop_last()) + if waiters.last() is Some {
            1nat
        } else {
            0nat
        }
    }
}

/// Writing one slot changes the count by that slot alone.
proof fn occupied_update(
    waiters: Seq<Option<RegisteredView>>,
    i: int,
    slot: Option<RegisteredView>,
)
    requires
        0 <= i < waiters.len(),
    ensures
        occupied(waiters.update(i, slot)) + (if waiters[i] is Some {
            1nat
        } else {
            0nat
        }) == occupied(waiters) + (if slot is Some {
            1nat
        } else {
            0nat
        }),
    decreases waiters.len(),
{
    let updated = waiters.update(i, slot);
    if i == waiters.len() - 1 {
        assert(updated.drop_last() =~= waiters.drop_last());
    } else {
        occupied_update(waiters.drop_last(), i, slot);
        assert(updated.drop_last() =~= waiters.drop_last().update(i, slot));
    }
}

/// The count is at most the number of slots, and equal to it only if no slot is
/// free; with no taken slot it is zero.
proof fn occupied_bounds(waiters: Seq<Option<RegisteredView>>)
    ensures
        occupied(waiters) <= waiters.len(),
        (forall|i: int| 0 <= i < waiters.len() ==> (#[trigger] waiters[i]) is Some) <==> occupied(
            waiters,
        ) == waiters.len(),
        (forall|i: int| 0 <= i < waiters.len() ==> (#[trigger] waiters[i]) is None) <==> occupied(
            waiters,
        ) == 0,
    decreases waiters.len(),
{
    if waiters.len() > 0 {
        let init = waiters.drop_last();
        occupied_bounds(init);
        assert(waiters[waiters.len() - 1] == waiters.last());
        assert(forall|i: int| 0 <= i < init.len() ==> init[i] == waiters[i]);
        if forall|i: int| 0 <= i < waiters.len() ==> (#[trigger] waiters[i]) is Some {
            assert forall|i: int| 0 <= i < init.len() implies (#[trigger] init[i]) is Some by {
                assert(waiters[i] is Some);
            }
        }
        if forall|i: int| 0 <= i < waiters.len() ==> (#[trigger] waiters[i]) is None {
            assert forall|i: int| 0 <= i < init.len() implies (#[trigger] init[i]) is None by {
                assert(waiters[i] is None);
            }
        }
        if occupied(waiters) == waiters.len() {
            assert forall|i: int| 0 <= i < waiters.len() implies (#[trigger] waiters[i]) is Some by {
                if i < init.len() {
                    assert(init[i] is Some);
                }
            }
        }
        if occupied(waiters) == 0 {
            assert forall|i: int| 0 <= i < waiters.len() implies (#[trigger] waiters[i]) is None by {
                if i < init.len() {
                    assert(init[i] is None);
                }
            }
        }
    }
}

impl WaitView {
    /// How many observers are registered.
    pub open spec fn active(self) -> nat {
        occupied(self.waiters)
    }

    /// The observer with identity `id` sits in slot `i`.
    pub open spec fn holds(self, id: u64, i: int) -> bool {
        0 <= i < self.waiters.len() && self.waiters[i] is Some && self.waiters[i]->0.id == id
    }

    /// What every operation keeps.
    pub open spec fn wf(self) -> bool {
        &&& epochs_wf(self.epochs, self.serial)
        &&& self.waiters.len() <= OBJECT_WAIT_LIMIT
        &&& forall|i: int|
            0 <= i < self.waiters.len() && (#[trigger] self.waiters[i]) is Some ==> {
                let w = self.waiters[i]->0;
                &&& w.id != 0
                &&& self.next_id == 0 || w.id < self.next_id
                &&& w.seen.len() == signals::COUNT
                &&& forall|k: int|
                    0 <= k < signals::COUNT ==> w.seen[k] <= (#[trigger] self.epochs[k]).generation
            }
        &&& forall|i: int, j: int|
            0 <= i < j < self.waiters.len() && (#[trigger] self.waiters[i]) is Some && (
            #[trigger] self.waiters[j]) is Some ==> self.waiters[i]->0.id != self.waiters[j]->0.id
        &&& self.notification is Some <==> !self.scheduled && self.active() > 0
    }
}

impl View for ObjectWaitState {
    type V = WaitView;

    closed spec fn view(&self) -> WaitView {
        WaitView {
            signals: self.signals,
            next_id: self.next_id,
            serial: self.serial,
            epochs: self.epochs@,
            waiters: Seq::new(
                self.waiters@.len(),
                |i: int|
                    match self.waiters@[i] {
                        Some(w) => Some(w@),
                        None => None,
                    },
            ),
            scan_cursor: self.scan_cursor,
            scan_remaining: self.scan_remaining,
            scan_serial: self.scan_serial,
            dirty: self.dirty,
            scheduled: self.scheduled,
            notification: self.notification,
        }
    }
}

/// The first position, at or after `from`, of an activated level whose generation
/// cannot grow any more; the number of levels if there is none.
pub open spec fn first_saturated(
    epochs: Seq<SignalEpoch>,
    activated: ObjectSignals,
    from: int,
) -> int
    decreases signals::COUNT - from,
{
    if from >= signals::COUNT {
        signals::COUNT as int
    } else if signals::meets(activated, signals::bit(from)) && epochs[from].generation == u64::MAX {
        from
    } else {
        first_saturated(epochs, activated, from + 1)
    }
}

/// The generation after `generation`, or the largest.
pub open spec fn next_generation(generation: u64) -> u64 {
    if generation < u64::MAX {
        (generation + 1) as u64
    } else {
        u64::MAX
    }
}

/// History and levels after the levels `activated` came up at publication
/// `serial`, where `levels` are all levels now. If a generation is spent, the
/// object is closed for good: the positions before it are recorded, the terminal
/// level is, and nothing else.
pub open spec fn recorded(
    epochs: Seq<SignalEpoch>,
    levels: ObjectSignals,
    activated: ObjectSignals,
    serial: u64,
) -> (Seq<SignalEpoch>, ObjectSignals) {
    let stop = first_saturated(epochs, activated, 0);
    let history = Seq::new(
        signals::COUNT as nat,
        |i: int|
            if stop < signals::COUNT && i == signals::CLOSED_INDEX {
                SignalEpoch {
                    generation: next_generation(epochs[i].generation),
                    serial,
                    snapshot: signals::CLOSED,
                }
            } else if i < stop && signals::meets(activated, signals::bit(i)) {
                SignalEpoch {
                    generation: next_generation(epochs[i].generation),
                    serial,
                    snapshot: levels,
                }
            } else {
                epochs[i]
            },
    );
    (
        history,
        if stop < signals::COUNT {
            signals::CLOSED
        } else {
            levels
        },
    )
}

/// Facts about the first spent generation.
proof fn first_saturated_bounds(epochs: Seq<SignalEpoch>, activated: ObjectSignals, from: int)
    requires
        0 <= from <= signals::COUNT,
    ensures
        from <= first_saturated(epochs, activated, from) <= signals::COUNT,
        forall|i: int|
            from <= i < first_saturated(epochs, activated, from) && #[trigger] signals::meets(
                activated,
                signals::bit(i),
            ) ==> epochs[i].generation < u64::MAX,
    decreases signals::COUNT - from,
{
    if from < signals::COUNT && !(signals::meets(activated, signals::bit(from))
        && epochs[from].generation == u64::MAX) {
        first_saturated_bounds(epochs, activated, from + 1);
    }
}

impl WaitView {
    /// The state after a publication that clears `clear` and sets `set`. A closed
    /// object is frozen. A spent publication counter closes the object for good
    /// instead of starting over.
    pub open spec fn updated(self, clear: ObjectSignals, set: ObjectSignals) -> WaitView {
        let levels = (self.signals & !clear) | set;
        let activated = levels & !self.signals;
        if signals::closed(self.signals) {
            self
        } else if activated == 0 {
            WaitView {
                signals: levels,
                dirty: self.dirty || (self.scheduled && levels != self.signals),
                ..self
            }
        } else if self.serial == u64::MAX {
            let (epochs, signals) = recorded(
                self.epochs,
                signals::CLOSED,
                signals::CLOSED,
                u64::MAX,
            );
            WaitView { signals, epochs, dirty: true, ..self }
        } else {
            let serial = (self.serial + 1) as u64;
            let (epochs, signals) = recorded(self.epochs, levels, activated, serial);
            WaitView { signals, serial, epochs, dirty: true, ..self }
        }
    }
}

/// Recording keeps the history well formed and no generation falls.
proof fn recorded_keeps_wf(
    epochs: Seq<SignalEpoch>,
    before: u64,
    levels: ObjectSignals,
    activated: ObjectSignals,
    serial: u64,
)
    requires
        epochs_wf(epochs, before),
        before < serial || serial == u64::MAX,
        forall|i: int| 0 <= i < signals::COUNT && #[trigger] signals::meets(
            activated,
            signals::bit(i),
        ) ==> signals::meets(levels, signals::bit(i)),
    ensures
        epochs_wf(recorded(epochs, levels, activated, serial).0, serial),
        forall|i: int|
            0 <= i < signals::COUNT ==> epochs[i].generation <= (#[trigger] recorded(
                epochs,
                levels,
                activated,
                serial,
            ).0[i]).generation,
{
    first_saturated_bounds(epochs, activated, 0);
    signals::closed_is_last();
    let after = recorded(epochs, levels, activated, serial).0;
    assert forall|i: int|
        0 <= i < signals::COUNT && (#[trigger] after[i]).generation != 0 implies signals::meets(
        after[i].snapshot,
        signals::bit(i),
    ) && after[i].serial <= serial by {
        assert(epochs[i].generation != 0 ==> epochs[i].serial <= before);
    }
}

/// A level that has just come up is one of the levels.
proof fn activated_is_set(before: ObjectSignals, levels: ObjectSignals, i: int)
    requires
        0 <= i < signals::COUNT,
        signals::meets(levels & !before, signals::bit(i)),
    ensures
        signals::meets(levels, signals::bit(i)),
{
    let b = signals::bit(i);
    assert(levels & b != 0) by (bit_vector)
        requires
            (levels & !before) & b != 0,
    ;
}

/// A publication keeps the state well formed.
pub proof fn update_keeps_wf(state: WaitView, clear: ObjectSignals, set: ObjectSignals)
    requires
        state.wf(),
    ensures
        state.updated(clear, set).wf(),
        state.updated(clear, set).active() == state.active(),
{
    let after = state.updated(clear, set);
    let levels = (state.signals & !clear) | set;
    let activated = levels & !state.signals;
    if !signals::closed(state.signals) && activated != 0 {
        if state.serial == u64::MAX {
            recorded_keeps_wf(
                state.epochs,
                state.serial,
                signals::CLOSED,
                signals::CLOSED,
                u64::MAX,
            );
        } else {
            assert forall|i: int| 0 <= i < signals::COUNT && #[trigger] signals::meets(
                activated,
                signals::bit(i),
            ) implies signals::meets(levels, signals::bit(i)) by {
                activated_is_set(state.signals, levels, i);
            }
            recorded_keeps_wf(
                state.epochs,
                state.serial,
                levels,
                activated,
                (state.serial + 1) as u64,
            );
        }
        assert forall|i: int|
            0 <= i < after.waiters.len() && (#[trigger] after.waiters[i]) is Some implies {
            let w = after.waiters[i]->0;
            &&& w.id != 0
            &&& after.next_id == 0 || w.id < after.next_id
            &&& w.seen.len() == signals::COUNT
            &&& forall|k: int|
                0 <= k < signals::COUNT ==> w.seen[k] <= (#[trigger] after.epochs[k]).generation
        } by {
            let w = state.waiters[i]->0;
            assert forall|k: int| 0 <= k < signals::COUNT implies w.seen[k] <= (
            #[trigger] after.epochs[k]).generation by {
                assert(w.seen[k] <= state.epochs[k].generation);
            }
        }
    }
}

/// What a subscription came to.
#[derive(Clone, Copy, Debug, PartialEq, Eq, Structural)]
pub enum SubscribeResult {
    /// The wait is over before it began.
    Ready { outcome: WaitOutcome, retired: Subscription },
    /// Registered under this identity.
    Registered(u64),
    /// The object has as many observers as it accepts, or its identities are
    /// spent.
    ReachLimit(Subscription),
    /// No notification slot or no room for another observer.
    OutOfMemory(Subscription),
}

/// A subscription with what it leaves to do: an outcome to offer to an observer
/// that is registered for good, and the notification slot that was not used.
#[derive(Clone, Copy, Debug, PartialEq, Eq, Structural)]
pub struct Subscribed {
    pub result: SubscribeResult,
    pub offer: Option<WaitOutcome>,
    pub returned: Option<Reservation>,
}

/// An observer that was started again: its new generation, and the outcome to
/// offer to it before it is armed.
#[derive(Clone, Copy, Debug, PartialEq, Eq, Structural)]
pub struct ObserverRearm {
    pub generation: u64,
    pub sink: u64,
    pub offer: Option<WaitOutcome>,
}

/// An observer that was taken out, the outcome to offer to it, and the
/// notification slot that it was the last to need.
#[derive(Clone, Copy, Debug, PartialEq, Eq, Structural)]
pub struct CancelledObservation {
    pub sink: u64,
    pub offer: WaitOutcome,
    pub retired: Subscription,
    pub returned: Option<Reservation>,
}

/// One step over the subscription slots.
#[derive(Clone, Copy, Debug, PartialEq, Eq, Structural)]
pub enum WaitAdvance {
    /// One slot was passed; its observer is handed back if it left.
    Progress(Option<Subscription>),
    /// `outcome` is to be offered to the observer in `slot`.
    Offer { slot: usize, subscription: Subscription, outcome: WaitOutcome },
    /// The observer's wait is to be finished; it is handed back if it left.
    Complete { sink: u64, retired: Option<Subscription> },
    /// Nothing is left to walk.
    Done,
}

impl WaitAdvance {
    /// Whether the walk is over.
    pub fn finish(self) -> (r: bool)
        ensures
            r == (self is Done),
    {
        match self {
            WaitAdvance::Done => true,
            _ => false,
        }
    }
}

/// The first free slot at or after `from`; the number of slots if there is none.
pub open spec fn free_slot(waiters: Seq<Option<RegisteredView>>, from: int) -> int
    decreases waiters.len() - from,
{
    if from >= waiters.len() {
        waiters.len() as int
    } else if waiters[from] is None {
        from
    } else {
        free_slot(waiters, from + 1)
    }
}

/// The first taken slot at or after `from`; the number of slots if there is none.
pub open spec fn taken_slot(waiters: Seq<Option<RegisteredView>>, from: int) -> int
    decreases waiters.len() - from,
{
    if from >= waiters.len() {
        waiters.len() as int
    } else if waiters[from] is Some {
        from
    } else {
        taken_slot(waiters, from + 1)
    }
}

impl WaitView {
    /// A notification slot has to be bought before an observer can be registered.
    pub open spec fn needs_notification(self) -> bool {
        self.active() == 0 && !self.scheduled
    }

    /// What comes of subscribing, where `notification` is the slot that was bought
    /// in case one is needed, and `room` says whether another observer slot can be
    /// had.
    pub open spec fn subscribe_result(
        self,
        subscription: Subscription,
        notification: Option<Reservation>,
        room: bool,
    ) -> SubscribeResult {
        let immediate = subscription.spec_outcome(self.signals);
        if (!subscription.persistent || signals::closed(self.signals)) && immediate is Some {
            SubscribeResult::Ready { outcome: immediate->0, retired: subscription }
        } else if self.active() >= OBJECT_WAIT_LIMIT || self.next_id == 0 {
            SubscribeResult::ReachLimit(subscription)
        } else if self.needs_notification() && notification is None {
            SubscribeResult::OutOfMemory(subscription)
        } else if free_slot(self.waiters, 0) == self.waiters.len() && !room {
            SubscribeResult::OutOfMemory(subscription)
        } else {
            SubscribeResult::Registered(self.next_id)
        }
    }

    /// The state with `subscription` registered in the first free slot. It has seen
    /// everything published so far.
    pub open spec fn registered(
        self,
        subscription: Subscription,
        notification: Option<Reservation>,
    ) -> WaitView {
        let slot = free_slot(self.waiters, 0);
        let entry = Some(
            RegisteredView { id: self.next_id, subscription, seen: generations_of(self.epochs) },
        );
        WaitView {
            next_id: if self.next_id == u64::MAX {
                0
            } else {
                (self.next_id + 1) as u64
            },
            waiters: if slot < self.waiters.len() {
                self.waiters.update(slot, entry)
            } else {
                self.waiters.push(entry)
            },
            dirty: self.dirty || self.scheduled,
            notification: if self.needs_notification() {
                notification
            } else {
                self.notification
            },
            ..self
        }
    }

    /// The state with slot `i` emptied. The last observer of an object that is not
    /// queued gives the notification slot up.
    pub open spec fn without(self, i: int) -> WaitView {
        let waiters = self.waiters.update(i, None);
        WaitView {
            waiters,
            notification: if occupied(waiters) == 0 && !self.scheduled {
                None
            } else {
                self.notification
            },
            ..self
        }
    }

    /// The notification slot that emptying slot `i` gives up.
    pub open spec fn given_up(self, i: int) -> Option<Reservation> {
        if occupied(self.waiters.update(i, None)) == 0 && !self.scheduled {
            self.notification
        } else {
            None
        }
    }

    /// The state in which the observer in slot `i` has seen everything.
    pub open spec fn caught_up(self, i: int) -> WaitView {
        WaitView {
            waiters: self.waiters.update(
                i,
                Some(RegisteredView { seen: generations_of(self.epochs), ..self.waiters[i]->0 }),
            ),
            ..self
        }
    }

    /// The state of an object that has just been made, at this level: nothing was ever
    /// published, and nobody observes it.
    pub open spec fn fresh(initial: ObjectSignals) -> WaitView {
        WaitView {
            signals: initial,
            next_id: 1,
            serial: 0,
            epochs: Seq::new(
                signals::COUNT as nat,
                |i: int| SignalEpoch { generation: 0, serial: 0, snapshot: signals::NONE },
            ),
            waiters: Seq::empty(),
            scan_cursor: 0,
            scan_remaining: 0,
            scan_serial: 0,
            dirty: false,
            scheduled: false,
            notification: None,
        }
    }

    /// The levels and their history are those of `other`; only who observes them, and how
    /// far they have been told, may differ.
    pub open spec fn same_levels(self, other: WaitView) -> bool {
        self.signals == other.signals && self.serial == other.serial && self.epochs == other.epochs
    }

    /// There is something to tell and someone to tell it to, and the object is not queued.
    pub open spec fn has_news(self) -> bool {
        !self.scheduled && self.dirty && self.active() > 0
    }

    /// The slot to queue the object in, and the object that the first observer names.
    pub open spec fn news(self) -> Option<(Reservation, Koid)> {
        if self.has_news() {
            Some(
                (
                    self.notification->0,
                    self.waiters[taken_slot(self.waiters, 0)]->0.subscription.object,
                ),
            )
        } else {
            None
        }
    }

    /// The state once the object is queued, if it has news.
    pub open spec fn queued(self) -> WaitView {
        if self.has_news() {
            WaitView { notification: None, scheduled: true, ..self.rescan() }
        } else {
            self
        }
    }

    /// The state at the start of a fresh walk over all slots.
    pub open spec fn rescan(self) -> WaitView {
        WaitView {
            scan_serial: self.serial,
            scan_remaining: self.waiters.len() as usize,
            dirty: false,
            ..self
        }
    }
}

/// One step of taking a closed object's observers out.
#[derive(Clone, Copy, Debug, PartialEq, Eq, Structural)]
pub enum RetireStep {
    /// A free slot was dropped.
    Progress,
    /// `outcome` is to be offered to an observer that has left.
    Offer { subscription: Subscription, outcome: WaitOutcome, returned: Option<Reservation> },
    /// No slot is left.
    Done,
}

impl RetireStep {
    /// What the step comes to once the outcome was offered: an observer that
    /// accepted it is to be finished.
    pub fn settle(self, offered: OfferResult) -> (r: WaitAdvance)
        ensures
            r == match self {
                RetireStep::Progress => WaitAdvance::Progress(None),
                RetireStep::Done => WaitAdvance::Done,
                RetireStep::Offer { subscription, .. } => if offered == OfferResult::Complete {
                    WaitAdvance::Complete { sink: subscription.sink, retired: Some(subscription) }
                } else {
                    WaitAdvance::Progress(Some(subscription))
                },
            },
    {
        match self {
            RetireStep::Progress => WaitAdvance::Progress(None),
            RetireStep::Done => WaitAdvance::Done,
            RetireStep::Offer { subscription, .. } => match offered {
                OfferResult::Complete => WaitAdvance::Complete {
                    sink: subscription.sink,
                    retired: Some(subscription),
                },
                _ => WaitAdvance::Progress(Some(subscription)),
            },
        }
    }
}

impl WaitView {
    /// A step of the walk passes a slot.
    pub open spec fn walks(self) -> bool {
        &&& self.scheduled
        &&& self.active() > 0
        &&& self.scan_remaining != 0 || self.dirty || self.scan_serial != self.serial
    }

    /// The state in which a step of the walk begins: a finished walk that has missed
    /// a publication starts over.
    pub open spec fn walk_start(self) -> WaitView {
        if self.scan_remaining == 0 {
            self.rescan()
        } else {
            self
        }
    }

    /// The slot that a step of the walk passes.
    pub open spec fn walk_slot(self) -> int {
        self.scan_cursor as int % self.waiters.len() as int
    }

    /// The state once that slot is passed.
    pub open spec fn walk_passed(self) -> WaitView {
        WaitView {
            scan_cursor: ((self.walk_slot() + 1) % self.waiters.len() as int) as usize,
            scan_remaining: (self.scan_remaining - 1) as usize,
            ..self
        }
    }

    /// The observer in slot `i` leaves when an outcome was offered to it and `offered`
    /// became of that.
    pub open spec fn leaves(self, i: int, offered: OfferResult) -> bool {
        signals::closed(self.signals) || (offered != OfferResult::Deferred
            && !self.waiters[i]->0.subscription.persistent)
    }

    /// The state after an outcome was offered to the observer in slot `i`.
    pub open spec fn settled(self, i: int, offered: OfferResult) -> WaitView {
        if self.leaves(i, offered) {
            self.without(i)
        } else {
            self
        }
    }

    /// The state without its last slot.
    pub open spec fn popped(self) -> WaitView {
        let waiters = self.waiters.drop_last();
        WaitView {
            waiters,
            notification: if self.waiters.last() is Some && occupied(waiters) == 0
                && !self.scheduled {
                None
            } else {
                self.notification
            },
            ..self
        }
    }
}

/// Dropping the last slot keeps the state well formed.
proof fn popped_keeps_wf(state: WaitView)
    requires
        state.wf(),
        state.waiters.len() > 0,
    ensures
        state.popped().wf(),
        state.waiters.last() is Some ==> state.popped().active() == state.active() - 1,
        state.waiters.last() is None ==> state.popped().active() == state.active(),
        occupied(state.waiters.update(state.waiters.len() - 1, None)) == occupied(
            state.waiters.drop_last(),
        ),
{
    let after = state.popped();
    let last = state.waiters.len() - 1;
    occupied_update(state.waiters, last, None);
    assert forall|k: int|
        0 <= k < after.waiters.len() && (#[trigger] after.waiters[k]) is Some implies {
        let w = after.waiters[k]->0;
        &&& w.id != 0
        &&& after.next_id == 0 || w.id < after.next_id
        &&& w.seen.len() == signals::COUNT
        &&& forall|m: int|
            0 <= m < signals::COUNT ==> w.seen[m] <= (#[trigger] after.epochs[m]).generation
    } by {
        assert(after.waiters[k] == state.waiters[k]);
    }
    assert forall|k: int, j: int|
        0 <= k < j < after.waiters.len() && (#[trigger] after.waiters[k]) is Some && (
        #[trigger] after.waiters[j]) is Some implies after.waiters[k]->0.id
        != after.waiters[j]->0.id by {
        assert(after.waiters[k] == state.waiters[k] && after.waiters[j] == state.waiters[j]);
    }
}

/// The count grows by one with a taken slot at the end.
proof fn occupied_push(waiters: Seq<Option<RegisteredView>>, slot: Option<RegisteredView>)
    ensures
        occupied(waiters.push(slot)) == occupied(waiters) + (if slot is Some {
            1nat
        } else {
            0nat
        }),
{
    assert(waiters.push(slot).drop_last() =~= waiters);
}

/// Registering keeps the state well formed and adds one observer.
proof fn registered_keeps_wf(
    state: WaitView,
    subscription: Subscription,
    notification: Option<Reservation>,
    room: bool,
)
    requires
        state.wf(),
        state.subscribe_result(subscription, notification, room) is Registered,
    ensures
        state.registered(subscription, notification).wf(),
        state.registered(subscription, notification).active() == state.active() + 1,
{
    let after = state.registered(subscription, notification);
    let slot = free_slot(state.waiters, 0);
    free_slot_facts(state.waiters, 0);
    occupied_bounds(state.waiters);
    let entry = Some(
        RegisteredView { id: state.next_id, subscription, seen: generations_of(state.epochs) },
    );
    if slot < state.waiters.len() {
        occupied_update(state.waiters, slot, entry);
    } else {
        occupied_push(state.waiters, entry);
    }
    assert forall|i: int|
        0 <= i < after.waiters.len() && (#[trigger] after.waiters[i]) is Some implies {
        let w = after.waiters[i]->0;
        &&& w.id != 0
        &&& after.next_id == 0 || w.id < after.next_id
        &&& w.seen.len() == signals::COUNT
        &&& forall|k: int|
            0 <= k < signals::COUNT ==> w.seen[k] <= (#[trigger] after.epochs[k]).generation
    } by {
        if i != slot {
            assert(after.waiters[i] == state.waiters[i]);
        }
    }
    assert forall|i: int, j: int|
        0 <= i < j < after.waiters.len() && (#[trigger] after.waiters[i]) is Some && (
        #[trigger] after.waiters[j]) is Some implies after.waiters[i]->0.id
        != after.waiters[j]->0.id by {
        if i != slot {
            assert(after.waiters[i] == state.waiters[i]);
        }
        if j != slot {
            assert(after.waiters[j] == state.waiters[j]);
        }
    }
}

/// Emptying a taken slot keeps the state well formed and takes one observer away.
proof fn without_keeps_wf(state: WaitView, i: int)
    requires
        state.wf(),
        0 <= i < state.waiters.len(),
        state.waiters[i] is Some,
    ensures
        state.without(i).wf(),
        state.without(i).active() == state.active() - 1,
{
    occupied_update(state.waiters, i, None);
    let after = state.without(i);
    assert forall|k: int|
        0 <= k < after.waiters.len() && (#[trigger] after.waiters[k]) is Some implies {
        let w = after.waiters[k]->0;
        &&& w.id != 0
        &&& after.next_id == 0 || w.id < after.next_id
        &&& w.seen.len() == signals::COUNT
        &&& forall|m: int|
            0 <= m < signals::COUNT ==> w.seen[m] <= (#[trigger] after.epochs[m]).generation
    } by {
        assert(after.waiters[k] == state.waiters[k]);
    }
}

/// Letting an observer catch up keeps the state well formed.
proof fn caught_up_keeps_wf(state: WaitView, i: int)
    requires
        state.wf(),
        0 <= i < state.waiters.len(),
        state.waiters[i] is Some,
    ensures
        state.caught_up(i).wf(),
        state.caught_up(i).active() == state.active(),
{
    let after = state.caught_up(i);
    occupied_update(state.waiters, i, after.waiters[i]);
    assert forall|k: int|
        0 <= k < after.waiters.len() && (#[trigger] after.waiters[k]) is Some implies {
        let w = after.waiters[k]->0;
        &&& w.id != 0
        &&& after.next_id == 0 || w.id < after.next_id
        &&& w.seen.len() == signals::COUNT
        &&& forall|m: int|
            0 <= m < signals::COUNT ==> w.seen[m] <= (#[trigger] after.epochs[m]).generation
    } by {
        assert(state.waiters[k] is Some);
    }
    assert forall|k: int, j: int|
        0 <= k < j < after.waiters.len() && (#[trigger] after.waiters[k]) is Some && (
        #[trigger] after.waiters[j]) is Some implies after.waiters[k]->0.id
        != after.waiters[j]->0.id by {
        assert(state.waiters[k] is Some && state.waiters[j] is Some);
    }
}

/// What the first free slot is.
proof fn free_slot_facts(waiters: Seq<Option<RegisteredView>>, from: int)
    requires
        0 <= from <= waiters.len(),
    ensures
        from <= free_slot(waiters, from) <= waiters.len(),
        free_slot(waiters, from) < waiters.len() ==> waiters[free_slot(waiters, from)] is None,
        forall|i: int| from <= i < free_slot(waiters, from) ==> (#[trigger] waiters[i]) is Some,
    decreases waiters.len() - from,
{
    if from < waiters.len() && waiters[from] is Some {
        free_slot_facts(waiters, from + 1);
    }
}

/// What the first taken slot is.
proof fn taken_slot_facts(waiters: Seq<Option<RegisteredView>>, from: int)
    requires
        0 <= from <= waiters.len(),
    ensures
        from <= taken_slot(waiters, from) <= waiters.len(),
        taken_slot(waiters, from) < waiters.len() ==> waiters[taken_slot(waiters, from)] is Some,
        forall|i: int| from <= i < taken_slot(waiters, from) ==> (#[trigger] waiters[i]) is None,
    decreases waiters.len() - from,
{
    if from < waiters.len() && waiters[from] is None {
        taken_slot_facts(waiters, from + 1);
    }
}

impl ObjectWaitState {
    /// What every operation keeps.
    pub closed spec fn wf(&self) -> bool {
        &&& self@.wf()
        &&& self.active_waiters == self@.active()
    }

    /// A state without history or observers.
    pub fn new(initial: ObjectSignals) -> (r: ObjectWaitState)
        ensures
            r.wf(),
            r@ == WaitView::fresh(initial),
    {
        let mut epochs: Vec<SignalEpoch> = Vec::new();
        let mut index: usize = 0;
        let empty = SignalEpoch { generation: 0, serial: 0, snapshot: signals::NONE };
        while index < signals::COUNT
            invariant
                index <= signals::COUNT,
                epochs.len() == index,
                empty == (SignalEpoch { generation: 0, serial: 0, snapshot: signals::NONE }),
                forall|i: int| 0 <= i < index ==> epochs[i] == empty,
            decreases signals::COUNT - index,
        {
            epochs.push(empty);
            index = index + 1;
        }
        ObjectWaitState {
            signals: initial,
            next_id: 1,
            serial: 0,
            epochs,
            waiters: Vec::new(),
            active_waiters: 0,
            scan_cursor: 0,
            scan_remaining: 0,
            scan_serial: 0,
            dirty: false,
            scheduled: false,
            notification: None,
        }
    }

    /// The current levels.
    pub fn signals(&self) -> (r: ObjectSignals)
        ensures
            r == self@.signals,
    {
        self.signals
    }

    /// Publishes: clears `clear`, then sets `set`, and returns the levels. The
    /// cost is that of the fixed set of levels, whatever the number of observers.
    pub fn update(&mut self, clear: ObjectSignals, set: ObjectSignals) -> (r: ObjectSignals)
        requires
            old(self).wf(),
        ensures
            final(self).wf(),
            final(self)@ == old(self)@.updated(clear, set),
            r == final(self)@.signals,
    {
        proof {
            update_keeps_wf(self@, clear, set);
        }
        if signals::contains(self.signals, signals::CLOSED) {
            return self.signals;
        }
        let ghost before = self@;
        let previous: ObjectSignals = self.signals;
        self.signals = (self.signals & !clear) | set;
        let activated: ObjectSignals = self.signals & !previous;
        if activated == signals::NONE {
            if self.scheduled && self.signals != previous {
                self.dirty = true;
            }
            assert(self@ =~= before.updated(clear, set));
            return self.signals;
        }
        if self.serial == u64::MAX {
            self.signals = signals::CLOSED;
            self.record_activated(signals::CLOSED, u64::MAX);
            self.dirty = true;
            assert(self@ =~= before.updated(clear, set));
            return self.signals;
        }
        let serial: u64 = self.serial + 1;
        self.serial = serial;
        self.record_activated(activated, serial);
        self.dirty = true;
        assert(self@ =~= before.updated(clear, set));
        self.signals
    }

    /// Records the levels that have just come up.
    fn record_activated(&mut self, activated: ObjectSignals, serial: u64)
        requires
            old(self).epochs.len() == signals::COUNT,
        ensures
            final(self)@ == (WaitView {
                epochs: recorded(old(self)@.epochs, old(self)@.signals, activated, serial).0,
                signals: recorded(old(self)@.epochs, old(self)@.signals, activated, serial).1,
                ..old(self)@
            }),
            final(self).active_waiters == old(self).active_waiters,
    {
        let ghost before = self@;
        let mut index: usize = 0;
        proof {
            first_saturated_bounds(self.epochs@, activated, 0);
        }
        while index < signals::COUNT
            invariant
                index <= signals::COUNT,
                self.epochs.len() == signals::COUNT,
                before.epochs.len() == signals::COUNT,
                first_saturated(before.epochs, activated, 0) == first_saturated(
                    before.epochs,
                    activated,
                    index as int,
                ),
                index <= first_saturated(before.epochs, activated, 0) <= signals::COUNT,
                self@ == (WaitView { epochs: self.epochs@, ..before }),
                self.active_waiters == old(self).active_waiters,
                before == old(self)@,
                forall|i: int|
                    0 <= i < index && signals::meets(activated, signals::bit(i)) ==> (
                    #[trigger] self.epochs[i]) == (SignalEpoch {
                        generation: next_generation(before.epochs[i].generation),
                        serial,
                        snapshot: before.signals,
                    }),
                forall|i: int|
                    0 <= i < index && !signals::meets(activated, signals::bit(i)) ==> (
                    #[trigger] self.epochs[i]) == before.epochs[i],
                forall|i: int| index <= i < signals::COUNT ==> self.epochs[i] == before.epochs[i],
            decreases signals::COUNT - index,
        {
            if signals::intersects(activated, signals::bit_at(index)) {
                let epoch = self.epochs[index];
                if epoch.generation == u64::MAX {
                    self.signals = signals::CLOSED;
                    let generation: u64 = self.epochs[signals::CLOSED_INDEX].generation;
                    self.epochs.set(
                        signals::CLOSED_INDEX,
                        SignalEpoch {
                            generation: if generation < u64::MAX {
                                generation + 1
                            } else {
                                generation
                            },
                            serial,
                            snapshot: signals::CLOSED,
                        },
                    );
                    assert(self.epochs@ =~= recorded(
                        before.epochs,
                        before.signals,
                        activated,
                        serial,
                    ).0);
                    assert(self@ =~= (WaitView {
                        epochs: recorded(before.epochs, before.signals, activated, serial).0,
                        signals: recorded(before.epochs, before.signals, activated, serial).1,
                        ..before
                    }));
                    return ;
                }
                self.epochs.set(
                    index,
                    SignalEpoch {
                        generation: epoch.generation + 1,
                        serial,
                        snapshot: self.signals,
                    },
                );
            }
            proof {
                first_saturated_bounds(before.epochs, activated, index + 1);
            }
            index = index + 1;
            assert(self@ =~= (WaitView { epochs: self.epochs@, ..before }));
        }
        assert(self.epochs@ =~= recorded(before.epochs, before.signals, activated, serial).0);
    }

    /// Whether a notification slot has to be bought before an observer can be
    /// registered.
    pub fn needs_notification(&self) -> (r: bool)
        requires
            self.wf(),
        ensures
            r == self@.needs_notification(),
    {
        self.active_waiters == 0 && !self.scheduled
    }

    /// The first free slot, or the number of slots.
    fn find_free(&self) -> (r: usize)
        ensures
            r == free_slot(self@.waiters, 0),
    {
        let mut index: usize = 0;
        while index < self.waiters.len()
            invariant
                index <= self.waiters.len(),
                free_slot(self@.waiters, 0) == free_slot(self@.waiters, index as int),
            decreases self.waiters.len() - index,
        {
            if self.waiters[index].is_none() {
                return index;
            }
            index = index + 1;
        }
        index
    }

    /// The slot of the observer with identity `id`.
    fn find(&self, id: u64) -> (r: Option<usize>)
        ensures
            r matches Some(i) ==> self@.holds(id, i as int),
            r is None ==> forall|i: int| !self@.holds(id, i),
    {
        let mut index: usize = 0;
        while index < self.waiters.len()
            invariant
                index <= self.waiters.len(),
                forall|i: int| 0 <= i < index ==> !self@.holds(id, i),
            decreases self.waiters.len() - index,
        {
            if let Some(w) = &self.waiters[index] {
                if w.id == id {
                    return Some(index);
                }
            }
            index = index + 1;
        }
        None
    }

    /// Registers an observer, or answers it at once. `notification` is the slot
    /// bought in case one is needed (see [`ObjectWaitState::needs_notification`]);
    /// `room` says whether another observer slot can be had. On every failure the
    /// state is unchanged.
    pub fn subscribe(
        &mut self,
        subscription: Subscription,
        notification: Option<Reservation>,
        room: bool,
    ) -> (r: Subscribed)
        requires
            old(self).wf(),
        ensures
            final(self).wf(),
            r.result == old(self)@.subscribe_result(subscription, notification, room),
            r.result is Registered ==> final(self)@ == old(self)@.registered(
                subscription,
                notification,
            ),
            r.result is Registered ==> final(self)@.active() == old(self)@.active() + 1,
            !(r.result is Registered) ==> final(self)@ == old(self)@,
            r.returned == if r.result is Registered && old(self)@.needs_notification() {
                None
            } else {
                notification
            },
            r.offer == if r.result is Registered && subscription.persistent {
                subscription.spec_outcome(old(self)@.signals)
            } else {
                None
            },
    {
        let immediate = subscription.outcome(self.signals);
        if !subscription.persistent || signals::intersects(self.signals, signals::CLOSED) {
            if let Some(outcome) = immediate {
                return Subscribed {
                    result: SubscribeResult::Ready { outcome, retired: subscription },
                    offer: None,
                    returned: notification,
                };
            }
        }
        if self.active_waiters >= OBJECT_WAIT_LIMIT || self.next_id == 0 {
            return Subscribed {
                result: SubscribeResult::ReachLimit(subscription),
                offer: None,
                returned: notification,
            };
        }
        let needed: bool = self.needs_notification();
        if needed && notification.is_none() {
            return Subscribed {
                result: SubscribeResult::OutOfMemory(subscription),
                offer: None,
                returned: notification,
            };
        }
        let slot: usize = self.find_free();
        if slot == self.waiters.len() && !room {
            return Subscribed {
                result: SubscribeResult::OutOfMemory(subscription),
                offer: None,
                returned: notification,
            };
        }
        let ghost before = self@;
        proof {
            free_slot_facts(self@.waiters, 0);
            registered_keeps_wf(self@, subscription, notification, room);
        }
        let id: u64 = self.next_id;
        self.next_id = if id == u64::MAX {
            0
        } else {
            id + 1
        };
        let entry = RegisteredSubscription { id, subscription, seen: generations(&self.epochs) };
        if slot < self.waiters.len() {
            self.waiters.set(slot, Some(entry));
        } else {
            self.waiters.push(Some(entry));
        }
        self.active_waiters = self.active_waiters + 1;
        if self.scheduled {
            self.dirty = true;
        }
        if needed {
            self.notification = notification;
        }
        assert(self@.waiters =~= before.registered(subscription, notification).waiters);
        assert(self@ =~= before.registered(subscription, notification));
        Subscribed {
            result: SubscribeResult::Registered(id),
            offer: if subscription.persistent {
                immediate
            } else {
                None
            },
            returned: if needed {
                None
            } else {
                notification
            },
        }
    }

    /// Starts the observer with identity `id` again, where `restarted` is what
    /// restarting its sink gave. It has then seen everything; what the current
    /// levels mean to it is to be offered before it is armed.
    pub fn rearm_observer(
        &mut self,
        id: u64,
        restarted: Result<u64, SystemCallError>,
    ) -> (r: Result<ObserverRearm, SystemCallError>)
        requires
            old(self).wf(),
        ensures
            final(self).wf(),
            (forall|i: int| !old(self)@.holds(id, i)) ==> r == Err::<ObserverRearm, _>(
                SystemCallError::ObjectNotFound,
            ),
            (exists|i: int| old(self)@.holds(id, i)) ==> match restarted {
                Err(error) => r == Err::<ObserverRearm, _>(error),
                Ok(generation) => exists|i: int| #[trigger]
                    old(self)@.holds(id, i) && r == Ok::<_, SystemCallError>(
                        ObserverRearm {
                            generation,
                            sink: old(self)@.waiters[i]->0.subscription.sink,
                            offer: old(self)@.waiters[i]->0.subscription.spec_outcome(
                                old(self)@.signals,
                            ),
                        },
                    ) && final(self)@ == old(self)@.caught_up(i),
            },
            r is Err ==> final(self)@ == old(self)@,
    {
        let slot = match self.find(id) {
            Some(slot) => slot,
            None => {
                return Err(SystemCallError::ObjectNotFound);
            },
        };
        let generation = match restarted {
            Ok(generation) => generation,
            Err(error) => {
                return Err(error);
            },
        };
        let ghost before = self@;
        assert(before.holds(id, slot as int));
        let subscription = self.catch_up(slot);
        Ok(
            ObserverRearm {
                generation,
                sink: subscription.sink,
                offer: subscription.outcome(self.signals),
            },
        )
    }

    /// Lets the observer in `slot` have seen everything.
    fn catch_up(&mut self, slot: usize) -> (r: Subscription)
        requires
            old(self).wf(),
            slot < old(self)@.waiters.len(),
            old(self)@.waiters[slot as int] is Some,
        ensures
            final(self).wf(),
            final(self)@ == old(self)@.caught_up(slot as int),
            final(self)@.active() == old(self)@.active(),
            r == old(self)@.waiters[slot as int]->0.subscription,
    {
        let ghost before = self@;
        proof {
            caught_up_keeps_wf(self@, slot as int);
        }
        let seen = generations(&self.epochs);
        let w = self.waiters[slot].take().unwrap();
        let subscription = w.subscription;
        self.waiters.set(slot, Some(RegisteredSubscription { id: w.id, subscription, seen }));
        assert(self@.waiters =~= before.caught_up(slot as int).waiters);
        assert(self@ =~= before.caught_up(slot as int));
        subscription
    }

    /// Empties a taken slot.
    fn take_slot(&mut self, slot: usize) -> (r: (Subscription, Option<Reservation>))
        requires
            old(self).wf(),
            slot < old(self)@.waiters.len(),
            old(self)@.waiters[slot as int] is Some,
        ensures
            final(self).wf(),
            final(self)@ == old(self)@.without(slot as int),
            final(self)@.active() == old(self)@.active() - 1,
            r.0 == old(self)@.waiters[slot as int]->0.subscription,
            r.1 == old(self)@.given_up(slot as int),
    {
        let ghost before = self@;
        proof {
            without_keeps_wf(self@, slot as int);
        }
        let subscription = self.waiters[slot].take().unwrap().subscription;
        assert(self@.waiters =~= before.without(slot as int).waiters);
        self.active_waiters = self.active_waiters - 1;
        let mut returned: Option<Reservation> = None;
        if self.active_waiters == 0 && !self.scheduled {
            returned = self.notification.take();
        }
        assert(self@ =~= before.without(slot as int));
        (subscription, returned)
    }

    /// Takes the observer with identity `id` out; its cancellation is to be
    /// offered to it.
    pub fn cancel_observer(&mut self, id: u64) -> (r: Option<CancelledObservation>)
        requires
            old(self).wf(),
        ensures
            final(self).wf(),
            r is None <==> forall|i: int| !old(self)@.holds(id, i),
            r is None ==> final(self)@ == old(self)@,
            r matches Some(cancelled) ==> exists|i: int| #[trigger]
                old(self)@.holds(id, i) && final(self)@ == old(self)@.without(i) && cancelled == (
                CancelledObservation {
                    sink: old(self)@.waiters[i]->0.subscription.sink,
                    offer: WaitOutcome::Cancelled,
                    retired: old(self)@.waiters[i]->0.subscription,
                    returned: old(self)@.given_up(i),
                }),
    {
        let slot = match self.find(id) {
            Some(slot) => slot,
            None => {
                return None;
            },
        };
        assert(old(self)@.holds(id, slot as int));
        let (retired, returned) = self.take_slot(slot);
        Some(
            CancelledObservation {
                sink: retired.sink,
                offer: WaitOutcome::Cancelled,
                retired,
                returned,
            },
        )
    }

    /// Takes the observer with identity `id` out, and hands back the notification
    /// slot if it was the last to need it.
    pub fn unsubscribe(&mut self, id: u64) -> (r: Option<(Subscription, Option<Reservation>)>)
        requires
            old(self).wf(),
        ensures
            final(self).wf(),
            r is None <==> forall|i: int| !old(self)@.holds(id, i),
            r is None ==> final(self)@ == old(self)@,
            r matches Some(out) ==> exists|i: int| #[trigger]
                old(self)@.holds(id, i) && final(self)@ == old(self)@.without(i) && out == (
                    old(self)@.waiters[i]->0.subscription,
                    old(self)@.given_up(i),
                ),
    {
        match self.find(id) {
            Some(slot) => {
                assert(old(self)@.holds(id, slot as int));
                Some(self.take_slot(slot))
            },
            None => None,
        }
    }

    /// Queues the object if there is something to tell and someone to tell it to:
    /// the notification slot to queue it in, and the object that the first observer
    /// names.
    pub fn take_notification(&mut self) -> (r: Option<(Reservation, Koid)>)
        requires
            old(self).wf(),
        ensures
            final(self).wf(),
            r == old(self)@.news(),
            final(self)@ == old(self)@.queued(),
            r is Some ==> old(self)@.notification is Some && 0 <= taken_slot(
                old(self)@.waiters,
                0,
            ) < old(self)@.waiters.len(),
    {
        if self.scheduled || !self.dirty || self.active_waiters == 0 {
            return None;
        }
        let ghost before = self@;
        proof {
            occupied_bounds(self@.waiters);
            taken_slot_facts(self@.waiters, 0);
        }
        let mut index: usize = 0;
        while self.waiters[index].is_none()
            invariant
                index <= taken_slot(self@.waiters, 0),
                taken_slot(self@.waiters, 0) == taken_slot(self@.waiters, index as int),
                taken_slot(self@.waiters, 0) < self@.waiters.len(),
            decreases taken_slot(self@.waiters, 0) - index,
        {
            proof {
                taken_slot_facts(self@.waiters, index + 1);
            }
            assert(index < self.waiters.len());
            index = index + 1;
        }
        let object: Koid = self.waiters[index].as_ref().unwrap().subscription.object;
        let reservation = self.notification.take().unwrap();
        self.scheduled = true;
        self.scan_serial = self.serial;
        self.scan_remaining = self.waiters.len();
        self.dirty = false;
        assert(self@.waiters =~= before.waiters);
        Some((reservation, object))
    }

    /// One step of the walk over the observers of a queued object: at most one slot
    /// is passed. The next publication starts the walk over.
    pub fn advance_waiter(&mut self) -> (r: WaitAdvance)
        requires
            old(self).wf(),
        ensures
            final(self).wf(),
            final(self)@.active() == old(self)@.active(),
            !old(self)@.walks() ==> r is Done && final(self)@ == old(self)@,
            old(self)@.walks() ==> walk_step(old(self)@, final(self)@) && !(r is Done),
            old(self)@.walks() ==> {
                let start = old(self)@.walk_start();
                let slot = start.walk_slot();
                let passed = start.walk_passed();
                &&& 0 <= slot < start.waiters.len()
                &&& match start.waiters[slot] {
                    None => r == WaitAdvance::Progress(None) && final(self)@ == passed,
                    Some(w) => {
                        &&& final(self)@ == passed.caught_up(slot)
                        &&& exists|selected: Option<ObjectSignals>| #[trigger]
                            selects(
                                start.epochs,
                                w.seen,
                                w.subscription.interest,
                                start.signals,
                                selected,
                            ) && r == match selected {
                                None => WaitAdvance::Progress(None),
                                Some(levels) => WaitAdvance::Offer {
                                    slot: slot as usize,
                                    subscription: w.subscription,
                                    outcome: WaitOutcome::Observed(levels),
                                },
                            }
                    },
                }
            },
    {
        if !self.scheduled {
            return WaitAdvance::Done;
        }
        if self.active_waiters == 0 {
            return WaitAdvance::Done;
        }
        let ghost before = self@;
        if self.scan_remaining == 0 {
            if self.dirty || self.scan_serial != self.serial {
                self.scan_serial = self.serial;
                self.scan_remaining = self.waiters.len();
                self.dirty = false;
            } else {
                return WaitAdvance::Done;
            }
        }
        proof {
            occupied_bounds(self@.waiters);
            assert(self@.waiters =~= before.waiters);
            assert(self@ =~= before.walk_start());
        }
        let ghost start = self@;
        let len: usize = self.waiters.len();
        let index: usize = self.scan_cursor % len;
        self.scan_cursor = (index + 1) % len;
        self.scan_remaining = self.scan_remaining - 1;
        assert(self@.waiters =~= start.waiters);
        assert(self@ =~= start.walk_passed());
        let ghost w = start.waiters[index as int];
        let selected = match &self.waiters[index] {
            None => {
                return WaitAdvance::Progress(None);
            },
            Some(w) => select_snapshot(
                &self.epochs,
                &w.seen,
                w.subscription.interest,
                self.signals,
            ),
        };
        let subscription = self.catch_up(index);
        match selected {
            None => WaitAdvance::Progress(None),
            Some(levels) => {
                proof {
                    selected_is_observed(
                        start.epochs,
                        w->0.seen,
                        start.serial,
                        subscription,
                        start.signals,
                        levels,
                    );
                }
                WaitAdvance::Offer {
                    slot: index,
                    subscription,
                    outcome: subscription.outcome(levels).unwrap(),
                }
            },
        }
    }

    /// Acts on what became of the outcome offered to the observer in `slot`. An
    /// observer leaves when its wait was finished or decided elsewhere, unless it is
    /// persistent; with a closed object every observer leaves.
    pub fn settle_offer(&mut self, slot: usize, offered: OfferResult) -> (r: WaitAdvance)
        requires
            old(self).wf(),
            old(self)@.scheduled,
            slot < old(self)@.waiters.len(),
            old(self)@.waiters[slot as int] is Some,
        ensures
            final(self).wf(),
            ({
                let subscription = old(self)@.waiters[slot as int]->0.subscription;
                let retired = if old(self)@.leaves(slot as int, offered) {
                    Some(subscription)
                } else {
                    None
                };
                r == if offered == OfferResult::Complete {
                    WaitAdvance::Complete { sink: subscription.sink, retired }
                } else {
                    WaitAdvance::Progress(retired)
                }
            }),
            final(self)@ == old(self)@.settled(slot as int, offered),
    {
        let subscription = self.waiters[slot].as_ref().unwrap().subscription;
        let closed: bool = signals::intersects(self.signals, signals::CLOSED);
        match offered {
            OfferResult::Deferred => {
                if closed {
                    WaitAdvance::Progress(Some(self.take_slot(slot).0))
                } else {
                    WaitAdvance::Progress(None)
                }
            },
            OfferResult::Lost => {
                if !subscription.persistent || closed {
                    WaitAdvance::Progress(Some(self.take_slot(slot).0))
                } else {
                    WaitAdvance::Progress(None)
                }
            },
            OfferResult::Complete => {
                if subscription.persistent && !closed {
                    WaitAdvance::Complete { sink: subscription.sink, retired: None }
                } else {
                    WaitAdvance::Complete {
                        sink: subscription.sink,
                        retired: Some(self.take_slot(slot).0),
                    }
                }
            },
        }
    }

    /// Ends the walk of a queued object and says what becomes of its notification
    /// slot: kept while there are observers, given up without any, and queued again
    /// if a publication came in meanwhile.
    pub fn complete_notification(&mut self, reservation: Reservation) -> (r: Completion)
        requires
            old(self).wf(),
            old(self)@.scheduled,
        ensures
            final(self).wf(),
            final(self)@.active() == old(self)@.active(),
            old(self)@.active() == 0 ==> r == Completion::Release(reservation) && final(self)@ == (
            WaitView { scan_remaining: 0, scheduled: false, ..old(self)@ }),
            old(self)@.active() > 0 && old(self)@.dirty ==> r == Completion::Reschedule(
                reservation,
            ) && final(self)@ == old(self)@.rescan(),
            old(self)@.active() > 0 && !old(self)@.dirty ==> r == Completion::Held && final(self)@
                == (WaitView {
                scan_remaining: 0,
                scheduled: false,
                notification: Some(reservation),
                ..old(self)@
            }),
    {
        let ghost before = self@;
        self.scan_remaining = 0;
        if self.active_waiters == 0 {
            self.scheduled = false;
            assert(self@.waiters =~= before.waiters);
            Completion::Release(reservation)
        } else if self.dirty {
            self.scan_serial = self.serial;
            self.scan_remaining = self.waiters.len();
            self.dirty = false;
            assert(self@.waiters =~= before.waiters);
            Completion::Reschedule(reservation)
        } else {
            self.scheduled = false;
            self.notification = Some(reservation);
            assert(self@.waiters =~= before.waiters);
            Completion::Held
        }
    }

    /// Drops the last slot of a closed object. An observer that sat in it is to be
    /// offered the terminal observation.
    pub fn retire_closed_step(&mut self) -> (r: RetireStep)
        requires
            old(self).wf(),
            signals::closed(old(self)@.signals),
        ensures
            final(self).wf(),
            old(self)@.waiters.len() == 0 ==> r is Done && final(self)@ == old(self)@,
            old(self)@.waiters.len() > 0 ==> final(self)@ == old(self)@.popped(),
            old(self)@.waiters.len() > 0 ==> match old(self)@.waiters.last() {
                None => r is Progress,
                Some(w) => exists|levels: ObjectSignals| #[trigger]
                    selects(
                        old(self)@.epochs,
                        w.seen,
                        w.subscription.interest,
                        old(self)@.signals,
                        Some(levels),
                    ) && r == (RetireStep::Offer {
                        subscription: w.subscription,
                        outcome: WaitOutcome::Observed(levels),
                        returned: old(self)@.given_up(old(self)@.waiters.len() - 1),
                    }),
            },
    {
        let ghost before = self@;
        if self.waiters.len() == 0 {
            return RetireStep::Done;
        }
        proof {
            popped_keeps_wf(before);
        }
        let slot = self.waiters.pop().unwrap();
        assert(self@.waiters =~= before.waiters.drop_last());
        let w = match slot {
            None => {
                assert(self@ =~= before.popped());
                return RetireStep::Progress;
            },
            Some(w) => w,
        };
        self.active_waiters = self.active_waiters - 1;
        let mut returned: Option<Reservation> = None;
        if self.active_waiters == 0 && !self.scheduled {
            returned = self.notification.take();
        }
        assert(self@ =~= before.popped());
        let selected = select_snapshot(
            &self.epochs,
            &w.seen,
            w.subscription.interest,
            self.signals,
        );
        let levels = selected.unwrap();
        proof {
            assert(before.waiters.last() == Some(w@));
            assert(before.waiters[before.waiters.len() - 1] == Some(w@));
            assert(selects(
                before.epochs,
                w@.seen,
                w@.subscription.interest,
                before.signals,
                Some(levels),
            ));
            selected_is_observed(
                before.epochs,
                w.seen@,
                before.serial,
                w.subscription,
                before.signals,
                levels,
            );
        }
        RetireStep::Offer {
            subscription: w.subscription,
            outcome: w.subscription.outcome(levels).unwrap(),
            returned,
        }
    }

    /// Whether no subscription slot is left.
    pub fn subscriptions_retired(&self) -> (r: bool)
        ensures
            r == (self@.waiters.len() == 0),
    {
        self.waiters.len() == 0
    }

    /// How many observers are registered.
    pub fn active_waiters(&self) -> (r: usize)
        requires
            self.wf(),
        ensures
            r == self@.active(),
    {
        self.active_waiters
    }
}

impl ObjectWaitState {
    /// A well-formed state has a well-formed value.
    pub proof fn wf_view(&self)
        requires
            self.wf(),
        ensures
            self@.wf(),
    {
    }
}

/// A closed object is frozen: no publication changes anything.
pub proof fn closed_is_frozen(state: WaitView, clear: ObjectSignals, set: ObjectSignals)
    requires
        signals::closed(state.signals),
    ensures
        state.updated(clear, set) == state,
{
}

/// A publication that sets the terminal level closes the object.
pub proof fn publishing_closed_closes(state: WaitView, clear: ObjectSignals, set: ObjectSignals)
    requires
        signals::closed(set),
    ensures
        signals::closed(state.updated(clear, set).signals),
{
    signals::closed_is_last();
    let before = state.signals;
    assert(((before & !clear) | set) & 0x100 != 0) by (bit_vector)
        requires
            set & 0x100 != 0,
    ;
}

/// After a publication the levels that it sets are shown, unless the object is closed.
pub proof fn update_shows(state: WaitView, clear: ObjectSignals, set: ObjectSignals)
    ensures
        ({
            let after = state.updated(clear, set).signals;
            signals::closed(after) || after & set == set
        }),
{
    signals::closed_is_last();
    let before = state.signals;
    assert(((before & !clear) | set) & set == set) by (bit_vector);
}

/// A publication shows exactly the levels that it leaves, as long as the counter of
/// publications is not spent; then it shows the terminal one alone.
pub proof fn publication_is_exact(state: WaitView, clear: ObjectSignals, set: ObjectSignals)
    requires
        state.wf(),
        !signals::closed(state.signals),
    ensures
        ({
            let after = state.updated(clear, set);
            ||| after.signals == (state.signals & !clear) | set
            ||| after.signals == signals::CLOSED && after.serial == u64::MAX
        }),
        state.serial < u64::MAX ==> state.updated(clear, set).signals == (state.signals & !clear)
            | set,
{
    signals::closed_is_last();
    let activated = ((state.signals & !clear) | set) & !state.signals;
    if state.serial < u64::MAX {
        unsaturated(state.epochs, activated, 0);
    }
}

/// Clearing levels does not touch the history.
pub proof fn clearing_keeps_history(state: WaitView, clear: ObjectSignals)
    ensures
        state.updated(clear, signals::NONE).epochs == state.epochs,
        state.updated(clear, signals::NONE).serial == state.serial,
{
    let before = state.signals;
    assert(((before & !clear) | 0u64) & !before == 0) by (bit_vector);
}

/// A level that comes up is news to every registered observer that asks for it,
/// as long as the counters are not spent.
pub proof fn activation_is_news(
    state: WaitView,
    clear: ObjectSignals,
    set: ObjectSignals,
    slot: int,
    i: int,
)
    requires
        state.wf(),
        !signals::closed(state.signals),
        state.serial < u64::MAX,
        0 <= slot < state.waiters.len(),
        state.waiters[slot] is Some,
        0 <= i < signals::COUNT,
        signals::meets(((state.signals & !clear) | set) & !state.signals, signals::bit(i)),
        signals::meets(state.waiters[slot]->0.subscription.interest, signals::bit(i)) || i
            == signals::CLOSED_INDEX,
    ensures
        eligible(
            state.updated(clear, set).epochs,
            state.waiters[slot]->0.seen,
            state.waiters[slot]->0.subscription.interest,
            i,
        ),
        state.updated(clear, set).dirty,
{
    let before = state.signals;
    let levels = (before & !clear) | set;
    let b = signals::bit(i);
    assert(levels & !before != 0) by (bit_vector)
        requires
            (levels & !before) & b != 0,
    ;
    first_saturated_bounds(state.epochs, levels & !before, 0);
    let stop = first_saturated(state.epochs, levels & !before, 0);
    unsaturated(state.epochs, levels & !before, 0);
    assert(stop == signals::COUNT);
    assert(state.waiters[slot]->0.seen[i] <= state.epochs[i].generation);
}

/// Without a spent generation nothing stops a recording.
proof fn unsaturated(epochs: Seq<SignalEpoch>, activated: ObjectSignals, from: int)
    requires
        0 <= from <= signals::COUNT,
        forall|k: int| 0 <= k < signals::COUNT ==> (#[trigger] epochs[k]).generation < u64::MAX,
    ensures
        first_saturated(epochs, activated, from) == signals::COUNT,
    decreases signals::COUNT - from,
{
    if from < signals::COUNT {
        assert(epochs[from].generation < u64::MAX);
        unsaturated(epochs, activated, from + 1);
    }
}

/// What an observer has not seen yet keeps its turn: a later publication, the
/// terminal one included, does not overtake it, unless it brings that very level up
/// again.
pub proof fn unseen_history_keeps_its_turn(
    state: WaitView,
    clear: ObjectSignals,
    set: ObjectSignals,
    seen: Seq<u64>,
    interest: ObjectSignals,
    i: int,
)
    requires
        state.wf(),
        state.serial < u64::MAX,
        seen.len() == signals::COUNT,
        forall|k: int| 0 <= k < signals::COUNT ==> seen[k] <= (#[trigger] state.epochs[k]).generation,
        earliest(state.epochs, seen, interest, i),
        !signals::meets(((state.signals & !clear) | set) & !state.signals, signals::bit(i)),
    ensures
        earliest(state.updated(clear, set).epochs, seen, interest, i),
        state.updated(clear, set).epochs[i] == state.epochs[i],
{
    let levels = (state.signals & !clear) | set;
    let activated = levels & !state.signals;
    let after = state.updated(clear, set).epochs;
    unsaturated(state.epochs, activated, 0);
    assert(eligible(after, seen, interest, i));
    assert forall|j: int| 0 <= j < signals::COUNT && #[trigger] eligible(after, seen, interest, j)
        implies after[i].serial < after[j].serial || (after[i].serial == after[j].serial && i
        <= j) by {
        assert(seen[i] <= state.epochs[i].generation);
        if after[j] == state.epochs[j] {
            assert(eligible(state.epochs, seen, interest, j));
        }
    }
}

/// An observer that has seen everything is shown the levels of a closed object, and
/// nothing of an open one.
pub proof fn nothing_unseen(state: WaitView, interest: ObjectSignals)
    requires
        state.wf(),
    ensures
        selects(
            state.epochs,
            generations_of(state.epochs),
            interest,
            state.signals,
            if signals::closed(state.signals) {
                Some(state.signals)
            } else {
                None
            },
        ),
{
    assert forall|i: int| 0 <= i < signals::COUNT implies !#[trigger] eligible(
        state.epochs,
        generations_of(state.epochs),
        interest,
        i,
    ) by {}
    assert forall|i: int| !#[trigger] earliest(
        state.epochs,
        generations_of(state.epochs),
        interest,
        i,
    ) by {
        if 0 <= i < signals::COUNT {
            assert(!eligible(state.epochs, generations_of(state.epochs), interest, i));
        }
    }
}

/// Registering an observer and taking it out again leaves every other observer
/// where it was, the count as it was, and the notification slot with its giver.
pub proof fn subscribe_then_leave(
    state: WaitView,
    subscription: Subscription,
    notification: Option<Reservation>,
    room: bool,
)
    requires
        state.wf(),
        state.subscribe_result(subscription, notification, room) is Registered,
    ensures
        ({
            let slot = free_slot(state.waiters, 0);
            let registered = state.registered(subscription, notification);
            let left = registered.without(slot);
            &&& registered.holds(state.next_id, slot)
            &&& left.active() == state.active()
            &&& left.notification == state.notification
            &&& forall|i: int|
                0 <= i < state.waiters.len() ==> #[trigger] left.waiters[i] == state.waiters[i]
        }),
{
    let slot = free_slot(state.waiters, 0);
    free_slot_facts(state.waiters, 0);
    registered_keeps_wf(state, subscription, notification, room);
    let registered = state.registered(subscription, notification);
    without_keeps_wf(registered, slot);
}

/// The slot that the `k`th of a run of steps passes.
pub open spec fn kth_slot(cursor: int, len: int, k: int) -> int {
    (cursor + k) % len
}

/// A step of the walk moves on to the next slot in turn, and there is one slot
/// fewer to pass.
pub proof fn walk_moves_on(state: WaitView, k: int)
    requires
        state.waiters.len() > 0,
        state.waiters.len() <= OBJECT_WAIT_LIMIT,
        state.scan_remaining > 0,
        0 <= k,
    ensures
        state.walk_passed().scan_remaining == state.scan_remaining - 1,
        kth_slot(state.walk_passed().scan_cursor as int, state.waiters.len() as int, k) == kth_slot(
            state.scan_cursor as int,
            state.waiters.len() as int,
            k + 1,
        ),
{
    let n = state.waiters.len() as int;
    let c = state.scan_cursor as int;
    vstd::arithmetic::div_mod::lemma_add_mod_noop(c % n + 1, k, n);
    vstd::arithmetic::div_mod::lemma_add_mod_noop(c, 1, n);
    vstd::arithmetic::div_mod::lemma_add_mod_noop(c + 1, k, n);
    vstd::arithmetic::div_mod::lemma_mod_twice(c, n);
    vstd::arithmetic::div_mod::lemma_add_mod_noop(c % n, 1, n);
    vstd::arithmetic::div_mod::lemma_mod_twice(c % n + 1, n);
    vstd::arithmetic::div_mod::lemma_add_mod_noop((c % n + 1) % n, k, n);
}

/// A full walk passes every slot.
pub proof fn walk_passes_every_slot(cursor: int, len: int, slot: int) -> (k: int)
    requires
        0 <= cursor,
        0 <= slot < len,
    ensures
        0 <= k < len,
        kth_slot(cursor, len, k) == slot,
{
    let k = (slot - cursor) % len;
    vstd::arithmetic::div_mod::lemma_add_mod_noop(cursor, slot - cursor, len);
    vstd::arithmetic::div_mod::lemma_add_mod_noop(cursor, k, len);
    vstd::arithmetic::div_mod::lemma_mod_twice(slot - cursor, len);
    vstd::arithmetic::div_mod::lemma_small_mod(slot as nat, len as nat);
    k
}

/// One step of a walk as a whole: a slot is passed, and if an observer sits in it, it
/// catches up and may be offered an outcome, on which it may leave.
pub open spec fn walk_step(before: WaitView, after: WaitView) -> bool {
    let start = before.walk_start();
    let slot = start.walk_slot();
    let passed = start.walk_passed();
    &&& before.walks()
    &&& match start.waiters[slot] {
        None => after == passed,
        Some(_) => after == passed.caught_up(slot) || exists|offered: OfferResult|
            after == #[trigger] passed.caught_up(slot).settled(slot, offered),
    }
}

/// Step `k` of a walk.
pub open spec fn walk_step_at(run: Seq<WaitView>, k: int) -> bool {
    walk_step(run[k], run[k + 1])
}

/// A walk over the observers of an object that was queued in `state`, step by step,
/// with no publication in between.
pub open spec fn walk_run(state: WaitView, run: Seq<WaitView>) -> bool {
    &&& state.wf()
    &&& state.has_news()
    &&& run.len() > 0
    &&& run[0] == state.queued()
    &&& forall|k: int| 0 <= k < run.len() - 1 ==> #[trigger] walk_step_at(run, k)
}

/// Where a walk stands after `k` steps.
proof fn walk_stands(state: WaitView, run: Seq<WaitView>, k: int)
    requires
        walk_run(state, run),
        0 <= k < run.len(),
    ensures
        k <= state.waiters.len(),
        run[k].waiters.len() == state.waiters.len(),
        run[k].scheduled,
        !run[k].dirty,
        run[k].scan_serial == run[k].serial,
        run[k].scan_remaining == state.waiters.len() - k,
        run[k].scan_cursor as int % state.waiters.len() as int == kth_slot(
            state.scan_cursor as int,
            state.waiters.len() as int,
            k,
        ),
        state.waiters.len() > 0,
    decreases k,
{
    let n = state.waiters.len() as int;
    let c = state.scan_cursor as int;
    occupied_bounds(state.waiters);
    if k > 0 {
        walk_stands(state, run, k - 1);
        assert(walk_step_at(run, k - 1));
        let slot = run[k - 1].walk_slot();
        vstd::arithmetic::div_mod::lemma_add_mod_noop(c + k - 1, 1, n);
        vstd::arithmetic::div_mod::lemma_add_mod_noop(slot, 1, n);
        vstd::arithmetic::div_mod::lemma_mod_twice(c + k - 1, n);
        vstd::arithmetic::div_mod::lemma_mod_twice(slot + 1, n);
    }
}

/// One publication costs one pass: a walk takes at most as many steps as there are
/// slots, and passes no slot twice.
pub proof fn publication_costs_one_pass(state: WaitView, run: Seq<WaitView>, a: int, b: int)
    requires
        walk_run(state, run),
        0 <= a < b < run.len() - 1,
    ensures
        run.len() - 1 <= state.waiters.len(),
        0 <= run[a].walk_start().walk_slot() < state.waiters.len(),
        run[a].walk_start().walk_slot() != run[b].walk_start().walk_slot(),
{
    let n = state.waiters.len() as int;
    let c = state.scan_cursor as int;
    walk_stands(state, run, a);
    walk_stands(state, run, b);
    walk_stands(state, run, run.len() - 1);
    assert(walk_step_at(run, a));
    assert(walk_step_at(run, b));
    vstd::arithmetic::div_mod::lemma_mod_equivalence(c + b, c + a, n);
    vstd::arithmetic::div_mod::lemma_small_mod((b - a) as nat, n as nat);
}

/// The end of such a walk: it is over only when it has passed every slot or no observer
/// is left, and it is over once it has passed every slot.
pub proof fn pass_ends_after_every_slot(state: WaitView, run: Seq<WaitView>, slot: int)
    requires
        walk_run(state, run),
        0 <= slot < state.waiters.len(),
    ensures
        run.len() - 1 <= state.waiters.len(),
        run.len() - 1 == state.waiters.len() ==> !run.last().walks(),
        !run.last().walks() ==> run.len() - 1 == state.waiters.len() || run.last().active() == 0,
        run.len() - 1 == state.waiters.len() ==> exists|k: int|
            0 <= k < run.len() - 1 && (#[trigger] run[k]).walk_start().walk_slot() == slot,
{
    let last = run.len() - 1;
    let n = state.waiters.len() as int;
    walk_stands(state, run, last);
    if last == n {
        let k = walk_passes_every_slot(state.scan_cursor as int, n, slot);
        walk_stands(state, run, k);
        assert(run[k].walk_start().walk_slot() == slot);
    }
}

/// An observer is registered on the way from `before` to `after`.
pub open spec fn registers(before: WaitView, after: WaitView) -> bool {
    exists|subscription: Subscription, notification: Option<Reservation>, room: bool|
        #![trigger before.subscribe_result(subscription, notification, room)]
        before.subscribe_result(subscription, notification, room) is Registered && after
            == before.registered(subscription, notification)
}

/// Between states `k` and `k + 1` an observer is registered, or something happens that
/// leaves the identities alone.
pub open spec fn identity_step_at(run: Seq<WaitView>, k: int) -> bool {
    run[k + 1].next_id == run[k].next_id || registers(run[k], run[k + 1])
}

/// Identities only grow, until they are spent.
proof fn identities_grow(run: Seq<WaitView>, i: int, j: int)
    requires
        0 <= i < j < run.len(),
        registers(run[i], run[i + 1]),
        forall|k: int| 0 <= k < run.len() - 1 ==> #[trigger] identity_step_at(run, k),
    ensures
        run[i].next_id != 0,
        run[j].next_id == 0 || run[j].next_id > run[i].next_id,
    decreases j,
{
    if i + 1 < j {
        identities_grow(run, i, j - 1);
        assert(identity_step_at(run, j - 1));
    }
}

/// No two observers ever get the same identity, however often observers come and go in
/// between, and none gets zero.
pub proof fn identities_never_repeat(run: Seq<WaitView>, i: int, j: int)
    requires
        0 <= i < j < run.len() - 1,
        forall|k: int| 0 <= k < run.len() - 1 ==> #[trigger] identity_step_at(run, k),
        registers(run[i], run[i + 1]),
        registers(run[j], run[j + 1]),
    ensures
        run[i].next_id != run[j].next_id,
        run[i].next_id != 0,
        run[j].next_id != 0,
{
    identities_grow(run, i, j);
}

/// None of what happens to an object besides a registration touches the identities.
pub proof fn only_registering_takes_identities(
    state: WaitView,
    clear: ObjectSignals,
    set: ObjectSignals,
    i: int,
    offered: OfferResult,
)
    ensures
        state.updated(clear, set).next_id == state.next_id,
        state.without(i).next_id == state.next_id,
        state.caught_up(i).next_id == state.next_id,
        state.settled(i, offered).next_id == state.next_id,
        state.queued().next_id == state.next_id,
        state.rescan().next_id == state.next_id,
        state.walk_passed().next_id == state.next_id,
        state.popped().next_id == state.next_id,
{
}

/// A registered observer has the identity that was next, is one more than before, and
/// has seen everything that came up so far.
pub proof fn registration_starts_now(
    state: WaitView,
    subscription: Subscription,
    notification: Option<Reservation>,
    room: bool,
    i: int,
)
    requires
        state.wf(),
        state.subscribe_result(subscription, notification, room) is Registered,
        0 <= i < signals::COUNT,
    ensures
        ({
            let after = state.registered(subscription, notification);
            let entry = after.waiters[free_slot(state.waiters, 0)];
            &&& state.next_id != 0
            &&& state.subscribe_result(subscription, notification, room)
                == SubscribeResult::Registered(state.next_id)
            &&& after.active() == state.active() + 1
            &&& entry matches Some(w) && w.id == state.next_id && w.subscription == subscription
                && !eligible(after.epochs, w.seen, subscription.interest, i)
        }),
{
    free_slot_facts(state.waiters, 0);
    registered_keeps_wf(state, subscription, notification, room);
}

/// A publication writes the history of the levels that came up, and of no others: each of them
/// counts one more time up, at a publication one later than the last, with all levels as they
/// are now. Nobody's registration changes, nor the place of a walk.
pub proof fn publication_writes_history(
    state: WaitView,
    clear: ObjectSignals,
    set: ObjectSignals,
    i: int,
)
    requires
        state.wf(),
        !signals::closed(state.signals),
        state.serial < u64::MAX,
        0 <= i < signals::COUNT,
    ensures
        ({
            let after = state.updated(clear, set);
            let levels = (state.signals & !clear) | set;
            let came_up = levels & !state.signals;
            &&& after.signals == levels
            &&& came_up & signals::bit(i) != 0 ==> {
                &&& after.epochs[i].generation == state.epochs[i].generation + 1
                &&& after.epochs[i].serial == state.serial + 1
                &&& after.epochs[i].snapshot == levels
            }
            &&& came_up & signals::bit(i) == 0 ==> after.epochs[i] == state.epochs[i]
            &&& came_up != 0 ==> after.serial == state.serial + 1 && after.dirty
            &&& came_up == 0 ==> after.serial == state.serial && (after.dirty <==> state.dirty
                || state.scheduled && levels != state.signals)
        }),
{
    publication_is_exact(state, clear, set);
    first_saturated_bounds(
        state.epochs,
        ((state.signals & !clear) | set) & !state.signals,
        0,
    );
    update_keeps_wf(state, clear, set);
    let came_up = ((state.signals & !clear) | set) & !state.signals;
    let stop = first_saturated(state.epochs, came_up, 0);
    saturated_is_spent(state.epochs, came_up, 0);
    signals::meeting_is_mutual(came_up, signals::bit(i));
    signals::meeting_is_mutual(signals::bit(i), signals::NONE);
    if stop < signals::COUNT {
        assert(state.epochs[stop].generation <= state.serial);
    }
}

/// Where a position is named as spent, its generation is.
proof fn saturated_is_spent(epochs: Seq<SignalEpoch>, activated: ObjectSignals, from: int)
    requires
        0 <= from,
    ensures
        first_saturated(epochs, activated, from) < signals::COUNT ==> epochs[first_saturated(
            epochs,
            activated,
            from,
        )].generation == u64::MAX,
    decreases signals::COUNT - from,
{
    if from < signals::COUNT && !(signals::meets(activated, signals::bit(from))
        && epochs[from].generation == u64::MAX) {
        saturated_is_spent(epochs, activated, from + 1);
    }
}

/// A publication concerns levels and history alone: who observes the object, what they have
/// seen, and how far a walk is, stay as they are.
pub proof fn publication_leaves_observers_alone(
    state: WaitView,
    clear: ObjectSignals,
    set: ObjectSignals,
)
    ensures
        ({
            let after = state.updated(clear, set);
            &&& after.waiters == state.waiters
            &&& after.scan_cursor == state.scan_cursor && after.scan_remaining
                == state.scan_remaining && after.scan_serial == state.scan_serial
            &&& after.scheduled == state.scheduled && after.notification == state.notification
            &&& state.dirty ==> after.dirty
        }),
{
}

/// A counter of publications that is spent closes the object: whatever comes up next is the
/// terminal level alone.
pub proof fn spent_counter_closes(state: WaitView, clear: ObjectSignals, set: ObjectSignals)
    requires
        state.wf(),
        !signals::closed(state.signals),
        state.serial == u64::MAX,
        ((state.signals & !clear) | set) & !state.signals != 0,
    ensures
        state.updated(clear, set).signals == 0x100,
        state.updated(clear, set).serial == u64::MAX,
{
}

/// An observer is told of the levels as they are, exactly if one that it asks for is up or the
/// object is closed.
pub proof fn observers_are_told_the_levels(subscription: Subscription, levels: ObjectSignals)
    ensures
        subscription.spec_outcome(levels) is Some <==> levels & subscription.interest != 0 || levels
            & 0x100 != 0,
        subscription.spec_outcome(levels) matches Some(outcome) ==> outcome
            == WaitOutcome::Observed(levels),
{
}

/// The earliest news is shown first: of all that an observer has not seen and cares for, the
/// snapshot with the smallest serial. An observer without news is shown nothing, unless the
/// object is closed: then its levels.
pub proof fn earliest_news_first(
    epochs: Seq<SignalEpoch>,
    seen: Seq<u64>,
    interest: ObjectSignals,
    current: ObjectSignals,
    shown: Option<ObjectSignals>,
    j: int,
)
    requires
        selects(epochs, seen, interest, current, shown),
        0 <= j < signals::COUNT,
    ensures
        epochs[j].generation != seen[j] && (interest & signals::bit(j) != 0 || j == 8)
            ==> exists|i: int|
            {
                &&& 0 <= i < signals::COUNT
                &&& (#[trigger] epochs[i]).generation != seen[i]
                &&& interest & signals::bit(i) != 0 || i == 8
                &&& epochs[i].serial <= epochs[j].serial
                &&& shown == Some(epochs[i].snapshot)
            },
        (forall|i: int|
            0 <= i < signals::COUNT ==> (#[trigger] epochs[i]).generation == seen[i]) ==> (if current
            & 0x100 != 0 {
            shown == Some(current)
        } else {
            shown is None
        }),
{
    if exists|i: int| earliest(epochs, seen, interest, i) {
        let i = choose|i: int| #[trigger]
            earliest(epochs, seen, interest, i) && shown == Some(epochs[i].snapshot);
        assert(eligible(epochs, seen, interest, i));
        if eligible(epochs, seen, interest, j) {
            assert(epochs[i].serial <= epochs[j].serial);
        }
    } else {
        assert(!eligible(epochs, seen, interest, j));
    }
}

/// When a subscription is over before it began, is refused, or is registered, in that order: one
/// that is for a single observation, or on a closed object, is answered at once if there is
/// something to tell; then the object may have all the observers, or identities, that it can
/// have; then memory may be short.
pub proof fn subscriptions_are_answered(
    state: WaitView,
    subscription: Subscription,
    notification: Option<Reservation>,
    room: bool,
)
    requires
        state.wf(),
    ensures
        ({
            let result = state.subscribe_result(subscription, notification, room);
            let told = state.signals & subscription.interest != 0 || state.signals & 0x100 != 0;
            let at_once = told && (!subscription.persistent || state.signals & 0x100 != 0);
            let full = state.active() >= OBJECT_WAIT_LIMIT || state.next_id == 0;
            let short = (state.active() == 0 && !state.scheduled && notification is None) || (
            state.active() == state.waiters.len() && !room);
            &&& result is Ready <==> at_once
            &&& result matches SubscribeResult::Ready { outcome, retired } ==> outcome
                == WaitOutcome::Observed(state.signals) && retired == subscription
            &&& result == SubscribeResult::ReachLimit(subscription) <==> !at_once && full
            &&& result == SubscribeResult::OutOfMemory(subscription) <==> !at_once && !full && short
            &&& result == SubscribeResult::Registered(state.next_id) <==> !at_once && !full
                && !short
        }),
{
    free_slot_facts(state.waiters, 0);
    occupied_bounds(state.waiters);
}

/// Registering adds one observer and changes nothing for the others: levels and history stay, and
/// so does every other registration. The next observer gets the next identity.
pub proof fn registering_adds_one(
    state: WaitView,
    subscription: Subscription,
    notification: Option<Reservation>,
)
    requires
        state.wf(),
        0 < state.next_id < u64::MAX,
    ensures
        ({
            let after = state.registered(subscription, notification);
            let slot = free_slot(state.waiters, 0);
            &&& after.next_id == state.next_id + 1
            &&& after.active() == state.active() + 1
            &&& after.same_levels(state)
            &&& after.scheduled == state.scheduled
            &&& (after.dirty <==> state.dirty || state.scheduled)
            &&& state.active() > 0 || state.scheduled ==> after.notification == state.notification
            &&& state.active() == 0 && !state.scheduled ==> after.notification == notification
            &&& after.scan_cursor == state.scan_cursor && after.scan_remaining
                == state.scan_remaining && after.scan_serial == state.scan_serial
            &&& forall|i: int|
                0 <= i < state.waiters.len() && state.waiters[i] is Some ==> #[trigger] after.waiters[i]
                    == state.waiters[i]
            &&& after.waiters[slot] matches Some(own) && own.id == state.next_id
                && own.subscription == subscription && forall|k: int|
                0 <= k < signals::COUNT ==> #[trigger] own.seen[k] == state.epochs[k].generation
        }),
{
    free_slot_facts(state.waiters, 0);
    let slot = free_slot(state.waiters, 0);
    let entry = Some(
        RegisteredView { id: state.next_id, subscription, seen: generations_of(state.epochs) },
    );
    if slot < state.waiters.len() {
        occupied_update(state.waiters, slot, entry);
    } else {
        occupied_push(state.waiters, entry);
    }
}

/// Leaving takes one observer and nothing else: the others keep their slots. A reservation is
/// given up exactly by the last observer of an object that is not queued, and is else kept:
/// never lost, never in two places.
pub proof fn leaving_takes_one(state: WaitView, i: int)
    requires
        state.wf(),
        0 <= i < state.waiters.len(),
        state.waiters[i] is Some,
    ensures
        ({
            let after = state.without(i);
            &&& after.active() == state.active() - 1
            &&& after.waiters[i] is None && after.waiters.len() == state.waiters.len()
            &&& forall|j: int|
                0 <= j < state.waiters.len() && j != i ==> #[trigger] after.waiters[j]
                    == state.waiters[j]
            &&& after.same_levels(state) && after.next_id == state.next_id
            &&& after.scheduled == state.scheduled && after.dirty == state.dirty
            &&& state.given_up(i) is Some <==> state.active() == 1 && !state.scheduled
            &&& state.given_up(i) is Some ==> state.given_up(i) == state.notification
                && after.notification is None
            &&& state.given_up(i) is None ==> after.notification == state.notification
        }),
{
    occupied_update(state.waiters, i, None);
    occupied_bounds(state.waiters.update(i, None));
}

/// Catching up concerns one observer: it has then seen every level as often as it came up, and is
/// else what it was.
pub proof fn catching_up_concerns_one(state: WaitView, i: int)
    requires
        state.wf(),
        0 <= i < state.waiters.len(),
        state.waiters[i] is Some,
    ensures
        ({
            let after = state.caught_up(i);
            &&& after.waiters.len() == state.waiters.len()
            &&& after.waiters[i] matches Some(own) && own.id == state.waiters[i]->0.id
                && own.subscription == state.waiters[i]->0.subscription && forall|k: int|
                0 <= k < signals::COUNT ==> #[trigger] own.seen[k] == state.epochs[k].generation
            &&& forall|j: int|
                0 <= j < state.waiters.len() && j != i ==> #[trigger] after.waiters[j]
                    == state.waiters[j]
            &&& after.same_levels(state) && after.active() == state.active()
            &&& after.notification == state.notification && after.scheduled == state.scheduled
        }),
{
    occupied_update(
        state.waiters,
        i,
        Some(RegisteredView { seen: generations_of(state.epochs), ..state.waiters[i]->0 }),
    );
}

/// Who stays after an offer: on an open object an observer that is persistent, or whose offer was
/// put off; on a closed one nobody.
pub proof fn who_stays_after_an_offer(state: WaitView, i: int, offered: OfferResult)
    requires
        0 <= i < state.waiters.len(),
        state.waiters[i] is Some,
    ensures
        state.settled(i, offered).waiters[i] is Some <==> state.signals & 0x100 == 0 && (
        state.waiters[i]->0.subscription.persistent || offered is Deferred),
        state.settled(i, offered).waiters[i] is Some ==> state.settled(i, offered) == state,
{
}

/// An object is queued exactly if it is not queued yet, something came up since it was last
/// walked, and somebody observes it. It then hands out the reservation that it kept, named by the
/// first observer, and every slot is still to be passed.
pub proof fn queueing_hands_the_reservation_out(state: WaitView)
    requires
        state.wf(),
    ensures
        state.news() is Some <==> !state.scheduled && state.dirty && state.active() > 0,
        state.news() matches Some((slot, object)) ==> {
            &&& state.notification == Some(slot)
            &&& exists|i: int|
                {
                    &&& 0 <= i < state.waiters.len()
                    &&& (#[trigger] state.waiters[i]) is Some
                    &&& state.waiters[i]->0.subscription.object == object
                    &&& forall|j: int| 0 <= j < i ==> (#[trigger] state.waiters[j]) is None
                }
            &&& state.queued().notification is None && state.queued().scheduled
            &&& !state.queued().dirty
            &&& state.queued().scan_remaining == state.waiters.len()
            &&& state.queued().scan_serial == state.serial
        },
        state.news() is None ==> state.queued() == state,
        state.queued().waiters == state.waiters,
        state.queued().same_levels(state),
        state.queued().scan_cursor == state.scan_cursor,
{
    taken_slot_facts(state.waiters, 0);
    occupied_bounds(state.waiters);
    let first = taken_slot(state.waiters, 0);
    if first < state.waiters.len() {
        assert(state.waiters[first] is Some);
    }
}

/// A new object shows its level, has published nothing and has no observers.
pub proof fn new_objects_have_no_past(initial: ObjectSignals, i: int)
    requires
        0 <= i < signals::COUNT,
    ensures
        ({
            let new = WaitView::fresh(initial);
            &&& new.wf()
            &&& new.signals == initial && new.serial == 0 && new.next_id == 1
            &&& new.epochs[i].generation == 0 && new.active() == 0 && new.waiters.len() == 0
            &&& !new.dirty && !new.scheduled && new.notification is None && new.news() is None
        }),
{
}

/// A slot that is dropped takes its observer along and no other.
pub proof fn dropping_a_slot_takes_one(state: WaitView)
    requires
        state.wf(),
        state.waiters.len() > 0,
    ensures
        ({
            let after = state.popped();
            &&& after.waiters.len() == state.waiters.len() - 1
            &&& forall|j: int|
                0 <= j < after.waiters.len() ==> #[trigger] after.waiters[j] == state.waiters[j]
            &&& state.active() == after.active() + (if state.waiters.last() is Some {
                1int
            } else {
                0
            })
            &&& after.notification != state.notification ==> after.notification is None
                && after.active() == 0 && !state.scheduled
            &&& after.same_levels(state) && after.scheduled == state.scheduled
        }),
{
}

/// Whenever there is news for an observer, some of it is the earliest.
pub proof fn news_has_an_earliest(
    epochs: Seq<SignalEpoch>,
    seen: Seq<u64>,
    interest: ObjectSignals,
    j: int,
)
    requires
        0 <= j < signals::COUNT,
        eligible(epochs, seen, interest, j),
    ensures
        exists|i: int| earliest(epochs, seen, interest, i),
{
    let i = earliest_of_the_first(epochs, seen, interest, signals::COUNT as int, j);
    assert(earliest(epochs, seen, interest, i));
}

proof fn earliest_of_the_first(
    epochs: Seq<SignalEpoch>,
    seen: Seq<u64>,
    interest: ObjectSignals,
    n: int,
    j: int,
) -> (i: int)
    requires
        0 <= j < n,
        eligible(epochs, seen, interest, j),
    ensures
        0 <= i < n,
        eligible(epochs, seen, interest, i),
        forall|k: int|
            0 <= k < n && #[trigger] eligible(epochs, seen, interest, k) ==> epochs[i].serial
                < epochs[k].serial || (epochs[i].serial == epochs[k].serial && i <= k),
    decreases n,
{
    let last = n - 1;
    if j < last {
        let best = earliest_of_the_first(epochs, seen, interest, last, j);
        if eligible(epochs, seen, interest, last) && epochs[last].serial < epochs[best].serial {
            last
        } else {
            best
        }
    } else if exists|k: int| 0 <= k < last && eligible(epochs, seen, interest, k) {
        let k = choose|k: int| 0 <= k < last && eligible(epochs, seen, interest, k);
        let best = earliest_of_the_first(epochs, seen, interest, last, k);
        if epochs[last].serial < epochs[best].serial {
            last
        } else {
            best
        }
    } else {
        last
    }
}

} // verus!
