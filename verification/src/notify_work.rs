//! Bounded notification debts of waitable objects.
use vstd::prelude::*;

verus! {

/// How many objects with observers there may be at a time.
pub const SLOTS: usize = 8_192;

/// One prepaid slot in which an object with observers can be queued.
#[derive(Clone, Copy, Debug, PartialEq, Eq, Structural)]
pub struct Reservation {
    pub slot: usize,
}

/// What becomes of an object's slot once its observers have been walked.
#[derive(Clone, Copy, Debug, PartialEq, Eq, Structural)]
pub enum Completion {
    /// The object still has observers and keeps the slot.
    Held,
    /// The object has no observer left; the slot goes back.
    Release(Reservation),
    /// A publication came in meanwhile; the same slot is queued again.
    Reschedule(Reservation),
}

/// Who a wait belongs to; each has completion slots of its own.
#[derive(Clone, Copy, Debug, PartialEq, Eq, Structural)]
pub enum FinishClass {
    Thread,
    Kernel,
    Persistent,
}

/// The completion slots of one class, from the first to before the last.
pub open spec fn slots_of(class: FinishClass, kernel_limit: int, registration_limit: int) -> (
    int,
    int,
) {
    match class {
        FinishClass::Thread => (0, SLOTS as int),
        FinishClass::Kernel => (SLOTS as int, SLOTS + kernel_limit),
        FinishClass::Persistent => (
            SLOTS + kernel_limit,
            SLOTS + kernel_limit + registration_limit,
        ),
    }
}

/// The completion slots of one class, where the kernel's own waits have `kernel_limit`
/// of them and persistent ones `registration_limit`.
pub fn finish_range(class: FinishClass, kernel_limit: usize, registration_limit: usize) -> (r: (
    usize,
    usize,
))
    requires
        SLOTS + kernel_limit + registration_limit <= usize::MAX,
    ensures
        (r.0 as int, r.1 as int) == slots_of(
            class,
            kernel_limit as int,
            registration_limit as int,
        ),
{
    match class {
        FinishClass::Thread => (0, SLOTS),
        FinishClass::Kernel => (SLOTS, SLOTS + kernel_limit),
        FinishClass::Persistent => (
            SLOTS + kernel_limit,
            SLOTS + kernel_limit + registration_limit,
        ),
    }
}

/// No completion slot belongs to two classes, and every slot belongs to one: one class
/// cannot use up another's.
pub proof fn classes_share_no_slot(kernel_limit: int, registration_limit: int, slot: int)
    requires
        0 <= kernel_limit,
        0 <= registration_limit,
        0 <= slot < SLOTS + kernel_limit + registration_limit,
    ensures
        exists|class: FinishClass|
            (#[trigger] slots_of(class, kernel_limit, registration_limit)).0 <= slot < slots_of(
                class,
                kernel_limit,
                registration_limit,
            ).1,
        forall|a: FinishClass, b: FinishClass|
            (#[trigger] slots_of(a, kernel_limit, registration_limit)).0 <= slot < slots_of(
                a,
                kernel_limit,
                registration_limit,
            ).1 && (#[trigger] slots_of(b, kernel_limit, registration_limit)).0 <= slot
                < slots_of(b, kernel_limit, registration_limit).1 ==> a == b,
{
    let t = slots_of(FinishClass::Thread, kernel_limit, registration_limit);
    let k = slots_of(FinishClass::Kernel, kernel_limit, registration_limit);
    let p = slots_of(FinishClass::Persistent, kernel_limit, registration_limit);
    assert((t.0 <= slot < t.1) || (k.0 <= slot < k.1) || (p.0 <= slot < p.1));
}

/// A prepaid completion slot: the wait that holds it can always be finished.
#[derive(Clone, Copy, Debug, PartialEq, Eq, Structural)]
pub struct FinishReservation {
    pub class: FinishClass,
    pub slot: usize,
}

/// Which completion slots are out, and how many each class has.
pub struct FinishSlots {
    out: Vec<bool>,
    kernel_limit: usize,
    registration_limit: usize,
}

/// The same as a value.
#[verifier::ext_equal]
pub struct FinishView {
    pub out: Seq<bool>,
    pub kernel_limit: usize,
    pub registration_limit: usize,
}

impl View for FinishSlots {
    type V = FinishView;

    closed spec fn view(&self) -> FinishView {
        FinishView {
            out: self.out@,
            kernel_limit: self.kernel_limit,
            registration_limit: self.registration_limit,
        }
    }
}

impl FinishView {
    pub open spec fn wf(self) -> bool {
        self.out.len() == SLOTS + self.kernel_limit + self.registration_limit
    }

    /// `slot` is one of the class.
    pub open spec fn belongs(self, class: FinishClass, slot: int) -> bool {
        let (first, end) = slots_of(
            class,
            self.kernel_limit as int,
            self.registration_limit as int,
        );
        first <= slot < end
    }

    /// `slot` can be reserved for the class.
    pub open spec fn free(self, class: FinishClass, slot: int) -> bool {
        self.belongs(class, slot) && !self.out[slot]
    }

    /// The reservation is out.
    pub open spec fn live(self, reservation: FinishReservation) -> bool {
        self.belongs(reservation.class, reservation.slot as int)
            && self.out[reservation.slot as int]
    }

    /// The slots with `slot` out.
    pub open spec fn taken(self, slot: usize) -> FinishView {
        FinishView { out: self.out.update(slot as int, true), ..self }
    }

    /// The slots with `slot` back.
    pub open spec fn given_back(self, slot: usize) -> FinishView {
        FinishView { out: self.out.update(slot as int, false), ..self }
    }
}

impl FinishSlots {
    pub closed spec fn wf(&self) -> bool {
        self@.wf()
    }

    pub proof fn wf_view(&self)
        requires
            self.wf(),
        ensures
            self@.wf(),
    {
    }

    /// All slots, none of them out.
    pub fn new(kernel_limit: usize, registration_limit: usize) -> (r: FinishSlots)
        requires
            SLOTS + kernel_limit + registration_limit <= usize::MAX,
        ensures
            r.wf(),
            r@.kernel_limit == kernel_limit,
            r@.registration_limit == registration_limit,
            forall|i: int| 0 <= i < r@.out.len() ==> !#[trigger] r@.out[i],
    {
        let count: usize = SLOTS + kernel_limit + registration_limit;
        let mut out: Vec<bool> = Vec::new();
        while out.len() < count
            invariant
                out@.len() <= count,
                forall|i: int| 0 <= i < out@.len() ==> !#[trigger] out@[i],
            decreases count - out@.len(),
        {
            out.push(false);
        }
        FinishSlots { out, kernel_limit, registration_limit }
    }

    /// Reserves a completion slot of the class, if one is free. Which of the free slots it
    /// is, callers do not depend on.
    pub fn reserve_finish(&mut self, class: FinishClass) -> (r: Result<FinishReservation, ()>)
        requires
            old(self).wf(),
        ensures
            final(self).wf(),
            r is Ok <==> exists|slot: int| #[trigger] old(self)@.free(class, slot),
            match r {
                Ok(reservation) => reservation.class == class && old(self)@.free(
                    class,
                    reservation.slot as int,
                ) && final(self)@ == old(self)@.taken(reservation.slot),
                Err(_) => final(self)@ == old(self)@,
            },
    {
        assert(self.out.len() == self@.out.len());
        let (first, end) = finish_range(class, self.kernel_limit, self.registration_limit);
        let mut slot: usize = first;
        while slot < end
            invariant
                self.wf(),
                self@ == old(self)@,
                first <= slot <= end,
                (first as int, end as int) == slots_of(
                    class,
                    self@.kernel_limit as int,
                    self@.registration_limit as int,
                ),
                forall|i: int| first <= i < slot ==> #[trigger] self@.out[i],
            decreases end - slot,
        {
            if !self.out[slot] {
                assert(self@.free(class, slot as int));
                self.out.set(slot, true);
                return Ok(FinishReservation { class, slot });
            }
            slot = slot + 1;
        }
        Err(())
    }

    /// Gives a completion slot back.
    pub fn release(&mut self, reservation: FinishReservation)
        requires
            old(self).wf(),
            old(self)@.live(reservation),
        ensures
            final(self).wf(),
            final(self)@ == old(self)@.given_back(reservation.slot),
    {
        self.out.set(reservation.slot, false);
    }
}

/// A reservation takes nothing from another class, and from its own class one slot, which
/// nobody else can have until it is given back: the classes cannot starve each other, and
/// no two live reservations share a slot.
pub proof fn reservations_are_apart(
    slots: FinishView,
    reservation: FinishReservation,
    class: FinishClass,
    slot: int,
)
    requires
        slots.wf(),
        slots.free(reservation.class, reservation.slot as int),
    ensures
        slots.taken(reservation.slot).live(reservation),
        class != reservation.class ==> slots.taken(reservation.slot).free(class, slot)
            == slots.free(class, slot),
        slot != reservation.slot ==> slots.taken(reservation.slot).free(class, slot) == slots.free(
            class,
            slot,
        ),
        !slots.taken(reservation.slot).free(class, reservation.slot as int),
        forall|other: FinishReservation| #[trigger]
            slots.live(other) ==> other.slot != reservation.slot,
{
}

/// Giving a slot back makes it free again, and leaves the others as they were.
pub proof fn release_frees_the_slot(slots: FinishView, reservation: FinishReservation)
    requires
        slots.wf(),
        slots.free(reservation.class, reservation.slot as int),
    ensures
        slots.taken(reservation.slot).given_back(reservation.slot) == slots,
        slots.taken(reservation.slot).given_back(reservation.slot).free(
            reservation.class,
            reservation.slot as int,
        ),
{
    assert(slots.taken(reservation.slot).given_back(reservation.slot).out =~= slots.out);
}

/// One turn of walking the observers of a queued object.
#[derive(Clone, Copy, Debug, PartialEq, Eq, Structural)]
pub struct DrainTurn {
    /// How many steps the turn may take.
    pub turn: usize,
    pub used: usize,
    /// The walk is over.
    pub complete: bool,
}

/// What becomes of a queued entry after its turn.
#[derive(Clone, Copy, Debug, PartialEq, Eq, Structural)]
pub enum TurnEnd {
    /// It is done; its slot can be used again.
    Rearm,
    /// It is done; its slot goes back.
    Finish,
    /// There is more to do.
    Requeue,
}

impl DrainTurn {
    pub open spec fn wf(self) -> bool {
        self.used <= self.turn && self.turn > 0
    }

    pub fn new(turn: usize) -> (r: DrainTurn)
        requires
            turn > 0,
        ensures
            r.wf(),
            r == (DrainTurn { turn, used: 0, complete: false }),
    {
        DrainTurn { turn, used: 0, complete: false }
    }

    /// Whether another step may be taken.
    pub fn goes_on(&self) -> (r: bool)
        ensures
            r == (!self.complete && self.used < self.turn),
    {
        !self.complete && self.used < self.turn
    }

    /// Accounts for a step; `done` says that the walk is over. Finding that costs
    /// nothing.
    pub fn step(&mut self, done: bool)
        requires
            old(self).wf(),
            !old(self).complete,
            old(self).used < old(self).turn,
        ensures
            final(self).wf(),
            *final(self) == if done {
                DrainTurn { complete: true, ..*old(self) }
            } else {
                DrainTurn { used: (old(self).used + 1) as usize, ..*old(self) }
            },
    {
        if done {
            self.complete = true;
        } else {
            self.used = self.used + 1;
        }
    }

    /// What the turn costs, at least one: taking an object that turns out to be done is
    /// work too, or cancelled waits could be taken without end.
    pub fn cost(&self) -> (r: usize)
        requires
            self.wf(),
        ensures
            r == if self.used == 0 {
                1
            } else {
                self.used
            },
            0 < r <= self.turn,
    {
        if self.used == 0 {
            1
        } else {
            self.used
        }
    }

    /// What becomes of the object.
    pub fn end(&self) -> (r: TurnEnd)
        ensures
            r == if self.complete {
                TurnEnd::Rearm
            } else {
                TurnEnd::Requeue
            },
    {
        if self.complete {
            TurnEnd::Rearm
        } else {
            TurnEnd::Requeue
        }
    }
}

/// A turn that is over made progress or finished the walk.
pub proof fn turns_make_progress(turn: DrainTurn)
    requires
        turn.wf(),
        !(!turn.complete && turn.used < turn.turn),
    ensures
        turn.complete || turn.used > 0,
{
}

/// What becomes of a wait whose completion took a turn; `reuses` says that the wait
/// keeps its slot for the next time.
pub fn finish_turn_end(complete: bool, reuses: bool) -> (r: TurnEnd)
    ensures
        r == if !complete {
            TurnEnd::Requeue
        } else if reuses {
            TurnEnd::Rearm
        } else {
            TurnEnd::Finish
        },
{
    if !complete {
        TurnEnd::Requeue
    } else if reuses {
        TurnEnd::Rearm
    } else {
        TurnEnd::Finish
    }
}

/// Where a visit to the queues stands. Objects with news come first, then waits to
/// finish, then requests, then retirements.
#[derive(Clone, Copy, Debug, PartialEq, Eq, Structural)]
pub enum VisitPhase {
    Notifications,
    Finishes,
    Requests,
    Retirements,
    Over,
}

/// What to do next in a visit.
#[derive(Clone, Copy, Debug, PartialEq, Eq, Structural)]
pub enum VisitAction {
    /// Give the next object with news a turn.
    Notify,
    /// Give the next wait to finish a turn.
    Finish,
    /// Ring the bell if entries are left, then serve requests.
    Requests,
    Retirements,
    Stop,
}

/// What to do next, where `turn` is how much the current class may still do and
/// `queued` whether it has an entry; and the phase that the visit is in then. A class
/// that has nothing left, or may do nothing more, gives way to the next.
pub fn visit_next(
    phase: VisitPhase,
    notify: (usize, bool),
    finish: (usize, bool),
) -> (r: (VisitPhase, VisitAction))
    ensures
        r == match phase {
            VisitPhase::Notifications => if notify.0 != 0 && notify.1 {
                (VisitPhase::Notifications, VisitAction::Notify)
            } else if finish.0 != 0 && finish.1 {
                (VisitPhase::Finishes, VisitAction::Finish)
            } else {
                (VisitPhase::Requests, VisitAction::Requests)
            },
            VisitPhase::Finishes => if finish.0 != 0 && finish.1 {
                (VisitPhase::Finishes, VisitAction::Finish)
            } else {
                (VisitPhase::Requests, VisitAction::Requests)
            },
            VisitPhase::Requests => (VisitPhase::Retirements, VisitAction::Retirements),
            VisitPhase::Retirements | VisitPhase::Over => (VisitPhase::Over, VisitAction::Stop),
        },
{
    match phase {
        VisitPhase::Notifications => {
            if notify.0 != 0 && notify.1 {
                (VisitPhase::Notifications, VisitAction::Notify)
            } else if finish.0 != 0 && finish.1 {
                (VisitPhase::Finishes, VisitAction::Finish)
            } else {
                (VisitPhase::Requests, VisitAction::Requests)
            }
        },
        VisitPhase::Finishes => {
            if finish.0 != 0 && finish.1 {
                (VisitPhase::Finishes, VisitAction::Finish)
            } else {
                (VisitPhase::Requests, VisitAction::Requests)
            }
        },
        VisitPhase::Requests => (VisitPhase::Retirements, VisitAction::Retirements),
        VisitPhase::Retirements | VisitPhase::Over => (VisitPhase::Over, VisitAction::Stop),
    }
}

/// Whether a hart has anything queued, given how much each class has.
pub fn has_current(notifications: usize, finishes: usize, requests: usize, retirements: usize) -> (r:
    bool)
    ensures
        r == (notifications + finishes + requests + retirements > 0),
{
    notifications != 0 || finishes != 0 || requests != 0 || retirements != 0
}

/// The classes have their slots one behind the other: as many as there are threads, then the
/// kernel's, then the persistent ones.
pub proof fn classes_have_their_share(kernel_limit: int, registration_limit: int)
    ensures
        ({
            let threads = slots_of(FinishClass::Thread, kernel_limit, registration_limit);
            let kernel = slots_of(FinishClass::Kernel, kernel_limit, registration_limit);
            let lasting = slots_of(FinishClass::Persistent, kernel_limit, registration_limit);
            &&& threads.0 == 0 && threads.1 - threads.0 == SLOTS
            &&& kernel.0 == threads.1 && kernel.1 - kernel.0 == kernel_limit
            &&& lasting.0 == kernel.1 && lasting.1 - lasting.0 == registration_limit
        }),
{
}

/// Taking a slot and giving it back concern that slot alone.
pub proof fn slots_are_taken_one_by_one(slots: FinishView, slot: usize, other: int)
    requires
        slot < slots.out.len(),
        0 <= other < slots.out.len(),
    ensures
        slots.taken(slot).out[slot as int],
        !slots.given_back(slot).out[slot as int],
        other != slot ==> slots.taken(slot).out[other] == slots.out[other]
            && slots.given_back(slot).out[other] == slots.out[other],
        slots.taken(slot).out.len() == slots.out.len(),
        slots.given_back(slot).out.len() == slots.out.len(),
        slots.taken(slot).kernel_limit == slots.kernel_limit
            && slots.taken(slot).registration_limit == slots.registration_limit,
        slots.given_back(slot).kernel_limit == slots.kernel_limit
            && slots.given_back(slot).registration_limit == slots.registration_limit,
{
}

} // verus!
