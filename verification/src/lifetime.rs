//! Observers of the end of something, which do not keep it alive.
use vstd::prelude::*;

use crate::error::SystemCallError;
use crate::ids;
use crate::ids::IdSequence;
use crate::notify_work::Reservation;
use crate::object;
use crate::object::{Koid, ObjectHeader, ObjectWaitState, WaitView};
use crate::signals;
use crate::signals::ObjectSignals;

verus! {

/// The object through which the end of `observed` can be waited for. It is owned by
/// what it observes: when that goes, the object shows the terminal level.
pub struct LifetimeOwner {
    header: ObjectHeader,
    observed: Koid,
    wait: ObjectWaitState,
}

impl LifetimeOwner {
    pub closed spec fn koid(&self) -> Koid {
        self.header.spec_koid()
    }

    pub closed spec fn related(&self) -> Koid {
        self.observed
    }

    pub closed spec fn wait(&self) -> WaitView {
        self.wait@
    }

    pub closed spec fn wf(&self) -> bool {
        self.wait.wf()
    }

    /// Makes the object that observes `observed`. `permit` is what asking for its
    /// metadata gave, `room` says whether there is memory for it.
    pub fn new(
        observed: Koid,
        sequence: &mut IdSequence,
        permit: Result<(), SystemCallError>,
        room: bool,
    ) -> (r: Result<LifetimeOwner, SystemCallError>)
        ensures
            final(sequence)@ == ids::after(old(sequence)@),
            match r {
                Err(error) => error == if old(sequence)@ is None {
                    SystemCallError::ReachLimit
                } else if permit is Err {
                    permit->Err_0
                } else {
                    SystemCallError::OutOfMemory
                },
                Ok(owner) => {
                    &&& owner.wf()
                    &&& Some(owner.koid()) == old(sequence)@
                    &&& owner.related() == observed
                    &&& owner.wait() == WaitView::fresh(signals::NONE)
                },
            },
            r is Ok <==> old(sequence)@ is Some && permit is Ok && room,
    {
        let header = match ObjectHeader::try_new(sequence) {
            None => {
                return Err(SystemCallError::ReachLimit);
            },
            Some(header) => header,
        };
        match permit {
            Err(error) => {
                return Err(error);
            },
            Ok(_) => {},
        }
        if !room {
            return Err(SystemCallError::OutOfMemory);
        }
        Ok(LifetimeOwner { header, observed, wait: ObjectWaitState::new(signals::NONE) })
    }

    /// The levels shown.
    pub fn signals(&self) -> (r: ObjectSignals)
        ensures
            r == self.wait().signals,
    {
        self.wait.signals()
    }

    /// Its observers.
    pub fn observers(&mut self) -> (r: &mut ObjectWaitState)
        requires
            old(self).wf(),
        ensures
            r.wf(),
            r@ == old(self).wait(),
            final(self).koid() == old(self).koid(),
            final(self).related() == old(self).related(),
            final(self).wait() == final(r)@,
            final(r).wf() ==> final(self).wf(),
    {
        &mut self.wait
    }

    /// What is observed goes: the terminal level is shown for good, and whoever waits
    /// for it is to be told.
    pub fn end(&mut self) -> (r: Option<(Reservation, Koid)>)
        requires
            old(self).wf(),
        ensures
            final(self).wf(),
            final(self).koid() == old(self).koid(),
            final(self).related() == old(self).related(),
            signals::closed(final(self).wait().signals),
            r == old(self).wait().updated(signals::NONE, signals::CLOSED).news(),
            final(self).wait() == old(self).wait().updated(
                signals::NONE,
                signals::CLOSED,
            ).queued(),
    {
        proof {
            signals::closed_is_last();
            object::publishing_closed_closes(self.wait@, signals::NONE, signals::CLOSED);
        }
        self.wait.update(signals::NONE, signals::CLOSED);
        self.wait.take_notification()
    }
}

} // verus!
