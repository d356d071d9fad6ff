//! The duty to deal with a message, which keeps the authorization that the message
//! was sent with alive until the receiver is done.
use vstd::prelude::*;

use crate::error::SystemCallError;
use crate::ids;
use crate::ids::IdSequence;
use crate::object::{Koid, ObjectHeader};

verus! {

/// The duty to deal with one message sent with the authorization `sender`.
#[derive(Debug)]
pub struct Delivery {
    header: ObjectHeader,
    sender: Koid,
}

impl Delivery {
    pub closed spec fn koid(&self) -> Koid {
        self.header.spec_koid()
    }

    /// The authorization that it keeps alive.
    pub closed spec fn related(&self) -> Koid {
        self.sender
    }

    /// Makes the delivery of a message. `permit` is what asking for its metadata gave,
    /// `room` says whether there is memory for it.
    pub fn create(
        sender: Koid,
        sequence: &mut IdSequence,
        permit: Result<(), SystemCallError>,
        room: bool,
    ) -> (r: Result<Delivery, SystemCallError>)
        ensures
            final(sequence)@ == ids::after(old(sequence)@),
            match r {
                Err(error) => error == if old(sequence)@ is None {
                    SystemCallError::ReachLimit
                } else if permit is Err {
                    permit->Err_0
                } else {
                    SystemCallError::OutOfMemory
                },
                Ok(delivery) => Some(delivery.koid()) == old(sequence)@ && delivery.related()
                    == sender,
            },
            r is Ok <==> old(sequence)@ is Some && permit is Ok && room,
    {
        let header = match ObjectHeader::try_new(sequence) {
            None => {
                return Err(SystemCallError::ReachLimit);
            },
            Some(header) => header,
        };
        match permit {
            Err(error) => {
                return Err(error);
            },
            Ok(_) => {},
        }
        if !room {
            return Err(SystemCallError::OutOfMemory);
        }
        Ok(Delivery { header, sender })
    }

    /// Identity of the authorization that it keeps alive.
    pub fn related_id(&self) -> (r: Koid)
        ensures
            r == self.related(),
    {
        self.sender
    }
}

} // verus!
