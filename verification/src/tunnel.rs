//! Tunnels: a connection of two sides that share one memory object. A side is held by
//! an endpoint, which has the object mapped, or by an invitation, which can be turned
//! into an endpoint once.
use vstd::prelude::*;

use crate::address_space;
use crate::address_space::{BoundAddressSpace, MapLayout, ObjectPlan, PlanFailure, SpaceView};
use crate::backing;
use crate::error::SystemCallError;
use crate::handle;
use crate::handle::{ProcessHandleEntry, TableError};
use crate::map_intent::{LedgerRequest, MapBacking, MapIntent, MapPlacement};
use crate::memory_object::Protection;
use crate::notify_work::Reservation;
use crate::object;
use crate::object::{HandleRole, Koid, ObjectKind, ObjectWaitState, WaitView};
use crate::process::PAGE_SIZE;
use crate::region::{ObjectMappingLease, RegionOwner, RetiringFragment};
use crate::rights;
use crate::signals;
use crate::signals::ObjectSignals;
use crate::space;
use crate::space::{ChangeError, MapError, SpaceError};

verus! {

/// Who holds a side.
#[derive(Clone, Copy, Debug, PartialEq, Eq, Structural)]
pub enum SideState {
    Alive(Koid),
    Invited(Koid),
    Closed,
}

/// Whom the close of a side concerns.
#[derive(Clone, Copy, Debug, PartialEq, Eq, Structural)]
pub enum PeerNotice {
    Endpoint(Koid),
    Invitation(Koid),
}

/// What the two sides share.
pub struct Connection {
    sides: Vec<SideState>,
    leases: Vec<Option<ObjectMappingLease>>,
}

/// A connection, as a value.
#[verifier::ext_equal]
pub struct ConnectionView {
    pub sides: Seq<SideState>,
    /// The views of the shared object, by side.
    pub leases: Seq<Option<ObjectMappingLease>>,
}

impl View for Connection {
    type V = ConnectionView;

    closed spec fn view(&self) -> ConnectionView {
        ConnectionView { sides: self.sides@, leases: self.leases@ }
    }
}

impl ConnectionView {
    /// What every operation keeps: a side has the object mapped exactly while it is
    /// alive, and an invitation never outlives the side that issued it.
    pub open spec fn wf(self) -> bool {
        &&& self.sides.len() == 2
        &&& self.leases.len() == 2
        &&& forall|s: int|
            0 <= s < 2 ==> ((#[trigger] self.sides[s]) is Alive <==> self.leases[s] is Some)
        &&& forall|s: int|
            0 <= s < 2 ==> ((#[trigger] self.sides[s]) is Invited ==> self.sides[1 - s] is Alive)
    }

    /// A connection whose sides nobody holds yet.
    pub open spec fn is_new(self) -> bool {
        &&& self.sides == seq![SideState::Closed, SideState::Closed]
        &&& self.leases == seq![None::<ObjectMappingLease>, None::<ObjectMappingLease>]
    }

    /// Endpoint `e` holds its side.
    pub open spec fn holds(self, e: EndpointView) -> bool {
        !e.closed && self.sides[e.side as int] == SideState::Alive(e.id)
    }

    /// Invitation `i` can be turned into an endpoint.
    pub open spec fn invites(self, i: Invitation) -> bool {
        &&& !i.closed
        &&& self.sides[i.side as int] == SideState::Invited(i.id)
        &&& self.sides[1 - i.side] is Alive
        &&& self.leases[i.side as int] is None
    }

    /// What closing side `s` leaves: an invitation on the other side goes as well.
    pub open spec fn side_closed(self, s: int) -> ConnectionView {
        let peer = if self.sides[1 - s] is Invited {
            SideState::Closed
        } else {
            self.sides[1 - s]
        };
        ConnectionView {
            sides: self.sides.update(s, SideState::Closed).update(1 - s, peer),
            leases: self.leases.update(s, None),
        }
    }

    /// A tunnel that was just created: one side alive, the other open to whoever has the
    /// invitation.
    pub open spec fn opened(
        endpoint: Koid,
        invitation: Koid,
        lease: ObjectMappingLease,
    ) -> ConnectionView {
        ConnectionView {
            sides: seq![SideState::Alive(endpoint), SideState::Invited(invitation)],
            leases: seq![Some(lease), None],
        }
    }

    /// The connection once side `s` is taken by an endpoint.
    pub open spec fn side_taken(
        self,
        s: int,
        endpoint: Koid,
        lease: ObjectMappingLease,
    ) -> ConnectionView {
        ConnectionView {
            sides: self.sides.update(s, SideState::Alive(endpoint)),
            leases: self.leases.update(s, Some(lease)),
        }
    }

    /// The connection once the invitation for side `s` is given up.
    pub open spec fn uninvited(self, s: int) -> ConnectionView {
        ConnectionView { sides: self.sides.update(s, SideState::Closed), ..self }
    }

    /// Whom closing side `s` concerns.
    pub open spec fn notice(self, s: int) -> Option<PeerNotice> {
        match self.sides[1 - s] {
            SideState::Alive(endpoint) => Some(PeerNotice::Endpoint(endpoint)),
            SideState::Invited(invitation) => Some(PeerNotice::Invitation(invitation)),
            SideState::Closed => None,
        }
    }
}

/// A side that is alive.
pub struct Endpoint {
    id: Koid,
    side: usize,
    closed: bool,
    wait: ObjectWaitState,
    detached: Option<LeaseRetire>,
}

/// A side that is alive, as a value.
#[verifier::ext_equal]
pub struct EndpointView {
    pub id: Koid,
    pub side: usize,
    /// The side is given up.
    pub closed: bool,
    pub wait: WaitView,
    /// The view is being taken away after the process has ended.
    pub detached: Option<LeaseRetire>,
}

impl View for Endpoint {
    type V = EndpointView;

    closed spec fn view(&self) -> EndpointView {
        EndpointView {
            id: self.id,
            side: self.side,
            closed: self.closed,
            wait: self.wait@,
            detached: self.detached,
        }
    }
}

impl EndpointView {
    pub open spec fn wf(self) -> bool {
        self.side < 2 && self.wait.wf()
    }

    /// The same after a publication.
    pub open spec fn updated(self, clear: ObjectSignals, set: ObjectSignals) -> EndpointView {
        EndpointView { wait: self.wait.updated(clear, set), ..self }
    }
}

/// The right to take a side, once.
#[derive(Clone, Copy, Debug, PartialEq, Eq, Structural)]
pub struct Invitation {
    pub id: Koid,
    pub side: usize,
    pub closed: bool,
}

/// A view of the shared object on its way out.
#[derive(Clone, Copy, Debug)]
pub struct LeaseRetire {
    pub lease: ObjectMappingLease,
    /// Whom the close concerns, once it is committed.
    pub notice: Option<Option<PeerNotice>>,
    pub fragment_retired: bool,
}

impl LeaseRetire {
    pub fn new(lease: ObjectMappingLease) -> (r: LeaseRetire)
        ensures
            r == (LeaseRetire { lease, notice: None, fragment_retired: false }),
    {
        LeaseRetire { lease, notice: None, fragment_retired: false }
    }

    /// The close is committed and concerns `notice`.
    pub fn install_notice(&mut self, notice: Option<PeerNotice>)
        requires
            old(self).notice is None,
        ensures
            *final(self) == (LeaseRetire { notice: Some(notice), ..*old(self) }),
    {
        self.notice = Some(notice);
    }

    /// The view is gone. It has to be the one that the lease remembers, and goes once.
    pub fn retire_fragment(&mut self, fragment: RetiringFragment)
        requires
            old(self).lease.is_fragment(fragment),
            !old(self).fragment_retired,
        ensures
            *final(self) == (LeaseRetire { fragment_retired: true, ..*old(self) }),
    {
        self.fragment_retired = true;
    }

    /// Everything behind the view is gone: closes the endpoint and tells the peer.
    /// `peer` and `invitation` are what the references of the notice still lead to.
    pub fn finish(
        &mut self,
        endpoint: &mut Endpoint,
        peer: &mut Option<Endpoint>,
        invitation: &mut Option<Invitation>,
    )
        requires
            old(self).fragment_retired,
            old(self).notice is Some,
            old(endpoint).wf(),
            *old(peer) matches Some(p) ==> p.wf(),
            leads_to(old(self).notice->0, *old(peer), *old(invitation)),
        ensures
            *final(self) == (LeaseRetire { notice: None, ..*old(self) }),
            final(endpoint).wf(),
            final(endpoint)@ == old(endpoint)@.updated(signals::DATA, signals::CLOSED),
            *final(peer) matches Some(p) ==> p.wf(),
            told(
                old(self).notice->0,
                *old(peer),
                *final(peer),
                *old(invitation),
                *final(invitation),
            ),
    {
        let notice = self.notice.unwrap();
        self.notice = None;
        endpoint.finish_close();
        publish_peer_notice(notice, peer, invitation);
    }
}

/// What the references of a notice lead to: the object they name, or nothing any more.
pub open spec fn leads_to(
    notice: Option<PeerNotice>,
    peer: Option<Endpoint>,
    invitation: Option<Invitation>,
) -> bool {
    match notice {
        Some(PeerNotice::Endpoint(id)) => peer matches Some(p) ==> p@.id == id,
        Some(PeerNotice::Invitation(id)) => invitation matches Some(i) ==> i.id == id,
        None => true,
    }
}

/// The peer has been told: an endpoint sees that its peer is closed, an invitation is
/// void.
pub open spec fn told(
    notice: Option<PeerNotice>,
    peer: Option<Endpoint>,
    peer_after: Option<Endpoint>,
    invitation: Option<Invitation>,
    invitation_after: Option<Invitation>,
) -> bool {
    &&& match (notice, peer) {
        (Some(PeerNotice::Endpoint(_)), Some(p)) => peer_after matches Some(after) && after@
            == p@.updated(signals::NONE, signals::PEER_CLOSED),
        _ => peer_after == peer,
    }
    &&& match (notice, invitation) {
        (Some(PeerNotice::Invitation(_)), Some(i)) => invitation_after == Some(
            Invitation { closed: true, ..i },
        ),
        _ => invitation_after == invitation,
    }
}

/// Tells the peer that a side has closed.
pub fn publish_peer_notice(
    notice: Option<PeerNotice>,
    peer: &mut Option<Endpoint>,
    invitation: &mut Option<Invitation>,
)
    requires
        *old(peer) matches Some(p) ==> p.wf(),
        leads_to(notice, *old(peer), *old(invitation)),
    ensures
        *final(peer) matches Some(p) ==> p.wf(),
        told(notice, *old(peer), *final(peer), *old(invitation), *final(invitation)),
{
    match notice {
        Some(PeerNotice::Endpoint(_)) => {
            if let Some(endpoint) = peer {
                endpoint.set_signals(signals::PEER_CLOSED);
            }
        },
        Some(PeerNotice::Invitation(_)) => {
            if let Some(void) = invitation {
                void.mark_closed();
            }
        },
        None => {},
    }
}

impl Endpoint {
    pub closed spec fn wf(&self) -> bool {
        self@.wf() && self.wait.wf()
    }

    pub proof fn wf_view(&self)
        requires
            self.wf(),
        ensures
            self@.wf(),
    {
    }

    pub fn new(id: Koid, side: usize) -> (r: Endpoint)
        requires
            side < 2,
        ensures
            r.wf(),
            r@.id == id,
            r@.side == side,
            !r@.closed,
            r@.detached is None,
            r@.wait == WaitView::fresh(signals::NONE),
    {
        let endpoint = Endpoint {
            id,
            side,
            closed: false,
            wait: ObjectWaitState::new(signals::NONE),
            detached: None,
        };
        proof {
            endpoint.wait.wf_view();
        }
        endpoint
    }

    pub fn signals(&self) -> (r: ObjectSignals)
        ensures
            r == self@.wait.signals,
    {
        self.wait.signals()
    }

    /// Publishes `set`.
    pub fn set_signals(&mut self, set: ObjectSignals)
        requires
            old(self).wf(),
        ensures
            final(self).wf(),
            final(self)@ == old(self)@.updated(signals::NONE, set),
    {
        self.wait.update(signals::NONE, set);
        proof {
            self.wait.wf_view();
        }
    }

    /// Withdraws the notice that there is data.
    pub fn acknowledge_data(&mut self)
        requires
            old(self).wf(),
        ensures
            final(self).wf(),
            final(self)@ == old(self)@.updated(signals::DATA, signals::NONE),
    {
        self.wait.update(signals::DATA, signals::NONE);
        proof {
            self.wait.wf_view();
        }
    }

    /// Shows that the endpoint is closed; data no longer matters.
    pub fn finish_close(&mut self)
        requires
            old(self).wf(),
        ensures
            final(self).wf(),
            final(self)@ == old(self)@.updated(signals::DATA, signals::CLOSED),
            signals::closed(final(self)@.wait.signals),
    {
        proof {
            signals::closed_is_last();
            object::publishing_closed_closes(self.wait@, signals::DATA, signals::CLOSED);
        }
        self.wait.update(signals::DATA, signals::CLOSED);
        proof {
            self.wait.wf_view();
        }
    }

    /// Its observers. Whatever is done with them, the endpoint stays in order as long
    /// as its levels are left alone.
    pub fn observers(&mut self) -> (r: &mut ObjectWaitState)
        requires
            old(self).wf(),
        ensures
            r.wf(),
            r@ == old(self)@.wait,
            final(self)@ == (EndpointView { wait: final(r)@, ..old(self)@ }),
            final(r).wf() && final(r)@.wf() && final(r)@.same_levels(old(self)@.wait)
                ==> final(self).wf(),
    {
        &mut self.wait
    }

    /// Queues the endpoint if its observers have something to learn.
    pub fn finish_waiters(&mut self) -> (r: Option<(Reservation, Koid)>)
        requires
            old(self).wf(),
        ensures
            final(self).wf(),
            r == old(self)@.wait.news(),
            final(self)@ == (EndpointView { wait: old(self)@.wait.queued(), ..old(self)@ }),
    {
        let pending = self.wait.take_notification();
        proof {
            self.wait.wf_view();
        }
        pending
    }

    /// The endpoint to tell that there is data.
    pub fn notify_peer(&self, connection: &Connection) -> (r: Result<Koid, SystemCallError>)
        requires
            self.wf(),
            connection.wf(),
        ensures
            r == if !connection@.holds(self@) {
                Err::<Koid, _>(SystemCallError::ObjectClosed)
            } else {
                match connection@.sides[1 - self@.side] {
                    SideState::Alive(peer) => Ok(peer),
                    SideState::Invited(_) => Err(SystemCallError::ObjectNotAvailable),
                    SideState::Closed => Err(SystemCallError::ObjectClosed),
                }
            },
    {
        if self.closed {
            return Err(SystemCallError::ObjectClosed);
        }
        if connection.sides[self.side] != SideState::Alive(self.id) {
            return Err(SystemCallError::ObjectClosed);
        }
        match connection.sides[1 - self.side] {
            SideState::Alive(peer) => Ok(peer),
            SideState::Invited(_) => Err(SystemCallError::ObjectNotAvailable),
            SideState::Closed => Err(SystemCallError::ObjectClosed),
        }
    }
}

impl Invitation {
    pub open spec fn wf(self) -> bool {
        self.side < 2
    }

    pub fn new(id: Koid, side: usize) -> (r: Invitation)
        requires
            side < 2,
        ensures
            r.wf(),
            r == (Invitation { id, side, closed: false }),
    {
        Invitation { id, side, closed: false }
    }

    /// The invitation is void.
    pub fn mark_closed(&mut self)
        ensures
            *final(self) == (Invitation { closed: true, ..*old(self) }),
    {
        self.closed = true;
    }

    /// Gives the invitation up, and says whom that concerns. Giving it up again does
    /// nothing, and so does giving up one that no longer holds its side.
    pub fn abandon(&mut self, connection: &mut Connection) -> (r: Option<PeerNotice>)
        requires
            old(self).wf(),
            old(connection).wf(),
        ensures
            *final(self) == (Invitation { closed: true, ..*old(self) }),
            final(connection).wf(),
            ({
                let side = old(self).side as int;
                let holds = !old(self).closed && old(connection)@.sides[side] == SideState::Invited(
                    old(self).id,
                );
                &&& final(connection)@ == if holds {
                    old(connection)@.uninvited(side)
                } else {
                    old(connection)@
                }
                &&& r == if holds && old(connection)@.sides[1 - side] is Alive {
                    Some(PeerNotice::Endpoint((old(connection)@.sides[1 - side])->Alive_0))
                } else {
                    None
                }
            }),
    {
        if self.closed {
            return None;
        }
        self.closed = true;
        if connection.sides[self.side] != SideState::Invited(self.id) {
            return None;
        }
        connection.sides.set(self.side, SideState::Closed);
        match connection.sides[1 - self.side] {
            SideState::Alive(endpoint) => Some(PeerNotice::Endpoint(endpoint)),
            _ => None,
        }
    }
}

impl Connection {
    pub closed spec fn wf(&self) -> bool {
        self@.wf()
    }

    pub proof fn wf_view(&self)
        requires
            self.wf(),
        ensures
            self@.wf(),
    {
    }

    /// A connection whose sides nobody holds yet.
    pub fn new() -> (r: Connection)
        ensures
            r.wf(),
            r@.is_new(),
    {
        let mut sides: Vec<SideState> = Vec::new();
        sides.push(SideState::Closed);
        sides.push(SideState::Closed);
        let mut leases: Vec<Option<ObjectMappingLease>> = Vec::new();
        leases.push(None);
        leases.push(None);
        let connection = Connection { sides, leases };
        assert(connection@.sides =~= seq![SideState::Closed, SideState::Closed]);
        assert(connection@.leases =~= seq![
            None::<ObjectMappingLease>,
            None::<ObjectMappingLease>,
        ]);
        connection
    }

    /// Publishes the first endpoint, with its view of the object, and the invitation to
    /// the other side.
    pub fn open_sides(&mut self, endpoint: Koid, invitation: Koid, lease: ObjectMappingLease)
        requires
            old(self).wf(),
            old(self)@.is_new(),
        ensures
            final(self).wf(),
            final(self)@ == ConnectionView::opened(endpoint, invitation, lease),
    {
        self.leases.set(0, Some(lease));
        self.sides.set(0, SideState::Alive(endpoint));
        self.sides.set(1, SideState::Invited(invitation));
        assert(self@.sides =~= seq![SideState::Alive(endpoint), SideState::Invited(invitation)]);
        assert(self@.leases =~= seq![Some(lease), None]);
    }

    /// Whether the invitation can be turned into an endpoint.
    pub fn check_invitation(&self, invitation: &Invitation) -> (r: Result<(), SystemCallError>)
        requires
            self.wf(),
            invitation.wf(),
        ensures
            r == if self@.invites(*invitation) {
                Ok::<(), SystemCallError>(())
            } else {
                Err(SystemCallError::ObjectClosed)
            },
    {
        if invitation.closed {
            return Err(SystemCallError::ObjectClosed);
        }
        if self.sides[invitation.side] != SideState::Invited(invitation.id) {
            return Err(SystemCallError::ObjectClosed);
        }
        match self.sides[1 - invitation.side] {
            SideState::Alive(_) => {},
            _ => {
                return Err(SystemCallError::ObjectClosed);
            },
        }
        if self.leases[invitation.side].is_some() {
            return Err(SystemCallError::ObjectClosed);
        }
        Ok(())
    }

    /// Turns the invitation into an endpoint with its view of the object.
    pub fn accept(
        &mut self,
        invitation: &mut Invitation,
        endpoint: Koid,
        lease: ObjectMappingLease,
    )
        requires
            old(self).wf(),
            old(invitation).wf(),
            old(self)@.invites(*old(invitation)),
        ensures
            final(self).wf(),
            *final(invitation) == (Invitation { closed: true, ..*old(invitation) }),
            final(self)@ == old(self)@.side_taken(old(invitation).side as int, endpoint, lease),
    {
        self.leases.set(invitation.side, Some(lease));
        self.sides.set(invitation.side, SideState::Alive(endpoint));
        invitation.closed = true;
    }

    /// The view that has to go before the endpoint can be closed.
    pub fn check_close(&self, endpoint: &Endpoint) -> (r: Result<
        ObjectMappingLease,
        SystemCallError,
    >)
        requires
            self.wf(),
            endpoint.wf(),
        ensures
            r == if self@.holds(endpoint@) {
                Ok::<_, SystemCallError>(self@.leases[endpoint@.side as int]->0)
            } else {
                Err(SystemCallError::ObjectClosed)
            },
    {
        if endpoint.closed {
            return Err(SystemCallError::ObjectClosed);
        }
        if self.sides[endpoint.side] != SideState::Alive(endpoint.id) {
            return Err(SystemCallError::ObjectClosed);
        }
        match self.leases[endpoint.side] {
            Some(lease) => Ok(lease),
            None => Err(SystemCallError::ObjectClosed),
        }
    }

    /// Gives the side of `endpoint` up, with its view of the object: the view, and whom
    /// that concerns. An invitation to the other side is void from now on.
    pub fn commit_side_close(&mut self, endpoint: &mut Endpoint) -> (r: (
        ObjectMappingLease,
        Option<PeerNotice>,
    ))
        requires
            old(self).wf(),
            old(endpoint).wf(),
            old(self)@.holds(old(endpoint)@),
        ensures
            final(self).wf(),
            final(endpoint).wf(),
            final(endpoint)@ == (EndpointView { closed: true, ..old(endpoint)@ }),
            final(self)@ == old(self)@.side_closed(old(endpoint)@.side as int),
            r.0 == old(self)@.leases[old(endpoint)@.side as int]->0,
            r.1 == old(self)@.notice(old(endpoint)@.side as int),
    {
        let side: usize = endpoint.side;
        assert(self@.sides[side as int] is Alive);
        let lease = self.leases[side].unwrap();
        self.leases.set(side, None);
        self.sides.set(side, SideState::Closed);
        endpoint.closed = true;
        let peer: usize = 1 - side;
        let notice = match self.sides[peer] {
            SideState::Alive(endpoint) => Some(PeerNotice::Endpoint(endpoint)),
            SideState::Invited(invitation) => {
                self.sides.set(peer, SideState::Closed);
                Some(PeerNotice::Invitation(invitation))
            },
            SideState::Closed => None,
        };
        assert(self@ =~= old(self)@.side_closed(side as int));
        (lease, notice)
    }
}

/// Tells the peer that there is data: `found` is what the lookup of the endpoint with
/// the right to signal gave, `peer` what the reference to the other side leads to.
pub fn notify(
    found: Result<ProcessHandleEntry, TableError>,
    connection: &Connection,
    endpoint: &Endpoint,
    peer: &mut Option<Endpoint>,
) -> (r: Result<(), SystemCallError>)
    requires
        connection.wf(),
        endpoint.wf(),
        *old(peer) matches Some(p) ==> p.wf(),
        connection@.sides[1 - endpoint@.side] matches SideState::Alive(id) ==> (*old(
            peer,
        ) matches Some(p) ==> p@.id == id),
    ensures
        *final(peer) matches Some(p) ==> p.wf(),
        ({
            let resolved = handle::resolve_result(
                found,
                ObjectKind::TunnelEndpoint,
                HandleRole::TunnelEndpoint,
            );
            let other = connection@.sides[1 - endpoint@.side];
            r == if resolved is Err {
                Err::<(), _>(resolved->Err_0)
            } else if !connection@.holds(endpoint@) || other is Closed {
                Err(SystemCallError::ObjectClosed)
            } else if other is Invited {
                Err(SystemCallError::ObjectNotAvailable)
            } else if *old(peer) is None {
                Err(SystemCallError::ObjectClosed)
            } else {
                Ok(())
            }
        }),
        r is Err ==> *final(peer) == *old(peer),
        r is Ok ==> *final(peer) is Some && (*final(peer))->0@ == (*old(peer))->0@.updated(
            signals::NONE,
            signals::DATA,
        ),
{
    match handle::resolve(found, ObjectKind::TunnelEndpoint, HandleRole::TunnelEndpoint) {
        Err(error) => {
            return Err(error);
        },
        Ok(_) => {},
    }
    match endpoint.notify_peer(connection) {
        Err(error) => {
            return Err(error);
        },
        Ok(_) => {},
    }
    match peer {
        Some(endpoint) => {
            endpoint.set_signals(signals::DATA);
            Ok(())
        },
        None => Err(SystemCallError::ObjectClosed),
    }
}

/// Withdraws the notice that there is data: `found` is what the lookup of the endpoint
/// with the right to manage gave.
pub fn acknowledge_data(
    found: Result<ProcessHandleEntry, TableError>,
    endpoint: &mut Endpoint,
) -> (r: Result<(), SystemCallError>)
    requires
        old(endpoint).wf(),
    ensures
        final(endpoint).wf(),
        ({
            let resolved = handle::resolve_result(
                found,
                ObjectKind::TunnelEndpoint,
                HandleRole::TunnelEndpoint,
            );
            r == if resolved is Err {
                Err::<(), _>(resolved->Err_0)
            } else {
                Ok(())
            }
        }),
        final(endpoint)@ == if r is Ok {
            old(endpoint)@.updated(signals::DATA, signals::NONE)
        } else {
            old(endpoint)@
        },
{
    match handle::resolve(found, ObjectKind::TunnelEndpoint, HandleRole::TunnelEndpoint) {
        Err(error) => Err(error),
        Ok(_) => {
            endpoint.acknowledge_data();
            Ok(())
        },
    }
}

/// What to do with an endpoint whose process has ended.
#[derive(Clone, Copy, Debug, PartialEq, Eq, Structural)]
pub enum DetachedClose {
    /// Try again later.
    Wait,
    /// Roll the plan back, and try again later.
    RollBack,
    /// The side is given up; drive the view out.
    Advance,
}

/// Goes on closing an endpoint whose process has ended. `room` says whether there is
/// memory to follow the view out, `planned` what planning its removal gave, `funded`
/// whether the tables for it could be had. Nothing is given up before all of that is
/// settled; a close that is under way goes on.
pub fn close_detached(
    endpoint: &mut Endpoint,
    connection: &mut Connection,
    room: bool,
    planned: Result<(), SpaceError>,
    funded: bool,
) -> (r: DetachedClose)
    requires
        old(endpoint).wf(),
        old(connection).wf(),
        old(endpoint)@.detached is None ==> old(connection)@.holds(old(endpoint)@),
        planned is Ok || planned == Err::<(), _>(SpaceError::Busy),
    ensures
        final(endpoint).wf(),
        final(connection).wf(),
        r == if old(endpoint)@.detached is Some {
            DetachedClose::Advance
        } else if !room || planned is Err {
            DetachedClose::Wait
        } else if !funded {
            DetachedClose::RollBack
        } else {
            DetachedClose::Advance
        },
        old(endpoint)@.detached is Some || r != DetachedClose::Advance ==> final(endpoint)@ == old(
            endpoint,
        )@ && final(connection)@ == old(connection)@,
        old(endpoint)@.detached is None && r == DetachedClose::Advance ==> {
            let side = old(endpoint)@.side as int;
            &&& final(connection)@ == old(connection)@.side_closed(side)
            &&& final(endpoint)@ == (EndpointView {
                closed: true,
                detached: Some(
                    LeaseRetire {
                        lease: old(connection)@.leases[side]->0,
                        notice: Some(old(connection)@.notice(side)),
                        fragment_retired: false,
                    },
                ),
                ..old(endpoint)@
            })
        },
{
    if endpoint.detached.is_some() {
        return DetachedClose::Advance;
    }
    if !room {
        return DetachedClose::Wait;
    }
    match planned {
        Err(_) => {
            return DetachedClose::Wait;
        },
        Ok(_) => {},
    }
    if !funded {
        return DetachedClose::RollBack;
    }
    let (lease, notice) = connection.commit_side_close(endpoint);
    let mut retire = LeaseRetire::new(lease);
    retire.install_notice(notice);
    endpoint.detached = Some(retire);
    DetachedClose::Advance
}

/// The view of a detached endpoint has been driven on; `complete` says whether it is
/// gone altogether. The handle's entry goes with it.
pub fn detached_advanced(endpoint: &mut Endpoint, complete: bool) -> (r: bool)
    requires
        old(endpoint).wf(),
        old(endpoint)@.detached is Some,
    ensures
        final(endpoint).wf(),
        r == complete,
        final(endpoint)@ == if complete {
            EndpointView { detached: None, ..old(endpoint)@ }
        } else {
            old(endpoint)@
        },
{
    if complete {
        endpoint.detached = None;
    }
    complete
}

/// The entry that a new endpoint is held by.
pub open spec fn endpoint_entry(object: Koid) -> ProcessHandleEntry {
    ProcessHandleEntry {
        object,
        kind: ObjectKind::TunnelEndpoint,
        role: HandleRole::TunnelEndpoint,
        rights: rights::TUNNEL_ENDPOINT,
    }
}

/// The entry that a new invitation is held by.
pub open spec fn invitation_entry(object: Koid) -> ProcessHandleEntry {
    ProcessHandleEntry {
        object,
        kind: ObjectKind::TunnelInvitation,
        role: HandleRole::TunnelInvitation,
        rights: rights::TUNNEL_INVITATION,
    }
}

/// The entry that a new endpoint is held by.
pub fn make_endpoint_entry(object: Koid) -> (r: Result<ProcessHandleEntry, SystemCallError>)
    ensures
        r == Ok::<_, SystemCallError>(endpoint_entry(object)),
{
    proof {
        handle::all_rights_may_enter(object, ObjectKind::TunnelEndpoint, HandleRole::TunnelEndpoint);
    }
    match handle::entry(
        object,
        ObjectKind::TunnelEndpoint,
        HandleRole::TunnelEndpoint,
        rights::WAIT | rights::SIGNAL | rights::MANAGE,
    ) {
        Err(error) => Err(handle::map_error(error)),
        Ok(entry) => Ok(entry),
    }
}

/// The two entries that creating a tunnel publishes.
pub fn create_entries(endpoint: Koid, invitation: Koid, room: bool) -> (r: Result<
    (ProcessHandleEntry, ProcessHandleEntry),
    SystemCallError,
>)
    ensures
        r == if room {
            Ok::<_, SystemCallError>((endpoint_entry(endpoint), invitation_entry(invitation)))
        } else {
            Err(SystemCallError::OutOfMemory)
        },
{
    if !room {
        return Err(SystemCallError::OutOfMemory);
    }
    let first = match make_endpoint_entry(endpoint) {
        Err(error) => {
            return Err(error);
        },
        Ok(entry) => entry,
    };
    proof {
        handle::all_rights_may_enter(
            invitation,
            ObjectKind::TunnelInvitation,
            HandleRole::TunnelInvitation,
        );
    }
    match handle::entry(
        invitation,
        ObjectKind::TunnelInvitation,
        HandleRole::TunnelInvitation,
        rights::MAP | rights::TRANSIT | rights::GRANT,
    ) {
        Err(error) => Err(handle::map_error(error)),
        Ok(second) => Ok((first, second)),
    }
}

/// Plans the view of one side, at `va`: all pages of the connection's object, whose runs of
/// frames are `spans`, to read and to write, which only the tunnel can take away again.
/// `room` says whether there is memory to list the object's runs, `holding` whether the address space may hold the object; the
/// other arguments are those of [`BoundAddressSpace::plan_object_map`].
pub fn plan_side_mapping(
    space: &mut BoundAddressSpace,
    object: u64,
    spans: &Vec<(usize, usize)>,
    va: usize,
    room: bool,
    holding: Result<(), SpaceError>,
    validated: Result<(MapLayout, u64), ChangeError>,
    reserved: Result<(), ChangeError>,
    parts_room: bool,
    preflight: Result<(), MapError>,
) -> (r: Result<ObjectPlan, PlanFailure<SpaceError>>)
    requires
        old(space).wf(),
        0 < backing::total_pages(spans@),
        backing::total_pages(spans@) * PAGE_SIZE + PAGE_SIZE <= usize::MAX,
    ensures
        final(space).wf(),
        ({
            let fails = |error: SpaceError, roll_back: bool|
                r == Err::<ObjectPlan, _>(PlanFailure { error, roll_back });
            if !room {
                fails(SpaceError::NoFrame, false) && final(space)@ == old(space)@
            } else if holding is Err {
                fails(holding->Err_0, false) && final(space)@ == old(space)@
            } else if old(space)@.busy {
                fails(SpaceError::Busy, false) && final(space)@ == old(space)@
            } else if !SpaceView::mintable(old(space)@.next_lease) {
                fails(SpaceError::NoFrame, false) && final(space)@ == old(space)@
            } else {
                &&& final(space)@ == (SpaceView { busy: r is Ok, ..old(space)@.lease_minted() })
                &&& if validated is Err {
                    fails(space::change_refusal(validated->Err_0), false)
                } else if reserved is Err {
                    fails(space::change_refusal(reserved->Err_0), false)
                } else if !parts_room {
                    fails(SpaceError::NoFrame, true)
                } else if preflight is Err {
                    fails(address_space::table_refusal(preflight->Err_0), true)
                } else {
                    &&& r is Ok
                    &&& r->Ok_0.request == (LedgerRequest {
                        bytes: (backing::total_pages(spans@) * PAGE_SIZE) as usize,
                        guard_before: 0,
                        guard_after: 0,
                        placement: MapPlacement::FixedEmpty { usable_start: va },
                        current: Protection::ReadWrite,
                        maximum: Protection::ReadWrite,
                        owner: RegionOwner::Lease(old(space)@.next_lease),
                        backing: MapBacking::Object {
                            object,
                            maximum: Protection::ReadWrite,
                            offset: 0,
                        },
                        result: None,
                    })
                    &&& r->Ok_0.spans@ == backing::placed_spans(
                        (validated->Ok_0).0.usable.start as int / PAGE_SIZE as int,
                        spans@,
                    )
                    &&& r->Ok_0.lease == Some(
                        ObjectMappingLease {
                            lease: old(space)@.next_lease,
                            region: (validated->Ok_0).1,
                            range: (validated->Ok_0).0.usable,
                            object,
                            object_offset: 0,
                            protection: Protection::ReadWrite,
                        },
                    )
                }
            }
        }),
{
    if !room {
        return Err(PlanFailure { error: SpaceError::NoFrame, roll_back: false });
    }
    let pages: usize = backing::span_pages(spans).unwrap();
    let intent = MapIntent::object_lease(va, pages * PAGE_SIZE, Protection::ReadWrite);
    match holding {
        Err(error) => {
            return Err(PlanFailure { error, roll_back: false });
        },
        Ok(_) => {},
    }
    space.plan_object_map(
        &intent,
        object,
        0,
        spans,
        Protection::ReadWrite,
        validated,
        reserved,
        parts_room,
        Ok(()),
        preflight,
    )
}

/// Once a side has closed, its peer sees that: the live endpoint on the other side is
/// told, and then shows that its peer is closed, unless it is closed itself.
pub proof fn peer_sees_the_close(connection: ConnectionView, e: EndpointView, peer: EndpointView)
    requires
        connection.wf(),
        e.wf(),
        connection.holds(e),
        connection.sides[1 - e.side] == SideState::Alive(peer.id),
        peer.wf(),
    ensures
        connection.notice(e.side as int) == Some(PeerNotice::Endpoint(peer.id)),
        ({
            let shown = peer.updated(signals::NONE, signals::PEER_CLOSED).wait.signals;
            signals::meets(shown, signals::PEER_CLOSED) || signals::closed(shown)
        }),
        connection.side_closed(e.side as int).sides[1 - e.side] == SideState::Alive(peer.id),
{
    object::update_shows(peer.wait, signals::NONE, signals::PEER_CLOSED);
}

/// A side that has closed stays without a view, cannot be notified from, and its
/// invitation, if it had issued one, opens nothing.
pub proof fn closed_side_stays_closed(connection: ConnectionView, e: EndpointView, i: Invitation)
    requires
        connection.wf(),
        e.wf(),
        connection.holds(e),
        i.wf(),
    ensures
        ({
            let after = connection.side_closed(e.side as int);
            &&& after.wf()
            &&& after.leases[e.side as int] is None
            &&& !after.holds(e)
            &&& !after.invites(i)
        }),
{
}

/// Closing a side closes that side and takes its view back; of the other side only an invitation
/// goes along, and an endpoint there keeps its side and its view.
pub proof fn closing_a_side_concerns_it_alone(connection: ConnectionView, s: int)
    requires
        connection.wf(),
        0 <= s < 2,
    ensures
        ({
            let after = connection.side_closed(s);
            &&& after.sides[s] is Closed && after.leases[s] is None
            &&& connection.sides[1 - s] is Alive ==> after.sides[1 - s] == connection.sides[1 - s]
            &&& !(connection.sides[1 - s] is Alive) ==> after.sides[1 - s] is Closed
            &&& after.leases[1 - s] == connection.leases[1 - s]
            &&& after.sides.len() == 2 && after.leases.len() == 2
        }),
{
}

/// Whoever is on the other side is told, by its own identity: an endpoint or an invitation; nobody
/// is told if nobody is there.
pub proof fn the_other_side_is_told(connection: ConnectionView, s: int)
    requires
        connection.wf(),
        0 <= s < 2,
    ensures
        match connection.notice(s) {
            Some(PeerNotice::Endpoint(id)) => connection.sides[1 - s] == SideState::Alive(id),
            Some(PeerNotice::Invitation(id)) => connection.sides[1 - s] == SideState::Invited(id),
            None => connection.sides[1 - s] is Closed,
        },
{
}

/// A side has one holder: two endpoints that hold the same side are the same endpoint, and while
/// an endpoint holds it no invitation for it can be used.
pub proof fn sides_have_one_holder(
    connection: ConnectionView,
    a: EndpointView,
    b: EndpointView,
    i: Invitation,
)
    requires
        connection.wf(),
        a.wf(),
        i.wf(),
        connection.holds(a),
    ensures
        connection.holds(b) && a.side == b.side ==> a.id == b.id,
        i.side == a.side ==> !connection.invites(i),
        connection.leases[a.side as int] is Some,
        connection.invites(i) ==> connection.sides[1 - i.side] is Alive
            && connection.leases[i.side as int] is None && !i.closed,
{
}

/// A publication on an endpoint concerns what its observers see and nothing else of it.
pub proof fn endpoints_stay_themselves(e: EndpointView, clear: ObjectSignals, set: ObjectSignals)
    ensures
        e.updated(clear, set).id == e.id && e.updated(clear, set).side == e.side,
        e.updated(clear, set).closed == e.closed && e.updated(clear, set).detached == e.detached,
        e.updated(clear, set).wait == e.wait.updated(clear, set),
{
}

/// The entries that a tunnel is made with say what the objects grant, of the very objects; an
/// endpoint cannot travel, an invitation can.
pub proof fn tunnels_are_held_by_full_entries(object: Koid)
    ensures
        endpoint_entry(object).object == object && invitation_entry(object).object == object,
        handle::max_rights(endpoint_entry(object).kind, endpoint_entry(object).role) == Some(
            endpoint_entry(object).rights,
        ),
        handle::max_rights(invitation_entry(object).kind, invitation_entry(object).role) == Some(
            invitation_entry(object).rights,
        ),
        endpoint_entry(object).rights & rights::TRANSIT == 0,
        invitation_entry(object).rights & rights::TRANSIT != 0,
        endpoint_entry(object).kind is TunnelEndpoint,
        invitation_entry(object).kind is TunnelInvitation,
{
    handle::every_right_has_its_roles(ObjectKind::TunnelEndpoint, HandleRole::TunnelEndpoint);
    handle::every_right_has_its_roles(ObjectKind::TunnelInvitation, HandleRole::TunnelInvitation);
}

/// Who holds a side, and who may take one: an endpoint that is not closed holds the side that is
/// alive with its identity; an invitation that is not closed can be used for the side that waits
/// for it. Nobody holds a side of a new connection, or is invited to one.
pub proof fn holders_are_alive_on_their_side(
    connection: ConnectionView,
    e: EndpointView,
    i: Invitation,
)
    requires
        connection.wf(),
        e.wf(),
        i.wf(),
    ensures
        connection.holds(e) <==> !e.closed && (
        connection.sides[e.side as int] matches SideState::Alive(id) && id == e.id),
        e.closed ==> !connection.holds(e),
        i.closed ==> !connection.invites(i),
        connection.sides[i.side as int] == SideState::Invited(i.id) && !i.closed
            ==> connection.invites(i),
        connection.is_new() ==> !connection.holds(e) && !connection.invites(i)
            && connection.sides[0] is Closed && connection.sides[1] is Closed
            && connection.leases[0] is None && connection.leases[1] is None,
{
}

/// Telling the peer concerns the one that is named: an endpoint sees that its peer is closed, an
/// invitation is void, and whoever is not named stays as it was.
pub proof fn only_the_named_peer_is_told(
    notice: Option<PeerNotice>,
    peer: Option<Endpoint>,
    peer_after: Option<Endpoint>,
    invitation: Option<Invitation>,
    invitation_after: Option<Invitation>,
)
    requires
        told(notice, peer, peer_after, invitation, invitation_after),
    ensures
        notice is None ==> peer_after == peer && invitation_after == invitation,
        !(notice matches Some(PeerNotice::Endpoint(_))) ==> peer_after == peer,
        !(notice matches Some(PeerNotice::Invitation(_))) ==> invitation_after == invitation,
        (notice matches Some(PeerNotice::Invitation(_))) && invitation is Some
            ==> invitation_after is Some && invitation_after->0.closed && invitation_after->0.id
            == invitation->0.id && invitation_after->0.side == invitation->0.side,
        (notice matches Some(PeerNotice::Endpoint(_))) && peer is Some ==> peer_after is Some
            && peer_after->0@.id == peer->0@.id && peer_after->0@.wait == peer->0@.wait.updated(
            signals::NONE,
            signals::PEER_CLOSED,
        ),
        peer is None ==> peer_after is None,
{
}

} // verus!
