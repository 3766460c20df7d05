//! The listener's part of the relay: who gets a session, and shutdown.
//!
//! Accepting connections and upgrading them is the caller's work. The
//! listener decides what follows from how the upgrade went, and it is the one
//! place from which the relay is shut down.

use vstd::prelude::*;
use crate::bus::{Bus, BusView};
use crate::session::{OutboundView, Session, SessionView};

verus! {

/// What becomes of a connection that was accepted.
#[derive(Debug)]
pub enum Admission {
    /// The upgrade went well: here is the connection's session.
    Admitted(Session),
    /// The upgrade failed. The connection is dropped; the listener goes on.
    Rejected,
    /// The relay has been shut down and takes no more connections.
    Refused,
}

/// The mathematical value of an [`Admission`].
pub enum AdmissionView {
    Admitted(SessionView),
    Rejected,
    Refused,
}

impl View for Admission {
    type V = AdmissionView;

    open spec fn view(&self) -> AdmissionView {
        match *self {
            Admission::Admitted(session) => AdmissionView::Admitted(session@),
            Admission::Rejected => AdmissionView::Rejected,
            Admission::Refused => AdmissionView::Refused,
        }
    }
}

/// What is decided of a connection, given whether the listener still
/// accepts, the bus, and whether the connection's upgrade went well.
pub open spec fn admission(accepting: bool, bus: BusView, upgraded: bool) -> AdmissionView {
    if !accepting {
        AdmissionView::Refused
    } else if !upgraded {
        AdmissionView::Rejected
    } else {
        AdmissionView::Admitted(SessionView::open(bus))
    }
}

/// The listener: accepts until it is shut down.
#[derive(Debug)]
pub struct Listener {
    accepting: bool,
}

impl View for Listener {
    type V = bool;

    /// Whether the listener still accepts connections.
    closed spec fn view(&self) -> bool {
        self.accepting
    }
}

impl Listener {
    /// A listener that accepts connections.
    pub fn new() -> (listener: Listener)
        ensures
            listener@,
    {
        Listener { accepting: true }
    }

    /// Decides what becomes of a connection whose upgrade went well or not.
    /// A failed upgrade costs that connection only: the listener is
    /// unchanged and goes on accepting.
    pub fn accept(&self, bus: &Bus, upgraded: bool) -> (admission: Admission)
        ensures
            admission@ == self::admission(self@, bus@, upgraded),
    {
        if !self.accepting {
            Admission::Refused
        } else if !upgraded {
            Admission::Rejected
        } else {
            Admission::Admitted(Session::open(bus))
        }
    }

    /// Shuts the relay down: no more connections are accepted, and the bus
    /// is closed, so that every writer duty stops once it has read what the
    /// bus still holds.
    pub fn shutdown(&mut self, bus: &mut Bus)
        ensures
            !final(self)@,
            final(bus)@ == old(bus)@.close(),
    {
        self.accepting = false;
        bus.close();
    }

    /// Whether the listener still accepts connections.
    pub fn is_accepting(&self) -> (accepting: bool)
        ensures
            accepting == self@,
    {
        self.accepting
    }
}

/// Shutdown reaches every session. On a closed bus a writer duty is at most
/// as many steps from its stop as its cursor has reads left, and a cursor
/// that has caught up stops at once.
pub proof fn lemma_shutdown_stops_writers(session: SessionView, bus: BusView)
    requires
        bus.wf(),
        bus.closed,
        session.writing,
    ensures
        bus.backlog(session.position) == 0 ==> session.outbound(bus).1 == OutboundView::Stop
            && !session.outbound(bus).0.writing,
        bus.backlog(session.position) > 0 && session.reading ==> bus.backlog(
            session.outbound(bus).0.position,
        ) < bus.backlog(session.position),
{
}

} // verus!
