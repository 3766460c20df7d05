//! One client's session: two duties that start together and end together.
//!
//! The reader duty takes what the client sends and publishes its text
//! frames. The writer duty takes what the bus delivers and sends it to the
//! client. Neither does I/O here: the caller reads and writes frames, tells
//! the session what happened, and does what the session answers. When one
//! duty stops, the other stops at its next step.

use vstd::prelude::*;
use crate::bus::{Bus, BusView, Cursor, Delivery, DeliveryView};

verus! {

/// A frame from the client, as far as the relay cares.
#[derive(Debug, PartialEq, Eq)]
pub enum Frame {
    /// A text message, to be published.
    Text(String),
    /// The client is closing the connection.
    Close,
    /// Anything else (binary, ping, pong): accepted and ignored.
    Other,
}

/// The mathematical value of a [`Frame`].
pub enum FrameView {
    Text(Seq<char>),
    Close,
    Other,
}

impl View for Frame {
    type V = FrameView;

    open spec fn view(&self) -> FrameView {
        match *self {
            Frame::Text(text) => FrameView::Text(text@),
            Frame::Close => FrameView::Close,
            Frame::Other => FrameView::Other,
        }
    }
}

/// What one attempt to read from the client came to.
#[derive(Debug, PartialEq, Eq)]
pub enum Inbound {
    /// A frame arrived.
    Frame(Frame),
    /// The client's stream has ended.
    End,
    /// The read failed.
    Failed,
}

/// The mathematical value of an [`Inbound`].
pub enum InboundView {
    Frame(FrameView),
    End,
    Failed,
}

impl View for Inbound {
    type V = InboundView;

    open spec fn view(&self) -> InboundView {
        match *self {
            Inbound::Frame(frame) => InboundView::Frame(frame@),
            Inbound::End => InboundView::End,
            Inbound::Failed => InboundView::Failed,
        }
    }
}

impl InboundView {
    /// Whether this ends the reader duty: a close frame, the end of the
    /// stream, or a failed read.
    pub open spec fn stops_reader(self) -> bool {
        self != InboundView::Frame(FrameView::Other) && !(self matches InboundView::Frame(
            FrameView::Text(_),
        ))
    }
}

/// What the writer duty is to do next.
#[derive(Debug, PartialEq, Eq)]
pub enum Outbound {
    /// Send this text to the client as a text frame, then report how the
    /// write went.
    Send(String),
    /// This many messages were lost to the client. Note it and go on.
    Skipped(u64),
    /// Nothing to send: wait until something is published or a duty stops.
    Wait,
    /// The duty is over.
    Stop,
}

/// The mathematical value of an [`Outbound`].
pub enum OutboundView {
    Send(Seq<char>),
    Skipped(nat),
    Wait,
    Stop,
}

impl View for Outbound {
    type V = OutboundView;

    open spec fn view(&self) -> OutboundView {
        match *self {
            Outbound::Send(text) => OutboundView::Send(text@),
            Outbound::Skipped(lost) => OutboundView::Skipped(lost as nat),
            Outbound::Wait => OutboundView::Wait,
            Outbound::Stop => OutboundView::Stop,
        }
    }
}

/// The mathematical value of a [`Session`]: where its cursor stands and
/// which of its duties still run.
pub struct SessionView {
    pub position: u64,
    pub reading: bool,
    pub writing: bool,
}

impl SessionView {
    /// A session that starts on `bus`: subscribed at the tail, both duties
    /// running.
    pub open spec fn open(bus: BusView) -> SessionView {
        SessionView { position: bus.subscribe(), reading: true, writing: true }
    }

    /// One duty has stopped, so the session is over for the client; the
    /// other duty stops at its next step.
    pub open spec fn stopping(self) -> bool {
        !self.reading || !self.writing
    }

    /// Both duties have stopped: nothing of the session is left running.
    pub open spec fn ended(self) -> bool {
        !self.reading && !self.writing
    }

    /// One step of the reader duty: the session and the bus afterwards.
    pub open spec fn inbound(self, bus: BusView, event: InboundView) -> (SessionView, BusView) {
        if !self.reading {
            (self, bus)
        } else if !self.writing {
            (SessionView { reading: false, ..self }, bus)
        } else {
            match event {
                InboundView::Frame(FrameView::Text(text)) => (self, bus.publish(text)),
                InboundView::Frame(FrameView::Other) => (self, bus),
                InboundView::Frame(FrameView::Close) | InboundView::End | InboundView::Failed => (
                    SessionView { reading: false, ..self },
                    bus,
                ),
            }
        }
    }

    /// One step of the writer duty: the session afterwards, and what the
    /// duty is to do.
    pub open spec fn outbound(self, bus: BusView) -> (SessionView, OutboundView) {
        if !self.writing {
            (self, OutboundView::Stop)
        } else if !self.reading {
            (SessionView { writing: false, ..self }, OutboundView::Stop)
        } else {
            let (delivery, position) = bus.poll(self.position);
            match delivery {
                DeliveryView::Message(text) => (
                    SessionView { position, ..self },
                    OutboundView::Send(text),
                ),
                DeliveryView::Lagged(lost) => (
                    SessionView { position, ..self },
                    OutboundView::Skipped(lost),
                ),
                DeliveryView::Pending => (self, OutboundView::Wait),
                DeliveryView::Closed => (SessionView { writing: false, ..self }, OutboundView::Stop),
            }
        }
    }

    /// The session after a write to the client that went well or not.
    pub open spec fn written(self, ok: bool) -> SessionView {
        if ok {
            self
        } else {
            SessionView { writing: false, ..self }
        }
    }
}

/// One client's session. It owns its cursor; nothing else reads through it.
#[derive(Debug)]
pub struct Session {
    cursor: Cursor,
    reading: bool,
    writing: bool,
}

impl View for Session {
    type V = SessionView;

    closed spec fn view(&self) -> SessionView {
        SessionView { position: self.cursor@, reading: self.reading, writing: self.writing }
    }
}

impl Session {
    /// Starts a session on `bus`. It will see what is published from now on.
    pub fn open(bus: &Bus) -> (session: Session)
        ensures
            session@ == SessionView::open(bus@),
    {
        Session { cursor: bus.subscribe(), reading: true, writing: true }
    }

    /// One step of the reader duty, after a read from the client came to
    /// `event`. A text frame is published; a close frame, the end of the
    /// stream or a failed read stops the duty; other frames are ignored.
    /// If the writer duty has stopped, the reader duty stops whatever came.
    /// Returns whether the duty goes on.
    pub fn on_inbound(&mut self, bus: &mut Bus, event: Inbound) -> (go_on: bool)
        ensures
            (final(self)@, final(bus)@) == old(self)@.inbound(old(bus)@, event@),
            go_on == final(self)@.reading,
    {
        if !self.reading {
            return false;
        }
        if !self.writing {
            self.reading = false;
            return false;
        }
        match event {
            Inbound::Frame(Frame::Text(text)) => {
                bus.publish(text);
                true
            },
            Inbound::Frame(Frame::Other) => true,
            Inbound::Frame(Frame::Close) | Inbound::End | Inbound::Failed => {
                self.reading = false;
                false
            },
        }
    }

    /// One step of the writer duty: reads the bus through the session's
    /// cursor and says what to do with it. If the reader duty has stopped,
    /// or the bus is shut down and read to its end, the duty stops.
    pub fn on_outbound(&mut self, bus: &Bus) -> (outbound: Outbound)
        ensures
            (final(self)@, outbound@) == old(self)@.outbound(bus@),
    {
        if !self.writing {
            return Outbound::Stop;
        }
        if !self.reading {
            self.writing = false;
            return Outbound::Stop;
        }
        match bus.next(&mut self.cursor) {
            Delivery::Message(text) => Outbound::Send(text),
            Delivery::Lagged(lost) => Outbound::Skipped(lost),
            Delivery::Pending => Outbound::Wait,
            Delivery::Closed => {
                self.writing = false;
                Outbound::Stop
            },
        }
    }

    /// Takes note of how a write to the client went. A failed write stops
    /// the writer duty. Returns whether the duty goes on.
    pub fn on_written(&mut self, ok: bool) -> (go_on: bool)
        ensures
            final(self)@ == old(self)@.written(ok),
            go_on == final(self)@.writing,
    {
        if !ok {
            self.writing = false;
        }
        self.writing
    }

    /// Whether a duty has stopped, so that the other is to stop too.
    pub fn is_stopping(&self) -> (stopping: bool)
        ensures
            stopping == self@.stopping(),
    {
        !self.reading || !self.writing
    }

    /// Whether both duties have stopped.
    pub fn is_ended(&self) -> (ended: bool)
        ensures
            ended == self@.ended(),
    {
        !self.reading && !self.writing
    }
}

/// A client that goes away takes its own session down and nothing else.
/// When the reader duty meets a close frame, the end of the stream or a failed
/// read, the writer duty stops at its very next step, which ends the session;
/// the bus is as it was, so every other subscriber reads what it would have
/// read.
pub proof fn lemma_disconnect_ends_session(session: SessionView, bus: BusView, event: InboundView)
    requires
        session.reading,
        event.stops_reader(),
    ensures
        ({
            let (left, bus_after) = session.inbound(bus, event);
            &&& bus_after == bus
            &&& !left.reading
            &&& left.outbound(bus_after) == (
                SessionView { reading: false, writing: false, ..session },
                OutboundView::Stop,
            )
            &&& left.outbound(bus_after).0.ended()
        }),
{
}

/// The same from the other side: when a write to the client fails, or the
/// bus is shut down and read to its end, the writer duty stops, and the reader
/// duty stops at its very next step, whatever the client sent, without
/// publishing it.
pub proof fn lemma_writer_stop_ends_session(session: SessionView, bus: BusView, event: InboundView)
    requires
        session.reading,
        !session.writing,
    ensures
        session.inbound(bus, event) == (SessionView { reading: false, ..session }, bus),
        session.inbound(bus, event).0.ended(),
{
}

/// A session that has ended stays ended and does nothing more.
pub proof fn lemma_ended_is_final(session: SessionView, bus: BusView, event: InboundView, ok: bool)
    requires
        session.ended(),
    ensures
        session.inbound(bus, event) == (session, bus),
        session.outbound(bus) == (session, OutboundView::Stop),
        session.written(ok) == session,
{
}

} // verus!
