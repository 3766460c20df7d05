//! The broadcast bus: one bounded ring of text messages that any number of
//! subscribers read through cursors of their own.
//!
//! A publisher never waits. When the ring is full the oldest message is
//! overwritten, and a subscriber that had not read it yet is told, on its next
//! read, how many messages it lost.

use vstd::prelude::*;

verus! {

/// How many messages a bus retains unless told otherwise.
pub const DEFAULT_CAPACITY: usize = 100;

/// What one read through a cursor yields.
#[derive(Debug, PartialEq, Eq)]
pub enum Delivery {
    /// The next message in publishing order.
    Message(String),
    /// The cursor had fallen behind the ring: this many messages were
    /// overwritten before it could read them. The cursor now stands at the
    /// oldest message that is still retained.
    Lagged(u64),
    /// The bus was shut down and the cursor has read everything before that.
    Closed,
    /// Nothing new yet: the subscriber has to wait for the next publish.
    Pending,
}

/// The mathematical value of a [`Delivery`].
pub enum DeliveryView {
    Message(Seq<char>),
    Lagged(nat),
    Closed,
    Pending,
}

impl View for Delivery {
    type V = DeliveryView;

    open spec fn view(&self) -> DeliveryView {
        match *self {
            Delivery::Message(text) => DeliveryView::Message(text@),
            Delivery::Lagged(skipped) => DeliveryView::Lagged(skipped as nat),
            Delivery::Closed => DeliveryView::Closed,
            Delivery::Pending => DeliveryView::Pending,
        }
    }
}

/// The last `n` elements of `s`, or all of `s` if it has no more than `n`.
pub open spec fn keep_last<A>(s: Seq<A>, n: nat) -> Seq<A> {
    if s.len() <= n {
        s
    } else {
        s.subrange(s.len() - n, s.len() as int)
    }
}

/// How many publishes lie between a cursor position and the tail. Positions
/// count publishes modulo 2^64, so the difference wraps.
pub open spec fn behind(tail: u64, position: u64) -> nat {
    tail.wrapping_sub(position) as nat
}

/// The mathematical value of a [`Bus`]: the window of retained messages,
/// oldest first, and the position that the next publish will get.
pub struct BusView {
    pub capacity: nat,
    pub retained: Seq<Seq<char>>,
    pub tail: u64,
    pub closed: bool,
}

impl BusView {
    /// A bus never retains more messages than its capacity, and its capacity
    /// is one that a machine can hold.
    pub open spec fn wf(self) -> bool {
        self.retained.len() <= self.capacity <= usize::MAX
    }

    /// A fresh bus.
    pub open spec fn empty(capacity: nat) -> BusView {
        BusView { capacity, retained: Seq::empty(), tail: 0, closed: false }
    }

    /// The bus after one publish. A closed bus takes no more messages.
    pub open spec fn publish(self, text: Seq<char>) -> BusView {
        if self.closed {
            self
        } else {
            BusView {
                retained: keep_last(self.retained.push(text), self.capacity),
                tail: self.tail.wrapping_add(1),
                ..self
            }
        }
    }

    /// Where a new subscriber starts: at the tail, behind nothing.
    pub open spec fn subscribe(self) -> u64 {
        self.tail
    }

    /// One read at `position`: what is delivered, and where the cursor
    /// stands afterwards.
    pub open spec fn poll(self, position: u64) -> (DeliveryView, u64) {
        let unread = behind(self.tail, position);
        if unread == 0 {
            (if self.closed { DeliveryView::Closed } else { DeliveryView::Pending }, position)
        } else if unread > self.retained.len() {
            (
                DeliveryView::Lagged((unread - self.retained.len()) as nat),
                self.tail.wrapping_sub(self.retained.len() as u64),
            )
        } else {
            (
                DeliveryView::Message(self.retained[self.retained.len() - unread]),
                position.wrapping_add(1),
            )
        }
    }

    /// How many reads a cursor at `position` is away from `Pending` or
    /// `Closed`: one for each retained message it has not read, and one more
    /// if it has lost messages, for the report of that.
    pub open spec fn backlog(self, position: u64) -> nat {
        let unread = behind(self.tail, position);
        if unread > self.retained.len() {
            self.retained.len() + 1
        } else {
            unread
        }
    }

    /// The bus after publishing `texts`, first to last.
    pub open spec fn publish_all(self, texts: Seq<Seq<char>>) -> BusView
        decreases texts.len(),
    {
        if texts.len() == 0 {
            self
        } else {
            self.publish_all(texts.drop_last()).publish(texts.last())
        }
    }

    /// What `n` reads in a row deliver to a cursor that starts at `position`.
    pub open spec fn reads(self, position: u64, n: nat) -> Seq<DeliveryView>
        decreases n,
    {
        if n == 0 {
            Seq::empty()
        } else {
            seq![self.poll(position).0] + self.reads(self.poll(position).1, (n - 1) as nat)
        }
    }

    /// Where a cursor that starts at `position` stands after `n` reads.
    pub open spec fn position_after(self, position: u64, n: nat) -> u64
        decreases n,
    {
        if n == 0 {
            position
        } else {
            self.position_after(self.poll(position).1, (n - 1) as nat)
        }
    }

    /// The bus after shutdown.
    pub open spec fn close(self) -> BusView {
        BusView { closed: true, ..self }
    }
}

/// A subscriber's place in the stream. Each subscriber owns its cursor;
/// dropping the cursor ends the subscription.
#[derive(Debug)]
pub struct Cursor {
    next: u64,
}

impl View for Cursor {
    type V = u64;

    closed spec fn view(&self) -> u64 {
        self.next
    }
}

/// The bus itself. The ring is `slots`; once it is full, `start` is the slot
/// of the oldest message, which is the slot that the next publish overwrites.
#[derive(Debug)]
pub struct Bus {
    capacity: usize,
    slots: Vec<String>,
    start: usize,
    tail: u64,
    closed: bool,
}

/// The slot that holds the `i`-th oldest message of a ring of `len` slots
/// whose oldest message is in slot `start`.
spec fn slot_of(start: int, i: int, len: int) -> int {
    if start + i < len {
        start + i
    } else {
        start + i - len
    }
}

impl View for Bus {
    type V = BusView;

    closed spec fn view(&self) -> BusView {
        BusView {
            capacity: self.capacity as nat,
            retained: Seq::new(
                self.slots.len() as nat,
                |i: int| self.slots[slot_of(self.start as int, i, self.slots.len() as int)]@,
            ),
            tail: self.tail,
            closed: self.closed,
        }
    }
}

impl Default for Bus {
    /// A bus of the default capacity.
    fn default() -> (bus: Bus)
        ensures
            bus@ == BusView::empty(DEFAULT_CAPACITY as nat),
            bus@.wf(),
    {
        Bus::new(DEFAULT_CAPACITY)
    }
}

impl Bus {
    #[verifier::type_invariant]
    spec fn inv(self) -> bool {
        &&& self.slots.len() <= self.capacity
        &&& self.slots.len() < self.capacity ==> self.start == 0
        &&& self.slots.len() > 0 ==> self.start < self.slots.len()
        &&& self.slots.len() == 0 ==> self.start == 0
    }

    /// A bus that retains up to `capacity` messages.
    pub fn new(capacity: usize) -> (bus: Bus)
        ensures
            bus@ == BusView::empty(capacity as nat),
            bus@.wf(),
    {
        let bus = Bus { capacity, slots: Vec::new(), start: 0, tail: 0, closed: false };
        assert(bus@.retained =~= Seq::empty());
        bus
    }

    /// Appends `text` to the stream. Never waits for a subscriber: when the
    /// ring is full the oldest message gives way.
    pub fn publish(&mut self, text: String)
        ensures
            final(self)@ == old(self)@.publish(text@),
            final(self)@.wf(),
    {
        proof {
            use_type_invariant(&*self);
        }
        if self.closed {
            return ;
        }
        self.tail = self.tail.wrapping_add(1);
        if self.capacity == 0 {
            assert(self@.retained =~= old(self)@.publish(text@).retained);
            return ;
        }
        // The ring leaves `self` while it is changed, so that `self` is
        // well formed at every step.
        let at: usize = self.start;
        self.start = 0;
        let mut slots: Vec<String> = Vec::new();
        std::mem::swap(&mut slots, &mut self.slots);
        let next: usize = if slots.len() < self.capacity {
            slots.push(text);
            0
        } else {
            slots.set(at, text);
            if at + 1 == self.capacity { 0 } else { at + 1 }
        };
        self.slots = slots;
        self.start = next;
        assert(self@.retained =~= old(self)@.publish(text@).retained);
    }

    /// A new subscription. The cursor starts at the tail, so it will see the
    /// messages published from now on and none of the earlier ones.
    pub fn subscribe(&self) -> (cursor: Cursor)
        ensures
            cursor@ == self@.subscribe(),
    {
        Cursor { next: self.tail }
    }

    /// One read through `cursor`, which moves past what was delivered. Never
    /// waits: when the cursor has caught up with the publishers the answer is
    /// `Pending`, or `Closed` once the bus has been shut down.
    pub fn next(&self, cursor: &mut Cursor) -> (delivery: Delivery)
        ensures
            (delivery@, final(cursor)@) == self@.poll(old(cursor)@),
            self@.wf(),
    {
        proof {
            use_type_invariant(self);
        }
        let unread: u64 = self.tail.wrapping_sub(cursor.next);
        let len: usize = self.slots.len();
        if unread == 0 {
            if self.closed {
                Delivery::Closed
            } else {
                Delivery::Pending
            }
        } else if unread > len as u64 {
            cursor.next = self.tail.wrapping_sub(len as u64);
            Delivery::Lagged(unread - len as u64)
        } else {
            let i: usize = len - unread as usize;
            let at: usize = if i < len - self.start {
                self.start + i
            } else {
                i - (len - self.start)
            };
            let text: String = self.slots[at].clone();
            cursor.next = cursor.next.wrapping_add(1);
            Delivery::Message(text)
        }
    }

    /// Shuts the bus down. What is retained can still be read; after that
    /// every cursor gets `Closed`.
    pub fn close(&mut self)
        ensures
            final(self)@ == old(self)@.close(),
            final(self)@.wf(),
    {
        proof {
            use_type_invariant(&*self);
        }
        self.closed = true;
    }

    /// How many messages the bus retains at most.
    pub fn capacity(&self) -> (n: usize)
        ensures
            n == self@.capacity,
    {
        self.capacity
    }

    /// How many messages the bus retains now.
    pub fn len(&self) -> (n: usize)
        ensures
            n == self@.retained.len(),
            self@.wf(),
    {
        proof {
            use_type_invariant(self);
        }
        self.slots.len()
    }

    /// Whether the bus has been shut down.
    pub fn is_closed(&self) -> (closed: bool)
        ensures
            closed == self@.closed,
    {
        self.closed
    }

    /// How many reads `cursor` is away from `Pending` or `Closed`, counting
    /// the report of a lag, if it has one coming, as one read.
    pub fn backlog(&self, cursor: &Cursor) -> (n: u64)
        ensures
            n == self@.backlog(cursor@),
    {
        proof {
            use_type_invariant(self);
        }
        let unread: u64 = self.tail.wrapping_sub(cursor.next);
        let len: usize = self.slots.len();
        if unread > len as u64 {
            len as u64 + 1
        } else {
            unread
        }
    }
}

} // verus!
