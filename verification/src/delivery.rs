//! What the bus owes its subscribers, proved of every bus and every run of
//! publishes: messages arrive in publishing order, a new subscriber sees
//! nothing from before it joined, and a subscriber that fell behind is told
//! exactly how much it lost.

use vstd::prelude::*;
use crate::bus::{behind, keep_last, BusView, DeliveryView};

verus! {

/// The deliveries that hand over `texts` one by one.
pub open spec fn as_messages(texts: Seq<Seq<char>>) -> Seq<DeliveryView> {
    texts.map_values(|text: Seq<char>| DeliveryView::Message(text))
}

/// Every read delivers one thing.
pub proof fn lemma_reads_len(bus: BusView, position: u64, n: nat)
    ensures
        bus.reads(position, n).len() == n,
    decreases n,
{
    if n > 0 {
        lemma_reads_len(bus, bus.poll(position).1, (n - 1) as nat);
    }
}

/// Publishing a run of messages leaves the last `capacity` of everything
/// retained so far, and moves the tail by the length of the run.
pub proof fn lemma_publish_all(bus: BusView, texts: Seq<Seq<char>>)
    requires
        bus.wf(),
        !bus.closed,
    ensures
        bus.publish_all(texts).retained == keep_last(bus.retained + texts, bus.capacity),
        bus.publish_all(texts).tail as int == (bus.tail + texts.len()) % 0x1_0000_0000_0000_0000,
        bus.publish_all(texts).capacity == bus.capacity,
        !bus.publish_all(texts).closed,
        bus.publish_all(texts).wf(),
    decreases texts.len(),
{
    if texts.len() == 0 {
        assert(bus.retained + texts =~= bus.retained);
    } else {
        lemma_publish_all(bus, texts.drop_last());
        let so_far = bus.retained + texts.drop_last();
        assert(so_far.push(texts.last()) =~= bus.retained + texts);
        assert(keep_last(keep_last(so_far, bus.capacity).push(texts.last()), bus.capacity)
            =~= keep_last(so_far.push(texts.last()), bus.capacity));
    }
}

/// A cursor that is behind by no more than what is retained reads the
/// retained messages from its place on, one per read and in order.
pub proof fn lemma_reads_retained(bus: BusView, position: u64, n: nat)
    requires
        bus.wf(),
        n <= behind(bus.tail, position) <= bus.retained.len(),
    ensures
        bus.reads(position, n) == as_messages(
            bus.retained.subrange(
                bus.retained.len() - behind(bus.tail, position),
                bus.retained.len() - behind(bus.tail, position) + n,
            ),
        ),
        behind(bus.tail, bus.position_after(position, n)) == behind(bus.tail, position) - n,
    decreases n,
{
    let unread = behind(bus.tail, position) as int;
    let from = bus.retained.len() - unread;
    if n == 0 {
        assert(bus.reads(position, n) =~= as_messages(bus.retained.subrange(from, from)));
    } else {
        let next = bus.poll(position).1;
        lemma_reads_retained(bus, next, (n - 1) as nat);
        assert(bus.reads(position, n) =~= as_messages(bus.retained.subrange(from, from + n)));
    }
}

/// A tail that has moved on by fewer than 2^64 publishes is that many
/// publishes ahead of where it was.
proof fn lemma_behind_after(from: u64, tail: u64, n: nat)
    requires
        tail as int == (from + n) % 0x1_0000_0000_0000_0000,
        n < 0x1_0000_0000_0000_0000,
    ensures
        behind(tail, from) == n,
{
}

/// Publishing order is delivery order. A subscriber that is there before a
/// run of publishes, and that the run does not overtake, reads exactly that
/// run, first to last, and then has nothing more to read.
pub proof fn lemma_delivered_in_order(bus: BusView, texts: Seq<Seq<char>>)
    requires
        bus.wf(),
        !bus.closed,
        texts.len() <= bus.capacity,
    ensures
        ({
            let cursor = bus.subscribe();
            let after = bus.publish_all(texts);
            &&& after.reads(cursor, texts.len()) == as_messages(texts)
            &&& after.poll(after.position_after(cursor, texts.len())) == (
                DeliveryView::Pending,
                after.tail,
            )
        }),
{
    let cursor = bus.subscribe();
    let after = bus.publish_all(texts);
    lemma_publish_all(bus, texts);
    lemma_behind_after(cursor, after.tail, texts.len());
    assert(after.retained.len() >= texts.len());
    lemma_reads_retained(after, cursor, texts.len());
    assert(after.retained.subrange(after.retained.len() - texts.len(), after.retained.len() as int)
        =~= texts);
    let end = after.position_after(cursor, texts.len());
    assert(behind(after.tail, end) == 0);
    assert(end == after.tail);
}

/// No replay. A subscriber that joins between two runs of publishes reads
/// the second run, as far as the ring still holds it, and never a message of
/// the first: every read that delivers a message delivers one of the second
/// run, and if the second run fits the ring, the reads deliver exactly it.
pub proof fn lemma_no_replay(bus: BusView, earlier: Seq<Seq<char>>, later: Seq<Seq<char>>, n: nat)
    requires
        bus.wf(),
        !bus.closed,
    ensures
        ({
            let joined = bus.publish_all(earlier);
            let cursor = joined.subscribe();
            let after = joined.publish_all(later);
            &&& later.len() <= bus.capacity ==> after.reads(cursor, later.len()) == as_messages(
                later,
            )
            &&& forall|i: int|
                0 <= i < n ==> (#[trigger] after.reads(cursor, n)[i] matches DeliveryView::Message(
                    text,
                ) ==> later.contains(text))
        }),
{
    let joined = bus.publish_all(earlier);
    let cursor = joined.subscribe();
    let after = joined.publish_all(later);
    lemma_publish_all(bus, earlier);
    lemma_publish_all(joined, later);
    if later.len() <= bus.capacity {
        lemma_delivered_in_order(joined, later);
    }
    lemma_reads_are_recent(joined, later, cursor, n);
}

/// Every message that a cursor reads lies no further back than the cursor
/// was behind: if the cursor is behind by no more than the length of the
/// last run of publishes, what it reads is of that run.
proof fn lemma_reads_are_recent(joined: BusView, later: Seq<Seq<char>>, position: u64, n: nat)
    requires
        joined.wf(),
        !joined.closed,
        behind(joined.publish_all(later).tail, position) <= later.len(),
    ensures
        forall|i: int|
            0 <= i < n ==> (#[trigger] joined.publish_all(later).reads(position, n)[i] matches DeliveryView::Message(
                text,
            ) ==> later.contains(text)),
    decreases n,
{
    let after = joined.publish_all(later);
    lemma_publish_all(joined, later);
    if n > 0 {
        let unread = behind(after.tail, position);
        let (first, next) = after.poll(position);
        assert(behind(after.tail, next) <= unread);
        lemma_reads_are_recent(joined, later, next, (n - 1) as nat);
        let rest = after.reads(next, (n - 1) as nat);
        lemma_reads_len(after, next, (n - 1) as nat);
        assert forall|i: int| 0 <= i < n implies (#[trigger] after.reads(position, n)[i] matches DeliveryView::Message(
            text,
        ) ==> later.contains(text)) by {
            if i == 0 {
                if first is Message {
                    let at = after.retained.len() - unread;
                    assert(after.retained[at] == later[later.len() - unread]);
                }
            } else {
                assert(after.reads(position, n)[i] == rest[i - 1]);
            }
        }
    }
}

/// A lag is reported exactly. A subscriber that reads nothing while more
/// messages are published than the ring holds learns on its next read how
/// many it lost, and its reads after that deliver what the ring holds, oldest
/// first, with nothing left out.
///
/// The bus counts positions modulo 2^64, so the run has to be shorter than
/// that for the count to be the true one.
pub proof fn lemma_lag_reported(bus: BusView, texts: Seq<Seq<char>>)
    requires
        bus.wf(),
        !bus.closed,
        bus.capacity < texts.len() < 0x1_0000_0000_0000_0000,
    ensures
        ({
            let cursor = bus.subscribe();
            let after = bus.publish_all(texts);
            let lost = texts.len() - bus.capacity;
            let resumed = after.poll(cursor).1;
            &&& after.poll(cursor).0 == DeliveryView::Lagged(lost as nat)
            &&& after.reads(resumed, bus.capacity) == as_messages(
                texts.subrange(lost, texts.len() as int),
            )
            &&& after.poll(after.position_after(resumed, bus.capacity)) == (
                DeliveryView::Pending,
                after.tail,
            )
        }),
{
    let cursor = bus.subscribe();
    let after = bus.publish_all(texts);
    lemma_publish_all(bus, texts);
    lemma_behind_after(cursor, after.tail, texts.len());
    assert(after.retained.len() == bus.capacity);
    let resumed = after.poll(cursor).1;
    assert(behind(after.tail, resumed) == bus.capacity);
    lemma_reads_retained(after, resumed, bus.capacity);
    assert(after.retained =~= texts.subrange(texts.len() - bus.capacity, texts.len() as int));
    assert(after.retained.subrange(0, bus.capacity as int) =~= after.retained);
}

/// One thing that happens on a bus while one subscriber is watched: a
/// publish, by anyone, or a read by the subscriber.
pub enum Step {
    Publish(Seq<char>),
    Read,
}

/// A bus, the place of the watched subscriber, and what the subscriber's
/// reads have delivered so far.
pub struct Run {
    pub bus: BusView,
    pub position: u64,
    pub seen: Seq<DeliveryView>,
}

/// What `steps`, first to last, make of a bus and a subscriber at
/// `position`.
pub open spec fn run(bus: BusView, position: u64, steps: Seq<Step>) -> Run
    decreases steps.len(),
{
    if steps.len() == 0 {
        Run { bus, position, seen: Seq::empty() }
    } else {
        let before = run(bus, position, steps.drop_last());
        match steps.last() {
            Step::Publish(text) => Run { bus: before.bus.publish(text), ..before },
            Step::Read => Run {
                position: before.bus.poll(before.position).1,
                seen: before.seen.push(before.bus.poll(before.position).0),
                ..before
            },
        }
    }
}

/// The texts that `steps` publish, in order.
pub open spec fn published(steps: Seq<Step>) -> Seq<Seq<char>>
    decreases steps.len(),
{
    if steps.len() == 0 {
        Seq::empty()
    } else {
        match steps.last() {
            Step::Publish(text) => published(steps.drop_last()).push(text),
            Step::Read => published(steps.drop_last()),
        }
    }
}

/// The texts of the messages among `seen`, in order.
pub open spec fn received(seen: Seq<DeliveryView>) -> Seq<Seq<char>>
    decreases seen.len(),
{
    if seen.len() == 0 {
        Seq::empty()
    } else {
        match seen.last() {
            DeliveryView::Message(text) => received(seen.drop_last()).push(text),
            _ => received(seen.drop_last()),
        }
    }
}

/// No read reported a lag.
pub open spec fn never_lagged(seen: Seq<DeliveryView>) -> bool {
    forall|i: int| 0 <= i < seen.len() ==> !(#[trigger] seen[i] is Lagged)
}

/// The subscriber of `end` has kept up with what was `sent` on `bus` since
/// it subscribed: it has received the first of it, in order, and is behind by
/// the rest, all of which the bus still holds.
pub open spec fn kept_up(bus: BusView, end: Run, sent: Seq<Seq<char>>) -> bool {
    let got = received(end.seen);
    &&& got.len() <= sent.len()
    &&& got == sent.take(got.len() as int)
    &&& behind(end.bus.tail, end.position) == sent.len() - got.len()
    &&& end.bus.retained == keep_last(bus.retained + sent, bus.capacity)
    &&& end.bus.tail as int == (bus.tail + sent.len()) % 0x1_0000_0000_0000_0000
    &&& end.bus.capacity == bus.capacity
    &&& !end.bus.closed
}

proof fn lemma_publish_keeps_up(bus: BusView, before: Run, sent: Seq<Seq<char>>, text: Seq<char>)
    requires
        bus.wf(),
        kept_up(bus, before, sent),
        sent.len() + 1 < 0x1_0000_0000_0000_0000,
    ensures
        kept_up(bus, Run { bus: before.bus.publish(text), ..before }, sent.push(text)),
{
    let got = received(before.seen);
    let so_far = bus.retained + sent;
    assert(so_far.push(text) =~= bus.retained + sent.push(text));
    assert(keep_last(keep_last(so_far, bus.capacity).push(text), bus.capacity) =~= keep_last(
        so_far.push(text),
        bus.capacity,
    ));
    assert(sent.push(text).take(got.len() as int) =~= sent.take(got.len() as int));
}

proof fn lemma_read_keeps_up(bus: BusView, before: Run, sent: Seq<Seq<char>>)
    requires
        bus.wf(),
        kept_up(bus, before, sent),
        sent.len() < 0x1_0000_0000_0000_0000,
        !(before.bus.poll(before.position).0 is Lagged),
    ensures
        kept_up(
            bus,
            Run {
                position: before.bus.poll(before.position).1,
                seen: before.seen.push(before.bus.poll(before.position).0),
                ..before
            },
            sent,
        ),
{
    let (delivery, position) = before.bus.poll(before.position);
    let seen = before.seen.push(delivery);
    let got_before = received(before.seen);
    assert(seen.drop_last() =~= before.seen);
    match delivery {
        DeliveryView::Message(text) => {
            let got = got_before.push(text);
            assert(received(seen) == got);
            let all = bus.retained + sent;
            let unread = behind(before.bus.tail, before.position) as int;
            assert(text == all[all.len() - unread]);
            assert(text == sent[got_before.len() as int]);
            assert(got =~= sent.take(got.len() as int));
        },
        _ => {
            assert(received(seen) == got_before);
        },
    }
}

/// A subscriber that keeps up misses nothing. However publishes and the
/// subscriber's reads alternate, as long as no read reports a lag, the
/// messages that the subscriber has received are the first of those published
/// since it subscribed, in publishing order, and it is behind by exactly the
/// rest. So when a read says `Pending`, it has received them all.
///
/// The bus counts positions modulo 2^64, so this is stated of fewer
/// publishes than that.
pub proof fn lemma_keeping_up(bus: BusView, steps: Seq<Step>)
    requires
        bus.wf(),
        !bus.closed,
        published(steps).len() < 0x1_0000_0000_0000_0000,
        never_lagged(run(bus, bus.subscribe(), steps).seen),
    ensures
        kept_up(bus, run(bus, bus.subscribe(), steps), published(steps)),
        run(bus, bus.subscribe(), steps).bus.poll(run(bus, bus.subscribe(), steps).position).0
            == DeliveryView::Pending ==> received(run(bus, bus.subscribe(), steps).seen)
            == published(steps),
    decreases steps.len(),
{
    let end = run(bus, bus.subscribe(), steps);
    let sent = published(steps);
    if steps.len() == 0 {
        assert(bus.retained + sent =~= bus.retained);
        assert(received(end.seen) =~= sent.take(0));
    } else {
        let before = run(bus, bus.subscribe(), steps.drop_last());
        let sent_before = published(steps.drop_last());
        assert(never_lagged(before.seen)) by {
            assert forall|i: int| 0 <= i < before.seen.len() implies !(
            #[trigger] before.seen[i] is Lagged) by {
                assert(end.seen[i] == before.seen[i]);
            }
        }
        lemma_keeping_up(bus, steps.drop_last());
        match steps.last() {
            Step::Publish(text) => {
                lemma_publish_keeps_up(bus, before, sent_before, text);
            },
            Step::Read => {
                assert(end.seen[end.seen.len() - 1] == before.bus.poll(before.position).0);
                lemma_read_keeps_up(bus, before, sent_before);
            },
        }
    }
    if end.bus.poll(end.position).0 == DeliveryView::Pending {
        assert(sent.take(sent.len() as int) =~= sent);
    }
}

} // verus!
