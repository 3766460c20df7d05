use utilkit::bus::{Bus, Cursor, Delivery, DEFAULT_CAPACITY};

fn text(s: &str) -> String {
    s.to_string()
}

fn message(s: &str) -> Delivery {
    Delivery::Message(s.to_string())
}

fn drain(bus: &Bus, cursor: &mut Cursor) -> Vec<Delivery> {
    let mut seen = Vec::new();
    loop {
        let delivery = bus.next(cursor);
        let done = delivery == Delivery::Pending || delivery == Delivery::Closed;
        seen.push(delivery);
        if done {
            return seen;
        }
    }
}

#[test]
fn new_bus_is_empty_and_open() {
    let bus = Bus::new(100);
    assert_eq!(bus.capacity(), 100);
    assert_eq!(bus.len(), 0);
    assert!(!bus.is_closed());
    let mut cursor = bus.subscribe();
    assert_eq!(bus.backlog(&cursor), 0);
    assert_eq!(bus.next(&mut cursor), Delivery::Pending);
}

#[test]
fn messages_arrive_in_publishing_order() {
    let mut bus = Bus::new(100);
    let mut early = bus.subscribe();
    let mut also_early = bus.subscribe();
    let texts = ["one", "two", "three", "four", "five"];
    for t in texts {
        bus.publish(text(t));
    }
    let expected: Vec<Delivery> =
        texts.iter().map(|t| message(t)).chain([Delivery::Pending]).collect();
    assert_eq!(drain(&bus, &mut early), expected);
    assert_eq!(drain(&bus, &mut also_early), expected);
}

#[test]
fn reads_between_publishes_keep_the_order() {
    let mut bus = Bus::new(2);
    let mut cursor = bus.subscribe();
    let mut seen = Vec::new();
    for i in 0..10 {
        bus.publish(format!("m{}", i));
        seen.push(bus.next(&mut cursor));
        assert_eq!(bus.next(&mut cursor), Delivery::Pending);
    }
    let expected: Vec<Delivery> = (0..10).map(|i| Delivery::Message(format!("m{}", i))).collect();
    assert_eq!(seen, expected);
}

#[test]
fn late_subscriber_gets_no_history() {
    let mut bus = Bus::new(100);
    bus.publish(text("p1"));
    bus.publish(text("p2"));
    bus.publish(text("p3"));
    let mut late = bus.subscribe();
    assert_eq!(bus.next(&mut late), Delivery::Pending);
    bus.publish(text("p4"));
    bus.publish(text("p5"));
    assert_eq!(drain(&bus, &mut late), vec![message("p4"), message("p5"), Delivery::Pending]);
}

#[test]
fn capacity_two_three_publishes_lag_by_one() {
    let mut bus = Bus::new(2);
    let mut cursor = bus.subscribe();
    bus.publish(text("a"));
    bus.publish(text("b"));
    bus.publish(text("c"));
    assert_eq!(bus.backlog(&cursor), 3);
    assert_eq!(bus.next(&mut cursor), Delivery::Lagged(1));
    assert_eq!(bus.next(&mut cursor), message("b"));
    assert_eq!(bus.next(&mut cursor), message("c"));
    assert_eq!(bus.next(&mut cursor), Delivery::Pending);
}

#[test]
fn stalled_subscriber_learns_how_many_it_missed() {
    let mut bus = Bus::new(100);
    let mut stalled = bus.subscribe();
    for i in 0..150 {
        bus.publish(format!("m{}", i));
    }
    assert_eq!(bus.len(), 100);
    assert_eq!(bus.next(&mut stalled), Delivery::Lagged(50));
    for i in 50..150 {
        assert_eq!(bus.next(&mut stalled), Delivery::Message(format!("m{}", i)));
    }
    assert_eq!(bus.next(&mut stalled), Delivery::Pending);
}

#[test]
fn capacity_is_exact_when_not_a_power_of_two() {
    let mut bus = Bus::new(3);
    let mut cursor = bus.subscribe();
    for t in ["a", "b", "c", "d"] {
        bus.publish(text(t));
    }
    assert_eq!(
        drain(&bus, &mut cursor),
        vec![Delivery::Lagged(1), message("b"), message("c"), message("d"), Delivery::Pending]
    );
}

#[test]
fn lag_of_one_subscriber_leaves_the_others_alone() {
    let mut bus = Bus::new(2);
    let mut slow = bus.subscribe();
    let mut quick = bus.subscribe();
    let mut got = Vec::new();
    for t in ["a", "b", "c", "d", "e"] {
        bus.publish(text(t));
        got.push(bus.next(&mut quick));
    }
    assert_eq!(got, vec![message("a"), message("b"), message("c"), message("d"), message("e")]);
    assert_eq!(
        drain(&bus, &mut slow),
        vec![Delivery::Lagged(3), message("d"), message("e"), Delivery::Pending]
    );
}

#[test]
fn publish_goes_on_with_no_subscriber_and_with_a_stalled_one() {
    let mut bus = Bus::new(4);
    for i in 0..1000 {
        bus.publish(format!("m{}", i));
    }
    let mut stalled = bus.subscribe();
    for i in 1000..100_000 {
        bus.publish(format!("m{}", i));
    }
    assert_eq!(bus.len(), 4);
    assert_eq!(bus.backlog(&stalled), 5);
    assert_eq!(bus.next(&mut stalled), Delivery::Lagged(99_000 - 4));
    assert_eq!(bus.next(&mut stalled), Delivery::Message(text("m99996")));
}

#[test]
fn ring_wraps_many_times() {
    let mut bus = Bus::new(3);
    let mut cursor = bus.subscribe();
    for round in 0..50 {
        for k in 0..3 {
            bus.publish(format!("{}-{}", round, k));
        }
        for k in 0..3 {
            assert_eq!(bus.next(&mut cursor), Delivery::Message(format!("{}-{}", round, k)));
        }
        assert_eq!(bus.next(&mut cursor), Delivery::Pending);
    }
}

#[test]
fn closed_bus_hands_out_what_it_holds_and_then_closed() {
    let mut bus = Bus::new(10);
    let mut cursor = bus.subscribe();
    let mut idle = bus.subscribe();
    bus.publish(text("last words"));
    assert_eq!(bus.next(&mut idle), message("last words"));
    bus.close();
    assert!(bus.is_closed());
    assert_eq!(bus.next(&mut idle), Delivery::Closed);
    assert_eq!(bus.next(&mut cursor), message("last words"));
    assert_eq!(bus.next(&mut cursor), Delivery::Closed);
    assert_eq!(bus.next(&mut cursor), Delivery::Closed);
}

#[test]
fn closed_bus_takes_no_more_messages() {
    let mut bus = Bus::new(10);
    let mut cursor = bus.subscribe();
    bus.close();
    bus.publish(text("too late"));
    assert_eq!(bus.len(), 0);
    assert_eq!(bus.next(&mut cursor), Delivery::Closed);
}

#[test]
fn bus_of_capacity_zero_retains_nothing() {
    let mut bus = Bus::new(0);
    let mut cursor = bus.subscribe();
    bus.publish(text("a"));
    bus.publish(text("b"));
    assert_eq!(bus.len(), 0);
    assert_eq!(bus.backlog(&cursor), 1);
    assert_eq!(bus.next(&mut cursor), Delivery::Lagged(2));
    assert_eq!(bus.next(&mut cursor), Delivery::Pending);
}

#[test]
fn backlog_counts_the_reads_that_are_left() {
    let mut bus = Bus::new(3);
    let mut cursor = bus.subscribe();
    assert_eq!(bus.backlog(&cursor), 0);
    bus.publish(text("a"));
    bus.publish(text("b"));
    assert_eq!(bus.backlog(&cursor), 2);
    let _ = bus.next(&mut cursor);
    assert_eq!(bus.backlog(&cursor), 1);
    for t in ["c", "d", "e", "f"] {
        bus.publish(text(t));
    }
    assert_eq!(bus.backlog(&cursor), 4);
    assert_eq!(bus.next(&mut cursor), Delivery::Lagged(2));
    assert_eq!(bus.backlog(&cursor), 3);
}

#[test]
fn default_bus_retains_a_hundred() {
    assert_eq!(DEFAULT_CAPACITY, 100);
    let mut bus = Bus::default();
    assert_eq!(bus.capacity(), 100);
    assert!(!bus.is_closed());
    let mut cursor = bus.subscribe();
    for i in 0..101 {
        bus.publish(format!("m{}", i));
    }
    assert_eq!(bus.len(), 100);
    assert_eq!(bus.next(&mut cursor), Delivery::Lagged(1));
    assert_eq!(bus.next(&mut cursor), Delivery::Message("m1".to_string()));
}
