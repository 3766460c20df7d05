use utilkit::bus::Bus;
use utilkit::listener::{Admission, Listener};
use utilkit::session::{Frame, Inbound, Outbound, Session};

fn said(s: &str) -> Inbound {
    Inbound::Frame(Frame::Text(s.to_string()))
}

fn send(s: &str) -> Outbound {
    Outbound::Send(s.to_string())
}

#[test]
fn two_clients_hello_world() {
    let mut bus = Bus::new(100);
    let mut a = Session::open(&bus);
    let mut b = Session::open(&bus);

    assert!(a.on_inbound(&mut bus, said("hello")));
    assert_eq!(a.on_outbound(&bus), send("hello"));
    assert!(a.on_written(true));
    assert_eq!(b.on_outbound(&bus), send("hello"));
    assert!(b.on_written(true));
    assert_eq!(a.on_outbound(&bus), Outbound::Wait);
    assert_eq!(b.on_outbound(&bus), Outbound::Wait);

    assert!(!b.on_inbound(&mut bus, Inbound::End));
    assert!(b.is_stopping());
    assert_eq!(b.on_outbound(&bus), Outbound::Stop);
    assert!(b.is_ended());

    assert!(a.on_inbound(&mut bus, said("world")));
    assert_eq!(a.on_outbound(&bus), send("world"));
    assert!(a.on_written(true));
    assert!(!a.is_stopping());
    assert!(!bus.is_closed());
}

#[test]
fn sender_gets_its_own_message_back() {
    let mut bus = Bus::new(8);
    let mut only = Session::open(&bus);
    assert!(only.on_inbound(&mut bus, said("echo")));
    assert_eq!(only.on_outbound(&bus), send("echo"));
}

#[test]
fn close_frame_stops_reader_and_then_writer() {
    let mut bus = Bus::new(8);
    let mut leaving = Session::open(&bus);
    let mut staying = Session::open(&bus);
    bus.publish("before".to_string());
    assert!(!leaving.on_inbound(&mut bus, Inbound::Frame(Frame::Close)));
    assert!(leaving.is_stopping());
    assert!(!leaving.is_ended());
    assert_eq!(leaving.on_outbound(&bus), Outbound::Stop);
    assert!(leaving.is_ended());
    assert_eq!(bus.len(), 1);
    assert_eq!(staying.on_outbound(&bus), send("before"));
    assert_eq!(staying.on_outbound(&bus), Outbound::Wait);
}

#[test]
fn failed_read_stops_the_session() {
    let mut bus = Bus::new(8);
    let mut session = Session::open(&bus);
    assert!(!session.on_inbound(&mut bus, Inbound::Failed));
    assert_eq!(session.on_outbound(&bus), Outbound::Stop);
    assert!(session.is_ended());
}

#[test]
fn other_frames_are_ignored() {
    let mut bus = Bus::new(8);
    let mut session = Session::open(&bus);
    assert!(session.on_inbound(&mut bus, Inbound::Frame(Frame::Other)));
    assert!(!session.is_stopping());
    assert_eq!(bus.len(), 0);
    assert_eq!(session.on_outbound(&bus), Outbound::Wait);
}

#[test]
fn failed_write_stops_writer_and_then_reader() {
    let mut bus = Bus::new(8);
    let mut session = Session::open(&bus);
    let mut other = Session::open(&bus);
    assert!(session.on_inbound(&mut bus, said("one")));
    assert_eq!(session.on_outbound(&bus), send("one"));
    assert!(!session.on_written(false));
    assert!(session.is_stopping());
    assert!(!session.on_inbound(&mut bus, said("dropped")));
    assert!(session.is_ended());
    assert_eq!(bus.len(), 1);
    assert_eq!(other.on_outbound(&bus), send("one"));
    assert_eq!(other.on_outbound(&bus), Outbound::Wait);
}

#[test]
fn lag_is_noted_and_the_writer_goes_on() {
    let mut bus = Bus::new(2);
    let mut slow = Session::open(&bus);
    let mut talker = Session::open(&bus);
    for t in ["a", "b", "c"] {
        assert!(talker.on_inbound(&mut bus, said(t)));
    }
    assert_eq!(slow.on_outbound(&bus), Outbound::Skipped(1));
    assert!(!slow.is_stopping());
    assert_eq!(slow.on_outbound(&bus), send("b"));
    assert_eq!(slow.on_outbound(&bus), send("c"));
    assert_eq!(slow.on_outbound(&bus), Outbound::Wait);
}

#[test]
fn ended_session_does_nothing_more() {
    let mut bus = Bus::new(8);
    let mut session = Session::open(&bus);
    assert!(!session.on_inbound(&mut bus, Inbound::End));
    assert_eq!(session.on_outbound(&bus), Outbound::Stop);
    assert!(!session.on_inbound(&mut bus, said("ghost")));
    assert_eq!(bus.len(), 0);
    assert_eq!(session.on_outbound(&bus), Outbound::Stop);
    assert!(!session.on_written(true));
    assert!(session.is_ended());
}

#[test]
fn listener_gives_a_session_to_an_upgraded_connection() {
    let mut bus = Bus::new(8);
    bus.publish("old".to_string());
    let listener = Listener::new();
    assert!(listener.is_accepting());
    match listener.accept(&bus, true) {
        Admission::Admitted(mut session) => {
            assert_eq!(session.on_outbound(&bus), Outbound::Wait);
            bus.publish("new".to_string());
            assert_eq!(session.on_outbound(&bus), send("new"));
        }
        other => panic!("expected a session, got {:?}", other),
    }
}

#[test]
fn failed_upgrade_is_rejected_and_the_listener_goes_on() {
    let bus = Bus::new(8);
    let listener = Listener::new();
    assert!(matches!(listener.accept(&bus, false), Admission::Rejected));
    assert!(listener.is_accepting());
    assert!(matches!(listener.accept(&bus, true), Admission::Admitted(_)));
}

#[test]
fn shutdown_closes_the_bus_and_stops_every_writer() {
    let mut bus = Bus::new(8);
    let mut listener = Listener::new();
    let mut idle = Session::open(&bus);
    let mut behind = Session::open(&bus);
    bus.publish("bye".to_string());
    assert_eq!(idle.on_outbound(&bus), send("bye"));
    listener.shutdown(&mut bus);
    assert!(!listener.is_accepting());
    assert!(bus.is_closed());
    assert!(matches!(listener.accept(&bus, true), Admission::Refused));
    assert!(matches!(listener.accept(&bus, false), Admission::Refused));
    assert_eq!(idle.on_outbound(&bus), Outbound::Stop);
    assert_eq!(behind.on_outbound(&bus), send("bye"));
    assert_eq!(behind.on_outbound(&bus), Outbound::Stop);
    assert!(!idle.on_inbound(&mut bus, said("anyone?")));
    assert!(idle.is_ended());
}
