use netcond::conditions::Conditions;
use netcond::conditions::CERTAIN;
use netcond::network::Endpoint;
use netcond::network::Packet;
use netcond::session::Session;
use netcond::session::SessionState;

fn client() -> Endpoint {
    Endpoint::V4 { ip: 0xc0a8_0001, port: 40_000 }
}

fn local() -> Endpoint {
    Endpoint::V4 { ip: 0, port: 8_001 }
}

#[test]
fn new_session_is_created_and_empty() {
    let session = Session::new(client(), local(), 123);
    assert_eq!(session.client, client());
    assert_eq!(session.local, local());
    assert_eq!(session.state, SessionState::Created);
    assert_eq!(session.since, 123);
    assert!(session.downlink.is_empty());
    assert!(session.slot.is_empty());
}

#[test]
fn traffic_makes_a_session_active() {
    let mut session = Session::new(client(), local(), 0);
    session.touch(10);
    assert_eq!(session.state, SessionState::Active);
    assert_eq!(session.since, 10);
    session.touch(20);
    assert_eq!(session.state, SessionState::Active);
    assert_eq!(session.since, 20);
}

#[test]
fn silence_moves_a_session_to_idle_and_then_to_its_end() {
    let mut session = Session::new(client(), local(), 0);
    session.touch(100);
    session.expire(150, 100);
    assert_eq!(session.state, SessionState::Active);
    assert_eq!(session.since, 100);
    session.expire(199, 100);
    assert_eq!(session.state, SessionState::Active);
    session.expire(200, 100);
    assert_eq!(session.state, SessionState::Idle);
    assert_eq!(session.since, 200);
    session.expire(299, 100);
    assert_eq!(session.state, SessionState::Idle);
    session.expire(300, 100);
    assert_eq!(session.state, SessionState::Terminated);
    assert_eq!(session.since, 300);
}

#[test]
fn traffic_wakes_an_idle_session() {
    let mut session = Session::new(client(), local(), 0);
    session.touch(0);
    session.expire(1_000, 100);
    assert_eq!(session.state, SessionState::Idle);
    session.touch(1_050);
    assert_eq!(session.state, SessionState::Active);
    assert_eq!(session.since, 1_050);
    session.expire(1_100, 100);
    assert_eq!(session.state, SessionState::Active);
}

#[test]
fn an_ended_session_stays_ended() {
    let mut session = Session::new(client(), local(), 0);
    session.touch(0);
    session.expire(10, 10);
    session.expire(20, 10);
    assert_eq!(session.state, SessionState::Terminated);
    session.touch(25);
    assert_eq!(session.state, SessionState::Terminated);
    assert_eq!(session.since, 20);
    session.expire(1_000, 10);
    assert_eq!(session.state, SessionState::Terminated);
    let conditions = Conditions::new(0, 0, 0, 0, 0);
    for _ in 0..50 {
        session.receive(vec![1], conditions, 30);
    }
    assert!(session.downlink.is_empty());
    assert!(session.slot.is_empty());
}

#[test]
fn a_created_session_waits_for_traffic() {
    let mut session = Session::new(client(), local(), 0);
    session.expire(1_000_000, 10);
    assert_eq!(session.state, SessionState::Created);
    assert_eq!(session.since, 0);
}

#[test]
fn a_clock_that_runs_backwards_counts_as_no_silence() {
    let mut session = Session::new(client(), local(), 0);
    session.touch(500);
    session.expire(100, 50);
    assert_eq!(session.state, SessionState::Active);
    session.expire(100, 0);
    assert_eq!(session.state, SessionState::Idle);
}

#[test]
fn received_datagrams_wait_for_the_client() {
    let conditions = Conditions::new(100, 0, CERTAIN, 0, 0);
    let mut session = Session::new(client(), local(), 0);
    let mut queued = 0;
    for i in 0..200u128 {
        let before = session.downlink.len();
        session.receive(vec![i as u8], conditions, i);
        assert_eq!(session.state, SessionState::Active);
        assert_eq!(session.since, i);
        assert!(session.downlink.len() == before || session.downlink.len() == before + 2);
        queued = session.downlink.len();
    }
    assert!(queued >= 390);
    assert!(session.send_pending(99_999_999).is_empty());
    let ready = session.send_pending(100_000_199);
    assert_eq!(ready.len(), queued);
    assert!(ready.iter().all(|p| p.dest == client()));
    assert!(session.downlink.is_empty());
}

#[test]
fn close_hands_out_what_is_due_and_the_held_packet_with_it() {
    let mut session = Session::new(client(), local(), 0);
    session.downlink.insert(Packet::new(vec![1], client(), 10));
    session.downlink.insert(Packet::new(vec![3], client(), 30));
    session.downlink.insert(Packet::new(vec![9], client(), 90));
    session.slot.hold(Packet::new(vec![2], client(), 20));
    let ready = session.close(50);
    let payloads: Vec<Vec<u8>> = ready.iter().map(|p| p.buffer.clone()).collect();
    assert_eq!(payloads, vec![vec![1], vec![2], vec![3]]);
}

#[test]
fn close_leaves_out_a_held_packet_that_is_not_due() {
    let mut session = Session::new(client(), local(), 0);
    session.downlink.insert(Packet::new(vec![1], client(), 10));
    session.slot.hold(Packet::new(vec![2], client(), 200));
    let ready = session.close(50);
    assert_eq!(ready.len(), 1);
    assert_eq!(ready[0].buffer, vec![1]);
}
