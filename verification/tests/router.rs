use netio::common::Participant;
use netio::error::NetError;
use netio::router::Envelope;
use netio::router::MessageRouter;
use netio::router::NetConfig;
use netio::router::RecvStep;
use netio::state::LinkWrite;

fn party(id: u32, parties: u32) -> MessageRouter {
    let connected = vec![true; parties as usize];
    MessageRouter::new(Participant::from_default(parties), id, NetConfig::default(), &connected)
        .unwrap()
}

fn party_with_recv_timeout(id: u32, parties: u32, limit: usize) -> MessageRouter {
    let connected = vec![true; parties as usize];
    let config = NetConfig { send_timeout: None, recv_timeout: Some(limit) };
    MessageRouter::new(Participant::from_default(parties), id, config, &connected).unwrap()
}

fn id(text: &str) -> String {
    text.to_string()
}

fn envelope(sender: u32, msgid: &str, payload: &[u8]) -> Envelope {
    Envelope { sender_partyid: sender, msgid: id(msgid), payload: payload.to_vec() }
}

/// A send over a link that takes every envelope: the envelope goes
/// straight into the receiver.
fn send_over(
    from: &mut MessageRouter,
    to: &mut MessageRouter,
    msgid: &str,
    data: &[u8],
) -> Result<usize, NetError> {
    let peer = to.partyid();
    let envelope = from.begin_send(peer, &id(msgid), &data.to_vec())?;
    let overhead = 4 + envelope.msgid.len();
    to.deliver(envelope.clone()).unwrap();
    from.finish_send(peer, &envelope, LinkWrite::Accepted { overhead })
}

/// An envelope of party 0 with a payload of `len` bytes.
fn written(len: usize) -> Envelope {
    envelope(0, "m", &vec![0u8; len])
}

fn ready(step: RecvStep) -> Vec<u8> {
    match step {
        RecvStep::Ready(payload) => payload,
        other => panic!("no payload: {:?}", other),
    }
}

fn failed(step: RecvStep) -> NetError {
    match step {
        RecvStep::Failed(failure) => failure,
        other => panic!("no failure: {:?}", other),
    }
}

fn stat_of(router: &MessageRouter) -> (usize, usize, usize) {
    let stat = router.stat();
    (stat.sent_count, stat.sent_bytes, stat.sent_bytes_all)
}

#[test]
fn new_router_knows_itself() {
    let router = party(1, 3);
    assert_eq!(router.partyid(), 1);
    assert_eq!(router.parties(), 3);
    assert_eq!(stat_of(&router), (0, 0, 0));
    assert!(!router.is_stopped());
    assert_eq!(router.send_timeout(), None);
    assert_eq!(router.recv_timeout(), None);
    assert_eq!(router.directory(), &Participant::from_default(3));
    assert!(router.link_alive(0));
    assert!(!router.link_alive(1));
    assert!(router.link_alive(2));
    assert!(!router.link_alive(3));
}

#[test]
fn new_router_takes_the_timeouts_of_its_config() {
    let config = NetConfig { send_timeout: Some(250), recv_timeout: Some(1000) };
    let router =
        MessageRouter::new(Participant::from_default(2), 0, config, &vec![true, true]).unwrap();
    assert_eq!(router.send_timeout(), Some(250));
    assert_eq!(router.recv_timeout(), Some(1000));
}

#[test]
fn new_needs_a_directory() {
    let ids = vec![0, 0];
    let twice = Participant::from_default_partyids_baseport(2, &ids, 1);
    let made = MessageRouter::new(twice, 0, NetConfig::default(), &vec![true, true]);
    assert_eq!(made.err(), Some(NetError::ConfigError));
}

#[test]
fn new_needs_an_own_id_of_the_directory() {
    let made =
        MessageRouter::new(Participant::from_default(2), 2, NetConfig::default(), &vec![true, true]);
    assert_eq!(made.err(), Some(NetError::ConfigError));
}

#[test]
fn new_needs_every_link() {
    let made = MessageRouter::new(
        Participant::from_default(3),
        0,
        NetConfig::default(),
        &vec![true, true, false],
    );
    assert_eq!(made.err(), Some(NetError::ConnectionError));
    let made =
        MessageRouter::new(Participant::from_default(3), 0, NetConfig::default(), &vec![true, true]);
    assert_eq!(made.err(), Some(NetError::ConnectionError));
}

#[test]
fn new_does_not_need_a_link_to_itself() {
    let made = MessageRouter::new(
        Participant::from_default(3),
        1,
        NetConfig::default(),
        &vec![true, false, true],
    );
    assert!(made.is_ok());
}

#[test]
fn three_parties_greet() {
    let mut p0 = party(0, 3);
    let mut p1 = party_with_recv_timeout(1, 3, 50);
    assert_eq!(send_over(&mut p0, &mut p1, "greet", b"hello"), Ok(5));
    assert_eq!(ready(p1.poll_recv(0, &id("greet"), 0)), b"hello".to_vec());
    match p1.poll_recv(0, &id("greet2"), 0) {
        RecvStep::Wait(Some(50)) => {}
        other => panic!("expected to wait: {:?}", other),
    }
    assert_eq!(failed(p1.poll_recv(0, &id("greet2"), 50)), NetError::Timeout);
    let stat = p0.stat();
    assert_eq!(stat.sent_count, 1);
    assert_eq!(stat.sent_bytes, 5);
    assert_eq!(stat.sent_bytes_all, 5 + 4 + 5);
}

#[test]
fn sent_bytes_are_received_exactly_once() {
    let mut p0 = party(0, 2);
    let mut p1 = party_with_recv_timeout(1, 2, 10);
    assert_eq!(send_over(&mut p0, &mut p1, "m", &[1, 2, 3, 255]), Ok(4));
    assert_eq!(p1.waiting(0, &id("m")), 1);
    assert_eq!(ready(p1.poll_recv(0, &id("m"), 0)), vec![1, 2, 3, 255]);
    assert_eq!(p1.waiting(0, &id("m")), 0);
    assert_eq!(failed(p1.poll_recv(0, &id("m"), 10)), NetError::Timeout);
}

#[test]
fn empty_payload_is_a_payload() {
    let mut p0 = party(0, 2);
    let mut p1 = party(1, 2);
    assert_eq!(send_over(&mut p0, &mut p1, "m", &[]), Ok(0));
    assert_eq!(ready(p1.poll_recv(0, &id("m"), 0)), Vec::<u8>::new());
    assert_eq!(stat_of(&p0), (1, 0, 5));
}

#[test]
fn same_msgid_is_first_in_first_out() {
    let mut p1 = party(1, 3);
    p1.deliver(envelope(0, "m", b"first")).unwrap();
    p1.deliver(envelope(0, "m", b"second")).unwrap();
    p1.deliver(envelope(0, "m", b"third")).unwrap();
    assert_eq!(p1.waiting(0, &id("m")), 3);
    assert_eq!(ready(p1.poll_recv(0, &id("m"), 0)), b"first".to_vec());
    assert_eq!(ready(p1.poll_recv(0, &id("m"), 0)), b"second".to_vec());
    p1.deliver(envelope(0, "m", b"fourth")).unwrap();
    assert_eq!(ready(p1.poll_recv(0, &id("m"), 0)), b"third".to_vec());
    assert_eq!(ready(p1.poll_recv(0, &id("m"), 0)), b"fourth".to_vec());
    assert_eq!(p1.waiting(0, &id("m")), 0);
}

#[test]
fn distinct_msgids_do_not_cross() {
    let mut p1 = party_with_recv_timeout(1, 3, 5);
    p1.deliver(envelope(0, "b", b"under b")).unwrap();
    assert_eq!(failed(p1.poll_recv(0, &id("a"), 5)), NetError::Timeout);
    p1.deliver(envelope(0, "a", b"under a")).unwrap();
    assert_eq!(ready(p1.poll_recv(0, &id("a"), 0)), b"under a".to_vec());
    assert_eq!(ready(p1.poll_recv(0, &id("b"), 0)), b"under b".to_vec());
}

#[test]
fn distinct_peers_do_not_cross() {
    let mut p1 = party_with_recv_timeout(1, 3, 5);
    p1.deliver(envelope(2, "m", b"from 2")).unwrap();
    assert_eq!(failed(p1.poll_recv(0, &id("m"), 5)), NetError::Timeout);
    p1.deliver(envelope(0, "m", b"from 0")).unwrap();
    assert_eq!(ready(p1.poll_recv(2, &id("m"), 0)), b"from 2".to_vec());
    assert_eq!(ready(p1.poll_recv(0, &id("m"), 0)), b"from 0".to_vec());
}

#[test]
fn many_keys_are_kept_apart() {
    let mut p0 = party(0, 4);
    for round in 0..3u8 {
        for peer in 1..4u32 {
            for name in ["x", "y", "z"] {
                p0.deliver(envelope(peer, name, &[peer as u8, round, name.as_bytes()[0]])).unwrap();
            }
        }
    }
    for name in ["z", "x", "y"] {
        for peer in [3u32, 1, 2] {
            for round in 0..3u8 {
                assert_eq!(
                    ready(p0.poll_recv(peer, &id(name), 0)),
                    vec![peer as u8, round, name.as_bytes()[0]]
                );
            }
            assert_eq!(p0.waiting(peer, &id(name)), 0);
        }
    }
}

#[test]
fn recv_waits_for_what_is_left_of_the_timeout() {
    let mut p1 = party_with_recv_timeout(1, 2, 100);
    match p1.poll_recv(0, &id("m"), 0) {
        RecvStep::Wait(Some(100)) => {}
        other => panic!("unexpected: {:?}", other),
    }
    match p1.poll_recv(0, &id("m"), 99) {
        RecvStep::Wait(Some(1)) => {}
        other => panic!("unexpected: {:?}", other),
    }
    assert_eq!(failed(p1.poll_recv(0, &id("m"), 100)), NetError::Timeout);
    assert_eq!(failed(p1.poll_recv(0, &id("m"), 101)), NetError::Timeout);
}

#[test]
fn recv_without_timeout_waits_without_limit() {
    let mut p1 = party(1, 2);
    match p1.poll_recv(0, &id("m"), usize::MAX) {
        RecvStep::Wait(None) => {}
        other => panic!("unexpected: {:?}", other),
    }
}

#[test]
fn late_payload_is_received_after_a_timeout() {
    let mut p1 = party_with_recv_timeout(1, 2, 10);
    assert_eq!(failed(p1.poll_recv(0, &id("m"), 10)), NetError::Timeout);
    p1.deliver(envelope(0, "m", b"late")).unwrap();
    assert_eq!(ready(p1.poll_recv(0, &id("m"), 0)), b"late".to_vec());
}

#[test]
fn set_timeouts_change_later_steps() {
    let mut p1 = party(1, 2);
    p1.set_recv_timeout(7);
    p1.set_send_timeout(9);
    assert_eq!(p1.recv_timeout(), Some(7));
    assert_eq!(p1.send_timeout(), Some(9));
    assert_eq!(failed(p1.poll_recv(0, &id("m"), 7)), NetError::Timeout);
    p1.set_recv_timeout(0);
    assert_eq!(failed(p1.poll_recv(0, &id("m"), 0)), NetError::Timeout);
}

#[test]
fn send_to_itself_is_invalid() {
    let mut p0 = party(0, 3);
    assert_eq!(p0.begin_send(0, &id("m"), &vec![1]).err(), Some(NetError::InvalidPeer));
    assert_eq!(
        p0.finish_send(0, &written(1), LinkWrite::Accepted { overhead: 3 }),
        Err(NetError::InvalidPeer)
    );
    assert_eq!(stat_of(&p0), (0, 0, 0));
}

#[test]
fn send_out_of_range_is_invalid() {
    let mut p0 = party(0, 3);
    assert_eq!(p0.begin_send(3, &id("m"), &vec![1]).err(), Some(NetError::InvalidPeer));
    assert_eq!(p0.begin_send(u32::MAX, &id("m"), &vec![1]).err(), Some(NetError::InvalidPeer));
    assert_eq!(
        p0.finish_send(3, &written(1), LinkWrite::Accepted { overhead: 3 }),
        Err(NetError::InvalidPeer)
    );
    assert_eq!(stat_of(&p0), (0, 0, 0));
}

#[test]
fn recv_from_invalid_peer_is_invalid() {
    let mut p0 = party(0, 3);
    assert_eq!(failed(p0.poll_recv(0, &id("m"), 0)), NetError::InvalidPeer);
    assert_eq!(failed(p0.poll_recv(3, &id("m"), 0)), NetError::InvalidPeer);
}

#[test]
fn envelope_from_invalid_sender_is_refused() {
    let mut p0 = party(0, 3);
    assert_eq!(p0.deliver(envelope(0, "m", b"x")), Err(NetError::InvalidPeer));
    assert_eq!(p0.deliver(envelope(3, "m", b"x")), Err(NetError::InvalidPeer));
    assert_eq!(p0.waiting(0, &id("m")), 0);
    assert_eq!(p0.waiting(3, &id("m")), 0);
}

#[test]
fn begin_send_makes_the_envelope() {
    let p2 = party(2, 3);
    let envelope = p2.begin_send(0, &id("round-1"), &vec![9, 8, 7]).unwrap();
    assert_eq!(envelope.sender_partyid, 2);
    assert_eq!(envelope.msgid, "round-1");
    assert_eq!(envelope.payload, vec![9, 8, 7]);
    let copy = envelope.clone();
    assert_eq!(copy.sender_partyid, 2);
    assert_eq!(copy.msgid, "round-1");
    assert_eq!(copy.payload, vec![9, 8, 7]);
    assert_eq!(stat_of(&p2), (0, 0, 0));
}

#[test]
fn accepted_send_is_counted() {
    let mut p0 = party(0, 3);
    assert_eq!(p0.finish_send(1, &written(10), LinkWrite::Accepted { overhead: 6 }), Ok(10));
    assert_eq!(stat_of(&p0), (1, 10, 16));
    assert_eq!(p0.finish_send(2, &written(1), LinkWrite::Accepted { overhead: 0 }), Ok(1));
    assert_eq!(stat_of(&p0), (2, 11, 17));
}

#[test]
fn send_that_timed_out_is_not_counted() {
    let mut p0 = party(0, 3);
    assert_eq!(p0.finish_send(1, &written(10), LinkWrite::TimedOut), Err(NetError::Timeout));
    assert_eq!(stat_of(&p0), (0, 0, 0));
    assert!(p0.link_alive(1));
    assert_eq!(p0.finish_send(1, &written(10), LinkWrite::Accepted { overhead: 2 }), Ok(10));
}

#[test]
fn broken_link_fails_this_send_and_the_next() {
    let mut p0 = party(0, 3);
    assert_eq!(p0.finish_send(1, &written(10), LinkWrite::Broken), Err(NetError::LinkError));
    assert_eq!(stat_of(&p0), (0, 0, 0));
    assert!(!p0.link_alive(1));
    assert_eq!(p0.begin_send(1, &id("m"), &vec![1]).err(), Some(NetError::LinkError));
    assert_eq!(p0.finish_send(1, &written(10), LinkWrite::Accepted { overhead: 1 }), Err(NetError::LinkError));
    assert!(p0.begin_send(2, &id("m"), &vec![1]).is_ok());
}

#[test]
fn link_down_fails_a_waiting_recv_but_keeps_what_arrived() {
    let mut p0 = party(0, 3);
    p0.deliver(envelope(1, "m", b"before")).unwrap();
    p0.link_down(1);
    assert!(!p0.link_alive(1));
    assert!(p0.link_alive(2));
    assert_eq!(ready(p0.poll_recv(1, &id("m"), 0)), b"before".to_vec());
    assert_eq!(failed(p0.poll_recv(1, &id("m"), 0)), NetError::LinkError);
    match p0.poll_recv(2, &id("m"), 0) {
        RecvStep::Wait(None) => {}
        other => panic!("unexpected: {:?}", other),
    }
}

#[test]
fn link_down_of_no_party_changes_nothing() {
    let mut p0 = party(0, 3);
    p0.link_down(7);
    assert!(p0.link_alive(1));
    assert!(p0.link_alive(2));
}

#[test]
fn after_stop_everything_is_closed() {
    let mut p0 = party(0, 3);
    p0.deliver(envelope(1, "m", b"kept")).unwrap();
    p0.stop();
    assert!(p0.is_stopped());
    assert_eq!(p0.begin_send(1, &id("m"), &vec![1]).err(), Some(NetError::ClosedError));
    assert_eq!(p0.begin_send(0, &id("m"), &vec![1]).err(), Some(NetError::ClosedError));
    assert_eq!(
        p0.finish_send(1, &written(1), LinkWrite::Accepted { overhead: 1 }),
        Err(NetError::ClosedError)
    );
    assert_eq!(failed(p0.poll_recv(1, &id("m"), 0)), NetError::ClosedError);
    assert_eq!(failed(p0.poll_recv(9, &id("m"), 0)), NetError::ClosedError);
    assert_eq!(p0.deliver(envelope(1, "m", b"x")), Err(NetError::ClosedError));
    assert!(!p0.link_alive(1));
    assert!(!p0.link_alive(2));
    assert_eq!(stat_of(&p0), (0, 0, 0));
}

#[test]
fn stop_twice_is_stop_once() {
    let mut p0 = party(0, 3);
    assert_eq!(p0.finish_send(1, &written(3), LinkWrite::Accepted { overhead: 2 }), Ok(3));
    p0.stop();
    p0.stop();
    assert!(p0.is_stopped());
    assert_eq!(p0.partyid(), 0);
    assert_eq!(p0.parties(), 3);
    assert_eq!(stat_of(&p0), (1, 3, 5));
    assert_eq!(failed(p0.poll_recv(1, &id("m"), 0)), NetError::ClosedError);
}

#[test]
fn errors_describe_themselves() {
    assert_eq!(NetError::ConfigError.describe(), "invalid party directory");
    assert_eq!(NetError::ConnectionError.describe(), "could not connect to every peer");
    assert_eq!(NetError::InvalidPeer.describe(), "invalid peer");
    assert_eq!(NetError::Timeout.describe(), "timed out");
    assert_eq!(NetError::LinkError.describe(), "link to peer is broken");
    assert_eq!(NetError::ClosedError.describe(), "network io is stopped");
}
