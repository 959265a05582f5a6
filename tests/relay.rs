use game_relay::{ClientMessage, Delivery, Point, Relay, RemoteState, ServerMessage, State};

fn report(x: u32, y: u32, r: u32) -> ClientMessage {
    ClientMessage::State(State { pos: Point { x, y }, r })
}

/// Hands a delivery to each addressed peer's inbox; a peer in `failing`
/// refuses the message. Returns the peers whose send failed.
fn deliver(
    relay: &Relay<usize>,
    d: &Delivery,
    inboxes: &mut Vec<Vec<ServerMessage>>,
    failing: &[usize],
) -> Vec<usize> {
    let mut failed = Vec::new();
    for &to in d.to.iter() {
        let sink = *relay.sink(to).expect("addressed peer is registered");
        if failing.contains(&to) {
            failed.push(to);
        } else {
            inboxes[sink].push(d.msg.clone());
        }
    }
    failed
}

#[test]
fn first_ids_start_at_one_and_increase() {
    let mut relay: Relay<usize> = Relay::new();
    let mut ids = Vec::new();
    for sink in 0..5 {
        let (id, welcome) = relay.connect(sink).expect("ids left");
        assert_eq!(welcome.to, vec![id]);
        assert_eq!(welcome.msg, ServerMessage::Welcome(id));
        ids.push(id);
    }
    assert_eq!(ids, vec![1, 2, 3, 4, 5]);
}

#[test]
fn ids_are_not_reused_after_disconnect() {
    let mut relay: Relay<usize> = Relay::new();
    let (a, _) = relay.connect(0).unwrap();
    assert!(relay.disconnect(a).is_some());
    let (b, _) = relay.connect(1).unwrap();
    assert_eq!(a, 1);
    assert_eq!(b, 2);
    assert!(!relay.is_connected(a));
    assert!(relay.is_connected(b));
}

#[test]
fn upsert_then_snapshot_holds_one_entry() {
    let mut relay: Relay<usize> = Relay::new();
    let (id, _) = relay.connect(0).unwrap();
    relay.user_message(id, report(1, 2, 3));
    relay.user_message(id, report(4, 5, 6));
    let snap = relay.snapshot();
    assert_eq!(snap, vec![RemoteState::new(id, 4, 5, 6)]);
}

#[test]
fn malformed_payload_does_not_block_other_peer() {
    let mut relay: Relay<usize> = Relay::new();
    let (a, _) = relay.connect(0).unwrap();
    let (b, _) = relay.connect(1).unwrap();
    relay.receive(a, None);
    relay.receive(b, Some(report(7, 8, 9)));
    let tick = relay.tick();
    assert_eq!(tick.to, vec![a, b]);
    assert_eq!(tick.msg, ServerMessage::Update(vec![RemoteState::new(b, 7, 8, 9)]));
}

#[test]
fn message_from_unknown_peer_is_ignored() {
    let mut relay: Relay<usize> = Relay::new();
    relay.user_message(42, report(1, 1, 1));
    assert!(relay.snapshot().is_empty());
}

#[test]
fn join_update_and_leave_scenario() {
    let mut relay: Relay<usize> = Relay::new();
    let mut inboxes: Vec<Vec<ServerMessage>> = vec![Vec::new(), Vec::new()];

    let (first, w1) = relay.connect(0).unwrap();
    deliver(&relay, &w1, &mut inboxes, &[]);
    assert_eq!(inboxes[0], vec![ServerMessage::Welcome(1)]);

    let (second, w2) = relay.connect(1).unwrap();
    deliver(&relay, &w2, &mut inboxes, &[]);
    assert_eq!(inboxes[1], vec![ServerMessage::Welcome(2)]);

    relay.user_message(first, report(10, 11, 12));
    relay.user_message(second, report(20, 21, 22));
    let tick = relay.tick();
    deliver(&relay, &tick, &mut inboxes, &[]);
    let both = ServerMessage::Update(vec![
        RemoteState::new(first, 10, 11, 12),
        RemoteState::new(second, 20, 21, 22),
    ]);
    assert_eq!(inboxes[0].last(), Some(&both));

    let (sink, bye) = relay.disconnect(first).expect("the first peer was connected");
    assert_eq!(sink, 0);
    deliver(&relay, &bye, &mut inboxes, &[]);
    assert_eq!(inboxes[1].last(), Some(&ServerMessage::GoodBye(1)));
    let goodbyes = inboxes[1].iter().filter(|m| **m == ServerMessage::GoodBye(1)).count();
    assert_eq!(goodbyes, 1);

    let tick = relay.tick();
    assert_eq!(tick.to, vec![second]);
    assert_eq!(tick.msg, ServerMessage::Update(vec![RemoteState::new(second, 20, 21, 22)]));
}

#[test]
fn second_disconnect_sends_nothing() {
    let mut relay: Relay<usize> = Relay::new();
    let (a, _) = relay.connect(0).unwrap();
    let (_b, _) = relay.connect(1).unwrap();
    assert!(relay.disconnect(a).is_some());
    assert!(relay.disconnect(a).is_none());
}

#[test]
fn failing_sink_closes_only_its_peer() {
    let mut relay: Relay<usize> = Relay::new();
    let mut inboxes: Vec<Vec<ServerMessage>> = vec![Vec::new(), Vec::new(), Vec::new()];
    let (a, _) = relay.connect(0).unwrap();
    let (b, _) = relay.connect(1).unwrap();
    let (c, _) = relay.connect(2).unwrap();
    relay.user_message(a, report(1, 1, 1));
    relay.user_message(b, report(2, 2, 2));
    relay.user_message(c, report(3, 3, 3));

    let tick = relay.tick();
    let failed = deliver(&relay, &tick, &mut inboxes, &[b]);
    assert_eq!(failed, vec![b]);
    assert_eq!(inboxes[0], vec![tick.msg.clone()]);
    assert!(inboxes[1].is_empty());
    assert_eq!(inboxes[2], vec![tick.msg.clone()]);

    let (_, bye) = relay.disconnect(b).unwrap();
    assert_eq!(bye.to, vec![a, c]);
    assert_eq!(bye.msg, ServerMessage::GoodBye(b));
    assert!(relay.is_connected(a));
    assert!(!relay.is_connected(b));
    assert!(relay.is_connected(c));
    assert_eq!(
        relay.snapshot(),
        vec![RemoteState::new(a, 1, 1, 1), RemoteState::new(c, 3, 3, 3)]
    );
}

#[test]
fn tick_on_empty_relay_addresses_nobody() {
    let relay: Relay<usize> = Relay::new();
    let tick = relay.tick();
    assert!(tick.to.is_empty());
    assert_eq!(tick.msg, ServerMessage::Update(Vec::new()));
}

#[test]
fn broadcast_addresses_every_peer_in_id_order() {
    let mut relay: Relay<usize> = Relay::new();
    for sink in 0..3 {
        relay.connect(sink).unwrap();
    }
    let d = relay.broadcast(ServerMessage::GoodBye(9));
    assert_eq!(d.to, vec![1, 2, 3]);
    assert_eq!(d.msg, ServerMessage::GoodBye(9));
}

#[test]
fn large_ids_are_carried_unchanged() {
    let mut relay: Relay<usize> = Relay::new();
    let (id, _) = relay.connect(0).unwrap();
    relay.user_message(id, report(u32::MAX, 0, 0x8000_0000));
    assert_eq!(relay.snapshot(), vec![RemoteState::new(id, u32::MAX, 0, 0x8000_0000)]);
}
