use poker_lobby::events::{AddressedEvent, Event};
use poker_lobby::ids::PeerId;
use poker_lobby::player::Player;
use poker_lobby::room::Room;

fn player(n: u64) -> Player {
    Player::new(PeerId::new(0, n))
}

fn seat_ids(room: &Room) -> Vec<Option<PeerId>> {
    room.players
        .iter()
        .map(|seat| seat.as_ref().map(|rp| rp.player.id))
        .collect()
}

#[test]
fn new_room_seats_creator_at_zero() {
    let a = player(1);
    let room = Room::new(a);
    assert_eq!(room.players.len(), 3);
    assert!(room.players[0].is_some());
    assert!(room.players[1].is_none());
    assert!(room.players[2].is_none());
    let seat0 = room.players[0].as_ref().unwrap();
    assert_eq!(seat0.player.id, PeerId::new(0, 1));
    assert_eq!(seat0.room_position, 0);
    assert_eq!(room.owner.player.id, PeerId::new(0, 1));
    assert_eq!(room.owner.room_position, 0);
    assert!(room.changed);
    assert_eq!(room.occupant_count(), 1);
}

#[test]
fn join_monotonic_seats_one_then_two() {
    let mut room = Room::new(player(1));
    assert_eq!(room.occupant_count(), 1);

    assert!(room.join(player(2)));
    assert_eq!(room.occupant_count(), 2);
    let seat1 = room.players[1].as_ref().unwrap();
    assert_eq!(seat1.player.id, PeerId::new(0, 2));
    assert_eq!(seat1.room_position, 1);
    // Seat 0 is untouched.
    assert_eq!(room.players[0].as_ref().unwrap().player.id, PeerId::new(0, 1));

    assert!(room.join(player(3)));
    assert_eq!(room.occupant_count(), 3);
    let seat2 = room.players[2].as_ref().unwrap();
    assert_eq!(seat2.player.id, PeerId::new(0, 3));
    assert_eq!(seat2.room_position, 2);
    assert!(room.is_full());
}

#[test]
fn join_on_full_room_returns_false_and_keeps_room() {
    let mut room = Room::new(player(1));
    assert!(room.join(player(2)));
    assert!(room.join(player(3)));
    let before = seat_ids(&room);
    let changed_before = room.changed;

    assert!(!room.join(player(4)));
    assert_eq!(seat_ids(&room), before);
    assert_eq!(room.changed, changed_before);
    assert_eq!(room.occupant_count(), 3);
}

#[test]
fn join_raises_changed_flag() {
    let mut room = Room::new(player(1));
    room.changed = false;
    assert!(room.join(player(2)));
    assert!(room.changed);
}

#[test]
fn grant_join_addresses_other_seats_and_joiner() {
    // Scenario: A owns a room with B seated; C asks to join; A grants.
    let a = player(1);
    let b = player(2);
    let c = player(3);
    let mut room = Room::new(a.clone());
    assert!(room.join(b));

    let targets = room.grant_join(&a, &c).expect("a seat was empty");
    // Every seat holder except A, then the joiner again: the joiner is
    // already seated, so it is addressed twice (a harmless duplicate send).
    assert_eq!(
        targets,
        vec![PeerId::new(0, 2), PeerId::new(0, 3), PeerId::new(0, 3)]
    );
    assert!(room.is_full());
}

#[test]
fn grant_join_on_full_room_is_refused() {
    let a = player(1);
    let mut room = Room::new(a.clone());
    assert!(room.join(player(2)));
    assert!(room.join(player(3)));
    assert!(room.grant_join(&a, &player(4)).is_none());
}

#[test]
fn own_events_are_never_applied() {
    // An event whose src is the local player must not mutate the room.
    let a = player(1);
    let mut room = Room::new(a.clone());
    let before = seat_ids(&room);

    let ev = AddressedEvent { src: a.clone(), event: Event::JoinRoom };
    let acts = room.apply_events(&a, &vec![ev]);
    assert!(acts.is_empty());
    assert_eq!(seat_ids(&room), before);
    assert_eq!(room.occupant_count(), 1);
}

#[test]
fn test_event_is_ignored_without_panicking() {
    let a = player(1);
    let b = player(2);
    let mut room = Room::new(a.clone());
    let before = seat_ids(&room);
    let ev = AddressedEvent { src: b, event: Event::Test(42) };
    let acts = room.apply_events(&a, &vec![ev]);
    assert!(acts.is_empty());
    assert_eq!(seat_ids(&room), before);
}

#[test]
fn concurrent_joins_fill_both_seats() {
    // Scenario: B and C both ask to join A's one-occupant room; A processes
    // both requests in one tick. Both are granted distinct seats and the
    // room becomes full.
    let a = player(1);
    let b = player(2);
    let c = player(3);
    let mut room = Room::new(a.clone());

    let events = vec![
        AddressedEvent { src: b, event: Event::JoinRoom },
        AddressedEvent { src: c, event: Event::JoinRoom },
    ];
    let acts = room.apply_events(&a, &events);

    assert_eq!(acts.len(), 2);
    assert_eq!(
        seat_ids(&room),
        vec![
            Some(PeerId::new(0, 1)),
            Some(PeerId::new(0, 2)),
            Some(PeerId::new(0, 3)),
        ]
    );
    assert!(room.is_full());
    // The grant sent for C's join reflects all three occupants.
    let (_, announced) = &acts[1];
    assert_eq!(announced.occupant_count(), 3);
    // The room is dirty, so the next tick rebroadcasts the full state to
    // every connected peer, which is what lets B and C converge.
    let tick = room.tick();
    let snapshot = tick.broadcast.expect("room was dirty");
    assert_eq!(snapshot.occupant_count(), 3);
    assert!(tick.ready);

    // Once that full grant reaches B and C, both move into a room that
    // seats all three peers.
    let grant = AddressedEvent {
        src: a,
        event: Event::JoinRoomSuccess(announced.clone()),
    };
    let payload = poker_lobby::codec::encode(&grant);
    for follower in [player(2), player(3)] {
        let mut lobby = poker_lobby::lobby::Lobby::new();
        let entered = lobby.receive(&follower, &vec![payload.clone()]);
        let joined = entered.last().expect("the grant seats this peer");
        assert_eq!(joined.occupant_count(), 3);
        assert!(joined.seats_peer(follower.id));
    }
}

#[test]
fn tick_broadcasts_once_and_refreshes_owner() {
    let a = player(1);
    let mut room = Room::new(a.clone());
    assert!(room.changed);

    let first = room.tick();
    assert!(first.broadcast.is_some());
    assert!(!first.ready);
    assert!(!room.changed);

    let second = room.tick();
    assert!(second.broadcast.is_none());

    // The owner mirrors seat 0 after a tick.
    room.players[0].as_mut().unwrap().room_position = 0;
    assert!(room.join(player(2)));
    let _ = room.tick();
    assert_eq!(room.owner.player.id, PeerId::new(0, 1));
}

#[test]
fn seats_peer_finds_each_occupant() {
    let a = player(1);
    let mut room = Room::new(a);
    assert!(room.join(player(2)));
    assert!(room.seats_peer(PeerId::new(0, 1)));
    assert!(room.seats_peer(PeerId::new(0, 2)));
    assert!(!room.seats_peer(PeerId::new(0, 9)));
}

#[test]
fn rooms_compare_by_owner() {
    let r1 = Room::new(player(1));
    let mut r2 = Room::new(player(1));
    assert!(r2.join(player(5)));
    let r3 = Room::new(player(2));
    assert_eq!(r1, r2);
    assert!(r1 != r3);
}
