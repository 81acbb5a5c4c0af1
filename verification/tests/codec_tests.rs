use poker_lobby::cards::{Card, Rank, Suit};
use poker_lobby::codec::{decode, decode_batch, encode};
use poker_lobby::events::{AddressedEvent, Event};
use poker_lobby::ids::PeerId;
use poker_lobby::lobby::Lobby;
use poker_lobby::player::{Player, RoomState};
use poker_lobby::room::Room;

fn player(n: u64) -> Player {
    Player::new(PeerId::new(0, n))
}

fn assert_players_equal(a: &Player, b: &Player) {
    assert_eq!(a.id, b.id);
    assert!(matches!(
        (a.room_state, b.room_state),
        (None, None)
            | (Some(RoomState::Free), Some(RoomState::Free))
            | (Some(RoomState::Waiting), Some(RoomState::Waiting))
            | (Some(RoomState::Gaming), Some(RoomState::Gaming))
    ));
    assert_eq!(a.room_index, b.room_index);
    assert_eq!(a.current_round, b.current_round);
    assert_eq!(a.hand_cards, b.hand_cards);
}

fn assert_rooms_equal(a: &Room, b: &Room) {
    assert_eq!(a.players.len(), b.players.len());
    for (sa, sb) in a.players.iter().zip(b.players.iter()) {
        match (sa, sb) {
            (None, None) => {}
            (Some(ra), Some(rb)) => {
                assert_players_equal(&ra.player, &rb.player);
                assert_eq!(ra.room_position, rb.room_position);
            }
            _ => panic!("seat occupancy differs"),
        }
    }
    assert_players_equal(&a.owner.player, &b.owner.player);
    assert_eq!(a.owner.room_position, b.owner.room_position);
    assert_eq!(a.changed, b.changed);
}

#[test]
fn join_room_round_trips() {
    let ev = AddressedEvent { src: player(3), event: Event::JoinRoom };
    let bytes = encode(&ev);
    let back = decode(&bytes).expect("own encoding decodes");
    assert_players_equal(&back.src, &ev.src);
    assert!(matches!(back.event, Event::JoinRoom));
}

#[test]
fn sync_room_round_trips() {
    let mut sender = player(1);
    sender.room_state = Some(RoomState::Waiting);
    sender.room_index = Some(-7);
    sender.current_round = true;
    sender.hand_cards = vec![
        Card::new(Suit::Spade, Rank::Ace),
        Card::new(Suit::Joker, Rank::BigJoker),
    ];

    let mut room = Room::new(sender.clone());
    assert!(room.join(player(2)));

    let ev = AddressedEvent { src: sender, event: Event::SyncRoom(room) };
    let bytes = encode(&ev);
    let back = decode(&bytes).expect("own encoding decodes");
    assert_players_equal(&back.src, &ev.src);
    match (&back.event, &ev.event) {
        (Event::SyncRoom(got), Event::SyncRoom(sent)) => assert_rooms_equal(got, sent),
        _ => panic!("variant changed in flight"),
    }
}

#[test]
fn join_room_success_round_trips() {
    let mut room = Room::new(player(1));
    assert!(room.join(player(2)));
    assert!(room.join(player(3)));
    let ev = AddressedEvent { src: player(1), event: Event::JoinRoomSuccess(room) };
    let bytes = encode(&ev);
    let back = decode(&bytes).expect("own encoding decodes");
    match (&back.event, &ev.event) {
        (Event::JoinRoomSuccess(got), Event::JoinRoomSuccess(sent)) => {
            assert_rooms_equal(got, sent)
        }
        _ => panic!("variant changed in flight"),
    }
}

#[test]
fn test_event_round_trips() {
    let ev = AddressedEvent { src: player(4), event: Event::Test(-123456) };
    let bytes = encode(&ev);
    let back = decode(&bytes).expect("own encoding decodes");
    match back.event {
        Event::Test(x) => assert_eq!(x, -123456),
        _ => panic!("variant changed in flight"),
    }
}

#[test]
fn peer_id_bytes_round_trip_extremes() {
    let ev = AddressedEvent {
        src: Player::new(PeerId::new(u64::MAX, 0x0123_4567_89ab_cdef)),
        event: Event::JoinRoom,
    };
    let bytes = encode(&ev);
    let back = decode(&bytes).expect("own encoding decodes");
    assert_eq!(back.src.id, PeerId::new(u64::MAX, 0x0123_4567_89ab_cdef));
}

#[test]
fn empty_payload_is_rejected() {
    assert!(decode(&Vec::new()).is_err());
}

#[test]
fn truncated_payload_is_rejected() {
    let ev = AddressedEvent { src: player(3), event: Event::JoinRoom };
    let mut bytes = encode(&ev);
    bytes.pop();
    assert!(decode(&bytes).is_err());
}

#[test]
fn trailing_bytes_are_rejected() {
    let ev = AddressedEvent { src: player(3), event: Event::JoinRoom };
    let mut bytes = encode(&ev);
    bytes.push(0);
    assert!(decode(&bytes).is_err());
}

#[test]
fn unknown_event_tag_is_rejected() {
    let ev = AddressedEvent { src: player(3), event: Event::JoinRoom };
    let mut bytes = encode(&ev);
    let last = bytes.len() - 1;
    bytes[last] = 9;
    assert!(decode(&bytes).is_err());
}

#[test]
fn garbage_is_rejected_not_panicking() {
    let garbage: Vec<u8> = (0..200u16).map(|x| (x * 37 % 251) as u8).collect();
    assert!(decode(&garbage).is_err());
}

#[test]
fn decode_batch_drops_only_the_malformed() {
    let ev1 = AddressedEvent { src: player(1), event: Event::JoinRoom };
    let ev2 = AddressedEvent { src: player(2), event: Event::Test(5) };
    let payloads = vec![
        encode(&ev1),
        vec![0xde, 0xad, 0xbe, 0xef],
        encode(&ev2),
        Vec::new(),
    ];
    let events = decode_batch(&payloads);
    assert_eq!(events.len(), 2);
    assert_eq!(events[0].src.id, PeerId::new(0, 1));
    assert_eq!(events[1].src.id, PeerId::new(0, 2));
}

#[test]
fn malformed_payload_does_not_halt_room_sync() {
    // Scenario: a malformed payload arrives between two valid room
    // announcements; both rooms are merged and nothing fails.
    let local = player(9);
    let b = player(1);
    let c = player(2);
    let sync_b = AddressedEvent { src: b.clone(), event: Event::SyncRoom(Room::new(b)) };
    let sync_c = AddressedEvent { src: c.clone(), event: Event::SyncRoom(Room::new(c)) };
    let payloads = vec![encode(&sync_b), vec![1, 2, 3], encode(&sync_c)];

    let mut lobby = Lobby::new();
    let to_enter = lobby.receive(&local, &payloads);
    assert!(to_enter.is_empty());
    let owners: Vec<_> = lobby.rooms().iter().map(|r| r.owner.player.id).collect();
    assert_eq!(owners, vec![PeerId::new(0, 1), PeerId::new(0, 2)]);
}
