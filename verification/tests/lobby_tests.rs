use poker_lobby::events::{AddressedEvent, Event};
use poker_lobby::ids::PeerId;
use poker_lobby::lobby::{ConnectionState, EnterAction, Lobby, LobbyAction};
use poker_lobby::player::Player;
use poker_lobby::room::Room;

fn player(n: u64) -> Player {
    Player::new(PeerId::new(0, n))
}

fn owner_ids(lobby: &Lobby) -> Vec<PeerId> {
    lobby.rooms().iter().map(|r| r.owner.player.id).collect()
}

#[test]
fn merge_room_is_idempotent() {
    // Merging the same room twice leaves the same room list as merging it
    // once.
    let room = Room::new(player(1));
    let mut lobby = Lobby::new();
    lobby.merge_room(room.clone());
    let after_once = owner_ids(&lobby);
    lobby.merge_room(room);
    assert_eq!(owner_ids(&lobby), after_once);
    assert_eq!(lobby.rooms().len(), 1);
}

#[test]
fn merge_room_never_duplicates_owners() {
    let mut lobby = Lobby::new();
    // A later, fuller announcement for the same owner is dropped: first
    // seen wins.
    let sparse = Room::new(player(1));
    let mut fuller = Room::new(player(1));
    assert!(fuller.join(player(2)));
    lobby.merge_room(sparse);
    lobby.merge_room(fuller);
    lobby.merge_room(Room::new(player(2)));
    lobby.merge_room(Room::new(player(2)));

    let ids = owner_ids(&lobby);
    assert_eq!(ids, vec![PeerId::new(0, 1), PeerId::new(0, 2)]);
    // The first-seen room for owner 1 kept its single occupant.
    assert_eq!(lobby.rooms()[0].occupant_count(), 1);
}

#[test]
fn disconnect_removes_peer_from_wait_list() {
    let p = PeerId::new(0, 7);
    let q = PeerId::new(0, 8);
    let mut lobby = Lobby::new();
    lobby.handle_peer_update(p, ConnectionState::Connected);
    lobby.handle_peer_update(q, ConnectionState::Connected);
    assert_eq!(lobby.wait_players(), &vec![p, q]);

    lobby.handle_peer_update(p, ConnectionState::Disconnected);
    assert_eq!(lobby.wait_players(), &vec![q]);
    assert!(!lobby.wait_players().contains(&p));
}

#[test]
fn connect_adds_peer_only_once() {
    let p = PeerId::new(0, 7);
    let mut lobby = Lobby::new();
    lobby.handle_peer_update(p, ConnectionState::Connected);
    lobby.handle_peer_update(p, ConnectionState::Connected);
    assert_eq!(lobby.wait_players(), &vec![p]);
}

#[test]
fn owner_disconnect_prunes_solo_room() {
    // Scenario: owner A disconnects while alone in the room; the room is
    // pruned on the next batch of peer transitions.
    let a = player(1);
    let mut lobby = Lobby::new();
    lobby.merge_room(Room::new(a));
    assert_eq!(lobby.rooms().len(), 1);

    let updates = vec![(PeerId::new(0, 1), ConnectionState::Disconnected)];
    lobby.observe_peer_transitions(&updates);
    assert!(lobby.rooms().is_empty());
}

#[test]
fn owner_disconnect_keeps_room_with_guests() {
    // A room whose owner disconnects but that still has a guest is left
    // listed: only solo rooms are treated as abandoned.
    let mut room = Room::new(player(1));
    assert!(room.join(player(2)));
    let mut lobby = Lobby::new();
    lobby.merge_room(room);

    let updates = vec![(PeerId::new(0, 1), ConnectionState::Disconnected)];
    lobby.observe_peer_transitions(&updates);
    assert_eq!(lobby.rooms().len(), 1);
}

#[test]
fn disconnect_of_guest_keeps_other_rooms() {
    let mut lobby = Lobby::new();
    lobby.merge_room(Room::new(player(1)));
    lobby.merge_room(Room::new(player(2)));
    let updates = vec![(PeerId::new(0, 2), ConnectionState::Disconnected)];
    lobby.observe_peer_transitions(&updates);
    assert_eq!(owner_ids(&lobby), vec![PeerId::new(0, 1)]);
}

#[test]
fn enter_room_requests_join_from_all_occupants() {
    let local = player(9);
    let mut room = Room::new(player(1));
    assert!(room.join(player(2)));
    let mut lobby = Lobby::new();
    lobby.merge_room(room);

    match lobby.enter_room(&local) {
        EnterAction::RequestJoin { targets } => {
            assert_eq!(targets, vec![PeerId::new(0, 1), PeerId::new(0, 2)]);
        }
        EnterAction::Created { .. } => panic!("expected a join request"),
    }
    // The lobby itself is unchanged by a join request.
    assert_eq!(lobby.rooms().len(), 1);
}

#[test]
fn enter_room_skips_full_rooms() {
    let local = player(9);
    let mut full = Room::new(player(1));
    assert!(full.join(player(2)));
    assert!(full.join(player(3)));
    let open = Room::new(player(4));
    let mut lobby = Lobby::new();
    lobby.merge_room(full);
    lobby.merge_room(open);

    match lobby.enter_room(&local) {
        EnterAction::RequestJoin { targets } => {
            assert_eq!(targets, vec![PeerId::new(0, 4)]);
        }
        EnterAction::Created { .. } => panic!("expected a join request"),
    }
}

#[test]
fn enter_room_picks_the_first_open_room() {
    let local = player(9);
    let mut lobby = Lobby::new();
    lobby.merge_room(Room::new(player(1)));
    lobby.merge_room(Room::new(player(2)));

    match lobby.enter_room(&local) {
        EnterAction::RequestJoin { targets } => {
            assert_eq!(targets, vec![PeerId::new(0, 1)]);
        }
        EnterAction::Created { .. } => panic!("expected a join request"),
    }
}

#[test]
fn enter_room_creates_when_nothing_is_open() {
    let local = player(9);
    let mut full = Room::new(player(1));
    assert!(full.join(player(2)));
    assert!(full.join(player(3)));
    let mut lobby = Lobby::new();
    lobby.merge_room(full);

    match lobby.enter_room(&local) {
        EnterAction::Created { room } => {
            assert_eq!(room.owner.player.id, PeerId::new(0, 9));
            assert_eq!(room.occupant_count(), 1);
        }
        EnterAction::RequestJoin { .. } => panic!("expected a created room"),
    }
    assert_eq!(lobby.rooms().len(), 2);
}

#[test]
fn create_room_always_creates() {
    let local = player(9);
    let mut lobby = Lobby::new();
    lobby.merge_room(Room::new(player(1)));
    let room = lobby.create_room(&local);
    assert_eq!(room.owner.player.id, PeerId::new(0, 9));
    assert!(room.changed);
    assert_eq!(lobby.rooms().len(), 2);
}

#[test]
fn own_events_do_not_touch_the_lobby() {
    let local = player(9);
    let mut lobby = Lobby::new();
    let ev = AddressedEvent {
        src: local.clone(),
        event: Event::SyncRoom(Room::new(player(9))),
    };
    match lobby.apply_event(&local, &ev) {
        LobbyAction::Ignore => {}
        LobbyAction::EnterRoom { .. } => panic!("own event must be dropped"),
    }
    assert!(lobby.rooms().is_empty());
}

#[test]
fn join_success_for_local_player_enters_the_room() {
    let local = player(9);
    let granter = player(1);
    let mut room = Room::new(granter.clone());
    assert!(room.join(local.clone()));

    let mut lobby = Lobby::new();
    let ev = AddressedEvent { src: granter, event: Event::JoinRoomSuccess(room) };
    match lobby.apply_event(&local, &ev) {
        LobbyAction::EnterRoom { room } => {
            assert!(room.seats_peer(PeerId::new(0, 9)));
        }
        LobbyAction::Ignore => panic!("the granted room seats the local player"),
    }
}

#[test]
fn join_success_for_someone_else_is_ignored() {
    let local = player(9);
    let granter = player(1);
    let mut room = Room::new(granter.clone());
    assert!(room.join(player(2)));

    let mut lobby = Lobby::new();
    let ev = AddressedEvent { src: granter, event: Event::JoinRoomSuccess(room) };
    match lobby.apply_event(&local, &ev) {
        LobbyAction::Ignore => {}
        LobbyAction::EnterRoom { .. } => panic!("the room does not seat the local player"),
    }
}

#[test]
fn join_request_and_grant_converge_peers() {
    // Scenario: A creates a room; B asks to join; A grants and announces.
    // After B processes the announcement, B's view equals A's.
    let a = player(1);
    let b = player(2);

    let mut a_room = Room::new(a.clone());
    let request = AddressedEvent { src: b.clone(), event: Event::JoinRoom };
    let acts = a_room.apply_events(&a, &vec![request]);
    assert_eq!(acts.len(), 1);
    let (targets, announced) = acts.into_iter().next().unwrap();
    // B is both the newly seated peer and the joiner, so it is addressed
    // twice (a harmless duplicate send).
    assert_eq!(targets, vec![PeerId::new(0, 2), PeerId::new(0, 2)]);

    let mut b_lobby = Lobby::new();
    let grant = AddressedEvent { src: a.clone(), event: Event::JoinRoomSuccess(announced) };
    match b_lobby.apply_event(&b, &grant) {
        LobbyAction::EnterRoom { room } => {
            let a_ids: Vec<_> = a_room
                .players
                .iter()
                .map(|s| s.as_ref().map(|rp| rp.player.id))
                .collect();
            let b_ids: Vec<_> = room
                .players
                .iter()
                .map(|s| s.as_ref().map(|rp| rp.player.id))
                .collect();
            assert_eq!(a_ids, b_ids);
            assert_eq!(room.occupant_count(), 2);
        }
        LobbyAction::Ignore => panic!("the grant seats B"),
    }
}
