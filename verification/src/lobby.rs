//! The lobby directory: each peer's eventually-consistent registry of known
//! rooms and of peers waiting outside any room.
//!
//! Room announcements merge first-seen-wins, keyed by the owning peer, so
//! the directory never lists two rooms with the same owner. When a peer
//! disconnects it leaves the waiting list, and a room it owned is dropped if
//! nobody else had joined it (a room with guests stays listed).

use vstd::prelude::*;

use crate::events::{event_wf, events_view, AddressedEvent, AddressedEventV, Event, EventV};
use crate::ids::PeerId;
use crate::player::{Player, PlayerV};
use crate::room::{
    occupied_ids, room_has_empty_seat, room_occupant_count, room_seats_peer, room_wf,
    spec_new_room, Room, RoomV,
};

verus! {

/// A connection transition reported by the transport.
#[derive(Clone, Copy, Debug, PartialEq, Eq, Structural)]
pub enum ConnectionState {
    Connected,
    Disconnected,
}

/// The per-peer lobby directory.
#[derive(Debug)]
pub struct Lobby {
    rooms: Vec<Room>,
    wait_players: Vec<PeerId>,
}

/// The mathematical value of a `Lobby`.
#[verifier::ext_equal]
pub ghost struct LobbyV {
    pub rooms: Seq<RoomV>,
    pub wait_players: Seq<PeerId>,
}

/// The values of a sequence of rooms.
pub open spec fn rooms_view(rooms: Seq<Room>) -> Seq<RoomV> {
    rooms.map_values(|r: Room| r@)
}

impl View for Lobby {
    type V = LobbyV;

    closed spec fn view(&self) -> LobbyV {
        LobbyV { rooms: rooms_view(self.rooms@), wait_players: self.wait_players@ }
    }
}

/// Every listed room has its three seats.
pub open spec fn lobby_wf(l: LobbyV) -> bool {
    forall|i: int| 0 <= i < l.rooms.len() ==> room_wf(#[trigger] l.rooms[i])
}

/// No two listed rooms share an owner.
pub open spec fn no_dup_owners(l: LobbyV) -> bool {
    forall|i: int, j: int|
        0 <= i < j < l.rooms.len() ==> #[trigger] l.rooms[i].owner.player.id != #[trigger] l.rooms[j].owner.player.id
}

/// Whether some listed room is owned by the given peer.
pub open spec fn has_room_owned_by(rooms: Seq<RoomV>, id: PeerId) -> bool {
    exists|i: int| 0 <= i < rooms.len() && #[trigger] rooms[i].owner.player.id == id
}

/// What merging one announced room does to the directory: first seen wins,
/// keyed by owner; a room whose owner is already listed is dropped.
pub open spec fn spec_merge_room(l: LobbyV, room: RoomV) -> LobbyV {
    if has_room_owned_by(l.rooms, room.owner.player.id) {
        l
    } else {
        LobbyV { rooms: l.rooms.push(room), wait_players: l.wait_players }
    }
}

/// A room survives its owner's disconnection unless the owner was alone in
/// it: a solo room is abandoned, a room with guests stays listed.
pub open spec fn room_kept_on_disconnect(r: RoomV, peer: PeerId) -> bool {
    !(r.owner.player.id == peer && room_occupant_count(r) <= 1)
}

/// The rooms that survive the given peer's disconnection, in order.
pub open spec fn spec_prune_rooms(rooms: Seq<RoomV>, peer: PeerId) -> Seq<RoomV>
    decreases rooms.len(),
{
    if rooms.len() == 0 {
        Seq::<RoomV>::empty()
    } else {
        let rest = spec_prune_rooms(rooms.drop_last(), peer);
        if room_kept_on_disconnect(rooms.last(), peer) {
            rest.push(rooms.last())
        } else {
            rest
        }
    }
}

/// The waiting list without the given peer.
pub open spec fn spec_remove_wait(wait: Seq<PeerId>, peer: PeerId) -> Seq<PeerId>
    decreases wait.len(),
{
    if wait.len() == 0 {
        Seq::<PeerId>::empty()
    } else {
        let rest = spec_remove_wait(wait.drop_last(), peer);
        if wait.last() != peer {
            rest.push(wait.last())
        } else {
            rest
        }
    }
}

/// What one connection transition does to the directory: a newly connected
/// peer enters the waiting list if absent; a disconnected peer leaves it,
/// and its abandoned solo room is dropped.
pub open spec fn spec_peer_step(l: LobbyV, peer: PeerId, st: ConnectionState) -> LobbyV {
    match st {
        ConnectionState::Connected => if l.wait_players.contains(peer) {
            l
        } else {
            LobbyV { rooms: l.rooms, wait_players: l.wait_players.push(peer) }
        },
        ConnectionState::Disconnected => LobbyV {
            rooms: spec_prune_rooms(l.rooms, peer),
            wait_players: spec_remove_wait(l.wait_players, peer),
        },
    }
}

/// What a batch of connection transitions does, applied in order.
pub open spec fn spec_observe(l: LobbyV, updates: Seq<(PeerId, ConnectionState)>) -> LobbyV
    decreases updates.len(),
{
    if updates.len() == 0 {
        l
    } else {
        spec_peer_step(spec_observe(l, updates.drop_last()), updates.last().0, updates.last().1)
    }
}

impl Lobby {
    /// An empty directory: no rooms, nobody waiting.
    pub fn new() -> (l: Lobby)
        ensures
            l@.rooms == Seq::<RoomV>::empty(),
            l@.wait_players == Seq::<PeerId>::empty(),
            lobby_wf(l@),
            no_dup_owners(l@),
    {
        let l = Lobby { rooms: Vec::new(), wait_players: Vec::new() };
        proof {
            assert(l@.rooms =~= Seq::<RoomV>::empty());
        }
        l
    }

    /// Read-only listing of the known rooms.
    pub fn rooms(&self) -> (r: &Vec<Room>)
        ensures
            rooms_view(r@) == self@.rooms,
    {
        &self.rooms
    }

    /// Read-only listing of the peers waiting outside any room.
    pub fn wait_players(&self) -> (r: &Vec<PeerId>)
        ensures
            r@ == self@.wait_players,
    {
        &self.wait_players
    }

    /// Adds an announced room unless a room with the same owner is already
    /// listed: first seen wins, later announcements for that owner are
    /// dropped.
    #[verifier::loop_isolation(false)]
    pub fn merge_room(&mut self, room: Room)
        requires
            lobby_wf(old(self)@),
            room_wf(room@),
        ensures
            final(self)@ == spec_merge_room(old(self)@, room@),
            lobby_wf(final(self)@),
            no_dup_owners(old(self)@) ==> no_dup_owners(final(self)@),
    {
        proof {
            if no_dup_owners(old(self)@) {
                lemma_merge_preserves_no_dup(old(self)@, room@);
            }
        }
        let n = self.rooms.len();
        let mut i: usize = 0;
        while i < n
            invariant
                n == self.rooms.len(),
                i <= n,
                self@ == old(self)@,
                forall|j: int|
                    0 <= j < i ==> #[trigger] self@.rooms[j].owner.player.id
                        != room@.owner.player.id,
            decreases n - i,
        {
            if self.rooms[i].owner.player.id == room.owner.player.id {
                proof {
                    assert(self@.rooms[i as int].owner.player.id == room@.owner.player.id);
                }
                return ;
            }
            i = i + 1;
        }
        proof {
            assert(!has_room_owned_by(self@.rooms, room@.owner.player.id));
        }
        let ghost before = self@;
        self.rooms.push(room);
        proof {
            assert(self@.rooms =~= before.rooms.push(room@));
            assert(final(self)@ =~= spec_merge_room(before, room@));
        }
    }

    /// Drops the rooms that do not survive the peer's disconnection.
    #[verifier::loop_isolation(false)]
    fn remove_room_by_peer(&mut self, peer: PeerId)
        requires
            lobby_wf(old(self)@),
        ensures
            final(self)@.rooms == spec_prune_rooms(old(self)@.rooms, peer),
            final(self)@.wait_players == old(self)@.wait_players,
            lobby_wf(final(self)@),
    {
        let ghost rv = self@.rooms;
        let n = self.rooms.len();
        let mut kept: Vec<Room> = Vec::new();
        let mut i: usize = 0;
        while i < n
            invariant
                n == self.rooms.len(),
                i <= n,
                self@ == old(self)@,
                rv == self@.rooms,
                lobby_wf(self@),
                rooms_view(kept@) == spec_prune_rooms(rv.take(i as int), peer),
                forall|k: int| 0 <= k < kept@.len() ==> room_wf(#[trigger] rooms_view(kept@)[k]),
            decreases n - i,
        {
            let room = &self.rooms[i];
            proof {
                assert(room@ == self@.rooms[i as int]);
            }
            let keep = !(room.owner.player.id == peer && room.occupant_count() <= 1);
            proof {
                assert(rv.take(i + 1).drop_last() =~= rv.take(i as int));
                assert(rv.take(i + 1).last() == rv[i as int]);
            }
            if keep {
                let ghost kept_before = rooms_view(kept@);
                let cloned = self.rooms[i].clone();
                kept.push(cloned);
                proof {
                    assert(rooms_view(kept@) =~= kept_before.push(rv[i as int]));
                }
            }
            i = i + 1;
        }
        proof {
            assert(rv.take(n as int) =~= rv);
        }
        self.rooms = kept;
    }

    /// Applies one connection transition: a connected peer enters the
    /// waiting list if absent; a disconnected peer leaves it and its
    /// abandoned solo room is dropped. After a disconnection the peer is
    /// never still on the waiting list.
    #[verifier::loop_isolation(false)]
    pub fn handle_peer_update(&mut self, peer: PeerId, st: ConnectionState)
        requires
            lobby_wf(old(self)@),
        ensures
            final(self)@ == spec_peer_step(old(self)@, peer, st),
            lobby_wf(final(self)@),
            st is Disconnected ==> !final(self)@.wait_players.contains(peer),
    {
        match st {
            ConnectionState::Connected => {
                let mut present: bool = false;
                let n = self.wait_players.len();
                let mut i: usize = 0;
                while i < n
                    invariant
                        n == self.wait_players.len(),
                        i <= n,
                        self@ == old(self)@,
                        present ==> self@.wait_players.contains(peer),
                        !present ==> forall|j: int|
                            0 <= j < i ==> self@.wait_players[j] != peer,
                    decreases n - i,
                {
                    if self.wait_players[i] == peer {
                        present = true;
                        proof {
                            assert(self@.wait_players[i as int] == peer);
                        }
                    }
                    i = i + 1;
                }
                proof {
                    if !present {
                        if self@.wait_players.contains(peer) {
                            let j = choose|j: int|
                                0 <= j < self@.wait_players.len() && self@.wait_players[j] == peer;
                            assert(false);
                        }
                    }
                }
                if !present {
                    let ghost before = self@;
                    self.wait_players.push(peer);
                    proof {
                        assert(final(self)@ =~= spec_peer_step(before, peer, st));
                    }
                }
            },
            ConnectionState::Disconnected => {
                let ghost before = self@;
                let wv = Ghost(self@.wait_players);
                let n = self.wait_players.len();
                let mut kept: Vec<PeerId> = Vec::new();
                let mut i: usize = 0;
                while i < n
                    invariant
                        n == self.wait_players.len(),
                        i <= n,
                        self@ == old(self)@,
                        wv@ == self@.wait_players,
                        kept@ == spec_remove_wait(wv@.take(i as int), peer),
                    decreases n - i,
                {
                    proof {
                        assert(wv@.take(i + 1).drop_last() =~= wv@.take(i as int));
                        assert(wv@.take(i + 1).last() == wv@[i as int]);
                    }
                    if self.wait_players[i] != peer {
                        kept.push(self.wait_players[i]);
                    }
                    i = i + 1;
                }
                proof {
                    assert(wv@.take(n as int) =~= wv@);
                }
                self.wait_players = kept;
                self.remove_room_by_peer(peer);
                proof {
                    lemma_remove_wait_removes(before.wait_players, peer);
                    assert(final(self)@ =~= spec_peer_step(before, peer, st));
                }
            },
        }
    }

    /// Applies a batch of connection transitions in order.
    #[verifier::loop_isolation(false)]
    pub fn observe_peer_transitions(&mut self, updates: &Vec<(PeerId, ConnectionState)>)
        requires
            lobby_wf(old(self)@),
        ensures
            final(self)@ == spec_observe(old(self)@, updates@),
            lobby_wf(final(self)@),
    {
        let n = updates.len();
        let mut i: usize = 0;
        while i < n
            invariant
                n == updates.len(),
                i <= n,
                lobby_wf(self@),
                self@ == spec_observe(old(self)@, updates@.take(i as int)),
            decreases n - i,
        {
            proof {
                assert(updates@.take(i + 1).drop_last() =~= updates@.take(i as int));
                assert(updates@.take(i + 1).last() == updates@[i as int]);
            }
            let (peer, st) = updates[i];
            self.handle_peer_update(peer, st);
            i = i + 1;
        }
        proof {
            assert(updates@.take(n as int) =~= updates@);
        }
    }
}

/// What a local "enter" action decided.
pub enum EnterAction {
    /// An open room was found: ask every one of its occupants for a seat.
    RequestJoin { targets: Vec<PeerId> },
    /// No open room: a fresh room was created and listed, with the local
    /// player seated as owner; the host moves into it at once.
    Created { room: Room },
}

/// What one lobby-phase event asked of the host.
pub enum LobbyAction {
    /// Nothing to do.
    Ignore,
    /// A join the local player requested was granted: move into this room.
    EnterRoom { room: Room },
}

/// The index of the first listed room with an empty seat, scanning from
/// index `i`.
pub open spec fn first_open_from(rooms: Seq<RoomV>, i: int) -> Option<int>
    recommends
        0 <= i,
    decreases rooms.len() - i,
{
    if i >= rooms.len() {
        None
    } else if room_has_empty_seat(rooms[i]) {
        Some(i)
    } else {
        first_open_from(rooms, i + 1)
    }
}

/// The index of the first listed room with an empty seat, if any.
pub open spec fn first_open_room(rooms: Seq<RoomV>) -> Option<int> {
    first_open_from(rooms, 0)
}

/// What one lobby-phase event does to the directory value: an announced
/// room is merged; an event the local player sent itself, and every other
/// kind of event, changes nothing.
pub open spec fn spec_lobby_step(l: LobbyV, local: PlayerV, ev: AddressedEventV) -> LobbyV {
    if ev.src.id == local.id {
        l
    } else {
        match ev.event {
            EventV::SyncRoom(room) => spec_merge_room(l, room),
            _ => l,
        }
    }
}

/// What a batch of lobby-phase events does, applied in order.
pub open spec fn spec_lobby_apply(l: LobbyV, local: PlayerV, evs: Seq<AddressedEventV>) -> LobbyV
    decreases evs.len(),
{
    if evs.len() == 0 {
        l
    } else {
        spec_lobby_step(spec_lobby_apply(l, local, evs.drop_last()), local, evs.last())
    }
}

/// The room an event moves the local player into: a granted join whose
/// announced room seats the local player, and that the local player did not
/// send itself.
pub open spec fn spec_enter_room_of(local: PlayerV, ev: AddressedEventV) -> Option<RoomV> {
    if ev.src.id == local.id {
        None
    } else {
        match ev.event {
            EventV::JoinRoomSuccess(room) => if room_seats_peer(room, local.id) {
                Some(room)
            } else {
                None
            },
            _ => None,
        }
    }
}

/// The rooms a batch of events moves the local player into, in order.
pub open spec fn spec_enter_actions(local: PlayerV, evs: Seq<AddressedEventV>) -> Seq<RoomV>
    decreases evs.len(),
{
    if evs.len() == 0 {
        Seq::<RoomV>::empty()
    } else {
        spec_enter_actions(local, evs.drop_last()) + (match spec_enter_room_of(
            local,
            evs.last(),
        ) {
            Some(room) => seq![room],
            None => Seq::<RoomV>::empty(),
        })
    }
}

impl Lobby {
    /// The local "enter" action: join the first listed room with an empty
    /// seat, asking all its occupants; with no open room, create one, seat
    /// the local player as owner, and move in at once.
    #[verifier::loop_isolation(false)]
    pub fn enter_room(&mut self, local: &Player) -> (a: EnterAction)
        requires
            lobby_wf(old(self)@),
        ensures
            lobby_wf(final(self)@),
            first_open_room(old(self)@.rooms) matches Some(k) ==> final(self)@ == old(self)@
                && (a matches EnterAction::RequestJoin { targets } && targets@ == occupied_ids(
                old(self)@.rooms[k],
            )),
            first_open_room(old(self)@.rooms) is None ==> (a matches EnterAction::Created { room }
                && room@ == spec_new_room(local@) && final(self)@.rooms == old(
                self,
            )@.rooms.push(room@) && final(self)@.wait_players == old(self)@.wait_players),
            first_open_room(old(self)@.rooms) is None && no_dup_owners(old(self)@)
                && !has_room_owned_by(old(self)@.rooms, local@.id) ==> no_dup_owners(
                final(self)@,
            ),
    {
        let n = self.rooms.len();
        let mut i: usize = 0;
        while i < n
            invariant
                n == self.rooms.len(),
                i <= n,
                self@ == old(self)@,
                first_open_from(self@.rooms, i as int) == first_open_room(self@.rooms),
            decreases n - i,
        {
            proof {
                assert(self.rooms@[i as int]@ == self@.rooms[i as int]);
            }
            if !self.rooms[i].is_full() {
                let room = &self.rooms[i];
                let mut targets: Vec<PeerId> = Vec::new();
                if let Some(rp) = &room.players[0] {
                    targets.push(rp.player.id);
                }
                proof {
                    assert(targets@ =~= crate::room::seat_id(room@.players[0]));
                }
                if let Some(rp) = &room.players[1] {
                    targets.push(rp.player.id);
                }
                proof {
                    assert(targets@ =~= crate::room::seat_id(room@.players[0]) + crate::room::seat_id(
                        room@.players[1],
                    ));
                }
                if let Some(rp) = &room.players[2] {
                    targets.push(rp.player.id);
                }
                proof {
                    assert(targets@ =~= occupied_ids(room@));
                    assert(first_open_from(self@.rooms, i as int) == Some(i as int));
                }
                return EnterAction::RequestJoin { targets };
            }
            i = i + 1;
        }
        proof {
            assert(first_open_from(self@.rooms, n as int) is None);
        }
        let room = Room::new(local.clone());
        let ghost before = self@;
        self.rooms.push(room.clone());
        proof {
            assert(self@.rooms =~= before.rooms.push(room@));
            if no_dup_owners(before) && !has_room_owned_by(before.rooms, local@.id) {
                lemma_merge_preserves_no_dup(before, room@);
                assert(self@.rooms == spec_merge_room(before, room@).rooms);
            }
        }
        EnterAction::Created { room }
    }

    /// Always creates a fresh room, regardless of listed rooms with space:
    /// the explicit "create" choice, distinct from "enter". The local player
    /// is seated as owner and the room is listed at once.
    pub fn create_room(&mut self, local: &Player) -> (room: Room)
        requires
            lobby_wf(old(self)@),
        ensures
            room@ == spec_new_room(local@),
            final(self)@.rooms == old(self)@.rooms.push(room@),
            final(self)@.wait_players == old(self)@.wait_players,
            lobby_wf(final(self)@),
            no_dup_owners(old(self)@) && !has_room_owned_by(old(self)@.rooms, local@.id)
                ==> no_dup_owners(final(self)@),
    {
        let room = Room::new(local.clone());
        let ghost before = self@;
        self.rooms.push(room.clone());
        proof {
            assert(self@.rooms =~= before.rooms.push(room@));
            if no_dup_owners(before) && !has_room_owned_by(before.rooms, local@.id) {
                lemma_merge_preserves_no_dup(before, room@);
                assert(self@.rooms == spec_merge_room(before, room@).rooms);
            }
        }
        room
    }

    /// Applies one incoming event to the directory. An event the local
    /// player sent itself is dropped; an announced room is merged; a
    /// granted join whose room seats the local player asks the host to move
    /// in; everything else, the diagnostic placeholder included, is ignored.
    pub fn apply_event(&mut self, local: &Player, ev: &AddressedEvent) -> (a: LobbyAction)
        requires
            lobby_wf(old(self)@),
            event_wf(ev@.event),
        ensures
            final(self)@ == spec_lobby_step(old(self)@, local@, ev@),
            lobby_wf(final(self)@),
            no_dup_owners(old(self)@) ==> no_dup_owners(final(self)@),
            ev@.src.id == local@.id ==> final(self)@ == old(self)@ && a is Ignore,
            spec_enter_room_of(local@, ev@) matches Some(room_v) ==> (a matches
                LobbyAction::EnterRoom { room } && room@ == room_v),
            spec_enter_room_of(local@, ev@) is None ==> a is Ignore,
    {
        if ev.src.id == local.id {
            return LobbyAction::Ignore;
        }
        match &ev.event {
            Event::SyncRoom(room) => {
                self.merge_room(room.clone());
                LobbyAction::Ignore
            },
            Event::JoinRoomSuccess(room) => {
                if room.seats_peer(local.id) {
                    LobbyAction::EnterRoom { room: room.clone() }
                } else {
                    LobbyAction::Ignore
                }
            },
            Event::JoinRoom => LobbyAction::Ignore,
            Event::Test(_) => LobbyAction::Ignore,
        }
    }

    /// Applies a batch of incoming events in order and collects the rooms
    /// the host is asked to move into.
    #[verifier::loop_isolation(false)]
    pub fn apply_events(&mut self, local: &Player, events: &Vec<AddressedEvent>) -> (to_enter:
        Vec<Room>)
        requires
            lobby_wf(old(self)@),
            forall|i: int| 0 <= i < events@.len() ==> event_wf(#[trigger] events@[i]@.event),
        ensures
            final(self)@ == spec_lobby_apply(old(self)@, local@, events_view(events@)),
            rooms_view(to_enter@) == spec_enter_actions(local@, events_view(events@)),
            lobby_wf(final(self)@),
            no_dup_owners(old(self)@) ==> no_dup_owners(final(self)@),
    {
        proof {
            if no_dup_owners(old(self)@) {
                lemma_apply_preserves_no_dup(old(self)@, local@, events_view(events@));
            }
        }
        let ghost evs = events_view(events@);
        let mut to_enter: Vec<Room> = Vec::new();
        let n = events.len();
        let mut i: usize = 0;
        while i < n
            invariant
                n == events.len(),
                i <= n,
                lobby_wf(self@),
                self@ == spec_lobby_apply(old(self)@, local@, evs.take(i as int)),
                rooms_view(to_enter@) == spec_enter_actions(local@, evs.take(i as int)),
            decreases n - i,
        {
            proof {
                assert(evs.take(i + 1).drop_last() =~= evs.take(i as int));
                assert(evs.take(i + 1).last() == evs[i as int]);
                assert(evs[i as int] == events@[i as int]@);
            }
            let a = self.apply_event(local, &events[i]);
            let ghost entered_before = rooms_view(to_enter@);
            match a {
                LobbyAction::EnterRoom { room } => {
                    to_enter.push(room);
                    proof {
                        assert(rooms_view(to_enter@) =~= entered_before.push(
                            spec_enter_room_of(local@, evs[i as int]).unwrap(),
                        ));
                        assert(rooms_view(to_enter@) =~= spec_enter_actions(
                            local@,
                            evs.take(i + 1),
                        ));
                    }
                },
                LobbyAction::Ignore => {
                    proof {
                        assert(rooms_view(to_enter@) =~= spec_enter_actions(
                            local@,
                            evs.take(i + 1),
                        ));
                    }
                },
            }
            i = i + 1;
        }
        proof {
            assert(evs.take(n as int) =~= evs);
        }
        to_enter
    }
}

impl Lobby {
    /// The lobby-phase receive path: decodes a batch of raw payloads,
    /// silently dropping malformed ones, applies the decoded events in
    /// order, and collects the rooms the host is asked to move into.
    pub fn receive(&mut self, local: &Player, payloads: &Vec<Vec<u8>>) -> (to_enter: Vec<Room>)
        requires
            lobby_wf(old(self)@),
        ensures
            lobby_wf(final(self)@),
            final(self)@ == spec_lobby_apply(
                old(self)@,
                local@,
                crate::codec::spec_decode_batch(crate::codec::payloads_view(payloads@)),
            ),
            rooms_view(to_enter@) == spec_enter_actions(
                local@,
                crate::codec::spec_decode_batch(crate::codec::payloads_view(payloads@)),
            ),
            no_dup_owners(old(self)@) ==> no_dup_owners(final(self)@),
    {
        let events = crate::codec::decode_batch(payloads);
        self.apply_events(local, &events)
    }
}

/// Merging the same room twice leaves the directory exactly as merging it
/// once: the second announcement finds its owner already listed.
pub proof fn lemma_merge_room_idempotent(l: LobbyV, room: RoomV)
    ensures
        spec_merge_room(spec_merge_room(l, room), room) == spec_merge_room(l, room),
{
    let l1 = spec_merge_room(l, room);
    if !has_room_owned_by(l.rooms, room.owner.player.id) {
        assert(l1.rooms[l.rooms.len() as int].owner.player.id == room.owner.player.id);
        assert(has_room_owned_by(l1.rooms, room.owner.player.id));
    }
}

/// Merging preserves owner uniqueness: a directory without duplicate owners
/// never acquires one through `merge_room`.
pub proof fn lemma_merge_preserves_no_dup(l: LobbyV, room: RoomV)
    requires
        no_dup_owners(l),
    ensures
        no_dup_owners(spec_merge_room(l, room)),
{
    if !has_room_owned_by(l.rooms, room.owner.player.id) {
        let merged = spec_merge_room(l, room);
        assert forall|i: int, j: int| 0 <= i < j < merged.rooms.len() implies #[trigger] merged
            .rooms[i].owner.player.id != #[trigger] merged.rooms[j].owner.player.id by {
            if j == l.rooms.len() {
                assert(merged.rooms[i] == l.rooms[i]);
            }
        }
    }
}

/// Owner uniqueness survives any batch of incoming events: every event is
/// either dropped or merged first-seen-wins, so a directory without
/// duplicate owners never acquires one on the receive path.
pub proof fn lemma_apply_preserves_no_dup(l: LobbyV, local: PlayerV, evs: Seq<AddressedEventV>)
    requires
        no_dup_owners(l),
    ensures
        no_dup_owners(spec_lobby_apply(l, local, evs)),
    decreases evs.len(),
{
    if evs.len() > 0 {
        lemma_apply_preserves_no_dup(l, local, evs.drop_last());
        let prev = spec_lobby_apply(l, local, evs.drop_last());
        let ev = evs.last();
        if ev.src.id != local.id {
            match ev.event {
                EventV::SyncRoom(room) => {
                    lemma_merge_preserves_no_dup(prev, room);
                },
                _ => {},
            }
        }
    }
}

/// After removal, the peer is gone from the waiting list, and nobody else
/// is: exactly the other entries survive, in order.
pub proof fn lemma_remove_wait_removes(wait: Seq<PeerId>, peer: PeerId)
    ensures
        !spec_remove_wait(wait, peer).contains(peer),
        forall|q: PeerId|
            q != peer ==> (#[trigger] spec_remove_wait(wait, peer).contains(q) <==> wait.contains(
                q,
            )),
    decreases wait.len(),
{
    if wait.len() == 0 {
        assert forall|q: PeerId| q != peer implies (#[trigger] spec_remove_wait(
            wait,
            peer,
        ).contains(q) <==> wait.contains(q)) by {
            assert(!wait.contains(q));
        }
    } else {
        let rest = wait.drop_last();
        lemma_remove_wait_removes(rest, peer);
        let removed = spec_remove_wait(wait, peer);
        let removed_rest = spec_remove_wait(rest, peer);
        assert(!removed.contains(peer)) by {
            if wait.last() != peer {
                if removed.contains(peer) {
                    let i = choose|i: int| 0 <= i < removed.len() && removed[i] == peer;
                    if i < removed_rest.len() {
                        assert(removed_rest[i] == peer);
                    }
                }
            }
        }
        assert forall|q: PeerId| q != peer implies (#[trigger] removed.contains(q)
            <==> wait.contains(q)) by {
            if removed.contains(q) {
                let i = choose|i: int| 0 <= i < removed.len() && removed[i] == q;
                if i < removed_rest.len() {
                    assert(removed_rest[i] == q);
                    assert(removed_rest.contains(q));
                    let k = choose|k: int| 0 <= k < rest.len() && rest[k] == q;
                    assert(wait[k] == q);
                } else {
                    assert(wait.last() == q);
                    assert(wait[wait.len() - 1] == q);
                }
            }
            if wait.contains(q) {
                let i = choose|i: int| 0 <= i < wait.len() && wait[i] == q;
                if i < wait.len() - 1 {
                    assert(rest[i] == q);
                    assert(rest.contains(q));
                    assert(removed_rest.contains(q));
                    let k = choose|k: int| 0 <= k < removed_rest.len() && removed_rest[k] == q;
                    if wait.last() != peer {
                        assert(removed[k] == q);
                    }
                } else {
                    assert(wait.last() == q);
                    if wait.last() != peer {
                        assert(removed.last() == q);
                    }
                }
            }
        }
    }
}

/// Pruning keeps exactly the rooms that survive the disconnection: no
/// abandoned solo room of the peer remains, and every other room stays.
pub proof fn lemma_prune_rooms_membership(rooms: Seq<RoomV>, peer: PeerId)
    ensures
        forall|r: RoomV|
            #[trigger] spec_prune_rooms(rooms, peer).contains(r) <==> (rooms.contains(r)
                && room_kept_on_disconnect(r, peer)),
    decreases rooms.len(),
{
    if rooms.len() == 0 {
        assert forall|r: RoomV| #[trigger] spec_prune_rooms(rooms, peer).contains(r) <==> (
        rooms.contains(r) && room_kept_on_disconnect(r, peer)) by {
            assert(!rooms.contains(r));
            assert(!spec_prune_rooms(rooms, peer).contains(r));
        }
    } else {
        let rest = rooms.drop_last();
        lemma_prune_rooms_membership(rest, peer);
        let pruned = spec_prune_rooms(rooms, peer);
        let pruned_rest = spec_prune_rooms(rest, peer);
        assert forall|r: RoomV| #[trigger] pruned.contains(r) <==> (rooms.contains(r)
            && room_kept_on_disconnect(r, peer)) by {
            if pruned.contains(r) {
                let i = choose|i: int| 0 <= i < pruned.len() && pruned[i] == r;
                if i < pruned_rest.len() {
                    assert(pruned_rest[i] == r);
                    assert(pruned_rest.contains(r));
                    let k = choose|k: int| 0 <= k < rest.len() && rest[k] == r;
                    assert(rooms[k] == r);
                } else {
                    assert(room_kept_on_disconnect(rooms.last(), peer));
                    assert(rooms[rooms.len() - 1] == r);
                }
            }
            if rooms.contains(r) && room_kept_on_disconnect(r, peer) {
                let i = choose|i: int| 0 <= i < rooms.len() && rooms[i] == r;
                if i < rooms.len() - 1 {
                    assert(rest[i] == r);
                    assert(rest.contains(r));
                    assert(pruned_rest.contains(r));
                    let k = choose|k: int| 0 <= k < pruned_rest.len() && pruned_rest[k] == r;
                    if room_kept_on_disconnect(rooms.last(), peer) {
                        assert(pruned[k] == r);
                    }
                } else {
                    assert(rooms.last() == r);
                    assert(pruned.last() == r);
                }
            }
        }
    }
}

} // verus!
