//! A single room: three seats, an owner mirroring seat 0, and the join
//! protocol. A room is *full* once all three seats are occupied; the dirty
//! flag `changed` drives the periodic full-state rebroadcast that repairs
//! divergence between peers.

use vstd::prelude::*;

use crate::events::{events_view, AddressedEvent, AddressedEventV, Event, EventV};
use crate::ids::PeerId;
use crate::player::{Player, PlayerV};

verus! {

/// A player together with the seat it occupies inside one room.
#[derive(Debug)]
pub struct RoomPlayer {
    pub player: Player,
    pub room_position: i8,
}

/// The mathematical value of a `RoomPlayer`.
#[verifier::ext_equal]
pub ghost struct RoomPlayerV {
    pub player: PlayerV,
    pub room_position: i8,
}

impl View for RoomPlayer {
    type V = RoomPlayerV;

    open spec fn view(&self) -> RoomPlayerV {
        RoomPlayerV { player: self.player@, room_position: self.room_position }
    }
}

impl Clone for RoomPlayer {
    /// A clone keeps the player and the seat index.
    fn clone(&self) -> (r: Self)
        ensures
            r@ == self@,
    {
        RoomPlayer { player: self.player.clone(), room_position: self.room_position }
    }
}

/// One room's local state: the three seats, the owner (kept in step with
/// seat 0), and the dirty flag for the next rebroadcast.
#[derive(Debug)]
pub struct Room {
    pub players: Vec<Option<RoomPlayer>>,
    pub owner: RoomPlayer,
    pub changed: bool,
}

/// The mathematical value of a `Room`.
#[verifier::ext_equal]
pub ghost struct RoomV {
    pub players: Seq<Option<RoomPlayerV>>,
    pub owner: RoomPlayerV,
    pub changed: bool,
}

/// The seat as seen in the room's mathematical value.
pub open spec fn seat_view(s: Option<RoomPlayer>) -> Option<RoomPlayerV> {
    match s {
        Some(rp) => Some(rp@),
        None => None,
    }
}

impl View for Room {
    type V = RoomV;

    open spec fn view(&self) -> RoomV {
        RoomV {
            players: self.players@.map_values(|s: Option<RoomPlayer>| seat_view(s)),
            owner: self.owner@,
            changed: self.changed,
        }
    }
}

/// A room always has exactly three seats.
pub open spec fn room_wf(r: RoomV) -> bool {
    r.players.len() == 3
}

/// 1 for an occupied seat, 0 for an empty one.
pub open spec fn seat_occ(s: Option<RoomPlayerV>) -> int {
    if s is Some {
        1
    } else {
        0
    }
}

/// How many of the three seats are occupied.
pub open spec fn room_occupant_count(r: RoomV) -> int
    recommends
        room_wf(r),
{
    seat_occ(r.players[0]) + seat_occ(r.players[1]) + seat_occ(r.players[2])
}

/// Whether some seat is still empty.
pub open spec fn room_has_empty_seat(r: RoomV) -> bool
    recommends
        room_wf(r),
{
    r.players[0] is None || r.players[1] is None || r.players[2] is None
}

/// All three seats are occupied.
pub open spec fn room_is_full(r: RoomV) -> bool
    recommends
        room_wf(r),
{
    !room_has_empty_seat(r)
}

/// The leftmost empty seat.
pub open spec fn first_empty_seat(r: RoomV) -> int
    recommends
        room_wf(r),
        room_has_empty_seat(r),
{
    if r.players[0] is None {
        0
    } else if r.players[1] is None {
        1
    } else {
        2
    }
}

/// What `join` does to a room's value: the candidate takes the leftmost
/// empty seat and the dirty flag is raised; a full room is left untouched.
pub open spec fn spec_join(r: RoomV, candidate: PlayerV) -> RoomV
    recommends
        room_wf(r),
{
    if room_has_empty_seat(r) {
        RoomV {
            players: r.players.update(
                first_empty_seat(r),
                Some(
                    RoomPlayerV {
                        player: candidate,
                        room_position: first_empty_seat(r) as i8,
                    },
                ),
            ),
            owner: r.owner,
            changed: true,
        }
    } else {
        r
    }
}

/// The value of a freshly created room: its creator seated at seat 0,
/// mirrored as owner, dirty and ready to be announced.
pub open spec fn spec_new_room(creator: PlayerV) -> RoomV {
    RoomV {
        players: seq![
            Some((RoomPlayerV { player: creator, room_position: 0 })),
            None,
            None,
        ],
        owner: RoomPlayerV { player: creator, room_position: 0 },
        changed: true,
    }
}

/// The identifier the seat contributes to an address list, if occupied.
pub open spec fn seat_id(s: Option<RoomPlayerV>) -> Seq<PeerId> {
    match s {
        Some(rp) => seq![rp.player.id],
        None => Seq::<PeerId>::empty(),
    }
}

/// The identifiers of all occupied seats, left to right.
pub open spec fn occupied_ids(r: RoomV) -> Seq<PeerId>
    recommends
        room_wf(r),
{
    seat_id(r.players[0]) + seat_id(r.players[1]) + seat_id(r.players[2])
}

/// Whether the peer with the given identifier holds one of the seats.
pub open spec fn room_seats_peer(r: RoomV, id: PeerId) -> bool
    recommends
        room_wf(r),
{
    ||| (r.players[0] matches Some(rp) && rp.player.id == id)
    ||| (r.players[1] matches Some(rp) && rp.player.id == id)
    ||| (r.players[2] matches Some(rp) && rp.player.id == id)
}

impl Clone for Room {
    /// A clone carries the same seats, owner and dirty flag.
    fn clone(&self) -> (r: Self)
        ensures
            r@ == self@,
    {
        let players = self.players.clone();
        proof {
            assert(players@.map_values(|s: Option<RoomPlayer>| seat_view(s)) =~= self@.players);
        }
        Room { players, owner: self.owner.clone(), changed: self.changed }
    }
}

impl PartialEq for Room {
    /// Rooms are identified by their owner: two views of the same room may
    /// differ in seats while gossip is still converging.
    fn eq(&self, other: &Self) -> (r: bool) {
        self.owner.player.id == other.owner.player.id
    }
}

impl vstd::std_specs::cmp::PartialEqSpecImpl for Room {
    open spec fn obeys_eq_spec() -> bool {
        true
    }

    open spec fn eq_spec(&self, other: &Self) -> bool {
        self.owner.player.id == other.owner.player.id
    }
}

impl Room {
    /// Creates a room with the given player seated at seat 0 as owner. The
    /// dirty flag starts raised so the room is announced on the next tick.
    pub fn new(player: Player) -> (r: Room)
        ensures
            room_wf(r@),
            r@.players[0] == Some((RoomPlayerV { player: player@, room_position: 0 })),
            r@.players[1] is None,
            r@.players[2] is None,
            r@.owner == (RoomPlayerV { player: player@, room_position: 0 }),
            r@.changed,
            room_occupant_count(r@) == 1,
            r@ == spec_new_room(player@),
    {
        let room_player = RoomPlayer { player, room_position: 0 };
        let seat0 = room_player.clone();
        let r = Room { players: vec![Some(seat0), None, None], owner: room_player, changed: true };
        proof {
            assert(r@.players =~= seq![
                Some((RoomPlayerV { player: r.owner.player@, room_position: 0 })),
                None,
                None,
            ]);
        }
        r
    }

    /// How many seats are occupied.
    pub fn occupant_count(&self) -> (n: usize)
        requires
            room_wf(self@),
        ensures
            n == room_occupant_count(self@),
    {
        let mut n: usize = 0;
        if self.players[0].is_some() {
            n = n + 1;
        }
        if self.players[1].is_some() {
            n = n + 1;
        }
        if self.players[2].is_some() {
            n = n + 1;
        }
        n
    }

    /// All three seats are occupied.
    pub fn is_full(&self) -> (b: bool)
        requires
            room_wf(self@),
        ensures
            b == room_is_full(self@),
    {
        self.players[0].is_some() && self.players[1].is_some() && self.players[2].is_some()
    }

    /// Whether the peer with the given identifier holds one of the seats.
    pub fn seats_peer(&self, id: PeerId) -> (b: bool)
        requires
            room_wf(self@),
        ensures
            b == room_seats_peer(self@, id),
    {
        let mut b: bool = false;
        if let Some(rp) = &self.players[0] {
            if rp.player.id == id {
                b = true;
            }
        }
        if let Some(rp) = &self.players[1] {
            if rp.player.id == id {
                b = true;
            }
        }
        if let Some(rp) = &self.players[2] {
            if rp.player.id == id {
                b = true;
            }
        }
        b
    }

    /// Seats the candidate at the leftmost empty seat, raising the dirty
    /// flag, and reports whether a seat was found. A full room is not
    /// changed: the caller must not grant the join.
    pub fn join(&mut self, player: Player) -> (granted: bool)
        requires
            room_wf(old(self)@),
        ensures
            room_wf(final(self)@),
            granted == room_has_empty_seat(old(self)@),
            final(self)@ == spec_join(old(self)@, player@),
            room_occupant_count(final(self)@) >= room_occupant_count(old(self)@),
            granted ==> room_occupant_count(final(self)@) == room_occupant_count(old(self)@) + 1,
    {
        let granted: bool;
        if self.players[0].is_none() {
            self.players[0] = Some(RoomPlayer { player, room_position: 0 });
            self.changed = true;
            granted = true;
        } else if self.players[1].is_none() {
            self.players[1] = Some(RoomPlayer { player, room_position: 1 });
            self.changed = true;
            granted = true;
        } else if self.players[2].is_none() {
            self.players[2] = Some(RoomPlayer { player, room_position: 2 });
            self.changed = true;
            granted = true;
        } else {
            granted = false;
        }
        proof {
            if room_has_empty_seat(old(self)@) {
                assert(self@.players =~= spec_join(old(self)@, player@).players);
            } else {
                assert(self@.players =~= old(self)@.players);
            }
        }
        granted
    }
}

/// What a room does in reaction to one incoming event.
pub enum RoomAction {
    /// Nothing to do or send.
    Ignore,
    /// A join was granted: announce the room after the join to `targets`.
    SendJoinSuccess { targets: Vec<PeerId>, room: Room },
}

/// What one tick of the room hands back to its host.
pub struct RoomTick {
    /// The snapshot to gossip to all connected peers, when the room was
    /// dirty at the start of the tick.
    pub broadcast: Option<Room>,
    /// The room is full: the host should advance out of the lobby phases.
    pub ready: bool,
}

/// The identifier the seat contributes to an address list, unless it is
/// empty or holds the excluded peer.
pub open spec fn seat_id_contrib(s: Option<RoomPlayerV>, excl: PeerId) -> Seq<PeerId> {
    match s {
        Some(rp) => if rp.player.id != excl {
            seq![rp.player.id]
        } else {
            Seq::<PeerId>::empty()
        },
        None => Seq::<PeerId>::empty(),
    }
}

/// The identifiers of all occupied seats, left to right, except `excl`.
pub open spec fn occupied_ids_except(r: RoomV, excl: PeerId) -> Seq<PeerId>
    recommends
        room_wf(r),
{
    seat_id_contrib(r.players[0], excl) + seat_id_contrib(r.players[1], excl) + seat_id_contrib(
        r.players[2],
        excl,
    )
}

/// Where a granted join is announced: every seated peer other than the
/// granting one, and the joining peer itself.
pub open spec fn grant_targets(room_after: RoomV, granting: PeerId, joiner: PeerId) -> Seq<PeerId>
    recommends
        room_wf(room_after),
{
    occupied_ids_except(room_after, granting).push(joiner)
}

impl Room {
    /// Handles a `JoinRoom` request from `src`: seats the requester if a
    /// seat is empty and names the peers that must hear the grant — every
    /// seated peer except the local one, plus the requester.
    pub fn grant_join(&mut self, local: &Player, src: &Player) -> (r: Option<Vec<PeerId>>)
        requires
            room_wf(old(self)@),
        ensures
            room_wf(final(self)@),
            final(self)@ == spec_join(old(self)@, src@),
            r is Some <==> room_has_empty_seat(old(self)@),
            r matches Some(targets) ==> targets@ == grant_targets(
                final(self)@,
                local@.id,
                src@.id,
            ),
    {
        if self.join(src.clone()) {
            let mut peers: Vec<PeerId> = Vec::new();
            if let Some(rp) = &self.players[0] {
                if rp.player.id != local.id {
                    peers.push(rp.player.id);
                }
            }
            proof {
                assert(peers@ =~= seat_id_contrib(self@.players[0], local@.id));
            }
            if let Some(rp) = &self.players[1] {
                if rp.player.id != local.id {
                    peers.push(rp.player.id);
                }
            }
            proof {
                assert(peers@ =~= seat_id_contrib(self@.players[0], local@.id)
                    + seat_id_contrib(self@.players[1], local@.id));
            }
            if let Some(rp) = &self.players[2] {
                if rp.player.id != local.id {
                    peers.push(rp.player.id);
                }
            }
            proof {
                assert(peers@ =~= occupied_ids_except(self@, local@.id));
            }
            peers.push(src.id);
            Some(peers)
        } else {
            None
        }
    }

    /// Applies one incoming event to the room. An event the local player
    /// sent itself is dropped; a `JoinRoom` request is granted when a seat
    /// is empty; every other message leaves the room untouched.
    pub fn apply_event(&mut self, local: &Player, ev: &AddressedEvent) -> (r: RoomAction)
        requires
            room_wf(old(self)@),
        ensures
            room_wf(final(self)@),
            ev@.src.id == local@.id ==> final(self)@ == old(self)@ && r is Ignore,
            ev@.src.id != local@.id && !(ev@.event is JoinRoom) ==> final(self)@ == old(self)@
                && r is Ignore,
            ev@.src.id != local@.id && ev@.event is JoinRoom ==> {
                &&& final(self)@ == spec_join(old(self)@, ev@.src)
                &&& (room_has_empty_seat(old(self)@) <==> r matches
                    RoomAction::SendJoinSuccess { targets, room })
                &&& (r matches RoomAction::SendJoinSuccess { targets, room } ==> targets@
                    == grant_targets(final(self)@, local@.id, ev@.src.id)
                    && room@ == final(self)@)
            },
    {
        if ev.src.id == local.id {
            return RoomAction::Ignore;
        }
        match &ev.event {
            Event::JoinRoom => {
                match self.grant_join(local, &ev.src) {
                    Some(targets) => RoomAction::SendJoinSuccess {
                        targets,
                        room: self.clone(),
                    },
                    None => RoomAction::Ignore,
                }
            },
            _ => RoomAction::Ignore,
        }
    }

    /// One tick of the room's host loop: hand out the gossip snapshot if the
    /// room was dirty, mirror seat 0 into the owner, clear the dirty flag,
    /// and report whether the room is full and ready to leave the lobby.
    pub fn tick(&mut self) -> (t: RoomTick)
        requires
            room_wf(old(self)@),
        ensures
            room_wf(final(self)@),
            old(self)@.changed ==> (t.broadcast matches Some(snap) && snap@ == old(self)@),
            !old(self)@.changed ==> t.broadcast is None,
            final(self)@.players == old(self)@.players,
            old(self)@.players[0] matches Some(rp) ==> final(self)@.owner == rp,
            old(self)@.players[0] is None ==> final(self)@.owner == old(self)@.owner,
            !final(self)@.changed,
            t.ready == room_is_full(old(self)@),
    {
        let broadcast = if self.changed {
            Some(self.clone())
        } else {
            None
        };
        let new_owner = match &self.players[0] {
            Some(first) => Some(first.clone()),
            None => None,
        };
        if let Some(owner) = new_owner {
            self.owner = owner;
        }
        self.changed = false;
        let ready = self.is_full();
        RoomTick { broadcast, ready }
    }
}

/// What one incoming event does to a room's value: a join request from
/// another peer seats its sender; everything else, and anything the local
/// player sent itself, changes nothing.
pub open spec fn spec_room_step(r: RoomV, local: PlayerV, ev: AddressedEventV) -> RoomV
    recommends
        room_wf(r),
{
    if ev.src.id == local.id {
        r
    } else {
        match ev.event {
            EventV::JoinRoom => spec_join(r, ev.src),
            _ => r,
        }
    }
}

/// What a batch of incoming events does to a room's value, in order.
pub open spec fn spec_room_apply(r: RoomV, local: PlayerV, evs: Seq<AddressedEventV>) -> RoomV
    decreases evs.len(),
{
    if evs.len() == 0 {
        r
    } else {
        spec_room_step(spec_room_apply(r, local, evs.drop_last()), local, evs.last())
    }
}

/// The announcement one incoming event asks the room's host to send: for a
/// granted join, the address list and the room after the join.
pub open spec fn spec_room_action(r: RoomV, local: PlayerV, ev: AddressedEventV) -> Option<
    (Seq<PeerId>, RoomV),
>
    recommends
        room_wf(r),
{
    if ev.src.id == local.id {
        None
    } else {
        match ev.event {
            EventV::JoinRoom => if room_has_empty_seat(r) {
                Some(
                    (
                        grant_targets(spec_join(r, ev.src), local.id, ev.src.id),
                        spec_join(r, ev.src),
                    ),
                )
            } else {
                None
            },
            _ => None,
        }
    }
}

/// The announcements a batch of incoming events asks the host to send.
pub open spec fn spec_room_actions(r: RoomV, local: PlayerV, evs: Seq<AddressedEventV>) -> Seq<
    (Seq<PeerId>, RoomV),
>
    decreases evs.len(),
{
    if evs.len() == 0 {
        Seq::<(Seq<PeerId>, RoomV)>::empty()
    } else {
        spec_room_actions(r, local, evs.drop_last()) + (match spec_room_action(
            spec_room_apply(r, local, evs.drop_last()),
            local,
            evs.last(),
        ) {
            Some(a) => seq![a],
            None => Seq::<(Seq<PeerId>, RoomV)>::empty(),
        })
    }
}

/// The mathematical value of a list of granted-join announcements.
pub open spec fn actions_view(acts: Seq<(Vec<PeerId>, Room)>) -> Seq<(Seq<PeerId>, RoomV)> {
    acts.map_values(|a: (Vec<PeerId>, Room)| (a.0@, a.1@))
}

impl Room {
    /// Applies a batch of incoming events in order and collects the grant
    /// announcements to send: for each granted join, the address list and
    /// the room as announced.
    #[verifier::loop_isolation(false)]
    pub fn apply_events(&mut self, local: &Player, events: &Vec<AddressedEvent>) -> (acts: Vec<
        (Vec<PeerId>, Room),
    >)
        requires
            room_wf(old(self)@),
        ensures
            room_wf(final(self)@),
            final(self)@ == spec_room_apply(old(self)@, local@, events_view(events@)),
            actions_view(acts@) == spec_room_actions(old(self)@, local@, events_view(events@)),
    {
        let ghost evs = events_view(events@);
        let mut acts: Vec<(Vec<PeerId>, Room)> = Vec::new();
        let n = events.len();
        let mut i: usize = 0;
        while i < n
            invariant
                n == events.len(),
                i <= n,
                room_wf(self@),
                self@ == spec_room_apply(old(self)@, local@, evs.take(i as int)),
                actions_view(acts@) == spec_room_actions(old(self)@, local@, evs.take(i as int)),
            decreases n - i,
        {
            proof {
                assert(evs.take(i + 1).drop_last() =~= evs.take(i as int));
                assert(evs.take(i + 1).last() == evs[i as int]);
                assert(evs[i as int] == events@[i as int]@);
            }
            let a = self.apply_event(local, &events[i]);
            let ghost acts_before = actions_view(acts@);
            match a {
                RoomAction::SendJoinSuccess { targets, room } => {
                    acts.push((targets, room));
                    proof {
                        assert(actions_view(acts@) =~= acts_before.push(
                            spec_room_action(
                                spec_room_apply(old(self)@, local@, evs.take(i as int)),
                                local@,
                                evs[i as int],
                            ).unwrap(),
                        ));
                        assert(actions_view(acts@) =~= spec_room_actions(
                            old(self)@,
                            local@,
                            evs.take(i + 1),
                        ));
                    }
                },
                RoomAction::Ignore => {
                    proof {
                        assert(actions_view(acts@) =~= spec_room_actions(
                            old(self)@,
                            local@,
                            evs.take(i + 1),
                        ));
                    }
                },
            }
            i = i + 1;
        }
        proof {
            assert(evs.take(n as int) =~= evs);
        }
        acts
    }

    /// The room-phase receive path: decodes a batch of raw payloads,
    /// silently dropping malformed ones, applies the decoded events in
    /// order, and collects the grant announcements to send.
    pub fn receive(&mut self, local: &Player, payloads: &Vec<Vec<u8>>) -> (acts: Vec<
        (Vec<PeerId>, Room),
    >)
        requires
            room_wf(old(self)@),
        ensures
            room_wf(final(self)@),
            final(self)@ == spec_room_apply(
                old(self)@,
                local@,
                crate::codec::spec_decode_batch(crate::codec::payloads_view(payloads@)),
            ),
            actions_view(acts@) == spec_room_actions(
                old(self)@,
                local@,
                crate::codec::spec_decode_batch(crate::codec::payloads_view(payloads@)),
            ),
    {
        let events = crate::codec::decode_batch(payloads);
        self.apply_events(local, &events)
    }
}

/// `join` never decreases the occupant count.
pub proof fn lemma_join_monotonic(r: RoomV, candidate: PlayerV)
    requires
        room_wf(r),
    ensures
        room_occupant_count(spec_join(r, candidate)) >= room_occupant_count(r),
{
}

/// Two sequential joins on a room holding only its seated owner put the
/// candidates at seats 1 and 2, in that order, and never touch seat 0.
pub proof fn lemma_two_joins_take_seats_one_and_two(r: RoomV, b: PlayerV, c: PlayerV)
    requires
        room_wf(r),
        room_occupant_count(r) == 1,
        r.players[0] is Some,
    ensures
        spec_join(r, b).players[0] == r.players[0],
        spec_join(r, b).players[1] == Some((RoomPlayerV { player: b, room_position: 1 })),
        spec_join(spec_join(r, b), c).players[0] == r.players[0],
        spec_join(spec_join(r, b), c).players[1] == Some(
            (RoomPlayerV { player: b, room_position: 1 }),
        ),
        spec_join(spec_join(r, b), c).players[2] == Some(
            (RoomPlayerV { player: c, room_position: 2 }),
        ),
        room_is_full(spec_join(spec_join(r, b), c)),
{
}

/// Once the third seat is taken, a further join returns the room unchanged.
pub proof fn lemma_full_room_join_is_noop(r: RoomV, candidate: PlayerV)
    requires
        room_wf(r),
        room_is_full(r),
    ensures
        spec_join(r, candidate) == r,
        !room_has_empty_seat(r),
{
}

} // verus!
