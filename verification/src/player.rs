//! The local participant and remote participants, as carried in room and
//! lobby views. Two players are the same player exactly when their peer
//! identifiers are equal; the rest of the record is per-peer game state.

use vstd::prelude::*;

use crate::cards::Card;
use crate::ids::PeerId;

verus! {

/// Where a peer stands with respect to rooms.
#[derive(Clone, Copy, Debug, PartialEq, Eq, Structural)]
pub enum RoomState {
    Free,
    Waiting,
    Gaming,
}

impl Default for RoomState {
    /// A peer starts outside any room.
    fn default() -> (r: Self)
        ensures
            r == RoomState::Free,
    {
        RoomState::Free
    }
}

/// One participant: the stable connection identifier plus per-player game
/// state (hand placeholder and turn flag).
#[derive(Debug)]
pub struct Player {
    pub id: PeerId,
    pub room_state: Option<RoomState>,
    pub room_index: Option<i32>,
    pub current_round: bool,
    pub hand_cards: Vec<Card>,
}

/// The mathematical value of a `Player`.
pub ghost struct PlayerV {
    pub id: PeerId,
    pub room_state: Option<RoomState>,
    pub room_index: Option<i32>,
    pub current_round: bool,
    pub hand_cards: Seq<Card>,
}

impl View for Player {
    type V = PlayerV;

    open spec fn view(&self) -> PlayerV {
        PlayerV {
            id: self.id,
            room_state: self.room_state,
            room_index: self.room_index,
            current_round: self.current_round,
            hand_cards: self.hand_cards@,
        }
    }
}

impl Clone for Player {
    /// A clone carries the same identifier and the same game state.
    fn clone(&self) -> (r: Self)
        ensures
            r@ == self@,
    {
        let hand = self.hand_cards.clone();
        proof {
            assert(hand@ =~= self.hand_cards@);
        }
        Player {
            id: self.id,
            room_state: self.room_state,
            room_index: self.room_index,
            current_round: self.current_round,
            hand_cards: hand,
        }
    }
}

impl PartialEq for Player {
    /// Players are compared by identifier alone.
    fn eq(&self, other: &Self) -> (r: bool) {
        self.id == other.id
    }
}

impl vstd::std_specs::cmp::PartialEqSpecImpl for Player {
    open spec fn obeys_eq_spec() -> bool {
        true
    }

    open spec fn eq_spec(&self, other: &Self) -> bool {
        self.id == other.id
    }
}

impl Player {
    /// A fresh participant for the given connection: no room, no cards, not
    /// this peer's turn.
    pub fn new(peer: PeerId) -> (p: Player)
        ensures
            p@.id == peer,
            p@.room_state is None,
            p@.room_index is None,
            !p@.current_round,
            p@.hand_cards == Seq::<Card>::empty(),
    {
        let p = Player {
            id: peer,
            room_index: None,
            current_round: false,
            room_state: None,
            hand_cards: Vec::with_capacity(51 / 3),
        };
        proof {
            assert(p.hand_cards@ =~= Seq::<Card>::empty());
        }
        p
    }
}

} // verus!
