//! The closed set of application messages and the wire envelope.
//!
//! Every payload on the data channel carries one `AddressedEvent`: the
//! logical sender plus one `Event`. The sender lets a peer drop its own
//! broadcasts that come back to it.

use vstd::prelude::*;

use crate::player::{Player, PlayerV};
use crate::room::{room_wf, Room, RoomV};

verus! {

/// An event is well formed when any room it carries has its three seats.
pub open spec fn event_wf(e: EventV) -> bool {
    match e {
        EventV::SyncRoom(room) => room_wf(room),
        EventV::JoinRoomSuccess(room) => room_wf(room),
        _ => true,
    }
}

/// One application message.
///
/// `Test` is a diagnostic placeholder: it must survive in the wire format
/// but triggers no behaviour.
#[derive(Debug)]
pub enum Event {
    /// Gossip of a room's current membership.
    SyncRoom(Room),
    /// "I request to occupy an empty seat in your room."
    JoinRoom,
    /// Reply to a granted join, carrying the room after the join.
    JoinRoomSuccess(Room),
    /// Diagnostic placeholder; never acted upon.
    Test(i32),
}

/// The mathematical value of an `Event`.
pub ghost enum EventV {
    SyncRoom(RoomV),
    JoinRoom,
    JoinRoomSuccess(RoomV),
    Test(i32),
}

impl View for Event {
    type V = EventV;

    open spec fn view(&self) -> EventV {
        match self {
            Event::SyncRoom(room) => EventV::SyncRoom(room@),
            Event::JoinRoom => EventV::JoinRoom,
            Event::JoinRoomSuccess(room) => EventV::JoinRoomSuccess(room@),
            Event::Test(n) => EventV::Test(*n),
        }
    }
}

impl Clone for Event {
    /// A clone carries the same message.
    fn clone(&self) -> (r: Self)
        ensures
            r@ == self@,
    {
        match self {
            Event::SyncRoom(room) => Event::SyncRoom(room.clone()),
            Event::JoinRoom => Event::JoinRoom,
            Event::JoinRoomSuccess(room) => Event::JoinRoomSuccess(room.clone()),
            Event::Test(n) => Event::Test(*n),
        }
    }
}

/// The wire envelope: the logical sender and the message.
#[derive(Debug)]
pub struct AddressedEvent {
    pub src: Player,
    pub event: Event,
}

/// The mathematical value of an `AddressedEvent`.
pub ghost struct AddressedEventV {
    pub src: PlayerV,
    pub event: EventV,
}

impl View for AddressedEvent {
    type V = AddressedEventV;

    open spec fn view(&self) -> AddressedEventV {
        AddressedEventV { src: self.src@, event: self.event@ }
    }
}

impl Clone for AddressedEvent {
    /// A clone carries the same sender and message.
    fn clone(&self) -> (r: Self)
        ensures
            r@ == self@,
    {
        AddressedEvent { src: self.src.clone(), event: self.event.clone() }
    }
}

/// The values of a sequence of addressed events.
pub open spec fn events_view(evs: Seq<AddressedEvent>) -> Seq<AddressedEventV> {
    evs.map_values(|e: AddressedEvent| e@)
}

} // verus!
