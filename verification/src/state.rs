//! The top-level application phases and how terminal lobby conditions
//! advance them. The host runs lobby systems only in `Lobby`, room systems
//! only in `InRoom`, and moves toward dealing once a room is full.

use vstd::prelude::*;

verus! {

/// The application phase, gating which subsystems run.
#[derive(Clone, Copy, Debug, PartialEq, Eq, Hash, Structural)]
pub enum AppState {
    Loading,
    StartMenu,
    Lobby,
    InRoom,
    DealCard,
    Playing,
    Paused,
    GameOver,
}

impl Default for AppState {
    /// The application starts loading assets.
    fn default() -> (s: Self)
        ensures
            s == AppState::Loading,
    {
        AppState::Loading
    }
}

impl AppState {
    /// The phase after a room reports itself full: from the lobby phases the
    /// host advances to dealing; any other phase is unaffected.
    pub fn on_room_ready(self) -> (s: AppState)
        ensures
            (self == AppState::Lobby || self == AppState::InRoom) ==> s == AppState::DealCard,
            !(self == AppState::Lobby || self == AppState::InRoom) ==> s == self,
    {
        match self {
            AppState::Lobby => AppState::DealCard,
            AppState::InRoom => AppState::DealCard,
            _ => self,
        }
    }
}

} // verus!
