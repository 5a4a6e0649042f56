//! The requests and timer events the coordinator accepts, as plain data.
use vstd::prelude::*;

use crate::player::Player;

verus! {

/// Create a room and return its id.
pub struct CreateRoomMsg {}

/// A player asks to join a room.
pub struct JoinRoomMsg {
    pub player: Player,
    pub room_id: String,
}

/// A player asks for their full room view after a reload.
pub struct InitMsg {
    pub user_id: String,
}

/// A full room view by room id.
pub struct GetRoomInfoMsg {
    pub id: String,
}

/// A player readies up or un-readies.
pub struct RoomReadyMsg {
    pub user_id: String,
    pub ready: bool,
}

/// A seated player stands up to watch.
pub struct RoomGetUpMsg {
    pub user_id: String,
}

/// An observer sits down on seat `pos`.
pub struct RoomSitOnMsg {
    pub user_id: String,
    pub pos: u8,
}

/// A poll: chat newer than `timestamp`, strokes from `draw_index` on.
pub struct PollingMsg {
    pub user_id: String,
    pub room_id: String,
    pub timestamp: i64,
    pub draw_index: usize,
}

/// A chat message.
pub struct ChatMsg {
    pub user_id: String,
    pub content: String,
}

/// A player leaves their room.
pub struct LeaveRoomMsg {
    pub user_id: String,
}

/// List every room.
pub struct GetAllRoomMsg {}

/// Start the match in a room now.
pub struct GameStartMsg {
    pub room_id: String,
}

/// Start the match in a room after `delay_ms` milliseconds.
pub struct GameStartLaterMsg {
    pub room_id: String,
    pub delay_ms: u64,
}

/// Abort a scheduled start.
pub struct GameStartCancelMsg {
    pub room_id: String,
}

/// The chooser picked a word.
pub struct ChooseWordMsg {
    pub user_id: String,
    pub word: String,
}

/// The drawer appends a stroke.
pub struct DrawMsg {
    pub user_id: String,
    pub raw_data: String,
    pub timestamp: i64,
}

/// The drawer empties the canvas.
pub struct DrawClearMsg {
    pub user_id: String,
}

/// The drawer removes the latest stroke.
pub struct DrawUndoMsg {
    pub user_id: String,
}

/// The choose deadline fired.
pub struct ChooseTimeoutMsg {
    pub room_id: String,
}

/// Arm the draw deadline.
pub struct SetDrawTimeoutMsg {
    pub room_id: String,
}

/// The draw deadline fired.
pub struct DrawEndMsg {
    pub room_id: String,
}

/// The result window closed: hand the turn on.
pub struct NextPlayerDrawMsg {
    pub room_id: String,
}

/// The drawer changes the canvas background.
pub struct DrawChangeBackgoundMsg {
    pub user_id: String,
    pub color: String,
}

} // verus!
