//! Session backend for a multiplayer draw-and-guess game: rooms with six
//! seats and an observer list, the Ready -> Choose -> Drawing -> Result
//! turn cycle, guess scoring and word masking in chat, an append-only
//! draw log with incremental sync, and the single-writer coordinator that
//! owns every room, the player index and the one pending timer each room
//! may have. All deadlines are computed from caller-supplied clock
//! readings, so the whole state machine is deterministic and verified.

pub mod coordinator;
pub mod draw_data;
pub mod ident;
pub mod message;
pub mod player;
pub mod room;
pub mod text;
