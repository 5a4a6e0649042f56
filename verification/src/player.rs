//! A joined player: an opaque caller-supplied identity plus display data.
use vstd::prelude::*;

verus! {

/// Immutable once created; owned by the room it currently belongs to.
pub struct Player {
    pub user_id: String,
    pub avatar_url: String,
    pub nick_name: String,
}

impl Player {
    /// An equal copy of this player record.
    pub fn dup(&self) -> (r: Player)
        ensures
            r == *self,
    {
        Player {
            user_id: self.user_id.clone(),
            avatar_url: self.avatar_url.clone(),
            nick_name: self.nick_name.clone(),
        }
    }
}

} // verus!
