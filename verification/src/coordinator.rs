//! The single writer that owns every room, the player-to-room index, and
//! the at-most-one pending timer per room. Each operation applies one room
//! transition and answers with the timer command the caller must execute:
//! scheduling anew always supersedes (cancels) the room's previous timer.
use vstd::prelude::*;

use crate::message::{
    ChatMsg, ChooseWordMsg, DrawChangeBackgoundMsg, DrawClearMsg, DrawMsg, DrawUndoMsg,
    JoinRoomMsg, LeaveRoomMsg, PollingMsg, RoomGetUpMsg, RoomReadyMsg, RoomSitOnMsg,
};
use crate::player::Player;
use crate::draw_data::DrawDataUnit;
use crate::room::{
    all_seated_ready, cap_chat, chat_scores, count_seated, guess_announcement, has_ready,
    has_str, joined, lemma_count_seated_bounds, masked_chat,
    next_seat_index, rank_score, snapshot_matches, turn_settled, ChatItem, ReadyEntry, ScoreEntry,
    spec_has_player, spec_is_cur, spec_seated, GameStage, IfAllReadyResult, RoomData, RoomMeta,
    RoomSnapshot, AUTO_START_TIME, CHOOSE_TIME, DRAW_TIME, LAST_USEFUL_MS, MAX_PEOPLE,
    MIN_START_PEOPLE, RESULT_TIME,
};

verus! {

/// The four delayed self-events a room can have scheduled.
#[derive(PartialEq, Eq, Structural, Clone, Copy, Debug)]
pub enum TimerEvent {
    /// Fires the automatic match start.
    AutoStart,
    /// Fires when the chooser's time is up.
    ChooseTimeout,
    /// Fires when the drawer's time is up.
    DrawEnd,
    /// Fires when the result window closes.
    NextTurn,
}

/// How long after its arming each event fires, in milliseconds.
pub fn event_delay_ms(event: TimerEvent) -> (r: u64)
    ensures
        event == TimerEvent::AutoStart ==> r == AUTO_START_TIME as u64 * 1000,
        event == TimerEvent::ChooseTimeout ==> r == CHOOSE_TIME as u64 * 1000,
        event == TimerEvent::DrawEnd ==> r == DRAW_TIME as u64 * 1000,
        event == TimerEvent::NextTurn ==> r == RESULT_TIME as u64 * 1000,
{
    match event {
        TimerEvent::AutoStart => (AUTO_START_TIME as u64) * 1000,
        TimerEvent::ChooseTimeout => (CHOOSE_TIME as u64) * 1000,
        TimerEvent::DrawEnd => (DRAW_TIME as u64) * 1000,
        TimerEvent::NextTurn => (RESULT_TIME as u64) * 1000,
    }
}

/// One scheduled delayed transition.
pub struct PendingTimer {
    pub room_id: String,
    pub event: TimerEvent,
    pub fire_at_ms: i64,
}

/// What the caller must do with its timer handle for the named room:
/// nothing, cancel it, or cancel it and arm the given event.
#[derive(Debug)]
pub enum TimerCmd {
    Keep,
    Cancel(String),
    Arm(String, TimerEvent),
}

/// One player-to-room index entry.
pub struct IndexEntry {
    pub user_id: String,
    pub room_id: String,
}

/// Whether some room in `rooms` carries the id `rid`.
pub open spec fn has_room(rooms: Seq<RoomData>, rid: Seq<char>) -> bool {
    exists|i: int| 0 <= i < rooms.len() && (#[trigger] rooms[i]).id@ == rid
}

/// Room ids are pairwise distinct.
pub open spec fn rooms_distinct(rooms: Seq<RoomData>) -> bool {
    forall|i: int, j: int|
        0 <= i < j < rooms.len() ==> (#[trigger] rooms[i]).id@ != (#[trigger] rooms[j]).id@
}

/// Whether the index holds an entry for `user`.
pub open spec fn has_index(ix: Seq<IndexEntry>, user: Seq<char>) -> bool {
    exists|e: int| 0 <= e < ix.len() && (#[trigger] ix[e]).user_id@ == user
}

/// Whether the index maps `user` to the room id `rid`.
pub open spec fn maps_to(ix: Seq<IndexEntry>, user: Seq<char>, rid: Seq<char>) -> bool {
    exists|e: int|
        0 <= e < ix.len() && (#[trigger] ix[e]).user_id@ == user && ix[e].room_id@ == rid
}

/// Index keys are pairwise distinct.
pub open spec fn index_distinct(ix: Seq<IndexEntry>) -> bool {
    forall|i: int, j: int|
        0 <= i < j < ix.len() ==> (#[trigger] ix[i]).user_id@ != (#[trigger] ix[j]).user_id@
}

/// Every index entry points at an existing room that holds the player.
pub open spec fn index_to_rooms(rooms: Seq<RoomData>, ix: Seq<IndexEntry>) -> bool {
    forall|e: int|
        0 <= e < ix.len() ==> exists|i: int|
            0 <= i < rooms.len() && (#[trigger] rooms[i]).id@ == (#[trigger] ix[e]).room_id@
                && spec_has_player(rooms[i].players@, ix[e].user_id@)
}

/// Whether a timer for room `rid` is pending.
pub open spec fn has_pending(p: Seq<PendingTimer>, rid: Seq<char>) -> bool {
    exists|e: int| 0 <= e < p.len() && (#[trigger] p[e]).room_id@ == rid
}

/// Whether room `rid` has exactly this timer pending.
pub open spec fn pending_has(p: Seq<PendingTimer>, rid: Seq<char>, ev: TimerEvent, at: int) -> bool {
    exists|e: int|
        0 <= e < p.len() && (#[trigger] p[e]).room_id@ == rid && p[e].event == ev
            && p[e].fire_at_ms as int == at
}

/// At most one pending timer per room.
pub open spec fn pending_distinct(p: Seq<PendingTimer>) -> bool {
    forall|i: int, j: int|
        0 <= i < j < p.len() ==> (#[trigger] p[i]).room_id@ != (#[trigger] p[j]).room_id@
}

/// Drops the pending timer of `room_id`, if any.
fn pending_remove(p: &mut Vec<PendingTimer>, room_id: &String)
    requires
        pending_distinct(old(p)@),
    ensures
        pending_distinct(final(p)@),
        !has_pending(final(p)@, room_id@),
        forall|rid2: Seq<char>, ev: TimerEvent, at: int|
            rid2 != room_id@ ==> #[trigger] pending_has(final(p)@, rid2, ev, at) == pending_has(
                old(p)@,
                rid2,
                ev,
                at,
            ),
        forall|rid2: Seq<char>|
            rid2 != room_id@ ==> #[trigger] has_pending(final(p)@, rid2) == has_pending(
                old(p)@,
                rid2,
            ),
    {
    let n = p.len();
    let mut k: usize = 0;
    while k < n
        invariant
            k <= n,
            p@ == old(p)@,
            pending_distinct(p@),
            n == p@.len(),
            forall|j: int| 0 <= j < k ==> (#[trigger] p@[j]).room_id@ != room_id@,
        decreases n - k,
    {
        if p[k].room_id == *room_id {
            let ghost pre = p@;
            p.remove(k);
            proof {
                pre.remove_ensures(k as int);
                let w = p@;
                assert forall|j: int| 0 <= j < w.len() implies (#[trigger] w[j]).room_id@
                    != room_id@ by {
                    if j < k {
                        assert(w[j] == pre[j]);
                    } else {
                        assert(w[j] == pre[j + 1]);
                        assert(pre[k as int].room_id@ != pre[j + 1].room_id@);
                    }
                }
                assert forall|a: int, b: int| 0 <= a < b < w.len() implies (
                #[trigger] w[a]).room_id@ != (#[trigger] w[b]).room_id@ by {
                    let a0: int = if a < k {
                        a
                    } else {
                        a + 1
                    };
                    let b0: int = if b < k {
                        b
                    } else {
                        b + 1
                    };
                    assert(w[a] == pre[a0]);
                    assert(w[b] == pre[b0]);
                }
                assert forall|rid2: Seq<char>, ev: TimerEvent, at: int|
                    rid2 != room_id@ implies #[trigger] pending_has(w, rid2, ev, at)
                    == pending_has(pre, rid2, ev, at) by {
                    if pending_has(w, rid2, ev, at) {
                        let e = choose|e: int|
                            0 <= e < w.len() && (#[trigger] w[e]).room_id@ == rid2 && w[e].event
                                == ev && w[e].fire_at_ms == at;
                        if e < k {
                            assert(pre[e].room_id@ == rid2 && pre[e].event == ev
                                && pre[e].fire_at_ms == at);
                        } else {
                            assert(pre[e + 1].room_id@ == rid2 && pre[e + 1].event == ev && pre[e
                                + 1].fire_at_ms == at);
                        }
                    }
                    if pending_has(pre, rid2, ev, at) {
                        let e = choose|e: int|
                            0 <= e < pre.len() && (#[trigger] pre[e]).room_id@ == rid2
                                && pre[e].event == ev && pre[e].fire_at_ms == at;
                        if e < k {
                            assert(w[e].room_id@ == rid2 && w[e].event == ev && w[e].fire_at_ms
                                == at);
                        } else {
                            assert(w[e - 1].room_id@ == rid2 && w[e - 1].event == ev && w[e
                                - 1].fire_at_ms == at);
                        }
                    }
                }
                assert forall|rid2: Seq<char>|
                    rid2 != room_id@ implies #[trigger] has_pending(w, rid2) == has_pending(
                    pre,
                    rid2,
                ) by {
                    if has_pending(w, rid2) {
                        let e = choose|e: int|
                            0 <= e < w.len() && (#[trigger] w[e]).room_id@ == rid2;
                        if e < k {
                            assert(pre[e].room_id@ == rid2);
                        } else {
                            assert(pre[e + 1].room_id@ == rid2);
                        }
                    }
                    if has_pending(pre, rid2) {
                        let e = choose|e: int|
                            0 <= e < pre.len() && (#[trigger] pre[e]).room_id@ == rid2;
                        if e < k {
                            assert(w[e].room_id@ == rid2);
                        } else {
                            assert(w[e - 1].room_id@ == rid2);
                        }
                    }
                }
            }
            return ;
        }
        k = k + 1;
    }
}

/// Replaces the pending timer of `room_id` with `ev`, firing at `at`.
fn pending_arm(p: &mut Vec<PendingTimer>, room_id: &String, ev: TimerEvent, at: i64)
    requires
        pending_distinct(old(p)@),
    ensures
        pending_distinct(final(p)@),
        pending_has(final(p)@, room_id@, ev, at as int),
        has_pending(final(p)@, room_id@),
        forall|rid2: Seq<char>, ev2: TimerEvent, at2: int|
            rid2 != room_id@ ==> #[trigger] pending_has(final(p)@, rid2, ev2, at2) == pending_has(
                old(p)@,
                rid2,
                ev2,
                at2,
            ),
        forall|rid2: Seq<char>|
            rid2 != room_id@ ==> #[trigger] has_pending(final(p)@, rid2) == has_pending(
                old(p)@,
                rid2,
            ),
{
    pending_remove(p, room_id);
    let ghost mid = p@;
    p.push(PendingTimer { room_id: room_id.clone(), event: ev, fire_at_ms: at });
    proof {
        let w = p@;
        assert(w[w.len() - 1].room_id@ == room_id@ && w[w.len() - 1].event == ev && w[w.len()
            - 1].fire_at_ms as int == at);
        assert forall|a: int, b: int| 0 <= a < b < w.len() implies (#[trigger] w[a]).room_id@ != (
        #[trigger] w[b]).room_id@ by {
            if b < w.len() - 1 {
                assert(w[a] == mid[a] && w[b] == mid[b]);
            } else {
                assert(w[a] == mid[a]);
                assert(!has_pending(mid, room_id@));
                if mid[a].room_id@ == room_id@ {
                    assert(has_pending(mid, room_id@));
                }
            }
        }
        assert forall|rid2: Seq<char>, ev2: TimerEvent, at2: int|
            rid2 != room_id@ implies #[trigger] pending_has(w, rid2, ev2, at2) == pending_has(
            mid,
            rid2,
            ev2,
            at2,
        ) by {
            if pending_has(w, rid2, ev2, at2) {
                let e = choose|e: int|
                    0 <= e < w.len() && (#[trigger] w[e]).room_id@ == rid2 && w[e].event == ev2
                        && w[e].fire_at_ms == at2;
                assert(e < w.len() - 1);
                assert(mid[e].room_id@ == rid2 && mid[e].event == ev2 && mid[e].fire_at_ms == at2);
            }
            if pending_has(mid, rid2, ev2, at2) {
                let e = choose|e: int|
                    0 <= e < mid.len() && (#[trigger] mid[e]).room_id@ == rid2 && mid[e].event
                        == ev2 && mid[e].fire_at_ms == at2;
                assert(w[e].room_id@ == rid2 && w[e].event == ev2 && w[e].fire_at_ms == at2);
            }
        }
        assert forall|rid2: Seq<char>|
            rid2 != room_id@ implies #[trigger] has_pending(w, rid2) == has_pending(mid, rid2) by {
            if has_pending(w, rid2) {
                let e = choose|e: int| 0 <= e < w.len() && (#[trigger] w[e]).room_id@ == rid2;
                assert(e < w.len() - 1);
                assert(mid[e].room_id@ == rid2);
            }
            if has_pending(mid, rid2) {
                let e = choose|e: int| 0 <= e < mid.len() && (#[trigger] mid[e]).room_id@ == rid2;
                assert(w[e].room_id@ == rid2);
            }
        }
    }
}

/// Every room but the one at `k` is unchanged, and the index with it.
pub open spec fn one_room_changed(o: Coordinator, n: Coordinator, k: int) -> bool {
    &&& n.rooms@.len() == o.rooms@.len()
    &&& 0 <= k < o.rooms@.len()
    &&& forall|j: int| 0 <= j < o.rooms@.len() && j != k ==> n.rooms@[j] == o.rooms@[j]
    &&& n.player_room == o.player_room
}

/// Updating one room without touching its roster or id preserves the
/// room-id distinctness and the index consistency.
proof fn lemma_rooms_update(
    rooms: Seq<RoomData>,
    nrooms: Seq<RoomData>,
    ix: Seq<IndexEntry>,
    k: int,
)
    requires
        0 <= k < rooms.len(),
        nrooms.len() == rooms.len(),
        forall|j: int| 0 <= j < rooms.len() && j != k ==> nrooms[j] == rooms[j],
        nrooms[k].players@ == rooms[k].players@,
        nrooms[k].id@ == rooms[k].id@,
        rooms_distinct(rooms),
        index_to_rooms(rooms, ix),
    ensures
        rooms_distinct(nrooms),
        index_to_rooms(nrooms, ix),
{
    assert forall|a: int, b: int| 0 <= a < b < nrooms.len() implies (#[trigger] nrooms[a]).id@ != (
    #[trigger] nrooms[b]).id@ by {
        assert(nrooms[a].id@ == rooms[a].id@);
        assert(nrooms[b].id@ == rooms[b].id@);
    }
    assert forall|e: int| 0 <= e < ix.len() implies exists|i: int|
        0 <= i < nrooms.len() && (#[trigger] nrooms[i]).id@ == (#[trigger] ix[e]).room_id@
            && spec_has_player(nrooms[i].players@, ix[e].user_id@) by {
        let i = choose|i: int|
            0 <= i < rooms.len() && (#[trigger] rooms[i]).id@ == ix[e].room_id@
                && spec_has_player(rooms[i].players@, ix[e].user_id@);
        assert(nrooms[i].id@ == rooms[i].id@);
        assert(nrooms[i].players@ == rooms[i].players@);
        assert(nrooms[i].id@ == ix[e].room_id@ && spec_has_player(
            nrooms[i].players@,
            ix[e].user_id@,
        ));
    }
}

/// The single writer owning all rooms.
pub struct Coordinator {
    pub rooms: Vec<RoomData>,
    pub player_room: Vec<IndexEntry>,
    pub pending: Vec<PendingTimer>,
}

impl Coordinator {
    /// The coordinator's structural invariant.
    pub open spec fn wf(self) -> bool {
        &&& rooms_distinct(self.rooms@)
        &&& forall|i: int| 0 <= i < self.rooms@.len() ==> (#[trigger] self.rooms@[i]).wf()
        &&& index_distinct(self.player_room@)
        &&& index_to_rooms(self.rooms@, self.player_room@)
        &&& pending_distinct(self.pending@)
    }

    /// An empty coordinator: no rooms, no players, no timers.
    pub fn new() -> (c: Coordinator)
        ensures
            c.wf(),
            c.rooms@ == Seq::<RoomData>::empty(),
            c.player_room@ == Seq::<IndexEntry>::empty(),
            c.pending@ == Seq::<PendingTimer>::empty(),
    {
        Coordinator { rooms: Vec::new(), player_room: Vec::new(), pending: Vec::new() }
    }

    /// The position of the room carrying `room_id`, if any.
    fn find_room(&self, room_id: &String) -> (r: Option<usize>)
        ensures
            r is Some ==> 0 <= r->0 < self.rooms@.len() && self.rooms@[r->0 as int].id@
                == room_id@,
            r is None ==> !has_room(self.rooms@, room_id@),
    {
        let n = self.rooms.len();
        let mut k: usize = 0;
        while k < n
            invariant
                k <= n,
                n == self.rooms@.len(),
                forall|j: int| 0 <= j < k ==> (#[trigger] self.rooms@[j]).id@ != room_id@,
            decreases n - k,
        {
            if self.rooms[k].id == *room_id {
                return Some(k);
            }
            k = k + 1;
        }
        None
    }

    /// The position of `user_id`'s index entry, if any.
    fn find_index(&self, user_id: &String) -> (r: Option<usize>)
        ensures
            r is Some ==> 0 <= r->0 < self.player_room@.len()
                && self.player_room@[r->0 as int].user_id@ == user_id@,
            r is None ==> !has_index(self.player_room@, user_id@),
    {
        let n = self.player_room.len();
        let mut k: usize = 0;
        while k < n
            invariant
                k <= n,
                n == self.player_room@.len(),
                forall|j: int| 0 <= j < k ==> (#[trigger] self.player_room@[j]).user_id@
                    != user_id@,
            decreases n - k,
        {
            if self.player_room[k].user_id == *user_id {
                return Some(k);
            }
            k = k + 1;
        }
        None
    }

    /// The position of the room `user_id` belongs to, if any.
    fn room_idx_of_player(&self, user_id: &String) -> (r: Option<usize>)
        requires
            self.wf(),
        ensures
            r is Some ==> 0 <= r->0 < self.rooms@.len() && maps_to(
                self.player_room@,
                user_id@,
                self.rooms@[r->0 as int].id@,
            ) && spec_has_player(self.rooms@[r->0 as int].players@, user_id@),
            r is None ==> !has_index(self.player_room@, user_id@),
    {
        match self.find_index(user_id) {
            None => None,
            Some(e) => {
                let rid = &self.player_room[e].room_id;
                match self.find_room(rid) {
                    Some(k) => {
                        proof {
                            let ix = self.player_room@;
                            let i = choose|i: int|
                                0 <= i < self.rooms@.len() && (#[trigger] self.rooms@[i]).id@
                                    == ix[e as int].room_id@ && spec_has_player(
                                    self.rooms@[i].players@,
                                    ix[e as int].user_id@,
                                );
                            if i != k {
                                assert(self.rooms@[i].id@ == self.rooms@[k as int].id@);
                            }
                            assert(maps_to(ix, user_id@, self.rooms@[k as int].id@)) by {
                                assert(ix[e as int].user_id@ == user_id@ && ix[e as int].room_id@
                                    == self.rooms@[k as int].id@);
                            }
                        }
                        Some(k)
                    },
                    None => {
                        proof {
                            let ix = self.player_room@;
                            let i = choose|i: int|
                                0 <= i < self.rooms@.len() && (#[trigger] self.rooms@[i]).id@
                                    == ix[e as int].room_id@ && spec_has_player(
                                    self.rooms@[i].players@,
                                    ix[e as int].user_id@,
                                );
                            assert(has_room(self.rooms@, ix[e as int].room_id@));
                        }
                        vstd::pervasive::unreached()
                    },
                }
            },
        }
    }
}


impl Coordinator {
    /// Creates a room and answers its id. In the never-expected case that
    /// the generated id already exists, nothing is inserted and the
    /// existing id is answered.
    pub fn create_room(&mut self) -> (id: String)
        requires
            old(self).wf(),
        ensures
            final(self).wf(),
            final(self).player_room == old(self).player_room,
            final(self).pending == old(self).pending,
            !has_room(old(self).rooms@, id@) ==> final(self).rooms@.len() == old(
                self,
            ).rooms@.len() + 1 && final(self).rooms@.subrange(0, old(self).rooms@.len() as int)
                == old(self).rooms@ && final(self).rooms@.last().id == id
                && final(self).rooms@.last().wf()
                && final(self).rooms@.last().players@ == Seq::<Player>::empty()
                && final(self).rooms@.last().stage == GameStage::Ready
                && final(self).rooms@.last().cur_seat is None
                && count_seated(final(self).rooms@.last().seat@) == 0,
            has_room(old(self).rooms@, id@) ==> *final(self) == *old(self),
    {
        let room = RoomData::new();
        let id = room.id.clone();
        proof {
            crate::room::lemma_count_seated_none(room.seat@);
        }
        match self.find_room(&id) {
            Some(_) => id,
            None => {
                let ghost pre = self.rooms@;
                self.rooms.push(room);
                proof {
                    let w = self.rooms@;
                    assert(w.subrange(0, pre.len() as int) =~= pre);
                    assert forall|a: int, b: int| 0 <= a < b < w.len() implies (
                    #[trigger] w[a]).id@ != (#[trigger] w[b]).id@ by {
                        if b < w.len() - 1 {
                            assert(w[a] == pre[a] && w[b] == pre[b]);
                        } else {
                            assert(w[a] == pre[a]);
                            if pre[a].id@ == id@ {
                                assert(has_room(pre, id@));
                            }
                        }
                    }
                    assert forall|i: int| 0 <= i < w.len() implies (#[trigger] w[i]).wf() by {
                        if i < w.len() - 1 {
                            assert(w[i] == pre[i]);
                        }
                    }
                    assert forall|e: int| 0 <= e < self.player_room@.len() implies exists|i: int|
                        0 <= i < w.len() && (#[trigger] w[i]).id@ == (
                        #[trigger] self.player_room@[e]).room_id@ && spec_has_player(
                        w[i].players@,
                        self.player_room@[e].user_id@,
                    ) by {
                        let i = choose|i: int|
                            0 <= i < pre.len() && (#[trigger] pre[i]).id@
                                == self.player_room@[e].room_id@ && spec_has_player(
                                pre[i].players@,
                                self.player_room@[e].user_id@,
                            );
                        assert(w[i] == pre[i]);
                        assert(w[i].id@ == self.player_room@[e].room_id@ && spec_has_player(
                            w[i].players@,
                            self.player_room@[e].user_id@,
                        ));
                    }
                }
                id
            },
        }
    }

    /// Adds a player to the named room, seats or observer list included,
    /// and records them in the index. Declined when the room does not
    /// exist or the player is already in some room.
    pub fn join_room(&mut self, msg: JoinRoomMsg) -> (r: bool)
        requires
            old(self).wf(),
        ensures
            final(self).wf(),
            final(self).pending == old(self).pending,
            r == (!has_index(old(self).player_room@, msg.player.user_id@) && exists|k: int|
                0 <= k < old(self).rooms@.len() && (#[trigger] old(self).rooms@[k]).id@
                    == msg.room_id@ && !spec_has_player(
                    old(self).rooms@[k].players@,
                    msg.player.user_id@,
                )),
            !r ==> *final(self) == *old(self),
            r ==> final(self).rooms@.len() == old(self).rooms@.len() && exists|k: int|
                0 <= k < old(self).rooms@.len() && (#[trigger] old(self).rooms@[k]).id@
                    == msg.room_id@ && joined(old(self).rooms@[k], final(self).rooms@[k],
                    msg.player,
                ) && (forall|j: int|
                    0 <= j < old(self).rooms@.len() && j != k ==> final(self).rooms@[j] == old(
                        self,
                    ).rooms@[j]),
            r ==> maps_to(final(self).player_room@, msg.player.user_id@, msg.room_id@) && final(self).player_room@ == old(self).player_room@.push(final(self).player_room@.last()),
    {
        match self.find_index(&msg.player.user_id) {
            Some(_) => {
                proof {
                    assert(has_index(self.player_room@, msg.player.user_id@)) by {
                        let e = choose|e: int|
                            0 <= e < self.player_room@.len() && (
                            #[trigger] self.player_room@[e]).user_id@ == msg.player.user_id@;
                    }
                }
                false
            },
            None => {
                match self.find_room(&msg.room_id) {
                    None => false,
                    Some(k) => {
                        let already = match self.rooms[k].get_player(&msg.player.user_id) {
                            Some(_) => true,
                            None => false,
                        };
                        if already {
                            proof {
                                assert forall|k2: int|
                                    0 <= k2 < self.rooms@.len() && (
                                    #[trigger] self.rooms@[k2]).id@ == msg.room_id@ implies
                                    spec_has_player(
                                    self.rooms@[k2].players@,
                                    msg.player.user_id@,
                                ) by {
                                    if k2 != k {
                                        assert(self.rooms@[k2].id@ == self.rooms@[k as int].id@);
                                    }
                                }
                            }
                            return false;
                        }
                        let ghost pre = *self;
                        self.rooms[k].join_player(&msg.player);
                        self.player_room.push(
                            IndexEntry {
                                user_id: msg.player.user_id.clone(),
                                room_id: msg.room_id.clone(),
                            },
                        );
                        proof {
                            let w = self.rooms@;
                            let ix = self.player_room@;
                            let oix = pre.player_room@;
                            assert(joined(pre.rooms@[k as int], w[k as int], msg.player));
                            assert forall|a: int, b: int|
                                0 <= a < b < w.len() implies (#[trigger] w[a]).id@ != (
                            #[trigger] w[b]).id@ by {
                                assert(w[a].id@ == pre.rooms@[a].id@);
                                assert(w[b].id@ == pre.rooms@[b].id@);
                            }
                            assert forall|i: int| 0 <= i < w.len() implies (
                            #[trigger] w[i]).wf() by {
                                if i != k {
                                    assert(w[i] == pre.rooms@[i]);
                                }
                            }
                            assert forall|a: int, b: int|
                                0 <= a < b < ix.len() implies (#[trigger] ix[a]).user_id@ != (
                            #[trigger] ix[b]).user_id@ by {
                                if b < ix.len() - 1 {
                                    assert(ix[a] == oix[a] && ix[b] == oix[b]);
                                } else {
                                    assert(ix[a] == oix[a]);
                                    if oix[a].user_id@ == msg.player.user_id@ {
                                        assert(has_index(oix, msg.player.user_id@));
                                    }
                                }
                            }
                            assert(spec_has_player(w[k as int].players@, msg.player.user_id@)) by {
                                assert(w[k as int].players@[w[k as int].players@.len()
                                    - 1].user_id@ == msg.player.user_id@);
                            }
                            assert forall|e: int| 0 <= e < ix.len() implies exists|i: int|
                                0 <= i < w.len() && (#[trigger] w[i]).id@ == (
                            #[trigger] ix[e]).room_id@ && spec_has_player(
                                w[i].players@,
                                ix[e].user_id@,
                            ) by {
                                if e < ix.len() - 1 {
                                    assert(ix[e] == oix[e]);
                                    let i = choose|i: int|
                                        0 <= i < pre.rooms@.len() && (#[trigger] pre.rooms@[i]).id@
                                            == oix[e].room_id@ && spec_has_player(
                                            pre.rooms@[i].players@,
                                            oix[e].user_id@,
                                        );
                                    assert(w[i].id@ == pre.rooms@[i].id@);
                                    if i == k {
                                        assert forall|id2: Seq<char>|
                                            spec_has_player(pre.rooms@[k as int].players@, id2)
                                                implies spec_has_player(
                                            w[k as int].players@,
                                            id2,
                                        ) by {
                                            let q = choose|q: int|
                                                0 <= q < pre.rooms@[k as int].players@.len() && (
                                                #[trigger] pre.rooms@[k as int].players@[q]).user_id@
                                                    == id2;
                                            assert(w[k as int].players@[q].user_id@ == id2);
                                        }
                                    } else {
                                        assert(w[i] == pre.rooms@[i]);
                                    }
                                    assert(w[i].id@ == ix[e].room_id@ && spec_has_player(
                                        w[i].players@,
                                        ix[e].user_id@,
                                    ));
                                } else {
                                    assert(w[k as int].id@ == ix[e].room_id@ && spec_has_player(
                                        w[k as int].players@,
                                        ix[e].user_id@,
                                    ));
                                }
                            }
                            assert(maps_to(ix, msg.player.user_id@, msg.room_id@)) by {
                                assert(ix[ix.len() - 1].user_id@ == msg.player.user_id@
                                    && ix[ix.len() - 1].room_id@ == msg.room_id@);
                            }
                            assert(ix =~= oix.push(ix.last()));
                        }
                        true
                    },
                }
            },
        }
    }

    /// The room `user_id` belongs to, if any.
    pub fn room_of_player(&self, user_id: &String) -> (r: Option<&RoomData>)
        requires
            self.wf(),
        ensures
            r is Some ==> exists|k: int|
                0 <= k < self.rooms@.len() && *r->0 == #[trigger] self.rooms@[k] && maps_to(
                    self.player_room@,
                    user_id@,
                    self.rooms@[k].id@,
                ) && spec_has_player(self.rooms@[k].players@, user_id@),
            r is None ==> !has_index(self.player_room@, user_id@),
    {
        match self.room_idx_of_player(user_id) {
            Some(k) => Some(&self.rooms[k]),
            None => None,
        }
    }

    /// The room carrying `id`, if any.
    pub fn room_by_id(&self, id: &String) -> (r: Option<&RoomData>)
        ensures
            r is Some ==> r->0.id@ == id@ && exists|k: int|
                0 <= k < self.rooms@.len() && *r->0 == #[trigger] self.rooms@[k],
            r is None ==> !has_room(self.rooms@, id@),
    {
        match self.find_room(id) {
            Some(k) => Some(&self.rooms[k]),
            None => None,
        }
    }

    /// The player's own record and the name card of their room, for the
    /// client's initialisation; nothing when the player is in no room.
    pub fn init(&self, user_id: &String) -> (r: Option<(Player, RoomMeta)>)
        requires
            self.wf(),
        ensures
            r is Some ==> exists|k: int, p: int|
                0 <= k < self.rooms@.len() && 0 <= p < (#[trigger] self.rooms@[k]).players@.len()
                    && maps_to(self.player_room@, user_id@, self.rooms@[k].id@) && (
                #[trigger] self.rooms@[k].players@[p]).user_id@ == user_id@ && (r->0).0
                    == self.rooms@[k].players@[p] && (r->0).1.id == self.rooms@[k].id && (r->0).1.name
                    == self.rooms@[k].name,
            r is None ==> !has_index(self.player_room@, user_id@),
    {
        match self.room_idx_of_player(user_id) {
            None => None,
            Some(k) => {
                let room = &self.rooms[k];
                match room.get_player(user_id) {
                    Some(p) => {
                        let meta = RoomMeta::from_room_data(room);
                        Some((p.dup(), meta))
                    },
                    None => vstd::pervasive::unreached(),
                }
            },
        }
    }

    /// The name card of every room, in creation order.
    pub fn get_all_rooms(&self) -> (r: Vec<RoomMeta>)
        ensures
            r@.len() == self.rooms@.len(),
            forall|i: int|
                0 <= i < r@.len() ==> (#[trigger] r@[i]).id == self.rooms@[i].id && r@[i].name
                    == self.rooms@[i].name,
    {
        let mut r: Vec<RoomMeta> = Vec::new();
        let n = self.rooms.len();
        let mut i: usize = 0;
        while i < n
            invariant
                i <= n,
                n == self.rooms@.len(),
                r@.len() == i,
                forall|j: int|
                    0 <= j < i ==> (#[trigger] r@[j]).id == self.rooms@[j].id && r@[j].name
                        == self.rooms@[j].name,
            decreases n - i,
        {
            r.push(RoomMeta::from_room_data(&self.rooms[i]));
            i = i + 1;
        }
        r
    }

    /// The first room, in creation order, that still has an empty seat.
    /// The selection policy is deliberately the lowest creation index.
    pub fn find_joinable_room(&self) -> (r: Option<&RoomData>)
        ensures
            r is Some ==> exists|k: int|
                0 <= k < self.rooms@.len() && *r->0 == #[trigger] self.rooms@[k] && (exists|i: int|
                    0 <= i < self.rooms@[k].seat@.len() && (#[trigger] self.rooms@[k].seat@[i]) is None)
                    && (forall|j: int, i: int|
                    0 <= j < k && 0 <= i < self.rooms@[j].seat@.len() ==> (
                    #[trigger] self.rooms@[j].seat@[i]) is Some),
            r is None ==> forall|j: int, i: int|
                0 <= j < self.rooms@.len() && 0 <= i < self.rooms@[j].seat@.len() ==> (
                #[trigger] self.rooms@[j].seat@[i]) is Some,
    {
        let n = self.rooms.len();
        let mut k: usize = 0;
        while k < n
            invariant
                k <= n,
                n == self.rooms@.len(),
                forall|j: int, i: int|
                    0 <= j < k && 0 <= i < self.rooms@[j].seat@.len() ==> (
                    #[trigger] self.rooms@[j].seat@[i]) is Some,
            decreases n - k,
        {
            if self.rooms[k].has_free_seat() {
                return Some(&self.rooms[k]);
            }
            k = k + 1;
        }
        None
    }

    /// The poll payload for `msg.room_id` as `msg.user_id` may see it;
    /// nothing when the room does not exist. Read-only.
    pub fn poll(&self, msg: &PollingMsg) -> (r: Option<RoomSnapshot>)
        ensures
            r is Some ==> exists|k: int|
                0 <= k < self.rooms@.len() && (#[trigger] self.rooms@[k]).id@ == msg.room_id@
                    && snapshot_matches(
                    self.rooms@[k],
                    msg.user_id@,
                    msg.timestamp,
                    msg.draw_index as int,
                    r->0,
                ),
            r is None ==> !has_room(self.rooms@, msg.room_id@),
    {
        match self.find_room(&msg.room_id) {
            Some(k) => Some(self.rooms[k].snapshot(&msg.user_id, msg.timestamp, msg.draw_index)),
            None => None,
        }
    }
}


impl Coordinator {
    /// A player readies up or un-readies, in `Ready` stage only. Readying
    /// up evaluates readiness: six ready seated players start the match at
    /// once (the choose deadline is armed); three to five arm the
    /// five-second auto-start; otherwise nothing is scheduled. Un-readying
    /// removes the flag, zeroes a live countdown deadline and cancels the
    /// room's pending timer, so a scheduled auto-start can never fire.
    pub fn set_ready(&mut self, msg: RoomReadyMsg, now_ms: i64) -> (cmd: TimerCmd)
        requires
            old(self).wf(),
            now_ms <= LAST_USEFUL_MS,
        ensures
            final(self).wf(),
            !has_index(old(self).player_room@, msg.user_id@) ==> *final(self) == *old(self) && cmd is Keep,
            has_index(old(self).player_room@, msg.user_id@) ==> exists|k: int|
                #![trigger old(self).rooms@[k]]
                0 <= k < old(self).rooms@.len() && maps_to(
                    old(self).player_room@,
                    msg.user_id@,
                    old(self).rooms@[k].id@,
                ) && one_room_changed(*old(self), *final(self), k) && ({
                    let orm = old(self).rooms@[k];
                    let nrm = final(self).rooms@[k];
                    let rid = orm.id@;
                    let rs2 = if has_ready(orm.ready_state@, msg.user_id@) {
                        orm.ready_state@
                    } else {
                        orm.ready_state@.push((ReadyEntry { user_id: msg.user_id, ready: true }))
                    };
                    let ar = all_seated_ready(orm.seat@, rs2);
                    let sc = count_seated(orm.seat@);
                    let ns = next_seat_index(orm);
                    &&& (orm.stage != GameStage::Ready ==> *final(self) == *old(self) && cmd is Keep)
                    &&& (orm.stage == GameStage::Ready && msg.ready && ar && sc >= MAX_PEOPLE
                        && ns < orm.seat@.len() ==> nrm.stage == GameStage::Choose
                        && nrm.ready_state@.len() == 0 && nrm.cur_seat == Some(ns as usize)
                        && nrm.cur_id == orm.seat@[ns] && nrm.next_timestamp == Some(
                        (now_ms + (CHOOSE_TIME as i64) * 1000) as i64,
                    ) && pending_has(
                        final(self).pending@,
                        rid,
                        TimerEvent::ChooseTimeout,
                        now_ms + (CHOOSE_TIME as i64) * 1000,
                    ) && (cmd matches TimerCmd::Arm(c, ev) && c@ == rid && ev
                        == TimerEvent::ChooseTimeout))
                    &&& (orm.stage == GameStage::Ready && msg.ready && ar && MIN_START_PEOPLE as int
                        <= sc < MAX_PEOPLE ==> nrm == (RoomData {
                        ready_state: nrm.ready_state,
                        next_timestamp: Some((now_ms + (AUTO_START_TIME as i64) * 1000) as i64),
                        ..orm
                    }) && nrm.ready_state@ == rs2 && pending_has(
                        final(self).pending@,
                        rid,
                        TimerEvent::AutoStart,
                        now_ms + (AUTO_START_TIME as i64) * 1000,
                    ) && (cmd matches TimerCmd::Arm(c, ev) && c@ == rid && ev
                        == TimerEvent::AutoStart))
                    &&& (orm.stage == GameStage::Ready && msg.ready && !(ar && sc
                        >= MIN_START_PEOPLE as int) ==> nrm == (RoomData {
                        ready_state: nrm.ready_state,
                        ..orm
                    }) && nrm.ready_state@ == rs2 && final(self).pending == old(self).pending
                        && cmd is Keep)
                    &&& (orm.stage == GameStage::Ready && !msg.ready ==> !has_ready(
                        nrm.ready_state@,
                        msg.user_id@,
                    ) && nrm.next_timestamp == (if orm.next_timestamp is Some
                        && orm.next_timestamp->0 != 0 {
                        Some(0i64)
                    } else {
                        orm.next_timestamp
                    }) && !has_pending(final(self).pending@, rid) && (cmd matches
                    TimerCmd::Cancel(c) && c@ == rid) && nrm == (RoomData {
                        ready_state: nrm.ready_state,
                        next_timestamp: nrm.next_timestamp,
                        ..orm
                    }))
                    &&& (forall|rid2: Seq<char>|
                        rid2 != rid ==> #[trigger] has_pending(final(self).pending@, rid2)
                            == has_pending(old(self).pending@, rid2))
                }),
    {
        let kopt = self.room_idx_of_player(&msg.user_id);
        match kopt {
            None => TimerCmd::Keep,
            Some(k) => {
                let ghost pre = *self;
                let stage = self.rooms[k].stage;
                if stage != GameStage::Ready {
                    return TimerCmd::Keep;
                }
                let rid = self.rooms[k].id.clone();
                if msg.ready {
                    self.rooms[k].ready(&msg.user_id);
                    let verdict = self.rooms[k].if_all_ready(now_ms);
                    proof {
                        lemma_rooms_update(pre.rooms@, self.rooms@, self.player_room@, k as int);
                        assert forall|i: int| 0 <= i < self.rooms@.len() implies (
                        #[trigger] self.rooms@[i]).wf() by {
                            if i != k {
                                assert(self.rooms@[i] == pre.rooms@[i]);
                            }
                        }
                    }
                    match verdict {
                        IfAllReadyResult::Start => {
                            let ghost mid = *self;
                            proof {
                                lemma_count_seated_bounds(pre.rooms@[k as int].seat@);
                            }
                            self.rooms[k].start(now_ms);
                            proof {
                                lemma_rooms_update(
                                    mid.rooms@,
                                    self.rooms@,
                                    self.player_room@,
                                    k as int,
                                );
                                assert forall|i: int| 0 <= i < self.rooms@.len() implies (
                                #[trigger] self.rooms@[i]).wf() by {
                                    if i != k {
                                        assert(self.rooms@[i] == mid.rooms@[i]);
                                    }
                                }
                            }
                            pending_arm(
                                &mut self.pending,
                                &rid,
                                TimerEvent::ChooseTimeout,
                                now_ms + (CHOOSE_TIME as i64) * 1000,
                            );
                            TimerCmd::Arm(rid, TimerEvent::ChooseTimeout)
                        },
                        IfAllReadyResult::AutoStart(_) => {
                            pending_arm(
                                &mut self.pending,
                                &rid,
                                TimerEvent::AutoStart,
                                now_ms + (AUTO_START_TIME as i64) * 1000,
                            );
                            TimerCmd::Arm(rid, TimerEvent::AutoStart)
                        },
                        IfAllReadyResult::NotReady => TimerCmd::Keep,
                    }
                } else {
                    self.rooms[k].cacnel_ready(&msg.user_id);
                    proof {
                        lemma_rooms_update(pre.rooms@, self.rooms@, self.player_room@, k as int);
                        assert forall|i: int| 0 <= i < self.rooms@.len() implies (
                        #[trigger] self.rooms@[i]).wf() by {
                            if i != k {
                                assert(self.rooms@[i] == pre.rooms@[i]);
                            }
                        }
                    }
                    pending_remove(&mut self.pending, &rid);
                    TimerCmd::Cancel(rid)
                }
            },
        }
    }

    /// The auto-start countdown fired: its pending entry is consumed and
    /// the match starts. When the rotation finds a first seat the choose
    /// deadline is armed; with nobody left seated nothing is scheduled.
    pub fn game_start(&mut self, room_id: &String, now_ms: i64) -> (cmd: TimerCmd)
        requires
            old(self).wf(),
            now_ms <= LAST_USEFUL_MS,
        ensures
            final(self).wf(),
            final(self).player_room == old(self).player_room,
            !has_room(old(self).rooms@, room_id@) ==> final(self).rooms == old(self).rooms
                && !has_pending(final(self).pending@, room_id@) && cmd is Keep,
            has_room(old(self).rooms@, room_id@) ==> exists|k: int|
                #![trigger old(self).rooms@[k]]
                0 <= k < old(self).rooms@.len() && old(self).rooms@[k].id@ == room_id@ && ({
                    let orm = old(self).rooms@[k];
                    let nrm = final(self).rooms@[k];
                    let ns = next_seat_index(orm);
                    &&& final(self).rooms@.len() == old(self).rooms@.len()
                    &&& (forall|j: int|
                        0 <= j < old(self).rooms@.len() && j != k ==> final(self).rooms@[j] == old(self).rooms@[j])
                    &&& nrm.ready_state@.len() == 0
                    &&& ((orm.stage == GameStage::Ready || orm.stage == GameStage::Result) && ns
                        < orm.seat@.len() ==> nrm.stage == GameStage::Choose && nrm.cur_seat
                        == Some(ns as usize) && nrm.cur_id == orm.seat@[ns] && pending_has(
                        final(self).pending@,
                        orm.id@,
                        TimerEvent::ChooseTimeout,
                        now_ms + (CHOOSE_TIME as i64) * 1000,
                    ) && (cmd matches TimerCmd::Arm(c, ev) && c@ == orm.id@ && ev
                        == TimerEvent::ChooseTimeout))
                    &&& ((orm.stage == GameStage::Ready || orm.stage == GameStage::Result) && ns
                        >= orm.seat@.len() ==> !has_pending(final(self).pending@, orm.id@)
                        && cmd is Keep)
                    &&& (forall|rid2: Seq<char>|
                        rid2 != room_id@ ==> #[trigger] has_pending(final(self).pending@, rid2)
                            == has_pending(old(self).pending@, rid2))
                }),
    {
        pending_remove(&mut self.pending, room_id);
        match self.find_room(room_id) {
            None => TimerCmd::Keep,
            Some(k) => {
                let ghost pre = *self;
                let stage_before = self.rooms[k].stage;
                self.rooms[k].start(now_ms);
                proof {
                    lemma_rooms_update(pre.rooms@, self.rooms@, self.player_room@, k as int);
                    assert forall|i: int| 0 <= i < self.rooms@.len() implies (
                    #[trigger] self.rooms@[i]).wf() by {
                        if i != k {
                            assert(self.rooms@[i] == pre.rooms@[i]);
                        }
                    }
                }
                let started = self.rooms[k].stage == GameStage::Choose && stage_before
                    != GameStage::Choose;
                if started {
                    pending_arm(
                        &mut self.pending,
                        room_id,
                        TimerEvent::ChooseTimeout,
                        now_ms + (CHOOSE_TIME as i64) * 1000,
                    );
                    TimerCmd::Arm(room_id.clone(), TimerEvent::ChooseTimeout)
                } else {
                    TimerCmd::Keep
                }
            },
        }
    }

    /// The choose deadline fired: its pending entry is consumed and the
    /// turn passes on silently. While the rotation continues, the next
    /// chooser gets a fresh choose deadline; when it is exhausted the
    /// match has ended and nothing is scheduled.
    pub fn choose_timeout(&mut self, room_id: &String, now_ms: i64) -> (cmd: TimerCmd)
        requires
            old(self).wf(),
            now_ms <= LAST_USEFUL_MS,
        ensures
            final(self).wf(),
            final(self).player_room == old(self).player_room,
            !has_room(old(self).rooms@, room_id@) ==> final(self).rooms == old(self).rooms
                && !has_pending(final(self).pending@, room_id@) && cmd is Keep,
            has_room(old(self).rooms@, room_id@) ==> exists|k: int|
                #![trigger old(self).rooms@[k]]
                0 <= k < old(self).rooms@.len() && old(self).rooms@[k].id@ == room_id@ && ({
                    let orm = old(self).rooms@[k];
                    let nrm = final(self).rooms@[k];
                    let ns = next_seat_index(orm);
                    &&& final(self).rooms@.len() == old(self).rooms@.len()
                    &&& (forall|j: int|
                        0 <= j < old(self).rooms@.len() && j != k ==> final(self).rooms@[j] == old(self).rooms@[j])
                    &&& (orm.stage != GameStage::Choose ==> nrm == orm && !has_pending(
                        final(self).pending@,
                        orm.id@,
                    ) && cmd is Keep)
                    &&& (orm.stage == GameStage::Choose && ns < orm.seat@.len() ==> nrm.stage
                        == GameStage::Choose && nrm.cur_seat == Some(ns as usize) && nrm.cur_id
                        == orm.seat@[ns] && nrm.next_timestamp == Some(
                        (now_ms + (CHOOSE_TIME as i64) * 1000) as i64,
                    ) && pending_has(
                        final(self).pending@,
                        orm.id@,
                        TimerEvent::ChooseTimeout,
                        now_ms + (CHOOSE_TIME as i64) * 1000,
                    ) && (cmd matches TimerCmd::Arm(c, ev) && c@ == orm.id@ && ev
                        == TimerEvent::ChooseTimeout))
                    &&& (orm.stage == GameStage::Choose && ns >= orm.seat@.len() ==> nrm.stage
                        == GameStage::Ready && nrm.cur_seat is None && nrm.cur_id is None
                        && nrm.settlement@ == Seq::<ScoreEntry>::empty() && nrm.next_timestamp
                        == Some(0i64) && !has_pending(final(self).pending@, orm.id@)
                        && cmd is Keep)
                    &&& (forall|rid2: Seq<char>|
                        rid2 != room_id@ ==> #[trigger] has_pending(final(self).pending@, rid2)
                            == has_pending(old(self).pending@, rid2))
                }),
    {
        pending_remove(&mut self.pending, room_id);
        match self.find_room(room_id) {
            None => TimerCmd::Keep,
            Some(k) => {
                let ghost pre = *self;
                let advanced = self.rooms[k].choose_timeout(now_ms);
                proof {
                    lemma_rooms_update(pre.rooms@, self.rooms@, self.player_room@, k as int);
                    assert forall|i: int| 0 <= i < self.rooms@.len() implies (
                    #[trigger] self.rooms@[i]).wf() by {
                        if i != k {
                            assert(self.rooms@[i] == pre.rooms@[i]);
                        }
                    }
                }
                if advanced {
                    pending_arm(
                        &mut self.pending,
                        room_id,
                        TimerEvent::ChooseTimeout,
                        now_ms + (CHOOSE_TIME as i64) * 1000,
                    );
                    TimerCmd::Arm(room_id.clone(), TimerEvent::ChooseTimeout)
                } else {
                    TimerCmd::Keep
                }
            },
        }
    }

    /// The chooser picks a word: on success the room enters `Drawing` and
    /// the draw deadline supersedes the pending choose deadline.
    pub fn choose_word(&mut self, msg: ChooseWordMsg, now_ms: i64) -> (r: (bool, TimerCmd))
        requires
            old(self).wf(),
            now_ms <= LAST_USEFUL_MS,
        ensures
            final(self).wf(),
            final(self).player_room == old(self).player_room,
            !r.0 ==> final(self).rooms@ == old(self).rooms@ && final(self).player_room == old(self).player_room && final(self).pending == old(self).pending && r.1 is Keep,
            r.0 ==> exists|k: int|
                #![trigger old(self).rooms@[k]]
                0 <= k < old(self).rooms@.len() && maps_to(
                    old(self).player_room@,
                    msg.user_id@,
                    old(self).rooms@[k].id@,
                ) && one_room_changed(*old(self), *final(self), k) && ({
                    let orm = old(self).rooms@[k];
                    let nrm = final(self).rooms@[k];
                    &&& orm.stage == GameStage::Choose
                    &&& spec_is_cur(orm, msg.user_id@)
                    &&& msg.word@.len() > 0
                    &&& nrm == (RoomData {
                        word: nrm.word,
                        stage: GameStage::Drawing,
                        next_timestamp: Some((now_ms + (DRAW_TIME as i64) * 1000) as i64),
                        ..orm
                    })
                    &&& nrm.word == msg.word
                    &&& pending_has(
                        final(self).pending@,
                        orm.id@,
                        TimerEvent::DrawEnd,
                        now_ms + (DRAW_TIME as i64) * 1000,
                    )
                    &&& (r.1 matches TimerCmd::Arm(c, ev) && c@ == orm.id@ && ev
                        == TimerEvent::DrawEnd)
                    &&& (forall|rid2: Seq<char>|
                        rid2 != orm.id@ ==> #[trigger] has_pending(final(self).pending@, rid2)
                            == has_pending(old(self).pending@, rid2))
                }),
    {
        let kopt = self.room_idx_of_player(&msg.user_id);
        match kopt {
            None => (false, TimerCmd::Keep),
            Some(k) => {
                let ghost pre = *self;
                let rid = self.rooms[k].id.clone();
                let ok = self.rooms[k].pick_a_word(&msg.user_id, msg.word, now_ms);
                proof {
                    lemma_rooms_update(pre.rooms@, self.rooms@, self.player_room@, k as int);
                    assert forall|i: int| 0 <= i < self.rooms@.len() implies (
                    #[trigger] self.rooms@[i]).wf() by {
                        if i != k {
                            assert(self.rooms@[i] == pre.rooms@[i]);
                        }
                    }
                }
                if ok {
                    pending_arm(
                        &mut self.pending,
                        &rid,
                        TimerEvent::DrawEnd,
                        now_ms + (DRAW_TIME as i64) * 1000,
                    );
                    (true, TimerCmd::Arm(rid, TimerEvent::DrawEnd))
                } else {
                    proof {
                        assert(self.rooms@ =~= pre.rooms@);
                    }
                    (false, TimerCmd::Keep)
                }
            },
        }
    }

    /// The draw deadline fired: its pending entry is consumed; in
    /// `Drawing` stage the turn is settled into `Result` and the result
    /// window is armed.
    pub fn draw_end(&mut self, room_id: &String, now_ms: i64) -> (cmd: TimerCmd)
        requires
            old(self).wf(),
            now_ms <= LAST_USEFUL_MS,
        ensures
            final(self).wf(),
            final(self).player_room == old(self).player_room,
            !has_room(old(self).rooms@, room_id@) ==> final(self).rooms == old(self).rooms
                && !has_pending(final(self).pending@, room_id@) && cmd is Keep,
            has_room(old(self).rooms@, room_id@) ==> exists|k: int|
                #![trigger old(self).rooms@[k]]
                0 <= k < old(self).rooms@.len() && old(self).rooms@[k].id@ == room_id@ && ({
                    let orm = old(self).rooms@[k];
                    let nrm = final(self).rooms@[k];
                    &&& final(self).rooms@.len() == old(self).rooms@.len()
                    &&& (forall|j: int|
                        0 <= j < old(self).rooms@.len() && j != k ==> final(self).rooms@[j] == old(self).rooms@[j])
                    &&& (orm.stage != GameStage::Drawing ==> nrm == orm && !has_pending(
                        final(self).pending@,
                        orm.id@,
                    ) && cmd is Keep)
                    &&& (orm.stage == GameStage::Drawing ==> nrm.stage == GameStage::Result
                        && turn_settled(orm, nrm, now_ms) && pending_has(
                        final(self).pending@,
                        orm.id@,
                        TimerEvent::NextTurn,
                        now_ms + (RESULT_TIME as i64) * 1000,
                    ) && (cmd matches TimerCmd::Arm(c, ev) && c@ == orm.id@ && ev
                        == TimerEvent::NextTurn))
                    &&& (forall|rid2: Seq<char>|
                        rid2 != room_id@ ==> #[trigger] has_pending(final(self).pending@, rid2)
                            == has_pending(old(self).pending@, rid2))
                }),
    {
        pending_remove(&mut self.pending, room_id);
        match self.find_room(room_id) {
            None => TimerCmd::Keep,
            Some(k) => {
                if self.rooms[k].stage == GameStage::Drawing {
                    let ghost pre = *self;
                    self.rooms[k].draw_end(now_ms);
                    proof {
                        lemma_rooms_update(pre.rooms@, self.rooms@, self.player_room@, k as int);
                        assert forall|i: int| 0 <= i < self.rooms@.len() implies (
                        #[trigger] self.rooms@[i]).wf() by {
                            if i != k {
                                assert(self.rooms@[i] == pre.rooms@[i]);
                            }
                        }
                    }
                    pending_arm(
                        &mut self.pending,
                        room_id,
                        TimerEvent::NextTurn,
                        now_ms + (RESULT_TIME as i64) * 1000,
                    );
                    TimerCmd::Arm(room_id.clone(), TimerEvent::NextTurn)
                } else {
                    TimerCmd::Keep
                }
            },
        }
    }

    /// The result window closed: its pending entry is consumed and the
    /// rotation hands the turn on. While it continues, the next chooser's
    /// deadline is armed; when it is exhausted the match has ended.
    pub fn next_turn(&mut self, room_id: &String, now_ms: i64) -> (cmd: TimerCmd)
        requires
            old(self).wf(),
            now_ms <= LAST_USEFUL_MS,
        ensures
            final(self).wf(),
            final(self).player_room == old(self).player_room,
            !has_room(old(self).rooms@, room_id@) ==> final(self).rooms == old(self).rooms
                && !has_pending(final(self).pending@, room_id@) && cmd is Keep,
            has_room(old(self).rooms@, room_id@) ==> exists|k: int|
                #![trigger old(self).rooms@[k]]
                0 <= k < old(self).rooms@.len() && old(self).rooms@[k].id@ == room_id@ && ({
                    let orm = old(self).rooms@[k];
                    let nrm = final(self).rooms@[k];
                    let ns = next_seat_index(orm);
                    &&& final(self).rooms@.len() == old(self).rooms@.len()
                    &&& (forall|j: int|
                        0 <= j < old(self).rooms@.len() && j != k ==> final(self).rooms@[j] == old(self).rooms@[j])
                    &&& (orm.stage == GameStage::Choose || orm.stage == GameStage::Drawing
                        ==> nrm == orm && !has_pending(final(self).pending@, orm.id@)
                        && cmd is Keep)
                    &&& ((orm.stage == GameStage::Result || orm.stage == GameStage::Ready) && ns
                        < orm.seat@.len() ==> nrm.stage == GameStage::Choose && nrm.cur_seat
                        == Some(ns as usize) && nrm.cur_id == orm.seat@[ns] && nrm.draw_data@
                        == Seq::<DrawDataUnit>::empty() && nrm.word@ == Seq::<char>::empty()
                        && nrm.next_timestamp == Some((now_ms + (CHOOSE_TIME as i64) * 1000) as i64)
                        && pending_has(
                        final(self).pending@,
                        orm.id@,
                        TimerEvent::ChooseTimeout,
                        now_ms + (CHOOSE_TIME as i64) * 1000,
                    ) && (cmd matches TimerCmd::Arm(c, ev) && c@ == orm.id@ && ev
                        == TimerEvent::ChooseTimeout))
                    &&& ((orm.stage == GameStage::Result || orm.stage == GameStage::Ready) && ns
                        >= orm.seat@.len() ==> nrm.stage == GameStage::Ready && nrm.cur_seat is None
                        && nrm.settlement@ == Seq::<ScoreEntry>::empty() && !has_pending(
                        final(self).pending@,
                        orm.id@,
                    ) && cmd is Keep)
                    &&& (forall|rid2: Seq<char>|
                        rid2 != room_id@ ==> #[trigger] has_pending(final(self).pending@, rid2)
                            == has_pending(old(self).pending@, rid2))
                }),
    {
        pending_remove(&mut self.pending, room_id);
        match self.find_room(room_id) {
            None => TimerCmd::Keep,
            Some(k) => {
                let ghost pre = *self;
                let advanced = self.rooms[k].next_player_draw(now_ms);
                proof {
                    lemma_rooms_update(pre.rooms@, self.rooms@, self.player_room@, k as int);
                    assert forall|i: int| 0 <= i < self.rooms@.len() implies (
                    #[trigger] self.rooms@[i]).wf() by {
                        if i != k {
                            assert(self.rooms@[i] == pre.rooms@[i]);
                        }
                    }
                }
                if advanced {
                    pending_arm(
                        &mut self.pending,
                        room_id,
                        TimerEvent::ChooseTimeout,
                        now_ms + (CHOOSE_TIME as i64) * 1000,
                    );
                    TimerCmd::Arm(room_id.clone(), TimerEvent::ChooseTimeout)
                } else {
                    TimerCmd::Keep
                }
            },
        }
    }
}


/// Drops `user_id`'s index entry, if any.
fn index_remove(ix: &mut Vec<IndexEntry>, user_id: &String)
    requires
        index_distinct(old(ix)@),
    ensures
        index_distinct(final(ix)@),
        !has_index(final(ix)@, user_id@),
        forall|u2: Seq<char>|
            u2 != user_id@ ==> #[trigger] has_index(final(ix)@, u2) == has_index(old(ix)@, u2),
        forall|u2: Seq<char>, rid: Seq<char>|
            u2 != user_id@ ==> #[trigger] maps_to(final(ix)@, u2, rid) == maps_to(
                old(ix)@,
                u2,
                rid,
            ),
        forall|e: int|
            0 <= e < final(ix)@.len() ==> maps_to(
                old(ix)@,
                (#[trigger] final(ix)@[e]).user_id@,
                final(ix)@[e].room_id@,
            ),
{
    let n = ix.len();
    let mut k: usize = 0;
    while k < n
        invariant
            k <= n,
            ix@ == old(ix)@,
            index_distinct(ix@),
            n == ix@.len(),
            forall|j: int| 0 <= j < k ==> (#[trigger] ix@[j]).user_id@ != user_id@,
        decreases n - k,
    {
        if ix[k].user_id == *user_id {
            let ghost pre = ix@;
            ix.remove(k);
            proof {
                pre.remove_ensures(k as int);
                let w = ix@;
                assert forall|j: int| 0 <= j < w.len() implies (#[trigger] w[j]).user_id@
                    != user_id@ by {
                    if j < k {
                        assert(w[j] == pre[j]);
                    } else {
                        assert(w[j] == pre[j + 1]);
                        assert(pre[k as int].user_id@ != pre[j + 1].user_id@);
                    }
                }
                assert forall|a: int, b: int| 0 <= a < b < w.len() implies (
                #[trigger] w[a]).user_id@ != (#[trigger] w[b]).user_id@ by {
                    let a0: int = if a < k {
                        a
                    } else {
                        a + 1
                    };
                    let b0: int = if b < k {
                        b
                    } else {
                        b + 1
                    };
                    assert(w[a] == pre[a0]);
                    assert(w[b] == pre[b0]);
                }
                assert forall|e: int| 0 <= e < w.len() implies maps_to(
                    pre,
                    (#[trigger] w[e]).user_id@,
                    w[e].room_id@,
                ) by {
                    if e < k {
                        assert(w[e] == pre[e]);
                        assert(pre[e].user_id@ == w[e].user_id@ && pre[e].room_id@
                            == w[e].room_id@);
                    } else {
                        assert(w[e] == pre[e + 1]);
                        assert(pre[e + 1].user_id@ == w[e].user_id@ && pre[e + 1].room_id@
                            == w[e].room_id@);
                    }
                }
                assert forall|u2: Seq<char>|
                    u2 != user_id@ implies #[trigger] has_index(w, u2) == has_index(pre, u2) by {
                    if has_index(w, u2) {
                        let e = choose|e: int| 0 <= e < w.len() && (#[trigger] w[e]).user_id@ == u2;
                        if e < k {
                            assert(pre[e].user_id@ == u2);
                        } else {
                            assert(pre[e + 1].user_id@ == u2);
                        }
                    }
                    if has_index(pre, u2) {
                        let e = choose|e: int|
                            0 <= e < pre.len() && (#[trigger] pre[e]).user_id@ == u2;
                        if e < k {
                            assert(w[e].user_id@ == u2);
                        } else {
                            assert(w[e - 1].user_id@ == u2);
                        }
                    }
                }
                assert forall|u2: Seq<char>, rid: Seq<char>|
                    u2 != user_id@ implies #[trigger] maps_to(w, u2, rid) == maps_to(
                    pre,
                    u2,
                    rid,
                ) by {
                    if maps_to(w, u2, rid) {
                        let e = choose|e: int|
                            0 <= e < w.len() && (#[trigger] w[e]).user_id@ == u2 && w[e].room_id@
                                == rid;
                        if e < k {
                            assert(pre[e].user_id@ == u2 && pre[e].room_id@ == rid);
                        } else {
                            assert(pre[e + 1].user_id@ == u2 && pre[e + 1].room_id@ == rid);
                        }
                    }
                    if maps_to(pre, u2, rid) {
                        let e = choose|e: int|
                            0 <= e < pre.len() && (#[trigger] pre[e]).user_id@ == u2
                                && pre[e].room_id@ == rid;
                        if e < k {
                            assert(w[e].user_id@ == u2 && w[e].room_id@ == rid);
                        } else {
                            assert(w[e - 1].user_id@ == u2 && w[e - 1].room_id@ == rid);
                        }
                    }
                }
            }
            return ;
        }
        k = k + 1;
    }
    proof {
        assert forall|e: int| 0 <= e < ix@.len() implies maps_to(
            old(ix)@,
            (#[trigger] ix@[e]).user_id@,
            ix@[e].room_id@,
        ) by {
            assert(old(ix)@[e].user_id@ == ix@[e].user_id@ && old(ix)@[e].room_id@
                == ix@[e].room_id@);
        }
    }
}

impl Coordinator {
    /// A seated player stands up to watch. In `Ready` stage this also
    /// cancels the room's pending auto-start, matching the zeroed
    /// deadline the room records.
    pub fn get_up(&mut self, msg: RoomGetUpMsg) -> (r: (bool, TimerCmd))
        requires
            old(self).wf(),
        ensures
            final(self).wf(),
            r.0 == has_index(old(self).player_room@, msg.user_id@),
            !r.0 ==> *final(self) == *old(self) && r.1 is Keep,
            r.0 ==> exists|k: int|
                #![trigger old(self).rooms@[k]]
                0 <= k < old(self).rooms@.len() && maps_to(
                    old(self).player_room@,
                    msg.user_id@,
                    old(self).rooms@[k].id@,
                ) && one_room_changed(*old(self), *final(self), k) && ({
                    let orm = old(self).rooms@[k];
                    let nrm = final(self).rooms@[k];
                    &&& (!spec_seated(orm.seat@, msg.user_id@) ==> nrm == orm && final(self).pending == old(self).pending && r.1 is Keep)
                    &&& (spec_seated(orm.seat@, msg.user_id@) ==> nrm.observer@
                        == orm.observer@.push(msg.user_id) && !has_ready(
                        nrm.ready_state@,
                        msg.user_id@,
                    ) && !spec_seated(nrm.seat@, msg.user_id@) && nrm == (RoomData {
                        seat: nrm.seat,
                        observer: nrm.observer,
                        ready_state: nrm.ready_state,
                        next_timestamp: nrm.next_timestamp,
                        ..orm
                    }))
                    &&& (spec_seated(orm.seat@, msg.user_id@) && orm.stage == GameStage::Ready
                        ==> !has_pending(final(self).pending@, orm.id@) && (r.1 matches
                    TimerCmd::Cancel(c) && c@ == orm.id@))
                    &&& (spec_seated(orm.seat@, msg.user_id@) && orm.stage != GameStage::Ready
                        ==> final(self).pending == old(self).pending && r.1 is Keep)
                    &&& (forall|rid2: Seq<char>|
                        rid2 != orm.id@ ==> #[trigger] has_pending(final(self).pending@, rid2)
                            == has_pending(old(self).pending@, rid2))
                }),
    {
        let kopt = self.room_idx_of_player(&msg.user_id);
        match kopt {
            None => (false, TimerCmd::Keep),
            Some(k) => {
                let ghost pre = *self;
                let rid = self.rooms[k].id.clone();
                let seated = self.rooms[k].is_seated(&msg.user_id);
                let stage = self.rooms[k].stage;
                self.rooms[k].move_to_observer(&msg.user_id);
                proof {
                    lemma_rooms_update(pre.rooms@, self.rooms@, self.player_room@, k as int);
                    assert forall|i: int| 0 <= i < self.rooms@.len() implies (
                    #[trigger] self.rooms@[i]).wf() by {
                        if i != k {
                            assert(self.rooms@[i] == pre.rooms@[i]);
                        }
                    }
                }
                if seated && stage == GameStage::Ready {
                    pending_remove(&mut self.pending, &rid);
                    (true, TimerCmd::Cancel(rid))
                } else {
                    (true, TimerCmd::Keep)
                }
            },
        }
    }

    /// An observer sits down on seat `pos`; declined when the seat index
    /// is out of range, the seat is taken, or the player is not observing.
    pub fn sit_on(&mut self, msg: RoomSitOnMsg) -> (r: bool)
        requires
            old(self).wf(),
        ensures
            final(self).wf(),
            final(self).pending == old(self).pending,
            final(self).player_room == old(self).player_room,
            !r ==> final(self).rooms@ == old(self).rooms@,
            r ==> exists|k: int|
                #![trigger old(self).rooms@[k]]
                0 <= k < old(self).rooms@.len() && maps_to(
                    old(self).player_room@,
                    msg.user_id@,
                    old(self).rooms@[k].id@,
                ) && one_room_changed(*old(self), *final(self), k) && ({
                    let orm = old(self).rooms@[k];
                    let nrm = final(self).rooms@[k];
                    &&& msg.pos < orm.seat@.len()
                    &&& orm.seat@[msg.pos as int] is None
                    &&& has_str(orm.observer@, msg.user_id@)
                    &&& nrm.seat@ == orm.seat@.update(msg.pos as int, Some(msg.user_id))
                    &&& !has_str(nrm.observer@, msg.user_id@)
                    &&& nrm == (RoomData { seat: nrm.seat, observer: nrm.observer, ..orm })
                }),
    {
        let kopt = self.room_idx_of_player(&msg.user_id);
        match kopt {
            None => false,
            Some(k) => {
                let ghost pre = *self;
                let ok = self.rooms[k].sit_on(&msg.user_id, msg.pos as usize);
                proof {
                    lemma_rooms_update(pre.rooms@, self.rooms@, self.player_room@, k as int);
                    assert forall|i: int| 0 <= i < self.rooms@.len() implies (
                    #[trigger] self.rooms@[i]).wf() by {
                        if i != k {
                            assert(self.rooms@[i] == pre.rooms@[i]);
                        }
                    }
                    if !ok {
                        assert(self.rooms@ =~= pre.rooms@);
                    }
                }
                ok
            },
        }
    }

    /// Stores a chat message from a room member, masked and scored as the
    /// room's chat rules say; declined when the sender is in no room.
    pub fn chat(&mut self, msg: ChatMsg, now_ms: i64) -> (r: bool)
        requires
            old(self).wf(),
        ensures
            final(self).wf(),
            final(self).pending == old(self).pending,
            r == has_index(old(self).player_room@, msg.user_id@),
            !r ==> *final(self) == *old(self),
            r ==> exists|k: int|
                #![trigger old(self).rooms@[k]]
                0 <= k < old(self).rooms@.len() && maps_to(
                    old(self).player_room@,
                    msg.user_id@,
                    old(self).rooms@[k].id@,
                ) && one_room_changed(*old(self), *final(self), k) && ({
                    let orm = old(self).rooms@[k];
                    let nrm = final(self).rooms@[k];
                    &&& (chat_scores(orm, msg.user_id@, msg.content@) ==> nrm.round_score_map@
                        == orm.round_score_map@.push(
                        (ScoreEntry {
                            user_id: msg.user_id,
                            score: rank_score(orm.round_score_map@.len() as int),
                        }),
                    ))
                    &&& (!chat_scores(orm, msg.user_id@, msg.content@) ==> nrm.round_score_map
                        == orm.round_score_map)
                    &&& exists|line: ChatItem|
                        line.user_id == msg.user_id && line.timestamp == now_ms && line.content@
                            == masked_chat(orm.stage, orm.word@, msg.content@) && ((!chat_scores(
                            orm,
                            msg.user_id@,
                            msg.content@,
                        ) && nrm.chat_history@ == cap_chat(orm.chat_history@.push(line))) || (
                        chat_scores(orm, msg.user_id@, msg.content@) && exists|ann: ChatItem|
                            ann.user_id@ == "0"@ && ann.timestamp == now_ms && (exists|p: int|
                                0 <= p < orm.players@.len() && (#[trigger] orm.players@[p]).user_id@
                                    == msg.user_id@ && ann.content@ == guess_announcement(
                                    orm.players@[p].nick_name@,
                                    (orm.round_score_map@.len() + 1) as nat,
                                    rank_score(orm.round_score_map@.len() as int) as nat,
                                )) && nrm.chat_history@ == cap_chat(
                            orm.chat_history@.push(line).push(ann),
                        )))
                    &&& nrm.chat_history@.len() <= 20
                    &&& nrm == (RoomData {
                        round_score_map: nrm.round_score_map,
                        chat_history: nrm.chat_history,
                        ..orm
                    })
                }),
    {
        let kopt = self.room_idx_of_player(&msg.user_id);
        match kopt {
            None => false,
            Some(k) => {
                let ghost pre = *self;
                self.rooms[k].add_chat(msg.user_id, msg.content, now_ms);
                proof {
                    lemma_rooms_update(pre.rooms@, self.rooms@, self.player_room@, k as int);
                    assert forall|i: int| 0 <= i < self.rooms@.len() implies (
                    #[trigger] self.rooms@[i]).wf() by {
                        if i != k {
                            assert(self.rooms@[i] == pre.rooms@[i]);
                        }
                    }
                }
                true
            },
        }
    }

    /// The drawer appends a stroke; declined outside `Drawing` or from
    /// anyone but the active drawer.
    pub fn draw(&mut self, msg: DrawMsg) -> (r: bool)
        requires
            old(self).wf(),
        ensures
            final(self).wf(),
            final(self).pending == old(self).pending,
            final(self).player_room == old(self).player_room,
            !r ==> final(self).rooms@ == old(self).rooms@,
            r ==> exists|k: int|
                #![trigger old(self).rooms@[k]]
                0 <= k < old(self).rooms@.len() && maps_to(
                    old(self).player_room@,
                    msg.user_id@,
                    old(self).rooms@[k].id@,
                ) && one_room_changed(*old(self), *final(self), k) && ({
                    let orm = old(self).rooms@[k];
                    let nrm = final(self).rooms@[k];
                    &&& orm.stage == GameStage::Drawing
                    &&& spec_is_cur(orm, msg.user_id@)
                    &&& nrm.draw_data@ == orm.draw_data@.push(
                        (DrawDataUnit { data: msg.raw_data, timestamp: msg.timestamp }),
                    )
                    &&& nrm == (RoomData { draw_data: nrm.draw_data, ..orm })
                }),
    {
        let kopt = self.room_idx_of_player(&msg.user_id);
        match kopt {
            None => false,
            Some(k) => {
                let ghost pre = *self;
                let ok = self.rooms[k].draw(&msg.user_id, msg.raw_data, msg.timestamp);
                proof {
                    lemma_rooms_update(pre.rooms@, self.rooms@, self.player_room@, k as int);
                    assert forall|i: int| 0 <= i < self.rooms@.len() implies (
                    #[trigger] self.rooms@[i]).wf() by {
                        if i != k {
                            assert(self.rooms@[i] == pre.rooms@[i]);
                        }
                    }
                    if !ok {
                        assert(self.rooms@ =~= pre.rooms@);
                    }
                }
                ok
            },
        }
    }

    /// The drawer removes the latest stroke.
    pub fn undo(&mut self, msg: DrawUndoMsg) -> (r: bool)
        requires
            old(self).wf(),
        ensures
            final(self).wf(),
            final(self).pending == old(self).pending,
            final(self).player_room == old(self).player_room,
            !r ==> final(self).rooms@ == old(self).rooms@,
            r ==> exists|k: int|
                #![trigger old(self).rooms@[k]]
                0 <= k < old(self).rooms@.len() && maps_to(
                    old(self).player_room@,
                    msg.user_id@,
                    old(self).rooms@[k].id@,
                ) && one_room_changed(*old(self), *final(self), k) && ({
                    let orm = old(self).rooms@[k];
                    let nrm = final(self).rooms@[k];
                    &&& orm.stage == GameStage::Drawing
                    &&& spec_is_cur(orm, msg.user_id@)
                    &&& (orm.draw_data@.len() > 0 ==> nrm.draw_data@ == orm.draw_data@.drop_last())
                    &&& (orm.draw_data@.len() == 0 ==> nrm.draw_data@ == orm.draw_data@)
                    &&& nrm == (RoomData { draw_data: nrm.draw_data, ..orm })
                }),
    {
        let kopt = self.room_idx_of_player(&msg.user_id);
        match kopt {
            None => false,
            Some(k) => {
                let ghost pre = *self;
                let ok = self.rooms[k].undo_draw(&msg.user_id);
                proof {
                    lemma_rooms_update(pre.rooms@, self.rooms@, self.player_room@, k as int);
                    assert forall|i: int| 0 <= i < self.rooms@.len() implies (
                    #[trigger] self.rooms@[i]).wf() by {
                        if i != k {
                            assert(self.rooms@[i] == pre.rooms@[i]);
                        }
                    }
                    if !ok {
                        assert(self.rooms@ =~= pre.rooms@);
                    }
                }
                ok
            },
        }
    }

    /// The drawer empties the canvas.
    pub fn clear(&mut self, msg: DrawClearMsg) -> (r: bool)
        requires
            old(self).wf(),
        ensures
            final(self).wf(),
            final(self).pending == old(self).pending,
            final(self).player_room == old(self).player_room,
            !r ==> final(self).rooms@ == old(self).rooms@,
            r ==> exists|k: int|
                #![trigger old(self).rooms@[k]]
                0 <= k < old(self).rooms@.len() && maps_to(
                    old(self).player_room@,
                    msg.user_id@,
                    old(self).rooms@[k].id@,
                ) && one_room_changed(*old(self), *final(self), k) && ({
                    let orm = old(self).rooms@[k];
                    let nrm = final(self).rooms@[k];
                    &&& orm.stage == GameStage::Drawing
                    &&& spec_is_cur(orm, msg.user_id@)
                    &&& nrm.draw_data@ == Seq::<DrawDataUnit>::empty()
                    &&& nrm == (RoomData { draw_data: nrm.draw_data, ..orm })
                }),
    {
        let kopt = self.room_idx_of_player(&msg.user_id);
        match kopt {
            None => false,
            Some(k) => {
                let ghost pre = *self;
                let ok = self.rooms[k].clear_draw(&msg.user_id);
                proof {
                    lemma_rooms_update(pre.rooms@, self.rooms@, self.player_room@, k as int);
                    assert forall|i: int| 0 <= i < self.rooms@.len() implies (
                    #[trigger] self.rooms@[i]).wf() by {
                        if i != k {
                            assert(self.rooms@[i] == pre.rooms@[i]);
                        }
                    }
                    if !ok {
                        assert(self.rooms@ =~= pre.rooms@);
                    }
                }
                ok
            },
        }
    }

    /// The active turn-taker recolors the canvas background; anyone else
    /// is ignored.
    pub fn set_background(&mut self, msg: DrawChangeBackgoundMsg)
        requires
            old(self).wf(),
        ensures
            final(self).wf(),
            final(self).pending == old(self).pending,
            final(self).player_room == old(self).player_room,
            !has_index(old(self).player_room@, msg.user_id@) ==> final(self).rooms@ == old(self).rooms@,
            has_index(old(self).player_room@, msg.user_id@) ==> exists|k: int|
                #![trigger old(self).rooms@[k]]
                0 <= k < old(self).rooms@.len() && maps_to(
                    old(self).player_room@,
                    msg.user_id@,
                    old(self).rooms@[k].id@,
                ) && one_room_changed(*old(self), *final(self), k) && ({
                    let orm = old(self).rooms@[k];
                    let nrm = final(self).rooms@[k];
                    &&& (spec_is_cur(orm, msg.user_id@) ==> nrm.background@ == msg.color@ && nrm
                        == (RoomData { background: nrm.background, ..orm }))
                    &&& (!spec_is_cur(orm, msg.user_id@) ==> nrm == orm)
                }),
    {
        let kopt = self.room_idx_of_player(&msg.user_id);
        match kopt {
            None => {},
            Some(k) => {
                let ghost pre = *self;
                self.rooms[k].set_background(&msg.user_id, &msg.color);
                proof {
                    lemma_rooms_update(pre.rooms@, self.rooms@, self.player_room@, k as int);
                    assert forall|i: int| 0 <= i < self.rooms@.len() implies (
                    #[trigger] self.rooms@[i]).wf() by {
                        if i != k {
                            assert(self.rooms@[i] == pre.rooms@[i]);
                        }
                    }
                }
            },
        }
    }

    /// A player leaves outright: their index entry, roster record, seat
    /// or observer slot and ready flag all go. When the departing player
    /// held the active turn, the room is advanced the same way the
    /// matching deadline would have: a departing chooser forfeits the
    /// turn, a departing drawer ends it with the usual settlement.
    pub fn leave_room(&mut self, msg: LeaveRoomMsg, now_ms: i64) -> (cmd: TimerCmd)
        requires
            old(self).wf(),
            now_ms <= LAST_USEFUL_MS,
        ensures
            final(self).wf(),
            !has_index(old(self).player_room@, msg.user_id@) ==> *final(self) == *old(self)
                && cmd is Keep,
            has_index(old(self).player_room@, msg.user_id@) ==> !has_index(
                final(self).player_room@,
                msg.user_id@,
            ) && (forall|u2: Seq<char>|
                u2 != msg.user_id@ ==> #[trigger] has_index(final(self).player_room@, u2)
                    == has_index(old(self).player_room@, u2)) && exists|k: int|
                #![trigger old(self).rooms@[k]]
                0 <= k < old(self).rooms@.len() && maps_to(
                    old(self).player_room@,
                    msg.user_id@,
                    old(self).rooms@[k].id@,
                ) && final(self).rooms@.len() == old(self).rooms@.len() && (forall|j: int|
                    0 <= j < old(self).rooms@.len() && j != k ==> final(self).rooms@[j] == old(self).rooms@[j]) && ({
                    let orm = old(self).rooms@[k];
                    let nrm = final(self).rooms@[k];
                    &&& !spec_has_player(nrm.players@, msg.user_id@)
                    &&& !spec_seated(nrm.seat@, msg.user_id@)
                    &&& !has_ready(nrm.ready_state@, msg.user_id@)
                    &&& (!(spec_is_cur(orm, msg.user_id@) && (orm.stage == GameStage::Choose
                        || orm.stage == GameStage::Drawing)) ==> final(self).pending == old(self).pending && cmd is Keep && nrm.stage == orm.stage && nrm.chat_history
                        == orm.chat_history && nrm.settlement == orm.settlement)
                    &&& (spec_is_cur(orm, msg.user_id@) && orm.stage == GameStage::Choose ==> ((
                    nrm.stage == GameStage::Choose && (cmd matches TimerCmd::Arm(c, ev) && c@
                        == orm.id@ && ev == TimerEvent::ChooseTimeout) && pending_has(
                        final(self).pending@,
                        orm.id@,
                        TimerEvent::ChooseTimeout,
                        now_ms + (CHOOSE_TIME as i64) * 1000,
                    )) || (nrm.stage == GameStage::Ready && nrm.cur_seat is None && (cmd matches
                    TimerCmd::Cancel(c) && c@ == orm.id@) && !has_pending(
                        final(self).pending@,
                        orm.id@,
                    ))))
                    &&& (spec_is_cur(orm, msg.user_id@) && orm.stage == GameStage::Drawing
                        ==> nrm.stage == GameStage::Result && (cmd matches TimerCmd::Arm(c, ev)
                        && c@ == orm.id@ && ev == TimerEvent::NextTurn) && pending_has(
                        final(self).pending@,
                        orm.id@,
                        TimerEvent::NextTurn,
                        now_ms + (RESULT_TIME as i64) * 1000,
                    ))
                    &&& (forall|rid2: Seq<char>|
                        rid2 != orm.id@ ==> #[trigger] has_pending(final(self).pending@, rid2)
                            == has_pending(old(self).pending@, rid2))
                }),
    {
        let kopt = self.room_idx_of_player(&msg.user_id);
        match kopt {
            None => TimerCmd::Keep,
            Some(k) => {
                let ghost pre = *self;
                let rid = self.rooms[k].id.clone();
                index_remove(&mut self.player_room, &msg.user_id);
                let was_cur = self.rooms[k].is_current_player(&msg.user_id);
                let stage = self.rooms[k].stage;
                self.rooms[k].player_leave(&msg.user_id);
                proof {
                    let w = self.rooms@;
                    let ix = self.player_room@;
                    assert forall|a: int, b: int| 0 <= a < b < w.len() implies (
                    #[trigger] w[a]).id@ != (#[trigger] w[b]).id@ by {
                        assert(w[a].id@ == pre.rooms@[a].id@);
                        assert(w[b].id@ == pre.rooms@[b].id@);
                    }
                    assert forall|i: int| 0 <= i < w.len() implies (#[trigger] w[i]).wf() by {
                        if i != k {
                            assert(w[i] == pre.rooms@[i]);
                        }
                    }
                    assert forall|e: int| 0 <= e < ix.len() implies exists|i: int|
                        0 <= i < w.len() && (#[trigger] w[i]).id@ == (#[trigger] ix[e]).room_id@
                            && spec_has_player(w[i].players@, ix[e].user_id@) by {
                        assert(maps_to(pre.player_room@, ix[e].user_id@, ix[e].room_id@));
                        assert(ix[e].user_id@ != msg.user_id@) by {
                            if ix[e].user_id@ == msg.user_id@ {
                                assert(has_index(ix, msg.user_id@));
                            }
                        }
                        let i = choose|i: int|
                            0 <= i < pre.rooms@.len() && (#[trigger] pre.rooms@[i]).id@
                                == ix[e].room_id@ && spec_has_player(
                                pre.rooms@[i].players@,
                                ix[e].user_id@,
                            );
                        assert(w[i].id@ == pre.rooms@[i].id@);
                        if i == k {
                            assert(spec_has_player(w[i].players@, ix[e].user_id@));
                        } else {
                            assert(w[i] == pre.rooms@[i]);
                        }
                        assert(w[i].id@ == ix[e].room_id@ && spec_has_player(
                            w[i].players@,
                            ix[e].user_id@,
                        ));
                    }
                }
                if was_cur && stage == GameStage::Choose {
                    let ghost mid = *self;
                    let advanced = self.rooms[k].choose_timeout(now_ms);
                    proof {
                        lemma_rooms_update(mid.rooms@, self.rooms@, self.player_room@, k as int);
                        assert forall|i: int| 0 <= i < self.rooms@.len() implies (
                        #[trigger] self.rooms@[i]).wf() by {
                            if i != k {
                                assert(self.rooms@[i] == mid.rooms@[i]);
                            }
                        }
                    }
                    if advanced {
                        pending_arm(
                            &mut self.pending,
                            &rid,
                            TimerEvent::ChooseTimeout,
                            now_ms + (CHOOSE_TIME as i64) * 1000,
                        );
                        TimerCmd::Arm(rid, TimerEvent::ChooseTimeout)
                    } else {
                        pending_remove(&mut self.pending, &rid);
                        TimerCmd::Cancel(rid)
                    }
                } else if was_cur && stage == GameStage::Drawing {
                    let ghost mid = *self;
                    self.rooms[k].draw_end(now_ms);
                    proof {
                        lemma_rooms_update(mid.rooms@, self.rooms@, self.player_room@, k as int);
                        assert forall|i: int| 0 <= i < self.rooms@.len() implies (
                        #[trigger] self.rooms@[i]).wf() by {
                            if i != k {
                                assert(self.rooms@[i] == mid.rooms@[i]);
                            }
                        }
                    }
                    pending_arm(
                        &mut self.pending,
                        &rid,
                        TimerEvent::NextTurn,
                        now_ms + (RESULT_TIME as i64) * 1000,
                    );
                    TimerCmd::Arm(rid, TimerEvent::NextTurn)
                } else {
                    TimerCmd::Keep
                }
            },
        }
    }
}

} // verus!
