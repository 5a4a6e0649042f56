//! One game room: seats, observers, chat, scores and the
//! Ready -> Choose -> Drawing -> Result turn cycle.
use vstd::prelude::*;

use crate::draw_data::{DrawData, DrawDataUnit};
use crate::player::Player;
use crate::text::{
    dec_seq, grapheme_count, grapheme_count_of, mask_matches, mask_word, star_seq, stars,
    u64_to_dec,
};

verus! {

/// Number of seats; later joiners become observers.
pub const MAX_PEOPLE: usize = 6;

/// Fewest seated players for an automatic start.
pub const MIN_START_PEOPLE: u8 = 3;

/// Seconds granted to choose a word.
pub const CHOOSE_TIME: u8 = 10;

/// Seconds granted to draw.
pub const DRAW_TIME: u8 = 20;

/// Seconds the turn result stays on screen.
pub const RESULT_TIME: u8 = 5;

/// Seconds of countdown before an automatic start.
pub const AUTO_START_TIME: u8 = 5;

/// Largest timestamp the deadline arithmetic accepts without overflow.
pub const LAST_USEFUL_MS: i64 = i64::MAX - 60_000;

/// One chat line; `user_id` is `"0"` for system messages.
#[derive(Debug)]
pub struct ChatItem {
    pub content: String,
    pub user_id: String,
    pub timestamp: i64,
}

impl ChatItem {
    /// An equal copy of this chat line.
    pub fn dup(&self) -> (r: ChatItem)
        ensures
            r == *self,
    {
        ChatItem {
            content: self.content.clone(),
            user_id: self.user_id.clone(),
            timestamp: self.timestamp,
        }
    }
}

/// One ready flag.
pub struct ReadyEntry {
    pub user_id: String,
    pub ready: bool,
}

impl ReadyEntry {
    /// An equal copy of this entry.
    pub fn dup(&self) -> (r: ReadyEntry)
        ensures
            r == *self,
    {
        ReadyEntry { user_id: self.user_id.clone(), ready: self.ready }
    }
}

/// Points held by one player, either for the running turn or for the match.
pub struct ScoreEntry {
    pub user_id: String,
    pub score: u16,
}

impl ScoreEntry {
    /// An equal copy of this entry.
    pub fn dup(&self) -> (r: ScoreEntry)
        ensures
            r == *self,
    {
        ScoreEntry { user_id: self.user_id.clone(), score: self.score }
    }
}

/// The four stages of the turn cycle.
#[derive(PartialEq, Eq, Structural, Clone, Copy, Debug)]
pub enum GameStage {
    Ready,
    Choose,
    Drawing,
    Result,
}

/// What a readiness evaluation decided.
#[derive(PartialEq, Eq, Structural, Clone, Copy, Debug)]
pub enum IfAllReadyResult {
    /// Not every seated player is ready, or fewer than three are seated.
    NotReady,
    /// Six ready seated players: start at once.
    Start,
    /// Three to five ready seated players: start after this many seconds.
    AutoStart(u8),
}

/// Whether this seat slot holds the player `id`.
pub open spec fn slot_is(slot: Option<String>, id: Seq<char>) -> bool {
    slot is Some && slot->0@ == id
}

/// Whether `id` occupies some seat.
pub open spec fn spec_seated(seat: Seq<Option<String>>, id: Seq<char>) -> bool {
    exists|i: int| 0 <= i < seat.len() && #[trigger] slot_is(seat[i], id)
}

/// How many seats are occupied.
pub open spec fn count_seated(seat: Seq<Option<String>>) -> int
    decreases seat.len(),
{
    if seat.len() == 0 {
        0
    } else {
        count_seated(seat.drop_last()) + if seat.last() is Some {
            1int
        } else {
            0int
        }
    }
}

/// No player id occupies two seats.
pub open spec fn seat_distinct(seat: Seq<Option<String>>) -> bool {
    forall|i: int, j: int|
        0 <= i < j < seat.len() && seat[i] is Some && seat[j] is Some ==> (#[trigger] seat[i])->0@
            != (#[trigger] seat[j])->0@
}

/// Whether the string `id` is in `v`.
pub open spec fn has_str(v: Seq<String>, id: Seq<char>) -> bool {
    exists|i: int| 0 <= i < v.len() && (#[trigger] v[i])@ == id
}

/// The strings in `v` are pairwise distinct.
pub open spec fn strs_distinct(v: Seq<String>) -> bool {
    forall|i: int, j: int| 0 <= i < j < v.len() ==> (#[trigger] v[i])@ != (#[trigger] v[j])@
}

/// Whether a player record with id `id` is in `players`.
pub open spec fn spec_has_player(players: Seq<Player>, id: Seq<char>) -> bool {
    exists|i: int| 0 <= i < players.len() && (#[trigger] players[i]).user_id@ == id
}

/// The player ids in `players` are pairwise distinct.
pub open spec fn players_distinct(players: Seq<Player>) -> bool {
    forall|i: int, j: int|
        0 <= i < j < players.len() ==> (#[trigger] players[i]).user_id@ != (
        #[trigger] players[j]).user_id@
}

/// Whether a ready entry for `id` exists.
pub open spec fn has_ready(rs: Seq<ReadyEntry>, id: Seq<char>) -> bool {
    exists|i: int| 0 <= i < rs.len() && (#[trigger] rs[i]).user_id@ == id
}

/// The ready entries carry pairwise distinct ids.
pub open spec fn ready_distinct(rs: Seq<ReadyEntry>) -> bool {
    forall|i: int, j: int|
        0 <= i < j < rs.len() ==> (#[trigger] rs[i]).user_id@ != (#[trigger] rs[j]).user_id@
}

/// Whether a score entry for `id` exists.
pub open spec fn has_score(sc: Seq<ScoreEntry>, id: Seq<char>) -> bool {
    exists|i: int| 0 <= i < sc.len() && (#[trigger] sc[i]).user_id@ == id
}

/// The score entries carry pairwise distinct ids.
pub open spec fn scores_distinct(sc: Seq<ScoreEntry>) -> bool {
    forall|i: int, j: int|
        0 <= i < j < sc.len() ==> (#[trigger] sc[i]).user_id@ != (#[trigger] sc[j]).user_id@
}

/// Points for the `k`-th correct guesser of a turn (zero-based):
/// 6, then 5, then 3 for everyone after.
pub open spec fn rank_score(k: int) -> u16 {
    if k == 0 {
        6u16
    } else if k == 1 {
        5u16
    } else {
        3u16
    }
}

/// Whether `id` is the active turn-taker of `r`.
pub open spec fn spec_is_cur(r: RoomData, id: Seq<char>) -> bool {
    r.cur_id is Some && r.cur_id->0@ == id
}

/// Where the rotation resumes: one past the current seat, or the first
/// seat when no turn is active.
pub open spec fn rotation_start(r: RoomData) -> int {
    if r.cur_seat is Some {
        r.cur_seat->0 + 1
    } else {
        0
    }
}

/// The seat the rotation hands the next turn to, or the seat count when
/// the rotation is exhausted.
pub open spec fn next_seat_index(r: RoomData) -> int {
    next_occupied_from(r.seat@, rotation_start(r))
}

/// The least occupied seat index at or after `i`, or the seat count when
/// every seat from `i` on is empty.
pub open spec fn next_occupied_from(seat: Seq<Option<String>>, i: int) -> int
    recommends
        0 <= i <= seat.len(),
    decreases seat.len() - i when 0 <= i <= seat.len()
{
    if i >= seat.len() {
        seat.len() as int
    } else if seat[i] is Some {
        i
    } else {
        next_occupied_from(seat, i + 1)
    }
}

/// `next_occupied_from` lands on the first occupied seat at or after `i`.
pub proof fn lemma_next_occupied(seat: Seq<Option<String>>, i: int)
    requires
        0 <= i <= seat.len(),
    ensures
        i <= next_occupied_from(seat, i) <= seat.len(),
        next_occupied_from(seat, i) < seat.len() ==> seat[next_occupied_from(seat, i)] is Some,
        forall|j: int| i <= j < next_occupied_from(seat, i) ==> (#[trigger] seat[j]) is None,
    decreases seat.len() - i,
{
    if i < seat.len() && !(seat[i] is Some) {
        lemma_next_occupied(seat, i + 1);
    }
}

/// Skipping a stretch of empty seats does not change where
/// `next_occupied_from` lands.
pub proof fn lemma_next_occupied_skip(seat: Seq<Option<String>>, start: int, k: int)
    requires
        0 <= start <= k <= seat.len(),
        forall|j: int| start <= j < k ==> (#[trigger] seat[j]) is None,
    ensures
        next_occupied_from(seat, start) == next_occupied_from(seat, k),
    decreases k - start,
{
    if start < k {
        lemma_next_occupied_skip(seat, start + 1, k);
    }
}

/// The occupied-seat count lies between zero and the seat count.
pub proof fn lemma_count_seated_bounds(seat: Seq<Option<String>>)
    ensures
        0 <= count_seated(seat) <= seat.len(),
    decreases seat.len(),
{
    if seat.len() > 0 {
        lemma_count_seated_bounds(seat.drop_last());
    }
}

/// A seat list with no occupant counts zero.
pub proof fn lemma_count_seated_none(seat: Seq<Option<String>>)
    requires
        forall|i: int| 0 <= i < seat.len() ==> (#[trigger] seat[i]) is None,
    ensures
        count_seated(seat) == 0,
    decreases seat.len(),
{
    if seat.len() > 0 {
        assert(forall|i: int|
            0 <= i < seat.drop_last().len() ==> (#[trigger] seat.drop_last()[i]) is None);
        lemma_count_seated_none(seat.drop_last());
    }
}

/// Every seated player has a ready entry.
pub open spec fn all_seated_ready(seat: Seq<Option<String>>, rs: Seq<ReadyEntry>) -> bool {
    forall|i: int|
        0 <= i < seat.len() && (#[trigger] seat[i]) is Some ==> has_ready(rs, seat[i]->0@)
}

/// `a + b`, stopping at the largest `u16` value.
pub open spec fn sat_add16(a: u16, b: u16) -> u16 {
    if a + b > u16::MAX {
        u16::MAX
    } else {
        (a + b) as u16
    }
}

/// The least position at or after `k` holding a score entry for `id`, or
/// the length when there is none.
pub open spec fn score_index_from(sc: Seq<ScoreEntry>, id: Seq<char>, k: int) -> int
    recommends
        0 <= k <= sc.len(),
    decreases sc.len() - k when 0 <= k <= sc.len()
{
    if k >= sc.len() {
        sc.len() as int
    } else if sc[k].user_id@ == id {
        k
    } else {
        score_index_from(sc, id, k + 1)
    }
}

/// The position of `id`'s score entry, or the length when there is none.
pub open spec fn score_index(sc: Seq<ScoreEntry>, id: Seq<char>) -> int {
    score_index_from(sc, id, 0)
}

/// `score_index_from` lands on the first entry for `id` at or after `k`.
pub proof fn lemma_score_index_from(sc: Seq<ScoreEntry>, id: Seq<char>, k: int)
    requires
        0 <= k <= sc.len(),
    ensures
        k <= score_index_from(sc, id, k) <= sc.len(),
        score_index_from(sc, id, k) < sc.len() ==> sc[score_index_from(sc, id, k)].user_id@ == id,
        forall|j: int|
            k <= j < score_index_from(sc, id, k) ==> (#[trigger] sc[j]).user_id@ != id,
    decreases sc.len() - k,
{
    if k < sc.len() && sc[k].user_id@ != id {
        lemma_score_index_from(sc, id, k + 1);
    }
}

/// Skipping a stretch without `id` does not change where the index lands.
pub proof fn lemma_score_index_skip(sc: Seq<ScoreEntry>, id: Seq<char>, k: int)
    requires
        0 <= k <= sc.len(),
        forall|j: int| 0 <= j < k ==> (#[trigger] sc[j]).user_id@ != id,
    ensures
        score_index(sc, id) == score_index_from(sc, id, k),
    decreases k,
{
    if k > 0 {
        lemma_score_index_skip(sc, id, k - 1);
    }
}

/// Credits `pts` to `id`: an existing entry is increased (saturating),
/// else a fresh entry is appended.
pub open spec fn add_score(sc: Seq<ScoreEntry>, id: String, pts: u16) -> Seq<ScoreEntry> {
    let k = score_index(sc, id@);
    if k < sc.len() {
        sc.update(k, (ScoreEntry { user_id: sc[k].user_id, score: sat_add16(sc[k].score, pts) }))
    } else {
        sc.push((ScoreEntry { user_id: id, score: pts }))
    }
}

/// Crediting points keeps the entry ids duplicate-free and keeps which ids
/// are present, beyond adding `id` itself.
pub proof fn lemma_add_score(sc: Seq<ScoreEntry>, id: String, pts: u16)
    requires
        scores_distinct(sc),
    ensures
        scores_distinct(add_score(sc, id, pts)),
        has_score(add_score(sc, id, pts), id@),
        forall|other: Seq<char>|
            other != id@ ==> #[trigger] has_score(add_score(sc, id, pts), other) == has_score(
                sc,
                other,
            ),
{
    let k = score_index(sc, id@);
    lemma_score_index_from(sc, id@, 0);
    let w = add_score(sc, id, pts);
    if k < sc.len() {
        assert(w[k].user_id@ == id@);
        assert forall|a: int, b: int| 0 <= a < b < w.len() implies (#[trigger] w[a]).user_id@ != (
        #[trigger] w[b]).user_id@ by {
            assert(w[a].user_id == sc[a].user_id);
            assert(w[b].user_id == sc[b].user_id);
        }
        assert forall|other: Seq<char>| other != id@ implies #[trigger] has_score(w, other)
            == has_score(sc, other) by {
            if has_score(w, other) {
                let j = choose|j: int| 0 <= j < w.len() && (#[trigger] w[j]).user_id@ == other;
                assert(sc[j].user_id@ == other);
            }
            if has_score(sc, other) {
                let j = choose|j: int| 0 <= j < sc.len() && (#[trigger] sc[j]).user_id@ == other;
                assert(w[j].user_id@ == other);
            }
        }
    } else {
        assert(w[w.len() - 1].user_id@ == id@);
        assert forall|a: int, b: int| 0 <= a < b < w.len() implies (#[trigger] w[a]).user_id@ != (
        #[trigger] w[b]).user_id@ by {
            if b < w.len() - 1 {
                assert(w[a] == sc[a] && w[b] == sc[b]);
            } else {
                assert(w[a] == sc[a]);
                assert(sc[a].user_id@ != id@);
            }
        }
        assert forall|other: Seq<char>| other != id@ implies #[trigger] has_score(w, other)
            == has_score(sc, other) by {
            if has_score(w, other) {
                let j = choose|j: int| 0 <= j < w.len() && (#[trigger] w[j]).user_id@ == other;
                assert(j < w.len() - 1);
                assert(sc[j].user_id@ == other);
            }
            if has_score(sc, other) {
                let j = choose|j: int| 0 <= j < sc.len() && (#[trigger] sc[j]).user_id@ == other;
                assert(w[j].user_id@ == other);
            }
        }
    }
}

/// Folds one turn's scores into the settlement, first entry first.
pub open spec fn fold_round(sc: Seq<ScoreEntry>, round: Seq<ScoreEntry>) -> Seq<ScoreEntry>
    decreases round.len(),
{
    if round.len() == 0 {
        sc
    } else {
        fold_round(add_score(sc, round[0].user_id, round[0].score), round.skip(1))
    }
}

/// Folding a turn's scores keeps the settlement ids duplicate-free.
pub proof fn lemma_fold_round_distinct(sc: Seq<ScoreEntry>, round: Seq<ScoreEntry>)
    requires
        scores_distinct(sc),
    ensures
        scores_distinct(fold_round(sc, round)),
    decreases round.len(),
{
    if round.len() > 0 {
        lemma_add_score(sc, round[0].user_id, round[0].score);
        lemma_fold_round_distinct(add_score(sc, round[0].user_id, round[0].score), round.skip(1));
    }
}

/// The chat history bound: everything past the most recent twenty lines
/// is dropped.
pub open spec fn cap_chat(s: Seq<ChatItem>) -> Seq<ChatItem> {
    if s.len() <= 20 {
        s
    } else {
        s.skip(s.len() - 20)
    }
}

/// How a chat line is stored: outside `Drawing` verbatim; an exact guess
/// becomes one asterisk per grapheme; anything else has every occurrence
/// of the secret word masked.
pub open spec fn masked_chat(stage: GameStage, word: Seq<char>, content: Seq<char>) -> Seq<char> {
    if stage != GameStage::Drawing {
        content
    } else if content == word {
        star_seq(grapheme_count_of(content) as nat)
    } else {
        mask_matches(content, word)
    }
}

/// Whether this chat message scores: an exact guess, while drawing, by a
/// non-drawer who has not already scored this turn.
pub open spec fn chat_scores(r: RoomData, user: Seq<char>, content: Seq<char>) -> bool {
    &&& r.stage == GameStage::Drawing
    &&& content == r.word@
    &&& !spec_is_cur(r, user)
    &&& !has_score(r.round_score_map@, user)
}

/// The opening of every turn summary: the revealed answer.
pub open spec fn answer_prefix(word: Seq<char>) -> Seq<char> {
    "The answer was ["@ + word + "]. "@
}

/// How many points the drawer earns from `count` correct guessers among
/// `seated` seated players.
pub open spec fn drawer_bonus(count: int, seated: int) -> u16 {
    if count == seated - 1 {
        0u16
    } else if count == seated - 2 {
        6u16
    } else if count > 0 {
        3u16
    } else {
        0u16
    }
}

/// The system chat line appended when a turn ends.
pub open spec fn turn_summary(
    word: Seq<char>,
    count: int,
    nick: Option<Seq<char>>,
    seated: int,
) -> Seq<char> {
    if nick is Some {
        if count == seated - 1 {
            answer_prefix(word) + "all players guessed; "@ + nick->0 + " gets no points."@
        } else if count == seated - 2 {
            answer_prefix(word) + dec_seq(count as nat) + " players guessed; "@ + nick->0
                + " gets 6 points."@
        } else if count > 0 {
            answer_prefix(word) + dec_seq(count as nat) + " players guessed; "@ + nick->0
                + " gets 3 points."@
        } else {
            answer_prefix(word) + "nobody guessed; "@ + nick->0 + " gets no points."@
        }
    } else {
        answer_prefix(word) + dec_seq(count as nat)
            + " players guessed; the drawer has left and gets no points."@
    }
}

/// The system chat line announcing a correct guess.
pub open spec fn guess_announcement(nick: Seq<char>, no: nat, score: nat) -> Seq<char> {
    nick + " guessed right in place "@ + dec_seq(no) + ", scoring "@ + dec_seq(score) + " points."@
}

/// The position of `user_id`'s entry, if present: the least one.
fn find_score(sc: &Vec<ScoreEntry>, user_id: &String) -> (r: Option<usize>)
    ensures
        r is Some ==> r->0 as int == score_index(sc@, user_id@) && r->0 < sc@.len(),
        r is None ==> score_index(sc@, user_id@) == sc@.len() && !has_score(sc@, user_id@),
{
    let n = sc.len();
    let mut k: usize = 0;
    while k < n
        invariant
            k <= n,
            n == sc@.len(),
            forall|j: int| 0 <= j < k ==> (#[trigger] sc@[j]).user_id@ != user_id@,
        decreases n - k,
    {
        if sc[k].user_id == *user_id {
            proof {
                lemma_score_index_skip(sc@, user_id@, k as int);
            }
            return Some(k);
        }
        k = k + 1;
    }
    proof {
        lemma_score_index_skip(sc@, user_id@, n as int);
    }
    None
}

/// Credits `pts` to `user_id` in `sc`, as `add_score` describes.
fn upsert_score(sc: &mut Vec<ScoreEntry>, user_id: &String, pts: u16)
    ensures
        final(sc)@ == add_score(old(sc)@, *user_id, pts),
{
    match find_score(sc, user_id) {
        Some(k) => {
            let cur = sc[k].score;
            let bumped: u16 = if cur <= u16::MAX - pts {
                cur + pts
            } else {
                u16::MAX
            };
            let uid = sc[k].user_id.clone();
            sc[k] = ScoreEntry { user_id: uid, score: bumped };
        },
        None => {
            sc.push(ScoreEntry { user_id: user_id.clone(), score: pts });
        },
    }
}

/// Folds every entry of `round` into `sc`, first entry first.
fn fold_scores(sc: &mut Vec<ScoreEntry>, round: &Vec<ScoreEntry>)
    ensures
        final(sc)@ == fold_round(old(sc)@, round@),
{
    let n = round.len();
    let mut i: usize = 0;
    proof {
        assert(round@.skip(0) =~= round@);
    }
    while i < n
        invariant
            i <= n,
            n == round@.len(),
            fold_round(old(sc)@, round@) == fold_round(sc@, round@.skip(i as int)),
        decreases n - i,
    {
        let ghost pre = sc@;
        let entry = round[i].dup();
        upsert_score(sc, &entry.user_id, entry.score);
        proof {
            let tail = round@.skip(i as int);
            assert(tail[0] == round@[i as int]);
            assert(tail.skip(1) =~= round@.skip(i + 1));
            assert(fold_round(pre, tail) == fold_round(
                add_score(pre, round@[i as int].user_id, round@[i as int].score),
                round@.skip(i + 1),
            ));
        }
        i = i + 1;
    }
    proof {
        assert(round@.skip(n as int) =~= Seq::<ScoreEntry>::empty());
    }
}

/// Drops the oldest lines until at most twenty remain.
fn cap_history(chat: &mut Vec<ChatItem>)
    ensures
        final(chat)@ == cap_chat(old(chat)@),
        final(chat)@.len() <= 20,
{
    while chat.len() > 20
        invariant
            cap_chat(chat@) == cap_chat(old(chat)@),
        decreases chat@.len(),
    {
        let ghost pre = chat@;
        chat.remove(0);
        proof {
            assert(chat@ =~= pre.skip(1));
            assert(pre.len() > 20);
            assert(cap_chat(pre.skip(1)) =~= cap_chat(pre));
        }
    }
}

/// How ending a turn settles the room `o` into `n`: the turn's scores are
/// folded into the settlement, the drawer's bonus is credited, one system
/// chat line summarises the turn, and the turn tally is cleared.
pub open spec fn turn_settled(o: RoomData, n: RoomData, now_ms: i64) -> bool {
    let count = o.round_score_map@.len() as int;
    let seated = count_seated(o.seat@);
    let folded = fold_round(o.settlement@, o.round_score_map@);
    &&& n.round_score_map@ == Seq::<ScoreEntry>::empty()
    &&& (o.cur_id is None ==> n.settlement@ == folded && n.chat_history == o.chat_history)
    &&& (o.cur_id is Some ==> {
        let d = o.cur_id->0;
        &&& (spec_has_player(o.players@, d@) && drawer_bonus(count, seated) != 0
            ==> n.settlement@ == add_score(folded, d, drawer_bonus(count, seated)))
        &&& (!(spec_has_player(o.players@, d@) && drawer_bonus(count, seated) != 0)
            ==> n.settlement@ == folded)
        &&& n.chat_history@.len() == o.chat_history@.len() + 1
        &&& n.chat_history@.subrange(0, o.chat_history@.len() as int) == o.chat_history@
        &&& n.chat_history@.last().user_id@ == "0"@
        &&& n.chat_history@.last().timestamp == now_ms
        &&& (spec_has_player(o.players@, d@) ==> exists|p: int|
            0 <= p < o.players@.len() && (#[trigger] o.players@[p]).user_id@ == d@
                && n.chat_history@.last().content@ == turn_summary(
                o.word@,
                count,
                Some(o.players@[p].nick_name@),
                seated,
            ))
        &&& (!spec_has_player(o.players@, d@) ==> n.chat_history@.last().content@ == turn_summary(
            o.word@,
            count,
            None,
            seated,
        ))
    })
    &&& n.seat == o.seat
    &&& n.players == o.players
    &&& n.observer == o.observer
    &&& n.ready_state == o.ready_state
    &&& n.cur_seat == o.cur_seat
    &&& n.cur_id == o.cur_id
    &&& n.next_timestamp == o.next_timestamp
    &&& n.word == o.word
    &&& n.draw_data == o.draw_data
    &&& n.background == o.background
    &&& n.id == o.id
    &&& n.name == o.name
}

/// Removing one string from a duplicate-free list keeps it duplicate-free,
/// removes that string entirely, and keeps every other string.
proof fn lemma_strs_remove(v: Seq<String>, k: int)
    requires
        strs_distinct(v),
        0 <= k < v.len(),
    ensures
        strs_distinct(v.remove(k)),
        !has_str(v.remove(k), v[k]@),
        forall|id: Seq<char>| #[trigger] has_str(v.remove(k), id) ==> has_str(v, id),
        forall|id: Seq<char>|
            id != v[k]@ && #[trigger] has_str(v, id) ==> has_str(v.remove(k), id),
{
    v.remove_ensures(k);
    let w = v.remove(k);
    assert forall|a: int, b: int| 0 <= a < b < w.len() implies (#[trigger] w[a])@ != (
    #[trigger] w[b])@ by {
        let a0: int = if a < k {
            a
        } else {
            a + 1
        };
        let b0: int = if b < k {
            b
        } else {
            b + 1
        };
        assert(w[a] == v[a0]);
        assert(w[b] == v[b0]);
    }
    assert forall|j: int| 0 <= j < w.len() implies (#[trigger] w[j])@ != v[k]@ by {
        if j < k {
            assert(w[j] == v[j]);
        } else {
            assert(w[j] == v[j + 1]);
        }
    }
    assert forall|id: Seq<char>| #[trigger] has_str(w, id) implies has_str(v, id) by {
        let j = choose|j: int| 0 <= j < w.len() && (#[trigger] w[j])@ == id;
        if j < k {
            assert(v[j]@ == id);
        } else {
            assert(v[j + 1]@ == id);
        }
    }
    assert forall|id: Seq<char>| id != v[k]@ && #[trigger] has_str(v, id) implies has_str(
        w,
        id,
    ) by {
        let j = choose|j: int| 0 <= j < v.len() && (#[trigger] v[j])@ == id;
        if j < k {
            assert(w[j]@ == id);
        } else {
            assert(w[j - 1]@ == id);
        }
    }
}

/// Removing one player from a duplicate-free roster keeps it duplicate-free,
/// removes that id entirely, and keeps every other player.
proof fn lemma_players_remove(v: Seq<Player>, k: int)
    requires
        players_distinct(v),
        0 <= k < v.len(),
    ensures
        players_distinct(v.remove(k)),
        !spec_has_player(v.remove(k), v[k].user_id@),
        forall|id: Seq<char>| #[trigger] spec_has_player(v.remove(k), id) ==> spec_has_player(
            v,
            id,
        ),
        forall|id: Seq<char>|
            id != v[k].user_id@ && #[trigger] spec_has_player(v, id) ==> spec_has_player(
                v.remove(k),
                id,
            ),
{
    v.remove_ensures(k);
    let w = v.remove(k);
    assert forall|a: int, b: int| 0 <= a < b < w.len() implies (#[trigger] w[a]).user_id@ != (
    #[trigger] w[b]).user_id@ by {
        let a0: int = if a < k {
            a
        } else {
            a + 1
        };
        let b0: int = if b < k {
            b
        } else {
            b + 1
        };
        assert(w[a] == v[a0]);
        assert(w[b] == v[b0]);
    }
    assert forall|j: int| 0 <= j < w.len() implies (#[trigger] w[j]).user_id@ != v[k].user_id@ by {
        if j < k {
            assert(w[j] == v[j]);
        } else {
            assert(w[j] == v[j + 1]);
        }
    }
    assert forall|id: Seq<char>| #[trigger] spec_has_player(w, id) implies spec_has_player(
        v,
        id,
    ) by {
        let j = choose|j: int| 0 <= j < w.len() && (#[trigger] w[j]).user_id@ == id;
        if j < k {
            assert(v[j].user_id@ == id);
        } else {
            assert(v[j + 1].user_id@ == id);
        }
    }
    assert forall|id: Seq<char>|
        id != v[k].user_id@ && #[trigger] spec_has_player(v, id) implies spec_has_player(
        w,
        id,
    ) by {
        let j = choose|j: int| 0 <= j < v.len() && (#[trigger] v[j]).user_id@ == id;
        if j < k {
            assert(w[j].user_id@ == id);
        } else {
            assert(w[j - 1].user_id@ == id);
        }
    }
}

/// One game room.
pub struct RoomData {
    pub id: String,
    pub name: String,
    pub players: Vec<Player>,
    pub seat: Vec<Option<String>>,
    pub ready_state: Vec<ReadyEntry>,
    pub observer: Vec<String>,
    pub chat_history: Vec<ChatItem>,
    pub stage: GameStage,
    pub cur_seat: Option<usize>,
    pub cur_id: Option<String>,
    pub next_timestamp: Option<i64>,
    pub word: String,
    pub draw_data: DrawData,
    pub background: String,
    pub round_score_map: Vec<ScoreEntry>,
    pub settlement: Vec<ScoreEntry>,
}

impl RoomData {
    /// The room's structural invariant.
    pub open spec fn wf(self) -> bool {
        &&& self.seat@.len() == MAX_PEOPLE
        &&& seat_distinct(self.seat@)
        &&& strs_distinct(self.observer@)
        &&& players_distinct(self.players@)
        &&& ready_distinct(self.ready_state@)
        &&& scores_distinct(self.round_score_map@)
        &&& scores_distinct(self.settlement@)
        &&& forall|id: Seq<char>|
            #[trigger] spec_seated(self.seat@, id) ==> spec_has_player(self.players@, id)
                && !has_str(self.observer@, id)
        &&& forall|i: int|
            0 <= i < self.observer@.len() ==> spec_has_player(
                self.players@,
                (#[trigger] self.observer@[i])@,
            )
        &&& self.cur_seat is Some <==> self.cur_id is Some
        &&& self.cur_seat is Some ==> 0 <= self.cur_seat->0 < MAX_PEOPLE
        &&& self.stage == GameStage::Drawing ==> self.word@.len() > 0 && self.cur_id is Some
        &&& self.stage == GameStage::Ready || self.stage == GameStage::Choose
            ==> self.word@.len() == 0
        &&& self.stage != GameStage::Drawing ==> self.round_score_map@.len() == 0
        &&& self.cur_id is Some ==> !has_score(self.round_score_map@, self.cur_id->0@)
        &&& forall|k: int|
            0 <= k < self.round_score_map@.len() ==> (#[trigger] self.round_score_map@[k]).score
                == rank_score(k)
    }

    /// A fresh room in `Ready` stage: six empty seats, nothing else.
    /// The id comes from `fresh_room_id`.
    pub fn new() -> (r: RoomData)
        ensures
            r.wf(),
            r.name@ == "Room"@,
            r.players@ == Seq::<Player>::empty(),
            r.seat@.len() == MAX_PEOPLE,
            forall|i: int| 0 <= i < r.seat@.len() ==> (#[trigger] r.seat@[i]) is None,
            r.ready_state@ == Seq::<ReadyEntry>::empty(),
            r.observer@ == Seq::<String>::empty(),
            r.chat_history@ == Seq::<ChatItem>::empty(),
            r.stage == GameStage::Ready,
            r.cur_seat is None,
            r.cur_id is None,
            r.next_timestamp is None,
            r.word@ == Seq::<char>::empty(),
            r.draw_data@ == Seq::<DrawDataUnit>::empty(),
            r.background@ == "#ffffff"@,
            r.round_score_map@ == Seq::<ScoreEntry>::empty(),
            r.settlement@ == Seq::<ScoreEntry>::empty(),
    {
        let mut seat: Vec<Option<String>> = Vec::new();
        let mut i: usize = 0;
        while i < MAX_PEOPLE
            invariant
                i <= MAX_PEOPLE,
                seat@.len() == i,
                forall|j: int| 0 <= j < i ==> (#[trigger] seat@[j]) is None,
            decreases MAX_PEOPLE - i,
        {
            seat.push(None);
            i = i + 1;
        }
        RoomData {
            id: crate::ident::fresh_room_id(),
            name: "Room".to_owned(),
            players: Vec::new(),
            seat,
            ready_state: Vec::new(),
            observer: Vec::new(),
            chat_history: Vec::new(),
            stage: GameStage::Ready,
            cur_seat: None,
            cur_id: None,
            next_timestamp: None,
            word: String::new(),
            draw_data: DrawData::new(),
            background: "#ffffff".to_owned(),
            round_score_map: Vec::new(),
            settlement: Vec::new(),
        }
    }

    /// Marks `user_id` ready. A fresh entry is inserted with flag `true`;
    /// re-marking an already present entry changes nothing.
    pub fn ready(&mut self, user_id: &String)
        requires
            old(self).wf(),
        ensures
            final(self).wf(),
            has_ready(old(self).ready_state@, user_id@) ==> *final(self) == *old(self),
            !has_ready(old(self).ready_state@, user_id@) ==> final(self).ready_state@ == old(self).ready_state@.push((ReadyEntry { user_id: *user_id, ready: true })),
            has_ready(final(self).ready_state@, user_id@),
            final(self).seat == old(self).seat,
            final(self).players == old(self).players,
            final(self).observer == old(self).observer,
            final(self).chat_history == old(self).chat_history,
            final(self).stage == old(self).stage,
            final(self).cur_seat == old(self).cur_seat,
            final(self).cur_id == old(self).cur_id,
            final(self).next_timestamp == old(self).next_timestamp,
            final(self).word == old(self).word,
            final(self).draw_data == old(self).draw_data,
            final(self).background == old(self).background,
            final(self).round_score_map == old(self).round_score_map,
            final(self).settlement == old(self).settlement,
            final(self).id == old(self).id,
            final(self).name == old(self).name,
    {
        match self.find_ready(user_id) {
            Some(_) => {},
            None => {
                let entry = ReadyEntry { user_id: user_id.clone(), ready: true };
                self.ready_state.push(entry);
                proof {
                    assert(has_ready(
                        self.ready_state@,
                        user_id@,
                    )) by {
                        assert(self.ready_state@[self.ready_state@.len() - 1].user_id@
                            == user_id@);
                    }
                }
            },
        }
    }

    /// The position of `user_id`'s ready entry, if one exists.
    fn find_ready(&self, user_id: &String) -> (r: Option<usize>)
        ensures
            r is Some ==> 0 <= r->0 < self.ready_state@.len()
                && self.ready_state@[r->0 as int].user_id@ == user_id@,
            r is None ==> !has_ready(self.ready_state@, user_id@),
    {
        let n = self.ready_state.len();
        let mut k: usize = 0;
        while k < n
            invariant
                k <= n,
                n == self.ready_state@.len(),
                forall|j: int| 0 <= j < k ==> (#[trigger] self.ready_state@[j]).user_id@ != user_id@,
            decreases n - k,
        {
            if self.ready_state[k].user_id == *user_id {
                return Some(k);
            }
            k = k + 1;
        }
        None
    }

    /// Removes `user_id`'s ready entry; in `Ready` stage a live auto-start
    /// deadline is zeroed, the sentinel telling the coordinator to cancel it.
    pub fn cacnel_ready(&mut self, user_id: &String)
        requires
            old(self).wf(),
        ensures
            final(self).wf(),
            !has_ready(final(self).ready_state@, user_id@),
            has_ready(old(self).ready_state@, user_id@) ==> exists|k: int|
                0 <= k < old(self).ready_state@.len() && old(self).ready_state@[k].user_id@
                    == user_id@ && final(self).ready_state@ == old(self).ready_state@.remove(k),
            !has_ready(old(self).ready_state@, user_id@) ==> final(self).ready_state@ == old(self).ready_state@,
            final(self).next_timestamp == (if old(self).stage == GameStage::Ready && old(self).next_timestamp is Some && old(self).next_timestamp->0 != 0 {
                Some(0i64)
            } else {
                old(self).next_timestamp
            }),
            final(self).seat == old(self).seat,
            final(self).players == old(self).players,
            final(self).observer == old(self).observer,
            final(self).chat_history == old(self).chat_history,
            final(self).stage == old(self).stage,
            final(self).cur_seat == old(self).cur_seat,
            final(self).cur_id == old(self).cur_id,
            final(self).word == old(self).word,
            final(self).draw_data == old(self).draw_data,
            final(self).background == old(self).background,
            final(self).round_score_map == old(self).round_score_map,
            final(self).settlement == old(self).settlement,
            final(self).id == old(self).id,
            final(self).name == old(self).name,
    {
        self.remove_ready_entry(user_id);
        match self.stage {
            GameStage::Ready => {
                match self.next_timestamp {
                    Some(num) => {
                        if num != 0 {
                            self.next_timestamp = Some(0);
                        }
                    },
                    None => {},
                }
            },
            _ => {},
        }
    }

    /// Removes `user_id`'s ready entry if present; nothing else changes.
    fn remove_ready_entry(&mut self, user_id: &String)
        requires
            old(self).wf(),
        ensures
            final(self).wf(),
            !has_ready(final(self).ready_state@, user_id@),
            has_ready(old(self).ready_state@, user_id@) ==> exists|k: int|
                0 <= k < old(self).ready_state@.len() && old(self).ready_state@[k].user_id@
                    == user_id@ && final(self).ready_state@ == old(self).ready_state@.remove(k),
            !has_ready(old(self).ready_state@, user_id@) ==> final(self).ready_state@ == old(self).ready_state@,
            final(self).seat == old(self).seat,
            final(self).players == old(self).players,
            final(self).observer == old(self).observer,
            final(self).chat_history == old(self).chat_history,
            final(self).stage == old(self).stage,
            final(self).cur_seat == old(self).cur_seat,
            final(self).cur_id == old(self).cur_id,
            final(self).next_timestamp == old(self).next_timestamp,
            final(self).word == old(self).word,
            final(self).draw_data == old(self).draw_data,
            final(self).background == old(self).background,
            final(self).round_score_map == old(self).round_score_map,
            final(self).settlement == old(self).settlement,
            final(self).id == old(self).id,
            final(self).name == old(self).name,
    {
        match self.find_ready(user_id) {
            Some(k) => {
                self.ready_state.remove(k);
                proof {
                    let rs = old(self).ready_state@;
                    rs.remove_ensures(k as int);
                    assert(rs[k as int].user_id@ == user_id@);
                    assert forall|j: int|
                        0 <= j < self.ready_state@.len() implies (
                    #[trigger] self.ready_state@[j]).user_id@ != user_id@ by {
                        if j < k {
                            assert(self.ready_state@[j] == rs[j]);
                        } else {
                            assert(self.ready_state@[j] == rs[j + 1]);
                            assert(rs[k as int].user_id@ != rs[j + 1].user_id@);
                        }
                    }
                    assert(ready_distinct(self.ready_state@)) by {
                        assert forall|a: int, b: int|
                            0 <= a < b < self.ready_state@.len() implies (
                        #[trigger] self.ready_state@[a]).user_id@ != (
                        #[trigger] self.ready_state@[b]).user_id@ by {
                            let a0: int = if a < k { a } else { a + 1 };
                            let b0: int = if b < k { b } else { b + 1 };
                            assert(self.ready_state@[a] == rs[a0]);
                            assert(self.ready_state@[b] == rs[b0]);
                        }
                    }
                    assert(has_ready(rs, user_id@)) by {
                        assert(rs[k as int].user_id@ == user_id@);
                    }
                }
            },
            None => {},
        }
    }

    /// Clears every ready flag.
    pub fn reset_ready(&mut self)
        requires
            old(self).wf(),
        ensures
            final(self).wf(),
            final(self).ready_state@ == Seq::<ReadyEntry>::empty(),
            final(self).seat == old(self).seat,
            final(self).players == old(self).players,
            final(self).observer == old(self).observer,
            final(self).chat_history == old(self).chat_history,
            final(self).stage == old(self).stage,
            final(self).cur_seat == old(self).cur_seat,
            final(self).cur_id == old(self).cur_id,
            final(self).next_timestamp == old(self).next_timestamp,
            final(self).word == old(self).word,
            final(self).draw_data == old(self).draw_data,
            final(self).background == old(self).background,
            final(self).round_score_map == old(self).round_score_map,
            final(self).settlement == old(self).settlement,
            final(self).id == old(self).id,
            final(self).name == old(self).name,
    {
        self.ready_state.clear();
    }

    /// Whether `user_id` is the active turn-taker.
    pub fn is_current_player(&self, user_id: &String) -> (r: bool)
        ensures
            r == spec_is_cur(*self, user_id@),
    {
        match &self.cur_id {
            Some(cur) => *cur == *user_id,
            None => false,
        }
    }

    /// Sets the canvas background; only the active turn-taker may.
    pub fn set_background(&mut self, user_id: &String, color: &String)
        requires
            old(self).wf(),
        ensures
            final(self).wf(),
            spec_is_cur(*old(self), user_id@) ==> final(self).background@ == color@,
            !spec_is_cur(*old(self), user_id@) ==> *final(self) == *old(self),
            final(self).seat == old(self).seat,
            final(self).players == old(self).players,
            final(self).observer == old(self).observer,
            final(self).ready_state == old(self).ready_state,
            final(self).chat_history == old(self).chat_history,
            final(self).stage == old(self).stage,
            final(self).cur_seat == old(self).cur_seat,
            final(self).cur_id == old(self).cur_id,
            final(self).next_timestamp == old(self).next_timestamp,
            final(self).word == old(self).word,
            final(self).draw_data == old(self).draw_data,
            final(self).round_score_map == old(self).round_score_map,
            final(self).settlement == old(self).settlement,
            final(self).id == old(self).id,
            final(self).name == old(self).name,
    {
        if self.is_current_player(user_id) {
            self.background = color.clone();
        }
    }

    /// Accepts the chooser's word: valid only in `Choose` stage, only from
    /// the active turn-taker, only for a non-empty word. On success the room
    /// enters `Drawing` with the draw deadline armed.
    pub fn pick_a_word(&mut self, user_id: &String, word: String, now_ms: i64) -> (r: bool)
        requires
            old(self).wf(),
            now_ms <= LAST_USEFUL_MS,
        ensures
            final(self).wf(),
            r == (old(self).stage == GameStage::Choose && spec_is_cur(*old(self), user_id@)
                && word@.len() > 0),
            !r ==> *final(self) == *old(self),
            r ==> final(self).word == word && final(self).stage == GameStage::Drawing && final(self).next_timestamp == Some((now_ms + (DRAW_TIME as i64) * 1000) as i64),
            final(self).seat == old(self).seat,
            final(self).players == old(self).players,
            final(self).observer == old(self).observer,
            final(self).ready_state == old(self).ready_state,
            final(self).chat_history == old(self).chat_history,
            final(self).cur_seat == old(self).cur_seat,
            final(self).cur_id == old(self).cur_id,
            final(self).draw_data == old(self).draw_data,
            final(self).background == old(self).background,
            final(self).round_score_map == old(self).round_score_map,
            final(self).settlement == old(self).settlement,
            final(self).id == old(self).id,
            final(self).name == old(self).name,
    {
        if word.as_str().is_empty() {
            return false;
        }
        if self.stage == GameStage::Choose && self.is_current_player(user_id) {
            self.word = word;
            self.stage = GameStage::Drawing;
            self.next_timestamp = Some(now_ms + (DRAW_TIME as i64) * 1000);
            true
        } else {
            false
        }
    }

    /// Appends a stroke; valid only in `Drawing` stage from the active
    /// turn-taker.
    pub fn draw(&mut self, user_id: &String, data: String, timestamp: i64) -> (r: bool)
        requires
            old(self).wf(),
        ensures
            final(self).wf(),
            r == (old(self).stage == GameStage::Drawing && spec_is_cur(*old(self), user_id@)),
            !r ==> *final(self) == *old(self),
            r ==> final(self).draw_data@ == old(self).draw_data@.push(
                (DrawDataUnit { data, timestamp }),
            ),
            r ==> *final(self) == (RoomData { draw_data: final(self).draw_data, ..*old(self) }),
    {
        match self.stage {
            GameStage::Drawing => {
                if self.is_current_player(user_id) {
                    self.draw_data.draw(data, timestamp);
                    return true;
                }
            },
            _ => {},
        }
        false
    }

    /// Empties the canvas; valid only in `Drawing` stage from the active
    /// turn-taker.
    pub fn clear_draw(&mut self, user_id: &String) -> (r: bool)
        requires
            old(self).wf(),
        ensures
            final(self).wf(),
            r == (old(self).stage == GameStage::Drawing && spec_is_cur(*old(self), user_id@)),
            !r ==> *final(self) == *old(self),
            r ==> final(self).draw_data@ == Seq::<DrawDataUnit>::empty(),
            r ==> *final(self) == (RoomData { draw_data: final(self).draw_data, ..*old(self) }),
    {
        match self.stage {
            GameStage::Drawing => {
                if self.is_current_player(user_id) {
                    self.draw_data.clear();
                    return true;
                }
            },
            _ => {},
        }
        false
    }

    /// Removes the latest stroke; valid only in `Drawing` stage from the
    /// active turn-taker.
    pub fn undo_draw(&mut self, user_id: &String) -> (r: bool)
        requires
            old(self).wf(),
        ensures
            final(self).wf(),
            r == (old(self).stage == GameStage::Drawing && spec_is_cur(*old(self), user_id@)),
            !r ==> *final(self) == *old(self),
            r && old(self).draw_data@.len() > 0 ==> final(self).draw_data@ == old(self).draw_data@.drop_last(),
            r && old(self).draw_data@.len() == 0 ==> final(self).draw_data@ == old(self).draw_data@,
            r ==> *final(self) == (RoomData { draw_data: final(self).draw_data, ..*old(self) }),
    {
        match self.stage {
            GameStage::Drawing => {
                if self.is_current_player(user_id) {
                    self.draw_data.undo();
                    return true;
                }
            },
            _ => {},
        }
        false
    }
}

impl RoomData {
    /// The seat index occupied by `user_id`, if any.
    fn find_seat_of(&self, user_id: &String) -> (r: Option<usize>)
        ensures
            r is Some ==> 0 <= r->0 < self.seat@.len() && slot_is(self.seat@[r->0 as int], user_id@),
            r is None ==> !spec_seated(self.seat@, user_id@),
    {
        let n = self.seat.len();
        let mut k: usize = 0;
        while k < n
            invariant
                k <= n,
                n == self.seat@.len(),
                forall|j: int| 0 <= j < k ==> !slot_is(#[trigger] self.seat@[j], user_id@),
            decreases n - k,
        {
            let hit = match &self.seat[k] {
                Some(s) => *s == *user_id,
                None => false,
            };
            if hit {
                return Some(k);
            }
            k = k + 1;
        }
        proof {
            assert forall|i: int| 0 <= i < self.seat@.len() implies !slot_is(
                #[trigger] self.seat@[i],
                user_id@,
            ) by {}
        }
        None
    }

    /// The lowest-index empty seat, if any.
    fn find_free_seat(&self) -> (r: Option<usize>)
        ensures
            r is Some ==> 0 <= r->0 < self.seat@.len() && self.seat@[r->0 as int] is None && forall|
                j: int,
            | 0 <= j < r->0 ==> (#[trigger] self.seat@[j]) is Some,
            r is None ==> forall|j: int| 0 <= j < self.seat@.len() ==> (#[trigger] self.seat@[j]) is Some,
    {
        let n = self.seat.len();
        let mut k: usize = 0;
        while k < n
            invariant
                k <= n,
                n == self.seat@.len(),
                forall|j: int| 0 <= j < k ==> (#[trigger] self.seat@[j]) is Some,
            decreases n - k,
        {
            let free = match &self.seat[k] {
                Some(_) => false,
                None => true,
            };
            if free {
                return Some(k);
            }
            k = k + 1;
        }
        None
    }

    /// The position of `user_id` in the observer list, if present.
    fn find_observer(&self, user_id: &String) -> (r: Option<usize>)
        ensures
            r is Some ==> 0 <= r->0 < self.observer@.len() && self.observer@[r->0 as int]@
                == user_id@,
            r is None ==> !has_str(self.observer@, user_id@),
    {
        let n = self.observer.len();
        let mut k: usize = 0;
        while k < n
            invariant
                k <= n,
                n == self.observer@.len(),
                forall|j: int| 0 <= j < k ==> (#[trigger] self.observer@[j])@ != user_id@,
            decreases n - k,
        {
            if self.observer[k] == *user_id {
                return Some(k);
            }
            k = k + 1;
        }
        None
    }

    /// The position of `user_id`'s record in the roster, if present.
    fn find_player_idx(&self, user_id: &String) -> (r: Option<usize>)
        ensures
            r is Some ==> 0 <= r->0 < self.players@.len() && self.players@[r->0 as int].user_id@
                == user_id@,
            r is None ==> !spec_has_player(self.players@, user_id@),
    {
        let n = self.players.len();
        let mut k: usize = 0;
        while k < n
            invariant
                k <= n,
                n == self.players@.len(),
                forall|j: int| 0 <= j < k ==> (#[trigger] self.players@[j]).user_id@ != user_id@,
            decreases n - k,
        {
            if self.players[k].user_id == *user_id {
                return Some(k);
            }
            k = k + 1;
        }
        None
    }

    /// Whether `user_id` currently occupies a seat.
    pub fn is_seated(&self, user_id: &String) -> (r: bool)
        ensures
            r == spec_seated(self.seat@, user_id@),
    {
        match self.find_seat_of(user_id) {
            Some(k) => {
                proof {
                    assert(slot_is(self.seat@[k as int], user_id@));
                }
                true
            },
            None => false,
        }
    }

    /// Whether some seat is still empty.
    pub fn has_free_seat(&self) -> (r: bool)
        ensures
            r == exists|i: int| 0 <= i < self.seat@.len() && (#[trigger] self.seat@[i]) is None,
    {
        match self.find_free_seat() {
            Some(k) => {
                proof {
                    assert(self.seat@[k as int] is None);
                }
                true
            },
            None => false,
        }
    }

    /// The roster record of `user_id`, if present.
    pub fn get_player(&self, user_id: &String) -> (r: Option<&Player>)
        ensures
            r is Some ==> r->0.user_id@ == user_id@ && exists|i: int|
                0 <= i < self.players@.len() && *r->0 == #[trigger] self.players@[i],
            r is None ==> !spec_has_player(self.players@, user_id@),
    {
        match self.find_player_idx(user_id) {
            Some(k) => Some(&self.players[k]),
            None => None,
        }
    }

    /// Adds a player: the lowest-index empty seat if one exists, else the
    /// observer list.
    pub fn join_player(&mut self, player: &Player)
        requires
            old(self).wf(),
            !spec_has_player(old(self).players@, player.user_id@),
        ensures
            final(self).wf(),
            final(self).players@ == old(self).players@.push(*player),
            (exists|i: int| 0 <= i < old(self).seat@.len() && (#[trigger] old(self).seat@[i]) is None)
                ==> final(self).observer == old(self).observer && exists|f: int|
                0 <= f < old(self).seat@.len() && old(self).seat@[f] is None && (forall|j: int|
                    0 <= j < f ==> (#[trigger] old(self).seat@[j]) is Some) && final(self).seat@
                    == old(self).seat@.update(f, Some(player.user_id)),
            (forall|i: int| 0 <= i < old(self).seat@.len() ==> (#[trigger] old(self).seat@[i]) is Some)
                ==> final(self).seat == old(self).seat && final(self).observer@ == old(self).observer@.push(player.user_id),
            final(self).ready_state == old(self).ready_state,
            final(self).chat_history == old(self).chat_history,
            final(self).stage == old(self).stage,
            final(self).cur_seat == old(self).cur_seat,
            final(self).cur_id == old(self).cur_id,
            final(self).next_timestamp == old(self).next_timestamp,
            final(self).word == old(self).word,
            final(self).draw_data == old(self).draw_data,
            final(self).background == old(self).background,
            final(self).round_score_map == old(self).round_score_map,
            final(self).settlement == old(self).settlement,
            final(self).id == old(self).id,
            final(self).name == old(self).name,
    {
        proof {
            if has_str(old(self).observer@, player.user_id@) {
                let j = choose|j: int|
                    0 <= j < old(self).observer@.len() && (#[trigger] old(self).observer@[j])@
                        == player.user_id@;
                assert(spec_has_player(old(self).players@, player.user_id@));
            }
            if spec_seated(old(self).seat@, player.user_id@) {
                assert(spec_has_player(old(self).players@, player.user_id@));
            }
        }
        self.players.push(player.dup());
        proof {
            assert(spec_has_player(self.players@, player.user_id@)) by {
                assert(self.players@[self.players@.len() - 1].user_id@ == player.user_id@);
            }
            assert forall|id: Seq<char>| #[trigger] spec_has_player(old(self).players@, id)
                implies spec_has_player(self.players@, id) by {
                let i = choose|i: int|
                    0 <= i < old(self).players@.len() && (#[trigger] old(self).players@[i]).user_id@ == id;
                assert(self.players@[i].user_id@ == id);
            }
        }
        match self.find_free_seat() {
            Some(f) => {
                self.seat[f] = Some(player.user_id.clone());
                proof {
                    let ns = self.seat@;
                    let os = old(self).seat@;
                    assert(ns == os.update(f as int, Some(player.user_id)));
                    assert(seat_distinct(ns)) by {
                        assert forall|i: int, j: int|
                            0 <= i < j < ns.len() && ns[i] is Some && ns[j] is Some implies (
                        #[trigger] ns[i])->0@ != (#[trigger] ns[j])->0@ by {
                            if i != f && j != f {
                                assert(ns[i] == os[i] && ns[j] == os[j]);
                            } else {
                                let q: int = if i == f {
                                    j
                                } else {
                                    i
                                };
                                assert(ns[q] == os[q]);
                                if slot_is(os[q], player.user_id@) {
                                    assert(spec_seated(os, player.user_id@));
                                }
                            }
                        }
                    }
                    assert forall|id: Seq<char>| #[trigger] spec_seated(ns, id) implies
                        spec_has_player(self.players@, id) && !has_str(self.observer@, id) by {
                        let i = choose|i: int| 0 <= i < ns.len() && #[trigger] slot_is(ns[i], id);
                        if i == f {
                            assert(id == player.user_id@);
                        } else {
                            assert(slot_is(os[i], id));
                            assert(spec_seated(os, id));
                        }
                    }
                }
            },
            None => {
                self.observer.push(player.user_id.clone());
                proof {
                    let no = self.observer@;
                    let oo = old(self).observer@;
                    assert(no == oo.push(player.user_id));
                    assert(strs_distinct(no)) by {
                        assert forall|a: int, b: int| 0 <= a < b < no.len() implies (
                        #[trigger] no[a])@ != (#[trigger] no[b])@ by {
                            if b == no.len() - 1 {
                                assert(no[a] == oo[a]);
                                if oo[a]@ == player.user_id@ {
                                    assert(has_str(oo, player.user_id@));
                                }
                            } else {
                                assert(no[a] == oo[a] && no[b] == oo[b]);
                            }
                        }
                    }
                    assert forall|i: int| 0 <= i < no.len() implies spec_has_player(
                        self.players@,
                        (#[trigger] no[i])@,
                    ) by {
                        if i < no.len() - 1 {
                            assert(no[i] == oo[i]);
                        } else {
                            assert(no[i]@ == player.user_id@);
                        }
                    }
                    assert forall|id: Seq<char>| #[trigger] spec_seated(self.seat@, id) implies
                        spec_has_player(self.players@, id) && !has_str(no, id) by {
                        assert(spec_seated(old(self).seat@, id));
                        assert(spec_has_player(old(self).players@, id));
                        assert(id != player.user_id@);
                        if has_str(no, id) {
                            let j = choose|j: int|
                                0 <= j < no.len() && (#[trigger] no[j])@ == id;
                            assert(no[j] == oo[j]);
                            assert(has_str(oo, id));
                        }
                    }
                }
            },
        }
    }

    /// Seats an observer at `pos`: fails if the index is out of range, the
    /// seat is occupied, or the player is not currently an observer.
    pub fn sit_on(&mut self, target_user_id: &String, pos: usize) -> (r: bool)
        requires
            old(self).wf(),
        ensures
            final(self).wf(),
            r == (pos < old(self).seat@.len() && old(self).seat@[pos as int] is None && has_str(
                old(self).observer@,
                target_user_id@,
            )),
            !r ==> *final(self) == *old(self),
            r ==> final(self).seat@ == old(self).seat@.update(
                pos as int,
                Some(*target_user_id),
            ) && !has_str(final(self).observer@, target_user_id@) && exists|j: int|
                0 <= j < old(self).observer@.len() && old(self).observer@[j]@ == target_user_id@
                    && final(self).observer@ == old(self).observer@.remove(j),
            final(self).players == old(self).players,
            final(self).ready_state == old(self).ready_state,
            final(self).chat_history == old(self).chat_history,
            final(self).stage == old(self).stage,
            final(self).cur_seat == old(self).cur_seat,
            final(self).cur_id == old(self).cur_id,
            final(self).next_timestamp == old(self).next_timestamp,
            final(self).word == old(self).word,
            final(self).draw_data == old(self).draw_data,
            final(self).background == old(self).background,
            final(self).round_score_map == old(self).round_score_map,
            final(self).settlement == old(self).settlement,
            final(self).id == old(self).id,
            final(self).name == old(self).name,
    {
        if pos >= MAX_PEOPLE {
            return false;
        }
        let occupied = match &self.seat[pos] {
            Some(_) => true,
            None => false,
        };
        if occupied {
            return false;
        }
        match self.find_observer(target_user_id) {
            Some(j) => {
                proof {
                    lemma_strs_remove(old(self).observer@, j as int);
                }
                self.observer.remove(j);
                self.seat[pos] = Some(target_user_id.clone());
                proof {
                    let ns = self.seat@;
                    let os = old(self).seat@;
                    let oo = old(self).observer@;
                    assert(spec_has_player(self.players@, target_user_id@));
                    assert(!spec_seated(os, target_user_id@)) by {
                        if spec_seated(os, target_user_id@) {
                            assert(has_str(oo, target_user_id@));
                            assert(false);
                        }
                    }
                    assert(seat_distinct(ns)) by {
                        assert forall|a: int, b: int|
                            0 <= a < b < ns.len() && ns[a] is Some && ns[b] is Some implies (
                        #[trigger] ns[a])->0@ != (#[trigger] ns[b])->0@ by {
                            if a != pos && b != pos {
                                assert(ns[a] == os[a] && ns[b] == os[b]);
                            } else {
                                let q: int = if a == pos {
                                    b
                                } else {
                                    a
                                };
                                assert(ns[q] == os[q]);
                                if slot_is(os[q], target_user_id@) {
                                    assert(spec_seated(os, target_user_id@));
                                }
                            }
                        }
                    }
                    assert forall|id: Seq<char>| #[trigger] spec_seated(ns, id) implies
                        spec_has_player(self.players@, id) && !has_str(self.observer@, id) by {
                        let i = choose|i: int| 0 <= i < ns.len() && #[trigger] slot_is(ns[i], id);
                        if i == pos {
                            assert(id == target_user_id@);
                        } else {
                            assert(slot_is(os[i], id));
                            assert(spec_seated(os, id));
                            if has_str(self.observer@, id) {
                                assert(has_str(oo, id));
                            }
                        }
                    }
                    assert(has_str(oo, target_user_id@)) by {
                        assert(oo[j as int]@ == target_user_id@);
                    }
                }
                true
            },
            None => false,
        }
    }

    /// Moves a seated player to the observer list, dropping their ready
    /// flag as they stop being seated.
    pub fn move_to_observer(&mut self, target_user_id: &String)
        requires
            old(self).wf(),
        ensures
            final(self).wf(),
            !spec_seated(old(self).seat@, target_user_id@) ==> *final(self) == *old(self),
            spec_seated(old(self).seat@, target_user_id@) ==> final(self).observer@ == old(self).observer@.push(*target_user_id) && !has_ready(final(self).ready_state@,
                target_user_id@,
            ) && !spec_seated(final(self).seat@, target_user_id@) && exists|k: int|
                0 <= k < old(self).seat@.len() && slot_is(old(self).seat@[k], target_user_id@)
                    && final(self).seat@ == old(self).seat@.update(k, None),
            spec_seated(old(self).seat@, target_user_id@) ==> final(self).next_timestamp == (if old(self).stage == GameStage::Ready && old(self).next_timestamp is Some && old(self).next_timestamp->0 != 0 {
                Some(0i64)
            } else {
                old(self).next_timestamp
            }),
            final(self).players == old(self).players,
            final(self).chat_history == old(self).chat_history,
            final(self).stage == old(self).stage,
            final(self).cur_seat == old(self).cur_seat,
            final(self).cur_id == old(self).cur_id,
            final(self).word == old(self).word,
            final(self).draw_data == old(self).draw_data,
            final(self).background == old(self).background,
            final(self).round_score_map == old(self).round_score_map,
            final(self).settlement == old(self).settlement,
            final(self).id == old(self).id,
            final(self).name == old(self).name,
    {
        match self.find_seat_of(target_user_id) {
            Some(k) => {
                self.seat[k] = None;
                self.observer.push(target_user_id.clone());
                proof {
                    let ns = self.seat@;
                    let os = old(self).seat@;
                    let no = self.observer@;
                    let oo = old(self).observer@;
                    assert(spec_seated(os, target_user_id@)) by {
                        assert(slot_is(os[k as int], target_user_id@));
                    }
                    assert(spec_has_player(self.players@, target_user_id@));
                    assert(!has_str(oo, target_user_id@));
                    assert(!spec_seated(ns, target_user_id@)) by {
                        if spec_seated(ns, target_user_id@) {
                            let i = choose|i: int|
                                0 <= i < ns.len() && #[trigger] slot_is(ns[i], target_user_id@);
                            assert(i != k);
                            assert(slot_is(os[i], target_user_id@));
                            assert(os[k as int]->0@ == os[i]->0@);
                            assert(false);
                        }
                    }
                    assert(seat_distinct(ns)) by {
                        assert forall|a: int, b: int|
                            0 <= a < b < ns.len() && ns[a] is Some && ns[b] is Some implies (
                        #[trigger] ns[a])->0@ != (#[trigger] ns[b])->0@ by {
                            assert(ns[a] == os[a] || a == k);
                            assert(ns[b] == os[b] || b == k);
                        }
                    }
                    assert(strs_distinct(no)) by {
                        assert forall|a: int, b: int| 0 <= a < b < no.len() implies (
                        #[trigger] no[a])@ != (#[trigger] no[b])@ by {
                            if b == no.len() - 1 {
                                assert(no[a] == oo[a]);
                                if oo[a]@ == target_user_id@ {
                                    assert(has_str(oo, target_user_id@));
                                }
                            } else {
                                assert(no[a] == oo[a] && no[b] == oo[b]);
                            }
                        }
                    }
                    assert forall|i: int| 0 <= i < no.len() implies spec_has_player(
                        self.players@,
                        (#[trigger] no[i])@,
                    ) by {
                        if i < no.len() - 1 {
                            assert(no[i] == oo[i]);
                        }
                    }
                    assert forall|id: Seq<char>| #[trigger] spec_seated(ns, id) implies
                        spec_has_player(self.players@, id) && !has_str(no, id) by {
                        let i = choose|i: int| 0 <= i < ns.len() && #[trigger] slot_is(ns[i], id);
                        assert(i != k);
                        assert(slot_is(os[i], id));
                        assert(spec_seated(os, id));
                        assert(id != target_user_id@) by {
                            if id == target_user_id@ {
                                assert(os[k as int]->0@ == os[i]->0@);
                            }
                        }
                        if has_str(no, id) {
                            let j = choose|j: int| 0 <= j < no.len() && (#[trigger] no[j])@ == id;
                            assert(j < no.len() - 1);
                            assert(has_str(oo, id));
                        }
                    }
                }
                self.cacnel_ready(target_user_id);
            },
            None => {},
        }
    }

    /// Removes a player outright: their seat or observer slot is vacated,
    /// the roster record and any ready flag are dropped. In-progress turn
    /// data referencing the departed player is left as it stands; the
    /// coordinator reconciles an active drawer's departure.
    pub fn player_leave(&mut self, player_id: &String)
        requires
            old(self).wf(),
        ensures
            final(self).wf(),
            !spec_has_player(final(self).players@, player_id@),
            !spec_seated(final(self).seat@, player_id@),
            !has_str(final(self).observer@, player_id@),
            !has_ready(final(self).ready_state@, player_id@),
            spec_seated(old(self).seat@, player_id@) ==> final(self).observer == old(self).observer && exists|k: int|
                0 <= k < old(self).seat@.len() && slot_is(old(self).seat@[k], player_id@) && final(self).seat@ == old(self).seat@.update(k, None),
            !spec_seated(old(self).seat@, player_id@) ==> final(self).seat == old(self).seat,
            !spec_seated(old(self).seat@, player_id@) && has_str(old(self).observer@, player_id@)
                ==> exists|j: int|
                0 <= j < old(self).observer@.len() && old(self).observer@[j]@ == player_id@
                    && final(self).observer@ == old(self).observer@.remove(j),
            !spec_seated(old(self).seat@, player_id@) && !has_str(old(self).observer@, player_id@)
                ==> final(self).observer == old(self).observer,
            spec_has_player(old(self).players@, player_id@) ==> exists|p: int|
                0 <= p < old(self).players@.len() && old(self).players@[p].user_id@ == player_id@
                    && final(self).players@ == old(self).players@.remove(p),
            !spec_has_player(old(self).players@, player_id@) ==> final(self).players == old(self).players,
            forall|id: Seq<char>|
                id != player_id@ ==> #[trigger] spec_has_player(final(self).players@, id)
                    == spec_has_player(old(self).players@, id),
            final(self).chat_history == old(self).chat_history,
            final(self).stage == old(self).stage,
            final(self).cur_seat == old(self).cur_seat,
            final(self).cur_id == old(self).cur_id,
            final(self).next_timestamp == old(self).next_timestamp,
            final(self).word == old(self).word,
            final(self).draw_data == old(self).draw_data,
            final(self).background == old(self).background,
            final(self).round_score_map == old(self).round_score_map,
            final(self).settlement == old(self).settlement,
            final(self).id == old(self).id,
            final(self).name == old(self).name,
    {
        match self.find_seat_of(player_id) {
            Some(k) => {
                self.seat[k] = None;
                proof {
                    let ns = self.seat@;
                    let os = old(self).seat@;
                    assert(spec_seated(os, player_id@)) by {
                        assert(slot_is(os[k as int], player_id@));
                    }
                    assert(!spec_seated(ns, player_id@)) by {
                        if spec_seated(ns, player_id@) {
                            let i = choose|i: int|
                                0 <= i < ns.len() && #[trigger] slot_is(ns[i], player_id@);
                            assert(i != k);
                            assert(slot_is(os[i], player_id@));
                            assert(os[k as int]->0@ == os[i]->0@);
                        }
                    }
                    assert(seat_distinct(ns)) by {
                        assert forall|a: int, b: int|
                            0 <= a < b < ns.len() && ns[a] is Some && ns[b] is Some implies (
                        #[trigger] ns[a])->0@ != (#[trigger] ns[b])->0@ by {
                            assert(ns[a] == os[a] || a == k);
                            assert(ns[b] == os[b] || b == k);
                        }
                    }
                    assert forall|id: Seq<char>| #[trigger] spec_seated(ns, id) implies
                        spec_seated(os, id) by {
                        let i = choose|i: int| 0 <= i < ns.len() && #[trigger] slot_is(ns[i], id);
                        assert(i != k);
                        assert(slot_is(os[i], id));
                    }
                }
            },
            None => {
                match self.find_observer(player_id) {
                    Some(j) => {
                        proof {
                            lemma_strs_remove(old(self).observer@, j as int);
                            assert(old(self).observer@[j as int]@ == player_id@);
                        }
                        self.observer.remove(j);
                    },
                    None => {},
                }
            },
        }
        let ghost mid = *self;
        match self.find_player_idx(player_id) {
            Some(p) => {
                proof {
                    lemma_players_remove(mid.players@, p as int);
                    assert(mid.players@[p as int].user_id@ == player_id@);
                }
                self.players.remove(p);
                proof {
                    assert forall|id: Seq<char>| #[trigger] spec_seated(self.seat@, id) implies
                        spec_has_player(self.players@, id) && !has_str(self.observer@, id) by {
                        assert(id != player_id@) by {
                            if id == player_id@ {
                                assert(spec_seated(mid.seat@, player_id@));
                            }
                        }
                        assert(spec_has_player(mid.players@, id));
                    }
                    assert forall|i: int| 0 <= i < self.observer@.len() implies spec_has_player(
                        self.players@,
                        (#[trigger] self.observer@[i])@,
                    ) by {
                        assert(self.observer@[i]@ != player_id@) by {
                            if self.observer@[i]@ == player_id@ {
                                assert(has_str(self.observer@, player_id@));
                            }
                        }
                        assert(spec_has_player(mid.players@, self.observer@[i]@));
                    }
                }
            },
            None => {},
        }
        self.remove_ready_entry(player_id);
    }
}

impl RoomData {
    /// The first occupied seat at or after `start`, if any.
    fn find_next_seat(&self, start: usize) -> (r: Option<usize>)
        requires
            start <= self.seat@.len(),
        ensures
            r is Some ==> r->0 == next_occupied_from(self.seat@, start as int) && r->0
                < self.seat@.len(),
            r is None ==> next_occupied_from(self.seat@, start as int) == self.seat@.len(),
    {
        let n = self.seat.len();
        let mut k: usize = start;
        while k < n
            invariant
                start <= k <= n,
                n == self.seat@.len(),
                forall|j: int| start <= j < k ==> (#[trigger] self.seat@[j]) is None,
            decreases n - k,
        {
            let occupied = match &self.seat[k] {
                Some(_) => true,
                None => false,
            };
            if occupied {
                proof {
                    lemma_next_occupied_skip(self.seat@, start as int, k as int);
                }
                return Some(k);
            }
            k = k + 1;
        }
        proof {
            lemma_next_occupied_skip(self.seat@, start as int, n as int);
        }
        None
    }

    /// Advances the rotation: hands the turn to the first occupied seat
    /// strictly after the current one (the first occupied seat when no turn
    /// is active). When no such seat exists the rotation has covered every
    /// seated player: the match ends — the turn-taker is cleared, the stage
    /// returns to `Ready`, the settlement is discarded and the deadline is
    /// zeroed.
    pub fn next_player(&mut self) -> (r: bool)
        requires
            old(self).wf(),
            old(self).stage != GameStage::Drawing,
        ensures
            final(self).wf(),
            r == (next_seat_index(*old(self)) < old(self).seat@.len()),
            r ==> final(self).cur_seat == Some(next_seat_index(*old(self)) as usize) && final(self).cur_id == old(self).seat@[next_seat_index(*old(self))] && final(self).stage == old(self).stage && final(self).next_timestamp == old(self).next_timestamp && final(self).word
                == old(self).word && final(self).background == old(self).background && final(self).settlement == old(self).settlement,
            !r ==> final(self).cur_seat is None && final(self).cur_id is None && final(self).stage
                == GameStage::Ready && final(self).background@ == "#ffffff"@ && final(self).settlement@ == Seq::<ScoreEntry>::empty() && final(self).next_timestamp == Some(0i64)
                && final(self).word@ == Seq::<char>::empty(),
            final(self).seat == old(self).seat,
            final(self).players == old(self).players,
            final(self).observer == old(self).observer,
            final(self).ready_state == old(self).ready_state,
            final(self).chat_history == old(self).chat_history,
            final(self).draw_data == old(self).draw_data,
            final(self).round_score_map == old(self).round_score_map,
            final(self).id == old(self).id,
            final(self).name == old(self).name,
    {
        let start: usize = match self.cur_seat {
            Some(c) => c + 1,
            None => 0,
        };
        match self.find_next_seat(start) {
            Some(nx) => {
                let id = match &self.seat[nx] {
                    Some(s) => s.clone(),
                    None => {
                        proof {
                            lemma_next_occupied(self.seat@, start as int);
                        }
                        vstd::pervasive::unreached()
                    },
                };
                self.cur_seat = Some(nx);
                self.cur_id = Some(id);
                true
            },
            None => {
                self.cur_seat = None;
                self.cur_id = None;
                self.stage = GameStage::Ready;
                self.background = "#ffffff".to_owned();
                self.settlement.clear();
                self.next_timestamp = Some(0);
                self.word = String::new();
                false
            },
        }
    }

    /// The chooser ran out of time: their turn is forfeited silently and
    /// the rotation advances (or the match ends). Valid only in `Choose`.
    pub fn choose_timeout(&mut self, now_ms: i64) -> (r: bool)
        requires
            old(self).wf(),
            now_ms <= LAST_USEFUL_MS,
        ensures
            final(self).wf(),
            old(self).stage != GameStage::Choose ==> r == false && *final(self) == *old(self),
            old(self).stage == GameStage::Choose ==> r == (next_seat_index(*old(self)) < old(self).seat@.len()),
            old(self).stage == GameStage::Choose && r ==> final(self).cur_seat == Some(
                next_seat_index(*old(self)) as usize,
            ) && final(self).cur_id == old(self).seat@[next_seat_index(*old(self))] && final(self).stage == GameStage::Choose && final(self).next_timestamp == Some(
                (now_ms + (CHOOSE_TIME as i64) * 1000) as i64,
            ) && final(self).word == old(self).word && final(self).background == old(self).background && final(self).settlement == old(self).settlement,
            old(self).stage == GameStage::Choose && !r ==> final(self).cur_seat is None && final(self).cur_id is None && final(self).stage == GameStage::Ready && final(self).background@
                == "#ffffff"@ && final(self).settlement@ == Seq::<ScoreEntry>::empty() && final(self).next_timestamp == Some(0i64) && final(self).word@ == Seq::<char>::empty(),
            final(self).seat == old(self).seat,
            final(self).players == old(self).players,
            final(self).observer == old(self).observer,
            final(self).ready_state == old(self).ready_state,
            final(self).chat_history == old(self).chat_history,
            final(self).draw_data == old(self).draw_data,
            final(self).round_score_map == old(self).round_score_map,
            final(self).id == old(self).id,
            final(self).name == old(self).name,
    {
        if self.stage == GameStage::Choose {
            if !self.next_player() {
                false
            } else {
                self.next_timestamp = Some(now_ms + (CHOOSE_TIME as i64) * 1000);
                true
            }
        } else {
            false
        }
    }

    /// Begins the next turn: valid in `Result` or `Ready`. On success the
    /// draw log is cleared — a new `Choose` stage begins — the background
    /// resets and the choose deadline is armed. When the rotation is
    /// exhausted the match ends instead.
    pub fn next_player_draw(&mut self, now_ms: i64) -> (r: bool)
        requires
            old(self).wf(),
            now_ms <= LAST_USEFUL_MS,
        ensures
            final(self).wf(),
            old(self).stage == GameStage::Choose || old(self).stage == GameStage::Drawing ==> r
                == false && *final(self) == *old(self),
            old(self).stage == GameStage::Result || old(self).stage == GameStage::Ready ==> r == (
            next_seat_index(*old(self)) < old(self).seat@.len()),
            (old(self).stage == GameStage::Result || old(self).stage == GameStage::Ready) && r
                ==> final(self).cur_seat == Some(next_seat_index(*old(self)) as usize) && final(self).cur_id == old(self).seat@[next_seat_index(*old(self))] && final(self).stage
                == GameStage::Choose && final(self).draw_data@ == Seq::<DrawDataUnit>::empty()
                && final(self).background@ == "#ffffff"@ && final(self).word@ == Seq::<
                char,
            >::empty() && final(self).next_timestamp == Some(
                (now_ms + (CHOOSE_TIME as i64) * 1000) as i64,
            ) && final(self).settlement == old(self).settlement,
            (old(self).stage == GameStage::Result || old(self).stage == GameStage::Ready) && !r
                ==> final(self).cur_seat is None && final(self).cur_id is None && final(self).stage
                == GameStage::Ready && final(self).background@ == "#ffffff"@ && final(self).settlement@ == Seq::<ScoreEntry>::empty() && final(self).next_timestamp == Some(0i64)
                && final(self).word@ == Seq::<char>::empty() && final(self).draw_data == old(self).draw_data,
            final(self).seat == old(self).seat,
            final(self).players == old(self).players,
            final(self).observer == old(self).observer,
            final(self).ready_state == old(self).ready_state,
            final(self).chat_history == old(self).chat_history,
            final(self).round_score_map == old(self).round_score_map,
            final(self).id == old(self).id,
            final(self).name == old(self).name,
    {
        match self.stage {
            GameStage::Result | GameStage::Ready => {
                if self.next_player() {
                    self.draw_data.clear();
                    self.stage = GameStage::Choose;
                    self.background = "#ffffff".to_owned();
                    self.word = String::new();
                    self.next_timestamp = Some(now_ms + (CHOOSE_TIME as i64) * 1000);
                    true
                } else {
                    false
                }
            },
            _ => false,
        }
    }

    /// Starts a match: all ready flags are cleared and the rotation hands
    /// the first turn to the lowest occupied seat. In `Choose` or `Drawing`
    /// stage only the ready flags are cleared.
    pub fn start(&mut self, now_ms: i64)
        requires
            old(self).wf(),
            now_ms <= LAST_USEFUL_MS,
        ensures
            final(self).wf(),
            final(self).ready_state@ == Seq::<ReadyEntry>::empty(),
            old(self).stage == GameStage::Choose || old(self).stage == GameStage::Drawing ==> *final(self) == (RoomData { ready_state: final(self).ready_state, ..*old(self) }),
            (old(self).stage == GameStage::Result || old(self).stage == GameStage::Ready)
                && next_seat_index(*old(self)) < old(self).seat@.len() ==> final(self).cur_seat
                == Some(next_seat_index(*old(self)) as usize) && final(self).cur_id == old(self).seat@[next_seat_index(*old(self))] && final(self).stage == GameStage::Choose && final(self).draw_data@ == Seq::<DrawDataUnit>::empty() && final(self).next_timestamp == Some(
                (now_ms + (CHOOSE_TIME as i64) * 1000) as i64,
            ),
            (old(self).stage == GameStage::Result || old(self).stage == GameStage::Ready)
                && next_seat_index(*old(self)) >= old(self).seat@.len() ==> final(self).cur_seat is None
                && final(self).stage == GameStage::Ready,
            final(self).seat == old(self).seat,
            final(self).players == old(self).players,
            final(self).observer == old(self).observer,
            final(self).chat_history == old(self).chat_history,
            final(self).round_score_map == old(self).round_score_map,
            final(self).id == old(self).id,
            final(self).name == old(self).name,
    {
        self.reset_ready();
        self.next_player_draw(now_ms);
    }

    /// The occupied-seat count and whether every seated player is ready.
    fn readiness(&self) -> (r: (u8, bool))
        requires
            self.seat@.len() <= MAX_PEOPLE,
        ensures
            r.0 as int == count_seated(self.seat@),
            r.1 == all_seated_ready(self.seat@, self.ready_state@),
    {
        let n = self.seat.len();
        let mut count: u8 = 0;
        let mut all_ready: bool = true;
        let mut k: usize = 0;
        proof {
            assert(self.seat@.subrange(0, 0) =~= Seq::<Option<String>>::empty());
        }
        while k < n
            invariant
                k <= n,
                n == self.seat@.len(),
                n <= MAX_PEOPLE,
                count as int == count_seated(self.seat@.subrange(0, k as int)),
                count as int <= k,
                all_ready == (forall|j: int|
                    0 <= j < k && (#[trigger] self.seat@[j]) is Some ==> has_ready(
                        self.ready_state@,
                        self.seat@[j]->0@,
                    )),
            decreases n - k,
        {
            let ghost pre = self.seat@.subrange(0, k as int);
            let occupied_id: Option<&String> = match &self.seat[k] {
                Some(s) => Some(s),
                None => None,
            };
            match occupied_id {
                Some(s) => {
                    count = count + 1;
                    match self.find_ready(s) {
                        Some(_) => {
                            proof {
                                assert(has_ready(self.ready_state@, self.seat@[k as int]->0@));
                            }
                        },
                        None => {
                            all_ready = false;
                        },
                    }
                },
                None => {},
            }
            proof {
                let cur = self.seat@.subrange(0, k + 1);
                assert(cur.drop_last() =~= pre);
                assert(cur.last() == self.seat@[k as int]);
            }
            k = k + 1;
        }
        proof {
            assert(self.seat@.subrange(0, n as int) =~= self.seat@);
        }
        (count, all_ready)
    }

    /// Evaluates readiness after a ready-up. With every seated player
    /// ready: six seated start at once; three to five arm a five-second
    /// auto-start countdown; fewer do nothing.
    pub fn if_all_ready(&mut self, now_ms: i64) -> (r: IfAllReadyResult)
        requires
            old(self).wf(),
            now_ms <= LAST_USEFUL_MS,
        ensures
            final(self).wf(),
            r == (if all_seated_ready(old(self).seat@, old(self).ready_state@) && count_seated(
                old(self).seat@,
            ) >= MAX_PEOPLE {
                IfAllReadyResult::Start
            } else if all_seated_ready(old(self).seat@, old(self).ready_state@) && count_seated(
                old(self).seat@,
            ) >= MIN_START_PEOPLE as int {
                IfAllReadyResult::AutoStart(AUTO_START_TIME)
            } else {
                IfAllReadyResult::NotReady
            }),
            r is AutoStart ==> final(self).next_timestamp == Some(
                (now_ms + (AUTO_START_TIME as i64) * 1000) as i64,
            ) && *final(self) == (RoomData { next_timestamp: final(self).next_timestamp, ..*old(self) }),
            !(r is AutoStart) ==> *final(self) == *old(self),
    {
        let (count, all_ready) = self.readiness();
        if all_ready && count as usize >= MAX_PEOPLE {
            IfAllReadyResult::Start
        } else if all_ready && count >= MIN_START_PEOPLE {
            self.next_timestamp = Some(now_ms + (AUTO_START_TIME as i64) * 1000);
            IfAllReadyResult::AutoStart(AUTO_START_TIME)
        } else {
            IfAllReadyResult::NotReady
        }
    }
}

impl RoomData {
    /// Appends one system chat line (author id `"0"`).
    fn add_system_chat(&mut self, content: String, now_ms: i64)
        requires
            old(self).wf(),
        ensures
            final(self).wf(),
            final(self).chat_history@.len() == old(self).chat_history@.len() + 1,
            final(self).chat_history@.subrange(0, old(self).chat_history@.len() as int) == old(self).chat_history@,
            final(self).chat_history@.last().content == content,
            final(self).chat_history@.last().user_id@ == "0"@,
            final(self).chat_history@.last().timestamp == now_ms,
            *final(self) == (RoomData { chat_history: final(self).chat_history, ..*old(self) }),
    {
        let line = ChatItem { content, user_id: "0".to_owned(), timestamp: now_ms };
        self.chat_history.push(line);
        proof {
            assert(self.chat_history@.subrange(0, old(self).chat_history@.len() as int) =~= old(self).chat_history@);
        }
    }

    /// Ends the turn's accounting: folds the turn tally into the
    /// settlement, credits the drawer's bonus, and appends the summary
    /// chat line.
    fn score_to_settlement(&mut self, now_ms: i64)
        requires
            old(self).wf(),
            old(self).stage == GameStage::Drawing,
        ensures
            final(self).wf(),
            final(self).stage == old(self).stage,
            turn_settled(*old(self), *final(self), now_ms),
    {
        proof {
            lemma_fold_round_distinct(old(self).settlement@, old(self).round_score_map@);
            lemma_count_seated_bounds(old(self).seat@);
        }
        fold_scores(&mut self.settlement, &self.round_score_map);
        let count = self.round_score_map.len();
        let cur_opt: Option<String> = match &self.cur_id {
            Some(c) => Some(c.clone()),
            None => None,
        };
        match cur_opt {
            Some(cur) => {
                let ghost o = *old(self);
                let ghost count_g = o.round_score_map@.len() as int;
                let ghost seated_g = count_seated(o.seat@);
                let (seated_u8, _) = self.readiness();
                let seated = seated_u8 as usize;
                let nick_opt: Option<String> = match self.get_player(&cur) {
                    Some(p) => Some(p.nick_name.clone()),
                    None => None,
                };
                let mut msg = String::new();
                msg.append("The answer was [");
                msg.append(self.word.as_str());
                msg.append("]. ");
                proof {
                    assert(msg@ =~= answer_prefix(o.word@));
                }
                let mut bonus: u16 = 0;
                match nick_opt {
                    Some(nick) => {
                        if seated >= 1 && count == seated - 1 {
                            msg.append("all players guessed; ");
                            msg.append(nick.as_str());
                            msg.append(" gets no points.");
                            proof {
                                assert(msg@ =~= turn_summary(
                                    o.word@,
                                    count_g,
                                    Some(nick@),
                                    seated_g,
                                ));
                            }
                        } else if seated >= 2 && count == seated - 2 {
                            bonus = 6;
                            let cs = u64_to_dec(count as u64);
                            msg.append(cs.as_str());
                            msg.append(" players guessed; ");
                            msg.append(nick.as_str());
                            msg.append(" gets 6 points.");
                            proof {
                                assert(msg@ =~= turn_summary(
                                    o.word@,
                                    count_g,
                                    Some(nick@),
                                    seated_g,
                                ));
                            }
                        } else if count > 0 {
                            bonus = 3;
                            let cs = u64_to_dec(count as u64);
                            msg.append(cs.as_str());
                            msg.append(" players guessed; ");
                            msg.append(nick.as_str());
                            msg.append(" gets 3 points.");
                            proof {
                                assert(msg@ =~= turn_summary(
                                    o.word@,
                                    count_g,
                                    Some(nick@),
                                    seated_g,
                                ));
                            }
                        } else {
                            msg.append("nobody guessed; ");
                            msg.append(nick.as_str());
                            msg.append(" gets no points.");
                            proof {
                                assert(msg@ =~= turn_summary(
                                    o.word@,
                                    count_g,
                                    Some(nick@),
                                    seated_g,
                                ));
                            }
                        }
                    },
                    None => {
                        let cs = u64_to_dec(count as u64);
                        msg.append(cs.as_str());
                        msg.append(" players guessed; the drawer has left and gets no points.");
                        proof {
                            assert(msg@ =~= turn_summary(o.word@, count_g, None, seated_g));
                        }
                    },
                }
                self.add_system_chat(msg, now_ms);
                if bonus != 0 {
                    proof {
                        lemma_add_score(
                            fold_round(o.settlement@, o.round_score_map@),
                            o.cur_id->0,
                            bonus,
                        );
                    }
                    upsert_score(&mut self.settlement, &cur, bonus);
                }
            },
            None => {},
        }
        self.round_score_map.clear();
    }

    /// The draw deadline fired: in `Drawing` stage the room moves to
    /// `Result` and the turn is settled as `turn_settled` describes;
    /// in any other stage nothing happens.
    pub fn draw_end(&mut self, now_ms: i64)
        requires
            old(self).wf(),
        ensures
            final(self).wf(),
            old(self).stage != GameStage::Drawing ==> *final(self) == *old(self),
            old(self).stage == GameStage::Drawing ==> final(self).stage == GameStage::Result
                && turn_settled(*old(self), *final(self), now_ms),
    {
        if self.stage == GameStage::Drawing {
            self.score_to_settlement(now_ms);
            self.stage = GameStage::Result;
        }
    }

    /// Scores and masks one chat message, in place. While drawing, an
    /// exact guess is replaced by asterisks (one per grapheme) and scores
    /// by guess order unless the drawer or a repeat guesser wrote it; any
    /// other message has each occurrence of the secret word masked.
    fn check_answer(&mut self, user_id: &String, content: &mut String) -> (r: Option<
        (usize, u16),
    >)
        requires
            old(self).wf(),
        ensures
            final(self).wf(),
            final(content)@ == masked_chat(old(self).stage, old(self).word@, old(content)@),
            old(self).stage != GameStage::Drawing ==> *final(content) == *old(content),
            chat_scores(*old(self), user_id@, old(content)@) ==> r == Some(
                (
                    ((old(self).round_score_map@.len() + 1) as usize),
                    rank_score(old(self).round_score_map@.len() as int),
                ),
            ) && final(self).round_score_map@ == old(self).round_score_map@.push(
                (ScoreEntry {
                    user_id: *user_id,
                    score: rank_score(old(self).round_score_map@.len() as int),
                }),
            ),
            !chat_scores(*old(self), user_id@, old(content)@) ==> r is None && final(self).round_score_map == old(self).round_score_map,
            *final(self) == (RoomData { round_score_map: final(self).round_score_map, ..*old(self) }),
    {
        if self.stage == GameStage::Drawing {
            if self.word == *content {
                let g = grapheme_count(content.as_str());
                *content = stars(g);
                if !self.is_current_player(user_id) {
                    match find_score(&self.round_score_map, user_id) {
                        Some(_) => {
                            proof {
                                lemma_score_index_from(self.round_score_map@, user_id@, 0);
                                assert(has_score(self.round_score_map@, user_id@)) by {
                                    assert(self.round_score_map@[score_index(
                                        self.round_score_map@,
                                        user_id@,
                                    )].user_id@ == user_id@);
                                }
                            }
                            None
                        },
                        None => {
                            let len_before = self.round_score_map.len();
                            let pts: u16 = if len_before == 0 {
                                6
                            } else if len_before == 1 {
                                5
                            } else {
                                3
                            };
                            self.round_score_map.push(
                                ScoreEntry { user_id: user_id.clone(), score: pts },
                            );
                            let no = self.round_score_map.len();
                            proof {
                                let nr = self.round_score_map@;
                                let or = old(self).round_score_map@;
                                assert(nr[nr.len() - 1].user_id@ == user_id@);
                                assert(scores_distinct(nr)) by {
                                    assert forall|a: int, b: int|
                                        0 <= a < b < nr.len() implies (
                                    #[trigger] nr[a]).user_id@ != (#[trigger] nr[b]).user_id@ by {
                                        if b < nr.len() - 1 {
                                            assert(nr[a] == or[a] && nr[b] == or[b]);
                                        } else {
                                            assert(nr[a] == or[a]);
                                            assert(or[a].user_id@ != user_id@);
                                        }
                                    }
                                }
                                assert forall|k: int| 0 <= k < nr.len() implies (
                                #[trigger] nr[k]).score == rank_score(k) by {
                                    if k < nr.len() - 1 {
                                        assert(nr[k] == or[k]);
                                    }
                                }
                                if self.cur_id is Some {
                                    assert(!has_score(nr, self.cur_id->0@)) by {
                                        assert forall|k: int| 0 <= k < nr.len() implies (
                                        #[trigger] nr[k]).user_id@ != self.cur_id->0@ by {
                                            if k < nr.len() - 1 {
                                                assert(nr[k] == or[k]);
                                            }
                                        }
                                    }
                                }
                            }
                            Some((no, pts))
                        },
                    }
                } else {
                    None
                }
            } else {
                let masked = mask_word(content.as_str(), self.word.as_str());
                *content = masked;
                None
            }
        } else {
            None
        }
    }

    /// Stores one chat message from a room member, after `check_answer`
    /// masks and scores it; a correct guess appends a second, system line
    /// announcing rank and points. The history then keeps its newest
    /// twenty lines.
    pub fn add_chat(&mut self, user_id: String, content: String, now_ms: i64)
        requires
            old(self).wf(),
            spec_has_player(old(self).players@, user_id@),
        ensures
            final(self).wf(),
            chat_scores(*old(self), user_id@, content@) ==> final(self).round_score_map@ == old(self).round_score_map@.push(
                (ScoreEntry {
                    user_id: user_id,
                    score: rank_score(old(self).round_score_map@.len() as int),
                }),
            ),
            !chat_scores(*old(self), user_id@, content@) ==> final(self).round_score_map == old(self).round_score_map,
            exists|line: ChatItem|
                line.user_id == user_id && line.timestamp == now_ms && line.content@
                    == masked_chat(old(self).stage, old(self).word@, content@) && ((!chat_scores(
                    *old(self),
                    user_id@,
                    content@,
                ) && final(self).chat_history@ == cap_chat(old(self).chat_history@.push(line))) || (
                chat_scores(*old(self), user_id@, content@) && exists|ann: ChatItem|
                    ann.user_id@ == "0"@ && ann.timestamp == now_ms && (exists|p: int|
                        0 <= p < old(self).players@.len() && (#[trigger] old(self).players@[p]).user_id@ == user_id@ && ann.content@ == guess_announcement(
                            old(self).players@[p].nick_name@,
                            (old(self).round_score_map@.len() + 1) as nat,
                            rank_score(old(self).round_score_map@.len() as int) as nat,
                        )) && final(self).chat_history@ == cap_chat(
                        old(self).chat_history@.push(line).push(ann),
                    ))),
            final(self).chat_history@.len() <= 20,
            *final(self) == (RoomData {
                round_score_map: final(self).round_score_map,
                chat_history: final(self).chat_history,
                ..*old(self)
            }),
    {
        let mut content = content;
        let ghost content0 = content;
        let result = self.check_answer(&user_id, &mut content);
        let ghost scored = chat_scores(*old(self), user_id@, content0@);
        let line = ChatItem { content, user_id: user_id.clone(), timestamp: now_ms };
        let ghost line_g = line;
        self.chat_history.push(line);
        let ghost mut ann_g: ChatItem = line_g;
        let ghost mut nick_idx: int = 0;
        match result {
            Some((no, pts)) => {
                let pair: (String, Ghost<Player>) = match self.get_player(&user_id) {
                    Some(p) => (p.nick_name.clone(), Ghost(*p)),
                    None => vstd::pervasive::unreached(),
                };
                let nick = pair.0;
                let ghost prec = pair.1@;
                let mut msg = String::new();
                msg.append(nick.as_str());
                msg.append(" guessed right in place ");
                let ns = u64_to_dec(no as u64);
                msg.append(ns.as_str());
                msg.append(", scoring ");
                let ps = u64_to_dec(pts as u64);
                msg.append(ps.as_str());
                msg.append(" points.");
                proof {
                    let i = choose|i: int|
                        0 <= i < self.players@.len() && prec == #[trigger] self.players@[i];
                    nick_idx = i;
                    assert(self.players@[i].user_id@ == user_id@);
                    assert(msg@ =~= guess_announcement(
                        self.players@[i].nick_name@,
                        no as nat,
                        pts as nat,
                    ));
                }
                let ann = ChatItem { content: msg, user_id: "0".to_owned(), timestamp: now_ms };
                proof {
                    ann_g = ann;
                }
                self.chat_history.push(ann);
            },
            None => {},
        }
        cap_history(&mut self.chat_history);
        proof {
            let o = *old(self);
            assert(line_g.user_id == user_id);
            assert(line_g.timestamp == now_ms);
            assert(line_g.content@ == masked_chat(o.stage, o.word@, content0@));
            if scored {
                assert(vstd::std_specs::vec::spec_vec_len(&self.round_score_map)
                    == self.round_score_map@.len());
                assert(o.round_score_map@.len() + 1 <= usize::MAX);
                assert(0 <= nick_idx < o.players@.len() && o.players@[nick_idx].user_id@
                    == user_id@ && ann_g.content@ == guess_announcement(
                    o.players@[nick_idx].nick_name@,
                    (o.round_score_map@.len() + 1) as nat,
                    rank_score(o.round_score_map@.len() as int) as nat,
                ));
                assert(self.chat_history@ == cap_chat(o.chat_history@.push(line_g).push(ann_g)));
            } else {
                assert(self.chat_history@ == cap_chat(o.chat_history@.push(line_g)));
            }
        }
    }
}


/// The chat lines newer than `t`: the suffix starting at the first line
/// whose timestamp exceeds `t`, empty when there is none.
pub open spec fn chat_since(chat: Seq<ChatItem>, t: i64) -> Seq<ChatItem>
    decreases chat.len(),
{
    if chat.len() == 0 {
        Seq::<ChatItem>::empty()
    } else if chat[0].timestamp > t {
        chat
    } else {
        chat_since(chat.skip(1), t)
    }
}

/// Skipping a stretch of lines at or before `t` does not change the suffix.
proof fn lemma_chat_since_skip(chat: Seq<ChatItem>, t: i64, k: int)
    requires
        0 <= k <= chat.len(),
        forall|j: int| 0 <= j < k ==> (#[trigger] chat[j]).timestamp <= t,
    ensures
        chat_since(chat, t) == chat_since(chat.skip(k), t),
    decreases k,
{
    if k > 0 {
        assert(chat.skip(1).skip(k - 1) =~= chat.skip(k));
        assert(chat[0].timestamp <= t);
        assert(chat_since(chat, t) == chat_since(chat.skip(1), t));
        assert forall|j: int| 0 <= j < k - 1 implies (#[trigger] chat.skip(1)[j]).timestamp
            <= t by {
            assert(chat.skip(1)[j] == chat[j + 1]);
        }
        lemma_chat_since_skip(chat.skip(1), t, k - 1);
    } else {
        assert(chat.skip(0) =~= chat);
    }
}

/// An equal copy of a seat list.
fn copy_seats(v: &Vec<Option<String>>) -> (r: Vec<Option<String>>)
    ensures
        r@ == v@,
{
    let mut r: Vec<Option<String>> = Vec::new();
    let n = v.len();
    let mut i: usize = 0;
    while i < n
        invariant
            i <= n,
            n == v@.len(),
            r@ == v@.subrange(0, i as int),
        decreases n - i,
    {
        let e: Option<String> = match &v[i] {
            Some(s) => Some(s.clone()),
            None => None,
        };
        r.push(e);
        proof {
            assert(r@ =~= v@.subrange(0, i + 1));
        }
        i = i + 1;
    }
    proof {
        assert(v@.subrange(0, n as int) =~= v@);
    }
    r
}

/// An equal copy of a string list.
fn copy_strings(v: &Vec<String>) -> (r: Vec<String>)
    ensures
        r@ == v@,
{
    let mut r: Vec<String> = Vec::new();
    let n = v.len();
    let mut i: usize = 0;
    while i < n
        invariant
            i <= n,
            n == v@.len(),
            r@ == v@.subrange(0, i as int),
        decreases n - i,
    {
        r.push(v[i].clone());
        proof {
            assert(r@ =~= v@.subrange(0, i + 1));
        }
        i = i + 1;
    }
    proof {
        assert(v@.subrange(0, n as int) =~= v@);
    }
    r
}

/// An equal copy of a chat history.
fn copy_chat(v: &Vec<ChatItem>) -> (r: Vec<ChatItem>)
    ensures
        r@ == v@,
{
    let mut r: Vec<ChatItem> = Vec::new();
    let n = v.len();
    let mut i: usize = 0;
    while i < n
        invariant
            i <= n,
            n == v@.len(),
            r@ == v@.subrange(0, i as int),
        decreases n - i,
    {
        r.push(v[i].dup());
        proof {
            assert(r@ =~= v@.subrange(0, i + 1));
        }
        i = i + 1;
    }
    proof {
        assert(v@.subrange(0, n as int) =~= v@);
    }
    r
}

/// An equal copy of a score table.
fn copy_scores(v: &Vec<ScoreEntry>) -> (r: Vec<ScoreEntry>)
    ensures
        r@ == v@,
{
    let mut r: Vec<ScoreEntry> = Vec::new();
    let n = v.len();
    let mut i: usize = 0;
    while i < n
        invariant
            i <= n,
            n == v@.len(),
            r@ == v@.subrange(0, i as int),
        decreases n - i,
    {
        r.push(v[i].dup());
        proof {
            assert(r@ =~= v@.subrange(0, i + 1));
        }
        i = i + 1;
    }
    proof {
        assert(v@.subrange(0, n as int) =~= v@);
    }
    r
}

/// An equal copy of a roster.
fn copy_players(v: &Vec<Player>) -> (r: Vec<Player>)
    ensures
        r@ == v@,
{
    let mut r: Vec<Player> = Vec::new();
    let n = v.len();
    let mut i: usize = 0;
    while i < n
        invariant
            i <= n,
            n == v@.len(),
            r@ == v@.subrange(0, i as int),
        decreases n - i,
    {
        r.push(v[i].dup());
        proof {
            assert(r@ =~= v@.subrange(0, i + 1));
        }
        i = i + 1;
    }
    proof {
        assert(v@.subrange(0, n as int) =~= v@);
    }
    r
}

/// An equal copy of the ready table.
fn copy_ready(v: &Vec<ReadyEntry>) -> (r: Vec<ReadyEntry>)
    ensures
        r@ == v@,
{
    let mut r: Vec<ReadyEntry> = Vec::new();
    let n = v.len();
    let mut i: usize = 0;
    while i < n
        invariant
            i <= n,
            n == v@.len(),
            r@ == v@.subrange(0, i as int),
        decreases n - i,
    {
        r.push(v[i].dup());
        proof {
            assert(r@ =~= v@.subrange(0, i + 1));
        }
        i = i + 1;
    }
    proof {
        assert(v@.subrange(0, n as int) =~= v@);
    }
    r
}

/// How joining settles `o` into `n`: the roster grows by `p`, who takes
/// the lowest empty seat or joins the observers, and nothing else moves.
pub open spec fn joined(o: RoomData, n: RoomData, p: Player) -> bool {
    &&& n.players@ == o.players@.push(p)
    &&& ((exists|i: int| 0 <= i < o.seat@.len() && (#[trigger] o.seat@[i]) is None)
        ==> n.observer == o.observer && exists|f: int|
        0 <= f < o.seat@.len() && o.seat@[f] is None && (forall|j: int|
            0 <= j < f ==> (#[trigger] o.seat@[j]) is Some) && n.seat@ == o.seat@.update(
            f,
            Some(p.user_id),
        ))
    &&& ((forall|i: int| 0 <= i < o.seat@.len() ==> (#[trigger] o.seat@[i]) is Some) ==> n.seat
        == o.seat && n.observer@ == o.observer@.push(p.user_id))
    &&& n.ready_state == o.ready_state
    &&& n.chat_history == o.chat_history
    &&& n.stage == o.stage
    &&& n.cur_seat == o.cur_seat
    &&& n.cur_id == o.cur_id
    &&& n.next_timestamp == o.next_timestamp
    &&& n.word == o.word
    &&& n.draw_data == o.draw_data
    &&& n.background == o.background
    &&& n.round_score_map == o.round_score_map
    &&& n.settlement == o.settlement
    &&& n.id == o.id
    &&& n.name == o.name
}


/// Seat capacity law: a well-formed room never has more than six seated
/// players, however many joins happened; everyone past the sixth seat is
/// an observer (a join with every seat occupied never touches the seats).
pub proof fn lemma_seat_capacity(r: RoomData)
    requires
        r.wf(),
    ensures
        count_seated(r.seat@) <= MAX_PEOPLE,
{
    lemma_count_seated_bounds(r.seat@);
}

/// Turn rotation law: advancing hands the turn to the first occupied seat
/// strictly after the current one — never back, never skipping an occupied
/// seat — and ends the match exactly when no occupied seat remains ahead.
/// Iterated from the first turn, this visits each seated player once, in
/// seat order.
pub proof fn lemma_rotation(r: RoomData)
    requires
        r.wf(),
    ensures
        r.cur_seat is Some ==> next_seat_index(r) > r.cur_seat->0,
        next_seat_index(r) <= r.seat@.len(),
        next_seat_index(r) < r.seat@.len() ==> r.seat@[next_seat_index(r)] is Some,
        forall|j: int|
            rotation_start(r) <= j < next_seat_index(r) ==> (#[trigger] r.seat@[j]) is None,
        next_seat_index(r) == r.seat@.len() ==> forall|j: int|
            rotation_start(r) <= j < r.seat@.len() ==> (#[trigger] r.seat@[j]) is None,
{
    lemma_next_occupied(r.seat@, rotation_start(r));
}

/// The occupied seat indices at or after `from`, in increasing order.
pub open spec fn occupied_seats(seat: Seq<Option<String>>, from: int) -> Seq<int>
    recommends
        0 <= from <= seat.len(),
    decreases seat.len() - from when 0 <= from <= seat.len()
{
    if from >= seat.len() {
        Seq::<int>::empty()
    } else if seat[from] is Some {
        seq![from] + occupied_seats(seat, from + 1)
    } else {
        occupied_seats(seat, from + 1)
    }
}

/// Turn rotation law, in full: from any resume point the rotation
/// dequeues the remaining occupied seats one by one — the next turn goes
/// to the head of that list, what remains afterwards is exactly its tail,
/// and the match ends precisely when the list is empty. Iterated from the
/// start of a match this visits every seated player exactly once, in
/// seat order, never repeating or skipping one.
pub proof fn lemma_rotation_visits(seat: Seq<Option<String>>, from: int)
    requires
        0 <= from <= seat.len(),
    ensures
        occupied_seats(seat, from).len() == 0 <==> next_occupied_from(seat, from) == seat.len(),
        occupied_seats(seat, from).len() > 0 ==> next_occupied_from(seat, from)
            == occupied_seats(seat, from)[0] && occupied_seats(
            seat,
            next_occupied_from(seat, from) + 1,
        ) == occupied_seats(seat, from).skip(1),
    decreases seat.len() - from,
{
    if from < seat.len() {
        if seat[from] is Some {
            assert((seq![from] + occupied_seats(seat, from + 1)).skip(1) =~= occupied_seats(
                seat,
                from + 1,
            ));
        } else {
            lemma_rotation_visits(seat, from + 1);
        }
    }
}

/// Guess scoring order law: in a well-formed room the turn tally lists
/// guessers in guess order, holding 6 points for the first, 5 for the
/// second and 3 for everyone after, and never contains the drawer.
pub proof fn lemma_guess_order(r: RoomData)
    requires
        r.wf(),
    ensures
        forall|k: int|
            0 <= k < r.round_score_map@.len() ==> (#[trigger] r.round_score_map@[k]).score
                == rank_score(k),
        rank_score(0) == 6 && rank_score(1) == 5,
        forall|k: int| k >= 2 ==> rank_score(k) == 3,
        r.cur_id is Some ==> !has_score(r.round_score_map@, r.cur_id->0@),
{
}

/// The name card of a room, as the lobby lists it.
pub struct RoomMeta {
    pub id: String,
    pub name: String,
}

impl RoomMeta {
    /// The name card of `target`.
    pub fn from_room_data(target: &RoomData) -> (r: RoomMeta)
        ensures
            r.id == target.id,
            r.name == target.name,
    {
        RoomMeta { id: target.id.clone(), name: target.name.clone() }
    }
}

/// One poll answer: the room as `user_id` may see it. Stage-conditional
/// fields are `None` where that stage does not expose them; the secret
/// word is shown to the drawer alone while drawing and to everyone in
/// `Result`.
pub struct RoomSnapshot {
    pub seat: Vec<Option<String>>,
    pub observer: Vec<String>,
    pub stage: GameStage,
    pub cur_id: Option<String>,
    pub next_timestamp: Option<i64>,
    pub chat_history: Vec<ChatItem>,
    pub draw_length: usize,
    pub score_map: Vec<ScoreEntry>,
    pub settlement: Vec<ScoreEntry>,
    pub players: Option<Vec<Player>>,
    pub ready_state: Option<Vec<ReadyEntry>>,
    pub draw_list: Option<Vec<DrawDataUnit>>,
    pub background: Option<String>,
    pub word: Option<String>,
}

/// How a poll answer `r` reflects `room` for the viewer `user`: every
/// always-present field copied, chat filtered to lines newer than `t`,
/// the draw tail from `dl`, and the stage-conditional fields present
/// exactly where the stage exposes them.
pub open spec fn snapshot_matches(
    room: RoomData,
    user: Seq<char>,
    t: i64,
    dl: int,
    r: RoomSnapshot,
) -> bool {
    &&& r.seat@ == room.seat@
    &&& r.observer@ == room.observer@
    &&& r.stage == room.stage
    &&& r.cur_id == room.cur_id
    &&& r.next_timestamp == room.next_timestamp
    &&& r.chat_history@ == chat_since(room.chat_history@, t)
    &&& r.draw_length == room.draw_data@.len()
    &&& r.score_map@ == room.round_score_map@
    &&& r.settlement@ == room.settlement@
    &&& (room.stage == GameStage::Ready ==> r.players is Some && r.players->0@ == room.players@
        && r.ready_state is Some && r.ready_state->0@ == room.ready_state@)
    &&& (room.stage != GameStage::Ready ==> r.players is None && r.ready_state is None)
    &&& (room.stage == GameStage::Drawing ==> r.draw_list is Some && (dl <= room.draw_data@.len()
        ==> r.draw_list->0@ == room.draw_data@.subrange(dl, room.draw_data@.len() as int)) && (dl
        > room.draw_data@.len() ==> r.draw_list->0@ == Seq::<DrawDataUnit>::empty()))
    &&& (room.stage != GameStage::Drawing ==> r.draw_list is None)
    &&& (room.stage == GameStage::Drawing || room.stage == GameStage::Result ==> r.background is Some
        && r.background->0@ == room.background@)
    &&& (room.stage == GameStage::Ready || room.stage == GameStage::Choose ==> r.background is None)
    &&& (room.stage == GameStage::Drawing && spec_is_cur(room, user) ==> r.word is Some
        && r.word->0@ == room.word@)
    &&& (room.stage == GameStage::Drawing && !spec_is_cur(room, user) ==> r.word is None)
    &&& (room.stage == GameStage::Result ==> r.word is Some && r.word->0@ == room.word@)
    &&& (room.stage == GameStage::Ready || room.stage == GameStage::Choose ==> r.word is None)
}

impl RoomData {
    /// Assembles the read-only poll payload: chat lines newer than
    /// `timestamp`, the stroke count, and the stage-conditional fields.
    /// Nothing in the room changes.
    pub fn snapshot(&self, user_id: &String, timestamp: i64, draw_index: usize) -> (r:
        RoomSnapshot)
        ensures
            snapshot_matches(*self, user_id@, timestamp, draw_index as int, r),
    {
        let chats = self.chat_after(timestamp);
        let mut players: Option<Vec<Player>> = None;
        let mut ready_state: Option<Vec<ReadyEntry>> = None;
        let mut draw_list: Option<Vec<DrawDataUnit>> = None;
        let mut background: Option<String> = None;
        let mut word: Option<String> = None;
        match self.stage {
            GameStage::Ready => {
                players = Some(copy_players(&self.players));
                ready_state = Some(copy_ready(&self.ready_state));
            },
            GameStage::Drawing => {
                draw_list = Some(self.draw_data.slice(draw_index));
                background = Some(self.background.clone());
                if self.is_current_player(user_id) {
                    word = Some(self.word.clone());
                }
            },
            GameStage::Result => {
                word = Some(self.word.clone());
                background = Some(self.background.clone());
            },
            GameStage::Choose => {},
        }
        RoomSnapshot {
            seat: copy_seats(&self.seat),
            observer: copy_strings(&self.observer),
            stage: self.stage,
            cur_id: match &self.cur_id {
                Some(c) => Some(c.clone()),
                None => None,
            },
            next_timestamp: self.next_timestamp,
            chat_history: chats,
            draw_length: self.draw_data.len(),
            score_map: copy_scores(&self.round_score_map),
            settlement: copy_scores(&self.settlement),
            players,
            ready_state,
            draw_list,
            background,
            word,
        }
    }

    /// The chat lines newer than `t`, as `chat_since` describes.
    fn chat_after(&self, t: i64) -> (r: Vec<ChatItem>)
        ensures
            r@ == chat_since(self.chat_history@, t),
    {
        let n = self.chat_history.len();
        let mut k: usize = 0;
        while k < n
            invariant
                k <= n,
                n == self.chat_history@.len(),
                forall|j: int| 0 <= j < k ==> (#[trigger] self.chat_history@[j]).timestamp <= t,
            decreases n - k,
        {
            if self.chat_history[k].timestamp > t {
                let mut r: Vec<ChatItem> = Vec::new();
                let mut i: usize = k;
                while i < n
                    invariant
                        k <= i <= n,
                        n == self.chat_history@.len(),
                        r@ == self.chat_history@.subrange(k as int, i as int),
                    decreases n - i,
                {
                    r.push(self.chat_history[i].dup());
                    proof {
                        assert(r@ =~= self.chat_history@.subrange(k as int, i + 1));
                    }
                    i = i + 1;
                }
                proof {
                    lemma_chat_since_skip(self.chat_history@, t, k as int);
                    assert(self.chat_history@.subrange(k as int, n as int) =~= self.chat_history@
                        .skip(k as int));
                    assert(self.chat_history@.skip(k as int)[0].timestamp > t);
                }
                return r;
            }
            k = k + 1;
        }
        proof {
            lemma_chat_since_skip(self.chat_history@, t, n as int);
            assert(self.chat_history@.skip(n as int) =~= Seq::<ChatItem>::empty());
        }
        Vec::new()
    }
}

} // verus!
