use draw_guess::coordinator::{Coordinator, TimerCmd, TimerEvent};
use draw_guess::message::{
    ChatMsg, ChooseWordMsg, JoinRoomMsg, LeaveRoomMsg, PollingMsg, RoomReadyMsg,
};
use draw_guess::player::Player;
use draw_guess::room::GameStage;

fn player(id: &str) -> Player {
    Player {
        user_id: id.to_string(),
        avatar_url: id.to_string(),
        nick_name: id.to_string(),
    }
}

fn join(co: &mut Coordinator, rid: &str, id: &str) -> bool {
    co.join_room(JoinRoomMsg {
        player: player(id),
        room_id: rid.to_string(),
    })
}

fn ready(co: &mut Coordinator, id: &str, ready: bool, now: i64) -> TimerCmd {
    co.set_ready(
        RoomReadyMsg {
            user_id: id.to_string(),
            ready,
        },
        now,
    )
}

#[test]
fn join_rules() {
    let mut co = Coordinator::new();
    let rid = co.create_room();
    assert!(join(&mut co, &rid, "p1"));
    // A player already in a room cannot join again.
    assert!(!join(&mut co, &rid, "p1"));
    // A nonexistent room declines.
    assert!(!join(&mut co, "no-such-room", "p2"));
    assert_eq!(co.rooms[0].players.len(), 1);
}

#[test]
fn auto_start_cancellation() {
    let mut co = Coordinator::new();
    let rid = co.create_room();
    for p in ["p1", "p2", "p3"] {
        assert!(join(&mut co, &rid, p));
    }
    ready(&mut co, "p1", true, 0);
    ready(&mut co, "p2", true, 0);
    // The third ready seats 3 of 6: the auto-start countdown is armed.
    match ready(&mut co, "p3", true, 1000) {
        TimerCmd::Arm(r, ev) => {
            assert_eq!(r, rid);
            assert_eq!(ev, TimerEvent::AutoStart);
        }
        other => panic!("expected an armed auto-start, got {:?}", other),
    }
    assert_eq!(co.pending.len(), 1);
    assert_eq!(co.pending[0].fire_at_ms, 6000);
    assert_eq!(co.rooms[0].next_timestamp, Some(6000));
    // Any player un-readying before the deadline cancels the schedule.
    match ready(&mut co, "p2", false, 2000) {
        TimerCmd::Cancel(r) => assert_eq!(r, rid),
        other => panic!("expected a cancel, got {:?}", other),
    }
    assert_eq!(co.pending.len(), 0);
    assert_eq!(co.rooms[0].next_timestamp, Some(0));
    assert_eq!(co.rooms[0].stage, GameStage::Ready);
}

#[test]
fn six_seated_ready_start_at_once() {
    let mut co = Coordinator::new();
    let rid = co.create_room();
    for i in 0..6 {
        assert!(join(&mut co, &rid, &format!("p{}", i)));
    }
    for i in 0..5 {
        assert!(matches!(
            ready(&mut co, &format!("p{}", i), true, 0),
            TimerCmd::Keep
        ));
    }
    match ready(&mut co, "p5", true, 0) {
        TimerCmd::Arm(r, ev) => {
            assert_eq!(r, rid);
            assert_eq!(ev, TimerEvent::ChooseTimeout);
        }
        other => panic!("expected the choose deadline, got {:?}", other),
    }
    assert_eq!(co.rooms[0].stage, GameStage::Choose);
    assert_eq!(co.rooms[0].cur_id, Some("p0".to_string()));
}

#[test]
fn end_to_end_scenario() {
    let mut co = Coordinator::new();
    let rid = co.create_room();
    for p in ["P1", "P2", "P3"] {
        assert!(join(&mut co, &rid, p));
    }
    // All ready: the five-second countdown is armed.
    ready(&mut co, "P1", true, 0);
    ready(&mut co, "P2", true, 0);
    assert!(matches!(
        ready(&mut co, "P3", true, 0),
        TimerCmd::Arm(_, TimerEvent::AutoStart)
    ));
    // P1 un-readies: the countdown is cancelled and never fires.
    assert!(matches!(ready(&mut co, "P1", false, 1000), TimerCmd::Cancel(_)));
    assert!(co.pending.is_empty());
    // Everyone readies again, P3 last: three seated, countdown armed anew.
    ready(&mut co, "P1", true, 2000);
    ready(&mut co, "P2", true, 2000);
    assert!(matches!(
        ready(&mut co, "P3", true, 2000),
        TimerCmd::Arm(_, TimerEvent::AutoStart)
    ));
    assert_eq!(co.pending[0].fire_at_ms, 7000);
    // Five seconds later the start fires: Choose stage, P1 to pick.
    assert!(matches!(
        co.game_start(&rid.clone(), 7000),
        TimerCmd::Arm(_, TimerEvent::ChooseTimeout)
    ));
    assert_eq!(co.rooms[0].stage, GameStage::Choose);
    assert_eq!(co.rooms[0].cur_id, Some("P1".to_string()));
    // P1 picks "apple": Drawing, deadline twenty seconds out.
    let (ok, cmd) = co.choose_word(
        ChooseWordMsg {
            user_id: "P1".to_string(),
            word: "apple".to_string(),
        },
        8000,
    );
    assert!(ok);
    assert!(matches!(cmd, TimerCmd::Arm(_, TimerEvent::DrawEnd)));
    assert_eq!(co.rooms[0].stage, GameStage::Drawing);
    assert_eq!(co.rooms[0].next_timestamp, Some(28_000));
    // P2 guesses the word: scores 6, chat stored fully masked.
    assert!(co.chat(
        ChatMsg {
            user_id: "P2".to_string(),
            content: "apple".to_string(),
        },
        9000,
    ));
    assert_eq!(co.rooms[0].round_score_map[0].user_id, "P2");
    assert_eq!(co.rooms[0].round_score_map[0].score, 6);
    assert_eq!(co.rooms[0].chat_history[0].content, "*****");
    // The draw deadline fires: Result, and the drawer banks 6.
    assert!(matches!(
        co.draw_end(&rid.clone(), 28_000),
        TimerCmd::Arm(_, TimerEvent::NextTurn)
    ));
    assert_eq!(co.rooms[0].stage, GameStage::Result);
    let p1_total = co.rooms[0]
        .settlement
        .iter()
        .find(|e| e.user_id == "P1")
        .unwrap()
        .score;
    assert_eq!(p1_total, 6);
    // The result window closes: the turn passes to P2.
    assert!(matches!(
        co.next_turn(&rid.clone(), 33_000),
        TimerCmd::Arm(_, TimerEvent::ChooseTimeout)
    ));
    assert_eq!(co.rooms[0].stage, GameStage::Choose);
    assert_eq!(co.rooms[0].cur_id, Some("P2".to_string()));
}

#[test]
fn poll_hides_the_word_from_guessers() {
    let mut co = Coordinator::new();
    let rid = co.create_room();
    for p in ["a", "b", "c"] {
        assert!(join(&mut co, &rid, p));
    }
    ready(&mut co, "a", true, 0);
    ready(&mut co, "b", true, 0);
    ready(&mut co, "c", true, 0);
    co.game_start(&rid.clone(), 5000);
    co.choose_word(
        ChooseWordMsg {
            user_id: "a".to_string(),
            word: "pear".to_string(),
        },
        5000,
    );
    let snap_b = co
        .poll(&PollingMsg {
            user_id: "b".to_string(),
            room_id: rid.clone(),
            timestamp: 0,
            draw_index: 0,
        })
        .unwrap();
    assert_eq!(snap_b.stage, GameStage::Drawing);
    assert!(snap_b.word.is_none());
    let snap_a = co
        .poll(&PollingMsg {
            user_id: "a".to_string(),
            room_id: rid.clone(),
            timestamp: 0,
            draw_index: 0,
        })
        .unwrap();
    assert_eq!(snap_a.word, Some("pear".to_string()));
    // After the turn the word is revealed to everyone.
    co.draw_end(&rid.clone(), 25_000);
    let snap_b2 = co
        .poll(&PollingMsg {
            user_id: "b".to_string(),
            room_id: rid.clone(),
            timestamp: 0,
            draw_index: 0,
        })
        .unwrap();
    assert_eq!(snap_b2.word, Some("pear".to_string()));
    // The chat filter hands back only lines newer than the given time.
    assert!(co.chat(
        ChatMsg {
            user_id: "c".to_string(),
            content: "hello".to_string(),
        },
        26_000,
    ));
    let snap_c = co
        .poll(&PollingMsg {
            user_id: "c".to_string(),
            room_id: rid.clone(),
            timestamp: 25_500,
            draw_index: 0,
        })
        .unwrap();
    assert_eq!(snap_c.chat_history.len(), 1);
    assert_eq!(snap_c.chat_history[0].content, "hello");
}

#[test]
fn departing_drawer_forfeits_the_turn() {
    let mut co = Coordinator::new();
    let rid = co.create_room();
    for p in ["a", "b", "c"] {
        assert!(join(&mut co, &rid, p));
    }
    ready(&mut co, "a", true, 0);
    ready(&mut co, "b", true, 0);
    ready(&mut co, "c", true, 0);
    co.game_start(&rid.clone(), 5000);
    assert_eq!(co.rooms[0].cur_id, Some("a".to_string()));
    // The chooser leaves: the turn passes on as a choose timeout would.
    let cmd = co.leave_room(
        LeaveRoomMsg {
            user_id: "a".to_string(),
        },
        6000,
    );
    assert!(matches!(cmd, TimerCmd::Arm(_, TimerEvent::ChooseTimeout)));
    assert_eq!(co.rooms[0].cur_id, Some("b".to_string()));
    assert_eq!(co.rooms[0].players.len(), 2);
    assert_eq!(co.rooms[0].seat[0], None);
}

#[test]
fn lobby_listing_and_joinable_rooms() {
    let mut co = Coordinator::new();
    let r1 = co.create_room();
    let r2 = co.create_room();
    let metas = co.get_all_rooms();
    assert_eq!(metas.len(), 2);
    assert_eq!(metas[0].id, r1);
    assert_eq!(metas[1].id, r2);
    // Fill the first room: the second becomes the joinable one.
    for i in 0..6 {
        assert!(join(&mut co, &r1, &format!("f{}", i)));
    }
    let joinable = co.find_joinable_room().unwrap();
    assert_eq!(joinable.id, r2);
}

#[test]
fn standing_up_during_the_countdown_cancels_it() {
    let mut co = Coordinator::new();
    let rid = co.create_room();
    for p in ["a", "b", "c"] {
        assert!(join(&mut co, &rid, p));
    }
    ready(&mut co, "a", true, 0);
    ready(&mut co, "b", true, 0);
    assert!(matches!(
        ready(&mut co, "c", true, 0),
        TimerCmd::Arm(_, TimerEvent::AutoStart)
    ));
    let (ok, cmd) = co.get_up(draw_guess::message::RoomGetUpMsg {
        user_id: "b".to_string(),
    });
    assert!(ok);
    assert!(matches!(cmd, TimerCmd::Cancel(_)));
    assert!(co.pending.is_empty());
    assert!(co.rooms[0].observer.contains(&"b".to_string()));
    assert_eq!(co.rooms[0].seat[1], None);
}

#[test]
fn drawer_tools_through_the_coordinator() {
    let mut co = Coordinator::new();
    let rid = co.create_room();
    for p in ["a", "b", "c"] {
        assert!(join(&mut co, &rid, p));
    }
    ready(&mut co, "a", true, 0);
    ready(&mut co, "b", true, 0);
    ready(&mut co, "c", true, 0);
    co.game_start(&rid.clone(), 5000);
    co.choose_word(
        ChooseWordMsg {
            user_id: "a".to_string(),
            word: "sun".to_string(),
        },
        5000,
    );
    // Only the drawer may draw, undo, clear or recolor.
    assert!(!co.draw(draw_guess::message::DrawMsg {
        user_id: "b".to_string(),
        raw_data: "seg1".to_string(),
        timestamp: 5100,
    }));
    assert!(co.draw(draw_guess::message::DrawMsg {
        user_id: "a".to_string(),
        raw_data: "seg1".to_string(),
        timestamp: 5100,
    }));
    assert!(co.draw(draw_guess::message::DrawMsg {
        user_id: "a".to_string(),
        raw_data: "seg2".to_string(),
        timestamp: 5200,
    }));
    assert!(co.undo(draw_guess::message::DrawUndoMsg {
        user_id: "a".to_string(),
    }));
    assert_eq!(co.rooms[0].draw_data.len(), 1);
    co.set_background(draw_guess::message::DrawChangeBackgoundMsg {
        user_id: "a".to_string(),
        color: "#000000".to_string(),
    });
    assert_eq!(co.rooms[0].background, "#000000");
    assert!(co.clear(draw_guess::message::DrawClearMsg {
        user_id: "a".to_string(),
    }));
    assert_eq!(co.rooms[0].draw_data.len(), 0);
}

#[test]
fn init_answers_player_and_room_card() {
    let mut co = Coordinator::new();
    let rid = co.create_room();
    assert!(join(&mut co, &rid, "solo"));
    let (player, meta) = co.init(&"solo".to_string()).unwrap();
    assert_eq!(player.user_id, "solo");
    assert_eq!(meta.id, rid);
    assert_eq!(meta.name, "Room");
    assert!(co.init(&"nobody".to_string()).is_none());
    assert!(co.room_by_id(&rid).unwrap().id == rid);
    assert!(co.room_of_player(&"solo".to_string()).is_some());
}
