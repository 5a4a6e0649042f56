use draw_guess::player::Player;
use draw_guess::room::{GameStage, IfAllReadyResult, RoomData};

fn player(id: &str) -> Player {
    Player {
        user_id: id.to_string(),
        avatar_url: id.to_string(),
        nick_name: id.to_string(),
    }
}

#[test]
fn room_next() {
    let mut room = RoomData::new();

    room.join_player(&Player {
        avatar_url: "1".to_string(),
        user_id: "1".to_string(),
        nick_name: "1".to_string(),
    });
    room.join_player(&Player {
        avatar_url: "2".to_string(),
        user_id: "2".to_string(),
        nick_name: "2".to_string(),
    });
    room.join_player(&Player {
        avatar_url: "3".to_string(),
        user_id: "3".to_string(),
        nick_name: "3".to_string(),
    });
    room.start(0);
    assert_eq!(room.cur_id, Some("1".to_string()));
    assert_eq!(room.cur_seat, Some(0));
    room.next_player();
    assert_eq!(room.cur_id, Some("2".to_string()));
    room.next_player();
    assert_eq!(room.cur_id, Some("3".to_string()));
    room.next_player();
    assert_eq!(room.cur_id, None);

    room.word = "大狮子".to_string();
    room.add_chat("1".to_string(), "大狮子".to_string(), 0);
    println!("{:?}", room.chat_history);
}

#[test]
fn seventh_joiner_becomes_observer() {
    let mut room = RoomData::new();
    for i in 0..7 {
        room.join_player(&player(&format!("p{}", i)));
    }
    let seated: Vec<&String> = room.seat.iter().flatten().collect();
    assert_eq!(seated.len(), 6);
    for i in 0..6 {
        assert_eq!(room.seat[i], Some(format!("p{}", i)));
    }
    assert_eq!(room.observer, vec!["p6".to_string()]);
}

#[test]
fn six_ready_players_start_immediately() {
    let mut room = RoomData::new();
    for i in 0..6 {
        room.join_player(&player(&format!("p{}", i)));
    }
    for i in 0..5 {
        room.ready(&format!("p{}", i));
        assert_eq!(room.if_all_ready(1000), IfAllReadyResult::NotReady);
    }
    room.ready(&"p5".to_string());
    assert_eq!(room.if_all_ready(1000), IfAllReadyResult::Start);
}

#[test]
fn three_ready_players_arm_the_countdown() {
    let mut room = RoomData::new();
    for i in 0..3 {
        room.join_player(&player(&format!("p{}", i)));
    }
    for i in 0..3 {
        room.ready(&format!("p{}", i));
    }
    assert_eq!(room.if_all_ready(1000), IfAllReadyResult::AutoStart(5));
    assert_eq!(room.next_timestamp, Some(6000));
    // Un-readying removes the flag and zeroes the countdown deadline.
    room.cacnel_ready(&"p0".to_string());
    assert_eq!(room.next_timestamp, Some(0));
    assert_eq!(room.if_all_ready(2000), IfAllReadyResult::NotReady);
}

#[test]
fn fewer_than_three_ready_players_do_nothing() {
    let mut room = RoomData::new();
    room.join_player(&player("a"));
    room.join_player(&player("b"));
    room.ready(&"a".to_string());
    room.ready(&"b".to_string());
    assert_eq!(room.if_all_ready(0), IfAllReadyResult::NotReady);
    assert_eq!(room.next_timestamp, None);
}

#[test]
fn pick_word_rules() {
    let mut room = RoomData::new();
    room.join_player(&player("a"));
    room.join_player(&player("b"));
    room.join_player(&player("c"));
    // Not in Choose stage yet.
    assert!(!room.pick_a_word(&"a".to_string(), "apple".to_string(), 0));
    room.start(0);
    assert_eq!(room.stage, GameStage::Choose);
    // Only the chooser may pick, and not an empty word.
    assert!(!room.pick_a_word(&"b".to_string(), "apple".to_string(), 0));
    assert!(!room.pick_a_word(&"a".to_string(), "".to_string(), 0));
    assert!(room.pick_a_word(&"a".to_string(), "apple".to_string(), 100));
    assert_eq!(room.stage, GameStage::Drawing);
    assert_eq!(room.next_timestamp, Some(20100));
}

#[test]
fn drawing_rules() {
    let mut room = RoomData::new();
    room.join_player(&player("a"));
    room.join_player(&player("b"));
    room.join_player(&player("c"));
    room.start(0);
    assert!(!room.draw(&"a".to_string(), "x".to_string(), 1));
    assert!(room.pick_a_word(&"a".to_string(), "apple".to_string(), 0));
    assert!(!room.draw(&"b".to_string(), "x".to_string(), 1));
    assert!(room.draw(&"a".to_string(), "x".to_string(), 1));
    assert!(room.draw(&"a".to_string(), "y".to_string(), 2));
    assert_eq!(room.draw_data.len(), 2);
    assert!(room.undo_draw(&"a".to_string()));
    assert_eq!(room.draw_data.len(), 1);
    assert!(!room.clear_draw(&"b".to_string()));
    assert!(room.clear_draw(&"a".to_string()));
    assert_eq!(room.draw_data.len(), 0);
}

#[test]
fn guess_scoring_order() {
    let mut room = RoomData::new();
    for i in 0..6 {
        room.join_player(&player(&format!("p{}", i)));
    }
    room.start(0);
    assert_eq!(room.cur_id, Some("p0".to_string()));
    assert!(room.pick_a_word(&"p0".to_string(), "fox".to_string(), 0));
    // The drawer's own correct-looking chat never scores.
    room.add_chat("p0".to_string(), "fox".to_string(), 10);
    assert_eq!(room.round_score_map.len(), 0);
    room.add_chat("p1".to_string(), "fox".to_string(), 11);
    room.add_chat("p2".to_string(), "fox".to_string(), 12);
    room.add_chat("p3".to_string(), "fox".to_string(), 13);
    room.add_chat("p4".to_string(), "fox".to_string(), 14);
    // A repeated correct guess by an already-scored player adds nothing.
    room.add_chat("p1".to_string(), "fox".to_string(), 15);
    assert_eq!(room.round_score_map.len(), 4);
    let got: Vec<(String, u16)> = room
        .round_score_map
        .iter()
        .map(|e| (e.user_id.clone(), e.score))
        .collect();
    assert_eq!(
        got,
        vec![
            ("p1".to_string(), 6),
            ("p2".to_string(), 5),
            ("p3".to_string(), 3),
            ("p4".to_string(), 3),
        ]
    );
    // The announcement for the fourth guesser renders its rank and points.
    let ann = room
        .chat_history
        .iter()
        .filter(|c| c.user_id == "0")
        .nth(3)
        .unwrap();
    assert_eq!(ann.content, "p4 guessed right in place 4, scoring 3 points.");
}

#[test]
fn word_masking() {
    let mut room = RoomData::new();
    room.join_player(&player("a"));
    room.join_player(&player("b"));
    room.join_player(&player("c"));
    room.start(0);
    assert!(room.pick_a_word(&"a".to_string(), "ab".to_string(), 0));
    // An exact guess is stored as one asterisk per grapheme.
    room.add_chat("b".to_string(), "ab".to_string(), 10);
    assert_eq!(room.chat_history[0].content, "**");
    // A message containing the word has only that substring masked.
    room.add_chat("c".to_string(), "xx ab yy ab".to_string(), 11);
    let stored = room
        .chat_history
        .iter()
        .find(|c| c.user_id == "c")
        .unwrap();
    assert_eq!(stored.content, "xx ** yy **");
    // Outside the drawing stage nothing is masked.
    let mut lobby = RoomData::new();
    lobby.join_player(&player("z"));
    lobby.add_chat("z".to_string(), "ab".to_string(), 12);
    assert_eq!(lobby.chat_history[0].content, "ab");
}

#[test]
fn turn_end_settlement_and_summary() {
    let mut room = RoomData::new();
    room.join_player(&player("a"));
    room.join_player(&player("b"));
    room.join_player(&player("c"));
    room.start(0);
    assert!(room.pick_a_word(&"a".to_string(), "ab".to_string(), 0));
    room.add_chat("b".to_string(), "ab".to_string(), 10);
    room.draw_end(20_000);
    assert_eq!(room.stage, GameStage::Result);
    assert_eq!(room.round_score_map.len(), 0);
    let mut scores: Vec<(String, u16)> = room
        .settlement
        .iter()
        .map(|e| (e.user_id.clone(), e.score))
        .collect();
    scores.sort();
    // One of three guessed: count == seated - 2, so the drawer gets 6.
    assert_eq!(scores, vec![("a".to_string(), 6), ("b".to_string(), 6)]);
    let summary = room.chat_history.last().unwrap();
    assert_eq!(summary.user_id, "0");
    assert_eq!(
        summary.content,
        "The answer was [ab]. 1 players guessed; a gets 6 points."
    );
}

#[test]
fn nobody_guessed_summary() {
    let mut room = RoomData::new();
    room.join_player(&player("a"));
    room.join_player(&player("b"));
    room.join_player(&player("c"));
    room.start(0);
    assert!(room.pick_a_word(&"a".to_string(), "ab".to_string(), 0));
    room.draw_end(20_000);
    let summary = room.chat_history.last().unwrap();
    assert_eq!(
        summary.content,
        "The answer was [ab]. nobody guessed; a gets no points."
    );
    assert_eq!(room.settlement.len(), 0);
}

#[test]
fn chat_history_keeps_newest_twenty() {
    let mut room = RoomData::new();
    room.join_player(&player("a"));
    for i in 0..25 {
        room.add_chat("a".to_string(), format!("m{}", i), i as i64);
    }
    assert_eq!(room.chat_history.len(), 20);
    assert_eq!(room.chat_history[0].content, "m5");
    assert_eq!(room.chat_history[19].content, "m24");
}

#[test]
fn sit_on_and_get_up() {
    let mut room = RoomData::new();
    for i in 0..7 {
        room.join_player(&player(&format!("p{}", i)));
    }
    // p6 observes; seat 2 is taken, seat index 9 is out of range.
    assert!(!room.sit_on(&"p6".to_string(), 2));
    assert!(!room.sit_on(&"p6".to_string(), 9));
    // A seated player cannot sit: they are not observing.
    room.move_to_observer(&"p3".to_string());
    assert_eq!(room.seat[3], None);
    assert!(room.observer.contains(&"p3".to_string()));
    assert!(room.sit_on(&"p6".to_string(), 3));
    assert_eq!(room.seat[3], Some("p6".to_string()));
    assert!(!room.observer.contains(&"p6".to_string()));
    // The vacated player can only take a free seat.
    assert!(!room.sit_on(&"p3".to_string(), 3));
    assert!(room.sit_on(&"p3".to_string(), 2) == false);
}

#[test]
fn player_leave_clears_membership() {
    let mut room = RoomData::new();
    room.join_player(&player("a"));
    room.join_player(&player("b"));
    room.ready(&"a".to_string());
    room.player_leave(&"a".to_string());
    assert_eq!(room.seat[0], None);
    assert_eq!(room.players.len(), 1);
    assert!(room.ready_state.iter().all(|e| e.user_id != "a"));
}
