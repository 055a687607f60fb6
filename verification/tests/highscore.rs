use bevoids::highscore::{
    sort_by_score_desc, update_score, AddScoreEvent, HighScore, HighScoreRepository, Score,
    Timestamp,
};

fn scores_of(board: &HighScoreRepository) -> Vec<u32> {
    board.iter().map(|h| h.score().value()).collect()
}

#[test]
fn highscore_is_send_and_sync() {
    fn assert_send<T: Send + Sync>() {}
    assert_send::<HighScoreRepository>();
}

#[test]
fn default_creates_an_empty_board() {
    let highscores = HighScoreRepository::with_capacity(5);
    assert!(highscores.iter().count() == 0);
}

#[test]
fn scores_are_sorted_highest_first() {
    let mut board = HighScoreRepository::with_capacity(5);
    for s in [30u32, 10, 50, 20, 40] {
        let _ = board.push(HighScore::new(s.into(), "abc"));
    }
    assert_eq!(scores_of(&board), vec![50, 40, 30, 20, 10]);
}

#[test]
fn highest_score_always_succeeds_and_low_score_fails_when_full() {
    let mut board = HighScoreRepository::with_capacity(3);
    for s in [7u32, 9, 8] {
        assert!(board.push(HighScore::new(s.into(), "")).is_ok());
    }
    assert_eq!(board.push(HighScore::new(u32::MAX.into(), "")), Ok(0));
    assert_eq!(board.push(HighScore::new(u32::MIN.into(), "")), Err(()));
    assert_eq!(board.count(), 3);
    assert_eq!(scores_of(&board), vec![u32::MAX, 9, 8]);
}

#[test]
fn push_places_ties_in_front() {
    let mut board = HighScoreRepository::with_capacity(4);
    let _ = board.push(HighScore::new(Score::new(5), "first"));
    assert_eq!(board.push(HighScore::new(Score::new(5), "second")), Ok(0));
    let names: Vec<String> = board.iter().map(|h| h.name().clone()).collect();
    assert_eq!(names, vec!["second".to_string(), "first".to_string()]);
}

#[test]
fn position_matches_push() {
    let mut board = HighScoreRepository::with_capacity(2);
    assert_eq!(board.position(&Score::new(3)), Some(0));
    let _ = board.push(HighScore::new(Score::new(10), "a"));
    assert_eq!(board.position(&Score::new(3)), Some(1));
    assert_eq!(board.position(&Score::new(10)), Some(0));
    let _ = board.push(HighScore::new(Score::new(5), "b"));
    assert_eq!(board.position(&Score::new(3)), None);
    assert_eq!(board.position(&Score::new(6)), Some(1));
    assert_eq!(board.push(HighScore::new(Score::new(6), "c")), Ok(1));
    assert_eq!(scores_of(&board), vec![10, 6]);
}

#[test]
fn zero_capacity_board_takes_nothing() {
    let mut board = HighScoreRepository::with_capacity(0);
    assert_eq!(board.position(&Score::new(1)), Some(0));
    assert_eq!(board.push(HighScore::new(Score::new(1), "x")), Err(()));
    assert_eq!(board.count(), 0);
}

#[test]
fn lowest_score_of_board() {
    let mut board = HighScoreRepository::with_capacity(3);
    assert_eq!(board.lowest_score(), Score::new(0));
    let _ = board.push(HighScore::new(Score::new(4), "a"));
    let _ = board.push(HighScore::new(Score::new(12), "b"));
    assert_eq!(board.lowest_score(), Score::new(4));
}

#[test]
fn loaded_board_is_sorted_stably_and_cut_to_capacity() {
    let t = Timestamp { secs: 0, nanos: 0 };
    let records = vec![
        HighScore::with_time(Score::new(1), "a".to_string(), t),
        HighScore::with_time(Score::new(9), "b".to_string(), t),
        HighScore::with_time(Score::new(5), "c".to_string(), t),
        HighScore::with_time(Score::new(9), "d".to_string(), t),
    ];
    let board = HighScoreRepository::from_records(records, 3);
    let names: Vec<String> = board.iter().map(|h| h.name().clone()).collect();
    assert_eq!(names, vec!["b".to_string(), "d".to_string(), "c".to_string()]);
    assert_eq!(board.capacity_u8(), 3);
}

#[test]
fn stable_sort_keeps_order_of_ties() {
    let t = Timestamp { secs: 1, nanos: 2 };
    let records = vec![
        HighScore::with_time(Score::new(2), "x".to_string(), t),
        HighScore::with_time(Score::new(2), "y".to_string(), t),
        HighScore::with_time(Score::new(3), "z".to_string(), t),
    ];
    let sorted = sort_by_score_desc(records);
    let names: Vec<&str> = sorted.iter().map(|h| h.name().as_str()).collect();
    assert_eq!(names, vec!["z", "x", "y"]);
}

#[test]
fn update_score_adds_all_events() {
    let mut score = Score::default();
    update_score(&vec![AddScoreEvent(Score::new(15)), AddScoreEvent(Score::new(27))], &mut score);
    assert_eq!(score.value(), 42);
    update_score(&vec![], &mut score);
    assert_eq!(score.value(), 42);
}

#[test]
fn score_displays_as_decimal() {
    assert_eq!(Score::new(0).to_string(), "0");
    assert_eq!(Score::new(1234).to_string(), "1234");
    assert_eq!(Score::new(u32::MAX).to_string(), "4294967295");
}

#[test]
fn new_highscore_keeps_name_and_stamps_time() {
    let h = HighScore::new(Score::new(77), "Ada");
    assert_eq!(h.score(), Score::new(77));
    assert_eq!(h.name(), "Ada");
    assert!(h.time().secs > 0);
    assert!(h.time().nanos < 2_000_000_000);
}

#[test]
fn reloading_a_saved_board_restores_it() {
    let mut board = HighScoreRepository::with_capacity(3);
    for (s, n) in [(3u32, "c"), (9, "a"), (3, "d"), (5, "b")] {
        let _ = board.push(HighScore::new(Score::new(s), n));
    }
    let before: Vec<(u32, String)> = board.iter().map(|h| (h.score().value(), h.name().clone())).collect();
    let reloaded = HighScoreRepository::from_records(board.into_records(), 3);
    let after: Vec<(u32, String)> = reloaded.iter().map(|h| (h.score().value(), h.name().clone())).collect();
    assert_eq!(before, after);
    assert_eq!(after, vec![(9, "a".to_string()), (5, "b".to_string()), (3, "d".to_string())]);
}

#[test]
fn accepts_agrees_with_push() {
    let mut board = HighScoreRepository::with_capacity(1);
    assert!(board.accepts(Score::new(0)));
    let _ = board.push(HighScore::new(Score::new(4), "a"));
    assert!(!board.accepts(Score::new(3)));
    assert!(board.accepts(Score::new(4)));
}
