use bevoids::game_state::{
    capture_cursor_when_playing, esc_to_pause_unpause, run_criteria_if_not_paused, GameState,
    GameStateStack, StateCommand, StateError,
};
use bevoids::menus::{
    accepted_name, enter_hall_of_fame, focus_first_button, gameover_hint, gameover_menu_click,
    highscore_menu_back, highscore_menu_hint, highscore_rows, paused_menu_hint, main_menu_click, main_menu_hint, new_highscore_hint,
    paused_menu_continue, start_menu_click, try_enter_hall_of_fame, GameOverButton, MainMenuButton,
    MenuEffect, name_long_enough,
};
use bevoids::highscore::{HighScore, HighScoreRepository, Score};
use bevoids::movement::{window_crossing, WindowCrossing};

#[test]
fn escape_pauses_and_resumes() {
    let mut stack = GameStateStack::new(GameState::MainMenu);
    assert_eq!(esc_to_pause_unpause(stack.current()), None);
    assert_eq!(stack.apply(StateCommand::Replace(GameState::Playing)), Ok(()));
    let cmd = esc_to_pause_unpause(stack.current()).unwrap();
    assert_eq!(cmd, StateCommand::Push(GameState::Paused));
    assert_eq!(stack.apply(cmd), Ok(()));
    assert_eq!(stack.current(), GameState::Paused);
    let cmd = esc_to_pause_unpause(stack.current()).unwrap();
    assert_eq!(cmd, StateCommand::Pop);
    assert_eq!(stack.apply(cmd), Ok(()));
    assert_eq!(stack.current(), GameState::Playing);
}

#[test]
fn state_stack_refusals() {
    let mut stack = GameStateStack::new(GameState::GameOver);
    assert_eq!(stack.apply(StateCommand::Pop), Err(StateError::StackEmpty));
    assert_eq!(stack.apply(StateCommand::Replace(GameState::GameOver)), Err(StateError::AlreadyInState));
    assert_eq!(stack.apply(StateCommand::Push(GameState::GameOver)), Err(StateError::AlreadyInState));
    assert_eq!(stack.current(), GameState::GameOver);
}

#[test]
fn paused_game_stops_systems_and_frees_cursor() {
    assert!(!run_criteria_if_not_paused(GameState::Paused));
    assert!(run_criteria_if_not_paused(GameState::Playing));
    assert!(run_criteria_if_not_paused(GameState::MainMenu));
    assert!(capture_cursor_when_playing(GameState::Playing));
    assert!(!capture_cursor_when_playing(GameState::Paused));
    assert!(!capture_cursor_when_playing(GameState::HighScoreMenu));
}

#[test]
fn state_names() {
    assert_eq!(GameState::NewHighScore.name(), "NewHighScore");
    assert_eq!(GameState::MainMenu.name(), "MainMenu");
}

#[test]
fn menu_buttons_lead_to_states() {
    let mut started = true;
    assert_eq!(main_menu_click(MainMenuButton::Exit, &mut started), MenuEffect::ExitApp);
    assert!(started);
    assert_eq!(main_menu_click(MainMenuButton::Play, &mut started), MenuEffect::Goto(StateCommand::Replace(GameState::Playing)));
    assert!(!started);
    started = true;
    assert_eq!(
        main_menu_click(MainMenuButton::Highscores, &mut started),
        MenuEffect::Goto(StateCommand::Replace(GameState::HighScoreMenu))
    );
    assert!(!started);
    assert_eq!(gameover_menu_click(GameOverButton::TryAgain), StateCommand::Replace(GameState::Playing));
    assert_eq!(gameover_menu_click(GameOverButton::MainMenu), StateCommand::Replace(GameState::MainMenu));
    let mut started = true;
    assert_eq!(paused_menu_continue(&mut started), StateCommand::Pop);
    assert!(!started);
    started = true;
    assert_eq!(highscore_menu_back(&mut started), StateCommand::Replace(GameState::MainMenu));
    assert!(!started);
    assert_eq!(highscore_menu_hint(true), "Hit Enter for main menu");
    assert_eq!(highscore_menu_hint(false), "");
    assert_eq!(paused_menu_hint(), "Hit Escape or Enter to continue");
    assert_eq!(start_menu_click(), StateCommand::Replace(GameState::Playing));
}

#[test]
fn menu_hints() {
    assert_eq!(main_menu_hint(Some(MainMenuButton::Play)), "Hit Enter to play");
    assert_eq!(main_menu_hint(Some(MainMenuButton::Highscores)), "Hit Enter to view highscores");
    assert_eq!(main_menu_hint(Some(MainMenuButton::Exit)), "Hit Enter to exit");
    assert_eq!(main_menu_hint(None), "");
    assert_eq!(gameover_hint(Some(GameOverButton::TryAgain)), "Hit Enter to try again");
    assert_eq!(gameover_hint(Some(GameOverButton::MainMenu)), "Hit Enter for mainmenu");
    assert_eq!(focus_first_button(false, false), (true, true));
    assert_eq!(focus_first_button(false, true), (false, false));
    assert_eq!(focus_first_button(true, false), (true, false));
}

#[test]
fn names_need_three_characters_after_trimming() {
    assert_eq!(accepted_name("  ab  "), None);
    assert_eq!(accepted_name("  abc \t"), Some("abc".to_string()));
    assert_eq!(new_highscore_hint(" x "), "At least 3 charaters required");
    assert_eq!(new_highscore_hint("Ada"), "Hit Enter accept");
    // Characters are counted, not bytes.
    assert_eq!(accepted_name(" éé "), None);
    assert_eq!(new_highscore_hint("éé"), "At least 3 charaters required");
    assert_eq!(accepted_name("\u{3000}éßü\u{a0}"), Some("éßü".to_string()));
    assert!(name_long_enough("Zoë"));
    assert!(!name_long_enough("ÿ€"));
}

#[test]
fn hall_of_fame_entry() {
    let mut board = HighScoreRepository::with_capacity(3);
    let _ = board.push(HighScore::new(Score::new(100), "top"));
    let (index, cmd) = enter_hall_of_fame(&mut board, Score::new(50), "  Bob ");
    assert_eq!(index, 1);
    assert_eq!(cmd, StateCommand::Replace(GameState::HighScoreMenu));
    let names: Vec<String> = board.iter().map(|h| h.name().clone()).collect();
    assert_eq!(names, vec!["top".to_string(), "Bob".to_string()]);
}

#[test]
fn highscore_table_rows() {
    let mut board = HighScoreRepository::with_capacity(5);
    let _ = board.push(HighScore::new(Score::new(1200), "Ann"));
    let _ = board.push(HighScore::new(Score::new(7), "Cid"));
    let rows = highscore_rows(&board, 0, 10);
    assert_eq!(rows.len(), 2);
    assert_eq!(rows[0].rank, "  1");
    assert_eq!(rows[0].score, "     1200");
    assert_eq!(rows[0].name, "Ann");
    assert_eq!(rows[1].rank, "  2");
    assert_eq!(rows[1].score, "        7");
    let rows = highscore_rows(&board, 1, 2);
    assert_eq!(rows.len(), 1);
    assert_eq!(rows[0].rank, "  2");
    assert_eq!(highscore_rows(&board, 3, 4).len(), 0);
}

#[test]
fn window_crossings() {
    assert_eq!(window_crossing(true, false), Some(WindowCrossing::Exited));
    assert_eq!(window_crossing(false, true), Some(WindowCrossing::Entered));
    assert_eq!(window_crossing(true, true), None);
    assert_eq!(window_crossing(false, false), None);
}

#[test]
fn try_enter_hall_of_fame_checks_name_and_board() {
    let mut board = HighScoreRepository::with_capacity(1);
    let _ = board.push(HighScore::new(Score::new(10), "top"));
    let mut started = true;
    let mut name = "Zed".to_string();
    assert_eq!(try_enter_hall_of_fame(&mut board, Score::new(5), &mut name, &mut started), None);
    assert_eq!((name.as_str(), started), ("Zed", true));
    let mut short = " z ".to_string();
    assert_eq!(try_enter_hall_of_fame(&mut board, Score::new(50), &mut short, &mut started), None);
    let mut two_chars = "éé".to_string();
    assert_eq!(try_enter_hall_of_fame(&mut board, Score::new(50), &mut two_chars, &mut started), None);
    assert_eq!(board.count(), 1);
    assert_eq!(
        try_enter_hall_of_fame(&mut board, Score::new(50), &mut name, &mut started),
        Some((0, StateCommand::Replace(GameState::HighScoreMenu)))
    );
    assert_eq!((name.as_str(), started), ("", false));
    assert_eq!(board.iter().next().unwrap().name(), "Zed");
}
