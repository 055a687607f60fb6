use vstd::prelude::*;
use vstd::string::*;

use crate::game_state::{GameState, StateCommand};
use crate::highscore::{push_result, pushed_records, HighScore, HighScoreRepository, Score};
use crate::text::{decimal, pad_left, padded_decimal};

verus! {

/// What a menu asks for after a click.
#[derive(Debug, Clone, Copy, PartialEq, Eq, Structural)]
pub enum MenuEffect {
    /// Change the game state.
    Goto(StateCommand),
    /// Quit the application.
    ExitApp,
}

/// The buttons of the main menu.
#[derive(Debug, Clone, Copy, PartialEq, Eq, Structural)]
pub enum MainMenuButton {
    Play,
    Highscores,
    Exit,
}

/// Play starts a game, Highscores shows the board, Exit quits. Leaving for
/// another screen clears the menu's started flag, so that the focus is set
/// again when the menu next shows.
pub fn main_menu_click(button: MainMenuButton, started: &mut bool) -> (e: MenuEffect)
    ensures
        e == match button {
            MainMenuButton::Play => MenuEffect::Goto(StateCommand::Replace(GameState::Playing)),
            MainMenuButton::Highscores => MenuEffect::Goto(StateCommand::Replace(GameState::HighScoreMenu)),
            MainMenuButton::Exit => MenuEffect::ExitApp,
        },
        *final(started) == (if button == MainMenuButton::Exit { *old(started) } else { false }),
{
    if button != MainMenuButton::Exit {
        *started = false;
    }
    match button {
        MainMenuButton::Play => MenuEffect::Goto(StateCommand::Replace(GameState::Playing)),
        MainMenuButton::Highscores => MenuEffect::Goto(StateCommand::Replace(GameState::HighScoreMenu)),
        MainMenuButton::Exit => MenuEffect::ExitApp,
    }
}

pub open spec fn main_menu_hint_spec(focus: Option<MainMenuButton>) -> Seq<char> {
    match focus {
        Some(MainMenuButton::Play) => "Hit Enter to play"@,
        Some(MainMenuButton::Highscores) => "Hit Enter to view highscores"@,
        Some(MainMenuButton::Exit) => "Hit Enter to exit"@,
        None => ""@,
    }
}

/// The hint shown under the main menu for the focused button.
pub fn main_menu_hint(focus: Option<MainMenuButton>) -> (s: &'static str)
    ensures
        s@ == main_menu_hint_spec(focus),
{
    match focus {
        Some(MainMenuButton::Play) => "Hit Enter to play",
        Some(MainMenuButton::Highscores) => "Hit Enter to view highscores",
        Some(MainMenuButton::Exit) => "Hit Enter to exit",
        None => "",
    }
}

/// Whether a menu must move the keyboard focus to its first button: on its
/// first frame, when nothing holds the focus. Returns the new value of the
/// menu's started flag and whether to request the focus.
pub fn focus_first_button(started: bool, anything_focused: bool) -> (r: (bool, bool))
    ensures
        r == (if !anything_focused && !started { (true, true) } else { (started, false) }),
{
    if !anything_focused && !started {
        (true, true)
    } else {
        (started, false)
    }
}

/// The buttons of the game-over menu.
#[derive(Debug, Clone, Copy, PartialEq, Eq, Structural)]
pub enum GameOverButton {
    TryAgain,
    MainMenu,
}

/// Try Again starts a new game, Main Menu returns to the main menu.
pub fn gameover_menu_click(button: GameOverButton) -> (c: StateCommand)
    ensures
        c == match button {
            GameOverButton::TryAgain => StateCommand::Replace(GameState::Playing),
            GameOverButton::MainMenu => StateCommand::Replace(GameState::MainMenu),
        },
{
    match button {
        GameOverButton::TryAgain => StateCommand::Replace(GameState::Playing),
        GameOverButton::MainMenu => StateCommand::Replace(GameState::MainMenu),
    }
}

pub open spec fn gameover_hint_spec(focus: Option<GameOverButton>) -> Seq<char> {
    match focus {
        Some(GameOverButton::TryAgain) => "Hit Enter to try again"@,
        Some(GameOverButton::MainMenu) => "Hit Enter for mainmenu"@,
        None => ""@,
    }
}

/// The hint shown under the game-over menu for the focused button.
pub fn gameover_hint(focus: Option<GameOverButton>) -> (s: &'static str)
    ensures
        s@ == gameover_hint_spec(focus),
{
    match focus {
        Some(GameOverButton::TryAgain) => "Hit Enter to try again",
        Some(GameOverButton::MainMenu) => "Hit Enter for mainmenu",
        None => "",
    }
}

/// Start in the start menu begins a game.
pub fn start_menu_click() -> (c: StateCommand)
    ensures
        c == StateCommand::Replace(GameState::Playing),
{
    StateCommand::Replace(GameState::Playing)
}

/// Continue in the pause menu resumes the game and clears the menu's
/// started flag.
pub fn paused_menu_continue(started: &mut bool) -> (c: StateCommand)
    ensures
        c == StateCommand::Pop,
        *final(started) == false,
{
    *started = false;
    StateCommand::Pop
}

/// The hint shown under the pause menu.
pub fn paused_menu_hint() -> (s: &'static str)
    ensures
        s@ == "Hit Escape or Enter to continue"@,
{
    "Hit Escape or Enter to continue"
}

/// Main Menu in the highscore menu returns to the main menu and clears the
/// menu's started flag.
pub fn highscore_menu_back(started: &mut bool) -> (c: StateCommand)
    ensures
        c == StateCommand::Replace(GameState::MainMenu),
        *final(started) == false,
{
    *started = false;
    StateCommand::Replace(GameState::MainMenu)
}

pub open spec fn highscore_menu_hint_spec(main_menu_focused: bool) -> Seq<char> {
    if main_menu_focused {
        "Hit Enter for main menu"@
    } else {
        ""@
    }
}

/// The hint shown under the highscore menu: what Enter does while its Main
/// Menu button holds the focus.
pub fn highscore_menu_hint(main_menu_focused: bool) -> (s: &'static str)
    ensures
        s@ == highscore_menu_hint_spec(main_menu_focused),
{
    if main_menu_focused {
        "Hit Enter for main menu"
    } else {
        ""
    }
}

/// Whether `c` has Unicode's `White_Space` property: the characters
/// U+0009..=U+000D, U+0020, U+0085, U+00A0, U+1680, U+2000..=U+200A, U+2028,
/// U+2029, U+202F, U+205F and U+3000.
pub open spec fn is_white_space(c: char) -> bool {
    let n = c as u32;
    ||| 0x9 <= n <= 0xd
    ||| n == 0x20
    ||| n == 0x85
    ||| n == 0xa0
    ||| n == 0x1680
    ||| 0x2000 <= n <= 0x200a
    ||| n == 0x2028
    ||| n == 0x2029
    ||| n == 0x202f
    ||| n == 0x205f
    ||| n == 0x3000
}

/// `s` without its leading whitespace.
pub open spec fn trim_start_spec(s: Seq<char>) -> Seq<char>
    decreases s.len(),
{
    if s.len() > 0 && is_white_space(s[0]) {
        trim_start_spec(s.drop_first())
    } else {
        s
    }
}

/// `s` without its trailing whitespace.
pub open spec fn trim_end_spec(s: Seq<char>) -> Seq<char>
    decreases s.len(),
{
    if s.len() > 0 && is_white_space(s.last()) {
        trim_end_spec(s.drop_last())
    } else {
        s
    }
}

/// `s` with leading and trailing whitespace removed.
pub open spec fn trim_spec(s: Seq<char>) -> Seq<char> {
    trim_end_spec(trim_start_spec(s))
}

/// Removes leading and trailing whitespace with `str::trim`, which std
/// documents as removing the characters with Unicode's `White_Space`
/// property from both ends.
#[verifier::external_body]
fn trim(s: &str) -> (r: &str)
    ensures
        r@ == trim_spec(s@),
{
    s.trim()
}

/// A trimmed name is long enough for the board when it has at least three
/// characters.
pub fn name_long_enough(trimmed: &str) -> (b: bool)
    ensures
        b == (trimmed@.len() >= 3),
{
    trimmed.unicode_len() >= 3
}

/// A name is accepted for the board once it holds at least three
/// characters after trimming.
pub open spec fn name_accepted(name: Seq<char>) -> bool {
    trim_spec(name).len() >= 3
}

proof fn lemma_trim_end_shorter(x: Seq<char>)
    ensures
        trim_end_spec(x).len() <= x.len(),
    decreases x.len(),
{
    if x.len() > 0 && is_white_space(x.last()) {
        lemma_trim_end_shorter(x.drop_last());
    }
}

proof fn lemma_trim_start_push(s: Seq<char>, c: char)
    requires
        !is_white_space(c),
    ensures
        trim_start_spec(s.push(c)) == trim_start_spec(s).push(c),
    decreases s.len(),
{
    if s.len() == 0 {
        assert(s.push(c).drop_first() =~= Seq::<char>::empty());
        assert(s.push(c)[0] == c);
    } else {
        assert(s.push(c)[0] == s[0]);
        if is_white_space(s[0]) {
            assert(s.push(c).drop_first() =~= s.drop_first().push(c));
            lemma_trim_start_push(s.drop_first(), c);
        }
    }
}

/// The player's name is judged by its length alone: a name is accepted
/// exactly when it has at least three characters once trimmed, with no
/// upper bound; a name with no whitespace at either end is accepted exactly
/// when it has at least three characters; and typing one more character
/// that is not whitespace never turns an accepted name down.
pub proof fn law_names_judged_by_length(name: Seq<char>, c: char)
    ensures
        name_accepted(name) <==> trim_spec(name).len() >= 3,
        name.len() > 0 && !is_white_space(name[0]) && !is_white_space(name.last()) ==> (name_accepted(name)
            <==> name.len() >= 3),
        !is_white_space(c) && name_accepted(name) ==> name_accepted(name.push(c)),
{
    if name.len() > 0 && !is_white_space(name[0]) && !is_white_space(name.last()) {
        assert(trim_start_spec(name) == name);
        assert(trim_end_spec(name) == name);
    }
    if !is_white_space(c) {
        lemma_trim_start_push(name, c);
        let t = trim_start_spec(name);
        assert(t.push(c).last() == c);
        assert(trim_end_spec(t.push(c)) == t.push(c));
        lemma_trim_end_shorter(t);
    }
}

/// The name to enter on the board, once it is long enough.
pub fn accepted_name(name: &str) -> (r: Option<String>)
    ensures
        r is Some <==> name_accepted(name@),
        r matches Some(s) ==> s@ == trim_spec(name@),
{
    let t = trim(name);
    if name_long_enough(t) {
        Some(t.to_owned())
    } else {
        None
    }
}

pub open spec fn new_highscore_hint_spec(name: Seq<char>) -> Seq<char> {
    if name_accepted(name) {
        "Hit Enter accept"@
    } else {
        "At least 3 charaters required"@
    }
}

/// The hint shown while the player types a name for the board.
pub fn new_highscore_hint(name: &str) -> (s: &'static str)
    ensures
        s@ == new_highscore_hint_spec(name@),
{
    let t = trim(name);
    if name_long_enough(t) {
        "Hit Enter accept"
    } else {
        "At least 3 charaters required"
    }
}

/// Enters the finished game's score on the board under the accepted name;
/// the board is then saved and the highscore menu shown. The score must be
/// one the board takes (the new-highscore screen is only reached then).
pub fn enter_hall_of_fame(board: &mut HighScoreRepository, score: Score, name: &str) -> (r: (usize, StateCommand))
    requires
        name_accepted(name@),
        push_result(old(board).records(), old(board).capacity(), score.0) is Ok,
    ensures
        Ok::<usize, ()>(r.0) == push_result(old(board).records(), old(board).capacity(), score.0),
        final(board).capacity() == old(board).capacity(),
        exists|h: HighScore| {
            &&& h.points() == score.0
            &&& h.name_view() == trim_spec(name@)
            &&& #[trigger] pushed_records(old(board).records(), old(board).capacity(), h) == final(board).records()
        },
        r.1 == StateCommand::Replace(GameState::HighScoreMenu),
        old(board).wf() ==> final(board).wf(),
{
    let t = trim(name);
    let entry = HighScore::new(score, t);
    let ghost e = entry;
    let index = match board.push(entry) {
        Ok(i) => i,
        Err(_) => {
            proof {
                assert(false);
            }
            0
        },
    };
    proof {
        assert(pushed_records(old(board).records(), old(board).capacity(), e) == board.records());
    }
    (index, StateCommand::Replace(GameState::HighScoreMenu))
}

/// The "Enter hall of fame" action of the new-highscore screen: when the
/// typed name is accepted and the board takes the score, the score is
/// entered under the trimmed name, the name box is emptied, the screen's
/// started flag is cleared and the highscore menu is asked for; otherwise
/// nothing changes.
pub fn try_enter_hall_of_fame(
    board: &mut HighScoreRepository,
    score: Score,
    name: &mut String,
    started: &mut bool,
) -> (r: Option<(usize, StateCommand)>)
    ensures
        r is Some <==> (name_accepted(old(name)@) && push_result(old(board).records(), old(board).capacity(), score.0) is Ok),
        r is None ==> {
            &&& final(board).records() == old(board).records()
            &&& final(name)@ == old(name)@
            &&& *final(started) == *old(started)
        },
        final(board).capacity() == old(board).capacity(),
        r matches Some(x) ==> {
            &&& Ok::<usize, ()>(x.0) == push_result(old(board).records(), old(board).capacity(), score.0)
            &&& x.1 == StateCommand::Replace(GameState::HighScoreMenu)
            &&& exists|h: HighScore| {
                &&& h.points() == score.0
                &&& h.name_view() == trim_spec(old(name)@)
                &&& #[trigger] pushed_records(old(board).records(), old(board).capacity(), h) == final(board).records()
            }
            &&& final(name)@ == Seq::<char>::empty()
            &&& *final(started) == false
        },
        old(board).wf() ==> final(board).wf(),
{
    let t = trim(name.as_str());
    if !name_long_enough(t) {
        return None;
    }
    if !board.accepts(score) {
        return None;
    }
    let entered = enter_hall_of_fame(board, score, name.as_str());
    *name = String::new();
    *started = false;
    Some(entered)
}

/// One line of the highscore table: rank, score and name.
pub struct HighScoreRow {
    pub rank: String,
    pub score: String,
    pub name: String,
}

/// The line for the record at index `i` of the board: its rank (from one)
/// right-aligned in three characters, its score right-aligned in nine, and
/// the player's name.
pub open spec fn row_spec(records: Seq<HighScore>, i: int, row: HighScoreRow) -> bool {
    &&& row.rank@ == pad_left(decimal((i + 1) as nat), 3)
    &&& row.score@ == pad_left(decimal(records[i].points() as nat), 9)
    &&& row.name@ == records[i].name_view()
}

/// How many records fall in the row range `start..end` of a table of `len`.
pub open spec fn visible_count(len: nat, start: nat, end: nat) -> nat {
    let stop = if end <= len { end } else { len };
    if start < stop { (stop - start) as nat } else { 0 }
}

/// The lines of the table visible in the scrolled row range `start..end`.
pub fn highscore_rows(board: &HighScoreRepository, start: usize, end: usize) -> (rows: Vec<HighScoreRow>)
    requires
        start <= end,
    ensures
        rows.len() == visible_count(board.records().len(), start as nat, end as nat),
        forall|k: int| 0 <= k < rows.len() ==> row_spec(board.records(), start + k, #[trigger] rows@[k]),
{
    let records = board.records_slice();
    let stop = if end <= records.len() { end } else { records.len() };
    let mut rows: Vec<HighScoreRow> = Vec::new();
    let mut i: usize = start;
    while i < stop
        invariant
            start <= i,
            i <= stop || i == start,
            stop <= records.len(),
            records@ == board.records(),
            stop == (if end <= board.records().len() { end } else { board.records().len() as usize }),
            rows.len() == i - start,
            forall|k: int| 0 <= k < rows.len() ==> row_spec(board.records(), start + k, #[trigger] rows@[k]),
        decreases stop - i,
    {
        let h = &records[i];
        let row = HighScoreRow {
            rank: padded_decimal(i as u64 + 1, 3),
            score: padded_decimal(h.score().value() as u64, 9),
            name: h.name().clone(),
        };
        rows.push(row);
        i = i + 1;
    }
    rows
}

} // verus!
