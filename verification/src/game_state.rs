use vstd::prelude::*;

verus! {

/// The screens and phases of the game.
#[derive(Debug, Clone, Copy, PartialEq, Eq, Hash, Structural)]
pub enum GameState {
    MainMenu,
    HighScoreMenu,
    Playing,
    Paused,
    GameOver,
    NewHighScore,
}

impl GameState {
    /// The name of the state, as displayed.
    pub fn name(&self) -> (s: &'static str)
        ensures
            s@ == state_name(*self),
    {
        proof {
            reveal_strlit("MainMenu");
            reveal_strlit("HighScoreMenu");
            reveal_strlit("Playing");
            reveal_strlit("Paused");
            reveal_strlit("GameOver");
            reveal_strlit("NewHighScore");
        }
        match self {
            GameState::MainMenu => "MainMenu",
            GameState::HighScoreMenu => "HighScoreMenu",
            GameState::Playing => "Playing",
            GameState::Paused => "Paused",
            GameState::GameOver => "GameOver",
            GameState::NewHighScore => "NewHighScore",
        }
    }
}

pub open spec fn state_name(s: GameState) -> Seq<char> {
    match s {
        GameState::MainMenu => "MainMenu"@,
        GameState::HighScoreMenu => "HighScoreMenu"@,
        GameState::Playing => "Playing"@,
        GameState::Paused => "Paused"@,
        GameState::GameOver => "GameOver"@,
        GameState::NewHighScore => "NewHighScore"@,
    }
}

/// An operation on the stack of game states.
#[derive(Debug, Clone, Copy, PartialEq, Eq, Structural)]
pub enum StateCommand {
    /// Replace the current state.
    Replace(GameState),
    /// Enter a state on top of the current one.
    Push(GameState),
    /// Leave the current state and return to the one beneath.
    Pop,
}

/// Why a state operation was refused.
#[derive(Debug, Clone, Copy, PartialEq, Eq, Structural)]
pub enum StateError {
    AlreadyInState,
    StackEmpty,
}

/// The stack after `cmd`, or the error refusing it.
pub open spec fn apply_command(stack: Seq<GameState>, cmd: StateCommand) -> Result<Seq<GameState>, StateError>
    recommends
        stack.len() > 0,
{
    match cmd {
        StateCommand::Replace(s) => if stack.last() == s {
            Err(StateError::AlreadyInState)
        } else {
            Ok(stack.drop_last().push(s))
        },
        StateCommand::Push(s) => if stack.last() == s {
            Err(StateError::AlreadyInState)
        } else {
            Ok(stack.push(s))
        },
        StateCommand::Pop => if stack.len() == 1 {
            Err(StateError::StackEmpty)
        } else {
            Ok(stack.drop_last())
        },
    }
}

/// The game's state stack: the current state on top.
#[derive(Debug)]
pub struct GameStateStack {
    stack: Vec<GameState>,
}

impl GameStateStack {
    pub closed spec fn states(&self) -> Seq<GameState> {
        self.stack@
    }

    pub open spec fn wf(&self) -> bool {
        self.states().len() > 0
    }

    /// A stack holding only `initial`.
    pub fn new(initial: GameState) -> (s: GameStateStack)
        ensures
            s.states() == seq![initial],
            s.wf(),
    {
        let mut stack = Vec::new();
        stack.push(initial);
        GameStateStack { stack }
    }

    pub fn current(&self) -> (s: GameState)
        requires
            self.wf(),
        ensures
            s == self.states().last(),
    {
        self.stack[self.stack.len() - 1]
    }

    /// Carries out `cmd`; on refusal the stack stays as it was.
    pub fn apply(&mut self, cmd: StateCommand) -> (r: Result<(), StateError>)
        requires
            old(self).wf(),
        ensures
            final(self).wf(),
            match apply_command(old(self).states(), cmd) {
                Ok(next) => r is Ok && final(self).states() == next,
                Err(e) => r == Err::<(), StateError>(e) && final(self).states() == old(self).states(),
            },
    {
        let top = self.stack[self.stack.len() - 1];
        match cmd {
            StateCommand::Replace(s) => {
                if top == s {
                    Err(StateError::AlreadyInState)
                } else {
                    self.stack.pop();
                    self.stack.push(s);
                    Ok(())
                }
            },
            StateCommand::Push(s) => {
                if top == s {
                    Err(StateError::AlreadyInState)
                } else {
                    self.stack.push(s);
                    Ok(())
                }
            },
            StateCommand::Pop => {
                if self.stack.len() == 1 {
                    Err(StateError::StackEmpty)
                } else {
                    self.stack.pop();
                    Ok(())
                }
            },
        }
    }
}

/// What the Escape key does in `current`: pause a running game, resume a
/// paused one, nothing elsewhere.
pub open spec fn esc_command_spec(current: GameState) -> Option<StateCommand> {
    match current {
        GameState::Playing => Some(StateCommand::Push(GameState::Paused)),
        GameState::Paused => Some(StateCommand::Pop),
        _ => None,
    }
}

/// The state operation that a press of Escape asks for; when there is one
/// the key press is consumed.
pub fn esc_to_pause_unpause(current: GameState) -> (c: Option<StateCommand>)
    ensures
        c == esc_command_spec(current),
{
    match current {
        GameState::Playing => Some(StateCommand::Push(GameState::Paused)),
        GameState::Paused => Some(StateCommand::Pop),
        _ => None,
    }
}

/// Systems gated by this criterion run in every state but `Paused`.
pub fn run_criteria_if_not_paused(current: GameState) -> (run: bool)
    ensures
        run == (current != GameState::Paused),
{
    match current {
        GameState::Paused => false,
        _ => true,
    }
}

/// The cursor is captured (locked and hidden) only while playing.
pub fn capture_cursor_when_playing(current: GameState) -> (capture: bool)
    ensures
        capture == (current == GameState::Playing),
{
    match current {
        GameState::Paused => false,
        GameState::Playing => true,
        _ => false,
    }
}

/// A paused game always sits directly on top of the running game, and only
/// there.
pub open spec fn pause_well_placed(stack: Seq<GameState>) -> bool {
    &&& stack.len() > 0
    &&& forall|i: int| 0 <= i < stack.len() && #[trigger] stack[i] == GameState::Paused ==> {
        &&& i == stack.len() - 1
        &&& i > 0
        &&& stack[i - 1] == GameState::Playing
    }
}

/// What each command does to a stack: replacing swaps the top state and
/// keeps everything beneath (refused only when that state is already on
/// top); pushing adds a state on top (refused likewise); popping removes the
/// top state (refused only on the last one). The states beneath the top are
/// never changed.
pub proof fn law_command_shapes(stack: Seq<GameState>, cmd: StateCommand)
    requires
        stack.len() > 0,
    ensures
        cmd matches StateCommand::Replace(s) ==> {
            &&& (apply_command(stack, cmd) is Err <==> stack.last() == s)
            &&& apply_command(stack, cmd) matches Ok(n) ==> {
                &&& n.len() == stack.len()
                &&& n.last() == s
                &&& forall|i: int| 0 <= i < stack.len() - 1 ==> n[i] == stack[i]
            }
        },
        cmd matches StateCommand::Push(s) ==> {
            &&& (apply_command(stack, cmd) is Err <==> stack.last() == s)
            &&& apply_command(stack, cmd) matches Ok(n) ==> {
                &&& n.len() == stack.len() + 1
                &&& n.last() == s
                &&& forall|i: int| 0 <= i < stack.len() ==> n[i] == stack[i]
            }
        },
        cmd matches StateCommand::Pop ==> {
            &&& (apply_command(stack, cmd) is Err <==> stack.len() == 1)
            &&& apply_command(stack, cmd) matches Ok(n) ==> {
                &&& n.len() == stack.len() - 1
                &&& forall|i: int| 0 <= i < stack.len() - 1 ==> n[i] == stack[i]
            }
        },
{
}

/// Pressing Escape twice while playing pauses and then resumes the very same
/// game: the state stack comes back to what it was.
pub proof fn law_pause_then_resume(stack: Seq<GameState>)
    requires
        stack.len() > 0,
        stack.last() == GameState::Playing,
    ensures
        ({
            let paused = apply_command(stack, esc_command_spec(stack.last()).unwrap());
            &&& paused matches Ok(p)
            &&& p.last() == GameState::Paused
            &&& apply_command(p, esc_command_spec(p.last()).unwrap()) == Ok::<Seq<GameState>, StateError>(stack)
        }),
{
    let p = stack.push(GameState::Paused);
    assert(p.drop_last() =~= stack);
}

/// On a stack where pausing is well placed, whatever Escape asks for is
/// accepted, and pausing stays well placed.
pub proof fn law_esc_never_refused(stack: Seq<GameState>)
    requires
        pause_well_placed(stack),
    ensures
        esc_command_spec(stack.last()) matches Some(cmd) ==> {
            &&& apply_command(stack, cmd) matches Ok(next)
            &&& pause_well_placed(next)
        },
{
    let top = stack.last();
    if top == GameState::Playing {
        let next = stack.push(GameState::Paused);
        assert forall|i: int| 0 <= i < next.len() && #[trigger] next[i] == GameState::Paused implies {
            &&& i == next.len() - 1
            &&& i > 0
            &&& next[i - 1] == GameState::Playing
        } by {
            if i < stack.len() {
                assert(next[i] == stack[i]);
            }
        }
    } else if top == GameState::Paused {
        assert(stack[stack.len() - 1] == GameState::Paused);
        let next = stack.drop_last();
        assert forall|i: int| 0 <= i < next.len() && #[trigger] next[i] == GameState::Paused implies false by {
            assert(next[i] == stack[i]);
        }
    }
}

} // verus!
