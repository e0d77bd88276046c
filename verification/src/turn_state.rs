use vstd::prelude::*;

verus! {

/// Whose turn it is, or how the game has ended.
#[derive(Clone, Copy, Debug, PartialEq, Eq, Structural)]
pub enum TurnState {
    AwaitingInput,
    PlayerTurn,
    MonsterTurn,
    GameOver,
    Victory,
    NextLevel,
}

/// What a frame does in each turn state.
#[derive(Clone, Copy, Debug, PartialEq, Eq, Structural)]
pub enum FrameAction {
    /// Run the systems that read the player's input.
    RunInputSystems,
    /// Run the systems of the player's turn.
    RunPlayerSystems,
    /// Run the systems of the monsters' turn.
    RunMonsterSystems,
    /// Build the next level.
    AdvanceLevel,
    /// Show that the game is lost.
    ShowGameOver,
    /// Show that the game is won.
    ShowVictory,
}

impl TurnState {
    pub open spec fn frame_action_spec(self) -> FrameAction {
        match self {
            TurnState::AwaitingInput => FrameAction::RunInputSystems,
            TurnState::PlayerTurn => FrameAction::RunPlayerSystems,
            TurnState::MonsterTurn => FrameAction::RunMonsterSystems,
            TurnState::NextLevel => FrameAction::AdvanceLevel,
            TurnState::GameOver => FrameAction::ShowGameOver,
            TurnState::Victory => FrameAction::ShowVictory,
        }
    }

    /// What a frame does in this turn state.
    pub fn frame_action(&self) -> (a: FrameAction)
        ensures
            a == self.frame_action_spec(),
    {
        match self {
            TurnState::AwaitingInput => FrameAction::RunInputSystems,
            TurnState::PlayerTurn => FrameAction::RunPlayerSystems,
            TurnState::MonsterTurn => FrameAction::RunMonsterSystems,
            TurnState::NextLevel => FrameAction::AdvanceLevel,
            TurnState::GameOver => FrameAction::ShowGameOver,
            TurnState::Victory => FrameAction::ShowVictory,
        }
    }
}

} // verus!
