use vstd::prelude::*;

verus! {

/// Largest coordinate on either axis of the board.
pub const BOARD_MAX: u8 = 9;

/// A cell of the board.
#[derive(Clone, Copy, Debug, PartialEq, Eq, Structural)]
pub struct QuestPosition {
    pub x: u8,
    pub y: u8,
}

impl QuestPosition {
    pub open spec fn on_board(self) -> bool {
        self.x <= BOARD_MAX && self.y <= BOARD_MAX
    }
}

/// Errors that abort an operation; none of them leaves a change behind.
#[derive(Clone, Copy, Debug, PartialEq, Eq, Structural)]
pub enum MyError {
    /// The direction code is not 0..=3, or the move would leave the board.
    InvalidMove,
    /// A deposit was attempted by someone other than the pool's owner.
    Unauthorized,
    /// The pool cannot cover the reward owed on reaching the goal.
    InsufficientBalance,
}

/// A player's position and counters.
#[derive(Clone, Copy, Debug, PartialEq, Eq, Structural)]
pub struct Game {
    pub x: u8,
    pub y: u8,
    pub quests_reached: u8,
    pub moves_taken: u16,
}

impl Game {
    pub open spec fn on_board(self) -> bool {
        self.x <= BOARD_MAX && self.y <= BOARD_MAX
    }

    /// The state every game starts from.
    pub open spec fn start_spec() -> Game {
        Game { x: 0, y: 0, quests_reached: 0, moves_taken: 0 }
    }

    pub fn start() -> (r: Game)
        ensures
            r == Game::start_spec(),
    {
        Game { x: 0, y: 0, quests_reached: 0, moves_taken: 0 }
    }
}

/// Where a move in `direction` (0 up, 1 down, 2 left, 3 right) from `(x, y)`
/// lands, or `None` when the code is unknown or the move would leave the board.
pub open spec fn step_spec(x: u8, y: u8, direction: u8) -> Option<(u8, u8)> {
    if direction == 0 && y > 0 {
        Some((x, (y - 1) as u8))
    } else if direction == 1 && y < BOARD_MAX {
        Some((x, (y + 1) as u8))
    } else if direction == 2 && x > 0 {
        Some(((x - 1) as u8, y))
    } else if direction == 3 && x < BOARD_MAX {
        Some(((x + 1) as u8, y))
    } else {
        None
    }
}

/// The cell one move away, as `step_spec` describes.
pub fn step(x: u8, y: u8, direction: u8) -> (r: Option<(u8, u8)>)
    ensures
        r == step_spec(x, y, direction),
{
    if direction == 0 && y > 0 {
        Some((x, y - 1))
    } else if direction == 1 && y < BOARD_MAX {
        Some((x, y + 1))
    } else if direction == 2 && x > 0 {
        Some((x - 1, y))
    } else if direction == 3 && x < BOARD_MAX {
        Some((x + 1, y))
    } else {
        None
    }
}

/// A move never takes a token that is on the board off it.
pub proof fn lemma_step_stays_on_board(x: u8, y: u8, direction: u8)
    requires
        x <= BOARD_MAX,
        y <= BOARD_MAX,
    ensures
        step_spec(x, y, direction) matches Some((nx, ny)) ==> nx <= BOARD_MAX && ny <= BOARD_MAX,
{
}

} // verus!
