use vstd::prelude::*;

verus! {

/// The skill category that a piece of experience belongs to.
///
/// A closed set today; new categories are meant to be added as variants, so
/// that the storage key stays a fixed-shape value.
#[derive(Debug, Clone, Copy, PartialEq, Eq, Structural)]
pub enum ExperienceType {
    Frontend,
    Backend,
    Marketing,
    GraphicDesign,
}

/// Every way an operation of the ledger or of the registry can fail.
#[derive(Debug, Clone, Copy, PartialEq, Eq, Structural)]
pub enum Error {
    /// No experience record exists for the (account, category) pair.
    UserExperienceDoesNotExist,
    /// An experience record already exists for the (account, category) pair.
    UserAlreadyHasExperience,
    /// The interaction has already been recorded.
    InteractionAlreadyExisting,
    /// A level number or an experience threshold does not fit its integer type.
    ArithmeticOverflow,
    /// The experience still needed for the next level would be negative.
    ArithmeticUnderflow,
    /// A single update would have to advance more levels than allowed.
    LevelAdvanceBudgetExceeded,
}

/// Constants that the ledger is built with.
#[derive(Debug, Clone, Copy, PartialEq, Eq, Structural)]
pub struct Config {
    /// Experience needed to reach level 1; scales every other threshold.
    pub base_experience: u128,
    /// Exponent applied to the level number in the threshold formula.
    pub difficulty_exponent: u32,
    /// How many levels one update may advance past before it gives up.
    pub max_level_advances_per_update: u32,
}

impl Config {
    pub fn new(
        base_experience: u128,
        difficulty_exponent: u32,
        max_level_advances_per_update: u32,
    ) -> (r: Config)
        ensures
            r.base_experience == base_experience,
            r.difficulty_exponent == difficulty_exponent,
            r.max_level_advances_per_update == max_level_advances_per_update,
    {
        Config { base_experience, difficulty_exponent, max_level_advances_per_update }
    }
}

/// One account's progression within one category.
#[derive(Debug, Clone, Copy, PartialEq, Eq, Structural)]
pub struct UserExperience {
    /// The account the record belongs to.
    pub account_id: u64,
    /// Experience accumulated so far, as set by the caller.
    pub experience: u128,
    /// Level derived from `experience`.
    pub level: u32,
    /// Experience still missing to reach `level + 1`.
    pub experience_to_next_level: u128,
}

/// Names one interaction: an approver attesting a worker's transition of a
/// task on a board from one state to another.
#[derive(Debug, Clone, Copy, PartialEq, Eq, Structural)]
pub struct InteractionIdentifier {
    /// The account that validates the work.
    pub approver: u64,
    /// The account that did the work.
    pub worker: u64,
    /// The board or project the task belongs to.
    pub board_id: u32,
    /// The task within that board.
    pub task_id: u32,
    /// The organisation owning the board.
    pub org_id: u32,
    /// The state the task left.
    pub initial_state_id: u8,
    /// The state the task reached.
    pub final_state_id: u8,
}

} // verus!
