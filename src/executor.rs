//! The decisions of a bot's tick in the sandbox: which allocations it accepts
//! and what it returns. The sandbox calls themselves lie outside.
use crate::config::{BOT_SETUP_TIME_LIMIT, BOT_TIME_LIMIT};
use crate::types::BotAction;
use vstd::prelude::*;

verus! {

/// A buffer the host copies into the script's memory before its tick.
#[derive(Clone, Copy, PartialEq, Eq, Structural, Debug)]
pub enum SandboxBuffer {
    Bay,
    NetworkMemory,
}

/// Why a bot did not act this tick.
#[derive(Clone, Copy, PartialEq, Eq, Structural, Debug)]
pub enum BotTickError {
    /// The script's allocator returned a null pointer for the buffer.
    NullPointer(SandboxBuffer),
    /// The player's network memory lock was poisoned.
    NetworkMemoryPoisoned,
    /// The script trapped, ran out of time or memory, or lacks an export.
    Sandbox,
    /// The script returned without choosing an action.
    NoActionSet,
}

/// The phases of a bot's tick, each with its own time budget.
#[derive(Clone, Copy, PartialEq, Eq, Structural, Debug)]
pub enum TickPhase {
    /// Copying the bay and the network memory into the sandbox.
    Setup,
    /// Running the script's tick.
    Run,
}

/// The epoch deadline of a phase.
pub fn epoch_deadline(phase: TickPhase) -> (epochs: u64)
    ensures
        phase == TickPhase::Setup ==> epochs == BOT_SETUP_TIME_LIMIT,
        phase == TickPhase::Run ==> epochs == BOT_TIME_LIMIT,
{
    match phase {
        TickPhase::Setup => BOT_SETUP_TIME_LIMIT,
        TickPhase::Run => BOT_TIME_LIMIT,
    }
}

/// Accepts a pointer returned by the script's allocator for `buffer`; a null
/// pointer means the allocation failed.
pub fn checked_pointer(pointer: u32, buffer: SandboxBuffer) -> (r: Result<u32, BotTickError>)
    ensures
        pointer == 0 ==> r == Err::<u32, BotTickError>(BotTickError::NullPointer(buffer)),
        pointer != 0 ==> r == Ok::<u32, BotTickError>(pointer),
{
    if pointer == 0 {
        Err(BotTickError::NullPointer(buffer))
    } else {
        Ok(pointer)
    }
}

/// What the tick returns once the script is done: the action it chose, or
/// `NoActionSet` when it chose none.
pub fn chosen_action(bot_action: Option<BotAction>) -> (r: Result<BotAction, BotTickError>)
    ensures
        bot_action matches Some(a) ==> r == Ok::<BotAction, BotTickError>(a),
        bot_action is None ==> r == Err::<BotAction, BotTickError>(BotTickError::NoActionSet),
{
    match bot_action {
        Some(a) => Ok(a),
        None => Err(BotTickError::NoActionSet),
    }
}

} // verus!
