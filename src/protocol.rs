//! The host imports through which a bot's script chooses its action.
//!
//! During its tick a script may call the action imports any number of times.
//! The first call whose action is allowed fills the tick's action slot and
//! returns 0; later calls return `AlreadyActed`. Checking never changes the
//! bay: the chosen action is committed after the script returns.
use crate::bay::{Bay, BayView};
use crate::bot_actions::build_entity::bot_can_build_entity;
use crate::bot_actions::deposit_resource::bot_can_deposit_resource;
use crate::bot_actions::harvest_resource::bot_can_harvest_resource;
use crate::bot_actions::move_towards::bot_can_move_towards;
use crate::bot_actions::withdraw_resource::bot_can_withdraw_resource;
use crate::codes::{direction_of_code, partial_entity_type_of_code, resource_of_code, result_code};
use crate::rules::check_action;
use crate::types::{ActionError, BotAction, Direction, EntityID, PartialEntityType, Resource};
use vstd::prelude::*;

verus! {

/// A call of an action import, with its arguments as the script passed them.
#[derive(Clone, Copy, PartialEq, Eq, Structural, Debug)]
pub enum HostCall {
    MoveTowards { direction: u32 },
    HarvestResource { x: u32, y: u32 },
    DepositResource { x: u32, y: u32 },
    WithdrawResource { resource: u32, x: u32, y: u32 },
    BuildEntity { entity_type: u32, x: u32, y: u32 },
}

/// The action a call asks for; `None` where an enum argument is out of range.
pub open spec fn requested_action(call: HostCall) -> Option<BotAction> {
    match call {
        HostCall::MoveTowards { direction } => match direction_of_code(direction) {
            Ok(d) => Some(BotAction::MoveTowards(d)),
            Err(_) => None,
        },
        HostCall::HarvestResource { x, y } => Some(BotAction::HarvestResource { x, y }),
        HostCall::DepositResource { x, y } => Some(BotAction::DepositResource { x, y }),
        HostCall::WithdrawResource { resource, x, y } => match resource_of_code(resource) {
            Ok(r) => Some(BotAction::WithdrawResource { resource: r, x, y }),
            Err(_) => None,
        },
        HostCall::BuildEntity { entity_type, x, y } => match partial_entity_type_of_code(entity_type) {
            Ok(t) => Some(BotAction::BuildEntity { entity_type: t, x, y }),
            Err(_) => None,
        },
    }
}

/// Whether the call's action is allowed for the bot `bot_id` of the bay.
pub open spec fn call_check(v: BayView, bot_id: EntityID, call: HostCall) -> Result<(), ActionError> {
    match requested_action(call) {
        Some(action) => check_action(v, bot_id, action),
        None => Err(ActionError::ActionNotPossible),
    }
}

/// The action slot after the call, given the slot before.
pub open spec fn slot_after(slot: Option<BotAction>, v: BayView, bot_id: EntityID, call: HostCall) -> Option<BotAction> {
    if slot is Some {
        slot
    } else if call_check(v, bot_id, call) is Ok {
        requested_action(call)
    } else {
        None
    }
}

/// The code the call returns to the script, given the slot before.
pub open spec fn call_code(slot: Option<BotAction>, v: BayView, bot_id: EntityID, call: HostCall) -> u32 {
    if slot is Some {
        result_code(Err(ActionError::AlreadyActed))
    } else {
        result_code(call_check(v, bot_id, call))
    }
}

/// Handles a script's call of an action import for the bot `bot_id`, with
/// `bot_action` the tick's action slot. The bay is only read.
pub fn host_call(bot_action: &mut Option<BotAction>, bot_id: EntityID, bay: &Bay, call: HostCall) -> (code: u32)
    requires
        bay.wf(),
    ensures
        code == call_code(*old(bot_action), bay@, bot_id, call),
        *final(bot_action) == slot_after(*old(bot_action), bay@, bot_id, call),
{
    if bot_action.is_some() {
        return ActionError::rust_to_wasm(Err(ActionError::AlreadyActed));
    }
    let bot = match bay.get_bot(bot_id) {
        Some(bot) => bot,
        None => return ActionError::rust_to_wasm(Err(ActionError::ActionNotPossible)),
    };
    let (action, result) = match call {
        HostCall::MoveTowards { direction } => match Direction::wasm_to_rust(direction) {
            Ok(d) => (BotAction::MoveTowards(d), bot_can_move_towards(bot, d, bay)),
            Err(()) => return ActionError::rust_to_wasm(Err(ActionError::ActionNotPossible)),
        },
        HostCall::HarvestResource { x, y } => (
            BotAction::HarvestResource { x, y },
            bot_can_harvest_resource(bot, x, y, bay),
        ),
        HostCall::DepositResource { x, y } => (
            BotAction::DepositResource { x, y },
            bot_can_deposit_resource(bot, x, y, bay),
        ),
        HostCall::WithdrawResource { resource, x, y } => match Resource::wasm_to_rust(resource) {
            Ok(r) => (
                BotAction::WithdrawResource { resource: r, x, y },
                bot_can_withdraw_resource(bot, r, x, y, bay),
            ),
            Err(()) => return ActionError::rust_to_wasm(Err(ActionError::ActionNotPossible)),
        },
        HostCall::BuildEntity { entity_type, x, y } => match PartialEntityType::wasm_to_rust(entity_type) {
            Ok(t) => (
                BotAction::BuildEntity { entity_type: t, x, y },
                bot_can_build_entity(bot, t, x, y, bay),
            ),
            Err(()) => return ActionError::rust_to_wasm(Err(ActionError::ActionNotPossible)),
        },
    };
    if result.is_ok() {
        *bot_action = Some(action);
    }
    ActionError::rust_to_wasm(result)
}

/// The action slot after a script's calls, in order.
pub open spec fn slot_after_calls(slot: Option<BotAction>, v: BayView, bot_id: EntityID, calls: Seq<HostCall>) -> Option<BotAction>
    decreases calls.len(),
{
    if calls.len() == 0 {
        slot
    } else {
        slot_after(slot_after_calls(slot, v, bot_id, calls.drop_last()), v, bot_id, calls.last())
    }
}

/// The code returned by the `i`-th of a script's calls.
pub open spec fn code_of_call(slot: Option<BotAction>, v: BayView, bot_id: EntityID, calls: Seq<HostCall>, i: int) -> u32 {
    call_code(slot_after_calls(slot, v, bot_id, calls.take(i)), v, bot_id, calls[i])
}

proof fn lemma_slot_after_prefix(slot: Option<BotAction>, v: BayView, bot_id: EntityID, calls: Seq<HostCall>, i: int, j: int)
    requires
        0 <= i < j <= calls.len(),
        slot_after_calls(slot, v, bot_id, calls.take(i + 1)) is Some,
    ensures
        slot_after_calls(slot, v, bot_id, calls.take(j)) == slot_after_calls(slot, v, bot_id, calls.take(i + 1)),
    decreases j - i,
{
    if j > i + 1 {
        lemma_slot_after_prefix(slot, v, bot_id, calls, i, j - 1);
        assert(calls.take(j).drop_last() == calls.take(j - 1));
    }
}

/// At most one action per tick: once one of a script's calls returns 0, every
/// later call returns `AlreadyActed` and the slot keeps the first action,
/// which was allowed on the bay the script saw.
pub proof fn lemma_at_most_one_action(v: BayView, bot_id: EntityID, calls: Seq<HostCall>, i: int, j: int)
    requires
        0 <= i < j < calls.len(),
        code_of_call(None, v, bot_id, calls, i) == 0,
    ensures
        code_of_call(None, v, bot_id, calls, j) == result_code(Err(ActionError::AlreadyActed)),
        slot_after_calls(None, v, bot_id, calls) == requested_action(calls[i]),
        check_action(v, bot_id, requested_action(calls[i])->0) == Ok::<(), ActionError>(()),
{
    let before = slot_after_calls(None, v, bot_id, calls.take(i));
    assert(calls.take(i + 1).drop_last() == calls.take(i));
    assert(calls.take(i + 1).last() == calls[i]);
    assert(before is None);
    assert(call_check(v, bot_id, calls[i]) is Ok);
    lemma_slot_after_prefix(None, v, bot_id, calls, i, j);
    lemma_slot_after_prefix(None, v, bot_id, calls, i, calls.len() as int);
    assert(calls.take(calls.len() as int) == calls);
}

/// A slot filled by a call holds an action that is allowed on the bay the
/// call saw, so committing it right after the script returns is sound.
pub proof fn lemma_slot_holds_allowed_action(v: BayView, bot_id: EntityID, call: HostCall)
    requires
        slot_after(None, v, bot_id, call) is Some,
    ensures
        check_action(v, bot_id, slot_after(None, v, bot_id, call)->0) == Ok::<(), ActionError>(()),
{
}

} // verus!
