//! The replay log: the records a game emits, and how a bay is rebuilt from
//! them.
use crate::bay::{Bay, BayView};
use crate::config::BOT_ENERGY_PER_RECHARGE;
use crate::rules::{applied, check_action, recharged};
use crate::types::{BotAction, EntityID};
use std::sync::atomic::AtomicU64;
use vstd::prelude::*;

verus! {

/// One entry of a replay log.
pub enum ReplayRecord {
    /// The version of the game that wrote the log.
    GameVersion(String),
    /// The id allocator's value when the log started.
    InitialNextEntityID(u64),
    /// A bay as it was when the log started.
    InitialBayState { bay_id: EntityID, bay: Box<Bay> },
    /// A new tick begins.
    TickStart,
    /// A bot's action was committed.
    BotAction { bay_id: EntityID, bot_id: EntityID, bot_action: BotAction },
    /// The listed bots of a bay were recharged, in order.
    RechargeBots { bay_id: EntityID, bot_ids: Vec<EntityID> },
}

} // verus!

verus! {

/// Why a record could not be applied to a bay.
#[derive(Clone, Copy, PartialEq, Eq, Structural, Debug)]
pub enum ReplayError {
    /// The record belongs to the log's header, not to its ticks.
    UnexpectedRecord,
    /// The logged action is not allowed on the bay as it stands.
    ActionNotAllowed,
}

/// The bay after a tick record, where `n` is what the id allocator hands out
/// should the record create an entity; `None` where the record cannot apply.
pub open spec fn replay_step(v: BayView, record: ReplayRecord, n: EntityID) -> Option<BayView> {
    match record {
        ReplayRecord::TickStart => Some(v),
        ReplayRecord::BotAction { bot_id, bot_action, .. } => if check_action(v, bot_id, bot_action) is Ok {
            Some(applied(v, bot_id, bot_action, n))
        } else {
            None
        },
        ReplayRecord::RechargeBots { bot_ids, .. } => Some(recharged(v, bot_ids@, BOT_ENERGY_PER_RECHARGE)),
        _ => None,
    }
}

/// Applies a tick record to `bay`, as the live game did: a logged action is
/// checked and committed, a recharge recharges. Header records are refused,
/// as are actions the bay does not allow; both leave the bay as it is.
pub fn apply_record(record: ReplayRecord, bay: &mut Bay, next_entity_id: &AtomicU64) -> (r: Result<(), ReplayError>)
    requires
        old(bay).wf(),
    ensures
        final(bay).wf(),
        r is Ok <==> replay_step(old(bay)@, record, 0) is Some,
        r is Ok ==> exists|n: EntityID| Some(final(bay)@) == replay_step(old(bay)@, record, n),
        r == Err::<(), ReplayError>(ReplayError::UnexpectedRecord) <==> (record is GameVersion
            || record is InitialNextEntityID || record is InitialBayState),
        r is Err ==> final(bay)@ == old(bay)@,
{
    match record {
        ReplayRecord::TickStart => {
            assert(Some(bay@) == replay_step(old(bay)@, record, 0));
            Ok(())
        },
        ReplayRecord::BotAction { bay_id, bot_id, bot_action } => {
            if bay.check_bot_action(bot_id, bot_action).is_ok() {
                let _ = bay.apply_bot_action(bay_id, bot_id, bot_action, next_entity_id);
                let ghost n = choose|n: EntityID| bay@ == applied(old(bay)@, bot_id, bot_action, n);
                assert(Some(bay@) == replay_step(old(bay)@, record, n));
                Ok(())
            } else {
                Err(ReplayError::ActionNotAllowed)
            }
        },
        ReplayRecord::RechargeBots { bay_id, bot_ids } => {
            let _ = bay.recharge_bots(bay_id, bot_ids.as_slice());
            assert(Some(bay@) == replay_step(old(bay)@, record, 0));
            Ok(())
        },
        _ => Err(ReplayError::UnexpectedRecord),
    }
}

} // verus!
