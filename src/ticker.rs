//! The steps of a bay's tick: committing each bot's chosen action, then
//! recharging every bot. The sandbox that runs the scripts lies outside; it
//! hands each bot's choice to [`Bay::tick_bot`].
use crate::bay::{lemma_wf_in_place, partial_entity_bounded, Bay};
use crate::bot_actions::build_entity::apply_bot_build_entity;
use crate::bot_actions::deposit_resource::apply_bot_deposit_resource;
use crate::bot_actions::harvest_resource::apply_bot_harvest_resource;
use crate::bot_actions::move_towards::apply_bot_move_towards;
use crate::bot_actions::withdraw_resource::apply_bot_withdraw_resource;
use crate::bot_actions::build_entity::bot_can_build_entity;
use crate::bot_actions::deposit_resource::bot_can_deposit_resource;
use crate::bot_actions::harvest_resource::bot_can_harvest_resource;
use crate::bot_actions::move_towards::bot_can_move_towards;
use crate::bot_actions::withdraw_resource::bot_can_withdraw_resource;
use crate::config::BOT_ENERGY_PER_RECHARGE;
use crate::replay::ReplayRecord;
use crate::rules::{applied, built, check_action, lemma_antennas_kept, recharged, recharged_one};
use crate::types::{ActionError, Bot, BotAction, Entity, EntityID};
use std::sync::atomic::AtomicU64;
use vstd::prelude::*;

verus! {

broadcast use vstd::std_specs::hash::group_hash_axioms;

impl Bay {
    /// Whether the bot `bot_id` of this bay may take `bot_action`; a missing
    /// bot may take none.
    pub fn check_bot_action(&self, bot_id: EntityID, bot_action: BotAction) -> (r: Result<(), ActionError>)
        requires
            self.wf(),
        ensures
            r == check_action(self@, bot_id, bot_action),
    {
        let bot = match self.get_bot(bot_id) {
            Some(bot) => bot,
            None => return Err(ActionError::ActionNotPossible),
        };
        match bot_action {
            BotAction::MoveTowards(direction) => bot_can_move_towards(bot, direction, self),
            BotAction::HarvestResource { x, y } => bot_can_harvest_resource(bot, x, y, self),
            BotAction::DepositResource { x, y } => bot_can_deposit_resource(bot, x, y, self),
            BotAction::WithdrawResource { resource, x, y } => bot_can_withdraw_resource(bot, resource, x, y, self),
            BotAction::BuildEntity { entity_type, x, y } => bot_can_build_entity(bot, entity_type, x, y, self),
        }
    }

    /// Commits the allowed `bot_action` of the bot `bot_id` and returns the
    /// record that logs it. A new entity takes its id from `next_entity_id`.
    pub fn apply_bot_action(
        &mut self,
        bay_id: EntityID,
        bot_id: EntityID,
        bot_action: BotAction,
        next_entity_id: &AtomicU64,
    ) -> (record: ReplayRecord)
        requires
            old(self).wf(),
            check_action(old(self)@, bot_id, bot_action) == Ok::<(), ActionError>(()),
        ensures
            final(self).wf(),
            exists|n: EntityID| final(self)@ == applied(old(self)@, bot_id, bot_action, n),
            record == (ReplayRecord::BotAction { bay_id, bot_id, bot_action }),
    {
        match bot_action {
            BotAction::MoveTowards(direction) => {
                apply_bot_move_towards(self, bot_id, direction);
                assert(self@ == applied(old(self)@, bot_id, bot_action, 0));
            },
            BotAction::HarvestResource { x, y } => {
                apply_bot_harvest_resource(self, bot_id, x, y);
                assert(self@ == applied(old(self)@, bot_id, bot_action, 0));
            },
            BotAction::DepositResource { x, y } => {
                apply_bot_deposit_resource(self, bot_id, x, y);
                assert(self@ == applied(old(self)@, bot_id, bot_action, 0));
            },
            BotAction::WithdrawResource { resource, x, y } => {
                apply_bot_withdraw_resource(self, bot_id, resource, x, y);
                assert(self@ == applied(old(self)@, bot_id, bot_action, 0));
            },
            BotAction::BuildEntity { entity_type, x, y } => {
                apply_bot_build_entity(self, bot_id, entity_type, x, y, next_entity_id);
                let ghost n = choose|n: EntityID| self@ == built(old(self)@, bot_id, entity_type, x, y, n);
                assert(self@ == applied(old(self)@, bot_id, bot_action, n));
            },
        }
        ReplayRecord::BotAction { bay_id, bot_id, bot_action }
    }

    /// Handles one bot's turn of a tick, given what its script chose: `None`
    /// when it chose nothing or failed. An allowed action is committed and its
    /// record returned; anything else leaves the bay as it is.
    pub fn tick_bot(
        &mut self,
        bay_id: EntityID,
        bot_id: EntityID,
        chosen: Option<BotAction>,
        next_entity_id: &AtomicU64,
    ) -> (record: Option<ReplayRecord>)
        requires
            old(self).wf(),
        ensures
            final(self).wf(),
            match chosen {
                Some(a) => if check_action(old(self)@, bot_id, a) is Ok {
                    &&& exists|n: EntityID| final(self)@ == applied(old(self)@, bot_id, a, n)
                    &&& record == Some(ReplayRecord::BotAction { bay_id, bot_id, bot_action: a })
                } else {
                    &&& final(self)@ == old(self)@
                    &&& record is None
                },
                None => final(self)@ == old(self)@ && record is None,
            },
    {
        match chosen {
            Some(bot_action) => {
                if self.check_bot_action(bot_id, bot_action).is_ok() {
                    Some(self.apply_bot_action(bay_id, bot_id, bot_action, next_entity_id))
                } else {
                    None
                }
            },
            None => None,
        }
    }

    /// Adds `BOT_ENERGY_PER_RECHARGE` to the energy of each listed bot, in
    /// order (ids that name no bot are passed over; energy stops at
    /// `u32::MAX`), and returns the record that logs it.
    pub fn recharge_bots(&mut self, bay_id: EntityID, bot_ids: &[EntityID]) -> (record: ReplayRecord)
        requires
            old(self).wf(),
        ensures
            final(self).wf(),
            final(self)@ == recharged(old(self)@, bot_ids@, BOT_ENERGY_PER_RECHARGE),
            record matches ReplayRecord::RechargeBots { bay_id: b, bot_ids: ids } && b == bay_id && ids@ == bot_ids@,
    {
        let mut listed: Vec<EntityID> = Vec::new();
        let mut i: usize = 0;
        while i < bot_ids.len()
            invariant
                i <= bot_ids.len(),
                self.wf(),
                self@ == recharged(old(self)@, bot_ids@.take(i as int), BOT_ENERGY_PER_RECHARGE),
                listed@ == bot_ids@.take(i as int),
            decreases bot_ids.len() - i,
        {
            let id = bot_ids[i];
            let ghost before = *self;
            let ghost v = self@;
            if let Some(bot) = self.get_bot(id) {
                let bot = *bot;
                let (_, x, y) = *self.entities.get(&id).unwrap();
                let charged = Bot { energy: bot.energy.saturating_add(BOT_ENERGY_PER_RECHARGE), ..bot };
                self.entities.insert(id, (Entity::Bot(charged), x, y));
                proof {
                    let w = self@;
                    assert(w.entities =~= recharged_one(v, id, BOT_ENERGY_PER_RECHARGE).entities);
                    assert forall|k: EntityID| #[trigger] w.is_antenna(k) <==> v.is_antenna(k) by {}
                    lemma_antennas_kept(v, w);
                    assert forall|k: EntityID| #[trigger] w.has(k) && w.entity(k) is PartialEntity
                        implies partial_entity_bounded(w.entity(k)->PartialEntity_0) by {
                        assert(v.has(k));
                    }
                    lemma_wf_in_place(v, w);
                    self.lemma_cells_in_place(&before);
                }
            }
            listed.push(id);
            proof {
                assert(bot_ids@.take(i as int + 1).drop_last() == bot_ids@.take(i as int));
                assert(bot_ids@.take(i as int + 1).last() == id);
            }
            i = i + 1;
        }
        assert(bot_ids@.take(bot_ids.len() as int) == bot_ids@);
        ReplayRecord::RechargeBots { bay_id, bot_ids: listed }
    }
}

} // verus!
