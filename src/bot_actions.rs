//! The actions a bot can take: for each, a check that decides whether it is
//! allowed, and a commit that carries it out on the bay.
use crate::rules::{adjacent, stored, with_stored};
use crate::types::{Antenna, Bot, Resource};
use vstd::prelude::*;

pub mod build_entity;
pub mod deposit_resource;
pub mod harvest_resource;
pub mod move_towards;
pub mod withdraw_resource;

verus! {

/// `(x, y)` shares a side with the bot's cell.
pub(crate) fn is_adjacent(bot: &Bot, x: u32, y: u32) -> (r: bool)
    ensures
        r == adjacent(*bot, x as int, y as int),
{
    let (x, y) = (x as usize, y as usize);
    let dx = if bot.x >= x { bot.x - x } else { x - bot.x };
    let dy = if bot.y >= y { bot.y - y } else { y - bot.y };
    (dx == 1 && dy == 0) || (dx == 0 && dy == 1)
}

/// How many units of `r` the antenna stores.
pub(crate) fn stored_count(a: &Antenna, r: Resource) -> (n: u8)
    ensures
        n == stored(*a, r),
{
    match r {
        Resource::Copper => a.stored_copper,
        Resource::Gold => a.stored_gold,
        Resource::Silicon => a.stored_silicon,
        Resource::Plastic => a.stored_plastic,
    }
}

/// The antenna with its count of `r` set to `n`.
pub(crate) fn with_stored_count(a: &Antenna, r: Resource, n: u8) -> (res: Antenna)
    ensures
        res == with_stored(*a, r, n),
{
    match r {
        Resource::Copper => Antenna { stored_copper: n, ..*a },
        Resource::Gold => Antenna { stored_gold: n, ..*a },
        Resource::Silicon => Antenna { stored_silicon: n, ..*a },
        Resource::Plastic => Antenna { stored_plastic: n, ..*a },
    }
}

} // verus!
