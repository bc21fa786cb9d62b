//! Choosing the id of a new entity.
use crate::bay::Bay;
use crate::rules::{first_unused, fresh_id};
use crate::types::EntityID;
use vstd::prelude::*;

verus! {

broadcast use vstd::std_specs::hash::group_hash_axioms;

/// The id `j` steps after `n`, with wrap-around.
pub open spec fn offset(n: EntityID, j: int) -> EntityID {
    ((n as int + j) % 0x1_0000_0000_0000_0000) as u64
}

/// The ids `0..k` steps after `n`.
pub open spec fn offsets(n: EntityID, k: nat) -> Set<EntityID>
    decreases k,
{
    if k == 0 {
        Set::empty()
    } else {
        offsets(n, (k - 1) as nat).insert(offset(n, k - 1))
    }
}

proof fn lemma_offsets(n: EntityID, k: nat)
    requires
        k <= 0x1_0000_0000_0000_0000,
    ensures
        offsets(n, k).finite(),
        offsets(n, k).len() == k,
        forall|j: int| 0 <= j < k ==> #[trigger] offsets(n, k).contains(offset(n, j)),
    decreases k,
{
    if k > 0 {
        lemma_offsets(n, (k - 1) as nat);
        if offsets(n, (k - 1) as nat).contains(offset(n, k - 1)) {
            lemma_offsets_members(n, (k - 1) as nat, offset(n, k - 1));
            let j = choose|j: int| 0 <= j < k - 1 && #[trigger] offset(n, j) == offset(n, k - 1);
            assert(false);
        }
    }
}

proof fn lemma_offsets_members(n: EntityID, k: nat, v: EntityID)
    requires
        offsets(n, k).contains(v),
    ensures
        exists|j: int| 0 <= j < k && offset(n, j) == v,
    decreases k,
{
    if v != offset(n, k - 1) {
        lemma_offsets_members(n, (k - 1) as nat, v);
    }
}

/// Either the search for an unused id succeeds, or every id it tried is used.
proof fn lemma_first_unused_or_all_used(used: Set<EntityID>, n: EntityID, tries: nat)
    ensures
        !used.contains(first_unused(used, n, tries)) || forall|j: int|
            0 <= j <= tries ==> #[trigger] used.contains(offset(n, j)),
    decreases tries,
{
    if used.contains(n) && tries > 0 {
        let m = n.wrapping_add(1);
        lemma_first_unused_or_all_used(used, m, (tries - 1) as nat);
        if used.contains(first_unused(used, n, tries)) {
            assert forall|j: int| 0 <= j <= tries implies #[trigger] used.contains(offset(n, j)) by {
                if j > 0 {
                    assert(offset(m, j - 1) == offset(n, j));
                    assert(used.contains(offset(m, j - 1)));
                }
            }
        }
    }
}

/// A finite set of ids leaves some id among any `len + 1` consecutive ones.
pub proof fn lemma_fresh_id_unused(used: Set<EntityID>, n: EntityID)
    requires
        used.finite(),
        used.len() < 0x1_0000_0000_0000_0000,
    ensures
        !used.contains(first_unused(used, n, used.len())),
{
    lemma_first_unused_or_all_used(used, n, used.len());
    if used.contains(first_unused(used, n, used.len())) {
        let k = (used.len() + 1) as nat;
        lemma_offsets(n, k);
        assert forall|v: EntityID| #[trigger] offsets(n, k).contains(v) implies used.contains(v) by {
            lemma_offsets_members(n, k, v);
        }
        vstd::set_lib::lemma_len_subset(offsets(n, k), used);
    }
}

impl Bay {
    /// The id a new entity receives when the allocator hands out `n`: `n`
    /// itself, or, should the bay already use it, the next id it does not use.
    pub fn fresh_entity_id(&self, n: EntityID) -> (id: EntityID)
        requires
            self@.entities.dom().finite(),
        ensures
            id == fresh_id(self@, n),
            !self@.has(id),
    {
        let ghost used = self@.entities.dom();
        let mut candidate = n;
        let mut tries: usize = self.entities.len();
        while tries > 0 && self.entities.contains_key(&candidate)
            invariant
                used == self@.entities.dom(),
                first_unused(used, candidate, tries as nat) == fresh_id(self@, n),
            decreases tries,
        {
            candidate = candidate.wrapping_add(1);
            tries = tries - 1;
        }
        proof {
            lemma_fresh_id_unused(used, n);
        }
        candidate
    }
}

} // verus!
