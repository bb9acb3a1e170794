use vstd::prelude::*;
use crate::entropy::EntropySource;
use crate::payment::{Payment, PaymentView};
use crate::pool::{
    after_take, draw_at, get_full_set_len, pick, pool_has_key, pool_sum, pool_wf, DropItem,
};

verus! {

/// The descriptors of a sequence of payments.
pub open spec fn keys_view(s: Seq<Payment>) -> Seq<PaymentView> {
    s.map_values(|p: Payment| p@)
}

/// The descriptors of a pool's entries, in pool order.
pub open spec fn pool_keys(s: Seq<DropItem>) -> Seq<PaymentView> {
    s.map_values(|d: DropItem| d.drop_content@)
}

/// Whether a chance roll of `draw` wins while `remaining_chance` units are left.
pub open spec fn chance_won(draw: nat, remaining_chance: nat) -> bool {
    remaining_chance > 0 && draw <= remaining_chance
}

/// The descriptors of the pool's entries, copied in pool order.
pub fn descriptors_of(set: &Vec<DropItem>) -> (r: Vec<Payment>)
    ensures
        keys_view(r@) == pool_keys(set@),
{
    let mut r: Vec<Payment> = Vec::new();
    let mut i: usize = 0;
    while i < set.len()
        invariant
            i <= set.len(),
            r.len() == i,
            forall|j: int| 0 <= j < i ==> #[trigger] r@[j]@ == set@[j].drop_content@,
        decreases set.len() - i,
    {
        r.push(set[i].drop_content.duplicate());
        i = i + 1;
    }
    assert(keys_view(r@) =~= pool_keys(set@));
    r
}

/// The outcome of a chance roll: it wins when chance units remain and the
/// draw does not exceed their number.
pub fn chance_roll_wins(random: usize, remaining_chance_drops: usize) -> (r: bool)
    ensures
        r == chance_won(random as nat, remaining_chance_drops as nat),
{
    remaining_chance_drops > 0 && random <= remaining_chance_drops
}

/// One chest-opening session: both pools as loaded from the store, their
/// aggregate counters, the headline item, and the descriptors that were
/// loaded, so that the commit can delete the ones that ran out.
pub struct StorageCache<R: EntropySource> {
    pub chest_nonce: u64,
    pub remaining_guaranteed_drops: usize,
    pub remaining_chance_drops: usize,
    pub remaining_guaranteed_set: Vec<DropItem>,
    pub remaining_chance_set: Vec<DropItem>,
    pub randomness_source: R,
    pub guaranteed_item: Payment,
    pub loaded_guaranteed_keys: Vec<Payment>,
    pub loaded_chance_keys: Vec<Payment>,
}

impl<R: EntropySource> StorageCache<R> {
    /// Both pools are live, each counter equals its pool's units, and every
    /// descriptor in a pool was loaded from the store.
    pub open spec fn wf(&self) -> bool {
        &&& pool_wf(self.remaining_guaranteed_set@)
        &&& pool_wf(self.remaining_chance_set@)
        &&& self.remaining_guaranteed_drops == pool_sum(self.remaining_guaranteed_set@)
        &&& self.remaining_chance_drops == pool_sum(self.remaining_chance_set@)
        &&& forall|k: PaymentView|
            pool_has_key(self.remaining_guaranteed_set@, k) ==> keys_view(
                self.loaded_guaranteed_keys@,
            ).contains(k)
        &&& forall|k: PaymentView|
            pool_has_key(self.remaining_chance_set@, k) ==> keys_view(
                self.loaded_chance_keys@,
            ).contains(k)
    }

    /// Everything but the guaranteed pool, its counter and the entropy source agree.
    pub open spec fn same_chance_side(&self, other: &Self) -> bool {
        &&& self.chest_nonce == other.chest_nonce
        &&& self.remaining_chance_drops == other.remaining_chance_drops
        &&& self.remaining_chance_set == other.remaining_chance_set
        &&& self.guaranteed_item == other.guaranteed_item
        &&& self.loaded_guaranteed_keys == other.loaded_guaranteed_keys
        &&& self.loaded_chance_keys == other.loaded_chance_keys
    }

    /// Everything but the chance pool, its counter and the entropy source agree.
    pub open spec fn same_guaranteed_side(&self, other: &Self) -> bool {
        &&& self.chest_nonce == other.chest_nonce
        &&& self.remaining_guaranteed_drops == other.remaining_guaranteed_drops
        &&& self.remaining_guaranteed_set == other.remaining_guaranteed_set
        &&& self.guaranteed_item == other.guaranteed_item
        &&& self.loaded_guaranteed_keys == other.loaded_guaranteed_keys
        &&& self.loaded_chance_keys == other.loaded_chance_keys
    }

    /// Opens a session on the pools as the store holds them.
    pub fn new(
        chest_nonce: u64,
        guaranteed_set: Vec<DropItem>,
        chance_set: Vec<DropItem>,
        guaranteed_item: Payment,
        randomness_source: R,
    ) -> (r: Self)
        requires
            pool_wf(guaranteed_set@),
            pool_wf(chance_set@),
            pool_sum(guaranteed_set@) <= usize::MAX,
            pool_sum(chance_set@) <= usize::MAX,
        ensures
            r.wf(),
            r.chest_nonce == chest_nonce,
            r.remaining_guaranteed_set == guaranteed_set,
            r.remaining_chance_set == chance_set,
            r.remaining_guaranteed_drops == pool_sum(guaranteed_set@),
            r.remaining_chance_drops == pool_sum(chance_set@),
            r.guaranteed_item == guaranteed_item,
            r.randomness_source == randomness_source,
            keys_view(r.loaded_guaranteed_keys@) == pool_keys(guaranteed_set@),
            keys_view(r.loaded_chance_keys@) == pool_keys(chance_set@),
    {
        let remaining_guaranteed_drops = get_full_set_len(&guaranteed_set);
        let remaining_chance_drops = get_full_set_len(&chance_set);
        let loaded_guaranteed_keys = descriptors_of(&guaranteed_set);
        let loaded_chance_keys = descriptors_of(&chance_set);
        proof {
            assert forall|k: PaymentView| pool_has_key(guaranteed_set@, k) implies keys_view(
                loaded_guaranteed_keys@,
            ).contains(k) by {
                let i = choose|i: int|
                    0 <= i < guaranteed_set@.len() && #[trigger] guaranteed_set@[i].drop_content@
                        == k;
                assert(pool_keys(guaranteed_set@)[i] == k);
            }
            assert forall|k: PaymentView| pool_has_key(chance_set@, k) implies keys_view(
                loaded_chance_keys@,
            ).contains(k) by {
                let i = choose|i: int|
                    0 <= i < chance_set@.len() && #[trigger] chance_set@[i].drop_content@ == k;
                assert(pool_keys(chance_set@)[i] == k);
            }
        }
        StorageCache {
            chest_nonce,
            remaining_guaranteed_drops,
            remaining_chance_drops,
            remaining_guaranteed_set: guaranteed_set,
            remaining_chance_set: chance_set,
            randomness_source,
            guaranteed_item,
            loaded_guaranteed_keys,
            loaded_chance_keys,
        }
    }

    /// Rolls for a chance drop: one draw in `[0, remaining_guaranteed_drops)`,
    /// which wins when chance units remain and the draw does not exceed them.
    pub fn has_won_chance_drop(&mut self) -> (r: bool)
        requires
            old(self).wf(),
            old(self).remaining_guaranteed_drops > 0,
        ensures
            final(self).wf(),
            final(self).same_chance_side(old(self)),
            final(self).same_guaranteed_side(old(self)),
            exists|draw: nat|
                draw < old(self).remaining_guaranteed_drops && r == chance_won(
                    draw,
                    old(self).remaining_chance_drops as nat,
                ),
    {
        let random = self.randomness_source.next_usize_in_range(
            0,
            self.remaining_guaranteed_drops,
        );
        let r = chance_roll_wins(random, self.remaining_chance_drops);
        assert(random < self.remaining_guaranteed_drops && r == chance_won(
            random as nat,
            self.remaining_chance_drops as nat,
        ));
        r
    }

    /// Draws one unit from the chance pool, weighted by units left.
    pub fn get_chance_drop(&mut self) -> (r: Payment)
        requires
            old(self).wf(),
            old(self).remaining_chance_drops > 0,
        ensures
            final(self).wf(),
            final(self).same_guaranteed_side(old(self)),
            final(self).remaining_chance_drops == old(self).remaining_chance_drops - 1,
            exists|pos: nat|
                pos < old(self).remaining_chance_drops && 0 <= #[trigger] pick(
                    old(self).remaining_chance_set@,
                    pos,
                ) < old(self).remaining_chance_set@.len() && r@ == old(
                    self,
                ).remaining_chance_set@[pick(old(self).remaining_chance_set@, pos)].drop_content@
                    && final(self).remaining_chance_set@ == after_take(
                    old(self).remaining_chance_set@,
                    pick(old(self).remaining_chance_set@, pos),
                ),
    {
        self.remaining_chance_drops = self.remaining_chance_drops - 1;
        let set_len = get_full_set_len(&self.remaining_chance_set);
        let pos = self.randomness_source.next_usize_in_range(0, set_len);
        let r = draw_at(&mut self.remaining_chance_set, pos);
        proof {
            assert forall|k: PaymentView| pool_has_key(self.remaining_chance_set@, k) implies keys_view(
                self.loaded_chance_keys@,
            ).contains(k) by {
                crate::pool::lemma_wf_after_take(
                    old(self).remaining_chance_set@,
                    pick(old(self).remaining_chance_set@, pos as nat),
                );
                assert(pool_has_key(old(self).remaining_chance_set@, k));
            }
        }
        r
    }

    /// Draws one unit from the guaranteed pool, weighted by units left.
    pub fn get_guaranteed_drop_from_set(&mut self) -> (r: Payment)
        requires
            old(self).wf(),
            old(self).remaining_guaranteed_drops > 0,
        ensures
            final(self).wf(),
            final(self).same_chance_side(old(self)),
            final(self).remaining_guaranteed_drops == old(self).remaining_guaranteed_drops - 1,
            exists|pos: nat|
                pos < old(self).remaining_guaranteed_drops && 0 <= #[trigger] pick(
                    old(self).remaining_guaranteed_set@,
                    pos,
                ) < old(self).remaining_guaranteed_set@.len() && r@ == old(
                    self,
                ).remaining_guaranteed_set@[pick(
                    old(self).remaining_guaranteed_set@,
                    pos,
                )].drop_content@ && final(self).remaining_guaranteed_set@ == after_take(
                    old(self).remaining_guaranteed_set@,
                    pick(old(self).remaining_guaranteed_set@, pos),
                ),
    {
        self.remaining_guaranteed_drops = self.remaining_guaranteed_drops - 1;
        let set_len = get_full_set_len(&self.remaining_guaranteed_set);
        let pos = self.randomness_source.next_usize_in_range(0, set_len);
        let r = draw_at(&mut self.remaining_guaranteed_set, pos);
        proof {
            assert forall|k: PaymentView|
                pool_has_key(self.remaining_guaranteed_set@, k) implies keys_view(
                self.loaded_guaranteed_keys@,
            ).contains(k) by {
                crate::pool::lemma_wf_after_take(
                    old(self).remaining_guaranteed_set@,
                    pick(old(self).remaining_guaranteed_set@, pos as nat),
                );
                assert(pool_has_key(old(self).remaining_guaranteed_set@, k));
            }
        }
        r
    }

    /// The headline item with its amount replaced by `quantity`; the pools are untouched.
    pub fn get_guaranteed_drop_with_quantity(&mut self, quantity: Vec<u8>) -> (r: Payment)
        ensures
            r@ == (
                old(self).guaranteed_item.token_identifier@,
                old(self).guaranteed_item.token_nonce,
                quantity@,
            ),
            *final(self) == *old(self),
    {
        self.guaranteed_item.with_amount(quantity)
    }

    /// The headline item as stored; the pools are untouched.
    pub fn get_guaranteed_drop(&mut self) -> (r: Payment)
        ensures
            r@ == old(self).guaranteed_item@,
            *final(self) == *old(self),
    {
        self.guaranteed_item.duplicate()
    }
}

} // verus!
