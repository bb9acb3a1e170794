use vstd::prelude::*;
use crate::payment::{Payment, PaymentView};
use crate::pool::{pool_has_key, DropItem};
use crate::entropy::EntropySource;
use crate::session::{keys_view, StorageCache};

verus! {

/// One write to a pool's mapping in the store.
#[derive(Clone, Debug)]
pub enum StoreWrite {
    /// Set the units left of a descriptor.
    Upsert(Payment, usize),
    /// Remove a descriptor.
    Delete(Payment),
}

/// The mapping after one write.
pub open spec fn apply_write(m: Map<PaymentView, nat>, w: StoreWrite) -> Map<PaymentView, nat> {
    match w {
        StoreWrite::Upsert(k, v) => m.insert(k@, v as nat),
        StoreWrite::Delete(k) => m.remove(k@),
    }
}

/// The mapping after a sequence of writes, applied in order.
pub open spec fn apply_writes(m: Map<PaymentView, nat>, ws: Seq<StoreWrite>) -> Map<
    PaymentView,
    nat,
>
    decreases ws.len(),
{
    if ws.len() == 0 {
        m
    } else {
        apply_write(apply_writes(m, ws.drop_last()), ws.last())
    }
}

/// The loaded descriptors that no pool entry holds any more, in load order.
pub open spec fn absent_keys(loaded: Seq<PaymentView>, s: Seq<DropItem>) -> Seq<PaymentView>
    decreases loaded.len(),
{
    if loaded.len() == 0 {
        Seq::empty()
    } else if pool_has_key(s, loaded.last()) {
        absent_keys(loaded.drop_last(), s)
    } else {
        absent_keys(loaded.drop_last(), s).push(loaded.last())
    }
}

/// `w` sets the units of `d`'s descriptor to `d`'s units.
pub open spec fn upserts(w: StoreWrite, d: DropItem) -> bool {
    match w {
        StoreWrite::Upsert(k, v) => k@ == d.drop_content@ && v == d.amount_left,
        StoreWrite::Delete(_) => false,
    }
}

/// `w` removes descriptor `k`.
pub open spec fn deletes(w: StoreWrite, k: PaymentView) -> bool {
    match w {
        StoreWrite::Upsert(_, _) => false,
        StoreWrite::Delete(p) => p@ == k,
    }
}

/// The commit of a pool: an upsert for each entry, in pool order, then a
/// delete for each loaded descriptor that the pool no longer holds.
pub open spec fn is_commit_of(ws: Seq<StoreWrite>, s: Seq<DropItem>, loaded: Seq<PaymentView>) -> bool {
    let dels = absent_keys(loaded, s);
    &&& ws.len() == s.len() + dels.len()
    &&& forall|i: int| 0 <= i < s.len() ==> upserts(#[trigger] ws[i], s[i])
    &&& forall|j: int| 0 <= j < dels.len() ==> deletes(#[trigger] ws[s.len() + j], dels[j])
}

/// Whether the pool holds an entry with descriptor `k`.
pub fn pool_contains(set: &Vec<DropItem>, k: &Payment) -> (r: bool)
    ensures
        r == pool_has_key(set@, k@),
{
    let mut i: usize = 0;
    while i < set.len()
        invariant
            i <= set.len(),
            forall|j: int| 0 <= j < i ==> #[trigger] set@[j].drop_content@ != k@,
        decreases set.len() - i,
    {
        if set[i].drop_content.same_as(k) {
            return true;
        }
        i = i + 1;
    }
    false
}

/// The writes that commit a pool to the store it was loaded from.
pub fn pool_commit_writes(set: &Vec<DropItem>, loaded_keys: &Vec<Payment>) -> (ws: Vec<StoreWrite>)
    ensures
        is_commit_of(ws@, set@, keys_view(loaded_keys@)),
{
    let mut ws: Vec<StoreWrite> = Vec::new();
    let mut i: usize = 0;
    while i < set.len()
        invariant
            i <= set.len(),
            ws.len() == i,
            forall|j: int| 0 <= j < i ==> upserts(#[trigger] ws@[j], set@[j]),
        decreases set.len() - i,
    {
        ws.push(StoreWrite::Upsert(set[i].drop_content.duplicate(), set[i].amount_left));
        i = i + 1;
    }
    let ghost loaded = keys_view(loaded_keys@);
    let mut t: usize = 0;
    while t < loaded_keys.len()
        invariant
            t <= loaded_keys.len(),
            loaded == keys_view(loaded_keys@),
            ws.len() == set.len() + absent_keys(loaded.take(t as int), set@).len(),
            forall|j: int| 0 <= j < set.len() ==> upserts(#[trigger] ws@[j], set@[j]),
            forall|j: int|
                0 <= j < absent_keys(loaded.take(t as int), set@).len() ==> deletes(
                    #[trigger] ws@[set.len() + j],
                    absent_keys(loaded.take(t as int), set@)[j],
                ),
        decreases loaded_keys.len() - t,
    {
        assert(loaded.take(t + 1).drop_last() =~= loaded.take(t as int));
        assert(loaded.take(t + 1).last() == loaded_keys@[t as int]@);
        let ghost before = absent_keys(loaded.take(t as int), set@);
        let ghost ws_before = ws@;
        if !pool_contains(set, &loaded_keys[t]) {
            ws.push(StoreWrite::Delete(loaded_keys[t].duplicate()));
            assert(absent_keys(loaded.take(t + 1), set@) == before.push(loaded_keys@[t as int]@));
            assert forall|j: int|
                0 <= j < absent_keys(loaded.take(t + 1), set@).len() implies deletes(
                #[trigger] ws@[set.len() + j],
                absent_keys(loaded.take(t + 1), set@)[j],
            ) by {
                if j < before.len() {
                    assert(ws@[set.len() + j] == ws_before[set.len() + j]);
                }
            }
        }
        t = t + 1;
    }
    assert(loaded.take(loaded_keys.len() as int) =~= loaded);
    ws
}

/// The writes that end a session, one list for each pool's mapping.
#[derive(Clone, Debug)]
pub struct SessionWrites {
    pub guaranteed: Vec<StoreWrite>,
    pub chance: Vec<StoreWrite>,
}

impl<R: EntropySource> StorageCache<R> {
    /// Ends the session and gives the writes that bring both mappings of the
    /// store to the session's state: every entry left is upserted, every
    /// loaded descriptor that ran out is deleted.
    pub fn commit(self) -> (r: SessionWrites)
        ensures
            is_commit_of(
                r.guaranteed@,
                self.remaining_guaranteed_set@,
                keys_view(self.loaded_guaranteed_keys@),
            ),
            is_commit_of(r.chance@, self.remaining_chance_set@, keys_view(self.loaded_chance_keys@)),
    {
        let chance = pool_commit_writes(&self.remaining_chance_set, &self.loaded_chance_keys);
        let guaranteed = pool_commit_writes(
            &self.remaining_guaranteed_set,
            &self.loaded_guaranteed_keys,
        );
        SessionWrites { guaranteed, chance }
    }
}

} // verus!
